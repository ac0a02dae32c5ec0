//! Loading a template and checking it before it is rendered.
use crate::engine::{engine_safe, is_engine_safe, mustache_output, opens_tag, render_text, zipped};
use crate::value::{context_entries, Value, ValueView};
use crate::table::Table;
use crate::text::{chars_of, find_char, find_from};
use vstd::prelude::*;
use vstd::string::*;
use vstd::utf8::*;

verus! {

/// `std::string::FromUtf8Error`, the error of `String::from_utf8`.
/// Nothing is known of what is in it.
#[verifier::external_type_specification]
#[verifier::external_body]
pub struct ExFromUtf8Error(std::string::FromUtf8Error);

/// `String::from_utf8` succeeds exactly on valid UTF-8, and the string
/// that it gives has the bytes that it was given.
pub assume_specification[ String::from_utf8 ](bytes: Vec<u8>) -> (r: Result<
    String,
    std::string::FromUtf8Error,
>)
    ensures
        r is Ok <==> valid_utf8(bytes@),
        r matches Ok(text) ==> encode_utf8(text@) == bytes@,
;

/// Why a template could not be used.
pub enum TemplateError {
    /// The resource could not be loaded; the text says why.
    Unreadable(String),
    /// The template is not under the resources root.
    OutsideRoot,
    /// The resource is not UTF-8.
    NotUtf8,
    /// Some opening braces are not followed by closing ones.
    MismatchedBraces,
    /// The template uses a tag that cannot be rendered.
    Unsupported,
    /// The engine found the template malformed.
    Rejected,
}

/// An error as a value of the mathematics.
pub enum TemplateErrorView {
    Unreadable(Seq<char>),
    OutsideRoot,
    NotUtf8,
    MismatchedBraces,
    Unsupported,
    Rejected,
}

impl View for TemplateError {
    type V = TemplateErrorView;

    open spec fn view(&self) -> TemplateErrorView {
        match self {
            TemplateError::Unreadable(why) => TemplateErrorView::Unreadable(why@),
            TemplateError::OutsideRoot => TemplateErrorView::OutsideRoot,
            TemplateError::NotUtf8 => TemplateErrorView::NotUtf8,
            TemplateError::MismatchedBraces => TemplateErrorView::MismatchedBraces,
            TemplateError::Unsupported => TemplateErrorView::Unsupported,
            TemplateError::Rejected => TemplateErrorView::Rejected,
        }
    }
}

/// The message of an error.
pub open spec fn error_message(error: TemplateErrorView) -> Seq<char> {
    match error {
        TemplateErrorView::Unreadable(why) => why,
        TemplateErrorView::OutsideRoot => "template is not under the resources root"@,
        TemplateErrorView::NotUtf8 => "template is not valid UTF-8"@,
        TemplateErrorView::MismatchedBraces => "mismatched curly braces"@,
        TemplateErrorView::Unsupported => "template uses a tag that cannot be rendered"@,
        TemplateErrorView::Rejected => "template is malformed"@,
    }
}

impl TemplateError {
    /// The message of the error.
    pub fn message(&self) -> (text: String)
        ensures
            text@ == error_message(self@),
    {
        match self {
            TemplateError::Unreadable(why) => why.clone(),
            TemplateError::OutsideRoot => "template is not under the resources root".to_owned(),
            TemplateError::NotUtf8 => "template is not valid UTF-8".to_owned(),
            TemplateError::MismatchedBraces => "mismatched curly braces".to_owned(),
            TemplateError::Unsupported => "template uses a tag that cannot be rendered".to_owned(),
            TemplateError::Rejected => "template is malformed".to_owned(),
        }
    }
}

/// Two closing braces stand at `at`.
pub open spec fn closes_tag(text: Seq<char>, at: int) -> bool {
    0 <= at && at + 1 < text.len() && text[at] == '}' && text[at + 1] == '}'
}

/// Every pair of opening braces is followed by a pair of closing braces.
pub open spec fn braces_balanced(text: Seq<char>) -> bool {
    forall|at: int|
        opens_tag(text, at) ==> exists|end: int| end >= at + 2 && closes_tag(text, end)
}

/// The first index at or after `from` where `c` stands twice in a row, or
/// the length of `text` where it does so nowhere from there on.
fn find_pair(text: &Vec<char>, c: char, from: usize) -> (at: usize)
    requires
        from <= text.len(),
    ensures
        from <= at <= text.len(),
        at < text.len() ==> at + 1 < text.len() && text@[at as int] == c && text@[at + 1] == c,
        forall|i: int|
            from <= i < at && i + 1 < text.len() ==> !(text@[i] == c && #[trigger] text@[i + 1] == c),
{
    let n = text.len();
    let mut at = from;
    while n - at > 1
        invariant
            n == text.len(),
            from <= at <= n,
            forall|i: int| from <= i < at && i + 1 < n ==> !(text@[i] == c && #[trigger] text@[i + 1] == c),
        decreases n - at,
    {
        if text[at] == c && text[at + 1] == c {
            return at;
        }
        at += 1;
    }
    n
}

/// Whether every `{{` in `text` is followed by a `}}`.
pub fn match_curly_braces(text: &Vec<char>) -> (balanced: bool)
    ensures
        balanced == braces_balanced(text@),
{
    let n = text.len();
    let mut index: usize = 0;
    while index < n
        invariant
            n == text.len(),
            index <= n,
            forall|at: int|
                at < index && opens_tag(text@, at) ==> exists|end: int|
                    end >= at + 2 && closes_tag(text@, end),
        decreases n - index,
    {
        let open = find_pair(text, '{', index);
        if open >= n {
            proof {
                assert forall|at: int| opens_tag(text@, at) implies exists|end: int|
                    end >= at + 2 && closes_tag(text@, end) by {
                    if at >= index {
                        assert(text@[at + 1] == '{');
                    }
                }
            }
            return true;
        }
        let close = find_pair(text, '}', open + 2);
        if close >= n {
            proof {
                assert(opens_tag(text@, open as int));
                assert forall|end: int| end >= open + 2 implies !closes_tag(text@, end) by {
                    if closes_tag(text@, end) {
                        assert(text@[end + 1] == '}');
                    }
                }
            }
            return false;
        }
        proof {
            assert(closes_tag(text@, close as int));
            assert forall|at: int| at < close + 2 && opens_tag(text@, at) implies exists|end: int|
                end >= at + 2 && closes_tag(text@, end) by {
                if at >= index {
                    if at < open {
                        assert(text@[at + 1] == '{');
                    }
                    assert(at + 2 <= close);
                }
            }
        }
        index = close + 2;
    }
    true
}

/// What a loaded resource gives as a template: its text, where it was
/// loaded, is UTF-8 and, with `debug` on, has its braces balanced.
pub open spec fn checked_template(loaded: Result<Vec<u8>, String>, debug: bool) -> Result<
    Seq<char>,
    TemplateErrorView,
> {
    match loaded {
        Err(why) => Err(TemplateErrorView::Unreadable(why@)),
        Ok(bytes) => if !valid_utf8(bytes@) {
            Err(TemplateErrorView::NotUtf8)
        } else if debug && !braces_balanced(decode_utf8(bytes@)) {
            Err(TemplateErrorView::MismatchedBraces)
        } else {
            Ok(decode_utf8(bytes@))
        },
    }
}

/// The view of a template or of the error in its place.
pub open spec fn template_view(r: Result<String, TemplateError>) -> Result<Seq<char>, TemplateErrorView> {
    match r {
        Ok(text) => Ok(text@),
        Err(e) => Err(e@),
    }
}

/// Checks what the loader gave.
pub fn check_template(loaded: Result<Vec<u8>, String>, debug: bool) -> (r: Result<String, TemplateError>)
    ensures
        template_view(r) == checked_template(loaded, debug),
{
    match loaded {
        Err(why) => Err(TemplateError::Unreadable(why)),
        Ok(bytes) => {
            let ghost given = bytes@;
            match String::from_utf8(bytes) {
                Err(_) => Err(TemplateError::NotUtf8),
                Ok(text) => {
                    proof {
                        encode_utf8_decode_utf8(text@);
                    }
                    if debug && !match_curly_braces(&chars_of(text.as_str())) {
                        Err(TemplateError::MismatchedBraces)
                    } else {
                        Ok(text)
                    }
                },
            }
        },
    }
}

/// The settings ask for the checks of development.
pub open spec fn debug_on(settings: &Table<String>) -> bool {
    crate::table::text_at(settings, "debug"@) == Some("true"@)
}

/// Whether the settings ask for the checks of development.
pub fn is_debug(settings: &Table<String>) -> (on: bool)
    ensures
        on == debug_on(settings),
{
    match settings.get("debug") {
        Some(value) => crate::text::str_eq(value.as_str(), "true"),
        None => false,
    }
}

/// Loads the template at `path` and checks it.  The outcome is that of
/// `check_template` for what the loader gave.
pub fn load_template<L: Fn(&str) -> Result<Vec<u8>, String>>(
    load_rsrc: &L,
    settings: &Table<String>,
    path: &str,
) -> (r: Result<String, TemplateError>)
    requires
        call_requires(*load_rsrc, (path,)),
    ensures
        exists|loaded: Result<Vec<u8>, String>|
            call_ensures(*load_rsrc, (path,), loaded) && template_view(r) == checked_template(
                loaded,
                debug_on(settings),
            ),
{
    let loaded = load_rsrc(path);
    check_template(loaded, is_debug(settings))
}

/// What rendering gives: the text that the engine makes, or the reason
/// why there is none.
pub open spec fn rendering(template: Seq<char>, context: Seq<(Seq<char>, ValueView)>) -> Result<
    Seq<char>,
    TemplateErrorView,
> {
    if !engine_safe(template, context) {
        Err(TemplateErrorView::Unsupported)
    } else {
        match mustache_output(template, context) {
            Some(text) => Ok(text),
            None => Err(TemplateErrorView::Rejected),
        }
    }
}

/// Turns the engine's result into the library's.
fn from_engine(out: Result<String, mustache::Error>) -> (r: Result<String, TemplateError>)
    ensures
        match out {
            Ok(text) => r == Ok::<String, TemplateError>(text),
            Err(_) => r == Err::<String, TemplateError>(TemplateError::Rejected),
        },
{
    match out {
        Ok(text) => Ok(text),
        Err(_) => Err(TemplateError::Rejected),
    }
}

/// Renders `template` with the names of `context`.  A template that the
/// engine cannot take with these values is not handed to it.
pub fn render_template(template: &str, context: &Table<Value>) -> (r: Result<String, TemplateError>)
    ensures
        template_view(r) == rendering(template@, context_entries(context)),
{
    if !is_engine_safe(&chars_of(template), context) {
        return Err(TemplateError::Unsupported);
    }
    let names = context.names();
    let values = context.items();
    assert(zipped(names@, values@) =~= context_entries(context));
    let out = render_text(template, names, values);
    from_engine(out)
}

/// The part of `path` up to and including its first slash, or all of it
/// where it has none.
pub open spec fn dirname(path: Seq<char>) -> Seq<char> {
    let at = find_from(path, '/', 0);
    if at < path.len() {
        path.take(at + 1)
    } else {
        path
    }
}

/// The part of `path` up to and including its first slash.
pub fn url_dirname(path: &str) -> (dir: String)
    ensures
        dir@ == dirname(path@),
{
    let chars = chars_of(path);
    let at = find_char(&chars, '/', 0, chars.len());
    assert(chars@.take(chars.len() as int) == chars@);
    if at < chars.len() {
        let dir = crate::text::string_of_range(&chars, 0, at + 1);
        assert(chars@.subrange(0, at + 1) == chars@.take(at + 1));
        dir
    } else {
        path.to_owned()
    }
}

} // verus!
