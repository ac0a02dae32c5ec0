//! The template engine.  Rendering is done by the `mustache` crate; what
//! is verified here is the test that keeps away from it the templates
//! that it cannot take with the values at hand.
use crate::table::Table;
use crate::text::{
    find_char, find_from, is_space, is_whitespace, leading_spaces, lemma_leading_spaces_is, pieces_view, slice_of,
    split, split_char, trim, trim_bounds,
};
use crate::value::{check_name, context_entries, name_is_safe, Value, ValueView};
use vstd::prelude::*;

verus! {

/// `mustache::Error`, the engine's error.  Nothing is known of what is in
/// it.
#[verifier::external_type_specification]
#[verifier::external_body]
pub struct ExEngineError(mustache::Error);

/// Two opening braces stand at `at`.
pub open spec fn opens_tag(template: Seq<char>, at: int) -> bool {
    0 <= at && at + 1 < template.len() && template[at] == '{' && template[at + 1] == '{'
}

/// The index of the first character of the name in a tag whose content
/// begins at `from`: one `{` or `&` and any whitespace are passed over.
pub open spec fn name_start(template: Seq<char>, from: int) -> int {
    let after = if from < template.len() && (template[from] == '{' || template[from] == '&') {
        from + 1
    } else {
        from
    };
    if after <= template.len() {
        after + leading_spaces(template.skip(after))
    } else {
        after
    }
}

/// What follows two opening braces at `at` is a tag of a kind that the
/// engine can take: it neither includes another template (`>`) nor sets
/// the delimiters (`=`), and the name of a variable does not begin with a
/// dot.
pub open spec fn tag_is_plain(template: Seq<char>, at: int) -> bool {
    let from = at + 2;
    let name = name_start(template, from);
    &&& from < template.len() ==> template[from] != '>' && template[from] != '='
    &&& name < template.len() ==> template[name] != '.'
}

/// The tag at `at` stands for a variable: it begins neither a section
/// (`#`, `^`), nor ends one (`/`), nor is it a comment (`!`).
pub open spec fn is_variable_tag(template: Seq<char>, at: int) -> bool {
    let from = at + 2;
    !(from < template.len() && (template[from] == '#' || template[from] == '^' || template[from] == '/'
        || template[from] == '!'))
}

/// Where the name of the variable in the tag at `at` begins and ends:
/// behind one `{` or `&`, and before the first closing brace.
pub open spec fn name_bounds(template: Seq<char>, at: int) -> (int, int) {
    let from = at + 2;
    let start = if from < template.len() && (template[from] == '{' || template[from] == '&') {
        from + 1
    } else {
        from
    };
    (start, find_from(template, '}', start))
}

/// The name of the variable in the tag at `at`, trimmed.
pub open spec fn tag_name(template: Seq<char>, at: int) -> Seq<char> {
    let (start, end) = name_bounds(template, at);
    trim(template.subrange(start, end))
}

/// The path that a name stands for: its pieces between dots, without an
/// empty last piece.
pub open spec fn name_path(name: Seq<char>) -> Seq<Seq<char>> {
    let pieces = split(name, '.');
    if pieces.len() > 0 && pieces.last().len() == 0 {
        pieces.drop_last()
    } else {
        pieces
    }
}

/// The tag at `at` is one that the engine can take with `context`: it is
/// plain, and where it stands for a variable the name of the variable is
/// safe in the context.
pub open spec fn tag_is_safe(template: Seq<char>, at: int, context: Seq<(Seq<char>, ValueView)>) -> bool {
    &&& tag_is_plain(template, at)
    &&& is_variable_tag(template, at) ==> name_is_safe(context, name_path(tag_name(template, at)))
}

/// The engine can take `template` with `context`: every pair of opening
/// braces begins a tag that it can take.
///
/// Three kinds of tag are left out whatever the context.  A tag that
/// includes another template makes the engine read that template from
/// the disk.  A tag that sets the delimiters makes the tags behind it
/// begin with something else than two braces, where this test does not
/// look.  A variable whose name begins with a dot stands for whatever
/// the section around it has at hand, which may be a map.  A variable
/// with any other name is left out where, in some map of the context, the
/// name leads to a truth value, a list or a map: the engine cannot write
/// those.
pub open spec fn engine_safe(template: Seq<char>, context: Seq<(Seq<char>, ValueView)>) -> bool {
    forall|at: int| opens_tag(template, at) ==> tag_is_safe(template, at, context)
}

/// What the engine makes of `template` with the names of `context`, each
/// bound to its value, or `None` where it rejects the template.
pub uninterp spec fn mustache_output(template: Seq<char>, context: Seq<(Seq<char>, ValueView)>) -> Option<
    Seq<char>,
>;

/// Names with their values, each pair by its views.
pub open spec fn zipped(names: Seq<String>, values: Seq<Value>) -> Seq<(Seq<char>, ValueView)> {
    Seq::new(names.len(), |i: int| (names[i]@, values[i]@))
}

/// `mustache::Data`, a value as the engine takes it.  Nothing is known of
/// what is in it.
#[verifier::external_type_specification]
#[verifier::external_body]
pub struct ExEngineData(mustache::Data);

/// The variant of `mustache::Data` that stands for `value`: `Null`,
/// `String`, `Bool`, `Vec` of the items, or `Map` of the entries.
#[verifier::external_body]
fn to_data(value: &Value) -> mustache::Data {
    match value {
        Value::Null => mustache::Data::Null,
        Value::Text(text) => mustache::Data::String(text.clone()),
        Value::Bool(b) => mustache::Data::Bool(*b),
        Value::List(items) => mustache::Data::Vec(items.iter().map(to_data).collect()),
        Value::Dict(pairs) => mustache::Data::Map(pairs.iter().map(|(n, v)| (n.clone(), to_data(v))).collect()),
    }
}

/// `mustache::compile_str` on `template`, then
/// `Template::render_data_to_string` on the map that binds each of
/// `names` to the value in its place.  For a template that `engine_safe`
/// admits with these values, the engine reads no file and meets no value
/// that it cannot write, so that the outcome depends on template and
/// context alone: the rendered text, or the engine's error where the
/// template is malformed.
#[verifier::external_body]
pub(crate) fn render_text(template: &str, names: &Vec<String>, values: &Vec<Value>) -> (out: Result<
    String,
    mustache::Error,
>)
    requires
        names@.len() == values@.len(),
        engine_safe(template@, zipped(names@, values@)),
    ensures
        match out {
            Ok(text) => mustache_output(template@, zipped(names@, values@)) == Some(text@),
            Err(_) => mustache_output(template@, zipped(names@, values@)) is None,
        },
{
    let context = names.iter().cloned().zip(values.iter().map(to_data)).collect();
    let compiled = mustache::compile_str(template)?;
    compiled.render_data_to_string(&mustache::Data::Map(context))
}

/// Executable `name_start`.
fn find_name(template: &Vec<char>, from: usize) -> (at: usize)
    requires
        from <= template.len(),
    ensures
        at == name_start(template@, from as int),
        at <= template.len(),
{
    let mut at = from;
    if at < template.len() && (template[at] == '{' || template[at] == '&') {
        at += 1;
    }
    let ghost start = at;
    let ghost rest = template@.skip(start as int);
    while at < template.len() && is_whitespace(template[at])
        invariant
            start <= at <= template.len(),
            rest == template@.skip(start as int),
            forall|i: int| 0 <= i < at - start ==> is_space(#[trigger] rest[i]),
        decreases template.len() - at,
    {
        at += 1;
    }
    proof {
        lemma_leading_spaces_is(rest, at - start);
    }
    at
}

/// The path of the name that stands in `template[start..end]`.
fn read_path(template: &Vec<char>, start: usize, end: usize) -> (path: Vec<Vec<char>>)
    requires
        start <= end <= template.len(),
    ensures
        pieces_view(path@) == name_path(trim(template@.subrange(start as int, end as int))),
{
    let (from, to) = trim_bounds(template, start, end);
    let name = slice_of(template, from, to);
    let mut path = split_char(&name, '.');
    let n = path.len();
    if path[n - 1].len() == 0 {
        let ghost before = pieces_view(path@);
        assert(before.last() == path@[n - 1]@);
        path.pop();
        assert(pieces_view(path@) =~= before.drop_last());
    } else {
        assert(pieces_view(path@).last() == path@[n - 1]@);
    }
    path
}

/// Whether the engine can take `template` with `context`.
pub fn is_engine_safe(template: &Vec<char>, context: &Table<Value>) -> (safe: bool)
    ensures
        safe == engine_safe(template@, context_entries(context)),
{
    let n = template.len();
    let ghost given = context_entries(context);
    let mut at: usize = 0;
    while n - at > 1
        invariant
            n == template.len(),
            at <= n,
            given == context_entries(context),
            forall|i: int| 0 <= i < at && opens_tag(template@, i) ==> tag_is_safe(template@, i, given),
        decreases n - at,
    {
        if template[at] == '{' && template[at + 1] == '{' {
            let from = at + 2;
            if from < n && (template[from] == '>' || template[from] == '=') {
                assert(opens_tag(template@, at as int) && !tag_is_plain(template@, at as int));
                return false;
            }
            let name = find_name(template, from);
            if name < n && template[name] == '.' {
                assert(opens_tag(template@, at as int) && !tag_is_plain(template@, at as int));
                return false;
            }
            let mark = from < n && (template[from] == '#' || template[from] == '^' || template[from] == '/'
                || template[from] == '!');
            if !mark {
                let start = if from < n && (template[from] == '{' || template[from] == '&') {
                    from + 1
                } else {
                    from
                };
                let end = find_char(template, '}', start, n);
                assert(template@.take(n as int) == template@);
                let path = read_path(template, start, end);
                if !check_name(context, &path) {
                    assert(opens_tag(template@, at as int) && !tag_is_safe(template@, at as int, given));
                    return false;
                }
            }
        }
        at += 1;
    }
    true
}

} // verus!
