//! From a parsed request to the header and body of the answer.
use crate::body::{body_size, Body, BodyView};
use crate::channel::{ControlChan, PushChan};
use crate::clock::utc_now_rfc822;
use crate::config::{ConnConfig, Handler};
use crate::dispatch::{find_handler, lists_type, HandlerChoice, Selection};
use crate::framing::{
    framable, has_content_length, header_text, is_chunked, is_single_chunk, lemma_table_lookup,
    make_header_and_body,
};
use crate::http_parser::HttpRequest;
use crate::message::{Request, RequestView, Response, ResponseView};
use crate::paths::{is_under_root, resource_path, under_root, url_to_path};
use crate::sse::{openers_callable, process_sse, same_but_tasks, streams_after};
use crate::table::{bind, copy_texts, entries, Table};
use crate::value::{context_entries, set_context_text, Value, ValueView};
use crate::templates::{
    checked_template, debug_on, dirname, is_debug, load_template, render_template, rendering, template_view,
    url_dirname, TemplateError, TemplateErrorView,
};
use crate::text::{
    chars_of, decimal, decimal_string, find_char, find_from, has_prefix, lemma_find_from, matches_at,
    pieces_view, slice_of, split, split_char, string_of, string_of_range,
};
use vstd::prelude::*;
use vstd::string::*;

verus! {

/// The segment of a query as a pair: what stands before its first `=`
/// and what stands after it.
pub open spec fn query_pair(segment: Seq<char>) -> (Seq<char>, Seq<char>) {
    let at = find_from(segment, '=', 0);
    (segment.take(at), segment.skip(at + 1))
}

/// Every segment holds a `=`.
pub open spec fn query_is_valid(segments: Seq<Seq<char>>) -> bool {
    forall|i: int| 0 <= i < segments.len() ==> (#[trigger] segments[i]).contains('=')
}

/// Path and parameters of `url`.  Without a `?` the url is the path.
/// What follows the first `?` is split at each `&` and each segment at
/// its first `=`.  Where a segment holds no `=` the query is not valid:
/// the whole url is then the path and there are no parameters.
pub open spec fn url_parts(url: Seq<char>) -> (Seq<char>, Seq<(Seq<char>, Seq<char>)>) {
    let mark = find_from(url, '?', 0);
    let segments = split(url.skip(mark + 1), '&');
    if mark < url.len() && query_is_valid(segments) {
        (url.take(mark), segments.map_values(|s: Seq<char>| query_pair(s)))
    } else {
        (url, Seq::empty())
    }
}

/// Splits `url` into its path and the parameters of its query.
pub fn parse_url(url: &str) -> (r: (String, Vec<(String, String)>))
    ensures
        (r.0@, r.1.deep_view()) == url_parts(url@),
{
    let chars = chars_of(url);
    let mark = find_char(&chars, '?', 0, chars.len());
    assert(chars@.take(chars.len() as int) == chars@);
    let mut params: Vec<(String, String)> = Vec::new();
    if mark >= chars.len() {
        assert(params.deep_view() =~= Seq::<(Seq<char>, Seq<char>)>::empty());
        return (url.to_owned(), params);
    }
    let query = slice_of(&chars, mark + 1, chars.len());
    assert(query@ == chars@.skip(mark + 1));
    let segments = split_char(&query, '&');
    let ghost wanted = split(query@, '&');
    let mut i: usize = 0;
    assert(params.deep_view() =~= wanted.take(0).map_values(|s: Seq<char>| query_pair(s)));
    while i < segments.len()
        invariant
            i <= segments.len(),
            wanted == pieces_view(segments@),
            wanted == split(url@.skip(mark + 1), '&'),
            mark as int == find_from(url@, '?', 0),
            params.deep_view() == wanted.take(i as int).map_values(|s: Seq<char>| query_pair(s)),
            forall|j: int| 0 <= j < i ==> (#[trigger] wanted[j]).contains('='),
        decreases segments.len() - i,
    {
        let segment = &segments[i];
        assert(wanted[i as int] == segment@);
        let at = find_char(segment, '=', 0, segment.len());
        proof {
            assert(segment@.take(segment.len() as int) == segment@);
            lemma_find_from(segment@, '=', 0);
        }
        if at >= segment.len() {
            proof {
                assert(!wanted[i as int].contains('='));
                assert(!query_is_valid(wanted));
            }
            let none: Vec<(String, String)> = Vec::new();
            assert(none.deep_view() =~= Seq::<(Seq<char>, Seq<char>)>::empty());
            return (url.to_owned(), none);
        }
        assert(segment@[at as int] == '=');
        let key = string_of_range(segment, 0, at);
        let value = string_of_range(segment, at + 1, segment.len());
        let ghost before = params.deep_view();
        params.push((key, value));
        proof {
            assert(segment@.subrange(0, at as int) == segment@.take(at as int));
            assert(segment@.subrange(at + 1, segment.len() as int) == segment@.skip(at + 1));
            assert(params.deep_view() =~= before.push(query_pair(segment@)));
            assert(wanted.take(i + 1).map_values(|s: Seq<char>| query_pair(s)) =~= wanted.take(
                i as int,
            ).map_values(|s: Seq<char>| query_pair(s)).push(query_pair(segment@)));
        }
        i += 1;
    }
    assert(wanted.take(segments.len() as int) == wanted);
    let path = string_of_range(&chars, 0, mark);
    assert(chars@.subrange(0, mark as int) == chars@.take(mark as int));
    (path, params)
}

/// The types that a request takes: the pieces of its `accept` header
/// between commas, and `text/html` where it has no such header.
pub open spec fn accepted_types(headers: &Table<String>) -> Seq<Seq<char>> {
    if headers.has("accept"@) {
        split(headers.at("accept"@)@, ',')
    } else {
        seq!["text/html"@]
    }
}

/// The types that a request with these headers takes.
pub fn request_types(headers: &Table<String>) -> (types: Vec<String>)
    ensures
        types.deep_view() == accepted_types(headers),
{
    let mut types: Vec<String> = Vec::new();
    match headers.get("accept") {
        Some(value) => {
            let pieces = split_char(&chars_of(value.as_str()), ',');
            let mut i: usize = 0;
            assert(types.deep_view() =~= pieces_view(pieces@).take(0));
            while i < pieces.len()
                invariant
                    i <= pieces.len(),
                    types.deep_view() == pieces_view(pieces@).take(i as int),
                decreases pieces.len() - i,
            {
                let ghost before = types.deep_view();
                let piece = string_of(&pieces[i]);
                types.push(piece);
                assert(types.deep_view() =~= before.push(pieces@[i as int]@));
                assert(pieces_view(pieces@).take(i + 1) =~= pieces_view(pieces@).take(i as int).push(
                    pieces@[i as int]@,
                ));
                i += 1;
            }
            assert(pieces_view(pieces@).take(pieces.len() as int) == pieces_view(pieces@));
        },
        None => {
            types.push("text/html".to_owned());
            assert(types.deep_view() =~= seq!["text/html"@]);
        },
    }
    types
}

/// The headers that every response starts with.
pub open spec fn initial_headers(server_info: Seq<char>, debug: bool, mime_type: Seq<char>, date: Seq<char>) -> Seq<
    (Seq<char>, Seq<char>),
> {
    let always = seq![("Content-Type"@, mime_type), ("Date"@, date), ("Server"@, server_info)];
    if debug {
        always.push(("Cache-Control"@, "no-cache"@))
    } else {
        always
    }
}

/// The names that every template can refer to.
pub open spec fn initial_context(
    status_code: Seq<char>,
    status_mesg: Seq<char>,
    path: Seq<char>,
    version: Seq<char>,
) -> Seq<(Seq<char>, ValueView)> {
    seq![
        ("request-path"@, ValueView::Text(path)),
        ("status-code"@, ValueView::Text(status_code)),
        ("status-mesg"@, ValueView::Text(status_mesg)),
        ("request-version"@, ValueView::Text(version)),
    ]
}

/// The response that a handler is given to work on.
pub open spec fn initial_response_view(
    server_info: Seq<char>,
    debug: bool,
    status_code: Seq<char>,
    status_mesg: Seq<char>,
    mime_type: Seq<char>,
    path: Seq<char>,
    version: Seq<char>,
    date: Seq<char>,
) -> ResponseView {
    ResponseView {
        status: status_code + seq![' '] + status_mesg,
        headers: initial_headers(server_info, debug, mime_type, date),
        body: BodyView::Text(Seq::empty()),
        template: Seq::empty(),
        context: initial_context(status_code, status_mesg, path, version),
    }
}

/// Adds a key that the table does not have yet.
fn add_text(t: &mut Table<String>, key: &str, value: String)
    requires
        forall|i: int| 0 <= i < entries(old(t)).len() ==> entries(old(t))[i].0 != key@,
    ensures
        final(t).wf(),
        entries(final(t)) == entries(old(t)).push((key@, value@)),
{
    let ghost before = entries(t);
    proof {
        use_type_invariant(&*t);
        t.lemma_wf();
    }
    proof {
        if t.has(key@) {
            let at = t.keys().index_of(key@);
            assert(before[at].0 == key@);
        }
    }
    t.insert(key.to_owned(), value);
    assert(entries(t) =~= before.push((key@, value@)));
}

/// Adds a name that the context does not have yet, with a text.
fn add_context_text(t: &mut Table<Value>, key: &str, text: String)
    requires
        forall|i: int| 0 <= i < context_entries(old(t)).len() ==> context_entries(old(t))[i].0 != key@,
    ensures
        final(t).wf(),
        context_entries(final(t)) == context_entries(old(t)).push((key@, ValueView::Text(text@))),
{
    proof {
        use_type_invariant(&*t);
        t.lemma_wf();
    }
    let ghost before = context_entries(t);
    proof {
        if t.has(key@) {
            let at = t.keys().index_of(key@);
            assert(before[at].0 == key@);
        }
    }
    t.insert(key.to_owned(), Value::Text(text));
    assert(context_entries(t) =~= before.push((key@, ValueView::Text(text@))));
}

/// The response that a handler is given to work on, for the time `date`.
pub fn initial_response(
    server_info: &str,
    debug: bool,
    status_code: &str,
    status_mesg: &str,
    mime_type: &str,
    path: &str,
    version: &str,
    date: String,
) -> (response: Response)
    ensures
        response@ == initial_response_view(
            server_info@,
            debug,
            status_code@,
            status_mesg@,
            mime_type@,
            path@,
            version@,
            date@,
        ),
{
    proof {
        reveal_strlit("Content-Type");
        reveal_strlit("Date");
        reveal_strlit("Server");
        reveal_strlit("Cache-Control");
        reveal_strlit("request-path");
        reveal_strlit("status-code");
        reveal_strlit("status-mesg");
        reveal_strlit("request-version");
        reveal_strlit(" ");
    }
    let mut headers: Table<String> = Table::new();
    assert(entries(&headers) =~= Seq::<(Seq<char>, Seq<char>)>::empty());
    add_text(&mut headers, "Content-Type", mime_type.to_owned());
    assert("Date"@.len() != "Content-Type"@.len());
    add_text(&mut headers, "Date", date);
    assert("Server"@.len() != "Content-Type"@.len());
    assert("Server"@.len() != "Date"@.len());
    add_text(&mut headers, "Server", server_info.to_owned());
    if debug {
        assert("Cache-Control"@.len() != "Content-Type"@.len());
        assert("Cache-Control"@.len() != "Date"@.len());
        assert("Cache-Control"@.len() != "Server"@.len());
        add_text(&mut headers, "Cache-Control", "no-cache".to_owned());
    }
    let mut context: Table<Value> = Table::new();
    assert(context_entries(&context) =~= Seq::<(Seq<char>, ValueView)>::empty());
    add_context_text(&mut context, "request-path", path.to_owned());
    assert("status-code"@.len() != "request-path"@.len());
    add_context_text(&mut context, "status-code", status_code.to_owned());
    assert("status-mesg"@.len() != "request-path"@.len());
    assert("status-mesg"@[7] != "status-code"@[7]);
    add_context_text(&mut context, "status-mesg", status_mesg.to_owned());
    assert("request-version"@.len() != "request-path"@.len());
    assert("request-version"@.len() != "status-code"@.len());
    assert("request-version"@.len() != "status-mesg"@.len());
    add_context_text(&mut context, "request-version", version.to_owned());
    let mut status = status_code.to_owned();
    status.append(" ");
    status.append(status_mesg);
    assert(" "@ =~= seq![' ']);
    let response = Response {
        status,
        headers,
        body: Body::StringBody(String::new()),
        template: String::new(),
        context,
    };
    assert(response@.headers =~= initial_headers(server_info@, debug, mime_type@, date@));
    assert(response@.context =~= initial_context(status_code@, status_mesg@, path@, version@));
    response
}

/// The response that a handler is given to work on, for the present
/// time: `initial_response_view` for some date.
pub fn make_initial_response<H, L, V, O>(
    config: &ConnConfig<H, L, V, O>,
    status_code: &str,
    status_mesg: &str,
    mime_type: &str,
    request: &Request,
) -> (response: Response)
    ensures
        exists|date: Seq<char>|
            response@ == initial_response_view(
                config.server_info@,
                debug_on(&config.settings),
                status_code@,
                status_mesg@,
                mime_type@,
                request.path@,
                request.version@,
                date,
            ),
{
    let date = utc_now_rfc822();
    initial_response(
        config.server_info.as_str(),
        is_debug(&config.settings),
        status_code,
        status_mesg,
        mime_type,
        request.path.as_str(),
        request.version.as_str(),
        date,
    )
}

/// A response as `initial_response` makes it neither declares a length
/// nor asks for chunked transfer.
pub proof fn lemma_initial_headers_plain(
    headers: &Table<String>,
    server_info: Seq<char>,
    debug: bool,
    mime_type: Seq<char>,
    date: Seq<char>,
)
    requires
        headers.wf(),
        entries(headers) == initial_headers(server_info, debug, mime_type, date),
    ensures
        !has_content_length(headers),
        !is_chunked(headers),
{
    reveal_strlit("Content-Type");
    reveal_strlit("Date");
    reveal_strlit("Server");
    reveal_strlit("Cache-Control");
    reveal_strlit("Content-Length");
    reveal_strlit("Transfer-Encoding");
    lemma_table_lookup(headers, "Content-Length"@);
    lemma_table_lookup(headers, "Transfer-Encoding"@);
    let given = entries(headers);
    assert forall|j: int| 0 <= j < given.len() implies given[j].0 != "Content-Length"@ && given[j].0
        != "Transfer-Encoding"@ by {
        assert(given[j].0.len() != 14 && given[j].0.len() != 17);
    }
}

/// The text of the page that is shown where a resource cannot be read:
/// the configured text rendered with the path of the request, or the
/// text as it is where it cannot be rendered.
pub open spec fn error_page_text(read_error: Seq<char>, path: Seq<char>) -> Seq<char> {
    match rendering(read_error, seq![("request-path"@, ValueView::Text(path))]) {
        Ok(text) => text,
        Err(_) => read_error,
    }
}

/// The page that is shown where a resource cannot be read.
pub fn error_page(read_error: &str, path: &str) -> (page: String)
    ensures
        page@ == error_page_text(read_error@, path@),
{
    let mut context: Table<Value> = Table::new();
    assert(context_entries(&context) =~= Seq::<(Seq<char>, ValueView)>::empty());
    add_context_text(&mut context, "request-path", path.to_owned());
    assert(context_entries(&context) =~= seq![("request-path"@, ValueView::Text(path@))]);
    match render_template(read_error, &context) {
        Ok(text) => text,
        Err(_) => read_error.to_owned(),
    }
}

/// Response and body where a resource cannot be read: `403 Forbidden`
/// and the error page.
pub open spec fn unreadable_view(
    server_info: Seq<char>,
    debug: bool,
    read_error: Seq<char>,
    path: Seq<char>,
    version: Seq<char>,
    date: Seq<char>,
) -> (ResponseView, BodyView) {
    (
        initial_response_view(
            server_info,
            debug,
            "403"@,
            "Forbidden"@,
            "text/html; charset=UTF-8"@,
            path,
            version,
            date,
        ),
        BodyView::Text(error_page_text(read_error, path)),
    )
}

/// Response and body where a resource cannot be read, at the present
/// time.
pub fn unreadable<H, L, V, O>(config: &ConnConfig<H, L, V, O>, request: &Request) -> (out: (Response, Body))
    ensures
        exists|date: Seq<char>|
            (out.0@, out.1@) == unreadable_view(
                config.server_info@,
                debug_on(&config.settings),
                config.read_error@,
                request.path@,
                request.version@,
                date,
            ),
        framable(&out.0.headers, out.1),
        framable(&out.0.headers, out.0.body),
        out.0.template@.len() == 0,
{
    let response = make_initial_response(config, "403", "Forbidden", "text/html; charset=UTF-8", request);
    let ghost date = choose|date: Seq<char>|
        response@ == initial_response_view(
            config.server_info@,
            debug_on(&config.settings),
            "403"@,
            "Forbidden"@,
            "text/html; charset=UTF-8"@,
            request.path@,
            request.version@,
            date,
        );
    let page = error_page(config.read_error.as_str(), request.path.as_str());
    proof {
        use_type_invariant(&response.headers);
        response.headers.lemma_wf();
    }
    let out = (response, Body::text(page));
    proof {
        lemma_initial_headers_plain(
            &out.0.headers,
            config.server_info@,
            debug_on(&config.settings),
            "text/html; charset=UTF-8"@,
            date,
        );
        assert(out.1@ == BodyView::Text(page@));
        assert(body_size(out.1) <= usize::MAX);
        assert(out.0.body@ == BodyView::Text(Seq::<char>::empty()));
        assert(out.0.body matches Body::StringBody(text) && text@ == Seq::<char>::empty());
        assert(body_size(out.0.body) == 0) by {
            reveal_with_fuel(vstd::utf8::encode_utf8, 1);
        }
        assert((out.0@, out.1@) == unreadable_view(
            config.server_info@,
            debug_on(&config.settings),
            config.read_error@,
            request.path@,
            request.version@,
            date,
        ));
    }
    out
}

/// The address that the relative links of a template start from.
pub open spec fn base_path(local_addr: Seq<char>, port: u16, template: Seq<char>) -> Seq<char> {
    "http://"@ + local_addr + seq![':'] + decimal(port as nat) + seq!['/'] + dirname(template) + seq!['/']
}

/// The address that the relative links of `template` start from.
pub fn make_base_path(local_addr: &str, port: u16, template: &str) -> (base: String)
    ensures
        base@ == base_path(local_addr@, port, template@),
{
    let mut base = "http://".to_owned();
    base.append(local_addr);
    base.append(":");
    base.append(decimal_string(port as u64).as_str());
    base.append("/");
    base.append(url_dirname(template).as_str());
    base.append("/");
    proof {
        reveal_strlit(":");
        reveal_strlit("/");
        assert(":"@ =~= seq![':']);
        assert("/"@ =~= seq!['/']);
    }
    base
}

/// The template of `response` is rendered rather than passed on as it
/// is: the status is not a `403` and there are names to refer to.
pub open spec fn wants_rendering(response: ResponseView) -> bool {
    !has_prefix(response.status, "403"@) && response.context.len() > 0
}

/// What comes of the template of `response`, given what was found at its
/// place: the text of the template or the reason why there is none.  A
/// template that was found is rendered with the context of the response
/// and the base path, or passed on as it is where the response does not
/// want rendering.  Where nothing was found, or it cannot be rendered,
/// the answer is that for a resource that cannot be read.
pub open spec fn template_outcome(
    server_info: Seq<char>,
    debug: bool,
    port: u16,
    read_error: Seq<char>,
    response: ResponseView,
    request: RequestView,
    found: Result<Seq<char>, TemplateErrorView>,
    date: Seq<char>,
) -> (ResponseView, BodyView) {
    let failure = unreadable_view(server_info, debug, read_error, request.path, request.version, date);
    match found {
        Err(_) => failure,
        Ok(text) => if wants_rendering(response) {
            let context = bind(
                response.context,
                "base-path"@,
                ValueView::Text(base_path(request.local_addr, port, response.template)),
            );
            match rendering(text, context) {
                Ok(rendered) => (ResponseView { context, ..response }, BodyView::Text(rendered)),
                Err(_) => failure,
            }
        } else {
            (response, BodyView::Text(text))
        },
    }
}

/// What the loader may have found for the template `template`: nothing
/// where its path is not under the root, else what `checked_template`
/// makes of an answer of the loader for that path.
pub open spec fn found_by<L: Fn(&str) -> Result<Vec<u8>, String>>(
    load_rsrc: L,
    root: Seq<char>,
    debug: bool,
    template: Seq<char>,
    found: Result<Seq<char>, TemplateErrorView>,
) -> bool {
    if under_root(root, resource_path(root, template)) {
        exists|path: &str, loaded: Result<Vec<u8>, String>|
            path@ == resource_path(root, template) && call_ensures(load_rsrc, (path,), loaded) && found
                == checked_template(loaded, debug)
    } else {
        found == Err::<Seq<char>, TemplateErrorView>(TemplateErrorView::OutsideRoot)
    }
}

/// Every path can be asked of the loader.
pub open spec fn loader_callable<L: Fn(&str) -> Result<Vec<u8>, String>>(load_rsrc: L) -> bool {
    forall|path: &str| call_requires(load_rsrc, (path,))
}

/// Replaces the body of `response` by its template, loaded and rendered.
/// The outcome is `template_outcome` for what the loader found, at some
/// date.
pub fn process_template<H, L: Fn(&str) -> Result<Vec<u8>, String>, V, O>(
    config: &ConnConfig<H, L, V, O>,
    response: Response,
    request: &Request,
) -> (out: (Response, Body))
    requires
        loader_callable(config.load_rsrc),
    ensures
        exists|found: Result<Seq<char>, TemplateErrorView>, date: Seq<char>| #[trigger]
            template_gives(config, request, response, out, found, date),
        body_size(out.1) <= usize::MAX,
        !(is_chunked(&response.headers) && has_content_length(&response.headers)) ==> framable(
            &out.0.headers,
            out.1,
        ),
{
    let root = config.resources_root.as_str();
    let path = url_to_path(root, response.template.as_str());
    let loaded = if is_under_root(root, path.as_str()) {
        load_template(&config.load_rsrc, &config.settings, path.as_str())
    } else {
        Err(TemplateError::OutsideRoot)
    };
    let ghost found = template_view(loaded);
    let ghost original = response;
    assert(found_by(
        config.load_rsrc,
        config.resources_root@,
        debug_on(&config.settings),
        response.template@,
        found,
    ));
    let n = response.context.len();
    let wants = n > 0 && !matches_at(&chars_of(response.status.as_str()), &chars_of("403"), 0);
    assert(wants == wants_rendering(original@));
    match loaded {
        Ok(text) => {
            if wants {
                let mut response = response;
                let base = make_base_path(
                    request.local_addr.as_str(),
                    config.port,
                    response.template.as_str(),
                );
                set_context_text(&mut response.context, "base-path", base);
                match render_template(text.as_str(), &response.context) {
                    Ok(rendered) => {
                        let out = (response, Body::text(rendered));
                        assert(template_gives(config, request, original, out, found, Seq::empty()));
                        out
                    },
                    Err(_) => {
                        let out = unreadable(config, request);
                        proof {
                            lemma_outcome_of_failure(config, original, request, found, out);
                        }
                        out
                    },
                }
            } else {
                let out = (response, Body::text(text));
                assert(template_gives(config, request, original, out, found, Seq::empty()));
                out
            }
        },
        Err(_) => {
            let out = unreadable(config, request);
            proof {
                lemma_outcome_of_failure(config, original, request, found, out);
            }
            out
        },
    }
}

/// Where the template gives nothing, the outcome is that for a resource
/// that cannot be read.
proof fn lemma_outcome_of_failure<H, L: Fn(&str) -> Result<Vec<u8>, String>, V, O>(
    config: &ConnConfig<H, L, V, O>,
    given: Response,
    request: &Request,
    found: Result<Seq<char>, TemplateErrorView>,
    out: (Response, Body),
)
    requires
        found_by(config.load_rsrc, config.resources_root@, debug_on(&config.settings), given.template@, found),
        exists|date: Seq<char>|
            (out.0@, out.1@) == unreadable_view(
                config.server_info@,
                debug_on(&config.settings),
                config.read_error@,
                request.path@,
                request.version@,
                date,
            ),
        match found {
            Err(_) => true,
            Ok(text) => wants_rendering(given@) && rendering(
                text,
                bind(
                    given@.context,
                    "base-path"@,
                    ValueView::Text(base_path(request.local_addr@, config.port, given@.template)),
                ),
            ) is Err,
        },
    ensures
        exists|found: Result<Seq<char>, TemplateErrorView>, date: Seq<char>| #[trigger]
            template_gives(config, request, given, out, found, date),
{
    let date = choose|date: Seq<char>|
        (out.0@, out.1@) == unreadable_view(
            config.server_info@,
            debug_on(&config.settings),
            config.read_error@,
            request.path@,
            request.version@,
            date,
        );
    assert(template_gives(config, request, given, out, found, date));
}

/// The view can be called, whatever it is given.
pub open spec fn view_callable<H: Fn(&Table<String>, &Request, Response) -> Response>(view: H) -> bool {
    forall|settings: &Table<String>, request: &Request, response: Response| #[trigger]
        call_requires(view, (settings, request, response))
}

/// What the view answers can be framed.
pub open spec fn view_framable<H: Fn(&Table<String>, &Request, Response) -> Response>(view: H) -> bool {
    forall|settings: &Table<String>, request: &Request, response: Response, answer: Response| #[trigger]
        call_ensures(view, (settings, request, response), answer) ==> framable(
            &answer.headers,
            answer.body,
        )
}

/// A handler of the user can be called and answers with what can be
/// framed; the library's own handlers do.
pub open spec fn handler_usable<H: Fn(&Table<String>, &Request, Response) -> Response>(
    handler: Handler<H>,
) -> bool {
    handler matches Handler::Custom(view) ==> view_callable(view) && view_framable(view)
}

/// Every handler of the connection can be called and answers with what
/// can be framed.
pub open spec fn handlers_usable<H: Fn(&Table<String>, &Request, Response) -> Response, L, V, O>(
    config: &ConnConfig<H, L, V, O>,
) -> bool {
    &&& forall|i: int|
        0 <= i < config.views_table.values().len() ==> view_callable(
            #[trigger] config.views_table.values()[i],
        ) && view_framable(config.views_table.values()[i])
    &&& handler_usable(config.static_handler)
    &&& handler_usable(config.missing)
}

/// Every path can be asked of the two functions that reach the
/// resources.
pub open spec fn resources_callable<
    H,
    L: Fn(&str) -> Result<Vec<u8>, String>,
    V: Fn(&str) -> bool,
    O,
>(config: &ConnConfig<H, L, V, O>) -> bool {
    &&& loader_callable(config.load_rsrc)
    &&& forall|path: &str| call_requires(config.valid_rsrc, (path,))
}

/// What the handler for static resources makes of a response, given what
/// the loader answered: the bytes as the body, or the answer for a
/// resource that cannot be read.
pub open spec fn static_outcome(
    response: ResponseView,
    loaded: Option<Result<Vec<u8>, String>>,
    unreadable: (ResponseView, BodyView),
) -> ResponseView {
    match loaded {
        Some(Ok(bytes)) => ResponseView { body: BodyView::Bytes(bytes@), ..response },
        _ => ResponseView { body: unreadable.1, ..unreadable.0 },
    }
}

/// The library's handler for static resources.  The resource that the
/// path of the request names under the root is loaded and becomes the
/// body.  A path that is not under the root is not asked of the loader.
pub fn static_view<H, L: Fn(&str) -> Result<Vec<u8>, String>, V, O>(
    config: &ConnConfig<H, L, V, O>,
    request: &Request,
    response: Response,
) -> (answer: Response)
    requires
        loader_callable(config.load_rsrc),
    ensures
        body_size(answer.body) <= usize::MAX,
        !(is_chunked(&response.headers) && has_content_length(&response.headers)) ==> framable(
            &answer.headers,
            answer.body,
        ),
        static_answers(config, request, response, answer),
{
    let root = config.resources_root.as_str();
    let path = url_to_path(root, request.path.as_str());
    let ghost given = response@;
    let loaded = if is_under_root(root, path.as_str()) {
        Some((config.load_rsrc)(path.as_str()))
    } else {
        None
    };
    assert(loaded_for(config, request.path@, loaded));
    match loaded {
        Some(Ok(bytes)) => {
            let mut answer = response;
            answer.body = Body::binary(bytes);
            assert(static_answer_for(config, request, response, answer, loaded, Seq::empty()));
            answer
        },
        _ => {
            let (mut answer, body) = unreadable(config, request);
            let ghost date = choose|date: Seq<char>|
                (answer@, body@) == unreadable_view(
                    config.server_info@,
                    debug_on(&config.settings),
                    config.read_error@,
                    request.path@,
                    request.version@,
                    date,
                );
            answer.body = body;
            assert(static_answer_for(config, request, response, answer, loaded, date));
            answer
        },
    }
}

/// The library's handler for what is missing: the page `not-found.html`
/// becomes the template.
pub fn missing_view(response: Response) -> (answer: Response)
    ensures
        answer@ == (ResponseView { template: "not-found.html"@, ..response@ }),
        answer.headers == response.headers,
        answer.body == response.body,
{
    let mut answer = response;
    answer.template = "not-found.html".to_owned();
    answer
}

/// `answer` is what the handler for static resources gives for
/// `response` where the loader gave `loaded`, at the time `date`.
pub open spec fn static_answer_for<H, L: Fn(&str) -> Result<Vec<u8>, String>, V, O>(
    config: &ConnConfig<H, L, V, O>,
    request: &Request,
    response: Response,
    answer: Response,
    loaded: Option<Result<Vec<u8>, String>>,
    date: Seq<char>,
) -> bool {
    loaded_for(config, request.path@, loaded) && answer@ == static_outcome(
        response@,
        loaded,
        unreadable_view(
            config.server_info@,
            debug_on(&config.settings),
            config.read_error@,
            request.path@,
            request.version@,
            date,
        ),
    )
}

/// `answer` is what the handler for static resources may give for
/// `response`: `static_outcome` for an answer of the loader, at some
/// date.
pub open spec fn static_answers<H, L: Fn(&str) -> Result<Vec<u8>, String>, V, O>(
    config: &ConnConfig<H, L, V, O>,
    request: &Request,
    response: Response,
    answer: Response,
) -> bool {
    exists|loaded: Option<Result<Vec<u8>, String>>, date: Seq<char>| #[trigger]
        static_answer_for(config, request, response, answer, loaded, date)
}

/// `loaded` is what the loader may give for the resource at `path`:
/// nothing where the path leaves the root, else one of its answers.
pub open spec fn loaded_for<H, L: Fn(&str) -> Result<Vec<u8>, String>, V, O>(
    config: &ConnConfig<H, L, V, O>,
    path: Seq<char>,
    loaded: Option<Result<Vec<u8>, String>>,
) -> bool {
    let resolved = resource_path(config.resources_root@, path);
    match loaded {
        Some(given) => under_root(config.resources_root@, resolved) && exists|asked: &str|
            asked@ == resolved && #[trigger] call_ensures(config.load_rsrc, (asked,), given),
        None => !under_root(config.resources_root@, resolved),
    }
}

/// `answer` is what the chosen handler may give for `request` and
/// `response`.
pub open spec fn handler_answers<
    H: Fn(&Table<String>, &Request, Response) -> Response,
    L: Fn(&str) -> Result<Vec<u8>, String>,
    V,
    O,
>(config: &ConnConfig<H, L, V, O>, choice: HandlerChoice, request: &Request, response: Response, answer: Response) -> bool {
    match choice {
        HandlerChoice::View(at) => at < config.route_list@.len() && call_ensures(
            config.views_table.at(config.route_list@[at as int].route@),
            (&config.settings, request, response),
            answer,
        ),
        HandlerChoice::Static => match config.static_handler {
            Handler::Custom(view) => call_ensures(view, (&config.settings, request, response), answer),
            Handler::BuiltIn => static_answers(config, request, response, answer),
        },
        HandlerChoice::Missing => match config.missing {
            Handler::Custom(view) => call_ensures(view, (&config.settings, request, response), answer),
            Handler::BuiltIn => answer@ == (ResponseView { template: "not-found.html"@, ..response@ }),
        },
    }
}

/// Calls the handler that was chosen.
pub fn run_handler<
    H: Fn(&Table<String>, &Request, Response) -> Response,
    L: Fn(&str) -> Result<Vec<u8>, String>,
    V,
    O,
>(config: &ConnConfig<H, L, V, O>, choice: HandlerChoice, request: &Request, response: Response) -> (answer:
    Response)
    requires
        config.wf(),
        handlers_usable(config),
        loader_callable(config.load_rsrc),
        framable(&response.headers, response.body),
        choice matches HandlerChoice::View(at) ==> at < config.route_list@.len(),
    ensures
        framable(&answer.headers, answer.body),
        handler_answers(config, choice, request, response, answer),
{
    match choice {
        HandlerChoice::View(at) => {
            match config.views_table.position(config.route_list[at].route.as_str()) {
                Some(i) => {
                    let view = config.views_table.value_at(i);
                    view(&config.settings, request, response)
                },
                None => {
                    assert(false);
                    response
                },
            }
        },
        HandlerChoice::Static => match &config.static_handler {
            Handler::Custom(view) => view(&config.settings, request, response),
            Handler::BuiltIn => static_view(config, request, response),
        },
        HandlerChoice::Missing => match &config.missing {
            Handler::Custom(view) => view(&config.settings, request, response),
            Handler::BuiltIn => missing_view(response),
        },
    }
}

/// The connection can answer requests: its routes have their views, and
/// all that it calls can be called.
pub open spec fn serviceable<
    H: Fn(&Table<String>, &Request, Response) -> Response,
    L: Fn(&str) -> Result<Vec<u8>, String>,
    V: Fn(&str) -> bool,
    O: Fn(&Table<String>, &Request, &PushChan) -> ControlChan,
>(config: &ConnConfig<H, L, V, O>) -> bool {
    &&& config.wf()
    &&& handlers_usable(config)
    &&& resources_callable(config)
    &&& openers_callable(config)
}

/// `out` is what comes of the template of `answer` where `found` was
/// found at its place, at the time `date`.
pub open spec fn template_gives<H, L: Fn(&str) -> Result<Vec<u8>, String>, V, O>(
    config: &ConnConfig<H, L, V, O>,
    request: &Request,
    answer: Response,
    out: (Response, Body),
    found: Result<Seq<char>, TemplateErrorView>,
    date: Seq<char>,
) -> bool {
    found_by(config.load_rsrc, config.resources_root@, debug_on(&config.settings), answer.template@, found)
        && (out.0@, out.1@) == template_outcome(
        config.server_info@,
        debug_on(&config.settings),
        config.port,
        config.read_error@,
        answer@,
        request@,
        found,
        date,
    )
}

/// `out` is what comes of the handler's `answer`.  Where the answer names
/// a template, the template takes the place of the body.  Else the body
/// of the answer is taken out of it and goes on as it is.
pub open spec fn finishes<H, L: Fn(&str) -> Result<Vec<u8>, String>, V, O>(
    config: &ConnConfig<H, L, V, O>,
    request: &Request,
    answer: Response,
    out: (Response, Body),
) -> bool {
    if answer.template@.len() > 0 {
        exists|found: Result<Seq<char>, TemplateErrorView>, date: Seq<char>| #[trigger]
            template_gives(config, request, answer, out, found, date)
    } else {
        &&& out.1 == answer.body
        &&& out.0.status == answer.status
        &&& out.0.headers == answer.headers
        &&& out.0.template == answer.template
        &&& out.0.context == answer.context
        &&& out.0.body@ == BodyView::Text(Seq::empty())
    }
}

/// The steps from a request that takes no event stream to response and
/// body: the handler is chosen for what `valid_rsrc` said, `asked` is
/// the request with the bindings of the chosen route, `handed` is the
/// initial response for the chosen status and type, `answer` is what
/// the handler made of it, and `out` is what comes of the answer.
pub open spec fn is_served<
    H: Fn(&Table<String>, &Request, Response) -> Response,
    L: Fn(&str) -> Result<Vec<u8>, String>,
    V: Fn(&str) -> bool,
    O,
>(
    config: &ConnConfig<H, L, V, O>,
    request: &Request,
    types: Seq<Seq<char>>,
    valid: bool,
    page_valid: bool,
    date: Seq<char>,
    asked: Request,
    handed: Response,
    answer: Response,
    out: (Response, Body),
) -> bool {
    let sel = crate::dispatch::selection(
        config.resources_root@,
        crate::config::routes_view(config.route_list@),
        &config.static_type_table,
        request.method@,
        request.path@,
        types,
        request.version@,
        valid,
        page_valid,
    );
    &&& crate::dispatch::validity_known(
        config.valid_rsrc,
        config.resources_root@,
        request.path@,
        request.version@,
        valid,
        page_valid,
    )
    &&& asked@ == (RequestView { matches: sel.matches, ..request@ })
    &&& handed@ == initial_response_view(
        config.server_info@,
        debug_on(&config.settings),
        sel.status_code,
        sel.status_mesg,
        sel.mime_type,
        request.path@,
        request.version@,
        date,
    )
    &&& handler_answers(config, sel.handler, &asked, handed, answer)
    &&& finishes(config, &asked, answer, out)
}

/// `out` is response and body for `request`, for a connection in the
/// state of `config`.  A request that takes `text/event-stream` gets the
/// first answer of the event stream at its path.  Any other is served by
/// the handler that is chosen for it.
pub open spec fn answers<
    H: Fn(&Table<String>, &Request, Response) -> Response,
    L: Fn(&str) -> Result<Vec<u8>, String>,
    V: Fn(&str) -> bool,
    O,
>(config: &ConnConfig<H, L, V, O>, request: &Request, types: Seq<Seq<char>>, out: (Response, Body)) -> bool {
    if types.contains("text/event-stream"@) {
        &&& out.1@ == crate::sse::sse_first_body()
        &&& exists|date: Seq<char>|
            out.0@ == crate::sse::sse_response_view(
                config.server_info@,
                debug_on(&config.settings),
                crate::sse::sse_action(
                    config.sse_tasks.has(request.path@),
                    config.sse_openers.has(request.path@),
                ),
                request.path@,
                request.version@,
                date,
            )
    } else {
        exists|
            valid: bool,
            page_valid: bool,
            date: Seq<char>,
            asked: Request,
            handed: Response,
            answer: Response,
        | #[trigger]
            is_served(config, request, types, valid, page_valid, date, asked, handed, answer, out)
    }
}

/// Response and body for `request`.  A request that takes
/// `text/event-stream` is answered as a request of an event stream.  For
/// any other the handler is chosen and called with the initial response,
/// and where its answer names a template the template takes the place
/// of the body.
pub fn get_body<
    H: Fn(&Table<String>, &Request, Response) -> Response,
    L: Fn(&str) -> Result<Vec<u8>, String>,
    V: Fn(&str) -> bool,
    O: Fn(&Table<String>, &Request, &PushChan) -> ControlChan,
>(config: &mut ConnConfig<H, L, V, O>, request: Request, types: &Vec<String>) -> (out: (Response, Body))
    requires
        serviceable(old(config)),
    ensures
        same_but_tasks(old(config), final(config)),
        final(config).sse_tasks.wf(),
        framable(&out.0.headers, out.1),
        answers(old(config), &request, types.deep_view(), out),
        types.deep_view().contains("text/event-stream"@) ==> streams_after(old(config), final(config), &request),
        !types.deep_view().contains("text/event-stream"@) ==> final(config).sse_tasks == old(config).sse_tasks,
{
    proof {
        use_type_invariant(&config.sse_tasks);
        config.sse_tasks.lemma_wf();
    }
    if lists_type(types, "text/event-stream") {
        let out = process_sse(config, &request);
        proof {
            use_type_invariant(&out.0.headers);
            out.0.headers.lemma_wf();
        }
        proof {
            lemma_sse_response_framable(&out.0, out.1);
        }
        out
    } else {
        let ghost given = request;
        let sel = find_handler(
            &*config,
            request.method.as_str(),
            request.path.as_str(),
            types,
            request.version.as_str(),
        );
        let ghost (valid, page_valid) = choose|valid: bool, page_valid: bool|
            #[trigger] crate::dispatch::validity_known(
                config.valid_rsrc,
                config.resources_root@,
                request.path@,
                request.version@,
                valid,
                page_valid,
            ) && sel@ == crate::dispatch::selection(
                config.resources_root@,
                crate::config::routes_view(config.route_list@),
                &config.static_type_table,
                request.method@,
                request.path@,
                types.deep_view(),
                request.version@,
                valid,
                page_valid,
            );
        let response = make_initial_response(
            &*config,
            sel.status_code.as_str(),
            sel.status_mesg.as_str(),
            sel.mime_type.as_str(),
            &request,
        );
        let ghost date = choose|date: Seq<char>|
            response@ == initial_response_view(
                config.server_info@,
                debug_on(&config.settings),
                sel.status_code@,
                sel.status_mesg@,
                sel.mime_type@,
                request.path@,
                request.version@,
                date,
            );
        proof {
            use_type_invariant(&response.headers);
            response.headers.lemma_wf();
        }
        proof {
            lemma_initial_headers_plain(
                &response.headers,
                config.server_info@,
                debug_on(&config.settings),
                sel.mime_type@,
                date,
            );
            assert(response.body matches Body::StringBody(text) && text@ == Seq::<char>::empty());
            assert(body_size(response.body) == 0) by {
                reveal_with_fuel(vstd::utf8::encode_utf8, 1);
            }
        }
        let ghost handed = response;
        let mut request = request;
        let Selection { status_code, status_mesg, mime_type, handler, matches } = sel;
        request.matches = matches;
        let answer = run_handler(&*config, handler, &request, response);
        let ghost asked = request;
        let ghost got = answer;
        let out = if !answer.template.as_str().is_empty() {
            process_template(&*config, answer, &request)
        } else {
            let Response { status, headers, body, template, context } = answer;
            let again = Response { status, headers, body: Body::StringBody(String::new()), template, context };
            (again, body)
        };
        proof {
            assert(finishes(&*config, &asked, got, out));
            assert(is_served(
                &*config,
                &given,
                types.deep_view(),
                valid,
                page_valid,
                date,
                asked,
                handed,
                got,
                out,
            ));
        }
        out
    }
}

/// The first answer to a request of an event stream can be framed.
proof fn lemma_sse_response_framable(response: &Response, body: Body)
    requires
        response.headers.wf(),
        body@ == crate::sse::sse_first_body(),
        exists|server_info: Seq<char>, debug: bool, action: crate::sse::SseAction, path: Seq<char>, version: Seq<
            char,
        >, date: Seq<char>|
            response@ == crate::sse::sse_response_view(server_info, debug, action, path, version, date),
    ensures
        framable(&response.headers, body),
{
    let (server_info, debug, action, path, version, date) = choose|
        server_info: Seq<char>,
        debug: bool,
        action: crate::sse::SseAction,
        path: Seq<char>,
        version: Seq<char>,
        date: Seq<char>,
    | response@ == crate::sse::sse_response_view(server_info, debug, action, path, version, date);
    reveal_strlit("Content-Type");
    reveal_strlit("Date");
    reveal_strlit("Server");
    reveal_strlit("Cache-Control");
    reveal_strlit("Content-Length");
    reveal_strlit("Transfer-Encoding");
    lemma_table_lookup(&response.headers, "Content-Length"@);
    let given = entries(&response.headers);
    let mime = if action == crate::sse::SseAction::Reject {
        "text/event-stream"@
    } else {
        "text/event-stream; charset=utf-8"@
    };
    let (code, mesg) = if action == crate::sse::SseAction::Reject {
        ("404"@, "Not Found"@)
    } else {
        ("200"@, "OK"@)
    };
    let first = initial_headers(server_info, debug, mime, date);
    let second = bind(first, "Transfer-Encoding"@, "chunked"@);
    assert(given == bind(second, "Cache-Control"@, "no-cache"@));
    assert forall|j: int| 0 <= j < first.len() implies first[j].0.len() != 14 by {}
    assert forall|j: int| 0 <= j < second.len() implies second[j].0.len() != 14 by {}
    assert forall|j: int| 0 <= j < given.len() implies given[j].0 != "Content-Length"@ by {
        assert(given[j].0.len() != 14);
    }
    match body {
        Body::StringBody(text) => {
            assert(text@ == seq!['\n', '\n']);
            assert(body_size(body) <= usize::MAX) by {
                reveal_with_fuel(vstd::utf8::encode_utf8, 3);
                let s = seq!['\n', '\n'];
                assert(s.drop_first().drop_first().len() == 0);
                assert(vstd::utf8::encode_scalar('\n' as u32).len() <= 4);
            }
        },
        _ => {},
    }
}

/// Major and minor version, each in decimal, with a dot between.
pub open spec fn version_text(major: u64, minor: u64) -> Seq<char> {
    decimal(major as nat) + seq!['.'] + decimal(minor as nat)
}

/// The request that the handlers see, for a request as it was read.
pub open spec fn request_of(http: &HttpRequest, local_addr: Seq<char>, remote_addr: Seq<char>) -> RequestView {
    RequestView {
        version: version_text(http.major_version, http.minor_version),
        method: http.method@,
        local_addr,
        remote_addr,
        path: url_parts(http.url@).0,
        matches: Seq::empty(),
        params: url_parts(http.url@).1,
        headers: entries(&http.headers),
        body: http.body@,
    }
}

/// The request that the handlers see.
pub fn to_request(http: &HttpRequest, local_addr: &str, remote_addr: &str) -> (request: Request)
    ensures
        request@ == request_of(http, local_addr@, remote_addr@),
        request.headers.keys() == http.headers.keys(),
        accepted_types(&request.headers) == accepted_types(&http.headers),
{
    let mut version = decimal_string(http.major_version);
    version.append(".");
    version.append(decimal_string(http.minor_version).as_str());
    proof {
        reveal_strlit(".");
        assert("."@ =~= seq!['.']);
    }
    let (path, params) = parse_url(http.url.as_str());
    let matches: Table<String> = Table::new();
    assert(entries(&matches) =~= Seq::<(Seq<char>, Seq<char>)>::empty());
    let headers = copy_texts(&http.headers);
    proof {
        if http.headers.has("accept"@) {
            let at = http.headers.keys().index_of("accept"@);
            assert(entries(&headers)[at] == entries(&http.headers)[at]);
        }
    }
    Request {
        version,
        method: http.method.clone(),
        local_addr: local_addr.to_owned(),
        remote_addr: remote_addr.to_owned(),
        path,
        matches,
        params,
        headers,
        body: http.body.clone(),
    }
}

/// `out` is the header and the body that go on the wire for `response`
/// with `body`.
pub open spec fn is_framing_of(out: (String, Body), response: Response, body: Body) -> bool {
    &&& framable(&response.headers, body)
    &&& out.0@ == header_text(response.status@, &response.headers, body_size(body))
    &&& is_chunked(&response.headers) ==> is_single_chunk(out.1, body)
    &&& !is_chunked(&response.headers) ==> out.1 == body
}

/// Header and body of the answer to `request`: the framing of a
/// response and a body that answer the request as the handlers see it.
/// Only a request that takes `text/event-stream` changes the event
/// streams, and only by opening the stream at its path where that is not
/// open and something opens a stream there.
pub fn process_request<
    H: Fn(&Table<String>, &Request, Response) -> Response,
    L: Fn(&str) -> Result<Vec<u8>, String>,
    V: Fn(&str) -> bool,
    O: Fn(&Table<String>, &Request, &PushChan) -> ControlChan,
>(config: &mut ConnConfig<H, L, V, O>, request: &HttpRequest, local_addr: &str, remote_addr: &str) -> (out: (
    String,
    Body,
))
    requires
        serviceable(old(config)),
    ensures
        same_but_tasks(old(config), final(config)),
        final(config).sse_tasks.wf(),
        exists|seen: Request, response: Response, body: Body|
            seen@ == request_of(request, local_addr@, remote_addr@) && #[trigger] answers(
                old(config),
                &seen,
                accepted_types(&request.headers),
                (response, body),
            ) && is_framing_of(out, response, body) && (accepted_types(&request.headers).contains(
                "text/event-stream"@,
            ) ==> streams_after(old(config), final(config), &seen)),
        !accepted_types(&request.headers).contains("text/event-stream"@) ==> final(config).sse_tasks == old(config).sse_tasks,
{
    let seen = to_request(request, local_addr, remote_addr);
    let types = request_types(&seen.headers);
    let ghost asked = seen;
    let (response, body) = get_body(config, seen, &types);
    let out = make_header_and_body(&response, body);
    assert(is_framing_of(out, response, body));
    out
}

/// The answer to a text that is no request: `400 Bad Request`, with the
/// text of the error as the body.
pub open spec fn malformed_view(
    server_info: Seq<char>,
    debug: bool,
    error: crate::http_parser::ParseErrorView,
    date: Seq<char>,
) -> (ResponseView, BodyView) {
    (
        initial_response_view(
            server_info,
            debug,
            "400"@,
            "Bad Request"@,
            "text/plain; charset=UTF-8"@,
            Seq::empty(),
            Seq::empty(),
            date,
        ),
        BodyView::Text(crate::http_parser::error_text(error)),
    )
}

/// Header and body of the answer to a text that is no request: the
/// framing of `malformed_view` for some date.
pub fn malformed_request<H, L, V, O>(config: &ConnConfig<H, L, V, O>, error: &crate::http_parser::ParseError) -> (out:
    (String, Body))
    ensures
        exists|response: Response, body: Body, date: Seq<char>|
            #![trigger is_framing_of(out, response, body), malformed_view(
                config.server_info@,
                debug_on(&config.settings),
                error@,
                date,
            )]
            is_framing_of(out, response, body) && (response@, body@) == malformed_view(
                config.server_info@,
                debug_on(&config.settings),
                error@,
                date,
            ),
{
    let date = utc_now_rfc822();
    let response = initial_response(
        config.server_info.as_str(),
        is_debug(&config.settings),
        "400",
        "Bad Request",
        "text/plain; charset=UTF-8",
        "",
        "",
        date,
    );
    let body = Body::text(error.to_str());
    proof {
        use_type_invariant(&response.headers);
        response.headers.lemma_wf();
    }
    proof {
        lemma_initial_headers_plain(
            &response.headers,
            config.server_info@,
            debug_on(&config.settings),
            "text/plain; charset=UTF-8"@,
            date@,
        );
        reveal_strlit("");
        assert(""@ =~= Seq::<char>::empty());
    }
    let out = make_header_and_body(&response, body);
    assert(is_framing_of(out, response, body));
    assert((response@, body@) == malformed_view(
        config.server_info@,
        debug_on(&config.settings),
        error@,
        date@,
    ));
    out
}

} // verus!
