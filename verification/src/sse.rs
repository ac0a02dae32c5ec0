//! Server-sent events: opening a stream for a client, refreshing it, and
//! closing all of them.
use crate::body::{Body, BodyView};
use crate::channel::{send_control, ControlChan, ControlEvent, PushChan};
use crate::clock::utc_now_rfc822;
use crate::config::ConnConfig;
use crate::message::{Request, Response, ResponseView};
use crate::request::{initial_response, initial_response_view};
use crate::table::{bind, set_text, Table};
use crate::templates::{debug_on, is_debug};
use vstd::prelude::*;
use vstd::string::*;

verus! {

/// What is done for a request of an event stream.
#[derive(Clone, Copy, Debug, PartialEq, Eq, Structural)]
pub enum SseAction {
    /// The stream is open: its task is told to refresh.
    Refresh,
    /// The stream is not open and can be opened.
    Open,
    /// Nothing opens a stream at this path.
    Reject,
}

/// What is done for a request of the stream at a path, given whether a
/// task is registered there and whether something opens a stream there.
pub open spec fn sse_action(registered: bool, has_opener: bool) -> SseAction {
    if registered {
        SseAction::Refresh
    } else if has_opener {
        SseAction::Open
    } else {
        SseAction::Reject
    }
}

/// What is done for a request of the stream at a path.
pub fn choose_sse_action(registered: bool, has_opener: bool) -> (action: SseAction)
    ensures
        action == sse_action(registered, has_opener),
{
    if registered {
        SseAction::Refresh
    } else if has_opener {
        SseAction::Open
    } else {
        SseAction::Reject
    }
}

/// The first answer to a request of an event stream: chunked, not to be
/// cached, `200 OK` unless the request was rejected.
pub open spec fn sse_response_view(
    server_info: Seq<char>,
    debug: bool,
    action: SseAction,
    path: Seq<char>,
    version: Seq<char>,
    date: Seq<char>,
) -> ResponseView {
    let first = if action == SseAction::Reject {
        initial_response_view(
            server_info,
            debug,
            "404"@,
            "Not Found"@,
            "text/event-stream"@,
            path,
            version,
            date,
        )
    } else {
        initial_response_view(
            server_info,
            debug,
            "200"@,
            "OK"@,
            "text/event-stream; charset=utf-8"@,
            path,
            version,
            date,
        )
    };
    ResponseView {
        headers: bind(bind(first.headers, "Transfer-Encoding"@, "chunked"@), "Cache-Control"@, "no-cache"@),
        ..first
    }
}

/// The body that goes with the first answer.
pub open spec fn sse_first_body() -> BodyView {
    BodyView::Text(seq!['\n', '\n'])
}

/// The first answer for `action`, at the time `date`.
pub fn sse_response(server_info: &str, debug: bool, action: SseAction, path: &str, version: &str, date: String) -> (out:
    (Response, Body))
    ensures
        out.0@ == sse_response_view(server_info@, debug, action, path@, version@, date@),
        out.1@ == sse_first_body(),
{
    let mut response = match action {
        SseAction::Reject => initial_response(
            server_info,
            debug,
            "404",
            "Not Found",
            "text/event-stream",
            path,
            version,
            date,
        ),
        _ => initial_response(
            server_info,
            debug,
            "200",
            "OK",
            "text/event-stream; charset=utf-8",
            path,
            version,
            date,
        ),
    };
    set_text(&mut response.headers, "Transfer-Encoding", "chunked".to_owned());
    set_text(&mut response.headers, "Cache-Control", "no-cache".to_owned());
    let body = Body::StringBody("\n\n".to_owned());
    proof {
        reveal_strlit("\n\n");
        assert("\n\n"@ =~= seq!['\n', '\n']);
    }
    (response, body)
}

/// Every opener can be called, whatever it is given.
pub open spec fn openers_callable<H, L, V, O: Fn(&Table<String>, &Request, &PushChan) -> ControlChan>(
    config: &ConnConfig<H, L, V, O>,
) -> bool {
    forall|i: int, settings: &Table<String>, request: &Request, push: &PushChan|
        0 <= i < config.sse_openers.values().len() ==> #[trigger] call_requires(
            config.sse_openers.values()[i],
            (settings, request, push),
        )
}

/// All of `b` but its open streams is as in `a`.
pub open spec fn same_but_tasks<H, L, V, O>(a: &ConnConfig<H, L, V, O>, b: &ConnConfig<H, L, V, O>) -> bool {
    &&& a.hosts == b.hosts
    &&& a.port == b.port
    &&& a.server_info == b.server_info
    &&& a.resources_root == b.resources_root
    &&& a.route_list == b.route_list
    &&& a.views_table == b.views_table
    &&& a.static_handler == b.static_handler
    &&& a.missing == b.missing
    &&& a.sse_openers == b.sse_openers
    &&& a.sse_push == b.sse_push
    &&& a.load_rsrc == b.load_rsrc
    &&& a.valid_rsrc == b.valid_rsrc
    &&& a.static_type_table == b.static_type_table
    &&& a.read_error == b.read_error
    &&& a.settings == b.settings
}

/// The streams after the opener at `path` has given `control`: the
/// channel stands under the path, in the place of the one that stood
/// there or, where none did, behind all others.  Nothing else changes.
pub open spec fn registered_as(
    before: &Table<ControlChan>,
    after: &Table<ControlChan>,
    path: Seq<char>,
    control: ControlChan,
) -> bool {
    if before.has(path) {
        &&& after.keys() == before.keys()
        &&& after.values() == before.values().update(before.keys().index_of(path), control)
    } else {
        &&& after.keys() == before.keys().push(path)
        &&& after.values() == before.values().push(control)
    }
}

/// `control` is what the opener at the path of `request` gave when it was
/// called with the settings, the request and the channel to the client,
/// and it is registered under the path.
pub open spec fn opened_as<H, L, V, O: Fn(&Table<String>, &Request, &PushChan) -> ControlChan>(
    before: &ConnConfig<H, L, V, O>,
    after: &ConnConfig<H, L, V, O>,
    request: &Request,
    control: ControlChan,
) -> bool {
    &&& call_ensures(
        before.sse_openers.at(request.path@),
        (&before.settings, request, &before.sse_push),
        control,
    )
    &&& registered_as(&before.sse_tasks, &after.sse_tasks, request.path@, control)
}

/// Opens the stream at the path of `request`, where something opens one
/// there: the opener is called once, with the settings, the request and
/// the channel to the client, and the channel that it returns is
/// registered under the path.  Returns whether a stream was opened; where
/// none was, nothing changes.
#[allow(non_snake_case)]
pub fn OpenSse<H, L, V, O: Fn(&Table<String>, &Request, &PushChan) -> ControlChan>(
    config: &mut ConnConfig<H, L, V, O>,
    request: &Request,
) -> (opened: bool)
    requires
        openers_callable(old(config)),
    ensures
        same_but_tasks(old(config), final(config)),
        final(config).sse_tasks.wf(),
        opened == old(config).sse_openers.has(request.path@),
        !opened ==> final(config).sse_tasks == old(config).sse_tasks,
        opened ==> exists|control: ControlChan| #[trigger] opened_as(old(config), final(config), request, control),
{
    proof {
        use_type_invariant(&config.sse_tasks);
        config.sse_tasks.lemma_wf();
    }
    match config.sse_openers.position(request.path.as_str()) {
        Some(at) => {
            let opener = config.sse_openers.value_at(at);
            let control = opener(&config.settings, request, &config.sse_push);
            let ghost chan = control;
            config.sse_tasks.insert(request.path.clone(), control);
            proof {
                assert(old(config).sse_openers.at(request.path@) == *opener);
                assert(opened_as(old(config), &*config, request, chan));
            }
            true
        },
        None => false,
    }
}

/// Answers a request of the event stream at the path of `request`.  A
/// stream that is open is told to refresh, and the streams stay as they
/// are.  One that is not open is opened, where something opens a stream
/// at the path: the channel that the opener gives is registered behind
/// the others.  Where nothing does, the streams stay as they are.  The
/// answer is the first answer for what was done, at some date.
pub fn process_sse<H, L, V, O: Fn(&Table<String>, &Request, &PushChan) -> ControlChan>(
    config: &mut ConnConfig<H, L, V, O>,
    request: &Request,
) -> (out: (Response, Body))
    requires
        openers_callable(old(config)),
    ensures
        same_but_tasks(old(config), final(config)),
        final(config).sse_tasks.wf(),
        streams_after(old(config), final(config), request),
        exists|date: Seq<char>|
            out.0@ == sse_response_view(
                old(config).server_info@,
                debug_on(&old(config).settings),
                sse_action(
                    old(config).sse_tasks.has(request.path@),
                    old(config).sse_openers.has(request.path@),
                ),
                request.path@,
                request.version@,
                date,
            ),
        out.1@ == sse_first_body(),
{
    proof {
        use_type_invariant(&config.sse_tasks);
        config.sse_tasks.lemma_wf();
    }
    let registered = config.sse_tasks.contains_key(request.path.as_str());
    let has_opener = config.sse_openers.contains_key(request.path.as_str());
    let action = choose_sse_action(registered, has_opener);
    match action {
        SseAction::Refresh => {
            match config.sse_tasks.get(request.path.as_str()) {
                Some(control) => {
                    send_control(control, ControlEvent::RefreshEvent);
                },
                None => {},
            }
        },
        SseAction::Open => {
            OpenSse(config, request);
        },
        SseAction::Reject => {},
    }
    let date = utc_now_rfc822();
    sse_response(
        config.server_info.as_str(),
        is_debug(&config.settings),
        action,
        request.path.as_str(),
        request.version.as_str(),
        date,
    )
}

/// The streams of `after` are those of `before` after a request of the
/// event stream at the path of `request`: unchanged where the stream was
/// open or nothing opens one there, else with the channel that the opener
/// gave registered under the path.
pub open spec fn streams_after<H, L, V, O: Fn(&Table<String>, &Request, &PushChan) -> ControlChan>(
    before: &ConnConfig<H, L, V, O>,
    after: &ConnConfig<H, L, V, O>,
    request: &Request,
) -> bool {
    if before.sse_tasks.has(request.path@) || !before.sse_openers.has(request.path@) {
        after.sse_tasks == before.sse_tasks
    } else {
        exists|control: ControlChan| #[trigger] opened_as(before, after, request, control)
    }
}

/// Tells every open stream to close and forgets them all.  Returns the
/// number of streams that were told.
pub fn close_sses<H, L, V, O>(config: &mut ConnConfig<H, L, V, O>) -> (told: usize)
    ensures
        same_but_tasks(old(config), final(config)),
        told == old(config).sse_tasks.keys().len(),
        final(config).sse_tasks.keys().len() == 0,
{
    let n = config.sse_tasks.len();
    let mut i: usize = 0;
    while i < n
        invariant
            i <= n,
            n == config.sse_tasks.keys().len(),
            config.sse_tasks.wf(),
        decreases n - i,
    {
        send_control(config.sse_tasks.value_at(i), ControlEvent::CloseEvent);
        i += 1;
    }
    config.sse_tasks = Table::new();
    n
}

/// The headers of the answer that starts a stream of events.
pub open spec fn stream_headers(server_info: Seq<char>, date: Seq<char>) -> Seq<(Seq<char>, Seq<char>)> {
    seq![
        ("Cache-Control"@, "no-cache"@),
        ("Content-Type"@, "text/event-stream; charset=utf-8"@),
        ("Date"@, date),
        ("Server"@, server_info),
        ("Transfer-Encoding"@, "chunked"@),
    ]
}

/// The answer that starts a stream of events.
pub open spec fn stream_response_view(server_info: Seq<char>, date: Seq<char>) -> ResponseView {
    ResponseView {
        status: "200 OK"@,
        headers: stream_headers(server_info, date),
        body: BodyView::Text(Seq::empty()),
        template: Seq::empty(),
        context: Seq::empty(),
    }
}

/// The answer that starts a stream of events, at the time `date`.
pub fn stream_response(server_info: &str, date: String) -> (response: Response)
    ensures
        response@ == stream_response_view(server_info@, date@),
{
    let mut pairs: Vec<(String, String)> = Vec::new();
    pairs.push(("Cache-Control".to_owned(), "no-cache".to_owned()));
    pairs.push(("Content-Type".to_owned(), "text/event-stream; charset=utf-8".to_owned()));
    pairs.push(("Date".to_owned(), date));
    pairs.push(("Server".to_owned(), server_info.to_owned()));
    pairs.push(("Transfer-Encoding".to_owned(), "chunked".to_owned()));
    let ghost wanted = stream_headers(server_info@, date@);
    assert(pairs.deep_view() =~= wanted);
    let headers = crate::table::table_of(&pairs);
    proof {
        reveal_strlit("Cache-Control");
        reveal_strlit("Content-Type");
        reveal_strlit("Date");
        reveal_strlit("Server");
        reveal_strlit("Transfer-Encoding");
        assert("Content-Type"@.len() != "Cache-Control"@.len());
        assert("Date"@.len() != "Cache-Control"@.len());
        assert("Date"@.len() != "Content-Type"@.len());
        assert("Server"@.len() != "Cache-Control"@.len());
        assert("Server"@.len() != "Content-Type"@.len());
        assert("Server"@.len() != "Date"@.len());
        assert("Transfer-Encoding"@.len() != "Cache-Control"@.len());
        assert("Transfer-Encoding"@.len() != "Content-Type"@.len());
        assert("Transfer-Encoding"@.len() != "Date"@.len());
        assert("Transfer-Encoding"@.len() != "Server"@.len());
        crate::table::lemma_bind_all_distinct(wanted, 5);
        assert(wanted.take(5) == wanted);
    }
    let context: Table<crate::value::Value> = Table::new();
    assert(crate::value::context_entries(&context) =~= Seq::<(Seq<char>, crate::value::ValueView)>::empty());
    Response {
        status: "200 OK".to_owned(),
        headers,
        body: Body::StringBody(String::new()),
        template: String::new(),
        context,
    }
}

/// The answer that starts a stream of events, at the present time:
/// `stream_response_view` for some date.
pub fn make_response<H, L, V, O>(config: &ConnConfig<H, L, V, O>) -> (response: Response)
    ensures
        exists|date: Seq<char>| response@ == stream_response_view(config.server_info@, date),
{
    let date = utc_now_rfc822();
    stream_response(config.server_info.as_str(), date)
}

} // verus!
