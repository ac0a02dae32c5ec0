use rwebserve::body::Body;
use rwebserve::channel::{ControlChan, ControlEvent, PushChan};
use rwebserve::config::{config_to_conn, initialize_config, Config, ConnConfig};
use rwebserve::http_parser::{parse_request, HttpRequest};
use rwebserve::message::{Request, Response};
use rwebserve::request::process_request;
use rwebserve::sse::{close_sses, make_response, process_sse, sse_response, OpenSse, SseAction};
use rwebserve::table::{table_of, Table};
use rwebserve::tasks::{
    push_frame, push_step, state_step, uptime_payload, PushInput, PushOutput, PushTask, StateInput, StateMesg,
    StateOutput, StateTask,
};
use rwebserve::templates::render_template;
use std::sync::mpsc::{channel, Receiver};
use std::sync::{Arc, Mutex};

type View = fn(&Table<String>, &Request, Response) -> Response;
type Loader = fn(&str) -> Result<Vec<u8>, String>;
type Validator = fn(&str) -> bool;
type Opener = Box<dyn Fn(&Table<String>, &Request, &PushChan) -> ControlChan>;
type Conn = ConnConfig<View, Loader, Validator, Opener>;

fn loader(path: &str) -> Result<Vec<u8>, String> {
    Ok(format!("{} contents", path).into_bytes())
}

fn never(_path: &str) -> bool {
    false
}

struct Opened {
    ports: Vec<(String, Receiver<ControlEvent>)>,
}

fn connect(log: Arc<Mutex<Opened>>) -> (Conn, Receiver<String>) {
    let mut config: Config<View, Loader, Validator, Opener> = initialize_config(loader as Loader, never as Validator);
    config.server_info = "unit test".to_string();
    config.resources_root = "server/html".to_string();
    let opener: Opener = Box::new(move |_settings, request, push| {
        let (control, port) = channel();
        push.send(format!("opened {}", request.path)).unwrap();
        log.lock().unwrap().ports.push((request.path.clone(), port));
        control
    });
    config.sse = vec![("/uptime".to_string(), opener)];
    let (push, pushed) = channel();
    (config_to_conn(config, push), pushed)
}

fn events_request(url: &str) -> HttpRequest {
    parse_request(&format!("GET {} HTTP/1.1\r\nAccept: text/event-stream\r\n\r\n", url)).ok().unwrap()
}

#[test]
fn second_request_of_a_stream_refreshes_it() {
    let log = Arc::new(Mutex::new(Opened { ports: vec![] }));
    let (mut conn, pushed) = connect(log.clone());

    let (header, body) = process_request(&mut conn, &events_request("/uptime?units=s"), "10.11.12.13", "1.2.3.4");
    assert!(header.starts_with("HTTP/1.1 200 OK\r\n"));
    assert!(header.contains("Transfer-Encoding: chunked\r\n"));
    assert!(header.contains("Cache-Control: no-cache\r\n"));
    assert!(header.contains("Content-Type: text/event-stream; charset=utf-8\r\n"));
    assert!(!header.contains("Content-Length"));
    assert_eq!(body.to_bytes(), b"2\r\n\n\n\r\n".to_vec());
    assert_eq!(conn.sse_tasks.len(), 1);
    assert!(conn.sse_tasks.contains_key("/uptime"));
    assert_eq!(pushed.try_recv().unwrap(), "opened /uptime");
    assert_eq!(log.lock().unwrap().ports.len(), 1);
    assert!(log.lock().unwrap().ports[0].1.try_recv().is_err());

    let (header, body) = process_request(&mut conn, &events_request("/uptime"), "10.11.12.13", "1.2.3.4");
    assert!(header.starts_with("HTTP/1.1 200 OK\r\n"));
    assert!(header.contains("Transfer-Encoding: chunked\r\n"));
    assert_eq!(body.to_bytes(), b"2\r\n\n\n\r\n".to_vec());
    assert_eq!(conn.sse_tasks.len(), 1);
    assert_eq!(log.lock().unwrap().ports.len(), 1);
    assert_eq!(log.lock().unwrap().ports[0].1.try_recv().unwrap(), ControlEvent::RefreshEvent);
    assert!(log.lock().unwrap().ports[0].1.try_recv().is_err());
    assert!(pushed.try_recv().is_err());
}

#[test]
fn stream_that_nothing_opens_is_not_found() {
    let log = Arc::new(Mutex::new(Opened { ports: vec![] }));
    let (mut conn, _pushed) = connect(log.clone());

    let (header, body) = process_request(&mut conn, &events_request("/nothing"), "10.11.12.13", "1.2.3.4");
    assert!(header.starts_with("HTTP/1.1 404 Not Found\r\n"));
    assert!(header.contains("Content-Type: text/event-stream\r\n"));
    assert!(header.contains("Transfer-Encoding: chunked\r\n"));
    assert_eq!(body.to_bytes(), b"2\r\n\n\n\r\n".to_vec());
    assert_eq!(conn.sse_tasks.len(), 0);
    assert_eq!(log.lock().unwrap().ports.len(), 0);
}

fn plain_request(path: &str) -> Request {
    Request {
        version: "1.1".to_string(),
        method: "GET".to_string(),
        local_addr: "l".to_string(),
        remote_addr: "r".to_string(),
        path: path.to_string(),
        matches: Table::new(),
        params: vec![],
        headers: Table::new(),
        body: String::new(),
    }
}

#[test]
fn closing_tells_every_stream_and_forgets_them() {
    let log = Arc::new(Mutex::new(Opened { ports: vec![] }));
    let (mut conn, _pushed) = connect(log.clone());

    assert!(!OpenSse(&mut conn, &plain_request("/other")));
    assert!(OpenSse(&mut conn, &plain_request("/uptime")));
    assert_eq!(conn.sse_tasks.len(), 1);
    let (response, body) = process_sse(&mut conn, &plain_request("/uptime"));
    assert_eq!(response.status, "200 OK");
    assert!(matches!(&body, Body::StringBody(text) if text == "\n\n"));

    assert_eq!(close_sses(&mut conn), 1);
    assert_eq!(conn.sse_tasks.len(), 0);
    let opened = log.lock().unwrap();
    assert_eq!(opened.ports[0].1.try_recv().unwrap(), ControlEvent::RefreshEvent);
    assert_eq!(opened.ports[0].1.try_recv().unwrap(), ControlEvent::CloseEvent);
    assert!(opened.ports[0].1.try_recv().is_err());
    drop(opened);
    assert_eq!(close_sses(&mut conn), 0);
}

fn entries_of(t: &Table<String>) -> Vec<(String, String)> {
    (0..t.len()).map(|i| (t.key_at(i).clone(), t.value_at(i).clone())).collect()
}

fn pair(key: &str, value: &str) -> (String, String) {
    (key.to_string(), value.to_string())
}

#[test]
fn first_answer_of_a_stream_has_its_headers() {
    let (response, _body) = sse_response("info", true, SseAction::Open, "/p", "1.1", "now".to_string());
    assert_eq!(
        entries_of(&response.headers),
        vec![
            pair("Content-Type", "text/event-stream; charset=utf-8"),
            pair("Date", "now"),
            pair("Server", "info"),
            pair("Cache-Control", "no-cache"),
            pair("Transfer-Encoding", "chunked"),
        ]
    );
    let (response, _body) = sse_response("info", false, SseAction::Reject, "/p", "1.1", "now".to_string());
    assert_eq!(response.status, "404 Not Found");
    assert_eq!(
        entries_of(&response.headers),
        vec![
            pair("Content-Type", "text/event-stream"),
            pair("Date", "now"),
            pair("Server", "info"),
            pair("Transfer-Encoding", "chunked"),
            pair("Cache-Control", "no-cache"),
        ]
    );
    let context: Vec<(String, &rwebserve::value::Value)> =
        (0..response.context.len()).map(|i| (response.context.key_at(i).clone(), response.context.value_at(i))).collect();
    let text = |t: &str| rwebserve::value::Value::Text(t.to_string());
    let expected = vec![text("/p"), text("404"), text("Not Found"), text("1.1")];
    assert_eq!(
        context,
        vec![
            ("request-path".to_string(), &expected[0]),
            ("status-code".to_string(), &expected[1]),
            ("status-mesg".to_string(), &expected[2]),
            ("request-version".to_string(), &expected[3]),
        ]
    );
}

#[test]
fn stream_response_is_chunked_and_dated() {
    let log = Arc::new(Mutex::new(Opened { ports: vec![] }));
    let (conn, _pushed) = connect(log);
    let response = make_response(&conn);

    assert_eq!(response.status, "200 OK");
    assert_eq!(response.headers.len(), 5);
    assert_eq!(response.headers.key_at(0), "Cache-Control");
    assert_eq!(response.headers.get("Content-Type").unwrap(), "text/event-stream; charset=utf-8");
    assert_eq!(response.headers.get("Server").unwrap(), "unit test");
    assert_eq!(response.headers.get("Transfer-Encoding").unwrap(), "chunked");
    let date = response.headers.get("Date").unwrap();
    assert!(date.len() >= 24, "{}", date);
    assert!(date.contains(", ") && date.contains(':'));
    assert_eq!(response.context.len(), 0);
}

#[test]
fn frames_have_retry_and_data() {
    assert_eq!(push_frame(5000, "7"), "retry: 5000\ndata: 7\n\n");
    assert_eq!(push_frame(0, ""), "retry: 0\ndata: \n\n");
    assert_eq!(uptime_payload(true, 125), "125");
    assert_eq!(uptime_payload(false, 125), "2");
    assert_eq!(uptime_payload(false, 59), "0");
    assert_eq!(uptime_payload(true, u64::MAX), "18446744073709551615");
}

#[test]
fn push_task_sends_refreshes_and_ends() {
    let mut task = PushTask { key: "uptime 1".to_string(), retry: 5000, last: "0".to_string(), open: true };

    match push_step(&mut task, PushInput::Control(ControlEvent::RefreshEvent)) {
        PushOutput::Frame(text) => assert_eq!(text, "retry: 5000\ndata: 0\n\n"),
        _ => panic!("expected a frame"),
    }
    match push_step(&mut task, PushInput::Notified("42".to_string())) {
        PushOutput::Frame(text) => assert_eq!(text, "retry: 5000\ndata: 42\n\n"),
        _ => panic!("expected a frame"),
    }
    assert_eq!(task.last, "42");
    match push_step(&mut task, PushInput::Control(ControlEvent::RefreshEvent)) {
        PushOutput::Frame(text) => assert_eq!(text, "retry: 5000\ndata: 42\n\n"),
        _ => panic!("expected a frame"),
    }
    assert!(task.open);
    match push_step(&mut task, PushInput::Control(ControlEvent::CloseEvent)) {
        PushOutput::Unregister(key) => assert_eq!(key, "uptime 1"),
        _ => panic!("expected the task to stop listening"),
    }
    assert!(!task.open);
    assert!(matches!(push_step(&mut task, PushInput::Notified("43".to_string())), PushOutput::Idle));
    assert!(matches!(push_step(&mut task, PushInput::Control(ControlEvent::CloseEvent)), PushOutput::Idle));
    assert_eq!(task.last, "42");
}

#[test]
fn state_task_ticks_and_keeps_its_listeners() {
    let mut task: StateTask<u8> = StateTask { time: 0, listeners: Table::new() };

    assert_eq!(state_step(&mut task, StateInput::Tick), StateOutput::Notify(1));
    assert_eq!(state_step(&mut task, StateInput::Mesg(StateMesg::AddListener("a".to_string(), 1))), StateOutput::Wait);
    assert_eq!(state_step(&mut task, StateInput::Mesg(StateMesg::AddListener("b".to_string(), 2))), StateOutput::Wait);
    assert_eq!(state_step(&mut task, StateInput::Mesg(StateMesg::AddListener("c".to_string(), 3))), StateOutput::Wait);
    assert_eq!(state_step(&mut task, StateInput::Tick), StateOutput::Notify(2));
    assert_eq!(task.time, 2);
    assert_eq!(task.listeners.len(), 3);
    assert_eq!(state_step(&mut task, StateInput::Mesg(StateMesg::RemoveListener("b".to_string()))), StateOutput::Wait);
    assert_eq!(state_step(&mut task, StateInput::Mesg(StateMesg::RemoveListener("zz".to_string()))), StateOutput::Wait);
    assert_eq!(task.listeners.len(), 2);
    assert_eq!(task.listeners.key_at(0), "a");
    assert_eq!(task.listeners.key_at(1), "c");
    assert_eq!(*task.listeners.value_at(1), 3);
    assert_eq!(state_step(&mut task, StateInput::Mesg(StateMesg::Shutdown)), StateOutput::Stop);
    assert_eq!(task.time, 2);
    assert_eq!(task.listeners.len(), 2);
}

#[test]
fn engine_takes_sections_and_dotted_names() {
    let mut context = Table::new();
    rwebserve::value::set_context_text(&mut context, "a", "1".to_string());
    rwebserve::value::set_context_text(&mut context, "empty", String::new());
    assert_eq!(
        render_template("{{#.}}x{{/.}}{{a.b}}{{! c }}{{#a}}{{a}}{{/a}}{{#empty}}no{{/empty}}{{^.}}y{{/.}}", &context)
            .ok()
            .unwrap(),
        "x1"
    );
}

#[test]
fn table_binds_each_key_once() {
    let mut table: Table<u32> = Table::new();
    assert!(table.insert("a".to_string(), 1));
    assert!(table.insert("b".to_string(), 2));
    assert!(!table.insert("a".to_string(), 3));
    assert_eq!(table.len(), 2);
    assert_eq!(table.key_at(0), "a");
    assert_eq!(table.get("a"), Some(&3));
    assert_eq!(table.position("b"), Some(1));
    assert_eq!(table.get("c"), None);
    assert_eq!(table.remove("a"), Some(3));
    assert_eq!(table.remove("a"), None);
    assert_eq!(table.len(), 1);
    assert_eq!(table.key_at(0), "b");
    let of_pairs = table_of(&vec![pair("x", "1"), pair("y", "2"), pair("x", "3")]);
    assert_eq!(entries_of(&of_pairs), vec![pair("x", "3"), pair("y", "2")]);
}
