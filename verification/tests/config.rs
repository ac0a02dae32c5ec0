use rwebserve::body::Body;
use rwebserve::channel::{ControlChan, PushChan};
use rwebserve::config::{config_to_conn, initialize_config, parse_route_template, Config, Handler};
use rwebserve::framing::{event_chunk, has_all_headers, is_framable, last_chunk};
use rwebserve::http_parser::parse_request;
use rwebserve::message::{Request, Response};
use rwebserve::request::{initial_response, malformed_request, request_types, to_request};
use rwebserve::table::{table_of, Table};

type View = fn(&Table<String>, &Request, Response) -> Response;
type Loader = fn(&str) -> Result<Vec<u8>, String>;
type Validator = fn(&str) -> bool;
type Opener = fn(&Table<String>, &Request, &PushChan) -> ControlChan;

fn first(_settings: &Table<String>, _request: &Request, response: Response) -> Response {
    Response { status: "first".to_string(), ..response }
}

fn second(_settings: &Table<String>, _request: &Request, response: Response) -> Response {
    Response { status: "second".to_string(), ..response }
}

fn loader(_path: &str) -> Result<Vec<u8>, String> {
    Ok(vec![])
}

fn never(_path: &str) -> bool {
    false
}

fn triple(a: &str, b: &str, c: &str) -> (String, String, String) {
    (a.to_string(), b.to_string(), c.to_string())
}

fn pair(a: &str, b: &str) -> (String, String) {
    (a.to_string(), b.to_string())
}

fn blank_request() -> Request {
    Request {
        version: "1.1".to_string(),
        method: "GET".to_string(),
        local_addr: String::new(),
        remote_addr: String::new(),
        path: "/".to_string(),
        matches: Table::new(),
        params: vec![],
        headers: Table::new(),
        body: String::new(),
    }
}

fn blank_response() -> Response {
    Response {
        status: String::new(),
        headers: Table::new(),
        body: Body::StringBody(String::new()),
        template: String::new(),
        context: Table::new(),
    }
}

#[test]
fn default_configuration_is_empty() {
    let config: Config<View, Loader, Validator, Opener> = initialize_config(loader as Loader, never as Validator);

    assert_eq!(config.hosts, vec!["localhost".to_string()]);
    assert_eq!(config.port, 80);
    assert_eq!(config.server_info, "unknown");
    assert_eq!(config.resources_root, ".");
    assert!(config.routes.is_empty() && config.views.is_empty() && config.sse.is_empty());
    assert!(config.static_types.is_empty() && config.settings.is_empty());
    assert!(matches!(config.static_handler, Handler::BuiltIn));
    assert!(matches!(config.missing, Handler::BuiltIn));
    assert!(config.read_error.contains("Could not read URL {{request-path}}"));
}

#[test]
fn connection_keeps_the_routes_that_have_views() {
    let mut config: Config<View, Loader, Validator, Opener> = initialize_config(loader as Loader, never as Validator);
    config.resources_root = "/srv/./www//html/../pages/".to_string();
    config.routes = vec![
        triple("GET", "/a", "one"),
        triple("GET", "/b<text/csv>", "none"),
        triple("POST", "/c/{id}<application/json>", "two"),
        triple("GET", "/d>", "one"),
    ];
    config.views = vec![("one".to_string(), first as View), ("two".to_string(), first as View), ("one".to_string(), second as View)];
    config.static_types = vec![pair(".jpg", "image/pjpeg"), pair(".md", "text/markdown")];
    config.settings = vec![pair("debug", "false"), pair("x", "1"), pair("debug", "true")];
    let (push, _port) = std::sync::mpsc::channel();
    let conn = config_to_conn(config, push);

    assert_eq!(conn.resources_root, "/srv/www/pages");
    assert_eq!(conn.route_list.len(), 3);
    assert_eq!(conn.route_list[0].method, "GET");
    assert_eq!(conn.route_list[0].template, "/a");
    assert_eq!(conn.route_list[0].mime_type, "text/html");
    assert_eq!(conn.route_list[0].route, "one");
    assert_eq!(conn.route_list[1].method, "POST");
    assert_eq!(conn.route_list[1].template, "/c/{id}");
    assert_eq!(conn.route_list[1].mime_type, "application/json");
    assert_eq!(conn.route_list[1].route, "two");
    assert_eq!(conn.route_list[2].template, "/d>");
    assert_eq!(conn.route_list[2].mime_type, "text/html");
    assert_eq!(conn.views_table.len(), 2);
    let one = conn.views_table.get("one").unwrap();
    assert_eq!(one(&conn.settings, &blank_request(), blank_response()).status, "second");
    let two = conn.views_table.get("two").unwrap();
    assert_eq!(two(&conn.settings, &blank_request(), blank_response()).status, "first");
    assert_eq!(conn.static_type_table.get(".jpg").unwrap(), "image/pjpeg");
    assert_eq!(conn.static_type_table.get(".html").unwrap(), "text/html");
    assert_eq!(conn.static_type_table.get(".md").unwrap(), "text/markdown");
    assert_eq!(conn.static_type_table.len(), 14);
    assert_eq!(conn.settings.get("debug").unwrap(), "true");
    assert_eq!(conn.settings.len(), 2);
    assert_eq!(conn.sse_tasks.len(), 0);
    assert_eq!(conn.sse_openers.len(), 0);
}

#[test]
fn route_template_may_end_in_a_type() {
    assert_eq!(parse_route_template("/foo/bar<text/csv>"), pair("/foo/bar", "text/csv"));
    assert_eq!(parse_route_template("/foo/bar"), pair("/foo/bar", "text/html"));
    assert_eq!(parse_route_template("/foo<a>/bar<b>"), pair("/foo<a>/bar", "b"));
    assert_eq!(parse_route_template("/foo<a>/bar"), pair("/foo<a>/bar", "text/html"));
    assert_eq!(parse_route_template("<>"), pair("", ""));
    assert_eq!(parse_route_template(">"), pair(">", "text/html"));
    assert_eq!(parse_route_template(""), pair("", "text/html"));
}

#[test]
fn request_is_made_from_what_was_read() {
    let http = parse_request("GET /some/path?a=1&b=2=3 HTTP/1.0\r\nAccept: text/html, text/csv,,*/*\r\n\r\n").ok().unwrap();
    let request = to_request(&http, "10.0.0.1", "10.0.0.2");

    assert_eq!(request.version, "1.0");
    assert_eq!(request.method, "GET");
    assert_eq!(request.local_addr, "10.0.0.1");
    assert_eq!(request.remote_addr, "10.0.0.2");
    assert_eq!(request.path, "/some/path");
    assert_eq!(request.params, vec![pair("a", "1"), pair("b", "2=3")]);
    assert_eq!(request.matches.len(), 0);
    assert_eq!(request.headers.get("accept").unwrap(), "text/html, text/csv,,*/*");
    assert_eq!(request.body, "");
    assert_eq!(request_types(&request.headers), vec!["text/html", " text/csv", "", "*/*"]);
    assert_eq!(request_types(&Table::new()), vec!["text/html"]);
}

fn entries_of(t: &Table<String>) -> Vec<(String, String)> {
    (0..t.len()).map(|i| (t.key_at(i).clone(), t.value_at(i).clone())).collect()
}

#[test]
fn initial_response_has_its_headers_and_context() {
    let response = initial_response("info", false, "200", "OK", "text/html; charset=UTF-8", "/p", "1.1", "now".to_string());

    assert_eq!(response.status, "200 OK");
    assert_eq!(
        entries_of(&response.headers),
        vec![pair("Content-Type", "text/html; charset=UTF-8"), pair("Date", "now"), pair("Server", "info")]
    );
    let context: Vec<(String, &rwebserve::value::Value)> =
        (0..response.context.len()).map(|i| (response.context.key_at(i).clone(), response.context.value_at(i))).collect();
    let text = |t: &str| rwebserve::value::Value::Text(t.to_string());
    let expected = vec![text("/p"), text("200"), text("OK"), text("1.1")];
    assert_eq!(
        context,
        vec![
            ("request-path".to_string(), &expected[0]),
            ("status-code".to_string(), &expected[1]),
            ("status-mesg".to_string(), &expected[2]),
            ("request-version".to_string(), &expected[3]),
        ]
    );
    assert_eq!(response.template, "");
    assert!(matches!(&response.body, Body::StringBody(text) if text.is_empty()));
    let debug = initial_response("info", true, "200", "OK", "a/b", "/p", "1.1", "now".to_string());
    assert_eq!(debug.headers.len(), 4);
    assert_eq!(debug.headers.key_at(3), "Cache-Control");
    assert_eq!(debug.headers.get("Cache-Control").unwrap(), "no-cache");
}

#[test]
fn malformed_request_is_answered_with_its_error() {
    let config: Config<View, Loader, Validator, Opener> = initialize_config(loader as Loader, never as Validator);
    let (push, _port) = std::sync::mpsc::channel();
    let conn = config_to_conn(config, push);
    let error = parse_request("GET / HXTP/1.1\r\n\r\n").err().unwrap();
    let (header, body) = malformed_request(&conn, &error);

    assert!(header.starts_with("HTTP/1.1 400 Bad Request\r\nContent-Type: text/plain; charset=UTF-8\r\nDate: "));
    assert!(header.ends_with("\r\nServer: unknown\r\nContent-Length: 32\r\n\r\n"));
    assert_eq!(body.to_str().unwrap(), "Expected 'HTTP/' on line 1 col 8");
}

#[test]
fn events_go_out_as_chunks() {
    assert_eq!(event_chunk("retry: 5000\ndata: 7\n\n"), "15\r\nretry: 5000\ndata: 7\n\n\r\n");
    assert_eq!(event_chunk("\u{e9}"), "2\r\n\u{e9}\r\n");
    assert_eq!(event_chunk(""), "0\r\n\r\n");
    assert_eq!(event_chunk(&"x".repeat(0xabc)), format!("ABC\r\n{}\r\n", "x".repeat(0xabc)));
    assert_eq!(last_chunk(), "0\r\n\r\n");
}

#[test]
fn headers_end_with_an_empty_line() {
    assert!(has_all_headers(&b"GET / HTTP/1.1\r\n\r\n".to_vec()));
    assert!(has_all_headers(&b"\r\n\r\n".to_vec()));
    assert!(has_all_headers(&b"a\r\n\r\nb".to_vec()));
    assert!(!has_all_headers(&b"GET / HTTP/1.1\r\n".to_vec()));
    assert!(!has_all_headers(&b"\r\n\r".to_vec()));
    assert!(!has_all_headers(&b"\n\r\n\r".to_vec()));
    assert!(!has_all_headers(&b"".to_vec()));
}

#[test]
fn response_with_length_and_chunks_cannot_be_framed() {
    let mut response = blank_response();
    assert!(is_framable(&response));
    response.headers = table_of(&vec![pair("Transfer-Encoding", "chunked")]);
    assert!(is_framable(&response));
    response.headers = table_of(&vec![pair("Transfer-Encoding", "chunked"), pair("Content-Length", "0")]);
    assert!(!is_framable(&response));
    response.headers = table_of(&vec![pair("Transfer-Encoding", "gzip"), pair("Content-Length", "0")]);
    assert!(is_framable(&response));
}
