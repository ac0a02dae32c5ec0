use rwebserve::body::Body;
use rwebserve::channel::{ControlChan, PushChan};
use rwebserve::config::{config_to_conn, initialize_config, Config, ConnConfig};
use rwebserve::http_parser::HttpRequest;
use rwebserve::message::{Request, Response};
use rwebserve::request::{parse_url, process_request};
use rwebserve::table::{table_of, Table};
use rwebserve::templates::load_template;

type View = fn(&Table<String>, &Request, Response) -> Response;
type Loader = fn(&str) -> Result<Vec<u8>, String>;
type Validator = fn(&str) -> bool;
type Opener = fn(&Table<String>, &Request, &PushChan) -> ControlChan;
type TestConfig = Config<View, Loader, Validator, Opener>;
type TestConn = ConnConfig<View, Loader, Validator, Opener>;

fn test_view(_settings: &Table<String>, _request: &Request, response: Response) -> Response {
    Response { template: "test.html".to_string(), ..response }
}

fn null_loader(path: &str) -> Result<Vec<u8>, String> {
    Ok(format!("{} contents", path).into_bytes())
}

fn err_loader(path: &str) -> Result<Vec<u8>, String> {
    Err(format!("{} failed to load", path))
}

fn bad_loader(_path: &str) -> Result<Vec<u8>, String> {
    Ok("unbalanced {{curly}} {{braces}".to_string().into_bytes())
}

fn always(_path: &str) -> bool {
    true
}

fn never(_path: &str) -> bool {
    false
}

fn pair(key: &str, value: &str) -> (String, String) {
    (key.to_string(), value.to_string())
}

fn make_request(url: &str, mime_type: &str) -> HttpRequest {
    let headers = vec![
        pair("host", "localhost:8080"),
        pair("user-agent", "Mozilla/5.0"),
        pair("accept", mime_type),
        pair("accept-Language", "en-us,en"),
        pair("accept-encoding", "gzip, deflate"),
        pair("connection", "keep-alive"),
    ];
    HttpRequest {
        method: "GET".to_string(),
        major_version: 1,
        minor_version: 1,
        url: url.to_string(),
        headers: table_of(&headers),
        body: String::new(),
    }
}

fn make_config(route: &str, load_rsrc: Loader, valid_rsrc: Validator) -> TestConfig {
    let mut config: TestConfig = initialize_config(load_rsrc, valid_rsrc);
    config.hosts = vec!["localhost".to_string()];
    config.server_info = "unit test".to_string();
    config.resources_root = "server/html".to_string();
    config.routes = vec![("GET".to_string(), route.to_string(), "foo".to_string())];
    config.views = vec![("foo".to_string(), test_view as View)];
    config
}

fn connect(config: TestConfig) -> TestConn {
    let (ech, _eport) = std::sync::mpsc::channel();
    config_to_conn(config, ech)
}

fn text_of(body: &Body) -> String {
    body.to_str().unwrap()
}

#[test]
fn html_route() {
    let config = make_config("/foo/bar", null_loader, never);
    let mut iconfig = connect(config);

    let request = make_request("/foo/bar", "text/html");
    let (_header, body) = process_request(&mut iconfig, &request, "10.11.12.13", "1.2.3.4");

    assert_eq!(text_of(&body), "server/html/test.html contents");
}

#[test]
fn route_with_bad_type() {
    let config = make_config("/foo/bar", null_loader, never);
    let mut iconfig = connect(config);

    let request = make_request("/foo/bar", "text/zzz");
    let (header, body) = process_request(&mut iconfig, &request, "10.11.12.13", "1.2.3.4");

    assert!(header.contains("404 Not Found"));
    assert!(header.contains("Content-Type: text/html"));
    assert_eq!(text_of(&body), "server/html/not-found.html contents");
}

#[test]
fn non_html_route() {
    let config = make_config("/foo/bar<text/csv>", null_loader, never);
    let mut iconfig = connect(config);

    let request = make_request("/foo/bar", "text/csv");
    let (_header, body) = process_request(&mut iconfig, &request, "10.11.12.13", "1.2.3.4");

    assert_eq!(text_of(&body), "server/html/test.html contents");
}

#[test]
fn static_route() {
    let config = make_config("/foo/bar", null_loader, always);
    let mut iconfig = connect(config);

    let request = make_request("/foo/baz.jpg", "text/html,image/jpeg");
    let (header, body) = process_request(&mut iconfig, &request, "10.11.12.13", "1.2.3.4");

    assert!(header.contains("Content-Type: image/jpeg"));
    match body {
        Body::BinaryBody(binary) => {
            assert_eq!(String::from_utf8(binary).unwrap(), "server/html/foo/baz.jpg contents")
        }
        _ => panic!("Expected binary body but found {:?}", body.to_str()),
    }
}

#[test]
fn static_with_bad_type() {
    let config = make_config("/foo/bar", null_loader, always);
    let mut iconfig = connect(config);

    let request = make_request("/foo/baz.jpg", "text/zzz");
    let (header, body) = process_request(&mut iconfig, &request, "10.11.12.13", "1.2.3.4");

    assert!(header.contains("Content-Type: text/html"));
    assert_eq!(text_of(&body), "server/html/not-found.html contents");
}

#[test]
fn bad_url() {
    let config = make_config("/foo/bar", null_loader, never);
    let mut iconfig = connect(config);

    let request = make_request("/foo/baz.jpg", "text/html,image/jpeg");
    let (header, body) = process_request(&mut iconfig, &request, "10.11.12.13", "1.2.3.4");

    assert!(header.contains("Content-Type: text/html"));
    assert!(header.contains("404 Not Found"));
    assert!(text_of(&body).contains("server/html/not-found.html content"));
}

#[test]
fn path_outside_root() {
    let config = make_config("/foo/bar", null_loader, always);
    let mut iconfig = connect(config);

    let request = make_request("/foo/../../baz.jpg", "text/html,image/jpeg");
    let (header, body) = process_request(&mut iconfig, &request, "10.11.12.13", "1.2.3.4");

    assert!(header.contains("Content-Type: text/html"));
    assert!(header.contains("403 Forbidden"));
    assert!(text_of(&body).contains("server/html/not-found.html contents"));
}

#[test]
fn read_error() {
    let config = make_config("/foo/baz", err_loader, always);
    let mut iconfig = connect(config);

    let request = make_request("/foo/baz.jpg", "text/html,image/jpeg");
    let (header, body) = process_request(&mut iconfig, &request, "10.11.12.13", "1.2.3.4");

    assert!(header.contains("Content-Type: text/html"));
    assert!(header.contains("403 Forbidden"));
    assert!(text_of(&body).contains("Could not read URL /foo/baz.jpg"));
}

#[test]
fn bad_version() {
    let config = make_config("/foo/baz", null_loader, always);
    let mut iconfig = connect(config);

    let request = HttpRequest { major_version: 100, ..make_request("/foo/baz.jpg", "text/html,image/jpeg") };
    let (header, body) = process_request(&mut iconfig, &request, "10.11.12.13", "1.2.3.4");

    assert!(header.contains("Content-Type: text/html"));
    assert!(header.contains("505 HTTP Version Not Supported"));
    assert!(text_of(&body).contains("server/html/not-found.html contents"));
}

#[test]
fn bad_template() {
    let mut config = make_config("/foo/baz", bad_loader, always);
    config.settings = vec![pair("debug", "true")];
    let iconfig = connect(config);

    match load_template(&iconfig.load_rsrc, &iconfig.settings, "blah.html") {
        Ok(v) => {
            panic!("Expected error but found: {}", v);
        }
        Err(s) => {
            assert!(s.message().contains("mismatched curly braces"));
        }
    }
}

#[test]
fn query_strings() {
    let (path, params) = parse_url("/some/url");
    assert_eq!(path, "/some/url");
    assert_eq!(params, vec![]);

    let (path, params) = parse_url("/some/url?badness");
    assert_eq!(path, "/some/url?badness");
    assert_eq!(params, vec![]);

    let (path, params) = parse_url("/some?name=value");
    assert_eq!(path, "/some");
    assert_eq!(params, vec![pair("name", "value")]);

    let (path, params) = parse_url("/some?name=value&foo=bar");
    assert_eq!(path, "/some");
    assert_eq!(params, vec![pair("name", "value"), pair("foo", "bar")]);
}

#[test]
fn no_routes_and_no_resource_is_not_found() {
    let mut config: TestConfig = initialize_config(null_loader as Loader, never as Validator);
    config.server_info = "unit test".to_string();
    config.resources_root = "server/html".to_string();
    let mut iconfig = connect(config);

    let request = rwebserve::http_parser::parse_request("GET / HTTP/1.1\r\n\r\n").ok().unwrap();
    let (header, body) = process_request(&mut iconfig, &request, "10.11.12.13", "1.2.3.4");

    assert!(header.starts_with("HTTP/1.1 404 Not Found\r\n"));
    assert_eq!(text_of(&body), "server/html/not-found.html contents");
    assert!(header.contains("Content-Length: 35\r\n"));
    assert!(header.ends_with("\r\n\r\n"));
}

#[test]
fn unsupported_version_from_the_wire() {
    let config = make_config("/foo/bar", null_loader, never);
    let mut iconfig = connect(config);

    let request = rwebserve::http_parser::parse_request("GET /x HTTP/100.1\r\n\r\n").ok().unwrap();
    let (header, body) = process_request(&mut iconfig, &request, "10.11.12.13", "1.2.3.4");

    assert!(header.starts_with("HTTP/1.1 505 HTTP Version Not Supported\r\n"));
    assert_eq!(text_of(&body), "server/html/not-found.html contents");
}

#[test]
fn header_has_the_wire_layout() {
    let mut config = make_config("/foo/bar", null_loader, never);
    config.settings = vec![pair("debug", "true")];
    let mut iconfig = connect(config);

    let request = make_request("/foo/bar", "text/html");
    let (header, body) = process_request(&mut iconfig, &request, "10.11.12.13", "1.2.3.4");
    let lines: Vec<&str> = header.split("\r\n").collect();

    assert_eq!(lines[0], "HTTP/1.1 200 OK");
    assert_eq!(lines[1], "Content-Type: text/html; charset=UTF-8");
    assert!(lines[2].starts_with("Date: "));
    assert!(lines[2].len() > "Date: ".len());
    assert_eq!(lines[3], "Server: unit test");
    assert_eq!(lines[4], "Cache-Control: no-cache");
    assert_eq!(lines[5], format!("Content-Length: {}", body.to_bytes().len()));
    assert_eq!(lines[6], "");
    assert_eq!(lines[7], "");
    assert_eq!(lines.len(), 8);
}
