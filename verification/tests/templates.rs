use rwebserve::body::Body;
use rwebserve::channel::{ControlChan, PushChan};
use rwebserve::config::{config_to_conn, initialize_config, Config, ConnConfig, Handler};
use rwebserve::engine::is_engine_safe;
use rwebserve::http_parser::HttpRequest;
use rwebserve::message::{Request, Response};
use rwebserve::request::{error_page, make_base_path, process_request, process_template, static_view};
use rwebserve::table::{table_of, Table};
use rwebserve::value::{set_context_text, set_value, Value};
use rwebserve::templates::{
    check_template, load_template, match_curly_braces, render_template, url_dirname, TemplateError,
};

type View = fn(&Table<String>, &Request, Response) -> Response;
type Loader = fn(&str) -> Result<Vec<u8>, String>;
type Validator = fn(&str) -> bool;
type Opener = fn(&Table<String>, &Request, &PushChan) -> ControlChan;
type Conn = ConnConfig<View, Loader, Validator, Opener>;

fn greeting_view(_settings: &Table<String>, request: &Request, response: Response) -> Response {
    let mut response = response;
    set_context_text(&mut response.context, "user-name", request.matches.get("name").unwrap().clone());
    Response { template: "pages/hello.html".to_string(), ..response }
}

fn page_loader(path: &str) -> Result<Vec<u8>, String> {
    match path {
        "/srv/html/pages/hello.html" => Ok(
            "Hello {{user-name}} from {{request-path}} ({{status-code}} {{status-mesg}}, HTTP/{{request-version}}) at {{base-path}}{{missing}}"
                .to_string()
                .into_bytes(),
        ),
        "/srv/html/partial.html" => Ok("{{> other}}".to_string().into_bytes()),
        "/srv/html/dot.html" => Ok("<p>{{ . }}</p>".to_string().into_bytes()),
        "/srv/html/open.html" => Ok("{{#section}} never closed".to_string().into_bytes()),
        "/srv/html/latin.html" => Ok(vec![b'c', b'a', b'f', 0xe9]),
        _ => Err(format!("{} is unknown", path)),
    }
}

fn never(_path: &str) -> bool {
    false
}

fn connect(view: View) -> Conn {
    let mut config: Config<View, Loader, Validator, Opener> = initialize_config(page_loader as Loader, never as Validator);
    config.resources_root = "/srv/html".to_string();
    config.server_info = "unit test".to_string();
    config.port = 8080;
    config.routes = vec![("GET".to_string(), "/hello/{name}".to_string(), "greeting".to_string())];
    config.views = vec![("greeting".to_string(), view)];
    let (push, _port) = std::sync::mpsc::channel();
    config_to_conn(config, push)
}

fn get(url: &str) -> HttpRequest {
    HttpRequest {
        method: "GET".to_string(),
        major_version: 1,
        minor_version: 1,
        url: url.to_string(),
        headers: table_of(&vec![("accept".to_string(), "text/html".to_string())]),
        body: String::new(),
    }
}

fn chars(text: &str) -> Vec<char> {
    text.chars().collect()
}

fn text(value: &str) -> Value {
    Value::Text(value.to_string())
}

fn context_of(pairs: Vec<(&str, Value)>) -> Table<Value> {
    let mut context = Table::new();
    for (name, value) in pairs {
        set_value(&mut context, name, value);
    }
    context
}

#[test]
fn template_is_rendered_with_the_context() {
    let mut conn = connect(greeting_view);
    let (header, body) = process_request(&mut conn, &get("/hello/World?x=1"), "10.11.12.13", "1.2.3.4");

    assert!(header.starts_with("HTTP/1.1 200 OK\r\n"));
    assert_eq!(
        body.to_str().unwrap(),
        "Hello World from /hello/World (200 OK, HTTP/1.1) at http://10.11.12.13:8080/pages//"
    );
}

#[test]
fn rendering_escapes_what_it_inserts() {
    let context = context_of(vec![("name", text("<b>&\"'"))]);
    assert_eq!(render_template("[{{name}}]", &context).ok().unwrap(), "[&lt;b&gt;&amp;&quot;&#39;]");
    assert_eq!(render_template("[{{{name}}}]", &context).ok().unwrap(), "[<b>&\"']");
    assert_eq!(render_template("[{{& name}}]", &context).ok().unwrap(), "[<b>&\"']");
    assert_eq!(render_template("{{#name}}yes{{/name}}{{^other}}no{{/other}}", &context).ok().unwrap(), "yesno");
    assert_eq!(render_template("no tags. at all {", &context).ok().unwrap(), "no tags. at all {");
}

fn view_of(template: &'static str) -> View {
    match template {
        "partial.html" => |_s, _r, response| Response { template: "partial.html".to_string(), ..response },
        "dot.html" => |_s, _r, response| Response { template: "dot.html".to_string(), ..response },
        "open.html" => |_s, _r, response| Response { template: "open.html".to_string(), ..response },
        "latin.html" => |_s, _r, response| Response { template: "latin.html".to_string(), ..response },
        "outside" => |_s, _r, response| Response { template: "../secret.html".to_string(), ..response },
        _ => |_s, _r, response| Response { template: "nowhere.html".to_string(), ..response },
    }
}

fn assert_unreadable(template: &'static str) {
    let mut conn = connect(view_of(template));
    let (header, body) = process_request(&mut conn, &get("/hello/x"), "10.11.12.13", "1.2.3.4");

    assert!(header.starts_with("HTTP/1.1 403 Forbidden\r\n"), "{}", header);
    assert!(header.contains("Content-Type: text/html; charset=UTF-8\r\n"));
    assert_eq!(
        body.to_str().unwrap(),
        "<html><head><title>Error</title></head><body><p>Could not read URL /hello/x.</p></body></html>"
    );
}

#[test]
fn template_that_includes_another_is_not_rendered() {
    assert_unreadable("partial.html");
}

#[test]
fn template_with_a_dot_name_is_not_rendered() {
    assert_unreadable("dot.html");
}

#[test]
fn template_that_the_engine_rejects_is_not_rendered() {
    assert_unreadable("open.html");
}

#[test]
fn template_that_is_not_utf8_is_not_rendered() {
    assert_unreadable("latin.html");
}

#[test]
fn template_outside_the_root_is_not_loaded() {
    assert_unreadable("outside");
}

#[test]
fn template_that_cannot_be_loaded_is_not_rendered() {
    assert_unreadable("nowhere.html");
}

#[test]
fn each_template_error_has_its_message() {
    let plain = Table::new();
    let no_values: Table<Value> = Table::new();
    let debug = table_of(&vec![("debug".to_string(), "true".to_string())]);
    let quiet = table_of(&vec![("debug".to_string(), "yes".to_string())]);
    let loader = page_loader as Loader;

    match load_template(&loader, &plain, "/srv/html/none.html") {
        Err(TemplateError::Unreadable(why)) => assert_eq!(why, "/srv/html/none.html is unknown"),
        _ => panic!("expected an unreadable template"),
    }
    match load_template(&loader, &plain, "/srv/html/latin.html") {
        Err(e) => {
            assert!(matches!(e, TemplateError::NotUtf8));
            assert_eq!(e.message(), "template is not valid UTF-8");
        }
        _ => panic!("expected bytes that are not UTF-8"),
    }
    match check_template(Ok(b"a {{b}} {{c".to_vec()), true) {
        Err(e) => {
            assert!(matches!(e, TemplateError::MismatchedBraces));
            assert_eq!(e.message(), "mismatched curly braces");
        }
        _ => panic!("expected mismatched braces"),
    }
    assert_eq!(check_template(Ok(b"a {{b}} {{c".to_vec()), false).ok().unwrap(), "a {{b}} {{c");
    assert_eq!(load_template(&loader, &debug, "/srv/html/dot.html").ok().unwrap(), "<p>{{ . }}</p>");
    assert_eq!(load_template(&loader, &quiet, "/srv/html/open.html").ok().unwrap(), "{{#section}} never closed");
    match render_template("{{> x}}", &no_values) {
        Err(e) => {
            assert!(matches!(e, TemplateError::Unsupported));
            assert_eq!(e.message(), "template uses a tag that cannot be rendered");
        }
        _ => panic!("expected an unsupported tag"),
    }
    match render_template("{{#a}}", &no_values) {
        Err(e) => {
            assert!(matches!(e, TemplateError::Rejected));
            assert_eq!(e.message(), "template is malformed");
        }
        _ => panic!("expected a rejected template"),
    }
    assert_eq!(TemplateError::OutsideRoot.message(), "template is not under the resources root");
    assert_eq!(TemplateError::Unreadable("why".to_string()).message(), "why");
}

#[test]
fn braces_are_balanced_where_every_opening_is_closed_later() {
    assert!(match_curly_braces(&chars("")));
    assert!(match_curly_braces(&chars("no braces")));
    assert!(match_curly_braces(&chars("{{a}} and {{b}}")));
    assert!(match_curly_braces(&chars("{{ {{ }}")));
    assert!(match_curly_braces(&chars("}} {{a}}")));
    assert!(match_curly_braces(&chars("{ { } }")));
    assert!(match_curly_braces(&chars("{{{a}}}")));
    assert!(!match_curly_braces(&chars("unbalanced {{curly}} {{braces}")));
    assert!(!match_curly_braces(&chars("{{")));
    assert!(!match_curly_braces(&chars("{{}")));
    assert!(!match_curly_braces(&chars("}}{{")));
    assert!(!match_curly_braces(&chars("{{a}} {{{")));
}

#[test]
fn engine_takes_plain_tags_only() {
    assert!(is_engine_safe(&chars(""), &Table::new()));
    assert!(is_engine_safe(&chars("a.b > c = d . {x}"), &Table::new()));
    assert!(is_engine_safe(&chars("{{a}} {{{b}}} {{& c}} {{#d}}{{/d}} {{^e}}{{/e}} {{! f }} {{a.b}}"), &Table::new()));
    assert!(is_engine_safe(&chars("{{#.}}x{{/.}}"), &Table::new()));
    assert!(is_engine_safe(&chars("{{"), &Table::new()));
    assert!(!is_engine_safe(&chars("{{> partial}}"), &Table::new()));
    assert!(!is_engine_safe(&chars("{{=<% %>=}}"), &Table::new()));
    assert!(!is_engine_safe(&chars("{{.}}"), &Table::new()));
    assert!(!is_engine_safe(&chars("{{ \t\u{a0}. }}"), &Table::new()));
    assert!(!is_engine_safe(&chars("{{{.}}}"), &Table::new()));
    assert!(!is_engine_safe(&chars("{{{ .}}}"), &Table::new()));
    assert!(!is_engine_safe(&chars("{{&.}}"), &Table::new()));
    assert!(!is_engine_safe(&chars("{{& .x}}"), &Table::new()));
    assert!(!is_engine_safe(&chars("text {{a}} {{>b"), &Table::new()));
}

#[test]
fn error_page_is_the_rendered_text_or_the_text_itself() {
    assert_eq!(error_page("Could not read URL {{request-path}}.", "/a<b"), "Could not read URL /a&lt;b.");
    assert_eq!(error_page("No such {{> thing}} {{request-path}}", "/a"), "No such {{> thing}} {{request-path}}");
    assert_eq!(error_page("Broken {{#x}} {{request-path}}", "/a"), "Broken {{#x}} {{request-path}}");
}

#[test]
fn base_path_ends_behind_the_first_directory() {
    assert_eq!(url_dirname("pages/hello.html"), "pages/");
    assert_eq!(url_dirname("a/b/c.html"), "a/");
    assert_eq!(url_dirname("hello.html"), "hello.html");
    assert_eq!(url_dirname("/x"), "/");
    assert_eq!(url_dirname(""), "");
    assert_eq!(make_base_path("localhost", 80, "a/b.html"), "http://localhost:80/a//");
    assert_eq!(make_base_path("10.0.0.1", 65535, "b.html"), "http://10.0.0.1:65535/b.html/");
}

#[test]
fn forbidden_response_is_not_rendered() {
    let conn = connect(greeting_view);
    let request = Request {
        version: "1.1".to_string(),
        method: "GET".to_string(),
        local_addr: "l".to_string(),
        remote_addr: "r".to_string(),
        path: "/x".to_string(),
        matches: Table::new(),
        params: vec![],
        headers: Table::new(),
        body: String::new(),
    };
    let response = Response {
        status: "403 Forbidden".to_string(),
        headers: Table::new(),
        body: Body::StringBody(String::new()),
        template: "pages/hello.html".to_string(),
        context: context_of(vec![("user-name", text("x"))]),
    };
    let (response, body) = process_template(&conn, response, &request);

    assert_eq!(response.status, "403 Forbidden");
    assert_eq!(response.context.len(), 1);
    assert!(body.to_str().unwrap().starts_with("Hello {{user-name}} from"));
}

#[test]
fn response_without_context_is_not_rendered() {
    let conn = connect(greeting_view);
    let request = Request {
        version: "1.1".to_string(),
        method: "GET".to_string(),
        local_addr: "l".to_string(),
        remote_addr: "r".to_string(),
        path: "/x".to_string(),
        matches: Table::new(),
        params: vec![],
        headers: Table::new(),
        body: String::new(),
    };
    let response = Response {
        status: "200 OK".to_string(),
        headers: Table::new(),
        body: Body::StringBody(String::new()),
        template: "dot.html".to_string(),
        context: Table::new(),
    };
    let (response, body) = process_template(&conn, response, &request);

    assert_eq!(response.status, "200 OK");
    assert_eq!(body.to_str().unwrap(), "<p>{{ . }}</p>");
}

#[test]
fn static_handler_loads_under_the_root_only() {
    let conn = connect(greeting_view);
    let mut request = Request {
        version: "1.1".to_string(),
        method: "GET".to_string(),
        local_addr: "l".to_string(),
        remote_addr: "r".to_string(),
        path: "/latin.html".to_string(),
        matches: Table::new(),
        params: vec![],
        headers: Table::new(),
        body: String::new(),
    };
    let blank = || Response {
        status: "200 OK".to_string(),
        headers: Table::new(),
        body: Body::StringBody(String::new()),
        template: String::new(),
        context: Table::new(),
    };
    let answer = static_view(&conn, &request, blank());
    assert_eq!(answer.status, "200 OK");
    assert!(matches!(&answer.body, Body::BinaryBody(bytes) if bytes == &vec![b'c', b'a', b'f', 0xe9]));

    request.path = "/../html2/latin.html".to_string();
    let answer = static_view(&conn, &request, blank());
    assert_eq!(answer.status, "403 Forbidden");
    assert!(answer.body.to_str().unwrap().contains("Could not read URL /../html2/latin.html."));
    assert!(matches!(conn.static_handler, Handler::BuiltIn));
}

fn person(first: &str, admin: bool) -> Value {
    Value::Dict(vec![("first".to_string(), text(first)), ("admin".to_string(), Value::Bool(admin))])
}

#[test]
fn truth_values_lists_and_maps_drive_sections() {
    let context = context_of(vec![
        ("title", text("People")),
        ("shown", Value::Bool(true)),
        ("hidden", Value::Bool(false)),
        ("nothing", Value::Null),
        ("people", Value::List(vec![person("Ada", true), person("Bob", false)])),
        ("none", Value::List(vec![])),
        ("owner", person("Eve", true)),
    ]);
    let template = "{{title}}:{{#shown}} on{{/shown}}{{#hidden}} off{{/hidden}}{{^hidden}} not off{{/hidden}}\
{{#people}} {{first}}{{#admin}}*{{/admin}}{{/people}}{{^none}} end{{/none}} {{owner.first}} {{owner.last}}{{nothing}}{{title.x}}.";

    assert_eq!(render_template(template, &context).ok().unwrap(), "People: on not off Ada* Bob end Eve .");
}

fn assert_unsupported(template: &str, context: &Table<Value>) {
    assert!(!is_engine_safe(&chars(template), context), "{}", template);
    assert!(matches!(render_template(template, context), Err(TemplateError::Unsupported)), "{}", template);
}

#[test]
fn variable_that_leads_to_no_text_is_not_rendered() {
    let context = context_of(vec![
        ("title", text("People")),
        ("shown", Value::Bool(true)),
        ("people", Value::List(vec![person("Ada", true)])),
        ("owner", person("Eve", true)),
        ("deep", Value::Dict(vec![("title".to_string(), Value::List(vec![]))])),
        (
            "twice",
            Value::Dict(vec![("first".to_string(), text("x")), ("first".to_string(), Value::Bool(true))]),
        ),
    ]);

    assert_unsupported("{{shown}}", &context);
    assert_unsupported("{{{ shown }}}", &context);
    assert_unsupported("{{& shown}}", &context);
    assert_unsupported("{{people}}", &context);
    assert_unsupported("{{owner}}", &context);
    assert_unsupported("{{owner.admin}}", &context);
    assert_unsupported("{{#people}}{{admin}}{{/people}}", &context);
    assert_unsupported("{{#deep}}{{title}}{{/deep}}", &context);
    assert_unsupported("{{title}}", &context);
    assert_unsupported("{{first}}", &context);
    assert_unsupported("{{twice.first}}", &context);
    assert_unsupported("text {{! note }} {{admin.}} more", &context);
    assert!(is_engine_safe(&chars("{{#shown}}x{{/shown}}{{^people}}y{{/people}}{{! shown }}"), &context));
    assert!(is_engine_safe(&chars("{{owner.first}}{{owner.first.x}}{{shown.x}}{{other}}{{}}{{ }}"), &context));
    assert!(is_engine_safe(&chars("{{owner.first}} and {{unknown"), &context));
    assert_eq!(
        render_template("{{#shown}}x{{/shown}}{{owner.first}}{{shown.x}}{{other}}", &context).ok().unwrap(),
        "xEve"
    );
}
