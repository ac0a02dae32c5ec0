use rwebserve::config::Route;
use rwebserve::dispatch::{path_to_type, select_handler, HandlerChoice, Selection};
use rwebserve::paths::{is_under_root, path_extension, url_to_path};
use rwebserve::table::{table_of, Table};
use rwebserve::uri_template::match_template;

fn types_table() -> Table<String> {
    table_of(&vec![
        (".html".to_string(), "text/html".to_string()),
        (".jpg".to_string(), "image/jpeg".to_string()),
    ])
}

fn route(method: &str, template: &str, mime: &str, key: &str) -> Route {
    Route {
        method: method.to_string(),
        template: template.to_string(),
        mime_type: mime.to_string(),
        route: key.to_string(),
    }
}

fn types(list: &[&str]) -> Vec<String> {
    list.iter().map(|t| t.to_string()).collect()
}

fn select(routes: &Vec<Route>, path: &str, accept: &[&str], version: &str, valid: bool, page_valid: bool) -> Selection {
    select_handler("/srv/html", routes, &types_table(), "GET", path, &types(accept), version, valid, page_valid)
}

fn entries_of(t: &Table<String>) -> Vec<(String, String)> {
    (0..t.len()).map(|i| (t.key_at(i).clone(), t.value_at(i).clone())).collect()
}

#[test]
fn static_resource_wins_over_a_matching_route() {
    let routes = vec![route("GET", "/foo/baz.jpg", "image/jpeg", "foo")];
    let sel = select(&routes, "/foo/baz.jpg", &["image/jpeg"], "1.1", true, false);

    assert!(matches!(sel.handler, HandlerChoice::Static));
    assert_eq!(sel.status_code, "200");
    assert_eq!(sel.status_mesg, "OK");
    assert_eq!(sel.mime_type, "image/jpeg; charset=UTF-8");
    assert_eq!(sel.matches.len(), 0);
}

#[test]
fn route_is_taken_where_the_resource_is_not_valid() {
    let routes = vec![route("GET", "/foo/baz.jpg", "image/jpeg", "foo")];
    let sel = select(&routes, "/foo/baz.jpg", &["image/jpeg"], "1.1", false, false);

    assert!(matches!(sel.handler, HandlerChoice::View(0)));
    assert_eq!(sel.mime_type, "image/jpeg; charset=UTF-8");
}

#[test]
fn any_type_takes_a_static_resource() {
    let sel = select(&vec![], "/a/b.jpg", &["*/*"], "1.0", true, false);
    assert!(matches!(sel.handler, HandlerChoice::Static));
    assert_eq!(sel.mime_type, "image/jpeg; charset=UTF-8");
}

#[test]
fn route_with_unlisted_type_is_passed_over() {
    let routes = vec![
        route("GET", "/hello/{name}", "text/csv", "csv"),
        route("POST", "/hello/{name}", "text/html", "post"),
        route("GET", "/hello/{name}", "text/html", "html"),
        route("GET", "/hello/{other}", "text/html", "late"),
    ];
    let sel = select(&routes, "/hello/world", &["text/html"], "1.1", false, false);

    assert!(matches!(sel.handler, HandlerChoice::View(2)));
    assert_eq!(sel.mime_type, "text/html; charset=UTF-8");
    assert_eq!(
        entries_of(&sel.matches),
        vec![("fullpath".to_string(), "/hello/world".to_string()), ("name".to_string(), "world".to_string())]
    );

    let none = select(&routes, "/hello/world", &["text/zzz"], "1.1", false, false);
    assert!(matches!(none.handler, HandlerChoice::Missing));
    assert_eq!(none.status_code, "404");
    assert_eq!(none.status_mesg, "Not Found");
    assert_eq!(none.mime_type, "text/html; charset=UTF-8");
}

#[test]
fn path_that_leaves_the_root_is_forbidden() {
    let routes = vec![route("GET", "/../etc/passwd", "text/html", "leak")];
    let sel = select(&routes, "/../etc/passwd", &["text/html", "*/*"], "1.1", true, true);

    assert_eq!(sel.status_code, "403");
    assert_eq!(sel.status_mesg, "Forbidden");
    assert!(matches!(sel.handler, HandlerChoice::Missing));
    assert_eq!(url_to_path("/srv/html", "/../etc/passwd"), "/srv/etc/passwd");
    assert!(!is_under_root("/srv/html", "/srv/etc/passwd"));
}

#[test]
fn path_that_stays_under_the_root_is_not_forbidden() {
    let sel = select(&vec![], "/a/../b/./c.html", &["text/html"], "1.1", true, false);
    assert_eq!(sel.status_code, "200");
    assert_eq!(url_to_path("/srv/html", "/a/../b/./c.html"), "/srv/html/b/c.html");
}

#[test]
fn unsupported_version_comes_before_everything() {
    let sel = select(&vec![], "/../x", &["*/*"], "2.0", true, true);
    assert_eq!(sel.status_code, "505");
    assert_eq!(sel.status_mesg, "HTTP Version Not Supported");
    assert_eq!(sel.mime_type, "text/html; charset=UTF-8");
    assert!(matches!(sel.handler, HandlerChoice::Missing));

    let old = select(&vec![], "/x", &["*/*"], "0.9", false, false);
    assert_eq!(old.status_code, "505");
    let odd = select(&vec![], "/x", &["*/*"], "1", false, false);
    assert_eq!(odd.status_code, "505");
    let fine = select(&vec![], "/x", &["*/*"], "1.7", false, false);
    assert_eq!(fine.status_code, "404");
}

#[test]
fn error_page_can_have_a_view_of_its_own() {
    let routes = vec![route("GET", "not-supported.html", "types/html", "sorry")];
    let sel = select(&routes, "/x", &["text/html"], "2.0", false, false);

    assert_eq!(sel.status_code, "505");
    assert!(matches!(sel.handler, HandlerChoice::View(0)));
    assert_eq!(sel.matches.len(), 0);
}

#[test]
fn type_of_a_path_goes_by_its_extension() {
    let table = types_table();
    assert_eq!(path_to_type(&table, "/a/b.jpg"), "image/jpeg");
    assert_eq!(path_to_type(&table, "/a/b.tar.html"), "text/html");
    assert_eq!(path_to_type(&table, "/a/b.png"), "text/html");
    assert_eq!(path_to_type(&table, "/a/b"), "text/html");
    assert_eq!(path_extension("/a/b.tar.gz"), Some(".gz".to_string()));
    assert_eq!(path_extension("/a.d/b"), Some(".d/b".to_string()));
    assert_eq!(path_extension("/a/b"), None);
    assert_eq!(path_extension("/a/b."), Some(".".to_string()));
}

#[test]
fn paths_are_normalised_without_the_file_system() {
    assert_eq!(url_to_path("server/html", "/foo/baz.jpg"), "server/html/foo/baz.jpg");
    assert_eq!(url_to_path("server/html", "test.html"), "server/html/test.html");
    assert_eq!(url_to_path("server/html", "/foo/../../baz.jpg"), "server/baz.jpg");
    assert_eq!(url_to_path("server/html", "/../../../x"), "../x");
    assert_eq!(url_to_path("/srv", "/../../../x"), "/x");
    assert_eq!(url_to_path("/srv//html/", "//a///b/"), "/srv/html/a/b");
    assert_eq!(url_to_path("/", "/"), "/");
    assert_eq!(url_to_path("", ""), "/");
    assert_eq!(url_to_path("a", "/.."), "");
}

#[test]
fn template_segments_match_one_by_one() {
    assert_eq!(
        entries_of(&match_template("/foo/bar", "/foo/bar")),
        vec![("fullpath".to_string(), "/foo/bar".to_string())]
    );
    assert_eq!(entries_of(&match_template("/foo/bar", "/foo/baz")), vec![]);
    assert_eq!(entries_of(&match_template("/foo/bar/x", "/foo/bar")), vec![]);
    assert_eq!(entries_of(&match_template("/foo", "/foo/{x}")), vec![]);
    assert_eq!(entries_of(&match_template("/foo/", "/foo/{x}")), vec![]);
    assert_eq!(
        entries_of(&match_template("/a/1/b/2", "/a/{x}/b/{y}")),
        vec![
            ("fullpath".to_string(), "/a/1/b/2".to_string()),
            ("x".to_string(), "1".to_string()),
            ("y".to_string(), "2".to_string())
        ]
    );
    assert_eq!(
        entries_of(&match_template("/a/1/2", "/a/{x}/{x}")),
        vec![("fullpath".to_string(), "/a/1/2".to_string()), ("x".to_string(), "2".to_string())]
    );
}
