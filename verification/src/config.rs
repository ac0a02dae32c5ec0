//! What the user configures, and the form of it that a connection works
//! with.
use crate::channel::{ControlChan, PushChan};
use crate::paths::normalize;
use crate::table::{bind_all, entries, holds_last, table_from, table_of, Table};
use crate::text::{chars_of, find_last, rfind_char, string_of_range};
use vstd::prelude::*;
use vstd::string::*;

verus! {

/// A route of a connection: requests with `method` whose path matches
/// `template` and that accept `mime_type` go to the view named `route`.
pub struct Route {
    pub method: String,
    pub template: String,
    pub mime_type: String,
    pub route: String,
}

/// A route as a value of the mathematics.
pub struct RouteView {
    pub method: Seq<char>,
    pub template: Seq<char>,
    pub mime_type: Seq<char>,
    pub route: Seq<char>,
}

impl View for Route {
    type V = RouteView;

    open spec fn view(&self) -> RouteView {
        RouteView {
            method: self.method@,
            template: self.template@,
            mime_type: self.mime_type@,
            route: self.route@,
        }
    }
}

/// The views of a list of routes.
pub open spec fn routes_view(routes: Seq<Route>) -> Seq<RouteView> {
    routes.map_values(|r: Route| r@)
}

/// A handler that the library brings, or one of the user's.
pub enum Handler<H> {
    BuiltIn,
    Custom(H),
}

/// What the user sets up.
pub struct Config<H, L, V, O> {
    pub hosts: Vec<String>,
    pub port: u16,
    pub server_info: String,
    pub resources_root: String,
    /// Method, template and view key of each route.  The template may end
    /// in a type between angle brackets.
    pub routes: Vec<(String, String, String)>,
    /// View key and handler of each view.
    pub views: Vec<(String, H)>,
    /// Path and opener of each event stream.
    pub sse: Vec<(String, O)>,
    pub static_handler: Handler<H>,
    pub missing: Handler<H>,
    pub load_rsrc: L,
    pub valid_rsrc: V,
    /// Extensions, dot included, with their types; these come on top of
    /// the standard ones.
    pub static_types: Vec<(String, String)>,
    pub read_error: String,
    pub settings: Vec<(String, String)>,
}

/// What a connection works with.
pub struct ConnConfig<H, L, V, O> {
    pub hosts: Vec<String>,
    pub port: u16,
    pub server_info: String,
    pub resources_root: String,
    pub route_list: Vec<Route>,
    pub views_table: Table<H>,
    pub static_handler: Handler<H>,
    pub missing: Handler<H>,
    pub sse_openers: Table<O>,
    pub sse_tasks: Table<ControlChan>,
    pub sse_push: PushChan,
    pub load_rsrc: L,
    pub valid_rsrc: V,
    pub static_type_table: Table<String>,
    pub read_error: String,
    pub settings: Table<String>,
}

impl<H, L, V, O> ConnConfig<H, L, V, O> {
    /// Every route names a view that the connection has.
    pub open spec fn wf(&self) -> bool {
        forall|i: int| 0 <= i < self.route_list@.len() ==> self.views_table.has(#[trigger] self.route_list@[i].route@)
    }
}

/// The text shown where a template cannot be read.
pub open spec fn default_read_error() -> Seq<char> {
    "<html><head><title>Error</title></head><body><p>Could not read URL {{request-path}}.</p></body></html>"@
}

/// The types of the extensions that are known without configuration.
pub open spec fn default_static_types() -> Seq<(Seq<char>, Seq<char>)> {
    seq![
        (".css"@, "text/css"@),
        (".gif"@, "image/gif"@),
        (".htm"@, "text/html"@),
        (".html"@, "text/html"@),
        (".ico"@, "image/x-icon"@),
        (".jpeg"@, "image/jpeg"@),
        (".jpg"@, "image/jpeg"@),
        (".js"@, "application/javascript"@),
        (".json"@, "application/json"@),
        (".png"@, "image/png"@),
        (".svg"@, "image/svg+xml"@),
        (".txt"@, "text/plain"@),
        (".xml"@, "application/xml"@),
    ]
}

/// Appends the pair of `key` and `value`.
fn push_pair(list: &mut Vec<(String, String)>, key: &str, value: &str)
    ensures
        final(list).deep_view() == old(list).deep_view().push((key@, value@)),
{
    let ghost before = list.deep_view();
    list.push((key.to_owned(), value.to_owned()));
    assert(list.deep_view() =~= before.push((key@, value@)));
}

/// The types of the extensions that are known without configuration.
fn standard_static_types() -> (list: Vec<(String, String)>)
    ensures
        list.deep_view() == default_static_types(),
{
    let mut list: Vec<(String, String)> = Vec::new();
    assert(list.deep_view() =~= Seq::<(Seq<char>, Seq<char>)>::empty());
    push_pair(&mut list, ".css", "text/css");
    push_pair(&mut list, ".gif", "image/gif");
    push_pair(&mut list, ".htm", "text/html");
    push_pair(&mut list, ".html", "text/html");
    push_pair(&mut list, ".ico", "image/x-icon");
    push_pair(&mut list, ".jpeg", "image/jpeg");
    push_pair(&mut list, ".jpg", "image/jpeg");
    push_pair(&mut list, ".js", "application/javascript");
    push_pair(&mut list, ".json", "application/json");
    push_pair(&mut list, ".png", "image/png");
    push_pair(&mut list, ".svg", "image/svg+xml");
    push_pair(&mut list, ".txt", "text/plain");
    push_pair(&mut list, ".xml", "application/xml");
    assert(list.deep_view() =~= default_static_types());
    list
}

/// A configuration with nothing in it but the two functions that reach
/// the resources: one host, no routes, no views, no event streams, the
/// library's own handlers, the standard error text.
pub fn initialize_config<H, L, V, O>(load_rsrc: L, valid_rsrc: V) -> (config: Config<H, L, V, O>)
    ensures
        config.hosts.deep_view() == seq!["localhost"@],
        config.port == 80,
        config.server_info@ == "unknown"@,
        config.resources_root@ == "."@,
        config.routes@.len() == 0,
        config.views@.len() == 0,
        config.sse@.len() == 0,
        config.static_handler is BuiltIn,
        config.missing is BuiltIn,
        config.load_rsrc == load_rsrc,
        config.valid_rsrc == valid_rsrc,
        config.static_types@.len() == 0,
        config.read_error@ == default_read_error(),
        config.settings@.len() == 0,
{
    let mut hosts: Vec<String> = Vec::new();
    hosts.push("localhost".to_owned());
    assert(hosts.deep_view() =~= seq!["localhost"@]);
    Config {
        hosts,
        port: 80,
        server_info: "unknown".to_owned(),
        resources_root: ".".to_owned(),
        routes: Vec::new(),
        views: Vec::new(),
        sse: Vec::new(),
        static_handler: Handler::BuiltIn,
        missing: Handler::BuiltIn,
        load_rsrc,
        valid_rsrc,
        static_types: Vec::new(),
        read_error: "<html><head><title>Error</title></head><body><p>Could not read URL {{request-path}}.</p></body></html>".to_owned(),
        settings: Vec::new(),
    }
}

/// The template of a route ends in a type between angle brackets.
pub open spec fn has_type_tag(template: Seq<char>) -> bool {
    template.len() > 0 && template.last() == '>' && find_last(template, '<') >= 0
}

/// The template of a route without its type tag.
pub open spec fn route_template(template: Seq<char>) -> Seq<char> {
    if has_type_tag(template) {
        template.take(find_last(template, '<'))
    } else {
        template
    }
}

/// The type that a route declares: that of its tag, else `text/html`.
pub open spec fn route_mime(template: Seq<char>) -> Seq<char> {
    if has_type_tag(template) {
        template.subrange(find_last(template, '<') + 1, template.len() - 1)
    } else {
        "text/html"@
    }
}

/// The route that a configured triple stands for.
pub open spec fn route_of(entry: (Seq<char>, Seq<char>, Seq<char>)) -> RouteView {
    RouteView {
        method: entry.0,
        template: route_template(entry.1),
        mime_type: route_mime(entry.1),
        route: entry.2,
    }
}

/// The routes among the first `n` configured ones whose view exists, in
/// their order.
pub open spec fn kept_routes(
    routes: Seq<(Seq<char>, Seq<char>, Seq<char>)>,
    views: Set<Seq<char>>,
    n: int,
) -> Seq<RouteView>
    decreases n,
{
    if n <= 0 {
        Seq::empty()
    } else {
        let before = kept_routes(routes, views, n - 1);
        if views.contains(routes[n - 1].2) {
            before.push(route_of(routes[n - 1]))
        } else {
            before
        }
    }
}

/// Every kept route names one of the views.
pub proof fn lemma_kept_routes_have_views(
    routes: Seq<(Seq<char>, Seq<char>, Seq<char>)>,
    views: Set<Seq<char>>,
    n: int,
)
    requires
        n <= routes.len(),
    ensures
        forall|i: int|
            0 <= i < kept_routes(routes, views, n).len() ==> views.contains(
                (#[trigger] kept_routes(routes, views, n)[i]).route,
            ),
    decreases n,
{
    if n > 0 {
        lemma_kept_routes_have_views(routes, views, n - 1);
        let before = kept_routes(routes, views, n - 1);
        let now = kept_routes(routes, views, n);
        assert forall|i: int| 0 <= i < now.len() implies views.contains((#[trigger] now[i]).route) by {
            if i < before.len() {
                assert(now[i] == before[i]);
            }
        }
    }
}

/// Splits the type tag off a route's template.
pub fn parse_route_template(template: &str) -> (r: (String, String))
    ensures
        r.0@ == route_template(template@),
        r.1@ == route_mime(template@),
{
    let chars = chars_of(template);
    let n = chars.len();
    if n > 0 && chars[n - 1] == '>' {
        match rfind_char(&chars, '<') {
            Some(at) => {
                proof {
                    crate::text::lemma_find_last(chars@, '<');
                }
                let path = string_of_range(&chars, 0, at);
                let mime = string_of_range(&chars, at + 1, n - 1);
                assert(chars@.subrange(0, at as int) == chars@.take(at as int));
                return (path, mime);
            },
            None => {},
        }
    }
    (template.to_owned(), "text/html".to_owned())
}

/// The keys of a table, as a set.
pub open spec fn key_set<V>(t: &Table<V>) -> Set<Seq<char>> {
    Set::new(|key: Seq<char>| t.has(key))
}

/// The connection's form of `config`.  Views and event streams go into
/// tables, the last of two with one key winning.  A route whose view
/// does not exist is dropped; the others keep their order, each with its
/// type tag split off.  The standard types of extensions are overlaid
/// with the configured ones.  The root is normalised.  No event stream is
/// open yet, and `push` is the channel to the client.
pub fn config_to_conn<H, L, V, O>(config: Config<H, L, V, O>, push: PushChan) -> (conn: ConnConfig<
    H,
    L,
    V,
    O,
>)
    ensures
        conn.wf(),
        conn.hosts == config.hosts,
        conn.port == config.port,
        conn.server_info == config.server_info,
        conn.resources_root@ == normalize(config.resources_root@),
        normalize(conn.resources_root@) == conn.resources_root@,
        holds_last(&conn.views_table, config.views@),
        holds_last(&conn.sse_openers, config.sse@),
        routes_view(conn.route_list@) == kept_routes(
            config.routes.deep_view(),
            key_set(&conn.views_table),
            config.routes@.len() as int,
        ),
        conn.static_handler == config.static_handler,
        conn.missing == config.missing,
        conn.sse_tasks.keys().len() == 0,
        conn.sse_push == push,
        conn.load_rsrc == config.load_rsrc,
        conn.valid_rsrc == config.valid_rsrc,
        entries(&conn.static_type_table) == bind_all(
            bind_all(Seq::empty(), default_static_types()),
            config.static_types.deep_view(),
        ),
        conn.read_error == config.read_error,
        entries(&conn.settings) == bind_all(Seq::empty(), config.settings.deep_view()),
{
    let Config {
        hosts,
        port,
        server_info,
        resources_root,
        routes,
        views,
        sse,
        static_handler,
        missing,
        load_rsrc,
        valid_rsrc,
        static_types,
        read_error,
        settings,
    } = config;
    let views_table = table_from(views);
    let sse_openers = table_from(sse);
    let ghost wanted = routes.deep_view();
    let ghost have = key_set(&views_table);
    let mut route_list: Vec<Route> = Vec::new();
    let mut i: usize = 0;
    assert(routes_view(route_list@) =~= kept_routes(wanted, have, 0));
    while i < routes.len()
        invariant
            i <= routes.len(),
            wanted == routes.deep_view(),
            have == key_set(&views_table),
            routes_view(route_list@) == kept_routes(wanted, have, i as int),
        decreases routes.len() - i,
    {
        let entry = &routes[i];
        assert(wanted[i as int] == (entry.0@, entry.1@, entry.2@));
        if views_table.contains_key(entry.2.as_str()) {
            let (template, mime_type) = parse_route_template(entry.1.as_str());
            let route = Route { method: entry.0.clone(), template, mime_type, route: entry.2.clone() };
            let ghost before = routes_view(route_list@);
            route_list.push(route);
            assert(routes_view(route_list@) =~= before.push(route_of(wanted[i as int])));
        }
        i += 1;
    }
    proof {
        lemma_kept_routes_have_views(wanted, have, routes.len() as int);
        assert forall|k: int| 0 <= k < route_list@.len() implies views_table.has(
            #[trigger] route_list@[k].route@,
        ) by {
            assert(routes_view(route_list@)[k].route == route_list@[k].route@);
            assert(have.contains(kept_routes(wanted, have, routes.len() as int)[k].route));
        }
    }
    let mut static_type_table = table_of(&standard_static_types());
    let mut j: usize = 0;
    assert(static_types.deep_view().take(0) =~= Seq::<(Seq<char>, Seq<char>)>::empty());
    while j < static_types.len()
        invariant
            j <= static_types.len(),
            static_type_table.wf(),
            entries(&static_type_table) == bind_all(
                bind_all(Seq::empty(), default_static_types()),
                static_types.deep_view().take(j as int),
            ),
        decreases static_types.len() - j,
    {
        let value = static_types[j].1.clone();
        crate::table::set_text(&mut static_type_table, static_types[j].0.as_str(), value);
        proof {
            let all = static_types.deep_view();
            let next = all.take(j + 1);
            assert(next.drop_last() == all.take(j as int));
            assert(next.last() == all[j as int]);
            assert(all[j as int] == (static_types[j as int].0@, static_types[j as int].1@));
        }
        j += 1;
    }
    assert(static_types.deep_view().take(static_types.len() as int) == static_types.deep_view());
    proof {
        crate::paths::lemma_normalize_twice(resources_root@);
    }
    let root_chars = crate::paths::normalize_chars(&chars_of(resources_root.as_str()));
    let root = crate::text::string_of(&root_chars);
    let settings_table = table_of(&settings);
    let sse_tasks: Table<ControlChan> = Table::new();
    ConnConfig {
        hosts,
        port,
        server_info,
        resources_root: root,
        route_list,
        views_table,
        static_handler,
        missing,
        sse_openers,
        sse_tasks,
        sse_push: push,
        load_rsrc,
        valid_rsrc,
        static_type_table,
        read_error,
        settings: settings_table,
    }
}

} // verus!
