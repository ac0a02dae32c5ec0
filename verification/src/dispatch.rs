//! Which handler answers a request, and with what status and type.
use crate::config::{ConnConfig, Route, RouteView, routes_view};
use crate::paths::{extension, is_under_root, path_extension, resource_path, under_root, url_to_path};
use crate::table::{entries, text_at, Table};
use crate::text::{chars_of, has_prefix, matches_at, str_eq};
use crate::uri_template::{lemma_match_nonempty, match_entries, match_template, template_matches};
use vstd::prelude::*;
use vstd::string::*;

verus! {

/// The handler that was chosen: the one for static resources, the view of
/// the route with the given index, or the one for what is missing.
#[derive(Clone, Copy, Debug)]
pub enum HandlerChoice {
    Static,
    View(usize),
    Missing,
}

/// The outcome of the choice.
pub struct Selection {
    pub status_code: String,
    pub status_mesg: String,
    /// The type of the response, with its character set.
    pub mime_type: String,
    pub handler: HandlerChoice,
    /// What the placeholders of the chosen route were bound to; empty
    /// unless a view was chosen.
    pub matches: Table<String>,
}

/// The outcome of the choice as a value of the mathematics.
pub struct SelectionView {
    pub status_code: Seq<char>,
    pub status_mesg: Seq<char>,
    pub mime_type: Seq<char>,
    pub handler: HandlerChoice,
    pub matches: Seq<(Seq<char>, Seq<char>)>,
}

impl View for Selection {
    type V = SelectionView;

    open spec fn view(&self) -> SelectionView {
        SelectionView {
            status_code: self.status_code@,
            status_mesg: self.status_mesg@,
            mime_type: self.mime_type@,
            handler: self.handler,
            matches: entries(&self.matches),
        }
    }
}

/// The type of the resource at `path`: that of its extension in the table
/// of types, `text/html` where the path has no extension or the table
/// does not know it.
pub open spec fn mime_of(types: &Table<String>, path: Seq<char>) -> Seq<char> {
    match extension(path) {
        Some(e) => match text_at(types, e) {
            Some(mime) => mime,
            None => "text/html"@,
        },
        None => "text/html"@,
    }
}

/// The request takes a response of type `mime`.
pub open spec fn accepts(types: Seq<Seq<char>>, mime: Seq<char>) -> bool {
    types.contains("*/*"@) || types.contains(mime)
}

/// A type with the character set that every response declares.
pub open spec fn with_charset(mime: Seq<char>) -> Seq<char> {
    mime + "; charset=UTF-8"@
}

/// The route is for this method, its template matches the path, and the
/// request lists its type.
pub open spec fn eligible(route: RouteView, method: Seq<char>, path: Seq<char>, types: Seq<Seq<char>>) -> bool {
    &&& route.method == method
    &&& template_matches(path, route.template)
    &&& types.contains(route.mime_type)
}

/// The index of the first eligible route at or after `from`, or the number
/// of routes where there is none.
pub open spec fn first_route(
    routes: Seq<RouteView>,
    method: Seq<char>,
    path: Seq<char>,
    types: Seq<Seq<char>>,
    from: int,
) -> int
    decreases routes.len() - from,
{
    if from < 0 || from >= routes.len() {
        routes.len() as int
    } else if eligible(routes[from], method, path, types) {
        from
    } else {
        first_route(routes, method, path, types, from + 1)
    }
}

/// The choice for a path under the root in a supported version.  A valid
/// resource whose type the request takes is served as it is.  Else the
/// first eligible route decides.  Else the resource is missing.
pub open spec fn plain_selection(
    routes: Seq<RouteView>,
    type_table: &Table<String>,
    method: Seq<char>,
    path: Seq<char>,
    types: Seq<Seq<char>>,
    valid: bool,
) -> SelectionView {
    let at = first_route(routes, method, path, types, 0);
    if valid && accepts(types, mime_of(type_table, path)) {
        SelectionView {
            status_code: "200"@,
            status_mesg: "OK"@,
            mime_type: with_charset(mime_of(type_table, path)),
            handler: HandlerChoice::Static,
            matches: Seq::empty(),
        }
    } else if at < routes.len() {
        SelectionView {
            status_code: "200"@,
            status_mesg: "OK"@,
            mime_type: with_charset(routes[at].mime_type),
            handler: HandlerChoice::View(at as usize),
            matches: match_entries(path, routes[at].template),
        }
    } else {
        SelectionView {
            status_code: "404"@,
            status_mesg: "Not Found"@,
            mime_type: "text/html; charset=UTF-8"@,
            handler: HandlerChoice::Missing,
            matches: Seq::empty(),
        }
    }
}

/// The types that the search for an error page goes by.
pub open spec fn page_types() -> Seq<Seq<char>> {
    seq!["types/html"@]
}

/// The handler that shows the error page `page`: what would be chosen
/// for a request of the page itself, and the handler for what is missing
/// where the page is not under the root.
pub open spec fn page_handler(
    root: Seq<char>,
    routes: Seq<RouteView>,
    type_table: &Table<String>,
    method: Seq<char>,
    page: Seq<char>,
    page_valid: bool,
) -> HandlerChoice {
    if under_root(root, resource_path(root, page)) {
        plain_selection(routes, type_table, method, page, page_types(), page_valid).handler
    } else {
        HandlerChoice::Missing
    }
}

/// The version is one that the server speaks: major version 1.
pub open spec fn supported(version: Seq<char>) -> bool {
    has_prefix(version, "1."@)
}

/// The choice for a request.  `valid` says whether the resource that the
/// path names exists; `page_valid` says the same of the error page.  Each
/// is read only where it matters.
pub open spec fn selection(
    root: Seq<char>,
    routes: Seq<RouteView>,
    type_table: &Table<String>,
    method: Seq<char>,
    path: Seq<char>,
    types: Seq<Seq<char>>,
    version: Seq<char>,
    valid: bool,
    page_valid: bool,
) -> SelectionView {
    if !supported(version) {
        SelectionView {
            status_code: "505"@,
            status_mesg: "HTTP Version Not Supported"@,
            mime_type: "text/html; charset=UTF-8"@,
            handler: page_handler(root, routes, type_table, method, "not-supported.html"@, page_valid),
            matches: Seq::empty(),
        }
    } else if !under_root(root, resource_path(root, path)) {
        SelectionView {
            status_code: "403"@,
            status_mesg: "Forbidden"@,
            mime_type: "text/html; charset=UTF-8"@,
            handler: page_handler(root, routes, type_table, method, "forbidden.html"@, page_valid),
            matches: Seq::empty(),
        }
    } else {
        plain_selection(routes, type_table, method, path, types, valid)
    }
}

/// The type of the resource at `path`.
pub fn path_to_type(type_table: &Table<String>, path: &str) -> (mime: String)
    ensures
        mime@ == mime_of(type_table, path@),
{
    match path_extension(path) {
        Some(e) => match type_table.get(e.as_str()) {
            Some(mime) => mime.clone(),
            None => "text/html".to_owned(),
        },
        None => "text/html".to_owned(),
    }
}

/// Whether `wanted` is one of `types`.
pub fn lists_type(types: &Vec<String>, wanted: &str) -> (r: bool)
    ensures
        r == types.deep_view().contains(wanted@),
{
    let mut i: usize = 0;
    while i < types.len()
        invariant
            i <= types.len(),
            forall|j: int| 0 <= j < i ==> types.deep_view()[j] != wanted@,
        decreases types.len() - i,
    {
        assert(types.deep_view()[i as int] == types[i as int]@);
        if str_eq(types[i].as_str(), wanted) {
            return true;
        }
        i += 1;
    }
    false
}

/// A table without bindings.
fn empty_matches() -> (t: Table<String>)
    ensures
        t.wf(),
        entries(&t) == Seq::<(Seq<char>, Seq<char>)>::empty(),
{
    let t: Table<String> = Table::new();
    assert(entries(&t) =~= Seq::<(Seq<char>, Seq<char>)>::empty());
    t
}

/// The first eligible route, with what its template binds.
fn find_route(routes: &Vec<Route>, method: &str, path: &str, types: &Vec<String>) -> (r: Option<
    (usize, Table<String>),
>)
    ensures
        match r {
            Some((at, found)) => at < routes.len() && at == first_route(
                routes_view(routes@),
                method@,
                path@,
                types.deep_view(),
                0,
            ) && found.wf() && entries(&found) == match_entries(path@, routes@[at as int].template@),
            None => first_route(routes_view(routes@), method@, path@, types.deep_view(), 0) == routes.len(),
        },
{
    let ghost all = routes_view(routes@);
    let mut i: usize = 0;
    while i < routes.len()
        invariant
            i <= routes.len(),
            all == routes_view(routes@),
            first_route(all, method@, path@, types.deep_view(), 0) == first_route(
                all,
                method@,
                path@,
                types.deep_view(),
                i as int,
            ),
        decreases routes.len() - i,
    {
        let entry = &routes[i];
        assert(all[i as int] == entry@);
        if str_eq(entry.method.as_str(), method) {
            let found = match_template(path, entry.template.as_str());
            proof {
                lemma_match_nonempty(path@, entry.template@);
            }
            if found.len() > 0 && lists_type(types, entry.mime_type.as_str()) {
                return Some((i, found));
            }
        }
        i += 1;
    }
    None
}

/// The choice for a path under the root in a supported version.
fn plain_choice(
    routes: &Vec<Route>,
    type_table: &Table<String>,
    method: &str,
    path: &str,
    types: &Vec<String>,
    valid: bool,
) -> (sel: Selection)
    ensures
        sel.matches.wf(),
        sel@ == plain_selection(routes_view(routes@), type_table, method@, path@, types.deep_view(), valid),
{
    if valid {
        let mime = path_to_type(type_table, path);
        if lists_type(types, "*/*") || lists_type(types, mime.as_str()) {
            let mut mime_type = mime;
            mime_type.append("; charset=UTF-8");
            return Selection {
                status_code: "200".to_owned(),
                status_mesg: "OK".to_owned(),
                mime_type,
                handler: HandlerChoice::Static,
                matches: empty_matches(),
            };
        }
    }
    match find_route(routes, method, path, types) {
        Some((at, found)) => {
            let mut mime_type = routes[at].mime_type.clone();
            mime_type.append("; charset=UTF-8");
            assert(routes_view(routes@)[at as int] == routes@[at as int]@);
            Selection {
                status_code: "200".to_owned(),
                status_mesg: "OK".to_owned(),
                mime_type,
                handler: HandlerChoice::View(at),
                matches: found,
            }
        },
        None => Selection {
            status_code: "404".to_owned(),
            status_mesg: "Not Found".to_owned(),
            mime_type: "text/html; charset=UTF-8".to_owned(),
            handler: HandlerChoice::Missing,
            matches: empty_matches(),
        },
    }
}

/// The handler that shows the error page `page`.
fn page_choice(
    root: &str,
    routes: &Vec<Route>,
    type_table: &Table<String>,
    method: &str,
    page: &str,
    page_valid: bool,
) -> (handler: HandlerChoice)
    ensures
        handler == page_handler(root@, routes_view(routes@), type_table, method@, page@, page_valid),
{
    let resolved = url_to_path(root, page);
    if is_under_root(root, resolved.as_str()) {
        let mut types: Vec<String> = Vec::new();
        types.push("types/html".to_owned());
        assert(types.deep_view() =~= page_types());
        plain_choice(routes, type_table, method, page, &types, page_valid).handler
    } else {
        HandlerChoice::Missing
    }
}

/// Whether `version` is one that the server speaks: a `1.` and a minor
/// version.
pub fn is_supported(version: &str) -> (r: bool)
    ensures
        r == supported(version@),
{
    matches_at(&chars_of(version), &chars_of("1."), 0)
}

/// The choice for a request, given whether the resources in question
/// exist.
pub fn select_handler(
    root: &str,
    routes: &Vec<Route>,
    type_table: &Table<String>,
    method: &str,
    path: &str,
    types: &Vec<String>,
    version: &str,
    valid: bool,
    page_valid: bool,
) -> (sel: Selection)
    ensures
        sel.matches.wf(),
        sel@ == selection(
            root@,
            routes_view(routes@),
            type_table,
            method@,
            path@,
            types.deep_view(),
            version@,
            valid,
            page_valid,
        ),
{
    if !is_supported(version) {
        Selection {
            status_code: "505".to_owned(),
            status_mesg: "HTTP Version Not Supported".to_owned(),
            mime_type: "text/html; charset=UTF-8".to_owned(),
            handler: page_choice(root, routes, type_table, method, "not-supported.html", page_valid),
            matches: empty_matches(),
        }
    } else {
        let resolved = url_to_path(root, path);
        if !is_under_root(root, resolved.as_str()) {
            Selection {
                status_code: "403".to_owned(),
                status_mesg: "Forbidden".to_owned(),
                mime_type: "text/html; charset=UTF-8".to_owned(),
                handler: page_choice(root, routes, type_table, method, "forbidden.html", page_valid),
                matches: empty_matches(),
            }
        } else {
            plain_choice(routes, type_table, method, path, types, valid)
        }
    }
}

/// `answer` is what `valid_rsrc` said of `path`.
pub open spec fn said_of<V: Fn(&str) -> bool>(valid_rsrc: V, path: Seq<char>, answer: bool) -> bool {
    exists|asked: &str| asked@ == path && #[trigger] call_ensures(valid_rsrc, (asked,), answer)
}

/// What `valid_rsrc` was asked for a request: of an error page under the
/// root where the version is not supported or the path leaves the root,
/// else of the path itself.  What was not asked counts as not valid.
pub open spec fn validity_known<V: Fn(&str) -> bool>(
    valid_rsrc: V,
    root: Seq<char>,
    path: Seq<char>,
    version: Seq<char>,
    valid: bool,
    page_valid: bool,
) -> bool {
    let page = if !supported(version) {
        "not-supported.html"@
    } else {
        "forbidden.html"@
    };
    if supported(version) && under_root(root, resource_path(root, path)) {
        !page_valid && said_of(valid_rsrc, resource_path(root, path), valid)
    } else if under_root(root, resource_path(root, page)) {
        !valid && said_of(valid_rsrc, resource_path(root, page), page_valid)
    } else {
        !valid && !page_valid
    }
}

/// Asks whether the resource behind the error page `page` exists; a page
/// that is not under the root is not asked for.
fn probe_page<H, L, V: Fn(&str) -> bool, O>(config: &ConnConfig<H, L, V, O>, page: &str) -> (valid: bool)
    requires
        forall|p: &str| call_requires(config.valid_rsrc, (p,)),
    ensures
        if under_root(config.resources_root@, resource_path(config.resources_root@, page@)) {
            said_of(config.valid_rsrc, resource_path(config.resources_root@, page@), valid)
        } else {
            !valid
        },
{
    let resolved = url_to_path(config.resources_root.as_str(), page);
    if is_under_root(config.resources_root.as_str(), resolved.as_str()) {
        (config.valid_rsrc)(resolved.as_str())
    } else {
        false
    }
}

/// The choice for a request.  Whether a resource exists is asked of
/// `valid_rsrc`, once: for the error page where the version is not
/// supported or the path leaves the root, else for the path itself.  The
/// outcome is `selection` for what was answered.
pub fn find_handler<H, L, V: Fn(&str) -> bool, O>(
    config: &ConnConfig<H, L, V, O>,
    method: &str,
    request_path: &str,
    types: &Vec<String>,
    version: &str,
) -> (sel: Selection)
    requires
        forall|p: &str| call_requires(config.valid_rsrc, (p,)),
    ensures
        sel.matches.wf(),
        exists|valid: bool, page_valid: bool|
            #[trigger] validity_known(
                config.valid_rsrc,
                config.resources_root@,
                request_path@,
                version@,
                valid,
                page_valid,
            ) && sel@ == selection(
                config.resources_root@,
                routes_view(config.route_list@),
                &config.static_type_table,
                method@,
                request_path@,
                types.deep_view(),
                version@,
                valid,
                page_valid,
            ),
        sel.handler matches HandlerChoice::View(at) ==> at < config.route_list@.len(),
{
    let root = config.resources_root.as_str();
    let mut valid = false;
    let mut page_valid = false;
    if !is_supported(version) {
        page_valid = probe_page(config, "not-supported.html");
    } else {
        let resolved = url_to_path(root, request_path);
        if is_under_root(root, resolved.as_str()) {
            valid = (config.valid_rsrc)(resolved.as_str());
        } else {
            page_valid = probe_page(config, "forbidden.html");
        }
    }
    let sel = select_handler(
        root,
        &config.route_list,
        &config.static_type_table,
        method,
        request_path,
        types,
        version,
        valid,
        page_valid,
    );
    proof {
        lemma_first_route(routes_view(config.route_list@), method@, request_path@, types.deep_view(), 0);
        lemma_first_route(routes_view(config.route_list@), method@, "not-supported.html"@, page_types(), 0);
        lemma_first_route(routes_view(config.route_list@), method@, "forbidden.html"@, page_types(), 0);
        assert(validity_known(
            config.valid_rsrc,
            config.resources_root@,
            request_path@,
            version@,
            valid,
            page_valid,
        ));
    }
    sel
}

/// `first_route` is the least index of an eligible route from `from` on.
pub proof fn lemma_first_route(
    routes: Seq<RouteView>,
    method: Seq<char>,
    path: Seq<char>,
    types: Seq<Seq<char>>,
    from: int,
)
    requires
        0 <= from,
    ensures
        from <= first_route(routes, method, path, types, from) || first_route(
            routes,
            method,
            path,
            types,
            from,
        ) == routes.len(),
        first_route(routes, method, path, types, from) <= routes.len(),
        first_route(routes, method, path, types, from) < routes.len() ==> eligible(
            routes[first_route(routes, method, path, types, from)],
            method,
            path,
            types,
        ),
        forall|i: int|
            from <= i < first_route(routes, method, path, types, from) ==> !eligible(
                #[trigger] routes[i],
                method,
                path,
                types,
            ),
    decreases routes.len() - from,
{
    if from < routes.len() && !eligible(routes[from], method, path, types) {
        lemma_first_route(routes, method, path, types, from + 1);
    }
}

/// In a supported version, a request is forbidden exactly where the path
/// that its url resolves to is not under the root.
pub proof fn lemma_outside_root_is_forbidden(
    root: Seq<char>,
    routes: Seq<RouteView>,
    type_table: &Table<String>,
    method: Seq<char>,
    path: Seq<char>,
    types: Seq<Seq<char>>,
    version: Seq<char>,
    valid: bool,
    page_valid: bool,
)
    requires
        supported(version),
    ensures
        under_root(root, resource_path(root, path)) || selection(
            root,
            routes,
            type_table,
            method,
            path,
            types,
            version,
            valid,
            page_valid,
        ).status_code == "403"@,
        under_root(root, resource_path(root, path)) ==> selection(
            root,
            routes,
            type_table,
            method,
            path,
            types,
            version,
            valid,
            page_valid,
        ).status_code != "403"@,
{
    reveal_strlit("403");
    reveal_strlit("200");
    reveal_strlit("404");
    assert("403"@[0] != "200"@[0]);
    assert("403"@[2] != "404"@[2]);
}

/// A valid resource under the root whose type the request takes is served
/// by the handler for static resources, whatever the routes are.
pub proof fn lemma_static_before_routes(
    root: Seq<char>,
    routes: Seq<RouteView>,
    type_table: &Table<String>,
    method: Seq<char>,
    path: Seq<char>,
    types: Seq<Seq<char>>,
    version: Seq<char>,
    page_valid: bool,
)
    requires
        supported(version),
        under_root(root, resource_path(root, path)),
        accepts(types, mime_of(type_table, path)),
    ensures
        selection(root, routes, type_table, method, path, types, version, true, page_valid).handler
            == HandlerChoice::Static,
        selection(root, routes, type_table, method, path, types, version, true, page_valid).status_code
            == "200"@,
{
}

/// Where a view answers a request for a path under the root, the type of
/// its route is one that the request lists, the route is for the method
/// of the request, and no earlier route would do.
pub proof fn lemma_view_type_is_listed(
    root: Seq<char>,
    routes: Seq<RouteView>,
    type_table: &Table<String>,
    method: Seq<char>,
    path: Seq<char>,
    types: Seq<Seq<char>>,
    version: Seq<char>,
    valid: bool,
    page_valid: bool,
    at: usize,
)
    requires
        routes.len() <= usize::MAX,
        supported(version),
        under_root(root, resource_path(root, path)),
        selection(root, routes, type_table, method, path, types, version, valid, page_valid).handler
            == HandlerChoice::View(at),
    ensures
        at < routes.len(),
        types.contains(routes[at as int].mime_type),
        routes[at as int].method == method,
        template_matches(path, routes[at as int].template),
        forall|i: int| 0 <= i < at ==> !eligible(#[trigger] routes[i], method, path, types),
{
    lemma_first_route(routes, method, path, types, 0);
}

/// Under a root that is normalised both error pages are under the root,
/// so that the handler of an error is what would be chosen for a request
/// of its page.
pub proof fn lemma_error_pages_are_under_root(
    root: Seq<char>,
    routes: Seq<RouteView>,
    type_table: &Table<String>,
    method: Seq<char>,
    page_valid: bool,
)
    requires
        crate::paths::normalize(root) == root,
    ensures
        page_handler(root, routes, type_table, method, "not-supported.html"@, page_valid) == plain_selection(
            routes,
            type_table,
            method,
            "not-supported.html"@,
            page_types(),
            page_valid,
        ).handler,
        page_handler(root, routes, type_table, method, "forbidden.html"@, page_valid) == plain_selection(
            routes,
            type_table,
            method,
            "forbidden.html"@,
            page_types(),
            page_valid,
        ).handler,
{
    reveal_strlit("not-supported.html");
    reveal_strlit("forbidden.html");
    let first = "not-supported.html"@;
    let second = "forbidden.html"@;
    assert(!first.contains('/')) by {
        assert forall|i: int| 0 <= i < first.len() implies first[i] != '/' by {}
    }
    assert(!second.contains('/')) by {
        assert forall|i: int| 0 <= i < second.len() implies second[i] != '/' by {}
    }
    assert(first.len() == 18 && second.len() == 14);
    crate::paths::lemma_plain_name_stays_under_root(root, first);
    crate::paths::lemma_plain_name_stays_under_root(root, second);
}

} // verus!
