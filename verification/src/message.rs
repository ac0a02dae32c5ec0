//! What the dispatcher is given and what a handler hands back.
use crate::body::{Body, BodyView};
use crate::table::{entries, Table};
use crate::value::{context_entries, Value, ValueView};
use vstd::prelude::*;

verus! {

/// A request as the handlers see it.
pub struct Request {
    /// Major and minor version joined by a dot.
    pub version: String,
    pub method: String,
    pub local_addr: String,
    pub remote_addr: String,
    /// The url without its query.
    pub path: String,
    /// What the placeholders of the matched route were bound to.
    pub matches: Table<String>,
    /// The pairs of the query, in their order.
    pub params: Vec<(String, String)>,
    /// Header names are in lower case.
    pub headers: Table<String>,
    pub body: String,
}

/// What a handler produces.
pub struct Response {
    /// Code and message, separated by a blank.
    pub status: String,
    pub headers: Table<String>,
    pub body: Body,
    /// Empty where `body` is final; else the resource to load and render
    /// in place of it.
    pub template: String,
    /// The names that the template may refer to, with their values.
    pub context: Table<Value>,
}

/// A response as a value of the mathematics.
pub struct ResponseView {
    pub status: Seq<char>,
    pub headers: Seq<(Seq<char>, Seq<char>)>,
    pub body: BodyView,
    pub template: Seq<char>,
    pub context: Seq<(Seq<char>, ValueView)>,
}

impl View for Response {
    type V = ResponseView;

    open spec fn view(&self) -> ResponseView {
        ResponseView {
            status: self.status@,
            headers: entries(&self.headers),
            body: self.body@,
            template: self.template@,
            context: context_entries(&self.context),
        }
    }
}

/// A request as a value of the mathematics.
pub struct RequestView {
    pub version: Seq<char>,
    pub method: Seq<char>,
    pub local_addr: Seq<char>,
    pub remote_addr: Seq<char>,
    pub path: Seq<char>,
    pub matches: Seq<(Seq<char>, Seq<char>)>,
    pub params: Seq<(Seq<char>, Seq<char>)>,
    pub headers: Seq<(Seq<char>, Seq<char>)>,
    pub body: Seq<char>,
}

impl View for Request {
    type V = RequestView;

    open spec fn view(&self) -> RequestView {
        RequestView {
            version: self.version@,
            method: self.method@,
            local_addr: self.local_addr@,
            remote_addr: self.remote_addr@,
            path: self.path@,
            matches: entries(&self.matches),
            params: self.params.deep_view(),
            headers: entries(&self.headers),
            body: self.body@,
        }
    }
}

} // verus!
