//! The core of a small web server for `GET` requests: a parser of
//! requests, the choice of the handler that answers a request, the
//! composition of the answer with its templates and its framing, and
//! streams of server-sent events.
//!
//! Sockets, files and threads are left to the user of the library, who
//! hands it the two functions that reach the resources and the handlers
//! of the views, and runs the tasks whose steps are decided here.
pub mod body;
pub mod channel;
pub mod clock;
pub mod config;
pub mod dispatch;
pub mod engine;
pub mod framing;
pub mod generator;
pub mod http_parser;
pub mod message;
pub mod paths;
pub mod request;
pub mod sse;
pub mod table;
pub mod tasks;
pub mod templates;
pub mod text;
pub mod uri_template;
pub mod value;

pub use body::{body_len, checked_body_len, Body};
pub use channel::{ControlChan, ControlEvent, PushChan};
pub use config::{config_to_conn, initialize_config, Config, ConnConfig, Handler, Route};
pub use dispatch::{find_handler, path_to_type, select_handler, HandlerChoice, Selection};
pub use framing::make_header_and_body;
pub use http_parser::{make_parser, parse_request, HttpRequest, ParseError, Parser};
pub use message::{Request, Response};
pub use paths::url_to_path;
pub use request::{
    get_body, initial_response, make_initial_response, malformed_request, missing_view, parse_url,
    process_request, process_template, static_view,
};
pub use sse::{close_sses, make_response, process_sse, OpenSse};
pub use table::Table;
pub use templates::{load_template, match_curly_braces, url_dirname, TemplateError};
pub use uri_template::match_template;
pub use value::Value;
