//! The engine of an HTTP stub server that is configured by a list of routes.
//!
//! A request is served in steps, each a function of this library:
//!
//! 1. [`request::parse_request_line`] reads the method, the path and the query
//!    from the first line of what the client sent.
//! 2. [`entity::Server::plan`] selects the first route that the request
//!    addresses ([`route::find_route`]) and holds the parameters of the
//!    request ([`query::parse_query_string`]) against the names that the route
//!    declares ([`route::query_matches`]).
//! 3. [`entity::Response::pending_file`] names the file whose contents the
//!    route serves, as long as it has not been read. Reading it is left to
//!    the caller.
//! 4. [`server::reply_matched`] or [`server::reply_unmatched`] writes the
//!    reply, and keeps the contents of a file that was read in the route.
//!
//! [`entity::Server::respond`] does the steps 2 and 4 on a whole server. The
//! library reads no file, opens no connection and does not wait: it says
//! which file to read and how long to wait.
//!
//! Every function carries a contract over the views of its arguments, and
//! what holds of several calls is proved next to the functions it is about.

pub mod entity;
pub mod query;
pub mod request;
pub mod route;
pub mod server;
pub mod text;
pub mod wire;
