//! A minimal HTTP/1.1 server core: request parsing, routing, handlers and
//! response serialization, free of any socket or filesystem access.
//!
//! The driver of a connection reads and writes; this library decides. It
//! parses what was read (`request`), routes the request and runs its
//! handler (`routes`), and turns the response into the bytes to send
//! (`response`). `connection` keeps track of where a connection stands.

pub mod appconfig;
pub mod buffer;
pub mod connection;
pub mod gzip;
pub mod headers;
pub mod request;
pub mod response;
pub mod routes;
pub mod text;

pub use appconfig::AppConfig;
pub use headers::Headers;
pub use request::HttpMethod;
pub use request::Request;
pub use response::Response;
