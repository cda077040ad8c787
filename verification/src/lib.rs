//! A minimal HTTP/1.x server library: a wire model for requests and
//! responses, a byte-buffer request parser, a response serializer, and an
//! exact-match router. The transport (TCP, optionally TLS) is supplied by
//! the hosting application; this crate holds the logic between the bytes
//! read from a connection and the bytes written back.

pub mod assoc;
pub mod http;
pub mod router;
pub mod text;

pub use http::Error;
pub use http::HeaderMap;
pub use http::Method;
pub use http::Protocol;
pub use http::Request;
pub use http::Response;
pub use http::StatusCode;
pub use router::Router;
pub use router::normalize;
pub use router::not_found;
