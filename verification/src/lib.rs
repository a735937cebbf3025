//! URL decomposition and HTTP/1.1 request and response framing.
//!
//! The library turns a URL string into its scheme, host, port and path,
//! assembles the text of an HTTP/1.1 request, and splits a raw response into
//! its header block and body. It also reads the tokens of a command line as
//! the flags of such a request. Every function is a pure computation on
//! strings; opening a connection and printing are left to the caller.

pub mod address;
pub mod args;
pub mod encoding;
pub mod request;
pub mod response;
pub mod scan;

pub use address::{is_valid_url, parse_url};
pub use request::{construct_get_request, get_protocol};
pub use response::parse_response;
