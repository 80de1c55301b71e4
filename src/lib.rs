//! A raw HTTP/1.1 request builder and a flat, quote-driven key/value scanner.
//!
//! The library builds the exact request texts that a client writes to a
//! socket and turns the text that comes back into a string-to-string mapping.
//! Opening the socket, writing and reading belong to the caller.
pub mod mapping;
pub mod scan;
pub mod request;
pub mod text;

pub use mapping::Mapping;
pub use request::{get_request_text, post_request_text};
pub use scan::{parse_json, ParseError};
