//! A strict grammar-level parser for the textual framing of HTTP/1.x
//! request messages: the request line, header field lines, and the
//! media-type sub-grammar used inside values such as `Content-Type`.
//!
//! Everything that does not match the wire grammar is rejected; no
//! best-effort recovery is attempted, because ambiguous parses of this
//! framing are a security hazard (request smuggling, header injection).

pub mod field_map;
pub mod grammar;
pub mod header;
pub mod header_field;
pub mod media_type;
pub mod request_line;
pub mod uri;

pub use field_map::HeaderFieldMap;
pub use header::InvalidRequestHeader;
pub use header::LINE_CAP;
pub use header::RequestHeader;
pub use header::parse_request_header;
pub use header_field::HeaderName;
pub use header_field::HeaderValue;
pub use header_field::InvalidHeaderField;
pub use header_field::parse_header_field;
pub use media_type::InvalidMediaType;
pub use media_type::MediaType;
pub use media_type::parse_media_type;
pub use request_line::InvalidRequestLine;
pub use request_line::Method;
pub use request_line::Version;
pub use request_line::parse_request_line;
pub use uri::Uri;
