//! HTTP requests and responses.
pub mod headers;
pub mod method;
pub mod mime_type;
pub mod query_string;
pub mod request;
pub mod response;
pub mod status_code;
pub mod string_map;
