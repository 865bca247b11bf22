//! The REST API that serves pull requests: requests, responses and routing.
pub mod handlers;
pub mod server;
pub mod utils;
