//! The handlers of the API's methods: which operation a request asks for.
pub mod get;
pub mod patch;
pub mod post;
pub mod put;
pub mod route;
