pub mod delta_utils;
pub mod entry;
pub mod error;
pub mod object_type;
pub mod handler;
pub mod roundtrip;
