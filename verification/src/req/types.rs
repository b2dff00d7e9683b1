//! The values that requests and responses are made of.

pub mod common;
pub mod request;
pub mod response;
