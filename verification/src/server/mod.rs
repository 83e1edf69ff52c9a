//! The server: what it decides while it boots, accepts and answers.
pub mod boot;
pub mod identity;
pub mod limits;
pub mod plain_http;
pub mod probe;
pub mod reply;
pub mod request_id;
pub mod tuning;
