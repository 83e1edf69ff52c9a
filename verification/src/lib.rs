//! The verified core of the Zion reverse proxy: configuration import, the
//! rules of the request path and the bookkeeping around them.
pub mod clock;
pub mod exposition;
pub mod forwarding;
pub mod headers;
pub mod hex;
pub mod import;
pub mod init;
pub mod ip;
pub mod listener;
pub mod logging;
pub mod memfd;
pub mod metrics;
pub mod numa;
pub mod observability;
pub mod page;
pub mod proxy;
pub mod quic;
pub mod server;
pub mod text;
pub mod words;
