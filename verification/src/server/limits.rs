//! Limits that are pinned rather than left to the defaults of a dependency.
use vstd::prelude::*;

verus! {

/// The longest request target that is looked at, in bytes.
pub const MAX_URI_LEN: usize = 8192;

/// How many streams an HTTP/2 peer may have open at once.
pub const H2_MAX_CONCURRENT_STREAMS: u32 = 128;

/// The most decoded header bytes of an HTTP/2 stream.
pub const H2_MAX_HEADER_LIST_SIZE: u32 = 16_384;

/// How many streams that the peer reset may wait to be accepted.
pub const H2_MAX_PENDING_ACCEPT_RESET_STREAMS: usize = 20;

/// Seconds between keep-alive pings.
pub const H2_KEEPALIVE_INTERVAL_SECS: u64 = 30;

/// Seconds within which a ping must be answered.
pub const H2_KEEPALIVE_TIMEOUT_SECS: u64 = 10;

/// How many header fields an HTTP/1 request may have.
pub const H1_MAX_HEADERS: usize = 64;

/// The largest HTTP/1 read buffer, in bytes.
pub const H1_MAX_BUF_SIZE: usize = 16_384;

/// Seconds within which the headers of an HTTP/1 request must arrive.
pub const H1_HEADER_READ_TIMEOUT_SECS: u64 = 15;

/// Seconds within which a TLS handshake must complete.
pub const TLS_HANDSHAKE_TIMEOUT_SECS: u64 = 10;

/// Seconds that a connection may live.
pub const CONNECTION_TIMEOUT_SECS: u64 = 3_600;

/// Seconds that connections in flight get to finish at shutdown.
pub const DRAIN_TIMEOUT_SECS: u64 = 30;

/// The most decoded header memory that one HTTP/2 connection can hold.
pub fn h2_header_ceiling() -> (r: u64)
    ensures
        r == H2_MAX_CONCURRENT_STREAMS * H2_MAX_HEADER_LIST_SIZE,
{
    H2_MAX_CONCURRENT_STREAMS as u64 * H2_MAX_HEADER_LIST_SIZE as u64
}

/// However many streams a peer opens, up to what is allowed, and however many
/// header bytes each holds, up to what is allowed, one connection holds at most
/// 2 MiB of decoded headers.
pub proof fn law_h2_memory_is_bounded(streams: nat, header_bytes: nat)
    requires
        streams <= H2_MAX_CONCURRENT_STREAMS,
        header_bytes <= H2_MAX_HEADER_LIST_SIZE,
    ensures
        streams * header_bytes <= 2 * 1024 * 1024,
{
    assert(streams * header_bytes <= 128 * 16_384) by (nonlinear_arith)
        requires
            streams <= 128,
            header_bytes <= 16_384,
    ;
}

} // verus!
