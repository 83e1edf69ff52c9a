//! The wall clock.
use vstd::prelude::*;

verus! {

/// `std::time::SystemTime::now`: the microseconds since the Unix epoch, or
/// `None` where the clock stands before it. Nothing is claimed of the reading.
#[verifier::external_body]
pub(crate) fn unix_micros() -> (r: Option<u128>) {
    let now = std::time::SystemTime::now();
    now.duration_since(std::time::UNIX_EPOCH).ok().map(|d| d.as_micros())
}

/// A reading in units of `unit` microseconds, kept to 64 bits; 0 before the epoch.
pub open spec fn in_units(reading: Option<u128>, unit: u128) -> int {
    match reading {
        Some(us) => (us as int / unit as int) % 0x1_0000_0000_0000_0000,
        None => 0,
    }
}

pub fn to_units(reading: Option<u128>, unit: u128) -> (r: u64)
    requires
        unit > 0,
    ensures
        r == in_units(reading, unit),
{
    match reading {
        Some(us) => (us / unit % 0x1_0000_0000_0000_0000u128) as u64,
        None => 0,
    }
}

/// The seconds since the Unix epoch.
pub fn unix_secs() -> (r: u64)
    ensures
        exists|reading: Option<u128>| r == #[trigger] in_units(reading, 1_000_000),
{
    let reading = unix_micros();
    to_units(reading, 1_000_000)
}

/// The milliseconds since the Unix epoch.
pub fn unix_millis() -> (r: u64)
    ensures
        exists|reading: Option<u128>| r == #[trigger] in_units(reading, 1_000),
{
    let reading = unix_micros();
    to_units(reading, 1_000)
}

} // verus!
