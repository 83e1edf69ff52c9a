//! Sizes, times and address ranges as nginx writes them.
use crate::ip;
use crate::text;
use crate::text::{chars_of, is_digit, parse_u64, slice_of, split_once, strip_suffix, trim};
use vstd::prelude::*;

verus! {

broadcast use crate::text::group_views;

pub const MIB: u64 = 1048576;

/// A number with a unit: the text of the number, and what it is multiplied by.
pub open spec fn size_parts(t: Seq<char>) -> Option<(Seq<char>, nat)> {
    let n = t.len() as int;
    if n == 0 {
        None
    } else {
        let c = t[n - 1];
        let num = t.subrange(0, n - 1);
        if c == 'k' || c == 'K' {
            Some((num, 1024))
        } else if c == 'm' || c == 'M' {
            Some((num, 1048576))
        } else if c == 'g' || c == 'G' {
            Some((num, 1073741824))
        } else if text::digit(c) {
            Some((t, 1))
        } else {
            None
        }
    }
}

/// nginx size in megabytes, rounded up; 0 means unlimited.
pub open spec fn size_mb_of(s: Seq<char>) -> Option<nat> {
    match size_parts(text::trim_of(s)) {
        None => None,
        Some((num, unit)) => match text::parse_dec(num, u64::MAX as nat) {
            None => None,
            Some(n) => if n * unit > u64::MAX {
                None
            } else {
                Some(((n * unit + MIB - 1) / MIB as int) as nat)
            },
        },
    }
}

pub fn parse_size_mb(raw: &str) -> (r: Option<u64>)
    ensures
        text::opt_nat(r) == size_mb_of(raw@),
{
    let t = trim(raw);
    let v = chars_of(t.as_str());
    if v.len() == 0 {
        return None;
    }
    let c: char = v[v.len() - 1];
    let (num, unit): (String, u64) = if c == 'k' || c == 'K' {
        (slice_of(&v, 0, v.len() - 1), 1024)
    } else if c == 'm' || c == 'M' {
        (slice_of(&v, 0, v.len() - 1), 1048576)
    } else if c == 'g' || c == 'G' {
        (slice_of(&v, 0, v.len() - 1), 1073741824)
    } else if is_digit(c) {
        (t, 1)
    } else {
        return None;
    };
    match parse_u64(num.as_str(), u64::MAX) {
        None => None,
        Some(n) => match n.checked_mul(unit) {
            None => None,
            Some(bytes) => {
                let q: u64 = bytes / MIB;
                if bytes % MIB == 0 {
                    Some(q)
                } else {
                    Some(q + 1)
                }
            },
        },
    }
}

/// A time with a unit: the text of the number, and its unit in milliseconds.
pub open spec fn time_parts(t: Seq<char>) -> Option<(Seq<char>, nat)> {
    let n = t.len() as int;
    match text::strip_suffix_of(t, "ms"@) {
        Some(num) => Some((num, 1)),
        None => if n == 0 {
            None
        } else {
            let c = t[n - 1];
            let num = t.subrange(0, n - 1);
            if c == 's' {
                Some((num, 1000))
            } else if c == 'm' {
                Some((num, 60000))
            } else if c == 'h' {
                Some((num, 3600000))
            } else if text::digit(c) {
                Some((t, 1000))
            } else {
                None
            }
        },
    }
}

/// nginx time in milliseconds. Single unit only (`75s`, `500ms`, `2m`); a bare
/// number means seconds.
pub open spec fn time_ms_of(s: Seq<char>) -> Option<nat> {
    match time_parts(text::trim_of(s)) {
        None => None,
        Some((num, unit)) => match text::parse_dec(num, u64::MAX as nat) {
            None => None,
            Some(n) => if n * unit > u64::MAX {
                None
            } else {
                Some(n * unit)
            },
        },
    }
}

pub fn parse_time_ms(raw: &str) -> (r: Option<u64>)
    ensures
        text::opt_nat(r) == time_ms_of(raw@),
{
    let t = trim(raw);
    let (num, unit): (String, u64) = match strip_suffix(t.as_str(), "ms") {
        Some(num) => (num, 1),
        None => {
            let v = chars_of(t.as_str());
            if v.len() == 0 {
                return None;
            }
            let c: char = v[v.len() - 1];
            if c == 's' {
                (slice_of(&v, 0, v.len() - 1), 1000)
            } else if c == 'm' {
                (slice_of(&v, 0, v.len() - 1), 60000)
            } else if c == 'h' {
                (slice_of(&v, 0, v.len() - 1), 3600000)
            } else if is_digit(c) {
                (t, 1000)
            } else {
                return None;
            }
        },
    };
    match parse_u64(num.as_str(), u64::MAX) {
        None => None,
        Some(n) => n.checked_mul(unit),
    }
}

/// An IP address, or one with a prefix length that fits its family.
pub open spec fn cidr(s: Seq<char>) -> bool {
    match text::split_once_of(s, '/') {
        None => ip::ipv4(s) || ip::ipv6(s),
        Some((addr, prefix)) => match text::parse_dec(prefix, 255) {
            None => false,
            Some(n) => if ip::ipv4(addr) {
                n <= 32
            } else {
                ip::ipv6(addr) && n <= 128
            },
        },
    }
}

pub fn valid_cidr(s: &str) -> (r: bool)
    ensures
        r == cidr(s@),
{
    match split_once(s, '/') {
        None => ip::is_ipv4(s) || ip::is_ipv6(s),
        Some((addr, prefix)) => match parse_u64(prefix.as_str(), 255) {
            None => false,
            Some(n) => if ip::is_ipv4(addr.as_str()) {
                n <= 32
            } else {
                ip::is_ipv6(addr.as_str()) && n <= 128
            },
        },
    }
}

} // verus!
