//! What the numbers of an nginx configuration come to: sizes, times, rates,
//! limits and ports.
use super::directives;
use super::directives::AggV;
use super::listen;
use super::listen::PortsV;
use super::server;
use super::units;
use super::DocV;
use crate::import::model;
use crate::import::model::{Extracted, ListenV, ModelV};
use crate::import::nginx::Dir;
use crate::import::Note;
use crate::ip;
use crate::text;
use crate::words;
use vstd::prelude::*;

verus! {

// ── Units ───────────────────────────────────────────────────────────────
proof fn lemma_number(n: nat, unit: Seq<char>)
    requires
        unit.len() > 0 ==> !text::white(unit.last()),
    ensures
        text::dec(n).len() > 0,
        text::digit(text::dec(n)[0]),
        text::digit(text::dec(n).last()),
        text::trim_of(text::dec(n) + unit) == text::dec(n) + unit,
{
    text::lemma_dec(n);
    let s = text::dec(n) + unit;
    assert(s[0] == text::dec(n)[0]);
    assert(text::digit(text::dec(n)[0]));
    assert(text::digit(text::dec(n)[text::dec(n).len() - 1]));
    words::lemma_untrimmed(s);
}

/// The least number of whole megabytes that holds the bytes.
pub open spec fn least_megabytes(bytes: nat, mb: nat) -> bool {
    bytes <= mb * 1048576 && (mb > 0 ==> (mb - 1) * 1048576 < bytes)
}

/// A size is a number of bytes, or with `k`, `m` or `g` behind it, in either
/// case, one of kilobytes, megabytes or gigabytes; it comes to the least number
/// of megabytes that holds it.
pub proof fn law_sizes_are_in_megabytes(n: nat)
    requires
        n * 1073741824 <= u64::MAX,
    ensures
        units::size_mb_of(text::dec(n)) matches Some(mb) && least_megabytes(n, mb),
        units::size_mb_of(text::dec(n) + "k"@) matches Some(mb) && least_megabytes(1024 * n, mb),
        units::size_mb_of(text::dec(n) + "K"@) matches Some(mb) && least_megabytes(1024 * n, mb),
        units::size_mb_of(text::dec(n) + "m"@) == Some(n),
        units::size_mb_of(text::dec(n) + "M"@) == Some(n),
        units::size_mb_of(text::dec(n) + "g"@) == Some(1024 * n),
        units::size_mb_of(text::dec(n) + "G"@) == Some(1024 * n),
{
    lemma_bytes(n);
    lemma_unit(n, "k"@, 1024);
    lemma_unit(n, "K"@, 1024);
    lemma_unit(n, "m"@, 1048576);
    lemma_unit(n, "M"@, 1048576);
    lemma_unit(n, "g"@, 1073741824);
    lemma_unit(n, "G"@, 1073741824);
    assert((n * 1048576 + 1048575) / 1048576 == n);
    assert((n * 1073741824 + 1048575) / 1048576 == 1024 * n);
}

proof fn lemma_bytes(n: nat)
    requires
        n + 1048575 <= u64::MAX,
    ensures
        units::size_mb_of(text::dec(n)) matches Some(mb) && least_megabytes(n, mb),
{
    let d = text::dec(n);
    lemma_number(n, Seq::<char>::empty());
    assert(d + Seq::<char>::empty() =~= d);
    text::law_dec_round_trip(n, u64::MAX as nat);
    assert(text::digit(d[d.len() - 1]));
    assert(units::size_parts(d) == Some((d, 1nat)));
    assert(n * 1 == n);
}

proof fn lemma_unit(n: nat, unit: Seq<char>, size: nat)
    requires
        n * size <= u64::MAX,
        (unit == "k"@ || unit == "K"@) && size == 1024 || (unit == "m"@ || unit == "M"@) && size
            == 1048576 || (unit == "g"@ || unit == "G"@) && size == 1073741824,
    ensures
        units::size_mb_of(text::dec(n) + unit) == Some(((n * size + 1048575) / 1048576) as nat),
        size == 1024 ==> least_megabytes(1024 * n, ((n * size + 1048575) / 1048576) as nat),
{
    let d = text::dec(n);
    assert(unit.len() == 1 && ((unit[0] == 'k' || unit[0] == 'K') && size == 1024 || (unit[0] == 'm'
        || unit[0] == 'M') && size == 1048576 || (unit[0] == 'g' || unit[0] == 'G') && size
        == 1073741824)) by {
        reveal_strlit("k");
        reveal_strlit("K");
        reveal_strlit("m");
        reveal_strlit("M");
        reveal_strlit("g");
        reveal_strlit("G");
    }
    assert(n <= u64::MAX) by (nonlinear_arith)
        requires
            n * size <= u64::MAX,
            size >= 1,
    ;
    lemma_size(n, unit);
    lemma_number(n, unit);
    text::law_dec_round_trip(n, u64::MAX as nat);
    assert(units::size_parts(d + unit) == Some((d, size)));
}

proof fn lemma_size(n: nat, unit: Seq<char>)
    requires
        unit.len() == 1,
        !text::white(unit[0]),
        n <= u64::MAX,
    ensures
        ({
            let t = text::trim_of(text::dec(n) + unit);
            &&& t.len() > 0
            &&& t[t.len() - 1] == unit[0]
            &&& t.subrange(0, t.len() - 1) == text::dec(n)
        }),
{
    lemma_number(n, unit);
    let t = text::dec(n) + unit;
    assert(t.subrange(0, t.len() - 1) =~= text::dec(n));
}

/// A time is a number of seconds, or with `ms`, `s`, `m` or `h` behind it one of
/// milliseconds, seconds, minutes or hours.
pub proof fn law_times_are_in_milliseconds(n: nat)
    requires
        n * 3600000 <= u64::MAX,
    ensures
        units::time_ms_of(text::dec(n)) == Some(1000 * n),
        units::time_ms_of(text::dec(n) + "ms"@) == Some(n),
        units::time_ms_of(text::dec(n) + "s"@) == Some(1000 * n),
        units::time_ms_of(text::dec(n) + "m"@) == Some(60 * (1000 * n)),
        units::time_ms_of(text::dec(n) + "h"@) == Some(60 * (60 * (1000 * n))),
{
    lemma_millis(n);
    lemma_seconds(n);
    lemma_time(n, "s"@, 1000);
    lemma_time(n, "m"@, 60000);
    lemma_time(n, "h"@, 3600000);
}

proof fn lemma_millis(n: nat)
    requires
        n <= u64::MAX,
    ensures
        units::time_ms_of(text::dec(n) + "ms"@) == Some(n),
{
    let d = text::dec(n);
    assert(!text::white("ms"@.last())) by {
        reveal_strlit("ms");
    }
    lemma_number(n, "ms"@);
    words::law_parts_of_a_text(d, "ms"@, d);
    text::law_dec_round_trip(n, u64::MAX as nat);
    assert(n * 1 == n);
}

proof fn lemma_seconds(n: nat)
    requires
        n * 1000 <= u64::MAX,
    ensures
        units::time_ms_of(text::dec(n)) == Some(1000 * n),
{
    let d = text::dec(n);
    lemma_number(n, Seq::<char>::empty());
    assert(d + Seq::<char>::empty() =~= d);
    assert(text::digit(d[d.len() - 1]));
    lemma_not_millis(d);
    text::law_dec_round_trip(n, u64::MAX as nat);
    assert(units::time_parts(d) == Some((d, 1000nat)));
}

proof fn lemma_time(n: nat, unit: Seq<char>, ms: nat)
    requires
        n * ms <= u64::MAX,
        unit == "s"@ && ms == 1000 || unit == "m"@ && ms == 60000 || unit == "h"@ && ms == 3600000,
    ensures
        units::time_ms_of(text::dec(n) + unit) == Some(n * ms),
{
    let d = text::dec(n);
    assert(unit.len() == 1 && (unit[0] == 's' && ms == 1000 || unit[0] == 'm' && ms == 60000
        || unit[0] == 'h' && ms == 3600000)) by {
        reveal_strlit("s");
        reveal_strlit("m");
        reveal_strlit("h");
    }
    lemma_size(n, unit);
    lemma_number(n, unit);
    let t = d + unit;
    assert(text::digit(d[d.len() - 1]));
    assert(t[t.len() - 2] == d[d.len() - 1]);
    lemma_not_millis(t);
    text::law_dec_round_trip(n, u64::MAX as nat);
    assert(units::time_parts(t) == Some((d, ms)));
}

proof fn lemma_not_millis(t: Seq<char>)
    requires
        t.len() > 0,
        t.last() != 's' || t.len() == 1 || t[t.len() - 2] != 'm',
    ensures
        text::strip_suffix_of(t, "ms"@) is None,
{
    reveal_strlit("ms");
    words::law_stripped_parts_join(t, "ms"@);
}

/// A rate is a number of requests in a second, or in a minute.
pub proof fn law_rates_are_per_second_or_minute(n: u32)
    ensures
        model::rate_of(text::dec(n as nat) + "r/s"@) == Some((n, 1u64)),
        model::rate_of(text::dec(n as nat) + "r/m"@) == Some((n, 60u64)),
{
    let d = text::dec(n as nat);
    words::law_parts_of_a_text(d, "r/s"@, d);
    words::law_parts_of_a_text(d, "r/m"@, d);
    text::law_dec_round_trip(n as nat, u32::MAX as nat);
    reveal_strlit("r/s");
    reveal_strlit("r/m");
    let t = d + "r/m"@;
    words::law_stripped_parts_join(t, "r/s"@);
    assert(t.last() == 'm');
}

// ── Limits ──────────────────────────────────────────────────────────────
/// `limit_req_zone $binary_remote_addr zone=NAME:SIZE rate=Nr/s` defines a zone of
/// that name, by the client's address, with that rate.
pub proof fn law_zone_has_its_rate(
    e: Extracted,
    d: Dir,
    name: Seq<char>,
    size: Seq<char>,
    n: u32,
)
    requires
        d.args == seq![
            "$binary_remote_addr"@,
            "zone="@ + name + ":"@ + size,
            "rate="@ + text::dec(n as nat) + "r/s"@,
        ],
        !name.contains(':'),
    ensures
        ({
            let zones = model::req_zone_of(e, d).model.req_zones;
            &&& zones.len() == e.model.req_zones.len() + 1
            &&& zones.drop_last() == e.model.req_zones
            &&& zones.last().name == name
            &&& zones.last().key == "$binary_remote_addr"@
            &&& zones.last().rps == n
            &&& zones.last().window_secs == 1
        }),
{
    let a = d.args;
    reveal_strlit("$binary_remote_addr");
    reveal_strlit("zone=");
    reveal_strlit("rate=");
    reveal_strlit(":");
    let v = name + ":"@ + size;
    let rate = text::dec(n as nat) + "r/s"@;
    assert(a[1] =~= "zone="@ + v);
    assert(a[2] =~= "rate="@ + rate);
    words::law_parts_of_a_text(v, "zone="@, v);
    words::law_parts_of_a_text(rate, "rate="@, rate);
    law_rates_are_per_second_or_minute(n);
    words::law_stripped_parts_join(a[0], "zone="@);
    words::law_stripped_parts_join(a[0], "rate="@);
    words::law_stripped_parts_join(a[2], "zone="@);
    assert(a[0][0] == '$');
    assert(a[2][0] == 'r');
    assert("zone="@[0] == 'z');
    assert("rate="@[0] == 'r');
    assert(a[1][0] == 'z');
    words::law_stripped_parts_join(a[1], "rate="@);
    reveal_with_fuel(model::zone_args, 4);
    let i = text::index_of(v, ':', 0);
    text::lemma_index_of(v, ':', 0);
    assert(v[name.len() as int] == ':');
    if i < name.len() {
        assert(name[i] == v[i]);
    }
    assert(model::before_colon(v) =~= name);
    let zones = model::req_zone_of(e, d).model.req_zones;
    assert(zones.drop_last() =~= e.model.req_zones);
}

proof fn lemma_zone_index(m: ModelV, name: Seq<char>, k: int, i: nat)
    requires
        i <= k < m.req_zones.len(),
        m.req_zones[k].name == name,
        forall|j: int| i <= j < k ==> (#[trigger] m.req_zones[j]).name != name,
    ensures
        directives::req_zone_index(m, name, i) == k,
    decreases k - i,
{
    if i < k {
        assert(m.req_zones[i as int].name != name);
        lemma_zone_index(m, name, k, i + 1);
    }
}

/// `limit_req zone=NAME` demands the rate of the zone of that name, where the
/// zone is by the client's address.
pub proof fn law_limit_demands_the_zones_rate(agg: AggV, notes: Seq<Note>, d: Dir, m: ModelV, k: int)
    requires
        0 <= k < m.req_zones.len(),
        forall|j: int|
            0 <= j < k ==> (#[trigger] m.req_zones[j]).name != m.req_zones[k].name,
        d.args.len() > 0,
        d.args[0] == "zone="@ + m.req_zones[k].name,
        m.req_zones[k].key == "$binary_remote_addr"@ || m.req_zones[k].key == "$remote_addr"@,
    ensures
        ({
            let a = directives::limit_req_step(agg, notes, d, m).0;
            &&& a.rates.len() == agg.rates.len() + 1
            &&& a.rates.drop_last() == agg.rates
            &&& a.rates.last().0 == m.req_zones[k].rps
            &&& a.rates.last().1 == m.req_zones[k].window_secs
            &&& a.conns == agg.conns
        }),
{
    let name = m.req_zones[k].name;
    words::law_parts_of_a_text(name, "zone="@, name);
    lemma_zone_index(m, name, k, 0);
    let a = directives::limit_req_step(agg, notes, d, m).0;
    assert(a.rates.drop_last() =~= agg.rates);
}

/// One rate that is demanded everywhere becomes the rate of the document; with
/// two different ones there is none. The same holds of the cap on connections.
pub proof fn law_one_limit_is_applied(
    doc: DocV,
    agg: AggV,
    m: ModelV,
    notes: Seq<Note>,
    n: u32,
    w: u64,
    cap: u32,
)
    ensures
        ({
            let a = directives::limits_doc(doc, agg, m, notes).0;
            &&& agg.rates.len() > 0 && (forall|i: int|
                0 <= i < agg.rates.len() ==> (#[trigger] agg.rates[i]).0 == n && agg.rates[i].1
                    == w) ==> a.rate_limit == Some((n, w))
            &&& (exists|i: int, j: int|
                0 <= i < agg.rates.len() && 0 <= j < agg.rates.len() && ((#[trigger] agg.rates[i]).0
                    != (#[trigger] agg.rates[j]).0 || agg.rates[i].1 != agg.rates[j].1))
                ==> a.rate_limit == doc.rate_limit
            &&& agg.rates.len() == 0 ==> a.rate_limit == doc.rate_limit
            &&& agg.conns.len() > 0 && (forall|i: int|
                0 <= i < agg.conns.len() ==> (#[trigger] agg.conns[i]).0 == cap)
                ==> a.max_conn_per_ip == Some(cap)
            &&& (exists|i: int, j: int|
                0 <= i < agg.conns.len() && 0 <= j < agg.conns.len() && (#[trigger] agg.conns[i]).0
                    != (#[trigger] agg.conns[j]).0) ==> a.max_conn_per_ip == doc.max_conn_per_ip
            &&& agg.conns.len() == 0 ==> a.max_conn_per_ip == doc.max_conn_per_ip
        }),
{
    let a = directives::limits_doc(doc, agg, m, notes).0;
    if agg.rates.len() > 0 {
        assert(agg.rates[0].0 == agg.rates[0].0);
    }
    if agg.conns.len() > 0 {
        assert(agg.conns[0].0 == agg.conns[0].0);
    }
}

/// The larger of two body caps is kept, whichever comes first, and a cap turns
/// the firewall on; no size and a size of zero change nothing.
pub proof fn law_larger_body_cap_wins(cap: Option<u64>, waf: bool, notes: Seq<Note>, d: Dir, n: nat)
    requires
        d.args.len() > 0,
        n * 1048576 <= u64::MAX,
        d.args[0] == text::dec(n) + "m"@,
    ensures
        ({
            let (c, w, _) = directives::body_size_step(cap, waf, notes, d);
            &&& n == 0 ==> c == cap && w == waf
            &&& n > 0 ==> w && c is Some && c->0 >= n && (c->0 == n || c == cap) && (cap is Some
                ==> c->0 >= cap->0)
        }),
{
    reveal_strlit("m");
    lemma_size(n, "m"@);
    text::law_dec_round_trip(n, u64::MAX as nat);
    assert((n * 1048576 + 1048575) / 1048576 == n);
}

// ── Ports ───────────────────────────────────────────────────────────────
/// A listen address is a port, or a host and a port behind a colon, or in
/// brackets and a port; a host alone listens on the well-known port.
pub proof fn law_listen_address_has_its_port(p: u16, host: Seq<char>, ssl: bool)
    requires
        host.len() > 0,
        !host.contains(':'),
        !host.contains('['),
        !host.contains(']'),
        text::parse_dec(host, u16::MAX as nat) is None,
    ensures
        listen::listen_parts(text::dec(p as nat), ssl) == Some((None::<Seq<char>>, p)),
        host != "unix"@ ==> listen::listen_parts(host + ":"@ + text::dec(p as nat), ssl) == Some(
            (Some(host), p),
        ),
        listen::listen_parts("["@ + host + "]:"@ + text::dec(p as nat), ssl) == Some(
            (Some("["@ + host + "]"@), p),
        ),
        listen::listen_parts(host, ssl) == Some(
            (
                Some(host),
                if ssl {
                    443u16
                } else {
                    80u16
                },
            ),
        ),
{
    let d = text::dec(p as nat);
    text::lemma_dec(p as nat);
    text::law_dec_round_trip(p as nat, u16::MAX as nat);
    reveal_strlit("unix:");
    reveal_strlit("unix");
    reveal_strlit(":");
    assert(text::digit(d[0]));
    words::law_stripped_parts_join(d, "unix:"@);
    words::law_stripped_parts_join(host, "unix:"@);
    if text::starts(host, "unix:"@) {
        assert(host[4] == ':');
    }
    words::law_rsplit_once(host, ':');
    if let Some((a, b)) = text::rsplit_once_of(host, ':') {
        assert(host[a.len() as int] == ':');
    }
    assert(host[0] != '[');
    if host != "unix"@ {
        lemma_host_and_port(host, d, p, ssl);
    }
    lemma_bracketed(host, d, p, ssl);
}

proof fn lemma_host_and_port(host: Seq<char>, d: Seq<char>, p: u16, ssl: bool)
    requires
        host.len() > 0,
        !host.contains(':'),
        !host.contains('['),
        host != "unix"@,
        d == text::dec(p as nat),
    ensures
        listen::listen_parts(host + ":"@ + d, ssl) == Some((Some(host), p)),
{
    text::lemma_dec(p as nat);
    text::law_dec_round_trip(p as nat, u16::MAX as nat);
    reveal_strlit("unix:");
    reveal_strlit("unix");
    reveal_strlit(":");
    let x = host + ":"@ + d;
    let n = host.len() as int;
    assert(x[n] == ':');
    assert(x[0] == host[0]);
    words::law_stripped_parts_join(x, "unix:"@);
    if text::starts(x, "unix:"@) {
        assert(x[4] == ':');
        assert(x[0] == 'u' && x[1] == 'n' && x[2] == 'i' && x[3] == 'x');
        if n > 4 {
            assert(host[4] == ':');
        } else if n == 4 {
            assert(host =~= "unix"@);
        } else {
            assert(x[n] == "unix:"@[n]);
        }
        assert(false);
    }
    // It is no number, for the colon in it.
    if listen::port_of(x) is Some {
        let t = if text::begins(x, '+') {
            x.subrange(1, x.len() as int)
        } else {
            x
        };
        if text::begins(x, '+') {
            assert(t[n - 1] == x[n]);
            assert(text::digit(t[n - 1]));
        } else {
            assert(text::digit(t[n]));
        }
    }
    words::law_rsplit_once(x, ':');
    assert(x.contains(':'));
    let (a, b) = text::rsplit_once_of(x, ':')->0;
    let k = a.len() as int;
    assert(x[k] == ':');
    if k < n {
        assert(host[k] == ':');
    } else if k > n {
        assert(x[k] == d[k - n - 1]);
        assert(text::digit(d[k - n - 1]));
    }
    assert(a =~= x.subrange(0, n));
    assert(host =~= x.subrange(0, n));
    assert(b =~= x.subrange(n + 1, x.len() as int));
    assert(d =~= x.subrange(n + 1, x.len() as int));
}

proof fn lemma_bracketed(host: Seq<char>, d: Seq<char>, p: u16, ssl: bool)
    requires
        !host.contains(']'),
        d == text::dec(p as nat),
    ensures
        listen::listen_parts("["@ + host + "]:"@ + d, ssl) == Some((Some("["@ + host + "]"@), p)),
{
    text::lemma_dec(p as nat);
    text::law_dec_round_trip(p as nat, u16::MAX as nat);
    reveal_strlit("unix:");
    reveal_strlit("[");
    reveal_strlit("]");
    reveal_strlit("]:");
    let x = "["@ + host + "]:"@ + d;
    let n = host.len() as int;
    assert(x[0] == '[');
    assert(x[n + 1] == ']');
    assert(x[n + 2] == ':');
    words::law_stripped_parts_join(x, "unix:"@);
    if listen::port_of(x) is Some {
        assert(!text::begins(x, '+'));
        assert(text::digit(x[0]));
    }
    text::lemma_index_of(x, ']', 1);
    let end = text::index_of(x, ']', 1);
    if end < n + 1 {
        assert(host[end - 1] == x[end]);
    }
    assert(end == n + 1);
    let after = x.subrange(end + 1, x.len() as int);
    assert(x.subrange(0, end + 1) =~= "["@ + host + "]"@);
    assert(after[0] == ':');
    assert(after.subrange(1, after.len() as int) =~= d);
}

proof fn lemma_flags_keep_ports(st: PortsV, flags: Seq<Seq<char>>, n: nat, line: int)
    ensures
        listen::flags_of(st, flags, n, line).http == st.http,
        listen::flags_of(st, flags, n, line).https == st.https,
    decreases n,
{
    if n > 0 {
        lemma_flags_keep_ports(st, flags, (n - 1) as nat, line);
    }
}

/// A listener with TLS gives the HTTPS port, one without the plain port, unless
/// the port was given before; neither touches the other.
pub proof fn law_listener_gives_its_port(st: PortsV, l: ListenV, forced_tls: bool, p: u16)
    requires
        listen::listen_parts(l.addr, l.ssl || forced_tls) matches Some((_, q)) && q == p,
    ensures
        ({
            let a = listen::listen_step(st, l, forced_tls);
            if l.ssl || forced_tls {
                a.http == st.http && a.https == Some(
                    if st.https is Some {
                        st.https->0
                    } else {
                        p
                    },
                )
            } else {
                a.https == st.https && a.http == Some(
                    if st.http is Some {
                        st.http->0
                    } else {
                        p
                    },
                )
            }
        }),
{
    let tls = l.ssl || forced_tls;
    let (host, port) = listen::listen_parts(l.addr, tls)->0;
    let st1 = match host {
        Some(h) if listen::narrow_host(h) => listen::noted(
            st,
            crate::import::Status::Partial,
            l.line,
            "nginx bound to "@ + h
                + "; Zion listens on 0.0.0.0 — narrow with a firewall if needed"@,
        ),
        _ => st,
    };
    lemma_flags_keep_ports(
        listen::port_step(st1, tls, port, l.line),
        l.flags,
        l.flags.len(),
        l.line,
    );
}

/// The document listens on the ports that were given, and on the well-known ones
/// where none was.
pub proof fn law_document_listens_on_the_ports(doc: DocV, st: PortsV, p: u16)
    ensures
        st.http == Some(p) ==> listen::listen_doc(doc, st).listen_http == "0.0.0.0:"@ + text::dec(
            p as nat,
        ),
        st.https == Some(p) ==> listen::listen_doc(doc, st).listen_https == "0.0.0.0:"@ + text::dec(
            p as nat,
        ),
        st.http is None ==> listen::listen_doc(doc, st).listen_http == "0.0.0.0:80"@,
        st.https is None ==> listen::listen_doc(doc, st).listen_https == "0.0.0.0:443"@,
        listen::listen_doc(doc, st).routes == doc.routes,
        listen::listen_doc(doc, st).upstreams == doc.upstreams,
{
    reveal_with_fuel(text::dec, 4);
    reveal_strlit("0.0.0.0:");
    reveal_strlit("0.0.0.0:80");
    reveal_strlit("0.0.0.0:443");
    assert("0.0.0.0:"@ + text::dec(80) =~= "0.0.0.0:80"@);
    assert("0.0.0.0:"@ + text::dec(443) =~= "0.0.0.0:443"@);
}


// ── Connections and proxies ─────────────────────────────────────────────
proof fn lemma_conn_zone_index(m: ModelV, name: Seq<char>, k: int, i: nat)
    requires
        i <= k < m.conn_zones.len(),
        m.conn_zones[k].name == name,
        forall|j: int| i <= j < k ==> (#[trigger] m.conn_zones[j]).name != name,
    ensures
        directives::conn_zone_index(m, name, i) == k,
    decreases k - i,
{
    if i < k {
        assert(m.conn_zones[i as int].name != name);
        lemma_conn_zone_index(m, name, k, i + 1);
    }
}

/// `limit_conn NAME N` demands the cap, where the zone of that name is by the
/// client's address.
pub proof fn law_limit_demands_the_cap(
    agg: AggV,
    notes: Seq<Note>,
    d: Dir,
    m: ModelV,
    k: int,
    cap: u32,
)
    requires
        0 <= k < m.conn_zones.len(),
        forall|j: int|
            0 <= j < k ==> (#[trigger] m.conn_zones[j]).name != m.conn_zones[k].name,
        d.args.len() == 2,
        d.args[0] == m.conn_zones[k].name,
        d.args[1] == text::dec(cap as nat),
    ensures
        ({
            let a = directives::limit_conn_step(agg, notes, d, m).0;
            let by_client = m.conn_zones[k].key == "$binary_remote_addr"@ || m.conn_zones[k].key
                == "$remote_addr"@;
            &&& a.rates == agg.rates
            &&& by_client ==> a.conns.len() == agg.conns.len() + 1 && a.conns.drop_last()
                == agg.conns && a.conns.last().0 == cap
            &&& !by_client ==> a.conns == agg.conns
        }),
{
    lemma_conn_zone_index(m, m.conn_zones[k].name, k, 0);
    text::law_dec_round_trip(cap as nat, u32::MAX as nat);
    let a = directives::limit_conn_step(agg, notes, d, m).0;
    if a.conns != agg.conns {
        assert(a.conns.drop_last() =~= agg.conns);
    }
}

/// The first timeout that can be read is kept.
pub proof fn law_first_timeout_is_kept(slot: Option<u64>, notes: Seq<Note>, d: Dir, n: nat)
    requires
        d.args.len() > 0,
        d.args[0] == text::dec(n) + "s"@,
        n * 1000 <= u64::MAX,
    ensures
        slot is Some ==> directives::connect_timeout_step(slot, notes, d).0 == slot,
        slot is None ==> directives::connect_timeout_step(slot, notes, d).0 == Some(
            (1000 * n) as u64,
        ),
{
    lemma_time(n, "s"@, 1000);
}

/// An address that a server trusts is trusted beside those that were, once.
pub proof fn law_trusted_proxies_are_kept(s: server::ScanV, d: Dir, other: Seq<char>)
    requires
        d.args.len() > 0,
    ensures
        ({
            let a = server::real_ip_step(s, d).trusted;
            &&& units::cidr(d.args[0]) ==> a.contains(d.args[0])
            &&& !units::cidr(d.args[0]) ==> a == s.trusted
            &&& s.trusted.contains(other) ==> a.contains(other)
            &&& a.contains(other) ==> s.trusted.contains(other) || other == d.args[0]
        }),
{
    let a = server::real_ip_step(s, d).trusted;
    if units::cidr(d.args[0]) && !s.trusted.contains(d.args[0]) {
        assert(a[s.trusted.len() as int] == d.args[0]);
        if s.trusted.contains(other) {
            let i = choose|i: int| 0 <= i < s.trusted.len() && s.trusted[i] == other;
            assert(a[i] == other);
        }
        if a.contains(other) {
            let i = choose|i: int| 0 <= i < a.len() && a[i] == other;
            if i < s.trusted.len() {
                assert(s.trusted[i] == other);
            }
        }
    }
}

/// An IPv4 address, or one with up to 32 bits of prefix, can be trusted.
pub proof fn law_ipv4_ranges_can_be_trusted(a: nat, b: nat, c: nat, d: nat, bits: nat)
    ensures
        ({
            let quad = text::dec(a) + "."@ + text::dec(b) + "."@ + text::dec(c) + "."@ + text::dec(d);
            &&& ip::ipv4(quad) <==> a <= 255 && b <= 255 && c <= 255 && d <= 255
            &&& ip::ipv4(quad) ==> units::cidr(quad)
            &&& ip::ipv4(quad) && bits <= 32 ==> units::cidr(quad + "/"@ + text::dec(bits))
            &&& ip::ipv4(quad) && bits > 32 ==> !units::cidr(quad + "/"@ + text::dec(bits))
        }),
{
    let quad = text::dec(a) + "."@ + text::dec(b) + "."@ + text::dec(c) + "."@ + text::dec(d);
    ip::law_four_octets(a, b, c, d);
    ip::lemma_quad_chars(a, b, c, d);
    reveal_strlit("/");
    let s = quad + "/"@ + text::dec(bits);
    assert(s =~= quad + seq!['/'] + text::dec(bits));
    words::law_split_once_of_joined(quad, '/', text::dec(bits));
    words::law_split_once(quad, '/');
    if let Some((x, y)) = text::split_once_of(quad, '/') {
        assert(quad[x.len() as int] == '/');
    }
    words::law_decimal(bits, 0, 255);
}

} // verus!
