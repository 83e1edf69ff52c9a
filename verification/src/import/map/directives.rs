//! Directives that server and location blocks share.
use super::units::{parse_size_mb, parse_time_ms};
use super::{DocV, ZionDoc};
use crate::import;
use crate::import::model::{ConnZone, ModelV, NginxModel, ReqZone};
use crate::import::nginx::{Dir, Directive};
use crate::import::{file, Finding, Note, Status};
use crate::text;
use crate::text::{cat2, cat3, cat5, dec_text, first_arg, own, parse_u32, same, strip_prefix, to_lower};
use vstd::prelude::*;

verus! {

broadcast use {crate::text::group_views, crate::import::nginx::lemma_dir_view};

// ── Aggregates ──────────────────────────────────────────────────────────
/// What nginx scopes per location but Zion holds globally.
pub struct Aggregates {
    /// (requests, window, line) of each `limit_req` reference.
    pub rates: Vec<(u32, u64, u32)>,
    /// (cap, line) of each `limit_conn` reference.
    pub conns: Vec<(u32, u32)>,
    /// Zone names that are referenced.
    pub used_zones: Vec<String>,
}

#[verifier::ext_equal]
pub struct AggV {
    pub rates: Seq<(u32, u64, u32)>,
    pub conns: Seq<(u32, u32)>,
    pub used_zones: Seq<Seq<char>>,
}

impl View for Aggregates {
    type V = AggV;

    open spec fn view(&self) -> AggV {
        AggV {
            rates: self.rates@,
            conns: self.conns@,
            used_zones: text::views(self.used_zones@),
        }
    }
}

pub open spec fn empty_agg() -> AggV {
    AggV { rates: seq![], conns: seq![], used_zones: seq![] }
}

pub fn new_aggregates() -> (r: Aggregates)
    ensures
        r@ == empty_agg(),
{
    let r = Aggregates { rates: Vec::new(), conns: Vec::new(), used_zones: Vec::new() };
    assert(r@ =~= empty_agg());
    r
}

/// A zone key that means the client's address.
pub open spec fn per_client(key: Seq<char>) -> bool {
    key == "$binary_remote_addr"@ || key == "$remote_addr"@
}

fn is_per_client(key: &str) -> (r: bool)
    ensures
        r == per_client(key@),
{
    same(key, "$binary_remote_addr") || same(key, "$remote_addr")
}

// ── limit_req ───────────────────────────────────────────────────────────
/// The zone that the first `zone=` argument from `i` on names, or the empty text.
pub open spec fn zone_arg(args: Seq<Seq<char>>, i: nat) -> Seq<char>
    decreases args.len() - i,
{
    if i >= args.len() {
        ""@
    } else {
        match text::strip_prefix_of(args[i as int], "zone="@) {
            Some(z) => z,
            None => zone_arg(args, i + 1),
        }
    }
}

pub open spec fn req_zone_index(m: ModelV, name: Seq<char>, i: nat) -> nat
    decreases m.req_zones.len() - i,
{
    if i >= m.req_zones.len() || m.req_zones[i as int].name == name {
        i
    } else {
        req_zone_index(m, name, i + 1)
    }
}

pub open spec fn limit_req_step(agg: AggV, notes: Seq<Note>, d: Dir, m: ModelV) -> (
    AggV,
    Seq<Note>,
) {
    let zone = zone_arg(d.args, 0);
    let i = req_zone_index(m, zone, 0);
    if i >= m.req_zones.len() {
        (
            agg,
            notes.push(
                import::note(
                    Status::Unsupported,
                    d.line,
                    "limit_req"@,
                    "zone '"@ + zone + "' is not defined"@,
                ),
            ),
        )
    } else {
        let z = m.req_zones[i as int];
        let used = agg.used_zones.push(zone);
        if per_client(z.key) {
            (
                AggV {
                    rates: agg.rates.push((z.rps, z.window_secs, d.line as u32)),
                    used_zones: used,
                    ..agg
                },
                notes,
            )
        } else {
            (
                AggV { used_zones: used, ..agg },
                notes.push(
                    import::note(
                        Status::Unsupported,
                        d.line,
                        "limit_req"@,
                        "zone '"@ + zone + "' keys on '"@ + z.key
                            + "' — Zion rate-limits per client IP only"@,
                    ),
                ),
            )
        }
    }
}

fn find_zone_arg(args: &Vec<String>) -> (r: String)
    ensures
        r@ == zone_arg(text::views(args@), 0),
{
    let ghost av = text::views(args@);
    let mut i: usize = 0;
    while i < args.len()
        invariant
            i <= args.len(),
            av == text::views(args@),
            zone_arg(av, 0) == zone_arg(av, i as nat),
        decreases args.len() - i,
    {
        assert(av[i as int] == args@[i as int]@);
        match strip_prefix(args[i].as_str(), "zone=") {
            Some(z) => {
                return z;
            },
            None => {},
        }
        i += 1;
    }
    own("")
}

fn find_req_zone(model: &NginxModel, name: &str) -> (r: usize)
    ensures
        r == req_zone_index(model@, name@, 0),
        r <= model.req_zones.len(),
{
    let mut i: usize = 0;
    while i < model.req_zones.len()
        invariant
            i <= model.req_zones.len(),
            req_zone_index(model@, name@, 0) == req_zone_index(model@, name@, i as nat),
        decreases model.req_zones.len() - i,
    {
        assert(model@.req_zones[i as int] == model.req_zones@[i as int]@);
        if same(model.req_zones[i].name.as_str(), name) {
            return i;
        }
        i += 1;
    }
    i
}

pub fn map_limit_req(
    d: &Directive,
    agg: &mut Aggregates,
    model: &NginxModel,
    findings: &mut Vec<Finding>,
)
    ensures
        (final(agg)@, text::views(final(findings)@)) == limit_req_step(
            old(agg)@,
            text::views(old(findings)@),
            d@,
            model@,
        ),
{
    let zone = find_zone_arg(&d.args);
    let i: usize = find_req_zone(model, zone.as_str());
    if i < model.req_zones.len() {
        let z: &ReqZone = &model.req_zones[i];
        assert(model@.req_zones[i as int] == z@);
        if is_per_client(z.key.as_str()) {
            agg.used_zones.push(zone);
            agg.rates.push((z.rps, z.window_secs, d.line));
        } else {
            let why = cat5(
                "zone '",
                zone.as_str(),
                "' keys on '",
                z.key.as_str(),
                "' — Zion rate-limits per client IP only",
            );
            file(findings, Status::Unsupported, d.line, "limit_req", why.as_str());
            agg.used_zones.push(zone);
        }
    } else {
        let why = cat3("zone '", zone.as_str(), "' is not defined");
        file(findings, Status::Unsupported, d.line, "limit_req", why.as_str());
    }
}

// ── limit_conn ──────────────────────────────────────────────────────────
pub open spec fn conn_zone_index(m: ModelV, name: Seq<char>, i: nat) -> nat
    decreases m.conn_zones.len() - i,
{
    if i >= m.conn_zones.len() || m.conn_zones[i as int].name == name {
        i
    } else {
        conn_zone_index(m, name, i + 1)
    }
}

/// The number that the second argument writes, if there is one.
pub open spec fn count_arg(args: Seq<Seq<char>>) -> Option<u32> {
    if args.len() > 1 {
        match text::parse_dec(args[1], u32::MAX as nat) {
            Some(n) => Some(n as u32),
            None => None,
        }
    } else {
        None
    }
}

pub open spec fn limit_conn_step(agg: AggV, notes: Seq<Note>, d: Dir, m: ModelV) -> (
    AggV,
    Seq<Note>,
) {
    let zone = text::first_or_empty(d.args);
    let i = conn_zone_index(m, zone, 0);
    let count = count_arg(d.args);
    if i < m.conn_zones.len() && !per_client(m.conn_zones[i as int].key) {
        (
            AggV { used_zones: agg.used_zones.push(zone), ..agg },
            notes.push(
                import::note(
                    Status::Unsupported,
                    d.line,
                    "limit_conn"@,
                    "zone '"@ + zone + "' keys on '"@ + m.conn_zones[i as int].key
                        + "' — Zion caps connections per client IP only"@,
                ),
            ),
        )
    } else if i < m.conn_zones.len() && count is Some {
        (
            AggV {
                conns: agg.conns.push((count->0, d.line as u32)),
                used_zones: agg.used_zones.push(zone),
                ..agg
            },
            notes,
        )
    } else {
        (
            agg,
            notes.push(
                import::note(
                    Status::Unsupported,
                    d.line,
                    "limit_conn"@,
                    "could not resolve zone / count"@,
                ),
            ),
        )
    }
}

fn find_conn_zone(model: &NginxModel, name: &str) -> (r: usize)
    ensures
        r == conn_zone_index(model@, name@, 0),
        r <= model.conn_zones.len(),
{
    let mut i: usize = 0;
    while i < model.conn_zones.len()
        invariant
            i <= model.conn_zones.len(),
            conn_zone_index(model@, name@, 0) == conn_zone_index(model@, name@, i as nat),
        decreases model.conn_zones.len() - i,
    {
        assert(model@.conn_zones[i as int] == model.conn_zones@[i as int]@);
        if same(model.conn_zones[i].name.as_str(), name) {
            return i;
        }
        i += 1;
    }
    i
}

pub fn map_limit_conn(
    d: &Directive,
    agg: &mut Aggregates,
    model: &NginxModel,
    findings: &mut Vec<Finding>,
)
    ensures
        (final(agg)@, text::views(final(findings)@)) == limit_conn_step(
            old(agg)@,
            text::views(old(findings)@),
            d@,
            model@,
        ),
{
    let zone: &str = first_arg(&d.args);
    let count: Option<u32> = if d.args.len() > 1 {
        assert(d@.args[1] == d.args@[1]@);
        parse_u32(d.args[1].as_str())
    } else {
        None
    };
    let i: usize = find_conn_zone(model, zone);
    if i < model.conn_zones.len() {
        let z: &ConnZone = &model.conn_zones[i];
        assert(model@.conn_zones[i as int] == z@);
        if !is_per_client(z.key.as_str()) {
            agg.used_zones.push(own(zone));
            let why = cat5(
                "zone '",
                zone,
                "' keys on '",
                z.key.as_str(),
                "' — Zion caps connections per client IP only",
            );
            file(findings, Status::Unsupported, d.line, "limit_conn", why.as_str());
            return;
        }
        match count {
            Some(n) => {
                agg.used_zones.push(own(zone));
                agg.conns.push((n, d.line));
                return;
            },
            None => {},
        }
    }
    file(findings, Status::Unsupported, d.line, "limit_conn", "could not resolve zone / count");
}

// ── client_max_body_size ────────────────────────────────────────────────
/// What a body cap does to the document's cap, and the note on it. The larger
/// of two caps wins; zero is no cap.
pub open spec fn body_size_step(cap: Option<u64>, waf: bool, notes: Seq<Note>, d: Dir) -> (
    Option<u64>,
    bool,
    Seq<Note>,
) {
    if d.args.len() == 0 {
        (
            cap,
            waf,
            notes.push(
                import::note(
                    Status::Unsupported,
                    d.line,
                    "client_max_body_size"@,
                    "missing size"@,
                ),
            ),
        )
    } else {
        let raw = d.args[0];
        match super::units::size_mb_of(raw) {
            None => (
                cap,
                waf,
                notes.push(
                    import::note(
                        Status::Unsupported,
                        d.line,
                        "client_max_body_size"@,
                        "cannot parse size '"@ + raw + "'"@,
                    ),
                ),
            ),
            Some(mb) => if mb == 0 {
                (
                    cap,
                    waf,
                    notes.push(
                        import::note(
                            Status::Auto,
                            d.line,
                            "client_max_body_size"@,
                            "0 = unlimited — Zion has no body cap unless a WAF profile sets one"@,
                        ),
                    ),
                )
            } else {
                let base = raw + " → [waf_profile.imported] max_body_mb = "@ + text::dec(mb)
                    + ", attached in shadow mode (logs, doesn't block) — the cap is enforced by the WAF path, which nginx didn't run; flip waf_shadow to false to enforce"@;
                let detail = match cap {
                    Some(p) if p != mb => base + " (differs from an earlier cap of "@ + text::dec(
                        p as nat,
                    ) + " MB — the larger value wins)"@,
                    _ => base,
                };
                (
                    match cap {
                        Some(p) if p > mb => Some(p),
                        _ => Some(mb as u64),
                    },
                    true,
                    notes.push(
                        import::note(
                            Status::Partial,
                            d.line,
                            "client_max_body_size"@,
                            detail,
                        ),
                    ),
                )
            },
        }
    }
}

pub fn map_body_size(
    d: &Directive,
    cap: &mut Option<u64>,
    waf: &mut bool,
    findings: &mut Vec<Finding>,
)
    ensures
        (*final(cap), *final(waf), text::views(final(findings)@)) == body_size_step(
            *old(cap),
            *old(waf),
            text::views(old(findings)@),
            d@,
        ),
{
    if d.args.len() == 0 {
        file(findings, Status::Unsupported, d.line, "client_max_body_size", "missing size");
        return;
    }
    let raw: &str = d.args[0].as_str();
    assert(d@.args[0] == raw@);
    match parse_size_mb(raw) {
        None => {
            let why = cat3("cannot parse size '", raw, "'");
            file(findings, Status::Unsupported, d.line, "client_max_body_size", why.as_str());
        },
        Some(mb) => {
            if mb == 0 {
                file(
                    findings,
                    Status::Auto,
                    d.line,
                    "client_max_body_size",
                    "0 = unlimited — Zion has no body cap unless a WAF profile sets one",
                );
                return;
            }
            *waf = true;
            let prev: Option<u64> = *cap;
            let mut detail = text::cat4(
                raw,
                " → [waf_profile.imported] max_body_mb = ",
                dec_text(mb).as_str(),
                ", attached in shadow mode (logs, doesn't block) — the cap is enforced by the WAF path, which nginx didn't run; flip waf_shadow to false to enforce",
            );
            match prev {
                None => {
                    *cap = Some(mb);
                },
                Some(p) => {
                    if p != mb {
                        detail.append(" (differs from an earlier cap of ");
                        detail.append(dec_text(p).as_str());
                        detail.append(" MB — the larger value wins)");
                    }
                    if p <= mb {
                        *cap = Some(mb);
                    }
                },
            }
            file(findings, Status::Partial, d.line, "client_max_body_size", detail.as_str());
        },
    }
}

// ── add_header ──────────────────────────────────────────────────────────
/// The five headers Zion injects unconditionally on every response.
pub open spec fn auto_header(lower: Seq<char>) -> bool {
    ||| lower == "strict-transport-security"@
    ||| lower == "x-content-type-options"@
    ||| lower == "x-frame-options"@
    ||| lower == "referrer-policy"@
    ||| lower == "permissions-policy"@
}

pub open spec fn add_header_step(csp: Option<Seq<char>>, notes: Seq<Note>, d: Dir) -> (
    Option<Seq<char>>,
    Seq<Note>,
) {
    let name = text::first_or_empty(d.args);
    let lower = text::lower(name);
    if lower == "content-security-policy"@ && d.args.len() > 1 {
        (
            Some(d.args[1]),
            notes.push(import::note(Status::Convert, d.line, "add_header"@, "route csp"@)),
        )
    } else if auto_header(lower) {
        (
            csp,
            notes.push(
                import::note(
                    Status::Auto,
                    d.line,
                    "add_header"@,
                    name
                        + " — Zion injects this header on every response; a differing value cannot be honored"@,
                ),
            ),
        )
    } else {
        (
            csp,
            notes.push(
                import::note(
                    Status::Unsupported,
                    d.line,
                    "add_header"@,
                    name + " — no generic response-header injection"@,
                ),
            ),
        )
    }
}

pub fn map_add_header(d: &Directive, csp: &mut Option<String>, findings: &mut Vec<Finding>)
    ensures
        (text::opt(*final(csp)), text::views(final(findings)@)) == add_header_step(
            text::opt(*old(csp)),
            text::views(old(findings)@),
            d@,
        ),
{
    let name: &str = first_arg(&d.args);
    let lower = to_lower(name);
    let l: &str = lower.as_str();
    if same(l, "content-security-policy") && d.args.len() > 1 {
        assert(d@.args[1] == d.args@[1]@);
        *csp = Some(d.args[1].clone());
        file(findings, Status::Convert, d.line, "add_header", "route csp");
    } else if same(l, "strict-transport-security") || same(l, "x-content-type-options") || same(
        l,
        "x-frame-options",
    ) || same(l, "referrer-policy") || same(l, "permissions-policy") {
        let why = cat2(
            name,
            " — Zion injects this header on every response; a differing value cannot be honored",
        );
        file(findings, Status::Auto, d.line, "add_header", why.as_str());
    } else {
        let why = cat2(name, " — no generic response-header injection");
        file(findings, Status::Unsupported, d.line, "add_header", why.as_str());
    }
}

// ── proxy_set_header ────────────────────────────────────────────────────
pub struct SetHeaderV {
    pub websocket: bool,
    pub annotations: Seq<Seq<char>>,
    pub notes: Seq<Note>,
}

/// Forwarding hygiene headers are automatic, the websocket idiom flips the
/// route mode, `Host` is a stated behavior delta, anything else is unsupported.
pub open spec fn set_header_step(st: SetHeaderV, d: Dir) -> SetHeaderV {
    let name = text::first_or_empty(d.args);
    let value = if d.args.len() > 1 {
        d.args[1]
    } else {
        ""@
    };
    let lower = text::lower(name);
    let say = |status: Status, detail: Seq<char>|
        st.notes.push(import::note(status, d.line, "proxy_set_header"@, detail));
    if lower == "x-real-ip"@ || lower == "x-forwarded-for"@ || lower == "x-forwarded-proto"@
        || lower == "x-forwarded-host"@ {
        SetHeaderV {
            notes: say(
                Status::Auto,
                name + " — Zion sets forwarding headers unconditionally"@,
            ),
            ..st
        }
    } else if lower == "upgrade"@ {
        SetHeaderV {
            websocket: true,
            notes: say(Status::Convert, "websocket upgrade idiom → mode = \"websocket\""@),
            ..st
        }
    } else if lower == "connection"@ {
        SetHeaderV {
            notes: say(
                Status::Auto,
                "Connection — hop-by-hop headers are managed by Zion"@,
            ),
            ..st
        }
    } else if lower == "host"@ {
        SetHeaderV {
            annotations: st.annotations.push(
                "proxy_set_header Host: backend sees the upstream authority as Host; original host arrives in X-Forwarded-Host"@,
            ),
            notes: say(
                Status::Unsupported,
                "Host "@ + value
                    + " — Zion re-derives Host from the upstream authority; the original host reaches the backend as X-Forwarded-Host"@,
            ),
            ..st
        }
    } else {
        SetHeaderV {
            notes: say(
                Status::Unsupported,
                name + " — no generic request-header injection"@,
            ),
            ..st
        }
    }
}

pub fn classify_set_header(
    d: &Directive,
    websocket: &mut bool,
    annotations: &mut Vec<String>,
    findings: &mut Vec<Finding>,
)
    ensures
        (SetHeaderV {
            websocket: *final(websocket),
            annotations: text::views(final(annotations)@),
            notes: text::views(final(findings)@),
        }) == set_header_step(
            SetHeaderV {
                websocket: *old(websocket),
                annotations: text::views(old(annotations)@),
                notes: text::views(old(findings)@),
            },
            d@,
        ),
{
    let name: &str = first_arg(&d.args);
    let value: &str = if d.args.len() > 1 {
        assert(d@.args[1] == d.args@[1]@);
        d.args[1].as_str()
    } else {
        ""
    };
    let lower = to_lower(name);
    let l: &str = lower.as_str();
    if same(l, "x-real-ip") || same(l, "x-forwarded-for") || same(l, "x-forwarded-proto") || same(
        l,
        "x-forwarded-host",
    ) {
        let why = cat2(name, " — Zion sets forwarding headers unconditionally");
        file(findings, Status::Auto, d.line, "proxy_set_header", why.as_str());
    } else if same(l, "upgrade") {
        *websocket = true;
        file(
            findings,
            Status::Convert,
            d.line,
            "proxy_set_header",
            "websocket upgrade idiom → mode = \"websocket\"",
        );
    } else if same(l, "connection") {
        file(
            findings,
            Status::Auto,
            d.line,
            "proxy_set_header",
            "Connection — hop-by-hop headers are managed by Zion",
        );
    } else if same(l, "host") {
        let why = cat3(
            "Host ",
            value,
            " — Zion re-derives Host from the upstream authority; the original host reaches the backend as X-Forwarded-Host",
        );
        file(findings, Status::Unsupported, d.line, "proxy_set_header", why.as_str());
        annotations.push(
            own(
                "proxy_set_header Host: backend sees the upstream authority as Host; original host arrives in X-Forwarded-Host",
            ),
        );
    } else {
        let why = cat2(name, " — no generic request-header injection");
        file(findings, Status::Unsupported, d.line, "proxy_set_header", why.as_str());
    }
}

// ── proxy_connect_timeout ───────────────────────────────────────────────
/// The first timeout that can be read is kept.
pub open spec fn connect_timeout_step(slot: Option<u64>, notes: Seq<Note>, d: Dir) -> (
    Option<u64>,
    Seq<Note>,
) {
    let raw = text::first_or_empty(d.args);
    match super::units::time_ms_of(raw) {
        Some(ms) => (
            if slot is None {
                Some(ms as u64)
            } else {
                slot
            },
            notes.push(
                import::note(
                    Status::Convert,
                    d.line,
                    "proxy_connect_timeout"@,
                    "connect_timeout_ms = "@ + text::dec(ms),
                ),
            ),
        ),
        None => (
            slot,
            notes.push(
                import::note(
                    Status::Unsupported,
                    d.line,
                    "proxy_connect_timeout"@,
                    "cannot parse time '"@ + raw + "'"@,
                ),
            ),
        ),
    }
}

pub fn map_connect_timeout(d: &Directive, slot: &mut Option<u64>, findings: &mut Vec<Finding>)
    ensures
        (*final(slot), text::views(final(findings)@)) == connect_timeout_step(
            *old(slot),
            text::views(old(findings)@),
            d@,
        ),
{
    let raw: &str = first_arg(&d.args);
    match parse_time_ms(raw) {
        Some(ms) => {
            if slot.is_none() {
                *slot = Some(ms);
            }
            let what = cat2("connect_timeout_ms = ", dec_text(ms).as_str());
            file(findings, Status::Convert, d.line, "proxy_connect_timeout", what.as_str());
        },
        None => {
            let why = cat3("cannot parse time '", raw, "'");
            file(findings, Status::Unsupported, d.line, "proxy_connect_timeout", why.as_str());
        },
    }
}

// ── Global limits ───────────────────────────────────────────────────────
/// Whether all the rates demanded are one and the same.
pub open spec fn one_rate(rates: Seq<(u32, u64, u32)>) -> bool {
    forall|i: int|
        0 <= i < rates.len() ==> (#[trigger] rates[i]).0 == rates[0].0 && rates[i].1 == rates[0].1
}

pub open spec fn one_cap(conns: Seq<(u32, u32)>) -> bool {
    forall|i: int| 0 <= i < conns.len() ==> (#[trigger] conns[i]).0 == conns[0].0
}

pub open spec fn rate_conflicts(rates: Seq<(u32, u64, u32)>, n: nat, notes: Seq<Note>) -> Seq<Note>
    decreases n,
{
    if n == 0 {
        notes
    } else {
        let r = rates[n - 1];
        rate_conflicts(rates, (n - 1) as nat, notes).push(
            import::note(
                Status::Unsupported,
                r.2 as int,
                "limit_req"@,
                text::dec(r.0 as nat) + " req / "@ + text::dec(r.1 as nat)
                    + "s — multiple distinct rate policies exist and Zion has one global per-IP limit; none applied"@,
            ),
        )
    }
}

pub open spec fn cap_conflicts(conns: Seq<(u32, u32)>, n: nat, notes: Seq<Note>) -> Seq<Note>
    decreases n,
{
    if n == 0 {
        notes
    } else {
        let c = conns[n - 1];
        cap_conflicts(conns, (n - 1) as nat, notes).push(
            import::note(
                Status::Unsupported,
                c.1 as int,
                "limit_conn"@,
                text::dec(c.0 as nat)
                    + " per IP — multiple distinct caps exist and Zion has one global per-IP cap; none applied"@,
            ),
        )
    }
}

/// The global rate limit: one policy is applied, several are not.
pub open spec fn rate_limit_of(agg: AggV, notes: Seq<Note>) -> (Option<(u32, u64)>, Seq<Note>) {
    if agg.rates.len() == 0 {
        (None, notes)
    } else if one_rate(agg.rates) {
        let r = agg.rates[0];
        (
            Some((r.0, r.1)),
            notes.push(
                import::note(
                    Status::Partial,
                    r.2 as int,
                    "limit_req"@,
                    text::dec(r.0 as nat) + " req / "@ + text::dec(r.1 as nat)
                        + "s applied GLOBALLY — nginx scoped it per-location; burst/nodelay are not mapped"@,
                ),
            ),
        )
    } else {
        (None, rate_conflicts(agg.rates, agg.rates.len(), notes))
    }
}

/// The global cap on connections: one is applied, several are not.
pub open spec fn conn_cap_of(agg: AggV, notes: Seq<Note>) -> (Option<u32>, Seq<Note>) {
    if agg.conns.len() == 0 {
        (None, notes)
    } else if one_cap(agg.conns) {
        let c = agg.conns[0];
        (
            Some(c.0),
            notes.push(
                import::note(
                    Status::Partial,
                    c.1 as int,
                    "limit_conn"@,
                    text::dec(c.0 as nat)
                        + " connections per IP applied GLOBALLY — nginx scoped it per-location"@,
                ),
            ),
        )
    } else {
        (None, cap_conflicts(agg.conns, agg.conns.len(), notes))
    }
}

pub open spec fn unused_note(directive: Seq<char>, name: Seq<char>, line: int) -> Note {
    import::note(
        Status::Auto,
        line,
        directive,
        "zone '"@ + name + "' is never referenced — dropped"@,
    )
}

pub open spec fn unused_req_zones(m: ModelV, agg: AggV, n: nat, notes: Seq<Note>) -> Seq<Note>
    decreases n,
{
    if n == 0 {
        notes
    } else {
        let f = unused_req_zones(m, agg, (n - 1) as nat, notes);
        let z = m.req_zones[n - 1];
        if agg.used_zones.contains(z.name) {
            f
        } else {
            f.push(unused_note("limit_req_zone"@, z.name, z.line))
        }
    }
}

pub open spec fn unused_conn_zones(m: ModelV, agg: AggV, n: nat, notes: Seq<Note>) -> Seq<Note>
    decreases n,
{
    if n == 0 {
        notes
    } else {
        let f = unused_conn_zones(m, agg, (n - 1) as nat, notes);
        let z = m.conn_zones[n - 1];
        if agg.used_zones.contains(z.name) {
            f
        } else {
            f.push(unused_note("limit_conn_zone"@, z.name, z.line))
        }
    }
}

/// The limits section of the document.
pub open spec fn limits_doc(doc: DocV, agg: AggV, m: ModelV, notes: Seq<Note>) -> (
    DocV,
    Seq<Note>,
) {
    let (rate, n1) = rate_limit_of(agg, notes);
    let (cap, n2) = conn_cap_of(agg, n1);
    let n3 = unused_req_zones(m, agg, m.req_zones.len(), n2);
    let n4 = unused_conn_zones(m, agg, m.conn_zones.len(), n3);
    (
        DocV {
            rate_limit: if rate is Some {
                rate
            } else {
                doc.rate_limit
            },
            max_conn_per_ip: if cap is Some {
                cap
            } else {
                doc.max_conn_per_ip
            },
            ..doc
        },
        n4,
    )
}

fn global_rate(agg: &Aggregates, findings: &mut Vec<Finding>) -> (r: Option<(u32, u64)>)
    ensures
        (r, text::views(final(findings)@)) == rate_limit_of(agg@, text::views(old(findings)@)),
{
    let ghost notes = text::views(findings@);
    if agg.rates.len() == 0 {
        return None;
    }
    let first: (u32, u64, u32) = agg.rates[0];
    let mut one = true;
    let mut i: usize = 0;
    while i < agg.rates.len()
        invariant
            i <= agg.rates.len(),
            agg.rates.len() > 0,
            first == agg.rates@[0],
            one ==> forall|j: int|
                0 <= j < i ==> (#[trigger] agg.rates@[j]).0 == first.0 && agg.rates@[j].1
                    == first.1,
            !one ==> !one_rate(agg.rates@),
        decreases agg.rates.len() - i,
    {
        let r: (u32, u64, u32) = agg.rates[i];
        if r.0 != first.0 || r.1 != first.1 {
            assert(agg.rates@[i as int] == r);
            one = false;
        }
        i += 1;
    }
    if one {
        let what = text::cat4(
            dec_text(first.0 as u64).as_str(),
            " req / ",
            dec_text(first.1).as_str(),
            "s applied GLOBALLY — nginx scoped it per-location; burst/nodelay are not mapped",
        );
        file(findings, Status::Partial, first.2, "limit_req", what.as_str());
        return Some((first.0, first.1));
    }
    let mut i: usize = 0;
    while i < agg.rates.len()
        invariant
            i <= agg.rates.len(),
            text::views(findings@) == rate_conflicts(agg.rates@, i as nat, notes),
        decreases agg.rates.len() - i,
    {
        let r: (u32, u64, u32) = agg.rates[i];
        let why = text::cat4(
            dec_text(r.0 as u64).as_str(),
            " req / ",
            dec_text(r.1).as_str(),
            "s — multiple distinct rate policies exist and Zion has one global per-IP limit; none applied",
        );
        file(findings, Status::Unsupported, r.2, "limit_req", why.as_str());
        i += 1;
    }
    None
}

fn global_cap(agg: &Aggregates, findings: &mut Vec<Finding>) -> (r: Option<u32>)
    ensures
        (r, text::views(final(findings)@)) == conn_cap_of(agg@, text::views(old(findings)@)),
{
    let ghost notes = text::views(findings@);
    if agg.conns.len() == 0 {
        return None;
    }
    let first: (u32, u32) = agg.conns[0];
    let mut one = true;
    let mut i: usize = 0;
    while i < agg.conns.len()
        invariant
            i <= agg.conns.len(),
            agg.conns.len() > 0,
            first == agg.conns@[0],
            one ==> forall|j: int| 0 <= j < i ==> (#[trigger] agg.conns@[j]).0 == first.0,
            !one ==> !one_cap(agg.conns@),
        decreases agg.conns.len() - i,
    {
        let c: (u32, u32) = agg.conns[i];
        if c.0 != first.0 {
            assert(agg.conns@[i as int] == c);
            one = false;
        }
        i += 1;
    }
    if one {
        let what = cat2(
            dec_text(first.0 as u64).as_str(),
            " connections per IP applied GLOBALLY — nginx scoped it per-location",
        );
        file(findings, Status::Partial, first.1, "limit_conn", what.as_str());
        return Some(first.0);
    }
    let mut i: usize = 0;
    while i < agg.conns.len()
        invariant
            i <= agg.conns.len(),
            text::views(findings@) == cap_conflicts(agg.conns@, i as nat, notes),
        decreases agg.conns.len() - i,
    {
        let c: (u32, u32) = agg.conns[i];
        let why = cat2(
            dec_text(c.0 as u64).as_str(),
            " per IP — multiple distinct caps exist and Zion has one global per-IP cap; none applied",
        );
        file(findings, Status::Unsupported, c.1, "limit_conn", why.as_str());
        i += 1;
    }
    None
}

pub fn finish_aggregates(
    agg: &Aggregates,
    model: &NginxModel,
    doc: &mut ZionDoc,
    findings: &mut Vec<Finding>,
)
    ensures
        (final(doc)@, text::views(final(findings)@)) == limits_doc(
            old(doc)@,
            agg@,
            model@,
            text::views(old(findings)@),
        ),
{
    let rate = global_rate(agg, findings);
    if rate.is_some() {
        doc.rate_limit = rate;
    }
    let cap = global_cap(agg, findings);
    if cap.is_some() {
        doc.max_conn_per_ip = cap;
    }
    let ghost n2 = text::views(findings@);
    let mut i: usize = 0;
    while i < model.req_zones.len()
        invariant
            i <= model.req_zones.len(),
            text::views(findings@) == unused_req_zones(model@, agg@, i as nat, n2),
        decreases model.req_zones.len() - i,
    {
        let z: &ReqZone = &model.req_zones[i];
        assert(model@.req_zones[i as int] == z@);
        if !text::list_has(&agg.used_zones, z.name.as_str()) {
            let why = cat3("zone '", z.name.as_str(), "' is never referenced — dropped");
            file(findings, Status::Auto, z.line, "limit_req_zone", why.as_str());
        }
        i += 1;
    }
    let ghost n3 = text::views(findings@);
    let mut i: usize = 0;
    while i < model.conn_zones.len()
        invariant
            i <= model.conn_zones.len(),
            text::views(findings@) == unused_conn_zones(model@, agg@, i as nat, n3),
        decreases model.conn_zones.len() - i,
    {
        let z: &ConnZone = &model.conn_zones[i];
        assert(model@.conn_zones[i as int] == z@);
        if !text::list_has(&agg.used_zones, z.name.as_str()) {
            let why = cat3("zone '", z.name.as_str(), "' is never referenced — dropped");
            file(findings, Status::Auto, z.line, "limit_conn_zone", why.as_str());
        }
        i += 1;
    }
}

} // verus!
