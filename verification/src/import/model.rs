//! Proxy-oriented intermediate model extracted from the nginx directive tree.
//!
//! Normalizes nginx's context rules (top level, `http{}`, `server{}`,
//! `location{}`) into flat structs the mapper can reason about, and files a
//! finding for every context it deliberately walks past.
use super::nginx::Directive;
use super::{file, nginx, Finding, Status};
use crate::text;
use crate::text::{begins_with, cat3, find_from, own_list, same, slice_of};
use crate::text::{parse_u32, parse_u64, strip_prefix, strip_suffix};
use vstd::prelude::*;

verus! {

broadcast use {crate::text::group_views, nginx::lemma_dir_view};

// ── Types ───────────────────────────────────────────────────────────────
/// Everything the mapper needs, flattened out of the directive tree.
#[derive(Debug)]
pub struct NginxModel {
    pub servers: Vec<Server>,
    pub pools: Vec<Pool>,
    /// `limit_req_zone` definitions.
    pub req_zones: Vec<ReqZone>,
    /// `limit_conn_zone` definitions.
    pub conn_zones: Vec<ConnZone>,
}

#[derive(Debug)]
pub struct ReqZone {
    pub name: String,
    pub key: String,
    pub rps: u32,
    pub window_secs: u64,
    pub line: u32,
}

#[derive(Debug)]
pub struct ConnZone {
    pub name: String,
    pub key: String,
    pub line: u32,
}

#[derive(Debug)]
pub struct Pool {
    pub name: String,
    pub servers: Vec<PoolServer>,
    pub keepalive: Option<u64>,
    /// Anything else inside `upstream{}` (`least_conn`, `zone`, …), kept for findings.
    pub extras: Vec<Directive>,
    pub line: u32,
}

#[derive(Debug)]
pub struct PoolServer {
    pub addr: String,
    pub flags: Vec<String>,
    pub line: u32,
}

#[derive(Debug)]
pub struct Server {
    pub line: u32,
    pub listens: Vec<Listen>,
    /// `server_name` args in order of appearance (may span several directives).
    pub names: Vec<String>,
    pub names_line: u32,
    pub locations: Vec<Location>,
    /// Server-level directives other than listen/server_name/location.
    pub directives: Vec<Directive>,
}

#[derive(Debug)]
pub struct Listen {
    /// The address part of the listen spec (first arg), e.g. `80`, `[::]:443`.
    pub addr: String,
    pub ssl: bool,
    pub default_server: bool,
    /// Non-address flags other than ssl/default_server (http2, reuseport, …).
    pub flags: Vec<String>,
    pub line: u32,
}

#[derive(Debug, Clone, Copy, PartialEq, Eq, Structural)]
pub enum LocMod {
    /// `location /p`
    Prefix,
    /// `location = /p`
    Exact,
    /// `location ~ regex` / `location ~* regex`
    Regex,
    /// `location ^~ /p`: prefix that suppresses regex matching.
    PrefixPriority,
}

#[derive(Debug)]
pub struct Location {
    pub line: u32,
    pub modifier: LocMod,
    pub pattern: String,
    pub directives: Vec<Directive>,
}

// ── What the types say ──────────────────────────────────────────────────
#[verifier::ext_equal]
pub struct ModelV {
    pub servers: Seq<ServerV>,
    pub pools: Seq<PoolV>,
    pub req_zones: Seq<ReqZoneV>,
    pub conn_zones: Seq<ConnZoneV>,
}

#[verifier::ext_equal]
pub struct ReqZoneV {
    pub name: Seq<char>,
    pub key: Seq<char>,
    pub rps: u32,
    pub window_secs: u64,
    pub line: int,
}

#[verifier::ext_equal]
pub struct ConnZoneV {
    pub name: Seq<char>,
    pub key: Seq<char>,
    pub line: int,
}

#[verifier::ext_equal]
pub struct PoolV {
    pub name: Seq<char>,
    pub servers: Seq<PoolServerV>,
    pub keepalive: Option<u64>,
    pub extras: Seq<nginx::Dir>,
    pub line: int,
}

#[verifier::ext_equal]
pub struct PoolServerV {
    pub addr: Seq<char>,
    pub flags: Seq<Seq<char>>,
    pub line: int,
}

#[verifier::ext_equal]
pub struct ServerV {
    pub line: int,
    pub listens: Seq<ListenV>,
    pub names: Seq<Seq<char>>,
    pub names_line: int,
    pub locations: Seq<LocationV>,
    pub directives: Seq<nginx::Dir>,
}

#[verifier::ext_equal]
pub struct ListenV {
    pub addr: Seq<char>,
    pub ssl: bool,
    pub default_server: bool,
    pub flags: Seq<Seq<char>>,
    pub line: int,
}

#[verifier::ext_equal]
pub struct LocationV {
    pub line: int,
    pub modifier: LocMod,
    pub pattern: Seq<char>,
    pub directives: Seq<nginx::Dir>,
}

impl View for NginxModel {
    type V = ModelV;

    open spec fn view(&self) -> ModelV {
        ModelV {
            servers: text::views(self.servers@),
            pools: text::views(self.pools@),
            req_zones: text::views(self.req_zones@),
            conn_zones: text::views(self.conn_zones@),
        }
    }
}

impl View for ReqZone {
    type V = ReqZoneV;

    open spec fn view(&self) -> ReqZoneV {
        ReqZoneV {
            name: self.name@,
            key: self.key@,
            rps: self.rps,
            window_secs: self.window_secs,
            line: self.line as int,
        }
    }
}

impl View for ConnZone {
    type V = ConnZoneV;

    open spec fn view(&self) -> ConnZoneV {
        ConnZoneV { name: self.name@, key: self.key@, line: self.line as int }
    }
}

impl View for Pool {
    type V = PoolV;

    open spec fn view(&self) -> PoolV {
        PoolV {
            name: self.name@,
            servers: text::views(self.servers@),
            keepalive: self.keepalive,
            extras: text::views(self.extras@),
            line: self.line as int,
        }
    }
}

impl View for PoolServer {
    type V = PoolServerV;

    open spec fn view(&self) -> PoolServerV {
        PoolServerV { addr: self.addr@, flags: text::views(self.flags@), line: self.line as int }
    }
}

impl View for Server {
    type V = ServerV;

    open spec fn view(&self) -> ServerV {
        ServerV {
            line: self.line as int,
            listens: text::views(self.listens@),
            names: text::views(self.names@),
            names_line: self.names_line as int,
            locations: text::views(self.locations@),
            directives: text::views(self.directives@),
        }
    }
}

impl View for Listen {
    type V = ListenV;

    open spec fn view(&self) -> ListenV {
        ListenV {
            addr: self.addr@,
            ssl: self.ssl,
            default_server: self.default_server,
            flags: text::views(self.flags@),
            line: self.line as int,
        }
    }
}

impl View for Location {
    type V = LocationV;

    open spec fn view(&self) -> LocationV {
        LocationV {
            line: self.line as int,
            modifier: self.modifier,
            pattern: self.pattern@,
            directives: text::views(self.directives@),
        }
    }
}

// ── Zones ───────────────────────────────────────────────────────────────
/// nginx rate spec: `20r/s` or `5r/m`, as (requests, window seconds).
pub open spec fn rate_of(s: Seq<char>) -> Option<(u32, u64)> {
    match text::strip_suffix_of(s, "r/s"@) {
        Some(n) => match text::parse_dec(n, u32::MAX as nat) {
            Some(k) => Some((k as u32, 1)),
            None => None,
        },
        None => match text::strip_suffix_of(s, "r/m"@) {
            Some(n) => match text::parse_dec(n, u32::MAX as nat) {
                Some(k) => Some((k as u32, 60)),
                None => None,
            },
            None => None,
        },
    }
}

pub fn parse_rate(spec_text: &str) -> (r: Option<(u32, u64)>)
    ensures
        r == rate_of(spec_text@),
{
    match strip_suffix(spec_text, "r/s") {
        Some(n) => match parse_u32(n.as_str()) {
            Some(k) => Some((k, 1)),
            None => None,
        },
        None => match strip_suffix(spec_text, "r/m") {
            Some(n) => match parse_u32(n.as_str()) {
                Some(k) => Some((k, 60)),
                None => None,
            },
            None => None,
        },
    }
}

/// The part of a text before its first `:`.
pub open spec fn before_colon(s: Seq<char>) -> Seq<char> {
    s.subrange(0, text::index_of(s, ':', 0))
}

fn until_colon(s: &str) -> (r: String)
    ensures
        r@ == before_colon(s@),
{
    let v = text::chars_of(s);
    let i: usize = find_from(&v, ':', 0);
    slice_of(&v, 0, i)
}

/// What the arguments of a zone definition say.
pub struct ZoneArgs {
    pub key: Seq<char>,
    pub name: Option<Seq<char>>,
    pub rate: Option<(u32, u64)>,
}

/// The zone definition by its first `n` arguments; a later argument overrides
/// an earlier one. Only a request zone has a rate.
pub open spec fn zone_args(args: Seq<Seq<char>>, n: nat, rated: bool) -> ZoneArgs
    decreases n,
{
    if n == 0 {
        ZoneArgs { key: ""@, name: None, rate: None }
    } else {
        let z = zone_args(args, (n - 1) as nat, rated);
        let a = args[n - 1];
        match text::strip_prefix_of(a, "zone="@) {
            Some(v) => ZoneArgs { name: Some(before_colon(v)), ..z },
            None => match text::strip_prefix_of(a, "rate="@) {
                Some(v) if rated => ZoneArgs { rate: rate_of(v), ..z },
                _ => if text::begins(a, '$') {
                    ZoneArgs { key: a, ..z }
                } else {
                    z
                },
            },
        }
    }
}

struct ZoneParts {
    key: String,
    name: Option<String>,
    rate: Option<(u32, u64)>,
}

fn read_zone_args(args: &Vec<String>, rated: bool) -> (r: ZoneParts)
    ensures
        ({
            let z = zone_args(text::views(args@), args@.len(), rated);
            r.key@ == z.key && text::opt(r.name) == z.name && r.rate == z.rate
        }),
{
    let mut key = "".to_owned();
    let mut name: Option<String> = None;
    let mut rate: Option<(u32, u64)> = None;
    let mut i: usize = 0;
    while i < args.len()
        invariant
            i <= args.len(),
            ({
                let z = zone_args(text::views(args@), i as nat, rated);
                key@ == z.key && text::opt(name) == z.name && rate == z.rate
            }),
        decreases args.len() - i,
    {
        let a: &str = args[i].as_str();
        match strip_prefix(a, "zone=") {
            Some(v) => {
                name = Some(until_colon(v.as_str()));
            },
            None => match strip_prefix(a, "rate=") {
                Some(v) if rated => {
                    rate = parse_rate(v.as_str());
                },
                _ => {
                    if begins_with(a, '$') {
                        key = a.to_owned();
                    }
                },
            },
        }
        i += 1;
    }
    ZoneParts { key, name, rate }
}

// ── Extraction ──────────────────────────────────────────────────────────
/// The model so far and the notes filed so far.
pub struct Extracted {
    pub model: ModelV,
    pub notes: Seq<super::Note>,
}

/// `e` with one more note.
pub open spec fn noted(e: Extracted, n: super::Note) -> Extracted {
    Extracted { notes: e.notes.push(n), ..e }
}

/// `limit_req_zone $binary_remote_addr zone=api:10m rate=20r/s;`
pub open spec fn req_zone_of(e: Extracted, d: nginx::Dir) -> Extracted {
    let z = zone_args(d.args, d.args.len(), true);
    match (z.name, z.rate) {
        (Some(name), Some((rps, window_secs))) => Extracted {
            model: ModelV {
                req_zones: e.model.req_zones.push(
                    ReqZoneV { name, key: z.key, rps, window_secs, line: d.line },
                ),
                ..e.model
            },
            ..e
        },
        _ => noted(
            e,
            super::note(
                Status::Unsupported,
                d.line,
                "limit_req_zone"@,
                "could not parse zone name / rate"@,
            ),
        ),
    }
}

fn extract_req_zone(d: &Directive, model: &mut NginxModel, findings: &mut Vec<Finding>)
    ensures
        extracted(final(model), final(findings)) == req_zone_of(
            extracted(old(model), old(findings)),
            d@,
        ),
{
    let z = read_zone_args(&d.args, true);
    match (z.name, z.rate) {
        (Some(name), Some((rps, window_secs))) => {
            model.req_zones.push(ReqZone { name, key: z.key, rps, window_secs, line: d.line });
        },
        _ => {
            file(
                findings,
                Status::Unsupported,
                d.line,
                "limit_req_zone",
                "could not parse zone name / rate",
            );
        },
    }
}

/// `limit_conn_zone $binary_remote_addr zone=peraddr:10m;`
pub open spec fn conn_zone_of(e: Extracted, d: nginx::Dir) -> Extracted {
    let z = zone_args(d.args, d.args.len(), false);
    match z.name {
        Some(name) => Extracted {
            model: ModelV {
                conn_zones: e.model.conn_zones.push(
                    ConnZoneV { name, key: z.key, line: d.line },
                ),
                ..e.model
            },
            ..e
        },
        None => noted(
            e,
            super::note(
                Status::Unsupported,
                d.line,
                "limit_conn_zone"@,
                "could not parse zone name"@,
            ),
        ),
    }
}

fn extract_conn_zone(d: &Directive, model: &mut NginxModel, findings: &mut Vec<Finding>)
    ensures
        extracted(final(model), final(findings)) == conn_zone_of(
            extracted(old(model), old(findings)),
            d@,
        ),
{
    let z = read_zone_args(&d.args, false);
    match z.name {
        Some(name) => {
            model.conn_zones.push(ConnZone { name, key: z.key, line: d.line });
        },
        None => {
            file(
                findings,
                Status::Unsupported,
                d.line,
                "limit_conn_zone",
                "could not parse zone name",
            );
        },
    }
}

pub open spec fn extracted(model: &NginxModel, findings: &Vec<Finding>) -> Extracted {
    Extracted { model: model@, notes: text::views(findings@) }
}

/// The pool by the first `n` directives of its block, and the notes on them.
pub open spec fn pool_members(
    block: Seq<nginx::Dir>,
    n: nat,
    pool: PoolV,
    notes: Seq<super::Note>,
) -> (PoolV, Seq<super::Note>)
    decreases n,
{
    if n == 0 {
        (pool, notes)
    } else {
        let (p, f) = pool_members(block, (n - 1) as nat, pool, notes);
        let d = block[n - 1];
        if d.name == "server"@ && d.args.len() > 0 {
            let s = PoolServerV {
                addr: d.args[0],
                flags: d.args.subrange(1, d.args.len() as int),
                line: d.line,
            };
            (PoolV { servers: p.servers.push(s), ..p }, f)
        } else if d.name == "keepalive"@ {
            let k = if d.args.len() > 0 {
                text::parse_dec(d.args[0], u64::MAX as nat)
            } else {
                None
            };
            match k {
                Some(k) => (PoolV { keepalive: Some(k as u64), ..p }, f),
                None => (
                    PoolV { keepalive: None, ..p },
                    f.push(
                        super::note(
                            Status::Unsupported,
                            d.line,
                            "keepalive"@,
                            "could not parse connection count"@,
                        ),
                    ),
                ),
            }
        } else {
            (PoolV { extras: p.extras.push(d), ..p }, f)
        }
    }
}

/// `upstream <name> { … }`
pub open spec fn pool_of(e: Extracted, d: nginx::Dir) -> Extracted {
    if d.args.len() > 0 && d.block is Some {
        let empty = PoolV {
            name: d.args[0],
            servers: seq![],
            keepalive: None,
            extras: seq![],
            line: d.line,
        };
        let (p, f) = pool_members(d.block->0, d.block->0.len(), empty, e.notes);
        Extracted { model: ModelV { pools: e.model.pools.push(p), ..e.model }, notes: f }
    } else {
        noted(
            e,
            super::note(
                Status::Unsupported,
                d.line,
                "upstream"@,
                "expected `upstream <name> { … }`"@,
            ),
        )
    }
}

/// A copy of the arguments behind the first.
fn rest_of(args: &Vec<String>) -> (r: Vec<String>)
    requires
        args.len() > 0,
    ensures
        text::views(r@) == text::views(args@).subrange(1, args@.len() as int),
{
    let mut out: Vec<String> = Vec::new();
    let mut i: usize = 1;
    while i < args.len()
        invariant
            1 <= i <= args.len(),
            text::views(out@) == text::views(args@).subrange(1, i as int),
        decreases args.len() - i,
    {
        out.push(args[i].clone());
        assert(text::views(out@) =~= text::views(args@).subrange(1, i + 1));
        i += 1;
    }
    out
}

fn extract_pool(d: Directive, model: &mut NginxModel, findings: &mut Vec<Finding>)
    ensures
        extracted(final(model), final(findings)) == pool_of(
            extracted(old(model), old(findings)),
            d@,
        ),
{
    let line: u32 = d.line;
    let ghost dv = d@;
    let ghost notes = text::views(findings@);
    if d.args.len() == 0 {
        file(findings, Status::Unsupported, line, "upstream", "expected `upstream <name> { … }`");
        return;
    }
    let block = match d.block {
        Some(b) => b,
        None => {
            file(
                findings,
                Status::Unsupported,
                line,
                "upstream",
                "expected `upstream <name> { … }`",
            );
            return;
        },
    };
    let mut pool = Pool {
        name: d.args[0].clone(),
        servers: Vec::new(),
        keepalive: None,
        extras: Vec::new(),
        line,
    };
    let ghost empty = pool@;
    let ghost bv = text::views(block@);
    assert(empty.servers =~= seq![] && empty.extras =~= seq![]);
    for child in it: block
        invariant
            it.seq() == block@,
            bv == text::views(block@),
            (pool@, text::views(findings@)) == pool_members(bv, it.index() as nat, empty, notes),
    {
        let ghost n = it.index() as int;
        assert(bv[n] == child@);
        if same(child.name.as_str(), "server") && child.args.len() > 0 {
            let s = PoolServer {
                addr: child.args[0].clone(),
                flags: rest_of(&child.args),
                line: child.line,
            };
            pool.servers.push(s);
        } else if same(child.name.as_str(), "keepalive") {
            pool.keepalive = if child.args.len() > 0 {
                parse_u64(child.args[0].as_str(), u64::MAX)
            } else {
                None
            };
            if pool.keepalive.is_none() {
                file(
                    findings,
                    Status::Unsupported,
                    child.line,
                    "keepalive",
                    "could not parse connection count",
                );
            }
        } else {
            pool.extras.push(child);
        }
    }
    model.pools.push(pool);
}

/// The `listen` directive by its first `n` arguments (the first is the address).
pub open spec fn listen_of(d: nginx::Dir, n: nat) -> ListenV
    decreases n,
{
    if n <= 1 {
        ListenV {
            addr: d.args[0],
            ssl: false,
            default_server: false,
            flags: seq![],
            line: d.line,
        }
    } else {
        let l = listen_of(d, (n - 1) as nat);
        let a = d.args[n - 1];
        if a == "ssl"@ {
            ListenV { ssl: true, ..l }
        } else if a == "default_server"@ || a == "default"@ {
            ListenV { default_server: true, ..l }
        } else {
            ListenV { flags: l.flags.push(a), ..l }
        }
    }
}

fn read_listen(d: &Directive) -> (r: Listen)
    requires
        d.args.len() > 0,
    ensures
        r@ == listen_of(d@, d@.args.len()),
{
    let mut l = Listen {
        addr: d.args[0].clone(),
        ssl: false,
        default_server: false,
        flags: Vec::new(),
        line: d.line,
    };
    let mut i: usize = 1;
    assert(l@.flags =~= seq![]);
    while i < d.args.len()
        invariant
            1 <= i <= d.args.len(),
            l@ == listen_of(d@, i as nat),
        decreases d.args.len() - i,
    {
        let a: &str = d.args[i].as_str();
        if same(a, "ssl") {
            l.ssl = true;
        } else if same(a, "default_server") || same(a, "default") {
            l.default_server = true;
        } else {
            l.flags.push(a.to_owned());
        }
        i += 1;
    }
    l
}

/// The first `n` directives of a location block, without the nested locations.
pub open spec fn own_directives(
    block: Seq<nginx::Dir>,
    n: nat,
    notes: Seq<super::Note>,
) -> (Seq<nginx::Dir>, Seq<super::Note>)
    decreases n,
{
    if n == 0 {
        (seq![], notes)
    } else {
        let (ds, f) = own_directives(block, (n - 1) as nat, notes);
        let d = block[n - 1];
        if d.name == "location"@ {
            (
                ds,
                f.push(
                    super::note(
                        Status::Unsupported,
                        d.line,
                        "location"@,
                        "nested locations are not supported — flatten them"@,
                    ),
                ),
            )
        } else {
            (ds.push(d), f)
        }
    }
}

/// The modifier that stands before a location's pattern.
pub open spec fn modifier_of(s: Seq<char>) -> Option<LocMod> {
    if s == "="@ {
        Some(LocMod::Exact)
    } else if s == "~"@ || s == "~*"@ {
        Some(LocMod::Regex)
    } else if s == "^~"@ {
        Some(LocMod::PrefixPriority)
    } else {
        None
    }
}

fn read_modifier(s: &str) -> (r: Option<LocMod>)
    ensures
        r == modifier_of(s@),
{
    if same(s, "=") {
        Some(LocMod::Exact)
    } else if same(s, "~") || same(s, "~*") {
        Some(LocMod::Regex)
    } else if same(s, "^~") {
        Some(LocMod::PrefixPriority)
    } else {
        None
    }
}

/// The location a directive defines, or the note on why it defines none.
pub open spec fn location_of(d: nginx::Dir, notes: Seq<super::Note>) -> (
    Option<LocationV>,
    Seq<super::Note>,
) {
    let refused = |why: Seq<char>|
        (
            None::<LocationV>,
            notes.push(super::note(Status::Unsupported, d.line, "location"@, why)),
        );
    if d.block is None {
        refused("expected a block"@)
    } else if d.args.len() == 1 || d.args.len() == 2 {
        let modifier = if d.args.len() == 1 {
            Some(LocMod::Prefix)
        } else {
            modifier_of(d.args[0])
        };
        match modifier {
            None => refused("unknown modifier '"@ + d.args[0] + "'"@),
            Some(modifier) => {
                let (directives, f) = own_directives(d.block->0, d.block->0.len(), notes);
                (
                    Some(
                        LocationV {
                            line: d.line,
                            modifier,
                            pattern: d.args[d.args.len() - 1],
                            directives,
                        },
                    ),
                    f,
                )
            },
        }
    } else {
        refused("expected `location [modifier] <pattern> { … }`"@)
    }
}

pub open spec fn opt_location(l: Option<Location>) -> Option<LocationV> {
    match l {
        Some(l) => Some(l@),
        None => None,
    }
}

fn extract_location(d: Directive, findings: &mut Vec<Finding>) -> (r: Option<Location>)
    ensures
        (opt_location(r), text::views(final(findings)@)) == location_of(
            d@,
            text::views(old(findings)@),
        ),
{
    let line: u32 = d.line;
    let ghost dv = d@;
    let ghost notes = text::views(findings@);
    let block = match d.block {
        Some(b) => b,
        None => {
            file(findings, Status::Unsupported, line, "location", "expected a block");
            return None;
        },
    };
    let (modifier, pattern) = if d.args.len() == 1 {
        (LocMod::Prefix, d.args[0].clone())
    } else if d.args.len() == 2 {
        match read_modifier(d.args[0].as_str()) {
            Some(m) => (m, d.args[1].clone()),
            None => {
                let why = cat3("unknown modifier '", d.args[0].as_str(), "'");
                file(findings, Status::Unsupported, line, "location", why.as_str());
                return None;
            },
        }
    } else {
        file(
            findings,
            Status::Unsupported,
            line,
            "location",
            "expected `location [modifier] <pattern> { … }`",
        );
        return None;
    };
    let mut directives: Vec<Directive> = Vec::new();
    let ghost bv = text::views(block@);
    assert(text::views(directives@) =~= seq![]);
    for child in it: block
        invariant
            it.seq() == block@,
            bv == text::views(block@),
            (text::views(directives@), text::views(findings@)) == own_directives(
                bv,
                it.index() as nat,
                notes,
            ),
    {
        assert(bv[it.index() as int] == child@);
        if same(child.name.as_str(), "location") {
            file(
                findings,
                Status::Unsupported,
                child.line,
                "location",
                "nested locations are not supported — flatten them",
            );
        } else {
            directives.push(child);
        }
    }
    Some(Location { line, modifier, pattern, directives })
}

/// The server by the first `n` directives of its block, and the notes on them.
pub open spec fn server_of(
    block: Seq<nginx::Dir>,
    n: nat,
    line: int,
    notes: Seq<super::Note>,
) -> (ServerV, Seq<super::Note>)
    decreases n,
{
    if n == 0 {
        (
            ServerV {
                line,
                listens: seq![],
                names: seq![],
                names_line: line,
                locations: seq![],
                directives: seq![],
            },
            notes,
        )
    } else {
        let (s, f) = server_of(block, (n - 1) as nat, line, notes);
        let d = block[n - 1];
        if d.name == "listen"@ {
            if d.args.len() == 0 {
                (
                    s,
                    f.push(
                        super::note(
                            Status::Unsupported,
                            d.line,
                            "listen"@,
                            "missing address"@,
                        ),
                    ),
                )
            } else {
                (ServerV { listens: s.listens.push(listen_of(d, d.args.len())), ..s }, f)
            }
        } else if d.name == "server_name"@ {
            (ServerV { names: s.names + d.args, names_line: d.line, ..s }, f)
        } else if d.name == "location"@ {
            match location_of(d, f) {
                (Some(l), f2) => (ServerV { locations: s.locations.push(l), ..s }, f2),
                (None, f2) => (s, f2),
            }
        } else {
            (ServerV { directives: s.directives.push(d), ..s }, f)
        }
    }
}

fn extract_server(block: Vec<Directive>, line: u32, findings: &mut Vec<Finding>) -> (r: Server)
    ensures
        (r@, text::views(final(findings)@)) == server_of(
            text::views(block@),
            block@.len(),
            line as int,
            text::views(old(findings)@),
        ),
{
    let ghost notes = text::views(findings@);
    let ghost bv = text::views(block@);
    let mut server = Server {
        line,
        listens: Vec::new(),
        names: Vec::new(),
        names_line: line,
        locations: Vec::new(),
        directives: Vec::new(),
    };
    assert(server@ =~= server_of(bv, 0, line as int, notes).0);
    for d in it: block
        invariant
            it.seq() == block@,
            bv == text::views(block@),
            (server@, text::views(findings@)) == server_of(
                bv,
                it.index() as nat,
                line as int,
                notes,
            ),
    {
        let ghost before = server@;
        assert(bv[it.index() as int] == d@);
        if same(d.name.as_str(), "listen") {
            if d.args.len() == 0 {
                file(findings, Status::Unsupported, d.line, "listen", "missing address");
            } else {
                server.listens.push(read_listen(&d));
            }
        } else if same(d.name.as_str(), "server_name") {
            server.names_line = d.line;
            let mut more = own_list(&d.args);
            server.names.append(&mut more);
            assert(server@.names =~= before.names + d@.args);
        } else if same(d.name.as_str(), "location") {
            match extract_location(d, findings) {
                Some(l) => {
                    server.locations.push(l);
                },
                None => {},
            }
        } else {
            server.directives.push(d);
        }
    }
    server
}

/// Directives of nginx's own process management.
pub open spec fn process_directive(name: Seq<char>) -> bool {
    ||| name == "events"@
    ||| name == "worker_processes"@
    ||| name == "worker_rlimit_nofile"@
    ||| name == "user"@
    ||| name == "pid"@
    ||| name == "daemon"@
    ||| name == "master_process"@
}

fn is_process_directive(name: &str) -> (r: bool)
    ensures
        r == process_directive(name@),
{
    same(name, "events") || same(name, "worker_processes") || same(name, "worker_rlimit_nofile") || same(
        name,
        "user",
    ) || same(name, "pid") || same(name, "daemon") || same(name, "master_process")
}

/// Directives that are supported inside `server{}` and `location{}`; what
/// nginx inherits from `http{}` downward is not modeled.
pub open spec fn inherited_directive(name: Seq<char>) -> bool {
    ||| name == "client_max_body_size"@
    ||| name == "proxy_connect_timeout"@
    ||| name == "proxy_set_header"@
    ||| name == "add_header"@
    ||| name == "limit_req"@
    ||| name == "limit_conn"@
    ||| name == "set_real_ip_from"@
    ||| name == "real_ip_header"@
    ||| name == "ssl_certificate"@
    ||| name == "ssl_certificate_key"@
    ||| name == "ssl_protocols"@
    ||| name == "proxy_http_version"@
}

fn is_inherited_directive(name: &str) -> (r: bool)
    ensures
        r == inherited_directive(name@),
{
    same(name, "client_max_body_size") || same(name, "proxy_connect_timeout") || same(
        name,
        "proxy_set_header",
    ) || same(name, "add_header") || same(name, "limit_req") || same(name, "limit_conn") || same(
        name,
        "set_real_ip_from",
    ) || same(name, "real_ip_header") || same(name, "ssl_certificate") || same(
        name,
        "ssl_certificate_key",
    ) || same(name, "ssl_protocols") || same(name, "proxy_http_version")
}

/// A top-level directive other than an `http` block.
pub open spec fn top_directive(e: Extracted, d: nginx::Dir) -> Extracted {
    if d.name == "http"@ {
        noted(e, super::note(Status::Unsupported, d.line, "http"@, "expected a block"@))
    } else if d.name == "server"@ {
        match d.block {
            Some(b) => {
                let (s, f) = server_of(b, b.len(), d.line, e.notes);
                Extracted {
                    model: ModelV { servers: e.model.servers.push(s), ..e.model },
                    notes: f,
                }
            },
            None => noted(
                e,
                super::note(Status::Unsupported, d.line, "server"@, "expected a block"@),
            ),
        }
    } else if d.name == "upstream"@ {
        pool_of(e, d)
    } else if d.name == "limit_req_zone"@ {
        req_zone_of(e, d)
    } else if d.name == "limit_conn_zone"@ {
        conn_zone_of(e, d)
    } else if process_directive(d.name) {
        noted(
            e,
            super::note(
                Status::Auto,
                d.line,
                d.name,
                "nginx process management — Zion manages its own runtime"@,
            ),
        )
    } else if inherited_directive(d.name) {
        noted(
            e,
            super::note(
                Status::Unsupported,
                d.line,
                d.name,
                "supported inside server{} — http-level inheritance is not implemented; move it into the server block(s)"@,
            ),
        )
    } else {
        noted(e, super::unsupported_note(d))
    }
}

/// The model behind the first `n` directives. Top level and `http{}` share the
/// same children: configurations come as full files and as fragments.
pub open spec fn walk(items: Seq<nginx::Dir>, n: nat, e: Extracted) -> Extracted
    decreases items, n,
{
    if n == 0 || n > items.len() {
        e
    } else {
        let prev = walk(items, (n - 1) as nat, e);
        let d = items[n - 1];
        if d.name == "http"@ && d.block is Some {
            walk(d.block->0, d.block->0.len(), prev)
        } else {
            top_directive(prev, d)
        }
    }
}

fn walk_top(items: Vec<Directive>, model: &mut NginxModel, findings: &mut Vec<Finding>)
    ensures
        extracted(final(model), final(findings)) == walk(
            text::views(items@),
            items@.len(),
            extracted(old(model), old(findings)),
        ),
    decreases items,
{
    let ghost start = extracted(model, findings);
    let ghost iv = text::views(items@);
    for d in it: items
        invariant
            it.seq() == items@,
            iv == text::views(items@),
            extracted(model, findings) == walk(iv, it.index() as nat, start),
    {
        assert(d == items@[it.index() as int]);
        assert(iv[it.index() as int] == d@);
        let name = d.name.clone();
        let line: u32 = d.line;
        if same(name.as_str(), "http") {
            match d.block {
                Some(block) => {
                    walk_top(block, model, findings);
                },
                None => {
                    file(findings, Status::Unsupported, line, "http", "expected a block");
                },
            }
        } else if same(name.as_str(), "server") {
            match d.block {
                Some(block) => {
                    let s = extract_server(block, line, findings);
                    model.servers.push(s);
                },
                None => {
                    file(findings, Status::Unsupported, line, "server", "expected a block");
                },
            }
        } else if same(name.as_str(), "upstream") {
            extract_pool(d, model, findings);
        } else if same(name.as_str(), "limit_req_zone") {
            extract_req_zone(&d, model, findings);
        } else if same(name.as_str(), "limit_conn_zone") {
            extract_conn_zone(&d, model, findings);
        } else if is_process_directive(name.as_str()) {
            file(
                findings,
                Status::Auto,
                line,
                name.as_str(),
                "nginx process management — Zion manages its own runtime",
            );
        } else if is_inherited_directive(name.as_str()) {
            file(
                findings,
                Status::Unsupported,
                line,
                name.as_str(),
                "supported inside server{} — http-level inheritance is not implemented; move it into the server block(s)",
            );
        } else {
            findings.push(Finding::unsupported_directive(&d));
        }
    }
}

pub open spec fn empty_model() -> ModelV {
    ModelV { servers: seq![], pools: seq![], req_zones: seq![], conn_zones: seq![] }
}

/// The model of a directive tree, with the notes on what the walk passed by.
pub open spec fn extract_of(ast: Seq<nginx::Dir>, notes: Seq<super::Note>) -> Extracted {
    walk(ast, ast.len(), Extracted { model: empty_model(), notes })
}

/// Walks the parsed tree and builds the model.
pub fn extract(ast: Vec<Directive>, findings: &mut Vec<Finding>) -> (r: NginxModel)
    ensures
        extracted(&r, final(findings)) == extract_of(
            text::views(ast@),
            text::views(old(findings)@),
        ),
{
    let mut model = NginxModel {
        servers: Vec::new(),
        pools: Vec::new(),
        req_zones: Vec::new(),
        conn_zones: Vec::new(),
    };
    assert(model@ =~= empty_model());
    walk_top(ast, &mut model, findings);
    model
}

} // verus!
