//! From the configuration to what the request pipeline reads.
use crate::proxy;
use crate::proxy::XffMode;
use crate::server::boot;
use crate::server::boot::{Level, LogLine};
use crate::text;
use crate::text::{cat2, cat3, cat4, cat5, cat7, dec_text, own, same};
use fnv::FnvHashMap;
use vstd::prelude::*;

verus! {

broadcast use crate::text::group_views;

// ── Outside items ───────────────────────────────────────────────────────
/// `fnv::FnvHasher`, the hash function of the index.
#[verifier::external_type_specification]
#[verifier::external_body]
pub struct ExFnvHasher(fnv::FnvHasher);

/// `std::hash::BuildHasherDefault`, which makes a fresh hasher for each key.
#[verifier::external_type_specification]
#[verifier::external_body]
#[verifier::reject_recursive_types(H)]
pub struct ExBuildHasherDefault<H>(std::hash::BuildHasherDefault<H>);

/// What an index holds: the slot of each URL.
pub uninterp spec fn slots(m: FnvHashMap<String, usize>) -> Map<Seq<char>, usize>;

pub open spec fn no_slots() -> Map<Seq<char>, usize> {
    Map::empty()
}

/// `FnvHashMap::default` makes an empty map.
#[verifier::external_body]
fn new_index() -> (r: FnvHashMap<String, usize>)
    ensures
        slots(r) == no_slots(),
{
    FnvHashMap::default()
}

pub open spec fn slot_or(m: Map<Seq<char>, usize>, url: Seq<char>, fresh: usize) -> usize {
    if m.dom().contains(url) {
        m[url]
    } else {
        fresh
    }
}

/// `HashMap::entry` with `or_insert` gives the value of a key, and sets it
/// first where the key is new.
#[verifier::external_body]
fn slot_of_url(m: &mut FnvHashMap<String, usize>, url: &str, fresh: usize) -> (r: usize)
    ensures
        r == slot_or(slots(*old(m)), url@, fresh),
        slots(*final(m)) == slots(*old(m)).insert(url@, r),
{
    *m.entry(url.to_string()).or_insert(fresh)
}

/// How `std` shows a list of texts for debugging.
pub uninterp spec fn debug_list(v: Seq<Seq<char>>) -> Seq<char>;

/// `{:?}` of a list of texts. How it quotes them is named, not stated.
#[verifier::external_body]
fn shown_list(v: &Vec<String>) -> (r: String)
    ensures
        r@ == debug_list(text::views(v@)),
{
    format!("{:?}", v)
}

// ── Configuration ───────────────────────────────────────────────────────
/// An upstream with several servers.
#[derive(Debug)]
pub struct Pool {
    pub name: String,
    pub urls: Vec<String>,
}

#[verifier::ext_equal]
pub struct PoolV {
    pub name: Seq<char>,
    pub urls: Seq<Seq<char>>,
}

impl View for Pool {
    type V = PoolV;

    open spec fn view(&self) -> PoolV {
        PoolV { name: self.name@, urls: text::views(self.urls@) }
    }
}

/// An upstream with one server.
#[derive(Debug)]
pub struct Single {
    pub name: String,
    pub url: String,
}

#[verifier::ext_equal]
pub struct SingleV {
    pub name: Seq<char>,
    pub url: Seq<char>,
}

impl View for Single {
    type V = SingleV;

    open spec fn view(&self) -> SingleV {
        SingleV { name: self.name@, url: self.url@ }
    }
}

/// A listen address: the text that the parsed address prints, so that one
/// address has one text. Where what is written is no address, that text as it
/// stands, and what is wrong with it.
#[derive(Debug)]
pub struct Listen {
    pub text: String,
    pub fault: Option<String>,
}

#[verifier::ext_equal]
pub struct ListenV {
    pub text: Seq<char>,
    pub fault: Option<Seq<char>>,
}

impl View for Listen {
    type V = ListenV;

    open spec fn view(&self) -> ListenV {
        ListenV { text: self.text@, fault: text::opt(self.fault) }
    }
}

/// How sources that a policy flags are held up.
#[derive(Debug, Clone, Copy, PartialEq, Eq, Structural)]
pub struct Tarpit {
    pub enabled: bool,
    pub max_concurrent: u32,
    pub hold_secs: u64,
}

/// The policy on classes of source addresses.
#[derive(Debug)]
pub struct Enforce {
    pub enabled: bool,
    /// The labels to deny that name no class.
    pub unknown_labels: Vec<String>,
    /// The labels of the classes.
    pub known_labels: Vec<String>,
    pub tarpit: Tarpit,
}

#[verifier::ext_equal]
pub struct EnforceV {
    pub enabled: bool,
    pub unknown_labels: Seq<Seq<char>>,
    pub known_labels: Seq<Seq<char>>,
    pub tarpit: Tarpit,
}

impl View for Enforce {
    type V = EnforceV;

    open spec fn view(&self) -> EnforceV {
        EnforceV {
            enabled: self.enabled,
            unknown_labels: text::views(self.unknown_labels@),
            known_labels: text::views(self.known_labels@),
            tarpit: self.tarpit,
        }
    }
}

/// What the configuration says.
#[derive(Debug)]
pub struct Settings {
    /// Why no router can be built for the routes.
    pub router_fault: Option<String>,
    /// The name of each route's upstream.
    pub route_upstreams: Vec<String>,
    pub pools: Vec<Pool>,
    pub singles: Vec<Single>,
    pub trusted_proxies: Vec<String>,
    pub xff_mode: String,
    pub listen_http: Listen,
    pub listen_https: Listen,
    pub rate_limit_rps: u32,
    pub rate_limit_window: u64,
    /// `None` asks for the default, 0 for no cap.
    pub max_connections_per_ip: Option<u32>,
    /// The region by which addresses are classified, where they are.
    pub region: Option<String>,
    pub log_classification: bool,
    pub enforce: Enforce,
}

#[verifier::ext_equal]
pub struct SettingsV {
    pub router_fault: Option<Seq<char>>,
    pub route_upstreams: Seq<Seq<char>>,
    pub pools: Seq<PoolV>,
    pub singles: Seq<SingleV>,
    pub trusted_proxies: Seq<Seq<char>>,
    pub xff_mode: Seq<char>,
    pub listen_http: ListenV,
    pub listen_https: ListenV,
    pub rate_limit_rps: u32,
    pub rate_limit_window: u64,
    pub max_connections_per_ip: Option<u32>,
    pub region: Option<Seq<char>>,
    pub log_classification: bool,
    pub enforce: EnforceV,
}

impl View for Settings {
    type V = SettingsV;

    open spec fn view(&self) -> SettingsV {
        SettingsV {
            router_fault: text::opt(self.router_fault),
            route_upstreams: text::views(self.route_upstreams@),
            pools: text::views(self.pools@),
            singles: text::views(self.singles@),
            trusted_proxies: text::views(self.trusted_proxies@),
            xff_mode: self.xff_mode@,
            listen_http: self.listen_http@,
            listen_https: self.listen_https@,
            rate_limit_rps: self.rate_limit_rps,
            rate_limit_window: self.rate_limit_window,
            max_connections_per_ip: self.max_connections_per_ip,
            region: text::opt(self.region),
            log_classification: self.log_classification,
            enforce: self.enforce@,
        }
    }
}

// ── Upstreams to watch ──────────────────────────────────────────────────
/// The place of the first pool with a name, from `i` on; the number of pools
/// where there is none.
pub open spec fn pool_at(pools: Seq<PoolV>, name: Seq<char>, i: nat) -> nat
    decreases pools.len() - i,
{
    if i >= pools.len() {
        pools.len()
    } else if pools[i as int].name == name {
        i
    } else {
        pool_at(pools, name, i + 1)
    }
}

pub open spec fn single_at(singles: Seq<SingleV>, name: Seq<char>, i: nat) -> nat
    decreases singles.len() - i,
{
    if i >= singles.len() {
        singles.len()
    } else if singles[i as int].name == name {
        i
    } else {
        single_at(singles, name, i + 1)
    }
}

/// The URLs of an upstream; none where no upstream has the name.
pub open spec fn urls_of(pools: Seq<PoolV>, singles: Seq<SingleV>, name: Seq<char>) -> Seq<
    Seq<char>,
> {
    let p = pool_at(pools, name, 0);
    let s = single_at(singles, name, 0);
    if p < pools.len() {
        pools[p as int].urls
    } else if s < singles.len() {
        seq![singles[s as int].url]
    } else {
        seq![]
    }
}

/// The URLs with one more, unless it is there.
pub open spec fn with_url(seen: Seq<Seq<char>>, url: Seq<char>) -> Seq<Seq<char>> {
    if seen.contains(url) {
        seen
    } else {
        seen.push(url)
    }
}

pub open spec fn with_urls(seen: Seq<Seq<char>>, urls: Seq<Seq<char>>, n: nat) -> Seq<Seq<char>>
    decreases n,
{
    if n == 0 {
        seen
    } else {
        with_url(with_urls(seen, urls, (n - 1) as nat), urls[n - 1])
    }
}

/// The URLs to which the first `n` routes lead, each once.
pub open spec fn watched(s: SettingsV, n: nat) -> Seq<Seq<char>>
    decreases n,
{
    if n == 0 {
        seq![]
    } else {
        let urls = urls_of(s.pools, s.singles, s.route_upstreams[n - 1]);
        with_urls(watched(s, (n - 1) as nat), urls, urls.len())
    }
}

/// The index has a slot for each URL, and no other.
pub open spec fn indexes(m: Map<Seq<char>, usize>, urls: Seq<Seq<char>>) -> bool {
    &&& forall|u: Seq<char>| #[trigger] m.dom().contains(u) <==> urls.contains(u)
    &&& forall|u: Seq<char>| #[trigger] m.dom().contains(u) ==> m[u] < urls.len()
}

fn watch_url(index: &mut FnvHashMap<String, usize>, urls: &mut Vec<String>, url: &str)
    requires
        indexes(slots(*old(index)), text::views(old(urls)@)),
    ensures
        text::views(final(urls)@) == with_url(text::views(old(urls)@), url@),
        indexes(slots(*final(index)), text::views(final(urls)@)),
{
    let ghost seen = text::views(urls@);
    let ghost before = slots(*index);
    let fresh: usize = urls.len();
    let slot: usize = slot_of_url(index, url, fresh);
    if slot == fresh {
        assert(!seen.contains(url@)) by {
            if before.dom().contains(url@) {
                assert(before[url@] < seen.len());
            }
        }
        urls.push(own(url));
        let ghost now = seen.push(url@);
        assert(text::views(urls@) == now);
        proof {
            assert forall|u: Seq<char>| now.contains(u) == (seen.contains(u) || u == url@) by {
                if seen.contains(u) {
                    let k = choose|k: int| 0 <= k < seen.len() && seen[k] == u;
                    assert(now[k] == u);
                }
                if u == url@ {
                    assert(now[seen.len() as int] == u);
                }
                if now.contains(u) {
                    let k = choose|k: int| 0 <= k < now.len() && now[k] == u;
                    if k < seen.len() {
                        assert(seen[k] == u);
                    }
                }
            }
        }
    } else {
        assert(before.dom().contains(url@));
        assert(seen.contains(url@));
    }
}

fn find_pool(pools: &Vec<Pool>, name: &str) -> (r: usize)
    ensures
        r == pool_at(text::views(pools@), name@, 0),
{
    let ghost pv = text::views(pools@);
    let mut i: usize = 0;
    while i < pools.len()
        invariant
            i <= pools.len(),
            pv == text::views(pools@),
            pool_at(pv, name@, 0) == pool_at(pv, name@, i as nat),
        decreases pools.len() - i,
    {
        assert(pv[i as int] == pools@[i as int]@);
        if same(pools[i].name.as_str(), name) {
            return i;
        }
        i += 1;
    }
    i
}

fn find_single(singles: &Vec<Single>, name: &str) -> (r: usize)
    ensures
        r == single_at(text::views(singles@), name@, 0),
{
    let ghost sv = text::views(singles@);
    let mut i: usize = 0;
    while i < singles.len()
        invariant
            i <= singles.len(),
            sv == text::views(singles@),
            single_at(sv, name@, 0) == single_at(sv, name@, i as nat),
        decreases singles.len() - i,
    {
        assert(sv[i as int] == singles@[i as int]@);
        if same(singles[i].name.as_str(), name) {
            return i;
        }
        i += 1;
    }
    i
}

/// The URLs whose health is watched: those to which a route leads.
pub fn watched_urls(s: &Settings) -> (r: Vec<String>)
    ensures
        text::views(r@) == watched(s@, s@.route_upstreams.len()),
{
    let mut index = new_index();
    let mut urls: Vec<String> = Vec::new();
    let mut i: usize = 0;
    let ghost sv = s@;
    assert(text::views(urls@) =~= seq![]);
    while i < s.route_upstreams.len()
        invariant
            i <= s.route_upstreams.len(),
            sv == s@,
            indexes(slots(index), text::views(urls@)),
            text::views(urls@) == watched(sv, i as nat),
        decreases s.route_upstreams.len() - i,
    {
        let name = s.route_upstreams[i].as_str();
        assert(sv.route_upstreams[i as int] == name@);
        let p: usize = find_pool(&s.pools, name);
        let ghost before = text::views(urls@);
        if p < s.pools.len() {
            let ghost list = urls_of(sv.pools, sv.singles, name@);
            assert(sv.pools[p as int] == s.pools@[p as int]@);
            let mut j: usize = 0;
            while j < s.pools[p as usize].urls.len()
                invariant
                    p < s.pools.len(),
                    j <= s.pools@[p as int].urls.len(),
                    list == text::views(s.pools@[p as int].urls@),
                    indexes(slots(index), text::views(urls@)),
                    text::views(urls@) == with_urls(before, list, j as nat),
                decreases s.pools@[p as int].urls.len() - j,
            {
                assert(list[j as int] == s.pools@[p as int].urls@[j as int]@);
                watch_url(&mut index, &mut urls, s.pools[p].urls[j].as_str());
                j += 1;
            }
        } else {
            let k: usize = find_single(&s.singles, name);
            if k < s.singles.len() {
                assert(sv.singles[k as int] == s.singles@[k as int]@);
                watch_url(&mut index, &mut urls, s.singles[k].url.as_str());
                proof {
                    let list = urls_of(sv.pools, sv.singles, name@);
                    assert(list.len() == 1 && list[0] == s.singles@[k as int].url@);
                    reveal_with_fuel(with_urls, 2);
                }
            }
        }
        i += 1;
    }
    urls
}

// ── Caps ────────────────────────────────────────────────────────────────
/// A share of the connection ceiling, in 32 bits, and at least 1.
pub open spec fn share(conn_limit_max: usize, parts: int) -> int {
    let n = (conn_limit_max as int / parts) % 0x1_0000_0000;
    if n == 0 {
        1
    } else {
        n
    }
}

fn share_of(conn_limit_max: usize, parts: usize) -> (r: u32)
    requires
        parts > 0,
    ensures
        r == share(conn_limit_max, parts as int),
{
    let n: u64 = (conn_limit_max / parts) as u64 % 0x1_0000_0000;
    if n == 0 {
        1
    } else {
        n as u32
    }
}

/// How many connections a client may hold: as configured, else an eighth of the
/// ceiling, so that no client has the server to itself.
pub fn per_ip_cap(configured: Option<u32>, conn_limit_max: usize) -> (r: u32)
    ensures
        r as int == (match configured {
            Some(n) => n as int,
            None => share(conn_limit_max, 8),
        }),
{
    match configured {
        Some(n) => n,
        None => share_of(conn_limit_max, 8),
    }
}

/// How many sources a tarpit holds at once. Each keeps a connection, so that it
/// is kept to a quarter of the ceiling.
pub open spec fn tarpit_cap(e: EnforceV, conn_limit_max: usize) -> int {
    let asked = e.tarpit.max_concurrent as int;
    if e.enabled && e.tarpit.enabled && asked > share(conn_limit_max, 4) {
        share(conn_limit_max, 4)
    } else {
        asked
    }
}

pub open spec fn when(c: bool, l: boot::LineV) -> Seq<boot::LineV> {
    if c {
        seq![l]
    } else {
        seq![]
    }
}

pub open spec fn sovereign_warning(message: Seq<char>) -> boot::LineV {
    boot::line(Level::Warn, "sovereign"@, message)
}

/// What is odd about a policy.
pub open spec fn enforce_warnings(e: EnforceV, conn_limit_max: usize) -> Seq<boot::LineV> {
    let t = e.tarpit;
    let cap = share(conn_limit_max, 4);
    if !e.enabled {
        seq![]
    } else {
        when(
            e.unknown_labels.len() > 0,
            sovereign_warning(
                "[sovereign.enforce] deny lists unknown class label(s) "@ + debug_list(
                    e.unknown_labels,
                ) + " — they will never match (known: "@ + debug_list(e.known_labels) + ")"@,
            ),
        ) + when(
            t.enabled && t.max_concurrent == 0,
            sovereign_warning(
                "[sovereign.enforce.tarpit] enabled with max_concurrent = 0 — every flagged request is shed to an immediate 403 (tarpit is a no-op)"@,
            ),
        ) + when(
            t.enabled && t.max_concurrent > cap,
            sovereign_warning(
                "[sovereign.enforce.tarpit] max_concurrent "@ + text::dec(t.max_concurrent as nat)
                    + " exceeds 1/4 of the global connection ceiling ("@ + text::dec(
                    conn_limit_max as nat,
                ) + ") — clamping to "@ + text::dec(cap as nat)
                    + " so held connections can't pin the admission pool"@,
            ),
        ) + when(
            t.enabled && t.max_concurrent > 0 && t.hold_secs > 60,
            sovereign_warning(
                "[sovereign.enforce.tarpit] hold_secs = "@ + text::dec(t.hold_secs as nat)
                    + " is very large — a few seconds already imposes the cost; long holds tie up connections and slow shutdown drain"@,
            ),
        )
    }
}

fn warn_sovereign(lines: &mut Vec<LogLine>, message: String)
    ensures
        text::views(final(lines)@) == text::views(old(lines)@).push(sovereign_warning(message@)),
{
    lines.push(LogLine::new(Level::Warn, "sovereign", message));
}

/// The ceiling of the tarpit; what is odd about the policy goes to the log.
fn resolve_tarpit(e: &Enforce, conn_limit_max: usize, lines: &mut Vec<LogLine>) -> (r: u32)
    ensures
        r == tarpit_cap(e@, conn_limit_max),
        text::views(final(lines)@) == text::views(old(lines)@) + enforce_warnings(
            e@,
            conn_limit_max,
        ),
{
    let asked: u32 = e.tarpit.max_concurrent;
    let ghost l0 = text::views(lines@);
    if !e.enabled {
        assert(l0 + enforce_warnings(e@, conn_limit_max) =~= l0);
        return asked;
    }
    if e.unknown_labels.len() > 0 {
        let unknown = shown_list(&e.unknown_labels);
        let known = shown_list(&e.known_labels);
        warn_sovereign(
            lines,
            cat5(
                "[sovereign.enforce] deny lists unknown class label(s) ",
                unknown.as_str(),
                " — they will never match (known: ",
                known.as_str(),
                ")",
            ),
        );
    }
    let ghost l1 = text::views(lines@);
    if e.tarpit.enabled && asked == 0 {
        warn_sovereign(
            lines,
            own(
                "[sovereign.enforce.tarpit] enabled with max_concurrent = 0 — every flagged request is shed to an immediate 403 (tarpit is a no-op)",
            ),
        );
    }
    let ghost l2 = text::views(lines@);
    let cap: u32 = share_of(conn_limit_max, 4);
    let mut out: u32 = asked;
    if e.tarpit.enabled && asked > cap {
        let a = dec_text(asked as u64);
        let m = dec_text(conn_limit_max as u64);
        let c = dec_text(cap as u64);
        warn_sovereign(
            lines,
            cat7(
                "[sovereign.enforce.tarpit] max_concurrent ",
                a.as_str(),
                " exceeds 1/4 of the global connection ceiling (",
                m.as_str(),
                ") — clamping to ",
                c.as_str(),
                " so held connections can't pin the admission pool",
            ),
        );
        out = cap;
    }
    let ghost l3 = text::views(lines@);
    if e.tarpit.enabled && asked > 0 && e.tarpit.hold_secs > 60 {
        let h = dec_text(e.tarpit.hold_secs);
        warn_sovereign(
            lines,
            cat3(
                "[sovereign.enforce.tarpit] hold_secs = ",
                h.as_str(),
                " is very large — a few seconds already imposes the cost; long holds tie up connections and slow shutdown drain",
            ),
        );
    }
    assert(text::views(lines@) =~= l0 + enforce_warnings(e@, conn_limit_max));
    out
}

// ── Snapshot ────────────────────────────────────────────────────────────
/// What the request pipeline reads.
#[derive(Debug)]
pub struct ResolvedAppConfig {
    /// The URLs whose health is watched, each once.
    pub upstream_urls: Vec<String>,
    pub xff_mode: XffMode,
    pub rate_limit_rps: u32,
    pub rate_limit_window: u64,
    pub max_connections_per_ip: u32,
    pub tarpit_max_concurrent: u32,
    /// The address to listen on; none where it is malformed.
    pub listen_http: Option<String>,
    pub listen_https: Option<String>,
    pub sovereign_enabled: bool,
    pub sovereign_log_classification: bool,
}

#[verifier::ext_equal]
pub struct ResolvedV {
    pub upstream_urls: Seq<Seq<char>>,
    pub xff_mode: XffMode,
    pub rate_limit_rps: u32,
    pub rate_limit_window: u64,
    pub max_connections_per_ip: int,
    pub tarpit_max_concurrent: int,
    pub listen_http: Option<Seq<char>>,
    pub listen_https: Option<Seq<char>>,
    pub sovereign_enabled: bool,
    pub sovereign_log_classification: bool,
}

impl View for ResolvedAppConfig {
    type V = ResolvedV;

    open spec fn view(&self) -> ResolvedV {
        ResolvedV {
            upstream_urls: text::views(self.upstream_urls@),
            xff_mode: self.xff_mode,
            rate_limit_rps: self.rate_limit_rps,
            rate_limit_window: self.rate_limit_window,
            max_connections_per_ip: self.max_connections_per_ip as int,
            tarpit_max_concurrent: self.tarpit_max_concurrent as int,
            listen_http: text::opt(self.listen_http),
            listen_https: text::opt(self.listen_https),
            sovereign_enabled: self.sovereign_enabled,
            sovereign_log_classification: self.sovereign_log_classification,
        }
    }
}

pub open spec fn usable(l: ListenV) -> Option<Seq<char>> {
    match l.fault {
        Some(_) => None,
        None => Some(l.text),
    }
}

pub open spec fn mode_or_append(s: Seq<char>) -> XffMode {
    match proxy::xff_mode(s) {
        Some(m) => m,
        None => XffMode::Append,
    }
}

/// The snapshot for a configuration.
pub open spec fn resolved(s: SettingsV, conn_limit_max: usize) -> ResolvedV {
    ResolvedV {
        upstream_urls: watched(s, s.route_upstreams.len()),
        xff_mode: mode_or_append(s.xff_mode),
        rate_limit_rps: s.rate_limit_rps,
        rate_limit_window: s.rate_limit_window,
        max_connections_per_ip: match s.max_connections_per_ip {
            Some(n) => n as int,
            None => share(conn_limit_max, 8),
        },
        tarpit_max_concurrent: tarpit_cap(s.enforce, conn_limit_max),
        listen_http: usable(s.listen_http),
        listen_https: usable(s.listen_https),
        sovereign_enabled: s.region is Some,
        sovereign_log_classification: s.log_classification,
    }
}

pub open spec fn listen_warning(field: Seq<char>, l: ListenV) -> Seq<boot::LineV> {
    match l.fault {
        Some(why) => seq![
            boot::line(
                Level::Warn,
                "config"@,
                field + l.text + "' is not a valid socket address: "@ + why,
            ),
        ],
        None => seq![],
    }
}

pub open spec fn bool_text(b: bool) -> Seq<char> {
    if b {
        "true"@
    } else {
        "false"@
    }
}

pub open spec fn region_line(region: Option<Seq<char>>, log_classification: bool) -> Seq<
    boot::LineV,
> {
    match region {
        Some(r) => seq![
            boot::line(
                Level::Info,
                "sovereign"@,
                "Sovereign Edge active (region="@ + r + ", log_classification="@ + bool_text(
                    log_classification,
                ) + ")"@,
            ),
        ],
        None => seq![],
    }
}

/// What is logged while the snapshot is made.
pub open spec fn build_lines(s: SettingsV, conn_limit_max: usize) -> Seq<boot::LineV> {
    listen_warning("server.listen_http '"@, s.listen_http) + listen_warning(
        "server.listen_https '"@,
        s.listen_https,
    ) + region_line(s.region, s.log_classification) + enforce_warnings(s.enforce, conn_limit_max)
}

fn resolve_listen(field: &str, l: &Listen, lines: &mut Vec<LogLine>) -> (r: Option<String>)
    ensures
        text::opt(r) == usable(l@),
        text::views(final(lines)@) == text::views(old(lines)@) + listen_warning(field@, l@),
{
    let ghost before = text::views(lines@);
    match &l.fault {
        Some(why) => {
            let message = cat4(
                field,
                l.text.as_str(),
                "' is not a valid socket address: ",
                why.as_str(),
            );
            lines.push(LogLine::new(Level::Warn, "config", message));
            assert(text::views(lines@) =~= before + listen_warning(field@, l@));
            None
        },
        None => {
            assert(before + listen_warning(field@, l@) =~= before);
            Some(own(l.text.as_str()))
        },
    }
}

fn announce_region(s: &Settings, lines: &mut Vec<LogLine>)
    ensures
        text::views(final(lines)@) == text::views(old(lines)@) + region_line(
            s@.region,
            s@.log_classification,
        ),
{
    let ghost before = text::views(lines@);
    let flag: &str = if s.log_classification {
        "true"
    } else {
        "false"
    };
    if let Some(region) = &s.region {
        let message = cat5(
            "Sovereign Edge active (region=",
            region.as_str(),
            ", log_classification=",
            flag,
            ")",
        );
        lines.push(LogLine::new(Level::Info, "sovereign", message));
    }
    assert(text::views(lines@) =~= before + region_line(s@.region, s@.log_classification));
}

impl ResolvedAppConfig {
    /// Makes the snapshot, and the lines to log; the fault where no router can
    /// be built, and then nothing is logged.
    pub fn try_build(s: &Settings, conn_limit_max: usize) -> (r: Result<
        (ResolvedAppConfig, Vec<LogLine>),
        String,
    >)
        ensures
            match s@.router_fault {
                Some(why) => r matches Err(e) && e@ == why,
                None => r matches Ok((c, lines)) && c@ == resolved(s@, conn_limit_max)
                    && text::views(lines@) == build_lines(s@, conn_limit_max),
            },
    {
        if let Some(why) = &s.router_fault {
            return Err(own(why.as_str()));
        }
        let upstream_urls = watched_urls(s);
        let xff_mode = match XffMode::parse(s.xff_mode.as_str()) {
            Some(m) => m,
            None => XffMode::Append,
        };
        let mut lines: Vec<LogLine> = Vec::new();
        assert(text::views(lines@) =~= seq![]);
        let listen_http = resolve_listen("server.listen_http '", &s.listen_http, &mut lines);
        let listen_https = resolve_listen("server.listen_https '", &s.listen_https, &mut lines);
        announce_region(s, &mut lines);
        let tarpit_max_concurrent: u32 = resolve_tarpit(&s.enforce, conn_limit_max, &mut lines);
        assert(text::views(lines@) =~= build_lines(s@, conn_limit_max));
        let c = ResolvedAppConfig {
            upstream_urls,
            xff_mode,
            rate_limit_rps: s.rate_limit_rps,
            rate_limit_window: s.rate_limit_window,
            max_connections_per_ip: per_ip_cap(s.max_connections_per_ip, conn_limit_max),
            tarpit_max_concurrent,
            listen_http,
            listen_https,
            sovereign_enabled: s.region.is_some(),
            sovereign_log_classification: s.log_classification,
        };
        Ok((c, lines))
    }
}

/// The TLS settings that are in force.
pub fn tls_loaded(min_version: &str, alpn: &Vec<String>) -> (r: LogLine)
    ensures
        r@ == boot::line(
            Level::Console,
            "tls"@,
            "  tls loaded (min="@ + min_version@ + ", alpn="@ + debug_list(text::views(alpn@))
                + ")"@,
        ),
{
    let shown = shown_list(alpn);
    LogLine::new(
        Level::Console,
        "tls",
        cat5("  tls loaded (min=", min_version, ", alpn=", shown.as_str(), ")"),
    )
}

pub open spec fn mode_name(m: XffMode) -> Seq<char> {
    match m {
        XffMode::Append => "Append"@,
        XffMode::Rewrite => "Rewrite"@,
        XffMode::Drop => "Drop"@,
    }
}

/// What is logged of the snapshot at boot. `trusted` says that some proxy is.
pub open spec fn boot_lines(s: SettingsV, mode: XffMode, trusted: bool) -> Seq<boot::LineV> {
    when(
        trusted,
        boot::line(Level::Info, "proxy"@, "trusted proxies: "@ + debug_list(s.trusted_proxies)),
    ) + when(
        proxy::xff_mode(s.xff_mode) is None,
        boot::line(
            Level::Warn,
            "config"@,
            "unknown server.xff_mode '"@ + s.xff_mode
                + "', falling back to 'append' (valid: append/rewrite/drop)"@,
        ),
    ) + seq![boot::line(Level::Info, "proxy"@, "xff_mode: "@ + mode_name(mode))]
}

pub fn announce(s: &Settings, mode: XffMode, trusted: bool) -> (r: Vec<LogLine>)
    ensures
        text::views(r@) == boot_lines(s@, mode, trusted),
{
    let mut lines: Vec<LogLine> = Vec::new();
    if trusted {
        let shown = shown_list(&s.trusted_proxies);
        lines.push(LogLine::new(Level::Info, "proxy", cat2("trusted proxies: ", shown.as_str())));
    }
    if XffMode::parse(s.xff_mode.as_str()).is_none() {
        let message = cat3(
            "unknown server.xff_mode '",
            s.xff_mode.as_str(),
            "', falling back to 'append' (valid: append/rewrite/drop)",
        );
        lines.push(LogLine::new(Level::Warn, "config", message));
    }
    let name: &str = match mode {
        XffMode::Append => "Append",
        XffMode::Rewrite => "Rewrite",
        XffMode::Drop => "Drop",
    };
    lines.push(LogLine::new(Level::Info, "proxy", cat2("xff_mode: ", name)));
    assert(text::views(lines@) =~= boot_lines(s@, mode, trusted));
    lines
}

// ── Laws ────────────────────────────────────────────────────────────────
/// No source gets more of a tarpit than a quarter of the connections, and an
/// eighth is what a client may hold unless the configuration says otherwise;
/// neither share is nothing.
pub proof fn law_shares_are_bounded(s: SettingsV, conn_limit_max: usize)
    requires
        conn_limit_max >= 1,
    ensures
        s.enforce.enabled && s.enforce.tarpit.enabled ==> resolved(
            s,
            conn_limit_max,
        ).tarpit_max_concurrent <= (if conn_limit_max >= 4 {
            conn_limit_max as int / 4
        } else {
            1
        }),
        s.max_connections_per_ip is None ==> 1 <= resolved(s, conn_limit_max).max_connections_per_ip
            <= conn_limit_max,
{
    let q = conn_limit_max as int / 4;
    let e = conn_limit_max as int / 8;
    assert(0 <= q % 0x1_0000_0000 <= q);
    assert(0 <= e % 0x1_0000_0000 <= e);
}

pub open spec fn all_distinct(s: Seq<Seq<char>>) -> bool {
    forall|i: int, j: int| 0 <= i < j < s.len() ==> #[trigger] s[i] != #[trigger] s[j]
}

proof fn lemma_with_urls(seen: Seq<Seq<char>>, urls: Seq<Seq<char>>, n: nat)
    requires
        all_distinct(seen),
        n <= urls.len(),
    ensures
        all_distinct(with_urls(seen, urls, n)),
        forall|u: Seq<char>| #[trigger]
            with_urls(seen, urls, n).contains(u) <==> seen.contains(u) || urls.take(
                n as int,
            ).contains(u),
    decreases n,
{
    if n == 0 {
        assert(urls.take(0) =~= seq![]);
    } else {
        let m = (n - 1) as nat;
        lemma_with_urls(seen, urls, m);
        let before = with_urls(seen, urls, m);
        let u0 = urls[m as int];
        let after = with_urls(seen, urls, n);
        assert forall|u: Seq<char>| #[trigger] after.contains(u) <==> seen.contains(u) || urls.take(
            n as int,
        ).contains(u) by {
            assert(before.contains(u) <==> seen.contains(u) || urls.take(m as int).contains(u));
            lemma_contains_push(urls.take(m as int), u0, u);
            assert(urls.take(m as int).push(u0) =~= urls.take(n as int));
            lemma_contains_push(before, u0, u);
        }
    }
}

proof fn lemma_contains_push(s: Seq<Seq<char>>, x: Seq<char>, u: Seq<char>)
    ensures
        s.push(x).contains(u) == (s.contains(u) || u == x),
{
    let t = s.push(x);
    if s.contains(u) {
        let k = choose|k: int| 0 <= k < s.len() && s[k] == u;
        assert(t[k] == u);
    }
    if u == x {
        assert(t[s.len() as int] == u);
    }
    if t.contains(u) {
        let k = choose|k: int| 0 <= k < t.len() && t[k] == u;
        if k < s.len() {
            assert(s[k] == u);
        }
    }
}

/// Whether one of the first `n` routes leads to a URL.
pub open spec fn leads_to(s: SettingsV, n: nat, url: Seq<char>) -> bool {
    exists|i: int|
        0 <= i < n && #[trigger] urls_of(s.pools, s.singles, s.route_upstreams[i]).contains(url)
}

proof fn lemma_watched(s: SettingsV, n: nat)
    requires
        n <= s.route_upstreams.len(),
    ensures
        all_distinct(watched(s, n)),
        forall|u: Seq<char>| #[trigger] watched(s, n).contains(u) <==> leads_to(s, n, u),
    decreases n,
{
    if n > 0 {
        let m = (n - 1) as nat;
        lemma_watched(s, m);
        let urls = urls_of(s.pools, s.singles, s.route_upstreams[m as int]);
        lemma_with_urls(watched(s, m), urls, urls.len());
        assert(urls.take(urls.len() as int) =~= urls);
        assert forall|u: Seq<char>| #[trigger] watched(s, n).contains(u) <==> leads_to(
            s,
            n,
            u,
        ) by {
            assert(watched(s, n).contains(u) <==> watched(s, m).contains(u) || urls.contains(u));
            assert(watched(s, m).contains(u) <==> leads_to(s, m, u));
            if urls.contains(u) {
                assert(urls_of(s.pools, s.singles, s.route_upstreams[m as int]).contains(u));
            }
        }
    }
}

/// Each URL to which a route leads is watched, once, and no other is.
pub proof fn law_routed_urls_are_watched(s: SettingsV, conn_limit_max: usize)
    ensures
        all_distinct(resolved(s, conn_limit_max).upstream_urls),
        forall|u: Seq<char>| #[trigger]
            resolved(s, conn_limit_max).upstream_urls.contains(u) <==> leads_to(
                s,
                s.route_upstreams.len(),
                u,
            ),
{
    lemma_watched(s, s.route_upstreams.len());
}

/// What is configured is in force as it is: the rate, its window, the addresses
/// that can be listened on, the cap on a client and what is told of the region.
pub proof fn law_settings_are_in_force(s: SettingsV, conn_limit_max: usize, n: u32)
    ensures
        ({
            let r = resolved(s, conn_limit_max);
            &&& r.rate_limit_rps == s.rate_limit_rps
            &&& r.rate_limit_window == s.rate_limit_window
            &&& s.max_connections_per_ip == Some(n) ==> r.max_connections_per_ip == n
            &&& s.listen_http.fault is None ==> r.listen_http == Some(s.listen_http.text)
            &&& s.listen_https.fault is None ==> r.listen_https == Some(s.listen_https.text)
            &&& s.listen_http.fault is Some ==> r.listen_http is None
            &&& s.listen_https.fault is Some ==> r.listen_https is None
            &&& r.sovereign_enabled == (s.region is Some)
            &&& r.sovereign_log_classification == s.log_classification
        }),
{
}

/// Without a cap of its own a client may hold an eighth of the connections, and a
/// tarpit a quarter of them, rounded down but not to nothing.
pub proof fn law_shares_are_an_eighth_and_a_quarter(s: SettingsV, conn_limit_max: usize)
    requires
        conn_limit_max <= 0xffff_ffff,
    ensures
        ({
            let r = resolved(s, conn_limit_max);
            let cap = r.max_connections_per_ip;
            let held = r.tarpit_max_concurrent;
            let asked = s.enforce.tarpit.max_concurrent as int;
            &&& s.max_connections_per_ip is None && conn_limit_max >= 8 ==> 8 * cap
                <= conn_limit_max < 8 * (cap + 1)
            &&& s.max_connections_per_ip is None && conn_limit_max < 8 ==> cap == 1
            &&& s.enforce.enabled && s.enforce.tarpit.enabled && conn_limit_max >= 4 ==> 4 * held
                <= conn_limit_max && held <= asked && (held == asked || conn_limit_max < 4 * (held
                + 1))
            &&& !(s.enforce.enabled && s.enforce.tarpit.enabled) ==> held == asked
        }),
{
}

proof fn lemma_pool_at(pools: Seq<PoolV>, name: Seq<char>, i: nat)
    requires
        i <= pools.len(),
    ensures
        ({
            let k = pool_at(pools, name, i);
            &&& i <= k <= pools.len()
            &&& k < pools.len() ==> pools[k as int].name == name
            &&& forall|j: int| i <= j < k ==> (#[trigger] pools[j]).name != name
        }),
    decreases pools.len() - i,
{
    if i < pools.len() && pools[i as int].name != name {
        lemma_pool_at(pools, name, i + 1);
    }
}

proof fn lemma_single_at(singles: Seq<SingleV>, name: Seq<char>, i: nat)
    requires
        i <= singles.len(),
    ensures
        ({
            let k = single_at(singles, name, i);
            &&& i <= k <= singles.len()
            &&& k < singles.len() ==> singles[k as int].name == name
            &&& forall|j: int| i <= j < k ==> (#[trigger] singles[j]).name != name
        }),
    decreases singles.len() - i,
{
    if i < singles.len() && singles[i as int].name != name {
        lemma_single_at(singles, name, i + 1);
    }
}

/// The name of an upstream stands for all the URLs of the first pool of that
/// name; where there is none, for the URL of the first single upstream of that
/// name; and for nothing where there is none either.
pub proof fn law_name_stands_for_its_urls(
    pools: Seq<PoolV>,
    singles: Seq<SingleV>,
    name: Seq<char>,
    k: int,
)
    ensures
        0 <= k < pools.len() && pools[k].name == name && (forall|j: int|
            0 <= j < k ==> (#[trigger] pools[j]).name != name) ==> urls_of(pools, singles, name)
            == pools[k].urls,
        (forall|j: int| 0 <= j < pools.len() ==> (#[trigger] pools[j]).name != name) ==> {
            &&& 0 <= k < singles.len() && singles[k].name == name && (forall|j: int|
                0 <= j < k ==> (#[trigger] singles[j]).name != name) ==> urls_of(
                pools,
                singles,
                name,
            ) == seq![singles[k].url]
            &&& (forall|j: int| 0 <= j < singles.len() ==> (#[trigger] singles[j]).name != name)
                ==> urls_of(pools, singles, name).len() == 0
        },
{
    lemma_pool_at(pools, name, 0);
    lemma_single_at(singles, name, 0);
    let p = pool_at(pools, name, 0);
    let q = single_at(singles, name, 0);
    if 0 <= k < pools.len() && pools[k].name == name {
        assert(p < pools.len()) by {
            if p >= pools.len() {
                assert(pools[k].name != name);
            }
        }
    }
    if 0 <= k < singles.len() && singles[k].name == name {
        assert(q < singles.len()) by {
            if q >= singles.len() {
                assert(singles[k].name != name);
            }
        }
    }
}

} // verus!
