//! What the report owes to the operator: no directive of an nginx configuration
//! is passed over in silence.
//!
//! A directive is settled at once, by one note on its line and under its name;
//! or it is taken up into something that has a note of its own, such as a
//! route's docroot or the global rate limit. A note that was filed stays in the
//! report.
use super::map::directives;
use super::map::directives::AggV;
use super::map::listen;
use super::map::listen::PortsV;
use super::map::location;
use super::map::location::{CtxV, LocV, SharedV, WorldV};
use super::map::server;
use super::map::server::ScanV;
use super::map::servers;
use super::map::servers::KeptV;
use super::map::tls;
use super::map::upstream;
use super::map::upstream::RegV;
use super::model;
use super::model::{Extracted, LocMod, LocationV, ModelV, ServerV};
use super::nginx::Dir;
use super::{report, Note, Outcome, Status};
use crate::import;
use crate::text;
use vstd::prelude::*;

verus! {

// ── Notes ───────────────────────────────────────────────────────────────
/// A note on a directive: on its line, under its name.
pub open spec fn on(n: Note, d: Dir) -> bool {
    n.line == d.line && n.directive == d.name
}

pub open spec fn reported(notes: Seq<Note>, d: Dir) -> bool {
    exists|i: int| 0 <= i < notes.len() && on(#[trigger] notes[i], d)
}

/// The notes that the operator sees.
pub open spec fn report_of(o: Outcome) -> Seq<Note> {
    match o {
        Outcome::Converted(_, notes) => notes,
        Outcome::NoRoutes(notes) => notes,
        _ => seq![],
    }
}

/// All the notes of `a` are still there, in their places.
pub open spec fn grown(a: Seq<Note>, b: Seq<Note>) -> bool {
    a.len() <= b.len() && forall|i: int| 0 <= i < a.len() ==> #[trigger] a[i] == b[i]
}

/// One note more, on the directive.
pub open spec fn one_note_more(a: Seq<Note>, b: Seq<Note>, d: Dir) -> bool {
    b.len() == a.len() + 1 && grown(a, b) && on(b.last(), d)
}

pub proof fn lemma_reported_grown(a: Seq<Note>, b: Seq<Note>, d: Dir)
    requires
        grown(a, b),
        reported(a, d),
    ensures
        reported(b, d),
{
    let i = choose|i: int| 0 <= i < a.len() && on(#[trigger] a[i], d);
    assert(on(b[i], d));
}

proof fn lemma_reported_last(a: Seq<Note>, b: Seq<Note>, d: Dir)
    requires
        one_note_more(a, b, d),
    ensures
        reported(b, d),
{
    assert(on(b[b.len() - 1], d));
}

// ── Directives of a location ────────────────────────────────────────────
/// A `proxy_pass` whose target can be used.
pub open spec fn usable_target(d: Dir) -> bool {
    &&& d.name == "proxy_pass"@
    &&& d.args.len() > 0
    &&& !d.args[0].contains('$')
    &&& !location::unix_target(d.args[0])
    &&& location::target_parts(d.args[0]) is Some
}

/// A limit that counts towards the global one.
pub open spec fn counted(d: Dir, m: ModelV) -> bool {
    let r = directives::req_zone_index(m, directives::zone_arg(d.args, 0), 0);
    let c = directives::conn_zone_index(m, text::first_or_empty(d.args), 0);
    ||| d.name == "limit_req"@ && r < m.req_zones.len() && directives::per_client(
        m.req_zones[r as int].key,
    )
    ||| d.name == "limit_conn"@ && c < m.conn_zones.len() && directives::per_client(
        m.conn_zones[c as int].key,
    ) && directives::count_arg(d.args) is Some
}

/// A directive that is settled at once where it stands in a location.
pub open spec fn settled_in_location(d: Dir, m: ModelV) -> bool {
    !usable_target(d) && !location::on_files(d.name) && !counted(d, m)
}

proof fn lemma_limits(agg: AggV, notes: Seq<Note>, d: Dir, m: ModelV)
    ensures
        d.name == "limit_req"@ && !counted(d, m) ==> one_note_more(
            notes,
            directives::limit_req_step(agg, notes, d, m).1,
            d,
        ),
        d.name == "limit_req"@ && counted(d, m) ==> {
            let (a, n) = directives::limit_req_step(agg, notes, d, m);
            n == notes && a.rates.len() == agg.rates.len() + 1 && a.conns == agg.conns
        },
        d.name == "limit_conn"@ && !counted(d, m) ==> one_note_more(
            notes,
            directives::limit_conn_step(agg, notes, d, m).1,
            d,
        ),
        d.name == "limit_conn"@ && counted(d, m) ==> {
            let (a, n) = directives::limit_conn_step(agg, notes, d, m);
            n == notes && a.conns.len() == agg.conns.len() + 1 && a.rates == agg.rates
        },
        grown(notes, directives::limit_req_step(agg, notes, d, m).1),
        grown(notes, directives::limit_conn_step(agg, notes, d, m).1),
{
    reveal_strlit("limit_req");
    reveal_strlit("limit_conn");
    assert("limit_req"@.len() != "limit_conn"@.len());
}

/// Names of directives, told apart by their lengths and first characters.
pub proof fn lemma_names()
    ensures
        "proxy_pass"@.len() == 10,
        "proxy_set_header"@.len() == 16,
        "proxy_connect_timeout"@.len() == 21,
        "add_header"@.len() == 10,
        "limit_req"@.len() == 9,
        "limit_conn"@.len() == 10,
        "client_max_body_size"@.len() == 20,
        "root"@.len() == 4,
        "alias"@.len() == 5,
        "try_files"@.len() == 9,
        "index"@.len() == 5,
        "autoindex"@.len() == 9,
        "ssl_certificate"@.len() == 15,
        "ssl_certificate_key"@.len() == 19,
        "ssl_protocols"@.len() == 13,
        "set_real_ip_from"@.len() == 16,
        "real_ip_header"@.len() == 14,
        "proxy_pass"@[0] == 'p',
        "proxy_set_header"@[0] == 'p',
        "add_header"@[0] == 'a',
        "limit_req"@[0] == 'l',
        "limit_conn"@[0] == 'l',
        "alias"@[0] == 'a',
        "try_files"@[0] == 't',
        "index"@[0] == 'i',
        "autoindex"@[0] == 'a',
        "set_real_ip_from"@[0] == 's',
{
    reveal_strlit("proxy_pass");
    reveal_strlit("proxy_set_header");
    reveal_strlit("proxy_connect_timeout");
    reveal_strlit("add_header");
    reveal_strlit("limit_req");
    reveal_strlit("limit_conn");
    reveal_strlit("client_max_body_size");
    reveal_strlit("root");
    reveal_strlit("alias");
    reveal_strlit("try_files");
    reveal_strlit("index");
    reveal_strlit("autoindex");
    reveal_strlit("ssl_certificate");
    reveal_strlit("ssl_certificate_key");
    reveal_strlit("ssl_protocols");
    reveal_strlit("set_real_ip_from");
    reveal_strlit("real_ip_header");
}

/// Every directive of a location is settled at once, by exactly one note on its
/// line and under its name; or it is no note's but is taken up: a target by the
/// route, a docroot by the location's state, a limit by the global one.
pub proof fn law_location_directive_is_settled(st: LocV, sh: SharedV, d: Dir, m: ModelV)
    ensures
        ({
            let (st1, sh1) = location::loc_step(st, sh, d, m);
            &&& settled_in_location(d, m) ==> one_note_more(sh.notes, sh1.notes, d)
            &&& !settled_in_location(d, m) ==> sh1.notes == sh.notes
            &&& usable_target(d) ==> st1.proxy is Some && st1.proxy->0.line == d.line
            &&& location::on_files(d.name) ==> st1.static_seen
            &&& counted(d, m) ==> sh1.agg.rates.len() + sh1.agg.conns.len()
                == sh.agg.rates.len() + sh.agg.conns.len() + 1
        }),
{
    lemma_limits(sh.agg, sh.notes, d, m);
    lemma_names();
}

// ── Directives of a server ──────────────────────────────────────────────
/// A directive on the server's certificate, which the TLS section settles.
pub open spec fn on_certificate(name: Seq<char>) -> bool {
    ||| name == "ssl_certificate"@
    ||| name == "ssl_certificate_key"@
    ||| name == "ssl_protocols"@
}

/// A docroot that the server's locations may inherit.
pub open spec fn inherited_root(d: Dir) -> bool {
    d.name == "root"@ && d.args.len() > 0 && location::docroot(d.args) is Some
}

/// A directive that is settled at once where it stands in a server.
pub open spec fn settled_in_server(d: Dir, m: ModelV) -> bool {
    &&& !on_certificate(d.name)
    &&& !inherited_root(d)
    &&& d.name != "index"@
    &&& !counted(d, m)
}

/// Every directive of a server is settled at once, by exactly one note on its
/// line and under its name; or it is left to the TLS section, inherited by the
/// locations, or counted towards a global limit.
pub proof fn law_server_directive_is_settled(s: ScanV, d: Dir, m: ModelV)
    ensures
        ({
            let s1 = server::server_step(s, d, m);
            &&& settled_in_server(d, m) ==> one_note_more(s.sh.notes, s1.sh.notes, d)
            &&& !settled_in_server(d, m) ==> s1.sh.notes == s.sh.notes
            &&& inherited_root(d) ==> s1.ctx.root == location::docroot(d.args) && s1.ctx.root_line
                == d.line
            &&& d.name == "index"@ && d.args.len() > 0 ==> s1.ctx.index == Some(d.args[0])
            &&& counted(d, m) ==> s1.sh.agg.rates.len() + s1.sh.agg.conns.len()
                == s.sh.agg.rates.len() + s.sh.agg.conns.len() + 1
        }),
{
    lemma_limits(s.sh.agg, s.sh.notes, d, m);
    lemma_names();
    reveal_strlit("ssl");
}

// ── Notes stay: locations ───────────────────────────────────────────────
proof fn lemma_loc_scan(st: LocV, sh: SharedV, ds: Seq<Dir>, n: nat, m: ModelV)
    requires
        n <= ds.len(),
    ensures
        grown(sh.notes, location::loc_scan(st, sh, ds, n, m).1.notes),
        forall|i: int|
            0 <= i < n && settled_in_location(#[trigger] ds[i], m) ==> reported(
                location::loc_scan(st, sh, ds, n, m).1.notes,
                ds[i],
            ),
    decreases n,
{
    if n > 0 {
        lemma_loc_scan(st, sh, ds, (n - 1) as nat, m);
        let (st0, sh0) = location::loc_scan(st, sh, ds, (n - 1) as nat, m);
        let (st1, sh1) = location::loc_step(st0, sh0, ds[n - 1], m);
        law_location_directive_is_settled(st0, sh0, ds[n - 1], m);
        assert forall|i: int| 0 <= i < n && settled_in_location(#[trigger] ds[i], m) implies reported(
            sh1.notes,
            ds[i],
        ) by {
            if i < n - 1 {
                lemma_reported_grown(sh0.notes, sh1.notes, ds[i]);
            } else {
                lemma_reported_last(sh0.notes, sh1.notes, ds[i]);
            }
        }
    }
}

proof fn lemma_path_grown(loc: LocationV, notes: Seq<Note>)
    ensures
        grown(notes, location::path_of(loc, notes).1),
        location::path_of(loc, notes).0 is None ==> location::path_of(loc, notes).1.len()
            > notes.len(),
{
}

proof fn lemma_static_grown(
    routes: Seq<import::map::RouteV>,
    loc: LocationV,
    hosts: Option<Seq<Seq<char>>>,
    ctx: CtxV,
    st: LocV,
    notes: Seq<Note>,
)
    ensures
        grown(notes, location::static_route(routes, loc, hosts, ctx, st, notes).1),
        location::static_route(routes, loc, hosts, ctx, st, notes).1.len() > notes.len(),
{
    lemma_path_grown(loc, notes);
}

proof fn lemma_proxy_grown(
    routes: Seq<import::map::RouteV>,
    reg: RegV,
    loc: LocationV,
    hosts: Option<Seq<Seq<char>>>,
    ctx: CtxV,
    st: LocV,
    p: location::ProxyV,
    notes: Seq<Note>,
)
    ensures
        grown(notes, location::proxy_route(routes, reg, loc, hosts, ctx, st, p, notes).notes),
        location::proxy_route(routes, reg, loc, hosts, ctx, st, p, notes).notes.len()
            > notes.len(),
{
    lemma_path_grown(loc, notes);
}

/// A docroot that can be served from, where the directive names one.
pub open spec fn sound_root(d: Dir) -> bool {
    d.name == "root"@ || d.name == "alias"@ ==> location::docroot(d.args) is Some
}

/// A location whose verdict stands on its own line: its docroots are sound.
pub open spec fn judged(loc: LocationV) -> bool {
    ||| loc.modifier == LocMod::Regex
    ||| forall|i: int| 0 <= i < loc.directives.len() ==> sound_root(#[trigger] loc.directives[i])
}

proof fn lemma_roots(st: LocV, sh: SharedV, ds: Seq<Dir>, n: nat, m: ModelV)
    requires
        n <= ds.len(),
        st.bad_root is None,
        forall|i: int| 0 <= i < n ==> sound_root(#[trigger] ds[i]),
    ensures
        location::loc_scan(st, sh, ds, n, m).0.bad_root is None,
    decreases n,
{
    if n > 0 {
        lemma_names();
        lemma_roots(st, sh, ds, (n - 1) as nat, m);
        assert(sound_root(ds[n - 1]));
    }
}

proof fn lemma_path_told(loc: LocationV, notes: Seq<Note>, d: Dir)
    requires
        judged(loc),
        loc.modifier != LocMod::Regex,
        d.name == "location"@,
        d.line == loc.line,
    ensures
        reported(location::path_of(loc, notes).1, d),
{
    assert(on(location::path_of(loc, notes).1.last(), d));
}

proof fn lemma_files(ds: Seq<Dir>, n: nat, notes: Seq<Note>)
    requires
        n <= ds.len(),
    ensures
        grown(notes, location::files_told(ds, n, notes)),
        forall|i: int|
            0 <= i < n && location::on_files((#[trigger] ds[i]).name) ==> reported(
                location::files_told(ds, n, notes),
                ds[i],
            ),
    decreases n,
{
    if n > 0 {
        let k = (n - 1) as nat;
        lemma_files(ds, k, notes);
        let a = location::files_told(ds, k, notes);
        let b = location::files_told(ds, n, notes);
        assert(grown(a, b));
        assert forall|i: int| 0 <= i < n && location::on_files(
            (#[trigger] ds[i]).name,
        ) implies reported(b, ds[i]) by {
            if i < k {
                lemma_reported_grown(a, b, ds[i]);
            } else {
                assert(on(b[a.len() as int], ds[i]));
            }
        }
    }
}

/// The location has a target.
pub open spec fn targeted(loc: LocationV) -> bool {
    exists|i: int| 0 <= i < loc.directives.len() && usable_target(#[trigger] loc.directives[i])
}

proof fn lemma_targeted(st: LocV, sh: SharedV, ds: Seq<Dir>, n: nat, m: ModelV)
    requires
        n <= ds.len(),
        exists|i: int| 0 <= i < n && usable_target(#[trigger] ds[i]),
    ensures
        location::loc_scan(st, sh, ds, n, m).0.proxy is Some,
    decreases n,
{
    lemma_names();
    let k = (n - 1) as nat;
    if !usable_target(ds[k as int]) {
        assert(exists|i: int| 0 <= i < k && usable_target(#[trigger] ds[i]));
        lemma_targeted(st, sh, ds, k, m);
    }
}

/// What a location with a target says on files is reported: it is not carried
/// over.
pub proof fn law_files_of_a_proxied_location_are_told(
    w: WorldV,
    loc: LocationV,
    hosts: Option<Seq<Seq<char>>>,
    ctx: CtxV,
    m: ModelV,
    d: Dir,
)
    requires
        loc.modifier != LocMod::Regex,
        targeted(loc),
        loc.directives.contains(d),
        location::on_files(d.name),
    ensures
        reported(location::location_step(w, loc, hosts, ctx, m).notes, d),
{
    let st0 = location::empty_loc(ctx.waf);
    let sh0 = SharedV { cap: w.doc.waf_body_mb, agg: w.agg, notes: w.notes };
    let ds = loc.directives;
    let (st, sh) = location::loc_scan(st0, sh0, ds, ds.len(), m);
    lemma_targeted(st0, sh0, ds, ds.len(), m);
    let told = location::files_told(ds, ds.len(), sh.notes);
    lemma_files(ds, ds.len(), sh.notes);
    let i = choose|i: int| 0 <= i < ds.len() && ds[i] == d;
    assert(location::on_files(ds[i].name));
    lemma_proxy_grown(w.doc.routes, w.reg, loc, hosts, ctx, st, st.proxy->0, told);
    lemma_reported_grown(told, location::location_step(w, loc, hosts, ctx, m).notes, d);
}

/// Every location gets a verdict of its own, beside the notes on its
/// directives; it gains a route only with a note that says so.
pub proof fn law_location_gets_verdict(
    w: WorldV,
    loc: LocationV,
    hosts: Option<Seq<Seq<char>>>,
    ctx: CtxV,
    m: ModelV,
    d: Dir,
)
    ensures
        ({
            let w1 = location::location_step(w, loc, hosts, ctx, m);
            &&& grown(w.notes, w1.notes)
            &&& w1.notes.len() > w.notes.len()
            &&& judged(loc) && d.name == "location"@ && d.line == loc.line ==> reported(w1.notes, d)
            &&& loc.modifier != LocMod::Regex ==> {
                let sh = location::loc_scan(
                    location::empty_loc(ctx.waf),
                    SharedV { cap: w.doc.waf_body_mb, agg: w.agg, notes: w.notes },
                    loc.directives,
                    loc.directives.len(),
                    m,
                ).1;
                grown(sh.notes, w1.notes) && w1.notes.len() > sh.notes.len()
            }
        }),
{
    if loc.modifier != LocMod::Regex {
        let (st, sh) = location::loc_scan(
            location::empty_loc(ctx.waf),
            SharedV { cap: w.doc.waf_body_mb, agg: w.agg, notes: w.notes },
            loc.directives,
            loc.directives.len(),
            m,
        );
        lemma_loc_scan(
            location::empty_loc(ctx.waf),
            SharedV { cap: w.doc.waf_body_mb, agg: w.agg, notes: w.notes },
            loc.directives,
            loc.directives.len(),
            m,
        );
        match st.proxy {
            Some(p) => {
                lemma_files(loc.directives, loc.directives.len(), sh.notes);
                let told = location::files_told(loc.directives, loc.directives.len(), sh.notes);
                lemma_proxy_grown(w.doc.routes, w.reg, loc, hosts, ctx, st, p, told);
            },
            None => {
                lemma_static_grown(w.doc.routes, loc, hosts, ctx, st, sh.notes);
            },
        }
    }
    if judged(loc) && d.name == "location"@ && d.line == loc.line {
        lemma_location_told(w, loc, hosts, ctx, m, d);
    }
}

proof fn lemma_location_told(
    w: WorldV,
    loc: LocationV,
    hosts: Option<Seq<Seq<char>>>,
    ctx: CtxV,
    m: ModelV,
    d: Dir,
)
    requires
        judged(loc),
        d.name == "location"@,
        d.line == loc.line,
    ensures
        reported(location::location_step(w, loc, hosts, ctx, m).notes, d),
{
    let w1 = location::location_step(w, loc, hosts, ctx, m);
    if loc.modifier == LocMod::Regex {
        assert(on(w1.notes.last(), d));
    } else {
        let sh0 = SharedV { cap: w.doc.waf_body_mb, agg: w.agg, notes: w.notes };
        let st0 = location::empty_loc(ctx.waf);
        let (st, sh) = location::loc_scan(st0, sh0, loc.directives, loc.directives.len(), m);
        lemma_roots(st0, sh0, loc.directives, loc.directives.len(), m);
        lemma_path_told(loc, sh.notes, d);
        let n1 = location::path_of(loc, sh.notes).1;
        match st.proxy {
            Some(p) => {
                let told = location::files_told(loc.directives, loc.directives.len(), sh.notes);
                lemma_path_told(loc, told, d);
                lemma_reported_grown(location::path_of(loc, told).1, w1.notes, d);
            },
            None => {
                if !location::serves_files(st) || loc.modifier == LocMod::Exact {
                    assert(on(w1.notes.last(), d));
                } else {
                    lemma_reported_grown(n1, w1.notes, d);
                }
            },
        }
    }
}

/// A directive that is settled in a location of the list that is gone through.
pub open spec fn settled_in_locations(ls: Seq<LocationV>, n: nat, d: Dir, m: ModelV) -> bool {
    exists|i: int| 0 <= i < n && settled_at_location(#[trigger] ls[i], d, m)
}

/// A directive of the location that gets a note of its own.
pub open spec fn settled_below(l: LocationV, d: Dir, m: ModelV) -> bool {
    settled_in_location(d, m) || targeted(l) && location::on_files(d.name)
}

/// The location's own directive, or one that stands in it.
pub open spec fn settled_at_location(l: LocationV, d: Dir, m: ModelV) -> bool {
    ||| l.modifier != LocMod::Regex && l.directives.contains(d) && settled_below(l, d, m)
    ||| d.name == "location"@ && d.line == l.line && judged(l)
}

proof fn lemma_locations(
    w: WorldV,
    ls: Seq<LocationV>,
    n: nat,
    hosts: Option<Seq<Seq<char>>>,
    ctx: CtxV,
    m: ModelV,
    d: Dir,
)
    requires
        n <= ls.len(),
    ensures
        grown(w.notes, server::locations_of(w, ls, n, hosts, ctx, m).notes),
        settled_in_locations(ls, n, d, m) ==> reported(
            server::locations_of(w, ls, n, hosts, ctx, m).notes,
            d,
        ),
    decreases n,
{
    if n > 0 {
        let k = (n - 1) as nat;
        lemma_locations(w, ls, k, hosts, ctx, m, d);
        let w0 = server::locations_of(w, ls, k, hosts, ctx, m);
        let w1 = location::location_step(w0, ls[k as int], hosts, ctx, m);
        law_location_gets_verdict(w0, ls[k as int], hosts, ctx, m, d);
        if settled_in_locations(ls, n, d, m) {
            if settled_in_locations(ls, k, d, m) {
                lemma_reported_grown(w0.notes, w1.notes, d);
            } else if !(d.name == "location"@ && d.line == ls[k as int].line && judged(
                ls[k as int],
            )) {
                let l = ls[k as int];
                assert(settled_at_location(l, d, m));
                if !settled_in_location(d, m) {
                    law_files_of_a_proxied_location_are_told(w0, l, hosts, ctx, m, d);
                }
                let j = choose|j: int| 0 <= j < l.directives.len() && l.directives[j] == d;
                let sh = SharedV { cap: w0.doc.waf_body_mb, agg: w0.agg, notes: w0.notes };
                lemma_loc_scan(
                    location::empty_loc(ctx.waf),
                    sh,
                    l.directives,
                    l.directives.len(),
                    m,
                );
                if settled_in_location(l.directives[j], m) {
                    lemma_reported_grown(
                        location::loc_scan(
                            location::empty_loc(ctx.waf),
                            sh,
                            l.directives,
                            l.directives.len(),
                            m,
                        ).1.notes,
                        w1.notes,
                        d,
                    );
                }
            }
        }
    }
}

/// The target of a location: the last one that can be used.
pub open spec fn prevails(ds: Seq<Dir>, n: nat, j: int) -> bool {
    &&& 0 <= j < n
    &&& usable_target(ds[j])
    &&& forall|k: int| j < k < n ==> !usable_target(#[trigger] ds[k])
}

proof fn lemma_target(st: LocV, sh: SharedV, ds: Seq<Dir>, n: nat, m: ModelV, j: int)
    requires
        n <= ds.len(),
        prevails(ds, n, j),
    ensures
        location::loc_scan(st, sh, ds, n, m).0.proxy matches Some(p) && p.line == ds[j].line,
    decreases n,
{
    lemma_names();
    let k = (n - 1) as nat;
    if j < k {
        lemma_target(st, sh, ds, k, m, j);
        assert(!usable_target(ds[k as int]));
    }
}

/// Where a location with a target becomes a route, the target is reported, on
/// the line of its `proxy_pass`.
pub proof fn law_routed_target_gets_note(
    w: WorldV,
    loc: LocationV,
    hosts: Option<Seq<Seq<char>>>,
    ctx: CtxV,
    m: ModelV,
    j: int,
)
    requires
        prevails(loc.directives, loc.directives.len(), j),
        location::location_step(w, loc, hosts, ctx, m).doc.routes.len() > w.doc.routes.len(),
    ensures
        reported(location::location_step(w, loc, hosts, ctx, m).notes, loc.directives[j]),
{
    let sh = SharedV { cap: w.doc.waf_body_mb, agg: w.agg, notes: w.notes };
    lemma_target(
        location::empty_loc(ctx.waf),
        sh,
        loc.directives,
        loc.directives.len(),
        m,
        j,
    );
    let w1 = location::location_step(w, loc, hosts, ctx, m);
    assert(on(w1.notes.last(), loc.directives[j]));
}

proof fn lemma_later_locations(
    w: WorldV,
    ls: Seq<LocationV>,
    a: nat,
    b: nat,
    hosts: Option<Seq<Seq<char>>>,
    ctx: CtxV,
    m: ModelV,
)
    requires
        a <= b <= ls.len(),
    ensures
        grown(
            server::locations_of(w, ls, a, hosts, ctx, m).notes,
            server::locations_of(w, ls, b, hosts, ctx, m).notes,
        ),
    decreases b - a,
{
    if a < b {
        let any = Dir { name: seq![], args: seq![], block: None, line: 0 };
        let k = (b - 1) as nat;
        lemma_later_locations(w, ls, a, k, hosts, ctx, m);
        law_location_gets_verdict(
            server::locations_of(w, ls, k, hosts, ctx, m),
            ls[k as int],
            hosts,
            ctx,
            m,
            any,
        );
    }
}

// ── Notes stay: servers ─────────────────────────────────────────────────
proof fn lemma_server_scan(s: ScanV, ds: Seq<Dir>, n: nat, m: ModelV)
    requires
        n <= ds.len(),
    ensures
        grown(s.sh.notes, server::server_scan(s, ds, n, m).sh.notes),
        forall|i: int|
            0 <= i < n && settled_in_server(#[trigger] ds[i], m) ==> reported(
                server::server_scan(s, ds, n, m).sh.notes,
                ds[i],
            ),
    decreases n,
{
    if n > 0 {
        lemma_server_scan(s, ds, (n - 1) as nat, m);
        let s0 = server::server_scan(s, ds, (n - 1) as nat, m);
        let s1 = server::server_step(s0, ds[n - 1], m);
        law_server_directive_is_settled(s0, ds[n - 1], m);
        assert forall|i: int| 0 <= i < n && settled_in_server(#[trigger] ds[i], m) implies reported(
            s1.sh.notes,
            ds[i],
        ) by {
            if i < n - 1 {
                lemma_reported_grown(s0.sh.notes, s1.sh.notes, ds[i]);
            } else {
                lemma_reported_last(s0.sh.notes, s1.sh.notes, ds[i]);
            }
        }
    }
}

/// A directive that is settled where a server is gone through: in the server
/// itself, or in one of its locations.
pub open spec fn settled_by_server(s: ServerV, d: Dir, m: ModelV) -> bool {
    ||| s.directives.contains(d) && settled_in_server(d, m)
    ||| settled_in_locations(s.locations, s.locations.len(), d, m)
}

proof fn lemma_server(
    w: WorldV,
    s: ServerV,
    hosts: Option<Seq<Seq<char>>>,
    m: ModelV,
    d: Dir,
)
    ensures
        grown(w.notes, server::map_server_of(w, s, hosts, m).notes),
        settled_by_server(s, d, m) ==> reported(server::map_server_of(w, s, hosts, m).notes, d),
{
    let start = ScanV {
        ctx: server::empty_ctx(),
        trusted: w.doc.trusted_proxies,
        sh: SharedV { cap: w.doc.waf_body_mb, agg: w.agg, notes: w.notes },
    };
    let scan = server::server_scan(start, s.directives, s.directives.len(), m);
    lemma_server_scan(start, s.directives, s.directives.len(), m);
    let w1 = WorldV {
        doc: import::map::DocV {
            trusted_proxies: scan.trusted,
            waf_body_mb: scan.sh.cap,
            ..w.doc
        },
        agg: scan.sh.agg,
        notes: scan.sh.notes,
        ..w
    };
    let w2 = server::locations_of(w1, s.locations, s.locations.len(), hosts, scan.ctx, m);
    lemma_locations(w1, s.locations, s.locations.len(), hosts, scan.ctx, m, d);
    let w3 = server::map_server_of(w, s, hosts, m);
    assert(grown(w2.notes, w3.notes));
    if s.directives.contains(d) && settled_in_server(d, m) {
        let j = choose|j: int| 0 <= j < s.directives.len() && s.directives[j] == d;
        assert(settled_in_server(s.directives[j], m));
        lemma_reported_grown(scan.sh.notes, w2.notes, d);
    }
    if settled_by_server(s, d, m) {
        lemma_reported_grown(w2.notes, w3.notes, d);
    }
}

/// A directive that is settled where one of the kept servers is gone through.
pub open spec fn settled_by_kept(kept: Seq<KeptV>, n: nat, d: Dir, m: ModelV) -> bool {
    exists|i: int| 0 <= i < n && settled_by_server((#[trigger] kept[i]).server, d, m)
}

proof fn lemma_servers(w: WorldV, kept: Seq<KeptV>, n: nat, m: ModelV, d: Dir)
    requires
        n <= kept.len(),
    ensures
        grown(w.notes, import::map::map_servers(w, kept, n, m).notes),
        settled_by_kept(kept, n, d, m) ==> reported(import::map::map_servers(w, kept, n, m).notes, d),
    decreases n,
{
    if n > 0 {
        let k = (n - 1) as nat;
        lemma_servers(w, kept, k, m, d);
        let w0 = import::map::map_servers(w, kept, k, m);
        let w1 = import::map::map_servers(w, kept, n, m);
        lemma_server(w0, kept[k as int].server, kept[k as int].hosts, m, d);
        if settled_by_kept(kept, k, d, m) {
            lemma_reported_grown(w0.notes, w1.notes, d);
        }
    }
}

proof fn lemma_later_servers(w: WorldV, kept: Seq<KeptV>, a: nat, b: nat, m: ModelV)
    requires
        a <= b <= kept.len(),
    ensures
        grown(
            import::map::map_servers(w, kept, a, m).notes,
            import::map::map_servers(w, kept, b, m).notes,
        ),
    decreases b - a,
{
    if a < b {
        let any = Dir { name: seq![], args: seq![], block: None, line: 0 };
        let k = (b - 1) as nat;
        lemma_later_servers(w, kept, a, k, m);
        lemma_server(
            import::map::map_servers(w, kept, k, m),
            kept[k as int].server,
            kept[k as int].hosts,
            m,
            any,
        );
    }
}

// ── Notes stay: which servers are kept ──────────────────────────────────
proof fn lemma_names_grown(names: Seq<Seq<char>>, n: nat, line: int, notes: Seq<Note>)
    requires
        n <= names.len(),
    ensures
        grown(notes, servers::names_of(names, n, line, notes).notes),
    decreases n,
{
    if n > 0 {
        lemma_names_grown(names, (n - 1) as nat, line, notes);
    }
}

proof fn lemma_kept_grown(ss: Seq<ServerV>, n: nat, notes: Seq<Note>)
    requires
        n <= ss.len(),
    ensures
        grown(notes, servers::kept_of(ss, n, notes).1),
    decreases n,
{
    if n > 0 {
        lemma_kept_grown(ss, (n - 1) as nat, notes);
        let (kept, f) = servers::kept_of(ss, (n - 1) as nat, notes);
        let s = ss[n - 1];
        lemma_names_grown(s.names, s.names.len(), s.names_line, f);
        assert(grown(f, servers::hosts_of(s, f).1));
        assert(grown(f, servers::keep_step(kept, f, s).1));
    }
}

/// A server block is kept, or the report says what became of it.
pub proof fn law_dropped_server_is_reported(kept: Seq<KeptV>, notes: Seq<Note>, s: ServerV)
    ensures
        ({
            let (k, n) = servers::keep_step(kept, notes, s);
            &&& grown(notes, n)
            &&& k == kept || (k.len() == kept.len() + 1 && k.drop_last() == kept && k.last().server
                == s)
            &&& k == kept ==> n.len() > notes.len() && n.last().line == s.line
                && n.last().directive == "server"@
        }),
{
    lemma_names_grown(s.names, s.names.len(), s.names_line, notes);
    assert(grown(notes, servers::hosts_of(s, notes).1));
    let (k, n) = servers::keep_step(kept, notes, s);
    if k.len() == kept.len() + 1 {
        assert(k.drop_last() =~= kept);
    }
}

proof fn lemma_shared_grown(kept: Seq<KeptV>, n: nat, notes: Seq<Note>)
    requires
        n <= kept.len(),
    ensures
        grown(notes, import::map::shared_notes(kept, n, notes)),
    decreases n,
{
    if n > 0 {
        lemma_shared_grown(kept, (n - 1) as nat, notes);
    }
}

proof fn lemma_met_hosts_grown(
    st: import::map::MetV,
    hosts: Seq<Seq<char>>,
    n: nat,
    line: int,
)
    requires
        n <= hosts.len(),
    ensures
        grown(st.notes, import::map::met_hosts(st, hosts, n, line).notes),
    decreases n,
{
    if n > 0 {
        lemma_met_hosts_grown(st, hosts, (n - 1) as nat, line);
    }
}

proof fn lemma_met_grown(st: import::map::MetV, kept: Seq<KeptV>, n: nat)
    requires
        n <= kept.len(),
    ensures
        grown(st.notes, import::map::met_servers(st, kept, n).notes),
    decreases n,
{
    if n > 0 {
        lemma_met_grown(st, kept, (n - 1) as nat);
        let p = import::map::met_servers(st, kept, (n - 1) as nat);
        if let Some(h) = kept[n - 1].hosts {
            lemma_met_hosts_grown(p, h, h.len(), kept[n - 1].server.line);
        }
    }
}

// ── Notes stay: listeners ───────────────────────────────────────────────
/// A note on a line, under `listen`.
pub open spec fn listen_reported(notes: Seq<Note>, line: int) -> bool {
    exists|i: int|
        0 <= i < notes.len() && (#[trigger] notes[i]).line == line && notes[i].directive
            == "listen"@
}

proof fn lemma_listen_reported_grown(a: Seq<Note>, b: Seq<Note>, line: int)
    requires
        grown(a, b),
        listen_reported(a, line),
    ensures
        listen_reported(b, line),
{
    let i = choose|i: int|
        0 <= i < a.len() && (#[trigger] a[i]).line == line && a[i].directive == "listen"@;
    assert(b[i] == a[i]);
}

proof fn lemma_flags_grown(st: PortsV, flags: Seq<Seq<char>>, n: nat, line: int)
    requires
        n <= flags.len(),
    ensures
        grown(st.notes, listen::flags_of(st, flags, n, line).notes),
    decreases n,
{
    if n > 0 {
        lemma_flags_grown(st, flags, (n - 1) as nat, line);
    }
}

proof fn lemma_listen_step(st: PortsV, l: model::ListenV, forced: bool)
    ensures
        grown(st.notes, listen::listen_step(st, l, forced).notes),
        listen_reported(listen::listen_step(st, l, forced).notes, l.line),
{
    let tls = l.ssl || forced;
    let after = listen::listen_step(st, l, forced);
    match listen::listen_parts(l.addr, tls) {
        None => {
            assert(after.notes[st.notes.len() as int].directive == "listen"@);
        },
        Some((host, port)) => {
            let st1 = match host {
                Some(h) if listen::narrow_host(h) => listen::noted(
                    st,
                    Status::Partial,
                    l.line,
                    "nginx bound to "@ + h
                        + "; Zion listens on 0.0.0.0 — narrow with a firewall if needed"@,
                ),
                _ => st,
            };
            let st2 = listen::port_step(st1, tls, port, l.line);
            assert(grown(st.notes, st1.notes));
            assert(grown(st1.notes, st2.notes));
            assert(st2.notes[st1.notes.len() as int].directive == "listen"@);
            assert(listen_reported(st2.notes, l.line));
            lemma_flags_grown(st2, l.flags, l.flags.len(), l.line);
            lemma_listen_reported_grown(st2.notes, after.notes, l.line);
        },
    }
}

proof fn lemma_listens(st: PortsV, ls: Seq<model::ListenV>, n: nat, forced: bool, line: int)
    requires
        n <= ls.len(),
    ensures
        grown(st.notes, listen::listens_of(st, ls, n, forced).notes),
        (exists|i: int| 0 <= i < n && (#[trigger] ls[i]).line == line) ==> listen_reported(
            listen::listens_of(st, ls, n, forced).notes,
            line,
        ),
    decreases n,
{
    if n > 0 {
        let k = (n - 1) as nat;
        lemma_listens(st, ls, k, forced, line);
        let a = listen::listens_of(st, ls, k, forced);
        let b = listen::listens_of(st, ls, n, forced);
        lemma_listen_step(a, ls[k as int], forced);
        if exists|i: int| 0 <= i < k && (#[trigger] ls[i]).line == line {
            lemma_listen_reported_grown(a.notes, b.notes, line);
        }
    }
}

/// A kept server listens by a directive on that line.
pub open spec fn listens_on_line(kept: Seq<KeptV>, n: nat, line: int) -> bool {
    exists|i: int, j: int|
        0 <= i < n && 0 <= j < kept[i].server.listens.len() && (
        #[trigger] kept[i].server.listens[j]).line == line
}

proof fn lemma_ports(kept: Seq<KeptV>, n: nat, notes: Seq<Note>, line: int)
    requires
        n <= kept.len(),
    ensures
        grown(notes, listen::ports_of(kept, n, notes).notes),
        listens_on_line(kept, n, line) ==> listen_reported(
            listen::ports_of(kept, n, notes).notes,
            line,
        ),
    decreases n,
{
    if n > 0 {
        let k = (n - 1) as nat;
        lemma_ports(kept, k, notes, line);
        let a = listen::ports_of(kept, k, notes);
        let b = listen::ports_of(kept, n, notes);
        let s = kept[k as int].server;
        lemma_listens(a, s.listens, s.listens.len(), servers::ssl_on_of(s), line);
        if listens_on_line(kept, k, line) {
            lemma_listen_reported_grown(a.notes, b.notes, line);
        } else if listens_on_line(kept, n, line) {
            let (i, j) = choose|i: int, j: int|
                0 <= i < n && 0 <= j < kept[i].server.listens.len() && (
                #[trigger] kept[i].server.listens[j]).line == line;
            assert(i == k);
            assert(s.listens[j].line == line);
        }
    }
}

// ── Notes stay: certificates ────────────────────────────────────────────
/// A directive on certificates that is reported on its own line. (The key of a
/// pair is taken up with the pair's certificate.)
pub open spec fn certificate_owed(d: Dir) -> bool {
    ||| d.name == "ssl_protocols"@
    ||| d.name == "ssl_certificate"@
    ||| d.name == "ssl_certificate_key"@ && d.args.len() == 0
}

/// The directive is reported, or its certificate is the one that is held.
spec fn told_or_held(st: tls::PairV, d: Dir) -> bool {
    ||| reported(st.notes, d)
    ||| d.name == "ssl_certificate"@ && st.cert is Some && st.line == d.line
}

proof fn lemma_pair(st: tls::PairV, ds: Seq<Dir>, n: nat)
    requires
        n <= ds.len(),
    ensures
        grown(st.notes, tls::pair_of(st, ds, n).notes),
        forall|i: int|
            0 <= i < n && certificate_owed(#[trigger] ds[i]) ==> told_or_held(
                tls::pair_of(st, ds, n),
                ds[i],
            ),
    decreases n,
{
    if n > 0 {
        lemma_pair(st, ds, (n - 1) as nat);
        lemma_names();
        let a = tls::pair_of(st, ds, (n - 1) as nat);
        let b = tls::pair_step(a, ds[n - 1]);
        assert(grown(a.notes, b.notes));
        assert forall|i: int| 0 <= i < n && certificate_owed(#[trigger] ds[i]) implies told_or_held(
            b,
            ds[i],
        ) by {
            if i < n - 1 {
                if reported(a.notes, ds[i]) {
                    lemma_reported_grown(a.notes, b.notes, ds[i]);
                }
            } else if b.notes.len() > a.notes.len() {
                assert(on(b.notes[a.notes.len() as int], ds[i]));
            }
        }
    }
}

/// A kept server has the directive.
pub open spec fn kept_with(kept: Seq<KeptV>, n: nat, d: Dir) -> bool {
    exists|i: int| 0 <= i < n && (#[trigger] kept[i]).server.directives.contains(d)
}

/// A pair on the line.
spec fn pair_on(entries: Seq<tls::CertV>, line: int) -> bool {
    exists|j: int| 0 <= j < entries.len() && (#[trigger] entries[j]).line == line
}

/// The directive is reported, or it gives one of the pairs.
spec fn told_or_paired(st: tls::PairsV, d: Dir) -> bool {
    ||| reported(st.notes, d)
    ||| d.name == "ssl_certificate"@ && pair_on(st.entries, d.line)
}

proof fn lemma_server_pair(a: tls::PairsV, k: KeptV, d: Dir)
    ensures
        grown(a.notes, tls::server_pair(a, k).notes),
        told_or_paired(a, d) ==> told_or_paired(tls::server_pair(a, k), d),
        k.server.directives.contains(d) && certificate_owed(d) ==> told_or_paired(
            tls::server_pair(a, k),
            d,
        ),
{
    let b = tls::server_pair(a, k);
    let s = k.server;
    let start = tls::PairV {
        cert: None,
        key: None,
        line: s.line,
        min12: a.min12,
        notes: a.notes,
    };
    let p = tls::pair_of(start, s.directives, s.directives.len());
    lemma_pair(start, s.directives, s.directives.len());
    assert(grown(p.notes, b.notes));
    if reported(a.notes, d) {
        lemma_reported_grown(a.notes, b.notes, d);
    } else if d.name == "ssl_certificate"@ && pair_on(a.entries, d.line) {
        let j = choose|j: int| 0 <= j < a.entries.len() && (#[trigger] a.entries[j]).line == d.line;
        assert(b.entries[j].line == d.line);
    }
    if s.directives.contains(d) && certificate_owed(d) {
        let j = choose|j: int| 0 <= j < s.directives.len() && s.directives[j] == d;
        assert(certificate_owed(s.directives[j]));
        if reported(p.notes, d) {
            lemma_reported_grown(p.notes, b.notes, d);
        } else if p.key is Some {
            assert(b.entries[a.entries.len() as int].line == d.line);
        } else {
            assert(on(b.notes[p.notes.len() as int], d));
        }
    }
}

proof fn lemma_pairs(st: tls::PairsV, kept: Seq<KeptV>, n: nat, d: Dir)
    requires
        n <= kept.len(),
    ensures
        grown(st.notes, tls::pairs_of(st, kept, n).notes),
        kept_with(kept, n, d) && certificate_owed(d) ==> told_or_paired(
            tls::pairs_of(st, kept, n),
            d,
        ),
    decreases n,
{
    if n > 0 {
        let k = (n - 1) as nat;
        lemma_pairs(st, kept, k, d);
        lemma_server_pair(tls::pairs_of(st, kept, k), kept[k as int], d);
    }
}

proof fn lemma_wildcards_grown(notes: Seq<Note>, e: tls::CertV, n: nat, cert: Seq<char>)
    ensures
        grown(notes, tls::wildcard_notes(notes, e, n, cert)),
        n > 0 ==> on_line_of(tls::wildcard_notes(notes, e, n, cert), e),
    decreases n,
{
    if n > 0 {
        lemma_wildcards_grown(notes, e, (n - 1) as nat, cert);
        let q = tls::wildcard_notes(notes, e, (n - 1) as nat, cert);
        assert(of_pair(tls::wildcard_notes(notes, e, n, cert)[q.len() as int], e));
    }
}

/// The note is a verdict on the pair.
spec fn of_pair(n: Note, e: tls::CertV) -> bool {
    n.line == e.line && n.directive == "ssl_certificate"@
}

/// One of the notes is a verdict on the pair.
spec fn on_line_of(notes: Seq<Note>, e: tls::CertV) -> bool {
    exists|i: int| 0 <= i < notes.len() && of_pair(#[trigger] notes[i], e)
}

proof fn lemma_on_line_grown(a: Seq<Note>, b: Seq<Note>, e: tls::CertV)
    requires
        grown(a, b),
        on_line_of(a, e),
    ensures
        on_line_of(b, e),
{
    let i = choose|i: int| 0 <= i < a.len() && of_pair(#[trigger] a[i], e);
    assert(b[i] == a[i]);
}

proof fn lemma_exact_grown(st: tls::SniTableV, e: tls::CertV, n: nat, is_default: bool)
    ensures
        grown(st.notes, tls::exact_hosts(st, e, n, is_default).notes),
        n > 0 && !is_default ==> on_line_of(tls::exact_hosts(st, e, n, is_default).notes, e),
    decreases n,
{
    if n > 0 {
        lemma_exact_grown(st, e, (n - 1) as nat, is_default);
        let q = tls::exact_hosts(st, e, (n - 1) as nat, is_default).notes;
        if !is_default {
            assert(of_pair(tls::exact_hosts(st, e, n, is_default).notes[q.len() as int], e));
        }
    }
}

/// Every pair gets a verdict on its line: the default one when it is chosen,
/// and each of the others when the table is made.
pub proof fn law_pair_gets_verdict(
    p: tls::SniTableV,
    e: tls::CertV,
    default_cert: Seq<char>,
    is_default: bool,
    d: Dir,
)
    ensures
        grown(p.notes, tls::entry_step(p, e, default_cert, is_default).notes),
        !is_default && d.name == "ssl_certificate"@ && d.line == e.line ==> reported(
            tls::entry_step(p, e, default_cert, is_default).notes,
            d,
        ),
{
    let t = tls::entry_step(p, e, default_cert, is_default);
    lemma_wildcards_grown(p.notes, e, e.wildcard.len(), default_cert);
    let q = tls::SniTableV {
        notes: tls::wildcard_notes(p.notes, e, e.wildcard.len(), default_cert),
        ..p
    };
    let x = tls::exact_hosts(q, e, e.exact.len(), is_default);
    lemma_exact_grown(q, e, e.exact.len(), is_default);
    assert(grown(x.notes, t.notes));
    if !is_default && d.name == "ssl_certificate"@ && d.line == e.line {
        if e.wildcard.len() > 0 {
            lemma_on_line_grown(q.notes, t.notes, e);
        } else if e.exact.len() > 0 {
            lemma_on_line_grown(x.notes, t.notes, e);
        } else {
            assert(of_pair(t.notes[x.notes.len() as int], e));
        }
        let i = choose|i: int| 0 <= i < t.notes.len() && of_pair(#[trigger] t.notes[i], e);
        assert(on(t.notes[i], d));
    }
}

proof fn lemma_sni(st: tls::SniTableV, entries: Seq<tls::CertV>, n: nat, default_idx: nat, d: Dir)
    requires
        n <= entries.len(),
    ensures
        grown(st.notes, tls::sni_table(st, entries, n, default_idx).notes),
        d.name == "ssl_certificate"@ ==> forall|j: int|
            0 <= j < n && j != default_idx && (#[trigger] entries[j]).line == d.line ==> reported(
                tls::sni_table(st, entries, n, default_idx).notes,
                d,
            ),
    decreases n,
{
    if n > 0 {
        lemma_sni(st, entries, (n - 1) as nat, default_idx, d);
        let p = tls::sni_table(st, entries, (n - 1) as nat, default_idx);
        let t = tls::sni_table(st, entries, n, default_idx);
        law_pair_gets_verdict(
            p,
            entries[n - 1],
            entries[default_idx as int].cert,
            n - 1 == default_idx,
            d,
        );
        if reported(p.notes, d) {
            lemma_reported_grown(p.notes, t.notes, d);
        }
    }
}

proof fn lemma_tls(doc: import::map::DocV, kept: Seq<KeptV>, notes: Seq<Note>, d: Dir)
    ensures
        grown(notes, tls::tls_doc(doc, kept, notes).1),
        kept_with(kept, kept.len(), d) && certificate_owed(d) ==> reported(
            tls::tls_doc(doc, kept, notes).1,
            d,
        ),
{
    let start = tls::PairsV { entries: seq![], min12: doc.tls_min12, notes };
    let p = tls::pairs_of(start, kept, kept.len());
    lemma_pairs(start, kept, kept.len(), d);
    if p.entries.len() > 0 {
        let i = tls::default_pair(p.entries, 0);
        let e = p.entries[i as int];
        let st = tls::SniTableV {
            seen: seq![],
            sni: doc.sni,
            notes: p.notes.push(
                import::note(
                    Status::Convert,
                    e.line,
                    "ssl_certificate"@,
                    "default [tls] certificate pair (ssl_certificate + ssl_certificate_key)"@,
                ),
            ),
        };
        assert(grown(p.notes, st.notes));
        lemma_sni(st, p.entries, p.entries.len(), i, d);
        let after = tls::tls_doc(doc, kept, notes).1;
        if kept_with(kept, kept.len(), d) && certificate_owed(d) {
            if reported(p.notes, d) {
                lemma_reported_grown(p.notes, after, d);
            } else {
                let j = choose|j: int|
                    0 <= j < p.entries.len() && (#[trigger] p.entries[j]).line == d.line;
                if j == i {
                    assert(on(st.notes[p.notes.len() as int], d));
                    lemma_reported_grown(st.notes, after, d);
                }
            }
        }
    }
}

// ── Notes stay: limits and upstreams ────────────────────────────────────
proof fn lemma_conflicts_grown(
    rates: Seq<(u32, u64, u32)>,
    conns: Seq<(u32, u32)>,
    n: nat,
    notes: Seq<Note>,
)
    ensures
        grown(notes, directives::rate_conflicts(rates, n, notes)),
        grown(notes, directives::cap_conflicts(conns, n, notes)),
        directives::rate_conflicts(rates, n, notes).len() == notes.len() + n,
        directives::cap_conflicts(conns, n, notes).len() == notes.len() + n,
    decreases n,
{
    if n > 0 {
        lemma_conflicts_grown(rates, conns, (n - 1) as nat, notes);
    }
}

proof fn lemma_unused_grown(m: ModelV, agg: AggV, n: nat, notes: Seq<Note>)
    ensures
        grown(notes, directives::unused_req_zones(m, agg, n, notes)),
        grown(notes, directives::unused_conn_zones(m, agg, n, notes)),
    decreases n,
{
    if n > 0 {
        lemma_unused_grown(m, agg, (n - 1) as nat, notes);
    }
}

/// Limits that were counted are told: applied globally, or one by one as not
/// applied where they differ.
pub proof fn law_counted_limits_are_told(agg: AggV, notes: Seq<Note>)
    ensures
        ({
            let (rate, n1) = directives::rate_limit_of(agg, notes);
            let (cap, n2) = directives::conn_cap_of(agg, n1);
            &&& grown(notes, n1) && grown(n1, n2)
            &&& agg.rates.len() > 0 ==> n1.len() == notes.len() + (if rate is Some {
                1
            } else {
                agg.rates.len()
            })
            &&& agg.conns.len() > 0 ==> n2.len() == n1.len() + (if cap is Some {
                1
            } else {
                agg.conns.len()
            })
        }),
{
    let (rate, n1) = directives::rate_limit_of(agg, notes);
    lemma_conflicts_grown(agg.rates, agg.conns, agg.rates.len(), notes);
    lemma_conflicts_grown(agg.rates, agg.conns, agg.conns.len(), n1);
}

proof fn lemma_limits_doc(doc: import::map::DocV, agg: AggV, m: ModelV, notes: Seq<Note>)
    ensures
        grown(notes, directives::limits_doc(doc, agg, m, notes).1),
{
    law_counted_limits_are_told(agg, notes);
    let (rate, n1) = directives::rate_limit_of(agg, notes);
    let (cap, n2) = directives::conn_cap_of(agg, n1);
    lemma_unused_grown(m, agg, m.req_zones.len(), n2);
    let n3 = directives::unused_req_zones(m, agg, m.req_zones.len(), n2);
    lemma_unused_grown(m, agg, m.conn_zones.len(), n3);
}

proof fn lemma_flags_of_member(s: model::PoolServerV, n: nat, notes: Seq<Note>)
    ensures
        grown(notes, upstream::member_flags(s, n, notes)),
    decreases n,
{
    if n > 0 {
        lemma_flags_of_member(s, (n - 1) as nat, notes);
    }
}

proof fn lemma_members_grown(
    ss: Seq<model::PoolServerV>,
    n: nat,
    scheme: Seq<char>,
    notes: Seq<Note>,
)
    ensures
        grown(notes, upstream::members_of(ss, n, scheme, notes).1),
    decreases n,
{
    if n > 0 {
        lemma_members_grown(ss, (n - 1) as nat, scheme, notes);
        let f = upstream::members_of(ss, (n - 1) as nat, scheme, notes).1;
        let s = ss[n - 1];
        lemma_flags_of_member(s, s.flags.len(), f);
    }
}

proof fn lemma_extras(extras: Seq<Dir>, n: nat, notes: Seq<Note>)
    requires
        n <= extras.len(),
    ensures
        grown(notes, upstream::extra_notes(extras, n, notes)),
        forall|i: int|
            0 <= i < n ==> reported(
                upstream::extra_notes(extras, n, notes),
                #[trigger] extras[i],
            ),
    decreases n,
{
    if n > 0 {
        lemma_extras(extras, (n - 1) as nat, notes);
        let a = upstream::extra_notes(extras, (n - 1) as nat, notes);
        let b = upstream::extra_notes(extras, n, notes);
        assert forall|i: int| 0 <= i < n implies reported(b, #[trigger] extras[i]) by {
            if i < n - 1 {
                lemma_reported_grown(a, b, extras[i]);
            } else {
                assert(on(b[a.len() as int], extras[i]));
            }
        }
    }
}

/// A directive of a pool that Zion does not take.
pub open spec fn extra_of_pool(pools: Seq<model::PoolV>, n: nat, d: Dir) -> bool {
    exists|i: int| 0 <= i < n && (#[trigger] pools[i]).extras.contains(d)
}

proof fn lemma_pools(reg: RegV, n: nat, notes: Seq<Note>, d: Dir)
    requires
        n <= reg.pools.len(),
    ensures
        grown(notes, upstream::pools_out(reg, n, notes).1),
        extra_of_pool(reg.pools, n, d) ==> reported(upstream::pools_out(reg, n, notes).1, d),
    decreases n,
{
    if n > 0 {
        let k = (n - 1) as nat;
        lemma_pools(reg, k, notes, d);
        let (out, a) = upstream::pools_out(reg, k, notes);
        let (_, b) = upstream::pools_out(reg, n, notes);
        let p = reg.pools[k as int];
        let i = upstream::use_index(reg.uses, p.name, 0);
        let used = i < reg.uses.len();
        let scheme = if used {
            reg.uses[i as int].scheme
        } else {
            "http"@
        };
        let n1 = if used {
            a
        } else {
            a.push(
                import::note(
                    Status::Auto,
                    p.line,
                    "upstream"@,
                    "pool '"@ + p.name + "' is not referenced by any converted route"@,
                ),
            )
        };
        assert(grown(a, n1));
        let n2 = upstream::members_of(p.servers, p.servers.len(), scheme, n1).1;
        lemma_members_grown(p.servers, p.servers.len(), scheme, n1);
        let n3 = upstream::extra_notes(p.extras, p.extras.len(), n2);
        lemma_extras(p.extras, p.extras.len(), n2);
        assert(grown(n3, b));
        if extra_of_pool(reg.pools, k, d) {
            lemma_reported_grown(a, b, d);
        } else if extra_of_pool(reg.pools, n, d) {
            assert(p.extras.contains(d));
            let j = choose|j: int| 0 <= j < p.extras.len() && p.extras[j] == d;
            assert(reported(n3, p.extras[j]));
            lemma_reported_grown(n3, b, d);
        }
    }
}

// ── Notes stay: the mapping ─────────────────────────────────────────────
proof fn lemma_location_keeps_pools(
    w: WorldV,
    loc: LocationV,
    hosts: Option<Seq<Seq<char>>>,
    ctx: CtxV,
    m: ModelV,
)
    ensures
        location::location_step(w, loc, hosts, ctx, m).reg.pools == w.reg.pools,
{
}

proof fn lemma_locations_keep_pools(
    w: WorldV,
    ls: Seq<LocationV>,
    n: nat,
    hosts: Option<Seq<Seq<char>>>,
    ctx: CtxV,
    m: ModelV,
)
    ensures
        server::locations_of(w, ls, n, hosts, ctx, m).reg.pools == w.reg.pools,
    decreases n,
{
    if n > 0 {
        lemma_locations_keep_pools(w, ls, (n - 1) as nat, hosts, ctx, m);
        let w0 = server::locations_of(w, ls, (n - 1) as nat, hosts, ctx, m);
        lemma_location_keeps_pools(w0, ls[n - 1], hosts, ctx, m);
    }
}

proof fn lemma_server_keeps_pools(
    w: WorldV,
    s: ServerV,
    hosts: Option<Seq<Seq<char>>>,
    m: ModelV,
)
    ensures
        server::map_server_of(w, s, hosts, m).reg.pools == w.reg.pools,
{
    let start = ScanV {
        ctx: server::empty_ctx(),
        trusted: w.doc.trusted_proxies,
        sh: SharedV { cap: w.doc.waf_body_mb, agg: w.agg, notes: w.notes },
    };
    let scan = server::server_scan(start, s.directives, s.directives.len(), m);
    let w1 = WorldV {
        doc: import::map::DocV {
            trusted_proxies: scan.trusted,
            waf_body_mb: scan.sh.cap,
            ..w.doc
        },
        agg: scan.sh.agg,
        notes: scan.sh.notes,
        ..w
    };
    lemma_locations_keep_pools(w1, s.locations, s.locations.len(), hosts, scan.ctx, m);
}

proof fn lemma_servers_keep_pools(w: WorldV, kept: Seq<KeptV>, n: nat, m: ModelV)
    ensures
        import::map::map_servers(w, kept, n, m).reg.pools == w.reg.pools,
    decreases n,
{
    if n > 0 {
        lemma_servers_keep_pools(w, kept, (n - 1) as nat, m);
        let w0 = import::map::map_servers(w, kept, (n - 1) as nat, m);
        lemma_server_keeps_pools(w0, kept[n - 1].server, kept[n - 1].hosts, m);
    }
}

/// The servers of a model that are kept.
pub open spec fn kept_servers(m: ModelV, notes: Seq<Note>) -> Seq<KeptV> {
    servers::kept_of(m.servers, m.servers.len(), notes).0
}

proof fn lemma_model(m: ModelV, notes: Seq<Note>, d: Dir, line: int)
    ensures
        ({
            let kept = kept_servers(m, notes);
            let after = import::map::map_model_of(m, notes).1;
            &&& grown(notes, after)
            &&& settled_by_kept(kept, kept.len(), d, m) ==> reported(after, d)
            &&& kept_with(kept, kept.len(), d) && certificate_owed(d) ==> reported(after, d)
            &&& listens_on_line(kept, kept.len(), line) ==> listen_reported(after, line)
            &&& extra_of_pool(m.pools, m.pools.len(), d) ==> reported(after, d)
        }),
{
    let (kept, n1) = servers::kept_of(m.servers, m.servers.len(), notes);
    lemma_kept_grown(m.servers, m.servers.len(), notes);
    let n2 = import::map::shared_notes(kept, kept.len(), n1);
    lemma_shared_grown(kept, kept.len(), n1);
    let met = import::map::MetV { seen: seq![], flagged: seq![], notes: n2 };
    let n3 = import::map::met_servers(met, kept, kept.len()).notes;
    lemma_met_grown(met, kept, kept.len());
    let n4 = import::map::plain_notes(kept, n3);
    assert(grown(n3, n4));
    let ports = listen::ports_of(kept, kept.len(), n4);
    lemma_ports(kept, kept.len(), n4, line);
    let doc0 = listen::listen_doc(import::map::empty_doc(), ports);
    let (doc, n5) = tls::tls_doc(doc0, kept, ports.notes);
    lemma_tls(doc0, kept, ports.notes, d);
    let w0 = WorldV {
        doc,
        reg: RegV { pools: m.pools, uses: seq![], synth: seq![] },
        agg: directives::empty_agg(),
        notes: n5,
    };
    let w = import::map::routed_of(m, notes);
    assert(w == import::map::map_servers(w0, kept, kept.len(), m));
    lemma_servers(w0, kept, kept.len(), m, d);
    lemma_servers_keep_pools(w0, kept, kept.len(), m);
    let (doc1, n6) = directives::limits_doc(w.doc, w.agg, m, w.notes);
    lemma_limits_doc(w.doc, w.agg, m, w.notes);
    let after = import::map::map_model_of(m, notes).1;
    lemma_pools(w.reg, w.reg.pools.len(), n6, d);
    assert(grown(n6, after));
    assert(grown(w.notes, after));
    assert(grown(n5, after));
    assert(grown(ports.notes, after));
    assert(grown(notes, after));
    if settled_by_kept(kept, kept.len(), d, m) {
        lemma_reported_grown(w.notes, after, d);
    }
    if kept_with(kept, kept.len(), d) && certificate_owed(d) {
        lemma_reported_grown(n5, after, d);
    }
    if listens_on_line(kept, kept.len(), line) {
        lemma_listen_reported_grown(ports.notes, after, line);
    }
}

// ── From the tree to the model ──────────────────────────────────────────
proof fn lemma_own_directives(block: Seq<Dir>, n: nat, f: Seq<Note>, g: Seq<Note>)
    requires
        n <= block.len(),
    ensures
        model::own_directives(block, n, f).0 == model::own_directives(block, n, g).0,
        grown(f, model::own_directives(block, n, f).1),
        forall|i: int|
            0 <= i < n && (#[trigger] block[i]).name == "location"@ ==> reported(
                model::own_directives(block, n, f).1,
                block[i],
            ),
        forall|i: int|
            0 <= i < n && (#[trigger] block[i]).name != "location"@ ==> model::own_directives(
                block,
                n,
                f,
            ).0.contains(block[i]),
    decreases n,
{
    if n > 0 {
        lemma_own_directives(block, (n - 1) as nat, f, g);
        let (ds, a) = model::own_directives(block, (n - 1) as nat, f);
        let (es, b) = model::own_directives(block, n, f);
        assert forall|i: int| 0 <= i < n && (#[trigger] block[i]).name == "location"@ implies reported(
            b,
            block[i],
        ) by {
            if i < n - 1 {
                lemma_reported_grown(a, b, block[i]);
            } else {
                assert(on(b[a.len() as int], block[i]));
            }
        }
        assert forall|i: int| 0 <= i < n && (#[trigger] block[i]).name != "location"@ implies es.contains(
            block[i],
        ) by {
            if i < n - 1 {
                let k = choose|k: int| 0 <= k < ds.len() && ds[k] == block[i];
                assert(es[k] == block[i]);
            } else {
                assert(es[ds.len() as int] == block[i]);
            }
        }
    }
}

proof fn lemma_location_of(d: Dir, f: Seq<Note>, g: Seq<Note>)
    ensures
        model::location_of(d, f).0 == model::location_of(d, g).0,
        grown(f, model::location_of(d, f).1),
        d.name == "location"@ && model::location_of(d, f).0 is None ==> reported(
            model::location_of(d, f).1,
            d,
        ),
{
    let after = model::location_of(d, f).1;
    if d.block is Some {
        lemma_own_directives(d.block->0, d.block->0.len(), f, g);
    }
    if model::location_of(d, f).0 is None && d.name == "location"@ {
        assert(on(after[f.len() as int], d));
    }
}

/// The server that a block makes.
pub open spec fn server_in(b: Seq<Dir>, line: int) -> ServerV {
    model::server_of(b, b.len(), line, seq![]).0
}

/// A directive of a server block that is settled while the block is read.
pub open spec fn settled_by_reading(d: Dir) -> bool {
    ||| d.name == "listen"@ && d.args.len() == 0
    ||| d.name == "location"@ && model::location_of(d, seq![]).0 is None
}

proof fn lemma_names_of_blocks()
    ensures
        "listen"@.len() == 6,
        "location"@.len() == 8,
        "server_name"@.len() == 11,
        "server"@.len() == 6,
        "server"@[0] == 's',
        "listen"@[0] == 'l',
        "upstream"@.len() == 8,
        "upstream"@[0] == 'u',
        "location"@[0] == 'l',
        "http"@.len() == 4,
        "limit_req_zone"@.len() == 14,
        "limit_conn_zone"@.len() == 15,
{
    reveal_strlit("listen");
    reveal_strlit("location");
    reveal_strlit("server_name");
    reveal_strlit("server");
    reveal_strlit("upstream");
    reveal_strlit("http");
    reveal_strlit("limit_req_zone");
    reveal_strlit("limit_conn_zone");
}

/// Where a directive of a server block goes in the server.
spec fn placed_in_server(s: ServerV, d: Dir) -> bool {
    if d.name == "listen"@ {
        d.args.len() > 0 ==> exists|j: int|
            0 <= j < s.listens.len() && (#[trigger] s.listens[j]).line == d.line
    } else if d.name == "server_name"@ {
        true
    } else if d.name == "location"@ {
        model::location_of(d, seq![]).0 is Some ==> s.locations.contains(
            model::location_of(d, seq![]).0->0,
        )
    } else {
        s.directives.contains(d)
    }
}

proof fn lemma_placed_stays(a: ServerV, b: ServerV, d: Dir)
    requires
        placed_in_server(a, d),
        forall|j: int| 0 <= j < a.listens.len() ==> j < b.listens.len() && #[trigger] b.listens[j]
            == a.listens[j],
        forall|j: int| 0 <= j < a.locations.len() ==> j < b.locations.len()
            && #[trigger] b.locations[j] == a.locations[j],
        forall|j: int| 0 <= j < a.directives.len() ==> j < b.directives.len()
            && #[trigger] b.directives[j] == a.directives[j],
    ensures
        placed_in_server(b, d),
{
    lemma_names_of_blocks();
    if d.name == "listen"@ && d.args.len() > 0 {
        let j = choose|j: int| 0 <= j < a.listens.len() && (#[trigger] a.listens[j]).line == d.line;
        assert(b.listens[j].line == d.line);
    } else if d.name == "location"@ && model::location_of(d, seq![]).0 is Some {
        let l = model::location_of(d, seq![]).0->0;
        let j = choose|j: int| 0 <= j < a.locations.len() && a.locations[j] == l;
        assert(b.locations[j] == l);
    } else if d.name != "listen"@ && d.name != "server_name"@ && d.name != "location"@ {
        let j = choose|j: int| 0 <= j < a.directives.len() && a.directives[j] == d;
        assert(b.directives[j] == d);
    }
}

proof fn lemma_listen_line(d: Dir, n: nat)
    requires
        d.args.len() > 0,
    ensures
        model::listen_of(d, n).line == d.line,
    decreases n,
{
    if n > 1 {
        lemma_listen_line(d, (n - 1) as nat);
    }
}

proof fn lemma_server_of(block: Seq<Dir>, n: nat, line: int, f: Seq<Note>)
    requires
        n <= block.len(),
    ensures
        model::server_of(block, n, line, f).0 == model::server_of(block, n, line, seq![]).0,
        grown(f, model::server_of(block, n, line, f).1),
        forall|i: int|
            0 <= i < n ==> placed_in_server(
                model::server_of(block, n, line, f).0,
                #[trigger] block[i],
            ),
        forall|i: int|
            0 <= i < n && settled_by_reading(#[trigger] block[i]) ==> reported(
                model::server_of(block, n, line, f).1,
                block[i],
            ),
    decreases n,
{
    if n > 0 {
        let k = (n - 1) as nat;
        lemma_names_of_blocks();
        lemma_server_of(block, k, line, f);
        let (s0, a) = model::server_of(block, k, line, f);
        let (s1, b) = model::server_of(block, n, line, f);
        let d = block[k as int];
        lemma_location_of(d, a, seq![]);
        lemma_location_of(d, model::server_of(block, k, line, seq![]).1, seq![]);
        assert(grown(a, b));
        assert(placed_in_server(s1, d)) by {
            if d.name == "listen"@ {
                if d.args.len() > 0 {
                    lemma_listen_line(d, d.args.len());
                    assert(s1.listens[s0.listens.len() as int].line == d.line);
                }
            } else if d.name == "location"@ {
                if model::location_of(d, seq![]).0 is Some {
                    assert(s1.locations[s0.locations.len() as int] == model::location_of(
                        d,
                        seq![],
                    ).0->0);
                }
            } else if d.name != "server_name"@ {
                assert(s1.directives[s0.directives.len() as int] == d);
            }
        }
        assert forall|i: int| 0 <= i < n implies placed_in_server(s1, #[trigger] block[i]) by {
            if i < k {
                lemma_placed_stays(s0, s1, block[i]);
            }
        }
        assert forall|i: int| 0 <= i < n && settled_by_reading(#[trigger] block[i]) implies reported(
            b,
            block[i],
        ) by {
            if i < k {
                lemma_reported_grown(a, b, block[i]);
            } else if d.name == "listen"@ {
                assert(on(b[a.len() as int], d));
            }
        }
    }
}

/// A location that stands in a location of the block.
pub open spec fn nested_in(b: Seq<Dir>, x: Dir) -> bool {
    exists|i: int|
        0 <= i < b.len() && (#[trigger] b[i]).name == "location"@ && model::location_of(
            b[i],
            seq![],
        ).0 is Some && b[i].block->0.contains(x) && x.name == "location"@
}

proof fn lemma_nested(block: Seq<Dir>, n: nat, line: int, f: Seq<Note>, i: int, x: Dir)
    requires
        0 <= i < n <= block.len(),
        block[i].name == "location"@,
        model::location_of(block[i], seq![]).0 is Some,
        block[i].block->0.contains(x),
        x.name == "location"@,
    ensures
        reported(model::server_of(block, n, line, f).1, x),
    decreases n,
{
    let k = (n - 1) as nat;
    lemma_names_of_blocks();
    let a = model::server_of(block, k, line, f).1;
    let b = model::server_of(block, n, line, f).1;
    let d = block[k as int];
    lemma_location_of(d, a, seq![]);
    if i < k {
        lemma_nested(block, k, line, f, i, x);
        assert(grown(a, b));
        lemma_reported_grown(a, b, x);
    } else {
        let inner = d.block->0;
        lemma_own_directives(inner, inner.len(), a, seq![]);
        let j = choose|j: int| 0 <= j < inner.len() && inner[j] == x;
        assert(inner[j].name == "location"@);
    }
}

// ── Which servers are kept ──────────────────────────────────────────────
/// A server is gone through: it is more than a redirect, and not all its names
/// were dropped.
pub open spec fn served(s: ServerV) -> bool {
    servers::redirect_kind_of(s) == servers::RedirectKind::No && servers::hosts_of(s, seq![]).0
        !is Skip
}

proof fn lemma_names_same(names: Seq<Seq<char>>, n: nat, line: int, f: Seq<Note>, g: Seq<Note>)
    ensures
        ({
            let a = servers::names_of(names, n, line, f);
            let b = servers::names_of(names, n, line, g);
            a.hosts == b.hosts && a.catchall == b.catchall && a.dropped == b.dropped
        }),
    decreases n,
{
    if n > 0 {
        lemma_names_same(names, (n - 1) as nat, line, f, g);
    }
}

proof fn lemma_kept(ss: Seq<ServerV>, n: nat, notes: Seq<Note>, s: ServerV)
    requires
        n <= ss.len(),
        served(s),
    ensures
        (exists|i: int| 0 <= i < n && #[trigger] ss[i] == s) ==> exists|i: int|
            0 <= i < servers::kept_of(ss, n, notes).0.len() && (#[trigger] servers::kept_of(
                ss,
                n,
                notes,
            ).0[i]).server == s,
    decreases n,
{
    if n > 0 {
        let k = (n - 1) as nat;
        lemma_kept(ss, k, notes, s);
        let (a, f) = servers::kept_of(ss, k, notes);
        let (b, _) = servers::kept_of(ss, n, notes);
        let t = ss[k as int];
        law_dropped_server_is_reported(a, f, t);
        if t == s {
            lemma_names_same(s.names, s.names.len(), s.names_line, f, seq![]);
            assert(b[a.len() as int].server == s);
        } else if exists|i: int| 0 <= i < n && #[trigger] ss[i] == s {
            assert(exists|i: int| 0 <= i < k && #[trigger] ss[i] == s);
            let j = choose|j: int| 0 <= j < a.len() && (#[trigger] a[j]).server == s;
            assert(b[j] == a[j]) by {
                if b != a {
                    assert(b.drop_last()[j] == b[j]);
                }
            }
        }
    }
}

proof fn lemma_dropped(ss: Seq<ServerV>, n: nat, notes: Seq<Note>, s: ServerV)
    requires
        n <= ss.len(),
        !served(s),
    ensures
        (exists|i: int| 0 <= i < n && #[trigger] ss[i] == s) ==> exists|i: int|
            0 <= i < servers::kept_of(ss, n, notes).1.len() && (#[trigger] servers::kept_of(
                ss,
                n,
                notes,
            ).1[i]).line == s.line && servers::kept_of(ss, n, notes).1[i].directive == "server"@,
    decreases n,
{
    if n > 0 {
        let k = (n - 1) as nat;
        lemma_dropped(ss, k, notes, s);
        let (a, f) = servers::kept_of(ss, k, notes);
        let (b, g) = servers::kept_of(ss, n, notes);
        let t = ss[k as int];
        law_dropped_server_is_reported(a, f, t);
        if t == s {
            lemma_names_same(s.names, s.names.len(), s.names_line, f, seq![]);
            assert(g[g.len() - 1].directive == "server"@);
        } else if exists|i: int| 0 <= i < n && #[trigger] ss[i] == s {
            assert(exists|i: int| 0 <= i < k && #[trigger] ss[i] == s);
            let j = choose|j: int|
                0 <= j < f.len() && (#[trigger] f[j]).line == s.line && f[j].directive
                    == "server"@;
            assert(g[j] == f[j]);
        }
    }
}

// ── The walk over the tree ──────────────────────────────────────────────
/// An `http` block, whose content counts as top level.
pub open spec fn http_block(d: Dir) -> bool {
    d.name == "http"@ && d.block is Some
}

/// Whether a directive stands at top level, or in an `http` block there, among
/// the first `n`.
pub open spec fn at_top(items: Seq<Dir>, n: nat, d: Dir) -> bool
    decreases items, n,
{
    if n == 0 || n > items.len() {
        false
    } else {
        ||| at_top(items, (n - 1) as nat, d)
        ||| if http_block(items[n - 1]) {
            at_top(items[n - 1].block->0, items[n - 1].block->0.len(), d)
        } else {
            items[n - 1] == d
        }
    }
}

/// A top-level directive that becomes a part of the model.
pub open spec fn modeled(d: Dir) -> bool {
    ||| d.name == "server"@ && d.block is Some
    ||| d.name == "upstream"@ && d.args.len() > 0 && d.block is Some
    ||| d.name == "limit_req_zone"@ && {
        let z = model::zone_args(d.args, d.args.len(), true);
        z.name is Some && z.rate is Some
    }
    ||| d.name == "limit_conn_zone"@ && model::zone_args(d.args, d.args.len(), false).name is Some
}

/// A top-level directive becomes a part of the model, or is settled at once, by
/// exactly one note on its line and under its name.
pub proof fn law_top_level_directive_is_settled(e: Extracted, d: Dir)
    requires
        !http_block(d),
    ensures
        !modeled(d) ==> one_note_more(e.notes, model::top_directive(e, d).notes, d),
{
    lemma_names_of_blocks();
}

/// What the walk keeps of the model and the notes.
spec fn carried_on(a: Extracted, b: Extracted) -> bool {
    &&& grown(a.notes, b.notes)
    &&& a.model.servers.len() <= b.model.servers.len()
    &&& forall|i: int|
        0 <= i < a.model.servers.len() ==> #[trigger] a.model.servers[i] == b.model.servers[i]
    &&& a.model.pools.len() <= b.model.pools.len()
    &&& forall|i: int|
        0 <= i < a.model.pools.len() ==> #[trigger] a.model.pools[i] == b.model.pools[i]
}

proof fn lemma_pool_members(
    block: Seq<Dir>,
    n: nat,
    pool: model::PoolV,
    f: Seq<Note>,
    g: Seq<Note>,
)
    requires
        n <= block.len(),
    ensures
        model::pool_members(block, n, pool, f).0 == model::pool_members(block, n, pool, g).0,
        grown(f, model::pool_members(block, n, pool, f).1),
        forall|i: int|
            0 <= i < n && (#[trigger] block[i]).name != "server"@ && block[i].name
                != "keepalive"@ ==> model::pool_members(block, n, pool, f).0.extras.contains(
                block[i],
            ),
    decreases n,
{
    if n > 0 {
        let k = (n - 1) as nat;
        lemma_pool_members(block, k, pool, f, g);
        let (p, a) = model::pool_members(block, k, pool, f);
        let (q, b) = model::pool_members(block, n, pool, f);
        assert(grown(a, b));
        assert forall|i: int|
            0 <= i < n && (#[trigger] block[i]).name != "server"@ && block[i].name
                != "keepalive"@ implies q.extras.contains(block[i]) by {
            if i < k {
                let j = choose|j: int| 0 <= j < p.extras.len() && p.extras[j] == block[i];
                assert(q.extras[j] == block[i]);
            } else {
                assert(q.extras[p.extras.len() as int] == block[i]);
            }
        }
    }
}

proof fn lemma_top_carried(e: Extracted, d: Dir)
    ensures
        carried_on(e, model::top_directive(e, d)),
{
    if d.block is Some {
        lemma_server_of(d.block->0, d.block->0.len(), d.line, e.notes);
        if d.args.len() > 0 {
            let empty = model::PoolV {
                name: d.args[0],
                servers: seq![],
                keepalive: None,
                extras: seq![],
                line: d.line,
            };
            lemma_pool_members(d.block->0, d.block->0.len(), empty, e.notes, seq![]);
        }
    }
}

proof fn lemma_walk_carried(items: Seq<Dir>, n: nat, e: Extracted)
    ensures
        carried_on(e, model::walk(items, n, e)),
    decreases items, n,
{
    if n > 0 && n <= items.len() {
        lemma_walk_carried(items, (n - 1) as nat, e);
        let prev = model::walk(items, (n - 1) as nat, e);
        let d = items[n - 1];
        if d.name == "http"@ && d.block is Some {
            lemma_walk_carried(d.block->0, d.block->0.len(), prev);
        } else {
            lemma_top_carried(prev, d);
        }
    }
}

/// The pool that a block makes.
pub open spec fn pool_in(d: Dir) -> model::PoolV {
    model::pool_members(
        d.block->0,
        d.block->0.len(),
        model::PoolV {
            name: d.args[0],
            servers: seq![],
            keepalive: None,
            extras: seq![],
            line: d.line,
        },
        seq![],
    ).0
}

/// What the walk owes a directive that it came by.
spec fn met(e: Extracted, d: Dir) -> bool {
    &&& !modeled(d) ==> reported(e.notes, d)
    &&& d.name == "server"@ && d.block is Some ==> e.model.servers.contains(
        server_in(d.block->0, d.line),
    ) && forall|i: int|
        0 <= i < d.block->0.len() && settled_by_reading(#[trigger] d.block->0[i]) ==> reported(
            e.notes,
            d.block->0[i],
        )
    &&& d.name == "server"@ && d.block is Some ==> forall|x: Dir| #[trigger]
        nested_in(d.block->0, x) ==> reported(e.notes, x)
    &&& d.name == "upstream"@ && d.args.len() > 0 && d.block is Some ==> e.model.pools.contains(
        pool_in(d),
    )
}

proof fn lemma_met_stays(a: Extracted, b: Extracted, d: Dir)
    requires
        met(a, d),
        carried_on(a, b),
    ensures
        met(b, d),
{
    if !modeled(d) {
        lemma_reported_grown(a.notes, b.notes, d);
    }
    if d.name == "server"@ && d.block is Some {
        let s = server_in(d.block->0, d.line);
        let j = choose|j: int| 0 <= j < a.model.servers.len() && a.model.servers[j] == s;
        assert(b.model.servers[j] == s);
        assert forall|i: int|
            0 <= i < d.block->0.len() && settled_by_reading(#[trigger] d.block->0[i]) implies reported(
            b.notes,
            d.block->0[i],
        ) by {
            lemma_reported_grown(a.notes, b.notes, d.block->0[i]);
        }
        assert forall|x: Dir| #[trigger] nested_in(d.block->0, x) implies reported(b.notes, x) by {
            lemma_reported_grown(a.notes, b.notes, x);
        }
    }
    if d.name == "upstream"@ && d.args.len() > 0 && d.block is Some {
        let p = pool_in(d);
        let j = choose|j: int| 0 <= j < a.model.pools.len() && a.model.pools[j] == p;
        assert(b.model.pools[j] == p);
    }
}

proof fn lemma_top_met(e: Extracted, d: Dir)
    requires
        !http_block(d),
    ensures
        met(model::top_directive(e, d), d),
{
    lemma_names_of_blocks();
    let after = model::top_directive(e, d);
    law_top_level_directive_is_settled(e, d);
    if !modeled(d) {
        lemma_reported_last(e.notes, after.notes, d);
    }
    if d.name == "server"@ && d.block is Some {
        lemma_server_of(d.block->0, d.block->0.len(), d.line, e.notes);
        assert(after.model.servers[e.model.servers.len() as int] == server_in(
            d.block->0,
            d.line,
        ));
        let b = d.block->0;
        assert forall|x: Dir| #[trigger] nested_in(b, x) implies reported(after.notes, x) by {
            let i = choose|i: int|
                0 <= i < b.len() && (#[trigger] b[i]).name == "location"@ && model::location_of(
                    b[i],
                    seq![],
                ).0 is Some && b[i].block->0.contains(x) && x.name == "location"@;
            lemma_nested(b, b.len(), d.line, e.notes, i, x);
        }
    }
    if d.name == "upstream"@ && d.args.len() > 0 && d.block is Some {
        let empty = model::PoolV {
            name: d.args[0],
            servers: seq![],
            keepalive: None,
            extras: seq![],
            line: d.line,
        };
        lemma_pool_members(d.block->0, d.block->0.len(), empty, e.notes, seq![]);
        assert(after.model.pools[e.model.pools.len() as int] == pool_in(d));
    }
}

proof fn lemma_walk_met(items: Seq<Dir>, n: nat, e: Extracted, d: Dir)
    requires
        at_top(items, n, d),
    ensures
        met(model::walk(items, n, e), d),
    decreases items, n,
{
    let k = (n - 1) as nat;
    let prev = model::walk(items, k, e);
    let x = items[k as int];
    if http_block(x) {
        lemma_walk_carried(x.block->0, x.block->0.len(), prev);
        if at_top(items, k, d) {
            lemma_walk_met(items, k, e, d);
            lemma_met_stays(prev, model::walk(items, n, e), d);
        } else {
            lemma_walk_met(x.block->0, x.block->0.len(), prev, d);
        }
    } else {
        lemma_top_carried(prev, x);
        if at_top(items, k, d) {
            lemma_walk_met(items, k, e, d);
            lemma_met_stays(prev, model::walk(items, n, e), d);
        } else {
            lemma_top_met(prev, d);
        }
    }
}

// ── The report ──────────────────────────────────────────────────────────
/// The notes that a conversion files, in the order in which it does.
pub open spec fn filed(ast: Seq<Dir>) -> Seq<Note> {
    let e = model::extract_of(ast, seq![]);
    import::map::map_model_of(e.model, e.notes).1
}

/// The operator sees every note that was filed, and no other.
pub proof fn law_filed_notes_are_shown(ast: Seq<Dir>, n: Note)
    ensures
        report_of(import::convert_tree(ast)).contains(n) == filed(ast).contains(n),
{
    broadcast use vstd::seq_lib::group_to_multiset_ensures;

    let a = filed(ast);
    let b = report::sorted_by_line(a);
    report::law_report_is_in_line_order(a);
    assert(a.to_multiset().count(n) == b.to_multiset().count(n));
    assert(report_of(import::convert_tree(ast)) == b);
}

/// What is reported stays reported when the notes are put in order.
pub proof fn lemma_reported_sorted(notes: Seq<Note>, d: Dir)
    requires
        reported(notes, d),
    ensures
        reported(report::sorted_by_line(notes), d),
{
    broadcast use vstd::seq_lib::group_to_multiset_ensures;

    let b = report::sorted_by_line(notes);
    report::law_report_is_in_line_order(notes);
    let i = choose|i: int| 0 <= i < notes.len() && on(#[trigger] notes[i], d);
    let n = notes[i];
    assert(notes.contains(n));
    assert(notes.to_multiset().count(n) == b.to_multiset().count(n));
    assert(b.contains(n));
    let j = choose|j: int| 0 <= j < b.len() && b[j] == n;
    assert(on(b[j], d));
}

proof fn lemma_reported_shown(ast: Seq<Dir>, d: Dir)
    requires
        reported(filed(ast), d),
    ensures
        reported(report_of(import::convert_tree(ast)), d),
{
    lemma_reported_sorted(filed(ast), d);
}

/// The model that a tree makes.
pub open spec fn model_in(ast: Seq<Dir>) -> ModelV {
    model::extract_of(ast, seq![]).model
}

/// A top-level directive that does not become a part of the model is reported.
pub proof fn law_top_level_is_reported(ast: Seq<Dir>, d: Dir)
    requires
        at_top(ast, ast.len(), d),
        !modeled(d),
    ensures
        reported(report_of(import::convert_tree(ast)), d),
{
    let e = model::extract_of(ast, seq![]);
    lemma_walk_met(
        ast,
        ast.len(),
        Extracted { model: model::empty_model(), notes: seq![] },
        d,
    );
    lemma_model(e.model, e.notes, d, 0);
    lemma_reported_grown(e.notes, filed(ast), d);
    lemma_reported_shown(ast, d);
}

/// A server block that is not gone through is reported.
pub proof fn law_dropped_server_is_shown(ast: Seq<Dir>, sd: Dir)
    requires
        at_top(ast, ast.len(), sd),
        sd.name == "server"@,
        sd.block is Some,
        !served(server_in(sd.block->0, sd.line)),
    ensures
        reported(report_of(import::convert_tree(ast)), sd),
{
    let e = model::extract_of(ast, seq![]);
    let s = server_in(sd.block->0, sd.line);
    let m = e.model;
    lemma_walk_met(
        ast,
        ast.len(),
        Extracted { model: model::empty_model(), notes: seq![] },
        sd,
    );
    assert(m.servers.contains(s));
    lemma_server_line(sd.block->0, sd.block->0.len(), sd.line);
    lemma_dropped(m.servers, m.servers.len(), e.notes, s);
    let n1 = servers::kept_of(m.servers, m.servers.len(), e.notes).1;
    let i = choose|i: int|
        0 <= i < n1.len() && (#[trigger] n1[i]).line == s.line && n1[i].directive == "server"@;
    assert(on(n1[i], sd));
    lemma_after_kept(m, e.notes);
    lemma_reported_grown(n1, filed(ast), sd);
    lemma_reported_shown(ast, sd);
}

proof fn lemma_server_line(block: Seq<Dir>, n: nat, line: int)
    ensures
        model::server_of(block, n, line, seq![]).0.line == line,
    decreases n,
{
    if n > 0 {
        lemma_server_line(block, (n - 1) as nat, line);
    }
}

proof fn lemma_after_kept(m: ModelV, notes: Seq<Note>)
    ensures
        grown(
            servers::kept_of(m.servers, m.servers.len(), notes).1,
            import::map::map_model_of(m, notes).1,
        ),
{
    let (kept, n1) = servers::kept_of(m.servers, m.servers.len(), notes);
    let any = Dir { name: seq![], args: seq![], block: None, line: 0 };
    let n2 = import::map::shared_notes(kept, kept.len(), n1);
    lemma_shared_grown(kept, kept.len(), n1);
    let met = import::map::MetV { seen: seq![], flagged: seq![], notes: n2 };
    let n3 = import::map::met_servers(met, kept, kept.len()).notes;
    lemma_met_grown(met, kept, kept.len());
    let n4 = import::map::plain_notes(kept, n3);
    assert(grown(n3, n4));
    let ports = listen::ports_of(kept, kept.len(), n4);
    lemma_ports(kept, kept.len(), n4, 0);
    let doc0 = listen::listen_doc(import::map::empty_doc(), ports);
    let (doc, n5) = tls::tls_doc(doc0, kept, ports.notes);
    lemma_tls(doc0, kept, ports.notes, any);
    let w0 = WorldV {
        doc,
        reg: RegV { pools: m.pools, uses: seq![], synth: seq![] },
        agg: directives::empty_agg(),
        notes: n5,
    };
    let w = import::map::routed_of(m, notes);
    assert(w == import::map::map_servers(w0, kept, kept.len(), m));
    lemma_servers(w0, kept, kept.len(), m, any);
    let (doc1, n6) = directives::limits_doc(w.doc, w.agg, m, w.notes);
    lemma_limits_doc(w.doc, w.agg, m, w.notes);
    lemma_pools(w.reg, w.reg.pools.len(), n6, any);
}

/// A directive of a server block that is owed a note of its own.
pub open spec fn owed_in_server(d: Dir, m: ModelV) -> bool {
    ||| d.name == "listen"@
    ||| certificate_owed(d)
    ||| settled_by_reading(d)
    ||| d.name != "server_name"@ && d.name != "location"@ && settled_in_server(d, m)
}

/// Of a server block that is gone through, each directive that is owed a note
/// is reported.
pub proof fn law_server_directive_is_reported(ast: Seq<Dir>, sd: Dir, d: Dir)
    requires
        at_top(ast, ast.len(), sd),
        sd.name == "server"@,
        sd.block is Some,
        served(server_in(sd.block->0, sd.line)),
        sd.block->0.contains(d),
        owed_in_server(d, model_in(ast)),
    ensures
        reported(report_of(import::convert_tree(ast)), d),
{
    let e = model::extract_of(ast, seq![]);
    let m = e.model;
    let b = sd.block->0;
    let s = server_in(b, sd.line);
    lemma_names_of_blocks();
    lemma_names();
    lemma_walk_met(
        ast,
        ast.len(),
        Extracted { model: model::empty_model(), notes: seq![] },
        sd,
    );
    let k = choose|k: int| 0 <= k < b.len() && b[k] == d;
    lemma_server_of(b, b.len(), sd.line, seq![]);
    assert(placed_in_server(s, b[k]));
    let kept = kept_servers(m, e.notes);
    assert(m.servers.contains(s));
    lemma_kept(m.servers, m.servers.len(), e.notes, s);
    let i = choose|i: int| 0 <= i < kept.len() && (#[trigger] kept[i]).server == s;
    lemma_model(m, e.notes, d, d.line);
    if settled_by_reading(d) {
        assert(settled_by_reading(b[k]));
        lemma_reported_grown(e.notes, filed(ast), d);
    } else if d.name == "listen"@ {
        let j = choose|j: int| 0 <= j < s.listens.len() && (#[trigger] s.listens[j]).line == d.line;
        assert(kept[i].server.listens[j].line == d.line);
        assert(listens_on_line(kept, kept.len(), d.line));
        let q = choose|q: int|
            0 <= q < filed(ast).len() && (#[trigger] filed(ast)[q]).line == d.line
                && filed(ast)[q].directive == "listen"@;
        assert(on(filed(ast)[q], d));
    } else if certificate_owed(d) {
        assert(kept[i].server.directives.contains(d));
        assert(kept_with(kept, kept.len(), d));
    } else {
        assert(settled_by_server(kept[i].server, d, m));
        assert(settled_by_kept(kept, kept.len(), d, m));
    }
    lemma_reported_shown(ast, d);
}

/// Of a location that is gone through, in a server block that is, each
/// directive that is settled at once is reported; where the location has a
/// target, so is what it says on files.
pub proof fn law_location_directive_is_reported(ast: Seq<Dir>, sd: Dir, ld: Dir, d: Dir)
    requires
        at_top(ast, ast.len(), sd),
        sd.name == "server"@,
        sd.block is Some,
        served(server_in(sd.block->0, sd.line)),
        sd.block->0.contains(ld),
        ld.name == "location"@,
        model::location_of(ld, seq![]).0 is Some,
        model::location_of(ld, seq![]).0->0.modifier != LocMod::Regex,
        ld.block->0.contains(d),
        d.name != "location"@,
        settled_below(model::location_of(ld, seq![]).0->0, d, model_in(ast)),
    ensures
        reported(report_of(import::convert_tree(ast)), d),
{
    let e = model::extract_of(ast, seq![]);
    let m = e.model;
    let b = sd.block->0;
    let s = server_in(b, sd.line);
    let l = model::location_of(ld, seq![]).0->0;
    lemma_names_of_blocks();
    lemma_walk_met(
        ast,
        ast.len(),
        Extracted { model: model::empty_model(), notes: seq![] },
        sd,
    );
    let k = choose|k: int| 0 <= k < b.len() && b[k] == ld;
    lemma_server_of(b, b.len(), sd.line, seq![]);
    assert(placed_in_server(s, b[k]));
    let q = choose|q: int| 0 <= q < s.locations.len() && s.locations[q] == l;
    lemma_own_directives(ld.block->0, ld.block->0.len(), seq![], seq![]);
    let j = choose|j: int| 0 <= j < ld.block->0.len() && ld.block->0[j] == d;
    assert(ld.block->0[j].name != "location"@);
    assert(l.directives.contains(d));
    assert(settled_at_location(s.locations[q], d, m));
    assert(settled_in_locations(s.locations, s.locations.len(), d, m));
    let kept = kept_servers(m, e.notes);
    assert(m.servers.contains(s));
    lemma_kept(m.servers, m.servers.len(), e.notes, s);
    let i = choose|i: int| 0 <= i < kept.len() && (#[trigger] kept[i]).server == s;
    assert(settled_by_server(kept[i].server, d, m));
    lemma_model(m, e.notes, d, 0);
    lemma_reported_shown(ast, d);
}

/// The world when the `q`th location of the `i`th kept server is reached.
pub open spec fn world_at(m: ModelV, notes: Seq<Note>, i: nat, q: nat) -> WorldV {
    let kept = kept_servers(m, notes);
    let k = kept[i as int];
    let before = import::map::map_servers(import::map::opened_of(m, notes), kept, i, m);
    let (w, ctx) = server::entered(before, k.server, m);
    server::locations_of(w, k.server.locations, q, k.hosts, ctx, m)
}

/// The `q`th location of the `i`th kept server adds a route to the document.
pub open spec fn becomes_route(m: ModelV, notes: Seq<Note>, i: nat, q: nat) -> bool {
    world_at(m, notes, i, q + 1).doc.routes.len() > world_at(m, notes, i, q).doc.routes.len()
}

/// The `proxy_pass` of a location that becomes a route is reported on its line.
pub proof fn law_routed_target_is_reported(ast: Seq<Dir>, i: nat, q: nat, j: int)
    requires
        ({
            let e = model::extract_of(ast, seq![]);
            let kept = kept_servers(e.model, e.notes);
            let ls = kept[i as int].server.locations;
            &&& i < kept.len()
            &&& q < ls.len()
            &&& prevails(ls[q as int].directives, ls[q as int].directives.len(), j)
            &&& becomes_route(e.model, e.notes, i, q)
        }),
    ensures
        ({
            let e = model::extract_of(ast, seq![]);
            let kept = kept_servers(e.model, e.notes);
            reported(
                report_of(import::convert_tree(ast)),
                kept[i as int].server.locations[q as int].directives[j],
            )
        }),
{
    let e = model::extract_of(ast, seq![]);
    let m = e.model;
    let kept = kept_servers(m, e.notes);
    let k = kept[i as int];
    let ls = k.server.locations;
    let d = ls[q as int].directives[j];
    let any = Dir { name: seq![], args: seq![], block: None, line: 0 };
    let start = import::map::opened_of(m, e.notes);
    let before = import::map::map_servers(start, kept, i, m);
    let (w, ctx) = server::entered(before, k.server, m);
    let here = server::locations_of(w, ls, q, k.hosts, ctx, m);
    law_routed_target_gets_note(here, ls[q as int], k.hosts, ctx, m, j);
    let there = server::locations_of(w, ls, q + 1, k.hosts, ctx, m);
    assert(there == location::location_step(here, ls[q as int], k.hosts, ctx, m));
    let behind = server::locations_of(w, ls, ls.len(), k.hosts, ctx, m);
    lemma_later_locations(w, ls, q + 1, ls.len(), k.hosts, ctx, m);
    let done = import::map::map_servers(start, kept, i + 1, m);
    assert(done == server::map_server_of(before, k.server, k.hosts, m));
    assert(grown(behind.notes, done.notes));
    lemma_later_servers(start, kept, i + 1, kept.len(), m);
    let last = import::map::routed_of(m, e.notes);
    let (doc1, n6) = directives::limits_doc(last.doc, last.agg, m, last.notes);
    lemma_limits_doc(last.doc, last.agg, m, last.notes);
    lemma_pools(last.reg, last.reg.pools.len(), n6, any);
    assert(grown(there.notes, filed(ast)));
    lemma_reported_grown(there.notes, filed(ast), d);
    lemma_reported_shown(ast, d);
}

/// A location of a server block that is gone through is reported.
pub proof fn law_location_is_reported(ast: Seq<Dir>, sd: Dir, ld: Dir)
    requires
        at_top(ast, ast.len(), sd),
        sd.name == "server"@,
        sd.block is Some,
        served(server_in(sd.block->0, sd.line)),
        sd.block->0.contains(ld),
        ld.name == "location"@,
        model::location_of(ld, seq![]).0 is Some ==> judged(model::location_of(ld, seq![]).0->0),
    ensures
        reported(report_of(import::convert_tree(ast)), ld),
{
    let e = model::extract_of(ast, seq![]);
    let m = e.model;
    let b = sd.block->0;
    let s = server_in(b, sd.line);
    if model::location_of(ld, seq![]).0 is None {
        law_server_directive_is_reported(ast, sd, ld);
    } else {
        let l = model::location_of(ld, seq![]).0->0;
        lemma_names_of_blocks();
        lemma_walk_met(
            ast,
            ast.len(),
            Extracted { model: model::empty_model(), notes: seq![] },
            sd,
        );
        let k = choose|k: int| 0 <= k < b.len() && b[k] == ld;
        lemma_server_of(b, b.len(), sd.line, seq![]);
        assert(placed_in_server(s, b[k]));
        let q = choose|q: int| 0 <= q < s.locations.len() && s.locations[q] == l;
        assert(settled_at_location(s.locations[q], ld, m));
        assert(settled_in_locations(s.locations, s.locations.len(), ld, m));
        let kept = kept_servers(m, e.notes);
        assert(m.servers.contains(s));
        lemma_kept(m.servers, m.servers.len(), e.notes, s);
        let i = choose|i: int| 0 <= i < kept.len() && (#[trigger] kept[i]).server == s;
        assert(settled_by_server(kept[i].server, ld, m));
        lemma_model(m, e.notes, ld, 0);
        lemma_reported_shown(ast, ld);
    }
}

/// A location within a location is reported, whatever becomes of the server.
pub proof fn law_nested_location_is_reported(ast: Seq<Dir>, sd: Dir, d: Dir)
    requires
        at_top(ast, ast.len(), sd),
        sd.name == "server"@,
        sd.block is Some,
        nested_in(sd.block->0, d),
    ensures
        reported(report_of(import::convert_tree(ast)), d),
{
    let e = model::extract_of(ast, seq![]);
    lemma_walk_met(
        ast,
        ast.len(),
        Extracted { model: model::empty_model(), notes: seq![] },
        sd,
    );
    lemma_model(e.model, e.notes, d, 0);
    lemma_reported_grown(e.notes, filed(ast), d);
    lemma_reported_shown(ast, d);
}

/// Each directive of a pool other than its members and its keepalive is
/// reported.
pub proof fn law_pool_directive_is_reported(ast: Seq<Dir>, pd: Dir, d: Dir)
    requires
        at_top(ast, ast.len(), pd),
        pd.name == "upstream"@,
        pd.args.len() > 0,
        pd.block is Some,
        pd.block->0.contains(d),
        d.name != "server"@,
        d.name != "keepalive"@,
    ensures
        reported(report_of(import::convert_tree(ast)), d),
{
    let e = model::extract_of(ast, seq![]);
    let m = e.model;
    lemma_walk_met(
        ast,
        ast.len(),
        Extracted { model: model::empty_model(), notes: seq![] },
        pd,
    );
    let p = pool_in(pd);
    let empty = model::PoolV {
        name: pd.args[0],
        servers: seq![],
        keepalive: None,
        extras: seq![],
        line: pd.line,
    };
    lemma_pool_members(pd.block->0, pd.block->0.len(), empty, seq![], seq![]);
    let j = choose|j: int| 0 <= j < pd.block->0.len() && pd.block->0[j] == d;
    assert(pd.block->0[j].name != "server"@);
    assert(p.extras.contains(d));
    let i = choose|i: int| 0 <= i < m.pools.len() && m.pools[i] == p;
    assert(m.pools[i].extras.contains(d));
    assert(extra_of_pool(m.pools, m.pools.len(), d));
    lemma_model(m, e.notes, d, 0);
    lemma_reported_shown(ast, d);
}

} // verus!
