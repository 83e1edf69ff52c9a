//! Server blocks to routes.
use super::directives::{
    classify_set_header, map_add_header, map_body_size, map_connect_timeout, map_limit_conn,
    map_limit_req, Aggregates, SetHeaderV,
};
use super::location::{map_location, read_docroot, CtxV, ServerCtx, SharedV, WorldV};
use super::units::valid_cidr;
use super::upstream::UpstreamReg;
use super::{location, DocV, RouteOut, RouteV, ZionDoc};
use crate::import;
use crate::import::model::{LocationV, ModelV, NginxModel, Server, ServerV};
use crate::import::nginx::{Dir, Directive};
use crate::import::{file, Finding, Status};
use crate::text;
use crate::text::{cat3, first_arg, list_has, own, same, to_lower};
use vstd::prelude::*;

verus! {

broadcast use {crate::text::group_views, crate::import::nginx::lemma_dir_view};

// ── Server-level directives ─────────────────────────────────────────────
/// What the directives of a server block said so far.
pub struct ScanV {
    pub ctx: CtxV,
    pub trusted: Seq<Seq<char>>,
    pub sh: SharedV,
}

pub open spec fn empty_ctx() -> CtxV {
    CtxV {
        csp: None,
        websocket: false,
        hdr_annotations: seq![],
        waf: false,
        connect_ms: None,
        root: None,
        root_line: 0,
        index: None,
    }
}

pub open spec fn told(s: ScanV, status: Status, d: Dir, directive: Seq<char>, detail: Seq<char>) -> ScanV {
    ScanV { sh: location::told(s.sh, status, d, directive, detail), ..s }
}

pub open spec fn real_ip_step(s: ScanV, d: Dir) -> ScanV {
    if d.args.len() == 0 {
        told(s, Status::Unsupported, d, "set_real_ip_from"@, "missing address"@)
    } else if super::units::cidr(d.args[0]) {
        told(
            ScanV {
                trusted: if s.trusted.contains(d.args[0]) {
                    s.trusted
                } else {
                    s.trusted.push(d.args[0])
                },
                ..s
            },
            Status::Convert,
            d,
            "set_real_ip_from"@,
            "server.trusted_proxies"@,
        )
    } else {
        told(
            s,
            Status::Unsupported,
            d,
            "set_real_ip_from"@,
            "'"@ + d.args[0]
                + "' is not an IP address or CIDR — not emitted (Zion would silently ignore it at runtime)"@,
        )
    }
}

pub open spec fn real_ip_header_step(s: ScanV, d: Dir) -> ScanV {
    let hdr = text::first_or_empty(d.args);
    if text::lower(hdr) == "x-forwarded-for"@ {
        told(
            s,
            Status::Convert,
            d,
            "real_ip_header"@,
            "X-Forwarded-For from trusted proxies is Zion's default client-IP resolution"@,
        )
    } else {
        told(
            s,
            Status::Unsupported,
            d,
            "real_ip_header"@,
            "'"@ + hdr + "' — Zion resolves the client IP from X-Forwarded-For only"@,
        )
    }
}

pub open spec fn root_step(s: ScanV, d: Dir) -> ScanV {
    if d.args.len() == 0 {
        told(s, Status::Unsupported, d, "root"@, "missing docroot path"@)
    } else {
        match location::docroot(d.args) {
            Some(dir) => ScanV {
                ctx: CtxV { root: Some(dir), root_line: d.line, ..s.ctx },
                ..s
            },
            None => told(
                s,
                Status::Unsupported,
                d,
                "root"@,
                "docroot contains an unresolved variable — not emitted"@,
            ),
        }
    }
}

/// Directives on TLS that rustls decides by itself.
pub open spec fn tls_policy(name: Seq<char>) -> bool {
    ||| name == "ssl_ciphers"@
    ||| name == "ssl_prefer_server_ciphers"@
    ||| name == "ssl_session_cache"@
    ||| name == "ssl_session_timeout"@
    ||| name == "ssl_session_tickets"@
    ||| name == "ssl_stapling"@
    ||| name == "ssl_stapling_verify"@
    ||| name == "ssl_trusted_certificate"@
    ||| name == "ssl_dhparam"@
    ||| name == "ssl_ecdh_curve"@
}

/// Why a server directive is not carried over, where the reason is fixed.
pub open spec fn server_refusal(name: Seq<char>) -> Option<(Status, Seq<char>)> {
    if tls_policy(name) {
        Some((Status::Unsupported, "rustls owns cipher and session policy"@))
    } else if name == "auth_basic"@ || name == "auth_basic_user_file"@ {
        Some((Status::Unsupported, "Zion auth profiles are JWT/OIDC, not basic auth"@))
    } else if name == "try_files"@ {
        Some(
            (
                Status::Partial,
                "server-level try_files is not modeled — move it into a `location` to convert it to mode=static"@,
            ),
        )
    } else if name == "alias"@ {
        Some((Status::Unsupported, "server-level alias has no location prefix to serve"@))
    } else if name == "autoindex"@ {
        Some((Status::Unsupported, "no directory listing — Zion serves index.html or 404"@))
    } else {
        None
    }
}

/// One directive of a server block. The certificate directives are read with
/// the TLS section.
pub open spec fn server_step(s: ScanV, d: Dir, m: ModelV) -> ScanV {
    if d.name == "ssl_certificate"@ || d.name == "ssl_certificate_key"@ || d.name
        == "ssl_protocols"@ {
        s
    } else if d.name == "client_max_body_size"@ {
        let (cap, waf, notes) = super::directives::body_size_step(
            s.sh.cap,
            s.ctx.waf,
            s.sh.notes,
            d,
        );
        ScanV { ctx: CtxV { waf, ..s.ctx }, sh: SharedV { cap, notes, ..s.sh }, ..s }
    } else if d.name == "set_real_ip_from"@ {
        real_ip_step(s, d)
    } else if d.name == "real_ip_header"@ {
        real_ip_header_step(s, d)
    } else if d.name == "limit_req"@ {
        let (agg, notes) = super::directives::limit_req_step(s.sh.agg, s.sh.notes, d, m);
        ScanV { sh: SharedV { agg, notes, ..s.sh }, ..s }
    } else if d.name == "limit_conn"@ {
        let (agg, notes) = super::directives::limit_conn_step(s.sh.agg, s.sh.notes, d, m);
        ScanV { sh: SharedV { agg, notes, ..s.sh }, ..s }
    } else if d.name == "add_header"@ {
        let (csp, notes) = super::directives::add_header_step(s.ctx.csp, s.sh.notes, d);
        ScanV { ctx: CtxV { csp, ..s.ctx }, sh: SharedV { notes, ..s.sh }, ..s }
    } else if d.name == "proxy_set_header"@ {
        let h = super::directives::set_header_step(
            SetHeaderV {
                websocket: s.ctx.websocket,
                annotations: s.ctx.hdr_annotations,
                notes: s.sh.notes,
            },
            d,
        );
        ScanV {
            ctx: CtxV { websocket: h.websocket, hdr_annotations: h.annotations, ..s.ctx },
            sh: SharedV { notes: h.notes, ..s.sh },
            ..s
        }
    } else if d.name == "proxy_connect_timeout"@ {
        let (connect_ms, notes) = super::directives::connect_timeout_step(
            s.ctx.connect_ms,
            s.sh.notes,
            d,
        );
        ScanV { ctx: CtxV { connect_ms, ..s.ctx }, sh: SharedV { notes, ..s.sh }, ..s }
    } else if super::servers::legacy_ssl(d) {
        told(
            s,
            Status::Convert,
            d,
            "ssl"@,
            "legacy `ssl on` — this server's listeners are treated as TLS"@,
        )
    } else if d.name == "root"@ {
        root_step(s, d)
    } else if d.name == "index"@ {
        ScanV {
            ctx: CtxV {
                index: if d.args.len() > 0 {
                    Some(d.args[0])
                } else {
                    None
                },
                ..s.ctx
            },
            ..s
        }
    } else {
        match server_refusal(d.name) {
            Some((status, why)) => told(s, status, d, d.name, why),
            None => ScanV {
                sh: SharedV { notes: s.sh.notes.push(import::unsupported_note(d)), ..s.sh },
                ..s
            },
        }
    }
}

pub open spec fn server_scan(s: ScanV, ds: Seq<Dir>, n: nat, m: ModelV) -> ScanV
    decreases n,
{
    if n == 0 {
        s
    } else {
        server_step(server_scan(s, ds, (n - 1) as nat, m), ds[n - 1], m)
    }
}

spec fn scan_view(
    ctx: &ServerCtx,
    trusted: &Vec<String>,
    cap: Option<u64>,
    agg: &Aggregates,
    findings: &Vec<Finding>,
) -> ScanV {
    ScanV {
        ctx: ctx@,
        trusted: text::views(trusted@),
        sh: location::shared(cap, agg, findings),
    }
}

fn refuse_in_server(name: &str) -> (r: Option<(Status, &'static str)>)
    ensures
        location::opt_refusal(r) == server_refusal(name@),
{
    if same(name, "ssl_ciphers") || same(name, "ssl_prefer_server_ciphers") || same(
        name,
        "ssl_session_cache",
    ) || same(name, "ssl_session_timeout") || same(name, "ssl_session_tickets") || same(
        name,
        "ssl_stapling",
    ) || same(name, "ssl_stapling_verify") || same(name, "ssl_trusted_certificate") || same(
        name,
        "ssl_dhparam",
    ) || same(name, "ssl_ecdh_curve") {
        Some((Status::Unsupported, "rustls owns cipher and session policy"))
    } else if same(name, "auth_basic") || same(name, "auth_basic_user_file") {
        Some((Status::Unsupported, "Zion auth profiles are JWT/OIDC, not basic auth"))
    } else if same(name, "try_files") {
        Some(
            (
                Status::Partial,
                "server-level try_files is not modeled — move it into a `location` to convert it to mode=static",
            ),
        )
    } else if same(name, "alias") {
        Some((Status::Unsupported, "server-level alias has no location prefix to serve"))
    } else if same(name, "autoindex") {
        Some((Status::Unsupported, "no directory listing — Zion serves index.html or 404"))
    } else {
        None
    }
}

fn map_real_ip(d: &Directive, trusted: &mut Vec<String>, findings: &mut Vec<Finding>, Ghost(s): Ghost<ScanV>)
    requires
        s.trusted == text::views(old(trusted)@),
        s.sh.notes == text::views(old(findings)@),
    ensures
        (ScanV {
            trusted: text::views(final(trusted)@),
            sh: SharedV { notes: text::views(final(findings)@), ..s.sh },
            ..s
        }) == real_ip_step(s, d@),
{
    if d.args.len() == 0 {
        file(findings, Status::Unsupported, d.line, "set_real_ip_from", "missing address");
        return;
    }
    let addr: &str = d.args[0].as_str();
    assert(d@.args[0] == addr@);
    if valid_cidr(addr) {
        if !list_has(trusted, addr) {
            trusted.push(own(addr));
        }
        file(findings, Status::Convert, d.line, "set_real_ip_from", "server.trusted_proxies");
    } else {
        let why = cat3(
            "'",
            addr,
            "' is not an IP address or CIDR — not emitted (Zion would silently ignore it at runtime)",
        );
        file(findings, Status::Unsupported, d.line, "set_real_ip_from", why.as_str());
    }
}

fn map_real_ip_header(d: &Directive, findings: &mut Vec<Finding>, Ghost(s): Ghost<ScanV>)
    requires
        s.sh.notes == text::views(old(findings)@),
    ensures
        (ScanV { sh: SharedV { notes: text::views(final(findings)@), ..s.sh }, ..s })
            == real_ip_header_step(s, d@),
{
    let hdr: &str = first_arg(&d.args);
    if same(to_lower(hdr).as_str(), "x-forwarded-for") {
        file(
            findings,
            Status::Convert,
            d.line,
            "real_ip_header",
            "X-Forwarded-For from trusted proxies is Zion's default client-IP resolution",
        );
    } else {
        let why = cat3("'", hdr, "' — Zion resolves the client IP from X-Forwarded-For only");
        file(findings, Status::Unsupported, d.line, "real_ip_header", why.as_str());
    }
}

fn map_root(d: &Directive, ctx: &mut ServerCtx, findings: &mut Vec<Finding>, Ghost(s): Ghost<ScanV>)
    requires
        s.ctx == old(ctx)@,
        s.sh.notes == text::views(old(findings)@),
    ensures
        (ScanV {
            ctx: final(ctx)@,
            sh: SharedV { notes: text::views(final(findings)@), ..s.sh },
            ..s
        }) == root_step(s, d@),
{
    if d.args.len() == 0 {
        file(findings, Status::Unsupported, d.line, "root", "missing docroot path");
        return;
    }
    match read_docroot(&d.args) {
        Some(dir) => {
            ctx.root = Some(dir);
            ctx.root_line = d.line;
        },
        None => {
            file(
                findings,
                Status::Unsupported,
                d.line,
                "root",
                "docroot contains an unresolved variable — not emitted",
            );
        },
    }
}

#[verifier::rlimit(40)]
fn map_server_directive(
    d: &Directive,
    ctx: &mut ServerCtx,
    trusted: &mut Vec<String>,
    cap: &mut Option<u64>,
    agg: &mut Aggregates,
    findings: &mut Vec<Finding>,
    model: &NginxModel,
)
    ensures
        scan_view(final(ctx), final(trusted), *final(cap), final(agg), final(findings))
            == server_step(
            scan_view(old(ctx), old(trusted), *old(cap), old(agg), old(findings)),
            d@,
            model@,
        ),
{
    let ghost s = scan_view(ctx, trusted, *cap, agg, findings);
    let name: &str = d.name.as_str();
    if same(name, "ssl_certificate") || same(name, "ssl_certificate_key") || same(
        name,
        "ssl_protocols",
    ) {
        return;
    }
    if same(name, "client_max_body_size") {
        map_body_size(d, cap, &mut ctx.waf, findings);
    } else if same(name, "set_real_ip_from") {
        map_real_ip(d, trusted, findings, Ghost(s));
    } else if same(name, "real_ip_header") {
        map_real_ip_header(d, findings, Ghost(s));
    } else if same(name, "limit_req") {
        map_limit_req(d, agg, model, findings);
    } else if same(name, "limit_conn") {
        map_limit_conn(d, agg, model, findings);
    } else if same(name, "add_header") {
        map_add_header(d, &mut ctx.csp, findings);
    } else if same(name, "proxy_set_header") {
        classify_set_header(d, &mut ctx.websocket, &mut ctx.hdr_annotations, findings);
    } else if same(name, "proxy_connect_timeout") {
        map_connect_timeout(d, &mut ctx.connect_ms, findings);
    } else if same(name, "ssl") && d.args.len() > 0 && same(d.args[0].as_str(), "on") {
        assert(d@.args[0] == d.args@[0]@);
        file(
            findings,
            Status::Convert,
            d.line,
            "ssl",
            "legacy `ssl on` — this server's listeners are treated as TLS",
        );
    } else if same(name, "root") {
        assert(!super::servers::legacy_ssl(d@)) by {
            assert(d.args.len() > 0 ==> d@.args[0] == d.args@[0]@);
        }
        map_root(d, ctx, findings, Ghost(s));
    } else if same(name, "index") {
        assert(!super::servers::legacy_ssl(d@)) by {
            assert(d.args.len() > 0 ==> d@.args[0] == d.args@[0]@);
        }
        ctx.index = if d.args.len() > 0 {
            Some(d.args[0].clone())
        } else {
            None
        };
    } else {
        assert(!super::servers::legacy_ssl(d@)) by {
            assert(d.args.len() > 0 ==> d@.args[0] == d.args@[0]@);
        }
        match refuse_in_server(name) {
            Some((status, why)) => {
                file(findings, status, d.line, name, why);
            },
            None => {
                findings.push(Finding::unsupported_directive(d));
            },
        }
    }
}

// ── Servers ─────────────────────────────────────────────────────────────
pub open spec fn locations_of(
    w: WorldV,
    ls: Seq<LocationV>,
    n: nat,
    hosts: Option<Seq<Seq<char>>>,
    ctx: CtxV,
    m: ModelV,
) -> WorldV
    decreases n,
{
    if n == 0 {
        w
    } else {
        location::location_step(
            locations_of(w, ls, (n - 1) as nat, hosts, ctx, m),
            ls[n - 1],
            hosts,
            ctx,
            m,
        )
    }
}

/// Whether one of the routes from `start` on serves files.
pub open spec fn serves_static(routes: Seq<RouteV>, start: int) -> bool {
    exists|i: int| start <= i < routes.len() && (#[trigger] routes[i]).serve_dir is Some
}

/// The world behind a server's own directives, and what its locations inherit.
pub open spec fn entered(w: WorldV, s: ServerV, m: ModelV) -> (WorldV, CtxV) {
    let scan = server_scan(
        ScanV {
            ctx: empty_ctx(),
            trusted: w.doc.trusted_proxies,
            sh: SharedV { cap: w.doc.waf_body_mb, agg: w.agg, notes: w.notes },
        },
        s.directives,
        s.directives.len(),
        m,
    );
    (
        WorldV {
            doc: DocV { trusted_proxies: scan.trusted, waf_body_mb: scan.sh.cap, ..w.doc },
            agg: scan.sh.agg,
            notes: scan.sh.notes,
            ..w
        },
        scan.ctx,
    )
}

/// One server block: its directives, then its locations. A docroot that no
/// static location used is reported.
pub open spec fn map_server_of(
    w: WorldV,
    s: ServerV,
    hosts: Option<Seq<Seq<char>>>,
    m: ModelV,
) -> WorldV {
    let (w1, ctx) = entered(w, s, m);
    let w2 = locations_of(w1, s.locations, s.locations.len(), hosts, ctx, m);
    match ctx.root {
        Some(dir) if !serves_static(w2.doc.routes, w.doc.routes.len() as int) => WorldV {
            notes: w2.notes.push(
                import::note(
                    Status::Unsupported,
                    ctx.root_line,
                    "root"@,
                    "docroot '"@ + dir + "' set but no static location uses it — ignored"@,
                ),
            ),
            ..w2
        },
        _ => w2,
    }
}

fn any_static(routes: &Vec<RouteOut>, start: usize) -> (r: bool)
    ensures
        r == serves_static(text::views(routes@), start as int),
{
    let ghost rv = text::views(routes@);
    let mut i: usize = start;
    while i < routes.len()
        invariant
            start <= i,
            rv == text::views(routes@),
            forall|j: int| start <= j < i && j < rv.len() ==> (#[trigger] rv[j]).serve_dir is None,
        decreases routes.len() - i,
    {
        assert(rv[i as int] == routes@[i as int]@);
        if routes[i].serve_dir.is_some() {
            return true;
        }
        i += 1;
    }
    false
}

pub fn map_server(
    server: &Server,
    hosts: &Option<Vec<String>>,
    doc: &mut ZionDoc,
    reg: &mut UpstreamReg,
    agg: &mut Aggregates,
    findings: &mut Vec<Finding>,
    model: &NginxModel,
)
    ensures
        location::world(final(doc), final(reg), final(agg), final(findings)) == map_server_of(
            location::world(old(doc), old(reg), old(agg), old(findings)),
            server@,
            text::opt_list(*hosts),
            model@,
        ),
{
    let ghost w = location::world(doc, reg, agg, findings);
    let mut ctx = ServerCtx {
        csp: None,
        websocket: false,
        hdr_annotations: Vec::new(),
        waf: false,
        connect_ms: None,
        root: None,
        root_line: 0,
        index: None,
    };
    assert(ctx@ =~= empty_ctx());
    let ghost start = scan_view(
        &ctx,
        &doc.trusted_proxies,
        doc.waf_body_mb,
        agg,
        findings,
    );
    let mut i: usize = 0;
    while i < server.directives.len()
        invariant
            i <= server.directives.len(),
            scan_view(&ctx, &doc.trusted_proxies, doc.waf_body_mb, agg, findings) == server_scan(
                start,
                server@.directives,
                i as nat,
                model@,
            ),
            doc@ == (DocV {
                trusted_proxies: doc@.trusted_proxies,
                waf_body_mb: doc@.waf_body_mb,
                ..w.doc
            }),
            reg@ == w.reg,
        decreases server.directives.len() - i,
    {
        assert(server@.directives[i as int] == server.directives@[i as int]@);
        map_server_directive(
            &server.directives[i],
            &mut ctx,
            &mut doc.trusted_proxies,
            &mut doc.waf_body_mb,
            agg,
            findings,
            model,
        );
        i += 1;
    }
    let route_start: usize = doc.routes.len();
    let ghost w1 = location::world(doc, reg, agg, findings);
    let mut i: usize = 0;
    while i < server.locations.len()
        invariant
            i <= server.locations.len(),
            location::world(doc, reg, agg, findings) == locations_of(
                w1,
                server@.locations,
                i as nat,
                text::opt_list(*hosts),
                ctx@,
                model@,
            ),
        decreases server.locations.len() - i,
    {
        assert(server@.locations[i as int] == server.locations@[i as int]@);
        map_location(&server.locations[i], hosts, &ctx, doc, reg, agg, findings, model);
        i += 1;
    }
    match &ctx.root {
        Some(dir) => {
            if !any_static(&doc.routes, route_start) {
                let why = cat3(
                    "docroot '",
                    dir.as_str(),
                    "' set but no static location uses it — ignored",
                );
                file(findings, Status::Unsupported, ctx.root_line, "root", why.as_str());
            }
        },
        None => {},
    }
}

// ── Laws ────────────────────────────────────────────────────────────────
proof fn lemma_locations_keep_routes_distinct(
    w: WorldV,
    ls: Seq<LocationV>,
    n: nat,
    hosts: Option<Seq<Seq<char>>>,
    ctx: CtxV,
    m: ModelV,
)
    requires
        location::routes_distinct(w.doc.routes),
    ensures
        location::routes_distinct(locations_of(w, ls, n, hosts, ctx, m).doc.routes),
    decreases n,
{
    if n > 0 {
        lemma_locations_keep_routes_distinct(w, ls, (n - 1) as nat, hosts, ctx, m);
        location::law_location_keeps_routes_distinct(
            locations_of(w, ls, (n - 1) as nat, hosts, ctx, m),
            ls[n - 1],
            hosts,
            ctx,
            m,
        );
    }
}

/// Mapping a server keeps the routes distinct.
pub proof fn law_server_keeps_routes_distinct(
    w: WorldV,
    s: ServerV,
    hosts: Option<Seq<Seq<char>>>,
    m: ModelV,
)
    requires
        location::routes_distinct(w.doc.routes),
    ensures
        location::routes_distinct(map_server_of(w, s, hosts, m).doc.routes),
{
    let scan = server_scan(
        ScanV {
            ctx: empty_ctx(),
            trusted: w.doc.trusted_proxies,
            sh: SharedV { cap: w.doc.waf_body_mb, agg: w.agg, notes: w.notes },
        },
        s.directives,
        s.directives.len(),
        m,
    );
    let w1 = WorldV {
        doc: DocV { trusted_proxies: scan.trusted, waf_body_mb: scan.sh.cap, ..w.doc },
        agg: scan.sh.agg,
        notes: scan.sh.notes,
        ..w
    };
    lemma_locations_keep_routes_distinct(w1, s.locations, s.locations.len(), hosts, scan.ctx, m);
}

} // verus!
