//! nginx model to Zion document.
//!
//! Every directive ends in exactly one finding bucket, and anything Zion cannot
//! express faithfully becomes a loud finding, never a best-effort guess. The
//! [`ZionDoc`] is pure data.
use self::directives::{finish_aggregates, new_aggregates};
use self::listen::map_listens;
use self::location::WorldV;
use self::server::map_server;
use self::servers::{keep_servers, server_is_tls, Kept, KeptV};
use self::tls::map_tls;
use self::upstream::UpstreamReg;
use crate::import;
use crate::import::model::{ModelV, NginxModel};
use crate::import::{file, Finding, Note, Status};
use crate::text;
use crate::text::{cat3, cat4, dec_text, join_strings, list_has, own};
use vstd::prelude::*;

pub mod certificates;
pub mod directives;
pub mod laws;
pub mod listen;
pub mod location;
pub mod meaning;
pub mod names;
pub mod quantities;
pub mod reach;
pub mod server;
pub mod servers;
pub mod tls;
pub mod units;
pub mod upstream;
pub mod whole;

verus! {

broadcast use crate::text::group_views;

// ── Output document ─────────────────────────────────────────────────────
#[derive(Debug)]
pub struct ZionDoc {
    pub listen_http: String,
    pub listen_https: String,
    pub rate_limit: Option<(u32, u64)>,
    pub max_conn_per_ip: Option<u32>,
    pub trusted_proxies: Vec<String>,
    pub tls_cert: String,
    pub tls_key: String,
    pub tls_min12: bool,
    pub sni: Vec<SniOut>,
    /// A `[tls.acme]` block for automatic HTTPS. The bootstrap certificate
    /// stays in `tls_cert`/`tls_key`; set by the Traefik and Caddy front-ends
    /// when the source uses ACME and a contact e-mail is known.
    pub acme: Option<AcmeOut>,
    pub waf_body_mb: Option<u64>,
    pub upstreams: Vec<UpstreamOut>,
    pub routes: Vec<RouteOut>,
}

#[derive(Debug)]
pub struct SniOut {
    pub server_name: String,
    pub cert: String,
    pub key: String,
}

#[derive(Debug)]
pub struct AcmeOut {
    pub email: String,
    pub domains: Vec<String>,
}

#[derive(Debug)]
pub struct UpstreamOut {
    pub name: String,
    pub urls: Vec<String>,
    pub connect_timeout_ms: Option<u64>,
    pub keepalive: Option<u64>,
}

#[derive(Debug)]
pub struct RouteOut {
    pub path: String,
    pub hosts: Option<Vec<String>>,
    pub upstream: String,
    pub websocket: bool,
    pub csp: Option<String>,
    /// Attach the shared `imported` WAF profile (body cap) in shadow mode.
    pub waf: bool,
    /// Serve directory of a `mode = "static"` route. When `Some`, the route
    /// serves files from disk instead of proxying and `upstream` is ignored.
    pub serve_dir: Option<String>,
    /// SPA fallback for a static route (serve `index.html` on a miss).
    pub spa_fallback: bool,
    /// Rendered as `# UNSUPPORTED: …` comment lines above the route.
    pub annotations: Vec<String>,
}

/// What a [`ZionDoc`] says.
#[verifier::ext_equal]
pub struct DocV {
    pub listen_http: Seq<char>,
    pub listen_https: Seq<char>,
    pub rate_limit: Option<(u32, u64)>,
    pub max_conn_per_ip: Option<u32>,
    pub trusted_proxies: Seq<Seq<char>>,
    pub tls_cert: Seq<char>,
    pub tls_key: Seq<char>,
    pub tls_min12: bool,
    pub sni: Seq<SniV>,
    pub acme: Option<AcmeV>,
    pub waf_body_mb: Option<u64>,
    pub upstreams: Seq<UpstreamV>,
    pub routes: Seq<RouteV>,
}

#[verifier::ext_equal]
pub struct SniV {
    pub server_name: Seq<char>,
    pub cert: Seq<char>,
    pub key: Seq<char>,
}

#[verifier::ext_equal]
pub struct AcmeV {
    pub email: Seq<char>,
    pub domains: Seq<Seq<char>>,
}

#[verifier::ext_equal]
pub struct UpstreamV {
    pub name: Seq<char>,
    pub urls: Seq<Seq<char>>,
    pub connect_timeout_ms: Option<u64>,
    pub keepalive: Option<u64>,
}

#[verifier::ext_equal]
pub struct RouteV {
    pub path: Seq<char>,
    pub hosts: Option<Seq<Seq<char>>>,
    pub upstream: Seq<char>,
    pub websocket: bool,
    pub csp: Option<Seq<char>>,
    pub waf: bool,
    pub serve_dir: Option<Seq<char>>,
    pub spa_fallback: bool,
    pub annotations: Seq<Seq<char>>,
}

pub open spec fn opt_acme(a: Option<AcmeOut>) -> Option<AcmeV> {
    match a {
        Some(a) => Some(a@),
        None => None,
    }
}

impl View for ZionDoc {
    type V = DocV;

    open spec fn view(&self) -> DocV {
        DocV {
            listen_http: self.listen_http@,
            listen_https: self.listen_https@,
            rate_limit: self.rate_limit,
            max_conn_per_ip: self.max_conn_per_ip,
            trusted_proxies: text::views(self.trusted_proxies@),
            tls_cert: self.tls_cert@,
            tls_key: self.tls_key@,
            tls_min12: self.tls_min12,
            sni: text::views(self.sni@),
            acme: opt_acme(self.acme),
            waf_body_mb: self.waf_body_mb,
            upstreams: text::views(self.upstreams@),
            routes: text::views(self.routes@),
        }
    }
}

impl View for SniOut {
    type V = SniV;

    open spec fn view(&self) -> SniV {
        SniV { server_name: self.server_name@, cert: self.cert@, key: self.key@ }
    }
}

impl View for AcmeOut {
    type V = AcmeV;

    open spec fn view(&self) -> AcmeV {
        AcmeV { email: self.email@, domains: text::views(self.domains@) }
    }
}

impl View for UpstreamOut {
    type V = UpstreamV;

    open spec fn view(&self) -> UpstreamV {
        UpstreamV {
            name: self.name@,
            urls: text::views(self.urls@),
            connect_timeout_ms: self.connect_timeout_ms,
            keepalive: self.keepalive,
        }
    }
}

impl View for RouteOut {
    type V = RouteV;

    open spec fn view(&self) -> RouteV {
        RouteV {
            path: self.path@,
            hosts: text::opt_list(self.hosts),
            upstream: self.upstream@,
            websocket: self.websocket,
            csp: text::opt(self.csp),
            waf: self.waf,
            serve_dir: text::opt(self.serve_dir),
            spa_fallback: self.spa_fallback,
            annotations: text::views(self.annotations@),
        }
    }
}

/// Placeholder certificate paths: the files need not exist for a document to
/// be valid; the operator fills them in.
pub const PLACEHOLDER_CERT: &'static str = "/etc/ssl/zion/zion.crt";

pub const PLACEHOLDER_KEY: &'static str = "/etc/ssl/zion/zion.key";

/// A document without routes.
pub open spec fn empty_doc() -> DocV {
    DocV {
        listen_http: ""@,
        listen_https: ""@,
        rate_limit: None,
        max_conn_per_ip: None,
        trusted_proxies: seq![],
        tls_cert: PLACEHOLDER_CERT@,
        tls_key: PLACEHOLDER_KEY@,
        tls_min12: false,
        sni: seq![],
        acme: None,
        waf_body_mb: None,
        upstreams: seq![],
        routes: seq![],
    }
}

pub fn new_doc() -> (r: ZionDoc)
    ensures
        r@ == empty_doc(),
{
    let doc = ZionDoc {
        listen_http: "".to_owned(),
        listen_https: "".to_owned(),
        rate_limit: None,
        max_conn_per_ip: None,
        trusted_proxies: Vec::new(),
        tls_cert: PLACEHOLDER_CERT.to_owned(),
        tls_key: PLACEHOLDER_KEY.to_owned(),
        tls_min12: false,
        sni: Vec::new(),
        acme: None,
        waf_body_mb: None,
        upstreams: Vec::new(),
        routes: Vec::new(),
    };
    assert(doc@ =~= empty_doc());
    doc
}

// ── Scope deltas ────────────────────────────────────────────────────────
/// Whether any kept server has hosts.
pub open spec fn any_named(kept: Seq<KeptV>) -> bool {
    exists|i: int| 0 <= i < kept.len() && (#[trigger] kept[i]).hosts is Some
}

/// The notes on default servers beside named ones: their routes become the
/// path-miss fallback under every named host.
pub open spec fn shared_notes(kept: Seq<KeptV>, n: nat, notes: Seq<Note>) -> Seq<Note>
    decreases n,
{
    if n == 0 {
        notes
    } else {
        let f = shared_notes(kept, (n - 1) as nat, notes);
        let k = kept[n - 1];
        if k.hosts is None && any_named(kept) && k.server.locations.len() > 0 {
            f.push(
                import::note(
                    Status::Partial,
                    k.server.line,
                    "server"@,
                    "default-vhost routes become hostless SHARED routes: nginx served them only for unmatched Hosts, but Zion's shared layer is also the path-miss fallback under every named host — internal endpoints parked here become reachable via all hostnames; review"@,
                ),
            )
        } else {
            f
        }
    }
}

fn has_named(kept: &Vec<Kept>) -> (r: bool)
    ensures
        r == any_named(text::views(kept@)),
{
    let ghost kv = text::views(kept@);
    let mut i: usize = 0;
    while i < kept.len()
        invariant
            i <= kept.len(),
            kv == text::views(kept@),
            forall|j: int| 0 <= j < i ==> (#[trigger] kv[j]).hosts is None,
        decreases kept.len() - i,
    {
        assert(kv[i as int] == kept@[i as int]@);
        if kept[i].hosts.is_some() {
            return true;
        }
        i += 1;
    }
    false
}

fn file_shared_notes(kept: &Vec<Kept>, findings: &mut Vec<Finding>)
    ensures
        text::views(final(findings)@) == shared_notes(
            text::views(kept@),
            kept@.len(),
            text::views(old(findings)@),
        ),
{
    let ghost kv = text::views(kept@);
    let ghost notes = text::views(findings@);
    let named = has_named(kept);
    let mut i: usize = 0;
    while i < kept.len()
        invariant
            i <= kept.len(),
            kv == text::views(kept@),
            named == any_named(kv),
            text::views(findings@) == shared_notes(kv, i as nat, notes),
        decreases kept.len() - i,
    {
        assert(kv[i as int] == kept@[i as int]@);
        if kept[i].hosts.is_none() && named && kept[i].server.locations.len() > 0 {
            file(
                findings,
                Status::Partial,
                kept[i].server.line,
                "server",
                "default-vhost routes become hostless SHARED routes: nginx served them only for unmatched Hosts, but Zion's shared layer is also the path-miss fallback under every named host — internal endpoints parked here become reachable via all hostnames; review",
            );
        }
        i += 1;
    }
}

/// The hosts met so far, and those already reported as repeated.
pub struct MetV {
    pub seen: Seq<Seq<char>>,
    pub flagged: Seq<Seq<char>>,
    pub notes: Seq<Note>,
}

/// The same host in several server blocks: nginx sends all of that host's
/// traffic to the first block; Zion merges the route sets.
pub open spec fn met_host(st: MetV, host: Seq<char>, line: int) -> MetV {
    if !st.seen.contains(host) {
        MetV { seen: st.seen.push(host), ..st }
    } else if st.flagged.contains(host) {
        st
    } else {
        MetV {
            flagged: st.flagged.push(host),
            notes: st.notes.push(
                import::note(
                    Status::Partial,
                    line,
                    "server_name"@,
                    "host '"@ + host
                        + "' appears in more than one server block — nginx routes all its traffic to the first block only; Zion merges the blocks' routes under this host"@,
                ),
            ),
            ..st
        }
    }
}

pub open spec fn met_hosts(st: MetV, hosts: Seq<Seq<char>>, n: nat, line: int) -> MetV
    decreases n,
{
    if n == 0 {
        st
    } else {
        met_host(met_hosts(st, hosts, (n - 1) as nat, line), hosts[n - 1], line)
    }
}

pub open spec fn met_servers(st: MetV, kept: Seq<KeptV>, n: nat) -> MetV
    decreases n,
{
    if n == 0 {
        st
    } else {
        let p = met_servers(st, kept, (n - 1) as nat);
        match kept[n - 1].hosts {
            Some(h) => met_hosts(p, h, h.len(), kept[n - 1].server.line),
            None => p,
        }
    }
}

spec fn met_view(seen: &Vec<String>, flagged: &Vec<String>, findings: &Vec<Finding>) -> MetV {
    MetV {
        seen: text::views(seen@),
        flagged: text::views(flagged@),
        notes: text::views(findings@),
    }
}

fn meet_hosts(
    hosts: &Vec<String>,
    line: u32,
    seen: &mut Vec<String>,
    flagged: &mut Vec<String>,
    findings: &mut Vec<Finding>,
)
    ensures
        met_view(final(seen), final(flagged), final(findings)) == met_hosts(
            met_view(old(seen), old(flagged), old(findings)),
            text::views(hosts@),
            hosts@.len(),
            line as int,
        ),
{
    let ghost st = met_view(seen, flagged, findings);
    let ghost hv = text::views(hosts@);
    let mut i: usize = 0;
    while i < hosts.len()
        invariant
            i <= hosts.len(),
            hv == text::views(hosts@),
            met_view(seen, flagged, findings) == met_hosts(st, hv, i as nat, line as int),
        decreases hosts.len() - i,
    {
        let host: &str = hosts[i].as_str();
        assert(hv[i as int] == host@);
        if !list_has(seen, host) {
            seen.push(own(host));
        } else if !list_has(flagged, host) {
            flagged.push(own(host));
            let why = cat3(
                "host '",
                host,
                "' appears in more than one server block — nginx routes all its traffic to the first block only; Zion merges the blocks' routes under this host",
            );
            file(findings, Status::Partial, line, "server_name", why.as_str());
        }
        i += 1;
    }
}

fn file_repeated_hosts(kept: &Vec<Kept>, findings: &mut Vec<Finding>)
    ensures
        text::views(final(findings)@) == met_servers(
            MetV { seen: seq![], flagged: seq![], notes: text::views(old(findings)@) },
            text::views(kept@),
            kept@.len(),
        ).notes,
{
    let ghost kv = text::views(kept@);
    let mut seen: Vec<String> = Vec::new();
    let mut flagged: Vec<String> = Vec::new();
    let ghost st = MetV { seen: seq![], flagged: seq![], notes: text::views(findings@) };
    assert(text::views(seen@) =~= seq![]);
    let mut i: usize = 0;
    while i < kept.len()
        invariant
            i <= kept.len(),
            kv == text::views(kept@),
            met_view(&seen, &flagged, findings) == met_servers(st, kv, i as nat),
        decreases kept.len() - i,
    {
        assert(kv[i as int] == kept@[i as int]@);
        match &kept[i].hosts {
            Some(h) => {
                meet_hosts(h, kept[i].server.line, &mut seen, &mut flagged, findings);
            },
            None => {},
        }
        i += 1;
    }
}

/// The lines of the plain-HTTP servers among the first `n`.
pub open spec fn plain_lines(kept: Seq<KeptV>, n: nat) -> Seq<int>
    decreases n,
{
    if n == 0 {
        seq![]
    } else {
        let p = plain_lines(kept, (n - 1) as nat);
        if servers::tls_of(kept[n - 1].server) {
            p
        } else {
            p.push(kept[n - 1].server.line)
        }
    }
}

pub open spec fn line_texts(lines: Seq<int>) -> Seq<Seq<char>> {
    Seq::new(lines.len(), |i: int| text::dec(lines[i] as nat))
}

/// Zion always terminates TLS: one note for all plain-HTTP servers.
pub open spec fn plain_notes(kept: Seq<KeptV>, notes: Seq<Note>) -> Seq<Note> {
    let lines = plain_lines(kept, kept.len());
    if lines.len() == 0 {
        notes
    } else {
        notes.push(
            import::note(
                Status::Partial,
                lines[0],
                "server"@,
                text::dec(lines.len()) + " plain-HTTP server(s) (line "@ + text::join(
                    line_texts(lines),
                    ", "@,
                )
                    + "): Zion always terminates TLS — port 80 serves only the redirect to HTTPS; review the synthesized certificate paths before deploying"@,
            ),
        )
    }
}

fn file_plain_notes(kept: &Vec<Kept>, findings: &mut Vec<Finding>)
    ensures
        text::views(final(findings)@) == plain_notes(
            text::views(kept@),
            text::views(old(findings)@),
        ),
{
    let ghost kv = text::views(kept@);
    let mut first: u32 = 0;
    let mut lines: Vec<String> = Vec::new();
    let mut i: usize = 0;
    assert(text::views(lines@) =~= line_texts(plain_lines(kv, 0)));
    while i < kept.len()
        invariant
            i <= kept.len(),
            kv == text::views(kept@),
            text::views(lines@) == line_texts(plain_lines(kv, i as nat)),
            lines@.len() == plain_lines(kv, i as nat).len(),
            lines@.len() > 0 ==> first == plain_lines(kv, i as nat)[0],
        decreases kept.len() - i,
    {
        assert(kv[i as int] == kept@[i as int]@);
        let ghost p = plain_lines(kv, i as nat);
        let line: u32 = kept[i].server.line;
        if !server_is_tls(kept[i].server) {
            if lines.len() == 0 {
                first = line;
            }
            lines.push(dec_text(line as u64));
            assert(text::views(lines@) =~= line_texts(p.push(line as int)));
        }
        i += 1;
    }
    if lines.len() > 0 {
        let list = join_strings(&lines, ", ");
        let why = cat4(
            dec_text(lines.len() as u64).as_str(),
            " plain-HTTP server(s) (line ",
            list.as_str(),
            "): Zion always terminates TLS — port 80 serves only the redirect to HTTPS; review the synthesized certificate paths before deploying",
        );
        file(findings, Status::Partial, first, "server", why.as_str());
    }
}

// ── Entry point ─────────────────────────────────────────────────────────
pub open spec fn map_servers(w: WorldV, kept: Seq<KeptV>, n: nat, m: ModelV) -> WorldV
    decreases n,
{
    if n == 0 {
        w
    } else {
        server::map_server_of(
            map_servers(w, kept, (n - 1) as nat, m),
            kept[n - 1].server,
            kept[n - 1].hosts,
            m,
        )
    }
}

/// The world before the first server: listeners and certificates.
pub open spec fn opened_of(m: ModelV, notes: Seq<Note>) -> WorldV {
    let (kept, n1) = servers::kept_of(m.servers, m.servers.len(), notes);
    let n2 = shared_notes(kept, kept.len(), n1);
    let n3 = met_servers(MetV { seen: seq![], flagged: seq![], notes: n2 }, kept, kept.len()).notes;
    let n4 = plain_notes(kept, n3);
    let ports = listen::ports_of(kept, kept.len(), n4);
    let (doc, n5) = tls::tls_doc(listen::listen_doc(empty_doc(), ports), kept, ports.notes);
    WorldV {
        doc,
        reg: upstream::RegV { pools: m.pools, uses: seq![], synth: seq![] },
        agg: directives::empty_agg(),
        notes: n5,
    }
}

/// The document behind the servers, before the aggregates: listeners,
/// certificates and routes of the kept servers.
pub open spec fn routed_of(m: ModelV, notes: Seq<Note>) -> WorldV {
    let kept = servers::kept_of(m.servers, m.servers.len(), notes).0;
    map_servers(opened_of(m, notes), kept, kept.len(), m)
}

/// The document of a model.
pub open spec fn map_model_of(m: ModelV, notes: Seq<Note>) -> (DocV, Seq<Note>) {
    let w = routed_of(m, notes);
    let (doc, n1) = directives::limits_doc(w.doc, w.agg, m, w.notes);
    let (upstreams, n2) = upstream::upstreams_of(w.reg, n1);
    (DocV { upstreams, ..doc }, n2)
}

pub fn map_model(model: &NginxModel, findings: &mut Vec<Finding>) -> (r: ZionDoc)
    ensures
        (r@, text::views(final(findings)@)) == map_model_of(
            model@,
            text::views(old(findings)@),
        ),
{
    let mut doc = new_doc();
    let kept = keep_servers(&model.servers, findings);
    let ghost kv = text::views(kept@);
    file_shared_notes(&kept, findings);
    file_repeated_hosts(&kept, findings);
    file_plain_notes(&kept, findings);
    map_listens(&kept, &mut doc, findings);
    map_tls(&kept, &mut doc, findings);
    let mut reg = UpstreamReg::new(&model.pools);
    let mut agg = new_aggregates();
    let ghost w = location::world(&doc, &reg, &agg, findings);
    let mut i: usize = 0;
    while i < kept.len()
        invariant
            i <= kept.len(),
            kv == text::views(kept@),
            location::world(&doc, &reg, &agg, findings) == map_servers(w, kv, i as nat, model@),
        decreases kept.len() - i,
    {
        assert(kv[i as int] == kept@[i as int]@);
        map_server(
            kept[i].server,
            &kept[i].hosts,
            &mut doc,
            &mut reg,
            &mut agg,
            findings,
            model,
        );
        i += 1;
    }
    finish_aggregates(&agg, model, &mut doc, findings);
    doc.upstreams = reg.finish(findings);
    doc
}

// ── Laws ────────────────────────────────────────────────────────────────
proof fn lemma_servers_keep_routes_distinct(w: WorldV, kept: Seq<KeptV>, n: nat, m: ModelV)
    requires
        location::routes_distinct(w.doc.routes),
    ensures
        location::routes_distinct(map_servers(w, kept, n, m).doc.routes),
    decreases n,
{
    if n > 0 {
        lemma_servers_keep_routes_distinct(w, kept, (n - 1) as nat, m);
        server::law_server_keeps_routes_distinct(
            map_servers(w, kept, (n - 1) as nat, m),
            kept[n - 1].server,
            kept[n - 1].hosts,
            m,
        );
    }
}

/// A converted document never holds the same path twice for one host.
pub proof fn law_converted_routes_distinct(m: ModelV, notes: Seq<Note>)
    ensures
        location::routes_distinct(map_model_of(m, notes).0.routes),
{
    let (kept, n1) = servers::kept_of(m.servers, m.servers.len(), notes);
    let n2 = shared_notes(kept, kept.len(), n1);
    let n3 = met_servers(MetV { seen: seq![], flagged: seq![], notes: n2 }, kept, kept.len()).notes;
    let n4 = plain_notes(kept, n3);
    let ports = listen::ports_of(kept, kept.len(), n4);
    let (doc, n5) = tls::tls_doc(listen::listen_doc(empty_doc(), ports), kept, ports.notes);
    lemma_servers_keep_routes_distinct(
        WorldV {
            doc,
            reg: upstream::RegV { pools: m.pools, uses: seq![], synth: seq![] },
            agg: directives::empty_agg(),
            notes: n5,
        },
        kept,
        kept.len(),
        m,
    );
}

} // verus!
