//! Location blocks to routes.
use super::directives::{
    classify_set_header, map_add_header, map_body_size, map_connect_timeout, map_limit_conn,
    map_limit_req, AggV, Aggregates, SetHeaderV,
};
use super::upstream::{RegV, UpstreamReg};
use super::{DocV, RouteOut, RouteV, ZionDoc};
use crate::headers;
use crate::headers::is_header_text;
use crate::import;
use crate::import::model::{LocMod, Location, LocationV, ModelV, NginxModel};
use crate::import::nginx::{Dir, Directive};
use crate::import::{file, Finding, Note, Status};
use crate::text;
use crate::text::{begins_with, cat2, cat3, cat5, closes_with, has_char, own, own_list, own_opt};
use crate::text::{own_opt_list, same, starts_with, strip_prefix, trim_end_char};
use crate::text::{trim_start_char, chars_of, find_from, slice_of};
use vstd::prelude::*;

verus! {

broadcast use {crate::text::group_views, crate::import::nginx::lemma_dir_view};

// ── Inherited state ─────────────────────────────────────────────────────
/// Server-level state that locations may inherit. nginx inheritance for the
/// header directives (`proxy_set_header`, `add_header`) is replace-not-merge:
/// a location that declares any of its own inherits none of the server's.
pub struct ServerCtx {
    pub csp: Option<String>,
    pub websocket: bool,
    pub hdr_annotations: Vec<String>,
    pub waf: bool,
    pub connect_ms: Option<u64>,
    /// Inherited docroot (`root <dir>`) that static locations serve from; a
    /// location's own `root` or `alias` overrides it.
    pub root: Option<String>,
    pub root_line: u32,
    /// Inherited `index`. Zion serves `index.html` for directory requests, so a
    /// non-default index becomes a partial finding when a static route uses it.
    pub index: Option<String>,
}

#[verifier::ext_equal]
pub struct CtxV {
    pub csp: Option<Seq<char>>,
    pub websocket: bool,
    pub hdr_annotations: Seq<Seq<char>>,
    pub waf: bool,
    pub connect_ms: Option<u64>,
    pub root: Option<Seq<char>>,
    pub root_line: int,
    pub index: Option<Seq<char>>,
}

impl View for ServerCtx {
    type V = CtxV;

    open spec fn view(&self) -> CtxV {
        CtxV {
            csp: text::opt(self.csp),
            websocket: self.websocket,
            hdr_annotations: text::views(self.hdr_annotations@),
            waf: self.waf,
            connect_ms: self.connect_ms,
            root: text::opt(self.root),
            root_line: self.root_line as int,
            index: text::opt(self.index),
        }
    }
}

// ── proxy_pass targets ──────────────────────────────────────────────────
/// nginx's unix-socket target syntax: `proxy_pass http://unix:/path[:/uri]`.
pub open spec fn unix_target(url: Seq<char>) -> bool {
    match text::strip_prefix_of(url, "http://"@) {
        Some(rest) => text::starts(rest, "unix:"@),
        None => match text::strip_prefix_of(url, "https://"@) {
            Some(rest) => text::starts(rest, "unix:"@),
            None => false,
        },
    }
}

pub fn is_unix_target(url: &str) -> (r: bool)
    ensures
        r == unix_target(url@),
{
    match strip_prefix(url, "http://") {
        Some(rest) => starts_with(rest.as_str(), "unix:"),
        None => match strip_prefix(url, "https://") {
            Some(rest) => starts_with(rest.as_str(), "unix:"),
            None => false,
        },
    }
}

/// An authority and the URI part behind it, if there is one.
pub open spec fn authority_parts(rest: Seq<char>) -> Option<(Seq<char>, Option<Seq<char>>)> {
    let i = text::index_of(rest, '/', 0);
    if rest.len() == 0 || i == 0 {
        None
    } else if i < rest.len() {
        Some((rest.subrange(0, i), Some(rest.subrange(i, rest.len() as int))))
    } else {
        Some((rest, None))
    }
}

/// `http://host[:port][/uri]` as scheme, authority and URI part.
pub open spec fn target_parts(url: Seq<char>) -> Option<
    (Seq<char>, Seq<char>, Option<Seq<char>>),
> {
    let (scheme, rest) = match text::strip_prefix_of(url, "http://"@) {
        Some(rest) => ("http"@, Some(rest)),
        None => ("https"@, text::strip_prefix_of(url, "https://"@)),
    };
    match rest {
        None => None,
        Some(rest) => match authority_parts(rest) {
            None => None,
            Some((authority, uri)) => Some((scheme, authority, uri)),
        },
    }
}

pub open spec fn opt_target(o: Option<(String, String, Option<String>)>) -> Option<
    (Seq<char>, Seq<char>, Option<Seq<char>>),
> {
    match o {
        Some((a, b, c)) => Some((a@, b@, text::opt(c))),
        None => None,
    }
}

pub fn split_proxy_pass(url: &str) -> (r: Option<(String, String, Option<String>)>)
    ensures
        opt_target(r) == target_parts(url@),
{
    let (scheme, rest) = match strip_prefix(url, "http://") {
        Some(rest) => ("http", rest),
        None => match strip_prefix(url, "https://") {
            Some(rest) => ("https", rest),
            None => {
                return None;
            },
        },
    };
    let v = chars_of(rest.as_str());
    let i: usize = find_from(&v, '/', 0);
    if v.len() == 0 || i == 0 {
        None
    } else if i < v.len() {
        Some((own(scheme), slice_of(&v, 0, i), Some(slice_of(&v, i, v.len()))))
    } else {
        Some((own(scheme), rest, None))
    }
}

// ── What a location says ────────────────────────────────────────────────
pub struct Proxy {
    pub scheme: String,
    pub target: String,
    pub uri: Option<String>,
    pub line: u32,
}

#[verifier::ext_equal]
pub struct ProxyV {
    pub scheme: Seq<char>,
    pub target: Seq<char>,
    pub uri: Option<Seq<char>>,
    pub line: int,
}

impl View for Proxy {
    type V = ProxyV;

    open spec fn view(&self) -> ProxyV {
        ProxyV {
            scheme: self.scheme@,
            target: self.target@,
            uri: text::opt(self.uri),
            line: self.line as int,
        }
    }
}

pub open spec fn opt_proxy(p: Option<Proxy>) -> Option<ProxyV> {
    match p {
        Some(p) => Some(p@),
        None => None,
    }
}

pub struct TryFiles {
    pub args: Vec<String>,
    pub line: u32,
}

pub open spec fn opt_try(t: Option<TryFiles>) -> Option<(Seq<Seq<char>>, int)> {
    match t {
        Some(t) => Some((text::views(t.args@), t.line as int)),
        None => None,
    }
}

/// A docroot that cannot be emitted, and the directive that set it.
pub struct BadRoot {
    pub line: u32,
    pub directive: &'static str,
}

pub open spec fn opt_bad(b: Option<BadRoot>) -> Option<(int, Seq<char>)> {
    match b {
        Some(b) => Some((b.line as int, b.directive@)),
        None => None,
    }
}

pub open spec fn opt_line(l: Option<u32>) -> Option<int> {
    match l {
        Some(l) => Some(l as int),
        None => None,
    }
}

pub struct LocState {
    pub proxy: Option<Proxy>,
    pub websocket: bool,
    pub has_set_header: bool,
    pub hdr_annotations: Vec<String>,
    pub csp: Option<String>,
    pub has_add_header: bool,
    pub connect: Option<u64>,
    pub waf: bool,
    pub static_seen: bool,
    pub root: Option<String>,
    pub alias: Option<String>,
    pub index: Option<String>,
    pub try_files: Option<TryFiles>,
    pub autoindex: Option<u32>,
    pub bad_root: Option<BadRoot>,
}

#[verifier::ext_equal]
pub struct LocV {
    pub proxy: Option<ProxyV>,
    pub websocket: bool,
    pub has_set_header: bool,
    pub hdr_annotations: Seq<Seq<char>>,
    pub csp: Option<Seq<char>>,
    pub has_add_header: bool,
    pub connect: Option<u64>,
    pub waf: bool,
    /// Whether any static-serving directive was there.
    pub static_seen: bool,
    pub root: Option<Seq<char>>,
    pub alias: Option<Seq<char>>,
    pub index: Option<Seq<char>>,
    pub try_files: Option<(Seq<Seq<char>>, int)>,
    pub autoindex: Option<int>,
    pub bad_root: Option<(int, Seq<char>)>,
}

impl View for LocState {
    type V = LocV;

    open spec fn view(&self) -> LocV {
        LocV {
            proxy: opt_proxy(self.proxy),
            websocket: self.websocket,
            has_set_header: self.has_set_header,
            hdr_annotations: text::views(self.hdr_annotations@),
            csp: text::opt(self.csp),
            has_add_header: self.has_add_header,
            connect: self.connect,
            waf: self.waf,
            static_seen: self.static_seen,
            root: text::opt(self.root),
            alias: text::opt(self.alias),
            index: text::opt(self.index),
            try_files: opt_try(self.try_files),
            autoindex: opt_line(self.autoindex),
            bad_root: opt_bad(self.bad_root),
        }
    }
}

pub open spec fn empty_loc(waf: bool) -> LocV {
    LocV {
        proxy: None,
        websocket: false,
        has_set_header: false,
        hdr_annotations: seq![],
        csp: None,
        has_add_header: false,
        connect: None,
        waf,
        static_seen: false,
        root: None,
        alias: None,
        index: None,
        try_files: None,
        autoindex: None,
        bad_root: None,
    }
}

/// What directives change beside the block they stand in: the document's body
/// cap, the aggregates and the notes.
pub struct SharedV {
    pub cap: Option<u64>,
    pub agg: AggV,
    pub notes: Seq<Note>,
}

pub open spec fn told(sh: SharedV, status: Status, d: Dir, directive: Seq<char>, detail: Seq<char>) -> SharedV {
    SharedV { notes: sh.notes.push(import::note(status, d.line, directive, detail)), ..sh }
}

/// A docroot that can be emitted.
pub open spec fn docroot(args: Seq<Seq<char>>) -> Option<Seq<char>> {
    if args.len() > 0 && args.last().len() > 0 && !args.last().contains('$') {
        Some(args.last())
    } else {
        None
    }
}

pub fn read_docroot(args: &Vec<String>) -> (r: Option<String>)
    ensures
        text::opt(r) == docroot(text::views(args@)),
{
    if args.len() == 0 {
        return None;
    }
    let dir: &str = args[args.len() - 1].as_str();
    assert(text::views(args@).last() == dir@);
    if !dir.is_empty() && !has_char(dir, '$') {
        Some(own(dir))
    } else {
        None
    }
}

pub open spec fn proxy_pass_step(st: LocV, sh: SharedV, d: Dir) -> (LocV, SharedV) {
    let refuse = |detail: Seq<char>|
        (st, told(sh, Status::Unsupported, d, "proxy_pass"@, detail));
    if d.args.len() == 0 {
        refuse("missing target"@)
    } else {
        let url = d.args[0];
        if url.contains('$') {
            refuse("variable target '"@ + url + "' — Zion upstreams are static"@)
        } else if unix_target(url) {
            refuse(
                "unix domain socket target '"@ + url
                    + "' — Zion upstreams are TCP http(s) only; route skipped"@,
            )
        } else {
            match target_parts(url) {
                Some((scheme, target, uri)) => (
                    LocV { proxy: Some(ProxyV { scheme, target, uri, line: d.line }), ..st },
                    sh,
                ),
                None => refuse("cannot parse target '"@ + url + "'"@),
            }
        }
    }
}

/// Directives that time something other than the upstream connect.
pub open spec fn other_timeout(name: Seq<char>) -> bool {
    ||| name == "proxy_read_timeout"@
    ||| name == "proxy_send_timeout"@
    ||| name == "send_timeout"@
    ||| name == "client_body_timeout"@
    ||| name == "keepalive_timeout"@
}

/// Why a location directive is not carried over, where the reason is fixed.
pub open spec fn location_refusal(name: Seq<char>) -> Option<(Status, Seq<char>)> {
    if name == "proxy_http_version"@ {
        Some((Status::Auto, "backend protocol is managed by Zion"@))
    } else if other_timeout(name) {
        Some(
            (
                Status::Unsupported,
                "only the upstream connect timeout is configurable in Zion"@,
            ),
        )
    } else if name == "proxy_buffering"@ {
        Some(
            (
                Status::Unsupported,
                "no buffering knob — for SSE endpoints use `mode = \"sse_stream\"`"@,
            ),
        )
    } else if name == "expires"@ {
        Some(
            (Status::Unsupported, "no Cache-Control injection — set it on the backend"@),
        )
    } else if name == "error_page"@ {
        Some((Status::Unsupported, "custom error pages are not configurable"@))
    } else if name == "access_log"@ {
        Some(
            (
                Status::Unsupported,
                "structured access logging is configured globally via [access_log]"@,
            ),
        )
    } else if name == "auth_basic"@ || name == "auth_basic_user_file"@ {
        Some((Status::Unsupported, "Zion auth profiles are JWT/OIDC, not basic auth"@))
    } else if name == "deny"@ || name == "allow"@ {
        Some(
            (
                Status::Unsupported,
                "no per-route IP allow/deny lists (`internal_only` covers RFC1918/loopback-only routes)"@,
            ),
        )
    } else if name == "if"@ {
        Some((Status::Unsupported, "no conditional engine by design"@))
    } else if name == "proxy_ssl_verify"@ || name == "proxy_ssl_name"@ || name
        == "proxy_ssl_server_name"@ {
        Some((Status::Unsupported, "upstream TLS verification is not tunable per route"@))
    } else {
        None
    }
}

/// One directive of a location block.
pub open spec fn loc_step(st: LocV, sh: SharedV, d: Dir, m: ModelV) -> (LocV, SharedV) {
    if d.name == "proxy_pass"@ {
        proxy_pass_step(st, sh, d)
    } else if d.name == "proxy_set_header"@ {
        let h = super::directives::set_header_step(
            SetHeaderV {
                websocket: st.websocket,
                annotations: st.hdr_annotations,
                notes: sh.notes,
            },
            d,
        );
        (
            LocV {
                has_set_header: true,
                websocket: h.websocket,
                hdr_annotations: h.annotations,
                ..st
            },
            SharedV { notes: h.notes, ..sh },
        )
    } else if d.name == "proxy_connect_timeout"@ {
        let (connect, notes) = super::directives::connect_timeout_step(st.connect, sh.notes, d);
        (LocV { connect, ..st }, SharedV { notes, ..sh })
    } else if d.name == "add_header"@ {
        let (csp, notes) = super::directives::add_header_step(st.csp, sh.notes, d);
        (LocV { has_add_header: true, csp, ..st }, SharedV { notes, ..sh })
    } else if d.name == "limit_req"@ {
        let (agg, notes) = super::directives::limit_req_step(sh.agg, sh.notes, d, m);
        (st, SharedV { agg, notes, ..sh })
    } else if d.name == "limit_conn"@ {
        let (agg, notes) = super::directives::limit_conn_step(sh.agg, sh.notes, d, m);
        (st, SharedV { agg, notes, ..sh })
    } else if d.name == "client_max_body_size"@ {
        let (cap, waf, notes) = super::directives::body_size_step(sh.cap, st.waf, sh.notes, d);
        (LocV { waf, ..st }, SharedV { cap, notes, ..sh })
    } else if d.name == "root"@ {
        match docroot(d.args) {
            Some(dir) => (LocV { static_seen: true, root: Some(dir), ..st }, sh),
            None => (
                LocV { static_seen: true, bad_root: Some((d.line, "root"@)), ..st },
                sh,
            ),
        }
    } else if d.name == "alias"@ {
        match docroot(d.args) {
            Some(dir) => (LocV { static_seen: true, alias: Some(dir), ..st }, sh),
            None => (
                LocV { static_seen: true, bad_root: Some((d.line, "alias"@)), ..st },
                sh,
            ),
        }
    } else if d.name == "try_files"@ {
        (LocV { static_seen: true, try_files: Some((d.args, d.line)), ..st }, sh)
    } else if d.name == "index"@ {
        (
            LocV {
                static_seen: true,
                index: if d.args.len() > 0 {
                    Some(d.args[0])
                } else {
                    None
                },
                ..st
            },
            sh,
        )
    } else if d.name == "autoindex"@ {
        (LocV { static_seen: true, autoindex: Some(d.line), ..st }, sh)
    } else {
        match location_refusal(d.name) {
            Some((status, why)) => (st, told(sh, status, d, d.name, why)),
            None => (st, SharedV { notes: sh.notes.push(import::unsupported_note(d)), ..sh }),
        }
    }
}

/// The first `n` directives of a location block.
pub open spec fn loc_scan(st: LocV, sh: SharedV, ds: Seq<Dir>, n: nat, m: ModelV) -> (LocV, SharedV)
    decreases n,
{
    if n == 0 {
        (st, sh)
    } else {
        let (st1, sh1) = loc_scan(st, sh, ds, (n - 1) as nat, m);
        loc_step(st1, sh1, ds[n - 1], m)
    }
}

pub open spec fn shared(cap: Option<u64>, agg: &Aggregates, findings: &Vec<Finding>) -> SharedV {
    SharedV { cap, agg: agg@, notes: text::views(findings@) }
}

fn map_proxy_pass(st: &mut LocState, d: &Directive, findings: &mut Vec<Finding>, Ghost(sh): Ghost<SharedV>)
    requires
        sh.notes == text::views(old(findings)@),
    ensures
        (final(st)@, SharedV { notes: text::views(final(findings)@), ..sh }) == proxy_pass_step(
            old(st)@,
            sh,
            d@,
        ),
{
    if d.args.len() == 0 {
        file(findings, Status::Unsupported, d.line, "proxy_pass", "missing target");
        return;
    }
    let url: &str = d.args[0].as_str();
    assert(d@.args[0] == url@);
    if has_char(url, '$') {
        let why = cat3("variable target '", url, "' — Zion upstreams are static");
        file(findings, Status::Unsupported, d.line, "proxy_pass", why.as_str());
    } else if is_unix_target(url) {
        let why = cat3(
            "unix domain socket target '",
            url,
            "' — Zion upstreams are TCP http(s) only; route skipped",
        );
        file(findings, Status::Unsupported, d.line, "proxy_pass", why.as_str());
    } else {
        match split_proxy_pass(url) {
            Some((scheme, target, uri)) => {
                st.proxy = Some(Proxy { scheme, target, uri, line: d.line });
            },
            None => {
                let why = cat3("cannot parse target '", url, "'");
                file(findings, Status::Unsupported, d.line, "proxy_pass", why.as_str());
            },
        }
    }
}

pub open spec fn opt_refusal(o: Option<(Status, &'static str)>) -> Option<(Status, Seq<char>)> {
    match o {
        Some((s, why)) => Some((s, why@)),
        None => None,
    }
}

fn refuse_in_location(name: &str) -> (r: Option<(Status, &'static str)>)
    ensures
        opt_refusal(r) == location_refusal(name@),
{
    if same(name, "proxy_http_version") {
        Some((Status::Auto, "backend protocol is managed by Zion"))
    } else if same(name, "proxy_read_timeout") || same(name, "proxy_send_timeout") || same(
        name,
        "send_timeout",
    ) || same(name, "client_body_timeout") || same(name, "keepalive_timeout") {
        Some((Status::Unsupported, "only the upstream connect timeout is configurable in Zion"))
    } else if same(name, "proxy_buffering") {
        Some(
            (
                Status::Unsupported,
                "no buffering knob — for SSE endpoints use `mode = \"sse_stream\"`",
            ),
        )
    } else if same(name, "expires") {
        Some((Status::Unsupported, "no Cache-Control injection — set it on the backend"))
    } else if same(name, "error_page") {
        Some((Status::Unsupported, "custom error pages are not configurable"))
    } else if same(name, "access_log") {
        Some(
            (
                Status::Unsupported,
                "structured access logging is configured globally via [access_log]",
            ),
        )
    } else if same(name, "auth_basic") || same(name, "auth_basic_user_file") {
        Some((Status::Unsupported, "Zion auth profiles are JWT/OIDC, not basic auth"))
    } else if same(name, "deny") || same(name, "allow") {
        Some(
            (
                Status::Unsupported,
                "no per-route IP allow/deny lists (`internal_only` covers RFC1918/loopback-only routes)",
            ),
        )
    } else if same(name, "if") {
        Some((Status::Unsupported, "no conditional engine by design"))
    } else if same(name, "proxy_ssl_verify") || same(name, "proxy_ssl_name") || same(
        name,
        "proxy_ssl_server_name",
    ) {
        Some((Status::Unsupported, "upstream TLS verification is not tunable per route"))
    } else {
        None
    }
}

#[verifier::rlimit(40)]
fn map_location_directive(
    st: &mut LocState,
    d: &Directive,
    cap: &mut Option<u64>,
    agg: &mut Aggregates,
    findings: &mut Vec<Finding>,
    model: &NginxModel,
)
    ensures
        (final(st)@, shared(*final(cap), final(agg), final(findings))) == loc_step(
            old(st)@,
            shared(*old(cap), old(agg), old(findings)),
            d@,
            model@,
        ),
{
    let ghost sh = shared(*cap, agg, findings);
    let name: &str = d.name.as_str();
    if same(name, "proxy_pass") {
        map_proxy_pass(st, d, findings, Ghost(sh));
    } else if same(name, "proxy_set_header") {
        st.has_set_header = true;
        classify_set_header(d, &mut st.websocket, &mut st.hdr_annotations, findings);
    } else if same(name, "proxy_connect_timeout") {
        map_connect_timeout(d, &mut st.connect, findings);
    } else if same(name, "add_header") {
        st.has_add_header = true;
        map_add_header(d, &mut st.csp, findings);
    } else if same(name, "limit_req") {
        map_limit_req(d, agg, model, findings);
    } else if same(name, "limit_conn") {
        map_limit_conn(d, agg, model, findings);
    } else if same(name, "client_max_body_size") {
        map_body_size(d, cap, &mut st.waf, findings);
    } else if same(name, "root") {
        st.static_seen = true;
        match read_docroot(&d.args) {
            Some(dir) => {
                st.root = Some(dir);
            },
            None => {
                st.bad_root = Some(BadRoot { line: d.line, directive: "root" });
            },
        }
    } else if same(name, "alias") {
        st.static_seen = true;
        match read_docroot(&d.args) {
            Some(dir) => {
                st.alias = Some(dir);
            },
            None => {
                st.bad_root = Some(BadRoot { line: d.line, directive: "alias" });
            },
        }
    } else if same(name, "try_files") {
        st.static_seen = true;
        st.try_files = Some(TryFiles { args: own_list(&d.args), line: d.line });
    } else if same(name, "index") {
        st.static_seen = true;
        st.index = if d.args.len() > 0 {
            assert(d@.args[0] == d.args@[0]@);
            Some(d.args[0].clone())
        } else {
            None
        };
    } else if same(name, "autoindex") {
        st.static_seen = true;
        st.autoindex = Some(d.line);
    } else {
        match refuse_in_location(name) {
            Some((status, why)) => {
                file(findings, status, d.line, name, why);
            },
            None => {
                findings.push(Finding::unsupported_directive(d));
            },
        }
    }
}

fn scan_location(
    loc: &Location,
    waf: bool,
    cap: &mut Option<u64>,
    agg: &mut Aggregates,
    findings: &mut Vec<Finding>,
    model: &NginxModel,
) -> (r: LocState)
    ensures
        (r@, shared(*final(cap), final(agg), final(findings))) == loc_scan(
            empty_loc(waf),
            shared(*old(cap), old(agg), old(findings)),
            loc@.directives,
            loc@.directives.len(),
            model@,
        ),
{
    let ghost sh = shared(*cap, agg, findings);
    let mut st = LocState {
        proxy: None,
        websocket: false,
        has_set_header: false,
        hdr_annotations: Vec::new(),
        csp: None,
        has_add_header: false,
        connect: None,
        waf,
        static_seen: false,
        root: None,
        alias: None,
        index: None,
        try_files: None,
        autoindex: None,
        bad_root: None,
    };
    assert(st@ =~= empty_loc(waf));
    let mut i: usize = 0;
    while i < loc.directives.len()
        invariant
            i <= loc.directives.len(),
            (st@, shared(*cap, agg, findings)) == loc_scan(
                empty_loc(waf),
                sh,
                loc@.directives,
                i as nat,
                model@,
            ),
        decreases loc.directives.len() - i,
    {
        assert(loc@.directives[i as int] == loc.directives@[i as int]@);
        map_location_directive(&mut st, &loc.directives[i], cap, agg, findings, model);
        i += 1;
    }
    st
}

// ── Paths ───────────────────────────────────────────────────────────────
pub open spec fn loc_note(loc: LocationV, status: Status, detail: Seq<char>) -> Note {
    import::note(status, loc.line, "location"@, detail)
}

/// The route path of a location: exact as-is, `/` is the catch-all, prefixes
/// with a trailing slash convert cleanly, bare prefixes carry the
/// string-prefix divergence as a partial note.
pub open spec fn path_of(loc: LocationV, notes: Seq<Note>) -> (Option<Seq<char>>, Seq<Note>) {
    let pat = loc.pattern;
    if !text::begins(pat, '/') {
        (
            None,
            notes.push(
                loc_note(
                    loc,
                    Status::Unsupported,
                    "pattern '"@ + pat + "' does not start with '/'"@,
                ),
            ),
        )
    } else if pat.contains('{') || pat.contains('}') || pat.contains('*') || pat.contains(':') {
        (
            None,
            notes.push(
                loc_note(
                    loc,
                    Status::Unsupported,
                    "pattern '"@ + pat + "' contains characters reserved by Zion's router"@,
                ),
            ),
        )
    } else if loc.modifier == LocMod::Exact {
        (
            Some(pat),
            notes.push(loc_note(loc, Status::Convert, "exact route '"@ + pat + "'"@)),
        )
    } else {
        let n1 = if loc.modifier == LocMod::PrefixPriority {
            notes.push(
                loc_note(
                    loc,
                    Status::Partial,
                    "'^~' treated as a plain prefix (Zion has no regex tier to suppress)"@,
                ),
            )
        } else {
            notes
        };
        let base = text::trim_end_of(pat, '/');
        let path = base + "/{*rest}"@;
        if base.len() == 0 {
            (
                Some("/{*rest}"@),
                n1.push(loc_note(loc, Status::Convert, "catch-all route '/{*rest}'"@)),
            )
        } else if text::closes(pat, '/') {
            (
                Some(path),
                n1.push(
                    loc_note(
                        loc,
                        Status::Convert,
                        "prefix route '"@ + path + "' (Zion also matches the bare '"@ + base
                            + "')"@,
                    ),
                ),
            )
        } else {
            (
                Some(path),
                n1.push(
                    loc_note(
                        loc,
                        Status::Partial,
                        "prefix route '"@ + path + "' — nginx's string-prefix '"@ + pat
                            + "' also matched e.g. '"@ + pat
                            + "xyz'; Zion matches on path segments"@,
                    ),
                ),
            )
        }
    }
}

pub fn location_path(loc: &Location, findings: &mut Vec<Finding>) -> (r: Option<String>)
    ensures
        (text::opt(r), text::views(final(findings)@)) == path_of(
            loc@,
            text::views(old(findings)@),
        ),
{
    let pat: &str = loc.pattern.as_str();
    if !begins_with(pat, '/') {
        let why = cat3("pattern '", pat, "' does not start with '/'");
        file(findings, Status::Unsupported, loc.line, "location", why.as_str());
        return None;
    }
    if has_char(pat, '{') || has_char(pat, '}') || has_char(pat, '*') || has_char(pat, ':') {
        let why = cat3("pattern '", pat, "' contains characters reserved by Zion's router");
        file(findings, Status::Unsupported, loc.line, "location", why.as_str());
        return None;
    }
    if loc.modifier == LocMod::Exact {
        let what = cat3("exact route '", pat, "'");
        file(findings, Status::Convert, loc.line, "location", what.as_str());
        return Some(own(pat));
    }
    if loc.modifier == LocMod::PrefixPriority {
        file(
            findings,
            Status::Partial,
            loc.line,
            "location",
            "'^~' treated as a plain prefix (Zion has no regex tier to suppress)",
        );
    }
    let base = trim_end_char(pat, '/');
    if base.as_str().is_empty() {
        file(findings, Status::Convert, loc.line, "location", "catch-all route '/{*rest}'");
        return Some(own("/{*rest}"));
    }
    let path = cat2(base.as_str(), "/{*rest}");
    if closes_with(pat, '/') {
        let what = cat5(
            "prefix route '",
            path.as_str(),
            "' (Zion also matches the bare '",
            base.as_str(),
            "')",
        );
        file(findings, Status::Convert, loc.line, "location", what.as_str());
    } else {
        let what = text::cat7(
            "prefix route '",
            path.as_str(),
            "' — nginx's string-prefix '",
            pat,
            "' also matched e.g. '",
            pat,
            "xyz'; Zion matches on path segments",
        );
        file(findings, Status::Partial, loc.line, "location", what.as_str());
    }
    Some(path)
}

// ── Collisions ──────────────────────────────────────────────────────────
/// Whether two lists have an item in common.
pub open spec fn lists_meet(a: Seq<Seq<char>>, b: Seq<Seq<char>>) -> bool {
    exists|i: int| 0 <= i < a.len() && b.contains(#[trigger] a[i])
}

/// Whether two host sets have a host in common. Hostless routes meet only
/// hostless routes.
pub open spec fn hosts_meet(a: Option<Seq<Seq<char>>>, b: Option<Seq<Seq<char>>>) -> bool {
    match (a, b) {
        (None, None) => true,
        (Some(a), Some(b)) => lists_meet(a, b),
        _ => false,
    }
}

/// Whether a route already serves the path for one of the hosts.
pub open spec fn collides(routes: Seq<RouteV>, path: Seq<char>, hosts: Option<Seq<Seq<char>>>) -> bool {
    exists|i: int|
        0 <= i < routes.len() && (#[trigger] routes[i]).path == path && hosts_meet(
            routes[i].hosts,
            hosts,
        )
}

fn share_item(a: &Vec<String>, b: &Vec<String>) -> (r: bool)
    ensures
        r == lists_meet(text::views(a@), text::views(b@)),
{
    let ghost av = text::views(a@);
    let ghost bv = text::views(b@);
    let mut i: usize = 0;
    while i < a.len()
        invariant
            i <= a.len(),
            av == text::views(a@),
            bv == text::views(b@),
            forall|j: int| 0 <= j < i ==> !bv.contains(#[trigger] av[j]),
        decreases a.len() - i,
    {
        assert(av[i as int] == a@[i as int]@);
        if text::list_has(b, a[i].as_str()) {
            assert(0 <= i < av.len() && bv.contains(av[i as int]));
            return true;
        }
        i += 1;
    }
    false
}

fn share_host(a: &Option<Vec<String>>, b: &Option<Vec<String>>) -> (r: bool)
    ensures
        r == hosts_meet(text::opt_list(*a), text::opt_list(*b)),
{
    match (a, b) {
        (None, None) => true,
        (Some(x), Some(y)) => share_item(x, y),
        _ => false,
    }
}

pub fn route_collides(routes: &Vec<RouteOut>, path: &str, hosts: &Option<Vec<String>>) -> (r: bool)
    ensures
        r == collides(text::views(routes@), path@, text::opt_list(*hosts)),
{
    let ghost rv = text::views(routes@);
    let mut i: usize = 0;
    while i < routes.len()
        invariant
            i <= routes.len(),
            rv == text::views(routes@),
            forall|j: int|
                0 <= j < i ==> !((#[trigger] rv[j]).path == path@ && hosts_meet(
                    rv[j].hosts,
                    text::opt_list(*hosts),
                )),
        decreases routes.len() - i,
    {
        assert(rv[i as int] == routes@[i as int]@);
        if same(routes[i].path.as_str(), path) && share_host(&routes[i].hosts, hosts) {
            return true;
        }
        i += 1;
    }
    false
}

pub open spec fn duplicate_note(loc: LocationV, path: Seq<char>) -> Note {
    loc_note(
        loc,
        Status::Unsupported,
        "'"@ + loc.pattern + "': duplicate path '"@ + path + "' for the same host — skipped"@,
    )
}

fn file_duplicate(loc: &Location, path: &str, findings: &mut Vec<Finding>)
    ensures
        text::views(final(findings)@) == text::views(old(findings)@).push(
            duplicate_note(loc@, path@),
        ),
{
    let why = cat5(
        "'",
        loc.pattern.as_str(),
        "': duplicate path '",
        path,
        "' for the same host — skipped",
    );
    file(findings, Status::Unsupported, loc.line, "location", why.as_str());
}

// ── Content-Security-Policy ─────────────────────────────────────────────
/// The policy that a route gets: the location's own if it has any
/// `add_header`, the server's otherwise; one that is no header value is
/// dropped.
pub open spec fn csp_of(st: LocV, ctx: CtxV, loc: LocationV, notes: Seq<Note>) -> (
    Option<Seq<char>>,
    Seq<Note>,
) {
    let csp = if st.has_add_header {
        st.csp
    } else {
        ctx.csp
    };
    match csp {
        Some(v) if !headers::header_text(v) => (
            None,
            notes.push(
                import::note(
                    Status::Unsupported,
                    loc.line,
                    "add_header"@,
                    "Content-Security-Policy value is not a valid header value — dropped"@,
                ),
            ),
        ),
        _ => (csp, notes),
    }
}

fn route_csp(st: &LocState, ctx: &ServerCtx, loc: &Location, findings: &mut Vec<Finding>) -> (r: Option<
    String,
>)
    ensures
        (text::opt(r), text::views(final(findings)@)) == csp_of(
            st@,
            ctx@,
            loc@,
            text::views(old(findings)@),
        ),
{
    let csp = if st.has_add_header {
        own_opt(&st.csp)
    } else {
        own_opt(&ctx.csp)
    };
    match csp {
        Some(v) => {
            if is_header_text(v.as_str()) {
                Some(v)
            } else {
                file(
                    findings,
                    Status::Unsupported,
                    loc.line,
                    "add_header",
                    "Content-Security-Policy value is not a valid header value — dropped",
                );
                None
            }
        },
        None => None,
    }
}

// ── Static routes ───────────────────────────────────────────────────────
/// What a `try_files` fallback (its last argument) means: whether the SPA
/// fallback is set, and what is to be noted. Zion's SPA fallback always serves
/// the docroot's `index.html`.
pub open spec fn try_files_of(args: Seq<Seq<char>>) -> (bool, Option<Seq<char>>) {
    if args.len() == 0 {
        (false, Some("try_files has no fallback argument"@))
    } else {
        let last = args.last();
        if text::begins(last, '=') {
            (false, None)
        } else if text::begins(last, '@') {
            (
                false,
                Some(
                    "try_files fallback to named location '"@ + last
                        + "' is not modeled — no SPA fallback set"@,
                ),
            )
        } else if last == "/index.html"@ {
            (true, None)
        } else {
            (
                true,
                Some(
                    "Zion's SPA fallback serves the docroot '/index.html', not '"@ + last + "'"@,
                ),
            )
        }
    }
}

pub fn classify_try_files(args: &Vec<String>) -> (r: (bool, Option<String>))
    ensures
        (r.0, text::opt(r.1)) == try_files_of(text::views(args@)),
{
    if args.len() == 0 {
        return (false, Some(own("try_files has no fallback argument")));
    }
    let last: &str = args[args.len() - 1].as_str();
    assert(text::views(args@).last() == last@);
    if begins_with(last, '=') {
        (false, None)
    } else if begins_with(last, '@') {
        (
            false,
            Some(
                cat3(
                    "try_files fallback to named location '",
                    last,
                    "' is not modeled — no SPA fallback set",
                ),
            ),
        )
    } else if same(last, "/index.html") {
        (true, None)
    } else {
        (
            true,
            Some(
                cat3("Zion's SPA fallback serves the docroot '/index.html', not '", last, "'"),
            ),
        )
    }
}

/// The directory that a static location serves. nginx `root` appends the whole
/// request URI while Zion strips the route prefix, so the location prefix is
/// joined to the root; `alias` already strips the prefix.
pub open spec fn serve_dir_of(st: LocV, ctx: CtxV, loc: LocationV) -> Option<Seq<char>> {
    match st.alias {
        Some(alias) => Some(text::trim_end_of(alias, '/')),
        None => {
            let root = if st.root is Some {
                st.root
            } else {
                ctx.root
            };
            match root {
                None => None,
                Some(root) => {
                    let base = text::trim_end_of(root, '/');
                    let prefix = text::trim_end_of(text::trim_start_of(loc.pattern, '/'), '/');
                    if prefix.len() == 0 {
                        Some(base)
                    } else {
                        Some(base + "/"@ + prefix)
                    }
                },
            }
        },
    }
}

fn resolve_serve_dir(st: &LocState, ctx: &ServerCtx, loc: &Location) -> (r: Option<String>)
    ensures
        text::opt(r) == serve_dir_of(st@, ctx@, loc@),
{
    match &st.alias {
        Some(alias) => Some(trim_end_char(alias.as_str(), '/')),
        None => {
            let root = if st.root.is_some() {
                own_opt(&st.root)
            } else {
                own_opt(&ctx.root)
            };
            match root {
                None => None,
                Some(root) => {
                    let base = trim_end_char(root.as_str(), '/');
                    let front = trim_start_char(loc.pattern.as_str(), '/');
                    let prefix = trim_end_char(front.as_str(), '/');
                    if prefix.as_str().is_empty() {
                        Some(base)
                    } else {
                        Some(cat3(base.as_str(), "/", prefix.as_str()))
                    }
                },
            }
        },
    }
}

/// The directive that a static route is filed under.
pub open spec fn static_signal(st: LocV) -> Seq<char> {
    if st.alias is Some {
        "alias"@
    } else if st.try_files is Some {
        "try_files"@
    } else {
        "root"@
    }
}

/// The notes that a static route brings beside its own.
pub open spec fn static_notes(st: LocV, ctx: CtxV, loc: LocationV, notes: Seq<Note>) -> Seq<Note> {
    let n1 = match st.try_files {
        Some((args, line)) => match try_files_of(args).1 {
            Some(why) => notes.push(
                import::note(Status::Partial, line, "try_files"@, why),
            ),
            None => notes,
        },
        None => notes,
    };
    let index = if st.index is Some {
        st.index
    } else {
        ctx.index
    };
    let n2 = match index {
        Some(idx) if idx != "index.html"@ => n1.push(
            import::note(
                Status::Partial,
                loc.line,
                "index"@,
                "Zion serves 'index.html' for directory requests; custom index '"@ + idx
                    + "' is not honored"@,
            ),
        ),
        _ => n1,
    };
    match st.autoindex {
        Some(line) => n2.push(
            import::note(
                Status::Partial,
                line,
                "autoindex"@,
                "no directory listing — Zion serves index.html or 404"@,
            ),
        ),
        None => n2,
    }
}

/// A location without a proxy target but with a static-serving directive: the
/// route it becomes, or the note on why it becomes none.
pub open spec fn static_route(
    routes: Seq<RouteV>,
    loc: LocationV,
    hosts: Option<Seq<Seq<char>>>,
    ctx: CtxV,
    st: LocV,
    notes: Seq<Note>,
) -> (Option<RouteV>, Seq<Note>) {
    if st.bad_root is Some {
        let (line, directive) = st.bad_root->0;
        (
            None,
            notes.push(
                import::note(
                    Status::Unsupported,
                    line,
                    directive,
                    "docroot is empty or contains an unresolved variable — not emitted"@,
                ),
            ),
        )
    } else if loc.modifier == LocMod::Exact {
        (
            None,
            notes.push(
                loc_note(
                    loc,
                    Status::Unsupported,
                    "exact-match static location '"@ + loc.pattern
                        + "' is not converted — write it as a prefix `mode=static` route by hand"@,
                ),
            ),
        )
    } else {
        match path_of(loc, notes) {
            (None, n1) => (None, n1),
            (Some(path), n1) => match serve_dir_of(st, ctx, loc) {
                None => (
                    None,
                    n1.push(
                        loc_note(
                            loc,
                            Status::Unsupported,
                            "'"@ + loc.pattern
                                + "': static location without a resolvable `root` or `alias` — skipped"@,
                        ),
                    ),
                ),
                Some(serve_dir) => if collides(routes, path, hosts) {
                    (None, n1.push(duplicate_note(loc, path)))
                } else {
                    let spa = match st.try_files {
                        Some((args, _)) => try_files_of(args).0,
                        None => false,
                    };
                    let n2 = n1.push(
                        import::note(
                            Status::Convert,
                            loc.line,
                            static_signal(st),
                            "route '"@ + path + "' → mode=static, serve_dir '"@ + serve_dir
                                + (if spa {
                                "' + spa_fallback"@
                            } else {
                                "'"@
                            }),
                        ),
                    );
                    let n3 = static_notes(st, ctx, loc, n2);
                    let (csp, n4) = csp_of(st, ctx, loc, n3);
                    (
                        Some(
                            RouteV {
                                path,
                                hosts,
                                upstream: ""@,
                                websocket: false,
                                csp,
                                waf: false,
                                serve_dir: Some(serve_dir),
                                spa_fallback: spa,
                                annotations: seq![],
                            },
                        ),
                        n4,
                    )
                },
            },
        }
    }
}

pub open spec fn opt_route(r: Option<RouteOut>) -> Option<RouteV> {
    match r {
        Some(r) => Some(r@),
        None => None,
    }
}

fn file_static_notes(st: &LocState, ctx: &ServerCtx, loc: &Location, findings: &mut Vec<Finding>)
    ensures
        text::views(final(findings)@) == static_notes(
            st@,
            ctx@,
            loc@,
            text::views(old(findings)@),
        ),
{
    match &st.try_files {
        Some(t) => match classify_try_files(&t.args).1 {
            Some(why) => {
                file(findings, Status::Partial, t.line, "try_files", why.as_str());
            },
            None => {},
        },
        None => {},
    }
    let index = if st.index.is_some() {
        own_opt(&st.index)
    } else {
        own_opt(&ctx.index)
    };
    match index {
        Some(idx) => {
            if !same(idx.as_str(), "index.html") {
                let why = cat3(
                    "Zion serves 'index.html' for directory requests; custom index '",
                    idx.as_str(),
                    "' is not honored",
                );
                file(findings, Status::Partial, loc.line, "index", why.as_str());
            }
        },
        None => {},
    }
    match st.autoindex {
        Some(line) => {
            file(
                findings,
                Status::Partial,
                line,
                "autoindex",
                "no directory listing — Zion serves index.html or 404",
            );
        },
        None => {},
    }
}

fn map_static(
    routes: &Vec<RouteOut>,
    loc: &Location,
    hosts: &Option<Vec<String>>,
    ctx: &ServerCtx,
    st: &LocState,
    findings: &mut Vec<Finding>,
) -> (r: Option<RouteOut>)
    ensures
        (opt_route(r), text::views(final(findings)@)) == static_route(
            text::views(routes@),
            loc@,
            text::opt_list(*hosts),
            ctx@,
            st@,
            text::views(old(findings)@),
        ),
{
    match &st.bad_root {
        Some(b) => {
            file(
                findings,
                Status::Unsupported,
                b.line,
                b.directive,
                "docroot is empty or contains an unresolved variable — not emitted",
            );
            return None;
        },
        None => {},
    }
    if loc.modifier == LocMod::Exact {
        let why = cat3(
            "exact-match static location '",
            loc.pattern.as_str(),
            "' is not converted — write it as a prefix `mode=static` route by hand",
        );
        file(findings, Status::Unsupported, loc.line, "location", why.as_str());
        return None;
    }
    let path = match location_path(loc, findings) {
        Some(p) => p,
        None => {
            return None;
        },
    };
    let serve_dir = match resolve_serve_dir(st, ctx, loc) {
        Some(d) => d,
        None => {
            let why = cat3(
                "'",
                loc.pattern.as_str(),
                "': static location without a resolvable `root` or `alias` — skipped",
            );
            file(findings, Status::Unsupported, loc.line, "location", why.as_str());
            return None;
        },
    };
    if route_collides(routes, path.as_str(), hosts) {
        file_duplicate(loc, path.as_str(), findings);
        return None;
    }
    let spa = match &st.try_files {
        Some(t) => classify_try_files(&t.args).0,
        None => false,
    };
    let signal: &str = if st.alias.is_some() {
        "alias"
    } else if st.try_files.is_some() {
        "try_files"
    } else {
        "root"
    };
    let what = cat5(
        "route '",
        path.as_str(),
        "' → mode=static, serve_dir '",
        serve_dir.as_str(),
        if spa {
            "' + spa_fallback"
        } else {
            "'"
        },
    );
    file(findings, Status::Convert, loc.line, signal, what.as_str());
    file_static_notes(st, ctx, loc, findings);
    let csp = route_csp(st, ctx, loc, findings);
    let route = RouteOut {
        path,
        hosts: own_opt_list(hosts),
        upstream: own(""),
        websocket: false,
        csp,
        waf: false,
        serve_dir: Some(serve_dir),
        spa_fallback: spa,
        annotations: Vec::new(),
    };
    assert(route@.annotations =~= seq![]);
    Some(route)
}

// ── Proxy routes ────────────────────────────────────────────────────────
/// What a URI part of a `proxy_pass` target leaves behind: Zion forwards the
/// original request path unchanged. Replacing `/` by `/` is the identity.
pub open spec fn uri_part(p: ProxyV, loc: LocationV, annotations: Seq<Seq<char>>, notes: Seq<Note>) -> (
    Seq<Seq<char>>,
    Seq<Note>,
) {
    match p.uri {
        None => (annotations, notes),
        Some(uri) => if uri == "/"@ && loc.modifier == LocMod::Prefix && loc.pattern == "/"@ {
            (annotations, notes)
        } else {
            (
                annotations.push(
                    "proxy_pass URI part '"@ + uri
                        + "' dropped: Zion forwards the original request path unchanged"@,
                ),
                notes.push(
                    import::note(
                        Status::Unsupported,
                        p.line,
                        "proxy_pass"@,
                        "URI part '"@ + uri
                            + "' — Zion forwards the original request path unchanged (no prefix strip/replace); upstream kept authority-only"@,
                    ),
                ),
            )
        },
    }
}

pub struct Routed {
    pub reg: RegV,
    pub route: Option<RouteV>,
    pub notes: Seq<Note>,
}

/// A location with a proxy target: the route it becomes, or the note on why it
/// becomes none.
pub open spec fn proxy_route(
    routes: Seq<RouteV>,
    reg: RegV,
    loc: LocationV,
    hosts: Option<Seq<Seq<char>>>,
    ctx: CtxV,
    st: LocV,
    p: ProxyV,
    notes: Seq<Note>,
) -> Routed {
    match path_of(loc, notes) {
        (None, n1) => Routed { reg, route: None, notes: n1 },
        (Some(path), n1) => {
            let inherited = if st.has_set_header {
                st.hdr_annotations
            } else {
                ctx.hdr_annotations
            };
            let (annotations, n2) = uri_part(p, loc, inherited, n1);
            if collides(routes, path, hosts) {
                Routed { reg, route: None, notes: n2.push(duplicate_note(loc, path)) }
            } else {
                let (csp, n3) = csp_of(st, ctx, loc, n2);
                let connect = if st.connect is Some {
                    st.connect
                } else {
                    ctx.connect_ms
                };
                let r = super::upstream::resolve_of(
                    reg,
                    p.scheme,
                    p.target,
                    connect,
                    p.line,
                    n3,
                );
                Routed {
                    reg: r.reg,
                    route: Some(
                        RouteV {
                            path,
                            hosts,
                            upstream: r.name,
                            websocket: if st.has_set_header {
                                st.websocket
                            } else {
                                ctx.websocket
                            },
                            csp,
                            waf: st.waf,
                            serve_dir: None,
                            spa_fallback: false,
                            annotations: if st.static_seen {
                                annotations.push(
                                    "this location also served static content in nginx — that part needs a separate static host"@,
                                )
                            } else {
                                annotations
                            },
                        },
                    ),
                    notes: r.notes.push(
                        import::note(
                            Status::Convert,
                            p.line,
                            "proxy_pass"@,
                            "route '"@ + path + "' → upstream '"@ + r.name + "'"@,
                        ),
                    ),
                }
            }
        },
    }
}

fn map_proxy(
    routes: &Vec<RouteOut>,
    reg: &mut UpstreamReg,
    loc: &Location,
    hosts: &Option<Vec<String>>,
    ctx: &ServerCtx,
    st: &LocState,
    p: &Proxy,
    findings: &mut Vec<Finding>,
) -> (r: Option<RouteOut>)
    ensures
        (Routed {
            reg: final(reg)@,
            route: opt_route(r),
            notes: text::views(final(findings)@),
        }) == proxy_route(
            text::views(routes@),
            old(reg)@,
            loc@,
            text::opt_list(*hosts),
            ctx@,
            st@,
            p@,
            text::views(old(findings)@),
        ),
{
    let path = match location_path(loc, findings) {
        Some(path) => path,
        None => {
            return None;
        },
    };
    let mut annotations = if st.has_set_header {
        own_list(&st.hdr_annotations)
    } else {
        own_list(&ctx.hdr_annotations)
    };
    match &p.uri {
        Some(uri) => {
            let uri: &str = uri.as_str();
            if !(same(uri, "/") && loc.modifier == LocMod::Prefix && same(
                loc.pattern.as_str(),
                "/",
            )) {
                let why = cat3(
                    "URI part '",
                    uri,
                    "' — Zion forwards the original request path unchanged (no prefix strip/replace); upstream kept authority-only",
                );
                file(findings, Status::Unsupported, p.line, "proxy_pass", why.as_str());
                annotations.push(
                    cat3(
                        "proxy_pass URI part '",
                        uri,
                        "' dropped: Zion forwards the original request path unchanged",
                    ),
                );
            }
        },
        None => {},
    }
    if route_collides(routes, path.as_str(), hosts) {
        file_duplicate(loc, path.as_str(), findings);
        return None;
    }
    let csp = route_csp(st, ctx, loc, findings);
    let connect: Option<u64> = if st.connect.is_some() {
        st.connect
    } else {
        ctx.connect_ms
    };
    let upstream = reg.resolve(p.scheme.as_str(), p.target.as_str(), connect, p.line, findings);
    let what = cat5("route '", path.as_str(), "' → upstream '", upstream.as_str(), "'");
    file(findings, Status::Convert, p.line, "proxy_pass", what.as_str());
    if st.static_seen {
        annotations.push(
            own(
                "this location also served static content in nginx — that part needs a separate static host",
            ),
        );
    }
    let websocket = if st.has_set_header {
        st.websocket
    } else {
        ctx.websocket
    };
    Some(
        RouteOut {
            path,
            hosts: own_opt_list(hosts),
            upstream,
            websocket,
            csp,
            waf: st.waf,
            serve_dir: None,
            spa_fallback: false,
            annotations,
        },
    )
}

// ── Locations ───────────────────────────────────────────────────────────
/// Everything that mapping a location may change.
#[verifier::ext_equal]
pub struct WorldV {
    pub doc: DocV,
    pub reg: RegV,
    pub agg: AggV,
    pub notes: Seq<Note>,
}

pub open spec fn world(doc: &ZionDoc, reg: &UpstreamReg, agg: &Aggregates, findings: &Vec<Finding>) -> WorldV {
    WorldV { doc: doc@, reg: reg@, agg: agg@, notes: text::views(findings@) }
}

/// An explicit sign that the location serves files.
pub open spec fn serves_files(st: LocV) -> bool {
    st.try_files is Some || st.root is Some || st.alias is Some || st.index is Some || st.autoindex
        is Some
}

/// A directive that says which files a location serves.
pub open spec fn on_files(name: Seq<char>) -> bool {
    ||| name == "root"@
    ||| name == "alias"@
    ||| name == "try_files"@
    ||| name == "index"@
    ||| name == "autoindex"@
}

/// What a location that is proxied says on files is not carried over.
pub open spec fn files_told(ds: Seq<Dir>, n: nat, notes: Seq<Note>) -> Seq<Note>
    decreases n,
{
    if n == 0 {
        notes
    } else {
        let p = files_told(ds, (n - 1) as nat, notes);
        let d = ds[n - 1];
        if on_files(d.name) {
            p.push(
                import::note(
                    Status::Unsupported,
                    d.line,
                    d.name,
                    "the location is proxied — its static content needs a separate static host"@,
                ),
            )
        } else {
            p
        }
    }
}

fn file_files(ds: &Vec<Directive>, findings: &mut Vec<Finding>)
    ensures
        text::views(final(findings)@) == files_told(
            text::views(ds@),
            ds@.len(),
            text::views(old(findings)@),
        ),
{
    let ghost dv = text::views(ds@);
    let ghost notes = text::views(findings@);
    let mut i: usize = 0;
    while i < ds.len()
        invariant
            i <= ds.len(),
            dv == text::views(ds@),
            text::views(findings@) == files_told(dv, i as nat, notes),
        decreases ds.len() - i,
    {
        assert(dv[i as int] == ds@[i as int]@);
        let name: &str = ds[i].name.as_str();
        if same(name, "root") || same(name, "alias") || same(name, "try_files") || same(
            name,
            "index",
        ) || same(name, "autoindex") {
            file(
                findings,
                Status::Unsupported,
                ds[i].line,
                name,
                "the location is proxied — its static content needs a separate static host",
            );
        }
        i += 1;
    }
}

/// One location block of a server.
pub open spec fn location_step(
    w: WorldV,
    loc: LocationV,
    hosts: Option<Seq<Seq<char>>>,
    ctx: CtxV,
    m: ModelV,
) -> WorldV {
    if loc.modifier == LocMod::Regex {
        WorldV {
            notes: w.notes.push(
                loc_note(
                    loc,
                    Status::Unsupported,
                    "regex location '"@ + loc.pattern
                        + "' — Zion routes on literal paths and catch-alls only; write it as a prefix route by hand"@,
                ),
            ),
            ..w
        }
    } else {
        let (st, sh) = loc_scan(
            empty_loc(ctx.waf),
            SharedV { cap: w.doc.waf_body_mb, agg: w.agg, notes: w.notes },
            loc.directives,
            loc.directives.len(),
            m,
        );
        let doc = DocV { waf_body_mb: sh.cap, ..w.doc };
        let w1 = WorldV { doc, agg: sh.agg, notes: sh.notes, ..w };
        match st.proxy {
            Some(p) => {
                let told = files_told(loc.directives, loc.directives.len(), sh.notes);
                let r = proxy_route(doc.routes, w.reg, loc, hosts, ctx, st, p, told);
                WorldV {
                    doc: match r.route {
                        Some(route) => DocV { routes: doc.routes.push(route), ..doc },
                        None => doc,
                    },
                    reg: r.reg,
                    notes: r.notes,
                    ..w1
                }
            },
            None => if serves_files(st) {
                let (route, notes) = static_route(doc.routes, loc, hosts, ctx, st, sh.notes);
                WorldV {
                    doc: match route {
                        Some(route) => DocV { routes: doc.routes.push(route), ..doc },
                        None => doc,
                    },
                    notes,
                    ..w1
                }
            } else {
                WorldV {
                    notes: sh.notes.push(
                        loc_note(
                            loc,
                            Status::Unsupported,
                            "'"@ + loc.pattern + "': no convertible proxy target — skipped"@,
                        ),
                    ),
                    ..w1
                }
            },
        }
    }
}

pub fn map_location(
    loc: &Location,
    hosts: &Option<Vec<String>>,
    ctx: &ServerCtx,
    doc: &mut ZionDoc,
    reg: &mut UpstreamReg,
    agg: &mut Aggregates,
    findings: &mut Vec<Finding>,
    model: &NginxModel,
)
    ensures
        world(final(doc), final(reg), final(agg), final(findings)) == location_step(
            world(old(doc), old(reg), old(agg), old(findings)),
            loc@,
            text::opt_list(*hosts),
            ctx@,
            model@,
        ),
{
    if loc.modifier == LocMod::Regex {
        let why = cat3(
            "regex location '",
            loc.pattern.as_str(),
            "' — Zion routes on literal paths and catch-alls only; write it as a prefix route by hand",
        );
        file(findings, Status::Unsupported, loc.line, "location", why.as_str());
        return;
    }
    let ghost before = doc@;
    let st = scan_location(loc, ctx.waf, &mut doc.waf_body_mb, agg, findings, model);
    assert(doc@ == (DocV { waf_body_mb: doc@.waf_body_mb, ..before }));
    match &st.proxy {
        Some(p) => {
            file_files(&loc.directives, findings);
            match map_proxy(&doc.routes, reg, loc, hosts, ctx, &st, p, findings) {
                Some(route) => {
                    doc.routes.push(route);
                },
                None => {},
            }
        },
        None => {
            if st.try_files.is_some() || st.root.is_some() || st.alias.is_some()
                || st.index.is_some() || st.autoindex.is_some() {
                match map_static(&doc.routes, loc, hosts, ctx, &st, findings) {
                    Some(route) => {
                        doc.routes.push(route);
                    },
                    None => {},
                }
            } else {
                let why = cat3(
                    "'",
                    loc.pattern.as_str(),
                    "': no convertible proxy target — skipped",
                );
                file(findings, Status::Unsupported, loc.line, "location", why.as_str());
            }
        },
    }
}

// ── Laws ────────────────────────────────────────────────────────────────
/// No two routes serve the same path for the same host: the router would
/// refuse the second one at boot.
pub open spec fn routes_distinct(routes: Seq<RouteV>) -> bool {
    forall|i: int, j: int|
        0 <= i < j < routes.len() ==> !((#[trigger] routes[i]).path == (#[trigger] routes[j]).path
            && hosts_meet(routes[i].hosts, routes[j].hosts))
}

/// Mapping a location keeps the routes distinct.
pub proof fn law_location_keeps_routes_distinct(
    w: WorldV,
    loc: LocationV,
    hosts: Option<Seq<Seq<char>>>,
    ctx: CtxV,
    m: ModelV,
)
    requires
        routes_distinct(w.doc.routes),
    ensures
        routes_distinct(location_step(w, loc, hosts, ctx, m).doc.routes),
{
    let routes = location_step(w, loc, hosts, ctx, m).doc.routes;
    let n = w.doc.routes.len() as int;
    assert forall|i: int, j: int| 0 <= i < j < routes.len() implies !((#[trigger] routes[i]).path
        == (#[trigger] routes[j]).path && hosts_meet(routes[i].hosts, routes[j].hosts)) by {
        assert(routes[i] == w.doc.routes[i]);
        if j < n {
            assert(routes[j] == w.doc.routes[j]);
        }
    }
}

/// Every route of a location belongs to the hosts that the location was mapped
/// for, and earlier routes stay as they are.
pub proof fn law_location_routes_have_its_hosts(
    w: WorldV,
    loc: LocationV,
    hosts: Option<Seq<Seq<char>>>,
    ctx: CtxV,
    m: ModelV,
)
    ensures
        ({
            let routes = location_step(w, loc, hosts, ctx, m).doc.routes;
            &&& w.doc.routes.len() <= routes.len() <= w.doc.routes.len() + 1
            &&& forall|i: int| 0 <= i < w.doc.routes.len() ==> routes[i] == w.doc.routes[i]
            &&& forall|i: int|
                w.doc.routes.len() <= i < routes.len() ==> (#[trigger] routes[i]).hosts == hosts
        }),
{
}

} // verus!
