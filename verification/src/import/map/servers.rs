//! Which server blocks are kept, and under which hosts.
use crate::import;
use crate::import::model::{Server, ServerV};
use crate::import::nginx::{Dir, Directive};
use crate::import::{file, Finding, Note, Status};
use crate::text;
use crate::text::{begins_with, cat2, cat3, cat5, chars_of, dec_text, join_strings, same};
use crate::text::{own, strip_prefix, to_lower};
use vstd::prelude::*;

verus! {

broadcast use {crate::text::group_views, crate::import::nginx::lemma_dir_view};

// ── TLS ─────────────────────────────────────────────────────────────────
/// Legacy `ssl on;`.
pub open spec fn legacy_ssl(d: Dir) -> bool {
    d.name == "ssl"@ && d.args.len() > 0 && d.args[0] == "on"@
}

/// Legacy `ssl on;` marks every listener of the server as TLS.
pub open spec fn ssl_on_of(s: ServerV) -> bool {
    exists|i: int| 0 <= i < s.directives.len() && legacy_ssl(#[trigger] s.directives[i])
}

/// TLS server: any `listen … ssl` flag, or the legacy server-level `ssl on;`.
pub open spec fn tls_of(s: ServerV) -> bool {
    ||| exists|i: int| 0 <= i < s.listens.len() && (#[trigger] s.listens[i]).ssl
    ||| ssl_on_of(s)
}

pub fn ssl_on(server: &Server) -> (r: bool)
    ensures
        r == ssl_on_of(server@),
{
    let mut i: usize = 0;
    while i < server.directives.len()
        invariant
            i <= server.directives.len(),
            forall|j: int| 0 <= j < i ==> !legacy_ssl(#[trigger] server@.directives[j]),
        decreases server.directives.len() - i,
    {
        let d: &Directive = &server.directives[i];
        assert(server@.directives[i as int] == d@);
        if same(d.name.as_str(), "ssl") && d.args.len() > 0 && same(d.args[0].as_str(), "on") {
            return true;
        }
        i += 1;
    }
    false
}

pub fn server_is_tls(server: &Server) -> (r: bool)
    ensures
        r == tls_of(server@),
{
    let mut i: usize = 0;
    while i < server.listens.len()
        invariant
            i <= server.listens.len(),
            forall|j: int| 0 <= j < i ==> !(#[trigger] server@.listens[j]).ssl,
        decreases server.listens.len() - i,
    {
        assert(server@.listens[i as int] == server.listens@[i as int]@);
        if server.listens[i].ssl {
            return true;
        }
        i += 1;
    }
    ssl_on(server)
}

// ── Redirect servers ────────────────────────────────────────────────────
#[derive(Debug, Clone, Copy, PartialEq, Eq, Structural)]
pub enum RedirectKind {
    /// `return 301 https://$host$request_uri` (or `$server_name`/`$http_host`)
    /// on a plain server without locations: exactly Zion's built-in behavior.
    SameHost301,
    /// Same shape but 302/307/308: droppable, with the code delta stated.
    SameHostOtherCode,
    No,
}

/// A redirect to the host of the request itself. A cross-host target (a domain
/// migration) is not equivalent to Zion's :80 handler.
pub open spec fn same_host_target(t: Seq<char>) -> bool {
    ||| t == "https://$host$request_uri"@
    ||| t == "https://$server_name$request_uri"@
    ||| t == "https://$http_host$request_uri"@
}

/// What a `return` directive makes of its server, if it is a same-host redirect.
pub open spec fn redirect_of(d: Dir) -> Option<RedirectKind> {
    if d.name == "return"@ && d.args.len() > 1 && same_host_target(d.args[1]) {
        if d.args[0] == "301"@ {
            Some(RedirectKind::SameHost301)
        } else if d.args[0] == "302"@ || d.args[0] == "307"@ || d.args[0] == "308"@ {
            Some(RedirectKind::SameHostOtherCode)
        } else {
            None
        }
    } else {
        None
    }
}

/// What the first same-host redirect from the `i`-th directive on says.
pub open spec fn redirect_from(ds: Seq<Dir>, i: nat) -> RedirectKind
    decreases ds.len() - i,
{
    if i >= ds.len() {
        RedirectKind::No
    } else {
        match redirect_of(ds[i as int]) {
            Some(k) => k,
            None => redirect_from(ds, i + 1),
        }
    }
}

/// The canonical redirect pair member: a plain server without locations that
/// only redirects to HTTPS on the same host.
pub open spec fn redirect_kind_of(s: ServerV) -> RedirectKind {
    if tls_of(s) || s.locations.len() > 0 {
        RedirectKind::No
    } else {
        redirect_from(s.directives, 0)
    }
}

fn directive_redirect(d: &Directive) -> (r: Option<RedirectKind>)
    ensures
        r == redirect_of(d@),
{
    if !same(d.name.as_str(), "return") || d.args.len() < 2 {
        return None;
    }
    let t: &str = d.args[1].as_str();
    if !(same(t, "https://$host$request_uri") || same(t, "https://$server_name$request_uri")
        || same(t, "https://$http_host$request_uri")) {
        return None;
    }
    let code: &str = d.args[0].as_str();
    if same(code, "301") {
        Some(RedirectKind::SameHost301)
    } else if same(code, "302") || same(code, "307") || same(code, "308") {
        Some(RedirectKind::SameHostOtherCode)
    } else {
        None
    }
}

pub fn redirect_server_kind(server: &Server) -> (r: RedirectKind)
    ensures
        r == redirect_kind_of(server@),
{
    if server_is_tls(server) || server.locations.len() > 0 {
        return RedirectKind::No;
    }
    let mut i: usize = 0;
    while i < server.directives.len()
        invariant
            i <= server.directives.len(),
            redirect_from(server@.directives, 0) == redirect_from(server@.directives, i as nat),
            !tls_of(server@),
            server@.locations.len() == 0,
        decreases server.directives.len() - i,
    {
        assert(server@.directives[i as int] == server.directives@[i as int]@);
        match directive_redirect(&server.directives[i]) {
            Some(k) => {
                return k;
            },
            None => {},
        }
        i += 1;
    }
    RedirectKind::No
}

// ── Hosts ───────────────────────────────────────────────────────────────
pub enum HostsOutcome {
    /// The routes are hostless.
    Shared,
    /// The routes belong to these hosts.
    Hosts(Vec<String>),
    /// The whole server block is skipped.
    Skip,
}

pub enum HostsV {
    Shared,
    Hosts(Seq<Seq<char>>),
    Skip,
}

impl View for HostsOutcome {
    type V = HostsV;

    open spec fn view(&self) -> HostsV {
        match self {
            HostsOutcome::Shared => HostsV::Shared,
            HostsOutcome::Hosts(h) => HostsV::Hosts(text::views(h@)),
            HostsOutcome::Skip => HostsV::Skip,
        }
    }
}

pub open spec fn host_char(c: char) -> bool {
    text::lower_letter(c) || text::digit(c) || c == '.' || c == '-'
}

/// A bare hostname: lowercase letters, digits, dots and hyphens, without empty
/// labels.
pub open spec fn bare_host(s: Seq<char>) -> bool {
    &&& s.len() > 0
    &&& s[0] != '.'
    &&& s[s.len() - 1] != '.'
    &&& forall|i: int| #![trigger s[i]] 0 <= i < s.len() - 1 ==> !(s[i] == '.' && s[i + 1] == '.')
    &&& forall|i: int| 0 <= i < s.len() ==> host_char(#[trigger] s[i])
}

pub fn valid_bare_host(host: &str) -> (r: bool)
    ensures
        r == bare_host(host@),
{
    let v = chars_of(host);
    if v.len() == 0 || v[0] == '.' || v[v.len() - 1] == '.' {
        return false;
    }
    let mut i: usize = 0;
    while i < v.len()
        invariant
            v@ == host@,
            i <= v.len(),
            forall|j: int|
                #![trigger v@[j]]
                0 <= j < i && j < v.len() - 1 ==> !(v@[j] == '.' && v@[j + 1] == '.'),
            forall|j: int| 0 <= j < i ==> host_char(#[trigger] v@[j]),
        decreases v.len() - i,
    {
        let c: char = v[i];
        if !(('a' <= c && c <= 'z') || ('0' <= c && c <= '9') || c == '.' || c == '-') {
            assert(!host_char(host@[i as int]));
            return false;
        }
        if c == '.' && i + 1 < v.len() && v[i + 1] == '.' {
            assert(host@[i as int] == '.' && host@[i + 1] == '.');
            return false;
        }
        i += 1;
    }
    true
}

pub open spec fn bad_name_note(line: int, raw: Seq<char>) -> Note {
    import::note(
        Status::Unsupported,
        line,
        "server_name"@,
        "'"@ + raw + "' is not a bare hostname or `*.domain` wildcard"@,
    )
}

fn file_bad_name(findings: &mut Vec<Finding>, line: u32, raw: &str)
    ensures
        text::views(final(findings)@) == text::views(old(findings)@).push(
            bad_name_note(line as int, raw@),
        ),
{
    let why = cat3("'", raw, "' is not a bare hostname or `*.domain` wildcard");
    file(findings, Status::Unsupported, line, "server_name", why.as_str());
}

/// What the names read so far amount to.
pub struct NamesV {
    pub hosts: Seq<Seq<char>>,
    /// Whether `_` or the empty name was among them.
    pub catchall: bool,
    /// Whether a name was dropped.
    pub dropped: bool,
    pub notes: Seq<Note>,
}

/// One `server_name`: exact and `*.domain` convert, `.domain` expands to apex
/// and wildcard, `_` and the empty name mean the shared layer, and regex or
/// embedded-wildcard names are dropped.
pub open spec fn name_step(st: NamesV, raw: Seq<char>, line: int) -> NamesV {
    let name = text::lower(raw);
    let bad = NamesV { dropped: true, notes: st.notes.push(bad_name_note(line, raw)), ..st };
    if name == "_"@ || name.len() == 0 {
        NamesV { catchall: true, ..st }
    } else if text::begins(name, '~') {
        NamesV {
            dropped: true,
            notes: st.notes.push(
                import::note(
                    Status::Unsupported,
                    line,
                    "server_name"@,
                    "regex server_name '"@ + raw + "' — Zion hosts are exact or `*.domain`"@,
                ),
            ),
            ..st
        }
    } else {
        match text::strip_prefix_of(name, "*."@) {
            Some(domain) => if bare_host(domain) {
                NamesV { hosts: st.hosts.push(name), ..st }
            } else {
                bad
            },
            None => match text::strip_prefix_of(name, "."@) {
                Some(domain) => if bare_host(domain) {
                    NamesV {
                        hosts: st.hosts.push(domain).push("*."@ + domain),
                        notes: st.notes.push(
                            import::note(
                                Status::Convert,
                                line,
                                "server_name"@,
                                "'."@ + domain + "' expanded to '"@ + domain + "' + '*."@ + domain
                                    + "'"@,
                            ),
                        ),
                        ..st
                    }
                } else {
                    bad
                },
                None => if bare_host(name) {
                    NamesV { hosts: st.hosts.push(name), ..st }
                } else {
                    bad
                },
            },
        }
    }
}

pub open spec fn names_of(names: Seq<Seq<char>>, n: nat, line: int, notes: Seq<Note>) -> NamesV
    decreases n,
{
    if n == 0 {
        NamesV { hosts: seq![], catchall: false, dropped: false, notes }
    } else {
        name_step(names_of(names, (n - 1) as nat, line, notes), names[n - 1], line)
    }
}

/// The first `n` items without those that repeat the item before them.
pub open spec fn dedup_n(s: Seq<Seq<char>>, n: nat) -> Seq<Seq<char>>
    decreases n,
{
    if n == 0 {
        seq![]
    } else {
        let p = dedup_n(s, (n - 1) as nat);
        if n > 1 && s[n - 1] == s[n - 2] {
            p
        } else {
            p.push(s[n - 1])
        }
    }
}

pub open spec fn dedup_of(s: Seq<Seq<char>>) -> Seq<Seq<char>> {
    dedup_n(s, s.len())
}

fn dedup(v: &Vec<String>) -> (r: Vec<String>)
    ensures
        text::views(r@) == dedup_of(text::views(v@)),
{
    let mut out: Vec<String> = Vec::new();
    let ghost vv = text::views(v@);
    let mut i: usize = 0;
    assert(text::views(out@) =~= seq![]);
    while i < v.len()
        invariant
            i <= v.len(),
            vv == text::views(v@),
            text::views(out@) == dedup_n(vv, i as nat),
        decreases v.len() - i,
    {
        assert(vv[i as int] == v@[i as int]@);
        if i > 0 && same(v[i].as_str(), v[i - 1].as_str()) {
            assert(vv[i - 1] == v@[i - 1]@);
        } else {
            assert(i > 0 ==> vv[i - 1] == v@[i - 1]@);
            out.push(v[i].clone());
        }
        i += 1;
    }
    out
}

/// The hosts of a server. A server whose names all dropped is skipped entirely:
/// emitting its routes hostless would capture traffic for all hosts.
pub open spec fn hosts_of(s: ServerV, notes: Seq<Note>) -> (HostsV, Seq<Note>) {
    if s.names.len() == 0 {
        (HostsV::Shared, notes)
    } else {
        let line = s.names_line;
        let st = names_of(s.names, s.names.len(), line, notes);
        let hosts = dedup_of(st.hosts);
        if hosts.len() == 0 {
            if st.catchall || !st.dropped {
                (HostsV::Shared, st.notes)
            } else {
                (
                    HostsV::Skip,
                    st.notes.push(
                        import::note(
                            Status::Unsupported,
                            s.line,
                            "server"@,
                            "every server_name was unconvertible — the whole server block ("@
                                + text::dec(s.listens.len()) + " listen(s), "@ + text::dec(
                                s.locations.len(),
                            )
                                + " location(s) and their directives) is skipped: emitting its routes hostless would capture traffic for all hosts"@,
                        ),
                    ),
                )
            }
        } else {
            let n1 = if st.catchall {
                st.notes.push(
                    import::note(
                        Status::Partial,
                        line,
                        "server_name"@,
                        "'_' listed together with real names — the catch-all part is dropped; unmatched hosts fall through to Zion's shared layer"@,
                    ),
                )
            } else {
                st.notes
            };
            (
                HostsV::Hosts(hosts),
                n1.push(
                    import::note(
                        Status::Convert,
                        line,
                        "server_name"@,
                        "hosts = ["@ + text::join(hosts, ", "@) + "]"@,
                    ),
                ),
            )
        }
    }
}

pub fn server_hosts(server: &Server, findings: &mut Vec<Finding>) -> (r: HostsOutcome)
    ensures
        (r@, text::views(final(findings)@)) == hosts_of(server@, text::views(old(findings)@)),
{
    if server.names.len() == 0 {
        return HostsOutcome::Shared;
    }
    let line: u32 = server.names_line;
    let ghost notes = text::views(findings@);
    let ghost names = server@.names;
    let mut hosts: Vec<String> = Vec::new();
    let mut catchall = false;
    let mut dropped = false;
    let mut i: usize = 0;
    assert(text::views(hosts@) =~= seq![]);
    while i < server.names.len()
        invariant
            i <= server.names.len(),
            names == server@.names,
            names_of(names, i as nat, line as int, notes) == (NamesV {
                hosts: text::views(hosts@),
                catchall,
                dropped,
                notes: text::views(findings@),
            }),
        decreases server.names.len() - i,
    {
        let raw: &str = server.names[i].as_str();
        assert(names[i as int] == raw@);
        let name = to_lower(raw);
        if same(name.as_str(), "_") || name.as_str().is_empty() {
            catchall = true;
        } else if begins_with(name.as_str(), '~') {
            let why = cat3(
                "regex server_name '",
                raw,
                "' — Zion hosts are exact or `*.domain`",
            );
            file(findings, Status::Unsupported, line, "server_name", why.as_str());
            dropped = true;
        } else {
            match strip_prefix(name.as_str(), "*.") {
                Some(domain) => {
                    if valid_bare_host(domain.as_str()) {
                        hosts.push(name);
                    } else {
                        file_bad_name(findings, line, raw);
                        dropped = true;
                    }
                },
                None => match strip_prefix(name.as_str(), ".") {
                    Some(domain) => {
                        let d: &str = domain.as_str();
                        if valid_bare_host(d) {
                            let how = text::cat7("'.", d, "' expanded to '", d, "' + '*.", d, "'");
                            file(findings, Status::Convert, line, "server_name", how.as_str());
                            hosts.push(own(d));
                            hosts.push(cat2("*.", d));
                        } else {
                            file_bad_name(findings, line, raw);
                            dropped = true;
                        }
                    },
                    None => {
                        if valid_bare_host(name.as_str()) {
                            hosts.push(name);
                        } else {
                            file_bad_name(findings, line, raw);
                            dropped = true;
                        }
                    },
                },
            }
        }
        i += 1;
    }
    let hosts = dedup(&hosts);
    if hosts.len() == 0 {
        if catchall || !dropped {
            return HostsOutcome::Shared;
        }
        let why = cat5(
            "every server_name was unconvertible — the whole server block (",
            dec_text(server.listens.len() as u64).as_str(),
            " listen(s), ",
            dec_text(server.locations.len() as u64).as_str(),
            " location(s) and their directives) is skipped: emitting its routes hostless would capture traffic for all hosts",
        );
        file(findings, Status::Unsupported, server.line, "server", why.as_str());
        return HostsOutcome::Skip;
    }
    if catchall {
        file(
            findings,
            Status::Partial,
            line,
            "server_name",
            "'_' listed together with real names — the catch-all part is dropped; unmatched hosts fall through to Zion's shared layer",
        );
    }
    let list = join_strings(&hosts, ", ");
    let what = cat3("hosts = [", list.as_str(), "]");
    file(findings, Status::Convert, line, "server_name", what.as_str());
    HostsOutcome::Hosts(hosts)
}

// ── Kept servers ────────────────────────────────────────────────────────
/// A server block that becomes routes, with its hosts (`None`: hostless).
pub struct Kept<'a> {
    pub server: &'a Server,
    pub hosts: Option<Vec<String>>,
}

#[verifier::ext_equal]
pub struct KeptV {
    pub server: ServerV,
    pub hosts: Option<Seq<Seq<char>>>,
}

impl<'a> View for Kept<'a> {
    type V = KeptV;

    open spec fn view(&self) -> KeptV {
        KeptV { server: self.server@, hosts: text::opt_list(self.hosts) }
    }
}

/// The line of the first `default_server` listen from the `i`-th on.
pub open spec fn default_listen_line(s: ServerV, i: nat) -> Option<int>
    decreases s.listens.len() - i,
{
    if i >= s.listens.len() {
        None
    } else if s.listens[i as int].default_server {
        Some(s.listens[i as int].line)
    } else {
        default_listen_line(s, i + 1)
    }
}

fn find_default_listen(server: &Server) -> (r: Option<u32>)
    ensures
        match r {
            Some(l) => default_listen_line(server@, 0) == Some(l as int),
            None => default_listen_line(server@, 0) is None,
        },
{
    let mut i: usize = 0;
    while i < server.listens.len()
        invariant
            i <= server.listens.len(),
            default_listen_line(server@, 0) == default_listen_line(server@, i as nat),
        decreases server.listens.len() - i,
    {
        assert(server@.listens[i as int] == server.listens@[i as int]@);
        if server.listens[i].default_server {
            return Some(server.listens[i].line);
        }
        i += 1;
    }
    None
}

/// One server block: dropped as a redirect, skipped, or kept.
pub open spec fn keep_step(kept: Seq<KeptV>, notes: Seq<Note>, s: ServerV) -> (
    Seq<KeptV>,
    Seq<Note>,
) {
    match redirect_kind_of(s) {
        RedirectKind::SameHost301 => (
            kept,
            notes.push(
                import::note(
                    Status::Auto,
                    s.line,
                    "server"@,
                    "http→https same-host redirect server — built into Zion's :80 handler; dropped"@,
                ),
            ),
        ),
        RedirectKind::SameHostOtherCode => (
            kept,
            notes.push(
                import::note(
                    Status::Partial,
                    s.line,
                    "server"@,
                    "http→https same-host redirect server dropped — note nginx used 302/307/308, Zion's built-in redirect is a 301"@,
                ),
            ),
        ),
        RedirectKind::No => match hosts_of(s, notes) {
            (HostsV::Skip, f) => (kept, f),
            (HostsV::Shared, f) => (kept.push(KeptV { server: s, hosts: None }), f),
            (HostsV::Hosts(h), f) => (
                kept.push(KeptV { server: s, hosts: Some(h) }),
                match default_listen_line(s, 0) {
                    Some(line) => f.push(
                        import::note(
                            Status::Partial,
                            line,
                            "listen"@,
                            "default_server on a named server — unmatched hosts fall through to Zion's shared (hostless) routes, not to this server"@,
                        ),
                    ),
                    None => f,
                },
            ),
        },
    }
}

/// The kept servers among the first `n`.
pub open spec fn kept_of(servers: Seq<ServerV>, n: nat, notes: Seq<Note>) -> (
    Seq<KeptV>,
    Seq<Note>,
)
    decreases n,
{
    if n == 0 {
        (seq![], notes)
    } else {
        let (kept, f) = kept_of(servers, (n - 1) as nat, notes);
        keep_step(kept, f, servers[n - 1])
    }
}

pub fn keep_servers<'a>(servers: &'a Vec<Server>, findings: &mut Vec<Finding>) -> (r: Vec<Kept<'a>>)
    ensures
        (text::views(r@), text::views(final(findings)@)) == kept_of(
            text::views(servers@),
            servers@.len(),
            text::views(old(findings)@),
        ),
{
    let ghost notes = text::views(findings@);
    let ghost sv = text::views(servers@);
    let mut kept: Vec<Kept<'a>> = Vec::new();
    let mut i: usize = 0;
    assert(text::views(kept@) =~= seq![]);
    while i < servers.len()
        invariant
            i <= servers.len(),
            sv == text::views(servers@),
            (text::views(kept@), text::views(findings@)) == kept_of(sv, i as nat, notes),
        decreases servers.len() - i,
    {
        let server: &'a Server = &servers[i];
        assert(sv[i as int] == server@);
        match redirect_server_kind(server) {
            RedirectKind::SameHost301 => {
                file(
                    findings,
                    Status::Auto,
                    server.line,
                    "server",
                    "http→https same-host redirect server — built into Zion's :80 handler; dropped",
                );
            },
            RedirectKind::SameHostOtherCode => {
                file(
                    findings,
                    Status::Partial,
                    server.line,
                    "server",
                    "http→https same-host redirect server dropped — note nginx used 302/307/308, Zion's built-in redirect is a 301",
                );
            },
            RedirectKind::No => match server_hosts(server, findings) {
                HostsOutcome::Skip => {},
                HostsOutcome::Shared => {
                    kept.push(Kept { server, hosts: None });
                },
                HostsOutcome::Hosts(h) => {
                    match find_default_listen(server) {
                        Some(line) => {
                            file(
                                findings,
                                Status::Partial,
                                line,
                                "listen",
                                "default_server on a named server — unmatched hosts fall through to Zion's shared (hostless) routes, not to this server",
                            );
                        },
                        None => {},
                    }
                    kept.push(Kept { server, hosts: Some(h) });
                },
            },
        }
        i += 1;
    }
    kept
}

} // verus!
