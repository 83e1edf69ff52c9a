//! Site blocks: addresses, handlers and the static fallback.
use super::header;
use super::header::map_header;
use super::tls;
use super::tls::{apply_site_acme, find_named, map_tls, StateV};
use super::vars;
use super::vars::resolve;
use crate::import;
use crate::import::env::{Env, VarV};
use crate::import::map::{DocV, RouteOut, RouteV, UpstreamOut, UpstreamV, ZionDoc};
use crate::import::nginx::{Dir, Directive};
use crate::import::traefik;
use crate::import::traefik::sanitize_name;
use crate::import::{file, Finding, Note, Status};
use crate::text;
use crate::text::{begins_with, cat2, cat3, cat5, chars_of, closes_with, find_from, has_char};
use crate::text::{holds_text, is_digit, list_has, own, own_list, own_opt, rsplit_once, same};
use crate::text::{slice_of, strip_prefix, trim_end_char};
use vstd::prelude::*;

verus! {

broadcast use {crate::text::group_views, crate::import::nginx::lemma_dir_view};

// ── Small helpers ───────────────────────────────────────────────────────
/// The path that matches everything.
pub const CATCH_ALL: &'static str = "/{*rest}";

/// A Caddy path matcher as a Zion route path: `/api/*` becomes
/// `/api/{*rest}`, `/exact` stays, none or `*` matches everything.
pub open spec fn matcher_path(matcher: Option<Seq<char>>) -> Seq<char> {
    match matcher {
        None => CATCH_ALL@,
        Some(m) => if m == "*"@ {
            CATCH_ALL@
        } else if text::closes(m, '*') {
            let base = text::trim_end_of(text::trim_end_of(m, '*'), '/');
            if base.len() == 0 {
                CATCH_ALL@
            } else {
                base + CATCH_ALL@
            }
        } else {
            m
        },
    }
}

pub fn matcher_to_path(matcher: Option<&str>) -> (r: String)
    ensures
        r@ == matcher_path(tls::opt_str(matcher)),
{
    match matcher {
        None => own(CATCH_ALL),
        Some(m) => if same(m, "*") {
            own(CATCH_ALL)
        } else if closes_with(m, '*') {
            let base = trim_end_char(trim_end_char(m, '*').as_str(), '/');
            if base.as_str().is_empty() {
                own(CATCH_ALL)
            } else {
                cat2(base.as_str(), CATCH_ALL)
            }
        } else {
            own(m)
        },
    }
}

pub open spec fn url_of(target: Seq<char>) -> Seq<char> {
    if text::holds(target, "://"@) {
        target
    } else {
        "http://"@ + target
    }
}

pub fn to_url(target: &str) -> (r: String)
    ensures
        r@ == url_of(target@),
{
    if holds_text(target, "://") {
        own(target)
    } else {
        cat2("http://", target)
    }
}

/// Whether `://` begins at `p`.
pub open spec fn scheme_mark(s: Seq<char>, p: int) -> bool {
    0 <= p && p + 2 < s.len() && s[p] == ':' && s[p + 1] == '/' && s[p + 2] == '/'
}

/// Where the text behind the last `://` before `n` begins; 0 where there is none.
pub open spec fn after_scheme(s: Seq<char>, n: int) -> int
    decreases n,
{
    if n <= 0 {
        0
    } else if scheme_mark(s, n - 1) {
        n + 2
    } else {
        after_scheme(s, n - 1)
    }
}

/// What stands before the first `c`.
pub open spec fn up_to(s: Seq<char>, c: char) -> Seq<char> {
    s.subrange(0, text::index_of(s, c, 0))
}

/// The host of a URL: without scheme, path and port.
pub open spec fn url_host(url: Seq<char>) -> Seq<char> {
    let rest = url.subrange(after_scheme(url, url.len() as int), url.len() as int);
    let authority = up_to(rest, '/');
    match text::rsplit_once_of(authority, ':') {
        Some((h, _)) => h,
        None => authority,
    }
}

proof fn lemma_after_scheme(s: Seq<char>, n: int)
    requires
        0 <= n <= s.len(),
    ensures
        0 <= after_scheme(s, n) <= s.len(),
    decreases n,
{
    if n > 0 && !scheme_mark(s, n - 1) {
        lemma_after_scheme(s, n - 1);
    }
}

fn before_char(s: &str, c: char) -> (r: String)
    ensures
        r@ == up_to(s@, c),
{
    let v = chars_of(s);
    let e: usize = find_from(&v, c, 0);
    slice_of(&v, 0, e)
}

fn skip_scheme(s: &str) -> (r: String)
    ensures
        r@ == s@.subrange(after_scheme(s@, s@.len() as int), s@.len() as int),
{
    let v = chars_of(s);
    let mut n: usize = v.len();
    proof {
        lemma_after_scheme(s@, s@.len() as int);
    }
    while n > 0
        invariant
            v@ == s@,
            n <= v.len(),
            0 <= after_scheme(s@, s@.len() as int) <= s@.len(),
            after_scheme(s@, s@.len() as int) == after_scheme(s@, n as int),
        decreases n,
    {
        if n < v.len() && n + 1 < v.len() && v[n - 1] == ':' && v[n] == '/' && v[n + 1] == '/' {
            return slice_of(&v, n + 2, v.len());
        }
        n -= 1;
    }
    slice_of(&v, 0, v.len())
}

pub fn host_of(url: &str) -> (r: String)
    ensures
        r@ == url_host(url@),
{
    let rest = skip_scheme(url);
    let authority = before_char(rest.as_str(), '/');
    match rsplit_once(authority.as_str(), ':') {
        Some((h, _)) => h,
        None => authority,
    }
}

pub open spec fn route_hosts(hosts: Seq<Seq<char>>) -> Option<Seq<Seq<char>>> {
    if hosts.len() == 0 {
        None
    } else {
        Some(hosts)
    }
}

fn hosts_for_route(hosts: &Vec<String>) -> (r: Option<Vec<String>>)
    ensures
        text::opt_list(r) == route_hosts(text::views(hosts@)),
{
    if hosts.len() == 0 {
        None
    } else {
        Some(own_list(hosts))
    }
}

// ── Addresses ───────────────────────────────────────────────────────────
/// The host of a site address: without scheme, path and port.
pub open spec fn address_host(addr: Seq<char>) -> Seq<char> {
    let no_scheme = match text::strip_prefix_of(addr, "https://"@) {
        Some(r) => r,
        None => match text::strip_prefix_of(addr, "http://"@) {
            Some(r) => r,
            None => addr,
        },
    };
    let host = up_to(no_scheme, '/');
    match text::rsplit_once_of(host, ':') {
        Some((h, port)) if text::all_digits(port) => h,
        _ => host,
    }
}

/// The hosts with one more address. `:80`, `:443` and `*` leave the site
/// hostless; a host that is there already is not repeated.
pub open spec fn address_step(
    hosts: Seq<Seq<char>>,
    notes: Seq<Note>,
    addr: Seq<char>,
    line: int,
    vars: Seq<VarV>,
) -> (Seq<Seq<char>>, Seq<Note>) {
    match vars::resolved(addr, vars, line, "site address"@, notes) {
        (None, told) => (hosts, told),
        (Some(a), told) => {
            let host = address_host(a);
            if host.len() == 0 || host == "*"@ {
                (hosts, told)
            } else if host.contains('{') || host.contains('}') {
                (
                    hosts,
                    told.push(
                        import::note(
                            Status::Unsupported,
                            line,
                            "site address"@,
                            "runtime placeholder in host `"@ + host
                                + "` cannot be a static route host"@,
                        ),
                    ),
                )
            } else if hosts.contains(host) {
                (hosts, told)
            } else {
                (hosts.push(host), told)
            }
        },
    }
}

pub open spec fn hosts_of(
    addresses: Seq<Seq<char>>,
    n: nat,
    line: int,
    vars: Seq<VarV>,
    notes: Seq<Note>,
) -> (Seq<Seq<char>>, Seq<Note>)
    decreases n,
{
    if n == 0 {
        (seq![], notes)
    } else {
        let (hosts, told) = hosts_of(addresses, (n - 1) as nat, line, vars, notes);
        address_step(hosts, told, addresses[n - 1], line, vars)
    }
}

fn is_number(s: &str) -> (r: bool)
    ensures
        r == text::all_digits(s@),
{
    let v = chars_of(s);
    let mut i: usize = 0;
    while i < v.len()
        invariant
            v@ == s@,
            i <= v.len(),
            forall|j: int| 0 <= j < i ==> text::digit(#[trigger] s@[j]),
        decreases v.len() - i,
    {
        if !is_digit(v[i]) {
            assert(!text::digit(s@[i as int]));
            return false;
        }
        i += 1;
    }
    true
}

fn host_of_address(addr: &str) -> (r: String)
    ensures
        r@ == address_host(addr@),
{
    let no_scheme = match strip_prefix(addr, "https://") {
        Some(r) => r,
        None => match strip_prefix(addr, "http://") {
            Some(r) => r,
            None => own(addr),
        },
    };
    let host = before_char(no_scheme.as_str(), '/');
    match rsplit_once(host.as_str(), ':') {
        Some((h, port)) => if is_number(port.as_str()) {
            h
        } else {
            host
        },
        None => host,
    }
}

fn add_address(
    hosts: &mut Vec<String>,
    addr: &str,
    line: u32,
    env: &Env,
    findings: &mut Vec<Finding>,
)
    ensures
        (text::views(final(hosts)@), text::views(final(findings)@)) == address_step(
            text::views(old(hosts)@),
            text::views(old(findings)@),
            addr@,
            line as int,
            env.vars_view(),
        ),
{
    let a = match resolve(addr, env, line, "site address", findings) {
        Some(a) => a,
        None => {
            return;
        },
    };
    let host = host_of_address(a.as_str());
    if host.as_str().is_empty() || same(host.as_str(), "*") {
        return;
    }
    if has_char(host.as_str(), '{') || has_char(host.as_str(), '}') {
        let detail = cat3(
            "runtime placeholder in host `",
            host.as_str(),
            "` cannot be a static route host",
        );
        file(findings, Status::Unsupported, line, "site address", detail.as_str());
        return;
    }
    if !list_has(hosts, host.as_str()) {
        hosts.push(host);
    }
}

pub fn resolve_hosts(addresses: &Vec<String>, line: u32, env: &Env, findings: &mut Vec<Finding>) -> (r:
    Vec<String>)
    ensures
        (text::views(r@), text::views(final(findings)@)) == hosts_of(
            text::views(addresses@),
            addresses@.len(),
            line as int,
            env.vars_view(),
            text::views(old(findings)@),
        ),
{
    let ghost av = text::views(addresses@);
    let ghost notes = text::views(findings@);
    let mut hosts: Vec<String> = Vec::new();
    let mut i: usize = 0;
    assert(text::views(hosts@) =~= seq![]);
    while i < addresses.len()
        invariant
            i <= addresses.len(),
            av == text::views(addresses@),
            (text::views(hosts@), text::views(findings@)) == hosts_of(
                av,
                i as nat,
                line as int,
                env.vars_view(),
                notes,
            ),
        decreases addresses.len() - i,
    {
        assert(av[i as int] == addresses@[i as int]@);
        add_address(&mut hosts, addresses[i].as_str(), line, env, findings);
        i += 1;
    }
    hosts
}

// ── Static files ────────────────────────────────────────────────────────
/// What a site serves from disk: the directory, and whether a miss falls back
/// to `index.html`.
pub struct StaticSite {
    pub dir: String,
    pub spa: bool,
}

#[verifier::ext_equal]
pub struct StaticV {
    pub dir: Seq<char>,
    pub spa: bool,
}

pub open spec fn opt_static(o: Option<StaticSite>) -> Option<StaticV> {
    match o {
        Some(s) => Some(StaticV { dir: s.dir@, spa: s.spa }),
        None => None,
    }
}

/// `try_files` with a fallback to `index.html`.
pub open spec fn spa_try_files(d: Dir) -> bool {
    d.name == "try_files"@ && exists|i: int|
        0 <= i < d.args.len() && text::holds(#[trigger] d.args[i], "index.html"@)
}

/// `root <dir>` with `file_server`. The last word of `root` must be a
/// directory, not a matcher.
pub open spec fn static_of(body: Seq<Dir>) -> Option<StaticV> {
    match (tls::find_dir(body, "file_server"@), tls::find_dir(body, "root"@)) {
        (Some(_), Some(root)) => if root.args.len() == 0 {
            None
        } else {
            let dir = root.args.last();
            if dir.len() == 0 || text::begins(dir, '@') || dir.contains('*') {
                None
            } else {
                Some(
                    StaticV {
                        dir,
                        spa: exists|i: int|
                            0 <= i < body.len() && spa_try_files(#[trigger] body[i]),
                    },
                )
            }
        },
        _ => None,
    }
}

fn is_spa_try_files(d: &Directive) -> (r: bool)
    ensures
        r == spa_try_files(d@),
{
    if !same(d.name.as_str(), "try_files") {
        return false;
    }
    let ghost av = d@.args;
    let mut i: usize = 0;
    while i < d.args.len()
        invariant
            i <= d.args.len(),
            av == d@.args,
            d.name@ == "try_files"@,
            forall|j: int| 0 <= j < i ==> !text::holds(#[trigger] av[j], "index.html"@),
        decreases d.args.len() - i,
    {
        assert(av[i as int] == d.args@[i as int]@);
        if holds_text(d.args[i].as_str(), "index.html") {
            return true;
        }
        i += 1;
    }
    false
}

fn has_spa_fallback(body: &Vec<&Directive>) -> (r: bool)
    ensures
        r == (exists|i: int|
            0 <= i < body@.len() && spa_try_files(#[trigger] text::views(body@)[i])),
{
    let ghost bv = text::views(body@);
    let mut i: usize = 0;
    while i < body.len()
        invariant
            i <= body.len(),
            bv == text::views(body@),
            forall|j: int| 0 <= j < i ==> !spa_try_files(#[trigger] bv[j]),
        decreases body.len() - i,
    {
        assert(bv[i as int] == body@[i as int]@);
        if is_spa_try_files(body[i]) {
            return true;
        }
        i += 1;
    }
    false
}

pub fn detect_static(body: &Vec<&Directive>) -> (r: Option<StaticSite>)
    ensures
        opt_static(r) == static_of(text::views(body@)),
{
    if find_named(body, "file_server").is_none() {
        return None;
    }
    match find_named(body, "root") {
        None => None,
        Some(root) => {
            if root.args.len() == 0 {
                return None;
            }
            let last: usize = root.args.len() - 1;
            assert(root@.args.last() == root.args@[last as int]@);
            let dir: &str = root.args[last].as_str();
            if dir.is_empty() || begins_with(dir, '@') || has_char(dir, '*') {
                return None;
            }
            Some(StaticSite { dir: own(dir), spa: has_spa_fallback(body) })
        },
    }
}

// ── Site directives ─────────────────────────────────────────────────────
/// What becomes of a site directive other than `header` and `tls`; `None` for
/// those that bear routes.
pub open spec fn directive_fate(name: Seq<char>, files: Option<StaticV>) -> Option<
    (Status, Seq<char>),
> {
    if name == "encode"@ {
        Some((Status::Unsupported, "Zion does not compress responses — the backend should"@))
    } else if name == "log"@ {
        Some((Status::Auto, "structured JSON logging to stdout is built in"@))
    } else if name == "root"@ || name == "file_server"@ {
        if files is Some {
            Some((Status::Convert, "→ mode=static — files served from disk (ADR-0015)"@))
        } else {
            Some(
                (
                    Status::Unsupported,
                    "static serving needs both `root <dir>` and `file_server`"@,
                ),
            )
        }
    } else if name == "try_files"@ {
        Some(
            (
                if files matches Some(s) && s.spa {
                    Status::Convert
                } else {
                    Status::Unsupported
                },
                "SPA fallback (`… /index.html`) → spa_fallback; other try_files forms are unsupported"@,
            ),
        )
    } else if name == "respond"@ {
        Some((Status::Unsupported, "Zion has no static-response directive"@))
    } else if name == "redir"@ {
        Some(
            (
                Status::Unsupported,
                "explicit redirects have no Zion equivalent (HTTP→HTTPS is built in)"@,
            ),
        )
    } else if name == "handle_path"@ {
        Some(
            (
                Status::Unsupported,
                "path rewriting (prefix stripping) has no Zion equivalent"@,
            ),
        )
    } else if name == "handle"@ || name == "reverse_proxy"@ || name == "route"@ {
        None
    } else if text::begins(name, '@') {
        Some((Status::Unsupported, "named matchers are not converted (v0)"@))
    } else {
        Some((Status::Unsupported, "no Zion equivalent — review manually"@))
    }
}

/// The site-level policy, and what was built so far.
#[verifier::ext_equal]
pub struct SiteStateV {
    pub csp: Option<Seq<char>>,
    pub st: StateV,
}

/// The first pass over a site: everything but routes.
pub open spec fn first_step(s: SiteStateV, d: Dir, files: Option<StaticV>) -> SiteStateV {
    if d.name == "header"@ {
        let (csp, notes) = header::header_of(d, s.st.notes);
        SiteStateV {
            csp: match csp {
                Some(c) => Some(c),
                None => s.csp,
            },
            st: StateV { notes, ..s.st },
        }
    } else if d.name == "tls"@ {
        SiteStateV { st: tls::tls_step(s.st, d), ..s }
    } else {
        match directive_fate(d.name, files) {
            Some((status, detail)) => SiteStateV {
                st: tls::noted(s.st, status, d.line, d.name, detail),
                ..s
            },
            None => s,
        }
    }
}

pub open spec fn first_pass(s: SiteStateV, body: Seq<Dir>, n: nat, files: Option<StaticV>) -> SiteStateV
    decreases n,
{
    if n == 0 {
        s
    } else {
        first_step(first_pass(s, body, (n - 1) as nat, files), body[n - 1], files)
    }
}

fn note_directive(d: &Directive, files: &Option<StaticSite>, findings: &mut Vec<Finding>)
    ensures
        text::views(final(findings)@) == (match directive_fate(d@.name, opt_static(*files)) {
            Some((status, detail)) => text::views(old(findings)@).push(
                import::note(status, d@.line, d@.name, detail),
            ),
            None => text::views(old(findings)@),
        }),
{
    let name: &str = d.name.as_str();
    let (status, detail): (Status, &str) = if same(name, "encode") {
        (Status::Unsupported, "Zion does not compress responses — the backend should")
    } else if same(name, "log") {
        (Status::Auto, "structured JSON logging to stdout is built in")
    } else if same(name, "root") || same(name, "file_server") {
        if files.is_some() {
            (Status::Convert, "→ mode=static — files served from disk (ADR-0015)")
        } else {
            (
                Status::Unsupported,
                "static serving needs both `root <dir>` and `file_server`",
            )
        }
    } else if same(name, "try_files") {
        let spa = match files {
            Some(s) => s.spa,
            None => false,
        };
        (
            if spa {
                Status::Convert
            } else {
                Status::Unsupported
            },
            "SPA fallback (`… /index.html`) → spa_fallback; other try_files forms are unsupported",
        )
    } else if same(name, "respond") {
        (Status::Unsupported, "Zion has no static-response directive")
    } else if same(name, "redir") {
        (
            Status::Unsupported,
            "explicit redirects have no Zion equivalent (HTTP→HTTPS is built in)",
        )
    } else if same(name, "handle_path") {
        (Status::Unsupported, "path rewriting (prefix stripping) has no Zion equivalent")
    } else if same(name, "handle") || same(name, "reverse_proxy") || same(name, "route") {
        return;
    } else if begins_with(name, '@') {
        (Status::Unsupported, "named matchers are not converted (v0)")
    } else {
        (Status::Unsupported, "no Zion equivalent — review manually")
    };
    file(findings, status, d.line, name, detail);
}

fn map_directives(
    body: &Vec<&Directive>,
    files: &Option<StaticSite>,
    doc: &mut ZionDoc,
    findings: &mut Vec<Finding>,
) -> (r: Option<String>)
    ensures
        (SiteStateV { csp: text::opt(r), st: tls::state(final(doc), final(findings)) })
            == first_pass(
            SiteStateV { csp: None, st: tls::state(old(doc), old(findings)) },
            text::views(body@),
            body@.len(),
            opt_static(*files),
        ),
{
    let ghost bv = text::views(body@);
    let ghost start = SiteStateV { csp: None, st: tls::state(doc, findings) };
    let mut csp: Option<String> = None;
    let mut i: usize = 0;
    while i < body.len()
        invariant
            i <= body.len(),
            bv == text::views(body@),
            (SiteStateV { csp: text::opt(csp), st: tls::state(doc, findings) }) == first_pass(
                start,
                bv,
                i as nat,
                opt_static(*files),
            ),
        decreases body.len() - i,
    {
        assert(bv[i as int] == body@[i as int]@);
        let d: &Directive = body[i];
        if same(d.name.as_str(), "header") {
            match map_header(d, findings) {
                Some(c) => {
                    csp = Some(c);
                },
                None => {},
            }
        } else if same(d.name.as_str(), "tls") {
            map_tls(d, doc, findings);
        } else {
            note_directive(d, files, findings);
        }
        i += 1;
    }
    csp
}

// ── Routes ──────────────────────────────────────────────────────────────
/// A word of `reverse_proxy` that is a matcher, not an upstream.
pub open spec fn matcher_word(a: Seq<char>) -> bool {
    text::begins(a, '/') || text::begins(a, '@') || a == "*"@
}

pub open spec fn targets_of(args: Seq<Seq<char>>, n: nat) -> Seq<Seq<char>>
    decreases n,
{
    if n == 0 {
        seq![]
    } else if matcher_word(args[n - 1]) {
        targets_of(args, (n - 1) as nat)
    } else {
        targets_of(args, (n - 1) as nat).push(args[n - 1])
    }
}

/// The URLs of the first `n` targets; `None` where a variable is unresolved,
/// which is noted.
pub open spec fn urls_of(
    targets: Seq<Seq<char>>,
    n: nat,
    vars: Seq<VarV>,
    line: int,
    notes: Seq<Note>,
) -> (Option<Seq<Seq<char>>>, Seq<Note>)
    decreases n,
{
    if n == 0 {
        (Some(seq![]), notes)
    } else {
        match urls_of(targets, (n - 1) as nat, vars, line, notes) {
            (None, told) => (None, told),
            (Some(urls), told) => match vars::resolved(
                targets[n - 1],
                vars,
                line,
                "reverse_proxy"@,
                told,
            ) {
                (Some(t), told) => (Some(urls.push(url_of(t))), told),
                (None, told) => (None, told),
            },
        }
    }
}

pub open spec fn upstream_named(us: Seq<UpstreamV>, name: Seq<char>) -> bool {
    exists|i: int| 0 <= i < us.len() && (#[trigger] us[i]).name == name
}

/// The options of a `reverse_proxy` that have no counterpart: all of them.
pub open spec fn option_note(d: Dir) -> Note {
    import::note(
        Status::Unsupported,
        d.line,
        d.name,
        "reverse_proxy options are not converted"@,
    )
}

pub open spec fn options_told(block: Seq<Dir>, n: nat, notes: Seq<Note>) -> Seq<Note>
    decreases n,
{
    if n == 0 {
        notes
    } else {
        options_told(block, (n - 1) as nat, notes).push(option_note(block[n - 1]))
    }
}

pub open spec fn all_options_told(block: Option<Seq<Dir>>, notes: Seq<Note>) -> Seq<Note> {
    match block {
        Some(b) => options_told(b, b.len(), notes),
        None => notes,
    }
}

/// The route of a `reverse_proxy`. Its upstream is named after the host of the
/// first target.
pub open spec fn upstream_step(
    st: StateV,
    rp: Dir,
    path: Seq<char>,
    hosts: Seq<Seq<char>>,
    csp: Option<Seq<char>>,
    vars: Seq<VarV>,
) -> StateV {
    let targets = targets_of(rp.args, rp.args.len());
    if targets.len() == 0 {
        tls::noted(
            st,
            Status::Unsupported,
            rp.line,
            "reverse_proxy"@,
            "no upstream address — cannot build an upstream"@,
        )
    } else {
        match urls_of(targets, targets.len(), vars, rp.line, st.notes) {
            (None, told) => StateV { notes: told, ..st },
            (Some(urls), told) => {
                let name = traefik::upstream_name(url_host(urls[0]));
                let upstreams = if upstream_named(st.doc.upstreams, name) {
                    st.doc.upstreams
                } else {
                    st.doc.upstreams.push(
                        UpstreamV { name, urls, connect_timeout_ms: None, keepalive: None },
                    )
                };
                let route = RouteV {
                    path,
                    hosts: route_hosts(hosts),
                    upstream: name,
                    websocket: false,
                    csp,
                    waf: false,
                    serve_dir: None,
                    spa_fallback: false,
                    annotations: seq![],
                };
                StateV {
                    doc: DocV { upstreams, routes: st.doc.routes.push(route), ..st.doc },
                    notes: told.push(
                        import::note(
                            Status::Convert,
                            rp.line,
                            "reverse_proxy"@,
                            "→ route "@ + path + " upstream '"@ + name + "'"@,
                        ),
                    ),
                }
            },
        }
    }
}

/// A `reverse_proxy`: its options are told of, and its upstream becomes a route.
pub open spec fn proxy_step(
    st: StateV,
    rp: Dir,
    path: Seq<char>,
    hosts: Seq<Seq<char>>,
    csp: Option<Seq<char>>,
    vars: Seq<VarV>,
) -> StateV {
    upstream_step(
        StateV { notes: all_options_told(rp.block, st.notes), ..st },
        rp,
        path,
        hosts,
        csp,
        vars,
    )
}

proof fn lemma_urls_stop(
    targets: Seq<Seq<char>>,
    k: nat,
    n: nat,
    vars: Seq<VarV>,
    line: int,
    notes: Seq<Note>,
)
    requires
        k <= n,
        urls_of(targets, k, vars, line, notes).0 is None,
    ensures
        urls_of(targets, n, vars, line, notes) == urls_of(targets, k, vars, line, notes),
    decreases n,
{
    if k < n {
        lemma_urls_stop(targets, k, (n - 1) as nat, vars, line, notes);
    }
}

proof fn lemma_urls_len(targets: Seq<Seq<char>>, n: nat, vars: Seq<VarV>, line: int, notes: Seq<Note>)
    ensures
        urls_of(targets, n, vars, line, notes).0 matches Some(urls) ==> urls.len() == n,
    decreases n,
{
    if n > 0 {
        lemma_urls_len(targets, (n - 1) as nat, vars, line, notes);
    }
}

fn is_matcher_word(a: &str) -> (r: bool)
    ensures
        r == matcher_word(a@),
{
    begins_with(a, '/') || begins_with(a, '@') || same(a, "*")
}

fn pick_targets(args: &Vec<String>) -> (r: Vec<String>)
    ensures
        text::views(r@) == targets_of(text::views(args@), args@.len()),
{
    let ghost av = text::views(args@);
    let mut out: Vec<String> = Vec::new();
    let mut i: usize = 0;
    assert(text::views(out@) =~= seq![]);
    while i < args.len()
        invariant
            i <= args.len(),
            av == text::views(args@),
            text::views(out@) == targets_of(av, i as nat),
        decreases args.len() - i,
    {
        assert(av[i as int] == args@[i as int]@);
        if !is_matcher_word(args[i].as_str()) {
            out.push(own(args[i].as_str()));
        }
        i += 1;
    }
    out
}

fn resolve_targets(targets: &Vec<String>, env: &Env, line: u32, findings: &mut Vec<Finding>) -> (r:
    Option<Vec<String>>)
    ensures
        (text::opt_list(r), text::views(final(findings)@)) == urls_of(
            text::views(targets@),
            targets@.len(),
            env.vars_view(),
            line as int,
            text::views(old(findings)@),
        ),
{
    let ghost tv = text::views(targets@);
    let ghost notes = text::views(findings@);
    let mut urls: Vec<String> = Vec::new();
    let mut i: usize = 0;
    assert(text::views(urls@) =~= seq![]);
    while i < targets.len()
        invariant
            i <= targets.len(),
            tv == text::views(targets@),
            notes == text::views(old(findings)@),
            (Some(text::views(urls@)), text::views(findings@)) == urls_of(
                tv,
                i as nat,
                env.vars_view(),
                line as int,
                notes,
            ),
        decreases targets.len() - i,
    {
        assert(tv[i as int] == targets@[i as int]@);
        match resolve(targets[i].as_str(), env, line, "reverse_proxy", findings) {
            Some(t) => {
                urls.push(to_url(t.as_str()));
            },
            None => {
                proof {
                    lemma_urls_stop(
                        tv,
                        (i + 1) as nat,
                        targets@.len(),
                        env.vars_view(),
                        line as int,
                        notes,
                    );
                }
                return None;
            },
        }
        i += 1;
    }
    Some(urls)
}

fn has_upstream(us: &Vec<UpstreamOut>, name: &str) -> (r: bool)
    ensures
        r == upstream_named(text::views(us@), name@),
{
    let ghost uv = text::views(us@);
    let mut i: usize = 0;
    while i < us.len()
        invariant
            i <= us.len(),
            uv == text::views(us@),
            forall|j: int| 0 <= j < i ==> (#[trigger] uv[j]).name != name@,
        decreases us.len() - i,
    {
        assert(uv[i as int] == us@[i as int]@);
        if same(us[i].name.as_str(), name) {
            return true;
        }
        i += 1;
    }
    false
}

fn file_options(block: &Vec<Directive>, findings: &mut Vec<Finding>)
    ensures
        text::views(final(findings)@) == options_told(
            text::views(block@),
            block@.len(),
            text::views(old(findings)@),
        ),
{
    let ghost bv = text::views(block@);
    let ghost notes = text::views(findings@);
    let mut i: usize = 0;
    while i < block.len()
        invariant
            i <= block.len(),
            bv == text::views(block@),
            text::views(findings@) == options_told(bv, i as nat, notes),
        decreases block.len() - i,
    {
        assert(bv[i as int] == block@[i as int]@);
        file(
            findings,
            Status::Unsupported,
            block[i].line,
            block[i].name.as_str(),
            "reverse_proxy options are not converted",
        );
        i += 1;
    }
}

pub fn push_route(
    rp: &Directive,
    path: &str,
    hosts: &Vec<String>,
    csp: &Option<String>,
    env: &Env,
    doc: &mut ZionDoc,
    findings: &mut Vec<Finding>,
)
    ensures
        tls::state(final(doc), final(findings)) == proxy_step(
            tls::state(old(doc), old(findings)),
            rp@,
            path@,
            text::views(hosts@),
            text::opt(*csp),
            env.vars_view(),
        ),
{
    if let Some(block) = &rp.block {
        file_options(block, findings);
    }
    let targets = pick_targets(&rp.args);
    if targets.len() == 0 {
        file(
            findings,
            Status::Unsupported,
            rp.line,
            "reverse_proxy",
            "no upstream address — cannot build an upstream",
        );
        return;
    }
    proof {
        lemma_urls_len(
            text::views(targets@),
            targets@.len(),
            env.vars_view(),
            rp.line as int,
            text::views(findings@),
        );
    }
    let urls = match resolve_targets(&targets, env, rp.line, findings) {
        Some(u) => u,
        None => {
            return;
        },
    };
    assert(text::views(urls@)[0] == urls@[0]@);
    let name = sanitize_name(host_of(urls[0].as_str()).as_str());
    if !has_upstream(&doc.upstreams, name.as_str()) {
        doc.upstreams.push(
            UpstreamOut {
                name: own(name.as_str()),
                urls,
                connect_timeout_ms: None,
                keepalive: None,
            },
        );
    }
    let what = cat5("→ route ", path, " upstream '", name.as_str(), "'");
    file(findings, Status::Convert, rp.line, "reverse_proxy", what.as_str());
    let route = RouteOut {
        path: own(path),
        hosts: hosts_for_route(hosts),
        upstream: name,
        websocket: false,
        csp: own_opt(csp),
        waf: false,
        serve_dir: None,
        spa_fallback: false,
        annotations: Vec::new(),
    };
    assert(route@.annotations =~= seq![]);
    doc.routes.push(route);
}

pub open spec fn named_matcher_note(d: Dir) -> Note {
    import::note(
        Status::Unsupported,
        d.line,
        d.name + " "@ + d.args[0],
        "named matchers are not converted (v0)"@,
    )
}

/// A `reverse_proxy [matcher] upstream…` directly in a site.
pub open spec fn reverse_proxy_step(
    st: StateV,
    d: Dir,
    hosts: Seq<Seq<char>>,
    csp: Option<Seq<char>>,
    vars: Seq<VarV>,
) -> StateV {
    if d.args.len() > 0 && text::begins(d.args[0], '@') {
        StateV { notes: st.notes.push(named_matcher_note(d)), ..st }
    } else {
        let matcher = if d.args.len() > 0 && matcher_word(d.args[0]) {
            Some(d.args[0])
        } else {
            None
        };
        proxy_step(st, d, matcher_path(matcher), hosts, csp, vars)
    }
}

pub fn map_reverse_proxy(
    d: &Directive,
    hosts: &Vec<String>,
    csp: &Option<String>,
    env: &Env,
    doc: &mut ZionDoc,
    findings: &mut Vec<Finding>,
)
    requires
        d@.name == "reverse_proxy"@,
    ensures
        tls::state(final(doc), final(findings)) == reverse_proxy_step(
            tls::state(old(doc), old(findings)),
            d@,
            text::views(hosts@),
            text::opt(*csp),
            env.vars_view(),
        ),
{
    let matcher: Option<&str> = if d.args.len() > 0 {
        assert(d@.args[0] == d.args@[0]@);
        let a: &str = d.args[0].as_str();
        if begins_with(a, '@') {
            let directive = cat3(d.name.as_str(), " ", a);
            file(
                findings,
                Status::Unsupported,
                d.line,
                directive.as_str(),
                "named matchers are not converted (v0)",
            );
            return;
        }
        if is_matcher_word(a) {
            Some(a)
        } else {
            None
        }
    } else {
        None
    };
    let path = matcher_to_path(matcher);
    push_route(d, path.as_str(), hosts, csp, env, doc, findings);
}

/// Where the first directive stands that answers without an upstream.
pub open spec fn answering(d: Dir) -> bool {
    d.name == "root"@ || d.name == "file_server"@ || d.name == "respond"@
}

pub open spec fn first_answering(ds: Seq<Dir>, from: int) -> int
    decreases ds.len() - from,
{
    if 0 <= from < ds.len() && !answering(ds[from]) {
        first_answering(ds, from + 1)
    } else {
        from
    }
}

/// Whether one of the first `n` directives has the name.
pub open spec fn named_before(ds: Seq<Dir>, n: int, name: Seq<char>) -> bool {
    exists|i: int| 0 <= i < n && (#[trigger] ds[i]).name == name
}

/// A directive of a handler that is not read: neither a `header` nor the first
/// `reverse_proxy`.
pub open spec fn unread(block: Seq<Dir>, i: int) -> bool {
    &&& block[i].name != "header"@
    &&& block[i].name == "reverse_proxy"@ ==> named_before(block, i, "reverse_proxy"@)
}

pub open spec fn unread_note(d: Dir) -> Note {
    import::note(
        Status::Unsupported,
        d.line,
        d.name,
        "only `header` and the first `reverse_proxy` of a handler are converted"@,
    )
}

/// The policy of a handler: the last of its `header` blocks, else the site's.
/// What is not read is told of.
pub open spec fn handler_policy(
    csp: Option<Seq<char>>,
    block: Seq<Dir>,
    n: nat,
    notes: Seq<Note>,
) -> (Option<Seq<char>>, Seq<Note>)
    decreases n,
{
    if n == 0 {
        (csp, notes)
    } else {
        let (c, told) = handler_policy(csp, block, (n - 1) as nat, notes);
        if block[n - 1].name == "header"@ {
            let (own_csp, told) = header::header_of(block[n - 1], told);
            (
                match own_csp {
                    Some(o) => Some(o),
                    None => c,
                },
                told,
            )
        } else if unread(block, n - 1) {
            (c, told.push(unread_note(block[n - 1])))
        } else {
            (c, told)
        }
    }
}

/// `handle [matcher] { … }`.
pub open spec fn handle_step(
    st: StateV,
    d: Dir,
    hosts: Seq<Seq<char>>,
    csp: Option<Seq<char>>,
    vars: Seq<VarV>,
) -> StateV {
    let matcher = if d.args.len() > 0 {
        Some(d.args[0])
    } else {
        None
    };
    if d.args.len() > 0 && text::begins(d.args[0], '@') {
        tls::noted(
            st,
            Status::Unsupported,
            d.line,
            "handle "@ + d.args[0],
            "named matchers are not converted (v0)"@,
        )
    } else {
        match d.block {
            None => tls::noted(
                st,
                Status::Unsupported,
                d.line,
                "handle"@,
                "handle without a block does nothing convertible"@,
            ),
            Some(block) => {
                let bad = first_answering(block, 0);
                if bad < block.len() {
                    tls::noted(
                        st,
                        Status::Unsupported,
                        block[bad].line,
                        "handle → "@ + block[bad].name,
                        "this handler serves no upstream (static/respond) — route dropped"@,
                    )
                } else {
                    let (own_csp, told) = handler_policy(csp, block, block.len(), st.notes);
                    let p = StateV { notes: told, ..st };
                    match tls::find_dir(block, "reverse_proxy"@) {
                        None => tls::noted(
                            p,
                            Status::Unsupported,
                            d.line,
                            "handle"@,
                            "no reverse_proxy in this handler — nothing to route to"@,
                        ),
                        Some(rp) => proxy_step(
                            p,
                            rp,
                            matcher_path(matcher),
                            hosts,
                            own_csp,
                            vars,
                        ),
                    }
                }
            },
        }
    }
}

/// References to the directives of a block.
pub fn refs<'a>(block: &'a Vec<Directive>) -> (r: Vec<&'a Directive>)
    ensures
        text::views(r@) == text::views(block@),
{
    let mut out: Vec<&'a Directive> = Vec::new();
    let mut i: usize = 0;
    while i < block.len()
        invariant
            i <= block.len(),
            text::views(out@) == text::views(block@).subrange(0, i as int),
        decreases block.len() - i,
    {
        out.push(&block[i]);
        i += 1;
    }
    assert(text::views(block@).subrange(0, i as int) =~= text::views(block@));
    out
}

fn find_answering(block: &Vec<Directive>) -> (r: usize)
    ensures
        r == first_answering(text::views(block@), 0),
        r <= block@.len(),
{
    let ghost bv = text::views(block@);
    let mut i: usize = 0;
    while i < block.len()
        invariant
            i <= block.len(),
            bv == text::views(block@),
            first_answering(bv, 0) == first_answering(bv, i as int),
        decreases block.len() - i,
    {
        assert(bv[i as int] == block@[i as int]@);
        let name: &str = block[i].name.as_str();
        if same(name, "root") || same(name, "file_server") || same(name, "respond") {
            return i;
        }
        i += 1;
    }
    i
}

fn map_handler_policy(csp: &Option<String>, block: &Vec<Directive>, findings: &mut Vec<Finding>) -> (r:
    Option<String>)
    ensures
        (text::opt(r), text::views(final(findings)@)) == handler_policy(
            text::opt(*csp),
            text::views(block@),
            block@.len(),
            text::views(old(findings)@),
        ),
{
    let ghost bv = text::views(block@);
    let ghost notes = text::views(findings@);
    let mut out: Option<String> = own_opt(csp);
    let mut proxied = false;
    let mut i: usize = 0;
    while i < block.len()
        invariant
            i <= block.len(),
            bv == text::views(block@),
            proxied == named_before(bv, i as int, "reverse_proxy"@),
            (text::opt(out), text::views(findings@)) == handler_policy(
                text::opt(*csp),
                bv,
                i as nat,
                notes,
            ),
        decreases block.len() - i,
    {
        assert(bv[i as int] == block@[i as int]@);
        let name: &str = block[i].name.as_str();
        let proxy = same(name, "reverse_proxy");
        if same(name, "header") {
            match map_header(&block[i], findings) {
                Some(c) => {
                    out = Some(c);
                },
                None => {},
            }
        } else if !proxy || proxied {
            file(
                findings,
                Status::Unsupported,
                block[i].line,
                name,
                "only `header` and the first `reverse_proxy` of a handler are converted",
            );
        }
        if proxy {
            assert(bv[i as int].name == "reverse_proxy"@);
            proxied = true;
        }
        i += 1;
    }
    out
}

pub fn map_handle(
    d: &Directive,
    hosts: &Vec<String>,
    csp: &Option<String>,
    env: &Env,
    doc: &mut ZionDoc,
    findings: &mut Vec<Finding>,
)
    ensures
        tls::state(final(doc), final(findings)) == handle_step(
            tls::state(old(doc), old(findings)),
            d@,
            text::views(hosts@),
            text::opt(*csp),
            env.vars_view(),
        ),
{
    let matcher: Option<&str> = if d.args.len() > 0 {
        assert(d@.args[0] == d.args@[0]@);
        Some(d.args[0].as_str())
    } else {
        None
    };
    if let Some(m) = matcher {
        if begins_with(m, '@') {
            let directive = cat2("handle ", m);
            file(
                findings,
                Status::Unsupported,
                d.line,
                directive.as_str(),
                "named matchers are not converted (v0)",
            );
            return;
        }
    }
    let path = matcher_to_path(matcher);
    let block = match &d.block {
        Some(b) => b,
        None => {
            file(
                findings,
                Status::Unsupported,
                d.line,
                "handle",
                "handle without a block does nothing convertible",
            );
            return;
        },
    };
    let bad: usize = find_answering(block);
    if bad < block.len() {
        assert(text::views(block@)[bad as int] == block@[bad as int]@);
        let directive = cat2("handle → ", block[bad].name.as_str());
        file(
            findings,
            Status::Unsupported,
            block[bad].line,
            directive.as_str(),
            "this handler serves no upstream (static/respond) — route dropped",
        );
        return;
    }
    let own_csp = map_handler_policy(csp, block, findings);
    match find_named(&refs(block), "reverse_proxy") {
        None => {
            file(
                findings,
                Status::Unsupported,
                d.line,
                "handle",
                "no reverse_proxy in this handler — nothing to route to",
            );
        },
        Some(rp) => {
            push_route(rp, path.as_str(), hosts, &own_csp, env, doc, findings);
        },
    }
}

/// The second pass over a site: its routes.
pub open spec fn second_pass(
    st: StateV,
    body: Seq<Dir>,
    n: nat,
    hosts: Seq<Seq<char>>,
    csp: Option<Seq<char>>,
    vars: Seq<VarV>,
) -> StateV
    decreases n,
{
    if n == 0 {
        st
    } else {
        let p = second_pass(st, body, (n - 1) as nat, hosts, csp, vars);
        let d = body[n - 1];
        if d.name == "handle"@ || d.name == "route"@ {
            handle_step(p, d, hosts, csp, vars)
        } else if d.name == "reverse_proxy"@ {
            reverse_proxy_step(p, d, hosts, csp, vars)
        } else {
            p
        }
    }
}

fn map_routes(
    body: &Vec<&Directive>,
    hosts: &Vec<String>,
    csp: &Option<String>,
    env: &Env,
    doc: &mut ZionDoc,
    findings: &mut Vec<Finding>,
)
    ensures
        tls::state(final(doc), final(findings)) == second_pass(
            tls::state(old(doc), old(findings)),
            text::views(body@),
            body@.len(),
            text::views(hosts@),
            text::opt(*csp),
            env.vars_view(),
        ),
{
    let ghost bv = text::views(body@);
    let ghost st = tls::state(doc, findings);
    let mut i: usize = 0;
    while i < body.len()
        invariant
            i <= body.len(),
            bv == text::views(body@),
            tls::state(doc, findings) == second_pass(
                st,
                bv,
                i as nat,
                text::views(hosts@),
                text::opt(*csp),
                env.vars_view(),
            ),
        decreases body.len() - i,
    {
        assert(bv[i as int] == body@[i as int]@);
        let d: &Directive = body[i];
        if same(d.name.as_str(), "handle") || same(d.name.as_str(), "route") {
            map_handle(d, hosts, csp, env, doc, findings);
        } else if same(d.name.as_str(), "reverse_proxy") {
            map_reverse_proxy(d, hosts, csp, env, doc, findings);
        }
        i += 1;
    }
}

// ── Static fallback ─────────────────────────────────────────────────────
/// Whether a proxy route already matches everything for these hosts.
pub open spec fn covered(routes: Seq<RouteV>, hosts: Option<Seq<Seq<char>>>) -> bool {
    exists|i: int|
        0 <= i < routes.len() && (#[trigger] routes[i]).serve_dir is None && routes[i].path
            == CATCH_ALL@ && routes[i].hosts == hosts
}

/// The catch-all route of a static site, behind the proxy routes so that a
/// more specific handler wins.
pub open spec fn static_step(
    st: StateV,
    files: Option<StaticV>,
    hosts: Seq<Seq<char>>,
    csp: Option<Seq<char>>,
) -> StateV {
    match files {
        None => st,
        Some(s) => if covered(st.doc.routes, route_hosts(hosts)) {
            tls::noted(
                st,
                Status::Partial,
                0,
                "file_server"@,
                "a catch-all proxy handler already covers this site — the static file_server fallback is dropped (unreachable behind it)"@,
            )
        } else {
            let p = if hosts.len() == 0 {
                tls::noted(
                    st,
                    Status::Partial,
                    0,
                    "file_server (hostless)"@,
                    "a hostless static site becomes a shared fallback across ALL hosts in Zion; scope it to a host, or a request to another host with no match will be served these files"@,
                )
            } else {
                st
            };
            let route = RouteV {
                path: CATCH_ALL@,
                hosts: route_hosts(hosts),
                upstream: seq![],
                websocket: false,
                csp,
                waf: false,
                serve_dir: Some(s.dir),
                spa_fallback: s.spa,
                annotations: seq![],
            };
            StateV { doc: DocV { routes: p.doc.routes.push(route), ..p.doc }, ..p }
        },
    }
}

fn same_list(a: &Vec<String>, b: &Vec<String>) -> (r: bool)
    ensures
        r == (text::views(a@) == text::views(b@)),
{
    let ghost av = text::views(a@);
    let ghost bv = text::views(b@);
    if a.len() != b.len() {
        assert(av.len() != bv.len());
        return false;
    }
    let mut i: usize = 0;
    while i < a.len()
        invariant
            i <= a.len(),
            a.len() == b.len(),
            av == text::views(a@),
            bv == text::views(b@),
            forall|j: int| 0 <= j < i ==> #[trigger] av[j] == bv[j],
        decreases a.len() - i,
    {
        assert(av[i as int] == a@[i as int]@);
        assert(bv[i as int] == b@[i as int]@);
        if !same(a[i].as_str(), b[i].as_str()) {
            return false;
        }
        i += 1;
    }
    assert(av =~= bv);
    true
}

fn same_hosts(a: &Option<Vec<String>>, b: &Option<Vec<String>>) -> (r: bool)
    ensures
        r == (text::opt_list(*a) == text::opt_list(*b)),
{
    match (a, b) {
        (None, None) => true,
        (Some(x), Some(y)) => same_list(x, y),
        _ => false,
    }
}

fn is_covered(routes: &Vec<RouteOut>, hosts: &Option<Vec<String>>) -> (r: bool)
    ensures
        r == covered(text::views(routes@), text::opt_list(*hosts)),
{
    let ghost rv = text::views(routes@);
    let mut i: usize = 0;
    while i < routes.len()
        invariant
            i <= routes.len(),
            rv == text::views(routes@),
            forall|j: int|
                0 <= j < i ==> !((#[trigger] rv[j]).serve_dir is None && rv[j].path
                    == CATCH_ALL@ && rv[j].hosts == text::opt_list(*hosts)),
        decreases routes.len() - i,
    {
        assert(rv[i as int] == routes@[i as int]@);
        let r = &routes[i];
        if r.serve_dir.is_none() && same(r.path.as_str(), CATCH_ALL) && same_hosts(
            &r.hosts,
            hosts,
        ) {
            return true;
        }
        i += 1;
    }
    false
}

fn map_static(
    files: Option<StaticSite>,
    hosts: &Vec<String>,
    csp: Option<String>,
    doc: &mut ZionDoc,
    findings: &mut Vec<Finding>,
)
    ensures
        tls::state(final(doc), final(findings)) == static_step(
            tls::state(old(doc), old(findings)),
            opt_static(files),
            text::views(hosts@),
            text::opt(csp),
        ),
{
    let s = match files {
        Some(s) => s,
        None => {
            return;
        },
    };
    let own_hosts = hosts_for_route(hosts);
    if is_covered(&doc.routes, &own_hosts) {
        file(
            findings,
            Status::Partial,
            0,
            "file_server",
            "a catch-all proxy handler already covers this site — the static file_server fallback is dropped (unreachable behind it)",
        );
        return;
    }
    if hosts.len() == 0 {
        file(
            findings,
            Status::Partial,
            0,
            "file_server (hostless)",
            "a hostless static site becomes a shared fallback across ALL hosts in Zion; scope it to a host, or a request to another host with no match will be served these files",
        );
    }
    let route = RouteOut {
        path: own(CATCH_ALL),
        hosts: own_hosts,
        upstream: String::new(),
        websocket: false,
        csp,
        waf: false,
        serve_dir: Some(s.dir),
        spa_fallback: s.spa,
        annotations: Vec::new(),
    };
    assert(route@.annotations =~= seq![]);
    assert(route@.upstream =~= seq![]);
    doc.routes.push(route);
}

// ── Sites ───────────────────────────────────────────────────────────────
/// A site: its directives, its routes, its files, its certificates.
pub open spec fn site_step(
    st: StateV,
    body: Seq<Dir>,
    hosts: Seq<Seq<char>>,
    vars: Seq<VarV>,
    global: Option<Seq<char>>,
    cli: Option<Seq<char>>,
) -> StateV {
    let files = static_of(body);
    let f = first_pass(SiteStateV { csp: None, st }, body, body.len(), files);
    let routed = second_pass(f.st, body, body.len(), hosts, f.csp, vars);
    tls::acme_step(static_step(routed, files, hosts, f.csp), body, hosts, global, cli)
}

pub fn map_site(
    body: &Vec<&Directive>,
    hosts: &Vec<String>,
    env: &Env,
    global: &Option<String>,
    cli: Option<&str>,
    doc: &mut ZionDoc,
    findings: &mut Vec<Finding>,
)
    ensures
        tls::state(final(doc), final(findings)) == site_step(
            tls::state(old(doc), old(findings)),
            text::views(body@),
            text::views(hosts@),
            env.vars_view(),
            text::opt(*global),
            tls::opt_str(cli),
        ),
{
    let files = detect_static(body);
    let csp = map_directives(body, &files, doc, findings);
    map_routes(body, hosts, &csp, env, doc, findings);
    map_static(files, hosts, csp, doc, findings);
    apply_site_acme(body, hosts, global, cli, doc, findings);
}

} // verus!
