//! Traefik (Docker-provider compose labels) to a Zion document.
//!
//! Traefik's dynamic configuration for the Docker provider is expressed as
//! container labels, its static configuration as flags on the Traefik service's
//! `command`. Exactly the common label families are read; anything else is
//! refused loudly. Zion has no service discovery, so the routes are frozen at
//! import time.
//!
//! Variables are resolved at import time; an unresolved one is a named finding,
//! never an invented value.
use super::compose;
use super::compose::{ComposeFile, Label, LabelV, Service, ServiceV};
use super::env::{interpolate, interpolate_soft, Env, VarV};
use super::map::{new_doc, DocV, RouteOut, RouteV, UpstreamOut, UpstreamV, ZionDoc};
use super::{env, file, finish_conversion, Conversion, ConvertError, Finding, Note, Outcome};
use super::{honesty, nginx, Status};
use crate::import;
use crate::text;
use crate::text::{cat2, cat3, cat4, cat5, chars_of, closes_with, ends_with, find_from};
use crate::text::{holds_text, is_alnum, is_before, list_has, own, same, slice_of, split};
use crate::text::{split_once, starts_with, strip_prefix, trim, trim_both_char, trim_end_char};
use crate::text::{trim_end_text, trim_start_char, trim_start_text};
use vstd::prelude::*;

verus! {

broadcast use crate::text::group_views;

// ── Names ───────────────────────────────────────────────────────────────
/// An upstream name keys a `[upstream.NAME]` table, so a dot would nest it.
pub open spec fn upstream_name(name: Seq<char>) -> Seq<char> {
    let s = import::map::upstream::safe_name(name);
    if s.len() == 0 {
        "upstream"@
    } else {
        s
    }
}

pub fn sanitize_name(name: &str) -> (r: String)
    ensures
        r@ == upstream_name(name@),
{
    let s = import::map::upstream::sanitize_name(name);
    if s.as_str().is_empty() {
        own("upstream")
    } else {
        s
    }
}

/// Where the first `@` or `:` stands, from `p` on.
pub open spec fn tag_at(s: Seq<char>, p: int) -> int
    decreases s.len() - p,
{
    if 0 <= p < s.len() && s[p] != '@' && s[p] != ':' {
        tag_at(s, p + 1)
    } else {
        p
    }
}

/// The repository name of an image: without registry, path, tag and digest.
pub open spec fn repository(image: Seq<char>) -> Seq<char> {
    let s = image.subrange(0, tag_at(image, 0));
    s.subrange(text::last_index_of(s, '/', s.len() as int) + 1, s.len() as int)
}

pub open spec fn traefik_service(svc: ServiceV) -> bool {
    match svc.image {
        Some(image) => repository(image) == "traefik"@,
        None => false,
    }
}

pub fn is_traefik_service(svc: &Service) -> (r: bool)
    ensures
        r == traefik_service(svc@),
{
    match &svc.image {
        None => false,
        Some(image) => {
            let v = chars_of(image.as_str());
            let mut p: usize = 0;
            while p < v.len() && v[p] != '@' && v[p] != ':'
                invariant
                    p <= v.len(),
                    tag_at(v@, 0) == tag_at(v@, p as int),
                decreases v.len() - p,
            {
                p += 1;
            }
            let s = slice_of(&v, 0, p);
            match text::rsplit_once(s.as_str(), '/') {
                Some((_, repo)) => same(repo.as_str(), "traefik"),
                None => {
                    assert(s@.subrange(0, s@.len() as int) =~= s@);
                    proof {
                        text::lemma_last_index_of(s@, '/', s@.len() as int);
                    }
                    same(s.as_str(), "traefik")
                },
            }
        },
    }
}

// ── Rules ───────────────────────────────────────────────────────────────
#[derive(Debug)]
pub enum PathKind {
    CatchAll,
    Prefix(String),
    Exact(String),
}

pub enum PathV {
    CatchAll,
    Prefix(Seq<char>),
    Exact(Seq<char>),
}

impl View for PathKind {
    type V = PathV;

    open spec fn view(&self) -> PathV {
        match self {
            PathKind::CatchAll => PathV::CatchAll,
            PathKind::Prefix(s) => PathV::Prefix(s@),
            PathKind::Exact(s) => PathV::Exact(s@),
        }
    }
}

#[derive(Debug)]
pub struct RuleParse {
    pub hosts: Vec<String>,
    pub path: PathKind,
    pub acme_challenge: bool,
}

#[verifier::ext_equal]
pub struct RuleV {
    pub hosts: Seq<Seq<char>>,
    pub path: PathV,
    pub acme_challenge: bool,
}

impl View for RuleParse {
    type V = RuleV;

    open spec fn view(&self) -> RuleV {
        RuleV {
            hosts: text::views(self.hosts@),
            path: self.path@,
            acme_challenge: self.acme_challenge,
        }
    }
}

pub open spec fn opt_rule(r: Option<RuleParse>) -> Option<RuleV> {
    match r {
        Some(r) => Some(r@),
        None => None,
    }
}

/// How long the combinator at `p` is (`&&` or `||`); zero, if there is none.
pub open spec fn combinator(s: Seq<char>, p: int) -> int {
    if p + 1 < s.len() && ((s[p] == '&' && s[p + 1] == '&') || (s[p] == '|' && s[p + 1] == '|')) {
        2
    } else if s[p] == '\u{1}' {
        1
    } else {
        0
    }
}

/// The texts between the combinators; the current one began at `start`.
pub open spec fn terms_from(s: Seq<char>, p: int, start: int) -> Seq<Seq<char>>
    decreases s.len() - p,
{
    if p < 0 || p >= s.len() {
        seq![s.subrange(start, s.len() as int)]
    } else {
        let n = combinator(s, p);
        if n > 0 {
            seq![s.subrange(start, p)] + terms_from(s, p + n, p + n)
        } else {
            terms_from(s, p + 1, start)
        }
    }
}

fn split_terms(rule: &str) -> (r: Vec<String>)
    ensures
        text::views(r@) == terms_from(rule@, 0, 0),
{
    let v = chars_of(rule);
    let ghost s = rule@;
    let mut out: Vec<String> = Vec::new();
    let mut start: usize = 0;
    let mut p: usize = 0;
    assert(text::views(out@) + terms_from(s, 0, 0) =~= terms_from(s, 0, 0));
    while p < v.len()
        invariant
            v@ == s,
            start <= p <= v.len(),
            text::views(out@) + terms_from(s, p as int, start as int) == terms_from(s, 0, 0),
        decreases v.len() - p,
    {
        let ghost before = text::views(out@);
        let n: usize = if p + 1 < v.len() && ((v[p] == '&' && v[p + 1] == '&') || (v[p] == '|'
            && v[p + 1] == '|')) {
            2
        } else if v[p] == '\u{1}' {
            1
        } else {
            0
        };
        if n > 0 {
            out.push(slice_of(&v, start, p));
            assert(before + terms_from(s, p as int, start as int) =~= text::views(out@)
                + terms_from(s, p + n, p + n));
            p += n;
            start = p;
        } else {
            p += 1;
        }
    }
    let ghost before = text::views(out@);
    out.push(slice_of(&v, start, v.len()));
    assert(before + terms_from(s, p as int, start as int) =~= text::views(out@));
    out
}

pub open spec fn all_alnum(s: Seq<char>) -> bool {
    forall|i: int| 0 <= i < s.len() ==> text::alnum(#[trigger] s[i])
}

fn is_all_alnum(s: &str) -> (r: bool)
    ensures
        r == all_alnum(s@),
{
    let v = chars_of(s);
    let mut i: usize = 0;
    while i < v.len()
        invariant
            v@ == s@,
            i <= v.len(),
            forall|j: int| 0 <= j < i ==> text::alnum(#[trigger] v@[j]),
        decreases v.len() - i,
    {
        if !is_alnum(v[i]) {
            assert(!text::alnum(s@[i as int]));
            return false;
        }
        i += 1;
    }
    true
}

/// An argument without white space and quotes around it.
pub open spec fn bare_arg(a: Seq<char>) -> Seq<char> {
    text::trim_both(text::trim_both(text::trim_both(text::trim_of(a), '`'), '"'), '\'')
}

/// The first `n` arguments that are not empty.
pub open spec fn bare_args(parts: Seq<Seq<char>>, n: nat) -> Seq<Seq<char>>
    decreases n,
{
    if n == 0 {
        seq![]
    } else {
        let p = bare_args(parts, (n - 1) as nat);
        let a = bare_arg(parts[n - 1]);
        if a.len() == 0 {
            p
        } else {
            p.push(a)
        }
    }
}

/// ``Func(`a`, `b`)`` as the function name and its arguments.
pub open spec fn matcher_of(token: Seq<char>) -> Option<(Seq<char>, Seq<Seq<char>>)> {
    let open = text::index_of(token, '(', 0);
    if open >= token.len() || !text::closes(token, ')') {
        None
    } else {
        let func = text::trim_of(token.subrange(0, open));
        if func.len() == 0 || !all_alnum(func) {
            None
        } else {
            let parts = text::split_of(token.subrange(open + 1, token.len() - 1), ',');
            Some((func, bare_args(parts, parts.len())))
        }
    }
}

pub open spec fn opt_matcher(m: Option<(String, Vec<String>)>) -> Option<
    (Seq<char>, Seq<Seq<char>>),
> {
    match m {
        Some((f, a)) => Some((f@, text::views(a@))),
        None => None,
    }
}

pub fn parse_matcher(token: &str) -> (r: Option<(String, Vec<String>)>)
    ensures
        opt_matcher(r) == matcher_of(token@),
{
    let v = chars_of(token);
    let open: usize = find_from(&v, '(', 0);
    if open >= v.len() || !closes_with(token, ')') {
        return None;
    }
    proof {
        text::lemma_index_of(v@, '(', 0);
    }
    let func = trim(slice_of(&v, 0, open).as_str());
    if func.as_str().is_empty() || !is_all_alnum(func.as_str()) {
        return None;
    }
    let parts = split(slice_of(&v, open + 1, v.len() - 1).as_str(), ',');
    let ghost pv = text::views(parts@);
    let mut args: Vec<String> = Vec::new();
    let mut i: usize = 0;
    assert(text::views(args@) =~= seq![]);
    while i < parts.len()
        invariant
            i <= parts.len(),
            pv == text::views(parts@),
            text::views(args@) == bare_args(pv, i as nat),
        decreases parts.len() - i,
    {
        assert(pv[i as int] == parts@[i as int]@);
        let a = trim(parts[i].as_str());
        let a = trim_both_char(a.as_str(), '`');
        let a = trim_both_char(a.as_str(), '"');
        let a = trim_both_char(a.as_str(), '\'');
        if !a.as_str().is_empty() {
            args.push(a);
        }
        i += 1;
    }
    Some((func, args))
}

/// Resolves the first `n` arguments of a `Host` matcher.
pub open spec fn hosts_from(
    hosts: Seq<Seq<char>>,
    args: Seq<Seq<char>>,
    n: nat,
    vars: Seq<VarV>,
    line: int,
    notes: Seq<Note>,
) -> (Option<Seq<Seq<char>>>, Seq<Note>)
    decreases n,
{
    if n == 0 {
        (Some(hosts), notes)
    } else {
        match hosts_from(hosts, args, (n - 1) as nat, vars, line, notes) {
            (None, f) => (None, f),
            (Some(h), f) => match env::interpolated(
                args[n - 1],
                vars,
                line,
                "rule: Host"@,
                f,
            ) {
                (Some(v), f2) => (Some(h.push(v)), f2),
                (None, f2) => (None, f2),
            },
        }
    }
}

proof fn lemma_hosts_stop(
    hosts: Seq<Seq<char>>,
    args: Seq<Seq<char>>,
    k: nat,
    n: nat,
    vars: Seq<VarV>,
    line: int,
    notes: Seq<Note>,
)
    requires
        k <= n,
        hosts_from(hosts, args, k, vars, line, notes).0 is None,
    ensures
        hosts_from(hosts, args, n, vars, line, notes) == hosts_from(
            hosts,
            args,
            k,
            vars,
            line,
            notes,
        ),
    decreases n - k,
{
    if k < n {
        lemma_hosts_stop(hosts, args, k, (n - 1) as nat, vars, line, notes);
    }
}

pub open spec fn unsupported_matcher(directive: Seq<char>, line: int) -> Note {
    import::note(
        Status::Unsupported,
        line,
        directive,
        "unsupported Traefik matcher — only Host/PathPrefix/Path convert"@,
    )
}

/// A path matcher that names no path.
pub open spec fn empty_matcher(func: Seq<char>, line: int) -> Note {
    import::note(
        Status::Unsupported,
        line,
        "rule: "@ + func + "()"@,
        "matcher without a path — route dropped"@,
    )
}

/// One matcher of a rule.
pub open spec fn matcher_step(
    r: RuleV,
    func: Seq<char>,
    args: Seq<Seq<char>>,
    vars: Seq<VarV>,
    line: int,
    notes: Seq<Note>,
) -> (Option<RuleV>, Seq<Note>) {
    if func == "Host"@ || func == "HostSNI"@ {
        match hosts_from(r.hosts, args, args.len(), vars, line, notes) {
            (Some(hosts), f) => (Some(RuleV { hosts, ..r }), f),
            (None, f) => (None, f),
        }
    } else if func == "PathPrefix"@ {
        if args.len() == 0 {
            (None, notes.push(empty_matcher(func, line)))
        } else {
            match env::interpolated(args[0], vars, line, "rule: PathPrefix"@, notes) {
                (Some(p), f) => (
                    Some(
                        RuleV {
                            path: PathV::Prefix(p),
                            acme_challenge: r.acme_challenge || text::holds(
                                p,
                                "/.well-known/acme-challenge"@,
                            ),
                            ..r
                        },
                    ),
                    f,
                ),
                (None, f) => (None, f),
            }
        }
    } else if func == "Path"@ {
        if args.len() == 0 {
            (None, notes.push(empty_matcher(func, line)))
        } else {
            match env::interpolated(args[0], vars, line, "rule: Path"@, notes) {
                (Some(p), f) => (Some(RuleV { path: PathV::Exact(p), ..r }), f),
                (None, f) => (None, f),
            }
        }
    } else {
        (None, notes.push(unsupported_matcher("rule: "@ + func + "(…)"@, line)))
    }
}

/// One term of a rule.
pub open spec fn term_step(
    r: RuleV,
    raw: Seq<char>,
    vars: Seq<VarV>,
    line: int,
    notes: Seq<Note>,
) -> (Option<RuleV>, Seq<Note>) {
    let token = text::trim_of(raw);
    if token.len() == 0 {
        (Some(r), notes)
    } else {
        match matcher_of(token) {
            None => (None, notes.push(unsupported_matcher("rule: "@ + token, line))),
            Some((func, args)) => matcher_step(r, func, args, vars, line, notes),
        }
    }
}

/// The first `n` terms of a rule; the first that cannot be read ends it.
pub open spec fn terms_of(
    terms: Seq<Seq<char>>,
    n: nat,
    vars: Seq<VarV>,
    line: int,
    notes: Seq<Note>,
) -> (Option<RuleV>, Seq<Note>)
    decreases n,
{
    if n == 0 {
        (Some(RuleV { hosts: seq![], path: PathV::CatchAll, acme_challenge: false }), notes)
    } else {
        match terms_of(terms, (n - 1) as nat, vars, line, notes) {
            (None, f) => (None, f),
            (Some(r), f) => term_step(r, terms[n - 1], vars, line, f),
        }
    }
}

proof fn lemma_terms_stop(
    terms: Seq<Seq<char>>,
    k: nat,
    n: nat,
    vars: Seq<VarV>,
    line: int,
    notes: Seq<Note>,
)
    requires
        k <= n,
        terms_of(terms, k, vars, line, notes).0 is None,
    ensures
        terms_of(terms, n, vars, line, notes) == terms_of(terms, k, vars, line, notes),
    decreases n - k,
{
    if k < n {
        lemma_terms_stop(terms, k, (n - 1) as nat, vars, line, notes);
    }
}

/// A Traefik router rule as hosts and a single path matcher. Only `Host`,
/// `PathPrefix` and `Path` are understood; any other matcher drops the whole
/// route rather than converting it wrong.
pub open spec fn rule_of(rule: Seq<char>, vars: Seq<VarV>, line: int, notes: Seq<Note>) -> (
    Option<RuleV>,
    Seq<Note>,
) {
    let terms = terms_from(rule, 0, 0);
    terms_of(terms, terms.len(), vars, line, notes)
}

fn read_hosts(
    hosts: &mut Vec<String>,
    args: &Vec<String>,
    env: &Env,
    line: u32,
    findings: &mut Vec<Finding>,
) -> (r: bool)
    ensures
        ({
            let (h, f) = hosts_from(
                text::views(old(hosts)@),
                text::views(args@),
                args@.len(),
                env.vars_view(),
                line as int,
                text::views(old(findings)@),
            );
            &&& text::views(final(findings)@) == f
            &&& match h {
                Some(v) => r && text::views(final(hosts)@) == v,
                None => !r,
            }
        }),
{
    let ghost av = text::views(args@);
    let ghost vars = env.vars_view();
    let ghost start = text::views(hosts@);
    let ghost notes = text::views(findings@);
    let mut i: usize = 0;
    while i < args.len()
        invariant
            i <= args.len(),
            av == text::views(args@),
            vars == env.vars_view(),
            start == text::views(old(hosts)@),
            notes == text::views(old(findings)@),
            hosts_from(start, av, i as nat, vars, line as int, notes) == (
                Some(text::views(hosts@)),
                text::views(findings@),
            ),
        decreases args.len() - i,
    {
        assert(av[i as int] == args@[i as int]@);
        proof {
            if hosts_from(start, av, (i + 1) as nat, vars, line as int, notes).0 is None {
                lemma_hosts_stop(
                    start,
                    av,
                    (i + 1) as nat,
                    av.len(),
                    vars,
                    line as int,
                    notes,
                );
            }
        }
        match interpolate(args[i].as_str(), env, line, "rule: Host", findings) {
            Some(v) => {
                hosts.push(v);
            },
            None => {
                return false;
            },
        }
        i += 1;
    }
    true
}

fn file_empty_matcher(func: &str, line: u32, findings: &mut Vec<Finding>)
    ensures
        text::views(final(findings)@) == text::views(old(findings)@).push(
            empty_matcher(func@, line as int),
        ),
{
    let directive = cat3("rule: ", func, "()");
    file(
        findings,
        Status::Unsupported,
        line,
        directive.as_str(),
        "matcher without a path — route dropped",
    );
}

fn read_term(
    r: RuleParse,
    raw: &str,
    env: &Env,
    line: u32,
    findings: &mut Vec<Finding>,
) -> (o: Option<RuleParse>)
    ensures
        (opt_rule(o), text::views(final(findings)@)) == term_step(
            r@,
            raw@,
            env.vars_view(),
            line as int,
            text::views(old(findings)@),
        ),
{
    let token = trim(raw);
    if token.as_str().is_empty() {
        return Some(r);
    }
    let (func, args) = match parse_matcher(token.as_str()) {
        Some(m) => m,
        None => {
            let directive = cat2("rule: ", token.as_str());
            file(
                findings,
                Status::Unsupported,
                line,
                directive.as_str(),
                "unsupported Traefik matcher — only Host/PathPrefix/Path convert",
            );
            return None;
        },
    };
    let ghost av = text::views(args@);
    let f: &str = func.as_str();
    let mut r = r;
    if same(f, "Host") || same(f, "HostSNI") {
        if read_hosts(&mut r.hosts, &args, env, line, findings) {
            Some(r)
        } else {
            None
        }
    } else if same(f, "PathPrefix") {
        if args.len() == 0 {
            file_empty_matcher(f, line, findings);
            return None;
        }
        assert(av[0] == args@[0]@);
        match interpolate(args[0].as_str(), env, line, "rule: PathPrefix", findings) {
            Some(p) => {
                if holds_text(p.as_str(), "/.well-known/acme-challenge") {
                    r.acme_challenge = true;
                }
                r.path = PathKind::Prefix(p);
                Some(r)
            },
            None => None,
        }
    } else if same(f, "Path") {
        if args.len() == 0 {
            file_empty_matcher(f, line, findings);
            return None;
        }
        assert(av[0] == args@[0]@);
        match interpolate(args[0].as_str(), env, line, "rule: Path", findings) {
            Some(p) => {
                r.path = PathKind::Exact(p);
                Some(r)
            },
            None => None,
        }
    } else {
        let directive = cat3("rule: ", f, "(…)");
        file(
            findings,
            Status::Unsupported,
            line,
            directive.as_str(),
            "unsupported Traefik matcher — only Host/PathPrefix/Path convert",
        );
        None
    }
}

pub fn parse_rule(rule: &str, line: u32, env: &Env, findings: &mut Vec<Finding>) -> (r: Option<
    RuleParse,
>)
    ensures
        (opt_rule(r), text::views(final(findings)@)) == rule_of(
            rule@,
            env.vars_view(),
            line as int,
            text::views(old(findings)@),
        ),
{
    let terms = split_terms(rule);
    let ghost tv = text::views(terms@);
    let ghost vars = env.vars_view();
    let ghost notes = text::views(findings@);
    let mut r = RuleParse { hosts: Vec::new(), path: PathKind::CatchAll, acme_challenge: false };
    let mut i: usize = 0;
    assert(r@ =~= (RuleV { hosts: seq![], path: PathV::CatchAll, acme_challenge: false }));
    while i < terms.len()
        invariant
            i <= terms.len(),
            tv == text::views(terms@),
            tv == terms_from(rule@, 0, 0),
            vars == env.vars_view(),
            notes == text::views(old(findings)@),
            terms_of(tv, i as nat, vars, line as int, notes) == (
                Some(r@),
                text::views(findings@),
            ),
        decreases terms.len() - i,
    {
        assert(tv[i as int] == terms@[i as int]@);
        proof {
            if terms_of(tv, (i + 1) as nat, vars, line as int, notes).0 is None {
                lemma_terms_stop(tv, (i + 1) as nat, tv.len(), vars, line as int, notes);
            }
        }
        match read_term(r, terms[i].as_str(), env, line, findings) {
            Some(next) => {
                r = next;
            },
            None => {
                return None;
            },
        }
        i += 1;
    }
    Some(r)
}

/// The route path of a matcher.
pub open spec fn route_path(p: PathV) -> Seq<char> {
    match p {
        PathV::CatchAll => "/{*rest}"@,
        PathV::Prefix(s) => (if s == "/"@ {
            ""@
        } else {
            text::trim_end_of(s, '/')
        }) + "/{*rest}"@,
        PathV::Exact(s) => s,
    }
}

pub fn to_zion_path(p: &PathKind) -> (r: String)
    ensures
        r@ == route_path(p@),
{
    match p {
        PathKind::CatchAll => own("/{*rest}"),
        PathKind::Prefix(s) => {
            if same(s.as_str(), "/") {
                cat2("", "/{*rest}")
            } else {
                cat2(trim_end_char(s.as_str(), '/').as_str(), "/{*rest}")
            }
        },
        PathKind::Exact(s) => s.clone(),
    }
}

// ── Static configuration ────────────────────────────────────────────────
/// What the flags of the Traefik service said so far.
pub struct StaticV {
    pub http: Seq<char>,
    pub https: Seq<char>,
    pub acme_email: Option<Seq<char>>,
    pub logged_log: bool,
    pub logged_redirect: bool,
    pub notes: Seq<Note>,
}

/// The address of an entrypoint: a bare port listens on every address.
pub open spec fn entry_address(val: Seq<char>) -> Seq<char> {
    if text::begins(val, ':') {
        "0.0.0.0:"@ + val.subrange(1, val.len() as int)
    } else {
        val
    }
}

pub open spec fn entry_name(key: Seq<char>) -> Seq<char> {
    text::trim_suffixes(text::trim_prefixes(key, "entrypoints."@), ".address"@)
}

pub open spec fn flag_step(st: StaticV, raw: Seq<char>, line: int, vars: Seq<VarV>) -> StaticV {
    let flag = text::trim_start_of(raw, '-');
    let (key, val) = match text::split_once_of(flag, '=') {
        Some((k, v)) => (k, v),
        None => (flag, ""@),
    };
    let say = |status: Status, directive: Seq<char>, detail: Seq<char>|
        st.notes.push(import::note(status, line, directive, detail));
    if key == "providers.docker"@ && val == "true"@ {
        StaticV {
            notes: say(
                Status::Auto,
                "--providers.docker"@,
                "Zion has no service discovery — routes are frozen at import time; a container added to the stack later is not exposed until you re-run the import"@,
            ),
            ..st
        }
    } else if key == "providers.docker.exposedbydefault"@ {
        StaticV {
            notes: say(
                Status::Auto,
                "--providers.docker.exposedbydefault"@,
                "only services with `traefik.enable=true` are imported"@,
            ),
            ..st
        }
    } else if (key == "api.insecure"@ || key == "api.dashboard"@) && val == "true"@ {
        StaticV {
            notes: say(
                Status::Unsupported,
                "--"@ + key,
                "Zion has no admin dashboard — drop it"@,
            ),
            ..st
        }
    } else if text::starts(key, "entrypoints."@) && text::ends(key, ".address"@) {
        if entry_name(key) == "web"@ {
            StaticV { http: entry_address(val), ..st }
        } else if entry_name(key) == "websecure"@ {
            StaticV { https: entry_address(val), ..st }
        } else {
            st
        }
    } else if !st.logged_redirect && text::starts(key, "entrypoints."@) && text::holds(
        key,
        ".redirections."@,
    ) {
        StaticV {
            logged_redirect: true,
            notes: say(
                Status::Auto,
                "--entrypoints.*.redirections"@,
                "HTTP→HTTPS redirect is built in when TLS is configured"@,
            ),
            ..st
        }
    } else if text::starts(key, "certificatesresolvers."@) && text::ends(key, ".acme.email"@) {
        StaticV { acme_email: Some(env::softly(val, vars)), ..st }
    } else if !st.logged_log && (text::starts(key, "log."@) || key == "log"@) {
        StaticV {
            logged_log: true,
            notes: say(
                Status::Auto,
                "--log"@,
                "structured JSON logging to stdout is built in"@,
            ),
            ..st
        }
    } else {
        st
    }
}

pub open spec fn flags_of(
    st: StaticV,
    flags: Seq<Seq<char>>,
    n: nat,
    line: int,
    vars: Seq<VarV>,
) -> StaticV
    decreases n,
{
    if n == 0 {
        st
    } else {
        flag_step(flags_of(st, flags, (n - 1) as nat, line, vars), flags[n - 1], line, vars)
    }
}

/// The first Traefik service from `i` on.
pub open spec fn traefik_index(services: Seq<ServiceV>, i: nat) -> nat
    decreases services.len() - i,
{
    if i >= services.len() || traefik_service(services[i as int]) {
        i
    } else {
        traefik_index(services, i + 1)
    }
}

pub open spec fn static_of(services: Seq<ServiceV>, vars: Seq<VarV>, notes: Seq<Note>) -> StaticV {
    let st = StaticV {
        http: "0.0.0.0:80"@,
        https: "0.0.0.0:443"@,
        acme_email: None,
        logged_log: false,
        logged_redirect: false,
        notes,
    };
    let i = traefik_index(services, 0);
    if i >= services.len() {
        st
    } else {
        let svc = services[i as int];
        flags_of(st, svc.command, svc.command.len(), svc.line, vars)
    }
}

struct StaticCfg {
    http: String,
    https: String,
    acme_email: Option<String>,
    logged_log: bool,
    logged_redirect: bool,
}

spec fn static_view(c: StaticCfg, findings: &Vec<Finding>) -> StaticV {
    StaticV {
        http: c.http@,
        https: c.https@,
        acme_email: text::opt(c.acme_email),
        logged_log: c.logged_log,
        logged_redirect: c.logged_redirect,
        notes: text::views(findings@),
    }
}

fn entrypoint_address(val: &str) -> (r: String)
    ensures
        r@ == entry_address(val@),
{
    let v = chars_of(val);
    if v.len() > 0 && v[0] == ':' {
        cat2("0.0.0.0:", slice_of(&v, 1, v.len()).as_str())
    } else {
        own(val)
    }
}

fn read_flag(c: &mut StaticCfg, raw: &str, line: u32, env: &Env, findings: &mut Vec<Finding>)
    ensures
        static_view(*final(c), final(findings)) == flag_step(
            static_view(*old(c), old(findings)),
            raw@,
            line as int,
            env.vars_view(),
        ),
{
    let flag = trim_start_char(raw, '-');
    let (key, val) = match split_once(flag.as_str(), '=') {
        Some((k, v)) => (k, v),
        None => (flag, own("")),
    };
    let k: &str = key.as_str();
    let v: &str = val.as_str();
    if same(k, "providers.docker") && same(v, "true") {
        file(
            findings,
            Status::Auto,
            line,
            "--providers.docker",
            "Zion has no service discovery — routes are frozen at import time; a container added to the stack later is not exposed until you re-run the import",
        );
    } else if same(k, "providers.docker.exposedbydefault") {
        file(
            findings,
            Status::Auto,
            line,
            "--providers.docker.exposedbydefault",
            "only services with `traefik.enable=true` are imported",
        );
    } else if (same(k, "api.insecure") || same(k, "api.dashboard")) && same(v, "true") {
        let directive = cat2("--", k);
        file(
            findings,
            Status::Unsupported,
            line,
            directive.as_str(),
            "Zion has no admin dashboard — drop it",
        );
    } else if starts_with(k, "entrypoints.") && ends_with(k, ".address") {
        let front = trim_start_text(k, "entrypoints.");
        let name = trim_end_text(front.as_str(), ".address");
        if same(name.as_str(), "web") {
            c.http = entrypoint_address(v);
        } else if same(name.as_str(), "websecure") {
            c.https = entrypoint_address(v);
        }
    } else if !c.logged_redirect && starts_with(k, "entrypoints.") && holds_text(
        k,
        ".redirections.",
    ) {
        file(
            findings,
            Status::Auto,
            line,
            "--entrypoints.*.redirections",
            "HTTP→HTTPS redirect is built in when TLS is configured",
        );
        c.logged_redirect = true;
    } else if starts_with(k, "certificatesresolvers.") && ends_with(k, ".acme.email") {
        c.acme_email = Some(interpolate_soft(v, env));
    } else if !c.logged_log && (starts_with(k, "log.") || same(k, "log")) {
        file(
            findings,
            Status::Auto,
            line,
            "--log",
            "structured JSON logging to stdout is built in",
        );
        c.logged_log = true;
    }
}

fn parse_static(services: &Vec<Service>, env: &Env, findings: &mut Vec<Finding>) -> (r: StaticCfg)
    ensures
        static_view(r, final(findings)) == static_of(
            text::views(services@),
            env.vars_view(),
            text::views(old(findings)@),
        ),
{
    let ghost sv = text::views(services@);
    let mut c = StaticCfg {
        http: own("0.0.0.0:80"),
        https: own("0.0.0.0:443"),
        acme_email: None,
        logged_log: false,
        logged_redirect: false,
    };
    let ghost st = static_view(c, findings);
    let mut i: usize = 0;
    while i < services.len()
        invariant
            i <= services.len(),
            sv == text::views(services@),
            traefik_index(sv, 0) == traefik_index(sv, i as nat),
            st == static_view(c, findings),
            st == (StaticV {
                http: "0.0.0.0:80"@,
                https: "0.0.0.0:443"@,
                acme_email: None,
                logged_log: false,
                logged_redirect: false,
                notes: text::views(old(findings)@),
            }),
            text::views(findings@) == text::views(old(findings)@),
        decreases services.len() - i,
    {
        let svc: &Service = &services[i];
        assert(sv[i as int] == svc@);
        if is_traefik_service(svc) {
            let mut j: usize = 0;
            while j < svc.command.len()
                invariant
                    j <= svc.command.len(),
                    static_view(c, findings) == flags_of(
                        st,
                        svc@.command,
                        j as nat,
                        svc.line as int,
                        env.vars_view(),
                    ),
                decreases svc.command.len() - j,
            {
                assert(svc@.command[j as int] == svc.command@[j as int]@);
                read_flag(&mut c, svc.command[j].as_str(), svc.line, env, findings);
                j += 1;
            }
            return c;
        }
        i += 1;
    }
    c
}

// ── Dynamic labels ──────────────────────────────────────────────────────
pub struct Router {
    pub name: String,
    pub rule: Option<(String, u32)>,
    pub tls: bool,
    pub tls_line: u32,
    pub certresolver: Option<(String, u32)>,
    pub service: Option<String>,
}

pub struct Port {
    /// The Traefik service it belongs to.
    pub service: String,
    pub port: String,
    pub line: u32,
}

pub struct Routing {
    pub enable: Option<bool>,
    /// In the order of their names, each name once.
    pub routers: Vec<Router>,
    /// Each service once.
    pub ports: Vec<Port>,
}

#[verifier::ext_equal]
pub struct RouterV {
    pub name: Seq<char>,
    pub rule: Option<(Seq<char>, int)>,
    pub tls: bool,
    pub tls_line: int,
    pub certresolver: Option<(Seq<char>, int)>,
    pub service: Option<Seq<char>>,
}

#[verifier::ext_equal]
pub struct PortV {
    pub service: Seq<char>,
    pub port: Seq<char>,
    pub line: int,
}

#[verifier::ext_equal]
pub struct RoutingV {
    pub enable: Option<bool>,
    pub routers: Seq<RouterV>,
    pub ports: Seq<PortV>,
}

pub open spec fn opt_at(o: Option<(String, u32)>) -> Option<(Seq<char>, int)> {
    match o {
        Some((s, l)) => Some((s@, l as int)),
        None => None,
    }
}

impl View for Router {
    type V = RouterV;

    open spec fn view(&self) -> RouterV {
        RouterV {
            name: self.name@,
            rule: opt_at(self.rule),
            tls: self.tls,
            tls_line: self.tls_line as int,
            certresolver: opt_at(self.certresolver),
            service: text::opt(self.service),
        }
    }
}

impl View for Port {
    type V = PortV;

    open spec fn view(&self) -> PortV {
        PortV { service: self.service@, port: self.port@, line: self.line as int }
    }
}

impl View for Routing {
    type V = RoutingV;

    open spec fn view(&self) -> RoutingV {
        RoutingV {
            enable: self.enable,
            routers: text::views(self.routers@),
            ports: text::views(self.ports@),
        }
    }
}

pub open spec fn new_router(name: Seq<char>) -> RouterV {
    RouterV { name, rule: None, tls: false, tls_line: 0, certresolver: None, service: None }
}

/// The first router from `i` on whose name does not come before the given one.
pub open spec fn router_slot(rs: Seq<RouterV>, name: Seq<char>, i: nat) -> nat
    decreases rs.len() - i,
{
    if i < rs.len() && text::precedes(rs[i as int].name, name) {
        router_slot(rs, name, i + 1)
    } else {
        i
    }
}

/// The routers with one of the given name among them.
pub open spec fn with_router(rs: Seq<RouterV>, name: Seq<char>) -> Seq<RouterV> {
    let i = router_slot(rs, name, 0);
    if i < rs.len() && rs[i as int].name == name {
        rs
    } else {
        rs.insert(i as int, new_router(name))
    }
}

/// Where the port of a service stands, from `i` on.
pub open spec fn port_index(ports: Seq<PortV>, service: Seq<char>, i: nat) -> nat
    decreases ports.len() - i,
{
    if i >= ports.len() || ports[i as int].service == service {
        i
    } else {
        port_index(ports, service, i + 1)
    }
}

pub open spec fn with_port(ports: Seq<PortV>, p: PortV) -> Seq<PortV> {
    let i = port_index(ports, p.service, 0);
    if i < ports.len() {
        ports.update(i as int, p)
    } else {
        ports.push(p)
    }
}

pub struct LabelsV {
    pub routing: RoutingV,
    pub notes: Seq<Note>,
}

pub open spec fn router_label(
    st: LabelsV,
    name: Seq<char>,
    prop: Seq<char>,
    l: LabelV,
) -> LabelsV {
    let rs = with_router(st.routing.routers, name);
    let i = router_slot(st.routing.routers, name, 0) as int;
    let r = rs[i];
    let set = |r: RouterV|
        LabelsV { routing: RoutingV { routers: rs.update(i, r), ..st.routing }, ..st };
    let say = |status: Status, directive: Seq<char>, detail: Seq<char>|
        LabelsV {
            routing: RoutingV { routers: rs, ..st.routing },
            notes: st.notes.push(import::note(status, l.line, directive, detail)),
        };
    if prop == "rule"@ {
        set(RouterV { rule: Some((l.value, l.line)), ..r })
    } else if prop == "tls"@ {
        set(RouterV { tls: l.value == "true"@, tls_line: l.line, ..r })
    } else if prop == "tls.certresolver"@ {
        set(RouterV { certresolver: Some((l.value, l.line)), ..r })
    } else if prop == "service"@ {
        set(RouterV { service: Some(l.value), ..r })
    } else if prop == "entrypoints"@ {
        LabelsV { routing: RoutingV { routers: rs, ..st.routing }, ..st }
    } else if prop == "middlewares"@ {
        say(
            Status::Partial,
            "routers."@ + name + ".middlewares"@,
            "middleware chain referenced — see the per-middleware findings; rate-limit maps to the global [server], strip-prefix is unsupported"@,
        )
    } else {
        say(
            Status::Unsupported,
            "routers."@ + name + "."@ + prop,
            "unrecognised router property"@,
        )
    }
}

pub open spec fn service_label(
    st: LabelsV,
    name: Seq<char>,
    prop: Seq<char>,
    l: LabelV,
) -> LabelsV {
    if prop == "loadbalancer.server.port"@ {
        LabelsV {
            routing: RoutingV {
                ports: with_port(
                    st.routing.ports,
                    PortV { service: name, port: l.value, line: l.line },
                ),
                ..st.routing
            },
            ..st
        }
    } else {
        LabelsV {
            notes: st.notes.push(
                import::note(
                    Status::Partial,
                    l.line,
                    "services."@ + name + "."@ + prop,
                    "only loadbalancer.server.port is converted"@,
                ),
            ),
            ..st
        }
    }
}

pub open spec fn middleware_note(s: Seq<char>, line: int) -> Note {
    let parts = text::split_of(s, '.');
    let kind = if parts.len() > 1 {
        parts[1]
    } else {
        ""@
    };
    let directive = "middlewares."@ + parts[0];
    if kind == "ratelimit"@ {
        import::note(
            Status::Partial,
            line,
            directive,
            "per-route rate limit → Zion only has a global [server].rate_limit_rps"@,
        )
    } else if kind == "stripprefix"@ || kind == "stripprefixregex"@ {
        import::note(
            Status::Unsupported,
            line,
            directive,
            "path rewriting has no Zion equivalent"@,
        )
    } else {
        import::note(
            Status::Unsupported,
            line,
            directive,
            "middleware has no Zion equivalent"@,
        )
    }
}

/// A label that nothing reads: one of the routing families is told of, the
/// others are operational.
pub open spec fn unread_label(st: LabelsV, rest: Seq<char>, line: int) -> LabelsV {
    if text::starts(rest, "http."@) {
        LabelsV {
            notes: st.notes.push(
                import::note(Status::Unsupported, line, rest, "label is not converted"@),
            ),
            ..st
        }
    } else {
        st
    }
}

/// One label of a service.
pub open spec fn label_step(st: LabelsV, l: LabelV) -> LabelsV {
    match text::strip_prefix_of(l.key, "traefik."@) {
        None => st,
        Some(rest) => if rest == "enable"@ {
            LabelsV {
                routing: RoutingV { enable: Some(l.value == "true"@), ..st.routing },
                ..st
            }
        } else {
            match text::strip_prefix_of(rest, "http.routers."@) {
                Some(s) => match text::split_once_of(s, '.') {
                    Some((name, prop)) => router_label(st, name, prop, l),
                    None => unread_label(st, rest, l.line),
                },
                None => match text::strip_prefix_of(rest, "http.services."@) {
                    Some(s) => match text::split_once_of(s, '.') {
                        Some((name, prop)) => service_label(st, name, prop, l),
                        None => unread_label(st, rest, l.line),
                    },
                    None => match text::strip_prefix_of(rest, "http.middlewares."@) {
                        Some(s) => LabelsV {
                            notes: st.notes.push(middleware_note(s, l.line)),
                            ..st
                        },
                        None => if text::starts(rest, "tcp."@) || text::starts(rest, "udp."@) {
                            LabelsV {
                                notes: st.notes.push(
                                    import::note(
                                        Status::Unsupported,
                                        l.line,
                                        "tcp/udp router"@,
                                        "Zion is an L7 proxy — L4 routing is out of scope"@,
                                    ),
                                ),
                                ..st
                            }
                        } else {
                            unread_label(st, rest, l.line)
                        },
                    },
                },
            }
        },
    }
}

pub open spec fn labels_of(st: LabelsV, ls: Seq<LabelV>, n: nat) -> LabelsV
    decreases n,
{
    if n == 0 {
        st
    } else {
        label_step(labels_of(st, ls, (n - 1) as nat), ls[n - 1])
    }
}

/// What the labels of a service route.
pub open spec fn routing_of(svc: ServiceV, notes: Seq<Note>) -> LabelsV {
    labels_of(
        LabelsV {
            routing: RoutingV { enable: None, routers: seq![], ports: seq![] },
            notes,
        },
        svc.labels,
        svc.labels.len(),
    )
}

spec fn labels_view(r: Routing, findings: &Vec<Finding>) -> LabelsV {
    LabelsV { routing: r@, notes: text::views(findings@) }
}

fn router_entry(routers: &mut Vec<Router>, name: &str) -> (r: usize)
    ensures
        text::views(final(routers)@) == with_router(text::views(old(routers)@), name@),
        r == router_slot(text::views(old(routers)@), name@, 0),
        r < final(routers).len(),
{
    let ghost rv = text::views(routers@);
    let mut i: usize = 0;
    while i < routers.len() && is_before(routers[i].name.as_str(), name)
        invariant
            i <= routers.len(),
            rv == text::views(routers@),
            *routers == *old(routers),
            router_slot(rv, name@, 0) == router_slot(rv, name@, i as nat),
        decreases routers.len() - i,
    {
        assert(rv[i as int] == routers@[i as int]@);
        i += 1;
    }
    if i < routers.len() {
        assert(rv[i as int] == routers@[i as int]@);
        if same(routers[i].name.as_str(), name) {
            return i;
        }
    }
    let r = Router {
        name: own(name),
        rule: None,
        tls: false,
        tls_line: 0,
        certresolver: None,
        service: None,
    };
    let ghost nr = r@;
    routers.insert(i, r);
    assert(text::views(routers@) =~= rv.insert(i as int, nr));
    i
}

fn read_router_label(
    r: &mut Routing,
    name: &str,
    prop: &str,
    l: &Label,
    findings: &mut Vec<Finding>,
)
    ensures
        labels_view(*final(r), final(findings)) == router_label(
            labels_view(*old(r), old(findings)),
            name@,
            prop@,
            l@,
        ),
{
    let i: usize = router_entry(&mut r.routers, name);
    let ghost rs = text::views(r.routers@);
    assert(rs[i as int] == r.routers@[i as int]@);
    if same(prop, "rule") {
        r.routers[i].rule = Some((l.value.clone(), l.line));
        assert(text::views(r.routers@) =~= rs.update(i as int, r.routers@[i as int]@));
    } else if same(prop, "tls") {
        r.routers[i].tls = same(l.value.as_str(), "true");
        r.routers[i].tls_line = l.line;
        assert(text::views(r.routers@) =~= rs.update(i as int, r.routers@[i as int]@));
    } else if same(prop, "tls.certresolver") {
        r.routers[i].certresolver = Some((l.value.clone(), l.line));
        assert(text::views(r.routers@) =~= rs.update(i as int, r.routers@[i as int]@));
    } else if same(prop, "service") {
        r.routers[i].service = Some(l.value.clone());
        assert(text::views(r.routers@) =~= rs.update(i as int, r.routers@[i as int]@));
    } else if same(prop, "entrypoints") {
    } else if same(prop, "middlewares") {
        let directive = cat3("routers.", name, ".middlewares");
        file(
            findings,
            Status::Partial,
            l.line,
            directive.as_str(),
            "middleware chain referenced — see the per-middleware findings; rate-limit maps to the global [server], strip-prefix is unsupported",
        );
    } else {
        let directive = cat4("routers.", name, ".", prop);
        file(
            findings,
            Status::Unsupported,
            l.line,
            directive.as_str(),
            "unrecognised router property",
        );
    }
}

fn find_port(ports: &Vec<Port>, service: &str) -> (r: usize)
    ensures
        r == port_index(text::views(ports@), service@, 0),
        r <= ports.len(),
{
    let ghost pv = text::views(ports@);
    let mut i: usize = 0;
    while i < ports.len()
        invariant
            i <= ports.len(),
            pv == text::views(ports@),
            port_index(pv, service@, 0) == port_index(pv, service@, i as nat),
        decreases ports.len() - i,
    {
        assert(pv[i as int] == ports@[i as int]@);
        if same(ports[i].service.as_str(), service) {
            return i;
        }
        i += 1;
    }
    i
}

fn set_port(ports: &mut Vec<Port>, p: Port)
    ensures
        text::views(final(ports)@) == with_port(text::views(old(ports)@), p@),
{
    let ghost pv = text::views(ports@);
    let ghost np = p@;
    let i: usize = find_port(ports, p.service.as_str());
    if i < ports.len() {
        ports[i] = p;
        assert(text::views(ports@) =~= pv.update(i as int, np));
    } else {
        ports.push(p);
    }
}

fn file_unread_label(rest: &str, line: u32, findings: &mut Vec<Finding>)
    ensures
        forall|st: LabelsV|
            st.notes == text::views(old(findings)@) ==> #[trigger] unread_label(
                st,
                rest@,
                line as int,
            ) == (LabelsV { notes: text::views(final(findings)@), ..st }),
{
    if starts_with(rest, "http.") {
        file(findings, Status::Unsupported, line, rest, "label is not converted");
    }
}

fn read_label(r: &mut Routing, l: &Label, findings: &mut Vec<Finding>)
    ensures
        labels_view(*final(r), final(findings)) == label_step(
            labels_view(*old(r), old(findings)),
            l@,
        ),
{
    let rest = match strip_prefix(l.key.as_str(), "traefik.") {
        Some(rest) => rest,
        None => {
            return;
        },
    };
    if same(rest.as_str(), "enable") {
        r.enable = Some(same(l.value.as_str(), "true"));
        return;
    }
    match strip_prefix(rest.as_str(), "http.routers.") {
        Some(s) => {
            match split_once(s.as_str(), '.') {
                Some((name, prop)) => {
                    read_router_label(r, name.as_str(), prop.as_str(), l, findings);
                },
                None => {
                    file_unread_label(rest.as_str(), l.line, findings);
                },
            }
            return;
        },
        None => {},
    }
    match strip_prefix(rest.as_str(), "http.services.") {
        Some(s) => {
            match split_once(s.as_str(), '.') {
                Some((name, prop)) => {
                    if same(prop.as_str(), "loadbalancer.server.port") {
                        set_port(
                            &mut r.ports,
                            Port { service: name, port: l.value.clone(), line: l.line },
                        );
                    } else {
                        let directive = cat4("services.", name.as_str(), ".", prop.as_str());
                        file(
                            findings,
                            Status::Partial,
                            l.line,
                            directive.as_str(),
                            "only loadbalancer.server.port is converted",
                        );
                    }
                },
                None => {
                    file_unread_label(rest.as_str(), l.line, findings);
                },
            }
            return;
        },
        None => {},
    }
    match strip_prefix(rest.as_str(), "http.middlewares.") {
        Some(s) => {
            let parts = split(s.as_str(), '.');
            let ghost pv = text::views(parts@);
            assert(pv[0] == parts@[0]@);
            let kind: &str = if parts.len() > 1 {
                assert(pv[1] == parts@[1]@);
                parts[1].as_str()
            } else {
                ""
            };
            let directive = cat2("middlewares.", parts[0].as_str());
            let (status, why) = if same(kind, "ratelimit") {
                (
                    Status::Partial,
                    "per-route rate limit → Zion only has a global [server].rate_limit_rps",
                )
            } else if same(kind, "stripprefix") || same(kind, "stripprefixregex") {
                (Status::Unsupported, "path rewriting has no Zion equivalent")
            } else {
                (Status::Unsupported, "middleware has no Zion equivalent")
            };
            file(findings, status, l.line, directive.as_str(), why);
            return;
        },
        None => {},
    }
    if starts_with(rest.as_str(), "tcp.") || starts_with(rest.as_str(), "udp.") {
        file(
            findings,
            Status::Unsupported,
            l.line,
            "tcp/udp router",
            "Zion is an L7 proxy — L4 routing is out of scope",
        );
    } else {
        file_unread_label(rest.as_str(), l.line, findings);
    }
}

pub fn collect_routing(svc: &Service, findings: &mut Vec<Finding>) -> (r: Routing)
    ensures
        (LabelsV { routing: r@, notes: text::views(final(findings)@) }) == routing_of(
            svc@,
            text::views(old(findings)@),
        ),
{
    let mut r = Routing { enable: None, routers: Vec::new(), ports: Vec::new() };
    let ghost st = LabelsV {
        routing: RoutingV { enable: None, routers: seq![], ports: seq![] },
        notes: text::views(findings@),
    };
    assert(r@ =~= st.routing);
    let mut i: usize = 0;
    while i < svc.labels.len()
        invariant
            i <= svc.labels.len(),
            labels_view(r, findings) == labels_of(st, svc@.labels, i as nat),
        decreases svc.labels.len() - i,
    {
        assert(svc@.labels[i as int] == svc.labels@[i as int]@);
        read_label(&mut r, &svc.labels[i], findings);
        i += 1;
    }
    r
}

// ── Routes ──────────────────────────────────────────────────────────────
/// The upstream port of a router: its `.service` override's, else that of the
/// service named after the router, else the container's sole port.
pub open spec fn port_of(routing: RoutingV, r: RouterV) -> Option<PortV> {
    let key = match r.service {
        Some(s) => s,
        None => r.name,
    };
    let i = port_index(routing.ports, key, 0);
    if i < routing.ports.len() {
        Some(routing.ports[i as int])
    } else if routing.ports.len() == 1 {
        Some(routing.ports[0])
    } else {
        None
    }
}

pub open spec fn resolved_port(
    routing: RoutingV,
    r: RouterV,
    vars: Seq<VarV>,
    notes: Seq<Note>,
) -> (Option<Seq<char>>, Seq<Note>) {
    match port_of(routing, r) {
        None => (None, notes),
        Some(p) => env::interpolated(
            p.port,
            vars,
            p.line,
            "loadbalancer.server.port"@,
            notes,
        ),
    }
}

fn resolve_port(routing: &Routing, r: &Router, env: &Env, findings: &mut Vec<Finding>) -> (o: Option<
    String,
>)
    ensures
        (text::opt(o), text::views(final(findings)@)) == resolved_port(
            routing@,
            r@,
            env.vars_view(),
            text::views(old(findings)@),
        ),
{
    let key: &str = match &r.service {
        Some(s) => s.as_str(),
        None => r.name.as_str(),
    };
    let i: usize = find_port(&routing.ports, key);
    if i < routing.ports.len() {
        let p: &Port = &routing.ports[i];
        assert(routing@.ports[i as int] == p@);
        interpolate(p.port.as_str(), env, p.line, "loadbalancer.server.port", findings)
    } else if routing.ports.len() == 1 {
        let p: &Port = &routing.ports[0];
        assert(routing@.ports[0] == p@);
        interpolate(p.port.as_str(), env, p.line, "loadbalancer.server.port", findings)
    } else {
        None
    }
}

/// The document and the notes so far.
#[verifier::ext_equal]
pub struct BuiltV {
    pub upstreams: Seq<UpstreamV>,
    pub routes: Seq<RouteV>,
    /// The upstream names emitted so far.
    pub seen: Seq<Seq<char>>,
    pub notes: Seq<Note>,
}

/// The note on the certificate of a router, if it has TLS.
pub open spec fn tls_notes(r: RouterV, acme_email: Option<Seq<char>>, notes: Seq<Note>) -> Seq<Note> {
    match r.certresolver {
        Some((resolver, line)) => notes.push(
            import::note(
                Status::Partial,
                line,
                "routers."@ + r.name + ".tls.certresolver="@ + resolver,
                "Traefik ACME → Zion emits a placeholder cert. For automatic HTTPS add [tls.acme] (email = \""@
                    + (match acme_email {
                    Some(e) => e,
                    None => "you@example.com"@,
                })
                    + "\", domains = the route hosts) or run `zion init`; if the origin is a certificate manager, point [tls] at its cert instead"@,
            ),
        ),
        None => if r.tls {
            notes.push(
                import::note(
                    Status::Partial,
                    r.tls_line,
                    "routers."@ + r.name + ".tls=true"@,
                    "TLS enabled at the entrypoint — Zion emits a placeholder cert; set [tls] cert_path/key_path or [tls.acme], or run `zion init`"@,
                ),
            )
        } else {
            notes
        },
    }
}

/// A router whose rule was read, on an upstream port.
pub open spec fn emit_route(
    b: BuiltV,
    svc: ServiceV,
    r: RouterV,
    rule: RuleV,
    line: int,
    port: Seq<char>,
    acme_email: Option<Seq<char>>,
    notes: Seq<Note>,
) -> BuiltV {
    let name = upstream_name(svc.name);
    let path = route_path(rule.path);
    BuiltV {
        upstreams: if b.seen.contains(name) {
            b.upstreams
        } else {
            b.upstreams.push(
                UpstreamV {
                    name,
                    urls: seq!["http://"@ + svc.name + ":"@ + port],
                    connect_timeout_ms: None,
                    keepalive: None,
                },
            )
        },
        seen: if b.seen.contains(name) {
            b.seen
        } else {
            b.seen.push(name)
        },
        routes: b.routes.push(
            RouteV {
                path,
                hosts: if rule.hosts.len() == 0 {
                    None
                } else {
                    Some(rule.hosts)
                },
                upstream: name,
                websocket: false,
                csp: None,
                waf: false,
                serve_dir: None,
                spa_fallback: false,
                annotations: seq![],
            },
        ),
        notes: tls_notes(r, acme_email, notes).push(
            import::note(
                Status::Convert,
                line,
                "routers."@ + r.name,
                "→ route "@ + path + " upstream '"@ + name + "'"@,
            ),
        ),
    }
}

/// One router of a service.
pub open spec fn route_step(
    b: BuiltV,
    svc: ServiceV,
    r: RouterV,
    routing: RoutingV,
    acme_email: Option<Seq<char>>,
    vars: Seq<VarV>,
) -> BuiltV {
    match r.rule {
        None => BuiltV {
            notes: b.notes.push(
                import::note(
                    Status::Unsupported,
                    svc.line,
                    "routers."@ + r.name,
                    "router has no rule — nothing to match on"@,
                ),
            ),
            ..b
        },
        Some((raw, line)) => match rule_of(raw, vars, line, b.notes) {
            (None, f) => BuiltV { notes: f, ..b },
            (Some(rule), f) => if rule.acme_challenge {
                BuiltV {
                    notes: f.push(
                        import::note(
                            Status::Auto,
                            line,
                            "routers."@ + r.name,
                            "ACME HTTP-01 challenge is answered in memory by Zion before routing — router dropped"@,
                        ),
                    ),
                    ..b
                }
            } else {
                match resolved_port(routing, r, vars, f) {
                    (None, f2) => BuiltV {
                        notes: f2.push(
                            import::note(
                                Status::Unsupported,
                                svc.line,
                                "routers."@ + r.name,
                                "no `loadbalancer.server.port` for service '"@ + svc.name
                                    + "' — cannot build an upstream"@,
                            ),
                        ),
                        ..b
                    },
                    (Some(port), f2) => emit_route(
                        b,
                        svc,
                        r,
                        rule,
                        line,
                        port,
                        acme_email,
                        f2,
                    ),
                }
            },
        },
    }
}

pub open spec fn routers_of(
    b: BuiltV,
    svc: ServiceV,
    routing: RoutingV,
    n: nat,
    acme_email: Option<Seq<char>>,
    vars: Seq<VarV>,
) -> BuiltV
    decreases n,
{
    if n == 0 {
        b
    } else {
        route_step(
            routers_of(b, svc, routing, (n - 1) as nat, acme_email, vars),
            svc,
            routing.routers[n - 1],
            routing,
            acme_email,
            vars,
        )
    }
}

/// One service: only those that are explicitly enabled are routed.
pub open spec fn service_step(
    b: BuiltV,
    svc: ServiceV,
    acme_email: Option<Seq<char>>,
    vars: Seq<VarV>,
) -> BuiltV {
    if traefik_service(svc) {
        b
    } else {
        let l = routing_of(svc, b.notes);
        let b1 = BuiltV { notes: l.notes, ..b };
        if l.routing.enable == Some(true) {
            routers_of(b1, svc, l.routing, l.routing.routers.len(), acme_email, vars)
        } else {
            b1
        }
    }
}

pub open spec fn services_of(
    b: BuiltV,
    ss: Seq<ServiceV>,
    n: nat,
    acme_email: Option<Seq<char>>,
    vars: Seq<VarV>,
) -> BuiltV
    decreases n,
{
    if n == 0 {
        b
    } else {
        service_step(
            services_of(b, ss, (n - 1) as nat, acme_email, vars),
            ss[n - 1],
            acme_email,
            vars,
        )
    }
}

/// The document of a compose file.
pub open spec fn build_of(ss: Seq<ServiceV>, vars: Seq<VarV>, notes: Seq<Note>) -> (
    DocV,
    Seq<Note>,
) {
    let st = static_of(ss, vars, notes);
    let b = services_of(
        BuiltV { upstreams: seq![], routes: seq![], seen: seq![], notes: st.notes },
        ss,
        ss.len(),
        st.acme_email,
        vars,
    );
    (
        DocV {
            listen_http: st.http,
            listen_https: st.https,
            upstreams: b.upstreams,
            routes: b.routes,
            ..import::map::empty_doc()
        },
        b.notes,
    )
}

struct Built {
    upstreams: Vec<UpstreamOut>,
    routes: Vec<RouteOut>,
    seen: Vec<String>,
}

spec fn built_view(b: Built, findings: &Vec<Finding>) -> BuiltV {
    BuiltV {
        upstreams: text::views(b.upstreams@),
        routes: text::views(b.routes@),
        seen: text::views(b.seen@),
        notes: text::views(findings@),
    }
}

fn file_tls_notes(r: &Router, acme_email: &Option<String>, findings: &mut Vec<Finding>)
    ensures
        text::views(final(findings)@) == tls_notes(
            r@,
            text::opt(*acme_email),
            text::views(old(findings)@),
        ),
{
    match &r.certresolver {
        Some((resolver, line)) => {
            let email: &str = match acme_email {
                Some(e) => e.as_str(),
                None => "you@example.com",
            };
            let directive = cat4(
                "routers.",
                r.name.as_str(),
                ".tls.certresolver=",
                resolver.as_str(),
            );
            let why = cat3(
                "Traefik ACME → Zion emits a placeholder cert. For automatic HTTPS add [tls.acme] (email = \"",
                email,
                "\", domains = the route hosts) or run `zion init`; if the origin is a certificate manager, point [tls] at its cert instead",
            );
            file(findings, Status::Partial, *line, directive.as_str(), why.as_str());
        },
        None => {
            if r.tls {
                let directive = cat3("routers.", r.name.as_str(), ".tls=true");
                file(
                    findings,
                    Status::Partial,
                    r.tls_line,
                    directive.as_str(),
                    "TLS enabled at the entrypoint — Zion emits a placeholder cert; set [tls] cert_path/key_path or [tls.acme], or run `zion init`",
                );
            }
        },
    }
}

fn build_route(
    b: &mut Built,
    svc: &Service,
    r: &Router,
    routing: &Routing,
    acme_email: &Option<String>,
    env: &Env,
    findings: &mut Vec<Finding>,
)
    ensures
        built_view(*final(b), final(findings)) == route_step(
            built_view(*old(b), old(findings)),
            svc@,
            r@,
            routing@,
            text::opt(*acme_email),
            env.vars_view(),
        ),
{
    let directive = cat2("routers.", r.name.as_str());
    let (raw, line): (&str, u32) = match &r.rule {
        Some((raw, line)) => (raw.as_str(), *line),
        None => {
            file(
                findings,
                Status::Unsupported,
                svc.line,
                directive.as_str(),
                "router has no rule — nothing to match on",
            );
            return;
        },
    };
    let rule = match parse_rule(raw, line, env, findings) {
        Some(p) => p,
        None => {
            return;
        },
    };
    if rule.acme_challenge {
        file(
            findings,
            Status::Auto,
            line,
            directive.as_str(),
            "ACME HTTP-01 challenge is answered in memory by Zion before routing — router dropped",
        );
        return;
    }
    let port = match resolve_port(routing, r, env, findings) {
        Some(p) => p,
        None => {
            let why = cat3(
                "no `loadbalancer.server.port` for service '",
                svc.name.as_str(),
                "' — cannot build an upstream",
            );
            file(findings, Status::Unsupported, svc.line, directive.as_str(), why.as_str());
            return;
        },
    };
    let name = sanitize_name(svc.name.as_str());
    if !list_has(&b.seen, name.as_str()) {
        let url = cat4("http://", svc.name.as_str(), ":", port.as_str());
        let ghost uv = url@;
        let u = UpstreamOut {
            name: name.clone(),
            urls: vec![url],
            connect_timeout_ms: None,
            keepalive: None,
        };
        assert(u@.urls =~= seq![uv]);
        b.upstreams.push(u);
        b.seen.push(name.clone());
    }
    file_tls_notes(r, acme_email, findings);
    let path = to_zion_path(&rule.path);
    let what = cat5("→ route ", path.as_str(), " upstream '", name.as_str(), "'");
    file(findings, Status::Convert, line, directive.as_str(), what.as_str());
    let hosts = if rule.hosts.len() == 0 {
        None
    } else {
        Some(rule.hosts)
    };
    let route = RouteOut {
        path,
        hosts,
        upstream: name,
        websocket: false,
        csp: None,
        waf: false,
        serve_dir: None,
        spa_fallback: false,
        annotations: Vec::new(),
    };
    assert(route@.annotations =~= seq![]);
    b.routes.push(route);
}

fn build_service(
    b: &mut Built,
    svc: &Service,
    acme_email: &Option<String>,
    env: &Env,
    findings: &mut Vec<Finding>,
)
    ensures
        built_view(*final(b), final(findings)) == service_step(
            built_view(*old(b), old(findings)),
            svc@,
            text::opt(*acme_email),
            env.vars_view(),
        ),
{
    if is_traefik_service(svc) {
        return;
    }
    let routing = collect_routing(svc, findings);
    match routing.enable {
        Some(true) => {},
        _ => {
            return;
        },
    }
    let ghost b1 = built_view(*b, findings);
    let mut i: usize = 0;
    while i < routing.routers.len()
        invariant
            i <= routing.routers.len(),
            built_view(*b, findings) == routers_of(
                b1,
                svc@,
                routing@,
                i as nat,
                text::opt(*acme_email),
                env.vars_view(),
            ),
        decreases routing.routers.len() - i,
    {
        assert(routing@.routers[i as int] == routing.routers@[i as int]@);
        build_route(b, svc, &routing.routers[i], &routing, acme_email, env, findings);
        i += 1;
    }
}

pub fn build(compose_file: &ComposeFile, env: &Env, findings: &mut Vec<Finding>) -> (r: ZionDoc)
    ensures
        (r@, text::views(final(findings)@)) == build_of(
            text::views(compose_file.services@),
            env.vars_view(),
            text::views(old(findings)@),
        ),
{
    let mut doc = new_doc();
    let statics = parse_static(&compose_file.services, env, findings);
    let mut b = Built { upstreams: Vec::new(), routes: Vec::new(), seen: Vec::new() };
    let ghost sv = text::views(compose_file.services@);
    let ghost start = BuiltV {
        upstreams: seq![],
        routes: seq![],
        seen: seq![],
        notes: text::views(findings@),
    };
    assert(built_view(b, findings) =~= start);
    let mut i: usize = 0;
    while i < compose_file.services.len()
        invariant
            i <= compose_file.services.len(),
            sv == text::views(compose_file.services@),
            built_view(b, findings) == services_of(
                start,
                sv,
                i as nat,
                text::opt(statics.acme_email),
                env.vars_view(),
            ),
        decreases compose_file.services.len() - i,
    {
        assert(sv[i as int] == compose_file.services@[i as int]@);
        build_service(&mut b, &compose_file.services[i], &statics.acme_email, env, findings);
        i += 1;
    }
    doc.listen_http = statics.http;
    doc.listen_https = statics.https;
    doc.upstreams = b.upstreams;
    doc.routes = b.routes;
    doc
}

/// The conversion of a compose file with Traefik labels.
pub open spec fn convert_of(src: Seq<char>, vars: Seq<VarV>) -> Outcome {
    match compose::parse_of(src) {
        Err(f) => Outcome::Parse(nginx::fault_text(f)),
        Ok(ss) => {
            let (doc, notes) = build_of(ss, vars, seq![]);
            import::finish_of(doc, notes)
        },
    }
}

/// Converts a compose file with Traefik labels. `dotenv` is the text of the
/// `.env` file beside it, `overrides` are `KEY=VALUE` settings that win over it.
pub fn convert(src: &str, dotenv: Option<&str>, overrides: &Vec<(String, String)>) -> (r: Result<
    Conversion,
    ConvertError,
>)
    requires
        src@.len() < u32::MAX,
    ensures
        import::outcome(r) == convert_of(
            src@,
            env::loaded(
                match dotenv {
                    Some(c) => Some(c@),
                    None => None,
                },
                env::pairs_of(overrides@),
            ),
        ),
{
    let compose_file = match compose::parse(src) {
        Ok(f) => f,
        Err(e) => {
            return Err(ConvertError::Parse(e.to_text()));
        },
    };
    let env = Env::load(dotenv, overrides);
    let mut findings: Vec<Finding> = Vec::new();
    assert(text::views(findings@) =~= seq![]);
    let doc = build(&compose_file, &env, &mut findings);
    finish_conversion(doc, findings)
}

// ── Laws ────────────────────────────────────────────────────────────────
/// Routers in the order of their names, no name twice.
pub open spec fn ordered(rs: Seq<RouterV>) -> bool {
    forall|i: int, j: int|
        0 <= i < j < rs.len() ==> text::precedes(
            (#[trigger] rs[i]).name,
            (#[trigger] rs[j]).name,
        )
}

/// One port per service.
pub open spec fn one_port_each(ports: Seq<PortV>) -> bool {
    forall|i: int, j: int|
        0 <= i < j < ports.len() ==> (#[trigger] ports[i]).service != (#[trigger] ports[j]).service
}

proof fn lemma_slot(rs: Seq<RouterV>, name: Seq<char>, i: nat)
    requires
        i <= rs.len(),
        forall|j: int| 0 <= j < i ==> text::precedes((#[trigger] rs[j]).name, name),
    ensures
        i <= router_slot(rs, name, i) <= rs.len(),
        forall|j: int|
            0 <= j < router_slot(rs, name, i) ==> text::precedes((#[trigger] rs[j]).name, name),
        router_slot(rs, name, i) < rs.len() ==> !text::precedes(
            rs[router_slot(rs, name, i) as int].name,
            name,
        ),
    decreases rs.len() - i,
{
    if i < rs.len() && text::precedes(rs[i as int].name, name) {
        lemma_slot(rs, name, i + 1);
    }
}

proof fn lemma_with_router(rs: Seq<RouterV>, name: Seq<char>)
    requires
        ordered(rs),
    ensures
        ordered(with_router(rs, name)),
        router_slot(rs, name, 0) < with_router(rs, name).len(),
        with_router(rs, name)[router_slot(rs, name, 0) as int].name == name,
{
    lemma_slot(rs, name, 0);
    let k = router_slot(rs, name, 0) as int;
    let after = with_router(rs, name);
    if !(k < rs.len() && rs[k].name == name) {
        assert(after == rs.insert(k, new_router(name)));
        if k < rs.len() {
            assert(rs[k].name.subrange(0, 0) =~= name.subrange(0, 0));
            if !text::precedes(name, rs[k].name) {
                text::lemma_order_total(rs[k].name, name, 0);
            }
        }
        assert forall|i: int, j: int| 0 <= i < j < after.len() implies text::precedes(
            (#[trigger] after[i]).name,
            (#[trigger] after[j]).name,
        ) by {
            if j < k {
                assert(after[i] == rs[i] && after[j] == rs[j]);
            } else if j == k {
                assert(after[i] == rs[i]);
            } else {
                assert(after[j] == rs[j - 1]);
                if i < k {
                    assert(after[i] == rs[i]);
                } else if i == k {
                    if j - 1 > k {
                        text::lemma_order_chain(name, rs[k].name, rs[j - 1].name, 0);
                    }
                } else {
                    assert(after[i] == rs[i - 1]);
                }
            }
        }
    }
}

proof fn lemma_with_port(ports: Seq<PortV>, p: PortV)
    requires
        one_port_each(ports),
    ensures
        one_port_each(with_port(ports, p)),
{
    lemma_port_index(ports, p.service, 0);
    let k = port_index(ports, p.service, 0) as int;
    let after = with_port(ports, p);
    assert forall|i: int, j: int| 0 <= i < j < after.len() implies (#[trigger] after[i]).service != (
    #[trigger] after[j]).service by {
        if i < ports.len() && i != k {
            assert(after[i] == ports[i]);
        }
        if j < ports.len() && j != k {
            assert(after[j] == ports[j]);
        }
        if k < ports.len() {
            assert(after[k].service == ports[k].service);
        }
    }
}

proof fn lemma_port_index(ports: Seq<PortV>, service: Seq<char>, i: nat)
    requires
        i <= ports.len(),
        forall|j: int| 0 <= j < i ==> (#[trigger] ports[j]).service != service,
    ensures
        i <= port_index(ports, service, i) <= ports.len(),
        forall|j: int|
            0 <= j < port_index(ports, service, i) ==> (#[trigger] ports[j]).service != service,
        port_index(ports, service, i) < ports.len() ==> ports[port_index(
            ports,
            service,
            i,
        ) as int].service == service,
    decreases ports.len() - i,
{
    if i < ports.len() && ports[i as int].service != service {
        lemma_port_index(ports, service, i + 1);
    }
}

proof fn lemma_router_label(st: LabelsV, name: Seq<char>, prop: Seq<char>, l: LabelV)
    requires
        ordered(st.routing.routers),
    ensures
        ordered(router_label(st, name, prop, l).routing.routers),
        router_label(st, name, prop, l).routing.ports == st.routing.ports,
{
    lemma_with_router(st.routing.routers, name);
    let rs = with_router(st.routing.routers, name);
    let k = router_slot(st.routing.routers, name, 0) as int;
    let after = router_label(st, name, prop, l).routing.routers;
    assert(after.len() == rs.len());
    assert forall|i: int| 0 <= i < rs.len() implies (#[trigger] after[i]).name == rs[i].name by {
        if i != k {
            assert(after[i] == rs[i]);
        }
    }
    assert forall|i: int, j: int| 0 <= i < j < after.len() implies text::precedes(
        (#[trigger] after[i]).name,
        (#[trigger] after[j]).name,
    ) by {
        assert(text::precedes(rs[i].name, rs[j].name));
    }
}

proof fn lemma_labels(st: LabelsV, ls: Seq<LabelV>, n: nat)
    requires
        n <= ls.len(),
        ordered(st.routing.routers),
        one_port_each(st.routing.ports),
    ensures
        ordered(labels_of(st, ls, n).routing.routers),
        one_port_each(labels_of(st, ls, n).routing.ports),
    decreases n,
{
    if n > 0 {
        lemma_labels(st, ls, (n - 1) as nat);
        let s0 = labels_of(st, ls, (n - 1) as nat);
        let l = ls[n - 1];
        if let Some(rest) = text::strip_prefix_of(l.key, "traefik."@) {
            if let Some(s) = text::strip_prefix_of(rest, "http.routers."@) {
                if let Some((name, prop)) = text::split_once_of(s, '.') {
                    lemma_router_label(s0, name, prop, l);
                }
            } else if let Some(s) = text::strip_prefix_of(rest, "http.services."@) {
                if let Some((name, prop)) = text::split_once_of(s, '.') {
                    lemma_with_port(
                        s0.routing.ports,
                        PortV { service: name, port: l.value, line: l.line },
                    );
                }
            }
        }
    }
}

/// However its labels are ordered, a service has its routers in the order of
/// their names, none twice, and at most one port for each service name.
pub proof fn law_routers_are_in_order(svc: ServiceV, notes: Seq<Note>)
    ensures
        ordered(routing_of(svc, notes).routing.routers),
        one_port_each(routing_of(svc, notes).routing.ports),
{
    lemma_labels(
        LabelsV {
            routing: RoutingV { enable: None, routers: seq![], ports: seq![] },
            notes,
        },
        svc.labels,
        svc.labels.len(),
    );
}

/// The router properties that are read.
pub open spec fn read_property(prop: Seq<char>) -> bool {
    ||| prop == "rule"@
    ||| prop == "tls"@
    ||| prop == "tls.certresolver"@
    ||| prop == "service"@
    ||| prop == "entrypoints"@
}

/// A router or service label that is not read is told of, on its line; what was
/// told before stays.
pub proof fn law_unread_labels_are_told(
    st: LabelsV,
    name: Seq<char>,
    prop: Seq<char>,
    l: LabelV,
)
    ensures
        ({
            let after = router_label(st, name, prop, l).notes;
            if read_property(prop) {
                after == st.notes
            } else {
                &&& after.len() == st.notes.len() + 1
                &&& after.subrange(0, st.notes.len() as int) == st.notes
                &&& after.last().line == l.line
                &&& after.last().status == Status::Partial || after.last().status
                    == Status::Unsupported
                &&& after.last().directive == "routers."@ + name + "."@ + prop
            }
        }),
        ({
            let after = service_label(st, name, prop, l).notes;
            if prop == "loadbalancer.server.port"@ {
                after == st.notes
            } else {
                &&& after.len() == st.notes.len() + 1
                &&& after.subrange(0, st.notes.len() as int) == st.notes
                &&& after.last().line == l.line
                &&& after.last().status == Status::Partial
                &&& after.last().directive == "services."@ + name + "."@ + prop
            }
        }),
{
    let a = router_label(st, name, prop, l).notes;
    let b = service_label(st, name, prop, l).notes;
    reveal_strlit(".middlewares");
    reveal_strlit(".");
    reveal_strlit("middlewares");
    assert(".middlewares"@ =~= "."@ + "middlewares"@);
    assert("routers."@ + name + ".middlewares"@ =~= "routers."@ + name + "."@ + "middlewares"@);
    assert(a.len() == st.notes.len() + 1 ==> a.subrange(0, st.notes.len() as int) =~= st.notes);
    assert(b.len() == st.notes.len() + 1 ==> b.subrange(0, st.notes.len() as int) =~= st.notes);
}

/// A label that a route is made of.
pub open spec fn routing_label(key: Seq<char>) -> bool {
    match text::strip_prefix_of(key, "traefik."@) {
        None => false,
        Some(rest) => match text::strip_prefix_of(rest, "http.routers."@) {
            Some(s) => text::split_once_of(s, '.') matches Some((name, prop)) && read_property(prop),
            None => match text::strip_prefix_of(rest, "http.services."@) {
                Some(s) => text::split_once_of(s, '.') matches Some((name, prop)) && prop
                    == "loadbalancer.server.port"@,
                None => false,
            },
        },
    }
}

/// Every `traefik.http.` label is read, or told of on its line by one note; what
/// was told before stays.
pub proof fn law_http_labels_are_told(st: LabelsV, l: LabelV)
    requires
        text::starts(l.key, "traefik.http."@),
    ensures
        ({
            let after = label_step(st, l).notes;
            if routing_label(l.key) {
                after == st.notes
            } else {
                &&& after.len() == st.notes.len() + 1
                &&& honesty::grown(st.notes, after)
                &&& after.last().line == l.line
                &&& after.last().status == Status::Partial || after.last().status
                    == Status::Unsupported
            }
        }),
{
    let key = l.key;
    reveal_strlit("traefik.");
    reveal_strlit("traefik.http.");
    reveal_strlit("http.");
    reveal_strlit("enable");
    reveal_strlit("tcp.");
    reveal_strlit("udp.");
    assert(key.subrange(0, 8) =~= "traefik."@) by {
        assert("traefik.http."@.subrange(0, 8) =~= "traefik."@);
        assert(key.subrange(0, 13).subrange(0, 8) =~= key.subrange(0, 8));
    }
    let rest = key.subrange(8, key.len() as int);
    assert(rest.subrange(0, 5) =~= "http."@) by {
        assert("traefik.http."@.subrange(8, 13) =~= "http."@);
        assert(key.subrange(0, 13).subrange(8, 13) =~= rest.subrange(0, 5));
    }
    assert(rest[0] == 'h') by {
        assert(rest.subrange(0, 5)[0] == rest[0]);
    }
    assert(!text::starts(rest, "tcp."@)) by {
        if text::starts(rest, "tcp."@) {
            assert(rest.subrange(0, 4)[0] == rest[0]);
        }
    }
    assert(!text::starts(rest, "udp."@)) by {
        if text::starts(rest, "udp."@) {
            assert(rest.subrange(0, 4)[0] == rest[0]);
        }
    }
    if let Some(s) = text::strip_prefix_of(rest, "http.routers."@) {
        if let Some((name, prop)) = text::split_once_of(s, '.') {
            law_unread_labels_are_told(st, name, prop, l);
            lemma_prefix_grown(st.notes, router_label(st, name, prop, l).notes);
        }
    } else if let Some(s) = text::strip_prefix_of(rest, "http.services."@) {
        if let Some((name, prop)) = text::split_once_of(s, '.') {
            law_unread_labels_are_told(st, name, prop, l);
            lemma_prefix_grown(st.notes, service_label(st, name, prop, l).notes);
        }
    }
}

proof fn lemma_prefix_grown(a: Seq<Note>, b: Seq<Note>)
    ensures
        b.len() == a.len() + 1 && b.subrange(0, a.len() as int) == a ==> honesty::grown(a, b),
{
    if b.len() == a.len() + 1 && b.subrange(0, a.len() as int) == a {
        assert forall|i: int| 0 <= i < a.len() implies #[trigger] a[i] == b[i] by {
            assert(b.subrange(0, a.len() as int)[i] == b[i]);
        }
    }
}

/// Only a service that says so is exposed.
pub proof fn law_only_enabled_services_are_routed(
    b: BuiltV,
    svc: ServiceV,
    acme_email: Option<Seq<char>>,
    vars: Seq<VarV>,
)
    requires
        routing_of(svc, b.notes).routing.enable != Some(true),
    ensures
        service_step(b, svc, acme_email, vars).routes == b.routes,
        service_step(b, svc, acme_email, vars).upstreams == b.upstreams,
{
}

proof fn lemma_hosts_told(
    hosts: Seq<Seq<char>>,
    args: Seq<Seq<char>>,
    n: nat,
    vars: Seq<VarV>,
    line: int,
    notes: Seq<Note>,
)
    ensures
        ({
            let (h, f) = hosts_from(hosts, args, n, vars, line, notes);
            &&& honesty::grown(notes, f)
            &&& h is None ==> f.len() > notes.len()
        }),
    decreases n,
{
    if n > 0 {
        let k = (n - 1) as nat;
        lemma_hosts_told(hosts, args, k, vars, line, notes);
        let f = hosts_from(hosts, args, k, vars, line, notes).1;
        env::law_unresolved_variables_are_told(args[k as int], vars, line, "rule: Host"@, f);
    }
}

proof fn lemma_term_told(
    r: RuleV,
    raw: Seq<char>,
    vars: Seq<VarV>,
    line: int,
    notes: Seq<Note>,
)
    ensures
        ({
            let (o, f) = term_step(r, raw, vars, line, notes);
            &&& honesty::grown(notes, f)
            &&& o is None ==> f.len() > notes.len()
        }),
{
    if let Some((func, args)) = matcher_of(text::trim_of(raw)) {
        lemma_hosts_told(r.hosts, args, args.len(), vars, line, notes);
        env::law_unresolved_variables_are_told(args[0], vars, line, "rule: PathPrefix"@, notes);
        env::law_unresolved_variables_are_told(args[0], vars, line, "rule: Path"@, notes);
    }
}

proof fn lemma_terms_told(
    terms: Seq<Seq<char>>,
    n: nat,
    vars: Seq<VarV>,
    line: int,
    notes: Seq<Note>,
)
    ensures
        ({
            let (o, f) = terms_of(terms, n, vars, line, notes);
            &&& honesty::grown(notes, f)
            &&& o is None ==> f.len() > notes.len()
        }),
    decreases n,
{
    if n > 0 {
        let k = (n - 1) as nat;
        lemma_terms_told(terms, k, vars, line, notes);
        if let (Some(r), f) = terms_of(terms, k, vars, line, notes) {
            lemma_term_told(r, terms[k as int], vars, line, f);
        }
    }
}

/// A rule that is dropped is told of; what was told before stays.
pub proof fn law_dropped_rule_is_told(
    rule: Seq<char>,
    vars: Seq<VarV>,
    line: int,
    notes: Seq<Note>,
)
    ensures
        ({
            let (r, after) = rule_of(rule, vars, line, notes);
            &&& honesty::grown(notes, after)
            &&& r is None ==> after.len() > notes.len()
        }),
{
    let terms = terms_from(rule, 0, 0);
    lemma_terms_told(terms, terms.len(), vars, line, notes);
}

/// A router becomes a route, or the report says why it does not; what was told
/// before stays.
pub proof fn law_dropped_router_is_told(
    b: BuiltV,
    svc: ServiceV,
    r: RouterV,
    routing: RoutingV,
    acme_email: Option<Seq<char>>,
    vars: Seq<VarV>,
)
    ensures
        ({
            let after = route_step(b, svc, r, routing, acme_email, vars);
            &&& honesty::grown(b.notes, after.notes)
            &&& after.routes == b.routes ==> after.notes.len() > b.notes.len()
        }),
{
    if let Some((raw, line)) = r.rule {
        law_dropped_rule_is_told(raw, vars, line, b.notes);
        let f = rule_of(raw, vars, line, b.notes).1;
        if let Some(p) = port_of(routing, r) {
            env::law_unresolved_variables_are_told(
                p.port,
                vars,
                p.line,
                "loadbalancer.server.port"@,
                f,
            );
        }
        let after = route_step(b, svc, r, routing, acme_email, vars);
        assert(honesty::grown(f, after.notes));
    }
}

/// A router becomes a route only with a note, filed last, that says so.
pub proof fn law_route_has_its_note(
    b: BuiltV,
    svc: ServiceV,
    r: RouterV,
    routing: RoutingV,
    acme_email: Option<Seq<char>>,
    vars: Seq<VarV>,
)
    ensures
        ({
            let after = route_step(b, svc, r, routing, acme_email, vars);
            ||| after.routes == b.routes && after.upstreams == b.upstreams
            ||| {
                &&& after.routes.len() == b.routes.len() + 1
                &&& after.routes.subrange(0, b.routes.len() as int) == b.routes
                &&& after.notes.last().status == Status::Convert
                &&& after.notes.last().directive == "routers."@ + r.name
            }
        }),
{
    let after = route_step(b, svc, r, routing, acme_email, vars);
    if after.routes.len() == b.routes.len() + 1 {
        assert(after.routes.subrange(0, b.routes.len() as int) =~= b.routes);
    }
}

/// Every route names an upstream of the document, and no two upstreams have one
/// name.
pub open spec fn routes_resolve(b: BuiltV) -> bool {
    &&& b.seen.len() == b.upstreams.len()
    &&& forall|i: int| 0 <= i < b.seen.len() ==> #[trigger] b.seen[i] == b.upstreams[i].name
    &&& forall|i: int, j: int|
        0 <= i < j < b.seen.len() ==> #[trigger] b.seen[i] != #[trigger] b.seen[j]
    &&& forall|i: int| 0 <= i < b.routes.len() ==> b.seen.contains((#[trigger] b.routes[i]).upstream)
}

proof fn lemma_route_resolves(
    b: BuiltV,
    svc: ServiceV,
    r: RouterV,
    routing: RoutingV,
    acme_email: Option<Seq<char>>,
    vars: Seq<VarV>,
)
    requires
        routes_resolve(b),
    ensures
        routes_resolve(route_step(b, svc, r, routing, acme_email, vars)),
{
    let after = route_step(b, svc, r, routing, acme_email, vars);
    let name = upstream_name(svc.name);
    if after.routes.len() == b.routes.len() + 1 {
        assert forall|i: int| 0 <= i < after.routes.len() implies after.seen.contains(
            (#[trigger] after.routes[i]).upstream,
        ) by {
            if i < b.routes.len() {
                assert(after.routes[i] == b.routes[i]);
                let k = choose|k: int| 0 <= k < b.seen.len() && b.seen[k] == b.routes[i].upstream;
                assert(after.seen[k] == b.seen[k]);
            } else if !b.seen.contains(name) {
                assert(after.seen[b.seen.len() as int] == name);
            }
        }
        assert forall|i: int| 0 <= i < after.seen.len() implies #[trigger] after.seen[i]
            == after.upstreams[i].name by {
            if i < b.seen.len() {
                assert(after.seen[i] == b.seen[i]);
            }
        }
        assert forall|i: int, j: int|
            0 <= i < j < after.seen.len() implies #[trigger] after.seen[i]
            != #[trigger] after.seen[j] by {
            assert(after.seen[i] == b.seen[i]);
            if j < b.seen.len() {
                assert(after.seen[j] == b.seen[j]);
            }
        }
    }
}

proof fn lemma_routers_resolve(
    b: BuiltV,
    svc: ServiceV,
    routing: RoutingV,
    n: nat,
    acme_email: Option<Seq<char>>,
    vars: Seq<VarV>,
)
    requires
        routes_resolve(b),
    ensures
        routes_resolve(routers_of(b, svc, routing, n, acme_email, vars)),
    decreases n,
{
    if n > 0 {
        let k = (n - 1) as nat;
        lemma_routers_resolve(b, svc, routing, k, acme_email, vars);
        lemma_route_resolves(
            routers_of(b, svc, routing, k, acme_email, vars),
            svc,
            routing.routers[k as int],
            routing,
            acme_email,
            vars,
        );
    }
}

proof fn lemma_services_resolve(
    b: BuiltV,
    ss: Seq<ServiceV>,
    n: nat,
    acme_email: Option<Seq<char>>,
    vars: Seq<VarV>,
)
    requires
        routes_resolve(b),
    ensures
        routes_resolve(services_of(b, ss, n, acme_email, vars)),
    decreases n,
{
    if n > 0 {
        let k = (n - 1) as nat;
        lemma_services_resolve(b, ss, k, acme_email, vars);
        let b0 = services_of(b, ss, k, acme_email, vars);
        let svc = ss[k as int];
        let l = routing_of(svc, b0.notes);
        lemma_routers_resolve(
            BuiltV { notes: l.notes, ..b0 },
            svc,
            l.routing,
            l.routing.routers.len(),
            acme_email,
            vars,
        );
    }
}

/// Of a converted compose file, every route names an upstream of the document,
/// and no two upstreams have one name.
pub proof fn law_built_routes_resolve(ss: Seq<ServiceV>, vars: Seq<VarV>, notes: Seq<Note>)
    ensures
        ({
            let doc = build_of(ss, vars, notes).0;
            &&& forall|i: int, j: int|
                0 <= i < j < doc.upstreams.len() ==> (#[trigger] doc.upstreams[i]).name != (
                #[trigger] doc.upstreams[j]).name
            &&& forall|i: int|
                0 <= i < doc.routes.len() ==> exists|k: int|
                    0 <= k < doc.upstreams.len() && (#[trigger] doc.upstreams[k]).name == (
                    #[trigger] doc.routes[i]).upstream
        }),
{
    let st = static_of(ss, vars, notes);
    let b0 = BuiltV { upstreams: seq![], routes: seq![], seen: seq![], notes: st.notes };
    lemma_services_resolve(b0, ss, ss.len(), st.acme_email, vars);
    let b = services_of(b0, ss, ss.len(), st.acme_email, vars);
    let doc = build_of(ss, vars, notes).0;
    assert(doc.upstreams == b.upstreams && doc.routes == b.routes);
    assert forall|i: int, j: int| 0 <= i < j < doc.upstreams.len() implies (
    #[trigger] doc.upstreams[i]).name != (#[trigger] doc.upstreams[j]).name by {
        assert(b.seen[i] != b.seen[j]);
    }
    assert forall|i: int| 0 <= i < doc.routes.len() implies exists|k: int|
        0 <= k < doc.upstreams.len() && (#[trigger] doc.upstreams[k]).name == (
        #[trigger] doc.routes[i]).upstream by {
        assert(b.seen.contains(b.routes[i].upstream));
        let k = choose|k: int| 0 <= k < b.seen.len() && b.seen[k] == b.routes[i].upstream;
        assert(doc.upstreams[k].name == doc.routes[i].upstream);
    }
}

} // verus!
