//! Caddyfile to a Zion document.
//!
//! The reader knows no directives; what Zion supports is the mapper's to decide.
//! Most of a `header` block is built in, `root` with `file_server` becomes a
//! static route, `handle_path` and `respond` have no equivalent, and ACME-managed
//! TLS becomes `[tls.acme]` where a contact address is known.
use self::reader::{Caddyfile, FileV, SiteV, Snippet, SnippetV};
use self::site::{map_site, resolve_hosts};
use self::tls::StateV;
use super::env;
use super::env::{Env, VarV};
use super::map::{new_doc, DocV, ZionDoc};
use super::nginx;
use super::nginx::{Dir, Directive, Fault};
use super::{file, finish_conversion, Conversion, ConvertError, Finding, Note, Outcome, Status};
use crate::import;
use crate::text;
use crate::text::{own, same};
use vstd::prelude::*;

pub mod header;
pub mod honesty;
pub mod laws;
pub mod meaning;
pub mod reader;
pub mod site;
pub mod tls;
pub mod tree;
pub mod vars;

verus! {

broadcast use {crate::text::group_views, crate::import::nginx::lemma_dir_view};

#[derive(Debug)]
pub struct ParseError {
    pub line: u32,
    pub msg: String,
}

impl View for ParseError {
    type V = Fault;

    open spec fn view(&self) -> Fault {
        Fault { line: self.line as int, msg: self.msg@ }
    }
}

impl ParseError {
    /// The error as it is shown to the operator.
    pub fn to_text(&self) -> (r: String)
        ensures
            r@ == nginx::fault_text(self@),
    {
        text::cat4("line ", text::dec_text(self.line as u64).as_str(), ": ", self.msg.as_str())
    }
}

// ── Global options ──────────────────────────────────────────────────────
/// Global options without an effect on routing.
pub open spec fn quiet_option(name: Seq<char>) -> bool {
    ||| name == "admin"@
    ||| name == "debug"@
    ||| name == "log"@
    ||| name == "order"@
    ||| name == "grace_period"@
    ||| name == "storage"@
}

pub open spec fn global_fate(name: Seq<char>) -> (Status, Seq<char>) {
    if name == "auto_https"@ {
        (
            Status::Auto,
            "TLS/HTTPS behavior is driven by Zion's [tls] block, not a global toggle"@,
        )
    } else if quiet_option(name) {
        (Status::Auto, "global option — no routing effect"@)
    } else if name == "servers"@ {
        (
            Status::Partial,
            "global server tuning (timeouts, protocols) has only partial Zion knobs"@,
        )
    } else {
        (Status::Unsupported, "unrecognized global option"@)
    }
}

/// The contact address and the notes after the first `n` global options.
pub open spec fn globals_of(ds: Seq<Dir>, n: nat, notes: Seq<Note>) -> (Option<Seq<char>>, Seq<Note>)
    decreases n,
{
    if n == 0 {
        (None, notes)
    } else {
        let (email, told) = globals_of(ds, (n - 1) as nat, notes);
        let d = ds[n - 1];
        if d.name == "email"@ {
            (
                if d.args.len() > 0 {
                    Some(d.args[0])
                } else {
                    email
                },
                told,
            )
        } else {
            let (status, detail) = global_fate(d.name);
            (email, told.push(import::note(status, d.line, d.name, detail)))
        }
    }
}

fn is_quiet_option(name: &str) -> (r: bool)
    ensures
        r == quiet_option(name@),
{
    same(name, "admin") || same(name, "debug") || same(name, "log") || same(name, "order") || same(
        name,
        "grace_period",
    ) || same(name, "storage")
}

fn note_global(d: &Directive, findings: &mut Vec<Finding>)
    ensures
        text::views(final(findings)@) == text::views(old(findings)@).push(
            import::note(global_fate(d@.name).0, d@.line, d@.name, global_fate(d@.name).1),
        ),
{
    let name: &str = d.name.as_str();
    let (status, detail): (Status, &str) = if same(name, "auto_https") {
        (
            Status::Auto,
            "TLS/HTTPS behavior is driven by Zion's [tls] block, not a global toggle",
        )
    } else if is_quiet_option(name) {
        (Status::Auto, "global option — no routing effect")
    } else if same(name, "servers") {
        (
            Status::Partial,
            "global server tuning (timeouts, protocols) has only partial Zion knobs",
        )
    } else {
        (Status::Unsupported, "unrecognized global option")
    };
    file(findings, status, d.line, name, detail);
}

fn apply_globals(ds: &Vec<Directive>, findings: &mut Vec<Finding>) -> (r: Option<String>)
    ensures
        (text::opt(r), text::views(final(findings)@)) == globals_of(
            text::views(ds@),
            ds@.len(),
            text::views(old(findings)@),
        ),
{
    let ghost dv = text::views(ds@);
    let ghost notes = text::views(findings@);
    let mut email: Option<String> = None;
    let mut i: usize = 0;
    while i < ds.len()
        invariant
            i <= ds.len(),
            dv == text::views(ds@),
            (text::opt(email), text::views(findings@)) == globals_of(dv, i as nat, notes),
        decreases ds.len() - i,
    {
        assert(dv[i as int] == ds@[i as int]@);
        let d = &ds[i];
        if same(d.name.as_str(), "email") {
            if d.args.len() > 0 {
                assert(d@.args[0] == d.args@[0]@);
                email = Some(own(d.args[0].as_str()));
            }
        } else {
            note_global(d, findings);
        }
        i += 1;
    }
    email
}

// ── Snippets ────────────────────────────────────────────────────────────
/// The body of a snippet: the last definition of the name among the first `n`.
pub open spec fn snippet_body(snippets: Seq<SnippetV>, n: nat, name: Seq<char>) -> Option<Seq<Dir>>
    decreases n,
{
    if n == 0 {
        None
    } else if snippets[n - 1].name == name {
        Some(snippets[n - 1].body)
    } else {
        snippet_body(snippets, (n - 1) as nat, name)
    }
}

/// What stands for a directive: the snippet that an `import` names, else the
/// directive itself.
pub open spec fn expansion(d: Dir, snippets: Seq<SnippetV>) -> Seq<Dir> {
    if d.name == "import"@ && d.block is None && d.args.len() > 0 {
        match snippet_body(snippets, snippets.len(), d.args[0]) {
            Some(body) => body,
            None => seq![d],
        }
    } else {
        seq![d]
    }
}

/// The first `n` directives with their imports inlined, one level deep.
pub open spec fn expanded(body: Seq<Dir>, n: nat, snippets: Seq<SnippetV>) -> Seq<Dir>
    decreases n,
{
    if n == 0 {
        seq![]
    } else {
        expanded(body, (n - 1) as nat, snippets) + expansion(body[n - 1], snippets)
    }
}

fn find_snippet<'a>(snippets: &'a Vec<Snippet>, name: &str) -> (r: Option<&'a Vec<Directive>>)
    ensures
        match r {
            Some(b) => snippet_body(text::views(snippets@), snippets@.len(), name@) == Some(
                text::views(b@),
            ),
            None => snippet_body(text::views(snippets@), snippets@.len(), name@) is None,
        },
{
    let ghost sv = text::views(snippets@);
    let mut n: usize = snippets.len();
    while n > 0
        invariant
            n <= snippets.len(),
            sv == text::views(snippets@),
            snippet_body(sv, snippets@.len(), name@) == snippet_body(sv, n as nat, name@),
        decreases n,
    {
        assert(sv[n - 1] == snippets@[n - 1]@);
        if same(snippets[n - 1].name.as_str(), name) {
            return Some(&snippets[n - 1].body);
        }
        n -= 1;
    }
    None
}

fn push_all<'a>(out: &mut Vec<&'a Directive>, body: &'a Vec<Directive>)
    ensures
        text::views(final(out)@) == text::views(old(out)@) + text::views(body@),
{
    let ghost start = text::views(out@);
    let ghost bv = text::views(body@);
    let mut i: usize = 0;
    assert(start + bv.subrange(0, 0) =~= start);
    while i < body.len()
        invariant
            i <= body.len(),
            bv == text::views(body@),
            text::views(out@) == start + bv.subrange(0, i as int),
        decreases body.len() - i,
    {
        let ghost before = text::views(out@);
        out.push(&body[i]);
        assert(bv.subrange(0, i as int).push(bv[i as int]) =~= bv.subrange(0, i + 1));
        assert(before.push(bv[i as int]) =~= start + bv.subrange(0, i + 1));
        i += 1;
    }
    assert(bv.subrange(0, bv.len() as int) =~= bv);
}

pub fn expand_imports<'a>(body: &'a Vec<Directive>, snippets: &'a Vec<Snippet>) -> (r: Vec<
    &'a Directive,
>)
    ensures
        text::views(r@) == expanded(
            text::views(body@),
            body@.len(),
            text::views(snippets@),
        ),
{
    let ghost bv = text::views(body@);
    let ghost sv = text::views(snippets@);
    let mut out: Vec<&'a Directive> = Vec::new();
    let mut i: usize = 0;
    assert(text::views(out@) =~= seq![]);
    while i < body.len()
        invariant
            i <= body.len(),
            bv == text::views(body@),
            sv == text::views(snippets@),
            text::views(out@) == expanded(bv, i as nat, sv),
        decreases body.len() - i,
    {
        assert(bv[i as int] == body@[i as int]@);
        let d: &'a Directive = &body[i];
        let ghost before = text::views(out@);
        let mut inlined: Option<&'a Vec<Directive>> = None;
        if same(d.name.as_str(), "import") && d.block.is_none() && d.args.len() > 0 {
            assert(d@.args[0] == d.args@[0]@);
            inlined = find_snippet(snippets, d.args[0].as_str());
        }
        match inlined {
            Some(b) => {
                push_all(&mut out, b);
            },
            None => {
                out.push(d);
                assert(before.push(d@) =~= before + seq![d@]);
            },
        }
        i += 1;
    }
    out
}

// ── Document ────────────────────────────────────────────────────────────
pub open spec fn sites_built(
    st: StateV,
    f: FileV,
    n: nat,
    vars: Seq<VarV>,
    global: Option<Seq<char>>,
    cli: Option<Seq<char>>,
) -> StateV
    decreases n,
{
    if n == 0 {
        st
    } else {
        let p = sites_built(st, f, (n - 1) as nat, vars, global, cli);
        let s: SiteV = f.sites[n - 1];
        let (hosts, told) = site::hosts_of(
            s.addresses,
            s.addresses.len(),
            s.line,
            vars,
            p.notes,
        );
        site::site_step(
            StateV { notes: told, ..p },
            expanded(s.body, s.body.len(), f.snippets),
            hosts,
            vars,
            global,
            cli,
        )
    }
}

pub open spec fn start_doc() -> DocV {
    DocV {
        listen_http: "0.0.0.0:80"@,
        listen_https: "0.0.0.0:443"@,
        ..import::map::empty_doc()
    }
}

/// The document of a Caddyfile.
pub open spec fn build_of(f: FileV, vars: Seq<VarV>, cli: Option<Seq<char>>, notes: Seq<Note>) -> (
    DocV,
    Seq<Note>,
) {
    let (global, told) = globals_of(f.global, f.global.len(), notes);
    let st = sites_built(
        StateV { doc: start_doc(), notes: told },
        f,
        f.sites.len(),
        vars,
        global,
        cli,
    );
    (st.doc, st.notes)
}

pub fn build(f: &Caddyfile, env: &Env, cli: Option<&str>, findings: &mut Vec<Finding>) -> (r: ZionDoc)
    ensures
        (r@, text::views(final(findings)@)) == build_of(
            f@,
            env.vars_view(),
            tls::opt_str(cli),
            text::views(old(findings)@),
        ),
{
    let mut doc = new_doc();
    doc.listen_http = own("0.0.0.0:80");
    doc.listen_https = own("0.0.0.0:443");
    let global = apply_globals(&f.global, findings);
    let ghost st = StateV { doc: start_doc(), notes: text::views(findings@) };
    assert(tls::state(&doc, findings) =~= st);
    let mut i: usize = 0;
    while i < f.sites.len()
        invariant
            i <= f.sites.len(),
            tls::state(&doc, findings) == sites_built(
                st,
                f@,
                i as nat,
                env.vars_view(),
                text::opt(global),
                tls::opt_str(cli),
            ),
        decreases f.sites.len() - i,
    {
        assert(f@.sites[i as int] == f.sites@[i as int]@);
        let s = &f.sites[i];
        let hosts = resolve_hosts(&s.addresses, s.line, env, findings);
        let body = expand_imports(&s.body, &f.snippets);
        map_site(&body, &hosts, env, &global, cli, &mut doc, findings);
        i += 1;
    }
    doc
}

/// The conversion of a Caddyfile.
pub open spec fn convert_of(src: Seq<char>, vars: Seq<VarV>, cli: Option<Seq<char>>) -> Outcome {
    match reader::parse_of(src) {
        Err(f) => Outcome::Parse(nginx::fault_text(f)),
        Ok(f) => {
            let (doc, notes) = build_of(f, vars, cli, seq![]);
            import::finish_of(doc, notes)
        },
    }
}

/// Converts a Caddyfile. `dotenv` is the text of the `.env` file beside it,
/// `overrides` are `KEY=VALUE` settings that win over it, and `cli_acme_email`
/// is the contact address for automatic HTTPS.
pub fn convert(
    src: &str,
    dotenv: Option<&str>,
    overrides: &Vec<(String, String)>,
    cli_acme_email: Option<&str>,
) -> (r: Result<Conversion, ConvertError>)
    requires
        src@.len() < u32::MAX,
    ensures
        import::outcome(r) == convert_of(
            src@,
            env::loaded(tls::opt_str(dotenv), env::pairs_of(overrides@)),
            tls::opt_str(cli_acme_email),
        ),
{
    let f = match reader::parse(src) {
        Ok(f) => f,
        Err(e) => {
            return Err(ConvertError::Parse(e.to_text()));
        },
    };
    let env = Env::load(dotenv, overrides);
    let mut findings: Vec<Finding> = Vec::new();
    assert(text::views(findings@) =~= seq![]);
    let doc = build(&f, &env, cli_acme_email, &mut findings);
    finish_conversion(doc, findings)
}

} // verus!
