//! `tls` directives and automatic HTTPS.
use crate::import;
use crate::import::map::{AcmeOut, AcmeV, DocV, ZionDoc};
use crate::import::nginx::{Dir, Directive};
use crate::import::{file, Finding, Note, Status};
use crate::ip;
use crate::ip::{is_ipv4, is_ipv6};
use crate::text;
use crate::text::{cat2, cat4, has_char, holds_text, join_strings, list_has, own, own_list, same, split_once};
use vstd::prelude::*;

verus! {

broadcast use {crate::text::group_views, crate::import::nginx::lemma_dir_view};

/// What is built from the sites: the document and the notes on the way.
#[verifier::ext_equal]
pub struct StateV {
    pub doc: DocV,
    pub notes: Seq<Note>,
}

pub open spec fn state(doc: &ZionDoc, findings: &Vec<Finding>) -> StateV {
    StateV { doc: doc@, notes: text::views(findings@) }
}

pub open spec fn noted(
    st: StateV,
    status: Status,
    line: int,
    directive: Seq<char>,
    detail: Seq<char>,
) -> StateV {
    StateV { notes: st.notes.push(import::note(status, line, directive, detail)), ..st }
}

/// A crude e-mail shape: an `@`, no path separator, a dotted domain.
pub open spec fn email_like(s: Seq<char>) -> bool {
    match text::split_once_of(s, '@') {
        Some((user, domain)) => user.len() > 0 && !s.contains('/') && domain.contains('.'),
        None => false,
    }
}

pub fn looks_like_email(s: &str) -> (r: bool)
    ensures
        r == email_like(s@),
{
    match split_once(s, '@') {
        Some((user, domain)) => !user.as_str().is_empty() && !has_char(s, '/') && has_char(
            domain.as_str(),
            '.',
        ),
        None => false,
    }
}

/// `tls <cert> <key>`.
pub open spec fn explicit_cert(d: Dir) -> bool {
    &&& d.args.len() == 2
    &&& !email_like(d.args[0])
    &&& d.args[0] != "internal"@
    &&& d.args[1] != "internal"@
}

pub fn is_explicit_cert(d: &Directive) -> (r: bool)
    ensures
        r == explicit_cert(d@),
{
    if d.args.len() != 2 {
        return false;
    }
    assert(d@.args[0] == d.args@[0]@);
    assert(d@.args[1] == d.args@[1]@);
    !looks_like_email(d.args[0].as_str()) && !same(d.args[0].as_str(), "internal") && !same(
        d.args[1].as_str(),
        "internal",
    )
}

/// `protocols` that names TLS 1.2.
pub open spec fn allows_tls12(d: Dir) -> bool {
    d.name == "protocols"@ && exists|i: int|
        0 <= i < d.args.len() && text::holds(#[trigger] d.args[i], "1.2"@)
}

/// One option of a `tls` block. Only the protocol versions are read, and not
/// beside certificate files.
pub open spec fn option_step(st: StateV, d: Dir, files: bool) -> StateV {
    if !files && allows_tls12(d) {
        noted(
            StateV { doc: DocV { tls_min12: true, ..st.doc }, ..st },
            Status::Convert,
            d.line,
            "tls.protocols"@,
            "tls.min_version = \"1.2\""@,
        )
    } else if !files && d.name == "protocols"@ {
        noted(st, Status::Auto, d.line, "tls.protocols"@, "TLS 1.3-only is Zion's default"@)
    } else {
        noted(
            st,
            Status::Unsupported,
            d.line,
            "tls."@ + d.name,
            "this tls option is not converted"@,
        )
    }
}

pub open spec fn options_step(st: StateV, block: Seq<Dir>, n: nat, files: bool) -> StateV
    decreases n,
{
    if n == 0 {
        st
    } else {
        option_step(options_step(st, block, (n - 1) as nat, files), block[n - 1], files)
    }
}

/// A `tls` directive: certificate files, and the options of its block. Whether
/// certificates are managed is decided for the site as a whole.
pub open spec fn tls_step(st: StateV, d: Dir) -> StateV {
    let p = if explicit_cert(d) {
        noted(
            StateV { doc: DocV { tls_cert: d.args[0], tls_key: d.args[1], ..st.doc }, ..st },
            Status::Convert,
            d.line,
            "tls <cert> <key>"@,
            "explicit certificate files → [tls] cert_path/key_path"@,
        )
    } else {
        st
    };
    match d.block {
        Some(block) => options_step(p, block, block.len(), explicit_cert(d)),
        None => p,
    }
}

fn names_tls12(d: &Directive) -> (r: bool)
    ensures
        r == allows_tls12(d@),
{
    if !same(d.name.as_str(), "protocols") {
        return false;
    }
    let ghost av = d@.args;
    let mut i: usize = 0;
    while i < d.args.len()
        invariant
            i <= d.args.len(),
            av == d@.args,
            d.name@ == "protocols"@,
            forall|j: int| 0 <= j < i ==> !text::holds(#[trigger] av[j], "1.2"@),
        decreases d.args.len() - i,
    {
        assert(av[i as int] == d.args@[i as int]@);
        if holds_text(d.args[i].as_str(), "1.2") {
            return true;
        }
        i += 1;
    }
    false
}

fn map_tls_option(d: &Directive, files: bool, doc: &mut ZionDoc, findings: &mut Vec<Finding>)
    ensures
        state(final(doc), final(findings)) == option_step(
            state(old(doc), old(findings)),
            d@,
            files,
        ),
{
    if !files && names_tls12(d) {
        doc.tls_min12 = true;
        file(
            findings,
            Status::Convert,
            d.line,
            "tls.protocols",
            "tls.min_version = \"1.2\"",
        );
    } else if !files && same(d.name.as_str(), "protocols") {
        file(
            findings,
            Status::Auto,
            d.line,
            "tls.protocols",
            "TLS 1.3-only is Zion's default",
        );
    } else {
        let directive = cat2("tls.", d.name.as_str());
        file(
            findings,
            Status::Unsupported,
            d.line,
            directive.as_str(),
            "this tls option is not converted",
        );
    }
}

pub fn map_tls(d: &Directive, doc: &mut ZionDoc, findings: &mut Vec<Finding>)
    ensures
        state(final(doc), final(findings)) == tls_step(state(old(doc), old(findings)), d@),
{
    let files = is_explicit_cert(d);
    if files {
        assert(d@.args[0] == d.args@[0]@);
        assert(d@.args[1] == d.args@[1]@);
        doc.tls_cert = own(d.args[0].as_str());
        doc.tls_key = own(d.args[1].as_str());
        file(
            findings,
            Status::Convert,
            d.line,
            "tls <cert> <key>",
            "explicit certificate files → [tls] cert_path/key_path",
        );
    }
    if let Some(block) = &d.block {
        let ghost bv = text::views(block@);
        let ghost st = state(doc, findings);
        let mut i: usize = 0;
        while i < block.len()
            invariant
                i <= block.len(),
                bv == text::views(block@),
                state(doc, findings) == options_step(st, bv, i as nat, files),
            decreases block.len() - i,
        {
            assert(bv[i as int] == block@[i as int]@);
            map_tls_option(&block[i], files, doc, findings);
            i += 1;
        }
    }
}

// ── Automatic HTTPS ─────────────────────────────────────────────────────
/// Where the first directive of that name stands, from `from` on.
pub open spec fn first_named(ds: Seq<Dir>, name: Seq<char>, from: int) -> int
    decreases ds.len() - from,
{
    if 0 <= from < ds.len() && ds[from].name != name {
        first_named(ds, name, from + 1)
    } else {
        from
    }
}

pub open spec fn find_dir(ds: Seq<Dir>, name: Seq<char>) -> Option<Dir> {
    let i = first_named(ds, name, 0);
    if i < ds.len() {
        Some(ds[i])
    } else {
        None
    }
}

pub fn find_named<'a>(ds: &Vec<&'a Directive>, name: &str) -> (r: Option<&'a Directive>)
    ensures
        match r {
            Some(d) => find_dir(text::views(ds@), name@) == Some(d@),
            None => find_dir(text::views(ds@), name@) is None,
        },
{
    let ghost dv = text::views(ds@);
    let mut i: usize = 0;
    while i < ds.len()
        invariant
            i <= ds.len(),
            dv == text::views(ds@),
            first_named(dv, name@, 0) == first_named(dv, name@, i as int),
        decreases ds.len() - i,
    {
        assert(dv[i as int] == ds@[i as int]@);
        if same(ds[i].name.as_str(), name) {
            return Some(ds[i]);
        }
        i += 1;
    }
    None
}

/// A host that a public authority certifies.
pub open spec fn public_host(h: Seq<char>) -> bool {
    h != "localhost"@ && !ip::ipv4(h) && !ip::ipv6(h)
}

pub open spec fn public_hosts(hosts: Seq<Seq<char>>, n: nat) -> Seq<Seq<char>>
    decreases n,
{
    if n == 0 {
        seq![]
    } else if public_host(hosts[n - 1]) {
        public_hosts(hosts, (n - 1) as nat).push(hosts[n - 1])
    } else {
        public_hosts(hosts, (n - 1) as nat)
    }
}

/// The first of the first `n` words that looks like an e-mail address.
pub open spec fn first_email(args: Seq<Seq<char>>, from: int) -> Option<Seq<char>>
    decreases args.len() - from,
{
    if from < 0 || from >= args.len() {
        None
    } else if email_like(args[from]) {
        Some(args[from])
    } else {
        first_email(args, from + 1)
    }
}

/// The contact: the `tls` directive's, else the operator's, else the global one,
/// if what was chosen looks like an address.
pub open spec fn contact(
    tls: Option<Dir>,
    cli: Option<Seq<char>>,
    global: Option<Seq<char>>,
) -> Option<Seq<char>> {
    let own_email = match tls {
        Some(d) => first_email(d.args, 0),
        None => None,
    };
    let chosen = match (own_email, cli) {
        (Some(e), _) => Some(e),
        (None, Some(e)) => Some(e),
        (None, None) => global,
    };
    match chosen {
        Some(e) if email_like(e) => Some(e),
        _ => None,
    }
}

/// The domains with the first `n` of `more` added, each once.
pub open spec fn merged(domains: Seq<Seq<char>>, more: Seq<Seq<char>>, n: nat) -> Seq<Seq<char>>
    decreases n,
{
    if n == 0 {
        domains
    } else {
        let p = merged(domains, more, (n - 1) as nat);
        if p.contains(more[n - 1]) {
            p
        } else {
            p.push(more[n - 1])
        }
    }
}

/// Automatic HTTPS for a site: asked for by a `tls` directive that names no
/// certificate files, or by the operator's contact address.
pub open spec fn acme_step(
    st: StateV,
    body: Seq<Dir>,
    hosts: Seq<Seq<char>>,
    global: Option<Seq<char>>,
    cli: Option<Seq<char>>,
) -> StateV {
    let tls = find_dir(body, "tls"@);
    let files = match tls {
        Some(d) => explicit_cert(d),
        None => false,
    };
    let public = public_hosts(hosts, hosts.len());
    let line = match tls {
        Some(d) => d.line,
        None => 0,
    };
    if files || (tls is None && cli is None) {
        st
    } else if public.len() == 0 {
        if tls is Some {
            noted(
                st,
                Status::Partial,
                line,
                "tls (ACME)"@,
                "no public host name — placeholder cert. Point [tls] at a certificate for this site"@,
            )
        } else {
            st
        }
    } else {
        match contact(tls, cli, global) {
            Some(email) => {
                let p = noted(
                    st,
                    Status::Convert,
                    line,
                    "tls (ACME)"@,
                    "automatic HTTPS → [tls.acme] (email = \""@ + email + "\") for "@
                        + text::join(public, ", "@),
                );
                let acme = match st.doc.acme {
                    Some(a) => AcmeV { domains: merged(a.domains, public, public.len()), ..a },
                    None => AcmeV { email, domains: public },
                };
                StateV { doc: DocV { acme: Some(acme), ..p.doc }, ..p }
            },
            None => noted(
                st,
                Status::Partial,
                line,
                "tls (ACME)"@,
                "Caddy auto-HTTPS → placeholder cert. Pass `--acme-email you@example.com` to emit [tls.acme], or point [tls] at an existing certificate manager's cert"@,
            ),
        }
    }
}

fn pick_public(hosts: &Vec<String>) -> (r: Vec<String>)
    ensures
        text::views(r@) == public_hosts(text::views(hosts@), hosts@.len()),
{
    let ghost hv = text::views(hosts@);
    let mut out: Vec<String> = Vec::new();
    let mut i: usize = 0;
    assert(text::views(out@) =~= seq![]);
    while i < hosts.len()
        invariant
            i <= hosts.len(),
            hv == text::views(hosts@),
            text::views(out@) == public_hosts(hv, i as nat),
        decreases hosts.len() - i,
    {
        assert(hv[i as int] == hosts@[i as int]@);
        let h: &str = hosts[i].as_str();
        if !same(h, "localhost") && !is_ipv4(h) && !is_ipv6(h) {
            out.push(own(h));
        }
        i += 1;
    }
    out
}

fn find_email(args: &Vec<String>) -> (r: Option<String>)
    ensures
        text::opt(r) == first_email(text::views(args@), 0),
{
    let ghost av = text::views(args@);
    let mut i: usize = 0;
    while i < args.len()
        invariant
            i <= args.len(),
            av == text::views(args@),
            first_email(av, 0) == first_email(av, i as int),
        decreases args.len() - i,
    {
        assert(av[i as int] == args@[i as int]@);
        if looks_like_email(args[i].as_str()) {
            return Some(own(args[i].as_str()));
        }
        i += 1;
    }
    None
}

pub open spec fn opt_str(o: Option<&str>) -> Option<Seq<char>> {
    match o {
        Some(s) => Some(s@),
        None => None,
    }
}

pub open spec fn opt_dir(o: Option<&Directive>) -> Option<Dir> {
    match o {
        Some(d) => Some(d@),
        None => None,
    }
}

fn pick_contact(tls: Option<&Directive>, cli: Option<&str>, global: &Option<String>) -> (r: Option<
    String,
>)
    ensures
        text::opt(r) == contact(opt_dir(tls), opt_str(cli), text::opt(*global)),
{
    let own_email: Option<String> = match tls {
        Some(d) => find_email(&d.args),
        None => None,
    };
    let chosen: Option<String> = match own_email {
        Some(e) => Some(e),
        None => match cli {
            Some(e) => Some(own(e)),
            None => text::own_opt(global),
        },
    };
    match chosen {
        Some(e) => if looks_like_email(e.as_str()) {
            Some(e)
        } else {
            None
        },
        None => None,
    }
}

fn merge_domains(domains: &mut Vec<String>, more: &Vec<String>)
    ensures
        text::views(final(domains)@) == merged(
            text::views(old(domains)@),
            text::views(more@),
            more@.len(),
        ),
{
    let ghost dv = text::views(domains@);
    let ghost mv = text::views(more@);
    let mut i: usize = 0;
    while i < more.len()
        invariant
            i <= more.len(),
            mv == text::views(more@),
            text::views(domains@) == merged(dv, mv, i as nat),
        decreases more.len() - i,
    {
        assert(mv[i as int] == more@[i as int]@);
        if !list_has(domains, more[i].as_str()) {
            domains.push(own(more[i].as_str()));
        }
        i += 1;
    }
}

pub fn apply_site_acme(
    body: &Vec<&Directive>,
    hosts: &Vec<String>,
    global: &Option<String>,
    cli: Option<&str>,
    doc: &mut ZionDoc,
    findings: &mut Vec<Finding>,
)
    ensures
        state(final(doc), final(findings)) == acme_step(
            state(old(doc), old(findings)),
            text::views(body@),
            text::views(hosts@),
            text::opt(*global),
            opt_str(cli),
        ),
{
    let tls = find_named(body, "tls");
    match tls {
        Some(d) => if is_explicit_cert(d) {
            return;
        },
        None => if cli.is_none() {
            return;
        },
    }
    let public = pick_public(hosts);
    let line: u32 = match tls {
        Some(d) => d.line,
        None => 0,
    };
    if public.len() == 0 {
        if tls.is_some() {
            file(
                findings,
                Status::Partial,
                line,
                "tls (ACME)",
                "no public host name — placeholder cert. Point [tls] at a certificate for this site",
            );
        }
        return;
    }
    match pick_contact(tls, cli, global) {
        Some(email) => {
            let names = join_strings(&public, ", ");
            let detail = cat4(
                "automatic HTTPS → [tls.acme] (email = \"",
                email.as_str(),
                "\") for ",
                names.as_str(),
            );
            file(findings, Status::Convert, line, "tls (ACME)", detail.as_str());
            let acme: Option<AcmeOut> = match &doc.acme {
                Some(a) => {
                    let mut domains = own_list(&a.domains);
                    merge_domains(&mut domains, &public);
                    Some(AcmeOut { email: own(a.email.as_str()), domains })
                },
                None => Some(AcmeOut { email, domains: public }),
            };
            doc.acme = acme;
        },
        None => {
            file(
                findings,
                Status::Partial,
                line,
                "tls (ACME)",
                "Caddy auto-HTTPS → placeholder cert. Pass `--acme-email you@example.com` to emit [tls.acme], or point [tls] at an existing certificate manager's cert",
            );
        },
    }
}

// ── Laws ────────────────────────────────────────────────────────────────
proof fn lemma_public_hosts(hosts: Seq<Seq<char>>, n: nat)
    requires
        n <= hosts.len(),
    ensures
        forall|i: int|
            0 <= i < public_hosts(hosts, n).len() ==> public_host(
                #[trigger] public_hosts(hosts, n)[i],
            ) && hosts.contains(public_hosts(hosts, n)[i]),
    decreases n,
{
    if n > 0 {
        lemma_public_hosts(hosts, (n - 1) as nat);
        let p = public_hosts(hosts, (n - 1) as nat);
        let q = public_hosts(hosts, n);
        assert(hosts.contains(hosts[n - 1]));
        assert forall|i: int| 0 <= i < q.len() implies public_host(#[trigger] q[i])
            && hosts.contains(q[i]) by {
            if i < p.len() {
                assert(q[i] == p[i]);
            }
        }
    }
}

proof fn lemma_merged(domains: Seq<Seq<char>>, more: Seq<Seq<char>>, n: nat)
    requires
        n <= more.len(),
    ensures
        forall|i: int|
            0 <= i < merged(domains, more, n).len() ==> domains.contains(
                #[trigger] merged(domains, more, n)[i],
            ) || more.contains(merged(domains, more, n)[i]),
    decreases n,
{
    if n > 0 {
        lemma_merged(domains, more, (n - 1) as nat);
        let p = merged(domains, more, (n - 1) as nat);
        let q = merged(domains, more, n);
        assert(more.contains(more[n - 1]));
        assert forall|i: int| 0 <= i < q.len() implies domains.contains(#[trigger] q[i])
            || more.contains(q[i]) by {
            if i < p.len() {
                assert(q[i] == p[i]);
            }
        }
    } else {
        assert(forall|i: int| 0 <= i < domains.len() ==> domains.contains(#[trigger] domains[i]));
    }
}

/// A site never asks for a certificate for `localhost` or an address: where the
/// domains were public before, they are public after it.
pub proof fn law_certified_domains_are_public(
    st: StateV,
    body: Seq<Dir>,
    hosts: Seq<Seq<char>>,
    global: Option<Seq<char>>,
    cli: Option<Seq<char>>,
)
    requires
        st.doc.acme matches Some(a) ==> forall|i: int|
            0 <= i < a.domains.len() ==> public_host(#[trigger] a.domains[i]),
    ensures
        acme_step(st, body, hosts, global, cli).doc.acme matches Some(a) ==> forall|i: int|
            0 <= i < a.domains.len() ==> public_host(#[trigger] a.domains[i]),
{
    let public = public_hosts(hosts, hosts.len());
    lemma_public_hosts(hosts, hosts.len());
    match st.doc.acme {
        Some(a) => {
            lemma_merged(a.domains, public, public.len());
        },
        None => {},
    }
}

} // verus!
