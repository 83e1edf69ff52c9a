//! What the directives of a Caddyfile come to in the document.
use super::header;
use super::reader::SnippetV;
use super::site;
use super::site::{SiteStateV, StaticV};
use super::tls;
use super::tls::StateV;
use super::vars;
use crate::import::env::{InterV, VarV};
use crate::import::nginx::Dir;
use crate::import::variables;
use crate::import::Note;
use crate::text;
use crate::words;
use vstd::prelude::*;

verus! {

// ── Targets ─────────────────────────────────────────────────────────────
/// A word of a `reverse_proxy` that names a backend: it is neither a path nor a
/// named matcher nor the star.
pub open spec fn backend_word(a: Seq<char>) -> bool {
    !(a.len() > 0 && (a[0] == '/' || a[0] == '@')) && a != "*"@
}

/// How many of the first `n` words name a backend.
pub open spec fn backends(args: Seq<Seq<char>>, n: nat) -> nat
    decreases n,
{
    if n == 0 {
        0
    } else {
        backends(args, (n - 1) as nat) + (if backend_word(args[n - 1]) {
            1nat
        } else {
            0nat
        })
    }
}

/// The text has no variable in it.
pub open spec fn without_variable(s: Seq<char>) -> bool {
    forall|i: int| 0 <= i < s.len() - 1 ==> !(#[trigger] s[i] == '{' && s[i + 1] == '$')
}

/// The URL of a backend: a word with a scheme is one, and any other is reached
/// over plain HTTP.
pub open spec fn reached_by(word: Seq<char>, url: Seq<char>) -> bool {
    if exists|a: Seq<char>, b: Seq<char>| word == #[trigger] (a + "://"@ + b) {
        url == word
    } else {
        url == "http://"@ + word
    }
}

proof fn lemma_backends_grow(args: Seq<Seq<char>>, i: nat, n: nat)
    requires
        i <= n,
    ensures
        backends(args, i) <= backends(args, n),
        i < n && backend_word(args[i as int]) ==> backends(args, i) < backends(args, n),
    decreases n - i,
{
    if i < n {
        lemma_backends_grow(args, i + 1, n);
        assert(backends(args, i + 1) == backends(args, i) + (if backend_word(args[i as int]) {
            1nat
        } else {
            0nat
        }));
    }
}

proof fn lemma_targets(args: Seq<Seq<char>>, n: nat)
    requires
        n <= args.len(),
    ensures
        site::targets_of(args, n).len() == backends(args, n),
        forall|i: int|
            #![trigger args[i]]
            0 <= i < n && backend_word(args[i]) ==> backends(args, i as nat) < backends(args, n)
                && site::targets_of(args, n)[backends(args, i as nat) as int] == args[i],
    decreases n,
{
    if n > 0 {
        let k = (n - 1) as nat;
        lemma_targets(args, k);
        let a = site::targets_of(args, k);
        let b = site::targets_of(args, n);
        assert forall|i: int| #![trigger args[i]] 0 <= i < n && backend_word(args[i]) implies backends(
            args,
            i as nat,
        ) < backends(args, n) && b[backends(args, i as nat) as int] == args[i] by {
            lemma_backends_grow(args, i as nat, n);
            if i < k {
                assert(a[backends(args, i as nat) as int] == args[i]);
            }
        }
    }
}

proof fn lemma_reached(word: Seq<char>)
    ensures
        reached_by(word, site::url_of(word)),
{
    if text::holds(word, "://"@) {
        let p = "://"@;
        let i = choose|i: int|
            0 <= i && i + p.len() <= word.len() && #[trigger] word.subrange(i, i + p.len()) == p;
        let a = word.subrange(0, i);
        let b = word.subrange(i + p.len(), word.len() as int);
        assert(word =~= a + "://"@ + b);
    } else if exists|a: Seq<char>, b: Seq<char>| word == #[trigger] (a + "://"@ + b) {
        let (a, b) = choose|a: Seq<char>, b: Seq<char>| word == #[trigger] (a + "://"@ + b);
        words::law_parts_of_a_text(a, "://"@, b);
    }
}

proof fn lemma_urls(targets: Seq<Seq<char>>, n: nat, vars: Seq<VarV>, line: int, notes: Seq<Note>)
    requires
        n <= targets.len(),
    ensures
        site::urls_of(targets, n, vars, line, notes).0 matches Some(urls) ==> {
            &&& urls.len() == n
            &&& forall|i: int|
                0 <= i < n && without_variable(#[trigger] targets[i]) ==> reached_by(
                    targets[i],
                    urls[i],
                )
        },
    decreases n,
{
    if n > 0 {
        let k = (n - 1) as nat;
        lemma_urls(targets, k, vars, line, notes);
        let (p, told) = site::urls_of(targets, k, vars, line, notes);
        let t = targets[k as int];
        if without_variable(t) {
            vars::law_resolve_keeps_plain_text(t, vars, line, "reverse_proxy"@, told);
            lemma_reached(t);
        }
    }
}

/// Every word of a `reverse_proxy` that names a backend has its URL in the
/// upstream that is made for it, and in the order of the words; there are no
/// others.
pub proof fn law_every_backend_is_reached(
    st: StateV,
    rp: Dir,
    path: Seq<char>,
    hosts: Seq<Seq<char>>,
    csp: Option<Seq<char>>,
    vars: Seq<VarV>,
)
    requires
        site::proxy_step(st, rp, path, hosts, csp, vars).doc.upstreams.len()
            > st.doc.upstreams.len(),
    ensures
        ({
            let us = site::proxy_step(st, rp, path, hosts, csp, vars).doc.upstreams;
            let urls = us.last().urls;
            &&& us.drop_last() == st.doc.upstreams
            &&& urls.len() == backends(rp.args, rp.args.len())
            &&& forall|i: int|
                0 <= i < rp.args.len() && backend_word(#[trigger] rp.args[i]) && without_variable(
                    rp.args[i],
                ) ==> reached_by(rp.args[i], urls[backends(rp.args, i as nat) as int])
        }),
{
    let us = site::proxy_step(st, rp, path, hosts, csp, vars).doc.upstreams;
    let ts = site::targets_of(rp.args, rp.args.len());
    let notes = site::all_options_told(rp.block, st.notes);
    lemma_targets(rp.args, rp.args.len());
    lemma_urls(ts, ts.len(), vars, rp.line, notes);
    assert(us.drop_last() =~= st.doc.upstreams);
    let urls = us.last().urls;
    assert forall|i: int|
        0 <= i < rp.args.len() && backend_word(#[trigger] rp.args[i]) && without_variable(
            rp.args[i],
        ) implies reached_by(rp.args[i], urls[backends(rp.args, i as nat) as int]) by {
        let k = backends(rp.args, i as nat) as int;
        assert(ts[k] == rp.args[i]);
        assert(without_variable(ts[k]));
    }
}

/// A `reverse_proxy` adds one route for the hosts of its site, to an upstream of
/// the document, under the path and the policy that it is given; or it adds
/// nothing.
pub proof fn law_proxy_adds_its_route(
    st: StateV,
    rp: Dir,
    path: Seq<char>,
    hosts: Seq<Seq<char>>,
    csp: Option<Seq<char>>,
    vars: Seq<VarV>,
)
    ensures
        ({
            let a = site::proxy_step(st, rp, path, hosts, csp, vars).doc;
            ||| a == st.doc
            ||| {
                &&& a.routes.len() == st.doc.routes.len() + 1
                &&& a.routes.drop_last() == st.doc.routes
                &&& a.routes.last().path == path
                &&& a.routes.last().csp == csp
                &&& a.routes.last().serve_dir is None
                &&& a.routes.last().hosts == (if hosts.len() == 0 {
                    None
                } else {
                    Some(hosts)
                })
                &&& exists|k: int|
                    0 <= k < a.upstreams.len() && (#[trigger] a.upstreams[k]).name
                        == a.routes.last().upstream
                &&& a.upstreams.len() > st.doc.upstreams.len() ==> a.upstreams.last().name
                    == a.routes.last().upstream
                &&& a.listen_http == st.doc.listen_http && a.listen_https == st.doc.listen_https
                &&& a.tls_cert == st.doc.tls_cert && a.tls_key == st.doc.tls_key
            }
        }),
        backends(rp.args, rp.args.len()) == 0 ==> site::proxy_step(
            st,
            rp,
            path,
            hosts,
            csp,
            vars,
        ).doc == st.doc,
        backends(rp.args, rp.args.len()) > 0 && (forall|i: int|
            0 <= i < rp.args.len() ==> without_variable(#[trigger] rp.args[i]))
            ==> site::proxy_step(st, rp, path, hosts, csp, vars).doc.routes.len()
            == st.doc.routes.len() + 1,
{
    let a = site::proxy_step(st, rp, path, hosts, csp, vars).doc;
    lemma_targets(rp.args, rp.args.len());
    let ts = site::targets_of(rp.args, rp.args.len());
    let notes = site::all_options_told(rp.block, st.notes);
    if a.routes.len() > st.doc.routes.len() {
        assert(a.routes.drop_last() =~= st.doc.routes);
        let name = a.routes.last().upstream;
        if !site::upstream_named(st.doc.upstreams, name) {
            assert(a.upstreams[st.doc.upstreams.len() as int].name == name);
        } else {
            let k = choose|k: int|
                0 <= k < st.doc.upstreams.len() && (#[trigger] st.doc.upstreams[k]).name == name;
            assert(a.upstreams[k].name == name);
        }
    } else {
        assert(a == st.doc);
    }
    if forall|i: int| 0 <= i < rp.args.len() ==> without_variable(#[trigger] rp.args[i]) {
        lemma_targets_are_words(rp.args, rp.args.len());
        lemma_urls_known(ts, ts.len(), vars, rp.line, notes);
    }
}

proof fn lemma_targets_are_words(args: Seq<Seq<char>>, n: nat)
    requires
        n <= args.len(),
        forall|i: int| 0 <= i < args.len() ==> without_variable(#[trigger] args[i]),
    ensures
        forall|i: int|
            0 <= i < site::targets_of(args, n).len() ==> without_variable(
                #[trigger] site::targets_of(args, n)[i],
            ),
    decreases n,
{
    if n > 0 {
        let k = (n - 1) as nat;
        lemma_targets_are_words(args, k);
        assert(without_variable(args[k as int]));
        assert forall|i: int| 0 <= i < site::targets_of(args, n).len() implies without_variable(
            #[trigger] site::targets_of(args, n)[i],
        ) by {
            if i < site::targets_of(args, k).len() {
                assert(without_variable(site::targets_of(args, k)[i]));
            }
        }
    }
}

proof fn lemma_urls_known(targets: Seq<Seq<char>>, n: nat, vars: Seq<VarV>, line: int, notes: Seq<Note>)
    requires
        n <= targets.len(),
        forall|i: int| 0 <= i < targets.len() ==> without_variable(#[trigger] targets[i]),
    ensures
        site::urls_of(targets, n, vars, line, notes).0 is Some,
    decreases n,
{
    if n > 0 {
        let k = (n - 1) as nat;
        lemma_urls_known(targets, k, vars, line, notes);
        let told = site::urls_of(targets, k, vars, line, notes).1;
        vars::law_resolve_keeps_plain_text(
            targets[k as int],
            vars,
            line,
            "reverse_proxy"@,
            told,
        );
    }
}

// ── Paths ───────────────────────────────────────────────────────────────
/// A matcher that ends in a star takes everything below what stands before it;
/// one without takes itself; none, and the star alone, take everything.
pub proof fn law_matcher_is_the_path(m: Seq<char>, base: Seq<char>)
    ensures
        site::matcher_path(None) == "/{*rest}"@,
        site::matcher_path(Some("*"@)) == "/{*rest}"@,
        site::matcher_path(Some("/*"@)) == "/{*rest}"@,
        !m.contains('*') ==> site::matcher_path(Some(m)) == m,
        base.len() > 0 && base.last() != '/' && base.last() != '*' ==> site::matcher_path(
            Some(base + "/*"@),
        ) == base + "/{*rest}"@ && site::matcher_path(Some(base + "*"@)) == base + "/{*rest}"@,
{
    reveal_strlit("*");
    reveal_strlit("/*");
    assert("*"@[0] == '*');
    reveal_with_fuel(text::trim_end_of, 3);
    let s = "/*"@;
    assert(s.subrange(0, s.len() - 1).len() == 1);
    assert(s.subrange(0, s.len() - 1)[0] == '/');
    assert(text::trim_end_of(s, '*') == s.subrange(0, 1));
    assert(text::trim_end_of(s.subrange(0, 1), '/').len() == 0);
    if base.len() > 0 && base.last() != '/' && base.last() != '*' {
        let x = base + "/*"@;
        let y = base + "*"@;
        assert(x.subrange(0, x.len() - 1) =~= base.push('/'));
        assert(base.push('/').subrange(0, base.len() as int) =~= base);
        assert(y.subrange(0, y.len() - 1) =~= base);
        assert(text::trim_end_of(x, '*') == base.push('/'));
        assert(text::trim_end_of(base.push('/'), '/') == base);
        assert(text::trim_end_of(y, '*') == base);
        assert(x.last() == '*' && x.len() > 1);
        assert(y.last() == '*' && y.len() > 1);
    }
}

/// A `reverse_proxy` takes the path that its first word matches, and everything
/// where the first word is a backend.
pub proof fn law_proxy_takes_its_matcher(
    st: StateV,
    d: Dir,
    hosts: Seq<Seq<char>>,
    csp: Option<Seq<char>>,
    vars: Seq<VarV>,
)
    ensures
        ({
            let a = site::reverse_proxy_step(st, d, hosts, csp, vars).doc;
            &&& d.args.len() > 0 && d.args[0].len() > 0 && d.args[0][0] == '@' ==> a == st.doc
            &&& a.routes.len() > st.doc.routes.len() ==> {
                let r = a.routes.last();
                &&& r.csp == csp
                &&& r.path == (if d.args.len() > 0 && !backend_word(d.args[0]) {
                    site::matcher_path(Some(d.args[0]))
                } else {
                    "/{*rest}"@
                })
            }
        }),
{
    let none = Seq::<char>::empty();
    law_matcher_is_the_path(none, none);
    let m = if d.args.len() > 0 && site::matcher_word(d.args[0]) {
        Some(d.args[0])
    } else {
        None
    };
    law_proxy_adds_its_route(st, d, site::matcher_path(m), hosts, csp, vars);
}

/// A handler takes the path that its matcher names, to the backends of its first
/// `reverse_proxy`.
pub proof fn law_handler_takes_its_matcher(
    st: StateV,
    d: Dir,
    hosts: Seq<Seq<char>>,
    csp: Option<Seq<char>>,
    vars: Seq<VarV>,
    j: int,
)
    requires
        d.block is Some,
        0 <= j < d.block->0.len(),
        d.block->0[j].name == "reverse_proxy"@,
        forall|i: int| 0 <= i < j ==> (#[trigger] d.block->0[i]).name != "reverse_proxy"@,
        site::handle_step(st, d, hosts, csp, vars).doc.routes.len() > st.doc.routes.len(),
    ensures
        ({
            let a = site::handle_step(st, d, hosts, csp, vars).doc;
            let r = a.routes.last();
            &&& r.path == (if d.args.len() > 0 {
                site::matcher_path(Some(d.args[0]))
            } else {
                "/{*rest}"@
            })
            &&& r.hosts == (if hosts.len() == 0 {
                None
            } else {
                Some(hosts)
            })
            &&& (forall|i: int| 0 <= i < d.block->0.len() ==> (#[trigger] d.block->0[i]).name != "header"@)
                ==> r.csp == csp
            &&& a.upstreams.len() > st.doc.upstreams.len() ==> a.upstreams.last().urls.len()
                == backends(d.block->0[j].args, d.block->0[j].args.len())
        }),
{
    let none = Seq::<char>::empty();
    law_matcher_is_the_path(none, none);
    let block = d.block->0;
    let m = if d.args.len() > 0 {
        Some(d.args[0])
    } else {
        None
    };
    let (own_csp, told) = site::handler_policy(csp, block, block.len(), st.notes);
    let p = StateV { notes: told, ..st };
    lemma_first(block, "reverse_proxy"@, 0, j);
    let rp = block[j];
    assert(tls::find_dir(block, "reverse_proxy"@) == Some(rp));
    law_proxy_adds_its_route(p, rp, site::matcher_path(m), hosts, own_csp, vars);
    if site::handle_step(st, d, hosts, csp, vars).doc.upstreams.len() > st.doc.upstreams.len() {
        law_every_backend_is_reached(p, rp, site::matcher_path(m), hosts, own_csp, vars);
    }
    if forall|i: int| 0 <= i < block.len() ==> (#[trigger] block[i]).name != "header"@ {
        lemma_no_header(csp, block, block.len(), st.notes);
    }
}

proof fn lemma_no_header(csp: Option<Seq<char>>, block: Seq<Dir>, n: nat, notes: Seq<Note>)
    requires
        n <= block.len(),
        forall|i: int| 0 <= i < block.len() ==> (#[trigger] block[i]).name != "header"@,
    ensures
        site::handler_policy(csp, block, n, notes).0 == csp,
    decreases n,
{
    if n > 0 {
        lemma_no_header(csp, block, (n - 1) as nat, notes);
        assert(block[n - 1].name != "header"@);
    }
}

proof fn lemma_first(ds: Seq<Dir>, name: Seq<char>, from: int, j: int)
    requires
        0 <= from <= j < ds.len(),
        ds[j].name == name,
        forall|i: int| from <= i < j ==> (#[trigger] ds[i]).name != name,
    ensures
        tls::first_named(ds, name, from) == j,
    decreases j - from,
{
    if from < j {
        assert(ds[from].name != name);
        lemma_first(ds, name, from + 1, j);
    }
}

// ── Files ───────────────────────────────────────────────────────────────
/// A site with a `file_server` serves the directory of its first `root` to every
/// path, for its hosts.
pub proof fn law_site_serves_its_root(
    st: StateV,
    body: Seq<Dir>,
    j: int,
    hosts: Seq<Seq<char>>,
    csp: Option<Seq<char>>,
)
    requires
        0 <= j < body.len(),
        body[j].name == "root"@,
        forall|i: int| 0 <= i < j ==> (#[trigger] body[i]).name != "root"@,
        site::static_step(st, site::static_of(body), hosts, csp).doc.routes.len()
            > st.doc.routes.len(),
    ensures
        ({
            let r = site::static_step(st, site::static_of(body), hosts, csp).doc.routes.last();
            &&& body[j].args.len() > 0
            &&& r.serve_dir == Some(body[j].args.last())
            &&& r.path == "/{*rest}"@
            &&& r.csp == csp
            &&& r.hosts == (if hosts.len() == 0 {
                None
            } else {
                Some(hosts)
            })
            &&& exists|i: int| 0 <= i < body.len() && (#[trigger] body[i]).name == "file_server"@
            &&& r.spa_fallback ==> exists|i: int|
                0 <= i < body.len() && (#[trigger] body[i]).name == "try_files"@
        }),
{
    lemma_first(body, "root"@, 0, j);
    assert(tls::find_dir(body, "root"@) == Some(body[j]));
    let i = tls::first_named(body, "file_server"@, 0);
    lemma_named(body, "file_server"@, 0);
    assert(body[i].name == "file_server"@);
    if site::static_of(body)->0.spa {
        let k = choose|k: int| 0 <= k < body.len() && site::spa_try_files(#[trigger] body[k]);
        assert(body[k].name == "try_files"@);
    }
}

proof fn lemma_named(ds: Seq<Dir>, name: Seq<char>, from: int)
    requires
        0 <= from <= ds.len(),
    ensures
        from <= tls::first_named(ds, name, from) <= ds.len(),
        tls::first_named(ds, name, from) < ds.len() ==> ds[tls::first_named(ds, name, from)].name
            == name,
    decreases ds.len() - from,
{
    if from < ds.len() && ds[from].name != name {
        lemma_named(ds, name, from + 1);
    }
}

// ── Addresses ───────────────────────────────────────────────────────────
/// The host of an address does not depend on how it is written: with a scheme,
/// with a port, or with a path behind it.
pub proof fn law_address_names_its_host(h: Seq<char>, port: Seq<char>, path: Seq<char>)
    requires
        h.len() > 0,
        !h.contains('/'),
        !h.contains(':'),
        text::all_digits(port),
    ensures
        site::address_host(h) == h,
        site::address_host("http://"@ + h) == h,
        site::address_host("https://"@ + h) == h,
        site::address_host(h + ":"@ + port) == h,
        site::address_host("https://"@ + h + ":"@ + port) == h,
        site::address_host("https://"@ + h + "/"@ + path) == h,
{
    lemma_bare(h, h);
    lemma_scheme(h);
    lemma_scheme(h + ":"@ + port);
    lemma_scheme(h + "/"@ + path);
    assert("https://"@ + h + ":"@ + port =~= "https://"@ + (h + ":"@ + port));
    assert("https://"@ + h + "/"@ + path =~= "https://"@ + (h + "/"@ + path));
    lemma_port(h, port);
    lemma_schemeless(h, h);
    lemma_schemeless(h + ":"@ + port, h);
    lemma_slash(h, path);
}

/// What stands behind the scheme of an address.
spec fn bare_host(rest: Seq<char>) -> Seq<char> {
    let host = site::up_to(rest, '/');
    match text::rsplit_once_of(host, ':') {
        Some((h, port)) if text::all_digits(port) => h,
        _ => host,
    }
}

proof fn lemma_scheme(x: Seq<char>)
    ensures
        site::address_host("http://"@ + x) == bare_host(x),
        site::address_host("https://"@ + x) == bare_host(x),
{
    words::law_parts_of_a_text(x, "http://"@, x);
    words::law_parts_of_a_text(x, "https://"@, x);
    reveal_strlit("http://");
    reveal_strlit("https://");
    let s = "http://"@ + x;
    if text::starts(s, "https://"@) {
        assert(s.subrange(0, 8)[4] == s[4]);
        assert("https://"@[4] == 's');
        assert(s[4] == ':');
    }
}

proof fn lemma_schemeless(x: Seq<char>, h: Seq<char>)
    requires
        !x.contains('/'),
    ensures
        site::address_host(x) == bare_host(x),
{
    reveal_strlit("http://");
    reveal_strlit("https://");
    if text::starts(x, "http://"@) {
        assert(x.subrange(0, 7)[5] == x[5]);
        assert("http://"@[5] == '/');
    }
    if text::starts(x, "https://"@) {
        assert(x.subrange(0, 8)[6] == x[6]);
        assert("https://"@[6] == '/');
    }
}

proof fn lemma_up_to(x: Seq<char>)
    requires
        !x.contains('/'),
    ensures
        site::up_to(x, '/') == x,
{
    text::lemma_index_of(x, '/', 0);
    assert(x.subrange(0, x.len() as int) =~= x);
}

proof fn lemma_bare(x: Seq<char>, h: Seq<char>)
    requires
        x == h,
        !h.contains('/'),
        !h.contains(':'),
    ensures
        bare_host(x) == h,
{
    lemma_up_to(x);
    words::law_rsplit_once(x, ':');
    if let Some((a, b)) = text::rsplit_once_of(x, ':') {
        assert(x[a.len() as int] == ':');
    }
}

proof fn lemma_port(h: Seq<char>, port: Seq<char>)
    requires
        !h.contains('/'),
        !h.contains(':'),
        text::all_digits(port),
    ensures
        !(h + ":"@ + port).contains('/'),
        bare_host(h + ":"@ + port) == h,
{
    reveal_strlit(":");
    let x = h + ":"@ + port;
    let n = h.len() as int;
    assert forall|i: int| 0 <= i < x.len() implies x[i] != '/' by {
        if i < n {
            assert(x[i] == h[i]);
        } else if i > n {
            assert(x[i] == port[i - n - 1]);
            assert(text::digit(port[i - n - 1]));
        }
    }
    lemma_up_to(x);
    words::law_rsplit_once(x, ':');
    assert(x[n] == ':');
    assert(x.contains(':'));
    let (a, b) = text::rsplit_once_of(x, ':')->0;
    let k = a.len() as int;
    assert(x[k] == ':');
    if k < n {
        assert(h[k] == ':');
    } else if k > n {
        assert(x[k] == port[k - n - 1]);
        assert(text::digit(port[k - n - 1]));
    }
    assert(a =~= h) by {
        assert forall|i: int| 0 <= i < n implies a[i] == h[i] by {
            assert(x[i] == a[i]);
        }
    }
    assert(b =~= port) by {
        assert forall|i: int| 0 <= i < b.len() implies b[i] == port[i] by {
            assert(x[n + 1 + i] == b[i]);
            assert(x[n + 1 + i] == port[i]);
        }
    }
}

proof fn lemma_slash(h: Seq<char>, path: Seq<char>)
    requires
        !h.contains('/'),
        !h.contains(':'),
    ensures
        bare_host(h + "/"@ + path) == h,
{
    reveal_strlit("/");
    let x = h + "/"@ + path;
    let n = h.len() as int;
    text::lemma_index_of(x, '/', 0);
    let i = text::index_of(x, '/', 0);
    assert(x[n] == '/');
    if i < n {
        assert(h[i] == x[i]);
    }
    assert(i == n);
    assert(x.subrange(0, n) =~= h);
    lemma_bare(h, h);
    lemma_up_to(h);
}

// ── Certificates ────────────────────────────────────────────────────────
/// The two files of a `tls` directive are the certificate and the key of the
/// document, in this order, and it changes no route.
pub proof fn law_certificate_files_are_taken(st: StateV, d: Dir)
    requires
        d.block is None,
        d.args.len() == 2,
        !d.args[0].contains('@'),
        d.args[0] != "internal"@,
        d.args[1] != "internal"@,
    ensures
        ({
            let a = tls::tls_step(st, d).doc;
            &&& a.tls_cert == d.args[0]
            &&& a.tls_key == d.args[1]
            &&& a.tls_min12 == st.doc.tls_min12
            &&& a.routes == st.doc.routes
            &&& a.upstreams == st.doc.upstreams
        }),
{
    words::law_split_once(d.args[0], '@');
    if let Some((u, v)) = text::split_once_of(d.args[0], '@') {
        assert(d.args[0][u.len() as int] == '@');
    }
}

// ── Names ───────────────────────────────────────────────────────────────
/// A host made of letters, digits and hyphens.
pub open spec fn simple_host(h: Seq<char>) -> bool {
    h.len() > 0 && forall|i: int|
        0 <= i < h.len() ==> 'a' <= #[trigger] h[i] <= 'z' || 'A' <= h[i] <= 'Z' || '0' <= h[i] <= '9'
            || h[i] == '-'
}

proof fn lemma_after_scheme(url: Seq<char>, n: int)
    requires
        url.len() >= 7,
        url.subrange(0, 7) == "http://"@,
        7 <= n <= url.len(),
        forall|i: int| 7 <= i < url.len() ==> #[trigger] url[i] != '/',
    ensures
        site::after_scheme(url, n) == 7,
    decreases n,
{
    reveal_strlit("http://");
    assert(url[4] == url.subrange(0, 7)[4]);
    assert(url[5] == url.subrange(0, 7)[5]);
    assert(url[6] == url.subrange(0, 7)[6]);
    if site::scheme_mark(url, n - 1) {
        if n - 1 >= 5 {
            assert(url[n] == '/' && url[n + 1] == '/');
            assert(n + 1 >= 7);
            assert(url[n + 1] != '/');
        }
    } else if n > 7 {
        lemma_after_scheme(url, n - 1);
    } else {
        assert(!site::scheme_mark(url, 6));
        assert(!site::scheme_mark(url, 5));
        assert(site::scheme_mark(url, 4));
        reveal_with_fuel(site::after_scheme, 4);
        assert(site::after_scheme(url, 5) == 7);
        assert(site::after_scheme(url, 6) == 7);
        assert(site::after_scheme(url, 7) == 7);
    }
}

/// An upstream is named after the host of its first backend.
pub proof fn law_upstream_has_the_name_of_its_host(h: Seq<char>, port: Seq<char>)
    requires
        simple_host(h),
        text::all_digits(port),
    ensures
        crate::import::traefik::upstream_name(site::url_host(site::url_of(h + ":"@ + port))) == h,
{
    reveal_strlit(":");
    reveal_strlit("://");
    reveal_strlit("http://");
    let t = h + ":"@ + port;
    let n = h.len() as int;
    assert(t[n] == ':');
    assert forall|i: int| 0 <= i < t.len() implies #[trigger] t[i] != '/' && (i != n ==> t[i]
        != ':') by {
        if i < n {
            assert(t[i] == h[i]);
        } else if i > n {
            assert(t[i] == port[i - n - 1]);
            assert(text::digit(port[i - n - 1]));
        }
    }
    if text::holds(t, "://"@) {
        let i = choose|i: int|
            0 <= i && i + "://"@.len() <= t.len() && #[trigger] t.subrange(i, i + "://"@.len())
                == "://"@;
        assert(t.subrange(i, i + 3)[1] == t[i + 1]);
    }
    let url = "http://"@ + t;
    assert(site::url_of(t) == url);
    assert(url.subrange(0, 7) =~= "http://"@);
    assert forall|i: int| 7 <= i < url.len() implies #[trigger] url[i] != '/' by {
        assert(url[i] == t[i - 7]);
    }
    lemma_after_scheme(url, url.len() as int);
    assert(url.subrange(7, url.len() as int) =~= t);
    lemma_up_to(t);
    words::law_rsplit_once(t, ':');
    assert(t.contains(':'));
    let (a, b) = text::rsplit_once_of(t, ':')->0;
    assert(t[a.len() as int] == ':');
    assert(a.len() == n);
    assert(a =~= t.subrange(0, n));
    assert(h =~= t.subrange(0, n));
    assert(crate::import::map::upstream::safe_name(h) =~= h) by {
        assert forall|i: int| 0 <= i < h.len() implies crate::import::map::upstream::key_char(
            #[trigger] h[i],
        ) by {}
    }
}

// ── Hosts ───────────────────────────────────────────────────────────────
proof fn lemma_hosts_stay(
    addresses: Seq<Seq<char>>,
    k: nat,
    n: nat,
    line: int,
    vars: Seq<VarV>,
    notes: Seq<Note>,
    h: Seq<char>,
)
    requires
        k <= n <= addresses.len(),
        site::hosts_of(addresses, k, line, vars, notes).0.contains(h),
    ensures
        site::hosts_of(addresses, n, line, vars, notes).0.contains(h),
    decreases n - k,
{
    if k < n {
        let m = (n - 1) as nat;
        lemma_hosts_stay(addresses, k, m, line, vars, notes, h);
        let (p, told) = site::hosts_of(addresses, m, line, vars, notes);
        let a = site::hosts_of(addresses, n, line, vars, notes).0;
        let i = choose|i: int| 0 <= i < p.len() && p[i] == h;
        assert(a[i] == h);
    }
}

/// A site takes the host of each of its addresses, however the address is
/// written.
pub proof fn law_site_takes_its_hosts(
    addresses: Seq<Seq<char>>,
    line: int,
    vars: Seq<VarV>,
    notes: Seq<Note>,
    i: int,
    h: Seq<char>,
    port: Seq<char>,
)
    requires
        0 <= i < addresses.len(),
        h.len() > 0,
        !h.contains('/'),
        !h.contains(':'),
        !h.contains('{'),
        !h.contains('}'),
        h != "*"@,
        text::all_digits(port),
        addresses[i] == h || addresses[i] == "http://"@ + h || addresses[i] == "https://"@ + h
            || addresses[i] == h + ":"@ + port || addresses[i] == "https://"@ + h + ":"@ + port,
    ensures
        site::hosts_of(addresses, addresses.len(), line, vars, notes).0.contains(h),
{
    let addr = addresses[i];
    reveal_strlit("http://");
    reveal_strlit("https://");
    reveal_strlit(":");
    assert(without_variable(addr)) by {
        assert forall|k: int| 0 <= k < addr.len() - 1 implies !(#[trigger] addr[k] == '{' && addr[k
            + 1] == '$') by {
            lemma_no_brace(h, port, addr, k);
        }
    }
    law_address_names_its_host(h, port, h);
    let n = (i + 1) as nat;
    let (hosts, told) = site::hosts_of(addresses, i as nat, line, vars, notes);
    vars::law_resolve_keeps_plain_text(addr, vars, line, "site address"@, told);
    let a = site::hosts_of(addresses, n, line, vars, notes).0;
    if !hosts.contains(h) {
        assert(a[hosts.len() as int] == h);
    }
    assert(a.contains(h));
    lemma_hosts_stay(addresses, n, addresses.len(), line, vars, notes, h);
}

proof fn lemma_no_brace(h: Seq<char>, port: Seq<char>, addr: Seq<char>, k: int)
    requires
        !h.contains('{'),
        text::all_digits(port),
        addr == h || addr == "http://"@ + h || addr == "https://"@ + h || addr == h + ":"@ + port || addr
            == "https://"@ + h + ":"@ + port,
        0 <= k < addr.len(),
    ensures
        addr[k] != '{',
{
    reveal_strlit("http://");
    reveal_strlit("https://");
    reveal_strlit(":");
    let f: int = if addr == h || addr == h + ":"@ + port {
        0
    } else if addr == "http://"@ + h {
        7
    } else {
        8
    };
    if f <= k < f + h.len() {
        assert(addr[k] == h[k - f]);
        assert(h.contains(h[k - f]));
    } else if k > f + h.len() {
        assert(addr[k] == port[k - f - h.len() - 1]);
        assert(text::digit(port[k - f - h.len() - 1]));
    }
}

// ── Automatic certificates ──────────────────────────────────────────────
proof fn lemma_public(hosts: Seq<Seq<char>>, n: nat, i: int)
    requires
        0 <= i < n <= hosts.len(),
        tls::public_host(hosts[i]),
    ensures
        tls::public_hosts(hosts, n).contains(hosts[i]),
    decreases n,
{
    let k = (n - 1) as nat;
    let a = tls::public_hosts(hosts, n);
    let p = tls::public_hosts(hosts, k);
    if i < k {
        lemma_public(hosts, k, i);
        let j = choose|j: int| 0 <= j < p.len() && p[j] == hosts[i];
        assert(a[j] == hosts[i]);
    } else {
        assert(a[p.len() as int] == hosts[i]);
    }
}

proof fn lemma_merged(domains: Seq<Seq<char>>, more: Seq<Seq<char>>, n: nat, h: Seq<char>)
    requires
        n <= more.len(),
    ensures
        domains.contains(h) ==> tls::merged(domains, more, n).contains(h),
        (exists|i: int| 0 <= i < n && #[trigger] more[i] == h) ==> tls::merged(
            domains,
            more,
            n,
        ).contains(h),
    decreases n,
{
    if n > 0 {
        let k = (n - 1) as nat;
        lemma_merged(domains, more, k, h);
        let p = tls::merged(domains, more, k);
        let a = tls::merged(domains, more, n);
        if !p.contains(more[k as int]) {
            assert(a[p.len() as int] == more[k as int]);
            if p.contains(h) {
                let j = choose|j: int| 0 <= j < p.len() && p[j] == h;
                assert(a[j] == h);
            }
        }
        if exists|i: int| 0 <= i < n && #[trigger] more[i] == h {
            let i = choose|i: int| 0 <= i < n && #[trigger] more[i] == h;
            if i < k {
                assert(exists|i: int| 0 <= i < k && #[trigger] more[i] == h);
            }
        }
    }
}

/// An address of mail: a user, an `@` and a domain with a dot in it, without a
/// slash anywhere.
pub proof fn law_mail_addresses_are_known(user: Seq<char>, domain: Seq<char>)
    requires
        !user.contains('@'),
    ensures
        tls::email_like(user + "@"@ + domain) <==> user.len() > 0 && domain.contains('.')
            && !user.contains('/') && !domain.contains('/'),
        !tls::email_like(user),
{
    reveal_strlit("@");
    let s = user + "@"@ + domain;
    assert(s =~= user + seq!['@'] + domain);
    words::law_split_once_of_joined(user, '@', domain);
    words::law_split_once(user, '@');
    if let Some((a, b)) = text::split_once_of(user, '@') {
        assert(user[a.len() as int] == '@');
    }
    if s.contains('/') {
        let i = choose|i: int| 0 <= i < s.len() && s[i] == '/';
        if i < user.len() {
            assert(user[i] == '/');
        } else {
            assert(domain[i - user.len() - 1] == '/');
        }
    }
    if user.contains('/') {
        let i = choose|i: int| 0 <= i < user.len() && user[i] == '/';
        assert(s[i] == '/');
    }
    if domain.contains('/') {
        let i = choose|i: int| 0 <= i < domain.len() && domain[i] == '/';
        assert(s[user.len() + 1 + i] == '/');
    }
}

proof fn lemma_first_email(args: Seq<Seq<char>>, from: int, i: int)
    requires
        0 <= from <= i < args.len(),
        tls::email_like(args[i]),
        forall|j: int| from <= j < i ==> !tls::email_like(#[trigger] args[j]),
    ensures
        tls::first_email(args, from) == Some(args[i]),
    decreases i - from,
{
    if from < i {
        assert(!tls::email_like(args[from]));
        lemma_first_email(args, from + 1, i);
    }
}

proof fn lemma_no_email(args: Seq<Seq<char>>, from: int)
    requires
        0 <= from <= args.len(),
        forall|j: int| from <= j < args.len() ==> !tls::email_like(#[trigger] args[j]),
    ensures
        tls::first_email(args, from) is None,
    decreases args.len() - from,
{
    if from < args.len() {
        assert(!tls::email_like(args[from]));
        lemma_no_email(args, from + 1);
    }
}

/// The contact is the first address of mail in the `tls` directive; else the one
/// given on the command line; else the one of the global options.
pub proof fn law_contact_is_the_nearest(
    d: Dir,
    cli: Seq<char>,
    global: Seq<char>,
    i: int,
)
    ensures
        0 <= i < d.args.len() && tls::email_like(d.args[i]) && (forall|j: int|
            0 <= j < i ==> !tls::email_like(#[trigger] d.args[j])) ==> tls::contact(
            Some(d),
            Some(cli),
            Some(global),
        ) == Some(d.args[i]),
        (forall|j: int| 0 <= j < d.args.len() ==> !tls::email_like(#[trigger] d.args[j]))
            && tls::email_like(cli) ==> tls::contact(Some(d), Some(cli), Some(global)) == Some(cli)
            && tls::contact(None, Some(cli), Some(global)) == Some(cli),
        (forall|j: int| 0 <= j < d.args.len() ==> !tls::email_like(#[trigger] d.args[j]))
            && tls::email_like(global) ==> tls::contact(Some(d), None, Some(global)) == Some(global),
{
    if 0 <= i < d.args.len() && tls::email_like(d.args[i]) && (forall|j: int|
        0 <= j < i ==> !tls::email_like(#[trigger] d.args[j])) {
        lemma_first_email(d.args, 0, i);
    }
    if forall|j: int| 0 <= j < d.args.len() ==> !tls::email_like(#[trigger] d.args[j]) {
        lemma_no_email(d.args, 0);
    }
}

/// Every public host of a site that is certified automatically is a domain of the
/// account, beside those that were there.
pub proof fn law_public_hosts_are_certified(
    st: StateV,
    body: Seq<Dir>,
    hosts: Seq<Seq<char>>,
    email: Seq<char>,
    i: int,
    j: int,
)
    requires
        0 <= i < hosts.len(),
        tls::public_host(hosts[i]),
        forall|k: int| 0 <= k < body.len() ==> (#[trigger] body[k]).name != "tls"@,
        tls::email_like(email),
    ensures
        tls::acme_step(st, body, hosts, None, Some(email)).doc.acme matches Some(a)
            && a.domains.contains(hosts[i]) && a.email == (match st.doc.acme {
            Some(b) => b.email,
            None => email,
        }) && (st.doc.acme matches Some(b) ==> 0 <= j < b.domains.len() ==> a.domains.contains(
            b.domains[j],
        )),
{
    lemma_named(body, "tls"@, 0);
    assert(tls::find_dir(body, "tls"@) is None);
    let public = tls::public_hosts(hosts, hosts.len());
    lemma_public(hosts, hosts.len(), i);
    let k = choose|k: int| 0 <= k < public.len() && public[k] == hosts[i];
    match st.doc.acme {
        Some(b) => {
            lemma_merged(b.domains, public, public.len(), hosts[i]);
            if 0 <= j < b.domains.len() {
                lemma_merged(b.domains, public, public.len(), b.domains[j]);
            }
        },
        None => {},
    }
}

// ── Snippets ────────────────────────────────────────────────────────────
proof fn lemma_snippet(snippets: Seq<SnippetV>, n: nat, k: int)
    requires
        0 <= k < n <= snippets.len(),
        forall|j: int| k < j < n ==> (#[trigger] snippets[j]).name != snippets[k].name,
    ensures
        super::snippet_body(snippets, n, snippets[k].name) == Some(snippets[k].body),
    decreases n,
{
    if k < n - 1 {
        assert(snippets[n - 1].name != snippets[k].name);
        lemma_snippet(snippets, (n - 1) as nat, k);
    }
}

proof fn lemma_expanded_front(body: Seq<Dir>, d: Dir, n: nat, snippets: Seq<SnippetV>)
    requires
        n <= body.len(),
    ensures
        super::expanded(body.push(d), n, snippets) == super::expanded(body, n, snippets),
    decreases n,
{
    if n > 0 {
        lemma_expanded_front(body, d, (n - 1) as nat, snippets);
        assert(body.push(d)[n - 1] == body[n - 1]);
    }
}

/// An `import` of a snippet stands for what the last snippet of that name holds;
/// any other directive stands for itself.
pub proof fn law_import_stands_for_the_snippet(
    body: Seq<Dir>,
    d: Dir,
    snippets: Seq<SnippetV>,
    k: int,
)
    ensures
        d.name == "import"@ && d.block is None && d.args.len() > 0 && 0 <= k < snippets.len()
            && d.args[0] == snippets[k].name && (forall|j: int|
            k < j < snippets.len() ==> (#[trigger] snippets[j]).name != snippets[k].name)
            ==> super::expanded(body.push(d), body.len() + 1, snippets) == super::expanded(
            body,
            body.len(),
            snippets,
        ) + snippets[k].body,
        d.name != "import"@ ==> super::expanded(body.push(d), body.len() + 1, snippets)
            == super::expanded(body, body.len(), snippets) + seq![d],
{
    lemma_expanded_front(body, d, body.len(), snippets);
    assert(body.push(d)[body.len() as int] == d);
    if d.name == "import"@ && d.block is None && d.args.len() > 0 && 0 <= k < snippets.len()
        && d.args[0] == snippets[k].name && (forall|j: int|
        k < j < snippets.len() ==> (#[trigger] snippets[j]).name != snippets[k].name) {
        lemma_snippet(snippets, snippets.len(), k);
    }
}

// ── Policies ────────────────────────────────────────────────────────────
/// The one-line `header` that sets a policy.
pub open spec fn sets_policy(d: Dir, value: Seq<char>) -> bool {
    d.name == "header"@ && d.block is None && d.args.len() > 1 && text::lower(d.args[0])
        == "content-security-policy"@ && d.args[1] == value
}

proof fn lemma_first_pass(
    s: SiteStateV,
    body: Seq<Dir>,
    n: nat,
    files: Option<StaticV>,
    j: int,
    value: Seq<char>,
)
    requires
        0 <= j < n <= body.len(),
        sets_policy(body[j], value),
        forall|i: int| j < i < n ==> (#[trigger] body[i]).name != "header"@,
    ensures
        site::first_pass(s, body, n, files).csp == Some(value),
    decreases n,
{
    let k = (n - 1) as nat;
    if j < k {
        lemma_first_pass(s, body, k, files, j, value);
        assert(body[k as int].name != "header"@);
    }
}

/// The policy that the last `header` of a site sets is that of the routes of its
/// proxies.
pub proof fn law_site_policy_is_carried_over(
    st: StateV,
    d: Dir,
    rp: Dir,
    value: Seq<char>,
    hosts: Seq<Seq<char>>,
    vars: Seq<VarV>,
    global: Option<Seq<char>>,
    cli: Option<Seq<char>>,
)
    requires
        sets_policy(d, value),
        rp.name == "reverse_proxy"@,
        backends(rp.args, rp.args.len()) > 0,
        forall|i: int| 0 <= i < rp.args.len() ==> without_variable(#[trigger] rp.args[i]),
        backend_word(rp.args[0]),
    ensures
        ({
            let a = site::site_step(st, seq![d, rp], hosts, vars, global, cli).doc;
            &&& a.routes.len() == st.doc.routes.len() + 1
            &&& a.routes.last().csp == Some(value)
            &&& a.routes.last().path == "/{*rest}"@
        }),
{
    let body = seq![d, rp];
    reveal_strlit("header");
    reveal_strlit("reverse_proxy");
    reveal_strlit("file_server");
    reveal_strlit("handle");
    reveal_strlit("route");
    reveal_strlit("tls");
    assert("header"@.len() == 6);
    assert("reverse_proxy"@.len() == 13);
    assert("file_server"@.len() == 11);
    assert("handle"@.len() == 6 && "handle"@[1] == 'a' && "header"@[1] == 'e');
    assert("route"@.len() == 5);
    assert("tls"@.len() == 3);
    lemma_named(body, "file_server"@, 0);
    assert(tls::find_dir(body, "file_server"@) is None);
    let files = site::static_of(body);
    assert(files is None);
    lemma_first_pass(SiteStateV { csp: None, st }, body, 2, files, 0, value);
    let f = site::first_pass(SiteStateV { csp: None, st }, body, 2, files);
    reveal_with_fuel(site::first_pass, 3);
    reveal_with_fuel(site::second_pass, 3);
    assert(f.st.doc == st.doc);
    law_proxy_takes_its_matcher(f.st, rp, hosts, Some(value), vars);
    law_proxy_adds_its_route(f.st, rp, site::matcher_path(None), hosts, Some(value), vars);
}


// ── Header blocks, versions, options ────────────────────────────────────
proof fn lemma_block_policy(block: Seq<Dir>, n: nat, j: int)
    requires
        0 <= j < n <= block.len(),
        text::lower(block[j].name) == "content-security-policy"@,
        block[j].args.len() > 0,
        forall|i: int|
            j < i < n ==> text::lower((#[trigger] block[i]).name) != "content-security-policy"@,
    ensures
        header::block_policy(block, n) == Some(block[j].args[0]),
    decreases n,
{
    if j < n - 1 {
        assert(text::lower(block[n - 1].name) != "content-security-policy"@);
        lemma_block_policy(block, (n - 1) as nat, j);
    }
}

/// The last policy of a header block is the one that it sets.
pub proof fn law_block_sets_its_last_policy(d: Dir, notes: Seq<Note>, j: int)
    requires
        d.block is Some,
        0 <= j < d.block->0.len(),
        text::lower(d.block->0[j].name) == "content-security-policy"@,
        d.block->0[j].args.len() > 0,
        forall|i: int|
            j < i < d.block->0.len() ==> text::lower((#[trigger] d.block->0[i]).name)
                != "content-security-policy"@,
    ensures
        header::header_of(d, notes).0 == Some(d.block->0[j].args[0]),
{
    lemma_block_policy(d.block->0, d.block->0.len(), j);
}

/// TLS 1.2 is let in where the protocols of a `tls` block name it, and nothing
/// takes that back.
pub proof fn law_named_version_is_let_in(st: StateV, block: Seq<Dir>, n: nat, j: int, a: Seq<char>, b: Seq<char>)
    requires
        n <= block.len(),
    ensures
        st.doc.tls_min12 ==> tls::options_step(st, block, n, false).doc.tls_min12,
        0 <= j < n && block[j].name == "protocols"@ && block[j].args.contains(a + "1.2"@ + b)
            ==> tls::options_step(st, block, n, false).doc.tls_min12,
        tls::options_step(st, block, n, false).doc.tls_cert == st.doc.tls_cert,
        tls::options_step(st, block, n, false).doc.routes == st.doc.routes,
    decreases n,
{
    if n > 0 {
        let k = (n - 1) as nat;
        law_named_version_is_let_in(st, block, k, j, a, b);
        if j == k && block[j].name == "protocols"@ && block[j].args.contains(a + "1.2"@ + b) {
            let d = block[j];
            let i = choose|i: int| 0 <= i < d.args.len() && d.args[i] == a + "1.2"@ + b;
            words::law_parts_of_a_text(a, "1.2"@, b);
            assert(text::holds(d.args[i], "1.2"@));
            assert(tls::allows_tls12(d));
        }
    }
}

/// The last `email` of the global options is the one that counts.
pub proof fn law_last_email_counts(ds: Seq<Dir>, n: nat, notes: Seq<Note>, j: int)
    requires
        0 <= j < n <= ds.len(),
        ds[j].name == "email"@,
        ds[j].args.len() > 0,
        forall|i: int| j < i < n ==> (#[trigger] ds[i]).name != "email"@,
    ensures
        super::globals_of(ds, n, notes).0 == Some(ds[j].args[0]),
    decreases n,
{
    if j < n - 1 {
        assert(ds[n - 1].name != "email"@);
        law_last_email_counts(ds, (n - 1) as nat, notes, j);
    }
}

// ── Variables ───────────────────────────────────────────────────────────
proof fn lemma_skip(st: InterV, raw: Seq<char>, p: int, k: int, vars: Seq<VarV>, line: int, ctx: Seq<char>)
    requires
        0 <= p <= k <= raw.len(),
        forall|i: int|
            p <= i < k ==> !(#[trigger] raw[i] == '{' && i + 1 < raw.len() && raw[i + 1] == '$'),
    ensures
        vars::resolve_from(st, raw, p, vars, line, ctx) == vars::resolve_from(
            InterV { out: st.out + raw.subrange(p, k), ..st },
            raw,
            k,
            vars,
            line,
            ctx,
        ),
    decreases k - p,
{
    if p < k {
        let next = InterV { out: st.out.push(raw[p]), ..st };
        lemma_skip(next, raw, p + 1, k, vars, line, ctx);
        assert(next.out + raw.subrange(p + 1, k) =~= st.out + raw.subrange(p, k));
    } else {
        assert(st.out + raw.subrange(p, k) =~= st.out);
    }
}

/// A placeholder stands for the value of its variable, or for its default, and
/// the text around it stays as it is.
pub proof fn law_placeholder_stands_for_its_value(
    a: Seq<char>,
    inner: Seq<char>,
    b: Seq<char>,
    value: Seq<char>,
    vars: Seq<VarV>,
    line: int,
    ctx: Seq<char>,
    notes: Seq<Note>,
)
    requires
        without_variable(a),
        without_variable(b),
        !inner.contains('}'),
        vars::placeholder_value(vars, inner) == Some(value),
    ensures
        vars::resolved(a + "{$"@ + inner + "}"@ + b, vars, line, ctx, notes) == (
            Some(a + value + b),
            notes,
        ),
{
    reveal_strlit("{$");
    reveal_strlit("}");
    let raw = a + "{$"@ + inner + "}"@ + b;
    let n = a.len() as int;
    let st = InterV { out: seq![], ok: true, notes };
    assert(raw[n] == '{' && raw[n + 1] == '$');
    assert forall|i: int| 0 <= i < n implies !(#[trigger] raw[i] == '{' && i + 1 < raw.len()
        && raw[i + 1] == '$') by {
        assert(raw[i] == a[i]);
        if i + 1 < n {
            assert(raw[i + 1] == a[i + 1]);
        }
    }
    lemma_skip(st, raw, 0, n, vars, line, ctx);
    let st1 = InterV { out: st.out + raw.subrange(0, n), ..st };
    assert(st1.out =~= a);
    let e = n + 2 + inner.len();
    text::lemma_index_of(raw, '}', n + 2);
    let found = text::index_of(raw, '}', n + 2);
    assert(raw[e] == '}');
    if found < e {
        assert(inner[found - n - 2] == raw[found]);
    }
    assert(found == e);
    assert(raw.subrange(n + 2, e) =~= inner);
    let st2 = InterV { out: a + value, ok: true, notes };
    assert forall|i: int| e + 1 <= i < raw.len() implies !(#[trigger] raw[i] == '{' && i + 1
        < raw.len() && raw[i + 1] == '$') by {
        assert(raw[i] == b[i - e - 1]);
        if i + 1 < raw.len() {
            assert(raw[i + 1] == b[i - e]);
        }
    }
    lemma_skip(st2, raw, e + 1, raw.len() as int, vars, line, ctx);
    assert(raw.subrange(e + 1, raw.len() as int) =~= b);
}

/// A variable that is set comes before the default of a placeholder; one that is
/// not leaves the default.
pub proof fn law_default_is_for_unset_variables(
    vars: Seq<VarV>,
    key: Seq<char>,
    default: Seq<char>,
    value: Seq<char>,
)
    requires
        !key.contains(':'),
    ensures
        variables::set_to(vars, key, value) && value.len() > 0 ==> vars::placeholder_value(vars, key)
            == Some(value) && vars::placeholder_value(vars, key + ":"@ + default) == Some(value),
        variables::unset_from(vars, 0, key) ==> vars::placeholder_value(vars, key) is None
            && vars::placeholder_value(vars, key + ":"@ + default) == Some(default),
{
    reveal_strlit(":");
    let with = key + ":"@ + default;
    assert(with =~= key + seq![':'] + default);
    words::law_split_once_of_joined(key, ':', default);
    words::law_split_once(key, ':');
    if let Some((x, y)) = text::split_once_of(key, ':') {
        assert(key[x.len() as int] == ':');
    }
    variables::lemma_set_value(vars, key, value);
}

} // verus!
