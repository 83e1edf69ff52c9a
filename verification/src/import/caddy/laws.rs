//! What holds of every document built from a Caddyfile.
use super::reader::FileV;
use super::site;
use super::site::{SiteStateV, StaticV};
use super::tls;
use super::tls::StateV;
use crate::import::caddy;
use crate::import::env::VarV;
use crate::import::map::DocV;
use crate::import::nginx::Dir;
use crate::import::{Note, Status};
use vstd::prelude::*;

verus! {

/// No upstream name is defined twice, and every route that serves no files
/// names an upstream of the document.
pub open spec fn sound(doc: DocV) -> bool {
    &&& forall|i: int, j: int|
        0 <= i < j < doc.upstreams.len() ==> (#[trigger] doc.upstreams[i]).name != (
        #[trigger] doc.upstreams[j]).name
    &&& forall|i: int|
        0 <= i < doc.routes.len() ==> (#[trigger] doc.routes[i]).serve_dir is Some
            || site::upstream_named(doc.upstreams, doc.routes[i].upstream)
}

/// The hosts of a site are pairwise distinct, and none is empty, `*` or holds a
/// placeholder.
pub proof fn law_hosts_are_distinct(
    addresses: Seq<Seq<char>>,
    n: nat,
    line: int,
    vars: Seq<VarV>,
    notes: Seq<Note>,
)
    requires
        n <= addresses.len(),
    ensures
        ({
            let hosts = site::hosts_of(addresses, n, line, vars, notes).0;
            &&& hosts.no_duplicates()
            &&& forall|i: int|
                0 <= i < hosts.len() ==> (#[trigger] hosts[i]).len() > 0 && hosts[i] != "*"@
                    && !hosts[i].contains('{') && !hosts[i].contains('}')
        }),
    decreases n,
{
    if n > 0 {
        law_hosts_are_distinct(addresses, (n - 1) as nat, line, vars, notes);
        let before = site::hosts_of(addresses, (n - 1) as nat, line, vars, notes).0;
        let hosts = site::hosts_of(addresses, n, line, vars, notes).0;
        if hosts.len() > before.len() {
            let h = hosts[before.len() as int];
            assert(hosts =~= before.push(h));
            assert forall|i: int, j: int| 0 <= i < hosts.len() && 0 <= j < hosts.len() && i
                != j implies hosts[i] != hosts[j] by {
                if i < before.len() {
                    assert(before.contains(before[i]));
                }
                if j < before.len() {
                    assert(before.contains(before[j]));
                }
            }
        }
    }
}

proof fn lemma_push_keeps_names(doc: DocV, st: StateV, rp: Dir, path: Seq<char>, hosts: Seq<
    Seq<char>,
>, csp: Option<Seq<char>>, vars: Seq<VarV>)
    requires
        sound(st.doc),
        doc == site::proxy_step(st, rp, path, hosts, csp, vars).doc,
    ensures
        sound(doc),
{
    let us = st.doc.upstreams;
    if doc.routes.len() > st.doc.routes.len() {
        let name = doc.routes.last().upstream;
        assert(doc.routes =~= st.doc.routes.push(doc.routes.last()));
        assert forall|m: Seq<char>| site::upstream_named(us, m) implies site::upstream_named(
            doc.upstreams,
            m,
        ) by {
            let k = choose|k: int| 0 <= k < us.len() && (#[trigger] us[k]).name == m;
            assert(doc.upstreams[k].name == m);
        }
        if !site::upstream_named(us, name) {
            assert(doc.upstreams[us.len() as int].name == name);
            assert(site::upstream_named(doc.upstreams, name));
            assert forall|i: int, j: int| 0 <= i < j < doc.upstreams.len() implies (
            #[trigger] doc.upstreams[i]).name != (#[trigger] doc.upstreams[j]).name by {
                if j == us.len() {
                    assert(us[i].name != name);
                } else {
                    assert(us[i].name != us[j].name);
                }
            }
        }
        assert forall|i: int| 0 <= i < doc.routes.len() implies (#[trigger] doc.routes[i]).serve_dir
            is Some || site::upstream_named(doc.upstreams, doc.routes[i].upstream) by {
            if i < st.doc.routes.len() {
                assert(doc.routes[i] == st.doc.routes[i]);
            }
        }
    }
}

proof fn lemma_options_keep(st: StateV, block: Seq<Dir>, n: nat, files: bool)
    ensures
        tls::options_step(st, block, n, files).doc.upstreams == st.doc.upstreams,
        tls::options_step(st, block, n, files).doc.routes == st.doc.routes,
    decreases n,
{
    if n > 0 {
        lemma_options_keep(st, block, (n - 1) as nat, files);
    }
}

proof fn lemma_tls_keeps(st: StateV, d: Dir)
    ensures
        tls::tls_step(st, d).doc.upstreams == st.doc.upstreams,
        tls::tls_step(st, d).doc.routes == st.doc.routes,
{
    let bare = Dir { block: None, ..d };
    if let Some(block) = d.block {
        lemma_options_keep(
            tls::tls_step(st, bare),
            block,
            block.len(),
            tls::explicit_cert(d),
        );
    }
}

proof fn lemma_first_pass_keeps(s: SiteStateV, body: Seq<Dir>, n: nat, files: Option<StaticV>)
    ensures
        site::first_pass(s, body, n, files).st.doc.upstreams == s.st.doc.upstreams,
        site::first_pass(s, body, n, files).st.doc.routes == s.st.doc.routes,
    decreases n,
{
    if n > 0 {
        lemma_first_pass_keeps(s, body, (n - 1) as nat, files);
        lemma_tls_keeps(site::first_pass(s, body, (n - 1) as nat, files).st, body[n - 1]);
    }
}

proof fn lemma_second_pass_keeps(
    st: StateV,
    body: Seq<Dir>,
    n: nat,
    hosts: Seq<Seq<char>>,
    csp: Option<Seq<char>>,
    vars: Seq<VarV>,
)
    requires
        sound(st.doc),
    ensures
        sound(site::second_pass(st, body, n, hosts, csp, vars).doc),
    decreases n,
{
    if n > 0 {
        lemma_second_pass_keeps(st, body, (n - 1) as nat, hosts, csp, vars);
        let p = site::second_pass(st, body, (n - 1) as nat, hosts, csp, vars);
        let d = body[n - 1];
        if d.name == "handle"@ || d.name == "route"@ {
            if d.block is Some {
                let block = d.block->0;
                let (own_csp, told) = site::handler_policy(csp, block, block.len(), p.notes);
                let q = StateV { notes: told, ..p };
                let matcher = if d.args.len() > 0 {
                    Some(d.args[0])
                } else {
                    None
                };
                match tls::find_dir(block, "reverse_proxy"@) {
                    Some(rp) => {
                        let path = site::matcher_path(matcher);
                        lemma_push_keeps_names(
                            site::proxy_step(q, rp, path, hosts, own_csp, vars).doc,
                            q,
                            rp,
                            path,
                            hosts,
                            own_csp,
                            vars,
                        );
                    },
                    None => {},
                }
            }
        } else if d.name == "reverse_proxy"@ {
            let matcher = if d.args.len() > 0 && site::matcher_word(d.args[0]) {
                Some(d.args[0])
            } else {
                None
            };
            let path = site::matcher_path(matcher);
            lemma_push_keeps_names(
                site::proxy_step(p, d, path, hosts, csp, vars).doc,
                p,
                d,
                path,
                hosts,
                csp,
                vars,
            );
        }
    }
}

/// Mapping a site keeps a document sound.
pub proof fn law_site_keeps_document_sound(
    st: StateV,
    body: Seq<Dir>,
    hosts: Seq<Seq<char>>,
    vars: Seq<VarV>,
    global: Option<Seq<char>>,
    cli: Option<Seq<char>>,
)
    requires
        sound(st.doc),
    ensures
        sound(site::site_step(st, body, hosts, vars, global, cli).doc),
{
    let files = site::static_of(body);
    let f = site::first_pass(SiteStateV { csp: None, st }, body, body.len(), files);
    lemma_first_pass_keeps(SiteStateV { csp: None, st }, body, body.len(), files);
    lemma_second_pass_keeps(f.st, body, body.len(), hosts, f.csp, vars);
    let routed = site::second_pass(f.st, body, body.len(), hosts, f.csp, vars);
    let served = site::static_step(routed, files, hosts, f.csp);
    assert forall|i: int| 0 <= i < served.doc.routes.len() implies (
    #[trigger] served.doc.routes[i]).serve_dir is Some || site::upstream_named(
        served.doc.upstreams,
        served.doc.routes[i].upstream,
    ) by {
        if i < routed.doc.routes.len() {
            assert(served.doc.routes[i] == routed.doc.routes[i]);
        }
    }
    assert(served.doc.upstreams == routed.doc.upstreams);
}

/// Every document built from a Caddyfile is sound.
pub proof fn law_built_document_is_sound(
    f: FileV,
    vars: Seq<VarV>,
    cli: Option<Seq<char>>,
    notes: Seq<Note>,
)
    ensures
        sound(caddy::build_of(f, vars, cli, notes).0),
{
    let (global, told) = caddy::globals_of(f.global, f.global.len(), notes);
    lemma_sites_sound(
        StateV { doc: caddy::start_doc(), notes: told },
        f,
        f.sites.len(),
        vars,
        global,
        cli,
    );
}

proof fn lemma_sites_sound(
    st: StateV,
    f: FileV,
    n: nat,
    vars: Seq<VarV>,
    global: Option<Seq<char>>,
    cli: Option<Seq<char>>,
)
    requires
        sound(st.doc),
    ensures
        sound(caddy::sites_built(st, f, n, vars, global, cli).doc),
    decreases n,
{
    if n > 0 {
        lemma_sites_sound(st, f, (n - 1) as nat, vars, global, cli);
        let p = caddy::sites_built(st, f, (n - 1) as nat, vars, global, cli);
        let s = f.sites[n - 1];
        let (hosts, told) = site::hosts_of(s.addresses, s.addresses.len(), s.line, vars, p.notes);
        law_site_keeps_document_sound(
            StateV { notes: told, ..p },
            caddy::expanded(s.body, s.body.len(), f.snippets),
            hosts,
            vars,
            global,
            cli,
        );
    }
}

/// The routes that the second pass over a site adds are proxy routes.
proof fn lemma_second_pass_adds_proxies(
    st: StateV,
    body: Seq<Dir>,
    n: nat,
    hosts: Seq<Seq<char>>,
    csp: Option<Seq<char>>,
    vars: Seq<VarV>,
)
    ensures
        ({
            let old = st.doc.routes;
            let new = site::second_pass(st, body, n, hosts, csp, vars).doc.routes;
            &&& old.len() <= new.len()
            &&& forall|i: int| old.len() <= i < new.len() ==> (#[trigger] new[i]).serve_dir is None
        }),
    decreases n,
{
    if n > 0 {
        lemma_second_pass_adds_proxies(st, body, (n - 1) as nat, hosts, csp, vars);
    }
}

/// The files of a site never get a catch-all route beside a proxy route that
/// already has it, which the router would refuse at boot.
pub proof fn law_files_yield_to_proxies(
    st: StateV,
    body: Seq<Dir>,
    hosts: Seq<Seq<char>>,
    vars: Seq<VarV>,
    global: Option<Seq<char>>,
    cli: Option<Seq<char>>,
    i: int,
    j: int,
)
    requires
        ({
            let routes = site::site_step(st, body, hosts, vars, global, cli).doc.routes;
            &&& 0 <= i < routes.len()
            &&& st.doc.routes.len() <= j < routes.len()
            &&& routes[i].serve_dir is None
            &&& routes[j].serve_dir is Some
        }),
    ensures
        ({
            let routes = site::site_step(st, body, hosts, vars, global, cli).doc.routes;
            routes[i].path != routes[j].path || routes[i].hosts != routes[j].hosts
        }),
{
    let files = site::static_of(body);
    let f = site::first_pass(SiteStateV { csp: None, st }, body, body.len(), files);
    lemma_first_pass_keeps(SiteStateV { csp: None, st }, body, body.len(), files);
    lemma_second_pass_adds_proxies(f.st, body, body.len(), hosts, f.csp, vars);
    let routed = site::second_pass(f.st, body, body.len(), hosts, f.csp, vars).doc.routes;
    let routes = site::site_step(st, body, hosts, vars, global, cli).doc.routes;
    assert(j == routed.len());
    assert(routes[i] == routed[i]);
}

/// Files that a site serves for every host are told.
pub proof fn law_hostless_files_are_told(
    st: StateV,
    body: Seq<Dir>,
    hosts: Seq<Seq<char>>,
    vars: Seq<VarV>,
    global: Option<Seq<char>>,
    cli: Option<Seq<char>>,
    j: int,
)
    requires
        ({
            let routes = site::site_step(st, body, hosts, vars, global, cli).doc.routes;
            &&& st.doc.routes.len() <= j < routes.len()
            &&& routes[j].serve_dir is Some
            &&& routes[j].hosts is None
        }),
    ensures
        ({
            let notes = site::site_step(st, body, hosts, vars, global, cli).notes;
            exists|k: int|
                0 <= k < notes.len() && (#[trigger] notes[k]).directive
                    == "file_server (hostless)"@ && notes[k].status == Status::Partial
        }),
{
    let files = site::static_of(body);
    let f = site::first_pass(SiteStateV { csp: None, st }, body, body.len(), files);
    lemma_first_pass_keeps(SiteStateV { csp: None, st }, body, body.len(), files);
    lemma_second_pass_adds_proxies(f.st, body, body.len(), hosts, f.csp, vars);
    let routed = site::second_pass(f.st, body, body.len(), hosts, f.csp, vars);
    assert(j == routed.doc.routes.len());
    let notes = site::site_step(st, body, hosts, vars, global, cli).notes;
    let k = routed.notes.len() as int;
    assert(notes[k].directive == "file_server (hostless)"@);
}

} // verus!
