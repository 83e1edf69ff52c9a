//! Which certificate the hosts of an nginx configuration are served with.
use super::servers::KeptV;
use super::tls;
use super::tls::{CertV, PairV, PairsV, SniTableV};
use super::{DocV, SniV};
use crate::import::nginx::Dir;
use crate::import::Note;
use crate::text;
use vstd::prelude::*;

verus! {

// ── Pairs ───────────────────────────────────────────────────────────────
/// The first directive of the name that has a file names this one.
pub open spec fn first_file(ds: Seq<Dir>, n: nat, name: Seq<char>, file: Seq<char>) -> bool {
    exists|j: int|
        0 <= j < n && (#[trigger] ds[j]).name == name && ds[j].args.len() > 0 && ds[j].args[0] == file
            && fileless(ds, j as nat, name)
}

/// None of the first `n` directives has the name and a file.
pub open spec fn fileless(ds: Seq<Dir>, n: nat, name: Seq<char>) -> bool {
    forall|i: int| 0 <= i < n && (#[trigger] ds[i]).name == name ==> ds[i].args.len() == 0
}

proof fn lemma_pair(st: PairV, ds: Seq<Dir>, n: nat, cert: Seq<char>, key: Seq<char>)
    requires
        n <= ds.len(),
        st.cert is None,
        st.key is None,
    ensures
        first_file(ds, n, "ssl_certificate"@, cert) ==> tls::pair_of(st, ds, n).cert == Some(cert),
        first_file(ds, n, "ssl_certificate_key"@, key) ==> tls::pair_of(st, ds, n).key == Some(key),
        fileless(ds, n, "ssl_certificate"@) ==> tls::pair_of(st, ds, n).cert is None,
        fileless(ds, n, "ssl_certificate_key"@) ==> tls::pair_of(st, ds, n).key is None,
    decreases n,
{
    reveal_strlit("ssl_certificate");
    reveal_strlit("ssl_certificate_key");
    reveal_strlit("ssl_protocols");
    assert("ssl_certificate"@.len() == 15);
    assert("ssl_certificate_key"@.len() == 19);
    assert("ssl_protocols"@.len() == 13);
    if n > 0 {
        let k = (n - 1) as nat;
        lemma_pair(st, ds, k, cert, key);
        let d = ds[k as int];
        let p = tls::pair_of(st, ds, k);
        if first_file(ds, n, "ssl_certificate"@, cert) {
            let j = choose|j: int|
                0 <= j < n && (#[trigger] ds[j]).name == "ssl_certificate"@ && ds[j].args.len() > 0
                    && ds[j].args[0] == cert && fileless(ds, j as nat, "ssl_certificate"@);
            if j < k {
                assert(first_file(ds, k, "ssl_certificate"@, cert));
            }
        }
        if first_file(ds, n, "ssl_certificate_key"@, key) {
            let j = choose|j: int|
                0 <= j < n && (#[trigger] ds[j]).name == "ssl_certificate_key"@ && ds[j].args.len() > 0
                    && ds[j].args[0] == key && fileless(ds, j as nat, "ssl_certificate_key"@);
            if j < k {
                assert(first_file(ds, k, "ssl_certificate_key"@, key));
            }
        }
        if fileless(ds, n, "ssl_certificate"@) {
            assert(fileless(ds, k, "ssl_certificate"@));
        }
        if fileless(ds, n, "ssl_certificate_key"@) {
            assert(fileless(ds, k, "ssl_certificate_key"@));
        }
    }
}

proof fn lemma_kinds(hosts: Seq<Seq<char>>, n: nat, wild: bool, h: Seq<char>)
    requires
        n <= hosts.len(),
    ensures
        tls::hosts_by_kind(hosts, n, wild).contains(h) <==> (exists|i: int|
            0 <= i < n && #[trigger] hosts[i] == h) && text::starts(h, "*."@) == wild,
    decreases n,
{
    let a = tls::hosts_by_kind(hosts, n, wild);
    if n > 0 {
        let k = (n - 1) as nat;
        lemma_kinds(hosts, k, wild, h);
        let p = tls::hosts_by_kind(hosts, k, wild);
        let x = hosts[k as int];
        if text::starts(x, "*."@) == wild {
            assert(a == p.push(x));
            if a.contains(h) {
                let i = choose|i: int| 0 <= i < a.len() && a[i] == h;
                if i < p.len() {
                    assert(p[i] == h);
                    assert(p.contains(h));
                } else {
                    assert(hosts[k as int] == h);
                }
            }
            if p.contains(h) {
                let i = choose|i: int| 0 <= i < p.len() && p[i] == h;
                assert(a[i] == h);
            }
            assert(a[p.len() as int] == x);
        }
        if (exists|i: int| 0 <= i < n && #[trigger] hosts[i] == h) && text::starts(h, "*."@) == wild {
            let i = choose|i: int| 0 <= i < n && #[trigger] hosts[i] == h;
            if i < k {
                assert(p.contains(h));
            }
        }
    }
}

/// A server with a certificate and a key, the first of each, serves them to its
/// hosts: by name to those that are names, and as wildcards to the others.
pub proof fn law_server_has_its_pair(
    st: PairsV,
    k: KeptV,
    cert: Seq<char>,
    key: Seq<char>,
    h: Seq<char>,
)
    requires
        first_file(
            k.server.directives,
            k.server.directives.len(),
            "ssl_certificate"@,
            cert,
        ),
        first_file(
            k.server.directives,
            k.server.directives.len(),
            "ssl_certificate_key"@,
            key,
        ),
    ensures
        ({
            let es = tls::server_pair(st, k).entries;
            let e = es.last();
            let hosts = match k.hosts {
                Some(hs) => hs,
                None => seq![],
            };
            &&& es.len() == st.entries.len() + 1
            &&& es.drop_last() == st.entries
            &&& e.cert == cert
            &&& e.key == key
            &&& e.exact.contains(h) <==> hosts.contains(h) && !text::starts(h, "*."@)
            &&& e.wildcard.contains(h) <==> hosts.contains(h) && text::starts(h, "*."@)
        }),
{
    let s = k.server;
    let start = PairV { cert: None, key: None, line: s.line, min12: st.min12, notes: st.notes };
    lemma_pair(start, s.directives, s.directives.len(), cert, key);
    let hosts = match k.hosts {
        Some(hs) => hs,
        None => seq![],
    };
    lemma_kinds(hosts, hosts.len(), true, h);
    lemma_kinds(hosts, hosts.len(), false, h);
    let es = tls::server_pair(st, k).entries;
    assert(es.drop_last() =~= st.entries);
}

/// A server without a certificate, or without a key, serves none.
pub proof fn law_half_a_pair_is_none(st: PairsV, k: KeptV)
    requires
        fileless(k.server.directives, k.server.directives.len(), "ssl_certificate"@) || fileless(
            k.server.directives,
            k.server.directives.len(),
            "ssl_certificate_key"@,
        ),
    ensures
        tls::server_pair(st, k).entries == st.entries,
{
    let s = k.server;
    let start = PairV { cert: None, key: None, line: s.line, min12: st.min12, notes: st.notes };
    lemma_pair(start, s.directives, s.directives.len(), seq![], seq![]);
}

// ── The default and the names ───────────────────────────────────────────
proof fn lemma_default(entries: Seq<CertV>, i: nat)
    requires
        i <= entries.len(),
        entries.len() > 0,
    ensures
        ({
            let d = tls::default_pair(entries, i);
            &&& d < entries.len()
            &&& (exists|j: int| i <= j < entries.len() && (#[trigger] entries[j]).wildcard.len() > 0)
                ==> i <= d && entries[d as int].wildcard.len() > 0 && forall|j: int|
                i <= j < d ==> (#[trigger] entries[j]).wildcard.len() == 0
            &&& (forall|j: int|
                i <= j < entries.len() ==> (#[trigger] entries[j]).wildcard.len() == 0) ==> d == 0
        }),
    decreases entries.len() - i,
{
    if i < entries.len() && entries[i as int].wildcard.len() == 0 {
        lemma_default(entries, i + 1);
        if exists|j: int| i <= j < entries.len() && (#[trigger] entries[j]).wildcard.len() > 0 {
            let j = choose|j: int|
                i <= j < entries.len() && (#[trigger] entries[j]).wildcard.len() > 0;
            assert(i + 1 <= j);
        }
    }
}

/// The names that the table has been through, and what it says of them.
spec fn table_is_right(t: SniTableV, base: Seq<SniV>, entries: Seq<CertV>, n: nat, d: nat) -> bool {
    &&& t.sni.len() >= base.len()
    &&& t.sni.subrange(0, base.len() as int) == base
    &&& forall|i: int|
        base.len() <= i < t.sni.len() ==> exists|e: int|
            0 <= e < n && e != d && (#[trigger] entries[e]).exact.contains(
                (#[trigger] t.sni[i]).server_name,
            ) && t.sni[i].cert == entries[e].cert && t.sni[i].key == entries[e].key
    &&& forall|e: int, h: Seq<char>|
        0 <= e < n && #[trigger] entries[e].exact.contains(h) ==> t.seen.contains(h)
    &&& forall|h: Seq<char>|
        #[trigger] t.seen.contains(h) ==> exists|e: int|
            0 <= e < n && (#[trigger] entries[e]).exact.contains(h)
}

/// Every name of the table is served with the pair of a server that has it, and
/// every name of a server that shares it with no other has its pair, unless that
/// is the default. The default is the pair of the first server with a wildcard,
/// or of the first server.
pub proof fn law_names_are_served_with_their_pair(
    doc: DocV,
    kept: Seq<KeptV>,
    notes: Seq<Note>,
    n: int,
    h: Seq<char>,
)
    requires
        tls::pairs_of(
            PairsV { entries: seq![], min12: doc.tls_min12, notes },
            kept,
            kept.len(),
        ).entries.len() > 0,
    ensures
        ({
            let es = tls::pairs_of(
                PairsV { entries: seq![], min12: doc.tls_min12, notes },
                kept,
                kept.len(),
            ).entries;
            let a = tls::tls_doc(doc, kept, notes).0;
            &&& exists|d: int|
                {
                    &&& 0 <= d < es.len()
                    &&& a.tls_cert == (#[trigger] es[d]).cert
                    &&& a.tls_key == es[d].key
                    &&& (forall|j: int| 0 <= j < es.len() ==> (#[trigger] es[j]).wildcard.len() == 0)
                        ==> d == 0
                    &&& (exists|j: int| 0 <= j < es.len() && (#[trigger] es[j]).wildcard.len() > 0)
                        ==> es[d].wildcard.len() > 0 && forall|j: int|
                        0 <= j < d ==> (#[trigger] es[j]).wildcard.len() == 0
                    &&& 0 <= n < es.len() && n != d && es[n].exact.contains(h) && (forall|j: int|
                        0 <= j < es.len() && j != n ==> !(#[trigger] es[j]).exact.contains(h))
                        ==> a.sni.contains(
                        SniV { server_name: h, cert: es[n].cert, key: es[n].key },
                    )
                }
            &&& forall|i: int|
                doc.sni.len() <= i < a.sni.len() ==> exists|e: int|
                    0 <= e < es.len() && (#[trigger] es[e]).exact.contains(
                        (#[trigger] a.sni[i]).server_name,
                    ) && a.sni[i].cert == es[e].cert && a.sni[i].key == es[e].key
            &&& a.routes == doc.routes
        }),
{
    let p = tls::pairs_of(
        PairsV { entries: seq![], min12: doc.tls_min12, notes },
        kept,
        kept.len(),
    );
    let es = p.entries;
    let d = tls::default_pair(es, 0);
    lemma_default(es, 0);
    let a = tls::tls_doc(doc, kept, notes).0;
    let start = SniTableV {
        seen: seq![],
        sni: doc.sni,
        notes: p.notes.push(
            crate::import::note(
                crate::import::Status::Convert,
                es[d as int].line,
                "ssl_certificate"@,
                "default [tls] certificate pair (ssl_certificate + ssl_certificate_key)"@,
            ),
        ),
    };
    lemma_table(start, es, es.len(), d, n, h);
    let t = tls::sni_table(start, es, es.len(), d);
    assert(a.sni == t.sni);
    assert(es[d as int].cert == a.tls_cert);
    assert forall|i: int| doc.sni.len() <= i < a.sni.len() implies exists|e: int|
        0 <= e < es.len() && (#[trigger] es[e]).exact.contains((#[trigger] a.sni[i]).server_name)
            && a.sni[i].cert == es[e].cert && a.sni[i].key == es[e].key by {
        let e = choose|e: int|
            0 <= e < es.len() && e != d && (#[trigger] es[e]).exact.contains(t.sni[i].server_name)
                && t.sni[i].cert == es[e].cert && t.sni[i].key == es[e].key;
        assert(es[e].exact.contains(a.sni[i].server_name));
    }
}

proof fn lemma_table(
    start: SniTableV,
    entries: Seq<CertV>,
    n: nat,
    d: nat,
    k: int,
    h: Seq<char>,
)
    requires
        n <= entries.len(),
        start.seen.len() == 0,
    ensures
        table_is_right(tls::sni_table(start, entries, n, d), start.sni, entries, n, d),
        0 <= k < n && k != d && entries[k].exact.contains(h) && (forall|j: int|
            0 <= j < n && j != k ==> !(#[trigger] entries[j]).exact.contains(h))
            ==> tls::sni_table(start, entries, n, d).sni.contains(
            SniV { server_name: h, cert: entries[k].cert, key: entries[k].key },
        ),
    decreases n,
{
    if n == 0 {
        assert(start.sni.subrange(0, start.sni.len() as int) =~= start.sni);
    } else {
        let m = (n - 1) as nat;
        lemma_table(start, entries, m, d, k, h);
        let p = tls::sni_table(start, entries, m, d);
        let e = entries[m as int];
        let cert = entries[d as int].cert;
        let q = SniTableV {
            notes: tls::wildcard_notes(p.notes, e, e.wildcard.len(), cert),
            ..p
        };
        let t = tls::exact_hosts(q, e, e.exact.len(), m == d);
        let all = tls::sni_table(start, entries, n, d);
        assert(all.sni == t.sni && all.seen == t.seen);
        lemma_exact(q, e, e.exact.len(), m == d, h);
        let base = start.sni;
        assert(t.sni.subrange(0, base.len() as int) =~= base) by {
            assert forall|i: int| 0 <= i < base.len() implies t.sni[i] == base[i] by {
                assert(t.sni.subrange(0, p.sni.len() as int)[i] == p.sni[i]);
                assert(p.sni.subrange(0, base.len() as int)[i] == base[i]);
            }
        }
        assert forall|i: int| base.len() <= i < t.sni.len() implies exists|x: int|
            0 <= x < n && x != d && (#[trigger] entries[x]).exact.contains(
                (#[trigger] t.sni[i]).server_name,
            ) && t.sni[i].cert == entries[x].cert && t.sni[i].key == entries[x].key by {
            if i < p.sni.len() {
                assert(t.sni.subrange(0, p.sni.len() as int)[i] == p.sni[i]);
                let x = choose|x: int|
                    0 <= x < m && x != d && (#[trigger] entries[x]).exact.contains(
                        p.sni[i].server_name,
                    ) && p.sni[i].cert == entries[x].cert && p.sni[i].key == entries[x].key;
                assert(entries[x].exact.contains(t.sni[i].server_name));
            } else {
                assert(entries[m as int].exact.contains(t.sni[i].server_name));
            }
        }
        assert forall|x: int, g: Seq<char>|
            0 <= x < n && #[trigger] entries[x].exact.contains(g) implies t.seen.contains(g) by {
            lemma_exact(q, e, e.exact.len(), m == d, g);
            if x < m {
                assert(p.seen.contains(g));
            } else {
                let i = choose|i: int| 0 <= i < e.exact.len() && e.exact[i] == g;
                assert(e.exact[i] == g);
            }
        }
        assert forall|g: Seq<char>| #[trigger] t.seen.contains(g) implies exists|x: int|
            0 <= x < n && (#[trigger] entries[x]).exact.contains(g) by {
            lemma_exact(q, e, e.exact.len(), m == d, g);
            if p.seen.contains(g) {
                let x = choose|x: int| 0 <= x < m && (#[trigger] entries[x]).exact.contains(g);
                assert(entries[x].exact.contains(g));
            } else {
                assert(entries[m as int].exact.contains(g));
            }
        }
        if 0 <= k < n && k != d && entries[k].exact.contains(h) && (forall|j: int|
            0 <= j < n && j != k ==> !(#[trigger] entries[j]).exact.contains(h)) {
            let want = SniV { server_name: h, cert: entries[k].cert, key: entries[k].key };
            if k < m {
                let i = choose|i: int| 0 <= i < p.sni.len() && p.sni[i] == want;
                assert(t.sni.subrange(0, p.sni.len() as int)[i] == p.sni[i]);
                assert(t.sni[i] == want);
            } else if p.seen.contains(h) {
                let x = choose|x: int| 0 <= x < m && (#[trigger] entries[x]).exact.contains(h);
                assert(!entries[x].exact.contains(h));
            }
        }
    }
}

/// What the names of one pair add to the table.
proof fn lemma_exact(st: SniTableV, e: CertV, n: nat, is_default: bool, h: Seq<char>)
    requires
        n <= e.exact.len(),
    ensures
        ({
            let t = tls::exact_hosts(st, e, n, is_default);
            &&& t.sni.len() >= st.sni.len()
            &&& t.sni.subrange(0, st.sni.len() as int) == st.sni
            &&& is_default ==> t.sni == st.sni
            &&& forall|i: int|
                st.sni.len() <= i < t.sni.len() ==> !is_default && e.exact.contains(
                    (#[trigger] t.sni[i]).server_name,
                ) && t.sni[i].cert == e.cert && t.sni[i].key == e.key
            &&& st.seen.contains(h) ==> t.seen.contains(h)
            &&& t.seen.contains(h) ==> st.seen.contains(h) || e.exact.contains(h)
            &&& (exists|i: int| 0 <= i < n && #[trigger] e.exact[i] == h) ==> t.seen.contains(h)
            &&& (exists|i: int| 0 <= i < n && #[trigger] e.exact[i] == h) && !is_default
                && !st.seen.contains(h) ==> t.sni.contains(
                SniV { server_name: h, cert: e.cert, key: e.key },
            )
        }),
    decreases n,
{
    if n == 0 {
        assert(st.sni.subrange(0, st.sni.len() as int) =~= st.sni);
    } else {
        let m = (n - 1) as nat;
        lemma_exact(st, e, m, is_default, h);
        let p = tls::exact_hosts(st, e, m, is_default);
        let t = tls::exact_hosts(st, e, n, is_default);
        let name = e.exact[m as int];
        let want = SniV { server_name: h, cert: e.cert, key: e.key };
        lemma_exact(st, e, m, is_default, name);
        assert(t.sni.subrange(0, st.sni.len() as int) =~= p.sni.subrange(0, st.sni.len() as int));
        assert(e.exact.contains(name));
        if !p.seen.contains(name) {
            assert(t.seen == p.seen.push(name));
            assert(t.seen[p.seen.len() as int] == name);
            if p.seen.contains(h) {
                let i = choose|i: int| 0 <= i < p.seen.len() && p.seen[i] == h;
                assert(t.seen[i] == h);
            }
            if t.seen.contains(h) && !p.seen.contains(h) {
                let i = choose|i: int| 0 <= i < t.seen.len() && t.seen[i] == h;
                if i < p.seen.len() {
                    assert(p.seen[i] == h);
                }
            }
            if !is_default {
                assert(t.sni[p.sni.len() as int].server_name == name);
                if p.sni.contains(want) {
                    let i = choose|i: int| 0 <= i < p.sni.len() && p.sni[i] == want;
                    assert(t.sni[i] == want);
                }
                if name == h {
                    assert(t.sni[p.sni.len() as int] == want);
                }
            }
        }
        if exists|i: int| 0 <= i < n && #[trigger] e.exact[i] == h {
            let i = choose|i: int| 0 <= i < n && #[trigger] e.exact[i] == h;
            if i < m {
                assert(exists|i: int| 0 <= i < m && #[trigger] e.exact[i] == h);
            } else if p.seen.contains(h) && !st.seen.contains(h) {
                lemma_seen_has_entry(st, e, m, is_default, h);
            }
        }
    }
}

proof fn lemma_seen_has_entry(st: SniTableV, e: CertV, n: nat, is_default: bool, h: Seq<char>)
    requires
        n <= e.exact.len(),
        tls::exact_hosts(st, e, n, is_default).seen.contains(h),
        !st.seen.contains(h),
    ensures
        exists|i: int| 0 <= i < n && #[trigger] e.exact[i] == h,
    decreases n,
{
    if n > 0 {
        let m = (n - 1) as nat;
        let p = tls::exact_hosts(st, e, m, is_default);
        let t = tls::exact_hosts(st, e, n, is_default);
        if p.seen.contains(h) {
            lemma_seen_has_entry(st, e, m, is_default, h);
        } else {
            let i = choose|i: int| 0 <= i < t.seen.len() && t.seen[i] == h;
            if i < p.seen.len() {
                assert(p.seen[i] == h);
            }
            assert(e.exact[m as int] == h);
        }
    }
}

// ── Versions ────────────────────────────────────────────────────────────
/// TLS 1.2 is let in where `ssl_protocols` lists it or an older version, and
/// nothing takes that back.
pub proof fn law_listed_versions_are_let_in(st: PairV, d: Dir)
    requires
        d.name == "ssl_protocols"@,
    ensures
        tls::pair_step(st, d).min12 == (st.min12 || d.args.contains("TLSv1"@) || d.args.contains(
            "TLSv1.1"@,
        ) || d.args.contains("TLSv1.2"@)),
        tls::pair_step(st, d).cert == st.cert,
        tls::pair_step(st, d).key == st.key,
{
    reveal_strlit("ssl_certificate");
    reveal_strlit("ssl_certificate_key");
    reveal_strlit("ssl_protocols");
    assert("ssl_certificate"@.len() == 15);
    assert("ssl_certificate_key"@.len() == 19);
    assert("ssl_protocols"@.len() == 13);
}

} // verus!
