//! Certificates and protocol versions.
use super::servers::{Kept, KeptV};
use super::{DocV, SniOut, SniV, ZionDoc};
use crate::import;
use crate::import::nginx::{Dir, Directive};
use crate::import::{file, Finding, Note, Status};
use crate::text;
use crate::text::{cat3, join_strings, list_has, same, starts_with};
use vstd::prelude::*;

verus! {

broadcast use {crate::text::group_views, crate::import::nginx::lemma_dir_view};

// ── Pairs ───────────────────────────────────────────────────────────────
/// A certificate pair and the hosts it is for.
pub struct CertEntry {
    pub cert: String,
    pub key: String,
    pub line: u32,
    pub exact: Vec<String>,
    pub wildcard: Vec<String>,
}

#[verifier::ext_equal]
pub struct CertV {
    pub cert: Seq<char>,
    pub key: Seq<char>,
    pub line: int,
    pub exact: Seq<Seq<char>>,
    pub wildcard: Seq<Seq<char>>,
}

impl View for CertEntry {
    type V = CertV;

    open spec fn view(&self) -> CertV {
        CertV {
            cert: self.cert@,
            key: self.key@,
            line: self.line as int,
            exact: text::views(self.exact@),
            wildcard: text::views(self.wildcard@),
        }
    }
}

/// What the TLS directives of a server said so far.
pub struct PairV {
    pub cert: Option<Seq<char>>,
    pub key: Option<Seq<char>>,
    pub line: int,
    pub min12: bool,
    pub notes: Seq<Note>,
}

pub open spec fn protocols_step(st: PairV, d: Dir) -> PairV {
    let say = |status: Status, detail: Seq<char>|
        st.notes.push(import::note(status, d.line, "ssl_protocols"@, detail));
    if d.args.contains("TLSv1"@) || d.args.contains("TLSv1.1"@) {
        // Floor as low as Zion goes so 1.2 clients keep working.
        PairV {
            min12: true,
            notes: say(
                Status::Partial,
                "TLS 1.0/1.1 requested — Zion's floor is 1.2; emitted min_version = \"1.2\""@,
            ),
            ..st
        }
    } else if d.args.contains("TLSv1.2"@) {
        PairV {
            min12: true,
            notes: say(Status::Convert, "tls.min_version = \"1.2\""@),
            ..st
        }
    } else if d.args.contains("TLSv1.3"@) {
        PairV { notes: say(Status::Convert, "TLS 1.3-only is Zion's default"@), ..st }
    } else {
        PairV {
            notes: say(
                Status::Unsupported,
                "no supported protocol in ["@ + text::join(d.args, ", "@)
                    + "] — Zion emits its default (TLS 1.3)"@,
            ),
            ..st
        }
    }
}

/// A half of a pair that names no file.
pub open spec fn missing_file(d: Dir) -> Note {
    import::note(Status::Unsupported, d.line, d.name, "missing file"@)
}

pub open spec fn pair_step(st: PairV, d: Dir) -> PairV {
    if d.name == "ssl_certificate"@ {
        if st.cert is Some {
            PairV {
                notes: st.notes.push(
                    import::note(
                        Status::Partial,
                        d.line,
                        "ssl_certificate"@,
                        "multiple certificate pairs (RSA+ECDSA dual-cert?) — first pair kept"@,
                    ),
                ),
                ..st
            }
        } else if d.args.len() > 0 {
            PairV { cert: Some(d.args[0]), line: d.line, ..st }
        } else {
            PairV { notes: st.notes.push(missing_file(d)), ..st }
        }
    } else if d.name == "ssl_certificate_key"@ {
        if d.args.len() == 0 {
            PairV { notes: st.notes.push(missing_file(d)), ..st }
        } else if st.key is None {
            PairV { key: Some(d.args[0]), ..st }
        } else {
            st
        }
    } else if d.name == "ssl_protocols"@ {
        protocols_step(st, d)
    } else {
        st
    }
}

pub open spec fn pair_of(st: PairV, ds: Seq<Dir>, n: nat) -> PairV
    decreases n,
{
    if n == 0 {
        st
    } else {
        pair_step(pair_of(st, ds, (n - 1) as nat), ds[n - 1])
    }
}

/// The first `n` hosts, those that are wildcards (or those that are not).
pub open spec fn hosts_by_kind(hosts: Seq<Seq<char>>, n: nat, wild: bool) -> Seq<Seq<char>>
    decreases n,
{
    if n == 0 {
        seq![]
    } else {
        let p = hosts_by_kind(hosts, (n - 1) as nat, wild);
        if text::starts(hosts[n - 1], "*."@) == wild {
            p.push(hosts[n - 1])
        } else {
            p
        }
    }
}

/// The pairs of the first `n` kept servers.
pub struct PairsV {
    pub entries: Seq<CertV>,
    pub min12: bool,
    pub notes: Seq<Note>,
}

pub open spec fn server_pair(st: PairsV, k: KeptV) -> PairsV {
    let s = k.server;
    let p = pair_of(
        PairV { cert: None, key: None, line: s.line, min12: st.min12, notes: st.notes },
        s.directives,
        s.directives.len(),
    );
    let hosts = match k.hosts {
        Some(h) => h,
        None => seq![],
    };
    match (p.cert, p.key) {
        (Some(cert), Some(key)) => PairsV {
            entries: st.entries.push(
                CertV {
                    cert,
                    key,
                    line: p.line,
                    exact: hosts_by_kind(hosts, hosts.len(), false),
                    wildcard: hosts_by_kind(hosts, hosts.len(), true),
                },
            ),
            min12: p.min12,
            notes: p.notes,
        },
        (None, None) => PairsV { min12: p.min12, notes: p.notes, ..st },
        _ => PairsV {
            min12: p.min12,
            notes: p.notes.push(
                import::note(
                    Status::Unsupported,
                    p.line,
                    "ssl_certificate"@,
                    "ssl_certificate without ssl_certificate_key (or vice versa) — incomplete pair ignored; placeholder paths emitted"@,
                ),
            ),
            ..st
        },
    }
}

pub open spec fn pairs_of(st: PairsV, kept: Seq<KeptV>, n: nat) -> PairsV
    decreases n,
{
    if n == 0 {
        st
    } else {
        server_pair(pairs_of(st, kept, (n - 1) as nat), kept[n - 1])
    }
}

// ── The default pair and the SNI table ──────────────────────────────────
/// The first pair from `i` on that serves a wildcard, or the first of all.
/// (Zion's SNI table is exact-match, so a wildcard certificate only works as
/// the default fallback.)
pub open spec fn default_pair(entries: Seq<CertV>, i: nat) -> nat
    decreases entries.len() - i,
{
    if i >= entries.len() {
        0
    } else if entries[i as int].wildcard.len() > 0 {
        i
    } else {
        default_pair(entries, i + 1)
    }
}

pub struct SniTableV {
    pub seen: Seq<Seq<char>>,
    pub sni: Seq<SniV>,
    pub notes: Seq<Note>,
}

pub open spec fn wildcard_note(e: CertV, w: Seq<char>, default_cert: Seq<char>) -> Note {
    if e.cert == default_cert {
        import::note(
            Status::Convert,
            e.line,
            "ssl_certificate"@,
            "wildcard '"@ + w
                + "' served by the default certificate (Zion's SNI table is exact-match; the default is the fallback)"@,
        )
    } else {
        import::note(
            Status::Unsupported,
            e.line,
            "ssl_certificate"@,
            "a second wildcard certificate ('"@ + w
                + "') cannot be expressed — Zion's SNI table is exact-match with a single default fallback"@,
        )
    }
}

pub open spec fn wildcard_notes(
    notes: Seq<Note>,
    e: CertV,
    n: nat,
    default_cert: Seq<char>,
) -> Seq<Note>
    decreases n,
{
    if n == 0 {
        notes
    } else {
        wildcard_notes(notes, e, (n - 1) as nat, default_cert).push(
            wildcard_note(e, e.wildcard[n - 1], default_cert),
        )
    }
}

/// One exact host of a pair. The default pair needs no SNI entries.
pub open spec fn exact_step(st: SniTableV, e: CertV, name: Seq<char>, is_default: bool) -> SniTableV {
    if st.seen.contains(name) {
        SniTableV {
            notes: st.notes.push(
                import::note(
                    Status::Partial,
                    e.line,
                    "ssl_certificate"@,
                    "duplicate SNI entry for '"@ + name + "' — first kept"@,
                ),
            ),
            ..st
        }
    } else if is_default {
        SniTableV { seen: st.seen.push(name), ..st }
    } else {
        SniTableV {
            seen: st.seen.push(name),
            sni: st.sni.push(SniV { server_name: name, cert: e.cert, key: e.key }),
            notes: st.notes.push(
                import::note(
                    Status::Convert,
                    e.line,
                    "ssl_certificate"@,
                    "[[tls.sni]] entry for '"@ + name + "'"@,
                ),
            ),
        }
    }
}

pub open spec fn exact_hosts(st: SniTableV, e: CertV, n: nat, is_default: bool) -> SniTableV
    decreases n,
{
    if n == 0 {
        st
    } else {
        exact_step(exact_hosts(st, e, (n - 1) as nat, is_default), e, e.exact[n - 1], is_default)
    }
}

/// The verdict on a pair without host names that is not the default.
pub open spec fn hostless_note(e: CertV, default_cert: Seq<char>) -> Note {
    if e.cert == default_cert {
        import::note(
            Status::Convert,
            e.line,
            "ssl_certificate"@,
            "served by the default certificate (the server has no host name of its own)"@,
        )
    } else {
        import::note(
            Status::Unsupported,
            e.line,
            "ssl_certificate"@,
            "a second certificate pair without host names cannot be expressed — Zion's SNI table is exact-match with a single default fallback"@,
        )
    }
}

/// One pair: its wildcards, its exact hosts, or that it has neither.
pub open spec fn entry_step(
    p: SniTableV,
    e: CertV,
    default_cert: Seq<char>,
    is_default: bool,
) -> SniTableV {
    let t = exact_hosts(
        SniTableV { notes: wildcard_notes(p.notes, e, e.wildcard.len(), default_cert), ..p },
        e,
        e.exact.len(),
        is_default,
    );
    if !is_default && e.wildcard.len() == 0 && e.exact.len() == 0 {
        SniTableV { notes: t.notes.push(hostless_note(e, default_cert)), ..t }
    } else {
        t
    }
}

pub open spec fn sni_table(st: SniTableV, entries: Seq<CertV>, n: nat, default_idx: nat) -> SniTableV
    decreases n,
{
    if n == 0 {
        st
    } else {
        entry_step(
            sni_table(st, entries, (n - 1) as nat, default_idx),
            entries[n - 1],
            entries[default_idx as int].cert,
            n - 1 == default_idx,
        )
    }
}

/// The TLS section of the document.
pub open spec fn tls_doc(doc: DocV, kept: Seq<KeptV>, notes: Seq<Note>) -> (DocV, Seq<Note>) {
    let p = pairs_of(
        PairsV { entries: seq![], min12: doc.tls_min12, notes },
        kept,
        kept.len(),
    );
    let doc1 = DocV { tls_min12: p.min12, ..doc };
    if p.entries.len() == 0 {
        (doc1, p.notes)
    } else {
        let i = default_pair(p.entries, 0);
        let e = p.entries[i as int];
        let t = sni_table(
            SniTableV {
                seen: seq![],
                sni: doc.sni,
                notes: p.notes.push(
                    import::note(
                        Status::Convert,
                        e.line,
                        "ssl_certificate"@,
                        "default [tls] certificate pair (ssl_certificate + ssl_certificate_key)"@,
                    ),
                ),
            },
            p.entries,
            p.entries.len(),
            i,
        );
        (DocV { tls_cert: e.cert, tls_key: e.key, sni: t.sni, ..doc1 }, t.notes)
    }
}

// ── Code ────────────────────────────────────────────────────────────────
struct Pair {
    cert: Option<String>,
    key: Option<String>,
    line: u32,
}

spec fn pair_view(p: Pair, min12: bool, findings: &Vec<Finding>) -> PairV {
    PairV {
        cert: text::opt(p.cert),
        key: text::opt(p.key),
        line: p.line as int,
        min12,
        notes: text::views(findings@),
    }
}

fn map_protocols(d: &Directive, min12: &mut bool, findings: &mut Vec<Finding>, Ghost(st): Ghost<PairV>)
    requires
        st.min12 == *old(min12),
        st.notes == text::views(old(findings)@),
    ensures
        (PairV { min12: *final(min12), notes: text::views(final(findings)@), ..st })
            == protocols_step(st, d@),
{
    if list_has(&d.args, "TLSv1") || list_has(&d.args, "TLSv1.1") {
        *min12 = true;
        file(
            findings,
            Status::Partial,
            d.line,
            "ssl_protocols",
            "TLS 1.0/1.1 requested — Zion's floor is 1.2; emitted min_version = \"1.2\"",
        );
    } else if list_has(&d.args, "TLSv1.2") {
        *min12 = true;
        file(findings, Status::Convert, d.line, "ssl_protocols", "tls.min_version = \"1.2\"");
    } else if list_has(&d.args, "TLSv1.3") {
        file(
            findings,
            Status::Convert,
            d.line,
            "ssl_protocols",
            "TLS 1.3-only is Zion's default",
        );
    } else {
        let list = join_strings(&d.args, ", ");
        let why = cat3(
            "no supported protocol in [",
            list.as_str(),
            "] — Zion emits its default (TLS 1.3)",
        );
        file(findings, Status::Unsupported, d.line, "ssl_protocols", why.as_str());
    }
}

fn map_tls_directive(p: &mut Pair, d: &Directive, min12: &mut bool, findings: &mut Vec<Finding>)
    ensures
        pair_view(*final(p), *final(min12), final(findings)) == pair_step(
            pair_view(*old(p), *old(min12), old(findings)),
            d@,
        ),
{
    let ghost st = pair_view(*p, *min12, findings);
    let name: &str = d.name.as_str();
    if same(name, "ssl_certificate") {
        if p.cert.is_some() {
            file(
                findings,
                Status::Partial,
                d.line,
                "ssl_certificate",
                "multiple certificate pairs (RSA+ECDSA dual-cert?) — first pair kept",
            );
        } else if d.args.len() > 0 {
            p.cert = Some(d.args[0].clone());
            p.line = d.line;
        } else {
            file(findings, Status::Unsupported, d.line, name, "missing file");
        }
    } else if same(name, "ssl_certificate_key") {
        if d.args.len() == 0 {
            file(findings, Status::Unsupported, d.line, name, "missing file");
        } else if p.key.is_none() {
            p.key = Some(d.args[0].clone());
        }
    } else if same(name, "ssl_protocols") {
        map_protocols(d, min12, findings, Ghost(st));
    }
}

fn hosts_of_kind(hosts: &Option<Vec<String>>, wild: bool) -> (r: Vec<String>)
    ensures
        ({
            let h = match text::opt_list(*hosts) {
                Some(h) => h,
                None => seq![],
            };
            text::views(r@) == hosts_by_kind(h, h.len(), wild)
        }),
{
    let mut out: Vec<String> = Vec::new();
    match hosts {
        None => {},
        Some(v) => {
            let ghost h = text::views(v@);
            let mut i: usize = 0;
            assert(text::views(out@) =~= seq![]);
            while i < v.len()
                invariant
                    i <= v.len(),
                    h == text::views(v@),
                    text::views(out@) == hosts_by_kind(h, i as nat, wild),
                decreases v.len() - i,
            {
                assert(h[i as int] == v@[i as int]@);
                if starts_with(v[i].as_str(), "*.") == wild {
                    out.push(v[i].clone());
                }
                i += 1;
            }
        },
    }
    out
}

fn collect_pairs(kept: &Vec<Kept>, min12: &mut bool, findings: &mut Vec<Finding>) -> (r: Vec<CertEntry>)
    ensures
        (PairsV {
            entries: text::views(r@),
            min12: *final(min12),
            notes: text::views(final(findings)@),
        }) == pairs_of(
            PairsV { entries: seq![], min12: *old(min12), notes: text::views(old(findings)@) },
            text::views(kept@),
            kept@.len(),
        ),
{
    let ghost start = PairsV {
        entries: seq![],
        min12: *min12,
        notes: text::views(findings@),
    };
    let ghost kv = text::views(kept@);
    let mut entries: Vec<CertEntry> = Vec::new();
    let mut i: usize = 0;
    assert(text::views(entries@) =~= seq![]);
    while i < kept.len()
        invariant
            i <= kept.len(),
            kv == text::views(kept@),
            (PairsV {
                entries: text::views(entries@),
                min12: *min12,
                notes: text::views(findings@),
            }) == pairs_of(start, kv, i as nat),
        decreases kept.len() - i,
    {
        let server = kept[i].server;
        assert(kv[i as int] == kept@[i as int]@);
        let mut p = Pair { cert: None, key: None, line: server.line };
        let ghost first = pair_view(p, *min12, findings);
        let mut j: usize = 0;
        while j < server.directives.len()
            invariant
                j <= server.directives.len(),
                pair_view(p, *min12, findings) == pair_of(first, server@.directives, j as nat),
            decreases server.directives.len() - j,
        {
            assert(server@.directives[j as int] == server.directives@[j as int]@);
            map_tls_directive(&mut p, &server.directives[j], min12, findings);
            j += 1;
        }
        match (p.cert, p.key) {
            (Some(cert), Some(key)) => {
                let exact = hosts_of_kind(&kept[i].hosts, false);
                let wildcard = hosts_of_kind(&kept[i].hosts, true);
                entries.push(CertEntry { cert, key, line: p.line, exact, wildcard });
            },
            (None, None) => {},
            _ => {
                file(
                    findings,
                    Status::Unsupported,
                    p.line,
                    "ssl_certificate",
                    "ssl_certificate without ssl_certificate_key (or vice versa) — incomplete pair ignored; placeholder paths emitted",
                );
            },
        }
        i += 1;
    }
    entries
}

fn find_default_pair(entries: &Vec<CertEntry>) -> (r: usize)
    requires
        entries.len() > 0,
    ensures
        r == default_pair(text::views(entries@), 0),
        r < entries.len(),
{
    let ghost ev = text::views(entries@);
    let mut i: usize = 0;
    while i < entries.len()
        invariant
            i <= entries.len(),
            ev == text::views(entries@),
            default_pair(ev, 0) == default_pair(ev, i as nat),
        decreases entries.len() - i,
    {
        assert(ev[i as int] == entries@[i as int]@);
        if entries[i].wildcard.len() > 0 {
            return i;
        }
        i += 1;
    }
    0
}

spec fn table_view(seen: &Vec<String>, sni: &Vec<SniOut>, findings: &Vec<Finding>) -> SniTableV {
    SniTableV {
        seen: text::views(seen@),
        sni: text::views(sni@),
        notes: text::views(findings@),
    }
}

fn map_entry(
    e: &CertEntry,
    default_cert: &str,
    is_default: bool,
    seen: &mut Vec<String>,
    sni: &mut Vec<SniOut>,
    findings: &mut Vec<Finding>,
)
    ensures
        table_view(final(seen), final(sni), final(findings)) == entry_step(
            table_view(old(seen), old(sni), old(findings)),
            e@,
            default_cert@,
            is_default,
        ),
{
    let ghost notes = text::views(findings@);
    let mut i: usize = 0;
    while i < e.wildcard.len()
        invariant
            i <= e.wildcard.len(),
            text::views(findings@) == wildcard_notes(notes, e@, i as nat, default_cert@),
            *seen == *old(seen),
            *sni == *old(sni),
        decreases e.wildcard.len() - i,
    {
        let w: &str = e.wildcard[i].as_str();
        assert(e@.wildcard[i as int] == w@);
        if same(e.cert.as_str(), default_cert) {
            let what = cat3(
                "wildcard '",
                w,
                "' served by the default certificate (Zion's SNI table is exact-match; the default is the fallback)",
            );
            file(findings, Status::Convert, e.line, "ssl_certificate", what.as_str());
        } else {
            let what = cat3(
                "a second wildcard certificate ('",
                w,
                "') cannot be expressed — Zion's SNI table is exact-match with a single default fallback",
            );
            file(findings, Status::Unsupported, e.line, "ssl_certificate", what.as_str());
        }
        i += 1;
    }
    let ghost st = table_view(seen, sni, findings);
    let mut j: usize = 0;
    while j < e.exact.len()
        invariant
            j <= e.exact.len(),
            table_view(seen, sni, findings) == exact_hosts(st, e@, j as nat, is_default),
        decreases e.exact.len() - j,
    {
        let name: &str = e.exact[j].as_str();
        assert(e@.exact[j as int] == name@);
        if list_has(seen, name) {
            let why = cat3("duplicate SNI entry for '", name, "' — first kept");
            file(findings, Status::Partial, e.line, "ssl_certificate", why.as_str());
        } else {
            seen.push(name.to_owned());
            if !is_default {
                sni.push(
                    SniOut {
                        server_name: name.to_owned(),
                        cert: e.cert.clone(),
                        key: e.key.clone(),
                    },
                );
                let what = cat3("[[tls.sni]] entry for '", name, "'");
                file(findings, Status::Convert, e.line, "ssl_certificate", what.as_str());
            }
        }
        j += 1;
    }
    if !is_default && e.wildcard.len() == 0 && e.exact.len() == 0 {
        if same(e.cert.as_str(), default_cert) {
            file(
                findings,
                Status::Convert,
                e.line,
                "ssl_certificate",
                "served by the default certificate (the server has no host name of its own)",
            );
        } else {
            file(
                findings,
                Status::Unsupported,
                e.line,
                "ssl_certificate",
                "a second certificate pair without host names cannot be expressed — Zion's SNI table is exact-match with a single default fallback",
            );
        }
    }
}

pub fn map_tls(kept: &Vec<Kept>, doc: &mut ZionDoc, findings: &mut Vec<Finding>)
    ensures
        (final(doc)@, text::views(final(findings)@)) == tls_doc(
            old(doc)@,
            text::views(kept@),
            text::views(old(findings)@),
        ),
{
    let mut min12 = doc.tls_min12;
    let entries = collect_pairs(kept, &mut min12, findings);
    let ghost ev = text::views(entries@);
    doc.tls_min12 = min12;
    if entries.len() == 0 {
        return;
    }
    let d: usize = find_default_pair(&entries);
    assert(ev[d as int] == entries@[d as int]@);
    doc.tls_cert = entries[d].cert.clone();
    doc.tls_key = entries[d].key.clone();
    file(
        findings,
        Status::Convert,
        entries[d].line,
        "ssl_certificate",
        "default [tls] certificate pair (ssl_certificate + ssl_certificate_key)",
    );
    let mut seen: Vec<String> = Vec::new();
    assert(text::views(seen@) =~= seq![]);
    let ghost before = doc@;
    let ghost st = table_view(&seen, &doc.sni, findings);
    let mut i: usize = 0;
    while i < entries.len()
        invariant
            i <= entries.len(),
            d < entries.len(),
            ev == text::views(entries@),
            doc@ == (DocV { sni: doc@.sni, ..before }),
            table_view(&seen, &doc.sni, findings) == sni_table(st, ev, i as nat, d as nat),
        decreases entries.len() - i,
    {
        assert(ev[i as int] == entries@[i as int]@);
        assert(ev[d as int] == entries@[d as int]@);
        map_entry(
            &entries[i],
            entries[d].cert.as_str(),
            i == d,
            &mut seen,
            &mut doc.sni,
            findings,
        );
        i += 1;
    }
}

} // verus!
