//! nginx listeners to Zion's one HTTP and one HTTPS listener.
use super::servers::{ssl_on, Kept, KeptV};
use super::{DocV, ZionDoc};
use crate::import;
use crate::import::model::{Listen, ListenV};
use crate::import::{file, Finding, Note, Status};
use crate::text;
use crate::text::{cat2, cat3, cat5, cat7, chars_of, dec_text, find_from, parse_u16, same};
use crate::text::{begins_with, own, rsplit_once, slice_of, starts_with};
use vstd::prelude::*;

verus! {

broadcast use crate::text::group_views;

pub open spec fn port_of(s: Seq<char>) -> Option<u16> {
    match text::parse_dec(s, u16::MAX as nat) {
        Some(n) => Some(n as u16),
        None => None,
    }
}

/// The host and the port of a listen address: `80` has no host,
/// `1.2.3.4:8080` and `[::]:443` have one, and a bare address has the default
/// port.
pub open spec fn listen_parts(addr: Seq<char>, ssl: bool) -> Option<(Option<Seq<char>>, u16)> {
    let default_port = if ssl {
        443u16
    } else {
        80u16
    };
    if text::starts(addr, "unix:"@) {
        None
    } else if port_of(addr) is Some {
        Some((None, port_of(addr)->0))
    } else if text::begins(addr, '[') {
        let end = text::index_of(addr, ']', 1);
        if end >= addr.len() {
            None
        } else {
            let host = addr.subrange(0, end + 1);
            let after = addr.subrange(end + 1, addr.len() as int);
            if text::begins(after, ':') {
                match port_of(after.subrange(1, after.len() as int)) {
                    Some(p) => Some((Some(host), p)),
                    None => None,
                }
            } else {
                Some((Some(host), default_port))
            }
        }
    } else {
        match text::rsplit_once_of(addr, ':') {
            Some((host, port)) => match port_of(port) {
                Some(p) => Some((Some(host), p)),
                None => None,
            },
            None => Some((Some(addr), default_port)),
        }
    }
}

pub open spec fn opt_parts(o: Option<(Option<String>, u16)>) -> Option<(Option<Seq<char>>, u16)> {
    match o {
        Some((h, p)) => Some((text::opt(h), p)),
        None => None,
    }
}

pub fn split_listen(addr: &str, ssl: bool) -> (r: Option<(Option<String>, u16)>)
    ensures
        opt_parts(r) == listen_parts(addr@, ssl),
{
    let default_port: u16 = if ssl {
        443
    } else {
        80
    };
    if starts_with(addr, "unix:") {
        return None;
    }
    match parse_u16(addr) {
        Some(p) => {
            return Some((None, p));
        },
        None => {},
    }
    if begins_with(addr, '[') {
        let v = chars_of(addr);
        let end: usize = find_from(&v, ']', 1);
        if end >= v.len() {
            return None;
        }
        let host = slice_of(&v, 0, end + 1);
        if end + 1 < v.len() && v[end + 1] == ':' {
            let port = slice_of(&v, end + 2, v.len());
            assert(port@ =~= addr@.subrange(end + 1, addr@.len() as int).subrange(
                1,
                addr@.len() - end - 1,
            ));
            return match parse_u16(port.as_str()) {
                Some(p) => Some((Some(host), p)),
                None => None,
            };
        }
        return Some((Some(host), default_port));
    }
    match rsplit_once(addr, ':') {
        Some((host, port)) => match parse_u16(port.as_str()) {
            Some(p) => Some((Some(host), p)),
            None => None,
        },
        None => Some((Some(own(addr)), default_port)),
    }
}

/// The ports taken so far, and the notes filed so far.
pub struct PortsV {
    pub http: Option<u16>,
    pub https: Option<u16>,
    pub notes: Seq<Note>,
}

pub open spec fn noted(st: PortsV, status: Status, line: int, detail: Seq<char>) -> PortsV {
    PortsV { notes: st.notes.push(import::note(status, line, "listen"@, detail)), ..st }
}

/// Flags of the listening socket that Zion sets by itself.
pub open spec fn socket_flag(f: Seq<char>) -> bool {
    ||| f == "reuseport"@
    ||| f == "deferred"@
    ||| text::starts(f, "backlog="@)
    ||| text::starts(f, "so_keepalive="@)
    ||| text::starts(f, "fastopen="@)
}

pub open spec fn flag_step(st: PortsV, f: Seq<char>, line: int) -> PortsV {
    if f == "http2"@ {
        noted(st, Status::Auto, line, "http2 — negotiated via ALPN by default"@)
    } else if socket_flag(f) {
        noted(st, Status::Auto, line, f + " — Zion tunes its own listener"@)
    } else {
        noted(st, Status::Unsupported, line, "flag '"@ + f + "' not mapped"@)
    }
}

pub open spec fn flags_of(st: PortsV, flags: Seq<Seq<char>>, n: nat, line: int) -> PortsV
    decreases n,
{
    if n == 0 {
        st
    } else {
        flag_step(flags_of(st, flags, (n - 1) as nat, line), flags[n - 1], line)
    }
}

/// An address other than the unspecified one.
pub open spec fn narrow_host(h: Seq<char>) -> bool {
    h != "0.0.0.0"@ && h != "*"@ && h != "[::]"@
}

/// The port of a listener: the first one is taken, the same one again is
/// fine, another one does not fit.
pub open spec fn port_step(st: PortsV, tls: bool, port: u16, line: int) -> PortsV {
    let slot = if tls {
        st.https
    } else {
        st.http
    };
    let p = text::dec(port as nat);
    match slot {
        None => noted(
            if tls {
                PortsV { https: Some(port), ..st }
            } else {
                PortsV { http: Some(port), ..st }
            },
            Status::Convert,
            line,
            "server.listen_"@ + (if tls {
                "https"@
            } else {
                "http"@
            }) + " = \"0.0.0.0:"@ + p + "\""@,
        ),
        Some(taken) => if taken == port {
            noted(st, Status::Convert, line, "port "@ + p + " (already mapped)"@)
        } else {
            noted(
                st,
                Status::Unsupported,
                line,
                "Zion has a single "@ + (if tls {
                    "HTTPS"@
                } else {
                    "HTTP"@
                }) + " listener (:"@ + text::dec(taken as nat) + " already taken) — port "@ + p
                    + " not mapped"@,
            )
        },
    }
}

/// One `listen` of a server.
pub open spec fn listen_step(st: PortsV, l: ListenV, forced_tls: bool) -> PortsV {
    let tls = l.ssl || forced_tls;
    match listen_parts(l.addr, tls) {
        None => noted(
            st,
            Status::Unsupported,
            l.line,
            "cannot map listen address '"@ + l.addr + "'"@,
        ),
        Some((host, port)) => {
            let st1 = match host {
                Some(h) if narrow_host(h) => noted(
                    st,
                    Status::Partial,
                    l.line,
                    "nginx bound to "@ + h
                        + "; Zion listens on 0.0.0.0 — narrow with a firewall if needed"@,
                ),
                _ => st,
            };
            flags_of(port_step(st1, tls, port, l.line), l.flags, l.flags.len(), l.line)
        },
    }
}

pub open spec fn listens_of(st: PortsV, ls: Seq<ListenV>, n: nat, forced_tls: bool) -> PortsV
    decreases n,
{
    if n == 0 {
        st
    } else {
        listen_step(listens_of(st, ls, (n - 1) as nat, forced_tls), ls[n - 1], forced_tls)
    }
}

pub open spec fn ports_of(kept: Seq<KeptV>, n: nat, notes: Seq<Note>) -> PortsV
    decreases n,
{
    if n == 0 {
        PortsV { http: None, https: None, notes }
    } else {
        let s = kept[n - 1].server;
        listens_of(
            ports_of(kept, (n - 1) as nat, notes),
            s.listens,
            s.listens.len(),
            super::servers::ssl_on_of(s),
        )
    }
}

pub open spec fn listen_doc(doc: DocV, st: PortsV) -> DocV {
    DocV {
        listen_http: "0.0.0.0:"@ + text::dec(
            (match st.http {
                Some(p) => p,
                None => 80u16,
            }) as nat,
        ),
        listen_https: "0.0.0.0:"@ + text::dec(
            (match st.https {
                Some(p) => p,
                None => 443u16,
            }) as nat,
        ),
        ..doc
    }
}

spec fn ports_view(http: Option<u16>, https: Option<u16>, findings: &Vec<Finding>) -> PortsV {
    PortsV { http, https, notes: text::views(findings@) }
}

fn map_flags(l: &Listen, findings: &mut Vec<Finding>, Ghost(st): Ghost<PortsV>)
    requires
        text::views(old(findings)@) == st.notes,
    ensures
        (PortsV { notes: text::views(final(findings)@), ..st }) == flags_of(
            st,
            l@.flags,
            l@.flags.len(),
            l.line as int,
        ),
{
    let mut i: usize = 0;
    while i < l.flags.len()
        invariant
            i <= l.flags.len(),
            (PortsV { notes: text::views(findings@), ..st }) == flags_of(
                st,
                l@.flags,
                i as nat,
                l.line as int,
            ),
        decreases l.flags.len() - i,
    {
        let f: &str = l.flags[i].as_str();
        assert(l@.flags[i as int] == f@);
        if same(f, "http2") {
            file(
                findings,
                Status::Auto,
                l.line,
                "listen",
                "http2 — negotiated via ALPN by default",
            );
        } else if same(f, "reuseport") || same(f, "deferred") || starts_with(f, "backlog=")
            || starts_with(f, "so_keepalive=") || starts_with(f, "fastopen=") {
            let why = cat2(f, " — Zion tunes its own listener");
            file(findings, Status::Auto, l.line, "listen", why.as_str());
        } else {
            let why = cat3("flag '", f, "' not mapped");
            file(findings, Status::Unsupported, l.line, "listen", why.as_str());
        }
        i += 1;
    }
}

fn map_listen(
    l: &Listen,
    forced_tls: bool,
    http: &mut Option<u16>,
    https: &mut Option<u16>,
    findings: &mut Vec<Finding>,
)
    ensures
        ports_view(*final(http), *final(https), final(findings)) == listen_step(
            ports_view(*old(http), *old(https), old(findings)),
            l@,
            forced_tls,
        ),
{
    let tls = l.ssl || forced_tls;
    let (host, port) = match split_listen(l.addr.as_str(), tls) {
        Some(hp) => hp,
        None => {
            let why = cat3("cannot map listen address '", l.addr.as_str(), "'");
            file(findings, Status::Unsupported, l.line, "listen", why.as_str());
            return;
        },
    };
    match &host {
        Some(h) => {
            let h: &str = h.as_str();
            if !same(h, "0.0.0.0") && !same(h, "*") && !same(h, "[::]") {
                let why = cat3(
                    "nginx bound to ",
                    h,
                    "; Zion listens on 0.0.0.0 — narrow with a firewall if needed",
                );
                file(findings, Status::Partial, l.line, "listen", why.as_str());
            }
        },
        None => {},
    }
    let slot: Option<u16> = if tls {
        *https
    } else {
        *http
    };
    let p = dec_text(port as u64);
    match slot {
        None => {
            if tls {
                *https = Some(port);
            } else {
                *http = Some(port);
            }
            let what = cat5(
                "server.listen_",
                if tls {
                    "https"
                } else {
                    "http"
                },
                " = \"0.0.0.0:",
                p.as_str(),
                "\"",
            );
            file(findings, Status::Convert, l.line, "listen", what.as_str());
        },
        Some(taken) => {
            if taken == port {
                let what = cat3("port ", p.as_str(), " (already mapped)");
                file(findings, Status::Convert, l.line, "listen", what.as_str());
            } else {
                let what = cat7(
                    "Zion has a single ",
                    if tls {
                        "HTTPS"
                    } else {
                        "HTTP"
                    },
                    " listener (:",
                    dec_text(taken as u64).as_str(),
                    " already taken) — port ",
                    p.as_str(),
                    " not mapped",
                );
                file(findings, Status::Unsupported, l.line, "listen", what.as_str());
            }
        },
    }
    let ghost st = ports_view(*http, *https, findings);
    map_flags(l, findings, Ghost(st));
}

pub fn map_listens(kept: &Vec<Kept>, doc: &mut ZionDoc, findings: &mut Vec<Finding>)
    ensures
        ({
            let st = ports_of(text::views(kept@), kept@.len(), text::views(old(findings)@));
            final(doc)@ == listen_doc(old(doc)@, st) && text::views(final(findings)@) == st.notes
        }),
{
    let ghost notes = text::views(findings@);
    let ghost kv = text::views(kept@);
    let mut http: Option<u16> = None;
    let mut https: Option<u16> = None;
    let mut i: usize = 0;
    while i < kept.len()
        invariant
            i <= kept.len(),
            kv == text::views(kept@),
            ports_view(http, https, findings) == ports_of(kv, i as nat, notes),
            doc@ == old(doc)@,
        decreases kept.len() - i,
    {
        let server = kept[i].server;
        assert(kv[i as int] == kept@[i as int]@);
        let forced_tls = ssl_on(server);
        let ghost before = ports_view(http, https, findings);
        let mut j: usize = 0;
        while j < server.listens.len()
            invariant
                j <= server.listens.len(),
                ports_view(http, https, findings) == listens_of(
                    before,
                    server@.listens,
                    j as nat,
                    forced_tls,
                ),
                doc@ == old(doc)@,
            decreases server.listens.len() - j,
        {
            assert(server@.listens[j as int] == server.listens@[j as int]@);
            map_listen(&server.listens[j], forced_tls, &mut http, &mut https, findings);
            j += 1;
        }
        i += 1;
    }
    let p: u16 = match http {
        Some(p) => p,
        None => 80,
    };
    let q: u16 = match https {
        Some(p) => p,
        None => 443,
    };
    doc.listen_http = cat2("0.0.0.0:", dec_text(p as u64).as_str());
    doc.listen_https = cat2("0.0.0.0:", dec_text(q as u64).as_str());
}

} // verus!
