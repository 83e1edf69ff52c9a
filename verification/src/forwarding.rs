//! What reaches an upstream, and where attempts go.
use crate::headers;
use crate::proxy;
use crate::proxy::XffMode;
use crate::text;
use crate::words;
use vstd::prelude::*;
use vstd::utf8;

verus! {

// ── Fields ──────────────────────────────────────────────────────────────
/// A field that the proxy sets by itself.
pub open spec fn set_by_the_proxy(name: Seq<char>) -> bool {
    ||| name == "x-real-ip"@
    ||| name == "x-forwarded-for"@
    ||| name == "x-forwarded-proto"@
    ||| name == "x-forwarded-host"@
}

/// A field that stays behind: it belongs to one hop, or is the client's
/// credentials for the proxy.
pub open spec fn stays_behind(name: Seq<char>) -> bool {
    ||| name == "host"@
    ||| name == "connection"@
    ||| name == "keep-alive"@
    ||| name == "te"@
    ||| name == "trailer"@
    ||| name == "transfer-encoding"@
    ||| name == "proxy-authorization"@
    ||| name == "proxy-connection"@
}

/// Every other field reaches the upstream as the client sent it, and no field
/// that stays behind does.
pub proof fn law_other_fields_reach_the_upstream(
    f: Map<Seq<char>, Seq<Seq<u8>>>,
    ip: Option<Seq<char>>,
    proto: Seq<char>,
    mode: XffMode,
    name: Seq<char>,
)
    ensures
        !set_by_the_proxy(name) && !stays_behind(name) ==> {
            &&& proxy::proxied(f, ip, proto, mode).dom().contains(name) == f.dom().contains(name)
            &&& f.dom().contains(name) ==> proxy::proxied(f, ip, proto, mode)[name] == f[name]
        },
        stays_behind(name) ==> !proxy::proxied(f, ip, proto, mode).dom().contains(name),
{
    if stays_behind(name) && name != "connection"@ {
        proxy::law_hop_fields_are_stripped(f, ip, proto, mode, name);
    }
}

/// The upstream is told how the client came in.
pub proof fn law_scheme_is_told(
    f: Map<Seq<char>, Seq<Seq<u8>>>,
    ip: Option<Seq<char>>,
    proto: Seq<char>,
    mode: XffMode,
)
    requires
        proto == "https"@ || proto == "http"@,
    ensures
        headers::values_of(proxy::proxied(f, ip, proto, mode), "x-forwarded-proto"@) == seq![
            utf8::encode_utf8(proto),
        ],
{
    reveal_strlit("http");
    reveal_strlit("https");
    reveal_strlit("x-forwarded-proto");
    reveal_strlit("x-forwarded-host");
    reveal_strlit("connection");
    assert("x-forwarded-proto"@.len() == 17);
    assert("x-forwarded-host"@.len() == 16);
    assert("connection"@.len() == 10);
    assert("http"@.len() == 4);
    assert("https"@.len() == 5);
}

/// The mode that the configuration writes does what it says with the client's
/// address: `append` puts it behind the chain, `rewrite` in its place, and `drop`
/// leaves none; without a client address nothing is put anywhere.
pub proof fn law_configured_mode_does_what_it_says(
    f: Map<Seq<char>, Seq<Seq<u8>>>,
    ip: Seq<char>,
    proto: Seq<char>,
    written: Seq<char>,
)
    requires
        headers::header_text(ip),
        proxy::xff_mode(written) is Some,
    ensures
        written == "append"@ || written == "rewrite"@ || written == "drop"@,
        ({
            let chain = headers::values_of(
                proxy::proxied(f, Some(ip), proto, proxy::xff_mode(written)->0),
                "x-forwarded-for"@,
            );
            &&& written == "append"@ ==> chain == headers::values_of(f, "x-forwarded-for"@).push(
                utf8::encode_utf8(ip),
            )
            &&& written == "rewrite"@ ==> chain == seq![utf8::encode_utf8(ip)]
            &&& written == "drop"@ ==> chain.len() == 0
        }),
{
    reveal_strlit("append");
    reveal_strlit("rewrite");
    reveal_strlit("drop");
    assert("append"@.len() == 6);
    assert("rewrite"@.len() == 7);
    assert("drop"@.len() == 4);
    let mode = proxy::xff_mode(written)->0;
    if written == "append"@ {
        proxy::law_append_keeps_the_chain(f, ip, proto);
    } else if written == "rewrite"@ {
        proxy::law_rewrite_leaves_one_entry(f, ip, proto);
    } else {
        proxy::law_drop_leaves_no_entry(f, Some(ip), proto, mode);
    }
}

/// The three modes can be written.
pub proof fn law_every_mode_can_be_written(mode: XffMode)
    ensures
        exists|written: Seq<char>| #[trigger] proxy::xff_mode(written) == Some(mode),
{
    reveal_strlit("append");
    reveal_strlit("rewrite");
    reveal_strlit("drop");
    assert("append"@.len() == 6);
    assert("rewrite"@.len() == 7);
    assert("drop"@.len() == 4);
    match mode {
        XffMode::Append => {
            assert(proxy::xff_mode("append"@) == Some(mode));
        },
        XffMode::Rewrite => {
            assert(proxy::xff_mode("rewrite"@) == Some(mode));
        },
        XffMode::Drop => {
            assert(proxy::xff_mode("drop"@) == Some(mode));
        },
    }
}

// ── Targets ─────────────────────────────────────────────────────────────
/// What an upstream's URL gives is used, and the route's own stands in for what
/// it does not give.
pub proof fn law_target_is_that_of_the_url(
    parts: Option<(Option<Seq<char>>, Option<Seq<char>>)>,
    scheme: Seq<char>,
    authority: Seq<char>,
    s: Seq<char>,
    a: Seq<char>,
)
    ensures
        ({
            let t = proxy::target_of(parts, scheme, authority);
            &&& parts == Some((Some(s), Some(a))) ==> t == (s, a)
            &&& parts == Some((Some(s), None::<Seq<char>>)) ==> t == (s, authority)
            &&& parts == Some((None::<Seq<char>>, Some(a))) ==> t == (scheme, a)
            &&& parts is None ==> t == (scheme, authority)
        }),
{
}

/// A connection goes to the port that the authority names; where it names none,
/// to the well-known port of the scheme.
pub proof fn law_connection_goes_to_the_port(host: Seq<char>, p: u16, scheme: Seq<char>)
    requires
        !host.contains(':'),
    ensures
        proxy::connect_text(host + ":"@ + text::dec(p as nat), scheme) == host + ":"@ + text::dec(
            p as nat,
        ),
        scheme == "https"@ || scheme == "wss"@ ==> proxy::connect_text(host, scheme) == host
            + ":443"@,
        scheme == "http"@ || scheme == "ws"@ ==> proxy::connect_text(host, scheme) == host + ":80"@,
{
    let d = text::dec(p as nat);
    let x = host + ":"@ + d;
    let n = host.len() as int;
    reveal_strlit(":");
    text::lemma_dec(p as nat);
    text::law_dec_round_trip(p as nat, 65_535);
    words::law_rsplit_once(x, ':');
    words::law_rsplit_once(host, ':');
    if let Some((a, b)) = text::rsplit_once_of(host, ':') {
        assert(host[a.len() as int] == ':');
    }
    assert(x[n] == ':');
    assert(x.contains(':'));
    let (a, b) = text::rsplit_once_of(x, ':')->0;
    let k = a.len() as int;
    assert(x[k] == ':');
    if k < n {
        assert(host[k] == ':');
    } else if k > n {
        assert(x[k] == d[k - n - 1]);
        assert(text::digit(d[k - n - 1]));
    }
    assert(b =~= x.subrange(n + 1, x.len() as int));
    assert(d =~= x.subrange(n + 1, x.len() as int));
    reveal_with_fuel(text::dec, 4);
    reveal_strlit(":443");
    reveal_strlit(":80");
    reveal_strlit("http");
    reveal_strlit("https");
    reveal_strlit("ws");
    reveal_strlit("wss");
    assert("http"@.len() == 4 && "https"@.len() == 5 && "ws"@.len() == 2 && "wss"@.len() == 3);
    assert(host + ":"@ + text::dec(443) =~= host + ":443"@);
    assert(host + ":"@ + text::dec(80) =~= host + ":80"@);
}

// ── Attempts ────────────────────────────────────────────────────────────
/// A method that asks for nothing to be changed.
pub open spec fn safe(method: Seq<char>) -> bool {
    method == "GET"@ || method == "HEAD"@ || method == "OPTIONS"@ || method == "TRACE"@
}

/// A request that may have reached its upstream is sent again only where a second
/// time changes nothing: it is safe, puts, or deletes.
pub proof fn law_only_harmless_requests_are_repeated(method: Seq<char>, connect_error: bool)
    ensures
        proxy::may_follow(proxy::idempotent(method), connect_error) <==> connect_error || safe(
            method,
        ) || method == "PUT"@ || method == "DELETE"@,
{
}

/// As long as upstreams are left and every failure is one to connect, each
/// upstream of the pool is tried once.
pub proof fn law_every_upstream_is_tried(
    left: nat,
    idempotent: bool,
    failures: Seq<proxy::Failure>,
    i: nat,
)
    requires
        i + left <= failures.len(),
        forall|j: int|
            i <= j < failures.len() ==> (#[trigger] failures[j]).upstream_left
                && failures[j].connect_error,
    ensures
        proxy::attempts_made(left, idempotent, failures, i) == left,
    decreases left,
{
    if left > 0 {
        assert(failures[i as int].upstream_left);
        law_every_upstream_is_tried((left - 1) as nat, idempotent, failures, i + 1);
    }
}

// ── Replies ─────────────────────────────────────────────────────────────
/// The client's upgrade is answered with the upstream's own handshake, each part
/// under its own name, and with nothing that the upstream did not say.
pub proof fn law_handshake_is_handed_on(
    accept: Option<Seq<char>>,
    protocol: Option<Seq<char>>,
    extensions: Option<Seq<char>>,
    v: Seq<char>,
)
    ensures
        ({
            let f = proxy::upgrade_fields(accept, protocol, extensions);
            &&& f.contains(("upgrade"@, "websocket"@))
            &&& f.contains(("connection"@, "Upgrade"@))
            &&& f.contains(("sec-websocket-accept"@, v)) <==> accept == Some(v)
            &&& f.contains(("sec-websocket-protocol"@, v)) <==> protocol == Some(v)
            &&& f.contains(("sec-websocket-extensions"@, v)) <==> extensions == Some(v)
        }),
{
    reveal_strlit("upgrade");
    reveal_strlit("connection");
    reveal_strlit("sec-websocket-accept");
    reveal_strlit("sec-websocket-protocol");
    reveal_strlit("sec-websocket-extensions");
    assert("upgrade"@.len() == 7 && "connection"@.len() == 10 && "sec-websocket-accept"@.len()
        == 20 && "sec-websocket-protocol"@.len() == 22 && "sec-websocket-extensions"@.len() == 24);
    let base = seq![("upgrade"@, "websocket"@), ("connection"@, "Upgrade"@)];
    let a = proxy::upgrade_fields(accept, None, None);
    let p = proxy::upgrade_fields(accept, protocol, None);
    let f = proxy::upgrade_fields(accept, protocol, extensions);
    assert(f[0] == ("upgrade"@, "websocket"@));
    assert(f[1] == ("connection"@, "Upgrade"@));
    if accept == Some(v) {
        assert(f[2] == ("sec-websocket-accept"@, v));
    }
    if protocol == Some(v) {
        assert(f[a.len() as int] == ("sec-websocket-protocol"@, v));
    }
    if extensions == Some(v) {
        assert(f[p.len() as int] == ("sec-websocket-extensions"@, v));
    }
}

/// A stream is told to be neither kept nor held back, and has its other fields.
pub proof fn law_stream_is_not_held_back(f: Map<Seq<char>, Seq<Seq<u8>>>, name: Seq<char>)
    ensures
        ({
            let g = proxy::unbuffered(f);
            &&& headers::values_of(g, "cache-control"@) == seq![utf8::encode_utf8("no-cache"@)]
            &&& headers::values_of(g, "x-accel-buffering"@) == seq![utf8::encode_utf8("no"@)]
            &&& name != "cache-control"@ && name != "x-accel-buffering"@ ==> headers::values_of(
                g,
                name,
            ) == headers::values_of(f, name)
        }),
{
    reveal_strlit("cache-control");
    reveal_strlit("x-accel-buffering");
    assert("cache-control"@.len() == 13 && "x-accel-buffering"@.len() == 17);
}

} // verus!
