//! Forwarding requests to upstreams: the header policy, failover over a pool,
//! and WebSocket upgrades.
use crate::headers;
use crate::headers::{field_append, field_first, field_remove, field_set};
use crate::headers::is_header_text;
use crate::text;
use crate::text::{cat3, dec_text, own, parse_u16, rsplit_once, same};
use hyper::http::HeaderValue;
use hyper::HeaderMap;
use vstd::prelude::*;
use vstd::utf8;

verus! {

// ── Limits ──────────────────────────────────────────────────────────────
/// Upper bound on one upstream request and its response, in seconds. Without
/// it a hung backend would pin the request for as long as the connection lives.
pub const UPSTREAM_REQUEST_TIMEOUT_SECS: u64 = 30;

/// How long an idle upstream connection stays in the pool, in seconds.
pub const POOL_IDLE_SECS: u64 = 30;

/// How many idle connections the pool keeps for a host.
pub const POOL_IDLE_PER_HOST: usize = 128;

/// A WebSocket session without traffic is torn down after this many seconds.
pub const WS_IDLE_SECS: u64 = 300;

/// No WebSocket session lasts longer than this many seconds.
pub const WS_SESSION_SECS: u64 = 86_400;

// ── X-Forwarded-For ─────────────────────────────────────────────────────
/// How the inbound `X-Forwarded-For` header is treated.
///
/// * `Append`: the inbound chain is kept and the client's address added. Right
///   behind an edge that sanitises the header.
/// * `Rewrite`: the inbound header is replaced by the client's address, so a
///   spoofed first entry does not survive.
/// * `Drop`: the inbound header is removed and nothing added.
///
/// `X-Real-IP` is always set to the client's address.
#[derive(Clone, Copy, Debug, PartialEq, Eq, Structural)]
pub enum XffMode {
    Append,
    Rewrite,
    Drop,
}

impl Default for XffMode {
    fn default() -> (r: XffMode)
        ensures
            r == XffMode::Append,
    {
        XffMode::Append
    }
}

pub open spec fn xff_mode(s: Seq<char>) -> Option<XffMode> {
    if s == "append"@ {
        Some(XffMode::Append)
    } else if s == "rewrite"@ {
        Some(XffMode::Rewrite)
    } else if s == "drop"@ {
        Some(XffMode::Drop)
    } else {
        None
    }
}

impl XffMode {
    /// Reads a mode as the configuration writes it, in lower case.
    pub fn parse(s: &str) -> (r: Option<XffMode>)
        ensures
            r == xff_mode(s@),
    {
        if same(s, "append") {
            Some(XffMode::Append)
        } else if same(s, "rewrite") {
            Some(XffMode::Rewrite)
        } else if same(s, "drop") {
            Some(XffMode::Drop)
        } else {
            None
        }
    }
}

// ── Header policy ───────────────────────────────────────────────────────
/// The fields without those that belong to one hop, or are the client's
/// credentials for the proxy.
pub open spec fn stripped(f: Map<Seq<char>, Seq<Seq<u8>>>) -> Map<Seq<char>, Seq<Seq<u8>>> {
    f.remove("host"@).remove("transfer-encoding"@).remove("te"@).remove("trailer"@).remove(
        "proxy-authorization"@,
    ).remove("proxy-connection"@).remove("keep-alive"@)
}

/// The fields with the client's address under the policy. What the client sent
/// as `X-Real-IP` is not kept.
pub open spec fn with_client(
    f: Map<Seq<char>, Seq<Seq<u8>>>,
    ip: Option<Seq<char>>,
    mode: XffMode,
) -> Map<Seq<char>, Seq<Seq<u8>>> {
    let bare = f.remove("x-real-ip"@);
    let kept = if mode == XffMode::Append {
        bare
    } else {
        bare.remove("x-forwarded-for"@)
    };
    match ip {
        Some(t) if headers::header_text(t) => {
            let value = utf8::encode_utf8(t);
            let chained = match mode {
                XffMode::Append => kept.insert(
                    "x-forwarded-for"@,
                    headers::values_of(kept, "x-forwarded-for"@).push(value),
                ),
                XffMode::Rewrite => kept.insert("x-forwarded-for"@, seq![value]),
                XffMode::Drop => kept,
            };
            chained.insert("x-real-ip"@, seq![value])
        },
        _ => kept,
    }
}

pub open spec fn proto_text(proto: Seq<char>) -> Seq<char> {
    if proto == "https"@ {
        "https"@
    } else {
        "http"@
    }
}

/// The fields that reach the upstream, but for `Connection` and `Upgrade`,
/// which are the caller's: a WebSocket upgrade keeps both.
pub open spec fn forwarded(
    f: Map<Seq<char>, Seq<Seq<u8>>>,
    ip: Option<Seq<char>>,
    proto: Seq<char>,
    mode: XffMode,
) -> Map<Seq<char>, Seq<Seq<u8>>> {
    let told = with_client(stripped(f), ip, mode).insert(
        "x-forwarded-proto"@,
        seq![utf8::encode_utf8(proto_text(proto))],
    );
    if f.dom().contains("host"@) {
        told.insert("x-forwarded-host"@, seq![f["host"@][0]])
    } else {
        told
    }
}

pub open spec fn opt_text(o: Option<&str>) -> Option<Seq<char>> {
    match o {
        Some(s) => Some(s@),
        None => None,
    }
}

fn add_client(h: &mut HeaderMap<HeaderValue>, ip: Option<&str>, mode: XffMode) -> (r: bool)
    ensures
        r ==> headers::fields(*final(h)) == with_client(
            headers::fields(*old(h)),
            opt_text(ip),
            mode,
        ),
        headers::has_room(headers::fields(*old(h)), 2) ==> {
            &&& r
            &&& headers::has_room(headers::fields(*final(h)), 0)
            &&& headers::fields(*final(h)).dom().len() <= headers::fields(*old(h)).dom().len() + 2
        },
        headers::same_beside(headers::fields(*old(h)), headers::fields(*final(h))),
{
    field_remove(h, "x-real-ip");
    match mode {
        XffMode::Append => {},
        _ => {
            field_remove(h, "x-forwarded-for");
        },
    }
    if let Some(t) = ip {
        if is_header_text(t) {
            proof {
                headers::lemma_header_text(t@);
            }
            let chained = match mode {
                XffMode::Append => field_append(h, "x-forwarded-for", t.as_bytes()),
                XffMode::Rewrite => field_set(h, "x-forwarded-for", t.as_bytes()),
                XffMode::Drop => true,
            };
            return chained && field_set(h, "x-real-ip", t.as_bytes());
        }
    }
    true
}

fn strip_hop_fields(h: &mut HeaderMap<HeaderValue>)
    ensures
        headers::fields(*final(h)) == stripped(headers::fields(*old(h))),
        headers::same_beside(headers::fields(*old(h)), headers::fields(*final(h))),
{
    field_remove(h, "host");
    field_remove(h, "transfer-encoding");
    field_remove(h, "te");
    field_remove(h, "trailer");
    field_remove(h, "proxy-authorization");
    field_remove(h, "proxy-connection");
    field_remove(h, "keep-alive");
}

/// Applies the header policy that the proxy and the WebSocket upgrade share;
/// whether the map took all of it. One that did not holds a part of it beside the
/// fields that the policy does not speak of.
pub fn apply_forwarding_hygiene(
    h: &mut HeaderMap<HeaderValue>,
    client_ip: Option<&str>,
    proto: &str,
    mode: XffMode,
) -> (r: bool)
    ensures
        headers::has_room(headers::fields(*old(h)), 4) ==> r,
        r ==> headers::fields(*final(h)) == forwarded(
            headers::fields(*old(h)),
            opt_text(client_ip),
            proto@,
            mode,
        ),
        headers::same_beside(headers::fields(*old(h)), headers::fields(*final(h))),
{
    let host = field_first(h, "host");
    strip_hop_fields(h);
    if !add_client(h, client_ip, mode) {
        return false;
    }
    let p: &str = if same(proto, "https") {
        "https"
    } else {
        "http"
    };
    proof {
        reveal_strlit("https");
        reveal_strlit("http");
        assert(headers::header_text("https"@));
        assert(headers::header_text("http"@));
        headers::lemma_header_text(p@);
    }
    if !field_set(h, "x-forwarded-proto", p.as_bytes()) {
        return false;
    }
    match host {
        Some(v) => field_set(h, "x-forwarded-host", v.as_slice()),
        None => true,
    }
}

// ── Requests ────────────────────────────────────────────────────────────
/// What `hyper::Uri::builder` makes of a scheme, an authority and a path with
/// query, written out; `None` where one of them is refused.
pub uninterp spec fn built_uri(scheme: Seq<char>, authority: Seq<char>, path: Seq<char>) -> Option<
    Seq<char>,
>;

/// `hyper::Uri::builder` puts a URI together from its parts. What it accepts
/// and how it writes the result is named, not stated.
#[verifier::external_body]
fn upstream_uri(scheme: &str, authority: &str, path: &str) -> (r: Option<String>)
    ensures
        text::opt(r) == built_uri(scheme@, authority@, path@),
{
    let b = hyper::Uri::builder().scheme(scheme).authority(authority);
    b.path_and_query(path).build().ok().map(|u| u.to_string())
}

/// The version of HTTP in which a request is sent.
#[derive(Clone, Copy, Debug, PartialEq, Eq, Structural)]
pub enum HttpVersion {
    Http10,
    Http11,
    Http2,
    Http3,
}

/// A request as it goes to the upstream.
#[derive(Debug)]
pub struct Prepared {
    pub uri: String,
    pub version: HttpVersion,
    pub headers: HeaderMap<HeaderValue>,
}

/// The path that a request without one asks for.
pub open spec fn path_or_root(path: Option<Seq<char>>) -> Seq<char> {
    match path {
        Some(p) => p,
        None => "/"@,
    }
}

/// The fields of a proxied request: `Connection` belongs to one hop.
pub open spec fn proxied(
    f: Map<Seq<char>, Seq<Seq<u8>>>,
    ip: Option<Seq<char>>,
    proto: Seq<char>,
    mode: XffMode,
) -> Map<Seq<char>, Seq<Seq<u8>>> {
    forwarded(f, ip, proto, mode).remove("connection"@)
}

/// The request for an upstream URI; none where there is no URI, or the header
/// map does not take the forwarding headers.
pub fn prepare_with(
    uri: Option<String>,
    headers: HeaderMap<HeaderValue>,
    client_ip: Option<&str>,
    proto: &str,
    mode: XffMode,
) -> (r: Option<Prepared>)
    ensures
        match uri {
            Some(u) => {
                &&& headers::has_room(headers::fields(headers), 4) ==> r is Some
                &&& r matches Some(p) ==> p.uri == u && p.version == HttpVersion::Http11
                    && headers::fields(p.headers) == proxied(
                    headers::fields(headers),
                    opt_text(client_ip),
                    proto@,
                    mode,
                )
            },
            None => r is None,
        },
{
    match uri {
        None => None,
        Some(uri) => {
            let mut h = headers;
            if !apply_forwarding_hygiene(&mut h, client_ip, proto, mode) {
                return None;
            }
            field_remove(&mut h, "connection");
            Some(Prepared { uri, version: HttpVersion::Http11, headers: h })
        },
    }
}

/// Prepares a request for an upstream: its URI, and the header policy. There is
/// none where the parts make no URI, or the header map does not take the
/// forwarding headers.
pub fn prepare_request(
    path: Option<&str>,
    headers: HeaderMap<HeaderValue>,
    scheme: &str,
    authority: &str,
    client_ip: Option<&str>,
    proto: &str,
    mode: XffMode,
) -> (r: Option<Prepared>)
    ensures
        match built_uri(scheme@, authority@, path_or_root(opt_text(path))) {
            Some(u) => {
                &&& headers::has_room(headers::fields(headers), 4) ==> r is Some
                &&& r matches Some(p) ==> p.uri@ == u && p.version == HttpVersion::Http11
                    && headers::fields(p.headers) == proxied(
                    headers::fields(headers),
                    opt_text(client_ip),
                    proto@,
                    mode,
                )
            },
            None => r is None,
        },
{
    let p: &str = match path {
        Some(p) => p,
        None => "/",
    };
    prepare_with(upstream_uri(scheme, authority, p), headers, client_ip, proto, mode)
}

// ── Replies ─────────────────────────────────────────────────────────────
/// A reply that the server makes itself.
#[derive(Debug, Clone, Copy)]
pub struct Reply {
    pub status: u16,
    /// Name and value of a header field.
    pub header: Option<(&'static str, &'static str)>,
    pub body: &'static str,
}

#[verifier::ext_equal]
pub struct ReplyV {
    pub status: u16,
    pub header: Option<(Seq<char>, Seq<char>)>,
    pub body: Seq<char>,
}

impl View for Reply {
    type V = ReplyV;

    open spec fn view(&self) -> ReplyV {
        ReplyV {
            status: self.status,
            header: match self.header {
                Some((n, v)) => Some((n@, v@)),
                None => None,
            },
            body: self.body@,
        }
    }
}

pub open spec fn plain_reply(status: u16, body: Seq<char>) -> ReplyV {
    ReplyV { status, header: None, body }
}

/// The upstream could not be reached.
pub fn bad_gateway() -> (r: Reply)
    ensures
        r@ == plain_reply(502, "502 Bad Gateway"@),
{
    Reply { status: 502, header: None, body: "502 Bad Gateway" }
}

/// The upstream was reached but did not answer in time.
pub fn gateway_timeout() -> (r: Reply)
    ensures
        r@ == plain_reply(504, "504 Gateway Timeout"@),
{
    Reply { status: 504, header: None, body: "504 Gateway Timeout" }
}

/// The upstream of an event stream could not be reached.
pub fn stream_error() -> (r: Reply)
    ensures
        r@ == (ReplyV {
            status: 502,
            header: Some(("content-type"@, "text/event-stream"@)),
            body: "event: error\ndata: upstream unreachable\n\n"@,
        }),
{
    Reply {
        status: 502,
        header: Some(("content-type", "text/event-stream")),
        body: "event: error\ndata: upstream unreachable\n\n",
    }
}

/// What came of sending a request to an upstream.
#[derive(Debug, Clone, Copy, PartialEq, Eq, Structural)]
pub enum Sent {
    Answered,
    Failed,
    TimedOut,
}

/// The reply where there is no answer to hand on.
pub fn reply_without_answer(sent: Sent) -> (r: Option<Reply>)
    ensures
        match sent {
            Sent::Answered => r is None,
            Sent::Failed => r matches Some(p) && p@ == plain_reply(502, "502 Bad Gateway"@),
            Sent::TimedOut => r matches Some(p) && p@ == plain_reply(
                504,
                "504 Gateway Timeout"@,
            ),
        },
{
    match sent {
        Sent::Answered => None,
        Sent::Failed => Some(bad_gateway()),
        Sent::TimedOut => Some(gateway_timeout()),
    }
}

/// The fields of a streamed response, which nothing on the way may buffer.
pub open spec fn unbuffered(f: Map<Seq<char>, Seq<Seq<u8>>>) -> Map<Seq<char>, Seq<Seq<u8>>> {
    f.insert("cache-control"@, seq![utf8::encode_utf8("no-cache"@)]).insert(
        "x-accel-buffering"@,
        seq![utf8::encode_utf8("no"@)],
    )
}

/// Marks a streamed response; whether the header map took both marks. One that
/// did not has the first at most.
pub fn mark_streaming(h: &mut HeaderMap<HeaderValue>) -> (r: bool)
    ensures
        headers::has_room(headers::fields(*old(h)), 2) ==> r,
        r ==> headers::fields(*final(h)) == unbuffered(headers::fields(*old(h))),
        !r ==> headers::fields(*final(h)) == headers::fields(*old(h)) || headers::fields(*final(h))
            == headers::fields(*old(h)).insert(
            "cache-control"@,
            seq![utf8::encode_utf8("no-cache"@)],
        ),
{
    proof {
        reveal_strlit("no-cache");
        reveal_strlit("no");
        assert(headers::header_text("no-cache"@));
        assert(headers::header_text("no"@));
        headers::lemma_header_text("no-cache"@);
        headers::lemma_header_text("no"@);
    }
    field_set(h, "cache-control", "no-cache".as_bytes()) && field_set(
        h,
        "x-accel-buffering",
        "no".as_bytes(),
    )
}

// ── Failover ────────────────────────────────────────────────────────────
/// The methods that may be sent twice.
pub open spec fn idempotent(method: Seq<char>) -> bool {
    ||| method == "GET"@
    ||| method == "HEAD"@
    ||| method == "OPTIONS"@
    ||| method == "PUT"@
    ||| method == "DELETE"@
    ||| method == "TRACE"@
}

pub fn is_idempotent(method: &str) -> (r: bool)
    ensures
        r == idempotent(method@),
{
    same(method, "GET") || same(method, "HEAD") || same(method, "OPTIONS") || same(method, "PUT")
        || same(method, "DELETE") || same(method, "TRACE")
}

/// What `hyper::Uri` reads as the scheme and the authority of a URL; `None`
/// where it refuses the URL.
pub uninterp spec fn url_parts(url: Seq<char>) -> Option<(Option<Seq<char>>, Option<Seq<char>>)>;

pub open spec fn opt_parts(o: Option<(Option<String>, Option<String>)>) -> Option<
    (Option<Seq<char>>, Option<Seq<char>>),
> {
    match o {
        Some((s, a)) => Some((text::opt(s), text::opt(a))),
        None => None,
    }
}

/// `hyper::Uri` parses a URL; its scheme and its authority are handed out. What
/// it accepts is named, not stated.
#[verifier::external_body]
pub(crate) fn split_url(url: &str) -> (r: Option<(Option<String>, Option<String>)>)
    ensures
        opt_parts(r) == url_parts(url@),
{
    let parsed = url.parse::<hyper::Uri>().ok();
    parsed.map(|u| (u.scheme_str().map(String::from), u.authority().map(|a| a.to_string())))
}

/// Where an attempt goes.
#[derive(Debug)]
pub struct Target {
    pub scheme: String,
    pub authority: String,
}

/// The scheme and authority to use: those that were read, with the route's own
/// for what is missing.
pub open spec fn target_of(
    parts: Option<(Option<Seq<char>>, Option<Seq<char>>)>,
    scheme: Seq<char>,
    authority: Seq<char>,
) -> (Seq<char>, Seq<char>) {
    match parts {
        Some((s, a)) => (
            match s {
                Some(s) => s,
                None => scheme,
            },
            match a {
                Some(a) => a,
                None => authority,
            },
        ),
        None => (scheme, authority),
    }
}

pub fn target_with(
    parts: Option<(Option<String>, Option<String>)>,
    scheme: &str,
    authority: &str,
) -> (r: Target)
    ensures
        (r.scheme@, r.authority@) == target_of(opt_parts(parts), scheme@, authority@),
{
    match parts {
        Some((s, a)) => Target {
            scheme: match s {
                Some(s) => s,
                None => own(scheme),
            },
            authority: match a {
                Some(a) => a,
                None => own(authority),
            },
        },
        None => Target { scheme: own(scheme), authority: own(authority) },
    }
}

/// Failover over a pool of at least two upstreams.
#[derive(Debug)]
pub struct Failover {
    /// Attempts that may still be made: at most one per upstream.
    pub attempts_left: usize,
    pub idempotent: bool,
}

/// What to do next.
#[derive(Debug)]
pub enum Attempt {
    /// Send the buffered request there.
    Send(Target),
    /// Give up with a 502.
    GiveUp,
}

/// Whether another attempt is made: there must be one left, and an upstream to
/// make it on.
pub open spec fn goes_on(attempts_left: nat, upstream_left: bool) -> bool {
    attempts_left > 0 && upstream_left
}

/// Whether a failed attempt may be followed by another. A request that may not
/// be sent twice is replayed only where it never reached the upstream.
pub open spec fn may_follow(idempotent: bool, connect_error: bool) -> bool {
    connect_error || idempotent
}

impl Failover {
    /// Begins a request. `None` where there is nothing to fail over to: the
    /// request is then streamed to its one upstream.
    pub fn begin(pool_len: usize, method: &str) -> (r: Option<Failover>)
        ensures
            match r {
                Some(f) => pool_len >= 2 && f.attempts_left == pool_len && f.idempotent
                    == idempotent(method@),
                None => pool_len < 2,
            },
    {
        if pool_len < 2 {
            None
        } else {
            Some(Failover { attempts_left: pool_len, idempotent: is_idempotent(method) })
        }
    }

    /// The next attempt, on the healthiest upstream of the pool, if there is one.
    pub fn next(&mut self, best: Option<&str>, scheme: &str, authority: &str) -> (r: Attempt)
        ensures
            final(self).idempotent == old(self).idempotent,
            match r {
                Attempt::Send(t) => {
                    &&& goes_on(old(self).attempts_left as nat, best is Some)
                    &&& final(self).attempts_left == old(self).attempts_left - 1
                    &&& best matches Some(url) && (t.scheme@, t.authority@) == target_of(
                        url_parts(url@),
                        scheme@,
                        authority@,
                    )
                },
                Attempt::GiveUp => {
                    &&& !goes_on(old(self).attempts_left as nat, best is Some)
                    &&& final(self).attempts_left == old(self).attempts_left
                },
            },
    {
        match best {
            Some(url) => if self.attempts_left == 0 {
                Attempt::GiveUp
            } else {
                self.attempts_left -= 1;
                Attempt::Send(target_with(split_url(url), scheme, authority))
            },
            None => Attempt::GiveUp,
        }
    }

    /// Whether a failed attempt may be followed by another.
    pub fn may_retry(&self, connect_error: bool) -> (r: bool)
        ensures
            r == may_follow(self.idempotent, connect_error),
    {
        connect_error || self.idempotent
    }
}

/// What becomes of one attempt: whether an upstream was left for it, and
/// whether it failed to connect.
#[derive(Debug, Clone, Copy, PartialEq, Eq, Structural)]
pub struct Failure {
    pub upstream_left: bool,
    pub connect_error: bool,
}

/// How many attempts are made, from the i-th on, when each of them fails as
/// `failures` says.
pub open spec fn attempts_made(left: nat, idempotent: bool, failures: Seq<Failure>, i: nat) -> nat
    decreases left,
{
    if i >= failures.len() || !goes_on(left, failures[i as int].upstream_left) {
        0
    } else if may_follow(idempotent, failures[i as int].connect_error) {
        1 + attempts_made((left - 1) as nat, idempotent, failures, i + 1)
    } else {
        1
    }
}

// ── WebSocket ───────────────────────────────────────────────────────────
pub open spec fn tls_scheme(scheme: Seq<char>) -> bool {
    scheme == "https"@ || scheme == "wss"@
}

/// Whether an upstream is reached over TLS.
pub fn is_tls_upstream(scheme: &str) -> (r: bool)
    ensures
        r == tls_scheme(scheme@),
{
    same(scheme, "https") || same(scheme, "wss")
}

pub open spec fn port_of(scheme: Seq<char>) -> u16 {
    if tls_scheme(scheme) {
        443
    } else {
        80
    }
}

pub fn default_port(scheme: &str) -> (r: u16)
    ensures
        r == port_of(scheme@),
{
    if is_tls_upstream(scheme) {
        443
    } else {
        80
    }
}

/// Whether an authority names its port: a 16-bit number behind its last colon.
pub open spec fn port_given(authority: Seq<char>) -> bool {
    match text::rsplit_once_of(authority, ':') {
        Some((_, port)) => text::parse_dec(port, 65_535) is Some,
        None => false,
    }
}

pub open spec fn connect_text(authority: Seq<char>, scheme: Seq<char>) -> Seq<char> {
    if port_given(authority) {
        authority
    } else {
        authority + ":"@ + text::dec(port_of(scheme) as nat)
    }
}

/// The host and port to connect to.
pub fn connect_target(authority: &str, scheme: &str) -> (r: String)
    ensures
        r@ == connect_text(authority@, scheme@),
{
    let given = match rsplit_once(authority, ':') {
        Some((_, port)) => parse_u16(port.as_str()).is_some(),
        None => false,
    };
    if given {
        own(authority)
    } else {
        cat3(authority, ":", dec_text(default_port(scheme) as u64).as_str())
    }
}

/// A WebSocket upgrade as it goes to the upstream.
#[derive(Debug)]
pub struct Upgrade {
    /// The host and port to connect to.
    pub connect: String,
    pub tls: bool,
    pub uri: String,
    pub version: HttpVersion,
    pub headers: HeaderMap<HeaderValue>,
}

/// The upgrade for an upstream URI; none where there is no URI, or the header map
/// does not take the forwarding headers. `Connection` and `Upgrade` carry the
/// handshake, so they stay.
pub fn upgrade_with(
    uri: Option<String>,
    headers: HeaderMap<HeaderValue>,
    scheme: &str,
    authority: &str,
    client_ip: Option<&str>,
    proto: &str,
    mode: XffMode,
) -> (r: Option<Upgrade>)
    ensures
        match uri {
            Some(u) => {
                &&& headers::has_room(headers::fields(headers), 4) ==> r is Some
                &&& r matches Some(p) ==> p.uri == u && p.connect@ == connect_text(
                    authority@,
                    scheme@,
                ) && p.tls == tls_scheme(scheme@) && p.version == HttpVersion::Http11
                    && headers::fields(p.headers) == forwarded(
                    headers::fields(headers),
                    opt_text(client_ip),
                    proto@,
                    mode,
                )
            },
            None => r is None,
        },
{
    match uri {
        None => None,
        Some(uri) => {
            let mut h = headers;
            if !apply_forwarding_hygiene(&mut h, client_ip, proto, mode) {
                return None;
            }
            let connect = connect_target(authority, scheme);
            let tls = is_tls_upstream(scheme);
            Some(Upgrade { connect, tls, uri, version: HttpVersion::Http11, headers: h })
        },
    }
}

/// Prepares a WebSocket upgrade for an upstream; none where the parts make no
/// URI, or the header map does not take the forwarding headers.
pub fn prepare_upgrade(
    path: Option<&str>,
    headers: HeaderMap<HeaderValue>,
    scheme: &str,
    authority: &str,
    client_ip: Option<&str>,
    proto: &str,
    mode: XffMode,
) -> (r: Option<Upgrade>)
    ensures
        match built_uri(scheme@, authority@, path_or_root(opt_text(path))) {
            Some(u) => {
                &&& headers::has_room(headers::fields(headers), 4) ==> r is Some
                &&& r matches Some(p) ==> p.uri@ == u && p.connect@ == connect_text(
                    authority@,
                    scheme@,
                ) && p.tls == tls_scheme(scheme@) && p.version == HttpVersion::Http11
                    && headers::fields(p.headers) == forwarded(
                    headers::fields(headers),
                    opt_text(client_ip),
                    proto@,
                    mode,
                )
            },
            None => r is None,
        },
{
    let p: &str = match path {
        Some(p) => p,
        None => "/",
    };
    upgrade_with(
        upstream_uri(scheme, authority, p),
        headers,
        scheme,
        authority,
        client_ip,
        proto,
        mode,
    )
}

/// The fields of the reply to a client whose upgrade the upstream accepted: the
/// handshake headers of the upstream are handed on.
pub open spec fn upgrade_fields(
    accept: Option<Seq<char>>,
    protocol: Option<Seq<char>>,
    extensions: Option<Seq<char>>,
) -> Seq<(Seq<char>, Seq<char>)> {
    let base = seq![("upgrade"@, "websocket"@), ("connection"@, "Upgrade"@)];
    let a = match accept {
        Some(v) => base.push(("sec-websocket-accept"@, v)),
        None => base,
    };
    let p = match protocol {
        Some(v) => a.push(("sec-websocket-protocol"@, v)),
        None => a,
    };
    match extensions {
        Some(v) => p.push(("sec-websocket-extensions"@, v)),
        None => p,
    }
}

/// One header field of a reply.
#[derive(Debug)]
pub struct Field {
    pub name: String,
    pub value: String,
}

impl View for Field {
    type V = (Seq<char>, Seq<char>);

    open spec fn view(&self) -> (Seq<char>, Seq<char>) {
        (self.name@, self.value@)
    }
}

fn push_field(out: &mut Vec<Field>, name: &str, value: String)
    ensures
        text::views(final(out)@) == text::views(old(out)@).push((name@, value@)),
{
    broadcast use crate::text::group_views;

    out.push(Field { name: own(name), value });
}

pub fn upgrade_reply(
    accept: Option<String>,
    protocol: Option<String>,
    extensions: Option<String>,
) -> (r: Vec<Field>)
    ensures
        text::views(r@) == upgrade_fields(
            text::opt(accept),
            text::opt(protocol),
            text::opt(extensions),
        ),
{
    broadcast use crate::text::group_views;

    let mut out: Vec<Field> = Vec::new();
    push_field(&mut out, "upgrade", own("websocket"));
    push_field(&mut out, "connection", own("Upgrade"));
    assert(text::views(out@) =~= seq![("upgrade"@, "websocket"@), ("connection"@, "Upgrade"@)]);
    if let Some(v) = accept {
        push_field(&mut out, "sec-websocket-accept", v);
    }
    if let Some(v) = protocol {
        push_field(&mut out, "sec-websocket-protocol", v);
    }
    if let Some(v) = extensions {
        push_field(&mut out, "sec-websocket-extensions", v);
    }
    out
}

/// What the client gets of the upstream's answer to an upgrade.
#[derive(Debug)]
pub enum UpgradeAnswer {
    /// The upstream did not switch: its answer goes on as it is.
    HandOn,
    /// 101 with these fields; the two connections are joined.
    Switch(Vec<Field>),
}

pub fn answer_upgrade(
    status: u16,
    accept: Option<String>,
    protocol: Option<String>,
    extensions: Option<String>,
) -> (r: UpgradeAnswer)
    ensures
        if status == 101 {
            r matches UpgradeAnswer::Switch(fs) && text::views(fs@) == upgrade_fields(
                text::opt(accept),
                text::opt(protocol),
                text::opt(extensions),
            )
        } else {
            r is HandOn
        },
{
    if status != 101 {
        UpgradeAnswer::HandOn
    } else {
        UpgradeAnswer::Switch(upgrade_reply(accept, protocol, extensions))
    }
}

// ── Laws ────────────────────────────────────────────────────────────────
proof fn lemma_names_differ()
    ensures
        "x-forwarded-for"@ != "x-real-ip"@,
        "x-forwarded-for"@ != "x-forwarded-proto"@,
        "x-forwarded-for"@ != "x-forwarded-host"@,
        "x-forwarded-for"@ != "connection"@,
        "x-real-ip"@ != "x-forwarded-proto"@,
        "x-real-ip"@ != "x-forwarded-host"@,
        "x-real-ip"@ != "connection"@,
{
    reveal_strlit("x-forwarded-for");
    reveal_strlit("x-real-ip");
    reveal_strlit("x-forwarded-proto");
    reveal_strlit("x-forwarded-host");
    reveal_strlit("connection");
    assert("x-forwarded-for"@.len() == 15);
    assert("x-real-ip"@.len() == 9);
    assert("x-forwarded-proto"@.len() == 17);
    assert("x-forwarded-host"@.len() == 16);
    assert("connection"@.len() == 10);
}

/// Under `Rewrite` the upstream sees one `X-Forwarded-For` entry, the client's
/// address, whatever the client sent.
pub proof fn law_rewrite_leaves_one_entry(
    f: Map<Seq<char>, Seq<Seq<u8>>>,
    ip: Seq<char>,
    proto: Seq<char>,
)
    requires
        headers::header_text(ip),
    ensures
        headers::values_of(
            proxied(f, Some(ip), proto, XffMode::Rewrite),
            "x-forwarded-for"@,
        ) == seq![utf8::encode_utf8(ip)],
{
    lemma_names_differ();
}

/// Under `Drop`, and under `Rewrite` without a client address, the upstream
/// sees no `X-Forwarded-For` at all.
pub proof fn law_drop_leaves_no_entry(
    f: Map<Seq<char>, Seq<Seq<u8>>>,
    ip: Option<Seq<char>>,
    proto: Seq<char>,
    mode: XffMode,
)
    requires
        mode == XffMode::Drop || (mode == XffMode::Rewrite && ip is None),
    ensures
        !proxied(f, ip, proto, mode).dom().contains("x-forwarded-for"@),
{
    lemma_names_differ();
}

/// Under `Append` the inbound entries stay, in their order, before the client's
/// address.
pub proof fn law_append_keeps_the_chain(
    f: Map<Seq<char>, Seq<Seq<u8>>>,
    ip: Seq<char>,
    proto: Seq<char>,
)
    requires
        headers::header_text(ip),
    ensures
        headers::values_of(
            proxied(f, Some(ip), proto, XffMode::Append),
            "x-forwarded-for"@,
        ) == headers::values_of(f, "x-forwarded-for"@).push(utf8::encode_utf8(ip)),
{
    lemma_names_differ();
    lemma_hop_names();
}

/// `X-Real-IP` is the client's address, never what the client sent: where no
/// address can be told, there is no such field.
pub proof fn law_real_ip_is_the_client(
    f: Map<Seq<char>, Seq<Seq<u8>>>,
    ip: Option<Seq<char>>,
    proto: Seq<char>,
    mode: XffMode,
)
    ensures
        match ip {
            Some(t) if headers::header_text(t) => headers::values_of(
                proxied(f, ip, proto, mode),
                "x-real-ip"@,
            ) == seq![utf8::encode_utf8(t)],
            _ => !proxied(f, ip, proto, mode).dom().contains("x-real-ip"@),
        },
{
    lemma_names_differ();
}

proof fn lemma_hop_names()
    ensures
        "x-forwarded-for"@ != "host"@,
        "x-forwarded-for"@ != "transfer-encoding"@,
        "x-forwarded-for"@ != "te"@,
        "x-forwarded-for"@ != "trailer"@,
        "x-forwarded-for"@ != "proxy-authorization"@,
        "x-forwarded-for"@ != "proxy-connection"@,
        "x-forwarded-for"@ != "keep-alive"@,
{
    reveal_strlit("x-forwarded-for");
    reveal_strlit("host");
    reveal_strlit("transfer-encoding");
    reveal_strlit("te");
    reveal_strlit("trailer");
    reveal_strlit("proxy-authorization");
    reveal_strlit("proxy-connection");
    reveal_strlit("keep-alive");
    assert("x-forwarded-for"@.len() == 15);
    assert("host"@.len() == 4);
    assert("transfer-encoding"@.len() == 17);
    assert("te"@.len() == 2);
    assert("trailer"@.len() == 7);
    assert("proxy-authorization"@.len() == 19);
    assert("proxy-connection"@.len() == 16);
    assert("keep-alive"@.len() == 10);
}

/// A field that belongs to one hop, or holds the client's credentials for the
/// proxy.
pub open spec fn hop_field(n: Seq<char>) -> bool {
    ||| n == "host"@
    ||| n == "transfer-encoding"@
    ||| n == "te"@
    ||| n == "trailer"@
    ||| n == "proxy-authorization"@
    ||| n == "proxy-connection"@
    ||| n == "keep-alive"@
}

proof fn lemma_added_are_no_hop_fields()
    ensures
        !hop_field("x-forwarded-for"@),
        !hop_field("x-real-ip"@),
        !hop_field("x-forwarded-proto"@),
        !hop_field("x-forwarded-host"@),
{
    reveal_strlit("x-forwarded-for");
    reveal_strlit("x-real-ip");
    reveal_strlit("x-forwarded-proto");
    reveal_strlit("x-forwarded-host");
    reveal_strlit("host");
    reveal_strlit("transfer-encoding");
    reveal_strlit("te");
    reveal_strlit("trailer");
    reveal_strlit("proxy-authorization");
    reveal_strlit("proxy-connection");
    reveal_strlit("keep-alive");
    assert("x-forwarded-for"@[0] == 'x');
    assert("x-real-ip"@[0] == 'x');
    assert("x-forwarded-proto"@[0] == 'x');
    assert("x-forwarded-host"@[0] == 'x');
    assert("host"@[0] == 'h');
    assert("transfer-encoding"@[0] == 't');
    assert("te"@[0] == 't');
    assert("trailer"@[0] == 't');
    assert("proxy-authorization"@[0] == 'p');
    assert("proxy-connection"@[0] == 'p');
    assert("keep-alive"@[0] == 'k');
}

/// No hop-by-hop field reaches an upstream, neither by the proxy nor by a
/// WebSocket upgrade.
pub proof fn law_hop_fields_are_stripped(
    f: Map<Seq<char>, Seq<Seq<u8>>>,
    ip: Option<Seq<char>>,
    proto: Seq<char>,
    mode: XffMode,
    name: Seq<char>,
)
    requires
        hop_field(name),
    ensures
        !forwarded(f, ip, proto, mode).dom().contains(name),
        !proxied(f, ip, proto, mode).dom().contains(name),
        !proxied(f, ip, proto, mode).dom().contains("connection"@),
{
    lemma_added_are_no_hop_fields();
}

/// A WebSocket upgrade keeps the fields that carry its handshake, as the client
/// sent them.
pub proof fn law_handshake_is_kept(
    f: Map<Seq<char>, Seq<Seq<u8>>>,
    ip: Option<Seq<char>>,
    proto: Seq<char>,
    mode: XffMode,
    name: Seq<char>,
)
    requires
        name == "connection"@ || name == "upgrade"@ || name == "sec-websocket-key"@ || name
            == "sec-websocket-version"@ || name == "sec-websocket-protocol"@ || name
            == "sec-websocket-extensions"@,
    ensures
        forwarded(f, ip, proto, mode).dom().contains(name) == f.dom().contains(name),
        f.dom().contains(name) ==> forwarded(f, ip, proto, mode)[name] == f[name],
{
    reveal_strlit("connection");
    reveal_strlit("upgrade");
    reveal_strlit("sec-websocket-key");
    reveal_strlit("sec-websocket-version");
    reveal_strlit("sec-websocket-protocol");
    reveal_strlit("sec-websocket-extensions");
    reveal_strlit("host");
    reveal_strlit("transfer-encoding");
    reveal_strlit("te");
    reveal_strlit("trailer");
    reveal_strlit("proxy-authorization");
    reveal_strlit("proxy-connection");
    reveal_strlit("keep-alive");
    reveal_strlit("x-forwarded-for");
    reveal_strlit("x-real-ip");
    reveal_strlit("x-forwarded-proto");
    reveal_strlit("x-forwarded-host");
    assert(name[0] == 'c' || name[0] == 'u' || name[0] == 's');
    assert("host"@[0] == 'h');
    assert("transfer-encoding"@[0] == 't');
    assert("te"@[0] == 't');
    assert("trailer"@[0] == 't');
    assert("proxy-authorization"@[0] == 'p');
    assert("proxy-connection"@[0] == 'p');
    assert("keep-alive"@[0] == 'k');
    assert("x-forwarded-for"@[0] == 'x');
    assert("x-real-ip"@[0] == 'x');
    assert("x-forwarded-proto"@[0] == 'x');
    assert("x-forwarded-host"@[0] == 'x');
}

/// The inbound host is surfaced as `X-Forwarded-Host`.
pub proof fn law_host_is_surfaced(
    f: Map<Seq<char>, Seq<Seq<u8>>>,
    ip: Option<Seq<char>>,
    proto: Seq<char>,
    mode: XffMode,
)
    requires
        f.dom().contains("host"@),
    ensures
        headers::values_of(forwarded(f, ip, proto, mode), "x-forwarded-host"@) == seq![
            f["host"@][0],
        ],
{
}

/// At most one attempt is made per upstream of the pool, however they fail.
pub proof fn law_attempts_are_bounded(
    left: nat,
    idempotent: bool,
    failures: Seq<Failure>,
    i: nat,
)
    ensures
        attempts_made(left, idempotent, failures, i) <= left,
    decreases left,
{
    if i < failures.len() && goes_on(left, failures[i as int].upstream_left) {
        law_attempts_are_bounded((left - 1) as nat, idempotent, failures, i + 1);
    }
}

/// A request that may not be sent twice is followed by another attempt only
/// where it failed to connect.
pub proof fn law_no_replay_after_it_was_sent(left: nat, failures: Seq<Failure>, i: nat, k: nat)
    requires
        k + 1 < attempts_made(left, false, failures, i),
    ensures
        i + k < failures.len(),
        failures[(i + k) as int].connect_error,
    decreases k,
{
    if k > 0 {
        law_no_replay_after_it_was_sent((left - 1) as nat, failures, i + 1, (k - 1) as nat);
    }
}

} // verus!
