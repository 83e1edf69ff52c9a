//! The plain HTTP listener: health of the upstreams, ACME challenges, and a
//! redirect to HTTPS for everything else.
use crate::headers;
use crate::headers::field_first;
use crate::hex;
use crate::hex::to_text;
use crate::metrics::UpstreamRow;
use crate::proxy;
use crate::proxy::{Field, Reply};
use crate::server::limits;
use crate::server::limits::MAX_URI_LEN;
use crate::server::reply::empty_response;
use crate::text;
use crate::text::{cat3, is_before, own, same, starts_with};
use hyper::http::HeaderValue;
use hyper::HeaderMap;
use vstd::prelude::*;
use vstd::utf8;

verus! {

// ── Host ────────────────────────────────────────────────────────────────
/// Bytes that are text for sure: printable ASCII and tabs.
pub open spec fn plain_bytes(b: Seq<u8>) -> bool {
    forall|i: int| 0 <= i < b.len() ==> (32 <= #[trigger] b[i] < 127 || b[i] == 9)
}

/// The host that the fields name, where it is plain text.
pub open spec fn named_host(f: Map<Seq<char>, Seq<Seq<u8>>>) -> Option<Seq<char>> {
    if f.dom().contains("host"@) && plain_bytes(f["host"@][0]) {
        Some(hex::chars_of(f["host"@][0]))
    } else {
        None
    }
}

fn is_plain(b: &[u8]) -> (r: bool)
    ensures
        r == plain_bytes(b@),
{
    let mut i: usize = 0;
    while i < b.len()
        invariant
            i <= b@.len(),
            plain_bytes(b@.subrange(0, i as int)),
        decreases b@.len() - i,
    {
        let c: u8 = b[i];
        if !(32 <= c && c < 127 || c == 9) {
            assert(!(32 <= b@[i as int] < 127 || b@[i as int] == 9));
            return false;
        }
        assert forall|j: int| 0 <= j < i + 1 implies (32 <= #[trigger] b@.subrange(0, i + 1)[j]
            < 127 || b@.subrange(0, i + 1)[j] == 9) by {
            if j < i {
                assert(b@.subrange(0, i as int)[j] == b@[j]);
            }
        }
        i += 1;
    }
    assert(b@.subrange(0, i as int) =~= b@);
    true
}

pub fn host_of(h: &HeaderMap<HeaderValue>) -> (r: Option<String>)
    ensures
        text::opt(r) == named_host(headers::fields(*h)),
{
    match field_first(h, "host") {
        Some(v) => if is_plain(v.as_slice()) {
            Some(to_text(v.as_slice()))
        } else {
            None
        },
        None => None,
    }
}

// ── Decisions ───────────────────────────────────────────────────────────
/// What is known of a request on the plain listener.
#[derive(Debug)]
pub struct PlainRequest {
    /// The rate limiter lets the client through.
    pub within_rate: bool,
    pub path: String,
    /// Path and query, where the target has them.
    pub path_and_query: Option<String>,
    /// The client is on the internal network.
    pub internal: bool,
    /// The key authorisation of the challenge that the path names.
    pub challenge: Option<String>,
    /// A route takes the path.
    pub routed: bool,
    /// The host that the request names.
    pub host: Option<String>,
    /// That host is well formed.
    pub host_valid: bool,
}

#[verifier::ext_equal]
pub struct PlainRequestV {
    pub within_rate: bool,
    pub path: Seq<char>,
    pub path_and_query: Option<Seq<char>>,
    pub internal: bool,
    pub challenge: Option<Seq<char>>,
    pub routed: bool,
    pub host: Option<Seq<char>>,
    pub host_valid: bool,
}

impl View for PlainRequest {
    type V = PlainRequestV;

    open spec fn view(&self) -> PlainRequestV {
        PlainRequestV {
            within_rate: self.within_rate,
            path: self.path@,
            path_and_query: text::opt(self.path_and_query),
            internal: self.internal,
            challenge: text::opt(self.challenge),
            routed: self.routed,
            host: text::opt(self.host),
            host_valid: self.host_valid,
        }
    }
}

/// What becomes of a request on the plain listener.
#[derive(Debug)]
pub enum Decision {
    /// It is refused.
    Refuse(Reply),
    /// It gets the live snapshot, as JSON that is not to be stored.
    Snapshot,
    /// It gets the key authorisation of a challenge, as plain text.
    Challenge(String),
    /// It goes to the upstream of its route.
    Proxy,
    /// It is sent to a URL for good.
    Redirect(String),
}

#[verifier::ext_equal]
pub enum DecisionV {
    Refuse(u16),
    Snapshot,
    Challenge(Seq<char>),
    Proxy,
    Redirect(Seq<char>),
}

/// A refusal has no body and no header of its own.
pub open spec fn is_decision(d: Decision, v: DecisionV) -> bool {
    match (d, v) {
        (Decision::Refuse(r), DecisionV::Refuse(status)) => r@ == proxy::plain_reply(status, ""@),
        (Decision::Snapshot, DecisionV::Snapshot) => true,
        (Decision::Challenge(k), DecisionV::Challenge(t)) => k@ == t,
        (Decision::Proxy, DecisionV::Proxy) => true,
        (Decision::Redirect(u), DecisionV::Redirect(t)) => u@ == t,
        _ => false,
    }
}

/// The length of the target, in bytes.
pub open spec fn target_len(q: PlainRequestV) -> nat {
    match q.path_and_query {
        Some(t) => utf8::encode_utf8(t).len(),
        None => utf8::encode_utf8(q.path).len(),
    }
}

/// The path to which a request is sent: one that a browser would take for
/// another host is replaced by the root.
pub open spec fn safe_path(path: Seq<char>) -> Seq<char> {
    if text::starts(path, "//"@) || text::starts(path, "/\\"@) {
        "/"@
    } else {
        path
    }
}

pub open spec fn redirect_host(q: PlainRequestV) -> Seq<char> {
    match q.host {
        Some(h) if q.host_valid => h,
        _ => "localhost"@,
    }
}

pub open spec fn redirect_of(q: PlainRequestV) -> Seq<char> {
    "https://"@ + redirect_host(q) + safe_path(proxy::path_or_root(q.path_and_query))
}

pub open spec fn decided(q: PlainRequestV) -> DecisionV {
    if !q.within_rate {
        DecisionV::Refuse(429)
    } else if target_len(q) > limits::MAX_URI_LEN {
        DecisionV::Refuse(414)
    } else if q.path == "/_zion/snapshot.json"@ {
        if q.internal {
            DecisionV::Snapshot
        } else {
            DecisionV::Refuse(403)
        }
    } else if text::starts(q.path, "/.well-known/acme-challenge/"@) && (q.challenge is Some
        || q.routed) {
        match q.challenge {
            Some(k) => DecisionV::Challenge(k),
            None => DecisionV::Proxy,
        }
    } else {
        DecisionV::Redirect(redirect_of(q))
    }
}

fn redirect_url(q: &PlainRequest) -> (r: String)
    ensures
        r@ == redirect_of(q@),
{
    let host: &str = match &q.host {
        Some(h) => if q.host_valid {
            h.as_str()
        } else {
            "localhost"
        },
        None => "localhost",
    };
    let target: &str = match &q.path_and_query {
        Some(t) => t.as_str(),
        None => "/",
    };
    let safe: &str = if starts_with(target, "//") || starts_with(target, "/\\") {
        "/"
    } else {
        target
    };
    cat3("https://", host, safe)
}

/// Decides on a request.
pub fn handle_http(q: &PlainRequest) -> (r: Decision)
    ensures
        is_decision(r, decided(q@)),
{
    if !q.within_rate {
        return Decision::Refuse(empty_response(429));
    }
    let len: usize = match &q.path_and_query {
        Some(t) => t.as_str().as_bytes().len(),
        None => q.path.as_str().as_bytes().len(),
    };
    if len > MAX_URI_LEN {
        return Decision::Refuse(empty_response(414));
    }
    if same(q.path.as_str(), "/_zion/snapshot.json") {
        if !q.internal {
            return Decision::Refuse(empty_response(403));
        }
        return Decision::Snapshot;
    }
    if starts_with(q.path.as_str(), "/.well-known/acme-challenge/") {
        match &q.challenge {
            Some(k) => {
                return Decision::Challenge(own(k.as_str()));
            },
            None => {},
        }
        if q.routed {
            return Decision::Proxy;
        }
    }
    Decision::Redirect(redirect_url(q))
}

// ── Replies ─────────────────────────────────────────────────────────────
/// An answer of the plain listener, but for the bytes of a snapshot.
#[derive(Debug)]
pub struct PlainReply {
    pub status: u16,
    pub fields: Vec<Field>,
    pub body: String,
}

#[verifier::ext_equal]
pub struct PlainReplyV {
    pub status: u16,
    pub fields: Seq<(Seq<char>, Seq<char>)>,
    pub body: Seq<char>,
}

impl View for PlainReply {
    type V = PlainReplyV;

    open spec fn view(&self) -> PlainReplyV {
        PlainReplyV { status: self.status, fields: text::views(self.fields@), body: self.body@ }
    }
}

/// What is sent for a decision; `None` where the request goes to its upstream.
/// The body of a snapshot is the snapshot itself, which is not a part of this.
pub open spec fn answered(d: DecisionV) -> Option<PlainReplyV> {
    match d {
        DecisionV::Refuse(status) => Some(PlainReplyV { status, fields: seq![], body: ""@ }),
        DecisionV::Snapshot => Some(
            PlainReplyV {
                status: 200,
                fields: seq![
                    ("Content-Type"@, "application/json; charset=utf-8"@),
                    ("Cache-Control"@, "no-store"@),
                ],
                body: ""@,
            },
        ),
        DecisionV::Challenge(key) => Some(
            PlainReplyV {
                status: 200,
                fields: seq![("Content-Type"@, "text/plain"@)],
                body: key,
            },
        ),
        DecisionV::Proxy => None,
        DecisionV::Redirect(url) => Some(
            PlainReplyV { status: 301, fields: seq![("Location"@, url)], body: ""@ },
        ),
    }
}

pub open spec fn opt_reply(o: Option<PlainReply>) -> Option<PlainReplyV> {
    match o {
        Some(r) => Some(r@),
        None => None,
    }
}

fn field(name: &str, value: &str) -> (r: Field)
    ensures
        r@ == (name@, value@),
{
    Field { name: own(name), value: own(value) }
}

/// What is sent for a decision. A refusal is sent as it stands.
pub open spec fn reply_of(d: Decision) -> Option<PlainReplyV> {
    match d {
        Decision::Refuse(reply) => Some(
            PlainReplyV {
                status: reply.status,
                fields: match reply@.header {
                    Some(h) => seq![h],
                    None => seq![],
                },
                body: reply.body@,
            },
        ),
        Decision::Snapshot => answered(DecisionV::Snapshot),
        Decision::Challenge(key) => answered(DecisionV::Challenge(key@)),
        Decision::Proxy => answered(DecisionV::Proxy),
        Decision::Redirect(url) => answered(DecisionV::Redirect(url@)),
    }
}

/// The reply of a decision on a request.
pub fn plain_reply(d: &Decision) -> (r: Option<PlainReply>)
    ensures
        opt_reply(r) == reply_of(*d),
{
    let mut fields: Vec<Field> = Vec::new();
    assert(text::views(fields@) =~= seq![]);
    match d {
        Decision::Refuse(reply) => {
            if let Some((name, value)) = reply.header {
                fields.push(field(name, value));
                assert(text::views(fields@) =~= seq![(name@, value@)]);
            }
            Some(PlainReply { status: reply.status, fields, body: own(reply.body) })
        },
        Decision::Snapshot => {
            fields.push(field("Content-Type", "application/json; charset=utf-8"));
            fields.push(field("Cache-Control", "no-store"));
            assert(text::views(fields@) =~= seq![
                ("Content-Type"@, "application/json; charset=utf-8"@),
                ("Cache-Control"@, "no-store"@),
            ]);
            Some(PlainReply { status: 200, fields, body: own("") })
        },
        Decision::Challenge(key) => {
            fields.push(field("Content-Type", "text/plain"));
            assert(text::views(fields@) =~= seq![("Content-Type"@, "text/plain"@)]);
            Some(PlainReply { status: 200, fields, body: own(key.as_str()) })
        },
        Decision::Proxy => None,
        Decision::Redirect(url) => {
            fields.push(field("Location", url.as_str()));
            assert(text::views(fields@) =~= seq![("Location"@, url@)]);
            Some(PlainReply { status: 301, fields, body: own("") })
        },
    }
}

// ── Snapshot rows ───────────────────────────────────────────────────────
#[verifier::ext_equal]
pub struct RowV {
    pub url: Seq<char>,
    pub healthy: bool,
    pub latency_us: u64,
}

pub open spec fn row_view(r: UpstreamRow) -> RowV {
    RowV { url: r.url@, healthy: r.healthy, latency_us: r.latency_us }
}

pub open spec fn row_views(s: Seq<UpstreamRow>) -> Seq<RowV> {
    Seq::new(s.len(), |i: int| row_view(s[i]))
}

/// The rows with one more, behind those that do not come after it.
pub open spec fn placed(s: Seq<RowV>, x: RowV) -> Seq<RowV>
    decreases s.len(),
{
    if s.len() == 0 || !text::precedes(x.url, s.last().url) {
        s.push(x)
    } else {
        placed(s.drop_last(), x).push(s.last())
    }
}

pub open spec fn by_url_n(s: Seq<RowV>, n: nat) -> Seq<RowV>
    decreases n,
{
    if n == 0 {
        seq![]
    } else {
        placed(by_url_n(s, (n - 1) as nat), s[n - 1])
    }
}

/// The rows in the order of their URLs.
pub open spec fn by_url(s: Seq<RowV>) -> Seq<RowV> {
    by_url_n(s, s.len())
}

proof fn lemma_placed_at(s: Seq<RowV>, x: RowV, k: int)
    requires
        0 <= k <= s.len(),
        k == 0 || !text::precedes(x.url, s[k - 1].url),
        forall|j: int| k <= j < s.len() ==> text::precedes(x.url, (#[trigger] s[j]).url),
    ensures
        placed(s, x) == s.insert(k, x),
    decreases s.len(),
{
    if k == s.len() {
        assert(s.insert(k, x) =~= s.push(x));
    } else {
        lemma_placed_at(s.drop_last(), x, k);
        assert(s.drop_last().insert(k, x).push(s.last()) =~= s.insert(k, x));
    }
}

pub fn sort_rows<'a>(rows: Vec<UpstreamRow<'a>>) -> (r: Vec<UpstreamRow<'a>>)
    ensures
        row_views(r@) == by_url(row_views(rows@)),
{
    let ghost rv = row_views(rows@);
    let mut out: Vec<UpstreamRow> = Vec::new();
    assert(row_views(out@) =~= seq![]);
    for x in it: rows
        invariant
            it.seq() == rows@,
            rv == row_views(rows@),
            row_views(out@) == by_url_n(rv, it.index() as nat),
    {
        let ghost xv = row_view(x);
        assert(rv[it.index() as int] == xv);
        let ghost before = row_views(out@);
        let mut k: usize = out.len();
        while k > 0 && is_before(x.url, out[k - 1].url)
            invariant
                k <= out.len(),
                before == row_views(out@),
                xv == row_view(x),
                forall|j: int|
                    k <= j < before.len() ==> text::precedes(xv.url, (#[trigger] before[j]).url),
            decreases k,
        {
            assert(before[k - 1] == row_view(out@[k - 1]));
            k -= 1;
        }
        proof {
            if k > 0 {
                assert(before[k - 1] == row_view(out@[k - 1]));
            }
            lemma_placed_at(before, xv, k as int);
        }
        out.insert(k, x);
        assert(row_views(out@) =~= before.insert(k as int, xv));
    }
    out
}

// ── Laws ────────────────────────────────────────────────────────────────
/// A redirect stays on the host that the request named, when that is well
/// formed: behind it comes a slash, and not another slash or a backslash.
pub proof fn law_redirect_stays_on_host(q: PlainRequestV)
    requires
        q.path_and_query is Some ==> text::starts(q.path_and_query->0, "/"@),
    ensures
        text::starts(redirect_of(q), "https://"@ + redirect_host(q) + "/"@),
        ({
            let rest = redirect_of(q).skip(
                ("https://"@ + redirect_host(q) + "/"@).len() as int,
            );
            rest.len() > 0 ==> rest[0] != '/' && rest[0] != '\\'
        }),
        q.host is Some && q.host_valid ==> redirect_host(q) == q.host->0,
{
    reveal_strlit("/");
    reveal_strlit("//");
    reveal_strlit("/\\");
    let p = proxy::path_or_root(q.path_and_query);
    let s = safe_path(p);
    let head = "https://"@ + redirect_host(q);
    assert(text::starts(p, "/"@)) by {
        if q.path_and_query is None {
            assert(p.subrange(0, 1) =~= "/"@);
        }
    }
    assert(p[0] == '/') by {
        assert(p.subrange(0, 1)[0] == p[0]);
    }
    assert(s.len() > 0 && s[0] == '/');
    assert(redirect_of(q).subrange(0, (head + "/"@).len() as int) =~= head + "/"@);
    let rest = redirect_of(q).skip((head + "/"@).len() as int);
    if rest.len() > 0 {
        assert(rest[0] == s[1]);
        assert(s.len() >= 2);
        assert(s == p);
        if p[1] == '/' {
            assert(p.subrange(0, 2) =~= "//"@);
        }
        if p[1] == '\\' {
            assert(p.subrange(0, 2) =~= "/\\"@);
        }
    }
}

/// A client outside the internal network never gets the snapshot, and one over
/// its rate gets nothing but a refusal.
pub proof fn law_snapshot_is_internal(q: PlainRequestV)
    ensures
        decided(q) is Snapshot ==> q.internal && q.within_rate,
        !q.within_rate ==> decided(q) == DecisionV::Refuse(429),
{
}

/// The reply of a decision is the one that answers the request.
pub proof fn law_reply_answers_the_decision(d: Decision, q: PlainRequestV)
    requires
        is_decision(d, decided(q)),
    ensures
        reply_of(d) == answered(decided(q)),
{
}

/// What the plain listener does not take up itself is sent, for good and without
/// a body, to the same place under HTTPS.
pub proof fn law_other_requests_are_redirected(q: PlainRequestV)
    requires
        q.within_rate,
        target_len(q) <= limits::MAX_URI_LEN,
        q.path != "/_zion/snapshot.json"@,
        !text::starts(q.path, "/.well-known/acme-challenge/"@),
    ensures
        answered(decided(q)) == Some(
            PlainReplyV {
                status: 301,
                fields: seq![("Location"@, redirect_of(q))],
                body: ""@,
            },
        ),
{
}

/// The rows are in the order of their URLs.
pub open spec fn in_url_order(s: Seq<RowV>) -> bool {
    forall|i: int, j: int|
        0 <= i < j < s.len() ==> !text::precedes((#[trigger] s[j]).url, (#[trigger] s[i]).url)
}

proof fn lemma_placed_above(s: Seq<RowV>, x: RowV, u: Seq<char>)
    requires
        !text::precedes(u, x.url),
        forall|i: int| 0 <= i < s.len() ==> !text::precedes(u, (#[trigger] s[i]).url),
    ensures
        forall|i: int|
            0 <= i < placed(s, x).len() ==> !text::precedes(u, (#[trigger] placed(s, x)[i]).url),
    decreases s.len(),
{
    if s.len() > 0 && text::precedes(x.url, s.last().url) {
        let t = placed(s.drop_last(), x);
        lemma_placed_above(s.drop_last(), x, u);
        assert(!text::precedes(u, s[s.len() - 1].url));
        assert forall|i: int| 0 <= i < placed(s, x).len() implies !text::precedes(
            u,
            (#[trigger] placed(s, x)[i]).url,
        ) by {
            if i < t.len() {
                assert(placed(s, x)[i] == t[i]);
            }
        }
    }
}

proof fn lemma_placed_order(s: Seq<RowV>, x: RowV)
    requires
        in_url_order(s),
    ensures
        in_url_order(placed(s, x)),
        placed(s, x).to_multiset() == s.to_multiset().insert(x),
    decreases s.len(),
{
    broadcast use vstd::seq_lib::group_to_multiset_ensures;

    if s.len() == 0 || !text::precedes(x.url, s.last().url) {
        let p = s.push(x);
        assert forall|i: int, j: int| 0 <= i < j < p.len() implies !text::precedes(
            (#[trigger] p[j]).url,
            (#[trigger] p[i]).url,
        ) by {
            if j == s.len() && i < s.len() - 1 {
                text::lemma_order_transitive(s[i].url, s.last().url, x.url, 0);
            }
        }
    } else {
        let t = s.drop_last();
        let y = s.last();
        let u = placed(t, x);
        lemma_placed_order(t, x);
        text::lemma_order_asymmetric(x.url, y.url, 0);
        lemma_placed_above(t, x, y.url);
        let v = u.push(y);
        assert(s =~= t.push(y));
        assert(v.to_multiset() =~= u.to_multiset().insert(y));
        assert(s.to_multiset() =~= t.to_multiset().insert(y));
        assert(t.to_multiset().insert(x).insert(y) =~= t.to_multiset().insert(y).insert(x));
        assert(in_url_order(v));
    }
}

proof fn lemma_by_url_n(s: Seq<RowV>, n: nat)
    requires
        n <= s.len(),
    ensures
        in_url_order(by_url_n(s, n)),
        by_url_n(s, n).to_multiset() == s.take(n as int).to_multiset(),
    decreases n,
{
    broadcast use vstd::seq_lib::group_to_multiset_ensures;

    if n == 0 {
        assert(by_url_n(s, n) =~= s.take(0));
    } else {
        lemma_by_url_n(s, (n - 1) as nat);
        lemma_placed_order(by_url_n(s, (n - 1) as nat), s[n - 1]);
        assert(s.take(n - 1).push(s[n - 1]) =~= s.take(n as int));
    }
}

/// The snapshot shows every row once, in the order of the URLs, in whatever
/// order the rows were gathered.
pub proof fn law_rows_are_in_url_order(s: Seq<RowV>)
    ensures
        in_url_order(by_url(s)),
        by_url(s).to_multiset() == s.to_multiset(),
{
    lemma_by_url_n(s, s.len());
    assert(s.take(s.len() as int) =~= s);
}

/// A request that is sent on keeps its host, its path and its query.
pub proof fn law_redirect_keeps_the_target(q: PlainRequestV, host: Seq<char>, rest: Seq<char>)
    requires
        q.within_rate,
        target_len(q) <= 8192,
        q.path != "/_zion/snapshot.json"@,
        !text::starts(q.path, "/.well-known/acme-challenge/"@),
        q.host == Some(host),
        q.host_valid,
        q.path_and_query == Some("/"@ + rest),
        rest.len() > 0 ==> rest[0] != '/' && rest[0] != '\\',
    ensures
        answered(decided(q)) == Some(
            PlainReplyV {
                status: 301,
                fields: seq![("Location"@, "https://"@ + host + "/"@ + rest)],
                body: ""@,
            },
        ),
{
    reveal_strlit("/");
    reveal_strlit("//");
    reveal_strlit("/\\");
    let p = "/"@ + rest;
    if text::starts(p, "//"@) {
        assert(p.subrange(0, 2)[1] == p[1]);
    }
    if text::starts(p, "/\\"@) {
        assert(p.subrange(0, 2)[1] == p[1]);
    }
    assert("https://"@ + host + p =~= "https://"@ + host + "/"@ + rest);
}

/// A challenge is answered with its key; one that is not known here goes to the
/// upstream of its route, and without a route it is redirected like any other
/// request.
pub proof fn law_challenge_is_answered(q: PlainRequestV, challenge: Seq<char>, key: Seq<char>)
    requires
        q.within_rate,
        target_len(q) <= 8192,
        q.path == "/.well-known/acme-challenge/"@ + challenge,
    ensures
        q.challenge == Some(key) ==> (answered(decided(q)) matches Some(r) && r.status == 200
            && r.body == key),
        q.challenge is None && q.routed ==> answered(decided(q)) is None,
        q.challenge is None && !q.routed ==> (answered(decided(q)) matches Some(r) && r.status
            == 301),
{
    crate::words::law_parts_of_a_text(challenge, "/.well-known/acme-challenge/"@, challenge);
    reveal_strlit("/_zion/snapshot.json");
    reveal_strlit("/.well-known/acme-challenge/");
    assert(q.path[1] == '.');
    assert("/_zion/snapshot.json"@[1] == '_');
}

/// Too many requests, a target that is too long, and the snapshot asked for from
/// outside are refused, each with its own status, in this order.
pub proof fn law_refusals_have_their_status(q: PlainRequestV)
    ensures
        ({
            let status = match answered(decided(q)) {
                Some(r) => r.status as int,
                None => 0,
            };
            &&& !q.within_rate <==> status == 429
            &&& q.within_rate && target_len(q) > 8192 <==> status == 414
            &&& q.within_rate && target_len(q) <= 8192 && q.path == "/_zion/snapshot.json"@
                && !q.internal <==> status == 403
        }),
{
}

} // verus!
