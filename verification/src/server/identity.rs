//! Who a client is: the fingerprint of its certificate, and the header that
//! attests it.
use crate::headers;
use crate::headers::{field_remove, field_set, is_header_text};
use crate::hex;
use crate::hex::{to_text, write_hex};
use crate::proxy;
use crate::proxy::Reply;
use crate::server::reply::text_response;
use crate::text::{cat2, same};
use hyper::http::HeaderValue;
use hyper::HeaderMap;
use vstd::prelude::*;
use vstd::utf8;

verus! {

// ── Fingerprints ────────────────────────────────────────────────────────
/// The SHA-256 digest of bytes.
pub uninterp spec fn sha256(data: Seq<u8>) -> Seq<u8>;

/// `aws_lc_rs::digest::digest` with `SHA256`: a digest of 32 bytes, which the
/// bytes alone decide.
#[verifier::external_body]
fn sha256_digest(data: &[u8]) -> (r: Vec<u8>)
    ensures
        r@ == sha256(data@),
        r@.len() == 32,
{
    aws_lc_rs::digest::digest(&aws_lc_rs::digest::SHA256, data).as_ref().to_vec()
}

/// A digest as a fingerprint: its kind, and its digits.
pub open spec fn fingerprint(digest: Seq<u8>) -> Seq<char> {
    "sha256:"@ + hex::chars_of(hex::hex_of(digest))
}

pub fn fingerprint_text(digest: &[u8]) -> (r: String)
    requires
        digest@.len() <= 1_024,
    ensures
        r@ == fingerprint(digest@),
{
    let n: usize = digest.len();
    let mut digits: Vec<u8> = vec![0; 2 * n];
    write_hex(digest, digits.as_mut_slice());
    assert(digits@ =~= hex::hex_of(digest@));
    let shown = to_text(digits.as_slice());
    cat2("sha256:", shown.as_str())
}

/// The fingerprint of a client's certificate, given in DER.
pub fn client_fingerprint(der: &[u8]) -> (r: String)
    ensures
        r@ == fingerprint(sha256(der@)),
{
    let digest = sha256_digest(der);
    fingerprint_text(digest.as_slice())
}

// ── Attestation ─────────────────────────────────────────────────────────
/// The fields without what a client says of its own certificate.
pub open spec fn unattested(f: Map<Seq<char>, Seq<Seq<u8>>>) -> Map<Seq<char>, Seq<Seq<u8>>> {
    f.remove("x-client-cert-fingerprint"@).remove("x-client-cert-dn"@)
}

/// The fields with the fingerprint that was verified, where there is one, and
/// with no other.
pub open spec fn attested(
    f: Map<Seq<char>, Seq<Seq<u8>>>,
    fp: Option<Seq<char>>,
) -> Map<Seq<char>, Seq<Seq<u8>>> {
    match fp {
        Some(t) if headers::header_text(t) => unattested(f).insert(
            "x-client-cert-fingerprint"@,
            seq![utf8::encode_utf8(t)],
        ),
        _ => unattested(f),
    }
}

/// Takes out what a client says of its own certificate. A plain connection has
/// no verified one, so there it is all that is done.
pub fn strip_attestation(h: &mut HeaderMap<HeaderValue>)
    ensures
        headers::fields(*final(h)) == unattested(headers::fields(*old(h))),
{
    field_remove(h, "x-client-cert-fingerprint");
    field_remove(h, "x-client-cert-dn");
}

/// The connection has a fingerprint that can stand in a header.
pub open spec fn fingerprinted(fp: Option<Seq<char>>) -> bool {
    fp matches Some(t) && headers::header_text(t)
}

/// Takes out what a client says of its own certificate, and puts in the
/// fingerprint that was verified; whether the header map took it.
pub fn attest(h: &mut HeaderMap<HeaderValue>, fp: Option<&str>) -> (r: bool)
    ensures
        !fingerprinted(proxy::opt_text(fp)) || headers::has_room(headers::fields(*old(h)), 1)
            ==> r,
        headers::fields(*final(h)) == (if r {
            attested(headers::fields(*old(h)), proxy::opt_text(fp))
        } else {
            unattested(headers::fields(*old(h)))
        }),
{
    strip_attestation(h);
    if let Some(t) = fp {
        if is_header_text(t) {
            proof {
                headers::lemma_header_text(t@);
            }
            return field_set(h, "x-client-cert-fingerprint", t.as_bytes());
        }
    }
    true
}

// ── Front door ──────────────────────────────────────────────────────────
/// What becomes of a request on a TLS connection.
#[derive(Debug)]
pub enum FrontDoor {
    /// It is answered at once.
    Answer(Reply),
    /// It goes on, perhaps as early data.
    Pass { was_early: bool },
}

/// The text with which a health probe is answered.
pub open spec fn probe_answer(path: Seq<char>) -> Option<Seq<char>> {
    if path == "/healthz"@ {
        Some("ok"@)
    } else if path == "/readyz"@ {
        Some("ready"@)
    } else {
        None
    }
}

/// A request comes in: health probes are answered; of the others, the first one
/// on a connection takes the mark of early data with it, and each gets the
/// attestation of the connection's client. `None` where the header map does not
/// take that; the claims of the client are out all the same.
pub fn front_door(
    path: &str,
    early: &mut bool,
    h: &mut HeaderMap<HeaderValue>,
    fp: Option<&str>,
) -> (r: Option<FrontDoor>)
    ensures
        match probe_answer(path@) {
            Some(t) => {
                &&& r matches Some(FrontDoor::Answer(p)) && p@ == proxy::plain_reply(200, t)
                &&& *final(early) == *old(early)
                &&& headers::fields(*final(h)) == headers::fields(*old(h))
            },
            None => {
                &&& !fingerprinted(proxy::opt_text(fp)) || headers::has_room(
                    headers::fields(*old(h)),
                    1,
                ) ==> r is Some
                &&& r is Some ==> {
                    &&& r == Some(FrontDoor::Pass { was_early: *old(early) })
                    &&& !*final(early)
                    &&& headers::fields(*final(h)) == attested(
                        headers::fields(*old(h)),
                        proxy::opt_text(fp),
                    )
                }
                &&& r is None ==> {
                    &&& *final(early) == *old(early)
                    &&& headers::fields(*final(h)) == unattested(headers::fields(*old(h)))
                }
            },
        },
{
    if same(path, "/healthz") {
        return Some(FrontDoor::Answer(text_response(200, "ok")));
    }
    if same(path, "/readyz") {
        return Some(FrontDoor::Answer(text_response(200, "ready")));
    }
    if !attest(h, fp) {
        return None;
    }
    let was_early = *early;
    *early = false;
    Some(FrontDoor::Pass { was_early })
}

// ── Laws ────────────────────────────────────────────────────────────────
/// What a client claims of its certificate never gets through: whatever it
/// sends, the request carries the verified fingerprint or none, and never a
/// distinguished name.
pub proof fn law_claims_do_not_get_through(
    f: Map<Seq<char>, Seq<Seq<u8>>>,
    fp: Option<Seq<char>>,
)
    ensures
        !attested(f, fp).dom().contains("x-client-cert-dn"@),
        attested(f, fp).dom().contains("x-client-cert-fingerprint"@) ==> fp is Some && attested(
            f,
            fp,
        )["x-client-cert-fingerprint"@] == seq![utf8::encode_utf8(fp->0)],
        attested(f, None).dom().contains("x-client-cert-fingerprint"@) == false,
{
    reveal_strlit("x-client-cert-dn");
    reveal_strlit("x-client-cert-fingerprint");
    assert("x-client-cert-dn"@.len() != "x-client-cert-fingerprint"@.len());
}

/// The other fields go through as they are.
pub proof fn law_other_fields_get_through(
    f: Map<Seq<char>, Seq<Seq<u8>>>,
    fp: Option<Seq<char>>,
    name: Seq<char>,
)
    requires
        name != "x-client-cert-fingerprint"@,
        name != "x-client-cert-dn"@,
    ensures
        attested(f, fp).dom().contains(name) == f.dom().contains(name),
        f.dom().contains(name) ==> attested(f, fp)[name] == f[name],
{
}

proof fn lemma_digits_are_header_text(digest: Seq<u8>)
    ensures
        headers::header_text(fingerprint(digest)),
{
    reveal_strlit("sha256:");
    let s = fingerprint(digest);
    assert forall|i: int| 0 <= i < s.len() implies headers::header_char(#[trigger] s[i]) by {
        if i >= 7 {
            let d = hex::hex_of(digest)[i - 7];
            assert(s[i] == d as char);
            assert(48 <= d <= 57 || 97 <= d <= 102);
        }
    }
}

/// A verified certificate is always attested: its fingerprint can be a header
/// value.
pub proof fn law_certificate_is_attested(f: Map<Seq<char>, Seq<Seq<u8>>>, digest: Seq<u8>)
    ensures
        attested(f, Some(fingerprint(digest)))["x-client-cert-fingerprint"@] == seq![
            utf8::encode_utf8(fingerprint(digest)),
        ],
        attested(f, Some(fingerprint(digest))).dom().contains("x-client-cert-fingerprint"@),
{
    lemma_digits_are_header_text(digest);
}

/// Different digests have different fingerprints.
pub proof fn law_fingerprints_are_distinct(a: Seq<u8>, b: Seq<u8>)
    requires
        fingerprint(a) == fingerprint(b),
    ensures
        a == b,
{
    let p = "sha256:"@;
    let x = hex::hex_of(a);
    let y = hex::hex_of(b);
    assert(hex::chars_of(x) =~= fingerprint(a).skip(p.len() as int));
    assert(hex::chars_of(y) =~= fingerprint(b).skip(p.len() as int));
    assert(x.len() == y.len());
    assert forall|i: int| 0 <= i < x.len() implies x[i] == y[i] by {
        assert(hex::chars_of(x)[i] == hex::chars_of(y)[i]);
        assert(x[i] as char == y[i] as char);
        assert(x[i] as char as int == x[i] as int);
        assert(y[i] as char as int == y[i] as int);
    }
    assert(x =~= y);
    hex::law_hex_round_trip(a);
    hex::law_hex_round_trip(b);
}

} // verus!
