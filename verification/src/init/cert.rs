//! Self-signed certificates.
use crate::text;
use crate::text::{cat2, own, same};
use vstd::prelude::*;

verus! {

broadcast use crate::text::group_views;

/// A certificate and its private key, in PEM.
#[derive(Debug)]
pub struct CertPair {
    pub cert_pem: String,
    pub key_pem: String,
}

/// The names of a certificate: the host's, and `localhost` beside it.
pub open spec fn names_of(hostname: Seq<char>) -> Seq<Seq<char>> {
    if hostname == "localhost"@ {
        seq![hostname]
    } else {
        seq![hostname, "localhost"@]
    }
}

pub fn subject_names(hostname: &str) -> (r: Vec<String>)
    ensures
        text::views(r@) == names_of(hostname@),
{
    let mut v: Vec<String> = Vec::new();
    v.push(own(hostname));
    if !same(hostname, "localhost") {
        v.push(own("localhost"));
    }
    assert(text::views(v@) =~= names_of(hostname@));
    v
}

/// Whether every character is ASCII.
pub open spec fn plain(name: Seq<char>) -> bool {
    forall|i: int| 0 <= i < name.len() ==> (#[trigger] name[i] as int) < 128
}

/// A text between the two lines that frame a PEM block of that kind.
pub open spec fn framed(t: Seq<char>, kind: Seq<char>) -> bool {
    &&& text::starts(t, "-----BEGIN "@ + kind + "-----"@)
    &&& text::holds(t, "-----END "@ + kind + "-----"@)
}

/// A pair in PEM: a certificate, and a private key.
pub open spec fn in_pem(p: CertPair) -> bool {
    framed(p.cert_pem@, "CERTIFICATE"@) && framed(p.key_pem@, "PRIVATE KEY"@)
}

/// `rcgen::generate_simple_self_signed` makes a key and a certificate for the
/// names, and `Certificate::pem` and `KeyPair::serialize_pem` write them in PEM.
/// A name that is not ASCII is neither an address nor a DNS name to it, and is
/// refused. Key and certificate are random, and making a key may fail, so
/// nothing more is claimed.
#[verifier::external_body]
fn self_signed(names: Vec<String>) -> (r: Result<CertPair, String>)
    ensures
        (exists|i: int| 0 <= i < names@.len() && !plain(#[trigger] names@[i]@)) ==> r is Err,
        r matches Ok(p) ==> in_pem(p),
{
    match rcgen::generate_simple_self_signed(names) {
        Ok(c) => Ok(CertPair { cert_pem: c.cert.pem(), key_pem: c.signing_key.serialize_pem() }),
        Err(e) => Err(e.to_string()),
    }
}

/// What was signed; a failure is told with where it came from.
pub fn signed_or_told(signed: Result<CertPair, String>) -> (r: Result<CertPair, String>)
    ensures
        match signed {
            Ok(pair) => r == Ok::<CertPair, String>(pair),
            Err(e) => r matches Err(msg) && msg@ == "rcgen: "@ + e@,
        },
{
    match signed {
        Ok(pair) => Ok(pair),
        Err(e) => Err(cat2("rcgen: ", e.as_str())),
    }
}

/// A self-signed certificate for a host and `localhost`. Key and certificate
/// are made anew on every call. There is none for a name that is not ASCII.
pub fn generate_tls_cert(hostname: &str) -> (r: Result<CertPair, String>)
    ensures
        r matches Ok(p) ==> in_pem(p),
        r matches Err(e) ==> text::starts(e@, "rcgen: "@),
        !plain(hostname@) ==> r is Err,
{
    let names = subject_names(hostname);
    assert(text::views(names@)[0] == hostname@);
    let r = signed_or_told(self_signed(names));
    proof {
        if r is Err {
            let e = r->Err_0;
            assert(e@.subrange(0, "rcgen: "@.len() as int) =~= "rcgen: "@);
        }
    }
    r
}

} // verus!
