//! HTTP/3: what is advertised, and how messages are bridged to it.
use crate::headers;
use crate::headers::field_remove;
use crate::proxy::Field;
use crate::text;
use crate::text::own;
use hyper::http::HeaderValue;
use hyper::HeaderMap;
use vstd::prelude::*;

verus! {

broadcast use crate::text::group_views;

/// The `Alt-Svc` value by which clients discover HTTP/3.
pub const ALT_SVC_H3: &'static str = "h3=\":443\"; ma=86400";

/// The application protocol of HTTP/3.
pub const ALPN_H3: &'static str = "h3";

/// How many two-way streams a connection may have open.
pub const MAX_BIDI_STREAMS: u32 = 256;

/// How many one-way streams a connection may have open.
pub const MAX_UNI_STREAMS: u32 = 64;

/// The fields of a response that HTTP/3 has no place for: they belong to one
/// hop of HTTP/1.
pub open spec fn hop_by_hop(name: Seq<char>) -> bool {
    ||| name == "connection"@
    ||| name == "keep-alive"@
    ||| name == "proxy-authenticate"@
    ||| name == "proxy-authorization"@
    ||| name == "te"@
    ||| name == "trailer"@
    ||| name == "transfer-encoding"@
    ||| name == "upgrade"@
}

/// The fields of a response as HTTP/3 carries them.
pub open spec fn carried(f: Map<Seq<char>, Seq<Seq<u8>>>) -> Map<Seq<char>, Seq<Seq<u8>>> {
    f.remove("connection"@).remove("keep-alive"@).remove("proxy-authenticate"@).remove(
        "proxy-authorization"@,
    ).remove("te"@).remove("trailer"@).remove("transfer-encoding"@).remove("upgrade"@)
}

/// Takes the fields out of a response that HTTP/3 has no place for.
pub fn strip_response(h: &mut HeaderMap<HeaderValue>)
    ensures
        headers::fields(*final(h)) == carried(headers::fields(*old(h))),
{
    field_remove(h, "connection");
    field_remove(h, "keep-alive");
    field_remove(h, "proxy-authenticate");
    field_remove(h, "proxy-authorization");
    field_remove(h, "te");
    field_remove(h, "trailer");
    field_remove(h, "transfer-encoding");
    field_remove(h, "upgrade");
}

/// The fields of a request that came over HTTP/3, as the rest of the server
/// sees it.
pub fn request_fields(client_ip: &str) -> (r: Vec<Field>)
    ensures
        text::views(r@) == seq![
            ("x-forwarded-for"@, client_ip@),
            ("x-forwarded-proto"@, "https"@),
        ],
{
    let mut out: Vec<Field> = Vec::new();
    out.push(Field { name: own("x-forwarded-for"), value: own(client_ip) });
    out.push(Field { name: own("x-forwarded-proto"), value: own("https") });
    assert(text::views(out@) =~= seq![
        ("x-forwarded-for"@, client_ip@),
        ("x-forwarded-proto"@, "https"@),
    ]);
    out
}

/// No field that belongs to one hop is carried, and every other one is, with
/// all its values.
pub proof fn law_carried_fields(f: Map<Seq<char>, Seq<Seq<u8>>>, name: Seq<char>)
    ensures
        carried(f).dom().contains(name) <==> f.dom().contains(name) && !hop_by_hop(name),
        carried(f).dom().contains(name) ==> carried(f)[name] == f[name],
{
}

/// A response over HTTP/3 has none of the fields by which HTTP/1 keeps a
/// connection, and each of its other fields as it was.
pub proof fn law_fields_of_the_connection_are_gone(
    f: Map<Seq<char>, Seq<Seq<u8>>>,
    name: Seq<char>,
)
    ensures
        !carried(f).dom().contains("connection"@),
        !carried(f).dom().contains("keep-alive"@),
        !carried(f).dom().contains("proxy-authenticate"@),
        !carried(f).dom().contains("proxy-authorization"@),
        !carried(f).dom().contains("te"@),
        !carried(f).dom().contains("trailer"@),
        !carried(f).dom().contains("transfer-encoding"@),
        !carried(f).dom().contains("upgrade"@),
        f.dom().contains(name) && name != "connection"@ && name != "keep-alive"@ && name
            != "proxy-authenticate"@ && name != "proxy-authorization"@ && name != "te"@ && name
            != "trailer"@ && name != "transfer-encoding"@ && name != "upgrade"@
            ==> carried(f).dom().contains(name) && carried(f)[name] == f[name],
{
}

} // verus!
