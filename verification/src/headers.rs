//! HTTP header values and header maps.
use hyper::http::HeaderValue;
use hyper::HeaderMap;
use vstd::prelude::*;
use vstd::utf8;

verus! {

// ── Values ──────────────────────────────────────────────────────────────
/// A byte that a header value may hold: anything but control characters, the
/// tab excepted.
pub open spec fn value_byte(b: u8) -> bool {
    (b >= 32 && b != 127) || b == 9
}

pub open spec fn value_bytes(s: Seq<u8>) -> bool {
    forall|i: int| 0 <= i < s.len() ==> value_byte(#[trigger] s[i])
}

/// A character that a header value may hold.
pub open spec fn header_char(c: char) -> bool {
    (c as int >= 32 && c as int != 127) || c == '\t'
}

pub open spec fn header_text(s: Seq<char>) -> bool {
    forall|i: int| 0 <= i < s.len() ==> header_char(#[trigger] s[i])
}

/// `hyper::http::HeaderValue::from_str` accepts a text when each byte of its
/// UTF-8 form is a tab, or is at least 32 and not 127.
#[verifier::external_body]
fn valid_header_value(s: &str) -> (r: bool)
    ensures
        r == value_bytes(utf8::encode_utf8(s@)),
{
    HeaderValue::from_str(s).is_ok()
}

proof fn lemma_encoded_char(c: char)
    ensures
        value_bytes(utf8::encode_scalar(c as u32)) == header_char(c),
        utf8::encode_scalar(c as u32).len() > 0,
{
    let v = c as u32;
    let e = utf8::encode_scalar(v);
    if v <= 0x7f {
        assert(utf8::leading_byte_width_1(v) == v as u8) by (bit_vector)
            requires
                v <= 0x7f,
        ;
        assert(e[0] == v as u8);
        if value_bytes(e) {
            assert(value_byte(e[0]));
        }
    } else {
        assert(utf8::leading_byte_width_2(v) >= 0x80) by (bit_vector);
        assert(utf8::leading_byte_width_3(v) >= 0x80) by (bit_vector);
        assert(utf8::leading_byte_width_4(v) >= 0x80) by (bit_vector);
        assert(utf8::last_continuation_byte(v) >= 0x80) by (bit_vector);
        assert(utf8::second_last_continuation_byte(v) >= 0x80) by (bit_vector);
        assert(utf8::third_last_continuation_byte(v) >= 0x80) by (bit_vector);
    }
}

/// The bytes of a text are fit for a header value when its characters are: the
/// bytes of a character outside ASCII are all above 127.
pub proof fn lemma_header_text(s: Seq<char>)
    ensures
        value_bytes(utf8::encode_utf8(s)) == header_text(s),
    decreases s.len(),
{
    if s.len() > 0 {
        let first = utf8::encode_scalar(s[0] as u32);
        let rest = s.drop_first();
        lemma_encoded_char(s[0]);
        lemma_header_text(rest);
        let all = utf8::encode_utf8(s);
        assert(all == first + utf8::encode_utf8(rest));
        assert(value_bytes(all) == (value_bytes(first) && value_bytes(utf8::encode_utf8(rest))))
            by {
            if value_bytes(all) {
                assert forall|i: int| 0 <= i < first.len() implies value_byte(
                    #[trigger] first[i],
                ) by {
                    assert(first[i] == all[i]);
                }
                assert forall|i: int| 0 <= i < utf8::encode_utf8(rest).len() implies value_byte(
                    #[trigger] utf8::encode_utf8(rest)[i],
                ) by {
                    assert(utf8::encode_utf8(rest)[i] == all[first.len() + i]);
                }
            }
        }
        assert(header_text(s) == (header_char(s[0]) && header_text(rest))) by {
            if header_text(s) {
                assert forall|i: int| 0 <= i < rest.len() implies header_char(
                    #[trigger] rest[i],
                ) by {
                    assert(rest[i] == s[i + 1]);
                }
            }
            if header_char(s[0]) && header_text(rest) {
                assert forall|i: int| 0 <= i < s.len() implies header_char(#[trigger] s[i]) by {
                    if i > 0 {
                        assert(s[i] == rest[i - 1]);
                    }
                }
            }
        }
    }
}

/// Whether a text can be a header value.
pub fn is_header_text(s: &str) -> (r: bool)
    ensures
        r == header_text(s@),
{
    proof {
        lemma_header_text(s@);
    }
    valid_header_value(s)
}

// ── Maps ────────────────────────────────────────────────────────────────
/// `hyper::http::HeaderValue`, the value of a header field.
#[verifier::external_type_specification]
#[verifier::external_body]
pub struct ExHeaderValue(hyper::http::HeaderValue);

/// `hyper::HeaderMap`, the header fields of a message.
#[verifier::external_type_specification]
#[verifier::external_body]
#[verifier::reject_recursive_types(T)]
pub struct ExHeaderMap<T>(hyper::HeaderMap<T>);

/// The fields of a header map: the values of each field, in the order in which
/// they were added, under its name in lower case.
pub uninterp spec fn fields(m: HeaderMap<HeaderValue>) -> Map<Seq<char>, Seq<Seq<u8>>>;

/// The names, in lower case, of the fields that this library touches.
pub open spec fn known_field(n: Seq<char>) -> bool {
    ||| n == "cache-control"@
    ||| n == "connection"@
    ||| n == "host"@
    ||| n == "keep-alive"@
    ||| n == "proxy-authenticate"@
    ||| n == "proxy-authorization"@
    ||| n == "proxy-connection"@
    ||| n == "te"@
    ||| n == "trailer"@
    ||| n == "transfer-encoding"@
    ||| n == "upgrade"@
    ||| n == "x-accel-buffering"@
    ||| n == "x-client-cert-dn"@
    ||| n == "x-client-cert-fingerprint"@
    ||| n == "x-forwarded-for"@
    ||| n == "x-forwarded-host"@
    ||| n == "x-forwarded-proto"@
    ||| n == "x-real-ip"@
}

/// How many field names a header map takes up in any case. Beyond that it
/// depends on how its table was filled.
pub const ROOM: usize = 6_554;

/// There is room for `n` more fields.
pub open spec fn has_room(f: Map<Seq<char>, Seq<Seq<u8>>>, n: nat) -> bool {
    f.dom().finite() && f.dom().len() + n <= ROOM
}

/// The fields that this library does not touch are the same.
pub open spec fn same_beside(
    f: Map<Seq<char>, Seq<Seq<u8>>>,
    g: Map<Seq<char>, Seq<Seq<u8>>>,
) -> bool {
    forall|n: Seq<char>|
        !#[trigger] known_field(n) ==> values_of(f, n) == values_of(g, n) && f.dom().contains(n)
            == g.dom().contains(n)
}

/// `HeaderMap::get` gives the first value of a field. The value was checked
/// when it was made.
#[verifier::external_body]
pub(crate) fn field_first(m: &HeaderMap<HeaderValue>, name: &'static str) -> (r: Option<Vec<u8>>)
    requires
        known_field(name@),
    ensures
        match r {
            Some(v) => fields(*m).dom().contains(name@) && fields(*m)[name@].len() > 0 && v@
                == fields(*m)[name@][0] && value_bytes(v@),
            None => !fields(*m).dom().contains(name@),
        },
{
    m.get(name).map(|v| v.as_bytes().to_vec())
}

/// `HeaderMap::remove` takes a field out, with all its values.
#[verifier::external_body]
pub(crate) fn field_remove(m: &mut HeaderMap<HeaderValue>, name: &'static str)
    requires
        known_field(name@),
    ensures
        fields(*final(m)) == fields(*old(m)).remove(name@),
{
    m.remove(name);
}

/// `HeaderMap::try_insert` sets a field to one value, or changes nothing where
/// the map cannot grow. It grows below 6 554 names: with fewer, neither its load
/// nor its capacity asks for more than its largest table. With more, whether it
/// does depends on how the table was filled, and is not stated.
#[verifier::external_body]
pub(crate) fn field_set(m: &mut HeaderMap<HeaderValue>, name: &'static str, value: &[u8]) -> (r: bool)
    requires
        known_field(name@),
        value_bytes(value@),
    ensures
        has_room(fields(*old(m)), 1) ==> r,
        fields(*final(m)) == (if r {
            fields(*old(m)).insert(name@, seq![value@])
        } else {
            fields(*old(m))
        }),
{
    m.try_insert(name, HeaderValue::from_bytes(value).unwrap()).is_ok()
}

/// The values of a field; none where it is absent.
pub open spec fn values_of(f: Map<Seq<char>, Seq<Seq<u8>>>, name: Seq<char>) -> Seq<Seq<u8>> {
    if f.dom().contains(name) {
        f[name]
    } else {
        seq![]
    }
}

/// `HeaderMap::try_append` adds a value behind those of a field, or changes
/// nothing where the map cannot grow, as with `try_insert`.
#[verifier::external_body]
pub(crate) fn field_append(m: &mut HeaderMap<HeaderValue>, name: &'static str, value: &[u8]) -> (r:
    bool)
    requires
        known_field(name@),
        value_bytes(value@),
    ensures
        has_room(fields(*old(m)), 1) ==> r,
        fields(*final(m)) == (if r {
            fields(*old(m)).insert(
                name@,
                values_of(fields(*old(m)), name@).push(value@),
            )
        } else {
            fields(*old(m))
        }),
{
    m.try_append(name, HeaderValue::from_bytes(value).unwrap()).is_ok()
}

} // verus!
