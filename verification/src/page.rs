//! Text pages that are built up in a byte buffer.
use crate::text;
use bytes::{Bytes, BytesMut};
use vstd::prelude::*;
use vstd::utf8;

verus! {

// ── Buffers ─────────────────────────────────────────────────────────────
/// `bytes::BytesMut`, a growable byte buffer.
#[verifier::external_type_specification]
#[verifier::external_body]
pub struct ExBytesMut(bytes::BytesMut);

/// `bytes::Bytes`, a shared byte buffer that does not change.
#[verifier::external_type_specification]
#[verifier::external_body]
pub struct ExBytes(bytes::Bytes);

/// The bytes that a growable buffer holds.
pub uninterp spec fn contents(b: BytesMut) -> Seq<u8>;

/// The bytes that a shared buffer holds.
pub uninterp spec fn octets(b: Bytes) -> Seq<u8>;

/// `BytesMut::with_capacity` makes an empty buffer.
pub assume_specification[ BytesMut::with_capacity ](capacity: usize) -> (r: BytesMut)
    requires
        capacity <= 0x7fff_ffff,
    ensures
        contents(r) == Seq::<u8>::empty(),
;

/// `BytesMut::extend_from_slice` appends the bytes of the slice.
pub assume_specification[ BytesMut::extend_from_slice ](b: &mut BytesMut, extend: &[u8])
    ensures
        contents(*final(b)) == contents(*old(b)) + extend@,
;

/// `BytesMut::freeze` turns the buffer into a shared one with the same bytes.
pub assume_specification[ BytesMut::freeze ](b: BytesMut) -> (r: Bytes)
    ensures
        octets(r) == contents(b),
;

/// `Bytes::new` makes an empty shared buffer.
pub assume_specification[ Bytes::new ]() -> (r: Bytes)
    ensures
        octets(r) == Seq::<u8>::empty(),
;

/// `Bytes::clone` gives another handle on the same bytes.
pub assume_specification[ <Bytes as Clone>::clone ](b: &Bytes) -> (r: Bytes)
    ensures
        octets(r) == octets(*b),
;

// ── Numbers ─────────────────────────────────────────────────────────────
/// A number in decimal, with a `-` before it where it is negative.
pub open spec fn signed_dec(n: int) -> Seq<char> {
    if n < 0 {
        "-"@ + text::dec((-n) as nat)
    } else {
        text::dec(n as nat)
    }
}

/// `itoa::Buffer::format` writes an integer in decimal.
#[verifier::external_body]
fn decimal(n: i128) -> (r: String)
    ensures
        r@ == signed_dec(n as int),
{
    itoa::Buffer::new().format(n).to_owned()
}

// ── UTF-8 ───────────────────────────────────────────────────────────────
pub proof fn lemma_encode_concat(a: Seq<char>, b: Seq<char>)
    ensures
        utf8::encode_utf8(a + b) == utf8::encode_utf8(a) + utf8::encode_utf8(b),
    decreases a.len(),
{
    if a.len() == 0 {
        assert(a + b =~= b);
        assert(utf8::encode_utf8(a) + utf8::encode_utf8(b) =~= utf8::encode_utf8(b));
    } else {
        lemma_encode_concat(a.drop_first(), b);
        assert((a + b).drop_first() =~= a.drop_first() + b);
        assert((a + b)[0] == a[0]);
        let first = utf8::encode_scalar(a[0] as u32);
        assert(first + (utf8::encode_utf8(a.drop_first()) + utf8::encode_utf8(b)) =~= (first + utf8::encode_utf8(
            a.drop_first(),
        )) + utf8::encode_utf8(b));
    }
}

// ── Pages ───────────────────────────────────────────────────────────────
/// A text under construction, held as UTF-8 in a byte buffer.
pub struct Page {
    buf: BytesMut,
    text: Ghost<Seq<char>>,
}

impl View for Page {
    type V = Seq<char>;

    closed spec fn view(&self) -> Seq<char> {
        self.text@
    }
}

impl Page {
    /// The buffer holds the text.
    pub closed spec fn wf(&self) -> bool {
        contents(self.buf) == utf8::encode_utf8(self.text@)
    }

    /// An empty page.
    pub fn new() -> (r: Page)
        ensures
            r.wf(),
            r@ == Seq::<char>::empty(),
    {
        let p = Page { buf: BytesMut::with_capacity(4096), text: Ghost(Seq::empty()) };
        assert(contents(p.buf) =~= utf8::encode_utf8(p.text@));
        p
    }

    /// Appends a text.
    pub fn put(&mut self, s: &str)
        requires
            old(self).wf(),
        ensures
            final(self).wf(),
            final(self)@ == old(self)@ + s@,
    {
        proof {
            lemma_encode_concat(self.text@, s@);
        }
        self.buf.extend_from_slice(s.as_bytes());
        self.text = Ghost(self.text@ + s@);
    }

    /// Appends a number.
    pub fn put_u64(&mut self, n: u64)
        requires
            old(self).wf(),
        ensures
            final(self).wf(),
            final(self)@ == old(self)@ + text::dec(n as nat),
    {
        self.put(decimal(n as i128).as_str());
    }

    /// Appends a number that may be negative.
    pub fn put_i64(&mut self, n: i64)
        requires
            old(self).wf(),
        ensures
            final(self).wf(),
            final(self)@ == old(self)@ + signed_dec(n as int),
    {
        self.put(decimal(n as i128).as_str());
    }

    /// The finished page in UTF-8.
    pub fn finish(self) -> (r: Bytes)
        requires
            self.wf(),
        ensures
            octets(r) == utf8::encode_utf8(self@),
    {
        self.buf.freeze()
    }
}

// ── Metrics ─────────────────────────────────────────────────────────────
/// The heading and the name of a metric, in the Prometheus text format.
pub open spec fn heading(acc: Seq<char>, name: Seq<char>, help: Seq<char>, kind: Seq<char>) -> Seq<
    char,
> {
    acc + "# HELP "@ + name + " "@ + help + "\n# TYPE "@ + name + " "@ + kind + "\n"@
}

/// A metric with one value.
pub open spec fn metric(
    acc: Seq<char>,
    name: Seq<char>,
    help: Seq<char>,
    kind: Seq<char>,
    value: int,
) -> Seq<char> {
    heading(acc, name, help, kind) + name + " "@ + signed_dec(value) + "\n"@
}

/// One labelled value of a metric.
pub open spec fn labelled(
    acc: Seq<char>,
    name: Seq<char>,
    label: Seq<char>,
    value: Seq<char>,
    count: nat,
) -> Seq<char> {
    acc + name + "{"@ + label + "=\""@ + value + "\"} "@ + text::dec(count) + "\n"@
}

impl Page {
    pub fn put_heading(&mut self, name: &str, help: &str, kind: &str)
        requires
            old(self).wf(),
        ensures
            final(self).wf(),
            final(self)@ == heading(old(self)@, name@, help@, kind@),
    {
        self.put("# HELP ");
        self.put(name);
        self.put(" ");
        self.put(help);
        self.put("\n# TYPE ");
        self.put(name);
        self.put(" ");
        self.put(kind);
        self.put("\n");
    }

    pub fn put_counter(&mut self, name: &str, help: &str, value: u64)
        requires
            old(self).wf(),
        ensures
            final(self).wf(),
            final(self)@ == metric(old(self)@, name@, help@, "counter"@, value as int),
    {
        self.put_heading(name, help, "counter");
        self.put(name);
        self.put(" ");
        self.put_u64(value);
        self.put("\n");
    }

    pub fn put_gauge(&mut self, name: &str, help: &str, value: i64)
        requires
            old(self).wf(),
        ensures
            final(self).wf(),
            final(self)@ == metric(old(self)@, name@, help@, "gauge"@, value as int),
    {
        self.put_heading(name, help, "gauge");
        self.put(name);
        self.put(" ");
        self.put_i64(value);
        self.put("\n");
    }

    pub fn put_labelled(&mut self, name: &str, label: &str, value: &str, count: u64)
        requires
            old(self).wf(),
        ensures
            final(self).wf(),
            final(self)@ == labelled(old(self)@, name@, label@, value@, count as nat),
    {
        self.put(name);
        self.put("{");
        self.put(label);
        self.put("=\"");
        self.put(value);
        self.put("\"} ");
        self.put_u64(count);
        self.put("\n");
    }
}

} // verus!
