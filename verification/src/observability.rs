//! Counters of the observability layer, the W3C Trace Context wire format, and
//! the record that a panic leaves behind.
//!
//! An inbound `traceparent` is read once at the request edge; calls to upstreams
//! reuse the context, so that distributed traces stitch end to end.
use crate::hex;
use crate::hex::{hex_digit, parse_hex_fixed, write_hex};
use crate::page;
use crate::page::Page;
use crate::text;
use crate::text::{cat5, chars_of, dec_text, own, same};
use crate::words;
use vstd::prelude::*;

verus! {

// ── Counters ────────────────────────────────────────────────────────────
/// What the observability layer counts.
pub struct Counters {
    pub panics: u64,
    pub audit_events: u64,
    pub audit_events_dropped: u64,
    pub traces_emitted: u64,
    pub traces_invalid: u64,
}

/// The counters in the Prometheus text format, behind what is on the page.
pub open spec fn counters_text(acc: Seq<char>, c: Counters) -> Seq<char> {
    let a = page::metric(
        acc,
        "zion_panics_total"@,
        "Total worker panics caught by the panic hook."@,
        "counter"@,
        c.panics as int,
    );
    let b = page::metric(
        a,
        "zion_audit_events_total"@,
        "Total audit-log events emitted (signed + chained)."@,
        "counter"@,
        c.audit_events as int,
    );
    let d = page::metric(
        b,
        "zion_audit_events_dropped_total"@,
        "Audit events dropped because the writer queue was full."@,
        "counter"@,
        c.audit_events_dropped as int,
    );
    let e = page::metric(
        d,
        "zion_traces_emitted_total"@,
        "Total request spans emitted (one per request)."@,
        "counter"@,
        c.traces_emitted as int,
    );
    page::metric(
        e,
        "zion_traces_invalid_total"@,
        "Inbound traceparent headers rejected as malformed."@,
        "counter"@,
        c.traces_invalid as int,
    )
}

pub fn render_counters(c: &Counters, out: &mut Page)
    requires
        old(out).wf(),
    ensures
        final(out).wf(),
        final(out)@ == counters_text(old(out)@, *c),
{
    out.put_counter(
        "zion_panics_total",
        "Total worker panics caught by the panic hook.",
        c.panics,
    );
    out.put_counter(
        "zion_audit_events_total",
        "Total audit-log events emitted (signed + chained).",
        c.audit_events,
    );
    out.put_counter(
        "zion_audit_events_dropped_total",
        "Audit events dropped because the writer queue was full.",
        c.audit_events_dropped,
    );
    out.put_counter(
        "zion_traces_emitted_total",
        "Total request spans emitted (one per request).",
        c.traces_emitted,
    );
    out.put_counter(
        "zion_traces_invalid_total",
        "Inbound traceparent headers rejected as malformed.",
        c.traces_invalid,
    );
}

// ── Trace context ───────────────────────────────────────────────────────
/// A W3C Trace Context.
#[derive(Debug, Clone, Copy, PartialEq, Eq)]
pub struct TraceContext {
    pub trace_id: [u8; 16],
    pub span_id: [u8; 8],
    pub flags: u8,
}

/// What a [`TraceContext`] says.
#[verifier::ext_equal]
pub struct TraceV {
    pub trace_id: Seq<u8>,
    pub span_id: Seq<u8>,
    pub flags: u8,
}

impl View for TraceContext {
    type V = TraceV;

    open spec fn view(&self) -> TraceV {
        TraceV { trace_id: self.trace_id@, span_id: self.span_id@, flags: self.flags }
    }
}

pub open spec fn all_zero(b: Seq<u8>) -> bool {
    forall|i: int| 0 <= i < b.len() ==> #[trigger] b[i] == 0
}

impl TraceContext {
    /// Bit 0 of the flags: whether the request is sampled.
    pub fn is_sampled(&self) -> (r: bool)
        ensures
            r == (self.flags % 2 == 1),
    {
        self.flags % 2 == 1
    }

    /// Writes the 32 hexadecimal digits of the trace ID.
    pub fn write_trace_id_hex(&self, out: &mut [u8; 32])
        ensures
            final(out)@ == hex::hex_of(self.trace_id@),
    {
        write_hex(&self.trace_id, out);
    }

    /// Writes the 16 hexadecimal digits of the span ID.
    pub fn write_span_id_hex(&self, out: &mut [u8; 16])
        ensures
            final(out)@ == hex::hex_of(self.span_id@),
    {
        write_hex(&self.span_id, out);
    }
}

/// The context that a `traceparent` value of version 0 gives:
/// `00-<32 digits>-<16 digits>-<2 digits>`, with neither ID all zero. What
/// stands behind the flags is not looked at.
pub open spec fn traceparent_of(v: Seq<u8>) -> Option<TraceV> {
    if v.len() < 55 || v[0] != 48 || v[1] != 48 || v[2] != 45 || v[35] != 45 || v[52] != 45 {
        None
    } else {
        match (
            hex::parsed(v.subrange(3, 35), 16),
            hex::parsed(v.subrange(36, 52), 8),
            hex::parsed(v.subrange(53, 55), 1),
        ) {
            (Some(trace_id), Some(span_id), Some(flags)) => if all_zero(trace_id) || all_zero(
                span_id,
            ) {
                None
            } else {
                Some(TraceV { trace_id, span_id, flags: flags[0] })
            },
            _ => None,
        }
    }
}

fn is_all_zero(b: &[u8]) -> (r: bool)
    ensures
        r == all_zero(b@),
{
    let mut i: usize = 0;
    while i < b.len()
        invariant
            i <= b@.len(),
            forall|j: int| 0 <= j < i ==> #[trigger] b@[j] == 0,
        decreases b@.len() - i,
    {
        if b[i] != 0 {
            return false;
        }
        i += 1;
    }
    true
}

/// Reads a `traceparent` header value.
pub fn parse_traceparent(value: &[u8]) -> (r: Option<TraceContext>)
    ensures
        match r {
            Some(c) => traceparent_of(value@) == Some(c@),
            None => traceparent_of(value@) is None,
        },
{
    if value.len() < 55 {
        return None;
    }
    if value[0] != 48 || value[1] != 48 || value[2] != 45 || value[35] != 45 || value[52] != 45 {
        return None;
    }
    let trace_id: [u8; 16] = match parse_hex_fixed::<16>(vstd::slice::slice_subrange(value, 3, 35)) {
        Some(t) => t,
        None => {
            return None;
        },
    };
    let span_id: [u8; 8] = match parse_hex_fixed::<8>(vstd::slice::slice_subrange(value, 36, 52)) {
        Some(s) => s,
        None => {
            return None;
        },
    };
    let flags: [u8; 1] = match parse_hex_fixed::<1>(vstd::slice::slice_subrange(value, 53, 55)) {
        Some(f) => f,
        None => {
            return None;
        },
    };
    if is_all_zero(&trace_id) || is_all_zero(&span_id) {
        return None;
    }
    Some(TraceContext { trace_id, span_id, flags: flags[0] })
}

// ── Log format ──────────────────────────────────────────────────────────
/// How events are written.
#[derive(Debug, Clone, Copy, PartialEq, Eq, Structural)]
pub enum LogFormat {
    /// Multi-line text.
    Text,
    /// One JSON object per line.
    Json,
}

impl LogFormat {
    pub fn from_str(s: &str) -> (r: LogFormat)
        ensures
            r == (if s@ == "json"@ {
                LogFormat::Json
            } else {
                LogFormat::Text
            }),
    {
        if same(s, "json") {
            LogFormat::Json
        } else {
            LogFormat::Text
        }
    }
}

// ── Panic record ────────────────────────────────────────────────────────
/// What stands for a character inside a JSON string.
pub open spec fn json_char(c: char) -> Seq<char> {
    if c == '"' {
        seq!['\\', '"']
    } else if c == '\\' {
        seq!['\\', '\\']
    } else if c == '\n' {
        seq!['\\', 'n']
    } else if c == '\r' {
        seq!['\\', 'r']
    } else if c == '\t' {
        seq!['\\', 't']
    } else if ' ' > c {
        seq![
            '\\',
            'u',
            '0',
            '0',
            hex::digit_of(c as int / 16) as char,
            hex::digit_of(c as int % 16) as char,
        ]
    } else {
        seq![c]
    }
}

/// A text as it stands inside a JSON string.
pub open spec fn json_escaped(s: Seq<char>, n: nat) -> Seq<char>
    decreases n,
{
    if n == 0 {
        seq![]
    } else {
        json_escaped(s, (n - 1) as nat) + json_char(s[n - 1])
    }
}

fn push_json_char(out: &mut String, c: char)
    ensures
        final(out)@ == old(out)@ + json_char(c),
{
    if c == '"' || c == '\\' {
        out.push('\\');
        out.push(c);
    } else if c == '\n' {
        out.push('\\');
        out.push('n');
    } else if c == '\r' {
        out.push('\\');
        out.push('r');
    } else if c == '\t' {
        out.push('\\');
        out.push('t');
    } else if ' ' > c {
        let code: u32 = c as u32;
        let n: u8 = code as u8;
        out.push('\\');
        out.push('u');
        out.push('0');
        out.push('0');
        out.push(hex_digit(n / 16) as char);
        out.push(hex_digit(n % 16) as char);
    } else {
        out.push(c);
    }
    assert(out@ =~= old(out)@ + json_char(c));
}

pub fn json_escape(s: &str) -> (r: String)
    ensures
        r@ == json_escaped(s@, s@.len()),
{
    let v = chars_of(s);
    let mut out = String::new();
    let mut i: usize = 0;
    assert(out@ =~= seq![]);
    while i < v.len()
        invariant
            v@ == s@,
            i <= v.len(),
            out@ == json_escaped(s@, i as nat),
        decreases v.len() - i,
    {
        push_json_char(&mut out, v[i]);
        i += 1;
    }
    out
}

/// The line that a panic leaves behind.
pub open spec fn panic_text(ts_us: nat, thread: Seq<char>, location: Seq<char>, msg: Seq<char>) -> Seq<
    char,
> {
    "{\"ts_us\":"@ + text::dec(ts_us) + ",\"level\":\"FATAL\",\"event\":\"panic\",\"thread\":\""@
        + json_escaped(thread, thread.len()) + "\",\"location\":\""@ + json_escaped(
        location,
        location.len(),
    ) + "\",\"msg\":\""@ + json_escaped(msg, msg.len()) + "\"}\n"@
}

pub fn panic_record(ts_us: u64, thread: &str, location: &str, msg: &str) -> (r: String)
    ensures
        r@ == panic_text(ts_us as nat, thread@, location@, msg@),
{
    let mut out = own("{\"ts_us\":");
    out.append(dec_text(ts_us).as_str());
    out.append(",\"level\":\"FATAL\",\"event\":\"panic\",\"thread\":\"");
    out.append(json_escape(thread).as_str());
    out.append("\",\"location\":\"");
    out.append(json_escape(location).as_str());
    out.append("\",\"msg\":\"");
    out.append(json_escape(msg).as_str());
    out.append("\"}\n");
    out
}

/// Where a panic came from.
#[derive(Debug)]
pub struct Place {
    pub file: String,
    pub line: u32,
    pub column: u32,
}

pub open spec fn place_text(p: Option<Place>) -> Seq<char> {
    match p {
        Some(p) => p.file@ + ":"@ + text::dec(p.line as nat) + ":"@ + text::dec(p.column as nat),
        None => "<unknown location>"@,
    }
}

pub open spec fn text_or(o: Option<Seq<char>>, default: Seq<char>) -> Seq<char> {
    match o {
        Some(s) => s,
        None => default,
    }
}

fn or_default(o: &Option<String>, default: &str) -> (r: String)
    ensures
        r@ == text_or(text::opt(*o), default@),
{
    match o {
        Some(s) => own(s.as_str()),
        None => own(default),
    }
}

/// The line of a panic of which little may be known.
pub fn panic_line(
    ts_us: u64,
    thread: &Option<String>,
    place: &Option<Place>,
    payload: &Option<String>,
) -> (r: String)
    ensures
        r@ == panic_text(
            ts_us as nat,
            text_or(text::opt(*thread), "<unnamed>"@),
            place_text(*place),
            text_or(text::opt(*payload), "<non-string panic payload>"@),
        ),
{
    let location = match place {
        Some(p) => cat5(
            p.file.as_str(),
            ":",
            dec_text(p.line as u64).as_str(),
            ":",
            dec_text(p.column as u64).as_str(),
        ),
        None => own("<unknown location>"),
    };
    panic_record(
        ts_us,
        or_default(thread, "<unnamed>").as_str(),
        location.as_str(),
        or_default(payload, "<non-string panic payload>").as_str(),
    )
}

// ── Laws ────────────────────────────────────────────────────────────────
/// Where the parts of a `traceparent` value stand.
proof fn lemma_layout(p: Seq<u8>, a: Seq<u8>, b: Seq<u8>, c: Seq<u8>, dash: Seq<u8>)
    requires
        p.len() == 3,
        a.len() == 32,
        b.len() == 16,
        c.len() == 2,
        dash.len() == 1,
    ensures
        ({
            let v = p + a + dash + b + dash + c;
            &&& v.len() == 55
            &&& v.subrange(0, 3) == p
            &&& v.subrange(3, 35) == a
            &&& v.subrange(36, 52) == b
            &&& v.subrange(53, 55) == c
            &&& v[0] == p[0] && v[1] == p[1] && v[2] == p[2]
            &&& v[35] == dash[0] && v[52] == dash[0]
        }),
{
    let v = p + a + dash + b + dash + c;
    assert(v.subrange(0, 3) =~= p);
    assert(v.subrange(3, 35) =~= a);
    assert(v.subrange(36, 52) =~= b);
    assert(v.subrange(53, 55) =~= c);
}

/// The `traceparent` value of a context.
pub open spec fn traceparent_text(c: TraceV) -> Seq<u8> {
    seq![48u8, 48, 45] + hex::hex_of(c.trace_id) + seq![45u8] + hex::hex_of(c.span_id)
        + seq![45u8] + hex::hex_of(seq![c.flags])
}

/// A context with IDs that are not all zero is read back from its
/// `traceparent` value.
pub proof fn law_traceparent_round_trip(c: TraceV)
    requires
        c.trace_id.len() == 16,
        c.span_id.len() == 8,
        !all_zero(c.trace_id),
        !all_zero(c.span_id),
    ensures
        traceparent_of(traceparent_text(c)) == Some(c),
{
    hex::law_hex_round_trip(c.trace_id);
    hex::law_hex_round_trip(c.span_id);
    hex::law_hex_round_trip(seq![c.flags]);
    lemma_layout(
        seq![48u8, 48, 45],
        hex::hex_of(c.trace_id),
        hex::hex_of(c.span_id),
        hex::hex_of(seq![c.flags]),
        seq![45u8],
    );
}

/// Whether a text can stand between the quotes of a JSON string: no control
/// character, and every `"` and `\` behind a `\`.
pub open spec fn json_safe(s: Seq<char>, from: int) -> bool
    decreases s.len() - from,
{
    if from < 0 || from >= s.len() {
        true
    } else if ' ' > s[from] || s[from] == '"' {
        false
    } else if s[from] == '\\' {
        from + 1 < s.len() && s[from + 1] >= ' ' && json_safe(s, from + 2)
    } else {
        json_safe(s, from + 1)
    }
}

proof fn lemma_safe_concat(a: Seq<char>, b: Seq<char>, from: int)
    requires
        0 <= from <= a.len(),
        json_safe(a, from),
        json_safe(b, 0),
    ensures
        json_safe(a + b, from),
    decreases a.len() - from,
{
    let s = a + b;
    if from < a.len() {
        assert(s[from] == a[from]);
        if a[from] == '\\' {
            assert(s[from + 1] == a[from + 1]);
            lemma_safe_concat(a, b, from + 2);
        } else {
            lemma_safe_concat(a, b, from + 1);
        }
    } else {
        lemma_safe_shift(a, b, 0);
    }
}

proof fn lemma_safe_shift(a: Seq<char>, b: Seq<char>, from: int)
    requires
        0 <= from,
        json_safe(b, from),
    ensures
        json_safe(a + b, a.len() + from),
    decreases b.len() - from,
{
    if from < b.len() {
        assert((a + b)[a.len() + from] == b[from]);
        if b[from] == '\\' {
            assert((a + b)[a.len() + from + 1] == b[from + 1]);
            lemma_safe_shift(a, b, from + 2);
        } else {
            lemma_safe_shift(a, b, from + 1);
        }
    }
}

proof fn lemma_safe_char(c: char)
    ensures
        json_safe(json_char(c), 0),
{
    reveal_with_fuel(json_safe, 7);
}

/// Whatever a text holds, its escaped form can stand inside a JSON string.
pub proof fn law_json_escape_is_safe(s: Seq<char>, n: nat)
    requires
        n <= s.len(),
    ensures
        json_safe(json_escaped(s, n), 0),
    decreases n,
{
    if n > 0 {
        law_json_escape_is_safe(s, (n - 1) as nat);
        lemma_safe_char(s[n - 1]);
        lemma_safe_concat(json_escaped(s, (n - 1) as nat), json_char(s[n - 1]), 0);
    }
}

/// The value of a hexadecimal digit.
pub open spec fn hex_digit_value(c: char) -> Option<int> {
    if (c as int) < 128 {
        match hex::value_of(c as u8) {
            Some(v) => Some(v as int),
            None => None,
        }
    } else {
        None
    }
}

/// The character that the four hexadecimal digits from `p` on name.
pub open spec fn unicode_at(s: Seq<char>, p: int) -> Option<char> {
    if p < 0 || p + 4 > s.len() {
        None
    } else {
        match (
            hex_digit_value(s[p]),
            hex_digit_value(s[p + 1]),
            hex_digit_value(s[p + 2]),
            hex_digit_value(s[p + 3]),
        ) {
            (Some(a), Some(b), Some(c), Some(d)) => {
                let v = 4096 * a + 256 * b + 16 * c + d;
                if 0xd800 <= v <= 0xdfff {
                    None
                } else {
                    Some(v as char)
                }
            },
            _ => None,
        }
    }
}

/// The character that stands at `p` inside a JSON string, and how many
/// characters write it.
pub open spec fn json_char_at(s: Seq<char>, p: int) -> Option<(char, int)> {
    if p < 0 || p >= s.len() || ' ' > s[p] || s[p] == '"' {
        None
    } else if s[p] != '\\' {
        Some((s[p], 1))
    } else if p + 1 >= s.len() {
        None
    } else if s[p + 1] == '"' || s[p + 1] == '\\' {
        Some((s[p + 1], 2))
    } else if s[p + 1] == 'n' {
        Some(('\n', 2))
    } else if s[p + 1] == 'r' {
        Some(('\r', 2))
    } else if s[p + 1] == 't' {
        Some(('\t', 2))
    } else if s[p + 1] == 'u' {
        match unicode_at(s, p + 2) {
            Some(c) => Some((c, 6)),
            None => None,
        }
    } else {
        None
    }
}

/// The content of the JSON string that begins at `p`, and where the text goes
/// on behind its closing quote.
pub open spec fn json_string_at(s: Seq<char>, p: int) -> Option<(Seq<char>, int)>
    decreases s.len() - p,
{
    if p < 0 || p >= s.len() {
        None
    } else if s[p] == '"' {
        Some((seq![], p + 1))
    } else {
        match json_char_at(s, p) {
            Some((c, n)) => behind(seq![c], json_string_at(s, p + n)),
            None => None,
        }
    }
}

/// What was read, behind what was read before it.
pub open spec fn behind(before: Seq<char>, r: Option<(Seq<char>, int)>) -> Option<
    (Seq<char>, int),
> {
    match r {
        Some((s, e)) => Some((before + s, e)),
        None => None,
    }
}

proof fn lemma_char_reads_back(s: Seq<char>, p: int, c: char)
    requires
        0 <= p,
        p + json_char(c).len() <= s.len(),
        s.subrange(p, p + json_char(c).len()) == json_char(c),
    ensures
        json_char_at(s, p) == Some((c, json_char(c).len() as int)),
{
    let e = json_char(c);
    let t = s.subrange(p, p + e.len());
    assert(s[p] == t[0]);
    if e.len() > 1 {
        assert(s[p + 1] == t[1]);
    }
    if e.len() == 6 {
        let n = c as int;
        assert(s[p + 2] == t[2] && s[p + 3] == t[3] && s[p + 4] == t[4] && s[p + 5] == t[5]);
        assert(n < 32);
        assert(n == 16 * (n / 16) + n % 16);
        assert(hex_digit_value('0') == Some(0int));
        lemma_digit_value(n / 16);
        lemma_digit_value(n % 16);
        assert(unicode_at(s, p + 2) == Some(n as char));
        assert(n as char == c);
    }
}

proof fn lemma_digit_value(n: int)
    requires
        0 <= n < 16,
    ensures
        hex_digit_value(hex::digit_of(n) as char) == Some(n),
{
    let d = hex::digit_of(n);
    assert((d as char) as u8 == d);
}

proof fn lemma_digit_is_text(n: int)
    requires
        0 <= n < 16,
    ensures
        hex::digit_of(n) as char >= ' ',
{
}

proof fn lemma_string_step(s: Seq<char>, p: int, c: char)
    requires
        0 <= p,
        p + json_char(c).len() <= s.len(),
        s.subrange(p, p + json_char(c).len()) == json_char(c),
    ensures
        json_string_at(s, p) == behind(seq![c], json_string_at(s, p + json_char(c).len())),
{
    lemma_char_reads_back(s, p, c);
    assert(s.subrange(p, p + json_char(c).len())[0] == s[p]);
    assert(json_char(c)[0] != '"');
}

/// An escaped text is read back, wherever it stands in a JSON string.
pub proof fn law_json_escape_reads_back(a: Seq<char>, s: Seq<char>, n: nat, b: Seq<char>)
    requires
        n <= s.len(),
    ensures
        json_string_at(a + json_escaped(s, n) + b, a.len() as int) == behind(
            s.subrange(0, n as int),
            json_string_at(a + json_escaped(s, n) + b, (a + json_escaped(s, n)).len() as int),
        ),
    decreases n,
{
    let all = a + json_escaped(s, n) + b;
    let end = (a + json_escaped(s, n)).len() as int;
    if n > 0 {
        let m = (n - 1) as nat;
        let c = s[n - 1];
        let mid = (a + json_escaped(s, m)).len() as int;
        law_json_escape_reads_back(a, s, m, json_char(c) + b);
        assert(a + json_escaped(s, m) + (json_char(c) + b) =~= all);
        assert(all.subrange(mid, mid + json_char(c).len()) =~= json_char(c));
        lemma_string_step(all, mid, c);
        assert(mid + json_char(c).len() == end);
        let rest = json_string_at(all, end);
        assert(json_string_at(all, mid) == behind(seq![c], rest));
        assert(s.subrange(0, n as int) =~= s.subrange(0, m as int) + seq![c]);
        if let Some((t, e)) = rest {
            assert(s.subrange(0, m as int) + (seq![c] + t) =~= s.subrange(0, n as int) + t);
        }
    } else {
        assert(s.subrange(0, 0) =~= seq![]);
        if let Some((t, e)) = json_string_at(all, end) {
            assert(Seq::<char>::empty() + t =~= t);
        }
    }
}

proof fn lemma_char_has_no_control_character(c: char, i: int)
    requires
        0 <= i < json_char(c).len(),
    ensures
        json_char(c)[i] >= ' ',
{
    if ' ' > c {
        lemma_digit_is_text(c as int / 16);
        lemma_digit_is_text(c as int % 16);
    }
}

/// An escaped text holds no control character.
pub proof fn law_json_escape_has_no_control_character(s: Seq<char>, n: nat, i: int)
    requires
        n <= s.len(),
        0 <= i < json_escaped(s, n).len(),
    ensures
        json_escaped(s, n)[i] >= ' ',
    decreases n,
{
    if n > 0 {
        let m = json_escaped(s, (n - 1) as nat);
        if i < m.len() {
            law_json_escape_has_no_control_character(s, (n - 1) as nat, i);
        } else {
            let c = s[n - 1];
            assert(json_escaped(s, n)[i] == json_char(c)[i - m.len()]);
            lemma_char_has_no_control_character(c, i - m.len());
        }
    }
}

/// The line of a panic tells each of its parts under its own name.
pub proof fn law_panic_tells_its_parts(
    ts_us: nat,
    thread: Seq<char>,
    location: Seq<char>,
    msg: Seq<char>,
)
    ensures
        ({
            let t = panic_text(ts_us, thread, location, msg);
            &&& text::starts(t, "{\"ts_us\":"@ + text::dec(ts_us) + ","@)
            &&& text::holds(
                t,
                "\"thread\":\""@ + json_escaped(thread, thread.len()) + "\""@,
            )
            &&& text::holds(
                t,
                "\"location\":\""@ + json_escaped(location, location.len()) + "\""@,
            )
            &&& text::holds(t, "\"msg\":\""@ + json_escaped(msg, msg.len()) + "\""@)
        }),
{
    let a = "{\"ts_us\":"@ + text::dec(ts_us);
    let b = ",\"level\":\"FATAL\",\"event\":\"panic\",\"thread\":\""@;
    let x = json_escaped(thread, thread.len());
    let c = "\",\"location\":\""@;
    let y = json_escaped(location, location.len());
    let d = "\",\"msg\":\""@;
    let z = json_escaped(msg, msg.len());
    let e = "\"}\n"@;
    let t = panic_text(ts_us, thread, location, msg);
    assert(t == a + b + x + c + y + d + z + e);
    lemma_panic_start(a, b, x + c + y + d + z + e);
    assert(t =~= a + b + (x + c + y + d + z + e));
    lemma_panic_thread(a, b, x, c, y + d + z + e);
    assert(t =~= a + b + x + c + (y + d + z + e));
    lemma_panic_location(a + b + x, c, y, d, z + e);
    assert(t =~= a + b + x + c + y + d + (z + e));
    lemma_panic_msg(a + b + x + c + y, d, z, e);
}

proof fn lemma_panic_start(a: Seq<char>, b: Seq<char>, rest: Seq<char>)
    requires
        b == ",\"level\":\"FATAL\",\"event\":\"panic\",\"thread\":\""@,
    ensures
        text::starts(a + b + rest, a + ","@),
{
    reveal_strlit(",\"level\":\"FATAL\",\"event\":\"panic\",\"thread\":\"");
    reveal_strlit(",");
    let t = a + b + rest;
    assert(t.subrange(0, (a + ","@).len() as int) =~= a + ","@);
}

proof fn lemma_panic_thread(a: Seq<char>, b: Seq<char>, x: Seq<char>, c: Seq<char>, rest: Seq<char>)
    requires
        b == ",\"level\":\"FATAL\",\"event\":\"panic\",\"thread\":\""@,
        c == "\",\"location\":\""@,
    ensures
        text::holds(a + b + x + c + rest, "\"thread\":\""@ + x + "\""@),
{
    reveal_strlit(",\"level\":\"FATAL\",\"event\":\"panic\",\"thread\":\"");
    reveal_strlit("\"thread\":\"");
    reveal_strlit("\",\"location\":\"");
    reveal_strlit("\"");
    let n = b.len() - "\"thread\":\""@.len();
    let m = "\"thread\":\""@ + x + "\""@;
    let t = a + b + x + c + rest;
    let i = a.len() + n;
    assert(t.subrange(i, i + m.len()) =~= m);
    words::law_parts_of_a_text(t.subrange(0, i), m, t.subrange(i + m.len(), t.len() as int));
    assert(t.subrange(0, i) + m + t.subrange(i + m.len(), t.len() as int) =~= t);
}

proof fn lemma_panic_location(
    a: Seq<char>,
    c: Seq<char>,
    y: Seq<char>,
    d: Seq<char>,
    rest: Seq<char>,
)
    requires
        c == "\",\"location\":\""@,
        d == "\",\"msg\":\""@,
    ensures
        text::holds(a + c + y + d + rest, "\"location\":\""@ + y + "\""@),
{
    reveal_strlit("\",\"location\":\"");
    reveal_strlit("\"location\":\"");
    reveal_strlit("\",\"msg\":\"");
    reveal_strlit("\"");
    let m = "\"location\":\""@ + y + "\""@;
    let t = a + c + y + d + rest;
    let i = a.len() + 2int;
    assert(t.subrange(i, i + m.len()) =~= m);
    words::law_parts_of_a_text(t.subrange(0, i), m, t.subrange(i + m.len(), t.len() as int));
    assert(t.subrange(0, i) + m + t.subrange(i + m.len(), t.len() as int) =~= t);
}

proof fn lemma_panic_msg(a: Seq<char>, d: Seq<char>, z: Seq<char>, e: Seq<char>)
    requires
        d == "\",\"msg\":\""@,
        e == "\"}\n"@,
    ensures
        text::holds(a + d + z + e, "\"msg\":\""@ + z + "\""@),
{
    reveal_strlit("\",\"msg\":\"");
    reveal_strlit("\"msg\":\"");
    reveal_strlit("\"}\n");
    reveal_strlit("\"");
    let m = "\"msg\":\""@ + z + "\""@;
    let t = a + d + z + e;
    let i = a.len() + 2int;
    assert(t.subrange(i, i + m.len()) =~= m);
    words::law_parts_of_a_text(t.subrange(0, i), m, t.subrange(i + m.len(), t.len() as int));
    assert(t.subrange(0, i) + m + t.subrange(i + m.len(), t.len() as int) =~= t);
}

/// The place of a panic is its file, its line and its column, in this order.
pub proof fn law_place_is_file_line_column(p: Place)
    ensures
        ({
            let t = place_text(Some(p));
            &&& text::rsplit_once_of(t, ':') matches Some((front, column)) && column == text::dec(
                p.column as nat,
            ) && text::rsplit_once_of(front, ':') == Some((p.file@, text::dec(p.line as nat)))
        }),
{
    reveal_strlit(":");
    let l = text::dec(p.line as nat);
    let c = text::dec(p.column as nat);
    text::lemma_dec(p.line as nat);
    text::lemma_dec(p.column as nat);
    let front = p.file@ + ":"@ + l;
    let t = place_text(Some(p));
    assert(t =~= front + seq![':'] + c);
    assert(front =~= p.file@ + seq![':'] + l);
    assert(!c.contains(':')) by {
        if c.contains(':') {
            let i = choose|i: int| 0 <= i < c.len() && c[i] == ':';
            assert(text::digit(c[i]));
        }
    }
    assert(!l.contains(':')) by {
        if l.contains(':') {
            let i = choose|i: int| 0 <= i < l.len() && l[i] == ':';
            assert(text::digit(l[i]));
        }
    }
    lemma_last_colon(front, c);
    lemma_last_colon(p.file@, l);
}

proof fn lemma_last_colon(a: Seq<char>, b: Seq<char>)
    requires
        !b.contains(':'),
    ensures
        text::rsplit_once_of(a + seq![':'] + b, ':') == Some((a, b)),
{
    let s = a + seq![':'] + b;
    let n = a.len() as int;
    text::lemma_last_index_of(s, ':', s.len() as int);
    let i = text::last_index_of(s, ':', s.len() as int);
    assert(s[n] == ':');
    if i > n {
        assert(b[i - n - 1] == s[i]);
    }
    assert(s.subrange(0, n) =~= a);
    assert(s.subrange(n + 1, s.len() as int) =~= b);
}

} // verus!
