//! Log lines for startup, errors and lifecycle events, as text or as JSON.
//!
//! As text on a terminal, warnings and errors carry a coloured glyph; JSON never
//! does.
use crate::clock;
use crate::init::date;
use crate::init::date::{civil_date, pad};
use crate::observability;
use crate::observability::json_escape;
use crate::text;
use crate::text::{cat2, own};
use vstd::prelude::*;

verus! {

// ── Timestamps ──────────────────────────────────────────────────────────
/// A time as ISO 8601 with microseconds, in UTC.
pub open spec fn stamp_text(year: nat, month: nat, day: nat, secs: nat, micros: nat) -> Seq<char> {
    date::iso_text(year, month, day) + "T"@ + date::padded(secs / 3600, 2) + ":"@ + date::padded(
        secs % 3600 / 60,
        2,
    ) + ":"@ + date::padded(secs % 60, 2) + "."@ + date::padded(micros, 6) + "Z"@
}

/// Whether a text is the time that is `us` microseconds after the Unix epoch.
pub open spec fn stamps(s: Seq<char>, us: nat) -> bool {
    let secs = us / 1_000_000;
    exists|y: nat, m: nat, d: nat|
        date::on_calendar(y as int, m as int, d as int) && date::day_number(
            y as int,
            m as int,
            d as int,
        ) == date::epoch_day() + secs as int / 86_400 && s == #[trigger] stamp_text(
            y,
            m,
            d,
            secs % 86_400,
            us % 1_000_000,
        )
}

/// The time of a number of microseconds since the Unix epoch.
pub fn timestamp(us: u64) -> (r: String)
    ensures
        stamps(r@, us as nat),
{
    let secs: u64 = us / 1_000_000;
    let d = civil_date(secs / 86_400 + 719_468);
    let t: u64 = secs % 86_400;
    let mut out = pad(d.year, 4);
    out.append("-");
    out.append(pad(d.month, 2).as_str());
    out.append("-");
    out.append(pad(d.day, 2).as_str());
    out.append("T");
    out.append(pad(t / 3600, 2).as_str());
    out.append(":");
    out.append(pad(t % 3600 / 60, 2).as_str());
    out.append(":");
    out.append(pad(t % 60, 2).as_str());
    out.append(".");
    out.append(pad(us % 1_000_000, 6).as_str());
    out.append("Z");
    assert(out@ == stamp_text(
        d.year as nat,
        d.month as nat,
        d.day as nat,
        t as nat,
        (us % 1_000_000) as nat,
    ));
    out
}

/// The time now.
pub fn now() -> (r: String)
    ensures
        exists|us: nat| #[trigger] stamps(r@, us),
{
    let us: u64 = clock::to_units(clock::unix_micros(), 1);
    timestamp(us)
}

// ── Escaping ────────────────────────────────────────────────────────────
/// A text as it stands inside a JSON string.
pub open spec fn escaped(s: Seq<char>) -> Seq<char> {
    observability::json_escaped(s, s.len())
}

pub fn escape(s: &str) -> (r: String)
    ensures
        r@ == escaped(s@),
{
    json_escape(s)
}

// ── Lines ───────────────────────────────────────────────────────────────
/// An event as a JSON object, on one line.
pub open spec fn json_line(ts: Seq<char>, level: Seq<char>, event: Seq<char>, msg: Seq<char>) -> Seq<
    char,
> {
    "{\"ts\":\""@ + escaped(ts) + "\",\"level\":\""@ + escaped(level) + "\",\"event\":\""@
        + escaped(event) + "\",\"msg\":\""@ + escaped(msg) + "\"}"@
}

pub fn format_json(ts: &str, level: &str, event: &str, msg: &str) -> (r: String)
    ensures
        r@ == json_line(ts@, level@, event@, msg@),
        json_fields(r@) == Some((ts@, level@, event@, msg@)),
        one_line(r@),
{
    let mut out = own("{\"ts\":\"");
    out.append(escape(ts).as_str());
    out.append("\",\"level\":\"");
    out.append(escape(level).as_str());
    out.append("\",\"event\":\"");
    out.append(escape(event).as_str());
    out.append("\",\"msg\":\"");
    out.append(escape(msg).as_str());
    out.append("\"}");
    proof {
        law_json_line_reads_back(ts@, level@, event@, msg@);
        law_json_line_is_one_line(ts@, level@, event@, msg@);
    }
    out
}

pub open spec fn warn_text(color: bool, msg: Seq<char>) -> Seq<char> {
    if color {
        "  \x1b[1;38;5;220m⚠ warning:\x1b[0m  "@ + msg
    } else {
        "  warning: "@ + msg
    }
}

pub open spec fn error_text(color: bool, msg: Seq<char>) -> Seq<char> {
    if color {
        "  \x1b[1;38;5;196m✖ error:\x1b[0m  "@ + msg
    } else {
        "  error: "@ + msg
    }
}

/// Whether a line is the JSON of an event at some time: one line without a
/// control character, which decodes to the time, the level, the event and the
/// message.
pub open spec fn is_json_event(s: Seq<char>, level: Seq<char>, event: Seq<char>, msg: Seq<char>) -> bool {
    &&& one_line(s)
    &&& exists|ts: Seq<char>, us: nat|
        #[trigger] stamps(ts, us) && s == #[trigger] json_line(ts, level, event, msg)
            && json_fields(s) == Some((ts, level, event, msg))
}

fn json_now(level: &str, event: &str, msg: &str) -> (r: String)
    ensures
        is_json_event(r@, level@, event@, msg@),
{
    let ts = now();
    let r = format_json(ts.as_str(), level, event, msg);
    proof {
        let us = choose|us: nat| #[trigger] stamps(ts@, us);
        assert(stamps(ts@, us) && r@ == json_line(ts@, level@, event@, msg@));
    }
    r
}

/// The line of an informational event.
pub fn format_info(json: bool, event: &str, msg: &str) -> (r: String)
    ensures
        if json {
            is_json_event(r@, "info"@, event@, msg@)
        } else {
            r@ == msg@
        },
{
    if json {
        json_now("info", event, msg)
    } else {
        own(msg)
    }
}

/// The line of a warning.
pub fn format_warn(json: bool, color: bool, event: &str, msg: &str) -> (r: String)
    ensures
        if json {
            is_json_event(r@, "warn"@, event@, msg@)
        } else {
            r@ == warn_text(color, msg@)
        },
{
    if json {
        json_now("warn", event, msg)
    } else if color {
        cat2("  \x1b[1;38;5;220m⚠ warning:\x1b[0m  ", msg)
    } else {
        cat2("  warning: ", msg)
    }
}

/// The line of an error.
pub fn format_error(json: bool, color: bool, event: &str, msg: &str) -> (r: String)
    ensures
        if json {
            is_json_event(r@, "error"@, event@, msg@)
        } else {
            r@ == error_text(color, msg@)
        },
{
    if json {
        json_now("error", event, msg)
    } else if color {
        cat2("  \x1b[1;38;5;196m✖ error:\x1b[0m  ", msg)
    } else {
        cat2("  error: ", msg)
    }
}

// ── Laws ────────────────────────────────────────────────────────────────
/// Whether a text holds no control character, and so no line end.
pub open spec fn one_line(s: Seq<char>) -> bool {
    forall|i: int| 0 <= i < s.len() ==> #[trigger] s[i] >= ' '
}

/// The JSON string that stands in a text behind `mark`, which begins at `p`.
#[verifier::opaque]
pub open spec fn field_at(s: Seq<char>, p: int, mark: Seq<char>) -> Option<(Seq<char>, int)> {
    if 0 <= p && p + mark.len() <= s.len() && s.subrange(p, p + mark.len()) == mark {
        observability::json_string_at(s, p + mark.len())
    } else {
        None
    }
}

/// The time, the level, the event and the message of a JSON line.
pub open spec fn json_fields(s: Seq<char>) -> Option<
    (Seq<char>, Seq<char>, Seq<char>, Seq<char>),
> {
    match field_at(s, 0, "{\"ts\":\""@) {
        None => None,
        Some((ts, p1)) => match field_at(s, p1, ",\"level\":\""@) {
            None => None,
            Some((level, p2)) => match field_at(s, p2, ",\"event\":\""@) {
                None => None,
                Some((event, p3)) => match field_at(s, p3, ",\"msg\":\""@) {
                    None => None,
                    Some((msg, p4)) => if p4 + 1 == s.len() && s[p4] == '}' {
                        Some((ts, level, event, msg))
                    } else {
                        None
                    },
                },
            },
        },
    }
}

proof fn lemma_field(pre: Seq<char>, mark: Seq<char>, value: Seq<char>, post: Seq<char>)
    ensures
        field_at(pre + mark + escaped(value) + (seq!['"'] + post), pre.len() as int, mark) == Some(
            (value, (pre + mark + escaped(value)).len() as int + 1),
        ),
{
    reveal(field_at);
    let e = escaped(value);
    let b = seq!['"'] + post;
    let s = pre + mark + e + b;
    let end = (pre + mark + e).len() as int;
    assert(s.subrange(pre.len() as int, (pre + mark).len() as int) =~= mark);
    observability::law_json_escape_reads_back(pre + mark, value, value.len(), b);
    assert(s[end] == '"');
    assert(observability::json_string_at(s, end) == Some((Seq::<char>::empty(), end + 1)));
    assert(value.subrange(0, value.len() as int) + Seq::<char>::empty() =~= value);
}

/// A JSON line is read back: it decodes to its time, level, event and message,
/// whatever they hold.
pub proof fn law_json_line_reads_back(
    ts: Seq<char>,
    level: Seq<char>,
    event: Seq<char>,
    msg: Seq<char>,
)
    ensures
        json_fields(json_line(ts, level, event, msg)) == Some((ts, level, event, msg)),
{
    reveal_strlit("{\"ts\":\"");
    reveal_strlit("\",\"level\":\"");
    reveal_strlit(",\"level\":\"");
    reveal_strlit("\",\"event\":\"");
    reveal_strlit(",\"event\":\"");
    reveal_strlit("\",\"msg\":\"");
    reveal_strlit(",\"msg\":\"");
    reveal_strlit("\"}");
    let s = json_line(ts, level, event, msg);
    let (a, b, c, d) = (escaped(ts), escaped(level), escaped(event), escaped(msg));
    let m0 = "{\"ts\":\""@;
    let m1 = ",\"level\":\""@;
    let m2 = ",\"event\":\""@;
    let m3 = ",\"msg\":\""@;
    let q = seq!['"'];
    assert("\",\"level\":\""@ =~= q + m1);
    assert("\",\"event\":\""@ =~= q + m2);
    assert("\",\"msg\":\""@ =~= q + m3);
    assert("\"}"@ =~= q + seq!['}']);
    lemma_line_reads_back(m0, ts, m1, level, m2, event, m3, msg);
}

/// What `json_fields` finds, over any marks in place of those of a log line.
proof fn lemma_line_reads_back(
    m0: Seq<char>,
    ts: Seq<char>,
    m1: Seq<char>,
    level: Seq<char>,
    m2: Seq<char>,
    event: Seq<char>,
    m3: Seq<char>,
    msg: Seq<char>,
)
    ensures
        ({
            let q = seq!['"'];
            let s = m0 + escaped(ts) + (q + m1) + escaped(level) + (q + m2) + escaped(event) + (q
                + m3) + escaped(msg) + (q + seq!['}']);
            let p1 = (m0 + escaped(ts)).len() + 1;
            let p2 = p1 + (m1 + escaped(level)).len() + 1;
            let p3 = p2 + (m2 + escaped(event)).len() + 1;
            let p4 = p3 + (m3 + escaped(msg)).len() + 1;
            &&& field_at(s, 0, m0) == Some((ts, p1 as int))
            &&& field_at(s, p1 as int, m1) == Some((level, p2 as int))
            &&& field_at(s, p2 as int, m2) == Some((event, p3 as int))
            &&& field_at(s, p3 as int, m3) == Some((msg, p4 as int))
            &&& s.len() == p4 + 1
            &&& s[p4 as int] == '}'
        }),
{
    let q = seq!['"'];
    let (a, b, c, d) = (escaped(ts), escaped(level), escaped(event), escaped(msg));
    let t3 = seq!['}'];
    let t2 = m3 + d + (q + t3);
    let t1 = m2 + c + (q + t2);
    let t0 = m1 + b + (q + t1);
    lemma_layout(q, m0, a, m1, b, m2, c, m3, d, t3);
    lemma_field(Seq::empty(), m0, ts, t0);
    lemma_field(m0 + a + q, m1, level, t1);
    lemma_field(m0 + a + q + m1 + b + q, m2, event, t2);
    lemma_field(m0 + a + q + m1 + b + q + m2 + c + q, m3, msg, t3);
}

/// A line, cut before each of its fields.
proof fn lemma_layout(
    q: Seq<char>,
    m0: Seq<char>,
    a: Seq<char>,
    m1: Seq<char>,
    b: Seq<char>,
    m2: Seq<char>,
    c: Seq<char>,
    m3: Seq<char>,
    d: Seq<char>,
    t3: Seq<char>,
)
    ensures
        ({
            let s = m0 + a + (q + m1) + b + (q + m2) + c + (q + m3) + d + (q + t3);
            let t2 = m3 + d + (q + t3);
            let t1 = m2 + c + (q + t2);
            let t0 = m1 + b + (q + t1);
            let h1 = m0 + a + q;
            let h2 = h1 + m1 + b + q;
            let h3 = h2 + m2 + c + q;
            &&& s == Seq::<char>::empty() + m0 + a + (q + t0)
            &&& s == h1 + m1 + b + (q + t1)
            &&& s == h2 + m2 + c + (q + t2)
            &&& s == h3 + m3 + d + (q + t3)
            &&& Seq::<char>::empty() + m0 + a == m0 + a
        }),
{
    let t2 = m3 + d + (q + t3);
    let t1 = m2 + c + (q + t2);
    let h1 = m0 + a + q;
    let h2 = h1 + m1 + b + q;
    // From the left, a quote and the mark behind it come apart.
    lemma_assoc(m0 + a, q, m1);
    lemma_assoc(h1 + m1 + b, q, m2);
    lemma_assoc(h2 + m2 + c, q, m3);
    // From the right, what follows a field moves behind it.
    lemma_regroup(h2 + m2 + c, q, m3, d, q + t3);
    lemma_regroup(h1 + m1 + b, q, m2, c, q + t2);
    lemma_regroup(m0 + a, q, m1, b, q + t1);
    lemma_nothing_before(m0);
}

proof fn lemma_nothing_before(x: Seq<char>)
    ensures
        Seq::<char>::empty() + x == x,
{
    assert(Seq::<char>::empty() + x =~= x);
}

proof fn lemma_assoc(x: Seq<char>, y: Seq<char>, z: Seq<char>)
    ensures
        x + (y + z) == x + y + z,
{
    assert(x + (y + z) =~= x + y + z);
}

proof fn lemma_regroup(x: Seq<char>, q: Seq<char>, m: Seq<char>, v: Seq<char>, t: Seq<char>)
    ensures
        x + (q + (m + v + t)) == x + q + m + v + t,
{
    assert(x + (q + (m + v + t)) =~= x + q + m + v + t);
}

proof fn lemma_join_lines(a: Seq<char>, b: Seq<char>)
    requires
        one_line(a),
        one_line(b),
    ensures
        one_line(a + b),
{
    assert forall|i: int| 0 <= i < (a + b).len() implies #[trigger] (a + b)[i] >= ' ' by {
        if i < a.len() {
            assert((a + b)[i] == a[i]);
        } else {
            assert((a + b)[i] == b[i - a.len()]);
        }
    }
}

proof fn lemma_escaped_line(s: Seq<char>)
    ensures
        one_line(escaped(s)),
{
    assert forall|i: int| 0 <= i < escaped(s).len() implies #[trigger] escaped(s)[i] >= ' ' by {
        observability::law_json_escape_has_no_control_character(s, s.len(), i);
    }
}

/// A JSON line holds no control character, whatever the event and the message
/// hold: it is one line.
pub proof fn law_json_line_is_one_line(
    ts: Seq<char>,
    level: Seq<char>,
    event: Seq<char>,
    msg: Seq<char>,
)
    ensures
        one_line(json_line(ts, level, event, msg)),
{
    reveal_strlit("{\"ts\":\"");
    reveal_strlit("\",\"level\":\"");
    reveal_strlit("\",\"event\":\"");
    reveal_strlit("\",\"msg\":\"");
    reveal_strlit("\"}");
    lemma_escaped_line(ts);
    lemma_escaped_line(level);
    lemma_escaped_line(event);
    lemma_escaped_line(msg);
    let l0 = "{\"ts\":\""@ + escaped(ts);
    lemma_join_lines("{\"ts\":\""@, escaped(ts));
    let l1 = l0 + "\",\"level\":\""@;
    lemma_join_lines(l0, "\",\"level\":\""@);
    let l2 = l1 + escaped(level);
    lemma_join_lines(l1, escaped(level));
    let l3 = l2 + "\",\"event\":\""@;
    lemma_join_lines(l2, "\",\"event\":\""@);
    let l4 = l3 + escaped(event);
    lemma_join_lines(l3, escaped(event));
    let l5 = l4 + "\",\"msg\":\""@;
    lemma_join_lines(l4, "\",\"msg\":\""@);
    let l6 = l5 + escaped(msg);
    lemma_join_lines(l5, escaped(msg));
    lemma_join_lines(l6, "\"}"@);
}

proof fn lemma_stamp_layout(
    d: Seq<char>,
    t: Seq<char>,
    h: Seq<char>,
    c: Seq<char>,
    m: Seq<char>,
    s: Seq<char>,
    dot: Seq<char>,
    rest: Seq<char>,
)
    requires
        d.len() == 10,
        t.len() == 1,
        h.len() == 2,
        c.len() == 1,
        m.len() == 2,
        s.len() == 2,
        dot.len() == 1,
    ensures
        ({
            let v = d + t + h + c + m + c + s + dot + rest;
            &&& v.len() >= 20
            &&& v.subrange(0, 10) == d
            &&& v[10] == t[0]
            &&& v.subrange(11, 13) == h
            &&& v[13] == c[0]
            &&& v.subrange(14, 16) == m
            &&& v[16] == c[0]
            &&& v.subrange(17, 19) == s
            &&& v[19] == dot[0]
        }),
{
    let v = d + t + h + c + m + c + s + dot + rest;
    assert(v.subrange(0, 10) =~= d);
    assert(v.subrange(11, 13) =~= h);
    assert(v.subrange(14, 16) =~= m);
    assert(v.subrange(17, 19) =~= s);
}

/// A stamp tells the hour, the minute and the second behind the date, in two
/// digits each.
pub proof fn law_stamp_tells_the_time_of_day(
    year: nat,
    month: nat,
    day: nat,
    h: nat,
    m: nat,
    s: nat,
    micros: nat,
)
    requires
        1000 <= year <= 9999,
        month <= 12,
        day <= 31,
        h < 24,
        m < 60,
        s < 60,
    ensures
        ({
            let t = stamp_text(year, month, day, 3600 * h + 60 * m + s, micros);
            &&& t.len() >= 20
            &&& t.subrange(0, 10) == date::iso_text(year, month, day)
            &&& t[10] == 'T'
            &&& text::parse_dec(t.subrange(11, 13), 99) == Some(h)
            &&& t[13] == ':'
            &&& text::parse_dec(t.subrange(14, 16), 99) == Some(m)
            &&& t[16] == ':'
            &&& text::parse_dec(t.subrange(17, 19), 99) == Some(s)
            &&& t[19] == '.'
        }),
{
    let secs = 3600 * h + 60 * m + s;
    lemma_time_of_day(h, m, s);
    date::lemma_two_digits(h);
    date::lemma_two_digits(m);
    date::lemma_two_digits(s);
    let d = date::iso_text(year, month, day);
    assert(d.len() == 10) by {
        date::law_date_is_year_month_day(year, month, day);
    }
    assert("T"@.len() == 1 && "T"@[0] == 'T') by {
        reveal_strlit("T");
    }
    assert(":"@.len() == 1 && ":"@[0] == ':') by {
        reveal_strlit(":");
    }
    assert("."@.len() == 1 && "."@[0] == '.') by {
        reveal_strlit(".");
    }
    let front = d + "T"@ + date::padded(h, 2) + ":"@ + date::padded(m, 2) + ":"@ + date::padded(
        s,
        2,
    ) + "."@;
    let rest = date::padded(micros, 6) + "Z"@;
    lemma_stamp_layout(
        d,
        "T"@,
        date::padded(h, 2),
        ":"@,
        date::padded(m, 2),
        date::padded(s, 2),
        "."@,
        rest,
    );
    lemma_grouped(front, date::padded(micros, 6), "Z"@);
}

proof fn lemma_time_of_day(h: nat, m: nat, s: nat)
    requires
        m < 60,
        s < 60,
    ensures
        (3600 * h + 60 * m + s) / 3600 == h,
        (3600 * h + 60 * m + s) % 3600 / 60 == m,
        (3600 * h + 60 * m + s) % 60 == s,
{
    let t = 3600 * h + 60 * m + s;
    assert(t / 3600 == h);
    assert(t % 3600 == 60 * m + s);
    assert(t == 60 * (60 * h + m) + s);
}

proof fn lemma_grouped(a: Seq<char>, b: Seq<char>, c: Seq<char>)
    ensures
        a + b + c == a + (b + c),
{
    assert(a + b + c =~= a + (b + c));
}

} // verus!
