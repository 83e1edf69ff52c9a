//! IP address literals.
use crate::text;
use crate::text::{chars_of, is_digit, slice_of, split};
use vstd::prelude::*;

verus! {

broadcast use crate::text::group_views;

/// A decimal octet: at most three digits, no superfluous leading zero, at most 255.
pub open spec fn octet(s: Seq<char>) -> bool {
    &&& 1 <= s.len() <= 3
    &&& text::all_digits(s)
    &&& (s.len() > 1 ==> s[0] != '0')
    &&& text::value_of(s) <= 255
}

/// A dotted quad.
pub open spec fn ipv4(s: Seq<char>) -> bool {
    let parts = text::split_of(s, '.');
    parts.len() == 4 && octet(parts[0]) && octet(parts[1]) && octet(parts[2]) && octet(parts[3])
}

pub open spec fn hex_digit(c: char) -> bool {
    text::digit(c) || 'a' <= c <= 'f' || 'A' <= c <= 'F'
}

/// A 16-bit group: one to four hexadecimal digits.
pub open spec fn hex_group(s: Seq<char>) -> bool {
    1 <= s.len() <= 4 && forall|i: int| 0 <= i < s.len() ==> hex_digit(#[trigger] s[i])
}

/// How many 16-bit groups a colon-separated list writes; its last item may be
/// a dotted quad, which counts for two.
pub open spec fn group_count(s: Seq<char>) -> Option<nat> {
    let parts = text::split_of(s, ':');
    if s.len() == 0 {
        Some(0)
    } else if forall|i: int| 0 <= i < parts.len() - 1 ==> hex_group(#[trigger] parts[i]) {
        if hex_group(parts[parts.len() - 1]) {
            Some(parts.len())
        } else if ipv4(parts[parts.len() - 1]) {
            Some(parts.len() + 1)
        } else {
            None
        }
    } else {
        None
    }
}

/// Where the first `::` from `p` on stands; the length, if there is none.
pub open spec fn gap_at(s: Seq<char>, p: int) -> int
    decreases s.len() - p,
{
    if p < 0 || p + 1 >= s.len() {
        s.len() as int
    } else if s[p] == ':' && s[p + 1] == ':' {
        p
    } else {
        gap_at(s, p + 1)
    }
}

/// An IPv6 address: eight groups, or at most seven around one `::`. A dotted
/// quad stands only at the end of the address.
pub open spec fn ipv6(s: Seq<char>) -> bool {
    let g = gap_at(s, 0);
    if g >= s.len() {
        group_count(s) == Some(8nat)
    } else {
        let head = s.subrange(0, g);
        let tail = s.subrange(g + 2, s.len() as int);
        let last = text::split_of(head, ':').last();
        match (group_count(head), group_count(tail)) {
            (Some(h), Some(t)) => h + t <= 7 && !ipv4(last),
            _ => false,
        }
    }
}

fn is_octet(s: &str) -> (r: bool)
    ensures
        r == octet(s@),
{
    let v = chars_of(s);
    if v.len() == 0 || v.len() > 3 || (v.len() > 1 && v[0] == '0') {
        return false;
    }
    if v[0] == '+' {
        assert(!text::digit(s@[0]));
        return false;
    }
    match text::parse_u64(s, 255) {
        Some(_) => true,
        None => false,
    }
}

pub fn is_ipv4(s: &str) -> (r: bool)
    ensures
        r == ipv4(s@),
{
    let parts = split(s, '.');
    let ghost pv = text::views(parts@);
    if parts.len() != 4 {
        return false;
    }
    assert(pv[0] == parts@[0]@ && pv[1] == parts@[1]@ && pv[2] == parts@[2]@ && pv[3]
        == parts@[3]@);
    is_octet(parts[0].as_str()) && is_octet(parts[1].as_str()) && is_octet(parts[2].as_str())
        && is_octet(parts[3].as_str())
}

fn is_hex_group(s: &str) -> (r: bool)
    ensures
        r == hex_group(s@),
{
    let v = chars_of(s);
    if v.len() == 0 || v.len() > 4 {
        return false;
    }
    let mut i: usize = 0;
    while i < v.len()
        invariant
            v@ == s@,
            i <= v.len(),
            forall|j: int| 0 <= j < i ==> hex_digit(#[trigger] s@[j]),
        decreases v.len() - i,
    {
        let c: char = v[i];
        if !(is_digit(c) || ('a' <= c && c <= 'f') || ('A' <= c && c <= 'F')) {
            assert(!hex_digit(s@[i as int]));
            return false;
        }
        i += 1;
    }
    true
}

fn count_groups(s: &str) -> (r: Option<u128>)
    ensures
        match r {
            Some(n) => group_count(s@) == Some(n as nat),
            None => group_count(s@) is None,
        },
{
    let parts = split(s, ':');
    let ghost pv = text::views(parts@);
    if s.is_empty() {
        return Some(0);
    }
    let last: usize = parts.len() - 1;
    let mut i: usize = 0;
    while i < last
        invariant
            i <= last < parts.len(),
            pv == text::views(parts@),
            pv == text::split_of(s@, ':'),
            last == pv.len() - 1,
            s@.len() > 0,
            forall|j: int| 0 <= j < i ==> hex_group(#[trigger] pv[j]),
        decreases last - i,
    {
        if !is_hex_group(parts[i].as_str()) {
            assert(!hex_group(pv[i as int]));
            return None;
        }
        i += 1;
    }
    assert(pv[last as int] == parts@[last as int]@);
    if is_hex_group(parts[last].as_str()) {
        Some(parts.len() as u128)
    } else if is_ipv4(parts[last].as_str()) {
        Some(parts.len() as u128 + 1)
    } else {
        None
    }
}

pub fn is_ipv6(s: &str) -> (r: bool)
    ensures
        r == ipv6(s@),
{
    let v = chars_of(s);
    let mut g: usize = 0;
    while g < v.len() && !(v[g] == ':' && g + 1 < v.len() && v[g + 1] == ':')
        invariant
            v@ == s@,
            g <= v.len(),
            gap_at(s@, 0) == gap_at(s@, g as int),
        decreases v.len() - g,
    {
        g += 1;
    }
    if g >= v.len() {
        return match count_groups(s) {
            Some(n) => n == 8,
            None => false,
        };
    }
    let head = slice_of(&v, 0, g);
    let tail = slice_of(&v, g + 2, v.len());
    let parts = split(head.as_str(), ':');
    let ghost pv = text::views(parts@);
    assert(pv.last() == parts@[parts@.len() - 1]@);
    match (count_groups(head.as_str()), count_groups(tail.as_str())) {
        (Some(h), Some(t)) => h <= 7 && t <= 7 - h && !is_ipv4(parts[parts.len() - 1].as_str()),
        _ => false,
    }
}

// ── Laws ────────────────────────────────────────────────────────────────
proof fn lemma_octet(n: nat)
    ensures
        octet(text::dec(n)) <==> n <= 255,
        !text::dec(n).contains('.'),
        !text::dec(n).contains('/'),
{
    text::lemma_dec(n);
    let d = text::dec(n);
    if d.contains('.') {
        let i = choose|i: int| 0 <= i < d.len() && d[i] == '.';
        assert(text::digit(d[i]));
    }
    if d.contains('/') {
        let i = choose|i: int| 0 <= i < d.len() && d[i] == '/';
        assert(text::digit(d[i]));
    }
    if n < 1000 {
        reveal_with_fuel(text::dec, 4);
        if n >= 100 {
            assert(d[0] == text::digit_char(n / 10 / 10));
        } else if n >= 10 {
            assert(d[0] == text::digit_char(n / 10));
        }
    }
}

proof fn lemma_split_first(a: Seq<char>, b: Seq<char>)
    requires
        !a.contains('.'),
    ensures
        text::split_of(a + seq!['.'] + b, '.') == seq![a] + text::split_of(b, '.'),
{
    let s = a + seq!['.'] + b;
    let n = a.len() as int;
    text::lemma_index_of(s, '.', 0);
    let i = text::index_of(s, '.', 0);
    assert(s[n] == '.');
    if i < n {
        assert(a[i] == s[i]);
    }
    assert(s.subrange(0, n) =~= a);
    assert(s.subrange(n + 1, s.len() as int) =~= b);
    lemma_split_behind(s, b, n + 1, 0);
}

/// What is split behind a place does not depend on what stands before it.
proof fn lemma_split_behind(s: Seq<char>, b: Seq<char>, n: int, from: int)
    requires
        0 <= n <= s.len(),
        s.subrange(n, s.len() as int) == b,
        0 <= from <= b.len(),
    ensures
        text::split_from(s, '.', n + from) == text::split_from(b, '.', from),
    decreases b.len() - from,
{
    assert(b.len() == s.len() - n);
    text::lemma_index_of(s, '.', n + from);
    text::lemma_index_of(b, '.', from);
    let i = text::index_of(s, '.', n + from);
    let j = text::index_of(b, '.', from);
    assert forall|k: int| 0 <= k < b.len() implies #[trigger] b[k] == s[n + k] by {
        assert(s.subrange(n, s.len() as int)[k] == s[n + k]);
    }
    if i < n + j {
        assert(b[i - n] == s[i]);
    }
    if n + j < i && j < b.len() {
        assert(b[j] == s[n + j]);
    }
    assert(i == n + j);
    if j < b.len() {
        assert(s.subrange(n + from, i) =~= b.subrange(from, j));
        lemma_split_behind(s, b, n, j + 1);
    } else {
        assert(s.subrange(n + from, s.len() as int) =~= b.subrange(from, b.len() as int));
    }
}

/// Four numbers with dots between them are an address where none is above 255.
pub proof fn law_four_octets(a: nat, b: nat, c: nat, d: nat)
    ensures
        ipv4(text::dec(a) + "."@ + text::dec(b) + "."@ + text::dec(c) + "."@ + text::dec(d)) <==> a
            <= 255 && b <= 255 && c <= 255 && d <= 255,
{
    lemma_octet(a);
    lemma_octet(b);
    lemma_octet(c);
    lemma_octet(d);
    reveal_strlit(".");
    let s4 = text::dec(d);
    let s3 = text::dec(c) + seq!['.'] + s4;
    let s2 = text::dec(b) + seq!['.'] + s3;
    let s1 = text::dec(a) + seq!['.'] + s2;
    let s = text::dec(a) + "."@ + text::dec(b) + "."@ + text::dec(c) + "."@ + text::dec(d);
    assert(s =~= s1);
    lemma_split_first(text::dec(a), s2);
    lemma_split_first(text::dec(b), s3);
    lemma_split_first(text::dec(c), s4);
    text::lemma_index_of(s4, '.', 0);
    assert(s4.subrange(0, s4.len() as int) =~= s4);
    assert(text::split_of(s4, '.') =~= seq![s4]);
    let parts = text::split_of(s, '.');
    assert(parts =~= seq![text::dec(a), text::dec(b), text::dec(c), text::dec(d)]);
}

/// A dotted quad holds no slash.
pub proof fn lemma_quad_chars(a: nat, b: nat, c: nat, d: nat)
    ensures
        !(text::dec(a) + "."@ + text::dec(b) + "."@ + text::dec(c) + "."@ + text::dec(d)).contains('/'),
{
    lemma_octet(a);
    lemma_octet(b);
    lemma_octet(c);
    lemma_octet(d);
    reveal_strlit(".");
    lemma_joined(text::dec(a), text::dec(b));
    lemma_joined(text::dec(a) + "."@ + text::dec(b), text::dec(c));
    lemma_joined(text::dec(a) + "."@ + text::dec(b) + "."@ + text::dec(c), text::dec(d));
}

proof fn lemma_joined(x: Seq<char>, y: Seq<char>)
    requires
        !x.contains('/'),
        !y.contains('/'),
    ensures
        !(x + "."@ + y).contains('/'),
{
    reveal_strlit(".");
    let s = x + "."@ + y;
    assert forall|i: int| 0 <= i < s.len() implies s[i] != '/' by {
        if i < x.len() {
            assert(x.contains(x[i]));
        } else if i > x.len() {
            assert(s[i] == y[i - x.len() - 1]);
            assert(y.contains(y[i - x.len() - 1]));
        }
    }
}

} // verus!
