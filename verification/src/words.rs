//! What the operations on texts come to, in terms of putting texts together.
use crate::text;
use vstd::prelude::*;

verus! {

// ── Prefixes, suffixes ──────────────────────────────────────────────────
/// A text starts with another where it is that and some more, ends with it
/// where it is some more and that, and holds it where it stands between two.
pub proof fn law_parts_of_a_text(a: Seq<char>, p: Seq<char>, b: Seq<char>)
    ensures
        text::starts(p + b, p),
        text::ends(a + p, p),
        text::holds(a + p + b, p),
        text::strip_prefix_of(p + b, p) == Some(b),
        text::strip_suffix_of(a + p, p) == Some(a),
{
    assert((p + b).subrange(0, p.len() as int) =~= p);
    assert((a + p).subrange((a + p).len() - p.len(), (a + p).len() as int) =~= p);
    assert((a + p + b).subrange(a.len() as int, a.len() + p.len() as int) =~= p);
    assert((p + b).subrange(p.len() as int, (p + b).len() as int) =~= b);
    assert((a + p).subrange(0, (a + p).len() - p.len()) =~= a);
}

/// What a prefix or a suffix is taken off is put together again from the two.
pub proof fn law_stripped_parts_join(s: Seq<char>, p: Seq<char>)
    ensures
        text::starts(s, p) <==> text::strip_prefix_of(s, p) is Some,
        text::ends(s, p) <==> text::strip_suffix_of(s, p) is Some,
        text::strip_prefix_of(s, p) matches Some(b) ==> s == p + b,
        text::strip_suffix_of(s, p) matches Some(a) ==> s == a + p,
{
    if text::starts(s, p) {
        assert(s =~= p + s.subrange(p.len() as int, s.len() as int));
    }
    if text::ends(s, p) {
        assert(s =~= s.subrange(0, s.len() - p.len()) + p);
    }
}

// ── Trimming ────────────────────────────────────────────────────────────
/// `n` times the character.
pub open spec fn run(c: char, n: nat) -> Seq<char> {
    Seq::new(n, |i: int| c)
}

/// What is trimmed off the end of a text is a run of the character, and what is
/// left does not end with it.
pub proof fn law_trim_end(s: Seq<char>, c: char)
    ensures
        ({
            let t = text::trim_end_of(s, c);
            &&& t.len() <= s.len()
            &&& s == t + run(c, (s.len() - t.len()) as nat)
            &&& t.len() > 0 ==> t.last() != c
        }),
    decreases s.len(),
{
    let t = text::trim_end_of(s, c);
    if s.len() > 0 && s[s.len() - 1] == c {
        let u = s.subrange(0, s.len() - 1);
        law_trim_end(u, c);
        assert(s =~= u.push(c));
        assert(s =~= t + run(c, (s.len() - t.len()) as nat));
    } else {
        assert(s =~= t + run(c, 0));
    }
}

/// What is trimmed off the start of a text is a run of the character, and what
/// is left does not start with it.
pub proof fn law_trim_start(s: Seq<char>, c: char)
    ensures
        ({
            let t = text::trim_start_of(s, c);
            &&& t.len() <= s.len()
            &&& s == run(c, (s.len() - t.len()) as nat) + t
            &&& t.len() > 0 ==> t[0] != c
        }),
    decreases s.len(),
{
    let t = text::trim_start_of(s, c);
    if s.len() > 0 && s[0] == c {
        let u = s.subrange(1, s.len() as int);
        law_trim_start(u, c);
        assert(s =~= seq![c] + u);
        assert(s =~= run(c, (s.len() - t.len()) as nat) + t);
    } else {
        assert(s =~= run(c, 0) + t);
    }
}

/// All characters are white space.
pub open spec fn blank(s: Seq<char>) -> bool {
    forall|i: int| 0 <= i < s.len() ==> text::white(#[trigger] s[i])
}

proof fn lemma_trimmed_end(s: Seq<char>, n: int)
    requires
        0 <= n <= s.len(),
    ensures
        ({
            let b = text::trimmed_end(s, n);
            &&& 0 <= b <= n
            &&& forall|i: int| b <= i < n ==> text::white(#[trigger] s[i])
            &&& b > 0 ==> !text::white(s[b - 1])
        }),
    decreases n,
{
    if 0 < n && text::white(s[n - 1]) {
        lemma_trimmed_end(s, n - 1);
    }
}

proof fn lemma_trimmed_start(s: Seq<char>, from: int)
    requires
        0 <= from <= s.len(),
    ensures
        ({
            let a = text::trimmed_start(s, from);
            &&& from <= a <= s.len()
            &&& forall|i: int| from <= i < a ==> text::white(#[trigger] s[i])
            &&& a < s.len() ==> !text::white(s[a])
        }),
    decreases s.len() - from,
{
    if from < s.len() && text::white(s[from]) {
        lemma_trimmed_start(s, from + 1);
    }
}

/// What is trimmed off a text is white space, and what is left neither starts
/// nor ends with any.
pub proof fn law_trim(s: Seq<char>)
    ensures
        ({
            let t = text::trim_of(s);
            &&& exists|a: Seq<char>, b: Seq<char>|
                blank(a) && blank(b) && s == #[trigger] (a + t + b)
            &&& t.len() > 0 ==> !text::white(t[0]) && !text::white(t.last())
        }),
{
    let a = text::trimmed_start(s, 0);
    let b = text::trimmed_end(s, s.len() as int);
    lemma_trimmed_start(s, 0);
    lemma_trimmed_end(s, s.len() as int);
    let t = text::trim_of(s);
    if a < b {
        assert(s =~= s.subrange(0, a) + t + s.subrange(b, s.len() as int));
    } else {
        assert forall|i: int| 0 <= i < s.len() implies text::white(#[trigger] s[i]) by {
            if a < s.len() {
                assert(text::white(s[a]));
            }
        }
        assert(s =~= s + t + Seq::<char>::empty());
        assert(blank(Seq::<char>::empty()));
    }
}

// ── Splitting ───────────────────────────────────────────────────────────
/// A text is split once around the first of the characters.
pub proof fn law_split_once(s: Seq<char>, c: char)
    ensures
        match text::split_once_of(s, c) {
            Some((a, b)) => s == a + seq![c] + b && !a.contains(c),
            None => !s.contains(c),
        },
{
    text::lemma_index_of(s, c, 0);
    let i = text::index_of(s, c, 0);
    if i < s.len() {
        assert(s =~= s.subrange(0, i) + seq![c] + s.subrange(i + 1, s.len() as int));
    }
}

/// Two texts around a character are split into the two, where the first does not
/// hold it.
pub proof fn law_split_once_of_joined(a: Seq<char>, c: char, b: Seq<char>)
    requires
        !a.contains(c),
    ensures
        text::split_once_of(a + seq![c] + b, c) == Some((a, b)),
{
    let s = a + seq![c] + b;
    let n = a.len() as int;
    text::lemma_index_of(s, c, 0);
    let i = text::index_of(s, c, 0);
    assert(s[n] == c);
    if i < n {
        assert(a[i] == s[i]);
    }
    assert(i == n);
    assert(s.subrange(0, i) =~= a);
    assert(s.subrange(i + 1, s.len() as int) =~= b);
}

/// A text is split from behind around the last of the characters.
pub proof fn law_rsplit_once(s: Seq<char>, c: char)
    ensures
        match text::rsplit_once_of(s, c) {
            Some((a, b)) => s == a + seq![c] + b && !b.contains(c),
            None => !s.contains(c),
        },
{
    text::lemma_last_index_of(s, c, s.len() as int);
    let i = text::last_index_of(s, c, s.len() as int);
    if i >= 0 {
        assert(s =~= s.subrange(0, i) + seq![c] + s.subrange(i + 1, s.len() as int));
    }
}

proof fn lemma_join_front(x: Seq<char>, ss: Seq<Seq<char>>, sep: Seq<char>, n: nat)
    requires
        1 <= n <= ss.len(),
    ensures
        text::join_n(seq![x] + ss, sep, n + 1) == x + sep + text::join_n(ss, sep, n),
    decreases n,
{
    let all = seq![x] + ss;
    reveal_with_fuel(text::join_n, 3);
    assert(all[0] == x);
    assert(all[n as int] == ss[n - 1]);
    if n == 1 {
        assert(text::join_n(all, sep, 1) == x);
    } else {
        lemma_join_front(x, ss, sep, (n - 1) as nat);
        assert(text::join_n(all, sep, n + 1) == text::join_n(all, sep, n) + sep + ss[n - 1]);
        assert(x + sep + text::join_n(ss, sep, (n - 1) as nat) + sep + ss[n - 1] =~= x + sep + (
        text::join_n(ss, sep, (n - 1) as nat) + sep + ss[n - 1]));
    }
}

proof fn lemma_split_from(s: Seq<char>, c: char, from: int)
    requires
        0 <= from <= s.len(),
    ensures
        ({
            let v = text::split_from(s, c, from);
            &&& v.len() > 0
            &&& text::join(v, seq![c]) == s.subrange(from, s.len() as int)
            &&& forall|i: int| 0 <= i < v.len() ==> !(#[trigger] v[i]).contains(c)
        }),
    decreases s.len() - from,
{
    text::lemma_index_of(s, c, from);
    let i = text::index_of(s, c, from);
    let v = text::split_from(s, c, from);
    if i < s.len() {
        let head = s.subrange(from, i);
        let w = text::split_from(s, c, i + 1);
        lemma_split_from(s, c, i + 1);
        lemma_join_front(head, w, seq![c], w.len());
        assert(v =~= seq![head] + w);
        assert(s.subrange(from, s.len() as int) =~= head + seq![c] + s.subrange(
            i + 1,
            s.len() as int,
        ));
        assert forall|k: int| 0 <= k < v.len() implies !(#[trigger] v[k]).contains(c) by {
            if k > 0 {
                assert(v[k] == w[k - 1]);
            } else if head.contains(c) {
                let j = choose|j: int| 0 <= j < head.len() && head[j] == c;
                assert(s[from + j] == c);
            }
        }
    } else {
        let rest = s.subrange(from, s.len() as int);
        reveal_with_fuel(text::join_n, 2);
        assert(v =~= seq![rest]);
        if rest.contains(c) {
            let j = choose|j: int| 0 <= j < rest.len() && rest[j] == c;
            assert(s[from + j] == c);
        }
    }
}

/// The pieces of a split text do not hold the character, and joined by it they
/// are the text.
pub proof fn law_split_joins(s: Seq<char>, c: char)
    ensures
        ({
            let v = text::split_of(s, c);
            &&& text::join(v, seq![c]) == s
            &&& forall|i: int| 0 <= i < v.len() ==> !(#[trigger] v[i]).contains(c)
        }),
{
    lemma_split_from(s, c, 0);
    assert(s.subrange(0, s.len() as int) =~= s);
}

// ── Order ───────────────────────────────────────────────────────────────
proof fn lemma_precedes_from(a: Seq<char>, b: Seq<char>, i: int)
    requires
        0 <= i <= a.len(),
        i <= b.len(),
        text::precedes_from(a, b, i),
    ensures
        exists|k: int|
            i <= k <= a.len() && k < b.len() && #[trigger] a.subrange(i, k) == b.subrange(i, k) && (k
                == a.len() || a[k] < b[k]),
    decreases a.len() - i,
{
    if i < a.len() && a[i] == b[i] {
        lemma_precedes_from(a, b, i + 1);
        let k = choose|k: int|
            i + 1 <= k <= a.len() && k < b.len() && #[trigger] a.subrange(i + 1, k) == b.subrange(
                i + 1,
                k,
            ) && (k == a.len() || a[k] < b[k]);
        assert(a.subrange(i, k) =~= seq![a[i]] + a.subrange(i + 1, k));
        assert(b.subrange(i, k) =~= seq![b[i]] + b.subrange(i + 1, k));
    } else {
        assert(a.subrange(i, i) =~= b.subrange(i, i));
    }
}

/// One text precedes another where, behind what both begin with, it ends or has
/// the smaller character.
pub proof fn law_order_is_by_characters(a: Seq<char>, b: Seq<char>)
    requires
        text::precedes(a, b),
    ensures
        exists|k: int|
            0 <= k <= a.len() && k < b.len() && #[trigger] a.subrange(0, k) == b.subrange(0, k) && (k
                == a.len() || a[k] < b[k]),
{
    lemma_precedes_from(a, b, 0);
}

// ── Letters ─────────────────────────────────────────────────────────────
/// A text in lower case has no ASCII capitals, differs from the text in nothing
/// else, and is its own lower case.
pub proof fn law_lower(s: Seq<char>, i: int)
    requires
        0 <= i < s.len(),
    ensures
        text::lower(s).len() == s.len(),
        !('A' <= text::lower(s)[i] <= 'Z'),
        !('A' <= s[i] <= 'Z') ==> text::lower(s)[i] == s[i],
        'A' <= s[i] <= 'Z' ==> text::lower(s)[i] as int == s[i] as int + ('a' as int - 'A' as int),
        text::lower(text::lower(s)) == text::lower(s),
{
    assert forall|j: int| 0 <= j < s.len() implies text::lower(text::lower(s))[j]
        == #[trigger] text::lower(s)[j] by {
        assert(text::lower_char(text::lower_char(s[j])) == text::lower_char(s[j]));
    }
    assert(text::lower(text::lower(s)) =~= text::lower(s));
}

// ── Numbers ─────────────────────────────────────────────────────────────
/// A number is written in the digits of base ten, the first of which is zero
/// only in zero itself, and read as their value.
pub proof fn law_decimal(n: nat, d: nat, max: nat)
    requires
        d < 10,
    ensures
        text::dec(d) == seq![('0' as int + d) as char],
        n > 0 ==> text::dec(10 * n + d) == text::dec(n).push(('0' as int + d) as char),
        n <= max ==> text::parse_dec(text::dec(n), max) == Some(n),
        n > max ==> text::parse_dec(text::dec(n), max) is None,
{
    text::lemma_dec(n);
    if n > 0 {
        assert((10 * n + d) / 10 == n);
        assert((10 * n + d) % 10 == d);
    }
}

/// White space around a text is taken off.
pub proof fn lemma_trim_between(a: Seq<char>, t: Seq<char>, b: Seq<char>)
    requires
        blank(a),
        blank(b),
        t.len() > 0,
        !text::white(t[0]),
        !text::white(t.last()),
    ensures
        text::trim_of(a + t + b) == t,
{
    let s = a + t + b;
    law_trim(s);
    let u = text::trim_of(s);
    let (x, y) = choose|x: Seq<char>, y: Seq<char>|
        blank(x) && blank(y) && s == #[trigger] (x + u + y);
    let first = a.len() as int;
    let last = a.len() + t.len() - 1;
    assert(s[first] == t[0]);
    assert(s[last] == t.last());
    if x.len() > first {
        assert(x[first] == s[first]);
    }
    if s.len() - y.len() <= last {
        assert(y[last - (s.len() - y.len())] == s[last]);
    }
    assert(u.len() > 0);
    if x.len() < first {
        assert(u[0] == s[x.len() as int]);
        assert(a[x.len() as int] == s[x.len() as int]);
    }
    if s.len() - y.len() > last + 1 {
        let e = s.len() - y.len() - 1;
        assert(u.last() == s[e]);
        assert(b[e - (last + 1)] == s[e]);
    }
    assert(u =~= s.subrange(first, last + 1));
    assert(t =~= s.subrange(first, last + 1));
}

/// Text that neither starts nor ends with white space is left as it is.
pub proof fn lemma_untrimmed(s: Seq<char>)
    requires
        s.len() > 0,
        !text::white(s[0]),
        !text::white(s.last()),
    ensures
        text::trim_of(s) == s,
{
    let none = Seq::<char>::empty();
    lemma_trim_between(none, s, none);
    assert(none + s + none =~= s);
}

// ── Lines ───────────────────────────────────────────────────────────────
/// The lines `l` stand in the text, beginning where a line begins.
#[verifier::opaque]
pub open spec fn has_lines(t: Seq<char>, l: Seq<char>) -> bool {
    exists|i: int| lines_at(t, l, i)
}

/// The lines `l` stand in the text at `i`, where a line begins.
pub open spec fn lines_at(t: Seq<char>, l: Seq<char>, i: int) -> bool {
    &&& 0 <= i
    &&& i + l.len() <= t.len()
    &&& t.subrange(i, i + l.len()) == l
    &&& i == 0 || t[i - 1] == '\n'
}

/// What stands behind a finished line, or at the start, is found there.
pub proof fn lemma_lines_between(a: Seq<char>, l: Seq<char>, b: Seq<char>)
    requires
        a.len() == 0 || a.last() == '\n',
    ensures
        has_lines(a + l + b, l),
{
    reveal(has_lines);
    let t = a + l + b;
    assert(t.subrange(a.len() as int, a.len() + l.len() as int) =~= l);
    assert(lines_at(t, l, a.len() as int));
}

/// Lines that stand in a text stand in whatever continues it.
pub proof fn lemma_lines_stay(t: Seq<char>, l: Seq<char>, more: Seq<char>)
    requires
        has_lines(t, l),
    ensures
        has_lines(t + more, l),
{
    reveal(has_lines);
    let i = choose|i: int| lines_at(t, l, i);
    assert((t + more).subrange(i, i + l.len()) =~= t.subrange(i, i + l.len()));
    assert(lines_at(t + more, l, i));
}

// ── Parts of a chain ────────────────────────────────────────────────────
/// What a text holds, it holds when it goes on.
pub proof fn lemma_holds_on(t: Seq<char>, m: Seq<char>, more: Seq<char>)
    requires
        text::holds(t, m),
    ensures
        text::holds(t + more, m),
{
    let i = choose|i: int|
        0 <= i && i + m.len() <= t.len() && #[trigger] t.subrange(i, i + m.len()) == m;
    assert((t + more).subrange(i, i + m.len()) =~= m);
}

/// A text holds its last parts.
pub proof fn lemma_holds_last(a: Seq<char>, b: Seq<char>, c: Seq<char>, d: Seq<char>, e: Seq<char>)
    ensures
        text::holds(a + b, b),
        text::holds(a + b + c, b + c),
        text::holds(a + b + c + d, b + c + d),
        text::holds(a + b + c + d + e, b + c + d + e),
{
    let n = a.len() as int;
    assert((a + b).subrange(n, n + b.len()) =~= b);
    assert((a + b + c).subrange(n, n + (b + c).len()) =~= b + c);
    assert((a + b + c + d).subrange(n, n + (b + c + d).len()) =~= b + c + d);
    assert((a + b + c + d + e).subrange(n, n + (b + c + d + e).len()) =~= b + c + d + e);
}

} // verus!
