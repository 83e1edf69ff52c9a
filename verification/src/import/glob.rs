//! `*` patterns on a single path component.
use crate::text::{chars_of, find_from};
use vstd::prelude::*;

verus! {

/// Whether the pattern from `i` on matches the name from `j` on. A `*` matches
/// any run of characters, every other character itself.
pub open spec fn glob_at(p: Seq<char>, i: int, s: Seq<char>, j: int) -> bool
    decreases p.len() - i, s.len() - j,
{
    if i < 0 || i >= p.len() {
        j == s.len()
    } else if p[i] == '*' {
        glob_at(p, i + 1, s, j) || (0 <= j < s.len() && glob_at(p, i, s, j + 1))
    } else {
        0 <= j < s.len() && s[j] == p[i] && glob_at(p, i + 1, s, j + 1)
    }
}

/// The literal text from `i` to `e` of the pattern stands in the name at `k`.
pub open spec fn literal_at(p: Seq<char>, i: int, e: int, s: Seq<char>, k: int) -> bool {
    k + (e - i) <= s.len() && s.subrange(k, k + (e - i)) == p.subrange(i, e)
}

proof fn lemma_literal(p: Seq<char>, i: int, e: int, s: Seq<char>, k: int)
    requires
        0 <= i <= e <= p.len(),
        0 <= k <= s.len(),
        forall|x: int| i <= x < e ==> p[x] != '*',
    ensures
        glob_at(p, i, s, k) <==> literal_at(p, i, e, s, k) && glob_at(p, e, s, k + (e - i)),
    decreases e - i,
{
    if i == e {
        assert(s.subrange(k, k) =~= p.subrange(i, e));
    } else {
        assert(p[i] != '*');
        if k < s.len() && s[k] == p[i] {
            lemma_literal(p, i + 1, e, s, k + 1);
            if literal_at(p, i + 1, e, s, k + 1) {
                assert(s.subrange(k, k + (e - i)) =~= p.subrange(i, e)) by {
                    assert forall|x: int| 0 <= x < e - i implies s.subrange(k, k + (e - i))[x]
                        == p.subrange(i, e)[x] by {
                        if x > 0 {
                            assert(s.subrange(k + 1, k + 1 + (e - i - 1))[x - 1] == p.subrange(
                                i + 1,
                                e,
                            )[x - 1]);
                        }
                    }
                }
            }
            if literal_at(p, i, e, s, k) {
                assert(s.subrange(k + 1, k + 1 + (e - i - 1)) =~= p.subrange(i + 1, e)) by {
                    assert forall|x: int| 0 <= x < e - i - 1 implies #[trigger] s.subrange(
                        k + 1,
                        k + 1 + (e - i - 1),
                    )[x] == p.subrange(i + 1, e)[x] by {
                        assert(s.subrange(k, k + (e - i))[x + 1] == p.subrange(i, e)[x + 1]);
                    }
                }
            }
        } else if literal_at(p, i, e, s, k) {
            assert(s.subrange(k, k + (e - i))[0] == p.subrange(i, e)[0]);
        }
    }
}

/// Behind a star, the name may be entered anywhere.
proof fn lemma_star(p: Seq<char>, i: int, s: Seq<char>, j: int, k: int)
    requires
        0 <= i < p.len(),
        p[i] == '*',
        0 <= j <= k <= s.len(),
        glob_at(p, i + 1, s, k),
    ensures
        glob_at(p, i, s, j),
    decreases k - j,
{
    if j < k {
        lemma_star(p, i, s, j + 1, k);
    }
}

proof fn lemma_star_inv(p: Seq<char>, i: int, s: Seq<char>, j: int) -> (k: int)
    requires
        0 <= i < p.len(),
        p[i] == '*',
        0 <= j <= s.len(),
        glob_at(p, i, s, j),
    ensures
        j <= k <= s.len(),
        glob_at(p, i + 1, s, k),
    decreases s.len() - j,
{
    if glob_at(p, i + 1, s, j) {
        j
    } else {
        lemma_star_inv(p, i, s, j + 1)
    }
}

/// What a star matches from later on, it matches from earlier on.
proof fn lemma_star_earlier(p: Seq<char>, i: int, s: Seq<char>, j: int, k: int)
    requires
        0 <= i < p.len(),
        p[i] == '*',
        0 <= j <= k <= s.len(),
        glob_at(p, i, s, k),
    ensures
        glob_at(p, i, s, j),
    decreases k - j,
{
    if j < k {
        lemma_star_earlier(p, i, s, j + 1, k);
    }
}

/// A star and a literal behind it match where the literal stands.
proof fn lemma_segment(p: Seq<char>, i: int, e: int, s: Seq<char>, j: int)
    requires
        0 <= i < e <= p.len(),
        p[i] == '*',
        forall|x: int| i < x < e ==> p[x] != '*',
        0 <= j <= s.len(),
    ensures
        glob_at(p, i, s, j) ==> exists|k: int|
            j <= k <= s.len() && #[trigger] literal_at(p, i + 1, e, s, k) && glob_at(
                p,
                e,
                s,
                k + (e - i - 1),
            ),
        forall|k: int|
            j <= k <= s.len() && #[trigger] literal_at(p, i + 1, e, s, k) && glob_at(
                p,
                e,
                s,
                k + (e - i - 1),
            ) ==> glob_at(p, i, s, j),
{
    if glob_at(p, i, s, j) {
        let k = lemma_star_inv(p, i, s, j);
        lemma_literal(p, i + 1, e, s, k);
        assert(literal_at(p, i + 1, e, s, k));
    }
    assert forall|k: int|
        j <= k <= s.len() && #[trigger] literal_at(p, i + 1, e, s, k) && glob_at(
            p,
            e,
            s,
            k + (e - i - 1),
        ) implies glob_at(p, i, s, j) by {
        lemma_literal(p, i + 1, e, s, k);
        lemma_star(p, i, s, j, k);
    }
}

fn literal_stands(p: &Vec<char>, i: usize, e: usize, s: &Vec<char>, k: usize) -> (r: bool)
    requires
        i <= e <= p.len(),
        k <= s.len(),
    ensures
        r == literal_at(p@, i as int, e as int, s@, k as int),
{
    if e - i > s.len() - k {
        return false;
    }
    let mut x: usize = 0;
    while x < e - i
        invariant
            i <= e <= p.len(),
            k + (e - i) <= s.len(),
            x <= e - i,
            forall|y: int|
                0 <= y < x ==> #[trigger] s@.subrange(k as int, k + (e - i))[y] == p@.subrange(
                    i as int,
                    e as int,
                )[y],
        decreases e - i - x,
    {
        assert(s@.subrange(k as int, k + (e - i))[x as int] == s@[k + x]);
        assert(p@.subrange(i as int, e as int)[x as int] == p@[i + x]);
        if s[k + x] != p[i + x] {
            return false;
        }
        x += 1;
    }
    assert(s@.subrange(k as int, k + (e - i)) =~= p@.subrange(i as int, e as int));
    true
}

/// The pattern matches the name. The empty pattern matches any name.
pub open spec fn matches(pattern: Seq<char>, name: Seq<char>) -> bool {
    pattern.len() == 0 || glob_at(pattern, 0, name, 0)
}

pub fn wildcard_match(pattern: &str, name: &str) -> (r: bool)
    ensures
        r == matches(pattern@, name@),
{
    let p = chars_of(pattern);
    let s = chars_of(name);
    if p.len() == 0 {
        return true;
    }
    let ghost want = glob_at(p@, 0, s@, 0);
    let mut i: usize = find_from(&p, '*', 0);
    proof {
        crate::text::lemma_index_of(p@, '*', 0);
        lemma_literal(p@, 0, i as int, s@, 0);
    }
    if !literal_stands(&p, 0, i, &s, 0) {
        return false;
    }
    let mut j: usize = i;
    while i < p.len()
        invariant
            i <= p.len(),
            j <= s.len(),
            i < p.len() ==> p@[i as int] == '*',
            want == glob_at(p@, i as int, s@, j as int),
            want == glob_at(pattern@, 0, name@, 0),
            p@ == pattern@,
            s@ == name@,
        decreases p.len() - i,
    {
        let e: usize = find_from(&p, '*', i + 1);
        let ghost n = e - i - 1;
        proof {
            crate::text::lemma_index_of(p@, '*', i + 1);
            lemma_segment(p@, i as int, e as int, s@, j as int);
        }
        if e == p.len() {
            // The last literal stands at the end of the name.
            let len: usize = e - i - 1;
            if len > s.len() - j {
                assert(!want) by {
                    if want {
                        let k = choose|k: int|
                            j <= k <= s@.len() && #[trigger] literal_at(
                                p@,
                                i + 1,
                                e as int,
                                s@,
                                k,
                            ) && glob_at(p@, e as int, s@, k + (e - i - 1));
                        assert(k + n == s@.len());
                    }
                }
                return false;
            }
            let at: usize = s.len() - len;
            let found = literal_stands(&p, i + 1, e, &s, at);
            proof {
                if want {
                    let k = choose|k: int|
                        j <= k <= s@.len() && #[trigger] literal_at(p@, i + 1, e as int, s@, k)
                            && glob_at(p@, e as int, s@, k + (e - i - 1));
                    assert(k + n == s@.len());
                }
                if found {
                    assert(glob_at(p@, e as int, s@, at + n));
                }
            }
            return found;
        }
        let mut k: usize = j;
        let mut found = literal_stands(&p, i + 1, e, &s, k);
        while !found && k < s.len()
            invariant
                j <= k <= s.len(),
                i + 1 <= e <= p.len(),
                found == literal_at(p@, i + 1, e as int, s@, k as int),
                forall|x: int|
                    j <= x < k ==> !(#[trigger] literal_at(p@, i + 1, e as int, s@, x)),
            decreases s.len() - k,
        {
            k += 1;
            found = literal_stands(&p, i + 1, e, &s, k);
        }
        if !found {
            return false;
        }
        proof {
            if want {
                let x = choose|x: int|
                    j <= x <= s@.len() && #[trigger] literal_at(p@, i + 1, e as int, s@, x)
                        && glob_at(p@, e as int, s@, x + (e - i - 1));
                assert(k <= x);
                lemma_star_earlier(p@, e as int, s@, k + n, x + n);
            }
            assert(literal_at(p@, i + 1, e as int, s@, k as int));
        }
        j = k + (e - i - 1);
        i = e;
    }
    j == s.len()
}

/// A star stands for any run of characters, the empty one too; a pattern without
/// one matches the text that it is.
pub proof fn law_star_stands_for_any_run(a: Seq<char>, b: Seq<char>, s: Seq<char>)
    requires
        !a.contains('*'),
        !b.contains('*'),
    ensures
        matches(a + "*"@ + b, s) <==> exists|m: Seq<char>| s == #[trigger] (a + m + b),
        a.len() > 0 ==> (matches(a, s) <==> s == a),
{
    reveal_strlit("*");
    let p = a + "*"@ + b;
    let n = a.len() as int;
    let e = p.len() as int;
    assert(p[n] == '*');
    assert forall|x: int| 0 <= x < n implies p[x] != '*' by {
        assert(p[x] == a[x]);
    }
    assert forall|x: int| n + 1 <= x < e implies p[x] != '*' by {
        assert(p[x] == b[x - n - 1]);
    }
    assert(p.subrange(0, n) =~= a);
    assert(p.subrange(n + 1, e) =~= b);
    lemma_literal(p, 0, n, s, 0);
    if matches(p, s) {
        let k = lemma_star_inv(p, n, s, n);
        lemma_literal(p, n + 1, e, s, k);
        let m = s.subrange(n, k);
        assert(k + b.len() == s.len());
        assert(s =~= s.subrange(0, n) + m + s.subrange(k, k + b.len()));
        assert(s == a + m + b);
    }
    if exists|m: Seq<char>| s == #[trigger] (a + m + b) {
        let m = choose|m: Seq<char>| s == #[trigger] (a + m + b);
        let k = n + m.len();
        assert(s.subrange(0, n) =~= a);
        assert(s.subrange(k, k + b.len()) =~= b);
        assert(literal_at(p, n + 1, e, s, k));
        lemma_literal(p, n + 1, e, s, k);
        lemma_star(p, n, s, n, k);
    }
    if a.len() > 0 {
        assert forall|x: int| 0 <= x < n implies a[x] != '*' by {}
        lemma_literal(a, 0, n, s, 0);
        assert(a.subrange(0, n) =~= a);
        if matches(a, s) {
            assert(s.subrange(0, n) =~= s);
        }
        if s == a {
            assert(s.subrange(0, n) =~= a.subrange(0, n));
        }
    }
}

} // verus!
