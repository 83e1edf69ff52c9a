//! The decisions of the `zion import` command, and which files an `include`
//! names.
use super::glob;
use super::glob::wildcard_match;
use super::report;
use super::report::report_text;
use super::ConvertError;
use crate::text;
use crate::text::{cat3, cat5, is_before, own, same};
use vstd::prelude::*;

verus! {

broadcast use crate::text::group_views;

// ── Arguments ───────────────────────────────────────────────────────────
/// What is wrong with the source that the command names.
pub open spec fn refusal_of(source: Seq<char>) -> Option<Seq<char>> {
    if source == "nginx"@ {
        None
    } else if source == ""@ {
        Some("usage: zion import nginx <path|-> [-o zion.toml] [--report file] [--strict]"@)
    } else {
        Some("zion import: unsupported source '"@ + source + "' (supported: nginx)"@)
    }
}

/// Why a source is refused; `None` where it can be converted.
pub fn source_refusal(source: &str) -> (r: Option<String>)
    ensures
        text::opt(r) == refusal_of(source@),
{
    if same(source, "nginx") {
        None
    } else if same(source, "") {
        Some(own("usage: zion import nginx <path|-> [-o zion.toml] [--report file] [--strict]"))
    } else {
        Some(cat3("zion import: unsupported source '", source, "' (supported: nginx)"))
    }
}

// ── Failures ────────────────────────────────────────────────────────────
/// What the operator reads where nothing is emitted.
pub open spec fn failure_of(input: Seq<char>, e: ConvertError) -> Seq<char> {
    match e {
        ConvertError::Parse(why) => "zion import: "@ + input + ": "@ + why@ + "\n"@,
        ConvertError::NoRoutes(findings) => report::report_of(text::views(findings@), true)
            + "zion import: no convertible routes — nothing emitted\n"@,
        ConvertError::Lookup { base, pattern } => "zion import: include "@ + pattern@ + " from "@
            + base@ + " was not looked up\n"@,
    }
}

pub fn failure_text(input: &str, e: &ConvertError) -> (r: String)
    ensures
        r@ == failure_of(input@, *e),
{
    match e {
        ConvertError::Parse(why) => cat5("zion import: ", input, ": ", why.as_str(), "\n"),
        ConvertError::NoRoutes(findings) => {
            let mut out = report_text(findings, true);
            out.append("zion import: no convertible routes — nothing emitted\n");
            out
        },
        ConvertError::Lookup { base, pattern } => cat5(
            "zion import: include ",
            pattern.as_str(),
            " from ",
            base.as_str(),
            " was not looked up\n",
        ),
    }
}

// ── Included files ──────────────────────────────────────────────────────
/// The names with one more, behind those that do not come after it.
pub open spec fn placed(s: Seq<Seq<char>>, x: Seq<char>) -> Seq<Seq<char>>
    decreases s.len(),
{
    if s.len() == 0 || !text::precedes(x, s.last()) {
        s.push(x)
    } else {
        placed(s.drop_last(), x).push(s.last())
    }
}

/// Those of the first `n` names that the pattern matches, in their order.
pub open spec fn selected(pattern: Seq<char>, names: Seq<Seq<char>>, n: nat) -> Seq<Seq<char>>
    decreases n,
{
    if n == 0 {
        seq![]
    } else {
        let before = selected(pattern, names, (n - 1) as nat);
        if glob::matches(pattern, names[n - 1]) {
            placed(before, names[n - 1])
        } else {
            before
        }
    }
}

proof fn lemma_placed_at(s: Seq<Seq<char>>, x: Seq<char>, k: int)
    requires
        0 <= k <= s.len(),
        k == 0 || !text::precedes(x, s[k - 1]),
        forall|j: int| k <= j < s.len() ==> text::precedes(x, #[trigger] s[j]),
    ensures
        placed(s, x) == s.insert(k, x),
    decreases s.len(),
{
    if k == s.len() {
        assert(s.insert(k, x) =~= s.push(x));
    } else {
        lemma_placed_at(s.drop_last(), x, k);
        assert(s.drop_last().insert(k, x).push(s.last()) =~= s.insert(k, x));
    }
}

/// The files of a directory that the last part of an `include` pattern names.
pub fn included_files(pattern: &str, names: Vec<String>) -> (r: Vec<String>)
    ensures
        text::views(r@) == selected(pattern@, text::views(names@), names@.len()),
{
    let ghost nv = text::views(names@);
    let mut out: Vec<String> = Vec::new();
    assert(text::views(out@) =~= seq![]);
    for x in it: names
        invariant
            it.seq() == names@,
            nv == text::views(names@),
            text::views(out@) == selected(pattern@, nv, it.index() as nat),
    {
        let ghost xv = x@;
        assert(nv[it.index() as int] == xv);
        if wildcard_match(pattern, x.as_str()) {
            let ghost before = text::views(out@);
            let mut k: usize = out.len();
            while k > 0 && is_before(x.as_str(), out[k - 1].as_str())
                invariant
                    k <= out.len(),
                    before == text::views(out@),
                    xv == x@,
                    forall|j: int|
                        k <= j < before.len() ==> text::precedes(xv, #[trigger] before[j]),
                decreases k,
            {
                assert(before[k - 1] == out@[k - 1]@);
                k -= 1;
            }
            proof {
                if k > 0 {
                    assert(before[k - 1] == out@[k - 1]@);
                }
                lemma_placed_at(before, xv, k as int);
            }
            out.insert(k, x);
            assert(text::views(out@) =~= before.insert(k as int, xv));
        }
    }
    out
}

// ── Laws ────────────────────────────────────────────────────────────────
/// No name comes before one that stands ahead of it.
pub open spec fn in_order(s: Seq<Seq<char>>) -> bool {
    forall|i: int, j: int|
        0 <= i < j < s.len() ==> !text::precedes(#[trigger] s[j], #[trigger] s[i])
}

proof fn lemma_placed(s: Seq<Seq<char>>, x: Seq<char>)
    requires
        in_order(s),
    ensures
        in_order(placed(s, x)),
        placed(s, x).len() == s.len() + 1,
        forall|y: Seq<char>| #[trigger] placed(s, x).contains(y) <==> s.contains(y) || y == x,
        s.len() > 0 ==> placed(s, x).last() == s.last() || placed(s, x).last() == x,
    decreases s.len(),
{
    let p = placed(s, x);
    if s.len() == 0 || !text::precedes(x, s.last()) {
        assert forall|i: int, j: int| 0 <= i < j < p.len() implies !text::precedes(
            #[trigger] p[j],
            #[trigger] p[i],
        ) by {
            if j < s.len() {
                assert(p[i] == s[i] && p[j] == s[j]);
            } else if i < s.len() - 1 {
                assert(!text::precedes(s[s.len() - 1], s[i]));
                text::lemma_order_transitive(s[i], s.last(), x, 0);
            }
        }
        assert forall|y: Seq<char>| #[trigger] p.contains(y) <==> s.contains(y) || y == x by {
            if s.contains(y) {
                let i = choose|i: int| 0 <= i < s.len() && s[i] == y;
                assert(p[i] == y);
            }
            if y == x {
                assert(p[s.len() as int] == y);
            }
        }
    } else {
        let t = s.drop_last();
        let q = placed(t, x);
        assert(in_order(t)) by {
            assert forall|i: int, j: int| 0 <= i < j < t.len() implies !text::precedes(
                #[trigger] t[j],
                #[trigger] t[i],
            ) by {
                assert(t[i] == s[i] && t[j] == s[j]);
            }
        }
        lemma_placed(t, x);
        text::lemma_order_asymmetric(x, s.last(), 0);
        assert forall|i: int, j: int| 0 <= i < j < p.len() implies !text::precedes(
            #[trigger] p[j],
            #[trigger] p[i],
        ) by {
            if j < q.len() {
                assert(p[i] == q[i] && p[j] == q[j]);
            } else {
                assert(q.contains(q[i]));
                if q[i] != x {
                    assert(t.contains(q[i]));
                    let k = choose|k: int| 0 <= k < t.len() && t[k] == q[i];
                    assert(s[k] == q[i]);
                    assert(!text::precedes(s[s.len() - 1], s[k]));
                }
            }
        }
        assert forall|y: Seq<char>| #[trigger] p.contains(y) <==> s.contains(y) || y == x by {
            if p.contains(y) {
                let i = choose|i: int| 0 <= i < p.len() && p[i] == y;
                if i < q.len() {
                    assert(q[i] == y);
                    assert(q.contains(y));
                    if y != x {
                        let k = choose|k: int| 0 <= k < t.len() && t[k] == y;
                        assert(s[k] == y);
                    }
                } else {
                    assert(s[s.len() - 1] == y);
                }
            }
            if s.contains(y) {
                let k = choose|k: int| 0 <= k < s.len() && s[k] == y;
                if k < t.len() {
                    assert(t[k] == y);
                    assert(q.contains(y));
                    let i = choose|i: int| 0 <= i < q.len() && q[i] == y;
                    assert(p[i] == y);
                } else {
                    assert(p[q.len() as int] == y);
                }
            }
            if y == x {
                assert(q.contains(y));
                let i = choose|i: int| 0 <= i < q.len() && q[i] == y;
                assert(p[i] == y);
            }
        }
    }
}

/// An `include` takes the files that its pattern matches and no others, in the
/// order of their names, whatever order the directory lists them in.
pub proof fn law_included_files_are_sorted(pattern: Seq<char>, names: Seq<Seq<char>>, n: nat)
    requires
        n <= names.len(),
    ensures
        in_order(selected(pattern, names, n)),
        forall|y: Seq<char>|
            #![trigger selected(pattern, names, n).contains(y)]
            selected(pattern, names, n).contains(y) <==> glob::matches(pattern, y) && exists|i: int|
                0 <= i < n && #[trigger] names[i] == y,
    decreases n,
{
    if n > 0 {
        let k = (n - 1) as nat;
        law_included_files_are_sorted(pattern, names, k);
        let before = selected(pattern, names, k);
        let after = selected(pattern, names, n);
        let x = names[k as int];
        lemma_placed(before, x);
        assert forall|y: Seq<char>| #![trigger after.contains(y)]
            after.contains(y) <==> glob::matches(pattern, y) && exists|i: int|
                0 <= i < n && #[trigger] names[i] == y by {
            assert(before.contains(y) <==> glob::matches(pattern, y) && exists|i: int|
                0 <= i < k && #[trigger] names[i] == y);
            if y == x {
                assert(names[k as int] == y);
            }
        }
    }
}

} // verus!
