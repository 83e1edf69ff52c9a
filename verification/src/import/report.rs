//! The conversion report.
use super::{Finding, Note, Status};
use crate::text;
use crate::text::{cat2, chars_of, dec_text, own};
use vstd::prelude::*;

verus! {

broadcast use crate::text::group_views;

// ── Order ───────────────────────────────────────────────────────────────
/// A note at its place among notes in the order of their lines, behind those
/// of the same line.
pub open spec fn inserted(s: Seq<Note>, x: Note) -> Seq<Note>
    decreases s.len(),
{
    if s.len() == 0 || s.last().line <= x.line {
        s.push(x)
    } else {
        inserted(s.drop_last(), x).push(s.last())
    }
}

pub open spec fn sorted_n(notes: Seq<Note>, n: nat) -> Seq<Note>
    decreases n,
{
    if n == 0 {
        seq![]
    } else {
        inserted(sorted_n(notes, (n - 1) as nat), notes[n - 1])
    }
}

/// The notes in the order of their lines; those of one line stay in the order
/// in which they were filed.
pub open spec fn sorted_by_line(notes: Seq<Note>) -> Seq<Note> {
    sorted_n(notes, notes.len())
}

proof fn lemma_inserted(s: Seq<Note>, x: Note, k: int)
    requires
        0 <= k <= s.len(),
        k == 0 || s[k - 1].line <= x.line,
        forall|j: int| k <= j < s.len() ==> (#[trigger] s[j]).line > x.line,
    ensures
        inserted(s, x) == s.insert(k, x),
    decreases s.len(),
{
    if k == s.len() {
        assert(s.insert(k, x) =~= s.push(x));
    } else {
        lemma_inserted(s.drop_last(), x, k);
        assert(s.drop_last().insert(k, x).push(s.last()) =~= s.insert(k, x));
    }
}

pub fn sort_by_line(findings: Vec<Finding>) -> (r: Vec<Finding>)
    ensures
        text::views(r@) == sorted_by_line(text::views(findings@)),
{
    let ghost fv = text::views(findings@);
    let mut out: Vec<Finding> = Vec::new();
    assert(text::views(out@) =~= seq![]);
    for f in it: findings
        invariant
            it.seq() == findings@,
            fv == text::views(findings@),
            text::views(out@) == sorted_n(fv, it.index() as nat),
    {
        assert(fv[it.index() as int] == f@);
        let ghost before = text::views(out@);
        let mut k: usize = out.len();
        while k > 0 && out[k - 1].line > f.line
            invariant
                k <= out.len(),
                before == text::views(out@),
                forall|j: int| k <= j < before.len() ==> (#[trigger] before[j]).line > f.line,
            decreases k,
        {
            assert(before[k - 1] == out@[k - 1]@);
            k -= 1;
        }
        proof {
            assert(k > 0 ==> before[k - 1] == out@[k - 1]@);
            lemma_inserted(before, f@, k as int);
        }
        let ghost fx = f@;
        out.insert(k, f);
        assert(text::views(out@) =~= before.insert(k as int, fx));
    }
    out
}

/// Whether the lines of the notes do not fall.
pub open spec fn in_line_order(notes: Seq<Note>) -> bool {
    forall|i: int, j: int|
        0 <= i < j < notes.len() ==> (#[trigger] notes[i]).line <= (#[trigger] notes[j]).line
}

/// The notes on one line, in their order.
pub open spec fn on_line(notes: Seq<Note>, line: int) -> Seq<Note>
    decreases notes.len(),
{
    if notes.len() == 0 {
        seq![]
    } else {
        let p = on_line(notes.drop_last(), line);
        if notes.last().line == line {
            p.push(notes.last())
        } else {
            p
        }
    }
}

proof fn lemma_inserted_order(s: Seq<Note>, x: Note)
    requires
        in_line_order(s),
    ensures
        in_line_order(inserted(s, x)),
        inserted(s, x).len() == s.len() + 1,
        inserted(s, x).to_multiset() == s.to_multiset().insert(x),
        s.len() > 0 ==> inserted(s, x).last().line >= s.last().line,
        inserted(s, x).last().line >= x.line,
        forall|line: int|
            #[trigger] on_line(inserted(s, x), line) == (if x.line == line {
                on_line(s, line).push(x)
            } else {
                on_line(s, line)
            }),
    decreases s.len(),
{
    broadcast use vstd::seq_lib::group_to_multiset_ensures;

    if s.len() == 0 || s.last().line <= x.line {
        assert(s.push(x).drop_last() =~= s);
        assert forall|i: int, j: int| 0 <= i < j < s.push(x).len() implies (
        #[trigger] s.push(x)[i]).line <= (#[trigger] s.push(x)[j]).line by {
            if j < s.len() {
                assert(s[i].line <= s[j].line);
            } else if i < s.len() - 1 {
                assert(s[i].line <= s[s.len() - 1].line);
            }
        }
    } else {
        let t = s.drop_last();
        let y = s.last();
        assert(in_line_order(t)) by {
            assert forall|i: int, j: int| 0 <= i < j < t.len() implies (#[trigger] t[i]).line <= (
            #[trigger] t[j]).line by {
                assert(s[i].line <= s[j].line);
            }
        }
        lemma_inserted_order(t, x);
        let u = inserted(t, x);
        let v = u.push(y);
        assert(v.drop_last() =~= u);
        assert(t.push(y) =~= s);
        assert(u.last().line <= y.line) by {
            lemma_inserted_bound(t, x, y.line);
        }
        assert forall|i: int, j: int| 0 <= i < j < v.len() implies (#[trigger] v[i]).line <= (
        #[trigger] v[j]).line by {
            if j < u.len() {
                assert(u[i].line <= u[j].line);
            } else if i < u.len() - 1 {
                assert(u[i].line <= u[u.len() - 1].line);
            }
        }
        assert(v.to_multiset() =~= u.to_multiset().insert(y));
        assert(s.to_multiset() =~= t.to_multiset().insert(y));
        assert(t.to_multiset().insert(x).insert(y) =~= t.to_multiset().insert(y).insert(x));
        assert forall|line: int| #[trigger]
            on_line(v, line) == (if x.line == line {
                on_line(s, line).push(x)
            } else {
                on_line(s, line)
            }) by {
            assert(on_line(u, line) == (if x.line == line {
                on_line(t, line).push(x)
            } else {
                on_line(t, line)
            }));
        }
    }
}

proof fn lemma_inserted_bound(t: Seq<Note>, x: Note, bound: int)
    requires
        x.line <= bound,
        forall|i: int| 0 <= i < t.len() ==> (#[trigger] t[i]).line <= bound,
    ensures
        inserted(t, x).len() > 0,
        inserted(t, x).last().line <= bound,
    decreases t.len(),
{
    if t.len() > 0 && t.last().line > x.line {
        lemma_inserted_bound(t.drop_last(), x, bound);
    }
}

proof fn lemma_sorted_n(notes: Seq<Note>, n: nat)
    requires
        n <= notes.len(),
    ensures
        in_line_order(sorted_n(notes, n)),
        sorted_n(notes, n).to_multiset() == notes.take(n as int).to_multiset(),
        forall|line: int| #[trigger]
            on_line(sorted_n(notes, n), line) == on_line(notes.take(n as int), line),
    decreases n,
{
    broadcast use vstd::seq_lib::group_to_multiset_ensures;

    if n == 0 {
        assert(sorted_n(notes, n) =~= notes.take(0));
    } else {
        let m = (n - 1) as nat;
        lemma_sorted_n(notes, m);
        lemma_inserted_order(sorted_n(notes, m), notes[n - 1]);
        assert(notes.take(n as int).drop_last() =~= notes.take(m as int));
        assert(notes.take(m as int).push(notes[n - 1]) =~= notes.take(n as int));
        assert forall|line: int| #[trigger]
            on_line(sorted_n(notes, n), line) == on_line(notes.take(n as int), line) by {
            assert(on_line(sorted_n(notes, m), line) == on_line(notes.take(m as int), line));
        }
    }
}

/// The report is in the order of the source lines, holds exactly the notes that
/// were filed, and keeps the notes on one line in the order of filing.
pub proof fn law_report_is_in_line_order(notes: Seq<Note>)
    ensures
        in_line_order(sorted_by_line(notes)),
        sorted_by_line(notes).to_multiset() == notes.to_multiset(),
        forall|line: int| #[trigger] on_line(sorted_by_line(notes), line) == on_line(notes, line),
{
    lemma_sorted_n(notes, notes.len());
    assert(notes.take(notes.len() as int) =~= notes);
}

// ── Text ────────────────────────────────────────────────────────────────
/// `n` blanks.
pub open spec fn blanks(n: int) -> Seq<char> {
    if n <= 0 {
        seq![]
    } else {
        Seq::new(n as nat, |i: int| ' ')
    }
}

/// The text with blanks before it, to at least the width.
pub open spec fn pad_left(s: Seq<char>, width: int) -> Seq<char> {
    blanks(width - s.len()) + s
}

/// The text with blanks behind it, to at least the width.
pub open spec fn pad_right(s: Seq<char>, width: int) -> Seq<char> {
    s + blanks(width - s.len())
}

fn push_blanks(out: &mut String, n: usize)
    ensures
        final(out)@ == old(out)@ + blanks(n as int),
{
    let mut i: usize = 0;
    assert(out@ =~= old(out)@ + blanks(0));
    while i < n
        invariant
            i <= n,
            out@ == old(out)@ + blanks(i as int),
        decreases n - i,
    {
        out.push(' ');
        assert(out@ =~= old(out)@ + blanks(i + 1));
        i += 1;
    }
}

fn padded_left(s: &str, width: usize) -> (r: String)
    ensures
        r@ == pad_left(s@, width as int),
{
    let n: usize = chars_of(s).len();
    let mut out = String::new();
    if n < width {
        push_blanks(&mut out, width - n);
    }
    out.append(s);
    assert(out@ =~= pad_left(s@, width as int));
    out
}

fn padded_right(s: &str, width: usize) -> (r: String)
    ensures
        r@ == pad_right(s@, width as int),
{
    let n: usize = chars_of(s).len();
    let mut out = own(s);
    if n < width {
        push_blanks(&mut out, width - n);
    }
    assert(out@ =~= pad_right(s@, width as int));
    out
}

/// A row of the report: line, status, directive and detail in columns.
pub open spec fn row(line: Seq<char>, status: Seq<char>, directive: Seq<char>, detail: Seq<char>) -> Seq<
    char,
> {
    pad_left(line, 5) + "  "@ + pad_right(status, 11) + "  "@ + pad_right(directive, 22) + "  "@
        + detail
}

fn row_text(line: &str, status: &str, directive: &str, detail: &str) -> (r: String)
    ensures
        r@ == row(line@, status@, directive@, detail@),
{
    let l = padded_left(line, 5);
    let s = padded_right(status, 11);
    let d = padded_right(directive, 22);
    text::cat7(l.as_str(), "  ", s.as_str(), "  ", d.as_str(), "  ", detail)
}

pub open spec fn note_text(n: Note) -> Seq<char> {
    row(text::dec(n.line as nat), super::label_of(n.status), n.directive, n.detail)
}

impl Finding {
    /// The finding as a row of the report.
    pub fn to_text(&self) -> (r: String)
        ensures
            r@ == note_text(self@),
    {
        row_text(
            dec_text(self.line as u64).as_str(),
            self.status.label(),
            self.directive.as_str(),
            self.detail.as_str(),
        )
    }
}

/// How many of the first `n` notes have the status.
pub open spec fn count_status(notes: Seq<Note>, n: nat, status: Status) -> nat
    decreases n,
{
    if n == 0 {
        0
    } else {
        count_status(notes, (n - 1) as nat, status) + (if notes[n - 1].status == status {
            1nat
        } else {
            0nat
        })
    }
}

fn count(findings: &Vec<Finding>, status: Status) -> (r: usize)
    ensures
        r == count_status(text::views(findings@), findings@.len(), status),
{
    let ghost fv = text::views(findings@);
    let mut i: usize = 0;
    let mut n: usize = 0;
    while i < findings.len()
        invariant
            n <= i <= findings.len(),
            fv == text::views(findings@),
            n == count_status(fv, i as nat, status),
        decreases findings.len() - i,
    {
        assert(fv[i as int] == findings@[i as int]@);
        if findings[i].status == status {
            n += 1;
        }
        i += 1;
    }
    n
}

/// A finding that needs a human.
pub open spec fn needs_eyes(s: Status) -> bool {
    s == Status::Partial || s == Status::Unsupported
}

/// The rows of the first `n` notes; in the short report only those that need a
/// human.
pub open spec fn rows(notes: Seq<Note>, n: nat, full: bool) -> Seq<char>
    decreases n,
{
    if n == 0 {
        seq![]
    } else {
        let p = rows(notes, (n - 1) as nat, full);
        if full || needs_eyes(notes[n - 1].status) {
            p + note_text(notes[n - 1]) + "\n"@
        } else {
            p
        }
    }
}

pub open spec fn any_needs_eyes(notes: Seq<Note>) -> bool {
    exists|i: int| 0 <= i < notes.len() && needs_eyes((#[trigger] notes[i]).status)
}

/// The findings report: the counts, then the rows under a heading, if there are any.
pub open spec fn report_of(notes: Seq<Note>, full: bool) -> Seq<char> {
    let n = notes.len();
    let head = "zion import nginx: "@ + text::dec(n) + " findings — "@ + text::dec(
        count_status(notes, n, Status::Convert),
    ) + " convert, "@ + text::dec(count_status(notes, n, Status::Partial)) + " partial, "@
        + text::dec(count_status(notes, n, Status::Auto)) + " auto, "@ + text::dec(
        count_status(notes, n, Status::Unsupported),
    ) + " unsupported\n"@;
    if (full && n > 0) || any_needs_eyes(notes) {
        head + row("line"@, "status"@, "directive"@, "detail"@) + "\n"@ + rows(notes, n, full)
    } else {
        head
    }
}

fn has_needs_eyes(findings: &Vec<Finding>) -> (r: bool)
    ensures
        r == any_needs_eyes(text::views(findings@)),
{
    let ghost fv = text::views(findings@);
    let mut i: usize = 0;
    while i < findings.len()
        invariant
            i <= findings.len(),
            fv == text::views(findings@),
            forall|j: int| 0 <= j < i ==> !needs_eyes((#[trigger] fv[j]).status),
        decreases findings.len() - i,
    {
        assert(fv[i as int] == findings@[i as int]@);
        if findings[i].status == Status::Partial || findings[i].status == Status::Unsupported {
            return true;
        }
        i += 1;
    }
    false
}

/// Renders the findings report. The full one holds every finding, the short
/// one only what needs a human (partial and unsupported), plus the counts.
pub fn report_text(findings: &Vec<Finding>, full: bool) -> (r: String)
    ensures
        r@ == report_of(text::views(findings@), full),
{
    let ghost fv = text::views(findings@);
    let mut out = own("zion import nginx: ");
    out.append(dec_text(findings.len() as u64).as_str());
    out.append(" findings — ");
    out.append(dec_text(count(findings, Status::Convert) as u64).as_str());
    out.append(" convert, ");
    out.append(dec_text(count(findings, Status::Partial) as u64).as_str());
    out.append(" partial, ");
    out.append(dec_text(count(findings, Status::Auto) as u64).as_str());
    out.append(" auto, ");
    out.append(dec_text(count(findings, Status::Unsupported) as u64).as_str());
    out.append(" unsupported\n");
    let eyes = has_needs_eyes(findings);
    if (full && findings.len() > 0) || eyes {
        out.append(row_text("line", "status", "directive", "detail").as_str());
        out.append("\n");
        let ghost head = out@;
        let mut i: usize = 0;
        assert(out@ =~= head + rows(fv, 0, full));
        while i < findings.len()
            invariant
                i <= findings.len(),
                fv == text::views(findings@),
                out@ == head + rows(fv, i as nat, full),
            decreases findings.len() - i,
        {
            let f: &Finding = &findings[i];
            assert(fv[i as int] == f@);
            if full || f.status == Status::Partial || f.status == Status::Unsupported {
                let line = cat2(f.to_text().as_str(), "\n");
                out.append(line.as_str());
                assert(out@ =~= head + rows(fv, (i + 1) as nat, full));
            }
            i += 1;
        }
    }
    out
}

/// The exit code of a conversion that succeeded: 2 with `--strict` when a
/// finding needs a human, 0 otherwise.
pub fn exit_code(findings: &Vec<Finding>, strict: bool) -> (r: i32)
    ensures
        r == (if strict && any_needs_eyes(text::views(findings@)) {
            2i32
        } else {
            0i32
        }),
{
    if strict && has_needs_eyes(findings) {
        2
    } else {
        0
    }
}

} // verus!
