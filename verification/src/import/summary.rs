//! What the report says of the findings as a whole.
use super::report;
use super::{Note, Status};
use crate::text;
use crate::words;
use vstd::prelude::*;

verus! {

/// How many of the notes have the status.
pub open spec fn tally(notes: Seq<Note>, status: Status) -> nat {
    notes.filter(|n: Note| n.status == status).len()
}

proof fn lemma_tally(notes: Seq<Note>, n: nat, status: Status)
    requires
        n <= notes.len(),
    ensures
        report::count_status(notes, n, status) == tally(notes.take(n as int), status),
    decreases n,
{
    reveal(Seq::filter);
    if n > 0 {
        let k = (n - 1) as nat;
        lemma_tally(notes, k, status);
        assert(notes.take(n as int).drop_last() =~= notes.take(k as int));
        assert(notes.take(n as int).last() == notes[k as int]);
    }
}

/// The report begins with how many findings there are, and how many of each
/// status.
pub proof fn law_report_counts_the_findings(notes: Seq<Note>, full: bool)
    ensures
        words::lines_at(
            report::report_of(notes, full),
            "zion import nginx: "@ + text::dec(notes.len()) + " findings — "@ + text::dec(
                tally(notes, Status::Convert),
            ) + " convert, "@ + text::dec(tally(notes, Status::Partial)) + " partial, "@ + text::dec(
                tally(notes, Status::Auto),
            ) + " auto, "@ + text::dec(tally(notes, Status::Unsupported)) + " unsupported\n"@,
            0,
        ),
{
    assert(notes.take(notes.len() as int) =~= notes);
    lemma_tally(notes, notes.len(), Status::Convert);
    lemma_tally(notes, notes.len(), Status::Partial);
    lemma_tally(notes, notes.len(), Status::Auto);
    lemma_tally(notes, notes.len(), Status::Unsupported);
    let head = "zion import nginx: "@ + text::dec(notes.len()) + " findings — "@ + text::dec(
        tally(notes, Status::Convert),
    ) + " convert, "@ + text::dec(tally(notes, Status::Partial)) + " partial, "@ + text::dec(
        tally(notes, Status::Auto),
    ) + " auto, "@ + text::dec(tally(notes, Status::Unsupported)) + " unsupported\n"@;
    let t = report::report_of(notes, full);
    assert(t.subrange(0, head.len() as int) =~= head);
}

/// A finding that needs a human is partial or unsupported, and the short report
/// has rows where there is one.
pub proof fn law_what_needs_a_human_is_known(notes: Seq<Note>, i: int)
    requires
        0 <= i < notes.len(),
    ensures
        notes[i].status == Status::Partial || notes[i].status == Status::Unsupported
            ==> report::any_needs_eyes(notes),
        report::any_needs_eyes(notes) ==> exists|j: int|
            0 <= j < notes.len() && ((#[trigger] notes[j]).status == Status::Partial || notes[j].status
                == Status::Unsupported),
{
    assert(report::needs_eyes(notes[i].status) ==> report::any_needs_eyes(notes));
}

// ── Rows ────────────────────────────────────────────────────────────────
/// The word by which a finding's status is told.
pub open spec fn told(status: Status) -> Seq<char> {
    if status == Status::Convert {
        "convert"@
    } else if status == Status::Partial {
        "partial"@
    } else if status == Status::Auto {
        "auto"@
    } else {
        "unsupported"@
    }
}

/// A line that tells a finding: its line, its status, its directive and its
/// detail, with room between them.
pub open spec fn tells(l: Seq<char>, n: Note) -> bool {
    exists|a: Seq<char>, b: Seq<char>, c: Seq<char>|
        words::blank(a) && words::blank(b) && words::blank(c) && b.len() >= 2 && c.len() >= 2 && l
            == #[trigger] (a + text::dec(n.line as nat) + "  "@ + told(n.status) + b + n.directive
            + c + n.detail + "\n"@)
}

proof fn lemma_note_text(n: Note)
    ensures
        tells(report::note_text(n) + "\n"@, n),
{
    reveal_strlit("  ");
    let line = text::dec(n.line as nat);
    let label = told(n.status);
    assert(label == super::label_of(n.status));
    let a = report::blanks(5 - line.len());
    let b = report::blanks(11 - label.len()) + "  "@;
    let c = report::blanks(22 - n.directive.len()) + "  "@;
    assert(words::blank(a) && words::blank(b) && words::blank(c));
    let l = a + line + "  "@ + label + b + n.directive + c + n.detail + "\n"@;
    assert(report::note_text(n) + "\n"@ =~= l);
}

/// The rows hold that of the finding, where a line begins.
proof fn lemma_rows(notes: Seq<Note>, n: nat, full: bool, i: int)
    requires
        0 <= i < n <= notes.len(),
        full || report::needs_eyes(notes[i].status),
    ensures
        report::rows(notes, n, full).len() == 0 || report::rows(notes, n, full).last() == '\n',
        words::has_lines(report::rows(notes, n, full), report::note_text(notes[i]) + "\n"@),
    decreases n,
{
    reveal_strlit("\n");
    let k = (n - 1) as nat;
    let p = report::rows(notes, k, full);
    let l = report::note_text(notes[k as int]) + "\n"@;
    lemma_rows_end(notes, k, full);
    if i == k {
        words::lemma_lines_between(p, l, seq![]);
        assert(p + l + Seq::<char>::empty() =~= report::rows(notes, n, full));
    } else {
        lemma_rows(notes, k, full, i);
        if full || report::needs_eyes(notes[k as int].status) {
            words::lemma_lines_stay(p, report::note_text(notes[i]) + "\n"@, l);
            assert(p + l =~= report::rows(notes, n, full));
        }
    }
    lemma_rows_end(notes, n, full);
}

proof fn lemma_rows_end(notes: Seq<Note>, n: nat, full: bool)
    requires
        n <= notes.len(),
    ensures
        report::rows(notes, n, full).len() == 0 || report::rows(notes, n, full).last() == '\n',
    decreases n,
{
    reveal_strlit("\n");
    if n > 0 {
        lemma_rows_end(notes, (n - 1) as nat, full);
    }
}

/// The full report tells every finding, and the short one every finding that is
/// partial or unsupported.
pub proof fn law_report_tells_the_finding(notes: Seq<Note>, full: bool, i: int)
    requires
        0 <= i < notes.len(),
        full || notes[i].status == Status::Partial || notes[i].status == Status::Unsupported,
    ensures
        exists|l: Seq<char>|
            #[trigger] words::has_lines(report::report_of(notes, full), l) && tells(l, notes[i]),
{
    let n = notes.len();
    lemma_rows(notes, n, full, i);
    lemma_note_text(notes[i]);
    let l = report::note_text(notes[i]) + "\n"@;
    assert(!full ==> report::needs_eyes(notes[i].status));
    assert(report::needs_eyes(notes[i].status) ==> report::any_needs_eyes(notes));
    let rows = report::rows(notes, n, full);
    let t = report::report_of(notes, full);
    let head = t.subrange(0, t.len() - rows.len());
    reveal_strlit("\n");
    assert(t =~= head + rows);
    assert(head.last() == '\n');
    lemma_lines_behind(head, rows, l);
}

proof fn lemma_lines_behind(a: Seq<char>, t: Seq<char>, l: Seq<char>)
    requires
        a.len() > 0,
        a.last() == '\n',
        words::has_lines(t, l),
    ensures
        words::has_lines(a + t, l),
{
    reveal(words::has_lines);
    let i = choose|i: int| words::lines_at(t, l, i);
    let n = a.len() as int;
    assert((a + t).subrange(n + i, n + i + l.len()) =~= t.subrange(i, i + l.len()));
    assert(words::lines_at(a + t, l, n + i));
}

/// The notes that are partial or unsupported.
pub open spec fn open_ends(notes: Seq<Note>) -> Seq<Note> {
    notes.filter(|n: Note| n.status == Status::Partial || n.status == Status::Unsupported)
}

/// The short report has the rows that the full report has of the findings that
/// are partial or unsupported, and no others.
pub proof fn law_short_report_is_that_of_the_open_ends(notes: Seq<Note>, n: nat)
    requires
        n <= notes.len(),
    ensures
        report::rows(notes, n, false) == report::rows(
            open_ends(notes.take(n as int)),
            open_ends(notes.take(n as int)).len(),
            true,
        ),
    decreases n,
{
    reveal(Seq::filter);
    if n > 0 {
        let k = (n - 1) as nat;
        law_short_report_is_that_of_the_open_ends(notes, k);
        let last = notes[k as int];
        assert(notes.take(n as int).drop_last() =~= notes.take(k as int));
        assert(notes.take(n as int).last() == last);
        let before = open_ends(notes.take(k as int));
        let after = open_ends(notes.take(n as int));
        if last.status == Status::Partial || last.status == Status::Unsupported {
            assert(after == before.push(last));
            lemma_rows_front(before, last, before.len());
        } else {
            assert(after == before);
        }
    }
}

proof fn lemma_rows_front(notes: Seq<Note>, x: Note, n: nat)
    requires
        n <= notes.len(),
    ensures
        report::rows(notes.push(x), n, true) == report::rows(notes, n, true),
    decreases n,
{
    if n > 0 {
        lemma_rows_front(notes, x, (n - 1) as nat);
        assert(notes.push(x)[n - 1] == notes[n - 1]);
    }
}

} // verus!
