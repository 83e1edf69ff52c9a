//! Splicing included files into the directive tree.
//!
//! Reading files is the caller's part: what was looked up is handed in as a
//! table, and the result says what to look up next.
use super::nginx;
use super::nginx::{Dir, Directive};
use crate::text;
use crate::text::{cat4, own, same};
use vstd::prelude::*;

verus! {

broadcast use {crate::text::group_views, nginx::lemma_dir_view};

/// A file that an `include` pattern names.
#[derive(Debug)]
pub struct IncludedFile {
    /// The file, as it is shown to the operator.
    pub path: String,
    /// The directory it lies in, from which its own includes are looked up.
    pub dir: String,
    /// Its content, or why it could not be read.
    pub source: Result<String, String>,
}

/// The files that a pattern names, seen from a directory; none, if the pattern
/// could not be resolved.
#[derive(Debug)]
pub struct Included {
    pub base: String,
    pub pattern: String,
    pub files: Vec<IncludedFile>,
}

#[verifier::ext_equal]
pub struct IncludedFileV {
    pub path: Seq<char>,
    pub dir: Seq<char>,
    pub source: Result<Seq<char>, Seq<char>>,
}

#[verifier::ext_equal]
pub struct IncludedV {
    pub base: Seq<char>,
    pub pattern: Seq<char>,
    pub files: Seq<IncludedFileV>,
}

impl View for IncludedFile {
    type V = IncludedFileV;

    open spec fn view(&self) -> IncludedFileV {
        IncludedFileV {
            path: self.path@,
            dir: self.dir@,
            source: match self.source {
                Ok(s) => Ok(s@),
                Err(e) => Err(e@),
            },
        }
    }
}

impl View for Included {
    type V = IncludedV;

    open spec fn view(&self) -> IncludedV {
        IncludedV {
            base: self.base@,
            pattern: self.pattern@,
            files: text::views(self.files@),
        }
    }
}

/// Why a tree could not be resolved.
#[derive(Debug)]
pub enum Need {
    /// These files are to be looked up first.
    Lookup { base: String, pattern: String },
    /// It cannot be resolved.
    Fail(String),
}

pub enum NeedV {
    Lookup(Seq<char>, Seq<char>),
    Fail(Seq<char>),
}

impl View for Need {
    type V = NeedV;

    open spec fn view(&self) -> NeedV {
        match self {
            Need::Lookup { base, pattern } => NeedV::Lookup(base@, pattern@),
            Need::Fail(msg) => NeedV::Fail(msg@),
        }
    }
}

/// Every file of the table can be parsed (line numbers fit).
pub open spec fn table_fits(table: Seq<IncludedV>) -> bool {
    forall|i: int, j: int|
        0 <= i < table.len() && 0 <= j < table[i].files.len() ==> file_fits(
            #[trigger] table[i].files[j],
        )
}

pub open spec fn file_fits(f: IncludedFileV) -> bool {
    match f.source {
        Ok(s) => s.len() < u32::MAX,
        Err(_) => true,
    }
}

pub const MAX_INCLUDE_DEPTH: u32 = 16;

/// A directive that includes files: `include <pattern>;`
pub open spec fn includes_files(d: Dir) -> bool {
    d.name == "include"@ && d.block is None && d.args.len() == 1
}

/// Where the table has the pattern, from `i` on.
pub open spec fn entry_index(table: Seq<IncludedV>, base: Seq<char>, pattern: Seq<char>, i: nat) -> nat
    decreases table.len() - i,
{
    if i >= table.len() || (table[i as int].base == base && table[i as int].pattern == pattern) {
        i
    } else {
        entry_index(table, base, pattern, i + 1)
    }
}

/// The directives of the first `k` files, each resolved from its own directory.
pub open spec fn files_of(
    files: Seq<IncludedFileV>,
    k: nat,
    table: Seq<IncludedV>,
    depth: nat,
) -> Result<Seq<Dir>, NeedV>
    decreases MAX_INCLUDE_DEPTH + 1 - depth, 0int, Seq::<Dir>::empty(), k,
{
    if k == 0 || depth > MAX_INCLUDE_DEPTH {
        Ok(seq![])
    } else {
        let f = files[k - 1];
        match files_of(files, (k - 1) as nat, table, depth) {
            Err(e) => Err(e),
            Ok(before) => match f.source {
                Err(why) => Err(NeedV::Fail("include "@ + f.path + ": "@ + why)),
                Ok(src) => match nginx::parse_of(src) {
                    Err(e) => Err(
                        NeedV::Fail("include "@ + f.path + ": "@ + nginx::fault_text(e)),
                    ),
                    Ok(ds) => match resolve_of(ds, ds.len(), f.dir, table, depth + 1) {
                        Err(e) => Err(e),
                        Ok(more) => Ok(before + more),
                    },
                },
            },
        }
    }
}

/// The first `n` directives with included files in the place of the directives
/// that include them. A pattern that names no file stays in the tree.
pub open spec fn resolve_of(
    items: Seq<Dir>,
    n: nat,
    base: Seq<char>,
    table: Seq<IncludedV>,
    depth: nat,
) -> Result<Seq<Dir>, NeedV>
    decreases MAX_INCLUDE_DEPTH + 1 - depth, 1int, items, n,
{
    if depth > MAX_INCLUDE_DEPTH {
        Err(NeedV::Fail("includes nested too deeply (cycle?)"@))
    } else if n == 0 || n > items.len() {
        Ok(seq![])
    } else {
        let d = items[n - 1];
        match resolve_of(items, (n - 1) as nat, base, table, depth) {
            Err(e) => Err(e),
            Ok(before) => if includes_files(d) {
                let i = entry_index(table, base, d.args[0], 0);
                if i >= table.len() {
                    Err(NeedV::Lookup(base, d.args[0]))
                } else if table[i as int].files.len() == 0 {
                    Ok(before.push(d))
                } else {
                    match files_of(
                        table[i as int].files,
                        table[i as int].files.len(),
                        table,
                        depth,
                    ) {
                        Err(e) => Err(e),
                        Ok(more) => Ok(before + more),
                    }
                }
            } else if d.block is Some {
                match resolve_of(d.block->0, d.block->0.len(), base, table, depth) {
                    Err(e) => Err(e),
                    Ok(ds) => Ok(before.push(Dir { block: Some(ds), ..d })),
                }
            } else {
                Ok(before.push(d))
            },
        }
    }
}

/// The resolution stops at the first directive that cannot be resolved.
proof fn lemma_resolve_stops(
    items: Seq<Dir>,
    k: nat,
    n: nat,
    base: Seq<char>,
    table: Seq<IncludedV>,
    depth: nat,
)
    requires
        k <= n <= items.len(),
        resolve_of(items, k, base, table, depth) is Err,
    ensures
        resolve_of(items, n, base, table, depth) == resolve_of(items, k, base, table, depth),
    decreases n - k,
{
    if k < n {
        lemma_resolve_stops(items, k, (n - 1) as nat, base, table, depth);
    }
}

proof fn lemma_files_stop(
    files: Seq<IncludedFileV>,
    k: nat,
    n: nat,
    table: Seq<IncludedV>,
    depth: nat,
)
    requires
        k <= n <= files.len(),
        depth <= MAX_INCLUDE_DEPTH,
        files_of(files, k, table, depth) is Err,
    ensures
        files_of(files, n, table, depth) == files_of(files, k, table, depth),
    decreases n - k,
{
    if k < n {
        lemma_files_stop(files, k, (n - 1) as nat, table, depth);
    }
}

fn find_entry(table: &Vec<Included>, base: &str, pattern: &str) -> (r: usize)
    ensures
        r == entry_index(text::views(table@), base@, pattern@, 0),
        r <= table.len(),
{
    let ghost tv = text::views(table@);
    let mut i: usize = 0;
    while i < table.len()
        invariant
            i <= table.len(),
            tv == text::views(table@),
            entry_index(tv, base@, pattern@, 0) == entry_index(tv, base@, pattern@, i as nat),
        decreases table.len() - i,
    {
        assert(tv[i as int] == table@[i as int]@);
        if same(table[i].base.as_str(), base) && same(table[i].pattern.as_str(), pattern) {
            return i;
        }
        i += 1;
    }
    i
}

fn resolve_files(files: &Vec<IncludedFile>, table: &Vec<Included>, depth: u32) -> (r: Result<
    Vec<Directive>,
    Need,
>)
    requires
        depth <= MAX_INCLUDE_DEPTH,
        table_fits(text::views(table@)),
        forall|j: int| 0 <= j < files@.len() ==> file_fits(#[trigger] text::views(files@)[j]),
    ensures
        match files_of(text::views(files@), files@.len(), text::views(table@), depth as nat) {
            Ok(ds) => r matches Ok(v) && text::views(v@) == ds,
            Err(e) => r matches Err(n) && n@ == e,
        },
    decreases MAX_INCLUDE_DEPTH + 1 - depth, 0int, Seq::<Directive>::empty(),
{
    let ghost fv = text::views(files@);
    let ghost tv = text::views(table@);
    let mut out: Vec<Directive> = Vec::new();
    let mut k: usize = 0;
    assert(text::views(out@) =~= seq![]);
    while k < files.len()
        invariant
            k <= files.len(),
            depth <= MAX_INCLUDE_DEPTH,
            fv == text::views(files@),
            tv == text::views(table@),
            table_fits(tv),
            forall|j: int| 0 <= j < fv.len() ==> file_fits(#[trigger] fv[j]),
            files_of(fv, k as nat, tv, depth as nat) == Ok::<Seq<Dir>, NeedV>(
                text::views(out@),
            ),
        decreases files.len() - k,
    {
        let f: &IncludedFile = &files[k];
        assert(fv[k as int] == f@);
        assert(file_fits(fv[k as int]));
        let ghost done = files_of(fv, (k + 1) as nat, tv, depth as nat);
        proof {
            if done is Err {
                lemma_files_stop(fv, (k + 1) as nat, fv.len(), tv, depth as nat);
            }
        }
        let src: &String = match &f.source {
            Ok(s) => s,
            Err(why) => {
                return Err(
                    Need::Fail(cat4("include ", f.path.as_str(), ": ", why.as_str())),
                );
            },
        };
        let ds = match nginx::parse(src.as_str()) {
            Ok(ds) => ds,
            Err(e) => {
                return Err(
                    Need::Fail(cat4("include ", f.path.as_str(), ": ", e.to_text().as_str())),
                );
            },
        };
        match resolve_includes(ds, f.dir.as_str(), table, depth + 1) {
            Ok(mut more) => {
                out.append(&mut more);
            },
            Err(e) => {
                return Err(e);
            },
        }
        k += 1;
    }
    Ok(out)
}

/// Splices included files into the tree.
pub fn resolve_includes(items: Vec<Directive>, base: &str, table: &Vec<Included>, depth: u32) -> (r:
    Result<Vec<Directive>, Need>)
    requires
        depth <= MAX_INCLUDE_DEPTH + 1,
        table_fits(text::views(table@)),
    ensures
        match resolve_of(
            text::views(items@),
            items@.len(),
            base@,
            text::views(table@),
            depth as nat,
        ) {
            Ok(ds) => r matches Ok(v) && text::views(v@) == ds,
            Err(e) => r matches Err(n) && n@ == e,
        },
    decreases MAX_INCLUDE_DEPTH + 1 - depth, 1int, items@,
{
    if depth > MAX_INCLUDE_DEPTH {
        return Err(Need::Fail(own("includes nested too deeply (cycle?)")));
    }
    let ghost iv = text::views(items@);
    let ghost tv = text::views(table@);
    let mut out: Vec<Directive> = Vec::new();
    assert(text::views(out@) =~= seq![]);
    for d in it: items
        invariant
            it.seq() == items@,
            iv == text::views(items@),
            tv == text::views(table@),
            table_fits(tv),
            depth <= MAX_INCLUDE_DEPTH,
            resolve_of(iv, it.index() as nat, base@, tv, depth as nat) == Ok::<Seq<Dir>, NeedV>(
                text::views(out@),
            ),
    {
        let ghost k = it.index() as nat;
        assert(d == items@[k as int]);
        assert(iv[k as int] == d@);
        let ghost done = resolve_of(iv, k + 1, base@, tv, depth as nat);
        proof {
            if done is Err {
                lemma_resolve_stops(iv, k + 1, iv.len(), base@, tv, depth as nat);
            }
        }
        if same(d.name.as_str(), "include") && d.block.is_none() && d.args.len() == 1 {
            let pattern: &str = d.args[0].as_str();
            assert(d@.args[0] == pattern@);
            let i: usize = find_entry(table, base, pattern);
            if i >= table.len() {
                return Err(Need::Lookup { base: own(base), pattern: own(pattern) });
            }
            assert(tv[i as int] == table@[i as int]@);
            if table[i].files.len() == 0 {
                out.push(d);
            } else {
                assert forall|j: int| 0 <= j < table@[i as int].files@.len() implies file_fits(
                    #[trigger] text::views(table@[i as int].files@)[j],
                ) by {
                    assert(file_fits(tv[i as int].files[j]));
                }
                match resolve_files(&table[i].files, table, depth) {
                    Ok(mut more) => {
                        out.append(&mut more);
                    },
                    Err(e) => {
                        return Err(e);
                    },
                }
            }
        } else {
            let ghost dv = d@;
            let name = d.name;
            let args = d.args;
            let line: u32 = d.line;
            let block = match d.block {
                Some(b) => match resolve_includes(b, base, table, depth) {
                    Ok(ds) => Some(ds),
                    Err(e) => {
                        return Err(e);
                    },
                },
                None => None,
            };
            let nd = Directive { name, args, block, line };
            proof {
                nginx::lemma_dir_view(nd);
                assert(nd@ == (Dir { block: nd@.block, ..dv }));
            }
            out.push(nd);
        }
    }
    Ok(out)
}

// ── Laws ────────────────────────────────────────────────────────────────
proof fn lemma_entry_absent(table: Seq<IncludedV>, base: Seq<char>, pattern: Seq<char>, i: nat)
    requires
        entry_index(table, base, pattern, i) >= table.len(),
    ensures
        forall|j: int|
            i <= j < table.len() ==> !((#[trigger] table[j]).base == base && table[j].pattern
                == pattern),
    decreases table.len() - i,
{
    if i < table.len() {
        lemma_entry_absent(table, base, pattern, i + 1);
    }
}

proof fn lemma_files_ask(
    files: Seq<IncludedFileV>,
    k: nat,
    table: Seq<IncludedV>,
    depth: nat,
    base: Seq<char>,
    pattern: Seq<char>,
)
    requires
        files_of(files, k, table, depth) == Err::<Seq<Dir>, NeedV>(NeedV::Lookup(base, pattern)),
    ensures
        entry_index(table, base, pattern, 0) >= table.len(),
    decreases MAX_INCLUDE_DEPTH + 1 - depth, 0int, Seq::<Dir>::empty(), k,
{
    if k > 0 && depth <= MAX_INCLUDE_DEPTH {
        if files_of(files, (k - 1) as nat, table, depth) is Err {
            lemma_files_ask(files, (k - 1) as nat, table, depth, base, pattern);
        } else {
            let f = files[k - 1];
            let ds = nginx::parse_of(f.source->Ok_0)->Ok_0;
            lemma_tree_asks(ds, ds.len(), f.dir, table, depth + 1, base, pattern);
        }
    }
}

proof fn lemma_tree_asks(
    items: Seq<Dir>,
    n: nat,
    dir: Seq<char>,
    table: Seq<IncludedV>,
    depth: nat,
    base: Seq<char>,
    pattern: Seq<char>,
)
    requires
        resolve_of(items, n, dir, table, depth) == Err::<Seq<Dir>, NeedV>(
            NeedV::Lookup(base, pattern),
        ),
    ensures
        entry_index(table, base, pattern, 0) >= table.len(),
    decreases MAX_INCLUDE_DEPTH + 1 - depth, 1int, items, n,
{
    if depth <= MAX_INCLUDE_DEPTH && n > 0 && n <= items.len() {
        let d = items[n - 1];
        if resolve_of(items, (n - 1) as nat, dir, table, depth) is Err {
            lemma_tree_asks(items, (n - 1) as nat, dir, table, depth, base, pattern);
        } else if includes_files(d) {
            let i = entry_index(table, dir, d.args[0], 0);
            if i < table.len() && table[i as int].files.len() > 0 {
                let files = table[i as int].files;
                lemma_files_ask(files, files.len(), table, depth, base, pattern);
            }
        } else if d.block is Some {
            lemma_tree_asks(d.block->0, d.block->0.len(), dir, table, depth, base, pattern);
        }
    }
}

/// What is to be looked up was not looked up before: no pattern is asked for
/// twice.
pub proof fn law_no_pattern_is_asked_twice(
    items: Seq<Dir>,
    dir: Seq<char>,
    table: Seq<IncludedV>,
    base: Seq<char>,
    pattern: Seq<char>,
)
    requires
        resolve_of(items, items.len(), dir, table, 0) == Err::<Seq<Dir>, NeedV>(
            NeedV::Lookup(base, pattern),
        ),
    ensures
        forall|j: int|
            0 <= j < table.len() ==> !((#[trigger] table[j]).base == base && table[j].pattern
                == pattern),
{
    lemma_tree_asks(items, items.len(), dir, table, 0, base, pattern);
    lemma_entry_absent(table, base, pattern, 0);
}

proof fn lemma_resolve_front(
    items: Seq<Dir>,
    d: Dir,
    n: nat,
    base: Seq<char>,
    table: Seq<IncludedV>,
    depth: nat,
)
    requires
        n <= items.len(),
    ensures
        resolve_of(items.push(d), n, base, table, depth) == resolve_of(items, n, base, table, depth),
    decreases n,
{
    if n > 0 {
        lemma_resolve_front(items, d, (n - 1) as nat, base, table, depth);
        assert(items.push(d)[n - 1] == items[n - 1]);
    }
}

/// A directive that includes nothing stands behind what comes before it; one that
/// includes files gives way to the directives of all of them, in their order.
pub proof fn law_included_files_stand_in_place(
    items: Seq<Dir>,
    d: Dir,
    base: Seq<char>,
    table: Seq<IncludedV>,
    depth: nat,
    i: int,
)
    requires
        depth <= MAX_INCLUDE_DEPTH,
        resolve_of(items, items.len(), base, table, depth) is Ok,
    ensures
        ({
            let before = resolve_of(items, items.len(), base, table, depth)->Ok_0;
            let all = resolve_of(items.push(d), items.len() + 1, base, table, depth);
            &&& d.name != "include"@ && d.block is None ==> all == Ok::<_, NeedV>(before.push(d))
            &&& d.name == "include"@ && d.block is None && d.args.len() == 1 && 0 <= i < table.len()
                && table[i].base == base && table[i].pattern == d.args[0] && (forall|j: int|
                0 <= j < i ==> !((#[trigger] table[j]).base == base && table[j].pattern
                    == d.args[0])) && table[i].files.len() > 0 ==> (match files_of(
                table[i].files,
                table[i].files.len(),
                table,
                depth,
            ) {
                Ok(more) => all == Ok::<_, NeedV>(before + more),
                Err(e) => all == Err::<Seq<Dir>, _>(e),
            })
        }),
{
    lemma_resolve_front(items, d, items.len(), base, table, depth);
    assert(items.push(d)[items.len() as int] == d);
    if 0 <= i < table.len() && d.args.len() == 1 && table[i].base == base && table[i].pattern
        == d.args[0] && (forall|j: int|
        0 <= j < i ==> !((#[trigger] table[j]).base == base && table[j].pattern == d.args[0])) {
        lemma_entry_index(table, base, d.args[0], i, 0);
    }
}

proof fn lemma_entry_index(
    table: Seq<IncludedV>,
    base: Seq<char>,
    pattern: Seq<char>,
    i: int,
    from: nat,
)
    requires
        from <= i < table.len(),
        table[i].base == base,
        table[i].pattern == pattern,
        forall|j: int|
            from <= j < i ==> !((#[trigger] table[j]).base == base && table[j].pattern == pattern),
    ensures
        entry_index(table, base, pattern, from) == i,
    decreases i - from,
{
    if from < i {
        assert(!(table[from as int].base == base && table[from as int].pattern == pattern));
        lemma_entry_index(table, base, pattern, i, from + 1);
    }
}

/// The directives of several files are those of each, in the order of the files.
pub proof fn law_files_follow_each_other(
    files: Seq<IncludedFileV>,
    k: nat,
    table: Seq<IncludedV>,
    depth: nat,
)
    requires
        0 < k <= files.len(),
        depth <= MAX_INCLUDE_DEPTH,
        files_of(files, k, table, depth) is Ok,
    ensures
        exists|before: Seq<Dir>, ds: Seq<Dir>, more: Seq<Dir>|
            {
                &&& files_of(files, (k - 1) as nat, table, depth) == Ok::<_, NeedV>(before)
                &&& files[k - 1].source matches Ok(src) && nginx::parse_of(src) == Ok::<_, nginx::Fault>(
                    ds,
                )
                &&& resolve_of(ds, ds.len(), files[k - 1].dir, table, depth + 1) == Ok::<_, NeedV>(
                    more,
                )
                &&& files_of(files, k, table, depth)->Ok_0 == #[trigger] (before + more)
                &&& #[trigger] ds.len() >= 0
            },
{
    let before = files_of(files, (k - 1) as nat, table, depth)->Ok_0;
    let src = files[k - 1].source->Ok_0;
    let ds = nginx::parse_of(src)->Ok_0;
    let more = resolve_of(ds, ds.len(), files[k - 1].dir, table, depth + 1)->Ok_0;
    assert(files_of(files, k, table, depth)->Ok_0 == before + more);
    assert(ds.len() >= 0);
}

} // verus!
