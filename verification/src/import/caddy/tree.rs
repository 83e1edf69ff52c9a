//! Caddyfiles that are written read back as themselves.
use super::reader;
use super::reader::{FileV, SiteV, SnippetV, Token};
use crate::import::cursor;
use crate::import::nginx::{Dir, Fault};
use crate::import::tree;
use crate::text;
use crate::words;
use vstd::prelude::*;

verus! {

/// A text that needs no quotes to be read as one word.
pub open spec fn plain_word(w: Seq<char>) -> bool {
    &&& w.len() > 0
    &&& w[0] != '#'
    &&& forall|i: int|
        0 <= i < w.len() ==> !text::white(#[trigger] w[i]) && w[i] != '{' && w[i] != '}' && w[i]
            != '"' && w[i] != '`'
}

/// Directives as they are written, each on a line of its own: a name, its
/// arguments, and where it has one a block in braces.
pub open spec fn put(ds: Seq<Dir>) -> Seq<char>
    decreases ds,
{
    if ds.len() == 0 {
        seq![]
    } else {
        let d = ds[0];
        let rest = put(ds.subrange(1, ds.len() as int));
        match d.block {
            None => seq!['\n'] + d.name + tree::put_words(d.args) + rest,
            Some(b) => seq!['\n'] + d.name + tree::put_words(d.args) + seq![' ', '{'] + (put(b) + (
            seq!['\n', '}'] + rest)),
        }
    }
}

/// How many lines the directives take.
pub open spec fn height(ds: Seq<Dir>) -> nat
    decreases ds,
{
    if ds.len() == 0 {
        0
    } else {
        height(ds.subrange(1, ds.len() as int)) + (match ds[0].block {
            None => 1nat,
            Some(b) => height(b) + 2,
        })
    }
}

/// Directives of plain words that nest no deeper than is read, and whose lines
/// are those on which they stand, the first behind `line`.
pub open spec fn writable(ds: Seq<Dir>, line: int, depth: nat) -> bool
    decreases ds,
{
    &&& depth <= 64
    &&& ds.len() > 0 ==> {
        let d = ds[0];
        let rest = ds.subrange(1, ds.len() as int);
        &&& plain_word(d.name)
        &&& forall|i: int| 0 <= i < d.args.len() ==> plain_word(#[trigger] d.args[i])
        &&& d.line == line + 1
        &&& (match d.block {
            None => writable(rest, line + 1, depth),
            Some(b) => writable(b, line + 1, depth + 1) && writable(
                rest,
                line + 2 + height(b),
                depth,
            ),
        })
    }
}

// ── Reading ─────────────────────────────────────────────────────────────
proof fn lemma_bare(s: Seq<char>, i: int, e: int)
    requires
        0 <= i <= e < s.len(),
        forall|j: int| i <= j < e ==> !reader::ends_word(#[trigger] s[j]),
        text::white(s[e]),
    ensures
        reader::bare_end(s, i) == e,
    decreases e - i,
{
    if i < e {
        assert(!reader::ends_word(s[i]));
        lemma_bare(s, i + 1, e);
    }
}

/// A plain word with white space behind it is a token.
proof fn lemma_word(s: Seq<char>, p: int, w: Seq<char>)
    requires
        tree::at(s, p, w),
        plain_word(w),
        p + w.len() < s.len(),
        text::white(s[p + w.len()]),
    ensures
        s[p] == w[0],
        cursor::trivia_end(s, p) == p,
        reader::token_at(s, p) == Ok::<(Token, int), Seq<char>>((Token::Word(w), p + w.len())),
        forall|i: int| p <= i < p + w.len() ==> s[i] != '\n',
{
    let e = p + w.len();
    assert forall|j: int| p <= j < e implies !reader::ends_word(#[trigger] s[j]) && s[j] != '\n' by {
        assert(s.subrange(p, e)[j - p] == w[j - p]);
    }
    assert(s.subrange(p, e)[0] == w[0]);
    assert(!text::white(w[0]));
    lemma_bare(s, p, e);
}

/// White space before what is no trivia is skipped.
proof fn lemma_gap(s: Seq<char>, p: int)
    requires
        0 <= p,
        p + 1 < s.len(),
        text::white(s[p]),
        !text::white(s[p + 1]),
        s[p + 1] != '#',
    ensures
        cursor::trivia_end(s, p) == p + 1,
{
    reveal_with_fuel(cursor::trivia_end, 2);
}

/// The words of a line end where the next token is no word, or stands on
/// another line.
pub open spec fn line_ends(s: Seq<char>, q: int, line: int) -> bool {
    let c = cursor::trivia_end(s, q);
    &&& 0 <= q < s.len()
    &&& text::white(s[q])
    &&& reader::token_at(s, c) is Ok
    &&& ({
        let (t, e) = reader::token_at(s, c)->Ok_0;
        t is Word ==> cursor::line_at(s, c) != line
    })
}

proof fn lemma_args(s: Seq<char>, p: int, line: int, acc: Seq<Seq<char>>, args: Seq<Seq<char>>)
    requires
        tree::at(s, p, tree::put_words(args)),
        forall|i: int| 0 <= i < args.len() ==> plain_word(#[trigger] args[i]),
        cursor::line_at(s, p) == line,
        line_ends(s, p + tree::put_words(args).len(), line),
    ensures
        reader::words_on_line(s, p, line, acc) == Ok::<(Seq<Seq<char>>, int), Fault>(
            (acc + args, p + tree::put_words(args).len()),
        ),
        cursor::line_at(s, p + tree::put_words(args).len()) == line,
    decreases args.len(),
{
    if args.len() == 0 {
        assert(acc + args =~= acc);
    } else {
        let w = args[0];
        let rest = args.subrange(1, args.len() as int);
        assert(plain_word(w));
        assert forall|i: int| 0 <= i < rest.len() implies plain_word(#[trigger] rest[i]) by {
            assert(rest[i] == args[i + 1]);
        }
        let tail = tree::put_words(rest);
        assert(tree::put_words(args) =~= seq![' '] + (w + tail));
        tree::lemma_at(s, p, seq![' '], w + tail);
        tree::lemma_at(s, p + 1, w, tail);
        let e = p + 1 + w.len();
        if rest.len() > 0 {
            assert(tail[0] == ' ');
        }
        assert(text::white(s[e]));
        lemma_word(s, p + 1, w);
        assert(!text::white(w[0]));
        lemma_gap(s, p);
        tree::lemma_same_line(s, p, p + 1);
        tree::lemma_same_line(s, p, e);
        lemma_args(s, e, line, acc.push(w), rest);
        assert(acc.push(w) + rest =~= acc + args);
    }
}

/// What the text begins with: a new line, and on it a word or a closing brace.
proof fn lemma_start(s: Seq<char>, p: int, ds: Seq<Dir>, line: int, depth: nat)
    requires
        tree::at(s, p, put(ds) + seq!['\n', '}']),
        writable(ds, line, depth),
    ensures
        p + 1 < s.len(),
        s[p] == '\n',
        cursor::trivia_end(s, p) == p + 1,
        cursor::line_at(s, p + 1) == cursor::line_at(s, p) + 1,
        reader::token_at(s, p + 1) is Ok,
        ds.len() == 0 ==> reader::token_at(s, p + 1) == Ok::<(Token, int), Seq<char>>(
            (Token::Close, p + 2),
        ),
        ds.len() > 0 ==> reader::token_at(s, p + 1)->Ok_0.0 is Word,
{
    let t = put(ds) + seq!['\n', '}'];
    assert(s.subrange(p, p + t.len())[0] == t[0]);
    assert(s.subrange(p, p + t.len())[1] == t[1]);
    if ds.len() > 0 {
        let d = ds[0];
        assert(plain_word(d.name));
        assert(put(ds)[0] == '\n');
        assert(put(ds)[1] == d.name[0]);
        assert(!text::white(d.name[0]));
    } else {
        assert(t[0] == '\n');
        assert(t[1] == '}');
    }
    lemma_gap(s, p);
}

#[verifier::spinoff_prover]
#[verifier::rlimit(60)]
proof fn lemma_read(s: Seq<char>, p: int, ds: Seq<Dir>, line: int, depth: nat)
    requires
        tree::at(s, p, put(ds) + seq!['\n', '}']),
        writable(ds, line, depth),
        cursor::line_at(s, p) == line,
    ensures
        reader::block_from(s, p, depth) == Ok::<(Seq<Dir>, int), Fault>(
            (ds, p + put(ds).len() + 2),
        ),
        cursor::line_at(s, p + put(ds).len() + 2) == line + height(ds) + 1,
    decreases ds,
{
    let end = seq!['\n', '}'];
    lemma_start(s, p, ds, line, depth);
    if ds.len() == 0 {
        assert(ds =~= seq![]);
        assert(s[p + 1] == '}') by {
            assert(s.subrange(p, p + (put(ds) + end).len())[1] == (put(ds) + end)[1]);
        }
        tree::lemma_same_line(s, p + 1, p + 2);
    } else {
        let d = ds[0];
        let rest = ds.subrange(1, ds.len() as int);
        let ws = tree::put_words(d.args);
        let after = match d.block {
            None => put(rest) + end,
            Some(b) => seq![' ', '{'] + (put(b) + end + (put(rest) + end)),
        };
        assert(put(ds) + end =~= seq!['\n'] + (d.name + (ws + after)));
        tree::lemma_at(s, p, seq!['\n'], d.name + (ws + after));
        tree::lemma_at(s, p + 1, d.name, ws + after);
        let e = p + 1 + d.name.len();
        tree::lemma_at(s, e, ws, after);
        let q = e + ws.len();
        assert(text::white(s[e])) by {
            if d.args.len() > 0 {
                assert(ws[0] == ' ');
            } else if d.block is None {
                if rest.len() > 0 {
                    assert(put(rest)[0] == '\n');
                }
                assert(after[0] == '\n');
            }
        }
        lemma_word(s, p + 1, d.name);
        tree::lemma_same_line(s, p + 1, e);
        match d.block {
            None => {
                lemma_start(s, q, rest, line + 1, depth);
                lemma_line_of_words(s, e, d.args);
                lemma_args(s, e, line + 1, seq![], d.args);
                lemma_read(s, q, rest, line + 1, depth);
            },
            Some(b) => {
                let inner = put(b) + end;
                tree::lemma_at(s, q, seq![' ', '{'], inner + (put(rest) + end));
                tree::lemma_at(s, q + 2, inner, put(rest) + end);
                lemma_start(s, q + 2, b, line + 1, depth + 1);
                assert(s.subrange(q, q + 2)[1] == seq![' ', '{'][1]);
                assert(s[q + 1] == '{');
                lemma_gap(s, q);
                lemma_line_of_words(s, e, d.args);
                lemma_args(s, e, line + 1, seq![], d.args);
                tree::lemma_same_line(s, q, q + 2);
                lemma_read(s, q + 2, b, line + 1, depth + 1);
                lemma_read(s, q + 2 + inner.len(), rest, line + 2 + height(b), depth);
            },
        }
        assert(Seq::<Seq<char>>::empty() + d.args =~= d.args);
        assert(seq![d] + rest =~= ds);
    }
}

/// No line ends within words.
proof fn lemma_line_of_words(s: Seq<char>, p: int, args: Seq<Seq<char>>)
    requires
        tree::at(s, p, tree::put_words(args)),
        forall|i: int| 0 <= i < args.len() ==> plain_word(#[trigger] args[i]),
    ensures
        cursor::line_at(s, p + tree::put_words(args).len()) == cursor::line_at(s, p),
    decreases args.len(),
{
    if args.len() > 0 {
        let w = args[0];
        let rest = args.subrange(1, args.len() as int);
        let tail = tree::put_words(rest);
        assert(plain_word(w));
        assert forall|i: int| 0 <= i < rest.len() implies plain_word(#[trigger] rest[i]) by {
            assert(rest[i] == args[i + 1]);
        }
        assert(tree::put_words(args) =~= seq![' '] + (w + tail));
        tree::lemma_at(s, p, seq![' '], w + tail);
        tree::lemma_at(s, p + 1, w, tail);
        let e = p + 1 + w.len();
        assert forall|i: int| p <= i < e implies s[i] != '\n' by {
            if i > p {
                assert(s.subrange(p + 1, e)[i - p - 1] == w[i - p - 1]);
                assert(!text::white(w[i - p - 1]));
            }
        }
        tree::lemma_same_line(s, p, e);
        lemma_line_of_words(s, e, rest);
    }
}

/// The body of a block reads back as it was written: every directive, in order,
/// with its arguments, its line, and its block with all that is nested in it.
pub proof fn law_block_reads_back(a: Seq<char>, ds: Seq<Dir>, b: Seq<char>, depth: nat)
    requires
        writable(ds, cursor::line_at(a, a.len() as int), depth),
    ensures
        reader::block_from(a + put(ds) + seq!['\n', '}'] + b, a.len() as int, depth) == Ok::<
            (Seq<Dir>, int),
            Fault,
        >((ds, (a.len() + put(ds).len() + 2) as int)),
{
    let s = a + put(ds) + seq!['\n', '}'] + b;
    let n = a.len() as int;
    let t = put(ds) + seq!['\n', '}'];
    assert(s.subrange(n, n + t.len()) =~= t);
    lemma_line_in_front(a, s, n);
    lemma_read(s, n, ds, cursor::line_at(a, n), depth);
}

proof fn lemma_line_in_front(a: Seq<char>, s: Seq<char>, p: int)
    requires
        0 <= p <= a.len() <= s.len(),
        forall|i: int| 0 <= i < a.len() ==> a[i] == s[i],
    ensures
        cursor::line_at(a, p) == cursor::line_at(s, p),
    decreases p,
{
    if p > 0 {
        lemma_line_in_front(a, s, p - 1);
    }
}

// ── Files ───────────────────────────────────────────────────────────────
proof fn lemma_one_address(w: Seq<char>)
    requires
        plain_word(w),
        !w.contains(','),
    ensures
        reader::addresses_of(seq![w], 1) == seq![w],
{
    let heads = seq![w];
    words::lemma_untrimmed(w);
    text::lemma_index_of(w, ',', 0);
    assert(w.subrange(0, w.len() as int) =~= w);
    assert(text::split_of(w, ',') =~= seq![w]);
    assert(reader::addresses_of(heads, 0) =~= seq![]);
    let parts = text::split_of(w, ',');
    reveal_with_fuel(reader::nonempty_parts, 2);
    reveal_with_fuel(reader::addresses_of, 2);
    assert(reader::nonempty_parts(seq![], parts, 1) =~= seq![w]);
}

/// A file with one site is that site: its address, and its body.
pub proof fn law_site_reads_back(address: Seq<char>, ds: Seq<Dir>)
    requires
        plain_word(address),
        !address.contains(','),
        address[0] != '(',
        writable(ds, 1, 0),
    ensures
        reader::parse_of(address + seq![' ', '{'] + put(ds) + seq!['\n', '}']) == Ok::<FileV, Fault>(
            FileV {
                global: seq![],
                snippets: seq![],
                sites: seq![SiteV { addresses: seq![address], body: ds, line: 1 }],
            },
        ),
{
    lemma_file(address, ds);
    lemma_one_address(address);
    assert(reader::empty_file().sites.push(
        SiteV { addresses: seq![address], body: ds, line: 1 },
    ) =~= seq![SiteV { addresses: seq![address], body: ds, line: 1 }]);
}

/// A file with one snippet is that snippet: its name, and its body.
pub proof fn law_snippet_reads_back(name: Seq<char>, ds: Seq<Dir>)
    requires
        plain_word(seq!['('] + name + seq![')']),
        writable(ds, 1, 0),
    ensures
        reader::parse_of(seq!['('] + name + seq![')'] + seq![' ', '{'] + put(ds) + seq!['\n', '}'])
            == Ok::<FileV, Fault>(
            FileV {
                global: seq![],
                snippets: seq![SnippetV { name, body: ds }],
                sites: seq![],
            },
        ),
{
    let w = seq!['('] + name + seq![')'];
    lemma_file(w, ds);
    assert(w.subrange(1, w.len() - 1) =~= name);
    assert(reader::empty_file().snippets.push(SnippetV { name, body: ds }) =~= seq![
        SnippetV { name, body: ds },
    ]);
}

#[verifier::spinoff_prover]
#[verifier::rlimit(40)]
proof fn lemma_file(w: Seq<char>, ds: Seq<Dir>)
    requires
        plain_word(w),
        writable(ds, 1, 0),
    ensures
        reader::parse_of(w + seq![' ', '{'] + put(ds) + seq!['\n', '}']) == Ok::<FileV, Fault>(
            reader::with_block(reader::empty_file(), seq![w], ds, 1),
        ),
{
    let s = w + seq![' ', '{'] + put(ds) + seq!['\n', '}'];
    let n = w.len() as int;
    let t = put(ds) + seq!['\n', '}'];
    assert(s.subrange(0, n) =~= w);
    assert(s[n] == ' ' && s[n + 1] == '{');
    assert(s.subrange(n + 2, n + 2 + t.len()) =~= t);
    lemma_word(s, 0, w);
    lemma_gap(s, n);
    lemma_start(s, n + 2, ds, 1, 0);
    tree::lemma_same_line(s, 0, n + 2);
    lemma_read(s, n + 2, ds, 1, 0);
    let f = reader::empty_file();
    assert(reader::token_at(s, n + 1) == Ok::<(Token, int), Seq<char>>((Token::Open, n + 2)));
    assert(reader::words_from(s, n, seq![w]) == Ok::<(Seq<Seq<char>>, int), Fault>((seq![w], n)));
    assert(Seq::<Seq<char>>::empty().push(w) =~= seq![w]);
    assert(reader::words_from(s, 0, seq![]) == Ok::<(Seq<Seq<char>>, int), Fault>((seq![w], n)));
    let e = n + 2 + t.len();
    assert(e == s.len());
    let g = reader::with_block(f, seq![w], ds, 1);
    assert(cursor::trivia_end(s, e) == e);
    assert(reader::sites_from(s, e, g) == Ok::<FileV, Fault>(g));
    assert(reader::sites_from(s, 0, f) == reader::sites_from(s, e, g));
}

/// Commas separate the addresses of a heading.
pub proof fn law_commas_separate_addresses(a: Seq<char>, b: Seq<char>)
    requires
        plain_word(a),
        plain_word(b),
        !a.contains(','),
        !b.contains(','),
    ensures
        reader::addresses_of(seq![a + seq![','] + b], 1) == seq![a, b],
        reader::addresses_of(seq![a + seq![','], b], 2) == seq![a, b],
        reader::addresses_of(seq![a, b], 2) == seq![a, b],
{
    lemma_split_two(a, b);
    lemma_split_two(a, seq![]);
    lemma_split_one(a);
    lemma_split_one(b);
    lemma_split_one(seq![]);
    words::lemma_untrimmed(a);
    words::lemma_untrimmed(b);
    words::law_trim(seq![]);
    let none = Seq::<char>::empty();
    assert(text::trim_of(none).len() == 0);
    reveal_with_fuel(reader::nonempty_parts, 3);
    reveal_with_fuel(reader::addresses_of, 3);
    let nil = Seq::<Seq<char>>::empty();
    assert(nil.push(a) =~= seq![a]);
    assert(nil.push(a).push(b) =~= seq![a, b]);
    assert(a + seq![','] + none =~= a + seq![',']);
    assert(reader::nonempty_parts(nil, seq![a, b], 2) == seq![a, b]);
    assert(reader::nonempty_parts(nil, seq![a, none], 2) == seq![a]);
    assert(reader::nonempty_parts(nil, seq![a], 1) == seq![a]);
    assert(reader::nonempty_parts(seq![a], seq![b], 1) =~= seq![a, b]);
    assert(reader::addresses_of(seq![a + seq![',']], 1) == seq![a]);
    assert(reader::addresses_of(seq![a + seq![','], b], 1) == seq![a]);
    assert(reader::addresses_of(seq![a, b], 1) == seq![a]);
}

proof fn lemma_split_one(a: Seq<char>)
    requires
        !a.contains(','),
    ensures
        text::split_of(a, ',') == seq![a],
{
    text::lemma_index_of(a, ',', 0);
    assert(a.subrange(0, a.len() as int) =~= a);
    assert(text::split_of(a, ',') =~= seq![a]);
}

proof fn lemma_split_two(a: Seq<char>, b: Seq<char>)
    requires
        !a.contains(','),
        !b.contains(','),
    ensures
        text::split_of(a + seq![','] + b, ',') == seq![a, b],
{
    let s = a + seq![','] + b;
    let n = a.len() as int;
    text::lemma_index_of(s, ',', 0);
    text::lemma_index_of(s, ',', n + 1);
    assert(s[n] == ',');
    let i = text::index_of(s, ',', 0);
    if i < n {
        assert(a[i] == s[i]);
    }
    let j = text::index_of(s, ',', n + 1);
    if j < s.len() {
        assert(b[j - n - 1] == s[j]);
    }
    assert(s.subrange(0, n) =~= a);
    assert(s.subrange(n + 1, s.len() as int) =~= b);
    reveal_with_fuel(text::split_from, 2);
    assert(text::split_of(s, ',') =~= seq![a, b]);
}

// ── Quotes ──────────────────────────────────────────────────────────────
/// A text as it stands between quotes: a backslash before each quote and each
/// backslash, and letters for the ends of lines and tabs.
pub open spec fn escaped(w: Seq<char>) -> Seq<char>
    decreases w.len(),
{
    if w.len() == 0 {
        seq![]
    } else {
        let rest = escaped(w.subrange(1, w.len() as int));
        if w[0] == '"' || w[0] == '\\' {
            seq!['\\', w[0]] + rest
        } else if w[0] == '\n' {
            seq!['\\', 'n'] + rest
        } else if w[0] == '\t' {
            seq!['\\', 't'] + rest
        } else {
            seq![w[0]] + rest
        }
    }
}

proof fn lemma_string(s: Seq<char>, p: int, w: Seq<char>, acc: Seq<char>)
    requires
        tree::at(s, p, escaped(w) + seq!['"']),
    ensures
        reader::string_from(s, p, '"', acc) == Ok::<(Seq<char>, int), Seq<char>>(
            (acc + w, p + escaped(w).len() + 1),
        ),
    decreases w.len(),
{
    if w.len() == 0 {
        assert(escaped(w) + seq!['"'] =~= seq!['"'] + Seq::<char>::empty());
        tree::lemma_at(s, p, seq!['"'], seq![]);
        assert(acc + w =~= acc);
    } else {
        let rest = w.subrange(1, w.len() as int);
        let tail = escaped(rest) + seq!['"'];
        let c = w[0];
        if c == '"' || c == '\\' || c == '\n' || c == '\t' {
            let x = if c == '\n' {
                'n'
            } else if c == '\t' {
                't'
            } else {
                c
            };
            assert(escaped(w) + seq!['"'] =~= seq!['\\'] + (seq![x] + tail));
            tree::lemma_at(s, p, seq!['\\'], seq![x] + tail);
            tree::lemma_at(s, p + 1, seq![x], tail);
            lemma_string(s, p + 2, rest, acc.push(c));
        } else {
            assert(escaped(w) + seq!['"'] =~= seq![c] + tail);
            tree::lemma_at(s, p, seq![c], tail);
            lemma_string(s, p + 1, rest, acc.push(c));
        }
        assert(acc.push(c) + rest =~= acc + w);
    }
}

/// A text between quotes is one word, whatever it holds.
pub proof fn law_quoted_text_is_one_word(a: Seq<char>, w: Seq<char>, b: Seq<char>)
    ensures
        reader::token_at(a + seq!['"'] + escaped(w) + seq!['"'] + b, a.len() as int) == Ok::<
            (Token, int),
            Seq<char>,
        >((Token::Word(w), (a.len() + escaped(w).len() + 2) as int)),
{
    let s = a + seq!['"'] + escaped(w) + seq!['"'] + b;
    let n = a.len() as int;
    let t = escaped(w) + seq!['"'];
    assert(s[n] == '"');
    assert(s.subrange(n + 1, n + 1 + t.len()) =~= t);
    lemma_string(s, n + 1, w, seq![]);
    assert(Seq::<char>::empty() + w =~= w);
}

} // verus!
