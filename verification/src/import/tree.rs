//! Configurations that are written read back as themselves.
use super::cursor;
use super::nginx;
use super::nginx::{Dir, Fault, Token};
use crate::text;
use vstd::prelude::*;

verus! {

// ── Places ──────────────────────────────────────────────────────────────
/// The text `t` stands at `p`.
pub open spec fn at(s: Seq<char>, p: int, t: Seq<char>) -> bool {
    0 <= p && p + t.len() <= s.len() && s.subrange(p, p + t.len()) == t
}

pub proof fn lemma_at(s: Seq<char>, p: int, a: Seq<char>, b: Seq<char>)
    requires
        at(s, p, a + b),
    ensures
        at(s, p, a),
        at(s, p + a.len(), b),
        a.len() > 0 ==> s[p] == a[0],
        b.len() > 0 ==> s[p + a.len()] == b[0],
{
    let t = s.subrange(p, p + (a + b).len());
    assert(s.subrange(p, p + a.len()) =~= a) by {
        assert forall|i: int| 0 <= i < a.len() implies s.subrange(p, p + a.len())[i] == a[i] by {
            assert(t[i] == (a + b)[i]);
        }
    }
    assert(s.subrange(p + a.len(), p + a.len() + b.len()) =~= b) by {
        assert forall|i: int| 0 <= i < b.len() implies s.subrange(
            p + a.len(),
            p + a.len() + b.len(),
        )[i] == b[i] by {
            assert(t[a.len() + i] == (a + b)[a.len() + i]);
        }
    }
    if a.len() > 0 {
        assert(t[0] == (a + b)[0]);
    }
    if b.len() > 0 {
        assert(t[a.len() as int] == (a + b)[a.len() as int]);
    }
}

/// Two places have the same line where no line ends between them.
pub proof fn lemma_same_line(s: Seq<char>, p: int, q: int)
    requires
        0 <= p <= q <= s.len(),
        forall|i: int| p <= i < q ==> s[i] != '\n',
    ensures
        cursor::line_at(s, q) == cursor::line_at(s, p),
    decreases q - p,
{
    if p < q {
        lemma_same_line(s, p, q - 1);
    }
}

// ── Written configurations ──────────────────────────────────────────────
/// Words with a blank before each.
pub open spec fn put_words(ws: Seq<Seq<char>>) -> Seq<char>
    decreases ws.len(),
{
    if ws.len() == 0 {
        seq![]
    } else {
        seq![' '] + ws[0] + put_words(ws.subrange(1, ws.len() as int))
    }
}

/// Directives as they are written, one behind the other: a name, its arguments,
/// and a semicolon or a block in braces.
pub open spec fn put(ds: Seq<Dir>) -> Seq<char>
    decreases ds,
{
    if ds.len() == 0 {
        seq![]
    } else {
        let d = ds[0];
        let rest = put(ds.subrange(1, ds.len() as int));
        match d.block {
            None => d.name + put_words(d.args) + seq![' ', ';'] + rest,
            Some(b) => d.name + put_words(d.args) + seq![' ', '{'] + (put(b) + (seq!['}'] + rest)),
        }
    }
}

/// Directives of plain words, all on the first line, that nest no deeper than
/// is read.
pub open spec fn writable(ds: Seq<Dir>, depth: nat) -> bool
    decreases ds,
{
    &&& depth <= 64
    &&& ds.len() > 0 ==> {
        let d = ds[0];
        &&& nginx::plain_word(d.name)
        &&& forall|i: int| 0 <= i < d.args.len() ==> nginx::plain_word(#[trigger] d.args[i])
        &&& d.line == 1
        &&& (match d.block {
            None => true,
            Some(b) => !text::ends(d.name, "_by_lua_block"@) && writable(b, depth + 1),
        })
        &&& writable(ds.subrange(1, ds.len() as int), depth)
    }
}

/// No line ends in the text.
pub open spec fn one_line(s: Seq<char>) -> bool {
    forall|i: int| 0 <= i < s.len() ==> s[i] != '\n'
}

proof fn lemma_joined_lines(a: Seq<char>, b: Seq<char>)
    requires
        one_line(a),
        one_line(b),
    ensures
        one_line(a + b),
{
}

proof fn lemma_word_line(w: Seq<char>)
    requires
        nginx::plain_word(w),
    ensures
        one_line(w),
{
    assert forall|i: int| 0 <= i < w.len() implies w[i] != '\n' by {
        assert(nginx::plain(w[i]));
    }
}

proof fn lemma_words_line(ws: Seq<Seq<char>>)
    requires
        forall|i: int| 0 <= i < ws.len() ==> nginx::plain_word(#[trigger] ws[i]),
    ensures
        one_line(put_words(ws)),
    decreases ws.len(),
{
    if ws.len() > 0 {
        lemma_word_line(ws[0]);
        let rest = ws.subrange(1, ws.len() as int);
        assert forall|i: int| 0 <= i < rest.len() implies nginx::plain_word(#[trigger] rest[i]) by {
            assert(rest[i] == ws[i + 1]);
        }
        lemma_words_line(rest);
        lemma_joined_lines(seq![' '] + ws[0], put_words(rest));
    }
}

proof fn lemma_put_line(ds: Seq<Dir>, depth: nat)
    requires
        writable(ds, depth),
    ensures
        one_line(put(ds)),
    decreases ds,
{
    if ds.len() > 0 {
        let d = ds[0];
        let rest = ds.subrange(1, ds.len() as int);
        lemma_put_line(rest, depth);
        lemma_word_line(d.name);
        lemma_words_line(d.args);
        lemma_joined_lines(d.name, put_words(d.args));
        let head = d.name + put_words(d.args);
        match d.block {
            None => {
                lemma_joined_lines(head, seq![' ', ';']);
                lemma_joined_lines(head + seq![' ', ';'], put(rest));
            },
            Some(b) => {
                lemma_put_line(b, depth + 1);
                lemma_joined_lines(head, seq![' ', '{']);
                lemma_joined_lines(seq!['}'], put(rest));
                lemma_joined_lines(put(b), seq!['}'] + put(rest));
                lemma_joined_lines(head + seq![' ', '{'], put(b) + (seq!['}'] + put(rest)));
            },
        }
    }
}

// ── Reading ─────────────────────────────────────────────────────────────
/// A blank before what is no trivia is skipped.
proof fn lemma_blank(s: Seq<char>, p: int)
    requires
        0 <= p,
        p + 1 < s.len(),
        s[p] == ' ',
        !text::white(s[p + 1]),
        s[p + 1] != '#',
    ensures
        cursor::trivia_end(s, p) == p + 1,
{
    reveal_with_fuel(cursor::trivia_end, 2);
}

proof fn lemma_args(
    s: Seq<char>,
    p: int,
    name: Seq<char>,
    acc: Seq<Seq<char>>,
    args: Seq<Seq<char>>,
    stop: char,
)
    requires
        at(s, p, put_words(args) + seq![' ', stop]),
        stop == ';' || stop == '{',
        forall|i: int| 0 <= i < args.len() ==> nginx::plain_word(#[trigger] args[i]),
    ensures
        nginx::args_from(s, p, name, acc) matches Ok(a) && a.words == acc + args && a.opens == (stop
            == '{') && a.next == p + put_words(args).len() + 2,
    decreases args.len(),
{
    let end = seq![' ', stop];
    if args.len() == 0 {
        assert(put_words(args) + end =~= seq![' '] + seq![stop]);
        lemma_at(s, p, seq![' '], seq![stop]);
        lemma_blank(s, p);
        assert(acc + args =~= acc);
    } else {
        let w = args[0];
        let rest = args.subrange(1, args.len() as int);
        assert(nginx::plain_word(w));
        assert forall|i: int| 0 <= i < rest.len() implies nginx::plain_word(#[trigger] rest[i]) by {
            assert(rest[i] == args[i + 1]);
        }
        let tail = put_words(rest) + end;
        assert(put_words(args) + end =~= seq![' '] + (w + tail));
        lemma_at(s, p, seq![' '], w + tail);
        lemma_at(s, p + 1, w, tail);
        assert(tail[0] == ' ') by {
            if rest.len() > 0 {
                assert(put_words(rest)[0] == ' ');
            }
        }
        assert(nginx::plain(w[0]));
        lemma_blank(s, p);
        let e = p + 1 + w.len();
        nginx::lemma_plain_token(s, p + 1, w);
        lemma_args(s, e, name, acc.push(w), rest, stop);
        assert(acc.push(w) + rest =~= acc + args);
    }
}

#[verifier::spinoff_prover]
#[verifier::rlimit(40)]
proof fn lemma_read(s: Seq<char>, p: int, ds: Seq<Dir>, depth: nat)
    requires
        at(s, p, put(ds)),
        writable(ds, depth),
        one_line(s),
        depth == 0 ==> p + put(ds).len() == s.len(),
        depth > 0 ==> p + put(ds).len() < s.len() && s[p + put(ds).len()] == '}',
    ensures
        nginx::block_from(s, p, depth) == Ok::<(Seq<Dir>, int), Fault>(
            (
                ds,
                p + put(ds).len() + (if depth == 0 {
                    0int
                } else {
                    1int
                }),
            ),
        ),
    decreases ds,
{
    if ds.len() == 0 {
        assert(cursor::trivia_end(s, p) == p);
        assert(ds =~= seq![]);
    } else {
        let d = ds[0];
        let rest = ds.subrange(1, ds.len() as int);
        let words = put_words(d.args);
        let stop = if d.block is None {
            ';'
        } else {
            '{'
        };
        let end = seq![' ', stop];
        let after = match d.block {
            None => put(rest),
            Some(b) => put(b) + (seq!['}'] + put(rest)),
        };
        assert(put(ds) =~= d.name + (words + end + after));
        lemma_at(s, p, d.name, words + end + after);
        assert((words + end + after)[0] == ' ') by {
            if d.args.len() > 0 {
                assert(words[0] == ' ');
            }
        }
        nginx::lemma_plain_token(s, p, d.name);
        let e = p + d.name.len();
        assert(words + end + after =~= (words + end) + after);
        lemma_at(s, e, words + end, after);
        lemma_args(s, e, d.name, seq![], d.args, stop);
        assert(Seq::<Seq<char>>::empty() + d.args =~= d.args);
        let q = e + words.len() + 2;
        lemma_same_line(s, 0, p);
        match d.block {
            None => {
                lemma_read(s, q, rest, depth);
            },
            Some(b) => {
                lemma_at(s, q, put(b), seq!['}'] + put(rest));
                lemma_at(s, q + put(b).len(), seq!['}'], put(rest));
                lemma_read(s, q, b, depth + 1);
                lemma_read(s, q + put(b).len() + 1, rest, depth);
            },
        }
        let a = nginx::args_from(s, e, d.name, seq![])->Ok_0;
        assert(a.words == d.args);
        let read = Dir { name: d.name, args: a.words, block: d.block, line: 1 };
        assert(read == d);
        assert(seq![d] + rest =~= ds);
    }
}

/// A configuration that is written out with plain words reads back as itself:
/// every directive, in order, with its arguments, and its block with all that is
/// nested in it.
pub proof fn law_configuration_reads_back(ds: Seq<Dir>)
    requires
        writable(ds, 0),
    ensures
        nginx::parse_of(put(ds)) == Ok::<Seq<Dir>, Fault>(ds),
{
    let s = put(ds);
    lemma_put_line(ds, 0);
    assert(s.subrange(0, s.len() as int) =~= s);
    lemma_read(s, 0, ds, 0);
}

// ── Quotes and comments ─────────────────────────────────────────────────
/// A text as it stands between quotes: a backslash before each quote and each
/// backslash.
pub open spec fn escaped(w: Seq<char>, q: char) -> Seq<char>
    decreases w.len(),
{
    if w.len() == 0 {
        seq![]
    } else if w[0] == q || w[0] == '\\' {
        seq!['\\', w[0]] + escaped(w.subrange(1, w.len() as int), q)
    } else {
        seq![w[0]] + escaped(w.subrange(1, w.len() as int), q)
    }
}

proof fn lemma_quoted_text(s: Seq<char>, p: int, w: Seq<char>, q: char, acc: Seq<char>)
    requires
        q == '"' || q == '\'',
        at(s, p, escaped(w, q) + seq![q]),
    ensures
        nginx::quoted(s, p, q, acc) == Some((acc + w, p + escaped(w, q).len() + 1)),
    decreases w.len(),
{
    if w.len() == 0 {
        assert(escaped(w, q) + seq![q] =~= seq![q] + Seq::<char>::empty());
        lemma_at(s, p, seq![q], seq![]);
        assert(acc + w =~= acc);
    } else {
        let rest = w.subrange(1, w.len() as int);
        let tail = escaped(rest, q) + seq![q];
        if w[0] == q || w[0] == '\\' {
            assert(escaped(w, q) + seq![q] =~= seq!['\\'] + (seq![w[0]] + tail));
            lemma_at(s, p, seq!['\\'], seq![w[0]] + tail);
            lemma_at(s, p + 1, seq![w[0]], tail);
            lemma_quoted_text(s, p + 2, rest, q, acc.push(w[0]));
        } else {
            assert(escaped(w, q) + seq![q] =~= seq![w[0]] + tail);
            lemma_at(s, p, seq![w[0]], tail);
            lemma_quoted_text(s, p + 1, rest, q, acc.push(w[0]));
        }
        assert(acc.push(w[0]) + rest =~= acc + w);
    }
}

/// A text between quotes is one word, whatever it holds.
pub proof fn law_quoted_text_is_one_word(a: Seq<char>, w: Seq<char>, q: char, b: Seq<char>)
    requires
        q == '"' || q == '\'',
    ensures
        nginx::token_at(a + seq![q] + escaped(w, q) + seq![q] + b, a.len() as int) == Some(
            (Token::Word(w), (a.len() + escaped(w, q).len() + 2) as int),
        ),
{
    let s = a + seq![q] + escaped(w, q) + seq![q] + b;
    let n = a.len() as int;
    let t = escaped(w, q) + seq![q];
    assert(s[n] == q);
    assert(s.subrange(n + 1, n + 1 + t.len()) =~= t);
    lemma_quoted_text(s, n + 1, w, q, seq![]);
    assert(Seq::<char>::empty() + w =~= w);
}

/// What follows a comment's line is read as if the comment were not there.
pub proof fn law_comments_are_skipped(a: Seq<char>, comment: Seq<char>, b: Seq<char>)
    requires
        one_line(comment),
    ensures
        ({
            let s = a + seq!['#'] + comment + seq!['\n'] + b;
            cursor::trivia_end(s, a.len() as int) == cursor::trivia_end(
                s,
                (a.len() + comment.len() + 2) as int,
            )
        }),
{
    let s = a + seq!['#'] + comment + seq!['\n'] + b;
    let n = a.len() as int;
    let e = n + 1 + comment.len();
    assert(s[n] == '#');
    assert(s[e] == '\n');
    text::lemma_index_of(s, '\n', n);
    let i = text::index_of(s, '\n', n);
    if i < e {
        if i > n {
            assert(s[i] == comment[i - n - 1]);
        }
    }
    assert(i == e);
}

} // verus!
