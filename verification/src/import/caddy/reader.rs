//! Tolerant Caddyfile reader.
//!
//! `{` is a block opener or the start of a placeholder token (`{$DOMAIN}`,
//! `{$DOMAIN:localhost}`, `{http.request.host}`): directly before a non-blank it
//! begins a placeholder word that runs to its `}`, before white space, `}` or the
//! end it opens a block.
use super::ParseError;
use crate::import::cursor;
use crate::import::cursor::Cursor;
use crate::import::nginx;
use crate::import::nginx::{Dir, Directive, Fault};
use crate::text;
use crate::text::{begins_with, chars_of, closes_with, find_from, is_white, own, slice_of, split, trim};
use vstd::prelude::*;

verus! {

broadcast use crate::text::group_views;

// ── Tree ────────────────────────────────────────────────────────────────
/// A snippet definition `(name) { … }`.
#[derive(Debug)]
pub struct Snippet {
    pub name: String,
    pub body: Vec<Directive>,
}

#[derive(Debug)]
pub struct Site {
    pub addresses: Vec<String>,
    pub body: Vec<Directive>,
    pub line: u32,
}

#[derive(Debug)]
pub struct Caddyfile {
    /// Global options block (leading `{ … }`), if any.
    pub global: Vec<Directive>,
    /// Snippet definitions, resolved by `import name`; the last of a name counts.
    pub snippets: Vec<Snippet>,
    pub sites: Vec<Site>,
}

#[verifier::ext_equal]
pub struct SnippetV {
    pub name: Seq<char>,
    pub body: Seq<Dir>,
}

#[verifier::ext_equal]
pub struct SiteV {
    pub addresses: Seq<Seq<char>>,
    pub body: Seq<Dir>,
    pub line: int,
}

#[verifier::ext_equal]
pub struct FileV {
    pub global: Seq<Dir>,
    pub snippets: Seq<SnippetV>,
    pub sites: Seq<SiteV>,
}

impl View for Snippet {
    type V = SnippetV;

    open spec fn view(&self) -> SnippetV {
        SnippetV { name: self.name@, body: text::views(self.body@) }
    }
}

impl View for Site {
    type V = SiteV;

    open spec fn view(&self) -> SiteV {
        SiteV {
            addresses: text::views(self.addresses@),
            body: text::views(self.body@),
            line: self.line as int,
        }
    }
}

impl View for Caddyfile {
    type V = FileV;

    open spec fn view(&self) -> FileV {
        FileV {
            global: text::views(self.global@),
            snippets: text::views(self.snippets@),
            sites: text::views(self.sites@),
        }
    }
}

// ── Tokens ──────────────────────────────────────────────────────────────
pub enum Token {
    Word(Seq<char>),
    Open,
    Close,
    Eof,
}

/// A quoted (`"`) or raw (`` ` ``) string whose content begins at `p`, behind
/// `acc`. `"` honors `\"`, `\\`, `\n` and `\t`; the raw form is verbatim.
pub open spec fn string_from(s: Seq<char>, p: int, q: char, acc: Seq<char>) -> Result<
    (Seq<char>, int),
    Seq<char>,
>
    decreases s.len() - p,
{
    if p < 0 || p >= s.len() {
        Err("unterminated quoted string"@)
    } else if s[p] == q {
        Ok((acc, p + 1))
    } else if s[p] == '\\' && q == '"' {
        if p + 1 >= s.len() {
            Err("unterminated escape in quoted string"@)
        } else if s[p + 1] == '"' || s[p + 1] == '\\' {
            string_from(s, p + 2, q, acc.push(s[p + 1]))
        } else if s[p + 1] == 'n' {
            string_from(s, p + 2, q, acc.push('\n'))
        } else if s[p + 1] == 't' {
            string_from(s, p + 2, q, acc.push('\t'))
        } else {
            string_from(s, p + 2, q, acc.push('\\').push(s[p + 1]))
        }
    } else {
        string_from(s, p + 1, q, acc.push(s[p]))
    }
}

/// A character that ends a bare word.
pub open spec fn ends_word(c: char) -> bool {
    text::white(c) || c == '{' || c == '}' || c == '"' || c == '`'
}

pub open spec fn bare_end(s: Seq<char>, p: int) -> int
    decreases s.len() - p,
{
    if 0 <= p < s.len() && !ends_word(s[p]) {
        bare_end(s, p + 1)
    } else {
        p
    }
}

/// The token that begins at `p`, and the position behind it.
pub open spec fn token_at(s: Seq<char>, p: int) -> Result<(Token, int), Seq<char>> {
    if p >= s.len() {
        Ok((Token::Eof, p))
    } else if s[p] == '}' {
        Ok((Token::Close, p + 1))
    } else if s[p] == '{' {
        if p + 1 < s.len() && !text::white(s[p + 1]) && s[p + 1] != '}' {
            let e = text::index_of(s, '}', p + 1);
            if e < s.len() {
                Ok((Token::Word(s.subrange(p, e + 1)), e + 1))
            } else {
                Err("unterminated `{…}` placeholder"@)
            }
        } else {
            Ok((Token::Open, p + 1))
        }
    } else if s[p] == '"' || s[p] == '`' {
        match string_from(s, p + 1, s[p], seq![]) {
            Ok((w, e)) => Ok((Token::Word(w), e)),
            Err(m) => Err(m),
        }
    } else {
        Ok((Token::Word(s.subrange(p, bare_end(s, p))), bare_end(s, p)))
    }
}

proof fn lemma_string_from(s: Seq<char>, p: int, q: char, acc: Seq<char>)
    ensures
        string_from(s, p, q, acc) matches Ok((w, e)) ==> p < e <= s.len(),
    decreases s.len() - p,
{
    if 0 <= p < s.len() && s[p] != q {
        if s[p] == '\\' && q == '"' {
            if p + 1 < s.len() {
                lemma_string_from(s, p + 2, q, acc.push(s[p + 1]));
                lemma_string_from(s, p + 2, q, acc.push('\n'));
                lemma_string_from(s, p + 2, q, acc.push('\t'));
                lemma_string_from(s, p + 2, q, acc.push('\\').push(s[p + 1]));
            }
        } else {
            lemma_string_from(s, p + 1, q, acc.push(s[p]));
        }
    }
}

proof fn lemma_bare_end(s: Seq<char>, p: int)
    requires
        0 <= p <= s.len(),
    ensures
        p <= bare_end(s, p) <= s.len(),
        p < s.len() && !ends_word(s[p]) ==> p < bare_end(s, p),
    decreases s.len() - p,
{
    if p < s.len() && !ends_word(s[p]) {
        lemma_bare_end(s, p + 1);
    }
}

/// A token that is not the end of the text takes up some of it.
pub proof fn lemma_token_progress(s: Seq<char>, p: int)
    requires
        0 <= p <= s.len(),
    ensures
        p <= cursor::trivia_end(s, p) <= s.len(),
        token_at(s, cursor::trivia_end(s, p)) matches Ok((t, e)) ==> p <= e <= s.len() && (
        t is Eof || p < e),
{
    let b = cursor::trivia_end(s, p);
    cursor::lemma_trivia_end(s, p);
    if b < s.len() {
        lemma_string_from(s, b + 1, s[b], seq![]);
        lemma_bare_end(s, b);
        if b + 1 < s.len() {
            text::lemma_index_of(s, '}', b + 1);
        }
    }
}

pub open spec fn fault_at(s: Seq<char>, p: int, msg: Seq<char>) -> Fault {
    Fault { line: cursor::line_at(s, p), msg }
}

// ── Grammar ─────────────────────────────────────────────────────────────
/// The words from `p` on that stand on the given line, behind those in `acc`,
/// and the position behind them.
pub open spec fn words_on_line(s: Seq<char>, p: int, line: int, acc: Seq<Seq<char>>) -> Result<
    (Seq<Seq<char>>, int),
    Fault,
>
    decreases s.len() - p,
{
    let b = cursor::trivia_end(s, p);
    match token_at(s, b) {
        Err(m) => Err(fault_at(s, b, m)),
        Ok((Token::Word(w), e)) => if cursor::line_at(s, b) == line && p < e <= s.len() {
            words_on_line(s, e, line, acc.push(w))
        } else {
            Ok((acc, p))
        },
        Ok(_) => Ok((acc, p)),
    }
}

/// The words from `p` on, whatever line they stand on.
pub open spec fn words_from(s: Seq<char>, p: int, acc: Seq<Seq<char>>) -> Result<
    (Seq<Seq<char>>, int),
    Fault,
>
    decreases s.len() - p,
{
    let b = cursor::trivia_end(s, p);
    match token_at(s, b) {
        Err(m) => Err(fault_at(s, b, m)),
        Ok((Token::Word(w), e)) => if p < e <= s.len() {
            words_from(s, e, acc.push(w))
        } else {
            Ok((acc, p))
        },
        Ok(_) => Ok((acc, p)),
    }
}

proof fn lemma_words_on_line(s: Seq<char>, p: int, line: int, acc: Seq<Seq<char>>)
    requires
        0 <= p <= s.len(),
    ensures
        words_on_line(s, p, line, acc) matches Ok((ws, e)) ==> p <= e <= s.len(),
    decreases s.len() - p,
{
    lemma_token_progress(s, p);
    let b = cursor::trivia_end(s, p);
    match token_at(s, b) {
        Ok((Token::Word(w), e)) => if cursor::line_at(s, b) == line {
            lemma_words_on_line(s, e, line, acc.push(w));
        },
        _ => {},
    }
}

proof fn lemma_words_from(s: Seq<char>, p: int, acc: Seq<Seq<char>>)
    requires
        0 <= p <= s.len(),
    ensures
        words_from(s, p, acc) matches Ok((ws, e)) ==> p <= e <= s.len() && (ws.len() > acc.len()
            ==> p < e),
    decreases s.len() - p,
{
    lemma_token_progress(s, p);
    match token_at(s, cursor::trivia_end(s, p)) {
        Ok((Token::Word(w), e)) => lemma_words_from(s, e, acc.push(w)),
        _ => {},
    }
}

pub const MAX_NEST_DEPTH: u32 = 64;

/// The directives from `p` on, up to the `}` that closes the block, and the
/// position behind it. The arguments of a directive are the words on its line.
pub open spec fn block_from(s: Seq<char>, p: int, depth: nat) -> Result<(Seq<Dir>, int), Fault>
    decreases s.len() - p,
{
    let b = cursor::trivia_end(s, p);
    match token_at(s, b) {
        Err(m) => Err(fault_at(s, b, m)),
        Ok((t, e)) => if depth > MAX_NEST_DEPTH {
            Err(fault_at(s, b, "blocks nested too deeply"@))
        } else {
            match t {
                Token::Close => Ok((seq![], e)),
                Token::Eof => Err(
                    fault_at(s, b, "unexpected end of input — unclosed `{`"@),
                ),
                Token::Open => Err(fault_at(s, b, "unexpected `{` with no directive"@)),
                Token::Word(name) => {
                    let line = cursor::line_at(s, b);
                    match words_on_line(s, e, line, seq![]) {
                        Err(f) => Err(f),
                        Ok((args, q)) => {
                            let c = cursor::trivia_end(s, q);
                            let body: Result<(Option<Seq<Dir>>, int), Fault> = match token_at(
                                s,
                                c,
                            ) {
                                Err(m) => Err(fault_at(s, c, m)),
                                Ok((Token::Open, o)) => if p < o <= s.len() {
                                    match block_from(s, o, depth + 1) {
                                        Err(f) => Err(f),
                                        Ok((ds, e2)) => Ok((Some(ds), e2)),
                                    }
                                } else {
                                    arbitrary()
                                },
                                Ok(_) => Ok((None, q)),
                            };
                            match body {
                                Err(f) => Err(f),
                                // Every directive takes up some text (`lemma_block_from`).
                                Ok((block, e2)) => if p < e2 <= s.len() {
                                    nginx::prepend(
                                        seq![Dir { name, args, block, line }],
                                        block_from(s, e2, depth),
                                    )
                                } else {
                                    arbitrary()
                                },
                            }
                        },
                    }
                },
            }
        },
    }
}

proof fn lemma_block_from(s: Seq<char>, p: int, depth: nat)
    requires
        0 <= p <= s.len(),
    ensures
        block_from(s, p, depth) matches Ok((ds, e)) ==> p <= e <= s.len(),
    decreases s.len() - p,
{
    lemma_token_progress(s, p);
    let b = cursor::trivia_end(s, p);
    match token_at(s, b) {
        Ok((Token::Word(name), e)) => {
            let line = cursor::line_at(s, b);
            lemma_words_on_line(s, e, line, seq![]);
            match words_on_line(s, e, line, seq![]) {
                Ok((args, q)) => {
                    lemma_token_progress(s, q);
                    lemma_block_from(s, q, depth);
                    match token_at(s, cursor::trivia_end(s, q)) {
                        Ok((Token::Open, o)) => {
                            lemma_block_from(s, o, depth + 1);
                            match block_from(s, o, depth + 1) {
                                Ok((ds, e2)) => lemma_block_from(s, e2, depth),
                                _ => {},
                            }
                        },
                        _ => {},
                    }
                },
                _ => {},
            }
        },
        _ => {},
    }
}

/// A snippet's heading: one word in round brackets.
pub open spec fn snippet_head(heads: Seq<Seq<char>>) -> bool {
    heads.len() == 1 && text::begins(heads[0], '(') && text::closes(heads[0], ')')
}

/// The addresses in the first `n` parts that are not empty.
pub open spec fn nonempty_parts(acc: Seq<Seq<char>>, parts: Seq<Seq<char>>, n: nat) -> Seq<Seq<char>>
    decreases n,
{
    if n == 0 {
        acc
    } else {
        let p = nonempty_parts(acc, parts, (n - 1) as nat);
        let a = text::trim_of(parts[n - 1]);
        if a.len() == 0 {
            p
        } else {
            p.push(a)
        }
    }
}

/// The addresses of the first `n` heading words, which commas separate.
pub open spec fn addresses_of(heads: Seq<Seq<char>>, n: nat) -> Seq<Seq<char>>
    decreases n,
{
    if n == 0 {
        seq![]
    } else {
        let parts = text::split_of(heads[n - 1], ',');
        nonempty_parts(addresses_of(heads, (n - 1) as nat), parts, parts.len())
    }
}

/// The file with one more block under the given heading.
pub open spec fn with_block(f: FileV, heads: Seq<Seq<char>>, body: Seq<Dir>, line: int) -> FileV {
    if snippet_head(heads) {
        FileV {
            snippets: f.snippets.push(
                SnippetV { name: heads[0].subrange(1, heads[0].len() - 1), body },
            ),
            ..f
        }
    } else {
        FileV {
            sites: f.sites.push(
                SiteV { addresses: addresses_of(heads, heads.len()), body, line },
            ),
            ..f
        }
    }
}

/// The snippets and sites from `p` on, behind those in `f`.
pub open spec fn sites_from(s: Seq<char>, p: int, f: FileV) -> Result<FileV, Fault>
    decreases s.len() - p,
{
    let b = cursor::trivia_end(s, p);
    match token_at(s, b) {
        Err(m) => Err(fault_at(s, b, m)),
        Ok((Token::Eof, _)) => Ok(f),
        Ok((Token::Close, _)) => Err(fault_at(s, b, "unexpected `}`"@)),
        Ok((Token::Open, _)) => Err(
            fault_at(s, b, "unexpected `{` (global options must be the first block)"@),
        ),
        Ok((Token::Word(_), _)) => match words_from(s, p, seq![]) {
            Err(e) => Err(e),
            Ok((heads, q)) => {
                let c = cursor::trivia_end(s, q);
                match token_at(s, c) {
                    Err(m) => Err(fault_at(s, c, m)),
                    Ok((Token::Open, o)) => match block_from(s, o, 0) {
                        Err(e) => Err(e),
                        Ok((body, e)) => if p < e <= s.len() {
                            sites_from(
                                s,
                                e,
                                with_block(f, heads, body, cursor::line_at(s, b)),
                            )
                        } else {
                            arbitrary()
                        },
                    },
                    Ok(_) => Err(
                        fault_at(
                            s,
                            c,
                            "expected `{` to open a site block after the address"@,
                        ),
                    ),
                }
            },
        },
    }
}

pub open spec fn empty_file() -> FileV {
    FileV { global: seq![], snippets: seq![], sites: seq![] }
}

/// The tree of a Caddyfile. A leading `{` is the global options block.
pub open spec fn parse_of(s: Seq<char>) -> Result<FileV, Fault> {
    let b = cursor::trivia_end(s, 0);
    match token_at(s, b) {
        Err(m) => Err(fault_at(s, b, m)),
        Ok((Token::Open, o)) => match block_from(s, o, 0) {
            Err(f) => Err(f),
            Ok((global, e)) => sites_from(s, e, FileV { global, ..empty_file() }),
        },
        Ok(_) => sites_from(s, 0, empty_file()),
    }
}

// ── Lexer ───────────────────────────────────────────────────────────────
enum Tok {
    Word(String),
    Open,
    Close,
    Eof,
}

spec fn tok_view(t: Tok) -> Token {
    match t {
        Tok::Word(w) => Token::Word(w@),
        Tok::Open => Token::Open,
        Tok::Close => Token::Close,
        Tok::Eof => Token::Eof,
    }
}

fn fault(line: u32, msg: &str) -> (r: ParseError)
    ensures
        r@ == (Fault { line: line as int, msg: msg@ }),
{
    ParseError { line, msg: own(msg) }
}

fn read_string(cur: &mut Cursor, quote: char, line: u32) -> (r: Result<String, ParseError>)
    requires
        old(cur).wf(),
    ensures
        final(cur).wf(),
        final(cur).chars == old(cur).chars,
        final(cur).pos >= old(cur).pos,
        match string_from(old(cur).chars@, old(cur).pos as int, quote, seq![]) {
            Ok((w, e)) => r matches Ok(s) && s@ == w && final(cur).pos == e,
            Err(m) => r matches Err(e) && e@ == (Fault { line: line as int, msg: m }),
        },
{
    let mut out = String::new();
    assert(out@ =~= seq![]);
    loop
        invariant
            cur.wf(),
            cur.chars == old(cur).chars,
            cur.pos >= old(cur).pos,
            string_from(old(cur).chars@, old(cur).pos as int, quote, seq![]) == string_from(
                cur.chars@,
                cur.pos as int,
                quote,
                out@,
            ),
        decreases cur.chars.len() - cur.pos,
    {
        match cur.bump() {
            None => {
                return Err(fault(line, "unterminated quoted string"));
            },
            Some(c) => {
                if c == quote {
                    return Ok(out);
                }
                if c == '\\' && quote == '"' {
                    match cur.bump() {
                        None => {
                            return Err(fault(line, "unterminated escape in quoted string"));
                        },
                        Some(d) => {
                            if d == '"' || d == '\\' {
                                out.push(d);
                            } else if d == 'n' {
                                out.push('\n');
                            } else if d == 't' {
                                out.push('\t');
                            } else {
                                out.push('\\');
                                out.push(d);
                            }
                        },
                    }
                } else {
                    out.push(c);
                }
            },
        }
    }
}

fn find_bare_end(v: &Vec<char>, p: usize) -> (r: usize)
    requires
        p <= v.len(),
    ensures
        r == bare_end(v@, p as int),
        p <= r <= v.len(),
{
    let mut i: usize = p;
    while i < v.len()
        invariant
            p <= i <= v.len(),
            bare_end(v@, p as int) == bare_end(v@, i as int),
        decreases v.len() - i,
    {
        let c: char = v[i];
        if is_white(c) || c == '{' || c == '}' || c == '"' || c == '`' {
            return i;
        }
        i += 1;
    }
    i
}

/// Reads the next token and the line it begins on.
fn next_token(cur: &mut Cursor) -> (r: Result<(Tok, u32), ParseError>)
    requires
        old(cur).wf(),
    ensures
        final(cur).wf(),
        final(cur).chars == old(cur).chars,
        final(cur).pos >= old(cur).pos,
        ({
            let s = old(cur).chars@;
            let b = cursor::trivia_end(s, old(cur).pos as int);
            match token_at(s, b) {
                Ok((t, e)) => r matches Ok((tok, l)) && tok_view(tok) == t && l
                    == cursor::line_at(s, b) && final(cur).pos == e,
                Err(m) => r matches Err(e) && e@ == fault_at(s, b, m),
            }
        }),
{
    proof {
        lemma_token_progress(cur.chars@, cur.pos as int);
    }
    cur.skip_trivia();
    let line: u32 = cur.line;
    if cur.pos >= cur.chars.len() {
        return Ok((Tok::Eof, line));
    }
    let p: usize = cur.pos;
    let c: char = cur.chars[p];
    if c == '}' {
        cur.bump();
        Ok((Tok::Close, line))
    } else if c == '{' {
        if p + 1 < cur.chars.len() && !is_white(cur.chars[p + 1]) && cur.chars[p + 1] != '}' {
            let e: usize = find_from(&cur.chars, '}', p + 1);
            if e < cur.chars.len() {
                let w = slice_of(&cur.chars, p, e + 1);
                cur.advance(e + 1);
                Ok((Tok::Word(w), line))
            } else {
                Err(fault(line, "unterminated `{…}` placeholder"))
            }
        } else {
            cur.bump();
            Ok((Tok::Open, line))
        }
    } else if c == '"' || c == '`' {
        cur.bump();
        match read_string(cur, c, line) {
            Ok(w) => Ok((Tok::Word(w), line)),
            Err(e) => Err(e),
        }
    } else {
        let e: usize = find_bare_end(&cur.chars, p);
        let w = slice_of(&cur.chars, p, e);
        cur.advance(e);
        Ok((Tok::Word(w), line))
    }
}

/// Goes back to an earlier position.
fn rewind(cur: &mut Cursor, pos: usize, line: u32)
    requires
        old(cur).wf(),
        pos <= old(cur).chars.len(),
        line == cursor::line_at(old(cur).chars@, pos as int),
    ensures
        final(cur).wf(),
        final(cur).chars == old(cur).chars,
        final(cur).pos == pos,
{
    cur.pos = pos;
    cur.line = line;
}

// ── Parser ──────────────────────────────────────────────────────────────
pub open spec fn words_result(
    r: Result<Vec<String>, ParseError>,
    end: int,
    want: Result<(Seq<Seq<char>>, int), Fault>,
) -> bool {
    match want {
        Ok((ws, e)) => r matches Ok(v) && text::views(v@) == ws && end == e,
        Err(f) => r matches Err(e) && e@ == f,
    }
}

fn read_args(cur: &mut Cursor, line: u32) -> (r: Result<Vec<String>, ParseError>)
    requires
        old(cur).wf(),
    ensures
        final(cur).wf(),
        final(cur).chars == old(cur).chars,
        words_result(
            r,
            final(cur).pos as int,
            words_on_line(old(cur).chars@, old(cur).pos as int, line as int, seq![]),
        ),
{
    let mut words: Vec<String> = Vec::new();
    assert(text::views(words@) =~= seq![]);
    loop
        invariant
            cur.wf(),
            cur.chars == old(cur).chars,
            words_on_line(old(cur).chars@, old(cur).pos as int, line as int, seq![])
                == words_on_line(
                cur.chars@,
                cur.pos as int,
                line as int,
                text::views(words@),
            ),
        decreases cur.chars.len() - cur.pos,
    {
        let pos: usize = cur.pos;
        let at: u32 = cur.line;
        proof {
            lemma_token_progress(cur.chars@, cur.pos as int);
        }
        match next_token(cur) {
            Err(e) => {
                return Err(e);
            },
            Ok((Tok::Word(w), l)) => {
                if l == line {
                    words.push(w);
                } else {
                    rewind(cur, pos, at);
                    return Ok(words);
                }
            },
            Ok(_) => {
                rewind(cur, pos, at);
                return Ok(words);
            },
        }
    }
}

fn read_words(cur: &mut Cursor) -> (r: Result<Vec<String>, ParseError>)
    requires
        old(cur).wf(),
    ensures
        final(cur).wf(),
        final(cur).chars == old(cur).chars,
        words_result(
            r,
            final(cur).pos as int,
            words_from(old(cur).chars@, old(cur).pos as int, seq![]),
        ),
{
    let mut words: Vec<String> = Vec::new();
    assert(text::views(words@) =~= seq![]);
    loop
        invariant
            cur.wf(),
            cur.chars == old(cur).chars,
            words_from(old(cur).chars@, old(cur).pos as int, seq![]) == words_from(
                cur.chars@,
                cur.pos as int,
                text::views(words@),
            ),
        decreases cur.chars.len() - cur.pos,
    {
        let pos: usize = cur.pos;
        let at: u32 = cur.line;
        proof {
            lemma_token_progress(cur.chars@, cur.pos as int);
        }
        match next_token(cur) {
            Err(e) => {
                return Err(e);
            },
            Ok((Tok::Word(w), _)) => {
                words.push(w);
            },
            Ok(_) => {
                rewind(cur, pos, at);
                return Ok(words);
            },
        }
    }
}

spec fn block_result(
    r: Result<Vec<Directive>, ParseError>,
    end: int,
    want: Result<(Seq<Dir>, int), Fault>,
) -> bool {
    match want {
        Ok((ds, e)) => r matches Ok(v) && text::views(v@) == ds && end == e,
        Err(f) => r matches Err(e) && e@ == f,
    }
}

fn parse_block(cur: &mut Cursor, depth: u32) -> (r: Result<Vec<Directive>, ParseError>)
    requires
        old(cur).wf(),
        depth <= MAX_NEST_DEPTH + 1,
    ensures
        final(cur).wf(),
        final(cur).chars == old(cur).chars,
        block_result(
            r,
            final(cur).pos as int,
            block_from(old(cur).chars@, old(cur).pos as int, depth as nat),
        ),
    decreases MAX_NEST_DEPTH + 1 - depth,
{
    let mut items: Vec<Directive> = Vec::new();
    let ghost s = cur.chars@;
    proof {
        match block_from(s, cur.pos as int, depth as nat) {
            Ok((ds, e)) => assert(text::views(items@) + ds =~= ds),
            Err(f) => {},
        }
    }
    loop
        invariant
            cur.wf(),
            cur.chars == old(cur).chars,
            s == cur.chars@,
            depth <= MAX_NEST_DEPTH + 1,
            block_from(s, old(cur).pos as int, depth as nat) == nginx::prepend(
                text::views(items@),
                block_from(s, cur.pos as int, depth as nat),
            ),
        decreases cur.chars.len() - cur.pos,
    {
        let ghost p = cur.pos as int;
        let ghost before = text::views(items@);
        proof {
            lemma_token_progress(s, p);
            assert(before + Seq::<Dir>::empty() =~= before);
        }
        let (tok, line) = match next_token(cur) {
            Ok(t) => t,
            Err(e) => {
                return Err(e);
            },
        };
        if depth > MAX_NEST_DEPTH {
            return Err(fault(line, "blocks nested too deeply"));
        }
        let name = match tok {
            Tok::Close => {
                return Ok(items);
            },
            Tok::Eof => {
                return Err(fault(line, "unexpected end of input — unclosed `{`"));
            },
            Tok::Open => {
                return Err(fault(line, "unexpected `{` with no directive"));
            },
            Tok::Word(w) => w,
        };
        proof {
            lemma_words_on_line(s, cur.pos as int, line as int, seq![]);
        }
        let args = match read_args(cur, line) {
            Ok(a) => a,
            Err(e) => {
                return Err(e);
            },
        };
        let pos: usize = cur.pos;
        let at: u32 = cur.line;
        proof {
            lemma_token_progress(s, cur.pos as int);
        }
        let block: Option<Vec<Directive>> = match next_token(cur) {
            Err(e) => {
                return Err(e);
            },
            Ok((Tok::Open, _)) => {
                proof {
                    lemma_block_from(s, cur.pos as int, (depth + 1) as nat);
                }
                match parse_block(cur, depth + 1) {
                    Ok(v) => Some(v),
                    Err(e) => {
                        return Err(e);
                    },
                }
            },
            Ok(_) => {
                rewind(cur, pos, at);
                None
            },
        };
        let d = Directive { name, args, block, line };
        proof {
            nginx::lemma_dir_view(d);
            nginx::lemma_prepend(before, d@, block_from(s, cur.pos as int, depth as nat));
        }
        items.push(d);
    }
}

fn push_parts(out: &mut Vec<String>, parts: &Vec<String>)
    ensures
        text::views(final(out)@) == nonempty_parts(
            text::views(old(out)@),
            text::views(parts@),
            parts@.len(),
        ),
{
    let ghost acc = text::views(out@);
    let ghost pv = text::views(parts@);
    let mut i: usize = 0;
    while i < parts.len()
        invariant
            i <= parts.len(),
            pv == text::views(parts@),
            text::views(out@) == nonempty_parts(acc, pv, i as nat),
        decreases parts.len() - i,
    {
        assert(pv[i as int] == parts@[i as int]@);
        let a = trim(parts[i].as_str());
        if !a.as_str().is_empty() {
            out.push(a);
        }
        i += 1;
    }
}

fn read_addresses(heads: &Vec<String>) -> (r: Vec<String>)
    ensures
        text::views(r@) == addresses_of(text::views(heads@), heads@.len()),
{
    let ghost hv = text::views(heads@);
    let mut out: Vec<String> = Vec::new();
    let mut i: usize = 0;
    assert(text::views(out@) =~= seq![]);
    while i < heads.len()
        invariant
            i <= heads.len(),
            hv == text::views(heads@),
            text::views(out@) == addresses_of(hv, i as nat),
        decreases heads.len() - i,
    {
        assert(hv[i as int] == heads@[i as int]@);
        let parts = split(heads[i].as_str(), ',');
        push_parts(&mut out, &parts);
        i += 1;
    }
    out
}

fn add_block(file: &mut Caddyfile, heads: &Vec<String>, body: Vec<Directive>, line: u32)
    ensures
        final(file)@ == with_block(
            old(file)@,
            text::views(heads@),
            text::views(body@),
            line as int,
        ),
{
    let ghost hv = text::views(heads@);
    if heads.len() == 1 {
        assert(hv[0] == heads@[0]@);
        let h: &str = heads[0].as_str();
        if begins_with(h, '(') && closes_with(h, ')') {
            let v = chars_of(h);
            assert(v.len() >= 2) by {
                if v.len() == 1 {
                    assert(h@[0] == '(' && h@[0] == ')');
                }
            }
            let name = slice_of(&v, 1, v.len() - 1);
            file.snippets.push(Snippet { name, body });
            return;
        }
    }
    let addresses = read_addresses(heads);
    file.sites.push(Site { addresses, body, line });
}

/// Reads a Caddyfile.
pub fn parse(src: &str) -> (r: Result<Caddyfile, ParseError>)
    requires
        src@.len() < u32::MAX,
    ensures
        match parse_of(src@) {
            Ok(f) => r matches Ok(v) && v@ == f,
            Err(f) => r matches Err(e) && e@ == f,
        },
{
    let mut cur = Cursor { chars: chars_of(src), pos: 0, line: 1 };
    let ghost s = src@;
    let mut file = Caddyfile { global: Vec::new(), snippets: Vec::new(), sites: Vec::new() };
    assert(file@ =~= empty_file());
    proof {
        lemma_token_progress(s, 0);
    }
    match next_token(&mut cur) {
        Err(e) => {
            return Err(e);
        },
        Ok((Tok::Open, _)) => {
            proof {
                lemma_block_from(s, cur.pos as int, 0);
            }
            match parse_block(&mut cur, 0) {
                Ok(v) => {
                    file.global = v;
                },
                Err(e) => {
                    return Err(e);
                },
            }
        },
        Ok(_) => {
            rewind(&mut cur, 0, 1);
        },
    }
    loop
        invariant
            cur.wf(),
            cur.chars@ == s,
            s == src@,
            parse_of(s) == sites_from(s, cur.pos as int, file@),
        decreases cur.chars.len() - cur.pos,
    {
        let ghost p = cur.pos as int;
        let pos: usize = cur.pos;
        let at: u32 = cur.line;
        proof {
            lemma_token_progress(s, p);
        }
        let (tok, head_line) = match next_token(&mut cur) {
            Ok(t) => t,
            Err(e) => {
                return Err(e);
            },
        };
        match tok {
            Tok::Eof => {
                return Ok(file);
            },
            Tok::Close => {
                return Err(fault(head_line, "unexpected `}`"));
            },
            Tok::Open => {
                return Err(
                    fault(
                        head_line,
                        "unexpected `{` (global options must be the first block)",
                    ),
                );
            },
            Tok::Word(_) => {},
        }
        rewind(&mut cur, pos, at);
        proof {
            lemma_words_from(s, p, seq![]);
        }
        let heads = match read_words(&mut cur) {
            Ok(h) => h,
            Err(e) => {
                return Err(e);
            },
        };
        proof {
            lemma_token_progress(s, cur.pos as int);
        }
        match next_token(&mut cur) {
            Err(e) => {
                return Err(e);
            },
            Ok((Tok::Open, _)) => {},
            Ok((_, line)) => {
                return Err(
                    fault(line, "expected `{` to open a site block after the address"),
                );
            },
        }
        proof {
            lemma_block_from(s, cur.pos as int, 0);
        }
        let body = match parse_block(&mut cur, 0) {
            Ok(b) => b,
            Err(e) => {
                return Err(e);
            },
        };
        add_block(&mut file, &heads, body, head_line);
    }
}

} // verus!
