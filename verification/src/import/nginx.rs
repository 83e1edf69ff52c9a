//! Tolerant nginx configuration parser.
//!
//! The lexer reads whitespace-separated words, the `;` terminator, the `{`/`}`
//! block delimiters, single- and double-quoted strings with backslash escapes,
//! and `#` comments where a new token may start; `$var` passes through
//! untouched. There is no list of known directives: the parser accepts any
//! directive name, and deciding what Zion supports is the mapper's job.
//!
//! `*_by_lua_block { … }` bodies are skipped with a raw balanced-brace scan
//! that is aware of Lua quotes and `--` line comments (Lua long-bracket
//! strings are not handled; the block is unsupported downstream either way).
use super::cursor;
use super::cursor::Cursor;
use crate::text;
use crate::text::{cat3, chars_of, ends_with, is_white, slice_of};
use vstd::prelude::*;

verus! {

broadcast use crate::text::group_views;

// ── Trees ───────────────────────────────────────────────────────────────
/// One parsed directive: `name arg1 arg2;` or `name args { children }`.
#[derive(Debug)]
pub struct Directive {
    pub name: String,
    pub args: Vec<String>,
    /// `Some` when the directive opened a `{ … }` block (possibly empty).
    pub block: Option<Vec<Directive>>,
    /// 1-based line of the directive name in its source.
    pub line: u32,
}

#[derive(Debug)]
pub struct ParseError {
    pub line: u32,
    pub msg: String,
}

/// What a [`Directive`] says.
#[verifier::ext_equal]
pub struct Dir {
    pub name: Seq<char>,
    pub args: Seq<Seq<char>>,
    pub block: Option<Seq<Dir>>,
    pub line: int,
}

/// What a [`ParseError`] says.
pub struct Fault {
    pub line: int,
    pub msg: Seq<char>,
}

pub open spec fn dir_view(d: Directive) -> Dir
    decreases d,
{
    Dir {
        name: d.name@,
        args: text::views(d.args@),
        block: match d.block {
            None => None,
            Some(b) => Some(
                Seq::new(
                    b@.len(),
                    |i: int|
                        if 0 <= i < b@.len() {
                            dir_view(b@[i])
                        } else {
                            arbitrary()
                        },
                ),
            ),
        },
        line: d.line as int,
    }
}

impl View for Directive {
    type V = Dir;

    open spec fn view(&self) -> Dir {
        dir_view(*self)
    }
}

impl View for ParseError {
    type V = Fault;

    open spec fn view(&self) -> Fault {
        Fault { line: self.line as int, msg: self.msg@ }
    }
}

/// The children of a directive, seen through the view.
pub broadcast proof fn lemma_dir_view(d: Directive)
    ensures
        (#[trigger] d@).name == d.name@,
        d@.args == text::views(d.args@),
        d@.line == d.line,
        d.block is None <==> d@.block is None,
        d.block is Some ==> d@.block == Some(text::views(d.block->0@)),
{
    if d.block is Some {
        assert(d@.block->0 =~= text::views(d.block->0@));
    }
}

// ── Lexical structure ───────────────────────────────────────────────────
/// A quoted word that begins at `p`, behind its opening quote `q`: its text
/// behind `acc`, and the position behind its closing quote. A `\` escapes the
/// quote character and itself; before any other character it stays.
pub open spec fn quoted(s: Seq<char>, p: int, q: char, acc: Seq<char>) -> Option<(Seq<char>, int)>
    decreases s.len() - p,
{
    if p < 0 || p >= s.len() {
        None
    } else if s[p] == '\\' {
        if p + 1 >= s.len() {
            None
        } else if s[p + 1] == q || s[p + 1] == '\\' {
            quoted(s, p + 2, q, acc.push(s[p + 1]))
        } else {
            quoted(s, p + 2, q, acc.push('\\').push(s[p + 1]))
        }
    } else if s[p] == q {
        Some((acc, p + 1))
    } else {
        quoted(s, p + 1, q, acc.push(s[p]))
    }
}

/// Where the unquoted word that begins at `p` ends. It runs until white space
/// or a structural character; `\x` keeps both characters, and a `${…}`
/// variable is part of the word.
pub open spec fn bare_end(s: Seq<char>, p: int) -> int
    decreases s.len() - p,
{
    if p < 0 || p >= s.len() {
        p
    } else if text::white(s[p]) || s[p] == '{' || s[p] == '}' || s[p] == ';' {
        p
    } else if s[p] == '\\' && p + 1 < s.len() {
        bare_end(s, p + 2)
    } else if s[p] == '$' && p + 1 < s.len() && s[p + 1] == '{' {
        proof {
            text::lemma_index_of(s, '}', p + 1);
        }
        bare_end(s, cursor::past(s, '}', p + 1))
    } else {
        bare_end(s, p + 1)
    }
}

/// Behind the closing quote of a Lua string whose content begins at `p`.
pub open spec fn lua_string_end(s: Seq<char>, p: int, q: char) -> Option<int>
    decreases s.len() - p,
{
    if p < 0 || p >= s.len() {
        None
    } else if s[p] == '\\' {
        if p + 1 < s.len() {
            lua_string_end(s, p + 2, q)
        } else {
            None
        }
    } else if s[p] == q {
        Some(p + 1)
    } else {
        lua_string_end(s, p + 1, q)
    }
}

pub proof fn lemma_lua_string_end(s: Seq<char>, p: int, q: char)
    ensures
        lua_string_end(s, p, q) matches Some(e) ==> p < e <= s.len(),
    decreases s.len() - p,
{
    if 0 <= p < s.len() {
        if s[p] == '\\' {
            if p + 1 < s.len() {
                lemma_lua_string_end(s, p + 2, q);
            }
        } else if s[p] != q {
            lemma_lua_string_end(s, p + 1, q);
        }
    }
}

/// Behind the `}` that closes the last of `depth` open braces of a Lua body.
/// Braces in Lua strings and behind `--` do not count.
pub open spec fn lua_end(s: Seq<char>, p: int, depth: nat) -> Result<int, Seq<char>>
    decreases s.len() - p,
{
    if depth == 0 {
        Ok(p)
    } else if p < 0 || p >= s.len() {
        Err("unterminated *_by_lua_block (missing `}`)"@)
    } else if s[p] == '{' {
        lua_end(s, p + 1, depth + 1)
    } else if s[p] == '}' {
        lua_end(s, p + 1, (depth - 1) as nat)
    } else if s[p] == '\'' || s[p] == '"' {
        proof {
            lemma_lua_string_end(s, p + 1, s[p]);
        }
        match lua_string_end(s, p + 1, s[p]) {
            None => Err("unterminated string in lua block"@),
            Some(e) => lua_end(s, e, depth),
        }
    } else if s[p] == '-' && p + 1 < s.len() && s[p + 1] == '-' {
        proof {
            text::lemma_index_of(s, '\n', p + 1);
        }
        lua_end(s, cursor::past(s, '\n', p + 1), depth)
    } else {
        lua_end(s, p + 1, depth)
    }
}

proof fn lemma_lua_end(s: Seq<char>, p: int, depth: nat)
    requires
        0 <= p <= s.len(),
    ensures
        lua_end(s, p, depth) matches Ok(e) ==> p <= e <= s.len(),
    decreases s.len() - p,
{
    if depth > 0 && p < s.len() {
        if s[p] == '{' {
            lemma_lua_end(s, p + 1, depth + 1);
        } else if s[p] == '}' {
            lemma_lua_end(s, p + 1, (depth - 1) as nat);
        } else if s[p] == '\'' || s[p] == '"' {
            lemma_lua_string_end(s, p + 1, s[p]);
            match lua_string_end(s, p + 1, s[p]) {
                None => {},
                Some(e) => lemma_lua_end(s, e, depth),
            }
        } else if s[p] == '-' && p + 1 < s.len() && s[p + 1] == '-' {
            text::lemma_index_of(s, '\n', p + 1);
            lemma_lua_end(s, cursor::past(s, '\n', p + 1), depth);
        } else {
            lemma_lua_end(s, p + 1, depth);
        }
    }
}

/// A token.
pub enum Token {
    Word(Seq<char>),
    Open,
    Close,
    Semi,
    Eof,
}

/// The token that begins at `p`, and the position behind it; `None` where a
/// quoted string is not closed.
pub open spec fn token_at(s: Seq<char>, p: int) -> Option<(Token, int)> {
    if p >= s.len() {
        Some((Token::Eof, p))
    } else if s[p] == '{' {
        Some((Token::Open, p + 1))
    } else if s[p] == '}' {
        Some((Token::Close, p + 1))
    } else if s[p] == ';' {
        Some((Token::Semi, p + 1))
    } else if s[p] == '\'' || s[p] == '"' {
        match quoted(s, p + 1, s[p], seq![]) {
            Some((w, e)) => Some((Token::Word(w), e)),
            None => None,
        }
    } else {
        Some((Token::Word(s.subrange(p, bare_end(s, p))), bare_end(s, p)))
    }
}

proof fn lemma_quoted(s: Seq<char>, p: int, q: char, acc: Seq<char>)
    ensures
        quoted(s, p, q, acc) matches Some((w, e)) ==> p < e <= s.len(),
    decreases s.len() - p,
{
    if 0 <= p < s.len() {
        if s[p] == '\\' {
            if p + 1 < s.len() {
                lemma_quoted(s, p + 2, q, acc.push(s[p + 1]));
                lemma_quoted(s, p + 2, q, acc.push('\\').push(s[p + 1]));
            }
        } else if s[p] != q {
            lemma_quoted(s, p + 1, q, acc.push(s[p]));
        }
    }
}

proof fn lemma_bare_end(s: Seq<char>, p: int)
    requires
        0 <= p <= s.len(),
    ensures
        p <= bare_end(s, p) <= s.len(),
        p < s.len() && !text::white(s[p]) && s[p] != '{' && s[p] != '}' && s[p] != ';' ==> p < bare_end(
            s,
            p,
        ),
    decreases s.len() - p,
{
    if p < s.len() && !(text::white(s[p]) || s[p] == '{' || s[p] == '}' || s[p] == ';') {
        if s[p] == '\\' && p + 1 < s.len() {
            lemma_bare_end(s, p + 2);
        } else if s[p] == '$' && p + 1 < s.len() && s[p + 1] == '{' {
            text::lemma_index_of(s, '}', p + 1);
            lemma_bare_end(s, cursor::past(s, '}', p + 1));
        } else {
            lemma_bare_end(s, p + 1);
        }
    }
}

/// A token that is not the end of the text takes up some of it.
pub proof fn lemma_token_progress(s: Seq<char>, p: int)
    requires
        0 <= p <= s.len(),
    ensures
        token_at(s, cursor::trivia_end(s, p)) matches Some((t, e)) ==> p <= e <= s.len() && (t is Eof
            || p < e),
{
    let b = cursor::trivia_end(s, p);
    cursor::lemma_trivia_end(s, p);
    if b < s.len() {
        lemma_quoted(s, b + 1, s[b], seq![]);
        lemma_bare_end(s, b);
    }
}

// ── Grammar ─────────────────────────────────────────────────────────────
/// The arguments of a directive and what ended them.
pub struct Args {
    pub words: Seq<Seq<char>>,
    /// Whether a block opens (else the directive ended with `;`).
    pub opens: bool,
    /// Where the token that ended the arguments stands.
    pub at: int,
    /// The position behind that token.
    pub next: int,
}

/// The arguments of the directive `name` from `p` on, behind those in `acc`.
pub open spec fn args_from(s: Seq<char>, p: int, name: Seq<char>, acc: Seq<Seq<char>>) -> Result<
    Args,
    Fault,
>
    decreases s.len() - p,
{
    let b = cursor::trivia_end(s, p);
    match token_at(s, b) {
        None => Err(Fault { line: cursor::line_at(s, b), msg: "unterminated quoted string"@ }),
        Some((t, e)) => match t {
            Token::Word(w) => {
                proof {
                    if 0 <= p <= s.len() {
                        lemma_token_progress(s, p);
                    }
                }
                if p < 0 || p > s.len() {
                    arbitrary()
                } else {
                    args_from(s, e, name, acc.push(w))
                }
            },
            Token::Semi => Ok(Args { words: acc, opens: false, at: b, next: e }),
            Token::Open => Ok(Args { words: acc, opens: true, at: b, next: e }),
            Token::Close => Err(
                Fault {
                    line: cursor::line_at(s, b),
                    msg: "unexpected `}` in directive \""@ + name + "\" (missing `;`?)"@,
                },
            ),
            Token::Eof => Err(
                Fault {
                    line: cursor::line_at(s, b),
                    msg: "unexpected end of file in directive \""@ + name + "\" (missing `;`?)"@,
                },
            ),
        },
    }
}

proof fn lemma_args_from(s: Seq<char>, p: int, name: Seq<char>, acc: Seq<Seq<char>>)
    requires
        0 <= p <= s.len(),
    ensures
        args_from(s, p, name, acc) matches Ok(a) ==> p <= a.at < a.next <= s.len(),
    decreases s.len() - p,
{
    lemma_token_progress(s, p);
    cursor::lemma_trivia_end(s, p);
    match token_at(s, cursor::trivia_end(s, p)) {
        Some((Token::Word(w), e)) => lemma_args_from(s, e, name, acc.push(w)),
        _ => {},
    }
}

/// `first` in front of the directives of a parsed block.
pub open spec fn prepend(first: Seq<Dir>, rest: Result<(Seq<Dir>, int), Fault>) -> Result<
    (Seq<Dir>, int),
    Fault,
> {
    match rest {
        Ok((ds, e)) => Ok((first + ds, e)),
        Err(f) => Err(f),
    }
}

/// Blocks nest at most this deep.
pub const MAX_DEPTH: u32 = 64;

/// The directives from `p` on, up to the `}` that closes the block (at depth
/// zero: the end of the text), and the position behind it.
pub open spec fn block_from(s: Seq<char>, p: int, depth: nat) -> Result<(Seq<Dir>, int), Fault>
    decreases s.len() - p,
{
    let b = cursor::trivia_end(s, p);
    if depth > MAX_DEPTH {
        Err(Fault { line: cursor::line_at(s, p), msg: "blocks nested too deeply"@ })
    } else {
        match token_at(s, b) {
            None => Err(Fault { line: cursor::line_at(s, b), msg: "unterminated quoted string"@ }),
            Some((Token::Eof, e)) => if depth > 0 {
                Err(Fault { line: cursor::line_at(s, b), msg: "unexpected end of file, expecting `}`"@ })
            } else {
                Ok((seq![], e))
            },
            Some((Token::Close, e)) => if depth == 0 {
                Err(Fault { line: cursor::line_at(s, b), msg: "unexpected `}`"@ })
            } else {
                Ok((seq![], e))
            },
            Some((Token::Semi, _)) => Err(Fault { line: cursor::line_at(s, b), msg: "unexpected `;`"@ }),
            Some((Token::Open, _)) => Err(Fault { line: cursor::line_at(s, b), msg: "unexpected `{`"@ }),
            Some((Token::Word(name), e)) => match args_from(s, e, name, seq![]) {
                Err(f) => Err(f),
                Ok(a) => {
                    let head = Dir { name, args: a.words, block: None, line: cursor::line_at(s, b) };
                    let body: Result<(Option<Seq<Dir>>, int), Fault> = if !a.opens {
                        Ok((None, a.next))
                    } else if text::ends(name, "_by_lua_block"@) {
                        match lua_end(s, a.next, 1) {
                            Err(msg) => Err(Fault { line: cursor::line_at(s, a.at), msg }),
                            Ok(e) => Ok((Some(seq![]), e)),
                        }
                    } else if p < a.next <= s.len() {
                        match block_from(s, a.next, depth + 1) {
                            Err(f) => Err(f),
                            Ok((ds, e)) => Ok((Some(ds), e)),
                        }
                    } else {
                        arbitrary()
                    };
                    match body {
                        Err(f) => Err(f),
                        // Every directive takes up some text (`lemma_block_from`).
                        Ok((block, e)) => if p < e <= s.len() {
                            prepend(seq![Dir { block, ..head }], block_from(s, e, depth))
                        } else {
                            arbitrary()
                        },
                    }
                },
            },
        }
    }
}

proof fn lemma_block_from(s: Seq<char>, p: int, depth: nat)
    requires
        0 <= p <= s.len(),
    ensures
        block_from(s, p, depth) matches Ok((ds, e)) ==> p <= e <= s.len(),
    decreases s.len() - p,
{
    lemma_token_progress(s, p);
    cursor::lemma_trivia_end(s, p);
    if depth <= MAX_DEPTH {
        match token_at(s, cursor::trivia_end(s, p)) {
            Some((Token::Word(name), e)) => {
                lemma_args_from(s, e, name, seq![]);
                match args_from(s, e, name, seq![]) {
                    Ok(a) => {
                        lemma_lua_end(s, a.next, 1);
                        lemma_block_from(s, a.next, depth + 1);
                        lemma_block_from(s, a.next, depth);
                        match lua_end(s, a.next, 1) {
                            Ok(e) => lemma_block_from(s, e, depth),
                            _ => {},
                        }
                        match block_from(s, a.next, depth + 1) {
                            Ok((ds, e)) => lemma_block_from(s, e, depth),
                            _ => {},
                        }
                    },
                    _ => {},
                }
            },
            _ => {},
        }
    }
}

/// The directive tree of an nginx configuration.
pub open spec fn parse_of(s: Seq<char>) -> Result<Seq<Dir>, Fault> {
    match block_from(s, 0, 0) {
        Ok((ds, _)) => Ok(ds),
        Err(f) => Err(f),
    }
}

// ── Lexer ───────────────────────────────────────────────────────────────
enum Tok {
    Word(String),
    Open,
    Close,
    Semi,
    Eof,
}

spec fn tok_view(t: Tok) -> Token {
    match t {
        Tok::Word(w) => Token::Word(w@),
        Tok::Open => Token::Open,
        Tok::Close => Token::Close,
        Tok::Semi => Token::Semi,
        Tok::Eof => Token::Eof,
    }
}

impl Cursor {
    /// The rest of a quoted word, behind its opening quote.
    fn quoted_word(&mut self, quote: char, start_line: u32) -> (r: Result<String, ParseError>)
        requires
            old(self).wf(),
        ensures
            final(self).wf(),
            final(self).chars == old(self).chars,
            final(self).pos >= old(self).pos,
            match r {
                Ok(w) => quoted(old(self).chars@, old(self).pos as int, quote, seq![]) == Some(
                    (w@, final(self).pos as int),
                ),
                Err(e) => quoted(old(self).chars@, old(self).pos as int, quote, seq![]) is None
                    && e@ == (Fault { line: start_line as int, msg: "unterminated quoted string"@ }),
            },
    {
        let mut out = String::new();
        assert(out@ =~= seq![]);
        loop
            invariant
                self.wf(),
                self.chars == old(self).chars,
                self.pos >= old(self).pos,
                quoted(old(self).chars@, old(self).pos as int, quote, seq![]) == quoted(
                    self.chars@,
                    self.pos as int,
                    quote,
                    out@,
                ),
            decreases self.chars.len() - self.pos,
        {
            match self.bump() {
                None => {
                    return Err(unterminated(start_line));
                },
                Some('\\') => match self.bump() {
                    None => {
                        return Err(unterminated(start_line));
                    },
                    Some(c) => {
                        if c == quote || c == '\\' {
                            out.push(c);
                        } else {
                            out.push('\\');
                            out.push(c);
                        }
                    },
                },
                Some(c) => {
                    if c == quote {
                        return Ok(out);
                    }
                    out.push(c);
                },
            }
        }
    }

    /// The unquoted word from the current position on.
    fn bare_word(&mut self) -> (r: String)
        requires
            old(self).wf(),
        ensures
            final(self).wf(),
            final(self).chars == old(self).chars,
            final(self).pos == bare_end(old(self).chars@, old(self).pos as int),
            r@ == old(self).chars@.subrange(old(self).pos as int, final(self).pos as int),
    {
        let start: usize = self.pos;
        loop
            invariant
                self.wf(),
                self.chars == old(self).chars,
                start == old(self).pos,
                start <= self.pos,
                bare_end(self.chars@, self.pos as int) == bare_end(
                    old(self).chars@,
                    old(self).pos as int,
                ),
            ensures
                self.wf(),
                self.chars == old(self).chars,
                start == old(self).pos,
                start <= self.pos,
                self.pos == bare_end(old(self).chars@, old(self).pos as int),
            decreases self.chars.len() - self.pos,
        {
            if self.pos >= self.chars.len() {
                break;
            }
            let c: char = self.chars[self.pos];
            if is_white(c) || c == '{' || c == '}' || c == ';' {
                break;
            }
            self.bump();
            if c == '\\' {
                self.bump();
            } else if c == '$' && self.pos < self.chars.len() && self.chars[self.pos] == '{' {
                // The brace form of a variable, through its `}`.
                proof {
                    text::lemma_index_of(self.chars@, '}', self.pos as int);
                }
                self.skip_past('}');
            }
        }
        slice_of(&self.chars, start, self.pos)
    }

    /// The next token and the line on which it begins.
    fn next_tok(&mut self) -> (r: Result<(Tok, u32), ParseError>)
        requires
            old(self).wf(),
        ensures
            final(self).wf(),
            final(self).chars == old(self).chars,
            final(self).pos >= old(self).pos,
            ({
                let s = old(self).chars@;
                let b = cursor::trivia_end(s, old(self).pos as int);
                match r {
                    Ok((t, l)) => l == cursor::line_at(s, b) && token_at(s, b) == Some(
                        (tok_view(t), final(self).pos as int),
                    ),
                    Err(e) => token_at(s, b) is None && e@ == (Fault {
                        line: cursor::line_at(s, b),
                        msg: "unterminated quoted string"@,
                    }),
                }
            }),
    {
        proof {
            cursor::lemma_trivia_end(self.chars@, self.pos as int);
        }
        self.skip_trivia();
        let ghost b = self.pos as int;
        let line: u32 = self.line;
        if self.pos >= self.chars.len() {
            return Ok((Tok::Eof, line));
        }
        let c: char = self.chars[self.pos];
        if c == '{' {
            self.bump();
            Ok((Tok::Open, line))
        } else if c == '}' {
            self.bump();
            Ok((Tok::Close, line))
        } else if c == ';' {
            self.bump();
            Ok((Tok::Semi, line))
        } else if c == '\'' || c == '"' {
            self.bump();
            proof {
                lemma_quoted(self.chars@, self.pos as int, c, seq![]);
            }
            match self.quoted_word(c, line) {
                Ok(w) => Ok((Tok::Word(w), line)),
                Err(e) => Err(e),
            }
        } else {
            proof {
                lemma_bare_end(self.chars@, b);
            }
            let w = self.bare_word();
            Ok((Tok::Word(w), line))
        }
    }

    /// Skips the body of a `*_by_lua_block`, behind its opening `{`.
    fn skip_lua_block(&mut self, start_line: u32) -> (r: Result<(), ParseError>)
        requires
            old(self).wf(),
        ensures
            final(self).wf(),
            final(self).chars == old(self).chars,
            match r {
                Ok(_) => lua_end(old(self).chars@, old(self).pos as int, 1) == Ok::<int, Seq<char>>(
                    final(self).pos as int,
                ),
                Err(e) => lua_end(old(self).chars@, old(self).pos as int, 1) == Err::<
                    int,
                    Seq<char>,
                >(e.msg@) && e.line == start_line,
            },
    {
        let mut depth: u32 = 1;
        while depth > 0
            invariant
                self.wf(),
                self.chars == old(self).chars,
                depth <= 1 + self.pos,
                lua_end(self.chars@, self.pos as int, depth as nat) == lua_end(
                    old(self).chars@,
                    old(self).pos as int,
                    1,
                ),
            decreases self.chars.len() - self.pos,
        {
            let ghost p = self.pos as int;
            match self.bump() {
                None => {
                    return Err(
                        ParseError {
                            line: start_line,
                            msg: "unterminated *_by_lua_block (missing `}`)".to_owned(),
                        },
                    );
                },
                Some(c) => {
                    if c == '{' {
                        depth += 1;
                    } else if c == '}' {
                        depth -= 1;
                    } else if c == '\'' || c == '"' {
                        let ghost q = self.pos as int;
                        proof {
                            lemma_lua_string_end(self.chars@, q, c);
                        }
                        if !self.skip_lua_string(c) {
                            return Err(
                                ParseError {
                                    line: start_line,
                                    msg: "unterminated string in lua block".to_owned(),
                                },
                            );
                        }
                    } else if c == '-' && self.pos < self.chars.len() && self.chars[self.pos]
                        == '-' {
                        proof {
                            text::lemma_index_of(self.chars@, '\n', self.pos as int);
                        }
                        self.skip_past('\n');
                    }
                },
            }
        }
        Ok(())
    }

    /// Skips a Lua string, behind its opening quote; `false` if it is not closed.
    fn skip_lua_string(&mut self, q: char) -> (r: bool)
        requires
            old(self).wf(),
        ensures
            final(self).wf(),
            final(self).chars == old(self).chars,
            match lua_string_end(old(self).chars@, old(self).pos as int, q) {
                Some(e) => r && final(self).pos == e,
                None => !r,
            },
    {
        loop
            invariant
                self.wf(),
                self.chars == old(self).chars,
                lua_string_end(self.chars@, self.pos as int, q) == lua_string_end(
                    old(self).chars@,
                    old(self).pos as int,
                    q,
                ),
            decreases self.chars.len() - self.pos,
        {
            match self.bump() {
                None => {
                    return false;
                },
                Some(c) => {
                    if c == '\\' {
                        self.bump();
                    } else if c == q {
                        return true;
                    }
                },
            }
        }
    }
}

fn unterminated(line: u32) -> (r: ParseError)
    ensures
        r@ == (Fault { line: line as int, msg: "unterminated quoted string"@ }),
{
    ParseError { line, msg: "unterminated quoted string".to_owned() }
}

fn fault(line: u32, msg: &str) -> (r: ParseError)
    ensures
        r@ == (Fault { line: line as int, msg: msg@ }),
{
    ParseError { line, msg: msg.to_owned() }
}

// ── Parser ──────────────────────────────────────────────────────────────
struct ArgList {
    words: Vec<String>,
    opens: bool,
    line: u32,
}

fn parse_args(lx: &mut Cursor, name: &str) -> (r: Result<ArgList, ParseError>)
    requires
        old(lx).wf(),
    ensures
        final(lx).wf(),
        final(lx).chars == old(lx).chars,
        final(lx).pos >= old(lx).pos,
        ({
            let s = old(lx).chars@;
            match args_from(s, old(lx).pos as int, name@, seq![]) {
                Ok(a) => r matches Ok(l) && text::views(l.words@) == a.words && l.opens == a.opens
                    && l.line == cursor::line_at(s, a.at) && final(lx).pos == a.next,
                Err(f) => r matches Err(e) && e@ == f,
            }
        }),
{
    let mut words: Vec<String> = Vec::new();
    assert(text::views(words@) =~= seq![]);
    loop
        invariant
            lx.wf(),
            lx.chars == old(lx).chars,
            lx.pos >= old(lx).pos,
            args_from(lx.chars@, lx.pos as int, name@, text::views(words@)) == args_from(
                old(lx).chars@,
                old(lx).pos as int,
                name@,
                seq![],
            ),
        decreases lx.chars.len() - lx.pos,
    {
        proof {
            lemma_token_progress(lx.chars@, lx.pos as int);
        }
        let (tok, line) = match lx.next_tok() {
            Ok(t) => t,
            Err(e) => {
                return Err(e);
            },
        };
        match tok {
            Tok::Word(w) => {
                words.push(w);
            },
            Tok::Semi => {
                return Ok(ArgList { words, opens: false, line });
            },
            Tok::Open => {
                return Ok(ArgList { words, opens: true, line });
            },
            Tok::Close => {
                let msg = cat3("unexpected `}` in directive \"", name, "\" (missing `;`?)");
                return Err(ParseError { line, msg });
            },
            Tok::Eof => {
                let msg = cat3("unexpected end of file in directive \"", name, "\" (missing `;`?)");
                return Err(ParseError { line, msg });
            },
        }
    }
}

spec fn block_result(
    r: Result<Vec<Directive>, ParseError>,
    end: int,
    want: Result<(Seq<Dir>, int), Fault>,
) -> bool {
    match want {
        Ok((ds, e)) => r matches Ok(v) && text::views(v@) == ds && end == e,
        Err(f) => r matches Err(e) && e@ == f,
    }
}

pub proof fn lemma_prepend(items: Seq<Dir>, d: Dir, rest: Result<(Seq<Dir>, int), Fault>)
    ensures
        prepend(items, prepend(seq![d], rest)) == prepend(items.push(d), rest),
{
    match rest {
        Ok((ds, e)) => {
            assert(items + (seq![d] + ds) =~= items.push(d) + ds);
        },
        Err(f) => {},
    }
}

fn parse_block(lx: &mut Cursor, depth: u32) -> (r: Result<Vec<Directive>, ParseError>)
    requires
        old(lx).wf(),
        depth <= MAX_DEPTH + 1,
    ensures
        final(lx).wf(),
        final(lx).chars == old(lx).chars,
        block_result(
            r,
            final(lx).pos as int,
            block_from(old(lx).chars@, old(lx).pos as int, depth as nat),
        ),
    decreases MAX_DEPTH + 1 - depth,
{
    if depth > MAX_DEPTH {
        return Err(fault(lx.line, "blocks nested too deeply"));
    }
    let mut items: Vec<Directive> = Vec::new();
    let ghost s = lx.chars@;
    proof {
        match block_from(s, lx.pos as int, depth as nat) {
            Ok((ds, e)) => assert(text::views(items@) + ds =~= ds),
            Err(f) => {},
        }
    }
    loop
        invariant
            lx.wf(),
            lx.chars == old(lx).chars,
            s == lx.chars@,
            depth <= MAX_DEPTH,
            block_from(s, old(lx).pos as int, depth as nat) == prepend(
                text::views(items@),
                block_from(s, lx.pos as int, depth as nat),
            ),
        decreases lx.chars.len() - lx.pos,
    {
        let ghost p = lx.pos as int;
        let ghost b = cursor::trivia_end(s, p);
        let ghost before = text::views(items@);
        proof {
            lemma_token_progress(s, p);
            cursor::lemma_trivia_end(s, p);
            assert(before + Seq::<Dir>::empty() =~= before);
        }
        let (tok, line) = match lx.next_tok() {
            Ok(t) => t,
            Err(e) => {
                return Err(e);
            },
        };
        let name = match tok {
            Tok::Eof => {
                if depth > 0 {
                    return Err(fault(line, "unexpected end of file, expecting `}`"));
                }
                return Ok(items);
            },
            Tok::Close => {
                if depth == 0 {
                    return Err(fault(line, "unexpected `}`"));
                }
                return Ok(items);
            },
            Tok::Semi => {
                return Err(fault(line, "unexpected `;`"));
            },
            Tok::Open => {
                return Err(fault(line, "unexpected `{`"));
            },
            Tok::Word(w) => w,
        };
        proof {
            lemma_args_from(s, lx.pos as int, name@, seq![]);
        }
        let list = match parse_args(lx, name.as_str()) {
            Ok(l) => l,
            Err(e) => {
                return Err(e);
            },
        };
        let ghost next = lx.pos as int;
        proof {
            lemma_lua_end(s, next, 1);
            lemma_block_from(s, next, (depth + 1) as nat);
        }
        let block: Option<Vec<Directive>> = if !list.opens {
            None
        } else if ends_with(name.as_str(), "_by_lua_block") {
            match lx.skip_lua_block(list.line) {
                Ok(_) => {},
                Err(e) => {
                    return Err(e);
                },
            }
            Some(Vec::new())
        } else {
            match parse_block(lx, depth + 1) {
                Ok(v) => Some(v),
                Err(e) => {
                    return Err(e);
                },
            }
        };
        let d = Directive { name, args: list.words, block, line };
        proof {
            lemma_dir_view(d);
            lemma_prepend(before, d@, block_from(s, lx.pos as int, depth as nat));
        }
        items.push(d);
    }
}

/// Parses an nginx configuration into its directive tree.
pub fn parse(src: &str) -> (r: Result<Vec<Directive>, ParseError>)
    requires
        src@.len() < u32::MAX,
    ensures
        match parse_of(src@) {
            Ok(ds) => r matches Ok(v) && text::views(v@) == ds,
            Err(f) => r matches Err(e) && e@ == f,
        },
{
    let mut lx = Cursor { chars: chars_of(src), pos: 0, line: 1 };
    parse_block(&mut lx, 0)
}

pub open spec fn fault_text(f: Fault) -> Seq<char> {
    "line "@ + text::dec(f.line as nat) + ": "@ + f.msg
}

impl ParseError {
    /// The error as it is shown to the operator.
    pub fn to_text(&self) -> (r: String)
        ensures
            r@ == fault_text(self@),
    {
        text::cat4(
            "line ",
            text::dec_text(self.line as u64).as_str(),
            ": ",
            self.msg.as_str(),
        )
    }
}

// ── Laws ────────────────────────────────────────────────────────────────
/// A character that an unquoted word may hold anywhere.
pub open spec fn plain(c: char) -> bool {
    !text::white(c) && c != '{' && c != '}' && c != ';' && c != '\\'
}

/// A text that needs no quotes to be read as one word.
pub open spec fn plain_word(w: Seq<char>) -> bool {
    &&& w.len() > 0
    &&& w[0] != '\'' && w[0] != '"' && w[0] != '#'
    &&& forall|i: int| 0 <= i < w.len() ==> plain(#[trigger] w[i])
}

/// Words with a blank between any two of them.
pub open spec fn spaced(words: Seq<Seq<char>>) -> Seq<char>
    decreases words.len(),
{
    if words.len() == 0 {
        seq![]
    } else if words.len() == 1 {
        words[0]
    } else {
        words[0] + seq![' '] + spaced(words.subrange(1, words.len() as int))
    }
}

proof fn lemma_plain_run(s: Seq<char>, i: int, e: int)
    requires
        0 <= i <= e < s.len(),
        forall|j: int| i <= j < e ==> plain(#[trigger] s[j]),
        s[e] == ' ' || s[e] == ';',
    ensures
        bare_end(s, i) == e,
    decreases e - i,
{
    if i < e {
        assert(plain(s[i]));
        if i + 1 < e {
            assert(plain(s[i + 1]));
        }
        lemma_plain_run(s, i + 1, e);
    }
}

pub proof fn lemma_plain_token(s: Seq<char>, p: int, w: Seq<char>)
    requires
        0 <= p,
        p + w.len() < s.len(),
        plain_word(w),
        s.subrange(p, p + w.len()) == w,
        s[p + w.len()] == ' ' || s[p + w.len()] == ';',
    ensures
        cursor::trivia_end(s, p) == p,
        token_at(s, p) == Some((Token::Word(w), p + w.len())),
{
    let e = p + w.len();
    assert forall|j: int| p <= j < e implies plain(#[trigger] s[j]) by {
        assert(s[j] == w[j - p]);
    }
    assert(s[p] == w[0]);
    lemma_plain_run(s, p, e);
}

proof fn lemma_spaced_args(
    s: Seq<char>,
    p: int,
    lead: Seq<char>,
    name: Seq<char>,
    acc: Seq<Seq<char>>,
    args: Seq<Seq<char>>,
)
    requires
        0 <= p <= s.len(),
        lead == Seq::<char>::empty() || lead == seq![' '],
        s.subrange(p, s.len() as int) == lead + spaced(args) + seq![';'],
        forall|i: int| 0 <= i < args.len() ==> plain_word(#[trigger] args[i]),
    ensures
        args_from(s, p, name, acc) matches Ok(a) && a.words == acc + args && !a.opens && a.next
            == s.len(),
    decreases args.len(),
{
    let t = s.subrange(p, s.len() as int);
    let b = p + lead.len();
    assert(lead.len() == 1 ==> t[0] == ' ' && s[p] == t[0]);
    if args.len() == 0 {
        assert(t[lead.len() as int] == ';');
        assert(s[b] == ';');
        assert(cursor::trivia_end(s, b) == b);
        assert(cursor::trivia_end(s, p) == b);
        assert(acc + args =~= acc);
    } else {
        let w = args[0];
        let e = b + w.len();
        assert(plain_word(w));
        assert(spaced(args).len() >= w.len());
        assert(spaced(args).subrange(0, w.len() as int) =~= w);
        assert(s.subrange(b, e) =~= w) by {
            assert forall|j: int| 0 <= j < w.len() implies s.subrange(b, e)[j] == w[j] by {
                assert(s.subrange(b, e)[j] == t[lead.len() + j]);
                assert(t[lead.len() + j] == spaced(args)[j]);
                assert(spaced(args).subrange(0, w.len() as int)[j] == spaced(args)[j]);
            }
        }
        let rest = args.subrange(1, args.len() as int);
        let lead2 = if args.len() == 1 {
            Seq::<char>::empty()
        } else {
            seq![' ']
        };
        assert(spaced(args) =~= w + lead2 + spaced(rest));
        assert(s.subrange(e, s.len() as int) =~= lead2 + spaced(rest) + seq![';']) by {
            assert(t =~= lead + w + (lead2 + spaced(rest) + seq![';']));
            assert(s.subrange(e, s.len() as int) =~= t.subrange(
                (lead.len() + w.len()) as int,
                t.len() as int,
            ));
        }
        let u = lead2 + spaced(rest) + seq![';'];
        assert(u[0] == ' ' || u[0] == ';') by {
            if args.len() == 1 {
                assert(spaced(rest) =~= seq![]);
            }
        }
        assert(s[e] == s.subrange(e, s.len() as int)[0]);
        lemma_plain_token(s, b, w);
        assert(s[b] == w[0]) by {
            assert(s.subrange(b, e)[0] == s[b]);
        }
        assert(cursor::trivia_end(s, p) == b);
        lemma_spaced_args(s, e, lead2, name, acc.push(w), rest);
        assert(acc.push(w) + rest =~= acc + args);
    }
}

/// A simple directive that is written with plain words reads back as itself:
/// one directive with that name and those arguments.
pub proof fn law_simple_directive_round_trip(name: Seq<char>, args: Seq<Seq<char>>)
    requires
        plain_word(name),
        forall|i: int| 0 <= i < args.len() ==> plain_word(#[trigger] args[i]),
    ensures
        parse_of(name + seq![' '] + spaced(args) + seq![';']) == Ok::<Seq<Dir>, Fault>(
            seq![Dir { name, args, block: None, line: 1 }],
        ),
{
    let s = name + seq![' '] + spaced(args) + seq![';'];
    let e = name.len() as int;
    assert(s.subrange(0, e) =~= name);
    lemma_plain_token(s, 0, name);
    assert(s.subrange(e, s.len() as int) =~= seq![' '] + spaced(args) + seq![';']);
    lemma_spaced_args(s, e, seq![' '], name, seq![], args);
    assert(Seq::<Seq<char>>::empty() + args =~= args);
    let a = args_from(s, e, name, seq![])->Ok_0;
    assert(cursor::line_at(s, 0) == 1);
    assert(cursor::trivia_end(s, s.len() as int) == s.len());
    reveal_with_fuel(block_from, 2);
    let d = Dir { name, args, block: None, line: 1 };
    assert(block_from(s, s.len() as int, 0) == Ok::<(Seq<Dir>, int), Fault>(
        (seq![], s.len() as int),
    ));
    assert(seq![d] + Seq::<Dir>::empty() =~= seq![d]);
    assert(block_from(s, 0, 0) == prepend(seq![d], block_from(s, s.len() as int, 0)));
}

} // verus!
