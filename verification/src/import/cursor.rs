//! Walking through a source text, line by line.
use crate::text;
use crate::text::{find_from, is_white};
use vstd::prelude::*;

verus! {

/// The 1-based line on which the character at `p` stands.
pub open spec fn line_at(s: Seq<char>, p: int) -> int
    decreases p,
{
    if p <= 0 {
        1
    } else if s[p - 1] == '\n' {
        line_at(s, p - 1) + 1
    } else {
        line_at(s, p - 1)
    }
}

pub proof fn lemma_line_at(s: Seq<char>, p: int)
    requires
        0 <= p,
    ensures
        1 <= line_at(s, p) <= p + 1,
    decreases p,
{
    if p > 0 {
        lemma_line_at(s, p - 1);
    }
}

/// Just behind the first `c` from `p` on, or the end of the text.
pub open spec fn past(s: Seq<char>, c: char, p: int) -> int {
    let i = text::index_of(s, c, p);
    if i < s.len() {
        i + 1
    } else {
        s.len() as int
    }
}

/// Where the next token starts: white space and comments are skipped. A `#`
/// starts a comment only where a token may start: `foo#bar` is one word.
pub open spec fn trivia_end(s: Seq<char>, p: int) -> int
    decreases s.len() - p,
{
    if p < 0 || p >= s.len() {
        p
    } else if text::white(s[p]) {
        trivia_end(s, p + 1)
    } else if s[p] == '#' {
        proof {
            text::lemma_index_of(s, '\n', p);
        }
        trivia_end(s, past(s, '\n', p))
    } else {
        p
    }
}

pub proof fn lemma_trivia_end(s: Seq<char>, p: int)
    requires
        0 <= p <= s.len(),
    ensures
        p <= trivia_end(s, p) <= s.len(),
        trivia_end(s, p) < s.len() ==> !text::white(s[trivia_end(s, p)]) && s[trivia_end(s, p)] != '#',
    decreases s.len() - p,
{
    if p < s.len() {
        if text::white(s[p]) {
            lemma_trivia_end(s, p + 1);
        } else if s[p] == '#' {
            text::lemma_index_of(s, '\n', p);
            lemma_trivia_end(s, past(s, '\n', p));
        }
    }
}

/// A position in a source text, with the line it is on.
pub struct Cursor {
    pub chars: Vec<char>,
    pub pos: usize,
    pub line: u32,
}

impl Cursor {
    pub open spec fn wf(self) -> bool {
        &&& self.pos <= self.chars.len()
        &&& self.chars.len() < u32::MAX
        &&& self.line == line_at(self.chars@, self.pos as int)
    }

    pub fn bump(&mut self) -> (r: Option<char>)
        requires
            old(self).wf(),
        ensures
            final(self).wf(),
            final(self).chars == old(self).chars,
            match r {
                Some(c) => old(self).pos < old(self).chars.len() && c
                    == old(self).chars@[old(self).pos as int] && final(self).pos == old(self).pos
                    + 1,
                None => old(self).pos == old(self).chars.len() && final(self).pos == old(self).pos,
            },
    {
        if self.pos < self.chars.len() {
            let c: char = self.chars[self.pos];
            proof {
                lemma_line_at(self.chars@, self.pos + 1);
            }
            if c == '\n' {
                self.line += 1;
            }
            self.pos += 1;
            Some(c)
        } else {
            None
        }
    }

    /// Moves to `to`, counting lines on the way.
    pub fn advance(&mut self, to: usize)
        requires
            old(self).wf(),
            old(self).pos <= to <= old(self).chars.len(),
        ensures
            final(self).wf(),
            final(self).chars == old(self).chars,
            final(self).pos == to,
    {
        while self.pos < to
            invariant
                self.wf(),
                self.pos <= to <= self.chars.len(),
                self.chars == old(self).chars,
            decreases to - self.pos,
        {
            self.bump();
        }
    }

    /// Just behind the first `c` from the current position on.
    pub fn skip_past(&mut self, c: char)
        requires
            old(self).wf(),
        ensures
            final(self).wf(),
            final(self).chars == old(self).chars,
            final(self).pos == past(old(self).chars@, c, old(self).pos as int),
            final(self).pos >= old(self).pos,
    {
        let i: usize = find_from(&self.chars, c, self.pos);
        if i < self.chars.len() {
            self.advance(i + 1);
        } else {
            self.advance(i);
        }
    }

    pub fn skip_trivia(&mut self)
        requires
            old(self).wf(),
        ensures
            final(self).wf(),
            final(self).chars == old(self).chars,
            final(self).pos == trivia_end(old(self).chars@, old(self).pos as int),
    {
        loop
            invariant
                self.wf(),
                self.chars == old(self).chars,
                trivia_end(self.chars@, self.pos as int) == trivia_end(
                    old(self).chars@,
                    old(self).pos as int,
                ),
            ensures
                self.wf(),
                self.chars == old(self).chars,
                self.pos == trivia_end(old(self).chars@, old(self).pos as int),
            decreases self.chars.len() - self.pos,
        {
            if self.pos >= self.chars.len() {
                break;
            }
            let c: char = self.chars[self.pos];
            if is_white(c) {
                self.bump();
            } else if c == '#' {
                proof {
                    text::lemma_index_of(self.chars@, '\n', self.pos as int);
                }
                self.skip_past('\n');
            } else {
                break;
            }
        }
    }
}

} // verus!
