//! Docker Compose reader: a declared subset of YAML.
//!
//! Importing from Traefik needs three things out of a compose file: the service
//! names (a router's upstream host is the compose service name), each service's
//! `labels`, and the `command` of the Traefik service itself. So this is no YAML
//! parser. It is an indentation-directed scan over the block-style subset that
//! compose files use, and it refuses every construct it cannot honour rather
//! than guessing: anchors, aliases, merge keys, multi-document streams, tab
//! indentation.
//!
//! Supported node shapes: block mappings, block sequences, flow sequences of
//! scalars, and quoted and plain scalars with YAML's comment rules.
use super::nginx;
use super::nginx::Fault;
use crate::text;
use crate::text::{begins_with, cat4, cat5, chars_of, chomp_line, lines, own, same};
use crate::text::{slice_of, split_once, starts_with, strip_prefix, trim};
use vstd::prelude::*;

verus! {

broadcast use crate::text::group_views;

// ── Model ───────────────────────────────────────────────────────────────
/// One `key=value` label, however it was written.
#[derive(Debug, Clone, PartialEq, Eq)]
pub struct Label {
    pub key: String,
    pub value: String,
    /// 1-based line of the label in the source.
    pub line: u32,
}

#[derive(Debug, Clone)]
pub struct Service {
    pub name: String,
    /// 1-based line of the service key.
    pub line: u32,
    pub image: Option<String>,
    /// `command:` normalized to a token list. A shell-form string stays a
    /// single element: splitting it would be a guess.
    pub command: Vec<String>,
    pub labels: Vec<Label>,
}

#[derive(Debug, Clone)]
pub struct ComposeFile {
    pub services: Vec<Service>,
}

#[derive(Debug, Clone)]
pub struct ParseError {
    pub line: u32,
    pub msg: String,
}

#[verifier::ext_equal]
pub struct LabelV {
    pub key: Seq<char>,
    pub value: Seq<char>,
    pub line: int,
}

#[verifier::ext_equal]
pub struct ServiceV {
    pub name: Seq<char>,
    pub line: int,
    pub image: Option<Seq<char>>,
    pub command: Seq<Seq<char>>,
    pub labels: Seq<LabelV>,
}

impl View for Label {
    type V = LabelV;

    open spec fn view(&self) -> LabelV {
        LabelV { key: self.key@, value: self.value@, line: self.line as int }
    }
}

impl View for Service {
    type V = ServiceV;

    open spec fn view(&self) -> ServiceV {
        ServiceV {
            name: self.name@,
            line: self.line as int,
            image: text::opt(self.image),
            command: text::views(self.command@),
            labels: text::views(self.labels@),
        }
    }
}

impl View for ParseError {
    type V = Fault;

    open spec fn view(&self) -> Fault {
        Fault { line: self.line as int, msg: self.msg@ }
    }
}

impl ParseError {
    /// The error as it is shown to the operator.
    pub fn to_text(&self) -> (r: String)
        ensures
            r@ == nginx::fault_text(self@),
    {
        cat4("line ", text::dec_text(self.line as u64).as_str(), ": ", self.msg.as_str())
    }
}

pub open spec fn fault(line: int, msg: Seq<char>) -> Fault {
    Fault { line, msg }
}

fn err(line: u32, msg: &str) -> (r: ParseError)
    ensures
        r@ == fault(line as int, msg@),
{
    ParseError { line, msg: own(msg) }
}

// ── Lines ───────────────────────────────────────────────────────────────
/// A significant source line: indentation depth, trimmed content, number.
pub struct Line {
    pub indent: usize,
    pub text: String,
    pub no: u32,
}

#[verifier::ext_equal]
pub struct LineV {
    pub indent: nat,
    pub text: Seq<char>,
    pub no: int,
}

impl View for Line {
    type V = LineV;

    open spec fn view(&self) -> LineV {
        LineV { indent: self.indent as nat, text: self.text@, no: self.no as int }
    }
}

/// A compose file with more significant lines than this is not a compose file.
pub const MAX_LINES: usize = 200_000;

/// Where the indentation of a line ends.
pub open spec fn indent_end(s: Seq<char>, p: int) -> int
    decreases s.len() - p,
{
    if 0 <= p < s.len() && (s[p] == ' ' || s[p] == '\t') {
        indent_end(s, p + 1)
    } else {
        p
    }
}

/// A YAML merge key (`<<: *base`): the subset has no inheritance.
pub open spec fn merges(s: Seq<char>) -> bool {
    let body = match text::strip_prefix_of(s, "- "@) {
        Some(b) => b,
        None => s,
    };
    text::starts(body, "<<:"@) || body.subrange(0, text::trimmed_end(body, body.len() as int))
        == "<<"@
}

fn merge_key(s: &str) -> (r: bool)
    ensures
        r == merges(s@),
{
    let body = match strip_prefix(s, "- ") {
        Some(b) => b,
        None => own(s),
    };
    if starts_with(body.as_str(), "<<:") {
        return true;
    }
    let v = chars_of(body.as_str());
    let mut n: usize = v.len();
    while n > 0 && text::is_white(v[n - 1])
        invariant
            n <= v.len(),
            text::trimmed_end(v@, v@.len() as int) == text::trimmed_end(v@, n as int),
        decreases n,
    {
        n -= 1;
    }
    same(slice_of(&v, 0, n).as_str(), "<<")
}

/// The significant lines among the first `n`, and whether content was seen.
pub struct Scanned {
    pub lines: Seq<LineV>,
    pub content: bool,
}

pub open spec fn scan_line(st: Scanned, raw0: Seq<char>, no: int) -> Result<Scanned, Fault> {
    let raw = text::chomp(raw0);
    let indent = indent_end(raw, 0);
    let body = text::trim_of(raw);
    if st.lines.len() >= MAX_LINES {
        Err(fault(no, "input exceeds the compose line budget (200000)"@))
    } else if raw.subrange(0, indent).contains('\t') {
        Err(fault(no, "tab indentation — YAML forbids tabs; use spaces"@))
    } else if body.len() == 0 || body[0] == '#' {
        Ok(st)
    } else if body == "---"@ || body == "..."@ {
        // A leading document start is harmless; a second document means content
        // that would be dropped.
        if st.content {
            Err(
                fault(
                    no,
                    "multi-document YAML stream — split the documents and import them one at a time"@,
                ),
            )
        } else {
            Ok(st)
        }
    } else if merges(body) {
        Err(
            fault(
                no,
                "YAML merge key (`<<`) — the compose subset has no inheritance"@,
            ),
        )
    } else {
        Ok(
            Scanned {
                lines: st.lines.push(LineV { indent: indent as nat, text: body, no }),
                content: true,
            },
        )
    }
}

pub open spec fn scan_of(raw: Seq<Seq<char>>, n: nat) -> Result<Scanned, Fault>
    decreases n,
{
    if n == 0 {
        Ok(Scanned { lines: seq![], content: false })
    } else {
        match scan_of(raw, (n - 1) as nat) {
            Err(f) => Err(f),
            Ok(st) => scan_line(st, raw[n - 1], n as int),
        }
    }
}

proof fn lemma_scan_stops(raw: Seq<Seq<char>>, k: nat, n: nat)
    requires
        k <= n <= raw.len(),
        scan_of(raw, k) is Err,
    ensures
        scan_of(raw, n) == scan_of(raw, k),
    decreases n - k,
{
    if k < n {
        lemma_scan_stops(raw, k, (n - 1) as nat);
    }
}

fn indent_of(v: &Vec<char>) -> (r: usize)
    ensures
        r == indent_end(v@, 0),
        r <= v.len(),
{
    let mut p: usize = 0;
    while p < v.len() && (v[p] == ' ' || v[p] == '\t')
        invariant
            p <= v.len(),
            indent_end(v@, 0) == indent_end(v@, p as int),
        decreases v.len() - p,
    {
        p += 1;
    }
    p
}

fn scan(src: &str) -> (r: Result<Vec<Line>, ParseError>)
    requires
        src@.len() < u32::MAX,
    ensures
        match scan_of(text::lines_of(src@), text::lines_of(src@).len()) {
            Ok(st) => r matches Ok(v) && text::views(v@) == st.lines,
            Err(f) => r matches Err(e) && e@ == f,
        },
{
    let raw = lines(src);
    let ghost rv = text::views(raw@);
    let mut out: Vec<Line> = Vec::new();
    let mut content = false;
    let mut i: usize = 0;
    assert(text::views(out@) =~= seq![]);
    while i < raw.len()
        invariant
            i <= raw.len(),
            raw.len() < u32::MAX,
            rv == text::views(raw@),
            rv == text::lines_of(src@),
            scan_of(rv, i as nat) == Ok::<Scanned, Fault>(
                Scanned { lines: text::views(out@), content },
            ),
        decreases raw.len() - i,
    {
        let no: u32 = (i + 1) as u32;
        assert(rv[i as int] == raw@[i as int]@);
        proof {
            if scan_of(rv, (i + 1) as nat) is Err {
                lemma_scan_stops(rv, (i + 1) as nat, rv.len());
            }
        }
        if out.len() >= MAX_LINES {
            return Err(err(no, "input exceeds the compose line budget (200000)"));
        }
        let line = chomp_line(raw[i].as_str());
        let v = chars_of(line.as_str());
        let indent: usize = indent_of(&v);
        if text::has_char(slice_of(&v, 0, indent).as_str(), '\t') {
            return Err(err(no, "tab indentation — YAML forbids tabs; use spaces"));
        }
        let body = trim(line.as_str());
        if body.as_str().is_empty() || begins_with(body.as_str(), '#') {
        } else if same(body.as_str(), "---") || same(body.as_str(), "...") {
            if content {
                return Err(
                    err(
                        no,
                        "multi-document YAML stream — split the documents and import them one at a time",
                    ),
                );
            }
        } else if merge_key(body.as_str()) {
            return Err(
                err(no, "YAML merge key (`<<`) — the compose subset has no inheritance"),
            );
        } else {
            content = true;
            out.push(Line { indent, text: body, no });
        }
        i += 1;
    }
    Ok(out)
}

// ── Scalars ─────────────────────────────────────────────────────────────
/// What stands behind a backslash in a double-quoted scalar.
pub open spec fn unescape_of(c: char) -> char {
    if c == 'n' {
        '\n'
    } else if c == 't' {
        '\t'
    } else if c == 'r' {
        '\r'
    } else if c == '0' {
        '\0'
    } else {
        c
    }
}

fn unescape(c: char) -> (r: char)
    ensures
        r == unescape_of(c),
{
    if c == 'n' {
        '\n'
    } else if c == 't' {
        '\t'
    } else if c == 'r' {
        '\r'
    } else if c == '0' {
        '\0'
    } else {
        c
    }
}

/// The quoted scalar whose content begins at `p`, behind `acc`; `None` if it is
/// not closed. `''` inside a single-quoted scalar is a literal quote.
pub open spec fn quoted_from(s: Seq<char>, p: int, quote: char, acc: Seq<char>) -> Option<Seq<char>>
    decreases s.len() - p,
{
    if p < 0 || p >= s.len() {
        None
    } else if s[p] == '\\' && quote == '"' {
        if p + 1 < s.len() {
            quoted_from(s, p + 2, quote, acc.push(unescape_of(s[p + 1])))
        } else {
            None
        }
    } else if s[p] == quote {
        if quote == '\'' && p + 1 < s.len() && s[p + 1] == '\'' {
            quoted_from(s, p + 2, quote, acc.push('\''))
        } else {
            Some(acc)
        }
    } else {
        quoted_from(s, p + 1, quote, acc.push(s[p]))
    }
}

pub open spec fn ascii_white(c: char) -> bool {
    c == ' ' || c == '\t' || c == '\n' || c == '\r' || c == '\x0c'
}

/// Where the comment of a plain scalar begins: at a `#` behind white space.
pub open spec fn comment_at(s: Seq<char>, p: int) -> int
    decreases s.len() - p,
{
    if p < 0 || p >= s.len() {
        s.len() as int
    } else if s[p] == '#' && p > 0 && ascii_white(s[p - 1]) {
        p
    } else {
        comment_at(s, p + 1)
    }
}

/// A scalar without its quotes, or without its comment if it is plain.
pub open spec fn scalar_of(raw: Seq<char>) -> Option<Seq<char>> {
    let s = text::trim_of(raw);
    if s.len() == 0 {
        Some(seq![])
    } else if s[0] == '"' || s[0] == '\'' {
        quoted_from(s, 1, s[0], seq![])
    } else {
        Some(text::trim_of(s.subrange(0, comment_at(s, 0))))
    }
}

pub open spec fn scalar_result(raw: Seq<char>, line: int) -> Result<Seq<char>, Fault> {
    match scalar_of(raw) {
        Some(v) => Ok(v),
        None => Err(fault(line, "unterminated quoted string"@)),
    }
}

pub open spec fn text_result(r: Result<String, ParseError>) -> Result<Seq<char>, Fault> {
    match r {
        Ok(s) => Ok(s@),
        Err(e) => Err(e@),
    }
}

fn read_quoted(v: &Vec<char>, quote: char) -> (r: Option<String>)
    requires
        v.len() > 0,
    ensures
        text::opt(r) == quoted_from(v@, 1, quote, seq![]),
{
    let mut out = String::new();
    let mut p: usize = 1;
    assert(out@ =~= seq![]);
    while p < v.len()
        invariant
            1 <= p <= v.len(),
            quoted_from(v@, 1, quote, seq![]) == quoted_from(v@, p as int, quote, out@),
        decreases v.len() - p,
    {
        let c: char = v[p];
        if c == '\\' && quote == '"' {
            if p + 1 < v.len() {
                out.push(unescape(v[p + 1]));
                p += 2;
            } else {
                return None;
            }
        } else if c == quote {
            if quote == '\'' && p + 1 < v.len() && v[p + 1] == '\'' {
                out.push('\'');
                p += 2;
            } else {
                return Some(out);
            }
        } else {
            out.push(c);
            p += 1;
        }
    }
    None
}

fn find_comment(v: &Vec<char>) -> (r: usize)
    ensures
        r == comment_at(v@, 0),
        r <= v.len(),
{
    let mut p: usize = 0;
    while p < v.len()
        invariant
            p <= v.len(),
            comment_at(v@, 0) == comment_at(v@, p as int),
        decreases v.len() - p,
    {
        if v[p] == '#' && p > 0 {
            let c: char = v[p - 1];
            if c == ' ' || c == '\t' || c == '\n' || c == '\r' || c == '\x0c' {
                return p;
            }
        }
        p += 1;
    }
    p
}

pub fn unquote(s: &str, line: u32) -> (r: Result<String, ParseError>)
    ensures
        text_result(r) == scalar_result(s@, line as int),
{
    let t = trim(s);
    let v = chars_of(t.as_str());
    if v.len() == 0 {
        let e = String::new();
        assert(e@ =~= seq![]);
        return Ok(e);
    }
    if v[0] == '"' || v[0] == '\'' {
        return match read_quoted(&v, v[0]) {
            Some(o) => Ok(o),
            None => Err(err(line, "unterminated quoted string")),
        };
    }
    let p: usize = find_comment(&v);
    Ok(trim(slice_of(&v, 0, p).as_str()))
}

/// Where the name of an anchor ends.
pub open spec fn anchor_end(s: Seq<char>, p: int) -> int
    decreases s.len() - p,
{
    if 0 <= p < s.len() && (text::any_alphanumeric(s[p]) || s[p] == '_' || s[p] == '-') {
        anchor_end(s, p + 1)
    } else {
        p
    }
}

/// The anchor or alias that a value begins with. `&&`, `*`, `**` and the like
/// are values.
pub open spec fn anchor_fault(s: Seq<char>, line: int) -> Option<Fault> {
    if s.len() > 0 && (s[0] == '&' || s[0] == '*') && anchor_end(s, 1) > 1 {
        Some(
            fault(
                line,
                "YAML "@ + (if s[0] == '&' {
                    "anchor"@
                } else {
                    "alias"@
                }) + " (`"@ + s.subrange(0, anchor_end(s, 1))
                    + "`) — the compose subset does not resolve anchors; inline the value"@,
            ),
        )
    } else {
        None
    }
}

pub open spec fn opt_fault(e: Option<ParseError>) -> Option<Fault> {
    match e {
        Some(e) => Some(e@),
        None => None,
    }
}

fn find_anchor(value: &str, line: u32) -> (r: Option<ParseError>)
    ensures
        opt_fault(r) == anchor_fault(value@, line as int),
{
    let v = chars_of(value);
    if v.len() == 0 || !(v[0] == '&' || v[0] == '*') {
        return None;
    }
    let mut p: usize = 1;
    while p < v.len() && (v[p].is_alphanumeric() || v[p] == '_' || v[p] == '-')
        invariant
            1 <= p <= v.len(),
            anchor_end(v@, 1) == anchor_end(v@, p as int),
        decreases v.len() - p,
    {
        p += 1;
    }
    if p == 1 {
        return None;
    }
    let msg = cat5(
        "YAML ",
        if v[0] == '&' {
            "anchor"
        } else {
            "alias"
        },
        " (`",
        slice_of(&v, 0, p).as_str(),
        "`) — the compose subset does not resolve anchors; inline the value",
    );
    Some(ParseError { line, msg })
}

// ── Flow sequences ──────────────────────────────────────────────────────
/// The scalars of a flow sequence from `p` on, behind those in `out`; `cur` is
/// the scalar being read, `quote` the quote that is open.
pub open spec fn flow_from(
    s: Seq<char>,
    p: int,
    cur: Seq<char>,
    quote: Option<char>,
    out: Seq<Seq<char>>,
) -> Result<Seq<Seq<char>>, Seq<char>>
    decreases s.len() - p,
{
    if p < 0 || p >= s.len() {
        if quote is Some {
            Err("unterminated quoted string in flow sequence"@)
        } else if text::trim_of(cur).len() > 0 {
            Ok(out.push(text::trim_of(cur)))
        } else {
            // A trailing empty element only appears after a trailing comma.
            Ok(out)
        }
    } else {
        match quote {
            Some(q) => if s[p] == '\\' && q == '"' {
                if p + 1 < s.len() {
                    flow_from(s, p + 2, cur.push(unescape_of(s[p + 1])), quote, out)
                } else {
                    flow_from(s, p + 1, cur, quote, out)
                }
            } else if s[p] == q {
                if q == '\'' && p + 1 < s.len() && s[p + 1] == '\'' {
                    flow_from(s, p + 2, cur.push('\''), quote, out)
                } else {
                    flow_from(s, p + 1, cur, None, out)
                }
            } else {
                flow_from(s, p + 1, cur.push(s[p]), quote, out)
            },
            None => if s[p] == '\'' || s[p] == '"' {
                flow_from(s, p + 1, cur, Some(s[p]), out)
            } else if s[p] == ',' {
                flow_from(s, p + 1, seq![], None, out.push(text::trim_of(cur)))
            } else if s[p] == '[' || s[p] == '{' {
                Err("nested flow collections are out of subset"@)
            } else {
                flow_from(s, p + 1, cur.push(s[p]), None, out)
            },
        }
    }
}

/// `[a, b, "c, d"]` as its scalars.
pub open spec fn flow_of(s: Seq<char>) -> Result<Seq<Seq<char>>, Seq<char>> {
    if !text::begins(s, '[') {
        Err("expected a flow sequence starting with `[`"@)
    } else {
        let body = s.subrange(1, s.len() as int);
        let end = text::last_index_of(body, ']', body.len() as int);
        if end < 0 {
            Err("unterminated flow sequence — missing `]`"@)
        } else {
            flow_from(body.subrange(0, end), 0, seq![], None, seq![])
        }
    }
}

pub open spec fn list_result(r: Result<Vec<String>, ParseError>) -> Result<Seq<Seq<char>>, Fault> {
    match r {
        Ok(v) => Ok(text::views(v@)),
        Err(e) => Err(e@),
    }
}

pub open spec fn flow_result(s: Seq<char>, line: int) -> Result<Seq<Seq<char>>, Fault> {
    match flow_of(s) {
        Ok(v) => Ok(v),
        Err(msg) => Err(fault(line, msg)),
    }
}

pub fn parse_flow_seq(s: &str, line: u32) -> (r: Result<Vec<String>, ParseError>)
    ensures
        list_result(r) == flow_result(s@, line as int),
{
    if !begins_with(s, '[') {
        return Err(err(line, "expected a flow sequence starting with `[`"));
    }
    let whole = chars_of(s);
    let rest = slice_of(&whole, 1, whole.len());
    let body = match text::rsplit_once(rest.as_str(), ']') {
        Some((b, _)) => b,
        None => {
            return Err(err(line, "unterminated flow sequence — missing `]`"));
        },
    };
    let v = chars_of(body.as_str());
    let mut out: Vec<String> = Vec::new();
    let mut cur = String::new();
    let mut quote: Option<char> = None;
    let mut p: usize = 0;
    assert(text::views(out@) =~= seq![]);
    assert(cur@ =~= seq![]);
    while p < v.len()
        invariant
            p <= v.len(),
            flow_from(v@, 0, seq![], None, seq![]) == flow_from(
                v@,
                p as int,
                cur@,
                quote,
                text::views(out@),
            ),
            flow_result(s@, line as int) == (match flow_from(v@, 0, seq![], None, seq![]) {
                Ok(v) => Ok::<Seq<Seq<char>>, Fault>(v),
                Err(msg) => Err::<Seq<Seq<char>>, Fault>(fault(line as int, msg)),
            }),
        decreases v.len() - p,
    {
        let c: char = v[p];
        match quote {
            Some(q) => {
                if c == '\\' && q == '"' {
                    if p + 1 < v.len() {
                        cur.push(unescape(v[p + 1]));
                        p += 1;
                    }
                } else if c == q {
                    if q == '\'' && p + 1 < v.len() && v[p + 1] == '\'' {
                        cur.push('\'');
                        p += 1;
                    } else {
                        quote = None;
                    }
                } else {
                    cur.push(c);
                }
            },
            None => {
                if c == '\'' || c == '"' {
                    quote = Some(c);
                } else if c == ',' {
                    out.push(trim(cur.as_str()));
                    cur = String::new();
                    assert(cur@ =~= seq![]);
                } else if c == '[' || c == '{' {
                    return Err(err(line, "nested flow collections are out of subset"));
                } else {
                    cur.push(c);
                }
            },
        }
        p += 1;
    }
    if quote.is_some() {
        return Err(err(line, "unterminated quoted string in flow sequence"));
    }
    let tail = trim(cur.as_str());
    if !tail.as_str().is_empty() {
        out.push(tail);
    }
    Ok(out)
}

// ── Labels ──────────────────────────────────────────────────────────────
/// A `key=value` label. One without `=` keeps an empty value.
pub open spec fn label_of(s: Seq<char>, line: int) -> LabelV {
    match text::split_once_of(s, '=') {
        Some((k, v)) => LabelV { key: text::trim_of(k), value: v, line },
        None => LabelV { key: text::trim_of(s), value: ""@, line },
    }
}

pub fn split_label(s: &str, line: u32) -> (r: Label)
    ensures
        r@ == label_of(s@, line as int),
{
    match split_once(s, '=') {
        Some((k, v)) => Label { key: trim(k.as_str()), value: v, line },
        None => Label { key: trim(s), value: own(""), line },
    }
}

// ── Mappings ────────────────────────────────────────────────────────────
/// Where the `:` that ends a key stands: the first at the end of the line or
/// before a blank.
pub open spec fn key_end(s: Seq<char>, p: int) -> int
    decreases s.len() - p,
{
    if p < 0 || p >= s.len() {
        s.len() as int
    } else if s[p] == ':' && (p + 1 == s.len() || s[p + 1] == ' ') {
        p
    } else {
        key_end(s, p + 1)
    }
}

/// `key: rest` as its two parts.
pub open spec fn key_parts(s: Seq<char>) -> Option<(Seq<char>, Seq<char>)> {
    let i = key_end(s, 0);
    if i < s.len() {
        Some(
            (
                text::trim_of(s.subrange(0, i)),
                text::trim_of(s.subrange(i + 1, s.len() as int)),
            ),
        )
    } else {
        None
    }
}

pub fn split_key(s: &str) -> (r: Option<(String, String)>)
    ensures
        text::opt_pair(r) == key_parts(s@),
{
    let v = chars_of(s);
    let mut i: usize = 0;
    while i < v.len() && !(v[i] == ':' && (i + 1 == v.len() || v[i + 1] == ' '))
        invariant
            v@ == s@,
            i <= v.len(),
            key_end(s@, 0) == key_end(s@, i as int),
        decreases v.len() - i,
    {
        i += 1;
    }
    if i < v.len() {
        Some(
            (
                trim(slice_of(&v, 0, i).as_str()),
                trim(slice_of(&v, i + 1, v.len()).as_str()),
            ),
        )
    } else {
        None
    }
}

/// Where the lines more indented than the line at `i` end; the lines from `a`
/// on are looked at, up to `b`.
pub open spec fn kids_end(ls: Seq<LineV>, i: int, a: int, b: int) -> int
    decreases b - a,
{
    if 0 <= a < b && ls[a].indent > ls[i].indent {
        kids_end(ls, i, a + 1, b)
    } else {
        a
    }
}

/// The index behind the line at `i` and all its children.
pub open spec fn sibling(ls: Seq<LineV>, i: int, b: int) -> int {
    kids_end(ls, i, i + 1, b)
}

pub proof fn lemma_kids_end(ls: Seq<LineV>, i: int, a: int, b: int)
    requires
        a <= b,
    ensures
        a <= kids_end(ls, i, a, b) <= b,
    decreases b - a,
{
    if 0 <= a < b && ls[a].indent > ls[i].indent {
        lemma_kids_end(ls, i, a + 1, b);
    }
}

fn next_sibling(ls: &Vec<Line>, i: usize, b: usize) -> (r: usize)
    requires
        i < b <= ls.len(),
    ensures
        r == sibling(text::views(ls@), i as int, b as int),
        i < r <= b,
{
    let ghost lv = text::views(ls@);
    let mut e: usize = i + 1;
    assert(lv[i as int] == ls@[i as int]@);
    while e < b && ls[e].indent > ls[i].indent
        invariant
            i < e <= b <= ls.len(),
            lv == text::views(ls@),
            lv[i as int] == ls@[i as int]@,
            sibling(lv, i as int, b as int) == kids_end(lv, i as int, e as int, b as int),
        decreases b - e,
    {
        assert(lv[e as int] == ls@[e as int]@);
        e += 1;
    }
    assert(e < b ==> lv[e as int] == ls@[e as int]@);
    e
}

/// The items of the block sequence between `a` and `b`.
pub open spec fn items_of(ls: Seq<LineV>, a: int, b: int) -> Result<Seq<Seq<char>>, Fault>
    decreases b - a,
{
    if b <= a {
        Ok(seq![])
    } else {
        let l = ls[b - 1];
        match items_of(ls, a, b - 1) {
            Err(f) => Err(f),
            Ok(before) => match text::strip_prefix_of(l.text, "- "@) {
                None => Ok(before),
                Some(v) => {
                    let item = text::trim_of(v);
                    match anchor_fault(item, l.no) {
                        Some(f) => Err(f),
                        None => match scalar_result(item, l.no) {
                            Err(f) => Err(f),
                            Ok(s) => Ok(before.push(s)),
                        },
                    }
                },
            },
        }
    }
}

proof fn lemma_items_stop(ls: Seq<LineV>, a: int, k: int, b: int)
    requires
        a <= k <= b,
        items_of(ls, a, k) is Err,
    ensures
        items_of(ls, a, b) == items_of(ls, a, k),
    decreases b - k,
{
    if k < b {
        lemma_items_stop(ls, a, k, b - 1);
    }
}

/// A `key:` whose value is a scalar, a flow sequence or a block sequence.
pub open spec fn string_list(ls: Seq<LineV>, i: int, b: int, rest: Seq<char>) -> Result<
    Seq<Seq<char>>,
    Fault,
> {
    let no = ls[i].no;
    match anchor_fault(rest, no) {
        Some(f) => Err(f),
        None => if rest.len() == 0 {
            items_of(ls, i + 1, sibling(ls, i, b))
        } else if text::begins(rest, '[') {
            flow_result(rest, no)
        } else {
            // Shell form: one opaque token.
            match scalar_result(rest, no) {
                Err(f) => Err(f),
                Ok(s) => Ok(seq![s]),
            }
        },
    }
}

fn parse_string_list(ls: &Vec<Line>, i: usize, b: usize, rest: &str) -> (r: Result<
    Vec<String>,
    ParseError,
>)
    requires
        i < b <= ls.len(),
    ensures
        list_result(r) == string_list(text::views(ls@), i as int, b as int, rest@),
{
    let ghost lv = text::views(ls@);
    let no: u32 = ls[i].no;
    assert(lv[i as int] == ls@[i as int]@);
    match find_anchor(rest, no) {
        Some(e) => {
            return Err(e);
        },
        None => {},
    }
    if !rest.is_empty() {
        if begins_with(rest, '[') {
            return parse_flow_seq(rest, no);
        }
        return match unquote(rest, no) {
            Ok(s) => {
                let one = vec![s];
                assert(text::views(one@) =~= seq![s@]);
                Ok(one)
            },
            Err(e) => Err(e),
        };
    }
    let end: usize = next_sibling(ls, i, b);
    let mut out: Vec<String> = Vec::new();
    let mut k: usize = i + 1;
    assert(text::views(out@) =~= seq![]);
    while k < end
        invariant
            i < k <= end <= b <= ls.len(),
            lv == text::views(ls@),
            end == sibling(lv, i as int, b as int),
            rest@.len() == 0,
            anchor_fault(rest@, lv[i as int].no) is None,
            items_of(lv, i + 1, k as int) == Ok::<Seq<Seq<char>>, Fault>(text::views(out@)),
        decreases end - k,
    {
        let l: &Line = &ls[k];
        assert(lv[k as int] == l@);
        proof {
            if items_of(lv, i + 1, k + 1) is Err {
                lemma_items_stop(lv, i + 1, k + 1, end as int);
            }
        }
        match strip_prefix(l.text.as_str(), "- ") {
            None => {},
            Some(v) => {
                let item = trim(v.as_str());
                match find_anchor(item.as_str(), l.no) {
                    Some(e) => {
                        return Err(e);
                    },
                    None => {},
                }
                match unquote(item.as_str(), l.no) {
                    Ok(s) => {
                        out.push(s);
                    },
                    Err(e) => {
                        return Err(e);
                    },
                }
            },
        }
        k += 1;
    }
    Ok(out)
}

/// One line of a `labels:` block: `- key=value` or `key: value`.
pub open spec fn label_line(before: Seq<LabelV>, l: LineV) -> Result<Seq<LabelV>, Fault> {
    match text::strip_prefix_of(l.text, "- "@) {
        Some(v) => {
            let item = text::trim_of(v);
            match anchor_fault(item, l.no) {
                Some(f) => Err(f),
                None => match scalar_result(item, l.no) {
                    Err(f) => Err(f),
                    Ok(s) => Ok(before.push(label_of(s, l.no))),
                },
            }
        },
        None => if l.text == "-"@ {
            Ok(before)
        } else {
            match key_parts(l.text) {
                None => Ok(before),
                Some((key, val)) => match anchor_fault(val, l.no) {
                    Some(f) => Err(f),
                    None => match (scalar_result(key, l.no), scalar_result(val, l.no)) {
                        (Err(f), _) => Err(f),
                        (_, Err(f)) => Err(f),
                        (Ok(key), Ok(value)) => Ok(
                            before.push(LabelV { key, value, line: l.no }),
                        ),
                    },
                },
            }
        },
    }
}

pub open spec fn label_lines(ls: Seq<LineV>, a: int, b: int) -> Result<Seq<LabelV>, Fault>
    decreases b - a,
{
    if b <= a {
        Ok(seq![])
    } else {
        match label_lines(ls, a, b - 1) {
            Err(f) => Err(f),
            Ok(before) => label_line(before, ls[b - 1]),
        }
    }
}

proof fn lemma_labels_stop(ls: Seq<LineV>, a: int, k: int, b: int)
    requires
        a <= k <= b,
        label_lines(ls, a, k) is Err,
    ensures
        label_lines(ls, a, b) == label_lines(ls, a, k),
    decreases b - k,
{
    if k < b {
        lemma_labels_stop(ls, a, k, b - 1);
    }
}

/// `labels:` in either form: a sequence of `k=v` strings, or a mapping.
pub open spec fn labels_of(ls: Seq<LineV>, i: int, b: int, rest: Seq<char>) -> Result<
    Seq<LabelV>,
    Fault,
> {
    let no = ls[i].no;
    match anchor_fault(rest, no) {
        Some(f) => Err(f),
        None => if rest.len() == 0 {
            label_lines(ls, i + 1, sibling(ls, i, b))
        } else {
            match flow_result(rest, no) {
                Err(f) => Err(f),
                Ok(items) => Ok(Seq::new(items.len(), |k: int| label_of(items[k], no))),
            }
        },
    }
}

pub open spec fn label_result(r: Result<Vec<Label>, ParseError>) -> Result<Seq<LabelV>, Fault> {
    match r {
        Ok(v) => Ok(text::views(v@)),
        Err(e) => Err(e@),
    }
}

fn read_label_line(out: &mut Vec<Label>, l: &Line) -> (r: Option<ParseError>)
    ensures
        match label_line(text::views(old(out)@), l@) {
            Ok(v) => r is None && text::views(final(out)@) == v,
            Err(f) => r matches Some(e) && e@ == f,
        },
{
    match strip_prefix(l.text.as_str(), "- ") {
        Some(v) => {
            let item = trim(v.as_str());
            match find_anchor(item.as_str(), l.no) {
                Some(e) => {
                    return Some(e);
                },
                None => {},
            }
            match unquote(item.as_str(), l.no) {
                Ok(s) => {
                    out.push(split_label(s.as_str(), l.no));
                    None
                },
                Err(e) => Some(e),
            }
        },
        None => {
            if same(l.text.as_str(), "-") {
                return None;
            }
            match split_key(l.text.as_str()) {
                None => None,
                Some((key, val)) => {
                    match find_anchor(val.as_str(), l.no) {
                        Some(e) => {
                            return Some(e);
                        },
                        None => {},
                    }
                    let key = match unquote(key.as_str(), l.no) {
                        Ok(k) => k,
                        Err(e) => {
                            return Some(e);
                        },
                    };
                    let value = match unquote(val.as_str(), l.no) {
                        Ok(v) => v,
                        Err(e) => {
                            return Some(e);
                        },
                    };
                    out.push(Label { key, value, line: l.no });
                    None
                },
            }
        },
    }
}

fn parse_labels(ls: &Vec<Line>, i: usize, b: usize, rest: &str) -> (r: Result<Vec<Label>, ParseError>)
    requires
        i < b <= ls.len(),
    ensures
        label_result(r) == labels_of(text::views(ls@), i as int, b as int, rest@),
{
    let ghost lv = text::views(ls@);
    let no: u32 = ls[i].no;
    assert(lv[i as int] == ls@[i as int]@);
    match find_anchor(rest, no) {
        Some(e) => {
            return Err(e);
        },
        None => {},
    }
    let mut out: Vec<Label> = Vec::new();
    if !rest.is_empty() {
        let items = match parse_flow_seq(rest, no) {
            Ok(v) => v,
            Err(e) => {
                return Err(e);
            },
        };
        let ghost want = Seq::new(
            text::views(items@).len(),
            |k: int| label_of(text::views(items@)[k], no as int),
        );
        let mut k: usize = 0;
        assert(text::views(out@) =~= want.take(0));
        while k < items.len()
            invariant
                k <= items.len(),
                want == Seq::new(
                    text::views(items@).len(),
                    |k: int| label_of(text::views(items@)[k], no as int),
                ),
                text::views(out@) == want.take(k as int),
            decreases items.len() - k,
        {
            out.push(split_label(items[k].as_str(), no));
            assert(text::views(out@) =~= want.take(k + 1));
            k += 1;
        }
        assert(want.take(k as int) =~= want);
        return Ok(out);
    }
    let end: usize = next_sibling(ls, i, b);
    let mut k: usize = i + 1;
    assert(text::views(out@) =~= seq![]);
    while k < end
        invariant
            i < k <= end <= b <= ls.len(),
            lv == text::views(ls@),
            end == sibling(lv, i as int, b as int),
            rest@.len() == 0,
            anchor_fault(rest@, lv[i as int].no) is None,
            label_lines(lv, i + 1, k as int) == Ok::<Seq<LabelV>, Fault>(text::views(out@)),
        decreases end - k,
    {
        assert(lv[k as int] == ls@[k as int]@);
        proof {
            if label_lines(lv, i + 1, k + 1) is Err {
                lemma_labels_stop(lv, i + 1, k + 1, end as int);
            }
        }
        match read_label_line(&mut out, &ls[k]) {
            Some(e) => {
                return Err(e);
            },
            None => {},
        }
        k += 1;
    }
    Ok(out)
}

// ── Services ────────────────────────────────────────────────────────────
/// One key of a service. `entrypoint` counts like `command`: some stacks put
/// the Traefik static flags there.
pub open spec fn service_key(
    svc: ServiceV,
    ls: Seq<LineV>,
    i: int,
    b: int,
    key: Seq<char>,
    rest: Seq<char>,
) -> Result<ServiceV, Fault> {
    let no = ls[i].no;
    if key == "image"@ {
        match anchor_fault(rest, no) {
            Some(f) => Err(f),
            None => if rest.len() == 0 {
                Ok(svc)
            } else {
                match scalar_result(rest, no) {
                    Err(f) => Err(f),
                    Ok(s) => Ok(ServiceV { image: Some(s), ..svc }),
                }
            },
        }
    } else if key == "command"@ || key == "entrypoint"@ {
        match string_list(ls, i, b, rest) {
            Err(f) => Err(f),
            Ok(command) => Ok(ServiceV { command, ..svc }),
        }
    } else if key == "labels"@ {
        match labels_of(ls, i, b, rest) {
            Err(f) => Err(f),
            Ok(more) => Ok(ServiceV { labels: svc.labels + more, ..svc }),
        }
    } else {
        Ok(svc)
    }
}

/// The service by the lines from `i` to `b`; its keys stand at the indentation
/// `level`.
pub open spec fn service_body(
    svc: ServiceV,
    ls: Seq<LineV>,
    i: int,
    b: int,
    level: nat,
) -> Result<ServiceV, Fault>
    decreases b - i,
{
    if i >= b {
        Ok(svc)
    } else if ls[i].indent != level {
        service_body(svc, ls, i + 1, b, level)
    } else {
        proof {
            lemma_kids_end(ls, i, i + 1, b);
        }
        match key_parts(ls[i].text) {
            None => service_body(svc, ls, sibling(ls, i, b), b, level),
            Some((key, rest)) => match service_key(svc, ls, i, b, key, rest) {
                Err(f) => Err(f),
                Ok(svc2) => service_body(svc2, ls, sibling(ls, i, b), b, level),
            },
        }
    }
}

pub open spec fn service_result(r: Option<ParseError>, svc: Service) -> Result<ServiceV, Fault> {
    match r {
        None => Ok(svc@),
        Some(e) => Err(e@),
    }
}

fn read_service_key(
    svc: &mut Service,
    ls: &Vec<Line>,
    i: usize,
    b: usize,
    key: &str,
    rest: &str,
) -> (r: Option<ParseError>)
    requires
        i < b <= ls.len(),
    ensures
        service_result(r, *final(svc)) == service_key(
            old(svc)@,
            text::views(ls@),
            i as int,
            b as int,
            key@,
            rest@,
        ),
{
    let no: u32 = ls[i].no;
    let ghost lv = text::views(ls@);
    let ghost before = svc@;
    assert(lv[i as int] == ls@[i as int]@);
    if same(key, "image") {
        match find_anchor(rest, no) {
            Some(e) => {
                return Some(e);
            },
            None => {},
        }
        if !rest.is_empty() {
            match unquote(rest, no) {
                Ok(s) => {
                    svc.image = Some(s);
                },
                Err(e) => {
                    return Some(e);
                },
            }
        }
    } else if same(key, "command") || same(key, "entrypoint") {
        match parse_string_list(ls, i, b, rest) {
            Ok(v) => {
                svc.command = v;
            },
            Err(e) => {
                return Some(e);
            },
        }
    } else if same(key, "labels") {
        match parse_labels(ls, i, b, rest) {
            Ok(mut more) => {
                let ghost mv = text::views(more@);
                svc.labels.append(&mut more);
                assert(svc@.labels =~= before.labels + mv);
            },
            Err(e) => {
                return Some(e);
            },
        }
    }
    None
}

fn parse_service_body(svc: &mut Service, ls: &Vec<Line>, a: usize, b: usize) -> (r: Option<ParseError>)
    requires
        a < b <= ls.len(),
    ensures
        service_result(r, *final(svc)) == service_body(
            old(svc)@,
            text::views(ls@),
            a as int,
            b as int,
            text::views(ls@)[a as int].indent,
        ),
{
    let ghost lv = text::views(ls@);
    assert(lv[a as int] == ls@[a as int]@);
    let level: usize = ls[a].indent;
    let mut i: usize = a;
    while i < b
        invariant
            a <= i <= b <= ls.len(),
            lv == text::views(ls@),
            level == lv[a as int].indent,
            service_body(old(svc)@, lv, a as int, b as int, level as nat) == service_body(
                svc@,
                lv,
                i as int,
                b as int,
                level as nat,
            ),
        decreases b - i,
    {
        assert(lv[i as int] == ls@[i as int]@);
        if ls[i].indent != level {
            i += 1;
        } else {
            let next: usize = next_sibling(ls, i, b);
            match split_key(ls[i].text.as_str()) {
                None => {},
                Some((key, rest)) => match read_service_key(
                    svc,
                    ls,
                    i,
                    b,
                    key.as_str(),
                    rest.as_str(),
                ) {
                    Some(e) => {
                        return Some(e);
                    },
                    None => {},
                },
            }
            i = next;
        }
    }
    None
}

/// The service that the line at `i` opens.
pub open spec fn service_at(
    ls: Seq<LineV>,
    i: int,
    b: int,
    name: Seq<char>,
    rest: Seq<char>,
) -> Result<ServiceV, Fault> {
    let no = ls[i].no;
    match anchor_fault(rest, no) {
        Some(f) => Err(f),
        None => match scalar_result(name, no) {
            Err(f) => Err(f),
            Ok(name) => {
                let svc = ServiceV {
                    name,
                    line: no,
                    image: None,
                    command: seq![],
                    labels: seq![],
                };
                let e = sibling(ls, i, b);
                if i + 1 < e {
                    service_body(svc, ls, i + 1, e, ls[i + 1].indent)
                } else {
                    Ok(svc)
                }
            },
        },
    }
}

/// The services from `i` to `b`, behind those before; their names stand at the
/// indentation `level`.
pub open spec fn services_from(
    before: Seq<ServiceV>,
    ls: Seq<LineV>,
    i: int,
    b: int,
    level: nat,
) -> Result<Seq<ServiceV>, Fault>
    decreases b - i,
{
    if i >= b {
        Ok(before)
    } else if ls[i].indent != level {
        services_from(before, ls, i + 1, b, level)
    } else {
        proof {
            lemma_kids_end(ls, i, i + 1, b);
        }
        match key_parts(ls[i].text) {
            None => services_from(before, ls, sibling(ls, i, b), b, level),
            Some((name, rest)) => match service_at(ls, i, b, name, rest) {
                Err(f) => Err(f),
                Ok(svc) => services_from(before.push(svc), ls, sibling(ls, i, b), b, level),
            },
        }
    }
}

pub open spec fn services_result(r: Option<ParseError>, v: Seq<Service>) -> Result<
    Seq<ServiceV>,
    Fault,
> {
    match r {
        None => Ok(text::views(v)),
        Some(e) => Err(e@),
    }
}

fn read_service(ls: &Vec<Line>, i: usize, b: usize, name: &str, rest: &str) -> (r: Result<
    Service,
    ParseError,
>)
    requires
        i < b <= ls.len(),
    ensures
        match service_at(text::views(ls@), i as int, b as int, name@, rest@) {
            Ok(s) => r matches Ok(v) && v@ == s,
            Err(f) => r matches Err(e) && e@ == f,
        },
{
    let ghost lv = text::views(ls@);
    assert(lv[i as int] == ls@[i as int]@);
    let no: u32 = ls[i].no;
    match find_anchor(rest, no) {
        Some(e) => {
            return Err(e);
        },
        None => {},
    }
    let name = match unquote(name, no) {
        Ok(n) => n,
        Err(e) => {
            return Err(e);
        },
    };
    let mut svc = Service {
        name,
        line: no,
        image: None,
        command: Vec::new(),
        labels: Vec::new(),
    };
    assert(svc@.command =~= seq![] && svc@.labels =~= seq![]);
    let e: usize = next_sibling(ls, i, b);
    if i + 1 < e {
        match parse_service_body(&mut svc, ls, i + 1, e) {
            Some(e) => {
                return Err(e);
            },
            None => {},
        }
    }
    Ok(svc)
}

fn parse_services(services: &mut Vec<Service>, ls: &Vec<Line>, a: usize, b: usize) -> (r: Option<
    ParseError,
>)
    requires
        a < b <= ls.len(),
    ensures
        services_result(r, final(services)@) == services_from(
            text::views(old(services)@),
            text::views(ls@),
            a as int,
            b as int,
            text::views(ls@)[a as int].indent,
        ),
{
    let ghost lv = text::views(ls@);
    assert(lv[a as int] == ls@[a as int]@);
    let level: usize = ls[a].indent;
    let mut i: usize = a;
    while i < b
        invariant
            a <= i <= b <= ls.len(),
            lv == text::views(ls@),
            level == lv[a as int].indent,
            services_from(
                text::views(old(services)@),
                lv,
                a as int,
                b as int,
                level as nat,
            ) == services_from(text::views(services@), lv, i as int, b as int, level as nat),
        decreases b - i,
    {
        assert(lv[i as int] == ls@[i as int]@);
        if ls[i].indent != level {
            i += 1;
        } else {
            let next: usize = next_sibling(ls, i, b);
            match split_key(ls[i].text.as_str()) {
                None => {},
                Some((name, rest)) => match read_service(
                    ls,
                    i,
                    b,
                    name.as_str(),
                    rest.as_str(),
                ) {
                    Ok(svc) => {
                        services.push(svc);
                    },
                    Err(e) => {
                        return Some(e);
                    },
                },
            }
            i = next;
        }
    }
    None
}

/// The top level from `i` on: the `services` mappings among the lines that
/// stand at the indentation `top`.
pub open spec fn top_from(before: Seq<ServiceV>, ls: Seq<LineV>, i: int, top: nat) -> Result<
    Seq<ServiceV>,
    Fault,
>
    decreases ls.len() - i,
{
    let b = ls.len() as int;
    if i >= b {
        Ok(before)
    } else if ls[i].indent != top {
        top_from(before, ls, i + 1, top)
    } else {
        proof {
            lemma_kids_end(ls, i, i + 1, b);
        }
        let e = sibling(ls, i, b);
        match key_parts(ls[i].text) {
            None => top_from(before, ls, e, top),
            Some((key, rest)) => if key == "services"@ {
                if rest.len() > 0 {
                    Err(fault(ls[i].no, "`services:` must open a block mapping"@))
                } else if i + 1 < e {
                    match services_from(before, ls, i + 1, e, ls[i + 1].indent) {
                        Err(f) => Err(f),
                        Ok(more) => top_from(more, ls, e, top),
                    }
                } else {
                    top_from(before, ls, e, top)
                }
            } else {
                top_from(before, ls, e, top)
            },
        }
    }
}

/// The services of a compose source.
pub open spec fn parse_of(s: Seq<char>) -> Result<Seq<ServiceV>, Fault> {
    match scan_of(text::lines_of(s), text::lines_of(s).len()) {
        Err(f) => Err(f),
        Ok(st) => if st.lines.len() == 0 {
            Ok(seq![])
        } else {
            top_from(seq![], st.lines, 0, st.lines[0].indent)
        },
    }
}

/// Parses a compose source into the subset model.
pub fn parse(src: &str) -> (r: Result<ComposeFile, ParseError>)
    requires
        src@.len() < u32::MAX,
    ensures
        match parse_of(src@) {
            Ok(s) => r matches Ok(f) && text::views(f.services@) == s,
            Err(f) => r matches Err(e) && e@ == f,
        },
{
    let ls = match scan(src) {
        Ok(v) => v,
        Err(e) => {
            return Err(e);
        },
    };
    let ghost lv = text::views(ls@);
    let mut services: Vec<Service> = Vec::new();
    assert(text::views(services@) =~= seq![]);
    if ls.len() == 0 {
        return Ok(ComposeFile { services });
    }
    assert(lv[0] == ls@[0]@);
    let top: usize = ls[0].indent;
    let mut i: usize = 0;
    while i < ls.len()
        invariant
            i <= ls.len(),
            lv == text::views(ls@),
            parse_of(src@) == top_from(text::views(services@), lv, i as int, top as nat),
        decreases ls.len() - i,
    {
        assert(lv[i as int] == ls@[i as int]@);
        if ls[i].indent != top {
            i += 1;
        } else {
            let e: usize = next_sibling(&ls, i, ls.len());
            match split_key(ls[i].text.as_str()) {
                None => {},
                Some((key, rest)) => {
                    if same(key.as_str(), "services") {
                        if !rest.as_str().is_empty() {
                            return Err(
                                err(ls[i].no, "`services:` must open a block mapping"),
                            );
                        }
                        if i + 1 < e {
                            match parse_services(&mut services, &ls, i + 1, e) {
                                Some(f) => {
                                    return Err(f);
                                },
                                None => {},
                            }
                        }
                    }
                },
            }
            i = e;
        }
    }
    Ok(ComposeFile { services })
}

// ── Laws ────────────────────────────────────────────────────────────────
proof fn lemma_start(s: Seq<char>, from: int, to: int)
    requires
        0 <= from <= to < s.len(),
        forall|j: int| from <= j < to ==> #[trigger] s[j] == ' ',
        !text::white(s[to]),
    ensures
        text::trimmed_start(s, from) == to,
        indent_end(s, from) == to,
    decreases to - from,
{
    assert(text::white(' '));
    assert(text::white('\t'));
    if from < to {
        lemma_start(s, from + 1, to);
    }
}

/// A line without its indentation.
proof fn lemma_indented(s: Seq<char>, n: int)
    requires
        0 <= n < s.len(),
        forall|j: int| 0 <= j < n ==> #[trigger] s[j] == ' ',
        !text::white(s[n]),
        !text::white(s.last()),
    ensures
        indent_end(s, 0) == n,
        text::trim_of(s) == s.subrange(n, s.len() as int),
        text::chomp(s) == s,
        !s.subrange(0, n).contains('\t'),
{
    lemma_start(s, 0, n);
    assert(text::white('\r'));
    assert(text::trimmed_end(s, s.len() as int) == s.len());
}

proof fn lemma_untrimmed(s: Seq<char>)
    requires
        s.len() > 0,
        !text::white(s[0]),
        !text::white(s.last()),
    ensures
        text::trim_of(s) == s,
{
    lemma_indented(s, 0);
    assert(s.subrange(0, s.len() as int) =~= s);
}

proof fn lemma_key_end(s: Seq<char>, p: int)
    requires
        0 <= p < s.len(),
        forall|j: int| p <= j < s.len() - 1 ==> #[trigger] s[j] != ':',
        s.last() == ':',
    ensures
        key_end(s, p) == s.len() - 1,
    decreases s.len() - p,
{
    if p < s.len() - 1 {
        assert(s[p] != ':');
        lemma_key_end(s, p + 1);
    }
}

/// `name:` opens a block.
proof fn lemma_opens(s: Seq<char>, name: Seq<char>)
    requires
        s == name.push(':'),
        bare_name(name),
    ensures
        key_parts(s) == Some((name, Seq::<char>::empty())),
        !merges(s),
        !text::white(s[0]),
        !text::white(s.last()),
        s != "---"@,
        s != "..."@,
        s[0] != '#',
        scalar_of(name) == Some(name),
{
    assert forall|j: int| 0 <= j < s.len() - 1 implies #[trigger] s[j] != ':' by {
        assert(bare_char(name[j]));
    }
    assert(bare_char(name[0]));
    assert(bare_char(name.last()));
    lemma_bare_chars();
    lemma_key_end(s, 0);
    assert(s.subrange(0, s.len() - 1) =~= name);
    lemma_untrimmed(name);
    let rest = s.subrange(s.len() as int, s.len() as int);
    assert(rest =~= seq![]);
    assert(text::trim_of(rest) =~= seq![]);
    reveal_strlit("- ");
    reveal_strlit("<<:");
    reveal_strlit("<<");
    reveal_strlit("---");
    reveal_strlit("...");
    assert(text::trimmed_end(s, s.len() as int) == s.len());
    assert(s.subrange(0, s.len() as int) =~= s);
    if text::starts(s, "- "@) {
        assert(s.subrange(0, 2)[1] == ' ');
        assert(s[1] == ' ');
        if name.len() > 1 {
            assert(bare_char(name[1]));
        }
    }
    if text::starts(s, "<<:"@) {
        assert(s.subrange(0, 3)[0] == '<');
    }
    assert("<<"@[0] == '<');
    assert("---"@[2] == '-');
    assert("..."@[2] == '.');
    lemma_no_comment(name, 0);
    assert(name.subrange(0, name.len() as int) =~= name);
}

proof fn lemma_no_comment(s: Seq<char>, p: int)
    requires
        0 <= p <= s.len(),
        forall|j: int| 0 <= j < s.len() ==> #[trigger] s[j] != '#',
    ensures
        comment_at(s, p) == s.len(),
    decreases s.len() - p,
{
    if p < s.len() {
        assert(s[p] != '#');
        lemma_no_comment(s, p + 1);
    }
}

/// A character of a name that needs no quotes.
pub open spec fn bare_char(c: char) -> bool {
    text::alnum(c) || c == '_' || c == '-' || c == '.'
}

/// A name that needs no quotes.
pub open spec fn bare_name(s: Seq<char>) -> bool {
    s.len() > 0 && forall|i: int| 0 <= i < s.len() ==> bare_char(#[trigger] s[i])
}

proof fn lemma_bare_chars()
    ensures
        forall|c: char| #[trigger]
            bare_char(c) ==> !text::white(c) && c != ':' && c != '#' && c != '"' && c != '\''
                && c != '\n' && c != '<' && c != '&' && c != '*',
        !text::white(':'),
        !text::white('"'),
        !text::white('-'),
{
}

proof fn lemma_quoted(s: Seq<char>, p: int, e: int, acc: Seq<char>)
    requires
        0 <= p <= e < s.len(),
        forall|j: int| p <= j < e ==> #[trigger] s[j] != '"' && s[j] != '\\',
        s[e] == '"',
    ensures
        quoted_from(s, p, '"', acc) == Some(acc + s.subrange(p, e)),
    decreases e - p,
{
    if p < e {
        assert(s[p] != '"');
        lemma_quoted(s, p + 1, e, acc.push(s[p]));
        assert(acc.push(s[p]) + s.subrange(p + 1, e) =~= acc + s.subrange(p, e));
    } else {
        assert(acc + s.subrange(p, e) =~= acc);
    }
}

proof fn lemma_line(s: Seq<char>, p: int, l: Seq<char>)
    requires
        0 <= p,
        p + l.len() < s.len(),
        s.subrange(p, p + l.len()) == l,
        s[p + l.len()] == '\n',
        !l.contains('\n'),
        l.len() == 0 || l.last() != '\r',
    ensures
        text::lines_from(s, p) == seq![l] + text::lines_from(s, p + l.len() + 1),
{
    text::lemma_index_of(s, '\n', p);
    let i = text::index_of(s, '\n', p);
    assert forall|j: int| p <= j < p + l.len() implies s[j] != '\n' by {
        assert(s.subrange(p, p + l.len())[j - p] == s[j]);
        assert(l[j - p] == s[j]);
    }
    assert(i == p + l.len());
}

/// A compose source with one service that has one label.
pub open spec fn labelled(name: Seq<char>, key: Seq<char>, value: Seq<char>) -> Seq<char> {
    "services:\n  "@ + name + ":\n    labels:\n      - \""@ + key + "="@ + value + "\"\n"@
}

/// A text that can stand between double quotes as it is.
pub open spec fn quotable(s: Seq<char>) -> bool {
    !s.contains('"') && !s.contains('\\') && !s.contains('\n')
}

spec fn label_source(key: Seq<char>, value: Seq<char>) -> Seq<char> {
    "- \""@ + key + "="@ + value + "\""@
}

proof fn lemma_lines_of_labelled(name: Seq<char>, key: Seq<char>, value: Seq<char>)
    requires
        bare_name(name),
        quotable(key),
        quotable(value),
    ensures
        text::lines_of(labelled(name, key, value)) == seq![
            "services:"@,
            "  "@ + name + ":"@,
            "    labels:"@,
            "      "@ + label_source(key, value),
        ],
{
    let s = labelled(name, key, value);
    reveal_strlit("services:\n  ");
    reveal_strlit(":\n    labels:\n      - \"");
    reveal_strlit("=");
    reveal_strlit("\"\n");
    reveal_strlit("\"");
    reveal_strlit("- \"");
    reveal_strlit("services:");
    reveal_strlit("  ");
    reveal_strlit(":");
    reveal_strlit("    labels:");
    reveal_strlit("      ");
    let l0 = "services:"@;
    let l1 = "  "@ + name + ":"@;
    let l2 = "    labels:"@;
    let l3 = "      "@ + label_source(key, value);
    let nl = seq!['\n'];
    assert(s =~= l0 + nl + l1 + nl + l2 + nl + l3 + nl);
    let p1 = l0.len() + 1;
    let p2 = p1 + l1.len() + 1;
    let p3 = p2 + l2.len() + 1;
    let p4 = p3 + l3.len() + 1;
    assert(s.len() == p4);
    assert(s.subrange(0, l0.len() as int) =~= l0);
    assert(s.subrange(p1 as int, (p1 + l1.len()) as int) =~= l1);
    assert(s.subrange(p2 as int, (p2 + l2.len()) as int) =~= l2);
    assert(s.subrange(p3 as int, (p3 + l3.len()) as int) =~= l3);
    lemma_bare_chars();
    assert(!l0.contains('\n'));
    assert(!l2.contains('\n'));
    assert(!l1.contains('\n')) by {
        assert forall|j: int| 0 <= j < l1.len() implies l1[j] != '\n' by {
            if 2 <= j < 2 + name.len() {
                assert(l1[j] == name[j - 2]);
                assert(bare_char(name[j - 2]));
            }
        }
    }
    assert(!l3.contains('\n')) by {
        assert forall|j: int| 0 <= j < l3.len() implies l3[j] != '\n' by {
            if 9 <= j < 9 + key.len() {
                assert(l3[j] == key[j - 9]);
                assert(key.contains(key[j - 9]));
            } else if 10 + key.len() <= j < 10 + key.len() + value.len() {
                assert(l3[j] == value[j - 10 - key.len()]);
                assert(value.contains(value[j - 10 - key.len()]));
            }
        }
    }
    lemma_line(s, 0, l0);
    lemma_line(s, p1 as int, l1);
    lemma_line(s, p2 as int, l2);
    lemma_line(s, p3 as int, l3);
    assert(text::lines_from(s, p4 as int) =~= seq![]);
    assert(text::lines_of(s) =~= seq![l0, l1, l2, l3]);
}

/// The label of its source line.
proof fn lemma_label(key: Seq<char>, value: Seq<char>, no: int)
    requires
        quotable(key),
        quotable(value),
        !key.contains('='),
        text::trim_of(key) == key,
    ensures
        ({
            let t = label_source(key, value);
            &&& label_line(seq![], LineV { indent: 6, text: t, no }) == Ok::<Seq<LabelV>, Fault>(
                seq![LabelV { key, value, line: no }],
            )
            &&& t.len() > 3
            &&& t[0] == '-'
            &&& t.last() == '"'
            &&& !merges(t)
        }),
{
    let t = label_source(key, value);
    reveal_strlit("=");
    reveal_strlit("\"");
    reveal_strlit("- \"");
    reveal_strlit("- ");
    reveal_strlit("<<:");
    reveal_strlit("<<");
    lemma_bare_chars();
    let item = "\""@ + key + "="@ + value + "\""@;
    assert(t.subrange(0, 2) =~= "- "@);
    assert(t.subrange(2, t.len() as int) =~= item);
    assert(text::strip_prefix_of(t, "- "@) == Some(item));
    lemma_untrimmed(item);
    let e = item.len() - 1;
    assert forall|j: int| 1 <= j < e implies #[trigger] item[j] != '"' && item[j] != '\\' by {
        if j < 1 + key.len() {
            assert(item[j] == key[j - 1]);
            assert(key.contains(key[j - 1]));
        } else if j > 1 + key.len() {
            assert(item[j] == value[j - 2 - key.len()]);
            assert(value.contains(value[j - 2 - key.len()]));
        }
    }
    lemma_quoted(item, 1, e, seq![]);
    let content = key + "="@ + value;
    assert(item.subrange(1, e) =~= content);
    assert(Seq::<char>::empty() + content =~= content);
    text::lemma_index_of(content, '=', 0);
    let i = text::index_of(content, '=', 0);
    assert(content[key.len() as int] == '=');
    assert(i == key.len()) by {
        if i < key.len() {
            assert(content[i] == key[i]);
            assert(key.contains(key[i]));
        }
    }
    assert(content.subrange(0, i) =~= key);
    assert(content.subrange(i + 1, content.len() as int) =~= value);
    if text::starts(item, "<<:"@) {
        assert(item.subrange(0, 3)[0] == '<');
    }
    assert(text::trimmed_end(item, item.len() as int) == item.len());
    assert(item.subrange(0, item.len() as int) =~= item);
    assert("<<"@[0] == '<');
}

/// A label that is written in a list reads back as itself: one service of that
/// name, with one label of that key and value.
pub proof fn law_label_round_trip(name: Seq<char>, key: Seq<char>, value: Seq<char>)
    requires
        bare_name(name),
        quotable(key),
        quotable(value),
        !key.contains('='),
        text::trim_of(key) == key,
    ensures
        parse_of(labelled(name, key, value)) == Ok::<Seq<ServiceV>, Fault>(
            seq![
                ServiceV {
                    name,
                    line: 2,
                    image: None,
                    command: seq![],
                    labels: seq![LabelV { key, value, line: 4 }],
                },
            ],
        ),
{
    let s = labelled(name, key, value);
    let raw = text::lines_of(s);
    lemma_lines_of_labelled(name, key, value);
    lemma_label(key, value, 4);
    let t0 = "services:"@;
    let t1 = name.push(':');
    let t2 = "labels:"@;
    let t3 = label_source(key, value);
    reveal_strlit("services:");
    reveal_strlit("services");
    reveal_strlit("labels:");
    reveal_strlit("labels");
    reveal_strlit("    labels:");
    reveal_strlit("      ");
    reveal_strlit("  ");
    reveal_strlit(":");
    assert(t0 =~= "services"@.push(':'));
    assert(t2 =~= "labels"@.push(':'));
    assert(bare_name("services"@));
    assert(bare_name("labels"@));
    lemma_opens(t0, "services"@);
    lemma_opens(t1, name);
    lemma_opens(t2, "labels"@);
    lemma_bare_chars();
    assert(raw[1] =~= "  "@ + t1);
    assert(raw[2] =~= "    "@ + t2) by {
        reveal_strlit("    ");
    }
    lemma_indented(raw[0], 0);
    assert(raw[0].subrange(0, raw[0].len() as int) =~= t0);
    lemma_indented(raw[1], 2);
    assert(raw[1].subrange(2, raw[1].len() as int) =~= t1);
    lemma_indented(raw[2], 4);
    assert(raw[2].subrange(4, raw[2].len() as int) =~= t2);
    lemma_indented(raw[3], 6);
    assert(raw[3].subrange(6, raw[3].len() as int) =~= t3);
    reveal_strlit("---");
    reveal_strlit("...");
    assert(t3 != "---"@ && t3 != "..."@);
    let ls = seq![
        LineV { indent: 0, text: t0, no: 1 },
        LineV { indent: 2, text: t1, no: 2 },
        LineV { indent: 4, text: t2, no: 3 },
        LineV { indent: 6, text: t3, no: 4 },
    ];
    reveal_with_fuel(scan_of, 5);
    let s1 = Scanned { lines: seq![ls[0]], content: true };
    let s2 = Scanned { lines: seq![ls[0], ls[1]], content: true };
    let s3 = Scanned { lines: seq![ls[0], ls[1], ls[2]], content: true };
    let s4 = Scanned { lines: ls, content: true };
    assert(Seq::<LineV>::empty().push(ls[0]) =~= s1.lines);
    assert(scan_of(raw, 1) == Ok::<Scanned, Fault>(s1));
    assert(s1.lines.push(ls[1]) =~= s2.lines);
    assert(scan_of(raw, 2) == Ok::<Scanned, Fault>(s2));
    assert(s2.lines.push(ls[2]) =~= s3.lines);
    assert(scan_of(raw, 3) == Ok::<Scanned, Fault>(s3));
    assert(s3.lines.push(ls[3]) =~= ls);
    assert(scan_of(raw, 4) == Ok::<Scanned, Fault>(s4));
    lemma_labelled_tree(ls, name, key, value);
}

proof fn lemma_labelled_tree(ls: Seq<LineV>, name: Seq<char>, key: Seq<char>, value: Seq<char>)
    requires
        ls == seq![
            LineV { indent: 0, text: "services:"@, no: 1 },
            LineV { indent: 2, text: name.push(':'), no: 2 },
            LineV { indent: 4, text: "labels:"@, no: 3 },
            LineV { indent: 6, text: label_source(key, value), no: 4 },
        ],
        key_parts("services:"@) == Some(("services"@, Seq::<char>::empty())),
        key_parts(name.push(':')) == Some((name, Seq::<char>::empty())),
        key_parts("labels:"@) == Some(("labels"@, Seq::<char>::empty())),
        scalar_of(name) == Some(name),
        label_line(seq![], ls[3]) == Ok::<Seq<LabelV>, Fault>(
            seq![LabelV { key, value, line: 4 }],
        ),
    ensures
        top_from(seq![], ls, 0, 0) == Ok::<Seq<ServiceV>, Fault>(
            seq![
                ServiceV {
                    name,
                    line: 2,
                    image: None,
                    command: seq![],
                    labels: seq![LabelV { key, value, line: 4 }],
                },
            ],
        ),
{
    reveal_strlit("labels");
    reveal_strlit("image");
    reveal_strlit("command");
    reveal_strlit("entrypoint");
    let label = LabelV { key, value, line: 4 };
    let svc = ServiceV { name, line: 2, image: None, command: seq![], labels: seq![] };
    let full = ServiceV { labels: seq![label], ..svc };
    reveal_with_fuel(kids_end, 5);
    assert(sibling(ls, 0, 4) == 4);
    assert(sibling(ls, 1, 4) == 4);
    assert(sibling(ls, 2, 4) == 4);
    reveal_with_fuel(label_lines, 2);
    assert(label_lines(ls, 3, 4) == Ok::<Seq<LabelV>, Fault>(seq![label]));
    assert(labels_of(ls, 2, 4, seq![]) == Ok::<Seq<LabelV>, Fault>(seq![label]));
    assert(svc.labels + seq![label] =~= seq![label]);
    assert(service_key(svc, ls, 2, 4, "labels"@, seq![]) == Ok::<ServiceV, Fault>(full));
    reveal_with_fuel(service_body, 2);
    assert(service_body(svc, ls, 2, 4, 4) == Ok::<ServiceV, Fault>(full));
    assert(service_at(ls, 1, 4, name, seq![]) == Ok::<ServiceV, Fault>(full));
    reveal_with_fuel(services_from, 2);
    assert(Seq::<ServiceV>::empty().push(full) =~= seq![full]);
    assert(services_from(seq![], ls, 1, 4, 2) == Ok::<Seq<ServiceV>, Fault>(seq![full]));
    reveal_with_fuel(top_from, 2);
}

/// A line with a construct that the subset does not have: a tab in the
/// indentation, or a merge key.
pub open spec fn out_of_subset(raw: Seq<char>) -> bool {
    let body = text::trim_of(text::chomp(raw));
    ||| text::chomp(raw).subrange(0, indent_end(text::chomp(raw), 0)).contains('\t')
    ||| body.len() > 0 && body[0] != '#' && body != "---"@ && body != "..."@ && merges(body)
}

proof fn lemma_fault_line(raw: Seq<Seq<char>>, n: nat)
    ensures
        scan_of(raw, n) matches Err(f) ==> f.line <= n,
    decreases n,
{
    if n > 0 {
        lemma_fault_line(raw, (n - 1) as nat);
    }
}

/// A source with such a line is refused, and not behind that line.
pub proof fn law_unsupported_lines_are_refused(s: Seq<char>, k: nat)
    requires
        k < text::lines_of(s).len(),
        out_of_subset(text::lines_of(s)[k as int]),
    ensures
        parse_of(s) matches Err(f) && f.line <= k + 1,
{
    let raw = text::lines_of(s);
    assert(scan_of(raw, k + 1) is Err);
    lemma_fault_line(raw, k + 1);
    lemma_scan_stops(raw, k + 1, raw.len());
}

} // verus!
