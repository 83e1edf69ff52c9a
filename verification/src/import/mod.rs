//! `zion import`: converting the configuration of another proxy.
//!
//! The governing principle is honesty over completeness: every directive of
//! the source lands in exactly one bucket (convert / partial / auto /
//! unsupported), and anything Zion cannot express faithfully is flagged
//! loudly instead of silently mistranslated.
use self::includes::{resolve_includes, Included, Need};
use self::map::{DocV, ZionDoc};
use self::report::sort_by_line;
use crate::text;
use vstd::prelude::*;

pub mod caddy;
pub mod command;
pub mod compose;
pub mod cursor;
pub mod env;
pub mod glob;
pub mod honesty;
pub mod includes;
pub mod map;
pub mod model;
pub mod nginx;
pub mod report;
pub mod stack;
pub mod summary;
pub mod traefik;
pub mod tree;
pub mod variables;
pub mod yaml;

verus! {

broadcast use crate::text::group_views;

// ── Findings ────────────────────────────────────────────────────────────
/// What became of a directive.
#[derive(Debug, Clone, Copy, PartialEq, Eq, Structural)]
pub enum Status {
    /// Faithfully converted.
    Convert,
    /// Converted with a stated semantic delta.
    Partial,
    /// Zion does it built-in; the directive is dropped with this note.
    Auto,
    /// No faithful Zion equivalent: needs a human decision.
    Unsupported,
}

pub open spec fn label_of(s: Status) -> Seq<char> {
    match s {
        Status::Convert => "convert"@,
        Status::Partial => "partial"@,
        Status::Auto => "auto"@,
        Status::Unsupported => "unsupported"@,
    }
}

impl Status {
    pub fn label(self) -> (r: &'static str)
        ensures
            r@ == label_of(self),
    {
        match self {
            Status::Convert => "convert",
            Status::Partial => "partial",
            Status::Auto => "auto",
            Status::Unsupported => "unsupported",
        }
    }
}

/// One line of the conversion report.
#[derive(Debug, Clone)]
pub struct Finding {
    pub status: Status,
    pub line: u32,
    pub directive: String,
    pub detail: String,
}

/// What a [`Finding`] says.
pub struct Note {
    pub status: Status,
    pub line: int,
    pub directive: Seq<char>,
    pub detail: Seq<char>,
}

impl View for Finding {
    type V = Note;

    open spec fn view(&self) -> Note {
        Note {
            status: self.status,
            line: self.line as int,
            directive: self.directive@,
            detail: self.detail@,
        }
    }
}

pub open spec fn note(status: Status, line: int, directive: Seq<char>, detail: Seq<char>) -> Note {
    Note { status, line, directive, detail }
}

/// The note on a directive that Zion has no equivalent for.
pub open spec fn unsupported_note(d: nginx::Dir) -> Note {
    note(Status::Unsupported, d.line, d.name, "no Zion equivalent — review manually"@)
}

impl Finding {
    pub fn new(status: Status, line: u32, directive: &str, detail: &str) -> (r: Finding)
        ensures
            r@ == note(status, line as int, directive@, detail@),
    {
        Finding { status, line, directive: directive.to_owned(), detail: detail.to_owned() }
    }

    pub fn unsupported_directive(d: &nginx::Directive) -> (r: Finding)
        ensures
            r@ == unsupported_note(d@),
    {
        Finding::new(
            Status::Unsupported,
            d.line,
            d.name.as_str(),
            "no Zion equivalent — review manually",
        )
    }
}

/// Files a finding at the end of the report.
pub fn file(
    findings: &mut Vec<Finding>,
    status: Status,
    line: u32,
    directive: &str,
    detail: &str,
)
    ensures
        text::views(final(findings)@) == text::views(old(findings)@).push(
            note(status, line as int, directive@, detail@),
        ),
{
    findings.push(Finding::new(status, line, directive, detail));
}

// ── Conversion ──────────────────────────────────────────────────────────
/// A converted configuration.
#[derive(Debug)]
pub struct Conversion {
    pub doc: ZionDoc,
    pub findings: Vec<Finding>,
}

#[derive(Debug)]
pub enum ConvertError {
    /// Input could not be parsed (with file/line context).
    Parse(String),
    /// Parsed fine, but nothing was convertible; findings explain why.
    NoRoutes(Vec<Finding>),
    /// The files that `pattern` names, seen from the directory `base`, are
    /// needed to go on.
    Lookup { base: String, pattern: String },
}

/// What a conversion comes to.
pub enum Outcome {
    Converted(DocV, Seq<Note>),
    Parse(Seq<char>),
    NoRoutes(Seq<Note>),
    Lookup(Seq<char>, Seq<char>),
}

pub open spec fn outcome(r: Result<Conversion, ConvertError>) -> Outcome {
    match r {
        Ok(c) => Outcome::Converted(c.doc@, text::views(c.findings@)),
        Err(ConvertError::Parse(e)) => Outcome::Parse(e@),
        Err(ConvertError::NoRoutes(f)) => Outcome::NoRoutes(text::views(f@)),
        Err(ConvertError::Lookup { base, pattern }) => Outcome::Lookup(base@, pattern@),
    }
}

/// A document with its notes in the order of their lines, if it has routes.
pub open spec fn finish_of(doc: DocV, notes: Seq<Note>) -> Outcome {
    let sorted = report::sorted_by_line(notes);
    if doc.routes.len() == 0 {
        Outcome::NoRoutes(sorted)
    } else {
        Outcome::Converted(doc, sorted)
    }
}

/// The conversion of a directive tree.
pub open spec fn convert_tree(ast: Seq<nginx::Dir>) -> Outcome {
    let e = model::extract_of(ast, seq![]);
    let (doc, notes) = map::map_model_of(e.model, e.notes);
    finish_of(doc, notes)
}

/// The conversion of a source text. Without a base directory, included files
/// stay out (and become findings).
pub open spec fn convert_of(
    src: Seq<char>,
    base: Option<Seq<char>>,
    table: Seq<includes::IncludedV>,
) -> Outcome {
    match nginx::parse_of(src) {
        Err(f) => Outcome::Parse(nginx::fault_text(f)),
        Ok(ast) => match base {
            None => convert_tree(ast),
            Some(dir) => match includes::resolve_of(ast, ast.len(), dir, table, 0) {
                Ok(ds) => convert_tree(ds),
                Err(includes::NeedV::Fail(msg)) => Outcome::Parse(msg),
                Err(includes::NeedV::Lookup(b, p)) => Outcome::Lookup(b, p),
            },
        },
    }
}

pub fn finish_conversion(doc: ZionDoc, findings: Vec<Finding>) -> (r: Result<
    Conversion,
    ConvertError,
>)
    ensures
        outcome(r) == finish_of(doc@, text::views(findings@)),
{
    let findings = sort_by_line(findings);
    if doc.routes.len() == 0 {
        Err(ConvertError::NoRoutes(findings))
    } else {
        Ok(Conversion { doc, findings })
    }
}

/// Converts nginx configuration text. `base` is the directory from which
/// included files are looked up; `table` holds what was looked up so far.
pub fn convert(src: &str, base: Option<&str>, table: &Vec<Included>) -> (r: Result<
    Conversion,
    ConvertError,
>)
    requires
        src@.len() < u32::MAX,
        includes::table_fits(text::views(table@)),
    ensures
        outcome(r) == convert_of(
            src@,
            match base {
                Some(b) => Some(b@),
                None => None,
            },
            text::views(table@),
        ),
{
    let ast = match nginx::parse(src) {
        Ok(a) => a,
        Err(e) => {
            return Err(ConvertError::Parse(e.to_text()));
        },
    };
    let ast = match base {
        None => ast,
        Some(dir) => match resolve_includes(ast, dir, table, 0) {
            Ok(ds) => ds,
            Err(Need::Fail(msg)) => {
                return Err(ConvertError::Parse(msg));
            },
            Err(Need::Lookup { base, pattern }) => {
                return Err(ConvertError::Lookup { base, pattern });
            },
        },
    };
    let mut findings: Vec<Finding> = Vec::new();
    assert(text::views(findings@) =~= seq![]);
    let m = model::extract(ast, &mut findings);
    let doc = map::map_model(&m, &mut findings);
    finish_conversion(doc, findings)
}

} // verus!
