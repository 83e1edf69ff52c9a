//! Variables for `${…}`: values of an `.env` file, overlaid by overrides.
use super::{file, Finding, Note, Status};
use crate::import;
use crate::text;
use crate::text::{begins_with, cat3, cat4, chars_of, find_from, is_alnum, lines, own, same};
use crate::text::{slice_of, split_once, strip_prefix, trim};
use vstd::prelude::*;

verus! {

broadcast use crate::text::group_views;

#[derive(Debug)]
pub struct Var {
    pub key: String,
    pub value: String,
}

#[verifier::ext_equal]
pub struct VarV {
    pub key: Seq<char>,
    pub value: Seq<char>,
}

impl View for Var {
    type V = VarV;

    open spec fn view(&self) -> VarV {
        VarV { key: self.key@, value: self.value@ }
    }
}

/// The variables in the order in which they were set; the last setting counts.
#[derive(Debug)]
pub struct Env {
    pub vars: Vec<Var>,
}

/// What the first `n` settings make of a variable.
pub open spec fn value_in(vars: Seq<VarV>, n: nat, key: Seq<char>) -> Option<Seq<char>>
    decreases n,
{
    if n == 0 {
        None
    } else if vars[n - 1].key == key {
        Some(vars[n - 1].value)
    } else {
        value_in(vars, (n - 1) as nat, key)
    }
}

/// The value of a variable, if it is set to something.
pub open spec fn set_value(vars: Seq<VarV>, key: Seq<char>) -> Option<Seq<char>> {
    match value_in(vars, vars.len(), key) {
        Some(v) if v.len() > 0 => Some(v),
        _ => None,
    }
}

/// A text without the quotes around it.
pub open spec fn unquoted(s: Seq<char>) -> Seq<char> {
    if s.len() >= 2 && (s[0] == '"' || s[0] == '\'') && s[s.len() - 1] == s[0] {
        s.subrange(1, s.len() - 1)
    } else {
        s
    }
}

pub fn strip_quotes(s: &str) -> (r: String)
    ensures
        r@ == unquoted(s@),
{
    let v = chars_of(s);
    if v.len() >= 2 && (v[0] == '"' || v[0] == '\'') && v[v.len() - 1] == v[0] {
        slice_of(&v, 1, v.len() - 1)
    } else {
        own(s)
    }
}

/// The setting that a line of an `.env` file makes.
pub open spec fn env_line(raw: Seq<char>) -> Option<VarV> {
    let line = text::trim_of(raw);
    if line.len() == 0 || line[0] == '#' {
        None
    } else {
        let body = match text::strip_prefix_of(line, "export "@) {
            Some(b) => b,
            None => line,
        };
        match text::split_once_of(body, '=') {
            Some((k, v)) => Some(
                VarV { key: text::trim_of(k), value: unquoted(text::trim_of(v)) },
            ),
            None => None,
        }
    }
}

pub open spec fn env_lines(raw: Seq<Seq<char>>, n: nat) -> Seq<VarV>
    decreases n,
{
    if n == 0 {
        seq![]
    } else {
        match env_line(raw[n - 1]) {
            Some(v) => env_lines(raw, (n - 1) as nat).push(v),
            None => env_lines(raw, (n - 1) as nat),
        }
    }
}

pub open spec fn pairs_of(pairs: Seq<(String, String)>) -> Seq<VarV> {
    Seq::new(pairs.len(), |i: int| VarV { key: pairs[i].0@, value: pairs[i].1@ })
}

/// The variables of an `.env` file's text, overlaid by overrides.
pub open spec fn loaded(content: Option<Seq<char>>, overrides: Seq<VarV>) -> Seq<VarV> {
    match content {
        Some(c) => env_lines(text::lines_of(c), text::lines_of(c).len()) + overrides,
        None => overrides,
    }
}

fn read_env_line(raw: &str) -> (r: Option<Var>)
    ensures
        match r {
            Some(v) => env_line(raw@) == Some(v@),
            None => env_line(raw@) is None,
        },
{
    let line = trim(raw);
    if line.as_str().is_empty() || begins_with(line.as_str(), '#') {
        return None;
    }
    let body = match strip_prefix(line.as_str(), "export ") {
        Some(b) => b,
        None => line,
    };
    match split_once(body.as_str(), '=') {
        Some((k, v)) => Some(
            Var { key: trim(k.as_str()), value: strip_quotes(trim(v.as_str()).as_str()) },
        ),
        None => None,
    }
}

/// Where the name at the start of a `${…}` body ends.
pub open spec fn name_end(s: Seq<char>, p: int) -> int
    decreases s.len() - p,
{
    if 0 <= p < s.len() && (text::alnum(s[p]) || s[p] == '_') {
        name_end(s, p + 1)
    } else {
        p
    }
}

pub open spec fn var_name_of(s: Seq<char>) -> Seq<char> {
    s.subrange(0, name_end(s, 0))
}

fn find_name_end(v: &Vec<char>) -> (r: usize)
    ensures
        r == name_end(v@, 0),
        r <= v.len(),
{
    let mut p: usize = 0;
    while p < v.len() && (is_alnum(v[p]) || v[p] == '_')
        invariant
            p <= v.len(),
            name_end(v@, 0) == name_end(v@, p as int),
        decreases v.len() - p,
    {
        p += 1;
    }
    p
}

/// The `NAME` part of a `${…}` body.
pub fn var_name(spec_text: &str) -> (r: String)
    ensures
        r@ == var_name_of(spec_text@),
{
    let v = chars_of(spec_text);
    let e: usize = find_name_end(&v);
    slice_of(&v, 0, e)
}

/// A `${…}` body: `NAME`, `NAME:-default`, `NAME-default`, `NAME:?msg`,
/// `NAME?msg`. `None` where the variable is required but unset or empty.
/// Anything more exotic is treated as the bare name.
pub open spec fn expand_of(vars: Seq<VarV>, s: Seq<char>) -> Option<Seq<char>> {
    let set = set_value(vars, var_name_of(s));
    let rest = s.subrange(name_end(s, 0), s.len() as int);
    let default = match text::strip_prefix_of(rest, ":-"@) {
        Some(d) => Some(d),
        None => text::strip_prefix_of(rest, "-"@),
    };
    match default {
        Some(d) => if set is Some {
            set
        } else {
            Some(d)
        },
        None => set,
    }
}

impl Env {
    pub open spec fn vars_view(&self) -> Seq<VarV> {
        text::views(self.vars@)
    }

    pub fn load(content: Option<&str>, overrides: &Vec<(String, String)>) -> (r: Env)
        ensures
            r.vars_view() == loaded(
                match content {
                    Some(c) => Some(c@),
                    None => None,
                },
                pairs_of(overrides@),
            ),
    {
        let mut vars: Vec<Var> = Vec::new();
        assert(text::views(vars@) =~= seq![]);
        match content {
            Some(c) => {
                let raw = lines(c);
                let ghost rv = text::views(raw@);
                let mut i: usize = 0;
                while i < raw.len()
                    invariant
                        i <= raw.len(),
                        rv == text::views(raw@),
                        text::views(vars@) == env_lines(rv, i as nat),
                    decreases raw.len() - i,
                {
                    assert(rv[i as int] == raw@[i as int]@);
                    match read_env_line(raw[i].as_str()) {
                        Some(v) => {
                            vars.push(v);
                        },
                        None => {},
                    }
                    i += 1;
                }
            },
            None => {},
        }
        let ghost base = text::views(vars@);
        let ghost want = pairs_of(overrides@);
        let mut i: usize = 0;
        assert(base + want.take(0) =~= base);
        while i < overrides.len()
            invariant
                i <= overrides.len(),
                want == pairs_of(overrides@),
                text::views(vars@) == base + want.take(i as int),
            decreases overrides.len() - i,
        {
            vars.push(Var { key: overrides[i].0.clone(), value: overrides[i].1.clone() });
            assert(text::views(vars@) =~= base + want.take(i + 1));
            i += 1;
        }
        assert(want.take(i as int) =~= want);
        assert(base + want =~= loaded(
            match content {
                Some(c) => Some(c@),
                None => None,
            },
            want,
        ));
        Env { vars }
    }

    /// The value of a variable, if it is set to something.
    pub fn get(&self, key: &str) -> (r: Option<String>)
        ensures
            text::opt(r) == set_value(self.vars_view(), key@),
    {
        let ghost vv = self.vars_view();
        let mut n: usize = self.vars.len();
        while n > 0
            invariant
                n <= self.vars.len(),
                vv == self.vars_view(),
                value_in(vv, vv.len(), key@) == value_in(vv, n as nat, key@),
            decreases n,
        {
            assert(vv[n - 1] == self.vars@[n - 1]@);
            if same(self.vars[n - 1].key.as_str(), key) {
                let v: &str = self.vars[n - 1].value.as_str();
                return if v.is_empty() {
                    None
                } else {
                    Some(own(v))
                };
            }
            n -= 1;
        }
        None
    }

    /// Expands a single `${…}` body.
    pub fn expand(&self, spec_text: &str) -> (r: Option<String>)
        ensures
            text::opt(r) == expand_of(self.vars_view(), spec_text@),
    {
        let v = chars_of(spec_text);
        let e: usize = find_name_end(&v);
        let name = slice_of(&v, 0, e);
        let rest = slice_of(&v, e, v.len());
        let set = self.get(name.as_str());
        let default = match strip_prefix(rest.as_str(), ":-") {
            Some(d) => Some(d),
            None => strip_prefix(rest.as_str(), "-"),
        };
        match default {
            Some(d) => match set {
                Some(s) => Some(s),
                None => Some(d),
            },
            None => set,
        }
    }
}

// ── Interpolation ───────────────────────────────────────────────────────
/// What the text before a position came to.
pub struct InterV {
    pub out: Seq<char>,
    /// Whether every variable so far was resolved.
    pub ok: bool,
    pub notes: Seq<Note>,
}

pub open spec fn unresolved_note(inner: Seq<char>, line: int, ctx: Seq<char>) -> Note {
    import::note(
        Status::Unsupported,
        line,
        ctx + ": ${"@ + inner + "}"@,
        "unresolved variable — pass `--var "@ + var_name_of(inner) + "=…` or set it in .env"@,
    )
}

/// Replaces every `${…}` from `p` on. An unterminated `${` stays literal.
pub open spec fn inter_from(
    st: InterV,
    raw: Seq<char>,
    p: int,
    vars: Seq<VarV>,
    line: int,
    ctx: Seq<char>,
) -> InterV
    decreases raw.len() - p,
{
    if p < 0 || p >= raw.len() {
        st
    } else if raw[p] == '$' && p + 1 < raw.len() && raw[p + 1] == '{' {
        let e = text::index_of(raw, '}', p + 2);
        if p + 2 <= e < raw.len() {
            let inner = raw.subrange(p + 2, e);
            let next = match expand_of(vars, inner) {
                Some(v) => InterV { out: st.out + v, ..st },
                None => InterV {
                    ok: false,
                    notes: st.notes.push(unresolved_note(inner, line, ctx)),
                    ..st
                },
            };
            inter_from(next, raw, e + 1, vars, line, ctx)
        } else {
            InterV { out: st.out + raw.subrange(p, raw.len() as int), ..st }
        }
    } else {
        inter_from(InterV { out: st.out.push(raw[p]), ..st }, raw, p + 1, vars, line, ctx)
    }
}

/// The text with its variables replaced; `None` where one is unresolved, which
/// is noted.
pub open spec fn interpolated(
    raw: Seq<char>,
    vars: Seq<VarV>,
    line: int,
    ctx: Seq<char>,
    notes: Seq<Note>,
) -> (Option<Seq<char>>, Seq<Note>) {
    let st = inter_from(InterV { out: seq![], ok: true, notes }, raw, 0, vars, line, ctx);
    (
        if st.ok {
            Some(st.out)
        } else {
            None
        },
        st.notes,
    )
}

pub fn interpolate(raw: &str, env: &Env, line: u32, ctx: &str, findings: &mut Vec<Finding>) -> (r:
    Option<String>)
    ensures
        (text::opt(r), text::views(final(findings)@)) == interpolated(
            raw@,
            env.vars_view(),
            line as int,
            ctx@,
            text::views(old(findings)@),
        ),
{
    let v = chars_of(raw);
    let ghost vars = env.vars_view();
    let ghost start = InterV { out: seq![], ok: true, notes: text::views(findings@) };
    let mut out = String::new();
    let mut ok = true;
    let mut p: usize = 0;
    assert(out@ =~= seq![]);
    while p < v.len()
        invariant
            v@ == raw@,
            vars == env.vars_view(),
            p <= v.len(),
            inter_from(start, raw@, 0, vars, line as int, ctx@) == inter_from(
                InterV { out: out@, ok, notes: text::views(findings@) },
                raw@,
                p as int,
                vars,
                line as int,
                ctx@,
            ),
        decreases v.len() - p,
    {
        if v[p] == '$' && p + 1 < v.len() && v[p + 1] == '{' {
            let e: usize = find_from(&v, '}', p + 2);
            if e < v.len() {
                let inner = slice_of(&v, p + 2, e);
                match env.expand(inner.as_str()) {
                    Some(val) => {
                        out.append(val.as_str());
                    },
                    None => {
                        let name = var_name(inner.as_str());
                        let directive = cat4(ctx, ": ${", inner.as_str(), "}");
                        let detail = cat3(
                            "unresolved variable — pass `--var ",
                            name.as_str(),
                            "=…` or set it in .env",
                        );
                        file(
                            findings,
                            Status::Unsupported,
                            line,
                            directive.as_str(),
                            detail.as_str(),
                        );
                        ok = false;
                    },
                }
                p = e + 1;
            } else {
                out.append(slice_of(&v, p, v.len()).as_str());
                p = v.len();
            }
        } else {
            out.push(v[p]);
            p += 1;
        }
    }
    if ok {
        Some(out)
    } else {
        None
    }
}

/// Soft interpolation: with an unresolved variable the text stays as it is.
pub open spec fn softly(raw: Seq<char>, vars: Seq<VarV>) -> Seq<char> {
    match interpolated(raw, vars, 0, ""@, seq![]).0 {
        Some(v) => v,
        None => raw,
    }
}

pub fn interpolate_soft(raw: &str, env: &Env) -> (r: String)
    ensures
        r@ == softly(raw@, env.vars_view()),
{
    let mut dropped: Vec<Finding> = Vec::new();
    assert(text::views(dropped@) =~= seq![]);
    match interpolate(raw, env, 0, "", &mut dropped) {
        Some(v) => v,
        None => own(raw),
    }
}

// ── Laws ────────────────────────────────────────────────────────────────
proof fn lemma_value_in_last(base: Seq<VarV>, more: Seq<VarV>, n: nat, key: Seq<char>)
    requires
        n <= more.len(),
    ensures
        value_in(base + more, base.len() + n, key) == (match value_in(more, n, key) {
            Some(v) => Some(v),
            None => value_in(base, base.len(), key),
        }),
    decreases n,
{
    if n > 0 {
        assert((base + more)[base.len() + n - 1] == more[n - 1]);
        lemma_value_in_last(base, more, (n - 1) as nat, key);
    } else {
        lemma_value_in_prefix(base, more, base.len(), key);
    }
}

proof fn lemma_value_in_prefix(base: Seq<VarV>, more: Seq<VarV>, n: nat, key: Seq<char>)
    requires
        n <= base.len(),
    ensures
        value_in(base + more, n, key) == value_in(base, n, key),
    decreases n,
{
    if n > 0 {
        assert((base + more)[n - 1] == base[n - 1]);
        lemma_value_in_prefix(base, more, (n - 1) as nat, key);
    }
}

/// An override wins over the `.env` file.
pub proof fn law_overrides_win(content: Seq<char>, overrides: Seq<VarV>, key: Seq<char>)
    requires
        value_in(overrides, overrides.len(), key) is Some,
    ensures
        value_in(loaded(Some(content), overrides), loaded(Some(content), overrides).len(), key)
            == value_in(overrides, overrides.len(), key),
{
    let base = env_lines(text::lines_of(content), text::lines_of(content).len());
    lemma_value_in_last(base, overrides, overrides.len(), key);
}

/// A text without `${` is left as it is, and nothing is noted.
pub proof fn law_interpolation_keeps_plain_text(
    raw: Seq<char>,
    vars: Seq<VarV>,
    line: int,
    ctx: Seq<char>,
    notes: Seq<Note>,
)
    requires
        forall|i: int|
            0 <= i < raw.len() - 1 ==> !(#[trigger] raw[i] == '$' && raw[i + 1] == '{'),
    ensures
        interpolated(raw, vars, line, ctx, notes) == (Some(raw), notes),
{
    lemma_plain_inter(seq![], raw, 0, vars, line, ctx, notes);
    assert(Seq::<char>::empty() + raw.subrange(0, raw.len() as int) =~= raw);
}

proof fn lemma_plain_inter(
    out: Seq<char>,
    raw: Seq<char>,
    p: int,
    vars: Seq<VarV>,
    line: int,
    ctx: Seq<char>,
    notes: Seq<Note>,
)
    requires
        0 <= p <= raw.len(),
        forall|i: int|
            0 <= i < raw.len() - 1 ==> !(#[trigger] raw[i] == '$' && raw[i + 1] == '{'),
    ensures
        inter_from(InterV { out, ok: true, notes }, raw, p, vars, line, ctx) == (InterV {
            out: out + raw.subrange(p, raw.len() as int),
            ok: true,
            notes,
        }),
    decreases raw.len() - p,
{
    if p < raw.len() {
        lemma_plain_inter(out.push(raw[p]), raw, p + 1, vars, line, ctx, notes);
        assert(out.push(raw[p]) + raw.subrange(p + 1, raw.len() as int) =~= out + raw.subrange(
            p,
            raw.len() as int,
        ));
    } else {
        assert(out + raw.subrange(p, raw.len() as int) =~= out);
    }
}

proof fn lemma_inter_notes(
    st: InterV,
    raw: Seq<char>,
    p: int,
    vars: Seq<VarV>,
    line: int,
    ctx: Seq<char>,
)
    ensures
        ({
            let r = inter_from(st, raw, p, vars, line, ctx);
            &&& r.notes.len() >= st.notes.len()
            &&& forall|i: int| 0 <= i < st.notes.len() ==> #[trigger] r.notes[i] == st.notes[i]
            &&& forall|i: int|
                st.notes.len() <= i < r.notes.len() ==> (#[trigger] r.notes[i]).status
                    == Status::Unsupported && r.notes[i].line == line
            &&& r.ok == (st.ok && r.notes.len() == st.notes.len())
        }),
    decreases raw.len() - p,
{
    if p < 0 || p >= raw.len() {
    } else if raw[p] == '$' && p + 1 < raw.len() && raw[p + 1] == '{' {
        let e = text::index_of(raw, '}', p + 2);
        if p + 2 <= e < raw.len() {
            let inner = raw.subrange(p + 2, e);
            let next = match expand_of(vars, inner) {
                Some(v) => InterV { out: st.out + v, ..st },
                None => InterV {
                    ok: false,
                    notes: st.notes.push(unresolved_note(inner, line, ctx)),
                    ..st
                },
            };
            lemma_inter_notes(next, raw, e + 1, vars, line, ctx);
            let r = inter_from(st, raw, p, vars, line, ctx);
            assert forall|i: int| 0 <= i < st.notes.len() implies #[trigger] r.notes[i]
                == st.notes[i] by {
                assert(next.notes[i] == st.notes[i]);
            }
            assert forall|i: int| st.notes.len() <= i < r.notes.len() implies (
            #[trigger] r.notes[i]).status == Status::Unsupported && r.notes[i].line == line by {
                if i < next.notes.len() {
                    assert(r.notes[i] == next.notes[i]);
                }
            }
        }
    } else {
        lemma_inter_notes(
            InterV { out: st.out.push(raw[p]), ..st },
            raw,
            p + 1,
            vars,
            line,
            ctx,
        );
    }
}

/// A text comes out only where all its variables are known; where one is not,
/// nothing is made up, and the report says so on the line in question.
pub proof fn law_unresolved_variables_are_told(
    raw: Seq<char>,
    vars: Seq<VarV>,
    line: int,
    ctx: Seq<char>,
    notes: Seq<Note>,
)
    ensures
        ({
            let (out, after) = interpolated(raw, vars, line, ctx, notes);
            &&& after.len() >= notes.len()
            &&& forall|i: int| 0 <= i < notes.len() ==> #[trigger] after[i] == notes[i]
            &&& out is Some ==> after == notes
            &&& out is None ==> after.len() > notes.len() && after[notes.len() as int].status
                == Status::Unsupported && after[notes.len() as int].line == line
        }),
{
    lemma_inter_notes(InterV { out: seq![], ok: true, notes }, raw, 0, vars, line, ctx);
    let after = interpolated(raw, vars, line, ctx, notes).1;
    if after.len() == notes.len() {
        assert(after =~= notes);
    }
}

} // verus!
