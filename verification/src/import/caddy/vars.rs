//! `{$VAR}` and `{$VAR:default}` in Caddyfile words.
use crate::import;
use crate::import::env;
use crate::import::env::{Env, InterV, VarV};
use crate::import::{file, Finding, Note, Status};
use crate::text;
use crate::text::{cat3, cat4, chars_of, find_from, slice_of, split_once};
use vstd::prelude::*;

verus! {

broadcast use crate::text::group_views;

pub open spec fn unresolved_note(name: Seq<char>, line: int, ctx: Seq<char>) -> Note {
    import::note(
        Status::Unsupported,
        line,
        ctx + ": {$"@ + name + "}"@,
        "unresolved variable — pass `--var "@ + name + "=…` or set it in .env"@,
    )
}

/// The name in a placeholder, and its default.
pub open spec fn name_and_default(inner: Seq<char>) -> (Seq<char>, Option<Seq<char>>) {
    match text::split_once_of(inner, ':') {
        Some((n, d)) => (n, Some(d)),
        None => (inner, None),
    }
}

/// What a placeholder stands for.
pub open spec fn placeholder_value(vars: Seq<VarV>, inner: Seq<char>) -> Option<Seq<char>> {
    let (name, default) = name_and_default(inner);
    match env::set_value(vars, name) {
        Some(v) => Some(v),
        None => default,
    }
}

/// Replaces every `{$…}` from `p` on. An unterminated `{$` stays literal, and
/// so does every other placeholder.
pub open spec fn resolve_from(
    st: InterV,
    raw: Seq<char>,
    p: int,
    vars: Seq<VarV>,
    line: int,
    ctx: Seq<char>,
) -> InterV
    decreases raw.len() - p,
{
    if p < 0 || p >= raw.len() {
        st
    } else if raw[p] == '{' && p + 1 < raw.len() && raw[p + 1] == '$' {
        let e = text::index_of(raw, '}', p + 2);
        if p + 2 <= e < raw.len() {
            let inner = raw.subrange(p + 2, e);
            let next = match placeholder_value(vars, inner) {
                Some(v) => InterV { out: st.out + v, ..st },
                None => InterV {
                    ok: false,
                    notes: st.notes.push(
                        unresolved_note(name_and_default(inner).0, line, ctx),
                    ),
                    ..st
                },
            };
            resolve_from(next, raw, e + 1, vars, line, ctx)
        } else {
            InterV { out: st.out + raw.subrange(p, raw.len() as int), ..st }
        }
    } else {
        resolve_from(InterV { out: st.out.push(raw[p]), ..st }, raw, p + 1, vars, line, ctx)
    }
}

/// The text with its variables replaced; `None` where one is unresolved, which
/// is noted.
pub open spec fn resolved(
    raw: Seq<char>,
    vars: Seq<VarV>,
    line: int,
    ctx: Seq<char>,
    notes: Seq<Note>,
) -> (Option<Seq<char>>, Seq<Note>) {
    let st = resolve_from(InterV { out: seq![], ok: true, notes }, raw, 0, vars, line, ctx);
    (
        if st.ok {
            Some(st.out)
        } else {
            None
        },
        st.notes,
    )
}

fn split_default(inner: &str) -> (r: (String, Option<String>))
    ensures
        (r.0@, text::opt(r.1)) == name_and_default(inner@),
{
    match split_once(inner, ':') {
        Some((n, d)) => (n, Some(d)),
        None => (inner.to_owned(), None),
    }
}

pub fn resolve(raw: &str, env: &Env, line: u32, ctx: &str, findings: &mut Vec<Finding>) -> (r:
    Option<String>)
    ensures
        (text::opt(r), text::views(final(findings)@)) == resolved(
            raw@,
            env.vars_view(),
            line as int,
            ctx@,
            text::views(old(findings)@),
        ),
{
    let v = chars_of(raw);
    let ghost vars = env.vars_view();
    let ghost start = InterV { out: seq![], ok: true, notes: text::views(findings@) };
    let mut out = String::new();
    let mut ok = true;
    let mut p: usize = 0;
    assert(out@ =~= seq![]);
    while p < v.len()
        invariant
            v@ == raw@,
            vars == env.vars_view(),
            p <= v.len(),
            resolve_from(start, raw@, 0, vars, line as int, ctx@) == resolve_from(
                InterV { out: out@, ok, notes: text::views(findings@) },
                raw@,
                p as int,
                vars,
                line as int,
                ctx@,
            ),
        decreases v.len() - p,
    {
        if v[p] == '{' && p + 1 < v.len() && v[p + 1] == '$' {
            let e: usize = find_from(&v, '}', p + 2);
            if e < v.len() {
                let inner = slice_of(&v, p + 2, e);
                let (name, default) = split_default(inner.as_str());
                match env.get(name.as_str()) {
                    Some(val) => {
                        out.append(val.as_str());
                    },
                    None => match default {
                        Some(d) => {
                            out.append(d.as_str());
                        },
                        None => {
                            let directive = cat4(ctx, ": {$", name.as_str(), "}");
                            let detail = cat3(
                                "unresolved variable — pass `--var ",
                                name.as_str(),
                                "=…` or set it in .env",
                            );
                            file(
                                findings,
                                Status::Unsupported,
                                line,
                                directive.as_str(),
                                detail.as_str(),
                            );
                            ok = false;
                        },
                    },
                }
                p = e + 1;
            } else {
                out.append(slice_of(&v, p, v.len()).as_str());
                p = v.len();
            }
        } else {
            out.push(v[p]);
            p += 1;
        }
    }
    if ok {
        Some(out)
    } else {
        None
    }
}

// ── Laws ────────────────────────────────────────────────────────────────
/// A text without `{$` is left as it is, runtime placeholders included, and
/// nothing is noted.
pub proof fn law_resolve_keeps_plain_text(
    raw: Seq<char>,
    vars: Seq<VarV>,
    line: int,
    ctx: Seq<char>,
    notes: Seq<Note>,
)
    requires
        forall|i: int|
            0 <= i < raw.len() - 1 ==> !(#[trigger] raw[i] == '{' && raw[i + 1] == '$'),
    ensures
        resolved(raw, vars, line, ctx, notes) == (Some(raw), notes),
{
    lemma_plain_resolve(seq![], raw, 0, vars, line, ctx, notes);
    assert(Seq::<char>::empty() + raw.subrange(0, raw.len() as int) =~= raw);
}

proof fn lemma_plain_resolve(
    out: Seq<char>,
    raw: Seq<char>,
    p: int,
    vars: Seq<VarV>,
    line: int,
    ctx: Seq<char>,
    notes: Seq<Note>,
)
    requires
        0 <= p <= raw.len(),
        forall|i: int|
            0 <= i < raw.len() - 1 ==> !(#[trigger] raw[i] == '{' && raw[i + 1] == '$'),
    ensures
        resolve_from(InterV { out, ok: true, notes }, raw, p, vars, line, ctx) == (InterV {
            out: out + raw.subrange(p, raw.len() as int),
            ok: true,
            notes,
        }),
    decreases raw.len() - p,
{
    if p < raw.len() {
        lemma_plain_resolve(out.push(raw[p]), raw, p + 1, vars, line, ctx, notes);
        assert(out.push(raw[p]) + raw.subrange(p + 1, raw.len() as int) =~= out + raw.subrange(
            p,
            raw.len() as int,
        ));
    } else {
        assert(out + raw.subrange(p, raw.len() as int) =~= out);
    }
}

} // verus!
