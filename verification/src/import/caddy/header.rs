//! `header` directives. Zion already injects the usual security headers, so most
//! of a header block is built in; a `Content-Security-Policy` is carried over.
use crate::import;
use crate::import::nginx::{Dir, Directive};
use crate::import::{file, Finding, Note, Status};
use crate::text;
use crate::text::{begins_with, cat2, own, same, to_lower, trim_start_char};
use vstd::prelude::*;

verus! {

broadcast use {crate::text::group_views, crate::import::nginx::lemma_dir_view};

/// The headers that Zion injects.
pub open spec fn injected(f: Seq<char>) -> bool {
    ||| f == "x-content-type-options"@
    ||| f == "x-frame-options"@
    ||| f == "referrer-policy"@
    ||| f == "permissions-policy"@
}

/// What becomes of a header field, named in any case; `None` for the policy
/// that is carried over.
pub open spec fn field_fate(field: Seq<char>) -> Option<(Status, Seq<char>)> {
    let f = text::lower(text::trim_start_of(field, '-'));
    if text::begins(field, '-') {
        Some((Status::Auto, "Zion already strips this header"@))
    } else if injected(f) {
        Some((Status::Auto, "Zion injects this security header built-in"@))
    } else if f == "strict-transport-security"@ {
        Some(
            (
                Status::Partial,
                "Zion sets HSTS built-in with a fixed max-age (63072000; not configurable)"@,
            ),
        )
    } else if f == "content-security-policy"@ {
        None
    } else if f == "x-xss-protection"@ {
        Some(
            (
                Status::Unsupported,
                "Zion does not set X-XSS-Protection (a no-op on modern browsers)"@,
            ),
        )
    } else {
        Some((Status::Unsupported, "no generic header-manipulation target"@))
    }
}

pub open spec fn field_noted(field: Seq<char>, line: int, notes: Seq<Note>) -> Seq<Note> {
    match field_fate(field) {
        Some((status, detail)) => notes.push(
            import::note(
                status,
                line,
                "header "@ + text::trim_start_of(field, '-'),
                detail,
            ),
        ),
        None => notes,
    }
}

/// The notes on the first `n` fields of a header block.
pub open spec fn fields_noted(block: Seq<Dir>, n: nat, notes: Seq<Note>) -> Seq<Note>
    decreases n,
{
    if n == 0 {
        notes
    } else {
        field_noted(
            block[n - 1].name,
            block[n - 1].line,
            fields_noted(block, (n - 1) as nat, notes),
        )
    }
}

pub open spec fn policy_field(name: Seq<char>) -> bool {
    text::lower(name) == "content-security-policy"@
}

pub open spec fn arg_at(args: Seq<Seq<char>>, i: int) -> Option<Seq<char>> {
    if i < args.len() {
        Some(args[i])
    } else {
        None
    }
}

/// The policy that the first `n` fields of a header block set: the last counts.
pub open spec fn block_policy(block: Seq<Dir>, n: nat) -> Option<Seq<char>>
    decreases n,
{
    if n == 0 {
        None
    } else if policy_field(block[n - 1].name) {
        arg_at(block[n - 1].args, 0)
    } else {
        block_policy(block, (n - 1) as nat)
    }
}

/// What a `header` directive, in its block form or as one line, sets as policy
/// and leaves as notes.
pub open spec fn header_of(d: Dir, notes: Seq<Note>) -> (Option<Seq<char>>, Seq<Note>) {
    match d.block {
        Some(block) => (
            block_policy(block, block.len()),
            fields_noted(block, block.len(), notes),
        ),
        None => if d.args.len() == 0 {
            (None, notes)
        } else {
            (
                if policy_field(d.args[0]) {
                    arg_at(d.args, 1)
                } else {
                    None
                },
                field_noted(d.args[0], d.line, notes),
            )
        },
    }
}

fn is_injected(f: &str) -> (r: bool)
    ensures
        r == injected(f@),
{
    same(f, "x-content-type-options") || same(f, "x-frame-options") || same(f, "referrer-policy")
        || same(f, "permissions-policy")
}

fn note_field(field: &str, line: u32, findings: &mut Vec<Finding>)
    ensures
        text::views(final(findings)@) == field_noted(
            field@,
            line as int,
            text::views(old(findings)@),
        ),
{
    let name = trim_start_char(field, '-');
    let f = to_lower(name.as_str());
    let directive = cat2("header ", name.as_str());
    if begins_with(field, '-') {
        file(
            findings,
            Status::Auto,
            line,
            directive.as_str(),
            "Zion already strips this header",
        );
    } else if is_injected(f.as_str()) {
        file(
            findings,
            Status::Auto,
            line,
            directive.as_str(),
            "Zion injects this security header built-in",
        );
    } else if same(f.as_str(), "strict-transport-security") {
        file(
            findings,
            Status::Partial,
            line,
            directive.as_str(),
            "Zion sets HSTS built-in with a fixed max-age (63072000; not configurable)",
        );
    } else if same(f.as_str(), "content-security-policy") {
        // Carried over as the route's policy.
    } else if same(f.as_str(), "x-xss-protection") {
        file(
            findings,
            Status::Unsupported,
            line,
            directive.as_str(),
            "Zion does not set X-XSS-Protection (a no-op on modern browsers)",
        );
    } else {
        file(
            findings,
            Status::Unsupported,
            line,
            directive.as_str(),
            "no generic header-manipulation target",
        );
    }
}

fn is_policy_field(name: &str) -> (r: bool)
    ensures
        r == policy_field(name@),
{
    same(to_lower(name).as_str(), "content-security-policy")
}

fn get_arg(args: &Vec<String>, i: usize) -> (r: Option<String>)
    ensures
        text::opt(r) == arg_at(text::views(args@), i as int),
{
    if i < args.len() {
        assert(text::views(args@)[i as int] == args@[i as int]@);
        Some(own(args[i].as_str()))
    } else {
        None
    }
}

pub fn map_header(d: &Directive, findings: &mut Vec<Finding>) -> (r: Option<String>)
    ensures
        (text::opt(r), text::views(final(findings)@)) == header_of(
            d@,
            text::views(old(findings)@),
        ),
{
    let ghost notes = text::views(findings@);
    match &d.block {
        Some(block) => {
            let ghost bv = text::views(block@);
            let mut csp: Option<String> = None;
            let mut i: usize = 0;
            while i < block.len()
                invariant
                    i <= block.len(),
                    bv == text::views(block@),
                    text::opt(csp) == block_policy(bv, i as nat),
                    text::views(findings@) == fields_noted(bv, i as nat, notes),
                decreases block.len() - i,
            {
                assert(bv[i as int] == block@[i as int]@);
                let n = &block[i];
                if is_policy_field(n.name.as_str()) {
                    csp = get_arg(&n.args, 0);
                }
                note_field(n.name.as_str(), n.line, findings);
                i += 1;
            }
            csp
        },
        None => {
            if d.args.len() == 0 {
                return None;
            }
            assert(d@.args[0] == d.args@[0]@);
            note_field(d.args[0].as_str(), d.line, findings);
            if is_policy_field(d.args[0].as_str()) {
                get_arg(&d.args, 1)
            } else {
                None
            }
        },
    }
}

// ── Laws ────────────────────────────────────────────────────────────────
/// A `Content-Security-Policy` line, in any case, is carried over and leaves no
/// note.
pub proof fn law_policy_is_carried_over(d: Dir, notes: Seq<Note>)
    requires
        d.block is None,
        d.args.len() >= 2,
        policy_field(d.args[0]),
    ensures
        header_of(d, notes) == (Some(d.args[1]), notes),
{
    let s = d.args[0];
    reveal_strlit("content-security-policy");
    reveal_strlit("x-content-type-options");
    reveal_strlit("x-frame-options");
    reveal_strlit("referrer-policy");
    reveal_strlit("permissions-policy");
    reveal_strlit("strict-transport-security");
    assert(text::lower(s)[0] == 'c');
    assert(text::lower(s).len() == s.len());
    assert(text::lower(s)[0] == text::lower_char(s[0]));
    assert(s[0] != '-');
    assert("x-content-type-options"@[0] == 'x');
    assert("x-frame-options"@[0] == 'x');
    assert("referrer-policy"@[0] == 'r');
    assert("permissions-policy"@[0] == 'p');
    assert("strict-transport-security"@[0] == 's');
}

} // verus!
