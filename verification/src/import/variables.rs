//! What becomes of the variables of a compose file.
use super::env;
use super::env::{InterV, VarV};
use super::Note;
use crate::text;
use crate::words;
use vstd::prelude::*;

verus! {

// ── Values ──────────────────────────────────────────────────────────────
/// The variable is set to the value: the last setting of it says so.
pub open spec fn set_to(vars: Seq<VarV>, key: Seq<char>, value: Seq<char>) -> bool {
    exists|i: int|
        0 <= i < vars.len() && (#[trigger] vars[i]).key == key && vars[i].value == value
            && unset_from(vars, i + 1, key)
}

/// No setting from the i-th on is of the variable.
pub open spec fn unset_from(vars: Seq<VarV>, i: int, key: Seq<char>) -> bool {
    forall|j: int| i <= j < vars.len() ==> (#[trigger] vars[j]).key != key
}

proof fn lemma_value(vars: Seq<VarV>, n: nat, key: Seq<char>, i: int)
    requires
        0 <= i < n <= vars.len(),
        vars[i].key == key,
        forall|j: int| i < j < n ==> (#[trigger] vars[j]).key != key,
    ensures
        env::value_in(vars, n, key) == Some(vars[i].value),
    decreases n,
{
    if i < n - 1 {
        assert(vars[n - 1].key != key);
        lemma_value(vars, (n - 1) as nat, key, i);
    }
}

proof fn lemma_no_value(vars: Seq<VarV>, n: nat, key: Seq<char>)
    requires
        n <= vars.len(),
        unset_from(vars, 0, key),
    ensures
        env::value_in(vars, n, key) is None,
    decreases n,
{
    if n > 0 {
        assert(vars[n - 1].key != key);
        lemma_no_value(vars, (n - 1) as nat, key);
    }
}

/// A variable that is set to something has that value, and one that is never set
/// has none.
pub proof fn lemma_set_value(vars: Seq<VarV>, key: Seq<char>, value: Seq<char>)
    ensures
        set_to(vars, key, value) && value.len() > 0 ==> env::set_value(vars, key) == Some(value),
        unset_from(vars, 0, key) ==> env::set_value(vars, key) is None,
{
    if set_to(vars, key, value) {
        let i = choose|i: int|
            0 <= i < vars.len() && (#[trigger] vars[i]).key == key && vars[i].value == value
                && unset_from(vars, i + 1, key);
        lemma_value(vars, vars.len(), key, i);
    }
    if unset_from(vars, 0, key) {
        lemma_no_value(vars, vars.len(), key);
    }
}

/// A name of a variable: letters, digits and underscores.
pub open spec fn name(s: Seq<char>) -> bool {
    s.len() > 0 && forall|i: int|
        0 <= i < s.len() ==> 'a' <= #[trigger] s[i] <= 'z' || 'A' <= s[i] <= 'Z' || '0' <= s[i] <= '9'
            || s[i] == '_'
}

proof fn lemma_name_end(s: Seq<char>, n: int, p: int)
    requires
        0 <= p <= n <= s.len(),
        forall|i: int|
            0 <= i < n ==> 'a' <= #[trigger] s[i] <= 'z' || 'A' <= s[i] <= 'Z' || '0' <= s[i] <= '9'
                || s[i] == '_',
        n < s.len() ==> s[n] == ':' || s[n] == '-' || s[n] == '?',
    ensures
        env::name_end(s, p) == n,
    decreases n - p,
{
    if p < n {
        assert('a' <= s[p] <= 'z' || 'A' <= s[p] <= 'Z' || '0' <= s[p] <= '9' || s[p] == '_');
        lemma_name_end(s, n, p + 1);
    }
}

// ── Texts ───────────────────────────────────────────────────────────────
/// The text has no variable in it.
pub open spec fn without_variable(s: Seq<char>) -> bool {
    forall|i: int| 0 <= i < s.len() - 1 ==> !(#[trigger] s[i] == '$' && s[i + 1] == '{')
}

proof fn lemma_skip(st: InterV, raw: Seq<char>, p: int, k: int, vars: Seq<VarV>, line: int, ctx: Seq<char>)
    requires
        0 <= p <= k <= raw.len(),
        forall|i: int|
            p <= i < k ==> !(#[trigger] raw[i] == '$' && i + 1 < raw.len() && raw[i + 1] == '{'),
    ensures
        env::inter_from(st, raw, p, vars, line, ctx) == env::inter_from(
            InterV { out: st.out + raw.subrange(p, k), ..st },
            raw,
            k,
            vars,
            line,
            ctx,
        ),
    decreases k - p,
{
    if p < k {
        let next = InterV { out: st.out.push(raw[p]), ..st };
        lemma_skip(next, raw, p + 1, k, vars, line, ctx);
        assert(next.out + raw.subrange(p + 1, k) =~= st.out + raw.subrange(p, k));
    } else {
        assert(st.out + raw.subrange(p, k) =~= st.out);
    }
}

proof fn lemma_one_variable(
    a: Seq<char>,
    inner: Seq<char>,
    b: Seq<char>,
    value: Seq<char>,
    vars: Seq<VarV>,
    line: int,
    ctx: Seq<char>,
    notes: Seq<Note>,
)
    requires
        without_variable(a),
        without_variable(b),
        !inner.contains('}'),
        env::expand_of(vars, inner) == Some(value),
    ensures
        env::interpolated(a + "${"@ + inner + "}"@ + b, vars, line, ctx, notes) == (
            Some(a + value + b),
            notes,
        ),
{
    reveal_strlit("${");
    reveal_strlit("}");
    let raw = a + "${"@ + inner + "}"@ + b;
    let n = a.len() as int;
    let st = InterV { out: seq![], ok: true, notes };
    assert(raw[n] == '$' && raw[n + 1] == '{');
    assert forall|i: int| 0 <= i < n implies !(#[trigger] raw[i] == '$' && i + 1 < raw.len()
        && raw[i + 1] == '{') by {
        assert(raw[i] == a[i]);
        if i + 1 < n {
            assert(raw[i + 1] == a[i + 1]);
        }
    }
    lemma_skip(st, raw, 0, n, vars, line, ctx);
    let st1 = InterV { out: st.out + raw.subrange(0, n), ..st };
    assert(st1.out =~= a);
    let e = n + 2 + inner.len();
    text::lemma_index_of(raw, '}', n + 2);
    let found = text::index_of(raw, '}', n + 2);
    assert(raw[e] == '}');
    if found < e {
        assert(inner[found - n - 2] == raw[found]);
    }
    assert(found == e);
    assert(raw.subrange(n + 2, e) =~= inner);
    let st2 = InterV { out: a + value, ok: true, notes };
    assert forall|i: int| e + 1 <= i < raw.len() implies !(#[trigger] raw[i] == '$' && i + 1
        < raw.len() && raw[i + 1] == '{') by {
        assert(raw[i] == b[i - e - 1]);
        if i + 1 < raw.len() {
            assert(raw[i + 1] == b[i - e]);
        }
    }
    lemma_skip(st2, raw, e + 1, raw.len() as int, vars, line, ctx);
    assert(raw.subrange(e + 1, raw.len() as int) =~= b);
}

/// A variable that is set stands for its value, with or without a default; one
/// that is not stands for its default.
pub proof fn law_variable_stands_for_its_value(
    a: Seq<char>,
    key: Seq<char>,
    b: Seq<char>,
    value: Seq<char>,
    default: Seq<char>,
    vars: Seq<VarV>,
    line: int,
    ctx: Seq<char>,
    notes: Seq<Note>,
)
    requires
        without_variable(a),
        without_variable(b),
        name(key),
        !default.contains('}'),
    ensures
        set_to(vars, key, value) && value.len() > 0 ==> env::interpolated(
            a + "${"@ + key + "}"@ + b,
            vars,
            line,
            ctx,
            notes,
        ).0 == Some(a + value + b),
        set_to(vars, key, value) && value.len() > 0 ==> env::interpolated(
            a + "${"@ + (key + ":-"@ + default) + "}"@ + b,
            vars,
            line,
            ctx,
            notes,
        ).0 == Some(a + value + b),
        unset_from(vars, 0, key) ==> env::interpolated(
            a + "${"@ + (key + ":-"@ + default) + "}"@ + b,
            vars,
            line,
            ctx,
            notes,
        ).0 == Some(a + default + b),
{
    let with = key + ":-"@ + default;
    lemma_bare(vars, key);
    lemma_defaulted(vars, key, default);
    lemma_set_value(vars, key, value);
    if set_to(vars, key, value) && value.len() > 0 {
        lemma_one_variable(a, key, b, value, vars, line, ctx, notes);
        lemma_one_variable(a, with, b, value, vars, line, ctx, notes);
    }
    if unset_from(vars, 0, key) {
        lemma_one_variable(a, with, b, default, vars, line, ctx, notes);
    }
}

proof fn lemma_bare(vars: Seq<VarV>, key: Seq<char>)
    requires
        name(key),
    ensures
        env::expand_of(vars, key) == env::set_value(vars, key),
        !key.contains('}'),
{
    reveal_strlit(":-");
    reveal_strlit("-");
    let n = key.len() as int;
    lemma_name_end(key, n, 0);
    assert(key.subrange(0, n) =~= key);
    let none = key.subrange(n, n);
    words::law_stripped_parts_join(none, ":-"@);
    words::law_stripped_parts_join(none, "-"@);
    assert(none.len() == 0);
}

proof fn lemma_defaulted(vars: Seq<VarV>, key: Seq<char>, default: Seq<char>)
    requires
        name(key),
        !default.contains('}'),
    ensures
        env::expand_of(vars, key + ":-"@ + default) == (if env::set_value(vars, key) is Some {
            env::set_value(vars, key)
        } else {
            Some(default)
        }),
        !(key + ":-"@ + default).contains('}'),
{
    let with = key + ":-"@ + default;
    let n = key.len() as int;
    lemma_layout(key, default);
    lemma_name_end(with, n, 0);
    words::law_parts_of_a_text(default, ":-"@, default);
}

proof fn lemma_layout(key: Seq<char>, default: Seq<char>)
    requires
        name(key),
        !default.contains('}'),
    ensures
        ({
            let with = key + ":-"@ + default;
            let n = key.len() as int;
            &&& n < with.len()
            &&& with[n] == ':'
            &&& with.subrange(0, n) == key
            &&& with.subrange(n, with.len() as int) == ":-"@ + default
            &&& forall|i: int|
                0 <= i < n ==> 'a' <= #[trigger] with[i] <= 'z' || 'A' <= with[i] <= 'Z' || '0'
                    <= with[i] <= '9' || with[i] == '_'
            &&& !with.contains('}')
        }),
{
    reveal_strlit(":-");
    let with = key + ":-"@ + default;
    let n = key.len() as int;
    assert forall|i: int| 0 <= i < n implies 'a' <= #[trigger] with[i] <= 'z' || 'A' <= with[i] <= 'Z'
        || '0' <= with[i] <= '9' || with[i] == '_' by {
        assert(with[i] == key[i]);
    }
    assert(with.subrange(0, n) =~= key);
    assert(with.subrange(n, with.len() as int) =~= ":-"@ + default);
    assert forall|i: int| 0 <= i < with.len() implies with[i] != '}' by {
        if i >= n + 2 {
            assert(with[i] == default[i - n - 2]);
            assert(default.contains(default[i - n - 2]));
        }
    }
}

// ── Files of settings ───────────────────────────────────────────────────
/// A line `KEY=VALUE` sets the variable to the value, with `export` before it or
/// not, and with quotes around the value or not; a comment sets nothing.
pub proof fn law_line_sets_its_variable(key: Seq<char>, value: Seq<char>)
    requires
        name(key),
        name(value),
    ensures
        env::env_line(key + "="@ + value) == Some(VarV { key, value }),
        env::env_line("export "@ + key + "="@ + value) == Some(VarV { key, value }),
        env::env_line(key + "=\""@ + value + "\""@) == Some(VarV { key, value }),
        env::env_line("#"@ + key + "="@ + value) is None,
{
    let plain = key + "="@ + value;
    lemma_names(key);
    lemma_names(value);
    assert(("="@ + value)[0] == '=' && ("="@ + value).subrange(1, value.len() as int + 1) =~= value) by {
        reveal_strlit("=");
    }
    assert(("="@ + value).len() == value.len() + 1) by {
        reveal_strlit("=");
    }
    lemma_setting(key, "="@ + value, value);
    assert(plain =~= key + ("="@ + value));
    // With `export` before it.
    assert("export "@ + key + "="@ + value =~= "export "@ + plain);
    lemma_exported(plain, value);
    // With quotes.
    lemma_quoted(value);
    lemma_setting(key, "=\""@ + value + "\""@, "\""@ + value + "\""@);
    assert(key + "=\""@ + value + "\""@ =~= key + ("=\""@ + value + "\""@));
    // As a comment.
    lemma_comment(plain, value);
    assert("#"@ + key + "="@ + value =~= "#"@ + plain);
}

proof fn lemma_names(s: Seq<char>)
    requires
        name(s),
    ensures
        text::trim_of(s) == s,
        !text::white(s[0]),
        !text::white(s.last()),
        s[0] != '#',
        s[0] != '"',
        s[0] != '\'',
        !s.contains('='),
        !s.contains(' '),
        env::unquoted(s) == s,
{
    assert(name_char(s[0]));
    assert(name_char(s[s.len() - 1]));
    words::lemma_untrimmed(s);
    if s.contains('=') {
        let i = choose|i: int| 0 <= i < s.len() && s[i] == '=';
        assert(name_char(s[i]));
    }
    if s.contains(' ') {
        let i = choose|i: int| 0 <= i < s.len() && s[i] == ' ';
        assert(name_char(s[i]));
    }
}

/// A setting behind its name: an equals sign and what it sets.
proof fn lemma_setting(key: Seq<char>, tail: Seq<char>, raw: Seq<char>)
    requires
        name(key),
        tail.len() > 1,
        tail[0] == '=',
        tail.subrange(1, tail.len() as int) == raw,
        !text::white(raw[0]),
        !text::white(raw.last()),
    ensures
        env::env_line(key + tail) == Some(VarV { key, value: env::unquoted(raw) }),
        env::env_line(key + tail) == Some(
            VarV { key: text::trim_of(key), value: env::unquoted(text::trim_of(raw)) },
        ),
        text::split_once_of(key + tail, '=') == Some((key, raw)),
        !text::white((key + tail).last()),
{
    lemma_names(key);
    let s = key + tail;
    assert(s =~= key + seq!['='] + raw) by {
        assert(tail =~= seq!['='] + raw);
    }
    assert(s[0] == key[0]);
    assert(s.last() == raw.last());
    words::lemma_untrimmed(s);
    words::lemma_untrimmed(raw);
    words::law_split_once_of_joined(key, '=', raw);
    assert(s.subrange(0, key.len() as int) =~= key);
    assert forall|i: int| 0 <= i < key.len() implies key[i] != ' ' by {
        assert(key.contains(key[i]));
    }
    lemma_no_export(s, key);
}

proof fn lemma_exported(plain: Seq<char>, value: Seq<char>)
    requires
        plain.len() > 0,
        !text::white(plain.last()),
        text::split_once_of(plain, '=') is Some,
    ensures
        env::env_line("export "@ + plain) == ({
            let (k, v) = text::split_once_of(plain, '=')->0;
            Some(VarV { key: text::trim_of(k), value: env::unquoted(text::trim_of(v)) })
        }),
{
    reveal_strlit("export ");
    let s = "export "@ + plain;
    assert(s[0] == 'e');
    words::lemma_untrimmed(s);
    words::law_parts_of_a_text(plain, "export "@, plain);
}

proof fn lemma_quoted(value: Seq<char>)
    requires
        name(value),
    ensures
        ({
            let q = "\""@ + value + "\""@;
            let tail = "=\""@ + value + "\""@;
            &&& env::unquoted(q) == value
            &&& tail.len() > 1
            &&& tail[0] == '='
            &&& tail.subrange(1, tail.len() as int) == q
            &&& !text::white(q[0])
            &&& !text::white(q.last())
        }),
{
    reveal_strlit("=\"");
    reveal_strlit("\"");
    let q = "\""@ + value + "\""@;
    let tail = "=\""@ + value + "\""@;
    assert(q.subrange(1, q.len() - 1) =~= value);
    assert(tail.subrange(1, tail.len() as int) =~= q);
}

proof fn lemma_comment(plain: Seq<char>, value: Seq<char>)
    requires
        plain.len() > 0,
        !text::white(plain.last()),
    ensures
        env::env_line("#"@ + plain) is None,
{
    reveal_strlit("#");
    let s = "#"@ + plain;
    assert(s[0] == '#');
    words::lemma_untrimmed(s);
}

spec fn name_char(c: char) -> bool {
    'a' <= c <= 'z' || 'A' <= c <= 'Z' || '0' <= c <= '9' || c == '_'
}

proof fn lemma_no_export(s: Seq<char>, key: Seq<char>)
    requires
        s.len() > key.len(),
        s.subrange(0, key.len() as int) == key,
        s[key.len() as int] == '=',
        forall|i: int| 0 <= i < key.len() ==> key[i] != ' ',
    ensures
        text::strip_prefix_of(s, "export "@) is None,
{
    reveal_strlit("export ");
    words::law_stripped_parts_join(s, "export "@);
    if text::starts(s, "export "@) {
        assert(s[6] == ' ');
        if key.len() > 6 {
            assert(s.subrange(0, key.len() as int)[6] == s[6]);
        } else {
            assert(s[key.len() as int] == "export "@[key.len() as int]);
        }
    }
}

} // verus!
