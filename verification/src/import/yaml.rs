//! What the lines of a compose file say.
use super::compose;
use super::compose::{LabelV, LineV, ServiceV};
use super::nginx::Fault;
use super::tree;
use crate::text;
use crate::words;
use vstd::prelude::*;

verus! {

// ── Scalars ─────────────────────────────────────────────────────────────
/// A value that needs no quotes anywhere.
pub open spec fn plain(w: Seq<char>) -> bool {
    &&& w.len() > 0
    &&& w[0] != '&' && w[0] != '*'
    &&& forall|i: int|
        0 <= i < w.len() ==> !text::white(#[trigger] w[i]) && w[i] != '#' && w[i] != '"' && w[i]
            != '\'' && w[i] != ',' && w[i] != '[' && w[i] != ']' && w[i] != '{'
}

proof fn lemma_no_comment(s: Seq<char>, p: int, e: int)
    requires
        0 <= p <= e <= s.len(),
        forall|i: int| p <= i < e ==> s[i] != '#',
        e == s.len() || (s[e] == '#' && e > 0 && compose::ascii_white(s[e - 1])),
    ensures
        compose::comment_at(s, p) == e,
    decreases e - p,
{
    if p < e {
        lemma_no_comment(s, p + 1, e);
    }
}

/// A plain value is itself, with or without a comment behind it.
pub proof fn law_plain_value_is_itself(w: Seq<char>, comment: Seq<char>, no: int)
    requires
        plain(w),
    ensures
        compose::scalar_of(w) == Some(w),
        compose::scalar_of(w + " #"@ + comment) == Some(w),
        compose::anchor_fault(w, no) is None,
{
    reveal_strlit(" #");
    assert(!text::white(w[0]));
    assert(!text::white(w[w.len() - 1]));
    words::lemma_untrimmed(w);
    lemma_no_comment(w, 0, w.len() as int);
    assert(w.subrange(0, w.len() as int) =~= w);
    let t = w + " #"@ + comment;
    let none = Seq::<char>::empty();
    let s = text::trim_of(t);
    words::law_trim(t);
    let (a, b) = choose|a: Seq<char>, b: Seq<char>|
        words::blank(a) && words::blank(b) && t == #[trigger] (a + s + b);
    let n = w.len() as int;
    assert(t[0] == w[0]);
    if a.len() > 0 {
        assert(a[0] == t[0]);
    }
    assert(t[n + 1] == '#');
    if b.len() > t.len() - n - 2 {
        assert(b[n + 1 - (t.len() - b.len())] == t[n + 1]);
    }
    assert(s.len() >= n + 2);
    assert forall|i: int| 0 <= i < n + 2 implies s[i] == t[i] by {
        assert((a + s + b)[i] == s[i]);
    }
    assert forall|i: int| 0 <= i < n + 1 implies s[i] != '#' by {
        if i < n {
            assert(t[i] == w[i]);
        }
    }
    lemma_no_comment(s, 0, n + 1);
    assert(s.subrange(0, n + 1) =~= none + w + seq![' ']);
    words::lemma_trim_between(none, w, seq![' ']);
}

/// A text as it stands between double quotes.
pub open spec fn escaped(w: Seq<char>) -> Seq<char>
    decreases w.len(),
{
    if w.len() == 0 {
        seq![]
    } else {
        let rest = escaped(w.subrange(1, w.len() as int));
        if w[0] == '"' || w[0] == '\\' {
            seq!['\\', w[0]] + rest
        } else if w[0] == '\n' {
            seq!['\\', 'n'] + rest
        } else if w[0] == '\t' {
            seq!['\\', 't'] + rest
        } else if w[0] == '\r' {
            seq!['\\', 'r'] + rest
        } else if w[0] == '\0' {
            seq!['\\', '0'] + rest
        } else {
            seq![w[0]] + rest
        }
    }
}

proof fn lemma_escaped(s: Seq<char>, p: int, w: Seq<char>, acc: Seq<char>)
    requires
        tree::at(s, p, escaped(w) + seq!['"']),
    ensures
        compose::quoted_from(s, p, '"', acc) == Some(acc + w),
    decreases w.len(),
{
    if w.len() == 0 {
        assert(escaped(w) + seq!['"'] =~= seq!['"'] + Seq::<char>::empty());
        tree::lemma_at(s, p, seq!['"'], seq![]);
        assert(acc + w =~= acc);
    } else {
        let c = w[0];
        let rest = w.subrange(1, w.len() as int);
        let tail = escaped(rest) + seq!['"'];
        if c == '"' || c == '\\' || c == '\n' || c == '\t' || c == '\r' || c == '\0' {
            let x = if c == '\n' {
                'n'
            } else if c == '\t' {
                't'
            } else if c == '\r' {
                'r'
            } else if c == '\0' {
                '0'
            } else {
                c
            };
            assert(escaped(w) + seq!['"'] =~= seq!['\\'] + (seq![x] + tail));
            tree::lemma_at(s, p, seq!['\\'], seq![x] + tail);
            tree::lemma_at(s, p + 1, seq![x], tail);
            lemma_escaped(s, p + 2, rest, acc.push(c));
        } else {
            assert(escaped(w) + seq!['"'] =~= seq![c] + tail);
            tree::lemma_at(s, p, seq![c], tail);
            lemma_escaped(s, p + 1, rest, acc.push(c));
        }
        assert(acc.push(c) + rest =~= acc + w);
    }
}

/// A text as it stands between single quotes: each single quote twice.
pub open spec fn doubled(w: Seq<char>) -> Seq<char>
    decreases w.len(),
{
    if w.len() == 0 {
        seq![]
    } else {
        let rest = doubled(w.subrange(1, w.len() as int));
        if w[0] == '\'' {
            seq!['\'', '\''] + rest
        } else {
            seq![w[0]] + rest
        }
    }
}

proof fn lemma_doubled(s: Seq<char>, p: int, w: Seq<char>, acc: Seq<char>)
    requires
        tree::at(s, p, doubled(w) + seq!['\'']),
        p + doubled(w).len() + 1 == s.len(),
    ensures
        compose::quoted_from(s, p, '\'', acc) == Some(acc + w),
    decreases w.len(),
{
    if w.len() == 0 {
        assert(doubled(w) + seq!['\''] =~= seq!['\''] + Seq::<char>::empty());
        tree::lemma_at(s, p, seq!['\''], seq![]);
        assert(acc + w =~= acc);
    } else {
        let c = w[0];
        let rest = w.subrange(1, w.len() as int);
        let tail = doubled(rest) + seq!['\''];
        if c == '\'' {
            assert(doubled(w) + seq!['\''] =~= seq!['\''] + (seq!['\''] + tail));
            tree::lemma_at(s, p, seq!['\''], seq!['\''] + tail);
            tree::lemma_at(s, p + 1, seq!['\''], tail);
            lemma_doubled(s, p + 2, rest, acc.push(c));
        } else {
            assert(doubled(w) + seq!['\''] =~= seq![c] + tail);
            tree::lemma_at(s, p, seq![c], tail);
            lemma_doubled(s, p + 1, rest, acc.push(c));
        }
        assert(acc.push(c) + rest =~= acc + w);
    }
}

/// A quoted value is what was quoted, whatever it holds.
pub proof fn law_quoted_value_is_what_was_quoted(w: Seq<char>)
    ensures
        compose::scalar_of(seq!['"'] + escaped(w) + seq!['"']) == Some(w),
        compose::scalar_of(seq!['\''] + doubled(w) + seq!['\'']) == Some(w),
{
    let none = Seq::<char>::empty();
    let s = seq!['"'] + escaped(w) + seq!['"'];
    let t = escaped(w) + seq!['"'];
    words::lemma_untrimmed(s);
    assert(s.subrange(1, 1int + t.len()) =~= t);
    lemma_escaped(s, 1, w, none);
    let s2 = seq!['\''] + doubled(w) + seq!['\''];
    let t2 = doubled(w) + seq!['\''];
    words::lemma_untrimmed(s2);
    assert(s2.subrange(1, 1int + t2.len()) =~= t2);
    lemma_doubled(s2, 1, w, none);
    assert(none + w =~= w);
}

// ── Keys ────────────────────────────────────────────────────────────────
proof fn lemma_key_end(s: Seq<char>, p: int, e: int)
    requires
        0 <= p <= e < s.len(),
        forall|i: int| p <= i < e ==> s[i] != ':',
        s[e] == ':',
        e + 1 == s.len() || s[e + 1] == ' ',
    ensures
        compose::key_end(s, p) == e,
    decreases e - p,
{
    if p < e {
        lemma_key_end(s, p + 1, e);
    }
}

/// What stands before the colon is the key, and what stands behind it the value.
pub proof fn law_colon_separates_key_and_value(key: Seq<char>, value: Seq<char>)
    requires
        plain(key),
        !key.contains(':'),
        value.len() > 0,
        !text::white(value[0]),
        !text::white(value.last()),
    ensures
        compose::key_parts(key + ": "@ + value) == Some((key, value)),
        compose::key_parts(key + ":"@) == Some((key, Seq::<char>::empty())),
{
    reveal_strlit(": ");
    reveal_strlit(":");
    let none = Seq::<char>::empty();
    let n = key.len() as int;
    let s = key + ": "@ + value;
    let t = key + ":"@;
    assert forall|i: int| 0 <= i < n implies s[i] != ':' && t[i] != ':' by {
        assert(s[i] == key[i] && t[i] == key[i]);
    }
    lemma_key_end(s, 0, n);
    lemma_key_end(t, 0, n);
    assert(!text::white(key[0]));
    assert(!text::white(key[n - 1]));
    words::lemma_untrimmed(key);
    assert(s.subrange(0, n) =~= key);
    assert(t.subrange(0, n) =~= key);
    assert(s.subrange(n + 1, s.len() as int) =~= seq![' '] + value + none);
    words::lemma_trim_between(seq![' '], value, none);
    assert(t.subrange(n + 1, t.len() as int) =~= none);
    words::law_trim(none);
    assert(text::trim_of(none) =~= none);
}

// ── Lists ───────────────────────────────────────────────────────────────
/// The lines from `a` to `b` are the items of a list.
pub open spec fn list_lines(ls: Seq<LineV>, a: int, items: Seq<Seq<char>>) -> bool {
    &&& 0 <= a
    &&& a + items.len() <= ls.len()
    &&& forall|i: int|
        0 <= i < items.len() ==> plain(#[trigger] items[i]) && ls[a + i].text == "- "@ + items[i]
}

proof fn lemma_item(w: Seq<char>)
    requires
        plain(w),
    ensures
        text::strip_prefix_of("- "@ + w, "- "@) == Some(w),
        text::trim_of(w) == w,
{
    let p = "- "@;
    let s = p + w;
    assert(s.subrange(0, p.len() as int) =~= p);
    assert(s.subrange(p.len() as int, s.len() as int) =~= w);
    assert(!text::white(w[0]));
    assert(!text::white(w[w.len() - 1]));
    words::lemma_untrimmed(w);
}

/// A list has the items of its lines, all of them, in their order.
pub proof fn law_list_has_its_items(ls: Seq<LineV>, a: int, items: Seq<Seq<char>>, n: nat)
    requires
        list_lines(ls, a, items),
        n <= items.len(),
    ensures
        compose::items_of(ls, a, a + n) == Ok::<Seq<Seq<char>>, Fault>(items.take(n as int)),
    decreases n,
{
    if n == 0 {
        assert(items.take(0) =~= seq![]);
    } else {
        let k = (n - 1) as nat;
        law_list_has_its_items(ls, a, items, k);
        let w = items[k as int];
        assert(ls[a + k].text == "- "@ + w);
        lemma_item(w);
        law_plain_value_is_itself(w, seq![], ls[a + k].no);
        assert(items.take(n as int) =~= items.take(k as int).push(w));
    }
}

/// Labels have the keys and the values of their lines, all of them, in their
/// order.
pub proof fn law_labels_are_those_of_the_lines(
    ls: Seq<LineV>,
    a: int,
    labels: Seq<(Seq<char>, Seq<char>)>,
    n: nat,
)
    requires
        0 <= a,
        a + labels.len() <= ls.len(),
        n <= labels.len(),
        forall|i: int|
            0 <= i < labels.len() ==> {
                let (key, value) = #[trigger] labels[i];
                &&& plain(key)
                &&& plain(value)
                &&& !key.contains('=')
                &&& !key.contains(':')
                &&& key[0] != '-'
                &&& (ls[a + i].text == "- "@ + (key + "="@ + value) || ls[a + i].text == key
                    + ": "@ + value)
            },
    ensures
        compose::label_lines(ls, a, a + n) == Ok::<Seq<LabelV>, Fault>(
            Seq::new(
                n,
                |i: int| LabelV { key: labels[i].0, value: labels[i].1, line: ls[a + i].no },
            ),
        ),
    decreases n,
{
    let all = Seq::new(
        n,
        |i: int| LabelV { key: labels[i].0, value: labels[i].1, line: ls[a + i].no },
    );
    if n == 0 {
        assert(all =~= seq![]);
    } else {
        let k = (n - 1) as nat;
        law_labels_are_those_of_the_lines(ls, a, labels, k);
        let before = Seq::new(
            k,
            |i: int| LabelV { key: labels[i].0, value: labels[i].1, line: ls[a + i].no },
        );
        let (key, value) = labels[k as int];
        lemma_label_line(before, ls[a + k], key, value);
        assert(all =~= before.push(LabelV { key, value, line: ls[a + k].no }));
    }
}

proof fn lemma_label_line(before: Seq<LabelV>, l: LineV, key: Seq<char>, value: Seq<char>)
    requires
        plain(key),
        plain(value),
        !key.contains('='),
        !key.contains(':'),
        key[0] != '-',
        l.text == "- "@ + (key + "="@ + value) || l.text == key + ": "@ + value,
    ensures
        compose::label_line(before, l) == Ok::<Seq<LabelV>, Fault>(
            before.push(LabelV { key, value, line: l.no }),
        ),
{
    reveal_strlit("=");
    reveal_strlit("- ");
    reveal_strlit("-");
    reveal_strlit(": ");
    let w = key + "="@ + value;
    if l.text == "- "@ + w {
        assert forall|i: int| 0 <= i < w.len() implies !text::white(#[trigger] w[i]) && w[i] != '#'
            && w[i] != '"' && w[i] != '\'' && w[i] != ',' && w[i] != '[' && w[i] != ']' && w[i]
            != '{' by {
            if i < key.len() {
                assert(w[i] == key[i]);
            } else if i > key.len() {
                assert(w[i] == value[i - key.len() - 1]);
            }
        }
        assert(w[0] == key[0]);
        assert(plain(w));
        lemma_item(w);
        law_plain_value_is_itself(w, seq![], l.no);
        assert(w =~= key + seq!['='] + value);
        words::law_split_once_of_joined(key, '=', value);
        assert(!text::white(key[0]));
        assert(!text::white(key[key.len() - 1]));
        words::lemma_untrimmed(key);
    } else {
        let s = l.text;
        assert(s[0] == key[0]);
        assert(text::strip_prefix_of(s, "- "@) is None) by {
            if text::starts(s, "- "@) {
                assert(s.subrange(0, 2)[0] == '-');
            }
        }
        assert(s != "-"@);
        assert(!text::white(value[0]));
        assert(!text::white(value[value.len() - 1]));
        law_colon_separates_key_and_value(key, value);
        law_plain_value_is_itself(key, seq![], l.no);
        law_plain_value_is_itself(value, seq![], l.no);
    }
}

// ── Services ────────────────────────────────────────────────────────────
/// Each key of a service sets its own part, and leaves the others.
pub proof fn law_keys_set_their_parts(
    svc: ServiceV,
    ls: Seq<LineV>,
    i: int,
    b: int,
    key: Seq<char>,
    rest: Seq<char>,
)
    requires
        compose::service_key(svc, ls, i, b, key, rest) is Ok,
    ensures
        ({
            let a = compose::service_key(svc, ls, i, b, key, rest)->Ok_0;
            &&& a.name == svc.name
            &&& a.line == svc.line
            &&& key != "image"@ ==> a.image == svc.image
            &&& key != "command"@ && key != "entrypoint"@ ==> a.command == svc.command
            &&& key != "labels"@ ==> a.labels == svc.labels
            &&& key == "image"@ && plain(rest) ==> a.image == Some(rest)
            &&& (key == "command"@ || key == "entrypoint"@) && plain(rest) ==> a.command == seq![
                rest,
            ]
            &&& (key == "command"@ || key == "entrypoint"@) && rest.len() == 0
                ==> compose::items_of(ls, i + 1, compose::sibling(ls, i, b)) == Ok::<
                Seq<Seq<char>>,
                Fault,
            >(a.command)
            &&& key == "labels"@ ==> a.labels.len() >= svc.labels.len() && a.labels.subrange(
                0,
                svc.labels.len() as int,
            ) == svc.labels
        }),
{
    reveal_strlit("image");
    reveal_strlit("command");
    reveal_strlit("entrypoint");
    reveal_strlit("labels");
    assert("image"@.len() == 5 && "command"@.len() == 7 && "entrypoint"@.len() == 10
        && "labels"@.len() == 6);
    if plain(rest) {
        law_plain_value_is_itself(rest, seq![], ls[i].no);
        assert(!text::begins(rest, '['));
    }
    let a = compose::service_key(svc, ls, i, b, key, rest)->Ok_0;
    if key == "labels"@ {
        assert(a.labels.subrange(0, svc.labels.len() as int) =~= svc.labels);
    }
}

/// A service that was read stays, whatever is read behind it.
pub proof fn law_services_stay(before: Seq<ServiceV>, ls: Seq<LineV>, i: int, b: int, level: nat)
    requires
        compose::services_from(before, ls, i, b, level) is Ok,
    ensures
        ({
            let all = compose::services_from(before, ls, i, b, level)->Ok_0;
            all.len() >= before.len() && all.subrange(0, before.len() as int) == before
        }),
    decreases b - i,
{
    let n = before.len() as int;
    if i >= b {
        assert(before.subrange(0, n) =~= before);
    } else if ls[i].indent != level {
        law_services_stay(before, ls, i + 1, b, level);
    } else {
        compose::lemma_kids_end(ls, i, i + 1, b);
        let e = compose::sibling(ls, i, b);
        match compose::key_parts(ls[i].text) {
            None => law_services_stay(before, ls, e, b, level),
            Some((name, rest)) => {
                let svc = compose::service_at(ls, i, b, name, rest)->Ok_0;
                law_services_stay(before.push(svc), ls, e, b, level);
                let all = compose::services_from(before, ls, i, b, level)->Ok_0;
                assert(all.subrange(0, n) =~= before) by {
                    assert(all.subrange(0, n + 1) =~= before.push(svc));
                    assert forall|j: int| 0 <= j < n implies all.subrange(0, n)[j] == before[j] by {
                        assert(all.subrange(0, n + 1)[j] == before.push(svc)[j]);
                    }
                }
            },
        }
    }
}

// ── Lists on one line ───────────────────────────────────────────────────
/// Items with a comma and a blank between any two of them.
pub open spec fn in_line(items: Seq<Seq<char>>) -> Seq<char>
    decreases items.len(),
{
    if items.len() == 0 {
        seq![]
    } else if items.len() == 1 {
        items[0]
    } else {
        items[0] + seq![',', ' '] + in_line(items.subrange(1, items.len() as int))
    }
}

proof fn lemma_run(s: Seq<char>, p: int, w: Seq<char>, cur: Seq<char>, out: Seq<Seq<char>>)
    requires
        tree::at(s, p, w),
        forall|i: int|
            0 <= i < w.len() ==> #[trigger] w[i] != '"' && w[i] != '\'' && w[i] != ',' && w[i] != '['
                && w[i] != '{',
    ensures
        compose::flow_from(s, p, cur, None, out) == compose::flow_from(
            s,
            p + w.len(),
            cur + w,
            None,
            out,
        ),
    decreases w.len(),
{
    if w.len() == 0 {
        assert(cur + w =~= cur);
    } else {
        let rest = w.subrange(1, w.len() as int);
        assert(w =~= seq![w[0]] + rest);
        tree::lemma_at(s, p, seq![w[0]], rest);
        assert forall|i: int| 0 <= i < rest.len() implies #[trigger] rest[i] != '"' && rest[i]
            != '\'' && rest[i] != ',' && rest[i] != '[' && rest[i] != '{' by {
            assert(rest[i] == w[i + 1]);
        }
        lemma_run(s, p + 1, rest, cur.push(w[0]), out);
        assert(cur.push(w[0]) + rest =~= cur + w);
    }
}

proof fn lemma_in_line(
    s: Seq<char>,
    p: int,
    items: Seq<Seq<char>>,
    lead: Seq<char>,
    out: Seq<Seq<char>>,
)
    requires
        items.len() > 0,
        forall|i: int| 0 <= i < items.len() ==> plain(#[trigger] items[i]),
        lead == Seq::<char>::empty() || lead == seq![' '],
        tree::at(s, p, lead + in_line(items)),
        p + (lead + in_line(items)).len() == s.len(),
    ensures
        compose::flow_from(s, p, seq![], None, out) == Ok::<Seq<Seq<char>>, Seq<char>>(out + items),
    decreases items.len(),
{
    let none = Seq::<char>::empty();
    let w = items[0];
    assert(plain(w));
    assert(!text::white(w[0]));
    assert(!text::white(w[w.len() - 1]));
    words::lemma_trim_between(lead, w, none);
    assert(lead + w + none =~= lead + w);
    let head = lead + w;
    assert forall|i: int| 0 <= i < head.len() implies #[trigger] head[i] != '"' && head[i] != '\''
        && head[i] != ',' && head[i] != '[' && head[i] != '{' by {
        if i >= lead.len() {
            assert(head[i] == w[i - lead.len()]);
        }
    }
    if items.len() == 1 {
        assert(lead + in_line(items) =~= head);
        lemma_run(s, p, head, none, out);
        assert(none + head =~= head);
        assert(out.push(w) =~= out + items);
    } else {
        let rest = items.subrange(1, items.len() as int);
        let tail = seq![' '] + in_line(rest);
        assert(lead + in_line(items) =~= head + (seq![','] + tail));
        tree::lemma_at(s, p, head, seq![','] + tail);
        tree::lemma_at(s, p + head.len(), seq![','], tail);
        lemma_run(s, p, head, none, out);
        assert(none + head =~= head);
        assert forall|i: int| 0 <= i < rest.len() implies plain(#[trigger] rest[i]) by {
            assert(rest[i] == items[i + 1]);
        }
        lemma_in_line(s, p + head.len() + 1, rest, seq![' '], out.push(w));
        assert(out.push(w) + rest =~= out + items);
    }
}

/// A list on one line has the items between its commas, all of them, in their
/// order.
pub proof fn law_list_on_one_line_has_its_items(items: Seq<Seq<char>>)
    requires
        items.len() > 0,
        forall|i: int| 0 <= i < items.len() ==> plain(#[trigger] items[i]),
    ensures
        compose::flow_of(seq!['['] + in_line(items) + seq![']']) == Ok::<Seq<Seq<char>>, Seq<char>>(
            items,
        ),
{
    let s = seq!['['] + in_line(items) + seq![']'];
    let body = s.subrange(1, s.len() as int);
    assert(body =~= in_line(items) + seq![']']);
    let n = in_line(items).len() as int;
    assert(body[n] == ']');
    assert(text::last_index_of(body, ']', body.len() as int) == n);
    let t = body.subrange(0, n);
    assert(t =~= in_line(items));
    let none = Seq::<char>::empty();
    assert(none + in_line(items) =~= in_line(items));
    assert(t.subrange(0, t.len() as int) =~= t);
    lemma_in_line(t, 0, items, none, seq![]);
    assert(Seq::<Seq<char>>::empty() + items =~= items);
}

} // verus!
