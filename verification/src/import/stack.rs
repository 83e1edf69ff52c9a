//! What a compose stack behind Traefik comes to in the document.
use super::compose::{LabelV, ServiceV};
use super::env;
use super::env::VarV;
use super::map::RouteV;
use super::traefik;
use super::traefik::{BuiltV, LabelsV, PortV, RouterV, RoutingV, RuleV, StaticV};
use super::Note;
use crate::text;
use crate::words;
use vstd::prelude::*;

verus! {

// ── Entrypoints ─────────────────────────────────────────────────────────
/// A flag of the command: dashes, the key, an equals sign, and the value.
pub open spec fn flag(dashes: nat, key: Seq<char>, value: Seq<char>) -> Seq<char> {
    words::run('-', dashes) + key + "="@ + value
}

/// The text stands somewhere in the other.
pub open spec fn mentions(s: Seq<char>, p: Seq<char>) -> bool {
    exists|a: Seq<char>, b: Seq<char>| s == #[trigger] (a + p + b)
}

proof fn lemma_trim_prefixes(s: Seq<char>, p: Seq<char>)
    ensures
        exists|x: Seq<char>| s == #[trigger] (x + text::trim_prefixes(s, p)),
    decreases s.len(),
{
    if p.len() > 0 && text::starts(s, p) {
        let rest = s.subrange(p.len() as int, s.len() as int);
        lemma_trim_prefixes(rest, p);
        let t = text::trim_prefixes(rest, p);
        let x = choose|x: Seq<char>| rest == #[trigger] (x + t);
        words::law_stripped_parts_join(s, p);
        assert(text::trim_prefixes(s, p) == t);
        assert(s =~= (p + x) + t);
        assert(s == (p + x) + text::trim_prefixes(s, p));
    } else {
        assert(s =~= Seq::<char>::empty() + text::trim_prefixes(s, p));
    }
}

proof fn lemma_trim_suffixes(s: Seq<char>, p: Seq<char>)
    ensures
        ({
            let u = text::trim_suffixes(s, p);
            s == u || exists|z: Seq<char>| s == #[trigger] (u + p + z)
        }),
    decreases s.len(),
{
    if p.len() > 0 && text::ends(s, p) {
        let rest = s.subrange(0, s.len() - p.len());
        let u = text::trim_suffixes(rest, p);
        lemma_trim_suffixes(rest, p);
        words::law_stripped_parts_join(s, p);
        assert(s =~= rest + p);
        if rest == u {
            assert(s =~= u + p + Seq::<char>::empty());
        } else {
            let z = choose|z: Seq<char>| rest == #[trigger] (u + p + z);
            assert(s =~= u + p + (z + p));
        }
    }
}

proof fn lemma_flag(dashes: nat, key: Seq<char>, value: Seq<char>)
    requires
        key.len() > 0,
        key[0] != '-',
        !key.contains('='),
    ensures
        text::split_once_of(text::trim_start_of(flag(dashes, key, value), '-'), '=') == Some(
            (key, value),
        ),
{
    let raw = flag(dashes, key, value);
    let body = key + seq!['='] + value;
    reveal_strlit("=");
    assert("="@ =~= seq!['=']);
    assert(raw =~= words::run('-', dashes) + body);
    words::law_trim_start(raw, '-');
    let t = text::trim_start_of(raw, '-');
    let m = (raw.len() - t.len()) as nat;
    assert(raw[dashes as int] == body[0] && body[0] == key[0]);
    if m < dashes {
        assert(raw[m as int] == '-');
        assert(raw[m as int] == t[0]);
    } else if m > dashes {
        assert(words::run('-', m)[dashes as int] == '-');
        assert(raw[dashes as int] == '-');
    }
    assert(t =~= raw.subrange(m as int, raw.len() as int));
    assert(body =~= raw.subrange(dashes as int, raw.len() as int));
    words::law_split_once_of_joined(key, '=', value);
}

proof fn lemma_entry_name(name: Seq<char>)
    requires
        name == "web"@ || name == "websecure"@,
    ensures
        ({
            let key = "entrypoints."@ + name + ".address"@;
            &&& text::starts(key, "entrypoints."@)
            &&& text::ends(key, ".address"@)
            &&& traefik::entry_name(key) == name
        }),
        "web"@ != "websecure"@,
{
    reveal_strlit("web");
    reveal_strlit("websecure");
    reveal_strlit("entrypoints.");
    reveal_strlit(".address");
    let p = "entrypoints."@;
    let q = ".address"@;
    let mid = name + q;
    let key = p + name + q;
    assert(key =~= p + mid);
    words::law_parts_of_a_text(mid, p, mid);
    words::law_parts_of_a_text(p + name, q, mid);
    words::law_parts_of_a_text(name, q, mid);
    assert(key.subrange(p.len() as int, key.len() as int) =~= mid);
    assert(mid[0] == 'w');
    if text::starts(mid, p) {
        assert(mid.subrange(0, p.len() as int)[0] == mid[0]);
    }
    assert(text::trim_prefixes(mid, p) == mid);
    assert(text::trim_prefixes(key, p) == mid);
    assert(mid.subrange(0, mid.len() - q.len()) =~= name);
    if text::ends(name, q) {
        assert(name.subrange(name.len() - q.len(), name.len() as int)[7] == name[name.len() - 1]);
    }
    assert(text::trim_suffixes(name, q) == name);
    assert(text::trim_suffixes(mid, q) == name);
}

proof fn lemma_entry_key(key: Seq<char>)
    requires
        key == "entrypoints.web.address"@ || key == "entrypoints.websecure.address"@,
    ensures
        key.len() > 0,
        key[0] != '-',
        !key.contains('='),
        key != "providers.docker"@,
        key != "providers.docker.exposedbydefault"@,
        key != "api.insecure"@,
        key != "api.dashboard"@,
{
    reveal_strlit("entrypoints.web.address");
    reveal_strlit("entrypoints.websecure.address");
    assert(key[0] == 'e');
    assert(key != "providers.docker"@) by {
        reveal_strlit("providers.docker");
        assert("providers.docker"@[0] == 'p');
    }
    assert(key != "providers.docker.exposedbydefault"@) by {
        reveal_strlit("providers.docker.exposedbydefault");
        assert("providers.docker.exposedbydefault"@[0] == 'p');
    }
    assert(key != "api.insecure"@) by {
        reveal_strlit("api.insecure");
        assert("api.insecure"@[0] == 'a');
    }
    assert(key != "api.dashboard"@) by {
        reveal_strlit("api.dashboard");
        assert("api.dashboard"@[0] == 'a');
    }
}

proof fn lemma_entry_keys()
    ensures
        "entrypoints."@ + "web"@ + ".address"@ == "entrypoints.web.address"@,
        "entrypoints."@ + "websecure"@ + ".address"@ == "entrypoints.websecure.address"@,
{
    reveal_strlit("entrypoints.web.address");
    reveal_strlit("entrypoints.websecure.address");
    reveal_strlit("web");
    reveal_strlit("websecure");
    reveal_strlit("entrypoints.");
    reveal_strlit(".address");
    assert("entrypoints."@ + "web"@ + ".address"@ =~= "entrypoints.web.address"@);
    assert("entrypoints."@ + "websecure"@ + ".address"@ =~= "entrypoints.websecure.address"@);
}

/// The address flags of the two entrypoints.
proof fn lemma_entry(key: Seq<char>, name: Seq<char>)
    requires
        key == "entrypoints.web.address"@ && name == "web"@ || key
            == "entrypoints.websecure.address"@ && name == "websecure"@,
    ensures
        key.len() > 0,
        key[0] != '-',
        !key.contains('='),
        text::starts(key, "entrypoints."@),
        text::ends(key, ".address"@),
        traefik::entry_name(key) == name,
        key != "providers.docker"@,
        key != "providers.docker.exposedbydefault"@,
        key != "api.insecure"@,
        key != "api.dashboard"@,
        "web"@ != "websecure"@,
{
    lemma_entry_name(name);
    lemma_entry_key(key);
    lemma_entry_keys();
}

/// The address flag of `web` sets the plain listener, that of `websecure` the
/// HTTPS listener, and neither touches the other.
pub proof fn law_entrypoint_sets_its_listener(
    st: StaticV,
    dashes: nat,
    port: Seq<char>,
    line: int,
    vars: Seq<VarV>,
)
    ensures
        ({
            let a = traefik::flag_step(
                st,
                flag(dashes, "entrypoints.web.address"@, ":"@ + port),
                line,
                vars,
            );
            a.http == "0.0.0.0:"@ + port && a.https == st.https && a.acme_email == st.acme_email
                && a.notes == st.notes
        }),
        ({
            let a = traefik::flag_step(
                st,
                flag(dashes, "entrypoints.websecure.address"@, ":"@ + port),
                line,
                vars,
            );
            a.https == "0.0.0.0:"@ + port && a.http == st.http && a.acme_email == st.acme_email
                && a.notes == st.notes
        }),
{
    lemma_entry("entrypoints.web.address"@, "web"@);
    lemma_entry("entrypoints.websecure.address"@, "websecure"@);
    lemma_flag(dashes, "entrypoints.web.address"@, ":"@ + port);
    lemma_flag(dashes, "entrypoints.websecure.address"@, ":"@ + port);
    reveal_strlit(":");
    let val = ":"@ + port;
    assert(val[0] == ':');
    assert(val.subrange(1, val.len() as int) =~= port);
}

/// An address with a host is taken as it stands.
pub proof fn law_full_address_is_kept(
    st: StaticV,
    dashes: nat,
    address: Seq<char>,
    line: int,
    vars: Seq<VarV>,
)
    requires
        address.len() > 0,
        address[0] != ':',
    ensures
        traefik::flag_step(
            st,
            flag(dashes, "entrypoints.web.address"@, address),
            line,
            vars,
        ).http == address,
        traefik::flag_step(
            st,
            flag(dashes, "entrypoints.websecure.address"@, address),
            line,
            vars,
        ).https == address,
{
    lemma_entry("entrypoints.web.address"@, "web"@);
    lemma_entry("entrypoints.websecure.address"@, "websecure"@);
    lemma_flag(dashes, "entrypoints.web.address"@, address);
    lemma_flag(dashes, "entrypoints.websecure.address"@, address);
}

proof fn lemma_mentions(raw: Seq<char>, name: Seq<char>)
    requires
        name == "web"@ || name == "websecure"@,
        ({
            let flag = text::trim_start_of(raw, '-');
            let key = match text::split_once_of(flag, '=') {
                Some((k, v)) => k,
                None => flag,
            };
            text::ends(key, ".address"@) && traefik::entry_name(key) == name
        }),
    ensures
        mentions(raw, name + ".address"@),
{
    let flag = text::trim_start_of(raw, '-');
    words::law_trim_start(raw, '-');
    words::law_split_once(flag, '=');
    let (key, tail) = match text::split_once_of(flag, '=') {
        Some((k, v)) => (k, seq!['='] + v),
        None => (flag, Seq::<char>::empty()),
    };
    let front = words::run('-', (raw.len() - flag.len()) as nat);
    assert(flag =~= key + tail);
    let t = text::trim_prefixes(key, "entrypoints."@);
    lemma_trim_prefixes(key, "entrypoints."@);
    let x = choose|x: Seq<char>| key == #[trigger] (x + t);
    lemma_trim_suffixes(t, ".address"@);
    reveal_strlit("web");
    reveal_strlit("websecure");
    reveal_strlit(".address");
    if t == name {
        words::law_stripped_parts_join(key, ".address"@);
        assert(key[key.len() - 1] == 's');
        assert(key[key.len() - 1] == name[name.len() - 1]);
        assert(false);
    }
    let z = choose|z: Seq<char>| t == #[trigger] (name + ".address"@ + z);
    assert(raw =~= (front + x) + (name + ".address"@) + (z + tail));
}

/// A flag that does not mention the address of an entrypoint leaves its listener
/// as it is.
pub proof fn law_other_flags_keep_the_listeners(
    st: StaticV,
    raw: Seq<char>,
    line: int,
    vars: Seq<VarV>,
)
    ensures
        !mentions(raw, "web.address"@) ==> traefik::flag_step(st, raw, line, vars).http == st.http,
        !mentions(raw, "websecure.address"@) ==> traefik::flag_step(st, raw, line, vars).https
            == st.https,
{
    reveal_strlit("web");
    reveal_strlit("websecure");
    reveal_strlit(".address");
    reveal_strlit("web.address");
    reveal_strlit("websecure.address");
    assert("web"@ + ".address"@ =~= "web.address"@);
    assert("websecure"@ + ".address"@ =~= "websecure.address"@);
    let flag = text::trim_start_of(raw, '-');
    let key = match text::split_once_of(flag, '=') {
        Some((k, v)) => k,
        None => flag,
    };
    if text::ends(key, ".address"@) && traefik::entry_name(key) == "web"@ {
        lemma_mentions(raw, "web"@);
    }
    if text::ends(key, ".address"@) && traefik::entry_name(key) == "websecure"@ {
        lemma_mentions(raw, "websecure"@);
    }
}

proof fn lemma_flags_after(
    st: StaticV,
    flags: Seq<Seq<char>>,
    k: nat,
    n: nat,
    line: int,
    vars: Seq<VarV>,
)
    requires
        k <= n <= flags.len(),
    ensures
        (forall|i: int| k <= i < n ==> !mentions(#[trigger] flags[i], "web.address"@))
            ==> traefik::flags_of(st, flags, n, line, vars).http == traefik::flags_of(
            st,
            flags,
            k,
            line,
            vars,
        ).http,
        (forall|i: int| k <= i < n ==> !mentions(#[trigger] flags[i], "websecure.address"@))
            ==> traefik::flags_of(st, flags, n, line, vars).https == traefik::flags_of(
            st,
            flags,
            k,
            line,
            vars,
        ).https,
    decreases n - k,
{
    if k < n {
        let m = (n - 1) as nat;
        lemma_flags_after(st, flags, k, m, line, vars);
        let before = traefik::flags_of(st, flags, m, line, vars);
        law_other_flags_keep_the_listeners(before, flags[m as int], line, vars);
        if forall|i: int| k <= i < n ==> !mentions(#[trigger] flags[i], "web.address"@) {
            assert(!mentions(flags[m as int], "web.address"@));
        }
        if forall|i: int| k <= i < n ==> !mentions(#[trigger] flags[i], "websecure.address"@) {
            assert(!mentions(flags[m as int], "websecure.address"@));
        }
    }
}

proof fn lemma_traefik_index(ss: Seq<ServiceV>, s: int, i: nat)
    requires
        i <= s < ss.len(),
        traefik::traefik_service(ss[s]),
        forall|j: int| i <= j < s ==> !traefik::traefik_service(#[trigger] ss[j]),
    ensures
        traefik::traefik_index(ss, i) == s,
    decreases s - i,
{
    if i < s {
        assert(!traefik::traefik_service(ss[i as int]));
        lemma_traefik_index(ss, s, i + 1);
    }
}

/// The last address flag of each entrypoint of the Traefik service is the address
/// that the document listens on: `web` in the clear, `websecure` over HTTPS.
/// Without any, these are the well-known ports.
pub proof fn law_document_listens_on_the_entrypoints(
    ss: Seq<ServiceV>,
    vars: Seq<VarV>,
    notes: Seq<Note>,
    s: int,
    i: int,
    dashes: nat,
    port: Seq<char>,
)
    requires
        0 <= s < ss.len(),
        traefik::traefik_service(ss[s]),
        forall|j: int| 0 <= j < s ==> !traefik::traefik_service(#[trigger] ss[j]),
        0 <= i < ss[s].command.len(),
    ensures
        ss[s].command[i] == flag(dashes, "entrypoints.web.address"@, ":"@ + port) && (forall|j: int|
            i < j < ss[s].command.len() ==> !mentions(
                #[trigger] ss[s].command[j],
                "web.address"@,
            )) ==> traefik::build_of(ss, vars, notes).0.listen_http == "0.0.0.0:"@ + port,
        ss[s].command[i] == flag(dashes, "entrypoints.websecure.address"@, ":"@ + port) && (forall|
            j: int,
        |
            i < j < ss[s].command.len() ==> !mentions(
                #[trigger] ss[s].command[j],
                "websecure.address"@,
            )) ==> traefik::build_of(ss, vars, notes).0.listen_https == "0.0.0.0:"@ + port,
        (forall|j: int|
            0 <= j < ss[s].command.len() ==> !mentions(
                #[trigger] ss[s].command[j],
                "web.address"@,
            )) ==> traefik::build_of(ss, vars, notes).0.listen_http == "0.0.0.0:80"@,
        (forall|j: int|
            0 <= j < ss[s].command.len() ==> !mentions(
                #[trigger] ss[s].command[j],
                "websecure.address"@,
            )) ==> traefik::build_of(ss, vars, notes).0.listen_https == "0.0.0.0:443"@,
{
    let st = StaticV {
        http: "0.0.0.0:80"@,
        https: "0.0.0.0:443"@,
        acme_email: None,
        logged_log: false,
        logged_redirect: false,
        notes,
    };
    let cmd = ss[s].command;
    let line = ss[s].line;
    lemma_traefik_index(ss, s, 0);
    let before = traefik::flags_of(st, cmd, i as nat, line, vars);
    law_entrypoint_sets_its_listener(before, dashes, port, line, vars);
    lemma_flags_after(st, cmd, (i + 1) as nat, cmd.len(), line, vars);
    lemma_flags_after(st, cmd, 0, cmd.len(), line, vars);
    assert(traefik::flags_of(st, cmd, 0, line, vars) == st);
    assert(traefik::flags_of(st, cmd, (i + 1) as nat, line, vars) == traefik::flag_step(
        before,
        cmd[i],
        line,
        vars,
    ));
}

// ── Rules ───────────────────────────────────────────────────────────────
/// A word that needs no quoting inside the quotes of a matcher.
pub open spec fn plain_word(a: Seq<char>) -> bool {
    a.len() > 0 && forall|i: int| 0 <= i < a.len() ==> plain_char(#[trigger] a[i])
}

pub open spec fn plain_char(c: char) -> bool {
    'a' <= c <= 'z' || 'A' <= c <= 'Z' || '0' <= c <= '9' || c == '.' || c == '-' || c == '/' || c
        == '_'
}

/// A matcher of a rule, as it is written.
pub open spec fn matcher(func: Seq<char>, arg: Seq<char>) -> Seq<char> {
    func + "(`"@ + arg + "`)"@
}

/// A function of the rule language.
spec fn rule_function(func: Seq<char>) -> bool {
    func.len() > 0 && traefik::all_alnum(func)
}

proof fn lemma_bare_arg(a: Seq<char>)
    requires
        plain_word(a),
    ensures
        traefik::bare_arg("`"@ + a + "`"@) == a,
{
    reveal_strlit("`");
    let x = "`"@ + a + "`"@;
    words::lemma_untrimmed(x);
    assert(plain_char(a[0]));
    assert(plain_char(a[a.len() - 1]));
    let y = a + "`"@;
    assert(x.subrange(1, x.len() as int) =~= y);
    assert(y[0] == a[0]);
    assert(text::trim_start_of(y, '`') == y);
    assert(text::trim_start_of(x, '`') == y);
    assert(y.subrange(0, y.len() - 1) =~= a);
    assert(text::trim_end_of(a, '`') == a);
    assert(text::trim_end_of(y, '`') == a);
    assert(text::trim_both(a, '"') == a);
    assert(text::trim_both(a, '\'') == a);
}

proof fn lemma_matcher(func: Seq<char>, a: Seq<char>)
    requires
        rule_function(func),
        plain_word(a),
    ensures
        traefik::matcher_of(matcher(func, a)) == Some((func, seq![a])),
        !text::white(matcher(func, a)[0]),
        matcher(func, a).last() == ')',
        forall|i: int|
            0 <= i < matcher(func, a).len() ==> (#[trigger] matcher(func, a)[i]) != '&' && matcher(
                func,
                a,
            )[i] != '|' && matcher(func, a)[i] != '\u{1}',
{
    reveal_strlit("(`");
    reveal_strlit("`)");
    reveal_strlit("`");
    let t = matcher(func, a);
    let n = func.len() as int;
    assert forall|i: int| 0 <= i < t.len() implies (#[trigger] t[i]) != '&' && t[i] != '|' && t[i]
        != '\u{1}' && (i < n ==> t[i] != '(') by {
        if i < n {
            assert(text::alnum(func[i]));
        } else if n + 2 <= i < n + 2 + a.len() {
            assert(plain_char(a[i - n - 2]));
        }
    }
    assert(text::alnum(func[0]));
    assert(text::alnum(func[n - 1]));
    words::lemma_untrimmed(func);
    text::lemma_index_of(t, '(', 0);
    let open = text::index_of(t, '(', 0);
    assert(t[n] == '(');
    assert(open == n);
    assert(t.subrange(0, open) =~= func);
    let inner = "`"@ + a + "`"@;
    assert(t.subrange(open + 1, t.len() - 1) =~= inner);
    text::lemma_index_of(inner, ',', 0);
    let c = text::index_of(inner, ',', 0);
    if c < inner.len() {
        if 1 <= c < 1 + a.len() {
            assert(plain_char(a[c - 1]));
        }
    }
    assert(inner.subrange(0, inner.len() as int) =~= inner);
    let parts = text::split_of(inner, ',');
    assert(parts =~= seq![inner]);
    lemma_bare_arg(a);
    reveal_with_fuel(traefik::bare_args, 2);
    assert(traefik::bare_args(parts, 1) =~= seq![a]);
}

proof fn lemma_one_term(s: Seq<char>, p: int, start: int)
    requires
        0 <= start <= p <= s.len(),
        forall|i: int|
            p <= i < s.len() ==> (#[trigger] s[i]) != '&' && s[i] != '|' && s[i] != '\u{1}',
    ensures
        traefik::terms_from(s, p, start) == seq![s.subrange(start, s.len() as int)],
    decreases s.len() - p,
{
    if p < s.len() {
        assert(s[p] != '&');
        assert(traefik::combinator(s, p) == 0);
        lemma_one_term(s, p + 1, start);
    }
}

proof fn lemma_up_to_and(s: Seq<char>, p: int, start: int, n: int)
    requires
        0 <= start <= p <= n,
        n + 1 < s.len(),
        s[n] == '&',
        s[n + 1] == '&',
        forall|i: int| p <= i < n ==> (#[trigger] s[i]) != '&' && s[i] != '|' && s[i] != '\u{1}',
    ensures
        traefik::terms_from(s, p, start) == seq![s.subrange(start, n)] + traefik::terms_from(
            s,
            n + 2,
            n + 2,
        ),
    decreases n - p,
{
    if p < n {
        assert(s[p] != '&');
        assert(traefik::combinator(s, p) == 0);
        lemma_up_to_and(s, p + 1, start, n);
    } else {
        assert(traefik::combinator(s, p) == 2);
    }
}

proof fn lemma_two_terms(a: Seq<char>, b: Seq<char>)
    requires
        forall|i: int|
            0 <= i < a.len() ==> (#[trigger] a[i]) != '&' && a[i] != '|' && a[i] != '\u{1}',
        forall|i: int|
            0 <= i < b.len() ==> (#[trigger] b[i]) != '&' && b[i] != '|' && b[i] != '\u{1}',
    ensures
        traefik::terms_from(a + " && "@ + b, 0, 0) == seq![a + " "@, " "@ + b],
{
    reveal_strlit(" && ");
    reveal_strlit(" ");
    let s = a + " && "@ + b;
    let n = a.len() as int + 1;
    assert(s[n - 1] == ' ');
    assert(s[n] == '&' && s[n + 1] == '&');
    assert(s[n + 2] == ' ');
    assert forall|i: int| 0 <= i < n implies (#[trigger] s[i]) != '&' && s[i] != '|' && s[i]
        != '\u{1}' by {
        if i < a.len() {
            assert(s[i] == a[i]);
        }
    }
    assert forall|i: int| n + 2 <= i < s.len() implies (#[trigger] s[i]) != '&' && s[i] != '|'
        && s[i] != '\u{1}' by {
        if i > n + 2 {
            assert(s[i] == b[i - n - 3]);
        }
    }
    lemma_up_to_and(s, 0, 0, n);
    lemma_one_term(s, n + 2, n + 2);
    assert(s.subrange(0, n) =~= a + " "@);
    assert(s.subrange(n + 2, s.len() as int) =~= " "@ + b);
    assert(traefik::terms_from(s, 0, 0) =~= seq![a + " "@, " "@ + b]);
}

proof fn lemma_functions()
    ensures
        rule_function("Host"@),
        rule_function("PathPrefix"@),
        rule_function("Path"@),
        "Host"@ != "PathPrefix"@,
        "Path"@ != "PathPrefix"@,
        "Host"@ != "Path"@,
        "HostSNI"@ != "PathPrefix"@,
        "HostSNI"@ != "Path"@,
{
    reveal_strlit("Host");
    reveal_strlit("HostSNI");
    reveal_strlit("PathPrefix");
    reveal_strlit("Path");
    assert("Host"@[0] == 'H');
    assert("Path"@[0] == 'P');
}

proof fn lemma_plain(a: Seq<char>, vars: Seq<VarV>, line: int, ctx: Seq<char>, notes: Seq<Note>)
    requires
        plain_word(a),
    ensures
        env::interpolated(a, vars, line, ctx, notes) == (Some(a), notes),
{
    assert forall|i: int| 0 <= i < a.len() - 1 implies !(#[trigger] a[i] == '$' && a[i + 1]
        == '{') by {
        assert(plain_char(a[i]));
    }
    env::law_interpolation_keeps_plain_text(a, vars, line, ctx, notes);
}

proof fn lemma_term(
    r: RuleV,
    raw: Seq<char>,
    func: Seq<char>,
    a: Seq<char>,
    vars: Seq<VarV>,
    line: int,
    notes: Seq<Note>,
)
    requires
        rule_function(func),
        plain_word(a),
        raw == matcher(func, a) || raw == matcher(func, a) + " "@ || raw == " "@ + matcher(func, a),
    ensures
        traefik::term_step(r, raw, vars, line, notes) == traefik::matcher_step(
            r,
            func,
            seq![a],
            vars,
            line,
            notes,
        ),
{
    lemma_matcher(func, a);
    reveal_strlit(" ");
    let t = matcher(func, a);
    let none = Seq::<char>::empty();
    words::lemma_trim_between(none, t, none);
    words::lemma_trim_between(none, t, " "@);
    words::lemma_trim_between(" "@, t, none);
    assert(none + t + none =~= t);
    assert(none + t + " "@ =~= t + " "@);
    assert(" "@ + t + none =~= " "@ + t);
}

proof fn lemma_host(r: RuleV, a: Seq<char>, vars: Seq<VarV>, line: int, notes: Seq<Note>)
    requires
        plain_word(a),
    ensures
        traefik::matcher_step(r, "Host"@, seq![a], vars, line, notes) == (
            Some(RuleV { hosts: r.hosts.push(a), ..r }),
            notes,
        ),
{
    lemma_plain(a, vars, line, "rule: Host"@, notes);
    reveal_with_fuel(traefik::hosts_from, 2);
}

/// A rule on a host takes that host and every path.
pub proof fn law_host_rule(a: Seq<char>, vars: Seq<VarV>, line: int, notes: Seq<Note>)
    requires
        plain_word(a),
    ensures
        traefik::rule_of(matcher("Host"@, a), vars, line, notes).0 matches Some(r) && r.hosts
            == seq![a] && traefik::route_path(r.path) == "/{*rest}"@ && !r.acme_challenge,
{
    let s = matcher("Host"@, a);
    lemma_functions();
    lemma_matcher("Host"@, a);
    lemma_one_term(s, 0, 0);
    assert(s.subrange(0, s.len() as int) =~= s);
    let r0 = RuleV { hosts: seq![], path: traefik::PathV::CatchAll, acme_challenge: false };
    lemma_term(r0, s, "Host"@, a, vars, line, notes);
    lemma_host(r0, a, vars, line, notes);
    reveal_with_fuel(traefik::terms_of, 2);
    assert(r0.hosts.push(a) =~= seq![a]);
}

/// A rule on a host and a path takes that host and, with `PathPrefix`, everything
/// below the path, with `Path` the path itself.
pub proof fn law_host_and_path_rule(
    a: Seq<char>,
    p: Seq<char>,
    vars: Seq<VarV>,
    line: int,
    notes: Seq<Note>,
)
    requires
        plain_word(a),
        plain_word(p),
        p.last() != '/',
    ensures
        traefik::rule_of(
            matcher("Host"@, a) + " && "@ + matcher("PathPrefix"@, p),
            vars,
            line,
            notes,
        ).0 matches Some(r) && r.hosts == seq![a] && traefik::route_path(r.path) == p + "/{*rest}"@,
        traefik::rule_of(
            matcher("Host"@, a) + " && "@ + matcher("Path"@, p),
            vars,
            line,
            notes,
        ).0 matches Some(r) && r.hosts == seq![a] && traefik::route_path(r.path) == p,
{
    let h = matcher("Host"@, a);
    lemma_functions();
    lemma_matcher("Host"@, a);
    lemma_matcher("PathPrefix"@, p);
    lemma_matcher("Path"@, p);
    lemma_two_terms(h, matcher("PathPrefix"@, p));
    lemma_two_terms(h, matcher("Path"@, p));
    let r0 = RuleV { hosts: seq![], path: traefik::PathV::CatchAll, acme_challenge: false };
    lemma_term(r0, h + " "@, "Host"@, a, vars, line, notes);
    lemma_host(r0, a, vars, line, notes);
    assert(r0.hosts.push(a) =~= seq![a]);
    let r1 = RuleV { hosts: seq![a], ..r0 };
    lemma_term(r1, " "@ + matcher("PathPrefix"@, p), "PathPrefix"@, p, vars, line, notes);
    lemma_term(r1, " "@ + matcher("Path"@, p), "Path"@, p, vars, line, notes);
    lemma_plain(p, vars, line, "rule: PathPrefix"@, notes);
    lemma_plain(p, vars, line, "rule: Path"@, notes);
    reveal_with_fuel(traefik::terms_of, 3);
    reveal_strlit("/");
    assert(p != "/"@);
    assert(text::trim_end_of(p, '/') == p);
}

// ── Labels ──────────────────────────────────────────────────────────────
proof fn lemma_label(l: LabelV, kind: Seq<char>, name: Seq<char>, prop: Seq<char>)
    requires
        kind == "http.routers."@ || kind == "http.services."@,
        l.key == "traefik."@ + kind + name + "."@ + prop,
        !name.contains('.'),
    ensures
        ({
            let tail = name + seq!['.'] + prop;
            let rest = kind + tail;
            &&& text::strip_prefix_of(l.key, "traefik."@) == Some(rest)
            &&& rest != "enable"@
            &&& text::strip_prefix_of(rest, kind) == Some(tail)
            &&& text::split_once_of(tail, '.') == Some((name, prop))
            &&& kind == "http.services."@ ==> text::strip_prefix_of(rest, "http.routers."@) is None
        }),
{
    reveal_strlit(".");
    let tail = name + seq!['.'] + prop;
    let rest = kind + tail;
    assert(l.key =~= "traefik."@ + rest);
    words::law_parts_of_a_text(rest, "traefik."@, rest);
    words::law_parts_of_a_text(tail, kind, tail);
    words::law_split_once_of_joined(name, '.', prop);
    reveal_strlit("enable");
    reveal_strlit("http.routers.");
    reveal_strlit("http.services.");
    assert(rest[0] == 'h');
    assert("enable"@[0] == 'e');
    words::law_stripped_parts_join(rest, "http.routers."@);
    if kind == "http.services."@ {
        assert(rest[5] == 's');
        assert("http.routers."@[5] == 'r');
    }
}

/// The routers hold one of the name, and it is this one.
pub open spec fn has_router(rs: Seq<RouterV>, r: RouterV) -> bool {
    exists|i: int| 0 <= i < rs.len() && #[trigger] rs[i] == r
}

proof fn lemma_slot_bound(rs: Seq<RouterV>, name: Seq<char>, i: nat)
    requires
        i <= rs.len(),
    ensures
        i <= traefik::router_slot(rs, name, i) <= rs.len(),
    decreases rs.len() - i,
{
    if i < rs.len() && text::precedes(rs[i as int].name, name) {
        lemma_slot_bound(rs, name, i + 1);
    }
}

/// A label on a router says what it says of the router of that name: its rule,
/// its service, whether it has TLS, or what certifies it. The other routers, the
/// ports and whether the container is enabled stay as they are.
pub proof fn law_router_label_is_read(
    st: LabelsV,
    l: LabelV,
    name: Seq<char>,
    prop: Seq<char>,
    other: RouterV,
)
    requires
        !name.contains('.'),
        l.key == "traefik.http.routers."@ + name + "."@ + prop,
        prop == "rule"@ || prop == "service"@ || prop == "tls"@ || prop == "tls.certresolver"@,
    ensures
        ({
            let a = traefik::label_step(st, l);
            let rs = a.routing.routers;
            &&& exists|r: RouterV|
                {
                    &&& #[trigger] has_router(rs, r)
                    &&& r.name == name
                    &&& prop == "rule"@ ==> r.rule == Some((l.value, l.line))
                    &&& prop == "service"@ ==> r.service == Some(l.value)
                    &&& prop == "tls"@ ==> r.tls == (l.value == "true"@)
                    &&& prop == "tls.certresolver"@ ==> r.certresolver == Some((l.value, l.line))
                }
            &&& a.routing.ports == st.routing.ports
            &&& a.routing.enable == st.routing.enable
            &&& has_router(st.routing.routers, other) && other.name != name ==> has_router(rs, other)
        }),
{
    assert("traefik."@ + "http.routers."@ =~= "traefik.http.routers."@) by {
        reveal_strlit("traefik.");
        reveal_strlit("http.routers.");
        reveal_strlit("traefik.http.routers.");
    }
    lemma_label(l, "http.routers."@, name, prop);
    lemma_properties();
    let old_rs = st.routing.routers;
    lemma_slot_bound(old_rs, name, 0);
    let i = traefik::router_slot(old_rs, name, 0) as int;
    let with = traefik::with_router(old_rs, name);
    let rs = traefik::label_step(st, l).routing.routers;
    assert(traefik::label_step(st, l) == traefik::router_label(st, name, prop, l));
    assert(with[i].name == name);
    assert(has_router(rs, rs[i]));
    if has_router(old_rs, other) && other.name != name {
        let j = choose|j: int| 0 <= j < old_rs.len() && #[trigger] old_rs[j] == other;
        let k = if with == old_rs || j < i {
            j
        } else {
            j + 1
        };
        assert(with[k] == other);
        assert(k != i);
        assert(rs[k] == other);
    }
}

proof fn lemma_properties()
    ensures
        "rule"@ != "tls"@,
        "rule"@ != "service"@,
        "rule"@ != "tls.certresolver"@,
        "tls"@ != "service"@,
        "tls"@ != "tls.certresolver"@,
        "service"@ != "tls.certresolver"@,
{
    reveal_strlit("rule");
    reveal_strlit("tls");
    reveal_strlit("service");
    reveal_strlit("tls.certresolver");
    assert("rule"@.len() == 4);
    assert("tls"@.len() == 3);
    assert("service"@.len() == 7);
    assert("tls.certresolver"@.len() == 16);
}

proof fn lemma_port_index_bound(ports: Seq<PortV>, service: Seq<char>, i: nat)
    requires
        i <= ports.len(),
    ensures
        ({
            let k = traefik::port_index(ports, service, i);
            &&& i <= k <= ports.len()
            &&& k < ports.len() ==> ports[k as int].service == service
            &&& forall|j: int| i <= j < k ==> (#[trigger] ports[j]).service != service
        }),
    decreases ports.len() - i,
{
    if i < ports.len() && ports[i as int].service != service {
        lemma_port_index_bound(ports, service, i + 1);
    }
}

/// The port label of a service says the port of the service of that name, and
/// leaves the others and the routers as they are; `traefik.enable=true`, and
/// nothing else, enables the container.
pub proof fn law_port_label_is_read(st: LabelsV, l: LabelV, name: Seq<char>)
    requires
        !name.contains('.'),
    ensures
        l.key == "traefik.http.services."@ + name + ".loadbalancer.server.port"@ ==> ({
            let a = traefik::label_step(st, l).routing;
            &&& a.routers == st.routing.routers
            &&& a.enable == st.routing.enable
            &&& exists|i: int|
                0 <= i < a.ports.len() && (#[trigger] a.ports[i]).service == name && a.ports[i].port
                    == l.value && a.ports[i].line == l.line
            &&& forall|i: int|
                0 <= i < st.routing.ports.len() && (#[trigger] st.routing.ports[i]).service != name
                    ==> i < a.ports.len() && a.ports[i] == st.routing.ports[i]
        }),
        l.key == "traefik.enable"@ ==> ({
            let a = traefik::label_step(st, l).routing;
            &&& a.enable == Some(l.value == "true"@)
            &&& a.routers == st.routing.routers
            &&& a.ports == st.routing.ports
        }),
{
    if l.key == "traefik.http.services."@ + name + ".loadbalancer.server.port"@ {
        assert(l.key =~= "traefik."@ + "http.services."@ + name + "."@
            + "loadbalancer.server.port"@) by {
            reveal_strlit("traefik.");
            reveal_strlit("http.services.");
            reveal_strlit("traefik.http.services.");
            reveal_strlit(".");
            reveal_strlit("loadbalancer.server.port");
            reveal_strlit(".loadbalancer.server.port");
            assert("traefik."@ + "http.services."@ =~= "traefik.http.services."@);
            assert("."@ + "loadbalancer.server.port"@ =~= ".loadbalancer.server.port"@);
        }
        lemma_label(l, "http.services."@, name, "loadbalancer.server.port"@);
        lemma_port_index_bound(st.routing.ports, name, 0);
        let ports = traefik::label_step(st, l).routing.ports;
        let k = traefik::port_index(st.routing.ports, name, 0) as int;
        assert(ports[k].service == name && ports[k].port == l.value);
    }
    if l.key == "traefik.enable"@ {
        reveal_strlit("traefik.enable");
        reveal_strlit("traefik.");
        reveal_strlit("enable");
        assert(l.key =~= "traefik."@ + "enable"@);
        words::law_parts_of_a_text("enable"@, "traefik."@, "enable"@);
    }
}

// ── Routes ──────────────────────────────────────────────────────────────
/// A router goes to the port of the service that it names, or that has its name;
/// where neither has one and the container has one port in all, to that.
pub proof fn law_router_has_its_port(routing: RoutingV, r: RouterV, i: int)
    ensures
        ({
            let key = if r.service is Some {
                r.service->0
            } else {
                r.name
            };
            let p = traefik::port_of(routing, r);
            &&& 0 <= i < routing.ports.len() && routing.ports[i].service == key && (forall|j: int|
                0 <= j < i ==> (#[trigger] routing.ports[j]).service != key) ==> p == Some(
                routing.ports[i],
            )
            &&& (forall|j: int|
                0 <= j < routing.ports.len() ==> (#[trigger] routing.ports[j]).service != key)
                && routing.ports.len() == 1 ==> p == Some(routing.ports[0])
            &&& (forall|j: int|
                0 <= j < routing.ports.len() ==> (#[trigger] routing.ports[j]).service != key)
                && routing.ports.len() != 1 ==> p is None
        }),
{
    let key = if r.service is Some {
        r.service->0
    } else {
        r.name
    };
    lemma_port_index_bound(routing.ports, key, 0);
}

/// A router that is routed takes the hosts and the path of its rule, to the
/// container at its port.
pub proof fn law_routed_router_reaches_its_container(
    b: BuiltV,
    svc: ServiceV,
    r: RouterV,
    routing: RoutingV,
    acme_email: Option<Seq<char>>,
    vars: Seq<VarV>,
)
    requires
        traefik::route_step(b, svc, r, routing, acme_email, vars).routes.len() > b.routes.len(),
    ensures
        ({
            let a = traefik::route_step(b, svc, r, routing, acme_email, vars);
            let route = a.routes.last();
            let (raw, line) = r.rule->0;
            &&& a.routes.drop_last() == b.routes
            &&& r.rule is Some
            &&& traefik::rule_of(raw, vars, line, b.notes).0 matches Some(rule)
                && route.path == traefik::route_path(rule.path) && route.hosts == (if rule.hosts.len()
                == 0 {
                None
            } else {
                Some(rule.hosts)
            }) && !rule.acme_challenge
            &&& traefik::port_of(routing, r) is Some
            &&& a.upstreams.len() > b.upstreams.len() ==> a.upstreams.last().name == route.upstream
                && (plain_word(traefik::port_of(routing, r)->0.port) ==> a.upstreams.last().urls
                == seq!["http://"@ + svc.name + ":"@ + traefik::port_of(routing, r)->0.port])
            &&& a.upstreams.len() == b.upstreams.len() ==> b.seen.contains(route.upstream)
            &&& route.serve_dir is None && !route.websocket && route.csp is None
        }),
{
    let a = traefik::route_step(b, svc, r, routing, acme_email, vars);
    assert(a.routes.drop_last() =~= b.routes);
    let (raw, line) = r.rule->0;
    let (rule, f) = traefik::rule_of(raw, vars, line, b.notes);
    let p = traefik::port_of(routing, r)->0;
    if plain_word(p.port) {
        lemma_plain(p.port, vars, p.line, "loadbalancer.server.port"@, f);
    }
}

/// Every host that a rule lists is taken, in the order of the rule, behind those
/// of the terms before.
pub proof fn law_every_listed_host_is_taken(
    r: RuleV,
    args: Seq<Seq<char>>,
    vars: Seq<VarV>,
    line: int,
    notes: Seq<Note>,
)
    requires
        forall|i: int| 0 <= i < args.len() ==> plain_word(#[trigger] args[i]),
    ensures
        traefik::matcher_step(r, "Host"@, args, vars, line, notes).0 matches Some(a) && a.hosts
            == r.hosts + args && a.path == r.path,
{
    lemma_hosts_from(r.hosts, args, args.len(), vars, line, notes);
    assert(args.take(args.len() as int) =~= args);
}

proof fn lemma_hosts_from(
    hosts: Seq<Seq<char>>,
    args: Seq<Seq<char>>,
    n: nat,
    vars: Seq<VarV>,
    line: int,
    notes: Seq<Note>,
)
    requires
        n <= args.len(),
        forall|i: int| 0 <= i < args.len() ==> plain_word(#[trigger] args[i]),
    ensures
        traefik::hosts_from(hosts, args, n, vars, line, notes) == (
            Some(hosts + args.take(n as int)),
            notes,
        ),
    decreases n,
{
    if n > 0 {
        let k = (n - 1) as nat;
        lemma_hosts_from(hosts, args, k, vars, line, notes);
        lemma_plain(args[k as int], vars, line, "rule: Host"@, notes);
        assert(hosts + args.take(n as int) =~= (hosts + args.take(k as int)).push(args[k as int]));
    } else {
        assert(hosts + args.take(0) =~= hosts);
    }
}

/// The routes hold one that takes the host, whatever the path, to the upstream.
pub open spec fn routes_host(routes: Seq<RouteV>, host: Seq<char>, upstream: Seq<char>) -> bool {
    exists|i: int|
        0 <= i < routes.len() && (#[trigger] routes[i]).hosts == Some(seq![host]) && routes[i].path
            == "/{*rest}"@ && routes[i].upstream == upstream
}

proof fn lemma_routes_host_grow(a: Seq<RouteV>, b: Seq<RouteV>, host: Seq<char>, upstream: Seq<char>)
    requires
        routes_host(a, host, upstream),
        a.len() <= b.len(),
        forall|i: int| 0 <= i < a.len() ==> #[trigger] b[i] == a[i],
    ensures
        routes_host(b, host, upstream),
{
    let i = choose|i: int|
        0 <= i < a.len() && (#[trigger] a[i]).hosts == Some(seq![host]) && a[i].path == "/{*rest}"@
            && a[i].upstream == upstream;
    assert(b[i] == a[i]);
}

proof fn lemma_routers_grow(
    b: BuiltV,
    svc: ServiceV,
    routing: RoutingV,
    k: nat,
    n: nat,
    acme_email: Option<Seq<char>>,
    vars: Seq<VarV>,
)
    requires
        k <= n,
    ensures
        ({
            let x = traefik::routers_of(b, svc, routing, k, acme_email, vars).routes;
            let y = traefik::routers_of(b, svc, routing, n, acme_email, vars).routes;
            x.len() <= y.len() && forall|i: int| 0 <= i < x.len() ==> #[trigger] y[i] == x[i]
        }),
    decreases n - k,
{
    if k < n {
        lemma_routers_grow(b, svc, routing, k, (n - 1) as nat, acme_email, vars);
    }
}

/// Every router of an enabled container that has a rule on a host and a port is
/// routed, whatever the others are.
pub proof fn law_every_router_is_routed(
    b: BuiltV,
    svc: ServiceV,
    acme_email: Option<Seq<char>>,
    vars: Seq<VarV>,
    k: int,
    host: Seq<char>,
    line: int,
)
    requires
        !traefik::traefik_service(svc),
        ({
            let routing = traefik::routing_of(svc, b.notes).routing;
            &&& routing.enable == Some(true)
            &&& 0 <= k < routing.routers.len()
            &&& routing.routers[k].rule == Some((matcher("Host"@, host), line))
            &&& traefik::port_of(routing, routing.routers[k]) is Some
            &&& plain_word(traefik::port_of(routing, routing.routers[k])->0.port)
        }),
        plain_word(host),
    ensures
        routes_host(
            traefik::service_step(b, svc, acme_email, vars).routes,
            host,
            traefik::upstream_name(svc.name),
        ),
{
    let l = traefik::routing_of(svc, b.notes);
    let b1 = BuiltV { notes: l.notes, ..b };
    let n = l.routing.routers.len();
    let before = traefik::routers_of(b1, svc, l.routing, k as nat, acme_email, vars);
    let after = traefik::routers_of(b1, svc, l.routing, (k + 1) as nat, acme_email, vars);
    let r = l.routing.routers[k];
    law_host_rule(host, vars, line, before.notes);
    let (rule, f) = traefik::rule_of(matcher("Host"@, host), vars, line, before.notes);
    let p = traefik::port_of(l.routing, r)->0;
    lemma_plain(p.port, vars, p.line, "loadbalancer.server.port"@, f);
    assert(after.routes.len() == before.routes.len() + 1);
    let i = before.routes.len() as int;
    assert(after.routes[i].hosts == Some(seq![host]));
    assert(routes_host(after.routes, host, traefik::upstream_name(svc.name)));
    lemma_routers_grow(b1, svc, l.routing, (k + 1) as nat, n, acme_email, vars);
    lemma_routes_host_grow(
        after.routes,
        traefik::routers_of(b1, svc, l.routing, n, acme_email, vars).routes,
        host,
        traefik::upstream_name(svc.name),
    );
}

/// What a container is routed by stays, whatever containers come after it, and is
/// in the document.
pub proof fn law_routes_of_a_container_stay(
    ss: Seq<ServiceV>,
    vars: Seq<VarV>,
    notes: Seq<Note>,
    k: nat,
    host: Seq<char>,
    upstream: Seq<char>,
)
    requires
        k <= ss.len(),
        ({
            let st = traefik::static_of(ss, vars, notes);
            routes_host(
                traefik::services_of(
                    BuiltV { upstreams: seq![], routes: seq![], seen: seq![], notes: st.notes },
                    ss,
                    k,
                    st.acme_email,
                    vars,
                ).routes,
                host,
                upstream,
            )
        }),
    ensures
        routes_host(traefik::build_of(ss, vars, notes).0.routes, host, upstream),
{
    let st = traefik::static_of(ss, vars, notes);
    let b = BuiltV { upstreams: seq![], routes: seq![], seen: seq![], notes: st.notes };
    lemma_services_grow(b, ss, k, ss.len(), st.acme_email, vars);
    lemma_routes_host_grow(
        traefik::services_of(b, ss, k, st.acme_email, vars).routes,
        traefik::services_of(b, ss, ss.len(), st.acme_email, vars).routes,
        host,
        upstream,
    );
}

proof fn lemma_services_grow(
    b: BuiltV,
    ss: Seq<ServiceV>,
    k: nat,
    n: nat,
    acme_email: Option<Seq<char>>,
    vars: Seq<VarV>,
)
    requires
        k <= n,
    ensures
        ({
            let x = traefik::services_of(b, ss, k, acme_email, vars).routes;
            let y = traefik::services_of(b, ss, n, acme_email, vars).routes;
            x.len() <= y.len() && forall|i: int| 0 <= i < x.len() ==> #[trigger] y[i] == x[i]
        }),
    decreases n - k,
{
    if k < n {
        let m = (n - 1) as nat;
        lemma_services_grow(b, ss, k, m, acme_email, vars);
        let p = traefik::services_of(b, ss, m, acme_email, vars);
        let svc = ss[m as int];
        let l = traefik::routing_of(svc, p.notes);
        lemma_routers_grow(
            BuiltV { notes: l.notes, ..p },
            svc,
            l.routing,
            0,
            l.routing.routers.len(),
            acme_email,
            vars,
        );
    }
}

// ── Containers ──────────────────────────────────────────────────────────
/// No tag, digest or path begins in the text.
pub open spec fn bare_repository(s: Seq<char>) -> bool {
    !s.contains('/') && !s.contains(':') && !s.contains('@')
}

proof fn lemma_tag_at(s: Seq<char>, p: int, e: int)
    requires
        0 <= p <= e <= s.len(),
        forall|i: int| p <= i < e ==> s[i] != '@' && s[i] != ':',
        e == s.len() || s[e] == '@' || s[e] == ':',
    ensures
        traefik::tag_at(s, p) == e,
    decreases e - p,
{
    if p < e {
        lemma_tag_at(s, p + 1, e);
    }
}

proof fn lemma_repository(path: Seq<char>, name: Seq<char>, tag: Seq<char>)
    requires
        !path.contains(':'),
        !path.contains('@'),
        path.len() == 0 || path.last() == '/',
        bare_repository(name),
        tag.len() == 0 || tag[0] == ':' || tag[0] == '@',
    ensures
        traefik::repository(path + name + tag) == name,
{
    let s = path + name + tag;
    let n = (path.len() + name.len()) as int;
    assert forall|i: int| 0 <= i < n implies s[i] != '@' && s[i] != ':' by {
        if i < path.len() {
            assert(s[i] == path[i]);
        } else {
            assert(s[i] == name[i - path.len()]);
        }
    }
    if tag.len() > 0 {
        assert(s[n] == tag[0]);
    }
    lemma_tag_at(s, 0, n);
    let t = s.subrange(0, n);
    assert(t =~= path + name);
    text::lemma_last_index_of(t, '/', t.len() as int);
    let k = text::last_index_of(t, '/', t.len() as int);
    if k >= path.len() {
        assert(name[k - path.len()] == t[k]);
    }
    if path.len() > 0 {
        assert(t[path.len() - 1] == '/');
    }
    assert(k == path.len() - 1);
    assert(t.subrange(k + 1, t.len() as int) =~= name);
}

/// The proxy's own container is known by the name of its image, whatever stands
/// before and behind it, and no other container is taken for it.
pub proof fn law_own_container_is_known_by_its_image(
    svc: ServiceV,
    path: Seq<char>,
    name: Seq<char>,
    tag: Seq<char>,
)
    requires
        svc.image == Some(path + name + tag),
        !path.contains(':'),
        !path.contains('@'),
        path.len() == 0 || path.last() == '/',
        bare_repository(name),
        tag.len() == 0 || tag[0] == ':' || tag[0] == '@',
    ensures
        traefik::traefik_service(svc) <==> name == "traefik"@,
{
    lemma_repository(path, name, tag);
}

proof fn lemma_port_index(ports: Seq<PortV>, service: Seq<char>, i: nat)
    requires
        i <= ports.len(),
    ensures
        ({
            let k = traefik::port_index(ports, service, i);
            &&& i <= k <= ports.len()
            &&& k < ports.len() ==> ports[k as int].service == service
            &&& forall|j: int| i <= j < k ==> (#[trigger] ports[j]).service != service
        }),
    decreases ports.len() - i,
{
    if i < ports.len() && ports[i as int].service != service {
        lemma_port_index(ports, service, i + 1);
    }
}

/// The last port that is set for a service is its port, and the ports of the
/// others stay.
pub proof fn law_last_port_of_a_service_counts(ports: Seq<PortV>, p: PortV, other: Seq<char>)
    requires
        other != p.service,
    ensures
        ({
            let after = traefik::with_port(ports, p);
            let k = traefik::port_index(after, p.service, 0);
            let i = traefik::port_index(ports, other, 0);
            let j = traefik::port_index(after, other, 0);
            &&& k < after.len() && after[k as int] == p
            &&& i < ports.len() ==> j < after.len() && after[j as int] == ports[i as int]
            &&& i >= ports.len() ==> j >= after.len()
        }),
{
    let after = traefik::with_port(ports, p);
    let x = traefik::port_index(ports, p.service, 0);
    lemma_port_index(ports, p.service, 0);
    lemma_port_index(after, p.service, 0);
    lemma_port_index(ports, other, 0);
    lemma_port_index(after, other, 0);
    let k = traefik::port_index(after, p.service, 0);
    let i = traefik::port_index(ports, other, 0);
    let j = traefik::port_index(after, other, 0);
    assert(x < after.len());
    assert(after[x as int] == p);
    if k < x {
        assert(after[k as int] == ports[k as int]);
    }
    if i < ports.len() {
        assert(after[i as int] == ports[i as int]);
        if j < i {
            assert(after[j as int].service == other);
            assert(ports[j as int].service != other);
        }
    } else if j < after.len() {
        assert(after[j as int].service == other);
        if j < ports.len() {
            assert(ports[j as int].service != other);
        }
    }
}

} // verus!
