//! What the flags, the services found and the operator's answers come to.
use super::{InitV, OptsV, QuestionV, ServiceV};
use crate::init;
use crate::init::reading;
use crate::text;
use crate::words;
use vstd::prelude::*;

verus! {

// ── Flags ───────────────────────────────────────────────────────────────
/// What a flag gives is kept as it is, and what none gives is the well-known
/// default.
pub proof fn law_flags_are_kept(o: OptsV, services: Seq<ServiceV>, host: Seq<char>, p: u16)
    ensures
        ({
            let r = init::non_interactive_of(o, services);
            &&& o.http_port == Some(p) ==> r.http_port == p
            &&& o.https_port == Some(p) ==> r.https_port == p
            &&& o.http_port is None ==> r.http_port == 80
            &&& o.https_port is None ==> r.https_port == 443
            &&& o.hostname == Some(host) ==> r.hostname == host
            &&& o.hostname is None ==> r.hostname == "localhost"@
            &&& o.upstreams.len() > 0 ==> r.upstreams == o.upstreams
            &&& r.output == o.output
            &&& r.force == o.force
            &&& r.gen_tls == o.with_tls
            &&& r.with_waf == o.with_waf
        }),
{
}

/// Without upstreams among the flags, every service that was found is one, on
/// this machine at its port, under its name or that and a number; where none was
/// found, there is the default one.
pub proof fn law_found_services_are_upstreams(o: OptsV, services: Seq<ServiceV>, i: int)
    requires
        o.upstreams.len() == 0,
    ensures
        ({
            let ups = init::non_interactive_of(o, services).upstreams;
            &&& services.len() > 0 ==> ups.len() == services.len()
            &&& 0 <= i < services.len() ==> ups[i].1 == "127.0.0.1:"@ + text::dec(
                services[i].port as nat,
            ) && (ups[i].0 == services[i].name || exists|k: nat|
                ups[i].0 == services[i].name + #[trigger] text::dec(k))
            &&& services.len() == 0 ==> ups == seq![("backend"@, "127.0.0.1:8080"@)]
        }),
{
    lemma_added(o.upstreams, services, services.len(), i);
}

proof fn lemma_numbered(ps: Seq<(Seq<char>, Seq<char>)>, name: Seq<char>, i: nat)
    ensures
        ({
            let n = init::numbered(ps, name, i);
            n == name || exists|k: nat| n == name + #[trigger] text::dec(k)
        }),
    decreases 100 - i,
{
    if i < 100 && init::named(ps, name + text::dec(i)) {
        lemma_numbered(ps, name, i + 1);
    }
}

proof fn lemma_added(ps: Seq<(Seq<char>, Seq<char>)>, services: Seq<ServiceV>, n: nat, i: int)
    requires
        n <= services.len(),
    ensures
        ({
            let a = init::with_services(ps, services, n);
            &&& a.len() == ps.len() + n
            &&& 0 <= i < n ==> a[ps.len() + i].1 == "127.0.0.1:"@ + text::dec(
                services[i].port as nat,
            ) && (a[ps.len() + i].0 == services[i].name || exists|k: nat|
                a[ps.len() + i].0 == services[i].name + #[trigger] text::dec(k))
        }),
    decreases n,
{
    if n > 0 {
        let k = (n - 1) as nat;
        lemma_added(ps, services, k, i);
        let p = init::with_services(ps, services, k);
        if i == k {
            lemma_numbered(p, services[i].name, 2);
        }
    }
}

// ── Answers ─────────────────────────────────────────────────────────────
/// An answer is what was typed without the white space around it, and the
/// default where there is nothing else.
pub proof fn law_answer_is_what_was_typed(
    a: Seq<char>,
    t: Seq<char>,
    b: Seq<char>,
    default: Seq<char>,
)
    requires
        words::blank(a),
        words::blank(b),
    ensures
        t.len() > 0 && !text::white(t[0]) && !text::white(t.last()) ==> init::text_answer(
            a + t + b,
            default,
        ) == t,
        init::text_answer(a, default) == default,
{
    if t.len() > 0 && !text::white(t[0]) && !text::white(t.last()) {
        words::lemma_trim_between(a, t, b);
    }
    lemma_blank(a);
}

proof fn lemma_blank(a: Seq<char>)
    requires
        words::blank(a),
    ensures
        text::trim_of(a).len() == 0,
{
    words::law_trim(a);
    let u = text::trim_of(a);
    let (x, y) = choose|x: Seq<char>, y: Seq<char>|
        words::blank(x) && words::blank(y) && a == #[trigger] (x + u + y);
    if u.len() > 0 {
        assert(a[x.len() as int] == u[0]);
        assert(text::white(a[x.len() as int]));
    }
}

/// Nothing, `y` and `yes`, in whatever case, mean yes; any other word means no.
pub proof fn law_yes_means_yes(a: Seq<char>, t: Seq<char>, b: Seq<char>)
    requires
        words::blank(a),
        words::blank(b),
    ensures
        init::yes_answer(a),
        t.len() > 0 && !text::white(t[0]) && !text::white(t.last()) ==> (init::yes_answer(a + t + b)
            <==> t == "y"@ || t == "Y"@ || text::lower(t) == "yes"@),
{
    lemma_blank(a);
    assert(text::lower(text::trim_of(a)).len() == 0);
    if t.len() > 0 && !text::white(t[0]) && !text::white(t.last()) {
        words::lemma_trim_between(a, t, b);
        assert(text::lower(t).len() == t.len());
        reveal_strlit("y");
        reveal_strlit("Y");
        reveal_strlit("yes");
        assert(text::lower(t)[0] == text::lower_char(t[0]));
        if text::lower(t) == "y"@ {
            assert(text::lower_char(t[0]) == 'y');
            assert(t[0] == 'y' || t[0] == 'Y');
            if t[0] == 'y' {
                assert(t =~= "y"@);
            } else {
                assert(t =~= "Y"@);
            }
        }
        if t == "y"@ || t == "Y"@ {
            assert(text::lower(t) =~= "y"@);
        }
    }
}

/// A typed port is taken; what is no port leaves the default.
pub proof fn law_typed_port_is_taken(p: nat, default: u16)
    ensures
        p <= 65535 ==> init::port_or(text::dec(p), default) == p,
        p > 65535 ==> init::port_or(text::dec(p), default) == default,
        init::port_or(seq![], default) == default,
{
    words::law_decimal(p, 0, 65535);
}

proof fn lemma_offered(
    ps: Seq<(Seq<char>, Seq<char>)>,
    given: Seq<(Seq<char>, Seq<char>)>,
    services: Seq<ServiceV>,
    i: int,
    answers: Seq<Seq<char>>,
)
    requires
        given.len() == 0,
        0 <= i <= services.len(),
        ps == init::with_services(given, services, i as nat),
        1 + services.len() <= answers.len(),
        forall|j: int| 0 <= j < answers.len() ==> words::blank(#[trigger] answers[j]),
    ensures
        init::offered(ps, given, services, i, answers, 1 + i) == Ok::<_, init::QuestionV>(
            (init::with_services(given, services, services.len()), 1 + services.len() as int),
        ),
    decreases services.len() - i,
{
    if i < services.len() {
        assert(!init::covers(given, services[i].port));
        law_yes_means_yes(answers[1 + i], seq![], answers[1 + i]);
        lemma_offered(
            ps.push((init::free_name(ps, services[i].name), init::local_target(services[i].port))),
            given,
            services,
            i + 1,
            answers,
        );
    }
}

/// Blank answers to every question make what the flags and the services make
/// without asking, but that the firewall needs an API to guard.
pub proof fn law_blank_answers_take_the_defaults(
    o: OptsV,
    services: Seq<ServiceV>,
    answers: Seq<Seq<char>>,
)
    requires
        o.upstreams.len() == 0,
        services.len() + 6 <= answers.len(),
        forall|j: int| 0 <= j < answers.len() ==> words::blank(#[trigger] answers[j]),
    ensures
        ({
            let r = init::non_interactive_of(o, services);
            init::interactive_of(o, services, answers) == Ok::<_, init::QuestionV>(
                InitV {
                    with_waf: o.with_waf && (reading::listed(r.upstreams, "api"@) || reading::listed(
                        r.upstreams,
                        "backend"@,
                    )),
                    ..r
                },
            )
        }),
{
    let r = init::non_interactive_of(o, services);
    assert forall|j: int, d: Seq<char>| 0 <= j < answers.len() implies #[trigger] init::text_answer(
        answers[j],
        d,
    ) == d by {
        law_answer_is_what_was_typed(answers[j], seq![], answers[j], d);
    }
    assert forall|j: int| 0 <= j < answers.len() implies init::yes_answer(#[trigger] answers[j]) by {
        law_yes_means_yes(answers[j], seq![], answers[j]);
    }
    lemma_offered(o.upstreams, o.upstreams, services, 0, answers);
    let ps = init::with_services(o.upstreams, services, services.len());
    lemma_added(o.upstreams, services, services.len(), 0);
    assert(services.len() > 0 ==> ps.len() > 0);
    law_typed_port_is_taken(init::given_or(o.http_port, 80) as nat, 80);
    law_typed_port_is_taken(init::given_or(o.https_port, 443) as nat, 443);
    assert(r.upstreams.len() > 0);
    let (ups, k) = init::at_least_one(ps, answers, 1 + services.len() as int)->Ok_0;
    assert(ups =~= r.upstreams);
    assert(k <= services.len() + 2);
}

// ── Services ────────────────────────────────────────────────────────────
/// A service is found where its port answers, and only there.
pub proof fn law_answering_services_are_found(services: Seq<ServiceV>, open: Seq<bool>, s: ServiceV)
    requires
        services.len() == open.len(),
    ensures
        init::answering(services, open, services.len()).contains(s) <==> exists|i: int|
            0 <= i < services.len() && open[i] && #[trigger] services[i] == s,
{
    lemma_answering(services, open, services.len(), s);
}

proof fn lemma_answering(services: Seq<ServiceV>, open: Seq<bool>, n: nat, s: ServiceV)
    requires
        n <= services.len(),
        services.len() == open.len(),
    ensures
        init::answering(services, open, n).contains(s) <==> exists|i: int|
            0 <= i < n && open[i] && #[trigger] services[i] == s,
    decreases n,
{
    if n > 0 {
        let k = (n - 1) as nat;
        lemma_answering(services, open, k, s);
        let p = init::answering(services, open, k);
        let a = init::answering(services, open, n);
        if open[k as int] {
            assert(a == p.push(services[k as int]));
            assert(a[p.len() as int] == services[k as int]);
            if p.contains(s) {
                let i = choose|i: int| 0 <= i < p.len() && p[i] == s;
                assert(a[i] == s);
            }
            if a.contains(s) {
                let i = choose|i: int| 0 <= i < a.len() && a[i] == s;
                if i < p.len() {
                    assert(p[i] == s);
                    assert(p.contains(s));
                } else {
                    assert(services[k as int] == s);
                }
            }
        }
        if exists|i: int| 0 <= i < n && open[i] && #[trigger] services[i] == s {
            let i = choose|i: int| 0 <= i < n && open[i] && #[trigger] services[i] == s;
            if i < k {
                assert(p.contains(s));
            }
        }
    }
}

proof fn lemma_declined(
    ps: Seq<(Seq<char>, Seq<char>)>,
    given: Seq<(Seq<char>, Seq<char>)>,
    services: Seq<ServiceV>,
    i: int,
    answers: Seq<Seq<char>>,
    k: int,
)
    requires
        0 <= i <= services.len(),
        0 <= k,
        k + services.len() - i <= answers.len(),
        forall|j: int| 0 <= j < answers.len() ==> !init::yes_answer(#[trigger] answers[j]),
    ensures
        init::offered(ps, given, services, i, answers, k) matches Ok((out, _)) && out == ps,
    decreases services.len() - i,
{
    if i < services.len() {
        if init::covers(given, services[i].port) {
            lemma_declined(ps, given, services, i + 1, answers, k);
        } else {
            assert(!init::yes_answer(answers[k]));
            lemma_declined(ps, given, services, i + 1, answers, k + 1);
        }
    }
}

/// Declining every service that is offered leaves the upstreams of the flags.
pub proof fn law_declined_services_are_left_out(
    given: Seq<(Seq<char>, Seq<char>)>,
    services: Seq<ServiceV>,
    answers: Seq<Seq<char>>,
)
    requires
        1 + services.len() <= answers.len(),
        forall|j: int| 0 <= j < answers.len() ==> !init::yes_answer(#[trigger] answers[j]),
    ensures
        init::offered(given, given, services, 0, answers, 1) matches Ok((out, _)) && out == given,
{
    lemma_declined(given, given, services, 0, answers, 1);
}

/// A service at the port of an upstream among the flags is not offered.
pub proof fn law_covered_services_are_not_offered(
    ps: Seq<(Seq<char>, Seq<char>)>,
    given: Seq<(Seq<char>, Seq<char>)>,
    services: Seq<ServiceV>,
    i: int,
    answers: Seq<Seq<char>>,
    k: int,
    g: int,
    host: Seq<char>,
)
    requires
        0 <= i < services.len(),
        0 <= g < given.len(),
        given[g].1 == host + ":"@ + text::dec(services[i].port as nat),
    ensures
        init::offered(ps, given, services, i, answers, k) == init::offered(
            ps,
            given,
            services,
            i + 1,
            answers,
            k,
        ),
{
    let tail = ":"@ + text::dec(services[i].port as nat);
    words::law_parts_of_a_text(host, tail, host);
    assert(given[g].1 =~= host + tail);
    assert(init::covers(given, services[i].port));
}

/// The firewall and the certificate are on exactly where they were asked for and
/// the answer was yes.
pub proof fn law_extras_need_a_yes(
    o: OptsV,
    ps: Seq<(Seq<char>, Seq<char>)>,
    answers: Seq<Seq<char>>,
    k: int,
)
    requires
        0 <= k < answers.len(),
    ensures
        init::waf_choice(o, ps, answers, k) == Ok::<bool, QuestionV>(true) <==> o.with_waf
            && (exists|i: int|
            0 <= i < ps.len() && ((#[trigger] ps[i]).0 == "api"@ || ps[i].0 == "backend"@))
            && init::yes_answer(answers[k]),
        init::tls_choice(o, answers, k) matches Ok((on, _)) && on == (o.with_tls
            && init::yes_answer(answers[k])),
{
    if exists|i: int|
        0 <= i < ps.len() && ((#[trigger] ps[i]).0 == "api"@ || ps[i].0 == "backend"@) {
        let i = choose|i: int|
            0 <= i < ps.len() && ((#[trigger] ps[i]).0 == "api"@ || ps[i].0 == "backend"@);
        assert(init::named(ps, ps[i].0));
        assert(init::has_api(ps));
    }
}

} // verus!
