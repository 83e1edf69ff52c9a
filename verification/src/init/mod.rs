//! `zion init`: making a first configuration.
//!
//! The answers come from command-line flags, from services that were found
//! listening, and, in interactive mode, from the operator.
use self::screen::Style;
use crate::text;
use crate::text::{cat2, cat7, dec_text, ends_with, own, parse_u16, same, to_lower, trim};
use vstd::prelude::*;

pub mod cert;
pub mod choices;
pub mod date;
pub mod reading;
pub mod screen;
pub mod toml;
pub mod wizard;

verus! {

broadcast use crate::text::group_views;

// ── Services ────────────────────────────────────────────────────────────
/// A local port with something listening on it. The hint is a guess from the
/// port number.
#[derive(Debug, Clone, Copy)]
pub struct DetectedService {
    pub port: u16,
    pub hint: &'static str,
    pub suggested_name: &'static str,
}

#[verifier::ext_equal]
pub struct ServiceV {
    pub port: u16,
    pub hint: Seq<char>,
    pub name: Seq<char>,
}

impl View for DetectedService {
    type V = ServiceV;

    open spec fn view(&self) -> ServiceV {
        ServiceV { port: self.port, hint: self.hint@, name: self.suggested_name@ }
    }
}

pub open spec fn service(port: u16, hint: Seq<char>, name: Seq<char>) -> ServiceV {
    ServiceV { port, hint, name }
}

/// The ports that are probed. The first match becomes the catch-all.
pub open spec fn common_services() -> Seq<ServiceV> {
    seq![
        service(3000, "Node / Next.js / React dev"@, "frontend"@),
        service(5173, "Vite dev server"@, "frontend"@),
        service(4000, "Phoenix / Elixir"@, "backend"@),
        service(5000, "Flask / .NET / generic"@, "backend"@),
        service(8000, "Django / FastAPI / generic"@, "backend"@),
        service(8080, "generic HTTP / Tomcat"@, "backend"@),
        service(8081, "generic HTTP"@, "backend"@),
        service(9000, "PHP-FPM / SonarQube"@, "backend"@),
        service(3001, "alternate Node"@, "frontend"@),
    ]
}

fn candidate(port: u16, hint: &'static str, suggested_name: &'static str) -> (r: DetectedService)
    ensures
        r@ == service(port, hint@, suggested_name@),
{
    DetectedService { port, hint, suggested_name }
}

pub fn common_ports() -> (r: Vec<DetectedService>)
    ensures
        text::views(r@) == common_services(),
{
    let mut v: Vec<DetectedService> = Vec::new();
    v.push(candidate(3000, "Node / Next.js / React dev", "frontend"));
    v.push(candidate(5173, "Vite dev server", "frontend"));
    v.push(candidate(4000, "Phoenix / Elixir", "backend"));
    v.push(candidate(5000, "Flask / .NET / generic", "backend"));
    v.push(candidate(8000, "Django / FastAPI / generic", "backend"));
    v.push(candidate(8080, "generic HTTP / Tomcat", "backend"));
    v.push(candidate(8081, "generic HTTP", "backend"));
    v.push(candidate(9000, "PHP-FPM / SonarQube", "backend"));
    v.push(candidate(3001, "alternate Node", "frontend"));
    assert(text::views(v@) =~= common_services());
    v
}

/// The services whose port answered, of the first `n`.
pub open spec fn answering(services: Seq<ServiceV>, open: Seq<bool>, n: nat) -> Seq<ServiceV>
    decreases n,
{
    if n == 0 {
        seq![]
    } else if open[n - 1] {
        answering(services, open, (n - 1) as nat).push(services[n - 1])
    } else {
        answering(services, open, (n - 1) as nat)
    }
}

/// The common services whose port answered, `open` saying which did.
pub fn scan_local_ports(open: &Vec<bool>) -> (r: Vec<DetectedService>)
    requires
        open@.len() == common_services().len(),
    ensures
        text::views(r@) == answering(common_services(), open@, open@.len()),
{
    let all = common_ports();
    let ghost av = text::views(all@);
    let mut out: Vec<DetectedService> = Vec::new();
    let mut i: usize = 0;
    assert(text::views(out@) =~= seq![]);
    while i < open.len()
        invariant
            i <= open.len(),
            all.len() == open.len(),
            av == text::views(all@),
            text::views(out@) == answering(av, open@, i as nat),
        decreases open.len() - i,
    {
        assert(av[i as int] == all@[i as int]@);
        if open[i] {
            out.push(all[i]);
        }
        i += 1;
    }
    out
}

// ── Options ─────────────────────────────────────────────────────────────
/// The command-line flags.
#[derive(Debug)]
pub struct InitOpts {
    pub output: String,
    pub force: bool,
    pub hostname: Option<String>,
    /// Name and `host:port` of each upstream.
    pub upstreams: Vec<(String, String)>,
    pub http_port: Option<u16>,
    pub https_port: Option<u16>,
    pub with_tls: bool,
    pub with_waf: bool,
}

/// What the configuration is made from.
#[derive(Debug)]
pub struct ResolvedInit {
    pub output: String,
    pub force: bool,
    pub hostname: String,
    pub upstreams: Vec<(String, String)>,
    pub http_port: u16,
    pub https_port: u16,
    pub gen_tls: bool,
    pub cert_path: String,
    pub key_path: String,
    pub with_waf: bool,
}

pub open spec fn pairs(v: Seq<(String, String)>) -> Seq<(Seq<char>, Seq<char>)> {
    Seq::new(v.len(), |i: int| (v[i].0@, v[i].1@))
}

#[verifier::ext_equal]
pub struct OptsV {
    pub output: Seq<char>,
    pub force: bool,
    pub hostname: Option<Seq<char>>,
    pub upstreams: Seq<(Seq<char>, Seq<char>)>,
    pub http_port: Option<u16>,
    pub https_port: Option<u16>,
    pub with_tls: bool,
    pub with_waf: bool,
}

#[verifier::ext_equal]
pub struct InitV {
    pub output: Seq<char>,
    pub force: bool,
    pub hostname: Seq<char>,
    pub upstreams: Seq<(Seq<char>, Seq<char>)>,
    pub http_port: u16,
    pub https_port: u16,
    pub gen_tls: bool,
    pub cert_path: Seq<char>,
    pub key_path: Seq<char>,
    pub with_waf: bool,
}

impl View for InitOpts {
    type V = OptsV;

    open spec fn view(&self) -> OptsV {
        OptsV {
            output: self.output@,
            force: self.force,
            hostname: text::opt(self.hostname),
            upstreams: pairs(self.upstreams@),
            http_port: self.http_port,
            https_port: self.https_port,
            with_tls: self.with_tls,
            with_waf: self.with_waf,
        }
    }
}

impl View for ResolvedInit {
    type V = InitV;

    open spec fn view(&self) -> InitV {
        InitV {
            output: self.output@,
            force: self.force,
            hostname: self.hostname@,
            upstreams: pairs(self.upstreams@),
            http_port: self.http_port,
            https_port: self.https_port,
            gen_tls: self.gen_tls,
            cert_path: self.cert_path@,
            key_path: self.key_path@,
            with_waf: self.with_waf,
        }
    }
}

proof fn lemma_pairs_push(v: Seq<(String, String)>, a: String, b: String)
    ensures
        pairs(v.push((a, b))) == pairs(v).push((a@, b@)),
{
    assert(pairs(v.push((a, b))) =~= pairs(v).push((a@, b@)));
}

fn own_pairs(v: &Vec<(String, String)>) -> (r: Vec<(String, String)>)
    ensures
        pairs(r@) == pairs(v@),
{
    let mut out: Vec<(String, String)> = Vec::new();
    let mut i: usize = 0;
    while i < v.len()
        invariant
            i <= v.len(),
            pairs(out@) == pairs(v@).subrange(0, i as int),
        decreases v.len() - i,
    {
        let a = own(v[i].0.as_str());
        let b = own(v[i].1.as_str());
        proof {
            lemma_pairs_push(out@, a, b);
        }
        out.push((a, b));
        assert(pairs(out@) =~= pairs(v@).subrange(0, i + 1));
        i += 1;
    }
    assert(pairs(v@).subrange(0, i as int) =~= pairs(v@));
    out
}

// ── Names and ports ─────────────────────────────────────────────────────
pub open spec fn named(ps: Seq<(Seq<char>, Seq<char>)>, name: Seq<char>) -> bool {
    exists|i: int| 0 <= i < ps.len() && (#[trigger] ps[i]).0 == name
}

/// The first of `name2`, `name3`, … from `i` on that is free, up to `name99`;
/// else the name itself.
pub open spec fn numbered(ps: Seq<(Seq<char>, Seq<char>)>, name: Seq<char>, i: nat) -> Seq<char>
    decreases 100 - i,
{
    if i >= 100 {
        name
    } else if !named(ps, name + text::dec(i)) {
        name + text::dec(i)
    } else {
        numbered(ps, name, i + 1)
    }
}

/// A name that is not taken yet, where there is one.
pub open spec fn free_name(ps: Seq<(Seq<char>, Seq<char>)>, name: Seq<char>) -> Seq<char> {
    if named(ps, name) {
        numbered(ps, name, 2)
    } else {
        name
    }
}

pub fn is_named(v: &Vec<(String, String)>, name: &str) -> (r: bool)
    ensures
        r == named(pairs(v@), name@),
{
    let ghost pv = pairs(v@);
    let mut i: usize = 0;
    while i < v.len()
        invariant
            i <= v.len(),
            pv == pairs(v@),
            forall|j: int| 0 <= j < i ==> (#[trigger] pv[j]).0 != name@,
        decreases v.len() - i,
    {
        assert(pv[i as int].0 == v@[i as int].0@);
        if same(v[i].0.as_str(), name) {
            return true;
        }
        i += 1;
    }
    false
}

pub fn unique_name(existing: &Vec<(String, String)>, proposed: &str) -> (r: String)
    ensures
        r@ == free_name(pairs(existing@), proposed@),
{
    if !is_named(existing, proposed) {
        return own(proposed);
    }
    let mut i: u64 = 2;
    while i < 100
        invariant
            2 <= i <= 100,
            named(pairs(existing@), proposed@),
            free_name(pairs(existing@), proposed@) == numbered(
                pairs(existing@),
                proposed@,
                i as nat,
            ),
        decreases 100 - i,
    {
        let c = cat2(proposed, dec_text(i).as_str());
        if !is_named(existing, c.as_str()) {
            return c;
        }
        i += 1;
    }
    own(proposed)
}

pub open spec fn port_or(s: Seq<char>, default: u16) -> u16 {
    match text::parse_dec(s, 65_535) {
        Some(n) => n as u16,
        None => default,
    }
}

pub fn parse_port(s: String, default: u16) -> (r: u16)
    ensures
        r == port_or(s@, default),
{
    match parse_u16(s.as_str()) {
        Some(n) => n,
        None => default,
    }
}

pub open spec fn given_or(o: Option<u16>, fallback: u16) -> u16 {
    match o {
        Some(p) => p,
        None => fallback,
    }
}

fn port_given_or(o: Option<u16>, fallback: u16) -> (r: u16)
    ensures
        r == given_or(o, fallback),
{
    match o {
        Some(p) => p,
        None => fallback,
    }
}

pub fn port_default(opt: Option<u16>, fallback: u16) -> (r: String)
    ensures
        r@ == text::dec(given_or(opt, fallback) as nat),
{
    dec_text(port_given_or(opt, fallback) as u64)
}

pub open spec fn host_or_local(h: Option<Seq<char>>) -> Seq<char> {
    match h {
        Some(h) => h,
        None => "localhost"@,
    }
}

fn default_host(h: &Option<String>) -> (r: String)
    ensures
        r@ == host_or_local(text::opt(*h)),
{
    match h {
        Some(h) => own(h.as_str()),
        None => own("localhost"),
    }
}

pub open spec fn local_target(port: u16) -> Seq<char> {
    "127.0.0.1:"@ + text::dec(port as nat)
}

// ── Non-interactive ─────────────────────────────────────────────────────
/// The upstreams with the first `n` services added under free names.
pub open spec fn with_services(
    ps: Seq<(Seq<char>, Seq<char>)>,
    services: Seq<ServiceV>,
    n: nat,
) -> Seq<(Seq<char>, Seq<char>)>
    decreases n,
{
    if n == 0 {
        ps
    } else {
        let p = with_services(ps, services, (n - 1) as nat);
        p.push((free_name(p, services[n - 1].name), local_target(services[n - 1].port)))
    }
}

/// The upstreams without asking: those given, else those found, else a default.
pub open spec fn chosen_upstreams(
    given: Seq<(Seq<char>, Seq<char>)>,
    services: Seq<ServiceV>,
) -> Seq<(Seq<char>, Seq<char>)> {
    if given.len() > 0 {
        given
    } else if services.len() > 0 {
        with_services(given, services, services.len())
    } else {
        seq![("backend"@, "127.0.0.1:8080"@)]
    }
}

pub open spec fn non_interactive_of(o: OptsV, services: Seq<ServiceV>) -> InitV {
    InitV {
        output: o.output,
        force: o.force,
        hostname: host_or_local(o.hostname),
        upstreams: chosen_upstreams(o.upstreams, services),
        http_port: given_or(o.http_port, 80),
        https_port: given_or(o.https_port, 443),
        gen_tls: o.with_tls,
        cert_path: "tls/server.crt"@,
        key_path: "tls/server.key"@,
        with_waf: o.with_waf,
    }
}

fn push_service(out: &mut Vec<(String, String)>, d: &DetectedService)
    ensures
        pairs(final(out)@) == pairs(old(out)@).push(
            (free_name(pairs(old(out)@), d@.name), local_target(d@.port)),
        ),
{
    let name = unique_name(out, d.suggested_name);
    let target = cat2("127.0.0.1:", dec_text(d.port as u64).as_str());
    proof {
        lemma_pairs_push(out@, name, target);
    }
    out.push((name, target));
}

pub fn build_non_interactive(opts: InitOpts, detected: &Vec<DetectedService>) -> (r: ResolvedInit)
    ensures
        r@ == non_interactive_of(opts@, text::views(detected@)),
{
    let hostname = default_host(&opts.hostname);
    let ghost sv = text::views(detected@);
    let mut upstreams = opts.upstreams;
    if upstreams.len() == 0 {
        let ghost start = pairs(upstreams@);
        let mut i: usize = 0;
        while i < detected.len()
            invariant
                i <= detected.len(),
                sv == text::views(detected@),
                pairs(upstreams@) == with_services(start, sv, i as nat),
            decreases detected.len() - i,
        {
            assert(sv[i as int] == detected@[i as int]@);
            push_service(&mut upstreams, &detected[i]);
            i += 1;
        }
        if detected.len() == 0 {
            let a = own("backend");
            let b = own("127.0.0.1:8080");
            proof {
                lemma_pairs_push(upstreams@, a, b);
            }
            upstreams.push((a, b));
            assert(pairs(upstreams@) =~= seq![("backend"@, "127.0.0.1:8080"@)]);
        }
    }
    ResolvedInit {
        output: opts.output,
        force: opts.force,
        hostname,
        upstreams,
        http_port: port_given_or(opts.http_port, 80),
        https_port: port_given_or(opts.https_port, 443),
        gen_tls: opts.with_tls,
        cert_path: own("tls/server.crt"),
        key_path: own("tls/server.key"),
        with_waf: opts.with_waf,
    }
}

// ── Interactive ─────────────────────────────────────────────────────────
/// What the operator is asked.
#[derive(Debug)]
pub enum Question {
    /// A text, with what an empty answer stands for.
    Text { label: String, default: String },
    /// Yes or no; an empty answer is a yes.
    YesNo { label: String },
}

#[verifier::ext_equal]
pub enum QuestionV {
    Text(Seq<char>, Seq<char>),
    YesNo(Seq<char>),
}

impl View for Question {
    type V = QuestionV;

    open spec fn view(&self) -> QuestionV {
        match self {
            Question::Text { label, default } => QuestionV::Text(label@, default@),
            Question::YesNo { label } => QuestionV::YesNo(label@),
        }
    }
}

/// What an answer to a question for a text says.
pub open spec fn text_answer(raw: Seq<char>, default: Seq<char>) -> Seq<char> {
    let s = text::trim_of(raw);
    if s.len() == 0 {
        default
    } else {
        s
    }
}

/// What an answer to a yes-or-no question says.
pub open spec fn yes_answer(raw: Seq<char>) -> bool {
    let s = text::lower(text::trim_of(raw));
    s.len() == 0 || s == "y"@ || s == "yes"@
}

pub fn read_text_answer(raw: &str, default: &str) -> (r: String)
    ensures
        r@ == text_answer(raw@, default@),
{
    let s = trim(raw);
    if s.as_str().is_empty() {
        own(default)
    } else {
        s
    }
}

pub fn read_yes_answer(raw: &str) -> (r: bool)
    ensures
        r == yes_answer(raw@),
{
    let s = to_lower(trim(raw).as_str());
    s.as_str().is_empty() || same(s.as_str(), "y") || same(s.as_str(), "yes")
}

/// A port that an upstream given on the command line covers already.
pub open spec fn covers(given: Seq<(Seq<char>, Seq<char>)>, port: u16) -> bool {
    exists|i: int|
        0 <= i < given.len() && text::ends((#[trigger] given[i]).1, ":"@ + text::dec(port as nat))
}

pub open spec fn service_label(s: ServiceV) -> Seq<char> {
    "    use :"@ + text::dec(s.port as nat) + " ("@ + s.hint + ") as upstream \""@ + s.name
        + "\"?"@
}

/// The upstreams and the answers used after the services from `i` on: each that
/// no given upstream covers is offered. Or the question that is still open.
pub open spec fn offered(
    ps: Seq<(Seq<char>, Seq<char>)>,
    given: Seq<(Seq<char>, Seq<char>)>,
    services: Seq<ServiceV>,
    i: int,
    answers: Seq<Seq<char>>,
    k: int,
) -> Result<(Seq<(Seq<char>, Seq<char>)>, int), QuestionV>
    decreases services.len() - i,
{
    if i < 0 || i >= services.len() {
        Ok((ps, k))
    } else if covers(given, services[i].port) {
        offered(ps, given, services, i + 1, answers, k)
    } else if k >= answers.len() {
        Err(QuestionV::YesNo(service_label(services[i])))
    } else if yes_answer(answers[k]) {
        offered(
            ps.push((free_name(ps, services[i].name), local_target(services[i].port))),
            given,
            services,
            i + 1,
            answers,
            k + 1,
        )
    } else {
        offered(ps, given, services, i + 1, answers, k + 1)
    }
}

pub open spec fn has_api(ps: Seq<(Seq<char>, Seq<char>)>) -> bool {
    named(ps, "api"@) || named(ps, "backend"@)
}

/// The `k`-th answer to a question for a text; else the question.
pub open spec fn ask_text(
    answers: Seq<Seq<char>>,
    k: int,
    label: Seq<char>,
    default: Seq<char>,
) -> Result<Seq<char>, QuestionV> {
    if k < answers.len() {
        Ok(text_answer(answers[k], default))
    } else {
        Err(QuestionV::Text(label, default))
    }
}

/// The `k`-th answer to a yes-or-no question; else the question.
pub open spec fn ask_yes(answers: Seq<Seq<char>>, k: int, label: Seq<char>) -> Result<
    bool,
    QuestionV,
> {
    if k < answers.len() {
        Ok(yes_answer(answers[k]))
    } else {
        Err(QuestionV::YesNo(label))
    }
}

/// At least one upstream: the operator is asked for one where none was chosen.
pub open spec fn at_least_one(
    ps: Seq<(Seq<char>, Seq<char>)>,
    answers: Seq<Seq<char>>,
    k: int,
) -> Result<(Seq<(Seq<char>, Seq<char>)>, int), QuestionV> {
    if ps.len() > 0 {
        Ok((ps, k))
    } else {
        match ask_text(answers, k, "upstream target (host:port)"@, "127.0.0.1:8080"@) {
            Ok(t) => Ok((seq![("backend"@, t)], k + 1)),
            Err(q) => Err(q),
        }
    }
}

/// Whether the firewall is wanted, where there is an API route to attach it to.
pub open spec fn waf_choice(
    o: OptsV,
    ps: Seq<(Seq<char>, Seq<char>)>,
    answers: Seq<Seq<char>>,
    k: int,
) -> Result<bool, QuestionV> {
    if o.with_waf && has_api(ps) {
        ask_yes(answers, k, "enable WAF on /api/{*rest} routes?"@)
    } else {
        Ok(false)
    }
}

/// Whether a certificate is wanted, and the answers used.
pub open spec fn tls_choice(o: OptsV, answers: Seq<Seq<char>>, k: int) -> Result<
    (bool, int),
    QuestionV,
> {
    if o.with_tls {
        match ask_yes(answers, k, "generate self-signed TLS certificate?"@) {
            Ok(b) => Ok((b, k + 1)),
            Err(q) => Err(q),
        }
    } else {
        Ok((false, k))
    }
}

/// The ports and the rest, once the upstreams are known.
pub open spec fn finished(
    o: OptsV,
    hostname: Seq<char>,
    ps: Seq<(Seq<char>, Seq<char>)>,
    answers: Seq<Seq<char>>,
    k: int,
) -> Result<InitV, QuestionV> {
    match ask_text(
        answers,
        k,
        "HTTP listen port"@,
        text::dec(given_or(o.http_port, 80) as nat),
    ) {
        Err(q) => Err(q),
        Ok(http) => match ask_text(
            answers,
            k + 1,
            "HTTPS listen port"@,
            text::dec(given_or(o.https_port, 443) as nat),
        ) {
            Err(q) => Err(q),
            Ok(https) => match tls_choice(o, answers, k + 2) {
                Err(q) => Err(q),
                Ok((gen_tls, k)) => match waf_choice(o, ps, answers, k) {
                    Err(q) => Err(q),
                    Ok(with_waf) => Ok(
                        InitV {
                            output: o.output,
                            force: o.force,
                            hostname,
                            upstreams: ps,
                            http_port: port_or(http, 80),
                            https_port: port_or(https, 443),
                            gen_tls,
                            cert_path: "tls/server.crt"@,
                            key_path: "tls/server.key"@,
                            with_waf,
                        },
                    ),
                },
            },
        },
    }
}

/// The configuration that the answers so far make, or the next question.
pub open spec fn interactive_of(o: OptsV, services: Seq<ServiceV>, answers: Seq<Seq<char>>) -> Result<
    InitV,
    QuestionV,
> {
    match ask_text(answers, 0, "hostname Zion will serve"@, host_or_local(o.hostname)) {
        Err(q) => Err(q),
        Ok(hostname) => match offered(o.upstreams, o.upstreams, services, 0, answers, 1) {
            Err(q) => Err(q),
            Ok((ps, k)) => match at_least_one(ps, answers, k) {
                Err(q) => Err(q),
                Ok((ps, k)) => finished(o, hostname, ps, answers, k),
            },
        },
    }
}

fn answer_text(answers: &Vec<String>, k: usize, label: &str, default: &str) -> (r: Result<
    String,
    Question,
>)
    ensures
        match ask_text(text::views(answers@), k as int, label@, default@) {
            Ok(t) => r matches Ok(s) && s@ == t && k < answers.len(),
            Err(q) => r matches Err(e) && e@ == q,
        },
{
    if k < answers.len() {
        assert(text::views(answers@)[k as int] == answers@[k as int]@);
        Ok(read_text_answer(answers[k].as_str(), default))
    } else {
        Err(Question::Text { label: own(label), default: own(default) })
    }
}

fn answer_yes(answers: &Vec<String>, k: usize, label: &str) -> (r: Result<bool, Question>)
    ensures
        match ask_yes(text::views(answers@), k as int, label@) {
            Ok(b) => r matches Ok(x) && x == b && k < answers.len(),
            Err(q) => r matches Err(e) && e@ == q,
        },
{
    if k < answers.len() {
        assert(text::views(answers@)[k as int] == answers@[k as int]@);
        Ok(read_yes_answer(answers[k].as_str()))
    } else {
        Err(Question::YesNo { label: own(label) })
    }
}

fn is_covered(given: &Vec<(String, String)>, port: u16) -> (r: bool)
    ensures
        r == covers(pairs(given@), port),
{
    let ghost gv = pairs(given@);
    let suffix = cat2(":", dec_text(port as u64).as_str());
    let mut i: usize = 0;
    while i < given.len()
        invariant
            i <= given.len(),
            gv == pairs(given@),
            suffix@ == ":"@ + text::dec(port as nat),
            forall|j: int|
                0 <= j < i ==> !text::ends((#[trigger] gv[j]).1, ":"@ + text::dec(port as nat)),
        decreases given.len() - i,
    {
        assert(gv[i as int].1 == given@[i as int].1@);
        if ends_with(given[i].1.as_str(), suffix.as_str()) {
            return true;
        }
        i += 1;
    }
    false
}

fn offer(
    given: &Vec<(String, String)>,
    services: &Vec<DetectedService>,
    answers: &Vec<String>,
) -> (r: Result<(Vec<(String, String)>, usize), Question>)
    requires
        answers.len() >= 1,
    ensures
        match offered(
            pairs(given@),
            pairs(given@),
            text::views(services@),
            0,
            text::views(answers@),
            1,
        ) {
            Ok((ps, k)) => r matches Ok((v, n)) && pairs(v@) == ps && n == k && n
                <= answers.len(),
            Err(q) => r matches Err(e) && e@ == q,
        },
{
    let ghost gv = pairs(given@);
    let ghost sv = text::views(services@);
    let ghost av = text::views(answers@);
    let mut out = own_pairs(given);
    let mut k: usize = 1;
    let mut i: usize = 0;
    while i < services.len()
        invariant
            i <= services.len(),
            1 <= k <= answers.len(),
            gv == pairs(given@),
            sv == text::views(services@),
            av == text::views(answers@),
            offered(gv, gv, sv, 0, av, 1) == offered(
                pairs(out@),
                gv,
                sv,
                i as int,
                av,
                k as int,
            ),
        decreases services.len() - i,
    {
        assert(sv[i as int] == services@[i as int]@);
        let d = &services[i];
        if !is_covered(given, d.port) {
            let label = cat7(
                "    use :",
                dec_text(d.port as u64).as_str(),
                " (",
                d.hint,
                ") as upstream \"",
                d.suggested_name,
                "\"?",
            );
            match answer_yes(answers, k, label.as_str()) {
                Err(q) => {
                    return Err(q);
                },
                Ok(true) => {
                    push_service(&mut out, d);
                    k += 1;
                },
                Ok(false) => {
                    k += 1;
                },
            }
        }
        i += 1;
    }
    Ok((out, k))
}

fn choose_tls(opts: &InitOpts, answers: &Vec<String>, k: usize) -> (r: Result<
    (bool, usize),
    Question,
>)
    ensures
        match tls_choice(opts@, text::views(answers@), k as int) {
            Ok((b, n)) => r matches Ok((x, m)) && x == b && m == n,
            Err(q) => r matches Err(e) && e@ == q,
        },
{
    if !opts.with_tls {
        return Ok((false, k));
    }
    match answer_yes(answers, k, "generate self-signed TLS certificate?") {
        Ok(b) => Ok((b, k + 1)),
        Err(q) => Err(q),
    }
}

fn choose_waf(
    opts: &InitOpts,
    upstreams: &Vec<(String, String)>,
    answers: &Vec<String>,
    k: usize,
) -> (r: Result<bool, Question>)
    ensures
        match waf_choice(opts@, pairs(upstreams@), text::views(answers@), k as int) {
            Ok(b) => r matches Ok(x) && x == b,
            Err(q) => r matches Err(e) && e@ == q,
        },
{
    if opts.with_waf && (is_named(upstreams, "api") || is_named(upstreams, "backend")) {
        answer_yes(answers, k, "enable WAF on /api/{*rest} routes?")
    } else {
        Ok(false)
    }
}

fn finish(
    opts: &InitOpts,
    hostname: String,
    upstreams: Vec<(String, String)>,
    answers: &Vec<String>,
    k: usize,
) -> (r: Result<ResolvedInit, Question>)
    requires
        k <= answers.len(),
    ensures
        match finished(
            opts@,
            hostname@,
            pairs(upstreams@),
            text::views(answers@),
            k as int,
        ) {
            Ok(v) => r matches Ok(x) && x@ == v,
            Err(q) => r matches Err(e) && e@ == q,
        },
{
    let http = match answer_text(
        answers,
        k,
        "HTTP listen port",
        port_default(opts.http_port, 80).as_str(),
    ) {
        Ok(s) => s,
        Err(q) => {
            return Err(q);
        },
    };
    let https = match answer_text(
        answers,
        k + 1,
        "HTTPS listen port",
        port_default(opts.https_port, 443).as_str(),
    ) {
        Ok(s) => s,
        Err(q) => {
            return Err(q);
        },
    };
    let (gen_tls, k) = match choose_tls(opts, answers, k + 2) {
        Ok(c) => c,
        Err(q) => {
            return Err(q);
        },
    };
    let with_waf = match choose_waf(opts, &upstreams, answers, k) {
        Ok(b) => b,
        Err(q) => {
            return Err(q);
        },
    };
    Ok(
        ResolvedInit {
            output: own(opts.output.as_str()),
            force: opts.force,
            hostname,
            upstreams,
            http_port: parse_port(http, 80),
            https_port: parse_port(https, 443),
            gen_tls,
            cert_path: own("tls/server.crt"),
            key_path: own("tls/server.key"),
            with_waf,
        },
    )
}

/// Builds the configuration from the operator's answers so far, or asks the
/// next question.
pub fn build_interactive(
    opts: &InitOpts,
    detected: &Vec<DetectedService>,
    answers: &Vec<String>,
) -> (r: Result<ResolvedInit, Question>)
    ensures
        match interactive_of(opts@, text::views(detected@), text::views(answers@)) {
            Ok(v) => r matches Ok(x) && x@ == v,
            Err(q) => r matches Err(e) && e@ == q,
        },
{
    let host = default_host(&opts.hostname);
    let hostname = match answer_text(answers, 0, "hostname Zion will serve", host.as_str()) {
        Ok(s) => s,
        Err(q) => {
            return Err(q);
        },
    };
    let (mut upstreams, k) = match offer(&opts.upstreams, detected, answers) {
        Ok(c) => c,
        Err(q) => {
            return Err(q);
        },
    };
    if upstreams.len() > 0 {
        return finish(opts, hostname, upstreams, answers, k);
    }
    match answer_text(answers, k, "upstream target (host:port)", "127.0.0.1:8080") {
        Err(q) => Err(q),
        Ok(target) => {
            let name = own("backend");
            proof {
                lemma_pairs_push(upstreams@, name, target);
            }
            let ghost t = target@;
            upstreams.push((name, target));
            assert(pairs(upstreams@) =~= seq![("backend"@, t)]);
            finish(opts, hostname, upstreams, answers, k + 1)
        },
    }
}

/// What is shown between the last answer and the next question: a blank line
/// before the first, what the services are offered with, that no upstream was
/// chosen, and a blank line before the ports.
pub open spec fn lead_of(
    o: OptsV,
    services: Seq<ServiceV>,
    answers: Seq<Seq<char>>,
    s: Style,
) -> Seq<char> {
    let n = answers.len();
    if n == 0 {
        "\n"@
    } else {
        let head = if n == 1 && services.len() > 0 {
            screen::offer_text(s)
        } else {
            ""@
        };
        match offered(o.upstreams, o.upstreams, services, 0, answers, 1) {
            Err(_) => head,
            Ok((ps, k)) => {
                let told = if ps.len() == 0 && k == n {
                    head + screen::none_chosen_text(s)
                } else {
                    head
                };
                match at_least_one(ps, answers, k) {
                    Ok((_, next)) if next == n => told + "\n"@,
                    _ => told,
                }
            },
        }
    }
}

/// What stands above the next question.
pub fn lead_screen(
    opts: &InitOpts,
    detected: &Vec<DetectedService>,
    answers: &Vec<String>,
    s: &Style,
) -> (r: String)
    ensures
        r@ == lead_of(opts@, text::views(detected@), text::views(answers@), *s),
{
    if answers.len() == 0 {
        return own("\n");
    }
    let mut out = if answers.len() == 1 && detected.len() > 0 {
        screen::offer_screen(s)
    } else {
        own("")
    };
    match offer(&opts.upstreams, detected, answers) {
        Err(_) => {},
        Ok((upstreams, k)) => {
            let next: usize = if upstreams.len() > 0 {
                k
            } else {
                if k == answers.len() {
                    out.append(screen::none_chosen_screen(s).as_str());
                    return out;
                }
                k + 1
            };
            if next == answers.len() {
                out.append("\n");
            }
        },
    }
    out
}

// ── Laws ────────────────────────────────────────────────────────────────
/// The operator is told that no upstream was chosen exactly where one is asked
/// for: the question and the telling come together.
pub proof fn law_missing_upstream_is_told(
    o: OptsV,
    services: Seq<ServiceV>,
    answers: Seq<Seq<char>>,
    s: Style,
)
    requires
        answers.len() > 0,
        offered(o.upstreams, o.upstreams, services, 0, answers, 1) matches Ok((ps, k)) && ps.len()
            == 0 && k == answers.len(),
    ensures
        interactive_of(o, services, answers) == Err::<InitV, QuestionV>(
            QuestionV::Text("upstream target (host:port)"@, "127.0.0.1:8080"@),
        ),
        text::ends(lead_of(o, services, answers, s), screen::none_chosen_text(s)),
{
    let lead = lead_of(o, services, answers, s);
    let t = screen::none_chosen_text(s);
    assert(lead.subrange(lead.len() - t.len(), lead.len() as int) =~= t);
}

/// A proposed name is kept where it is free, and a made-up one is free too
/// unless all of them are taken.
pub proof fn law_unique_name_is_free(ps: Seq<(Seq<char>, Seq<char>)>, name: Seq<char>)
    ensures
        !named(ps, free_name(ps, name)) || (named(ps, name) && forall|i: nat|
            2 <= i < 100 ==> named(ps, name + #[trigger] text::dec(i))),
{
    if named(ps, name) {
        lemma_numbered(ps, name, 2);
    }
}

proof fn lemma_numbered(ps: Seq<(Seq<char>, Seq<char>)>, name: Seq<char>, i: nat)
    requires
        i <= 100,
        named(ps, name),
    ensures
        !named(ps, numbered(ps, name, i)) || forall|j: nat|
            i <= j < 100 ==> named(ps, name + #[trigger] text::dec(j)),
    decreases 100 - i,
{
    if i < 100 && named(ps, name + text::dec(i)) {
        lemma_numbered(ps, name, i + 1);
    }
}

/// A configuration always has an upstream, whether asked for or not.
pub proof fn law_there_is_an_upstream(o: OptsV, services: Seq<ServiceV>, answers: Seq<Seq<char>>)
    ensures
        non_interactive_of(o, services).upstreams.len() > 0,
        interactive_of(o, services, answers) matches Ok(v) ==> v.upstreams.len() > 0,
{
    if o.upstreams.len() == 0 && services.len() > 0 {
        assert(with_services(o.upstreams, services, services.len()).len() > 0);
    }
}

/// An answer beyond those that were needed changes nothing: a configuration
/// that is complete stays as it is.
pub proof fn law_extra_answers_change_nothing(
    o: OptsV,
    services: Seq<ServiceV>,
    answers: Seq<Seq<char>>,
    more: Seq<Seq<char>>,
)
    requires
        interactive_of(o, services, answers) is Ok,
    ensures
        interactive_of(o, services, answers + more) == interactive_of(o, services, answers),
{
    lemma_offered_prefix(o.upstreams, o.upstreams, services, 0, answers, 1, more);
    assert(answers.len() > 0);
    assert((answers + more)[0] == answers[0]);
    let (ps, k) = offered(o.upstreams, o.upstreams, services, 0, answers, 1)->Ok_0;
    let (ps2, k2) = at_least_one(ps, answers, k)->Ok_0;
    if ps.len() == 0 {
        assert((answers + more)[k] == answers[k]);
    }
    assert((answers + more)[k2] == answers[k2]);
    assert((answers + more)[k2 + 1] == answers[k2 + 1]);
    if o.with_tls {
        assert((answers + more)[k2 + 2] == answers[k2 + 2]);
        if o.with_waf && has_api(ps2) {
            assert((answers + more)[k2 + 3] == answers[k2 + 3]);
        }
    } else if o.with_waf && has_api(ps2) {
        assert((answers + more)[k2 + 2] == answers[k2 + 2]);
    }
}

proof fn lemma_offered_prefix(
    ps: Seq<(Seq<char>, Seq<char>)>,
    given: Seq<(Seq<char>, Seq<char>)>,
    services: Seq<ServiceV>,
    i: int,
    answers: Seq<Seq<char>>,
    k: int,
    more: Seq<Seq<char>>,
)
    requires
        0 <= i,
        0 <= k,
        offered(ps, given, services, i, answers, k) is Ok,
    ensures
        offered(ps, given, services, i, answers + more, k) == offered(
            ps,
            given,
            services,
            i,
            answers,
            k,
        ),
        offered(ps, given, services, i, answers, k)->Ok_0.1 >= k,
    decreases services.len() - i,
{
    if i < services.len() {
        if covers(given, services[i].port) {
            lemma_offered_prefix(ps, given, services, i + 1, answers, k, more);
        } else {
            assert((answers + more)[k] == answers[k]);
            if yes_answer(answers[k]) {
                lemma_offered_prefix(
                    ps.push((free_name(ps, services[i].name), local_target(services[i].port))),
                    given,
                    services,
                    i + 1,
                    answers,
                    k + 1,
                    more,
                );
            } else {
                lemma_offered_prefix(ps, given, services, i + 1, answers, k + 1, more);
            }
        }
    }
}

} // verus!
