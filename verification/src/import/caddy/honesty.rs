//! What the report owes to the operator of a Caddyfile: no directive of a site
//! is passed over in silence.
use super::header;
use super::reader;
use super::reader::FileV;
use super::site;
use super::site::{SiteStateV, StaticV};
use super::tls;
use super::tls::StateV;
use super::vars;
use crate::import;
use crate::import::caddy;
use crate::import::env::{InterV, VarV};
use crate::import::honesty;
use crate::import::nginx::Dir;
use crate::import::Note;
use vstd::prelude::*;

verus! {

// ── Notes stay ──────────────────────────────────────────────────────────
proof fn lemma_fields(block: Seq<Dir>, n: nat, notes: Seq<Note>)
    ensures
        honesty::grown(notes, header::fields_noted(block, n, notes)),
    decreases n,
{
    if n > 0 {
        lemma_fields(block, (n - 1) as nat, notes);
    }
}

proof fn lemma_header(d: Dir, notes: Seq<Note>)
    ensures
        honesty::grown(notes, header::header_of(d, notes).1),
{
    if let Some(block) = d.block {
        lemma_fields(block, block.len(), notes);
    }
}

/// A note on an option of a `tls` block.
pub open spec fn on_option(n: Note, d: Dir) -> bool {
    n.line == d.line && n.directive == "tls."@ + d.name
}

/// One of the notes is on the option.
pub open spec fn option_reported(notes: Seq<Note>, d: Dir) -> bool {
    exists|j: int| 0 <= j < notes.len() && on_option(#[trigger] notes[j], d)
}

proof fn lemma_option_grown(a: Seq<Note>, b: Seq<Note>, d: Dir)
    requires
        honesty::grown(a, b),
        option_reported(a, d),
    ensures
        option_reported(b, d),
{
    let j = choose|j: int| 0 <= j < a.len() && on_option(#[trigger] a[j], d);
    assert(on_option(b[j], d));
}

proof fn lemma_tls_options(st: StateV, block: Seq<Dir>, n: nat, files: bool)
    requires
        n <= block.len(),
    ensures
        honesty::grown(st.notes, tls::options_step(st, block, n, files).notes),
        forall|i: int|
            0 <= i < n ==> option_reported(
                tls::options_step(st, block, n, files).notes,
                #[trigger] block[i],
            ),
    decreases n,
{
    if n > 0 {
        let k = (n - 1) as nat;
        lemma_tls_options(st, block, k, files);
        let a = tls::options_step(st, block, k, files).notes;
        let b = tls::options_step(st, block, n, files).notes;
        assert(honesty::grown(a, b));
        assert forall|i: int| 0 <= i < n implies option_reported(b, #[trigger] block[i]) by {
            if i < k {
                lemma_option_grown(a, b, block[i]);
            } else {
                reveal_strlit("tls.");
                reveal_strlit("protocols");
                reveal_strlit("tls.protocols");
                assert("tls.protocols"@ =~= "tls."@ + "protocols"@);
                assert(on_option(b[a.len() as int], block[i]));
            }
        }
    }
}

/// Every option of a `tls` block is reported on its line; what was told before
/// stays.
pub proof fn law_tls_options_are_told(st: StateV, d: Dir)
    ensures
        honesty::grown(st.notes, tls::tls_step(st, d).notes),
        d.block is Some ==> forall|i: int|
            0 <= i < d.block->0.len() ==> option_reported(
                tls::tls_step(st, d).notes,
                #[trigger] d.block->0[i],
            ),
{
    let bare = Dir { block: None, ..d };
    let p = tls::tls_step(st, bare);
    assert(honesty::grown(st.notes, p.notes));
    if let Some(block) = d.block {
        lemma_tls_options(p, block, block.len(), tls::explicit_cert(d));
    }
}

proof fn lemma_resolve(
    st: InterV,
    raw: Seq<char>,
    p: int,
    vars: Seq<VarV>,
    line: int,
    ctx: Seq<char>,
)
    ensures
        ({
            let r = vars::resolve_from(st, raw, p, vars, line, ctx);
            &&& honesty::grown(st.notes, r.notes)
            &&& r.ok == (st.ok && r.notes.len() == st.notes.len())
        }),
    decreases raw.len() - p,
{
    if p < 0 || p >= raw.len() {
    } else if raw[p] == '{' && p + 1 < raw.len() && raw[p + 1] == '$' {
        let e = crate::text::index_of(raw, '}', p + 2);
        if p + 2 <= e < raw.len() {
            let inner = raw.subrange(p + 2, e);
            let next = match vars::placeholder_value(vars, inner) {
                Some(v) => InterV { out: st.out + v, ..st },
                None => InterV {
                    ok: false,
                    notes: st.notes.push(
                        vars::unresolved_note(vars::name_and_default(inner).0, line, ctx),
                    ),
                    ..st
                },
            };
            lemma_resolve(next, raw, e + 1, vars, line, ctx);
            let r = vars::resolve_from(st, raw, p, vars, line, ctx);
            assert forall|i: int| 0 <= i < st.notes.len() implies #[trigger] st.notes[i]
                == r.notes[i] by {
                assert(next.notes[i] == st.notes[i]);
            }
        }
    } else {
        lemma_resolve(InterV { out: st.out.push(raw[p]), ..st }, raw, p + 1, vars, line, ctx);
    }
}

/// A text comes out only where all its variables are known; where one is not,
/// nothing is made up, and a note says so.
pub proof fn law_unresolved_variables_are_told(
    raw: Seq<char>,
    vars: Seq<VarV>,
    line: int,
    ctx: Seq<char>,
    notes: Seq<Note>,
)
    ensures
        ({
            let (out, after) = vars::resolved(raw, vars, line, ctx, notes);
            &&& honesty::grown(notes, after)
            &&& out is Some <==> after.len() == notes.len()
        }),
{
    lemma_resolve(InterV { out: seq![], ok: true, notes }, raw, 0, vars, line, ctx);
}

proof fn lemma_urls(
    targets: Seq<Seq<char>>,
    n: nat,
    vars: Seq<VarV>,
    line: int,
    notes: Seq<Note>,
)
    ensures
        ({
            let (urls, after) = site::urls_of(targets, n, vars, line, notes);
            &&& honesty::grown(notes, after)
            &&& urls is None ==> after.len() > notes.len()
        }),
    decreases n,
{
    if n > 0 {
        lemma_urls(targets, (n - 1) as nat, vars, line, notes);
        let (urls, told) = site::urls_of(targets, (n - 1) as nat, vars, line, notes);
        law_unresolved_variables_are_told(targets[n - 1], vars, line, "reverse_proxy"@, told);
    }
}

proof fn lemma_policy(csp: Option<Seq<char>>, block: Seq<Dir>, n: nat, notes: Seq<Note>)
    requires
        n <= block.len(),
    ensures
        honesty::grown(notes, site::handler_policy(csp, block, n, notes).1),
        forall|i: int|
            #![trigger site::unread(block, i)]
            0 <= i < n && site::unread(block, i) ==> honesty::reported(
                site::handler_policy(csp, block, n, notes).1,
                block[i],
            ),
    decreases n,
{
    if n > 0 {
        let k = (n - 1) as nat;
        lemma_policy(csp, block, k, notes);
        let a = site::handler_policy(csp, block, k, notes).1;
        let b = site::handler_policy(csp, block, n, notes).1;
        lemma_header(block[k as int], a);
        assert(honesty::grown(a, b));
        assert forall|i: int|
            #![trigger site::unread(block, i)]
            0 <= i < n && site::unread(block, i) implies honesty::reported(b, block[i]) by {
            if i < k {
                honesty::lemma_reported_grown(a, b, block[i]);
            } else {
                assert(honesty::on(b[a.len() as int], block[i]));
            }
        }
    }
}

proof fn lemma_options(block: Seq<Dir>, n: nat, notes: Seq<Note>)
    requires
        n <= block.len(),
    ensures
        honesty::grown(notes, site::options_told(block, n, notes)),
        forall|i: int|
            0 <= i < n ==> honesty::reported(
                site::options_told(block, n, notes),
                #[trigger] block[i],
            ),
    decreases n,
{
    if n > 0 {
        let k = (n - 1) as nat;
        lemma_options(block, k, notes);
        let a = site::options_told(block, k, notes);
        let b = site::options_told(block, n, notes);
        assert(honesty::grown(a, b));
        assert forall|i: int| 0 <= i < n implies honesty::reported(b, #[trigger] block[i]) by {
            if i < k {
                honesty::lemma_reported_grown(a, b, block[i]);
            } else {
                assert(honesty::on(b[a.len() as int], block[i]));
            }
        }
    }
}

/// A `reverse_proxy` leaves a note, and one on each of its options.
proof fn lemma_proxy(
    st: StateV,
    rp: Dir,
    path: Seq<char>,
    hosts: Seq<Seq<char>>,
    csp: Option<Seq<char>>,
    vars: Seq<VarV>,
    d: Dir,
)
    ensures
        ({
            let a = site::proxy_step(st, rp, path, hosts, csp, vars);
            &&& honesty::grown(st.notes, a.notes)
            &&& a.notes.len() > st.notes.len()
            &&& rp.block is Some && rp.block->0.contains(d) ==> honesty::reported(a.notes, d)
        }),
{
    let a = site::proxy_step(st, rp, path, hosts, csp, vars);
    let told = site::all_options_told(rp.block, st.notes);
    if let Some(block) = rp.block {
        lemma_options(block, block.len(), st.notes);
    }
    let targets = site::targets_of(rp.args, rp.args.len());
    lemma_urls(targets, targets.len(), vars, rp.line, told);
    assert(honesty::grown(told, a.notes));
    if rp.block is Some && rp.block->0.contains(d) {
        let block = rp.block->0;
        let i = choose|i: int| 0 <= i < block.len() && block[i] == d;
        assert(honesty::reported(told, block[i]));
        honesty::lemma_reported_grown(told, a.notes, d);
    }
}

// ── Sites ───────────────────────────────────────────────────────────────
/// A directive that bears a route leaves a note, whether it becomes one or not.
pub proof fn law_route_bearing_directive_is_told(
    st: StateV,
    d: Dir,
    hosts: Seq<Seq<char>>,
    csp: Option<Seq<char>>,
    vars: Seq<VarV>,
)
    ensures
        ({
            let a = site::handle_step(st, d, hosts, csp, vars);
            honesty::grown(st.notes, a.notes) && a.notes.len() > st.notes.len()
        }),
        ({
            let a = site::reverse_proxy_step(st, d, hosts, csp, vars);
            honesty::grown(st.notes, a.notes) && a.notes.len() > st.notes.len()
        }),
{
    let matcher = if d.args.len() > 0 {
        Some(d.args[0])
    } else {
        None
    };
    let own = if d.args.len() > 0 && site::matcher_word(d.args[0]) {
        Some(d.args[0])
    } else {
        None
    };
    lemma_proxy(st, d, site::matcher_path(own), hosts, csp, vars, d);
    if let Some(block) = d.block {
        lemma_policy(csp, block, block.len(), st.notes);
        let (own_csp, told) = site::handler_policy(csp, block, block.len(), st.notes);
        if let Some(rp) = tls::find_dir(block, "reverse_proxy"@) {
            let p = StateV { notes: told, ..st };
            lemma_proxy(p, rp, site::matcher_path(matcher), hosts, own_csp, vars, d);
        }
    }
}

/// A directive that is read as a route: it has no named matcher.
pub open spec fn plainly_matched(d: Dir) -> bool {
    d.args.len() > 0 ==> !crate::text::begins(d.args[0], '@')
}

/// A handler that is gone through: none of its directives answers by itself.
pub open spec fn handler(d: Dir) -> bool {
    &&& d.name == "handle"@ || d.name == "route"@
    &&& plainly_matched(d)
    &&& d.block is Some
    &&& site::first_answering(d.block->0, 0) >= d.block->0.len()
}

/// A directive below a route-bearing one that is not converted: in a handler,
/// what is neither a `header` nor the first `reverse_proxy`, and below a
/// `reverse_proxy`, each of its options.
pub open spec fn left_below(h: Dir, d: Dir) -> bool {
    ||| {
        &&& handler(h)
        &&& exists|i: int|
            0 <= i < h.block->0.len() && #[trigger] site::unread(h.block->0, i) && h.block->0[i] == d
    }
    ||| {
        &&& handler(h)
        &&& tls::find_dir(h.block->0, "reverse_proxy"@) matches Some(rp) && rp.block is Some
            && rp.block->0.contains(d)
    }
    ||| {
        &&& h.name == "reverse_proxy"@
        &&& plainly_matched(h)
        &&& h.block is Some
        &&& h.block->0.contains(d)
    }
}

proof fn lemma_route_names()
    ensures
        "reverse_proxy"@ != "handle"@,
        "reverse_proxy"@ != "route"@,
{
    reveal_strlit("handle");
    reveal_strlit("route");
    reveal_strlit("reverse_proxy");
    assert("handle"@.len() == 6);
    assert("route"@.len() == 5);
    assert("reverse_proxy"@.len() == 13);
}

/// What is not converted below a route-bearing directive is reported on its line
/// and under its name.
pub proof fn law_left_below_is_told(
    st: StateV,
    h: Dir,
    d: Dir,
    hosts: Seq<Seq<char>>,
    csp: Option<Seq<char>>,
    vars: Seq<VarV>,
)
    requires
        left_below(h, d),
    ensures
        handler(h) ==> honesty::reported(site::handle_step(st, h, hosts, csp, vars).notes, d),
        h.name == "reverse_proxy"@ ==> honesty::reported(
            site::reverse_proxy_step(st, h, hosts, csp, vars).notes,
            d,
        ),
{
    lemma_route_names();
    let block = h.block->0;
    if handler(h) {
        let matcher = if h.args.len() > 0 {
            Some(h.args[0])
        } else {
            None
        };
        let a = site::handle_step(st, h, hosts, csp, vars);
        lemma_policy(csp, block, block.len(), st.notes);
        let (own_csp, told) = site::handler_policy(csp, block, block.len(), st.notes);
        if let Some(rp) = tls::find_dir(block, "reverse_proxy"@) {
            let p = StateV { notes: told, ..st };
            lemma_proxy(p, rp, site::matcher_path(matcher), hosts, own_csp, vars, d);
        }
        assert(honesty::grown(told, a.notes));
        if exists|i: int| 0 <= i < block.len() && #[trigger] site::unread(block, i) && block[i] == d {
            honesty::lemma_reported_grown(told, a.notes, d);
        }
    } else {
        let own = if h.args.len() > 0 && site::matcher_word(h.args[0]) {
            Some(h.args[0])
        } else {
            None
        };
        lemma_proxy(st, h, site::matcher_path(own), hosts, csp, vars, d);
    }
}

/// A site directive that is told of by its own name.
pub open spec fn told_by_name(name: Seq<char>) -> bool {
    &&& name != "header"@
    &&& name != "tls"@
    &&& name != "handle"@
    &&& name != "route"@
    &&& name != "reverse_proxy"@
}

proof fn lemma_first_pass_grows(s: SiteStateV, body: Seq<Dir>, n: nat, files: Option<StaticV>)
    requires
        0 < n <= body.len(),
    ensures
        honesty::grown(
            site::first_pass(s, body, (n - 1) as nat, files).st.notes,
            site::first_pass(s, body, n, files).st.notes,
        ),
{
    let a = site::first_pass(s, body, (n - 1) as nat, files);
    let d = body[n - 1];
    lemma_header(d, a.st.notes);
    law_tls_options_are_told(a.st, d);
}

proof fn lemma_first_pass(s: SiteStateV, body: Seq<Dir>, n: nat, files: Option<StaticV>)
    requires
        n <= body.len(),
    ensures
        ({
            let r = site::first_pass(s, body, n, files);
            &&& honesty::grown(s.st.notes, r.st.notes)
            &&& forall|i: int|
                0 <= i < n && told_by_name((#[trigger] body[i]).name) ==> honesty::reported(
                    r.st.notes,
                    body[i],
                )
        }),
    decreases n,
{
    if n > 0 {
        let k = (n - 1) as nat;
        lemma_first_pass(s, body, k, files);
        let a = site::first_pass(s, body, k, files);
        let b = site::first_pass(s, body, n, files);
        let d = body[k as int];
        lemma_header(d, a.st.notes);
        law_tls_options_are_told(a.st, d);
        assert(honesty::grown(a.st.notes, b.st.notes));
        assert forall|i: int|
            0 <= i < n && told_by_name((#[trigger] body[i]).name) implies honesty::reported(
            b.st.notes,
            body[i],
        ) by {
            if i < k {
                honesty::lemma_reported_grown(a.st.notes, b.st.notes, body[i]);
            } else {
                assert(honesty::on(b.st.notes[a.st.notes.len() as int], d));
            }
        }
    }
}

/// One of the first `n` directives has the directive below it, unconverted.
pub open spec fn left_in(body: Seq<Dir>, n: nat, d: Dir) -> bool {
    exists|i: int| 0 <= i < n && left_below(#[trigger] body[i], d)
}

proof fn lemma_second_pass(
    st: StateV,
    body: Seq<Dir>,
    n: nat,
    hosts: Seq<Seq<char>>,
    csp: Option<Seq<char>>,
    vars: Seq<VarV>,
    d: Dir,
)
    requires
        n <= body.len(),
    ensures
        honesty::grown(st.notes, site::second_pass(st, body, n, hosts, csp, vars).notes),
        left_in(body, n, d) ==> honesty::reported(
            site::second_pass(st, body, n, hosts, csp, vars).notes,
            d,
        ),
    decreases n,
{
    if n > 0 {
        let k = (n - 1) as nat;
        lemma_second_pass(st, body, k, hosts, csp, vars, d);
        let a = site::second_pass(st, body, k, hosts, csp, vars);
        let b = site::second_pass(st, body, n, hosts, csp, vars);
        law_route_bearing_directive_is_told(a, body[k as int], hosts, csp, vars);
        if left_in(body, k, d) {
            honesty::lemma_reported_grown(a.notes, b.notes, d);
        } else if left_in(body, n, d) {
            assert(left_below(body[k as int], d));
            lemma_route_names();
            law_left_below_is_told(a, body[k as int], d, hosts, csp, vars);
        }
    }
}

proof fn lemma_site(
    st: StateV,
    body: Seq<Dir>,
    hosts: Seq<Seq<char>>,
    vars: Seq<VarV>,
    global: Option<Seq<char>>,
    cli: Option<Seq<char>>,
    d: Dir,
)
    ensures
        ({
            let r = site::site_step(st, body, hosts, vars, global, cli);
            &&& honesty::grown(st.notes, r.notes)
            &&& left_in(body, body.len(), d) ==> honesty::reported(r.notes, d)
            &&& forall|i: int|
                0 <= i < body.len() && told_by_name((#[trigger] body[i]).name)
                    ==> honesty::reported(r.notes, body[i])
        }),
{
    let files = site::static_of(body);
    let s0 = SiteStateV { csp: None, st };
    let f = site::first_pass(s0, body, body.len(), files);
    lemma_first_pass(s0, body, body.len(), files);
    lemma_second_pass(f.st, body, body.len(), hosts, f.csp, vars, d);
    let routed = site::second_pass(f.st, body, body.len(), hosts, f.csp, vars);
    let served = site::static_step(routed, files, hosts, f.csp);
    assert(honesty::grown(routed.notes, served.notes));
    let r = site::site_step(st, body, hosts, vars, global, cli);
    assert(honesty::grown(served.notes, r.notes));
    assert(honesty::grown(f.st.notes, r.notes));
    if left_in(body, body.len(), d) {
        honesty::lemma_reported_grown(routed.notes, r.notes, d);
    }
    assert forall|i: int|
        0 <= i < body.len() && told_by_name((#[trigger] body[i]).name) implies honesty::reported(
        r.notes,
        body[i],
    ) by {
        honesty::lemma_reported_grown(f.st.notes, r.notes, body[i]);
    }
}

/// A note on a `tls` directive.
pub open spec fn on_tls(n: Note, d: Dir) -> bool {
    n.line == d.line && (n.directive == "tls <cert> <key>"@ || n.directive == "tls (ACME)"@)
}

proof fn lemma_explicit_told(s: SiteStateV, body: Seq<Dir>, n: nat, files: Option<StaticV>, i: int)
    requires
        0 <= i < n <= body.len(),
        body[i].name == "tls"@,
        tls::explicit_cert(body[i]),
    ensures
        ({
            let after = site::first_pass(s, body, n, files).st.notes;
            exists|j: int| 0 <= j < after.len() && on_tls(#[trigger] after[j], body[i])
        }),
    decreases n,
{
    let k = (n - 1) as nat;
    let a = site::first_pass(s, body, k, files).st.notes;
    let b = site::first_pass(s, body, n, files).st.notes;
    reveal_strlit("tls");
    reveal_strlit("header");
    assert("tls"@.len() == 3);
    assert("header"@.len() == 6);
    if i < k {
        lemma_explicit_told(s, body, k, files, i);
        lemma_first_pass_grows(s, body, n, files);
        let j = choose|j: int| 0 <= j < a.len() && on_tls(#[trigger] a[j], body[i]);
        assert(on_tls(b[j], body[i]));
    } else {
        let st = site::first_pass(s, body, k, files).st;
        let bare = Dir { block: None, ..body[i] };
        let p = tls::tls_step(st, bare);
        if let Some(block) = body[i].block {
            lemma_tls_options(p, block, block.len(), true);
        }
        assert(on_tls(p.notes[a.len() as int], body[i]));
        assert(honesty::grown(p.notes, b));
        assert(on_tls(b[a.len() as int], body[i]));
    }
}

/// Each `tls` directive that names certificate files is reported on its line, and
/// so is the first of a site, whatever it asks for.
pub proof fn law_tls_directive_is_told(
    st: StateV,
    body: Seq<Dir>,
    hosts: Seq<Seq<char>>,
    vars: Seq<VarV>,
    global: Option<Seq<char>>,
    cli: Option<Seq<char>>,
    i: int,
)
    requires
        0 <= i < body.len(),
        body[i].name == "tls"@,
        tls::explicit_cert(body[i]) || i == tls::first_named(body, "tls"@, 0),
    ensures
        ({
            let after = site::site_step(st, body, hosts, vars, global, cli).notes;
            exists|j: int| 0 <= j < after.len() && on_tls(#[trigger] after[j], body[i])
        }),
{
    let files = site::static_of(body);
    let s0 = SiteStateV { csp: None, st };
    let f = site::first_pass(s0, body, body.len(), files);
    let routed = site::second_pass(f.st, body, body.len(), hosts, f.csp, vars);
    let served = site::static_step(routed, files, hosts, f.csp);
    let after = site::site_step(st, body, hosts, vars, global, cli).notes;
    lemma_second_pass(f.st, body, body.len(), hosts, f.csp, vars, body[i]);
    assert(honesty::grown(routed.notes, served.notes));
    assert(honesty::grown(served.notes, after));
    if tls::explicit_cert(body[i]) {
        lemma_explicit_told(s0, body, body.len(), files, i);
        let told = f.st.notes;
        let j = choose|j: int| 0 <= j < told.len() && on_tls(#[trigger] told[j], body[i]);
        assert(honesty::grown(told, after));
        assert(on_tls(after[j], body[i]));
    } else {
        assert(on_tls(after[served.notes.len() as int], body[i]));
    }
}

proof fn lemma_hosts(
    addresses: Seq<Seq<char>>,
    n: nat,
    line: int,
    vars: Seq<VarV>,
    notes: Seq<Note>,
)
    ensures
        honesty::grown(notes, site::hosts_of(addresses, n, line, vars, notes).1),
    decreases n,
{
    if n > 0 {
        lemma_hosts(addresses, (n - 1) as nat, line, vars, notes);
        law_unresolved_variables_are_told(
            addresses[n - 1],
            vars,
            line,
            "site address"@,
            site::hosts_of(addresses, (n - 1) as nat, line, vars, notes).1,
        );
    }
}

/// The directives of a site, imports inlined.
pub open spec fn site_body(f: FileV, k: int) -> Seq<Dir> {
    caddy::expanded(f.sites[k].body, f.sites[k].body.len(), f.snippets)
}

/// A directive of one of the first `n` sites that is told of by its own name.
pub open spec fn in_site(f: FileV, n: nat, d: Dir) -> bool {
    told_by_name(d.name) && exists|k: int| 0 <= k < n && (#[trigger] site_body(f, k)).contains(d)
}

/// A directive that stands, unconverted, below one of the first `n` sites'.
pub open spec fn left_in_site(f: FileV, n: nat, d: Dir) -> bool {
    exists|k: int|
        0 <= k < n && left_in(#[trigger] site_body(f, k), site_body(f, k).len(), d)
}

proof fn lemma_sites(
    st: StateV,
    f: FileV,
    n: nat,
    vars: Seq<VarV>,
    global: Option<Seq<char>>,
    cli: Option<Seq<char>>,
    d: Dir,
)
    requires
        n <= f.sites.len(),
    ensures
        ({
            let r = caddy::sites_built(st, f, n, vars, global, cli);
            &&& honesty::grown(st.notes, r.notes)
            &&& in_site(f, n, d) || left_in_site(f, n, d) ==> honesty::reported(r.notes, d)
        }),
    decreases n,
{
    if n > 0 {
        let k = (n - 1) as nat;
        lemma_sites(st, f, k, vars, global, cli, d);
        let p = caddy::sites_built(st, f, k, vars, global, cli);
        let s = f.sites[k as int];
        lemma_hosts(s.addresses, s.addresses.len(), s.line, vars, p.notes);
        let (hosts, told) = site::hosts_of(s.addresses, s.addresses.len(), s.line, vars, p.notes);
        let body = site_body(f, k as int);
        lemma_site(StateV { notes: told, ..p }, body, hosts, vars, global, cli, d);
        let r = caddy::sites_built(st, f, n, vars, global, cli);
        assert(honesty::grown(p.notes, r.notes));
        if in_site(f, k, d) || left_in_site(f, k, d) {
            honesty::lemma_reported_grown(p.notes, r.notes, d);
        } else if left_in_site(f, n, d) {
            assert(left_in(body, body.len(), d));
        } else if in_site(f, n, d) {
            assert(body.contains(d));
            let i = choose|i: int| 0 <= i < body.len() && body[i] == d;
            assert(told_by_name(body[i].name));
        }
    }
}

proof fn lemma_globals(ds: Seq<Dir>, n: nat, notes: Seq<Note>, d: Dir)
    requires
        n <= ds.len(),
    ensures
        ({
            let after = caddy::globals_of(ds, n, notes).1;
            &&& honesty::grown(notes, after)
            &&& d.name != "email"@ && (exists|i: int| 0 <= i < n && #[trigger] ds[i] == d)
                ==> honesty::reported(after, d)
        }),
    decreases n,
{
    if n > 0 {
        let k = (n - 1) as nat;
        lemma_globals(ds, k, notes, d);
        let a = caddy::globals_of(ds, k, notes).1;
        let b = caddy::globals_of(ds, n, notes).1;
        assert(honesty::grown(a, b));
        if d.name != "email"@ && exists|i: int| 0 <= i < n && #[trigger] ds[i] == d {
            if exists|i: int| 0 <= i < k && #[trigger] ds[i] == d {
                honesty::lemma_reported_grown(a, b, d);
            } else {
                assert(ds[k as int] == d);
                assert(honesty::on(b[a.len() as int], d));
            }
        }
    }
}

// ── The report ──────────────────────────────────────────────────────────
proof fn lemma_built(
    src: Seq<char>,
    vars: Seq<VarV>,
    cli: Option<Seq<char>>,
    f: FileV,
    d: Dir,
)
    requires
        reader::parse_of(src) == Ok::<FileV, crate::import::nginx::Fault>(f),
        honesty::reported(caddy::build_of(f, vars, cli, seq![]).1, d),
    ensures
        honesty::reported(honesty::report_of(caddy::convert_of(src, vars, cli)), d),
{
    honesty::lemma_reported_sorted(caddy::build_of(f, vars, cli, seq![]).1, d);
}

/// Every directive of a site is reported on its line and under its name; but
/// for those that bear routes, and for `header` and `tls`, whose notes have
/// names of their own.
pub proof fn law_site_directive_is_reported(
    src: Seq<char>,
    vars: Seq<VarV>,
    cli: Option<Seq<char>>,
    f: FileV,
    d: Dir,
)
    requires
        reader::parse_of(src) == Ok::<FileV, crate::import::nginx::Fault>(f),
        in_site(f, f.sites.len(), d),
    ensures
        honesty::reported(honesty::report_of(caddy::convert_of(src, vars, cli)), d),
{
    let (global, told) = caddy::globals_of(f.global, f.global.len(), seq![]);
    lemma_sites(
        StateV { doc: caddy::start_doc(), notes: told },
        f,
        f.sites.len(),
        vars,
        global,
        cli,
        d,
    );
    lemma_built(src, vars, cli, f, d);
}

/// What is not converted below a `handle`, a `route` or a `reverse_proxy` is
/// reported on its line and under its name.
pub proof fn law_nested_directive_is_reported(
    src: Seq<char>,
    vars: Seq<VarV>,
    cli: Option<Seq<char>>,
    f: FileV,
    d: Dir,
)
    requires
        reader::parse_of(src) == Ok::<FileV, crate::import::nginx::Fault>(f),
        left_in_site(f, f.sites.len(), d),
    ensures
        honesty::reported(honesty::report_of(caddy::convert_of(src, vars, cli)), d),
{
    let (global, told) = caddy::globals_of(f.global, f.global.len(), seq![]);
    lemma_sites(
        StateV { doc: caddy::start_doc(), notes: told },
        f,
        f.sites.len(),
        vars,
        global,
        cli,
        d,
    );
    lemma_built(src, vars, cli, f, d);
}

/// Every global option but the contact address is reported.
pub proof fn law_global_option_is_reported(
    src: Seq<char>,
    vars: Seq<VarV>,
    cli: Option<Seq<char>>,
    f: FileV,
    d: Dir,
)
    requires
        reader::parse_of(src) == Ok::<FileV, crate::import::nginx::Fault>(f),
        f.global.contains(d),
        d.name != "email"@,
    ensures
        honesty::reported(honesty::report_of(caddy::convert_of(src, vars, cli)), d),
{
    let (global, told) = caddy::globals_of(f.global, f.global.len(), seq![]);
    let i = choose|i: int| 0 <= i < f.global.len() && f.global[i] == d;
    assert(f.global[i] == d);
    lemma_globals(f.global, f.global.len(), seq![], d);
    let st = StateV { doc: caddy::start_doc(), notes: told };
    lemma_sites(st, f, f.sites.len(), vars, global, cli, d);
    let built = caddy::sites_built(st, f, f.sites.len(), vars, global, cli);
    honesty::lemma_reported_grown(told, built.notes, d);
    lemma_built(src, vars, cli, f, d);
}

} // verus!
