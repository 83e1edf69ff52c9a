//! Which servers of an nginx configuration are carried over.
use super::location;
use super::servers;
use super::servers::{HostsV, KeptV, RedirectKind};
use super::RouteV;
use crate::import::model;
use crate::import::model::{Extracted, ServerV};
use crate::import::nginx::Dir;
use crate::import::Note;
use crate::words;
use vstd::prelude::*;

verus! {

// ── Redirects ───────────────────────────────────────────────────────────
/// A target on the host that the request was for.
pub open spec fn own_host(t: Seq<char>) -> bool {
    ||| t == "https://$host$request_uri"@
    ||| t == "https://$server_name$request_uri"@
    ||| t == "https://$http_host$request_uri"@
}

/// A server that answers over TLS.
pub open spec fn answers_tls(s: ServerV) -> bool {
    ||| exists|i: int| 0 <= i < s.listens.len() && (#[trigger] s.listens[i]).ssl
    ||| exists|i: int|
        0 <= i < s.directives.len() && (#[trigger] s.directives[i]).name == "ssl"@
            && s.directives[i].args.len() > 0 && s.directives[i].args[0] == "on"@
}

proof fn lemma_tls(s: ServerV)
    ensures
        servers::tls_of(s) == answers_tls(s),
{
    if servers::ssl_on_of(s) {
        let i = choose|i: int|
            0 <= i < s.directives.len() && servers::legacy_ssl(#[trigger] s.directives[i]);
        assert(s.directives[i].name == "ssl"@);
    }
    if exists|i: int|
        0 <= i < s.directives.len() && (#[trigger] s.directives[i]).name == "ssl"@
            && s.directives[i].args.len() > 0 && s.directives[i].args[0] == "on"@ {
        let i = choose|i: int|
            0 <= i < s.directives.len() && (#[trigger] s.directives[i]).name == "ssl"@
                && s.directives[i].args.len() > 0 && s.directives[i].args[0] == "on"@;
        assert(servers::legacy_ssl(s.directives[i]));
    }
}

proof fn lemma_no_redirect(ds: Seq<Dir>, i: nat)
    requires
        forall|j: int|
            i <= j < ds.len() ==> (#[trigger] ds[j]).name != "return"@ || ds[j].args.len() < 2
                || !own_host(ds[j].args[1]),
    ensures
        servers::redirect_from(ds, i) == RedirectKind::No,
    decreases ds.len() - i,
{
    if i < ds.len() {
        assert(ds[i as int].name != "return"@ || ds[i as int].args.len() < 2 || !own_host(
            ds[i as int].args[1],
        ));
        lemma_no_redirect(ds, i + 1);
    }
}

/// A server that answers over TLS, that has locations, or that redirects to no
/// host but another is carried over wherever its names can be.
pub proof fn law_serving_server_is_carried_over(kept: Seq<KeptV>, notes: Seq<Note>, s: ServerV)
    requires
        answers_tls(s) || s.locations.len() > 0 || (forall|j: int|
            0 <= j < s.directives.len() ==> (#[trigger] s.directives[j]).name != "return"@
                || s.directives[j].args.len() < 2 || !own_host(s.directives[j].args[1])),
    ensures
        ({
            let after = servers::keep_step(kept, notes, s).0;
            match servers::hosts_of(s, notes).0 {
                HostsV::Skip => after == kept,
                HostsV::Shared => after == kept.push(KeptV { server: s, hosts: None }),
                HostsV::Hosts(h) => after == kept.push(KeptV { server: s, hosts: Some(h) }),
            }
        }),
{
    lemma_tls(s);
    if !answers_tls(s) && s.locations.len() == 0 {
        lemma_no_redirect(s.directives, 0);
    }
}

/// A plain server that does nothing but send its requests to TLS on their own
/// host is left out: the listener does so by itself.
pub proof fn law_redirecting_server_is_left_out(
    kept: Seq<KeptV>,
    notes: Seq<Note>,
    s: ServerV,
    d: Dir,
)
    requires
        s.listens.len() == 0 || forall|i: int|
            0 <= i < s.listens.len() ==> !(#[trigger] s.listens[i]).ssl,
        s.locations.len() == 0,
        s.directives == seq![d],
        d.name == "return"@,
        d.args.len() == 2,
        d.args[0] == "301"@ || d.args[0] == "302"@ || d.args[0] == "307"@ || d.args[0] == "308"@,
        own_host(d.args[1]),
    ensures
        servers::keep_step(kept, notes, s).0 == kept,
{
    reveal_strlit("return");
    reveal_strlit("ssl");
    assert("return"@.len() == 6 && "ssl"@.len() == 3);
    assert(!servers::tls_of(s)) by {
        if servers::ssl_on_of(s) {
            let i = choose|i: int|
                0 <= i < s.directives.len() && servers::legacy_ssl(#[trigger] s.directives[i]);
            assert(s.directives[i] == d);
        }
    }
    assert(s.directives[0] == d);
    assert(servers::redirect_of(d) is Some);
}

/// A server that was kept stays, whatever servers come after it.
pub proof fn law_kept_servers_stay(blocks: Seq<ServerV>, k: nat, n: nat, notes: Seq<Note>)
    requires
        k <= n <= blocks.len(),
    ensures
        ({
            let a = servers::kept_of(blocks, k, notes).0;
            let b = servers::kept_of(blocks, n, notes).0;
            a.len() <= b.len() && b.subrange(0, a.len() as int) == a
        }),
    decreases n - k,
{
    let a = servers::kept_of(blocks, k, notes).0;
    if k < n {
        let m = (n - 1) as nat;
        law_kept_servers_stay(blocks, k, m, notes);
        let c = servers::kept_of(blocks, m, notes).0;
        let b = servers::kept_of(blocks, n, notes).0;
        assert(c.len() <= b.len());
        assert(b.subrange(0, a.len() as int) =~= a) by {
            assert forall|i: int| 0 <= i < a.len() implies b[i] == a[i] by {
                assert(c.subrange(0, a.len() as int)[i] == a[i]);
                assert(b[i] == c[i]);
            }
        }
    } else {
        assert(a.subrange(0, a.len() as int) =~= a);
    }
}

// ── Places of servers ───────────────────────────────────────────────────
/// What stands in an `http` block is read as if it stood on its own.
pub proof fn law_http_block_is_seen_through(items: Seq<Dir>, args: Seq<Seq<char>>, line: int, notes: Seq<Note>)
    ensures
        model::extract_of(seq![Dir { name: "http"@, args, block: Some(items), line }], notes)
            == model::extract_of(items, notes),
{
    let d = Dir { name: "http"@, args, block: Some(items), line };
    let top = seq![d];
    let e = Extracted { model: model::empty_model(), notes };
    reveal_with_fuel(model::walk, 2);
    assert(top[0] == d);
    assert(model::walk(top, 0, e) == e);
    assert(model::walk(top, 1, e) == model::walk(items, items.len(), e));
}

/// Every server block is a server, in the order of the blocks.
pub proof fn law_every_server_block_is_a_server(items: Seq<Dir>, n: nat, notes: Seq<Note>, i: int)
    requires
        n <= items.len(),
        forall|j: int|
            0 <= j < items.len() ==> (#[trigger] items[j]).name == "server"@ && items[j].block
                is Some,
        0 <= i < n,
    ensures
        ({
            let all = model::walk(items, n, Extracted { model: model::empty_model(), notes }).model;
            &&& all.servers.len() == n
            &&& all.servers[i].line == items[i].line
            &&& all.pools.len() == 0
        }),
    decreases n,
{
    let e = Extracted { model: model::empty_model(), notes };
    let m = (n - 1) as nat;
    let d = items[m as int];
    reveal_strlit("server");
    reveal_strlit("http");
    assert("server"@.len() == 6 && "http"@.len() == 4);
    let b = d.block->0;
    let prev = model::walk(items, m, e);
    lemma_server_line(b, b.len(), d.line, prev.notes);
    if m > 0 {
        law_every_server_block_is_a_server(items, m, notes, if i < m {
            i
        } else {
            0
        });
    } else {
        assert(model::walk(items, 0, e) == e);
    }
}

proof fn lemma_server_line(block: Seq<Dir>, n: nat, line: int, notes: Seq<Note>)
    requires
        n <= block.len(),
    ensures
        model::server_of(block, n, line, notes).0.line == line,
    decreases n,
{
    if n > 0 {
        lemma_server_line(block, (n - 1) as nat, line, notes);
    }
}

/// `limit_conn_zone KEY zone=NAME:SIZE` names a zone by its key.
pub proof fn law_connection_zone_has_its_key(
    e: Extracted,
    d: Dir,
    name: Seq<char>,
    size: Seq<char>,
)
    requires
        d.args == seq!["$binary_remote_addr"@, "zone="@ + name + ":"@ + size],
        !name.contains(':'),
    ensures
        ({
            let zones = model::conn_zone_of(e, d).model.conn_zones;
            &&& zones.len() == e.model.conn_zones.len() + 1
            &&& zones.drop_last() == e.model.conn_zones
            &&& zones.last().name == name
            &&& zones.last().key == "$binary_remote_addr"@
        }),
{
    let a = d.args;
    reveal_strlit("$binary_remote_addr");
    reveal_strlit("zone=");
    reveal_strlit("rate=");
    reveal_strlit(":");
    let v = name + ":"@ + size;
    assert(a[1] =~= "zone="@ + v);
    words::law_parts_of_a_text(v, "zone="@, v);
    words::law_stripped_parts_join(a[0], "zone="@);
    words::law_stripped_parts_join(a[0], "rate="@);
    assert(a[0][0] == '$');
    assert("zone="@[0] == 'z');
    assert("rate="@[0] == 'r');
    assert(v =~= name + seq![':'] + size);
    words::law_split_once_of_joined(name, ':', size);
    reveal_with_fuel(model::zone_args, 3);
    let zones = model::conn_zone_of(e, d).model.conn_zones;
    assert(zones.drop_last() =~= e.model.conn_zones);
}

// ── Routes that meet ────────────────────────────────────────────────────
/// Two routes meet where they have the same path, and either both are for every
/// host or some host is named by both.
pub proof fn law_routes_meet_on_a_path_and_a_host(
    routes: Seq<RouteV>,
    i: int,
    hosts: Seq<Seq<char>>,
    h: Seq<char>,
)
    requires
        0 <= i < routes.len(),
    ensures
        routes[i].hosts is None ==> location::collides(routes, routes[i].path, None),
        (routes[i].hosts matches Some(own) && own.contains(h) && hosts.contains(h))
            ==> location::collides(routes, routes[i].path, Some(hosts)),
        forall|path: Seq<char>|
            (forall|j: int| 0 <= j < routes.len() ==> (#[trigger] routes[j]).path != path)
                ==> !(#[trigger] location::collides(routes, path, Some(hosts)))
                && !location::collides(routes, path, None),
        (forall|j: int| 0 <= j < routes.len() ==> (#[trigger] routes[j]).hosts is None)
            ==> !location::collides(routes, routes[i].path, Some(hosts)),
{
    if let Some(own) = routes[i].hosts {
        if own.contains(h) && hosts.contains(h) {
            let k = choose|k: int| 0 <= k < own.len() && own[k] == h;
            assert(hosts.contains(own[k]));
            assert(location::lists_meet(own, hosts));
        }
    }
    assert(routes[i].path == routes[i].path);
}

} // verus!
