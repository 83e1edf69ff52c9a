//! What a converted location comes to, held against what nginx does with it.
use super::location;
use super::location::{CtxV, LocV, SharedV, WorldV};
use super::RouteV;
use crate::import::honesty;
use crate::import::model::{LocMod, LocationV, ModelV};
use crate::import::nginx::Dir;
use crate::text;
use crate::words;
use vstd::prelude::*;

verus! {

// ── Slashes ─────────────────────────────────────────────────────────────
/// The text with one slash for each run of them: the file that a path names.
pub open spec fn squeezed(s: Seq<char>) -> Seq<char>
    decreases s.len(),
{
    if s.len() == 0 {
        s
    } else {
        let t = squeezed(s.drop_last());
        if s.last() == '/' && t.len() > 0 && t.last() == '/' {
            t
        } else {
            t.push(s.last())
        }
    }
}

proof fn lemma_squeezed_more(x: Seq<char>, y: Seq<char>, z: Seq<char>)
    requires
        squeezed(x) == squeezed(y),
    ensures
        squeezed(x + z) == squeezed(y + z),
    decreases z.len(),
{
    if z.len() == 0 {
        assert(x + z =~= x);
        assert(y + z =~= y);
    } else {
        lemma_squeezed_more(x, y, z.drop_last());
        assert((x + z).drop_last() =~= x + z.drop_last());
        assert((y + z).drop_last() =~= y + z.drop_last());
        assert((x + z).last() == z.last());
        assert((y + z).last() == z.last());
    }
}

proof fn lemma_squeezed_slash(x: Seq<char>)
    ensures
        squeezed(x.push('/')).len() > 0,
        squeezed(x.push('/')).last() == '/',
        squeezed(x.push('/').push('/')) == squeezed(x.push('/')),
{
    assert(x.push('/').drop_last() =~= x);
    assert(x.push('/').push('/').drop_last() =~= x.push('/'));
}

proof fn lemma_squeezed_run(x: Seq<char>, n: nat)
    ensures
        squeezed(x.push('/') + words::run('/', n)) == squeezed(x.push('/')),
    decreases n,
{
    let r = words::run('/', n);
    if n == 0 {
        assert(x.push('/') + r =~= x.push('/'));
    } else {
        let q = words::run('/', (n - 1) as nat);
        assert(x.push('/') + r =~= (x + q).push('/').push('/'));
        assert((x + q).push('/') =~= x.push('/') + q) by {
            assert forall|i: int| x.len() <= i < x.len() + n implies (x + q).push('/')[i]
                == (x.push('/') + q)[i] by {}
        }
        lemma_squeezed_slash(x + q);
        lemma_squeezed_run(x, (n - 1) as nat);
    }
}

/// A path and the path without the slashes at its end are one, with a slash
/// behind either.
proof fn lemma_squeezed_end(x: Seq<char>, p: Seq<char>)
    ensures
        squeezed((x + p).push('/')) == squeezed((x + text::trim_end_of(p, '/')).push('/')),
{
    let t = text::trim_end_of(p, '/');
    words::law_trim_end(p, '/');
    let n = (p.len() - t.len()) as nat;
    let r = words::run('/', n);
    assert((x + p).push('/') =~= (x + t).push('/') + r) by {
        assert((x + p).push('/') =~= x + t + r.push('/'));
    }
    lemma_squeezed_run(x + t, n);
}

/// A path that begins with a slash, and the path with one slash in place of
/// those that it begins with, are one.
proof fn lemma_squeezed_start(x: Seq<char>, p: Seq<char>)
    requires
        p.len() > 0,
        p[0] == '/',
    ensures
        squeezed(x + p) == squeezed(x.push('/') + text::trim_start_of(p, '/')),
{
    let t = text::trim_start_of(p, '/');
    words::law_trim_start(p, '/');
    let n = (p.len() - t.len()) as nat;
    assert(n > 0) by {
        if n == 0 {
            assert(p =~= t);
        }
    }
    let r = words::run('/', (n - 1) as nat);
    assert(x + p =~= (x.push('/') + r) + t);
    lemma_squeezed_run(x, (n - 1) as nat);
    lemma_squeezed_more(x.push('/') + r, x.push('/'), t);
}

// ── Files ───────────────────────────────────────────────────────────────
/// The location itself says `root <dir>` last.
pub open spec fn own_root(ds: Seq<Dir>, n: nat, dir: Seq<char>) -> bool {
    exists|j: int|
        0 <= j < n && (#[trigger] ds[j]).name == "root"@ && ds[j].args.len() > 0 && ds[j].args.last()
            == dir && dir.len() > 0 && !dir.contains('$') && names_none(ds, j + 1, n as int, "root"@)
}

/// None of the directives from `a` up to `b` has the name.
pub open spec fn names_none(ds: Seq<Dir>, a: int, b: int, name: Seq<char>) -> bool {
    forall|k: int| a <= k < b ==> (#[trigger] ds[k]).name != name
}

/// The location itself says `alias <dir>` last.
pub open spec fn own_alias(ds: Seq<Dir>, n: nat, dir: Seq<char>) -> bool {
    exists|j: int|
        0 <= j < n && (#[trigger] ds[j]).name == "alias"@ && ds[j].args.len() > 0
            && ds[j].args.last() == dir && dir.len() > 0 && !dir.contains('$') && names_none(
            ds,
            j + 1,
            n as int,
            "alias"@,
        )
}

/// The files of the location are those under `dir`: it says so itself, or says
/// nothing and its server says so.
pub open spec fn rooted(loc: LocationV, ctx: CtxV, dir: Seq<char>) -> bool {
    let ds = loc.directives;
    ||| own_root(ds, ds.len(), dir)
    ||| names_none(ds, 0, ds.len() as int, "root"@) && ctx.root == Some(dir)
}

#[verifier::rlimit(60)]
#[verifier::spinoff_prover]
proof fn lemma_docroots_step(st: LocV, sh: SharedV, d: Dir, m: ModelV)
    ensures
        ({
            let st1 = location::loc_step(st, sh, d, m).0;
            let dir = d.args.last();
            let sound = d.args.len() > 0 && dir.len() > 0 && !dir.contains('$');
            &&& st1.root == (if d.name == "root"@ && sound {
                Some(dir)
            } else {
                st.root
            })
            &&& st1.alias == (if d.name == "alias"@ && sound {
                Some(dir)
            } else {
                st.alias
            })
        }),
{
    honesty::lemma_names();
    if d.name == "root"@ || d.name == "alias"@ {
        assert(location::docroot(d.args) is Some <==> d.args.len() > 0 && d.args.last().len() > 0
            && !d.args.last().contains('$'));
    }
}

proof fn lemma_root(st: LocV, sh: SharedV, ds: Seq<Dir>, n: nat, m: ModelV, dir: Seq<char>)
    requires
        n <= ds.len(),
    ensures
        own_root(ds, n, dir) ==> location::loc_scan(st, sh, ds, n, m).0.root == Some(dir),
        names_none(ds, 0, n as int, "root"@) ==> location::loc_scan(st, sh, ds, n, m).0.root
            == st.root,
    decreases n,
{
    if n > 0 {
        let k = (n - 1) as nat;
        let (st1, sh1) = location::loc_scan(st, sh, ds, k, m);
        lemma_docroots_step(st1, sh1, ds[k as int], m);
        lemma_root(st, sh, ds, k, m, dir);
        let d = ds[k as int];
        if own_root(ds, n, dir) {
            let j = choose|j: int|
                0 <= j < n && (#[trigger] ds[j]).name == "root"@ && ds[j].args.len() > 0
                    && ds[j].args.last() == dir && dir.len() > 0 && !dir.contains('$') && names_none(
                    ds,
                    j + 1,
                    n as int,
                    "root"@,
                );
            if j < k {
                assert(names_none(ds, j + 1, k as int, "root"@));
                assert(own_root(ds, k, dir));
                assert(d.name != "root"@);
            }
        }
        if names_none(ds, 0, n as int, "root"@) {
            assert(d.name != "root"@);
        }
    }
}

proof fn lemma_alias(st: LocV, sh: SharedV, ds: Seq<Dir>, n: nat, m: ModelV, dir: Seq<char>)
    requires
        n <= ds.len(),
    ensures
        own_alias(ds, n, dir) ==> location::loc_scan(st, sh, ds, n, m).0.alias == Some(dir),
        names_none(ds, 0, n as int, "alias"@) ==> location::loc_scan(st, sh, ds, n, m).0.alias
            == st.alias,
    decreases n,
{
    if n > 0 {
        let k = (n - 1) as nat;
        let (st1, sh1) = location::loc_scan(st, sh, ds, k, m);
        lemma_docroots_step(st1, sh1, ds[k as int], m);
        lemma_alias(st, sh, ds, k, m, dir);
        let d = ds[k as int];
        if own_alias(ds, n, dir) {
            let j = choose|j: int|
                0 <= j < n && (#[trigger] ds[j]).name == "alias"@ && ds[j].args.len() > 0
                    && ds[j].args.last() == dir && dir.len() > 0 && !dir.contains('$') && names_none(
                    ds,
                    j + 1,
                    n as int,
                    "alias"@,
                );
            if j < k {
                assert(names_none(ds, j + 1, k as int, "alias"@));
                assert(own_alias(ds, k, dir));
                assert(d.name != "alias"@);
            }
        }
        if names_none(ds, 0, n as int, "alias"@) {
            assert(d.name != "alias"@);
        }
    }
}

/// The part of a route's path before what it leaves open.
pub open spec fn front(path: Seq<char>) -> Seq<char> {
    path.subrange(0, path.len() - 7)
}

/// The location added the route.
pub open spec fn adds(w: WorldV, loc: LocationV, hosts: Option<Seq<Seq<char>>>, ctx: CtxV, m: ModelV, r: RouteV) -> bool {
    let routes = location::location_step(w, loc, hosts, ctx, m).doc.routes;
    routes == w.doc.routes.push(r)
}

/// The route's path takes the requests of the location: an exact pattern is the
/// path; any other is the path up to what it leaves open, but for the slashes at
/// its end, of which the path has one.
pub proof fn law_path_is_the_pattern(
    w: WorldV,
    loc: LocationV,
    hosts: Option<Seq<Seq<char>>>,
    ctx: CtxV,
    m: ModelV,
    r: RouteV,
)
    requires
        adds(w, loc, hosts, ctx, m, r),
    ensures
        loc.pattern.len() > 0 && loc.pattern[0] == '/',
        loc.modifier == LocMod::Exact ==> r.path == loc.pattern,
        loc.modifier != LocMod::Exact ==> {
            let base = front(r.path).drop_last();
            &&& r.path == base + "/{*rest}"@
            &&& base.len() <= loc.pattern.len()
            &&& loc.pattern == base + words::run('/', (loc.pattern.len() - base.len()) as nat)
            &&& base.len() > 0 ==> base.last() != '/'
        },
{
    let pat = loc.pattern;
    let base = text::trim_end_of(pat, '/');
    words::law_trim_end(pat, '/');
    reveal_strlit("/{*rest}");
    lemma_route_path(w, loc, hosts, ctx, m, r);
    if loc.modifier != LocMod::Exact {
        assert(base + "/{*rest}"@ =~= r.path) by {
            if base.len() == 0 {
                assert(base + "/{*rest}"@ =~= "/{*rest}"@);
            }
        }
        assert(front(r.path).drop_last() =~= base);
    }
}

proof fn lemma_route_path(
    w: WorldV,
    loc: LocationV,
    hosts: Option<Seq<Seq<char>>>,
    ctx: CtxV,
    m: ModelV,
    r: RouteV,
)
    requires
        adds(w, loc, hosts, ctx, m, r),
    ensures
        exists|notes: Seq<crate::import::Note>|
            (#[trigger] location::path_of(loc, notes)).0 == Some(r.path),
{
    let routes = location::location_step(w, loc, hosts, ctx, m).doc.routes;
    assert(routes.last() == r);
    assert(routes.len() == w.doc.routes.len() + 1);
    let (st, sh) = location::loc_scan(
        location::empty_loc(ctx.waf),
        SharedV { cap: w.doc.waf_body_mb, agg: w.agg, notes: w.notes },
        loc.directives,
        loc.directives.len(),
        m,
    );
    let told = location::files_told(loc.directives, loc.directives.len(), sh.notes);
    if st.proxy is Some {
        assert(location::path_of(loc, told).0 == Some(r.path));
    } else {
        assert(location::path_of(loc, sh.notes).0 == Some(r.path));
    }
}

/// The files of a static location are found where nginx finds them. nginx looks
/// for the whole path of the request under the docroot, Zion for what stands
/// behind the route's front under the directory that it serves: that is the same
/// file for every request.
pub proof fn law_static_files_are_found(
    w: WorldV,
    loc: LocationV,
    hosts: Option<Seq<Seq<char>>>,
    ctx: CtxV,
    m: ModelV,
    r: RouteV,
    root: Seq<char>,
    rest: Seq<char>,
)
    requires
        adds(w, loc, hosts, ctx, m, r),
        r.serve_dir is Some,
        rooted(loc, ctx, root),
        names_none(loc.directives, 0, loc.directives.len() as int, "alias"@),
    ensures
        squeezed(r.serve_dir->0 + "/"@ + rest) == squeezed(root + front(r.path) + rest),
{
    let ds = loc.directives;
    let st0 = location::empty_loc(ctx.waf);
    let sh0 = SharedV { cap: w.doc.waf_body_mb, agg: w.agg, notes: w.notes };
    let (st, sh) = location::loc_scan(st0, sh0, ds, ds.len(), m);
    lemma_root(st0, sh0, ds, ds.len(), m, root);
    lemma_alias(st0, sh0, ds, ds.len(), m, root);
    law_path_is_the_pattern(w, loc, hosts, ctx, m, r);
    let routes = location::location_step(w, loc, hosts, ctx, m).doc.routes;
    assert(routes.last() == r);
    assert(st.proxy is None);
    let dir = r.serve_dir->0;
    let pat = loc.pattern;
    let base = text::trim_end_of(root, '/');
    let bare = text::trim_start_of(pat, '/');
    let prefix = text::trim_end_of(bare, '/');
    let open = front(r.path);
    reveal_strlit("/");
    reveal_strlit("/{*rest}");
    // Both are the docroot, a slash, the pattern without its slashes and a slash.
    assert(squeezed(dir.push('/')) == squeezed((base.push('/') + prefix).push('/'))) by {
        if prefix.len() == 0 {
            assert(base.push('/') + prefix =~= base.push('/'));
            lemma_squeezed_slash(base);
        } else {
            assert(dir =~= base.push('/') + prefix);
        }
    }
    lemma_squeezed_end(base.push('/'), bare);
    let none = Seq::<char>::empty();
    lemma_squeezed_end(none, root);
    assert(none + root =~= root);
    assert(none + base =~= base);
    lemma_squeezed_more(root.push('/'), base.push('/'), bare.push('/'));
    assert(root.push('/') + bare.push('/') =~= (root.push('/') + bare).push('/'));
    assert(base.push('/') + bare.push('/') =~= (base.push('/') + bare).push('/'));
    lemma_squeezed_start(root, pat);
    lemma_squeezed_more(root + pat, root.push('/') + bare, "/"@);
    assert(root + pat + "/"@ =~= (root + pat).push('/'));
    assert(root.push('/') + bare + "/"@ =~= (root.push('/') + bare).push('/'));
    lemma_squeezed_end(root, pat);
    let stem = text::trim_end_of(pat, '/');
    assert(open =~= stem.push('/')) by {
        let b = open.drop_last();
        words::law_trim_end(pat, '/');
        lemma_one_stem(pat, b, stem);
        assert(r.path =~= b + "/{*rest}"@);
        assert(open =~= b.push('/'));
    }
    assert((root + stem).push('/') =~= root + open);
    lemma_squeezed_more(dir.push('/'), root + open, rest);
    assert(dir.push('/') =~= dir + "/"@);
}

/// There is one way to take the slashes off the end of a text.
proof fn lemma_one_stem(p: Seq<char>, a: Seq<char>, b: Seq<char>)
    requires
        a.len() <= p.len(),
        b.len() <= p.len(),
        p == a + words::run('/', (p.len() - a.len()) as nat),
        p == b + words::run('/', (p.len() - b.len()) as nat),
        a.len() > 0 ==> a.last() != '/',
        b.len() > 0 ==> b.last() != '/',
    ensures
        a == b,
{
    if a.len() < b.len() {
        assert(p[b.len() - 1] == '/');
        assert(p[b.len() - 1] == b[b.len() - 1]);
    } else if b.len() < a.len() {
        assert(p[a.len() - 1] == '/');
        assert(p[a.len() - 1] == a[a.len() - 1]);
    } else {
        assert forall|i: int| 0 <= i < a.len() implies a[i] == b[i] by {
            assert(p[i] == a[i]);
            assert(p[i] == b[i]);
        }
        assert(a =~= b);
    }
}

/// The files of a location with an alias are those under the alias, whatever its
/// pattern.
pub proof fn law_aliased_files_are_found(
    w: WorldV,
    loc: LocationV,
    hosts: Option<Seq<Seq<char>>>,
    ctx: CtxV,
    m: ModelV,
    r: RouteV,
    alias: Seq<char>,
    rest: Seq<char>,
)
    requires
        adds(w, loc, hosts, ctx, m, r),
        r.serve_dir is Some,
        own_alias(loc.directives, loc.directives.len(), alias),
    ensures
        squeezed(r.serve_dir->0 + "/"@ + rest) == squeezed(alias + "/"@ + rest),
        alias.last() != '/' ==> r.serve_dir == Some(alias),
{
    let ds = loc.directives;
    let st0 = location::empty_loc(ctx.waf);
    let sh0 = SharedV { cap: w.doc.waf_body_mb, agg: w.agg, notes: w.notes };
    let (st, sh) = location::loc_scan(st0, sh0, ds, ds.len(), m);
    lemma_alias(st0, sh0, ds, ds.len(), m, alias);
    let routes = location::location_step(w, loc, hosts, ctx, m).doc.routes;
    assert(routes.last() == r);
    reveal_strlit("/");
    let dir = r.serve_dir->0;
    let none = Seq::<char>::empty();
    lemma_squeezed_end(none, alias);
    assert(none + alias =~= alias);
    assert(none + dir =~= dir);
    lemma_squeezed_more(dir.push('/'), alias.push('/'), rest);
    assert(dir.push('/') =~= dir + "/"@);
    assert(alias.push('/') =~= alias + "/"@);
}

} // verus!
