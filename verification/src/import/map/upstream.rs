//! The upstream registry: named pools, and upstreams made from direct
//! `proxy_pass` targets, one per URL.
use super::{UpstreamOut, UpstreamV};
use crate::import;
use crate::import::model::{Pool, PoolServer, PoolServerV, PoolV};
use crate::import::nginx::{Dir, Directive};
use crate::import::{file, Finding, Note, Status};
use crate::text;
use crate::text::{cat3, cat5, chars_of, is_alnum, own, same, starts_with};
use vstd::prelude::*;

verus! {

broadcast use {crate::text::group_views, crate::import::nginx::lemma_dir_view};

// ── Names ───────────────────────────────────────────────────────────────
/// A character that a bare TOML key may hold.
pub open spec fn key_char(c: char) -> bool {
    text::alnum(c) || c == '-' || c == '_'
}

/// A TOML-bare-key-safe upstream name: every other character becomes `_`.
pub open spec fn safe_name(raw: Seq<char>) -> Seq<char> {
    Seq::new(
        raw.len(),
        |i: int|
            if key_char(raw[i]) {
                raw[i]
            } else {
                '_'
            },
    )
}

pub fn sanitize_name(raw: &str) -> (r: String)
    ensures
        r@ == safe_name(raw@),
{
    let v = chars_of(raw);
    let mut out = String::new();
    let mut i: usize = 0;
    while i < v.len()
        invariant
            v@ == raw@,
            i <= v.len(),
            out@ == safe_name(raw@).take(i as int),
        decreases v.len() - i,
    {
        let c: char = v[i];
        if is_alnum(c) || c == '-' || c == '_' {
            out.push(c);
        } else {
            out.push('_');
        }
        assert(out@ =~= safe_name(raw@).take(i + 1));
        i += 1;
    }
    assert(safe_name(raw@).take(i as int) =~= safe_name(raw@));
    out
}

// ── State ───────────────────────────────────────────────────────────────
/// How a pool is referenced.
pub struct PoolUse {
    pub name: String,
    pub scheme: String,
    pub timeout: Option<u64>,
}

/// An upstream made from a direct target.
pub struct Synth {
    pub url: String,
    pub name: String,
    pub timeout: Option<u64>,
}

pub struct UpstreamReg<'a> {
    pub pools: &'a Vec<Pool>,
    /// The pools referenced so far, each once.
    pub uses: Vec<PoolUse>,
    /// The direct targets so far, each URL once.
    pub synth: Vec<Synth>,
}

#[verifier::ext_equal]
pub struct UseV {
    pub name: Seq<char>,
    pub scheme: Seq<char>,
    pub timeout: Option<u64>,
}

#[verifier::ext_equal]
pub struct SynthV {
    pub url: Seq<char>,
    pub name: Seq<char>,
    pub timeout: Option<u64>,
}

#[verifier::ext_equal]
pub struct RegV {
    pub pools: Seq<PoolV>,
    pub uses: Seq<UseV>,
    pub synth: Seq<SynthV>,
}

impl View for PoolUse {
    type V = UseV;

    open spec fn view(&self) -> UseV {
        UseV { name: self.name@, scheme: self.scheme@, timeout: self.timeout }
    }
}

impl View for Synth {
    type V = SynthV;

    open spec fn view(&self) -> SynthV {
        SynthV { url: self.url@, name: self.name@, timeout: self.timeout }
    }
}

impl<'a> View for UpstreamReg<'a> {
    type V = RegV;

    open spec fn view(&self) -> RegV {
        RegV {
            pools: text::views(self.pools@),
            uses: text::views(self.uses@),
            synth: text::views(self.synth@),
        }
    }
}

// ── Resolution ──────────────────────────────────────────────────────────
pub open spec fn pool_named(pools: Seq<PoolV>, name: Seq<char>) -> bool {
    exists|i: int| 0 <= i < pools.len() && (#[trigger] pools[i]).name == name
}

/// The index of the first reference to the pool, from `i` on.
pub open spec fn use_index(uses: Seq<UseV>, name: Seq<char>, i: nat) -> nat
    decreases uses.len() - i,
{
    if i >= uses.len() || uses[i as int].name == name {
        i
    } else {
        use_index(uses, name, i + 1)
    }
}

/// The index of the upstream with the URL, from `i` on.
pub open spec fn synth_index(synth: Seq<SynthV>, url: Seq<char>, i: nat) -> nat
    decreases synth.len() - i,
{
    if i >= synth.len() || synth[i as int].url == url {
        i
    } else {
        synth_index(synth, url, i + 1)
    }
}

/// Whether an upstream already goes by the name.
pub open spec fn taken(reg: RegV, name: Seq<char>) -> bool {
    ||| exists|i: int| 0 <= i < reg.synth.len() && (#[trigger] reg.synth[i]).name == name
    ||| exists|i: int| 0 <= i < reg.pools.len() && safe_name((#[trigger] reg.pools[i]).name) == name
}

pub open spec fn longest_synth(synth: Seq<SynthV>, n: nat) -> nat
    decreases n,
{
    if n == 0 {
        0
    } else {
        let m = longest_synth(synth, (n - 1) as nat);
        if synth[n - 1].name.len() > m {
            synth[n - 1].name.len()
        } else {
            m
        }
    }
}

pub open spec fn longest_pool(pools: Seq<PoolV>, n: nat) -> nat
    decreases n,
{
    if n == 0 {
        0
    } else {
        let m = longest_pool(pools, (n - 1) as nat);
        if pools[n - 1].name.len() > m {
            pools[n - 1].name.len()
        } else {
            m
        }
    }
}

proof fn lemma_longest_synth(synth: Seq<SynthV>, n: nat, i: int)
    requires
        0 <= i < n <= synth.len(),
    ensures
        synth[i].name.len() <= longest_synth(synth, n),
    decreases n,
{
    if i < n - 1 {
        lemma_longest_synth(synth, (n - 1) as nat, i);
    }
}

proof fn lemma_longest_pool(pools: Seq<PoolV>, n: nat, i: int)
    requires
        0 <= i < n <= pools.len(),
    ensures
        pools[i].name.len() <= longest_pool(pools, n),
    decreases n,
{
    if i < n - 1 {
        lemma_longest_pool(pools, (n - 1) as nat, i);
    }
}

/// No name in use is longer than this.
pub open spec fn longest(reg: RegV) -> nat {
    longest_synth(reg.synth, reg.synth.len()) + longest_pool(reg.pools, reg.pools.len())
}

pub proof fn lemma_taken_length(reg: RegV, name: Seq<char>)
    requires
        taken(reg, name),
    ensures
        name.len() <= longest(reg),
{
    if exists|i: int| 0 <= i < reg.synth.len() && (#[trigger] reg.synth[i]).name == name {
        let i = choose|i: int| 0 <= i < reg.synth.len() && (#[trigger] reg.synth[i]).name == name;
        lemma_longest_synth(reg.synth, reg.synth.len(), i);
    } else {
        let i = choose|i: int|
            0 <= i < reg.pools.len() && safe_name((#[trigger] reg.pools[i]).name) == name;
        lemma_longest_pool(reg.pools, reg.pools.len(), i);
    }
}

/// The name, with as many `_` behind it as it takes to be free.
pub open spec fn free_name(reg: RegV, name: Seq<char>) -> Seq<char>
    decreases longest(reg) + 1 - name.len(),
{
    if taken(reg, name) {
        proof {
            lemma_taken_length(reg, name);
        }
        free_name(reg, name.push('_'))
    } else {
        name
    }
}

pub struct Resolved {
    pub reg: RegV,
    pub name: Seq<char>,
    pub notes: Seq<Note>,
}

/// Resolves a `proxy_pass` target to an upstream name, making a single-URL
/// upstream when the target is a plain authority. The first scheme of a pool
/// is kept, and the first timeout that is set.
pub open spec fn resolve_of(
    reg: RegV,
    scheme: Seq<char>,
    target: Seq<char>,
    timeout: Option<u64>,
    line: int,
    notes: Seq<Note>,
) -> Resolved {
    if pool_named(reg.pools, target) {
        let i = use_index(reg.uses, target, 0);
        if i >= reg.uses.len() {
            Resolved {
                reg: RegV {
                    uses: reg.uses.push(UseV { name: target, scheme, timeout }),
                    ..reg
                },
                name: safe_name(target),
                notes,
            }
        } else {
            let u = reg.uses[i as int];
            Resolved {
                reg: RegV {
                    uses: reg.uses.update(
                        i as int,
                        UseV {
                            timeout: if u.timeout is None {
                                timeout
                            } else {
                                u.timeout
                            },
                            ..u
                        },
                    ),
                    ..reg
                },
                name: safe_name(target),
                notes: if u.scheme != scheme {
                    notes.push(
                        import::note(
                            Status::Partial,
                            line,
                            "proxy_pass"@,
                            "pool '"@ + target + "' referenced with both http and https — "@
                                + u.scheme + " kept"@,
                        ),
                    )
                } else {
                    notes
                },
            }
        }
    } else {
        let url = scheme + "://"@ + target;
        let i = synth_index(reg.synth, url, 0);
        if i >= reg.synth.len() {
            let name = free_name(reg, safe_name(target));
            Resolved {
                reg: RegV { synth: reg.synth.push(SynthV { url, name, timeout }), ..reg },
                name,
                notes,
            }
        } else {
            let u = reg.synth[i as int];
            Resolved {
                reg: RegV {
                    synth: reg.synth.update(
                        i as int,
                        SynthV {
                            timeout: if u.timeout is None {
                                timeout
                            } else {
                                u.timeout
                            },
                            ..u
                        },
                    ),
                    ..reg
                },
                name: u.name,
                notes,
            }
        }
    }
}

// ── Output ──────────────────────────────────────────────────────────────
pub open spec fn server_note(s: PoolServerV, status: Status, detail: Seq<char>) -> Note {
    import::note(status, s.line, "server"@, detail)
}

/// The notes on the first `n` flags of a pool member.
pub open spec fn member_flags(s: PoolServerV, n: nat, notes: Seq<Note>) -> Seq<Note>
    decreases n,
{
    if n == 0 {
        notes
    } else {
        let f = member_flags(s, (n - 1) as nat, notes);
        let flag = s.flags[n - 1];
        if flag == "down"@ {
            f
        } else if flag == "backup"@ {
            f.push(
                server_note(
                    s,
                    Status::Unsupported,
                    "'"@ + s.addr
                        + "' is a backup — Zion's health-gated LB has no primary/backup tiers; included as a regular member"@,
                ),
            )
        } else {
            f.push(
                server_note(
                    s,
                    Status::Unsupported,
                    "flag '"@ + flag + "' on '"@ + s.addr
                        + "' — Zion's LB is fixed (health-gated lowest-latency)"@,
                ),
            )
        }
    }
}

/// One member of a pool: its URL is emitted unless it is a socket or down.
pub open spec fn member_step(
    urls: Seq<Seq<char>>,
    notes: Seq<Note>,
    s: PoolServerV,
    scheme: Seq<char>,
) -> (Seq<Seq<char>>, Seq<Note>) {
    if text::starts(s.addr, "unix:"@) {
        (
            urls,
            notes.push(
                server_note(
                    s,
                    Status::Unsupported,
                    "unix domain socket member '"@ + s.addr
                        + "' — Zion upstreams are TCP http(s) only; member omitted"@,
                ),
            ),
        )
    } else {
        let f = member_flags(s, s.flags.len(), notes);
        if s.flags.contains("down"@) {
            (
                urls,
                f.push(
                    server_note(s, Status::Convert, "'"@ + s.addr + "' marked down — omitted"@),
                ),
            )
        } else {
            (urls.push(scheme + "://"@ + s.addr), f)
        }
    }
}

pub open spec fn members_of(
    ss: Seq<PoolServerV>,
    n: nat,
    scheme: Seq<char>,
    notes: Seq<Note>,
) -> (Seq<Seq<char>>, Seq<Note>)
    decreases n,
{
    if n == 0 {
        (seq![], notes)
    } else {
        let (urls, f) = members_of(ss, (n - 1) as nat, scheme, notes);
        member_step(urls, f, ss[n - 1], scheme)
    }
}

/// Directives that choose a load-balancing strategy.
pub open spec fn strategy(name: Seq<char>) -> bool {
    ||| name == "least_conn"@
    ||| name == "ip_hash"@
    ||| name == "hash"@
    ||| name == "random"@
    ||| name == "sticky"@
}

pub open spec fn extra_note(d: Dir) -> Note {
    if strategy(d.name) {
        import::note(
            Status::Unsupported,
            d.line,
            d.name,
            "Zion's load balancing is fixed: healthiest member, lowest EWMA latency (no strategy knob)"@,
        )
    } else {
        import::unsupported_note(d)
    }
}

pub open spec fn extra_notes(extras: Seq<Dir>, n: nat, notes: Seq<Note>) -> Seq<Note>
    decreases n,
{
    if n == 0 {
        notes
    } else {
        extra_notes(extras, (n - 1) as nat, notes).push(extra_note(extras[n - 1]))
    }
}

/// What becomes of one pool.
pub open spec fn pool_step(
    reg: RegV,
    p: PoolV,
    out: Seq<UpstreamV>,
    notes: Seq<Note>,
) -> (Seq<UpstreamV>, Seq<Note>) {
    let i = use_index(reg.uses, p.name, 0);
    let used = i < reg.uses.len();
    let scheme = if used {
        reg.uses[i as int].scheme
    } else {
        "http"@
    };
    let timeout = if used {
        reg.uses[i as int].timeout
    } else {
        None
    };
    let n1 = if used {
        notes
    } else {
        notes.push(
            import::note(
                Status::Auto,
                p.line,
                "upstream"@,
                "pool '"@ + p.name + "' is not referenced by any converted route"@,
            ),
        )
    };
    let (urls, n2) = members_of(p.servers, p.servers.len(), scheme, n1);
    let n3 = extra_notes(p.extras, p.extras.len(), n2);
    let n4 = if p.keepalive is Some {
        n3.push(
            import::note(
                Status::Convert,
                p.line,
                "keepalive"@,
                "upstream keepalive pool size"@,
            ),
        )
    } else {
        n3
    };
    if urls.len() == 0 {
        (
            out,
            n4.push(
                import::note(
                    Status::Unsupported,
                    p.line,
                    "upstream"@,
                    "pool '"@ + p.name + "' has no usable members — omitted"@,
                ),
            ),
        )
    } else {
        (
            out.push(
                UpstreamV {
                    name: safe_name(p.name),
                    urls,
                    connect_timeout_ms: timeout,
                    keepalive: p.keepalive,
                },
            ),
            n4,
        )
    }
}

pub open spec fn pools_out(reg: RegV, n: nat, notes: Seq<Note>) -> (Seq<UpstreamV>, Seq<Note>)
    decreases n,
{
    if n == 0 {
        (seq![], notes)
    } else {
        let (out, f) = pools_out(reg, (n - 1) as nat, notes);
        pool_step(reg, reg.pools[n - 1], out, f)
    }
}

pub open spec fn synth_out(reg: RegV) -> Seq<UpstreamV> {
    Seq::new(
        reg.synth.len(),
        |i: int|
            UpstreamV {
                name: reg.synth[i].name,
                urls: seq![reg.synth[i].url],
                connect_timeout_ms: reg.synth[i].timeout,
                keepalive: None,
            },
    )
}

/// The upstream sections: pools first (input order), direct targets after.
pub open spec fn upstreams_of(reg: RegV, notes: Seq<Note>) -> (Seq<UpstreamV>, Seq<Note>) {
    let (out, f) = pools_out(reg, reg.pools.len(), notes);
    (out + synth_out(reg), f)
}

// ── Code ────────────────────────────────────────────────────────────────
impl<'a> UpstreamReg<'a> {
    pub fn new(pools: &'a Vec<Pool>) -> (r: UpstreamReg<'a>)
        ensures
            r@ == (RegV { pools: text::views(pools@), uses: seq![], synth: seq![] }),
    {
        let r = UpstreamReg { pools, uses: Vec::new(), synth: Vec::new() };
        assert(r@ =~= (RegV { pools: text::views(pools@), uses: seq![], synth: seq![] }));
        r
    }

    fn has_pool(&self, name: &str) -> (r: bool)
        ensures
            r == pool_named(self@.pools, name@),
    {
        let mut i: usize = 0;
        while i < self.pools.len()
            invariant
                i <= self.pools.len(),
                forall|j: int| 0 <= j < i ==> (#[trigger] self@.pools[j]).name != name@,
            decreases self.pools.len() - i,
        {
            assert(self@.pools[i as int] == self.pools@[i as int]@);
            if same(self.pools[i].name.as_str(), name) {
                return true;
            }
            i += 1;
        }
        false
    }

    fn find_use(&self, name: &str) -> (r: usize)
        ensures
            r == use_index(self@.uses, name@, 0),
            r <= self.uses.len(),
    {
        let mut i: usize = 0;
        while i < self.uses.len()
            invariant
                i <= self.uses.len(),
                use_index(self@.uses, name@, 0) == use_index(self@.uses, name@, i as nat),
            decreases self.uses.len() - i,
        {
            assert(self@.uses[i as int] == self.uses@[i as int]@);
            if same(self.uses[i].name.as_str(), name) {
                return i;
            }
            i += 1;
        }
        i
    }

    fn find_synth(&self, url: &str) -> (r: usize)
        ensures
            r == synth_index(self@.synth, url@, 0),
            r <= self.synth.len(),
    {
        let mut i: usize = 0;
        while i < self.synth.len()
            invariant
                i <= self.synth.len(),
                synth_index(self@.synth, url@, 0) == synth_index(self@.synth, url@, i as nat),
            decreases self.synth.len() - i,
        {
            assert(self@.synth[i as int] == self.synth@[i as int]@);
            if same(self.synth[i].url.as_str(), url) {
                return i;
            }
            i += 1;
        }
        i
    }

    pub fn name_taken(&self, name: &str) -> (r: bool)
        ensures
            r == taken(self@, name@),
    {
        let mut i: usize = 0;
        while i < self.synth.len()
            invariant
                i <= self.synth.len(),
                forall|j: int| 0 <= j < i ==> (#[trigger] self@.synth[j]).name != name@,
            decreases self.synth.len() - i,
        {
            assert(self@.synth[i as int] == self.synth@[i as int]@);
            if same(self.synth[i].name.as_str(), name) {
                return true;
            }
            i += 1;
        }
        let mut i: usize = 0;
        while i < self.pools.len()
            invariant
                i <= self.pools.len(),
                forall|j: int| 0 <= j < i ==> safe_name((#[trigger] self@.pools[j]).name) != name@,
                forall|j: int|
                    0 <= j < self@.synth.len() ==> (#[trigger] self@.synth[j]).name != name@,
            decreases self.pools.len() - i,
        {
            assert(self@.pools[i as int] == self.pools@[i as int]@);
            if same(sanitize_name(self.pools[i].name.as_str()).as_str(), name) {
                return true;
            }
            i += 1;
        }
        false
    }

    fn unused_name(&self, base: &str) -> (r: String)
        ensures
            r@ == free_name(self@, safe_name(base@)),
    {
        let mut name = sanitize_name(base);
        while self.name_taken(name.as_str())
            invariant
                free_name(self@, safe_name(base@)) == free_name(self@, name@),
            decreases longest(self@) + 1 - name@.len(),
        {
            proof {
                lemma_taken_length(self@, name@);
            }
            name.push('_');
        }
        name
    }

    pub fn resolve(
        &mut self,
        scheme: &str,
        target: &str,
        timeout_ms: Option<u64>,
        line: u32,
        findings: &mut Vec<Finding>,
    ) -> (r: String)
        ensures
            (Resolved { reg: final(self)@, name: r@, notes: text::views(final(findings)@) })
                == resolve_of(
                old(self)@,
                scheme@,
                target@,
                timeout_ms,
                line as int,
                text::views(old(findings)@),
            ),
    {
        let ghost before = self@;
        if self.has_pool(target) {
            let i: usize = self.find_use(target);
            if i < self.uses.len() {
                assert(self@.uses[i as int] == self.uses@[i as int]@);
                if !same(self.uses[i].scheme.as_str(), scheme) {
                    let why = cat5(
                        "pool '",
                        target,
                        "' referenced with both http and https — ",
                        self.uses[i].scheme.as_str(),
                        " kept",
                    );
                    file(findings, Status::Partial, line, "proxy_pass", why.as_str());
                }
                if self.uses[i].timeout.is_none() {
                    self.uses[i].timeout = timeout_ms;
                }
                assert(self@.uses =~= before.uses.update(i as int, self.uses@[i as int]@));
            } else {
                self.uses.push(
                    PoolUse { name: own(target), scheme: own(scheme), timeout: timeout_ms },
                );
            }
            return sanitize_name(target);
        }
        let url = cat3(scheme, "://", target);
        let i: usize = self.find_synth(url.as_str());
        if i < self.synth.len() {
            assert(self@.synth[i as int] == self.synth@[i as int]@);
            if self.synth[i].timeout.is_none() {
                self.synth[i].timeout = timeout_ms;
            }
            assert(self@.synth =~= before.synth.update(i as int, self.synth@[i as int]@));
            return self.synth[i].name.clone();
        }
        let name = self.unused_name(target);
        self.synth.push(Synth { url, name: name.clone(), timeout: timeout_ms });
        name
    }

    /// Emits the upstream sections.
    pub fn finish(self, findings: &mut Vec<Finding>) -> (r: Vec<UpstreamOut>)
        ensures
            (text::views(r@), text::views(final(findings)@)) == upstreams_of(
                self@,
                text::views(old(findings)@),
            ),
    {
        let ghost reg = self@;
        let ghost notes = text::views(findings@);
        let mut out: Vec<UpstreamOut> = Vec::new();
        let mut i: usize = 0;
        assert(text::views(out@) =~= seq![]);
        while i < self.pools.len()
            invariant
                i <= self.pools.len(),
                reg == self@,
                (text::views(out@), text::views(findings@)) == pools_out(reg, i as nat, notes),
            decreases self.pools.len() - i,
        {
            assert(reg.pools[i as int] == self.pools@[i as int]@);
            self.finish_pool(&self.pools[i], &mut out, findings);
            i += 1;
        }
        let ghost pools = text::views(out@);
        let mut j: usize = 0;
        assert(pools + synth_out(reg).take(0) =~= pools);
        while j < self.synth.len()
            invariant
                j <= self.synth.len(),
                reg == self@,
                text::views(out@) == pools + synth_out(reg).take(j as int),
            decreases self.synth.len() - j,
        {
            let s: &Synth = &self.synth[j];
            assert(reg.synth[j as int] == s@);
            let u = UpstreamOut {
                name: s.name.clone(),
                urls: vec![s.url.clone()],
                connect_timeout_ms: s.timeout,
                keepalive: None,
            };
            assert(u@.urls =~= seq![s.url@]);
            assert(u@ =~= synth_out(reg)[j as int]);
            out.push(u);
            assert(text::views(out@) =~= pools + synth_out(reg).take(j + 1));
            j += 1;
        }
        assert(synth_out(reg).take(j as int) =~= synth_out(reg));
        out
    }

    fn finish_pool(&self, pool: &Pool, out: &mut Vec<UpstreamOut>, findings: &mut Vec<Finding>)
        ensures
            (text::views(final(out)@), text::views(final(findings)@)) == pool_step(
                self@,
                pool@,
                text::views(old(out)@),
                text::views(old(findings)@),
            ),
    {
        let i: usize = self.find_use(pool.name.as_str());
        let used = i < self.uses.len();
        let scheme: &str = if used {
            self.uses[i].scheme.as_str()
        } else {
            "http"
        };
        let timeout: Option<u64> = if used {
            self.uses[i].timeout
        } else {
            None
        };
        if used {
            assert(self@.uses[i as int] == self.uses@[i as int]@);
        } else {
            let why = cat3(
                "pool '",
                pool.name.as_str(),
                "' is not referenced by any converted route",
            );
            file(findings, Status::Auto, pool.line, "upstream", why.as_str());
        }
        let urls = map_members(pool, scheme, findings);
        map_extras(pool, findings);
        if pool.keepalive.is_some() {
            file(
                findings,
                Status::Convert,
                pool.line,
                "keepalive",
                "upstream keepalive pool size",
            );
        }
        if urls.len() == 0 {
            let why = cat3("pool '", pool.name.as_str(), "' has no usable members — omitted");
            file(findings, Status::Unsupported, pool.line, "upstream", why.as_str());
        } else {
            out.push(
                UpstreamOut {
                    name: sanitize_name(pool.name.as_str()),
                    urls,
                    connect_timeout_ms: timeout,
                    keepalive: pool.keepalive,
                },
            );
        }
    }
}

fn map_members(pool: &Pool, scheme: &str, findings: &mut Vec<Finding>) -> (r: Vec<String>)
    ensures
        (text::views(r@), text::views(final(findings)@)) == members_of(
            pool@.servers,
            pool@.servers.len(),
            scheme@,
            text::views(old(findings)@),
        ),
{
    let ghost notes = text::views(findings@);
    let mut urls: Vec<String> = Vec::new();
    let mut i: usize = 0;
    assert(text::views(urls@) =~= seq![]);
    while i < pool.servers.len()
        invariant
            i <= pool.servers.len(),
            (text::views(urls@), text::views(findings@)) == members_of(
                pool@.servers,
                i as nat,
                scheme@,
                notes,
            ),
        decreases pool.servers.len() - i,
    {
        let s: &PoolServer = &pool.servers[i];
        assert(pool@.servers[i as int] == s@);
        let addr: &str = s.addr.as_str();
        if starts_with(addr, "unix:") {
            let why = cat3(
                "unix domain socket member '",
                addr,
                "' — Zion upstreams are TCP http(s) only; member omitted",
            );
            file(findings, Status::Unsupported, s.line, "server", why.as_str());
        } else {
            map_member_flags(s, findings);
            if text::list_has(&s.flags, "down") {
                let why = cat3("'", addr, "' marked down — omitted");
                file(findings, Status::Convert, s.line, "server", why.as_str());
            } else {
                urls.push(cat3(scheme, "://", addr));
            }
        }
        i += 1;
    }
    urls
}

fn map_member_flags(s: &PoolServer, findings: &mut Vec<Finding>)
    ensures
        text::views(final(findings)@) == member_flags(
            s@,
            s@.flags.len(),
            text::views(old(findings)@),
        ),
{
    let ghost notes = text::views(findings@);
    let addr: &str = s.addr.as_str();
    let mut i: usize = 0;
    while i < s.flags.len()
        invariant
            i <= s.flags.len(),
            addr@ == s.addr@,
            text::views(findings@) == member_flags(s@, i as nat, notes),
        decreases s.flags.len() - i,
    {
        let flag: &str = s.flags[i].as_str();
        assert(s@.flags[i as int] == flag@);
        if same(flag, "down") {
        } else if same(flag, "backup") {
            let why = cat3(
                "'",
                addr,
                "' is a backup — Zion's health-gated LB has no primary/backup tiers; included as a regular member",
            );
            file(findings, Status::Unsupported, s.line, "server", why.as_str());
        } else {
            let why = cat5(
                "flag '",
                flag,
                "' on '",
                addr,
                "' — Zion's LB is fixed (health-gated lowest-latency)",
            );
            file(findings, Status::Unsupported, s.line, "server", why.as_str());
        }
        i += 1;
    }
}

fn map_extras(pool: &Pool, findings: &mut Vec<Finding>)
    ensures
        text::views(final(findings)@) == extra_notes(
            pool@.extras,
            pool@.extras.len(),
            text::views(old(findings)@),
        ),
{
    let ghost notes = text::views(findings@);
    let mut i: usize = 0;
    while i < pool.extras.len()
        invariant
            i <= pool.extras.len(),
            text::views(findings@) == extra_notes(pool@.extras, i as nat, notes),
        decreases pool.extras.len() - i,
    {
        let d: &Directive = &pool.extras[i];
        assert(pool@.extras[i as int] == d@);
        let name: &str = d.name.as_str();
        if same(name, "least_conn") || same(name, "ip_hash") || same(name, "hash") || same(
            name,
            "random",
        ) || same(name, "sticky") {
            file(
                findings,
                Status::Unsupported,
                d.line,
                name,
                "Zion's load balancing is fixed: healthiest member, lowest EWMA latency (no strategy knob)",
            );
        } else {
            findings.push(Finding::unsupported_directive(d));
        }
        i += 1;
    }
}

// ── Laws ────────────────────────────────────────────────────────────────
/// A name that only bare TOML key characters make up.
pub open spec fn key_text(s: Seq<char>) -> bool {
    forall|i: int| 0 <= i < s.len() ==> key_char(#[trigger] s[i])
}

/// What the registry keeps: every made-up name is a bare TOML key, no two
/// upstreams share it, it is no pool's name, and no URL has two names.
pub open spec fn reg_wf(reg: RegV) -> bool {
    &&& forall|i: int| 0 <= i < reg.synth.len() ==> key_text((#[trigger] reg.synth[i]).name)
    &&& forall|i: int, j: int|
        0 <= i < j < reg.synth.len() ==> (#[trigger] reg.synth[i]).name != (
        #[trigger] reg.synth[j]).name && reg.synth[i].url != reg.synth[j].url
    &&& forall|i: int, j: int|
        0 <= i < reg.synth.len() && 0 <= j < reg.pools.len() ==> (#[trigger] reg.synth[i]).name
            != safe_name((#[trigger] reg.pools[j]).name)
}

proof fn lemma_free_name(reg: RegV, name: Seq<char>)
    requires
        key_text(name),
    ensures
        !taken(reg, free_name(reg, name)),
        key_text(free_name(reg, name)),
    decreases longest(reg) + 1 - name.len(),
{
    if taken(reg, name) {
        lemma_taken_length(reg, name);
        lemma_free_name(reg, name.push('_'));
    }
}

proof fn lemma_synth_index(synth: Seq<SynthV>, url: Seq<char>, i: nat)
    requires
        i <= synth.len(),
    ensures
        i <= synth_index(synth, url, i) <= synth.len(),
        synth_index(synth, url, i) < synth.len() ==> synth[synth_index(synth, url, i) as int].url
            == url,
        forall|j: int| i <= j < synth_index(synth, url, i) ==> (#[trigger] synth[j]).url != url,
    decreases synth.len() - i,
{
    if i < synth.len() && synth[i as int].url != url {
        lemma_synth_index(synth, url, i + 1);
    }
}

/// Resolving a target keeps the registry well-formed: the names of all
/// upstreams that were made for direct targets stay distinct and safe.
pub proof fn law_resolve_keeps_names_distinct(
    reg: RegV,
    scheme: Seq<char>,
    target: Seq<char>,
    timeout: Option<u64>,
    line: int,
    notes: Seq<Note>,
)
    requires
        reg_wf(reg),
    ensures
        reg_wf(resolve_of(reg, scheme, target, timeout, line, notes).reg),
        key_text(resolve_of(reg, scheme, target, timeout, line, notes).name),
{
    let r = resolve_of(reg, scheme, target, timeout, line, notes);
    if pool_named(reg.pools, target) {
        assert(r.reg.synth == reg.synth && r.reg.pools == reg.pools);
    } else {
        let url = scheme + "://"@ + target;
        let i = synth_index(reg.synth, url, 0);
        lemma_synth_index(reg.synth, url, 0);
        lemma_free_name(reg, safe_name(target));
        if i >= reg.synth.len() {
            let n = reg.synth.len() as int;
            assert forall|a: int, b: int| 0 <= a < b < r.reg.synth.len() implies (
            #[trigger] r.reg.synth[a]).name != (#[trigger] r.reg.synth[b]).name
                && r.reg.synth[a].url != r.reg.synth[b].url by {
                assert(r.reg.synth[a] == reg.synth[a]);
                if b < n {
                    assert(r.reg.synth[b] == reg.synth[b]);
                }
            }
            assert forall|a: int, j: int|
                0 <= a < r.reg.synth.len() && 0 <= j < r.reg.pools.len() implies (
            #[trigger] r.reg.synth[a]).name != safe_name((#[trigger] r.reg.pools[j]).name) by {
                if a < n {
                    assert(r.reg.synth[a] == reg.synth[a]);
                }
            }
            assert forall|a: int| 0 <= a < r.reg.synth.len() implies key_text(
                (#[trigger] r.reg.synth[a]).name,
            ) by {
                if a < n {
                    assert(r.reg.synth[a] == reg.synth[a]);
                }
            }
        } else {
            assert forall|a: int| 0 <= a < r.reg.synth.len() implies (#[trigger] r.reg.synth[a]).name
                == reg.synth[a].name && r.reg.synth[a].url == reg.synth[a].url by {}
        }
    }
}

/// Resolving the same target again gives the same name and adds no upstream.
pub proof fn law_resolve_again_gives_same_name(
    reg: RegV,
    scheme: Seq<char>,
    target: Seq<char>,
    timeout: Option<u64>,
    again: Option<u64>,
    line: int,
    notes: Seq<Note>,
)
    ensures
        ({
            let first = resolve_of(reg, scheme, target, timeout, line, notes);
            let second = resolve_of(first.reg, scheme, target, again, line, first.notes);
            second.name == first.name && second.reg.synth.len() == first.reg.synth.len()
        }),
{
    let first = resolve_of(reg, scheme, target, timeout, line, notes);
    let url = scheme + "://"@ + target;
    if !pool_named(reg.pools, target) {
        let i = synth_index(reg.synth, url, 0);
        let k = synth_index(first.reg.synth, url, 0);
        lemma_synth_index(reg.synth, url, 0);
        lemma_synth_index(first.reg.synth, url, 0);
        assert(first.reg.synth[i as int].url == url);
        assert(k <= i);
        if k < i {
            assert(first.reg.synth[k as int].url == reg.synth[k as int].url);
        }
    }
}

} // verus!
