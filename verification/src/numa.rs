//! A map in shards, one for each NUMA node, and the topology it is made for.
//!
//! An entry lands in the shard of the node that the calling thread runs on; a
//! lookup tries that shard first and then the others. A worker handles the whole
//! life of a connection, so what it looks up is mostly what it put there.
use crate::text;
use crate::text::{parse_u64, split, split_once, trim};
use dashmap::DashMap;
use std::collections::hash_map::RandomState;
use vstd::prelude::*;

verus! {

broadcast use crate::text::group_views;

/// The most shards that a map is split into.
pub const MAX_SHARDS: usize = 16;

/// How many CPU ids the topology knows of.
pub const MAX_CPU_ID: usize = 4096;

// ── Shards ──────────────────────────────────────────────────────────────
/// `dashmap::DashMap`, a concurrent map.
#[verifier::external_type_specification]
#[verifier::external_body]
#[verifier::reject_recursive_types(K)]
#[verifier::reject_recursive_types(V)]
#[verifier::reject_recursive_types(S)]
pub struct ExDashMap<K, V, S>(dashmap::DashMap<K, V, S>);

/// The entries of a shard.
pub uninterp spec fn entries(m: DashMap<u64, u64, RandomState>) -> Map<u64, u64>;

pub open spec fn no_entries() -> Map<u64, u64> {
    Map::empty()
}

/// `DashMap::new` makes an empty map.
#[verifier::external_body]
fn new_shard() -> (r: DashMap<u64, u64, RandomState>)
    ensures
        entries(r) == no_entries(),
{
    DashMap::new()
}

/// `DashMap::get` finds the value of a key; it is handed out as a copy.
#[verifier::external_body]
fn shard_get(m: &DashMap<u64, u64, RandomState>, k: u64) -> (r: Option<u64>)
    ensures
        r == (if entries(*m).dom().contains(k) {
            Some(entries(*m)[k])
        } else {
            None
        }),
{
    m.get(&k).map(|r| *r.value())
}

/// `DashMap::insert` sets the value of a key and gives back the one before.
#[verifier::external_body]
fn shard_insert(m: &mut DashMap<u64, u64, RandomState>, k: u64, v: u64) -> (r: Option<u64>)
    ensures
        entries(*final(m)) == entries(*old(m)).insert(k, v),
        r == (if entries(*old(m)).dom().contains(k) {
            Some(entries(*old(m))[k])
        } else {
            None
        }),
{
    m.insert(k, v)
}

/// `DashMap::remove` takes a key out and gives back its entry.
#[verifier::external_body]
fn shard_remove(m: &mut DashMap<u64, u64, RandomState>, k: u64) -> (r: Option<(u64, u64)>)
    ensures
        entries(*final(m)) == entries(*old(m)).remove(k),
        r == (if entries(*old(m)).dom().contains(k) {
            Some((k, entries(*old(m))[k]))
        } else {
            None
        }),
{
    m.remove(&k)
}

/// There are `n` entries.
pub open spec fn sized(m: Map<u64, u64>, n: nat) -> bool {
    m.dom().finite() && m.dom().len() == n
}

/// `DashMap::len` counts the entries.
#[verifier::external_body]
fn shard_len(m: &DashMap<u64, u64, RandomState>) -> (r: usize)
    ensures
        sized(entries(*m), r as nat),
{
    m.len()
}

/// A list of all entries of a map, each once.
pub open spec fn lists(s: Seq<(u64, u64)>, m: Map<u64, u64>) -> bool {
    &&& forall|i: int|
        0 <= i < s.len() ==> m.dom().contains((#[trigger] s[i]).0) && m[s[i].0] == s[i].1
    &&& forall|i: int, j: int| 0 <= i < j < s.len() ==> (#[trigger] s[i]).0 != (#[trigger] s[j]).0
    &&& forall|k: u64| #[trigger] m.dom().contains(k) ==> s.contains((k, m[k]))
}

/// `DashMap::iter` visits every entry once, in no particular order; the entries
/// are handed out as copies.
#[verifier::external_body]
fn shard_entries(m: &DashMap<u64, u64, RandomState>) -> (r: Vec<(u64, u64)>)
    ensures
        lists(r@, entries(*m)),
{
    m.iter().map(|r| (*r.key(), *r.value())).collect()
}

// ── Sharded map ─────────────────────────────────────────────────────────
/// The entries of each shard.
pub open spec fn maps_of(v: Seq<DashMap<u64, u64, RandomState>>) -> Seq<Map<u64, u64>> {
    Seq::new(v.len(), |i: int| entries(v[i]))
}

/// The shard that a node prefers.
pub open spec fn local_of(n: nat, node: nat) -> int {
    if n <= 1 {
        0
    } else {
        (node % n) as int
    }
}

/// The first shard from `from` on, other than `local`, that holds the key.
pub open spec fn other_with(s: Seq<Map<u64, u64>>, local: int, k: u64, from: int) -> int
    decreases s.len() - from,
{
    if from < 0 || from >= s.len() {
        from
    } else if from != local && s[from].dom().contains(k) {
        from
    } else {
        other_with(s, local, k, from + 1)
    }
}

/// What a lookup finds: in the local shard, else in the first other one.
pub open spec fn found(s: Seq<Map<u64, u64>>, local: int, k: u64) -> Option<u64> {
    let i = other_with(s, local, k, 0);
    if s[local].dom().contains(k) {
        Some(s[local][k])
    } else if i < s.len() {
        Some(s[i][k])
    } else {
        None
    }
}

/// The shards without the key outside the local one.
pub open spec fn purged(s: Seq<Map<u64, u64>>, local: int, k: u64) -> Seq<Map<u64, u64>> {
    let i = other_with(s, local, k, 0);
    if i < s.len() {
        s.update(i, s[i].remove(k))
    } else {
        s
    }
}

pub open spec fn inserted(s: Seq<Map<u64, u64>>, local: int, k: u64, v: u64) -> Seq<Map<u64, u64>> {
    let p = purged(s, local, k);
    p.update(local, p[local].insert(k, v))
}

pub open spec fn removed(s: Seq<Map<u64, u64>>, local: int, k: u64) -> Seq<Map<u64, u64>> {
    if s[local].dom().contains(k) {
        s.update(local, s[local].remove(k))
    } else {
        purged(s, local, k)
    }
}

/// Every key is in at most one shard.
pub open spec fn one_shard_per_key(s: Seq<Map<u64, u64>>) -> bool {
    forall|i: int, j: int, k: u64|
        0 <= i < s.len() && 0 <= j < s.len() && i != j && #[trigger] s[i].dom().contains(k)
            ==> !#[trigger] s[j].dom().contains(k)
}

/// The entries of the first `n` shards together.
pub open spec fn total_len(s: Seq<Map<u64, u64>>, n: nat) -> nat
    decreases n,
{
    if n == 0 {
        0
    } else {
        total_len(s, (n - 1) as nat) + s[n - 1].dom().len()
    }
}

proof fn lemma_other_with(s: Seq<Map<u64, u64>>, local: int, k: u64, from: int)
    requires
        0 <= from <= s.len(),
    ensures
        ({
            let i = other_with(s, local, k, from);
            &&& from <= i <= s.len()
            &&& i < s.len() ==> i != local && s[i].dom().contains(k)
            &&& i == s.len() ==> forall|j: int|
                from <= j < s.len() && j != local ==> !(#[trigger] s[j]).dom().contains(k)
        }),
    decreases s.len() - from,
{
    if from < s.len() && !(from != local && s[from].dom().contains(k)) {
        lemma_other_with(s, local, k, from + 1);
    }
}

/// A map in shards. The node that the calling thread runs on picks the shard.
pub struct NumaAwareMap {
    shards: Vec<DashMap<u64, u64, RandomState>>,
}

impl View for NumaAwareMap {
    type V = Seq<Map<u64, u64>>;

    closed spec fn view(&self) -> Seq<Map<u64, u64>> {
        maps_of(self.shards@)
    }
}

impl NumaAwareMap {
    /// There is a shard, and no key is in two.
    pub open spec fn wf(&self) -> bool {
        self@.len() >= 1 && one_shard_per_key(self@)
    }

    /// The shard that a node prefers.
    pub open spec fn local(&self, node: usize) -> int {
        local_of(self@.len(), node as nat)
    }

    /// An empty map with a shard for each of `nodes` nodes.
    pub fn new(nodes: usize) -> (r: NumaAwareMap)
        requires
            nodes >= 1,
        ensures
            r.wf(),
            r@ == Seq::new(nodes as nat, |i: int| no_entries()),
    {
        let mut shards: Vec<DashMap<u64, u64, RandomState>> = Vec::new();
        let mut i: usize = 0;
        while i < nodes
            invariant
                i <= nodes,
                maps_of(shards@) == Seq::new(i as nat, |j: int| no_entries()),
            decreases nodes - i,
        {
            let ghost before = maps_of(shards@);
            shards.push(new_shard());
            assert(maps_of(shards@) =~= before.push(no_entries()));
            assert(maps_of(shards@) =~= Seq::new((i + 1) as nat, |j: int| no_entries()));
            i += 1;
        }
        NumaAwareMap { shards }
    }

    /// An empty map with a given number of shards, kept between 1 and the most
    /// that are used.
    pub fn with_shards(n: usize) -> (r: NumaAwareMap)
        ensures
            r.wf(),
            r@ == Seq::new(
                (if n < 1 {
                    1
                } else if n > MAX_SHARDS {
                    MAX_SHARDS as nat
                } else {
                    n as nat
                }),
                |i: int| no_entries(),
            ),
    {
        if n < 1 {
            NumaAwareMap::new(1)
        } else if n > MAX_SHARDS {
            NumaAwareMap::new(MAX_SHARDS)
        } else {
            NumaAwareMap::new(n)
        }
    }

    pub fn shard_count(&self) -> (r: usize)
        ensures
            r == self@.len(),
    {
        self.shards.len()
    }

    /// The number of entries of each shard.
    pub fn shard_lens(&self) -> (r: Vec<usize>)
        ensures
            r@.len() == self@.len(),
            forall|i: int| 0 <= i < r@.len() ==> sized(self@[i], #[trigger] r@[i] as nat),
    {
        let mut out: Vec<usize> = Vec::new();
        let mut i: usize = 0;
        while i < self.shards.len()
            invariant
                i <= self.shards.len(),
                out@.len() == i,
                forall|j: int| 0 <= j < i ==> sized(self@[j], #[trigger] out@[j] as nat),
            decreases self.shards.len() - i,
        {
            out.push(shard_len(&self.shards[i]));
            i += 1;
        }
        out
    }

    fn local_idx(&self, node: usize) -> (r: usize)
        requires
            self@.len() >= 1,
        ensures
            r == self.local(node),
            r < self@.len(),
    {
        let n: usize = self.shards.len();
        if n <= 1 {
            0
        } else {
            node % n
        }
    }

    /// Looks a key up from a node.
    pub fn get(&self, node: usize, k: u64) -> (r: Option<u64>)
        requires
            self@.len() >= 1,
        ensures
            r == found(self@, self.local(node), k),
    {
        let local: usize = self.local_idx(node);
        if let Some(v) = shard_get(&self.shards[local], k) {
            return Some(v);
        }
        let mut i: usize = 0;
        while i < self.shards.len()
            invariant
                i <= self.shards.len(),
                local == self.local(node),
                local < self@.len(),
                !self@[local as int].dom().contains(k),
                other_with(self@, local as int, k, 0) == other_with(
                    self@,
                    local as int,
                    k,
                    i as int,
                ),
            decreases self.shards.len() - i,
        {
            if i != local {
                if let Some(v) = shard_get(&self.shards[i], k) {
                    return Some(v);
                }
            }
            i += 1;
        }
        None
    }

    /// Takes the key out of the first shard other than `local` that holds it.
    fn purge(&mut self, local: usize, k: u64) -> (r: Option<(u64, u64)>)
        ensures
            final(self)@ == purged(old(self)@, local as int, k),
            r == (if other_with(old(self)@, local as int, k, 0) < old(self)@.len() {
                Some((k, old(self)@[other_with(old(self)@, local as int, k, 0)][k]))
            } else {
                None
            }),
    {
        let ghost s = self@;
        let mut i: usize = 0;
        while i < self.shards.len()
            invariant
                i <= self.shards.len(),
                self@ == s,
                s == old(self)@,
                other_with(s, local as int, k, 0) == other_with(s, local as int, k, i as int),
            decreases self.shards.len() - i,
        {
            if i != local {
                let ghost before = self.shards@;
                let taken = shard_remove(&mut self.shards[i], k);
                assert(self@ =~= s.update(i as int, s[i as int].remove(k)));
                match taken {
                    Some(e) => {
                        return Some(e);
                    },
                    None => {
                        assert(s[i as int].remove(k) =~= s[i as int]);
                        assert(self@ =~= s);
                    },
                }
            }
            i += 1;
        }
        None
    }

    /// Sets the value of a key in the local shard. A key that lives elsewhere is
    /// taken from there first. Gives back the value that the local shard had.
    pub fn insert(&mut self, node: usize, k: u64, v: u64) -> (r: Option<u64>)
        requires
            old(self).wf(),
        ensures
            final(self).wf(),
            final(self)@ == inserted(old(self)@, old(self).local(node), k, v),
            r == (if old(self)@[old(self).local(node)].dom().contains(k) {
                Some(old(self)@[old(self).local(node)][k])
            } else {
                None
            }),
    {
        let local: usize = self.local_idx(node);
        let ghost s = self@;
        proof {
            lemma_other_with(s, local as int, k, 0);
        }
        self.purge(local, k);
        let ghost p = self@;
        assert(p.len() == s.len() && p[local as int] == s[local as int]);
        assert(p.len() == self.shards@.len());
        let before = shard_insert(&mut self.shards[local], k, v);
        assert(self@ =~= p.update(local as int, p[local as int].insert(k, v)));
        proof {
            law_insert_keeps_one_shard_per_key(s, local as int, k, v);
        }
        before
    }

    /// Takes a key out, wherever it lives.
    pub fn remove(&mut self, node: usize, k: u64) -> (r: Option<(u64, u64)>)
        requires
            old(self).wf(),
        ensures
            final(self).wf(),
            final(self)@ == removed(old(self)@, old(self).local(node), k),
            r == (match found(old(self)@, old(self).local(node), k) {
                Some(v) => Some((k, v)),
                None => None,
            }),
    {
        let local: usize = self.local_idx(node);
        let ghost s = self@;
        proof {
            lemma_other_with(s, local as int, k, 0);
            law_remove_keeps_one_shard_per_key(s, local as int, k);
        }
        let taken = shard_remove(&mut self.shards[local], k);
        assert(self@ =~= s.update(local as int, s[local as int].remove(k)));
        match taken {
            Some(e) => Some(e),
            None => {
                assert(s[local as int].remove(k) =~= s[local as int]);
                assert(self@ =~= s);
                self.purge(local, k)
            },
        }
    }

    /// The number of entries in all shards.
    pub fn len(&self) -> (r: usize)
        requires
            total_len(self@, self@.len()) <= usize::MAX,
        ensures
            r == total_len(self@, self@.len()),
    {
        let mut sum: usize = 0;
        let mut i: usize = 0;
        while i < self.shards.len()
            invariant
                i <= self.shards.len(),
                sum == total_len(self@, i as nat),
                total_len(self@, self@.len()) <= usize::MAX,
            decreases self.shards.len() - i,
        {
            proof {
                lemma_total_grows(self@, (i + 1) as nat, self@.len());
            }
            sum = sum + shard_len(&self.shards[i]);
            i += 1;
        }
        sum
    }

    /// Whether no shard has an entry.
    pub fn is_empty(&self) -> (r: bool)
        ensures
            r == forall|i: int, k: u64|
                0 <= i < self@.len() ==> !#[trigger] self@[i].dom().contains(k),
    {
        let mut i: usize = 0;
        while i < self.shards.len()
            invariant
                i <= self.shards.len(),
                forall|j: int, k: u64| 0 <= j < i ==> !#[trigger] self@[j].dom().contains(k),
            decreases self.shards.len() - i,
        {
            let n: usize = shard_len(&self.shards[i]);
            let ghost d = self@[i as int].dom();
            if n != 0 {
                assert(d.len() != 0);
                assert(d.contains(d.choose()));
                return false;
            }
            assert(d =~= Set::empty());
            i += 1;
        }
        true
    }

    /// All entries, shard by shard.
    pub fn iter(&self) -> (r: Vec<Vec<(u64, u64)>>)
        ensures
            r@.len() == self@.len(),
            forall|i: int| 0 <= i < r@.len() ==> lists((#[trigger] r@[i])@, self@[i]),
    {
        let mut out: Vec<Vec<(u64, u64)>> = Vec::new();
        let mut i: usize = 0;
        while i < self.shards.len()
            invariant
                i <= self.shards.len(),
                out@.len() == i,
                forall|j: int| 0 <= j < i ==> lists((#[trigger] out@[j])@, self@[j]),
            decreases self.shards.len() - i,
        {
            out.push(shard_entries(&self.shards[i]));
            i += 1;
        }
        out
    }
}

proof fn lemma_total_grows(s: Seq<Map<u64, u64>>, a: nat, b: nat)
    requires
        a <= b,
    ensures
        total_len(s, a) <= total_len(s, b),
    decreases b,
{
    if a < b {
        lemma_total_grows(s, a, (b - 1) as nat);
    }
}

// ── Laws of the map ─────────────────────────────────────────────────────
/// Inserting keeps every key in at most one shard.
pub proof fn law_insert_keeps_one_shard_per_key(s: Seq<Map<u64, u64>>, local: int, k: u64, v: u64)
    requires
        one_shard_per_key(s),
        0 <= local < s.len(),
    ensures
        one_shard_per_key(inserted(s, local, k, v)),
{
    lemma_other_with(s, local, k, 0);
    let t = inserted(s, local, k, v);
    let i0 = other_with(s, local, k, 0);
    assert forall|i: int, j: int, q: u64|
        0 <= i < t.len() && 0 <= j < t.len() && i != j && #[trigger] t[i].dom().contains(
            q,
        ) implies !#[trigger] t[j].dom().contains(q) by {
        if q == k {
            assert(forall|m: int|
                0 <= m < s.len() && m != local && m != i0 ==> !(#[trigger] s[m]).dom().contains(
                    k,
                ));
        }
    }
}

/// Removing keeps every key in at most one shard.
pub proof fn law_remove_keeps_one_shard_per_key(s: Seq<Map<u64, u64>>, local: int, k: u64)
    requires
        one_shard_per_key(s),
        0 <= local < s.len(),
    ensures
        one_shard_per_key(removed(s, local, k)),
{
    lemma_other_with(s, local, k, 0);
}

/// What was inserted is found, from whatever node.
pub proof fn law_inserted_is_found(
    s: Seq<Map<u64, u64>>,
    local: int,
    k: u64,
    v: u64,
    from: int,
)
    requires
        one_shard_per_key(s),
        0 <= local < s.len(),
        0 <= from < s.len(),
    ensures
        found(inserted(s, local, k, v), from, k) == Some(v),
{
    let t = inserted(s, local, k, v);
    law_insert_keeps_one_shard_per_key(s, local, k, v);
    lemma_other_with(s, local, k, 0);
    lemma_other_with(t, from, k, 0);
    assert(t[local].dom().contains(k));
}

/// What was removed is not found, from whatever node.
pub proof fn law_removed_is_not_found(s: Seq<Map<u64, u64>>, local: int, k: u64, from: int)
    requires
        one_shard_per_key(s),
        0 <= local < s.len(),
        0 <= from < s.len(),
    ensures
        found(removed(s, local, k), from, k) is None,
{
    let t = removed(s, local, k);
    lemma_other_with(s, local, k, 0);
    lemma_other_with(t, from, k, 0);
    assert forall|m: int| 0 <= m < t.len() implies !(#[trigger] t[m]).dom().contains(k) by {
        let i0 = other_with(s, local, k, 0);
        if s[local].dom().contains(k) {
            assert(m == local || !s[m].dom().contains(k));
        } else if i0 < s.len() {
            assert(m == i0 || !s[m].dom().contains(k));
        }
    }
}

/// A lookup finds the same from every node.
pub proof fn law_lookup_does_not_depend_on_node(s: Seq<Map<u64, u64>>, a: int, b: int, k: u64)
    requires
        one_shard_per_key(s),
        0 <= a < s.len(),
        0 <= b < s.len(),
    ensures
        found(s, a, k) == found(s, b, k),
{
    lemma_other_with(s, a, k, 0);
    lemma_other_with(s, b, k, 0);
}

// ── Topology ────────────────────────────────────────────────────────────
/// The numbers from `lo` to `hi`.
pub open spec fn span(lo: nat, hi: nat) -> Seq<usize>
    decreases hi + 1 - lo,
{
    if lo > hi {
        seq![]
    } else {
        seq![lo as usize] + span(lo + 1, hi)
    }
}

/// The numbers of a segment `N` or `N-M`; none where it is neither.
pub open spec fn segment_of(raw: Seq<char>) -> Seq<usize> {
    let s = text::trim_of(raw);
    match text::split_once_of(s, '-') {
        Some((lo, hi)) => match (
            text::parse_dec(lo, usize::MAX as nat),
            text::parse_dec(hi, usize::MAX as nat),
        ) {
            (Some(a), Some(b)) => span(a, b),
            _ => seq![],
        },
        None => match text::parse_dec(s, usize::MAX as nat) {
            Some(n) => seq![n as usize],
            None => seq![],
        },
    }
}

pub open spec fn segments_of(parts: Seq<Seq<char>>, n: nat) -> Seq<usize>
    decreases n,
{
    if n == 0 {
        seq![]
    } else {
        segments_of(parts, (n - 1) as nat) + segment_of(parts[n - 1])
    }
}

/// The numbers of a list such as `0-3,8-11`.
pub open spec fn cpu_list(s: Seq<char>) -> Seq<usize> {
    let parts = text::split_of(text::trim_of(s), ',');
    segments_of(parts, parts.len())
}

fn push_span(out: &mut Vec<usize>, lo: usize, hi: usize)
    ensures
        final(out)@ == old(out)@ + span(lo as nat, hi as nat),
{
    let ghost start = out@;
    if lo > hi {
        assert(out@ =~= start + span(lo as nat, hi as nat));
        return;
    }
    let mut n: usize = lo;
    while n < hi
        invariant
            lo <= n <= hi,
            out@ + span(n as nat, hi as nat) == start + span(lo as nat, hi as nat),
        decreases hi - n,
    {
        let ghost before = out@;
        out.push(n);
        assert(out@ + span((n + 1) as nat, hi as nat) =~= before + span(n as nat, hi as nat));
        n += 1;
    }
    let ghost before = out@;
    out.push(hi);
    assert(span((hi + 1) as nat, hi as nat) =~= seq![]);
    assert(out@ =~= before + span(hi as nat, hi as nat));
}

fn push_segment(out: &mut Vec<usize>, raw: &str)
    ensures
        final(out)@ == old(out)@ + segment_of(raw@),
{
    let ghost start = out@;
    let s = trim(raw);
    match split_once(s.as_str(), '-') {
        Some((lo, hi)) => {
            let a = parse_u64(lo.as_str(), usize::MAX as u64);
            let b = parse_u64(hi.as_str(), usize::MAX as u64);
            if let (Some(a), Some(b)) = (a, b) {
                push_span(out, a as usize, b as usize);
                return;
            }
        },
        None => {
            if let Some(n) = parse_u64(s.as_str(), usize::MAX as u64) {
                out.push(n as usize);
                assert(out@ =~= start + seq![n as usize]);
                return;
            }
        },
    }
    assert(start + Seq::<usize>::empty() =~= start);
}

/// Reads a list such as `0-3,8-11`. Segments that are not numbers are skipped.
pub fn parse_cpu_list(s: &str) -> (r: Vec<usize>)
    ensures
        r@ == cpu_list(s@),
{
    let parts = split(trim(s).as_str(), ',');
    let ghost pv = text::views(parts@);
    let mut out: Vec<usize> = Vec::new();
    let mut i: usize = 0;
    assert(out@ =~= seq![]);
    while i < parts.len()
        invariant
            i <= parts.len(),
            pv == text::views(parts@),
            out@ == segments_of(pv, i as nat),
        decreases parts.len() - i,
    {
        assert(pv[i as int] == parts@[i as int]@);
        push_segment(&mut out, parts[i].as_str());
        i += 1;
    }
    out
}

/// Which node each CPU belongs to, and how many nodes there are.
pub struct Topology {
    pub table: Vec<u8>,
    pub count: usize,
}

/// The table with the first `n` CPUs of a list given to a node.
pub open spec fn assigned(table: Seq<u8>, cpus: Seq<usize>, n: nat, node: u8) -> Seq<u8>
    decreases n,
{
    if n == 0 {
        table
    } else {
        let t = assigned(table, cpus, (n - 1) as nat, node);
        if cpus[n - 1] < t.len() {
            t.update(cpus[n - 1] as int, node)
        } else {
            t
        }
    }
}

/// The shard number of a node.
pub open spec fn node_byte(node: usize) -> u8 {
    if node < MAX_SHARDS {
        node as u8
    } else {
        (MAX_SHARDS - 1) as u8
    }
}

/// The table and the highest node after the first `n` nodes. A node whose list
/// could not be read is skipped.
pub open spec fn nodes_assigned(
    nodes: Seq<usize>,
    lists: Seq<Option<Seq<char>>>,
    n: nat,
) -> (Seq<u8>, usize)
    decreases n,
{
    if n == 0 {
        (Seq::new(MAX_CPU_ID as nat, |i: int| 0u8), 0)
    } else {
        let (table, top) = nodes_assigned(nodes, lists, (n - 1) as nat);
        match lists[n - 1] {
            Some(s) => (
                assigned(table, cpu_list(s), cpu_list(s).len(), node_byte(nodes[n - 1])),
                if nodes[n - 1] > top {
                    nodes[n - 1]
                } else {
                    top
                },
            ),
            None => (table, top),
        }
    }
}

pub open spec fn opt_lists(v: Seq<Option<String>>) -> Seq<Option<Seq<char>>> {
    Seq::new(v.len(), |i: int| text::opt(v[i]))
}

/// The topology: one node where nothing could be read.
pub open spec fn topology_of(online: Option<Seq<char>>, lists: Seq<Option<Seq<char>>>) -> (
    Seq<u8>,
    nat,
) {
    match online {
        Some(s) if cpu_list(s).len() > 0 => {
            let (table, top) = nodes_assigned(cpu_list(s), lists, cpu_list(s).len());
            (
                table,
                if top < MAX_SHARDS {
                    (top + 1) as nat
                } else {
                    MAX_SHARDS as nat
                },
            )
        },
        _ => (Seq::new(MAX_CPU_ID as nat, |i: int| 0u8), 1),
    }
}

proof fn lemma_assigned_len(table: Seq<u8>, cpus: Seq<usize>, n: nat, node: u8)
    ensures
        assigned(table, cpus, n, node).len() == table.len(),
    decreases n,
{
    if n > 0 {
        lemma_assigned_len(table, cpus, (n - 1) as nat, node);
    }
}

fn assign(table: &mut Vec<u8>, cpus: &Vec<usize>, node: u8)
    ensures
        final(table)@ == assigned(old(table)@, cpus@, cpus@.len(), node),
{
    let ghost t = table@;
    let mut i: usize = 0;
    while i < cpus.len()
        invariant
            i <= cpus.len(),
            table@ == assigned(t, cpus@, i as nat, node),
        decreases cpus.len() - i,
    {
        let cpu: usize = cpus[i];
        if cpu < table.len() {
            table[cpu] = node;
        }
        i += 1;
    }
}

fn zero_table() -> (r: Vec<u8>)
    ensures
        r@ == Seq::new(MAX_CPU_ID as nat, |i: int| 0u8),
{
    let mut t: Vec<u8> = Vec::new();
    let mut i: usize = 0;
    while i < MAX_CPU_ID
        invariant
            i <= MAX_CPU_ID,
            t@ == Seq::new(i as nat, |j: int| 0u8),
        decreases MAX_CPU_ID - i,
    {
        t.push(0);
        assert(t@ =~= Seq::new((i + 1) as nat, |j: int| 0u8));
        i += 1;
    }
    t
}

/// Builds the topology from the list of nodes that are online and, for each of
/// them in its order, the list of its CPUs.
pub fn build_table(online: Option<&str>, lists: &Vec<Option<String>>) -> (r: Topology)
    requires
        online matches Some(s) ==> lists@.len() == cpu_list(s@).len(),
    ensures
        (r.table@, r.count as nat) == topology_of(
            match online {
                Some(s) => Some(s@),
                None => None,
            },
            opt_lists(lists@),
        ),
        r.table@.len() == MAX_CPU_ID,
        1 <= r.count <= MAX_SHARDS,
{
    let mut table = zero_table();
    let nodes = match online {
        Some(s) => parse_cpu_list(s),
        None => {
            return Topology { table, count: 1 };
        },
    };
    if nodes.len() == 0 {
        return Topology { table, count: 1 };
    }
    let ghost lv = opt_lists(lists@);
    let mut top: usize = 0;
    let mut i: usize = 0;
    while i < nodes.len()
        invariant
            i <= nodes.len(),
            nodes.len() == lists.len(),
            lv == opt_lists(lists@),
            table@.len() == MAX_CPU_ID,
            (table@, top) == nodes_assigned(nodes@, lv, i as nat),
        decreases nodes.len() - i,
    {
        let n: usize = nodes[i];
        assert(lv[i as int] == text::opt(lists@[i as int]));
        if let Some(s) = &lists[i] {
            let cpus = parse_cpu_list(s.as_str());
            let byte: u8 = if n < MAX_SHARDS {
                n as u8
            } else {
                (MAX_SHARDS - 1) as u8
            };
            proof {
                lemma_assigned_len(table@, cpus@, cpus@.len(), byte);
            }
            assign(&mut table, &cpus, byte);
            if n > top {
                top = n;
            }
        }
        i += 1;
    }
    let count: usize = if top < MAX_SHARDS {
        top + 1
    } else {
        MAX_SHARDS
    };
    Topology { table, count }
}

/// The node of a CPU; 0 for one that the table does not know.
pub fn cpu_to_node(t: &Topology, cpu: usize) -> (r: u8)
    ensures
        r == (if cpu < t.table@.len() {
            t.table@[cpu as int]
        } else {
            0
        }),
{
    if cpu < t.table.len() {
        t.table[cpu]
    } else {
        0
    }
}

/// The number of nodes.
pub fn node_count(t: &Topology) -> (r: usize)
    ensures
        r == t.count,
{
    t.count
}

/// The CPU that the scheduler names; 0 where it failed to.
pub fn current_cpu(raw: i32) -> (r: usize)
    ensures
        r == (if raw < 0 {
            0
        } else {
            raw as int
        }),
{
    if raw < 0 {
        0
    } else {
        raw as usize
    }
}

/// The node that a thread last looked up, and for how many calls it still counts.
#[derive(Clone, Copy)]
pub struct NodeCache {
    pub ticks: u8,
    pub node: u8,
}

/// Whether the node has to be looked up again.
pub fn is_stale(cache: &NodeCache) -> (r: bool)
    ensures
        r == (cache.ticks == 0),
{
    cache.ticks == 0
}

/// The cache after a call, `fresh` being the node that the thread runs on.
pub open spec fn ticked(c: NodeCache, fresh: u8) -> NodeCache {
    if c.ticks == 0 {
        NodeCache { ticks: 255, node: fresh }
    } else {
        NodeCache { ticks: (c.ticks - 1) as u8, ..c }
    }
}

/// The node of the calling thread. A node that was looked up counts for 256
/// calls, so that a thread that moved is routed anew before long.
pub fn current_thread_node(cache: &mut NodeCache, fresh: u8) -> (r: usize)
    ensures
        *final(cache) == ticked(*old(cache), fresh),
        r == final(cache).node,
{
    if cache.ticks == 0 {
        cache.ticks = 255;
        cache.node = fresh;
    } else {
        cache.ticks = cache.ticks - 1;
    }
    cache.node as usize
}

/// The cache after `n` calls on nodes `fresh[0]`, `fresh[1]` and so on.
pub open spec fn ticked_n(c: NodeCache, fresh: Seq<u8>, n: nat) -> NodeCache
    decreases n,
{
    if n == 0 {
        c
    } else {
        ticked(ticked_n(c, fresh, (n - 1) as nat), fresh[n - 1])
    }
}

/// A node that was just looked up is used for this call and the next 255, and
/// no longer.
pub proof fn law_node_is_looked_up_every_256_calls(c: NodeCache, fresh: Seq<u8>, n: nat)
    requires
        c.ticks == 0,
        1 <= n <= 256,
    ensures
        ticked_n(c, fresh, n).node == fresh[0],
        ticked_n(c, fresh, n).ticks == 256 - n,
    decreases n,
{
    if n > 1 {
        law_node_is_looked_up_every_256_calls(c, fresh, (n - 1) as nat);
    } else {
        assert(ticked_n(c, fresh, 0) == c);
    }
}

proof fn lemma_span(lo: nat, hi: nat, n: usize)
    requires
        hi <= usize::MAX,
    ensures
        span(lo, hi).contains(n) <==> lo <= n <= hi,
    decreases hi + 1 - lo,
{
    let s = span(lo, hi);
    if lo <= hi {
        lemma_span(lo + 1, hi, n);
        let t = span(lo + 1, hi);
        assert(s[0] == lo as usize);
        if t.contains(n) {
            let i = choose|i: int| 0 <= i < t.len() && t[i] == n;
            assert(s[i + 1] == n);
        }
        if s.contains(n) {
            let i = choose|i: int| 0 <= i < s.len() && s[i] == n;
            if i > 0 {
                assert(t[i - 1] == n);
            }
        }
    }
}

/// A list `A-B` holds the numbers from the one to the other, and a list `A` the
/// one number.
pub proof fn law_list_holds_its_range(a: nat, b: nat, n: usize)
    requires
        a <= usize::MAX,
        b <= usize::MAX,
    ensures
        cpu_list(text::dec(a) + "-"@ + text::dec(b)).contains(n) <==> a <= n <= b,
        cpu_list(text::dec(a)).contains(n) <==> n == a,
{
    reveal_strlit("-");
    text::lemma_dec(a);
    text::lemma_dec(b);
    let da = text::dec(a);
    let db = text::dec(b);
    let s = da + "-"@ + db;
    assert(s =~= da + seq!['-'] + db);
    assert(text::digit(da[0]));
    assert(text::digit(da[da.len() - 1]));
    assert(text::digit(db[db.len() - 1]));
    crate::words::lemma_untrimmed(s);
    crate::words::lemma_untrimmed(da);
    assert forall|i: int| 0 <= i < s.len() implies s[i] != ',' by {
        if i < da.len() {
            assert(text::digit(da[i]));
        } else if i > da.len() {
            assert(s[i] == db[i - da.len() - 1]);
            assert(text::digit(db[i - da.len() - 1]));
        }
    }
    assert forall|i: int| 0 <= i < da.len() implies da[i] != ',' && da[i] != '-' by {
        assert(text::digit(da[i]));
    }
    lemma_one_part(s);
    lemma_one_part(da);
    reveal_with_fuel(segments_of, 2);
    crate::words::law_split_once_of_joined(da, '-', db);
    crate::words::law_split_once(da, '-');
    if let Some((x, y)) = text::split_once_of(da, '-') {
        assert(da[x.len() as int] == '-');
    }
    text::law_dec_round_trip(a, usize::MAX as nat);
    text::law_dec_round_trip(b, usize::MAX as nat);
    lemma_span(a, b, n);
    assert(segments_of(seq![s], 1) =~= segment_of(s));
    assert(segments_of(seq![da], 1) =~= segment_of(da));
    assert(segment_of(da) =~= seq![a as usize]);
    assert(seq![a as usize].contains(n) <==> n == a) by {
        assert(seq![a as usize][0] == a);
    }
}

proof fn lemma_one_part(s: Seq<char>)
    requires
        forall|i: int| 0 <= i < s.len() ==> s[i] != ',',
    ensures
        text::split_of(s, ',') == seq![s],
{
    text::lemma_index_of(s, ',', 0);
    assert(s.subrange(0, s.len() as int) =~= s);
    assert(text::split_of(s, ',') =~= seq![s]);
}

} // verus!
