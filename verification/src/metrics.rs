//! Counters and latency histograms, and their Prometheus text format.
use crate::clock;
use crate::hex;
use crate::hex::{read_u64_be, to_text, write_hex_u64_be};
use crate::observability;
use crate::observability::{render_counters, Counters};
use crate::page;
use crate::page::Page;
use crate::text;
use bytes::Bytes;
use vstd::prelude::*;
use vstd::utf8;

verus! {

// ── Arithmetic ──────────────────────────────────────────────────────────
/// A number kept to 64 bits.
pub open spec fn wrap(n: int) -> int {
    n % 0x1_0000_0000_0000_0000
}

fn add64(a: u64, b: u64) -> (r: u64)
    ensures
        r == wrap(a + b),
{
    ((a as u128 + b as u128) % 0x1_0000_0000_0000_0000u128) as u64
}

/// The sum of the first `n` numbers.
pub open spec fn total(s: Seq<u64>, n: nat) -> nat
    decreases n,
{
    if n == 0 {
        0
    } else {
        total(s, (n - 1) as nat) + s[n - 1] as nat
    }
}

pub proof fn lemma_total_update(s: Seq<u64>, i: int, v: u64, n: nat)
    requires
        0 <= i < s.len(),
        n <= s.len(),
    ensures
        total(s.update(i, v), n) == (if i < n {
            total(s, n) - s[i] + v
        } else {
            total(s, n) as int
        }),
    decreases n,
{
    if n > 0 {
        lemma_total_update(s, i, v, (n - 1) as nat);
    }
}

pub proof fn lemma_wrap_add(a: int, b: int)
    ensures
        wrap(wrap(a) + b) == wrap(a + b),
        wrap(a + wrap(b)) == wrap(a + b),
{
    vstd::arithmetic::div_mod::lemma_add_mod_noop(a, b, 0x1_0000_0000_0000_0000);
    vstd::arithmetic::div_mod::lemma_add_mod_noop(wrap(a), b, 0x1_0000_0000_0000_0000);
    vstd::arithmetic::div_mod::lemma_add_mod_noop(a, wrap(b), 0x1_0000_0000_0000_0000);
    vstd::arithmetic::div_mod::lemma_mod_twice(a, 0x1_0000_0000_0000_0000);
    vstd::arithmetic::div_mod::lemma_mod_twice(b, 0x1_0000_0000_0000_0000);
}

// ── Latency histogram ───────────────────────────────────────────────────
/// The latest observation of a bucket that came with a trace ID. An ID of zero
/// means that there is none.
#[derive(Debug, Clone, Copy)]
pub struct Exemplar {
    pub trace_hi: u64,
    pub trace_lo: u64,
    pub value_us: u64,
    pub ts_ms: u64,
}

/// A histogram with 16 power-of-two buckets from 1 ms to 32 s, and one for what
/// is longer. Each bucket counts its own range only; cumulative counts are
/// made when the histogram is rendered.
#[derive(Debug)]
pub struct LatencyHistogram {
    pub buckets: [u64; 17],
    pub exemplars: [Exemplar; 17],
    /// Sum of the observations in microseconds.
    pub sum_us: u64,
    /// Number of observations.
    pub count: u64,
}

#[verifier::ext_equal]
pub struct HistogramV {
    pub buckets: Seq<u64>,
    pub exemplars: Seq<Exemplar>,
    pub sum_us: u64,
    pub count: u64,
}

impl View for LatencyHistogram {
    type V = HistogramV;

    open spec fn view(&self) -> HistogramV {
        HistogramV {
            buckets: self.buckets@,
            exemplars: self.exemplars@,
            sum_us: self.sum_us,
            count: self.count,
        }
    }
}

pub open spec fn no_exemplar() -> Exemplar {
    Exemplar { trace_hi: 0, trace_lo: 0, value_us: 0, ts_ms: 0 }
}

pub open spec fn empty_histogram() -> HistogramV {
    HistogramV {
        buckets: Seq::new(17, |i: int| 0u64),
        exemplars: Seq::new(17, |i: int| no_exemplar()),
        sum_us: 0,
        count: 0,
    }
}

/// The upper bound of a bucket in microseconds.
pub open spec fn bound_us(i: nat) -> nat
    decreases i,
{
    if i == 0 {
        1_000
    } else {
        2 * bound_us((i - 1) as nat)
    }
}

/// The first bucket from `i` on whose upper bound is not below the value; the
/// last bucket has none.
pub open spec fn bucket_from(us: nat, i: nat) -> nat
    decreases 16 - i,
{
    if i >= 16 || us <= bound_us(i) {
        i
    } else {
        bucket_from(us, i + 1)
    }
}

pub open spec fn bucket_of(us: nat) -> nat {
    bucket_from(us, 0)
}

/// The histogram after an observation.
pub open spec fn observed(h: HistogramV, us: u64, trace: Option<(u64, u64)>, ts_ms: u64) -> HistogramV {
    let i = bucket_of(us as nat) as int;
    HistogramV {
        buckets: h.buckets.update(i, wrap(h.buckets[i] + 1) as u64),
        exemplars: match trace {
            Some((hi, lo)) => h.exemplars.update(
                i,
                Exemplar { trace_hi: hi, trace_lo: lo, value_us: us, ts_ms },
            ),
            None => h.exemplars,
        },
        sum_us: wrap(h.sum_us + us) as u64,
        count: wrap(h.count + 1) as u64,
    }
}

/// A duration in microseconds, kept to 64 bits.
pub open spec fn kept_us(micros: u128) -> u64 {
    wrap(micros as int) as u64
}

/// The trace ID as two numbers; none where it is all zero.
pub open spec fn trace_parts(id: Seq<u8>) -> Option<(u64, u64)> {
    if observability::all_zero(id) {
        None
    } else {
        Some(
            (
                hex::big_endian(id.subrange(0, 8)) as u64,
                hex::big_endian(id.subrange(8, 16)) as u64,
            ),
        )
    }
}

/// The observations up to and including a bucket.
pub open spec fn cumulative(h: HistogramV, i: nat) -> nat {
    wrap(total(h.buckets, i + 1) as int) as nat
}

/// Every observation is in one bucket.
pub open spec fn consistent(h: HistogramV) -> bool {
    h.buckets.len() == 17 && h.exemplars.len() == 17 && h.count == wrap(
        total(h.buckets, 17) as int,
    )
}

proof fn lemma_bucket_from(us: nat, i: nat)
    requires
        i <= 16,
    ensures
        i <= bucket_from(us, i) <= 16,
    decreases 16 - i,
{
    if i < 16 && us > bound_us(i) {
        lemma_bucket_from(us, i + 1);
    }
}

proof fn lemma_bound(i: nat)
    requires
        i <= 16,
    ensures
        1_000 <= bound_us(i) <= 65_536_000,
    decreases 16 - i,
{
    assert(bound_us(16) == 65_536_000) by {
        reveal_with_fuel(bound_us, 17);
    }
    if i < 16 {
        lemma_bound(i + 1);
        lemma_bound_low(i);
    }
}

proof fn lemma_bound_low(i: nat)
    ensures
        1_000 <= bound_us(i),
    decreases i,
{
    if i > 0 {
        lemma_bound_low((i - 1) as nat);
    }
}

/// What the rank-th observation is at most, by its bucket: the bound of the
/// first bucket from `i` on with that many observations up to it; beyond the
/// last finite bucket, twice its bound.
pub open spec fn quantile_from(h: HistogramV, rank: nat, i: nat) -> nat
    decreases 16 - i,
{
    if i >= 16 {
        2 * bound_us(15)
    } else if cumulative(h, i) >= rank {
        bound_us(i)
    } else {
        quantile_from(h, rank, i + 1)
    }
}

pub open spec fn quantile_of(h: HistogramV, rank: nat) -> nat {
    if h.count == 0 {
        0
    } else {
        quantile_from(h, rank, 0)
    }
}

fn split_trace(id: &[u8; 16]) -> (r: Option<(u64, u64)>)
    ensures
        r == trace_parts(id@),
{
    let mut i: usize = 0;
    while i < 16
        invariant
            i <= 16,
            forall|j: int| 0 <= j < i ==> #[trigger] id@[j] == 0,
        decreases 16 - i,
    {
        if id[i] != 0 {
            return Some((read_u64_be(id, 0), read_u64_be(id, 8)));
        }
        i += 1;
    }
    None
}

impl LatencyHistogram {
    pub fn new() -> (r: LatencyHistogram)
        ensures
            r@ == empty_histogram(),
            consistent(r@),
    {
        let none = Exemplar { trace_hi: 0, trace_lo: 0, value_us: 0, ts_ms: 0 };
        let r = LatencyHistogram {
            buckets: [0u64; 17],
            exemplars: [none; 17],
            sum_us: 0,
            count: 0,
        };
        assert(r@ =~= empty_histogram());
        assert(total(r@.buckets, 17) == 0) by {
            reveal_with_fuel(total, 18);
        }
        r
    }

    /// Records an observation. With a trace ID, the bucket keeps it as its
    /// exemplar, in place of the one before.
    pub fn observe_at(&mut self, micros: u128, trace: Option<(u64, u64)>, ts_ms: u64)
        ensures
            final(self)@ == observed(old(self)@, kept_us(micros), trace, ts_ms),
            consistent(old(self)@) ==> consistent(final(self)@),
    {
        let us: u64 = (micros % 0x1_0000_0000_0000_0000u128) as u64;
        let mut i: usize = 0;
        let mut bound: u64 = 1_000;
        while i < 16 && us > bound
            invariant
                i <= 16,
                bound == bound_us(i as nat),
                bucket_of(us as nat) == bucket_from(us as nat, i as nat),
            decreases 16 - i,
        {
            proof {
                lemma_bound((i + 1) as nat);
            }
            bound = bound * 2;
            i += 1;
        }
        let ghost h = self@;
        self.sum_us = add64(self.sum_us, us);
        self.count = add64(self.count, 1);
        let n: u64 = add64(self.buckets[i], 1);
        self.buckets[i] = n;
        if let Some((hi, lo)) = trace {
            self.exemplars[i] = Exemplar { trace_hi: hi, trace_lo: lo, value_us: us, ts_ms };
        }
        assert(self@ =~= observed(h, us, trace, ts_ms));
        proof {
            lemma_total_update(h.buckets, i as int, n, 17);
            let t = total(h.buckets, 17) as int;
            lemma_wrap_add(t, 1);
            lemma_wrap_add(t - h.buckets[i as int], h.buckets[i as int] + 1);
        }
    }

    /// Records a duration.
    pub fn observe(&mut self, micros: u128)
        ensures
            final(self)@ == observed(old(self)@, kept_us(micros), None, 0),
            consistent(old(self)@) ==> consistent(final(self)@),
    {
        self.observe_at(micros, None, 0);
    }

    /// Records a duration with the trace ID of the request that took it, at
    /// the time of the call.
    pub fn observe_with_trace(&mut self, micros: u128, trace_id: &[u8; 16])
        ensures
            exists|ts_ms: u64|
                final(self)@ == #[trigger] observed(
                    old(self)@,
                    kept_us(micros),
                    trace_parts(trace_id@),
                    ts_ms,
                ),
            consistent(old(self)@) ==> consistent(final(self)@),
    {
        let ts_ms: u64 = clock::unix_millis();
        self.observe_at(micros, split_trace(trace_id), ts_ms);
    }

    /// What the `rank`-th observation is at most, in microseconds. The
    /// resolution is that of the buckets; 0 without observations.
    pub fn quantile_us(&self, rank: u64) -> (r: u64)
        ensures
            r == quantile_of(self@, rank as nat),
    {
        if self.count == 0 {
            return 0;
        }
        let mut seen: u64 = 0;
        let mut bound: u64 = 1_000;
        let mut i: usize = 0;
        assert(total(self.buckets@, 0) == 0);
        while i < 16
            invariant
                i <= 16,
                self.count != 0,
                seen == wrap(total(self.buckets@, i as nat) as int),
                bound == bound_us(i as nat),
                quantile_from(self@, rank as nat, 0) == quantile_from(
                    self@,
                    rank as nat,
                    i as nat,
                ),
            decreases 16 - i,
        {
            proof {
                lemma_wrap_add(
                    total(self.buckets@, i as nat) as int,
                    self.buckets@[i as int] as int,
                );
                lemma_bound((i + 1) as nat);
            }
            seen = add64(seen, self.buckets[i]);
            if seen >= rank {
                return bound;
            }
            bound = bound * 2;
            i += 1;
        }
        bound
    }
}

// ── Histogram text ──────────────────────────────────────────────────────
/// The texts of the values in seconds that a histogram shows: of the sum, and
/// of the exemplar of each bucket.
pub struct HistogramTexts {
    pub sum: String,
    pub values: Vec<String>,
}

#[verifier::ext_equal]
pub struct TextsV {
    pub sum: Seq<char>,
    pub values: Seq<Seq<char>>,
}

impl View for HistogramTexts {
    type V = TextsV;

    open spec fn view(&self) -> TextsV {
        TextsV { sum: self.sum@, values: text::views(self.values@) }
    }
}

/// The upper bound of a bucket in seconds, as a label.
pub open spec fn bound_label(i: int) -> Seq<char> {
    if i == 0 {
        "0.001"@
    } else if i == 1 {
        "0.002"@
    } else if i == 2 {
        "0.004"@
    } else if i == 3 {
        "0.008"@
    } else if i == 4 {
        "0.016"@
    } else if i == 5 {
        "0.032"@
    } else if i == 6 {
        "0.064"@
    } else if i == 7 {
        "0.128"@
    } else if i == 8 {
        "0.256"@
    } else if i == 9 {
        "0.512"@
    } else if i == 10 {
        "1.024"@
    } else if i == 11 {
        "2.048"@
    } else if i == 12 {
        "4.096"@
    } else if i == 13 {
        "8.192"@
    } else if i == 14 {
        "16.384"@
    } else if i == 15 {
        "32.768"@
    } else {
        "+Inf"@
    }
}

fn label_of_bound(i: usize) -> (r: &'static str)
    ensures
        r@ == bound_label(i as int),
{
    if i == 0 {
        "0.001"
    } else if i == 1 {
        "0.002"
    } else if i == 2 {
        "0.004"
    } else if i == 3 {
        "0.008"
    } else if i == 4 {
        "0.016"
    } else if i == 5 {
        "0.032"
    } else if i == 6 {
        "0.064"
    } else if i == 7 {
        "0.128"
    } else if i == 8 {
        "0.256"
    } else if i == 9 {
        "0.512"
    } else if i == 10 {
        "1.024"
    } else if i == 11 {
        "2.048"
    } else if i == 12 {
        "4.096"
    } else if i == 13 {
        "8.192"
    } else if i == 14 {
        "16.384"
    } else if i == 15 {
        "32.768"
    } else {
        "+Inf"
    }
}

/// The hexadecimal digits of a trace ID.
pub open spec fn trace_text(hi: u64, lo: u64) -> Seq<char> {
    hex::chars_of(
        hex::hex_of(hex::bytes_of(hi as nat, 8)) + hex::hex_of(hex::bytes_of(lo as nat, 8)),
    )
}

/// What fills milliseconds up to three digits.
pub open spec fn padding(ms: nat) -> Seq<char> {
    if ms < 10 {
        "00"@
    } else if ms < 100 {
        "0"@
    } else {
        ""@
    }
}

/// The OpenMetrics exemplar of a bucket, where there is one: the trace ID, the
/// value in seconds and the time in seconds.
pub open spec fn exemplar_text(acc: Seq<char>, e: Exemplar, value: Seq<char>) -> Seq<char> {
    if e.trace_hi == 0 && e.trace_lo == 0 {
        acc
    } else {
        acc + " # {trace_id=\""@ + trace_text(e.trace_hi, e.trace_lo) + "\"} "@ + value + " "@
            + text::dec((e.ts_ms / 1_000) as nat) + "."@ + padding((e.ts_ms % 1_000) as nat)
            + text::dec((e.ts_ms % 1_000) as nat)
    }
}

/// The line of a bucket.
pub open spec fn bucket_text(acc: Seq<char>, h: HistogramV, name: Seq<char>, t: TextsV, i: nat) -> Seq<
    char,
> {
    exemplar_text(
        acc + name + "_bucket{le=\""@ + bound_label(i as int) + "\"} "@ + text::dec(
            cumulative(h, i),
        ),
        h.exemplars[i as int],
        t.values[i as int],
    ) + "\n"@
}

pub open spec fn buckets_text(acc: Seq<char>, h: HistogramV, name: Seq<char>, t: TextsV, n: nat) -> Seq<
    char,
>
    decreases n,
{
    if n == 0 {
        acc
    } else {
        bucket_text(buckets_text(acc, h, name, t, (n - 1) as nat), h, name, t, (n - 1) as nat)
    }
}

/// A histogram in the Prometheus text format, behind what is on the page.
pub open spec fn histogram_text(
    acc: Seq<char>,
    h: HistogramV,
    name: Seq<char>,
    help: Seq<char>,
    t: TextsV,
) -> Seq<char> {
    let b = buckets_text(page::heading(acc, name, help, "histogram"@), h, name, t, 17);
    b + name + "_sum "@ + t.sum + "\n"@ + name + "_count "@ + text::dec(h.count as nat) + "\n"@
}

fn put_exemplar(e: &Exemplar, value: &str, out: &mut Page)
    requires
        old(out).wf(),
    ensures
        final(out).wf(),
        final(out)@ == exemplar_text(old(out)@, *e, value@),
{
    if e.trace_hi == 0 && e.trace_lo == 0 {
        return;
    }
    let mut digits = [0u8; 32];
    let ghost a = hex::hex_of(hex::bytes_of(e.trace_hi as nat, 8));
    let ghost b = hex::hex_of(hex::bytes_of(e.trace_lo as nat, 8));
    proof {
        hex::lemma_bytes_len(e.trace_hi as nat, 8);
        hex::lemma_bytes_len(e.trace_lo as nat, 8);
    }
    write_hex_u64_be(e.trace_hi, &mut digits, 0);
    let ghost first = digits@;
    assert(first.subrange(0, 16) =~= a);
    write_hex_u64_be(e.trace_lo, &mut digits, 16);
    assert(digits@ =~= a + b);
    out.put(" # {trace_id=\"");
    out.put(to_text(&digits).as_str());
    out.put("\"} ");
    out.put(value);
    out.put(" ");
    let ms: u64 = e.ts_ms % 1_000;
    out.put_u64(e.ts_ms / 1_000);
    out.put(".");
    if ms < 10 {
        out.put("00");
    } else if ms < 100 {
        out.put("0");
    } else {
        out.put("");
    }
    out.put_u64(ms);
}

impl LatencyHistogram {
    /// Renders the histogram. The texts of values in seconds are the caller's.
    pub fn render(&self, name: &str, help: &str, texts: &HistogramTexts, out: &mut Page)
        requires
            old(out).wf(),
            texts.values@.len() == 17,
        ensures
            final(out).wf(),
            final(out)@ == histogram_text(old(out)@, self@, name@, help@, texts@),
    {
        out.put_heading(name, help, "histogram");
        let ghost start = out@;
        let mut seen: u64 = 0;
        let mut i: usize = 0;
        while i < 17
            invariant
                i <= 17,
                out.wf(),
                texts.values@.len() == 17,
                seen == wrap(total(self.buckets@, i as nat) as int),
                out@ == buckets_text(start, self@, name@, texts@, i as nat),
            decreases 17 - i,
        {
            proof {
                lemma_wrap_add(
                    total(self.buckets@, i as nat) as int,
                    self.buckets@[i as int] as int,
                );
            }
            assert(texts@.values[i as int] == texts.values@[i as int]@);
            seen = add64(seen, self.buckets[i]);
            out.put(name);
            out.put("_bucket{le=\"");
            out.put(label_of_bound(i));
            out.put("\"} ");
            out.put_u64(seen);
            put_exemplar(&self.exemplars[i], texts.values[i].as_str(), out);
            out.put("\n");
            i += 1;
        }
        out.put(name);
        out.put("_sum ");
        out.put(texts.sum.as_str());
        out.put("\n");
        out.put(name);
        out.put("_count ");
        out.put_u64(self.count);
        out.put("\n");
    }
}

// ── Sharded counter ─────────────────────────────────────────────────────
/// A counter in 16 shards, so that threads do not contend for one cache line.
pub struct ShardedCounter {
    pub shards: [u64; 16],
}

impl ShardedCounter {
    /// The value of the counter.
    pub open spec fn value(&self) -> int {
        wrap(total(self.shards@, 16) as int)
    }

    pub fn new() -> (r: ShardedCounter)
        ensures
            r.value() == 0,
            forall|i: int| 0 <= i < 16 ==> #[trigger] r.shards@[i] == 0,
    {
        let r = ShardedCounter { shards: [0u64; 16] };
        assert(total(r.shards@, 16) == 0) by {
            reveal_with_fuel(total, 17);
        }
        r
    }

    /// Adds to the shard that a thread's hash picks.
    pub fn fetch_add(&mut self, n: u64, thread_hash: u64)
        ensures
            final(self).shards@ == old(self).shards@.update(
                (thread_hash % 16) as int,
                wrap(old(self).shards@[(thread_hash % 16) as int] + n) as u64,
            ),
            final(self).value() == wrap(old(self).value() + n),
    {
        let i: usize = (thread_hash % 16) as usize;
        let v: u64 = add64(self.shards[i], n);
        let ghost before = self.shards@;
        self.shards[i] = v;
        proof {
            lemma_total_update(before, i as int, v, 16);
            let t = total(before, 16) as int;
            lemma_wrap_add(t - before[i as int], before[i as int] + n);
            lemma_wrap_add(t, n as int);
        }
    }

    pub fn load(&self) -> (r: u64)
        ensures
            r == self.value(),
    {
        let mut sum: u64 = 0;
        let mut i: usize = 0;
        while i < 16
            invariant
                i <= 16,
                sum == wrap(total(self.shards@, i as nat) as int),
            decreases 16 - i,
        {
            proof {
                lemma_wrap_add(
                    total(self.shards@, i as nat) as int,
                    self.shards@[i as int] as int,
                );
            }
            sum = add64(sum, self.shards[i]);
            i += 1;
        }
        sum
    }
}

// ── Metrics ─────────────────────────────────────────────────────────────
/// What the server counts and measures.
pub struct Metrics {
    pub requests_total: ShardedCounter,
    pub requests_2xx: ShardedCounter,
    pub requests_4xx: ShardedCounter,
    pub requests_5xx: ShardedCounter,
    pub waf_denied: ShardedCounter,
    /// Requests that a shadow-mode WAF would have blocked.
    pub waf_shadow_would_block: ShardedCounter,
    pub rate_limited: ShardedCounter,
    pub cache_hits: ShardedCounter,
    pub cache_misses: ShardedCounter,
    pub websocket_upgrades: u64,
    pub connections_total: u64,
    pub tls_handshake_errors: u64,
    /// Claims published from this node.
    pub mesh_claims_emitted: u64,
    /// Inbound envelopes that passed the merge policy.
    pub mesh_claims_received: u64,
    pub mesh_claims_dropped_signature: u64,
    pub mesh_claims_dropped_replay: u64,
    pub mesh_claims_dropped_other: u64,
    pub mesh_claims_dropped_rate: u64,
    /// Dispatcher hits that found a mesh score for the client.
    pub mesh_score_lookups: u64,
    pub mesh_gossip_bytes_in: u64,
    pub mesh_gossip_bytes_out: u64,
    pub active_connections: i64,
    pub request_duration: LatencyHistogram,
    pub upstream_duration: LatencyHistogram,
    pub tls_handshake_duration: LatencyHistogram,
    /// The page that was rendered last, and the second in which it was.
    pub cached_render: (u64, Bytes),
}

/// How many source addresses fell into a class.
#[derive(Debug)]
pub struct ClassCount {
    pub label: String,
    pub count: u64,
}

impl View for ClassCount {
    type V = (Seq<char>, u64);

    open spec fn view(&self) -> (Seq<char>, u64) {
        (self.label@, self.count)
    }
}

/// What a page of metrics shows beside the metrics: the texts of values in
/// seconds, and the classes of source addresses.
pub struct PageTexts {
    pub request: HistogramTexts,
    pub upstream: HistogramTexts,
    pub tls_handshake: HistogramTexts,
    /// The classes, where the server classifies addresses.
    pub classes: Option<Vec<ClassCount>>,
}

impl PageTexts {
    /// A text for every bucket.
    pub open spec fn complete(&self) -> bool {
        &&& self.request.values@.len() == 17
        &&& self.upstream.values@.len() == 17
        &&& self.tls_handshake.values@.len() == 17
    }
}

/// The metrics of requests.
pub open spec fn request_metrics(acc: Seq<char>, m: Metrics, generation: u64) -> Seq<char> {
    let t1 = page::metric(
        acc,
        "zion_requests_total"@,
        "Total HTTP requests processed."@,
        "counter"@,
        m.requests_total.value(),
    );
    let t2 = page::metric(
        t1,
        "zion_config_generation"@,
        "Successful zion.toml hot-reloads since process start."@,
        "counter"@,
        generation as int,
    );
    let t3 = page::heading(
        t2,
        "zion_requests_by_status"@,
        "Requests by status class."@,
        "counter"@,
    );
    let t4 = page::labelled(t3, "zion_requests_by_status"@, "class"@, "2xx"@, m.requests_2xx.value() as nat);
    let t5 = page::labelled(t4, "zion_requests_by_status"@, "class"@, "4xx"@, m.requests_4xx.value() as nat);
    let t6 = page::labelled(t5, "zion_requests_by_status"@, "class"@, "5xx"@, m.requests_5xx.value() as nat);
    let t7 = page::metric(
        t6,
        "zion_waf_denied"@,
        "Requests denied by WAF."@,
        "counter"@,
        m.waf_denied.value(),
    );
    let t8 = page::metric(
        t7,
        "zion_waf_shadow_would_block"@,
        "Requests the WAF would have denied if shadow mode were off."@,
        "counter"@,
        m.waf_shadow_would_block.value(),
    );
    let t9 = page::metric(
        t8,
        "zion_rate_limited"@,
        "Requests denied by rate limiter."@,
        "counter"@,
        m.rate_limited.value(),
    );
    let t10 = page::metric(
        t9,
        "zion_cache_hits"@,
        "Cache hits (served from RAM)."@,
        "counter"@,
        m.cache_hits.value(),
    );
    let t11 = page::metric(
        t10,
        "zion_cache_misses"@,
        "Cache misses (fetched from upstream)."@,
        "counter"@,
        m.cache_misses.value(),
    );
    t11
}

/// The metrics of connections.
pub open spec fn connection_metrics(acc: Seq<char>, m: Metrics) -> Seq<char> {
    let t1 = page::metric(
        acc,
        "zion_websocket_upgrades"@,
        "WebSocket upgrades completed."@,
        "counter"@,
        m.websocket_upgrades as int,
    );
    let t2 = page::metric(
        t1,
        "zion_connections_total"@,
        "Total TLS connections accepted."@,
        "counter"@,
        m.connections_total as int,
    );
    let t3 = page::metric(
        t2,
        "zion_tls_handshake_errors"@,
        "Failed TLS handshakes."@,
        "counter"@,
        m.tls_handshake_errors as int,
    );
    let t4 = page::metric(
        t3,
        "zion_active_connections"@,
        "Currently active TLS connections."@,
        "gauge"@,
        m.active_connections as int,
    );
    t4
}

/// The metrics of the mesh.
pub open spec fn mesh_metrics(acc: Seq<char>, m: Metrics) -> Seq<char> {
    let t1 = page::metric(
        acc,
        "zion_mesh_claims_emitted_total"@,
        "Mesh claims published from this node."@,
        "counter"@,
        m.mesh_claims_emitted as int,
    );
    let t2 = page::metric(
        t1,
        "zion_mesh_claims_received_total"@,
        "Mesh claims received and merged into local state."@,
        "counter"@,
        m.mesh_claims_received as int,
    );
    let t3 = page::heading(
        t2,
        "zion_mesh_claims_dropped_total"@,
        "Inbound mesh envelopes rejected, by reason."@,
        "counter"@,
    );
    let t4 = page::labelled(t3, "zion_mesh_claims_dropped_total"@, "reason"@, "signature"@, m.mesh_claims_dropped_signature as nat);
    let t5 = page::labelled(t4, "zion_mesh_claims_dropped_total"@, "reason"@, "replay"@, m.mesh_claims_dropped_replay as nat);
    let t6 = page::labelled(t5, "zion_mesh_claims_dropped_total"@, "reason"@, "other"@, m.mesh_claims_dropped_other as nat);
    let t7 = page::labelled(t6, "zion_mesh_claims_dropped_total"@, "reason"@, "rate"@, m.mesh_claims_dropped_rate as nat);
    let t8 = page::metric(
        t7,
        "zion_mesh_score_lookups_total"@,
        "Dispatcher hits that found a mesh score for the client IP."@,
        "counter"@,
        m.mesh_score_lookups as int,
    );
    let t9 = page::metric(
        t8,
        "zion_mesh_gossip_bytes_in_total"@,
        "Total bytes received on the gossip socket."@,
        "counter"@,
        m.mesh_gossip_bytes_in as int,
    );
    let t10 = page::metric(
        t9,
        "zion_mesh_gossip_bytes_out_total"@,
        "Total bytes sent on the gossip socket."@,
        "counter"@,
        m.mesh_gossip_bytes_out as int,
    );
    t10
}

/// The histograms.
pub open spec fn duration_metrics(acc: Seq<char>, m: Metrics, t: PageTexts) -> Seq<char> {
    let a = histogram_text(
        acc,
        m.request_duration@,
        "zion_request_duration_seconds"@,
        "Total request duration (client -> response sent)."@,
        t.request@,
    );
    let b = histogram_text(
        a,
        m.upstream_duration@,
        "zion_upstream_duration_seconds"@,
        "Time spent waiting for upstream response."@,
        t.upstream@,
    );
    histogram_text(
        b,
        m.tls_handshake_duration@,
        "zion_tls_handshake_duration_seconds"@,
        "TLS handshake duration."@,
        t.tls_handshake@,
    )
}

/// The first `n` classes of source addresses.
pub open spec fn classes_text(acc: Seq<char>, classes: Seq<(Seq<char>, u64)>, n: nat) -> Seq<char>
    decreases n,
{
    if n == 0 {
        acc
    } else {
        page::labelled(
            classes_text(acc, classes, (n - 1) as nat),
            "zion_sovereign_classifications_total"@,
            "class"@,
            classes[n - 1].0,
            classes[n - 1].1 as nat,
        )
    }
}

/// The metrics of classified source addresses, where there are any.
pub open spec fn class_metrics(acc: Seq<char>, t: PageTexts) -> Seq<char> {
    match t.classes {
        Some(classes) => classes_text(
            page::heading(
                acc,
                "zion_sovereign_classifications_total"@,
                "Per-class IP classifications since process start."@,
                "counter"@,
            ),
            text::views(classes@),
            classes@.len(),
        ),
        None => acc,
    }
}

/// The page of metrics. `generation` counts the configurations loaded so far.
pub open spec fn page_text(m: Metrics, generation: u64, counters: Counters, t: PageTexts) -> Seq<char> {
    let a = request_metrics(seq![], m, generation);
    let b = connection_metrics(a, m);
    let c = mesh_metrics(b, m);
    class_metrics(observability::counters_text(duration_metrics(c, m, t), counters), t)
}

/// What a status adds to the counter of a class of statuses.
pub open spec fn in_class(status: u16, class: int) -> int {
    if status as int / 100 == class {
        1
    } else {
        0
    }
}

/// The metrics after a request with the status was recorded.
pub open spec fn recorded(before: Metrics, after: Metrics, status: u16) -> bool {
    &&& after.requests_total.value() == wrap(before.requests_total.value() + 1)
    &&& after.requests_2xx.value() == wrap(before.requests_2xx.value() + in_class(status, 2))
    &&& after.requests_4xx.value() == wrap(before.requests_4xx.value() + in_class(status, 4))
    &&& after.requests_5xx.value() == wrap(before.requests_5xx.value() + in_class(status, 5))
    &&& after == (Metrics {
        requests_total: after.requests_total,
        requests_2xx: after.requests_2xx,
        requests_4xx: after.requests_4xx,
        requests_5xx: after.requests_5xx,
        ..before
    })
}

fn render_classes(texts: &PageTexts, out: &mut Page)
    requires
        old(out).wf(),
    ensures
        final(out).wf(),
        final(out)@ == class_metrics(old(out)@, *texts),
{
    if let Some(classes) = &texts.classes {
        out.put_heading(
            "zion_sovereign_classifications_total",
            "Per-class IP classifications since process start.",
            "counter",
        );
        let ghost start = out@;
        let mut i: usize = 0;
        while i < classes.len()
            invariant
                i <= classes.len(),
                out.wf(),
                out@ == classes_text(start, text::views(classes@), i as nat),
            decreases classes.len() - i,
        {
            let c = &classes[i];
            assert(text::views(classes@)[i as int] == c@);
            out.put_labelled(
                "zion_sovereign_classifications_total",
                "class",
                c.label.as_str(),
                c.count,
            );
            i += 1;
        }
    }
}

impl Metrics {
    pub fn new() -> (r: Metrics)
        ensures
            r.requests_total.value() == 0,
            r.requests_2xx.value() == 0,
            r.requests_4xx.value() == 0,
            r.requests_5xx.value() == 0,
            r.waf_denied.value() == 0,
            r.waf_shadow_would_block.value() == 0,
            r.rate_limited.value() == 0,
            r.cache_hits.value() == 0,
            r.cache_misses.value() == 0,
            r.websocket_upgrades == 0,
            r.connections_total == 0,
            r.tls_handshake_errors == 0,
            r.mesh_claims_emitted == 0,
            r.mesh_claims_received == 0,
            r.mesh_claims_dropped_signature == 0,
            r.mesh_claims_dropped_replay == 0,
            r.mesh_claims_dropped_other == 0,
            r.mesh_claims_dropped_rate == 0,
            r.mesh_score_lookups == 0,
            r.mesh_gossip_bytes_in == 0,
            r.mesh_gossip_bytes_out == 0,
            r.active_connections == 0,
            r.request_duration@ == empty_histogram(),
            r.upstream_duration@ == empty_histogram(),
            r.tls_handshake_duration@ == empty_histogram(),
            r.cached_render.0 == 0,
            page::octets(r.cached_render.1) == Seq::<u8>::empty(),
    {
        Metrics {
            requests_total: ShardedCounter::new(),
            requests_2xx: ShardedCounter::new(),
            requests_4xx: ShardedCounter::new(),
            requests_5xx: ShardedCounter::new(),
            waf_denied: ShardedCounter::new(),
            waf_shadow_would_block: ShardedCounter::new(),
            rate_limited: ShardedCounter::new(),
            cache_hits: ShardedCounter::new(),
            cache_misses: ShardedCounter::new(),
            websocket_upgrades: 0,
            connections_total: 0,
            tls_handshake_errors: 0,
            mesh_claims_emitted: 0,
            mesh_claims_received: 0,
            mesh_claims_dropped_signature: 0,
            mesh_claims_dropped_replay: 0,
            mesh_claims_dropped_other: 0,
            mesh_claims_dropped_rate: 0,
            mesh_score_lookups: 0,
            mesh_gossip_bytes_in: 0,
            mesh_gossip_bytes_out: 0,
            active_connections: 0,
            request_duration: LatencyHistogram::new(),
            upstream_duration: LatencyHistogram::new(),
            tls_handshake_duration: LatencyHistogram::new(),
            cached_render: (0, Bytes::new()),
        }
    }

    /// Records a completed request by the class of its status.
    pub fn record_status(&mut self, status: u16, thread_hash: u64)
        ensures
            final(self).requests_total.value() == wrap(old(self).requests_total.value() + 1),
            final(self).requests_2xx.value() == wrap(
                old(self).requests_2xx.value() + in_class(status, 2),
            ),
            final(self).requests_4xx.value() == wrap(
                old(self).requests_4xx.value() + in_class(status, 4),
            ),
            final(self).requests_5xx.value() == wrap(
                old(self).requests_5xx.value() + in_class(status, 5),
            ),
            *final(self) == (Metrics {
                requests_total: final(self).requests_total,
                requests_2xx: final(self).requests_2xx,
                requests_4xx: final(self).requests_4xx,
                requests_5xx: final(self).requests_5xx,
                ..*old(self)
            }),
            recorded(*old(self), *final(self), status),
    {
        proof {
            lemma_value_kept(self.requests_2xx);
            lemma_value_kept(self.requests_4xx);
            lemma_value_kept(self.requests_5xx);
        }
        self.requests_total.fetch_add(1, thread_hash);
        if 200 <= status && status <= 299 {
            self.requests_2xx.fetch_add(1, thread_hash);
        } else if 400 <= status && status <= 499 {
            self.requests_4xx.fetch_add(1, thread_hash);
        } else if 500 <= status && status <= 599 {
            self.requests_5xx.fetch_add(1, thread_hash);
        }
    }

    fn render_requests(&self, generation: u64, out: &mut Page)
        requires
            old(out).wf(),
        ensures
            final(out).wf(),
            final(out)@ == request_metrics(old(out)@, *self, generation),
    {
        out.put_counter(
            "zion_requests_total",
            "Total HTTP requests processed.",
            self.requests_total.load(),
        );
        out.put_counter(
            "zion_config_generation",
            "Successful zion.toml hot-reloads since process start.",
            generation,
        );
        out.put_heading(
            "zion_requests_by_status",
            "Requests by status class.",
            "counter",
        );
        out.put_labelled("zion_requests_by_status", "class", "2xx", self.requests_2xx.load());
        out.put_labelled("zion_requests_by_status", "class", "4xx", self.requests_4xx.load());
        out.put_labelled("zion_requests_by_status", "class", "5xx", self.requests_5xx.load());
        out.put_counter(
            "zion_waf_denied",
            "Requests denied by WAF.",
            self.waf_denied.load(),
        );
        out.put_counter(
            "zion_waf_shadow_would_block",
            "Requests the WAF would have denied if shadow mode were off.",
            self.waf_shadow_would_block.load(),
        );
        out.put_counter(
            "zion_rate_limited",
            "Requests denied by rate limiter.",
            self.rate_limited.load(),
        );
        out.put_counter(
            "zion_cache_hits",
            "Cache hits (served from RAM).",
            self.cache_hits.load(),
        );
        out.put_counter(
            "zion_cache_misses",
            "Cache misses (fetched from upstream).",
            self.cache_misses.load(),
        );
    }

    fn render_connections(&self, out: &mut Page)
        requires
            old(out).wf(),
        ensures
            final(out).wf(),
            final(out)@ == connection_metrics(old(out)@, *self),
    {
        out.put_counter(
            "zion_websocket_upgrades",
            "WebSocket upgrades completed.",
            self.websocket_upgrades,
        );
        out.put_counter(
            "zion_connections_total",
            "Total TLS connections accepted.",
            self.connections_total,
        );
        out.put_counter(
            "zion_tls_handshake_errors",
            "Failed TLS handshakes.",
            self.tls_handshake_errors,
        );
        out.put_gauge(
            "zion_active_connections",
            "Currently active TLS connections.",
            self.active_connections,
        );
    }

    fn render_mesh(&self, out: &mut Page)
        requires
            old(out).wf(),
        ensures
            final(out).wf(),
            final(out)@ == mesh_metrics(old(out)@, *self),
    {
        out.put_counter(
            "zion_mesh_claims_emitted_total",
            "Mesh claims published from this node.",
            self.mesh_claims_emitted,
        );
        out.put_counter(
            "zion_mesh_claims_received_total",
            "Mesh claims received and merged into local state.",
            self.mesh_claims_received,
        );
        out.put_heading(
            "zion_mesh_claims_dropped_total",
            "Inbound mesh envelopes rejected, by reason.",
            "counter",
        );
        out.put_labelled("zion_mesh_claims_dropped_total", "reason", "signature", self.mesh_claims_dropped_signature);
        out.put_labelled("zion_mesh_claims_dropped_total", "reason", "replay", self.mesh_claims_dropped_replay);
        out.put_labelled("zion_mesh_claims_dropped_total", "reason", "other", self.mesh_claims_dropped_other);
        out.put_labelled("zion_mesh_claims_dropped_total", "reason", "rate", self.mesh_claims_dropped_rate);
        out.put_counter(
            "zion_mesh_score_lookups_total",
            "Dispatcher hits that found a mesh score for the client IP.",
            self.mesh_score_lookups,
        );
        out.put_counter(
            "zion_mesh_gossip_bytes_in_total",
            "Total bytes received on the gossip socket.",
            self.mesh_gossip_bytes_in,
        );
        out.put_counter(
            "zion_mesh_gossip_bytes_out_total",
            "Total bytes sent on the gossip socket.",
            self.mesh_gossip_bytes_out,
        );
    }

    fn render_durations(&self, texts: &PageTexts, out: &mut Page)
        requires
            old(out).wf(),
            texts.complete(),
        ensures
            final(out).wf(),
            final(out)@ == duration_metrics(old(out)@, *self, *texts),
    {
        self.request_duration.render(
            "zion_request_duration_seconds",
            "Total request duration (client -> response sent).",
            &texts.request,
            out,
        );
        self.upstream_duration.render(
            "zion_upstream_duration_seconds",
            "Time spent waiting for upstream response.",
            &texts.upstream,
            out,
        );
        self.tls_handshake_duration.render(
            "zion_tls_handshake_duration_seconds",
            "TLS handshake duration.",
            &texts.tls_handshake,
            out,
        );
    }

    /// The page of metrics at a given second. A page that was rendered in the
    /// same second is handed out again.
    pub fn render_at(
        &mut self,
        now_sec: u64,
        generation: u64,
        counters: &Counters,
        texts: &PageTexts,
    ) -> (r: Bytes)
        requires
            texts.complete(),
        ensures
            page::octets(r) == (if old(self).cached_render.0 == now_sec {
                page::octets(old(self).cached_render.1)
            } else {
                utf8::encode_utf8(page_text(*old(self), generation, *counters, *texts))
            }),
            final(self).cached_render.0 == now_sec,
            page::octets(final(self).cached_render.1) == page::octets(r),
            *final(self) == (Metrics {
                cached_render: final(self).cached_render,
                ..*old(self)
            }),
    {
        if self.cached_render.0 == now_sec {
            return self.cached_render.1.clone();
        }
        let mut out = Page::new();
        self.render_requests(generation, &mut out);
        self.render_connections(&mut out);
        self.render_mesh(&mut out);
        self.render_durations(texts, &mut out);
        render_counters(counters, &mut out);
        render_classes(texts, &mut out);
        let b = out.finish();
        self.cached_render = (now_sec, b.clone());
        b
    }

    /// The page of metrics, at most one second old: the one in the cache where
    /// the clock still shows its second, and a new one otherwise.
    pub fn render(&mut self, generation: u64, counters: &Counters, texts: &PageTexts) -> (r: Bytes)
        requires
            texts.complete(),
        ensures
            page::octets(r) == (if final(self).cached_render.0 == old(self).cached_render.0 {
                page::octets(old(self).cached_render.1)
            } else {
                utf8::encode_utf8(page_text(*old(self), generation, *counters, *texts))
            }),
            page::octets(final(self).cached_render.1) == page::octets(r),
            *final(self) == (Metrics {
                cached_render: final(self).cached_render,
                ..*old(self)
            }),
    {
        let now_sec: u64 = clock::unix_secs();
        self.render_at(now_sec, generation, counters, texts)
    }
}

proof fn lemma_value_kept(c: ShardedCounter)
    ensures
        wrap(c.value()) == c.value(),
{
    vstd::arithmetic::div_mod::lemma_mod_twice(
        total(c.shards@, 16) as int,
        0x1_0000_0000_0000_0000,
    );
}

// ── Uptime ──────────────────────────────────────────────────────────────
/// When the process started, on a monotonic clock of microseconds.
#[derive(Debug)]
pub struct StartInstant {
    pub at: Option<u64>,
}

/// Notes when the process started. Only the first call counts.
pub fn record_start(start: &mut StartInstant, now_us: u64)
    ensures
        final(start).at == (match old(start).at {
            Some(t) => Some(t),
            None => Some(now_us),
        }),
{
    if start.at.is_none() {
        start.at = Some(now_us);
    }
}

/// The whole seconds since the start; 0 before it was noted.
pub fn uptime_secs(start: &StartInstant, now_us: u64) -> (r: u64)
    ensures
        r == (match start.at {
            Some(t) => if now_us >= t {
                (now_us - t) / 1_000_000
            } else {
                0
            },
            None => 0,
        }),
{
    match start.at {
        Some(t) => if now_us >= t {
            (now_us - t) / 1_000_000
        } else {
            0
        },
        None => 0,
    }
}

/// One row of the upstream health table.
#[derive(Debug)]
pub struct UpstreamRow<'a> {
    pub url: &'a str,
    pub healthy: bool,
    pub latency_us: u64,
}

// ── Snapshot ────────────────────────────────────────────────────────────
/// The ranks of the quantiles that a snapshot shows: of the median, and of the
/// 95th and 99th percentile of what each histogram observed.
#[derive(Debug)]
pub struct Ranks {
    pub p50: u64,
    pub p95: u64,
    pub p99: u64,
}

/// What the metrics come to at one moment.
#[derive(Debug)]
pub struct Snapshot {
    pub requests_total: u64,
    pub requests_2xx: u64,
    pub requests_4xx: u64,
    pub requests_5xx: u64,
    pub waf_denied: u64,
    pub waf_shadow_would_block: u64,
    pub rate_limited: u64,
    pub cache_hits: u64,
    pub cache_misses: u64,
    pub websocket_upgrades: u64,
    pub active_connections: i64,
    pub connections_total: u64,
    pub tls_handshake_errors: u64,
    pub request_p50_us: u64,
    pub request_p95_us: u64,
    pub request_p99_us: u64,
    pub upstream_p50_us: u64,
    pub upstream_p95_us: u64,
    pub upstream_p99_us: u64,
    pub tls_p50_us: u64,
    pub tls_p95_us: u64,
}

/// A snapshot of the metrics, with the ranks of its quantiles.
pub open spec fn snapshot_of(m: Metrics, request: Ranks, upstream: Ranks, tls: Ranks) -> Snapshot {
    Snapshot {
        requests_total: m.requests_total.value() as u64,
        requests_2xx: m.requests_2xx.value() as u64,
        requests_4xx: m.requests_4xx.value() as u64,
        requests_5xx: m.requests_5xx.value() as u64,
        waf_denied: m.waf_denied.value() as u64,
        waf_shadow_would_block: m.waf_shadow_would_block.value() as u64,
        rate_limited: m.rate_limited.value() as u64,
        cache_hits: m.cache_hits.value() as u64,
        cache_misses: m.cache_misses.value() as u64,
        websocket_upgrades: m.websocket_upgrades,
        active_connections: m.active_connections,
        connections_total: m.connections_total,
        tls_handshake_errors: m.tls_handshake_errors,
        request_p50_us: quantile_of(m.request_duration@, request.p50 as nat) as u64,
        request_p95_us: quantile_of(m.request_duration@, request.p95 as nat) as u64,
        request_p99_us: quantile_of(m.request_duration@, request.p99 as nat) as u64,
        upstream_p50_us: quantile_of(m.upstream_duration@, upstream.p50 as nat) as u64,
        upstream_p95_us: quantile_of(m.upstream_duration@, upstream.p95 as nat) as u64,
        upstream_p99_us: quantile_of(m.upstream_duration@, upstream.p99 as nat) as u64,
        tls_p50_us: quantile_of(m.tls_handshake_duration@, tls.p50 as nat) as u64,
        tls_p95_us: quantile_of(m.tls_handshake_duration@, tls.p95 as nat) as u64,
    }
}

impl Metrics {
    /// Takes a snapshot. A rank counts observations from the fastest on.
    pub fn snapshot(&self, request: &Ranks, upstream: &Ranks, tls: &Ranks) -> (r: Snapshot)
        ensures
            r == snapshot_of(*self, *request, *upstream, *tls),
    {
        Snapshot {
            requests_total: self.requests_total.load(),
            requests_2xx: self.requests_2xx.load(),
            requests_4xx: self.requests_4xx.load(),
            requests_5xx: self.requests_5xx.load(),
            waf_denied: self.waf_denied.load(),
            waf_shadow_would_block: self.waf_shadow_would_block.load(),
            rate_limited: self.rate_limited.load(),
            cache_hits: self.cache_hits.load(),
            cache_misses: self.cache_misses.load(),
            websocket_upgrades: self.websocket_upgrades,
            active_connections: self.active_connections,
            connections_total: self.connections_total,
            tls_handshake_errors: self.tls_handshake_errors,
            request_p50_us: self.request_duration.quantile_us(request.p50),
            request_p95_us: self.request_duration.quantile_us(request.p95),
            request_p99_us: self.request_duration.quantile_us(request.p99),
            upstream_p50_us: self.upstream_duration.quantile_us(upstream.p50),
            upstream_p95_us: self.upstream_duration.quantile_us(upstream.p95),
            upstream_p99_us: self.upstream_duration.quantile_us(upstream.p99),
            tls_p50_us: self.tls_handshake_duration.quantile_us(tls.p50),
            tls_p95_us: self.tls_handshake_duration.quantile_us(tls.p95),
        }
    }
}

// ── Connections ─────────────────────────────────────────────────────────
/// Stands for an active connection: the gauge goes up when it is made and down
/// when it is released.
pub struct ConnectionGuard;

/// A gauge moved by `d`, kept to 64 bits.
pub open spec fn moved(gauge: i64, d: int) -> int {
    let n = gauge + d;
    if n > i64::MAX {
        n - 0x1_0000_0000_0000_0000
    } else if n < i64::MIN {
        n + 0x1_0000_0000_0000_0000
    } else {
        n
    }
}

impl ConnectionGuard {
    pub fn new(m: &mut Metrics) -> (r: ConnectionGuard)
        ensures
            final(m).active_connections == moved(old(m).active_connections, 1),
            *final(m) == (Metrics {
                active_connections: final(m).active_connections,
                ..*old(m)
            }),
    {
        m.active_connections =
        if m.active_connections == i64::MAX {
            i64::MIN
        } else {
            m.active_connections + 1
        };
        ConnectionGuard
    }

    pub fn release(self, m: &mut Metrics)
        ensures
            final(m).active_connections == moved(old(m).active_connections, -1),
            *final(m) == (Metrics {
                active_connections: final(m).active_connections,
                ..*old(m)
            }),
    {
        m.active_connections =
        if m.active_connections == i64::MIN {
            i64::MAX
        } else {
            m.active_connections - 1
        };
    }
}

// ── Laws ────────────────────────────────────────────────────────────────
/// The `+Inf` bucket of a rendered histogram counts what its `_count` line does.
pub proof fn law_last_bucket_is_count(h: HistogramV)
    requires
        consistent(h),
    ensures
        cumulative(h, 16) == h.count,
{
}

/// The value lies in its bucket: above the bound before it, and not above its
/// own, unless it is in the last one.
pub proof fn law_value_lies_in_bucket(us: nat)
    ensures
        bucket_of(us) <= 16,
        bucket_of(us) < 16 ==> us <= bound_us(bucket_of(us)),
        bucket_of(us) > 0 ==> us > bound_us((bucket_of(us) - 1) as nat),
{
    lemma_bucket_bounds(us, 0);
}

proof fn lemma_bucket_bounds(us: nat, i: nat)
    requires
        i <= 16,
        i > 0 ==> us > bound_us((i - 1) as nat),
    ensures
        i <= bucket_from(us, i) <= 16,
        bucket_from(us, i) < 16 ==> us <= bound_us(bucket_from(us, i)),
        bucket_from(us, i) > 0 ==> us > bound_us((bucket_from(us, i) - 1) as nat),
    decreases 16 - i,
{
    if i < 16 && us > bound_us(i) {
        lemma_bucket_bounds(us, i + 1);
    }
}

/// A higher rank is never estimated lower.
pub proof fn law_quantile_is_monotone(h: HistogramV, a: nat, b: nat)
    requires
        a <= b,
    ensures
        quantile_of(h, a) <= quantile_of(h, b),
{
    lemma_quantile_monotone(h, a, b, 0);
}

proof fn lemma_quantile_at_least(h: HistogramV, rank: nat, i: nat)
    requires
        i < 16,
    ensures
        bound_us(i) <= quantile_from(h, rank, i),
    decreases 16 - i,
{
    lemma_bound_low(i);
    if cumulative(h, i) < rank {
        if i < 15 {
            lemma_quantile_at_least(h, rank, i + 1);
        }
    }
}

proof fn lemma_quantile_monotone(h: HistogramV, a: nat, b: nat, i: nat)
    requires
        a <= b,
        i <= 16,
    ensures
        quantile_from(h, a, i) <= quantile_from(h, b, i),
    decreases 16 - i,
{
    if i < 16 {
        if cumulative(h, i) >= a {
            lemma_quantile_at_least(h, b, i);
        } else {
            lemma_quantile_monotone(h, a, b, i + 1);
        }
    }
}

/// An exemplar shows the trace ID that it was recorded with.
pub proof fn law_exemplar_shows_trace_id(id: Seq<u8>)
    requires
        id.len() == 16,
        !observability::all_zero(id),
    ensures
        trace_parts(id) matches Some((hi, lo)) && trace_text(hi, lo) == hex::chars_of(
            hex::hex_of(id),
        ) && (hi != 0 || lo != 0),
{
    let a = id.subrange(0, 8);
    let b = id.subrange(8, 16);
    hex::law_big_endian_round_trip(a);
    hex::law_big_endian_round_trip(b);
    hex::lemma_big_endian_bound(a);
    hex::lemma_big_endian_bound(b);
    assert(hex::pow256(8) == 0x1_0000_0000_0000_0000) by {
        reveal_with_fuel(hex::pow256, 9);
    }
    assert(hex::hex_of(a) + hex::hex_of(b) =~= hex::hex_of(id));
    let i = choose|i: int| 0 <= i < id.len() && id[i] != 0;
    if i < 8 {
        assert(a[i] != 0);
        hex::lemma_big_endian_positive(a, i);
    } else {
        assert(b[i - 8] != 0);
        hex::lemma_big_endian_positive(b, i - 8);
    }
}

/// Every status adds one to the total and at most one to the classes.
pub proof fn law_status_is_in_at_most_one_class(status: u16)
    ensures
        0 <= in_class(status, 2) + in_class(status, 4) + in_class(status, 5) <= 1,
        in_class(status, 2) + in_class(status, 4) + in_class(status, 5) == 1 <==> (200
            <= status <= 299 || 400 <= status <= 599),
{
}

/// A connection that was counted and released leaves the gauge as it was.
pub proof fn law_release_undoes_new(gauge: i64)
    ensures
        moved(moved(gauge, 1) as i64, -1) == gauge,
{
}

} // verus!
