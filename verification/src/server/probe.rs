//! Probing the upstreams: which are due, what an answer means, and when to look
//! again.
use crate::proxy;
use crate::proxy::split_url;
use crate::server::boot;
use crate::server::boot::{Level, LogLine};
use crate::text;
use crate::text::{cat3, cat5, dec_text, own};
use vstd::prelude::*;

verus! {

/// Microseconds between the probes of an upstream that is up.
pub const STEADY_US: u64 = 30_000_000;

/// The shortest sleep between two rounds, in microseconds.
pub const MIN_TICK_US: u64 = 10_000;

/// The first `n` upstreams whose time has come.
pub open spec fn due_of(next_at: Seq<u64>, now: u64, n: nat) -> Seq<usize>
    decreases n,
{
    if n == 0 {
        seq![]
    } else {
        let before = due_of(next_at, now, (n - 1) as nat);
        if next_at[n - 1] <= now {
            before.push((n - 1) as usize)
        } else {
            before
        }
    }
}

/// Which upstreams to probe, at a time in microseconds.
pub fn due_probes(next_at: &Vec<u64>, now_us: u64) -> (r: Vec<usize>)
    ensures
        r@ == due_of(next_at@, now_us, next_at@.len()),
{
    let mut out: Vec<usize> = Vec::new();
    let mut i: usize = 0;
    while i < next_at.len()
        invariant
            i <= next_at.len(),
            out@ == due_of(next_at@, now_us, i as nat),
        decreases next_at.len() - i,
    {
        if next_at[i] <= now_us {
            out.push(i);
        }
        i += 1;
    }
    out
}

/// The earliest of the first `n` times.
pub open spec fn earliest(next_at: Seq<u64>, n: nat) -> Option<u64>
    decreases n,
{
    if n == 0 {
        None
    } else {
        match earliest(next_at, (n - 1) as nat) {
            Some(m) if m <= next_at[n - 1] => Some(m),
            _ => Some(next_at[n - 1]),
        }
    }
}

/// How long to sleep: until the first upstream is due, but not so shortly that
/// the loop spins.
pub open spec fn sleep_of(next_at: Seq<u64>, now: u64) -> int {
    let wait = match earliest(next_at, next_at.len()) {
        Some(m) => if m > now {
            m - now
        } else {
            0
        },
        None => STEADY_US as int,
    };
    if wait < MIN_TICK_US {
        MIN_TICK_US as int
    } else {
        wait
    }
}

pub fn sleep_us(next_at: &Vec<u64>, now_us: u64) -> (r: u64)
    ensures
        r == sleep_of(next_at@, now_us),
{
    let mut first: Option<u64> = None;
    let mut i: usize = 0;
    while i < next_at.len()
        invariant
            i <= next_at.len(),
            first == earliest(next_at@, i as nat),
        decreases next_at.len() - i,
    {
        let t: u64 = next_at[i];
        first = match first {
            Some(m) => if m <= t {
                Some(m)
            } else {
                Some(t)
            },
            None => Some(t),
        };
        i += 1;
    }
    let wait: u64 = match first {
        Some(m) => if m > now_us {
            m - now_us
        } else {
            0
        },
        None => STEADY_US,
    };
    if wait < MIN_TICK_US {
        MIN_TICK_US
    } else {
        wait
    }
}

/// An upstream is up when it answers in time with success or a redirect.
pub open spec fn is_up(status: Option<u16>) -> bool {
    status is Some && 200 <= status->0 <= 399
}

/// What a probe found.
#[derive(Debug, Clone, Copy, PartialEq, Eq, Structural)]
pub struct Probe {
    pub healthy: bool,
    /// 0 where the upstream is down.
    pub latency_us: u64,
}

/// Reads the answer to a probe: its status, or `None` where none came in time.
pub fn read_probe(status: Option<u16>, elapsed_us: u64) -> (r: Probe)
    ensures
        r.healthy == is_up(status),
        r.latency_us == (if is_up(status) {
            elapsed_us
        } else {
            0
        }),
{
    let healthy = match status {
        Some(s) => 200 <= s && s <= 399,
        None => false,
    };
    Probe {
        healthy,
        latency_us: if healthy {
            elapsed_us
        } else {
            0
        },
    }
}

pub open spec fn change_line(
    url: Seq<char>,
    was_healthy: bool,
    now: Probe,
    backoff_us: u64,
) -> Option<boot::LineV> {
    if was_healthy && !now.healthy {
        Some(
            boot::line(
                Level::Warn,
                "health"@,
                "upstream "@ + url + " is DOWN — 503 until it recovers; adaptive re-probe in ~"@
                    + text::dec((backoff_us / 1000) as nat) + "ms"@,
            ),
        )
    } else if !was_healthy && now.healthy {
        Some(
            boot::line(
                Level::Info,
                "health"@,
                "upstream "@ + url + " is UP ("@ + text::dec(now.latency_us as nat) + "us)"@,
            ),
        )
    } else {
        None
    }
}

/// The line for an upstream that went down or came up; none where it did
/// neither.
pub fn health_change(url: &str, was_healthy: bool, now: Probe, backoff_us: u64) -> (r: Option<
    LogLine,
>)
    ensures
        boot::opt_line(r) == change_line(url@, was_healthy, now, backoff_us),
{
    if was_healthy && !now.healthy {
        let ms = dec_text(backoff_us / 1000);
        let message = cat5(
            "upstream ",
            url,
            " is DOWN — 503 until it recovers; adaptive re-probe in ~",
            ms.as_str(),
            "ms",
        );
        Some(LogLine::new(Level::Warn, "health", message))
    } else if !was_healthy && now.healthy {
        let us = dec_text(now.latency_us);
        let message = cat5("upstream ", url, " is UP (", us.as_str(), "us)");
        Some(LogLine::new(Level::Info, "health", message))
    } else {
        None
    }
}

/// The `Host` of a probe of an upstream; none where its URL cannot be read, and
/// the upstream is not probed.
pub open spec fn probe_host_of(
    parts: Option<(Option<Seq<char>>, Option<Seq<char>>)>,
) -> Option<Seq<char>> {
    match parts {
        None => None,
        Some((_, Some(authority))) => Some(authority),
        Some((_, None)) => Some("localhost"@),
    }
}

pub fn probe_host_with(parts: Option<(Option<String>, Option<String>)>) -> (r: Option<String>)
    ensures
        text::opt(r) == probe_host_of(proxy::opt_parts(parts)),
{
    match parts {
        None => None,
        Some((_, Some(authority))) => Some(authority),
        Some((_, None)) => Some(own("localhost")),
    }
}

pub fn probe_host(url: &str) -> (r: Option<String>)
    ensures
        text::opt(r) == probe_host_of(proxy::url_parts(url@)),
{
    probe_host_with(split_url(url))
}

/// The line that says how many upstreams are watched.
pub fn monitoring_line(upstreams: usize) -> (r: LogLine)
    ensures
        r@ == boot::line(
            Level::Info,
            "health"@,
            "monitoring "@ + text::dec(upstreams as nat) + " upstreams"@,
        ),
{
    let n = dec_text(upstreams as u64);
    LogLine::new(Level::Info, "health", cat3("monitoring ", n.as_str(), " upstreams"))
}

/// The line that says how many connections were made ahead of need.
pub fn prewarmed_line(upstreams: usize) -> (r: LogLine)
    ensures
        r@ == boot::line(
            Level::Info,
            "pool"@,
            "pre-warmed "@ + text::dec(upstreams as nat) + " upstream connections"@,
        ),
{
    let n = dec_text(upstreams as u64);
    LogLine::new(Level::Info, "pool", cat3("pre-warmed ", n.as_str(), " upstream connections"))
}

// ── Laws ────────────────────────────────────────────────────────────────
proof fn lemma_due(next_at: Seq<u64>, now: u64, n: nat, i: int)
    requires
        n <= next_at.len() <= usize::MAX,
        0 <= i < n,
    ensures
        due_of(next_at, now, n).contains(i as usize) == (next_at[i] <= now),
    decreases n,
{
    let m = (n - 1) as nat;
    let before = due_of(next_at, now, m);
    lemma_due_bound(next_at, now, m);
    if i < m {
        lemma_due(next_at, now, m, i);
        if next_at[m as int] <= now {
            let all = before.push(m as usize);
            if before.contains(i as usize) {
                let k = choose|k: int| 0 <= k < before.len() && before[k] == i as usize;
                assert(all[k] == i as usize);
            }
            if all.contains(i as usize) {
                let k = choose|k: int| 0 <= k < all.len() && all[k] == i as usize;
                assert(k < before.len());
                assert(before[k] == i as usize);
            }
        }
    } else {
        if next_at[m as int] <= now {
            assert(before.push(m as usize)[before.len() as int] == i as usize);
        } else if before.contains(i as usize) {
            let k = choose|k: int| 0 <= k < before.len() && before[k] == i as usize;
            assert(before[k] < m);
        }
    }
}

proof fn lemma_due_bound(next_at: Seq<u64>, now: u64, n: nat)
    requires
        n <= next_at.len() <= usize::MAX,
    ensures
        forall|k: int|
            0 <= k < due_of(next_at, now, n).len() ==> (#[trigger] due_of(next_at, now, n)[k]) < n,
    decreases n,
{
    if n > 0 {
        let before = due_of(next_at, now, (n - 1) as nat);
        lemma_due_bound(next_at, now, (n - 1) as nat);
        assert forall|k: int| 0 <= k < due_of(next_at, now, n).len() implies (#[trigger] due_of(
            next_at,
            now,
            n,
        )[k]) < n by {
            if k < before.len() {
                assert(due_of(next_at, now, n)[k] == before[k]);
            }
        }
    }
}

/// Exactly the upstreams whose time has come are probed.
pub proof fn law_due_upstreams_are_probed(next_at: Seq<u64>, now: u64, i: int)
    requires
        next_at.len() <= usize::MAX,
        0 <= i < next_at.len(),
    ensures
        due_of(next_at, now, next_at.len()).contains(i as usize) == (next_at[i] <= now),
{
    lemma_due(next_at, now, next_at.len(), i);
}

proof fn lemma_earliest(next_at: Seq<u64>, n: nat)
    requires
        n <= next_at.len(),
    ensures
        n > 0 ==> earliest(next_at, n) is Some,
        forall|i: int| 0 <= i < n ==> earliest(next_at, n)->0 <= #[trigger] next_at[i],
        n > 0 ==> exists|i: int| 0 <= i < n && earliest(next_at, n)->0 == #[trigger] next_at[i],
    decreases n,
{
    if n > 0 {
        lemma_earliest(next_at, (n - 1) as nat);
        assert(next_at[n - 1] == next_at[n - 1]);
    }
}

/// The loop never spins, and never sleeps past the time of an upstream by more
/// than the shortest sleep.
pub proof fn law_sleep_is_bounded(next_at: Seq<u64>, now: u64, i: int)
    requires
        0 <= i < next_at.len(),
    ensures
        sleep_of(next_at, now) >= MIN_TICK_US,
        next_at[i] >= now + MIN_TICK_US ==> now + sleep_of(next_at, now) <= next_at[i],
{
    lemma_earliest(next_at, next_at.len());
}

/// An upstream is up where it answers with success or a redirect, and down where
/// it answers otherwise or not at all.
pub proof fn law_success_and_redirects_are_up(status: u16)
    ensures
        is_up(Some(status)) <==> status / 100 == 2 || status / 100 == 3,
        !is_up(None),
{
}

/// A line is written where the health of an upstream changed, and only there; it
/// warns of one that went down.
pub proof fn law_changes_of_health_are_told(
    url: Seq<char>,
    was_healthy: bool,
    now: Probe,
    backoff_us: u64,
)
    ensures
        change_line(url, was_healthy, now, backoff_us) is Some <==> was_healthy != now.healthy,
        change_line(url, was_healthy, now, backoff_us) matches Some(l) ==> (l.level == Level::Warn
            <==> !now.healthy) && text::holds(l.message, url),
{
    let ms = text::dec((backoff_us / 1000) as nat);
    let us = text::dec(now.latency_us as nat);
    if was_healthy && !now.healthy {
        let tail = " is DOWN — 503 until it recovers; adaptive re-probe in ~"@ + ms + "ms"@;
        crate::words::law_parts_of_a_text("upstream "@, url, tail);
        assert("upstream "@ + url + tail =~= "upstream "@ + url
            + " is DOWN — 503 until it recovers; adaptive re-probe in ~"@ + ms + "ms"@);
    } else if !was_healthy && now.healthy {
        let tail = " is UP ("@ + us + "us)"@;
        crate::words::law_parts_of_a_text("upstream "@, url, tail);
        assert("upstream "@ + url + tail =~= "upstream "@ + url + " is UP ("@ + us + "us)"@);
    }
}

/// The sleep ends when the first upstream is due, if that is not too soon.
pub proof fn law_sleep_ends_when_one_is_due(next_at: Seq<u64>, now: u64)
    requires
        next_at.len() > 0,
        sleep_of(next_at, now) > MIN_TICK_US,
    ensures
        exists|i: int|
            0 <= i < next_at.len() && now + sleep_of(next_at, now) == #[trigger] next_at[i],
{
    lemma_earliest(next_at, next_at.len());
}

} // verus!
