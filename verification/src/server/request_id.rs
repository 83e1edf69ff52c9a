//! Request ids: unique within a process, and sortable by time.
use crate::clock;
use crate::hex;
use crate::hex::{hex_digit, write_hex_u64_be};
use vstd::prelude::*;

verus! {

/// The id of the `seq`-th request, at a time in microseconds: 16 digits of time,
/// a dash, and 4 digits of the counter.
pub open spec fn id_of(ts_us: u64, seq: u64) -> Seq<u8> {
    hex::hex_of(hex::bytes_of(ts_us as nat, 8)) + seq![45u8] + hex::hex_of(
        hex::bytes_of((seq % 65_536) as nat, 2),
    )
}

pub fn request_id(ts_us: u64, seq: u64) -> (r: [u8; 21])
    ensures
        r@ == id_of(ts_us, seq),
{
    let mut buf = [0u8; 21];
    write_hex_u64_be(ts_us, &mut buf, 0);
    let ghost time = hex::hex_of(hex::bytes_of(ts_us as nat, 8));
    proof {
        hex::lemma_bytes_len(ts_us as nat, 8);
    }
    assert(buf@.subrange(0, 16) =~= time);
    let n: u64 = seq % 65_536;
    let hi: u8 = (n / 256) as u8;
    let lo: u8 = (n % 256) as u8;
    buf[16] = 45;
    buf[17] = hex_digit(hi / 16);
    buf[18] = hex_digit(hi % 16);
    buf[19] = hex_digit(lo / 16);
    buf[20] = hex_digit(lo % 16);
    proof {
        let b = hex::bytes_of(n as nat, 2);
        reveal_with_fuel(hex::bytes_of, 3);
        assert(b =~= seq![hi, lo]);
        let h = hex::hex_of(b);
        assert(h[0] == hex::digit_of(hi as int / 16));
        assert(h[1] == hex::digit_of(hi as int % 16));
        assert(h[2] == hex::digit_of(lo as int / 16));
        assert(h[3] == hex::digit_of(lo as int % 16));
        assert(buf@.subrange(0, 16) =~= time);
        assert(buf@ =~= id_of(ts_us, seq));
    }
    buf
}

/// The id of the next request, and the counter after it.
pub fn generate_request_id(counter: &mut u64) -> (r: [u8; 21])
    ensures
        exists|ts_us: u64| r@ == #[trigger] id_of(ts_us, *old(counter)),
        *final(counter) == (if *old(counter) == u64::MAX {
            0
        } else {
            *old(counter) + 1
        }),
{
    let ts_us: u64 = clock::to_units(clock::unix_micros(), 1);
    let seq: u64 = *counter;
    *counter = if seq == u64::MAX {
        0
    } else {
        seq + 1
    };
    request_id(ts_us, seq)
}

// ── Laws ────────────────────────────────────────────────────────────────
proof fn lemma_hex_injective(a: Seq<u8>, b: Seq<u8>)
    requires
        a.len() == b.len(),
        hex::hex_of(a) == hex::hex_of(b),
    ensures
        a == b,
{
    hex::law_hex_round_trip(a);
    hex::law_hex_round_trip(b);
}

/// Two requests of one microsecond have different ids unless their numbers are
/// a multiple of 65 536 apart, and two of different times always have.
pub proof fn law_ids_are_distinct(t1: u64, s1: u64, t2: u64, s2: u64)
    requires
        id_of(t1, s1) == id_of(t2, s2),
    ensures
        t1 == t2,
        s1 % 65_536 == s2 % 65_536,
{
    let a = id_of(t1, s1);
    let b = id_of(t2, s2);
    hex::lemma_bytes_len(t1 as nat, 8);
    hex::lemma_bytes_len(t2 as nat, 8);
    hex::lemma_bytes_len((s1 % 65_536) as nat, 2);
    hex::lemma_bytes_len((s2 % 65_536) as nat, 2);
    assert(a.subrange(0, 16) =~= hex::hex_of(hex::bytes_of(t1 as nat, 8)));
    assert(b.subrange(0, 16) =~= hex::hex_of(hex::bytes_of(t2 as nat, 8)));
    assert(a.subrange(17, 21) =~= hex::hex_of(hex::bytes_of((s1 % 65_536) as nat, 2)));
    assert(b.subrange(17, 21) =~= hex::hex_of(hex::bytes_of((s2 % 65_536) as nat, 2)));
    lemma_hex_injective(hex::bytes_of(t1 as nat, 8), hex::bytes_of(t2 as nat, 8));
    lemma_hex_injective(
        hex::bytes_of((s1 % 65_536) as nat, 2),
        hex::bytes_of((s2 % 65_536) as nat, 2),
    );
    assert(hex::pow256(8) == 0x1_0000_0000_0000_0000 && hex::pow256(2) == 65_536) by {
        reveal_with_fuel(hex::pow256, 9);
    }
    hex::law_bytes_round_trip(t1 as nat, 8);
    hex::law_bytes_round_trip(t2 as nat, 8);
    hex::law_bytes_round_trip((s1 % 65_536) as nat, 2);
    hex::law_bytes_round_trip((s2 % 65_536) as nat, 2);
}

/// Whether a text of bytes comes before another of the same length.
pub open spec fn before(a: Seq<u8>, b: Seq<u8>, from: int) -> bool
    decreases a.len() - from,
{
    if from < 0 || from >= a.len() {
        false
    } else if a[from] == b[from] {
        before(a, b, from + 1)
    } else {
        a[from] < b[from]
    }
}

/// The first byte in which two texts differ settles their order.
proof fn lemma_before_at(a: Seq<u8>, b: Seq<u8>, from: int, k: int)
    requires
        0 <= from <= k < a.len(),
        a.len() == b.len(),
        forall|i: int| from <= i < k ==> a[i] == b[i],
        a[k] < b[k],
    ensures
        before(a, b, from),
    decreases k - from,
{
    if from < k {
        lemma_before_at(a, b, from + 1, k);
    }
}

/// The bytes of a smaller number differ first where they are smaller.
proof fn lemma_bytes_order(x: nat, y: nat, n: nat) -> (k: int)
    requires
        x < y,
        y < hex::pow256(n),
    ensures
        0 <= k < n,
        forall|i: int| 0 <= i < k ==> hex::bytes_of(x, n)[i] == hex::bytes_of(y, n)[i],
        hex::bytes_of(x, n)[k] < hex::bytes_of(y, n)[k],
    decreases n,
{
    if n == 0 {
        return 0;
    }
    let m = (n - 1) as nat;
    hex::lemma_bytes_len(x / 256, m);
    hex::lemma_bytes_len(y / 256, m);
    if x / 256 < y / 256 {
        assert(y / 256 < hex::pow256(m)) by {
            assert(y < 256 * hex::pow256(m));
        }
        let k = lemma_bytes_order(x / 256, y / 256, m);
        assert forall|i: int| 0 <= i < k implies hex::bytes_of(x, n)[i] == hex::bytes_of(y, n)[i] by {
            assert(hex::bytes_of(x, n)[i] == hex::bytes_of(x / 256, m)[i]);
            assert(hex::bytes_of(y, n)[i] == hex::bytes_of(y / 256, m)[i]);
        }
        assert(hex::bytes_of(x, n)[k] == hex::bytes_of(x / 256, m)[k]);
        assert(hex::bytes_of(y, n)[k] == hex::bytes_of(y / 256, m)[k]);
        k
    } else {
        assert(x / 256 == y / 256);
        assert(x % 256 < y % 256);
        m as int
    }
}

/// Ids sort by time.
pub proof fn law_ids_sort_by_time(t1: u64, s1: u64, t2: u64, s2: u64)
    requires
        t1 < t2,
    ensures
        before(id_of(t1, s1), id_of(t2, s2), 0),
{
    assert(hex::pow256(8) == 0x1_0000_0000_0000_0000) by {
        reveal_with_fuel(hex::pow256, 9);
    }
    let a = hex::bytes_of(t1 as nat, 8);
    let b = hex::bytes_of(t2 as nat, 8);
    hex::lemma_bytes_len(t1 as nat, 8);
    hex::lemma_bytes_len(t2 as nat, 8);
    hex::lemma_bytes_len((s1 % 65_536) as nat, 2);
    hex::lemma_bytes_len((s2 % 65_536) as nat, 2);
    let k = lemma_bytes_order(t1 as nat, t2 as nat, 8);
    let p = id_of(t1, s1);
    let q = id_of(t2, s2);
    assert forall|i: int| 0 <= i < 2 * k implies p[i] == q[i] by {
        assert(a[i / 2] == b[i / 2]);
    }
    assert(p[2 * k] == hex::digit_of(a[k] as int / 16)) by {
        assert((2 * k) / 2 == k && (2 * k) % 2 == 0);
    }
    assert(q[2 * k] == hex::digit_of(b[k] as int / 16)) by {
        assert((2 * k) / 2 == k && (2 * k) % 2 == 0);
    }
    assert(p[2 * k + 1] == hex::digit_of(a[k] as int % 16)) by {
        assert((2 * k + 1) / 2 == k && (2 * k + 1) % 2 == 1);
    }
    assert(q[2 * k + 1] == hex::digit_of(b[k] as int % 16)) by {
        assert((2 * k + 1) / 2 == k && (2 * k + 1) % 2 == 1);
    }
    if a[k] as int / 16 == b[k] as int / 16 {
        lemma_before_at(p, q, 0, 2 * k + 1);
    } else {
        lemma_before_at(p, q, 0, 2 * k);
    }
}

} // verus!
