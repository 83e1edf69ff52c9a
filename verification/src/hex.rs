//! Bytes as lowercase hexadecimal digits, and back.
use vstd::prelude::*;

verus! {

/// The hexadecimal digit of a number below sixteen.
pub open spec fn digit_of(n: int) -> u8 {
    if n < 10 {
        (48 + n) as u8
    } else {
        (87 + n) as u8
    }
}

/// The digits of the bytes, two for each.
pub open spec fn hex_of(b: Seq<u8>) -> Seq<u8> {
    Seq::new(
        2 * b.len(),
        |i: int|
            if i % 2 == 0 {
                digit_of(b[i / 2] as int / 16)
            } else {
                digit_of(b[i / 2] as int % 16)
            },
    )
}

/// The number of a hexadecimal digit of either case.
pub open spec fn value_of(c: u8) -> Option<u8> {
    if 48 <= c <= 57 {
        Some((c - 48) as u8)
    } else if 97 <= c <= 102 {
        Some((c - 87) as u8)
    } else if 65 <= c <= 70 {
        Some((c - 55) as u8)
    } else {
        None
    }
}

pub open spec fn all_hex(s: Seq<u8>) -> bool {
    forall|i: int| 0 <= i < s.len() ==> value_of(#[trigger] s[i]) is Some
}

pub open spec fn byte_at(s: Seq<u8>, i: int) -> u8 {
    (16 * value_of(s[2 * i])->0 + value_of(s[2 * i + 1])->0) as u8
}

/// The `n` bytes that `2 * n` hexadecimal digits write.
#[verifier::opaque]
pub open spec fn parsed(s: Seq<u8>, n: nat) -> Option<Seq<u8>> {
    if s.len() == 2 * n && all_hex(s) {
        Some(Seq::new(n, |i: int| byte_at(s, i)))
    } else {
        None
    }
}

pub fn hex_digit(n: u8) -> (r: u8)
    requires
        n < 16,
    ensures
        r == digit_of(n as int),
{
    if n < 10 {
        48 + n
    } else {
        87 + n
    }
}

pub fn hex_val(b: u8) -> (r: Option<u8>)
    ensures
        r == value_of(b),
{
    if 48 <= b && b <= 57 {
        Some(b - 48)
    } else if 97 <= b && b <= 102 {
        Some(b - 87)
    } else if 65 <= b && b <= 70 {
        Some(b - 55)
    } else {
        None
    }
}

/// Writes `src` as lowercase hexadecimal digits into `dst`.
pub fn write_hex(src: &[u8], dst: &mut [u8])
    requires
        old(dst)@.len() == 2 * src@.len(),
    ensures
        final(dst)@ == hex_of(src@),
{
    let n: usize = src.len();
    let m: usize = dst.len();
    let mut i: usize = 0;
    while i < n
        invariant
            n == src@.len(),
            m == 2 * n,
            i <= n,
            dst@.len() == 2 * n,
            forall|j: int| 0 <= j < 2 * i ==> #[trigger] dst@[j] == hex_of(src@)[j],
        decreases n - i,
    {
        let b: u8 = src[i];
        dst[i * 2] = hex_digit(b / 16);
        dst[i * 2 + 1] = hex_digit(b % 16);
        i += 1;
    }
    assert(dst@ =~= hex_of(src@));
}

/// Reads `2 * N` hexadecimal digits; any other digit or length is refused.
pub fn parse_hex_fixed<const N: usize>(s: &[u8]) -> (r: Option<[u8; N]>)
    ensures
        match r {
            Some(a) => parsed(s@, N as nat) == Some(a@),
            None => parsed(s@, N as nat) is None,
        },
{
    reveal(parsed);
    let m: usize = s.len();
    if m % 2 != 0 || m / 2 != N {
        return None;
    }
    let mut out = [0u8; N];
    let mut i: usize = 0;
    while i < N
        invariant
            i <= N,
            s@.len() == m,
            m == 2 * N,
            forall|j: int| 0 <= j < 2 * i ==> value_of(#[trigger] s@[j]) is Some,
            forall|j: int| 0 <= j < i ==> #[trigger] out@[j] == byte_at(s@, j),
        decreases N - i,
    {
        let hi: u8 = match hex_val(s[i * 2]) {
            Some(v) => v,
            None => {
                assert(value_of(s@[2 * i]) is None);
                assert(parsed(s@, N as nat) is None) by {
                    reveal(parsed);
                }
                return None;
            },
        };
        let lo: u8 = match hex_val(s[i * 2 + 1]) {
            Some(v) => v,
            None => {
                assert(value_of(s@[2 * i + 1]) is None);
                assert(parsed(s@, N as nat) is None) by {
                    reveal(parsed);
                }
                return None;
            },
        };
        out[i] = hi * 16 + lo;
        i += 1;
    }
    assert(out@ =~= Seq::new(N as nat, |j: int| byte_at(s@, j)));
    Some(out)
}

/// Bytes as the characters they are.
pub open spec fn chars_of(b: Seq<u8>) -> Seq<char> {
    Seq::new(b.len(), |i: int| b[i] as char)
}

pub fn to_text(b: &[u8]) -> (r: String)
    ensures
        r@ == chars_of(b@),
{
    let mut out = String::new();
    let mut i: usize = 0;
    while i < b.len()
        invariant
            i <= b@.len(),
            out@ == chars_of(b@.subrange(0, i as int)),
        decreases b@.len() - i,
    {
        out.push(b[i] as char);
        assert(out@ =~= chars_of(b@.subrange(0, i + 1)));
        i += 1;
    }
    assert(b@.subrange(0, i as int) =~= b@);
    out
}

// ── Numbers ─────────────────────────────────────────────────────────────
/// The number that bytes write, the first counting most.
pub open spec fn big_endian(b: Seq<u8>) -> nat
    decreases b.len(),
{
    if b.len() == 0 {
        0
    } else {
        256 * big_endian(b.drop_last()) + b.last() as nat
    }
}

/// The last `n` bytes of a number, the first counting most.
pub open spec fn bytes_of(v: nat, n: nat) -> Seq<u8>
    decreases n,
{
    if n == 0 {
        seq![]
    } else {
        bytes_of(v / 256, (n - 1) as nat).push((v % 256) as u8)
    }
}

pub proof fn lemma_bytes_len(v: nat, n: nat)
    ensures
        bytes_of(v, n).len() == n,
    decreases n,
{
    if n > 0 {
        lemma_bytes_len(v / 256, (n - 1) as nat);
    }
}

/// The number of eight bytes of `b` from `from` on.
pub fn read_u64_be(b: &[u8], from: usize) -> (r: u64)
    requires
        from + 8 <= b@.len(),
    ensures
        r == big_endian(b@.subrange(from as int, from + 8)),
{
    let ghost s = b@.subrange(from as int, from + 8);
    let m: usize = b.len();
    let mut v: u128 = 0;
    let mut i: usize = 0;
    let ghost mut bound: nat = 1;
    proof {
        lemma_pow256(0, 8);
    }
    assert(s.subrange(0, 0) =~= seq![]);
    while i < 8
        invariant
            i <= 8,
            from + 8 <= m,
            m == b@.len(),
            s == b@.subrange(from as int, from + 8),
            v == big_endian(s.subrange(0, i as int)),
            v < bound,
            bound == pow256(i as nat),
            bound <= pow256(8),
        decreases 8 - i,
    {
        assert(pow256(8) == 0x1_0000_0000_0000_0000) by {
            reveal_with_fuel(pow256, 9);
        }
        proof {
            lemma_pow256((i + 1) as nat, 8);
            bound = pow256((i + 1) as nat);
        }
        assert(s.subrange(0, i + 1).drop_last() =~= s.subrange(0, i as int));
        v = v * 256 + b[from + i] as u128;
        i += 1;
    }
    assert(s.subrange(0, 8) =~= s);
    assert(pow256(8) == 0x1_0000_0000_0000_0000) by {
        reveal_with_fuel(pow256, 9);
    }
    v as u64
}

pub open spec fn pow256(n: nat) -> nat
    decreases n,
{
    if n == 0 {
        1
    } else {
        256 * pow256((n - 1) as nat)
    }
}

proof fn lemma_pow256(a: nat, b: nat)
    requires
        a <= b,
    ensures
        1 <= pow256(a) <= pow256(b),
    decreases b,
{
    if a < b {
        lemma_pow256(a, (b - 1) as nat);
    } else if b > 0 {
        lemma_pow256((a - 1) as nat, (b - 1) as nat);
    }
}

pub proof fn lemma_big_endian_bound(b: Seq<u8>)
    ensures
        big_endian(b) < pow256(b.len()),
    decreases b.len(),
{
    if b.len() > 0 {
        lemma_big_endian_bound(b.drop_last());
    }
}

pub proof fn lemma_big_endian_positive(b: Seq<u8>, i: int)
    requires
        0 <= i < b.len(),
        b[i] != 0,
    ensures
        big_endian(b) > 0,
    decreases b.len(),
{
    if i < b.len() - 1 {
        lemma_big_endian_positive(b.drop_last(), i);
    }
}

/// Writes a number as sixteen hexadecimal digits into `dst`, from `at` on.
pub fn write_hex_u64_be(v: u64, dst: &mut [u8], at: usize)
    requires
        at + 16 <= old(dst)@.len(),
    ensures
        final(dst)@ == old(dst)@.subrange(0, at as int) + hex_of(bytes_of(v as nat, 8))
            + old(dst)@.subrange(at + 16, old(dst)@.len() as int),
{
    let ghost b = bytes_of(v as nat, 8);
    let ghost d0 = dst@;
    let m: usize = dst.len();
    let mut rest: u64 = v;
    let mut i: usize = 8;
    proof {
        lemma_bytes_len(v as nat, 8);
    }
    while i > 0
        invariant
            i <= 8,
            at + 16 <= m,
            m == dst@.len(),
            dst@.len() == d0.len(),
            b.len() == 8,
            b.subrange(0, i as int) == bytes_of(rest as nat, i as nat),
            forall|j: int| 0 <= j < at + 2 * i ==> #[trigger] dst@[j] == d0[j],
            forall|j: int| at + 16 <= j < d0.len() ==> #[trigger] dst@[j] == d0[j],
            forall|j: int|
                at + 2 * i <= j < at + 16 ==> #[trigger] dst@[j] == hex_of(b)[j - at],
        decreases i,
    {
        proof {
            lemma_bytes_len(rest as nat / 256, (i - 1) as nat);
            let p = bytes_of(rest as nat, i as nat);
            assert(p[i - 1] == (rest as nat % 256) as u8);
            assert(b[i - 1] == b.subrange(0, i as int)[i - 1]);
            assert(b.subrange(0, i - 1) =~= b.subrange(0, i as int).subrange(0, i - 1));
            assert(p.subrange(0, i - 1) =~= bytes_of(rest as nat / 256, (i - 1) as nat));
        }
        i -= 1;
        let low: u8 = (rest % 256) as u8;
        dst[at + 2 * i] = hex_digit(low / 16);
        dst[at + 2 * i + 1] = hex_digit(low % 16);
        rest = rest / 256;
    }
    assert(dst@ =~= d0.subrange(0, at as int) + hex_of(b) + d0.subrange(
        at + 16,
        d0.len() as int,
    ));
}

// ── Laws ────────────────────────────────────────────────────────────────
/// Reading what was written gives the bytes back.
pub proof fn law_hex_round_trip(b: Seq<u8>)
    ensures
        parsed(hex_of(b), b.len()) == Some(b),
{
    reveal(parsed);
    let s = hex_of(b);
    assert forall|i: int| 0 <= i < s.len() implies value_of(#[trigger] s[i]) is Some by {
        assert(0 <= i / 2 < b.len());
    }
    assert forall|i: int| 0 <= i < b.len() implies #[trigger] byte_at(s, i) == b[i] by {
        assert((2 * i) / 2 == i && (2 * i + 1) / 2 == i);
        assert((2 * i) % 2 == 0 && (2 * i + 1) % 2 == 1);
        let v = b[i] as int;
        assert(v == 16 * (v / 16) + v % 16);
        assert(value_of(s[2 * i]) == Some((v / 16) as u8));
        assert(value_of(s[2 * i + 1]) == Some((v % 16) as u8));
    }
    assert(Seq::new(b.len(), |i: int| byte_at(s, i)) =~= b);
}

/// The bytes of the number that bytes write are those bytes.
pub proof fn law_big_endian_round_trip(b: Seq<u8>)
    ensures
        bytes_of(big_endian(b), b.len()) == b,
    decreases b.len(),
{
    if b.len() > 0 {
        law_big_endian_round_trip(b.drop_last());
        let n = big_endian(b);
        assert(n / 256 == big_endian(b.drop_last()) && n % 256 == b.last() as nat) by {
            vstd::arithmetic::div_mod::lemma_fundamental_div_mod_converse(
                n as int,
                256,
                big_endian(b.drop_last()) as int,
                b.last() as int,
            );
        }
        assert(b.drop_last().push(b.last()) =~= b);
    } else {
        assert(b =~= seq![]);
    }
}

/// The number that the bytes of a number write is that number, where it fits.
pub proof fn law_bytes_round_trip(v: nat, n: nat)
    requires
        v < pow256(n),
    ensures
        big_endian(bytes_of(v, n)) == v,
    decreases n,
{
    if n > 0 {
        let b = bytes_of(v, n);
        assert(v / 256 < pow256((n - 1) as nat));
        law_bytes_round_trip(v / 256, (n - 1) as nat);
        assert(b.drop_last() =~= bytes_of(v / 256, (n - 1) as nat));
    }
}

/// Each byte is written in two of the sixteen digits, the one of its upper half
/// first.
pub proof fn law_bytes_are_written_in_digits(b: Seq<u8>, i: int)
    requires
        0 <= i < b.len(),
    ensures
        hex_of(b).len() == 2 * b.len(),
        chars_of(hex_of(b))[2 * i] == "0123456789abcdef"@[b[i] as int / 16],
        chars_of(hex_of(b))[2 * i + 1] == "0123456789abcdef"@[b[i] as int % 16],
{
    reveal_strlit("0123456789abcdef");
    assert((2 * i) / 2 == i && (2 * i) % 2 == 0);
    assert((2 * i + 1) / 2 == i && (2 * i + 1) % 2 == 1);
    lemma_digit_is_listed(b[i] as int / 16);
    lemma_digit_is_listed(b[i] as int % 16);
}

proof fn lemma_digit_is_listed(n: int)
    requires
        0 <= n < 16,
    ensures
        digit_of(n) as char == "0123456789abcdef"@[n],
{
    reveal_strlit("0123456789abcdef");
}

} // verus!
