//! Byte strings: little-endian integers, comparison, joining and cutting.

use vstd::prelude::*;

verus! {

/// The number that `s` denotes when its first byte is the least significant.
pub open spec fn le_nat(s: Seq<u8>) -> nat
    decreases s.len(),
{
    if s.len() == 0 {
        0
    } else {
        (s[0] + 256 * le_nat(s.drop_first())) as nat
    }
}

/// The `len` least significant bytes of `n`, least significant first.
pub open spec fn le_bytes(n: nat, len: nat) -> Seq<u8>
    decreases len,
{
    if len == 0 {
        Seq::empty()
    } else {
        seq![(n % 256) as u8] + le_bytes(n / 256, (len - 1) as nat)
    }
}

/// 256 to the power `len`.
pub open spec fn pow256(len: nat) -> nat
    decreases len,
{
    if len == 0 {
        1
    } else {
        256 * pow256((len - 1) as nat)
    }
}

/// As many bytes are written as asked for.
pub proof fn lemma_le_bytes_len(n: nat, len: nat)
    ensures
        le_bytes(n, len).len() == len,
    decreases len,
{
    if len > 0 {
        lemma_le_bytes_len(n / 256, (len - 1) as nat);
    }
}

/// Writing a number that fits and reading it back gives the number.
pub proof fn le_round_trip(n: nat, len: nat)
    requires
        n < pow256(len),
    ensures
        le_bytes(n, len).len() == len,
        le_nat(le_bytes(n, len)) == n,
    decreases len,
{
    lemma_le_bytes_len(n, len);
    if len > 0 {
        le_round_trip(n / 256, (len - 1) as nat);
        assert(le_bytes(n, len).drop_first() =~= le_bytes(n / 256, (len - 1) as nat));
    }
}

/// Reading a byte string and writing the number back in as many bytes gives
/// the byte string.
pub proof fn le_write_back(s: Seq<u8>)
    ensures
        le_bytes(le_nat(s), s.len()) == s,
        le_nat(s) < pow256(s.len()),
    decreases s.len(),
{
    if s.len() > 0 {
        le_write_back(s.drop_first());
        let rest = le_nat(s.drop_first());
        assert((s[0] + 256 * rest) as nat % 256 == s[0]);
        assert((s[0] + 256 * rest) as nat / 256 == rest);
        assert(seq![s[0]] + s.drop_first() =~= s);
    }
}

/// The powers that 16-bit and 64-bit numbers stay below.
pub proof fn lemma_pow256_values()
    ensures
        pow256(2) == 0x1_0000,
        pow256(8) == 0x1_0000_0000_0000_0000,
{
    reveal_with_fuel(pow256, 9);
}

/// The first bytes of a number's little-endian form do not depend on how many
/// follow.
pub proof fn lemma_le_bytes_prefix(n: nat, len: nat, k: nat)
    requires
        k <= len,
    ensures
        le_bytes(n, len).subrange(0, k as int) == le_bytes(n, k),
    decreases k,
{
    lemma_le_bytes_len(n, len);
    lemma_le_bytes_len(n, k);
    if k > 0 {
        lemma_le_bytes_prefix(n / 256, (len - 1) as nat, (k - 1) as nat);
        let rest = le_bytes(n / 256, (len - 1) as nat);
        lemma_le_bytes_len(n / 256, (len - 1) as nat);
        assert(le_bytes(n, len).subrange(0, k as int) =~= seq![(n % 256) as u8] + rest.subrange(
            0,
            k - 1,
        ));
    } else {
        assert(le_bytes(n, len).subrange(0, 0) =~= le_bytes(n, 0));
    }
}

/// Zero is written in zeros.
pub proof fn lemma_le_bytes_zero(len: nat)
    ensures
        le_bytes(0, len) == Seq::new(len, |i: int| 0u8),
    decreases len,
{
    if len > 0 {
        lemma_le_bytes_zero((len - 1) as nat);
    }
    assert(le_bytes(0, len) =~= Seq::new(len, |i: int| 0u8));
}

/// The eight bytes of `x`, least significant first.
pub fn u64_bytes(x: u64) -> (r: Vec<u8>)
    ensures
        r@ == le_bytes(x as nat, 8),
        r@.len() == 8,
{
    let mut out: Vec<u8> = Vec::new();
    let mut rest: u64 = x;
    let mut i: usize = 0;
    while i < 8
        invariant
            i <= 8,
            out@ + le_bytes(rest as nat, (8 - i) as nat) == le_bytes(x as nat, 8),
        decreases 8 - i,
    {
        let ghost before = out@;
        let digit: u8 = (rest % 256) as u8;
        out.push(digit);
        proof {
            assert(before + (seq![digit] + le_bytes((rest / 256) as nat, (7 - i) as nat)) =~= out@
                + le_bytes((rest / 256) as nat, (7 - i) as nat));
        }
        rest = rest / 256;
        i = i + 1;
    }
    proof {
        assert(out@ + le_bytes(rest as nat, 0) =~= out@);
        lemma_le_bytes_len(x as nat, 8);
    }
    out
}

/// The two bytes of `x`, least significant first.
pub fn u16_bytes(x: u16) -> (r: Vec<u8>)
    ensures
        r@ == le_bytes(x as nat, 2),
        r@.len() == 2,
{
    let low: u8 = (x % 256) as u8;
    let high: u8 = (x / 256) as u8;
    let mut out: Vec<u8> = Vec::new();
    out.push(low);
    out.push(high);
    proof {
        reveal_with_fuel(le_bytes, 3);
        assert(out@ =~= le_bytes(x as nat, 2));
    }
    out
}

proof fn lemma_le_nat_push(s: Seq<u8>, b: u8)
    ensures
        le_nat(s.push(b)) == le_nat(s) + pow256(s.len()) * b,
    decreases s.len(),
{
    if s.len() == 0 {
        assert(s.push(b).drop_first() =~= Seq::<u8>::empty());
        reveal_with_fuel(le_nat, 2);
        let p = pow256(0);
        assert(p * b == b) by (nonlinear_arith)
            requires
                p == 1,
        ;
    } else {
        lemma_le_nat_push(s.drop_first(), b);
        assert(s.push(b).drop_first() =~= s.drop_first().push(b));
        let p = pow256((s.len() - 1) as nat);
        let rest = le_nat(s.drop_first());
        assert(s.push(b)[0] == s[0]);
        assert(256 * (rest + p * b) == 256 * rest + (256 * p) * b) by (nonlinear_arith);
        assert(pow256(s.len()) == 256 * p);
    }
}

/// The number in the eight bytes of `m` from position `at` on.
pub fn u64_at(m: &Vec<u8>, at: usize) -> (r: u64)
    requires
        at + 8 <= m@.len(),
    ensures
        r as nat == le_nat(m@.subrange(at as int, at + 8)),
{
    let end: usize = m.len();
    let mut value: u64 = 0;
    let mut i: usize = 0;
    let mut scale: u64 = 1;
    proof {
        lemma_pow256_values();
        assert(m@.subrange(at as int, at as int) =~= Seq::<u8>::empty());
    }
    while i < 8
        invariant
            i <= 8,
            at + 8 <= end,
            end == m@.len(),
            value as nat == le_nat(m@.subrange(at as int, at + i)),
            i < 8 ==> scale as nat == pow256(i as nat),
            pow256(8) == 0x1_0000_0000_0000_0000,
        decreases 8 - i,
    {
        let digit: u64 = m[at + i] as u64;
        proof {
            let s = m@.subrange(at as int, at + i);
            assert(m@.subrange(at as int, at + i + 1) =~= s.push(m@[at + i]));
            lemma_le_nat_push(s, m@[at + i]);
            le_write_back(m@.subrange(at as int, at + i + 1));
            lemma_pow256_monotone(i as nat + 1, 8);
        }
        value = value + scale * digit;
        i = i + 1;
        if i < 8 {
            proof {
                lemma_pow256_monotone(i as nat + 1, 8);
            }
            scale = scale * 256;
        }
    }
    value
}

proof fn lemma_pow256_monotone(a: nat, b: nat)
    requires
        a <= b,
    ensures
        pow256(a) <= pow256(b),
        1 <= pow256(a),
    decreases b,
{
    if b > 0 {
        if a < b {
            lemma_pow256_monotone(a, (b - 1) as nat);
        } else {
            lemma_pow256_monotone((a - 1) as nat, (b - 1) as nat);
        }
    }
}

/// Whether two byte strings are equal.
pub fn same_bytes(a: &Vec<u8>, b: &Vec<u8>) -> (r: bool)
    ensures
        r == (a@ == b@),
{
    if a.len() != b.len() {
        return false;
    }
    let mut i: usize = 0;
    while i < a.len()
        invariant
            i <= a@.len(),
            a@.len() == b@.len(),
            a@.subrange(0, i as int) == b@.subrange(0, i as int),
        decreases a@.len() - i,
    {
        if a[i] != b[i] {
            return false;
        }
        proof {
            assert(a@.subrange(0, i + 1) =~= a@.subrange(0, i as int).push(a@[i as int]));
            assert(b@.subrange(0, i + 1) =~= b@.subrange(0, i as int).push(b@[i as int]));
        }
        i = i + 1;
    }
    proof {
        assert(a@.subrange(0, i as int) =~= a@);
        assert(b@.subrange(0, i as int) =~= b@);
    }
    true
}

/// The bytes of `m` from position `from` up to, not including, `to`.
pub fn cut(m: &Vec<u8>, from: usize, to: usize) -> (r: Vec<u8>)
    requires
        from <= to <= m@.len(),
    ensures
        r@ == m@.subrange(from as int, to as int),
{
    let mut out: Vec<u8> = Vec::new();
    let mut i: usize = from;
    while i < to
        invariant
            from <= i <= to <= m@.len(),
            out@ == m@.subrange(from as int, i as int),
        decreases to - i,
    {
        out.push(m[i]);
        proof {
            assert(out@ =~= m@.subrange(from as int, i + 1));
        }
        i = i + 1;
    }
    out
}

/// A copy of a byte string.
pub fn copy_bytes(m: &Vec<u8>) -> (r: Vec<u8>)
    ensures
        r@ == m@,
{
    let out: Vec<u8> = cut(m, 0, m.len());
    proof {
        assert(m@.subrange(0, m@.len() as int) =~= m@);
    }
    out
}

/// Appends all of `tail` to `m`.
pub fn extend(m: &mut Vec<u8>, tail: &Vec<u8>)
    ensures
        final(m)@ == old(m)@ + tail@,
{
    let ghost start = m@;
    let mut i: usize = 0;
    while i < tail.len()
        invariant
            i <= tail@.len(),
            m@ == start + tail@.subrange(0, i as int),
        decreases tail@.len() - i,
    {
        m.push(tail[i]);
        proof {
            assert(m@ =~= start + tail@.subrange(0, i + 1));
        }
        i = i + 1;
    }
    proof {
        assert(tail@.subrange(0, i as int) =~= tail@);
    }
}

/// The first byte counts ones, and each byte counts 256 times what the one
/// before it counts.
pub proof fn bytes_count_little_endian(low: u8, rest: Seq<u8>)
    ensures
        le_nat(Seq::empty()) == 0,
        le_nat(seq![low] + rest) == low + 256 * le_nat(rest),
{
    assert((seq![low] + rest).drop_first() =~= rest);
}

/// Zero is read from zeros.
pub proof fn le_round_trip_zero(len: nat)
    ensures
        le_nat(Seq::new(len, |i: int| 0u8)) == 0,
{
    lemma_pow256_monotone(0, len);
    le_round_trip(0, len);
    lemma_le_bytes_zero(len);
}

} // verus!
