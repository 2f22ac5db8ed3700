//! Hashes, scalars and curve points, all as byte strings.
//!
//! A scalar is the 32-byte little-endian form of an integer below the group
//! order; a point is its 32-byte compressed form.

use crate::bytes::{
    le_bytes, le_nat, le_round_trip, lemma_le_bytes_prefix, lemma_le_bytes_zero, pow256,
};
use crate::keys::{same_key, Key};
use crate::wire::{pack_bytes, packed_bytes};
use curve25519_dalek::constants::RISTRETTO_BASEPOINT_COMPRESSED;
use curve25519_dalek::ristretto::CompressedRistretto;
use curve25519_dalek::scalar::Scalar;
use sha3::{Digest, Sha3_512};
use vstd::prelude::*;

verus! {

/// The order of the group that scalars are reduced by.
pub open spec fn group_order() -> nat {
    0x1000000000000000000000000000000014def9dea2f79cd65812631a5cf5d3ednat
}

/// The SHA3-512 digest of a byte string.
pub uninterp spec fn sha3_512(message: Seq<u8>) -> Seq<u8>;

/// The scalar that a byte string is known by: its SHA3-512 digest, read as a
/// little-endian integer and reduced by the group order.
pub open spec fn scalar_name(message: Seq<u8>) -> Seq<u8> {
    le_bytes(le_nat(sha3_512(message)) % group_order(), 32)
}

/// `sha3::Sha3_512`, fed `message` in one piece. The digest is a function of
/// the message alone and is 64 bytes long.
#[verifier::external_body]
fn sha3_512_digest(message: &Vec<u8>) -> (r: [u8; 64])
    ensures
        r@ == sha3_512(message@),
{
    let mut hasher = Sha3_512::new();
    hasher.update(message);
    let mut digest = [0u8; 64];
    digest.copy_from_slice(&hasher.finalize());
    digest
}

/// `Scalar::from_bytes_mod_order_wide`: the 512-bit little-endian integer
/// reduced modulo the group order, in its 32-byte form.
#[verifier::external_body]
fn reduce_wide(wide: &[u8; 64]) -> (r: [u8; 32])
    ensures
        r@ == le_bytes(le_nat(wide@) % group_order(), 32),
{
    Scalar::from_bytes_mod_order_wide(wide).to_bytes()
}

/// `+` of `Scalar`: the sum of two 256-bit little-endian integers modulo the
/// group order, in its 32-byte form.
#[verifier::external_body]
fn scalar_sum(a: &[u8; 32], b: &[u8; 32]) -> (r: [u8; 32])
    ensures
        r@ == le_bytes((le_nat(a@) + le_nat(b@)) % group_order(), 32),
{
    (Scalar::from_bytes_mod_order(*a) + Scalar::from_bytes_mod_order(*b)).to_bytes()
}

/// The scalar that what was packed as `packed` is known by. A block is named by
/// it.
pub fn scalar_of(packed: &Vec<u8>) -> (r: [u8; 32])
    ensures
        r@ == scalar_name(packed@),
{
    let digest: [u8; 64] = sha3_512_digest(packed);
    reduce_wide(&digest)
}

/// The scalar that identifies a message, which is packed before it is hashed.
/// Two long messages are told apart by it.
pub fn hash_to_scalar(message: &Vec<u8>) -> (r: [u8; 32])
    ensures
        r@ == scalar_name(packed_bytes(message@)),
        r@ == scalar_name(le_bytes(message@.len(), 8) + message@),
{
    let packed: Vec<u8> = pack_bytes(message);
    scalar_of(&packed)
}

/// The sum of the integers that the scalars stand for.
pub open spec fn integer_sum(scalars: Seq<[u8; 32]>) -> nat
    decreases scalars.len(),
{
    if scalars.len() == 0 {
        0
    } else {
        integer_sum(scalars.drop_last()) + le_nat(scalars.last()@)
    }
}

proof fn lemma_group_order()
    ensures
        0 < group_order() < pow256(32),
{
    reveal_with_fuel(pow256, 33);
}

/// Adds up scalars.
pub fn total(scalars: &Vec<[u8; 32]>) -> (r: [u8; 32])
    ensures
        r@ == le_bytes(integer_sum(scalars@) % group_order(), 32),
{
    let mut sum: [u8; 32] = [0u8; 32];
    let mut i: usize = 0;
    proof {
        lemma_le_bytes_zero(32);
        lemma_group_order();
        assert(scalars@.subrange(0, 0) =~= Seq::<[u8; 32]>::empty());
        assert(sum@ =~= Seq::new(32, |i: int| 0u8));
    }
    while i < scalars.len()
        invariant
            i <= scalars@.len(),
            0 < group_order() < pow256(32),
            sum@ == le_bytes(
                integer_sum(scalars@.subrange(0, i as int)) % group_order(),
                32,
            ),
        decreases scalars@.len() - i,
    {
        let ghost before = integer_sum(scalars@.subrange(0, i as int));
        sum = scalar_sum(&sum, &scalars[i]);
        proof {
            let here = le_nat(scalars@[i as int]@);
            le_round_trip(before % group_order(), 32);
            vstd::arithmetic::div_mod::lemma_add_mod_noop_right(
                here as int,
                before as int,
                group_order() as int,
            );
            assert(scalars@.subrange(0, i + 1).drop_last() =~= scalars@.subrange(0, i as int));
            assert((before % group_order() + here) % group_order() == (before + here)
                % group_order());
        }
        i = i + 1;
    }
    assert(scalars@.subrange(0, i as int) =~= scalars@);
    sum
}

/// The low eight bytes of the sum of scalars: the sum itself wherever it is
/// below two to the power 64.
pub fn total_low_bytes(scalars: &Vec<[u8; 32]>) -> (r: Vec<u8>)
    ensures
        r@ == le_bytes(integer_sum(scalars@) % group_order(), 8),
{
    let sum: [u8; 32] = total(scalars);
    let mut out: Vec<u8> = Vec::new();
    let mut i: usize = 0;
    while i < 8
        invariant
            i <= 8,
            out@ == sum@.subrange(0, i as int),
        decreases 8 - i,
    {
        out.push(sum[i]);
        assert(out@ =~= sum@.subrange(0, i + 1));
        i = i + 1;
    }
    proof {
        lemma_le_bytes_prefix(integer_sum(scalars@) % group_order(), 32, 8);
    }
    out
}

/// The compressed form of the base point.
pub open spec fn base_point_bytes() -> Seq<u8> {
    seq![
        0xe2u8, 0xf2, 0xae, 0x0a, 0x6a, 0xbc, 0x4e, 0x71, 0xa8, 0x84, 0xa9, 0x61, 0xc5, 0x00, 0x51,
        0x5f, 0x58, 0xe3, 0x0b, 0x6a, 0xa5, 0x82, 0xdd, 0x8d, 0xb6, 0xa6, 0x59, 0x45, 0xe0, 0x8d,
        0x2d, 0x76,
    ]
}

/// The constant `RISTRETTO_BASEPOINT_COMPRESSED`.
#[verifier::external_body]
pub(crate) fn base_point() -> (r: Key)
    ensures
        r@ == base_point_bytes(),
{
    RISTRETTO_BASEPOINT_COMPRESSED.to_bytes()
}

/// Whether 32 bytes are the compressed form of a point.
pub uninterp spec fn is_point(p: Seq<u8>) -> bool;

/// The compressed form of the sum of two points.
pub uninterp spec fn point_sum(a: Seq<u8>, b: Seq<u8>) -> Seq<u8>;

/// The compressed form of a multiple of a point.
pub uninterp spec fn point_multiple(s: Seq<u8>, p: Seq<u8>) -> Seq<u8>;

/// `CompressedRistretto::decompress`: whether it finds a point.
#[verifier::external_body]
pub(crate) fn decompresses(p: &Key) -> (r: bool)
    ensures
        r == is_point(p@),
{
    CompressedRistretto(*p).decompress().is_some()
}

/// `+` of `RistrettoPoint`, on compressed points. The sum is a point.
#[verifier::external_body]
fn add_points(a: &Key, b: &Key) -> (r: Key)
    requires
        is_point(a@),
        is_point(b@),
    ensures
        r@ == point_sum(a@, b@),
        is_point(r@),
{
    let a = CompressedRistretto(*a).decompress().unwrap();
    let b = CompressedRistretto(*b).decompress().unwrap();
    (a + b).compress().to_bytes()
}

/// `*` of `Scalar` and `RistrettoPoint`, on the scalar that `Scalar::from_bits`
/// makes of `s` and on a compressed point. The multiple is a point.
#[verifier::external_body]
fn multiply_point(s: &[u8; 32], p: &Key) -> (r: Key)
    requires
        is_point(p@),
    ensures
        r@ == point_multiple(s@, p@),
        is_point(r@),
{
    let p = CompressedRistretto(*p).decompress().unwrap();
    (Scalar::from_bits(*s) * p).compress().to_bytes()
}

/// A validator's answer fits: the commitment plus the challenge times the
/// validator's key is the answer times the generator.
pub open spec fn answer_fits(
    commitment: Seq<u8>,
    challenge: Seq<u8>,
    key: Seq<u8>,
    answer: Seq<u8>,
    generator: Seq<u8>,
) -> bool {
    point_sum(commitment, point_multiple(challenge, key)) == point_multiple(answer, generator)
}

/// Checks a validator's answer. There is none to give where the commitment,
/// the key or the generator is not a point.
pub fn check_answer(
    commitment: &Key,
    challenge: &[u8; 32],
    key: &Key,
    answer: &[u8; 32],
    generator: &Key,
) -> (r: Option<bool>)
    ensures
        r == (if is_point(commitment@) && is_point(key@) && is_point(generator@) {
            Some(answer_fits(commitment@, challenge@, key@, answer@, generator@))
        } else {
            None
        }),
{
    if !decompresses(commitment) || !decompresses(key) || !decompresses(generator) {
        return None;
    }
    let scaled: Key = multiply_point(challenge, key);
    let left: Key = add_points(commitment, &scaled);
    let right: Key = multiply_point(answer, generator);
    let same: bool = same_key(&left, &right);
    proof {
        if left@ == right@ {
            assert(left =~= right);
        }
    }
    Some(same)
}

/// Coins are added one by one: those in two lists add up, and one counts what
/// its bytes say.
pub proof fn coins_add_up(a: Seq<[u8; 32]>, b: Seq<[u8; 32]>, coin: [u8; 32])
    ensures
        integer_sum(Seq::empty()) == 0,
        integer_sum(seq![coin]) == le_nat(coin@),
        integer_sum(a + b) == integer_sum(a) + integer_sum(b),
    decreases b.len(),
{
    reveal_with_fuel(integer_sum, 2);
    assert(seq![coin].drop_last() =~= Seq::<[u8; 32]>::empty());
    if b.len() == 0 {
        assert(a + b =~= a);
    } else {
        assert((a + b).drop_last() =~= a + b.drop_last());
        coins_add_up(a, b.drop_last(), coin);
    }
}

/// A name is a scalar: 32 bytes that stand for a number below the group order,
/// which is the digest's number but for multiples of that order.
pub proof fn names_are_scalars(message: Seq<u8>)
    ensures
        scalar_name(message).len() == 32,
        le_nat(scalar_name(message)) < group_order(),
        exists|k: nat| le_nat(sha3_512(message)) == le_nat(scalar_name(message)) + #[trigger] (k
            * group_order()),
{
    lemma_group_order();
    let d = le_nat(sha3_512(message));
    let q = d / group_order();
    vstd::arithmetic::div_mod::lemma_fundamental_div_mod(d as int, group_order() as int);
    le_round_trip(d % group_order(), 32);
    assert(d == le_nat(scalar_name(message)) + q * group_order()) by {
        vstd::arithmetic::mul::lemma_mul_is_commutative(q as int, group_order() as int);
    }
}

/// An answer fits exactly if the answer times the generator is the commitment
/// plus the challenge times the key; so whether it does depends on each of them
/// only through these two points.
pub proof fn answers_are_judged_by_two_points(
    commitment: Seq<u8>,
    challenge: Seq<u8>,
    key: Seq<u8>,
    answer: Seq<u8>,
    generator: Seq<u8>,
    other: Seq<u8>,
)
    requires
        answer_fits(commitment, challenge, key, answer, generator),
    ensures
        point_multiple(answer, generator) == point_sum(commitment, point_multiple(challenge, key)),
        answer_fits(commitment, challenge, key, other, generator) <==> point_multiple(
            other,
            generator,
        ) == point_multiple(answer, generator),
{
}

} // verus!
