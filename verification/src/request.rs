//! Requests to spend money, as the interface and the console spell them.
//!
//! A recipient is three keys of 64 letters each. The letters `a` to `p` stand
//! for the digits zero to fifteen: the first 32 are the low halves of the
//! key's bytes, the last 32 the high halves. An amount follows in eight bytes.

use crate::bytes::{cut, le_nat, u64_at};
use crate::digest::{base_point, base_point_bytes};
use crate::keys::Key;
use vstd::arithmetic::power2::pow2;
use vstd::prelude::*;

verus! {

/// The three keys that money is sent to.
#[derive(Clone, Copy)]
pub struct Recipient {
    pub pk: Key,
    pub vpk: Key,
    pub apk: Key,
}

/// An amount on its way to a recipient.
#[derive(Clone, Copy)]
pub struct Output {
    pub to: Recipient,
    pub amount: u64,
}

/// An output with its keys as byte strings.
pub struct OutputView {
    pub pk: Seq<u8>,
    pub vpk: Seq<u8>,
    pub apk: Seq<u8>,
    pub amount: nat,
}

impl View for Output {
    type V = OutputView;

    open spec fn view(&self) -> OutputView {
        OutputView {
            pk: self.to.pk@,
            vpk: self.to.vpk@,
            apk: self.to.apk@,
            amount: self.amount as nat,
        }
    }
}

/// The views of outputs.
pub open spec fn views(outputs: Seq<Output>) -> Seq<OutputView> {
    Seq::new(outputs.len(), |i: int| outputs[i]@)
}

/// How many parts an amount is split into, so that each is below two to the
/// power `bits`.
pub open spec fn part_count(amount: nat, bits: nat) -> nat {
    amount / pow2(bits) + 1
}

/// The size of each part.
pub open spec fn part_size(amount: nat, bits: nat) -> nat {
    amount / part_count(amount, bits)
}

/// Each part is below two to the power `bits`. Together the parts never exceed
/// the amount and fall short of it by less than one for each part.
pub proof fn parts_are_small_and_add_up(amount: nat, bits: nat)
    ensures
        part_size(amount, bits) < pow2(bits),
        part_count(amount, bits) * part_size(amount, bits) <= amount,
        amount < part_count(amount, bits) * part_size(amount, bits) + part_count(amount, bits),
{
    vstd::arithmetic::power2::lemma_pow2_pos(bits);
    let p = pow2(bits);
    let y = part_count(amount, bits);
    let q = amount / p;
    vstd::arithmetic::div_mod::lemma_fundamental_div_mod(amount as int, p as int);
    vstd::arithmetic::div_mod::lemma_fundamental_div_mod(amount as int, y as int);
    vstd::arithmetic::div_mod::lemma_mod_bound(amount as int, p as int);
    vstd::arithmetic::div_mod::lemma_mod_bound(amount as int, y as int);
    assert(p * (q + 1) == p * q + p) by (nonlinear_arith);
    assert(amount < p * y);
    let s = part_size(amount, bits);
    assert(s < p) by (nonlinear_arith)
        requires
            amount < p * y,
            y * s <= amount,
            y > 0,
    ;
}

/// Two to the power `bits`.
fn two_to(bits: u32) -> (r: u64)
    requires
        bits < 64,
    ensures
        r == pow2(bits as nat),
        r > 0,
{
    let mut value: u64 = 1;
    let mut i: u32 = 0;
    proof {
        vstd::arithmetic::power2::lemma2_to64();
    }
    while i < bits
        invariant
            i <= bits < 64,
            value == pow2(i as nat),
            value > 0,
        decreases bits - i,
    {
        proof {
            vstd::arithmetic::power2::lemma_pow2_unfold(i as nat + 1);
            if i < 63 {
                vstd::arithmetic::power2::lemma2_to64();
                vstd::arithmetic::power2::lemma2_to64_rest();
                vstd::arithmetic::power2::lemma_pow2_strictly_increases(i as nat + 1, 64);
            }
        }
        value = value * 2;
        i = i + 1;
    }
    value
}

/// Splits an amount into equal parts, each below two to the power `bits`.
pub fn split_amount(amount: u64, bits: u32) -> (r: (u64, u64))
    requires
        0 < bits < 64,
    ensures
        r.0 == part_count(amount as nat, bits as nat),
        r.1 == part_size(amount as nat, bits as nat),
        r.0 * r.1 <= amount < r.0 * r.1 + r.0,
        r.1 < pow2(bits as nat),
{
    let largest: u64 = two_to(bits);
    proof {
        vstd::arithmetic::power2::lemma2_to64();
        if bits > 1 {
            vstd::arithmetic::power2::lemma_pow2_strictly_increases(1, bits as nat);
        }
        assert(largest >= 2);
        assert(amount / largest < u64::MAX) by (nonlinear_arith)
            requires
                largest >= 2,
                amount <= u64::MAX,
        ;
    }
    proof {
        parts_are_small_and_add_up(amount as nat, bits as nat);
    }
    let count: u64 = amount / largest + 1;
    (count, amount / count)
}

/// Two letters spell a byte: neither is below `a`, and the byte they spell is
/// no larger than a byte can be.
pub open spec fn pair_fits(low: u8, high: u8) -> bool {
    &&& 97 <= low
    &&& 97 <= high <= 112
    &&& (low - 97) + (high - 97) * 16 <= 255
}

/// The first 64 letters spell a key.
pub open spec fn letters_fit(m: Seq<u8>) -> bool {
    forall|i: int| 0 <= i < 32 ==> pair_fits(#[trigger] m[i], m[32 + i])
}

/// The key that the first 64 letters spell.
pub open spec fn spelled_key(m: Seq<u8>) -> Seq<u8> {
    Seq::new(32, |i: int| ((m[i] - 97) + (m[32 + i] - 97) * 16) as u8)
}

/// The letters that spell a key: the low halves of its bytes, then the high
/// halves.
pub open spec fn spelling(key: Seq<u8>) -> Seq<u8> {
    Seq::new(
        64,
        |i: int|
            if i < 32 {
                (97 + key[i] % 16) as u8
            } else {
                (97 + key[i - 32] / 16) as u8
            },
    )
}

/// Every key can be spelled, and its spelling is read as the key, whatever
/// follows.
pub proof fn spelled_keys_are_read(key: Seq<u8>, tail: Seq<u8>)
    requires
        key.len() == 32,
    ensures
        letters_fit(spelling(key) + tail),
        first_key(spelling(key) + tail) == key,
        after_key(spelling(key) + tail) == tail,
{
    let m = spelling(key) + tail;
    assert forall|i: int| 0 <= i < 32 implies pair_fits(#[trigger] m[i], m[32 + i]) && ((m[i] - 97)
        + (m[32 + i] - 97) * 16) as u8 == key[i] by {
        assert(m[i] == 97 + key[i] % 16);
        assert(m[32 + i] == 97 + key[i] / 16);
    }
    assert(first_key(m) =~= key);
    assert(after_key(m) =~= tail);
}

/// The key at the beginning of `m`, or the base point where `m` is too short
/// to hold one.
pub open spec fn first_key(m: Seq<u8>) -> Seq<u8> {
    if m.len() >= 64 {
        spelled_key(m)
    } else {
        base_point_bytes()
    }
}

/// What follows the key at the beginning of `m`.
pub open spec fn after_key(m: Seq<u8>) -> Seq<u8> {
    if m.len() >= 64 {
        m.subrange(64, m.len() as int)
    } else {
        m
    }
}

/// Wherever a key is read from `m`, its letters spell one.
pub open spec fn keys_fit(m: Seq<u8>) -> bool
    decreases m.len(),
{
    let second = after_key(m);
    let third = after_key(second);
    let rest = after_key(third);
    m.len() == 0 || {
        &&& m.len() >= 64 ==> letters_fit(m)
        &&& second.len() >= 64 ==> letters_fit(second)
        &&& third.len() >= 64 ==> letters_fit(third)
        &&& rest.len() >= 8 ==> keys_fit(rest.subrange(8, rest.len() as int))
    }
}

/// A list of recipients and amounts that can be read to its end.
pub open spec fn readable(m: Seq<u8>) -> bool {
    m.len() % 8 == 0 && keys_fit(m)
}

/// What a list of recipients and amounts asks for: the outputs, each amount
/// split into its parts, and whether nothing was missing. What is missing of a
/// key is filled in by the base point, a missing amount by zero.
pub open spec fn asked(m: Seq<u8>, bits: nat) -> (Seq<OutputView>, bool)
    decreases m.len(),
{
    if m.len() == 0 {
        (Seq::empty(), true)
    } else {
        let second = after_key(m);
        let third = after_key(second);
        let rest = after_key(third);
        let to = OutputView {
            pk: first_key(m),
            vpk: first_key(second),
            apk: first_key(third),
            amount: 0,
        };
        if rest.len() >= 8 {
            let amount = le_nat(rest.subrange(0, 8));
            let part = OutputView { amount: part_size(amount, bits), ..to };
            let more = asked(rest.subrange(8, rest.len() as int), bits);
            (
                Seq::new(part_count(amount, bits), |i: int| part) + more.0,
                more.1 && m.len() >= 192,
            )
        } else {
            (seq![to], false)
        }
    }
}

/// A request to spend: the outputs, and whether the request was complete.
pub struct Spending {
    pub outputs: Vec<Output>,
    pub valid: bool,
}

/// Whether the 64 letters from `at` on spell a key.
pub(crate) fn check_letters(m: &Vec<u8>, at: usize) -> (r: bool)
    requires
        at + 64 <= m@.len(),
    ensures
        r == letters_fit(m@.subrange(at as int, m@.len() as int)),
{
    let ghost b = m@.subrange(at as int, m@.len() as int);
    let end: usize = m.len();
    let mut i: usize = 0;
    while i < 32
        invariant
            i <= 32,
            at + 64 <= end,
            end == m@.len(),
            b == m@.subrange(at as int, m@.len() as int),
            forall|j: int| 0 <= j < i ==> pair_fits(#[trigger] b[j], b[32 + j]),
        decreases 32 - i,
    {
        let low: u8 = m[at + i];
        let high: u8 = m[at + 32 + i];
        assert(b[i as int] == low && b[32 + i] == high);
        if low < 97 || high < 97 || high > 112 {
            return false;
        }
        let value: u16 = (low as u16 - 97) + (high as u16 - 97) * 16;
        if value > 255 {
            return false;
        }
        i = i + 1;
    }
    true
}

/// Whether a list of recipients and amounts can be read to its end.
pub fn is_readable(m: &Vec<u8>) -> (r: bool)
    ensures
        r == readable(m@),
{
    let end: usize = m.len();
    if end % 8 != 0 {
        return false;
    }
    let mut at: usize = 0;
    proof {
        assert(m@.subrange(0, m@.len() as int) =~= m@);
    }
    while at < end
        invariant
            at <= end,
            end == m@.len(),
            (end - at) % 8 == 0,
            m@.len() % 8 == 0,
            keys_fit(m@.subrange(at as int, m@.len() as int)) == keys_fit(m@),
        decreases end - at,
    {
        let mut next: usize = at;
        let mut k: usize = 0;
        let mut fit: bool = true;
        let ghost first = m@.subrange(at as int, m@.len() as int);
        let ghost second = after_key(first);
        let ghost third = after_key(second);
        let ghost rest = after_key(third);
        while k < 3
            invariant
                k <= 3,
                at <= next <= end,
                at < end,
                end == m@.len(),
                (end - next) % 8 == 0,
                first == m@.subrange(at as int, m@.len() as int),
                second == after_key(first),
                third == after_key(second),
                rest == after_key(third),
                k == 0 ==> m@.subrange(next as int, m@.len() as int) == first && fit,
                k == 1 ==> m@.subrange(next as int, m@.len() as int) == second && fit == (
                first.len() >= 64 ==> letters_fit(first)),
                k == 2 ==> m@.subrange(next as int, m@.len() as int) == third && fit == ((
                first.len() >= 64 ==> letters_fit(first)) && (second.len() >= 64 ==> letters_fit(
                    second,
                ))),
                k == 3 ==> m@.subrange(next as int, m@.len() as int) == rest && fit == ((
                first.len() >= 64 ==> letters_fit(first)) && (second.len() >= 64 ==> letters_fit(
                    second,
                )) && (third.len() >= 64 ==> letters_fit(third))),
            decreases 3 - k,
        {
            if end - next >= 64 {
                let ok: bool = check_letters(m, next);
                proof {
                    let here = m@.subrange(next as int, m@.len() as int);
                    assert(after_key(here) =~= m@.subrange(next + 64, m@.len() as int));
                }
                fit = fit && ok;
                next = next + 64;
            }
            k = k + 1;
        }
        if !fit {
            return false;
        }
        if end - next >= 8 {
            proof {
                assert(rest.subrange(8, rest.len() as int) =~= m@.subrange(
                    next + 8,
                    m@.len() as int,
                ));
            }
            next = next + 8;
        } else {
            proof {
                assert(rest.len() == 0);
                assert(keys_fit(first));
                assert(m@.subrange(next as int, m@.len() as int) =~= Seq::<u8>::empty());
            }
        }
        at = next;
    }
    true
}

/// Reads the key at `at`, and says where what follows it begins.
pub(crate) fn read_key(m: &Vec<u8>, at: usize) -> (r: (Key, usize))
    requires
        at <= m@.len(),
        at + 64 <= m@.len() ==> letters_fit(m@.subrange(at as int, m@.len() as int)),
    ensures
        r.0@ == first_key(m@.subrange(at as int, m@.len() as int)),
        at <= r.1 <= m@.len(),
        m@.subrange(r.1 as int, m@.len() as int) == after_key(
            m@.subrange(at as int, m@.len() as int),
        ),
{
    let ghost b = m@.subrange(at as int, m@.len() as int);
    let end: usize = m.len();
    if end - at < 64 {
        return (base_point(), at);
    }
    let mut key: Key = [0u8; 32];
    let mut i: usize = 0;
    while i < 32
        invariant
            i <= 32,
            at + 64 <= end,
            end == m@.len(),
            b == m@.subrange(at as int, m@.len() as int),
            letters_fit(b),
            forall|j: int| 0 <= j < i ==> key@[j] == spelled_key(b)[j],
        decreases 32 - i,
    {
        let low: u8 = m[at + i];
        let high: u8 = m[at + 32 + i];
        proof {
            assert(b[i as int] == low && b[32 + i] == high);
            assert(pair_fits(b[i as int], b[32 + i]));
        }
        key[i] = (low - 97) + (high - 97) * 16;
        i = i + 1;
    }
    proof {
        assert(key@ =~= spelled_key(b));
        assert(b.subrange(64, b.len() as int) =~= m@.subrange(at + 64, m@.len() as int));
    }
    (key, at + 64)
}

/// Reads a list of recipients and amounts.
pub fn read_spending(m: &Vec<u8>, bits: u32) -> (r: Spending)
    requires
        readable(m@),
        0 < bits < 64,
    ensures
        views(r.outputs@) == asked(m@, bits as nat).0,
        r.valid == asked(m@, bits as nat).1,
{
    let end: usize = m.len();
    let mut outputs: Vec<Output> = Vec::new();
    let mut valid: bool = true;
    let mut at: usize = 0;
    proof {
        assert(m@.subrange(0, m@.len() as int) =~= m@);
        assert(views(outputs@) + asked(m@, bits as nat).0 =~= asked(m@, bits as nat).0);
    }
    while at < end
        invariant
            at <= end,
            end == m@.len(),
            0 < bits < 64,
            (end - at) % 8 == 0,
            keys_fit(m@.subrange(at as int, m@.len() as int)),
            views(outputs@) + asked(m@.subrange(at as int, m@.len() as int), bits as nat).0
                == asked(m@, bits as nat).0,
            (valid && asked(m@.subrange(at as int, m@.len() as int), bits as nat).1) == asked(
                m@,
                bits as nat,
            ).1,
        decreases end - at,
    {
        let ghost first = m@.subrange(at as int, m@.len() as int);
        let ghost before = outputs@;
        let (pk, second): (Key, usize) = read_key(m, at);
        let (vpk, third): (Key, usize) = read_key(m, second);
        let (apk, rest): (Key, usize) = read_key(m, third);
        let ghost tail = m@.subrange(rest as int, m@.len() as int);
        let to: Recipient = Recipient { pk, vpk, apk };
        let complete: bool = end - at >= 192;
        if end - rest >= 8 {
            let amount: u64 = u64_at(m, rest);
            let (count, size): (u64, u64) = split_amount(amount, bits);
            let ghost part = Output { to, amount: size };
            proof {
                assert(tail.subrange(0, 8) =~= m@.subrange(rest as int, rest + 8));
                assert(tail.subrange(8, tail.len() as int) =~= m@.subrange(
                    rest + 8,
                    m@.len() as int,
                ));
            }
            let mut i: u64 = 0;
            while i < count
                invariant
                    i <= count,
                    part == (Output { to, amount: size }),
                    outputs@ == before + Seq::new(i as nat, |k: int| part),
                decreases count - i,
            {
                outputs.push(Output { to, amount: size });
                i = i + 1;
                assert(outputs@ =~= before + Seq::new(i as nat, |k: int| part));
            }
            proof {
                let more = asked(tail.subrange(8, tail.len() as int), bits as nat);
                let parts = Seq::new(count as nat, |k: int| part@);
                assert(asked(first, bits as nat).0 =~= parts + more.0);
                assert(views(outputs@) =~= views(before) + parts);
                assert(views(outputs@) + more.0 =~= views(before) + (parts + more.0));
            }
            valid = valid && complete;
            at = rest + 8;
        } else {
            outputs.push(Output { to, amount: 0 });
            valid = false;
            proof {
                assert(tail =~= Seq::<u8>::empty());
                let one = seq![Output { to, amount: 0 }@];
                assert(asked(first, bits as nat).0 =~= one);
                assert(views(outputs@) =~= views(before) + one);
                assert(views(outputs@) + asked(tail, bits as nat).0 =~= views(outputs@));
            }
            at = rest;
        }
    }
    proof {
        let tail = m@.subrange(at as int, m@.len() as int);
        assert(tail =~= Seq::<u8>::empty());
        assert(views(outputs@) + asked(tail, bits as nat).0 =~= views(outputs@));
    }
    Spending { outputs, valid }
}

/// The letter that asks for a transaction, and for one from unstaked money.
pub const BANG: u8 = 33;

/// The letter that asks for a transaction from staked money.
pub const QUERY: u8 = 63;

/// Where the money of a transaction comes from.
#[derive(Clone, Copy, PartialEq, Eq, Structural)]
pub enum Source {
    Coins,
    Stake,
    Neither,
}

/// A staker's request to spend: where the money comes from, how many strangers
/// the ring is to hold if it is unstaked money, and what is to be paid.
pub struct StakerRequest {
    pub source: Source,
    pub ring_extra: Option<u8>,
    pub spending: Spending,
}

/// The source that the last letter of a staker's request names.
pub open spec fn named_source(letter: u8) -> Source {
    if letter == BANG {
        Source::Coins
    } else if letter == QUERY {
        Source::Stake
    } else {
        Source::Neither
    }
}

/// The recipients and amounts in a staker's request: what precedes the letter
/// that names the source and, for unstaked money, the size of the ring.
pub open spec fn staker_body(m: Seq<u8>) -> Seq<u8> {
    if m.last() == BANG {
        m.subrange(0, m.len() - 2)
    } else {
        m.subrange(0, m.len() - 1)
    }
}

/// Reads a staker's request to spend, without the letter that marks it as one.
pub fn read_staker_request(m: &Vec<u8>, bits: u32) -> (r: StakerRequest)
    requires
        m@.len() >= 1,
        m@.last() == BANG ==> m@.len() >= 2,
        readable(staker_body(m@)),
        0 < bits < 64,
    ensures
        r.source == named_source(m@.last()),
        r.ring_extra is Some <==> r.source == Source::Coins,
        r.ring_extra matches Some(extra) ==> m@ == staker_body(m@).push(extra).push(33),
        r.ring_extra is None ==> m@ == staker_body(m@).push(m@.last()),
        r.ring_extra == (if m@.last() == BANG {
            Some(m@[m@.len() - 2])
        } else {
            None
        }),
        views(r.spending.outputs@) == asked(staker_body(m@), bits as nat).0,
        r.spending.valid == asked(staker_body(m@), bits as nat).1,
{
    let length: usize = m.len();
    let letter: u8 = m[length - 1];
    proof {
        if m@.last() == BANG {
            assert(m@ =~= staker_body(m@).push(m@[m@.len() - 2]).push(33));
        } else {
            assert(m@ =~= staker_body(m@).push(m@.last()));
        }
    }
    if letter == BANG {
        let body: Vec<u8> = cut(m, 0, length - 2);
        let spending: Spending = read_spending(&body, bits);
        StakerRequest { source: Source::Coins, ring_extra: Some(m[length - 2]), spending }
    } else {
        let body: Vec<u8> = cut(m, 0, length - 1);
        let spending: Spending = read_spending(&body, bits);
        let source: Source = if letter == QUERY {
            Source::Stake
        } else {
            Source::Neither
        };
        StakerRequest { source, ring_extra: None, spending }
    }
}

/// Whether a staker's request can be read.
pub fn is_readable_staker_request(m: &Vec<u8>) -> (r: bool)
    ensures
        r == (m@.len() >= 1 && (m@.last() == BANG ==> m@.len() >= 2) && readable(
            staker_body(m@),
        )),
{
    let length: usize = m.len();
    if length < 1 {
        return false;
    }
    if m[length - 1] == BANG {
        if length < 2 {
            return false;
        }
        let body: Vec<u8> = cut(m, 0, length - 2);
        is_readable(&body)
    } else {
        let body: Vec<u8> = cut(m, 0, length - 1);
        is_readable(&body)
    }
}

/// A user's request to spend: how many strangers the ring is to hold, and what
/// is to be paid.
pub struct UserRequest {
    pub ring_extra: u8,
    pub spending: Spending,
}

/// Reads a user's request to spend, without the letter that marks it as one.
pub fn read_user_request(m: &Vec<u8>, bits: u32) -> (r: UserRequest)
    requires
        m@.len() >= 1,
        readable(m@.drop_last()),
        0 < bits < 64,
    ensures
        r.ring_extra == m@.last(),
        m@ == m@.drop_last().push(r.ring_extra),
        views(r.spending.outputs@) == asked(m@.drop_last(), bits as nat).0,
        r.spending.valid == asked(m@.drop_last(), bits as nat).1,
{
    let length: usize = m.len();
    let body: Vec<u8> = cut(m, 0, length - 1);
    proof {
        assert(body@ =~= m@.drop_last());
        assert(m@ =~= m@.drop_last().push(m@.last()));
    }
    UserRequest { ring_extra: m[length - 1], spending: read_spending(&body, bits) }
}

/// Whether a user's request can be read.
pub fn is_readable_user_request(m: &Vec<u8>) -> (r: bool)
    ensures
        r == (m@.len() >= 1 && readable(m@.drop_last())),
{
    let length: usize = m.len();
    if length < 1 {
        return false;
    }
    let body: Vec<u8> = cut(m, 0, length - 1);
    proof {
        assert(body@ =~= m@.drop_last());
    }
    is_readable(&body)
}

/// A push of a staker's panic button: what to move of the unstaked and of the
/// staked money, and the password of the account that it goes to.
pub struct StakerPanic {
    pub coins: u64,
    pub stake: u64,
    pub password: Vec<u8>,
}

/// The amount in the eight bytes at the beginning of `m`.
pub open spec fn amount_at(m: Seq<u8>, at: int) -> nat {
    le_nat(m.subrange(at, at + 8))
}

/// Reads a push of a staker's panic button. The two amounts are told apart
/// later by their size, so where they are equal the staked one is lowered.
pub fn read_staker_panic(m: &Vec<u8>) -> (r: StakerPanic)
    requires
        m@.len() >= 16,
        amount_at(m@, 0) != 0 || amount_at(m@, 8) != 0,
    ensures
        r.coins == amount_at(m@, 0),
        r.stake == (if amount_at(m@, 8) == amount_at(m@, 0) {
            amount_at(m@, 8) - 1
        } else {
            amount_at(m@, 8) as int
        }),
        r.coins != r.stake,
        r.stake <= amount_at(m@, 8) <= r.stake + 1,
        m@ == m@.subrange(0, 16) + r.password@,
        r.password@ == m@.subrange(16, m@.len() as int),
{
    let coins: u64 = u64_at(m, 0);
    let asked: u64 = u64_at(m, 8);
    let stake: u64 = if asked == coins {
        asked - 1
    } else {
        asked
    };
    assert(m@ =~= m@.subrange(0, 16) + m@.subrange(16, m@.len() as int));
    StakerPanic { coins, stake, password: cut(m, 16, m.len()) }
}

/// Whether a push of a staker's panic button can be read: two amounts are
/// there, and they can be told apart.
pub fn is_readable_staker_panic(m: &Vec<u8>) -> (r: bool)
    ensures
        r == (m@.len() >= 16 && (amount_at(m@, 0) != 0 || amount_at(m@, 8) != 0)),
{
    m.len() >= 16 && (u64_at(m, 0) != 0 || u64_at(m, 8) != 0)
}

/// A push of a user's panic button: what to move, and the password of the
/// account that it goes to.
pub struct UserPanic {
    pub coins: u64,
    pub password: Vec<u8>,
}

/// Reads a push of a user's panic button.
pub fn read_user_panic(m: &Vec<u8>) -> (r: UserPanic)
    requires
        m@.len() >= 8,
    ensures
        r.coins == amount_at(m@, 0),
        r.password@ == m@.subrange(8, m@.len() as int),
{
    UserPanic { coins: u64_at(m, 0), password: cut(m, 8, m.len()) }
}

/// An amount is split only where it has to be, and into as few parts as its
/// size asks for: what is below two to the power `bits` is paid in one piece,
/// and one part less could not hold more than the amount.
pub proof fn amounts_are_split_no_more_than_needed(amount: nat, bits: nat)
    ensures
        amount < part_count(amount, bits) * pow2(bits),
        (part_count(amount, bits) - 1) * pow2(bits) <= amount,
        amount < pow2(bits) ==> part_count(amount, bits) == 1 && part_size(amount, bits) == amount,
{
    vstd::arithmetic::power2::lemma_pow2_pos(bits);
    let p = pow2(bits);
    let q = amount / p;
    vstd::arithmetic::div_mod::lemma_fundamental_div_mod(amount as int, p as int);
    vstd::arithmetic::div_mod::lemma_mod_bound(amount as int, p as int);
    assert((q + 1) * p == p * q + p && q * p == p * q) by (nonlinear_arith);
    if amount < p {
        vstd::arithmetic::div_mod::lemma_basic_div(amount as int, p as int);
        vstd::arithmetic::div_mod::lemma_div_basics(amount as int);
    }
}

/// What outputs pay together.
pub open spec fn paid_by(outputs: Seq<OutputView>) -> nat
    decreases outputs.len(),
{
    if outputs.len() == 0 {
        0
    } else {
        paid_by(outputs.drop_last()) + outputs.last().amount
    }
}

proof fn lemma_paid_by_parts(outputs: Seq<OutputView>, size: nat)
    requires
        forall|i: int| 0 <= i < outputs.len() ==> (#[trigger] outputs[i]).amount == size,
    ensures
        paid_by(outputs) == outputs.len() * size,
    decreases outputs.len(),
{
    if outputs.len() > 0 {
        let init = outputs.drop_last();
        assert forall|i: int| 0 <= i < init.len() implies (#[trigger] init[i]).amount == size by {
            assert(init[i] == outputs[i]);
        }
        lemma_paid_by_parts(init, size);
        let n = outputs.len();
        assert(n * size == (n - 1) * size + size) by (nonlinear_arith);
    }
}

/// The bytes that ask for one payment: the three keys of the recipient, each
/// spelled out, and the amount.
pub open spec fn payment_request(pk: Seq<u8>, vpk: Seq<u8>, apk: Seq<u8>, amount: u64) -> Seq<u8> {
    spelling(pk) + spelling(vpk) + spelling(apk) + crate::bytes::le_bytes(amount as nat, 8)
}

/// Every amount that 64 bits hold is paid as it was asked for: a request for a
/// payment and then for more leads to equal outputs to the keys that were
/// spelled, as many as the amount has parts, and then to what more is asked
/// for. It is complete exactly if the rest is.
pub proof fn payments_are_read_as_asked(
    pk: Seq<u8>,
    vpk: Seq<u8>,
    apk: Seq<u8>,
    amount: u64,
    tail: Seq<u8>,
    bits: nat,
)
    requires
        pk.len() == 32,
        vpk.len() == 32,
        apk.len() == 32,
    ensures
        ({
            let m = payment_request(pk, vpk, apk, amount) + tail;
            let out = asked(m, bits).0;
            let more = asked(tail, bits).0;
            let count = part_count(amount as nat, bits);
            &&& readable(m) == readable(tail)
            &&& asked(m, bits).1 == asked(tail, bits).1
            &&& out.len() == count + more.len()
            &&& forall|i: int|
                0 <= i < count ==> #[trigger] out[i] == (OutputView {
                    pk,
                    vpk,
                    apk,
                    amount: part_size(amount as nat, bits),
                })
            &&& forall|i: int| 0 <= i < more.len() ==> #[trigger] out[count + i] == more[i]
        }),
{
    let number = crate::bytes::le_bytes(amount as nat, 8);
    crate::bytes::lemma_pow256_values();
    crate::bytes::le_round_trip(amount as nat, 8);
    let m = payment_request(pk, vpk, apk, amount) + tail;
    let second = spelling(vpk) + (spelling(apk) + (number + tail));
    let third = spelling(apk) + (number + tail);
    let rest = number + tail;
    assert(m =~= spelling(pk) + second);
    spelled_keys_are_read(pk, second);
    spelled_keys_are_read(vpk, third);
    spelled_keys_are_read(apk, rest);
    assert(after_key(m) == second);
    assert(after_key(second) == third);
    assert(after_key(third) == rest);
    assert(rest.subrange(0, 8) =~= number);
    assert(rest.subrange(8, rest.len() as int) =~= tail);
    assert(m.len() == 200 + tail.len());
}

/// No money is lost on the way: what a request for one payment leads to pays no
/// more than the amount, and less by less than one for each output. Each
/// output stays below two to the power `bits`.
pub proof fn payments_add_up(
    pk: Seq<u8>,
    vpk: Seq<u8>,
    apk: Seq<u8>,
    amount: u64,
    bits: nat,
)
    requires
        pk.len() == 32,
        vpk.len() == 32,
        apk.len() == 32,
    ensures
        ({
            let m = payment_request(pk, vpk, apk, amount);
            let out = asked(m, bits).0;
            &&& readable(m)
            &&& asked(m, bits).1
            &&& paid_by(out) <= amount < paid_by(out) + out.len()
            &&& (out.len() - 1) * pow2(bits) <= amount < out.len() * pow2(bits)
            &&& forall|i: int|
                0 <= i < out.len() ==> (#[trigger] out[i]).amount < pow2(bits) && out[i].pk == pk
                    && out[i].vpk == vpk && out[i].apk == apk
        }),
{
    let m = payment_request(pk, vpk, apk, amount);
    let none = Seq::<u8>::empty();
    payments_are_read_as_asked(pk, vpk, apk, amount, none, bits);
    assert(m + none =~= m);
    parts_are_small_and_add_up(amount as nat, bits);
    amounts_are_split_no_more_than_needed(amount as nat, bits);
    let out = asked(m, bits).0;
    lemma_paid_by_parts(out, part_size(amount as nat, bits));
}

/// A request is complete exactly if it holds whole payments of three keys and
/// an amount.
pub proof fn only_whole_payments_are_valid(m: Seq<u8>, bits: nat)
    ensures
        asked(m, bits).1 <==> m.len() % 200 == 0,
    decreases m.len(),
{
    if m.len() > 0 {
        let rest = after_key(after_key(after_key(m)));
        if rest.len() >= 8 {
            only_whole_payments_are_valid(rest.subrange(8, rest.len() as int), bits);
        }
    }
}

/// Where there is no room for a key, the base point stands for it and nothing
/// is read; a key takes 64 letters.
pub proof fn missing_keys_take_no_letters(m: Seq<u8>)
    ensures
        m.len() < 64 ==> first_key(m) == base_point_bytes() && after_key(m) == m,
        m.len() >= 64 ==> m == m.subrange(0, 64) + after_key(m),
{
    if m.len() >= 64 {
        assert(m =~= m.subrange(0, 64) + after_key(m));
    }
}

/// The last letter of a staker's request names the source: an exclamation mark
/// coins, a question mark the stake, anything else neither. Only before an
/// exclamation mark does the size of the ring stand.
pub proof fn the_last_letter_names_the_source(body: Seq<u8>, extra: u8, letter: u8)
    ensures
        named_source(letter) is Coins <==> letter == 33,
        named_source(letter) is Stake <==> letter == 63,
        staker_body(body.push(extra).push(33)) == body,
        letter != 33 ==> staker_body(body.push(letter)) == body,
{
    assert(staker_body(body.push(extra).push(33)) =~= body);
    if letter != 33 {
        assert(staker_body(body.push(letter)) =~= body);
    }
}

/// The amounts of a push of the panic button are read as they were written: the
/// first eight bytes are the coins, the next eight the stake.
pub proof fn panic_amounts_are_understood(coins: u64, stake: u64, password: Seq<u8>)
    ensures
        ({
            let m = crate::bytes::le_bytes(coins as nat, 8) + crate::bytes::le_bytes(
                stake as nat,
                8,
            ) + password;
            &&& amount_at(m, 0) == coins
            &&& amount_at(m, 8) == stake
            &&& m.subrange(16, m.len() as int) == password
        }),
{
    crate::bytes::lemma_pow256_values();
    crate::bytes::le_round_trip(coins as nat, 8);
    crate::bytes::le_round_trip(stake as nat, 8);
    let a = crate::bytes::le_bytes(coins as nat, 8);
    let b = crate::bytes::le_bytes(stake as nat, 8);
    let m = a + b + password;
    assert(m.subrange(0, 8) =~= a);
    assert(m.subrange(8, 16) =~= b);
    assert(m.subrange(16, m.len() as int) =~= password);
}

} // verus!
