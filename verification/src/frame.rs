//! The messages that nodes, users and the interface exchange. The last byte of
//! a message says what it is.

use crate::bytes::{copy_bytes, cut, extend, le_bytes, le_round_trip,
    lemma_pow256_values, u16_bytes, u64_at, u64_bytes};
use crate::digest::{group_order, integer_sum, total_low_bytes};
use crate::wire::{pack_bytes, pack_list, packed_bytes, packed_list, rows};
use vstd::prelude::*;

verus! {

/// a transaction
pub const TRANSACTION: u8 = 0;

/// the transactions that the next block is made of
pub const ENTRY: u8 = 1;

/// a validator's signature under a block
pub const SIGNATURE: u8 = 2;

/// a full block
pub const BLOCK: u8 = 3;

/// a validator's commitment
pub const COMMITMENT: u8 = 4;

/// the sum of the commitments
pub const COMMITMENT_SUM: u8 = 5;

/// a validator's answer to the challenge
pub const ANSWER: u8 = 6;

/// a lightning block for the outside world
pub const LIGHTNING_OUT: u8 = 7;

/// a refusal to serve a sync request
pub const ASK_AGAIN: u8 = 60;

/// a wish to connect
pub const CONNECT: u8 = 97;

/// a wish to enter, answered by a view of the network
pub const ENTRANCE: u8 = 101;

/// full blocks are asked for
pub const FULL: u8 = 102;

/// a lightning block; also, lightning blocks are asked for
pub const LIGHTNING: u8 = 108;

/// the announcement of a staker's address
pub const ANNOUNCEMENT: u8 = 110;

/// a question for the members of a ring
pub const RING: u8 = 114;

/// a request for blocks
pub const SYNC: u8 = 121;

/// `m` with the byte that says what it is.
pub fn tagged(m: &Vec<u8>, tag: u8) -> (r: Vec<u8>)
    ensures
        r@ == m@.push(tag),
{
    let mut out: Vec<u8> = copy_bytes(m);
    out.push(tag);
    out
}

/// A message without its last byte, and that byte. An empty message has none.
pub fn untagged(m: &Vec<u8>) -> (r: Option<(u8, Vec<u8>)>)
    ensures
        m@.len() == 0 ==> r is None,
        m@.len() > 0 ==> (r matches Some(p) && p.0 == m@.last() && p.1@ == m@.drop_last()),
{
    let length: usize = m.len();
    if length == 0 {
        return None;
    }
    let body: Vec<u8> = cut(m, 0, length - 1);
    assert(body@ =~= m@.drop_last());
    Some((m[length - 1], body))
}

/// Tells the interface whether the amounts it shows are to be trusted.
pub fn trust_frame(trusted: bool) -> (r: Vec<u8>)
    ensures
        r@ == seq![if trusted { 1u8 } else { 0u8 }, 1u8],
{
    let mut out: Vec<u8> = Vec::new();
    out.push(if trusted {
        1u8
    } else {
        0u8
    });
    out.push(1);
    assert(out@ =~= seq![if trusted { 1u8 } else { 0u8 }, 1u8]);
    out
}

/// Tells the interface of a staker the unstaked money and the staked money.
pub fn staker_money_frame(amounts: &Vec<[u8; 32]>, stake: Option<u64>) -> (r: Vec<u8>)
    ensures
        r@ == (le_bytes(integer_sum(amounts@) % group_order(), 8) + le_bytes(
            (if stake is Some {
                stake->0 as nat
            } else {
                0
            }),
            8,
        )).push(0),
        r@.len() == 17 && r@[16] == 0,
        integer_sum(amounts@) <= u64::MAX ==> crate::bytes::le_nat(r@.subrange(0, 8))
            == integer_sum(amounts@),
        crate::bytes::le_nat(r@.subrange(8, 16)) == (match stake {
            Some(s) => s,
            None => 0,
        }),
{
    let mut out: Vec<u8> = total_low_bytes(amounts);
    let staked: u64 = match stake {
        Some(s) => s,
        None => 0,
    };
    let tail: Vec<u8> = u64_bytes(staked);
    let ghost coins = out@;
    extend(&mut out, &tail);
    out.push(0);
    proof {
        lemma_pow256_values();
        le_round_trip(staked as nat, 8);
        crate::bytes::lemma_le_bytes_len(integer_sum(amounts@) % group_order(), 8);
        assert(out@.subrange(0, 8) =~= coins);
        assert(out@.subrange(8, 16) =~= tail@);
        if integer_sum(amounts@) <= u64::MAX {
            money_is_shown_as_it_adds_up(amounts@);
        }
    }
    out
}

/// Tells the interface of a user the money.
pub fn user_money_frame(amounts: &Vec<[u8; 32]>) -> (r: Vec<u8>)
    ensures
        r@ == le_bytes(integer_sum(amounts@) % group_order(), 8).push(0),
        integer_sum(amounts@) <= u64::MAX ==> crate::bytes::le_nat(r@.drop_last()) == integer_sum(
            amounts@,
        ),
{
    let mut out: Vec<u8> = total_low_bytes(amounts);
    proof {
        assert(out@.push(0).drop_last() =~= out@);
        if integer_sum(amounts@) <= u64::MAX {
            money_is_shown_as_it_adds_up(amounts@);
        }
    }
    out.push(0);
    out
}

/// Tells the interface the number of the next block.
pub fn block_number_frame(bnum: u64) -> (r: Vec<u8>)
    ensures
        r@ == le_bytes(bnum as nat, 8).push(2),
        crate::bytes::le_nat(r@.drop_last()) == bnum,
{
    let mut out: Vec<u8> = u64_bytes(bnum);
    proof {
        lemma_pow256_values();
        le_round_trip(bnum as nat, 8);
        assert(out@.push(2).drop_last() =~= out@);
    }
    out.push(2);
    out
}

/// Tells the interface whether the node sits in the committee.
pub fn seat_frame(seated: bool) -> (r: Vec<u8>)
    ensures
        r@ == seq![if seated { 1u8 } else { 0u8 }, 3u8],
{
    let mut out: Vec<u8> = Vec::new();
    out.push(if seated {
        1u8
    } else {
        0u8
    });
    out.push(3);
    assert(out@ =~= seq![if seated { 1u8 } else { 0u8 }, 3u8]);
    out
}

/// Tells the interface of a staker the number of friends.
pub fn staker_friends_frame(friends: usize) -> (r: Vec<u8>)
    ensures
        r@ == le_bytes(friends as u16 as nat, 2).push(4),
{
    let mut out: Vec<u8> = u16_bytes(friends as u16);
    out.push(4);
    out
}

/// Tells the interface of a user the number of friends.
pub fn user_friends_frame(friends: usize) -> (r: Vec<u8>)
    ensures
        r@ == le_bytes(friends as u64 as nat, 8).push(4),
{
    let mut out: Vec<u8> = u64_bytes(friends as u64);
    out.push(4);
    out
}

/// Tells the interface the seconds that a block takes.
pub fn block_time_frame(seconds: u8) -> (r: Vec<u8>)
    ensures
        r@ == seq![seconds, 128u8],
{
    let mut out: Vec<u8> = Vec::new();
    out.push(seconds);
    out.push(128);
    assert(out@ =~= seq![seconds, 128u8]);
    out
}

/// Tells the interface that the node was saved.
pub fn saved_frame() -> (r: Vec<u8>)
    ensures
        r@ == seq![253u8],
{
    let mut out: Vec<u8> = Vec::new();
    out.push(253);
    assert(out@ =~= seq![253u8]);
    out
}

/// The pieces of an identity, each packed by itself.
pub open spec fn packed_pieces(pieces: Seq<Seq<u8>>) -> Seq<Seq<u8>> {
    Seq::new(pieces.len(), |i: int| packed_bytes(pieces[i]))
}

/// Tells the interface the names and the secret keys of the account.
pub fn identity_frame(pieces: &Vec<Vec<u8>>) -> (r: Vec<u8>)
    ensures
        r@ == packed_list(packed_pieces(rows(pieces@))).push(254),
{
    let mut packed: Vec<Vec<u8>> = Vec::new();
    let mut i: usize = 0;
    while i < pieces.len()
        invariant
            i <= pieces@.len(),
            packed@.len() == i,
            forall|j: int|
                0 <= j < i ==> #[trigger] packed@[j]@ == packed_bytes(pieces@[j]@),
        decreases pieces@.len() - i,
    {
        packed.push(pack_bytes(&pieces[i]));
        i = i + 1;
    }
    assert(rows(packed@) =~= packed_pieces(rows(pieces@)));
    let mut out: Vec<u8> = pack_list(&packed);
    out.push(254);
    out
}

/// What a staker sends to be given blocks: the number of the first one it
/// lacks, the sort of block, and the mark of such a request.
pub open spec fn sync_request(bnum: u64, lightning: bool) -> Seq<u8> {
    le_bytes(bnum as nat, 8).push(if lightning { LIGHTNING } else { FULL }).push(SYNC)
}

/// Asks for blocks on behalf of a staker.
pub fn staker_sync_request(bnum: u64, lightning: bool) -> (r: Vec<u8>)
    ensures
        r@ == sync_request(bnum, lightning),
{
    let mut out: Vec<u8> = u64_bytes(bnum);
    if lightning {
        out.push(LIGHTNING);
    } else {
        out.push(FULL);
    }
    out.push(SYNC);
    out
}

/// Asks for blocks on behalf of a user.
pub fn user_sync_request(bnum: u64) -> (r: Vec<u8>)
    ensures
        r@ == le_bytes(bnum as nat, 8).push(SYNC),
        asked_block(r@.drop_last()) == Some(bnum as nat) && r@.last() == 121,
{
    let mut out: Vec<u8> = u64_bytes(bnum);
    proof {
        user_requests_are_understood(bnum);
        assert(out@.push(SYNC).drop_last() =~= out@);
    }
    out.push(SYNC);
    out
}

/// The number of the first block that a sync request asks for: it is there
/// exactly if the request is eight bytes long.
pub open spec fn asked_block(m: Seq<u8>) -> Option<nat> {
    if m.len() == 8 {
        Some(crate::bytes::le_nat(m))
    } else {
        None
    }
}

/// Reads the number of the first block that is asked for.
pub fn read_asked_block(m: &Vec<u8>) -> (r: Option<u64>)
    ensures
        r is Some <==> asked_block(m@) is Some,
        r matches Some(n) ==> asked_block(m@) == Some(n as nat),
{
    if m.len() != 8 {
        return None;
    }
    assert(m@.subrange(0, 8) =~= m@);
    Some(u64_at(m, 0))
}

/// A request that this library writes is read as what it was written for.
pub proof fn sync_request_is_understood(bnum: u64, lightning: bool)
    ensures
        sync_request(bnum, lightning).last() == SYNC,
        sync_request(bnum, lightning).drop_last().last() == (if lightning {
            LIGHTNING
        } else {
            FULL
        }),
        asked_block(sync_request(bnum, lightning).drop_last().drop_last()) == Some(bnum as nat),
{
    lemma_pow256_values();
    le_round_trip(bnum as nat, 8);
    let number = le_bytes(bnum as nat, 8);
    assert(sync_request(bnum, lightning).drop_last().drop_last() =~= number);
}

/// What is asked for with a staker's request can be read by anyone who knows
/// the marks: the number in eight bytes, then 108 for lightning blocks or 102
/// for full ones, then 121.
pub proof fn sync_requests_are_marked(bnum: u64, lightning: bool)
    ensures
        sync_request(bnum, lightning).len() == 10,
        sync_request(bnum, lightning)[9] == 121,
        sync_request(bnum, lightning)[8] == (if lightning {
            108u8
        } else {
            102u8
        }),
        crate::bytes::le_nat(sync_request(bnum, lightning).subrange(0, 8)) == bnum,
{
    lemma_pow256_values();
    le_round_trip(bnum as nat, 8);
    assert(sync_request(bnum, lightning).subrange(0, 8) =~= le_bytes(bnum as nat, 8));
}

/// A user's request is understood too: without its mark it is the number of the
/// first block that is lacking.
pub proof fn user_requests_are_understood(bnum: u64)
    ensures
        asked_block(le_bytes(bnum as nat, 8)) == Some(bnum as nat),
        forall|m: Seq<u8>| m.len() != 8 ==> #[trigger] asked_block(m) is None,
{
    lemma_pow256_values();
    le_round_trip(bnum as nat, 8);
}

/// Each piece of an identity is packed by itself, and none is left out.
pub proof fn every_piece_is_packed(pieces: Seq<Seq<u8>>, i: int)
    requires
        0 <= i < pieces.len(),
        pieces[i].len() <= u64::MAX,
    ensures
        packed_pieces(pieces).len() == pieces.len(),
        packed_pieces(pieces)[i].len() == 8 + pieces[i].len(),
        crate::bytes::le_nat(packed_pieces(pieces)[i].subrange(0, 8)) == pieces[i].len(),
        packed_pieces(pieces)[i].subrange(8, 8 + pieces[i].len() as int) == pieces[i],
{
    lemma_pow256_values();
    le_round_trip(pieces[i].len(), 8);
    let packed = packed_pieces(pieces)[i];
    assert(packed.subrange(0, 8) =~= le_bytes(pieces[i].len(), 8));
    assert(packed.subrange(8, 8 + pieces[i].len() as int) =~= pieces[i]);
}

/// The money that is shown is the sum of the coins, wherever 64 bits hold it.
pub proof fn money_is_shown_as_it_adds_up(amounts: Seq<[u8; 32]>)
    requires
        integer_sum(amounts) <= u64::MAX,
    ensures
        crate::bytes::le_nat(le_bytes(integer_sum(amounts) % group_order(), 8)) == integer_sum(
            amounts,
        ),
{
    lemma_pow256_values();
    le_round_trip(integer_sum(amounts), 8);
    vstd::arithmetic::div_mod::lemma_small_mod(integer_sum(amounts), group_order());
}

} // verus!
