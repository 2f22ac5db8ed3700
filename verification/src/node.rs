//! A staker's node: what it knows, how it begins, how it is saved.

use crate::clock::{Clocks, SECOND};
use crate::keys::{same_key, Key, KeySet};
use crate::net::{AddressBook, Contact, Endpoint, Ip, PeerId};
use crate::rules::{ChainRules, OUTSIDER_PORT};
use crate::wire::rows;
use vstd::prelude::*;

verus! {

/// The shards that a node keeps track of.
pub const SHARDS: usize = 64;

/// Staked money: the place in the list of stakers, and the amount.
#[derive(Clone, Copy, PartialEq, Eq, Structural)]
pub struct Stake {
    pub place: u64,
    pub amount: u64,
}

/// The stake of the account that a panic left behind, and the amount that was
/// last sent on from it.
#[derive(Clone, Copy, PartialEq, Eq, Structural)]
pub struct OldStake {
    pub stake: Option<Stake>,
    pub amount: u64,
}

/// A staker's node.
pub struct KhoraNode {
    /// the parameters of the chain
    pub rules: ChainRules,
    /// the stakers of the network and their addresses
    pub allnetwork: AddressBook,
    /// the node's own stake
    pub smine: Option<Stake>,
    /// the node's place in the list of stakers
    pub keylocation: Option<u64>,
    /// who is to make the next block
    pub leader: Key,
    /// leaders who failed
    pub overthrown: KeySet,
    /// votes for the seats of the committee
    pub votes: Vec<i32>,
    /// the stakers and their stakes
    pub stkinfo: Vec<(Key, u64)>,
    /// for each shard, who is to enter the committee, next first
    pub queue: Vec<Vec<usize>>,
    /// for each shard, the seats to be left, next first
    pub exitqueue: Vec<Vec<usize>>,
    /// for each shard, who sits in the committee
    pub comittee: Vec<Vec<usize>>,
    /// the name of the last block that was not empty
    pub lastname: Vec<u8>,
    /// the number of the next block
    pub bnum: u64,
    /// the number of the last block that was not empty
    pub lastbnum: u64,
    /// coins ever made
    pub height: u64,
    /// stakes ever made
    pub sheight: u64,
    /// transactions that wait for a block
    pub txses: Vec<Vec<u8>>,
    pub clocks: Clocks,
    /// whether the transactions of the next block are waited for
    pub waitingforentrybool: bool,
    /// whether the leader is waited for
    pub waitingforleaderbool: bool,
    /// the shard that makes the blocks
    pub headshard: usize,
    /// whether the node listens as a validator
    pub is_validator: bool,
    /// whether the node listens as a plain node
    pub is_node: bool,
    /// the newest member of the committee
    pub newest: u64,
    /// the transaction that a panic keeps sending
    pub moneyreset: Option<Vec<u8>>,
    /// who is being given blocks
    pub sync_returnaddr: Option<PeerId>,
    /// the number of the next block to give
    pub sync_theirnum: u64,
    /// whether lightning blocks are given
    pub sync_lightning: bool,
    /// the stake that a panic left behind
    pub oldstk: Option<OldStake>,
    /// whether the node lives on lightning blocks alone
    pub lightning_yielder: bool,
    /// strangers in the rings of the node's own transactions
    pub ringsize: u8,
}

/// Whether the first `count` numbers are there, and are below a bound.
pub(crate) fn first_below(v: &Vec<usize>, count: usize, bound: usize) -> (r: bool)
    ensures
        r == (count <= v@.len() && forall|i: int| 0 <= i < count ==> #[trigger] v@[i] < bound),
{
    if count > v.len() {
        return false;
    }
    let mut i: usize = 0;
    while i < count
        invariant
            i <= count <= v@.len(),
            forall|j: int| 0 <= j < i ==> #[trigger] v@[j] < bound,
        decreases count - i,
    {
        if v[i] >= bound {
            assert(!(v@[i as int] < bound));
            return false;
        }
        i = i + 1;
    }
    true
}

/// A copy of a table.
pub fn copy_rows(list: &Vec<Vec<usize>>) -> (r: Vec<Vec<usize>>)
    ensures
        rows(r@) == rows(list@),
{
    let mut out: Vec<Vec<usize>> = Vec::new();
    let mut i: usize = 0;
    while i < list.len()
        invariant
            i <= list@.len(),
            out@.len() == i,
            forall|j: int| 0 <= j < i ==> #[trigger] out@[j]@ == list@[j]@,
        decreases list@.len() - i,
    {
        let mut row: Vec<usize> = Vec::new();
        let mut k: usize = 0;
        while k < list[i].len()
            invariant
                i < list@.len(),
                k <= list@[i as int]@.len(),
                row@ == list@[i as int]@.subrange(0, k as int),
            decreases list@[i as int]@.len() - k,
        {
            row.push(list[i][k]);
            assert(row@ =~= list@[i as int]@.subrange(0, k + 1));
            k = k + 1;
        }
        assert(row@ =~= list@[i as int]@);
        out.push(row);
        i = i + 1;
    }
    assert(rows(out@) =~= rows(list@));
    out
}

/// A copy of vote counts.
pub fn copy_votes(list: &Vec<i32>) -> (r: Vec<i32>)
    ensures
        r@ == list@,
{
    let mut out: Vec<i32> = Vec::new();
    let mut i: usize = 0;
    while i < list.len()
        invariant
            i <= list@.len(),
            out@ == list@.subrange(0, i as int),
        decreases list@.len() - i,
    {
        out.push(list[i]);
        assert(out@ =~= list@.subrange(0, i + 1));
        i = i + 1;
    }
    assert(out@ =~= list@);
    out
}

/// A copy of a list of stakers.
pub fn copy_stakers(list: &Vec<(Key, u64)>) -> (r: Vec<(Key, u64)>)
    ensures
        r@ == list@,
{
    let mut out: Vec<(Key, u64)> = Vec::new();
    let mut i: usize = 0;
    while i < list.len()
        invariant
            i <= list@.len(),
            out@ == list@.subrange(0, i as int),
        decreases list@.len() - i,
    {
        out.push(list[i]);
        assert(out@ =~= list@.subrange(0, i + 1));
        i = i + 1;
    }
    assert(out@ =~= list@);
    out
}

/// A table of `count` rows, in which the number at place `i` of each row is
/// the remainder of `i` by `modulus`.
pub open spec fn remainders(count: nat, length: nat, modulus: int) -> Seq<Seq<usize>> {
    Seq::new(count, |i: int| Seq::new(length, |k: int| (k % modulus) as usize))
}

/// Makes a table of remainders.
pub fn remainder_rows(count: usize, length: usize, modulus: usize) -> (r: Vec<Vec<usize>>)
    requires
        modulus > 0,
    ensures
        rows(r@) == remainders(count as nat, length as nat, modulus as int),
{
    let mut out: Vec<Vec<usize>> = Vec::new();
    let mut i: usize = 0;
    let ghost pattern = Seq::new(length as nat, |k: int| (k % modulus as int) as usize);
    while i < count
        invariant
            i <= count,
            modulus > 0,
            pattern == Seq::new(length as nat, |k: int| (k % modulus as int) as usize),
            out@.len() == i,
            forall|j: int| 0 <= j < i ==> #[trigger] out@[j]@ == pattern,
        decreases count - i,
    {
        let mut row: Vec<usize> = Vec::new();
        let mut k: usize = 0;
        while k < length
            invariant
                k <= length,
                modulus > 0,
                pattern == Seq::new(length as nat, |k: int| (k % modulus as int) as usize),
                row@ == pattern.subrange(0, k as int),
            decreases length - k,
        {
            row.push(k % modulus);
            assert(row@ =~= pattern.subrange(0, k + 1));
            k = k + 1;
        }
        assert(row@ =~= pattern);
        out.push(row);
        i = i + 1;
    }
    assert(rows(out@) =~= remainders(count as nat, length as nat, modulus as int));
    out
}

/// The name of the block before the first: the scalar one.
pub open spec fn first_name() -> Seq<u8> {
    Seq::new(32, |i: int| if i == 0 { 1u8 } else { 0u8 })
}

/// Makes the name of the block before the first.
pub fn make_first_name() -> (r: Vec<u8>)
    ensures
        r@ == first_name(),
{
    let mut out: Vec<u8> = Vec::new();
    out.push(1);
    while out.len() < 32
        invariant
            1 <= out@.len() <= 32,
            out@[0] == 1,
            forall|i: int| 1 <= i < out@.len() ==> out@[i] == 0,
        decreases 32 - out@.len(),
    {
        out.push(0);
    }
    assert(out@ =~= first_name());
    out
}

impl KhoraNode {
    /// The node of someone who joins at the beginning of the chain. Everyone
    /// agrees that `founder` starts with one token; whoever is the founder is
    /// a validator from the start and reached by outsiders at `ip`.
    pub fn begin(
        rules: ChainRules,
        founder: Key,
        own_key: Key,
        ip: Ip,
        lightning_yielder: bool,
        now: u64,
    ) -> (r: KhoraNode)
        requires
            rules.wf(),
            now <= u64::MAX - SECOND,
        ensures
            r.rules == rules,
            r.allnetwork@ == Map::<Key, Contact>::empty().insert(
                founder,
                Contact {
                    place: 0,
                    addr: if founder == own_key {
                        Some(Endpoint { ip, port: OUTSIDER_PORT, flow: 0, scope: 0 })
                    } else {
                        None
                    },
                },
            ),
            r.smine == (if founder == own_key {
                Some(Stake { place: 0, amount: 1 })
            } else {
                None
            }),
            r.keylocation == (if founder == own_key {
                Some(0u64)
            } else {
                None
            }),
            r.smine matches Some(s) ==> r.stkinfo@[s.place as int] == (own_key, s.amount)
                && r.keylocation == Some(s.place),
            r.smine is None ==> founder != own_key && r.keylocation is None,
            r.is_validator ==> r.keylocation is Some && forall|h: int, i: int|
                0 <= h < SHARDS && 0 <= i < rules.validators ==> #[trigger] r.comittee@[h]@[i]
                    == r.keylocation->0,
            r.is_validator == (founder == own_key),
            r.is_node,
            r.leader == founder,
            r.overthrown@ == Set::<Key>::empty(),
            r.votes@ == Seq::new(rules.validators as nat, |i: int| 0i32),
            r.stkinfo@ == seq![(founder, 1u64)],
            rows(r.queue@) == remainders(SHARDS as nat, rules.queue_length as nat, 1),
            rows(r.exitqueue@) == remainders(
                SHARDS as nat,
                rules.queue_length as nat,
                rules.validators as int,
            ),
            rows(r.comittee@) == remainders(SHARDS as nat, rules.validators as nat, 1),
            r.lastname@ == first_name(),
            r.bnum == 0,
            r.lastbnum == 0,
            r.height == 0,
            r.sheight == 1,
            r.txses@.len() == 0,
            r.clocks == (Clocks {
                timekeeper: (now + SECOND) as u64,
                waitingforleader: now,
                waitingforentry: now,
                doneerly: now,
                usurping: now,
                gui: now,
            }),
            r.waitingforentrybool,
            !r.waitingforleaderbool,
            r.headshard == 0,
            r.newest == 0,
            r.moneyreset is None,
            r.sync_returnaddr is None,
            r.sync_theirnum == 0,
            !r.sync_lightning,
            r.oldstk is None,
            r.lightning_yielder == lightning_yielder,
            r.ringsize == 5,
            forall|h: int| 0 <= h < SHARDS ==> #[trigger] r.shard_ok(h),
    {
        let founded: bool = same_key(&founder, &own_key);
        let mut allnetwork: AddressBook = AddressBook::new();
        let addr: Option<Endpoint> = if founded {
            Some(Endpoint { ip, port: OUTSIDER_PORT, flow: 0, scope: 0 })
        } else {
            None
        };
        allnetwork.insert(founder, Contact { place: 0, addr });
        let mut stkinfo: Vec<(Key, u64)> = Vec::new();
        stkinfo.push((founder, 1));
        assert(stkinfo@ =~= seq![(founder, 1u64)]);
        let mut votes: Vec<i32> = Vec::new();
        let mut i: usize = 0;
        while i < rules.validators
            invariant
                i <= rules.validators,
                votes@ == Seq::new(i as nat, |i: int| 0i32),
            decreases rules.validators - i,
        {
            votes.push(0);
            i = i + 1;
            assert(votes@ =~= Seq::new(i as nat, |i: int| 0i32));
        }
        let node: KhoraNode = KhoraNode {
            rules,
            allnetwork,
            smine: if founded {
                Some(Stake { place: 0, amount: 1 })
            } else {
                None
            },
            keylocation: if founded {
                Some(0)
            } else {
                None
            },
            leader: founder,
            overthrown: KeySet::new(),
            votes,
            stkinfo,
            queue: remainder_rows(SHARDS, rules.queue_length, 1),
            exitqueue: remainder_rows(SHARDS, rules.queue_length, rules.validators),
            comittee: remainder_rows(SHARDS, rules.validators, 1),
            lastname: make_first_name(),
            bnum: 0,
            lastbnum: 0,
            height: 0,
            sheight: 1,
            txses: Vec::new(),
            clocks: Clocks {
                timekeeper: now + SECOND,
                waitingforleader: now,
                waitingforentry: now,
                doneerly: now,
                usurping: now,
                gui: now,
            },
            waitingforentrybool: true,
            waitingforleaderbool: false,
            headshard: 0,
            is_validator: founded,
            is_node: true,
            newest: 0,
            moneyreset: None,
            sync_returnaddr: None,
            sync_theirnum: 0,
            sync_lightning: false,
            oldstk: None,
            lightning_yielder,
            ringsize: 5,
        };
        proof {
            assert(rows(node.comittee@).len() == SHARDS);
            assert(rows(node.queue@).len() == SHARDS);
            assert(rows(node.exitqueue@).len() == SHARDS);
            assert forall|h: int, i: int|
                0 <= h < SHARDS && 0 <= i < rules.validators implies #[trigger] node.comittee@[h]@[i]
                == 0 by {
                assert(rows(node.comittee@)[h] == node.comittee@[h]@);
                rows_count_up_in_turn(SHARDS as nat, rules.validators as nat, 1, h, i);
            }
            assert forall|h: int| 0 <= h < SHARDS implies #[trigger] node.shard_ok(h) by {
                assert(rows(node.comittee@)[h] == node.comittee@[h]@);
                assert(rows(node.exitqueue@)[h] == node.exitqueue@[h]@);
                assert(rows(node.queue@)[h] == node.queue@[h]@);
                assert forall|j: int| 0 <= j < node.exitqueue@[h]@.len() implies #[trigger]
                    node.exitqueue@[h]@[j] < node.comittee@[h]@.len() && node.exitqueue@[h]@[j]
                    < node.votes@.len() by {
                    assert(node.exitqueue@[h]@[j] == (j % rules.validators as int) as usize);
                }
            }
        }
        node
    }

    /// Shard `h` has a committee, and whoever sits there is in the list of
    /// stakers.
    pub open spec fn members_staked(&self, h: int) -> bool {
        &&& 0 <= h < self.comittee@.len()
        &&& forall|i: int|
            0 <= i < self.comittee@[h]@.len() ==> #[trigger] self.comittee@[h]@[i]
                < self.stkinfo@.len()
    }

    /// Whether whoever sits in shard `h` is in the list of stakers.
    pub fn are_members_staked(&self, h: usize) -> (r: bool)
        ensures
            r == self.members_staked(h as int),
    {
        if h >= self.comittee.len() {
            return false;
        }
        first_below(&self.comittee[h], self.comittee[h].len(), self.stkinfo.len())
    }

    /// The seats of shard `h` make sense: whoever sits there is in the list of
    /// stakers, and a seat to be left is there and has a vote count.
    pub open spec fn shard_ok(&self, h: int) -> bool {
        &&& self.members_staked(h)
        &&& h < self.queue@.len()
        &&& h < self.exitqueue@.len()
        &&& forall|j: int|
            0 <= j < self.exitqueue@[h]@.len() ==> #[trigger] self.exitqueue@[h]@[j]
                < self.comittee@[h]@.len() && self.exitqueue@[h]@[j] < self.votes@.len()
    }

    /// Takes the number of strangers in rings from a request that names one.
    pub fn choose_ring_size(&mut self, extra: Option<u8>)
        ensures
            *final(self) == (KhoraNode {
                ringsize: if extra is Some {
                    extra->0
                } else {
                    old(self).ringsize
                },
                ..*old(self)
            }),
    {
        if let Some(size) = extra {
            self.ringsize = size;
        }
    }
}

/// At the beginning the founder sits everywhere and is next everywhere, and
/// the seats are left in turn: each row has the same length, and its numbers
/// count up and begin anew at the modulus.
pub proof fn rows_count_up_in_turn(count: nat, length: nat, modulus: int, row: int, i: int)
    requires
        0 <= row < count,
        0 <= i < length,
        0 < modulus <= usize::MAX,
    ensures
        remainders(count, length, modulus).len() == count,
        remainders(count, length, modulus)[row].len() == length,
        remainders(count, length, 1)[row][i] == 0,
        i < modulus ==> remainders(count, length, modulus)[row][i] == i,
        i + modulus < length ==> remainders(count, length, modulus)[row][i + modulus] == remainders(
            count,
            length,
            modulus,
        )[row][i],
{
    vstd::arithmetic::div_mod::lemma_mod_bound(i, modulus);
    vstd::arithmetic::div_mod::lemma_mod_add_multiples_vanish(i, modulus);
    if i < modulus {
        vstd::arithmetic::div_mod::lemma_small_mod(i as nat, modulus as nat);
    }
    assert(i % 1 == 0);
    assert(i + modulus == modulus + i);
}

/// The block before the first is named by the scalar one.
pub proof fn the_first_name_is_one()
    ensures
        first_name().len() == 32,
        crate::bytes::le_nat(first_name()) == 1,
{
    let rest = Seq::new(31, |i: int| 0u8);
    crate::bytes::lemma_le_bytes_zero(31);
    crate::bytes::le_round_trip_zero(31);
    crate::bytes::bytes_count_little_endian(1, rest);
    assert(first_name() =~= seq![1u8] + rest);
}

} // verus!
