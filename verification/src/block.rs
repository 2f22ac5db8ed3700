//! How a block is read: what is decided before the ledger is asked, and what
//! follows from what the ledger did.
//!
//! Reading alternates decisions, made here, and work of the ledger, done by
//! the application. `offer` says whether a block is worth verifying, `accept`
//! takes a verified one and gives what to save before it is read, and
//! `next_work` says what the ledger is to do: first for each block that was
//! missed, then for the block itself.

use crate::clock::Clocks;
use crate::digest::{scalar_name, scalar_of};
use crate::bytes::{copy_bytes, same_bytes};
use crate::election::{choose_leader, holds, leading_key, shorter, tally, tallied};
use crate::frame::{tagged, trust_frame, BLOCK};
use crate::keys::{key_bytes, same_key, Key, KeySet};
use crate::net::{committee_peers, list_committee_peers, AddressBook, PeerId};
use crate::node::{first_below, KhoraNode, OldStake, Stake};
use crate::rules::FORGIVE_TIME;
use crate::saved::{Holdings, SavedNode};
use vstd::prelude::*;

verus! {

/// What the node needs to know of a block.
pub struct BlockSummary {
    /// the number of the block
    pub bnum: u64,
    /// the shards that made it, the head first
    pub shards: Vec<u16>,
    /// the name of the block before it
    pub last_name: Vec<u8>,
    /// the place of its leader in the list of stakers
    pub leader_pk: u64,
    /// the places of the validators who signed it
    pub validators: Vec<u64>,
    /// whether no coins were made
    pub no_txout: bool,
    /// whether no stake was made
    pub no_stkin: bool,
    /// whether no stake was spent
    pub no_stkout: bool,
}

impl BlockSummary {
    /// The block changes nothing but the reward.
    pub open spec fn is_empty_spec(&self) -> bool {
        self.no_txout && self.no_stkin && self.no_stkout
    }

    /// Whether the block changes nothing but the reward.
    pub fn is_empty(&self) -> (r: bool)
        ensures
            r == self.is_empty_spec(),
    {
        self.no_txout && self.no_stkin && self.no_stkout
    }
}

/// What to do with a block that was offered.
#[derive(Clone, Copy, PartialEq, Eq, Structural)]
pub enum Offer {
    /// its number is below the next one
    Old,
    /// no shard made it
    NoShard,
    /// a shard below the head made it, or it does not follow the last block
    Misplaced,
    /// have the ledger verify it against the committee of this shard
    Verify { shard: usize, multithreaded: bool },
}

/// What an accepted block calls for at once.
pub struct Acceptance {
    /// the node as it was before the block, to be put on disk before anything
    /// else is done: whether a leader tries to cause a fork shows only one
    /// block later
    pub saved: Option<SavedNode>,
    /// the block, to be sent to the outside world
    pub broadcast: Option<Vec<u8>>,
    /// the blocks that were missed before this one
    pub missed: u64,
}

/// What the ledger is to do next.
#[derive(Clone, Copy, PartialEq, Eq, Structural)]
pub enum Work {
    /// pay for an empty block that nobody kept
    PayMissed,
    /// pay for this block, which is empty
    PayEmpty,
    /// take this block into the books
    Scan,
    /// nothing: the block was read
    Nothing,
}

/// What the ledger did for an empty block.
pub struct Payment {
    /// whether the node's own stake was paid
    pub paid: bool,
    pub smine: Option<Stake>,
    pub stkinfo: Vec<(Key, u64)>,
    pub comittee: Vec<Vec<usize>>,
    /// the stake that a panic left behind, after the payment
    pub oldstk: Option<Stake>,
}

/// What the ledger did with a block that is not empty.
pub struct Scan {
    /// whether the node's own stake changed
    pub stake_changed: bool,
    /// whether the node's own coins changed
    pub coins_changed: bool,
    pub smine: Option<Stake>,
    pub height: u64,
    pub sheight: u64,
    pub allnetwork: AddressBook,
    pub stkinfo: Vec<(Key, u64)>,
    pub queue: Vec<Vec<usize>>,
    pub exitqueue: Vec<Vec<usize>>,
    pub comittee: Vec<Vec<usize>>,
}

/// The seats after the ledger selected who comes and who goes.
pub struct Selection {
    pub queue: Vec<Vec<usize>>,
    pub exitqueue: Vec<Vec<usize>>,
    pub comittee: Vec<Vec<usize>>,
}

/// What is to be added to the files of blocks.
pub struct Archive {
    /// to the file of full blocks, if the node keeps one
    pub full: Option<Vec<u8>>,
    /// to the file of lightning blocks
    pub lightning: Vec<u8>,
}

/// What a block that was read calls for.
#[derive(Clone, Copy, PartialEq, Eq, Structural)]
pub struct Settled {
    /// the node sits in the committee
    pub seated: bool,
    /// the node listened as a validator before
    pub was_validator: bool,
    /// the node is about to enter the committee, and joins it
    pub joins: bool,
}

/// The member whose place is `place` gives up one of the next `count` seats to
/// be left.
pub open spec fn about_to_leave(
    exits: Seq<usize>,
    members: Seq<usize>,
    count: int,
    place: u64,
) -> bool {
    exists|j: int| 0 <= j < count && members[#[trigger] exits[j] as int] as u64 == place
}

/// The members who sit on the next `count` seats to be left.
pub open spec fn leaving_members(exits: Seq<usize>, members: Seq<usize>, count: nat) -> Seq<usize> {
    Seq::new(count, |j: int| members[exits[j] as int])
}

/// `place` is among the next `count` to enter.
pub open spec fn enters_soon(entries: Seq<usize>, count: int, place: u64) -> bool {
    exists|j: int| 0 <= j < count && #[trigger] entries[j] as u64 == place
}

/// Whether `place` has a seat.
pub open spec fn has_seat(members: Seq<usize>, place: Option<u64>) -> bool {
    place is Some && members.contains(place->0 as usize)
}

/// What to do with a block, given the number of the next block, the shard that
/// makes the blocks and the name of the last block: only one that is not old,
/// that a shard at or above the head made and that follows the last block is
/// verified.
pub open spec fn judged(
    b: BlockSummary,
    bnum: u64,
    headshard: usize,
    lastname: Seq<u8>,
    multithreaded: bool,
) -> Offer {
    if b.bnum < bnum {
        Offer::Old
    } else if b.shards@.len() == 0 {
        Offer::NoShard
    } else if b.shards@[0] as usize >= headshard && b.last_name@ == lastname {
        Offer::Verify { shard: b.shards@[0] as usize, multithreaded }
    } else {
        Offer::Misplaced
    }
}

/// Says what to do with a block.
pub fn judge(
    b: &BlockSummary,
    bnum: u64,
    headshard: usize,
    lastname: &Vec<u8>,
    multithreaded: bool,
) -> (r: Offer)
    ensures
        r == judged(*b, bnum, headshard, lastname@, multithreaded),
{
    if b.bnum < bnum {
        return Offer::Old;
    }
    if b.shards.len() == 0 {
        return Offer::NoShard;
    }
    let shard: usize = b.shards[0] as usize;
    if shard >= headshard && same_bytes(&b.last_name, lastname) {
        Offer::Verify { shard, multithreaded }
    } else {
        Offer::Misplaced
    }
}

/// The places of members, as the ledger counts them.
pub open spec fn as_places(members: Seq<usize>) -> Seq<u64> {
    Seq::new(members.len(), |i: int| members[i] as u64)
}

/// Lists the places of members as the ledger counts them.
pub fn list_places(members: &Vec<usize>) -> (r: Vec<u64>)
    ensures
        r@ == as_places(members@),
{
    let mut out: Vec<u64> = Vec::new();
    let mut i: usize = 0;
    while i < members.len()
        invariant
            i <= members@.len(),
            out@.len() == i,
            forall|k: int| 0 <= k < i ==> out@[k] == members@[k] as u64,
        decreases members@.len() - i,
    {
        out.push(members[i] as u64);
        i = i + 1;
    }
    assert(out@ =~= as_places(members@));
    out
}

/// What the ledger is to do for a block that was accepted, while `bnum` is the
/// number of the next block: first the missed blocks, which were empty, are
/// paid for, then it is the turn of the block itself.
pub open spec fn work_for(b: BlockSummary, bnum: u64) -> Work {
    if bnum < b.bnum {
        Work::PayMissed
    } else if bnum > b.bnum {
        Work::Nothing
    } else if b.is_empty_spec() {
        Work::PayEmpty
    } else {
        Work::Scan
    }
}

/// Says what the ledger is to do.
pub fn find_work(b: &BlockSummary, bnum: u64) -> (r: Work)
    ensures
        r == work_for(*b, bnum),
{
    if bnum < b.bnum {
        Work::PayMissed
    } else if bnum > b.bnum {
        Work::Nothing
    } else if b.is_empty() {
        Work::PayEmpty
    } else {
        Work::Scan
    }
}

impl KhoraNode {
    /// What to do with a block.
    pub open spec fn offered(&self, b: BlockSummary) -> Offer {
        judged(b, self.bnum, self.headshard, self.lastname@, self.is_validator)
    }

    /// Says what to do with a block that was offered.
    pub fn offer(&self, b: &BlockSummary) -> (r: Offer)
        ensures
            r == self.offered(*b),
    {
        judge(b, self.bnum, self.headshard, &self.lastname, self.is_validator)
    }

    /// The committee that a block of `shard` is verified against.
    pub fn committee_places(&self, shard: usize) -> (r: Vec<u64>)
        requires
            shard < self.comittee@.len(),
        ensures
            r@ == as_places(self.comittee@[shard as int]@),
    {
        list_places(&self.comittee[shard])
    }

    /// The keys that count as overthrown once `made_by` made a block: not
    /// `made_by`, but the leader if it is someone else.
    pub open spec fn overthrown_by_block(&self, made_by: Key) -> Set<Key> {
        if made_by != self.leader {
            self.overthrown@.remove(made_by).insert(self.leader)
        } else {
            self.overthrown@.remove(made_by)
        }
    }

    /// The node leaves its seat with this block, so it sends the block out.
    pub open spec fn sends_out(&self) -> bool {
        self.keylocation is Some && about_to_leave(
            self.exitqueue@[self.headshard as int]@,
            self.comittee@[self.headshard as int]@,
            self.rules.replace_rate as int,
            self.keylocation->0,
        )
    }

    /// A node with a place can tell whether it leaves its seat with a block:
    /// the seats that are left next are there.
    pub open spec fn acceptable(&self) -> bool {
        let h = self.headshard as int;
        self.keylocation is Some ==> {
            &&& h < self.comittee@.len()
            &&& h < self.exitqueue@.len()
            &&& self.rules.replace_rate <= self.exitqueue@[h]@.len()
            &&& forall|j: int|
                0 <= j < self.rules.replace_rate ==> #[trigger] self.exitqueue@[h]@[j]
                    < self.comittee@[h]@.len()
        }
    }

    /// Whether the node can tell if it leaves its seat with a block.
    pub fn is_acceptable(&self) -> (r: bool)
        ensures
            r == self.acceptable(),
    {
        if self.keylocation.is_none() {
            return true;
        }
        let h: usize = self.headshard;
        if h >= self.comittee.len() || h >= self.exitqueue.len() {
            return false;
        }
        first_below(&self.exitqueue[h], self.rules.replace_rate, self.comittee[h].len())
    }

    /// Whether the node reads lightning blocks. One that keeps full blocks does
    /// not: it would miss the full ones.
    pub fn takes_lightning(&self) -> (r: bool)
        ensures
            r == self.lightning_yielder,
    {
        self.lightning_yielder
    }

    /// All that the node keeps of a block is there: a node that keeps full
    /// blocks has the full block.
    pub open spec fn can_keep(&self, large: Option<Vec<u8>>) -> bool {
        self.lightning_yielder || large is Some
    }

    /// Takes a block that the ledger verified. The node as it is before, for
    /// which the ledger keeps `holdings`, is saved unless a panic is on. Then
    /// the shard of the block becomes the head, and its maker is trusted again
    /// while a leader who did not make it is not. A validator who leaves with
    /// this block sends the full block, if there is one, to the outside world.
    pub fn accept(&mut self, b: &BlockSummary, large: &Option<Vec<u8>>, holdings: Holdings) -> (r:
        Acceptance)
        requires
            old(self).offered(*b) is Verify,
            b.leader_pk < old(self).stkinfo@.len(),
            old(self).acceptable(),
        ensures
            r.saved is Some <==> old(self).moneyreset is None && old(self).oldstk is None,
            r.saved matches Some(s) ==> s.tells_of(*old(self)) && s.holdings == holdings,
            r.saved matches Some(s) ==> s.moneyreset is None && s.oldstk is None && s.headshard
                == old(self).headshard,
            r.broadcast is Some <==> old(self).sends_out() && large is Some,
            r.broadcast matches Some(m) ==> m@ == large->0@.push(BLOCK),
            r.broadcast is Some ==> old(self).keylocation is Some && exists|j: int|
                0 <= j < old(self).rules.replace_rate && old(self).comittee@[old(
                    self,
                ).headshard as int]@[#[trigger] old(self).exitqueue@[old(
                    self,
                ).headshard as int]@[j] as int] == old(self).keylocation->0,
            r.missed == b.bnum - old(self).bnum,
            forall|c: BlockSummary| #[trigger]
                final(self).offered(c) is Verify ==> c.shards@[0] >= b.shards@[0],
            final(self).overthrown@ == old(self).overthrown_by_block(
                old(self).stkinfo@[b.leader_pk as int].0,
            ),
            *final(self) == (KhoraNode {
                headshard: b.shards@[0] as usize,
                overthrown: final(self).overthrown,
                ..*old(self)
            }),
    {
        proof {
            if self.sends_out() {
                let exits = self.exitqueue@[self.headshard as int]@;
                let members = self.comittee@[self.headshard as int]@;
                let j = choose|j: int|
                    0 <= j < self.rules.replace_rate && members[#[trigger] exits[j] as int] as u64
                        == self.keylocation->0;
                assert(members[exits[j] as int] == self.keylocation->0);
            }
        }
        let saved: Option<SavedNode> = self.save(holdings);
        let mut broadcast: Option<Vec<u8>> = None;
        if let Some(place) = self.keylocation {
            let h: usize = self.headshard;
            let mut leaves: bool = false;
            let mut j: usize = 0;
            while j < self.rules.replace_rate
                invariant
                    j <= self.rules.replace_rate,
                    h == self.headshard,
                    self.keylocation is Some,
                    self.acceptable(),
                    *self == *old(self),
                    leaves == about_to_leave(
                        self.exitqueue@[h as int]@,
                        self.comittee@[h as int]@,
                        j as int,
                        place,
                    ),
                decreases self.rules.replace_rate - j,
            {
                let seat: usize = self.exitqueue[h][j];
                assert(self.exitqueue@[h as int]@[j as int] == seat);
                let member: usize = self.comittee[h][seat];
                if member as u64 == place {
                    leaves = true;
                }
                j = j + 1;
            }
            if leaves {
                if let Some(block) = large {
                    broadcast = Some(tagged(block, BLOCK));
                }
            }
        }
        let missed: u64 = b.bnum - self.bnum;
        let stakers: usize = self.stkinfo.len();
        assert(b.leader_pk < stakers);
        self.headshard = b.shards[0] as usize;
        let made_by: Key = self.stkinfo[b.leader_pk as usize].0;
        self.overthrown.remove(&made_by);
        if !same_key(&made_by, &self.leader) {
            self.overthrown.insert(self.leader);
        }
        Acceptance { saved, broadcast, missed }
    }

    /// What the ledger is to do for a block that was accepted.
    pub open spec fn work_left(&self, b: BlockSummary) -> Work {
        work_for(b, self.bnum)
    }

    /// Says what the ledger is to do next for a block that was accepted.
    pub fn next_work(&self, b: &BlockSummary) -> (r: Work)
        ensures
            r == self.work_left(*b),
    {
        find_work(b, self.bnum)
    }

    /// What to add to the files of blocks for the block that was packed as `m`
    /// and, in full, as `large`. An empty block leaves an empty entry. A node
    /// that lives on lightning blocks keeps no full ones; any other node has to
    /// be given the full block.
    pub(crate) fn archive(&self, work: Work, m: &Vec<u8>, large: &Option<Vec<u8>>) -> (r: Archive)
        requires
            work is Scan ==> self.can_keep(*large),
        ensures
            r.full is Some <==> !self.lightning_yielder,
            r.full matches Some(full) ==> full@ == (if work is Scan {
                large->0@
            } else {
                Seq::<u8>::empty()
            }),
            r.lightning@ == (if work is Scan {
                m@
            } else {
                Seq::<u8>::empty()
            }),
    {
        let scan: bool = match work {
            Work::Scan => true,
            _ => false,
        };
        let lightning: Vec<u8> = if scan {
            copy_bytes(m)
        } else {
            Vec::new()
        };
        if self.lightning_yielder {
            return Archive { full: None, lightning };
        }
        let full: Vec<u8> = match large {
            Some(block) => if scan {
                copy_bytes(block)
            } else {
                Vec::new()
            },
            None => Vec::new(),
        };
        Archive { full: Some(full), lightning }
    }

    /// Takes in what the ledger paid for an empty block, and tells the
    /// interface. The stake that a panic left behind is paid for missed blocks
    /// only.
    pub(crate) fn paid(&mut self, p: Payment, missed: bool) -> (r: Vec<u8>)
        ensures
            r@ == seq![if p.paid { 0u8 } else { 1u8 }, 1u8],
            *final(self) == (KhoraNode {
                smine: p.smine,
                stkinfo: p.stkinfo,
                comittee: p.comittee,
                oldstk: if missed && old(self).oldstk is Some {
                    Some(OldStake { stake: p.oldstk, amount: old(self).oldstk->0.amount })
                } else {
                    old(self).oldstk
                },
                ..*old(self)
            }),
    {
        let frame: Vec<u8> = trust_frame(!p.paid);
        self.smine = p.smine;
        self.stkinfo = p.stkinfo;
        self.comittee = p.comittee;
        if missed {
            if let Some(o) = self.oldstk {
                self.oldstk = Some(OldStake { stake: p.oldstk, amount: o.amount });
            }
        }
        frame
    }

    /// Takes in what the ledger did with the block that was packed as `m`, and
    /// tells the interface. The block becomes the last one; a node with a
    /// stake learns its place.
    pub(crate) fn scanned(&mut self, s: Scan, m: &Vec<u8>) -> (r: Vec<u8>)
        ensures
            r@ == seq![if s.stake_changed || s.coins_changed { 0u8 } else { 1u8 }, 1u8],
            final(self).lastname@ == scalar_name(m@),
            *final(self) == (KhoraNode {
                smine: s.smine,
                height: s.height,
                sheight: s.sheight,
                allnetwork: s.allnetwork,
                stkinfo: s.stkinfo,
                queue: s.queue,
                exitqueue: s.exitqueue,
                comittee: s.comittee,
                keylocation: if s.smine is Some {
                    Some(s.smine->0.place)
                } else {
                    old(self).keylocation
                },
                lastbnum: old(self).bnum,
                lastname: final(self).lastname,
                ..*old(self)
            }),
    {
        let frame: Vec<u8> = trust_frame(!(s.stake_changed || s.coins_changed));
        if let Some(stake) = s.smine {
            self.keylocation = Some(stake.place);
        }
        self.smine = s.smine;
        self.height = s.height;
        self.sheight = s.sheight;
        self.allnetwork = s.allnetwork;
        self.stkinfo = s.stkinfo;
        self.queue = s.queue;
        self.exitqueue = s.exitqueue;
        self.comittee = s.comittee;
        self.lastbnum = self.bnum;
        self.lastname = key_bytes(&scalar_of(m));
        frame
    }

    /// The votes once those for the two seats that are left next are gone.
    pub open spec fn votes_left(&self) -> Seq<i32> {
        let exits = self.exitqueue@[self.headshard as int]@;
        self.votes@.update(exits[0] as int, 0).update(exits[1] as int, 0)
    }

    /// Before the ledger selects new members, the votes for the two seats that
    /// are left next are dropped. With the last block of a reading it is noted
    /// who enters the committee.
    pub(crate) fn leave_seats(&mut self, last: bool)
        requires
            old(self).headshard < old(self).exitqueue@.len(),
            old(self).exitqueue@[old(self).headshard as int]@.len() >= 2,
            old(self).exitqueue@[old(self).headshard as int]@[0] < old(self).votes@.len(),
            old(self).exitqueue@[old(self).headshard as int]@[1] < old(self).votes@.len(),
            last ==> old(self).headshard < old(self).queue@.len() && old(
                self,
            ).queue@[old(self).headshard as int]@.len() > 0,
        ensures
            final(self).votes@ == old(self).votes_left(),
            *final(self) == (KhoraNode {
                votes: final(self).votes,
                newest: if last {
                    old(self).queue@[old(self).headshard as int]@[0] as u64
                } else {
                    old(self).newest
                },
                ..*old(self)
            }),
    {
        let first: usize = self.exitqueue[self.headshard][0];
        let second: usize = self.exitqueue[self.headshard][1];
        self.votes.set(first, 0);
        self.votes.set(second, 0);
        if last {
            self.newest = self.queue[self.headshard][0] as u64;
        }
    }

    /// Takes in the seats that the ledger selected. With that a block is over.
    pub(crate) fn seated(&mut self, s: Selection)
        requires
            old(self).bnum < u64::MAX,
        ensures
            *final(self) == (KhoraNode {
                queue: s.queue,
                exitqueue: s.exitqueue,
                comittee: s.comittee,
                bnum: (old(self).bnum + 1) as u64,
                ..*old(self)
            }),
    {
        self.queue = s.queue;
        self.exitqueue = s.exitqueue;
        self.comittee = s.comittee;
        self.bnum = self.bnum + 1;
    }

    /// The leader once a block was read: chosen by votes among those who are
    /// not about to leave and were not overthrown.
    pub open spec fn next_leader(&self, votes: Seq<i32>) -> Key {
        let h = self.headshard as int;
        leading_key(
            self.comittee@[h]@,
            votes,
            self.stkinfo@,
            leaving_members(
                self.exitqueue@[h]@,
                self.comittee@[h]@,
                self.rules.exit_time_spec() as nat,
            ).to_set(),
            self.overthrown@,
        )
    }

    /// Whether the node is to get in touch with the committee: it is about to
    /// enter it.
    pub open spec fn joins_committee(&self) -> bool {
        self.keylocation is Some && enters_soon(
            self.queue@[self.headshard as int]@,
            self.rules.replace_rate as int,
            self.keylocation->0,
        )
    }

    /// Ends the reading of a block: the signatures under it are counted as
    /// votes, a leader is chosen, the clocks start again, and the node finds
    /// its part: outside the committee it listens as a plain node, inside as a
    /// validator, and as both if it is about to enter. From time to time the
    /// overthrown leaders are forgiven.
    pub(crate) fn settle(&mut self, b: &BlockSummary, now: u64) -> (r: Settled)
        requires
            old(self).rules.wf(),
            old(self).headshard < old(self).comittee@.len(),
            old(self).headshard < old(self).exitqueue@.len(),
            old(self).comittee@[old(self).headshard as int]@.len() > 0,
            old(self).votes@.len() > 0,
            forall|i: int|
                0 <= i < shorter(
                    old(self).votes@.len(),
                    old(self).comittee@[old(self).headshard as int]@.len(),
                ) ==> #[trigger] old(self).comittee@[old(self).headshard as int]@[i] < old(
                    self,
                ).stkinfo@.len(),
            old(self).rules.exit_time_spec() <= old(
                self,
            ).exitqueue@[old(self).headshard as int]@.len(),
            forall|j: int|
                0 <= j < old(self).rules.exit_time_spec() ==> #[trigger] old(
                    self,
                ).exitqueue@[old(self).headshard as int]@[j] < old(
                    self,
                ).comittee@[old(self).headshard as int]@.len(),
            old(self).keylocation is Some ==> old(self).headshard < old(self).queue@.len() && old(
                self,
            ).rules.replace_rate <= old(self).queue@[old(self).headshard as int]@.len(),
            b.validators@.len() <= i32::MAX,
            forall|i: int|
                0 <= i < shorter(
                    old(self).votes@.len(),
                    old(self).comittee@[old(self).headshard as int]@.len(),
                ) ==> #[trigger] tallied(
                    old(self).votes@,
                    old(self).comittee@[old(self).headshard as int]@,
                    b.validators@,
                )[i] <= i32::MAX,
        ensures
            r.was_validator == old(self).is_validator,
            r.seated == has_seat(
                old(self).comittee@[old(self).headshard as int]@,
                old(self).keylocation,
            ),
            r.joins == old(self).joins_committee(),
            final(self).votes@.len() == shorter(
                old(self).votes@.len(),
                old(self).comittee@[old(self).headshard as int]@.len(),
            ),
            forall|i: int|
                0 <= i < final(self).votes@.len() ==> #[trigger] final(self).votes@[i] as int
                    == tallied(
                    old(self).votes@,
                    old(self).comittee@[old(self).headshard as int]@,
                    b.validators@,
                )[i],
            final(self).leader == old(self).next_leader(final(self).votes@),
            final(self).overthrown@ == (if old(self).bnum % FORGIVE_TIME == 0 {
                Set::<Key>::empty()
            } else {
                old(self).overthrown@
            }),
            *final(self) == (KhoraNode {
                votes: final(self).votes,
                leader: final(self).leader,
                overthrown: final(self).overthrown,
                is_validator: r.seated || r.joins,
                is_node: !r.seated || r.joins,
                waitingforentrybool: true,
                waitingforleaderbool: false,
                clocks: (Clocks {
                    timekeeper: now,
                    waitingforleader: now,
                    waitingforentry: now,
                    usurping: now,
                    doneerly: old(self).clocks.timekeeper,
                    gui: old(self).clocks.gui,
                }),
                ..*old(self)
            }),
    {
        let h: usize = self.headshard;
        let was_validator: bool = self.is_validator;
        let votes: Vec<i32> = tally(&self.votes, &self.comittee[h], &b.validators);
        self.votes = votes;
        let exit_time: usize = self.rules.exit_time();
        let mut leaving: Vec<usize> = Vec::new();
        let mut j: usize = 0;
        let ghost all = leaving_members(
            self.exitqueue@[h as int]@,
            self.comittee@[h as int]@,
            exit_time as nat,
        );
        while j < exit_time
            invariant
                j <= exit_time <= self.exitqueue@[h as int]@.len(),
                h < self.comittee@.len(),
                h < self.exitqueue@.len(),
                forall|k: int|
                    0 <= k < exit_time ==> #[trigger] self.exitqueue@[h as int]@[k]
                        < self.comittee@[h as int]@.len(),
                all == leaving_members(
                    self.exitqueue@[h as int]@,
                    self.comittee@[h as int]@,
                    exit_time as nat,
                ),
                leaving@.len() == j,
                forall|k: int| 0 <= k < j ==> leaving@[k] == all[k],
            decreases exit_time - j,
        {
            let seat: usize = self.exitqueue[h][j];
            assert(self.exitqueue@[h as int]@[j as int] == seat);
            leaving.push(self.comittee[h][seat]);
            j = j + 1;
        }
        assert(leaving@ =~= all);
        let leader: Key = choose_leader(
            &self.comittee[h],
            &self.votes,
            &self.stkinfo,
            &leaving,
            &self.overthrown,
        );
        self.leader = leader;
        if self.bnum % FORGIVE_TIME == 0 {
            self.overthrown = KeySet::new();
        }
        self.waitingforentrybool = true;
        self.waitingforleaderbool = false;
        self.clocks = Clocks {
            timekeeper: now,
            waitingforleader: now,
            waitingforentry: now,
            usurping: now,
            doneerly: self.clocks.timekeeper,
            gui: self.clocks.gui,
        };
        let seated: bool = match self.keylocation {
            Some(place) => holds(&self.comittee[h], place as usize),
            None => false,
        };
        self.is_node = !seated;
        self.is_validator = seated;
        let mut joins: bool = false;
        if let Some(place) = self.keylocation {
            let mut k: usize = 0;
            while k < self.rules.replace_rate
                invariant
                    k <= self.rules.replace_rate,
                    h < self.queue@.len(),
                    self.rules.replace_rate <= self.queue@[h as int]@.len(),
                    joins == enters_soon(self.queue@[h as int]@, k as int, place),
                decreases self.rules.replace_rate - k,
            {
                let entering: usize = self.queue[h][k];
                assert(self.queue@[h as int]@[k as int] == entering);
                if entering as u64 == place {
                    joins = true;
                }
                k = k + 1;
            }
            if joins {
                self.is_node = true;
                self.is_validator = true;
            }
        }
        Settled { seated, was_validator, joins }
    }

    /// The address book has a line for each member of the committee.
    pub open spec fn committee_listed(&self) -> bool {
        forall|i: int|
            0 <= i < self.comittee@[self.headshard as int]@.len() ==> self.allnetwork@.contains_key(
                self.stkinfo@[#[trigger] self.comittee@[self.headshard as int]@[i] as int].0,
            )
    }

    /// Whether the address book has a line for each member of the committee.
    pub fn is_committee_listed(&self) -> (r: bool)
        requires
            self.members_staked(self.headshard as int),
        ensures
            r == self.committee_listed(),
    {
        let h: usize = self.headshard;
        let mut i: usize = 0;
        while i < self.comittee[h].len()
            invariant
                h == self.headshard,
                self.members_staked(h as int),
                i <= self.comittee@[h as int]@.len(),
                forall|k: int|
                    0 <= k < i ==> self.allnetwork@.contains_key(
                        self.stkinfo@[#[trigger] self.comittee@[h as int]@[k] as int].0,
                    ),
            decreases self.comittee@[h as int]@.len() - i,
        {
            let member: usize = self.comittee[h][i];
            assert(self.comittee@[h as int]@[i as int] == member);
            if self.allnetwork.get(&self.stkinfo[member].0).is_none() {
                return false;
            }
            i = i + 1;
        }
        true
    }

    /// The peers through which the committee is joined.
    pub fn committee_contacts(&self) -> (r: Vec<PeerId>)
        requires
            self.members_staked(self.headshard as int),
            self.committee_listed(),
        ensures
            r@ == committee_peers(
                self.comittee@[self.headshard as int]@,
                self.stkinfo@,
                self.allnetwork@,
            ),
    {
        list_committee_peers(&self.comittee[self.headshard], &self.stkinfo, &self.allnetwork)
    }
}

/// The reading of a block ends: as the number of the next block goes up by one
/// with each block that is over, the missed blocks are paid for one by one,
/// then it is the turn of the block itself, and then nothing is left.
pub proof fn reading_ends(b: BlockSummary, before: u64, then: u64, over: nat)
    requires
        before <= b.bnum,
        then == before + over,
    ensures
        work_for(b, then) is PayMissed <==> over < b.bnum - before,
        work_for(b, then) is PayEmpty || work_for(b, then) is Scan <==> over == b.bnum - before,
        work_for(b, then) is Nothing <==> over > b.bnum - before,
{
}

/// A block that was read is not read again, whatever was the head and the last
/// name by then.
pub proof fn no_block_is_read_twice(
    b: BlockSummary,
    bnum: u64,
    headshard: usize,
    lastname: Seq<u8>,
    multithreaded: bool,
)
    requires
        work_for(b, bnum) is Nothing,
    ensures
        judged(b, bnum, headshard, lastname, multithreaded) == Offer::Old,
{
}

/// A block is verified exactly if it is not old, follows the last one and comes
/// from a shard that is not below the head.
pub proof fn only_successors_are_verified(
    b: BlockSummary,
    bnum: u64,
    headshard: usize,
    lastname: Seq<u8>,
    multithreaded: bool,
)
    ensures
        judged(b, bnum, headshard, lastname, multithreaded) is Verify <==> b.bnum >= bnum
            && b.shards@.len() > 0 && b.shards@[0] as usize >= headshard && b.last_name@
            == lastname,
{
}

/// Full blocks are never missed: as a block without its full form is read only
/// where lightning blocks are taken, and as no block changes that, a node that
/// keeps full blocks has the full block when it comes to keeping it.
pub proof fn full_blocks_are_never_missed(
    offered_to: KhoraNode,
    kept_by: KhoraNode,
    large: Option<Vec<u8>>,
)
    requires
        large is None ==> offered_to.lightning_yielder,
        kept_by.lightning_yielder == offered_to.lightning_yielder,
    ensures
        kept_by.can_keep(large),
        !kept_by.lightning_yielder ==> large is Some,
{
}

/// A node whose shards make sense can accept blocks, as long as the exit queue
/// of the head is no shorter than what changes hands.
pub proof fn orderly_nodes_accept_blocks(n: KhoraNode)
    requires
        n.shard_ok(n.headshard as int),
        n.rules.replace_rate <= n.exitqueue@[n.headshard as int]@.len(),
    ensures
        n.acceptable(),
{
}

/// Whether a validator gets in touch with the committee again after a block:
/// it does if it has no peers there.
pub fn reconnects(settled: &Settled, peers: usize) -> (r: bool)
    ensures
        r == (settled.was_validator && peers == 0),
{
    settled.was_validator && peers == 0
}

/// A leader who did not make the block counts as overthrown once it is
/// accepted; whoever made it does not.
pub proof fn block_makers_are_trusted(n: KhoraNode, made_by: Key)
    ensures
        !n.overthrown_by_block(made_by).contains(made_by),
        made_by != n.leader ==> n.overthrown_by_block(made_by).contains(n.leader),
        forall|k: Key|
            k != made_by && k != n.leader ==> (#[trigger] n.overthrown_by_block(made_by).contains(k)
                == n.overthrown@.contains(k)),
{
}

/// Only a block without content is paid for as an empty one: one that makes a
/// coin, makes a stake or spends a stake is taken into the books.
pub proof fn blocks_with_content_are_taken_into_the_books(b: BlockSummary, n: KhoraNode)
    requires
        n.bnum == b.bnum,
    ensures
        work_for(b, b.bnum) is PayEmpty <==> b.no_txout && b.no_stkin && b.no_stkout,
        work_for(b, b.bnum) is Scan <==> !b.no_txout || !b.no_stkin || !b.no_stkout,
        b.is_empty_spec() <==> b.no_txout && b.no_stkin && b.no_stkout,
        n.work_left(b) is PayEmpty <==> b.no_txout && b.no_stkin && b.no_stkout,
        n.work_left(b) is Scan <==> !b.no_txout || !b.no_stkin || !b.no_stkout,
{
}

/// A node has the ledger verify a block exactly if the block does not lie
/// behind, names the last block as the one before it, and comes from a shard
/// that is not below the head; then against the committee of that shard, and
/// with all hands if the node is a validator.
pub proof fn nodes_verify_only_what_follows(n: KhoraNode, b: BlockSummary)
    ensures
        n.offered(b) is Verify <==> b.bnum >= n.bnum && b.shards@.len() > 0 && b.shards@[0]
            >= n.headshard && b.last_name@ == n.lastname@,
        n.offered(b) matches Offer::Verify { shard, multithreaded } ==> shard == b.shards@[0]
            && multithreaded == n.is_validator,
        n.offered(b) is Old <==> b.bnum < n.bnum,
        n.offered(b) is NoShard <==> b.bnum >= n.bnum && b.shards@.len() == 0,
{
}

/// A block is sent out by whoever sits on one of the seats that are left with
/// it, and by nobody else.
pub proof fn those_who_leave_send_the_block_out(n: KhoraNode, seat: int)
    requires
        0 <= seat < n.rules.replace_rate,
    ensures
        ({
            let exits = n.exitqueue@[n.headshard as int]@;
            let members = n.comittee@[n.headshard as int]@;
            &&& n.keylocation == Some(members[exits[seat] as int] as u64) ==> n.sends_out()
            &&& n.sends_out() ==> n.keylocation is Some && exists|j: int|
                0 <= j < n.rules.replace_rate && members[#[trigger] exits[j] as int]
                    == n.keylocation->0
        }),
{
    let exits = n.exitqueue@[n.headshard as int]@;
    assert(exits[seat] == exits[seat]);
    if n.sends_out() {
        let members = n.comittee@[n.headshard as int]@;
        let j = choose|j: int|
            0 <= j < n.rules.replace_rate && members[#[trigger] exits[j] as int] as u64
                == n.keylocation->0;
        assert(members[exits[j] as int] == n.keylocation->0);
    }
}

/// The votes for the two seats that are left next are gone, and no others.
pub proof fn two_seats_lose_their_votes(n: KhoraNode, seat: int)
    requires
        0 <= seat < n.votes@.len(),
        n.exitqueue@[n.headshard as int]@[0] < n.votes@.len(),
        n.exitqueue@[n.headshard as int]@[1] < n.votes@.len(),
    ensures
        n.votes_left().len() == n.votes@.len(),
        n.votes_left()[seat] == (if seat == n.exitqueue@[n.headshard as int]@[0] || seat
            == n.exitqueue@[n.headshard as int]@[1] {
            0i32
        } else {
            n.votes@[seat]
        }),
{
}

/// Whoever sits on one of the next seats to be left cannot lead: as long as
/// some member with more than the lowest possible vote count neither sits there
/// nor was overthrown, the leader does not sit there, was not overthrown, and
/// nobody like that has more votes.
pub proof fn those_who_leave_soon_do_not_lead(
    members: Seq<usize>,
    exits: Seq<usize>,
    count: nat,
    votes: Seq<i32>,
    stakers: Seq<(Key, u64)>,
    overthrown: Set<Key>,
    fit: int,
) -> (w: int)
    requires
        0 <= fit < members.len() && fit < votes.len(),
        votes[fit] > i32::MIN,
        !overthrown.contains(stakers[members[fit] as int].0),
        forall|j: int| 0 <= j < count ==> members[#[trigger] exits[j] as int] != members[fit],
    ensures
        0 <= w < members.len() && w < votes.len(),
        leading_key(
            members,
            votes,
            stakers,
            leaving_members(exits, members, count).to_set(),
            overthrown,
        ) == stakers[members[w] as int].0,
        !overthrown.contains(stakers[members[w] as int].0),
        forall|j: int| 0 <= j < count ==> members[#[trigger] exits[j] as int] != members[w],
        votes[fit] <= votes[w],
        fit > w ==> votes[fit] < votes[w],
{
    let list = leaving_members(exits, members, count);
    let leaving = list.to_set();
    assert(!leaving.contains(members[fit])) by {
        if list.contains(members[fit]) {
            let j = choose|j: int| 0 <= j < list.len() && list[j] == members[fit];
            assert(members[exits[j] as int] == members[fit]);
        }
    }
    let w = crate::election::the_best_who_may_lead_leads(
        members,
        votes,
        stakers,
        leaving,
        overthrown,
        fit,
    );
    assert forall|j: int| 0 <= j < count implies members[#[trigger] exits[j] as int]
        != members[w] by {
        assert(list[j] == members[exits[j] as int]);
        assert(list.contains(list[j]));
    }
    assert(members[fit] == members[fit]);
    w
}

/// Whether a node is about to enter, and whether it has a seat, is read off the
/// rows: whoever stands among the next to enter is about to, whoever stands on
/// a seat has it, and nobody else.
pub proof fn rows_tell_who_sits_and_who_enters(
    entries: Seq<usize>,
    count: int,
    members: Seq<usize>,
    place: u64,
    at: int,
)
    ensures
        0 <= at < count && entries[at] == place ==> enters_soon(entries, count, place),
        (forall|j: int| 0 <= j < count ==> #[trigger] entries[j] != place) ==> !enters_soon(
            entries,
            count,
            place,
        ),
        0 <= at < members.len() && members[at] == place ==> has_seat(members, Some(place)),
        place <= usize::MAX && (forall|j: int|
            0 <= j < members.len() ==> #[trigger] members[j] != place) ==> !has_seat(
            members,
            Some(place),
        ),
        !has_seat(members, None),
{
    if 0 <= at < count && entries[at] == place {
        assert(entries[at] as u64 == place);
    }
    if 0 <= at < members.len() && members[at] == place {
        assert(members[at] == place as usize);
    }
}

/// The ledger is given the members as they sit, one place for each seat.
pub proof fn every_seat_is_listed(members: Seq<usize>)
    ensures
        as_places(members).len() == members.len(),
        forall|i: int| 0 <= i < members.len() ==> #[trigger] as_places(members)[i] == members[i],
{
}

} // verus!
