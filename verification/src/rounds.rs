//! The rounds in which validators make blocks, and the clocks that drive them.

use crate::block::BlockSummary;
use crate::bytes::{extend, le_bytes, u64_bytes};
use crate::clock::{elapsed, seconds, seconds_since, time_since, Clocks};
use crate::election::{choose_leader, holds, leader_is_fit, leading_key, shorter};
use crate::frame::staker_friends_frame;
use crate::keys::{key_bytes, same_key, Key};
use crate::net::PeerId;
use crate::node::KhoraNode;
use crate::pool::Gossip;
use crate::rules::{REPORT_TIME, USURP_TIME};
use crate::wire::{pack_list, pack_short, packed_list, packed_short, read_list, rows, unpacked};
use vstd::prelude::*;

verus! {

/// Whether a round began.
pub enum RoundStart {
    /// it is not time yet
    NotYet,
    /// a round began
    Begun,
    /// a round began and the node, as the newest member, is to sign and send
    /// the transactions of the next block
    Entry { transactions: Vec<u8> },
}

/// What came of the transactions for the next block.
pub struct EntryOutcome {
    pub gossip: Gossip,
    /// the transactions that the node makes a block of
    pub transactions: Option<Vec<Vec<u8>>>,
    /// how often the node sends its signature: once for each of its seats
    pub copies: usize,
}

/// How often `place` sits in the committee.
pub open spec fn seats_of(members: Seq<usize>, place: u64) -> nat
    decreases members.len(),
{
    if members.len() == 0 {
        0
    } else {
        seats_of(members.drop_last(), place) + (if members.last() as u64 == place {
            1nat
        } else {
            0
        })
    }
}

/// Counts how often `place` sits in the committee.
pub fn count_seats(members: &Vec<usize>, place: u64) -> (r: usize)
    ensures
        r == seats_of(members@, place),
{
    let mut count: usize = 0;
    let mut i: usize = 0;
    while i < members.len()
        invariant
            i <= members@.len(),
            count == seats_of(members@.subrange(0, i as int), place),
            count <= i,
        decreases members@.len() - i,
    {
        proof {
            assert(members@.subrange(0, i + 1).drop_last() =~= members@.subrange(0, i as int));
        }
        if members[i] as u64 == place {
            count = count + 1;
        }
        i = i + 1;
    }
    assert(members@.subrange(0, i as int) =~= members@);
    count
}

/// How many of the peers are someone else.
pub open spec fn others(peers: Seq<PeerId>, me: PeerId) -> nat
    decreases peers.len(),
{
    if peers.len() == 0 {
        0
    } else {
        others(peers.drop_last(), me) + (if peers.last() != me {
            1nat
        } else {
            0
        })
    }
}

/// Counts the peers that are someone else.
pub fn count_friends(peers: &Vec<PeerId>, me: PeerId) -> (r: usize)
    ensures
        r == others(peers@, me),
{
    let mut count: usize = 0;
    let mut i: usize = 0;
    while i < peers.len()
        invariant
            i <= peers@.len(),
            count == others(peers@.subrange(0, i as int), me),
            count <= i,
        decreases peers@.len() - i,
    {
        proof {
            assert(peers@.subrange(0, i + 1).drop_last() =~= peers@.subrange(0, i as int));
        }
        if peers[i] != me {
            count = count + 1;
        }
        i = i + 1;
    }
    assert(peers@.subrange(0, i as int) =~= peers@);
    count
}

/// What a validator signs: the leader, the shard, what the transactions
/// amount to, the number of the block and the name of the block before.
pub open spec fn signed_message(
    leader: Key,
    shard: u16,
    content: Seq<u8>,
    bnum: u64,
    lastname: Seq<u8>,
) -> Seq<u8> {
    leader@ + packed_short(shard) + content + le_bytes(bnum as nat, 8) + lastname
}

impl KhoraNode {
    /// A validator's round is over: it lasted longer than a block takes, or the
    /// last block came early and the time it left is over too.
    pub open spec fn round_over(&self, now: u64, block_secs: u64) -> bool {
        self.is_validator && ((seconds(now, self.clocks.doneerly) > block_secs && elapsed(
            now,
            self.clocks.doneerly,
        ) > elapsed(now, self.clocks.timekeeper)) || seconds(now, self.clocks.timekeeper)
            > block_secs)
    }

    /// Begins a round if it is time to.
    pub fn begin_round(&mut self, now: u64, block_secs: u64) -> (r: RoundStart)
        ensures
            r is NotYet <==> !old(self).round_over(now, block_secs),
            r is Entry ==> old(self).keylocation is Some && old(self).may_choose(
                old(self).keylocation->0,
            ),
            r is Begun ==> old(self).keylocation != Some(old(self).newest),
            r matches RoundStart::Entry { transactions } ==> unpacked(transactions@) == Some(
                rows(old(self).txses@),
            ),
            !(r is NotYet) ==> !final(self).round_over(now, block_secs) && !final(self).leader_late(now, 0) && !final(self).entry_late(now, 0),
            r is Entry <==> old(self).round_over(now, block_secs) && old(self).keylocation == Some(
                old(self).newest,
            ),
            r matches RoundStart::Entry { transactions } ==> transactions@ == packed_list(
                rows(old(self).txses@),
            ),
            *final(self) == (if old(self).round_over(now, block_secs) {
                KhoraNode {
                    waitingforentrybool: true,
                    waitingforleaderbool: false,
                    clocks: Clocks {
                        timekeeper: now,
                        waitingforleader: now,
                        waitingforentry: now,
                        doneerly: now,
                        usurping: now,
                        gui: old(self).clocks.gui,
                    },
                    ..*old(self)
                }
            } else {
                *old(self)
            }),
    {
        let early: u64 = self.clocks.doneerly;
        let round: u64 = self.clocks.timekeeper;
        if !self.is_validator || !((seconds_since(now, early) > block_secs && time_since(now, early)
            > time_since(now, round)) || seconds_since(now, round) > block_secs) {
            return RoundStart::NotYet;
        }
        self.waitingforentrybool = true;
        self.waitingforleaderbool = false;
        self.clocks = Clocks {
            timekeeper: now,
            waitingforleader: now,
            waitingforentry: now,
            doneerly: now,
            usurping: now,
            gui: self.clocks.gui,
        };
        let mine: bool = match self.keylocation {
            Some(place) => place == self.newest,
            None => false,
        };
        if mine {
            let transactions: Vec<u8> = pack_list(&self.txses);
            let length: usize = transactions.len();
            proof {
                assert(length as nat == transactions@.len());
                entries_are_understood(rows(self.txses@));
            }
            RoundStart::Entry { transactions }
        } else {
            RoundStart::Begun
        }
    }

    /// After a long silence the next shard takes over; the round counts from
    /// where the silence began.
    pub fn usurp(&mut self, now: u64) -> (r: bool)
        requires
            old(self).headshard < usize::MAX,
        ensures
            r == (seconds(now, old(self).clocks.usurping) > USURP_TIME),
            r <==> now >= old(self).clocks.usurping + 3601 * 1_000_000_000,
            r ==> forall|c: BlockSummary| #[trigger]
                final(self).offered(c) is Verify ==> c.shards@[0] > old(self).headshard,
            r && old(self).is_validator ==> forall|secs: u64|
                secs <= 3600 ==> #[trigger] final(self).round_over(now, secs),
            *final(self) == (if r {
                KhoraNode {
                    headshard: (old(self).headshard + 1) as usize,
                    clocks: Clocks {
                        timekeeper: old(self).clocks.usurping,
                        usurping: now,
                        ..old(self).clocks
                    },
                    ..*old(self)
                }
            } else {
                *old(self)
            }),
    {
        proof {
            crate::clock::seconds_are_whole(now, self.clocks.usurping, 3600);
        }
        if seconds_since(now, self.clocks.usurping) > USURP_TIME {
            self.clocks.timekeeper = self.clocks.usurping;
            self.clocks.usurping = now;
            self.headshard = self.headshard + 1;
            proof {
                assert forall|secs: u64| self.is_validator && secs <= 3600 implies #[trigger]
                self.round_over(now, secs) by {
                    clocks_call_in_time(*self, self.leader, 0, now, secs);
                }
            }
            true
        } else {
            false
        }
    }

    /// Tells the interface from time to time how many friends the node has.
    pub fn report(&mut self, peers: &Vec<PeerId>, me: PeerId, now: u64) -> (r: Option<Vec<u8>>)
        ensures
            r is Some <==> seconds(now, old(self).clocks.gui) > REPORT_TIME,
            r is Some <==> now >= old(self).clocks.gui + 6 * 1_000_000_000,
            r matches Some(m) ==> m@ == le_bytes(others(peers@, me) as u16 as nat, 2).push(4),
            *final(self) == (if r is Some {
                KhoraNode { clocks: Clocks { gui: now, ..old(self).clocks }, ..*old(self) }
            } else {
                *old(self)
            }),
    {
        proof {
            crate::clock::seconds_are_whole(now, self.clocks.gui, 5);
        }
        if seconds_since(now, self.clocks.gui) > REPORT_TIME {
            self.clocks.gui = now;
            Some(staker_friends_frame(count_friends(peers, me)))
        } else {
            None
        }
    }

    /// Whoever signed the transactions for the next block may choose them: the
    /// newest member of the committee, or the leader.
    pub open spec fn may_choose(&self, who: u64) -> bool {
        who == self.newest || self.stkinfo@[who as int].0 == self.leader
    }

    /// Whether `who` may choose the transactions for the next block.
    pub fn is_chooser(&self, who: u64) -> (r: bool)
        requires
            who != self.newest ==> who < self.stkinfo@.len(),
        ensures
            r == self.may_choose(who),
    {
        let stakers: usize = self.stkinfo.len();
        if who == self.newest {
            true
        } else {
            assert(who < stakers);
            same_key(&self.stkinfo[who as usize].0, &self.leader)
        }
    }

    /// Takes the transactions for the next block, which `who` signed. Where
    /// `who` may choose them and they can be read, the node makes a block of
    /// them, sends its signature once for each of its seats, and waits for the
    /// leader.
    pub fn take_entry(&mut self, who: u64, m: &Vec<u8>, now: u64) -> (r: EntryOutcome)
        requires
            who != old(self).newest ==> who < old(self).stkinfo@.len(),
            old(self).may_choose(who) && old(self).keylocation is Some ==> old(self).headshard < old(
                self,
            ).comittee@.len(),
        ensures
            r.transactions is Some ==> who == old(self).newest || old(self).stkinfo@[who as int].0
                == old(self).leader,
            r.transactions is Some ==> !final(self).entry_late(now, 0) && !final(self).leader_late(
                now,
                0,
            ),
            r.gossip == (if old(self).may_choose(who) && unpacked(m@) is Some {
                Gossip::Pass
            } else {
                Gossip::Drop
            }),
            r.transactions is Some <==> r.gossip == Gossip::Pass,
            r.transactions matches Some(list) ==> unpacked(m@) == Some(rows(list@)),
            r.copies > 0 ==> old(self).keylocation is Some && exists|i: int|
                0 <= i < old(self).comittee@[old(self).headshard as int]@.len() && #[trigger] old(
                    self,
                ).comittee@[old(self).headshard as int]@[i] == old(self).keylocation->0,
            r.transactions is Some && old(self).keylocation is Some && (forall|i: int|
                0 <= i < old(self).comittee@[old(self).headshard as int]@.len() ==> #[trigger] old(
                    self,
                ).comittee@[old(self).headshard as int]@[i] == old(self).keylocation->0)
                ==> r.copies == old(self).comittee@[old(self).headshard as int]@.len(),
            r.copies == (if r.gossip == Gossip::Pass && old(self).keylocation is Some {
                seats_of(
                    old(self).comittee@[old(self).headshard as int]@,
                    old(self).keylocation->0,
                )
            } else {
                0
            }),
            *final(self) == (if r.gossip == Gossip::Pass {
                KhoraNode {
                    waitingforentrybool: false,
                    waitingforleaderbool: true,
                    clocks: Clocks { waitingforleader: now, ..old(self).clocks },
                    ..*old(self)
                }
            } else {
                *old(self)
            }),
    {
        proof {
            if self.keylocation is Some {
                let members = self.comittee@[self.headshard as int]@;
                those_in_the_row_have_seats(members, self.keylocation->0);
                if forall|i: int|
                    0 <= i < members.len() ==> #[trigger] members[i] == self.keylocation->0 {
                    whoever_has_all_seats_counts_for_each(members, self.keylocation->0);
                }
            }
        }
        let chooser: bool = self.is_chooser(who);
        if !chooser {
            return EntryOutcome { gossip: Gossip::Drop, transactions: None, copies: 0 };
        }
        match read_list(m) {
            Some(list) => {
                let copies: usize = match self.keylocation {
                    Some(place) => count_seats(&self.comittee[self.headshard], place),
                    None => 0,
                };
                self.waitingforentrybool = false;
                self.waitingforleaderbool = true;
                self.clocks.waitingforleader = now;
                EntryOutcome { gossip: Gossip::Pass, transactions: Some(list), copies }
            },
            None => EntryOutcome { gossip: Gossip::Drop, transactions: None, copies: 0 },
        }
    }

    /// A validator waited for the leader too long.
    pub open spec fn leader_late(&self, now: u64, half_secs: u64) -> bool {
        self.is_validator && self.waitingforleaderbool && seconds(
            now,
            self.clocks.waitingforleader,
        ) > half_secs
    }

    /// The leader after the present one is overthrown. Members of the first
    /// shard are chosen from, whether or not they are about to leave.
    pub open spec fn successor(&self) -> Key {
        leading_key(
            self.comittee@[0]@,
            self.votes@,
            self.stkinfo@,
            Set::<usize>::empty(),
            self.overthrown@.insert(self.leader),
        )
    }

    /// Whether a validator waited for the leader too long.
    pub fn is_leader_late(&self, now: u64, half_secs: u64) -> (r: bool)
        ensures
            r == self.leader_late(now, half_secs),
    {
        self.is_validator && self.waitingforleaderbool && seconds_since(
            now,
            self.clocks.waitingforleader,
        ) > half_secs
    }

    /// There is someone to choose a leader from, and all of them are in the
    /// list of stakers.
    pub open spec fn leader_choosable(&self) -> bool {
        &&& self.comittee@.len() > 0
        &&& self.comittee@[0]@.len() > 0
        &&& self.votes@.len() > 0
        &&& forall|i: int|
            0 <= i < shorter(self.comittee@[0]@.len(), self.votes@.len())
                ==> #[trigger] self.comittee@[0]@[i] < self.stkinfo@.len()
    }

    /// Whether there is someone to choose a leader from.
    pub fn can_choose_leader(&self) -> (r: bool)
        ensures
            r == self.leader_choosable(),
    {
        if self.comittee.len() == 0 || self.comittee[0].len() == 0 || self.votes.len() == 0 {
            return false;
        }
        let mut i: usize = 0;
        while i < self.comittee[0].len() && i < self.votes.len()
            invariant
                self.comittee@.len() > 0,
                i <= self.comittee@[0]@.len(),
                i <= self.votes@.len(),
                forall|k: int|
                    0 <= k < i ==> #[trigger] self.comittee@[0]@[k] < self.stkinfo@.len(),
            decreases self.votes@.len() - i,
        {
            if self.comittee[0][i] >= self.stkinfo.len() {
                return false;
            }
            i = i + 1;
        }
        true
    }

    /// Overthrows a leader who did not show up. Only a validator does.
    pub fn overthrow(&mut self, now: u64, half_secs: u64) -> (r: bool)
        requires
            old(self).leader_late(now, half_secs) ==> old(self).leader_choosable(),
        ensures
            r == old(self).leader_late(now, half_secs),
            r ==> old(self).is_validator && now >= old(self).clocks.waitingforleader + (half_secs
                + 1) * 1_000_000_000,
            r ==> !final(self).leader_late(now, half_secs),
            r ==> forall|k: Key| #[trigger]
                final(self).overthrown@.contains(k) <==> old(self).overthrown@.contains(k) || k
                    == old(self).leader,
            !r ==> *final(self) == *old(self),
            r ==> final(self).overthrown@ == old(self).overthrown@.insert(old(self).leader),
            r ==> *final(self) == (KhoraNode {
                leader: old(self).successor(),
                overthrown: final(self).overthrown,
                clocks: Clocks { waitingforleader: now, ..old(self).clocks },
                ..*old(self)
            }),
    {
        proof {
            clocks_call_in_time(*self, self.leader, 0, now, half_secs);
        }
        if !self.is_leader_late(now, half_secs) {
            return false;
        }
        self.clocks.waitingforleader = now;
        self.overthrown.insert(self.leader);
        let nobody: Vec<usize> = Vec::new();
        assert(nobody@.to_set() =~= Set::<usize>::empty());
        let leader: Key = choose_leader(
            &self.comittee[0],
            &self.votes,
            &self.stkinfo,
            &nobody,
            &self.overthrown,
        );
        self.leader = leader;
        true
    }

    /// It is time for the node, as a validator and the leader, to finish a block:
    /// it has enough signatures and waited for a while.
    pub open spec fn finishing_time(
        &self,
        own_key: Key,
        signatures: usize,
        now: u64,
        quarter_secs: u64,
    ) -> bool {
        self.is_validator && self.leader == own_key && signatures > self.rules.signing_cutoff
            && seconds(now, self.clocks.timekeeper) > quarter_secs
    }

    /// Whether it is time for the node to finish a block.
    pub fn is_finishing_time(
        &self,
        own_key: &Key,
        signatures: usize,
        now: u64,
        quarter_secs: u64,
    ) -> (r: bool)
        ensures
            r == self.finishing_time(*own_key, signatures, now, quarter_secs),
    {
        self.is_validator && same_key(own_key, &self.leader) && signatures
            > self.rules.signing_cutoff && seconds_since(now, self.clocks.timekeeper)
            > quarter_secs
    }

    /// Of the signatures by `signers`, says which are by members of the
    /// committee. When a block cannot be finished, the others are dropped.
    pub fn by_members(&self, signers: &Vec<u64>) -> (r: Vec<bool>)
        requires
            self.headshard < self.comittee@.len(),
        ensures
            r@.len() == signers@.len(),
            forall|i: int|
                0 <= i < signers@.len() ==> #[trigger] r@[i] == (seats_of(
                    self.comittee@[self.headshard as int]@,
                    signers@[i],
                ) > 0),
            forall|i: int|
                0 <= i < signers@.len() ==> (#[trigger] r@[i] <==> exists|k: int|
                    0 <= k < self.comittee@[self.headshard as int]@.len()
                        && #[trigger] self.comittee@[self.headshard as int]@[k] == signers@[i]),
    {
        let mut out: Vec<bool> = Vec::new();
        let mut i: usize = 0;
        while i < signers.len()
            invariant
                i <= signers@.len(),
                self.headshard < self.comittee@.len(),
                out@.len() == i,
                forall|k: int|
                    0 <= k < i ==> #[trigger] out@[k] == (seats_of(
                        self.comittee@[self.headshard as int]@,
                        signers@[k],
                    ) > 0),
            decreases signers@.len() - i,
        {
            out.push(count_seats(&self.comittee[self.headshard], signers[i]) > 0);
            i = i + 1;
        }
        proof {
            assert forall|i: int| 0 <= i < signers@.len() implies (#[trigger] out@[i] <==> exists|
                k: int,
            |
                0 <= k < self.comittee@[self.headshard as int]@.len()
                    && #[trigger] self.comittee@[self.headshard as int]@[k] == signers@[i]) by {
                those_in_the_row_have_seats(
                    self.comittee@[self.headshard as int]@,
                    signers@[i],
                );
            }
        }
        out
    }

    /// What a signature under a block with the given content has to sign.
    pub fn message_to_sign(&self, content: &Vec<u8>) -> (r: Vec<u8>)
        ensures
            r@ == signed_message(
                self.leader,
                self.headshard as u16,
                content@,
                self.bnum,
                self.lastname@,
            ),
    {
        let mut out: Vec<u8> = key_bytes(&self.leader);
        extend(&mut out, &pack_short(self.headshard as u16));
        extend(&mut out, content);
        extend(&mut out, &u64_bytes(self.bnum));
        extend(&mut out, &self.lastname);
        out
    }

    /// Nobody sent a validator the transactions of the next block in time.
    pub open spec fn entry_late(&self, now: u64, entry_secs: u64) -> bool {
        self.is_validator && self.waitingforentrybool && seconds(now, self.clocks.waitingforentry)
            > entry_secs
    }

    /// Whether nobody sent a validator the transactions of the next block in
    /// time.
    pub fn is_entry_late(&self, now: u64, entry_secs: u64) -> (r: bool)
        ensures
            r == self.entry_late(now, entry_secs),
    {
        self.is_validator && self.waitingforentrybool && seconds_since(
            now,
            self.clocks.waitingforentry,
        ) > entry_secs
    }

    /// Gives up on the transactions of the next block if they are late. A node
    /// with a seat then sends its signature under an empty block; the result
    /// says whether it does.
    pub fn give_up_entry(&mut self, now: u64, entry_secs: u64) -> (r: bool)
        requires
            old(self).entry_late(now, entry_secs) && old(self).keylocation is Some ==> old(
                self,
            ).headshard < old(self).comittee@.len(),
        ensures
            r == (old(self).entry_late(now, entry_secs) && crate::block::has_seat(
                old(self).comittee@[old(self).headshard as int]@,
                old(self).keylocation,
            )),
            r ==> old(self).is_validator && old(self).keylocation is Some && old(self).comittee@[old(
                self,
            ).headshard as int]@.contains(old(self).keylocation->0 as usize),
            !final(self).entry_late(now, entry_secs),
            *final(self) == (if old(self).entry_late(now, entry_secs) {
                KhoraNode { waitingforentrybool: false, ..*old(self) }
            } else {
                *old(self)
            }),
    {
        if !self.is_entry_late(now, entry_secs) {
            return false;
        }
        self.waitingforentrybool = false;
        match self.keylocation {
            Some(place) => holds(&self.comittee[self.headshard], place as usize),
            None => false,
        }
    }
}

/// What is done with a message that the ledger had to read: it is passed on if
/// it could be read and was accepted.
pub fn passed_if(readable: bool, accepted: bool) -> (r: Gossip)
    ensures
        r == (if readable && accepted {
            Gossip::Pass
        } else {
            Gossip::Drop
        }),
{
    if readable && accepted {
        Gossip::Pass
    } else {
        Gossip::Drop
    }
}

/// Only a validator takes part in the making of blocks: no other node begins a
/// round, overthrows a leader, finishes a block or gives up on the transactions
/// of the next block, whatever the clocks say.
pub proof fn only_validators_make_blocks(
    n: KhoraNode,
    own_key: Key,
    signatures: usize,
    now: u64,
    secs: u64,
)
    requires
        !n.is_validator,
    ensures
        !n.round_over(now, secs),
        !n.leader_late(now, secs),
        !n.finishing_time(own_key, signatures, now, secs),
        !n.entry_late(now, secs),
{
}

/// The transactions that the newest member sends are those that everybody
/// reads.
pub proof fn entries_are_understood(transactions: Seq<Seq<u8>>)
    requires
        packed_list(transactions).len() <= u64::MAX,
    ensures
        unpacked(packed_list(transactions)) == Some(transactions),
{
    assert(packed_list(transactions) + Seq::<u8>::empty() =~= packed_list(transactions));
    crate::wire::unpacking_undoes_packing(transactions, Seq::<u8>::empty());
}

/// A leader who is overthrown steps down: as long as the first shard has a
/// member with a vote count above the lowest possible one whose key was not
/// overthrown and is not the leader's, the next leader is someone else, and
/// nobody who was overthrown.
pub proof fn overthrown_leaders_step_down(n: KhoraNode, fit: int)
    requires
        n.comittee@.len() > 0,
        0 <= fit < shorter(n.comittee@[0]@.len(), n.votes@.len()),
        n.votes@[fit] > i32::MIN,
        n.stkinfo@[n.comittee@[0]@[fit] as int].0 != n.leader,
        !n.overthrown@.contains(n.stkinfo@[n.comittee@[0]@[fit] as int].0),
    ensures
        n.successor() != n.leader,
        !n.overthrown@.contains(n.successor()),
{
    leader_is_fit(
        n.comittee@[0]@,
        n.votes@,
        n.stkinfo@,
        Set::<usize>::empty(),
        n.overthrown@.insert(n.leader),
        fit,
    );
}

/// Seats are counted one by one: those of two rows add up, and a seat counts
/// once exactly if `place` sits there. Whoever has a seat is counted.
pub proof fn seats_add_up(a: Seq<usize>, b: Seq<usize>, member: usize, place: u64)
    ensures
        seats_of(Seq::empty(), place) == 0,
        seats_of(seq![member], place) == (if member == place {
            1nat
        } else {
            0
        }),
        seats_of(a + b, place) == seats_of(a, place) + seats_of(b, place),
    decreases b.len(),
{
    reveal_with_fuel(seats_of, 2);
    assert(seq![member].drop_last() =~= Seq::<usize>::empty());
    if b.len() == 0 {
        assert(a + b =~= a);
    } else {
        assert((a + b).drop_last() =~= a + b.drop_last());
        seats_add_up(a, b.drop_last(), member, place);
    }
}

/// Someone has a seat exactly if they stand somewhere in the row.
pub proof fn those_in_the_row_have_seats(members: Seq<usize>, place: u64)
    ensures
        seats_of(members, place) > 0 <==> exists|i: int|
            0 <= i < members.len() && #[trigger] members[i] == place,
    decreases members.len(),
{
    if members.len() > 0 {
        let init = members.drop_last();
        those_in_the_row_have_seats(init, place);
        if exists|i: int| 0 <= i < init.len() && #[trigger] init[i] == place {
            let i = choose|i: int| 0 <= i < init.len() && #[trigger] init[i] == place;
            assert(members[i] == place);
        }
        if exists|i: int| 0 <= i < members.len() && #[trigger] members[i] == place {
            let i = choose|i: int| 0 <= i < members.len() && #[trigger] members[i] == place;
            if i < init.len() {
                assert(init[i] == place);
            } else {
                assert(members.last() as u64 == place);
            }
        }
        if members.last() as u64 == place {
            assert(members[members.len() - 1] == place);
        }
    }
}

/// Friends are counted one by one: those in two lists add up, the node itself
/// is no friend, and anyone else is one.
pub proof fn friends_add_up(a: Seq<PeerId>, b: Seq<PeerId>, peer: PeerId, me: PeerId)
    ensures
        others(Seq::empty(), me) == 0,
        others(seq![me], me) == 0,
        peer != me ==> others(seq![peer], me) == 1,
        others(a + b, me) == others(a, me) + others(b, me),
    decreases b.len(),
{
    reveal_with_fuel(others, 2);
    assert(seq![peer].drop_last() =~= Seq::<PeerId>::empty());
    assert(seq![me].drop_last() =~= Seq::<PeerId>::empty());
    if b.len() == 0 {
        assert(a + b =~= a);
    } else {
        assert((a + b).drop_last() =~= a + b.drop_last());
        friends_add_up(a, b.drop_last(), peer, me);
    }
}

/// When the clocks call on a node, in nanoseconds: a validator's round is over
/// once more than the time of a block went by since it began, or since the
/// block before it came if that was earlier; the leader is late, a block can be
/// finished and the transactions are late each once more than the given time
/// went by since the wait for them or the round began.
pub proof fn clocks_call_in_time(
    n: KhoraNode,
    own_key: Key,
    signatures: usize,
    now: u64,
    secs: u64,
)
    ensures
        ({
            let time = (secs + 1) * 1_000_000_000;
            &&& n.round_over(now, secs) <==> n.is_validator && (now >= n.clocks.timekeeper + time
                || (now >= n.clocks.doneerly + time && n.clocks.doneerly < n.clocks.timekeeper))
            &&& n.leader_late(now, secs) <==> n.is_validator && n.waitingforleaderbool && now
                >= n.clocks.waitingforleader + time
            &&& n.finishing_time(own_key, signatures, now, secs) <==> n.is_validator && own_key
                == n.leader && signatures > n.rules.signing_cutoff && now >= n.clocks.timekeeper
                + time
            &&& n.entry_late(now, secs) <==> n.is_validator && n.waitingforentrybool && now
                >= n.clocks.waitingforentry + time
        }),
{
    crate::clock::seconds_are_whole(now, n.clocks.timekeeper, secs);
    crate::clock::seconds_are_whole(now, n.clocks.doneerly, secs);
    crate::clock::seconds_are_whole(now, n.clocks.waitingforleader, secs);
    crate::clock::seconds_are_whole(now, n.clocks.waitingforentry, secs);
}

/// The transactions of the next block are chosen by the newest member or by
/// whoever has the leader's key, and by nobody else.
pub proof fn the_newest_and_the_leader_choose(n: KhoraNode, who: u64)
    ensures
        n.may_choose(n.newest),
        n.stkinfo@[who as int].0 == n.leader ==> n.may_choose(who),
        n.may_choose(who) && n.stkinfo@[who as int].0 != n.leader ==> who == n.newest,
{
}

/// A signature is about one block: messages with contents and last names of
/// one length are told apart by the leader, the shard, the contents, the number
/// of the block and the block before it.
pub proof fn signed_blocks_are_told_apart(
    a: (Key, u16, Seq<u8>, u64, Seq<u8>),
    b: (Key, u16, Seq<u8>, u64, Seq<u8>),
)
    requires
        a.2.len() == b.2.len(),
        signed_message(a.0, a.1, a.2, a.3, a.4) == signed_message(b.0, b.1, b.2, b.3, b.4),
    ensures
        a.0@ == b.0@,
        a.1 == b.1,
        a.2 == b.2,
        a.3 == b.3,
        a.4 == b.4,
{
    let x = signed_message(a.0, a.1, a.2, a.3, a.4);
    let y = signed_message(b.0, b.1, b.2, b.3, b.4);
    crate::bytes::lemma_pow256_values();
    crate::bytes::le_round_trip(a.1 as nat, 2);
    crate::bytes::le_round_trip(b.1 as nat, 2);
    crate::bytes::le_round_trip(a.3 as nat, 8);
    crate::bytes::le_round_trip(b.3 as nat, 8);
    crate::bytes::lemma_le_bytes_len(1, 8);
    let c = a.2.len() as int;
    assert(x.subrange(0, 32) =~= a.0@);
    assert(y.subrange(0, 32) =~= b.0@);
    assert(x.subrange(40, 42) =~= le_bytes(a.1 as nat, 2));
    assert(y.subrange(40, 42) =~= le_bytes(b.1 as nat, 2));
    assert(x.subrange(42, 42 + c) =~= a.2);
    assert(y.subrange(42, 42 + c) =~= b.2);
    assert(x.subrange(42 + c, 50 + c) =~= le_bytes(a.3 as nat, 8));
    assert(y.subrange(42 + c, 50 + c) =~= le_bytes(b.3 as nat, 8));
    assert(x.subrange(50 + c, x.len() as int) =~= a.4);
    assert(y.subrange(50 + c, y.len() as int) =~= b.4);
}

/// Whoever leads after the leader was overthrown is the best of those members
/// of the first shard who were not: as long as there is one with more than the
/// lowest possible vote count, the next leader is such a member and has no
/// fewer votes than any.
pub proof fn the_best_of_the_rest_follows(n: KhoraNode, fit: int) -> (w: int)
    requires
        0 <= fit < n.comittee@[0]@.len() && fit < n.votes@.len(),
        n.votes@[fit] > i32::MIN,
        n.stkinfo@[n.comittee@[0]@[fit] as int].0 != n.leader,
        !n.overthrown@.contains(n.stkinfo@[n.comittee@[0]@[fit] as int].0),
    ensures
        0 <= w < n.comittee@[0]@.len() && w < n.votes@.len(),
        n.successor() == n.stkinfo@[n.comittee@[0]@[w] as int].0,
        n.successor() != n.leader,
        !n.overthrown@.contains(n.successor()),
        n.votes@[fit] <= n.votes@[w],
        fit > w ==> n.votes@[fit] < n.votes@[w],
{
    let w = crate::election::the_best_who_may_lead_leads(
        n.comittee@[0]@,
        n.votes@,
        n.stkinfo@,
        Set::<usize>::empty(),
        n.overthrown@.insert(n.leader),
        fit,
    );
    assert(n.comittee@[0]@[fit] == n.comittee@[0]@[fit]);
    w
}

/// Whoever has all seats counts once for each.
pub proof fn whoever_has_all_seats_counts_for_each(members: Seq<usize>, place: u64)
    requires
        forall|i: int| 0 <= i < members.len() ==> #[trigger] members[i] == place,
    ensures
        seats_of(members, place) == members.len(),
    decreases members.len(),
{
    if members.len() > 0 {
        let init = members.drop_last();
        assert forall|i: int| 0 <= i < init.len() implies #[trigger] init[i] == place by {
            assert(init[i] == members[i]);
        }
        whoever_has_all_seats_counts_for_each(init, place);
        assert(members[members.len() - 1] == place);
    }
}

} // verus!
