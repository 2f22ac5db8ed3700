//! The blocks of a reading one by one: those that were missed, and the block
//! itself.

use crate::block::{enters_soon, has_seat, leaving_members, Archive, BlockSummary, Payment, Scan,
    Selection, Settled, Work};
use crate::bytes::le_bytes;
use crate::clock::Clocks;
use crate::digest::{group_order, integer_sum, scalar_name};
use crate::election::{count_signatures, leading_key, shorter, tallied};
use crate::frame::{block_number_frame, seat_frame, staker_money_frame};
use crate::keys::Key;
use crate::node::{first_below, KhoraNode, OldStake};
use crate::reset::stake_amount;
use crate::rules::FORGIVE_TIME;
use crate::wire::rows;
use vstd::prelude::*;

verus! {

/// What the ledger did for the block itself.
pub enum OwnWork {
    /// it was empty, and was paid for
    Empty(Payment),
    /// it was taken into the books
    Scanned(Scan),
}

/// The state of the seats and of the own stake once the ledger did its work
/// for the block itself.
pub struct Books {
    pub smine: Option<crate::node::Stake>,
    pub keylocation: Option<u64>,
    pub stkinfo: Seq<(Key, u64)>,
    pub entries: Seq<usize>,
    pub exits: Seq<usize>,
}

/// What a missed block leads to.
pub struct MissedBlock {
    /// for the interface
    pub frame: Vec<u8>,
    pub archive: Archive,
}

/// What the block itself leads to.
pub struct OwnBlock {
    /// for the interface, in this order
    pub frames: Vec<Vec<u8>>,
    pub archive: Archive,
    pub settled: Settled,
}

/// Whether the votes can be counted once those for the first two exits are
/// gone and the signatures are added.
fn countable(
    votes: &Vec<i32>,
    exits: &Vec<usize>,
    members: &Vec<usize>,
    signers: &Vec<u64>,
) -> (r: bool)
    requires
        exits@.len() >= 2,
        exits@[0] < votes@.len(),
        exits@[1] < votes@.len(),
        signers@.len() <= i32::MAX,
    ensures
        r == forall|i: int|
            0 <= i < shorter(votes@.len(), members@.len()) ==> #[trigger] tallied(
                votes@.update(exits@[0] as int, 0).update(exits@[1] as int, 0),
                members@,
                signers@,
            )[i] <= i32::MAX,
{
    let n: usize = if votes.len() <= members.len() {
        votes.len()
    } else {
        members.len()
    };
    let ghost left = votes@.update(exits@[0] as int, 0).update(exits@[1] as int, 0);
    let mut i: usize = 0;
    while i < n
        invariant
            i <= n,
            n == shorter(votes@.len(), members@.len()),
            exits@.len() >= 2,
            exits@[0] < votes@.len(),
            exits@[1] < votes@.len(),
            signers@.len() <= i32::MAX,
            left == votes@.update(exits@[0] as int, 0).update(exits@[1] as int, 0),
            forall|j: int|
                0 <= j < i ==> #[trigger] tallied(left, members@, signers@)[j] <= i32::MAX,
        decreases n - i,
    {
        let before: i64 = if i == exits[0] || i == exits[1] {
            0
        } else {
            votes[i] as i64
        };
        let extra: usize = count_signatures(signers, members[i]);
        assert(before == left[i as int]);
        assert(tallied(left, members@, signers@)[i as int] == before + extra);
        if before + extra as i64 > i32::MAX as i64 {
            assert(!(tallied(left, members@, signers@)[i as int] <= i32::MAX));
            return false;
        }
        i = i + 1;
    }
    true
}

impl KhoraNode {
    /// The seats that are left next are there and have votes.
    pub open spec fn two_exits(&self) -> bool {
        &&& self.headshard < self.exitqueue@.len()
        &&& self.exitqueue@[self.headshard as int]@.len() >= 2
        &&& self.exitqueue@[self.headshard as int]@[0] < self.votes@.len()
        &&& self.exitqueue@[self.headshard as int]@[1] < self.votes@.len()
    }

    /// Whether the seats that are left next are there and have votes.
    pub fn has_two_exits(&self) -> (r: bool)
        ensures
            r == self.two_exits(),
    {
        if self.headshard >= self.exitqueue.len() {
            return false;
        }
        if self.exitqueue[self.headshard].len() < 2 {
            return false;
        }
        self.exitqueue[self.headshard][0] < self.votes.len() && self.exitqueue[self.headshard][1]
            < self.votes.len()
    }

    /// Reads a block that was missed: it was empty, so it is paid for, the
    /// votes for the seats that are left are dropped, and the next members are
    /// seated.
    pub fn missed_block(&mut self, b: &BlockSummary, p: Payment, s: Selection) -> (r: MissedBlock)
        requires
            old(self).work_left(*b) is PayMissed,
            old(self).two_exits(),
        ensures
            r.frame@ == seq![if p.paid { 0u8 } else { 1u8 }, 1u8],
            final(self).bnum <= b.bnum,
            final(self).oldstk is Some <==> old(self).oldstk is Some,
            final(self).oldstk matches Some(o) ==> o.stake == p.oldstk,
            forall|c: BlockSummary| #[trigger]
                final(self).offered(c) is Verify ==> c.bnum > old(self).bnum && c.last_name@ == old(
                    self,
                ).lastname@,
            r.archive.full is Some <==> !old(self).lightning_yielder,
            r.archive.full matches Some(full) ==> full@.len() == 0,
            r.archive.lightning@.len() == 0,
            final(self).votes@ == old(self).votes_left(),
            *final(self) == (KhoraNode {
                smine: p.smine,
                stkinfo: p.stkinfo,
                oldstk: if old(self).oldstk is Some {
                    Some(OldStake { stake: p.oldstk, amount: old(self).oldstk->0.amount })
                } else {
                    None
                },
                votes: final(self).votes,
                queue: s.queue,
                exitqueue: s.exitqueue,
                comittee: s.comittee,
                bnum: (old(self).bnum + 1) as u64,
                ..*old(self)
            }),
    {
        let nothing: Vec<u8> = Vec::new();
        let archive: Archive = self.archive(Work::PayMissed, &nothing, &None);
        let frame: Vec<u8> = self.paid(p, true);
        self.leave_seats(false);
        self.seated(s);
        MissedBlock { frame, archive }
    }

    /// The state of the books once the ledger did its work for the block
    /// itself.
    pub open spec fn books(&self, own: OwnWork) -> Books {
        let h = self.headshard as int;
        match own {
            OwnWork::Empty(p) => Books {
                smine: p.smine,
                keylocation: self.keylocation,
                stkinfo: p.stkinfo@,
                entries: self.queue@[h]@,
                exits: self.exitqueue@[h]@,
            },
            OwnWork::Scanned(s) => Books {
                smine: s.smine,
                keylocation: if s.smine is Some {
                    Some(s.smine->0.place)
                } else {
                    self.keylocation
                },
                stkinfo: s.stkinfo@,
                entries: s.queue@[h]@,
                exits: s.exitqueue@[h]@,
            },
        }
    }

    /// What the ledger did for the block itself, and the seats that it selected
    /// afterwards, make sense: rows and seats that are looked at are there,
    /// whoever can be chosen is in the list of stakers, and votes can be counted.
    pub open spec fn sensible(&self, b: BlockSummary, own: OwnWork, s: Selection) -> bool {
        let h = self.headshard as int;
        let k = self.books(own);
        let members = s.comittee@[h]@;
        &&& own is Scanned ==> h < own->Scanned_0.queue@.len() && h
            < own->Scanned_0.exitqueue@.len()
        &&& own is Empty ==> h < self.queue@.len() && h < self.exitqueue@.len()
        &&& k.entries.len() > 0
        &&& k.exits.len() >= 2
        &&& k.exits[0] < self.votes@.len()
        &&& k.exits[1] < self.votes@.len()
        &&& h < s.exitqueue@.len()
        &&& h < s.comittee@.len()
        &&& members.len() > 0
        &&& forall|i: int|
            0 <= i < shorter(self.votes@.len(), members.len()) ==> #[trigger] members[i]
                < k.stkinfo.len()
        &&& self.rules.exit_time_spec() <= s.exitqueue@[h]@.len()
        &&& forall|j: int|
            0 <= j < self.rules.exit_time_spec() ==> #[trigger] s.exitqueue@[h]@[j] < members.len()
        &&& k.keylocation is Some ==> h < s.queue@.len() && self.rules.replace_rate
            <= s.queue@[h]@.len()
        &&& b.validators@.len() <= i32::MAX
        &&& forall|i: int|
            0 <= i < shorter(self.votes@.len(), members.len()) ==> #[trigger] tallied(
                self.votes_without(k.exits),
                members,
                b.validators@,
            )[i] <= i32::MAX
    }

    /// The votes once those for the first two of the given seats are gone.
    pub open spec fn votes_without(&self, exits: Seq<usize>) -> Seq<i32> {
        self.votes@.update(exits[0] as int, 0).update(exits[1] as int, 0)
    }

    /// Whether what the ledger did for the block itself, and the seats that it
    /// selected afterwards, make sense.
    pub fn is_sensible(&self, b: &BlockSummary, own: &OwnWork, s: &Selection) -> (r: bool)
        requires
            self.rules.wf(),
        ensures
            r == self.sensible(*b, *own, *s),
    {
        let h: usize = self.headshard;
        let (queue, exitqueue, stakers): (&Vec<Vec<usize>>, &Vec<Vec<usize>>, usize) = match own {
            OwnWork::Empty(p) => (&self.queue, &self.exitqueue, p.stkinfo.len()),
            OwnWork::Scanned(c) => (&c.queue, &c.exitqueue, c.stkinfo.len()),
        };
        let ghost k = self.books(*own);
        if h >= queue.len() || h >= exitqueue.len() {
            return false;
        }
        assert(k.entries == queue@[h as int]@ && k.exits == exitqueue@[h as int]@);
        let exits: &Vec<usize> = &exitqueue[h];
        if queue[h].len() == 0 || exits.len() < 2 || exits[0] >= self.votes.len() || exits[1]
            >= self.votes.len() {
            return false;
        }
        if h >= s.exitqueue.len() || h >= s.comittee.len() {
            return false;
        }
        let members: &Vec<usize> = &s.comittee[h];
        let smaller: usize = if members.len() <= self.votes.len() {
            members.len()
        } else {
            self.votes.len()
        };
        if members.len() == 0 || !first_below(members, smaller, stakers) {
            return false;
        }
        if !first_below(&s.exitqueue[h], self.rules.exit_time(), members.len()) {
            return false;
        }
        let placed: bool = match own {
            OwnWork::Empty(_) => self.keylocation.is_some(),
            OwnWork::Scanned(c) => c.smine.is_some() || self.keylocation.is_some(),
        };
        if placed && (h >= s.queue.len() || self.rules.replace_rate > s.queue[h].len()) {
            return false;
        }
        if b.validators.len() > i32::MAX as usize {
            return false;
        }
        let fits: bool = countable(&self.votes, exits, members, &b.validators);
        proof {
            assert(self.votes_without(k.exits) == self.votes@.update(
                exits@[0] as int,
                0,
            ).update(exits@[1] as int, 0));
            assert(members@ == s.comittee@[h as int]@);
            assert(k.stkinfo.len() == stakers);
        }
        fits
    }

    /// Reads the block itself, given what the ledger did for it, the members
    /// that it selected afterwards and the coins that the node then has. The
    /// signatures under the block count as votes, a leader is chosen, the
    /// clocks start again, and the node finds its part.
    #[verifier::rlimit(40)]
    pub fn own_block(
        &mut self,
        b: &BlockSummary,
        m: &Vec<u8>,
        large: &Option<Vec<u8>>,
        own: OwnWork,
        s: Selection,
        amounts: &Vec<[u8; 32]>,
        now: u64,
    ) -> (r: OwnBlock)
        requires
            old(self).rules.wf(),
            old(self).bnum == b.bnum,
            b.bnum < u64::MAX,
            own is Empty <==> b.is_empty_spec(),
            own is Scanned ==> old(self).can_keep(*large),
            old(self).sensible(*b, own, s),
        ensures
            ({
                let h = old(self).headshard as int;
                let k = old(self).books(own);
                let members = s.comittee@[h]@;
                let changed = match own {
                    OwnWork::Empty(p) => p.paid,
                    OwnWork::Scanned(c) => c.stake_changed || c.coins_changed,
                };
                // what is told and stored
                &&& rows(r.frames@) == seq![
                    seq![if changed { 0u8 } else { 1u8 }, 1u8],
                    (le_bytes(integer_sum(amounts@) % group_order(), 8) + le_bytes(
                        stake_amount(k.smine) as nat,
                        8,
                    )).push(0),
                    le_bytes((b.bnum + 1) as nat, 8).push(2),
                    seq![if r.settled.seated { 1u8 } else { 0u8 }, 3u8],
                ]
                &&& r.archive.full is Some <==> !old(self).lightning_yielder
                &&& r.archive.full is Some ==> r.archive.full->0@ == (if own is Scanned {
                    large->0@
                } else {
                    Seq::<u8>::empty()
                })
                &&& r.archive.lightning@ == (if own is Scanned {
                    m@
                } else {
                    Seq::<u8>::empty()
                })
                // the books
                &&& final(self).smine == k.smine
                &&& final(self).keylocation == k.keylocation
                &&& final(self).stkinfo@ == k.stkinfo
                &&& final(self).queue == s.queue
                &&& final(self).exitqueue == s.exitqueue
                &&& final(self).comittee == s.comittee
                &&& final(self).newest == k.entries[0] as u64
                &&& final(self).bnum == b.bnum + 1
                &&& own is Scanned ==> final(self).lastname@ == scalar_name(m@)
                    && final(self).lastbnum == b.bnum && final(self).height
                    == own->Scanned_0.height && final(self).sheight == own->Scanned_0.sheight
                    && final(self).allnetwork == own->Scanned_0.allnetwork
                &&& own is Empty ==> final(self).lastname == old(self).lastname
                    && final(self).lastbnum == old(self).lastbnum && final(self).height
                    == old(self).height && final(self).sheight == old(self).sheight
                    && final(self).allnetwork == old(self).allnetwork
                // votes and leader
                &&& final(self).votes@.len() == shorter(old(self).votes@.len(), members.len())
                &&& forall|i: int|
                    0 <= i < final(self).votes@.len() ==> #[trigger] final(self).votes@[i] as int
                        == tallied(
                        old(self).votes_without(k.exits),
                        members,
                        b.validators@,
                    )[i]
                &&& final(self).leader == leading_key(
                    members,
                    final(self).votes@,
                    k.stkinfo,
                    leaving_members(
                        s.exitqueue@[h]@,
                        members,
                        old(self).rules.exit_time_spec() as nat,
                    ).to_set(),
                    old(self).overthrown@,
                )
                &&& final(self).overthrown@ == (if (b.bnum + 1) % FORGIVE_TIME as int == 0 {
                    Set::<Key>::empty()
                } else {
                    old(self).overthrown@
                })
                // of those who stay, and were not overthrown, one with the most
                // votes leads
                &&& forall|fit: int|
                    #![trigger members[fit]]
                    0 <= fit < members.len() && fit < final(self).votes@.len()
                        && final(self).votes@[fit] > i32::MIN && !old(self).overthrown@.contains(
                        k.stkinfo[members[fit] as int].0,
                    ) && (forall|j: int|
                        0 <= j < 5 * old(self).rules.replace_rate
                            ==> members[#[trigger] s.exitqueue@[h]@[j] as int] != members[fit])
                        ==> exists|w: int|
                        #![trigger members[w]]
                        0 <= w < members.len() && w < final(self).votes@.len()
                            && final(self).leader == k.stkinfo[members[w] as int].0
                            && !old(self).overthrown@.contains(final(self).leader) && (fit > w
                            ==> final(self).votes@[fit] < final(self).votes@[w])
                            && final(self).votes@[fit] <= final(self).votes@[w] && forall|j: int|
                            0 <= j < 5 * old(self).rules.replace_rate
                                ==> members[#[trigger] s.exitqueue@[h]@[j] as int] != members[w]
                // whoever was next to enter may choose the next transactions
                &&& final(self).may_choose(
                    (match own {
                        OwnWork::Empty(_) => old(self).queue@[h]@[0],
                        OwnWork::Scanned(c) => c.queue@[h]@[0],
                    }) as u64,
                )
                // where full blocks are kept, the full block is kept
                &&& large matches Some(full) ==> (own is Scanned && !old(self).lightning_yielder
                    ==> r.archive.full is Some && r.archive.full->0@ == full@)
                // the next round ends a block's time after the last one began,
                // even if this block came early
                &&& forall|then: u64, secs: u64|
                    final(self).is_validator && old(self).clocks.timekeeper < now && then >= old(
                        self,
                    ).clocks.timekeeper + (secs + 1) * 1_000_000_000 ==> #[trigger] final(self).round_over(then, secs)
                // every 128 blocks the overthrown are forgiven
                &&& (b.bnum + 1) % 128 == 0 ==> final(self).overthrown@ == Set::<Key>::empty()
                &&& (b.bnum + 1) % 128 != 0 ==> final(self).overthrown@ == old(self).overthrown@
                // the next block has to follow this one
                &&& forall|c: BlockSummary| #[trigger]
                    final(self).offered(c) is Verify ==> c.bnum > b.bnum && c.last_name@ == (
                    if b.no_txout && b.no_stkin && b.no_stkout {
                        old(self).lastname@
                    } else {
                        scalar_name(m@)
                    })
                &&& final(self).acceptable()
                // the part of the node, which always has one
                &&& final(self).is_validator <==> k.keylocation is Some && (members.contains(
                    k.keylocation->0 as usize,
                ) || exists|j: int|
                    0 <= j < old(self).rules.replace_rate && #[trigger] s.queue@[h]@[j]
                        == k.keylocation->0)
                &&& final(self).is_node || final(self).is_validator
                &&& r.settled.was_validator == old(self).is_validator
                &&& r.settled.seated == has_seat(members, k.keylocation)
                &&& r.settled.joins == (k.keylocation is Some && enters_soon(
                    s.queue@[h]@,
                    old(self).rules.replace_rate as int,
                    k.keylocation->0,
                ))
                &&& *final(self) == (KhoraNode {
                    smine: final(self).smine,
                    keylocation: final(self).keylocation,
                    stkinfo: final(self).stkinfo,
                    queue: s.queue,
                    exitqueue: s.exitqueue,
                    comittee: s.comittee,
                    newest: final(self).newest,
                    bnum: final(self).bnum,
                    lastname: final(self).lastname,
                    lastbnum: final(self).lastbnum,
                    height: final(self).height,
                    sheight: final(self).sheight,
                    allnetwork: final(self).allnetwork,
                    votes: final(self).votes,
                    leader: final(self).leader,
                    overthrown: final(self).overthrown,
                    is_validator: r.settled.seated || r.settled.joins,
                    is_node: !r.settled.seated || r.settled.joins,
                    waitingforentrybool: true,
                    waitingforleaderbool: false,
                    clocks: (Clocks {
                        timekeeper: now,
                        waitingforleader: now,
                        waitingforentry: now,
                        usurping: now,
                        doneerly: old(self).clocks.timekeeper,
                        gui: old(self).clocks.gui,
                    }),
                    ..*old(self)
                })
            }),
    {
        let ghost start = *self;
        let ghost k = self.books(own);
        let ghost given = own;
        let mut frames: Vec<Vec<u8>> = Vec::new();
        let archive: Archive;
        match own {
            OwnWork::Empty(p) => {
                archive = self.archive(Work::PayEmpty, m, large);
                frames.push(self.paid(p, false));
            },
            OwnWork::Scanned(c) => {
                archive = self.archive(Work::Scan, m, large);
                frames.push(self.scanned(c, m));
            },
        }
        self.leave_seats(true);
        assert(self.votes@ == start.votes_without(k.exits));
        self.seated(s);
        let settled: Settled = self.settle(b, now);
        let staked: Option<u64> = match self.smine {
            Some(stake) => Some(stake.amount),
            None => None,
        };
        frames.push(staker_money_frame(amounts, staked));
        frames.push(block_number_frame(self.bnum));
        frames.push(seat_frame(settled.seated));
        assert(rows(frames@) =~= seq![
            frames@[0]@,
            frames@[1]@,
            frames@[2]@,
            frames@[3]@,
        ]);
        proof {
            let h = start.headshard as int;
            let members = s.comittee@[h]@;
            let exits = s.exitqueue@[h]@;
            let count = (5 * start.rules.replace_rate) as nat;
            crate::rules::the_exit_window_is_five_blocks(start.rules);
            assert forall|fit: int|
                #![trigger members[fit]]
                0 <= fit < members.len() && fit < self.votes@.len() && self.votes@[fit] > i32::MIN
                    && !start.overthrown@.contains(k.stkinfo[members[fit] as int].0) && (forall|
                    j: int,
                |
                    0 <= j < count ==> members[#[trigger] exits[j] as int] != members[fit]) implies (
            exists|w: int|
                #![trigger members[w]]
                0 <= w < members.len() && w < self.votes@.len() && self.leader
                    == k.stkinfo[members[w] as int].0 && !start.overthrown@.contains(self.leader)
                    && (fit > w ==> self.votes@[fit] < self.votes@[w]) && self.votes@[fit]
                    <= self.votes@[w]
                    && forall|j: int|
                    0 <= j < count ==> members[#[trigger] exits[j] as int] != members[w]) by {
                let w = crate::block::those_who_leave_soon_do_not_lead(
                    members,
                    exits,
                    count,
                    self.votes@,
                    k.stkinfo,
                    start.overthrown@,
                    fit,
                );
                assert(members[w] == members[w]);
            }
            assert forall|then: u64, secs: u64|
                self.is_validator && start.clocks.timekeeper < now && then
                    >= start.clocks.timekeeper + (secs + 1) * 1_000_000_000 implies #[trigger]
            self.round_over(then, secs) by {
                crate::rounds::clocks_call_in_time(*self, self.leader, 0, then, secs);
            }
            if k.keylocation is Some {
                let place = k.keylocation->0;
                let entries = s.queue@[h]@;
                let rate = start.rules.replace_rate as int;
                if enters_soon(entries, rate, place) {
                    let j = choose|j: int|
                        0 <= j < rate && #[trigger] entries[j] as u64 == place;
                    assert(entries[j] == place);
                }
                if exists|j: int| 0 <= j < rate && #[trigger] entries[j] == place {
                    let j = choose|j: int| 0 <= j < rate && #[trigger] entries[j] == place;
                    crate::block::rows_tell_who_sits_and_who_enters(
                        entries,
                        rate,
                        members,
                        place,
                        j,
                    );
                }
            }
        }
        OwnBlock { frames, archive, settled }
    }
}

/// The part of a node after a block: whoever has a seat or is about to enter
/// listens as a validator, whoever has none listens as a plain node, and so
/// does whoever is about to enter. In particular a staker who neither has a
/// seat nor is about to enter is a plain node and nothing else.
pub proof fn parts_follow_seats(settled: Settled, after: KhoraNode)
    requires
        after.is_validator == (settled.seated || settled.joins),
        after.is_node == (!settled.seated || settled.joins),
    ensures
        !settled.seated && !settled.joins ==> after.is_node && !after.is_validator,
        settled.seated && !settled.joins ==> !after.is_node && after.is_validator,
        settled.joins ==> after.is_node && after.is_validator,
{
}

/// What the ledger did is what the node goes by: after an empty block the
/// place, the queues and the exits are the node's own, after any other block
/// they are those of the ledger, and a stake makes known the place.
pub proof fn books_are_the_ledgers(n: KhoraNode, p: Payment, c: Scan)
    ensures
        ({
            let h = n.headshard as int;
            let paid = n.books(OwnWork::Empty(p));
            let scanned = n.books(OwnWork::Scanned(c));
            &&& paid.smine == p.smine && paid.stkinfo == p.stkinfo@
            &&& paid.keylocation == n.keylocation
            &&& paid.entries == n.queue@[h]@ && paid.exits == n.exitqueue@[h]@
            &&& scanned.smine == c.smine && scanned.stkinfo == c.stkinfo@
            &&& c.smine matches Some(stake) ==> scanned.keylocation == Some(stake.place)
            &&& c.smine is None ==> scanned.keylocation == n.keylocation
            &&& scanned.entries == c.queue@[h]@ && scanned.exits == c.exitqueue@[h]@
        }),
{
}

/// The votes for the first two of the given seats are gone, and no others.
pub proof fn two_given_seats_lose_their_votes(n: KhoraNode, exits: Seq<usize>, seat: int)
    requires
        0 <= seat < n.votes@.len(),
        exits[0] < n.votes@.len(),
        exits[1] < n.votes@.len(),
    ensures
        n.votes_without(exits).len() == n.votes@.len(),
        n.votes_without(exits)[seat] == (if seat == exits[0] || seat == exits[1] {
            0i32
        } else {
            n.votes@[seat]
        }),
{
}

} // verus!
