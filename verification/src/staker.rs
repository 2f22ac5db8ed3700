//! A full staker's node. Its validators sign blocks with transactions one by
//! one, and an empty block together: each sends a commitment, the leader sends
//! their sum, each answers the challenge that follows from it, and the leader
//! checks the answers.

use crate::bytes::{copy_bytes, cut, extend, le_bytes, le_nat, u64_at, u64_bytes};
use crate::clock::{seconds, seconds_since, SECOND};
use crate::digest::{answer_fits, check_answer, decompresses, group_order, integer_sum, is_point,
    scalar_name, scalar_of, total_low_bytes};
use crate::election::holds;
use crate::frame::{tagged, ENTRY};
use crate::keys::{key_bytes, same_key, Key};
use crate::net::PeerId;
use crate::node::{remainder_rows, remainders, Stake, SHARDS};
use crate::ring::has_place;
use crate::rounds::{count_seats, seats_of};
use crate::table::{distinct_places, has_line, line_map, list_lines, table_of, Line};
use crate::wire::{pack_list, packed_list, rows};
use std::collections::HashMap;
use vstd::prelude::*;

verus! {

broadcast use vstd::std_specs::hash::group_hash_axioms;

/// A transaction is cut to this length.
pub const LONGEST: usize = 10_000;

/// The place in the table of commitments at which their sum stands.
pub const SUM_PLACE: usize = usize::MAX;

/// How many members the ring of a transaction has.
pub const RING_SIZE: u16 = 15;

/// A full staker's node.
pub struct StakerNode {
    /// seats in a committee
    pub validators: usize,
    /// whom the node does not listen to
    pub bannedlist: Vec<PeerId>,
    /// the node's own stakes
    pub smine: Vec<Stake>,
    /// the node's places in the list of stakers
    pub keylocation: Vec<u64>,
    /// who is to make the next block
    pub leader: Key,
    /// the stakers and their stakes
    pub stkinfo: Vec<(Key, u64)>,
    /// for each shard, who is to enter the committee, next first
    pub queue: Vec<Vec<usize>>,
    /// for each shard, the seats to be left, next first
    pub exitqueue: Vec<Vec<usize>>,
    /// for each shard, who sits in the committee
    pub comittee: Vec<Vec<usize>>,
    /// the name of the last block
    pub lastname: Vec<u8>,
    /// the number of the next block
    pub bnum: u64,
    /// coins ever made
    pub height: u64,
    /// stakes ever made
    pub sheight: u64,
    /// transactions that wait for a block
    pub txses: Vec<Vec<u8>>,
    /// whether an empty block is being signed
    pub multisig: bool,
    /// commitments by the places of those who made them, and their sum
    pub points: HashMap<usize, Key>,
    /// answers by the places of those who gave them
    pub scalars: HashMap<usize, Key>,
    /// when the current round began
    pub timekeeper: u64,
    /// whether the sum of the commitments was sent
    pub stepeven: bool,
}

/// The stakers and the seats once the ledger took a block into the books and
/// selected the next members.
pub struct StakerBooks {
    pub stkinfo: Vec<(Key, u64)>,
    pub queue: Vec<Vec<usize>>,
    pub exitqueue: Vec<Vec<usize>>,
    pub comittee: Vec<Vec<usize>>,
}

/// The node's own stakes, and the counts of coins and stakes, after a block.
pub struct OwnBooks {
    pub smine: Vec<Stake>,
    pub height: u64,
    pub sheight: u64,
}

/// What a member does about the transactions for the next block.
#[derive(Clone, Copy, PartialEq, Eq, Structural)]
pub enum EntryAnswer {
    /// signs a block and sends the signature this often
    Sign { copies: usize },
    /// makes a commitment to an empty block and sends it, if it has a seat
    Commit { send: bool },
    /// nothing
    Nothing,
}

/// What became of a commitment or an answer.
#[derive(Clone, Copy, PartialEq, Eq, Structural)]
pub enum Taken {
    /// it is not by a member of the committee
    Ignored,
    /// it was kept
    Kept,
    /// it is by a member, and is not what it has to be
    Malformed,
}

/// What came of the answers.
pub enum Closing {
    /// they cannot be checked: an answer or a key is missing or is no point
    Unjudged,
    /// all are good: an empty block can be made of the sum of the commitments
    /// and of the answers
    AllGood { sum: Key, answers: Vec<Line> },
    /// some are bad: those who gave good ones go on, with these commitments
    SomeBad { left: Vec<Line> },
}

/// Of the first `n` members, `w` is the last among those with the highest
/// stake.
pub open spec fn is_richest(members: Seq<usize>, stakers: Seq<(Key, u64)>, n: int, w: int) -> bool {
    &&& 0 <= w < n
    &&& forall|i: int|
        0 <= i < n ==> stakers[#[trigger] members[i] as int].1 <= stakers[members[w] as int].1
    &&& forall|i: int|
        w < i < n ==> stakers[#[trigger] members[i] as int].1 < stakers[members[w] as int].1
}

/// The key of the richest member.
pub fn richest(members: &Vec<usize>, stakers: &Vec<(Key, u64)>) -> (r: Key)
    requires
        members@.len() > 0,
        forall|i: int| 0 <= i < members@.len() ==> #[trigger] members@[i] < stakers@.len(),
    ensures
        exists|w: int|
            #![trigger members@[w]]
            is_richest(members@, stakers@, members@.len() as int, w) && r
                == stakers@[members@[w] as int].0,
{
    let mut best: usize = 0;
    let mut i: usize = 1;
    while i < members.len()
        invariant
            1 <= i <= members@.len(),
            best < i,
            forall|j: int| 0 <= j < members@.len() ==> #[trigger] members@[j] < stakers@.len(),
            is_richest(members@, stakers@, i as int, best as int),
        decreases members@.len() - i,
    {
        assert(members@[i as int] < stakers@.len());
        assert(members@[best as int] < stakers@.len());
        if stakers[members[i]].1 >= stakers[members[best]].1 {
            best = i;
        }
        i = i + 1;
    }
    assert(members@[best as int] < stakers@.len());
    stakers[members[best]].0
}

/// How many seats have a line in the table.
pub open spec fn covered(members: Seq<usize>, table: Map<usize, Key>) -> nat
    decreases members.len(),
{
    if members.len() == 0 {
        0
    } else {
        covered(members.drop_last(), table) + (if table.contains_key(members.last()) {
            1nat
        } else {
            0
        })
    }
}

/// Counts the seats that have a line in the table.
pub fn count_covered(members: &Vec<usize>, table: &HashMap<usize, Key>) -> (r: usize)
    ensures
        r == covered(members@, table@),
{
    let mut count: usize = 0;
    let mut i: usize = 0;
    while i < members.len()
        invariant
            i <= members@.len(),
            count == covered(members@.subrange(0, i as int), table@),
            count <= i,
        decreases members@.len() - i,
    {
        proof {
            assert(members@.subrange(0, i + 1).drop_last() =~= members@.subrange(0, i as int));
        }
        if table.contains_key(&members[i]) {
            count = count + 1;
        }
        i = i + 1;
    }
    assert(members@.subrange(0, i as int) =~= members@);
    count
}

fn as_value(m: &Vec<u8>) -> (r: Key)
    requires
        m@.len() == 32,
    ensures
        r@ == m@,
{
    let mut out: Key = [0u8; 32];
    let mut i: usize = 0;
    while i < 32
        invariant
            i <= 32,
            m@.len() == 32,
            forall|j: int| 0 <= j < i ==> out@[j] == m@[j],
        decreases 32 - i,
    {
        out[i] = m[i];
        i = i + 1;
    }
    assert(out@ =~= m@);
    out
}

/// The answer to a question for an account in the history: the account, the
/// place that was asked for and the mark of such an answer.
pub fn history_answer(account: &Vec<u8>, question: &Vec<u8>) -> (r: Vec<u8>)
    requires
        question@.len() >= 8,
    ensures
        r@ == (account@ + question@.subrange(0, 8)).push(254),
        r@.len() == account@.len() + 9,
        r@.subrange(0, account@.len() as int) == account@,
        r@.subrange(account@.len() as int, account@.len() as int + 8) == question@.subrange(0, 8),
{
    let mut out: Vec<u8> = copy_bytes(account);
    let place: Vec<u8> = cut(question, 0, 8);
    extend(&mut out, &place);
    out.push(254);
    proof {
        assert(out@.subrange(0, account@.len() as int) =~= account@);
        assert(out@.subrange(account@.len() as int, account@.len() as int + 8) =~= place@);
    }
    out
}

/// The place in the history that a question asks for.
pub fn asked_place(question: &Vec<u8>) -> (r: u64)
    requires
        question@.len() >= 8,
    ensures
        r as nat == le_nat(question@.subrange(0, 8)),
{
    u64_at(question, 0)
}

/// The money that coins add up to, as far as 64 bits hold it.
pub fn money(amounts: &Vec<[u8; 32]>) -> (r: u64)
    ensures
        r as nat == le_nat(le_bytes(integer_sum(amounts@) % group_order(), 8)),
        integer_sum(amounts@) <= u64::MAX ==> r == integer_sum(amounts@),
{
    let low: Vec<u8> = total_low_bytes(amounts);
    proof {
        crate::bytes::lemma_le_bytes_len(integer_sum(amounts@) % group_order(), 8);
        assert(low@.subrange(0, 8) =~= low@);
        if integer_sum(amounts@) <= u64::MAX {
            crate::frame::money_is_shown_as_it_adds_up(amounts@);
        }
    }
    u64_at(&low, 0)
}

/// What the leader of an empty block signs: the keyword of blocks, the number
/// of the block, the name of the block before, and the packed signature of the
/// members.
pub open spec fn empty_block(
    keyword: Seq<u8>,
    bnum: u64,
    lastname: Seq<u8>,
    signature: Seq<u8>,
) -> Seq<u8> {
    keyword + le_bytes(bnum as nat, 8) + lastname + signature
}

impl StakerNode {
    /// The node of someone who joins at the beginning of the chain. Everyone
    /// agrees that `founder` starts with one token.
    pub fn begin(validators: usize, founder: Key, own_key: Key, now: u64) -> (r: StakerNode)
        requires
            validators > 0,
        ensures
            r.validators == validators,
            r.bannedlist@.len() == 0,
            r.smine@ == (if founder == own_key {
                seq![Stake { place: 0, amount: 1 }]
            } else {
                Seq::<Stake>::empty()
            }),
            r.keylocation@ == (if founder == own_key {
                seq![0u64]
            } else {
                Seq::<u64>::empty()
            }),
            r.leads() <==> founder == own_key,
            r.smine@.len() == r.keylocation@.len(),
            forall|i: int|
                0 <= i < r.smine@.len() ==> r.stkinfo@[(#[trigger] r.smine@[i]).place as int] == (
                    own_key,
                    r.smine@[i].amount,
                ) && r.keylocation@[i] == r.smine@[i].place,
            r.leader == founder,
            r.stkinfo@ == seq![(founder, 1u64)],
            rows(r.queue@) == remainders(SHARDS as nat, validators as nat, 1),
            rows(r.exitqueue@) == remainders(SHARDS as nat, validators as nat, validators as int),
            rows(r.comittee@) == remainders(SHARDS as nat, validators as nat, 1),
            r.lastname@.len() == 0,
            r.bnum == 1,
            r.height == 0,
            r.sheight == 1,
            r.txses@.len() == 0,
            !r.multisig,
            r.points@ == Map::<usize, Key>::empty(),
            r.scalars@ == Map::<usize, Key>::empty(),
            r.timekeeper == now,
            !r.stepeven,
            r.places_ok(),
    {
        let mut smine: Vec<Stake> = Vec::new();
        let mut keylocation: Vec<u64> = Vec::new();
        if same_key(&founder, &own_key) {
            smine.push(Stake { place: 0, amount: 1 });
            keylocation.push(0);
        }
        let mut stkinfo: Vec<(Key, u64)> = Vec::new();
        stkinfo.push((founder, 1));
        assert(stkinfo@ =~= seq![(founder, 1u64)]);
        proof {
            if founder == own_key {
                assert(keylocation@[0] == 0 && stkinfo@[0].0 == founder);
            }
        }
        StakerNode {
            validators,
            bannedlist: Vec::new(),
            smine,
            keylocation,
            leader: founder,
            stkinfo,
            queue: remainder_rows(SHARDS, validators, 1),
            exitqueue: remainder_rows(SHARDS, validators, validators),
            comittee: remainder_rows(SHARDS, validators, 1),
            lastname: Vec::new(),
            bnum: 1,
            height: 0,
            sheight: 1,
            txses: Vec::new(),
            multisig: false,
            points: HashMap::new(),
            scalars: HashMap::new(),
            timekeeper: now,
            stepeven: false,
        }
    }

    /// Whether the node listens to a peer.
    pub fn listens_to(&self, peer: PeerId) -> (r: bool)
        ensures
            r == !self.bannedlist@.contains(peer),
    {
        let mut i: usize = 0;
        while i < self.bannedlist.len()
            invariant
                i <= self.bannedlist@.len(),
                forall|j: int| 0 <= j < i ==> self.bannedlist@[j] != peer,
            decreases self.bannedlist@.len() - i,
        {
            if self.bannedlist[i] == peer {
                assert(self.bannedlist@[i as int] == peer);
                return false;
            }
            i = i + 1;
        }
        true
    }

    /// Takes a transaction, as much of it as is kept.
    pub fn take_transaction(&mut self, m: &Vec<u8>)
        ensures
            rows(final(self).txses@) == rows(old(self).txses@).push(
                if m@.len() <= LONGEST {
                    m@
                } else {
                    m@.subrange(0, LONGEST as int)
                },
            ),
            final(self).txses@.len() == old(self).txses@.len() + 1,
            final(self).txses@.last()@.len() <= 10_000,
            m@.len() <= 10_000 ==> final(self).txses@.last()@ == m@,
            *final(self) == (StakerNode { txses: final(self).txses, ..*old(self) }),
    {
        let ghost before = rows(self.txses@);
        let tx: Vec<u8> = if m.len() <= LONGEST {
            copy_bytes(m)
        } else {
            cut(m, 0, LONGEST)
        };
        let ghost kept = tx@;
        self.txses.push(tx);
        assert(rows(self.txses@) =~= before.push(kept));
    }

    /// The committee that makes the blocks.
    pub open spec fn members(&self) -> Seq<usize> {
        self.comittee@[0]@
    }

    /// What the node does, at one of its places, about the transactions for the
    /// next block: given how many of them a block can hold and whether there is
    /// no signature under an empty block, it signs, or makes a commitment.
    pub fn answer_entry(&self, place: u64, held: usize, unsigned: bool) -> (r: EntryAnswer)
        requires
            self.comittee@.len() > 0,
        ensures
            r matches EntryAnswer::Commit { send } ==> (send <==> exists|i: int|
                0 <= i < self.comittee@[0]@.len() && #[trigger] self.comittee@[0]@[i] == place),
            r matches EntryAnswer::Sign { copies } ==> (copies > 0 <==> exists|i: int|
                0 <= i < self.comittee@[0]@.len() && #[trigger] self.comittee@[0]@[i] == place),
            r == (if held > 0 {
                EntryAnswer::Sign { copies: seats_of(self.members(), place) as usize }
            } else if unsigned {
                EntryAnswer::Commit { send: seats_of(self.members(), place) > 0 }
            } else {
                EntryAnswer::Nothing
            }),
    {
        let seats: usize = count_seats(&self.comittee[0], place);
        proof {
            crate::rounds::those_in_the_row_have_seats(self.comittee@[0]@, place);
        }
        if held > 0 {
            EntryAnswer::Sign { copies: seats }
        } else if unsigned {
            EntryAnswer::Commit { send: seats > 0 }
        } else {
            EntryAnswer::Nothing
        }
    }

    /// The node has a seat: one of the members is at one of its places.
    pub open spec fn seated_somewhere(&self) -> bool {
        exists|i: int|
            0 <= i < self.members().len() && self.keylocation@.contains(
                #[trigger] self.members()[i] as u64,
            )
    }

    /// Whether the node answers the sum of the commitments, once for each of
    /// its places: it does if it has a seat at all.
    pub fn answers_sum(&self) -> (r: bool)
        requires
            self.comittee@.len() > 0,
        ensures
            r == self.seated_somewhere(),
    {
        let mut i: usize = 0;
        while i < self.comittee[0].len()
            invariant
                self.comittee@.len() > 0,
                i <= self.members().len(),
                forall|j: int|
                    0 <= j < i ==> !self.keylocation@.contains(#[trigger] self.members()[j] as u64),
            decreases self.members().len() - i,
        {
            if has_place(&self.keylocation, self.comittee[0][i] as u64) {
                assert(self.keylocation@.contains(self.members()[i as int] as u64));
                return true;
            }
            i = i + 1;
        }
        false
    }

    /// The message that commitments and answers are about: the leader and the
    /// name of the last block.
    pub fn challenge_message(&self) -> (r: Vec<u8>)
        ensures
            r@ == self.leader@ + self.lastname@,
    {
        let mut out: Vec<u8> = key_bytes(&self.leader);
        extend(&mut out, &self.lastname);
        out
    }

    /// Takes a commitment that `who` signed.
    pub fn take_commitment(&mut self, who: usize, m: &Vec<u8>) -> (r: Taken)
        requires
            old(self).comittee@.len() > 0,
        ensures
            r == (if !old(self).members().contains(who) {
                Taken::Ignored
            } else if m@.len() == 32 && is_point(m@) {
                Taken::Kept
            } else {
                Taken::Malformed
            }),
            final(self).points@ != old(self).points@ ==> old(self).comittee@[0]@.contains(who),
            forall|p: usize|
                p != who ==> (#[trigger] final(self).points@.contains_key(p) == old(
                    self,
                ).points@.contains_key(p)) && final(self).points@[p] == old(self).points@[p],
            r != Taken::Kept ==> final(self).points@ == old(self).points@,
            r == Taken::Kept ==> exists|value: Key| #[trigger]
                value@ == m@ && final(self).points@ == old(self).points@.insert(who, value),
            *final(self) == (StakerNode { points: final(self).points, ..*old(self) }),
    {
        if !holds(&self.comittee[0], who) {
            return Taken::Ignored;
        }
        if m.len() != 32 {
            return Taken::Malformed;
        }
        let value: Key = as_value(m);
        if !decompresses(&value) {
            return Taken::Malformed;
        }
        self.points.insert(who, value);
        Taken::Kept
    }

    /// Takes an answer that `who` signed. As a scalar, its highest bit is ignored.
    pub fn take_answer(&mut self, who: usize, m: &Vec<u8>) -> (r: Taken)
        requires
            old(self).comittee@.len() > 0,
        ensures
            r == (if !old(self).members().contains(who) {
                Taken::Ignored
            } else if m@.len() == 32 {
                Taken::Kept
            } else {
                Taken::Malformed
            }),
            final(self).scalars@ != old(self).scalars@ ==> old(self).comittee@[0]@.contains(who),
            forall|p: usize|
                p != who ==> (#[trigger] final(self).scalars@.contains_key(p) == old(
                    self,
                ).scalars@.contains_key(p)) && final(self).scalars@[p] == old(self).scalars@[p],
            r != Taken::Kept ==> final(self).scalars@ == old(self).scalars@,
            r == Taken::Kept ==> exists|value: Key| #[trigger]
                value@ == m@ && final(self).scalars@ == old(self).scalars@.insert(who, value),
            *final(self) == (StakerNode { scalars: final(self).scalars, ..*old(self) }),
    {
        if !holds(&self.comittee[0], who) {
            return Taken::Ignored;
        }
        if m.len() != 32 {
            return Taken::Malformed;
        }
        let value: Key = as_value(m);
        self.scalars.insert(who, value);
        Taken::Kept
    }

    /// Whether a block is taken: it is sound, and it names the last block as the
    /// one before it.
    pub fn takes_block(&self, last_name: &Vec<u8>, sound: bool) -> (r: bool)
        ensures
            r == (sound && last_name@ == self.lastname@),
            !sound || last_name@ != self.lastname@ ==> !r,
    {
        sound && crate::bytes::same_bytes(last_name, &self.lastname)
    }

    /// Takes in a block by someone else that the ledger took into the books: it
    /// becomes the last one under the name of its lightning form, and the
    /// member with the highest stake leads from now on.
    pub fn block_read(&mut self, lightning: &Vec<u8>, books: StakerBooks, own: OwnBooks)
        requires
            old(self).bnum < u64::MAX,
            books.comittee@.len() > 0,
            books.comittee@[0]@.len() > 0,
            forall|i: int|
                0 <= i < books.comittee@[0]@.len() ==> #[trigger] books.comittee@[0]@[i]
                    < books.stkinfo@.len(),
        ensures
            final(self).lastname@ == scalar_name(lightning@),
            exists|w: int|
                #![trigger books.comittee@[0]@[w]]
                is_richest(
                    books.comittee@[0]@,
                    books.stkinfo@,
                    books.comittee@[0]@.len() as int,
                    w,
                ) && final(self).leader == books.stkinfo@[books.comittee@[0]@[w] as int].0,
            *final(self) == (StakerNode {
                lastname: final(self).lastname,
                leader: final(self).leader,
                stkinfo: books.stkinfo,
                queue: books.queue,
                exitqueue: books.exitqueue,
                comittee: books.comittee,
                smine: own.smine,
                height: own.height,
                sheight: own.sheight,
                bnum: (old(self).bnum + 1) as u64,
                ..*old(self)
            }),
    {
        self.lastname = key_bytes(&scalar_of(lightning));
        self.leader = richest(&books.comittee[0], &books.stkinfo);
        self.stkinfo = books.stkinfo;
        self.queue = books.queue;
        self.exitqueue = books.exitqueue;
        self.comittee = books.comittee;
        self.smine = own.smine;
        self.height = own.height;
        self.sheight = own.sheight;
        self.bnum = self.bnum + 1;
    }

    /// The node's places make sense.
    pub open spec fn places_ok(&self) -> bool {
        forall|i: int|
            0 <= i < self.keylocation@.len() ==> #[trigger] self.keylocation@[i]
                < self.stkinfo@.len()
    }

    /// Whether the node's places make sense.
    pub fn are_places_ok(&self) -> (r: bool)
        ensures
            r == self.places_ok(),
    {
        let stakers: usize = self.stkinfo.len();
        let mut i: usize = 0;
        while i < self.keylocation.len()
            invariant
                i <= self.keylocation@.len(),
                stakers == self.stkinfo@.len(),
                forall|j: int| 0 <= j < i ==> #[trigger] self.keylocation@[j] < stakers,
            decreases self.keylocation@.len() - i,
        {
            if self.keylocation[i] >= stakers as u64 {
                assert(!(self.keylocation@[i as int] < stakers));
                return false;
            }
            i = i + 1;
        }
        true
    }

    /// The node leads: the leader's key is at one of its places.
    pub open spec fn leads(&self) -> bool {
        exists|i: int|
            0 <= i < self.keylocation@.len() && self.stkinfo@[#[trigger] self.keylocation@[i] as int].0
                == self.leader
    }

    /// Whether the node leads.
    pub fn is_leader(&self) -> (r: bool)
        requires
            self.places_ok(),
        ensures
            r == self.leads(),
    {
        let stakers: usize = self.stkinfo.len();
        let mut i: usize = 0;
        while i < self.keylocation.len()
            invariant
                i <= self.keylocation@.len(),
                stakers == self.stkinfo@.len(),
                self.places_ok(),
                forall|j: int|
                    0 <= j < i ==> self.stkinfo@[#[trigger] self.keylocation@[j] as int].0
                        != self.leader,
            decreases self.keylocation@.len() - i,
        {
            assert(self.keylocation@[i as int] < stakers);
            if same_key(&self.stkinfo[self.keylocation[i] as usize].0, &self.leader) {
                return true;
            }
            i = i + 1;
        }
        false
    }

    /// It is time for the leader to finish a block: two thirds of the
    /// validators signed, or after a while half of them.
    pub open spec fn signatures_due(&self, signatures: usize, now: u64) -> bool {
        self.leads() && (signatures > 2 * (self.validators / 3) || (signatures > self.validators / 2
            && seconds(now, self.timekeeper) > 30))
    }

    /// Whether it is time to finish a block.
    pub fn is_signatures_due(&self, signatures: usize, now: u64) -> (r: bool)
        requires
            self.places_ok(),
        ensures
            r == self.signatures_due(signatures, now),
            r && self.validators >= 3 ==> 2 * signatures > self.validators,
    {
        proof {
            if self.validators >= 3 && self.signatures_due(signatures, now) {
                minorities_make_no_blocks(*self, signatures, now);
            }
        }
        self.is_leader() && (signatures > 2 * (self.validators / 3) || (signatures > self.validators
            / 2 && seconds_since(now, self.timekeeper) > 30))
    }

    /// The leader could not finish a block, and a round begins.
    pub fn finish_failed(&mut self, now: u64)
        ensures
            !final(self).entry_due(now),
            *final(self) == (StakerNode { timekeeper: now, ..*old(self) }),
    {
        self.timekeeper = now;
    }

    /// The leader made a block of the signatures, packed as `m`, and the ledger
    /// took it into the books: it becomes the last one, and a round begins.
    pub fn finished(&mut self, m: &Vec<u8>, books: StakerBooks, now: u64)
        requires
            old(self).bnum < u64::MAX,
        ensures
            final(self).lastname@ == scalar_name(m@),
            !final(self).entry_due(now),
            *final(self) == (StakerNode {
                lastname: final(self).lastname,
                stkinfo: books.stkinfo,
                queue: books.queue,
                exitqueue: books.exitqueue,
                comittee: books.comittee,
                bnum: (old(self).bnum + 1) as u64,
                timekeeper: now,
                ..*old(self)
            }),
    {
        self.lastname = key_bytes(&scalar_of(m));
        self.stkinfo = books.stkinfo;
        self.queue = books.queue;
        self.exitqueue = books.exitqueue;
        self.comittee = books.comittee;
        self.bnum = self.bnum + 1;
        self.timekeeper = now;
    }

    /// It is time for the leader to send the sum of the commitments: it was not
    /// sent, and more than two thirds of the seats made one.
    pub open spec fn sum_due(&self, now: u64) -> bool {
        !self.stepeven && self.leads() && self.multisig && seconds(now, self.timekeeper) > 1
            && covered(self.members(), self.points@) > (2 * self.validators) / 3
    }

    /// The commitments, once it is time to send their sum.
    pub fn commitments_to_sum(&self, now: u64) -> (r: Option<Vec<Line>>)
        requires
            self.places_ok(),
            self.comittee@.len() > 0,
            2 * self.validators <= usize::MAX,
        ensures
            r is Some <==> self.sum_due(now),
            r is Some ==> 3 * covered(self.comittee@[0]@, self.points@) > 2 * self.validators,
            r matches Some(lines) ==> distinct_places(lines@) && line_map(lines@) == self.points@,
    {
        if !self.stepeven && self.is_leader() && self.multisig && seconds_since(
            now,
            self.timekeeper,
        ) > 1 && count_covered(&self.comittee[0], &self.points) > (2 * self.validators) / 3 {
            Some(list_lines(&self.points))
        } else {
            None
        }
    }

    /// The sum of the commitments was sent: it is kept, and answers to it are
    /// waited for.
    pub fn sum_sent(&mut self, sum: Key)
        ensures
            final(self).points@ == old(self).points@.insert(SUM_PLACE, sum),
            *final(self) == (StakerNode {
                points: final(self).points,
                stepeven: true,
                ..*old(self)
            }),
    {
        self.points.insert(SUM_PLACE, sum);
        self.stepeven = true;
    }

    /// It is time for the leader to check the answers: more than two thirds of
    /// the seats gave one.
    pub open spec fn answers_due(&self, now: u64) -> bool {
        self.stepeven && self.points@.contains_key(SUM_PLACE) && self.leads() && self.multisig
            && seconds(now, self.timekeeper) > 2 && covered(self.members(), self.scalars@) > (2
            * self.validators) / 3
    }

    /// Whether it is time to check the answers.
    pub fn is_answers_due(&self, now: u64) -> (r: bool)
        requires
            self.places_ok(),
            self.comittee@.len() > 0,
            2 * self.validators <= usize::MAX,
        ensures
            r == self.answers_due(now),
            r ==> 3 * covered(self.comittee@[0]@, self.scalars@) > 2 * self.validators,
    {
        self.stepeven && self.points.contains_key(&SUM_PLACE) && self.is_leader() && self.multisig
            && seconds_since(now, self.timekeeper) > 2 && count_covered(
            &self.comittee[0],
            &self.scalars,
        ) > (2 * self.validators) / 3
    }

    /// The challenge: what identifies the leader, the last block and the sum of
    /// the commitments together.
    pub open spec fn challenge(&self) -> Seq<u8> {
        scalar_name(self.leader@ + self.lastname@ + self.points@[SUM_PLACE]@)
    }

    /// The answer of whoever is at `place` can be checked.
    pub open spec fn checkable(&self, place: usize, generator: Key) -> bool {
        &&& place < self.stkinfo@.len()
        &&& self.scalars@.contains_key(place)
        &&& is_point(self.points@[place]@)
        &&& is_point(self.stkinfo@[place as int].0@)
        &&& is_point(generator@)
    }

    /// The answer of whoever is at `place` is good: it fits, and it is by a
    /// member of the committee.
    pub open spec fn good(&self, place: usize, generator: Key) -> bool {
        answer_fits(
            self.points@[place]@,
            self.challenge(),
            self.stkinfo@[place as int].0@,
            self.scalars@[place]@,
            generator@,
        ) && self.members().contains(place)
    }

    /// Whether `place` made a commitment.
    pub open spec fn committed(&self, place: usize) -> bool {
        place != SUM_PLACE && self.points@.contains_key(place)
    }

    /// The commitments of those whose answers are good.
    pub open spec fn good_commitments(&self, generator: Key) -> Map<usize, Key> {
        Map::new(
            |p: usize| self.committed(p) && self.good(p, generator),
            |p: usize| self.points@[p],
        )
    }

    fn check_place(&self, place: usize, commitment: &Key, challenge: &[u8; 32], generator: &Key)
        -> (r: Option<bool>)
        requires
            self.comittee@.len() > 0,
            self.points@.contains_key(SUM_PLACE),
            self.points@[place] == *commitment,
            challenge@ == self.challenge(),
        ensures
            r == (if self.checkable(place, *generator) {
                Some(self.good(place, *generator))
            } else {
                None
            }),
    {
        if place >= self.stkinfo.len() {
            return None;
        }
        match self.scalars.get(&place) {
            None => None,
            Some(answer) => {
                let fits: Option<bool> = check_answer(
                    commitment,
                    challenge,
                    &self.stkinfo[place].0,
                    answer,
                    generator,
                );
                match fits {
                    Some(f) => Some(f && holds(&self.comittee[0], place)),
                    None => None,
                }
            },
        }
    }

    /// Checks the answers. If all are good the empty block is made and a round
    /// begins. If some are bad, those who gave good ones make another try,
    /// which begins with `weed_out` once their commitments are summed. Answers
    /// that cannot be checked change nothing.
    pub fn close_empty_block(&mut self, generator: &Key, now: u64) -> (r: Closing)
        requires
            old(self).comittee@.len() > 0,
            old(self).points@.contains_key(SUM_PLACE),
        ensures
            r is Unjudged <==> exists|p: usize| #[trigger]
                old(self).committed(p) && !old(self).checkable(p, *generator),
            r is Unjudged ==> *final(self) == *old(self),
            r is AllGood <==> !(r is Unjudged) && forall|p: usize| #[trigger]
                old(self).committed(p) ==> old(self).good(p, *generator),
            r matches Closing::AllGood { sum, answers } ==> {
                &&& sum == old(self).points@[SUM_PLACE]
                &&& !final(self).entry_due(now) && !final(self).sum_due(now)
                    && !final(self).answers_due(now)
                &&& distinct_places(answers@)
                &&& line_map(answers@) == old(self).scalars@
                &&& final(self).points@ == Map::<usize, Key>::empty()
                &&& final(self).scalars@ == Map::<usize, Key>::empty()
                &&& *final(self) == (StakerNode {
                    points: final(self).points,
                    scalars: final(self).scalars,
                    multisig: false,
                    stepeven: false,
                    timekeeper: now,
                    ..*old(self)
                })
            },
            r matches Closing::SomeBad { left } ==> {
                &&& distinct_places(left@)
                &&& line_map(left@) == old(self).good_commitments(*generator)
                &&& *final(self) == *old(self)
            },
    {
        let sum: Key = match self.points.get(&SUM_PLACE) {
            Some(s) => *s,
            None => [0u8; 32],
        };
        let mut m: Vec<u8> = self.challenge_message();
        extend(&mut m, &key_bytes(&sum));
        let challenge: [u8; 32] = scalar_of(&m);
        let lines: Vec<Line> = list_lines(&self.points);
        let mut kept: HashMap<usize, Key> = HashMap::new();
        let mut all: bool = true;
        let mut i: usize = 0;
        while i < lines.len()
            invariant
                i <= lines@.len(),
                *self == *old(self),
                self.comittee@.len() > 0,
                self.points@.contains_key(SUM_PLACE),
                challenge@ == self.challenge(),
                forall|j: int|
                    0 <= j < lines@.len() ==> self.points@.contains_key((#[trigger] lines@[j]).place)
                        && self.points@[lines@[j].place] == lines@[j].value,
                forall|j: int|
                    0 <= j < i && #[trigger] lines@[j].place != SUM_PLACE ==> self.checkable(
                        lines@[j].place,
                        *generator,
                    ) && (self.good(lines@[j].place, *generator) <==> kept@.contains_key(
                        lines@[j].place,
                    )),
                forall|p: usize| #[trigger]
                    kept@.contains_key(p) ==> self.committed(p) && self.good(p, *generator)
                        && kept@[p] == self.points@[p],
                all == forall|j: int|
                    0 <= j < i && #[trigger] lines@[j].place != SUM_PLACE ==> self.good(
                        lines@[j].place,
                        *generator,
                    ),
            decreases lines@.len() - i,
        {
            let line: Line = lines[i];
            if line.place != SUM_PLACE {
                assert(lines@[i as int].place == line.place);
                match self.check_place(line.place, &line.value, &challenge, generator) {
                    None => {
                        assert(self.committed(line.place));
                        return Closing::Unjudged;
                    },
                    Some(good) => {
                        if good {
                            kept.insert(line.place, line.value);
                        } else {
                            all = false;
                        }
                    },
                }
            }
            i = i + 1;
        }
        proof {
            assert forall|p: usize| #[trigger] self.committed(p) implies self.checkable(
                p,
                *generator,
            ) && (self.good(p, *generator) <==> kept@.contains_key(p)) by {
                assert(has_line(lines@, p));
                let j = choose|j: int| 0 <= j < lines@.len() && #[trigger] lines@[j].place == p;
                assert(lines@[j].place != SUM_PLACE);
            }
            assert(kept@ =~= self.good_commitments(*generator));
            if all {
                assert forall|p: usize| #[trigger] self.committed(p) implies self.good(
                    p,
                    *generator,
                ) by {
                    assert(has_line(lines@, p));
                    let j = choose|j: int| 0 <= j < lines@.len() && #[trigger] lines@[j].place == p;
                    assert(lines@[j].place != SUM_PLACE);
                }
            } else {
                let j = choose|j: int|
                    0 <= j < i && #[trigger] lines@[j].place != SUM_PLACE && !self.good(
                        lines@[j].place,
                        *generator,
                    );
                assert(self.committed(lines@[j].place));
            }
        }
        if all {
            self.multisig = false;
            let answers: Vec<Line> = list_lines(&self.scalars);
            self.points = HashMap::new();
            self.scalars = HashMap::new();
            self.stepeven = false;
            self.timekeeper = now;
            Closing::AllGood { sum, answers }
        } else {
            let left: Vec<Line> = list_lines(&kept);
            Closing::SomeBad { left }
        }
    }

    /// Liars were weeded out, and the sum of the commitments that are left was
    /// sent: both are kept, new answers are waited for, and the round is a
    /// second older. An empty block is still being signed.
    pub fn weed_out(&mut self, left: &Vec<Line>, sum: Key)
        requires
            distinct_places(left@),
            old(self).timekeeper >= SECOND,
        ensures
            final(self).points@ == line_map(left@).insert(SUM_PLACE, sum),
            final(self).scalars@ == Map::<usize, Key>::empty(),
            *final(self) == (StakerNode {
                points: final(self).points,
                scalars: final(self).scalars,
                timekeeper: (old(self).timekeeper - SECOND) as u64,
                ..*old(self)
            }),
    {
        self.points = table_of(left);
        self.points.insert(SUM_PLACE, sum);
        self.scalars = HashMap::new();
        self.timekeeper = self.timekeeper - SECOND;
    }

    /// What the leader of an empty block signs.
    pub fn empty_block_message(&self, keyword: &Vec<u8>, signature: &Vec<u8>) -> (r: Vec<u8>)
        ensures
            r@ == empty_block(keyword@, self.bnum, self.lastname@, signature@),
    {
        let mut out: Vec<u8> = copy_bytes(keyword);
        extend(&mut out, &u64_bytes(self.bnum));
        extend(&mut out, &self.lastname);
        extend(&mut out, signature);
        out
    }

    /// It is time for the leader to send the transactions of the next block.
    pub open spec fn entry_due(&self, now: u64) -> bool {
        self.leads() && seconds(now, self.timekeeper) > 10
    }

    /// Sends the transactions of the next block, if it is time to. None are
    /// left then, all commitments and answers are dropped, and an empty block
    /// is being signed from now on.
    pub fn send_entry(&mut self, now: u64) -> (r: Option<Vec<u8>>)
        requires
            old(self).places_ok(),
        ensures
            r is Some <==> old(self).entry_due(now),
            r is Some ==> now >= old(self).timekeeper + 11_000_000_000,
            !final(self).entry_due(now),
            r matches Some(m) ==> m@ == packed_list(rows(old(self).txses@)).push(ENTRY),
            r is None ==> *final(self) == *old(self),
            r is Some ==> final(self).points@ == Map::<usize, Key>::empty() && final(self).scalars@
                == Map::<usize, Key>::empty() && final(self).txses@.len() == 0 && *final(self) == (
            StakerNode {
                points: final(self).points,
                scalars: final(self).scalars,
                txses: final(self).txses,
                timekeeper: now,
                multisig: true,
                ..*old(self)
            }),
    {
        proof {
            crate::clock::seconds_are_whole(now, self.timekeeper, 10);
        }
        if !self.is_leader() || seconds_since(now, self.timekeeper) <= 10 {
            return None;
        }
        let m: Vec<u8> = tagged(&pack_list(&self.txses), ENTRY);
        self.points = HashMap::new();
        self.scalars = HashMap::new();
        self.txses = Vec::new();
        self.timekeeper = now;
        self.multisig = true;
        Some(m)
    }

    /// The stake that a letter at the console names: `a` the first, and so on.
    pub fn named_stake(&self, letter: u8) -> (r: Option<Stake>)
        ensures
            r == (if 97 <= letter && letter - 97 < self.smine@.len() {
                Some(self.smine@[letter - 97])
            } else {
                None
            }),
    {
        if letter < 97 {
            return None;
        }
        let i: usize = (letter - 97) as usize;
        if i < self.smine.len() {
            Some(self.smine[i])
        } else {
            None
        }
    }
}

/// Whoever gave a bad answer, or is no member of the committee, is out of the
/// next try.
pub proof fn liars_are_weeded_out(n: StakerNode, generator: Key, place: usize)
    requires
        !n.good(place, generator),
    ensures
        !n.members().contains(place) || !answer_fits(
            n.points@[place]@,
            n.challenge(),
            n.stkinfo@[place as int].0@,
            n.scalars@[place]@,
            generator@,
        ),
        !n.good_commitments(generator).contains_key(place),
{
}

/// Bad answers cost one more round: once the liars are weeded out, the answers
/// are due again as soon as more than two thirds of the seats gave new ones and
/// the time for it has come.
pub proof fn liars_cost_one_more_round(
    before: StakerNode,
    after: StakerNode,
    sum: Key,
    generator: Key,
    then: u64,
    now: u64,
)
    requires
        before.answers_due(then),
        after.points@ == before.good_commitments(generator).insert(SUM_PLACE, sum),
        after == (StakerNode {
            points: after.points,
            scalars: after.scalars,
            timekeeper: after.timekeeper,
            ..before
        }),
    ensures
        after.answers_due(now) <==> seconds(now, after.timekeeper) > 2 && covered(
            after.members(),
            after.scalars@,
        ) > (2 * after.validators) / 3,
{
    assert(after.leads()) by {
        let i = choose|i: int|
            0 <= i < before.keylocation@.len() && before.stkinfo@[#[trigger] before.keylocation@[i] as int].0
                == before.leader;
        assert(after.stkinfo@[after.keylocation@[i] as int].0 == after.leader);
    }
}

/// There is never more than one richest member.
pub proof fn richest_is_unique(
    members: Seq<usize>,
    stakers: Seq<(Key, u64)>,
    n: int,
    a: int,
    b: int,
)
    requires
        is_richest(members, stakers, n, a),
        is_richest(members, stakers, n, b),
    ensures
        a == b,
{
    assert(stakers[members[a] as int].1 <= stakers[members[b] as int].1);
    assert(stakers[members[b] as int].1 <= stakers[members[a] as int].1);
}

/// The node leads exactly if the leader's key stands at one of its places.
pub proof fn leaders_are_known_by_their_key(n: StakerNode, i: int)
    ensures
        0 <= i < n.keylocation@.len() && n.stkinfo@[n.keylocation@[i] as int].0 == n.leader
            ==> n.leads(),
        n.leads() ==> exists|j: int|
            0 <= j < n.keylocation@.len() && n.stkinfo@[#[trigger] n.keylocation@[j] as int].0
                == n.leader,
{
}

/// No block is finished without the signatures of more than half of the
/// validators, at whatever moment, nor by anyone but the leader.
pub proof fn minorities_make_no_blocks(n: StakerNode, signatures: usize, now: u64)
    requires
        n.validators >= 3,
        n.signatures_due(signatures, now),
    ensures
        2 * signatures > n.validators,
        n.leads(),
{
}

/// A leader who has the signatures of more than two thirds of the validators
/// finishes a block at once; after half a minute more than half are enough, and
/// before that two thirds are needed but for what the rounding down of a third
/// gives away.
pub proof fn majorities_make_blocks(n: StakerNode, signatures: usize, now: u64)
    requires
        n.leads(),
    ensures
        3 * signatures > 2 * n.validators ==> n.signatures_due(signatures, now),
        2 * signatures > n.validators && now >= n.timekeeper + 31_000_000_000 ==> n.signatures_due(
            signatures,
            now,
        ),
        n.signatures_due(signatures, now) && now < n.timekeeper + 31_000_000_000 ==> 3 * signatures
            >= 2 * n.validators - 1,
{
    crate::clock::seconds_are_whole(now, n.timekeeper, 30);
}

/// The sum of the commitments is sent by the leader of an empty block once two
/// seconds went by and more than two thirds of the seats made a commitment,
/// unless it was sent; the answers are checked once the sum was sent, three
/// seconds went by and more than two thirds gave one.
pub proof fn two_thirds_make_an_empty_block(n: StakerNode, now: u64)
    ensures
        n.sum_due(now) <==> n.leads() && n.multisig && !n.stepeven && now >= n.timekeeper
            + 2_000_000_000 && 3 * covered(n.comittee@[0]@, n.points@) > 2 * n.validators,
        n.answers_due(now) <==> n.leads() && n.multisig && n.stepeven && n.points@.contains_key(
            usize::MAX,
        ) && now >= n.timekeeper + 3_000_000_000 && 3 * covered(n.comittee@[0]@, n.scalars@) > 2
            * n.validators,
{
    crate::clock::seconds_are_whole(now, n.timekeeper, 1);
    crate::clock::seconds_are_whole(now, n.timekeeper, 2);
}

/// Transactions are sent out by the leader, eleven seconds after the round
/// began.
pub proof fn leaders_send_entries_in_time(n: StakerNode, now: u64)
    ensures
        n.entry_due(now) <==> n.leads() && now >= n.timekeeper + 11_000_000_000,
{
    crate::clock::seconds_are_whole(now, n.timekeeper, 10);
}

/// Seats are counted one by one: those of two rows add up, and a seat counts
/// once exactly if whoever sits there has a line.
pub proof fn covered_seats_add_up(
    a: Seq<usize>,
    b: Seq<usize>,
    member: usize,
    table: Map<usize, Key>,
)
    ensures
        covered(Seq::empty(), table) == 0,
        covered(seq![member], table) == (if table.contains_key(member) {
            1nat
        } else {
            0
        }),
        covered(a + b, table) == covered(a, table) + covered(b, table),
        covered(a, table) <= a.len(),
    decreases b.len(), a.len(),
{
    reveal_with_fuel(covered, 2);
    assert(seq![member].drop_last() =~= Seq::<usize>::empty());
    if b.len() == 0 {
        assert(a + b =~= a);
        if a.len() > 0 {
            covered_seats_add_up(a.drop_last(), b, member, table);
        }
    } else {
        assert((a + b).drop_last() =~= a + b.drop_last());
        covered_seats_add_up(a, b.drop_last(), member, table);
    }
}

/// Who goes on after bad answers: those members of the committee who made a
/// commitment and whose answer times the generator is that commitment plus the
/// challenge times their key; nobody else, and each with the commitment that
/// they made. The sum of the commitments is nobody's commitment.
pub proof fn the_honest_go_on(n: StakerNode, generator: Key, place: usize)
    ensures
        n.good_commitments(generator).contains_key(place) <==> place != usize::MAX
            && n.points@.contains_key(place) && n.comittee@[0]@.contains(place)
            && crate::digest::point_sum(
            n.points@[place]@,
            crate::digest::point_multiple(
                scalar_name(n.leader@ + n.lastname@ + n.points@[usize::MAX]@),
                n.stkinfo@[place as int].0@,
            ),
        ) == crate::digest::point_multiple(n.scalars@[place]@, generator@),
        n.good_commitments(generator).contains_key(place) ==> n.good_commitments(generator)[place]
            == n.points@[place],
        n.good(place, generator) && n.committed(place) <==> n.good_commitments(
            generator,
        ).contains_key(place),
        n.committed(place) <==> place != usize::MAX && n.points@.contains_key(place),
        n.checkable(place, generator) <==> place < n.stkinfo@.len() && n.scalars@.contains_key(place)
            && is_point(n.points@[place]@) && is_point(n.stkinfo@[place as int].0@) && is_point(
            generator@,
        ),
{
}

/// Nobody in the committee has a higher stake than the richest member, and of
/// several with the highest stake the last one counts.
pub proof fn nobody_is_richer_than_the_richest(
    members: Seq<usize>,
    stakers: Seq<(Key, u64)>,
    w: int,
    i: int,
)
    requires
        is_richest(members, stakers, members.len() as int, w),
        0 <= i < members.len(),
    ensures
        0 <= w < members.len(),
        stakers[members[i] as int].1 <= stakers[members[w] as int].1,
        i > w ==> stakers[members[i] as int].1 < stakers[members[w] as int].1,
{
    assert(members[i] == members[i]);
}

/// A node answers the sum of the commitments exactly if one of its places has
/// a seat.
pub proof fn those_with_a_seat_answer(n: StakerNode, seat: int)
    ensures
        0 <= seat < n.comittee@[0]@.len() && n.keylocation@.contains(n.comittee@[0]@[seat] as u64)
            ==> n.seated_somewhere(),
        (forall|j: int|
            0 <= j < n.comittee@[0]@.len() ==> !n.keylocation@.contains(
                #[trigger] n.comittee@[0]@[j] as u64,
            )) ==> !n.seated_somewhere(),
{
    if 0 <= seat < n.comittee@[0]@.len() && n.keylocation@.contains(
        n.comittee@[0]@[seat] as u64,
    ) {
        assert(n.keylocation@.contains(n.members()[seat] as u64));
    }
}

/// What the leader of an empty block signs is about one block: signatures of
/// one length under the same keyword are told apart by the number of the block,
/// the block before and the members' signature.
pub proof fn empty_blocks_are_told_apart(
    keyword: Seq<u8>,
    a: (u64, Seq<u8>, Seq<u8>),
    b: (u64, Seq<u8>, Seq<u8>),
)
    requires
        a.1.len() == b.1.len(),
        empty_block(keyword, a.0, a.1, a.2) == empty_block(keyword, b.0, b.1, b.2),
    ensures
        a == b,
{
    let x = empty_block(keyword, a.0, a.1, a.2);
    let y = empty_block(keyword, b.0, b.1, b.2);
    crate::bytes::lemma_pow256_values();
    crate::bytes::le_round_trip(a.0 as nat, 8);
    crate::bytes::le_round_trip(b.0 as nat, 8);
    let k = keyword.len() as int;
    let n = a.1.len() as int;
    assert(x.subrange(k, k + 8) =~= le_bytes(a.0 as nat, 8));
    assert(y.subrange(k, k + 8) =~= le_bytes(b.0 as nat, 8));
    assert(x.subrange(k + 8, k + 8 + n) =~= a.1);
    assert(y.subrange(k + 8, k + 8 + n) =~= b.1);
    assert(x.subrange(k + 8 + n, x.len() as int) =~= a.2);
    assert(y.subrange(k + 8 + n, y.len() as int) =~= b.2);
}

} // verus!
