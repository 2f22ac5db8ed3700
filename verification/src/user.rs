//! A user's node. It keeps no seat and hears no gossip: it asks stakers, whom
//! chance picks from its view, and forgets those who do not answer.

use crate::block::{as_places, find_work, judge, judged, list_places, work_for, BlockSummary, Offer,
    Selection, Work};
use crate::bytes::{copy_bytes, le_bytes};
use crate::clock::{seconds, seconds_since};
use crate::digest::{group_order, integer_sum, scalar_name, scalar_of};
use crate::frame::{block_number_frame, block_time_frame, tagged, trust_frame, user_friends_frame,
    user_money_frame, ENTRANCE, RING, TRANSACTION};
use crate::keys::{key_bytes, Key};
use crate::net::{pick_several, AddressBook, Contact, Endpoint};
use crate::node::{copy_rows, copy_stakers, first_name, make_first_name, remainder_rows, remainders,
    SHARDS};
use crate::ring::{all_among, strangers, take_ring_reply, RingReply};
use crate::rules::{ChainRules, REPORT_TIME};
use crate::saved::{same_message, Holdings};
use crate::wire::rows;
use vstd::prelude::*;

verus! {

/// How many stakers a transaction is sent to.
pub const TRANSACTION_SEND_TO: usize = 1;

/// How many stakers are asked for blocks.
pub const SYNC_SEND_TO: usize = 1;

/// How many stakers are asked for the members of a ring.
pub const RING_SEND_TO: usize = 3;

/// How many questions for blocks may go unanswered before the asking ends.
pub const N_CHECK_SYNC: usize = 1;

/// A user's node.
pub struct UserNode {
    /// the parameters of the chain
    pub rules: ChainRules,
    /// the stakers who are talked to
    pub sendview: Vec<Endpoint>,
    /// the stakers of the network
    pub allnetwork: AddressBook,
    /// whether the history of accounts is kept
    pub save_history: bool,
    /// the stakers and their stakes
    pub stkinfo: Vec<(Key, u64)>,
    /// for each shard, who is to enter the committee, next first
    pub queue: Vec<Vec<usize>>,
    /// for each shard, the seats to be left, next first
    pub exitqueue: Vec<Vec<usize>>,
    /// for each shard, who sits in the committee
    pub comittee: Vec<Vec<usize>>,
    /// the name of the last block that was not empty
    pub lastname: Vec<u8>,
    /// the number of the next block
    pub bnum: u64,
    /// the number of the last block that was not empty
    pub lastbnum: u64,
    /// coins ever made
    pub height: u64,
    /// stakes ever made
    pub sheight: u64,
    /// the shard that makes the blocks
    pub headshard: usize,
    /// the places in the history whose accounts are known
    pub rmems: Vec<u64>,
    /// the ring that is being gathered
    pub rname: Vec<u8>,
    /// the transaction that a panic keeps sending
    pub moneyreset: Option<Vec<u8>>,
    /// when the interface was last told of friends
    pub gui_timer: u64,
    /// strangers in the rings of the user's transactions
    pub ringsize: u8,
}

/// What is saved of a user's node.
pub struct SavedUser {
    pub holdings: Holdings,
    pub sendview: Vec<Endpoint>,
    pub save_history: bool,
    pub stkinfo: Vec<(Key, u64)>,
    pub queue: Vec<Vec<usize>>,
    pub exitqueue: Vec<Vec<usize>>,
    pub comittee: Vec<Vec<usize>>,
    pub lastname: Vec<u8>,
    pub bnum: u64,
    pub lastbnum: u64,
    pub height: u64,
    pub sheight: u64,
    pub headshard: usize,
    pub rname: Vec<u8>,
    pub moneyreset: Option<Vec<u8>>,
    pub ringsize: u8,
}

impl SavedUser {
    /// What was saved is what the node knows, the holdings apart and the ring
    /// that is being gathered.
    pub open spec fn tells_of(&self, n: UserNode) -> bool {
        &&& self.sendview@ == n.sendview@
        &&& self.save_history == n.save_history
        &&& self.stkinfo@ == n.stkinfo@
        &&& rows(self.queue@) == rows(n.queue@)
        &&& rows(self.exitqueue@) == rows(n.exitqueue@)
        &&& rows(self.comittee@) == rows(n.comittee@)
        &&& self.lastname@ == n.lastname@
        &&& self.bnum == n.bnum
        &&& self.lastbnum == n.lastbnum
        &&& self.height == n.height
        &&& self.sheight == n.sheight
        &&& self.headshard == n.headshard
        &&& same_message(self.moneyreset, n.moneyreset)
        &&& self.ringsize == n.ringsize
    }
}

/// A user's node that was loaded.
pub struct LoadedUser {
    pub node: UserNode,
    /// what the ledger is to keep for it
    pub holdings: Holdings,
}

/// What a block that a user accepts calls for at once.
pub struct UserAcceptance {
    /// the node as it was before the block, to be put on disk before anything
    /// else is done: whether a leader tries to cause a fork shows only one
    /// block later
    pub saved: Option<SavedUser>,
    /// the blocks that were missed before this one
    pub missed: u64,
}

/// The stakers as an address book without addresses. Of a key that stands
/// there twice, the last place counts.
pub open spec fn directory(stakers: Seq<(Key, u64)>) -> Map<Key, Contact>
    decreases stakers.len(),
{
    if stakers.len() == 0 {
        Map::empty()
    } else {
        directory(stakers.drop_last()).insert(
            stakers.last().0,
            Contact { place: (stakers.len() - 1) as u64, addr: None },
        )
    }
}

/// Makes an address book without addresses of the list of stakers.
pub fn make_directory(stakers: &Vec<(Key, u64)>) -> (r: AddressBook)
    ensures
        r@ == directory(stakers@),
{
    let mut out: AddressBook = AddressBook::new();
    let mut i: usize = 0;
    proof {
        assert(stakers@.subrange(0, 0) =~= Seq::<(Key, u64)>::empty());
    }
    while i < stakers.len()
        invariant
            i <= stakers@.len(),
            out@ == directory(stakers@.subrange(0, i as int)),
        decreases stakers@.len() - i,
    {
        proof {
            assert(stakers@.subrange(0, i + 1).drop_last() =~= stakers@.subrange(0, i as int));
        }
        out.insert(stakers[i].0, Contact { place: i as u64, addr: None });
        i = i + 1;
    }
    assert(stakers@.subrange(0, i as int) =~= stakers@);
    out
}

/// What a view is left with once the dead are gone.
pub open spec fn living(view: Seq<Endpoint>, dead: Seq<Endpoint>) -> Seq<Endpoint>
    decreases view.len(),
{
    if view.len() == 0 {
        Seq::empty()
    } else {
        let before = living(view.drop_last(), dead);
        if dead.contains(view.last()) {
            before
        } else {
            before.push(view.last())
        }
    }
}

/// What came of a message to one staker.
pub struct Outcome {
    pub to: Endpoint,
    /// the answer, if there was one
    pub answer: Option<Vec<u8>>,
}

/// The answers to a message, and what to tell the interface.
pub struct Answers {
    pub answers: Vec<Vec<u8>>,
    pub frame: Vec<u8>,
}

/// The answers that were given, in the order of the outcomes.
pub open spec fn given(outcomes: Seq<Outcome>) -> Seq<Seq<u8>>
    decreases outcomes.len(),
{
    if outcomes.len() == 0 {
        Seq::empty()
    } else {
        let before = given(outcomes.drop_last());
        match outcomes.last().answer {
            Some(m) => before.push(m@),
            None => before,
        }
    }
}

/// Those who gave no answer.
pub open spec fn silent(outcomes: Seq<Outcome>) -> Seq<Endpoint>
    decreases outcomes.len(),
{
    if outcomes.len() == 0 {
        Seq::empty()
    } else {
        let before = silent(outcomes.drop_last());
        match outcomes.last().answer {
            Some(_) => before,
            None => before.push(outcomes.last().to),
        }
    }
}

/// How a user pays.
#[derive(Clone, Copy, PartialEq, Eq, Structural)]
pub enum PayingWay {
    /// with a ring out of the history that the node keeps
    FromHistory,
    /// not at all: there is nothing to pay with
    NotAtAll,
    /// with a ring of the own accounts alone
    OwnRing,
    /// with a ring whose members others are asked for
    AskOthers,
}

fn has_endpoint(view: &Vec<Endpoint>, e: Endpoint) -> (r: bool)
    ensures
        r == view@.contains(e),
{
    let mut i: usize = 0;
    while i < view.len()
        invariant
            i <= view@.len(),
            forall|j: int| 0 <= j < i ==> view@[j] != e,
        decreases view@.len() - i,
    {
        if view[i] == e {
            assert(view@[i as int] == e);
            return true;
        }
        i = i + 1;
    }
    false
}

fn copy_view(view: &Vec<Endpoint>) -> (r: Vec<Endpoint>)
    ensures
        r@ == view@,
{
    let mut out: Vec<Endpoint> = Vec::new();
    let mut i: usize = 0;
    while i < view.len()
        invariant
            i <= view@.len(),
            out@ == view@.subrange(0, i as int),
        decreases view@.len() - i,
    {
        out.push(view[i]);
        assert(out@ =~= view@.subrange(0, i + 1));
        i = i + 1;
    }
    assert(out@ =~= view@);
    out
}

/// What the ledger did with a block that is not empty.
pub struct UserScan {
    /// whether the user's coins changed
    pub coins_changed: bool,
    pub height: u64,
    pub sheight: u64,
    pub allnetwork: AddressBook,
    pub stkinfo: Vec<(Key, u64)>,
}

/// What the ledger did for the block itself.
pub enum UserWork {
    /// it was empty, and was paid for
    Empty { stkinfo: Vec<(Key, u64)> },
    /// it was taken into the books
    Scanned(UserScan),
}

/// The state of the asking for blocks after one question.
#[derive(Clone, Copy, PartialEq, Eq, Structural)]
pub struct SyncTurn {
    /// questions that went unanswered since the last answer
    pub misses: usize,
    /// whether the asking ends
    pub over: bool,
}

/// Counts a question for blocks that got `replies` answers.
pub fn sync_turn(misses: usize, replies: usize) -> (r: SyncTurn)
    requires
        misses < usize::MAX,
    ensures
        r.misses == (if replies == 0 {
            misses + 1
        } else {
            0
        }),
        r.over == (r.misses > N_CHECK_SYNC),
        r.over <==> replies == 0 && misses >= 1,
{
    let now: usize = if replies == 0 {
        misses + 1
    } else {
        0
    };
    SyncTurn { misses: now, over: now > N_CHECK_SYNC }
}

/// The news that an answer to a ring question brings.
pub struct RingNews {
    /// the positions in the ring of the accounts that were learned
    pub fresh: Vec<usize>,
    /// whether the transaction can be tried: something was learned, and all
    /// members of the ring are known
    pub ready: bool,
}

impl UserNode {
    /// The node of someone who joins at the beginning of the chain. Everyone
    /// agrees that `founder` starts with one token.
    pub fn begin(rules: ChainRules, founder: Key, save_history: bool, now: u64) -> (r: UserNode)
        requires
            rules.wf(),
        ensures
            r.rules == rules,
            r.sendview@.len() == 0,
            r.allnetwork@ == Map::<Key, Contact>::empty().insert(
                founder,
                Contact { place: 0, addr: None },
            ),
            r.save_history == save_history,
            r.stkinfo@ == seq![(founder, 1u64)],
            rows(r.queue@) == remainders(SHARDS as nat, rules.queue_length as nat, 1),
            rows(r.exitqueue@) == remainders(
                SHARDS as nat,
                rules.queue_length as nat,
                rules.validators as int,
            ),
            rows(r.comittee@) == remainders(SHARDS as nat, rules.validators as nat, 1),
            r.lastname@ == first_name(),
            r.bnum == 0,
            r.lastbnum == 0,
            r.height == 0,
            r.sheight == 1,
            r.headshard == 0,
            r.rmems@.len() == 0,
            r.rname@.len() == 0,
            r.moneyreset is None,
            r.gui_timer == now,
            r.ringsize == 5,
    {
        let mut allnetwork: AddressBook = AddressBook::new();
        allnetwork.insert(founder, Contact { place: 0, addr: None });
        let mut stkinfo: Vec<(Key, u64)> = Vec::new();
        stkinfo.push((founder, 1));
        assert(stkinfo@ =~= seq![(founder, 1u64)]);
        UserNode {
            rules,
            sendview: Vec::new(),
            allnetwork,
            save_history,
            stkinfo,
            queue: remainder_rows(SHARDS, rules.queue_length, 1),
            exitqueue: remainder_rows(SHARDS, rules.queue_length, rules.validators),
            comittee: remainder_rows(SHARDS, rules.validators, 1),
            lastname: make_first_name(),
            bnum: 0,
            lastbnum: 0,
            height: 0,
            sheight: 1,
            headshard: 0,
            rmems: Vec::new(),
            rname: Vec::new(),
            moneyreset: None,
            gui_timer: now,
            ringsize: 5,
        }
    }

    /// What to save of the node, for which the ledger keeps `holdings`. While a
    /// panic is on nothing is saved.
    pub fn save(&self, holdings: Holdings) -> (r: Option<SavedUser>)
        ensures
            r is Some <==> self.moneyreset is None,
            r matches Some(s) ==> s.tells_of(*self) && s.rname@ == self.rname@ && s.holdings
                == holdings,
            r matches Some(s) ==> s.moneyreset is None,
    {
        if self.moneyreset.is_some() {
            return None;
        }
        Some(
            SavedUser {
                holdings,
                sendview: copy_view(&self.sendview),
                save_history: self.save_history,
                stkinfo: copy_stakers(&self.stkinfo),
                queue: copy_rows(&self.queue),
                exitqueue: copy_rows(&self.exitqueue),
                comittee: copy_rows(&self.comittee),
                lastname: copy_bytes(&self.lastname),
                bnum: self.bnum,
                lastbnum: self.lastbnum,
                height: self.height,
                sheight: self.sheight,
                headshard: self.headshard,
                rname: copy_bytes(&self.rname),
                moneyreset: None,
                ringsize: self.ringsize,
            },
        )
    }

    /// Makes a node of what was saved. The address book is made anew from the
    /// list of stakers, and no ring is being gathered.
    pub fn load(s: SavedUser, rules: ChainRules, now: u64) -> (r: LoadedUser)
        ensures
            s.tells_of(r.node),
            r.holdings == s.holdings,
            r.node.rules == rules,
            r.node.allnetwork@ == directory(s.stkinfo@),
            r.node.rmems@.len() == 0,
            r.node.rname@.len() == 0,
            r.node.gui_timer == now,
    {
        let allnetwork: AddressBook = make_directory(&s.stkinfo);
        let node: UserNode = UserNode {
            rules,
            sendview: s.sendview,
            allnetwork,
            save_history: s.save_history,
            stkinfo: s.stkinfo,
            queue: s.queue,
            exitqueue: s.exitqueue,
            comittee: s.comittee,
            lastname: s.lastname,
            bnum: s.bnum,
            lastbnum: s.lastbnum,
            height: s.height,
            sheight: s.sheight,
            headshard: s.headshard,
            rmems: Vec::new(),
            rname: Vec::new(),
            moneyreset: s.moneyreset,
            gui_timer: now,
            ringsize: s.ringsize,
        };
        LoadedUser { node, holdings: s.holdings }
    }

    /// What to do with a block.
    pub open spec fn offered(&self, b: BlockSummary) -> Offer {
        judged(b, self.bnum, self.headshard, self.lastname@, false)
    }

    /// Says what to do with a block that was offered.
    pub fn offer(&self, b: &BlockSummary) -> (r: Offer)
        ensures
            r == self.offered(*b),
    {
        judge(b, self.bnum, self.headshard, &self.lastname, false)
    }

    /// The committee that a block of `shard` is verified against.
    pub fn committee_places(&self, shard: usize) -> (r: Vec<u64>)
        requires
            shard < self.comittee@.len(),
        ensures
            r@ == as_places(self.comittee@[shard as int]@),
    {
        list_places(&self.comittee[shard])
    }

    /// Takes a block that the ledger verified. The node as it is before, for
    /// which the ledger keeps `holdings`, is saved unless a panic is on. Then
    /// the shard of the block becomes the head.
    pub fn accept(&mut self, b: &BlockSummary, holdings: Holdings) -> (r: UserAcceptance)
        requires
            old(self).offered(*b) is Verify,
        ensures
            r.saved is Some <==> old(self).moneyreset is None,
            r.saved matches Some(s) ==> s.tells_of(*old(self)) && s.rname@ == old(self).rname@
                && s.holdings == holdings,
            r.missed == b.bnum - old(self).bnum,
            forall|c: BlockSummary| #[trigger]
                final(self).offered(c) is Verify ==> c.shards@[0] >= b.shards@[0],
            *final(self) == (UserNode { headshard: b.shards@[0] as usize, ..*old(self) }),
    {
        let saved: Option<SavedUser> = self.save(holdings);
        self.headshard = b.shards[0] as usize;
        UserAcceptance { saved, missed: b.bnum - self.bnum }
    }

    /// Says what the ledger is to do next for a block that was accepted.
    pub fn next_work(&self, b: &BlockSummary) -> (r: Work)
        ensures
            r == work_for(*b, self.bnum),
    {
        find_work(b, self.bnum)
    }

    /// Reads a block that was missed, given what the ledger paid for it and
    /// whom it seated then.
    pub fn missed_block(&mut self, b: &BlockSummary, stkinfo: Vec<(Key, u64)>, s: Selection)
        requires
            work_for(*b, old(self).bnum) is PayMissed,
        ensures
            *final(self) == (UserNode {
                stkinfo,
                queue: s.queue,
                exitqueue: s.exitqueue,
                comittee: s.comittee,
                bnum: (old(self).bnum + 1) as u64,
                ..*old(self)
            }),
    {
        self.stkinfo = stkinfo;
        self.seat(s);
    }

    /// Reads the block itself, packed as `m`, given what the ledger did for it
    /// and whom it seated then. A block that is not empty becomes the last one.
    /// The result is what the interface is to be told.
    pub fn own_block(&mut self, b: &BlockSummary, m: &Vec<u8>, own: UserWork, s: Selection) -> (r:
        Vec<Vec<u8>>)
        requires
            old(self).bnum == b.bnum,
            b.bnum < u64::MAX,
            own is Empty <==> b.is_empty_spec(),
        ensures
            rows(r@) == (match own {
                UserWork::Empty { .. } => Seq::<Seq<u8>>::empty(),
                UserWork::Scanned(c) => seq![
                    seq![if c.coins_changed { 0u8 } else { 1u8 }, 1u8],
                ],
            }),
            own is Scanned ==> final(self).lastname@ == scalar_name(m@),
            own is Scanned ==> final(self).lastbnum + 1 == final(self).bnum,
            forall|c: BlockSummary| #[trigger]
                final(self).offered(c) is Verify ==> c.bnum > b.bnum && c.last_name@ == (
                if b.no_txout && b.no_stkin && b.no_stkout {
                    old(self).lastname@
                } else {
                    scalar_name(m@)
                }),
            *final(self) == (match own {
                UserWork::Empty { stkinfo } => UserNode {
                    stkinfo,
                    queue: s.queue,
                    exitqueue: s.exitqueue,
                    comittee: s.comittee,
                    bnum: (b.bnum + 1) as u64,
                    ..*old(self)
                },
                UserWork::Scanned(c) => UserNode {
                    height: c.height,
                    sheight: c.sheight,
                    allnetwork: c.allnetwork,
                    stkinfo: c.stkinfo,
                    lastbnum: b.bnum,
                    lastname: final(self).lastname,
                    queue: s.queue,
                    exitqueue: s.exitqueue,
                    comittee: s.comittee,
                    bnum: (b.bnum + 1) as u64,
                    ..*old(self)
                },
            }),
    {
        let mut frames: Vec<Vec<u8>> = Vec::new();
        match own {
            UserWork::Empty { stkinfo } => {
                self.stkinfo = stkinfo;
                assert(rows(frames@) =~= Seq::<Seq<u8>>::empty());
            },
            UserWork::Scanned(c) => {
                frames.push(trust_frame(!c.coins_changed));
                assert(rows(frames@) =~= seq![frames@[0]@]);
                self.height = c.height;
                self.sheight = c.sheight;
                self.allnetwork = c.allnetwork;
                self.stkinfo = c.stkinfo;
                self.lastbnum = self.bnum;
                self.lastname = key_bytes(&scalar_of(m));
            },
        }
        self.seat(s);
        frames
    }

    /// Takes in the seats that the ledger selected. With that a block is over.
    fn seat(&mut self, s: Selection)
        requires
            old(self).bnum < u64::MAX,
        ensures
            *final(self) == (UserNode {
                queue: s.queue,
                exitqueue: s.exitqueue,
                comittee: s.comittee,
                bnum: (old(self).bnum + 1) as u64,
                ..*old(self)
            }),
    {
        self.queue = s.queue;
        self.exitqueue = s.exitqueue;
        self.comittee = s.comittee;
        self.bnum = self.bnum + 1;
    }

    /// Picks at random whom a message is sent to: as many as asked for, or all
    /// who are there, and nobody in the view twice.
    pub fn choose_recipients(&self, amount: usize) -> (r: Vec<Endpoint>)
        ensures
            r@.len() == (if amount <= self.sendview@.len() {
                amount as nat
            } else {
                self.sendview@.len()
            }),
            r@.to_multiset().subset_of(self.sendview@.to_multiset()),
    {
        pick_several(&self.sendview, amount)
    }

    /// Takes what came of a message: the answers are handed on, those who did
    /// not answer are forgotten, and the interface is told.
    pub fn take_answers(&mut self, outcomes: &Vec<Outcome>) -> (r: Answers)
        ensures
            rows(r.answers@) == given(outcomes@),
            final(self).sendview@ == living(old(self).sendview@, silent(outcomes@)),
            r.frame@ == le_bytes(final(self).sendview@.len() as u64 as nat, 8).push(4),
            *final(self) == (UserNode { sendview: final(self).sendview, ..*old(self) }),
    {
        let mut answers: Vec<Vec<u8>> = Vec::new();
        let mut dead: Vec<Endpoint> = Vec::new();
        let mut i: usize = 0;
        proof {
            assert(outcomes@.subrange(0, 0) =~= Seq::<Outcome>::empty());
            assert(rows(answers@) =~= Seq::<Seq<u8>>::empty());
        }
        while i < outcomes.len()
            invariant
                i <= outcomes@.len(),
                rows(answers@) == given(outcomes@.subrange(0, i as int)),
                dead@ == silent(outcomes@.subrange(0, i as int)),
            decreases outcomes@.len() - i,
        {
            let ghost before = rows(answers@);
            proof {
                assert(outcomes@.subrange(0, i + 1).drop_last() =~= outcomes@.subrange(
                    0,
                    i as int,
                ));
            }
            match &outcomes[i].answer {
                Some(m) => {
                    answers.push(copy_bytes(m));
                    assert(rows(answers@) =~= before.push(m@));
                },
                None => {
                    dead.push(outcomes[i].to);
                },
            }
            i = i + 1;
        }
        assert(outcomes@.subrange(0, i as int) =~= outcomes@);
        let frame: Vec<u8> = self.bury(&dead);
        Answers { answers, frame }
    }

    /// Forgets those who did not answer, and gives what to tell the interface.
    fn bury(&mut self, dead: &Vec<Endpoint>) -> (r: Vec<u8>)
        ensures
            final(self).sendview@ == living(old(self).sendview@, dead@),
            r@ == le_bytes(final(self).sendview@.len() as u64 as nat, 8).push(4),
            *final(self) == (UserNode { sendview: final(self).sendview, ..*old(self) }),
    {
        let mut left: Vec<Endpoint> = Vec::new();
        let mut i: usize = 0;
        proof {
            assert(self.sendview@.subrange(0, 0) =~= Seq::<Endpoint>::empty());
        }
        while i < self.sendview.len()
            invariant
                i <= self.sendview@.len(),
                *self == *old(self),
                left@ == living(self.sendview@.subrange(0, i as int), dead@),
            decreases self.sendview@.len() - i,
        {
            proof {
                assert(self.sendview@.subrange(0, i + 1).drop_last() =~= self.sendview@.subrange(
                    0,
                    i as int,
                ));
            }
            if !has_endpoint(dead, self.sendview[i]) {
                left.push(self.sendview[i]);
            }
            i = i + 1;
        }
        assert(self.sendview@.subrange(0, i as int) =~= self.sendview@);
        self.sendview = left;
        self.friends()
    }

    /// Tells the interface how many stakers are talked to.
    pub fn friends(&self) -> (r: Vec<u8>)
        ensures
            r@ == le_bytes(self.sendview@.len() as u64 as nat, 8).push(4),
    {
        user_friends_frame(self.sendview.len())
    }

    /// Tells the interface from time to time how many stakers are talked to.
    pub fn report(&mut self, now: u64) -> (r: Option<Vec<u8>>)
        ensures
            r is Some <==> seconds(now, old(self).gui_timer) > REPORT_TIME,
            r is Some <==> now >= old(self).gui_timer + 6 * 1_000_000_000,
            r matches Some(m) ==> m@ == le_bytes(
                old(self).sendview@.len() as u64 as nat,
                8,
            ).push(4),
            *final(self) == (UserNode {
                gui_timer: if r is Some {
                    now
                } else {
                    old(self).gui_timer
                },
                ..*old(self)
            }),
    {
        proof {
            crate::clock::seconds_are_whole(now, self.gui_timer, 5);
        }
        if seconds_since(now, self.gui_timer) > REPORT_TIME {
            self.gui_timer = now;
            Some(self.friends())
        } else {
            None
        }
    }

    /// Takes the view of the network that an acquaintance sent.
    pub fn enter(&mut self, view: Vec<Endpoint>)
        ensures
            forall|e: Endpoint| view@.contains(e) ==> #[trigger] final(self).sendview@.contains(e),
            *final(self) == (UserNode { sendview: view, ..*old(self) }),
    {
        self.sendview = view;
    }

    /// What the interface is told after blocks were asked for, if any were
    /// read: the time that a block takes, the number of the next block, the
    /// money, and what the last block that was read gave reason to say.
    pub fn sync_report(
        &self,
        before: u64,
        block_time: u8,
        amounts: &Vec<[u8; 32]>,
        last: &Vec<Vec<u8>>,
    ) -> (r: Vec<Vec<u8>>)
        ensures
            rows(r@) == (if before == self.bnum {
                Seq::<Seq<u8>>::empty()
            } else {
                seq![
                    seq![block_time, 128u8],
                    le_bytes(self.bnum as nat, 8).push(2),
                    le_bytes(integer_sum(amounts@) % group_order(), 8).push(0),
                ] + rows(last@)
            }),
    {
        let mut out: Vec<Vec<u8>> = Vec::new();
        if before == self.bnum {
            assert(rows(out@) =~= Seq::<Seq<u8>>::empty());
            return out;
        }
        out.push(block_time_frame(block_time));
        out.push(block_number_frame(self.bnum));
        out.push(user_money_frame(amounts));
        let ghost head = seq![
            seq![block_time, 128u8],
            le_bytes(self.bnum as nat, 8).push(2),
            le_bytes(integer_sum(amounts@) % group_order(), 8).push(0),
        ];
        let mut i: usize = 0;
        proof {
            assert(rows(out@) =~= head + rows(last@).subrange(0, 0));
        }
        while i < last.len()
            invariant
                i <= last@.len(),
                rows(out@) == head + rows(last@).subrange(0, i as int),
            decreases last@.len() - i,
        {
            let ghost done = rows(out@);
            out.push(copy_bytes(&last[i]));
            proof {
                assert(rows(out@) =~= done.push(rows(last@)[i as int]));
                assert(rows(out@) =~= head + rows(last@).subrange(0, i + 1));
            }
            i = i + 1;
        }
        assert(rows(last@).subrange(0, i as int) =~= rows(last@));
        out
    }

    /// Goes on with a panic after blocks were read: while the user has no coins
    /// the transaction is sent again, and once there are some it is over.
    pub fn carry_on_panic(&mut self, owned: usize) -> (r: Option<Vec<u8>>)
        ensures
            r is Some <==> old(self).moneyreset is Some && owned == 0,
            owned > 0 ==> final(self).moneyreset is None,
            owned == 0 ==> final(self).moneyreset == old(self).moneyreset,
            r matches Some(m) ==> m@ == old(self).moneyreset->0@,
            *final(self) == (UserNode {
                moneyreset: if owned == 0 {
                    old(self).moneyreset
                } else {
                    None
                },
                ..*old(self)
            }),
    {
        if owned == 0 {
            match &self.moneyreset {
                Some(m) => Some(copy_bytes(m)),
                None => None,
            }
        } else {
            self.moneyreset = None;
            None
        }
    }

    /// The panic button was pushed, and the message `sent`, which moves the
    /// coins, was taken by someone: from now on it is sent again.
    pub fn coins_moved(&mut self, sent: Vec<u8>)
        ensures
            *final(self) == (UserNode { moneyreset: Some(sent), ..*old(self) }),
    {
        self.moneyreset = Some(sent);
    }

    /// Takes the number of strangers in rings from a request.
    pub fn choose_ring_size(&mut self, extra: u8)
        ensures
            *final(self) == (UserNode { ringsize: extra, ..*old(self) }),
    {
        self.ringsize = extra;
    }

    /// Says how a user with `owned` accounts pays.
    pub fn paying_way(&self, owned: usize) -> (r: PayingWay)
        ensures
            r is FromHistory <==> self.save_history,
            r is NotAtAll <==> !self.save_history && owned == 0,
            r is OwnRing ==> owned > 0 && self.ringsize == 0,
            r is AskOthers ==> owned > 0 && self.ringsize > 0,
            r == (if self.save_history {
                PayingWay::FromHistory
            } else if owned == 0 {
                PayingWay::NotAtAll
            } else if self.ringsize == 0 {
                PayingWay::OwnRing
            } else {
                PayingWay::AskOthers
            }),
    {
        if self.save_history {
            PayingWay::FromHistory
        } else if owned == 0 {
            PayingWay::NotAtAll
        } else if self.ringsize == 0 {
            PayingWay::OwnRing
        } else {
            PayingWay::AskOthers
        }
    }

    /// Begins to gather the ring that was named `rname`, knowing only the own
    /// accounts, and gives the question to ask.
    pub fn begin_ring(&mut self, own: Vec<u64>, rname: &Vec<u8>) -> (r: Vec<u8>)
        ensures
            r@ == rname@.push(RING),
            final(self).rname@ == rname@,
            *final(self) == (UserNode { rmems: own, rname: final(self).rname, ..*old(self) }),
    {
        self.rmems = own;
        self.rname = copy_bytes(rname);
        tagged(rname, RING)
    }

    /// Takes an answer to the ring question, which holds `answered` accounts.
    pub fn take_ring_answer(&mut self, answered: usize, ring: &Vec<u64>, own: &Vec<u64>) -> (r:
        RingNews)
        ensures
            ({
                let count = if answered <= ring@.len() {
                    answered as nat
                } else {
                    ring@.len()
                };
                let fresh = strangers(ring@, own@, count);
                &&& r.fresh@ == fresh
                &&& final(self).rmems@ == old(self).rmems@ + Seq::new(
                    fresh.len(),
                    |i: int| ring@[fresh[i] as int],
                )
                &&& r.ready == (fresh.len() > 0 && all_among(ring@, final(self).rmems@))
            }),
            r.ready ==> forall|i: int|
                0 <= i < ring@.len() ==> final(self).rmems@.contains(#[trigger] ring@[i]),
            forall|place: u64|
                old(self).rmems@.contains(place) ==> #[trigger] final(self).rmems@.contains(place),
            *final(self) == (UserNode { rmems: final(self).rmems, ..*old(self) }),
    {
        let reply: RingReply = take_ring_reply(answered, ring, own, &self.rmems);
        let ready: bool = reply.fresh.len() > 0 && reply.complete;
        proof {
            assert forall|place: u64| self.rmems@.contains(place) implies #[trigger]
                reply.known@.contains(place) by {
                let i = choose|i: int| 0 <= i < self.rmems@.len() && self.rmems@[i] == place;
                assert(reply.known@[i] == place);
            }
        }
        self.rmems = reply.known;
        RingNews { fresh: reply.fresh, ready }
    }
}

/// The message that a user's transaction is sent in, if it was made and nothing
/// was missing from the request.
pub fn user_submission(valid: bool, tx: &Vec<u8>) -> (r: Option<Vec<u8>>)
    ensures
        r is Some <==> valid && tx@.len() > 0,
        !valid ==> r is None,
        r matches Some(m) ==> m@ == tx@.push(TRANSACTION),
{
    if valid && tx.len() > 0 {
        Some(tagged(tx, TRANSACTION))
    } else {
        None
    }
}

/// The message in which a panic moves the coins of a user.
pub fn user_panic_message(tx: &Vec<u8>) -> (r: Vec<u8>)
    ensures
        r@ == tx@.push(TRANSACTION),
{
    tagged(tx, TRANSACTION)
}

/// Whether a transaction is sent again that got so many answers: it is until
/// someone answers.
pub fn is_sent_again(answers: usize) -> (r: bool)
    ensures
        r == (answers == 0),
{
    answers == 0
}

/// Whether the members of a ring are asked for again after a question whose
/// answers led to so many transactions: they are until one could be made.
pub fn is_ring_asked_again(made: usize) -> (r: bool)
    ensures
        r == (made == 0),
{
    made == 0
}

/// The question for a view of the network.
pub fn entrance_question() -> (r: Vec<u8>)
    ensures
        r@ == seq![ENTRANCE],
{
    let mut out: Vec<u8> = Vec::new();
    out.push(ENTRANCE);
    assert(out@ =~= seq![ENTRANCE]);
    out
}

/// Those who did not answer are forgotten, and nobody else is.
pub proof fn only_the_dead_are_forgotten(view: Seq<Endpoint>, dead: Seq<Endpoint>, e: Endpoint)
    ensures
        living(view, dead).contains(e) <==> view.contains(e) && !dead.contains(e),
        living(view, dead).len() <= view.len(),
    decreases view.len(),
{
    if view.len() > 0 {
        let init = view.drop_last();
        only_the_dead_are_forgotten(init, dead, e);
        let before = living(init, dead);
        let all = living(view, dead);
        if view.contains(e) && !dead.contains(e) {
            let i = choose|i: int| 0 <= i < view.len() && view[i] == e;
            if i < init.len() {
                assert(init[i] == e);
                let j = choose|j: int| 0 <= j < before.len() && before[j] == e;
                assert(all[j] == e);
            } else {
                assert(all[before.len() as int] == e);
            }
        }
        if all.contains(e) {
            let j = choose|j: int| 0 <= j < all.len() && all[j] == e;
            if j < before.len() {
                assert(before[j] == e);
                assert(before.contains(e));
                let i = choose|i: int| 0 <= i < init.len() && init[i] == e;
                assert(view[i] == e);
            } else {
                assert(view[view.len() - 1] == e);
            }
        }
    }
}

/// What was saved comes back: a node that is loaded from what another left
/// knows all that the other knew of the chain, and has the same account, coins,
/// key, tags and times. As nothing is saved during a panic, none is on.
pub proof fn user_loading_undoes_saving(
    before: UserNode,
    held: Holdings,
    s: SavedUser,
    after: UserNode,
    got: Holdings,
)
    requires
        before.moneyreset is None,
        s.tells_of(before) && s.holdings == held,
        s.tells_of(after) && got == s.holdings,
    ensures
        got.me@ == held.me@,
        got.mine@ == held.mine@,
        got.key == held.key,
        got.alltagsever@ == held.alltagsever@,
        got.cumtime == held.cumtime,
        got.blocktime == held.blocktime,
        after.sendview@ == before.sendview@,
        after.save_history == before.save_history,
        after.stkinfo@ == before.stkinfo@,
        rows(after.queue@) == rows(before.queue@),
        rows(after.exitqueue@) == rows(before.exitqueue@),
        rows(after.comittee@) == rows(before.comittee@),
        after.lastname@ == before.lastname@,
        after.bnum == before.bnum,
        after.lastbnum == before.lastbnum,
        after.height == before.height,
        after.sheight == before.sheight,
        after.headshard == before.headshard,
        after.moneyreset is None,
        after.ringsize == before.ringsize,
{
}

/// A fork can be undone: a node that is loaded from what was saved before a
/// block judges every block as the node did before it read that one.
pub proof fn user_forks_can_be_undone(
    before: UserNode,
    s: SavedUser,
    after: UserNode,
    other: BlockSummary,
)
    requires
        s.tells_of(before),
        s.tells_of(after),
    ensures
        after.offered(other) == before.offered(other),
        rows(after.comittee@) == rows(before.comittee@),
        after.stkinfo@ == before.stkinfo@,
{
}

/// A user has the ledger verify a block exactly if the block does not lie
/// behind, names the last block as the one before it, and comes from a shard
/// that is not below the head.
pub proof fn users_verify_only_what_follows(n: UserNode, b: BlockSummary)
    ensures
        n.offered(b) is Verify <==> b.bnum >= n.bnum && b.shards@.len() > 0 && b.shards@[0]
            >= n.headshard && b.last_name@ == n.lastname@,
        n.offered(b) matches Offer::Verify { shard, multithreaded } ==> shard == b.shards@[0]
            && !multithreaded,
        n.offered(b) is Old <==> b.bnum < n.bnum,
        n.offered(b) is NoShard <==> b.bnum >= n.bnum && b.shards@.len() == 0,
{
}

/// Every staker is in the directory, at the last place where the key stands,
/// without an address; nobody else is.
pub proof fn the_directory_lists_all_stakers(stakers: Seq<(Key, u64)>, i: int, key: Key)
    requires
        stakers.len() <= u64::MAX,
    ensures
        0 <= i < stakers.len() ==> directory(stakers).contains_key(stakers[i].0),
        0 <= i < stakers.len() && (forall|j: int|
            i < j < stakers.len() ==> (#[trigger] stakers[j]).0 != stakers[i].0) ==> directory(
            stakers,
        )[stakers[i].0] == (Contact { place: i as u64, addr: None }),
        (forall|j: int| 0 <= j < stakers.len() ==> (#[trigger] stakers[j]).0 != key) ==> !directory(
            stakers,
        ).contains_key(key),
    decreases stakers.len(),
{
    if stakers.len() > 0 {
        let init = stakers.drop_last();
        the_directory_lists_all_stakers(init, i, key);
        if 0 <= i < init.len() {
            assert(init[i] == stakers[i]);
            if forall|j: int| i < j < stakers.len() ==> (#[trigger] stakers[j]).0 != stakers[i].0 {
                assert(stakers[stakers.len() - 1].0 != stakers[i].0);
                assert forall|j: int| i < j < init.len() implies (#[trigger] init[j]).0
                    != init[i].0 by {
                    assert(init[j] == stakers[j]);
                }
            }
        }
        if forall|j: int| 0 <= j < stakers.len() ==> (#[trigger] stakers[j]).0 != key {
            assert(stakers[stakers.len() - 1].0 != key);
            assert forall|j: int| 0 <= j < init.len() implies (#[trigger] init[j]).0 != key by {
                assert(init[j] == stakers[j]);
            }
        }
    }
}

/// Outcomes are taken one by one and in their order: who answered is handed on,
/// who did not is noted, and of two lists that follow each other first the one
/// and then the other.
pub proof fn every_outcome_is_an_answer_or_a_silence(
    a: Seq<Outcome>,
    b: Seq<Outcome>,
    outcome: Outcome,
)
    ensures
        given(a + b) == given(a) + given(b),
        silent(a + b) == silent(a) + silent(b),
        outcome.answer is None ==> given(seq![outcome]) == Seq::<Seq<u8>>::empty() && silent(
            seq![outcome],
        ) == seq![outcome.to],
        outcome.answer matches Some(m) ==> given(seq![outcome]) == seq![m@] && silent(seq![outcome])
            == Seq::<Endpoint>::empty(),
    decreases b.len(),
{
    reveal_with_fuel(given, 2);
    reveal_with_fuel(silent, 2);
    assert(seq![outcome].drop_last() =~= Seq::<Outcome>::empty());
    match outcome.answer {
        Some(m) => {
            assert(given(seq![outcome]) =~= seq![m@]);
        },
        None => {
            assert(silent(seq![outcome]) =~= seq![outcome.to]);
        },
    }
    if b.len() == 0 {
        assert(a + b =~= a);
    } else {
        assert((a + b).drop_last() =~= a + b.drop_last());
        every_outcome_is_an_answer_or_a_silence(a, b.drop_last(), outcome);
    }
    assert(given(a + b) =~= given(a) + given(b));
    assert(silent(a + b) =~= silent(a) + silent(b));
}

/// Those who are left keep their order, and each of them all mentions.
pub proof fn the_living_keep_their_order(a: Seq<Endpoint>, b: Seq<Endpoint>, dead: Seq<Endpoint>)
    ensures
        living(a + b, dead) == living(a, dead) + living(b, dead),
        living(a, Seq::empty()) == a,
    decreases b.len(), a.len(),
{
    if a.len() > 0 {
        the_living_keep_their_order(a.drop_last(), Seq::empty(), dead);
        assert(living(a, Seq::empty()) =~= a);
    } else {
        assert(living(a, Seq::empty()) =~= a);
    }
    if b.len() == 0 {
        assert(a + b =~= a);
    } else {
        assert((a + b).drop_last() =~= a + b.drop_last());
        the_living_keep_their_order(a, b.drop_last(), dead);
    }
    assert(living(a + b, dead) =~= living(a, dead) + living(b, dead));
}

} // verus!
