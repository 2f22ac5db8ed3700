//! What a staker's node leaves on disk, and how it comes back from there.

use crate::block::BlockSummary;
use crate::bytes::copy_bytes;
use crate::clock::{Clocks, SECOND};
use crate::keys::{Key, KeySet};
use crate::net::{AddressBook, PeerId};
use crate::node::{copy_rows, copy_stakers, copy_votes, KhoraNode, OldStake, Stake};
use crate::rules::ChainRules;
use crate::wire::rows;
use std::collections::HashMap;
use vstd::prelude::*;

verus! {

/// What the ledger keeps for a node, in the form in which it is put on disk.
/// The ledger alone can read the accounts in it, which stand here as they are
/// packed; the times stand here as their bits.
pub struct Holdings {
    /// the own account
    pub me: Vec<u8>,
    /// the accounts of the own coins, by their places
    pub mine: HashMap<u64, Vec<u8>>,
    /// the key that the node signs with
    pub key: Key,
    /// the tags of all coins that were spent
    pub alltagsever: Vec<Key>,
    /// the two keys of the filter of tags, if there is one
    pub bloom: Option<(u128, u128)>,
    /// how long the chain runs
    pub cumtime: u64,
    /// how long a block takes
    pub blocktime: u64,
}

/// What is saved of a staker's node.
pub struct SavedNode {
    pub holdings: Holdings,
    pub smine: Option<Stake>,
    pub allnetwork: AddressBook,
    pub keylocation: Option<u64>,
    pub leader: Key,
    pub overthrown: KeySet,
    pub votes: Vec<i32>,
    pub stkinfo: Vec<(Key, u64)>,
    pub queue: Vec<Vec<usize>>,
    pub exitqueue: Vec<Vec<usize>>,
    pub comittee: Vec<Vec<usize>>,
    pub lastname: Vec<u8>,
    pub bnum: u64,
    pub lastbnum: u64,
    pub height: u64,
    pub sheight: u64,
    pub headshard: usize,
    pub moneyreset: Option<Vec<u8>>,
    pub oldstk: Option<OldStake>,
    pub lightning_yielder: bool,
    pub is_validator: bool,
    pub ringsize: u8,
}

/// The same bytes, or none in both places.
pub open spec fn same_message(a: Option<Vec<u8>>, b: Option<Vec<u8>>) -> bool {
    match (a, b) {
        (Some(x), Some(y)) => x@ == y@,
        (None, None) => true,
        _ => false,
    }
}

impl SavedNode {
    /// What was saved is what the node knows, the holdings apart.
    pub open spec fn tells_of(&self, n: KhoraNode) -> bool {
        &&& self.smine == n.smine
        &&& self.allnetwork@ == n.allnetwork@
        &&& self.allnetwork.addresses() == n.allnetwork.addresses()
        &&& self.keylocation == n.keylocation
        &&& self.leader == n.leader
        &&& self.overthrown@ == n.overthrown@
        &&& self.votes@ == n.votes@
        &&& self.stkinfo@ == n.stkinfo@
        &&& rows(self.queue@) == rows(n.queue@)
        &&& rows(self.exitqueue@) == rows(n.exitqueue@)
        &&& rows(self.comittee@) == rows(n.comittee@)
        &&& self.lastname@ == n.lastname@
        &&& self.bnum == n.bnum
        &&& self.lastbnum == n.lastbnum
        &&& self.height == n.height
        &&& self.sheight == n.sheight
        &&& self.headshard == n.headshard
        &&& same_message(self.moneyreset, n.moneyreset)
        &&& self.oldstk == n.oldstk
        &&& self.lightning_yielder == n.lightning_yielder
        &&& self.is_validator == n.is_validator
        &&& self.ringsize == n.ringsize
    }
}

/// A node that was loaded, and whom it turns to.
pub struct Loaded {
    pub node: KhoraNode,
    /// what the ledger is to keep for it
    pub holdings: Holdings,
    /// old friends to join
    pub join: Vec<PeerId>,
    /// those whom messages are pushed to at once
    pub eager: Vec<PeerId>,
    /// those who are only told that there are messages
    pub lazy: Vec<PeerId>,
    /// whether the node announces its address
    pub announce: bool,
}

fn knows(peers: &Vec<PeerId>, peer: PeerId) -> (r: bool)
    ensures
        r == peers@.contains(peer),
{
    let mut i: usize = 0;
    while i < peers.len()
        invariant
            i <= peers@.len(),
            forall|j: int| 0 <= j < i ==> peers@[j] != peer,
        decreases peers@.len() - i,
    {
        if peers[i] == peer {
            assert(peers@[i as int] == peer);
            return true;
        }
        i = i + 1;
    }
    false
}

fn add_peers(to: &mut Vec<PeerId>, more: &Vec<PeerId>)
    requires
        old(to)@.no_duplicates(),
    ensures
        final(to)@.no_duplicates(),
        forall|p: PeerId| #[trigger]
            final(to)@.contains(p) == (old(to)@.contains(p) || more@.contains(p)),
{
    let ghost start = to@;
    let mut i: usize = 0;
    while i < more.len()
        invariant
            i <= more@.len(),
            to@.no_duplicates(),
            forall|p: PeerId| start.contains(p) ==> #[trigger] to@.contains(p),
            forall|j: int| 0 <= j < i ==> to@.contains(#[trigger] more@[j]),
            forall|p: PeerId| #[trigger] to@.contains(p) ==> start.contains(p) || more@.contains(p),
        decreases more@.len() - i,
    {
        let peer: PeerId = more[i];
        assert(more@.contains(more@[i as int]));
        if !knows(to, peer) {
            let ghost before = to@;
            to.push(peer);
            proof {
                assert forall|p: PeerId| #[trigger] to@.contains(p) <==> before.contains(p) || p
                    == peer by {
                    if before.contains(p) {
                        let j = choose|j: int| 0 <= j < before.len() && before[j] == p;
                        assert(to@[j] == p);
                    }
                    if p == peer {
                        assert(to@[before.len() as int] == p);
                    }
                }
            }
        }
        i = i + 1;
    }
    proof {
        assert forall|p: PeerId| #[trigger] to@.contains(p) == (start.contains(p)
            || more@.contains(p)) by {
            if more@.contains(p) {
                let j = choose|j: int| 0 <= j < more@.len() && more@[j] == p;
                assert(to@.contains(more@[j]));
            }
        }
    }
}

/// The peers of two lists, each once.
pub fn all_peers(lazy: &Vec<PeerId>, eager: &Vec<PeerId>) -> (r: Vec<PeerId>)
    ensures
        r@.no_duplicates(),
        forall|p: PeerId| #[trigger] r@.contains(p) == (lazy@.contains(p) || eager@.contains(p)),
{
    let mut out: Vec<PeerId> = Vec::new();
    add_peers(&mut out, lazy);
    add_peers(&mut out, eager);
    out
}

fn copy_peers(peers: &Vec<PeerId>) -> (r: Vec<PeerId>)
    ensures
        r@ == peers@,
{
    let mut out: Vec<PeerId> = Vec::new();
    let mut i: usize = 0;
    while i < peers.len()
        invariant
            i <= peers@.len(),
            out@ == peers@.subrange(0, i as int),
        decreases peers@.len() - i,
    {
        out.push(peers[i]);
        assert(out@ =~= peers@.subrange(0, i + 1));
        i = i + 1;
    }
    assert(out@ =~= peers@);
    out
}

fn copy_message(m: &Option<Vec<u8>>) -> (r: Option<Vec<u8>>)
    ensures
        same_message(r, *m),
{
    match m {
        Some(b) => Some(copy_bytes(b)),
        None => None,
    }
}

impl KhoraNode {
    /// What to save of the node, for which the ledger keeps `holdings`. While a
    /// panic is on nothing is saved.
    pub fn save(&self, holdings: Holdings) -> (r: Option<SavedNode>)
        ensures
            r is Some <==> self.moneyreset is None && self.oldstk is None,
            r matches Some(s) ==> s.tells_of(*self) && s.holdings == holdings,
            r matches Some(s) ==> s.moneyreset is None && s.oldstk is None,
    {
        if self.moneyreset.is_some() || self.oldstk.is_some() {
            return None;
        }
        Some(
            SavedNode {
                holdings,
                smine: self.smine,
                allnetwork: self.allnetwork.copy(),
                keylocation: self.keylocation,
                leader: self.leader,
                overthrown: KeySet::from_vec(&self.overthrown.to_vec()),
                votes: copy_votes(&self.votes),
                stkinfo: copy_stakers(&self.stkinfo),
                queue: copy_rows(&self.queue),
                exitqueue: copy_rows(&self.exitqueue),
                comittee: copy_rows(&self.comittee),
                lastname: copy_bytes(&self.lastname),
                bnum: self.bnum,
                lastbnum: self.lastbnum,
                height: self.height,
                sheight: self.sheight,
                headshard: self.headshard,
                moneyreset: copy_message(&self.moneyreset),
                oldstk: self.oldstk,
                lightning_yielder: self.lightning_yielder,
                is_validator: self.is_validator,
                ringsize: self.ringsize,
            },
        )
    }

    /// Makes a node of what was saved. It starts a round of its own, has no
    /// transactions and serves nobody yet. Old friends are joined, those who were
    /// `eager` are so again and those who were `lazy` too, and a node with a
    /// stake announces itself.
    pub fn load(
        s: SavedNode,
        rules: ChainRules,
        lazy: &Vec<PeerId>,
        eager: &Vec<PeerId>,
        now: u64,
    ) -> (r: Loaded)
        requires
            now >= SECOND,
        ensures
            s.tells_of(r.node),
            r.holdings == s.holdings,
            r.node.rules == rules,
            r.node.clocks == (Clocks {
                timekeeper: (now - SECOND) as u64,
                waitingforleader: now,
                waitingforentry: now,
                doneerly: now,
                usurping: now,
                gui: now,
            }),
            r.node.waitingforentrybool,
            !r.node.waitingforleaderbool,
            r.node.txses@.len() == 0,
            r.node.is_node,
            r.node.newest == 0,
            r.node.sync_returnaddr is None,
            r.node.sync_theirnum == 0,
            !r.node.sync_lightning,
            r.join@.no_duplicates(),
            forall|p: PeerId| #[trigger]
                r.join@.contains(p) == (lazy@.contains(p) || eager@.contains(p)),
            forall|i: int| 0 <= i < eager@.len() ==> r.join@.contains(#[trigger] eager@[i]),
            forall|i: int| 0 <= i < lazy@.len() ==> r.join@.contains(#[trigger] lazy@[i]),
            r.eager@ == eager@,
            r.lazy@ == lazy@,
            r.announce == (s.smine is Some),
            r.announce <==> r.node.smine is Some,
            !r.node.leader_late(now, 0) && !r.node.entry_late(now, 0),
            forall|then: u64, secs: u64| #[trigger]
                r.node.round_over(then, secs) <==> s.is_validator && then >= now + secs
                    * 1_000_000_000,
    {
        let join: Vec<PeerId> = all_peers(lazy, eager);
        proof {
            assert forall|i: int| 0 <= i < eager@.len() implies join@.contains(
                #[trigger] eager@[i],
            ) by {
                assert(eager@.contains(eager@[i]));
            }
            assert forall|i: int| 0 <= i < lazy@.len() implies join@.contains(
                #[trigger] lazy@[i],
            ) by {
                assert(lazy@.contains(lazy@[i]));
            }
        }
        let announce: bool = s.smine.is_some();
        let node: KhoraNode = KhoraNode {
            rules,
            allnetwork: s.allnetwork,
            smine: s.smine,
            keylocation: s.keylocation,
            leader: s.leader,
            overthrown: s.overthrown,
            votes: s.votes,
            stkinfo: s.stkinfo,
            queue: s.queue,
            exitqueue: s.exitqueue,
            comittee: s.comittee,
            lastname: s.lastname,
            bnum: s.bnum,
            lastbnum: s.lastbnum,
            height: s.height,
            sheight: s.sheight,
            txses: Vec::new(),
            clocks: Clocks {
                timekeeper: now - SECOND,
                waitingforleader: now,
                waitingforentry: now,
                doneerly: now,
                usurping: now,
                gui: now,
            },
            waitingforentrybool: true,
            waitingforleaderbool: false,
            headshard: s.headshard,
            is_validator: s.is_validator,
            is_node: true,
            newest: 0,
            moneyreset: s.moneyreset,
            sync_returnaddr: None,
            sync_theirnum: 0,
            sync_lightning: false,
            oldstk: s.oldstk,
            lightning_yielder: s.lightning_yielder,
            ringsize: s.ringsize,
        };
        proof {
            assert forall|then: u64, secs: u64| #[trigger]
                node.round_over(then, secs) <==> node.is_validator && then >= now + secs
                    * 1_000_000_000 by {
                crate::rounds::clocks_call_in_time(node, node.leader, 0, then, secs);
            }
        }
        Loaded {
            node,
            holdings: s.holdings,
            join,
            eager: copy_peers(eager),
            lazy: copy_peers(lazy),
            announce,
        }
    }
}

/// What was saved comes back: a node that is loaded from what another left
/// knows all that the other knew of the chain, the network and its own stake,
/// and has the same account, coins, key, tags and times. As nothing is saved
/// during a panic, none is on.
pub proof fn loading_undoes_saving(
    before: KhoraNode,
    held: Holdings,
    s: SavedNode,
    after: KhoraNode,
    got: Holdings,
)
    requires
        before.moneyreset is None && before.oldstk is None,
        s.tells_of(before) && s.holdings == held,
        s.tells_of(after) && got == s.holdings,
    ensures
        got.me@ == held.me@,
        got.mine@ == held.mine@,
        got.key == held.key,
        got.alltagsever@ == held.alltagsever@,
        got.bloom == held.bloom,
        got.cumtime == held.cumtime,
        got.blocktime == held.blocktime,
        after.smine == before.smine,
        after.keylocation == before.keylocation,
        after.allnetwork@ == before.allnetwork@,
        after.leader == before.leader,
        after.overthrown@ == before.overthrown@,
        after.votes@ == before.votes@,
        after.stkinfo@ == before.stkinfo@,
        rows(after.queue@) == rows(before.queue@),
        rows(after.exitqueue@) == rows(before.exitqueue@),
        rows(after.comittee@) == rows(before.comittee@),
        after.lastname@ == before.lastname@,
        after.bnum == before.bnum,
        after.lastbnum == before.lastbnum,
        after.height == before.height,
        after.sheight == before.sheight,
        after.headshard == before.headshard,
        after.oldstk is None,
        after.moneyreset is None,
        after.lightning_yielder == before.lightning_yielder,
        after.is_validator == before.is_validator,
        after.ringsize == before.ringsize,
{
}

/// A fork can be undone: a node that is loaded from what was saved before a
/// block judges every block as the node did before it read that one.
pub proof fn forks_can_be_undone(
    before: KhoraNode,
    s: SavedNode,
    after: KhoraNode,
    other: BlockSummary,
)
    requires
        s.tells_of(before),
        s.tells_of(after),
    ensures
        after.offered(other) == before.offered(other),
        rows(after.comittee@) == rows(before.comittee@),
        after.stkinfo@ == before.stkinfo@,
{
}

} // verus!
