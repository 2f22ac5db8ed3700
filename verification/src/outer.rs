//! What a staker's node hears from the gossip network, from outsiders and from
//! its interface, and how it gives blocks to those who lack them.

use crate::frame::{asked_block, read_asked_block, staker_sync_request, sync_request, tagged,
    untagged, ANNOUNCEMENT, ANSWER, ASK_AGAIN, BLOCK, COMMITMENT, COMMITMENT_SUM, CONNECT, ENTRANCE,
    ENTRY, LIGHTNING, RING, SIGNATURE, SYNC, TRANSACTION};
use crate::keys::Key;
use crate::net::{pick, plain_endpoint, someone_at, Contact, Endpoint, Ip, PeerId};
use crate::node::KhoraNode;
use crate::pool::Gossip;
use crate::rules::OUTSIDER_PORT;
use crate::wire::{pack_list, packed_list, rows};
use vstd::prelude::*;

verus! {

/// What a message is, by the byte that it ends in.
#[derive(Clone, Copy, PartialEq, Eq, Structural)]
pub enum Kind {
    /// there is no message
    Empty,
    /// a transaction
    Transaction,
    /// the transactions of the next block
    Entry,
    /// a validator's signature
    Signature,
    /// a full block
    Block,
    /// a refusal to serve a sync request
    AskAgain,
    /// a wish to connect
    Connect,
    /// a wish to enter
    Entrance,
    /// a lightning block
    Lightning,
    /// the announcement of an address
    Announcement,
    /// a question for the members of a ring
    Ring,
    /// a request for blocks
    Sync,
    /// a validator's commitment
    Commitment,
    /// the sum of the commitments
    CommitmentSum,
    /// a validator's answer to the challenge
    Answer,
    /// a question for an account in the history
    History,
    /// a request to spend
    Spend,
    /// a push of the panic button
    Panic,
    /// an address to enter the network at
    EntryAddress,
    /// a question for the number of friends
    Friends,
    /// a wish to save the node
    Save,
    /// something that nobody here understands
    Spam,
}

/// A message, and what it is.
pub struct Message {
    pub kind: Kind,
    /// the message without the byte that it ends in
    pub body: Vec<u8>,
}

/// What a validator hears: transactions for the next block, signatures and
/// blocks.
pub open spec fn inner_kind(tag: u8) -> Kind {
    if tag == ENTRY {
        Kind::Entry
    } else if tag == SIGNATURE {
        Kind::Signature
    } else if tag == BLOCK {
        Kind::Block
    } else {
        Kind::Spam
    }
}

/// What a plain node hears.
pub open spec fn outer_kind(tag: u8) -> Kind {
    if tag == TRANSACTION {
        Kind::Transaction
    } else if tag == BLOCK {
        Kind::Block
    } else if tag == ASK_AGAIN {
        Kind::AskAgain
    } else if tag == CONNECT {
        Kind::Connect
    } else if tag == LIGHTNING {
        Kind::Lightning
    } else if tag == ANNOUNCEMENT {
        Kind::Announcement
    } else if tag == SYNC {
        Kind::Sync
    } else {
        Kind::Spam
    }
}

/// What a full staker hears.
pub open spec fn member_kind(tag: u8) -> Kind {
    if tag == TRANSACTION {
        Kind::Transaction
    } else if tag == ENTRY {
        Kind::Entry
    } else if tag == SIGNATURE {
        Kind::Signature
    } else if tag == BLOCK {
        Kind::Block
    } else if tag == COMMITMENT {
        Kind::Commitment
    } else if tag == COMMITMENT_SUM {
        Kind::CommitmentSum
    } else if tag == ANSWER {
        Kind::Answer
    } else if tag == 255 {
        Kind::History
    } else {
        Kind::Spam
    }
}

/// What outsiders say.
pub open spec fn outsider_kind(tag: u8) -> Kind {
    if tag == TRANSACTION {
        Kind::Transaction
    } else if tag == ENTRANCE {
        Kind::Entrance
    } else if tag == RING {
        Kind::Ring
    } else if tag == SYNC {
        Kind::Sync
    } else {
        Kind::Spam
    }
}

/// What the interface says, of a staker as of a user.
pub open spec fn interface_kind(tag: u8) -> Kind {
    if tag == 33 {
        Kind::Spend
    } else if tag == 255 {
        Kind::Panic
    } else if tag == SYNC {
        Kind::Sync
    } else if tag == 42 {
        Kind::EntryAddress
    } else if tag == 64 {
        Kind::Friends
    } else if tag == 0 {
        Kind::Save
    } else {
        Kind::Spam
    }
}

/// `r` is the message `m`, which its last byte says is of the given kind; an
/// empty message is of no kind.
pub open spec fn sorted(m: Seq<u8>, kind: Kind, r: Message) -> bool {
    if m.len() == 0 {
        r.kind == Kind::Empty && r.body@ == Seq::<u8>::empty()
    } else {
        r.kind == kind && r.body@ == m.drop_last()
    }
}

/// Reads what came to a validator.
pub fn read_inner(m: &Vec<u8>) -> (r: Message)
    ensures
        sorted(m@, inner_kind(m@.last()), r),
{
    match untagged(m) {
        None => Message { kind: Kind::Empty, body: Vec::new() },
        Some((tag, body)) => {
            let kind: Kind = if tag == ENTRY {
                Kind::Entry
            } else if tag == SIGNATURE {
                Kind::Signature
            } else if tag == BLOCK {
                Kind::Block
            } else {
                Kind::Spam
            };
            Message { kind, body }
        },
    }
}

/// Reads what came to a plain node.
pub fn read_outer(m: &Vec<u8>) -> (r: Message)
    ensures
        sorted(m@, outer_kind(m@.last()), r),
{
    match untagged(m) {
        None => Message { kind: Kind::Empty, body: Vec::new() },
        Some((tag, body)) => {
            let kind: Kind = if tag == TRANSACTION {
                Kind::Transaction
            } else if tag == BLOCK {
                Kind::Block
            } else if tag == ASK_AGAIN {
                Kind::AskAgain
            } else if tag == CONNECT {
                Kind::Connect
            } else if tag == LIGHTNING {
                Kind::Lightning
            } else if tag == ANNOUNCEMENT {
                Kind::Announcement
            } else if tag == SYNC {
                Kind::Sync
            } else {
                Kind::Spam
            };
            Message { kind, body }
        },
    }
}

/// Reads what came to a full staker.
pub fn read_member(m: &Vec<u8>) -> (r: Message)
    ensures
        sorted(m@, member_kind(m@.last()), r),
{
    match untagged(m) {
        None => Message { kind: Kind::Empty, body: Vec::new() },
        Some((tag, body)) => {
            let kind: Kind = if tag == TRANSACTION {
                Kind::Transaction
            } else if tag == ENTRY {
                Kind::Entry
            } else if tag == SIGNATURE {
                Kind::Signature
            } else if tag == BLOCK {
                Kind::Block
            } else if tag == COMMITMENT {
                Kind::Commitment
            } else if tag == COMMITMENT_SUM {
                Kind::CommitmentSum
            } else if tag == ANSWER {
                Kind::Answer
            } else if tag == 255 {
                Kind::History
            } else {
                Kind::Spam
            };
            Message { kind, body }
        },
    }
}

/// Reads what an outsider sent.
pub fn read_outsider(m: &Vec<u8>) -> (r: Message)
    ensures
        sorted(m@, outsider_kind(m@.last()), r),
{
    match untagged(m) {
        None => Message { kind: Kind::Empty, body: Vec::new() },
        Some((tag, body)) => {
            let kind: Kind = if tag == TRANSACTION {
                Kind::Transaction
            } else if tag == ENTRANCE {
                Kind::Entrance
            } else if tag == RING {
                Kind::Ring
            } else if tag == SYNC {
                Kind::Sync
            } else {
                Kind::Spam
            };
            Message { kind, body }
        },
    }
}

/// Reads what the interface sent.
pub fn read_interface(m: &Vec<u8>) -> (r: Message)
    ensures
        sorted(m@, interface_kind(m@.last()), r),
{
    match untagged(m) {
        None => Message { kind: Kind::Empty, body: Vec::new() },
        Some((tag, body)) => {
            let kind: Kind = if tag == 33 {
                Kind::Spend
            } else if tag == 255 {
                Kind::Panic
            } else if tag == SYNC {
                Kind::Sync
            } else if tag == 42 {
                Kind::EntryAddress
            } else if tag == 64 {
                Kind::Friends
            } else if tag == 0 {
                Kind::Save
            } else {
                Kind::Spam
            };
            Message { kind, body }
        },
    }
}

/// The answer to a question for the members of a ring: the accounts as the
/// history holds them.
pub fn ring_answer(accounts: &Vec<Vec<u8>>) -> (r: Vec<u8>)
    ensures
        r@ == packed_list(rows(accounts@)),
{
    pack_list(accounts)
}

/// The number of the block to try for an outsider after the one with the given
/// number, if the search goes on: it ends once a block was found, or at the
/// node's next block.
pub fn next_for_outsider(number: u64, bnum: u64, found: bool) -> (r: Option<u64>)
    requires
        !found ==> number < u64::MAX,
    ensures
        r is None <==> found || number + 1 == bnum,
        r matches Some(next) ==> next == number + 1,
        r == (if found || number + 1 == bnum {
            None
        } else {
            Some((number + 1) as u64)
        }),
{
    if found || number + 1 == bnum {
        None
    } else {
        Some(number + 1)
    }
}

/// A block to look for on behalf of someone who lacks it.
#[derive(Clone, Copy, PartialEq, Eq, Structural)]
pub struct Errand {
    pub to: PeerId,
    pub number: u64,
    pub lightning: bool,
}

impl KhoraNode {
    /// The block that is looked for next on behalf of whoever is being served.
    pub open spec fn errand(&self) -> Option<Errand> {
        if self.sync_returnaddr is Some && self.sync_theirnum <= self.bnum {
            Some(
                Errand {
                    to: self.sync_returnaddr->0,
                    number: self.sync_theirnum,
                    lightning: self.sync_lightning,
                },
            )
        } else {
            None
        }
    }

    /// Says which block is looked for next.
    pub fn next_errand(&self) -> (r: Option<Errand>)
        ensures
            r == self.errand(),
    {
        match self.sync_returnaddr {
            Some(to) => if self.sync_theirnum <= self.bnum {
                Some(
                    Errand { to, number: self.sync_theirnum, lightning: self.sync_lightning },
                )
            } else {
                None
            },
            None => None,
        }
    }

    /// Takes what was found of the block that was looked for, and gives the
    /// message to send, marked as the sort of block that it holds. Whether or
    /// not it was found, the next one is looked for from now on.
    pub fn errand_done(&mut self, found: &Option<Vec<u8>>) -> (r: Option<Vec<u8>>)
        requires
            old(self).sync_theirnum < u64::MAX,
        ensures
            r is Some <==> found is Some,
            r matches Some(m) ==> m@.drop_last() == found->0@ && outer_kind(m@.last()) == (if old(
                self,
            ).sync_lightning {
                Kind::Lightning
            } else {
                Kind::Block
            }),
            final(self).errand() matches Some(e) ==> e.number == old(self).sync_theirnum + 1
                && old(self).sync_returnaddr == Some(e.to) && e.lightning == old(
                self,
            ).sync_lightning,
            r matches Some(m) ==> m@ == found->0@.push(
                if old(self).sync_lightning {
                    LIGHTNING
                } else {
                    BLOCK
                },
            ),
            *final(self) == (KhoraNode {
                sync_theirnum: (old(self).sync_theirnum + 1) as u64,
                ..*old(self)
            }),
    {
        self.sync_theirnum = self.sync_theirnum + 1;
        let tag: u8 = if self.sync_lightning {
            LIGHTNING
        } else {
            BLOCK
        };
        proof {
            if let Some(block) = found {
                assert(block@.push(tag).drop_last() =~= block@);
            }
        }
        match found {
            Some(block) => Some(tagged(block, tag)),
            None => None,
        }
    }

    /// A sync request, without its last byte, can be served: nobody is being
    /// served, it is eight bytes and the sort of block, and full blocks are
    /// asked only of a node that keeps them.
    pub open spec fn can_serve(&self, m: Seq<u8>) -> bool {
        self.sync_returnaddr is None && m.len() > 0 && asked_block(m.drop_last()) is Some && (
        m.last() == LIGHTNING || !self.lightning_yielder)
    }

    /// Takes a sync request from a peer. One that cannot be served is answered,
    /// unless it is the node's own.
    pub fn take_sync_request(&mut self, m: &Vec<u8>, from: PeerId, me: PeerId) -> (r: Option<
        Vec<u8>,
    >)
        ensures
            r is Some <==> !old(self).can_serve(m@) && from != me,
            r matches Some(answer) ==> answer@ == seq![ASK_AGAIN],
            r matches Some(answer) ==> outer_kind(answer@.last()) is AskAgain,
            old(self).sync_returnaddr is Some ==> *final(self) == *old(self),
            forall|number: u64, sort: u8|
                m@ == #[trigger] crate::bytes::le_bytes(number as nat, 8).push(sort) && old(
                    self,
                ).sync_returnaddr is None && (sort == 108 || !old(self).lightning_yielder) ==> r
                    is None && final(self).sync_returnaddr == Some(from)
                    && final(self).sync_theirnum == number && final(self).sync_lightning == (sort
                    == 108),
            *final(self) == (if old(self).can_serve(m@) {
                KhoraNode {
                    sync_returnaddr: Some(from),
                    sync_theirnum: asked_block(m@.drop_last())->0 as u64,
                    sync_lightning: m@.last() == LIGHTNING,
                    ..*old(self)
                }
            } else {
                *old(self)
            }),
    {
        proof {
            assert forall|number: u64, sort: u8|
                m@ == #[trigger] crate::bytes::le_bytes(number as nat, 8).push(
                    sort,
                ) implies m@.last() == sort && asked_block(m@.drop_last()) == Some(
                number as nat,
            ) && m@.len() > 0 by {
                let written = crate::bytes::le_bytes(number as nat, 8);
                assert(m@.drop_last() =~= written);
                crate::frame::user_requests_are_understood(number);
            }
        }
        if self.sync_returnaddr.is_none() {
            if let Some((sort, number)) = untagged(m) {
                if let Some(n) = read_asked_block(&number) {
                    if sort == LIGHTNING || !self.lightning_yielder {
                        self.sync_lightning = sort == LIGHTNING;
                        self.sync_returnaddr = Some(from);
                        self.sync_theirnum = n;
                        return None;
                    }
                }
            }
        }
        if from == me {
            return None;
        }
        let mut answer: Vec<u8> = Vec::new();
        answer.push(ASK_AGAIN);
        assert(answer@ =~= seq![ASK_AGAIN]);
        Some(answer)
    }

    /// Asks a friend, if there is one, for the blocks that the node lacks.
    pub fn ask_friend(&self, friend: Option<Endpoint>) -> (r: Option<(PeerId, Vec<u8>)>)
        ensures
            r is Some <==> friend is Some,
            r matches Some(p) ==> p.0 == (PeerId { endpoint: friend->0, local: 0 }) && p.1@
                == sync_request(self.bnum, self.lightning_yielder),
    {
        match friend {
            Some(endpoint) => Some(
                (
                    PeerId { endpoint, local: 0 },
                    staker_sync_request(self.bnum, self.lightning_yielder),
                ),
            ),
            None => None,
        }
    }

    /// Asks someone in the address book, whom chance picks, for the blocks that
    /// the node lacks. Nobody is asked only if no address is known.
    pub fn ask_for_blocks(&self) -> (r: Option<(PeerId, Vec<u8>)>)
        ensures
            r is None <==> forall|e: Endpoint| !someone_at(self.allnetwork@, e),
            r matches Some(p) ==> p.0.local == 0 && someone_at(self.allnetwork@, p.0.endpoint)
                && p.1@ == sync_request(self.bnum, self.lightning_yielder),
    {
        let known: Vec<Endpoint> = self.allnetwork.known_addresses();
        let friend: Option<Endpoint> = pick(&known);
        proof {
            if known@.len() == 0 {
                assert forall|e: Endpoint| !someone_at(self.allnetwork@, e) by {
                    assert(!known@.contains(e));
                }
            } else {
                assert(known@.contains(known@[0]));
                assert(someone_at(self.allnetwork@, known@[0]));
            }
        }
        self.ask_friend(friend)
    }

    /// Takes the announcement of an address, given who signed it and what it
    /// says as far as both could be made out. It is passed on only then.
    pub fn take_announcement(&mut self, who: Option<Key>, ip: Option<Ip>) -> (r: Gossip)
        ensures
            r == (if who is Some && ip is Some {
                Gossip::Pass
            } else {
                Gossip::Drop
            }),
            forall|k: Key| #[trigger]
                final(self).allnetwork@.contains_key(k) == old(self).allnetwork@.contains_key(k),
            forall|k: Key|
                who != Some(k) ==> #[trigger] final(self).allnetwork@[k] == old(self).allnetwork@[k],
            who is Some && ip is Some && old(self).allnetwork@.contains_key(who->0)
                ==> final(self).allnetwork@[who->0].place == old(self).allnetwork@[who->0].place
                && final(self).allnetwork@[who->0].addr == Some(
                (Endpoint { ip: ip->0, port: 8335, flow: 0, scope: 0 }),
            ),
            final(self).allnetwork@ == (if who is Some && ip is Some
                && old(self).allnetwork@.contains_key(who->0) {
                old(self).allnetwork@.insert(
                    who->0,
                    Contact {
                        addr: Some(plain_endpoint(ip->0, OUTSIDER_PORT)),
                        ..old(self).allnetwork@[who->0]
                    },
                )
            } else {
                old(self).allnetwork@
            }),
            *final(self) == (KhoraNode { allnetwork: final(self).allnetwork, ..*old(self) }),
    {
        match who {
            Some(key) => match ip {
                Some(address) => {
                    self.allnetwork.announce(&key, address);
                    Gossip::Pass
                },
                None => Gossip::Drop,
            },
            None => Gossip::Drop,
        }
    }
}

/// Serving ends: no block above the node's own next one is looked for, and
/// with each block that was looked for one less is left.
pub proof fn serving_ends(before: KhoraNode, after: KhoraNode)
    requires
        before.errand() is Some,
        after == (KhoraNode {
            sync_theirnum: (before.sync_theirnum + 1) as u64,
            ..before
        }),
        before.sync_theirnum < u64::MAX,
    ensures
        before.errand()->0.number <= before.bnum,
        after.bnum - after.sync_theirnum == before.bnum - before.sync_theirnum - 1,
        after.errand() is Some ==> after.errand()->0.number == before.errand()->0.number + 1
            && after.errand()->0.to == before.errand()->0.to && after.errand()->0.lightning
            == before.errand()->0.lightning,
{
}

/// Whoever asks a node that serves nobody and keeps what is asked for is given
/// blocks from the first one that is lacking.
pub proof fn requests_are_served(asker: KhoraNode, giver: KhoraNode)
    requires
        giver.sync_returnaddr is None,
        asker.lightning_yielder || !giver.lightning_yielder,
    ensures
        ({
            let request = sync_request(asker.bnum, asker.lightning_yielder);
            &&& outer_kind(request.last()) == Kind::Sync
            &&& giver.can_serve(request.drop_last())
            &&& asked_block(request.drop_last().drop_last()) == Some(asker.bnum as nat)
        }),
{
    crate::frame::sync_request_is_understood(asker.bnum, asker.lightning_yielder);
    let body = sync_request(asker.bnum, asker.lightning_yielder).drop_last();
    assert(body.len() > 0) by {
        crate::bytes::lemma_le_bytes_len(asker.bnum as nat, 8);
    }
}

/// A block that is given is read as what was asked for: whoever lives on
/// lightning blocks is given lightning blocks, whoever does not full ones.
pub proof fn given_blocks_are_what_was_asked_for(asker: KhoraNode, giver: KhoraNode, block: Seq<u8>)
    requires
        giver.sync_lightning == (sync_request(
            asker.bnum,
            asker.lightning_yielder,
        ).drop_last().last() == LIGHTNING),
    ensures
        ({
            let answer = block.push(
                if giver.sync_lightning {
                    LIGHTNING
                } else {
                    BLOCK
                },
            );
            &&& outer_kind(answer.last()) == (if asker.lightning_yielder {
                Kind::Lightning
            } else {
                Kind::Block
            })
            &&& answer.drop_last() == block
        }),
{
    crate::frame::sync_request_is_understood(asker.bnum, asker.lightning_yielder);
    let answer = block.push(
        if giver.sync_lightning {
            LIGHTNING
        } else {
            BLOCK
        },
    );
    assert(answer.drop_last() =~= block);
}

/// What a message is, by its last byte, wherever it is heard.
pub proof fn last_bytes_tell_messages_apart(tag: u8)
    ensures
        inner_kind(tag) is Entry <==> tag == 1,
        inner_kind(tag) is Signature <==> tag == 2,
        inner_kind(tag) is Block <==> tag == 3,
        tag == 0 || tag > 3 ==> inner_kind(tag) is Spam,
        outer_kind(tag) is Transaction <==> tag == 0,
        outer_kind(tag) is Block <==> tag == 3,
        outer_kind(tag) is AskAgain <==> tag == 60,
        outer_kind(tag) is Connect <==> tag == 97,
        outer_kind(tag) is Lightning <==> tag == 108,
        outer_kind(tag) is Announcement <==> tag == 110,
        outer_kind(tag) is Sync <==> tag == 121,
        outer_kind(tag) is Spam <==> tag != 0 && tag != 3 && tag != 60 && tag != 97 && tag != 108
            && tag != 110 && tag != 121,
        member_kind(tag) is Transaction <==> tag == 0,
        member_kind(tag) is Entry <==> tag == 1,
        member_kind(tag) is Signature <==> tag == 2,
        member_kind(tag) is Block <==> tag == 3,
        member_kind(tag) is Commitment <==> tag == 4,
        member_kind(tag) is CommitmentSum <==> tag == 5,
        member_kind(tag) is Answer <==> tag == 6,
        member_kind(tag) is History <==> tag == 255,
        member_kind(tag) is Spam <==> 6 < tag < 255,
        outsider_kind(tag) is Transaction <==> tag == 0,
        outsider_kind(tag) is Entrance <==> tag == 101,
        outsider_kind(tag) is Ring <==> tag == 114,
        outsider_kind(tag) is Sync <==> tag == 121,
        outsider_kind(tag) is Spam <==> tag != 0 && tag != 101 && tag != 114 && tag != 121,
        interface_kind(tag) is Spend <==> tag == 33,
        interface_kind(tag) is Panic <==> tag == 255,
        interface_kind(tag) is Sync <==> tag == 121,
        interface_kind(tag) is EntryAddress <==> tag == 42,
        interface_kind(tag) is Friends <==> tag == 64,
        interface_kind(tag) is Save <==> tag == 0,
        interface_kind(tag) is Spam <==> tag != 33 && tag != 255 && tag != 121 && tag != 42 && tag
            != 64 && tag != 0,
{
}

/// A message that was marked is read as what it was marked as, with nothing
/// lost.
pub proof fn marked_messages_are_read_whole(body: Seq<u8>, tag: u8, kind: Kind, r: Message)
    requires
        sorted(body.push(tag), kind, r),
    ensures
        r.kind == kind,
        r.body@ == body,
{
    assert(body.push(tag).drop_last() =~= body);
}

/// Whoever is being served is given the blocks from the one that was asked for
/// up to the giver's next one, of the sort that was asked for.
pub proof fn errands_are_for_whoever_asked(n: KhoraNode)
    ensures
        n.errand() is Some <==> n.sync_returnaddr is Some && n.sync_theirnum <= n.bnum,
        n.errand() matches Some(e) ==> n.sync_returnaddr == Some(e.to) && e.number
            == n.sync_theirnum && e.lightning == n.sync_lightning,
{
}

/// A request is served by a node that serves nobody else and, where anything
/// but lightning blocks is asked for, keeps full blocks; it has to be the number
/// of a block in eight bytes, and the sort.
pub proof fn requests_are_refused_for_a_reason(n: KhoraNode, number: Seq<u8>, sort: u8)
    ensures
        n.can_serve(number.push(sort)) <==> n.sync_returnaddr is None && number.len() == 8 && (sort
            == 108 || !n.lightning_yielder),
        !n.can_serve(Seq::empty()),
{
    assert(number.push(sort).drop_last() =~= number);
}

/// Where there is no message, nothing is read.
pub proof fn nothing_is_read_from_nothing(kind: Kind, r: Message)
    requires
        sorted(Seq::empty(), kind, r),
    ensures
        r.kind is Empty,
        r.body@.len() == 0,
{
}

} // verus!
