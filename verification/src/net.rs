//! Addresses, peers and the address book of the network.

use crate::keys::{same_key, Key};
use crate::rules::{DEFAULT_PORT, OUTSIDER_PORT};
use rand::seq::SliceRandom;
use vstd::prelude::*;

verus! {

/// An internet address, as a number.
#[derive(Clone, Copy, PartialEq, Eq, Structural)]
pub enum Ip {
    V4(u32),
    V6(u128),
}

/// An internet address with a port. The flow label and the scope belong to
/// the sixth version and are zero in the fourth.
#[derive(Clone, Copy, PartialEq, Eq, Structural)]
pub struct Endpoint {
    pub ip: Ip,
    pub port: u16,
    pub flow: u32,
    pub scope: u32,
}

/// The endpoint with this address and port, and nothing else set.
pub open spec fn plain_endpoint(ip: Ip, port: u16) -> Endpoint {
    Endpoint { ip, port, flow: 0, scope: 0 }
}

/// A node of the gossip network: where it listens, and which of the nodes
/// that listen there it is.
#[derive(Clone, Copy, PartialEq, Eq, Structural)]
pub struct PeerId {
    pub endpoint: Endpoint,
    pub local: u64,
}

/// What is known of a staker: the place in the list of stakers, and the
/// address if one was announced.
#[derive(Clone, Copy, PartialEq, Eq, Structural)]
pub struct Contact {
    pub place: u64,
    pub addr: Option<Endpoint>,
}

/// A line of the address book.
#[derive(Clone, Copy)]
pub struct Neighbour {
    pub key: Key,
    pub contact: Contact,
}

/// No key has two lines.
pub open spec fn distinct_keys(lines: Seq<Neighbour>) -> bool {
    forall|i: int, j: int|
        0 <= i < lines.len() && 0 <= j < lines.len() && i != j ==> #[trigger] lines[i].key
            != #[trigger] lines[j].key
}

/// Whether `key` has a line.
pub open spec fn listed(lines: Seq<Neighbour>, key: Key) -> bool {
    exists|i: int| 0 <= i < lines.len() && #[trigger] lines[i].key == key
}

/// The address book as a map from keys to contacts.
pub open spec fn book(lines: Seq<Neighbour>) -> Map<Key, Contact> {
    Map::new(
        |k: Key| listed(lines, k),
        |k: Key| lines[choose|i: int| 0 <= i < lines.len() && #[trigger] lines[i].key == k].contact,
    )
}

/// Some key has the address `addr`.
pub open spec fn someone_at(contacts: Map<Key, Contact>, addr: Endpoint) -> bool {
    exists|k: Key| #[trigger] contacts.contains_key(k) && contacts[k].addr == Some(addr)
}

/// The addresses in the lines, in their order.
pub open spec fn addresses(lines: Seq<Neighbour>) -> Seq<Endpoint>
    decreases lines.len(),
{
    if lines.len() == 0 {
        Seq::empty()
    } else {
        let before = addresses(lines.drop_last());
        match lines.last().contact.addr {
            Some(a) => before.push(a),
            None => before,
        }
    }
}

proof fn lemma_book_line(lines: Seq<Neighbour>, i: int)
    requires
        distinct_keys(lines),
        0 <= i < lines.len(),
    ensures
        book(lines).contains_key(lines[i].key),
        book(lines)[lines[i].key] == lines[i].contact,
{
    let k = lines[i].key;
    let c = choose|c: int| 0 <= c < lines.len() && #[trigger] lines[c].key == k;
    assert(lines[i].key == k);
    assert(lines[c].key == k);
}

/// The stakers of the network by their keys. The application fills it from
/// the ledger; a key has at most one line.
pub struct AddressBook {
    lines: Vec<Neighbour>,
}

impl View for AddressBook {
    type V = Map<Key, Contact>;

    closed spec fn view(&self) -> Map<Key, Contact> {
        book(self.lines@)
    }
}

impl AddressBook {
    #[verifier::type_invariant]
    spec fn distinct(&self) -> bool {
        distinct_keys(self.lines@)
    }

    /// The addresses in the book, one for each key that has one. Their order
    /// is that of the lines.
    pub closed spec fn addresses(&self) -> Seq<Endpoint> {
        addresses(self.lines@)
    }

    /// The empty book.
    pub fn new() -> (r: AddressBook)
        ensures
            r@ == Map::<Key, Contact>::empty(),
            r.addresses() == Seq::<Endpoint>::empty(),
    {
        let r: AddressBook = AddressBook { lines: Vec::new() };
        assert(r@ =~= Map::<Key, Contact>::empty());
        r
    }

    fn find(&self, key: &Key) -> (r: Option<usize>)
        ensures
            r is Some <==> self@.contains_key(*key),
            r matches Some(i) ==> i < self.lines@.len() && self.lines@[i as int].key == *key
                && self@[*key] == self.lines@[i as int].contact,
    {
        proof {
            use_type_invariant(self);
        }
        let mut i: usize = 0;
        while i < self.lines.len()
            invariant
                i <= self.lines@.len(),
                distinct_keys(self.lines@),
                forall|j: int| 0 <= j < i ==> #[trigger] self.lines@[j].key != *key,
            decreases self.lines@.len() - i,
        {
            if same_key(&self.lines[i].key, key) {
                proof {
                    lemma_book_line(self.lines@, i as int);
                }
                return Some(i);
            }
            i = i + 1;
        }
        None
    }

    /// What is known of `key`.
    pub fn get(&self, key: &Key) -> (r: Option<Contact>)
        ensures
            r == (if self@.contains_key(*key) {
                Some(self@[*key])
            } else {
                None
            }),
    {
        match self.find(key) {
            Some(i) => Some(self.lines[i].contact),
            None => None,
        }
    }

    fn copy_lines(&self) -> (r: Vec<Neighbour>)
        ensures
            r@ == self.lines@,
    {
        let mut out: Vec<Neighbour> = Vec::new();
        let mut i: usize = 0;
        while i < self.lines.len()
            invariant
                i <= self.lines@.len(),
                out@ == self.lines@.subrange(0, i as int),
            decreases self.lines@.len() - i,
        {
            out.push(self.lines[i]);
            assert(out@ =~= self.lines@.subrange(0, i + 1));
            i = i + 1;
        }
        assert(out@ =~= self.lines@);
        out
    }

    /// A copy of the book.
    pub fn copy(&self) -> (r: AddressBook)
        ensures
            r@ == self@,
            r.addresses() == self.addresses(),
    {
        proof {
            use_type_invariant(self);
        }
        AddressBook { lines: self.copy_lines() }
    }

    /// The lines of the book, for the application to store.
    pub fn to_lines(&self) -> (r: Vec<Neighbour>)
        ensures
            distinct_keys(r@),
            book(r@) == self@,
            addresses(r@) == self.addresses(),
    {
        proof {
            use_type_invariant(self);
        }
        self.copy_lines()
    }

    /// Sets what is known of `key`.
    pub fn insert(&mut self, key: Key, contact: Contact)
        ensures
            final(self)@ == old(self)@.insert(key, contact),
    {
        proof {
            use_type_invariant(&*self);
        }
        let place: Option<usize> = self.find(&key);
        let mut lines: Vec<Neighbour> = self.copy_lines();
        let ghost before = lines@;
        match place {
            Some(i) => {
                lines.set(i, Neighbour { key, contact });
                proof {
                    assert(distinct_keys(lines@));
                    assert forall|k: Key| listed(lines@, k) <==> listed(before, k) by {
                        if listed(lines@, k) {
                            let j = choose|j: int|
                                0 <= j < lines@.len() && #[trigger] lines@[j].key == k;
                            assert(before[j].key == k);
                        }
                        if listed(before, k) {
                            let j = choose|j: int|
                                0 <= j < before.len() && #[trigger] before[j].key == k;
                            assert(lines@[j].key == k);
                        }
                    }
                    assert forall|k: Key| listed(before, k) implies book(lines@)[k] == book(
                        before,
                    ).insert(key, contact)[k] by {
                        let j = choose|j: int|
                            0 <= j < before.len() && #[trigger] before[j].key == k;
                        lemma_book_line(before, j);
                        lemma_book_line(lines@, j);
                    }
                    assert(listed(before, key));
                    assert(book(lines@) =~= book(before).insert(key, contact));
                }
            },
            None => {
                lines.push(Neighbour { key, contact });
                proof {
                    assert(!listed(before, key));
                    assert(distinct_keys(lines@)) by {
                        assert forall|i: int, j: int|
                            0 <= i < lines@.len() && 0 <= j < lines@.len() && i
                                != j implies #[trigger] lines@[i].key
                            != #[trigger] lines@[j].key by {
                            if i < before.len() && j < before.len() {
                                assert(before[i].key != before[j].key);
                            } else if i < before.len() {
                                assert(before[i].key != key);
                            } else {
                                assert(before[j].key != key);
                            }
                        }
                    }
                    assert forall|k: Key| listed(lines@, k) <==> listed(before, k) || k == key by {
                        if listed(lines@, k) {
                            let j = choose|j: int|
                                0 <= j < lines@.len() && #[trigger] lines@[j].key == k;
                            if j < before.len() {
                                assert(before[j].key == k);
                            }
                        }
                        if listed(before, k) {
                            let j = choose|j: int|
                                0 <= j < before.len() && #[trigger] before[j].key == k;
                            assert(lines@[j].key == k);
                        }
                        if k == key {
                            assert(lines@[before.len() as int].key == k);
                        }
                    }
                    assert forall|k: Key| listed(lines@, k) implies book(lines@)[k] == book(
                        before,
                    ).insert(key, contact)[k] by {
                        let j = choose|j: int|
                            0 <= j < lines@.len() && #[trigger] lines@[j].key == k;
                        lemma_book_line(lines@, j);
                        if j < before.len() {
                            lemma_book_line(before, j);
                        }
                    }
                    assert(book(lines@) =~= book(before).insert(key, contact));
                }
            },
        }
        *self = AddressBook { lines };
    }

    /// Notes that the staker `key` announced the address `ip`: where the key
    /// is known, outsiders reach it there. An unknown key is not added.
    pub fn announce(&mut self, key: &Key, ip: Ip)
        ensures
            final(self)@ == (if old(self)@.contains_key(*key) {
                old(self)@.insert(
                    *key,
                    Contact {
                        addr: Some(plain_endpoint(ip, OUTSIDER_PORT)),
                        ..old(self)@[*key]
                    },
                )
            } else {
                old(self)@
            }),
    {
        match self.get(key) {
            Some(contact) => {
                let addr: Endpoint = Endpoint { ip, port: OUTSIDER_PORT, flow: 0, scope: 0 };
                self.insert(*key, Contact { place: contact.place, addr: Some(addr) });
            },
            None => {},
        }
    }

    /// All addresses in the book: an address is among them exactly if some
    /// key has it.
    pub fn known_addresses(&self) -> (r: Vec<Endpoint>)
        ensures
            r@ == self.addresses(),
            forall|addr: Endpoint| #[trigger] r@.contains(addr) == someone_at(self@, addr),
    {
        proof {
            use_type_invariant(self);
        }
        let mut out: Vec<Endpoint> = Vec::new();
        let mut i: usize = 0;
        proof {
            assert(self.lines@.subrange(0, 0) =~= Seq::<Neighbour>::empty());
        }
        while i < self.lines.len()
            invariant
                i <= self.lines@.len(),
                out@ == addresses(self.lines@.subrange(0, i as int)),
            decreases self.lines@.len() - i,
        {
            proof {
                assert(self.lines@.subrange(0, i + 1).drop_last() =~= self.lines@.subrange(
                    0,
                    i as int,
                ));
            }
            match self.lines[i].contact.addr {
                Some(a) => out.push(a),
                None => {},
            }
            i = i + 1;
        }
        proof {
            assert(self.lines@.subrange(0, i as int) =~= self.lines@);
            assert forall|addr: Endpoint| #[trigger] out@.contains(addr) == someone_at(
                self@,
                addr,
            ) by {
                lemma_holders(self.lines@, addr);
            }
        }
        out
    }
}

proof fn lemma_holders(lines: Seq<Neighbour>, addr: Endpoint)
    requires
        distinct_keys(lines),
    ensures
        addresses(lines).contains(addr) == someone_at(book(lines), addr),
{
    lemma_addresses(lines, addr);
    if addresses(lines).contains(addr) {
        let i = choose|i: int|
            0 <= i < lines.len() && #[trigger] lines[i].contact.addr == Some(addr);
        lemma_book_line(lines, i);
        assert(book(lines).contains_key(lines[i].key));
    }
    if someone_at(book(lines), addr) {
        let k = choose|k: Key| #[trigger]
            book(lines).contains_key(k) && book(lines)[k].addr == Some(addr);
        let i = choose|i: int| 0 <= i < lines.len() && #[trigger] lines[i].key == k;
        lemma_book_line(lines, i);
        assert(lines[i].contact.addr == Some(addr));
    }
}

proof fn lemma_addresses(lines: Seq<Neighbour>, addr: Endpoint)
    ensures
        addresses(lines).contains(addr) <==> exists|i: int|
            0 <= i < lines.len() && #[trigger] lines[i].contact.addr == Some(addr),
    decreases lines.len(),
{
    if lines.len() > 0 {
        let init = lines.drop_last();
        lemma_addresses(init, addr);
        let before = addresses(init);
        if addresses(lines).contains(addr) {
            if before.contains(addr) {
                let i = choose|i: int|
                    0 <= i < init.len() && #[trigger] init[i].contact.addr == Some(addr);
                assert(lines[i].contact.addr == Some(addr));
            } else {
                assert(lines[lines.len() - 1].contact.addr == Some(addr)) by {
                    let j = choose|j: int|
                        0 <= j < addresses(lines).len() && addresses(lines)[j] == addr;
                    if j < before.len() {
                        assert(before[j] == addr);
                    }
                }
            }
        }
        if exists|i: int| 0 <= i < lines.len() && #[trigger] lines[i].contact.addr == Some(addr) {
            let i = choose|i: int|
                0 <= i < lines.len() && #[trigger] lines[i].contact.addr == Some(addr);
            if i < init.len() {
                assert(init[i].contact.addr == Some(addr));
                let j = choose|j: int| 0 <= j < before.len() && before[j] == addr;
                assert(addresses(lines)[j] == addr);
            } else {
                assert(addresses(lines)[before.len() as int] == addr);
            }
        }
    }
}

/// The peer through which a committee member is joined.
pub open spec fn committee_peer(addr: Endpoint) -> PeerId {
    PeerId { endpoint: plain_endpoint(addr.ip, DEFAULT_PORT), local: 1 }
}

/// The peers of those members whose address is known, in the members' order.
pub open spec fn committee_peers(
    members: Seq<usize>,
    stakers: Seq<(Key, u64)>,
    contacts: Map<Key, Contact>,
) -> Seq<PeerId>
    decreases members.len(),
{
    if members.len() == 0 {
        Seq::empty()
    } else {
        let before = committee_peers(members.drop_last(), stakers, contacts);
        match contacts[stakers[members.last() as int].0].addr {
            Some(a) => before.push(committee_peer(a)),
            None => before,
        }
    }
}

/// Lists the peers of those committee members whose address is known.
pub fn list_committee_peers(
    members: &Vec<usize>,
    stakers: &Vec<(Key, u64)>,
    contacts: &AddressBook,
) -> (r: Vec<PeerId>)
    requires
        forall|i: int|
            0 <= i < members@.len() ==> #[trigger] members@[i] < stakers@.len()
                && contacts@.contains_key(stakers@[members@[i] as int].0),
    ensures
        r@ == committee_peers(members@, stakers@, contacts@),
{
    let mut out: Vec<PeerId> = Vec::new();
    let mut i: usize = 0;
    proof {
        assert(members@.subrange(0, 0) =~= Seq::<usize>::empty());
    }
    while i < members.len()
        invariant
            i <= members@.len(),
            forall|j: int|
                0 <= j < members@.len() ==> #[trigger] members@[j] < stakers@.len()
                    && contacts@.contains_key(stakers@[members@[j] as int].0),
            out@ == committee_peers(members@.subrange(0, i as int), stakers@, contacts@),
        decreases members@.len() - i,
    {
        proof {
            assert(members@.subrange(0, i + 1).drop_last() =~= members@.subrange(0, i as int));
            assert(members@[i as int] < stakers@.len());
        }
        let m: usize = members[i];
        match contacts.get(&stakers[m].0) {
            Some(contact) => match contact.addr {
                Some(a) => {
                    let endpoint: Endpoint = Endpoint {
                        ip: a.ip,
                        port: DEFAULT_PORT,
                        flow: 0,
                        scope: 0,
                    };
                    out.push(PeerId { endpoint, local: 1 });
                },
                None => {},
            },
            None => {},
        }
        i = i + 1;
    }
    assert(members@.subrange(0, i as int) =~= members@);
    out
}

/// `SliceRandom::choose` of rand with the thread's generator. Which element
/// comes is left to chance; it is one of the slice, and there is none exactly
/// if the slice is empty.
#[verifier::external_body]
pub(crate) fn pick(view: &Vec<Endpoint>) -> (r: Option<Endpoint>)
    ensures
        r is None <==> view@.len() == 0,
        r matches Some(e) ==> view@.contains(e),
{
    view.choose(&mut rand::thread_rng()).copied()
}

/// `SliceRandom::choose_multiple` of rand with the thread's generator. Which
/// elements come, and in which order, is left to chance; no position of the
/// slice is taken twice, and there are as many as asked for or as there are.
#[verifier::external_body]
pub(crate) fn pick_several(view: &Vec<Endpoint>, amount: usize) -> (r: Vec<Endpoint>)
    ensures
        r@.len() == (if amount <= view@.len() {
            amount as nat
        } else {
            view@.len()
        }),
        r@.to_multiset().subset_of(view@.to_multiset()),
{
    view.choose_multiple(&mut rand::thread_rng(), amount).cloned().collect()
}

/// The committee is joined through its members one by one: those of two rows
/// one after the other, and each member whose address is known through the
/// second node at that address and the port of nodes.
pub proof fn members_are_joined_one_by_one(
    a: Seq<usize>,
    b: Seq<usize>,
    member: usize,
    stakers: Seq<(Key, u64)>,
    contacts: Map<Key, Contact>,
)
    ensures
        committee_peers(a + b, stakers, contacts) == committee_peers(a, stakers, contacts)
            + committee_peers(b, stakers, contacts),
        contacts[stakers[member as int].0].addr is None ==> committee_peers(
            seq![member],
            stakers,
            contacts,
        ) == Seq::<PeerId>::empty(),
        contacts[stakers[member as int].0].addr matches Some(e) ==> committee_peers(
            seq![member],
            stakers,
            contacts,
        ) == seq![PeerId {
            endpoint: Endpoint { ip: e.ip, port: 8334, flow: 0, scope: 0 },
            local: 1,
        }],
    decreases b.len(),
{
    reveal_with_fuel(committee_peers, 2);
    assert(seq![member].drop_last() =~= Seq::<usize>::empty());
    if let Some(e) = contacts[stakers[member as int].0].addr {
        assert(committee_peers(seq![member], stakers, contacts) =~= seq![committee_peer(e)]);
    }
    if b.len() == 0 {
        assert(a + b =~= a);
        assert(committee_peers(a + b, stakers, contacts) =~= committee_peers(a, stakers, contacts)
            + committee_peers(b, stakers, contacts));
    } else {
        assert((a + b).drop_last() =~= a + b.drop_last());
        members_are_joined_one_by_one(a, b.drop_last(), member, stakers, contacts);
        assert(committee_peers(a + b, stakers, contacts) =~= committee_peers(a, stakers, contacts)
            + committee_peers(b, stakers, contacts));
    }
}

/// An address is known once some key has it, and no longer than that.
pub proof fn known_addresses_belong_to_someone(
    contacts: Map<Key, Contact>,
    key: Key,
    addr: Endpoint,
)
    ensures
        contacts.contains_key(key) && contacts[key].addr == Some(addr) ==> someone_at(
            contacts,
            addr,
        ),
        (forall|k: Key| #[trigger] contacts.contains_key(k) ==> contacts[k].addr != Some(addr))
            ==> !someone_at(contacts, addr),
{
}

} // verus!
