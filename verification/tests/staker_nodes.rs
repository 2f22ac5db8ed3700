use khora_node::block::{
    reconnects, BlockSummary, Offer, Payment, Scan, Selection, Settled, Work,
};
use khora_node::clock::SECOND;
use khora_node::digest::scalar_of;
use khora_node::keys::Key;
use khora_node::net::{AddressBook, Contact, Endpoint, Ip, PeerId};
use khora_node::node::{KhoraNode, Stake};
use khora_node::reading::OwnWork;
use khora_node::rules::ChainRules;
use khora_node::saved::Holdings;
use std::collections::HashMap;

const FOUNDER: Key = [1; 32];
const OTHER: Key = [2; 32];

fn rules() -> ChainRules {
    ChainRules {
        validators: 4,
        queue_length: 10,
        replace_rate: 2,
        signing_cutoff: 2,
        split_bits: 32,
    }
}

fn founder() -> KhoraNode {
    KhoraNode::begin(rules(), FOUNDER, FOUNDER, Ip::V4(77), false, 100 * SECOND)
}

fn follower() -> KhoraNode {
    KhoraNode::begin(rules(), FOUNDER, OTHER, Ip::V4(77), true, 100 * SECOND)
}

fn block(bnum: u64, empty: bool) -> BlockSummary {
    let mut name = vec![0; 32];
    name[0] = 1;
    BlockSummary {
        bnum,
        shards: vec![0],
        last_name: name,
        leader_pk: 0,
        validators: vec![0, 0, 0],
        no_txout: empty,
        no_stkin: empty,
        no_stkout: empty,
    }
}

fn holdings() -> Holdings {
    Holdings {
        me: vec![1, 2],
        mine: HashMap::from([(7, vec![3]), (9, vec![4])]),
        key: [5; 32],
        alltagsever: vec![[6; 32], [7; 32]],
        bloom: Some((8, 9)),
        cumtime: 2.5f64.to_bits(),
        blocktime: 10.0f64.to_bits(),
    }
}

fn selection(member: usize) -> Selection {
    Selection {
        queue: vec![vec![member; 10]; 64],
        exitqueue: vec![vec![3, 2, 1, 0, 3, 2, 1, 0, 3, 2]; 64],
        comittee: vec![vec![member; 4]; 64],
    }
}

fn payment(paid: bool) -> Payment {
    Payment {
        paid,
        smine: Some(Stake { place: 0, amount: 9 }),
        stkinfo: vec![(FOUNDER, 9), (OTHER, 3)],
        comittee: vec![vec![0; 4]; 64],
        oldstk: None,
    }
}

fn scan() -> Scan {
    let mut allnetwork = AddressBook::new();
    allnetwork.insert(FOUNDER, Contact { place: 0, addr: None });
    allnetwork.insert(OTHER, Contact { place: 1, addr: None });
    Scan {
        stake_changed: false,
        coins_changed: false,
        smine: Some(Stake { place: 1, amount: 5 }),
        height: 6,
        sheight: 2,
        allnetwork,
        stkinfo: vec![(FOUNDER, 9), (OTHER, 3)],
        queue: vec![vec![1; 10]; 64],
        exitqueue: vec![vec![0, 1, 2, 3, 0, 1, 2, 3, 0, 1]; 64],
        comittee: vec![vec![0; 4]; 64],
    }
}

#[test]
fn founders_have_a_seat_and_an_address() {
    let n = founder();
    assert!(n.smine == Some(Stake { place: 0, amount: 1 }));
    assert_eq!(n.keylocation, Some(0));
    assert!(n.is_validator && n.is_node);
    let home = Endpoint { ip: Ip::V4(77), port: 8335, flow: 0, scope: 0 };
    assert!(n.allnetwork.known_addresses() == vec![home]);
    assert_eq!(n.comittee.len(), 64);
    assert_eq!(n.exitqueue[5], vec![0, 1, 2, 3, 0, 1, 2, 3, 0, 1]);
    assert_eq!(n.queue[63], vec![0; 10]);
    assert_eq!(n.lastname.len(), 32);
    assert_eq!(n.lastname[0], 1);
    assert_eq!(n.clocks.timekeeper, 101 * SECOND);
    assert!((0..64).all(|h| n.are_members_staked(h)));
    assert!(!n.are_members_staked(64));
}

#[test]
fn others_begin_without_a_seat() {
    let n = follower();
    assert!(n.smine.is_none());
    assert_eq!(n.keylocation, None);
    assert!(!n.is_validator && n.is_node);
    assert_eq!(n.allnetwork.known_addresses().len(), 0);
    assert_eq!(n.leader, FOUNDER);
    assert_eq!((n.bnum, n.height, n.sheight, n.ringsize), (0, 0, 1, 5));
}

#[test]
fn broken_seats_are_noticed() {
    let mut n = founder();
    n.comittee[3][1] = 1;
    assert!(!n.are_members_staked(3));
    assert!(n.are_members_staked(2));
    n.headshard = 3;
    assert!(n.is_acceptable());
    n.exitqueue[3][1] = 4;
    assert!(!n.is_acceptable());
}

#[test]
fn only_successors_are_offered_for_verification() {
    let mut n = founder();
    assert!(n.offer(&block(0, true)) == Offer::Verify { shard: 0, multithreaded: true });
    assert!(n.offer(&block(9, true)) == Offer::Verify { shard: 0, multithreaded: true });
    assert!(follower().offer(&block(0, true)) == Offer::Verify { shard: 0, multithreaded: false });
    let mut b = block(0, true);
    b.shards = vec![];
    assert!(n.offer(&b) == Offer::NoShard);
    let mut c = block(0, true);
    c.last_name[0] = 2;
    assert!(n.offer(&c) == Offer::Misplaced);
    n.headshard = 1;
    assert!(n.offer(&block(0, true)) == Offer::Misplaced);
    n.headshard = 0;
    n.bnum = 1;
    assert!(n.offer(&block(0, true)) == Offer::Old);
    assert_eq!(n.committee_places(0), vec![0, 0, 0, 0]);
}

#[test]
fn leaving_validators_send_the_block_out() {
    let mut n = founder();
    let a = n.accept(&block(2, true), &Some(vec![5, 6]), holdings());
    assert_eq!(a.broadcast, Some(vec![5, 6, 3]));
    assert_eq!(a.missed, 2);
    assert_eq!(n.headshard, 0);
    let mut m = founder();
    assert_eq!(m.accept(&block(0, true), &None, holdings()).broadcast, None);
    let mut f = follower();
    assert_eq!(f.accept(&block(0, true), &Some(vec![5]), holdings()).broadcast, None);
}

#[test]
fn nodes_are_saved_as_they_were_before_the_block() {
    let mut n = founder();
    let mut b = block(0, true);
    b.shards = vec![7];
    let s = n.accept(&b, &None, holdings()).saved.unwrap();
    assert_eq!((n.headshard, s.headshard), (7, 0));
    assert_eq!(s.holdings.key, [5; 32]);
    let back = KhoraNode::load(s, rules(), &vec![], &vec![], 900 * SECOND).node;
    assert!(n.offer(&block(0, true)) == Offer::Misplaced);
    assert!(back.offer(&block(0, true)) == founder().offer(&block(0, true)));
    let mut m = founder();
    m.coins_moved(&vec![1]);
    assert!(m.accept(&b, &None, holdings()).saved.is_none());
}

#[test]
fn nodes_with_full_blocks_take_no_lightning() {
    assert!(!founder().takes_lightning());
    assert!(follower().takes_lightning());
}

#[test]
fn rings_grow_as_requested() {
    let mut n = founder();
    n.choose_ring_size(None);
    assert_eq!(n.ringsize, 5);
    n.choose_ring_size(Some(9));
    assert_eq!(n.ringsize, 9);
}

#[test]
fn nodes_know_whether_they_can_accept() {
    let mut n = founder();
    assert!(n.is_acceptable());
    // only the next two seats to be left are looked at
    n.exitqueue[0] = vec![0, 3, 4];
    n.votes = vec![];
    n.comittee[0][0] = 9;
    assert!(n.is_acceptable());
    n.exitqueue[0] = vec![0, 4];
    assert!(!n.is_acceptable());
    n.exitqueue[0] = vec![0];
    assert!(!n.is_acceptable());
    n.headshard = 64;
    assert!(!n.is_acceptable());
    n.keylocation = None;
    assert!(n.is_acceptable());
}

#[test]
fn leaders_who_made_no_block_are_overthrown() {
    let mut n = founder();
    n.stkinfo.push((OTHER, 1));
    n.overthrown.insert(OTHER);
    let mut b = block(0, true);
    b.leader_pk = 1;
    b.shards = vec![7];
    n.accept(&b, &None, holdings());
    assert!(n.overthrown.contains(&FOUNDER));
    assert!(!n.overthrown.contains(&OTHER));
    assert_eq!(n.headshard, 7);
    let mut m = founder();
    m.accept(&block(0, true), &None, holdings());
    assert!(!m.overthrown.contains(&FOUNDER));
}

#[test]
fn missed_blocks_are_paid_for_one_by_one() {
    let mut n = founder();
    n.votes = vec![1, 2, 3, 4];
    let b = block(2, true);
    n.accept(&b, &None, holdings());
    assert!(n.next_work(&b) == Work::PayMissed);
    assert!(n.has_two_exits());
    let r = n.missed_block(&b, payment(true), selection(0));
    assert_eq!(r.frame, vec![0, 1]);
    assert_eq!(r.archive.full, Some(vec![]));
    assert_eq!(r.archive.lightning, Vec::<u8>::new());
    assert_eq!(n.votes, vec![0, 0, 3, 4]);
    assert_eq!(n.bnum, 1);
    assert!(n.next_work(&b) == Work::PayMissed);
    let q = n.missed_block(&b, payment(false), selection(1));
    assert_eq!(q.frame, vec![1, 1]);
    assert_eq!(n.votes, vec![0, 0, 0, 0]);
    assert!(n.next_work(&b) == Work::PayEmpty);
    assert!(n.next_work(&block(2, false)) == Work::Scan);
    assert_eq!(n.comittee[0], vec![1; 4]);
    assert!(n.smine == Some(Stake { place: 0, amount: 9 }));
}

#[test]
fn empty_blocks_are_read() {
    let mut n = founder();
    n.votes = vec![5, 6, 7, 8];
    let b = block(0, true);
    n.accept(&b, &None, holdings());
    let own = OwnWork::Empty(payment(true));
    let s = selection(0);
    assert!(n.is_sensible(&b, &own, &s));
    let mut coin = [0u8; 32];
    coin[0] = 4;
    let r = n.own_block(&b, &vec![9], &None, own, s, &vec![coin], 500 * SECOND);
    assert_eq!(r.frames.len(), 4);
    assert_eq!(r.frames[0], vec![0, 1]);
    assert_eq!(r.frames[1], vec![4, 0, 0, 0, 0, 0, 0, 0, 9, 0, 0, 0, 0, 0, 0, 0, 0]);
    assert_eq!(r.frames[2], vec![1, 0, 0, 0, 0, 0, 0, 0, 2]);
    assert_eq!(r.frames[3], vec![1, 3]);
    assert_eq!(r.archive.full, Some(vec![]));
    // the founder has all seats and is next to enter again
    assert!(r.settled.seated && r.settled.was_validator && r.settled.joins);
    // seats zero and one are left, then each seat gains three signatures
    assert_eq!(n.votes, vec![3, 3, 10, 11]);
    assert_eq!(n.bnum, 1);
    assert_eq!(n.lastname[0], 1);
    assert_eq!(n.newest, 0);
    assert_eq!(n.leader, FOUNDER);
    assert!(n.is_validator && n.is_node);
    assert_eq!(n.clocks.timekeeper, 500 * SECOND);
    assert_eq!(n.clocks.doneerly, 101 * SECOND);
    assert!(n.waitingforentrybool && !n.waitingforleaderbool);
    // the same block again is old
    assert!(n.offer(&b) == Offer::Old);
    assert!(n.next_work(&b) == Work::Nothing);
}

#[test]
fn full_blocks_are_named_and_stored() {
    let mut n = founder();
    let b = block(0, false);
    n.accept(&b, &None, holdings());
    let m = vec![9, 8, 7];
    let own = OwnWork::Scanned(scan());
    let s = selection(0);
    assert!(n.is_sensible(&b, &own, &s));
    let r = n.own_block(&b, &m, &Some(vec![5, 5]), own, s, &vec![], 500 * SECOND);
    assert_eq!(r.frames[0], vec![1, 1]);
    assert_eq!(r.archive.full, Some(vec![5, 5]));
    assert_eq!(r.archive.lightning, m);
    assert_eq!(n.lastname, scalar_of(&m).to_vec());
    assert_eq!(n.lastbnum, 0);
    assert_eq!((n.height, n.sheight, n.bnum), (6, 2, 1));
    assert_eq!(n.keylocation, Some(1));
    assert_eq!(n.newest, 1);
    // place one has no seat, and others enter next
    assert!(!r.settled.seated && !r.settled.joins);
    assert!(!n.is_validator && n.is_node);
    assert_eq!(r.frames[3], vec![0, 3]);
}

fn part_after(queue: Vec<usize>, comittee: Vec<usize>) -> (bool, bool, bool) {
    let mut n = founder();
    let b = block(0, false);
    n.accept(&b, &None, holdings());
    let mut s = selection(0);
    s.queue[0] = queue;
    s.comittee[0] = comittee;
    let own = OwnWork::Scanned(scan());
    assert!(n.is_sensible(&b, &own, &s));
    let r = n.own_block(&b, &vec![9], &Some(vec![]), own, s, &vec![], 0);
    (r.settled.joins, n.is_node, n.is_validator)
}

#[test]
fn nodes_find_their_part() {
    // place one is the node's own; two enter with each block
    assert_eq!(part_after(vec![0, 0, 1, 1], vec![0; 4]), (false, true, false));
    assert_eq!(part_after(vec![0, 1, 0, 0], vec![0; 4]), (true, true, true));
    assert_eq!(part_after(vec![0, 0, 1, 1], vec![0, 1, 0, 0]), (false, false, true));
    assert_eq!(part_after(vec![1, 0, 0, 0], vec![1; 4]), (true, true, true));
}

#[test]
fn lonely_validators_reconnect() {
    let settled = Settled { seated: true, was_validator: true, joins: false };
    assert!(reconnects(&settled, 0));
    assert!(!reconnects(&settled, 1));
    assert!(!reconnects(&Settled { was_validator: false, ..settled }, 0));
}

#[test]
fn lightning_nodes_keep_no_full_blocks() {
    let mut n = follower();
    let b = block(0, false);
    n.accept(&b, &None, holdings());
    let r = n.own_block(&b, &vec![9], &None, OwnWork::Scanned(scan()), selection(0), &vec![], 0);
    assert_eq!(r.archive.full, None);
    assert_eq!(r.archive.lightning, vec![9]);
}

#[test]
fn overthrown_leaders_are_forgiven_in_time() {
    let mut n = founder();
    n.overthrown.insert(OTHER);
    n.bnum = 127;
    let b = block(127, true);
    n.accept(&b, &None, holdings());
    let own = OwnWork::Empty(payment(true));
    n.own_block(&b, &vec![], &None, own, selection(0), &vec![], 0);
    assert!(!n.overthrown.contains(&OTHER));
    let mut m = founder();
    m.overthrown.insert(OTHER);
    m.accept(&block(0, true), &None, holdings());
    let own = OwnWork::Empty(payment(true));
    m.own_block(&block(0, true), &vec![], &None, own, selection(0), &vec![], 0);
    assert!(m.overthrown.contains(&OTHER));
}

#[test]
fn senseless_ledger_work_is_noticed() {
    let n = founder();
    let b = block(0, true);
    let mut s = selection(0);
    s.comittee[0][2] = 2;
    assert!(!n.is_sensible(&b, &OwnWork::Empty(payment(true)), &s));
    let mut t = selection(0);
    t.exitqueue[0].pop();
    assert!(!n.is_sensible(&b, &OwnWork::Empty(payment(true)), &t));
    let mut u = selection(0);
    u.queue[0] = vec![0];
    assert!(!n.is_sensible(&b, &OwnWork::Empty(payment(true)), &u));
    // without a place nobody looks at who enters
    assert!(follower().is_sensible(&b, &OwnWork::Empty(payment(true)), &u));
    // nor at exits that are far away, nor at seats without votes
    let mut v = selection(0);
    v.exitqueue[0].push(99);
    v.comittee[0].push(99);
    assert!(n.is_sensible(&b, &OwnWork::Empty(payment(true)), &v));
    v.exitqueue[0][9] = 5;
    assert!(!n.is_sensible(&b, &OwnWork::Empty(payment(true)), &v));
    let mut loud = founder();
    loud.votes[3] = i32::MAX;
    assert!(!loud.is_sensible(&b, &OwnWork::Empty(payment(true)), &selection(0)));
    loud.votes[3] = i32::MAX - 3;
    assert!(loud.is_sensible(&b, &OwnWork::Empty(payment(true)), &selection(0)));
}

#[test]
fn committees_are_reached_through_known_addresses() {
    let n = founder();
    let peer = PeerId {
        endpoint: Endpoint { ip: Ip::V4(77), port: 8334, flow: 0, scope: 0 },
        local: 1,
    };
    assert!(n.is_committee_listed());
    assert!(n.committee_contacts() == vec![peer; 4]);
    let mut m = founder();
    m.allnetwork = AddressBook::new();
    assert!(!m.is_committee_listed());
    assert!(follower().committee_contacts() == vec![]);
}

#[test]
fn saved_nodes_come_back() {
    let mut n = founder();
    n.overthrown.insert(OTHER);
    n.votes = vec![1, -2, 3, -4];
    n.bnum = 42;
    n.newest = 3;
    n.txses.push(vec![1]);
    let s = n.save(holdings()).unwrap();
    let a = PeerId { endpoint: Endpoint { ip: Ip::V4(1), port: 1, flow: 0, scope: 0 }, local: 0 };
    let b = PeerId { endpoint: Endpoint { ip: Ip::V4(2), port: 1, flow: 0, scope: 0 }, local: 0 };
    let c = PeerId { endpoint: Endpoint { ip: Ip::V6(3), port: 1, flow: 0, scope: 0 }, local: 0 };
    let l = KhoraNode::load(s, rules(), &vec![a, b], &vec![b, c], 900 * SECOND);
    assert!(l.join == vec![a, b, c]);
    assert!(l.eager == vec![b, c]);
    assert!(l.lazy == vec![a, b]);
    assert!(l.announce);
    assert_eq!((l.holdings.me, l.holdings.mine), (holdings().me, holdings().mine));
    assert_eq!((l.holdings.key, l.holdings.bloom), ([5; 32], Some((8, 9))));
    assert_eq!(l.holdings.alltagsever, vec![[6; 32], [7; 32]]);
    assert_eq!(f64::from_bits(l.holdings.cumtime), 2.5);
    assert_eq!(f64::from_bits(l.holdings.blocktime), 10.0);
    assert_eq!(l.node.votes, vec![1, -2, 3, -4]);
    assert_eq!(l.node.bnum, 42);
    assert!(l.node.overthrown.contains(&OTHER));
    assert_eq!(l.node.comittee, n.comittee);
    assert_eq!(l.node.stkinfo, n.stkinfo);
    assert!(l.node.smine == n.smine);
    assert_eq!(l.node.newest, 0);
    assert_eq!(l.node.txses.len(), 0);
    assert_eq!(l.node.clocks.timekeeper, 899 * SECOND);
    assert!(!KhoraNode::load(
        follower().save(holdings()).unwrap(),
        rules(),
        &vec![],
        &vec![],
        900 * SECOND
    )
    .announce);
}

#[test]
fn nothing_is_saved_during_a_panic() {
    let mut n = founder();
    n.coins_moved(&vec![1]);
    assert!(n.save(holdings()).is_none());
    let mut m = founder();
    m.stake_moved(&vec![1], 7);
    assert!(m.save(holdings()).is_none());
}
