use khora_node::block::{BlockSummary, Offer, Selection, Work};
use khora_node::clock::SECOND;
use khora_node::digest::scalar_of;
use khora_node::keys::Key;
use khora_node::net::{AddressBook, Contact, Endpoint, Ip};
use khora_node::ring::{
    find_own, has_place, is_all_among, own_members, ring_total, substitute_own, take_ring_reply,
};
use khora_node::rules::ChainRules;
use khora_node::saved::Holdings;
use khora_node::user::{
    entrance_question, is_ring_asked_again, is_sent_again, make_directory, sync_turn,
    user_panic_message, user_submission, Outcome, PayingWay, SyncTurn, UserNode, UserScan,
    UserWork,
};
use std::collections::HashMap;

const FOUNDER: Key = [1; 32];
const OTHER: Key = [2; 32];

fn rules() -> ChainRules {
    ChainRules {
        validators: 4,
        queue_length: 10,
        replace_rate: 2,
        signing_cutoff: 2,
        split_bits: 32,
    }
}

fn user() -> UserNode {
    UserNode::begin(rules(), FOUNDER, false, 100 * SECOND)
}

fn at(x: u32) -> Endpoint {
    Endpoint { ip: Ip::V4(x), port: 8335, flow: 0, scope: 0 }
}

fn block(bnum: u64, empty: bool) -> BlockSummary {
    let mut name = vec![0; 32];
    name[0] = 1;
    BlockSummary {
        bnum,
        shards: vec![2, 0],
        last_name: name,
        leader_pk: 0,
        validators: vec![],
        no_txout: empty,
        no_stkin: true,
        no_stkout: true,
    }
}

fn holdings() -> Holdings {
    Holdings {
        me: vec![1, 2],
        mine: HashMap::from([(7, vec![3])]),
        key: [5; 32],
        alltagsever: vec![[6; 32]],
        bloom: None,
        cumtime: 2.5f64.to_bits(),
        blocktime: 10.0f64.to_bits(),
    }
}

fn selection(member: usize) -> Selection {
    Selection {
        queue: vec![vec![member; 10]; 64],
        exitqueue: vec![vec![0; 10]; 64],
        comittee: vec![vec![member; 4]; 64],
    }
}

#[test]
fn own_accounts_stand_for_ring_members() {
    let own = vec![[5; 32], [6; 32], [5; 32]];
    let ring = vec![[6; 32], [9; 32], [5; 32]];
    assert_eq!(substitute_own(&ring, &own), vec![Some(1), None, Some(0)]);
    assert_eq!(find_own(&own, &[6; 32]), Some(1));
    assert_eq!(find_own(&own, &[7; 32]), None);
}

#[test]
fn panics_use_rings_of_own_accounts() {
    assert!(is_all_among(&vec![7, 3], &vec![3, 5, 7]));
    assert!(!is_all_among(&vec![7, 4], &vec![3, 5, 7]));
    assert_eq!(own_members(&vec![7, 3, 7], &vec![3, 5, 7]), vec![2, 0, 2]);
    assert!(has_place(&vec![1, 2], 2));
    assert!(!has_place(&vec![1, 2], 3));
}

#[test]
fn rings_have_a_size() {
    assert_eq!(ring_total(3, 5), Some(8));
    assert_eq!(ring_total(65530, 5), Some(65535));
    assert_eq!(ring_total(65531, 5), None);
    assert_eq!(ring_total(65537, 5), Some(6));
}

#[test]
fn ring_answers_bring_strangers() {
    let ring = vec![10, 11, 12, 13];
    let own = vec![11];
    let part = take_ring_reply(3, &ring, &own, &vec![11]);
    assert_eq!(part.fresh, vec![0, 2]);
    assert_eq!(part.known, vec![11, 10, 12]);
    assert!(!part.complete);
    let whole = take_ring_reply(9, &ring, &own, &vec![11]);
    assert_eq!(whole.fresh, vec![0, 2, 3]);
    assert!(whole.complete);
}

#[test]
fn users_gather_rings() {
    let mut n = user();
    let ring = vec![10, 11, 12];
    assert_eq!(n.begin_ring(vec![11], &vec![5, 5]), vec![5, 5, 114]);
    assert_eq!(n.rname, vec![5, 5]);
    let none = n.take_ring_answer(0, &ring, &vec![11]);
    assert!(!none.ready && none.fresh.is_empty());
    let first = n.take_ring_answer(1, &ring, &vec![11]);
    assert!(!first.ready);
    let all = n.take_ring_answer(3, &ring, &vec![11]);
    assert!(all.ready);
    assert_eq!(all.fresh, vec![0, 2]);
}

#[test]
fn users_begin_with_the_founder_alone() {
    let n = user();
    assert_eq!(n.stkinfo, vec![(FOUNDER, 1)]);
    assert!(n.allnetwork.get(&FOUNDER) == Some(Contact { place: 0, addr: None }));
    assert_eq!((n.bnum, n.height, n.sheight, n.ringsize), (0, 0, 1, 5));
    assert_eq!(n.exitqueue[9], vec![0, 1, 2, 3, 0, 1, 2, 3, 0, 1]);
    assert_eq!(n.sendview.len(), 0);
}

#[test]
fn saved_users_come_back() {
    let mut n = user();
    n.enter(vec![at(1), at(2)]);
    n.stkinfo.push((OTHER, 5));
    n.stkinfo.push((FOUNDER, 6));
    n.bnum = 8;
    n.rname = vec![1];
    n.rmems = vec![1];
    let s = n.save(holdings()).unwrap();
    assert_eq!(s.rname, vec![1]);
    let loaded = UserNode::load(s, rules(), 7);
    assert_eq!(loaded.holdings.me, vec![1, 2]);
    assert_eq!(loaded.holdings.mine, HashMap::from([(7, vec![3])]));
    assert_eq!((loaded.holdings.key, loaded.holdings.bloom), ([5; 32], None));
    assert_eq!(loaded.holdings.alltagsever, vec![[6; 32]]);
    assert_eq!(f64::from_bits(loaded.holdings.cumtime), 2.5);
    assert_eq!(f64::from_bits(loaded.holdings.blocktime), 10.0);
    let l = loaded.node;
    assert!(l.sendview == vec![at(1), at(2)]);
    assert_eq!(l.stkinfo, n.stkinfo);
    assert_eq!(l.bnum, 8);
    assert_eq!(l.comittee, n.comittee);
    assert!(l.rname.is_empty() && l.rmems.is_empty());
    assert!(l.allnetwork.get(&FOUNDER) == Some(Contact { place: 2, addr: None }));
    assert!(l.allnetwork.get(&OTHER) == Some(Contact { place: 1, addr: None }));
    n.coins_moved(vec![3]);
    assert!(n.save(holdings()).is_none());
    assert!(make_directory(&vec![]).get(&FOUNDER).is_none());
}

#[test]
fn users_read_blocks() {
    let mut n = user();
    let b = block(1, false);
    assert!(n.offer(&b) == Offer::Verify { shard: 2, multithreaded: false });
    assert_eq!(n.committee_places(2), vec![0; 4]);
    let a = n.accept(&b, holdings());
    assert_eq!(a.missed, 1);
    let s = a.saved.unwrap();
    assert_eq!((s.headshard, s.bnum, s.holdings.key), (0, 0, [5; 32]));
    assert_eq!(n.headshard, 2);
    assert!(n.next_work(&b) == Work::PayMissed);
    n.missed_block(&b, vec![(FOUNDER, 2)], selection(0));
    assert_eq!((n.bnum, n.stkinfo[0].1), (1, 2));
    assert!(n.next_work(&b) == Work::Scan);
    let m = vec![4, 5, 6];
    let scan = UserScan {
        coins_changed: true,
        height: 3,
        sheight: 4,
        allnetwork: AddressBook::new(),
        stkinfo: vec![(FOUNDER, 2), (OTHER, 3)],
    };
    let frames = n.own_block(&b, &m, UserWork::Scanned(scan), selection(1));
    assert_eq!(frames, vec![vec![0, 1]]);
    assert_eq!(n.lastname, scalar_of(&m).to_vec());
    assert_eq!((n.bnum, n.lastbnum, n.height, n.sheight), (2, 1, 3, 4));
    assert_eq!(n.comittee[0], vec![1; 4]);
    assert!(n.offer(&b) == Offer::Old);
    let mut e = user();
    let c = block(0, true);
    e.moneyreset = Some(vec![1]);
    assert!(e.accept(&c, holdings()).saved.is_none());
    assert!(e.next_work(&c) == Work::PayEmpty);
    let quiet = e.own_block(&c, &m, UserWork::Empty { stkinfo: vec![(FOUNDER, 7)] }, selection(0));
    assert_eq!(quiet.len(), 0);
    assert_eq!((e.bnum, e.stkinfo[0].1), (1, 7));
    assert_eq!(e.lastname[0], 1);
}

#[test]
fn the_dead_are_forgotten() {
    let mut n = user();
    n.enter(vec![at(1), at(2), at(3), at(2)]);
    let r = n.take_answers(&vec![
        Outcome { to: at(2), answer: None },
        Outcome { to: at(1), answer: Some(vec![7]) },
        Outcome { to: at(9), answer: None },
        Outcome { to: at(3), answer: Some(vec![]) },
    ]);
    assert_eq!(r.frame, vec![2, 0, 0, 0, 0, 0, 0, 0, 4]);
    assert_eq!(r.answers, vec![vec![7], vec![]]);
    assert!(n.sendview == vec![at(1), at(3)]);
    assert_eq!(n.friends(), vec![2, 0, 0, 0, 0, 0, 0, 0, 4]);
}

#[test]
fn users_pay_in_their_way() {
    let mut n = user();
    assert!(n.paying_way(0) == PayingWay::NotAtAll);
    assert!(n.paying_way(2) == PayingWay::AskOthers);
    n.choose_ring_size(0);
    assert!(n.paying_way(2) == PayingWay::OwnRing);
    n.save_history = true;
    assert!(n.paying_way(0) == PayingWay::FromHistory);
}

#[test]
fn recipients_are_picked_from_the_view() {
    let mut n = user();
    assert!(n.choose_recipients(3).is_empty());
    n.enter(vec![at(1), at(2), at(3)]);
    let two = n.choose_recipients(2);
    assert_eq!(two.len(), 2);
    assert!(two[0] != two[1]);
    assert!(two.iter().all(|e| n.sendview.contains(e)));
    let all = n.choose_recipients(9);
    assert_eq!(all.len(), 3);
    assert!(n.sendview.iter().all(|e| all.contains(e)));
}

#[test]
fn users_are_reported_to() {
    let mut n = user();
    assert_eq!(n.report(105 * SECOND), None);
    assert_eq!(n.report(106 * SECOND), Some(vec![0, 0, 0, 0, 0, 0, 0, 0, 4]));
    assert_eq!(n.gui_timer, 106 * SECOND);
}

#[test]
fn asking_for_blocks_ends_after_two_misses() {
    assert!(sync_turn(0, 0) == SyncTurn { misses: 1, over: false });
    assert!(sync_turn(1, 0) == SyncTurn { misses: 2, over: true });
    assert!(sync_turn(1, 4) == SyncTurn { misses: 0, over: false });
}

#[test]
fn users_go_on_until_it_worked() {
    assert!(is_sent_again(0) && !is_sent_again(1));
    assert!(is_ring_asked_again(0) && !is_ring_asked_again(2));
}

#[test]
fn users_hear_of_new_blocks_only() {
    let mut n = user();
    n.bnum = 3;
    let mut coin = [0u8; 32];
    coin[0] = 6;
    assert_eq!(n.sync_report(3, 10, &vec![coin], &vec![vec![1]]).len(), 0);
    assert_eq!(
        n.sync_report(2, 10, &vec![coin], &vec![vec![1, 1]]),
        vec![
            vec![10, 128],
            vec![3, 0, 0, 0, 0, 0, 0, 0, 2],
            vec![6, 0, 0, 0, 0, 0, 0, 0, 0],
            vec![1, 1]
        ]
    );
}

#[test]
fn user_panics_go_on_until_coins_are_there() {
    let mut n = user();
    assert_eq!(n.carry_on_panic(0), None);
    assert_eq!(user_panic_message(&vec![7]), vec![7, 0]);
    n.coins_moved(vec![7, 0]);
    assert_eq!(n.carry_on_panic(0), Some(vec![7, 0]));
    assert_eq!(n.carry_on_panic(1), None);
    assert!(n.moneyreset.is_none());
}

#[test]
fn user_transactions_are_tagged() {
    assert_eq!(user_submission(true, &vec![5]), Some(vec![5, 0]));
    assert_eq!(user_submission(false, &vec![5]), None);
    assert_eq!(user_submission(true, &vec![]), None);
    assert_eq!(entrance_question(), vec![101]);
}
