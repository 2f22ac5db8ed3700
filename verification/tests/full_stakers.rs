use curve25519_dalek::constants::RISTRETTO_BASEPOINT_POINT;
use curve25519_dalek::scalar::Scalar;
use khora_node::clock::SECOND;
use khora_node::digest::scalar_of;
use khora_node::keys::Key;
use khora_node::net::{Endpoint, Ip, PeerId};
use khora_node::node::Stake;
use khora_node::staker::{
    asked_place, count_covered, history_answer, money, richest, Closing, EntryAnswer, OwnBooks,
    StakerBooks, StakerNode, Taken, SUM_PLACE,
};
use khora_node::table::list_lines;
use std::collections::HashMap;

const OTHER: Key = [2; 32];

fn secret(i: u64) -> Scalar {
    Scalar::from(100 + i)
}

fn public(i: u64) -> Key {
    (secret(i) * RISTRETTO_BASEPOINT_POINT).compress().to_bytes()
}

fn nonce(i: u64) -> Scalar {
    Scalar::from(9000 + i)
}

fn commitment(i: u64) -> Key {
    (nonce(i) * RISTRETTO_BASEPOINT_POINT).compress().to_bytes()
}

fn generator() -> Key {
    RISTRETTO_BASEPOINT_POINT.compress().to_bytes()
}

fn node() -> StakerNode {
    let mut n = StakerNode::begin(3, public(0), public(0), 100 * SECOND);
    n.stkinfo = vec![(public(0), 5), (public(1), 7), (public(2), 6)];
    n.comittee[0] = vec![0, 1, 2];
    n
}

#[test]
fn tables_are_listed_line_by_line() {
    let mut t = HashMap::new();
    assert!(list_lines(&t).is_empty());
    t.insert(3, [1; 32]);
    t.insert(4, [2; 32]);
    t.insert(3, [5; 32]);
    let lines = list_lines(&t);
    assert_eq!(lines.len(), 2);
    assert!(lines.iter().all(|l| t[&l.place] == l.value));
    assert_eq!(count_covered(&vec![4, 4, 5], &t), 2);
}

#[test]
fn full_stakers_begin() {
    let n = StakerNode::begin(3, public(0), public(0), 5);
    assert!(n.smine == vec![Stake { place: 0, amount: 1 }]);
    assert_eq!(n.keylocation, vec![0]);
    assert_eq!((n.bnum, n.height, n.sheight), (1, 0, 1));
    assert_eq!(n.exitqueue[7], vec![0, 1, 2]);
    assert_eq!(n.comittee[63], vec![0, 0, 0]);
    assert!(n.lastname.is_empty());
    assert!(n.are_places_ok() && n.is_leader());
    let m = StakerNode::begin(3, public(0), OTHER, 5);
    assert!(m.smine.is_empty() && m.keylocation.is_empty() && !m.is_leader());
}

#[test]
fn the_banned_are_not_heard() {
    let mut n = node();
    let p = PeerId { endpoint: Endpoint { ip: Ip::V4(1), port: 2, flow: 0, scope: 0 }, local: 0 };
    assert!(n.listens_to(p));
    n.bannedlist.push(p);
    assert!(!n.listens_to(p));
}

#[test]
fn long_transactions_are_cut() {
    let mut n = node();
    n.take_transaction(&vec![1; 9_999]);
    n.take_transaction(&vec![1; 10_001]);
    assert_eq!(n.txses[0].len(), 9_999);
    assert_eq!(n.txses[1].len(), 10_000);
}

#[test]
fn members_sign_or_commit() {
    let n = node();
    assert!(n.answer_entry(1, 5, true) == EntryAnswer::Sign { copies: 1 });
    assert!(n.answer_entry(9, 5, true) == EntryAnswer::Sign { copies: 0 });
    assert!(n.answer_entry(1, 0, true) == EntryAnswer::Commit { send: true });
    assert!(n.answer_entry(9, 0, true) == EntryAnswer::Commit { send: false });
    assert!(n.answer_entry(1, 0, false) == EntryAnswer::Nothing);
    assert!(n.answers_sum());
    let mut m = node();
    m.keylocation = vec![8];
    assert!(!m.answers_sum());
}

#[test]
fn commitments_have_to_be_points_by_members() {
    let mut n = node();
    assert!(n.take_commitment(1, &commitment(1).to_vec()) == Taken::Kept);
    assert_eq!(n.points.get(&1), Some(&commitment(1)));
    assert!(n.take_commitment(8, &commitment(1).to_vec()) == Taken::Ignored);
    assert!(n.take_commitment(2, &vec![255; 32]) == Taken::Malformed);
    assert!(n.take_commitment(2, &vec![0; 31]) == Taken::Malformed);
    assert_eq!(n.points.get(&2), None);
    assert!(n.take_answer(2, &vec![7; 32]) == Taken::Kept);
    assert_eq!(n.scalars.get(&2), Some(&[7; 32]));
    assert!(n.take_answer(8, &vec![7; 32]) == Taken::Ignored);
    assert!(n.take_answer(2, &vec![7; 33]) == Taken::Malformed);
}

#[test]
fn the_richest_member_leads() {
    let stakers = vec![(public(0), 5), (public(1), 7), (public(2), 7)];
    assert_eq!(richest(&vec![0, 1, 2], &stakers), public(2));
    assert_eq!(richest(&vec![2, 1, 0], &stakers), public(1));
    let mut n = node();
    assert!(n.takes_block(&vec![], true));
    assert!(!n.takes_block(&vec![1], true));
    assert!(!n.takes_block(&vec![], false));
    let books = StakerBooks {
        stkinfo: stakers,
        queue: vec![vec![1]],
        exitqueue: vec![vec![2]],
        comittee: vec![vec![0, 1]],
    };
    let own = OwnBooks { smine: vec![], height: 4, sheight: 6 };
    n.block_read(&vec![3, 3], books, own);
    assert_eq!(n.leader, public(1));
    assert_eq!(n.lastname, scalar_of(&vec![3, 3]).to_vec());
    assert_eq!((n.bnum, n.height, n.sheight), (2, 4, 6));
    assert!(n.smine.is_empty());
    assert!(!n.is_leader());
}

#[test]
fn blocks_need_two_thirds_or_time() {
    let n = node();
    assert!(n.is_signatures_due(3, 100 * SECOND));
    assert!(!n.is_signatures_due(2, 130 * SECOND));
    assert!(n.is_signatures_due(2, 131 * SECOND));
    assert!(!n.is_signatures_due(1, 131 * SECOND));
    let mut m = node();
    m.finish_failed(7);
    assert_eq!(m.timekeeper, 7);
    let books = StakerBooks {
        stkinfo: vec![(OTHER, 1)],
        queue: vec![],
        exitqueue: vec![],
        comittee: vec![vec![0]],
    };
    m.finished(&vec![8], books, 9);
    assert_eq!((m.bnum, m.timekeeper), (2, 9));
    assert_eq!(m.lastname, scalar_of(&vec![8]).to_vec());
}

fn answered(liar: Option<u64>) -> StakerNode {
    let mut n = node();
    n.multisig = true;
    n.lastname = vec![1, 2, 3];
    let mut sum = Scalar::zero();
    for i in 0..3 {
        assert!(n.take_commitment(i as usize, &commitment(i).to_vec()) == Taken::Kept);
        sum += nonce(i);
    }
    assert!(n.commitments_to_sum(101 * SECOND).is_none());
    assert_eq!(n.commitments_to_sum(102 * SECOND).unwrap().len(), 3);
    let total = (sum * RISTRETTO_BASEPOINT_POINT).compress().to_bytes();
    n.sum_sent(total);
    assert!(n.commitments_to_sum(102 * SECOND).is_none());
    let mut m = n.challenge_message();
    m.extend(total.to_vec());
    let e = Scalar::from_bits(scalar_of(&m));
    assert!(!n.is_answers_due(103 * SECOND));
    for i in 0..3 {
        let mut answer = nonce(i) + e * secret(i);
        if liar == Some(i) {
            answer += Scalar::one();
        }
        assert!(n.take_answer(i as usize, &answer.to_bytes().to_vec()) == Taken::Kept);
    }
    assert!(!n.is_answers_due(102 * SECOND));
    assert!(n.is_answers_due(103 * SECOND));
    n
}

#[test]
fn honest_members_close_an_empty_block() {
    let mut n = answered(None);
    let sum = n.points[&SUM_PLACE];
    match n.close_empty_block(&generator(), 200 * SECOND) {
        Closing::AllGood { sum: s, answers } => {
            assert_eq!(s, sum);
            assert_eq!(answers.len(), 3);
        }
        _ => panic!("not closed"),
    }
    assert!(n.points.is_empty() && n.scalars.is_empty());
    assert!(!n.multisig && !n.stepeven);
    assert_eq!(n.timekeeper, 200 * SECOND);
}

#[test]
fn liars_have_to_leave_the_round() {
    let mut n = answered(Some(1));
    let left = match n.close_empty_block(&generator(), 200 * SECOND) {
        Closing::SomeBad { left } => left,
        _ => panic!("not weeded"),
    };
    assert_eq!(left.len(), 2);
    assert!(left.iter().all(|l| l.place != 1 && l.value == commitment(l.place as u64)));
    assert!(n.is_answers_due(103 * SECOND));

    // the honest ones go on, and close the block in one more round
    let total = ((nonce(0) + nonce(2)) * RISTRETTO_BASEPOINT_POINT).compress().to_bytes();
    n.weed_out(&left, total);
    assert_eq!(n.points.get(&1), None);
    assert_eq!(n.points.get(&0), Some(&commitment(0)));
    assert_eq!(n.points.get(&SUM_PLACE), Some(&total));
    assert!(n.scalars.is_empty());
    assert!(n.multisig && n.stepeven);
    assert_eq!(n.timekeeper, 99 * SECOND);
    let mut m = n.challenge_message();
    m.extend(total.to_vec());
    let e = Scalar::from_bits(scalar_of(&m));
    for i in [0, 2] {
        let answer = nonce(i) + e * secret(i);
        assert!(n.take_answer(i as usize, &answer.to_bytes().to_vec()) == Taken::Kept);
    }
    assert!(!n.is_answers_due(102 * SECOND));
    n.comittee[0] = vec![0, 2, 0];
    assert!(!n.is_answers_due(101 * SECOND));
    assert!(n.is_answers_due(102 * SECOND));
    let closed = n.close_empty_block(&generator(), 300 * SECOND);
    assert!(matches!(closed, Closing::AllGood { .. }));
}

#[test]
fn missing_answers_cannot_be_judged() {
    let mut n = answered(None);
    n.scalars.remove(&2);
    assert!(matches!(n.close_empty_block(&generator(), 5), Closing::Unjudged));
    assert_eq!(n.timekeeper, 100 * SECOND);
    let mut m = answered(None);
    assert!(matches!(m.close_empty_block(&[255; 32], 5), Closing::Unjudged));
    let mut o = answered(None);
    o.stkinfo[1].0 = [255; 32];
    assert!(matches!(o.close_empty_block(&generator(), 5), Closing::Unjudged));
}

#[test]
fn leaders_of_empty_blocks_sign_what_they_are() {
    let mut n = node();
    n.lastname = vec![4];
    assert_eq!(
        n.empty_block_message(&vec![7, 7], &vec![9]),
        vec![7, 7, 1, 0, 0, 0, 0, 0, 0, 0, 4, 9]
    );
    let mut expected = public(0).to_vec();
    expected.push(4);
    assert_eq!(n.challenge_message(), expected);
}

#[test]
fn leaders_send_the_next_transactions() {
    let mut n = node();
    n.txses = vec![vec![6]];
    n.points.insert(1, [1; 32]);
    assert_eq!(n.send_entry(110 * SECOND), None);
    assert_eq!(n.txses.len(), 1);
    assert_eq!(
        n.send_entry(111 * SECOND),
        Some(vec![1, 0, 0, 0, 0, 0, 0, 0, 1, 0, 0, 0, 0, 0, 0, 0, 6, 1])
    );
    assert!(n.txses.is_empty() && n.multisig);
    assert_eq!(n.points.get(&1), None);
    assert_eq!(n.timekeeper, 111 * SECOND);
    n.keylocation = vec![1];
    assert_eq!(n.send_entry(999 * SECOND), None);
}

#[test]
fn places_beyond_the_list_are_noticed() {
    let mut n = node();
    n.keylocation = vec![2, 3];
    assert!(!n.are_places_ok());
    n.keylocation = vec![2];
    assert!(n.are_places_ok());
}

#[test]
fn letters_name_stakes() {
    let mut n = node();
    n.smine = vec![Stake { place: 4, amount: 1 }, Stake { place: 5, amount: 2 }];
    assert!(n.named_stake(b'b') == Some(Stake { place: 5, amount: 2 }));
    assert!(n.named_stake(b'c').is_none());
    assert!(n.named_stake(b'!').is_none());
}

#[test]
fn history_is_answered_with_its_place() {
    let question = vec![2, 1, 0, 0, 0, 0, 0, 0, 77];
    assert_eq!(asked_place(&question), 258);
    assert_eq!(history_answer(&vec![5], &question), vec![5, 2, 1, 0, 0, 0, 0, 0, 0, 254]);
    let mut coin = [0u8; 32];
    coin[1] = 1;
    assert_eq!(money(&vec![coin, coin]), 512);
}
