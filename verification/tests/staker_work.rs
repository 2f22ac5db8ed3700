use khora_node::clock::{seconds_since, time_since, SECOND};
use khora_node::keys::Key;
use khora_node::net::{Endpoint, Ip, PeerId};
use khora_node::node::{KhoraNode, Stake};
use khora_node::outer::{
    next_for_outsider, read_inner, read_interface, read_member, read_outer, read_outsider,
    ring_answer, Errand, Kind,
};
use khora_node::pool::{none_seen, outsider_transaction, spends_stake, without_repeats, Gossip,
    Verdict};
use khora_node::reset::{is_amount_there, stake_position_bytes, PanicWork};
use khora_node::rounds::{count_friends, count_seats, passed_if, RoundStart};
use khora_node::rules::ChainRules;
use khora_node::wire::read_list;

const FOUNDER: Key = [1; 32];
const OTHER: Key = [2; 32];

fn node() -> KhoraNode {
    let rules = ChainRules {
        validators: 4,
        queue_length: 10,
        replace_rate: 2,
        signing_cutoff: 2,
        split_bits: 4,
    };
    KhoraNode::begin(rules, FOUNDER, FOUNDER, Ip::V4(77), false, 100 * SECOND)
}

fn peer(x: u32) -> PeerId {
    PeerId { endpoint: Endpoint { ip: Ip::V4(x), port: 8334, flow: 0, scope: 0 }, local: 0 }
}

#[test]
fn time_never_runs_backwards() {
    assert_eq!(time_since(5, 9), 0);
    assert_eq!(time_since(9, 5), 4);
    assert_eq!(seconds_since(5 * SECOND - 1, SECOND), 3);
    assert_eq!(seconds_since(5 * SECOND, SECOND), 4);
}

#[test]
fn waiting_transactions_are_weeded() {
    let mut n = node();
    n.txses = vec![vec![1], vec![2], vec![1], vec![3], vec![4]];
    n.drop_repeats();
    assert_eq!(n.txses, vec![vec![1], vec![2], vec![3], vec![4]]);
    n.keep_fit(&vec![
        Verdict::Stake { sound: true },
        Verdict::Unreadable,
        Verdict::Coins { tags_seen: vec![false, true], sound: true },
        Verdict::Coins { tags_seen: vec![false], sound: true },
    ]);
    assert_eq!(n.txses, vec![vec![1], vec![4]]);
    assert_eq!(without_repeats(&vec![vec![], vec![], vec![5]]), vec![vec![], vec![5]]);
}

#[test]
fn verdicts_decide() {
    assert!(!Verdict::Unreadable.fit());
    assert!(!Verdict::Stake { sound: false }.fit());
    assert!(!Verdict::Coins { tags_seen: vec![], sound: false }.fit());
    assert!(Verdict::Coins { tags_seen: vec![], sound: true }.fit());
    assert!(none_seen(&vec![false, false]));
    assert!(!none_seen(&vec![false, true]));
    assert!(spends_stake(&vec![9, 1]));
    assert!(!spends_stake(&vec![1, 9]));
    assert!(!spends_stake(&vec![]));
}

#[test]
fn gossiped_transactions_are_kept_and_passed_on() {
    let mut n = node();
    let good = Verdict::Stake { sound: true };
    assert!(n.take_transaction(&vec![7], &good) == Gossip::Pass);
    assert!(n.take_transaction(&vec![8], &Verdict::Unreadable) == Gossip::Drop);
    assert!(n.take_transaction(&vec![0; 100_000], &good) == Gossip::Silent);
    assert_eq!(n.txses, vec![vec![7]]);
    assert!(n.take_transaction(&vec![0; 99_999], &good) == Gossip::Pass);
}

#[test]
fn own_transactions_are_noted_and_sent() {
    let mut n = node();
    assert_eq!(n.submit(&vec![7]), vec![7, 0]);
    assert_eq!(n.submit_request(true, &vec![8]), Some(vec![8, 0]));
    assert_eq!(n.submit_request(false, &vec![9]), None);
    assert_eq!(n.submit_request(true, &vec![]), None);
    assert_eq!(n.txses, vec![vec![7], vec![8]]);
}

#[test]
fn outsiders_are_told_of_success() {
    assert_eq!(
        outsider_transaction(&vec![5], &vec![false], true),
        Some((vec![5, 0], vec![1]))
    );
    assert_eq!(outsider_transaction(&vec![5], &vec![true], true), None);
    assert_eq!(outsider_transaction(&vec![5], &vec![], false), None);
}

#[test]
fn rounds_begin_when_a_block_is_overdue() {
    let mut n = node();
    n.txses = vec![vec![4, 4]];
    // the round began at 101 seconds
    n.clocks.doneerly = 101 * SECOND;
    assert!(matches!(n.begin_round(111 * SECOND, 10), RoundStart::NotYet));
    n.waitingforentrybool = false;
    match n.begin_round(112 * SECOND, 10) {
        RoundStart::Entry { transactions } => {
            assert_eq!(read_list(&transactions), Some(vec![vec![4, 4]]));
            assert_eq!(transactions.len(), 18);
        }
        _ => panic!("no entry"),
    }
    assert!(n.waitingforentrybool);
    assert_eq!(n.clocks.timekeeper, 112 * SECOND);
    assert_eq!(n.clocks.usurping, 112 * SECOND);
    assert_eq!(n.clocks.gui, 100 * SECOND);
    n.newest = 3;
    assert!(matches!(n.begin_round(130 * SECOND, 10), RoundStart::Begun));
    n.is_validator = false;
    assert!(matches!(n.begin_round(999 * SECOND, 10), RoundStart::NotYet));
}

#[test]
fn early_blocks_shorten_the_wait() {
    let mut n = node();
    n.clocks.doneerly = 100 * SECOND;
    n.clocks.timekeeper = 105 * SECOND;
    assert!(matches!(n.begin_round(110 * SECOND, 10), RoundStart::NotYet));
    assert!(!matches!(n.begin_round(111 * SECOND, 10), RoundStart::NotYet));
    let mut m = node();
    m.clocks.doneerly = 105 * SECOND;
    m.clocks.timekeeper = 105 * SECOND;
    assert!(matches!(m.begin_round(115 * SECOND, 10), RoundStart::NotYet));
}

#[test]
fn silence_moves_the_head() {
    let mut n = node();
    assert!(!n.usurp(3700 * SECOND));
    assert_eq!(n.headshard, 0);
    assert!(n.usurp(3701 * SECOND));
    assert_eq!(n.headshard, 1);
    assert_eq!(n.clocks.timekeeper, 100 * SECOND);
    assert_eq!(n.clocks.usurping, 3701 * SECOND);
}

#[test]
fn friends_are_reported() {
    let mut n = node();
    let peers = vec![peer(1), peer(2), peer(3)];
    assert_eq!(count_friends(&peers, peer(2)), 2);
    assert_eq!(count_friends(&peers, peer(9)), 3);
    assert_eq!(n.report(&peers, peer(2), 105 * SECOND), None);
    assert_eq!(n.report(&peers, peer(2), 106 * SECOND), Some(vec![2, 0, 4]));
    assert_eq!(n.report(&peers, peer(2), 107 * SECOND), None);
}

#[test]
fn entries_by_the_newest_or_the_leader_are_taken() {
    let list = vec![1, 0, 0, 0, 0, 0, 0, 0, 1, 0, 0, 0, 0, 0, 0, 0, 9];
    let mut n = node();
    n.stkinfo.push((OTHER, 1));
    n.newest = 1;
    let r = n.take_entry(0, &list, 150 * SECOND);
    assert!(r.gossip == Gossip::Pass);
    assert_eq!(r.transactions, Some(vec![vec![9]]));
    assert_eq!(r.copies, 4);
    assert!(!n.waitingforentrybool && n.waitingforleaderbool);
    assert_eq!(n.clocks.waitingforleader, 150 * SECOND);
    assert!(n.take_entry(1, &list, 0).gossip == Gossip::Pass);
    assert!(n.take_entry(1, &vec![3], 0).gossip == Gossip::Drop);
    n.newest = 0;
    assert!(n.is_chooser(0) && !n.is_chooser(1));
    let refused = n.take_entry(1, &list, 0);
    assert!(refused.gossip == Gossip::Drop);
    assert_eq!(refused.copies, 0);
    n.keylocation = None;
    assert_eq!(n.take_entry(0, &list, 0).copies, 0);
    assert_eq!(count_seats(&vec![1, 2, 1], 1), 2);
    assert!(passed_if(true, true) == Gossip::Pass);
    assert!(passed_if(true, false) == Gossip::Drop);
    assert!(passed_if(false, true) == Gossip::Drop);
}

#[test]
fn late_leaders_are_overthrown() {
    let mut n = node();
    n.stkinfo.push((OTHER, 1));
    n.comittee[0] = vec![0, 1, 0, 0];
    n.votes = vec![9, 2, 9, 9];
    assert!(!n.overthrow(200 * SECOND, 5));
    n.waitingforleaderbool = true;
    n.clocks.waitingforleader = 100 * SECOND;
    assert!(!n.is_leader_late(105 * SECOND, 5));
    assert!(!n.overthrow(105 * SECOND, 5));
    assert!(n.is_leader_late(106 * SECOND, 5));
    assert!(n.can_choose_leader());
    assert!(n.overthrow(106 * SECOND, 5));
    assert_eq!(n.leader, OTHER);
    assert!(n.overthrown.contains(&FOUNDER));
    assert_eq!(n.clocks.waitingforleader, 106 * SECOND);
}

#[test]
fn only_validators_act_on_the_clocks() {
    let mut n = node();
    n.waitingforleaderbool = true;
    assert!(n.is_leader_late(999 * SECOND, 5) && n.is_entry_late(999 * SECOND, 5));
    assert!(n.is_finishing_time(&FOUNDER, 3, 999 * SECOND, 5));
    n.is_validator = false;
    assert!(!n.is_leader_late(999 * SECOND, 5) && !n.is_entry_late(999 * SECOND, 5));
    assert!(!n.is_finishing_time(&FOUNDER, 3, 999 * SECOND, 5));
    assert!(!n.overthrow(999 * SECOND, 5));
    assert!(!n.give_up_entry(999 * SECOND, 5));
    assert!(matches!(n.begin_round(999 * SECOND, 5), RoundStart::NotYet));
    assert!(n.leader == FOUNDER && n.waitingforentrybool && n.waitingforleaderbool);
}

#[test]
fn leaders_are_chosen_from_known_members() {
    let mut n = node();
    assert!(n.can_choose_leader());
    n.comittee[0][3] = 1;
    assert!(!n.can_choose_leader());
    n.votes = vec![0; 3];
    assert!(n.can_choose_leader());
    n.votes = vec![];
    assert!(!n.can_choose_leader());
    n.comittee = vec![];
    assert!(!n.can_choose_leader());
}

#[test]
fn one_node_serves_what_another_asks_for() {
    let mut asker = node();
    asker.bnum = 9;
    let (_, request) = asker.ask_for_blocks().unwrap();
    let message = read_outer(&request);
    assert!(message.kind == Kind::Sync);
    let mut giver = node();
    giver.bnum = 12;
    assert_eq!(giver.take_sync_request(&message.body, peer(4), peer(1)), None);
    assert!(giver.next_errand() == Some(Errand { to: peer(4), number: 9, lightning: false }));
}

#[test]
fn leaders_finish_with_enough_signatures() {
    let n = node();
    assert!(n.is_finishing_time(&FOUNDER, 3, 104 * SECOND, 2));
    assert!(!n.is_finishing_time(&FOUNDER, 2, 104 * SECOND, 2));
    assert!(!n.is_finishing_time(&FOUNDER, 3, 103 * SECOND, 2));
    assert!(!n.is_finishing_time(&OTHER, 3, 104 * SECOND, 2));
    assert_eq!(n.by_members(&vec![0, 1, 0]), vec![true, false, true]);
}

#[test]
fn signatures_are_about_the_block() {
    let mut n = node();
    n.headshard = 3;
    n.bnum = 7;
    n.lastname = vec![42];
    let mut expected = FOUNDER.to_vec();
    expected.extend(vec![1, 0, 0, 0, 0, 0, 0, 0, 3, 0]);
    expected.extend(vec![5, 6]);
    expected.extend(vec![7, 0, 0, 0, 0, 0, 0, 0]);
    expected.push(42);
    assert_eq!(n.message_to_sign(&vec![5, 6]), expected);
}

#[test]
fn late_entries_lead_to_empty_blocks() {
    let mut n = node();
    assert!(!n.give_up_entry(106 * SECOND, 6));
    assert!(n.waitingforentrybool);
    assert!(!n.is_entry_late(106 * SECOND, 6) && n.is_entry_late(107 * SECOND, 6));
    assert!(n.give_up_entry(107 * SECOND, 6));
    assert!(!n.waitingforentrybool);
    assert!(!n.give_up_entry(999 * SECOND, 6));
    n.waitingforentrybool = true;
    n.keylocation = Some(8);
    assert!(!n.give_up_entry(999 * SECOND, 6));
    assert!(!n.waitingforentrybool);
}

#[test]
fn messages_are_sorted_by_their_last_byte() {
    assert!(read_inner(&vec![]).kind == Kind::Empty);
    for (tag, kind) in [(1, Kind::Entry), (2, Kind::Signature), (3, Kind::Block), (0, Kind::Spam)] {
        let m = read_inner(&vec![9, tag]);
        assert!(m.kind == kind);
        assert_eq!(m.body, vec![9]);
    }
    for (tag, kind) in [
        (0, Kind::Transaction),
        (3, Kind::Block),
        (60, Kind::AskAgain),
        (97, Kind::Connect),
        (108, Kind::Lightning),
        (110, Kind::Announcement),
        (121, Kind::Sync),
        (1, Kind::Spam),
    ] {
        assert!(read_outer(&vec![tag]).kind == kind);
    }
    for (tag, kind) in [
        (0, Kind::Transaction),
        (101, Kind::Entrance),
        (114, Kind::Ring),
        (121, Kind::Sync),
        (3, Kind::Spam),
    ] {
        assert!(read_outsider(&vec![tag]).kind == kind);
    }
    for (tag, kind) in [
        (33, Kind::Spend),
        (255, Kind::Panic),
        (121, Kind::Sync),
        (42, Kind::EntryAddress),
        (64, Kind::Friends),
        (0, Kind::Save),
        (5, Kind::Spam),
    ] {
        assert!(read_interface(&vec![tag]).kind == kind);
    }
    for (tag, kind) in [
        (0, Kind::Transaction),
        (1, Kind::Entry),
        (2, Kind::Signature),
        (3, Kind::Block),
        (4, Kind::Commitment),
        (5, Kind::CommitmentSum),
        (6, Kind::Answer),
        (255, Kind::History),
        (7, Kind::Spam),
    ] {
        assert!(read_member(&vec![tag]).kind == kind);
    }
    assert!(read_member(&vec![]).kind == Kind::Empty);
    assert!(read_outer(&vec![]).kind == Kind::Empty);
    assert!(read_outsider(&vec![]).kind == Kind::Empty);
    assert!(read_interface(&vec![]).kind == Kind::Empty);
}

#[test]
fn rings_are_answered_in_packed_form() {
    assert_eq!(
        ring_answer(&vec![vec![7]]),
        vec![1, 0, 0, 0, 0, 0, 0, 0, 1, 0, 0, 0, 0, 0, 0, 0, 7]
    );
}

#[test]
fn searches_for_outsiders_end_at_the_next_block() {
    assert_eq!(next_for_outsider(3, 5, false), Some(4));
    assert_eq!(next_for_outsider(4, 5, false), None);
    assert_eq!(next_for_outsider(5, 5, false), Some(6));
    assert_eq!(next_for_outsider(3, 5, true), None);
    assert_eq!(next_for_outsider(u64::MAX, 5, true), None);
}

#[test]
fn blocks_are_given_one_after_the_other() {
    let mut n = node();
    n.bnum = 6;
    assert!(n.next_errand().is_none());
    let request = vec![5, 0, 0, 0, 0, 0, 0, 0, 108];
    assert_eq!(n.take_sync_request(&request, peer(4), peer(1)), None);
    assert!(n.next_errand() == Some(Errand { to: peer(4), number: 5, lightning: true }));
    assert_eq!(n.errand_done(&None), None);
    assert!(n.next_errand() == Some(Errand { to: peer(4), number: 6, lightning: true }));
    let answer = n.errand_done(&Some(vec![8])).unwrap();
    assert_eq!(answer, vec![8, 108]);
    assert!(read_outer(&answer).kind == Kind::Lightning);
    assert!(n.next_errand().is_none());
    let mut full = node();
    full.bnum = 6;
    let request = vec![5, 0, 0, 0, 0, 0, 0, 0, 102];
    assert_eq!(full.take_sync_request(&request, peer(4), peer(1)), None);
    assert_eq!(full.errand_done(&Some(vec![8])), Some(vec![8, 3]));
}

#[test]
fn requests_that_cannot_be_served_are_answered() {
    let full = vec![5, 0, 0, 0, 0, 0, 0, 0, 102];
    let mut n = node();
    assert_eq!(n.take_sync_request(&vec![], peer(4), peer(1)), Some(vec![60]));
    assert_eq!(n.take_sync_request(&vec![1, 2, 108], peer(4), peer(1)), Some(vec![60]));
    assert_eq!(n.take_sync_request(&vec![], peer(1), peer(1)), None);
    n.lightning_yielder = true;
    assert_eq!(n.take_sync_request(&full, peer(4), peer(1)), Some(vec![60]));
    assert!(n.sync_returnaddr.is_none());
    n.lightning_yielder = false;
    assert_eq!(n.take_sync_request(&full, peer(4), peer(1)), None);
    assert!(!n.sync_lightning);
    assert_eq!(n.take_sync_request(&full, peer(5), peer(1)), Some(vec![60]));
    assert!(n.sync_returnaddr == Some(peer(4)));
}

#[test]
fn blocks_are_asked_of_someone_known() {
    let mut n = node();
    n.bnum = 3;
    let (to, m) = n.ask_for_blocks().unwrap();
    let home = Endpoint { ip: Ip::V4(77), port: 8335, flow: 0, scope: 0 };
    assert!(to == PeerId { endpoint: home, local: 0 });
    assert_eq!(m, vec![3, 0, 0, 0, 0, 0, 0, 0, 102, 121]);
    assert!(n.ask_friend(None).is_none());
    n.allnetwork = khora_node::net::AddressBook::new();
    assert!(n.ask_for_blocks().is_none());
}

#[test]
fn announced_addresses_are_noted() {
    let mut n = node();
    assert!(n.take_announcement(Some(FOUNDER), Some(Ip::V6(5))) == Gossip::Pass);
    let home = Endpoint { ip: Ip::V6(5), port: 8335, flow: 0, scope: 0 };
    assert!(n.allnetwork.known_addresses() == vec![home]);
    assert!(n.take_announcement(Some(OTHER), Some(Ip::V6(6))) == Gossip::Pass);
    assert!(n.take_announcement(None, Some(Ip::V6(6))) == Gossip::Drop);
    assert!(n.take_announcement(Some(FOUNDER), None) == Gossip::Drop);
    assert!(n.allnetwork.known_addresses() == vec![home]);
}

#[test]
fn stakes_are_named_by_their_place() {
    assert_eq!(
        stake_position_bytes(Some(Stake { place: 258, amount: 9 })),
        vec![2, 1, 0, 0, 0, 0, 0, 0, 1]
    );
    assert_eq!(stake_position_bytes(None), vec![1]);
}

#[test]
fn panics_go_on_until_all_has_arrived() {
    let mut n = node();
    assert!(n.panic_work(0) == PanicWork::Nothing);
    assert_eq!(n.coins_moved(&vec![7]), vec![7, 0]);
    assert!(n.panic_work(0) == PanicWork::Resend);
    assert!(n.panic_work(1) == PanicWork::Stop);
    let again = n.carry_on_panic(false, 0, &None);
    assert_eq!(again.coins, Some(vec![7, 0]));
    assert_eq!(again.stake, None);
    assert_eq!(n.stake_moved(&vec![8], 40), vec![8, 0]);
    n.leave_account();
    assert!(n.smine.is_none() && n.keylocation.is_none());
    assert!(n.panic_work(1) == PanicWork::Restake);
    assert!(n.panic_work(2) == PanicWork::Stop);
    let r = n.restake(Some(Stake { place: 3, amount: 33 }), &vec![]);
    assert!(!r.arrived);
    assert_eq!((r.count, r.size), (3, 11));
    assert_eq!(r.inputs, vec![3, 0, 0, 0, 0, 0, 0, 0, 1]);
    let m = n.carry_on_panic(r.arrived, 1, &Some(vec![9]));
    assert_eq!(m.stake, Some(vec![9, 0]));
    // an account is there and only the stake is missing
    assert_eq!(m.coins, None);
    assert!(n.moneyreset.is_none());
    assert_eq!(n.txses, vec![vec![7], vec![8], vec![9]]);
    let mut amount = [0u8; 32];
    amount[0] = 33;
    let s = n.restake(None, &vec![[1; 32], amount]);
    assert!(s.arrived);
    assert_eq!((s.count, s.size), (1, 0));
    n.carry_on_panic(s.arrived, 0, &None);
    assert!(n.oldstk.is_none());
    n.coins_moved(&vec![1]);
    n.stop_panic();
    assert!(n.panic_work(0) == PanicWork::Nothing);
}

#[test]
fn amounts_are_compared_as_scalars() {
    let mut wide = [0u8; 32];
    wide[0] = 1;
    wide[1] = 2;
    assert!(is_amount_there(&vec![[9; 32], wide], 513));
    wide[31] = 1;
    assert!(!is_amount_there(&vec![wide], 513));
    assert!(!is_amount_there(&vec![], 0));
}
