use khora_node::election::{choose_leader, count_signatures, holds, tally, winner};
use khora_node::keys::{Key, KeySet};
use khora_node::net::{list_committee_peers, AddressBook, Contact, Endpoint, Ip, PeerId};
use khora_node::rules::ChainRules;

fn key(x: u8) -> Key {
    [x; 32]
}

fn at(x: u32) -> Endpoint {
    Endpoint { ip: Ip::V4(x), port: 8335, flow: 0, scope: 0 }
}

#[test]
fn the_last_of_the_best_wins() {
    assert_eq!(winner(&vec![1, 5, 5, 2], &vec![false; 4], 4), 2);
    assert_eq!(winner(&vec![1, 5, 5, 2], &vec![false, true, true, false], 4), 3);
    assert_eq!(winner(&vec![9, 8], &vec![true, true], 2), 1);
    assert_eq!(winner(&vec![9, 8, 10], &vec![false; 3], 2), 0);
}

#[test]
fn leaders_are_neither_leaving_nor_overthrown() {
    let members = vec![0, 1, 2, 0];
    let stakers = vec![(key(1), 5), (key(2), 6), (key(3), 7)];
    let votes = vec![1, 7, 3, 2];
    let nobody = KeySet::new();
    assert_eq!(choose_leader(&members, &votes, &stakers, &vec![], &nobody), key(2));
    assert_eq!(choose_leader(&members, &votes, &stakers, &vec![1], &nobody), key(3));
    let mut fallen = KeySet::new();
    fallen.insert(key(3));
    assert_eq!(choose_leader(&members, &votes, &stakers, &vec![1], &fallen), key(1));
    // of several votes for one seat row the shorter list counts
    assert_eq!(choose_leader(&members, &vec![4], &stakers, &vec![], &nobody), key(1));
    // where nobody is fit the last seat counts
    assert_eq!(choose_leader(&vec![0, 1], &vec![9, 1], &stakers, &vec![0, 1], &nobody), key(2));
}

#[test]
fn signatures_count_as_votes() {
    assert_eq!(count_signatures(&vec![3, 1, 3, 3], 3), 3);
    assert_eq!(count_signatures(&vec![], 3), 0);
    assert_eq!(tally(&vec![10, -2, 0], &vec![3, 4, 3], &vec![3, 3, 4, 9]), vec![12, -1, 2]);
    assert_eq!(tally(&vec![1, 1], &vec![0], &vec![0]), vec![2]);
    assert!(holds(&vec![1, 2], 2));
    assert!(!holds(&vec![1, 2], 3));
}

#[test]
fn the_exit_window_is_five_rounds() {
    let rules = ChainRules {
        validators: 4,
        queue_length: 10,
        replace_rate: 2,
        signing_cutoff: 2,
        split_bits: 32,
    };
    assert!(rules.is_wf());
    assert_eq!(rules.exit_time(), 10);
    assert!(!ChainRules { validators: 0, ..rules }.is_wf());
    assert!(!ChainRules { split_bits: 0, ..rules }.is_wf());
    assert!(!ChainRules { split_bits: 64, ..rules }.is_wf());
    assert!(!ChainRules { replace_rate: usize::MAX, ..rules }.is_wf());
}

#[test]
fn announcements_change_known_stakers_only() {
    let mut book = AddressBook::new();
    book.insert(key(1), Contact { place: 4, addr: None });
    book.insert(key(2), Contact { place: 5, addr: Some(at(7)) });
    book.announce(&key(1), Ip::V4(9));
    book.announce(&key(3), Ip::V4(10));
    assert!(book.get(&key(1)) == Some(Contact { place: 4, addr: Some(at(9)) }));
    assert!(book.get(&key(2)) == Some(Contact { place: 5, addr: Some(at(7)) }));
    assert!(book.get(&key(3)).is_none());
    assert!(book.known_addresses() == vec![at(9), at(7)]);
    book.insert(key(2), Contact { place: 6, addr: None });
    assert!(book.known_addresses() == vec![at(9)]);
    assert_eq!(book.to_lines().len(), 2);
    assert!(book.copy().get(&key(2)) == Some(Contact { place: 6, addr: None }));
}

#[test]
fn members_are_joined_where_they_listen_to_nodes() {
    let mut book = AddressBook::new();
    book.insert(key(1), Contact { place: 0, addr: Some(at(7)) });
    book.insert(key(2), Contact { place: 1, addr: None });
    let stakers = vec![(key(1), 5), (key(2), 6)];
    let peers = list_committee_peers(&vec![0, 1, 0], &stakers, &book);
    let peer = PeerId {
        endpoint: Endpoint { ip: Ip::V4(7), port: 8334, flow: 0, scope: 0 },
        local: 1,
    };
    assert!(peers == vec![peer, peer]);
}
