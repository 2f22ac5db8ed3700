use khora_node::frame::{
    block_number_frame, block_time_frame, identity_frame, read_asked_block, saved_frame,
    seat_frame, staker_friends_frame, staker_money_frame, staker_sync_request, tagged,
    trust_frame, untagged, user_friends_frame, user_money_frame, user_sync_request,
};

#[test]
fn tags_come_last() {
    assert_eq!(tagged(&vec![1, 2], 3), vec![1, 2, 3]);
    assert_eq!(untagged(&vec![1, 2, 3]), Some((3, vec![1, 2])));
    assert_eq!(untagged(&vec![]), None);
}

#[test]
fn the_interface_is_told() {
    let mut one = [0u8; 32];
    one[0] = 1;
    assert_eq!(trust_frame(true), vec![1, 1]);
    assert_eq!(trust_frame(false), vec![0, 1]);
    assert_eq!(
        staker_money_frame(&vec![one, one], Some(256)),
        vec![2, 0, 0, 0, 0, 0, 0, 0, 0, 1, 0, 0, 0, 0, 0, 0, 0]
    );
    assert_eq!(staker_money_frame(&vec![], None), vec![0; 17]);
    assert_eq!(user_money_frame(&vec![one]), vec![1, 0, 0, 0, 0, 0, 0, 0, 0]);
    assert_eq!(block_number_frame(258), vec![2, 1, 0, 0, 0, 0, 0, 0, 2]);
    assert_eq!(seat_frame(true), vec![1, 3]);
    assert_eq!(seat_frame(false), vec![0, 3]);
    assert_eq!(staker_friends_frame(65537), vec![1, 0, 4]);
    assert_eq!(user_friends_frame(3), vec![3, 0, 0, 0, 0, 0, 0, 0, 4]);
    assert_eq!(block_time_frame(10), vec![10, 128]);
    assert_eq!(saved_frame(), vec![253]);
}

#[test]
fn identities_are_packed_piece_by_piece() {
    let frame = identity_frame(&vec![vec![7], vec![]]);
    let mut expected = vec![2, 0, 0, 0, 0, 0, 0, 0];
    expected.extend(vec![9, 0, 0, 0, 0, 0, 0, 0, 1, 0, 0, 0, 0, 0, 0, 0, 7]);
    expected.extend(vec![8, 0, 0, 0, 0, 0, 0, 0, 0, 0, 0, 0, 0, 0, 0, 0]);
    expected.push(254);
    assert_eq!(frame, expected);
}

#[test]
fn sync_requests_are_understood() {
    assert_eq!(staker_sync_request(5, true), vec![5, 0, 0, 0, 0, 0, 0, 0, 108, 121]);
    assert_eq!(staker_sync_request(5, false), vec![5, 0, 0, 0, 0, 0, 0, 0, 102, 121]);
    assert_eq!(user_sync_request(5), vec![5, 0, 0, 0, 0, 0, 0, 0, 121]);
    assert_eq!(read_asked_block(&vec![5, 1, 0, 0, 0, 0, 0, 0]), Some(261));
    assert_eq!(read_asked_block(&vec![5; 7]), None);
    assert_eq!(read_asked_block(&vec![5; 9]), None);
}
