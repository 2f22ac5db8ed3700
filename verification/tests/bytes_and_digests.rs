use curve25519_dalek::constants::RISTRETTO_BASEPOINT_POINT;
use curve25519_dalek::scalar::Scalar;
use khora_node::bytes::{copy_bytes, cut, extend, same_bytes, u16_bytes, u64_at, u64_bytes};
use khora_node::digest::{check_answer, hash_to_scalar, scalar_of, total, total_low_bytes};
use khora_node::keys::{key_bytes, same_key, KeySet};
use khora_node::wire::read_list;

fn small(x: u8) -> [u8; 32] {
    let mut s = [0u8; 32];
    s[0] = x;
    s
}

#[test]
fn numbers_are_little_endian() {
    assert_eq!(u64_bytes(0x0102030405060708), vec![8, 7, 6, 5, 4, 3, 2, 1]);
    assert_eq!(u64_bytes(u64::MAX), vec![255; 8]);
    assert_eq!(u16_bytes(0x0102), vec![2, 1]);
    assert_eq!(u64_at(&vec![9, 8, 7, 6, 5, 4, 3, 2, 1], 1), 0x0102030405060708);
}

#[test]
fn written_numbers_are_read_back() {
    for n in [0u64, 1, 255, 256, 65535, 1 << 40, u64::MAX] {
        assert_eq!(u64_at(&u64_bytes(n), 0), n);
    }
}

#[test]
fn byte_strings_are_cut_and_joined() {
    let m = vec![1, 2, 3, 4];
    assert_eq!(cut(&m, 1, 3), vec![2, 3]);
    assert_eq!(cut(&m, 2, 2), Vec::<u8>::new());
    assert_eq!(copy_bytes(&m), m);
    let mut n = vec![0];
    extend(&mut n, &m);
    assert_eq!(n, vec![0, 1, 2, 3, 4]);
    assert!(same_bytes(&m, &copy_bytes(&m)));
    assert!(!same_bytes(&m, &n));
    assert!(!same_bytes(&m, &vec![1, 2, 3, 5]));
}

#[test]
fn packed_messages_have_their_scalar() {
    assert_eq!(
        scalar_of(&vec![]),
        [
            241, 235, 250, 245, 185, 63, 237, 32, 47, 164, 119, 214, 10, 19, 200, 67, 130, 132,
            149, 25, 93, 128, 77, 17, 33, 48, 120, 78, 25, 26, 141, 14
        ]
    );
    assert_eq!(
        scalar_of(&b"abc".to_vec()),
        [
            231, 168, 19, 48, 227, 119, 227, 40, 215, 116, 255, 15, 9, 38, 194, 60, 237, 188, 100,
            245, 243, 216, 150, 140, 119, 138, 46, 104, 144, 231, 232, 1
        ]
    );
}

#[test]
fn messages_are_packed_before_they_are_hashed() {
    let expected = [
        232, 141, 76, 173, 139, 119, 15, 215, 184, 46, 137, 253, 205, 111, 233, 76, 172, 118, 210,
        178, 57, 208, 14, 215, 184, 147, 154, 38, 254, 23, 5, 14,
    ];
    assert_eq!(hash_to_scalar(&vec![1, 2, 3]), expected);
    let mut packed = u64_bytes(3);
    packed.extend(vec![1, 2, 3]);
    assert_eq!(scalar_of(&packed), expected);
}

#[test]
fn scalars_are_added_modulo_the_group_order() {
    assert_eq!(total(&vec![]), [0u8; 32]);
    assert_eq!(total(&vec![small(3), small(4), small(5)]), small(12));
    let largest = (-Scalar::one()).to_bytes();
    assert_eq!(total(&vec![largest, small(1)]), [0u8; 32]);
    assert_eq!(total_low_bytes(&vec![largest, largest]), vec![235, 211, 245, 92, 26, 99, 18, 88]);
    assert_eq!(total_low_bytes(&vec![small(250), small(10)]), vec![4, 1, 0, 0, 0, 0, 0, 0]);
}

#[test]
fn answers_are_checked() {
    let secret = Scalar::from(77u64);
    let nonce = Scalar::from(1234u64);
    let challenge = Scalar::from(555u64);
    let generator = RISTRETTO_BASEPOINT_POINT.compress().to_bytes();
    let key = (secret * RISTRETTO_BASEPOINT_POINT).compress().to_bytes();
    let commitment = (nonce * RISTRETTO_BASEPOINT_POINT).compress().to_bytes();
    let answer = (nonce + challenge * secret).to_bytes();
    let c = challenge.to_bytes();
    assert_eq!(check_answer(&commitment, &c, &key, &answer, &generator), Some(true));
    assert_eq!(check_answer(&commitment, &c, &key, &small(1), &generator), Some(false));
    assert_eq!(check_answer(&key, &c, &key, &answer, &generator), Some(false));
    assert_eq!(check_answer(&[255u8; 32], &c, &key, &answer, &generator), None);
    assert_eq!(check_answer(&commitment, &c, &[255u8; 32], &answer, &generator), None);
    assert_eq!(check_answer(&commitment, &c, &key, &answer, &[255u8; 32]), None);
}

#[test]
fn key_sets_hold_each_key_once() {
    let mut set = KeySet::new();
    assert!(!set.contains(&small(1)));
    set.insert(small(1));
    set.insert(small(2));
    set.insert(small(1));
    assert_eq!(set.to_vec(), vec![small(1), small(2)]);
    set.remove(&small(1));
    set.remove(&small(9));
    assert!(!set.contains(&small(1)));
    assert!(set.contains(&small(2)));
    let other = KeySet::from_vec(&vec![small(5), small(5), small(6)]);
    assert_eq!(other.to_vec().len(), 2);
    assert!(same_key(&small(5), &small(5)));
    assert!(!same_key(&small(5), &small(6)));
    assert_eq!(key_bytes(&small(7))[0], 7);
    assert_eq!(key_bytes(&small(7)).len(), 32);
}

#[test]
fn lists_are_unpacked() {
    let packed = vec![
        2, 0, 0, 0, 0, 0, 0, 0, 2, 0, 0, 0, 0, 0, 0, 0, 1, 2, 1, 0, 0, 0, 0, 0, 0, 0, 3,
    ];
    assert_eq!(read_list(&packed), Some(vec![vec![1, 2], vec![3]]));
    let mut longer = packed.clone();
    longer.push(99);
    assert_eq!(read_list(&longer), Some(vec![vec![1, 2], vec![3]]));
    assert_eq!(read_list(&packed[..packed.len() - 1].to_vec()), None);
    assert_eq!(read_list(&vec![1, 2, 3]), None);
    assert_eq!(read_list(&vec![0; 8]), Some(vec![]));
    assert_eq!(read_list(&vec![255; 8]), None);
}
