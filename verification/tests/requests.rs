use curve25519_dalek::constants::RISTRETTO_BASEPOINT_COMPRESSED;
use khora_node::console::{are_records, read_line, read_records, split_words, Command};
use khora_node::request::{
    is_readable, is_readable_staker_panic, is_readable_staker_request, is_readable_user_request,
    read_spending,
    read_staker_panic, read_staker_request, read_user_panic, read_user_request, split_amount,
    Source,
};

fn spell(key: &[u8; 32]) -> Vec<u8> {
    let mut out: Vec<u8> = key.iter().map(|b| 97 + b % 16).collect();
    out.extend(key.iter().map(|b| 97 + b / 16));
    out
}

fn record(keys: [u8; 3], amount: u64) -> Vec<u8> {
    let mut out = vec![];
    for k in keys {
        out.extend(spell(&[k; 32]));
    }
    out.extend(amount.to_le_bytes());
    out
}

#[test]
fn amounts_are_split_into_small_parts() {
    assert_eq!(split_amount(0, 4), (1, 0));
    assert_eq!(split_amount(15, 4), (1, 15));
    assert_eq!(split_amount(16, 4), (2, 8));
    assert_eq!(split_amount(100, 4), (7, 14));
    for amount in [0u64, 1, 99, 12345, 1 << 20] {
        let (count, size) = split_amount(amount, 10);
        assert!(size < 1024);
        assert!(count * size <= amount);
        assert!(amount < count * size + count);
    }
}

#[test]
fn spelled_keys_come_back() {
    let mut key = [0u8; 32];
    for i in 0..32 {
        key[i] = (i * 8 + 3) as u8;
    }
    let mut m = spell(&key);
    m.extend(spell(&[255; 32]));
    m.extend(spell(&[0; 32]));
    m.extend(5u64.to_le_bytes());
    assert!(is_readable(&m));
    let s = read_spending(&m, 32);
    assert!(s.valid);
    assert_eq!(s.outputs.len(), 1);
    assert_eq!(s.outputs[0].to.pk, key);
    assert_eq!(s.outputs[0].to.vpk, [255; 32]);
    assert_eq!(s.outputs[0].to.apk, [0; 32]);
    assert_eq!(s.outputs[0].amount, 5);
}

#[test]
fn large_amounts_become_several_outputs() {
    let mut m = record([1, 2, 3], 100);
    m.extend(record([4, 5, 6], 3));
    let s = read_spending(&m, 4);
    assert!(s.valid);
    assert_eq!(s.outputs.len(), 8);
    assert!(s.outputs[..7].iter().all(|o| o.amount == 14 && o.to.pk == [1; 32]));
    assert_eq!(s.outputs[7].amount, 3);
    assert_eq!(s.outputs[7].to.apk, [6; 32]);
}

#[test]
fn what_is_missing_is_filled_in() {
    // two keys and an amount: the third key is the base point
    let mut m = spell(&[1; 32]);
    m.extend(spell(&[2; 32]));
    m.extend(9u64.to_le_bytes());
    let s = read_spending(&m, 32);
    assert!(!s.valid);
    assert_eq!(s.outputs.len(), 1);
    assert_eq!(s.outputs[0].to.apk, RISTRETTO_BASEPOINT_COMPRESSED.to_bytes());
    assert_eq!(s.outputs[0].amount, 9);
    // three keys and nothing else: the amount is zero
    let mut n = spell(&[1; 32]);
    n.extend(spell(&[2; 32]));
    n.extend(spell(&[3; 32]));
    let t = read_spending(&n, 32);
    assert!(!t.valid);
    assert_eq!(t.outputs[0].amount, 0);
    assert_eq!(t.outputs[0].to.apk, [3; 32]);
    let nothing = read_spending(&vec![], 32);
    assert!(nothing.valid);
    assert_eq!(nothing.outputs.len(), 0);
}

#[test]
fn unreadable_requests_are_known() {
    assert!(is_readable(&vec![]));
    assert!(!is_readable(&vec![1; 7]));
    assert!(is_readable(&vec![1; 8]));
    assert!(!is_readable(&vec![96; 64]));
    assert!(!is_readable(&vec![113; 64]));
    assert!(is_readable(&vec![97; 64]));
}

#[test]
fn stakers_name_the_source() {
    let mut m = record([1, 2, 3], 7);
    m.push(11);
    m.push(33);
    assert!(is_readable_staker_request(&m));
    let r = read_staker_request(&m, 32);
    assert!(r.source == Source::Coins);
    assert_eq!(r.ring_extra, Some(11));
    assert_eq!(r.spending.outputs.len(), 1);
    let mut n = record([1, 2, 3], 7);
    n.push(63);
    let q = read_staker_request(&n, 32);
    assert!(q.source == Source::Stake);
    assert_eq!(q.ring_extra, None);
    assert!(q.spending.valid);
    let mut o = record([1, 2, 3], 7);
    o.push(1);
    assert!(read_staker_request(&o, 32).source == Source::Neither);
    assert!(!is_readable_staker_request(&vec![]));
    assert!(!is_readable_staker_request(&vec![33]));
    assert!(is_readable_staker_request(&vec![63]));
}

#[test]
fn users_name_the_ring() {
    let mut m = record([1, 2, 3], 7);
    m.push(6);
    assert!(is_readable_user_request(&m));
    let r = read_user_request(&m, 32);
    assert_eq!(r.ring_extra, 6);
    assert_eq!(r.spending.outputs[0].amount, 7);
    assert!(!is_readable_user_request(&vec![]));
}

#[test]
fn panics_tell_the_two_amounts_apart() {
    let mut m = 5u64.to_le_bytes().to_vec();
    m.extend(5u64.to_le_bytes());
    m.extend(b"secret");
    assert!(is_readable_staker_panic(&m));
    assert!(!is_readable_staker_panic(&m[..15].to_vec()));
    assert!(!is_readable_staker_panic(&vec![0; 20]));
    let p = read_staker_panic(&m);
    assert_eq!((p.coins, p.stake), (5, 4));
    assert_eq!(p.password, b"secret".to_vec());
    m[8] = 9;
    let q = read_staker_panic(&m);
    assert_eq!((q.coins, q.stake), (5, 9));
    let u = read_user_panic(&m);
    assert_eq!(u.coins, 5);
    assert_eq!(u.password.len(), 14);
}

#[test]
fn words_are_what_stands_between_spaces() {
    let text = b"ab  c ".to_vec();
    let words = split_words(&text);
    assert_eq!(words, vec![b"ab".to_vec(), vec![], b"c".to_vec(), vec![]]);
    let mut again = vec![];
    for (i, w) in words.iter().enumerate() {
        if i > 0 {
            again.push(32);
        }
        again.extend(w);
    }
    assert_eq!(again, text);
    assert_eq!(split_words(&vec![]), vec![Vec::<u8>::new()]);
}

#[test]
fn console_lines_are_read() {
    assert!(matches!(read_line(&vec![]), Command::Nothing));
    assert!(matches!(read_line(&b"whatever?".to_vec()), Command::Nothing));
    assert!(matches!(read_line(&b"I".to_vec()), Command::Info));
    assert!(matches!(read_line(&b"b".to_vec()), Command::LastBlock));
    assert!(matches!(read_line(&b"!".to_vec()), Command::PayFromNowhere));
    match read_line(&b"ABCa!".to_vec()) {
        Command::Pay { letter, body } => {
            assert_eq!(letter, 97);
            assert_eq!(body, b"abc".to_vec());
        }
        _ => panic!("no payment"),
    }
    match read_line(&b"1.2.3.4:5 6.7.8.9:10*".to_vec()) {
        Command::Connect { addresses } => {
            assert_eq!(addresses, vec![b"1.2.3.4:5".to_vec(), b"6.7.8.9:10".to_vec()])
        }
        _ => panic!("no addresses"),
    }
    match read_line(&b"9876 9875a".to_vec()) {
        Command::ConnectPorts { ports } => {
            assert_eq!(ports, vec![b"9876".to_vec(), b"9875".to_vec()])
        }
        _ => panic!("no ports"),
    }
}

#[test]
fn typed_amounts_are_digits_of_bytes() {
    let line = b"gfjmlieehekfdigbggapelbbhmneojphaaohaoikfihgghdkjmkicijcmjgpmaofkccgngcfmlfhjdnklngecejjpepepdnplemnilakijgddackcniigmnpnpdcgmnboidgodekoloapleeenjhchfmghbfcbfnagiclaljfeobinadhofcclghemfnlkob10000000".to_vec();
    assert_eq!(line.len(), 200);
    assert!(are_records(&line));
    let out = read_records(&line);
    assert_eq!(out.len(), 1);
    assert_eq!(out[0].amount, 1);
    // the first letters of each half: g and a
    assert_eq!(out[0].to.pk[0], 6 + 16 * (line[32] - 97));
    let mut twice = line.clone();
    twice.extend(line.clone());
    twice[399] = 49;
    let outs = read_records(&twice);
    assert_eq!(outs.len(), 2);
    assert_eq!(outs[1].amount, 1 + (1 << 56));
    assert!(!are_records(&line[..199].to_vec()));
    let mut bad = line.clone();
    bad[199] = 47;
    assert!(!are_records(&bad));
    assert!(are_records(&vec![]));
}
