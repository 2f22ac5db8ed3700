//! The byte layout of what is packed with bincode: a length in eight
//! little-endian bytes, then the items.

use crate::bytes::{le_bytes, le_round_trip, lemma_le_bytes_len, lemma_pow256_values};
use vstd::prelude::*;

verus! {

/// A byte string as it is packed: its length, then its bytes.
pub open spec fn packed_bytes(b: Seq<u8>) -> Seq<u8> {
    le_bytes(b.len(), 8) + b
}

/// The items of a list one after the other, each as it is packed.
pub open spec fn packed_items(list: Seq<Seq<u8>>) -> Seq<u8>
    decreases list.len(),
{
    if list.len() == 0 {
        Seq::empty()
    } else {
        packed_bytes(list[0]) + packed_items(list.drop_first())
    }
}

/// A list of byte strings as it is packed: its length, then its items.
pub open spec fn packed_list(list: Seq<Seq<u8>>) -> Seq<u8> {
    le_bytes(list.len(), 8) + packed_items(list)
}

/// A single 16-bit number in a list of its own, as it is packed.
pub open spec fn packed_short(x: u16) -> Seq<u8> {
    le_bytes(1, 8) + le_bytes(x as nat, 2)
}

/// `a` is how `b` begins.
pub open spec fn begins(a: Seq<u8>, b: Seq<u8>) -> bool {
    a.len() <= b.len() && b.subrange(0, a.len() as int) == a
}

/// The rows of a table.
pub open spec fn rows<T>(list: Seq<Vec<T>>) -> Seq<Seq<T>> {
    Seq::new(list.len(), |i: int| list[i]@)
}

/// `bincode::serialize` on a list of byte strings. It writes the length of the
/// list and, for each item, its length and its bytes; it cannot fail, because
/// no limit is set.
#[verifier::external_body]
pub(crate) fn pack_list(list: &Vec<Vec<u8>>) -> (r: Vec<u8>)
    ensures
        r@ == packed_list(rows(list@)),
{
    bincode::serialize(list).unwrap()
}

/// `bincode::serialize` on a byte string.
#[verifier::external_body]
pub(crate) fn pack_bytes(b: &Vec<u8>) -> (r: Vec<u8>)
    ensures
        r@ == packed_bytes(b@),
{
    bincode::serialize(b).unwrap()
}

/// `bincode::serialize` on a list that holds one 16-bit number.
#[verifier::external_body]
pub(crate) fn pack_short(x: u16) -> (r: Vec<u8>)
    ensures
        r@ == packed_short(x),
{
    bincode::serialize(&vec![x]).unwrap()
}

/// `bincode::deserialize` to a list of byte strings. What it returns is the
/// list whose packed form `m` begins with; bytes after that are let be. It
/// fails where `m` begins with no list's packed form.
#[verifier::external_body]
pub(crate) fn unpack_list(m: &Vec<u8>) -> (r: Option<Vec<Vec<u8>>>)
    ensures
        r matches Some(list) ==> begins(packed_list(rows(list@)), m@),
        r is None ==> forall|list: Seq<Seq<u8>>| !begins(#[trigger] packed_list(list), m@),
{
    bincode::deserialize(m).ok()
}

/// The list that `m` begins with, if it begins with one.
pub open spec fn unpacked(m: Seq<u8>) -> Option<Seq<Seq<u8>>> {
    if exists|list: Seq<Seq<u8>>| begins(#[trigger] packed_list(list), m) {
        Some(choose|list: Seq<Seq<u8>>| begins(#[trigger] packed_list(list), m))
    } else {
        None
    }
}

proof fn lemma_begins_split(len_bytes: Seq<u8>, tail: Seq<u8>, m: Seq<u8>)
    requires
        len_bytes.len() == 8,
        begins(len_bytes + tail, m),
    ensures
        m.len() >= 8,
        m.subrange(0, 8) == len_bytes,
        begins(tail, m.subrange(8, m.len() as int)),
{
    let whole = len_bytes + tail;
    assert(m.subrange(0, whole.len() as int) == whole);
    assert forall|i: int| 0 <= i < whole.len() implies m[i] == whole[i] by {
        assert(m.subrange(0, whole.len() as int)[i] == whole[i]);
    }
    assert(m.subrange(0, 8) =~= len_bytes);
    let rest = m.subrange(8, m.len() as int);
    assert(rest.subrange(0, tail.len() as int) =~= tail) by {
        assert forall|i: int| 0 <= i < tail.len() implies rest[i] == tail[i] by {
            assert(whole[8 + i] == tail[i]);
        }
    }
}

/// Two counts with the same eight bytes are the same count.
proof fn lemma_count_from_bytes(a: nat, b: nat)
    requires
        a <= u64::MAX,
        b <= u64::MAX,
        le_bytes(a, 8) == le_bytes(b, 8),
    ensures
        a == b,
{
    lemma_pow256_values();
    le_round_trip(a, 8);
    le_round_trip(b, 8);
}

proof fn lemma_packed_items_len(list: Seq<Seq<u8>>)
    ensures
        packed_items(list).len() >= 8 * list.len(),
    decreases list.len(),
{
    if list.len() > 0 {
        lemma_le_bytes_len(list[0].len(), 8);
        lemma_packed_items_len(list.drop_first());
    }
}

proof fn lemma_items_unique(a: Seq<Seq<u8>>, b: Seq<Seq<u8>>, m: Seq<u8>)
    requires
        m.len() <= u64::MAX,
        a.len() == b.len(),
        begins(packed_items(a), m),
        begins(packed_items(b), m),
    ensures
        a == b,
    decreases a.len(),
{
    if a.len() == 0 {
        assert(a =~= b);
    } else {
        lemma_le_bytes_len(a[0].len(), 8);
        lemma_le_bytes_len(b[0].len(), 8);
        let ta = packed_items(a.drop_first());
        let tb = packed_items(b.drop_first());
        assert(packed_items(a) =~= le_bytes(a[0].len(), 8) + (a[0] + ta));
        assert(packed_items(b) =~= le_bytes(b[0].len(), 8) + (b[0] + tb));
        lemma_begins_split(le_bytes(a[0].len(), 8), a[0] + ta, m);
        lemma_begins_split(le_bytes(b[0].len(), 8), b[0] + tb, m);
        lemma_count_from_bytes(a[0].len(), b[0].len());
        let rest = m.subrange(8, m.len() as int);
        let n = a[0].len() as int;
        assert(rest.subrange(0, n) =~= a[0]) by {
            assert(rest.subrange(0, (a[0] + ta).len() as int) == a[0] + ta);
            assert forall|i: int| 0 <= i < n implies rest[i] == a[0][i] by {
                assert(rest.subrange(0, (a[0] + ta).len() as int)[i] == (a[0] + ta)[i]);
            }
        }
        assert(rest.subrange(0, n) =~= b[0]) by {
            assert(rest.subrange(0, (b[0] + tb).len() as int) == b[0] + tb);
            assert forall|i: int| 0 <= i < n implies rest[i] == b[0][i] by {
                assert(rest.subrange(0, (b[0] + tb).len() as int)[i] == (b[0] + tb)[i]);
            }
        }
        let next = rest.subrange(n, rest.len() as int);
        assert(next.subrange(0, ta.len() as int) =~= ta) by {
            assert forall|i: int| 0 <= i < ta.len() implies next[i] == ta[i] by {
                assert(rest.subrange(0, (a[0] + ta).len() as int)[n + i] == (a[0] + ta)[n + i]);
            }
        }
        assert(next.subrange(0, tb.len() as int) =~= tb) by {
            assert forall|i: int| 0 <= i < tb.len() implies next[i] == tb[i] by {
                assert(rest.subrange(0, (b[0] + tb).len() as int)[n + i] == (b[0] + tb)[n + i]);
            }
        }
        lemma_items_unique(a.drop_first(), b.drop_first(), next);
        assert(a =~= seq![a[0]] + a.drop_first());
        assert(b =~= seq![b[0]] + b.drop_first());
    }
}

/// A message begins with the packed form of at most one list.
pub proof fn packed_list_is_unique(a: Seq<Seq<u8>>, b: Seq<Seq<u8>>, m: Seq<u8>)
    requires
        m.len() <= u64::MAX,
        begins(packed_list(a), m),
        begins(packed_list(b), m),
    ensures
        a == b,
{
    lemma_le_bytes_len(a.len(), 8);
    lemma_le_bytes_len(b.len(), 8);
    lemma_begins_split(le_bytes(a.len(), 8), packed_items(a), m);
    lemma_begins_split(le_bytes(b.len(), 8), packed_items(b), m);
    lemma_packed_items_len(a);
    lemma_packed_items_len(b);
    lemma_count_from_bytes(a.len(), b.len());
    lemma_items_unique(a, b, m.subrange(8, m.len() as int));
}

/// What was packed is what is unpacked, whatever bytes follow it.
pub proof fn unpacking_undoes_packing(list: Seq<Seq<u8>>, tail: Seq<u8>)
    requires
        (packed_list(list) + tail).len() <= u64::MAX,
    ensures
        unpacked(packed_list(list) + tail) == Some(list),
{
    let m = packed_list(list) + tail;
    assert(m.subrange(0, packed_list(list).len() as int) =~= packed_list(list));
    assert(begins(packed_list(list), m));
    let found = choose|l: Seq<Seq<u8>>| begins(#[trigger] packed_list(l), m);
    packed_list_is_unique(found, list, m);
}

/// Unpacks the list of byte strings that `m` begins with.
pub fn read_list(m: &Vec<u8>) -> (r: Option<Vec<Vec<u8>>>)
    ensures
        r is Some <==> unpacked(m@) is Some,
        r matches Some(list) ==> unpacked(m@) == Some(rows(list@)),
{
    let found: Option<Vec<Vec<u8>>> = unpack_list(m);
    let length: usize = m.len();
    proof {
        if let Some(list) = &found {
            let l = rows(list@);
            assert(begins(packed_list(l), m@));
            let c = choose|c: Seq<Seq<u8>>| begins(#[trigger] packed_list(c), m@);
            assert(length as nat == m@.len());
            packed_list_is_unique(l, c, m@);
        }
    }
    found
}

/// A list is packed as its length in eight bytes and then item by item: each
/// item as its own length in eight bytes and its bytes.
pub proof fn lists_are_packed_item_by_item(first: Seq<u8>, rest: Seq<Seq<u8>>)
    requires
        first.len() <= u64::MAX,
        rest.len() < u64::MAX,
    ensures
        packed_items(Seq::empty()) == Seq::<u8>::empty(),
        packed_items(seq![first] + rest) == packed_bytes(first) + packed_items(rest),
        packed_bytes(first).len() == 8 + first.len(),
        crate::bytes::le_nat(packed_bytes(first).subrange(0, 8)) == first.len(),
        packed_bytes(first).subrange(8, 8 + first.len() as int) == first,
        crate::bytes::le_nat(packed_list(rest).subrange(0, 8)) == rest.len(),
        packed_list(rest).subrange(8, packed_list(rest).len() as int) == packed_items(rest),
{
    lemma_pow256_values();
    le_round_trip(first.len(), 8);
    le_round_trip(rest.len(), 8);
    assert((seq![first] + rest).drop_first() =~= rest);
    assert(packed_bytes(first).subrange(0, 8) =~= le_bytes(first.len(), 8));
    assert(packed_bytes(first).subrange(8, 8 + first.len() as int) =~= first);
    assert(packed_list(rest).subrange(0, 8) =~= le_bytes(rest.len(), 8));
    assert(packed_list(rest).subrange(8, packed_list(rest).len() as int) =~= packed_items(rest));
}

/// A single 16-bit number is packed as a list of one item.
pub proof fn short_numbers_are_packed_as_lists(x: u16)
    ensures
        packed_short(x).len() == 10,
        crate::bytes::le_nat(packed_short(x).subrange(0, 8)) == 1,
        crate::bytes::le_nat(packed_short(x).subrange(8, 10)) == x,
{
    lemma_pow256_values();
    le_round_trip(1, 8);
    le_round_trip(x as nat, 2);
    assert(packed_short(x).subrange(0, 8) =~= le_bytes(1, 8));
    assert(packed_short(x).subrange(8, 10) =~= le_bytes(x as nat, 2));
}

} // verus!
