//! Rings: which members of a ring are the spender's own, and which are known.

use crate::keys::{same_key, Key};
use vstd::prelude::*;

verus! {

/// Finds the first place in `own` at which `key` stands.
pub fn find_own(own: &Vec<Key>, key: &Key) -> (r: Option<usize>)
    ensures
        r is Some <==> own@.contains(*key),
        r matches Some(i) ==> i < own@.len() && own@[i as int] == *key && forall|j: int|
            0 <= j < i ==> own@[j] != *key,
{
    let mut i: usize = 0;
    while i < own.len()
        invariant
            i <= own@.len(),
            forall|j: int| 0 <= j < i ==> own@[j] != *key,
        decreases own@.len() - i,
    {
        if same_key(&own[i], key) {
            return Some(i);
        }
        i = i + 1;
    }
    None
}

/// Entry `i` says which of the own accounts stands for the member `members[i]`
/// of a ring: the first one with its key, or none if the member is a stranger.
pub open spec fn substitutes(members: Seq<Key>, own: Seq<Key>, r: Seq<Option<usize>>) -> bool {
    &&& r.len() == members.len()
    &&& forall|i: int|
        0 <= i < members.len() ==> match #[trigger] r[i] {
            Some(k) => k < own.len() && own[k as int] == members[i] && forall|j: int|
                0 <= j < k ==> own[j] != members[i],
            None => !own.contains(members[i]),
        }
}

/// Says for each member of a ring which own account stands for it.
pub fn substitute_own(members: &Vec<Key>, own: &Vec<Key>) -> (r: Vec<Option<usize>>)
    ensures
        substitutes(members@, own@, r@),
{
    let mut out: Vec<Option<usize>> = Vec::new();
    let mut i: usize = 0;
    while i < members.len()
        invariant
            i <= members@.len(),
            substitutes(members@.subrange(0, i as int), own@, out@),
        decreases members@.len() - i,
    {
        let ghost before = out@;
        out.push(find_own(own, &members[i]));
        proof {
            let part = members@.subrange(0, i + 1);
            assert forall|k: int| 0 <= k < part.len() implies match #[trigger] out@[k] {
                Some(x) => x < own@.len() && own@[x as int] == part[k] && forall|j: int|
                    0 <= j < x ==> own@[j] != part[k],
                None => !own@.contains(part[k]),
            } by {
                if k < i {
                    assert(out@[k] == before[k]);
                    assert(members@.subrange(0, i as int)[k] == part[k]);
                }
            }
        }
        i = i + 1;
    }
    assert(members@.subrange(0, i as int) =~= members@);
    out
}

/// Whether `place` is among `places`.
pub fn has_place(places: &Vec<u64>, place: u64) -> (r: bool)
    ensures
        r == places@.contains(place),
{
    let mut i: usize = 0;
    while i < places.len()
        invariant
            i <= places@.len(),
            forall|j: int| 0 <= j < i ==> places@[j] != place,
        decreases places@.len() - i,
    {
        if places[i] == place {
            assert(places@[i as int] == place);
            return true;
        }
        i = i + 1;
    }
    false
}

/// Every member of the ring is at one of `places`.
pub open spec fn all_among(ring: Seq<u64>, places: Seq<u64>) -> bool {
    forall|i: int| 0 <= i < ring.len() ==> places.contains(#[trigger] ring[i])
}

/// Whether every member of the ring is at one of `places`. A panic spends
/// with a ring of the node's own accounts, and a user can spend once all
/// members of a ring are known.
pub fn is_all_among(ring: &Vec<u64>, places: &Vec<u64>) -> (r: bool)
    ensures
        r == all_among(ring@, places@),
{
    let mut i: usize = 0;
    while i < ring.len()
        invariant
            i <= ring@.len(),
            forall|j: int| 0 <= j < i ==> places@.contains(#[trigger] ring@[j]),
        decreases ring@.len() - i,
    {
        if !has_place(places, ring[i]) {
            assert(!places@.contains(ring@[i as int]));
            return false;
        }
        i = i + 1;
    }
    true
}

/// For each member of a ring of own accounts, the first own account at its
/// place.
pub fn own_members(ring: &Vec<u64>, own: &Vec<u64>) -> (r: Vec<usize>)
    requires
        all_among(ring@, own@),
    ensures
        r@.len() == ring@.len(),
        forall|i: int|
            0 <= i < ring@.len() ==> #[trigger] r@[i] < own@.len() && own@[r@[i] as int]
                == ring@[i] && forall|j: int| 0 <= j < r@[i] ==> own@[j] != ring@[i],
{
    let mut out: Vec<usize> = Vec::new();
    let mut i: usize = 0;
    while i < ring.len()
        invariant
            i <= ring@.len(),
            all_among(ring@, own@),
            out@.len() == i,
            forall|k: int|
                0 <= k < i ==> #[trigger] out@[k] < own@.len() && own@[out@[k] as int] == ring@[k]
                    && forall|j: int| 0 <= j < out@[k] ==> own@[j] != ring@[k],
        decreases ring@.len() - i,
    {
        let place: u64 = ring[i];
        let mut k: usize = 0;
        assert(own@.contains(ring@[i as int]));
        while k < own.len() && own[k] != place
            invariant
                k <= own@.len(),
                own@.contains(place),
                forall|j: int| 0 <= j < k ==> own@[j] != place,
            ensures
                k < own@.len(),
                own@[k as int] == place,
                forall|j: int| 0 <= j < k ==> own@[j] != place,
            decreases own@.len() - k,
        {
            k = k + 1;
        }
        out.push(k);
        i = i + 1;
    }
    out
}

/// How many members a ring is to have: the own accounts, counted in 16 bits,
/// and `extra` strangers. There is no such ring where the sum takes more bits.
pub fn ring_total(own: usize, extra: u8) -> (r: Option<u16>)
    ensures
        own <= 65_535 ==> (r is Some <==> own + extra <= 65_535),
        own <= 65_535 && r is Some ==> r->0 == own + extra,
        r == (if own as u16 + extra <= u16::MAX {
            Some((own as u16 + extra) as u16)
        } else {
            None
        }),
{
    let counted: u16 = own as u16;
    if counted > u16::MAX - extra as u16 {
        None
    } else {
        Some(counted + extra as u16)
    }
}

/// The positions below `count` whose place is not among the own ones.
pub open spec fn strangers(places: Seq<u64>, own: Seq<u64>, count: nat) -> Seq<usize>
    decreases count,
{
    if count == 0 {
        Seq::empty()
    } else {
        let before = strangers(places, own, (count - 1) as nat);
        if own.contains(places[count - 1]) {
            before
        } else {
            before.push((count - 1) as usize)
        }
    }
}

/// The members that an answer to a ring question brings.
pub struct RingReply {
    /// the positions in the ring of the members that were brought
    pub fresh: Vec<usize>,
    /// all places whose accounts are known now
    pub known: Vec<u64>,
    /// whether all members of the ring are known now
    pub complete: bool,
}

/// Takes an answer to a ring question, which holds `answered` accounts, the
/// first for the first place of the ring and so on. Accounts that are the
/// user's own are passed over, the others are known from now on.
pub fn take_ring_reply(
    answered: usize,
    ring: &Vec<u64>,
    own: &Vec<u64>,
    known: &Vec<u64>,
) -> (r: RingReply)
    ensures
        ({
            let count = if answered <= ring@.len() {
                answered as nat
            } else {
                ring@.len()
            };
            let fresh = strangers(ring@, own@, count);
            &&& r.fresh@ == fresh
            &&& r.known@ == known@ + Seq::new(fresh.len(), |i: int| ring@[fresh[i] as int])
            &&& r.complete == all_among(ring@, r.known@)
        }),
{
    let count: usize = if answered <= ring.len() {
        answered
    } else {
        ring.len()
    };
    let mut fresh: Vec<usize> = Vec::new();
    let mut now: Vec<u64> = Vec::new();
    let mut k: usize = 0;
    while k < known.len()
        invariant
            k <= known@.len(),
            now@ == known@.subrange(0, k as int),
        decreases known@.len() - k,
    {
        now.push(known[k]);
        assert(now@ =~= known@.subrange(0, k + 1));
        k = k + 1;
    }
    let mut i: usize = 0;
    proof {
        assert(now@ =~= known@ + Seq::new(0, |i: int| ring@[fresh@[i] as int]));
    }
    while i < count
        invariant
            i <= count <= ring@.len(),
            fresh@ == strangers(ring@, own@, i as nat),
            now@ == known@ + Seq::new(fresh@.len(), |i: int| ring@[fresh@[i] as int]),
        decreases count - i,
    {
        let ghost before = fresh@;
        let ghost known_before = now@;
        if !has_place(own, ring[i]) {
            fresh.push(i);
            now.push(ring[i]);
            proof {
                assert(fresh@ =~= before.push(i));
                assert(now@ =~= known@ + Seq::new(fresh@.len(), |i: int| ring@[fresh@[i] as int]));
            }
        }
        i = i + 1;
    }
    let complete: bool = is_all_among(ring, &now);
    RingReply { fresh, known: now, complete }
}

proof fn lemma_strangers(places: Seq<u64>, own: Seq<u64>, count: nat, i: int)
    requires
        count <= places.len(),
        places.len() <= usize::MAX,
        0 <= i < count,
        !own.contains(places[i]),
    ensures
        strangers(places, own, count).contains(i as usize),
    decreases count,
{
    let before = strangers(places, own, (count - 1) as nat);
    let all = strangers(places, own, count);
    if i < count - 1 {
        lemma_strangers(places, own, (count - 1) as nat, i);
        let k = choose|k: int| 0 <= k < before.len() && before[k] == i as usize;
        assert(all[k] == i as usize);
    } else {
        assert(all[before.len() as int] == i as usize);
    }
}

/// An answer that covers the whole ring completes it: whoever knows the own
/// accounts then knows all members.
pub proof fn full_answers_complete_the_ring(ring: Seq<u64>, own: Seq<u64>, known: Seq<u64>)
    requires
        ring.len() <= usize::MAX,
        all_among(own, known),
    ensures
        ({
            let fresh = strangers(ring, own, ring.len());
            all_among(ring, known + Seq::new(fresh.len(), |i: int| ring[fresh[i] as int]))
        }),
{
    let fresh = strangers(ring, own, ring.len());
    let now = known + Seq::new(fresh.len(), |i: int| ring[fresh[i] as int]);
    assert forall|i: int| 0 <= i < ring.len() implies now.contains(#[trigger] ring[i]) by {
        if own.contains(ring[i]) {
            let k = choose|k: int| 0 <= k < own.len() && own[k] == ring[i];
            assert(known.contains(own[k]));
            let j = choose|j: int| 0 <= j < known.len() && known[j] == ring[i];
            assert(now[j] == ring[i]);
        } else {
            lemma_strangers(ring, own, ring.len(), i);
            let k = choose|k: int| 0 <= k < fresh.len() && fresh[k] == i as usize;
            assert(now[known.len() + k] == ring[i]);
        }
    }
}

/// The members that an answer brings are those it covers that are not the
/// user's own, each once and in the order of the ring.
pub proof fn answers_bring_the_strangers_they_cover(
    ring: Seq<u64>,
    own: Seq<u64>,
    count: nat,
    i: int,
)
    requires
        count <= ring.len() <= usize::MAX,
    ensures
        0 <= i < count && !own.contains(ring[i]) ==> strangers(ring, own, count).contains(
            i as usize,
        ),
        forall|k: int|
            0 <= k < strangers(ring, own, count).len() ==> (#[trigger] strangers(
                ring,
                own,
                count,
            )[k]) < count && !own.contains(ring[strangers(ring, own, count)[k] as int]),
        forall|k: int, l: int|
            0 <= k < l < strangers(ring, own, count).len() ==> strangers(ring, own, count)[k]
                < strangers(ring, own, count)[l],
    decreases count,
{
    if 0 <= i < count && !own.contains(ring[i]) {
        lemma_strangers(ring, own, count, i);
    }
    if count > 0 {
        answers_bring_the_strangers_they_cover(ring, own, (count - 1) as nat, i);
        let before = strangers(ring, own, (count - 1) as nat);
        let all = strangers(ring, own, count);
        assert forall|k: int| 0 <= k < all.len() implies (#[trigger] all[k]) < count
            && !own.contains(ring[all[k] as int]) by {
            if k < before.len() {
                assert(all[k] == before[k]);
            }
        }
        assert forall|k: int, l: int| 0 <= k < l < all.len() implies all[k] < all[l] by {
            assert(all[k] == before[k]);
            if l < before.len() {
                assert(all[l] == before[l]);
            }
        }
    }
}

/// A ring is known once each of its members is at one of the known places, and
/// one that is missing is enough to keep it unknown.
pub proof fn one_missing_member_is_enough(ring: Seq<u64>, places: Seq<u64>, i: int)
    requires
        0 <= i < ring.len(),
    ensures
        !places.contains(ring[i]) ==> !all_among(ring, places),
        (forall|j: int| 0 <= j < ring.len() ==> places.contains(#[trigger] ring[j])) ==> all_among(
            ring,
            places,
        ),
{
}

/// An own account stands for a member of a ring exactly if it has the member's
/// key and no earlier one has it.
pub proof fn own_accounts_stand_for_themselves(
    members: Seq<Key>,
    own: Seq<Key>,
    r: Seq<Option<usize>>,
    i: int,
)
    requires
        substitutes(members, own, r),
        0 <= i < members.len(),
    ensures
        r.len() == members.len(),
        r[i] is Some <==> own.contains(members[i]),
        r[i] matches Some(k) ==> k < own.len() && own[k as int] == members[i] && !own.subrange(
            0,
            k as int,
        ).contains(members[i]),
{
    if let Some(k) = r[i] {
        assert(own.contains(own[k as int]));
        let before = own.subrange(0, k as int);
        if before.contains(members[i]) {
            let j = choose|j: int| 0 <= j < before.len() && before[j] == members[i];
            assert(own[j] == members[i]);
        }
    }
}

} // verus!
