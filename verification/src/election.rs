//! Votes and leaders.

use crate::keys::{Key, KeySet};
use vstd::prelude::*;

verus! {

/// What a candidate is worth: the votes, or less than any vote if barred.
pub open spec fn score(votes: Seq<i32>, barred: Seq<bool>, i: int) -> int {
    if barred[i] {
        i32::MIN as int
    } else {
        votes[i] as int
    }
}

/// Of the first `n` candidates, `w` is the last among those with the highest
/// score.
pub open spec fn is_winner(votes: Seq<i32>, barred: Seq<bool>, n: int, w: int) -> bool {
    &&& 0 <= w < n
    &&& forall|i: int|
        0 <= i < n ==> #[trigger] score(votes, barred, i) <= score(votes, barred, w)
    &&& forall|i: int| w < i < n ==> #[trigger] score(votes, barred, i) < score(votes, barred, w)
}

/// The smaller of two lengths.
pub open spec fn shorter(a: nat, b: nat) -> int {
    if a <= b {
        a as int
    } else {
        b as int
    }
}

/// Who may not lead: members that are about to leave, and those whose key was
/// overthrown.
pub open spec fn barred_members(
    members: Seq<usize>,
    stakers: Seq<(Key, u64)>,
    leaving: Set<usize>,
    overthrown: Set<Key>,
) -> Seq<bool> {
    Seq::new(
        members.len(),
        |i: int| leaving.contains(members[i]) || overthrown.contains(stakers[members[i] as int].0),
    )
}

/// The key that leads: that of the winner among the members who have a vote
/// count.
pub open spec fn leading_key(
    members: Seq<usize>,
    votes: Seq<i32>,
    stakers: Seq<(Key, u64)>,
    leaving: Set<usize>,
    overthrown: Set<Key>,
) -> Key {
    let barred = barred_members(members, stakers, leaving, overthrown);
    let n = shorter(members.len(), votes.len());
    let w = choose|w: int| is_winner(votes, barred, n, w);
    stakers[members[w] as int].0
}

/// There is never more than one winner.
pub proof fn winner_is_unique(votes: Seq<i32>, barred: Seq<bool>, n: int, a: int, b: int)
    requires
        is_winner(votes, barred, n, a),
        is_winner(votes, barred, n, b),
    ensures
        a == b,
{
    assert(score(votes, barred, a) <= score(votes, barred, b));
    assert(score(votes, barred, b) <= score(votes, barred, a));
}

/// Wherever there is a candidate there is a winner.
pub proof fn winner_exists(votes: Seq<i32>, barred: Seq<bool>, n: int) -> (w: int)
    requires
        0 < n,
    ensures
        is_winner(votes, barred, n, w),
    decreases n,
{
    if n == 1 {
        assert(is_winner(votes, barred, n, 0));
        0
    } else {
        let v = winner_exists(votes, barred, n - 1);
        if score(votes, barred, n - 1) >= score(votes, barred, v) {
            assert(is_winner(votes, barred, n, n - 1));
            n - 1
        } else {
            assert(is_winner(votes, barred, n, v));
            v
        }
    }
}

/// As long as some candidate with a vote count above the lowest possible one
/// is not barred, the leader is a member that is neither about to leave nor
/// overthrown, and no such member has more votes.
pub proof fn leader_is_fit(
    members: Seq<usize>,
    votes: Seq<i32>,
    stakers: Seq<(Key, u64)>,
    leaving: Set<usize>,
    overthrown: Set<Key>,
    fit: int,
)
    requires
        0 <= fit < shorter(members.len(), votes.len()),
        !leaving.contains(members[fit]),
        !overthrown.contains(stakers[members[fit] as int].0),
        votes[fit] > i32::MIN,
    ensures
        exists|w: int|
            {
                &&& 0 <= w < shorter(members.len(), votes.len())
                &&& leading_key(members, votes, stakers, leaving, overthrown)
                    == stakers[#[trigger] members[w] as int].0
                &&& !leaving.contains(members[w])
                &&& votes[fit] <= votes[w]
            },
        !overthrown.contains(leading_key(members, votes, stakers, leaving, overthrown)),
{
    let barred = barred_members(members, stakers, leaving, overthrown);
    let n = shorter(members.len(), votes.len());
    let found = winner_exists(votes, barred, n);
    let w = choose|w: int| is_winner(votes, barred, n, w);
    assert(is_winner(votes, barred, n, w));
    assert(!barred[fit]);
    assert(score(votes, barred, fit) <= score(votes, barred, w));
    assert(!barred[w]);
    assert(leading_key(members, votes, stakers, leaving, overthrown) == stakers[members[w] as int].0);
}

/// Whether `x` occurs in `v`.
pub fn holds(v: &Vec<usize>, x: usize) -> (r: bool)
    ensures
        r == v@.contains(x),
{
    let mut i: usize = 0;
    while i < v.len()
        invariant
            i <= v@.len(),
            forall|j: int| 0 <= j < i ==> v@[j] != x,
        decreases v@.len() - i,
    {
        if v[i] == x {
            assert(v@[i as int] == x);
            return true;
        }
        i = i + 1;
    }
    false
}

/// Finds the winner among the first `n` candidates.
pub fn winner(votes: &Vec<i32>, barred: &Vec<bool>, n: usize) -> (w: usize)
    requires
        0 < n <= votes@.len(),
        n <= barred@.len(),
    ensures
        is_winner(votes@, barred@, n as int, w as int),
{
    let mut best: usize = 0;
    let mut best_score: i32 = if barred[0] {
        i32::MIN
    } else {
        votes[0]
    };
    let mut i: usize = 1;
    while i < n
        invariant
            1 <= i <= n,
            n <= votes@.len(),
            n <= barred@.len(),
            is_winner(votes@, barred@, i as int, best as int),
            best_score == score(votes@, barred@, best as int),
        decreases n - i,
    {
        let here: i32 = if barred[i] {
            i32::MIN
        } else {
            votes[i]
        };
        assert(here == score(votes@, barred@, i as int));
        if here >= best_score {
            best = i;
            best_score = here;
        }
        i = i + 1;
    }
    best
}

/// Chooses the leader of a committee by votes. Members that are about to
/// leave and keys that were overthrown come last.
pub fn choose_leader(
    members: &Vec<usize>,
    votes: &Vec<i32>,
    stakers: &Vec<(Key, u64)>,
    leaving: &Vec<usize>,
    overthrown: &KeySet,
) -> (r: Key)
    requires
        members@.len() > 0,
        votes@.len() > 0,
        forall|i: int|
            0 <= i < shorter(members@.len(), votes@.len()) ==> #[trigger] members@[i]
                < stakers@.len(),
    ensures
        r == leading_key(members@, votes@, stakers@, leaving@.to_set(), overthrown@),
{
    let n: usize = if members.len() <= votes.len() {
        members.len()
    } else {
        votes.len()
    };
    let mut barred: Vec<bool> = Vec::new();
    let ghost all = barred_members(members@, stakers@, leaving@.to_set(), overthrown@);
    let mut i: usize = 0;
    while i < n
        invariant
            i <= n,
            n == shorter(members@.len(), votes@.len()),
            barred@.len() == i,
            forall|j: int| 0 <= j < n ==> #[trigger] members@[j] < stakers@.len(),
            all == barred_members(members@, stakers@, leaving@.to_set(), overthrown@),
            forall|j: int| 0 <= j < i ==> barred@[j] == all[j],
        decreases n - i,
    {
        let m: usize = members[i];
        let out: bool = holds(leaving, m) || overthrown.contains(&stakers[m].0);
        proof {
            assert(leaving@.to_set().contains(m) == leaving@.contains(m));
        }
        barred.push(out);
        i = i + 1;
    }
    let w: usize = winner(votes, &barred, n);
    proof {
        assert forall|j: int| 0 <= j < n implies score(votes@, barred@, j) == #[trigger] score(
            votes@,
            all,
            j,
        ) by {
            assert(barred@[j] == all[j]);
        }
        assert forall|j: int| 0 <= j < n implies #[trigger] score(votes@, all, j) <= score(
            votes@,
            all,
            w as int,
        ) by {
            assert(score(votes@, barred@, j) <= score(votes@, barred@, w as int));
        }
        assert forall|j: int| w < j < n implies #[trigger] score(votes@, all, j) < score(
            votes@,
            all,
            w as int,
        ) by {
            assert(score(votes@, barred@, j) < score(votes@, barred@, w as int));
        }
        assert(is_winner(votes@, all, n as int, w as int));
        let c = choose|c: int| is_winner(votes@, all, n as int, c);
        winner_is_unique(votes@, all, n as int, w as int, c);
    }
    stakers[members[w]].0
}

/// How often `member` is among the signers.
pub open spec fn signatures_of(signers: Seq<u64>, member: usize) -> nat
    decreases signers.len(),
{
    if signers.len() == 0 {
        0
    } else {
        signatures_of(signers.drop_last(), member) + (if signers.last() == member as u64 {
            1nat
        } else {
            0
        })
    }
}

/// Counts how often `member` is among the signers.
pub fn count_signatures(signers: &Vec<u64>, member: usize) -> (r: usize)
    ensures
        r == signatures_of(signers@, member),
        r <= signers@.len(),
{
    let mut count: usize = 0;
    let mut i: usize = 0;
    while i < signers.len()
        invariant
            i <= signers@.len(),
            count == signatures_of(signers@.subrange(0, i as int), member),
            count <= i,
        decreases signers@.len() - i,
    {
        proof {
            assert(signers@.subrange(0, i + 1).drop_last() =~= signers@.subrange(0, i as int));
        }
        if signers[i] == member as u64 {
            count = count + 1;
        }
        i = i + 1;
    }
    assert(signers@.subrange(0, i as int) =~= signers@);
    count
}

/// The vote counts after a block that `signers` signed: each seat that has a
/// count gains the signatures of the member who sits there.
pub open spec fn tallied(votes: Seq<i32>, members: Seq<usize>, signers: Seq<u64>) -> Seq<int> {
    Seq::new(
        shorter(votes.len(), members.len()) as nat,
        |i: int| votes[i] + signatures_of(signers, members[i]),
    )
}

/// Adds the signatures under a block to the vote counts.
pub fn tally(votes: &Vec<i32>, members: &Vec<usize>, signers: &Vec<u64>) -> (r: Vec<i32>)
    requires
        signers@.len() <= i32::MAX,
        forall|i: int|
            0 <= i < tallied(votes@, members@, signers@).len() ==> #[trigger] tallied(
                votes@,
                members@,
                signers@,
            )[i] <= i32::MAX,
    ensures
        r@.len() == shorter(votes@.len(), members@.len()),
        forall|i: int|
            0 <= i < r@.len() ==> #[trigger] r@[i] as int == tallied(
                votes@,
                members@,
                signers@,
            )[i],
{
    let n: usize = if votes.len() <= members.len() {
        votes.len()
    } else {
        members.len()
    };
    let mut out: Vec<i32> = Vec::new();
    let mut i: usize = 0;
    while i < n
        invariant
            i <= n,
            n == shorter(votes@.len(), members@.len()),
            signers@.len() <= i32::MAX,
            out@.len() == i,
            forall|j: int|
                0 <= j < n ==> #[trigger] tallied(votes@, members@, signers@)[j] <= i32::MAX,
            forall|j: int|
                0 <= j < i ==> #[trigger] out@[j] as int == tallied(votes@, members@, signers@)[j],
        decreases n - i,
    {
        let extra: usize = count_signatures(signers, members[i]);
        assert(tallied(votes@, members@, signers@)[i as int] == votes@[i as int] + extra);
        out.push(votes[i] + extra as i32);
        i = i + 1;
    }
    out
}

/// Who leads: of all members with a vote count who are neither about to leave
/// nor overthrown, the leader is one with the most votes, and of several with
/// the most votes the last. Where someone like that has more than the lowest
/// possible count, nobody else leads.
pub proof fn the_best_who_may_lead_leads(
    members: Seq<usize>,
    votes: Seq<i32>,
    stakers: Seq<(Key, u64)>,
    leaving: Set<usize>,
    overthrown: Set<Key>,
    fit: int,
) -> (w: int)
    requires
        0 <= fit < members.len() && fit < votes.len(),
        !leaving.contains(members[fit]),
        !overthrown.contains(stakers[members[fit] as int].0),
        votes[fit] > i32::MIN,
    ensures
        0 <= w < members.len() && w < votes.len(),
        leading_key(members, votes, stakers, leaving, overthrown) == stakers[members[w] as int].0,
        !leaving.contains(members[w]),
        !overthrown.contains(stakers[members[w] as int].0),
        forall|i: int|
            #![trigger members[i]]
            0 <= i < members.len() && i < votes.len() && !leaving.contains(members[i])
                && !overthrown.contains(stakers[members[i] as int].0) ==> votes[i] <= votes[w] && (i
                > w ==> votes[i] < votes[w]),
{
    let barred = barred_members(members, stakers, leaving, overthrown);
    let n = shorter(members.len(), votes.len());
    let found = winner_exists(votes, barred, n);
    let w = choose|w: int| is_winner(votes, barred, n, w);
    assert(is_winner(votes, barred, n, w));
    assert(score(votes, barred, fit) <= score(votes, barred, w));
    assert(!barred[fit]);
    assert(!barred[w]);
    assert forall|i: int|
        #![trigger members[i]]
        0 <= i < members.len() && i < votes.len() && !leaving.contains(members[i])
            && !overthrown.contains(stakers[members[i] as int].0) implies votes[i] <= votes[w] && (i
        > w ==> votes[i] < votes[w]) by {
        assert(!barred[i]);
        assert(score(votes, barred, i) <= score(votes, barred, w));
        if i > w {
            assert(score(votes, barred, i) < score(votes, barred, w));
        }
    }
    w
}

/// Where nobody may lead, the last member with a vote count does.
pub proof fn where_nobody_may_lead_the_last_does(
    members: Seq<usize>,
    votes: Seq<i32>,
    stakers: Seq<(Key, u64)>,
    leaving: Set<usize>,
    overthrown: Set<Key>,
    last: int,
)
    requires
        members.len() > 0 && votes.len() > 0,
        last + 1 == members.len() && last < votes.len() || last + 1 == votes.len() && last
            < members.len(),
        forall|i: int|
            #![trigger members[i]]
            0 <= i <= last ==> leaving.contains(members[i]) || overthrown.contains(
                stakers[members[i] as int].0,
            ),
    ensures
        leading_key(members, votes, stakers, leaving, overthrown) == stakers[members[last] as int].0,
{
    let barred = barred_members(members, stakers, leaving, overthrown);
    let n = shorter(members.len(), votes.len());
    let found = winner_exists(votes, barred, n);
    let w = choose|w: int| is_winner(votes, barred, n, w);
    assert(is_winner(votes, barred, n, w));
    assert(n == last + 1);
    assert(barred[w]) by {
        assert(members[w] == members[w]);
    }
    assert(barred[last]) by {
        assert(members[last] == members[last]);
    }
    if w < last {
        assert(score(votes, barred, last) < score(votes, barred, w));
    }
}

/// Signatures are counted one by one: those in two lists add up, one by the
/// member counts once, and one by someone else not at all.
pub proof fn signatures_add_up(a: Seq<u64>, b: Seq<u64>, signer: u64, member: usize)
    ensures
        signatures_of(Seq::empty(), member) == 0,
        signatures_of(seq![signer], member) == (if signer == member {
            1nat
        } else {
            0
        }),
        signatures_of(a + b, member) == signatures_of(a, member) + signatures_of(b, member),
    decreases b.len(),
{
    reveal_with_fuel(signatures_of, 2);
    assert(seq![signer].drop_last() =~= Seq::<u64>::empty());
    if b.len() == 0 {
        assert(a + b =~= a);
    } else {
        assert((a + b).drop_last() =~= a + b.drop_last());
        signatures_add_up(a, b.drop_last(), signer, member);
    }
}

/// A signature is worth one vote to each seat of the member who gave it: the
/// counts before, and one more where the signer sits.
pub proof fn a_signature_is_a_vote(
    votes: Seq<i32>,
    members: Seq<usize>,
    signers: Seq<u64>,
    signer: u64,
    seat: int,
)
    requires
        0 <= seat < members.len() && seat < votes.len(),
    ensures
        tallied(votes, members, Seq::empty())[seat] == votes[seat],
        tallied(votes, members, signers.push(signer))[seat] == tallied(votes, members, signers)[seat]
            + (if members[seat] == signer {
            1int
        } else {
            0
        }),
        tallied(votes, members, signers).len() <= votes.len(),
        tallied(votes, members, signers).len() <= members.len(),
        tallied(votes, members, signers).len() == votes.len() || tallied(
            votes,
            members,
            signers,
        ).len() == members.len(),
{
    assert(signers.push(signer).drop_last() =~= signers);
}

} // verus!
