//! The transactions that wait for a block.

use crate::bytes::{copy_bytes, same_bytes};
use crate::frame::{tagged, TRANSACTION};
use crate::node::KhoraNode;
use crate::wire::rows;
use vstd::prelude::*;

verus! {

/// A transaction that comes by gossip is shorter than this.
pub const LONGEST_TRANSACTION: usize = 100_000;

/// What is done with a message that came by gossip.
#[derive(Clone, Copy, PartialEq, Eq, Structural)]
pub enum Gossip {
    /// it is passed on
    Pass,
    /// it is not passed on
    Drop,
    /// the gossip layer is told nothing
    Silent,
}

/// What the ledger says of a transaction.
pub enum Verdict {
    /// it cannot be read
    Unreadable,
    /// it spends a stake, soundly or not
    Stake { sound: bool },
    /// it spends coins: for each of its tags, whether a block holds it already,
    /// and whether the rest is sound
    Coins { tags_seen: Vec<bool>, sound: bool },
}

/// No tag was seen before.
pub open spec fn all_fresh(tags_seen: Seq<bool>) -> bool {
    !tags_seen.contains(true)
}

impl Verdict {
    /// The transaction may go into a block: it is sound and spends nothing that
    /// was spent before.
    pub open spec fn fit_spec(&self) -> bool {
        match self {
            Verdict::Unreadable => false,
            Verdict::Stake { sound } => *sound,
            Verdict::Coins { tags_seen, sound } => all_fresh(tags_seen@) && *sound,
        }
    }

    /// Whether the transaction may go into a block.
    pub fn fit(&self) -> (r: bool)
        ensures
            r == self.fit_spec(),
    {
        match self {
            Verdict::Unreadable => false,
            Verdict::Stake { sound } => *sound,
            Verdict::Coins { tags_seen, sound } => none_seen(tags_seen) && *sound,
        }
    }
}

/// Whether no tag was seen before.
pub fn none_seen(tags_seen: &Vec<bool>) -> (r: bool)
    ensures
        r == all_fresh(tags_seen@),
{
    let mut i: usize = 0;
    while i < tags_seen.len()
        invariant
            i <= tags_seen@.len(),
            forall|j: int| 0 <= j < i ==> !tags_seen@[j],
        decreases tags_seen@.len() - i,
    {
        if tags_seen[i] {
            assert(tags_seen@[i as int] == true);
            return false;
        }
        i = i + 1;
    }
    true
}

/// The inputs of a transaction say that it spends a stake: they end in a one.
pub open spec fn stake_inputs(inputs: Seq<u8>) -> bool {
    inputs.len() > 0 && inputs.last() == 1
}

/// Whether the inputs of a transaction say that it spends a stake.
pub fn spends_stake(inputs: &Vec<u8>) -> (r: bool)
    ensures
        r == stake_inputs(inputs@),
{
    let length: usize = inputs.len();
    length > 0 && inputs[length - 1] == 1
}

/// The rows whose flag is set, in their order.
pub open spec fn flagged(list: Seq<Seq<u8>>, flags: Seq<bool>) -> Seq<Seq<u8>>
    decreases list.len(),
{
    if list.len() == 0 {
        Seq::empty()
    } else {
        let before = flagged(list.drop_last(), flags);
        if flags[list.len() - 1] {
            before.push(list.last())
        } else {
            before
        }
    }
}

/// For each verdict, whether the transaction may go into a block.
pub open spec fn fitness(verdicts: Seq<Verdict>) -> Seq<bool> {
    Seq::new(verdicts.len(), |i: int| verdicts[i].fit_spec())
}

fn held(list: &Vec<Vec<u8>>, row: &Vec<u8>) -> (r: bool)
    ensures
        r == rows(list@).contains(row@),
{
    let mut i: usize = 0;
    while i < list.len()
        invariant
            i <= list@.len(),
            forall|j: int| 0 <= j < i ==> #[trigger] list@[j]@ != row@,
        decreases list@.len() - i,
    {
        if same_bytes(&list[i], row) {
            assert(rows(list@)[i as int] == row@);
            return true;
        }
        i = i + 1;
    }
    proof {
        if rows(list@).contains(row@) {
            let j = choose|j: int| 0 <= j < rows(list@).len() && rows(list@)[j] == row@;
            assert(list@[j]@ == row@);
        }
    }
    false
}

/// The rows of a list, each once.
pub fn without_repeats(list: &Vec<Vec<u8>>) -> (r: Vec<Vec<u8>>)
    ensures
        rows(r@).no_duplicates(),
        forall|row: Seq<u8>| #[trigger] rows(r@).contains(row) == rows(list@).contains(row),
{
    let mut out: Vec<Vec<u8>> = Vec::new();
    let mut i: usize = 0;
    while i < list.len()
        invariant
            i <= list@.len(),
            rows(out@).no_duplicates(),
            forall|j: int| 0 <= j < i ==> rows(out@).contains(#[trigger] rows(list@)[j]),
            forall|j: int|
                0 <= j < out@.len() ==> rows(list@).contains(#[trigger] rows(out@)[j]),
        decreases list@.len() - i,
    {
        let ghost before = rows(out@);
        assert(rows(list@)[i as int] == list@[i as int]@);
        if !held(&out, &list[i]) {
            out.push(copy_bytes(&list[i]));
            proof {
                let here = list@[i as int]@;
                assert(rows(out@) =~= before.push(here));
                assert forall|j: int| 0 <= j < i + 1 implies rows(out@).contains(
                    #[trigger] rows(list@)[j],
                ) by {
                    if j < i {
                        let k = choose|k: int|
                            0 <= k < before.len() && before[k] == rows(list@)[j];
                        assert(rows(out@)[k] == rows(list@)[j]);
                    } else {
                        assert(rows(out@)[before.len() as int] == here);
                    }
                }
            }
        }
        i = i + 1;
    }
    proof {
        assert forall|row: Seq<u8>| #[trigger] rows(out@).contains(row) == rows(list@).contains(
            row,
        ) by {
            if rows(out@).contains(row) {
                let j = choose|j: int| 0 <= j < rows(out@).len() && rows(out@)[j] == row;
                assert(rows(list@).contains(rows(out@)[j]));
            }
            if rows(list@).contains(row) {
                let j = choose|j: int| 0 <= j < rows(list@).len() && rows(list@)[j] == row;
                assert(rows(out@).contains(rows(list@)[j]));
            }
        }
    }
    out
}

proof fn lemma_flagged(list: Seq<Seq<u8>>, flags: Seq<bool>)
    requires
        list.no_duplicates(),
    ensures
        flagged(list, flags).no_duplicates(),
        forall|i: int|
            0 <= i < list.len() ==> flags[i] == flagged(list, flags).contains(#[trigger] list[i]),
        forall|row: Seq<u8>| #[trigger] flagged(list, flags).contains(row) ==> list.contains(row),
    decreases list.len(),
{
    if list.len() > 0 {
        let init = list.drop_last();
        assert(init.no_duplicates());
        lemma_flagged(init, flags);
        let before = flagged(init, flags);
        let all = flagged(list, flags);
        assert(!init.contains(list.last())) by {
            if init.contains(list.last()) {
                let j = choose|j: int| 0 <= j < init.len() && init[j] == list.last();
                assert(list[j] == list[list.len() - 1]);
            }
        }
        assert(!before.contains(list.last()));
        assert forall|row: Seq<u8>| #[trigger] all.contains(row) <==> before.contains(row) || (
        flags[list.len() - 1] && row == list.last()) by {
            if before.contains(row) {
                let j = choose|j: int| 0 <= j < before.len() && before[j] == row;
                assert(all[j] == row);
            }
            if flags[list.len() - 1] && row == list.last() {
                assert(all[before.len() as int] == row);
            }
        }
        assert forall|i: int| 0 <= i < list.len() implies flags[i] == all.contains(
            #[trigger] list[i],
        ) by {
            if i < init.len() {
                assert(init[i] == list[i]);
            }
        }
        assert forall|row: Seq<u8>| #[trigger] all.contains(row) implies list.contains(row) by {
            if before.contains(row) {
                let j = choose|j: int| 0 <= j < init.len() && init[j] == row;
                assert(list[j] == row);
            } else {
                assert(list[list.len() - 1] == row);
            }
        }
    }
}

impl KhoraNode {
    /// Of transactions that came more than once, keeps one.
    pub fn drop_repeats(&mut self)
        ensures
            rows(final(self).txses@).no_duplicates(),
            forall|tx: Seq<u8>| #[trigger]
                rows(final(self).txses@).contains(tx) == rows(old(self).txses@).contains(tx),
            *final(self) == (KhoraNode { txses: final(self).txses, ..*old(self) }),
    {
        let txses: Vec<Vec<u8>> = without_repeats(&self.txses);
        self.txses = txses;
    }

    /// Keeps the transactions that may go into a block, given the ledger's
    /// verdict on each.
    pub fn keep_fit(&mut self, verdicts: &Vec<Verdict>)
        requires
            verdicts@.len() == old(self).txses@.len(),
        ensures
            rows(final(self).txses@) == flagged(rows(old(self).txses@), fitness(verdicts@)),
            *final(self) == (KhoraNode { txses: final(self).txses, ..*old(self) }),
    {
        let mut kept: Vec<Vec<u8>> = Vec::new();
        let mut i: usize = 0;
        let ghost all = rows(self.txses@);
        proof {
            assert(all.subrange(0, 0) =~= Seq::<Seq<u8>>::empty());
            assert(rows(kept@) =~= Seq::<Seq<u8>>::empty());
        }
        while i < self.txses.len()
            invariant
                i <= self.txses@.len(),
                *self == *old(self),
                verdicts@.len() == self.txses@.len(),
                all == rows(self.txses@),
                rows(kept@) == flagged(all.subrange(0, i as int), fitness(verdicts@)),
            decreases self.txses@.len() - i,
        {
            let ghost before = rows(kept@);
            proof {
                assert(all.subrange(0, i + 1).drop_last() =~= all.subrange(0, i as int));
            }
            if verdicts[i].fit() {
                kept.push(copy_bytes(&self.txses[i]));
                assert(rows(kept@) =~= before.push(all[i as int]));
            }
            i = i + 1;
        }
        assert(all.subrange(0, i as int) =~= all);
        self.txses = kept;
    }

    /// Takes a transaction that came by gossip. A long one is not even looked
    /// at; one that may go into a block is kept and passed on.
    pub fn take_transaction(&mut self, m: &Vec<u8>, verdict: &Verdict) -> (r: Gossip)
        ensures
            r == (if m@.len() >= LONGEST_TRANSACTION {
                Gossip::Silent
            } else if verdict.fit_spec() {
                Gossip::Pass
            } else {
                Gossip::Drop
            }),
            r == Gossip::Pass ==> m@.len() < 100_000 && !(*verdict is Unreadable),
            *verdict matches Verdict::Stake { sound } ==> (r == Gossip::Pass ==> sound),
            *verdict matches Verdict::Coins { tags_seen, sound } ==> (r == Gossip::Pass ==> sound
                && forall|t: int| 0 <= t < tags_seen@.len() ==> !(#[trigger] tags_seen@[t])),
            rows(final(self).txses@) == (if r == Gossip::Pass {
                rows(old(self).txses@).push(m@)
            } else {
                rows(old(self).txses@)
            }),
            *final(self) == (KhoraNode { txses: final(self).txses, ..*old(self) }),
    {
        proof {
            double_spends_are_refused(*verdict);
        }
        if m.len() >= LONGEST_TRANSACTION {
            return Gossip::Silent;
        }
        if !verdict.fit() {
            return Gossip::Drop;
        }
        let ghost before = rows(self.txses@);
        self.txses.push(copy_bytes(m));
        assert(rows(self.txses@) =~= before.push(m@));
        Gossip::Pass
    }

    /// Notes a transaction of the node's own, and gives the message that it is
    /// sent out in.
    pub fn submit(&mut self, tx: &Vec<u8>) -> (r: Vec<u8>)
        ensures
            r@ == tx@.push(TRANSACTION),
            rows(final(self).txses@) == rows(old(self).txses@).push(tx@),
            *final(self) == (KhoraNode { txses: final(self).txses, ..*old(self) }),
    {
        let ghost before = rows(self.txses@);
        self.txses.push(copy_bytes(tx));
        assert(rows(self.txses@) =~= before.push(tx@));
        tagged(tx, TRANSACTION)
    }

    /// Takes what came of a request to spend: the packed transaction, empty if
    /// none could be made. It is noted and sent out if it was made and nothing
    /// was missing from the request.
    pub fn submit_request(&mut self, valid: bool, tx: &Vec<u8>) -> (r: Option<Vec<u8>>)
        ensures
            r is Some <==> valid && tx@.len() > 0,
            !valid ==> r is None && rows(final(self).txses@) == rows(old(self).txses@),
            r matches Some(m) ==> m@ == tx@.push(TRANSACTION),
            rows(final(self).txses@) == (if valid && tx@.len() > 0 {
                rows(old(self).txses@).push(tx@)
            } else {
                rows(old(self).txses@)
            }),
            *final(self) == (KhoraNode { txses: final(self).txses, ..*old(self) }),
    {
        if valid && tx.len() > 0 {
            Some(self.submit(tx))
        } else {
            None
        }
    }
}

/// What is passed on of a transaction that an outsider sent, and the answer to
/// the outsider: both are due if its tags are fresh and it is sound.
pub fn outsider_transaction(m: &Vec<u8>, tags_seen: &Vec<bool>, sound: bool) -> (r: Option<
    (Vec<u8>, Vec<u8>),
>)
    ensures
        r is Some <==> all_fresh(tags_seen@) && sound,
        r is Some ==> forall|t: int| 0 <= t < tags_seen@.len() ==> !(#[trigger] tags_seen@[t]),
        r matches Some(p) ==> p.0@ == m@.push(TRANSACTION) && p.1@ == seq![1u8],
{
    proof {
        one_old_tag_is_too_many(tags_seen@);
    }
    if none_seen(tags_seen) && sound {
        let mut answer: Vec<u8> = Vec::new();
        answer.push(1);
        assert(answer@ =~= seq![1u8]);
        Some((tagged(m, TRANSACTION), answer))
    } else {
        None
    }
}

/// After a block, no transaction waits twice, and a transaction waits exactly
/// if it waited before and the ledger finds that it may go into a block.
pub proof fn waiting_transactions_are_fit(
    before: Seq<Seq<u8>>,
    once: Seq<Seq<u8>>,
    verdicts: Seq<Verdict>,
)
    requires
        once.no_duplicates(),
        forall|tx: Seq<u8>| #[trigger] once.contains(tx) == before.contains(tx),
        verdicts.len() == once.len(),
    ensures
        flagged(once, fitness(verdicts)).no_duplicates(),
        forall|i: int|
            0 <= i < once.len() ==> verdicts[i].fit_spec() == flagged(
                once,
                fitness(verdicts),
            ).contains(#[trigger] once[i]),
        forall|tx: Seq<u8>| #[trigger]
            flagged(once, fitness(verdicts)).contains(tx) ==> before.contains(tx),
{
    lemma_flagged(once, fitness(verdicts));
    assert forall|i: int| 0 <= i < once.len() implies verdicts[i].fit_spec() == flagged(
        once,
        fitness(verdicts),
    ).contains(#[trigger] once[i]) by {
        assert(fitness(verdicts)[i] == verdicts[i].fit_spec());
    }
}

/// One tag that was seen before is too many, wherever it stands.
pub proof fn one_old_tag_is_too_many(tags_seen: Seq<bool>)
    ensures
        all_fresh(tags_seen) <==> forall|t: int|
            0 <= t < tags_seen.len() ==> !(#[trigger] tags_seen[t]),
{
    if !all_fresh(tags_seen) {
        let t = choose|t: int| 0 <= t < tags_seen.len() && tags_seen[t] == true;
        assert(tags_seen[t]);
    }
    if exists|t: int| 0 <= t < tags_seen.len() && #[trigger] tags_seen[t] {
        let t = choose|t: int| 0 <= t < tags_seen.len() && #[trigger] tags_seen[t];
        assert(tags_seen.contains(tags_seen[t]));
    }
}

/// What was spent before is not spent again: a transaction may go into a block
/// only if it can be read and is sound, and one that spends coins only if none
/// of its tags was seen before. Nothing else keeps it out.
pub proof fn double_spends_are_refused(verdict: Verdict)
    ensures
        verdict is Unreadable ==> !verdict.fit_spec(),
        verdict matches Verdict::Stake { sound } ==> verdict.fit_spec() == sound,
        verdict matches Verdict::Coins { tags_seen, sound } ==> (verdict.fit_spec() <==> sound
            && forall|t: int| 0 <= t < tags_seen@.len() ==> !(#[trigger] tags_seen@[t])),
{
    if let Verdict::Coins { tags_seen, sound } = verdict {
        one_old_tag_is_too_many(tags_seen@);
    }
}

/// A row that is kept is one whose flag is set.
pub proof fn kept_rows_are_flagged(list: Seq<Seq<u8>>, flags: Seq<bool>, k: int) -> (i: int)
    requires
        0 <= k < flagged(list, flags).len(),
    ensures
        0 <= i < list.len(),
        flags[i],
        flagged(list, flags)[k] == list[i],
    decreases list.len(),
{
    let before = flagged(list.drop_last(), flags);
    if k < before.len() {
        let i = kept_rows_are_flagged(list.drop_last(), flags, k);
        assert(list.drop_last()[i] == list[i]);
        i
    } else {
        list.len() - 1
    }
}

/// Whatever waits after the ledger spoke waited before, can be read and is
/// sound, and no tag of it was seen before.
pub proof fn no_double_spend_waits(waiting: Seq<Seq<u8>>, verdicts: Seq<Verdict>, k: int) -> (i: int)
    requires
        verdicts.len() == waiting.len(),
        0 <= k < flagged(waiting, fitness(verdicts)).len(),
    ensures
        0 <= i < waiting.len(),
        flagged(waiting, fitness(verdicts))[k] == waiting[i],
        !(verdicts[i] is Unreadable),
        verdicts[i] matches Verdict::Stake { sound } ==> sound,
        verdicts[i] matches Verdict::Coins { tags_seen, sound } ==> sound && forall|t: int|
            0 <= t < tags_seen@.len() ==> !(#[trigger] tags_seen@[t]),
{
    let i = kept_rows_are_flagged(waiting, fitness(verdicts), k);
    double_spends_are_refused(verdicts[i]);
    i
}

/// Rows are kept one by one and in their order: what is kept of two lists that
/// follow each other is what is kept of the first, then what is kept of the
/// second; of a single row, the row if its flag is set.
pub proof fn rows_are_kept_in_order(
    a: Seq<Seq<u8>>,
    b: Seq<Seq<u8>>,
    flags: Seq<bool>,
    more: Seq<bool>,
    row: Seq<u8>,
    flag: bool,
)
    requires
        flags.len() == a.len(),
        more.len() == b.len(),
    ensures
        flagged(a + b, flags + more) == flagged(a, flags) + flagged(b, more),
        flagged(seq![row], seq![flag]) == (if flag {
            seq![row]
        } else {
            Seq::<Seq<u8>>::empty()
        }),
    decreases b.len(),
{
    reveal_with_fuel(flagged, 2);
    assert(seq![row].drop_last() =~= Seq::<Seq<u8>>::empty());
    assert(flagged(seq![row], seq![flag]) =~= (if flag {
        seq![row]
    } else {
        Seq::<Seq<u8>>::empty()
    }));
    if b.len() == 0 {
        assert(a + b =~= a);
        assert(flags + more =~= flags);
        assert(flagged(a, flags) + flagged(b, more) =~= flagged(a, flags));
    } else {
        let all = a + b;
        assert(all.drop_last() =~= a + b.drop_last());
        rows_are_kept_in_order(a, b.drop_last(), flags, more.drop_last(), row, flag);
        rows_go_by_their_own_flags(all.drop_last(), flags + more, flags + more.drop_last());
        rows_go_by_their_own_flags(b.drop_last(), more, more.drop_last());
        assert(flagged(all, flags + more) =~= flagged(a, flags) + flagged(b, more));
    }
}

/// Flags beyond the rows do not matter.
proof fn rows_go_by_their_own_flags(list: Seq<Seq<u8>>, flags: Seq<bool>, other: Seq<bool>)
    requires
        forall|i: int| 0 <= i < list.len() ==> flags[i] == other[i],
    ensures
        flagged(list, flags) == flagged(list, other),
    decreases list.len(),
{
    if list.len() > 0 {
        rows_go_by_their_own_flags(list.drop_last(), flags, other);
    }
}

/// A transaction spends a stake exactly if the last of its inputs' bytes is a
/// one, whatever comes before.
pub proof fn the_last_byte_tells_a_stake(head: Seq<u8>, last: u8)
    ensures
        stake_inputs(head.push(last)) <==> last == 1,
        !stake_inputs(Seq::empty()),
{
}

} // verus!
