//! The panic button of a staker: all money is moved to a new account, and the
//! transactions that move it are sent again until it has arrived.

use crate::bytes::{copy_bytes, le_bytes, lemma_le_bytes_len, u64_bytes};
use crate::node::{KhoraNode, OldStake, Stake};
use crate::frame::TRANSACTION;
use crate::request::{part_count, part_size, split_amount};
use crate::wire::rows;
use vstd::prelude::*;

verus! {

/// The inputs of a transaction that spends the given stake: its place, and the
/// mark of a stake.
pub open spec fn stake_position(stake: Option<Stake>) -> Seq<u8> {
    match stake {
        Some(s) => le_bytes(s.place as nat, 8).push(1),
        None => seq![1u8],
    }
}

/// Writes the inputs of a transaction that spends the given stake.
pub fn stake_position_bytes(stake: Option<Stake>) -> (r: Vec<u8>)
    ensures
        r@ == stake_position(stake),
{
    let mut out: Vec<u8> = match stake {
        Some(s) => u64_bytes(s.place),
        None => Vec::new(),
    };
    out.push(1);
    assert(out@ =~= stake_position(stake));
    out
}

/// The amount of the given stake.
pub open spec fn stake_amount(stake: Option<Stake>) -> u64 {
    match stake {
        Some(s) => s.amount,
        None => 0,
    }
}

/// What a panic calls for after a block.
#[derive(Clone, Copy, PartialEq, Eq, Structural)]
pub enum PanicWork {
    /// nothing: there is no panic
    Nothing,
    /// the coins have arrived: nothing more is sent of them
    Stop,
    /// the stake that was left behind is to be spent again
    Restake,
    /// the coins are sent again
    Resend,
}

/// How the stake that was left behind is spent again.
pub struct Restaking {
    /// the amount that was last sent on has arrived
    pub arrived: bool,
    /// the inputs of the transaction
    pub inputs: Vec<u8>,
    /// how many outputs it has
    pub count: u64,
    /// the amount of each
    pub size: u64,
}

/// What a panic sends out after a block.
pub struct PanicMessages {
    /// the stake, spent again
    pub stake: Option<Vec<u8>>,
    /// the coins, sent again
    pub coins: Option<Vec<u8>>,
}

/// One of the amounts is `amount`.
pub open spec fn has_amount(amounts: Seq<[u8; 32]>, amount: u64) -> bool {
    exists|i: int| 0 <= i < amounts.len() && (#[trigger] amounts[i])@ == le_bytes(amount as nat, 32)
}

fn wide_bytes(amount: u64) -> (r: Vec<u8>)
    ensures
        r@ == le_bytes(amount as nat, 32),
{
    let mut out: Vec<u8> = Vec::new();
    let mut rest: u64 = amount;
    let mut i: usize = 0;
    proof {
        assert(out@ + le_bytes(rest as nat, 32) =~= le_bytes(amount as nat, 32));
    }
    while i < 32
        invariant
            i <= 32,
            out@ + le_bytes(rest as nat, (32 - i) as nat) == le_bytes(amount as nat, 32),
        decreases 32 - i,
    {
        let ghost before = out@;
        let ghost tail = le_bytes(rest as nat / 256, (32 - i - 1) as nat);
        out.push((rest % 256) as u8);
        proof {
            let head = seq![(rest as nat % 256) as u8];
            assert(out@ =~= before + head);
            assert(out@ + tail =~= before + (head + tail));
        }
        rest = rest / 256;
        i = i + 1;
    }
    assert(out@ + le_bytes(rest as nat, 0) =~= out@);
    out
}

/// Whether one of the amounts, which are scalars, is `amount`.
pub fn is_amount_there(amounts: &Vec<[u8; 32]>, amount: u64) -> (r: bool)
    ensures
        r == has_amount(amounts@, amount),
{
    let wanted: Vec<u8> = wide_bytes(amount);
    proof {
        lemma_le_bytes_len(amount as nat, 32);
    }
    let mut i: usize = 0;
    while i < amounts.len()
        invariant
            i <= amounts@.len(),
            wanted@.len() == 32,
            wanted@ == le_bytes(amount as nat, 32),
            forall|j: int| 0 <= j < i ==> (#[trigger] amounts@[j])@ != wanted@,
        decreases amounts@.len() - i,
    {
        let mut k: usize = 0;
        while k < 32 && amounts[i][k] == wanted[k]
            invariant
                k <= 32,
                i < amounts@.len(),
                wanted@.len() == 32,
                forall|j: int| 0 <= j < k ==> amounts@[i as int]@[j] == wanted@[j],
            ensures
                k <= 32,
                forall|j: int| 0 <= j < k ==> amounts@[i as int]@[j] == wanted@[j],
                k < 32 ==> amounts@[i as int]@[k as int] != wanted@[k as int],
            decreases 32 - k,
        {
            k = k + 1;
        }
        if k == 32 {
            assert(amounts@[i as int]@ =~= wanted@);
            return true;
        }
        i = i + 1;
    }
    false
}

impl KhoraNode {
    /// How many accounts are to be there once a panic is over.
    pub open spec fn panic_count(&self) -> int {
        (if self.moneyreset is Some { 1int } else { 0 }) + (if self.oldstk is Some { 1int } else {
            0
        })
    }

    /// What a panic calls for after a block that left the node with `owned`
    /// accounts.
    pub open spec fn panic_due(&self, owned: usize) -> PanicWork {
        if self.panic_count() == 0 {
            PanicWork::Nothing
        } else if owned >= self.panic_count() {
            PanicWork::Stop
        } else if self.oldstk is Some {
            PanicWork::Restake
        } else {
            PanicWork::Resend
        }
    }

    /// Says what a panic calls for after a block.
    pub fn panic_work(&self, owned: usize) -> (r: PanicWork)
        ensures
            r == self.panic_due(owned),
    {
        let mut count: usize = 0;
        if self.moneyreset.is_some() {
            count = count + 1;
        }
        if self.oldstk.is_some() {
            count = count + 1;
        }
        if count == 0 {
            PanicWork::Nothing
        } else if owned >= count {
            PanicWork::Stop
        } else if self.oldstk.is_some() {
            PanicWork::Restake
        } else {
            PanicWork::Resend
        }
    }

    /// The coins of a panic have arrived.
    pub fn stop_panic(&mut self)
        ensures
            *final(self) == (KhoraNode { moneyreset: None, ..*old(self) }),
    {
        self.moneyreset = None;
    }

    /// Takes in what the ledger made of the stake that a panic left behind, and
    /// says how it is spent again: all of it, in parts that are small enough.
    /// Whether it has arrived is told by the amount that was last sent on.
    pub fn restake(&mut self, stake: Option<Stake>, amounts: &Vec<[u8; 32]>) -> (r: Restaking)
        requires
            old(self).oldstk is Some,
            old(self).rules.wf(),
        ensures
            r.arrived == has_amount(amounts@, old(self).oldstk->0.amount),
            r.arrived <==> exists|i: int|
                0 <= i < amounts@.len() && crate::bytes::le_nat((#[trigger] amounts@[i])@)
                    == old(self).oldstk->0.amount,
            r.inputs@ == stake_position(stake),
            r.count == part_count(
                stake_amount(stake) as nat,
                old(self).rules.split_bits as nat,
            ),
            r.size == part_size(stake_amount(stake) as nat, old(self).rules.split_bits as nat),
            stake matches Some(s) ==> r.count * r.size <= s.amount < r.count * r.size + r.count,
            final(self).oldstk matches Some(o) ==> r.count * r.size <= o.amount < r.count * r.size
                + r.count,
            *final(self) == (KhoraNode {
                oldstk: Some(OldStake { stake, amount: stake_amount(stake) }),
                ..*old(self)
            }),
    {
        let sent: u64 = match self.oldstk {
            Some(o) => o.amount,
            None => 0,
        };
        let arrived: bool = is_amount_there(amounts, sent);
        proof {
            amounts_are_compared_as_numbers(amounts@, sent);
        }
        let amount: u64 = match stake {
            Some(s) => s.amount,
            None => 0,
        };
        self.oldstk = Some(OldStake { stake, amount });
        let (count, size): (u64, u64) = split_amount(amount, self.rules.split_bits);
        Restaking { arrived, inputs: stake_position_bytes(stake), count, size }
    }

    /// The stake that was left behind is done with, or not.
    pub open spec fn oldstk_left(&self, arrived: bool) -> Option<OldStake> {
        if arrived {
            None
        } else {
            self.oldstk
        }
    }

    /// Ends what a panic does after a block: a sound transaction that spends
    /// the old stake is noted and sent out, the old stake is forgotten once it
    /// has arrived, and the coins are sent again unless some account is there
    /// and only the stake is missing.
    pub fn carry_on_panic(&mut self, arrived: bool, owned: usize, tx: &Option<Vec<u8>>) -> (r:
        PanicMessages)
        ensures
            r.stake is Some <==> tx is Some,
            r.stake matches Some(m) ==> m@ == tx->0@.push(TRANSACTION),
            rows(final(self).txses@) == (if tx is Some {
                rows(old(self).txses@).push(tx->0@)
            } else {
                rows(old(self).txses@)
            }),
            r.coins is Some <==> final(self).moneyreset is Some,
            r.coins matches Some(m) ==> m@ == final(self).moneyreset->0@,
            arrived ==> final(self).oldstk is None && r.coins is Some == old(self).moneyreset is Some,
            !arrived ==> final(self).oldstk == old(self).oldstk,
            owned == 0 || old(self).oldstk is None ==> final(self).moneyreset == old(
                self,
            ).moneyreset,
            owned > 0 && !arrived && old(self).oldstk is Some ==> final(self).moneyreset is None
                && r.coins is None,
            *final(self) == (KhoraNode {
                txses: final(self).txses,
                oldstk: old(self).oldstk_left(arrived),
                moneyreset: if owned > 0 && old(self).oldstk_left(arrived) is Some {
                    None
                } else {
                    old(self).moneyreset
                },
                ..*old(self)
            }),
    {
        let stake: Option<Vec<u8>> = match tx {
            Some(packed) => Some(self.submit(packed)),
            None => None,
        };
        if arrived {
            self.oldstk = None;
        }
        if owned > 0 && self.oldstk.is_some() {
            self.moneyreset = None;
        }
        let coins: Option<Vec<u8>> = match &self.moneyreset {
            Some(m) => Some(copy_bytes(m)),
            None => None,
        };
        PanicMessages { stake, coins }
    }

    /// The panic button was pushed and `tx` moves the coins: it is noted and
    /// sent out, and from now on sent again.
    pub fn coins_moved(&mut self, tx: &Vec<u8>) -> (r: Vec<u8>)
        ensures
            r@ == tx@.push(TRANSACTION),
            final(self).moneyreset is Some,
            final(self).moneyreset->0@ == r@,
            !(final(self).panic_due(0) is Nothing) && !(final(self).panic_due(0) is Stop),
            rows(final(self).txses@) == rows(old(self).txses@).push(tx@),
            *final(self) == (KhoraNode {
                txses: final(self).txses,
                moneyreset: final(self).moneyreset,
                ..*old(self)
            }),
    {
        let m: Vec<u8> = self.submit(tx);
        self.moneyreset = Some(copy_bytes(&m));
        m
    }

    /// The panic button was pushed and `tx` moves `amount` of the stake: it is
    /// noted and sent out, and the stake is remembered.
    pub fn stake_moved(&mut self, tx: &Vec<u8>, amount: u64) -> (r: Vec<u8>)
        ensures
            r@ == tx@.push(TRANSACTION),
            rows(final(self).txses@) == rows(old(self).txses@).push(tx@),
            final(self).panic_due(0) is Restake,
            final(self).oldstk matches Some(o) ==> stake_position(o.stake) == stake_position(
                old(self).smine,
            ),
            *final(self) == (KhoraNode {
                txses: final(self).txses,
                oldstk: Some(OldStake { stake: old(self).smine, amount }),
                ..*old(self)
            }),
    {
        let m: Vec<u8> = self.submit(tx);
        self.oldstk = Some(OldStake { stake: self.smine, amount });
        m
    }

    /// The node turns to a new account, which has no stake yet.
    pub fn leave_account(&mut self)
        ensures
            *final(self) == (KhoraNode { smine: None, keylocation: None, ..*old(self) }),
    {
        self.smine = None;
        self.keylocation = None;
    }
}

/// As long as fewer accounts are there than a panic moved, its coins and its
/// stake are sent again after each block; once they are all there, no more.
pub proof fn panic_lasts_until_all_is_there(n: KhoraNode, owned: usize)
    requires
        n.moneyreset is Some || n.oldstk is Some,
    ensures
        owned < n.panic_count() <==> n.panic_due(owned) is Restake || n.panic_due(owned) is Resend,
        owned >= n.panic_count() <==> n.panic_due(owned) is Stop,
        n.panic_due(owned) is Restake ==> n.oldstk is Some,
        n.panic_due(owned) is Resend ==> n.moneyreset is Some && owned == 0,
{
}

/// A node that no panic concerns is left alone, whatever it owns.
pub proof fn no_panic_no_work(n: KhoraNode, owned: usize)
    requires
        n.moneyreset is None,
        n.oldstk is None,
    ensures
        n.panic_due(owned) is Nothing,
{
}

/// What a panic calls for, told from what is still on its way and from the
/// number of accounts that are there: nothing if nothing is on its way; a stop
/// once there is an account for the coins and one for the stake, as far as they
/// are on their way; before that the stake is spent again if it is on its way,
/// and the coins are sent again if they alone are.
pub proof fn panics_go_by_what_is_on_its_way(n: KhoraNode, owned: usize)
    ensures
        n.panic_due(owned) is Nothing <==> n.moneyreset is None && n.oldstk is None,
        n.moneyreset is Some && n.oldstk is Some ==> (n.panic_due(owned) is Stop <==> owned >= 2),
        n.moneyreset is Some && n.oldstk is None ==> (n.panic_due(owned) is Stop <==> owned >= 1),
        n.moneyreset is None && n.oldstk is Some ==> (n.panic_due(owned) is Stop <==> owned >= 1),
        n.oldstk is Some && !(n.panic_due(owned) is Stop) ==> n.panic_due(owned) is Restake,
        n.oldstk is None && n.moneyreset is Some && owned == 0 ==> n.panic_due(owned) is Resend,
        n.panic_count() <= 2,
{
}

/// An amount is there exactly if one of the scalars, read as a number, is equal
/// to it.
pub proof fn amounts_are_compared_as_numbers(amounts: Seq<[u8; 32]>, amount: u64)
    ensures
        has_amount(amounts, amount) <==> exists|i: int|
            0 <= i < amounts.len() && crate::bytes::le_nat((#[trigger] amounts[i])@) == amount,
{
    crate::bytes::lemma_pow256_values();
    assert(crate::bytes::pow256(32) >= crate::bytes::pow256(8)) by {
        reveal_with_fuel(crate::bytes::pow256, 33);
    }
    crate::bytes::le_round_trip(amount as nat, 32);
    if has_amount(amounts, amount) {
        let i = choose|i: int|
            0 <= i < amounts.len() && (#[trigger] amounts[i])@ == le_bytes(amount as nat, 32);
        assert(crate::bytes::le_nat(amounts[i]@) == amount);
    }
    if exists|i: int|
        0 <= i < amounts.len() && crate::bytes::le_nat((#[trigger] amounts[i])@) == amount {
        let i = choose|i: int|
            0 <= i < amounts.len() && crate::bytes::le_nat((#[trigger] amounts[i])@) == amount;
        crate::bytes::le_write_back(amounts[i]@);
        assert(amounts[i]@ == le_bytes(amount as nat, 32));
    }
}

/// The inputs of a transaction that spends a stake are understood: they say
/// that a stake is spent, and the stake's place is read from them.
pub proof fn spent_stakes_are_understood(stake: Stake)
    ensures
        crate::pool::stake_inputs(stake_position(Some(stake))),
        crate::pool::stake_inputs(stake_position(None)),
        stake_position(Some(stake)).len() == 9,
        crate::bytes::le_nat(stake_position(Some(stake)).drop_last()) == stake.place,
        stake_position(None).len() == 1,
        stake_amount(Some(stake)) == stake.amount,
        stake_amount(None) == 0,
{
    crate::bytes::lemma_pow256_values();
    crate::bytes::le_round_trip(stake.place as nat, 8);
    assert(stake_position(Some(stake)).drop_last() =~= le_bytes(stake.place as nat, 8));
}

/// A stake that has arrived is done with; one that has not is kept as it is.
pub proof fn only_what_arrived_is_done_with(n: KhoraNode)
    ensures
        n.oldstk_left(true) is None,
        n.oldstk_left(false) == n.oldstk,
{
}

} // verus!
