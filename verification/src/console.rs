//! What is typed at the console of a full staker.

use crate::bytes::{cut, le_nat, u64_at};
use crate::keys::Key;
use crate::request::{letters_fit, spelled_key, views, Output, OutputView, Recipient};
use vstd::prelude::*;

verus! {

/// A letter in lower case.
pub open spec fn lowered(b: u8) -> u8 {
    if 65 <= b <= 90 {
        (b + 32) as u8
    } else {
        b
    }
}

/// The length of a recipient with an amount: three keys of 64 letters and
/// eight digits.
pub const RECORD: usize = 200;

/// The eight bytes that the digits of an amount stand for.
pub open spec fn digit_values(m: Seq<u8>) -> Seq<u8> {
    Seq::new(8, |i: int| (m[192 + i] - 48) as u8)
}

/// The first recipient and amount of `m` can be read.
pub open spec fn record_fits(m: Seq<u8>) -> bool {
    &&& m.len() >= RECORD
    &&& letters_fit(m)
    &&& letters_fit(m.subrange(64, m.len() as int))
    &&& letters_fit(m.subrange(128, m.len() as int))
    &&& forall|i: int| 0 <= i < 8 ==> #[trigger] m[192 + i] >= 48
}

/// All recipients and amounts of `m` can be read.
pub open spec fn records_fit(m: Seq<u8>) -> bool
    decreases m.len(),
{
    m.len() == 0 || (record_fits(m) && records_fit(m.subrange(RECORD as int, m.len() as int)))
}

/// The outputs that the recipients and amounts of `m` ask for.
pub open spec fn typed_outputs(m: Seq<u8>) -> Seq<OutputView>
    decreases m.len(),
{
    if m.len() < RECORD {
        Seq::empty()
    } else {
        let first = OutputView {
            pk: spelled_key(m),
            vpk: spelled_key(m.subrange(64, m.len() as int)),
            apk: spelled_key(m.subrange(128, m.len() as int)),
            amount: le_nat(digit_values(m)),
        };
        seq![first] + typed_outputs(m.subrange(RECORD as int, m.len() as int))
    }
}

/// The pieces of `m` between spaces.
pub open spec fn words(m: Seq<u8>) -> Seq<Seq<u8>>
    decreases m.len(),
{
    if m.len() == 0 {
        seq![Seq::empty()]
    } else {
        let before = words(m.drop_last());
        if m.last() == 32 {
            before.push(Seq::empty())
        } else {
            before.drop_last().push(before.last().push(m.last()))
        }
    }
}

/// Byte strings with a space between each two of them.
pub open spec fn spaced(list: Seq<Seq<u8>>) -> Seq<u8>
    decreases list.len(),
{
    if list.len() == 0 {
        Seq::empty()
    } else if list.len() == 1 {
        list[0]
    } else {
        spaced(list.drop_last()) + seq![32u8] + list.last()
    }
}

proof fn lemma_words_nonempty(m: Seq<u8>)
    ensures
        words(m).len() >= 1,
    decreases m.len(),
{
    if m.len() > 0 {
        lemma_words_nonempty(m.drop_last());
    }
}

/// Words hold no spaces, and with spaces between them they are the text.
pub proof fn words_make_up_the_text(m: Seq<u8>)
    ensures
        words(m).len() >= 1,
        spaced(words(m)) == m,
        forall|i: int| 0 <= i < words(m).len() ==> !(#[trigger] words(m)[i]).contains(32u8),
    decreases m.len(),
{
    if m.len() == 0 {
        assert(spaced(words(m)) =~= m);
    } else {
        let init = m.drop_last();
        words_make_up_the_text(init);
        let before = words(init);
        if m.last() == 32 {
            assert(words(m).drop_last() =~= before);
            assert(spaced(words(m)) =~= m);
        } else {
            let last = before.last().push(m.last());
            assert(words(m).drop_last() =~= before.drop_last());
            assert(words(m).last() == last);
            assert(!last.contains(32u8)) by {
                if last.contains(32u8) {
                    let k = choose|k: int| 0 <= k < last.len() && last[k] == 32u8;
                    if k < before.last().len() {
                        assert(before[before.len() - 1][k] == 32u8);
                        assert(before[before.len() - 1].contains(32u8));
                    }
                }
            }
            if before.len() == 1 {
                assert(before.last() == before[0]);
                assert(spaced(words(m)) == last);
            } else {
                assert(spaced(before) == spaced(before.drop_last()) + seq![32u8] + before.last());
                assert(spaced(words(m)) == spaced(before.drop_last()) + seq![32u8] + last);
            }
            assert(m =~= init.push(m.last()));
            assert(spaced(words(m)) =~= m);
            assert forall|i: int| 0 <= i < words(m).len() implies !(#[trigger] words(
                m,
            )[i]).contains(32u8) by {
                if i < before.len() - 1 {
                    assert(words(m)[i] == before[i]);
                }
            }
        }
    }
}

/// Cuts a text at its spaces.
pub fn split_words(m: &Vec<u8>) -> (r: Vec<Vec<u8>>)
    ensures
        crate::wire::rows(r@) == words(m@),
{
    let mut done: Vec<Vec<u8>> = Vec::new();
    let mut start: usize = 0;
    let mut i: usize = 0;
    proof {
        assert(m@.subrange(0, 0) =~= Seq::<u8>::empty());
        assert(crate::wire::rows(done@).push(Seq::<u8>::empty()) =~= words(Seq::<u8>::empty()));
    }
    while i < m.len()
        invariant
            start <= i <= m@.len(),
            crate::wire::rows(done@).push(m@.subrange(start as int, i as int)) == words(
                m@.subrange(0, i as int),
            ),
        decreases m@.len() - i,
    {
        let ghost before = crate::wire::rows(done@);
        let ghost word = m@.subrange(start as int, i as int);
        proof {
            assert(m@.subrange(0, i + 1).drop_last() =~= m@.subrange(0, i as int));
            assert(before.push(word).drop_last() =~= before);
        }
        if m[i] == 32 {
            done.push(cut(m, start, i));
            start = i + 1;
            proof {
                assert(crate::wire::rows(done@) =~= before.push(word));
                assert(m@.subrange(start as int, i + 1) =~= Seq::<u8>::empty());
            }
        } else {
            proof {
                assert(m@.subrange(start as int, i + 1) =~= word.push(m@[i as int]));
            }
        }
        i = i + 1;
    }
    let ghost before = crate::wire::rows(done@);
    done.push(cut(m, start, i));
    proof {
        assert(m@.subrange(0, i as int) =~= m@);
        assert(crate::wire::rows(done@) =~= before.push(m@.subrange(start as int, i as int)));
    }
    done
}

/// What a line at the console asks for.
pub enum Command {
    /// nothing: the line is empty or ends in no known letter
    Nothing,
    /// a payment: the letter that names the source, and the recipients
    Pay { letter: u8, body: Vec<u8> },
    /// a payment without a letter that names the source
    PayFromNowhere,
    /// to connect to addresses
    Connect { addresses: Vec<Vec<u8>> },
    /// to connect to ports of the own machine
    ConnectPorts { ports: Vec<Vec<u8>> },
    /// an account of the node's state
    Info,
    /// the last block
    LastBlock,
}

/// A line in lower case.
pub open spec fn lowered_line(line: Seq<u8>) -> Seq<u8> {
    Seq::new(line.len(), |i: int| lowered(line[i]))
}

/// Reads a line that was typed at the console.
pub fn read_line(line: &Vec<u8>) -> (r: Command)
    ensures
        r matches Command::Pay { letter, body } ==> lowered_line(line@) == body@.push(letter).push(
            33,
        ),
        r is PayFromNowhere ==> line@.len() == 1 && line@[0] == 33,
        r is Info ==> line@.last() == 105 || line@.last() == 73,
        r is LastBlock ==> line@.last() == 98 || line@.last() == 66,
        r matches Command::Connect { addresses } ==> lowered_line(line@) == spaced(
            crate::wire::rows(addresses@),
        ).push(42),
        r matches Command::ConnectPorts { ports } ==> lowered_line(line@) == spaced(
            crate::wire::rows(ports@),
        ).push(97),
        ({
            let m = lowered_line(line@);
            let rest = m.drop_last();
            if m.len() == 0 {
                r is Nothing
            } else if m.last() == 33 {
                if rest.len() == 0 {
                    r is PayFromNowhere
                } else {
                    r matches Command::Pay { letter, body } && letter == rest.last() && body@
                        == rest.drop_last()
                }
            } else if m.last() == 42 {
                r matches Command::Connect { addresses } && crate::wire::rows(addresses@) == words(
                    rest,
                )
            } else if m.last() == 97 {
                r matches Command::ConnectPorts { ports } && crate::wire::rows(ports@) == words(
                    rest,
                )
            } else if m.last() == 105 {
                r is Info
            } else if m.last() == 98 {
                r is LastBlock
            } else {
                r is Nothing
            }
        }),
{
    let mut m: Vec<u8> = Vec::new();
    let mut i: usize = 0;
    while i < line.len()
        invariant
            i <= line@.len(),
            m@.len() == i,
            forall|j: int| 0 <= j < i ==> m@[j] == lowered(line@[j]),
        decreases line@.len() - i,
    {
        let b: u8 = line[i];
        if 65 <= b && b <= 90 {
            m.push(b + 32);
        } else {
            m.push(b);
        }
        i = i + 1;
    }
    assert(m@ =~= lowered_line(line@));
    let length: usize = m.len();
    if length == 0 {
        return Command::Nothing;
    }
    let letter: u8 = m[length - 1];
    let rest: Vec<u8> = cut(&m, 0, length - 1);
    assert(rest@ =~= m@.drop_last());
    proof {
        assert(m@ =~= rest@.push(letter));
        assert(m@.last() == lowered(line@.last()));
        words_make_up_the_text(rest@);
    }
    if letter == 33 {
        if length == 1 {
            return Command::PayFromNowhere;
        }
        let body: Vec<u8> = cut(&m, 0, length - 2);
        assert(body@ =~= rest@.drop_last());
        assert(m@ =~= body@.push(rest@.last()).push(33));
        Command::Pay { letter: m[length - 2], body }
    } else if letter == 42 {
        Command::Connect { addresses: split_words(&rest) }
    } else if letter == 97 {
        Command::ConnectPorts { ports: split_words(&rest) }
    } else if letter == 105 {
        Command::Info
    } else if letter == 98 {
        Command::LastBlock
    } else {
        Command::Nothing
    }
}

/// Whether all recipients and amounts of `m` can be read.
pub fn are_records(m: &Vec<u8>) -> (r: bool)
    ensures
        r == records_fit(m@),
{
    let end: usize = m.len();
    let mut at: usize = 0;
    proof {
        assert(m@.subrange(0, m@.len() as int) =~= m@);
    }
    while at < end
        invariant
            at <= end,
            end == m@.len(),
            records_fit(m@.subrange(at as int, m@.len() as int)) == records_fit(m@),
        decreases end - at,
    {
        let ghost here = m@.subrange(at as int, m@.len() as int);
        if end - at < RECORD {
            return false;
        }
        proof {
            assert(here.subrange(64, here.len() as int) =~= m@.subrange(at + 64, m@.len() as int));
            assert(here.subrange(128, here.len() as int) =~= m@.subrange(
                at + 128,
                m@.len() as int,
            ));
            assert(here.subrange(RECORD as int, here.len() as int) =~= m@.subrange(
                at + RECORD,
                m@.len() as int,
            ));
        }
        if !crate::request::check_letters(m, at) || !crate::request::check_letters(m, at + 64)
            || !crate::request::check_letters(m, at + 128) {
            return false;
        }
        let mut i: usize = 0;
        while i < 8
            invariant
                i <= 8,
                end == m@.len(),
                at + RECORD <= end,
                here == m@.subrange(at as int, m@.len() as int),
                records_fit(here) == records_fit(m@),
                forall|j: int| 0 <= j < i ==> #[trigger] here[192 + j] >= 48,
            decreases 8 - i,
        {
            if m[at + 192 + i] < 48 {
                assert(here[192 + i] < 48);
                return false;
            }
            i = i + 1;
        }
        at = at + RECORD;
    }
    true
}

/// Reads the recipients and amounts of a payment.
pub fn read_records(m: &Vec<u8>) -> (r: Vec<Output>)
    requires
        records_fit(m@),
    ensures
        views(r@) == typed_outputs(m@),
{
    let end: usize = m.len();
    let mut out: Vec<Output> = Vec::new();
    let mut at: usize = 0;
    proof {
        assert(m@.subrange(0, m@.len() as int) =~= m@);
        assert(views(out@) + typed_outputs(m@) =~= typed_outputs(m@));
    }
    while at < end
        invariant
            at <= end,
            end == m@.len(),
            records_fit(m@.subrange(at as int, m@.len() as int)),
            views(out@) + typed_outputs(m@.subrange(at as int, m@.len() as int)) == typed_outputs(
                m@,
            ),
        decreases end - at,
    {
        let ghost here = m@.subrange(at as int, m@.len() as int);
        let ghost before = out@;
        proof {
            assert(record_fits(here));
            assert(here.subrange(64, here.len() as int) =~= m@.subrange(at + 64, m@.len() as int));
            assert(here.subrange(128, here.len() as int) =~= m@.subrange(
                at + 128,
                m@.len() as int,
            ));
            assert(here.subrange(RECORD as int, here.len() as int) =~= m@.subrange(
                at + RECORD,
                m@.len() as int,
            ));
        }
        let pk: Key = crate::request::read_key(m, at).0;
        let vpk: Key = crate::request::read_key(m, at + 64).0;
        let apk: Key = crate::request::read_key(m, at + 128).0;
        let mut digits: Vec<u8> = Vec::new();
        let mut i: usize = 0;
        while i < 8
            invariant
                i <= 8,
                end == m@.len(),
                at + RECORD <= end,
                here == m@.subrange(at as int, m@.len() as int),
                record_fits(here),
                digits@.len() == i,
                forall|j: int| 0 <= j < i ==> digits@[j] == digit_values(here)[j],
            decreases 8 - i,
        {
            assert(here[192 + i] >= 48);
            digits.push(m[at + 192 + i] - 48);
            i = i + 1;
        }
        let amount: u64 = u64_at(&digits, 0);
        proof {
            assert(digits@.subrange(0, 8) =~= digit_values(here));
        }
        out.push(Output { to: Recipient { pk, vpk, apk }, amount });
        proof {
            let first = out@[before.len() as int]@;
            let more = typed_outputs(here.subrange(RECORD as int, here.len() as int));
            assert(typed_outputs(here) =~= seq![first] + more);
            assert(views(out@) =~= views(before).push(first));
            assert(views(out@) + more =~= views(before) + (seq![first] + more));
        }
        at = at + RECORD;
    }
    proof {
        assert(m@.subrange(at as int, m@.len() as int) =~= Seq::<u8>::empty());
        assert(views(out@) + typed_outputs(Seq::<u8>::empty()) =~= views(out@));
    }
    out
}

/// A payment that is typed in full is read as it was meant: three keys, each
/// spelled out, and eight digits, of which the first counts ones and each other
/// one 256 times what the one before it counts; then whatever follows.
pub proof fn typed_payments_are_read_as_meant(
    pk: Seq<u8>,
    vpk: Seq<u8>,
    apk: Seq<u8>,
    digits: Seq<u8>,
    tail: Seq<u8>,
)
    requires
        pk.len() == 32,
        vpk.len() == 32,
        apk.len() == 32,
        digits.len() == 8,
        forall|i: int| 0 <= i < 8 ==> #[trigger] digits[i] <= 207,
    ensures
        ({
            let typed = Seq::new(8, |i: int| (48 + digits[i]) as u8);
            let m = crate::request::spelling(pk) + crate::request::spelling(vpk)
                + crate::request::spelling(apk) + typed + tail;
            &&& records_fit(m) == records_fit(tail)
            &&& typed_outputs(m).len() == typed_outputs(tail).len() + 1
            &&& typed_outputs(m)[0] == (OutputView { pk, vpk, apk, amount: le_nat(digits) })
            &&& typed_outputs(m).drop_first() == typed_outputs(tail)
        }),
{
    let typed = Seq::new(8, |i: int| (48 + digits[i]) as u8);
    let rest = typed + tail;
    let third = crate::request::spelling(apk) + rest;
    let second = crate::request::spelling(vpk) + third;
    let m = crate::request::spelling(pk) + crate::request::spelling(vpk)
        + crate::request::spelling(apk) + typed + tail;
    assert(m =~= crate::request::spelling(pk) + second);
    crate::request::spelled_keys_are_read(pk, second);
    crate::request::spelled_keys_are_read(vpk, third);
    crate::request::spelled_keys_are_read(apk, rest);
    assert(m.subrange(64, m.len() as int) =~= second);
    assert(m.subrange(128, m.len() as int) =~= third);
    assert(m.subrange(200, m.len() as int) =~= tail);
    assert forall|i: int| 0 <= i < 8 implies #[trigger] m[192 + i] == 48 + digits[i] by {
        assert(m[192 + i] == typed[i]);
    }
    assert(digit_values(m) =~= digits);
    assert(typed_outputs(m).drop_first() =~= typed_outputs(tail));
}

/// Nothing is read of less than a whole payment, and such a rest does not fit.
pub proof fn parts_of_payments_are_not_read(m: Seq<u8>)
    requires
        0 < m.len() < 200,
    ensures
        typed_outputs(m) == Seq::<OutputView>::empty(),
        !records_fit(m),
{
}

/// Capital letters count as small ones, and nothing else changes.
pub proof fn capitals_count_as_small_letters(line: Seq<u8>, i: int)
    requires
        0 <= i < line.len(),
    ensures
        lowered_line(line).len() == line.len(),
        65 <= line[i] <= 90 ==> lowered_line(line)[i] == line[i] + 32,
        !(65 <= line[i] <= 90) ==> lowered_line(line)[i] == line[i],
        !(65 <= lowered_line(line)[i] <= 90),
{
}

} // verus!
