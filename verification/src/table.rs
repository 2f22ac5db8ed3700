//! Tables from places to 32-byte values, as lists of lines.

use crate::keys::Key;
use std::collections::HashMap;
use vstd::prelude::*;
use vstd::std_specs::iter::IteratorSpec;

verus! {

broadcast use vstd::std_specs::hash::group_hash_axioms;

/// A line of a table.
#[derive(Clone, Copy)]
pub struct Line {
    pub place: usize,
    pub value: Key,
}

/// No place has two lines.
pub open spec fn distinct_places(lines: Seq<Line>) -> bool {
    forall|i: int, j: int|
        0 <= i < lines.len() && 0 <= j < lines.len() && i != j ==> #[trigger] lines[i].place
            != #[trigger] lines[j].place
}

/// Whether `place` has a line.
pub open spec fn has_line(lines: Seq<Line>, place: usize) -> bool {
    exists|i: int| 0 <= i < lines.len() && #[trigger] lines[i].place == place
}

/// The lines as a map from places to values.
pub open spec fn line_map(lines: Seq<Line>) -> Map<usize, Key> {
    Map::new(
        |p: usize| has_line(lines, p),
        |p: usize| lines[choose|i: int| 0 <= i < lines.len() && #[trigger] lines[i].place == p].value,
    )
}

/// The lines of a table, one for each place, in no particular order.
pub fn list_lines(table: &HashMap<usize, Key>) -> (r: Vec<Line>)
    ensures
        distinct_places(r@),
        line_map(r@) == table@,
        forall|i: int|
            0 <= i < r@.len() ==> table@.contains_key((#[trigger] r@[i]).place)
                && table@[r@[i].place] == r@[i].value,
        forall|p: usize| #[trigger] table@.contains_key(p) ==> has_line(r@, p),
{
    let mut out: Vec<Line> = Vec::new();
    let pairs = table.iter();
    let ghost all = vstd::std_specs::hash::into_iter(pairs);
    assert(all.to_set() == table@.kv_pairs());
    assert(all.no_duplicates()) by {
        assert forall|i: int, j: int|
            0 <= i < all.len() && 0 <= j < all.len() && i != j implies all[i] != all[j] by {
            assert(pairs.remaining()[i] != pairs.remaining()[j]);
        }
    }
    for pair in it: pairs
        invariant
            all == it.seq().unref(),
            out@.len() == it.index(),
            forall|j: int|
                0 <= j < it.index() ==> (#[trigger] out@[j]).place == all[j].0 && out@[j].value
                    == all[j].1,
    {
        out.push(Line { place: *pair.0, value: *pair.1 });
    }
    proof {
        assert forall|i: int| 0 <= i < out@.len() implies table@.contains_key(
            (#[trigger] out@[i]).place,
        ) && table@[out@[i].place] == out@[i].value by {
            assert(all.to_set().contains(all[i]));
        }
        assert forall|p: usize| #[trigger] table@.contains_key(p) implies has_line(out@, p) by {
            assert(table@.kv_pairs().contains((p, table@[p])));
            let i = choose|i: int| 0 <= i < all.len() && all[i] == (p, table@[p]);
            assert(out@[i].place == p);
        }
        assert(distinct_places(out@)) by {
            assert forall|i: int, j: int|
                0 <= i < out@.len() && 0 <= j < out@.len() && i != j implies #[trigger] out@[i].place
                != #[trigger] out@[j].place by {
                assert(all[i] != all[j]);
            }
        }
        assert forall|p: usize| has_line(out@, p) implies line_map(out@)[p] == table@[p] by {
            let i = choose|i: int| 0 <= i < out@.len() && #[trigger] out@[i].place == p;
            assert(table@[out@[i].place] == out@[i].value);
        }
        assert(line_map(out@) =~= table@);
    }
    out
}

/// The table that has these lines.
pub fn table_of(lines: &Vec<Line>) -> (r: HashMap<usize, Key>)
    requires
        distinct_places(lines@),
    ensures
        r@ == line_map(lines@),
{
    let mut out: HashMap<usize, Key> = HashMap::new();
    let mut i: usize = 0;
    while i < lines.len()
        invariant
            i <= lines@.len(),
            distinct_places(lines@),
            forall|j: int|
                0 <= j < i ==> out@.contains_key((#[trigger] lines@[j]).place)
                    && out@[lines@[j].place] == lines@[j].value,
            forall|p: usize| #[trigger] out@.contains_key(p) ==> has_line(lines@, p),
        decreases lines@.len() - i,
    {
        let line: Line = lines[i];
        assert(lines@[i as int].place == line.place);
        out.insert(line.place, line.value);
        i = i + 1;
    }
    assert(out@ =~= line_map(lines@));
    out
}

/// A place has the value of its line, and a place without a line has none.
pub proof fn lines_tell_the_values(lines: Seq<Line>, i: int, place: usize)
    requires
        distinct_places(lines),
    ensures
        0 <= i < lines.len() ==> line_map(lines).contains_key(lines[i].place) && line_map(
            lines,
        )[lines[i].place] == lines[i].value,
        (forall|j: int| 0 <= j < lines.len() ==> (#[trigger] lines[j]).place != place) ==> !line_map(
            lines,
        ).contains_key(place),
{
    if 0 <= i < lines.len() {
        let p = lines[i].place;
        let c = choose|c: int| 0 <= c < lines.len() && #[trigger] lines[c].place == p;
        assert(lines[i].place == p);
        assert(lines[c].place == p);
    }
}

} // verus!
