//! Folding: which rows of a stream are list entries while cards are shut.

use crate::diff::{PathSet, Row};
use vstd::prelude::*;

verus! {

/// Whether a stream ends inside a folded card: after the header of a folded
/// path and before the card's bottom cap.
pub open spec fn ends_shut(rows: Seq<Row>, folded: Set<Seq<char>>) -> bool
    decreases rows.len(),
{
    if rows.len() == 0 {
        false
    } else {
        match rows.last() {
            Row::FileHeader { path, .. } => folded.contains(path@),
            Row::CardEnd => false,
            _ => ends_shut(rows.drop_last(), folded),
        }
    }
}

/// Whether a row is a list entry: a card's header and its bottom cap always
/// are, any other row unless it is inside a folded card.
pub open spec fn is_entry(rows: Seq<Row>, folded: Set<Seq<char>>, at: int) -> bool {
    rows[at] is FileHeader || rows[at] is CardEnd || !ends_shut(rows.take(at), folded)
}

/// The rows that are list entries, in order.
pub open spec fn entries_of(rows: Seq<Row>, folded: Set<Seq<char>>) -> Seq<usize>
    decreases rows.len(),
{
    if rows.len() == 0 {
        Seq::empty()
    } else {
        let before = entries_of(rows.drop_last(), folded);
        let at = rows.len() - 1;
        if is_entry(rows, folded, at) {
            before.push(at as usize)
        } else {
            before
        }
    }
}

/// What the list keeps of a fold state. With nothing folded it keeps nothing,
/// which stands for every row.
pub open spec fn mapping_of(rows: Seq<Row>, folded: Set<Seq<char>>) -> Seq<usize> {
    if folded == Set::<Seq<char>>::empty() {
        Seq::empty()
    } else {
        entries_of(rows, folded)
    }
}

/// Whether rows are listed in order, each once.
pub open spec fn increasing(rows: Seq<usize>) -> bool {
    forall|i: int, j: int|
        0 <= i < j < rows.len() ==> (#[trigger] rows[i]) < (#[trigger] rows[j])
}

/// The entries of a stream are listed in order, and they are exactly the rows
/// that folding leaves.
pub proof fn entries_are_the_rows_left(rows: Seq<Row>, folded: Set<Seq<char>>)
    requires
        rows.len() <= usize::MAX,
    ensures
        increasing(entries_of(rows, folded)),
        forall|i: int|
            0 <= i < entries_of(rows, folded).len() ==> (#[trigger] entries_of(rows, folded)[i])
                < rows.len(),
        forall|r: int|
            0 <= r < rows.len() ==> (#[trigger] is_entry(rows, folded, r) <==> entries_of(
                rows,
                folded,
            ).contains(r as usize)),
    decreases rows.len(),
{
    if rows.len() > 0 {
        let init = rows.drop_last();
        let at = rows.len() - 1;
        entries_are_the_rows_left(init, folded);
        let before = entries_of(init, folded);
        let after = entries_of(rows, folded);
        assert forall|r: int| 0 <= r < rows.len() implies (#[trigger] is_entry(rows, folded, r)
            <==> after.contains(r as usize)) by {
            assert(init.take(r) =~= rows.take(r));
            if r < at {
                assert(init[r] == rows[r]);
                assert(is_entry(rows, folded, r) == is_entry(init, folded, r));
                if before.contains(r as usize) {
                    let i = choose|i: int| 0 <= i < before.len() && before[i] == r as usize;
                    assert(after[i] == r as usize);
                }
                if after.contains(r as usize) {
                    let i = choose|i: int| 0 <= i < after.len() && after[i] == r as usize;
                    if i < before.len() {
                        assert(before[i] == r as usize);
                    }
                }
            } else {
                if is_entry(rows, folded, at) {
                    assert(after[before.len() as int] == at as usize);
                } else if before.contains(at as usize) {
                    let i = choose|i: int| 0 <= i < before.len() && before[i] == at as usize;
                    assert(before[i] < init.len());
                }
            }
        }
    }
}

/// A folded card keeps its header and its bottom cap.
pub proof fn a_folded_card_keeps_its_ends(rows: Seq<Row>, folded: Set<Seq<char>>, at: int)
    requires
        rows.len() <= usize::MAX,
        0 <= at < rows.len(),
        rows[at] is FileHeader || rows[at] is CardEnd,
    ensures
        entries_of(rows, folded).contains(at as usize),
{
    entries_are_the_rows_left(rows, folded);
    assert(is_entry(rows, folded, at));
}

/// The mapping from entries to rows for a fold state.
pub fn map_folded(rows: &Vec<Row>, folded: &PathSet) -> (visible: Vec<usize>)
    ensures
        visible@ == mapping_of(rows@, folded@),
        increasing(visible@),
{
    let mut visible: Vec<usize> = Vec::new();
    if folded.is_empty() {
        return visible;
    }
    let mut hidden = false;
    let mut at: usize = 0;
    while at < rows.len()
        invariant
            at <= rows.len(),
            hidden == ends_shut(rows@.take(at as int), folded@),
            visible@ == entries_of(rows@.take(at as int), folded@),
        decreases rows.len() - at,
    {
        let ghost next = rows@.take(at + 1);
        assert(next.drop_last() =~= rows@.take(at as int));
        assert(next.take(at as int) =~= rows@.take(at as int));
        assert(next.last() == rows@[at as int]);
        match &rows[at] {
            Row::FileHeader { path, .. } => {
                hidden = folded.contains(path.as_str());
                visible.push(at);
            },
            Row::CardEnd => {
                hidden = false;
                visible.push(at);
            },
            _ => {
                if !hidden {
                    visible.push(at);
                }
            },
        }
        at += 1;
    }
    assert(rows@.take(rows@.len() as int) =~= rows@);
    proof {
        entries_are_the_rows_left(rows@, folded@);
    }
    visible
}

/// The row that an entry renders.
pub open spec fn row_of(visible: Seq<usize>, entry: int) -> Option<usize> {
    if visible.len() == 0 {
        Some(entry as usize)
    } else if 0 <= entry < visible.len() {
        Some(visible[entry])
    } else {
        None
    }
}

/// The row that an entry renders. Folding hides rows, so an entry index is not
/// a row index while any card is shut.
pub fn row_at(visible: &Vec<usize>, entry: usize) -> (row: Option<usize>)
    ensures
        row == row_of(visible@, entry as int),
{
    if visible.len() == 0 {
        Some(entry)
    } else if entry < visible.len() {
        Some(visible[entry])
    } else {
        None
    }
}

/// How many of the listed rows are at or before `row`.
fn count_up_to(visible: &Vec<usize>, row: usize) -> (n: usize)
    requires
        increasing(visible@),
    ensures
        n <= visible.len(),
        forall|i: int| 0 <= i < n ==> (#[trigger] visible@[i]) <= row,
        forall|i: int| n <= i < visible@.len() ==> (#[trigger] visible@[i]) > row,
{
    let mut lo: usize = 0;
    let mut hi: usize = visible.len();
    while lo < hi
        invariant
            increasing(visible@),
            lo <= hi <= visible.len(),
            forall|i: int| 0 <= i < lo ==> (#[trigger] visible@[i]) <= row,
            forall|i: int| hi <= i < visible@.len() ==> (#[trigger] visible@[i]) > row,
        decreases hi - lo,
    {
        let mid: usize = lo + (hi - lo) / 2;
        if visible[mid] <= row {
            lo = mid + 1;
        } else {
            hi = mid;
        }
    }
    lo
}

/// The entry that renders a row; `None` for a row that is folded away.
pub fn entry_of(visible: &Vec<usize>, row: usize) -> (entry: Option<usize>)
    requires
        increasing(visible@),
    ensures
        (match entry {
            Some(entry) => row_of(visible@, entry as int) == Some(row),
            None => forall|e: int| row_of(visible@, e) != Some(row) || e < 0,
        }),
{
    if visible.len() == 0 {
        return Some(row);
    }
    let n = count_up_to(visible, row);
    if n > 0 && visible[n - 1] == row {
        Some(n - 1)
    } else {
        assert forall|e: int| row_of(visible@, e) != Some(row) || e < 0 by {
            if 0 <= e < visible@.len() && visible@[e] == row {
                assert(e < n);
                assert(visible@[e] <= visible@[n - 1]);
                if e < n - 1 {
                    assert(visible@[e] < visible@[n - 1]);
                    assert(visible@[n - 1] <= row);
                }
            }
        }
        None
    }
}

/// Going from an entry to its row and back comes to the same entry.
pub proof fn entry_and_row_are_inverse(visible: Seq<usize>, a: int, b: int)
    requires
        increasing(visible),
        0 <= a <= usize::MAX,
        0 <= b <= usize::MAX,
        row_of(visible, a) is Some,
        row_of(visible, a) == row_of(visible, b),
    ensures
        a == b,
{
    if visible.len() > 0 {
        if a < b {
            assert(visible[a] < visible[b]);
        } else if b < a {
            assert(visible[b] < visible[a]);
        }
    }
}

/// Where the viewport starts after a remap: the entry of the row it started
/// on, or the last one before it when that row is folded away.
pub open spec fn is_remapped(visible: Seq<usize>, row: usize, entry: usize) -> bool {
    if visible.len() == 0 {
        entry == row
    } else {
        &&& entry < visible.len()
        &&& entry == 0 || visible[entry as int] <= row
        &&& entry + 1 < visible.len() ==> row < visible[entry + 1]
    }
}

/// Where the viewport starts after a remap.
pub fn remapped(visible: &Vec<usize>, row: usize) -> (entry: usize)
    requires
        increasing(visible@),
    ensures
        is_remapped(visible@, row, entry),
{
    if visible.len() == 0 {
        return row;
    }
    let n = count_up_to(visible, row);
    if n == 0 {
        0
    } else {
        n - 1
    }
}

/// Folding hides exactly the inside of a folded card: a row that is no header
/// and no cap is hidden where the last header or cap before it is the header of
/// a folded path, and shown where it is any other header, a cap, or nothing.
pub proof fn folding_hides_the_inside(rows: Seq<Row>, folded: Set<Seq<char>>, h: int, r: int)
    requires
        0 <= h < r < rows.len(),
        forall|k: int|
            h < k <= r ==> !((#[trigger] rows[k]) is FileHeader) && !(rows[k] is CardEnd),
        rows[h] is FileHeader || rows[h] is CardEnd,
    ensures
        is_entry(rows, folded, r) <==> !(rows[h] matches Row::FileHeader { path, .. }
            && folded.contains(path@)),
{
    lemma_ends_shut(rows.take(r), folded, h);
    assert(rows.take(r)[h] == rows[h]);
}

proof fn lemma_ends_shut(rows: Seq<Row>, folded: Set<Seq<char>>, h: int)
    requires
        0 <= h < rows.len(),
        forall|k: int|
            h < k < rows.len() ==> !((#[trigger] rows[k]) is FileHeader) && !(rows[k] is CardEnd),
        rows[h] is FileHeader || rows[h] is CardEnd,
    ensures
        ends_shut(rows, folded) <==> (rows[h] matches Row::FileHeader { path, .. }
            && folded.contains(path@)),
    decreases rows.len(),
{
    if h < rows.len() - 1 {
        let rest = rows.drop_last();
        assert forall|k: int| h < k < rest.len() implies !((#[trigger] rest[k]) is FileHeader)
            && !(rest[k] is CardEnd) by {
            assert(rest[k] == rows[k]);
        }
        assert(rest[h] == rows[h]);
        assert(rows[rows.len() - 1] == rows.last());
        lemma_ends_shut(rest, folded, h);
    } else {
        assert(rows.last() == rows[h]);
    }
}

/// Before the first header every row is shown.
pub proof fn rows_outside_cards_are_shown(rows: Seq<Row>, folded: Set<Seq<char>>, r: int)
    requires
        0 <= r < rows.len(),
        forall|k: int| 0 <= k <= r ==> !((#[trigger] rows[k]) is FileHeader),
    ensures
        is_entry(rows, folded, r),
{
    lemma_never_shut(rows.take(r), folded);
}

proof fn lemma_never_shut(rows: Seq<Row>, folded: Set<Seq<char>>)
    requires
        forall|k: int| 0 <= k < rows.len() ==> !((#[trigger] rows[k]) is FileHeader),
    ensures
        !ends_shut(rows, folded),
    decreases rows.len(),
{
    if rows.len() > 0 {
        let rest = rows.drop_last();
        assert forall|k: int| 0 <= k < rest.len() implies !((#[trigger] rest[k]) is FileHeader) by {
            assert(rest[k] == rows[k]);
        }
        assert(rows[rows.len() - 1] == rows.last());
        lemma_never_shut(rest, folded);
    }
}

/// With nothing folded every row is its own entry.
pub proof fn unfolded_rows_are_their_own_entries(rows: Seq<Row>, row: usize)
    ensures
        row_of(mapping_of(rows, Set::empty()), row as int) == Some(row),
{
}

} // verus!
