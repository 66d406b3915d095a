//! File cards over a flat row stream: where each card begins and ends, which
//! changed lines it covers, and which rows folding leaves.

use crate::diff::{KeySet, LineKey, Row};
use vstd::prelude::*;

verus! {

/// A file card: the row of its header, the row of its bottom cap, and the
/// changed lines of the hunks between them.
pub struct Card {
    pub header: int,
    pub end: int,
    pub keys: Seq<LineKey>,
}

/// The file cards of a row stream, in order. A header opens a card; hunks and
/// caps belong to the card opened last.
pub open spec fn cards_of(rows: Seq<Row>) -> Seq<Card>
    decreases rows.len(),
{
    if rows.len() == 0 {
        Seq::empty()
    } else {
        let before = cards_of(rows.drop_last());
        let at = rows.len() - 1;
        match rows.last() {
            Row::FileHeader { .. } => before.push(
                Card { header: at, end: at, keys: Seq::empty() },
            ),
            Row::HunkBar { keys } => if before.len() == 0 {
                before
            } else {
                before.drop_last().push(
                    Card { keys: before.last().keys + keys@, ..before.last() },
                )
            },
            Row::CardEnd => if before.len() == 0 {
                before
            } else {
                before.drop_last().push(Card { end: at, ..before.last() })
            },
            _ => before,
        }
    }
}

/// Whether cards stand one after another: each ends at or after its header and
/// before the next one's.
pub open spec fn in_sequence(cards: Seq<Card>, len: int) -> bool {
    &&& forall|i: int|
        0 <= i < cards.len() ==> 0 <= (#[trigger] cards[i]).header <= cards[i].end < len
    &&& forall|i: int, j: int|
        0 <= i < j < cards.len() ==> (#[trigger] cards[i]).end < (#[trigger] cards[j]).header
}

/// The cards of a stream stand one after another and inside it.
pub proof fn cards_stand_in_sequence(rows: Seq<Row>)
    ensures
        in_sequence(cards_of(rows), rows.len() as int),
    decreases rows.len(),
{
    if rows.len() > 0 {
        cards_stand_in_sequence(rows.drop_last());
        let before = cards_of(rows.drop_last());
        let after = cards_of(rows);
        let at = rows.len() - 1;
        match rows.last() {
            Row::FileHeader { .. } => {
                assert forall|i: int, j: int| 0 <= i < j < after.len() implies (
                #[trigger] after[i]).end < (#[trigger] after[j]).header by {
                    assert(after[i] == before[i]);
                    if j < before.len() {
                        assert(after[j] == before[j]);
                    }
                }
            },
            Row::HunkBar { .. } | Row::CardEnd => {
                if before.len() > 0 {
                    let last = before.len() - 1;
                    assert(after[last].header == before[last].header);
                    assert forall|i: int| 0 <= i < last implies after[i] == before[i] by {}
                    assert forall|i: int, j: int| 0 <= i < j < after.len() implies (
                    #[trigger] after[i]).end < (#[trigger] after[j]).header by {
                        assert(after[i] == before[i]);
                        assert(before[i].end < before[j].header);
                    }
                }
            },
            _ => {},
        }
    }
}

/// A card as the list keeps it, with how much of it has been seen.
#[derive(Debug)]
pub struct CardMeta {
    pub header: usize,
    pub end: usize,
    pub keys: Vec<LineKey>,
    pub all_seen: bool,
    pub any_seen: bool,
}

impl CardMeta {
    /// The card itself.
    pub open spec fn card(&self) -> Card {
        Card { header: self.header as int, end: self.end as int, keys: self.keys@ }
    }
}

/// The cards of a list of [`CardMeta`].
pub open spec fn cards_in(metas: Seq<CardMeta>) -> Seq<Card> {
    Seq::new(metas.len(), |i: int| metas[i].card())
}

/// The file cards of a stream, rebuilt only when the stream changes.
#[derive(Debug)]
pub struct CardIndex {
    pub cards: Vec<CardMeta>,
}

impl CardIndex {
    /// The cards, as the stream has them, without the marks of what has been seen.
    pub open spec fn view(&self) -> Seq<Card> {
        cards_in(self.cards@)
    }

    /// Whether the cards stand one after another.
    pub open spec fn wf(&self) -> bool {
        in_sequence(self@, usize::MAX as int)
    }

    /// An index of no cards.
    pub fn new() -> (index: CardIndex)
        ensures
            index@ == Seq::<Card>::empty(),
            index.wf(),
    {
        let index = CardIndex { cards: Vec::new() };
        assert(index@ =~= Seq::<Card>::empty());
        index
    }

    /// Reads the cards off a stream. None of them counts as seen yet.
    pub fn rebuild(&mut self, rows: &Vec<Row>)
        ensures
            final(self)@ == cards_of(rows@),
            final(self).wf(),
            forall|i: int|
                0 <= i < final(self).cards@.len() ==> !(#[trigger] final(self).cards@[i]).all_seen
                    && !final(self).cards@[i].any_seen,
    {
        let mut cards: Vec<CardMeta> = Vec::new();
        let mut at: usize = 0;
        assert(cards_in(cards@) =~= Seq::<Card>::empty());
        while at < rows.len()
            invariant
                at <= rows.len(),
                cards_in(cards@) == cards_of(rows@.take(at as int)),
                forall|i: int|
                    0 <= i < cards@.len() ==> !(#[trigger] cards@[i]).all_seen
                        && !cards@[i].any_seen,
            decreases rows.len() - at,
        {
            let ghost before = cards_in(cards@);
            let ghost next = rows@.take(at + 1);
            assert(next.drop_last() =~= rows@.take(at as int));
            assert(next.last() == rows@[at as int]);
            match &rows[at] {
                Row::FileHeader { .. } => {
                    let meta = CardMeta {
                        header: at,
                        end: at,
                        keys: Vec::new(),
                        all_seen: false,
                        any_seen: false,
                    };
                    cards.push(meta);
                    assert(cards_in(cards@) =~= cards_of(next));
                },
                Row::HunkBar { keys } => {
                    match cards.pop() {
                        Some(mut meta) => {
                            assert(cards_in(cards@) =~= before.drop_last());
                            assert(before.last() == meta.card());
                            extend_keys(&mut meta.keys, keys);
                            cards.push(meta);
                            assert(cards_in(cards@) =~= cards_of(next));
                        },
                        None => {
                            assert(cards_in(cards@) =~= cards_of(next));
                        },
                    }
                },
                Row::CardEnd => {
                    match cards.pop() {
                        Some(mut meta) => {
                            assert(cards_in(cards@) =~= before.drop_last());
                            assert(before.last() == meta.card());
                            meta.end = at;
                            cards.push(meta);
                            assert(cards_in(cards@) =~= cards_of(next));
                        },
                        None => {
                            assert(cards_in(cards@) =~= cards_of(next));
                        },
                    }
                },
                _ => {},
            }
            at += 1;
        }
        assert(rows@.take(rows@.len() as int) =~= rows@);
        proof {
            cards_stand_in_sequence(rows@);
        }
        self.cards = cards;
    }

    /// The first card whose header is after `row`.
    fn after(&self, row: usize) -> (at: usize)
        requires
            self.wf(),
        ensures
            at <= self.cards@.len(),
            forall|i: int| 0 <= i < at ==> (#[trigger] self.cards@[i]).header <= row,
            forall|i: int|
                at <= i < self.cards@.len() ==> (#[trigger] self.cards@[i]).header > row,
    {
        let mut lo: usize = 0;
        let mut hi: usize = self.cards.len();
        while lo < hi
            invariant
                self.wf(),
                lo <= hi <= self.cards@.len(),
                forall|i: int| 0 <= i < lo ==> (#[trigger] self.cards@[i]).header <= row,
                forall|i: int|
                    hi <= i < self.cards@.len() ==> (#[trigger] self.cards@[i]).header > row,
            decreases hi - lo,
        {
            let mid: usize = lo + (hi - lo) / 2;
            if self.cards[mid].header <= row {
                assert forall|i: int| 0 <= i < mid + 1 implies (#[trigger] self.cards@[i]).header
                    <= row by {
                    if i < mid {
                        assert(self@[i].end < self@[mid as int].header);
                        assert(self@[i].header <= self@[i].end);
                    }
                }
                lo = mid + 1;
            } else {
                assert forall|i: int| mid <= i < self.cards@.len() implies (
                #[trigger] self.cards@[i]).header > row by {
                    if i > mid {
                        assert(self@[mid as int].end < self@[i].header);
                        assert(self@[mid as int].header <= self@[mid as int].end);
                    }
                }
                hi = mid;
            }
        }
        lo
    }

    /// The card that a row is in, its header and its bottom cap included.
    pub fn containing(&self, row: usize) -> (card: Option<usize>)
        requires
            self.wf(),
        ensures
            (match card {
                Some(i) => i < self@.len() && self@[i as int].header <= row <= self@[i as int].end,
                None => forall|i: int|
                    0 <= i < self@.len() ==> !((#[trigger] self@[i]).header <= row
                        <= self@[i].end),
            }),
    {
        let at = self.after(row);
        if at > 0 && row <= self.cards[at - 1].end {
            assert(self@[at - 1].header == self.cards@[at - 1].header);
            Some(at - 1)
        } else {
            assert forall|i: int| 0 <= i < self@.len() implies !((#[trigger] self@[i]).header
                <= row <= self@[i].end) by {
                if i < at - 1 {
                    assert(self@[i].end < self@[at - 1].header);
                    assert(self.cards@[at - 1].header <= row);
                } else if i >= at {
                    assert(self.cards@[i].header > row);
                }
            }
            None
        }
    }

    /// The card whose header is this row.
    pub fn at(&self, header: usize) -> (card: Option<usize>)
        requires
            self.wf(),
        ensures
            (match card {
                Some(i) => i < self@.len() && self@[i as int].header == header,
                None => forall|i: int|
                    0 <= i < self@.len() ==> (#[trigger] self@[i]).header != header,
            }),
    {
        let at = self.after(header);
        if at > 0 && self.cards[at - 1].header == header {
            Some(at - 1)
        } else {
            assert forall|i: int| 0 <= i < self@.len() implies (#[trigger] self@[i]).header
                != header by {
                if i < at - 1 {
                    assert(self@[i].end < self@[at - 1].header);
                    assert(self.cards@[at - 1].header <= header);
                } else if i >= at {
                    assert(self.cards@[i].header > header);
                }
            }
            None
        }
    }

    /// Reads off how much of each card has been seen: all of it when it has
    /// changed lines and every one is in the set, any of it when one is.
    pub fn update_seen(&mut self, seen: &KeySet)
        ensures
            final(self)@ == old(self)@,
            forall|i: int|
                0 <= i < final(self).cards@.len() ==> {
                    let meta = #[trigger] final(self).cards@[i];
                    &&& meta.all_seen == all_in(meta.keys@, seen@)
                    &&& meta.any_seen == any_in(meta.keys@, seen@)
                },
    {
        let mut i: usize = 0;
        while i < self.cards.len()
            invariant
                i <= self.cards.len(),
                self@ == old(self)@,
                forall|k: int|
                    0 <= k < i ==> {
                        let meta = #[trigger] self.cards@[k];
                        &&& meta.all_seen == all_in(meta.keys@, seen@)
                        &&& meta.any_seen == any_in(meta.keys@, seen@)
                    },
            decreases self.cards.len() - i,
        {
            let ghost was = self@;
            let (all, any) = tally(&self.cards[i].keys, seen);
            self.cards[i].all_seen = all;
            self.cards[i].any_seen = any;
            assert(self@ =~= was);
            i += 1;
        }
    }
}

/// Whether a card's changed lines have all been seen; a card without any has
/// not.
pub open spec fn all_in(keys: Seq<LineKey>, seen: Set<LineKey>) -> bool {
    keys.len() > 0 && forall|i: int| 0 <= i < keys.len() ==> seen.contains(#[trigger] keys[i])
}

/// Whether one of a card's changed lines has been seen.
pub open spec fn any_in(keys: Seq<LineKey>, seen: Set<LineKey>) -> bool {
    exists|i: int| 0 <= i < keys.len() && seen.contains(#[trigger] keys[i])
}

/// [`all_in`] and [`any_in`], in one pass.
fn tally(keys: &Vec<LineKey>, seen: &KeySet) -> (r: (bool, bool))
    ensures
        r.0 == all_in(keys@, seen@),
        r.1 == any_in(keys@, seen@),
{
    let mut all = keys.len() > 0;
    let mut any = false;
    let mut i: usize = 0;
    while i < keys.len()
        invariant
            i <= keys.len(),
            all == (keys@.len() > 0 && forall|k: int|
                0 <= k < i ==> seen@.contains(#[trigger] keys@[k])),
            any == exists|k: int| 0 <= k < i && seen@.contains(#[trigger] keys@[k]),
        decreases keys.len() - i,
    {
        if seen.contains(&keys[i]) {
            any = true;
        } else {
            all = false;
        }
        i += 1;
    }
    (all, any)
}

fn extend_keys(keys: &mut Vec<LineKey>, more: &Vec<LineKey>)
    ensures
        final(keys)@ == old(keys)@ + more@,
{
    let mut i: usize = 0;
    while i < more.len()
        invariant
            i <= more.len(),
            keys@ =~= old(keys)@ + more@.take(i as int),
        decreases more.len() - i,
    {
        keys.push(more[i]);
        i += 1;
    }
    assert(more@.take(more@.len() as int) =~= more@);
}

/// Every header opens a card, and every card is opened by a header.
pub proof fn every_header_opens_a_card(rows: Seq<Row>)
    ensures
        forall|r: int|
            0 <= r < rows.len() ==> ((#[trigger] rows[r]) is FileHeader <==> exists|i: int|
                0 <= i < cards_of(rows).len() && (#[trigger] cards_of(rows)[i]).header == r),
    decreases rows.len(),
{
    if rows.len() > 0 {
        let rest = rows.drop_last();
        let before = cards_of(rest);
        let after = cards_of(rows);
        let at = rows.len() - 1;
        every_header_opens_a_card(rest);
        cards_stand_in_sequence(rest);
        assert(rows[at] == rows.last());
        assert forall|i: int| 0 <= i < before.len() implies (#[trigger] after[i]).header
            == before[i].header by {
            if i < before.len() - 1 {
                assert(after[i] == before[i]);
            }
        }
        assert(after.len() == before.len() || (rows.last() is FileHeader && after.len()
            == before.len() + 1 && after[before.len() as int].header == at));
        assert forall|r: int| 0 <= r < rows.len() implies ((#[trigger] rows[r]) is FileHeader
            <==> exists|i: int| 0 <= i < after.len() && (#[trigger] after[i]).header == r) by {
            if r < at {
                assert(rest[r] == rows[r]);
                if rows[r] is FileHeader {
                    let i = choose|i: int|
                        0 <= i < before.len() && (#[trigger] before[i]).header == r;
                    assert(after[i].header == r);
                }
                if exists|i: int| 0 <= i < after.len() && (#[trigger] after[i]).header == r {
                    let i = choose|i: int| 0 <= i < after.len() && (#[trigger] after[i]).header == r;
                    if i < before.len() {
                        assert(before[i].header == r);
                    }
                }
            } else {
                if exists|i: int| 0 <= i < after.len() && (#[trigger] after[i]).header == r {
                    let i = choose|i: int| 0 <= i < after.len() && (#[trigger] after[i]).header == r;
                    if i < before.len() {
                        assert(before[i].header == r);
                    }
                }
            }
        }
    }
}

/// Whether a card is the one that a row belongs to: its header stands before the
/// row, and the next card's behind it.
pub open spec fn belongs(cards: Seq<Card>, i: int, r: int) -> bool {
    &&& 0 <= i < cards.len()
    &&& cards[i].header < r
    &&& i + 1 < cards.len() ==> r < cards[i + 1].header
}

/// The changed lines of a hunk are those of the card above it, all of them, and
/// a card reaches down to its cap.
pub proof fn a_hunk_is_in_the_card_above(rows: Seq<Row>, h: int, r: int)
    requires
        0 <= h < r < rows.len(),
        rows[h] is FileHeader,
        rows[r] is HunkBar || rows[r] is CardEnd,
    ensures
        exists|i: int| #[trigger]
            belongs(cards_of(rows), i, r) && match rows[r] {
                Row::HunkBar { keys } => forall|k: int|
                    0 <= k < keys@.len() ==> cards_of(rows)[i].keys.contains(#[trigger] keys@[k]),
                _ => r <= cards_of(rows)[i].end,
            },
    decreases rows.len(),
{
    let rest = rows.drop_last();
    let before = cards_of(rest);
    let after = cards_of(rows);
    let at = rows.len() - 1;
    cards_stand_in_sequence(rest);
    cards_stand_in_sequence(rows);
    assert(rest[h] == rows[h]);
    every_header_opens_a_card(rest);
    let top = choose|i: int| 0 <= i < before.len() && (#[trigger] before[i]).header == h;
    assert(before.len() > 0);
    if r < at {
        a_hunk_is_in_the_card_above(rest, h, r);
        assert(rest[r] == rows[r]);
        let i = choose|i: int| #[trigger]
            belongs(before, i, r) && match rest[r] {
                Row::HunkBar { keys } => forall|k: int|
                    0 <= k < keys@.len() ==> before[i].keys.contains(#[trigger] keys@[k]),
                _ => r <= before[i].end,
            };
        assert(after[i].header == before[i].header);
        assert(before[i].end <= after[i].end);
        if i + 1 < before.len() {
            assert(after[i + 1].header == before[i + 1].header);
        }
        assert(belongs(after, i, r));
        if let Row::HunkBar { keys } = rows[r] {
            assert forall|k: int| 0 <= k < keys@.len() implies after[i].keys.contains(
                #[trigger] keys@[k],
            ) by {
                let was = before[i].keys;
                assert(was.contains(keys@[k]));
                let j = choose|j: int| 0 <= j < was.len() && was[j] == keys@[k];
                assert(after[i].keys[j] == keys@[k]);
            }
        }
    } else {
        let i = before.len() - 1;
        assert(rows.last() == rows[r]);
        assert(before[i].header < at);
        assert(belongs(after, i, r));
        if let Row::HunkBar { keys } = rows[r] {
            assert forall|k: int| 0 <= k < keys@.len() implies after[i].keys.contains(
                #[trigger] keys@[k],
            ) by {
                assert(after[i].keys[before[i].keys.len() + k] == keys@[k]);
            }
        }
    }
}

/// A card counts as seen when each of its changed lines is, and it has one; and
/// as begun when one of them is.
pub proof fn a_card_is_seen_line_by_line(keys: Seq<LineKey>, seen: Set<LineKey>)
    ensures
        all_in(keys, seen) ==> any_in(keys, seen),
        keys.len() == 0 ==> !all_in(keys, seen) && !any_in(keys, seen),
        all_in(keys, seen) ==> forall|i: int|
            0 <= i < keys.len() ==> seen.contains(#[trigger] keys[i]),
        keys.len() > 0 && !all_in(keys, seen) ==> exists|i: int|
            0 <= i < keys.len() && !seen.contains(#[trigger] keys[i]),
        any_in(keys, seen) <==> exists|i: int|
            0 <= i < keys.len() && seen.contains(#[trigger] keys[i]),
{
    if all_in(keys, seen) {
        assert(seen.contains(keys[0]));
    }
}

} // verus!
