//! Where things are on screen: the row under the viewport's top edge, the row
//! under the pointer, and where the pinned card header sits.
//!
//! Positions are window coordinates in thousandths of a point.

use vstd::prelude::*;

verus! {

/// Height of the pinned header.
pub const STICKY_HEIGHT: i64 = 32_000;

/// The lead-in above a card header's box.
pub const FILE_HEADER_TOP_PADDING: i64 = 16_000;

/// The pinned header rests this far below the top of the scroll area.
pub const STICKY_TOP_GAP: i64 = 8_000;

/// Height of the pinned header's shadow, above it and below it alike.
pub const STICKY_SHADOW: i64 = 12_000;

/// Where a card's bottom edge ends within its last row.
pub const CARD_END_EDGE: i64 = 9_000;

/// Scroll distance over which the pinned header's shadow ramps in.
pub const STICKY_FADE: i64 = 6_000;

/// The band of a drawn entry: its top, relative to the viewport's top edge, and
/// its height.
#[derive(Clone, Copy, Debug, PartialEq, Eq, Structural)]
pub struct Band {
    pub entry: usize,
    pub top: i64,
    pub height: i64,
}

/// Whether a band reaches below the viewport's top edge. One of no height never
/// does, wherever it lies.
pub open spec fn crosses(band: Band) -> bool {
    band.height > 0 && band.top + band.height > 0
}

/// The drawn entry under the viewport's top edge: the lowest one whose band
/// still crosses it. A band of no height is never picked.
pub fn anchor_entry(bands: &Vec<Band>) -> (anchor: Option<usize>)
    ensures
        (match anchor {
            Some(entry) => {
                &&& exists|i: int|
                    0 <= i < bands@.len() && crosses(#[trigger] bands@[i]) && bands@[i].entry
                        == entry
                &&& forall|i: int|
                    0 <= i < bands@.len() && crosses(#[trigger] bands@[i]) ==> entry
                        <= bands@[i].entry
            },
            None => forall|i: int| 0 <= i < bands@.len() ==> !crosses(#[trigger] bands@[i]),
        }),
{
    let mut anchor: Option<usize> = None;
    let mut i: usize = 0;
    while i < bands.len()
        invariant
            i <= bands.len(),
            (match anchor {
                Some(entry) => {
                    &&& exists|k: int|
                        0 <= k < i && crosses(#[trigger] bands@[k]) && bands@[k].entry == entry
                    &&& forall|k: int|
                        0 <= k < i && crosses(#[trigger] bands@[k]) ==> entry <= bands@[k].entry
                },
                None => forall|k: int| 0 <= k < i ==> !crosses(#[trigger] bands@[k]),
            }),
        decreases bands.len() - i,
    {
        let band = bands[i];
        if band.height > 0 && band.top as i128 + band.height as i128 > 0 {
            assert(crosses(bands@[i as int]));
            anchor = match anchor {
                Some(entry) => if band.entry < entry {
                    Some(band.entry)
                } else {
                    Some(entry)
                },
                None => Some(band.entry),
            };
        }
        i += 1;
    }
    anchor
}

/// The pinned header's offset from the top of the scroll area, and how far its
/// shadow has ramped in, out of [`STICKY_FADE`].
#[derive(Clone, Copy, Debug, PartialEq, Eq, Structural)]
pub struct StickyOffsets {
    pub push: i64,
    pub lift: i64,
}

/// A number held between two bounds.
pub open spec fn clamp(x: int, lo: int, hi: int) -> int {
    if x < lo {
        lo
    } else if x > hi {
        hi
    } else {
        x
    }
}

/// Where the pinned header sits: on the real header while that is below the
/// resting gap; else at the gap, or as far above it as the card's bottom edge
/// has pushed it, but never more than its own height past the top.
pub open spec fn push_of(header_top: Option<i64>, end_top: Option<i64>) -> int {
    let natural = match header_top {
        Some(top) => top + FILE_HEADER_TOP_PADDING,
        None => STICKY_TOP_GAP as int,
    };
    if natural > STICKY_TOP_GAP {
        natural
    } else {
        match end_top {
            Some(top) => clamp(
                top + CARD_END_EDGE - STICKY_HEIGHT,
                -STICKY_HEIGHT,
                STICKY_TOP_GAP as int,
            ),
            None => STICKY_TOP_GAP as int,
        }
    }
}

/// How far the shadow has ramped in: none while the copy rests on the real
/// header, all of it once that has gone a fade's length above the gap or is
/// not drawn.
pub open spec fn lift_of(header_top: Option<i64>) -> int {
    match header_top {
        Some(top) => clamp(
            STICKY_TOP_GAP - (top + FILE_HEADER_TOP_PADDING),
            0,
            STICKY_FADE as int,
        ),
        None => STICKY_FADE as int,
    }
}

/// The pinned header's offset and shadow, from where the owning card's header
/// and end rows sit; `None` is a row that was not drawn.
pub fn sticky_offsets(header_top: Option<i64>, end_top: Option<i64>) -> (o: StickyOffsets)
    requires
        header_top matches Some(top) ==> top <= i64::MAX - FILE_HEADER_TOP_PADDING,
        end_top matches Some(top) ==> i64::MIN + STICKY_HEIGHT <= top <= i64::MAX - CARD_END_EDGE,
    ensures
        o.push == push_of(header_top, end_top),
        o.lift == lift_of(header_top),
{
    let natural: Option<i64> = match header_top {
        Some(top) => Some(top + FILE_HEADER_TOP_PADDING),
        None => None,
    };
    let arrive: i64 = match natural {
        Some(top) => if top > STICKY_TOP_GAP {
            top
        } else {
            STICKY_TOP_GAP
        },
        None => STICKY_TOP_GAP,
    };
    let leave: i64 = match end_top {
        Some(top) => {
            let edge: i64 = top + CARD_END_EDGE - STICKY_HEIGHT;
            if edge < -STICKY_HEIGHT {
                -STICKY_HEIGHT
            } else if edge > STICKY_TOP_GAP {
                STICKY_TOP_GAP
            } else {
                edge
            }
        },
        None => STICKY_TOP_GAP,
    };
    let push: i64 = if arrive > STICKY_TOP_GAP {
        arrive
    } else {
        leave
    };
    let lift: i64 = match natural {
        Some(top) => {
            let above: i64 = STICKY_TOP_GAP - top;
            if above < 0 {
                0
            } else if above > STICKY_FADE {
                STICKY_FADE
            } else {
                above
            }
        },
        None => STICKY_FADE,
    };
    StickyOffsets { push, lift }
}

/// The shadow ramps continuously: moving the header by a distance changes the
/// shadow by at most that distance, so there is no scroll position at which it
/// suddenly appears.
pub proof fn the_shadow_has_no_step(a: i64, b: i64)
    ensures
        lift_of(Some(a)) - lift_of(Some(b)) <= (if a < b {
            b - a
        } else {
            a - b
        }),
{
}

/// The pinned header never rises past its own height, and while the real
/// header is below the gap it sits exactly on it.
pub proof fn the_copy_rides_and_leaves(header_top: Option<i64>, end_top: Option<i64>)
    ensures
        push_of(header_top, end_top) >= -STICKY_HEIGHT,
        header_top matches Some(top) && top + FILE_HEADER_TOP_PADDING > STICKY_TOP_GAP ==> push_of(
            header_top,
            end_top,
        ) == header_top->0 + FILE_HEADER_TOP_PADDING && lift_of(header_top) == 0,
{
}

/// A drawn code row and the band of the window it occupies, its bottom edge not
/// included.
#[derive(Clone, Copy, Debug, PartialEq, Eq, Structural)]
pub struct DrawnRow {
    pub row: usize,
    pub top: i64,
    pub bottom: i64,
}

/// Whether a position is in a row's band.
pub open spec fn in_band(drawn: DrawnRow, y: i64) -> bool {
    drawn.top <= y < drawn.bottom
}

/// The row a position falls on: the first one whose band it is in; else the
/// first row for a position above it, and the last row for any other.
pub open spec fn row_under(drawn: Seq<DrawnRow>, y: i64) -> Option<usize> {
    if exists|i: int| 0 <= i < drawn.len() && in_band(#[trigger] drawn[i], y) {
        Some(drawn[first_in_band(drawn, y)].row)
    } else if drawn.len() == 0 {
        None
    } else if y < drawn[0].top {
        Some(drawn[0].row)
    } else {
        Some(drawn.last().row)
    }
}

/// The first row whose band a position is in.
pub open spec fn first_in_band(drawn: Seq<DrawnRow>, y: i64) -> int
    decreases drawn.len(),
{
    if drawn.len() == 0 || in_band(drawn[0], y) {
        0
    } else {
        1 + first_in_band(drawn.drop_first(), y)
    }
}

/// Which row a window position falls on, from what was drawn. A position above
/// or below every drawn row clamps to the nearest, so that dragging past the
/// edge of the viewport extends to the edge.
pub fn row_at_y(drawn: &Vec<DrawnRow>, y: i64) -> (row: Option<usize>)
    ensures
        row == row_under(drawn@, y),
{
    let mut i: usize = 0;
    assert(drawn@.skip(0) =~= drawn@);
    while i < drawn.len()
        invariant
            i <= drawn.len(),
            forall|k: int| 0 <= k < i ==> !in_band(#[trigger] drawn@[k], y),
            first_in_band(drawn@, y) == i + first_in_band(drawn@.skip(i as int), y),
        decreases drawn.len() - i,
    {
        assert(drawn@.skip(i as int).drop_first() =~= drawn@.skip(i + 1));
        if drawn[i].top <= y && y < drawn[i].bottom {
            assert(in_band(drawn@[i as int], y));
            return Some(drawn[i].row);
        }
        i += 1;
    }
    if drawn.len() == 0 {
        None
    } else if y < drawn[0].top {
        Some(drawn[0].row)
    } else {
        Some(drawn[drawn.len() - 1].row)
    }
}

/// A position falls on the first row whose band it is in; above every band on
/// the first row, and below on the last; and on none only where none is drawn.
pub proof fn a_position_falls_on_a_row(drawn: Seq<DrawnRow>, y: i64)
    ensures
        row_under(drawn, y) is None <==> drawn.len() == 0,
        forall|i: int|
            0 <= i < drawn.len() && (#[trigger] drawn[i]).top <= y < drawn[i].bottom && (forall|
                k: int,
            |
                0 <= k < i ==> !((#[trigger] drawn[k]).top <= y < drawn[k].bottom)) ==> row_under(
                drawn,
                y,
            ) == Some(drawn[i].row),
        drawn.len() > 0 && (forall|i: int| 0 <= i < drawn.len() ==> y < (#[trigger] drawn[i]).top)
            ==> row_under(drawn, y) == Some(drawn[0].row),
        drawn.len() > 0 && (forall|i: int|
            0 <= i < drawn.len() ==> (#[trigger] drawn[i]).top <= y && drawn[i].bottom <= y)
            ==> row_under(drawn, y) == Some(drawn.last().row),
{
    assert forall|i: int|
        0 <= i < drawn.len() && (#[trigger] drawn[i]).top <= y < drawn[i].bottom && (forall|k: int|
            0 <= k < i ==> !((#[trigger] drawn[k]).top <= y < drawn[k].bottom)) implies row_under(
        drawn,
        y,
    ) == Some(drawn[i].row) by {
        assert(in_band(drawn[i], y));
        lemma_first_in_band(drawn, y, i);
    }
    if drawn.len() > 0 && (forall|i: int| 0 <= i < drawn.len() ==> y < (#[trigger] drawn[i]).top) {
        assert forall|i: int| 0 <= i < drawn.len() implies !in_band(#[trigger] drawn[i], y) by {}
    }
    if drawn.len() > 0 && (forall|i: int|
        0 <= i < drawn.len() ==> (#[trigger] drawn[i]).top <= y && drawn[i].bottom <= y) {
        assert forall|i: int| 0 <= i < drawn.len() implies !in_band(#[trigger] drawn[i], y) by {}
        assert(drawn[0].top <= y);
    }
}

proof fn lemma_first_in_band(drawn: Seq<DrawnRow>, y: i64, i: int)
    requires
        0 <= i < drawn.len(),
        in_band(drawn[i], y),
        forall|k: int| 0 <= k < i ==> !((#[trigger] drawn[k]).top <= y < drawn[k].bottom),
    ensures
        first_in_band(drawn, y) == i,
    decreases drawn.len(),
{
    if i > 0 {
        let rest = drawn.drop_first();
        assert(!in_band(drawn[0], y));
        assert(rest[i - 1] == drawn[i]);
        assert forall|k: int| 0 <= k < i - 1 implies !((#[trigger] rest[k]).top <= y
            < rest[k].bottom) by {
            assert(rest[k] == drawn[k + 1]);
        }
        lemma_first_in_band(rest, y, i - 1);
    }
}

/// While a card's bottom is far below, the pinned header stands at its gap; as
/// the bottom comes up it is pushed out with it.
pub proof fn the_next_card_pushes_the_header_out(header_top: i64, end_top: i64)
    requires
        header_top + FILE_HEADER_TOP_PADDING <= STICKY_TOP_GAP,
    ensures
        end_top + CARD_END_EDGE >= STICKY_TOP_GAP + STICKY_HEIGHT ==> push_of(
            Some(header_top),
            Some(end_top),
        ) == STICKY_TOP_GAP,
        0 <= end_top + CARD_END_EDGE <= STICKY_TOP_GAP + STICKY_HEIGHT ==> push_of(
            Some(header_top),
            Some(end_top),
        ) + STICKY_HEIGHT == end_top + CARD_END_EDGE,
        push_of(Some(header_top), None) == STICKY_TOP_GAP,
{
}

} // verus!
