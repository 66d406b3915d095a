//! Scrolling a list of items that may be higher than the list.

use crate::geometry::{add_capped, capped, Rect};
use tui_widget_list::ListState;
use vstd::prelude::*;

verus! {

/// The state of a list of `tui_widget_list`.
#[verifier::external_type_specification]
#[verifier::external_body]
pub struct ExListState(tui_widget_list::ListState);

/// What the state of a list holds.
pub struct ListModel {
    pub selected: Option<usize>,
    /// How many items there are.
    pub len: usize,
    /// Whether the last item is followed by the first.
    pub wraps: bool,
    /// How far the list is scrolled into the selected item.
    pub scroll: u16,
    /// By how much items are higher than the list.
    pub overflow: Map<usize, u16>,
    /// Which item the cells of the list show, by column and row.
    pub hits: Map<(u16, u16), usize>,
}

/// What the state of a list holds.
pub uninterp spec fn list_of(s: ListState) -> ListModel;

/// By how much an item is higher than the list.
pub open spec fn overflow_of(m: ListModel, index: usize) -> u16 {
    if m.overflow.contains_key(index) {
        m.overflow[index]
    } else {
        0
    }
}

/// An item is selected, from its top.
pub open spec fn with_selected(m: ListModel, index: usize) -> ListModel {
    ListModel { selected: Some(index), scroll: 0, ..m }
}

/// One row on: within an item that is higher than the list, and else to the
/// next item.
pub open spec fn after_next(m: ListModel) -> ListModel {
    if m.len == 0 {
        m
    } else {
        match m.selected {
            Some(i) => if m.scroll < overflow_of(m, i) {
                ListModel { scroll: (m.scroll + 1) as u16, ..m }
            } else if i < m.len - 1 {
                with_selected(m, (i + 1) as usize)
            } else if m.wraps {
                with_selected(m, 0)
            } else {
                with_selected(m, i)
            },
            None => with_selected(m, 0),
        }
    }
}

/// One row back: within an item, and else to the end of the one before.
pub open spec fn after_previous(m: ListModel) -> ListModel {
    if m.len == 0 {
        m
    } else if m.scroll > 0 {
        ListModel { scroll: (m.scroll - 1) as u16, ..m }
    } else {
        let i = match m.selected {
            Some(i) => if i > 0 {
                (i - 1) as usize
            } else if m.wraps {
                (m.len - 1) as usize
            } else {
                i
            },
            None => (m.len - 1) as usize,
        };
        ListModel { selected: Some(i), scroll: overflow_of(m, i), ..m }
    }
}

/// The item that a cell shows.
pub open spec fn item_at(m: ListModel, column: u16, row: u16) -> Option<usize> {
    if m.hits.contains_key((column, row)) {
        Some(m.hits[(column, row)])
    } else {
        None
    }
}

/// A list that was never drawn.
pub open spec fn undrawn() -> ListModel {
    ListModel {
        selected: None,
        len: 0,
        wraps: true,
        scroll: 0,
        overflow: Map::empty(),
        hits: Map::empty(),
    }
}

/// `ListState::default` of `tui_widget_list`: nothing is selected, and nothing
/// has been drawn.
#[verifier::external_body]
pub(crate) fn new_list() -> (s: ListState)
    ensures
        list_of(s) == undrawn(),
{
    ListState::default()
}

/// The field `selected` of `ListState` of `tui_widget_list`.
#[verifier::external_body]
pub(crate) fn selected_item(s: &ListState) -> (r: Option<usize>)
    ensures
        r == list_of(*s).selected,
{
    s.selected
}

/// `ListState::select` of `tui_widget_list`, for an item: it is selected, from
/// its top, and nothing else changes.
#[verifier::external_body]
pub(crate) fn select_item(s: &mut ListState, index: usize)
    ensures
        list_of(*final(s)) == with_selected(list_of(*old(s)), index),
{
    s.select(Some(index));
}

/// `ListState::next` of `tui_widget_list`: one row on.
#[verifier::external_body]
fn next_item(s: &mut ListState)
    ensures
        list_of(*final(s)) == after_next(list_of(*old(s))),
{
    s.next();
}

/// `ListState::previous` of `tui_widget_list`: one row back.
#[verifier::external_body]
fn previous_item(s: &mut ListState)
    ensures
        list_of(*final(s)) == after_previous(list_of(*old(s))),
{
    s.previous();
}

/// `ListState::hit_test` of `tui_widget_list`, for items: the one that was last
/// drawn at a cell.
#[verifier::external_body]
fn hit_item(s: &ListState, column: u16, row: u16) -> (r: Option<usize>)
    ensures
        r == item_at(list_of(*s), column, row),
{
    match s.hit_test(column, row) {
        Some(tui_widget_list::hit_test::Hit::Item(index)) => Some(index),
        Some(tui_widget_list::hit_test::Hit::Area) => None,
        None => None,
    }
}

/// The lowest item of a column in the rows from `top` up to `end`.
pub open spec fn lowest_item(m: ListModel, column: u16, top: int, end: int) -> Option<usize>
    decreases end - top,
{
    if end <= top {
        None
    } else if item_at(m, column, (end - 1) as u16) is Some {
        item_at(m, column, (end - 1) as u16)
    } else {
        lowest_item(m, column, top, end - 1)
    }
}

/// The highest item of a column in those rows.
pub open spec fn highest_item(m: ListModel, column: u16, top: int, end: int) -> Option<usize>
    decreases end - top,
{
    if end <= top {
        None
    } else if item_at(m, column, top as u16) is Some {
        item_at(m, column, top as u16)
    } else {
        highest_item(m, column, top + 1, end)
    }
}

/// The item at the edge of a view that scrolling goes towards, in the middle
/// column.
pub open spec fn edge_item(m: ListModel, viewport: Rect, forward: bool) -> Option<usize> {
    let column = (viewport.x + (viewport.width - 1) / 2) as u16;
    let top = viewport.y as int;
    let end = capped(viewport.y + viewport.height) as int;
    if forward {
        lowest_item(m, column, top, end)
    } else {
        highest_item(m, column, top, end)
    }
}

/// The item at the edge of a view that scrolling goes towards.
fn edge_visible_item(s: &ListState, viewport: Rect, forward: bool) -> (r: Option<usize>)
    requires
        viewport.width > 0,
        viewport.x + (viewport.width - 1) / 2 <= u16::MAX,
    ensures
        r == edge_item(list_of(*s), viewport, forward),
{
    let ghost m = list_of(*s);
    let column: u16 = viewport.x + (viewport.width - 1) / 2;
    let top: u16 = viewport.y;
    let end: u16 = add_capped(viewport.y, viewport.height);
    if forward {
        let mut row: u16 = end;
        while row > top
            invariant
                top <= row <= end,
                forward,
                column == (viewport.x + (viewport.width - 1) / 2) as u16,
                top == viewport.y,
                end == capped(viewport.y + viewport.height),
                m == list_of(*s),
                lowest_item(m, column, top as int, end as int) == lowest_item(
                    m,
                    column,
                    top as int,
                    row as int,
                ),
            decreases row,
        {
            row -= 1;
            if let Some(index) = hit_item(s, column, row) {
                return Some(index);
            }
        }
        None
    } else {
        let mut row: u16 = top;
        while row < end
            invariant
                top <= row <= end,
                !forward,
                column == (viewport.x + (viewport.width - 1) / 2) as u16,
                top == viewport.y,
                end == capped(viewport.y + viewport.height),
                m == list_of(*s),
                highest_item(m, column, top as int, end as int) == highest_item(
                    m,
                    column,
                    row as int,
                    end as int,
                ),
            decreases end - row,
        {
            if let Some(index) = hit_item(s, column, row) {
                return Some(index);
            }
            row += 1;
        }
        None
    }
}

/// One row of scrolling: from the item at the edge, where one is shown.
pub open spec fn scroll_step(m: ListModel, viewport: Rect, forward: bool) -> ListModel {
    let from = match edge_item(m, viewport, forward) {
        Some(index) => with_selected(m, index),
        None => m,
    };
    if forward {
        after_next(from)
    } else {
        after_previous(from)
    }
}

/// Several rows of scrolling.
pub open spec fn scroll_steps(m: ListModel, viewport: Rect, forward: bool, n: nat) -> ListModel
    decreases n,
{
    if n == 0 {
        m
    } else {
        scroll_step(scroll_steps(m, viewport, forward, (n - 1) as nat), viewport, forward)
    }
}

/// What scrolling by rows comes to; a view without cells does not scroll.
pub open spec fn scroll_by(m: ListModel, viewport: Rect, delta: i16) -> ListModel {
    if viewport.width == 0 || viewport.height == 0 {
        m
    } else if delta >= 0 {
        scroll_steps(m, viewport, true, delta as nat)
    } else {
        scroll_steps(m, viewport, false, -delta as nat)
    }
}

/// Scrolls a list by rows, from what its view shows.
pub fn scroll_list(s: &mut ListState, viewport: Rect, delta: i16)
    requires
        viewport.width > 0 ==> viewport.x + (viewport.width - 1) / 2 <= u16::MAX,
    ensures
        list_of(*final(s)) == scroll_by(list_of(*old(s)), viewport, delta),
{
    if delta == 0 || viewport.width == 0 || viewport.height == 0 {
        return;
    }
    let ghost first = list_of(*s);
    let forward = delta > 0;
    let rows: i32 = if forward {
        delta as i32
    } else {
        -(delta as i32)
    };
    let mut done: i32 = 0;
    while done < rows
        invariant
            0 <= done <= rows,
            viewport.width > 0,
            viewport.x + (viewport.width - 1) / 2 <= u16::MAX,
            list_of(*s) == scroll_steps(first, viewport, forward, done as nat),
        decreases rows - done,
    {
        if let Some(index) = edge_visible_item(s, viewport, forward) {
            select_item(s, index);
        }
        if forward {
            next_item(s);
        } else {
            previous_item(s);
        }
        done += 1;
    }
}

/// Scrolling keeps the selection among the items: a list in which the
/// selection and what is drawn are among the items stays so.
pub proof fn scrolling_stays_among_the_items(
    m: ListModel,
    viewport: Rect,
    forward: bool,
    n: nat,
)
    requires
        m.selected matches Some(i) ==> i < m.len,
        forall|cell: (u16, u16)| #[trigger]
            m.hits.contains_key(cell) ==> m.hits[cell] < m.len,
        viewport.width > 0,
    ensures
        ({
            let after = scroll_steps(m, viewport, forward, n);
            &&& after.selected matches Some(i) ==> i < m.len
            &&& after.len == m.len
            &&& after.hits == m.hits
        }),
    decreases n,
{
    if n > 0 {
        scrolling_stays_among_the_items(m, viewport, forward, (n - 1) as nat);
        let before = scroll_steps(m, viewport, forward, (n - 1) as nat);
        let column = (viewport.x + (viewport.width - 1) / 2) as u16;
        let top = viewport.y as int;
        let end = capped(viewport.y + viewport.height) as int;
        if forward {
            lemma_lowest_among(before, column, top, end);
        } else {
            lemma_highest_among(before, column, top, end);
        }
    }
}

proof fn lemma_lowest_among(m: ListModel, column: u16, top: int, end: int)
    requires
        forall|cell: (u16, u16)| #[trigger]
            m.hits.contains_key(cell) ==> m.hits[cell] < m.len,
    ensures
        lowest_item(m, column, top, end) matches Some(i) ==> i < m.len,
    decreases end - top,
{
    if end > top {
        lemma_lowest_among(m, column, top, end - 1);
    }
}

proof fn lemma_highest_among(m: ListModel, column: u16, top: int, end: int)
    requires
        forall|cell: (u16, u16)| #[trigger]
            m.hits.contains_key(cell) ==> m.hits[cell] < m.len,
    ensures
        highest_item(m, column, top, end) matches Some(i) ==> i < m.len,
    decreases end - top,
{
    if end > top {
        lemma_highest_among(m, column, top + 1, end);
    }
}

/// Scrolling sets out from the item at the edge of the view that it goes
/// towards: the one that the lowest row shows which shows any, or the highest.
pub proof fn scrolling_sets_out_from_the_edge(m: ListModel, viewport: Rect, forward: bool)
    requires
        viewport.width > 0,
        viewport.y + viewport.height <= u16::MAX,
    ensures
        ({
            let column = (viewport.x + (viewport.width - 1) / 2) as u16;
            let end = viewport.y + viewport.height;
            match edge_item(m, viewport, forward) {
                Some(i) => exists|row: int|
                    viewport.y <= row < end && #[trigger] item_at(m, column, row as u16) == Some(i)
                        && (forall|other: int|
                        (if forward {
                            row < other < end
                        } else {
                            viewport.y <= other < row
                        }) ==> #[trigger] item_at(m, column, other as u16) is None),
                None => forall|row: int|
                    viewport.y <= row < end ==> #[trigger] item_at(m, column, row as u16) is None,
            }
        }),
{
    let column = (viewport.x + (viewport.width - 1) / 2) as u16;
    let end = viewport.y + viewport.height;
    if forward {
        lemma_lowest(m, column, viewport.y as int, end);
    } else {
        lemma_highest(m, column, viewport.y as int, end);
    }
}

proof fn lemma_lowest(m: ListModel, column: u16, top: int, end: int)
    ensures
        (match lowest_item(m, column, top, end) {
            Some(i) => exists|row: int|
                top <= row < end && #[trigger] item_at(m, column, row as u16) == Some(i) && (forall|
                    other: int,
                |
                    row < other < end ==> #[trigger] item_at(m, column, other as u16) is None),
            None => forall|row: int|
                top <= row < end ==> #[trigger] item_at(m, column, row as u16) is None,
        }),
    decreases end - top,
{
    if end > top && item_at(m, column, (end - 1) as u16) is None {
        lemma_lowest(m, column, top, end - 1);
        if let Some(i) = lowest_item(m, column, top, end - 1) {
            let row = choose|row: int|
                top <= row < end - 1 && #[trigger] item_at(m, column, row as u16) == Some(i) && (
                forall|other: int|
                    row < other < end - 1 ==> #[trigger] item_at(m, column, other as u16) is None);
            assert(item_at(m, column, row as u16) == Some(i));
        }
    } else if end > top {
        let row = end - 1;
        assert(item_at(m, column, row as u16) is Some);
    }
}

proof fn lemma_highest(m: ListModel, column: u16, top: int, end: int)
    ensures
        (match highest_item(m, column, top, end) {
            Some(i) => exists|row: int|
                top <= row < end && #[trigger] item_at(m, column, row as u16) == Some(i) && (forall|
                    other: int,
                |
                    top <= other < row ==> #[trigger] item_at(m, column, other as u16) is None),
            None => forall|row: int|
                top <= row < end ==> #[trigger] item_at(m, column, row as u16) is None,
        }),
    decreases end - top,
{
    if end > top && item_at(m, column, top as u16) is None {
        lemma_highest(m, column, top + 1, end);
        if let Some(i) = highest_item(m, column, top + 1, end) {
            let row = choose|row: int|
                top + 1 <= row < end && #[trigger] item_at(m, column, row as u16) == Some(i) && (
                forall|other: int|
                    top + 1 <= other < row ==> #[trigger] item_at(m, column, other as u16) is None);
            assert(item_at(m, column, row as u16) == Some(i));
        }
    } else if end > top {
        assert(item_at(m, column, top as u16) is Some);
    }
}

/// A row of scrolling goes one item on from the edge, or one back, where the
/// items are no higher than the list; and scrolling by nothing changes nothing.
pub proof fn a_row_goes_one_item_on(m: ListModel, viewport: Rect, at: usize)
    requires
        viewport.width > 0,
        viewport.height > 0,
        m.overflow == Map::<usize, u16>::empty(),
        at < m.len,
    ensures
        scroll_by(m, viewport, 0) == m,
        edge_item(m, viewport, true) == Some(at) && at + 1 < m.len ==> scroll_by(
            m,
            viewport,
            1,
        ).selected == Some((at + 1) as usize),
        edge_item(m, viewport, false) == Some(at) && at > 0 ==> scroll_by(
            m,
            viewport,
            (-1) as i16,
        ).selected == Some((at - 1) as usize),
{
    reveal_with_fuel(scroll_steps, 2);
    assert(overflow_of(m, at) == 0);
}

} // verus!
