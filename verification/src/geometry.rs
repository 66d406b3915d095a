//! Areas of the terminal, and how they are divided.

use ratatui::layout;
use vstd::prelude::*;

verus! {

/// An area of cells.
#[derive(Clone, Copy, Debug, PartialEq, Eq, Structural)]
pub struct Rect {
    pub x: u16,
    pub y: u16,
    pub width: u16,
    pub height: u16,
}

/// A sum that does not leave the range.
pub open spec fn capped(n: int) -> u16 {
    if n > u16::MAX {
        u16::MAX
    } else {
        n as u16
    }
}

/// A difference that does not go below zero.
pub open spec fn floored(n: int) -> u16 {
    if n < 0 {
        0
    } else {
        n as u16
    }
}

/// A sum that does not leave the range.
pub fn add_capped(a: u16, b: u16) -> (r: u16)
    ensures
        r == capped(a + b),
{
    if a > u16::MAX - b {
        u16::MAX
    } else {
        a + b
    }
}

/// A difference that does not go below zero.
pub fn sub_floored(a: u16, b: u16) -> (r: u16)
    ensures
        r == floored(a - b),
{
    if a < b {
        0
    } else {
        a - b
    }
}

/// A count as a height: more than fit is as many as fit.
pub fn height_of(n: usize) -> (r: u16)
    ensures
        r == capped(n as int),
{
    if n > u16::MAX as usize {
        u16::MAX
    } else {
        n as u16
    }
}

impl Rect {
    /// Whether a cell is in the area.
    pub open spec fn has(self, column: u16, row: u16) -> bool {
        self.y <= row < capped(self.y + self.height) && self.x <= column < capped(
            self.x + self.width,
        )
    }

    /// An area with nothing in it.
    pub fn empty() -> (r: Rect)
        ensures
            r == (Rect { x: 0, y: 0, width: 0, height: 0 }),
    {
        Rect { x: 0, y: 0, width: 0, height: 0 }
    }

    /// Whether a cell is in the area.
    pub fn contains(&self, column: u16, row: u16) -> (r: bool)
        ensures
            r == self.has(column, row),
    {
        row >= self.y && row < add_capped(self.y, self.height) && column >= self.x && column
            < add_capped(self.x, self.width)
    }
}

/// Moves a position by a distance, within the range.
pub open spec fn scrolled(current: u16, delta: i16) -> u16 {
    if delta >= 0 {
        capped(current + delta)
    } else {
        floored(current + delta)
    }
}

/// Moves a position by a distance, within the range.
pub fn apply_scroll_delta(current: u16, delta: i16) -> (r: u16)
    ensures
        r == scrolled(current, delta),
{
    let moved: i32 = current as i32 + delta as i32;
    if moved < 0 {
        0
    } else if moved > u16::MAX as i32 {
        u16::MAX
    } else {
        moved as u16
    }
}

/// The way in which an area is divided.
#[derive(Clone, Copy, Debug, PartialEq, Eq, Structural)]
pub enum Direction {
    Horizontal,
    Vertical,
}

/// What is asked of a part of an area.
#[derive(Clone, Copy, Debug, PartialEq, Eq, Structural)]
pub enum Constraint {
    Min(u16),
    Length(u16),
    Percentage(u16),
}

/// Whether an area lies in another.
pub open spec fn within(part: Rect, area: Rect) -> bool {
    &&& area.x <= part.x && part.x + part.width <= area.x + area.width
    &&& area.y <= part.y && part.y + part.height <= area.y + area.height
}

/// What holds of the parts that an area is divided into, whichever sizes they
/// get: there is one for each constraint, each is in the area, and as wide (or
/// as high) as it across the way in which it is divided.
pub open spec fn are_parts(
    parts: Seq<Rect>,
    area: Rect,
    direction: Direction,
    count: nat,
) -> bool {
    &&& parts.len() == count
    &&& forall|i: int|
        0 <= i < parts.len() ==> (match direction {
            Direction::Horizontal => (#[trigger] parts[i]).y == area.y && parts[i].height
                == area.height,
            Direction::Vertical => parts[i].x == area.x && parts[i].width == area.width,
        }) && within(parts[i], area)
}

/// Whether `Layout::split` of `ratatui` may give these parts for an area, a
/// direction, constraints and an overlap. It is a relation and no function: where
/// constraints leave a choice, the solver makes it by walking maps whose hasher
/// is seeded anew in each process.
pub uninterp spec fn may_divide(
    parts: Seq<Rect>,
    area: Rect,
    direction: Direction,
    constraints: Seq<Constraint>,
    overlap: u16,
) -> bool;

/// How an area is to be divided.
pub struct Plan {
    pub area: Rect,
    pub direction: Direction,
    pub constraints: Seq<Constraint>,
    pub overlap: u16,
}

/// Whether these parts may come out of a plan.
pub open spec fn comes_of(parts: Seq<Rect>, plan: Plan) -> bool {
    may_divide(parts, plan.area, plan.direction, plan.constraints, plan.overlap)
}

/// `Layout::split` of `ratatui`: parts that may come out of the area, the
/// direction, the constraints and the overlap that it is given; one for each
/// constraint, each in the area and as wide (or as high) as it across the way in
/// which it is divided. Which size a part gets is for its solver to say, and is
/// left open here: the solver walks maps whose hasher is seeded anew in each
/// process.
#[verifier::external_body]
pub(crate) fn split(
    area: Rect,
    direction: Direction,
    constraints: &Vec<Constraint>,
    overlap: u16,
) -> (parts: Vec<Rect>)
    requires
        overlap <= i16::MAX,
    ensures
        may_divide(parts@, area, direction, constraints@, overlap),
        are_parts(parts@, area, direction, constraints@.len()),
{
    let asked = constraints.iter().map(|c| match *c {
        Constraint::Min(n) => layout::Constraint::Min(n),
        Constraint::Length(n) => layout::Constraint::Length(n),
        Constraint::Percentage(n) => layout::Constraint::Percentage(n),
    });
    let along = match direction {
        Direction::Horizontal => layout::Direction::Horizontal,
        Direction::Vertical => layout::Direction::Vertical,
    };
    let plan = layout::Layout::new(along, asked).spacing(layout::Spacing::Overlap(overlap));
    let Rect { x, y, width, height } = area;
    let parts = plan.split(layout::Rect { x, y, width, height });
    parts.iter().map(|p| Rect { x: p.x, y: p.y, width: p.width, height: p.height }).collect()
}

/// Scrolling moves by its distance, as far as the range goes.
pub proof fn scrolling_moves_by_its_distance(current: u16, delta: i16)
    ensures
        0 <= current + delta <= u16::MAX ==> scrolled(current, delta) == current + delta,
        current + delta < 0 ==> scrolled(current, delta) == 0,
        current + delta > u16::MAX ==> scrolled(current, delta) == u16::MAX,
{
}

/// An area has the cells from its corner on, as many columns and rows as it is
/// wide and high.
pub proof fn an_area_has_its_cells(area: Rect, column: u16, row: u16)
    requires
        area.x + area.width <= u16::MAX,
        area.y + area.height <= u16::MAX,
    ensures
        area.has(column, row) <==> (0 <= column - area.x < area.width && 0 <= row - area.y
            < area.height),
{
}

} // verus!
