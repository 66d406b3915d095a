//! A collapsed run of unchanged lines: the arrow bands that reveal it.
//!
//! Positions are in thousandths of a point.

use vstd::prelude::*;

verus! {

/// Height of one arrow band.
pub const BAND: i64 = 16_000;

/// Which end of a collapsed run a band reveals: its first lines, which join the
/// code above, or its last, which join the code below.
#[derive(Clone, Copy, Debug, PartialEq, Eq, Structural)]
pub enum CollapsedEnd {
    Head,
    Tail,
}

/// What the pointer does over the indicator, with its position relative to the
/// indicator's top.
#[derive(Clone, Copy, Debug, PartialEq, Eq, Structural)]
pub enum RunEvent {
    Hover { y: i64 },
    HoverOut,
    Down { primary: bool, y: i64 },
    Other,
}

/// The indicator of one run.
#[derive(Clone, Copy, Debug, PartialEq, Eq, Structural)]
pub struct CollapsedRun {
    /// Whether there is code above to grow.
    pub head: bool,
    /// Whether there is code below to grow.
    pub tail: bool,
    pub hover: Option<CollapsedEnd>,
}

impl CollapsedRun {
    /// An indicator with both bands.
    pub fn new() -> (run: CollapsedRun)
        ensures
            run == (CollapsedRun { head: true, tail: true, hover: None }),
    {
        CollapsedRun { head: true, tail: true, hover: None }
    }

    /// Says which ends of the run are reachable.
    pub fn set_ends(&mut self, head: bool, tail: bool)
        ensures
            *final(self) == (CollapsedRun { head, tail, ..*old(self) }),
    {
        self.head = head;
        self.tail = tail;
    }

    /// The end whose band is at `y`, the down arrow's band on top.
    pub open spec fn end_under(&self, y: int) -> Option<CollapsedEnd> {
        if self.head && self.tail && y >= BAND {
            Some(CollapsedEnd::Tail)
        } else if self.head {
            Some(CollapsedEnd::Head)
        } else if self.tail {
            Some(CollapsedEnd::Tail)
        } else {
            None
        }
    }

    /// The end whose band is at `y`. Which one that is depends on how many
    /// bands there are: the down arrow reveals the run's head, the up arrow
    /// its tail.
    pub fn end_at(&self, y: i64) -> (end: Option<CollapsedEnd>)
        ensures
            end == self.end_under(y as int),
    {
        match (self.head, self.tail) {
            (true, true) => if y >= BAND {
                Some(CollapsedEnd::Tail)
            } else {
                Some(CollapsedEnd::Head)
            },
            (true, false) => Some(CollapsedEnd::Head),
            (false, true) => Some(CollapsedEnd::Tail),
            (false, false) => None,
        }
    }

    /// Top of a band within the indicator.
    pub open spec fn band_top(&self, end: CollapsedEnd) -> i64 {
        if end == CollapsedEnd::Tail && self.head {
            BAND
        } else {
            0
        }
    }

    /// Top of a band within the indicator: the down arrow is always first.
    pub fn band_y(&self, end: CollapsedEnd) -> (y: i64)
        ensures
            y == self.band_top(end),
    {
        match end {
            CollapsedEnd::Head => 0,
            CollapsedEnd::Tail => if self.head {
                BAND
            } else {
                0
            },
        }
    }

    /// Height of the indicator: one band per reachable end.
    pub fn height(&self) -> (h: i64)
        ensures
            h == BAND * ((if self.head {
                1int
            } else {
                0
            }) + (if self.tail {
                1int
            } else {
                0
            })),
    {
        let mut h: i64 = 0;
        if self.head {
            h = h + BAND;
        }
        if self.tail {
            h = h + BAND;
        }
        h
    }

    /// Where the seam is drawn: where the file actually breaks, over the band
    /// of a cut below code that ends there, else under the first band.
    pub fn rule_y(&self) -> (y: i64)
        ensures
            y == (if self.head && !self.tail {
                0
            } else {
                BAND - 1_000
            }),
    {
        if self.head && !self.tail {
            0
        } else {
            BAND - 1_000
        }
    }

    /// What the pointer does over the indicator: hovering lights a band, and a
    /// press reveals that end.
    pub fn handle_event(&mut self, event: RunEvent) -> (end: Option<CollapsedEnd>)
        ensures
            end == (match event {
                RunEvent::Down { primary: true, y } => old(self).end_under(y as int),
                _ => None,
            }),
            *final(self) == (CollapsedRun {
                hover: (match event {
                    RunEvent::Hover { y } => old(self).end_under(y as int),
                    RunEvent::HoverOut => None,
                    _ => old(self).hover,
                }),
                ..*old(self)
            }),
    {
        match event {
            RunEvent::Hover { y } => {
                self.hover = self.end_at(y);
                None
            },
            RunEvent::HoverOut => {
                self.hover = None;
                None
            },
            RunEvent::Down { primary: true, y } => self.end_at(y),
            _ => None,
        }
    }
}

/// A band that is drawn is the one that its own position names.
pub proof fn a_press_on_a_band_names_its_end(run: CollapsedRun, end: CollapsedEnd, y: int)
    requires
        end == CollapsedEnd::Head ==> run.head,
        end == CollapsedEnd::Tail ==> run.tail,
        run.band_top(end) <= y < run.band_top(end) + BAND,
    ensures
        run.end_under(y) == Some(end),
{
}

} // verus!
