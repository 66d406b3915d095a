//! The gutter rail of a code row: its line number, its markers, and the drag
//! that selects lines for a comment.

use crate::diff::LineKind;
use crate::text::{blanks, decimal, number, pad_left, padded_left, spaces};
use vstd::prelude::*;

verus! {

/// What a gutter reports of a gesture. Positions are window coordinates in
/// thousandths of a point.
#[derive(Clone, Copy, Debug, PartialEq, Eq, Structural)]
pub enum GutterAction {
    DragStart { blob: u32, line: u32 },
    DragTo { y: i64 },
    DragEnd,
    Nothing,
}

/// What the pointer does over a gutter.
#[derive(Clone, Copy, Debug, PartialEq, Eq, Structural)]
pub enum PointerEvent {
    HoverIn,
    HoverOut,
    Down { primary: bool, y: i64 },
    Move { y: i64 },
    Up { primary: bool },
    Other,
}

/// The marker in a row's outer slot. Seen and commented share the slot and the
/// colour and differ in width: commenting on a line implies having seen it.
#[derive(Clone, Copy, Debug, PartialEq, Eq, Structural)]
pub enum Marker {
    /// Inside a comment's range, or a range being selected.
    Wide,
    /// Merely seen.
    Thin,
}

/// What is drawn of a rail, from the bottom up: the row's tint, the number, the
/// marker, the change bar, and the sign that offers a comment.
#[derive(Clone, Copy, Debug, PartialEq, Eq, Structural)]
pub struct RailDrawing {
    /// The kind of line whose tint and change bar the row has.
    pub kind: LineKind,
    /// Whether the tint is that of a row being selected.
    pub selected: bool,
    pub marker: Option<Marker>,
    /// Whether the change bar is striped: deletions are told apart by texture,
    /// as red against green is no difference to some eyes.
    pub striped: bool,
    /// Whether the comment sign stands in the outer slot, over any marker.
    pub plus: bool,
}

/// The rail of one code row.
#[derive(Debug)]
pub struct Gutter {
    pub kind: Option<LineKind>,
    pub old_no: Option<u32>,
    pub new_no: Option<u32>,
    pub number: String,
    pub blob: u32,
    pub line: u32,
    pub seen: bool,
    pub commented: bool,
    pub selected: bool,
    pub hovered: bool,
    pub last_y: i64,
}

/// The number a row shows: the old one for a deletion, else the new one, or
/// the old one where there is no new.
pub open spec fn shown_number(
    kind: LineKind,
    old_no: Option<u32>,
    new_no: Option<u32>,
) -> Option<u32> {
    if kind == LineKind::Del {
        old_no
    } else if new_no is Some {
        new_no
    } else {
        old_no
    }
}

/// A row's number in its column of five.
pub open spec fn number_text(no: Option<u32>) -> Seq<char> {
    match no {
        Some(no) => pad_left(decimal(no as nat), 5),
        None => blanks(5),
    }
}

impl Gutter {
    /// The number column shows the row's number.
    pub open spec fn wf(&self) -> bool {
        self.kind matches Some(kind) ==> self.number@ == number_text(
            shown_number(kind, self.old_no, self.new_no),
        )
    }

    /// A rail that points at no row yet.
    pub fn new() -> (g: Gutter)
        ensures
            g.wf(),
            g.number@.len() == 0,
            g == (Gutter {
                kind: None,
                old_no: None,
                new_no: None,
                number: g.number,
                blob: 0,
                line: 0,
                seen: false,
                commented: false,
                selected: false,
                hovered: false,
                last_y: 0,
            }),
            g.marker_of() is None,
    {
        Gutter {
            kind: None,
            old_no: None,
            new_no: None,
            number: String::new(),
            blob: 0,
            line: 0,
            seen: false,
            commented: false,
            selected: false,
            hovered: false,
            last_y: 0,
        }
    }

    /// Points this rail at one diff line: its numbers, and its seen, commented
    /// and selected state.
    pub fn set_row(
        &mut self,
        kind: LineKind,
        old_no: Option<u32>,
        new_no: Option<u32>,
        blob: u32,
        line: u32,
        seen: bool,
        commented: bool,
        selected: bool,
    )
        requires
            old(self).wf(),
        ensures
            final(self).wf(),
            *final(self) == (Gutter {
                kind: Some(kind),
                old_no,
                new_no,
                number: final(self).number,
                blob,
                line,
                seen,
                commented,
                selected,
                hovered: old(self).hovered,
                last_y: old(self).last_y,
            }),
            final(self).number@ == number_text(shown_number(kind, old_no, new_no)),
    {
        let number_changed = self.kind != Some(kind) || self.old_no != old_no || self.new_no
            != new_no;
        self.kind = Some(kind);
        self.old_no = old_no;
        self.new_no = new_no;
        if number_changed {
            let no: Option<u32> = if kind == LineKind::Del {
                old_no
            } else {
                match new_no {
                    Some(no) => Some(no),
                    None => old_no,
                }
            };
            self.number = match no {
                Some(no) => {
                    let digits = number(no as u64);
                    padded_left(digits.as_str(), 5)
                },
                None => spaces(5),
            };
        }
        self.blob = blob;
        self.line = line;
        self.seen = seen;
        self.commented = commented;
        self.selected = selected;
    }

    /// The marker in the row's outer slot.
    pub open spec fn marker_of(&self) -> Option<Marker> {
        if self.commented || self.selected {
            Some(Marker::Wide)
        } else if self.seen {
            Some(Marker::Thin)
        } else {
            None
        }
    }

    /// The marker in the row's outer slot. A comment takes the slot outright
    /// rather than drawing both.
    pub fn marker(&self) -> (marker: Option<Marker>)
        ensures
            marker == self.marker_of(),
    {
        if self.commented || self.selected {
            Some(Marker::Wide)
        } else if self.seen {
            Some(Marker::Thin)
        } else {
            None
        }
    }

    /// What is drawn of the rail. One that points at no row is drawn as a
    /// context line's.
    pub fn drawing(&self) -> (drawing: RailDrawing)
        ensures
            drawing.kind == (match self.kind {
                Some(kind) => kind,
                None => LineKind::Context,
            }),
            drawing.selected == self.selected,
            drawing.marker == self.marker_of(),
            drawing.striped == (self.kind == Some(LineKind::Del)),
            drawing.plus == self.hovered,
    {
        let kind = match self.kind {
            Some(kind) => kind,
            None => LineKind::Context,
        };
        RailDrawing {
            kind,
            selected: self.selected,
            marker: self.marker(),
            striped: kind == LineKind::Del,
            plus: self.hovered,
        }
    }

    /// What the pointer does over the rail. A press starts a drag on this line,
    /// and while it lasts every move lands here, whatever row it is over by
    /// then; a move that does not move reports nothing.
    pub fn handle_event(&mut self, event: PointerEvent) -> (action: GutterAction)
        ensures
            action == (match event {
                PointerEvent::Down { primary: true, y } => GutterAction::DragStart {
                    blob: old(self).blob,
                    line: old(self).line,
                },
                PointerEvent::Move { y } => if y != old(self).last_y {
                    GutterAction::DragTo { y }
                } else {
                    GutterAction::Nothing
                },
                PointerEvent::Up { primary: true } => GutterAction::DragEnd,
                _ => GutterAction::Nothing,
            }),
            *final(self) == (Gutter {
                hovered: (match event {
                    PointerEvent::HoverIn => true,
                    PointerEvent::HoverOut => false,
                    _ => old(self).hovered,
                }),
                last_y: (match event {
                    PointerEvent::Down { primary: true, y } => y,
                    PointerEvent::Move { y } => y,
                    _ => old(self).last_y,
                }),
                ..*old(self)
            }),
    {
        match event {
            PointerEvent::HoverIn => {
                self.hovered = true;
                GutterAction::Nothing
            },
            PointerEvent::HoverOut => {
                self.hovered = false;
                GutterAction::Nothing
            },
            PointerEvent::Down { primary: true, y } => {
                self.last_y = y;
                GutterAction::DragStart { blob: self.blob, line: self.line }
            },
            PointerEvent::Move { y } => {
                if y != self.last_y {
                    self.last_y = y;
                    GutterAction::DragTo { y }
                } else {
                    GutterAction::Nothing
                }
            },
            PointerEvent::Up { primary: true } => GutterAction::DragEnd,
            _ => GutterAction::Nothing,
        }
    }
}

/// A line that was taken out shows its old number, and any other its new one
/// where it has one; the number stands at the right of its column.
pub proof fn a_rail_shows_its_number(
    kind: LineKind,
    old_no: Option<u32>,
    new_no: Option<u32>,
    no: u32,
)
    requires
        no < 100_000,
    ensures
        kind == LineKind::Del ==> shown_number(kind, old_no, new_no) == old_no,
        kind != LineKind::Del && new_no is Some ==> shown_number(kind, old_no, new_no) == new_no,
        kind != LineKind::Del && new_no is None ==> shown_number(kind, old_no, new_no) == old_no,
        number_text(None).len() == 5,
        number_text(Some(no)).skip(number_text(Some(no)).len() - decimal(no as nat).len())
            == decimal(no as nat),
{
    crate::text::a_column_holds_its_text(decimal(no as nat), 5);
}

/// A line with a comment, or in a range being selected, has the wide marker; one
/// that was merely seen the thin one; and one that was not has none.
pub proof fn a_comment_outweighs_having_been_seen(g: Gutter)
    ensures
        g.commented ==> g.marker_of() == Some(Marker::Wide),
        g.selected ==> g.marker_of() == Some(Marker::Wide),
        !g.commented && !g.selected && g.seen ==> g.marker_of() == Some(Marker::Thin),
        !g.commented && !g.selected && !g.seen ==> g.marker_of() is None,
{
}

} // verus!
