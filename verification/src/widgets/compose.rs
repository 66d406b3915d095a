//! Writing a comment: the gesture that selects its lines, the composer below
//! them, and what posting sends.
//!
//! The composer is a row spliced into the stream. Splicing and stripping it
//! belong to the document store; these functions say when either is due.

use crate::diff::{LineKind, Oid, Row};
use crate::review_doc::{Compose, Composing, ReviewDoc, Side, Tab};
use crate::text::{same, to_chars, trim, trimmed};
use vstd::prelude::*;

verus! {

/// Whether a stream has the composer in it.
pub open spec fn has_composer(rows: Seq<Row>) -> bool {
    exists|i: int| 0 <= i < rows.len() && (#[trigger] rows[i]) is Composer
}

/// Whether a stream has the composer in it.
pub fn stream_has_composer(rows: &Vec<Row>) -> (r: bool)
    ensures
        r == has_composer(rows@),
{
    let mut i: usize = 0;
    while i < rows.len()
        invariant
            i <= rows.len(),
            forall|k: int| 0 <= k < i ==> !((#[trigger] rows@[k]) is Composer),
        decreases rows.len() - i,
    {
        if let Row::Composer = &rows[i] {
            return true;
        }
        i += 1;
    }
    false
}

fn composer_open(doc: &ReviewDoc) -> (r: bool)
    ensures
        r == has_composer(doc.rows(doc.tab)),
{
    match doc.stream(doc.tab) {
        Some(rows) => stream_has_composer(rows),
        None => false,
    }
}

/// Points the gesture at a stream. An open composer belongs to the stream it
/// was opened in, so leaving that stream closes it. Says whether the stream
/// changed, which is when the composer's row is to be stripped.
pub fn set_gesture_tab(doc: &mut ReviewDoc, tab: Tab) -> (changed: bool)
    ensures
        changed == (old(doc).tab != tab),
        !changed ==> *final(doc) == *old(doc),
        changed ==> final(doc).compose_draft@.len() == 0 && *final(doc) == (ReviewDoc {
            tab,
            compose: None,
            compose_draft: final(doc).compose_draft,
            ..*old(doc)
        }),
{
    if doc.tab == tab {
        return false;
    }
    doc.compose = None;
    doc.compose_draft = String::new();
    doc.tab = tab;
    true
}

// ---------------------------------------------------------------------------
// Selecting lines
// ---------------------------------------------------------------------------

/// The side of a selection that a row of this kind is on.
pub open spec fn side_of(c: Compose, kind: LineKind) -> Option<Side> {
    if kind == LineKind::Del {
        c.old
    } else {
        c.new
    }
}

/// The other side.
pub open spec fn other_side(c: Compose, kind: LineKind) -> Option<Side> {
    if kind == LineKind::Del {
        c.new
    } else {
        c.old
    }
}

/// A selection with another range on one side.
pub open spec fn with_side(c: Compose, kind: LineKind, side: Option<Side>) -> Compose {
    if kind == LineKind::Del {
        Compose { old: side, ..c }
    } else {
        Compose { new: side, ..c }
    }
}

/// A selection of one line.
pub open spec fn one_line(kind: LineKind, blob: u32, line: u32) -> Compose {
    with_side(
        Compose { old: None, new: None },
        kind,
        Some(Side { blob, start: line, end: line }),
    )
}

/// Whether two blobs are shown under one path.
pub open spec fn same_file(doc: &ReviewDoc, a: u32, b: u32) -> bool {
    doc.blobs@[a as int].label@ == doc.blobs@[b as int].label@
}

/// A selection widened by a line: the side it is on grows to take it in, and a
/// side that is not open yet opens only within the same file. `None` when the
/// line is elsewhere.
pub open spec fn widened(
    doc: &ReviewDoc,
    c: Compose,
    kind: LineKind,
    blob: u32,
    line: u32,
) -> Option<Compose> {
    match side_of(c, kind) {
        Some(s) => if s.blob == blob {
            Some(
                with_side(
                    c,
                    kind,
                    Some(
                        Side {
                            blob,
                            start: if line < s.start {
                                line
                            } else {
                                s.start
                            },
                            end: if line > s.end {
                                line
                            } else {
                                s.end
                            },
                        },
                    ),
                ),
            )
        } else {
            None
        },
        None => match other_side(c, kind) {
            Some(o) => if same_file(doc, o.blob, blob) {
                Some(with_side(c, kind, Some(Side { blob, start: line, end: line })))
            } else {
                None
            },
            None => None,
        },
    }
}

/// The selection that a press widens: the one being written on, while its
/// composer is open.
pub open spec fn open_selection(doc: &ReviewDoc) -> Option<Compose> {
    match doc.compose {
        Some(Composing::Lines(c)) => if has_composer(doc.rows(doc.tab)) {
            Some(c)
        } else {
            None
        },
        _ => None,
    }
}

/// The selection that a press makes of the one that is open, if any.
pub open spec fn press_widens(
    doc: &ReviewDoc,
    kind: LineKind,
    blob: u32,
    line: u32,
) -> Option<Compose> {
    match open_selection(doc) {
        Some(c) => widened(doc, c, kind, blob, line),
        None => None,
    }
}

/// What a press on the gutter did.
#[derive(Clone, Copy, Debug, PartialEq, Eq, Structural)]
pub enum Pressed {
    /// The row is no code.
    Ignored,
    /// The open selection took the line in: the composer moves below it.
    Widened,
    /// A new selection of the line alone: an open composer is stripped.
    Started,
}

/// Whether a selection names blobs that the document has.
pub open spec fn selection_exists(doc: &ReviewDoc) -> bool {
    doc.compose matches Some(Composing::Lines(c)) ==> {
        &&& c.old matches Some(s) ==> s.blob < doc.blobs@.len()
        &&& c.new matches Some(s) ==> s.blob < doc.blobs@.len()
    }
}

fn widen(doc: &ReviewDoc, c: Compose, kind: LineKind, blob: u32, line: u32) -> (r: Option<Compose>)
    requires
        blob < doc.blobs@.len(),
        c.old matches Some(s) ==> s.blob < doc.blobs@.len(),
        c.new matches Some(s) ==> s.blob < doc.blobs@.len(),
    ensures
        r == widened(doc, c, kind, blob, line),
{
    let (side, other) = if kind == LineKind::Del {
        (c.old, c.new)
    } else {
        (c.new, c.old)
    };
    let grown: Option<Side> = match side {
        Some(s) => if s.blob == blob {
            Some(
                Side {
                    blob,
                    start: if line < s.start {
                        line
                    } else {
                        s.start
                    },
                    end: if line > s.end {
                        line
                    } else {
                        s.end
                    },
                },
            )
        } else {
            None
        },
        None => match other {
            Some(o) => if same(
                doc.blobs[o.blob as usize].label.as_str(),
                doc.blobs[blob as usize].label.as_str(),
            ) {
                Some(Side { blob, start: line, end: line })
            } else {
                None
            },
            None => None,
        },
    };
    match grown {
        Some(s) => Some(
            if kind == LineKind::Del {
                Compose { old: Some(s), new: c.new }
            } else {
                Compose { old: c.old, new: Some(s) }
            },
        ),
        None => None,
    }
}

/// A press on a gutter starts a comment selection: the pressed line alone,
/// extended by dragging. If the composer is already open on the same file, a
/// further press widens its range instead, also onto the other side of a
/// deleted-to-added boundary. A press while a reply is open starts afresh.
pub fn compose_start(doc: &mut ReviewDoc, item: usize, blob: u32, line: u32) -> (pressed: Pressed)
    requires
        blob < old(doc).blobs@.len(),
        selection_exists(old(doc)),
    ensures
        ({
            let rows = old(doc).rows(old(doc).tab);
            if item < rows.len() && rows[item as int] is Code {
                let kind = rows[item as int]->kind;
                match press_widens(old(doc), kind, blob, line) {
                    Some(c) => {
                        &&& pressed == Pressed::Widened
                        &&& *final(doc) == (ReviewDoc {
                            compose: Some(Composing::Lines(c)),
                            ..*old(doc)
                        })
                    },
                    None => {
                        &&& pressed == Pressed::Started
                        &&& final(doc).compose_draft@.len() == 0
                        &&& *final(doc) == (ReviewDoc {
                            compose: Some(Composing::Lines(one_line(kind, blob, line))),
                            compose_anchor: item,
                            compose_draft: final(doc).compose_draft,
                            ..*old(doc)
                        })
                    },
                }
            } else {
                pressed == Pressed::Ignored && *final(doc) == *old(doc)
            }
        }),
{
    let kind: LineKind = match doc.row(doc.tab, item) {
        Some(Row::Code { kind, .. }) => *kind,
        _ => {
            return Pressed::Ignored;
        },
    };
    let open = composer_open(doc);
    let wider: Option<Compose> = match doc.compose {
        Some(Composing::Lines(c)) => if open {
            widen(doc, c, kind, blob, line)
        } else {
            None
        },
        _ => None,
    };
    match wider {
        Some(c) => {
            doc.compose = Some(Composing::Lines(c));
            Pressed::Widened
        },
        None => {
            let side = Some(Side { blob, start: line, end: line });
            let c = if kind == LineKind::Del {
                Compose { old: side, new: None }
            } else {
                Compose { old: None, new: side }
            };
            doc.compose = Some(Composing::Lines(c));
            doc.compose_anchor = item;
            doc.compose_draft = String::new();
            Pressed::Started
        },
    }
}

/// A further press never narrows a selection: what was selected on a side stays
/// selected.
pub proof fn widening_keeps_the_selection(
    doc: &ReviewDoc,
    c: Compose,
    kind: LineKind,
    blob: u32,
    line: u32,
)
    requires
        widened(doc, c, kind, blob, line) is Some,
    ensures
        ({
            let w = widened(doc, c, kind, blob, line)->0;
            &&& other_side(w, kind) == other_side(c, kind)
            &&& side_of(w, kind) matches Some(after) && after.blob == blob && after.start <= line
                <= after.end
            &&& side_of(c, kind) matches Some(before) ==> (side_of(w, kind)->0).start
                <= before.start && before.end <= (side_of(w, kind)->0).end
        }),
{
}

/// The rows that a drag spans, from the row it started on to the one under the
/// pointer, in order. `None` when there is nothing to drag: the composer is
/// open already, no lines are selected, or the pointer is not on code.
pub open spec fn drag_span(doc: &ReviewDoc, target: usize) -> Option<(usize, usize)> {
    let rows = doc.rows(doc.tab);
    if !has_composer(rows) && (doc.compose matches Some(Composing::Lines(_))) && target
        < rows.len() && rows[target as int] is Code {
        Some(
            if doc.compose_anchor < target {
                (doc.compose_anchor, target)
            } else {
                (target, doc.compose_anchor)
            },
        )
    } else {
        None
    }
}

/// The rows that a drag spans.
pub fn compose_drag(doc: &ReviewDoc, target: usize) -> (span: Option<(usize, usize)>)
    ensures
        span == drag_span(doc, target),
{
    if composer_open(doc) {
        return None;
    }
    match doc.compose {
        Some(Composing::Lines(_)) => {},
        _ => {
            return None;
        },
    }
    match doc.row(doc.tab, target) {
        Some(Row::Code { .. }) => {},
        _ => {
            return None;
        },
    }
    let anchor: usize = doc.compose_anchor;
    Some(
        if anchor < target {
            (anchor, target)
        } else {
            (target, anchor)
        },
    )
}

/// Takes over the selection that the spanned rows give; rows that give none
/// leave it as it is.
pub fn drag_to(doc: &mut ReviewDoc, selection: Option<Compose>)
    ensures
        *final(doc) == (ReviewDoc {
            compose: (match selection {
                Some(c) => Some(Composing::Lines(c)),
                None => old(doc).compose,
            }),
            ..*old(doc)
        }),
{
    if let Some(c) = selection {
        doc.compose = Some(Composing::Lines(c));
    }
}

// ---------------------------------------------------------------------------
// The composer
// ---------------------------------------------------------------------------

/// Release: the composer opens below the selection and takes the keyboard.
/// Says whether it is to be spliced in; it is not without a selection, or when
/// it is open already.
pub fn compose_open(doc: &mut ReviewDoc) -> (opened: bool)
    ensures
        opened == (old(doc).compose is Some && !has_composer(old(doc).rows(old(doc).tab))),
        *final(doc) == (ReviewDoc {
            compose_focus: old(doc).compose_focus || opened,
            ..*old(doc)
        }),
{
    if doc.compose.is_none() || composer_open(doc) {
        return false;
    }
    doc.compose_focus = true;
    true
}

/// Opens the composer on a comment's thread. Replying to a reply answers the
/// thread, so the row's parent is the target whenever it has one. Says whether
/// the row is a comment, which is when the composer moves here.
pub fn reply_to_comment_at(doc: &mut ReviewDoc, tab: Tab, item: usize) -> (opened: bool)
    ensures
        ({
            let rows = old(doc).rows(tab);
            if item < rows.len() && rows[item as int] is Comment {
                let root = match rows[item as int]->parent {
                    Some(parent) => parent,
                    None => rows[item as int]->id,
                };
                &&& opened
                &&& final(doc).compose_draft@.len() == 0
                &&& *final(doc) == (ReviewDoc {
                    compose: Some(Composing::Reply(root)),
                    compose_anchor: item,
                    compose_draft: final(doc).compose_draft,
                    compose_focus: true,
                    ..*old(doc)
                })
            } else {
                !opened && *final(doc) == *old(doc)
            }
        }),
{
    let root: i64 = match doc.row(tab, item) {
        Some(Row::Comment { id, parent, .. }) => match parent {
            Some(parent) => *parent,
            None => *id,
        },
        _ => {
            return false;
        },
    };
    doc.compose = Some(Composing::Reply(root));
    doc.compose_anchor = item;
    doc.compose_draft = String::new();
    doc.compose_focus = true;
    true
}

/// What posting a draft sends.
#[derive(Debug)]
pub enum Posting {
    /// Nothing is posted and nothing changes: the draft is blank, or there is
    /// nothing it is written on.
    Ignored,
    /// The draft is dropped; without a repository there is nowhere to send it.
    Dropped,
    /// A reply takes its thread root's anchor.
    Reply { git_dir: String, parent: i64, body: String },
    /// A comment on the selected lines.
    Lines { git_dir: String, selection: Compose, body: String },
}

/// Whether this is what a document's draft sends.
pub open spec fn is_posted(doc: ReviewDoc, posting: Posting) -> bool {
    let body = trim(doc.compose_draft@);
    if body.len() == 0 || doc.compose is None {
        posting is Ignored
    } else {
        match (doc.git_dir, doc.compose->0) {
            (None, _) => posting is Dropped,
            (Some(dir), Composing::Reply(root)) => posting matches Posting::Reply {
                git_dir,
                parent,
                body: b,
            } && git_dir@ == dir@ && parent == root && b@ == body,
            (Some(dir), Composing::Lines(c)) => posting matches Posting::Lines {
                git_dir,
                selection,
                body: b,
            } && git_dir@ == dir@ && selection == c && b@ == body,
        }
    }
}

/// What is posted is what was written, without the white space around it, to the
/// repository of the document: on the lines that are selected, or in the thread
/// that is answered. A draft that is not blank is never passed over where there
/// is something it is written on.
pub proof fn what_was_written_is_posted(doc: ReviewDoc, posting: Posting)
    requires
        is_posted(doc, posting),
    ensures
        (match posting {
            Posting::Lines { git_dir, selection, body } => doc.compose == Some(
                Composing::Lines(selection),
            ) && body@ == trim(doc.compose_draft@) && body@.len() > 0 && (
            doc.git_dir matches Some(dir) && git_dir@ == dir@),
            Posting::Reply { git_dir, parent, body } => doc.compose == Some(
                Composing::Reply(parent),
            ) && body@ == trim(doc.compose_draft@) && body@.len() > 0 && (
            doc.git_dir matches Some(dir) && git_dir@ == dir@),
            Posting::Dropped => doc.git_dir is None,
            Posting::Ignored => doc.compose is None || trim(doc.compose_draft@).len() == 0,
        }),
{
}

/// Posts the draft, without the white space around it. Whatever is sent, the
/// composer closes and the draft is cleared.
pub fn post_comment(doc: &mut ReviewDoc) -> (posting: Posting)
    ensures
        ({
            let body = trim(old(doc).compose_draft@);
            if body.len() == 0 || old(doc).compose is None {
                posting is Ignored && *final(doc) == *old(doc)
            } else {
                &&& final(doc).compose_draft@.len() == 0
                &&& *final(doc) == (ReviewDoc {
                    compose: None,
                    compose_draft: final(doc).compose_draft,
                    ..*old(doc)
                })
                &&& match (old(doc).git_dir, old(doc).compose->0) {
                    (None, _) => posting is Dropped,
                    (Some(dir), Composing::Reply(root)) => posting matches Posting::Reply {
                        git_dir,
                        parent,
                        body: b,
                    } && git_dir@ == dir@ && parent == root && b@ == body,
                    (Some(dir), Composing::Lines(c)) => posting matches Posting::Lines {
                        git_dir,
                        selection,
                        body: b,
                    } && git_dir@ == dir@ && selection == c && b@ == body,
                }
            }
        }),
        is_posted(*old(doc), posting),
{
    let body = trimmed(doc.compose_draft.as_str());
    if to_chars(body.as_str()).len() == 0 {
        return Posting::Ignored;
    }
    let target = match doc.compose {
        Some(target) => target,
        None => {
            return Posting::Ignored;
        },
    };
    doc.compose = None;
    doc.compose_draft = String::new();
    match &doc.git_dir {
        None => Posting::Dropped,
        Some(dir) => match target {
            Composing::Reply(parent) => Posting::Reply { git_dir: dir.clone(), parent, body },
            Composing::Lines(selection) => Posting::Lines { git_dir: dir.clone(), selection, body },
        },
    }
}

/// What a comment on lines is anchored to: the content of the lines, and the
/// path they are shown under.
#[derive(Debug)]
pub struct LineAnchor {
    pub path: String,
    pub blob: Oid,
    pub start: u32,
    pub end: u32,
}

/// The anchor of a comment on a run of lines.
pub fn anchor_of(doc: &ReviewDoc, side: Side) -> (anchor: LineAnchor)
    requires
        side.blob < doc.blobs@.len(),
    ensures
        anchor.path@ == doc.blobs@[side.blob as int].label@,
        anchor.blob == doc.blobs@[side.blob as int].oid,
        anchor.start == side.start,
        anchor.end == side.end,
{
    let blob = &doc.blobs[side.blob as usize];
    LineAnchor { path: blob.label.clone(), blob: blob.oid, start: side.start, end: side.end }
}

/// Closes the composer and drops its draft.
pub fn close_composer(doc: &mut ReviewDoc)
    ensures
        final(doc).compose_draft@.len() == 0,
        *final(doc) == (ReviewDoc {
            compose: None,
            compose_draft: final(doc).compose_draft,
            ..*old(doc)
        }),
{
    doc.compose = None;
    doc.compose_draft = String::new();
}

/// The stream whose composer takes the keyboard in this draw, if one asked to.
/// The draw that honours the request is the one that clears it.
pub fn take_focus(doc: &mut ReviewDoc) -> (tab: Option<Tab>)
    ensures
        tab == (if old(doc).compose_focus {
            Some(old(doc).tab)
        } else {
            None
        }),
        *final(doc) == (ReviewDoc { compose_focus: false, ..*old(doc) }),
{
    if doc.compose_focus {
        doc.compose_focus = false;
        Some(doc.tab)
    } else {
        None
    }
}

// ---------------------------------------------------------------------------
// Laws
// ---------------------------------------------------------------------------

/// A press selects the line that was pressed and no other: on the old side for
/// a line that was taken out, and on the new side for any other.
pub proof fn a_press_selects_its_line(kind: LineKind, blob: u32, line: u32)
    ensures
        ({
            let c = one_line(kind, blob, line);
            let side = Side { blob, start: line, end: line };
            &&& kind == LineKind::Del ==> c.old == Some(side) && c.new is None
            &&& kind != LineKind::Del ==> c.new == Some(side) && c.old is None
        }),
{
}

/// A selection is widened exactly within its file: on a side that it has, in
/// the same blob; on a side that it has not, in a blob of the same path. It then
/// reaches from the line to what was selected, and no further.
pub proof fn widening_stays_in_the_file(
    doc: &ReviewDoc,
    c: Compose,
    kind: LineKind,
    blob: u32,
    line: u32,
)
    ensures
        ({
            let here = if kind == LineKind::Del {
                c.old
            } else {
                c.new
            };
            let there = if kind == LineKind::Del {
                c.new
            } else {
                c.old
            };
            match widened(doc, c, kind, blob, line) {
                Some(w) => {
                    let now = if kind == LineKind::Del {
                        w.old
                    } else {
                        w.new
                    };
                    &&& (if kind == LineKind::Del {
                        w.new
                    } else {
                        w.old
                    }) == there
                    &&& now matches Some(s) && s.blob == blob && s.start <= line <= s.end
                    &&& here matches Some(before) ==> {
                        &&& before.blob == blob
                        &&& now->0.start == line || now->0.start == before.start
                        &&& now->0.end == line || now->0.end == before.end
                        &&& now->0.start <= before.start && before.end <= now->0.end
                        &&& before.start <= line <= before.end ==> now == here
                    }
                    &&& here is None ==> now->0.start == line && now->0.end == line && (
                    there matches Some(o) && doc.blobs@[o.blob as int].label@
                        == doc.blobs@[blob as int].label@)
                },
                None => {
                    ||| (here matches Some(before) && before.blob != blob)
                    ||| here is None && there is None
                    ||| here is None && (there matches Some(o) && doc.blobs@[o.blob as int].label@
                        != doc.blobs@[blob as int].label@)
                },
            }
        }),
{
}

/// A drag spans the rows from the one that it began on to the one under the
/// pointer, whichever of the two stands first.
pub proof fn a_drag_spans_both_ends(doc: &ReviewDoc, target: usize)
    ensures
        drag_span(doc, target) matches Some((first, last)) ==> {
            &&& first <= last
            &&& (first == doc.compose_anchor && last == target) || (first == target && last
                == doc.compose_anchor)
            &&& doc.compose is Some
            &&& forall|k: int|
                0 <= k < doc.rows(doc.tab).len() ==> !((#[trigger] doc.rows(doc.tab)[k]) is Composer)
        },
{
}

} // verus!
