//! The review list: what one stream-pinned list draws of its document.
//!
//! A draw begins with [`ReviewList::begin_draw`], which brings the list's
//! caches up to date with the document and says how the virtualized list is to
//! be sized and anchored; each entry is then described by
//! [`ReviewList::draw_item`], and [`ReviewList::pin`] settles which card header
//! stays pinned.

use crate::diff::{opt_text, Blob, KeySet, LineKey, LineKind, PathSet, Row};
use crate::review_doc::{Compose, Composing, ReviewDoc, Side, Tab};
use crate::text::{begins, decimal, number};
use crate::widgets::cards::{all_in, any_in, cards_of, Card, CardIndex, CardMeta};
use crate::widgets::find::{hits_in, hits_of};
use crate::widgets::folding::{
    entry_of, increasing, is_remapped, map_folded, mapping_of, remapped, row_at, row_of,
};
use crate::widgets::sticky::DrawnRow;
use vstd::prelude::*;
use vstd::utf8::encode_utf8;

verus! {

// ---------------------------------------------------------------------------
// Labels
// ---------------------------------------------------------------------------

/// The card header's title: a rename shows as "old → new", not as two files.
pub open spec fn title_of(path: Seq<char>, from: Option<String>) -> Seq<char> {
    match from {
        Some(f) => f@ + "  →  "@ + path,
        None => path,
    }
}

/// The card header's title.
pub fn header_title(path: &str, from: &Option<String>) -> (title: String)
    ensures
        title@ == title_of(path@, *from),
{
    match from {
        Some(f) => {
            let mut title = f.clone();
            title.append("  →  ");
            title.append(path);
            title
        },
        None => path.to_owned(),
    }
}

/// Added and removed lines, as the card header counts them.
pub open spec fn counts(adds: nat, dels: nat) -> Seq<char> {
    "+"@ + decimal(adds) + " -"@ + decimal(dels)
}

/// The card header's right-hand stat. A file that moved without a change says
/// so instead of counting its lines.
pub open spec fn stat_of(
    adds: nat,
    dels: nat,
    similarity: Option<u8>,
    partially_viewed: bool,
) -> Seq<char> {
    let stat = match similarity {
        Some(100) => "renamed, unchanged"@,
        Some(s) => "renamed "@ + decimal(s as nat) + "%   "@ + counts(adds, dels),
        None => counts(adds, dels),
    };
    if partially_viewed {
        "partially viewed · "@ + stat
    } else {
        stat
    }
}

fn count_text(adds: usize, dels: usize) -> (s: String)
    ensures
        s@ == counts(adds as nat, dels as nat),
{
    let a = number(adds as u64);
    let d = number(dels as u64);
    let mut s = "+".to_owned();
    s.append(a.as_str());
    s.append(" -");
    s.append(d.as_str());
    s
}

/// The card header's right-hand stat, shared with the pinned copy.
pub fn header_stat(
    adds: usize,
    dels: usize,
    similarity: Option<u8>,
    partially_viewed: bool,
) -> (stat: String)
    ensures
        stat@ == stat_of(adds as nat, dels as nat, similarity, partially_viewed),
{
    let changed = count_text(adds, dels);
    let stat = match similarity {
        Some(100) => "renamed, unchanged".to_owned(),
        Some(percent) => {
            let n = number(percent as u64);
            let mut stat = "renamed ".to_owned();
            stat.append(n.as_str());
            stat.append("%   ");
            stat.append(changed.as_str());
            stat
        },
        None => changed,
    };
    if partially_viewed {
        let mut out = "partially viewed · ".to_owned();
        out.append(stat.as_str());
        out
    } else {
        stat
    }
}

/// What the card header's toggle says: how much is hidden, or the way back.
pub open spec fn outdated_text(hidden: nat, showing: bool) -> Seq<char> {
    if showing {
        "hide outdated"@
    } else {
        decimal(hidden) + " outdated conversation"@ + (if hidden == 1 {
            ""@
        } else {
            "s"@
        })
    }
}

/// What the card header's toggle says.
pub fn outdated_label(hidden: usize, showing: bool) -> (label: String)
    ensures
        label@ == outdated_text(hidden as nat, showing),
{
    if showing {
        "hide outdated".to_owned()
    } else {
        let mut label = number(hidden as u64);
        label.append(" outdated conversation");
        label.append(
            if hidden == 1 {
                ""
            } else {
                "s"
            },
        );
        label
    }
}

/// What stands in for removed lines: how many there were.
pub open spec fn removed_text(n: nat) -> Seq<char> {
    decimal(n) + " line"@ + (if n == 1 {
        ""@
    } else {
        "s"@
    }) + " removed"@
}

fn removed_label(start: u32, end: u32) -> (label: String)
    requires
        start <= end,
    ensures
        label@ == removed_text((end - start + 1) as nat),
{
    let n: u64 = (end - start) as u64 + 1;
    let mut label = number(n);
    label.append(" line");
    label.append(
        if n == 1 {
            ""
        } else {
            "s"
        },
    );
    label.append(" removed");
    label
}

// ---------------------------------------------------------------------------
// Collapsed runs
// ---------------------------------------------------------------------------

/// Whether a row draws nothing between a collapsed run and the code: a hunk
/// anchor has no height, and a card's air is the padding around its code.
pub open spec fn steps_past(row: Row) -> bool {
    row is HunkBar || row is Spacer
}

/// Whether a row is part of the code that a run can grow.
pub open spec fn is_code(row: Row) -> bool {
    row is Code || row is Comment || row is Composer
}

/// Whether the rows from `from` on reach code before the card's chrome.
pub open spec fn code_below(rows: Seq<Row>, from: int) -> bool
    decreases rows.len() - from,
{
    if from < 0 || from >= rows.len() {
        false
    } else if steps_past(rows[from]) {
        code_below(rows, from + 1)
    } else {
        is_code(rows[from])
    }
}

/// Whether the rows before `to`, walked upwards, reach code before the card's
/// chrome.
pub open spec fn code_above(rows: Seq<Row>, to: int) -> bool
    decreases to,
{
    if to <= 0 || to > rows.len() {
        false
    } else if steps_past(rows[to - 1]) {
        code_above(rows, to - 1)
    } else {
        is_code(rows[to - 1])
    }
}

/// A file up to this many bytes is parsed inline the first time it is drawn;
/// past it, the dropped frames cost more than a moment of uncoloured text.
pub const PARSE_UNDER: usize = 524_288;

/// Whether the draw itself colours a blob's rows: where it can parse at all, and
/// the blob is short enough.
pub fn draws_own_spans(blob: &Blob, parses: bool) -> (r: bool)
    ensures
        r == (parses && encode_utf8(blob.text@).len() <= PARSE_UNDER),
{
    parses && blob.text.as_str().as_bytes().len() <= PARSE_UNDER
}

/// Whether the rows leading away from a collapsed run reach code, below it from
/// `at` on or above it up to `at`: that decides whether the end gets an
/// expander.
pub fn reaches_code(rows: &Vec<Row>, at: usize, below: bool) -> (r: bool)
    requires
        at <= rows.len(),
    ensures
        r == (if below {
            code_below(rows@, at as int)
        } else {
            code_above(rows@, at as int)
        }),
{
    let mut i: usize = at;
    if below {
        while i < rows.len()
            invariant
                below,
                at <= i <= rows.len(),
                code_below(rows@, at as int) == code_below(rows@, i as int),
            decreases rows.len() - i,
        {
            match &rows[i] {
                Row::HunkBar { .. } | Row::Spacer => {},
                Row::Code { .. } | Row::Comment { .. } | Row::Composer => {
                    return true;
                },
                _ => {
                    return false;
                },
            }
            i += 1;
        }
        false
    } else {
        while i > 0
            invariant
                !below,
                i <= at <= rows.len(),
                code_above(rows@, at as int) == code_above(rows@, i as int),
            decreases i,
        {
            match &rows[i - 1] {
                Row::HunkBar { .. } | Row::Spacer => {},
                Row::Code { .. } | Row::Comment { .. } | Row::Composer => {
                    return true;
                },
                _ => {
                    return false;
                },
            }
            i -= 1;
        }
        false
    }
}

// ---------------------------------------------------------------------------
// Streams
// ---------------------------------------------------------------------------

/// What a list's template pins it to.
#[derive(Clone, Copy, Debug, PartialEq, Eq, Structural)]
pub enum ListKind {
    Review,
    Sessions,
    Commits,
    Comments,
    Files,
    File,
}

/// The innermost widget on a path that is the dock tab of an open file.
pub open spec fn innermost_open(path: Seq<u64>, open: Seq<u64>) -> Option<u64>
    decreases path.len(),
{
    if path.len() == 0 {
        None
    } else if open.contains(path.last()) {
        Some(path.last())
    } else {
        innermost_open(path.drop_last(), open)
    }
}

/// The stream a list renders.
pub open spec fn stream_of(kind: ListKind, path: Seq<u64>, open: Seq<u64>) -> Tab {
    match kind {
        ListKind::Review => Tab::Guide,
        ListKind::Sessions => Tab::Sessions,
        ListKind::Commits => Tab::Commits,
        ListKind::Comments => Tab::Comments,
        ListKind::Files => Tab::Files,
        ListKind::File => Tab::File(
            match innermost_open(path, open) {
                Some(tab) => tab,
                None => 0,
            },
        ),
    }
}

fn listed(list: &Vec<u64>, id: u64) -> (r: bool)
    ensures
        r == list@.contains(id),
{
    let mut i: usize = 0;
    while i < list.len()
        invariant
            i <= list.len(),
            forall|k: int| 0 <= k < i ==> list@[k] != id,
        decreases list.len() - i,
    {
        if list[i] == id {
            return true;
        }
        i += 1;
    }
    false
}

/// The stream a list renders. There is one file pane per open file and they
/// share a kind, so a file pane finds out which file by looking for its own
/// dock tab on its path in the widget tree, the innermost first.
pub fn tab_of(kind: ListKind, path: &Vec<u64>, open: &Vec<u64>) -> (tab: Tab)
    ensures
        tab == stream_of(kind, path@, open@),
{
    match kind {
        ListKind::Review => Tab::Guide,
        ListKind::Sessions => Tab::Sessions,
        ListKind::Commits => Tab::Commits,
        ListKind::Comments => Tab::Comments,
        ListKind::Files => Tab::Files,
        ListKind::File => {
            let mut n: usize = path.len();
            assert(path@.take(path@.len() as int) =~= path@);
            while n > 0
                invariant
                    n <= path.len(),
                    innermost_open(path@, open@) == innermost_open(path@.take(n as int), open@),
                    kind == ListKind::File,
                decreases n,
            {
                assert(path@.take(n as int).drop_last() =~= path@.take(n - 1));
                if listed(open, path[n - 1]) {
                    return Tab::File(path[n - 1]);
                }
                n -= 1;
            }
            Tab::File(0)
        },
    }
}

// ---------------------------------------------------------------------------
// The list
// ---------------------------------------------------------------------------

/// What the review store has published: the lines ticked seen and the lines
/// under a comment, each with the revision it changes by.
#[derive(Debug)]
pub struct ReviewState {
    pub comments_rev: u64,
    pub seen_rev: u64,
    pub seen: KeySet,
    pub commented: KeySet,
}

/// One list, pinned to a stream.
#[derive(Debug)]
pub struct ReviewList {
    pub kind: ListKind,
    /// Row of the card header that is pinned, while one is.
    pub sticky_idx: Option<usize>,
    /// Row per list entry while cards are folded; empty stands for every row.
    pub visible: Vec<usize>,
    pub highlight_generation: u64,
    pub requested_highlights: Vec<(u32, u64)>,
    pub mapped_generation: u64,
    pub mapped_comments_rev: u64,
    pub mapped_rows_rev: u64,
    pub mapped_folded: PathSet,
    pub mapped_entries: usize,
    pub mapped_seen: Option<u64>,
    pub cards: CardIndex,
    /// Every code row last drawn, in draw order.
    pub drawn_rows: Vec<DrawnRow>,
    pub focus_find: bool,
    /// What the find bar looks for, while it is open.
    pub find: Option<String>,
    /// The stream last drawn.
    pub drawn_tab: Option<Tab>,
}

/// How a draw sizes and anchors the virtualized list.
#[derive(Clone, Copy, Debug, PartialEq, Eq, Structural)]
pub struct DrawPlan {
    /// How many entries there are.
    pub entries: usize,
    /// Set this range first: the list caches heights by entry, and a one-entry
    /// shrink drops the measurements of the old mapping.
    pub shrink_to: Option<usize>,
    /// Start the viewport on this entry, at its top.
    pub anchor: Option<usize>,
    /// The entry the viewport starts on.
    pub first_entry: usize,
}

impl ReviewList {
    /// The cards stand one after another, and the entries in order.
    pub open spec fn wf(&self) -> bool {
        self.cards.wf() && increasing(self.visible@)
    }

    /// Whether the row stream is not the one the list was mapped from.
    pub open spec fn stream_changed(&self, doc: &ReviewDoc, review: &ReviewState) -> bool {
        ||| self.mapped_generation != doc.generation
        ||| self.mapped_comments_rev != review.comments_rev
        ||| self.mapped_rows_rev != doc.rows_rev
    }

    /// Whether entries may name other rows than before.
    pub open spec fn mapping_changed(&self, doc: &ReviewDoc, review: &ReviewState) -> bool {
        self.stream_changed(doc, review) || self.mapped_folded@ != doc.folded@
    }

    /// How many entries the list has over `rows` rows.
    pub open spec fn entry_count(&self, rows: nat) -> nat {
        if self.visible@.len() == 0 {
            rows
        } else {
            self.visible@.len()
        }
    }

    /// A list that has drawn nothing yet.
    pub fn new(kind: ListKind) -> (list: ReviewList)
        ensures
            list.wf(),
            list.kind == kind,
            list.sticky_idx is None,
            list.visible@.len() == 0,
            list.cards@.len() == 0,
            list.mapped_generation == 0,
            list.mapped_comments_rev == 0,
            list.mapped_rows_rev == 0,
            list.mapped_folded@ == Set::<Seq<char>>::empty(),
            list.mapped_entries == 0,
            list.mapped_seen is None,
            list.find is None,
            !list.focus_find,
            list.drawn_tab is None,
    {
        ReviewList {
            kind,
            sticky_idx: None,
            visible: Vec::new(),
            highlight_generation: 0,
            requested_highlights: Vec::new(),
            mapped_generation: 0,
            mapped_comments_rev: 0,
            mapped_rows_rev: 0,
            mapped_folded: PathSet::new(),
            mapped_entries: 0,
            mapped_seen: None,
            cards: CardIndex::new(),
            drawn_rows: Vec::new(),
            focus_find: false,
            find: None,
            drawn_tab: None,
        }
    }

    /// Begins a draw of a stream: brings the mapping, the cards and their seen
    /// marks up to date with the document, and says how the virtualized list is
    /// to be sized. `first_id` is the entry its viewport starts on.
    ///
    /// The viewport is anchored again only when the entry it starts on moved:
    /// anchoring also resets the scroll within that entry, which would be a
    /// visible jump on every keystroke.
    pub fn begin_draw(
        &mut self,
        doc: &ReviewDoc,
        review: &ReviewState,
        tab: Tab,
        first_id: usize,
    ) -> (plan: DrawPlan)
        requires
            old(self).wf(),
        ensures
            final(self).wf(),
            final(self).kind == old(self).kind,
            final(self).sticky_idx == old(self).sticky_idx,
            final(self).find == old(self).find,
            !final(self).focus_find,
            final(self).drawn_tab == Some(tab),
            final(self).drawn_rows@.len() == 0,
            final(self).highlight_generation == doc.generation,
            final(self).requested_highlights@ == (if old(self).highlight_generation
                == doc.generation {
                old(self).requested_highlights@
            } else {
                Seq::empty()
            }),
            final(self).mapped_generation == doc.generation,
            final(self).mapped_comments_rev == review.comments_rev,
            final(self).mapped_rows_rev == doc.rows_rev,
            final(self).mapped_folded@ == doc.folded@,
            final(self).mapped_seen == Some(review.seen_rev),
            final(self).mapped_entries == plan.entries,
            final(self).visible@ == (if old(self).mapping_changed(doc, review) {
                mapping_of(doc.rows(tab), doc.folded@)
            } else {
                old(self).visible@
            }),
            final(self).cards@ == (if old(self).stream_changed(doc, review) {
                cards_of(doc.rows(tab))
            } else {
                old(self).cards@
            }),
            old(self).stream_changed(doc, review) || old(self).mapped_seen != Some(review.seen_rev)
                ==> marks_match(final(self).cards.cards@, review.seen@),
            !old(self).stream_changed(doc, review) && old(self).mapped_seen == Some(
                review.seen_rev,
            ) ==> final(self).cards == old(self).cards,
            plan.entries == final(self).entry_count(doc.rows(tab).len()),
            plan_is(
                *old(self),
                old(self).mapping_changed(doc, review),
                final(self).visible@,
                first_row(old(self).visible@, first_id),
                first_id,
                plan,
            ),
    {
        let none: Vec<Row> = Vec::new();
        let rows = match doc.stream(tab) {
            Some(rows) => rows,
            None => &none,
        };
        assert(rows@ =~= doc.rows(tab));
        self.drawn_tab = Some(tab);
        self.focus_find = false;
        self.drawn_rows = Vec::new();
        if self.highlight_generation != doc.generation {
            self.highlight_generation = doc.generation;
            self.requested_highlights = Vec::new();
            assert(self.requested_highlights@ =~= Seq::empty());
        }
        let stream_changed = self.mapped_generation != doc.generation || self.mapped_comments_rev
            != review.comments_rev || self.mapped_rows_rev != doc.rows_rev;
        let mapping_changed = stream_changed || !self.mapped_folded.same_as(&doc.folded);
        let previous_entries: usize = self.mapped_entries;
        let old_first_row: usize = match row_at(&self.visible, first_id) {
            Some(row) => row,
            None => 0,
        };
        if mapping_changed {
            self.visible = map_folded(rows, &doc.folded);
            self.mapped_generation = doc.generation;
            self.mapped_comments_rev = review.comments_rev;
            self.mapped_rows_rev = doc.rows_rev;
            self.mapped_folded = doc.folded.copy();
        }
        if stream_changed {
            self.cards.rebuild(rows);
        }
        let seen_changed = match self.mapped_seen {
            Some(rev) => rev != review.seen_rev,
            None => true,
        };
        if stream_changed || seen_changed {
            self.cards.update_seen(&review.seen);
            self.mapped_seen = Some(review.seen_rev);
        }
        let remapped_first: usize = remapped(&self.visible, old_first_row);
        let entries: usize = if self.visible.len() == 0 {
            rows.len()
        } else {
            self.visible.len()
        };
        self.mapped_entries = entries;
        let shrink_to: Option<usize> = if mapping_changed && previous_entries != 0 && entries
            >= previous_entries {
            Some(previous_entries - 1)
        } else {
            None
        };
        let anchor: Option<usize> = if mapping_changed && entries != 0 && remapped_first
            != first_id {
            Some(
                if remapped_first < entries - 1 {
                    remapped_first
                } else {
                    entries - 1
                },
            )
        } else {
            None
        };
        let first_entry: usize = if mapping_changed {
            remapped_first
        } else {
            first_id
        };
        let plan = DrawPlan { entries, shrink_to, anchor, first_entry };
        assert(is_remapped(self.visible@, old_first_row, remapped_first));
        assert(plan_with(
            *old(self),
            old(self).mapping_changed(doc, review),
            remapped_first,
            first_id,
            plan,
        ));
        plan
    }
}

/// Whether the cards' marks are those of a set of seen lines.
pub open spec fn marks_match(cards: Seq<CardMeta>, seen: Set<LineKey>) -> bool {
    forall|i: int|
        0 <= i < cards.len() ==> {
            let meta = #[trigger] cards[i];
            &&& meta.all_seen == all_in(meta.keys@, seen)
            &&& meta.any_seen == any_in(meta.keys@, seen)
        }
}

/// The row that the viewport starts on.
pub open spec fn first_row(visible: Seq<usize>, first_id: usize) -> usize {
    match row_of(visible, first_id as int) {
        Some(row) => row,
        None => 0,
    }
}

/// Whether a plan is the one for a list that was `list` before the draw: a
/// viewport that started on the entry `first_id`, which was `row`, starts on
/// the entry of the same row afterwards.
pub open spec fn plan_is(
    list: ReviewList,
    changed: bool,
    visible: Seq<usize>,
    row: usize,
    first_id: usize,
    plan: DrawPlan,
) -> bool {
    exists|first: usize| #[trigger] is_remapped(visible, row, first) && plan_with(list, changed, first, first_id, plan)
}

/// Whether a plan is the one for a viewport that starts on the entry `first`
/// under the new mapping.
pub open spec fn plan_with(
    list: ReviewList,
    changed: bool,
    first: usize,
    first_id: usize,
    plan: DrawPlan,
) -> bool {
    &&& plan.first_entry == (if changed {
        first
    } else {
        first_id
    })
    &&& plan.shrink_to == (if changed && list.mapped_entries != 0 && plan.entries
        >= list.mapped_entries {
        Some((list.mapped_entries - 1) as usize)
    } else {
        None
    })
    &&& plan.anchor == (if changed && plan.entries != 0 && first != first_id {
        Some(
            if first < plan.entries - 1 {
                first
            } else {
                (plan.entries - 1) as usize
            },
        )
    } else {
        None
    })
}

// ---------------------------------------------------------------------------
// Rows
// ---------------------------------------------------------------------------

/// A card header as it is drawn.
#[derive(Debug)]
pub struct HeaderItem {
    /// Hidden while the pinned copy stands in for it; the row keeps its height.
    pub body: bool,
    pub title: String,
    /// Whether the viewed tick box is set.
    pub seen: bool,
    pub stat: String,
    /// The toggle for the conversations that the range cannot place.
    pub outdated: Option<String>,
    pub folded: bool,
}

/// A code row as it is drawn.
#[derive(Debug)]
pub struct CodeItem {
    /// Without a card around it, as in an editor.
    pub flat: bool,
    pub kind: LineKind,
    pub old_no: Option<u32>,
    pub new_no: Option<u32>,
    pub blob: u32,
    pub line: u32,
    pub seen: bool,
    pub commented: bool,
    pub selected: bool,
    pub caret: Option<u32>,
    pub hits: Vec<(usize, usize)>,
    pub selection: RowSelection,
}

/// What a draw does to the selection that a row shows.
#[derive(Clone, Copy, Debug, PartialEq, Eq, Structural)]
pub enum RowSelection {
    /// It stays: the list has a gesture of its own, which is the live one.
    Kept,
    /// It covers these bytes.
    Over { from: usize, to: usize },
    Cleared,
}

/// What a draw knows of a row beside the document.
#[derive(Debug)]
pub struct RowContext {
    /// How many conversations on a header's path the range cannot place.
    pub hidden: usize,
    /// Whether the list has a selection that its own pointer gesture made.
    pub own_gesture: bool,
    /// What the document's selection covers of a code row.
    pub selection: Option<(usize, usize)>,
    /// What a composer asks for while nothing is written in it.
    pub prompt: String,
    /// Whether nothing is written in the composer's field.
    pub field_empty: bool,
    /// The stream whose composer takes the keyboard.
    pub focus_composer: Option<Tab>,
}

/// A row as it is drawn.
#[derive(Debug)]
pub enum Item {
    /// The field for a comment, with a draft to put back where the field was
    /// made anew.
    Composer { prompt: String, draft: Option<String>, focus: bool },
    Title { text: String },
    Prose { text: String },
    Warning { text: String },
    FileHeader(HeaderItem),
    Removed { label: String },
    Skipped { head: bool, tail: bool },
    Spacer { marked: bool },
    Code(CodeItem),
    HunkBar,
    Comment { reply: bool, meta: String, body: String },
    CardEnd,
}

/// Whether a row names text that the document has.
pub open spec fn row_refers(doc: &ReviewDoc, row: Row) -> bool {
    match row {
        Row::Code { blob, line, .. } => blob < doc.blobs@.len() && line
            < doc.blobs@[blob as int].lines@.len(),
        Row::Removed { start, end } => start <= end,
        _ => true,
    }
}

/// Whether a row is in a card all of whose changed lines have been seen.
pub open spec fn in_seen_card(cards: Seq<CardMeta>, row: int) -> bool {
    exists|i: int|
        0 <= i < cards.len() && (#[trigger] cards[i]).header <= row <= cards[i].end
            && cards[i].all_seen
}

/// Whether the card with this header has been seen whole.
pub open spec fn header_all_seen(cards: Seq<CardMeta>, header: int) -> bool {
    exists|i: int|
        0 <= i < cards.len() && (#[trigger] cards[i]).header == header && cards[i].all_seen
}

/// Whether the card with this header has been seen in part or whole.
pub open spec fn header_any_seen(cards: Seq<CardMeta>, header: int) -> bool {
    exists|i: int|
        0 <= i < cards.len() && (#[trigger] cards[i]).header == header && cards[i].any_seen
}

/// Whether a line is in the range that a comment is being written on. A
/// deleted row is on the old side, any other on the new one; a reply selects
/// no lines.
pub open spec fn composing_on(
    compose: Option<Composing>,
    kind: LineKind,
    blob: u32,
    line: u32,
) -> bool {
    match compose {
        Some(Composing::Lines(c)) => {
            let side = if kind == LineKind::Del {
                c.old
            } else {
                c.new
            };
            match side {
                Some(s) => s.blob == blob && s.start <= line <= s.end,
                None => false,
            }
        },
        _ => false,
    }
}

/// What a draw does to the selection that a row shows: the document's is painted,
/// unless the list has a gesture of its own.
pub open spec fn selection_of(context: RowContext) -> RowSelection {
    if context.own_gesture {
        RowSelection::Kept
    } else {
        match context.selection {
            Some(s) => RowSelection::Over { from: s.0, to: s.1 },
            None => RowSelection::Cleared,
        }
    }
}

/// Whether an item is how a list draws the row at `r` of a document.
pub open spec fn shows(
    list: &ReviewList,
    doc: &ReviewDoc,
    review: &ReviewState,
    tab: Tab,
    r: int,
    context: RowContext,
    item: Item,
) -> bool {
    let hidden = context.hidden as nat;
    let cards = list.cards.cards@;
    match (doc.rows(tab)[r], item) {
        (Row::Composer, Item::Composer { prompt, draft, focus }) => {
            &&& prompt@ == context.prompt@
            &&& opt_text(draft) == (if context.field_empty && doc.compose_draft@.len() > 0 {
                Some(doc.compose_draft@)
            } else {
                None
            })
            &&& focus == (context.focus_composer == Some(tab))
        },
        (Row::Title { text }, Item::Title { text: shown }) => shown@ == text@,
        (Row::Prose { md }, Item::Prose { text: shown }) => shown@ == md@,
        (Row::Warning { text }, Item::Warning { text: shown }) => shown@ == text@,
        (Row::FileHeader { path, adds, dels, from, similarity }, Item::FileHeader(h)) => {
            let all = header_all_seen(cards, r);
            let any = header_any_seen(cards, r);
            &&& h.body == (list.sticky_idx != Some(r as usize))
            &&& h.title@ == title_of(path@, from)
            &&& h.seen == all
            &&& h.stat@ == stat_of(adds as nat, dels as nat, similarity, any && !all)
            &&& (match h.outdated {
                Some(label) => hidden > 0 && label@ == outdated_text(
                    hidden,
                    doc.show_all_comments@.contains(path@),
                ),
                None => hidden == 0,
            })
            &&& h.folded == doc.folded@.contains(path@)
        },
        (Row::Removed { start, end }, Item::Removed { label }) => label@ == removed_text(
            (end - start + 1) as nat,
        ),
        (Row::Collapsed, Item::Skipped { head, tail }) => {
            &&& head == code_above(doc.rows(tab), r)
            &&& tail == code_below(doc.rows(tab), r + 1)
        },
        (Row::Spacer, Item::Spacer { marked }) => marked == in_seen_card(cards, r),
        (Row::Code { kind, old_no, new_no, blob, line }, Item::Code(c)) => {
            let b = doc.blobs@[blob as int];
            let key = LineKey { oid: b.oid, line };
            &&& c.flat == (list.kind == ListKind::File)
            &&& c.kind == kind
            &&& c.old_no == old_no
            &&& c.new_no == new_no
            &&& c.blob == blob
            &&& c.line == line
            &&& c.seen == (review.seen@.contains(key) || in_seen_card(cards, r))
            &&& c.commented == review.commented@.contains(key)
            &&& c.selected == composing_on(doc.compose, kind, blob, line)
            &&& c.caret == (match doc.caret {
                Some(caret) => if caret.blob == blob && caret.line == line {
                    Some(caret.byte)
                } else {
                    None
                },
                None => None,
            })
            &&& c.hits@ == hits_of(
                b.lines@[line as int]@,
                match list.find {
                    Some(query) => Some(query@),
                    None => None,
                },
            )
            &&& c.selection == selection_of(context)
        },
        (Row::HunkBar { .. }, Item::HunkBar) => true,
        (Row::Comment { id, parent, body, meta }, Item::Comment { reply, meta: m, body: b }) => {
            &&& reply == (parent is Some)
            &&& m@ == meta@
            &&& b@ == body@
        },
        (Row::CardEnd, Item::CardEnd) => true,
        _ => false,
    }
}

fn on_selection(compose: &Option<Composing>, kind: LineKind, blob: u32, line: u32) -> (r: bool)
    ensures
        r == composing_on(*compose, kind, blob, line),
{
    match compose {
        Some(Composing::Lines(c)) => {
            let side: Option<Side> = if kind == LineKind::Del {
                c.old
            } else {
                c.new
            };
            match side {
                Some(s) => s.blob == blob && s.start <= line && line <= s.end,
                None => false,
            }
        },
        _ => false,
    }
}

impl ReviewList {
    /// Whether a row is in a card that has been seen whole.
    fn seen_around(&self, row: usize) -> (r: bool)
        requires
            self.wf(),
        ensures
            r == in_seen_card(self.cards.cards@, row as int),
    {
        match self.cards.containing(row) {
            Some(i) => {
                proof {
                    assert(self.cards@[i as int] == self.cards.cards@[i as int].card());
                    if in_seen_card(self.cards.cards@, row as int) {
                        let k = choose|k: int|
                            0 <= k < self.cards.cards@.len() && (
                            #[trigger] self.cards.cards@[k]).header <= row
                                <= self.cards.cards@[k].end && self.cards.cards@[k].all_seen;
                        assert(self.cards@[k] == self.cards.cards@[k].card());
                        assert(k == i);
                    }
                }
                self.cards.cards[i].all_seen
            },
            None => {
                proof {
                    assert forall|k: int| 0 <= k < self.cards.cards@.len() implies !((
                    #[trigger] self.cards.cards@[k]).header <= row <= self.cards.cards@[k].end) by {
                        assert(self.cards@[k] == self.cards.cards@[k].card());
                    }
                }
                false
            },
        }
    }

    /// Whether the card with this header has been seen: whole, and at all.
    fn header_marks(&self, header: usize) -> (r: (bool, bool))
        requires
            self.wf(),
        ensures
            r.0 == header_all_seen(self.cards.cards@, header as int),
            r.1 == header_any_seen(self.cards.cards@, header as int),
    {
        match self.cards.at(header) {
            Some(i) => {
                proof {
                    assert forall|k: int|
                        0 <= k < self.cards.cards@.len() && (
                        #[trigger] self.cards.cards@[k]).header == header implies k == i by {
                        assert(self.cards@[k] == self.cards.cards@[k].card());
                        assert(self.cards@[i as int] == self.cards.cards@[i as int].card());
                    }
                }
                (self.cards.cards[i].all_seen, self.cards.cards[i].any_seen)
            },
            None => {
                proof {
                    assert forall|k: int| 0 <= k < self.cards.cards@.len() implies (
                    #[trigger] self.cards.cards@[k]).header != header by {
                        assert(self.cards@[k] == self.cards.cards@[k].card());
                    }
                }
                (false, false)
            },
        }
    }

    /// How a card header is drawn, in its row and pinned alike.
    fn header_item(
        &self,
        doc: &ReviewDoc,
        path: &String,
        adds: usize,
        dels: usize,
        from: &Option<String>,
        similarity: Option<u8>,
        r: usize,
        hidden: usize,
    ) -> (h: HeaderItem)
        requires
            self.wf(),
        ensures
            h.body == (self.sticky_idx != Some(r)),
            h.title@ == title_of(path@, *from),
            h.seen == header_all_seen(self.cards.cards@, r as int),
            h.stat@ == stat_of(
                adds as nat,
                dels as nat,
                similarity,
                header_any_seen(self.cards.cards@, r as int) && !header_all_seen(
                    self.cards.cards@,
                    r as int,
                ),
            ),
            (match h.outdated {
                Some(label) => hidden > 0 && label@ == outdated_text(
                    hidden as nat,
                    doc.show_all_comments@.contains(path@),
                ),
                None => hidden == 0,
            }),
            h.folded == doc.folded@.contains(path@),
    {
        let (all, any) = self.header_marks(r);
        let outdated = if hidden > 0 {
            Some(outdated_label(hidden, doc.show_all_comments.contains(path.as_str())))
        } else {
            None
        };
        let body = match self.sticky_idx {
            Some(pinned) => pinned != r,
            None => true,
        };
        HeaderItem {
            body,
            title: header_title(path.as_str(), from),
            seen: all,
            stat: header_stat(adds, dels, similarity, any && !all),
            outdated,
            folded: doc.folded.contains(path.as_str()),
        }
    }

    /// How the row at `r` is drawn; nothing for a row that is not there.
    pub fn draw_item(
        &self,
        doc: &ReviewDoc,
        review: &ReviewState,
        tab: Tab,
        r: usize,
        context: &RowContext,
    ) -> (item: Option<Item>)
        requires
            self.wf(),
            r < doc.rows(tab).len() ==> row_refers(doc, doc.rows(tab)[r as int]),
        ensures
            (match item {
                Some(item) => r < doc.rows(tab).len() && shows(
                    self,
                    doc,
                    review,
                    tab,
                    r as int,
                    *context,
                    item,
                ),
                None => r >= doc.rows(tab).len(),
            }),
    {
        let rows = match doc.stream(tab) {
            Some(rows) => rows,
            None => {
                return None;
            },
        };
        if r >= rows.len() {
            return None;
        }
        Some(
            match &rows[r] {
                Row::Composer => {
                    let restore = context.field_empty && !doc.compose_draft.as_str().is_empty();
                    Item::Composer {
                        prompt: context.prompt.clone(),
                        draft: if restore {
                            Some(doc.compose_draft.clone())
                        } else {
                            None
                        },
                        focus: match context.focus_composer {
                            Some(focused) => focused == tab,
                            None => false,
                        },
                    }
                },
                Row::Title { text } => Item::Title { text: text.clone() },
                Row::Prose { md } => Item::Prose { text: md.clone() },
                Row::Warning { text } => Item::Warning { text: text.clone() },
                Row::FileHeader { path, adds, dels, from, similarity } => Item::FileHeader(
                    self.header_item(doc, path, *adds, *dels, from, *similarity, r, context.hidden),
                ),
                Row::Removed { start, end } => Item::Removed { label: removed_label(*start, *end) },
                Row::Collapsed => Item::Skipped {
                    head: reaches_code(rows, r, false),
                    tail: reaches_code(rows, r + 1, true),
                },
                Row::Spacer => Item::Spacer { marked: self.seen_around(r) },
                Row::Code { kind, old_no, new_no, blob, line } => {
                    let b = &doc.blobs[*blob as usize];
                    let key = LineKey { oid: b.oid, line: *line };
                    let caret: Option<u32> = match &doc.caret {
                        Some(caret) => if caret.blob == *blob && caret.line == *line {
                            Some(caret.byte)
                        } else {
                            None
                        },
                        None => None,
                    };
                    let query: Option<&str> = match &self.find {
                        Some(query) => Some(query.as_str()),
                        None => None,
                    };
                    Item::Code(
                        CodeItem {
                            flat: self.kind == ListKind::File,
                            kind: *kind,
                            old_no: *old_no,
                            new_no: *new_no,
                            blob: *blob,
                            line: *line,
                            seen: review.seen.contains(&key) || self.seen_around(r),
                            commented: review.commented.contains(&key),
                            selected: on_selection(&doc.compose, *kind, *blob, *line),
                            caret,
                            hits: hits_in(b.lines[*line as usize].as_str(), query),
                            selection: if context.own_gesture {
                                RowSelection::Kept
                            } else {
                                match context.selection {
                                    Some((from, to)) => RowSelection::Over { from, to },
                                    None => RowSelection::Cleared,
                                }
                            },
                        },
                    )
                },
                Row::HunkBar { .. } => Item::HunkBar,
                Row::Comment { id, parent, body, meta } => Item::Comment {
                    reply: parent.is_some(),
                    meta: meta.clone(),
                    body: body.clone(),
                },
                Row::CardEnd => Item::CardEnd,
            },
        )
    }

    /// Whether a row's blob is to be highlighted by the worker: only one that
    /// the draw does not colour itself, whose colours are stale, and once per
    /// revision.
    pub fn request_highlight(&mut self, blob: u32, rev: u64, draws_own: bool, stale: bool) -> (ask:
        bool)
        ensures
            ask == (!draws_own && stale && !old(self).requested_highlights@.contains((blob, rev))),
            final(self).requested_highlights@ == (if ask {
                old(self).requested_highlights@.push((blob, rev))
            } else {
                old(self).requested_highlights@
            }),
            *final(self) == (ReviewList {
                requested_highlights: final(self).requested_highlights,
                ..*old(self)
            }),
    {
        if draws_own || !stale {
            return false;
        }
        let mut i: usize = 0;
        while i < self.requested_highlights.len()
            invariant
                i <= self.requested_highlights.len(),
                *self == *old(self),
                forall|k: int| 0 <= k < i ==> self.requested_highlights@[k] != (blob, rev),
            decreases self.requested_highlights.len() - i,
        {
            let asked = self.requested_highlights[i];
            if asked.0 == blob && asked.1 == rev {
                assert(self.requested_highlights@.contains((blob, rev)));
                return false;
            }
            i += 1;
        }
        self.requested_highlights.push((blob, rev));
        true
    }

    /// Settles which card header is pinned, from the entry at the viewport's
    /// top edge: the header of the card that the edge is in. A folded card has
    /// no rows to scroll past its header, so its header is never pinned.
    ///
    /// Gives the entries of that card's header and end rows, from whose
    /// positions the pinned copy's own follows.
    pub fn pin(&mut self, doc: &ReviewDoc, tab: Tab, anchor: usize) -> (entries: (
        Option<usize>,
        Option<usize>,
    ))
        requires
            old(self).wf(),
        ensures
            final(self).wf(),
            *final(self) == (ReviewList { sticky_idx: final(self).sticky_idx, ..*old(self) }),
            pinned(
                *old(self),
                doc,
                tab,
                first_row(old(self).visible@, anchor),
                final(self).sticky_idx,
                entries,
            ),
    {
        let first: usize = match row_at(&self.visible, anchor) {
            Some(row) => row,
            None => 0,
        };
        match self.cards.containing(first) {
            Some(i) => {
                let header: usize = self.cards.cards[i].header;
                let end: usize = self.cards.cards[i].end;
                assert(self.cards@[i as int] == self.cards.cards@[i as int].card());
                let shut = match doc.row(tab, header) {
                    Some(Row::FileHeader { path, .. }) => doc.folded.contains(path.as_str()),
                    _ => false,
                };
                self.sticky_idx = if shut {
                    None
                } else {
                    Some(header)
                };
                let top = entry_of(&self.visible, header);
                let bottom = if shut {
                    None
                } else {
                    entry_of(&self.visible, end)
                };
                let ghost card = self.cards@[i as int];
                assert(pinned_to(*old(self), doc, tab, card, self.sticky_idx, (top, bottom)));
                (top, bottom)
            },
            None => {
                self.sticky_idx = None;
                (None, None)
            },
        }
    }
}

/// Whether a header row's path is folded.
pub open spec fn header_folded(doc: &ReviewDoc, tab: Tab, header: int) -> bool {
    0 <= header < doc.rows(tab).len() && (doc.rows(tab)[header] matches Row::FileHeader {
        path,
        ..
    } && doc.folded@.contains(path@))
}

/// Whether `entry` is the entry of a row, or `None` for a row that has none.
pub open spec fn entry_is(visible: Seq<usize>, row: int, entry: Option<usize>) -> bool {
    match entry {
        Some(e) => row_of(visible, e as int) == Some(row as usize),
        None => forall|e: int| row_of(visible, e) != Some(row as usize) || e < 0,
    }
}

/// Whether the pinned header is that of one card, and the two entries are those
/// of its header and end rows.
pub open spec fn pinned_to(
    list: ReviewList,
    doc: &ReviewDoc,
    tab: Tab,
    card: Card,
    sticky: Option<usize>,
    entries: (Option<usize>, Option<usize>),
) -> bool {
    let shut = header_folded(doc, tab, card.header);
    &&& entry_is(list.visible@, card.header, entries.0)
    &&& sticky == (if shut {
        None
    } else {
        Some(card.header as usize)
    })
    &&& if shut {
        entries.1 is None
    } else {
        entry_is(list.visible@, card.end, entries.1)
    }
}

/// Whether the pinned header is that of the card around a row.
pub open spec fn pinned(
    list: ReviewList,
    doc: &ReviewDoc,
    tab: Tab,
    row: usize,
    sticky: Option<usize>,
    entries: (Option<usize>, Option<usize>),
) -> bool {
    if exists|i: int|
        0 <= i < list.cards@.len() && (#[trigger] list.cards@[i]).header <= row
            <= list.cards@[i].end {
        exists|i: int|
            0 <= i < list.cards@.len() && (#[trigger] list.cards@[i]).header <= row
                <= list.cards@[i].end && pinned_to(list, doc, tab, list.cards@[i], sticky, entries)
    } else {
        sticky is None && entries == (None::<usize>, None::<usize>)
    }
}

// ---------------------------------------------------------------------------
// Laws
// ---------------------------------------------------------------------------

/// A header's title ends with the file's path, and begins with the former one
/// where it was renamed. Its stat ends with how many lines were added and taken
/// out, unless the file moved unchanged, and says first where only a part of the
/// card was viewed.
pub proof fn a_header_shows_its_file(
    path: Seq<char>,
    from: Option<String>,
    adds: nat,
    dels: nat,
    similarity: Option<u8>,
    partly: bool,
)
    ensures
        ({
            let title = title_of(path, from);
            let stat = stat_of(adds, dels, similarity, partly);
            let tail = "+"@ + decimal(adds) + " -"@ + decimal(dels);
            &&& path.len() <= title.len() && title.skip(title.len() - path.len()) == path
            &&& from matches Some(f) ==> begins(title, f@) && title.len() > f@.len() + path.len()
            &&& from is None ==> title == path
            &&& similarity != Some(100u8) ==> tail.len() <= stat.len() && stat.skip(
                stat.len() - tail.len(),
            ) == tail
            &&& similarity == Some(100u8) && !partly ==> stat == "renamed, unchanged"@
            &&& partly ==> begins(stat, "partially viewed · "@)
            &&& similarity is None && !partly ==> stat == tail
        }),
{
    let title = title_of(path, from);
    let stat = stat_of(adds, dels, similarity, partly);
    let tail = "+"@ + decimal(adds) + " -"@ + decimal(dels);
    reveal_strlit("  →  ");
    assert(title.skip(title.len() - path.len()) =~= path);
    if let Some(f) = from {
        assert(title.take(f@.len() as int) =~= f@);
    }
    if similarity != Some(100u8) {
        assert(stat.skip(stat.len() - tail.len()) =~= tail);
    }
    if partly {
        let mark = "partially viewed · "@;
        assert(stat.take(mark.len() as int) =~= mark);
    }
}

/// A collapsed run can grow downwards exactly where code follows it with nothing
/// but hunk bars and spacers between, and upwards where code goes before it in
/// the same way.
pub proof fn a_run_grows_towards_code(rows: Seq<Row>, at: int)
    requires
        0 <= at <= rows.len(),
    ensures
        code_below(rows, at) <==> exists|k: int|
            at <= k < rows.len() && ((#[trigger] rows[k]) is Code || rows[k] is Comment
                || rows[k] is Composer) && (forall|j: int|
                at <= j < k ==> (#[trigger] rows[j]) is HunkBar || rows[j] is Spacer),
        code_above(rows, at) <==> exists|k: int|
            0 <= k < at && ((#[trigger] rows[k]) is Code || rows[k] is Comment
                || rows[k] is Composer) && (forall|j: int|
                k < j < at ==> (#[trigger] rows[j]) is HunkBar || rows[j] is Spacer),
{
    lemma_code_below(rows, at);
    lemma_code_above(rows, at);
}

proof fn lemma_code_below(rows: Seq<Row>, at: int)
    requires
        0 <= at <= rows.len(),
    ensures
        code_below(rows, at) <==> exists|k: int|
            at <= k < rows.len() && ((#[trigger] rows[k]) is Code || rows[k] is Comment
                || rows[k] is Composer) && (forall|j: int|
                at <= j < k ==> (#[trigger] rows[j]) is HunkBar || rows[j] is Spacer),
    decreases rows.len() - at,
{
    if at < rows.len() {
        if steps_past(rows[at]) {
            lemma_code_below(rows, at + 1);
            if code_below(rows, at) {
                let k = choose|k: int|
                    at + 1 <= k < rows.len() && ((#[trigger] rows[k]) is Code || rows[k] is Comment
                        || rows[k] is Composer) && (forall|j: int|
                        at + 1 <= j < k ==> (#[trigger] rows[j]) is HunkBar || rows[j] is Spacer);
                assert(forall|j: int|
                    at <= j < k ==> (#[trigger] rows[j]) is HunkBar || rows[j] is Spacer);
                assert(rows[k] is Code || rows[k] is Comment || rows[k] is Composer);
            }
            if exists|k: int|
                at <= k < rows.len() && ((#[trigger] rows[k]) is Code || rows[k] is Comment
                    || rows[k] is Composer) && (forall|j: int|
                    at <= j < k ==> (#[trigger] rows[j]) is HunkBar || rows[j] is Spacer) {
                let k = choose|k: int|
                    at <= k < rows.len() && ((#[trigger] rows[k]) is Code || rows[k] is Comment
                        || rows[k] is Composer) && (forall|j: int|
                        at <= j < k ==> (#[trigger] rows[j]) is HunkBar || rows[j] is Spacer);
                assert(k != at);
                assert(rows[k] is Code || rows[k] is Comment || rows[k] is Composer);
            }
        } else if is_code(rows[at]) {
            assert(rows[at] is Code || rows[at] is Comment || rows[at] is Composer);
        } else {
            assert(!(rows[at] is HunkBar || rows[at] is Spacer));
        }
    }
}

proof fn lemma_code_above(rows: Seq<Row>, at: int)
    requires
        0 <= at <= rows.len(),
    ensures
        code_above(rows, at) <==> exists|k: int|
            0 <= k < at && ((#[trigger] rows[k]) is Code || rows[k] is Comment
                || rows[k] is Composer) && (forall|j: int|
                k < j < at ==> (#[trigger] rows[j]) is HunkBar || rows[j] is Spacer),
    decreases at,
{
    if at > 0 {
        let last = at - 1;
        if steps_past(rows[last]) {
            lemma_code_above(rows, last);
            if code_above(rows, at) {
                let k = choose|k: int|
                    0 <= k < last && ((#[trigger] rows[k]) is Code || rows[k] is Comment
                        || rows[k] is Composer) && (forall|j: int|
                        k < j < last ==> (#[trigger] rows[j]) is HunkBar || rows[j] is Spacer);
                assert(forall|j: int|
                    k < j < at ==> (#[trigger] rows[j]) is HunkBar || rows[j] is Spacer);
                assert(rows[k] is Code || rows[k] is Comment || rows[k] is Composer);
            }
            if exists|k: int|
                0 <= k < at && ((#[trigger] rows[k]) is Code || rows[k] is Comment
                    || rows[k] is Composer) && (forall|j: int|
                    k < j < at ==> (#[trigger] rows[j]) is HunkBar || rows[j] is Spacer) {
                let k = choose|k: int|
                    0 <= k < at && ((#[trigger] rows[k]) is Code || rows[k] is Comment
                        || rows[k] is Composer) && (forall|j: int|
                        k < j < at ==> (#[trigger] rows[j]) is HunkBar || rows[j] is Spacer);
                assert(k != last);
                assert(rows[k] is Code || rows[k] is Comment || rows[k] is Composer);
            }
        } else if is_code(rows[last]) {
            assert(rows[last] is Code || rows[last] is Comment || rows[last] is Composer);
        } else {
            assert(!(rows[last] is HunkBar || rows[last] is Spacer));
        }
    }
}

/// A list shows the stream that it is made for, and a file's list the file of
/// the innermost tab around it.
pub proof fn a_list_shows_its_stream(path: Seq<u64>, open: Seq<u64>, i: int)
    ensures
        stream_of(ListKind::Review, path, open) == Tab::Guide,
        stream_of(ListKind::Sessions, path, open) == Tab::Sessions,
        stream_of(ListKind::Commits, path, open) == Tab::Commits,
        stream_of(ListKind::Comments, path, open) == Tab::Comments,
        stream_of(ListKind::Files, path, open) == Tab::Files,
        0 <= i < path.len() && open.contains(path[i]) && (forall|k: int|
            i < k < path.len() ==> !open.contains(#[trigger] path[k])) ==> stream_of(
            ListKind::File,
            path,
            open,
        ) == Tab::File(path[i]),
{
    if 0 <= i < path.len() && open.contains(path[i]) && (forall|k: int|
        i < k < path.len() ==> !open.contains(#[trigger] path[k])) {
        lemma_innermost(path, open, i);
    }
}

proof fn lemma_innermost(path: Seq<u64>, open: Seq<u64>, i: int)
    requires
        0 <= i < path.len(),
        open.contains(path[i]),
        forall|k: int| i < k < path.len() ==> !open.contains(#[trigger] path[k]),
    ensures
        innermost_open(path, open) == Some(path[i]),
    decreases path.len(),
{
    if i < path.len() - 1 {
        let rest = path.drop_last();
        assert(!open.contains(path[path.len() - 1]));
        assert forall|k: int| i < k < rest.len() implies !open.contains(#[trigger] rest[k]) by {
            assert(rest[k] == path[k]);
        }
        lemma_innermost(rest, open, i);
    }
}

/// What is drawn of a row is the row's own: of a comment its words and who wrote
/// them, of a line of code its numbers, its text's place, its caret and whether
/// it was seen or commented on, of a header its file and whether it is folded.
pub proof fn a_row_is_drawn_as_it_is(
    list: &ReviewList,
    doc: &ReviewDoc,
    review: &ReviewState,
    tab: Tab,
    r: int,
    context: RowContext,
    item: Item,
)
    requires
        0 <= r < doc.rows(tab).len(),
        shows(list, doc, review, tab, r, context, item),
    ensures
        (match doc.rows(tab)[r] {
            Row::Comment { id: _, parent, body, meta } => item matches Item::Comment {
                reply,
                meta: m,
                body: b,
            } && b@ == body@ && m@ == meta@ && (reply <==> parent is Some),
            Row::Code { kind, old_no, new_no, blob, line } => item matches Item::Code(c) && {
                let key = LineKey { oid: doc.blobs@[blob as int].oid, line };
                &&& c.kind == kind && c.old_no == old_no && c.new_no == new_no
                &&& c.blob == blob && c.line == line
                &&& review.seen@.contains(key) ==> c.seen
                &&& c.commented <==> review.commented@.contains(key)
                &&& c.caret is Some <==> (doc.caret matches Some(at) && at.blob == blob && at.line
                    == line)
                &&& c.caret is Some ==> c.caret->0 == doc.caret->0.byte
                &&& list.find is None ==> c.hits@.len() == 0
            },
            Row::FileHeader { path, adds: _, dels: _, from, similarity: _ } => item matches Item::FileHeader(
                h,
            ) && (h.folded <==> doc.folded@.contains(path@)) && (from is None ==> h.title@
                == path@) && (h.outdated is Some <==> context.hidden > 0),
            Row::Title { text } => item matches Item::Title { text: shown } && shown@ == text@,
            Row::Prose { md } => item matches Item::Prose { text: shown } && shown@ == md@,
            Row::Warning { text } => item matches Item::Warning { text: shown } && shown@ == text@,
            Row::Removed { .. } => item is Removed,
            Row::Collapsed => item is Skipped,
            Row::Spacer => item is Spacer,
            Row::HunkBar { .. } => item is HunkBar,
            Row::CardEnd => item is CardEnd,
            Row::Composer => item matches Item::Composer { prompt, draft, focus: _ } && prompt@
                == context.prompt@ && (draft matches Some(d) ==> d@ == doc.compose_draft@),
        }),
{
}

/// A line is marked as selected exactly when it is in the range that a comment
/// is being written on, on the side of the diff that it is on.
pub proof fn selected_lines_are_marked(
    c: Compose,
    kind: LineKind,
    s: Side,
    line: u32,
    root: i64,
)
    requires
        (if kind == LineKind::Del {
            c.old
        } else {
            c.new
        }) == Some(s),
    ensures
        composing_on(Some(Composing::Lines(c)), kind, s.blob, line) <==> s.start <= line <= s.end,
        !composing_on(Some(Composing::Reply(root)), kind, s.blob, line),
        !composing_on(None, kind, s.blob, line),
{
}

/// The header that is pinned is that of the card around the row at the top, and
/// a folded card's never is; outside of cards none is.
pub proof fn the_pinned_header_is_of_the_card_on_top(
    list: ReviewList,
    doc: &ReviewDoc,
    tab: Tab,
    row: usize,
    sticky: Option<usize>,
    entries: (Option<usize>, Option<usize>),
)
    requires
        pinned(list, doc, tab, row, sticky, entries),
        forall|i: int|
            0 <= i < list.cards@.len() ==> 0 <= (#[trigger] list.cards@[i]).header <= usize::MAX,
    ensures
        sticky matches Some(h) ==> h <= row && !header_folded(doc, tab, h as int) && exists|i: int|
            0 <= i < list.cards@.len() && (#[trigger] list.cards@[i]).header == h && row
                <= list.cards@[i].end,
        (forall|i: int|
            0 <= i < list.cards@.len() ==> !((#[trigger] list.cards@[i]).header <= row
                <= list.cards@[i].end)) ==> sticky is None,
{
    if let Some(h) = sticky {
        let i = choose|i: int|
            0 <= i < list.cards@.len() && (#[trigger] list.cards@[i]).header <= row
                <= list.cards@[i].end && pinned_to(list, doc, tab, list.cards@[i], sticky, entries);
        assert(list.cards@[i].header == h);
    }
}

/// A draw that remaps a list starts its view on the row that it started on, as
/// long as that row is still shown.
pub proof fn a_remap_keeps_the_view(visible: Seq<usize>, row: usize, entry: usize, e: int)
    requires
        increasing(visible),
        is_remapped(visible, row, entry),
        0 <= e < visible.len(),
        visible[e] == row,
    ensures
        entry == e,
        row_of(visible, entry as int) == Some(row),
{
    if entry < e {
        assert(entry + 1 == e || visible[entry + 1] < visible[e]);
    }
    if e < entry {
        assert(visible[e] < visible[entry as int]);
    }
}

/// What stands for hidden conversations or removed lines begins with how many
/// there are, in the singular for one.
pub proof fn labels_begin_with_their_count(n: nat)
    ensures
        begins(outdated_text(n, false), decimal(n)),
        outdated_text(n, true) == "hide outdated"@,
        begins(removed_text(n), decimal(n)),
        outdated_text(1, false) == decimal(1) + " outdated conversation"@,
        removed_text(1) == decimal(1) + " line"@ + " removed"@,
{
    reveal_strlit("");
    assert(outdated_text(n, false).take(decimal(n).len() as int) =~= decimal(n));
    assert(removed_text(n).take(decimal(n).len() as int) =~= decimal(n));
    assert(outdated_text(1, false) =~= decimal(1) + " outdated conversation"@);
    assert(removed_text(1) =~= decimal(1) + " line"@ + " removed"@);
}

} // verus!
