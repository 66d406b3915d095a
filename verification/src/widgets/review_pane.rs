//! The review pane: the pickers above the dock, the panels around it, and what
//! its buttons and the controls inside the lists ask for.

use crate::diff::{LineKey, Row};
use crate::live_id::{id_of, live_id};
use crate::review_doc::{ReviewDoc, Tab};
use crate::text::{
    a_parted_text_is_whole, contains, decimal, is_space, lemma_split_nonempty, lowercase, number,
    occurrence, occurs, parted, pieces, same, split, split_once, the_first_occurrence_is_found,
    to_lowercase, trim, trim_start, trimmed, views,
};
use crate::widgets::cards::{cards_of, CardIndex};
use crate::widgets::collapsed_run::CollapsedEnd;
use crate::widgets::gutter::GutterAction;
use vstd::prelude::*;

verus! {

// ---------------------------------------------------------------------------
// Pickers
// ---------------------------------------------------------------------------

/// How many refs the diff picker shows.
pub const COMBO_ROWS: usize = 8;

/// How many recent repositories the repo picker shows.
pub const REPO_ROWS: usize = 5;

/// Whether a ref matches a query, both without capital letters.
pub open spec fn lowered_matches(lower: Seq<char>, query: Seq<char>) -> bool {
    query.len() == 0 || occurs(lower, query)
}

/// The refs that match a query, in order. `lower` holds them without capital
/// letters.
pub open spec fn lowered_matching(
    refs: Seq<Seq<char>>,
    lower: Seq<Seq<char>>,
    query: Seq<char>,
) -> Seq<Seq<char>>
    decreases refs.len(),
{
    if refs.len() == 0 {
        Seq::empty()
    } else {
        let before = lowered_matching(refs.drop_last(), lower.drop_last(), query);
        if lowered_matches(lower.last(), query) {
            before.push(refs.last())
        } else {
            before
        }
    }
}

/// Texts without capital letters.
pub open spec fn lowered(texts: Seq<Seq<char>>) -> Seq<Seq<char>> {
    Seq::new(texts.len(), |i: int| lowercase(texts[i]))
}

/// The refs that match a query, in order, whatever the case of either.
pub open spec fn matching(refs: Seq<Seq<char>>, query: Seq<char>) -> Seq<Seq<char>> {
    lowered_matching(refs, lowered(refs), lowercase(trim(query)))
}

/// The first `n` items of a list, or all of them.
pub open spec fn at_most<T>(s: Seq<T>, n: int) -> Seq<T> {
    if s.len() <= n {
        s
    } else {
        s.take(n)
    }
}

/// The refs that match a query, as many as there are slots. `lower` holds the
/// refs without capital letters, and the query has none.
pub fn filter_refs(refs: &Vec<String>, lower: &Vec<String>, query: &str) -> (rows: Vec<String>)
    requires
        refs@.len() == lower@.len(),
    ensures
        views(rows@) == at_most(
            lowered_matching(views(refs@), views(lower@), query@),
            COMBO_ROWS as int,
        ),
{
    let mut rows: Vec<String> = Vec::new();
    let mut i: usize = 0;
    let ghost all = views(refs@);
    let ghost low = views(lower@);
    assert(views(rows@) =~= at_most(
        lowered_matching(all.take(0), low.take(0), query@),
        COMBO_ROWS as int,
    ));
    while i < refs.len()
        invariant
            i <= refs.len(),
            refs@.len() == lower@.len(),
            all == views(refs@),
            low == views(lower@),
            views(rows@) == at_most(
                lowered_matching(all.take(i as int), low.take(i as int), query@),
                COMBO_ROWS as int,
            ),
        decreases refs.len() - i,
    {
        let ghost next = all.take(i + 1);
        let ghost next_low = low.take(i + 1);
        let ghost found = lowered_matching(all.take(i as int), low.take(i as int), query@);
        assert(next.drop_last() =~= all.take(i as int));
        assert(next_low.drop_last() =~= low.take(i as int));
        assert(next.last() == refs@[i as int]@);
        assert(next_low.last() == lower@[i as int]@);
        let hit = query.is_empty() || contains(lower[i].as_str(), query);
        assert(hit == lowered_matches(lower@[i as int]@, query@));
        if hit && rows.len() < COMBO_ROWS {
            let ghost was = views(rows@);
            assert(views(rows@).len() == rows@.len());
            assert(found.len() < COMBO_ROWS);
            rows.push(refs[i].clone());
            assert(views(rows@) =~= was.push(refs@[i as int]@));
        } else {
            assert(views(rows@).len() == rows@.len());
        }
        assert(views(rows@) =~= at_most(
            lowered_matching(next, next_low, query@),
            COMBO_ROWS as int,
        ));
        i += 1;
    }
    assert(all.take(all.len() as int) =~= all);
    assert(low.take(low.len() as int) =~= low);
    rows
}

/// The rows of the diff picker: the refs that match the query, as many as there
/// are slots.
pub fn combo_filter(refs: &Vec<String>, query: &str) -> (rows: Vec<String>)
    ensures
        views(rows@) == at_most(matching(views(refs@), query@), COMBO_ROWS as int),
{
    let trimmed_query = trimmed(query);
    let q = to_lowercase(trimmed_query.as_str());
    let mut lower: Vec<String> = Vec::new();
    while lower.len() < refs.len()
        invariant
            lower@.len() <= refs@.len(),
            forall|k: int|
                0 <= k < lower@.len() ==> (#[trigger] lower@[k])@ == lowercase(refs@[k]@),
        decreases refs.len() - lower.len(),
    {
        lower.push(to_lowercase(refs[lower.len()].as_str()));
    }
    assert(views(lower@) =~= lowered(views(refs@)));
    filter_refs(refs, &lower, q.as_str())
}

/// The name of the file or directory that a path ends in: its last component.
/// Empty components and `.` count for nothing; a path that ends in `..` or has
/// no component has no name.
pub open spec fn last_name(parts: Seq<Seq<char>>) -> Option<Seq<char>>
    decreases parts.len(),
{
    if parts.len() == 0 {
        None
    } else if parts.last().len() == 0 || parts.last() == "."@ {
        last_name(parts.drop_last())
    } else if parts.last() == ".."@ {
        None
    } else {
        Some(parts.last())
    }
}

/// What a recent repository's row says: its directory's name, or the whole
/// path when that has none.
pub open spec fn recent_label(path: Seq<char>) -> Seq<char> {
    match last_name(split(path, '/')) {
        Some(name) => name,
        None => path,
    }
}

/// What a recent repository's row says.
pub fn recent_name(path: &str) -> (name: String)
    ensures
        name@ == recent_label(path@),
{
    let parts = pieces(path, '/');
    let mut n: usize = parts.len();
    let ghost all = views(parts@);
    assert(all.take(all.len() as int) =~= all);
    while n > 0
        invariant
            n <= parts.len(),
            all == views(parts@),
            last_name(all) == last_name(all.take(n as int)),
            all == split(path@, '/'),
        decreases n,
    {
        let part = parts[n - 1].as_str();
        assert(all.take(n as int).last() == part@);
        assert(all.take(n as int).drop_last() =~= all.take(n - 1));
        if !part.is_empty() && !same(part, ".") {
            if same(part, "..") {
                return path.to_owned();
            }
            return part.to_owned();
        }
        n -= 1;
    }
    path.to_owned()
}

/// The rows of the repo picker, most recent first; a slot without a repository
/// is hidden.
pub fn show_recents(recents: &Vec<String>) -> (rows: Vec<String>)
    ensures
        rows@.len() == (if recents@.len() < REPO_ROWS {
            recents@.len()
        } else {
            REPO_ROWS as nat
        }),
        forall|i: int|
            0 <= i < rows@.len() ==> (#[trigger] rows@[i])@ == recent_label(recents@[i]@),
{
    let mut rows: Vec<String> = Vec::new();
    while rows.len() < recents.len() && rows.len() < REPO_ROWS
        invariant
            rows@.len() <= recents@.len(),
            rows@.len() <= REPO_ROWS,
            forall|i: int|
                0 <= i < rows@.len() ==> (#[trigger] rows@[i])@ == recent_label(recents@[i]@),
        decreases REPO_ROWS - rows.len(),
    {
        let name = recent_name(recents[rows.len()].as_str());
        rows.push(name);
    }
    rows
}

/// A range of commits to load.
#[derive(Debug)]
pub struct Range {
    pub base: String,
    pub head: String,
}

impl Range {
    /// The two ends as text.
    pub open spec fn view(&self) -> (Seq<char>, Seq<char>) {
        (self.base@, self.head@)
    }
}

/// The range to load with: whatever is open, else a sane default for a
/// repository that has not been diffed yet.
pub fn current_range(doc: &ReviewDoc) -> (range: Range)
    ensures
        range@ == (if doc.base@.len() == 0 {
            ("HEAD~5"@, "HEAD"@)
        } else {
            (doc.base@, doc.head@)
        }),
{
    if doc.base.as_str().is_empty() {
        Range { base: "HEAD~5".to_owned(), head: "HEAD".to_owned() }
    } else {
        Range { base: doc.base.clone(), head: doc.head.clone() }
    }
}

/// The range that a typed ref asks for: both ends of `base...head` or
/// `base..head`, or the ref against `HEAD`. Nothing typed asks for nothing.
pub open spec fn typed(text: Seq<char>) -> Option<(Seq<char>, Seq<char>)> {
    let t = trim(text);
    if t.len() == 0 {
        None
    } else {
        match split_once(t, "..."@) {
            Some((b, h)) => Some((trim(b), trim(h))),
            None => match split_once(t, ".."@) {
                Some((b, h)) => Some((trim(b), trim(h))),
                None => Some((t, "HEAD"@)),
            },
        }
    }
}

/// The view of an optional range.
pub open spec fn range_view(range: Option<Range>) -> Option<(Seq<char>, Seq<char>)> {
    match range {
        Some(range) => Some(range@),
        None => None,
    }
}

/// The range that a typed ref asks for.
pub fn typed_range(text: &str) -> (range: Option<Range>)
    ensures
        range_view(range) == typed(text@),
{
    let t = trimmed(text);
    if t.as_str().is_empty() {
        return None;
    }
    let ends = match parted(t.as_str(), "...") {
        Some(ends) => Some(ends),
        None => parted(t.as_str(), ".."),
    };
    match ends {
        Some((b, h)) => Some(Range { base: trimmed(b.as_str()), head: trimmed(h.as_str()) }),
        None => Some(Range { base: t, head: "HEAD".to_owned() }),
    }
}

/// The range that a row of the diff picker asks for: a full `base...head`, or
/// a base ref against `HEAD`. An empty row asks for nothing.
pub open spec fn split_row(text: Seq<char>) -> Option<(Seq<char>, Seq<char>)> {
    if text.len() == 0 {
        None
    } else {
        match split_once(text, "..."@) {
            Some(ends) => Some(ends),
            None => Some((text, "HEAD"@)),
        }
    }
}

/// The range that a row of the diff picker asks for.
pub fn row_range(text: &str) -> (range: Option<Range>)
    ensures
        range_view(range) == split_row(text@),
{
    if text.is_empty() {
        return None;
    }
    match parted(text, "...") {
        Some((b, h)) => Some(Range { base: b, head: h }),
        None => Some(Range { base: text.to_owned(), head: "HEAD".to_owned() }),
    }
}

// ---------------------------------------------------------------------------
// Cards
// ---------------------------------------------------------------------------

/// The changed lines of the card with this header; none for a row that is no
/// header.
pub open spec fn keys_at(rows: Seq<Row>, header: int) -> Seq<LineKey> {
    if exists|i: int|
        0 <= i < cards_of(rows).len() && (#[trigger] cards_of(rows)[i]).header == header {
        let i = choose|i: int|
            0 <= i < cards_of(rows).len() && (#[trigger] cards_of(rows)[i]).header == header;
        cards_of(rows)[i].keys
    } else {
        Seq::empty()
    }
}

/// The lines that a card's tick box flips together: every changed line of every
/// hunk of the card. Nothing when there are none, or without a repository to
/// record it in.
pub fn card_keys(doc: &ReviewDoc, tab: Tab, header: usize) -> (keys: Option<Vec<LineKey>>)
    ensures
        (match keys {
            Some(keys) => doc.git_dir is Some && keys@.len() > 0 && keys@ == keys_at(
                doc.rows(tab),
                header as int,
            ),
            None => doc.git_dir is None || keys_at(doc.rows(tab), header as int).len() == 0,
        }),
{
    let rows = match doc.stream(tab) {
        Some(rows) => rows,
        None => {
            assert(cards_of(doc.rows(tab)).len() == 0);
            return None;
        },
    };
    let mut index = CardIndex::new();
    index.rebuild(rows);
    match index.at(header) {
        Some(i) => {
            proof {
                let cards = cards_of(rows@);
                assert(cards[i as int].header == header);
                assert forall|k: int| 0 <= k < cards.len() && (#[trigger] cards[k]).header
                    == header implies k == i by {
                    crate::widgets::cards::cards_stand_in_sequence(rows@);
                }
                assert(index@[i as int] == index.cards@[i as int].card());
            }
            if index.cards[i].keys.len() == 0 || doc.git_dir.is_none() {
                return None;
            }
            let mut keys: Vec<LineKey> = Vec::new();
            let mut k: usize = 0;
            while k < index.cards[i].keys.len()
                invariant
                    i < index.cards@.len(),
                    k <= index.cards@[i as int].keys@.len(),
                    keys@ == index.cards@[i as int].keys@.take(k as int),
                decreases index.cards@[i as int].keys@.len() - k,
            {
                keys.push(index.cards[i].keys[k]);
                k += 1;
            }
            assert(keys@ =~= index.cards@[i as int].keys@);
            Some(keys)
        },
        None => {
            assert(index@ == cards_of(rows@));
            None
        },
    }
}

/// The path of a card header.
pub open spec fn header_path(rows: Seq<Row>, item: int) -> Option<Seq<char>> {
    if 0 <= item < rows.len() {
        match rows[item] {
            Row::FileHeader { path, .. } => Some(path@),
            _ => None,
        }
    } else {
        None
    }
}

/// A set with a path put in, or taken out if it was there.
pub open spec fn toggled(set: Set<Seq<char>>, path: Seq<char>) -> Set<Seq<char>> {
    if set.contains(path) {
        set.remove(path)
    } else {
        set.insert(path)
    }
}

/// Folds a file card shut, or opens it again. Keyed by path, so the card is
/// shut in every stream that shows the file.
pub fn toggle_card_fold(doc: &mut ReviewDoc, tab: Tab, item: usize)
    ensures
        final(doc).folded@ == (match header_path(old(doc).rows(tab), item as int) {
            Some(path) => toggled(old(doc).folded@, path),
            None => old(doc).folded@,
        }),
        *final(doc) == (ReviewDoc { folded: final(doc).folded, ..*old(doc) }),
{
    let path = match doc.row(tab, item) {
        Some(Row::FileHeader { path, .. }) => path.clone(),
        _ => {
            return;
        },
    };
    doc.folded.toggle(path.as_str());
}

/// Shows or hides the conversations that the range cannot place for a file.
/// Unlike folding this changes which comment rows exist: the caller splices
/// them again, and the new shape is announced. Says whether the row is a card
/// header.
pub fn toggle_card_outdated(doc: &mut ReviewDoc, tab: Tab, item: usize) -> (changed: bool)
    requires
        old(doc).rows_rev < u64::MAX,
    ensures
        changed == (header_path(old(doc).rows(tab), item as int) is Some),
        !changed ==> *final(doc) == *old(doc),
        changed ==> final(doc).show_all_comments@ == toggled(
            old(doc).show_all_comments@,
            header_path(old(doc).rows(tab), item as int)->0,
        ) && final(doc).rows_rev == old(doc).rows_rev + 1,
        *final(doc) == (ReviewDoc {
            show_all_comments: final(doc).show_all_comments,
            rows_rev: final(doc).rows_rev,
            ..*old(doc)
        }),
{
    let path = match doc.row(tab, item) {
        Some(Row::FileHeader { path, .. }) => path.clone(),
        _ => {
            return false;
        },
    };
    doc.show_all_comments.toggle(path.as_str());
    doc.rows_rev = doc.rows_rev + 1;
    true
}

/// Folding a card twice leaves it as it was.
pub proof fn folding_twice_undoes_itself(set: Set<Seq<char>>, path: Seq<char>)
    ensures
        toggled(toggled(set, path), path) == set,
{
    assert(toggled(toggled(set, path), path) =~= set);
}

/// The comment that a delete button takes out: the row's, when the row is a
/// comment and there is a repository to delete it from.
pub fn comment_to_delete(doc: &ReviewDoc, tab: Tab, item: usize) -> (id: Option<i64>)
    ensures
        id == (if item < doc.rows(tab).len() && doc.rows(tab)[item as int] is Comment
            && doc.git_dir is Some {
            Some(doc.rows(tab)[item as int]->id)
        } else {
            None
        }),
{
    match doc.row(tab, item) {
        Some(Row::Comment { id, .. }) => if doc.git_dir.is_some() {
            Some(*id)
        } else {
            None
        },
        _ => None,
    }
}

// ---------------------------------------------------------------------------
// Routing
// ---------------------------------------------------------------------------

/// What a control in a list is for.
#[derive(Clone, Copy, Debug, PartialEq, Eq, Structural)]
pub enum ReviewItemAction {
    Seen { tab: Tab, row: usize },
    Fold { tab: Tab, row: usize },
    Delete { tab: Tab, row: usize },
    Reply { tab: Tab, row: usize },
    Outdated { tab: Tab, row: usize },
    Gutter { tab: Tab, row: usize },
    Expand { tab: Tab, row: usize },
    Reveal { tab: Tab, row: usize },
    Post,
    Cancel,
}

/// What happened to a control.
#[derive(Clone, Copy, Debug, PartialEq, Eq, Structural)]
pub enum WidgetEvent {
    /// A tick box changed.
    Changed,
    /// A button was clicked.
    Clicked,
    /// A gesture on a gutter.
    Gutter(GutterAction),
    /// A chevron of a collapsed run was pressed.
    Chevron(CollapsedEnd),
    Other,
}

/// What the pane does.
#[derive(Clone, Copy, Debug, PartialEq, Eq, Structural)]
pub enum PaneAction {
    ToggleSeen { tab: Tab, row: usize },
    ToggleFold { tab: Tab, row: usize },
    ToggleOutdated { tab: Tab, row: usize },
    DeleteComment { tab: Tab, row: usize },
    ReplyTo { tab: Tab, row: usize },
    ComposeStart { tab: Tab, row: usize, blob: u32, line: u32 },
    ComposeDrag { tab: Tab, y: i64 },
    ComposeOpen,
    Expand { tab: Tab, row: usize, end: CollapsedEnd },
    Reveal { tab: Tab, row: usize },
    Post,
    Close,
}

/// What the pane does about an event on a control; `None` for an event that is
/// not the control's own.
pub open spec fn routed(target: ReviewItemAction, event: WidgetEvent) -> Option<PaneAction> {
    match (target, event) {
        (ReviewItemAction::Seen { tab, row }, WidgetEvent::Changed) => Some(
            PaneAction::ToggleSeen { tab, row },
        ),
        (ReviewItemAction::Fold { tab, row }, WidgetEvent::Clicked) => Some(
            PaneAction::ToggleFold { tab, row },
        ),
        (ReviewItemAction::Delete { tab, row }, WidgetEvent::Clicked) => Some(
            PaneAction::DeleteComment { tab, row },
        ),
        (ReviewItemAction::Reply { tab, row }, WidgetEvent::Clicked) => Some(
            PaneAction::ReplyTo { tab, row },
        ),
        (ReviewItemAction::Outdated { tab, row }, WidgetEvent::Clicked) => Some(
            PaneAction::ToggleOutdated { tab, row },
        ),
        (ReviewItemAction::Gutter { tab, row }, WidgetEvent::Gutter(gesture)) => match gesture {
            GutterAction::DragStart { blob, line } => Some(
                PaneAction::ComposeStart { tab, row, blob, line },
            ),
            GutterAction::DragTo { y } => Some(PaneAction::ComposeDrag { tab, y }),
            GutterAction::DragEnd => Some(PaneAction::ComposeOpen),
            GutterAction::Nothing => None,
        },
        (ReviewItemAction::Expand { tab, row }, WidgetEvent::Chevron(end)) => Some(
            PaneAction::Expand { tab, row, end },
        ),
        (ReviewItemAction::Reveal { tab, row }, _) => Some(PaneAction::Reveal { tab, row }),
        (ReviewItemAction::Post, WidgetEvent::Clicked) => Some(PaneAction::Post),
        (ReviewItemAction::Cancel, WidgetEvent::Clicked) => Some(PaneAction::Close),
        _ => None,
    }
}

/// What the pane does about an event on a control in a list: the viewed tick
/// box of a card, a comment's buttons, the gutter's gestures, the composer's
/// controls.
pub fn route_item(target: ReviewItemAction, event: WidgetEvent) -> (action: Option<PaneAction>)
    ensures
        action == routed(target, event),
{
    match target {
        ReviewItemAction::Seen { tab, row } => match event {
            WidgetEvent::Changed => Some(PaneAction::ToggleSeen { tab, row }),
            _ => None,
        },
        ReviewItemAction::Fold { tab, row } => match event {
            WidgetEvent::Clicked => Some(PaneAction::ToggleFold { tab, row }),
            _ => None,
        },
        ReviewItemAction::Delete { tab, row } => match event {
            WidgetEvent::Clicked => Some(PaneAction::DeleteComment { tab, row }),
            _ => None,
        },
        ReviewItemAction::Reply { tab, row } => match event {
            WidgetEvent::Clicked => Some(PaneAction::ReplyTo { tab, row }),
            _ => None,
        },
        ReviewItemAction::Outdated { tab, row } => match event {
            WidgetEvent::Clicked => Some(PaneAction::ToggleOutdated { tab, row }),
            _ => None,
        },
        ReviewItemAction::Gutter { tab, row } => match event {
            WidgetEvent::Gutter(GutterAction::DragStart { blob, line }) => Some(
                PaneAction::ComposeStart { tab, row, blob, line },
            ),
            WidgetEvent::Gutter(GutterAction::DragTo { y }) => Some(
                PaneAction::ComposeDrag { tab, y },
            ),
            WidgetEvent::Gutter(GutterAction::DragEnd) => Some(PaneAction::ComposeOpen),
            _ => None,
        },
        ReviewItemAction::Expand { tab, row } => match event {
            WidgetEvent::Chevron(end) => Some(PaneAction::Expand { tab, row, end }),
            _ => None,
        },
        ReviewItemAction::Reveal { tab, row } => Some(PaneAction::Reveal { tab, row }),
        ReviewItemAction::Post => match event {
            WidgetEvent::Clicked => Some(PaneAction::Post),
            _ => None,
        },
        ReviewItemAction::Cancel => match event {
            WidgetEvent::Clicked => Some(PaneAction::Close),
            _ => None,
        },
    }
}

/// What happened to the pinned header of one stream's list.
#[derive(Clone, Copy, Debug, PartialEq, Eq, Structural)]
pub struct StickyEvents {
    pub tab: Tab,
    /// The row of the header that is pinned, while one is.
    pub pinned: Option<usize>,
    pub seen_changed: bool,
    pub fold_clicked: bool,
    pub outdated_clicked: bool,
}

/// What the pinned header's controls ask for: the same as those of the card
/// header it mirrors, and nothing while none is pinned.
pub open spec fn sticky_asks(e: StickyEvents) -> Seq<PaneAction> {
    match e.pinned {
        None => Seq::empty(),
        Some(row) => (if e.seen_changed {
            seq![PaneAction::ToggleSeen { tab: e.tab, row }]
        } else {
            Seq::empty()
        }) + (if e.fold_clicked {
            seq![PaneAction::ToggleFold { tab: e.tab, row }]
        } else {
            Seq::empty()
        }) + (if e.outdated_clicked {
            seq![PaneAction::ToggleOutdated { tab: e.tab, row }]
        } else {
            Seq::empty()
        }),
    }
}

/// What the pinned headers of several lists ask for, one list after another.
pub open spec fn all_sticky_asks(events: Seq<StickyEvents>) -> Seq<PaneAction>
    decreases events.len(),
{
    if events.len() == 0 {
        Seq::empty()
    } else {
        all_sticky_asks(events.drop_last()) + sticky_asks(events.last())
    }
}

/// What the pinned headers ask for.
pub fn sticky_actions(events: &Vec<StickyEvents>) -> (actions: Vec<PaneAction>)
    ensures
        actions@ == all_sticky_asks(events@),
{
    let mut actions: Vec<PaneAction> = Vec::new();
    let mut i: usize = 0;
    while i < events.len()
        invariant
            i <= events.len(),
            actions@ == all_sticky_asks(events@.take(i as int)),
        decreases events.len() - i,
    {
        let e = events[i];
        let ghost before = actions@;
        assert(events@.take(i + 1).drop_last() =~= events@.take(i as int));
        if let Some(row) = e.pinned {
            if e.seen_changed {
                actions.push(PaneAction::ToggleSeen { tab: e.tab, row });
            }
            if e.fold_clicked {
                actions.push(PaneAction::ToggleFold { tab: e.tab, row });
            }
            if e.outdated_clicked {
                actions.push(PaneAction::ToggleOutdated { tab: e.tab, row });
            }
        }
        assert(actions@ =~= before + sticky_asks(e));
        i += 1;
    }
    assert(events@.take(events@.len() as int) =~= events@);
    actions
}

/// What the composer's field reports.
#[derive(Debug)]
pub enum FieldEvent {
    Changed(String),
    Returned(String),
}

/// Mirrors a keystroke of the composer's field into the draft: the virtualized
/// list can recycle the field, and without the mirror posting would read an
/// empty body. Says whether the draft is to be posted.
pub fn mirror_draft(doc: &mut ReviewDoc, event: FieldEvent) -> (post: bool)
    ensures
        post == (event is Returned),
        final(doc).compose_draft@ == (match event {
            FieldEvent::Changed(draft) => draft@,
            FieldEvent::Returned(draft) => draft@,
        }),
        *final(doc) == (ReviewDoc { compose_draft: final(doc).compose_draft, ..*old(doc) }),
{
    match event {
        FieldEvent::Changed(draft) => {
            doc.compose_draft = draft;
            false
        },
        FieldEvent::Returned(draft) => {
            doc.compose_draft = draft;
            true
        },
    }
}

/// The file tabs whose titles follow the document: all but the settings tab.
pub open spec fn titled(ids: Seq<u64>, settings: u64) -> Seq<u64>
    decreases ids.len(),
{
    if ids.len() == 0 {
        Seq::empty()
    } else {
        let before = titled(ids.drop_last(), settings);
        if ids.last() == settings {
            before
        } else {
            before.push(ids.last())
        }
    }
}

/// The file tabs whose titles follow the document.
pub fn titled_tabs(ids: &Vec<u64>, settings: u64) -> (tabs: Vec<u64>)
    ensures
        tabs@ == titled(ids@, settings),
{
    let mut tabs: Vec<u64> = Vec::new();
    let mut i: usize = 0;
    while i < ids.len()
        invariant
            i <= ids.len(),
            tabs@ == titled(ids@.take(i as int), settings),
        decreases ids.len() - i,
    {
        assert(ids@.take(i + 1).drop_last() =~= ids@.take(i as int));
        if ids[i] != settings {
            tabs.push(ids[i]);
        }
        i += 1;
    }
    assert(ids@.take(ids@.len() as int) =~= ids@);
    tabs
}

/// The buttons around the dock.
#[derive(Clone, Copy, Debug, PartialEq, Eq, Structural)]
pub enum ChromeButton {
    Terminal,
    Panel,
    Sidebar,
    AddTerminal,
    Stream(Tab),
    Share,
    SharePrompt,
    ShareMarkdown,
    ShareStage,
    Settings,
}

/// What a button around the dock does.
#[derive(Clone, Copy, Debug, PartialEq, Eq, Structural)]
pub enum ChromeAction {
    RevealTerminal,
    ToggleBottomPanel,
    ToggleSidebar,
    AddTerminal,
    OpenStream(Tab),
    HideShare,
    /// Staging is offered only where there is a worktree to stage from.
    ShowShare { stage: bool },
    SharePrompt,
    ShareMarkdown,
    StageSeen,
    OpenSettings,
}

/// What a button around the dock does. `share_open` is whether the share menu
/// is open.
pub fn chrome_action(button: ChromeButton, doc: &ReviewDoc, share_open: bool) -> (action:
    ChromeAction)
    ensures
        action == (match button {
            ChromeButton::Terminal => ChromeAction::RevealTerminal,
            ChromeButton::Panel => ChromeAction::ToggleBottomPanel,
            ChromeButton::Sidebar => ChromeAction::ToggleSidebar,
            ChromeButton::AddTerminal => ChromeAction::AddTerminal,
            ChromeButton::Stream(tab) => ChromeAction::OpenStream(tab),
            ChromeButton::Share => if share_open {
                ChromeAction::HideShare
            } else {
                ChromeAction::ShowShare { stage: doc.workdir is Some }
            },
            ChromeButton::SharePrompt => ChromeAction::SharePrompt,
            ChromeButton::ShareMarkdown => ChromeAction::ShareMarkdown,
            ChromeButton::ShareStage => ChromeAction::StageSeen,
            ChromeButton::Settings => ChromeAction::OpenSettings,
        }),
{
    match button {
        ChromeButton::Terminal => ChromeAction::RevealTerminal,
        ChromeButton::Panel => ChromeAction::ToggleBottomPanel,
        ChromeButton::Sidebar => ChromeAction::ToggleSidebar,
        ChromeButton::AddTerminal => ChromeAction::AddTerminal,
        ChromeButton::Stream(tab) => ChromeAction::OpenStream(tab),
        ChromeButton::Share => if share_open {
            ChromeAction::HideShare
        } else {
            ChromeAction::ShowShare { stage: doc.workdir.is_some() }
        },
        ChromeButton::SharePrompt => ChromeAction::SharePrompt,
        ChromeButton::ShareMarkdown => ChromeAction::ShareMarkdown,
        ChromeButton::ShareStage => ChromeAction::StageSeen,
        ChromeButton::Settings => ChromeAction::OpenSettings,
    }
}

// ---------------------------------------------------------------------------
// Panels and terminals
// ---------------------------------------------------------------------------

/// A panel that slides: the terminals below the streams, the file browser
/// beside them.
#[derive(Clone, Copy, Debug, PartialEq, Eq, Structural)]
pub enum Panel {
    Bottom,
    Sidebar,
}

/// Sizes are in thousandths of a point. A panel no larger than this is shut.
pub const PANEL_SHUT: i64 = 1_000;

/// The bottom panel's size until it has been dragged.
pub const BOTTOM_DEFAULT: i64 = 220_000;

/// The sidebar's size until it has been dragged.
pub const SIDEBAR_DEFAULT: i64 = 260_000;

impl Panel {
    /// The splitter whose second half this panel is.
    pub fn splitter(self) -> (id: u64)
        ensures
            id == (match self {
                Panel::Bottom => live_id("body_split"@),
                Panel::Sidebar => live_id("root"@),
            }),
    {
        match self {
            Panel::Bottom => id_of("body_split"),
            Panel::Sidebar => id_of("root"),
        }
    }
}

/// A panel's size: the dock's extent along its axis minus the position of its
/// splitter, and nothing where that would be negative.
pub fn panel_size(extent: i64, position: i64) -> (size: i64)
    requires
        (if extent > 0 {
            extent
        } else {
            0
        }) - position <= i64::MAX,
    ensures
        size == (if (if extent > 0 {
            extent as int
        } else {
            0
        }) - position > 0 {
            (if extent > 0 {
                extent as int
            } else {
                0
            }) - position
        } else {
            0
        }),
{
    let reach: i64 = if extent > 0 {
        extent
    } else {
        0
    };
    if reach > position {
        reach - position
    } else {
        0
    }
}

/// What the pane keeps between draws.
#[derive(Debug)]
pub struct ReviewPane {
    pub bottom_restore: i64,
    pub sidebar_restore: i64,
    /// Stream tabs that the user closed: only their button reopens them.
    pub user_closed: Vec<u64>,
    pub next_terminal: usize,
    /// The recent repositories, most recent first.
    pub recents: Vec<String>,
    /// Whether the diff picker is open.
    pub combo_shown: bool,
    /// Whether the repo picker is open.
    pub repo_shown: bool,
    /// Whether the card is shown that says a review is being loaded.
    pub loading: bool,
}

/// What toggling a panel does.
#[derive(Clone, Copy, Debug, PartialEq, Eq, Structural)]
pub struct PanelToggle {
    /// The size the panel slides to.
    pub slide_to: Option<i64>,
    /// Whether the permanent terminal's shell is started first.
    pub open_terminal: bool,
}

impl ReviewPane {
    /// The size that a panel was last dragged to.
    pub open spec fn last_size(&self, panel: Panel) -> i64 {
        match panel {
            Panel::Bottom => self.bottom_restore,
            Panel::Sidebar => self.sidebar_restore,
        }
    }

    /// The size that a panel reopens at.
    pub open spec fn reopen_size(&self, panel: Panel) -> i64 {
        if self.last_size(panel) > PANEL_SHUT {
            self.last_size(panel)
        } else {
            match panel {
                Panel::Bottom => BOTTOM_DEFAULT,
                Panel::Sidebar => SIDEBAR_DEFAULT,
            }
        }
    }

    /// The size that a panel reopens at: wherever the user last dragged it.
    pub fn restore_size(&self, panel: Panel) -> (size: i64)
        ensures
            size == self.reopen_size(panel),
    {
        let (last, default): (i64, i64) = match panel {
            Panel::Bottom => (self.bottom_restore, BOTTOM_DEFAULT),
            Panel::Sidebar => (self.sidebar_restore, SIDEBAR_DEFAULT),
        };
        if last > PANEL_SHUT {
            last
        } else {
            default
        }
    }

    /// Slides a panel open, or remembers its size and slides it shut. The first
    /// opening of the bottom panel, with no terminal at all, starts one; running
    /// ones are left as they are. `current` is the panel's size, if it is laid
    /// out.
    pub fn toggle_panel(&mut self, panel: Panel, current: Option<i64>, terminals: usize) -> (toggle:
        PanelToggle)
        ensures
            (match current {
                None => toggle == (PanelToggle { slide_to: None, open_terminal: false })
                    && *final(self) == *old(self),
                Some(size) => if size <= PANEL_SHUT {
                    toggle == (PanelToggle {
                        slide_to: Some(old(self).reopen_size(panel)),
                        open_terminal: panel == Panel::Bottom && terminals == 0,
                    }) && *final(self) == *old(self)
                } else {
                    toggle == (PanelToggle { slide_to: Some(0), open_terminal: false })
                        && *final(self) == (match panel {
                        Panel::Bottom => ReviewPane { bottom_restore: size, ..*old(self) },
                        Panel::Sidebar => ReviewPane { sidebar_restore: size, ..*old(self) },
                    })
                },
            }),
    {
        let size: i64 = match current {
            Some(size) => size,
            None => {
                return PanelToggle { slide_to: None, open_terminal: false };
            },
        };
        if size <= PANEL_SHUT {
            let open_terminal = panel == Panel::Bottom && terminals == 0;
            PanelToggle { slide_to: Some(self.restore_size(panel)), open_terminal }
        } else {
            match panel {
                Panel::Bottom => {
                    self.bottom_restore = size;
                },
                Panel::Sidebar => {
                    self.sidebar_restore = size;
                },
            }
            PanelToggle { slide_to: Some(0), open_terminal: false }
        }
    }

    /// Slides the bottom panel open only if it is shut.
    pub fn reveal_bottom_panel(&self, current: Option<i64>) -> (slide_to: Option<i64>)
        ensures
            slide_to == (match current {
                Some(size) => if size > PANEL_SHUT {
                    None
                } else {
                    Some(self.reopen_size(Panel::Bottom))
                },
                None => None,
            }),
    {
        match current {
            Some(size) => if size > PANEL_SHUT {
                None
            } else {
                Some(self.restore_size(Panel::Bottom))
            },
            None => None,
        }
    }

    /// The title of another terminal tab: the permanent one is the first, so
    /// numbering starts at two.
    pub fn add_terminal_session(&mut self) -> (title: String)
        requires
            old(self).next_terminal < usize::MAX,
        ensures
            ({
                let n = if old(self).next_terminal > 2 {
                    old(self).next_terminal
                } else {
                    2
                };
                &&& title@ == "Terminal "@ + decimal(n as nat)
                &&& *final(self) == (ReviewPane {
                    next_terminal: (n + 1) as usize,
                    ..*old(self)
                })
            }),
    {
        let n: usize = if self.next_terminal > 2 {
            self.next_terminal
        } else {
            2
        };
        self.next_terminal = n + 1;
        let digits = number(n as u64);
        let mut title = "Terminal ".to_owned();
        title.append(digits.as_str());
        title
    }
}

/// Reopening a panel that was just slid shut brings it back to its size.
pub proof fn a_panel_comes_back_to_its_size(pane: ReviewPane, panel: Panel, size: i64)
    requires
        size > PANEL_SHUT,
    ensures
        (match panel {
            Panel::Bottom => ReviewPane { bottom_restore: size, ..pane },
            Panel::Sidebar => ReviewPane { sidebar_restore: size, ..pane },
        }).reopen_size(panel) == size,
{
}

/// A variable of a shell's environment.
#[derive(Debug)]
pub struct EnvVar {
    pub name: String,
    pub value: String,
}

/// The names and values of an environment.
pub open spec fn env_view(env: Seq<EnvVar>) -> Seq<(Seq<char>, Seq<char>)> {
    Seq::new(env.len(), |i: int| (env[i].name@, env[i].value@))
}

/// What a terminal's shell is told of its window: the window's identity and
/// the repository, and the ends of the range that are known.
pub open spec fn terminal_env_of(
    window: Seq<char>,
    cwd: Seq<char>,
    base: Seq<char>,
    head: Seq<char>,
) -> Seq<(Seq<char>, Seq<char>)> {
    seq![("CONCATS_APP_WINDOW"@, window), ("CONCATS_APP_REPO"@, cwd)] + (if base.len() == 0 {
        Seq::empty()
    } else {
        seq![("CONCATS_APP_BASE"@, base)]
    }) + (if head.len() == 0 {
        Seq::empty()
    } else {
        seq![("CONCATS_APP_HEAD"@, head)]
    })
}

/// What a terminal's shell is told of its window.
pub fn terminal_env(window: &str, cwd: &str, base: &str, head: &str) -> (env: Vec<EnvVar>)
    ensures
        env_view(env@) == terminal_env_of(window@, cwd@, base@, head@),
{
    let mut env: Vec<EnvVar> = Vec::new();
    env.push(EnvVar { name: "CONCATS_APP_WINDOW".to_owned(), value: window.to_owned() });
    env.push(EnvVar { name: "CONCATS_APP_REPO".to_owned(), value: cwd.to_owned() });
    if !base.is_empty() {
        env.push(EnvVar { name: "CONCATS_APP_BASE".to_owned(), value: base.to_owned() });
    }
    if !head.is_empty() {
        env.push(EnvVar { name: "CONCATS_APP_HEAD".to_owned(), value: head.to_owned() });
    }
    assert(env_view(env@) =~= terminal_env_of(window@, cwd@, base@, head@));
    env
}

/// Where a terminal's shell starts: in the open repository, or here.
pub fn terminal_cwd(doc: &ReviewDoc) -> (cwd: String)
    ensures
        cwd@ == (if doc.repo@.len() == 0 {
            "."@
        } else {
            doc.repo@
        }),
{
    if doc.repo.as_str().is_empty() {
        ".".to_owned()
    } else {
        doc.repo.clone()
    }
}

// ---------------------------------------------------------------------------
// Laws
// ---------------------------------------------------------------------------

/// Whether a ref is one of a list that matches there.
spec fn matches_at(
    refs: Seq<Seq<char>>,
    lower: Seq<Seq<char>>,
    query: Seq<char>,
    one: Seq<char>,
    i: int,
) -> bool {
    0 <= i < refs.len() && refs[i] == one && (query.len() == 0 || occurs(lower[i], query))
}

spec fn matches_some(
    refs: Seq<Seq<char>>,
    lower: Seq<Seq<char>>,
    query: Seq<char>,
    one: Seq<char>,
) -> bool {
    exists|i: int| #[trigger] matches_at(refs, lower, query, one, i)
}

proof fn lemma_matching(refs: Seq<Seq<char>>, lower: Seq<Seq<char>>, query: Seq<char>)
    requires
        refs.len() == lower.len(),
    ensures
        ({
            let found = lowered_matching(refs, lower, query);
            &&& forall|k: int|
                0 <= k < found.len() ==> matches_some(refs, lower, query, #[trigger] found[k])
            &&& forall|i: int|
                0 <= i < refs.len() && (query.len() == 0 || occurs(lower[i], query))
                    ==> found.contains(#[trigger] refs[i])
        }),
    decreases refs.len(),
{
    let found = lowered_matching(refs, lower, query);
    if refs.len() > 0 {
        let rest = refs.drop_last();
        let low = lower.drop_last();
        let before = lowered_matching(rest, low, query);
        lemma_matching(rest, low, query);
        assert forall|k: int| 0 <= k < found.len() implies matches_some(
            refs,
            lower,
            query,
            #[trigger] found[k],
        ) by {
            if k < before.len() {
                assert(found[k] == before[k]);
                let i = choose|i: int| #[trigger] matches_at(rest, low, query, before[k], i);
                assert(refs[i] == rest[i] && lower[i] == low[i]);
                assert(matches_at(refs, lower, query, found[k], i));
            } else {
                assert(matches_at(refs, lower, query, found[k], refs.len() - 1));
            }
        }
        assert forall|i: int|
            0 <= i < refs.len() && (query.len() == 0 || occurs(lower[i], query)) implies
            found.contains(#[trigger] refs[i]) by {
            if i < rest.len() {
                assert(low[i] == lower[i] && rest[i] == refs[i]);
                assert(before.contains(refs[i]));
                let k = choose|k: int| 0 <= k < before.len() && before[k] == refs[i];
                assert(found[k] == refs[i]);
            } else {
                assert(found[found.len() - 1] == refs[i]);
            }
        }
    } else {
        assert(found.len() == 0);
    }
}

/// The picker lists the refs in which the query stands, whatever the case of
/// either, and no other; with nothing typed it lists every one.
pub proof fn the_picker_lists_what_matches(refs: Seq<Seq<char>>, query: Seq<char>)
    ensures
        ({
            let found = matching(refs, query);
            let wanted = lowercase(trim(query));
            &&& forall|k: int|
                0 <= k < found.len() ==> refs.contains(#[trigger] found[k]) && (wanted.len() == 0
                    || occurs(lowercase(found[k]), wanted))
            &&& forall|i: int|
                0 <= i < refs.len() && (wanted.len() == 0 || occurs(
                    lowercase(#[trigger] refs[i]),
                    wanted,
                )) ==> found.contains(refs[i])
        }),
{
    let low = lowered(refs);
    let wanted = lowercase(trim(query));
    let found = matching(refs, query);
    lemma_matching(refs, low, wanted);
    assert forall|k: int| 0 <= k < found.len() implies refs.contains(#[trigger] found[k]) && (
    wanted.len() == 0 || occurs(lowercase(found[k]), wanted)) by {
        let i = choose|i: int| #[trigger] matches_at(refs, low, wanted, found[k], i);
        assert(refs[i] == found[k]);
        assert(low[i] == lowercase(refs[i]));
    }
    assert forall|i: int|
        0 <= i < refs.len() && (wanted.len() == 0 || occurs(
            lowercase(#[trigger] refs[i]),
            wanted,
        )) implies found.contains(refs[i]) by {
        assert(low[i] == lowercase(refs[i]));
    }
}

/// The picker keeps the order of the refs: a further ref comes behind those
/// that were found, where it matches, and changes nothing where it does not.
pub proof fn the_picker_keeps_the_order(
    refs: Seq<Seq<char>>,
    lower: Seq<Seq<char>>,
    query: Seq<char>,
    one: Seq<char>,
    low: Seq<char>,
)
    ensures
        lowered_matching(refs.push(one), lower.push(low), query) == (if query.len() == 0 || occurs(
            low,
            query,
        ) {
            lowered_matching(refs, lower, query).push(one)
        } else {
            lowered_matching(refs, lower, query)
        }),
{
    assert(refs.push(one).drop_last() =~= refs);
    assert(lower.push(low).drop_last() =~= lower);
}

/// A list that is cut to its slots keeps the front of it, as long as there are
/// slots.
pub proof fn slots_keep_the_front<T>(s: Seq<T>, n: int)
    requires
        0 <= n,
    ensures
        at_most(s, n).len() == (if s.len() < n {
            s.len() as int
        } else {
            n
        }),
        forall|i: int| 0 <= i < at_most(s, n).len() ==> #[trigger] at_most(s, n)[i] == s[i],
{
}

proof fn lemma_kept_by_trim(s: Seq<char>)
    requires
        s.len() > 0,
        !is_space(s[0]),
        !is_space(s.last()),
    ensures
        trim(s) == s,
{
    assert(trim_start(s) == s);
}

proof fn lemma_first_dots(base: Seq<char>, dots: Seq<char>, head: Seq<char>)
    requires
        !base.contains('.'),
        dots.len() > 0,
        dots[0] == '.',
    ensures
        split_once(base + dots + head, dots) == Some((base, head)),
{
    let s = base + dots + head;
    the_first_occurrence_is_found(s, dots, 0);
    let at = base.len() as int;
    assert(s.subrange(at, at + dots.len()) =~= dots);
    match occurrence(s, dots, 0) {
        Some(i) => {
            if i < at {
                assert(s.subrange(i, i + dots.len())[0] == s[i]);
                assert(s[i] == base[i]);
                assert(base.contains(base[i]));
            }
            assert(i == at);
            assert(s.take(i) =~= base);
            assert(s.skip(i + dots.len()) =~= head);
        },
        None => {
            assert(false);
        },
    }
}

/// A range that is typed with three dots, or two, is read as its two ends; a
/// ref without dots is read against `HEAD`; and white space around what was
/// typed counts for nothing.
pub proof fn a_typed_range_reads_back(base: Seq<char>, head: Seq<char>)
    requires
        base.len() > 0,
        head.len() > 0,
        !base.contains('.'),
        !head.contains('.'),
        !is_space(base[0]) && !is_space(base.last()),
        !is_space(head[0]) && !is_space(head.last()),
    ensures
        typed(base + "..."@ + head) == Some((base, head)),
        typed(base + ".."@ + head) == Some((base, head)),
        typed(base) == Some((base, "HEAD"@)),
        split_row(base + "..."@ + head) == Some((base, head)),
        split_row(base) == Some((base, "HEAD"@)),
        typed(Seq::empty()) is None,
        split_row(Seq::empty()) is None,
{
    reveal_strlit("...");
    reveal_strlit("..");
    lemma_kept_by_trim(base);
    lemma_kept_by_trim(head);
    let three = base + "..."@ + head;
    let two = base + ".."@ + head;
    assert(three[0] == base[0] && three.last() == head.last());
    assert(two[0] == base[0] && two.last() == head.last());
    lemma_kept_by_trim(three);
    lemma_kept_by_trim(two);
    lemma_first_dots(base, "..."@, head);
    lemma_first_dots(base, ".."@, head);
    lemma_no_dots(base, "..."@);
    lemma_no_dots(base, ".."@);
    a_parted_text_is_whole(two, "..."@);
    if let Some((a, b)) = split_once(two, "..."@) {
        let i = a.len() as int;
        assert(two[i] == '.' && two[i + 1] == '.' && two[i + 2] == '.') by {
            assert(two == a + "..."@ + b);
        }
        assert forall|k: int| 0 <= k < two.len() && two[k] == '.' implies base.len() <= k
            < base.len() + 2 by {
            if k < base.len() {
                assert(base.contains(base[k]));
            }
            if k >= base.len() + 2 {
                assert(two[k] == head[k - base.len() - 2]);
                assert(head.contains(head[k - base.len() - 2]));
            }
        }
        assert(false);
    }
}

proof fn lemma_no_dots(s: Seq<char>, dots: Seq<char>)
    requires
        !s.contains('.'),
        dots.len() > 0,
        dots[0] == '.',
    ensures
        split_once(s, dots) is None,
{
    the_first_occurrence_is_found(s, dots, 0);
    if let Some(i) = occurrence(s, dots, 0) {
        assert(s.subrange(i, i + dots.len())[0] == s[i]);
        assert(s.contains(s[i]));
    }
}

proof fn lemma_last_piece(a: Seq<char>, b: Seq<char>)
    requires
        !b.contains('/'),
    ensures
        split(a.push('/') + b, '/').len() >= 2,
        split(a.push('/') + b, '/').last() == b,
    decreases b.len(),
{
    let s = a.push('/') + b;
    lemma_split_nonempty(a, '/');
    if b.len() == 0 {
        assert(s =~= a.push('/'));
        assert(s.drop_last() =~= a);
        assert(split(s, '/').last() =~= b);
    } else {
        let rest = b.drop_last();
        assert forall|k: int| 0 <= k < rest.len() implies rest[k] != '/' by {
            assert(b.contains(b[k]));
        }
        lemma_last_piece(a, rest);
        assert(s.drop_last() =~= a.push('/') + rest);
        assert(s.last() == b.last());
        assert(b.contains(b[b.len() - 1]));
        assert(split(s, '/').last() =~= b);
    }
}

/// The row of a repository shows the name of its directory: what stands behind
/// the last slash of its path.
pub proof fn a_recent_repository_is_shown_by_its_name(parent: Seq<char>, name: Seq<char>)
    requires
        name.len() > 0,
        !name.contains('/'),
        name != "."@,
        name != ".."@,
    ensures
        recent_label(parent + "/"@ + name) == name,
{
    reveal_strlit("/");
    assert(parent + "/"@ + name =~= parent.push('/') + name);
    lemma_last_piece(parent, name);
}

/// Folding a card changes whether that path is folded, and no other.
pub proof fn folding_changes_one_path(set: Set<Seq<char>>, path: Seq<char>, other: Seq<char>)
    ensures
        toggled(set, path).contains(path) <==> !set.contains(path),
        other != path ==> (toggled(set, path).contains(other) <==> set.contains(other)),
{
}

/// A card's tick box flips the changed lines of that card.
pub proof fn a_tick_box_flips_its_card(rows: Seq<Row>, i: int)
    requires
        0 <= i < cards_of(rows).len(),
    ensures
        keys_at(rows, cards_of(rows)[i].header) == cards_of(rows)[i].keys,
        header_path(rows, cards_of(rows)[i].header) is Some,
{
    let cards = cards_of(rows);
    let header = cards[i].header;
    crate::widgets::cards::cards_stand_in_sequence(rows);
    crate::widgets::cards::every_header_opens_a_card(rows);
    let k = choose|k: int| 0 <= k < cards.len() && (#[trigger] cards[k]).header == header;
    assert(cards[i].header == header);
    assert(k == i);
    assert(rows[header] is FileHeader);
}

/// What a control asks for is about its own row of its own stream, whatever
/// happened to it; and each control asks for its own thing alone.
pub proof fn a_control_acts_on_its_row(tab: Tab, row: usize, event: WidgetEvent)
    ensures
        routed(ReviewItemAction::Seen { tab, row }, event) matches Some(a) ==> a
            == (PaneAction::ToggleSeen { tab, row }),
        routed(ReviewItemAction::Fold { tab, row }, event) matches Some(a) ==> a
            == (PaneAction::ToggleFold { tab, row }),
        routed(ReviewItemAction::Delete { tab, row }, event) matches Some(a) ==> a
            == (PaneAction::DeleteComment { tab, row }),
        routed(ReviewItemAction::Reply { tab, row }, event) matches Some(a) ==> a
            == (PaneAction::ReplyTo { tab, row }),
        routed(ReviewItemAction::Outdated { tab, row }, event) matches Some(a) ==> a
            == (PaneAction::ToggleOutdated { tab, row }),
        routed(ReviewItemAction::Reveal { tab, row }, event) == Some(
            PaneAction::Reveal { tab, row },
        ),
        routed(ReviewItemAction::Seen { tab, row }, WidgetEvent::Changed) is Some,
        routed(ReviewItemAction::Fold { tab, row }, WidgetEvent::Clicked) is Some,
        routed(ReviewItemAction::Delete { tab, row }, WidgetEvent::Clicked) is Some,
        routed(ReviewItemAction::Reply { tab, row }, WidgetEvent::Clicked) is Some,
        routed(ReviewItemAction::Outdated { tab, row }, WidgetEvent::Clicked) is Some,
        routed(ReviewItemAction::Post, WidgetEvent::Clicked) == Some(PaneAction::Post),
        routed(ReviewItemAction::Cancel, WidgetEvent::Clicked) == Some(PaneAction::Close),
        event matches WidgetEvent::Chevron(end) ==> routed(
            ReviewItemAction::Expand { tab, row },
            event,
        ) == Some(PaneAction::Expand { tab, row, end }),
        event matches WidgetEvent::Gutter(GutterAction::DragStart { blob, line }) ==> routed(
            ReviewItemAction::Gutter { tab, row },
            event,
        ) == Some(PaneAction::ComposeStart { tab, row, blob, line }),
        event matches WidgetEvent::Gutter(GutterAction::DragTo { y }) ==> routed(
            ReviewItemAction::Gutter { tab, row },
            event,
        ) == Some(PaneAction::ComposeDrag { tab, y }),
        event == WidgetEvent::Gutter(GutterAction::DragEnd) ==> routed(
            ReviewItemAction::Gutter { tab, row },
            event,
        ) == Some(PaneAction::ComposeOpen),
{
}

/// A pinned header asks for what the header that it mirrors would: of that row
/// of that stream, each control that was used once; and nothing without one.
pub proof fn a_pinned_header_stands_for_its_row(e: StickyEvents)
    ensures
        e.pinned is None ==> sticky_asks(e).len() == 0,
        e.pinned matches Some(row) ==> {
            &&& sticky_asks(e).contains(PaneAction::ToggleSeen { tab: e.tab, row })
                <==> e.seen_changed
            &&& sticky_asks(e).contains(PaneAction::ToggleFold { tab: e.tab, row })
                <==> e.fold_clicked
            &&& sticky_asks(e).contains(PaneAction::ToggleOutdated { tab: e.tab, row })
                <==> e.outdated_clicked
        },
{
    if let Some(row) = e.pinned {
        let asks = sticky_asks(e);
        let seen = PaneAction::ToggleSeen { tab: e.tab, row };
        let fold = PaneAction::ToggleFold { tab: e.tab, row };
        let outdated = PaneAction::ToggleOutdated { tab: e.tab, row };
        let a: int = if e.seen_changed {
            1
        } else {
            0
        };
        let b: int = if e.fold_clicked {
            1
        } else {
            0
        };
        if e.seen_changed {
            assert(asks[0] == seen);
        }
        if e.fold_clicked {
            assert(asks[a] == fold);
        }
        if e.outdated_clicked {
            assert(asks[a + b] == outdated);
        }
        assert forall|k: int| 0 <= k < asks.len() implies (e.seen_changed && asks[k] == seen) || (
        e.fold_clicked && asks[k] == fold) || (e.outdated_clicked && asks[k] == outdated) by {}
    }
}

/// A shell is told its window and its repository, and each end of the range that
/// is known; nothing is told as empty.
pub proof fn a_shell_is_told_its_range(
    window: Seq<char>,
    cwd: Seq<char>,
    base: Seq<char>,
    head: Seq<char>,
)
    ensures
        ({
            let env = terminal_env_of(window, cwd, base, head);
            &&& env.contains(("CONCATS_APP_WINDOW"@, window))
            &&& env.contains(("CONCATS_APP_REPO"@, cwd))
            &&& base.len() > 0 ==> env.contains(("CONCATS_APP_BASE"@, base))
            &&& head.len() > 0 ==> env.contains(("CONCATS_APP_HEAD"@, head))
            &&& env.len() == 2 + (if base.len() > 0 {
                1int
            } else {
                0
            }) + (if head.len() > 0 {
                1int
            } else {
                0
            })
        }),
{
    let env = terminal_env_of(window, cwd, base, head);
    assert(env[0] == ("CONCATS_APP_WINDOW"@, window));
    assert(env[1] == ("CONCATS_APP_REPO"@, cwd));
    if base.len() > 0 {
        assert(env[2] == ("CONCATS_APP_BASE"@, base));
    }
    if head.len() > 0 {
        assert(env[env.len() - 1] == ("CONCATS_APP_HEAD"@, head));
    }
}

/// A panel that was never dragged open comes up at its own size, and each panel
/// keeps its own.
pub proof fn each_panel_keeps_its_size(pane: ReviewPane, size: i64)
    requires
        size > PANEL_SHUT,
    ensures
        pane.bottom_restore <= PANEL_SHUT ==> pane.reopen_size(Panel::Bottom) == BOTTOM_DEFAULT,
        pane.sidebar_restore <= PANEL_SHUT ==> pane.reopen_size(Panel::Sidebar) == SIDEBAR_DEFAULT,
        (ReviewPane { bottom_restore: size, ..pane }).reopen_size(Panel::Sidebar)
            == pane.reopen_size(Panel::Sidebar),
        (ReviewPane { sidebar_restore: size, ..pane }).reopen_size(Panel::Bottom)
            == pane.reopen_size(Panel::Bottom),
        pane.reopen_size(Panel::Bottom) > PANEL_SHUT,
        pane.reopen_size(Panel::Sidebar) > PANEL_SHUT,
{
}

/// Every file tab's title follows the document, in order, but that of the
/// settings.
pub proof fn every_file_tab_is_titled(ids: Seq<u64>, settings: u64, id: u64)
    ensures
        titled(ids.push(id), settings) == (if id == settings {
            titled(ids, settings)
        } else {
            titled(ids, settings).push(id)
        }),
        titled(Seq::empty(), settings) == Seq::<u64>::empty(),
{
    assert(ids.push(id).drop_last() =~= ids);
}

} // verus!
