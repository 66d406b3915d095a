//! Importing comments: which of them are already there, which thread each
//! answer joins, and what is said of the rest.

use crate::diff::{copy_opt, opt_text, Oid};
use crate::review::store::{
    a_reply_joins_the_root, comment_views, lemma_place_of, place_of, root_place, same_opt, Anchor, Comment, CommentView,
    Store,
};
use crate::text::{
    begins, decimal, each_part_stands_in_the_join, is_space, join, joined, lemma_same_either_way,
    lemma_stands_between, lemma_trim_start, number, occurs, same, to_chars, trim_start,
    trimmed_start, views,
};
use std::collections::HashMap;
use vstd::prelude::*;

verus! {

broadcast use vstd::std_specs::hash::group_hash_axioms;

/// Which side of a diff lines are counted on.
#[derive(Clone, Copy, Debug, PartialEq, Eq, Structural)]
pub enum EntrySide {
    New,
    Old,
}

/// One comment of a document or of a pull request.
#[derive(Debug)]
pub struct Entry {
    /// Its id in the document.
    pub id: Option<u64>,
    /// The id, in the document, of the comment that it answers.
    pub reply_to: Option<u64>,
    /// Where a stored comment would say that the comment it answers came from.
    pub answers: Option<String>,
    pub path: String,
    pub side: EntrySide,
    pub start: u32,
    pub end: u32,
    pub body: String,
    pub author: Option<String>,
    pub created_at: Option<u64>,
    /// Where it came from.
    pub external: Option<String>,
    /// The line of the document that it stands on.
    pub line: usize,
}

/// Where the diff has the lines of an entry.
#[derive(Debug)]
pub struct ResolvedEntry {
    pub path: String,
    pub blob: Oid,
    pub start: u32,
    pub end: u32,
}

/// What looking an entry up in the diff gave.
#[derive(Debug)]
pub enum Resolution {
    Placed(ResolvedEntry),
    /// The file is not part of the diff.
    UnknownPath,
    /// Some of the lines are not; the file's reviewable ranges, as links.
    MissingLines { file: String, missing: Vec<u32>, ranges: Vec<String> },
}

/// An entry, as the contracts speak of it, and where the diff has its lines.
pub struct ItemView {
    pub id: Option<u64>,
    pub reply_to: Option<u64>,
    pub answers: Option<Seq<char>>,
    pub body: Seq<char>,
    pub author: Option<Seq<char>>,
    pub created_at: Option<u64>,
    pub external: Option<Seq<char>>,
    pub place: Option<(Seq<char>, Anchor)>,
}

/// Where the diff has the lines of an entry.
pub open spec fn place_in(r: Resolution) -> Option<(Seq<char>, Anchor)> {
    match r {
        Resolution::Placed(r) => Some(
            (r.path@, Anchor { blob: r.blob, start: r.start, end: r.end }),
        ),
        _ => None,
    }
}

/// An entry and where its lines are.
pub open spec fn item_of(entry: Entry, resolution: Resolution) -> ItemView {
    ItemView {
        id: entry.id,
        reply_to: entry.reply_to,
        answers: opt_text(entry.answers),
        body: entry.body@,
        author: opt_text(entry.author),
        created_at: entry.created_at,
        external: opt_text(entry.external),
        place: place_in(resolution),
    }
}

/// Entries in the order in which they are written.
pub open spec fn items_of(
    entries: Seq<Entry>,
    resolutions: Seq<Resolution>,
    order: Seq<usize>,
) -> Seq<ItemView> {
    Seq::new(order.len(), |i: int| item_of(entries[order[i] as int], resolutions[order[i] as int]))
}

/// What a batch has done so far: the comments, where each id of the document
/// landed, and how many entries went which way.
#[verifier::ext_equal]
pub struct Batch {
    pub comments: Seq<CommentView>,
    pub next: int,
    pub ids: Map<u64, u64>,
    pub added: nat,
    pub updated: nat,
    pub skipped: nat,
    pub orphaned: nat,
    /// The new comments that stand at lines of their own.
    pub anchored: Seq<u64>,
}

/// A batch that has done nothing.
pub open spec fn unwritten(comments: Seq<CommentView>, next: int) -> Batch {
    Batch {
        comments,
        next,
        ids: Map::empty(),
        added: 0,
        updated: 0,
        skipped: 0,
        orphaned: 0,
        anchored: Seq::empty(),
    }
}

/// The place of the first comment that came from there.
pub open spec fn external_place(comments: Seq<CommentView>, want: Seq<char>) -> Option<int>
    decreases comments.len(),
{
    if comments.len() == 0 {
        None
    } else {
        match external_place(comments.drop_last(), want) {
            Some(i) => Some(i),
            None => if comments.last().external == Some(want) {
                Some(comments.len() - 1)
            } else {
                None
            },
        }
    }
}

/// The comment that an entry answers: one that this batch wrote, or one that
/// an earlier one stored.
pub open spec fn answered(item: ItemView, comments: Seq<CommentView>, ids: Map<u64, u64>) -> Option<
    u64,
> {
    match item.reply_to {
        Some(doc) => if ids.contains_key(doc) {
            Some(ids[doc])
        } else {
            match item.answers {
                Some(want) => match external_place(comments, want) {
                    Some(k) => Some(comments[k].id),
                    None => None,
                },
                None => None,
            }
        },
        None => None,
    }
}

/// The thread that an answer joins, as its root's id. `None` for an entry that
/// answers nothing, and where the thread is not stored.
pub open spec fn thread(item: ItemView, comments: Seq<CommentView>, ids: Map<u64, u64>) -> Option<
    u64,
> {
    match answered(item, comments, ids) {
        Some(id) => match root_place(comments, id) {
            Some(r) => Some(comments[r].id),
            None => None,
        },
        None => None,
    }
}

/// Whether an entry is this comment: the same one elsewhere when both say where
/// they came from, and otherwise the same text in the same place, which is its
/// lines where the diff has them, and else its thread.
pub open spec fn is_match(c: CommentView, item: ItemView, parent: Option<u64>) -> bool {
    if c.external is Some && item.external is Some {
        c.external == item.external
    } else {
        c.parent == parent && c.body == item.body && (item.place matches Some((_, at)) ==> c.anchor
            == at)
    }
}

/// The place of the first comment that an entry is.
pub open spec fn match_place(
    comments: Seq<CommentView>,
    item: ItemView,
    parent: Option<u64>,
) -> Option<int>
    decreases comments.len(),
{
    if comments.len() == 0 {
        None
    } else {
        match match_place(comments.drop_last(), item, parent) {
            Some(i) => Some(i),
            None => if is_match(comments.last(), item, parent) {
                Some(comments.len() - 1)
            } else {
                None
            },
        }
    }
}

/// The comment that an entry becomes: at its own lines where the diff has them,
/// else at the place of its thread's root.
pub open spec fn new_comment(
    b: Batch,
    item: ItemView,
    parent: Option<u64>,
    fallback: Option<Seq<char>>,
    now: u64,
) -> CommentView {
    let at = match item.place {
        Some(place) => place,
        None => {
            let root = b.comments[root_place(b.comments, parent->0)->0];
            (root.path, root.anchor)
        },
    };
    CommentView {
        id: b.next as u64,
        path: at.0,
        anchor: at.1,
        body: item.body,
        author: if item.author is Some {
            item.author
        } else {
            fallback
        },
        created_at: match item.created_at {
            Some(t) => t,
            None => now,
        },
        parent,
        external: item.external,
        cursors: None,
    }
}

/// Notes where an id of the document landed.
pub open spec fn remembered(ids: Map<u64, u64>, doc: Option<u64>, id: u64) -> Map<u64, u64> {
    match doc {
        Some(doc) => ids.insert(doc, id),
        None => ids,
    }
}

/// Whether an entry answers a comment that is not there.
pub open spec fn is_orphan(b: Batch, item: ItemView) -> bool {
    item.reply_to is Some && thread(item, b.comments, b.ids) is None
}

/// What one entry does to a batch. An answer without a thread is orphaned. An
/// entry that is there with the same text is skipped; with other text, it was
/// edited since, and the comment takes the new words. Any other is added.
pub open spec fn step(b: Batch, item: ItemView, fallback: Option<Seq<char>>, now: u64) -> Batch {
    let parent = thread(item, b.comments, b.ids);
    if is_orphan(b, item) {
        Batch { orphaned: b.orphaned + 1, ..b }
    } else {
        match match_place(b.comments, item, parent) {
            Some(k) => {
                let c = b.comments[k];
                if c.body == item.body {
                    Batch {
                        skipped: b.skipped + 1,
                        ids: remembered(b.ids, item.id, c.id),
                        ..b
                    }
                } else {
                    Batch {
                        updated: b.updated + 1,
                        comments: b.comments.update(k, (CommentView { body: item.body, ..c })),
                        ids: remembered(b.ids, item.id, c.id),
                        ..b
                    }
                }
            },
            None => Batch {
                added: b.added + 1,
                comments: b.comments.push(new_comment(b, item, parent, fallback, now)),
                next: b.next + 1,
                ids: remembered(b.ids, item.id, b.next as u64),
                anchored: if item.place is Some {
                    b.anchored.push(b.next as u64)
                } else {
                    b.anchored
                },
                ..b
            },
        }
    }
}

/// What entries do to a batch, one after the other.
pub open spec fn written(
    b: Batch,
    items: Seq<ItemView>,
    fallback: Option<Seq<char>>,
    now: u64,
) -> Batch
    decreases items.len(),
{
    if items.len() == 0 {
        b
    } else {
        step(written(b, items.drop_last(), fallback, now), items.last(), fallback, now)
    }
}

proof fn lemma_external_place(comments: Seq<CommentView>, want: Seq<char>)
    ensures
        (match external_place(comments, want) {
            Some(i) => 0 <= i < comments.len() && comments[i].external == Some(want) && forall|
                j: int,
            |
                0 <= j < i ==> (#[trigger] comments[j]).external != Some(want),
            None => forall|j: int|
                0 <= j < comments.len() ==> (#[trigger] comments[j]).external != Some(want),
        }),
    decreases comments.len(),
{
    if comments.len() > 0 {
        let rest = comments.drop_last();
        lemma_external_place(rest, want);
        assert forall|j: int| 0 <= j < rest.len() implies (#[trigger] comments[j]) == rest[j] by {}
        if let Some(i) = external_place(rest, want) {
            assert(comments[i] == rest[i]);
        }
    }
}

proof fn lemma_match_place(comments: Seq<CommentView>, item: ItemView, parent: Option<u64>)
    ensures
        (match match_place(comments, item, parent) {
            Some(i) => 0 <= i < comments.len() && is_match(comments[i], item, parent) && forall|
                j: int,
            |
                0 <= j < i ==> !is_match(#[trigger] comments[j], item, parent),
            None => forall|j: int|
                0 <= j < comments.len() ==> !is_match(#[trigger] comments[j], item, parent),
        }),
    decreases comments.len(),
{
    if comments.len() > 0 {
        let rest = comments.drop_last();
        lemma_match_place(rest, item, parent);
        assert forall|j: int| 0 <= j < rest.len() implies (#[trigger] comments[j]) == rest[j] by {}
        if let Some(i) = match_place(rest, item, parent) {
            assert(comments[i] == rest[i]);
        }
    }
}

// ---------------------------------------------------------------------------
// Writing
// ---------------------------------------------------------------------------

/// What a batch did.
#[derive(Debug)]
pub struct Tally {
    pub added: usize,
    pub updated: usize,
    pub skipped: usize,
    /// Answers whose thread is not in this range: nothing to attach them to.
    pub orphaned: usize,
    /// The new comments that stand at lines of their own.
    pub anchored: Vec<u64>,
}

/// A tally says what a batch did.
pub open spec fn tallies(t: Tally, b: Batch) -> bool {
    &&& t.added == b.added
    &&& t.updated == b.updated
    &&& t.skipped == b.skipped
    &&& t.orphaned == b.orphaned
    &&& t.anchored@ == b.anchored
}

/// Whether this is the id of a thread's root.
spec fn is_root(comments: Seq<CommentView>, id: u64) -> bool {
    root_place(comments, id) matches Some(r) && comments[r].id == id
}

/// The thread that an answer joins, as its root's id.
fn thread_of(
    entry: &Entry,
    store: &Store,
    ids: &HashMap<u64, u64>,
    Ghost(item): Ghost<ItemView>,
) -> (root: Option<u64>)
    requires
        item.reply_to == entry.reply_to,
        item.answers == opt_text(entry.answers),
    ensures
        root == thread(item, comment_views(store.comments@), ids@),
        root matches Some(id) ==> is_root(comment_views(store.comments@), id),
{
    let ghost all = comment_views(store.comments@);
    let doc: u64 = match entry.reply_to {
        Some(doc) => doc,
        None => {
            return None;
        },
    };
    let id: Option<u64> = match ids.get(&doc) {
        Some(id) => Some(*id),
        None => match &entry.answers {
            Some(want) => stored_from(store, want.as_str()),
            None => None,
        },
    };
    match id {
        Some(id) => match store.root_of(id) {
            Some(r) => {
                proof {
                    lemma_place_of(all, id);
                    lemma_place_of(all, all[r as int].id);
                    let asked = all[place_of(all, id)->0];
                    if let Some(root) = asked.parent {
                        lemma_place_of(all, root);
                    }
                    assert(all[r as int].id == store.comments@[r as int].id);
                }
                Some(store.comments[r].id)
            },
            None => None,
        },
        None => None,
    }
}

/// The id of the first comment that came from there.
fn stored_from(store: &Store, want: &str) -> (id: Option<u64>)
    ensures
        id == (match external_place(comment_views(store.comments@), want@) {
            Some(k) => Some(comment_views(store.comments@)[k].id),
            None => None,
        }),
{
    let ghost all = comment_views(store.comments@);
    let mut i: usize = 0;
    while i < store.comments.len()
        invariant
            i <= store.comments@.len(),
            all == comment_views(store.comments@),
            forall|j: int| 0 <= j < i ==> (#[trigger] all[j]).external != Some(want@),
        decreases store.comments.len() - i,
    {
        assert(all[i as int] == store.comments@[i as int]@);
        if let Some(have) = &store.comments[i].external {
            if same(have.as_str(), want) {
                proof {
                    lemma_external_place(all, want@);
                }
                return Some(store.comments[i].id);
            }
        }
        i += 1;
    }
    proof {
        lemma_external_place(all, want@);
    }
    None
}

fn matches_entry(c: &Comment, entry: &Entry, resolution: &Resolution, parent: Option<u64>) -> (r:
    bool)
    ensures
        r == is_match(c@, item_of(*entry, *resolution), parent),
{
    if c.external.is_some() && entry.external.is_some() {
        return same_opt(&c.external, &entry.external);
    }
    if c.parent != parent || !same(c.body.as_str(), entry.body.as_str()) {
        return false;
    }
    match resolution {
        Resolution::Placed(r) => c.anchor.blob == r.blob && c.anchor.start == r.start
            && c.anchor.end == r.end,
        _ => true,
    }
}

/// Where the stored comment is that an entry would land on.
fn stored_match(
    store: &Store,
    entry: &Entry,
    resolution: &Resolution,
    parent: Option<u64>,
) -> (place: Option<usize>)
    ensures
        (match place {
            Some(k) => k < store.comments@.len() && match_place(
                comment_views(store.comments@),
                item_of(*entry, *resolution),
                parent,
            ) == Some(k as int),
            None => match_place(
                comment_views(store.comments@),
                item_of(*entry, *resolution),
                parent,
            ) is None,
        }),
{
    let ghost all = comment_views(store.comments@);
    let ghost item = item_of(*entry, *resolution);
    let mut i: usize = 0;
    while i < store.comments.len()
        invariant
            i <= store.comments@.len(),
            all == comment_views(store.comments@),
            item == item_of(*entry, *resolution),
            forall|j: int| 0 <= j < i ==> !is_match(#[trigger] all[j], item, parent),
        decreases store.comments.len() - i,
    {
        assert(all[i as int] == store.comments@[i as int]@);
        if matches_entry(&store.comments[i], entry, resolution, parent) {
            proof {
                lemma_match_place(all, item, parent);
            }
            return Some(i);
        }
        i += 1;
    }
    proof {
        lemma_match_place(all, item, parent);
    }
    None
}

/// Writes one entry: at its own lines when the diff has them, else into its
/// thread at the place of the root.
fn store_entry(
    store: &mut Store,
    entry: &Entry,
    resolution: &Resolution,
    parent: Option<u64>,
    fallback: &Option<String>,
    now: u64,
) -> (id: u64)
    requires
        old(store).wf(),
        old(store).next < u64::MAX,
        place_in(*resolution) is None ==> (parent matches Some(root) && is_root(
            comment_views(old(store).comments@),
            root,
        )),
    ensures
        final(store).wf(),
        id == old(store).next,
        final(store).next == old(store).next + 1,
        ({
            let b = unwritten(comment_views(old(store).comments@), old(store).next as int);
            comment_views(final(store).comments@) == b.comments.push(
                new_comment(
                    b,
                    item_of(*entry, *resolution),
                    parent,
                    opt_text(*fallback),
                    now,
                ),
            )
        }),
{
    let ghost all = comment_views(store.comments@);
    let created_at: u64 = match entry.created_at {
        Some(t) => t,
        None => now,
    };
    let author = match &entry.author {
        Some(name) => Some(name.clone()),
        None => copy_opt(fallback),
    };
    match resolution {
        Resolution::Placed(r) => {
            let comment = Comment {
                id: 0,
                path: r.path.clone(),
                anchor: Anchor { blob: r.blob, start: r.start, end: r.end },
                body: entry.body.clone(),
                author,
                created_at,
                parent,
                external: copy_opt(&entry.external),
                cursors: None,
            };
            store.add_comment(comment)
        },
        _ => {
            let root: u64 = match parent {
                Some(root) => root,
                None => 0,
            };
            match store.reply_comment(
                root,
                entry.body.clone(),
                author,
                created_at,
                copy_opt(&entry.external),
            ) {
                Some(id) => id,
                None => 0,
            }
        },
    }
}

/// The entries that are written in a batch are there, and one that answers
/// nothing has its lines in the diff.
pub open spec fn writable(
    entries: Seq<Entry>,
    resolutions: Seq<Resolution>,
    order: Seq<usize>,
) -> bool {
    &&& entries.len() == resolutions.len()
    &&& forall|i: int|
        0 <= i < order.len() ==> (#[trigger] order[i]) < entries.len() && (entries[order[i] as int].reply_to is None
            ==> resolutions[order[i] as int] is Placed)
}

/// Writes entries to a store.
fn write_batch(
    store: &mut Store,
    entries: &Vec<Entry>,
    resolutions: &Vec<Resolution>,
    order: &Vec<usize>,
    fallback: &Option<String>,
    now: u64,
) -> (tally: Tally)
    requires
        old(store).wf(),
        old(store).next + order@.len() <= u64::MAX,
        writable(entries@, resolutions@, order@),
    ensures
        final(store).wf(),
        ({
            let b = written(
                unwritten(comment_views(old(store).comments@), old(store).next as int),
                items_of(entries@, resolutions@, order@),
                opt_text(*fallback),
                now,
            );
            &&& comment_views(final(store).comments@) == b.comments
            &&& final(store).next == b.next
            &&& tallies(tally, b)
        }),
{
    let ghost first = unwritten(comment_views(store.comments@), store.next as int);
    let ghost items = items_of(entries@, resolutions@, order@);
    let mut tally = Tally {
        added: 0,
        updated: 0,
        skipped: 0,
        orphaned: 0,
        anchored: Vec::new(),
    };
    let mut ids: HashMap<u64, u64> = HashMap::new();
    let mut i: usize = 0;
    assert(items.take(0) =~= Seq::empty());
    while i < order.len()
        invariant
            i <= order@.len(),
            store.wf(),
            store.next <= first.next + i,
            first.next + order@.len() <= u64::MAX,
            writable(entries@, resolutions@, order@),
            items == items_of(entries@, resolutions@, order@),
            ({
                let b = written(first, items.take(i as int), opt_text(*fallback), now);
                &&& comment_views(store.comments@) == b.comments
                &&& store.next == b.next
                &&& ids@ == b.ids
                &&& tallies(tally, b)
                &&& b.added + b.updated + b.skipped + b.orphaned == i
            }),
        decreases order.len() - i,
    {
        let ghost b = written(first, items.take(i as int), opt_text(*fallback), now);
        let e: usize = order[i];
        let entry = &entries[e];
        let resolution = &resolutions[e];
        let ghost item = items[i as int];
        assert(item == item_of(*entry, *resolution));
        assert(items.take(i + 1).drop_last() =~= items.take(i as int));
        assert(items.take(i + 1).last() == item);
        let ghost after = written(first, items.take(i + 1), opt_text(*fallback), now);
        assert(after == step(b, item, opt_text(*fallback), now));
        let parent = thread_of(entry, store, &ids, Ghost(item));
        if entry.reply_to.is_some() && parent.is_none() {
            tally.orphaned = tally.orphaned + 1;
        } else {
            let id: u64 = match stored_match(store, entry, resolution, parent) {
                Some(k) => {
                    assert(b.comments[k as int] == store.comments@[k as int]@);
                    let id: u64 = store.comments[k].id;
                    if same(store.comments[k].body.as_str(), entry.body.as_str()) {
                        tally.skipped = tally.skipped + 1;
                    } else {
                        tally.updated = tally.updated + 1;
                        store.set_body(k, entry.body.clone());
                    }
                    id
                },
                None => {
                    let id: u64 = store_entry(store, entry, resolution, parent, fallback, now);
                    tally.added = tally.added + 1;
                    if let Resolution::Placed(_) = resolution {
                        tally.anchored.push(id);
                    }
                    id
                },
            };
            if let Some(doc) = entry.id {
                ids.insert(doc, id);
            }
        }
        i += 1;
    }
    assert(items.take(items.len() as int) =~= items);
    tally
}

/// Writes a batch of entries. A dry run writes nothing, and its counts are
/// those of a real one. `now` is the time for entries that name none, and
/// `fallback` their author.
pub fn write_entries(
    store: &mut Store,
    entries: &Vec<Entry>,
    resolutions: &Vec<Resolution>,
    order: &Vec<usize>,
    fallback: &Option<String>,
    dry: bool,
    now: u64,
) -> (tally: Tally)
    requires
        old(store).wf(),
        old(store).next + order@.len() <= u64::MAX,
        writable(entries@, resolutions@, order@),
    ensures
        final(store).wf(),
        ({
            let b = written(
                unwritten(comment_views(old(store).comments@), old(store).next as int),
                items_of(entries@, resolutions@, order@),
                opt_text(*fallback),
                now,
            );
            &&& tallies(tally, b)
            &&& if dry {
                *final(store) == *old(store)
            } else {
                comment_views(final(store).comments@) == b.comments && final(store).next == b.next
            }
        }),
{
    if dry {
        let mut scratch = store.copy();
        write_batch(&mut scratch, entries, resolutions, order, fallback, now)
    } else {
        write_batch(store, entries, resolutions, order, fallback, now)
    }
}

// ---------------------------------------------------------------------------
// Importing
// ---------------------------------------------------------------------------

/// Whether a text is a pull request's comments rather than a document: those
/// start with their array.
pub open spec fn payload(text: Seq<char>) -> bool {
    let rest = trim_start(text);
    rest.len() > 0 && (rest[0] == '[' || rest[0] == '{')
}

/// Whether a text is a pull request's comments rather than a document.
pub fn is_payload(text: &str) -> (r: bool)
    ensures
        r == payload(text@),
{
    let rest = trimmed_start(text);
    let v = to_chars(rest.as_str());
    v.len() > 0 && (v[0] == '[' || v[0] == '{')
}

/// A warning about a document. One about a document names its source line; one
/// about a pull request names a comment, and there is no line to blame.
pub fn warning_line(warning: &str, input: &str, from_pull_request: bool) -> (line: String)
    ensures
        line@ == (if from_pull_request {
            "warning: "@ + warning@
        } else {
            "warning: "@ + input@ + ":"@ + warning@
        }),
{
    let mut line = "warning: ".to_owned();
    if !from_pull_request {
        line.append(input);
        line.append(":");
    }
    line.append(warning);
    line
}

/// How many missing lines an error names.
pub const SHOWN_LINES: usize = 5;

/// Numbers in decimal.
pub open spec fn decimals(ns: Seq<u32>) -> Seq<Seq<char>> {
    Seq::new(ns.len(), |i: int| decimal(ns[i] as nat))
}

/// The first missing lines, as an error names them.
pub open spec fn shown_lines(missing: Seq<u32>) -> Seq<char> {
    join(
        decimals(
            if missing.len() > SHOWN_LINES {
                missing.take(SHOWN_LINES as int)
            } else {
                missing
            },
        ),
        ", "@,
    )
}

/// The first missing lines, as an error names them.
pub(crate) fn lines_shown(missing: &Vec<u32>) -> (text: String)
    ensures
        text@ == shown_lines(missing@),
{
    let top: usize = if missing.len() > SHOWN_LINES {
        SHOWN_LINES
    } else {
        missing.len()
    };
    let ghost shown = decimals(missing@.take(top as int));
    let mut list: Vec<String> = Vec::new();
    while list.len() < top
        invariant
            top <= missing@.len(),
            shown == decimals(missing@.take(top as int)),
            list@.len() <= top,
            views(list@) == shown.take(list@.len() as int),
        decreases top - list.len(),
    {
        let i: usize = list.len();
        let ghost was = views(list@);
        list.push(number(missing[i] as u64));
        assert(views(list@) =~= was.push(shown[i as int]));
        assert(views(list@) =~= shown.take(i + 1));
    }
    assert(shown.take(top as int) =~= shown);
    assert(missing@.len() <= SHOWN_LINES ==> missing@.take(top as int) =~= missing@);
    joined(&list, ", ")
}

/// The ranges of a file that can be commented on, to copy one from.
pub open spec fn ranges_text(ranges: Seq<Seq<char>>) -> Seq<Seq<char>> {
    seq!["\nThe file's reviewable ranges — comment within one of these:\n"@] + Seq::new(
        ranges.len(),
        |i: int| ranges[i] + "\n"@,
    )
}

/// Says which ranges of a file can be commented on.
pub(crate) fn push_ranges(out: &mut Vec<String>, ranges: &Vec<String>)
    ensures
        views(final(out)@) == views(old(out)@) + ranges_text(views(ranges@)),
{
    let ghost was = views(out@);
    let ghost all = ranges_text(views(ranges@));
    out.push("\nThe file's reviewable ranges — comment within one of these:\n".to_owned());
    assert(views(out@) =~= was + all.take(1));
    let mut i: usize = 0;
    while i < ranges.len()
        invariant
            i <= ranges@.len(),
            all == ranges_text(views(ranges@)),
            views(out@) == was + all.take(i + 1),
        decreases ranges.len() - i,
    {
        let ghost before = views(out@);
        let mut line = ranges[i].clone();
        line.append("\n");
        assert(line@ == all[i + 1]);
        out.push(line);
        assert(views(out@) =~= before.push(all[i + 1]));
        assert(views(out@) =~= was + all.take(i + 2));
        i += 1;
    }
    assert(all.take(all.len() as int) =~= all);
}

/// What is said of an entry that does not anchor: nothing where it does.
pub open spec fn entry_complaint(
    entry: Entry,
    resolution: Resolution,
    input: Seq<char>,
    from_pull_request: bool,
) -> Seq<Seq<char>> {
    let head = (if from_pull_request {
        "warning"@
    } else {
        "error"@
    }) + ": "@ + input + ":"@ + decimal(entry.line as nat) + ": "@;
    match resolution {
        Resolution::Placed(_) => Seq::empty(),
        Resolution::UnknownPath => seq![head + "`"@ + entry.path@ + "` is not part of this diff"@],
        Resolution::MissingLines { file, missing, ranges } => seq![
            head + (if entry.side == EntrySide::Old {
                "old-side "@
            } else {
                ""@
            }) + "line(s) "@ + shown_lines(missing@) + " of "@ + file@
                + " are not part of this diff"@,
        ] + (if from_pull_request {
            Seq::empty()
        } else {
            ranges_text(views(ranges@))
        }),
    }
}

fn complain(
    out: &mut Vec<String>,
    entry: &Entry,
    resolution: &Resolution,
    input: &str,
    from_pull_request: bool,
)
    ensures
        views(final(out)@) == views(old(out)@) + entry_complaint(
            *entry,
            *resolution,
            input@,
            from_pull_request,
        ),
{
    let ghost was = views(out@);
    let ghost all = entry_complaint(*entry, *resolution, input@, from_pull_request);
    let at = number(entry.line as u64);
    let mut line = if from_pull_request {
        "warning".to_owned()
    } else {
        "error".to_owned()
    };
    line.append(": ");
    line.append(input);
    line.append(":");
    line.append(at.as_str());
    line.append(": ");
    match resolution {
        Resolution::Placed(_) => {
            assert(views(out@) =~= was + all);
        },
        Resolution::UnknownPath => {
            line.append("`");
            line.append(entry.path.as_str());
            line.append("` is not part of this diff");
            out.push(line);
            assert(views(out@) =~= was + all);
        },
        Resolution::MissingLines { file, missing, ranges } => {
            let shown = lines_shown(missing);
            if entry.side == EntrySide::Old {
                line.append("old-side ");
            } else {
                line.append("");
            }
            line.append("line(s) ");
            line.append(shown.as_str());
            line.append(" of ");
            line.append(file.as_str());
            line.append(" are not part of this diff");
            let ghost said = line@;
            out.push(line);
            assert(views(out@) =~= was.push(said));
            // Ranges to copy help someone fixing a document; nobody can fix a
            // pull request comment that the diff has moved past.
            if !from_pull_request {
                push_ranges(out, ranges);
            }
            assert(views(out@) =~= was + all);
        },
    }
}

/// The entries that answer nothing and anchor.
pub open spec fn anchored_roots(
    entries: Seq<Entry>,
    resolutions: Seq<Resolution>,
    n: nat,
) -> Seq<usize>
    decreases n,
{
    if n == 0 {
        Seq::empty()
    } else if entries[n - 1].reply_to is None && resolutions[n - 1] is Placed {
        anchored_roots(entries, resolutions, (n - 1) as nat).push((n - 1) as usize)
    } else {
        anchored_roots(entries, resolutions, (n - 1) as nat)
    }
}

/// How many entries that answer nothing do not anchor.
pub open spec fn failed_roots(entries: Seq<Entry>, resolutions: Seq<Resolution>, n: nat) -> nat
    decreases n,
{
    if n == 0 {
        0
    } else {
        failed_roots(entries, resolutions, (n - 1) as nat) + (if entries[n - 1].reply_to is None
            && !(resolutions[n - 1] is Placed) {
            1nat
        } else {
            0
        })
    }
}

/// What is said of them.
pub open spec fn root_complaints(
    entries: Seq<Entry>,
    resolutions: Seq<Resolution>,
    input: Seq<char>,
    from_pull_request: bool,
    n: nat,
) -> Seq<Seq<char>>
    decreases n,
{
    if n == 0 {
        Seq::empty()
    } else {
        root_complaints(entries, resolutions, input, from_pull_request, (n - 1) as nat) + (
        if entries[n - 1].reply_to is None {
            entry_complaint(entries[n - 1], resolutions[n - 1], input, from_pull_request)
        } else {
            Seq::empty()
        })
    }
}

/// The entries that are answers.
pub open spec fn answers(entries: Seq<Entry>, n: nat) -> Seq<usize>
    decreases n,
{
    if n == 0 {
        Seq::empty()
    } else if entries[n - 1].reply_to is Some {
        answers(entries, (n - 1) as nat).push((n - 1) as usize)
    } else {
        answers(entries, (n - 1) as nat)
    }
}

/// The order in which entries are written: what answers nothing first, so that
/// an answer joins the thread that the same batch brings.
pub open spec fn write_order(entries: Seq<Entry>, resolutions: Seq<Resolution>) -> Seq<usize> {
    anchored_roots(entries, resolutions, entries.len()) + answers(entries, entries.len())
}

/// Every entry that answers nothing and anchors, and how many do not.
pub fn resolve_roots(
    entries: &Vec<Entry>,
    resolutions: &Vec<Resolution>,
    input: &str,
    from_pull_request: bool,
) -> (r: (Vec<usize>, usize, Vec<String>))
    requires
        entries@.len() == resolutions@.len(),
    ensures
        (r.0)@ == anchored_roots(entries@, resolutions@, entries@.len()),
        r.1 == failed_roots(entries@, resolutions@, entries@.len()),
        views((r.2)@) == root_complaints(
            entries@,
            resolutions@,
            input@,
            from_pull_request,
            entries@.len(),
        ),
{
    let mut roots: Vec<usize> = Vec::new();
    let mut failed: usize = 0;
    let mut lines: Vec<String> = Vec::new();
    let mut i: usize = 0;
    assert(views(lines@) =~= Seq::empty());
    while i < entries.len()
        invariant
            i <= entries@.len(),
            entries@.len() == resolutions@.len(),
            roots@ == anchored_roots(entries@, resolutions@, i as nat),
            failed == failed_roots(entries@, resolutions@, i as nat),
            failed <= i,
            views(lines@) == root_complaints(
                entries@,
                resolutions@,
                input@,
                from_pull_request,
                i as nat,
            ),
        decreases entries.len() - i,
    {
        let ghost was = views(lines@);
        if entries[i].reply_to.is_none() {
            complain(&mut lines, &entries[i], &resolutions[i], input, from_pull_request);
            if let Resolution::Placed(_) = &resolutions[i] {
                roots.push(i);
            } else {
                failed = failed + 1;
            }
        } else {
            assert(was + Seq::<Seq<char>>::empty() =~= was);
        }
        i += 1;
    }
    (roots, failed, lines)
}

/// What an import came to: what is said on the way, and what the batch did;
/// `None` when nothing was imported.
#[derive(Debug)]
pub struct ImportReport {
    pub lines: Vec<String>,
    pub tally: Option<Tally>,
}

/// Why nothing is imported, where that is so. An entry that a document cannot
/// anchor is a mistake worth stopping for; a pull request's outdated threads
/// come with the source, and are skipped.
pub open spec fn refusal(
    entries: Seq<Entry>,
    resolutions: Seq<Resolution>,
    input: Seq<char>,
    from_pull_request: bool,
) -> Option<Seq<char>> {
    let n = entries.len();
    let failed = failed_roots(entries, resolutions, n);
    if n == 0 {
        Some("error: no comment entries found in "@ + input)
    } else if failed > 0 && !from_pull_request {
        Some(
            "\n"@ + decimal(failed) + " of "@ + decimal(n) + " entr"@ + (if n == 1 {
                "y"@
            } else {
                "ies"@
            }) + " failed to resolve — nothing imported"@,
        )
    } else {
        None
    }
}

/// What an import says.
pub open spec fn import_text(
    entries: Seq<Entry>,
    resolutions: Seq<Resolution>,
    input: Seq<char>,
    from_pull_request: bool,
) -> Seq<Seq<char>> {
    let n = entries.len();
    let failed = failed_roots(entries, resolutions, n);
    root_complaints(entries, resolutions, input, from_pull_request, n) + (match refusal(
        entries,
        resolutions,
        input,
        from_pull_request,
    ) {
        Some(why) => seq![why],
        None => if failed > 0 {
            seq!["\n"@ + decimal(failed) + " thread(s) do not anchor in this range — skipped"@]
        } else {
            Seq::empty()
        },
    })
}

proof fn lemma_order_bounds(entries: Seq<Entry>, resolutions: Seq<Resolution>, n: nat)
    requires
        n <= entries.len(),
        entries.len() <= usize::MAX,
    ensures
        anchored_roots(entries, resolutions, n).len() + answers(entries, n).len() <= n,
        forall|i: int|
            0 <= i < anchored_roots(entries, resolutions, n).len() ==> (
            #[trigger] anchored_roots(entries, resolutions, n)[i]) < n
                && resolutions[anchored_roots(entries, resolutions, n)[i] as int] is Placed,
        forall|i: int|
            0 <= i < answers(entries, n).len() ==> (#[trigger] answers(entries, n)[i]) < n
                && entries[answers(entries, n)[i] as int].reply_to is Some,
    decreases n,
{
    if n > 0 {
        lemma_order_bounds(entries, resolutions, (n - 1) as nat);
    }
}

/// Imports entries: those that answer nothing first, then the answers.
/// `resolutions` says where the diff has each one's lines, and `now` what time
/// it is.
pub fn import(
    store: &mut Store,
    entries: &Vec<Entry>,
    resolutions: &Vec<Resolution>,
    input: &str,
    from_pull_request: bool,
    fallback: &Option<String>,
    dry: bool,
    now: u64,
) -> (report: ImportReport)
    requires
        old(store).wf(),
        entries@.len() == resolutions@.len(),
        old(store).next + entries@.len() <= u64::MAX,
    ensures
        final(store).wf(),
        views(report.lines@) == import_text(entries@, resolutions@, input@, from_pull_request),
        ({
            let b = written(
                unwritten(comment_views(old(store).comments@), old(store).next as int),
                items_of(entries@, resolutions@, write_order(entries@, resolutions@)),
                opt_text(*fallback),
                now,
            );
            match refusal(entries@, resolutions@, input@, from_pull_request) {
                Some(_) => report.tally is None && *final(store) == *old(store),
                None => {
                    &&& report.tally matches Some(tally) && tallies(tally, b)
                    &&& if dry {
                        *final(store) == *old(store)
                    } else {
                        comment_views(final(store).comments@) == b.comments && final(store).next
                            == b.next
                    }
                },
            }
        }),
{
    let (mut order, failed, mut lines) = resolve_roots(
        entries,
        resolutions,
        input,
        from_pull_request,
    );
    let ghost said = views(lines@);
    let ghost n = entries@.len();
    if entries.len() == 0 {
        let mut line = "error: no comment entries found in ".to_owned();
        line.append(input);
        let ghost last = line@;
        lines.push(line);
        assert(views(lines@) =~= said + seq![last]);
        return ImportReport { lines, tally: None };
    }
    if failed > 0 {
        let count = number(failed as u64);
        let mut line = "\n".to_owned();
        line.append(count.as_str());
        if !from_pull_request {
            let total = number(entries.len() as u64);
            line.append(" of ");
            line.append(total.as_str());
            line.append(" entr");
            line.append(
                if entries.len() == 1 {
                    "y"
                } else {
                    "ies"
                },
            );
            line.append(" failed to resolve — nothing imported");
            let ghost last = line@;
            lines.push(line);
            assert(views(lines@) =~= said + seq![last]);
            return ImportReport { lines, tally: None };
        }
        line.append(" thread(s) do not anchor in this range — skipped");
        let ghost last = line@;
        lines.push(line);
        assert(views(lines@) =~= said + seq![last]);
    } else {
        assert(said + Seq::<Seq<char>>::empty() =~= said);
    }
    let ghost roots = order@;
    let mut i: usize = 0;
    assert(order@ =~= roots + answers(entries@, 0));
    while i < entries.len()
        invariant
            i <= entries@.len(),
            order@ == roots + answers(entries@, i as nat),
        decreases entries.len() - i,
    {
        if entries[i].reply_to.is_some() {
            let ghost was = order@;
            order.push(i);
            assert(order@ =~= roots + answers(entries@, (i + 1) as nat));
        }
        i += 1;
    }
    assert(order@ == write_order(entries@, resolutions@));
    proof {
        lemma_order_bounds(entries@, resolutions@, n);
        let r = anchored_roots(entries@, resolutions@, n);
        let a = answers(entries@, n);
        assert forall|k: int| 0 <= k < order@.len() implies (#[trigger] order@[k]) < n && (
        entries@[order@[k] as int].reply_to is None ==> resolutions@[order@[k] as int] is Placed) by {
            if k < r.len() {
                assert(order@[k] == r[k]);
            } else {
                assert(order@[k] == a[k - r.len()]);
            }
        }
    }
    let tally = write_entries(store, entries, resolutions, &order, fallback, dry, now);
    ImportReport { lines, tally: Some(tally) }
}

impl Tally {
    /// What an import says of what it did: a warning where answers found no
    /// thread, and the counts.
    pub fn report(&self, dry: bool) -> (r: (Option<String>, String))
        ensures
            opt_text(r.0) == (if self.orphaned > 0 {
                Some(
                    "warning: "@ + decimal(self.orphaned as nat) + " repl"@ + (if self.orphaned
                        == 1 {
                        "y"@
                    } else {
                        "ies"@
                    })
                        + " could not be threaded — the comment they answer is not in this range"@,
                )
            } else {
                None
            }),
            (r.1)@ == (if dry {
                "dry run — would import "@ + decimal(self.added as nat) + " comment(s), update "@
                    + decimal(self.updated as nat) + ", skip "@ + decimal(self.skipped as nat)
                    + " duplicate(s)"@
            } else {
                "imported "@ + decimal(self.added as nat) + " comment(s), updated "@ + decimal(
                    self.updated as nat,
                ) + ", skipped "@ + decimal(self.skipped as nat) + " duplicate(s)"@
            }),
    {
        let warning = if self.orphaned > 0 {
            let count = number(self.orphaned as u64);
            let mut text = "warning: ".to_owned();
            text.append(count.as_str());
            text.append(" repl");
            text.append(
                if self.orphaned == 1 {
                    "y"
                } else {
                    "ies"
                },
            );
            text.append(
                " could not be threaded — the comment they answer is not in this range",
            );
            Some(text)
        } else {
            None
        };
        let added = number(self.added as u64);
        let updated = number(self.updated as u64);
        let skipped = number(self.skipped as u64);
        let text = if dry {
            let mut text = "dry run — would import ".to_owned();
            text.append(added.as_str());
            text.append(" comment(s), update ");
            text.append(updated.as_str());
            text.append(", skip ");
            text.append(skipped.as_str());
            text.append(" duplicate(s)");
            text
        } else {
            let mut text = "imported ".to_owned();
            text.append(added.as_str());
            text.append(" comment(s), updated ");
            text.append(updated.as_str());
            text.append(", skipped ");
            text.append(skipped.as_str());
            text.append(" duplicate(s)");
            text
        };
        (warning, text)
    }
}

/// An end of a range, as a document names it: its commit, or what stands for
/// one.
pub open spec fn endpoint_text(oid: Option<Oid>, sentinel: Seq<char>) -> Seq<char> {
    match oid {
        Some(oid) => oid.text(),
        None => sentinel,
    }
}

/// An end of a range, as a document names it.
pub fn endpoint(oid: Option<Oid>, sentinel: &str) -> (text: String)
    ensures
        text@ == endpoint_text(oid, sentinel@),
{
    match oid {
        Some(oid) => oid.hex(),
        None => sentinel.to_owned(),
    }
}

/// A warning when a document was made for another end of the range. Anchors
/// are checked against the diff either way.
pub fn range_warning(name: &str, have: &Option<String>, want: &str) -> (line: Option<String>)
    ensures
        opt_text(line) == (match *have {
            Some(have) => if have@ != want@ {
                Some(
                    "warning: document "@ + name@ + " "@ + have@ + " is not the loaded range's "@
                        + want@ + " — anchors are validated against the loaded diff"@,
                )
            } else {
                None
            },
            None => None,
        }),
{
    match have {
        Some(have) => {
            if same(have.as_str(), want) {
                return None;
            }
            let mut text = "warning: document ".to_owned();
            text.append(name);
            text.append(" ");
            text.append(have.as_str());
            text.append(" is not the loaded range's ");
            text.append(want);
            text.append(" — anchors are validated against the loaded diff");
            Some(text)
        },
        None => None,
    }
}

// ---------------------------------------------------------------------------
// Importing twice
// ---------------------------------------------------------------------------

/// A batch after its first `t` entries.
pub open spec fn so_far(
    first: Batch,
    items: Seq<ItemView>,
    fallback: Option<Seq<char>>,
    now: u64,
    t: int,
) -> Batch {
    written(first, items.take(t), fallback, now)
}

/// Entries say where they came from, and two that came from the same comment
/// say the same.
pub open spec fn agree(items: Seq<ItemView>) -> bool {
    &&& forall|i: int| 0 <= i < items.len() ==> (#[trigger] items[i]).external is Some
    &&& forall|i: int, j: int|
        0 <= i < items.len() && 0 <= j < items.len() && (#[trigger] items[i]).external == (
        #[trigger] items[j]).external ==> items[i].body == items[j].body
}

/// An answer that found no thread would find none among the comments that the
/// whole batch leaves either.
pub open spec fn orphans_stay(
    first: Batch,
    items: Seq<ItemView>,
    fallback: Option<Seq<char>>,
    now: u64,
) -> bool {
    forall|t: int|
        0 <= t < items.len() && is_orphan(
            #[trigger] so_far(first, items, fallback, now, t),
            items[t],
        ) ==> thread(
            items[t],
            written(first, items, fallback, now).comments,
            so_far(first, items, fallback, now, t).ids,
        ) is None
}

/// The same comments and perhaps more, where bodies may differ.
spec fn grows(a: Seq<CommentView>, b: Seq<CommentView>) -> bool {
    a.len() <= b.len() && forall|k: int|
        0 <= k < a.len() ==> (#[trigger] b[k]) == (CommentView { body: b[k].body, ..a[k] })
}

/// The id under which an entry is found after it was written.
spec fn landed(b: Batch, item: ItemView) -> u64 {
    match match_place(b.comments, item, thread(item, b.comments, b.ids)) {
        Some(k) => b.comments[k].id,
        None => b.next as u64,
    }
}

/// Among these comments, an entry is found under this id, with its own words.
spec fn at_rest(
    comments: Seq<CommentView>,
    item: ItemView,
    parent: Option<u64>,
    id: u64,
) -> bool {
    match_place(comments, item, parent) matches Some(m) && comments[m].id == id && comments[m].body
        == item.body
}

proof fn lemma_so_far(
    first: Batch,
    items: Seq<ItemView>,
    fallback: Option<Seq<char>>,
    now: u64,
    t: int,
)
    requires
        0 <= t < items.len(),
    ensures
        so_far(first, items, fallback, now, t + 1) == step(
            so_far(first, items, fallback, now, t),
            items[t],
            fallback,
            now,
        ),
{
    assert(items.take(t + 1).drop_last() =~= items.take(t));
}

proof fn lemma_step_grows(b: Batch, item: ItemView, fallback: Option<Seq<char>>, now: u64)
    ensures
        grows(b.comments, step(b, item, fallback, now).comments),
        step(b, item, fallback, now).updated >= b.updated,
{
    lemma_match_place(b.comments, item, thread(item, b.comments, b.ids));
}

proof fn lemma_grows(
    first: Batch,
    items: Seq<ItemView>,
    fallback: Option<Seq<char>>,
    now: u64,
    i: int,
    j: int,
)
    requires
        0 <= i <= j <= items.len(),
    ensures
        grows(
            so_far(first, items, fallback, now, i).comments,
            so_far(first, items, fallback, now, j).comments,
        ),
        so_far(first, items, fallback, now, i).updated <= so_far(
            first,
            items,
            fallback,
            now,
            j,
        ).updated,
    decreases j - i,
{
    if i < j {
        lemma_grows(first, items, fallback, now, i, j - 1);
        lemma_so_far(first, items, fallback, now, j - 1);
        let mid = so_far(first, items, fallback, now, j - 1);
        lemma_step_grows(mid, items[j - 1], fallback, now);
        let a = so_far(first, items, fallback, now, i).comments;
        let b = so_far(first, items, fallback, now, j).comments;
        assert forall|k: int| 0 <= k < a.len() implies (#[trigger] b[k]) == (CommentView {
            body: b[k].body,
            ..a[k]
        }) by {
            assert(mid.comments[k] == (CommentView { body: mid.comments[k].body, ..a[k] }));
        }
    }
}

proof fn lemma_place_grows(a: Seq<CommentView>, b: Seq<CommentView>, id: u64)
    requires
        grows(a, b),
        place_of(a, id) is Some,
    ensures
        place_of(b, id) == place_of(a, id),
{
    lemma_place_of(a, id);
    lemma_place_of(b, id);
    let i = place_of(a, id)->0;
    assert(b[i].id == id);
    let j = place_of(b, id)->0;
    if j < i {
        assert(a[j].id != id);
    }
}

proof fn lemma_root_grows(a: Seq<CommentView>, b: Seq<CommentView>, id: u64)
    requires
        grows(a, b),
        root_place(a, id) is Some,
    ensures
        root_place(b, id) == root_place(a, id),
        b[root_place(a, id)->0].id == a[root_place(a, id)->0].id,
{
    lemma_place_grows(a, b, id);
    lemma_place_of(a, id);
    let i = place_of(a, id)->0;
    assert(b[i].parent == a[i].parent);
    if let Some(root) = a[i].parent {
        lemma_place_grows(a, b, root);
        lemma_place_of(a, root);
        let r = place_of(a, root)->0;
        assert(b[r].parent == a[r].parent);
    }
}

proof fn lemma_thread_grows(
    item: ItemView,
    a: Seq<CommentView>,
    b: Seq<CommentView>,
    ids: Map<u64, u64>,
)
    requires
        grows(a, b),
        thread(item, a, ids) is Some,
    ensures
        thread(item, b, ids) == thread(item, a, ids),
{
    if let Some(doc) = item.reply_to {
        if !ids.contains_key(doc) {
            let want = item.answers->0;
            lemma_external_place(a, want);
            lemma_external_place(b, want);
            let i = external_place(a, want)->0;
            assert(b[i].external == Some(want));
            let j = external_place(b, want)->0;
            if j < i {
                assert(a[j].external != Some(want));
            }
        }
    }
    lemma_root_grows(a, b, answered(item, a, ids)->0);
}

/// An entry that was just written is found, with its words.
proof fn lemma_lands(b: Batch, item: ItemView, fallback: Option<Seq<char>>, now: u64)
    requires
        !is_orphan(b, item),
    ensures
        ({
            let after = step(b, item, fallback, now);
            &&& at_rest(
                after.comments,
                item,
                thread(item, b.comments, b.ids),
                landed(b, item),
            )
            &&& after.ids == remembered(b.ids, item.id, landed(b, item))
        }),
{
    let parent = thread(item, b.comments, b.ids);
    let after = step(b, item, fallback, now).comments;
    lemma_match_place(b.comments, item, parent);
    lemma_match_place(after, item, parent);
    match match_place(b.comments, item, parent) {
        Some(k) => {
            assert(is_match(after[k], item, parent));
            let m = match_place(after, item, parent)->0;
            if m < k {
                assert(after[m] == b.comments[m]);
            }
        },
        None => {
            let k = b.comments.len() as int;
            assert(is_match(after[k], item, parent));
            let m = match_place(after, item, parent)->0;
            if m < k {
                assert(after[m] == b.comments[m]);
            }
        },
    }
}

/// An entry that is at rest stays so when another is written, unless that one
/// takes other words.
proof fn lemma_stays(
    b: Batch,
    item: ItemView,
    fallback: Option<Seq<char>>,
    now: u64,
    other: ItemView,
    parent: Option<u64>,
    id: u64,
)
    requires
        at_rest(b.comments, other, parent, id),
        step(b, item, fallback, now).updated == b.updated || (item.external is Some
            && other.external is Some && (item.external == other.external ==> item.body
            == other.body)),
    ensures
        at_rest(step(b, item, fallback, now).comments, other, parent, id),
{
    let own = thread(item, b.comments, b.ids);
    let after = step(b, item, fallback, now).comments;
    lemma_match_place(b.comments, item, own);
    lemma_match_place(b.comments, other, parent);
    lemma_match_place(after, other, parent);
    let m = match_place(b.comments, other, parent)->0;
    assert forall|j: int| 0 <= j < b.comments.len() implies is_match(
        #[trigger] after[j],
        other,
        parent,
    ) == is_match(b.comments[j], other, parent) by {}
    let n = match_place(after, other, parent)->0;
    assert(is_match(after[m], other, parent));
    if n < m {
        assert(is_match(after[n], other, parent) == is_match(b.comments[n], other, parent));
    }
}

/// After `t` entries, each of them is at rest.
proof fn lemma_all_rest(
    first: Batch,
    items: Seq<ItemView>,
    fallback: Option<Seq<char>>,
    now: u64,
    t: int,
    i: int,
)
    requires
        0 <= i < t <= items.len(),
        written(first, items, fallback, now).updated == first.updated || agree(items),
        !is_orphan(so_far(first, items, fallback, now, i), items[i]),
    ensures
        ({
            let then = so_far(first, items, fallback, now, i);
            at_rest(
                so_far(first, items, fallback, now, t).comments,
                items[i],
                thread(items[i], then.comments, then.ids),
                landed(then, items[i]),
            )
        }),
    decreases t,
{
    let then = so_far(first, items, fallback, now, i);
    if t == i + 1 {
        lemma_so_far(first, items, fallback, now, i);
        lemma_lands(then, items[i], fallback, now);
    } else {
        lemma_all_rest(first, items, fallback, now, t - 1, i);
        lemma_so_far(first, items, fallback, now, t - 1);
        lemma_grows(first, items, fallback, now, 0, t - 1);
        lemma_grows(first, items, fallback, now, t, items.len() as int);
        assert(items.take(items.len() as int) =~= items);
        assert(items.take(0) =~= Seq::empty());
        let b = so_far(first, items, fallback, now, t - 1);
        lemma_step_grows(b, items[t - 1], fallback, now);
        lemma_stays(
            b,
            items[t - 1],
            fallback,
            now,
            items[i],
            thread(items[i], then.comments, then.ids),
            landed(then, items[i]),
        );
    }
}

/// The second time, the first `t` entries change nothing.
proof fn lemma_again(
    comments: Seq<CommentView>,
    next: int,
    items: Seq<ItemView>,
    fallback: Option<Seq<char>>,
    now: u64,
    fallback2: Option<Seq<char>>,
    later: u64,
    t: int,
)
    requires
        0 <= t <= items.len(),
        written(unwritten(comments, next), items, fallback, now).updated == 0 || agree(items),
        orphans_stay(unwritten(comments, next), items, fallback, now),
    ensures
        ({
            let first = unwritten(comments, next);
            let end = written(first, items, fallback, now);
            let again = so_far(unwritten(end.comments, end.next), items, fallback2, later, t);
            &&& again.comments == end.comments
            &&& again.next == end.next
            &&& again.added == 0
            &&& again.updated == 0
            &&& again.anchored.len() == 0
            &&& again.orphaned == so_far(first, items, fallback, now, t).orphaned
            &&& again.skipped + again.orphaned == t
            &&& again.ids == so_far(first, items, fallback, now, t).ids
        }),
    decreases t,
{
    let first = unwritten(comments, next);
    let end = written(first, items, fallback, now);
    let second = unwritten(end.comments, end.next);
    assert(items.take(0) =~= Seq::empty());
    if t > 0 {
        let i = t - 1;
        lemma_again(comments, next, items, fallback, now, fallback2, later, i);
        lemma_so_far(first, items, fallback, now, i);
        lemma_so_far(second, items, fallback2, later, i);
        let b = so_far(first, items, fallback, now, i);
        let again = so_far(second, items, fallback2, later, i);
        assert(items.take(items.len() as int) =~= items);
        assert(end == so_far(first, items, fallback, now, items.len() as int));
        if is_orphan(b, items[i]) {
            assert(is_orphan(again, items[i]));
        } else {
            lemma_grows(first, items, fallback, now, i, items.len() as int);
            if items[i].reply_to is Some {
                lemma_thread_grows(items[i], b.comments, end.comments, b.ids);
            }
            lemma_lands(b, items[i], fallback, now);
            lemma_all_rest(first, items, fallback, now, items.len() as int, i);
            assert(!is_orphan(again, items[i]));
        }
    }
}

/// Importing the same entries again changes nothing: whoever is named as the
/// author and whenever it happens, no comment is added and none takes other
/// words. It holds of every batch that updated nothing, and of every batch
/// whose entries say where they came from and agree about it; and where an
/// answer found no thread, the batch must not have brought that thread later.
pub proof fn importing_again_changes_nothing(
    comments: Seq<CommentView>,
    next: int,
    items: Seq<ItemView>,
    fallback: Option<Seq<char>>,
    now: u64,
    fallback2: Option<Seq<char>>,
    later: u64,
)
    requires
        written(unwritten(comments, next), items, fallback, now).updated == 0 || agree(items),
        orphans_stay(unwritten(comments, next), items, fallback, now),
    ensures
        ({
            let end = written(unwritten(comments, next), items, fallback, now);
            let again = written(unwritten(end.comments, end.next), items, fallback2, later);
            &&& again.comments == end.comments
            &&& again.next == end.next
            &&& again.added == 0
            &&& again.updated == 0
            &&& again.orphaned == end.orphaned
            &&& again.skipped + again.orphaned == items.len()
        }),
{
    lemma_again(comments, next, items, fallback, now, fallback2, later, items.len() as int);
    assert(items.take(items.len() as int) =~= items);
}

/// A batch loses no comment: each keeps its id, its place and its thread, and
/// new ones come after.
pub proof fn a_batch_keeps_what_is_there(
    comments: Seq<CommentView>,
    next: int,
    items: Seq<ItemView>,
    fallback: Option<Seq<char>>,
    now: u64,
    k: int,
)
    requires
        0 <= k < comments.len(),
    ensures
        ({
            let end = written(unwritten(comments, next), items, fallback, now).comments;
            end.len() >= comments.len() && end[k] == (CommentView {
                body: end[k].body,
                ..comments[k]
            })
        }),
{
    let first = unwritten(comments, next);
    lemma_grows(first, items, fallback, now, 0, items.len() as int);
    assert(items.take(items.len() as int) =~= items);
    assert(items.take(0) =~= Seq::empty());
}

// ---------------------------------------------------------------------------
// What an import keeps
// ---------------------------------------------------------------------------

/// Every entry goes exactly one way, and an entry that answers nothing is
/// never orphaned.
pub proof fn every_entry_is_counted_once(
    b: Batch,
    entry: Entry,
    resolution: Resolution,
    fallback: Option<Seq<char>>,
    now: u64,
)
    ensures
        ({
            let a = step(b, item_of(entry, resolution), fallback, now);
            &&& a.added + a.updated + a.skipped + a.orphaned == b.added + b.updated + b.skipped
                + b.orphaned + 1
            &&& b.added <= a.added && b.updated <= a.updated && b.skipped <= a.skipped
                && b.orphaned <= a.orphaned
            &&& a.comments.len() - b.comments.len() == a.added - b.added
            &&& a.next - b.next == a.added - b.added
            &&& entry.reply_to is None ==> a.orphaned == b.orphaned
            &&& a.orphaned > b.orphaned ==> a.comments == b.comments && a.ids == b.ids
        }),
{
    let item = item_of(entry, resolution);
    lemma_match_place(b.comments, item, thread(item, b.comments, b.ids));
}

/// An entry is skipped only for a comment that is stored with its very words:
/// the one that came from the same place elsewhere, or, where one of the two
/// says not where it came from, one in the same thread that stands at exactly
/// the blob and lines of the entry, where the diff has those. Nothing changes.
pub proof fn a_skipped_entry_is_already_there(
    b: Batch,
    entry: Entry,
    resolution: Resolution,
    fallback: Option<Seq<char>>,
    now: u64,
)
    requires
        step(b, item_of(entry, resolution), fallback, now).skipped > b.skipped,
    ensures
        ({
            let item = item_of(entry, resolution);
            let a = step(b, item, fallback, now);
            let parent = thread(item, b.comments, b.ids);
            &&& a.comments == b.comments
            &&& entry.reply_to is None ==> parent is None
            &&& exists|k: int|
                0 <= k < b.comments.len() && {
                    let c = #[trigger] b.comments[k];
                    &&& c.body == entry.body@
                    &&& entry.id matches Some(doc) ==> a.ids.contains_key(doc) && a.ids[doc] == c.id
                    &&& if c.external is Some && entry.external is Some {
                        c.external->0 == entry.external->0@
                    } else {
                        &&& c.parent == parent
                        &&& resolution matches Resolution::Placed(r) ==> c.anchor.blob == r.blob
                            && c.anchor.start == r.start && c.anchor.end == r.end
                    }
                }
        }),
{
    let item = item_of(entry, resolution);
    let parent = thread(item, b.comments, b.ids);
    lemma_match_place(b.comments, item, parent);
    let k = match_place(b.comments, item, parent)->0;
    let c = b.comments[k];
    assert(c.body == entry.body@);
}

/// An entry changes a stored comment only when both came from the same place
/// elsewhere and the words differ: the comment takes the new words and keeps
/// everything else, and so does every other comment.
pub proof fn an_updated_comment_came_from_the_same_place(
    b: Batch,
    entry: Entry,
    resolution: Resolution,
    fallback: Option<Seq<char>>,
    now: u64,
)
    requires
        step(b, item_of(entry, resolution), fallback, now).updated > b.updated,
    ensures
        ({
            let a = step(b, item_of(entry, resolution), fallback, now);
            exists|k: int|
                0 <= k < b.comments.len() && {
                    let c = #[trigger] b.comments[k];
                    &&& c.external is Some && entry.external is Some
                    &&& c.external->0 == entry.external->0@
                    &&& c.body != entry.body@
                    &&& a.comments[k] == (CommentView { body: entry.body@, ..c })
                    &&& entry.id matches Some(doc) ==> a.ids.contains_key(doc) && a.ids[doc] == c.id
                    &&& forall|j: int|
                        0 <= j < b.comments.len() && j != k ==> #[trigger] a.comments[j]
                            == b.comments[j]
                }
        }),
{
    let item = item_of(entry, resolution);
    let parent = thread(item, b.comments, b.ids);
    lemma_match_place(b.comments, item, parent);
    let k = match_place(b.comments, item, parent)->0;
    let c = b.comments[k];
    assert(c.body != entry.body@);
}

/// An entry is added only when no stored comment is it, and it is added with
/// its own words, author, time and origin, under the next id, in the thread
/// that it answers: at exactly its blob and lines where the diff has them, and
/// else where the comment stands that begins its thread.
pub proof fn an_added_comment_is_its_entry(
    b: Batch,
    entry: Entry,
    resolution: Resolution,
    fallback: Option<Seq<char>>,
    now: u64,
)
    requires
        step(b, item_of(entry, resolution), fallback, now).added > b.added,
    ensures
        ({
            let item = item_of(entry, resolution);
            let a = step(b, item, fallback, now);
            let parent = thread(item, b.comments, b.ids);
            let c = a.comments.last();
            &&& a.comments.drop_last() == b.comments
            &&& c.id == b.next as u64
            &&& c.body == entry.body@
            &&& c.author == (if entry.author is Some {
                Some(entry.author->0@)
            } else {
                fallback
            })
            &&& c.created_at == (if entry.created_at is Some {
                entry.created_at->0
            } else {
                now
            })
            &&& c.external is Some <==> entry.external is Some
            &&& entry.external is Some ==> c.external->0 == entry.external->0@
            &&& c.parent == parent
            &&& entry.reply_to is None <==> parent is None
            &&& entry.id matches Some(doc) ==> a.ids.contains_key(doc) && a.ids[doc] == c.id
            &&& resolution matches Resolution::Placed(r) ==> {
                &&& c.path == r.path@
                &&& c.anchor.blob == r.blob
                &&& c.anchor.start == r.start
                &&& c.anchor.end == r.end
                &&& a.anchored == b.anchored.push(c.id)
            }
            &&& !(resolution is Placed) && entry.reply_to is Some ==> a.anchored == b.anchored
                && exists|k: int|
                0 <= k < b.comments.len() && (#[trigger] b.comments[k]).id == parent->0
                    && b.comments[k].parent is None && c.path == b.comments[k].path && c.anchor
                    == b.comments[k].anchor
            &&& forall|k: int|
                0 <= k < b.comments.len() ==> {
                    let other = #[trigger] b.comments[k];
                    if other.external is Some && entry.external is Some {
                        other.external->0 != entry.external->0@
                    } else {
                        ||| other.parent != parent
                        ||| other.body != entry.body@
                        ||| (resolution matches Resolution::Placed(r) && (other.anchor.blob
                            != r.blob || other.anchor.start != r.start || other.anchor.end
                            != r.end))
                    }
                }
        }),
{
    let item = item_of(entry, resolution);
    let a = step(b, item, fallback, now);
    let parent = thread(item, b.comments, b.ids);
    lemma_match_place(b.comments, item, parent);
    assert(a.comments.drop_last() =~= b.comments);
    if let Some(root) = parent {
        an_answer_joins_what_it_answers(b, entry, resolution);
        lemma_root_of_root(b.comments, answered(item, b.comments, b.ids)->0);
        let k = root_place(b.comments, root)->0;
        assert(b.comments[k].id == root);
    }
    assert forall|k: int| 0 <= k < b.comments.len() implies {
        let other = #[trigger] b.comments[k];
        if other.external is Some && entry.external is Some {
            other.external->0 != entry.external->0@
        } else {
            ||| other.parent != parent
            ||| other.body != entry.body@
            ||| (resolution matches Resolution::Placed(r) && (other.anchor.blob != r.blob
                || other.anchor.start != r.start || other.anchor.end != r.end))
        }
    } by {
        assert(!is_match(b.comments[k], item, parent));
    }
}

proof fn lemma_root_of_root(comments: Seq<CommentView>, id: u64)
    requires
        root_place(comments, id) is Some,
    ensures
        ({
            let r = root_place(comments, id)->0;
            &&& 0 <= r < comments.len()
            &&& comments[r].parent is None
            &&& root_place(comments, comments[r].id) == Some(r)
        }),
{
    lemma_place_of(comments, id);
    let asked = comments[place_of(comments, id)->0];
    if let Some(root) = asked.parent {
        lemma_place_of(comments, root);
    }
    let r = root_place(comments, id)->0;
    lemma_place_of(comments, comments[r].id);
}

/// An answer joins the thread of the comment that it answers: the one where
/// the entry that it names landed in this batch, and else the stored one that
/// came from the place that it names. It is in that comment's own thread, and
/// never under an answer.
pub proof fn an_answer_joins_what_it_answers(b: Batch, entry: Entry, resolution: Resolution)
    requires
        thread(item_of(entry, resolution), b.comments, b.ids) is Some,
    ensures
        ({
            let root = thread(item_of(entry, resolution), b.comments, b.ids)->0;
            &&& entry.reply_to is Some
            &&& exists|k: int|
                0 <= k < b.comments.len() && {
                    let c = #[trigger] b.comments[k];
                    &&& if b.ids.contains_key(entry.reply_to->0) {
                        c.id == b.ids[entry.reply_to->0]
                    } else {
                        exists|from: int|
                            0 <= from < b.comments.len() && (#[trigger] b.comments[from]).id == c.id
                                && entry.answers is Some && b.comments[from].external == Some(
                                entry.answers->0@,
                            )
                    }
                    &&& root == (if c.parent is Some {
                        c.parent->0
                    } else {
                        c.id
                    })
                }
            &&& exists|r: int|
                0 <= r < b.comments.len() && (#[trigger] b.comments[r]).id == root
                    && b.comments[r].parent is None
        }),
{
    let item = item_of(entry, resolution);
    let id = answered(item, b.comments, b.ids)->0;
    lemma_place_of(b.comments, id);
    lemma_root_of_root(b.comments, id);
    a_reply_joins_the_root(b.comments, id);
    let k = place_of(b.comments, id)->0;
    let c = b.comments[k];
    if !b.ids.contains_key(entry.reply_to->0) {
        lemma_external_place(b.comments, item.answers->0);
        let from = external_place(b.comments, item.answers->0)->0;
        assert(b.comments[from].id == c.id);
    }
    let r = root_place(b.comments, id)->0;
    assert(b.comments[r].id == thread(item, b.comments, b.ids)->0);
}

/// Entries that answer nothing and name no origin are all added, each with its
/// own words at its own blob and lines, as long as no two of them have both the
/// same words and the same lines, and no stored comment that answers nothing
/// has both. In particular two entries at different lines are two comments,
/// also with the same words in the same file.
pub proof fn entries_at_lines_of_their_own_are_all_added(
    comments: Seq<CommentView>,
    next: int,
    entries: Seq<Entry>,
    resolutions: Seq<Resolution>,
    order: Seq<usize>,
    fallback: Option<Seq<char>>,
    now: u64,
)
    requires
        forall|i: int|
            0 <= i < order.len() ==> {
                let e = entries[(#[trigger] order[i]) as int];
                &&& e.reply_to is None
                &&& e.external is None
                &&& resolutions[order[i] as int] is Placed
            },
        forall|i: int, j: int|
            0 <= i < j < order.len() ==> entries[(#[trigger] order[i]) as int].body@
                != entries[(#[trigger] order[j]) as int].body@ || !same_lines(
                resolutions[order[i] as int]->Placed_0,
                resolutions[order[j] as int]->Placed_0,
            ),
        forall|i: int, k: int|
            0 <= i < order.len() && 0 <= k < comments.len() ==> {
                let c = #[trigger] comments[k];
                let r = resolutions[(#[trigger] order[i]) as int]->Placed_0;
                ||| c.parent is Some
                ||| c.body != entries[order[i] as int].body@
                ||| c.anchor.blob != r.blob || c.anchor.start != r.start || c.anchor.end != r.end
            },
    ensures
        ({
            let b = written(
                unwritten(comments, next),
                items_of(entries, resolutions, order),
                fallback,
                now,
            );
            &&& b.added == order.len()
            &&& b.updated == 0 && b.skipped == 0 && b.orphaned == 0
            &&& b.comments.len() == comments.len() + order.len()
            &&& b.comments.take(comments.len() as int) == comments
            &&& forall|i: int|
                0 <= i < order.len() ==> {
                    let c = b.comments[comments.len() + i];
                    let r = resolutions[(#[trigger] order[i]) as int]->Placed_0;
                    &&& c.body == entries[order[i] as int].body@
                    &&& c.path == r.path@
                    &&& c.anchor.blob == r.blob
                    &&& c.anchor.start == r.start
                    &&& c.anchor.end == r.end
                    &&& c.parent is None
                    &&& c.external is None
                }
        }),
    decreases order.len(),
{
    let items = items_of(entries, resolutions, order);
    if order.len() == 0 {
        assert(comments.take(comments.len() as int) =~= comments);
    } else {
        let before = order.drop_last();
        assert forall|i: int| 0 <= i < before.len() implies #[trigger] before[i] == order[i] by {}
        entries_at_lines_of_their_own_are_all_added(
            comments,
            next,
            entries,
            resolutions,
            before,
            fallback,
            now,
        );
        assert(items.drop_last() =~= items_of(entries, resolutions, before));
        let b = written(unwritten(comments, next), items.drop_last(), fallback, now);
        let n = before.len() as int;
        let at = order[n] as int;
        let item = item_of(entries[at], resolutions[at]);
        assert(items.last() == item);
        let a = step(b, item, fallback, now);
        let r = resolutions[at]->Placed_0;
        lemma_match_place(b.comments, item, None);
        if let Some(k) = match_place(b.comments, item, None) {
            let c = b.comments[k];
            assert(c.anchor.blob == r.blob && c.anchor.start == r.start && c.anchor.end == r.end);
            if k < comments.len() {
                assert(c == b.comments.take(comments.len() as int)[k]);
                assert(c == comments[k]);
                assert(order[n] == at);
            } else {
                let i = k - comments.len();
                assert(before[i] == order[i]);
                assert(same_lines(resolutions[order[i] as int]->Placed_0, r));
            }
            assert(false);
        }
        assert(a.comments.take(comments.len() as int) =~= b.comments.take(comments.len() as int));
        assert forall|i: int| 0 <= i < order.len() implies {
            let c = a.comments[comments.len() + i];
            let r = resolutions[(#[trigger] order[i]) as int]->Placed_0;
            &&& c.body == entries[order[i] as int].body@
            &&& c.path == r.path@
            &&& c.anchor.blob == r.blob
            &&& c.anchor.start == r.start
            &&& c.anchor.end == r.end
            &&& c.parent is None
            &&& c.external is None
        } by {
            if i < n {
                assert(before[i] == order[i]);
                assert(a.comments[comments.len() + i] == b.comments[comments.len() + i]);
            }
        }
    }
}

/// Whether two entries stand at the same lines of the same blob.
pub open spec fn same_lines(a: ResolvedEntry, b: ResolvedEntry) -> bool {
    a.blob == b.blob && a.start == b.start && a.end == b.end
}

/// Entries are written once each: what answers nothing first, where the diff
/// has its lines, then every answer, both in the order of the document.
pub proof fn entries_are_written_in_order(entries: Vec<Entry>, resolutions: Seq<Resolution>)
    ensures
        ({
            let order = write_order(entries@, resolutions);
            &&& forall|i: int| 0 <= i < order.len() ==> (#[trigger] order[i]) < entries@.len()
            &&& forall|e: int|
                0 <= e < entries@.len() ==> ((entries@[e].reply_to is Some || resolutions[e] is Placed)
                    <==> #[trigger] order.contains(e as usize))
            &&& forall|i: int, j: int|
                0 <= i < j < order.len() ==> {
                    let a = entries@[(#[trigger] order[i]) as int].reply_to is Some;
                    let b = entries@[(#[trigger] order[j]) as int].reply_to is Some;
                    (!a && b) || (a == b && order[i] < order[j])
                }
        }),
{
    let n = entries@.len();
    assert(n == entries.len());
    let roots = anchored_roots(entries@, resolutions, n);
    let replies = answers(entries@, n);
    let order = write_order(entries@, resolutions);
    lemma_roots_in_order(entries@, resolutions, n);
    lemma_answers_in_order(entries@, n);
    assert forall|i: int| 0 <= i < order.len() implies (#[trigger] order[i]) < n by {
        if i < roots.len() {
            assert(order[i] == roots[i]);
        } else {
            assert(order[i] == replies[i - roots.len()]);
        }
    }
    assert forall|e: int| 0 <= e < n implies ((entries@[e].reply_to is Some
        || resolutions[e] is Placed) <==> #[trigger] order.contains(e as usize)) by {
        if order.contains(e as usize) {
            let i = choose|i: int| 0 <= i < order.len() && order[i] == e as usize;
            if i < roots.len() {
                assert(order[i] == roots[i]);
            } else {
                assert(order[i] == replies[i - roots.len()]);
            }
        }
        if entries@[e].reply_to is Some {
            assert(replies.contains(e as usize));
            let i = choose|i: int| 0 <= i < replies.len() && replies[i] == e as usize;
            assert(order[roots.len() + i] == e as usize);
        } else if resolutions[e] is Placed {
            assert(roots.contains(e as usize));
            let i = choose|i: int| 0 <= i < roots.len() && roots[i] == e as usize;
            assert(order[i] == e as usize);
        }
    }
    assert forall|i: int, j: int| 0 <= i < j < order.len() implies {
        let a = entries@[(#[trigger] order[i]) as int].reply_to is Some;
        let b = entries@[(#[trigger] order[j]) as int].reply_to is Some;
        (!a && b) || (a == b && order[i] < order[j])
    } by {
        if i < roots.len() {
            assert(order[i] == roots[i]);
        } else {
            assert(order[i] == replies[i - roots.len()]);
        }
        if j < roots.len() {
            assert(order[j] == roots[j]);
        } else {
            assert(order[j] == replies[j - roots.len()]);
        }
    }
}

proof fn lemma_roots_in_order(entries: Seq<Entry>, resolutions: Seq<Resolution>, n: nat)
    requires
        n <= entries.len() <= usize::MAX,
    ensures
        ({
            let roots = anchored_roots(entries, resolutions, n);
            &&& forall|i: int|
                0 <= i < roots.len() ==> (#[trigger] roots[i]) < n && entries[roots[i] as int].reply_to is None
                    && resolutions[roots[i] as int] is Placed
            &&& forall|i: int, j: int|
                0 <= i < j < roots.len() ==> (#[trigger] roots[i]) < (#[trigger] roots[j])
            &&& forall|e: int|
                0 <= e < n && entries[e].reply_to is None && resolutions[e] is Placed
                    ==> #[trigger] roots.contains(e as usize)
        }),
    decreases n,
{
    if n > 0 {
        let before = anchored_roots(entries, resolutions, (n - 1) as nat);
        let roots = anchored_roots(entries, resolutions, n);
        lemma_roots_in_order(entries, resolutions, (n - 1) as nat);
        assert forall|i: int| 0 <= i < before.len() implies #[trigger] roots[i] == before[i] by {}
        assert forall|e: int|
            0 <= e < n && entries[e].reply_to is None && resolutions[e] is Placed implies
            #[trigger] roots.contains(e as usize) by {
            if e < n - 1 {
                assert(before.contains(e as usize));
                let i = choose|i: int| 0 <= i < before.len() && before[i] == e as usize;
                assert(roots[i] == e as usize);
            } else {
                assert(roots[roots.len() - 1] == e as usize);
            }
        }
    }
}

proof fn lemma_answers_in_order(entries: Seq<Entry>, n: nat)
    requires
        n <= entries.len() <= usize::MAX,
    ensures
        ({
            let replies = answers(entries, n);
            &&& forall|i: int|
                0 <= i < replies.len() ==> (#[trigger] replies[i]) < n && entries[replies[i] as int].reply_to is Some
            &&& forall|i: int, j: int|
                0 <= i < j < replies.len() ==> (#[trigger] replies[i]) < (#[trigger] replies[j])
            &&& forall|e: int|
                0 <= e < n && entries[e].reply_to is Some ==> #[trigger] replies.contains(
                    e as usize,
                )
        }),
    decreases n,
{
    if n > 0 {
        let before = answers(entries, (n - 1) as nat);
        let replies = answers(entries, n);
        lemma_answers_in_order(entries, (n - 1) as nat);
        assert forall|i: int| 0 <= i < before.len() implies #[trigger] replies[i] == before[i] by {}
        assert forall|e: int|
            0 <= e < n && entries[e].reply_to is Some implies #[trigger] replies.contains(
            e as usize,
        ) by {
            if e < n - 1 {
                assert(before.contains(e as usize));
                let i = choose|i: int| 0 <= i < before.len() && before[i] == e as usize;
                assert(replies[i] == e as usize);
            } else {
                assert(replies[replies.len() - 1] == e as usize);
            }
        }
    }
}

/// A document is imported whole or not at all: one entry that answers nothing
/// and whose lines the diff does not have refuses it. A pull request is never
/// refused for that. What has no entries is refused either way.
pub proof fn a_document_is_imported_whole(
    entries: Seq<Entry>,
    resolutions: Seq<Resolution>,
    input: Seq<char>,
)
    ensures
        refusal(entries, resolutions, input, false) is None <==> entries.len() > 0 && forall|e: int|
            0 <= e < entries.len() && (#[trigger] entries[e]).reply_to is None
                ==> resolutions[e] is Placed,
        refusal(entries, resolutions, input, true) is None <==> entries.len() > 0,
{
    lemma_failed_roots(entries, resolutions, entries.len());
}

proof fn lemma_failed_roots(entries: Seq<Entry>, resolutions: Seq<Resolution>, n: nat)
    requires
        n <= entries.len(),
    ensures
        failed_roots(entries, resolutions, n) == 0 <==> forall|e: int|
            0 <= e < n && (#[trigger] entries[e]).reply_to is None ==> resolutions[e] is Placed,
    decreases n,
{
    if n > 0 {
        lemma_failed_roots(entries, resolutions, (n - 1) as nat);
        if failed_roots(entries, resolutions, n) == 0 {
            assert forall|e: int| 0 <= e < n && (#[trigger] entries[e]).reply_to is None implies
                resolutions[e] is Placed by {
                if e < n - 1 {
                    assert(failed_roots(entries, resolutions, (n - 1) as nat) == 0);
                }
            }
        } else if failed_roots(entries, resolutions, (n - 1) as nat) == 0 {
            assert(entries[n - 1].reply_to is None);
        }
    }
}

/// A text is a pull request's comments exactly when the first character that is
/// no white space opens an array or an object.
pub proof fn a_payload_opens_with_a_bracket(text: Seq<char>)
    ensures
        payload(text) <==> exists|i: int|
            0 <= i < text.len() && (#[trigger] text[i] == '[' || text[i] == '{') && (forall|k: int|
                0 <= k < i ==> is_space(#[trigger] text[k])),
{
    lemma_trim_start(text);
    let rest = trim_start(text);
    let at = text.len() - rest.len();
    if payload(text) {
        assert(text[at] == rest[0]);
    }
    if exists|i: int|
        0 <= i < text.len() && (#[trigger] text[i] == '[' || text[i] == '{') && (forall|k: int|
            0 <= k < i ==> is_space(#[trigger] text[k])) {
        let i = choose|i: int|
            0 <= i < text.len() && (#[trigger] text[i] == '[' || text[i] == '{') && (forall|k: int|
                0 <= k < i ==> is_space(#[trigger] text[k]));
        assert(!is_space(text[i]));
        if at < i {
            assert(rest.len() > 0 && rest[0] == text[at]);
            assert(is_space(text[at]));
        }
        if i < at {
            assert(is_space(text[i]));
        }
        assert(rest[0] == text[i]);
    }
}

/// An error names the first missing lines, as many as it has room for.
pub proof fn missing_lines_are_named(missing: Seq<u32>, i: int)
    requires
        0 <= i < missing.len(),
        i < SHOWN_LINES,
    ensures
        i == 0 ==> begins(shown_lines(missing), decimal(missing[0] as nat)),
        i > 0 ==> occurs(shown_lines(missing), ", "@ + decimal(missing[i] as nat)),
{
    let named = decimals(
        if missing.len() > SHOWN_LINES {
            missing.take(SHOWN_LINES as int)
        } else {
            missing
        },
    );
    each_part_stands_in_the_join(named, ", "@, i);
}

/// Every range that can be commented on is listed, each on a line of its own.
pub proof fn every_range_is_listed(ranges: Seq<Seq<char>>, i: int)
    requires
        0 <= i < ranges.len(),
    ensures
        ranges_text(ranges).len() == ranges.len() + 1,
        ranges_text(ranges)[1 + i] == ranges[i] + "\n"@,
{
}

/// Every entry that answers nothing and does not anchor is complained of, with
/// where it stands in the document: as an error in a document, and as a warning
/// in a pull request.
pub proof fn every_failure_is_complained_of(
    entries: Seq<Entry>,
    resolutions: Seq<Resolution>,
    input: Seq<char>,
    from_pull_request: bool,
    n: nat,
    e: int,
)
    requires
        n <= entries.len(),
        0 <= e < n,
        entries[e].reply_to is None,
        !(resolutions[e] is Placed),
    ensures
        exists|k: int|
            0 <= k < root_complaints(entries, resolutions, input, from_pull_request, n).len()
                && begins(
                #[trigger] root_complaints(entries, resolutions, input, from_pull_request, n)[k],
                (if from_pull_request {
                    "warning"@
                } else {
                    "error"@
                }) + ": "@ + input + ":"@ + decimal(entries[e].line as nat) + ": "@,
            ),
    decreases n,
{
    let all = root_complaints(entries, resolutions, input, from_pull_request, n);
    let before = root_complaints(entries, resolutions, input, from_pull_request, (n - 1) as nat);
    let head = (if from_pull_request {
        "warning"@
    } else {
        "error"@
    }) + ": "@ + input + ":"@ + decimal(entries[e].line as nat) + ": "@;
    if e < n - 1 {
        every_failure_is_complained_of(
            entries,
            resolutions,
            input,
            from_pull_request,
            (n - 1) as nat,
            e,
        );
        let k = choose|k: int| 0 <= k < before.len() && begins(#[trigger] before[k], head);
        assert(all[k] == before[k]);
    } else {
        let own = entry_complaint(entries[e], resolutions[e], input, from_pull_request);
        lemma_complaint(entries[e], resolutions[e], input, from_pull_request);
        assert(all[before.len() as int] == own[0]);
    }
}

proof fn lemma_complaint(
    entry: Entry,
    resolution: Resolution,
    input: Seq<char>,
    from_pull_request: bool,
)
    requires
        !(resolution is Placed),
    ensures
        entry_complaint(entry, resolution, input, from_pull_request).len() > 0,
        begins(
            entry_complaint(entry, resolution, input, from_pull_request)[0],
            (if from_pull_request {
                "warning"@
            } else {
                "error"@
            }) + ": "@ + input + ":"@ + decimal(entry.line as nat) + ": "@,
        ),
{
    let head = (if from_pull_request {
        "warning"@
    } else {
        "error"@
    }) + ": "@ + input + ":"@ + decimal(entry.line as nat) + ": "@;
    let line = entry_complaint(entry, resolution, input, from_pull_request)[0];
    match resolution {
        Resolution::UnknownPath => {
            assert(line == head + "`"@ + entry.path@ + "` is not part of this diff"@);
            lemma_begins_with(
                head,
                "`"@,
                entry.path@,
                "` is not part of this diff"@,
                Seq::empty(),
                Seq::empty(),
            );
            assert(line + Seq::<char>::empty() + Seq::<char>::empty() =~= line);
        },
        Resolution::MissingLines { file, missing, ranges: _ } => {
            let side = if entry.side == EntrySide::Old {
                "old-side "@
            } else {
                ""@
            };
            lemma_begins_with(
                head,
                side,
                "line(s) "@,
                shown_lines(missing@),
                " of "@,
                file@,
            );
            let most = head + side + "line(s) "@ + shown_lines(missing@) + " of "@ + file@;
            assert(line == most + " are not part of this diff"@);
            assert(line.take(head.len() as int) =~= most.take(head.len() as int));
        },
        Resolution::Placed(_) => {},
    }
}

proof fn lemma_begins_with(
    head: Seq<char>,
    a: Seq<char>,
    b: Seq<char>,
    c: Seq<char>,
    d: Seq<char>,
    e: Seq<char>,
)
    ensures
        begins(head + a + b + c + d + e, head),
{
    assert((head + a + b + c + d + e).take(head.len() as int) =~= head);
}

/// A complaint about an entry says what was missing: the path of a file that the
/// diff does not have, and for lines that it does not show the file and the
/// first of them.
pub proof fn a_complaint_says_what_was_missing(
    entry: Entry,
    resolution: Resolution,
    input: Seq<char>,
    from_pull_request: bool,
)
    ensures
        ({
            let said = entry_complaint(entry, resolution, input, from_pull_request);
            match resolution {
                Resolution::Placed(_) => said.len() == 0,
                Resolution::UnknownPath => said.len() == 1 && occurs(said[0], "`"@ + entry.path@
                    + "`"@),
                Resolution::MissingLines { file, missing, ranges } => {
                    &&& said.len() == (if from_pull_request {
                        1
                    } else {
                        2 + ranges@.len()
                    })
                    &&& occurs(said[0], "line(s) "@ + shown_lines(missing@) + " of "@ + file@)
                },
            }
        }),
{
    let head = (if from_pull_request {
        "warning"@
    } else {
        "error"@
    }) + ": "@ + input + ":"@ + decimal(entry.line as nat) + ": "@;
    let said = entry_complaint(entry, resolution, input, from_pull_request);
    match resolution {
        Resolution::Placed(_) => {},
        Resolution::UnknownPath => {
            reveal_strlit("`");
            reveal_strlit("` is not part of this diff");
            let want = "`"@ + entry.path@ + "`"@;
            let at = head.len() as int;
            assert(said[0].subrange(at, at + want.len()) =~= want);
        },
        Resolution::MissingLines { file, missing, ranges } => {
            let side = if entry.side == EntrySide::Old {
                "old-side "@
            } else {
                ""@
            };
            lemma_missing_said(head + side, shown_lines(missing@), file@);
            assert(views(ranges@).len() == ranges@.len());
        },
    }
}

proof fn lemma_missing_said(head: Seq<char>, lines: Seq<char>, file: Seq<char>)
    ensures
        occurs(
            head + "line(s) "@ + lines + " of "@ + file + " are not part of this diff"@,
            "line(s) "@ + lines + " of "@ + file,
        ),
{
    let a = "line(s) "@;
    let b = " of "@;
    let want = a + lines + b + file;
    lemma_same_either_way(head, a, lines);
    lemma_same_either_way(head, a + lines, b);
    lemma_same_either_way(head, a + lines + b, file);
    lemma_stands_between(head, want, " are not part of this diff"@);
}

/// An end of a range is named by its commit, and by what stands for it where it
/// has none.
pub proof fn an_end_is_named_by_its_commit(oid: Oid, sentinel: Seq<char>)
    ensures
        endpoint_text(Some(oid), sentinel) == oid.text(),
        endpoint_text(None, sentinel) == sentinel,
{
}

} // verus!
