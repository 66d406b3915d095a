//! Review comments: where each is anchored, and how they thread.

use crate::diff::{copy_opt, opt_text, Oid};
use crate::text::same;
use vstd::prelude::*;

verus! {

/// The lines of a blob that a comment is on, counted from zero and both of
/// them in it.
#[derive(Clone, Copy, Debug, PartialEq, Eq, Structural)]
pub struct Anchor {
    pub blob: Oid,
    pub start: u32,
    pub end: u32,
}

/// The ends of a comment's lines in its file's document, by which it follows
/// edits.
#[derive(Debug)]
pub struct Cursors {
    pub from: String,
    pub to: String,
}

/// A review comment.
#[derive(Debug)]
pub struct Comment {
    pub id: u64,
    pub path: String,
    pub anchor: Anchor,
    pub body: String,
    pub author: Option<String>,
    /// Seconds since 1970-01-01 UTC.
    pub created_at: u64,
    /// The root of the thread, for a reply.
    pub parent: Option<u64>,
    /// Which comment elsewhere it was taken from.
    pub external: Option<String>,
    pub cursors: Option<Cursors>,
}

/// A comment, as the contracts speak of it.
pub struct CommentView {
    pub id: u64,
    pub path: Seq<char>,
    pub anchor: Anchor,
    pub body: Seq<char>,
    pub author: Option<Seq<char>>,
    pub created_at: u64,
    pub parent: Option<u64>,
    pub external: Option<Seq<char>>,
    pub cursors: Option<(Seq<char>, Seq<char>)>,
}

/// A pair of cursors, as the contracts speak of it.
pub open spec fn cursors_view(c: Option<Cursors>) -> Option<(Seq<char>, Seq<char>)> {
    match c {
        Some(c) => Some((c.from@, c.to@)),
        None => None,
    }
}

impl View for Comment {
    type V = CommentView;

    open spec fn view(&self) -> CommentView {
        CommentView {
            id: self.id,
            path: self.path@,
            anchor: self.anchor,
            body: self.body@,
            author: opt_text(self.author),
            created_at: self.created_at,
            parent: self.parent,
            external: opt_text(self.external),
            cursors: cursors_view(self.cursors),
        }
    }
}

/// Comments, as the contracts speak of them.
pub open spec fn comment_views(comments: Seq<Comment>) -> Seq<CommentView> {
    Seq::new(comments.len(), |i: int| comments[i]@)
}

/// The root of a comment's thread: the one it answers, or itself.
pub open spec fn thread_key_of(c: CommentView) -> u64 {
    match c.parent {
        Some(root) => root,
        None => c.id,
    }
}

impl Comment {
    /// A copy.
    pub fn copy(&self) -> (c: Comment)
        ensures
            c@ == self@,
    {
        Comment {
            id: self.id,
            path: self.path.clone(),
            anchor: self.anchor,
            body: self.body.clone(),
            author: copy_opt(&self.author),
            created_at: self.created_at,
            parent: self.parent,
            external: copy_opt(&self.external),
            cursors: match &self.cursors {
                Some(c) => Some(Cursors { from: c.from.clone(), to: c.to.clone() }),
                None => None,
            },
        }
    }

    /// The root of the comment's thread: the one it answers, or itself.
    pub fn thread_key(&self) -> (id: u64)
        ensures
            id == thread_key_of(self@),
    {
        match self.parent {
            Some(root) => root,
            None => self.id,
        }
    }
}

/// Whether two optional texts are the same.
pub(crate) fn same_opt(a: &Option<String>, b: &Option<String>) -> (r: bool)
    ensures
        r == (opt_text(*a) == opt_text(*b)),
{
    match (a, b) {
        (Some(a), Some(b)) => same(a.as_str(), b.as_str()),
        (None, None) => true,
        _ => false,
    }
}

/// The place of the first comment with this id.
pub open spec fn place_of(comments: Seq<CommentView>, id: u64) -> Option<int>
    decreases comments.len(),
{
    if comments.len() == 0 {
        None
    } else {
        match place_of(comments.drop_last(), id) {
            Some(i) => Some(i),
            None => if comments.last().id == id {
                Some(comments.len() - 1)
            } else {
                None
            },
        }
    }
}

/// The place of the root of a comment's thread, which answers no other. A
/// reply to a reply is in the thread of the comment that one answers.
pub open spec fn root_place(comments: Seq<CommentView>, id: u64) -> Option<int> {
    match place_of(comments, id) {
        Some(i) => match comments[i].parent {
            Some(root) => match place_of(comments, root) {
                Some(r) => if comments[r].parent is None {
                    Some(r)
                } else {
                    None
                },
                None => None,
            },
            None => Some(i),
        },
        None => None,
    }
}

/// What `place_of` finds: the first comment with the id, where there is one.
pub proof fn lemma_place_of(comments: Seq<CommentView>, id: u64)
    ensures
        (match place_of(comments, id) {
            Some(i) => 0 <= i < comments.len() && comments[i].id == id && forall|j: int|
                0 <= j < i ==> (#[trigger] comments[j]).id != id,
            None => forall|j: int| 0 <= j < comments.len() ==> (#[trigger] comments[j]).id != id,
        }),
    decreases comments.len(),
{
    if comments.len() > 0 {
        let rest = comments.drop_last();
        lemma_place_of(rest, id);
        assert forall|j: int| 0 <= j < rest.len() implies (#[trigger] comments[j]) == rest[j] by {}
        if let Some(i) = place_of(rest, id) {
            assert(comments[i] == rest[i]);
        }
    }
}

/// The recorded comments of a repository, in the order they were made.
#[derive(Debug)]
pub struct Store {
    pub comments: Vec<Comment>,
    /// The id of the next comment.
    pub next: u64,
}

impl Store {
    /// No two comments share an id, and none has the next one.
    pub open spec fn wf(&self) -> bool {
        &&& forall|i: int| 0 <= i < self.comments@.len() ==> (#[trigger] self.comments@[i]).id < self.next
        &&& forall|i: int, j: int|
            0 <= i < j < self.comments@.len() ==> (#[trigger] self.comments@[i]).id != (
            #[trigger] self.comments@[j]).id
    }

    /// An empty store.
    pub fn new() -> (store: Store)
        ensures
            store.wf(),
            store.comments@.len() == 0,
            store.next == 1,
    {
        Store { comments: Vec::new(), next: 1 }
    }

    /// A copy.
    pub fn copy(&self) -> (store: Store)
        ensures
            comment_views(store.comments@) == comment_views(self.comments@),
            store.next == self.next,
            self.wf() ==> store.wf(),
    {
        let mut comments: Vec<Comment> = Vec::new();
        let ghost all = comment_views(self.comments@);
        while comments.len() < self.comments.len()
            invariant
                all == comment_views(self.comments@),
                comments@.len() <= self.comments@.len(),
                comment_views(comments@) =~= all.take(comments@.len() as int),
            decreases self.comments.len() - comments.len(),
        {
            let i: usize = comments.len();
            comments.push(self.comments[i].copy());
        }
        assert(all.take(all.len() as int) =~= all);
        assert forall|i: int| 0 <= i < all.len() implies (#[trigger] comments@[i]).id
            == self.comments@[i].id by {
            assert(comment_views(comments@)[i] == all[i]);
        }
        assert(comment_views(comments@).len() == comments@.len());
        Store { comments, next: self.next }
    }

    /// Where the comment with this id is.
    pub fn find(&self, id: u64) -> (place: Option<usize>)
        ensures
            (match place {
                Some(i) => place_of(comment_views(self.comments@), id) == Some(i as int) && i
                    < self.comments@.len(),
                None => place_of(comment_views(self.comments@), id) is None,
            }),
    {
        let ghost all = comment_views(self.comments@);
        let mut i: usize = 0;
        while i < self.comments.len()
            invariant
                i <= self.comments@.len(),
                all == comment_views(self.comments@),
                forall|j: int| 0 <= j < i ==> (#[trigger] all[j]).id != id,
            decreases self.comments.len() - i,
        {
            if self.comments[i].id == id {
                proof {
                    lemma_place_of(all, id);
                    assert(all[i as int].id == id);
                }
                return Some(i);
            }
            i += 1;
        }
        proof {
            lemma_place_of(all, id);
        }
        None
    }

    /// Where the root of a comment's thread is.
    pub fn root_of(&self, id: u64) -> (place: Option<usize>)
        ensures
            (match place {
                Some(i) => root_place(comment_views(self.comments@), id) == Some(i as int) && i
                    < self.comments@.len(),
                None => root_place(comment_views(self.comments@), id) is None,
            }),
    {
        match self.find(id) {
            Some(i) => match self.comments[i].parent {
                Some(root) => match self.find(root) {
                    Some(r) => if self.comments[r].parent.is_none() {
                        Some(r)
                    } else {
                        None
                    },
                    None => None,
                },
                None => Some(i),
            },
            None => None,
        }
    }

    /// Records a comment under the next id, and returns it.
    pub fn add_comment(&mut self, comment: Comment) -> (id: u64)
        requires
            old(self).wf(),
            old(self).next < u64::MAX,
        ensures
            final(self).wf(),
            id == old(self).next,
            final(self).next == old(self).next + 1,
            comment_views(final(self).comments@) == comment_views(old(self).comments@).push(
                (CommentView { id, ..comment@ }),
            ),
    {
        let id: u64 = self.next;
        let ghost was = comment_views(self.comments@);
        let mut comment = comment;
        comment.id = id;
        let ghost added = comment@;
        self.next = id + 1;
        self.comments.push(comment);
        assert(comment_views(self.comments@) =~= was.push(added));
        id
    }

    /// Records an answer in the thread of a comment, at the place of the
    /// thread's root; `None` when there is no such thread.
    pub fn reply_comment(
        &mut self,
        to: u64,
        body: String,
        author: Option<String>,
        created_at: u64,
        external: Option<String>,
    ) -> (id: Option<u64>)
        requires
            old(self).wf(),
            old(self).next < u64::MAX,
        ensures
            final(self).wf(),
            (match root_place(comment_views(old(self).comments@), to) {
                Some(i) => {
                    let root = comment_views(old(self).comments@)[i];
                    &&& id == Some(old(self).next)
                    &&& final(self).next == old(self).next + 1
                    &&& comment_views(final(self).comments@) == comment_views(
                        old(self).comments@,
                    ).push(
                        (CommentView {
                            id: old(self).next,
                            path: root.path,
                            anchor: root.anchor,
                            body: body@,
                            author: opt_text(author),
                            created_at,
                            parent: Some(root.id),
                            external: opt_text(external),
                            cursors: None,
                        }),
                    )
                },
                None => id is None && *final(self) == *old(self),
            }),
    {
        match self.root_of(to) {
            Some(i) => {
                let path = self.comments[i].path.clone();
                let anchor = self.comments[i].anchor;
                let root: u64 = self.comments[i].id;
                Some(
                    self.add_comment(
                        Comment {
                            id: 0,
                            path,
                            anchor,
                            body,
                            author,
                            created_at,
                            parent: Some(root),
                            external,
                            cursors: None,
                        },
                    ),
                )
            },
            None => None,
        }
    }

    /// Takes new words for the comment at a place.
    pub fn set_body(&mut self, place: usize, body: String)
        requires
            old(self).wf(),
            place < old(self).comments@.len(),
        ensures
            final(self).wf(),
            final(self).next == old(self).next,
            comment_views(final(self).comments@) == comment_views(old(self).comments@).update(
                place as int,
                (CommentView {
                    body: body@,
                    ..comment_views(old(self).comments@)[place as int]
                }),
            ),
    {
        let ghost was = comment_views(self.comments@);
        let ghost c = CommentView { body: body@, ..was[place as int] };
        self.comments[place].body = body;
        assert(comment_views(self.comments@) =~= was.update(place as int, c));
    }
}

/// The comments that stay when one is deleted: all but it and its answers.
pub open spec fn without(comments: Seq<CommentView>, id: u64) -> Seq<CommentView>
    decreases comments.len(),
{
    if comments.len() == 0 {
        Seq::empty()
    } else {
        let before = without(comments.drop_last(), id);
        let c = comments.last();
        if c.id == id || c.parent == Some(id) {
            before
        } else {
            before.push(c)
        }
    }
}

impl Store {
    /// Deletes a comment, with its answers.
    pub fn delete_comment(&mut self, id: u64)
        requires
            old(self).wf(),
        ensures
            final(self).wf(),
            final(self).next == old(self).next,
            comment_views(final(self).comments@) == without(
                comment_views(old(self).comments@),
                id,
            ),
    {
        let ghost all = comment_views(self.comments@);
        let ghost was = self.comments@;
        let mut kept: Vec<Comment> = Vec::new();
        let mut i: usize = 0;
        assert(all.take(0) =~= Seq::empty());
        assert(comment_views(kept@) =~= Seq::empty());
        while i < self.comments.len()
            invariant
                self.comments@ == was,
                self.wf(),
                i <= self.comments@.len(),
                all == comment_views(self.comments@),
                comment_views(kept@) == without(all.take(i as int), id),
                forall|k: int| 0 <= k < kept@.len() ==> (#[trigger] kept@[k]).id < self.next,
                forall|k: int, j: int|
                    0 <= k < kept@.len() && i <= j < was.len() ==> (#[trigger] kept@[k]).id != (
                    #[trigger] was[j]).id,
                forall|k: int, j: int|
                    0 <= k < j < kept@.len() ==> (#[trigger] kept@[k]).id != (
                    #[trigger] kept@[j]).id,
            decreases self.comments.len() - i,
        {
            assert(all.take(i + 1).drop_last() =~= all.take(i as int));
            assert(all.take(i + 1).last() == self.comments@[i as int]@);
            let gone = self.comments[i].id == id || self.comments[i].parent == Some(id);
            if !gone {
                let ghost before = comment_views(kept@);
                let copy = self.comments[i].copy();
                assert(copy.id == copy@.id && copy@ == was[i as int]@);
                let ghost added = copy@;
                kept.push(copy);
                assert(comment_views(kept@) =~= before.push(added));
            }
            i += 1;
        }
        assert(all.take(all.len() as int) =~= all);
        assert(all.len() == was.len());
        self.comments = kept;
    }
}

/// Deleting takes the comment and its answers, keeps the rest, and deleting
/// again takes nothing.
pub proof fn deleting_takes_the_thread_under_it(comments: Seq<CommentView>, id: u64)
    ensures
        forall|c: CommentView|
            without(comments, id).contains(c) <==> comments.contains(c) && c.id != id && c.parent
                != Some(id),
        without(without(comments, id), id) == without(comments, id),
    decreases comments.len(),
{
    if comments.len() > 0 {
        let rest = comments.drop_last();
        let last = comments.last();
        deleting_takes_the_thread_under_it(rest, id);
        let kept = without(rest, id);
        assert(comments =~= rest.push(last));
        assert forall|c: CommentView| comments.contains(c) <==> rest.contains(c) || c == last by {
            if rest.contains(c) {
                let i = choose|i: int| 0 <= i < rest.len() && rest[i] == c;
                assert(comments[i] == c);
            }
            assert(comments[comments.len() - 1] == last);
            if comments.contains(c) {
                let i = choose|i: int| 0 <= i < comments.len() && comments[i] == c;
                if i < rest.len() {
                    assert(rest[i] == c);
                }
            }
        }
        if !(last.id == id || last.parent == Some(id)) {
            let grown = kept.push(last);
            assert(grown.drop_last() =~= kept);
            assert forall|c: CommentView| grown.contains(c) <==> kept.contains(c) || c == last by {
                if kept.contains(c) {
                    let i = choose|i: int| 0 <= i < kept.len() && kept[i] == c;
                    assert(grown[i] == c);
                }
                assert(grown[grown.len() - 1] == last);
                if grown.contains(c) {
                    let i = choose|i: int| 0 <= i < grown.len() && grown[i] == c;
                    if i < kept.len() {
                        assert(kept[i] == c);
                    }
                }
            }
        }
    }
}

/// An answer lands in the thread of what it answers: whatever comment of a
/// thread it is given for, it gets that thread's root.
pub proof fn a_reply_joins_the_root(comments: Seq<CommentView>, id: u64)
    requires
        root_place(comments, id) is Some,
    ensures
        ({
            let root = comments[root_place(comments, id)->0];
            let asked = comments[place_of(comments, id)->0];
            thread_key_of(asked) == root.id
        }),
{
    lemma_place_of(comments, id);
    let asked = comments[place_of(comments, id)->0];
    if let Some(root) = asked.parent {
        lemma_place_of(comments, root);
    }
}

/// Nothing of a comment is lost in how contracts speak of it.
pub proof fn a_comment_is_seen_whole(c: Comment)
    ensures
        c@.id == c.id,
        c@.path == c.path@,
        c@.anchor == c.anchor,
        c@.body == c.body@,
        c@.created_at == c.created_at,
        c@.parent == c.parent,
        c@.author is Some <==> c.author is Some,
        c.author is Some ==> c@.author->0 == c.author->0@,
        c@.external is Some <==> c.external is Some,
        c.external is Some ==> c@.external->0 == c.external->0@,
        c@.cursors is Some <==> c.cursors is Some,
        c.cursors matches Some(at) ==> c@.cursors == Some((at.from@, at.to@)),
{
}

/// Deleting keeps the comments that stay in their order, each as it was.
pub proof fn deleting_keeps_the_rest_in_order(comments: Seq<CommentView>, id: u64)
    ensures
        without(comments, id) == comments.filter(
            |c: CommentView| c.id != id && c.parent != Some(id),
        ),
    decreases comments.len(),
{
    let stays = |c: CommentView| c.id != id && c.parent != Some(id);
    reveal(Seq::filter);
    if comments.len() > 0 {
        deleting_keeps_the_rest_in_order(comments.drop_last(), id);
    }
}

/// The thread of a comment is found by any comment of it: by the one that
/// begins it, and by every answer to that.
pub proof fn a_thread_is_found_by_any_of_its_comments(store: Store, r: int, k: int)
    requires
        store.wf(),
        0 <= r < store.comments@.len(),
        0 <= k < store.comments@.len(),
        store.comments@[r].parent is None,
        k == r || store.comments@[k].parent == Some(store.comments@[r].id),
    ensures
        root_place(comment_views(store.comments@), store.comments@[k].id) == Some(r),
{
    let all = comment_views(store.comments@);
    assert(all[r] == store.comments@[r]@);
    assert(all[k] == store.comments@[k]@);
    lemma_place_of(all, store.comments@[r].id);
    lemma_place_of(all, store.comments@[k].id);
    let i = place_of(all, store.comments@[r].id)->0;
    let j = place_of(all, store.comments@[k].id)->0;
    assert(all[i] == store.comments@[i]@);
    assert(all[j] == store.comments@[j]@);
}

/// What is found as the root of a comment's thread answers nothing, and the
/// comment is that root or answers it.
pub proof fn the_root_answers_nothing(comments: Seq<CommentView>, id: u64)
    requires
        root_place(comments, id) is Some,
    ensures
        ({
            let r = root_place(comments, id)->0;
            &&& 0 <= r < comments.len()
            &&& comments[r].parent is None
            &&& exists|k: int|
                0 <= k < comments.len() && (#[trigger] comments[k]).id == id && (k == r
                    || comments[k].parent == Some(comments[r].id))
        }),
{
    lemma_place_of(comments, id);
    let k = place_of(comments, id)->0;
    assert(comments[k].id == id);
    if let Some(root) = comments[k].parent {
        lemma_place_of(comments, root);
    }
}

} // verus!
