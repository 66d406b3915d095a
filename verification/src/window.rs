//! One window's own state: the review document it renders, the load that
//! produced it, and what is being typed into it.

use crate::review_doc::{empty_doc, DocView, ReviewDoc};
use crate::text::same;
use std::sync::Arc;
use vstd::prelude::*;

verus! {

/// The state of one window.
#[derive(Debug)]
pub struct WindowState {
    /// The id the window was opened under.
    pub id: u64,
    /// The window's identity, which its terminals carry.
    pub key: String,
    /// The published document. A draw shares it and paints from it, whatever
    /// is published meanwhile.
    pub doc: Arc<ReviewDoc>,
    /// The comment being typed.
    pub compose_draft: String,
    /// The newest load. Loads are superseded rather than cancelled.
    pub load_request: u64,
    pub focused: bool,
}

/// What a failed load leaves on screen: the document that is there, with what
/// went wrong.
pub open spec fn failed_over(current: DocView, error: Option<Seq<char>>) -> DocView {
    DocView { error, loading: false, generation: (current.generation + 1) as u64, ..current }
}

/// A document that was loaded, with the view state that belongs to the window
/// rather than to the load.
pub open spec fn in_window(current: DocView, next: DocView) -> DocView {
    DocView { folded: current.folded, show_all_comments: current.show_all_comments, ..next }
}

/// What a landed load puts on screen: the document with what was carried over
/// into it, as a new generation.
pub open spec fn taken_over(current: DocView, carried: DocView) -> DocView {
    DocView { generation: (current.generation + 1) as u64, ..carried }
}

/// Whether a load that landed is a failure over a document that is worth
/// keeping.
pub open spec fn keeps_current(current: DocView, next: DocView) -> bool {
    next.error is Some && current.git_dir is Some
}

impl WindowState {
    /// The published document.
    pub open spec fn document(&self) -> ReviewDoc {
        *self.doc
    }

    /// The number of the newest load.
    pub open spec fn newest(&self) -> u64 {
        self.load_request
    }

    /// Whether the window has the focus.
    pub open spec fn has_focus(&self) -> bool {
        self.focused
    }

    /// A window that has loaded nothing.
    pub fn new(id: u64, key: String) -> (state: WindowState)
        ensures
            state.id == id,
            state.key == key,
            state.newest() == 0,
            !state.has_focus(),
            state.compose_draft@.len() == 0,
            state.document()@ == empty_doc(),
    {
        WindowState {
            id,
            key,
            doc: Arc::new(ReviewDoc::default()),
            compose_draft: String::new(),
            load_request: 0,
            focused: false,
        }
    }

    /// The state that a pane renders before it has been given a window: an
    /// empty document, under no window's id.
    pub fn detached() -> (state: WindowState)
        ensures
            state.id == 0,
            state.key@.len() == 0,
            state.newest() == 0,
            !state.has_focus(),
            state.compose_draft@.len() == 0,
            state.document()@ == empty_doc(),
    {
        WindowState::new(0, String::new())
    }

    /// Whether the window has the focus. Keyboard events carry no window, so
    /// every window's widgets see every keystroke and have to ask.
    pub fn is_focused(&self) -> (r: bool)
        ensures
            r == self.has_focus(),
    {
        self.focused
    }

    /// Gives the window the focus, or takes it away.
    pub fn set_focused(&mut self, focused: bool)
        ensures
            final(self).has_focus() == focused,
            final(self).document() == old(self).document(),
            final(self).newest() == old(self).newest(),
            final(self).compose_draft == old(self).compose_draft,
            final(self).id == old(self).id,
            final(self).key == old(self).key,
    {
        self.focused = focused;
    }

    /// The document as it stands.
    pub fn read(&self) -> (doc: &ReviewDoc)
        ensures
            *doc == self.document(),
    {
        &*self.doc
    }

    /// The document as it stands, to be held beyond this call: what is
    /// published later does not change it.
    pub fn snapshot(&self) -> (doc: Arc<ReviewDoc>)
        ensures
            *doc == self.document(),
    {
        self.doc.clone()
    }

    /// Publishes a document in place of the one that is there.
    pub fn write(&mut self, doc: ReviewDoc)
        ensures
            final(self).document() == doc,
            final(self).newest() == old(self).newest(),
            final(self).has_focus() == old(self).has_focus(),
            final(self).compose_draft == old(self).compose_draft,
            final(self).id == old(self).id,
            final(self).key == old(self).key,
    {
        self.doc = Arc::new(doc);
    }

    /// Claims the next load. The number comes back so that the load can ask
    /// whether it is still the newest when it finishes.
    pub fn next_load(&mut self) -> (request: u64)
        requires
            old(self).newest() < u64::MAX,
        ensures
            request == old(self).newest() + 1,
            final(self).newest() == request,
            final(self).document() == old(self).document(),
            final(self).has_focus() == old(self).has_focus(),
            final(self).compose_draft == old(self).compose_draft,
            final(self).id == old(self).id,
            final(self).key == old(self).key,
    {
        self.load_request = self.load_request + 1;
        self.load_request
    }

    /// Whether a load is still the newest.
    pub fn load_is_current(&self, request: u64) -> (r: bool)
        ensures
            r == (self.newest() == request),
    {
        self.load_request == request
    }

    /// A freshly built document with the folds and the shown conversations of
    /// the window. What is live in the current document, such as text that was
    /// typed while it was built, is carried over into this one.
    pub fn prepared(&self, next: ReviewDoc) -> (doc: ReviewDoc)
        ensures
            doc@ == in_window(self.document()@, next@),
    {
        let mut next = next;
        let ghost loaded = next@;
        next.folded = self.doc.folded.copy();
        next.show_all_comments = self.doc.show_all_comments.copy();
        assert(next@ == in_window(self.document()@, loaded));
        next
    }

    /// Lands a freshly built document; says whether it was taken.
    ///
    /// A superseded load is dropped. A failure over a document that was loaded
    /// keeps that document, edits and all, and shows the error. Otherwise the
    /// document takes over that was [prepared](Self::prepared) from the new one
    /// and had everything carried over into it, and a draft that was typed for
    /// another repository is cleared.
    pub fn land(&mut self, request: u64, next: ReviewDoc, carried: ReviewDoc) -> (landed: bool)
        requires
            old(self).document().generation < u64::MAX,
        ensures
            landed == (old(self).newest() == request),
            !landed ==> *final(self) == *old(self),
            landed && keeps_current(old(self).document()@, next@) ==> final(self).document()@
                == failed_over(old(self).document()@, next@.error) && final(self).compose_draft
                == old(self).compose_draft,
            landed && !keeps_current(old(self).document()@, next@) ==> final(self).document()@
                == taken_over(old(self).document()@, carried@) && final(self).compose_draft@ == (
            if carried.repo@ == old(self).document().repo@ {
                old(self).compose_draft@
            } else {
                Seq::empty()
            }),
            final(self).newest() == old(self).newest(),
            final(self).has_focus() == old(self).has_focus(),
            final(self).id == old(self).id,
            final(self).key == old(self).key,
    {
        if !self.load_is_current(request) {
            return false;
        }
        if next.error.is_some() && self.doc.git_dir.is_some() {
            let mut current = self.doc.copy();
            current.error = next.error;
            current.loading = false;
            current.generation = current.generation + 1;
            assert(current@ == failed_over(old(self).document()@, next@.error));
            self.doc = Arc::new(current);
            return true;
        }
        let mut carried = carried;
        let ghost loaded = carried@;
        if !same(carried.repo.as_str(), self.doc.repo.as_str()) {
            let cleared = String::new();
            assert(cleared@ =~= Seq::empty());
            self.compose_draft = cleared;
        }
        carried.generation = self.doc.generation + 1;
        assert(carried@ == taken_over(old(self).document()@, loaded));
        self.doc = Arc::new(carried);
        true
    }
}

/// Every landing that changes what is on screen is a new generation, so that
/// whatever was drawn from the old document is drawn again; and the window's
/// folds are those that the document was prepared with.
pub proof fn a_landing_is_a_new_generation(current: DocView, next: DocView)
    requires
        current.generation < u64::MAX,
    ensures
        failed_over(current, next.error).generation == current.generation + 1,
        taken_over(current, in_window(current, next)).generation == current.generation + 1,
        failed_over(current, next.error).folded == current.folded,
        taken_over(current, in_window(current, next)).folded == current.folded,
        failed_over(current, next.error).blobs == current.blobs,
        failed_over(current, next.error).repo == current.repo,
{
}

/// A load that fails over a loaded document loses nothing of it: its rows, its
/// files with what was typed into them, its caret and its comment stay, and the
/// error is shown over it.
pub proof fn a_failed_load_keeps_the_document(current: DocView, next: DocView)
    ensures
        ({
            let kept = failed_over(current, next.error);
            &&& kept.error == next.error && !kept.loading
            &&& kept.repo == current.repo && kept.base == current.base && kept.head == current.head
            &&& kept.git_dir == current.git_dir && kept.workdir == current.workdir
            &&& kept.refs == current.refs && kept.blobs == current.blobs && kept.rows_rev
                == current.rows_rev
            &&& kept.guide_rows == current.guide_rows && kept.files_rows == current.files_rows
            &&& kept.sessions_rows == current.sessions_rows && kept.commits_rows
                == current.commits_rows && kept.comments_rows == current.comments_rows
            &&& kept.files_open == current.files_open && kept.folded == current.folded
                && kept.show_all_comments == current.show_all_comments
            &&& kept.tab == current.tab && kept.caret == current.caret && kept.selection_anchor
                == current.selection_anchor
            &&& kept.compose == current.compose && kept.compose_anchor == current.compose_anchor
                && kept.compose_draft == current.compose_draft && kept.compose_focus
                == current.compose_focus
        }),
        keeps_current(current, next) <==> next.error is Some && current.git_dir is Some,
{
}

/// A document that takes over is the one that was loaded, in everything that
/// the load brings: its range, rows, files and error. What is folded or shown
/// whole stays as the window has it.
pub proof fn a_landed_document_is_the_loaded_one(current: DocView, next: DocView)
    ensures
        ({
            let shown = taken_over(current, in_window(current, next));
            &&& shown.repo == next.repo && shown.base == next.base && shown.head == next.head
            &&& shown.git_dir == next.git_dir && shown.workdir == next.workdir && shown.error
                == next.error && shown.loading == next.loading
            &&& shown.refs == next.refs && shown.blobs == next.blobs && shown.rows_rev
                == next.rows_rev
            &&& shown.guide_rows == next.guide_rows && shown.files_rows == next.files_rows
            &&& shown.sessions_rows == next.sessions_rows && shown.commits_rows
                == next.commits_rows && shown.comments_rows == next.comments_rows
            &&& shown.files_open == next.files_open && shown.tab == next.tab && shown.caret
                == next.caret && shown.compose == next.compose
            &&& shown.folded == current.folded && shown.show_all_comments
                == current.show_all_comments
        }),
{
}

} // verus!
