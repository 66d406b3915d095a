//! The document of one review window: its row streams, and what the reader is
//! doing in them.

use crate::diff::{
    copy_opt, copy_rows, copy_strings, opt_text, row_views, Blob, BlobView, PathSet, Row, RowView,
};
use vstd::prelude::*;

verus! {

/// A row stream: the fixed ones, and one per open file.
#[derive(Clone, Copy, Debug, PartialEq, Eq, Structural)]
pub enum Tab {
    Guide,
    Files,
    Sessions,
    Commits,
    Comments,
    File(u64),
}

/// Where typing goes, in blob coordinates: a row index names a position in a
/// stream's current shape, and every splice renumbers it.
#[derive(Clone, Copy, Debug, PartialEq, Eq, Structural)]
pub struct Caret {
    pub blob: u32,
    pub line: u32,
    pub byte: u32,
}

/// A run of lines, `start..=end`, of one blob.
#[derive(Clone, Copy, Debug, PartialEq, Eq, Structural)]
pub struct Side {
    pub blob: u32,
    pub start: u32,
    pub end: u32,
}

/// The lines a comment is being written on, per side of the diff.
#[derive(Clone, Copy, Debug, PartialEq, Eq, Structural)]
pub struct Compose {
    pub old: Option<Side>,
    pub new: Option<Side>,
}

/// What a comment is being written on: a selection of lines, or the thread
/// with this root.
#[derive(Clone, Copy, Debug, PartialEq, Eq, Structural)]
pub enum Composing {
    Lines(Compose),
    Reply(i64),
}

/// One open file: the dock tab that is its identity, and its rows.
#[derive(Debug)]
pub struct FileView {
    pub tab: u64,
    pub path: String,
    pub rows: Vec<Row>,
}

/// The document of one review window.
#[derive(Debug)]
pub struct ReviewDoc {
    pub repo: String,
    pub base: String,
    pub head: String,
    pub git_dir: Option<String>,
    pub workdir: Option<String>,
    pub error: Option<String>,
    pub loading: bool,
    pub generation: u64,
    pub rows_rev: u64,
    pub refs: Vec<String>,
    pub blobs: Vec<Blob>,
    pub guide_rows: Vec<Row>,
    pub files_rows: Vec<Row>,
    pub sessions_rows: Vec<Row>,
    pub commits_rows: Vec<Row>,
    pub comments_rows: Vec<Row>,
    pub files_open: Vec<FileView>,
    pub folded: PathSet,
    pub show_all_comments: PathSet,
    pub tab: Tab,
    pub caret: Option<Caret>,
    pub selection_anchor: Option<Caret>,
    pub compose: Option<Composing>,
    pub compose_anchor: usize,
    pub compose_draft: String,
    pub compose_focus: bool,
}

/// An open file, as the contracts speak of it.
pub struct FileShape {
    pub tab: u64,
    pub path: Seq<char>,
    pub rows: Seq<RowView>,
}

/// A document, as the contracts speak of it.
pub struct DocView {
    pub repo: Seq<char>,
    pub base: Seq<char>,
    pub head: Seq<char>,
    pub git_dir: Option<Seq<char>>,
    pub workdir: Option<Seq<char>>,
    pub error: Option<Seq<char>>,
    pub loading: bool,
    pub generation: u64,
    pub rows_rev: u64,
    pub refs: Seq<String>,
    pub blobs: Seq<BlobView>,
    pub guide_rows: Seq<RowView>,
    pub files_rows: Seq<RowView>,
    pub sessions_rows: Seq<RowView>,
    pub commits_rows: Seq<RowView>,
    pub comments_rows: Seq<RowView>,
    pub files_open: Seq<FileShape>,
    pub folded: Set<Seq<char>>,
    pub show_all_comments: Set<Seq<char>>,
    pub tab: Tab,
    pub caret: Option<Caret>,
    pub selection_anchor: Option<Caret>,
    pub compose: Option<Composing>,
    pub compose_anchor: usize,
    pub compose_draft: Seq<char>,
    pub compose_focus: bool,
}

/// The blobs of a document, as the contracts speak of them.
pub open spec fn blob_views(blobs: Seq<Blob>) -> Seq<BlobView> {
    Seq::new(blobs.len(), |i: int| blobs[i]@)
}

/// The open files of a document, as the contracts speak of them.
pub open spec fn file_shapes(files: Seq<FileView>) -> Seq<FileShape> {
    Seq::new(
        files.len(),
        |i: int|
            FileShape {
                tab: files[i].tab,
                path: files[i].path@,
                rows: row_views(files[i].rows@),
            },
    )
}

impl ReviewDoc {
    /// The document, as the contracts speak of it.
    pub open spec fn view(&self) -> DocView {
        DocView {
            repo: self.repo@,
            base: self.base@,
            head: self.head@,
            git_dir: opt_text(self.git_dir),
            workdir: opt_text(self.workdir),
            error: opt_text(self.error),
            loading: self.loading,
            generation: self.generation,
            rows_rev: self.rows_rev,
            refs: self.refs@,
            blobs: blob_views(self.blobs@),
            guide_rows: row_views(self.guide_rows@),
            files_rows: row_views(self.files_rows@),
            sessions_rows: row_views(self.sessions_rows@),
            commits_rows: row_views(self.commits_rows@),
            comments_rows: row_views(self.comments_rows@),
            files_open: file_shapes(self.files_open@),
            folded: self.folded@,
            show_all_comments: self.show_all_comments@,
            tab: self.tab,
            caret: self.caret,
            selection_anchor: self.selection_anchor,
            compose: self.compose,
            compose_anchor: self.compose_anchor,
            compose_draft: self.compose_draft@,
            compose_focus: self.compose_focus,
        }
    }

    /// A copy of the document.
    pub fn copy(&self) -> (doc: ReviewDoc)
        ensures
            doc@ == self@,
    {
        let mut blobs: Vec<Blob> = Vec::new();
        let mut i: usize = 0;
        while i < self.blobs.len()
            invariant
                i <= self.blobs.len(),
                blob_views(blobs@) =~= blob_views(self.blobs@).take(i as int),
            decreases self.blobs.len() - i,
        {
            let ghost was = blob_views(blobs@);
            blobs.push(self.blobs[i].copy());
            assert(blob_views(blobs@) =~= was.push(self.blobs@[i as int]@));
            i += 1;
        }
        assert(blob_views(blobs@) =~= blob_views(self.blobs@));
        let mut files_open: Vec<FileView> = Vec::new();
        let mut f: usize = 0;
        while f < self.files_open.len()
            invariant
                f <= self.files_open.len(),
                file_shapes(files_open@) =~= file_shapes(self.files_open@).take(f as int),
            decreases self.files_open.len() - f,
        {
            let ghost was = file_shapes(files_open@);
            let file = &self.files_open[f];
            files_open.push(
                FileView {
                    tab: file.tab,
                    path: file.path.clone(),
                    rows: copy_rows(&file.rows),
                },
            );
            assert(file_shapes(files_open@) =~= was.push(file_shapes(self.files_open@)[f as int]));
            f += 1;
        }
        assert(file_shapes(files_open@) =~= file_shapes(self.files_open@));
        ReviewDoc {
            repo: self.repo.clone(),
            base: self.base.clone(),
            head: self.head.clone(),
            git_dir: copy_opt(&self.git_dir),
            workdir: copy_opt(&self.workdir),
            error: copy_opt(&self.error),
            loading: self.loading,
            generation: self.generation,
            rows_rev: self.rows_rev,
            refs: copy_strings(&self.refs),
            blobs,
            guide_rows: copy_rows(&self.guide_rows),
            files_rows: copy_rows(&self.files_rows),
            sessions_rows: copy_rows(&self.sessions_rows),
            commits_rows: copy_rows(&self.commits_rows),
            comments_rows: copy_rows(&self.comments_rows),
            files_open,
            folded: self.folded.copy(),
            show_all_comments: self.show_all_comments.copy(),
            tab: self.tab,
            caret: self.caret,
            selection_anchor: self.selection_anchor,
            compose: self.compose,
            compose_anchor: self.compose_anchor,
            compose_draft: self.compose_draft.clone(),
            compose_focus: self.compose_focus,
        }
    }
}

/// A document that has nothing in it, its gesture pointed at the diff.
pub open spec fn empty_doc() -> DocView {
    DocView {
        repo: Seq::empty(),
        base: Seq::empty(),
        head: Seq::empty(),
        git_dir: None,
        workdir: None,
        error: None,
        loading: false,
        generation: 0,
        rows_rev: 0,
        refs: Seq::empty(),
        blobs: Seq::empty(),
        guide_rows: Seq::empty(),
        files_rows: Seq::empty(),
        sessions_rows: Seq::empty(),
        commits_rows: Seq::empty(),
        comments_rows: Seq::empty(),
        files_open: Seq::empty(),
        folded: Set::empty(),
        show_all_comments: Set::empty(),
        tab: Tab::Files,
        caret: None,
        selection_anchor: None,
        compose: None,
        compose_anchor: 0,
        compose_draft: Seq::empty(),
        compose_focus: false,
    }
}

impl Default for ReviewDoc {
    /// An empty document, its gesture pointed at the diff.
    fn default() -> (doc: ReviewDoc)
        ensures
            doc@ == empty_doc(),
    {
        let doc = ReviewDoc {
            repo: String::new(),
            base: String::new(),
            head: String::new(),
            git_dir: None,
            workdir: None,
            error: None,
            loading: false,
            generation: 0,
            rows_rev: 0,
            refs: Vec::new(),
            blobs: Vec::new(),
            guide_rows: Vec::new(),
            files_rows: Vec::new(),
            sessions_rows: Vec::new(),
            commits_rows: Vec::new(),
            comments_rows: Vec::new(),
            files_open: Vec::new(),
            folded: PathSet::new(),
            show_all_comments: PathSet::new(),
            tab: Tab::Files,
            caret: None,
            selection_anchor: None,
            compose: None,
            compose_anchor: 0,
            compose_draft: String::new(),
            compose_focus: false,
        };
        assert(doc@.repo =~= Seq::empty());
        assert(doc@.base =~= Seq::empty());
        assert(doc@.head =~= Seq::empty());
        assert(doc@.compose_draft =~= Seq::empty());
        assert(doc@.refs =~= Seq::empty());
        assert(doc@.blobs =~= Seq::empty());
        assert(row_views(Seq::empty()) =~= Seq::empty());
        assert(doc@.files_open =~= Seq::empty());
        doc
    }
}

/// The first open file whose dock tab is `tab`.
pub open spec fn open_file(files: Seq<FileView>, tab: u64) -> Option<int>
    decreases files.len(),
{
    if files.len() == 0 {
        None
    } else if files[0].tab == tab {
        Some(0)
    } else {
        match open_file(files.drop_first(), tab) {
            Some(i) => Some(i + 1),
            None => None,
        }
    }
}

impl ReviewDoc {
    /// The rows of a stream. A file tab that the document has no file for has
    /// none.
    pub open spec fn rows(&self, tab: Tab) -> Seq<Row> {
        match tab {
            Tab::Guide => self.guide_rows@,
            Tab::Files => self.files_rows@,
            Tab::Sessions => self.sessions_rows@,
            Tab::Commits => self.commits_rows@,
            Tab::Comments => self.comments_rows@,
            Tab::File(t) => match open_file(self.files_open@, t) {
                Some(i) => self.files_open@[i].rows@,
                None => Seq::empty(),
            },
        }
    }

    /// The rows of a stream; `None` for a file tab that the document has no
    /// file for.
    pub fn stream(&self, tab: Tab) -> (rows: Option<&Vec<Row>>)
        ensures
            (match rows {
                Some(rows) => rows@ == self.rows(tab),
                None => self.rows(tab) == Seq::<Row>::empty(),
            }),
    {
        match tab {
            Tab::Guide => Some(&self.guide_rows),
            Tab::Files => Some(&self.files_rows),
            Tab::Sessions => Some(&self.sessions_rows),
            Tab::Commits => Some(&self.commits_rows),
            Tab::Comments => Some(&self.comments_rows),
            Tab::File(t) => {
                let mut i: usize = 0;
                assert(self.files_open@.skip(0) =~= self.files_open@);
                while i < self.files_open.len()
                    invariant
                        i <= self.files_open.len(),
                        tab == Tab::File(t),
                        open_file(self.files_open@, t) == (match open_file(
                            self.files_open@.skip(i as int),
                            t,
                        ) {
                            Some(k) => Some(k + i),
                            None => None,
                        }),
                    decreases self.files_open.len() - i,
                {
                    assert(self.files_open@.skip(i as int).drop_first()
                        =~= self.files_open@.skip(i + 1));
                    if self.files_open[i].tab == t {
                        return Some(&self.files_open[i].rows);
                    }
                    i += 1;
                }
                None
            },
        }
    }

    /// The row of a stream at an index, if there is one.
    pub fn row(&self, tab: Tab, at: usize) -> (row: Option<&Row>)
        ensures
            (match row {
                Some(row) => at < self.rows(tab).len() && *row == self.rows(tab)[at as int],
                None => at >= self.rows(tab).len(),
            }),
    {
        match self.stream(tab) {
            Some(rows) => if at < rows.len() {
                Some(&rows[at])
            } else {
                None
            },
            None => None,
        }
    }
}

/// Each stream has its own rows, and a file's stream those of its own file; an
/// empty document has none in any.
pub proof fn every_stream_has_its_own_rows(doc: &ReviewDoc, i: int)
    ensures
        doc.rows(Tab::Guide) == doc.guide_rows@,
        doc.rows(Tab::Files) == doc.files_rows@,
        doc.rows(Tab::Sessions) == doc.sessions_rows@,
        doc.rows(Tab::Commits) == doc.commits_rows@,
        doc.rows(Tab::Comments) == doc.comments_rows@,
        0 <= i < doc.files_open@.len() && (forall|k: int|
            0 <= k < i ==> (#[trigger] doc.files_open@[k]).tab != doc.files_open@[i].tab)
            ==> doc.rows(Tab::File(doc.files_open@[i].tab)) == doc.files_open@[i].rows@,
{
    if 0 <= i < doc.files_open@.len() {
        lemma_open_file(doc.files_open@, doc.files_open@[i].tab);
    }
}

proof fn lemma_open_file(files: Seq<FileView>, tab: u64)
    ensures
        (match open_file(files, tab) {
            Some(i) => 0 <= i < files.len() && files[i].tab == tab && forall|k: int|
                0 <= k < i ==> (#[trigger] files[k]).tab != tab,
            None => forall|k: int| 0 <= k < files.len() ==> (#[trigger] files[k]).tab != tab,
        }),
    decreases files.len(),
{
    if files.len() > 0 && files[0].tab != tab {
        let rest = files.drop_first();
        lemma_open_file(rest, tab);
        assert forall|k: int| 0 < k < files.len() implies #[trigger] files[k] == rest[k - 1] by {}
        if let Some(i) = open_file(rest, tab) {
            assert(files[i + 1] == rest[i]);
        }
    }
}

/// Nothing that the reader is doing is lost in how contracts speak of a
/// document.
pub proof fn a_document_is_seen_whole(doc: &ReviewDoc)
    ensures
        doc@.repo == doc.repo@ && doc@.base == doc.base@ && doc@.head == doc.head@,
        doc@.loading == doc.loading && doc@.generation == doc.generation && doc@.rows_rev
            == doc.rows_rev,
        doc@.error is Some <==> doc.error is Some,
        doc.error is Some ==> doc@.error->0 == doc.error->0@,
        doc@.git_dir is Some <==> doc.git_dir is Some,
        doc.git_dir is Some ==> doc@.git_dir->0 == doc.git_dir->0@,
        doc@.workdir is Some <==> doc.workdir is Some,
        doc.workdir is Some ==> doc@.workdir->0 == doc.workdir->0@,
        doc@.refs == doc.refs@,
        doc@.blobs.len() == doc.blobs@.len(),
        doc@.guide_rows.len() == doc.guide_rows@.len(),
        doc@.files_rows.len() == doc.files_rows@.len(),
        doc@.sessions_rows.len() == doc.sessions_rows@.len(),
        doc@.commits_rows.len() == doc.commits_rows@.len(),
        doc@.comments_rows.len() == doc.comments_rows@.len(),
        doc@.files_open.len() == doc.files_open@.len(),
        doc@.folded == doc.folded@ && doc@.show_all_comments == doc.show_all_comments@,
        doc@.tab == doc.tab && doc@.caret == doc.caret && doc@.selection_anchor
            == doc.selection_anchor,
        doc@.compose == doc.compose && doc@.compose_anchor == doc.compose_anchor
            && doc@.compose_draft == doc.compose_draft@ && doc@.compose_focus == doc.compose_focus,
{
}

} // verus!
