//! The pickers above the dock, which say what repository is shown and which
//! range of it; and the tabs and terminals that the pane opens.

use crate::live_id::{id_of, live_id};
use crate::review_doc::{ReviewDoc, Tab};
use crate::text::views;
use crate::widgets::compose::set_gesture_tab;
use crate::widgets::dock::{bar_for_new_tab, bar_of, stream_id, stream_tab_id};
use crate::widgets::review_pane::{
    at_most, combo_filter, current_range, env_view, matching, recent_label, row_range,
    show_recents, split_row, terminal_cwd, terminal_env, terminal_env_of, typed, typed_range,
    EnvVar, Panel, Range, ReviewPane, COMBO_ROWS, PANEL_SHUT, REPO_ROWS,
};
use vstd::prelude::*;

verus! {

/// What is to be loaded: a range of a repository.
#[derive(Debug)]
pub struct LoadTarget {
    pub repo: String,
    pub base: String,
    pub head: String,
}

/// What the diff picker is told.
#[derive(Debug)]
pub enum DiffPickerEvent {
    /// Its button was clicked.
    Toggled,
    /// The text in its field changed.
    Changed(String),
    /// The text in its field was entered.
    Returned(String),
    Escaped,
    /// A row with this text was clicked.
    RowClicked(String),
}

/// What a picker asks for.
#[derive(Debug)]
pub enum PickerStep {
    Nothing,
    /// It is shown, with these rows.
    Opened(Vec<String>),
    Closed,
    /// Its rows are these.
    Filtered(Vec<String>),
    Load(LoadTarget),
    /// A directory is to be chosen.
    Browse,
}

/// What a picker asks for, as text.
#[allow(inconsistent_fields)]
pub enum StepView {
    Nothing,
    Opened(Seq<Seq<char>>),
    Closed,
    Filtered(Seq<Seq<char>>),
    Load(Seq<char>, Seq<char>, Seq<char>),
    Browse,
}

impl PickerStep {
    /// The step, as text.
    pub open spec fn view(&self) -> StepView {
        match *self {
            PickerStep::Nothing => StepView::Nothing,
            PickerStep::Opened(rows) => StepView::Opened(views(rows@)),
            PickerStep::Closed => StepView::Closed,
            PickerStep::Filtered(rows) => StepView::Filtered(views(rows@)),
            PickerStep::Load(t) => StepView::Load(t.repo@, t.base@, t.head@),
            PickerStep::Browse => StepView::Browse,
        }
    }
}

/// The rows of the diff picker for a query.
pub open spec fn diff_rows(doc: &ReviewDoc, query: Seq<char>) -> Seq<Seq<char>> {
    at_most(matching(views(doc.refs@), query), COMBO_ROWS as int)
}

/// The rows of the repo picker.
pub open spec fn repo_rows(recents: Seq<Seq<char>>) -> Seq<Seq<char>> {
    Seq::new(
        if recents.len() < REPO_ROWS {
            recents.len()
        } else {
            REPO_ROWS as nat
        },
        |i: int| recent_label(recents[i]),
    )
}

/// The range that is open, else a sane default.
pub open spec fn open_range(doc: &ReviewDoc) -> (Seq<char>, Seq<char>) {
    if doc.base@.len() == 0 {
        ("HEAD~5"@, "HEAD"@)
    } else {
        (doc.base@, doc.head@)
    }
}

/// What an event at the diff picker asks for.
pub open spec fn diff_step(shown: bool, doc: &ReviewDoc, event: DiffPickerEvent) -> StepView {
    match event {
        DiffPickerEvent::Toggled => if shown {
            StepView::Closed
        } else {
            StepView::Opened(diff_rows(doc, ""@))
        },
        DiffPickerEvent::Changed(query) => StepView::Filtered(diff_rows(doc, query@)),
        DiffPickerEvent::Returned(text) => match typed(text@) {
            Some((base, head)) => StepView::Load(doc.repo@, base, head),
            None => StepView::Closed,
        },
        DiffPickerEvent::Escaped => StepView::Closed,
        DiffPickerEvent::RowClicked(text) => match split_row(text@) {
            Some((base, head)) => StepView::Load(doc.repo@, base, head),
            None => StepView::Nothing,
        },
    }
}

/// What the repo picker is told.
#[derive(Clone, Copy, Debug)]
pub enum RepoPickerEvent {
    /// The load button was clicked.
    Reload,
    /// Its button was clicked.
    Toggled,
    RowClicked(usize),
    /// Another directory is wanted.
    OpenDir,
}

/// What an event at the repo picker asks for.
pub open spec fn repo_step(
    shown: bool,
    recents: Seq<Seq<char>>,
    doc: &ReviewDoc,
    event: RepoPickerEvent,
) -> StepView {
    let (base, head) = open_range(doc);
    match event {
        RepoPickerEvent::Reload => StepView::Load(doc.repo@, base, head),
        RepoPickerEvent::Toggled => if shown {
            StepView::Closed
        } else {
            StepView::Opened(repo_rows(recents))
        },
        RepoPickerEvent::RowClicked(row) => if row < recents.len() && row < REPO_ROWS {
            StepView::Load(recents[row as int], base, head)
        } else {
            StepView::Nothing
        },
        RepoPickerEvent::OpenDir => StepView::Browse,
    }
}

/// A pane whose diff picker is shown or not.
pub open spec fn with_pickers(pane: ReviewPane, combo: bool, repo: bool, loading: bool) -> ReviewPane {
    ReviewPane { combo_shown: combo, repo_shown: repo, loading, ..pane }
}

impl ReviewPane {
    /// At most one picker is open.
    pub open spec fn one_picker(&self) -> bool {
        !(self.combo_shown && self.repo_shown)
    }

    /// Opens the diff picker: nothing typed, every ref listed that has a slot.
    pub fn combo_open(&mut self, doc: &ReviewDoc) -> (rows: Vec<String>)
        ensures
            views(rows@) == diff_rows(doc, ""@),
            *final(self) == with_pickers(*old(self), true, false, old(self).loading),
    {
        self.repo_shown = false;
        self.combo_shown = true;
        combo_filter(&doc.refs, "")
    }

    /// Closes the diff picker.
    pub fn combo_close(&mut self)
        ensures
            *final(self) == with_pickers(
                *old(self),
                false,
                old(self).repo_shown,
                old(self).loading,
            ),
    {
        self.combo_shown = false;
    }

    /// Opens the repo picker.
    pub fn repo_open(&mut self) -> (rows: Vec<String>)
        ensures
            views(rows@) == repo_rows(views(old(self).recents@)),
            *final(self) == with_pickers(*old(self), false, true, old(self).loading),
    {
        self.combo_shown = false;
        self.repo_shown = true;
        let rows = show_recents(&self.recents);
        assert(views(rows@) =~= repo_rows(views(self.recents@)));
        rows
    }

    /// Closes the repo picker.
    pub fn repo_close(&mut self)
        ensures
            *final(self) == with_pickers(
                *old(self),
                old(self).combo_shown,
                false,
                old(self).loading,
            ),
    {
        self.repo_shown = false;
    }

    /// Takes the recent repositories, most recent first, and says what the rows
    /// of the picker are.
    pub fn set_recents(&mut self, recents: Vec<String>) -> (rows: Vec<String>)
        ensures
            views(rows@) == repo_rows(views(recents@)),
            *final(self) == (ReviewPane { recents, ..*old(self) }),
    {
        self.recents = recents;
        let rows = show_recents(&self.recents);
        assert(views(rows@) =~= repo_rows(views(self.recents@)));
        rows
    }

    /// Shows or hides the card that says a review is being loaded.
    pub fn set_loading(&mut self, on: bool)
        ensures
            *final(self) == (ReviewPane { loading: on, ..*old(self) }),
    {
        self.loading = on;
    }

    /// Loads a range of a repository, and closes the diff picker.
    pub fn combo_load(&mut self, repo: String, range: Range) -> (step: PickerStep)
        ensures
            step@ == StepView::Load(repo@, range@.0, range@.1),
            *final(self) == with_pickers(*old(self), false, old(self).repo_shown, true),
    {
        self.combo_shown = false;
        self.loading = true;
        PickerStep::Load(LoadTarget { repo, base: range.base, head: range.head })
    }

    /// What an event at the diff picker does. A load closes it.
    pub fn handle_diff_picker(&mut self, doc: &ReviewDoc, event: DiffPickerEvent) -> (step:
        PickerStep)
        ensures
            step@ == diff_step(old(self).combo_shown, doc, event),
            *final(self) == (match step@ {
                StepView::Opened(_) => with_pickers(*old(self), true, false, old(self).loading),
                StepView::Closed => with_pickers(
                    *old(self),
                    false,
                    old(self).repo_shown,
                    old(self).loading,
                ),
                StepView::Load(_, _, _) => with_pickers(
                    *old(self),
                    false,
                    old(self).repo_shown,
                    true,
                ),
                _ => *old(self),
            }),
            old(self).one_picker() ==> final(self).one_picker(),
    {
        match event {
            DiffPickerEvent::Toggled => if self.combo_shown {
                self.combo_close();
                PickerStep::Closed
            } else {
                PickerStep::Opened(self.combo_open(doc))
            },
            DiffPickerEvent::Changed(query) => PickerStep::Filtered(
                combo_filter(&doc.refs, query.as_str()),
            ),
            DiffPickerEvent::Returned(text) => match typed_range(text.as_str()) {
                Some(range) => self.combo_load(doc.repo.clone(), range),
                None => {
                    self.combo_close();
                    PickerStep::Closed
                },
            },
            DiffPickerEvent::Escaped => {
                self.combo_close();
                PickerStep::Closed
            },
            DiffPickerEvent::RowClicked(text) => match row_range(text.as_str()) {
                Some(range) => self.combo_load(doc.repo.clone(), range),
                None => PickerStep::Nothing,
            },
        }
    }

    /// What an event at the repo picker does. Loads keep the range that is open.
    pub fn handle_repo_picker(&mut self, doc: &ReviewDoc, event: RepoPickerEvent) -> (step:
        PickerStep)
        ensures
            step@ == repo_step(old(self).repo_shown, views(old(self).recents@), doc, event),
            *final(self) == (match step@ {
                StepView::Opened(_) => with_pickers(*old(self), false, true, old(self).loading),
                StepView::Closed => with_pickers(
                    *old(self),
                    old(self).combo_shown,
                    false,
                    old(self).loading,
                ),
                StepView::Load(_, _, _) => with_pickers(
                    *old(self),
                    false,
                    old(self).repo_shown && event is Reload,
                    true,
                ),
                StepView::Browse => with_pickers(
                    *old(self),
                    old(self).combo_shown,
                    false,
                    old(self).loading,
                ),
                _ => *old(self),
            }),
            old(self).one_picker() ==> final(self).one_picker(),
    {
        match event {
            RepoPickerEvent::Reload => self.combo_load(doc.repo.clone(), current_range(doc)),
            RepoPickerEvent::Toggled => if self.repo_shown {
                self.repo_close();
                PickerStep::Closed
            } else {
                PickerStep::Opened(self.repo_open())
            },
            RepoPickerEvent::RowClicked(row) => if row < self.recents.len() && row < REPO_ROWS {
                let repo = self.recents[row].clone();
                self.repo_close();
                self.combo_load(repo, current_range(doc))
            } else {
                PickerStep::Nothing
            },
            RepoPickerEvent::OpenDir => {
                self.repo_close();
                PickerStep::Browse
            },
        }
    }

    /// Loads the directory that was chosen, where one was.
    pub fn pick_repo(&mut self, doc: &ReviewDoc, picked: Option<String>) -> (step: PickerStep)
        ensures
            (match picked {
                Some(path) => step@ == StepView::Load(path@, open_range(doc).0, open_range(doc).1)
                    && *final(self) == with_pickers(*old(self), false, old(self).repo_shown, true),
                None => step@ == StepView::Nothing && *final(self) == *old(self),
            }),
    {
        match picked {
            Some(path) => self.combo_load(path, current_range(doc)),
            None => PickerStep::Nothing,
        }
    }
}

// ---------------------------------------------------------------------------
// Tabs
// ---------------------------------------------------------------------------

/// The ids of a list that are not `id`.
pub open spec fn ids_without(ids: Seq<u64>, id: u64) -> Seq<u64>
    decreases ids.len(),
{
    if ids.len() == 0 {
        Seq::empty()
    } else if ids.last() == id {
        ids_without(ids.drop_last(), id)
    } else {
        ids_without(ids.drop_last(), id).push(ids.last())
    }
}

proof fn lemma_without(ids: Seq<u64>, id: u64)
    ensures
        !ids_without(ids, id).contains(id),
    decreases ids.len(),
{
    if ids.len() > 0 {
        let rest = ids_without(ids.drop_last(), id);
        lemma_without(ids.drop_last(), id);
        assert forall|k: int| 0 <= k < ids_without(ids, id).len() implies ids_without(ids, id)[k]
            != id by {
            if k < rest.len() {
                assert(rest.contains(rest[k]));
            }
        }
    }
}

/// How a tab of the dock is opened: the bar it is made in, where it is not there
/// yet, and the tab that is selected.
#[derive(Clone, Copy, Debug, PartialEq, Eq, Structural)]
pub struct OpenTab {
    pub create_in: Option<u64>,
    pub select: u64,
}

/// How a tab is opened: in the bar of the streams, unless it is in the dock.
pub open spec fn opened_tab(id: u64, docked: bool, bars: Seq<Option<u64>>) -> OpenTab {
    OpenTab {
        create_in: if docked {
            None
        } else {
            Some(bar_of(bars))
        },
        select: id,
    }
}

fn open_dock_tab(id: u64, docked: bool, bars: &Vec<Option<u64>>) -> (tab: OpenTab)
    ensures
        tab == opened_tab(id, docked, bars@),
{
    if docked {
        OpenTab { create_in: None, select: id }
    } else {
        OpenTab { create_in: Some(bar_for_new_tab(bars)), select: id }
    }
}

/// What a terminal's shell starts with.
#[derive(Debug)]
pub struct TerminalStart {
    pub cwd: String,
    pub env: Vec<EnvVar>,
}

/// Where a terminal's shell starts: the directory as it is written in full,
/// where that is known.
pub open spec fn start_in(doc: &ReviewDoc, full: Option<String>) -> Seq<char> {
    match full {
        Some(path) => path@,
        None => if doc.repo@.len() == 0 {
            "."@
        } else {
            doc.repo@
        },
    }
}

/// A panel that is sliding, from one size to another.
#[derive(Clone, Copy, Debug, PartialEq, Eq, Structural)]
pub struct Slide {
    pub panel: Panel,
    pub from: i64,
    pub to: i64,
}

impl ReviewPane {
    /// Opens the tab of a stream again, where it was closed, and goes to it.
    pub fn open_stream_tab(&mut self, doc: &mut ReviewDoc, tab: Tab) -> (select: u64)
        ensures
            select == stream_id(tab),
            *final(self) == (ReviewPane { user_closed: final(self).user_closed, ..*old(self) }),
            final(self).user_closed@ == ids_without(old(self).user_closed@, select),
            !final(self).user_closed@.contains(select),
            old(doc).tab == tab ==> *final(doc) == *old(doc),
            old(doc).tab != tab ==> final(doc).compose_draft@.len() == 0 && *final(doc) == (
            ReviewDoc { tab, compose: None, compose_draft: final(doc).compose_draft, ..*old(doc) }),
    {
        let id: u64 = stream_tab_id(tab);
        let mut kept: Vec<u64> = Vec::new();
        let mut i: usize = 0;
        assert(self.user_closed@.take(0) =~= Seq::empty());
        while i < self.user_closed.len()
            invariant
                i <= self.user_closed@.len(),
                kept@ == ids_without(self.user_closed@.take(i as int), id),
            decreases self.user_closed.len() - i,
        {
            let ghost next = self.user_closed@.take(i + 1);
            assert(next.drop_last() =~= self.user_closed@.take(i as int));
            if self.user_closed[i] != id {
                kept.push(self.user_closed[i]);
            }
            i += 1;
        }
        assert(self.user_closed@.take(self.user_closed@.len() as int) =~= self.user_closed@);
        proof {
            lemma_without(self.user_closed@, id);
        }
        self.user_closed = kept;
        set_gesture_tab(doc, tab);
        id
    }

    /// Remembers that a stream's tab was closed.
    pub fn close_stream_tab(&mut self, id: u64)
        ensures
            *final(self) == (ReviewPane { user_closed: final(self).user_closed, ..*old(self) }),
            final(self).user_closed@ == (if old(self).user_closed@.contains(id) {
                old(self).user_closed@
            } else {
                old(self).user_closed@.push(id)
            }),
    {
        let mut i: usize = 0;
        while i < self.user_closed.len()
            invariant
                i <= self.user_closed@.len(),
                forall|k: int| 0 <= k < i ==> self.user_closed@[k] != id,
                *self == *old(self),
            decreases self.user_closed.len() - i,
        {
            if self.user_closed[i] == id {
                assert(self.user_closed@.contains(id));
                return;
            }
            i += 1;
        }
        self.user_closed.push(id);
    }

    /// Opens the settings, beside the streams.
    pub fn open_settings_tab(&self, docked: bool, bars: &Vec<Option<u64>>) -> (tab: OpenTab)
        ensures
            tab == opened_tab(live_id("settings_tab"@), docked, bars@),
    {
        open_dock_tab(id_of("settings_tab"), docked, bars)
    }

    /// Opens the tab of a file, beside the streams, and goes to it. A file that
    /// is open already is selected: the id of its tab is the file's.
    pub fn open_file_tab(
        &self,
        doc: &mut ReviewDoc,
        id: u64,
        docked: bool,
        bars: &Vec<Option<u64>>,
    ) -> (tab: OpenTab)
        ensures
            tab == opened_tab(id, docked, bars@),
            ({
                let to = Tab::File(id);
                &&& old(doc).tab == to ==> *final(doc) == *old(doc)
                &&& old(doc).tab != to ==> final(doc).compose_draft@.len() == 0 && *final(doc) == (
                ReviewDoc {
                    tab: to,
                    compose: None,
                    compose_draft: final(doc).compose_draft,
                    ..*old(doc)
                })
            }),
    {
        let tab = open_dock_tab(id, docked, bars);
        set_gesture_tab(doc, Tab::File(id));
        tab
    }

    /// What the shell of a terminal starts with. `full` is the directory as it
    /// is written in full, so that what the shell is told stays right after it
    /// has gone elsewhere.
    pub fn open_terminal(&self, doc: &ReviewDoc, window: &str, full: Option<String>) -> (start:
        TerminalStart)
        ensures
            start.cwd@ == start_in(doc, full),
            env_view(start.env@) == terminal_env_of(window@, start.cwd@, doc.base@, doc.head@),
    {
        let cwd = match full {
            Some(path) => path,
            None => terminal_cwd(doc),
        };
        let env = terminal_env(window, cwd.as_str(), doc.base.as_str(), doc.head.as_str());
        TerminalStart { cwd, env }
    }

    /// Starts the permanent terminal's shell, selects its tab and slides the
    /// bottom panel open where it is shut.
    pub fn reveal_terminal(
        &self,
        doc: &ReviewDoc,
        window: &str,
        full: Option<String>,
        current: Option<i64>,
    ) -> (r: (TerminalStart, u64, Option<i64>))
        ensures
            r.0.cwd@ == start_in(doc, full),
            env_view(r.0.env@) == terminal_env_of(window@, r.0.cwd@, doc.base@, doc.head@),
            r.1 == live_id("terminal_tab"@),
            r.2 == (match current {
                Some(size) => if size > PANEL_SHUT {
                    None
                } else {
                    Some(self.reopen_size(Panel::Bottom))
                },
                None => None,
            }),
    {
        let start = self.open_terminal(doc, window, full);
        let slide_to = self.reveal_bottom_panel(current);
        (start, id_of("terminal_tab"), slide_to)
    }

    /// Begins to slide a panel: from the size it has, where it is laid out.
    pub fn start_slide(&self, panel: Panel, current: Option<i64>, to: i64) -> (slide: Slide)
        ensures
            slide.panel == panel,
            slide.from == (match current {
                Some(size) => size,
                None => to,
            }),
            slide.to == (if to > 0 {
                to
            } else {
                0
            }),
    {
        let from: i64 = match current {
            Some(size) => size,
            None => to,
        };
        Slide {
            panel,
            from,
            to: if to > 0 {
                to
            } else {
                0
            },
        }
    }
}

/// What staging asks of a repository.
#[derive(Debug)]
pub struct StageRequest {
    pub git_dir: String,
    pub workdir: String,
}

/// The hunks that were seen are staged where there is a worktree to stage from.
pub fn stage_seen_hunks(doc: &ReviewDoc) -> (request: Option<StageRequest>)
    ensures
        (match request {
            Some(r) => doc.git_dir matches Some(git_dir) && doc.workdir matches Some(workdir)
                && r.git_dir@ == git_dir@ && r.workdir@ == workdir@,
            None => doc.git_dir is None || doc.workdir is None,
        }),
{
    match (&doc.git_dir, &doc.workdir) {
        (Some(git_dir), Some(workdir)) => Some(
            StageRequest { git_dir: git_dir.clone(), workdir: workdir.clone() },
        ),
        _ => None,
    }
}

/// Entering a range loads it from the repository that is open, and so does a
/// row; a repository that is chosen is loaded with the range that is open, or
/// with the default one where none is.
pub proof fn a_choice_is_loaded(
    shown: bool,
    doc: &ReviewDoc,
    text: String,
    recents: Seq<Seq<char>>,
    row: usize,
)
    ensures
        typed(text@) matches Some((base, head)) ==> diff_step(
            shown,
            doc,
            DiffPickerEvent::Returned(text),
        ) == StepView::Load(doc.repo@, base, head),
        typed(text@) is None ==> diff_step(shown, doc, DiffPickerEvent::Returned(text))
            is Closed,
        split_row(text@) matches Some((base, head)) ==> diff_step(
            shown,
            doc,
            DiffPickerEvent::RowClicked(text),
        ) == StepView::Load(doc.repo@, base, head),
        diff_step(shown, doc, DiffPickerEvent::Escaped) is Closed,
        doc.base@.len() > 0 ==> repo_step(shown, recents, doc, RepoPickerEvent::Reload)
            == StepView::Load(doc.repo@, doc.base@, doc.head@),
        doc.base@.len() == 0 ==> repo_step(shown, recents, doc, RepoPickerEvent::Reload)
            == StepView::Load(doc.repo@, "HEAD~5"@, "HEAD"@),
        doc.base@.len() > 0 && row < recents.len() && row < REPO_ROWS ==> repo_step(
            shown,
            recents,
            doc,
            RepoPickerEvent::RowClicked(row),
        ) == StepView::Load(recents[row as int], doc.base@, doc.head@),
        doc.base@.len() == 0 && row < recents.len() && row < REPO_ROWS ==> repo_step(
            shown,
            recents,
            doc,
            RepoPickerEvent::RowClicked(row),
        ) == StepView::Load(recents[row as int], "HEAD~5"@, "HEAD"@),
{
}

/// A picker's button opens it and closes it again; opened, the diff picker lists
/// what a blank query matches, and the repo picker the recent repositories from
/// the most recent on, as many as there are slots.
pub proof fn a_button_opens_and_closes(doc: &ReviewDoc, recents: Seq<Seq<char>>, i: int)
    ensures
        diff_step(true, doc, DiffPickerEvent::Toggled) is Closed,
        diff_step(false, doc, DiffPickerEvent::Toggled) == StepView::Opened(
            at_most(matching(views(doc.refs@), ""@), COMBO_ROWS as int),
        ),
        repo_step(true, recents, doc, RepoPickerEvent::Toggled) is Closed,
        repo_step(false, recents, doc, RepoPickerEvent::Toggled) == StepView::Opened(
            repo_rows(recents),
        ),
        repo_rows(recents).len() <= REPO_ROWS && repo_rows(recents).len() <= recents.len(),
        repo_rows(recents).len() == REPO_ROWS || repo_rows(recents).len() == recents.len(),
        0 <= i < repo_rows(recents).len() ==> repo_rows(recents)[i] == recent_label(recents[i]),
{
}

/// Opening a stream's tab again forgets that it was closed, and forgets nothing
/// else.
pub proof fn reopening_forgets_one_tab(ids: Seq<u64>, id: u64, other: u64)
    ensures
        !ids_without(ids, id).contains(id),
        other != id ==> (ids_without(ids, id).contains(other) <==> ids.contains(other)),
    decreases ids.len(),
{
    lemma_without(ids, id);
    if ids.len() > 0 && other != id {
        let rest = ids.drop_last();
        let before = ids_without(rest, id);
        let after = ids_without(ids, id);
        reopening_forgets_one_tab(rest, id, other);
        assert(ids[ids.len() - 1] == ids.last());
        if ids.contains(other) {
            let i = choose|i: int| 0 <= i < ids.len() && ids[i] == other;
            if i < rest.len() {
                assert(rest[i] == other);
                let k = choose|k: int| 0 <= k < before.len() && before[k] == other;
                assert(after[k] == other);
            } else {
                assert(after[after.len() - 1] == other);
            }
        }
        if after.contains(other) {
            let k = choose|k: int| 0 <= k < after.len() && after[k] == other;
            if k < before.len() {
                assert(before[k] == other);
                let i = choose|i: int| 0 <= i < rest.len() && rest[i] == other;
                assert(ids[i] == other);
            }
        }
    }
}

/// A tab that is opened is selected, and made only where it is not there.
pub proof fn an_opened_tab_is_selected(id: u64, bars: Seq<Option<u64>>)
    ensures
        opened_tab(id, true, bars).select == id,
        opened_tab(id, true, bars).create_in is None,
        opened_tab(id, false, bars).select == id,
        opened_tab(id, false, bars).create_in == Some(bar_of(bars)),
{
}

} // verus!
