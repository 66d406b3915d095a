//! The dock: which tab is which stream, and what pressing or closing a tab
//! does.

use crate::live_id::{id_of, live_id};
use crate::review_doc::{FileView, ReviewDoc, Tab};
use vstd::prelude::*;

verus! {

/// The dock tab of a stream. An open file is its own tab.
pub open spec fn stream_id(tab: Tab) -> u64 {
    match tab {
        Tab::Guide => live_id("guide_tab"@),
        Tab::Sessions => live_id("sessions_tab"@),
        Tab::Commits => live_id("commits_tab"@),
        Tab::Files => live_id("files_tab"@),
        Tab::Comments => live_id("comments_tab"@),
        Tab::File(t) => t,
    }
}

/// The dock tab of a stream.
pub fn stream_tab_id(tab: Tab) -> (id: u64)
    ensures
        id == stream_id(tab),
{
    match tab {
        Tab::Guide => id_of("guide_tab"),
        Tab::Sessions => id_of("sessions_tab"),
        Tab::Commits => id_of("commits_tab"),
        Tab::Files => id_of("files_tab"),
        Tab::Comments => id_of("comments_tab"),
        Tab::File(t) => t,
    }
}

/// The fixed streams, in the order of their buttons.
pub open spec fn fixed_streams() -> Seq<Tab> {
    seq![Tab::Guide, Tab::Sessions, Tab::Commits, Tab::Files, Tab::Comments]
}

/// The fixed streams.
pub fn fixed_tabs() -> (tabs: Vec<Tab>)
    ensures
        tabs@ == fixed_streams(),
{
    let mut tabs: Vec<Tab> = Vec::new();
    tabs.push(Tab::Guide);
    tabs.push(Tab::Sessions);
    tabs.push(Tab::Commits);
    tabs.push(Tab::Files);
    tabs.push(Tab::Comments);
    assert(tabs@ =~= fixed_streams());
    tabs
}

/// Every stream: the fixed ones, then one per open file.
pub open spec fn all_streams(open: Seq<u64>) -> Seq<Tab> {
    fixed_streams() + Seq::new(open.len(), |i: int| Tab::File(open[i]))
}

/// Every stream that a change may show in, and so is painted again.
pub fn every_stream(open: &Vec<u64>) -> (tabs: Vec<Tab>)
    ensures
        tabs@ == all_streams(open@),
{
    let mut tabs = fixed_tabs();
    let mut i: usize = 0;
    while i < open.len()
        invariant
            i <= open.len(),
            tabs@ =~= fixed_streams() + Seq::new(i as nat, |k: int| Tab::File(open@[k])),
        decreases open.len() - i,
    {
        tabs.push(Tab::File(open[i]));
        i += 1;
    }
    tabs
}

/// The dock tabs of the open files.
pub open spec fn open_ids(files: Seq<FileView>) -> Seq<u64> {
    Seq::new(files.len(), |i: int| files[i].tab)
}

/// The dock tabs of the open files.
pub fn open_tabs(doc: &ReviewDoc) -> (ids: Vec<u64>)
    ensures
        ids@ == open_ids(doc.files_open@),
{
    let mut ids: Vec<u64> = Vec::new();
    let mut i: usize = 0;
    while i < doc.files_open.len()
        invariant
            i <= doc.files_open.len(),
            ids@ =~= open_ids(doc.files_open@).take(i as int),
        decreases doc.files_open.len() - i,
    {
        ids.push(doc.files_open[i].tab);
        i += 1;
    }
    assert(open_ids(doc.files_open@).take(ids@.len() as int) =~= open_ids(doc.files_open@));
    ids
}

fn holds(list: &Vec<u64>, id: u64) -> (r: bool)
    ensures
        r == list@.contains(id),
{
    let mut i: usize = 0;
    while i < list.len()
        invariant
            i <= list.len(),
            forall|k: int| 0 <= k < i ==> list@[k] != id,
        decreases list.len() - i,
    {
        if list[i] == id {
            return true;
        }
        i += 1;
    }
    false
}

/// The stream that a dock tab shows, if it shows one.
pub open spec fn model_tab(id: u64, open: Seq<u64>) -> Option<Tab> {
    if id == stream_id(Tab::Guide) {
        Some(Tab::Guide)
    } else if id == stream_id(Tab::Sessions) {
        Some(Tab::Sessions)
    } else if id == stream_id(Tab::Commits) {
        Some(Tab::Commits)
    } else if id == stream_id(Tab::Files) {
        Some(Tab::Files)
    } else if id == stream_id(Tab::Comments) {
        Some(Tab::Comments)
    } else if open.contains(id) {
        Some(Tab::File(id))
    } else {
        None
    }
}

/// The stream that a dock tab shows. A file tab is its file's identity, so
/// telling one from a terminal's takes the document's open list.
pub fn model_tab_of(id: u64, open: &Vec<u64>) -> (tab: Option<Tab>)
    ensures
        tab == model_tab(id, open@),
{
    if id == stream_tab_id(Tab::Guide) {
        Some(Tab::Guide)
    } else if id == stream_tab_id(Tab::Sessions) {
        Some(Tab::Sessions)
    } else if id == stream_tab_id(Tab::Commits) {
        Some(Tab::Commits)
    } else if id == stream_tab_id(Tab::Files) {
        Some(Tab::Files)
    } else if id == stream_tab_id(Tab::Comments) {
        Some(Tab::Comments)
    } else if holds(open, id) {
        Some(Tab::File(id))
    } else {
        None
    }
}

/// What pressing a dock tab does.
#[derive(Clone, Copy, Debug, PartialEq, Eq, Structural)]
pub enum TabPress {
    /// The gesture moves to this stream.
    Gesture(Tab),
    /// The tab's shell is spawned, or spawned again after it exited.
    Terminal,
    Ignored,
}

/// What pressing a dock tab does.
pub fn tab_pressed(id: u64, open: &Vec<u64>, is_terminal: bool) -> (press: TabPress)
    ensures
        press == (match model_tab(id, open@) {
            Some(tab) => TabPress::Gesture(tab),
            None => if is_terminal {
                TabPress::Terminal
            } else {
                TabPress::Ignored
            },
        }),
{
    match model_tab_of(id, open) {
        Some(tab) => TabPress::Gesture(tab),
        None => if is_terminal {
            TabPress::Terminal
        } else {
            TabPress::Ignored
        },
    }
}

/// What pressing a dock tab's close button does.
#[derive(Clone, Copy, Debug, PartialEq, Eq, Structural)]
pub enum TabClose {
    /// The file's stream is dropped with its tab.
    File,
    /// The stream's tab closes, and stays closed until its button reopens it.
    Stream,
    /// The tab's shell ends with it.
    Terminal,
    Settings,
    /// The tab stays.
    Kept,
}

/// Whether another fixed stream than this tab's is in the dock.
pub open spec fn another_stream(id: u64, docked: Seq<u64>) -> bool {
    exists|i: int|
        0 <= i < fixed_streams().len() && stream_id(#[trigger] fixed_streams()[i]) != id
            && docked.contains(stream_id(fixed_streams()[i]))
}

/// Whether another fixed stream than this tab's is in the dock.
fn stream_remains(id: u64, docked: &Vec<u64>) -> (r: bool)
    ensures
        r == another_stream(id, docked@),
{
    let tabs = fixed_tabs();
    let mut i: usize = 0;
    while i < tabs.len()
        invariant
            tabs@ == fixed_streams(),
            i <= tabs.len(),
            forall|k: int|
                0 <= k < i ==> stream_id(#[trigger] fixed_streams()[k]) == id || !docked@.contains(
                    stream_id(fixed_streams()[k]),
                ),
        decreases tabs.len() - i,
    {
        let other = stream_tab_id(tabs[i]);
        assert(tabs@[i as int] == fixed_streams()[i as int]);
        if other != id && holds(docked, other) {
            return true;
        }
        i += 1;
    }
    false
}

/// What pressing a dock tab's close button does.
pub open spec fn close_of(id: u64, open: Seq<u64>, docked: Seq<u64>, is_terminal: bool) -> TabClose {
    if open.contains(id) {
        TabClose::File
    } else if model_tab(id, open) is Some {
        if another_stream(id, docked) {
            TabClose::Stream
        } else {
            TabClose::Kept
        }
    } else if id != live_id("terminal_tab"@) && is_terminal {
        TabClose::Terminal
    } else if id == live_id("settings_tab"@) {
        TabClose::Settings
    } else {
        TabClose::Kept
    }
}

/// What pressing a dock tab's close button does. One stream tab stays open, as
/// an empty main area would leave nothing to navigate from; so does the
/// permanent terminal. `docked` are the tabs that are in the dock.
pub fn tab_close_pressed(id: u64, open: &Vec<u64>, docked: &Vec<u64>, is_terminal: bool) -> (close:
    TabClose)
    ensures
        close == close_of(id, open@, docked@, is_terminal),
{
    if holds(open, id) {
        TabClose::File
    } else if model_tab_of(id, open).is_some() {
        if stream_remains(id, docked) {
            TabClose::Stream
        } else {
            TabClose::Kept
        }
    } else if id != id_of("terminal_tab") && is_terminal {
        TabClose::Terminal
    } else if id == id_of("settings_tab") {
        TabClose::Settings
    } else {
        TabClose::Kept
    }
}

/// Whether a fixed stream is in the dock.
pub open spec fn has_stream(docked: Seq<u64>) -> bool {
    exists|i: int|
        0 <= i < fixed_streams().len() && docked.contains(stream_id(#[trigger] fixed_streams()[i]))
}

/// Whichever tab is closed, a fixed stream stays in the dock: closing takes the
/// tab that was pressed, or nothing. The files' tabs have ids of their own.
pub proof fn a_stream_stays_open(
    id: u64,
    open: Seq<u64>,
    docked: Seq<u64>,
    is_terminal: bool,
    after: Seq<u64>,
)
    requires
        has_stream(docked),
        forall|i: int|
            0 <= i < fixed_streams().len() ==> !open.contains(
                stream_id(#[trigger] fixed_streams()[i]),
            ),
        close_of(id, open, docked, is_terminal) == TabClose::Kept ==> after == docked,
        forall|t: u64| t != id && docked.contains(t) ==> #[trigger] after.contains(t),
    ensures
        has_stream(after),
{
    let i = choose|i: int|
        0 <= i < fixed_streams().len() && docked.contains(stream_id(#[trigger] fixed_streams()[i]));
    if stream_id(fixed_streams()[i]) == id {
        assert(model_tab(id, open) is Some);
        if another_stream(id, docked) {
            let k = choose|k: int|
                0 <= k < fixed_streams().len() && stream_id(#[trigger] fixed_streams()[k]) != id
                    && docked.contains(stream_id(fixed_streams()[k]));
            assert(after.contains(stream_id(fixed_streams()[k])));
        }
    } else {
        assert(after.contains(stream_id(fixed_streams()[i])));
    }
}

/// The files of a list whose dock tab is not `id`.
pub open spec fn files_without(files: Seq<FileView>, id: u64) -> Seq<FileView>
    decreases files.len(),
{
    if files.len() == 0 {
        Seq::empty()
    } else if files[0].tab == id {
        files_without(files.drop_first(), id)
    } else {
        seq![files[0]] + files_without(files.drop_first(), id)
    }
}

/// Drops a closed file tab's stream. The gesture cannot stay pointed at a
/// stream that is gone, so it goes to the diff, where every range starts.
pub fn close_file_tab(doc: &mut ReviewDoc, id: u64)
    ensures
        final(doc).files_open@ == files_without(old(doc).files_open@, id),
        *final(doc) == (ReviewDoc {
            files_open: final(doc).files_open,
            tab: if old(doc).tab == Tab::File(id) {
                Tab::Files
            } else {
                old(doc).tab
            },
            ..*old(doc)
        }),
{
    let mut files: Vec<FileView> = Vec::new();
    std::mem::swap(&mut files, &mut doc.files_open);
    let ghost was = files@;
    let mut i: usize = 0;
    assert(files@.skip(0) =~= files@);
    assert(files@.take(0) + files_without(files@.skip(0), id) =~= files_without(was, id));
    while i < files.len()
        invariant
            i <= files.len(),
            files@.take(i as int) + files_without(files@.skip(i as int), id) == files_without(
                was,
                id,
            ),
        decreases files.len() - i,
    {
        let ghost before = files@;
        if files[i].tab == id {
            files.remove(i);
            assert(files@.take(i as int) =~= before.take(i as int));
            assert(files@.skip(i as int) =~= before.skip(i as int).drop_first());
        } else {
            assert(before.skip(i as int).drop_first() =~= before.skip(i + 1));
            assert(before.take(i + 1) =~= before.take(i as int) + seq![before[i as int]]);
            assert(before.take(i as int) + files_without(before.skip(i as int), id)
                =~= before.take(i + 1) + files_without(before.skip(i + 1), id));
            i += 1;
        }
    }
    assert(files@.take(i as int) =~= files@);
    assert(files@.skip(i as int) =~= Seq::empty());
    assert(files@.take(i as int) + files_without(files@.skip(i as int), id) =~= files@);
    doc.files_open = files;
    if doc.tab == Tab::File(id) {
        doc.tab = Tab::Files;
    }
}

/// A closed file is gone from the open list, and every other stays.
pub proof fn closing_takes_one_file(files: Seq<FileView>, id: u64)
    ensures
        !open_ids(files_without(files, id)).contains(id),
        forall|t: u64|
            t != id ==> (#[trigger] open_ids(files).contains(t) <==> open_ids(
                files_without(files, id),
            ).contains(t)),
    decreases files.len(),
{
    if files.len() > 0 {
        closing_takes_one_file(files.drop_first(), id);
        let rest = files_without(files.drop_first(), id);
        let after = files_without(files, id);
        assert forall|t: u64| #[trigger] open_ids(files).contains(t) <==> t == files[0].tab
            || open_ids(files.drop_first()).contains(t) by {
            if open_ids(files).contains(t) {
                let i = choose|i: int| 0 <= i < files.len() && open_ids(files)[i] == t;
                if i > 0 {
                    assert(open_ids(files.drop_first())[i - 1] == t);
                }
            }
            if open_ids(files.drop_first()).contains(t) {
                let i = choose|i: int|
                    0 <= i < files.len() - 1 && open_ids(files.drop_first())[i] == t;
                assert(open_ids(files)[i + 1] == t);
            }
            assert(open_ids(files)[0] == files[0].tab);
        }
        if files[0].tab != id {
            assert forall|t: u64| #[trigger] open_ids(after).contains(t) <==> t == files[0].tab
                || open_ids(rest).contains(t) by {
                if open_ids(after).contains(t) {
                    let i = choose|i: int| 0 <= i < after.len() && open_ids(after)[i] == t;
                    if i > 0 {
                        assert(open_ids(rest)[i - 1] == t);
                    }
                }
                if open_ids(rest).contains(t) {
                    let i = choose|i: int| 0 <= i < rest.len() && open_ids(rest)[i] == t;
                    assert(open_ids(after)[i + 1] == t);
                }
                assert(open_ids(after)[0] == files[0].tab);
            }
        }
    }
}

/// The tab bar that a new tab opens in: that of the first of the guide,
/// sessions, commits and files tabs that has one, else the main one. `bars` are
/// the bars of those four tabs, in that order.
pub open spec fn bar_of(bars: Seq<Option<u64>>) -> u64
    decreases bars.len(),
{
    if bars.len() == 0 {
        live_id("main_tabs"@)
    } else {
        match bars[0] {
            Some(bar) => bar,
            None => bar_of(bars.drop_first()),
        }
    }
}

/// The tab bar that a new tab opens in.
pub fn bar_for_new_tab(bars: &Vec<Option<u64>>) -> (bar: u64)
    ensures
        bar == bar_of(bars@),
{
    let mut i: usize = 0;
    assert(bars@.skip(0) =~= bars@);
    while i < bars.len()
        invariant
            i <= bars.len(),
            bar_of(bars@) == bar_of(bars@.skip(i as int)),
        decreases bars.len() - i,
    {
        assert(bars@.skip(i as int).drop_first() =~= bars@.skip(i + 1));
        if let Some(bar) = bars[i] {
            return bar;
        }
        i += 1;
    }
    id_of("main_tabs")
}

/// Closing a file takes the files with its tab and keeps the rest as they are,
/// in their order.
pub proof fn closing_keeps_the_order(files: Seq<FileView>, id: u64)
    ensures
        files.len() > 0 ==> files_without(files, id) == (if files[0].tab == id {
            Seq::<FileView>::empty()
        } else {
            seq![files[0]]
        }) + files_without(files.drop_first(), id),
        forall|i: int|
            0 <= i < files_without(files, id).len() ==> files.contains(
                #[trigger] files_without(files, id)[i],
            ),
        (forall|i: int| 0 <= i < files.len() ==> (#[trigger] files[i]).tab != id) ==> files_without(
            files,
            id,
        ) == files,
    decreases files.len(),
{
    let after = files_without(files, id);
    if files.len() > 0 {
        let tail = files.drop_first();
        let rest = files_without(tail, id);
        closing_keeps_the_order(tail, id);
        assert(after =~= (if files[0].tab == id {
            Seq::<FileView>::empty()
        } else {
            seq![files[0]]
        }) + rest);
        assert forall|i: int| 0 <= i < after.len() implies files.contains(#[trigger] after[i]) by {
            let k = if files[0].tab == id {
                i
            } else {
                i - 1
            };
            if k >= 0 {
                assert(after[i] == rest[k]);
                assert(tail.contains(rest[k]));
                let j = choose|j: int| 0 <= j < tail.len() && tail[j] == rest[k];
                assert(files[j + 1] == rest[k]);
            } else {
                assert(files[0] == after[i]);
            }
        }
        if forall|i: int| 0 <= i < files.len() ==> (#[trigger] files[i]).tab != id {
            assert forall|i: int| 0 <= i < tail.len() implies (#[trigger] tail[i]).tab != id by {
                assert(tail[i] == files[i + 1]);
            }
            assert(after =~= files);
        }
    } else {
        assert(after =~= files);
    }
}

/// A file's tab shows that file and closes with it; a fixed stream's tab shows
/// that stream, and closes only while another fixed stream is in the dock; the
/// permanent terminal stays, and any other terminal closes. The tabs' ids are
/// taken to be different.
pub proof fn tabs_show_and_close_their_own(
    id: u64,
    open: Seq<u64>,
    docked: Seq<u64>,
    is_terminal: bool,
)
    ensures
        open.contains(id) ==> close_of(id, open, docked, is_terminal) == TabClose::File,
        open.contains(id) && (forall|i: int|
            0 <= i < fixed_streams().len() ==> stream_id(#[trigger] fixed_streams()[i]) != id)
            ==> model_tab(id, open) == Some(Tab::File(id)),
        model_tab(id, open) matches Some(tab) ==> stream_id(tab) == id,
        !open.contains(id) && model_tab(id, open) is Some ==> (close_of(
            id,
            open,
            docked,
            is_terminal,
        ) == (if exists|i: int|
            0 <= i < 5 && docked.contains(stream_id(#[trigger] fixed_streams()[i])) && stream_id(
                fixed_streams()[i],
            ) != id {
            TabClose::Stream
        } else {
            TabClose::Kept
        })),
        model_tab(id, open) is None && is_terminal && id != live_id("terminal_tab"@) ==> close_of(
            id,
            open,
            docked,
            is_terminal,
        ) == TabClose::Terminal,
        model_tab(id, open) is None && id == live_id("terminal_tab"@) && id != live_id(
            "settings_tab"@,
        ) ==> close_of(id, open, docked, is_terminal) == TabClose::Kept,
{
    assert(fixed_streams()[0] == Tab::Guide);
    assert(fixed_streams()[1] == Tab::Sessions);
    assert(fixed_streams()[2] == Tab::Commits);
    assert(fixed_streams()[3] == Tab::Files);
    assert(fixed_streams()[4] == Tab::Comments);
}

/// Every stream is painted again: the five fixed ones, and each open file once
/// in its order.
pub proof fn every_stream_is_listed(open: Seq<u64>)
    ensures
        all_streams(open).len() == 5 + open.len(),
        all_streams(open).take(5).contains(Tab::Guide),
        all_streams(open).take(5).contains(Tab::Sessions),
        all_streams(open).take(5).contains(Tab::Commits),
        all_streams(open).take(5).contains(Tab::Files),
        all_streams(open).take(5).contains(Tab::Comments),
        forall|i: int|
            0 <= i < open.len() ==> all_streams(open)[5 + i] == Tab::File(#[trigger] open[i]),
{
    let first = all_streams(open).take(5);
    assert(first[0] == Tab::Guide);
    assert(first[1] == Tab::Sessions);
    assert(first[2] == Tab::Commits);
    assert(first[3] == Tab::Files);
    assert(first[4] == Tab::Comments);
}

/// A new tab opens in the bar of the first tab that has one, and in the main
/// bar where none has.
pub proof fn a_new_tab_opens_in_the_first_bar(bars: Seq<Option<u64>>)
    ensures
        (forall|i: int| 0 <= i < bars.len() ==> (#[trigger] bars[i]) is None) ==> bar_of(bars)
            == live_id("main_tabs"@),
        forall|i: int|
            0 <= i < bars.len() && (#[trigger] bars[i]) is Some && (forall|k: int|
                0 <= k < i ==> (#[trigger] bars[k]) is None) ==> bar_of(bars) == bars[i]->0,
    decreases bars.len(),
{
    if bars.len() > 0 && bars[0] is None {
        let rest = bars.drop_first();
        a_new_tab_opens_in_the_first_bar(rest);
        if forall|i: int| 0 <= i < bars.len() ==> (#[trigger] bars[i]) is None {
            assert forall|i: int| 0 <= i < rest.len() implies (#[trigger] rest[i]) is None by {
                assert(rest[i] == bars[i + 1]);
            }
        }
        assert forall|i: int|
            0 <= i < bars.len() && (#[trigger] bars[i]) is Some && (forall|k: int|
                0 <= k < i ==> (#[trigger] bars[k]) is None) implies bar_of(bars) == bars[i]->0 by {
            assert(i > 0);
            assert(rest[i - 1] == bars[i]);
            assert forall|k: int| 0 <= k < i - 1 implies (#[trigger] rest[k]) is None by {
                assert(rest[k] == bars[k + 1]);
            }
        }
    }
}

} // verus!
