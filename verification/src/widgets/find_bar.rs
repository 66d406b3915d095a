//! The find bar, and saving the buffer that the caret is in.

use crate::diff::Row;
use crate::review_doc::{open_file, ReviewDoc};
use crate::widgets::caret::{KeyCode, KeyPress};
use crate::widgets::review_list::ReviewList;
use vstd::prelude::*;

verus! {

/// The text of an optional string.
pub open spec fn text_of(s: Option<String>) -> Option<Seq<char>> {
    match s {
        Some(s) => Some(s@),
        None => None,
    }
}

/// Whether a list owns the stream that the caret is in. That, and not key
/// focus, decides who opens a search: the composer or the find field itself
/// may hold the focus.
pub open spec fn owns_caret(list: &ReviewList, doc: &ReviewDoc) -> bool {
    doc.caret is Some && list.drawn_tab == Some(doc.tab)
}

/// Opens the find bar, keeping a query that is there, and asks for the keyboard
/// on the next draw.
pub fn open_find(list: &mut ReviewList)
    ensures
        final(list).focus_find,
        text_of(final(list).find) == Some(
            match old(list).find {
                Some(query) => query@,
                None => Seq::empty(),
            },
        ),
        *final(list) == (ReviewList {
            find: final(list).find,
            focus_find: true,
            ..*old(list)
        }),
{
    if list.find.is_none() {
        let query = String::new();
        assert(query@ =~= Seq::empty());
        list.find = Some(query);
    }
    list.focus_find = true;
}

/// Command-F opens the find bar and Escape closes it, in the list that owns the
/// caret's stream. Says whether the key was taken.
pub fn find_keys(list: &mut ReviewList, doc: &ReviewDoc, press: KeyPress) -> (took: bool)
    ensures
        took == (owns_caret(old(list), doc) && (press.code == KeyCode::F && press.command()
            || press.code == KeyCode::Escape && old(list).find is Some)),
        took && press.code == KeyCode::F ==> final(list).focus_find && text_of(final(list).find)
            == Some(
            match old(list).find {
                Some(query) => query@,
                None => Seq::empty(),
            },
        ),
        took && press.code == KeyCode::Escape ==> final(list).find is None
            && final(list).focus_find == old(list).focus_find,
        !took ==> *final(list) == *old(list),
        *final(list) == (ReviewList {
            find: final(list).find,
            focus_find: final(list).focus_find,
            ..*old(list)
        }),
{
    let mine = match list.drawn_tab {
        Some(tab) => doc.caret.is_some() && tab == doc.tab,
        None => false,
    };
    if !mine {
        return false;
    }
    match press.code {
        KeyCode::F => {
            if press.logo || press.control {
                open_find(list);
                true
            } else {
                false
            }
        },
        KeyCode::Escape => {
            if list.find.is_some() {
                list.find = None;
                true
            } else {
                false
            }
        },
        _ => false,
    }
}

/// What happens in the find bar's two fields.
#[derive(Debug)]
pub enum FindEvent {
    /// The query was typed in.
    Changed(String),
    /// Enter in the query field.
    Returned { shift: bool },
    /// Enter in the replacement field.
    Replaced { with: String, logo: bool, control: bool },
}

/// What the list does about it.
#[derive(Debug)]
pub enum FindAction {
    /// Nothing: the bar is closed.
    Ignored,
    /// Tally the hits of the new query.
    Count,
    /// Go to the next hit, or to the one before.
    Seek { back: bool },
    /// Replace the hit the caret is in, or all of them, and tally again.
    Replace { with: String, all: bool },
}

/// The find bar's two fields: the query as it is typed, Enter to walk the
/// matches (with shift backwards), and Enter in the second field to replace
/// (with the command modifier everywhere).
pub fn handle_find(list: &mut ReviewList, event: FindEvent) -> (action: FindAction)
    ensures
        old(list).find is None ==> action is Ignored && *final(list) == *old(list),
        old(list).find is Some ==> (match event {
            FindEvent::Changed(query) => action is Count && text_of(final(list).find) == Some(
                query@,
            ),
            FindEvent::Returned { shift } => action == (FindAction::Seek { back: shift })
                && *final(list) == *old(list),
            FindEvent::Replaced { with, logo, control } => action == (FindAction::Replace {
                with,
                all: logo || control,
            }) && *final(list) == *old(list),
        }),
        *final(list) == (ReviewList { find: final(list).find, ..*old(list) }),
{
    if list.find.is_none() {
        return FindAction::Ignored;
    }
    match event {
        FindEvent::Changed(query) => {
            list.find = Some(query);
            FindAction::Count
        },
        FindEvent::Returned { shift } => FindAction::Seek { back: shift },
        FindEvent::Replaced { with, logo, control } => FindAction::Replace {
            with,
            all: logo || control,
        },
    }
}

/// Where a save goes.
#[derive(Debug)]
pub enum SaveRoute {
    /// There is nothing to save, or nowhere to save it to.
    Refused,
    /// The settings are applied and not just written: text that is not
    /// settings must never reach the file.
    ApplySettings,
    /// The file is written through the store of this repository.
    Write { git_dir: String },
}

/// Where a save goes: nowhere without a plan, to the settings when the plan is
/// for their file, else to the repository of the document.
pub fn save(doc: &ReviewDoc, planned: bool, settings_file: bool) -> (route: SaveRoute)
    ensures
        (match route {
            SaveRoute::Refused => !planned || (!settings_file && doc.git_dir is None),
            SaveRoute::ApplySettings => planned && settings_file,
            SaveRoute::Write { git_dir } => planned && !settings_file && text_of(doc.git_dir)
                == Some(git_dir@),
        }),
{
    if !planned {
        return SaveRoute::Refused;
    }
    if settings_file {
        return SaveRoute::ApplySettings;
    }
    match &doc.git_dir {
        Some(git_dir) => SaveRoute::Write { git_dir: git_dir.clone() },
        None => SaveRoute::Refused,
    }
}

/// The rows that are no warnings.
pub open spec fn without_warnings(rows: Seq<Row>) -> Seq<Row>
    decreases rows.len(),
{
    if rows.len() == 0 {
        Seq::empty()
    } else if rows[0] is Warning {
        without_warnings(rows.drop_first())
    } else {
        seq![rows[0]] + without_warnings(rows.drop_first())
    }
}

/// Takes the warnings out of a stream.
fn drop_warnings(rows: &mut Vec<Row>)
    ensures
        final(rows)@ == without_warnings(old(rows)@),
{
    let mut i: usize = 0;
    assert(rows@.skip(0) =~= rows@);
    assert(rows@.take(0) + without_warnings(rows@.skip(0)) =~= without_warnings(old(rows)@));
    while i < rows.len()
        invariant
            i <= rows.len(),
            rows@.take(i as int) + without_warnings(rows@.skip(i as int)) == without_warnings(
                old(rows)@,
            ),
        decreases rows.len() - i,
    {
        let ghost was = rows@;
        let warning = match &rows[i] {
            Row::Warning { .. } => true,
            _ => false,
        };
        if warning {
            rows.remove(i);
            assert(rows@.take(i as int) =~= was.take(i as int));
            assert(rows@.skip(i as int) =~= was.skip(i as int).drop_first());
        } else {
            assert(was.skip(i as int).drop_first() =~= was.skip(i + 1));
            assert(was.take(i + 1) =~= was.take(i as int) + seq![was[i as int]]);
            assert(was.take(i as int) + without_warnings(was.skip(i as int)) =~= was.take(i + 1)
                + without_warnings(was.skip(i + 1)));
            i += 1;
        }
    }
    assert(rows@.take(i as int) =~= rows@);
    assert(rows@.skip(i as int) =~= Seq::empty());
    assert(rows@.take(i as int) + without_warnings(rows@.skip(i as int)) =~= rows@);
}

/// The rows of the settings tab after a save: without the warnings of earlier
/// ones, and below a warning of this one when the text was not settings.
pub open spec fn settings_rows(rows: Seq<Row>, error: Option<Seq<char>>, after: Seq<Row>) -> bool {
    match error {
        Some(message) => after.len() > 0 && (after[0] matches Row::Warning { text } && text@
            == message) && after.drop_first() == without_warnings(rows),
        None => after == without_warnings(rows),
    }
}

/// Saving the settings: they are parsed first, and `error` is what was wrong
/// with them. It is shown at the top of the settings tab, and the rows are
/// announced as changed.
pub fn apply_settings(doc: &mut ReviewDoc, settings_tab: u64, error: Option<&str>)
    requires
        old(doc).rows_rev < u64::MAX,
    ensures
        final(doc).rows_rev == old(doc).rows_rev + 1,
        *final(doc) == (ReviewDoc {
            rows_rev: final(doc).rows_rev,
            files_open: final(doc).files_open,
            ..*old(doc)
        }),
        final(doc).files_open@.len() == old(doc).files_open@.len(),
        forall|i: int|
            0 <= i < old(doc).files_open@.len() ==> {
                &&& (#[trigger] final(doc).files_open@[i]).tab == old(doc).files_open@[i].tab
                &&& final(doc).files_open@[i].path == old(doc).files_open@[i].path
                &&& if open_file(old(doc).files_open@, settings_tab) == Some(i) {
                    settings_rows(
                        old(doc).files_open@[i].rows@,
                        match error {
                            Some(message) => Some(message@),
                            None => None,
                        },
                        final(doc).files_open@[i].rows@,
                    )
                } else {
                    final(doc).files_open@[i] == old(doc).files_open@[i]
                }
            },
{
    doc.rows_rev = doc.rows_rev + 1;
    let mut i: usize = 0;
    let ghost was = doc.files_open@;
    assert(was.skip(0) =~= was);
    while i < doc.files_open.len()
        invariant
            i <= doc.files_open.len(),
            doc.files_open@ == was,
            was == old(doc).files_open@,
            doc.rows_rev == old(doc).rows_rev + 1,
            *doc == (ReviewDoc { rows_rev: doc.rows_rev, ..*old(doc) }),
            open_file(was, settings_tab) == (match open_file(was.skip(i as int), settings_tab) {
                Some(k) => Some(k + i),
                None => None,
            }),
        decreases doc.files_open.len() - i,
    {
        assert(was.skip(i as int).drop_first() =~= was.skip(i + 1));
        if doc.files_open[i].tab == settings_tab {
            let mut rows: Vec<Row> = Vec::new();
            std::mem::swap(&mut rows, &mut doc.files_open[i].rows);
            drop_warnings(&mut rows);
            let ghost kept = rows@;
            if let Some(message) = error {
                rows.insert(0, Row::Warning { text: message.to_owned() });
                assert(rows@.drop_first() =~= kept);
            }
            doc.files_open[i].rows = rows;
            return;
        }
        i += 1;
    }
}

/// Checking the settings takes the old warnings and nothing else: the rest stays
/// in order, and what is wrong stands over it, where anything is.
pub proof fn old_warnings_are_taken(rows: Seq<Row>)
    ensures
        forall|i: int|
            0 <= i < without_warnings(rows).len() ==> !((#[trigger] without_warnings(rows)[i]) is Warning)
                && rows.contains(without_warnings(rows)[i]),
        forall|i: int|
            0 <= i < rows.len() && !(rows[i] is Warning) ==> without_warnings(rows).contains(
                #[trigger] rows[i],
            ),
        (forall|i: int| 0 <= i < rows.len() ==> !((#[trigger] rows[i]) is Warning))
            ==> without_warnings(rows) == rows,
        rows.len() > 0 ==> without_warnings(rows) == (if rows[0] is Warning {
            Seq::<Row>::empty()
        } else {
            seq![rows[0]]
        }) + without_warnings(rows.drop_first()),
    decreases rows.len(),
{
    let kept = without_warnings(rows);
    if rows.len() > 0 {
        let tail = rows.drop_first();
        let rest = without_warnings(tail);
        old_warnings_are_taken(tail);
        let skip: int = if rows[0] is Warning {
            0
        } else {
            1
        };
        assert(kept =~= (if rows[0] is Warning {
            Seq::<Row>::empty()
        } else {
            seq![rows[0]]
        }) + rest);
        assert forall|i: int| 0 <= i < kept.len() implies !((#[trigger] kept[i]) is Warning)
            && rows.contains(kept[i]) by {
            if i < skip {
                assert(rows[0] == kept[i]);
            } else {
                assert(kept[i] == rest[i - skip]);
                let j = choose|j: int| 0 <= j < tail.len() && tail[j] == rest[i - skip];
                assert(rows[j + 1] == kept[i]);
            }
        }
        assert forall|i: int| 0 <= i < rows.len() && !(rows[i] is Warning) implies kept.contains(
            #[trigger] rows[i],
        ) by {
            if i == 0 {
                assert(kept[0] == rows[0]);
            } else {
                assert(tail[i - 1] == rows[i]);
                assert(rest.contains(tail[i - 1]));
                let k = choose|k: int| 0 <= k < rest.len() && rest[k] == rows[i];
                assert(kept[skip + k] == rows[i]);
            }
        }
        if forall|i: int| 0 <= i < rows.len() ==> !((#[trigger] rows[i]) is Warning) {
            assert forall|i: int| 0 <= i < tail.len() implies !((#[trigger] tail[i]) is Warning) by {
                assert(tail[i] == rows[i + 1]);
            }
            assert(kept =~= rows);
        }
    } else {
        assert(kept =~= rows);
    }
}

/// Settings that are wrong show what is wrong on their first row, and settings
/// that are right show no warning.
pub proof fn settings_show_what_is_wrong(rows: Seq<Row>, error: Seq<char>, after: Seq<Row>)
    ensures
        settings_rows(rows, Some(error), after) ==> after.len() > 0 && (
        after[0] matches Row::Warning { text } && text@ == error),
        settings_rows(rows, None, after) ==> forall|i: int|
            0 <= i < after.len() ==> !((#[trigger] after[i]) is Warning),
        settings_rows(rows, Some(error), after) ==> forall|i: int|
            1 <= i < after.len() ==> !((#[trigger] after[i]) is Warning),
{
    old_warnings_are_taken(rows);
    if settings_rows(rows, Some(error), after) {
        assert forall|i: int| 1 <= i < after.len() implies !((#[trigger] after[i]) is Warning) by {
            assert(after.drop_first()[i - 1] == after[i]);
        }
    }
}

} // verus!
