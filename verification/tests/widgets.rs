use concats::diff::{Blob, KeySet, LineKey, LineKind, Oid, PathSet, Row};
use concats::review_doc::{Caret, Compose, Composing, FileView, ReviewDoc, Side, Tab};
use concats::widgets::cards::CardIndex;
use concats::widgets::caret::{
    adopt_list_selection, after_replace, caret_edit, caret_focused, caret_keys, caret_text,
    closer_for, delete_forward, land_on, Deletion, next_boundary, previous_boundary, replace, seek_caret,
    step_back, step_caret, step_over, undo_at, Edit, KeyCode, KeyPress, Typing,
};
use concats::widgets::collapsed_run::{CollapsedEnd, CollapsedRun, RunEvent, BAND};
use concats::widgets::compose::{
    anchor_of, close_composer, compose_drag, compose_open, compose_start, drag_to, post_comment,
    reply_to_comment_at, set_gesture_tab, stream_has_composer, take_focus, Posting, Pressed,
};
use concats::widgets::diff_line::{CaretEdge, DiffLine, Span};
use concats::widgets::dock::{
    bar_for_new_tab, close_file_tab, every_stream, fixed_tabs, model_tab_of, open_tabs,
    stream_tab_id, tab_close_pressed, tab_pressed, TabClose, TabPress,
};
use concats::widgets::find_bar::{
    apply_settings, find_keys, handle_find, open_find, save, FindAction, FindEvent, SaveRoute,
};
use concats::widgets::folding::{entry_of, map_folded, remapped, row_at};
use concats::widgets::gutter::{Gutter, GutterAction, Marker, PointerEvent, RailDrawing};
use concats::widgets::pickers::{
    stage_seen_hunks, DiffPickerEvent, PickerStep, RepoPickerEvent,
};
use concats::widgets::review_list::{
    draws_own_spans, header_stat, header_title, outdated_label, reaches_code, tab_of, Item, ListKind, ReviewList,
    ReviewState, RowContext, RowSelection,
};
use concats::widgets::review_pane::{
    card_keys, chrome_action, combo_filter, comment_to_delete, current_range, filter_refs,
    mirror_draft,
    panel_size, recent_name, route_item, row_range, show_recents, sticky_actions, terminal_cwd,
    terminal_env, titled_tabs, toggle_card_fold, toggle_card_outdated, typed_range, ChromeAction,
    ChromeButton, FieldEvent, PaneAction, Panel, ReviewItemAction, ReviewPane, StickyEvents,
    WidgetEvent, BOTTOM_DEFAULT,
};
use concats::widgets::seen_bar::SeenBar;
use makepad_live_id::LiveId;

const OID: Oid = Oid { hi: 3, lo: 3 };

fn header(path: &str) -> Row {
    Row::FileHeader { path: path.to_string(), adds: 2, dels: 1, from: None, similarity: None }
}

fn code(line: u32) -> Row {
    Row::Code {
        kind: LineKind::Add,
        old_no: None,
        new_no: Some(line + 1),
        blob: 0,
        line,
    }
}

fn key(line: u32) -> LineKey {
    LineKey { oid: OID, line }
}

/// Two cards: one of two code rows, one of one.
fn rows() -> Vec<Row> {
    vec![
        Row::Title { text: "Files".to_string() },
        header("a.rs"),
        code(0),
        code(1),
        Row::HunkBar { keys: vec![key(0), key(1)] },
        Row::CardEnd,
        header("b.rs"),
        code(2),
        Row::HunkBar { keys: vec![key(2)] },
        Row::CardEnd,
    ]
}

fn doc() -> ReviewDoc {
    let mut doc = ReviewDoc::default();
    doc.repo = "/repo".to_string();
    doc.git_dir = Some("/repo/.git".to_string());
    doc.files_rows = rows();
    doc.tab = Tab::Files;
    doc.blobs.push(Blob {
        oid: OID,
        label: "a.rs".to_string(),
        edit_rev: 0,
        editable: true,
        text: "  one\ntwo é\nend\n".to_string(),
        lines: vec!["  one".to_string(), "two é".to_string(), "end".to_string()],
        line_starts: vec![0, 6, 13],
    });
    doc
}

fn at(line: u32, byte: u32) -> Caret {
    Caret { blob: 0, line, byte }
}

fn press(code: KeyCode) -> KeyPress {
    KeyPress { code, shift: false, logo: false, control: false }
}

#[test]
fn cards_stand_in_sequence() {
    let mut index = CardIndex::new();
    index.rebuild(&rows());
    let ends: Vec<(usize, usize)> = index.cards.iter().map(|c| (c.header, c.end)).collect();
    assert_eq!(ends, [(1, 5), (6, 9)]);
    assert_eq!(index.cards[0].keys, [key(0), key(1)]);
    assert_eq!(index.containing(3), Some(0));
    assert_eq!(index.containing(9), Some(1));
    assert_eq!(index.containing(0), None);
    assert_eq!(index.at(6), Some(1));
    assert_eq!(index.at(7), None);
    index.update_seen(&KeySet::from_keys(&vec![key(0)]));
    assert!(index.cards[0].any_seen && !index.cards[0].all_seen);
    index.update_seen(&KeySet::from_keys(&vec![key(1), key(0)]));
    assert!(index.cards[0].all_seen && !index.cards[1].any_seen);
}

#[test]
fn a_folded_card_keeps_its_ends() {
    let mut folded = PathSet::new();
    folded.insert("a.rs");
    let visible = map_folded(&rows(), &folded);
    assert_eq!(visible, [0, 1, 5, 6, 7, 8, 9]);
    assert_eq!(row_at(&visible, 2), Some(5));
    assert_eq!(row_at(&visible, 7), None);
    assert_eq!(entry_of(&visible, 5), Some(2));
    assert_eq!(entry_of(&visible, 3), None);
    assert_eq!(remapped(&visible, 7), 4);
    for (entry, row) in visible.iter().enumerate() {
        assert_eq!(entry_of(&visible, *row), Some(entry));
    }
    // Nothing folded maps every row to itself.
    let all = map_folded(&rows(), &PathSet::new());
    for r in 0..rows().len() {
        assert_eq!(row_at(&all, r), Some(r));
        assert_eq!(entry_of(&all, r), Some(r));
    }
}

#[test]
fn folding_twice_undoes_itself() {
    let mut d = doc();
    toggle_card_fold(&mut d, Tab::Files, 1);
    assert!(d.folded.contains("a.rs"));
    toggle_card_fold(&mut d, Tab::Files, 1);
    assert!(d.folded.is_empty());
    assert!(toggle_card_outdated(&mut d, Tab::Files, 1));
    assert!(d.show_all_comments.contains("a.rs"));
    assert!(!toggle_card_outdated(&mut d, Tab::Files, 2));
    assert_eq!(card_keys(&d, Tab::Files, 1), Some(vec![key(0), key(1)]));
    assert_eq!(comment_to_delete(&d, Tab::Files, 1), None);
}

#[test]
fn a_header_says_what_changed() {
    assert_eq!(header_title("b.rs", &None), "b.rs");
    assert_eq!(header_title("b.rs", &Some("a.rs".to_string())), "a.rs  →  b.rs");
    assert_eq!(header_stat(2, 1, None, false), "+2 -1");
    assert_eq!(header_stat(2, 1, Some(100), false), "renamed, unchanged");
    assert_eq!(header_stat(2, 1, Some(90), true), "partially viewed · renamed 90%   +2 -1");
    assert_eq!(outdated_label(1, false), "1 outdated conversation");
    assert_eq!(outdated_label(2, false), "2 outdated conversations");
    assert_eq!(outdated_label(2, true), "hide outdated");
}

#[test]
fn a_skipped_run_knows_which_ends_reach_code() {
    let rows = vec![header("a.rs"), Row::Collapsed, code(0), Row::CardEnd];
    assert!(!reaches_code(&rows, 1, false));
    assert!(reaches_code(&rows, 2, true));
    assert!(!reaches_code(&rows, 3, true));
}

fn context() -> RowContext {
    RowContext {
        hidden: 0,
        own_gesture: false,
        selection: None,
        prompt: "Comment on line 1".to_string(),
        field_empty: true,
        focus_composer: None,
    }
}

#[test]
fn a_row_paints_the_documents_selection_unless_the_list_has_its_own() {
    let mut d = doc();
    d.generation = 1;
    let review = ReviewState {
        comments_rev: 0,
        seen_rev: 0,
        seen: KeySet::new(),
        commented: KeySet::new(),
    };
    let mut list = ReviewList::new(ListKind::Files);
    list.begin_draw(&d, &review, Tab::Files, 0);
    let painted = |context: RowContext| match list.draw_item(&d, &review, Tab::Files, 2, &context) {
        Some(Item::Code(c)) => c.selection,
        _ => panic!("row 2 is code"),
    };
    assert_eq!(painted(context()), RowSelection::Cleared);
    let selection = Some((1, 3));
    assert_eq!(
        painted(RowContext { selection, ..context() }),
        RowSelection::Over { from: 1, to: 3 }
    );
    assert_eq!(
        painted(RowContext { selection, own_gesture: true, ..context() }),
        RowSelection::Kept
    );
}

#[test]
fn a_composer_that_was_made_anew_gets_its_draft_back() {
    let mut d = doc();
    d.generation = 1;
    d.files_rows.push(Row::Composer);
    let row = d.files_rows.len() - 1;
    d.compose_draft = "so far".to_string();
    let review = ReviewState {
        comments_rev: 0,
        seen_rev: 0,
        seen: KeySet::new(),
        commented: KeySet::new(),
    };
    let list = ReviewList::new(ListKind::Files);
    let composer = |context: RowContext| {
        match list.draw_item(&d, &review, Tab::Files, row, &context) {
            Some(Item::Composer { prompt, draft, focus }) => (prompt, draft, focus),
            _ => panic!("the last row is the composer"),
        }
    };
    let prompt = "Comment on line 1".to_string();
    let draft = Some("so far".to_string());
    assert_eq!(composer(context()), (prompt.clone(), draft.clone(), false));
    assert_eq!(
        composer(RowContext { focus_composer: Some(Tab::Files), ..context() }),
        (prompt.clone(), draft, true)
    );
    assert_eq!(
        composer(RowContext {
            field_empty: false,
            focus_composer: Some(Tab::Guide),
            ..context()
        }),
        (prompt, None, false)
    );
}

#[test]
fn a_list_draws_the_rows_of_its_tab() {
    let mut d = doc();
    d.generation = 1;
    let review = ReviewState {
        comments_rev: 0,
        seen_rev: 0,
        seen: KeySet::from_keys(&vec![key(0)]),
        commented: KeySet::new(),
    };
    let mut list = ReviewList::new(ListKind::Files);
    let tab = tab_of(ListKind::Files, &vec![], &vec![]);
    assert_eq!(tab, Tab::Files);
    let plan = list.begin_draw(&d, &review, tab, 0);
    assert_eq!(plan.entries, 10);
    match list.draw_item(&d, &review, tab, 1, &context()) {
        Some(Item::FileHeader(h)) => {
            assert_eq!(h.title, "a.rs");
            assert_eq!(h.stat, "partially viewed · +2 -1");
            assert!(!h.folded && !h.seen);
        }
        _ => panic!("row 1 is a header"),
    }
    match list.draw_item(&d, &review, tab, 2, &context()) {
        Some(Item::Code(c)) => assert!(c.seen && !c.commented && c.caret.is_none()),
        _ => panic!("row 2 is code"),
    }
    assert!(list.draw_item(&d, &review, tab, 10, &context()).is_none());
    assert_eq!(list.pin(&d, tab, 3), (Some(1), Some(5)));
    assert!(!list.request_highlight(0, 0, true, true));
    assert!(!list.request_highlight(0, 0, false, false));
    assert!(list.request_highlight(0, 0, false, true));
    assert!(!list.request_highlight(0, 0, false, true));
    assert!(list.request_highlight(0, 1, false, true));
}

#[test]
fn boundaries_step_over_whole_letters() {
    let text = "aé!";
    assert_eq!(next_boundary(text, 0), Some(1));
    assert_eq!(next_boundary(text, 1), Some(3));
    assert_eq!(next_boundary(text, 4), None);
    assert_eq!(previous_boundary(text, 3), Some(1));
    assert_eq!(previous_boundary(text, 0), None);
}

#[test]
fn the_caret_moves_within_and_between_lines() {
    let mut d = doc();
    d.caret = Some(at(1, 4));
    assert!(caret_keys(&mut d, Tab::Files, press(KeyCode::Right), Some(2), Some(7)));
    assert_eq!(d.caret, Some(at(1, 6)));
    assert!(caret_keys(&mut d, Tab::Files, press(KeyCode::Left), Some(2), Some(7)));
    assert_eq!(d.caret, Some(at(1, 4)));
    assert!(caret_keys(&mut d, Tab::Files, press(KeyCode::Up), Some(2), Some(7)));
    assert_eq!(d.caret, Some(at(0, 4)));
    let mut extend = press(KeyCode::End);
    extend.shift = true;
    assert!(caret_keys(&mut d, Tab::Files, extend, None, Some(3)));
    assert_eq!(d.caret, Some(at(0, 5)));
    assert_eq!(d.selection_anchor, Some(at(0, 4)));
    assert!(!caret_keys(&mut d, Tab::Files, press(KeyCode::Up), None, None));
    assert_eq!(d.selection_anchor, None);
    assert_eq!(land_on(&d, Tab::Files, Some(2), 99), Some(at(0, 5)));
    assert_eq!(land_on(&d, Tab::Files, Some(1), 0), None);
}

#[test]
fn a_gesture_places_the_caret_and_its_anchor() {
    let mut d = doc();
    d.tab = Tab::Guide;
    let mut list = ReviewList::new(ListKind::Files);
    assert!(adopt_list_selection(&list, &mut d, Tab::Files, (2, 1), (3, 2)));
    assert_eq!(d.caret, Some(at(1, 2)));
    assert_eq!(d.selection_anchor, Some(at(0, 1)));
    assert_eq!(d.tab, Tab::Files);
    assert!(adopt_list_selection(&list, &mut d, Tab::Files, (2, 1), (2, 1)));
    assert_eq!((d.caret, d.selection_anchor), (Some(at(0, 1)), None));
    assert!(!caret_focused(&list, &d, true, true));
    list.drawn_tab = Some(Tab::Files);
    assert!(caret_focused(&list, &d, true, true));
    assert!(!caret_focused(&list, &d, true, false));
    assert!(step_caret(&mut d, Tab::Files, at(0, 3), Some(7)));
    assert_eq!(d.caret, Some(at(2, 3)));
    assert!(!step_caret(&mut d, Tab::Files, at(0, 3), None));
    // A press on a row that is no code takes the caret away.
    assert!(!adopt_list_selection(&list, &mut d, Tab::Files, (1, 0), (1, 0)));
    assert_eq!(d.caret, None);
}

#[test]
fn keys_that_change_text_say_how() {
    let mut d = doc();
    d.caret = Some(at(0, 5));
    assert!(matches!(
        caret_edit(&d, press(KeyCode::Return)),
        Some(Edit::Type { text, back: 0 }) if text == "\n  "
    ));
    assert!(matches!(
        caret_edit(&d, press(KeyCode::Backspace)),
        Some(Edit::Type { text, back: 1 }) if text.is_empty()
    ));
    assert!(matches!(caret_edit(&d, press(KeyCode::Delete)), Some(Edit::DeleteForward)));
    assert!(caret_edit(&d, press(KeyCode::Z)).is_none());
    let mut undo = press(KeyCode::Z);
    undo.control = true;
    assert!(matches!(caret_edit(&d, undo), Some(Edit::Undo { redo: false })));
    let mut put = press(KeyCode::S);
    put.logo = true;
    assert!(matches!(caret_edit(&d, put), Some(Edit::Save)));
}

#[test]
fn an_opening_delimiter_brings_its_closer() {
    assert_eq!(closer_for("("), Some(")"));
    assert_eq!(closer_for("x"), None);
    let mut d = doc();
    d.caret = Some(at(0, 5));
    assert!(matches!(
        caret_text(&d, "["),
        Typing::Type { text, then_back: 1 } if text == "[]"
    ));
    d.blobs[0].lines[0] = "  one)".to_string();
    d.blobs[0].text = "  one)\ntwo é\nend\n".to_string();
    d.blobs[0].line_starts = vec![0, 7, 14];
    assert!(matches!(caret_text(&d, ")"), Typing::StepOver));
    step_over(&mut d);
    assert_eq!(d.caret, Some(at(0, 6)));
    step_back(&mut d, 2);
    assert_eq!(d.caret, Some(at(0, 4)));
}

#[test]
fn the_caret_goes_where_the_text_changed() {
    let mut d = doc();
    d.caret = Some(at(0, 0));
    assert_eq!(delete_forward(&d, false), Deletion::Bytes { start: 0, end: 1 });
    assert_eq!(delete_forward(&d, true), Deletion::Selection);
    assert!(undo_at(&mut d, Some(7)));
    assert_eq!(d.caret, Some(at(1, 1)));
    assert!(!undo_at(&mut d, None));
    d.caret = Some(at(0, 0));
    seek_caret(&mut d, "END", false);
    assert_eq!(d.caret.map(|c| c.line), Some(2));
    assert_eq!(replace(&d, "e", true), [(13, 14), (4, 5)]);
    after_replace(&mut d);
    assert!(d.caret.is_some());
}

#[test]
fn a_press_on_a_band_names_its_end() {
    let mut run = CollapsedRun::new();
    run.set_ends(true, true);
    assert_eq!(run.height(), 2 * BAND);
    assert_eq!(run.rule_y(), BAND - 1_000);
    for end in [CollapsedEnd::Head, CollapsedEnd::Tail] {
        assert_eq!(run.end_at(run.band_y(end)), Some(end));
    }
    assert_eq!(
        run.handle_event(RunEvent::Down { primary: true, y: run.band_y(CollapsedEnd::Tail) }),
        Some(CollapsedEnd::Tail)
    );
    assert_eq!(run.handle_event(RunEvent::Down { primary: false, y: 0 }), None);
    assert_eq!(run.handle_event(RunEvent::Hover { y: 0 }), None);
    assert!(run.hover.is_some());
    run.handle_event(RunEvent::HoverOut);
    assert!(run.hover.is_none());
}

#[test]
fn widening_keeps_the_selection() {
    let mut d = doc();
    assert!(matches!(compose_start(&mut d, 2, 0, 0), Pressed::Started));
    assert!(compose_open(&mut d));
    assert!(d.compose_focus);
    assert!(compose_drag(&d, 3).is_some());
    assert!(matches!(compose_start(&mut d, 1, 0, 0), Pressed::Ignored));
    // Once the composer stands in the stream, a press widens what is selected.
    d.files_rows.insert(4, Row::Composer);
    assert!(matches!(compose_start(&mut d, 3, 0, 1), Pressed::Widened));
    match &d.compose {
        Some(Composing::Lines(c)) => {
            assert_eq!(c.new, Some(Side { blob: 0, start: 0, end: 1 }));
        }
        _ => panic!("lines are selected"),
    }
    drag_to(
        &mut d,
        Some(Compose { old: None, new: Some(Side { blob: 0, start: 0, end: 2 }) }),
    );
    let anchor = anchor_of(&d, Side { blob: 0, start: 0, end: 2 });
    assert_eq!((anchor.path.as_str(), anchor.blob), ("a.rs", OID));
    assert_eq!((anchor.start, anchor.end), (0, 2));
    d.compose_draft = " a remark ".to_string();
    match post_comment(&mut d) {
        Posting::Lines { git_dir, selection, body } => {
            assert_eq!(git_dir, "/repo/.git");
            assert_eq!(selection.new, Some(Side { blob: 0, start: 0, end: 2 }));
            assert_eq!(body.trim(), "a remark");
        }
        _ => panic!("a comment on lines is posted"),
    }
}

#[test]
fn an_empty_draft_is_not_posted() {
    let mut d = doc();
    assert!(matches!(post_comment(&mut d), Posting::Ignored | Posting::Dropped));
    d.compose = Some(Composing::Reply(4));
    d.compose_draft = "hello".to_string();
    assert!(matches!(
        post_comment(&mut d),
        Posting::Reply { parent: 4, body, .. } if body == "hello"
    ));
    close_composer(&mut d);
    assert!(d.compose.is_none());
    assert!(!stream_has_composer(&rows()));
    assert!(stream_has_composer(&vec![Row::Composer]));
}

#[test]
fn a_reply_opens_the_composer_once() {
    let mut d = doc();
    d.files_rows.push(Row::Comment {
        id: 7,
        parent: None,
        body: "b".to_string(),
        meta: "m".to_string(),
    });
    assert!(!reply_to_comment_at(&mut d, Tab::Files, 1));
    assert!(reply_to_comment_at(&mut d, Tab::Files, 10));
    assert_eq!(comment_to_delete(&d, Tab::Files, 10), Some(7));
    assert!(matches!(d.compose, Some(Composing::Reply(7))));
    assert!(take_focus(&mut d).is_some());
    assert!(take_focus(&mut d).is_none());
    assert!(set_gesture_tab(&mut d, Tab::Guide));
    assert!(!set_gesture_tab(&mut d, Tab::Guide));
}

#[test]
fn runs_cover_the_line() {
    let mut line = DiffLine::new();
    let spans = vec![Span { start: 2, end: 4, hl: Some(1) }];
    line.set_row(LineKind::Add, "abcdef", &spans, false, Some(1));
    let runs = line.runs();
    assert_eq!(runs.first().unwrap().start, 0);
    assert_eq!(runs.last().unwrap().end, 6);
    for pair in runs.windows(2) {
        assert_eq!(pair[0].end, pair[1].start);
    }
    assert!(matches!(line.caret_edge(1), CaretEdge::Leading { .. }));
    assert!(matches!(line.caret_edge(6), CaretEdge::Trailing { .. }));
    line.selection_set(4, 1);
    assert_eq!(line.selected_range(), Some((1, 4)));
    assert_eq!(line.selection_get_text_for_range(1, 4), "bcd");
    line.selection_select_all();
    assert_eq!(line.selected_range(), Some((0, 6)));
    line.selection_clear();
    assert_eq!(line.selected_range(), None);
    assert_eq!(line.selection_get_full_text(), "abcdef");
    assert_eq!(line.selection_text_len(), 6);
    assert_eq!(line.point_to_index(Some(3), true, false), Some(3));
    assert_eq!(line.point_to_index(None, true, true), Some(6));
    assert_eq!(line.point_to_index(None, false, false), None);
    line.set_hits(vec![(0, 1)]);
    assert_eq!(line.hits, [(0, 1)]);
    assert_eq!(line.sel_text(), "abcdef");
}

fn tab_id(name: &str) -> u64 {
    LiveId::from_str(name).0
}

#[test]
fn tabs_are_known_by_their_ids() {
    let open = vec![77];
    for tab in every_stream(&open) {
        assert_eq!(model_tab_of(stream_tab_id(tab), &open), Some(tab));
    }
    assert_eq!(every_stream(&open).len(), fixed_tabs().len() + 1);
    assert_eq!(model_tab_of(78, &open), None);
    assert_ne!(stream_tab_id(Tab::Files), stream_tab_id(Tab::Guide));
    assert!(matches!(
        tab_pressed(stream_tab_id(Tab::Files), &open, false),
        TabPress::Gesture(Tab::Files)
    ));
    assert!(matches!(tab_pressed(5, &open, true), TabPress::Terminal));
    assert!(matches!(tab_pressed(5, &open, false), TabPress::Ignored));
}

#[test]
fn the_last_stream_and_the_first_terminal_stay() {
    let files = stream_tab_id(Tab::Files);
    let guide = stream_tab_id(Tab::Guide);
    let none = vec![];
    assert!(matches!(tab_close_pressed(files, &none, &vec![files], false), TabClose::Kept));
    assert!(matches!(
        tab_close_pressed(files, &none, &vec![files, guide], false),
        TabClose::Stream
    ));
    assert!(matches!(tab_close_pressed(9, &vec![9], &vec![], false), TabClose::File));
    assert!(matches!(
        tab_close_pressed(tab_id("terminal_tab"), &none, &none, true),
        TabClose::Kept
    ));
    assert!(matches!(tab_close_pressed(12, &none, &none, true), TabClose::Terminal));
    assert!(matches!(
        tab_close_pressed(tab_id("settings_tab"), &none, &none, false),
        TabClose::Settings
    ));
}

#[test]
fn closing_takes_one_file() {
    let mut d = doc();
    for tab in [5, 6] {
        d.files_open.push(FileView { tab, path: format!("f{tab}"), rows: vec![] });
    }
    close_file_tab(&mut d, 5);
    assert_eq!(open_tabs(&d), [6]);
    close_file_tab(&mut d, 5);
    assert_eq!(open_tabs(&d), [6]);
    assert_eq!(bar_for_new_tab(&vec![None, Some(4)]), 4);
}

#[test]
fn the_find_bar_asks_for_what_was_typed() {
    let mut list = ReviewList::new(ListKind::Files);
    open_find(&mut list);
    assert!(list.focus_find);
    assert!(matches!(
        handle_find(&mut list, FindEvent::Changed("abc".to_string())),
        FindAction::Count
    ));
    assert_eq!(list.find.as_deref(), Some("abc"));
    assert!(matches!(
        handle_find(&mut list, FindEvent::Returned { shift: true }),
        FindAction::Seek { back: true }
    ));
    assert!(matches!(
        handle_find(
            &mut list,
            FindEvent::Replaced { with: "x".to_string(), logo: true, control: false }
        ),
        FindAction::Replace { all: true, .. }
    ));
    // Keys are for the list that holds the caret.
    let mut d = doc();
    assert!(!find_keys(&mut list, &d, press(KeyCode::Escape)));
    d.caret = Some(at(0, 0));
    list.drawn_tab = Some(Tab::Files);
    assert!(find_keys(&mut list, &d, press(KeyCode::Escape)));
    assert!(list.find.is_none());
    assert!(!find_keys(&mut list, &d, press(KeyCode::F)));
    let mut command = press(KeyCode::F);
    command.control = true;
    assert!(find_keys(&mut list, &d, command));
    assert_eq!(list.find.as_deref(), Some(""));
}

#[test]
fn a_save_goes_to_the_file_or_to_the_settings() {
    let mut d = doc();
    assert!(matches!(save(&d, false, false), SaveRoute::Refused));
    assert!(matches!(save(&d, true, true), SaveRoute::ApplySettings));
    assert!(matches!(
        save(&d, true, false),
        SaveRoute::Write { git_dir } if git_dir == "/repo/.git"
    ));
    let before = d.rows_rev;
    apply_settings(&mut d, 4, Some("bad"));
    assert!(d.rows_rev >= before);
}

#[test]
fn a_gutter_drags_from_its_line() {
    let mut g = Gutter::new();
    g.set_row(LineKind::Add, None, Some(8), 2, 7, false, true, false);
    assert_eq!(g.number, "    8");
    assert!(matches!(
        g.handle_event(PointerEvent::Down { primary: true, y: 4 }),
        GutterAction::DragStart { blob: 2, line: 7 }
    ));
    assert!(matches!(
        g.handle_event(PointerEvent::Move { y: 9 }),
        GutterAction::DragTo { y: 9 }
    ));
    assert!(matches!(
        g.handle_event(PointerEvent::Up { primary: true }),
        GutterAction::DragEnd
    ));
    assert!(matches!(
        g.handle_event(PointerEvent::Down { primary: false, y: 4 }),
        GutterAction::Nothing
    ));
    assert_eq!(g.marker(), Some(Marker::Wide));
}

#[test]
fn only_a_short_file_is_coloured_as_it_is_drawn() {
    let mut d = doc();
    assert!(draws_own_spans(&d.blobs[0], true));
    assert!(!draws_own_spans(&d.blobs[0], false));
    d.blobs[0].text = "x".repeat(512 * 1024);
    assert!(draws_own_spans(&d.blobs[0], true));
    d.blobs[0].text.push('x');
    assert!(!draws_own_spans(&d.blobs[0], true));
}

#[test]
fn a_rail_is_drawn_by_its_row() {
    let mut g = Gutter::new();
    assert_eq!(
        g.drawing(),
        RailDrawing {
            kind: LineKind::Context,
            selected: false,
            marker: None,
            striped: false,
            plus: false,
        }
    );
    g.set_row(LineKind::Del, Some(12), None, 0, 1, true, false, false);
    g.handle_event(PointerEvent::HoverIn);
    assert_eq!(g.number, "   12");
    assert_eq!(
        g.drawing(),
        RailDrawing {
            kind: LineKind::Del,
            selected: false,
            marker: Some(Marker::Thin),
            striped: true,
            plus: true,
        }
    );
    g.handle_event(PointerEvent::HoverOut);
    g.set_row(LineKind::Add, None, Some(3), 0, 1, true, false, true);
    let drawn = g.drawing();
    assert!(drawn.selected && !drawn.striped && !drawn.plus);
    assert_eq!(drawn.marker, Some(Marker::Wide));
}

fn strings(list: &[&str]) -> Vec<String> {
    list.iter().map(|s| s.to_string()).collect()
}

#[test]
fn refs_are_found_whatever_their_case() {
    let refs = strings(&["Main", "feature/One", "ÉTÉ"]);
    assert_eq!(combo_filter(&refs, "ONE"), ["feature/One"]);
    assert_eq!(combo_filter(&refs, "été"), ["ÉTÉ"]);
    assert_eq!(combo_filter(&refs, "").len(), 3);
    let many: Vec<String> = (0..20).map(|i| format!("r{i}")).collect();
    assert_eq!(combo_filter(&many, "r").len(), 8);
}

#[test]
fn a_recent_is_known_by_its_folder() {
    assert_eq!(recent_name("/a/b"), "b");
    assert_eq!(recent_name("/a/b/"), "b");
    assert_eq!(show_recents(&strings(&["/a/b", "/c"])).len(), 2);
    assert_eq!(show_recents(&strings(&["1", "2", "3", "4", "5", "6"])).len(), 5);
}

#[test]
fn a_range_is_read_as_it_is_typed() {
    let ends = |text: &str| typed_range(text).map(|r| (r.base, r.head));
    let pair = |a: &str, b: &str| Some((a.to_string(), b.to_string()));
    assert_eq!(ends("main...topic"), pair("main", "topic"));
    assert_eq!(ends("main..topic"), pair("main", "topic"));
    assert_eq!(ends(" main "), pair("main", "HEAD"));
    assert_eq!(ends("  "), None);
    assert_eq!(row_range("main...x").map(|r| (r.base, r.head)), pair("main", "x"));
    assert_eq!(row_range("main").map(|r| (r.base, r.head)), pair("main", "HEAD"));
    let r = current_range(&ReviewDoc::default());
    assert_eq!((r.base.as_str(), r.head.as_str()), ("HEAD~5", "HEAD"));
}

#[test]
fn an_item_event_names_its_row() {
    let target = ReviewItemAction::Fold { tab: Tab::Files, row: 4 };
    assert!(matches!(
        route_item(target, WidgetEvent::Clicked),
        Some(PaneAction::ToggleFold { tab: Tab::Files, row: 4 })
    ));
    assert!(route_item(target, WidgetEvent::Other).is_none());
    let run = ReviewItemAction::Expand { tab: Tab::Files, row: 2 };
    assert!(matches!(
        route_item(run, WidgetEvent::Chevron(CollapsedEnd::Head)),
        Some(PaneAction::Expand { row: 2, end: CollapsedEnd::Head, .. })
    ));
    let events = vec![StickyEvents {
        tab: Tab::Files,
        pinned: Some(1),
        seen_changed: true,
        fold_clicked: false,
        outdated_clicked: false,
    }];
    assert!(matches!(
        sticky_actions(&events).as_slice(),
        [PaneAction::ToggleSeen { tab: Tab::Files, row: 1 }]
    ));
}

#[test]
fn the_draft_follows_its_field() {
    let mut d = doc();
    assert!(!mirror_draft(&mut d, FieldEvent::Changed("ab".to_string())));
    assert_eq!(d.compose_draft, "ab");
    assert!(mirror_draft(&mut d, FieldEvent::Returned("abc".to_string())));
    assert_eq!(d.compose_draft, "abc");
}

fn pane() -> ReviewPane {
    ReviewPane {
        bottom_restore: 0,
        sidebar_restore: 0,
        user_closed: vec![],
        next_terminal: 2,
        recents: vec![],
        combo_shown: false,
        repo_shown: false,
        loading: false,
    }
}

#[test]
fn only_one_picker_is_open() {
    let mut d = doc();
    d.refs = strings(&["main", "topic"]);
    let mut p = pane();
    p.set_recents(strings(&["/a/one", "/b/two"]));
    match p.handle_diff_picker(&d, DiffPickerEvent::Toggled) {
        PickerStep::Opened(rows) => assert_eq!(rows, ["main", "topic"]),
        _ => panic!("the picker opens"),
    }
    match p.handle_repo_picker(&d, RepoPickerEvent::Toggled) {
        PickerStep::Opened(rows) => assert_eq!(rows, ["one", "two"]),
        _ => panic!("the picker opens"),
    }
    assert!(p.repo_shown && !p.combo_shown);
    p.combo_open(&d);
    assert!(p.combo_shown && !p.repo_shown);
    assert!(matches!(
        p.handle_diff_picker(&d, DiffPickerEvent::Escaped),
        PickerStep::Closed
    ));
    assert!(!p.combo_shown && !p.repo_shown);
    p.repo_open();
    p.repo_close();
    p.combo_close();
    assert!(!p.combo_shown && !p.repo_shown);
}

#[test]
fn a_picker_loads_what_was_chosen() {
    let mut d = doc();
    d.base = "main".to_string();
    d.head = "HEAD".to_string();
    let mut p = pane();
    p.set_recents(strings(&["/a/one"]));
    let loaded = |step: PickerStep| match step {
        PickerStep::Load(t) => Some((t.repo, t.base, t.head)),
        _ => None,
    };
    let want = |r: &str, b: &str, h: &str| Some((r.to_string(), b.to_string(), h.to_string()));
    p.combo_open(&d);
    let step = p.handle_diff_picker(&d, DiffPickerEvent::Returned("a..b".to_string()));
    assert_eq!(loaded(step), want("/repo", "a", "b"));
    assert!(p.loading && !p.combo_shown);
    p.set_loading(false);
    let step = p.handle_diff_picker(&d, DiffPickerEvent::RowClicked("topic".to_string()));
    assert_eq!(loaded(step), want("/repo", "topic", "HEAD"));
    let step = p.handle_repo_picker(&d, RepoPickerEvent::RowClicked(0));
    assert_eq!(loaded(step), want("/a/one", "main", "HEAD"));
    let step = p.handle_repo_picker(&d, RepoPickerEvent::RowClicked(1));
    assert!(matches!(step, PickerStep::Nothing));
    let step = p.handle_repo_picker(&d, RepoPickerEvent::Reload);
    assert_eq!(loaded(step), want("/repo", "main", "HEAD"));
    assert!(matches!(
        p.handle_repo_picker(&d, RepoPickerEvent::OpenDir),
        PickerStep::Browse
    ));
    let step = p.pick_repo(&d, Some("/c".to_string()));
    assert_eq!(loaded(step), want("/c", "main", "HEAD"));
    assert!(matches!(p.pick_repo(&d, None), PickerStep::Nothing));
    assert!(matches!(
        p.handle_diff_picker(&d, DiffPickerEvent::Returned("  ".to_string())),
        PickerStep::Closed
    ));
}

#[test]
fn refs_are_filtered_as_they_are_lowered() {
    let refs = strings(&["A", "B"]);
    assert_eq!(filter_refs(&refs, &strings(&["x", "y"]), "y"), ["B"]);
    assert_eq!(filter_refs(&refs, &strings(&["x", "y"]), ""), ["A", "B"]);
}

#[test]
fn a_closed_stream_is_opened_again() {
    let mut d = doc();
    let mut p = pane();
    let guide = stream_tab_id(Tab::Guide);
    p.close_stream_tab(guide);
    p.close_stream_tab(guide);
    assert_eq!(p.user_closed, [guide]);
    assert_eq!(p.open_stream_tab(&mut d, Tab::Guide), guide);
    assert!(p.user_closed.is_empty());
    assert_eq!(d.tab, Tab::Guide);
    let tab = p.open_file_tab(&mut d, 9, false, &vec![None, Some(4)]);
    assert_eq!((tab.create_in, tab.select), (Some(4), 9));
    assert_eq!(d.tab, Tab::File(9));
    assert_eq!(p.open_file_tab(&mut d, 9, true, &vec![]).create_in, None);
    let settings = p.open_settings_tab(false, &vec![]);
    assert_eq!(settings.create_in, Some(tab_id("main_tabs")));
    assert_eq!(settings.select, tab_id("settings_tab"));
}

#[test]
fn a_terminal_starts_where_the_repository_is() {
    let d = doc();
    let p = pane();
    assert_eq!(p.open_terminal(&d, "w", None).cwd, "/repo");
    let (start, tab, slide) = p.reveal_terminal(&d, "w", Some("/full".to_string()), Some(0));
    assert_eq!(start.cwd, "/full");
    assert_eq!(start.env[1].value, "/full");
    assert_eq!(tab, tab_id("terminal_tab"));
    assert_eq!(slide, Some(BOTTOM_DEFAULT));
    let s = p.start_slide(Panel::Bottom, None, -5);
    assert_eq!((s.from, s.to), (-5, 0));
    assert!(stage_seen_hunks(&d).is_none());
}

#[test]
fn a_panel_comes_back_to_its_size() {
    let mut pane = pane();
    assert_eq!(pane.restore_size(Panel::Bottom), BOTTOM_DEFAULT);
    let shut = pane.toggle_panel(Panel::Bottom, Some(300_000), 1);
    assert_eq!(shut.slide_to, Some(0));
    let open = pane.toggle_panel(Panel::Bottom, Some(0), 1);
    assert_eq!(open.slide_to, Some(300_000));
    assert_eq!(pane.reveal_bottom_panel(Some(300_000)), None);
    assert_eq!(pane.reveal_bottom_panel(Some(0)), Some(300_000));
    assert!(pane.add_terminal_session().starts_with("Terminal "));
    assert_eq!(panel_size(900_000, 700_000), 200_000);
    assert_eq!(Panel::Bottom.splitter(), tab_id("body_split"));
}

#[test]
fn buttons_of_the_chrome_act() {
    let d = doc();
    assert!(matches!(chrome_action(ChromeButton::Share, &d, true), ChromeAction::HideShare));
    assert!(matches!(
        chrome_action(ChromeButton::Share, &d, false),
        ChromeAction::ShowShare { .. }
    ));
    assert!(matches!(
        chrome_action(ChromeButton::Stream(Tab::Guide), &d, false),
        ChromeAction::OpenStream(Tab::Guide)
    ));
    assert_eq!(titled_tabs(&vec![], 4).contains(&4), false);
}

#[test]
fn a_terminal_knows_its_window() {
    let names = |env: Vec<concats::widgets::review_pane::EnvVar>| -> Vec<(String, String)> {
        env.into_iter().map(|e| (e.name, e.value)).collect()
    };
    let pair = |a: &str, b: &str| (a.to_string(), b.to_string());
    assert_eq!(
        names(terminal_env("w", "/r", "main", "")),
        [
            pair("CONCATS_APP_WINDOW", "w"),
            pair("CONCATS_APP_REPO", "/r"),
            pair("CONCATS_APP_BASE", "main")
        ]
    );
    let mut d = doc();
    assert_eq!(terminal_cwd(&d), "/repo");
    d.repo = String::new();
    assert_eq!(terminal_cwd(&d), ".");
}

#[test]
fn nothing_to_review_leaves_the_bar_empty() {
    let mut bar = SeenBar { seen: 0, total: 0 };
    assert_eq!(bar.share(), (0, 1));
    assert!(bar.set_progress(1, 4));
    assert!(!bar.set_progress(1, 4));
    assert_eq!(bar.share(), (1, 4));
}
