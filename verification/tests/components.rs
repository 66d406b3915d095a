use concats::action::{action_target_tab_id, Action};
use concats::components::agent_picker::{AgentPickerComponent, PickerAgent};
use concats::components::chrome::{status_color, ChromeComponent, ChromeModel};
use concats::components::list_navigation::scroll_list;
use concats::components::sessions::{
    browser_columns, browser_hint, browser_layout, browser_parts, browser_rows, detail_title, item_spans, list_title, session_item, DetailPanel,
    SessionListItem, SessionsBrowserComponent, SessionsPanelFocus, SessionsRequest,
};
use concats::components::static_page::StaticPageComponent;
use concats::components::turns::{
    build_turn_row, preview_of, DiffLine, DiffLineKind, FileDiff, Hunk,
};
use concats::commands::{DiffStatus, TurnEntry};
use concats::diff::Oid;
use concats::geometry::{apply_scroll_delta, Constraint, Rect};
use concats::input::{wheel, KeyCode, KeyEvent, MouseEvent, MouseKind};
use concats::style::Color;
use concats::tabs::{hit_boxes, target_at, ActiveTab, ClickTarget, TabBarEntry};
use concats::timestamp::Timestamp;
use ratatui::buffer::Buffer;
use ratatui::widgets::{StatefulWidget, Widget};
use throbber_widgets_tui::{Throbber, ThrobberState};
use tui_widget_list::{ListBuilder, ListState, ListView};

fn key(code: KeyCode) -> KeyEvent {
    KeyEvent { code, control: false, alt: false, shift: false }
}

fn entries() -> Vec<TabBarEntry> {
    vec![
        TabBarEntry::Session { id: 1, label: "one".into() },
        TabBarEntry::NewButton,
        TabBarEntry::Utility { tab: ActiveTab::Sessions, label: "Sessions" },
    ]
}

#[test]
fn hit_test_uses_session_and_utility_ranges() {
    let mut chrome = ChromeComponent::new();
    chrome.sync(ChromeModel {
        active_tab: ActiveTab::Sessions,
        entries: entries(),
        waiting: false,
        status: "connected".into(),
    });

    assert!(matches!(
        chrome.hit_test(14),
        Some(ClickTarget::SwitchTab(ActiveTab::Session(1)))
    ));
}

#[test]
fn what_is_clicked_is_what_is_drawn() {
    let mut chrome = ChromeComponent::new();
    chrome.sync(ChromeModel {
        active_tab: ActiveTab::Sessions,
        entries: entries(),
        waiting: false,
        status: "connected".into(),
    });
    let drawn: String = chrome.draw().iter().map(|s| s.text.clone()).collect();
    let at = |what: &str| drawn.chars().collect::<Vec<char>>().windows(what.chars().count())
        .position(|w| w.iter().collect::<String>() == what)
        .unwrap() as u16;
    assert!(matches!(
        chrome.hit_test(at("Sessions")),
        Some(ClickTarget::SwitchTab(ActiveTab::Sessions))
    ));
    assert!(matches!(
        chrome.hit_test(at("one")),
        Some(ClickTarget::SwitchTab(ActiveTab::Session(1)))
    ));
    assert!(chrome.hit_test(u16::MAX).is_none());
    let boxes = hit_boxes(&entries(), 5);
    for b in &boxes {
        for x in b.start..b.end {
            assert!(target_at(&entries(), 5, x as u16).is_some());
        }
    }
    assert!(target_at(&entries(), 5, 0).is_none());
}

#[test]
fn a_press_on_the_tab_bar_acts() {
    let mut chrome = ChromeComponent::new();
    chrome.sync(ChromeModel {
        active_tab: ActiveTab::Help,
        entries: entries(),
        waiting: false,
        status: "connected".into(),
    });
    let area = Rect { x: 0, y: 0, width: 80, height: 3 };
    let press = |column: u16, row: u16| MouseEvent { kind: MouseKind::Press, column, row };
    assert!(matches!(
        chrome.handle_mouse_event(press(14, 0), area),
        Some(Action::SwitchTab(ActiveTab::Session(1)))
    ));
    assert!(chrome.handle_mouse_event(press(14, 9), area).is_none());
    let scroll = MouseEvent { kind: MouseKind::ScrollUp, column: 14, row: 0 };
    assert!(chrome.handle_mouse_event(scroll, area).is_none());
    assert_eq!(status_color("connected"), Color::Green);
}

#[test]
fn the_spinner_turns_as_the_outside_one_does() {
    let mut chrome = ChromeComponent::new();
    chrome.sync(ChromeModel {
        active_tab: ActiveTab::Help,
        entries: vec![],
        waiting: true,
        status: String::new(),
    });
    let mut state = ThrobberState::default();
    for _ in 0..300 {
        let line = Throbber::default().label("working").to_line(&state);
        let theirs: String = line.spans.iter().map(|s| s.content.to_string()).collect();
        let ours: String = chrome.draw().iter().map(|s| s.text.clone()).collect();
        assert!(ours.contains(theirs.trim()), "{ours:?} lacks {theirs:?}");
        chrome.update(&Action::Tick);
        state.calc_next();
    }
}

struct DummyWidget {
    height: u16,
}

impl Widget for DummyWidget {
    fn render(self, area: ratatui::layout::Rect, buf: &mut Buffer) {
        for y in area.top()..area.top().saturating_add(self.height).min(area.bottom()) {
            buf[(area.left(), y)].set_symbol("x");
        }
    }
}

fn render_list(state: &mut ListState, area: Rect, item_sizes: &[u16]) {
    let builder = ListBuilder::new(|context| {
        (
            DummyWidget { height: item_sizes[context.index] },
            item_sizes[context.index],
        )
    });
    let list = ListView::new(builder, item_sizes.len()).infinite_scrolling(false);
    let place = ratatui::layout::Rect::new(area.x, area.y, area.width, area.height);
    let mut buf = Buffer::empty(place);
    list.render(place, &mut buf, state);
}

#[test]
fn scrolls_one_row_for_uniform_items() {
    let area = Rect { x: 0, y: 0, width: 10, height: 3 };
    let mut state = ListState::default();
    let item_sizes = [1, 1, 1, 1, 1];

    render_list(&mut state, area, &item_sizes);
    scroll_list(&mut state, area, 1);
    render_list(&mut state, area, &item_sizes);

    assert_eq!(state.scroll_offset_index(), 1);
}

#[test]
fn scrolls_within_large_items() {
    let area = Rect { x: 0, y: 0, width: 10, height: 3 };
    let mut state = ListState::default();
    let item_sizes = [4, 1];

    render_list(&mut state, area, &item_sizes);
    scroll_list(&mut state, area, 1);
    render_list(&mut state, area, &item_sizes);

    assert_eq!(state.scroll_offset_index(), 0);
    assert_eq!(state.scroll_truncation(), 1);
}

#[test]
fn scrolling_stays_among_the_items() {
    let area = Rect { x: 0, y: 0, width: 10, height: 3 };
    let mut state = ListState::default();
    let item_sizes = [1, 1, 1, 1, 1];
    render_list(&mut state, area, &item_sizes);
    for _ in 0..20 {
        scroll_list(&mut state, area, 1);
        render_list(&mut state, area, &item_sizes);
        assert!(state.selected.map_or(true, |i| i < 5));
    }
    for _ in 0..20 {
        scroll_list(&mut state, area, -1);
        render_list(&mut state, area, &item_sizes);
    }
    assert_eq!(state.scroll_offset_index(), 0);
    let before = state.selected;
    scroll_list(&mut state, area, 0);
    assert_eq!(state.selected, before);
}

#[test]
fn refresh_keeps_selection_in_bounds() {
    let mut component = SessionsBrowserComponent::new();
    component.list_state.select(Some(5));
    component.sessions = vec![];
    component.detail = Some(DetailPanel {
        session_index: 0,
        rows: vec![],
        list_state: ListState::default(),
        viewport: Rect::empty(),
    });
    component.focus = SessionsPanelFocus::Detail;

    component.sessions = vec![];
    component.list_state.select(Some(5));
    component.detail = None;
    component.focus = SessionsPanelFocus::List;

    assert_eq!(component.selected_session_index(), 5);
}

fn session(id: &str, seconds: i64) -> SessionListItem {
    SessionListItem {
        id: id.to_string(),
        name: None,
        tip: Oid { hi: 1, lo: 0 },
        modified_at: Timestamp { seconds, nanos: 0, offset: 0 },
    }
}

#[test]
fn a_refresh_lists_what_could_be_read_and_selects_one() {
    let mut component = SessionsBrowserComponent::new();
    component.refresh(vec![Some(session("new", 2)), None, Some(session("old", 1))]);
    let ids: Vec<&str> = component.sessions.iter().map(|s| s.id.as_str()).collect();
    assert_eq!(ids, ["new", "old"]);
    assert_eq!(component.selected_session_index(), 0);
    assert_eq!(component.selected_fork_info().unwrap().0, "new");
    component.update(&Action::SessionsSelectNext);
    assert_eq!(component.selected_session_index(), 1);
    component.update(&Action::SessionsSelectNext);
    assert!(component.selected_session_index() < 2);
    component.refresh(vec![Some(session("only", 1))]);
    assert_eq!(component.selected_session_index(), 0);
    component.refresh(vec![]);
    assert!(component.selected_fork_info().is_none());
}

#[test]
fn opening_a_session_asks_for_its_turns() {
    let mut component = SessionsBrowserComponent::new();
    assert!(matches!(component.update(&Action::SessionsOpenDetail), SessionsRequest::Nothing));
    component.refresh(vec![Some(session("a", 1)), Some(session("b", 2))]);
    component.update(&Action::SessionsSelectNext);
    assert!(matches!(
        component.update(&Action::SessionsOpenDetail),
        SessionsRequest::LoadTurns(1)
    ));
    component.open_detail(1, vec![]);
    assert!(component.has_detail());
    assert!(component.focus == SessionsPanelFocus::Detail);
    component.update(&Action::SessionsCloseDetail);
    assert!(!component.has_detail());
    assert!(matches!(component.update(&Action::SessionsRefresh), SessionsRequest::Refresh));
}

#[test]
fn the_panels_of_the_browser_say_what_they_hold() {
    let mut b = SessionsBrowserComponent::new();
    let panel = b.list_panel();
    assert_eq!(panel.title, "Sessions (0)");
    assert_eq!(panel.note, Some("  No sessions found. Press 'r' to refresh."));
    assert!(b.detail_panel().is_none());
    b.refresh(vec![Some(session("a", 1))]);
    let panel = b.list_panel();
    assert_eq!((panel.note, panel.marked), (None, Some(0)));
    assert_eq!(panel.border.fg, Color::Blue);
    b.open_detail(0, vec![]);
    b.turns_drawn_at(Rect { x: 0, y: 0, width: 10, height: 5 });
    let panel = b.detail_panel().unwrap();
    assert_eq!((panel.title.as_str(), panel.note), ("Turns", Some("  No turns found.")));
    assert_eq!(panel.border.fg, Color::Blue);
    assert_eq!((b.list_panel().marked, b.list_panel().border.fg), (None, Color::DarkGray));
    assert!(browser_hint().contains("r: refresh"));
}

#[test]
fn session_rows_name_the_session_and_its_time() {
    let time = "1970-01-01T00:00:01Z".to_string();
    let plain: String = item_spans(&None, time.clone(), false).iter().map(|s| s.text.clone()).collect();
    let text: String = session_item(&session("abc", 1), false).iter().map(|s| s.text.clone()).collect();
    assert_eq!(text, plain);
    assert!(plain.contains(&time));
    let named: String = item_spans(&Some("mine".to_string()), time, true)
        .iter()
        .map(|s| s.text.clone())
        .collect();
    assert!(named.contains("mine"));
    assert!(list_title(3).contains('3'));
    assert!(detail_title(&vec![session("abc", 1)], 0).len() > 0);
}

#[test]
fn the_browser_leaves_a_row_for_its_hints() {
    let area = Rect { x: 0, y: 0, width: 80, height: 24 };
    let one = browser_layout(area, false);
    assert!(one.detail.is_none());
    assert_eq!(one.hint.height, 1);
    assert_eq!(one.list.width, 80);
    let two = browser_layout(area, true);
    assert_eq!(two.list.width + two.detail.unwrap().width, 80);
}

#[test]
fn each_part_of_the_browser_has_its_place() {
    let part = |y: u16| Rect { x: 0, y, width: 9, height: 1 };
    let (rows, columns) = (vec![part(0), part(1)], vec![part(2), part(3)]);
    let none = Rect { x: 0, y: 0, width: 0, height: 0 };
    let low = browser_parts(part(7), None, None);
    assert_eq!((low.list, low.detail, low.hint), (part(7), None, none));
    let list = browser_parts(part(7), Some(&rows), None);
    assert_eq!((list.list, list.detail, list.hint), (part(0), None, part(1)));
    let both = browser_parts(part(7), Some(&rows), Some(&columns));
    assert_eq!((both.list, both.detail, both.hint), (part(2), Some(part(3)), part(1)));
    assert_eq!(browser_rows(), [Constraint::Min(1), Constraint::Length(1)]);
    assert_eq!(browser_columns(), [Constraint::Percentage(40), Constraint::Percentage(60)]);
}

#[test]
fn the_picker_stays_among_its_agents() {
    let agents = ["a", "b"]
        .iter()
        .map(|s| PickerAgent { id: s.to_string(), name: s.to_uppercase() })
        .collect();
    let mut picker = AgentPickerComponent::new(agents);
    assert_eq!(picker.selected, 0);
    picker.update(&Action::AgentPickerSelectPrev);
    assert!(picker.selected < 2);
    picker.update(&Action::AgentPickerSelectNext);
    assert!(picker.selected < 2);
    picker.selected = 1;
    assert!(matches!(
        picker.handle_key_event(key(KeyCode::Enter)),
        Some(Action::CreateSession(1))
    ));
    assert!(matches!(
        picker.handle_key_event(key(KeyCode::Esc)),
        Some(Action::CloseAgentPicker)
    ));
    let area = Rect { x: 0, y: 0, width: 80, height: 24 };
    let popup = picker.popup_area(area);
    assert!(popup.x + popup.width <= 80 && popup.y + popup.height <= 24);
    assert_eq!(picker.lines().len(), 2);
}

#[test]
fn an_action_knows_its_tab() {
    assert_eq!(action_target_tab_id(&Action::SessionInsertNewline(4)), Some(4));
    assert_eq!(
        action_target_tab_id(&Action::SessionScrollStderr { tab_id: 2, delta: 1 }),
        Some(2)
    );
    assert_eq!(action_target_tab_id(&Action::SessionSubmitPrompt(4)), None);
    assert_eq!(action_target_tab_id(&Action::Tick), None);
}

#[test]
fn the_wheel_moves_a_few_rows() {
    assert_eq!(wheel(MouseKind::ScrollUp), wheel(MouseKind::ScrollDown).map(|d| -d));
    assert_eq!(wheel(MouseKind::Press), None);
    assert_eq!(apply_scroll_delta(2, -5), 0);
    assert_eq!(apply_scroll_delta(u16::MAX, 5), u16::MAX);
    assert_eq!(apply_scroll_delta(2, 5), 7);
}

#[test]
fn a_turn_row_shows_the_talk_and_the_changes() {
    let entries = vec![
        TurnEntry::Prompt { text: "please".to_string() },
        TurnEntry::Response { text: "done".to_string() },
    ];
    let diffs = Ok(vec![FileDiff {
        path: "a.rs".to_string(),
        status: DiffStatus::Modified,
        hunks: vec![Hunk {
            header: "@@ -1 +1 @@".to_string(),
            lines: vec![
                DiffLine { kind: DiffLineKind::Remove, content: "old".to_string() },
                DiffLine { kind: DiffLineKind::Add, content: "new".to_string() },
                DiffLine { kind: DiffLineKind::Context, content: "same".to_string() },
            ],
        }],
    }]);
    let row = build_turn_row("abc1234", &entries, &diffs);
    assert_eq!(row.height as usize, row.lines.len());
    let text: Vec<String> = row
        .lines
        .iter()
        .map(|l| l.spans.iter().map(|s| s.text.clone()).collect())
        .collect();
    let all = text.join("\n");
    for part in ["abc1234", "please", "done", "a.rs", "-old", "+new", " same"] {
        assert!(all.contains(part), "{part:?} not in {all:?}");
    }
    let failed = build_turn_row("abc1234", &vec![], &Err("no tree".to_string()));
    let all: String = failed
        .lines
        .iter()
        .flat_map(|l| l.spans.iter().map(|s| s.text.clone()))
        .collect();
    assert!(all.contains("no tree"));
    assert_eq!(preview_of("abcdef", 3), "abc...");
    assert_eq!(preview_of("abc", 3), "abc");
}

#[test]
fn a_static_page_keeps_its_text() {
    let page = StaticPageComponent::new("Help", "text");
    assert_eq!(page.title, "Help");
    assert_eq!(page.content, "text");
}
