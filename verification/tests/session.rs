use concats::action::Action;
use concats::app::App;
use concats::components::session::{
    arrange, conversation_item, current_select_label, fork_hint_block_height, hint_constraints, kind_label,
    outer_constraints, panel_constraints, scroll_under_mouse, session_input_height,
    session_layout, sets_labels, wrapped_line_height, CancelOutcome, CloseStep, ConfigOption,
    FocusedPanel, Message, OptionCategory, Select, SelectValue, SessionComponent, SessionEvent,
    SessionLifecycle, SessionTabConfig, SessionUpdate, ToolCall, ToolKind, ToolLocation,
};
use concats::components::panels::{waiting_note, InputContent};
use concats::components::sessions::SessionsRequest;
use concats::style::Color;
use concats::diff::Oid;
use concats::geometry::{Constraint, Rect};
use concats::input::{KeyCode, KeyEvent, MouseEvent, MouseKind};

fn config() -> SessionTabConfig {
    SessionTabConfig {
        agent_label: "Codex".to_string(),
        agent_command: "codex".to_string(),
        agent_args: vec![],
        agent_env: vec![],
        auto_push: false,
        push_remote: "origin".to_string(),
    }
}

fn tab() -> SessionComponent {
    SessionComponent::new(3, "three".to_string(), config())
}

fn key(code: KeyCode) -> KeyEvent {
    KeyEvent { code, control: false, alt: false, shift: false }
}

fn type_text(s: &mut SessionComponent, text: &str) {
    for c in text.chars() {
        s.update(&Action::SessionInput { tab_id: 3, key: key(KeyCode::Char(c)) });
    }
}

#[test]
fn layout_splits_stderr_and_input() {
    let layout = session_layout(
        Rect { x: 0, y: 0, width: 80, height: 24 },
        true,
        &Some("forked from another session".to_string()),
    );

    assert!(layout.stderr.is_some());
    assert!(layout.fork_hint.is_some());
    assert!(layout.input.height > 0);
}

#[test]
fn a_plain_layout_has_the_conversation_over_the_input() {
    let layout = session_layout(Rect { x: 0, y: 0, width: 80, height: 24 }, false, &None);
    assert!(layout.stderr.is_none());
    assert!(layout.fork_hint.is_none());
    assert_eq!(layout.conversation.width, 80);
    assert_eq!(layout.input.width, 80);
    assert_eq!(layout.input.height, session_input_height(&None, 80));
    assert_eq!(layout.input.y, layout.conversation.y + layout.conversation.height);
}

#[test]
fn each_part_of_a_division_has_its_place() {
    let part = |y: u16| Rect { x: 0, y, width: 9, height: 1 };
    let outer = vec![part(0), part(1)];
    let panels = vec![part(2), part(3)];
    let boxes = vec![part(4), part(5)];
    let plain = arrange(&outer, None, None);
    assert_eq!((plain.conversation, plain.input), (part(0), part(1)));
    assert!(plain.conversation_panel.is_none() && plain.stderr.is_none());
    assert!(plain.fork_hint.is_none());
    let all = arrange(&outer, Some(&panels), Some(&boxes));
    assert_eq!((all.conversation, all.input), (part(0), part(5)));
    assert_eq!((all.conversation_panel, all.stderr), (Some(part(2)), Some(part(3))));
    assert_eq!(all.fork_hint, Some(part(4)));
}

#[test]
fn an_area_keeps_its_width_however_far_it_reaches() {
    let area = Rect { x: 1, y: 0, width: u16::MAX, height: 24 };
    let layout = session_layout(area, false, &None);
    assert_eq!(layout.conversation.width, u16::MAX);
    assert_eq!(layout.input.width, u16::MAX);
    assert_eq!(layout.input.y, layout.conversation.y + layout.conversation.height);
}

#[test]
fn typed_text_is_sent_once() {
    let mut s = tab();
    assert!(s.send_prompt().is_none());
    type_text(&mut s, "hello");
    s.update(&Action::SessionInsertNewline(3));
    type_text(&mut s, "there");
    assert_eq!(s.send_prompt().as_deref(), Some("hello\nthere"));
    assert!(s.model.waiting);
    assert!(matches!(s.model.messages.last(), Some(Message::User(t)) if t == "hello\nthere"));
    // The box is empty again, and nothing goes out while the agent works.
    type_text(&mut s, "more");
    assert!(s.send_prompt().is_none());
    s.handle_session_event(SessionEvent::TurnComplete {
        stop_reason: "EndTurn".to_string(),
        turn: None,
    });
    assert!(!s.model.waiting);
}

#[test]
fn the_box_writes_at_the_cursor_and_takes_back() {
    let mut s = tab();
    let press = |s: &mut SessionComponent, code: KeyCode| {
        s.update(&Action::SessionInput { tab_id: 3, key: key(code) });
    };
    type_text(&mut s, "ab\ncd");
    assert_eq!(s.view.textarea.area.lines(), ["ab", "cd"]);
    // Backspace takes characters, then the line break; then there is nothing.
    press(&mut s, KeyCode::Backspace);
    press(&mut s, KeyCode::Backspace);
    assert_eq!(s.view.textarea.area.lines(), ["ab", ""]);
    press(&mut s, KeyCode::Backspace);
    assert_eq!(s.view.textarea.area.lines(), ["ab"]);
    // Moving and keys without a meaning leave the text as it is.
    for code in [KeyCode::Left, KeyCode::Esc, KeyCode::Other, KeyCode::Function(5)] {
        press(&mut s, code);
        assert_eq!(s.view.textarea.area.lines(), ["ab"]);
    }
    press(&mut s, KeyCode::Char('x'));
    assert_eq!(s.view.textarea.area.lines(), ["axb"]);
    s.update(&Action::SessionInsertNewline(3));
    assert_eq!(s.view.textarea.area.lines(), ["ax", "b"]);
    press(&mut s, KeyCode::Backspace);
    press(&mut s, KeyCode::Backspace);
    assert_eq!(s.view.textarea.area.lines(), ["ab"]);
    assert_eq!(s.view.textarea.area.cursor(), (0, 1));
    assert_eq!(s.send_prompt().as_deref(), Some("ab"));
    assert_eq!(s.view.textarea.area.lines(), [""]);
}

#[test]
fn pieces_of_a_reply_make_one_message() {
    let mut s = tab();
    for piece in ["one ", "two ", "three"] {
        s.handle_session_event(SessionEvent::Notification(SessionUpdate::AgentText(
            piece.to_string(),
        )));
    }
    // After the greeting of the tab.
    assert_eq!(s.model.messages.len(), 2);
    assert!(matches!(&s.model.messages[1], Message::Agent(t) if t == "one two three"));
    s.handle_session_event(SessionEvent::Notification(SessionUpdate::ToolCall(ToolCall {
        title: "look".to_string(),
        kind: ToolKind::Read,
        locations: vec![],
    })));
    s.handle_session_event(SessionEvent::Notification(SessionUpdate::AgentText(
        "again".to_string(),
    )));
    assert_eq!(s.model.messages.len(), 4);
}

#[test]
fn a_failed_prompt_ends_the_wait() {
    let mut s = tab();
    type_text(&mut s, "x");
    assert!(s.send_prompt().is_some());
    s.prompt_failed();
    assert!(!s.model.waiting);
}

#[test]
fn stderr_and_errors_reach_their_panels() {
    let mut s = tab();
    s.handle_session_event(SessionEvent::Stderr("oops".to_string()));
    assert_eq!(s.view.stderr_lines, ["oops"]);
    s.handle_session_event(SessionEvent::Error("broken".to_string()));
    assert!(s
        .model
        .messages
        .iter()
        .any(|m| matches!(m, Message::System(t) if t.contains("broken"))));
    s.handle_session_event(SessionEvent::PushFailed {
        ref_name: "refs/x".to_string(),
        error: "denied".to_string(),
    });
    assert!(s
        .model
        .messages
        .iter()
        .any(|m| matches!(m, Message::System(t) if t.contains("refs/x") && t.contains("denied"))));
}

#[test]
fn options_set_the_labels() {
    let option = |name: &str, category: OptionCategory| ConfigOption {
        name: name.to_string(),
        category,
        select: Some(Select {
            current_value: "v2".to_string(),
            values: vec![
                SelectValue { value: "v1".to_string(), name: "First".to_string() },
                SelectValue { value: "v2".to_string(), name: "Second".to_string() },
            ],
        }),
    };
    let model = option("Anything", OptionCategory::Model);
    assert_eq!(current_select_label(&model).as_deref(), Some("Second"));
    let mut s = tab();
    s.handle_session_event(SessionEvent::Configured {
        mode: Some("ask".to_string()),
        options: vec![model],
    });
    assert_eq!(s.model.current_model.as_deref(), Some("Second"));
    s.handle_session_event(SessionEvent::Notification(SessionUpdate::Mode("code".to_string())));
    assert_eq!(s.model.current_mode.as_deref(), Some("code"));
    // Names are read whatever the case of their letters.
    s.handle_session_event(SessionEvent::Notification(SessionUpdate::Options(vec![option(
        "Agent MODE",
        OptionCategory::Other,
    )])));
    assert_eq!(s.model.current_mode.as_deref(), Some("Second"));
    assert_eq!(sets_labels(OptionCategory::Model, ""), (true, false));
    assert_eq!(sets_labels(OptionCategory::Mode, ""), (false, true));
    assert_eq!(sets_labels(OptionCategory::Other, "colour"), (false, false));
    let none = ConfigOption {
        name: "x".to_string(),
        category: OptionCategory::Other,
        select: None,
    };
    assert!(current_select_label(&none).is_none());
}

#[test]
fn a_session_is_closed_in_steps() {
    let mut s = tab();
    assert!(matches!(s.request_close(), CloseStep::Cancel));
    assert!(s.close_requested());
    assert!(matches!(s.request_close(), CloseStep::Answered(_)));
    assert!(SessionComponent::close_sent(CancelOutcome::Sent));
    s.mark_closed();
    assert!(s.model.lifecycle == SessionLifecycle::Closed);
    assert!(matches!(s.request_close(), CloseStep::Answered(_)));
}

#[test]
fn keys_stay_in_their_session() {
    let s = tab();
    assert!(matches!(
        s.handle_key_event(key(KeyCode::Enter)),
        Some(Action::SessionSubmitPrompt(3))
    ));
    assert!(matches!(
        s.handle_key_event(key(KeyCode::Char('x'))),
        Some(Action::SessionInput { tab_id: 3, .. })
    ));
}

#[test]
fn focus_moves_between_the_panels() {
    let mut s = tab();
    assert!(!s.view.show_stderr);
    s.update(&Action::SessionToggleStderr(3));
    assert!(s.view.show_stderr);
    s.update(&Action::SessionFocusStderr(3));
    assert!(s.view.focused_panel == FocusedPanel::Stderr);
    s.update(&Action::SessionFocusConversation(3));
    assert!(s.view.focused_panel == FocusedPanel::Conversation);
    let area = Rect { x: 0, y: 0, width: 80, height: 20 };
    s.drawn_at(area);
    assert_eq!(s.view.viewport, area);
    s.update(&Action::SessionScrollConversation { tab_id: 3, delta: 2 });
    s.update(&Action::SessionScrollStderr { tab_id: 3, delta: 4 });
    assert_eq!(s.view.stderr_scroll, 4);
    s.update(&Action::SessionScrollStderr { tab_id: 3, delta: -9 });
    assert_eq!(s.view.stderr_scroll, 0);
}

#[test]
fn the_wheel_scrolls_the_panel_under_it() {
    let layout = session_layout(Rect { x: 0, y: 0, width: 80, height: 24 }, true, &None);
    let stderr = layout.stderr.unwrap();
    let over = MouseEvent { kind: MouseKind::ScrollDown, column: stderr.x, row: stderr.y };
    let actions = scroll_under_mouse(&layout, over, 3);
    assert!(actions
        .iter()
        .any(|a| matches!(a, Action::SessionScrollStderr { tab_id: 3, .. })));
    let press = MouseEvent { kind: MouseKind::Other, column: stderr.x, row: stderr.y };
    assert!(scroll_under_mouse(&layout, press, 3).is_empty());
    let s = tab();
    let at = MouseEvent { kind: MouseKind::ScrollDown, column: 1, row: 1 };
    assert!(s
        .handle_mouse_event(at, Rect { x: 0, y: 0, width: 80, height: 24 })
        .iter()
        .any(|a| matches!(a, Action::SessionScrollConversation { tab_id: 3, .. })));
}

#[test]
fn a_fork_is_announced_until_a_prompt_is_sent() {
    let mut s = tab();
    s.queue_fork_message("source-session", Oid { hi: 0xabcd << 112, lo: 0 });
    let hint = s.model.pending_fork_message.clone().unwrap();
    assert!(hint.contains("source-session"));
    assert!(s.input_title().len() > 0);
    type_text(&mut s, "go");
    let sent = s.send_prompt().unwrap();
    assert!(sent.ends_with("go"));
    assert!(s.model.pending_fork_message.is_none());
}

#[test]
fn heights_follow_the_wrapped_text() {
    assert_eq!(wrapped_line_height(0, 10), 1);
    assert_eq!(wrapped_line_height(10, 10), 1);
    assert_eq!(wrapped_line_height(11, 10), 2);
    let short = fork_hint_block_height("short", 80);
    let long = fork_hint_block_height(&"word ".repeat(100), 80);
    assert!(long > short);
    assert_eq!(
        session_input_height(&Some("short".to_string()), 80),
        session_input_height(&None, 80) + short - 1
    );
    assert_eq!(outer_constraints(&None, 80).len(), 2);
    assert_eq!(panel_constraints().len(), 2);
    assert!(hint_constraints("short", 80)
        .iter()
        .any(|c| matches!(c, Constraint::Length(n) if *n == short)));
}

#[test]
fn messages_become_items() {
    let message = Message::User("hi".to_string());
    let item = conversation_item(&message, 80);
    assert!(item.height > 0);
    let text: String = item
        .lines
        .iter()
        .flat_map(|l| l.spans.iter().map(|s| s.text.clone()))
        .collect();
    assert!(text.contains("hi"));
    let call = Message::ToolCall(ToolCall {
        title: "Read file".to_string(),
        kind: ToolKind::Read,
        locations: vec![ToolLocation { path: "a.rs".to_string(), line: Some(4) }],
    });
    let item = conversation_item(&call, 80);
    let mut text: String = item
        .lines
        .iter()
        .flat_map(|l| l.spans.iter().map(|s| s.text.clone()))
        .collect();
    text.push_str(item.title.as_deref().unwrap_or(""));
    assert!(text.contains("Read file"), "{text:?}");
    assert!(text.contains("a.rs"), "{text:?}");
    assert_eq!(kind_label(ToolKind::Read), "Read");
}

#[test]
fn the_panels_show_what_the_session_holds() {
    let mut s = tab();
    s.set_label("renamed".to_string());
    assert_eq!((s.id(), s.label()), (3, "renamed"));
    assert_eq!(s.agent_label(), "Codex");
    assert_eq!(s.agent_command(), "codex");
    assert!(s.agent_args().is_empty() && s.agent_env().is_empty());
    assert_eq!((s.auto_push(), s.push_remote()), (false, "origin"));
    assert_eq!(s.status(), s.model.status);
    s.update(&Action::SessionToggleStderr(3));
    s.update(&Action::SessionFocusStderr(3));
    s.handle_session_event(SessionEvent::Stderr("oops".to_string()));
    let area = Rect { x: 0, y: 0, width: 80, height: 24 };
    let layout = session_layout(area, true, &None);
    let panels = s.output_panels(&layout);
    assert_eq!(Some(panels.conversation), layout.conversation_panel);
    let (place, panel) = panels.stderr.unwrap();
    assert_eq!(Some(place), layout.stderr);
    assert_eq!(panel.lines[0].spans[0].text, "oops");
    assert_eq!(panel.lines[0].spans[0].style.fg, Color::Red);
    assert_eq!(panel.border.fg, Color::Blue);
    assert_eq!(panel.length, 1);
    let input = s.input_panel();
    assert_eq!(input.title, "Codex");
    assert_eq!(input.content, InputContent::Prompt);
    assert!(input.hint.is_none());
    type_text(&mut s, "x");
    s.queue_fork_message("other", Oid { hi: 1, lo: 0 });
    assert_eq!(s.input_panel().hint.unwrap().title.text, "fork context pending");
    s.send_prompt();
    assert!(s.waiting());
    assert_eq!(s.input_panel().content, InputContent::Waiting);
    assert_eq!(waiting_note(), " (waiting for agent...)");
}

#[test]
fn the_app_routes_keys_and_quits() {
    let mut app = App::new();
    assert!(!app.should_quit);
    let request = app.handle_action(&Action::Quit);
    assert!(app.should_quit);
    assert!(matches!(request.sessions, SessionsRequest::Nothing));
    assert!(App::first_actions().len() > 0);
    let control_c = KeyEvent { code: KeyCode::Char('c'), control: true, alt: false, shift: false };
    assert!(matches!(app.route_key(control_c), Some(Action::Quit)));
    assert!(matches!(
        app.handle_action(&Action::SessionsRefresh).sessions,
        SessionsRequest::Refresh
    ));
}
