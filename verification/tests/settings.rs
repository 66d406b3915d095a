use concats::components::agent_picker::{AgentPickerComponent, PickerAgent};
use concats::components::session::{EnvVar, FocusedPanel};
use concats::components::text_input::TextInput;
use concats::action::Action;
use concats::config::{
    app_setting, default_agents, is_setting, AgentConfig, Agents, BuiltinAgent, CliArgs, Config,
};
use concats::handler::{
    handle_key_events, handle_mouse_events, handle_wheel, tab_at, tab_layout, tab_parts,
    target_from_click, TabLayout,
};
use concats::input::{KeyCode, KeyEvent, MouseEvent, MouseKind};
use concats::launch::agent_command_line;
use concats::sessions_ui;
use concats::tabs::{ActiveTab, ClickTarget, TabBarEntry};
use concats::geometry::{Constraint, Rect};
use concats::ui::{
    placeholder, render, screen_rows, status_spans, tab_click_hitboxes, App, Content, SessionTab,
};
use figment::providers::{Format, Toml};
use figment::Figment;
use ratatui_textarea::TextArea;

fn agent(command: &str, args: &[&str]) -> AgentConfig {
    AgentConfig {
        name: "An Agent".to_string(),
        command: command.to_string(),
        args: args.iter().map(|s| s.to_string()).collect(),
        env: vec![],
    }
}

fn first() -> BuiltinAgent {
    BuiltinAgent { id: "amp".to_string(), name: "Amp".to_string() }
}

#[test]
fn the_defaults_are_the_first_agent_and_codex() {
    let config = Config::defaults(&first());
    assert_eq!(config.default_agent, Some("amp".to_string()));
    assert_eq!(config.workspace, None);
    assert_eq!(config.agents.len(), 2);
    let command = |id: &str| {
        let place = config.agents.find(id).unwrap();
        config.agents.entries[place].agent.command.clone()
    };
    let name = |id: &str| {
        let place = config.agents.find(id).unwrap();
        config.agents.entries[place].agent.name.clone()
    };
    assert_eq!(command("amp"), "amp");
    assert_eq!(name("amp"), "Amp");
    assert_eq!(command("codex"), "codex");
    assert_eq!(name("codex"), "Codex");
    for entry in &config.agents.entries {
        assert!(entry.agent.args.is_empty());
        assert!(entry.agent.env.is_empty());
    }
    assert!(!config.sync.auto_push);
    assert_eq!(config.sync.remote, "origin");
}

/// The agents of a settings file over those that are known without it.
fn with_file(text: &str) -> Agents {
    let mut agents = default_agents(&first());
    let file = Figment::from(Toml::string(text));
    for (id, set) in file.find_value("agents").unwrap().into_dict().unwrap() {
        let word = |key: &str| set.find_ref(key).and_then(|v| v.as_str()).unwrap().to_string();
        let args = set.find_ref("args").and_then(|v| v.as_array()).unwrap_or(&[]);
        agents.insert(
            id,
            AgentConfig {
                name: word("name"),
                command: word("command"),
                args: args.iter().map(|v| v.as_str().unwrap().to_string()).collect(),
                env: vec![],
            },
        );
    }
    agents
}

#[test]
fn a_settings_file_overrides_a_default_agent() {
    let agents = with_file(
        r#"
[agents.amp]
name = "My Amp"
command = "amp"
args = ["--verbose"]
"#,
    );
    assert_eq!(agents.len(), 2);
    let place = agents.find("amp").unwrap();
    assert_eq!(agents.entries[place].agent.name, "My Amp");
    assert_eq!(agents.entries[place].agent.args, vec!["--verbose"]);
}

#[test]
fn a_custom_agent_coexists_with_the_defaults() {
    let agents = with_file(
        r#"
[agents.custom]
name = "Custom Agent"
command = "my-agent"
"#,
    );
    assert_eq!(agents.entries[agents.find("custom").unwrap()].agent.command, "my-agent");
    assert!(agents.find("amp").is_some());
    assert!(agents.find("codex").is_some());
    assert!(agents.find("none").is_none());
}

#[test]
fn the_command_line_overrides_settings() {
    let mut config = Config::defaults(&first());
    config.apply(&CliArgs { default_agent: None, workspace: Some("/w".to_string()) });
    assert_eq!(config.default_agent.as_deref(), Some("amp"));
    assert_eq!(config.workspace.as_deref(), Some("/w"));
    config.apply(&CliArgs { default_agent: Some("amp".to_string()), workspace: None });
    assert_eq!(config.default_agent.as_deref(), Some("amp"));
    assert_eq!(config.workspace.as_deref(), Some("/w"));
}

#[test]
fn settings_of_the_window_are_apart() {
    assert!(is_setting("DEFAULT_AGENT"));
    assert!(!is_setting("APP_THEME"));
    assert!(!is_setting("app_theme"));
    assert_eq!(app_setting("theme"), "app.theme");
}

#[test]
fn a_blank_name_falls_back_to_the_id() {
    let mut a = agent("x", &[]);
    assert_eq!(a.display_name("id"), "An Agent");
    a.name = "  ".to_string();
    assert_eq!(a.display_name("id"), "id");
}

#[test]
fn a_command_line_quotes_what_needs_it() {
    let mut a = agent("codex", &["--flag", "two words"]);
    a.env = vec![EnvVar { key: "KEY".to_string(), value: "v".to_string() }];
    let line = agent_command_line(&a, &vec!["extra".to_string()]);
    assert!(line.contains("codex"));
    assert!(line.contains("--flag"));
    assert!(line.contains("two words"));
    assert!(line.ends_with("extra"));
    let plain = agent_command_line(&agent("codex", &["a", "b"]), &vec![]);
    assert_eq!(plain, "codex a b");
}

fn tabs() -> Vec<TabBarEntry> {
    vec![
        TabBarEntry::NewButton,
        TabBarEntry::Utility { tab: ActiveTab::Sessions, label: "Sessions" },
        TabBarEntry::Utility { tab: ActiveTab::Help, label: "Help" },
    ]
}

fn app() -> App {
    App {
        active_tab: ActiveTab::Sessions,
        session_tabs: vec![],
        agent_picker: None,
        expanded: None,
        tick: 0,
    }
}

fn control(c: char) -> KeyEvent {
    KeyEvent { code: KeyCode::Char(c), control: true, alt: false, shift: false }
}

#[test]
fn control_keys_switch_and_open() {
    let mut a = app();
    assert!(matches!(handle_key_events(control('c'), &mut a, &tabs()), Some(Action::Quit)));
    assert!(matches!(
        handle_key_events(control('n'), &mut a, &tabs()),
        Some(Action::NewSession) | Some(Action::OpenAgentPicker)
    ));
    assert!(tab_at(&tabs(), 9).is_none());
    let mut picking = app();
    picking.agent_picker = Some(AgentPickerComponent::new(vec![PickerAgent {
        id: "codex".to_string(),
        name: "Codex".to_string(),
    }]));
    let enter = KeyEvent { code: KeyCode::Enter, control: false, alt: false, shift: false };
    assert!(matches!(
        handle_key_events(enter, &mut picking, &tabs()),
        Some(Action::CreateSession(0))
    ));
}

#[test]
fn a_click_goes_to_the_drawn_tab() {
    let a = app();
    let boxes = tab_click_hitboxes(&a, &tabs());
    let last = boxes.last().unwrap();
    assert!(matches!(
        target_from_click(last.start as u16, &a, &tabs()),
        Some(ClickTarget::SwitchTab(ActiveTab::Help))
    ));
    assert!(target_from_click(last.end as u16 + 50, &a, &tabs()).is_none());
    assert!(status_spans(&a).len() > 0);
    let mut a = app();
    let press = MouseEvent { kind: MouseKind::Press, column: last.start as u16, row: 23 };
    assert!(matches!(
        handle_mouse_events(press, &mut a, &tabs(), 80, 24),
        Some(Action::SwitchTab(ActiveTab::Help))
    ));
}

fn session_tab(show_stderr: bool) -> SessionTab {
    SessionTab {
        id: 1,
        label: "one".to_string(),
        waiting: false,
        status: String::new(),
        pending_fork_message: None,
        textarea: TextInput { area: TextArea::default() },
        input_title: "Codex".to_string(),
        scroll_offset: 5,
        stderr_lines: vec!["oops".to_string()],
        stderr_scroll: 5,
        show_stderr,
        focused_panel: FocusedPanel::Conversation,
    }
}

#[test]
fn the_wheel_turns_in_the_panel_under_it() {
    let part = |x: u16, y: u16| Rect { x, y, width: 10, height: 4 };
    let rows = vec![part(0, 0), part(0, 9)];
    let parts = vec![part(0, 0), part(0, 5)];
    let columns = vec![part(0, 0), part(10, 0)];
    let layout = tab_parts(&rows, &parts, Some(&columns));
    assert_eq!((layout.main, layout.conversation), (part(0, 0), part(0, 0)));
    assert_eq!(layout.panels, Some((part(0, 0), part(10, 0))));
    assert!(tab_parts(&rows, &parts, None).panels.is_none());

    let mut a = app();
    a.session_tabs.push(session_tab(true));
    a.active_tab = ActiveTab::Session(1);
    let turn = |column: u16, row: u16| MouseEvent { kind: MouseKind::ScrollDown, column, row };
    let wide = TabLayout {
        main: Rect { x: 0, y: 0, width: 20, height: 9 },
        conversation: Rect { x: 0, y: 0, width: 20, height: 4 },
        ..layout
    };
    handle_wheel(turn(12, 1), &mut a, &wide);
    assert_eq!(a.session_tabs[0].focused_panel, FocusedPanel::Stderr);
    let moved = a.session_tabs[0].stderr_scroll;
    assert!(moved > 5);
    handle_wheel(turn(12, 6), &mut a, &wide);
    assert_eq!(a.session_tabs[0].stderr_scroll, moved);
    assert_eq!(a.session_tabs[0].scroll_offset, 5);

    let mut shown = app();
    shown.session_tabs.push(session_tab(false));
    shown.active_tab = ActiveTab::Session(1);
    assert!(handle_mouse_events(turn(3, 3), &mut shown, &tabs(), 80, 24).is_none());
    assert!(shown.session_tabs[0].scroll_offset > 5);
    assert_eq!(screen_rows(), [Constraint::Min(1), Constraint::Length(1)]);
    let layout = tab_layout(
        Rect { x: 0, y: 0, width: 80, height: 24 },
        &shown.session_tabs[0],
    );
    assert_eq!(layout.main, Rect { x: 0, y: 0, width: 80, height: 23 });
    match render(&shown, &tabs(), Rect { x: 0, y: 0, width: 80, height: 24 }).content {
        Content::Session(d) => assert_eq!(d.conversation, layout.conversation),
        _ => panic!("the session is shown"),
    }
}

#[test]
fn the_screen_shows_the_active_tab() {
    let area = Rect { x: 0, y: 0, width: 80, height: 24 };
    let mut a = app();
    let screen = render(&a, &tabs(), area);
    assert!(matches!(screen.content, Content::Sessions));
    assert_eq!((screen.main.width, screen.main.height), (80, 23));
    assert_eq!(screen.bar_area, Rect { x: 0, y: 23, width: 80, height: 1 });
    let bar: String = screen.bar.iter().map(|s| s.text.clone()).collect();
    assert_eq!(bar, "● no session   [+]  Sessions  Help ");
    assert!(screen.picker.is_none());
    a.active_tab = ActiveTab::Help;
    a.agent_picker = Some(AgentPickerComponent::new(vec![PickerAgent {
        id: "codex".to_string(),
        name: "Codex".to_string(),
    }]));
    let screen = render(&a, &tabs(), area);
    assert!(matches!(screen.content, Content::Page(p) if p.title == "Help"));
    let picker = screen.picker.unwrap();
    assert_eq!(picker.lines[0].spans[0].text, " Codex ");
    assert_eq!((picker.area.width, picker.area.height), (40, 3));
}

#[test]
fn pages_without_a_component_have_a_text() {
    let page = placeholder(ActiveTab::Settings).unwrap();
    assert_eq!((page.title, page.content), ("Settings", "Not yet implemented."));
    assert_eq!(placeholder(ActiveTab::Session(1)).unwrap().content, "Session not found.");
    assert!(placeholder(ActiveTab::Sessions).is_none());
}

#[test]
fn a_checkpoint_shows_its_turn() {
    let turn = sessions_ui::TurnInfo {
        turn_number: 4,
        short_oid: "abc1234".to_string(),
        prompt: "please".to_string(),
        response_summary: "done".to_string(),
        diffs: vec![],
    };
    let row = sessions_ui::checkpoint(&turn);
    let text: String =
        row.lines.iter().flat_map(|l| l.spans.iter().map(|s| s.text.clone())).collect();
    assert!(text.contains("abc1234") && text.contains("please") && text.contains('4'));
    let info = sessions_ui::SessionInfo {
        title: "a title".to_string(),
        timestamp: "then".to_string(),
        turn_count: 2,
    };
    let row: String =
        sessions_ui::session_item(&info, false).iter().map(|s| s.text.clone()).collect();
    assert!(row.contains("a title") && row.contains("then"));
    assert!(sessions_ui::detail_title(&vec![info], 0).contains("a title"));
}
