//! What keys and the mouse do in the interface with a tab for each session.

use crate::action::Action;
use crate::components::agent_picker::AgentPickerComponent;
use crate::components::session::{
    key_action, outer_constraints, outer_plan, panel_constraints, panel_plan, rects_of,
    FocusedPanel,
};
use crate::components::text_input::{box_of, insert_newline, is_broken, is_typed, type_key};
use crate::diff::opt_text;
use crate::geometry::{
    apply_scroll_delta, comes_of, floored, scrolled, split, sub_floored, within, Direction, Rect,
};
use crate::input::{wheel, wheel_delta, KeyCode, KeyEvent, MouseEvent, MouseKind};
use crate::tabs::{
    bar_boxes, entry_boxes, entry_offset, entry_width, label_text, ActiveTab, ClickTarget, HitBox,
    TabBarEntry,
};
use crate::ui::{
    active_place, screen_plan, screen_rows, status_width, tab_click_hitboxes, App, SessionTab,
};
use vstd::prelude::*;

verus! {

// ---------------------------------------------------------------------------
// Keys
// ---------------------------------------------------------------------------

/// The list of agents after a key, and what the key asks for. Enter chooses,
/// and Esc closes the list.
pub open spec fn picker_after(p: AgentPickerComponent, code: KeyCode) -> (
    Option<AgentPickerComponent>,
    Option<Action>,
) {
    match code {
        KeyCode::Up => (
            Some(
                AgentPickerComponent {
                    selected: if p.selected > 0 {
                        (p.selected - 1) as usize
                    } else {
                        0
                    },
                    ..p
                },
            ),
            None,
        ),
        KeyCode::Down => (
            Some(
                AgentPickerComponent {
                    selected: if p.selected + 1 < p.agents@.len() {
                        (p.selected + 1) as usize
                    } else {
                        p.selected
                    },
                    ..p
                },
            ),
            None,
        ),
        KeyCode::Enter => (None, Some(Action::CreateSession(p.selected))),
        KeyCode::Esc => (None, None),
        _ => (Some(p), None),
    }
}

/// The tab that an entry of the bar switches to.
pub open spec fn entry_tab(e: TabBarEntry) -> Option<ActiveTab> {
    match e {
        TabBarEntry::Session { id, label: _ } => Some(ActiveTab::Session(id)),
        TabBarEntry::NewButton => None,
        TabBarEntry::Utility { tab, label: _ } => Some(tab),
    }
}

/// The tab that stands at a place among those that can be switched to.
pub open spec fn nth_tab(entries: Seq<TabBarEntry>, n: nat) -> Option<ActiveTab>
    decreases entries.len(),
{
    if entries.len() == 0 {
        None
    } else {
        match entry_tab(entries[0]) {
            Some(tab) => if n == 0 {
                Some(tab)
            } else {
                nth_tab(entries.skip(1), (n - 1) as nat)
            },
            None => nth_tab(entries.skip(1), n),
        }
    }
}

/// The tab that stands at a place among those that can be switched to.
pub fn tab_at(entries: &Vec<TabBarEntry>, n: usize) -> (tab: Option<ActiveTab>)
    ensures
        tab == nth_tab(entries@, n as nat),
{
    let mut left: usize = n;
    let mut i: usize = 0;
    assert(entries@.skip(0) =~= entries@);
    while i < entries.len()
        invariant
            i <= entries@.len(),
            nth_tab(entries@, n as nat) == nth_tab(entries@.skip(i as int), left as nat),
        decreases entries.len() - i,
    {
        assert(entries@.skip(i as int)[0] == entries@[i as int]);
        assert(entries@.skip(i as int).skip(1) =~= entries@.skip(i + 1));
        let found = match &entries[i] {
            TabBarEntry::Session { id, label: _ } => Some(ActiveTab::Session(*id)),
            TabBarEntry::NewButton => None,
            TabBarEntry::Utility { tab, label: _ } => Some(*tab),
        };
        if let Some(tab) = found {
            if left == 0 {
                return Some(tab);
            }
            left -= 1;
        }
        i += 1;
    }
    None
}

/// What a key asks for everywhere: an answer, or `None` where the tab decides.
pub open spec fn global_key(key: KeyEvent, entries: Seq<TabBarEntry>) -> Option<Option<Action>> {
    if !key.control {
        None
    } else {
        match key.code {
            KeyCode::Char(c) => if c == 'c' {
                Some(Some(Action::Quit))
            } else if c == 'n' {
                Some(Some(Action::NewSession))
            } else if c == 'w' {
                Some(Some(Action::CloseActiveSession))
            } else if '1' <= c <= '9' {
                Some(
                    match nth_tab(entries, (c as int - '1' as int) as nat) {
                        Some(tab) => Some(Action::SwitchTab(tab)),
                        None => None,
                    },
                )
            } else {
                None
            },
            _ => None,
        }
    }
}

fn global_key_action(key: KeyEvent, entries: &Vec<TabBarEntry>) -> (r: Option<Option<Action>>)
    ensures
        r == global_key(key, entries@),
{
    if !key.control {
        return None;
    }
    match key.code {
        KeyCode::Char(c) => {
            if c == 'c' {
                Some(Some(Action::Quit))
            } else if c == 'n' {
                Some(Some(Action::NewSession))
            } else if c == 'w' {
                Some(Some(Action::CloseActiveSession))
            } else if '1' <= c && c <= '9' {
                let place: u32 = c as u32 - '1' as u32;
                Some(
                    match tab_at(entries, place as usize) {
                        Some(tab) => Some(Action::SwitchTab(tab)),
                        None => None,
                    },
                )
            } else {
                None
            }
        },
        _ => None,
    }
}

/// A session's tab after a key. What the keys do that move the cursor or edit a
/// selection is for the box to say.
pub open spec fn tab_after_key(before: SessionTab, after: SessionTab, key: KeyEvent) -> bool {
    match key_action(key, before.id, before.waiting, before.show_stderr, before.focused_panel) {
        Some(Action::SessionInsertNewline(_)) => after == (SessionTab {
            textarea: after.textarea,
            ..before
        }) && is_broken(box_of(before.textarea), box_of(after.textarea)),
        Some(Action::SessionInput { .. }) => after == (SessionTab {
            textarea: after.textarea,
            ..before
        }) && is_typed(box_of(before.textarea), box_of(after.textarea), key),
        Some(Action::SessionToggleStderr(_)) => after == (SessionTab {
            show_stderr: !before.show_stderr,
            focused_panel: if before.show_stderr {
                FocusedPanel::Conversation
            } else {
                before.focused_panel
            },
            ..before
        }),
        Some(Action::SessionCycleFocus(_)) => after == (SessionTab {
            focused_panel: match before.focused_panel {
                FocusedPanel::Conversation => FocusedPanel::Stderr,
                FocusedPanel::Stderr => FocusedPanel::Conversation,
            },
            ..before
        }),
        Some(Action::SessionScrollConversation { delta, .. }) => after == (SessionTab {
            scroll_offset: scrolled(before.scroll_offset, delta),
            ..before
        }),
        Some(Action::SessionScrollStderr { delta, .. }) => after == (SessionTab {
            stderr_scroll: scrolled(before.stderr_scroll, delta),
            ..before
        }),
        _ => after == before,
    }
}

fn scroll_focused_panel(tab: &mut SessionTab, delta: i16)
    ensures
        *final(tab) == (match old(tab).focused_panel {
            FocusedPanel::Conversation => SessionTab {
                scroll_offset: scrolled(old(tab).scroll_offset, delta),
                ..*old(tab)
            },
            FocusedPanel::Stderr => SessionTab {
                stderr_scroll: scrolled(old(tab).stderr_scroll, delta),
                ..*old(tab)
            },
        }),
{
    match tab.focused_panel {
        FocusedPanel::Conversation => {
            tab.scroll_offset = apply_scroll_delta(tab.scroll_offset, delta);
        },
        FocusedPanel::Stderr => {
            tab.stderr_scroll = apply_scroll_delta(tab.stderr_scroll, delta);
        },
    }
}

/// Does what a key asks in a session's tab. A prompt is sent by whoever holds
/// the session.
pub fn session_tab_key(tab: &mut SessionTab, key: KeyEvent) -> (action: Option<Action>)
    ensures
        tab_after_key(*old(tab), *final(tab), key),
        action == (if key.code == KeyCode::Enter && !old(tab).waiting && !key.alt && !key.shift {
            Some(Action::SessionSubmitPrompt(old(tab).id))
        } else {
            None
        }),
{
    if key.code == KeyCode::Enter && !tab.waiting {
        if key.alt || key.shift {
            insert_newline(&mut tab.textarea);
            return None;
        }
        return Some(Action::SessionSubmitPrompt(tab.id));
    }
    if key.code == KeyCode::Char('e') && key.control {
        tab.show_stderr = !tab.show_stderr;
        if !tab.show_stderr {
            tab.focused_panel = FocusedPanel::Conversation;
        }
    } else if key.code == KeyCode::Tab && tab.show_stderr {
        tab.focused_panel = match tab.focused_panel {
            FocusedPanel::Conversation => FocusedPanel::Stderr,
            FocusedPanel::Stderr => FocusedPanel::Conversation,
        };
    } else if key.code == KeyCode::Up && key.shift {
        scroll_focused_panel(tab, -1);
    } else if key.code == KeyCode::Down && key.shift {
        scroll_focused_panel(tab, 1);
    } else if key.code == KeyCode::PageUp {
        scroll_focused_panel(tab, -8);
    } else if key.code == KeyCode::PageDown {
        scroll_focused_panel(tab, 8);
    } else if !tab.waiting {
        type_key(&mut tab.textarea, key);
    }
    None
}

/// What a key asks for among the recorded sessions. Esc closes the turns that
/// are shown, or else goes to the first session.
pub open spec fn sessions_key(app: App, code: KeyCode) -> Option<Action> {
    match code {
        KeyCode::Up => Some(Action::SessionsSelectPrev),
        KeyCode::Char('k') => Some(Action::SessionsSelectPrev),
        KeyCode::Down => Some(Action::SessionsSelectNext),
        KeyCode::Char('j') => Some(Action::SessionsSelectNext),
        KeyCode::Enter => Some(Action::SessionsOpenDetail),
        KeyCode::Char('f') => if app.expanded is Some {
            Some(Action::Fork)
        } else {
            None
        },
        KeyCode::Char('r') => Some(Action::SessionsRefresh),
        KeyCode::Esc => if app.expanded is None && app.session_tabs@.len() > 0 {
            Some(Action::SwitchTab(ActiveTab::Session(app.session_tabs@[0].id)))
        } else {
            None
        },
        _ => None,
    }
}

fn sessions_tab_key(app: &mut App, code: KeyCode) -> (action: Option<Action>)
    ensures
        action == sessions_key(*old(app), code),
        *final(app) == (App {
            expanded: if code == KeyCode::Esc {
                None
            } else {
                old(app).expanded
            },
            ..*old(app)
        }),
{
    match code {
        KeyCode::Up => Some(Action::SessionsSelectPrev),
        KeyCode::Char('k') => Some(Action::SessionsSelectPrev),
        KeyCode::Down => Some(Action::SessionsSelectNext),
        KeyCode::Char('j') => Some(Action::SessionsSelectNext),
        KeyCode::Enter => Some(Action::SessionsOpenDetail),
        KeyCode::Char('f') => if app.expanded.is_some() {
            Some(Action::Fork)
        } else {
            None
        },
        KeyCode::Char('r') => Some(Action::SessionsRefresh),
        KeyCode::Esc => {
            if app.expanded.is_some() {
                app.expanded = None;
                None
            } else if app.session_tabs.len() > 0 {
                Some(Action::SwitchTab(ActiveTab::Session(app.session_tabs[0].id)))
            } else {
                None
            }
        },
        _ => None,
    }
}

/// The interface and what is asked of it after a key: the list of agents takes
/// every key while it is open; then come the keys that count everywhere; then
/// the tab that is shown.
pub open spec fn key_effect(
    before: App,
    after: App,
    action: Option<Action>,
    key: KeyEvent,
    entries: Seq<TabBarEntry>,
) -> bool {
    match before.agent_picker {
        Some(p) => {
            let next = picker_after(p, key.code);
            after == (App { agent_picker: next.0, ..before }) && action == next.1
        },
        None => match global_key(key, entries) {
            Some(answer) => after == before && action == answer,
            None => match before.active_tab {
                ActiveTab::Session(_) => match active_place(before) {
                    Some(i) => {
                        let tab = before.session_tabs@[i];
                        &&& after == (App { session_tabs: after.session_tabs, ..before })
                        &&& after.session_tabs@ == before.session_tabs@.update(
                            i,
                            after.session_tabs@[i],
                        )
                        &&& tab_after_key(tab, after.session_tabs@[i], key)
                        &&& action == (if key.code == KeyCode::Enter && !tab.waiting && !key.alt
                            && !key.shift {
                            Some(Action::SessionSubmitPrompt(tab.id))
                        } else {
                            None
                        })
                    },
                    None => after == before && action is None,
                },
                ActiveTab::Sessions => {
                    &&& action == sessions_key(before, key.code)
                    &&& after == (App {
                        expanded: if key.code == KeyCode::Esc {
                            None
                        } else {
                            before.expanded
                        },
                        ..before
                    })
                },
                _ => after == before && action is None,
            },
        },
    }
}

fn picker_key(picker: AgentPickerComponent, code: KeyCode) -> (r: (
    Option<AgentPickerComponent>,
    Option<Action>,
))
    ensures
        r == picker_after(picker, code),
{
    let mut p = picker;
    match code {
        KeyCode::Up => {
            p.selected = if p.selected > 0 {
                p.selected - 1
            } else {
                0
            };
            (Some(p), None)
        },
        KeyCode::Down => {
            if p.selected < p.agents.len() && p.selected + 1 < p.agents.len() {
                p.selected = p.selected + 1;
            }
            (Some(p), None)
        },
        KeyCode::Enter => (None, Some(Action::CreateSession(p.selected))),
        KeyCode::Esc => (None, None),
        _ => (Some(p), None),
    }
}

/// Takes a key, and says what it asks for.
pub fn handle_key_events(key: KeyEvent, app: &mut App, entries: &Vec<TabBarEntry>) -> (action:
    Option<Action>)
    ensures
        key_effect(*old(app), *final(app), action, key, entries@),
{
    if app.agent_picker.is_some() {
        let mut picker: Option<AgentPickerComponent> = None;
        std::mem::swap(&mut picker, &mut app.agent_picker);
        if let Some(p) = picker {
            let (next, action) = picker_key(p, key.code);
            app.agent_picker = next;
            return action;
        }
        return None;
    }
    if let Some(answer) = global_key_action(key, entries) {
        return answer;
    }
    match app.active_tab {
        ActiveTab::Session(_) => match app.active_session() {
            Some(i) => session_tab_key(&mut app.session_tabs[i], key),
            None => None,
        },
        ActiveTab::Sessions => sessions_tab_key(app, key.code),
        _ => None,
    }
}

// ---------------------------------------------------------------------------
// The mouse
// ---------------------------------------------------------------------------

/// The first target that a column is in.
pub open spec fn box_at(boxes: Seq<HitBox>, x: int) -> Option<ClickTarget>
    decreases boxes.len(),
{
    if boxes.len() == 0 {
        None
    } else {
        match box_at(boxes.drop_last(), x) {
            Some(target) => Some(target),
            None => if boxes.last().start <= x < boxes.last().end {
                Some(boxes.last().target)
            } else {
                None
            },
        }
    }
}

proof fn lemma_box_found(boxes: Seq<HitBox>, x: int, n: int)
    requires
        0 <= n <= boxes.len(),
        box_at(boxes.take(n), x) is Some,
    ensures
        box_at(boxes, x) == box_at(boxes.take(n), x),
    decreases boxes.len() - n,
{
    if n == boxes.len() {
        assert(boxes.take(n) =~= boxes);
    } else {
        assert(boxes.take(n + 1).drop_last() =~= boxes.take(n));
        lemma_box_found(boxes, x, n + 1);
    }
}

/// What a click on a column of the tab bar asks for.
pub fn target_from_click(x: u16, app: &App, entries: &Vec<TabBarEntry>) -> (target: Option<
    ClickTarget,
>)
    requires
        status_width(*app) + 2 + entry_offset(entries@, entries@.len() as int) <= usize::MAX,
    ensures
        target == box_at(bar_boxes(entries@, status_width(*app) + 2, entries@.len()), x as int),
{
    let boxes = tab_click_hitboxes(app, entries);
    let mut i: usize = 0;
    assert(boxes@.take(0) =~= Seq::empty());
    while i < boxes.len()
        invariant
            i <= boxes@.len(),
            boxes@ == bar_boxes(entries@, status_width(*app) + 2, entries@.len()),
            box_at(boxes@.take(i as int), x as int) is None,
        decreases boxes.len() - i,
    {
        assert(boxes@.take(i + 1).drop_last() =~= boxes@.take(i as int));
        if boxes[i].start <= x as usize && (x as usize) < boxes[i].end {
            proof {
                lemma_box_found(boxes@, x as int, i + 1);
            }
            return Some(boxes[i].target);
        }
        i += 1;
    }
    assert(boxes@.take(boxes@.len() as int) =~= boxes@);
    None
}

/// The areas of a session's tab: everything above the tab bar, the
/// conversation, and where the errors are shown the two panels.
#[derive(Clone, Copy, Debug)]
pub struct TabLayout {
    pub main: Rect,
    pub conversation: Rect,
    pub panels: Option<(Rect, Rect)>,
}

/// The areas of a session's tab, from how its area was divided: the tab bar off
/// it, the prompt off the rest, and that into two panels where the errors are
/// shown.
pub open spec fn tab_arranged(
    rows: Seq<Rect>,
    parts: Seq<Rect>,
    columns: Option<Seq<Rect>>,
) -> TabLayout {
    TabLayout {
        main: rows[0],
        conversation: parts[0],
        panels: match columns {
            Some(c) => Some((c[0], c[1])),
            None => None,
        },
    }
}

/// The areas of a session's tab, from how its area was divided.
pub fn tab_parts(
    rows: &Vec<Rect>,
    parts: &Vec<Rect>,
    columns: Option<&Vec<Rect>>,
) -> (layout: TabLayout)
    requires
        rows@.len() == 2,
        parts@.len() == 2,
        columns matches Some(c) ==> c@.len() == 2,
    ensures
        layout == tab_arranged(rows@, parts@, rects_of(columns)),
{
    let panels = match columns {
        Some(c) => Some((c[0], c[1])),
        None => None,
    };
    TabLayout { main: rows[0], conversation: parts[0], panels }
}

/// Whether the area of a session's tab may be divided into these parts.
pub open spec fn tab_divided(
    rows: Seq<Rect>,
    parts: Seq<Rect>,
    columns: Option<Seq<Rect>>,
    area: Rect,
    show_stderr: bool,
    fork: Option<Seq<char>>,
) -> bool {
    &&& comes_of(rows, screen_plan(area))
    &&& comes_of(parts, outer_plan(rows[0], fork))
    &&& columns is Some == show_stderr
    &&& columns matches Some(c) ==> comes_of(c, panel_plan(parts[0]))
}

/// Whether these are the areas of a session's tab: the parts of its divisions,
/// each in its place, and each in the one that it was cut from.
pub open spec fn is_tab_layout(
    layout: TabLayout,
    area: Rect,
    show_stderr: bool,
    fork: Option<Seq<char>>,
) -> bool {
    &&& exists|rows: Seq<Rect>, parts: Seq<Rect>, columns: Option<Seq<Rect>>|
        #[trigger] tab_divided(rows, parts, columns, area, show_stderr, fork) && layout
            == tab_arranged(rows, parts, columns)
    &&& layout.main.x == area.x && layout.main.width == area.width
    &&& layout.conversation.x == area.x && layout.conversation.width == area.width
    &&& within(layout.main, area) && within(layout.conversation, layout.main)
    &&& layout.panels matches Some(p) ==> within(p.0, layout.conversation) && within(
        p.1,
        layout.conversation,
    )
    &&& layout.panels matches Some(p) ==> p.0.y == layout.conversation.y && p.0.height
        == layout.conversation.height && p.1.y == layout.conversation.y && p.1.height
        == layout.conversation.height
}

/// The areas of a session's tab.
pub fn tab_layout(area: Rect, tab: &SessionTab) -> (layout: TabLayout)
    ensures
        is_tab_layout(layout, area, tab.show_stderr, opt_text(tab.pending_fork_message)),
{
    let rows = split(area, Direction::Vertical, &screen_rows(), 0);
    let main = rows[0];
    let parts = split(
        main,
        Direction::Vertical,
        &outer_constraints(&tab.pending_fork_message, main.width),
        0,
    );
    let columns = if tab.show_stderr {
        Some(split(parts[0], Direction::Horizontal, &panel_constraints(), 0))
    } else {
        None
    };
    let columns = match &columns {
        Some(c) => Some(c),
        None => None,
    };
    assert(tab_divided(
        rows@,
        parts@,
        rects_of(columns),
        area,
        tab.show_stderr,
        opt_text(tab.pending_fork_message),
    ));
    tab_parts(&rows, &parts, columns)
}

/// The panel under a cell.
pub open spec fn panel_at(layout: TabLayout, column: u16, row: u16) -> Option<FocusedPanel> {
    if !layout.main.has(column, row) || !layout.conversation.has(column, row) {
        None
    } else {
        match layout.panels {
            Some(p) => if p.0.has(column, row) {
                Some(FocusedPanel::Conversation)
            } else if p.1.has(column, row) {
                Some(FocusedPanel::Stderr)
            } else {
                None
            },
            None => Some(FocusedPanel::Conversation),
        }
    }
}

/// A session's tab after the wheel turned over a cell: the panel under it is
/// focused and scrolled.
pub open spec fn tab_after_wheel(
    tab: SessionTab,
    layout: TabLayout,
    column: u16,
    row: u16,
    delta: i16,
) -> SessionTab {
    match panel_at(layout, column, row) {
        Some(FocusedPanel::Conversation) => SessionTab {
            focused_panel: FocusedPanel::Conversation,
            scroll_offset: scrolled(tab.scroll_offset, delta),
            ..tab
        },
        Some(FocusedPanel::Stderr) => SessionTab {
            focused_panel: FocusedPanel::Stderr,
            stderr_scroll: scrolled(tab.stderr_scroll, delta),
            ..tab
        },
        None => tab,
    }
}

/// Focuses and scrolls the panel under a cell, and says whether there is one.
pub fn scroll_tab(tab: &mut SessionTab, layout: &TabLayout, column: u16, row: u16, delta: i16) -> (
r: bool)
    ensures
        *final(tab) == tab_after_wheel(*old(tab), *layout, column, row, delta),
        r == panel_at(*layout, column, row) is Some,
{
    if !layout.main.contains(column, row) || !layout.conversation.contains(column, row) {
        return false;
    }
    let stderr = match layout.panels {
        Some(p) => {
            if p.0.contains(column, row) {
                false
            } else if p.1.contains(column, row) {
                true
            } else {
                return false;
            }
        },
        None => false,
    };
    if stderr {
        tab.focused_panel = FocusedPanel::Stderr;
        tab.stderr_scroll = apply_scroll_delta(tab.stderr_scroll, delta);
    } else {
        tab.focused_panel = FocusedPanel::Conversation;
        tab.scroll_offset = apply_scroll_delta(tab.scroll_offset, delta);
    }
    true
}

/// What a press asks for: one on the last row goes to the tab bar.
pub open spec fn press_action(
    app: App,
    mouse: MouseEvent,
    entries: Seq<TabBarEntry>,
    height: u16,
) -> Option<Action> {
    if mouse.kind == MouseKind::Press && mouse.row == floored(height - 1) {
        match box_at(
            bar_boxes(entries, status_width(app) + 2, entries.len()),
            mouse.column as int,
        ) {
            Some(ClickTarget::SwitchTab(tab)) => Some(Action::SwitchTab(tab)),
            Some(ClickTarget::CloseSession(id)) => Some(Action::CloseSession(id)),
            Some(ClickTarget::NewSession) => Some(Action::NewSession),
            None => None,
        }
    } else {
        None
    }
}

/// The interface after the mouse did something, where the session that is shown
/// is laid out like this: the wheel goes to the panel under it.
pub open spec fn after_mouse(before: App, after: App, mouse: MouseEvent, layout: TabLayout) -> bool {
    match (wheel_delta(mouse.kind), active_place(before)) {
        (Some(delta), Some(i)) => {
            &&& after == (App { session_tabs: after.session_tabs, ..before })
            &&& after.session_tabs@ == before.session_tabs@.update(
                i,
                tab_after_wheel(
                    before.session_tabs@[i],
                    layout,
                    mouse.column,
                    mouse.row,
                    delta,
                ),
            )
        },
        _ => after == before,
    }
}

/// Turns the wheel over the session that is shown, which is laid out like this.
pub fn handle_wheel(mouse: MouseEvent, app: &mut App, layout: &TabLayout)
    ensures
        after_mouse(*old(app), *final(app), mouse, *layout),
{
    if let Some(delta) = wheel(mouse.kind) {
        if let Some(i) = app.active_session() {
            scroll_tab(&mut app.session_tabs[i], layout, mouse.column, mouse.row, delta);
        }
    }
}

/// Takes what the mouse did, and says what it asks for. A press on the last row
/// goes to the tab bar; the wheel goes to the panel under it.
pub fn handle_mouse_events(
    mouse: MouseEvent,
    app: &mut App,
    entries: &Vec<TabBarEntry>,
    width: u16,
    height: u16,
) -> (action: Option<Action>)
    requires
        status_width(*old(app)) + 2 + entry_offset(entries@, entries@.len() as int) <= usize::MAX,
    ensures
        action == (if wheel_delta(mouse.kind) is Some {
            None
        } else {
            press_action(*old(app), mouse, entries@, height)
        }),
        (match active_place(*old(app)) {
            Some(i) if wheel_delta(mouse.kind) is Some => exists|layout: TabLayout|
                {
                    &&& #[trigger] is_tab_layout(
                        layout,
                        Rect { x: 0, y: 0, width, height },
                        old(app).session_tabs@[i].show_stderr,
                        opt_text(old(app).session_tabs@[i].pending_fork_message),
                    )
                    &&& after_mouse(*old(app), *final(app), mouse, layout)
                },
            _ => *final(app) == *old(app),
        }),
{
    if wheel(mouse.kind).is_some() {
        if let Some(i) = app.active_session() {
            let area = Rect { x: 0, y: 0, width, height };
            let layout = tab_layout(area, &app.session_tabs[i]);
            handle_wheel(mouse, app, &layout);
            assert(is_tab_layout(
                layout,
                area,
                old(app).session_tabs@[i as int].show_stderr,
                opt_text(old(app).session_tabs@[i as int].pending_fork_message),
            ) && after_mouse(*old(app), *app, mouse, layout));
        }
        return None;
    }
    if mouse.kind == MouseKind::Press && mouse.row == sub_floored(height, 1) {
        match target_from_click(mouse.column, app, entries) {
            Some(ClickTarget::SwitchTab(tab)) => Some(Action::SwitchTab(tab)),
            Some(ClickTarget::CloseSession(id)) => Some(Action::CloseSession(id)),
            Some(ClickTarget::NewSession) => Some(Action::NewSession),
            None => None,
        }
    } else {
        None
    }
}

// ---------------------------------------------------------------------------
// Laws
// ---------------------------------------------------------------------------

/// In the list of agents Down goes to the next agent and Up to the one before,
/// as far as there is one, Enter starts a session with the agent that is
/// selected, and Esc starts none; both close the list.
pub proof fn the_list_of_agents_takes_its_keys(p: AgentPickerComponent)
    requires
        p.selected < p.agents@.len(),
    ensures
        (match picker_after(p, KeyCode::Down) {
            (Some(after), None) => after.agents == p.agents && after.selected < p.agents@.len()
                && after.selected == (if p.selected + 1 == p.agents@.len() {
                p.selected as int
            } else {
                p.selected + 1
            }),
            _ => false,
        }),
        (match picker_after(p, KeyCode::Up) {
            (Some(after), None) => after.agents == p.agents && (if p.selected == 0 {
                after.selected == 0
            } else {
                after.selected + 1 == p.selected
            }),
            _ => false,
        }),
        (match picker_after(p, KeyCode::Enter) {
            (None, Some(Action::CreateSession(i))) => i == p.selected,
            _ => false,
        }),
        (match picker_after(p, KeyCode::Esc) {
            (None, None) => true,
            _ => false,
        }),
{
    assert(p.agents@.len() == p.agents.len());
}

/// While the list of agents is open it takes every key, and no tab does; else a
/// key changes at most the tab that is shown, and never which tab that is.
pub proof fn a_key_goes_to_one_place(
    before: App,
    after: App,
    action: Option<Action>,
    key: KeyEvent,
    entries: Seq<TabBarEntry>,
    i: int,
)
    requires
        key_effect(before, after, action, key, entries),
        0 <= i < before.session_tabs@.len(),
        before.agent_picker is Some || before.active_tab != ActiveTab::Session(
            before.session_tabs@[i].id,
        ),
    ensures
        after.active_tab == before.active_tab,
        after.session_tabs@.len() == before.session_tabs@.len(),
        after.session_tabs@[i] == before.session_tabs@[i],
        before.agent_picker is Some ==> after.session_tabs == before.session_tabs && after.expanded
            == before.expanded,
        before.agent_picker is None ==> after.agent_picker is None,
{
    if let ActiveTab::Session(id) = before.active_tab {
        crate::ui::lemma_tab_place(before.session_tabs@, id);
    }
}

/// Quitting, starting a session and closing the one that is shown have the same
/// keys in every tab; and with the list of agents closed those keys change
/// nothing by themselves.
pub proof fn some_keys_count_everywhere(
    before: App,
    after: App,
    action: Option<Action>,
    key: KeyEvent,
    entries: Seq<TabBarEntry>,
)
    requires
        key_effect(before, after, action, key, entries),
        before.agent_picker is None,
        key.control,
    ensures
        key.code == KeyCode::Char('c') ==> action == Some(Action::Quit) && after == before,
        key.code == KeyCode::Char('n') ==> action == Some(Action::NewSession) && after == before,
        key.code == KeyCode::Char('w') ==> action == Some(Action::CloseActiveSession) && after
            == before,
{
}

/// How many of the entries can be switched to.
pub open spec fn count_tabs(entries: Seq<TabBarEntry>) -> nat
    decreases entries.len(),
{
    if entries.len() == 0 {
        0
    } else {
        count_tabs(entries.drop_last()) + (if entries.last() is NewButton {
            0nat
        } else {
            1
        })
    }
}

proof fn lemma_count_first(entries: Seq<TabBarEntry>)
    requires
        entries.len() > 0,
    ensures
        count_tabs(entries) == count_tabs(entries.skip(1)) + (if entries[0] is NewButton {
            0nat
        } else {
            1
        }),
    decreases entries.len(),
{
    if entries.len() == 1 {
        assert(entries.skip(1) =~= Seq::empty());
        assert(entries.drop_last() =~= Seq::empty());
        assert(count_tabs(entries.drop_last()) == 0);
        assert(count_tabs(entries.skip(1)) == 0);
    } else {
        lemma_count_first(entries.drop_last());
        assert(entries.skip(1).drop_last() =~= entries.drop_last().skip(1));
    }
}

proof fn lemma_nth_tab(entries: Seq<TabBarEntry>, i: int)
    requires
        0 <= i < entries.len(),
        !(entries[i] is NewButton),
    ensures
        nth_tab(entries, count_tabs(entries.take(i))) == entry_tab(entries[i]),
    decreases i,
{
    if i == 0 {
        assert(entries.take(0) =~= Seq::empty());
        assert(count_tabs(entries.take(0)) == 0);
    } else {
        let rest = entries.skip(1);
        lemma_nth_tab(rest, i - 1);
        lemma_count_first(entries.take(i));
        assert(entries.take(i).skip(1) =~= rest.take(i - 1));
        assert(entries.take(i)[0] == entries[0]);
        assert(rest[i - 1] == entries[i]);
    }
}

/// Control and a digit show the tab that is that many along in the bar, the
/// button for a new session not counted.
pub proof fn a_digit_counts_the_tabs(key: KeyEvent, entries: Seq<TabBarEntry>, i: int, c: char)
    requires
        0 <= i < entries.len(),
        !(entries[i] is NewButton),
        '1' <= c <= '9',
        c as int - '1' as int == count_tabs(entries.take(i)),
        key.control,
        key.code == KeyCode::Char(c),
    ensures
        global_key(key, entries) == Some(
            Some(
                Action::SwitchTab(
                    match entries[i] {
                        TabBarEntry::Session { id, label: _ } => ActiveTab::Session(id),
                        TabBarEntry::Utility { tab, label: _ } => tab,
                        TabBarEntry::NewButton => ActiveTab::Help,
                    },
                ),
            ),
        ),
{
    lemma_nth_tab(entries, i);
}

proof fn lemma_box_at(boxes: Seq<HitBox>, x: int)
    ensures
        (match box_at(boxes, x) {
            Some(target) => exists|k: int|
                0 <= k < boxes.len() && (#[trigger] boxes[k]).start <= x < boxes[k].end
                    && boxes[k].target == target,
            None => forall|k: int|
                0 <= k < boxes.len() ==> !((#[trigger] boxes[k]).start <= x < boxes[k].end),
        }),
    decreases boxes.len(),
{
    if boxes.len() > 0 {
        let rest = boxes.drop_last();
        lemma_box_at(rest, x);
        match box_at(rest, x) {
            Some(target) => {
                let k = choose|k: int|
                    0 <= k < rest.len() && (#[trigger] rest[k]).start <= x < rest[k].end
                        && rest[k].target == target;
                assert(boxes[k] == rest[k]);
            },
            None => {
                assert forall|k: int| 0 <= k < rest.len() implies #[trigger] boxes[k]
                    == rest[k] by {}
                if boxes.last().start <= x < boxes.last().end {
                    assert(boxes[boxes.len() - 1] == boxes.last());
                }
            },
        }
    }
}

proof fn lemma_box_covers(entries: Seq<TabBarEntry>, lead: int, i: int, n: nat, x: int)
    requires
        0 <= i < n <= entries.len(),
        0 <= lead,
        lead + entry_offset(entries, n as int) <= usize::MAX,
        lead + entry_offset(entries, i) <= x < lead + entry_offset(entries, i) + entry_width(
            entries[i],
        ),
    ensures
        exists|k: int|
            0 <= k < bar_boxes(entries, lead, n).len() && (#[trigger] bar_boxes(
                entries,
                lead,
                n,
            )[k]).start <= x < bar_boxes(entries, lead, n)[k].end,
    decreases n,
{
    let before = bar_boxes(entries, lead, (n - 1) as nat);
    let all = bar_boxes(entries, lead, n);
    crate::tabs::lemma_offsets_grow(entries, n - 1, n as int);
    crate::tabs::lemma_offsets_grow(entries, 0, n - 1);
    if i < n - 1 {
        lemma_box_covers(entries, lead, i, (n - 1) as nat, x);
        let k = choose|k: int|
            0 <= k < before.len() && (#[trigger] before[k]).start <= x < before[k].end;
        assert(all[k] == before[k]);
    } else {
        let start = lead + entry_offset(entries, i);
        let e = entries[i];
        let own = entry_boxes(e, start);
        assert(entry_offset(entries, n as int) == entry_offset(entries, i) + entry_width(e));
        if x < start + label_text(e).len() {
            assert(all[before.len() as int] == own[0]);
        } else {
            assert(e is Session);
            assert(all[before.len() as int + 1] == own[1]);
        }
    }
}

/// A press on the bar asks for what is drawn there: on the name of a session
/// for that session, on the mark behind it for it to be closed, on another name
/// for that tab, on the button for a new session. A press elsewhere asks for
/// nothing.
pub proof fn a_press_asks_for_what_is_drawn(
    app: App,
    mouse: MouseEvent,
    entries: Seq<TabBarEntry>,
    height: u16,
    i: int,
)
    requires
        mouse.kind == MouseKind::Press,
        height > 0,
        0 <= i < entries.len(),
        status_width(app) + 2 + entry_offset(entries, entries.len() as int) <= usize::MAX,
        status_width(app) + 2 + entry_offset(entries, i) <= mouse.column < status_width(app) + 2
            + entry_offset(entries, i) + entry_width(entries[i]),
    ensures
        mouse.row + 1 != height ==> press_action(app, mouse, entries, height) is None,
        mouse.row + 1 == height ==> press_action(app, mouse, entries, height) == Some(
            match entries[i] {
                TabBarEntry::Session { id, label } => if mouse.column < status_width(app) + 2
                    + entry_offset(entries, i) + label@.len() + 2 {
                    Action::SwitchTab(ActiveTab::Session(id))
                } else {
                    Action::CloseSession(id)
                },
                TabBarEntry::NewButton => Action::NewSession,
                TabBarEntry::Utility { tab, label: _ } => Action::SwitchTab(tab),
            },
        ),
{
    let lead = status_width(app) + 2;
    let x = mouse.column as int;
    let n = entries.len();
    let boxes = bar_boxes(entries, lead, n);
    crate::ui::the_status_fits_its_cells(app);
    lemma_box_covers(entries, lead, i, n, x);
    lemma_box_at(boxes, x);
    let target = box_at(boxes, x)->0;
    let k = choose|k: int|
        0 <= k < boxes.len() && (#[trigger] boxes[k]).start <= x < boxes[k].end && boxes[k].target
            == target;
    crate::tabs::boxes_and_clicks_agree(entries, lead, n, k, x);
    crate::tabs::what_is_clicked_is_what_is_drawn(entries, lead, i, x);
    crate::tabs::a_click_means_its_entry(entries[i], lead + entry_offset(entries, i), x);
}

/// The wheel over the errors scrolls the errors, over the conversation the
/// conversation, and the panel under it gets the focus; elsewhere nothing
/// changes. What is written stays in any case.
pub proof fn the_wheel_moves_the_panel_under_it(
    tab: SessionTab,
    layout: TabLayout,
    column: u16,
    row: u16,
    delta: i16,
)
    ensures
        ({
            let after = tab_after_wheel(tab, layout, column, row, delta);
            let inside = layout.main.has(column, row) && layout.conversation.has(column, row);
            &&& after.textarea == tab.textarea && after.id == tab.id && after.show_stderr
                == tab.show_stderr && after.waiting == tab.waiting
            &&& !inside ==> after == tab
            &&& inside && layout.panels is None ==> after.focused_panel
                == FocusedPanel::Conversation && after.scroll_offset == scrolled(
                tab.scroll_offset,
                delta,
            ) && after.stderr_scroll == tab.stderr_scroll
            &&& layout.panels matches Some((left, right)) ==> {
                &&& inside && left.has(column, row) ==> after.focused_panel
                    == FocusedPanel::Conversation && after.scroll_offset == scrolled(
                    tab.scroll_offset,
                    delta,
                ) && after.stderr_scroll == tab.stderr_scroll
                &&& inside && right.has(column, row) && !left.has(column, row)
                    ==> after.focused_panel == FocusedPanel::Stderr && after.stderr_scroll
                    == scrolled(tab.stderr_scroll, delta) && after.scroll_offset
                    == tab.scroll_offset
            }
        }),
{
}

/// Esc among the recorded sessions closes the turns that are shown, and only
/// without any goes to the first session; a fork is asked for only of a session
/// whose turns are shown.
pub proof fn leaving_closes_the_turns_first(app: App)
    ensures
        app.expanded is Some ==> sessions_key(app, KeyCode::Esc) is None,
        app.expanded is None && app.session_tabs@.len() > 0 ==> sessions_key(app, KeyCode::Esc)
            == Some(Action::SwitchTab(ActiveTab::Session(app.session_tabs@[0].id))),
        sessions_key(app, KeyCode::Char('f')) == Some(Action::Fork) <==> app.expanded is Some,
        sessions_key(app, KeyCode::Up) == Some(Action::SessionsSelectPrev),
        sessions_key(app, KeyCode::Down) == Some(Action::SessionsSelectNext),
        sessions_key(app, KeyCode::Enter) == Some(Action::SessionsOpenDetail),
{
}

/// A key in a session's tab scrolls the panel that has the focus and no other,
/// shows or hides the errors, or goes to the other panel; a hidden panel never
/// keeps the focus. None of these changes what is written, and none of the keys
/// changes what the agent does.
pub proof fn a_key_changes_its_panel(before: SessionTab, after: SessionTab, key: KeyEvent)
    requires
        tab_after_key(before, after, key),
    ensures
        after.id == before.id && after.waiting == before.waiting && after.status == before.status
            && after.label == before.label && after.stderr_lines == before.stderr_lines
            && after.pending_fork_message == before.pending_fork_message,
        key.code == KeyCode::PageUp || key.code == KeyCode::PageDown ==> {
            let delta: i16 = if key.code == KeyCode::PageUp {
                (-8) as i16
            } else {
                8
            };
            &&& after.textarea == before.textarea && after.focused_panel == before.focused_panel
            &&& before.focused_panel == FocusedPanel::Conversation ==> after.scroll_offset
                == scrolled(before.scroll_offset, delta) && after.stderr_scroll
                == before.stderr_scroll
            &&& before.focused_panel == FocusedPanel::Stderr ==> after.stderr_scroll == scrolled(
                before.stderr_scroll,
                delta,
            ) && after.scroll_offset == before.scroll_offset
        },
        key.code == KeyCode::Char('e') && key.control ==> {
            &&& after.show_stderr == !before.show_stderr
            &&& !after.show_stderr ==> after.focused_panel == FocusedPanel::Conversation
            &&& after.textarea == before.textarea
        },
        key.code == KeyCode::Tab && before.show_stderr ==> after.focused_panel
            != before.focused_panel && after.textarea == before.textarea,
        before.waiting ==> after.textarea == before.textarea,
{
}

} // verus!
