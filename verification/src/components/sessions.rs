//! The browser of recorded sessions: a list of them, and the turns of one.

use crate::action::Action;
use crate::components::list_navigation::{
    list_of, new_list, scroll_by, scroll_list, select_item, selected_item, undrawn, with_selected,
};
use crate::components::session::rects_of;
use crate::components::turns::TurnRow;
use crate::diff::{opt_text, Oid};
use crate::geometry::{comes_of, split, within, Constraint, Direction, Plan, Rect};
use crate::input::{wheel, wheel_delta, KeyCode, KeyEvent, MouseEvent};
use crate::style::{colored, span_views, Color, Span, SpanView, Style};
use crate::tabs::ActiveTab;
use crate::text::{decimal, number, occurs};
use crate::timestamp::{format_timestamp, rfc3339, Timestamp};
use tui_widget_list::ListState;
use vstd::prelude::*;

verus! {

/// Which part of the browser the keys go to.
#[derive(Clone, Copy, Debug, PartialEq, Eq, Structural)]
pub enum SessionsPanelFocus {
    List,
    Detail,
}

/// The turns of a session.
pub struct DetailPanel {
    pub session_index: usize,
    pub rows: Vec<TurnRow>,
    pub list_state: ListState,
    /// Where the turns were last drawn.
    pub viewport: Rect,
}

/// A recorded session.
#[derive(Debug)]
pub struct SessionListItem {
    pub id: String,
    pub name: Option<String>,
    pub tip: Oid,
    pub modified_at: Timestamp,
}

/// The browser of recorded sessions.
pub struct SessionsBrowserComponent {
    pub sessions: Vec<SessionListItem>,
    pub detail: Option<DetailPanel>,
    pub list_state: ListState,
    pub focus: SessionsPanelFocus,
}

/// What the browser needs done for an action.
#[derive(Clone, Copy, Debug, PartialEq, Eq, Structural)]
pub enum SessionsRequest {
    Nothing,
    /// The sessions are to be read again.
    Refresh,
    /// The turns of a session are to be read.
    LoadTurns(usize),
}

/// The items that could be read.
pub open spec fn loaded(items: Seq<Option<SessionListItem>>) -> Seq<SessionListItem>
    decreases items.len(),
{
    if items.len() == 0 {
        Seq::empty()
    } else {
        match items.last() {
            Some(item) => loaded(items.drop_last()).push(item),
            None => loaded(items.drop_last()),
        }
    }
}

/// The session that is selected; the first where none is.
pub open spec fn selected_index(s: SessionsBrowserComponent) -> usize {
    match list_of(s.list_state).selected {
        Some(i) => i,
        None => 0,
    }
}

/// The session that is selected after the sessions were read again.
pub open spec fn selected_again(was: usize, count: nat) -> int {
    if was < count {
        was as int
    } else if count == 0 {
        0
    } else {
        count - 1
    }
}

/// Reading the sessions again keeps the selection where it was, and goes to the
/// last session where there are no longer so many.
pub proof fn reading_again_keeps_the_selection(was: usize, count: nat)
    ensures
        was < count ==> selected_again(was, count) == was,
        0 < count <= was ==> selected_again(was, count) + 1 == count,
        count > 0 ==> 0 <= selected_again(was, count) < count,
        count == 0 ==> selected_again(was, count) == 0,
{
}

/// The middle of a view is a column of the terminal.
pub open spec fn has_middle(viewport: Rect) -> bool {
    viewport.width > 0 ==> viewport.x + (viewport.width - 1) / 2 <= u16::MAX
}

impl SessionsBrowserComponent {
    /// A browser with nothing in it.
    pub fn new() -> (s: SessionsBrowserComponent)
        ensures
            s.sessions@.len() == 0,
            s.detail is None,
            list_of(s.list_state) == undrawn(),
            s.focus == SessionsPanelFocus::List,
            s.wf(),
    {
        SessionsBrowserComponent {
            sessions: Vec::new(),
            detail: None,
            list_state: new_list(),
            focus: SessionsPanelFocus::List,
        }
    }

    /// The view of the turns has a middle.
    pub open spec fn wf(&self) -> bool {
        self.detail matches Some(detail) ==> has_middle(detail.viewport)
    }

    /// The session that is selected; the first where none is.
    pub fn selected_session_index(&self) -> (i: usize)
        ensures
            i == selected_index(*self),
    {
        match selected_item(&self.list_state) {
            Some(i) => i,
            None => 0,
        }
    }

    /// What a fork of the selected session starts from: the session and its
    /// newest turn.
    pub fn selected_fork_info(&self) -> (r: Option<(String, Oid)>)
        ensures
            (match r {
                Some((id, tip)) => {
                    let i = selected_index(*self) as int;
                    i < self.sessions@.len() && id@ == self.sessions@[i].id@ && tip
                        == self.sessions@[i].tip
                },
                None => selected_index(*self) >= self.sessions@.len(),
            }),
    {
        let i: usize = self.selected_session_index();
        if i < self.sessions.len() {
            Some((self.sessions[i].id.clone(), self.sessions[i].tip))
        } else {
            None
        }
    }

    /// Whether turns are shown.
    pub fn has_detail(&self) -> (r: bool)
        ensures
            r == self.detail is Some,
    {
        self.detail.is_some()
    }

    /// Takes the sessions as they were read, without those that could not be.
    /// The selection stays where it was, or on the last one.
    pub fn refresh(&mut self, items: Vec<Option<SessionListItem>>)
        ensures
            final(self).wf(),
            final(self).sessions@ == loaded(items@),
            final(self).detail is None,
            final(self).focus == SessionsPanelFocus::List,
            ({
                let n = loaded(items@).len();
                let was = selected_index(*old(self));
                list_of(final(self).list_state) == with_selected(
                    list_of(old(self).list_state),
                    if was < n {
                        was
                    } else if n == 0 {
                        0
                    } else {
                        (n - 1) as usize
                    },
                )
            }),
            list_of(final(self).list_state).selected == Some(
                selected_again(selected_index(*old(self)), loaded(items@).len()) as usize,
            ),
    {
        let was: usize = self.selected_session_index();
        let ghost all = items@;
        let mut sessions: Vec<SessionListItem> = Vec::new();
        let mut rest = items;
        let mut taken: Vec<Option<SessionListItem>> = Vec::new();
        // The items are taken from the end, and put back in their order.
        while rest.len() > 0
            invariant
                rest@.len() + taken@.len() == all.len(),
                forall|k: int| 0 <= k < rest@.len() ==> rest@[k] == all[k],
                forall|k: int|
                    0 <= k < taken@.len() ==> (#[trigger] taken@[k]) == all[all.len() - 1 - k],
            decreases rest.len(),
        {
            let item = rest.pop();
            if let Some(item) = item {
                taken.push(item);
            }
        }
        assert(all.take(0) =~= Seq::empty());
        while taken.len() > 0
            invariant
                taken@.len() <= all.len(),
                forall|k: int|
                    0 <= k < taken@.len() ==> (#[trigger] taken@[k]) == all[all.len() - 1 - k],
                sessions@ == loaded(all.take(all.len() - taken@.len())),
            decreases taken.len(),
        {
            let ghost done = all.len() - taken@.len();
            assert(taken@.last() == all[done]);
            assert(all.take(done + 1).drop_last() =~= all.take(done));
            assert(all.take(done + 1).last() == all[done]);
            if let Some(Some(item)) = taken.pop() {
                sessions.push(item);
            }
        }
        assert(all.take(all.len() as int) =~= all);
        let n: usize = sessions.len();
        let selected: usize = if was < n {
            was
        } else if n == 0 {
            0
        } else {
            n - 1
        };
        self.sessions = sessions;
        select_item(&mut self.list_state, selected);
        self.detail = None;
        self.focus = SessionsPanelFocus::List;
    }

    /// Scrolls the turns.
    fn scroll_detail(&mut self, delta: i16)
        requires
            old(self).wf(),
        ensures
            final(self).wf(),
            *final(self) == (SessionsBrowserComponent { detail: final(self).detail, ..*old(self) }),
            detail_scrolled(old(self).detail, final(self).detail, delta),
    {
        if let Some(detail) = &mut self.detail {
            let viewport = detail.viewport;
            scroll_list(&mut detail.list_state, viewport, delta);
        }
    }

    /// Selects the next session, or scrolls the turns on.
    fn select_next(&mut self)
        requires
            old(self).wf(),
        ensures
            final(self).wf(),
            after_select(*old(self), *final(self), true),
    {
        match self.focus {
            SessionsPanelFocus::List => {
                let n: usize = self.sessions.len();
                if n > 0 {
                    let current: usize = self.selected_session_index();
                    let next: usize = if current < n - 1 {
                        current + 1
                    } else {
                        n - 1
                    };
                    select_item(&mut self.list_state, next);
                }
            },
            SessionsPanelFocus::Detail => {
                self.scroll_detail(1);
            },
        }
    }

    /// Selects the session before, or scrolls the turns back.
    fn select_prev(&mut self)
        requires
            old(self).wf(),
        ensures
            final(self).wf(),
            after_select(*old(self), *final(self), false),
    {
        match self.focus {
            SessionsPanelFocus::List => {
                let current: usize = self.selected_session_index();
                let previous: usize = if current > 0 {
                    current - 1
                } else {
                    0
                };
                select_item(&mut self.list_state, previous);
            },
            SessionsPanelFocus::Detail => {
                self.scroll_detail(-1);
            },
        }
    }

    /// Shows the turns of a session.
    pub fn open_detail(&mut self, index: usize, rows: Vec<TurnRow>)
        ensures
            final(self).wf(),
            final(self).focus == SessionsPanelFocus::Detail,
            final(self).detail matches Some(detail) && {
                &&& detail.session_index == index
                &&& detail.rows == rows
                &&& list_of(detail.list_state) == undrawn()
                &&& detail.viewport == (Rect { x: 0, y: 0, width: 0, height: 0 })
            },
            *final(self) == (SessionsBrowserComponent {
                detail: final(self).detail,
                focus: SessionsPanelFocus::Detail,
                ..*old(self)
            }),
    {
        self.detail = Some(
            DetailPanel {
                session_index: index,
                rows,
                list_state: new_list(),
                viewport: Rect::empty(),
            },
        );
        self.focus = SessionsPanelFocus::Detail;
    }

    /// What a key asks for.
    pub fn handle_key_event(&self, key: KeyEvent) -> (action: Option<Action>)
        ensures
            action == browser_key(key.code),
    {
        match key.code {
            KeyCode::Up => Some(Action::SessionsSelectPrev),
            KeyCode::Char('k') => Some(Action::SessionsSelectPrev),
            KeyCode::Down => Some(Action::SessionsSelectNext),
            KeyCode::Char('j') => Some(Action::SessionsSelectNext),
            KeyCode::Right => Some(Action::SessionsOpenDetail),
            KeyCode::Char('l') => Some(Action::SessionsOpenDetail),
            KeyCode::Enter => Some(Action::SessionsOpenDetail),
            KeyCode::Left => Some(Action::SessionsCloseDetail),
            KeyCode::Char('h') => Some(Action::SessionsCloseDetail),
            KeyCode::Char('r') => Some(Action::SessionsRefresh),
            KeyCode::Esc => Some(Action::SessionsBack),
            _ => None,
        }
    }

    /// What the mouse asks for: the wheel scrolls the turns.
    pub fn handle_mouse_event(&self, mouse: MouseEvent) -> (action: Option<Action>)
        ensures
            action == (match wheel_delta(mouse.kind) {
                Some(delta) => Some(Action::SessionsScrollDetail(delta)),
                None => None,
            }),
    {
        match wheel(mouse.kind) {
            Some(delta) => Some(Action::SessionsScrollDetail(delta)),
            None => None,
        }
    }

    /// Does what an action asks, and says what has to be read for it.
    pub fn update(&mut self, action: &Action) -> (request: SessionsRequest)
        requires
            old(self).wf(),
        ensures
            final(self).wf(),
            browser_after(*old(self), *final(self), *action, request),
    {
        match action {
            Action::SwitchTab(ActiveTab::Sessions) => SessionsRequest::Refresh,
            Action::SessionsRefresh => SessionsRequest::Refresh,
            Action::SessionsSelectNext => {
                self.select_next();
                SessionsRequest::Nothing
            },
            Action::SessionsSelectPrev => {
                self.select_prev();
                SessionsRequest::Nothing
            },
            Action::SessionsOpenDetail => {
                let index: usize = self.selected_session_index();
                if self.focus == SessionsPanelFocus::List && index < self.sessions.len() {
                    SessionsRequest::LoadTurns(index)
                } else {
                    SessionsRequest::Nothing
                }
            },
            Action::SessionsCloseDetail => {
                if self.focus == SessionsPanelFocus::Detail {
                    self.detail = None;
                    self.focus = SessionsPanelFocus::List;
                }
                SessionsRequest::Nothing
            },
            Action::SessionsScrollDetail(delta) => {
                self.scroll_detail(*delta);
                SessionsRequest::Nothing
            },
            _ => SessionsRequest::Nothing,
        }
    }

    /// Notes where the turns were drawn.
    pub fn turns_drawn_at(&mut self, area: Rect)
        ensures
            *final(self) == (SessionsBrowserComponent { detail: final(self).detail, ..*old(self) }),
            (match old(self).detail {
                Some(detail) => final(self).detail == Some(
                    DetailPanel { viewport: area, ..detail },
                ),
                None => final(self).detail is None,
            }),
    {
        if let Some(detail) = &mut self.detail {
            detail.viewport = area;
        }
    }
}

/// What a key asks for in the browser.
pub open spec fn browser_key(code: KeyCode) -> Option<Action> {
    match code {
        KeyCode::Up => Some(Action::SessionsSelectPrev),
        KeyCode::Char('k') => Some(Action::SessionsSelectPrev),
        KeyCode::Down => Some(Action::SessionsSelectNext),
        KeyCode::Char('j') => Some(Action::SessionsSelectNext),
        KeyCode::Right => Some(Action::SessionsOpenDetail),
        KeyCode::Char('l') => Some(Action::SessionsOpenDetail),
        KeyCode::Enter => Some(Action::SessionsOpenDetail),
        KeyCode::Left => Some(Action::SessionsCloseDetail),
        KeyCode::Char('h') => Some(Action::SessionsCloseDetail),
        KeyCode::Char('r') => Some(Action::SessionsRefresh),
        KeyCode::Esc => Some(Action::SessionsBack),
        _ => None,
    }
}

/// The turns after scrolling: nothing but the state of their list changes.
pub open spec fn detail_scrolled(
    before: Option<DetailPanel>,
    after: Option<DetailPanel>,
    delta: i16,
) -> bool {
    match before {
        Some(b) => after matches Some(a) && a == (DetailPanel { list_state: a.list_state, ..b })
            && list_of(a.list_state) == scroll_by(list_of(b.list_state), b.viewport, delta),
        None => after is None,
    }
}

/// The browser after selecting: the next session or the one before, and no
/// further than the list goes; or the turns, scrolled by a row.
pub open spec fn after_select(
    before: SessionsBrowserComponent,
    after: SessionsBrowserComponent,
    forward: bool,
) -> bool {
    match before.focus {
        SessionsPanelFocus::List => {
            let n = before.sessions@.len();
            let current = selected_index(before);
            &&& after == (SessionsBrowserComponent { list_state: after.list_state, ..before })
            &&& list_of(after.list_state) == (if forward {
                if n == 0 {
                    list_of(before.list_state)
                } else {
                    with_selected(
                        list_of(before.list_state),
                        if current < n - 1 {
                            (current + 1) as usize
                        } else {
                            (n - 1) as usize
                        },
                    )
                }
            } else {
                with_selected(
                    list_of(before.list_state),
                    if current > 0 {
                        (current - 1) as usize
                    } else {
                        0
                    },
                )
            })
        },
        SessionsPanelFocus::Detail => {
            &&& after == (SessionsBrowserComponent { detail: after.detail, ..before })
            &&& detail_scrolled(
                before.detail,
                after.detail,
                if forward {
                    1
                } else {
                    (-1) as i16
                },
            )
        },
    }
}

/// The browser after an action, and what has to be read for it.
pub open spec fn browser_after(
    before: SessionsBrowserComponent,
    after: SessionsBrowserComponent,
    action: Action,
    request: SessionsRequest,
) -> bool {
    match action {
        Action::SwitchTab(ActiveTab::Sessions) => request == SessionsRequest::Refresh && after
            == before,
        Action::SessionsRefresh => request == SessionsRequest::Refresh && after == before,
        Action::SessionsSelectNext => request == SessionsRequest::Nothing && after_select(
            before,
            after,
            true,
        ),
        Action::SessionsSelectPrev => request == SessionsRequest::Nothing && after_select(
            before,
            after,
            false,
        ),
        Action::SessionsOpenDetail => after == before && request == (if before.focus
            == SessionsPanelFocus::List && selected_index(before) < before.sessions@.len() {
            SessionsRequest::LoadTurns(selected_index(before))
        } else {
            SessionsRequest::Nothing
        }),
        Action::SessionsCloseDetail => request == SessionsRequest::Nothing && after == (
        if before.focus == SessionsPanelFocus::Detail {
            SessionsBrowserComponent {
                detail: None,
                focus: SessionsPanelFocus::List,
                ..before
            }
        } else {
            before
        }),
        Action::SessionsScrollDetail(delta) => {
            &&& request == SessionsRequest::Nothing
            &&& detail_scrolled(before.detail, after.detail, delta)
            &&& after == (SessionsBrowserComponent { detail: after.detail, ..before })
        },
        _ => request == SessionsRequest::Nothing && after == before,
    }
}

/// Selecting keeps to the sessions that there are.
pub proof fn selecting_stays_in_the_list(
    before: SessionsBrowserComponent,
    after: SessionsBrowserComponent,
    forward: bool,
)
    requires
        before.focus == SessionsPanelFocus::List,
        after_select(before, after, forward),
        before.sessions@.len() > 0,
        selected_index(before) < before.sessions@.len(),
    ensures
        selected_index(after) < after.sessions@.len(),
{
}

// ---------------------------------------------------------------------------
// Drawing
// ---------------------------------------------------------------------------

/// The areas of the browser: the list, the turns where they are shown, and a
/// hint where there is room for it.
#[derive(Clone, Copy, Debug, PartialEq, Eq, Structural)]
pub struct BrowserLayout {
    pub list: Rect,
    pub detail: Option<Rect>,
    pub hint: Rect,
}

/// How the browser's area is divided when there is room for a hint.
pub open spec fn browser_plan(area: Rect) -> Plan {
    Plan {
        area,
        direction: Direction::Vertical,
        constraints: seq![Constraint::Min(1), Constraint::Length(1)],
        overlap: 0,
    }
}

/// How the list and the turns share an area.
pub open spec fn detail_plan(area: Rect) -> Plan {
    Plan {
        area,
        direction: Direction::Horizontal,
        constraints: seq![Constraint::Percentage(40), Constraint::Percentage(60)],
        overlap: 0,
    }
}

/// What is asked for the list and the hint.
pub fn browser_rows() -> (c: Vec<Constraint>)
    ensures
        c@ == seq![Constraint::Min(1), Constraint::Length(1)],
{
    let mut c: Vec<Constraint> = Vec::new();
    c.push(Constraint::Min(1));
    c.push(Constraint::Length(1));
    assert(c@ =~= seq![Constraint::Min(1), Constraint::Length(1)]);
    c
}

/// What is asked for the list and the turns.
pub fn browser_columns() -> (c: Vec<Constraint>)
    ensures
        c@ == seq![Constraint::Percentage(40), Constraint::Percentage(60)],
{
    let mut c: Vec<Constraint> = Vec::new();
    c.push(Constraint::Percentage(40));
    c.push(Constraint::Percentage(60));
    assert(c@ =~= seq![Constraint::Percentage(40), Constraint::Percentage(60)]);
    c
}

/// The part of the browser above its hint: all of it where the hint has no room.
pub open spec fn body_of(area: Rect, rows: Option<Seq<Rect>>) -> Rect {
    match rows {
        Some(r) => r[0],
        None => area,
    }
}

/// The areas of the browser, from how its area was divided: into the list and
/// the hint where there is room for it, and the list's into the list and the
/// turns where they are shown.
pub open spec fn browser_arranged(
    area: Rect,
    rows: Option<Seq<Rect>>,
    columns: Option<Seq<Rect>>,
) -> BrowserLayout {
    BrowserLayout {
        list: match columns {
            Some(c) => c[0],
            None => body_of(area, rows),
        },
        detail: match columns {
            Some(c) => Some(c[1]),
            None => None,
        },
        hint: match rows {
            Some(r) => r[1],
            None => Rect { x: 0, y: 0, width: 0, height: 0 },
        },
    }
}

/// The areas of the browser, from how its area was divided.
pub fn browser_parts(
    area: Rect,
    rows: Option<&Vec<Rect>>,
    columns: Option<&Vec<Rect>>,
) -> (layout: BrowserLayout)
    requires
        rows matches Some(r) ==> r@.len() == 2,
        columns matches Some(c) ==> c@.len() == 2,
    ensures
        layout == browser_arranged(area, rects_of(rows), rects_of(columns)),
{
    let (body, hint) = match rows {
        Some(r) => (r[0], r[1]),
        None => (area, Rect::empty()),
    };
    match columns {
        Some(c) => BrowserLayout { list: c[0], detail: Some(c[1]), hint },
        None => BrowserLayout { list: body, detail: None, hint },
    }
}

/// Whether the browser's area may be divided into these parts.
pub open spec fn browser_divided(
    rows: Option<Seq<Rect>>,
    columns: Option<Seq<Rect>>,
    area: Rect,
    detail: bool,
) -> bool {
    &&& rows is Some == (area.height > 2)
    &&& rows matches Some(r) ==> comes_of(r, browser_plan(area))
    &&& columns is Some == detail
    &&& columns matches Some(c) ==> comes_of(c, detail_plan(body_of(area, rows)))
}

/// Whether these are the areas of the browser: the parts of its divisions, each
/// in its place. Whichever sizes they get, the list and the turns are as high as
/// each other, and everything is in the browser's area.
pub open spec fn is_browser_layout(layout: BrowserLayout, area: Rect, detail: bool) -> bool {
    &&& exists|rows: Option<Seq<Rect>>, columns: Option<Seq<Rect>>|
        #[trigger] browser_divided(rows, columns, area, detail) && layout == browser_arranged(
            area,
            rows,
            columns,
        )
    &&& area.height > 2 ==> layout.hint.x == area.x && layout.hint.width == area.width
    &&& !detail ==> layout.list.x == area.x && layout.list.width == area.width
    &&& area.height <= 2 ==> layout.list.y == area.y && layout.list.height == area.height
    &&& layout.detail matches Some(r) ==> r.y == layout.list.y && r.height == layout.list.height
        && within(r, area)
    &&& within(layout.list, area)
    &&& area.height > 2 ==> within(layout.hint, area)
}

/// The areas of the browser.
pub fn browser_layout(area: Rect, detail: bool) -> (layout: BrowserLayout)
    ensures
        is_browser_layout(layout, area, detail),
{
    let rows = if area.height > 2 {
        Some(split(area, Direction::Vertical, &browser_rows(), 0))
    } else {
        None
    };
    let body = match &rows {
        Some(r) => r[0],
        None => area,
    };
    let columns = if detail {
        Some(split(body, Direction::Horizontal, &browser_columns(), 0))
    } else {
        None
    };
    let rows = match &rows {
        Some(r) => Some(r),
        None => None,
    };
    let columns = match &columns {
        Some(c) => Some(c),
        None => None,
    };
    assert(browser_divided(rects_of(rows), rects_of(columns), area, detail));
    browser_parts(area, rows, columns)
}

/// The title of the list.
pub fn list_title(count: usize) -> (title: String)
    ensures
        title@ == "Sessions ("@ + decimal(count as nat) + ")"@,
{
    let shown = number(count as u64);
    let mut title = "Sessions (".to_owned();
    title.append(shown.as_str());
    title.append(")");
    title
}

/// The title of the turns: the name of their session, where it has one.
pub open spec fn turns_title(sessions: Seq<SessionListItem>, index: int) -> Seq<char> {
    if index < sessions.len() && sessions[index].name is Some {
        "Turns - "@ + sessions[index].name->0@
    } else {
        "Turns"@
    }
}

/// The title of the turns.
pub fn detail_title(sessions: &Vec<SessionListItem>, index: usize) -> (title: String)
    ensures
        title@ == turns_title(sessions@, index as int),
{
    if index < sessions.len() {
        if let Some(name) = &sessions[index].name {
            let mut title = "Turns - ".to_owned();
            title.append(name.as_str());
            return title;
        }
    }
    "Turns".to_owned()
}

/// How the name of a session is drawn.
pub open spec fn name_style(selected: bool) -> Style {
    Style { reversed: selected, ..colored(Color::White) }
}

/// The line of a session, from its time as it is written.
pub open spec fn session_spans(name: Option<Seq<char>>, time: Seq<char>, selected: bool) -> Seq<
    SpanView,
> {
    seq![
        SpanView {
            text: "  "@ + (match name {
                Some(name) => name,
                None => "(empty session)"@,
            }) + " "@,
            style: name_style(selected),
        },
        SpanView { text: "  •  "@, style: colored(Color::DarkGray) },
        SpanView { text: time, style: colored(Color::DarkGray) },
    ]
}

/// The line of a session, from its time as it is written.
pub fn item_spans(name: &Option<String>, time: String, selected: bool) -> (spans: Vec<Span>)
    ensures
        span_views(spans@) == session_spans(opt_text(*name), time@, selected),
{
    let ghost written = time@;
    let mut text = "  ".to_owned();
    match name {
        Some(name) => {
            text.append(name.as_str());
        },
        None => {
            text.append("(empty session)");
        },
    }
    text.append(" ");
    let mut spans: Vec<Span> = Vec::new();
    spans.push(
        Span {
            text,
            style: Style {
                fg: Color::White,
                bg: Color::Plain,
                bold: false,
                dim: false,
                reversed: selected,
            },
        },
    );
    spans.push(Span { text: "  •  ".to_owned(), style: Style::color(Color::DarkGray) });
    spans.push(Span { text: time, style: Style::color(Color::DarkGray) });
    assert(span_views(spans@) =~= session_spans(opt_text(*name), written, selected));
    spans
}

/// The line of a session.
pub fn session_item(item: &SessionListItem, selected: bool) -> (spans: Vec<Span>)
    ensures
        span_views(spans@) == session_spans(
            opt_text(item.name),
            match rfc3339(
                item.modified_at.seconds,
                item.modified_at.nanos,
                item.modified_at.offset,
            ) {
                Some(text) => text,
                None => crate::text::signed_decimal(item.modified_at.seconds as int),
            },
            selected,
        ),
{
    item_spans(&item.name, format_timestamp(item.modified_at), selected)
}

/// A panel of the browser: its title and border, what it says where it is
/// empty, and the item of it that is marked.
#[derive(Debug)]
pub struct BrowserPanel {
    pub title: String,
    pub border: Style,
    pub note: Option<&'static str>,
    pub marked: Option<usize>,
}

/// The border of a panel, which shows whether the keys go to it.
pub open spec fn panel_border(focused: bool) -> Style {
    if focused {
        colored(Color::Blue)
    } else {
        colored(Color::DarkGray)
    }
}

fn border_of(focused: bool) -> (border: Style)
    ensures
        border == panel_border(focused),
{
    if focused {
        Style::color(Color::Blue)
    } else {
        Style::color(Color::DarkGray)
    }
}

/// What a panel says where it is empty.
pub open spec fn is_note(note: Option<&'static str>, empty: bool, text: Seq<char>) -> bool {
    match note {
        Some(note) => empty && note@ == text,
        None => !empty,
    }
}

/// The keys of the browser, as its hint names them.
pub fn browser_hint() -> (hint: &'static str)
    ensures
        hint@ == " [←/→: switch panel | r: refresh]"@,
{
    " [←/→: switch panel | r: refresh]"
}

impl SessionsBrowserComponent {
    /// The list of sessions. The one that is selected is marked while the keys
    /// go to the list.
    pub fn list_panel(&self) -> (panel: BrowserPanel)
        ensures
            panel.title@ == "Sessions ("@ + decimal(self.sessions@.len()) + ")"@,
            panel.border == panel_border(self.focus == SessionsPanelFocus::List),
            is_note(
                panel.note,
                self.sessions@.len() == 0,
                "  No sessions found. Press 'r' to refresh."@,
            ),
            panel.marked == (if self.focus == SessionsPanelFocus::List {
                list_of(self.list_state).selected
            } else {
                None
            }),
    {
        let focused = self.focus == SessionsPanelFocus::List;
        BrowserPanel {
            title: list_title(self.sessions.len()),
            border: border_of(focused),
            note: if self.sessions.len() == 0 {
                Some("  No sessions found. Press 'r' to refresh.")
            } else {
                None
            },
            marked: if focused {
                selected_item(&self.list_state)
            } else {
                None
            },
        }
    }

    /// The turns of a session, where they are shown.
    pub fn detail_panel(&self) -> (panel: Option<BrowserPanel>)
        ensures
            (match (panel, self.detail) {
                (Some(panel), Some(detail)) => {
                    &&& panel.title@ == turns_title(self.sessions@, detail.session_index as int)
                    &&& panel.border == panel_border(self.focus == SessionsPanelFocus::Detail)
                    &&& is_note(panel.note, detail.rows@.len() == 0, "  No turns found."@)
                    &&& panel.marked is None
                },
                (None, None) => true,
                _ => false,
            }),
    {
        match &self.detail {
            Some(detail) => Some(
                BrowserPanel {
                    title: detail_title(&self.sessions, detail.session_index),
                    border: border_of(self.focus == SessionsPanelFocus::Detail),
                    note: if detail.rows.len() == 0 {
                        Some("  No turns found.")
                    } else {
                        None
                    },
                    marked: None,
                },
            ),
            None => None,
        }
    }
}

/// Every session that could be read is listed, in the order in which they were
/// read, and nothing else is.
pub proof fn every_readable_session_is_listed(
    items: Seq<Option<SessionListItem>>,
    next: Option<SessionListItem>,
)
    ensures
        loaded(Seq::empty()) == Seq::<SessionListItem>::empty(),
        (match next {
            Some(item) => loaded(items.push(next)).len() == loaded(items).len() + 1 && loaded(
                items.push(next),
            ).last() == item && loaded(items.push(next)).drop_last() == loaded(items),
            None => loaded(items.push(next)) == loaded(items),
        }),
{
    let more = items.push(next);
    assert(more.drop_last() =~= items);
    assert(more.last() == next);
    if let Some(item) = next {
        assert(loaded(more).drop_last() =~= loaded(items));
    }
}

/// Down selects the session after the selected one and Up the one before, and
/// at either end of the list the selection stays; nothing else changes. So one
/// undoes the other.
pub proof fn selecting_moves_by_one(
    before: SessionsBrowserComponent,
    after: SessionsBrowserComponent,
    forward: bool,
)
    requires
        before.focus == SessionsPanelFocus::List,
        after_select(before, after, forward),
        selected_index(before) < before.sessions@.len(),
    ensures
        after.sessions == before.sessions,
        after.detail == before.detail,
        after.focus == before.focus,
        forward && selected_index(before) + 1 < before.sessions@.len() ==> selected_index(after)
            == selected_index(before) + 1,
        forward && selected_index(before) + 1 == before.sessions@.len() ==> selected_index(after)
            == selected_index(before),
        !forward && selected_index(before) > 0 ==> selected_index(after) == selected_index(before)
            - 1,
        !forward && selected_index(before) == 0 ==> selected_index(after) == 0,
{
    assert(before.sessions@.len() == before.sessions.len());
}

/// Opening asks for the turns of the session that is selected, and of none
/// while turns are shown; closing shows the list again with the selection as it
/// was, and both leave the sessions as they are.
pub proof fn opening_and_closing_keep_the_list(
    before: SessionsBrowserComponent,
    after: SessionsBrowserComponent,
    request: SessionsRequest,
)
    ensures
        browser_after(before, after, Action::SessionsOpenDetail, request) ==> after == before && (
        match request {
            SessionsRequest::LoadTurns(i) => before.focus == SessionsPanelFocus::List && i
                == selected_index(before) && i < before.sessions@.len(),
            SessionsRequest::Nothing => before.focus == SessionsPanelFocus::Detail
                || selected_index(before) >= before.sessions@.len(),
            SessionsRequest::Refresh => false,
        }),
        browser_after(before, after, Action::SessionsCloseDetail, request) ==> {
            &&& request == SessionsRequest::Nothing
            &&& after.focus == SessionsPanelFocus::List
            &&& after.sessions == before.sessions
            &&& after.list_state == before.list_state
            &&& before.focus == SessionsPanelFocus::Detail ==> after.detail is None
        },
        browser_after(before, after, Action::SessionsRefresh, request) ==> request
            == SessionsRequest::Refresh,
        browser_after(before, after, Action::SwitchTab(ActiveTab::Sessions), request) ==> request
            == SessionsRequest::Refresh,
{
}

/// The keys of the browser: the arrows and the letters for them ask for the
/// same, down and up for the next session and the one before, right and Enter
/// for the turns, left for the list.
pub proof fn arrows_and_letters_agree()
    ensures
        browser_key(KeyCode::Up) == Some(Action::SessionsSelectPrev),
        browser_key(KeyCode::Down) == Some(Action::SessionsSelectNext),
        browser_key(KeyCode::Right) == Some(Action::SessionsOpenDetail),
        browser_key(KeyCode::Left) == Some(Action::SessionsCloseDetail),
        browser_key(KeyCode::Esc) == Some(Action::SessionsBack),
        browser_key(KeyCode::Char('r')) == Some(Action::SessionsRefresh),
        browser_key(KeyCode::Char('k')) == browser_key(KeyCode::Up),
        browser_key(KeyCode::Char('j')) == browser_key(KeyCode::Down),
        browser_key(KeyCode::Char('l')) == browser_key(KeyCode::Right),
        browser_key(KeyCode::Enter) == browser_key(KeyCode::Right),
        browser_key(KeyCode::Char('h')) == browser_key(KeyCode::Left),
{
}

/// The line of a session shows its name, where it has one, and its time; only
/// the selected one is marked. The title over its turns shows the name too.
pub proof fn a_session_is_shown_by_name(
    name: Seq<char>,
    time: Seq<char>,
    sessions: Seq<SessionListItem>,
    index: int,
)
    requires
        0 <= index < sessions.len(),
        sessions[index].name matches Some(own) && own@ == name,
    ensures
        occurs(session_spans(Some(name), time, true)[0].text, name),
        occurs(session_spans(Some(name), time, false)[0].text, name),
        session_spans(Some(name), time, true).last().text == time,
        session_spans(Some(name), time, true)[0].style.reversed,
        !session_spans(Some(name), time, false)[0].style.reversed,
        occurs(turns_title(sessions, index), name),
{
    crate::text::lemma_stands_between("  "@, name, " "@);
    crate::text::lemma_stands_between("Turns - "@, name, Seq::empty());
    assert("Turns - "@ + name + Seq::<char>::empty() =~= "Turns - "@ + name);
}

/// The areas of the browser stand where they are meant to: the list first and
/// the turns beside it, and only where they are shown; the hint last, and only
/// where there is room for it.
pub proof fn the_list_stands_before_the_turns(
    area: Rect,
    rows: Option<Seq<Rect>>,
    columns: Option<Seq<Rect>>,
)
    requires
        rows matches Some(r) ==> r.len() == 2,
        columns matches Some(c) ==> c.len() == 2,
    ensures
        ({
            let layout = browser_arranged(area, rows, columns);
            &&& columns matches Some(c) ==> layout.list == c.first() && layout.detail == Some(
                c.last(),
            )
            &&& columns is None ==> layout.detail is None && layout.list == (match rows {
                Some(r) => r.first(),
                None => area,
            })
            &&& rows matches Some(r) ==> layout.hint == r.last()
            &&& rows is None ==> layout.hint.width == 0 && layout.hint.height == 0
        }),
{
}

} // verus!
