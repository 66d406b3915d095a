//! The interface with a tab for each session.

use crate::components::agent_picker::{picker_lines, popup, AgentPickerComponent};
use crate::components::chrome::{color_of, entries_spans, push_entries, status_color};
use crate::components::panels::{
    input_panel, is_hint, stderr_border, stderr_panel, stderr_views, InputContent, InputPanel,
    StderrPanel,
};
use crate::components::session::{
    fork_hint_block_height, input_height, is_layout, session_layout, FocusedPanel,
    SessionLayout, AGENT_INPUT_HEIGHT,
};
use crate::components::text_input::TextInput;
use crate::diff::opt_text;
use crate::geometry::{comes_of, split, within, Constraint, Direction, Plan, Rect};
use crate::style::{colored, faint, line_views, span_views, Color, Line, Span, SpanView, Style};
use crate::tabs::{bar_boxes, entry_offset, hit_boxes, ActiveTab, HitBox, TabBarEntry};
use crate::text::{to_chars, views};
use vstd::prelude::*;

verus! {

/// How high the tab bar is.
pub const TAB_BAR_HEIGHT: u16 = 1;

/// A session, as its tab shows it.
pub struct SessionTab {
    pub id: u32,
    pub label: String,
    pub waiting: bool,
    pub status: String,
    pub pending_fork_message: Option<String>,
    pub textarea: TextInput,
    /// What stands over its box for a prompt.
    pub input_title: String,
    pub scroll_offset: u16,
    pub stderr_lines: Vec<String>,
    pub stderr_scroll: u16,
    pub show_stderr: bool,
    pub focused_panel: FocusedPanel,
}

/// The interface: its tabs, the one that is shown, and the list of agents
/// where it is open.
pub struct App {
    pub active_tab: ActiveTab,
    pub session_tabs: Vec<SessionTab>,
    pub agent_picker: Option<AgentPickerComponent>,
    /// The recorded session whose turns are shown.
    pub expanded: Option<usize>,
    pub tick: usize,
}

/// The place of the first tab with this id.
pub open spec fn tab_place(tabs: Seq<SessionTab>, id: u32) -> Option<int>
    decreases tabs.len(),
{
    if tabs.len() == 0 {
        None
    } else {
        match tab_place(tabs.drop_last(), id) {
            Some(i) => Some(i),
            None => if tabs.last().id == id {
                Some(tabs.len() - 1)
            } else {
                None
            },
        }
    }
}

/// The place of the tab that is shown, where it is a session's.
pub open spec fn active_place(app: App) -> Option<int> {
    match app.active_tab {
        ActiveTab::Session(id) => tab_place(app.session_tabs@, id),
        _ => None,
    }
}

/// What `tab_place` finds: a tab with the id.
pub proof fn lemma_tab_place(tabs: Seq<SessionTab>, id: u32)
    ensures
        (match tab_place(tabs, id) {
            Some(i) => 0 <= i < tabs.len() && tabs[i].id == id && forall|j: int|
                0 <= j < i ==> (#[trigger] tabs[j]).id != id,
            None => forall|j: int| 0 <= j < tabs.len() ==> (#[trigger] tabs[j]).id != id,
        }),
    decreases tabs.len(),
{
    if tabs.len() > 0 {
        let rest = tabs.drop_last();
        lemma_tab_place(rest, id);
        assert forall|j: int| 0 <= j < rest.len() implies (#[trigger] tabs[j]) == rest[j] by {}
        if let Some(i) = tab_place(rest, id) {
            assert(tabs[i] == rest[i]);
        }
    }
}

impl App {
    /// Where the tab that is shown is, where it is a session's.
    pub fn active_session(&self) -> (place: Option<usize>)
        ensures
            (match place {
                Some(i) => active_place(*self) == Some(i as int) && i < self.session_tabs@.len(),
                None => active_place(*self) is None,
            }),
    {
        let id: u32 = match self.active_tab {
            ActiveTab::Session(id) => id,
            _ => {
                return None;
            },
        };
        let mut i: usize = 0;
        while i < self.session_tabs.len()
            invariant
                i <= self.session_tabs@.len(),
                self.active_tab == ActiveTab::Session(id),
                forall|j: int| 0 <= j < i ==> (#[trigger] self.session_tabs@[j]).id != id,
            decreases self.session_tabs.len() - i,
        {
            if self.session_tabs[i].id == id {
                proof {
                    lemma_tab_place(self.session_tabs@, id);
                    assert(self.session_tabs@[i as int].id == id);
                }
                return Some(i);
            }
            i += 1;
        }
        proof {
            lemma_tab_place(self.session_tabs@, id);
        }
        None
    }
}

/// The height of the box for a prompt, with what a fork carries over above it.
pub fn session_input_height(tab: &SessionTab, area_width: u16) -> (height: u16)
    ensures
        height == input_height(opt_text(tab.pending_fork_message), area_width),
{
    match &tab.pending_fork_message {
        Some(text) => AGENT_INPUT_HEIGHT + (fork_hint_block_height(text.as_str(), area_width) - 1),
        None => AGENT_INPUT_HEIGHT,
    }
}

/// The spinner: ten signs, around and around.
pub open spec fn frame(tick: nat) -> Seq<char> {
    let i = tick % 10;
    if i == 0 {
        "⠋"@
    } else if i == 1 {
        "⠙"@
    } else if i == 2 {
        "⠹"@
    } else if i == 3 {
        "⠸"@
    } else if i == 4 {
        "⠼"@
    } else if i == 5 {
        "⠴"@
    } else if i == 6 {
        "⠦"@
    } else if i == 7 {
        "⠧"@
    } else if i == 8 {
        "⠇"@
    } else {
        "⠏"@
    }
}

fn spinner_frame(tick: usize) -> (sign: &'static str)
    ensures
        sign@ == frame(tick as nat),
{
    let i: usize = tick % 10;
    if i == 0 {
        "⠋"
    } else if i == 1 {
        "⠙"
    } else if i == 2 {
        "⠹"
    } else if i == 3 {
        "⠸"
    } else if i == 4 {
        "⠼"
    } else if i == 5 {
        "⠴"
    } else if i == 6 {
        "⠦"
    } else if i == 7 {
        "⠧"
    } else if i == 8 {
        "⠇"
    } else {
        "⠏"
    }
}

/// What the tab bar says of the session that is shown.
pub open spec fn status_line(app: App) -> Seq<SpanView> {
    match active_place(app) {
        Some(i) => if app.session_tabs@[i].waiting {
            seq![
                SpanView { text: frame(app.tick as nat), style: colored(Color::Yellow) },
                SpanView { text: " working"@, style: faint(Color::Yellow) },
            ]
        } else {
            idle_line(app.session_tabs@[i].status@)
        },
        None => idle_line("no session"@),
    }
}

/// What the tab bar says when no agent works.
pub open spec fn idle_line(status: Seq<char>) -> Seq<SpanView> {
    seq![
        SpanView { text: "●"@, style: colored(color_of(status)) },
        SpanView { text: " "@ + status, style: faint(Color::DarkGray) },
    ]
}

fn idle_spans(status: &str) -> (spans: Vec<Span>)
    ensures
        span_views(spans@) == idle_line(status@),
{
    let mut text = " ".to_owned();
    text.append(status);
    let mut spans: Vec<Span> = Vec::new();
    spans.push(Span { text: "●".to_owned(), style: Style::color(status_color(status)) });
    spans.push(Span { text, style: Style::dim(Color::DarkGray) });
    assert(span_views(spans@) =~= idle_line(status@));
    spans
}

/// What the tab bar says of the session that is shown.
pub fn status_spans(app: &App) -> (spans: Vec<Span>)
    ensures
        span_views(spans@) == status_line(*app),
{
    match app.active_session() {
        Some(i) => {
            if app.session_tabs[i].waiting {
                let mut spans: Vec<Span> = Vec::new();
                spans.push(
                    Span {
                        text: spinner_frame(app.tick).to_owned(),
                        style: Style::color(Color::Yellow),
                    },
                );
                spans.push(
                    Span { text: " working".to_owned(), style: Style::dim(Color::Yellow) },
                );
                assert(span_views(spans@) =~= status_line(*app));
                spans
            } else {
                idle_spans(app.session_tabs[i].status.as_str())
            }
        },
        None => idle_spans("no session"),
    }
}

/// How many cells that takes.
pub open spec fn status_width(app: App) -> int {
    match active_place(app) {
        Some(i) => if app.session_tabs@[i].waiting {
            9
        } else {
            app.session_tabs@[i].status@.len() as int + 2
        },
        None => 12,
    }
}

/// The targets of the tab bar, and the columns each takes.
pub fn tab_click_hitboxes(app: &App, entries: &Vec<TabBarEntry>) -> (boxes: Vec<HitBox>)
    requires
        status_width(*app) + 2 + entry_offset(entries@, entries@.len() as int) <= usize::MAX,
    ensures
        boxes@ == bar_boxes(entries@, status_width(*app) + 2, entries@.len()),
{
    proof {
        lemma_offset_positive(entries@, entries@.len() as int);
    }
    let width: usize = match app.active_session() {
        Some(i) => if app.session_tabs[i].waiting {
            9
        } else {
            to_chars(app.session_tabs[i].status.as_str()).len() + 2
        },
        None => 12,
    };
    hit_boxes(entries, width + 2)
}

proof fn lemma_offset_positive(entries: Seq<TabBarEntry>, i: int)
    ensures
        entry_offset(entries, i) >= 0,
    decreases i,
{
    if i > 0 {
        lemma_offset_positive(entries, i - 1);
    }
}

/// The status takes as many cells as the tab bar leaves for it.
pub proof fn the_status_fits_its_cells(app: App)
    ensures
        status_line(app)[0].text.len() + status_line(app)[1].text.len() == status_width(app),
{
    reveal_strlit("●");
    reveal_strlit(" ");
    reveal_strlit(" working");
    reveal_strlit("no session");
    reveal_strlit("⠋");
    reveal_strlit("⠙");
    reveal_strlit("⠹");
    reveal_strlit("⠸");
    reveal_strlit("⠼");
    reveal_strlit("⠴");
    reveal_strlit("⠦");
    reveal_strlit("⠧");
    reveal_strlit("⠇");
    reveal_strlit("⠏");
}

/// A page of fixed text: its title and what it says.
#[derive(Clone, Copy, Debug)]
pub struct Page {
    pub title: &'static str,
    pub content: &'static str,
}

/// The title and the text of the page of a tab that has one.
pub open spec fn page_text(tab: ActiveTab) -> Option<(Seq<char>, Seq<char>)> {
    match tab {
        ActiveTab::Session(_) => Some(("Session"@, "Session not found."@)),
        ActiveTab::Sessions => None,
        ActiveTab::Settings => Some(("Settings"@, "Not yet implemented."@)),
        ActiveTab::Help => Some(
            (
                "Help"@,
                "Ctrl+N: new session | Ctrl+W: close tab | Ctrl+1-9: switch tabs | Up/Down: navigate | Enter: expand | f: fork | r: refresh | Ctrl+C: quit"@,
            ),
        ),
    }
}

/// The page of a tab that has one.
pub fn placeholder(tab: ActiveTab) -> (page: Option<Page>)
    ensures
        (match page {
            Some(p) => page_text(tab) == Some((p.title@, p.content@)),
            None => page_text(tab) is None,
        }),
{
    match tab {
        ActiveTab::Session(_) => Some(Page { title: "Session", content: "Session not found." }),
        ActiveTab::Sessions => None,
        ActiveTab::Settings => Some(Page { title: "Settings", content: "Not yet implemented." }),
        ActiveTab::Help => Some(
            Page {
                title: "Help",
                content: "Ctrl+N: new session | Ctrl+W: close tab | Ctrl+1-9: switch tabs | Up/Down: navigate | Enter: expand | f: fork | r: refresh | Ctrl+C: quit",
            },
        ),
    }
}

/// The spans of the tab bar: the status, a gap, and the tabs.
pub open spec fn tab_bar(app: App, entries: Seq<TabBarEntry>) -> Seq<SpanView> {
    status_line(app) + seq![SpanView { text: "  "@, style: colored(Color::Plain) }]
        + entries_spans(entries, app.active_tab, entries.len())
}

/// The tab bar as it is drawn.
pub fn render_tab_bar(app: &App, entries: &Vec<TabBarEntry>) -> (spans: Vec<Span>)
    ensures
        span_views(spans@) == tab_bar(*app, entries@),
{
    let mut spans = status_spans(app);
    let ghost status = span_views(spans@);
    spans.push(Span { text: "  ".to_owned(), style: Style::color(Color::Plain) });
    assert(span_views(spans@) =~= status + seq![
        SpanView { text: "  "@, style: colored(Color::Plain) },
    ]);
    push_entries(&mut spans, entries, app.active_tab);
    spans
}

/// A session's tab as it is drawn: its areas, what the agent writes to its
/// standard error where that is shown, and the box for a prompt.
#[derive(Debug)]
pub struct TabDrawing {
    pub layout: SessionLayout,
    /// Where the conversation is drawn.
    pub conversation: Rect,
    pub stderr: Option<StderrPanel>,
    pub input: InputPanel,
}

/// What is drawn of a session's tab that is laid out like this.
pub open spec fn drawn_in(d: TabDrawing, tab: SessionTab, layout: SessionLayout) -> bool {
    &&& d.layout == layout
    &&& d.conversation == (match layout.conversation_panel {
        Some(beside) => beside,
        None => layout.conversation,
    })
    &&& (match d.stderr {
        Some(panel) => {
            &&& tab.show_stderr
            &&& line_views(panel.lines@) == stderr_views(views(tab.stderr_lines@))
            &&& panel.border == stderr_border(tab.focused_panel)
            &&& panel.length == tab.stderr_lines@.len()
            &&& panel.scroll == tab.stderr_scroll
        },
        None => !tab.show_stderr,
    })
    &&& d.input.title@ == tab.input_title@
    &&& d.input.content == (if tab.waiting {
        InputContent::Waiting
    } else {
        InputContent::Prompt
    })
    &&& (match d.input.hint {
        Some(hint) => opt_text(tab.pending_fork_message) matches Some(text) && is_hint(hint, text),
        None => tab.pending_fork_message is None,
    })
}

/// What is drawn of a session's tab.
pub open spec fn is_tab_drawing(d: TabDrawing, tab: SessionTab, area: Rect) -> bool {
    &&& is_layout(d.layout, area, tab.show_stderr, opt_text(tab.pending_fork_message))
    &&& drawn_in(d, tab, d.layout)
}

/// What is drawn of a session's tab that is laid out like this.
pub fn draw_session_tab(tab: &SessionTab, layout: SessionLayout) -> (drawing: TabDrawing)
    ensures
        drawn_in(drawing, *tab, layout),
{
    let conversation = match layout.conversation_panel {
        Some(beside) => beside,
        None => layout.conversation,
    };
    let stderr = if tab.show_stderr {
        Some(stderr_panel(&tab.stderr_lines, tab.focused_panel, tab.stderr_scroll))
    } else {
        None
    };
    let input = input_panel(tab.input_title.clone(), tab.waiting, &tab.pending_fork_message);
    TabDrawing { layout, conversation, stderr, input }
}

/// What is drawn of a session's tab. The sizes of its parts are for the layout
/// to say.
pub fn render_session_tab(tab: &SessionTab, area: Rect) -> (drawing: TabDrawing)
    ensures
        is_tab_drawing(drawing, *tab, area),
{
    let layout = session_layout(area, tab.show_stderr, &tab.pending_fork_message);
    draw_session_tab(tab, layout)
}

/// What the tab that is shown holds.
#[derive(Debug)]
pub enum Content {
    Session(TabDrawing),
    /// The recorded sessions.
    Sessions,
    Page(Page),
}

/// The list of agents, over everything else.
#[derive(Debug)]
pub struct PickerDrawing {
    pub area: Rect,
    pub lines: Vec<Line>,
}

/// The interface as it is drawn.
#[derive(Debug)]
pub struct Screen {
    pub main: Rect,
    pub content: Content,
    /// Where the tab bar is drawn.
    pub bar_area: Rect,
    pub bar: Vec<Span>,
    pub picker: Option<PickerDrawing>,
}

/// What the interface draws in its main area.
pub open spec fn is_content(content: Content, app: App, main: Rect) -> bool {
    match active_place(app) {
        Some(i) => content matches Content::Session(d) && is_tab_drawing(
            d,
            app.session_tabs@[i],
            main,
        ),
        None => match app.active_tab {
            ActiveTab::Sessions => content is Sessions,
            _ => content matches Content::Page(p) && page_text(app.active_tab) == Some(
                (p.title@, p.content@),
            ),
        },
    }
}

/// How the interface's area is divided into the tab that is shown and the tab
/// bar.
pub open spec fn screen_plan(area: Rect) -> Plan {
    Plan {
        area,
        direction: Direction::Vertical,
        constraints: seq![Constraint::Min(1), Constraint::Length(TAB_BAR_HEIGHT)],
        overlap: 0,
    }
}

/// What is asked for the tab that is shown and the tab bar.
pub fn screen_rows() -> (c: Vec<Constraint>)
    ensures
        c@ == seq![Constraint::Min(1), Constraint::Length(TAB_BAR_HEIGHT)],
{
    let mut c: Vec<Constraint> = Vec::new();
    c.push(Constraint::Min(1));
    c.push(Constraint::Length(TAB_BAR_HEIGHT));
    assert(c@ =~= seq![Constraint::Min(1), Constraint::Length(TAB_BAR_HEIGHT)]);
    c
}

/// Whether a screen shows the interface, in an area that was divided into these
/// rows, with this in the first of them.
pub open spec fn shows(
    screen: Screen,
    app: App,
    entries: Seq<TabBarEntry>,
    area: Rect,
    rows: Seq<Rect>,
    content: Content,
) -> bool {
    &&& screen.main == rows[0]
    &&& screen.content == content
    &&& screen.bar_area == rows[1]
    &&& span_views(screen.bar@) == tab_bar(app, entries)
    &&& (match screen.picker {
        Some(p) => app.agent_picker matches Some(picker) && p.area == popup(
            picker.agents@.len(),
            area,
        ) && line_views(p.lines@) == picker_lines(picker),
        None => app.agent_picker is None,
    })
}

/// The interface as it is drawn in an area that was divided into these rows.
pub fn draw_screen(
    app: &App,
    entries: &Vec<TabBarEntry>,
    area: Rect,
    rows: &Vec<Rect>,
    content: Content,
) -> (screen: Screen)
    requires
        rows@.len() == 2,
    ensures
        shows(screen, *app, entries@, area, rows@, content),
{
    let picker = match &app.agent_picker {
        Some(p) => Some(PickerDrawing { area: p.popup_area(area), lines: p.lines() }),
        None => None,
    };
    Screen {
        main: rows[0],
        content,
        bar_area: rows[1],
        bar: render_tab_bar(app, entries),
        picker,
    }
}

/// The interface as it is drawn in an area.
pub fn render(app: &App, entries: &Vec<TabBarEntry>, area: Rect) -> (screen: Screen)
    ensures
        exists|rows: Seq<Rect>|
            #[trigger] comes_of(rows, screen_plan(area)) && shows(
                screen,
                *app,
                entries@,
                area,
                rows,
                screen.content,
            ),
        screen.main.x == area.x,
        screen.main.width == area.width,
        within(screen.main, area),
        screen.bar_area.x == area.x,
        screen.bar_area.width == area.width,
        within(screen.bar_area, area),
        is_content(screen.content, *app, screen.main),
{
    let rows = split(area, Direction::Vertical, &screen_rows(), 0);
    let content = match app.active_session() {
        Some(i) => Content::Session(
            render_session_tab(&app.session_tabs[i], rows[0]),
        ),
        None => match placeholder(app.active_tab) {
            Some(page) => Content::Page(page),
            None => Content::Sessions,
        },
    };
    let screen = draw_screen(app, entries, area, &rows, content);
    assert(comes_of(rows@, screen_plan(area)));
    screen
}

/// The status is that of the session that is shown: its own words where its
/// agent is idle, and that it works where it does; without a session, that
/// there is none.
pub proof fn the_status_is_of_the_shown_session(app: App, i: int)
    requires
        0 <= i < app.session_tabs@.len(),
        app.active_tab == ActiveTab::Session(app.session_tabs@[i].id),
        forall|j: int|
            0 <= j < app.session_tabs@.len() && j != i ==> (#[trigger] app.session_tabs@[j]).id
                != app.session_tabs@[i].id,
    ensures
        active_place(app) == Some(i),
        app.session_tabs@[i].waiting ==> status_line(app)[1].text == " working"@,
        !app.session_tabs@[i].waiting ==> status_line(app)[1].text == " "@
            + app.session_tabs@[i].status@,
{
    lemma_tab_place(app.session_tabs@, app.session_tabs@[i].id);
}

/// What is drawn is the tab that is shown: a session where there is one, the
/// recorded sessions, or a page.
pub proof fn what_is_shown_is_the_active_tab(content: Content, app: App, main: Rect)
    requires
        is_content(content, app, main),
    ensures
        (match content {
            Content::Session(d) => exists|i: int|
                0 <= i < app.session_tabs@.len() && app.active_tab == ActiveTab::Session(
                    (#[trigger] app.session_tabs@[i]).id,
                ) && d.input.title@ == app.session_tabs@[i].input_title@ && (d.stderr is Some
                    <==> app.session_tabs@[i].show_stderr),
            Content::Sessions => app.active_tab == ActiveTab::Sessions,
            Content::Page(p) => {
                &&& app.active_tab != ActiveTab::Sessions
                &&& app.active_tab == ActiveTab::Settings ==> p.title@ == "Settings"@
                &&& app.active_tab == ActiveTab::Help ==> p.title@ == "Help"@
                &&& app.active_tab matches ActiveTab::Session(id) ==> p.title@ == "Session"@
                    && forall|i: int|
                    0 <= i < app.session_tabs@.len() ==> (#[trigger] app.session_tabs@[i]).id != id
            },
        }),
{
    if let ActiveTab::Session(id) = app.active_tab {
        lemma_tab_place(app.session_tabs@, id);
    }
}

} // verus!
