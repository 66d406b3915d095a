//! The bar with the status and the tabs.

use crate::action::Action;
use crate::geometry::Rect;
use crate::input::{MouseEvent, MouseKind};
use crate::style::{
    chosen, colored, faint, span_views, Color, Span, SpanView, Style,
};
use crate::tabs::{
    bar_target, close_text, entry_offset, entry_width, label_text, target_at, ActiveTab,
    ClickTarget, TabBarEntry,
};
use crate::text::{begins, same, starts_with, to_chars};
use vstd::prelude::*;

verus! {

/// How high the bar is.
pub const TAB_BAR_HEIGHT: u16 = 1;

/// What the bar shows.
#[derive(Debug)]
pub struct ChromeModel {
    pub active_tab: ActiveTab,
    pub entries: Vec<TabBarEntry>,
    pub waiting: bool,
    pub status: String,
}

/// The bar. `spin` is the place of the spinner, which turns while an agent
/// works.
#[derive(Debug)]
pub struct ChromeComponent {
    pub model: ChromeModel,
    pub spin: i8,
}

/// The color of a status.
pub open spec fn color_of(status: Seq<char>) -> Color {
    if begins(status, "done"@) {
        Color::Green
    } else if status == "error"@ {
        Color::Red
    } else if status == "disconnected"@ || status == "session ended"@ || status == "no session"@ {
        Color::DarkGray
    } else {
        Color::Green
    }
}

/// The color of a status.
pub fn status_color(status: &str) -> (color: Color)
    ensures
        color == color_of(status@),
{
    if starts_with(status, "done") {
        Color::Green
    } else if same(status, "error") {
        Color::Red
    } else if same(status, "disconnected") || same(status, "session ended") || same(
        status,
        "no session",
    ) {
        Color::DarkGray
    } else {
        Color::Green
    }
}

/// The spinner at a place: six signs, around and around.
pub open spec fn spinner(spin: int) -> Seq<char> {
    if spin % 6 == 0 {
        "⠷ "@
    } else if spin % 6 == 1 {
        "⠯ "@
    } else if spin % 6 == 2 {
        "⠟ "@
    } else if spin % 6 == 3 {
        "⠻ "@
    } else if spin % 6 == 4 {
        "⠽ "@
    } else {
        "⠾ "@
    }
}

fn spinner_sign(spin: i8) -> (sign: &'static str)
    ensures
        sign@ == spinner(spin as int),
{
    // The remainder of a number below zero counts from the end.
    let turned: i16 = spin as i16 + 132;
    assert(turned % 6 == spin % 6);
    let place: i16 = turned % 6;
    if place == 0 {
        "⠷ "
    } else if place == 1 {
        "⠯ "
    } else if place == 2 {
        "⠟ "
    } else if place == 3 {
        "⠻ "
    } else if place == 4 {
        "⠽ "
    } else {
        "⠾ "
    }
}

/// What the bar says of the status.
pub open spec fn status_of(waiting: bool, status: Seq<char>, spin: int) -> Seq<SpanView> {
    if waiting {
        seq![
            SpanView { text: spinner(spin), style: colored(Color::Yellow) },
            SpanView { text: "working"@, style: faint(Color::Yellow) },
        ]
    } else {
        seq![
            SpanView { text: "●"@, style: colored(color_of(status)) },
            SpanView { text: " "@ + status, style: faint(Color::DarkGray) },
        ]
    }
}

/// How many cells spans take.
pub open spec fn cells(spans: Seq<SpanView>) -> nat
    decreases spans.len(),
{
    if spans.len() == 0 {
        0
    } else {
        cells(spans.drop_last()) + spans.last().text.len()
    }
}

/// The spans of an entry.
pub open spec fn entry_spans(e: TabBarEntry, active: ActiveTab) -> Seq<SpanView> {
    match e {
        TabBarEntry::Session { id, label: _ } => if active == ActiveTab::Session(id) {
            seq![
                SpanView { text: label_text(e), style: chosen() },
                SpanView {
                    text: close_text(e),
                    style: Style { bg: Color::White, ..colored(Color::DarkGray) },
                },
            ]
        } else {
            seq![
                SpanView { text: label_text(e), style: colored(Color::DarkGray) },
                SpanView { text: close_text(e), style: faint(Color::DarkGray) },
            ]
        },
        TabBarEntry::NewButton => seq![
            SpanView { text: label_text(e), style: colored(Color::Green) },
        ],
        TabBarEntry::Utility { tab, label: _ } => seq![
            SpanView {
                text: label_text(e),
                style: if active == tab {
                    chosen()
                } else {
                    colored(Color::DarkGray)
                },
            },
        ],
    }
}

/// The spans of the first `n` entries.
pub open spec fn entries_spans(entries: Seq<TabBarEntry>, active: ActiveTab, n: nat) -> Seq<SpanView>
    decreases n,
{
    if n == 0 {
        Seq::empty()
    } else {
        entries_spans(entries, active, (n - 1) as nat) + entry_spans(entries[n - 1], active)
    }
}

/// The spans of the bar: the status, a gap, and the entries.
pub open spec fn bar_spans(m: ChromeModel, spin: int) -> Seq<SpanView> {
    status_of(m.waiting, m.status@, spin) + seq![
        SpanView { text: "  "@, style: colored(Color::Plain) },
    ] + entries_spans(m.entries@, m.active_tab, m.entries@.len())
}

/// How many cells the status takes.
pub open spec fn status_cells(waiting: bool, status: Seq<char>) -> int {
    if waiting {
        9
    } else {
        status.len() as int + 2
    }
}

fn framed(label: &str) -> (text: String)
    ensures
        text@ == " "@ + label@ + " "@,
{
    let mut text = " ".to_owned();
    text.append(label);
    text.append(" ");
    text
}

fn push_entry(out: &mut Vec<Span>, e: &TabBarEntry, active: ActiveTab)
    ensures
        span_views(final(out)@) == span_views(old(out)@) + entry_spans(*e, active),
{
    let ghost was = span_views(out@);
    match e {
        TabBarEntry::Session { id, label } => {
            let text = framed(label.as_str());
            if active == ActiveTab::Session(*id) {
                out.push(Span { text, style: Style::highlight() });
                out.push(
                    Span {
                        text: "✕ ".to_owned(),
                        style: Style {
                            fg: Color::DarkGray,
                            bg: Color::White,
                            bold: false,
                            dim: false,
                            reversed: false,
                        },
                    },
                );
            } else {
                out.push(Span { text, style: Style::color(Color::DarkGray) });
                out.push(Span { text: "✕ ".to_owned(), style: Style::dim(Color::DarkGray) });
            }
        },
        TabBarEntry::NewButton => {
            out.push(Span { text: " [+] ".to_owned(), style: Style::color(Color::Green) });
        },
        TabBarEntry::Utility { tab, label } => {
            let text = framed(label);
            if active == *tab {
                out.push(Span { text, style: Style::highlight() });
            } else {
                out.push(Span { text, style: Style::color(Color::DarkGray) });
            }
        },
    }
    assert(span_views(out@) =~= was + entry_spans(*e, active));
}

/// Draws the entries behind what is there.
pub fn push_entries(out: &mut Vec<Span>, entries: &Vec<TabBarEntry>, active: ActiveTab)
    ensures
        span_views(final(out)@) == span_views(old(out)@) + entries_spans(
            entries@,
            active,
            entries@.len(),
        ),
{
    let ghost head = span_views(out@);
    let mut i: usize = 0;
    assert(span_views(out@) =~= head + entries_spans(entries@, active, 0));
    while i < entries.len()
        invariant
            i <= entries@.len(),
            span_views(out@) == head + entries_spans(entries@, active, i as nat),
        decreases entries.len() - i,
    {
        push_entry(out, &entries[i], active);
        assert(span_views(out@) =~= head + entries_spans(entries@, active, (i + 1) as nat));
        i += 1;
    }
}

fn status_spans(waiting: bool, status: &str, spin: i8) -> (spans: Vec<Span>)
    ensures
        span_views(spans@) == status_of(waiting, status@, spin as int),
{
    let mut spans: Vec<Span> = Vec::new();
    if waiting {
        spans.push(
            Span { text: spinner_sign(spin).to_owned(), style: Style::color(Color::Yellow) },
        );
        spans.push(Span { text: "working".to_owned(), style: Style::dim(Color::Yellow) });
    } else {
        let mut text = " ".to_owned();
        text.append(status);
        spans.push(Span { text: "●".to_owned(), style: Style::color(status_color(status)) });
        spans.push(Span { text, style: Style::dim(Color::DarkGray) });
    }
    assert(span_views(spans@) =~= status_of(waiting, status@, spin as int));
    spans
}

/// How many cells the status takes, and the gap behind it.
fn lead_cells(waiting: bool, status: &str) -> (n: Option<usize>)
    ensures
        (match n {
            Some(n) => n == status_cells(waiting, status@) + 2,
            None => status_cells(waiting, status@) + 2 > usize::MAX,
        }),
{
    if waiting {
        return Some(11);
    }
    let n: usize = to_chars(status).len();
    n.checked_add(4)
}

impl ChromeComponent {
    /// A bar without entries.
    pub fn new() -> (c: ChromeComponent)
        ensures
            c.model.active_tab == ActiveTab::Sessions,
            c.model.entries@.len() == 0,
            !c.model.waiting,
            c.model.status@ == "no session"@,
            c.spin == 0,
    {
        ChromeComponent {
            model: ChromeModel {
                active_tab: ActiveTab::Sessions,
                entries: Vec::new(),
                waiting: false,
                status: "no session".to_owned(),
            },
            spin: 0,
        }
    }

    /// Takes what the bar shows.
    pub fn sync(&mut self, model: ChromeModel)
        ensures
            final(self).model == model,
            final(self).spin == old(self).spin,
    {
        self.model = model;
    }

    /// What a click on a column of the bar asks for.
    pub fn hit_test(&self, x: u16) -> (target: Option<ClickTarget>)
        ensures
            target == bar_target(
                self.model.entries@,
                status_cells(self.model.waiting, self.model.status@) + 2,
                x as int,
            ),
    {
        match lead_cells(self.model.waiting, self.model.status.as_str()) {
            Some(lead) => target_at(&self.model.entries, lead, x),
            None => {
                proof {
                    lemma_nothing_before(
                        self.model.entries@,
                        status_cells(self.model.waiting, self.model.status@) + 2,
                        x as int,
                    );
                }
                None
            },
        }
    }

    /// What a mouse event on the bar asks for: a press on its row.
    pub fn handle_mouse_event(&self, mouse: MouseEvent, area: Rect) -> (action: Option<Action>)
        ensures
            action == (if mouse.kind == MouseKind::Press && mouse.row == area.y {
                match bar_target(
                    self.model.entries@,
                    status_cells(self.model.waiting, self.model.status@) + 2,
                    mouse.column as int,
                ) {
                    Some(ClickTarget::SwitchTab(tab)) => Some(Action::SwitchTab(tab)),
                    Some(ClickTarget::CloseSession(id)) => Some(Action::CloseSession(id)),
                    Some(ClickTarget::NewSession) => Some(Action::OpenAgentPicker),
                    None => None,
                }
            } else {
                None
            }),
    {
        if mouse.kind != MouseKind::Press || mouse.row != area.y {
            return None;
        }
        match self.hit_test(mouse.column) {
            Some(ClickTarget::SwitchTab(tab)) => Some(Action::SwitchTab(tab)),
            Some(ClickTarget::CloseSession(id)) => Some(Action::CloseSession(id)),
            Some(ClickTarget::NewSession) => Some(Action::OpenAgentPicker),
            None => None,
        }
    }

    /// Turns the spinner while an agent works.
    pub fn update(&mut self, action: &Action)
        ensures
            final(self).model == old(self).model,
            final(self).spin == (if *action == Action::Tick && old(self).model.waiting {
                if old(self).spin == i8::MAX {
                    0
                } else {
                    old(self).spin + 1
                }
            } else {
                old(self).spin as int
            }),
    {
        if *action == Action::Tick && self.model.waiting {
            self.spin = if self.spin == i8::MAX {
                0
            } else {
                self.spin + 1
            };
        }
    }

    /// The bar as it is drawn.
    pub fn draw(&self) -> (spans: Vec<Span>)
        ensures
            span_views(spans@) == bar_spans(self.model, self.spin as int),
    {
        let m = &self.model;
        let mut spans = status_spans(m.waiting, m.status.as_str(), self.spin);
        let ghost status = span_views(spans@);
        spans.push(Span { text: "  ".to_owned(), style: Style::color(Color::Plain) });
        let ghost head = span_views(spans@);
        assert(head =~= status + seq![SpanView { text: "  "@, style: colored(Color::Plain) }]);
        push_entries(&mut spans, &m.entries, m.active_tab);
        spans
    }
}

impl Default for ChromeComponent {
    /// A bar without entries.
    fn default() -> (c: ChromeComponent)
        ensures
            c.model.active_tab == ActiveTab::Sessions,
            c.model.entries@.len() == 0,
            !c.model.waiting,
            c.model.status@ == "no session"@,
            c.spin == 0,
    {
        ChromeComponent::new()
    }
}

proof fn lemma_nothing_before(entries: Seq<TabBarEntry>, start: int, x: int)
    requires
        x < start,
    ensures
        bar_target(entries, start, x) is None,
    decreases entries.len(),
{
    if entries.len() > 0 {
        lemma_nothing_before(entries.skip(1), start + entry_width(entries[0]), x);
    }
}

proof fn lemma_cells_add(a: Seq<SpanView>, b: Seq<SpanView>)
    ensures
        cells(a + b) == cells(a) + cells(b),
    decreases b.len(),
{
    if b.len() == 0 {
        assert(a + b =~= a);
    } else {
        lemma_cells_add(a, b.drop_last());
        assert((a + b).drop_last() =~= a + b.drop_last());
    }
}

proof fn lemma_entry_cells(e: TabBarEntry, active: ActiveTab)
    ensures
        cells(entry_spans(e, active)) == entry_width(e),
{
    reveal_with_fuel(cells, 3);
    let spans = entry_spans(e, active);
    if e is Session {
        assert(spans.drop_last().drop_last() =~= Seq::empty());
    } else {
        assert(spans.drop_last() =~= Seq::empty());
    }
}

/// The entries are drawn where they are clicked: behind the status and the
/// gap, each behind the ones before it.
pub proof fn entries_are_drawn_where_they_are_clicked(m: ChromeModel, spin: int, n: nat)
    requires
        n <= m.entries@.len(),
    ensures
        cells(
            status_of(m.waiting, m.status@, spin) + seq![
                SpanView { text: "  "@, style: colored(Color::Plain) },
            ] + entries_spans(m.entries@, m.active_tab, n),
        ) == status_cells(m.waiting, m.status@) + 2 + entry_offset(m.entries@, n as int),
    decreases n,
{
    let status = status_of(m.waiting, m.status@, spin);
    let head = status + seq![SpanView { text: "  "@, style: colored(Color::Plain) }];
    if n == 0 {
        assert(head + entries_spans(m.entries@, m.active_tab, 0) =~= head);
        assert(head.drop_last() =~= status);
        assert(status.drop_last().drop_last() =~= Seq::empty());
        reveal_with_fuel(cells, 4);
        reveal_strlit("  ");
        reveal_strlit(" ");
        reveal_strlit("●");
        reveal_strlit("working");
        reveal_strlit("⠷ ");
        reveal_strlit("⠯ ");
        reveal_strlit("⠟ ");
        reveal_strlit("⠻ ");
        reveal_strlit("⠽ ");
        reveal_strlit("⠾ ");
    } else {
        entries_are_drawn_where_they_are_clicked(m, spin, (n - 1) as nat);
        let before = entries_spans(m.entries@, m.active_tab, (n - 1) as nat);
        let last = entry_spans(m.entries@[n - 1], m.active_tab);
        lemma_cells_add(head + before, last);
        lemma_entry_cells(m.entries@[n - 1], m.active_tab);
        assert(head + (before + last) =~= head + before + last);
    }
}

/// The bar marks the tab that is shown, and no other, and draws every entry
/// with its name.
pub proof fn only_the_shown_tab_is_marked(e: TabBarEntry, active: ActiveTab)
    ensures
        ({
            let spans = entry_spans(e, active);
            let shown = match e {
                TabBarEntry::Session { id, label: _ } => active == ActiveTab::Session(id),
                TabBarEntry::NewButton => false,
                TabBarEntry::Utility { tab, label: _ } => active == tab,
            };
            &&& spans.len() >= 1
            &&& spans[0].text == label_text(e)
            &&& (spans[0].style == chosen()) == shown
            &&& e is Session ==> spans.len() == 2 && spans[1].text == close_text(e)
        }),
{
}

/// A status shows what it is by its color: an error, the end of a session, or
/// anything else; and while the agent works, only that is said.
pub proof fn a_status_shows_what_it_is(status: Seq<char>, spin: int)
    ensures
        status_of(false, status, spin)[1].text == " "@ + status,
        status_of(false, "error"@, spin)[0].style == colored(Color::Red),
        status_of(false, "disconnected"@, spin)[0].style == colored(Color::DarkGray),
        status_of(false, "session ended"@, spin)[0].style == colored(Color::DarkGray),
        status_of(false, "no session"@, spin)[0].style == colored(Color::DarkGray),
        begins(status, "done"@) ==> status_of(false, status, spin)[0].style == colored(
            Color::Green,
        ),
        status_of(true, status, spin)[1].text == "working"@,
        spinner(spin + 6) == spinner(spin),
        spinner(spin + 1) != spinner(spin),
{
    reveal_strlit("error");
    reveal_strlit("disconnected");
    reveal_strlit("session ended");
    reveal_strlit("no session");
    reveal_strlit("done");
    assert("error"@.take(4)[0] == 'e');
    assert("disconnected"@.take(4)[1] == 'i');
    assert("session ended"@.take(4)[0] == 's');
    assert("no session"@.take(4)[0] == 'n');
    assert("done"@[0] == 'd' && "done"@[1] == 'o');
    assert("error"@[0] == 'e');
    assert("disconnected"@[0] == 'd');
    assert("session ended"@[0] == 's');
    assert("no session"@[0] == 'n');
    reveal_strlit("⠷ ");
    reveal_strlit("⠯ ");
    reveal_strlit("⠟ ");
    reveal_strlit("⠻ ");
    reveal_strlit("⠽ ");
    reveal_strlit("⠾ ");
    assert("⠷ "@[0] == '⠷');
    assert("⠯ "@[0] == '⠯');
    assert("⠟ "@[0] == '⠟');
    assert("⠻ "@[0] == '⠻');
    assert("⠽ "@[0] == '⠽');
    assert("⠾ "@[0] == '⠾');
}

} // verus!
