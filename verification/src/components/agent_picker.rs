//! Choosing the agent of a new session.

use crate::action::Action;
use crate::geometry::{add_capped, capped, floored, height_of, sub_floored, Rect};
use crate::input::{KeyCode, KeyEvent};
use crate::style::{chosen, colored, line_views, one_span, Color, Line, SpanView, Style};
use vstd::prelude::*;

verus! {

/// An agent that can be chosen.
#[derive(Debug)]
pub struct PickerAgent {
    pub id: String,
    pub name: String,
}

/// The list of agents, and the one that is selected.
#[derive(Debug)]
pub struct AgentPickerComponent {
    pub agents: Vec<PickerAgent>,
    pub selected: usize,
}

/// The largest width of the list.
pub const POPUP_WIDTH: u16 = 40;

/// Where the list is drawn: in the middle, with room around it.
pub open spec fn popup(agents: nat, area: Rect) -> Rect {
    let room = floored(area.width - 4);
    let width = if room < POPUP_WIDTH {
        room
    } else {
        POPUP_WIDTH
    };
    let tall = floored(area.height - 4);
    let wanted = capped(capped(agents as int) + 2);
    let height = if wanted < tall {
        wanted
    } else {
        tall
    };
    Rect {
        x: ((area.width - width) / 2) as u16,
        y: ((area.height - height) / 2) as u16,
        width,
        height,
    }
}

/// The lines of the list.
pub open spec fn picker_lines(p: AgentPickerComponent) -> Seq<Seq<SpanView>> {
    Seq::new(
        p.agents@.len(),
        |i: int|
            one_span(
                " "@ + p.agents@[i].name@ + " "@,
                if i == p.selected {
                    chosen()
                } else {
                    colored(Color::White)
                },
            ),
    )
}

/// The agent that is selected after an action.
pub open spec fn selected_after(selected: int, agents: int, action: Action) -> int {
    match action {
        Action::AgentPickerSelectPrev => if selected > 0 {
            selected - 1
        } else {
            0
        },
        Action::AgentPickerSelectNext => if selected + 1 < agents {
            selected + 1
        } else {
            selected
        },
        _ => selected,
    }
}

/// Going to the next agent and back comes to the same one, unless there is no
/// next; the selection stays in the list, and only these actions move it.
pub proof fn next_and_previous_are_inverse(selected: int, agents: int, action: Action)
    requires
        0 <= selected < agents,
    ensures
        selected + 1 < agents ==> selected_after(
            selected,
            agents,
            Action::AgentPickerSelectNext,
        ) == selected + 1,
        selected > 0 ==> selected_after(selected, agents, Action::AgentPickerSelectPrev)
            == selected - 1,
        0 <= selected_after(selected, agents, action) < agents,
        action != Action::AgentPickerSelectNext && action != Action::AgentPickerSelectPrev
            ==> selected_after(selected, agents, action) == selected,
{
}

impl AgentPickerComponent {
    /// The list, with its first agent selected.
    pub fn new(agents: Vec<PickerAgent>) -> (p: AgentPickerComponent)
        ensures
            p.agents == agents,
            p.selected == 0,
    {
        AgentPickerComponent { agents, selected: 0 }
    }

    /// What a key asks for.
    pub fn handle_key_event(&self, key: KeyEvent) -> (action: Option<Action>)
        ensures
            action == (match key.code {
                KeyCode::Up => Some(Action::AgentPickerSelectPrev),
                KeyCode::Down => Some(Action::AgentPickerSelectNext),
                KeyCode::Enter => Some(Action::CreateSession(self.selected)),
                KeyCode::Esc => Some(Action::CloseAgentPicker),
                _ => None,
            }),
    {
        match key.code {
            KeyCode::Up => Some(Action::AgentPickerSelectPrev),
            KeyCode::Down => Some(Action::AgentPickerSelectNext),
            KeyCode::Enter => Some(Action::CreateSession(self.selected)),
            KeyCode::Esc => Some(Action::CloseAgentPicker),
            _ => None,
        }
    }

    /// Moves the selection, which stays in the list.
    pub fn update(&mut self, action: &Action)
        ensures
            final(self).agents == old(self).agents,
            final(self).selected == (match *action {
                Action::AgentPickerSelectPrev => if old(self).selected > 0 {
                    old(self).selected - 1
                } else {
                    0
                },
                Action::AgentPickerSelectNext => if old(self).selected + 1
                    < old(self).agents@.len() {
                    old(self).selected + 1
                } else {
                    old(self).selected as int
                },
                _ => old(self).selected as int,
            }),
            old(self).selected < old(self).agents@.len() ==> final(self).selected
                < final(self).agents@.len(),
            final(self).selected == selected_after(
                old(self).selected as int,
                old(self).agents@.len() as int,
                *action,
            ),
    {
        match action {
            Action::AgentPickerSelectPrev => {
                if self.selected > 0 {
                    self.selected = self.selected - 1;
                }
            },
            Action::AgentPickerSelectNext => {
                if self.selected < self.agents.len() && self.selected + 1 < self.agents.len() {
                    self.selected = self.selected + 1;
                }
            },
            _ => {},
        }
    }

    /// Where the list is drawn.
    pub fn popup_area(&self, area: Rect) -> (r: Rect)
        ensures
            r == popup(self.agents@.len(), area),
    {
        let room: u16 = sub_floored(area.width, 4);
        let width: u16 = if room < POPUP_WIDTH {
            room
        } else {
            POPUP_WIDTH
        };
        let tall: u16 = sub_floored(area.height, 4);
        let wanted: u16 = add_capped(height_of(self.agents.len()), 2);
        let height: u16 = if wanted < tall {
            wanted
        } else {
            tall
        };
        Rect { x: (area.width - width) / 2, y: (area.height - height) / 2, width, height }
    }

    /// The lines of the list.
    pub fn lines(&self) -> (lines: Vec<Line>)
        ensures
            line_views(lines@) == picker_lines(*self),
    {
        let ghost all = picker_lines(*self);
        let mut lines: Vec<Line> = Vec::new();
        assert(line_views(lines@) =~= all.take(0));
        while lines.len() < self.agents.len()
            invariant
                lines@.len() <= self.agents@.len(),
                all == picker_lines(*self),
                line_views(lines@) == all.take(lines@.len() as int),
            decreases self.agents.len() - lines.len(),
        {
            let i: usize = lines.len();
            let ghost was = line_views(lines@);
            let mut text = " ".to_owned();
            text.append(self.agents[i].name.as_str());
            text.append(" ");
            let style = if i == self.selected {
                Style::highlight()
            } else {
                Style::color(Color::White)
            };
            lines.push(Line::of_one(text, style));
            assert(line_views(lines@) =~= was.push(all[i as int]));
            assert(line_views(lines@) =~= all.take(i + 1));
        }
        assert(all.take(all.len() as int) =~= all);
        lines
    }
}

/// The list lies within the terminal.
pub proof fn the_list_lies_within(agents: nat, area: Rect)
    ensures
        ({
            let r = popup(agents, area);
            r.x + r.width <= area.width && r.y + r.height <= area.height
        }),
{
}

/// The list names every agent, in order, and marks the selected one alone.
pub proof fn every_agent_is_in_the_list(p: AgentPickerComponent, i: int)
    requires
        0 <= i < p.agents@.len(),
    ensures
        picker_lines(p).len() == p.agents@.len(),
        picker_lines(p)[i].len() == 1,
        picker_lines(p)[i][0].text == " "@ + p.agents@[i].name@ + " "@,
        picker_lines(p)[i][0].style == chosen() <==> i == p.selected,
{
}

/// The list stands in the middle, and is high enough for every agent and a
/// border where there is room.
pub proof fn the_list_stands_in_the_middle(agents: nat, area: Rect)
    ensures
        ({
            let r = popup(agents, area);
            &&& 0 <= area.width - r.width - 2 * r.x <= 1
            &&& 0 <= area.height - r.height - 2 * r.y <= 1
            &&& r.width <= POPUP_WIDTH
            &&& agents + 6 <= area.height ==> r.height == agents + 2
            &&& area.width >= POPUP_WIDTH + 4 ==> r.width == POPUP_WIDTH
        }),
{
}

} // verus!
