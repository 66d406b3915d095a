//! What the panels of a session show: the conversation, what the agent writes
//! to its standard error, and the box for a prompt.

use crate::components::session::{
    title_of, EnvVar, FocusedPanel, SessionComponent, SessionLayout,
};
use crate::diff::opt_text;
use crate::geometry::Rect;
use crate::style::{colored, faint, line_views, one_span, Color, Line, Span, SpanView, Style};
use crate::text::views;
use vstd::prelude::*;

verus! {

/// The panel with what the agent writes to its standard error.
#[derive(Debug)]
pub struct StderrPanel {
    pub lines: Vec<Line>,
    pub border: Style,
    /// How many lines there are to scroll over, and how far it is scrolled.
    pub length: usize,
    pub scroll: u16,
}

/// The lines of that panel.
pub open spec fn stderr_views(lines: Seq<Seq<char>>) -> Seq<Seq<SpanView>> {
    Seq::new(lines.len(), |i: int| one_span(lines[i], colored(Color::Red)))
}

/// The border of that panel, which shows whether the keys scroll it.
pub open spec fn stderr_border(focused: FocusedPanel) -> Style {
    if focused == FocusedPanel::Stderr {
        colored(Color::Blue)
    } else {
        colored(Color::DarkGray)
    }
}

/// The panel with what the agent writes to its standard error.
pub fn stderr_panel(lines: &Vec<String>, focused: FocusedPanel, scroll: u16) -> (panel: StderrPanel)
    ensures
        line_views(panel.lines@) == stderr_views(views(lines@)),
        panel.border == stderr_border(focused),
        panel.length == lines@.len(),
        panel.scroll == scroll,
{
    let mut out: Vec<Line> = Vec::new();
    while out.len() < lines.len()
        invariant
            out@.len() <= lines@.len(),
            forall|i: int|
                0 <= i < out@.len() ==> (#[trigger] out@[i])@ == one_span(
                    lines@[i]@,
                    colored(Color::Red),
                ),
        decreases lines.len() - out.len(),
    {
        let text = lines[out.len()].clone();
        out.push(Line::of_one(text, Style::color(Color::Red)));
    }
    assert(line_views(out@) =~= stderr_views(views(lines@)));
    let border = match focused {
        FocusedPanel::Stderr => Style::color(Color::Blue),
        FocusedPanel::Conversation => Style::color(Color::DarkGray),
    };
    StderrPanel { lines: out, border, length: lines.len(), scroll }
}

/// The panels over the box for a prompt: where the conversation is drawn, and
/// the standard error beside it where it is shown.
#[derive(Debug)]
pub struct OutputPanels {
    pub conversation: Rect,
    pub stderr: Option<(Rect, StderrPanel)>,
}

/// What stands in the box for a prompt.
#[derive(Clone, Copy, Debug, PartialEq, Eq, Structural)]
pub enum InputContent {
    /// A note that the agent works: no prompt can be written meanwhile.
    Waiting,
    /// The prompt that is being written.
    Prompt,
}

/// What a fork carries over, in a box that shares its lower edge with the box
/// for a prompt.
#[derive(Debug)]
pub struct ForkHint {
    pub title: Span,
    pub text: Span,
}

/// The box for a prompt.
#[derive(Debug)]
pub struct InputPanel {
    pub title: String,
    pub content: InputContent,
    pub hint: Option<ForkHint>,
}

/// What the box says while the agent works.
pub fn waiting_note() -> (note: &'static str)
    ensures
        note@ == " (waiting for agent...)"@,
{
    " (waiting for agent...)"
}

/// Whether a hint says what a fork carries over.
pub open spec fn is_hint(hint: ForkHint, text: Seq<char>) -> bool {
    &&& hint.title@ == (SpanView {
        text: "fork context pending"@,
        style: faint(Color::DarkGray),
    })
    &&& hint.text@ == (SpanView { text, style: faint(Color::DarkGray) })
}

/// The box for a prompt, under a title.
pub fn input_panel(title: String, waiting: bool, fork_message: &Option<String>) -> (panel:
    InputPanel)
    ensures
        panel.title == title,
        panel.content == (if waiting {
            InputContent::Waiting
        } else {
            InputContent::Prompt
        }),
        (match panel.hint {
            Some(hint) => opt_text(*fork_message) matches Some(text) && is_hint(hint, text),
            None => fork_message is None,
        }),
{
    let hint = match fork_message {
        Some(text) => Some(
            ForkHint {
                title: Span {
                    text: "fork context pending".to_owned(),
                    style: Style::dim(Color::DarkGray),
                },
                text: Span { text: text.clone(), style: Style::dim(Color::DarkGray) },
            },
        ),
        None => None,
    };
    InputPanel {
        title,
        content: if waiting {
            InputContent::Waiting
        } else {
            InputContent::Prompt
        },
        hint,
    }
}

impl SessionComponent {
    /// The panels over the box for a prompt.
    pub fn output_panels(&self, layout: &SessionLayout) -> (panels: OutputPanels)
        ensures
            panels.conversation == (match (layout.stderr, layout.conversation_panel) {
                (Some(_), Some(beside)) => beside,
                _ => layout.conversation,
            }),
            (match panels.stderr {
                Some((area, panel)) => {
                    &&& layout.stderr == Some(area)
                    &&& line_views(panel.lines@) == stderr_views(views(self.view.stderr_lines@))
                    &&& panel.border == stderr_border(self.view.focused_panel)
                    &&& panel.length == self.view.stderr_lines@.len()
                    &&& panel.scroll == self.view.stderr_scroll
                },
                None => layout.stderr is None,
            }),
    {
        let conversation = match (layout.stderr, layout.conversation_panel) {
            (Some(_), Some(beside)) => beside,
            _ => layout.conversation,
        };
        let stderr = match layout.stderr {
            Some(area) => Some(
                (
                    area,
                    stderr_panel(
                        &self.view.stderr_lines,
                        self.view.focused_panel,
                        self.view.stderr_scroll,
                    ),
                ),
            ),
            None => None,
        };
        OutputPanels { conversation, stderr }
    }

    /// The box for a prompt.
    pub fn input_panel(&self) -> (panel: InputPanel)
        ensures
            panel.title@ == title_of(
                opt_text(self.model.current_model),
                opt_text(self.model.current_mode),
                self.model.config.agent_label@,
            ),
            panel.content == (if self.model.waiting {
                InputContent::Waiting
            } else {
                InputContent::Prompt
            }),
            (match panel.hint {
                Some(hint) => opt_text(self.model.pending_fork_message) matches Some(text)
                    && is_hint(hint, text),
                None => self.model.pending_fork_message is None,
            }),
    {
        input_panel(self.input_title(), self.model.waiting, &self.model.pending_fork_message)
    }

    /// Which session this is.
    pub fn id(&self) -> (id: u32)
        ensures
            id == self.id,
    {
        self.id
    }

    /// What its tab is labelled.
    pub fn label(&self) -> (label: &str)
        ensures
            label@ == self.label@,
    {
        self.label.as_str()
    }

    /// Labels its tab.
    pub fn set_label(&mut self, label: String)
        ensures
            *final(self) == (SessionComponent { label, ..*old(self) }),
    {
        self.label = label;
    }

    /// Whether the agent works.
    pub fn waiting(&self) -> (waiting: bool)
        ensures
            waiting == self.model.waiting,
    {
        self.model.waiting
    }

    /// How the session stands.
    pub fn status(&self) -> (status: &str)
        ensures
            status@ == self.model.status@,
    {
        self.model.status.as_str()
    }

    /// What the agent is called.
    pub fn agent_label(&self) -> (label: &str)
        ensures
            label@ == self.model.config.agent_label@,
    {
        self.model.config.agent_label.as_str()
    }

    /// The command that runs the agent.
    pub fn agent_command(&self) -> (command: &str)
        ensures
            command@ == self.model.config.agent_command@,
    {
        self.model.config.agent_command.as_str()
    }

    /// What the command is given.
    pub fn agent_args(&self) -> (args: &Vec<String>)
        ensures
            *args == self.model.config.agent_args,
    {
        &self.model.config.agent_args
    }

    /// The environment that it runs in.
    pub fn agent_env(&self) -> (env: &Vec<EnvVar>)
        ensures
            *env == self.model.config.agent_env,
    {
        &self.model.config.agent_env
    }

    /// Whether turns are pushed as they are recorded.
    pub fn auto_push(&self) -> (auto_push: bool)
        ensures
            auto_push == self.model.config.auto_push,
    {
        self.model.config.auto_push
    }

    /// Where turns are pushed to.
    pub fn push_remote(&self) -> (remote: &str)
        ensures
            remote@ == self.model.config.push_remote@,
    {
        self.model.config.push_remote.as_str()
    }
}

/// Every line that the agent wrote is shown, in order; the border shows whether
/// the keys scroll the panel; and what a fork carries over is shown whole.
pub proof fn what_the_agent_wrote_is_shown(lines: Seq<Seq<char>>, i: int)
    ensures
        stderr_views(lines).len() == lines.len(),
        0 <= i < lines.len() ==> stderr_views(lines)[i].len() == 1 && stderr_views(lines)[i][0].text
            == lines[i],
        stderr_border(FocusedPanel::Stderr) != stderr_border(FocusedPanel::Conversation),
        forall|hint: ForkHint, text: Seq<char>| #[trigger]
            is_hint(hint, text) ==> hint.text@.text == text,
{
}

} // verus!
