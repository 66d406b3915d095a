//! A session with an agent: the conversation, the prompt that is being
//! written, and what the agent reports beside it.

use crate::action::{action_target_tab_id, target_tab, Action};
use crate::components::list_navigation::{list_of, new_list, scroll_by, scroll_list, undrawn};
use crate::components::text_input::{
    box_of, empty_box, insert_newline, is_broken, is_typed, lines_in, new_textarea, type_key,
    TextInput,
};
use crate::diff::{opt_text, Oid};
use crate::geometry::{
    add_capped, apply_scroll_delta, capped, comes_of, height_of, scrolled, split, within,
    Constraint, Direction, Plan, Rect,
};
use crate::input::{wheel, wheel_delta, KeyCode, KeyEvent, MouseEvent};
use crate::style::{
    colored, line_views, one_span, span_views, strong, two_spans, Color, Line, Span, SpanView,
    Style,
};
use crate::text::{
    begins, contains, decimal, is_blank, is_space, join, joined, lemma_same_either_way,
    lemma_stands_at_the_end, lemma_stands_between, lines, lines_of, lowercase, number, occurs, same,
    to_chars, to_lowercase, trim, trimming_takes_only_white_space, views,
};
use tui_widget_list::ListState;
use vstd::prelude::*;

verus! {

/// How high the box for a prompt is.
pub const AGENT_INPUT_HEIGHT: u16 = 4;

/// The least height of the box with what a fork carries over.
pub const FORK_HINT_MIN_BLOCK_HEIGHT: u16 = 3;

/// The greatest height of that box.
pub const FORK_HINT_MAX_BLOCK_HEIGHT: u16 = 9;

/// How many digits of a turn's name a fork mentions.
pub const FORK_NAME: usize = 12;

/// Which panel the keys scroll.
#[derive(Clone, Copy, Debug, PartialEq, Eq, Structural)]
pub enum FocusedPanel {
    Conversation,
    Stderr,
}

/// What a tool call does.
#[derive(Clone, Copy, Debug, PartialEq, Eq, Structural)]
pub enum ToolKind {
    Read,
    Edit,
    Delete,
    Move,
    Search,
    Execute,
    Think,
    Fetch,
    SwitchMode,
    Other,
}

/// A place that a tool call is about.
#[derive(Debug)]
pub struct ToolLocation {
    pub path: String,
    pub line: Option<u32>,
}

/// A tool call of the agent.
#[derive(Debug)]
pub struct ToolCall {
    pub title: String,
    pub kind: ToolKind,
    pub locations: Vec<ToolLocation>,
}

/// A part of the conversation.
#[derive(Debug)]
pub enum Message {
    User(String),
    Agent(String),
    System(String),
    ToolCall(ToolCall),
}

/// A part of the conversation, as the contracts speak of it.
pub enum MessageView {
    User(Seq<char>),
    Agent(Seq<char>),
    System(Seq<char>),
    ToolCall(ToolCall),
}

impl View for Message {
    type V = MessageView;

    open spec fn view(&self) -> MessageView {
        match *self {
            Message::User(text) => MessageView::User(text@),
            Message::Agent(text) => MessageView::Agent(text@),
            Message::System(text) => MessageView::System(text@),
            Message::ToolCall(call) => MessageView::ToolCall(call),
        }
    }
}

/// A conversation, as the contracts speak of it.
pub open spec fn message_views(messages: Seq<Message>) -> Seq<MessageView> {
    Seq::new(messages.len(), |i: int| messages[i]@)
}

/// Where a session is in its life.
#[derive(Clone, Copy, Debug, PartialEq, Eq, Structural)]
pub enum SessionLifecycle {
    Active,
    CloseRequested,
    Closed,
}

/// A variable of an agent's environment.
#[derive(Debug)]
pub struct EnvVar {
    pub key: String,
    pub value: String,
}

/// How the agent of a session is run.
#[derive(Debug)]
pub struct SessionTabConfig {
    pub agent_label: String,
    pub agent_command: String,
    pub agent_args: Vec<String>,
    pub agent_env: Vec<EnvVar>,
    pub auto_push: bool,
    pub push_remote: String,
}

/// What is known of a session.
#[derive(Debug)]
pub struct SessionModel {
    pub messages: Vec<Message>,
    pub status: String,
    pub waiting: bool,
    pub current_model: Option<String>,
    pub current_mode: Option<String>,
    /// What a fork carries over, until the first prompt takes it along.
    pub pending_fork_message: Option<String>,
    pub config: SessionTabConfig,
    pub lifecycle: SessionLifecycle,
}

/// How a session is shown.
pub struct SessionViewState {
    pub textarea: TextInput,
    pub conversation_list: ListState,
    /// Where the conversation was last drawn.
    pub viewport: Rect,
    pub stderr_lines: Vec<String>,
    pub stderr_scroll: u16,
    pub show_stderr: bool,
    pub focused_panel: FocusedPanel,
}

/// A session.
pub struct SessionComponent {
    pub id: u32,
    pub label: String,
    pub model: SessionModel,
    pub view: SessionViewState,
}

// ---------------------------------------------------------------------------
// Options of an agent
// ---------------------------------------------------------------------------

/// What an option of an agent is about.
#[derive(Clone, Copy, Debug, PartialEq, Eq, Structural)]
pub enum OptionCategory {
    Model,
    Mode,
    Other,
}

/// A value that an option can have, and its name.
#[derive(Debug)]
pub struct SelectValue {
    pub value: String,
    pub name: String,
}

/// A choice: the current value, and those that there are.
#[derive(Debug)]
pub struct Select {
    pub current_value: String,
    pub values: Vec<SelectValue>,
}

/// An option of an agent. Only a choice has a label.
#[derive(Debug)]
pub struct ConfigOption {
    pub name: String,
    pub category: OptionCategory,
    pub select: Option<Select>,
}

/// The name of the first value of this kind.
pub open spec fn value_name(values: Seq<SelectValue>, value: Seq<char>) -> Option<Seq<char>>
    decreases values.len(),
{
    if values.len() == 0 {
        None
    } else if values[0].value@ == value {
        Some(values[0].name@)
    } else {
        value_name(values.skip(1), value)
    }
}

/// What is shown for an option: the name of its value, or the value itself
/// where it has none.
pub open spec fn select_label(option: ConfigOption) -> Option<Seq<char>> {
    match option.select {
        Some(select) => match value_name(select.values@, select.current_value@) {
            Some(name) => Some(name),
            None => Some(select.current_value@),
        },
        None => None,
    }
}

/// What is shown for an option.
pub fn current_select_label(option: &ConfigOption) -> (label: Option<String>)
    ensures
        opt_text(label) == select_label(*option),
{
    let select = match &option.select {
        Some(select) => select,
        None => {
            return None;
        },
    };
    let mut i: usize = 0;
    assert(select.values@.skip(0) =~= select.values@);
    while i < select.values.len()
        invariant
            i <= select.values@.len(),
            option.select == Some(*select),
            value_name(select.values@, select.current_value@) == value_name(
                select.values@.skip(i as int),
                select.current_value@,
            ),
        decreases select.values.len() - i,
    {
        assert(select.values@.skip(i as int).skip(1) =~= select.values@.skip(i + 1));
        if same(select.values[i].value.as_str(), select.current_value.as_str()) {
            return Some(select.values[i].name.clone());
        }
        i += 1;
    }
    Some(select.current_value.clone())
}

/// Which labels an option sets, the model's and the mode's. One of another
/// category is told by its name in lower case.
pub open spec fn sets(category: OptionCategory, lower: Seq<char>) -> (bool, bool) {
    match category {
        OptionCategory::Model => (true, false),
        OptionCategory::Mode => (false, true),
        OptionCategory::Other => (occurs(lower, "model"@), occurs(lower, "mode"@)),
    }
}

/// Which labels an option sets.
pub fn sets_labels(category: OptionCategory, lower: &str) -> (r: (bool, bool))
    ensures
        r == sets(category, lower@),
{
    match category {
        OptionCategory::Model => (true, false),
        OptionCategory::Mode => (false, true),
        OptionCategory::Other => (contains(lower, "model"), contains(lower, "mode")),
    }
}

/// The labels after options were set, the model's and the mode's; a later
/// option wins.
pub open spec fn labels_after(
    before: (Option<Seq<char>>, Option<Seq<char>>),
    options: Seq<ConfigOption>,
) -> (Option<Seq<char>>, Option<Seq<char>>)
    decreases options.len(),
{
    if options.len() == 0 {
        before
    } else {
        let so_far = labels_after(before, options.drop_last());
        let option = options.last();
        match select_label(option) {
            Some(label) => {
                let which = sets(option.category, lowercase(option.name@));
                (
                    if which.0 {
                        Some(label)
                    } else {
                        so_far.0
                    },
                    if which.1 {
                        Some(label)
                    } else {
                        so_far.1
                    },
                )
            },
            None => so_far,
        }
    }
}

// ---------------------------------------------------------------------------
// What happens in a session
// ---------------------------------------------------------------------------

/// News of a turn that is going on.
#[derive(Debug)]
pub enum SessionUpdate {
    AgentText(String),
    ToolCall(ToolCall),
    Mode(String),
    Options(Vec<ConfigOption>),
    Other,
}

/// Something that happened in a session.
#[derive(Debug)]
pub enum SessionEvent {
    Configured { mode: Option<String>, options: Vec<ConfigOption> },
    Notification(SessionUpdate),
    /// The turn is over; its name, if it was recorded.
    TurnComplete { stop_reason: String, turn: Option<String> },
    Stderr(String),
    PushFailed { ref_name: String, error: String },
    Error(String),
}

/// The conversation after a piece of the agent's text: it goes on with what
/// the agent was saying, if that was last.
pub open spec fn said(messages: Seq<MessageView>, text: Seq<char>) -> Seq<MessageView> {
    if messages.len() > 0 && messages.last() is Agent {
        messages.drop_last().push(MessageView::Agent(messages.last()->Agent_0 + text))
    } else {
        messages.push(MessageView::Agent(text))
    }
}

/// The conversation after news.
pub open spec fn messages_after(messages: Seq<MessageView>, update: SessionUpdate) -> Seq<
    MessageView,
> {
    match update {
        SessionUpdate::AgentText(text) => said(messages, text@),
        SessionUpdate::ToolCall(call) => messages.push(MessageView::ToolCall(call)),
        _ => messages,
    }
}

/// The labels after news.
pub open spec fn labels_after_update(
    before: (Option<Seq<char>>, Option<Seq<char>>),
    update: SessionUpdate,
) -> (Option<Seq<char>>, Option<Seq<char>>) {
    match update {
        SessionUpdate::Mode(mode) => (before.0, Some(mode@)),
        SessionUpdate::Options(options) => labels_after(before, options@),
        _ => before,
    }
}

/// The conversation after something happened in the session.
pub open spec fn conversation_after(messages: Seq<MessageView>, event: SessionEvent) -> Seq<
    MessageView,
> {
    match event {
        SessionEvent::Notification(update) => messages_after(messages, update),
        SessionEvent::TurnComplete { stop_reason: _, turn } => match turn {
            Some(name) => messages.push(MessageView::System("Turn: "@ + name@)),
            None => messages,
        },
        SessionEvent::PushFailed { ref_name, error } => messages.push(
            MessageView::System("Push failed for "@ + ref_name@ + ": "@ + error@),
        ),
        SessionEvent::Error(err) => messages.push(MessageView::System("Error: "@ + err@)),
        _ => messages,
    }
}

/// Whether the agent works after something happened in the session.
pub open spec fn waiting_after(waiting: bool, event: SessionEvent) -> bool {
    waiting && !(event is TurnComplete) && !(event is Error)
}

/// The end of a turn and an error end the agent's work, and nothing else does.
/// Each leaves a note in the conversation, with the turn's name or with what went
/// wrong, and so does a push that failed; no event takes anything out of it.
pub proof fn events_are_noted(messages: Seq<MessageView>, event: SessionEvent, i: int)
    ensures
        ({
            let after = conversation_after(messages, event);
            let noted = after.len() == messages.len() + 1 && after.drop_last() == messages
                && after.last() is System;
            &&& messages.len() <= after.len()
            &&& 0 <= i < messages.len() - 1 ==> after[i] == messages[i]
            &&& match event {
                SessionEvent::TurnComplete { stop_reason: _, turn } => match turn {
                    Some(name) => noted && occurs(after.last()->System_0, name@),
                    None => after == messages,
                },
                SessionEvent::PushFailed { ref_name, error } => noted && occurs(
                    after.last()->System_0,
                    ref_name@,
                ) && occurs(after.last()->System_0, error@),
                SessionEvent::Error(err) => noted && occurs(after.last()->System_0, err@),
                SessionEvent::Stderr(_) => after == messages,
                SessionEvent::Configured { .. } => after == messages,
                SessionEvent::Notification(_) => true,
            }
        }),
        (match event {
            SessionEvent::TurnComplete { .. } => !waiting_after(true, event),
            SessionEvent::Error(_) => !waiting_after(true, event),
            _ => waiting_after(true, event),
        }),
        !waiting_after(false, event),
{
    let after = conversation_after(messages, event);
    match event {
        SessionEvent::Notification(update) => {
            news_only_adds_to_a_conversation(messages, update);
        },
        SessionEvent::TurnComplete { stop_reason: _, turn } => {
            if let Some(name) = turn {
                assert(after.drop_last() =~= messages);
                lemma_stands_at_the_end("Turn: "@, name@);
            }
        },
        SessionEvent::PushFailed { ref_name, error } => {
            assert(after.drop_last() =~= messages);
            lemma_stands_between("Push failed for "@, ref_name@, ": "@ + error@);
            lemma_same_either_way("Push failed for "@ + ref_name@, ": "@, error@);
            lemma_stands_at_the_end("Push failed for "@ + ref_name@ + ": "@, error@);
        },
        SessionEvent::Error(err) => {
            assert(after.drop_last() =~= messages);
            lemma_stands_at_the_end("Error: "@, err@);
        },
        _ => {},
    }
}

/// What the agent's part of a step was handed over with: sent, not taken
/// because one is waiting, or nobody is there any more.
#[derive(Clone, Copy, Debug, PartialEq, Eq, Structural)]
pub enum CancelOutcome {
    Sent,
    Full,
    Gone,
}

/// How far a request to close has come.
#[derive(Clone, Copy, Debug, PartialEq, Eq, Structural)]
pub enum CloseStep {
    /// Answered: whether the session is closing.
    Answered(bool),
    /// The agent is to be told.
    Cancel,
}

impl SessionModel {
    /// The labels of a session, the model's and the mode's.
    pub open spec fn labels(self) -> (Option<Seq<char>>, Option<Seq<char>>) {
        (opt_text(self.current_model), opt_text(self.current_mode))
    }

    /// Takes the labels that options set.
    pub fn update_session_labels(&mut self, options: &Vec<ConfigOption>)
        ensures
            final(self).labels() == labels_after(old(self).labels(), options@),
            *final(self) == (SessionModel {
                current_model: final(self).current_model,
                current_mode: final(self).current_mode,
                ..*old(self)
            }),
    {
        let ghost first = *self;
        let mut i: usize = 0;
        assert(options@.take(0) =~= Seq::empty());
        while i < options.len()
            invariant
                i <= options@.len(),
                self.labels() == labels_after(first.labels(), options@.take(i as int)),
                *self == (SessionModel {
                    current_model: self.current_model,
                    current_mode: self.current_mode,
                    ..first
                }),
            decreases options.len() - i,
        {
            assert(options@.take(i + 1).drop_last() =~= options@.take(i as int));
            let option = &options[i];
            if let Some(label) = current_select_label(option) {
                let lower = to_lowercase(option.name.as_str());
                let (model, mode) = sets_labels(option.category, lower.as_str());
                if model {
                    self.current_model = Some(label.clone());
                }
                if mode {
                    self.current_mode = Some(label);
                }
            }
            i += 1;
        }
        assert(options@.take(options@.len() as int) =~= options@);
    }

    /// Adds a note to the conversation.
    pub fn push_system_message(&mut self, message: String)
        ensures
            message_views(final(self).messages@) == message_views(old(self).messages@).push(
                MessageView::System(message@),
            ),
            *final(self) == (SessionModel { messages: final(self).messages, ..*old(self) }),
    {
        let ghost was = message_views(self.messages@);
        let ghost text = message@;
        self.messages.push(Message::System(message));
        assert(message_views(self.messages@) =~= was.push(MessageView::System(text)));
    }

    /// Takes news of a turn.
    pub fn handle_notification(&mut self, update: SessionUpdate)
        ensures
            message_views(final(self).messages@) == messages_after(
                message_views(old(self).messages@),
                update,
            ),
            final(self).labels() == labels_after_update(old(self).labels(), update),
            *final(self) == (SessionModel {
                messages: final(self).messages,
                current_model: final(self).current_model,
                current_mode: final(self).current_mode,
                ..*old(self)
            }),
    {
        let ghost was = message_views(self.messages@);
        match update {
            SessionUpdate::AgentText(text) => {
                let n: usize = self.messages.len();
                assert(n > 0 ==> was.last() == self.messages@.last()@);
                match self.messages.pop() {
                    Some(Message::Agent(existing)) => {
                        let mut longer = existing;
                        longer.append(text.as_str());
                        let ghost whole = longer@;
                        self.messages.push(Message::Agent(longer));
                        assert(message_views(self.messages@) =~= was.drop_last().push(
                            MessageView::Agent(whole),
                        ));
                    },
                    Some(other) => {
                        self.messages.push(other);
                        let ghost piece = text@;
                        self.messages.push(Message::Agent(text));
                        assert(message_views(self.messages@) =~= was.push(
                            MessageView::Agent(piece),
                        ));
                    },
                    None => {
                        let ghost piece = text@;
                        self.messages.push(Message::Agent(text));
                        assert(message_views(self.messages@) =~= was.push(
                            MessageView::Agent(piece),
                        ));
                    },
                }
            },
            SessionUpdate::ToolCall(call) => {
                let ghost made = call;
                self.messages.push(Message::ToolCall(call));
                assert(message_views(self.messages@) =~= was.push(MessageView::ToolCall(made)));
            },
            SessionUpdate::Mode(mode) => {
                self.current_mode = Some(mode);
            },
            SessionUpdate::Options(options) => {
                self.update_session_labels(&options);
            },
            SessionUpdate::Other => {},
        }
    }
}

/// The title over the box for a prompt: the model, or else the agent, and the
/// mode where there is one.
pub open spec fn title_of(
    model: Option<Seq<char>>,
    mode: Option<Seq<char>>,
    agent: Seq<char>,
) -> Seq<char> {
    let primary = match model {
        Some(m) => if m.len() > 0 {
            m
        } else {
            agent
        },
        None => agent,
    };
    match mode {
        Some(m) => if m.len() > 0 {
            primary + " - "@ + m
        } else {
            primary
        },
        None => primary,
    }
}

fn is_empty_text(s: &str) -> (r: bool)
    ensures
        r == (s@.len() == 0),
{
    let v = to_chars(s);
    v.len() == 0
}

/// What a fork carries over.
pub open spec fn fork_text(source: Seq<char>, turn: Oid) -> Seq<char> {
    "<session_context>\nForked from session "@ + source + " at turn "@ + turn.text().take(
        FORK_NAME as int,
    ) + ".\nPrior conversation and file changes: refs/agent/sessions/"@ + source
        + "\n</session_context>"@
}

/// The prompt that is sent: what was written, behind what a fork carries over.
pub open spec fn prompt_text(lines: Seq<Seq<char>>, fork: Option<Seq<char>>) -> Seq<char> {
    let written = join(lines, "\n"@);
    match fork {
        Some(fork) => fork + "\n\n"@ + written,
        None => written,
    }
}

/// What is sent ends with all that was written, and begins with the whole of
/// what a fork left to carry over; with nothing to carry over, it is what was
/// written.
pub proof fn a_prompt_carries_the_fork_and_what_was_written(
    lines: Seq<Seq<char>>,
    fork: Option<Seq<char>>,
)
    ensures
        ({
            let sent = prompt_text(lines, fork);
            let written = join(lines, "\n"@);
            &&& written.len() <= sent.len()
            &&& sent.skip(sent.len() - written.len()) == written
            &&& fork matches Some(fork) ==> fork.len() + written.len() < sent.len() && sent.take(
                fork.len() as int,
            ) == fork
            &&& fork is None ==> sent == written
        }),
{
    let sent = prompt_text(lines, fork);
    let written = join(lines, "\n"@);
    reveal_strlit("\n\n");
    assert(sent.skip(sent.len() - written.len()) =~= written);
    if let Some(fork) = fork {
        assert(sent.take(fork.len() as int) =~= fork);
    }
}

/// What a fork carries over names the session that it came from, at the start
/// and at the end, and the turn by the beginning of its name.
pub proof fn a_fork_names_where_it_came_from(source: Seq<char>, turn: Oid)
    ensures
        occurs(fork_text(source, turn), "Forked from session "@ + source + " at turn "@),
        occurs(fork_text(source, turn), " at turn "@ + turn.text().take(FORK_NAME as int)),
        occurs(fork_text(source, turn), "refs/agent/sessions/"@ + source),
{
    reveal_strlit("<session_context>\nForked from session ");
    reveal_strlit("Forked from session ");
    reveal_strlit(" at turn ");
    reveal_strlit(".\nPrior conversation and file changes: refs/agent/sessions/");
    reveal_strlit("refs/agent/sessions/");
    let text = fork_text(source, turn);
    let name = turn.text().take(FORK_NAME as int);
    let a = "Forked from session "@ + source + " at turn "@;
    assert(text.subrange(18, 18 + a.len() as int) =~= a);
    let b = " at turn "@ + name;
    let m: int = 38 + source.len() as int;
    assert(text.subrange(m, m + b.len()) =~= b);
    let c = "refs/agent/sessions/"@ + source;
    let k: int = m + b.len() + 39;
    assert(text.subrange(k, k + c.len()) =~= c);
}

/// Whether what was written can be sent now.
pub open spec fn can_send(lines: Seq<Seq<char>>, model: SessionModel) -> bool {
    trim(join(lines, "\n"@)).len() > 0 && !model.waiting && model.lifecycle
        == SessionLifecycle::Active
}

impl SessionComponent {
    /// A session that has just started.
    pub fn new(id: u32, label: String, config: SessionTabConfig) -> (s: SessionComponent)
        ensures
            s.id == id,
            s.label == label,
            s.model.config == config,
            message_views(s.model.messages@) == seq![
                MessageView::System("Session started. Type a prompt and press Enter."@),
            ],
            s.model.status@ == "connected"@,
            !s.model.waiting,
            s.model.labels() == (None::<Seq<char>>, None::<Seq<char>>),
            s.model.pending_fork_message is None,
            s.model.lifecycle == SessionLifecycle::Active,
            box_of(s.view.textarea) == empty_box(),
            list_of(s.view.conversation_list) == undrawn(),
            s.view.stderr_lines@.len() == 0,
            s.view.stderr_scroll == 0,
            !s.view.show_stderr,
            s.view.focused_panel == FocusedPanel::Conversation,
            s.wf(),
    {
        let mut messages: Vec<Message> = Vec::new();
        messages.push(
            Message::System("Session started. Type a prompt and press Enter.".to_owned()),
        );
        assert(message_views(messages@) =~= seq![
            MessageView::System("Session started. Type a prompt and press Enter."@),
        ]);
        SessionComponent {
            id,
            label,
            model: SessionModel {
                messages,
                status: "connected".to_owned(),
                waiting: false,
                current_model: None,
                current_mode: None,
                pending_fork_message: None,
                config,
                lifecycle: SessionLifecycle::Active,
            },
            view: SessionViewState {
                textarea: new_textarea("Type a prompt and press Enter..."),
                conversation_list: new_list(),
                viewport: Rect::empty(),
                stderr_lines: Vec::new(),
                stderr_scroll: 0,
                show_stderr: false,
                focused_panel: FocusedPanel::Conversation,
            },
        }
    }

    /// The middle of the view is a column of the terminal.
    pub open spec fn wf(&self) -> bool {
        self.view.viewport.width > 0 ==> self.view.viewport.x + (self.view.viewport.width - 1) / 2
            <= u16::MAX
    }

    /// Notes where the conversation was drawn.
    pub fn drawn_at(&mut self, area: Rect)
        ensures
            *final(self) == (SessionComponent {
                view: SessionViewState { viewport: area, ..old(self).view },
                ..*old(self)
            }),
    {
        self.view.viewport = area;
    }

    /// The title over the box for a prompt.
    pub fn input_title(&self) -> (title: String)
        ensures
            title@ == title_of(
                opt_text(self.model.current_model),
                opt_text(self.model.current_mode),
                self.model.config.agent_label@,
            ),
    {
        let mut title = match &self.model.current_model {
            Some(m) => if is_empty_text(m.as_str()) {
                self.model.config.agent_label.clone()
            } else {
                m.clone()
            },
            None => self.model.config.agent_label.clone(),
        };
        if let Some(mode) = &self.model.current_mode {
            if !is_empty_text(mode.as_str()) {
                title.append(" - ");
                title.append(mode.as_str());
            }
        }
        title
    }

    /// Notes what a fork carries over, for the next prompt to take along.
    pub fn queue_fork_message(&mut self, source: &str, turn: Oid)
        ensures
            opt_text(final(self).model.pending_fork_message) == Some(fork_text(source@, turn)),
            *final(self) == (SessionComponent { model: final(self).model, ..*old(self) }),
            final(self).model == (SessionModel {
                pending_fork_message: final(self).model.pending_fork_message,
                ..old(self).model
            }),
    {
        let short = turn.short(FORK_NAME);
        let mut text = "<session_context>\nForked from session ".to_owned();
        text.append(source);
        text.append(" at turn ");
        text.append(short.as_str());
        text.append(".\nPrior conversation and file changes: refs/agent/sessions/");
        text.append(source);
        text.append("\n</session_context>");
        self.model.pending_fork_message = Some(text);
    }

    /// Takes the prompt that was written, to be sent to the agent. Nothing is
    /// sent that is blank, nor while the agent works, nor when the session
    /// closes; then nothing changes.
    pub fn send_prompt(&mut self) -> (prompt: Option<String>)
        ensures
            ({
                let lines = box_of(old(self).view.textarea).lines;
                let fork = opt_text(old(self).model.pending_fork_message);
                if can_send(lines, old(self).model) {
                    let text = prompt_text(lines, fork);
                    &&& opt_text(prompt) == Some(text)
                    &&& box_of(final(self).view.textarea) == empty_box()
                    &&& message_views(final(self).model.messages@) == message_views(
                        old(self).model.messages@,
                    ).push(MessageView::User(text))
                    &&& final(self).model.waiting
                    &&& final(self).model.status@ == "waiting for agent..."@
                    &&& final(self).model.pending_fork_message is None
                    &&& final(self).model == (SessionModel {
                        messages: final(self).model.messages,
                        waiting: true,
                        status: final(self).model.status,
                        pending_fork_message: None,
                        ..old(self).model
                    })
                    &&& final(self).view == (SessionViewState {
                        textarea: final(self).view.textarea,
                        ..old(self).view
                    })
                    &&& *final(self) == (SessionComponent {
                        model: final(self).model,
                        view: final(self).view,
                        ..*old(self)
                    })
                } else {
                    prompt is None && *final(self) == *old(self)
                }
            }),
            prompt matches Some(sent) ==> ({
                let written = join(box_of(old(self).view.textarea).lines, "\n"@);
                &&& written.len() <= sent@.len()
                &&& sent@.skip(sent@.len() - written.len()) == written
                &&& old(self).model.pending_fork_message matches Some(fork) ==> begins(
                    sent@,
                    fork@,
                )
            }),
    {
        let ghost was = box_of(self.view.textarea).lines;
        let ghost carried = opt_text(self.model.pending_fork_message);
        proof {
            a_prompt_carries_the_fork_and_what_was_written(was, carried);
        }
        let lines = lines_in(&self.view.textarea);
        let written = joined(&lines, "\n");
        if is_blank(written.as_str()) || self.model.waiting || self.model.lifecycle
            != SessionLifecycle::Active {
            return None;
        }
        let mut fork: Option<String> = None;
        std::mem::swap(&mut fork, &mut self.model.pending_fork_message);
        let text = match fork {
            Some(message) => {
                let mut text = message;
                text.append("\n\n");
                text.append(written.as_str());
                text
            },
            None => written,
        };
        self.view.textarea = new_textarea("Type a prompt and press Enter...");
        let ghost was = message_views(self.model.messages@);
        let ghost sent = text@;
        self.model.messages.push(Message::User(text.clone()));
        assert(message_views(self.model.messages@) =~= was.push(MessageView::User(sent)));
        self.model.waiting = true;
        self.model.status = "waiting for agent...".to_owned();
        Some(text)
    }

    /// Notes that a prompt could not be sent, because the session is closed.
    pub fn prompt_failed(&mut self)
        ensures
            message_views(final(self).model.messages@) == message_views(
                old(self).model.messages@,
            ).push(MessageView::System("Failed to send prompt (session closed)."@)),
            !final(self).model.waiting,
            final(self).model.status@ == "disconnected"@,
            final(self).model == (SessionModel {
                messages: final(self).model.messages,
                waiting: false,
                status: final(self).model.status,
                ..old(self).model
            }),
            *final(self) == (SessionComponent { model: final(self).model, ..*old(self) }),
    {
        self.model.push_system_message("Failed to send prompt (session closed).".to_owned());
        self.model.waiting = false;
        self.model.status = "disconnected".to_owned();
    }

    /// Takes what happened in the session.
    pub fn handle_session_event(&mut self, event: SessionEvent)
        ensures
            final(self).id == old(self).id,
            final(self).label == old(self).label,
            final(self).view == (SessionViewState {
                stderr_lines: final(self).view.stderr_lines,
                show_stderr: final(self).view.show_stderr,
                ..old(self).view
            }),
            !(event is Stderr) ==> final(self).view == old(self).view,
            final(self).model == (SessionModel {
                messages: final(self).model.messages,
                waiting: final(self).model.waiting,
                status: final(self).model.status,
                current_model: final(self).model.current_model,
                current_mode: final(self).model.current_mode,
                ..old(self).model
            }),
            ({
                let was = message_views(old(self).model.messages@);
                let now = message_views(final(self).model.messages@);
                let before = old(self).model;
                let after = final(self).model;
                match event {
                    SessionEvent::Configured { mode, options } => {
                        let labels = labels_after(before.labels(), options@);
                        &&& after.labels() == (
                            labels.0,
                            if mode is Some {
                                opt_text(mode)
                            } else {
                                labels.1
                            },
                        )
                        &&& now == was
                        &&& after.waiting == before.waiting
                        &&& after.status == before.status
                    },
                    SessionEvent::Notification(update) => {
                        &&& now == messages_after(was, update)
                        &&& after.labels() == labels_after_update(before.labels(), update)
                        &&& after.waiting == before.waiting
                        &&& after.status == before.status
                    },
                    SessionEvent::TurnComplete { stop_reason, turn } => {
                        &&& !after.waiting
                        &&& after.status@ == "done ("@ + stop_reason@ + ")"@
                        &&& now == (match turn {
                            Some(name) => was.push(MessageView::System("Turn: "@ + name@)),
                            None => was,
                        })
                        &&& after.labels() == before.labels()
                    },
                    SessionEvent::Stderr(line) => {
                        &&& after == before
                        &&& views(final(self).view.stderr_lines@) == views(
                            old(self).view.stderr_lines@,
                        ).push(line@)
                        &&& final(self).view.show_stderr == (old(self).view.show_stderr
                            || old(self).view.stderr_lines@.len() == 0)
                    },
                    SessionEvent::PushFailed { ref_name, error } => {
                        &&& now == was.push(
                            MessageView::System(
                                "Push failed for "@ + ref_name@ + ": "@ + error@,
                            ),
                        )
                        &&& after.waiting == before.waiting
                        &&& after.status == before.status
                        &&& after.labels() == before.labels()
                    },
                    SessionEvent::Error(err) => {
                        &&& now == was.push(MessageView::System("Error: "@ + err@))
                        &&& !after.waiting
                        &&& after.status@ == "error"@
                        &&& after.labels() == before.labels()
                    },
                }
            }),
            message_views(final(self).model.messages@) == conversation_after(
                message_views(old(self).model.messages@),
                event,
            ),
            final(self).model.waiting == waiting_after(old(self).model.waiting, event),
    {
        match event {
            SessionEvent::Configured { mode, options } => {
                self.model.update_session_labels(&options);
                if let Some(mode) = mode {
                    self.model.current_mode = Some(mode);
                }
            },
            SessionEvent::Notification(update) => {
                self.model.handle_notification(update);
            },
            SessionEvent::TurnComplete { stop_reason, turn } => {
                self.model.waiting = false;
                let mut status = "done (".to_owned();
                status.append(stop_reason.as_str());
                status.append(")");
                self.model.status = status;
                if let Some(name) = turn {
                    let mut text = "Turn: ".to_owned();
                    text.append(name.as_str());
                    self.model.push_system_message(text);
                }
            },
            SessionEvent::Stderr(line) => {
                let ghost was = views(self.view.stderr_lines@);
                let ghost text = line@;
                self.view.stderr_lines.push(line);
                assert(views(self.view.stderr_lines@) =~= was.push(text));
                if !self.view.show_stderr && self.view.stderr_lines.len() == 1 {
                    self.view.show_stderr = true;
                }
            },
            SessionEvent::PushFailed { ref_name, error } => {
                let mut text = "Push failed for ".to_owned();
                text.append(ref_name.as_str());
                text.append(": ");
                text.append(error.as_str());
                self.model.push_system_message(text);
            },
            SessionEvent::Error(err) => {
                self.model.waiting = false;
                self.model.status = "error".to_owned();
                let mut text = "Error: ".to_owned();
                text.append(err.as_str());
                self.model.push_system_message(text);
            },
        }
    }

    /// Asks for the session to be closed. A second request changes nothing.
    pub fn request_close(&mut self) -> (step: CloseStep)
        ensures
            (match old(self).model.lifecycle {
                SessionLifecycle::Closed => step == CloseStep::Answered(false) && *final(self)
                    == *old(self),
                SessionLifecycle::CloseRequested => step == CloseStep::Answered(true)
                    && *final(self) == *old(self),
                SessionLifecycle::Active => {
                    &&& step == CloseStep::Cancel
                    &&& final(self).model.lifecycle == SessionLifecycle::CloseRequested
                    &&& !final(self).model.waiting
                    &&& final(self).model.status@ == "closing session..."@
                    &&& message_views(final(self).model.messages@) == message_views(
                        old(self).model.messages@,
                    ).push(MessageView::System("Closing session..."@))
                    &&& final(self).model == (SessionModel {
                        lifecycle: SessionLifecycle::CloseRequested,
                        waiting: false,
                        status: final(self).model.status,
                        messages: final(self).model.messages,
                        ..old(self).model
                    })
                    &&& *final(self) == (SessionComponent {
                        model: final(self).model,
                        ..*old(self)
                    })
                },
            }),
    {
        match self.model.lifecycle {
            SessionLifecycle::Closed => CloseStep::Answered(false),
            SessionLifecycle::CloseRequested => CloseStep::Answered(true),
            SessionLifecycle::Active => {
                self.model.lifecycle = SessionLifecycle::CloseRequested;
                self.model.waiting = false;
                self.model.status = "closing session...".to_owned();
                self.model.push_system_message("Closing session...".to_owned());
                CloseStep::Cancel
            },
        }
    }

    /// Whether the session is closing, once the agent was told.
    pub fn close_sent(outcome: CancelOutcome) -> (closing: bool)
        ensures
            closing == (outcome != CancelOutcome::Gone),
    {
        outcome != CancelOutcome::Gone
    }

    /// Whether the session is closing.
    pub fn close_requested(&self) -> (r: bool)
        ensures
            r == (self.model.lifecycle == SessionLifecycle::CloseRequested),
    {
        self.model.lifecycle == SessionLifecycle::CloseRequested
    }

    /// Notes that the session ended.
    pub fn mark_closed(&mut self)
        ensures
            final(self).model.lifecycle == SessionLifecycle::Closed,
            !final(self).model.waiting,
            final(self).model.status@ == "session ended"@,
            final(self).model == (SessionModel {
                lifecycle: SessionLifecycle::Closed,
                waiting: false,
                status: final(self).model.status,
                ..old(self).model
            }),
            *final(self) == (SessionComponent { model: final(self).model, ..*old(self) }),
    {
        self.model.lifecycle = SessionLifecycle::Closed;
        self.model.waiting = false;
        self.model.status = "session ended".to_owned();
    }
}

// ---------------------------------------------------------------------------
// Keys and the mouse
// ---------------------------------------------------------------------------

/// What scrolling the focused panel asks for.
pub open spec fn focused_scroll(panel: FocusedPanel, id: u32, delta: i16) -> Action {
    match panel {
        FocusedPanel::Conversation => Action::SessionScrollConversation { tab_id: id, delta },
        FocusedPanel::Stderr => Action::SessionScrollStderr { tab_id: id, delta },
    }
}

/// What a key asks for in a session. Enter sends the prompt, and with Alt or
/// Shift starts a line, unless the agent works; other keys scroll or switch
/// panels, and the rest are written.
pub open spec fn key_action(
    key: KeyEvent,
    id: u32,
    waiting: bool,
    show_stderr: bool,
    panel: FocusedPanel,
) -> Option<Action> {
    if key.code == KeyCode::Enter && !waiting {
        if key.alt || key.shift {
            Some(Action::SessionInsertNewline(id))
        } else {
            Some(Action::SessionSubmitPrompt(id))
        }
    } else if key.code == KeyCode::Char('e') && key.control {
        Some(Action::SessionToggleStderr(id))
    } else if key.code == KeyCode::Tab && show_stderr {
        Some(Action::SessionCycleFocus(id))
    } else if key.code == KeyCode::Up && key.shift {
        Some(focused_scroll(panel, id, (-1) as i16))
    } else if key.code == KeyCode::Down && key.shift {
        Some(focused_scroll(panel, id, 1))
    } else if key.code == KeyCode::PageUp {
        Some(focused_scroll(panel, id, (-8) as i16))
    } else if key.code == KeyCode::PageDown {
        Some(focused_scroll(panel, id, 8))
    } else if !waiting {
        Some(Action::SessionInput { tab_id: id, key })
    } else {
        None
    }
}

fn focused_scroll_action(panel: FocusedPanel, id: u32, delta: i16) -> (action: Action)
    ensures
        action == focused_scroll(panel, id, delta),
{
    match panel {
        FocusedPanel::Conversation => Action::SessionScrollConversation { tab_id: id, delta },
        FocusedPanel::Stderr => Action::SessionScrollStderr { tab_id: id, delta },
    }
}

/// The areas of a session.
#[derive(Clone, Copy, Debug, PartialEq, Eq, Structural)]
pub struct SessionLayout {
    pub conversation: Rect,
    /// The part of the conversation's area that it has beside the errors.
    pub conversation_panel: Option<Rect>,
    pub stderr: Option<Rect>,
    pub input: Rect,
    pub fork_hint: Option<Rect>,
}

/// What the wheel asks for: to focus the panel under the mouse, and to scroll
/// it.
pub open spec fn wheel_actions(layout: SessionLayout, mouse: MouseEvent, id: u32) -> Seq<Action> {
    match wheel_delta(mouse.kind) {
        Some(delta) => if !layout.conversation.has(mouse.column, mouse.row) {
            Seq::empty()
        } else if layout.stderr matches Some(area) && area.has(mouse.column, mouse.row) {
            seq![
                Action::SessionFocusStderr(id),
                Action::SessionScrollStderr { tab_id: id, delta },
            ]
        } else {
            seq![
                Action::SessionFocusConversation(id),
                Action::SessionScrollConversation { tab_id: id, delta },
            ]
        },
        None => Seq::empty(),
    }
}

/// What the wheel asks for, in a session that is laid out like this.
pub fn scroll_under_mouse(layout: &SessionLayout, mouse: MouseEvent, id: u32) -> (actions: Vec<
    Action,
>)
    ensures
        actions@ == wheel_actions(*layout, mouse, id),
{
    let mut actions: Vec<Action> = Vec::new();
    let delta: i16 = match wheel(mouse.kind) {
        Some(delta) => delta,
        None => {
            return actions;
        },
    };
    if !layout.conversation.contains(mouse.column, mouse.row) {
        return actions;
    }
    if let Some(area) = layout.stderr {
        if area.contains(mouse.column, mouse.row) {
            actions.push(Action::SessionFocusStderr(id));
            actions.push(Action::SessionScrollStderr { tab_id: id, delta });
            assert(actions@ =~= wheel_actions(*layout, mouse, id));
            return actions;
        }
    }
    actions.push(Action::SessionFocusConversation(id));
    actions.push(Action::SessionScrollConversation { tab_id: id, delta });
    assert(actions@ =~= wheel_actions(*layout, mouse, id));
    actions
}

impl SessionComponent {
    /// What a key asks for.
    pub fn handle_key_event(&self, key: KeyEvent) -> (action: Option<Action>)
        ensures
            action == key_action(
                key,
                self.id,
                self.model.waiting,
                self.view.show_stderr,
                self.view.focused_panel,
            ),
    {
        let id: u32 = self.id;
        if key.code == KeyCode::Enter && !self.model.waiting {
            return Some(
                if key.alt || key.shift {
                    Action::SessionInsertNewline(id)
                } else {
                    Action::SessionSubmitPrompt(id)
                },
            );
        }
        let panel = self.view.focused_panel;
        if key.code == KeyCode::Char('e') && key.control {
            Some(Action::SessionToggleStderr(id))
        } else if key.code == KeyCode::Tab && self.view.show_stderr {
            Some(Action::SessionCycleFocus(id))
        } else if key.code == KeyCode::Up && key.shift {
            Some(focused_scroll_action(panel, id, -1))
        } else if key.code == KeyCode::Down && key.shift {
            Some(focused_scroll_action(panel, id, 1))
        } else if key.code == KeyCode::PageUp {
            Some(focused_scroll_action(panel, id, -8))
        } else if key.code == KeyCode::PageDown {
            Some(focused_scroll_action(panel, id, 8))
        } else if !self.model.waiting {
            Some(Action::SessionInput { tab_id: id, key })
        } else {
            None
        }
    }

    /// What the mouse asks for in a session that is drawn in an area: the
    /// layout decides which panel is under it.
    pub fn handle_mouse_event(&self, mouse: MouseEvent, area: Rect) -> (actions: Vec<Action>)
        ensures
            wheel_delta(mouse.kind) is None ==> actions@.len() == 0,
            exists|layout: SessionLayout|
                {
                    &&& #[trigger] is_layout(
                        layout,
                        area,
                        self.view.show_stderr,
                        opt_text(self.model.pending_fork_message),
                    )
                    &&& actions@ == wheel_actions(layout, mouse, self.id)
                },
    {
        let layout = session_layout(
            area,
            self.view.show_stderr,
            &self.model.pending_fork_message,
        );
        scroll_under_mouse(&layout, mouse, self.id)
    }

    /// Does what an action asks, unless it is for another session. What the keys
    /// do that move the cursor or edit a selection is for the box to say.
    pub fn update(&mut self, action: &Action)
        requires
            old(self).wf(),
        ensures
            final(self).wf(),
            *final(self) == (SessionComponent { view: final(self).view, ..*old(self) }),
            ({
                let v = old(self).view;
                let w = final(self).view;
                if target_tab(*action) is Some && target_tab(*action) != Some(old(self).id) {
                    w == v
                } else {
                    match *action {
                        Action::SessionInput { key, .. } => w == (SessionViewState {
                            textarea: w.textarea,
                            ..v
                        }) && is_typed(box_of(v.textarea), box_of(w.textarea), key),
                        Action::SessionInsertNewline(_) => w == (SessionViewState {
                            textarea: w.textarea,
                            ..v
                        }) && is_broken(box_of(v.textarea), box_of(w.textarea)),
                        Action::SessionToggleStderr(_) => w == (SessionViewState {
                            show_stderr: !v.show_stderr,
                            focused_panel: if v.show_stderr {
                                FocusedPanel::Conversation
                            } else {
                                v.focused_panel
                            },
                            ..v
                        }),
                        Action::SessionCycleFocus(_) => w == (SessionViewState {
                            focused_panel: match v.focused_panel {
                                FocusedPanel::Conversation => FocusedPanel::Stderr,
                                FocusedPanel::Stderr => FocusedPanel::Conversation,
                            },
                            ..v
                        }),
                        Action::SessionFocusConversation(_) => w == (SessionViewState {
                            focused_panel: FocusedPanel::Conversation,
                            ..v
                        }),
                        Action::SessionFocusStderr(_) => w == (SessionViewState {
                            focused_panel: FocusedPanel::Stderr,
                            ..v
                        }),
                        Action::SessionScrollConversation { delta, .. } => w == (
                        SessionViewState { conversation_list: w.conversation_list, ..v })
                            && list_of(w.conversation_list) == scroll_by(
                            list_of(v.conversation_list),
                            v.viewport,
                            delta,
                        ),
                        Action::SessionScrollStderr { delta, .. } => w == (SessionViewState {
                            stderr_scroll: scrolled(v.stderr_scroll, delta),
                            ..v
                        }),
                        _ => w == v,
                    }
                }
            }),
    {
        if let Some(id) = action_target_tab_id(action) {
            if id != self.id {
                return;
            }
        }
        match action {
            Action::SessionInput { key, .. } => {
                type_key(&mut self.view.textarea, *key);
            },
            Action::SessionInsertNewline(_) => {
                insert_newline(&mut self.view.textarea);
            },
            Action::SessionToggleStderr(_) => {
                self.view.show_stderr = !self.view.show_stderr;
                if !self.view.show_stderr {
                    self.view.focused_panel = FocusedPanel::Conversation;
                }
            },
            Action::SessionCycleFocus(_) => {
                self.view.focused_panel = match self.view.focused_panel {
                    FocusedPanel::Conversation => FocusedPanel::Stderr,
                    FocusedPanel::Stderr => FocusedPanel::Conversation,
                };
            },
            Action::SessionFocusConversation(_) => {
                self.view.focused_panel = FocusedPanel::Conversation;
            },
            Action::SessionFocusStderr(_) => {
                self.view.focused_panel = FocusedPanel::Stderr;
            },
            Action::SessionScrollConversation { delta, .. } => {
                let viewport = self.view.viewport;
                scroll_list(&mut self.view.conversation_list, viewport, *delta);
            },
            Action::SessionScrollStderr { delta, .. } => {
                self.view.stderr_scroll = apply_scroll_delta(self.view.stderr_scroll, *delta);
            },
            _ => {},
        }
    }
}

// ---------------------------------------------------------------------------
// Layout
// ---------------------------------------------------------------------------

/// How many rows a line takes in a width: at least one.
pub open spec fn rows_of(chars: int, width: int) -> int {
    let full = (chars + width - 1) / width;
    if full < 1 {
        1
    } else {
        full
    }
}

/// How many rows lines take, each wrapped on its own.
pub open spec fn wrapped_rows(list: Seq<Seq<char>>, width: int) -> int
    decreases list.len(),
{
    if list.len() == 0 {
        0
    } else {
        wrapped_rows(list.drop_last(), width) + rows_of(list.last().len() as int, width)
    }
}

/// How many rows so many characters take, as a height.
pub fn wrapped_line_height(chars: u64, width: u64) -> (rows: u16)
    requires
        width > 0,
    ensures
        rows == capped(rows_of(chars as int, width as int)),
{
    let whole: u64 = chars / width;
    let rest: u64 = chars % width;
    proof {
        let c = chars as int;
        let w = width as int;
        assert(c == w * (c / w) + c % w) by (nonlinear_arith)
            requires
                w > 0,
        ;
        assert((c + w - 1) / w == c / w + (if c % w > 0 {
            1int
        } else {
            0
        })) by (nonlinear_arith)
            requires
                w > 0,
                c >= 0,
                c == w * (c / w) + c % w,
        ;
        assert(c / w <= c) by (nonlinear_arith)
            requires
                w > 0,
                c >= 0,
        ;
    }
    if whole >= u16::MAX as u64 {
        return u16::MAX;
    }
    let rows: u16 = whole as u16 + (if rest > 0 {
        1u16
    } else {
        0u16
    });
    if rows < 1 {
        1
    } else {
        rows
    }
}

proof fn lemma_rows_positive(list: Seq<Seq<char>>, width: int)
    requires
        width > 0,
    ensures
        wrapped_rows(list, width) >= 0,
    decreases list.len(),
{
    if list.len() > 0 {
        lemma_rows_positive(list.drop_last(), width);
    }
}

/// How many rows a text takes in a width, as a height.
fn text_rows(text: &str, width: u16) -> (rows: u16)
    requires
        width > 0,
    ensures
        rows == capped(wrapped_rows(lines(text@), width as int)),
{
    let list = lines_of(text);
    let ghost all = lines(text@);
    let mut rows: u16 = 0;
    let mut i: usize = 0;
    assert(all.take(0) =~= Seq::empty());
    while i < list.len()
        invariant
            i <= list@.len(),
            width > 0,
            all == lines(text@),
            views(list@) == all,
            rows == capped(wrapped_rows(all.take(i as int), width as int)),
        decreases list.len() - i,
    {
        assert(all.take(i + 1).drop_last() =~= all.take(i as int));
        assert(all[i as int] == list@[i as int]@);
        proof {
            lemma_rows_positive(all.take(i as int), width as int);
        }
        let chars = to_chars(list[i].as_str());
        let more: u16 = wrapped_line_height(chars.len() as u64, width as u64);
        rows = add_capped(rows, more);
        i += 1;
    }
    assert(views(list@).len() == list@.len());
    assert(all.take(all.len() as int) =~= all);
    rows
}

/// The height of the box with what a fork carries over: its rows and a border,
/// within limits.
pub open spec fn hint_height(text: Seq<char>, width: u16) -> u16 {
    let inner = if width > 3 {
        width - 2
    } else {
        1
    };
    let height = capped(capped(wrapped_rows(lines(text), inner)) + 2);
    if height < FORK_HINT_MIN_BLOCK_HEIGHT {
        FORK_HINT_MIN_BLOCK_HEIGHT
    } else if height > FORK_HINT_MAX_BLOCK_HEIGHT {
        FORK_HINT_MAX_BLOCK_HEIGHT
    } else {
        height
    }
}

/// The height of the box with what a fork carries over.
pub fn fork_hint_block_height(text: &str, width: u16) -> (height: u16)
    ensures
        height == hint_height(text@, width),
        FORK_HINT_MIN_BLOCK_HEIGHT <= height <= FORK_HINT_MAX_BLOCK_HEIGHT,
{
    let inner: u16 = if width > 3 {
        width - 2
    } else {
        1
    };
    let height: u16 = add_capped(text_rows(text, inner), 2);
    if height < FORK_HINT_MIN_BLOCK_HEIGHT {
        FORK_HINT_MIN_BLOCK_HEIGHT
    } else if height > FORK_HINT_MAX_BLOCK_HEIGHT {
        FORK_HINT_MAX_BLOCK_HEIGHT
    } else {
        height
    }
}

/// The height of the box for a prompt, with what a fork carries over above it;
/// the two share a border.
pub open spec fn input_height(fork: Option<Seq<char>>, width: u16) -> u16 {
    match fork {
        Some(text) => (AGENT_INPUT_HEIGHT + hint_height(text, width) - 1) as u16,
        None => AGENT_INPUT_HEIGHT,
    }
}

/// The height of the box for a prompt, with what a fork carries over above it.
pub fn session_input_height(fork_message: &Option<String>, area_width: u16) -> (height: u16)
    ensures
        height == input_height(opt_text(*fork_message), area_width),
{
    match fork_message {
        Some(text) => AGENT_INPUT_HEIGHT + (fork_hint_block_height(text.as_str(), area_width) - 1),
        None => AGENT_INPUT_HEIGHT,
    }
}

/// What is asked for the conversation and the prompt.
pub fn outer_constraints(fork_message: &Option<String>, width: u16) -> (c: Vec<Constraint>)
    ensures
        c@ == seq![
            Constraint::Min(1),
            Constraint::Length(input_height(opt_text(*fork_message), width)),
        ],
{
    let mut c: Vec<Constraint> = Vec::new();
    c.push(Constraint::Min(1));
    c.push(Constraint::Length(session_input_height(fork_message, width)));
    assert(c@ =~= seq![
        Constraint::Min(1),
        Constraint::Length(input_height(opt_text(*fork_message), width)),
    ]);
    c
}

/// What is asked for the conversation and the errors beside it.
pub fn panel_constraints() -> (c: Vec<Constraint>)
    ensures
        c@ == seq![Constraint::Percentage(60), Constraint::Percentage(40)],
{
    let mut c: Vec<Constraint> = Vec::new();
    c.push(Constraint::Percentage(60));
    c.push(Constraint::Percentage(40));
    assert(c@ =~= seq![Constraint::Percentage(60), Constraint::Percentage(40)]);
    c
}

/// What is asked for what a fork carries over and the prompt below it.
pub fn hint_constraints(text: &str, width: u16) -> (c: Vec<Constraint>)
    ensures
        c@ == seq![
            Constraint::Length(hint_height(text@, width)),
            Constraint::Length(AGENT_INPUT_HEIGHT),
        ],
{
    let mut c: Vec<Constraint> = Vec::new();
    c.push(Constraint::Length(fork_hint_block_height(text, width)));
    c.push(Constraint::Length(AGENT_INPUT_HEIGHT));
    assert(c@ =~= seq![
        Constraint::Length(hint_height(text@, width)),
        Constraint::Length(AGENT_INPUT_HEIGHT),
    ]);
    c
}

/// How a session's area is divided into the conversation and the prompt.
pub open spec fn outer_plan(area: Rect, fork: Option<Seq<char>>) -> Plan {
    Plan {
        area,
        direction: Direction::Vertical,
        constraints: seq![
            Constraint::Min(1),
            Constraint::Length(input_height(fork, area.width)),
        ],
        overlap: 0,
    }
}

/// How the conversation's area is divided when the errors are shown beside it.
pub open spec fn panel_plan(area: Rect) -> Plan {
    Plan {
        area,
        direction: Direction::Horizontal,
        constraints: seq![Constraint::Percentage(60), Constraint::Percentage(40)],
        overlap: 0,
    }
}

/// How the prompt's area is divided when a fork carries something over: the two
/// boxes share a border.
pub open spec fn hint_plan(area: Rect, text: Seq<char>) -> Plan {
    Plan {
        area,
        direction: Direction::Vertical,
        constraints: seq![
            Constraint::Length(hint_height(text, area.width)),
            Constraint::Length(AGENT_INPUT_HEIGHT),
        ],
        overlap: 1,
    }
}

/// The areas of a session, from how its area was divided: into the conversation
/// and the prompt, the conversation into two panels where the errors are
/// shown, and the prompt into two boxes where a fork carries something over.
pub open spec fn arranged(
    outer: Seq<Rect>,
    panels: Option<Seq<Rect>>,
    boxes: Option<Seq<Rect>>,
) -> SessionLayout {
    SessionLayout {
        conversation: outer[0],
        conversation_panel: match panels {
            Some(p) => Some(p[0]),
            None => None,
        },
        stderr: match panels {
            Some(p) => Some(p[1]),
            None => None,
        },
        input: match boxes {
            Some(b) => b[1],
            None => outer[1],
        },
        fork_hint: match boxes {
            Some(b) => Some(b[0]),
            None => None,
        },
    }
}

/// What holds of the areas of a session, whichever sizes they get: everything
/// lies in the session's area and is as wide as it, but for two panels side by
/// side, which lie in the conversation's area and are as high as it.
pub open spec fn fits(layout: SessionLayout, area: Rect) -> bool {
    &&& layout.conversation.x == area.x && layout.conversation.width == area.width
    &&& within(layout.conversation, area)
    &&& layout.input.x == area.x && layout.input.width == area.width
    &&& within(layout.input, area)
    &&& layout.stderr matches Some(r) ==> r.y == layout.conversation.y && r.height
        == layout.conversation.height && within(r, layout.conversation)
    &&& layout.conversation_panel matches Some(r) ==> r.y == layout.conversation.y && r.height
        == layout.conversation.height && within(r, layout.conversation)
    &&& layout.fork_hint matches Some(r) ==> r.x == area.x && r.width == area.width && within(
        r,
        area,
    )
}

/// Whether a session's area may be divided into these parts.
pub open spec fn session_divided(
    outer: Seq<Rect>,
    panels: Option<Seq<Rect>>,
    boxes: Option<Seq<Rect>>,
    area: Rect,
    show_stderr: bool,
    fork: Option<Seq<char>>,
) -> bool {
    &&& comes_of(outer, outer_plan(area, fork))
    &&& panels is Some == show_stderr
    &&& panels matches Some(p) ==> comes_of(p, panel_plan(outer[0]))
    &&& boxes is Some == fork is Some
    &&& boxes matches Some(b) ==> comes_of(b, hint_plan(outer[1], fork->0))
}

/// Whether these are the areas of a session: the parts of its divisions, each in
/// its place.
pub open spec fn is_layout(
    layout: SessionLayout,
    area: Rect,
    show_stderr: bool,
    fork: Option<Seq<char>>,
) -> bool {
    &&& fits(layout, area)
    &&& exists|outer: Seq<Rect>, panels: Option<Seq<Rect>>, boxes: Option<Seq<Rect>>|
        #[trigger] session_divided(outer, panels, boxes, area, show_stderr, fork) && layout
            == arranged(outer, panels, boxes)
}

/// The parts of an area, where it was divided.
pub open spec fn rects_of(rects: Option<&Vec<Rect>>) -> Option<Seq<Rect>> {
    match rects {
        Some(r) => Some(r@),
        None => None,
    }
}

/// The areas of a session, from how its area was divided.
pub fn arrange(
    outer: &Vec<Rect>,
    panels: Option<&Vec<Rect>>,
    boxes: Option<&Vec<Rect>>,
) -> (layout: SessionLayout)
    requires
        outer@.len() == 2,
        panels matches Some(p) ==> p@.len() == 2,
        boxes matches Some(b) ==> b@.len() == 2,
    ensures
        layout == arranged(outer@, rects_of(panels), rects_of(boxes)),
{
    let (conversation_panel, stderr) = match panels {
        Some(p) => (Some(p[0]), Some(p[1])),
        None => (None, None),
    };
    let (fork_hint, input) = match boxes {
        Some(b) => (Some(b[0]), b[1]),
        None => (None, outer[1]),
    };
    SessionLayout { conversation: outer[0], conversation_panel, stderr, input, fork_hint }
}

/// The areas of a session.
pub fn session_layout(area: Rect, show_stderr: bool, fork_message: &Option<String>) -> (layout:
    SessionLayout)
    ensures
        is_layout(layout, area, show_stderr, opt_text(*fork_message)),
{
    let outer = split(
        area,
        Direction::Vertical,
        &outer_constraints(fork_message, area.width),
        0,
    );
    let conversation = outer[0];
    let container = outer[1];
    let panels = if show_stderr {
        Some(split(conversation, Direction::Horizontal, &panel_constraints(), 0))
    } else {
        None
    };
    let boxes = match fork_message {
        Some(text) => Some(
            split(
                container,
                Direction::Vertical,
                &hint_constraints(text.as_str(), container.width),
                1,
            ),
        ),
        None => None,
    };
    let panels = match &panels {
        Some(p) => Some(p),
        None => None,
    };
    let boxes = match &boxes {
        Some(b) => Some(b),
        None => None,
    };
    assert(session_divided(
        outer@,
        rects_of(panels),
        rects_of(boxes),
        area,
        show_stderr,
        opt_text(*fork_message),
    ));
    arrange(&outer, panels, boxes)
}

// ---------------------------------------------------------------------------
// The conversation
// ---------------------------------------------------------------------------

/// The name of what a tool call does.
pub open spec fn kind_text(kind: ToolKind) -> Seq<char> {
    match kind {
        ToolKind::Read => "Read"@,
        ToolKind::Edit => "Edit"@,
        ToolKind::Delete => "Delete"@,
        ToolKind::Move => "Move"@,
        ToolKind::Search => "Search"@,
        ToolKind::Execute => "Execute"@,
        ToolKind::Think => "Think"@,
        ToolKind::Fetch => "Fetch"@,
        ToolKind::SwitchMode => "SwitchMode"@,
        ToolKind::Other => "Tool"@,
    }
}

/// The name of what a tool call does.
pub fn kind_label(kind: ToolKind) -> (label: &'static str)
    ensures
        label@ == kind_text(kind),
{
    match kind {
        ToolKind::Read => "Read",
        ToolKind::Edit => "Edit",
        ToolKind::Delete => "Delete",
        ToolKind::Move => "Move",
        ToolKind::Search => "Search",
        ToolKind::Execute => "Execute",
        ToolKind::Think => "Think",
        ToolKind::Fetch => "Fetch",
        ToolKind::SwitchMode => "SwitchMode",
        ToolKind::Other => "Tool",
    }
}

/// The line of a place that a tool call is about.
pub open spec fn location_text(location: ToolLocation) -> Seq<char> {
    match location.line {
        Some(line) => "path: "@ + location.path@ + ":"@ + decimal(line as nat),
        None => "path: "@ + location.path@,
    }
}

/// The lines of a tool call: its title, where it has one, and its places.
pub open spec fn tool_lines(call: ToolCall) -> Seq<Seq<SpanView>> {
    (if call.title@.len() > 0 {
        seq![one_span(call.title@, colored(Color::White))]
    } else {
        Seq::empty()
    }) + Seq::new(
        call.locations@.len(),
        |i: int| one_span(location_text(call.locations@[i]), colored(Color::DarkGray)),
    )
}

/// A part of the conversation as it is drawn: its lines, the title of the box
/// around it where it has one, and its height.
#[derive(Debug)]
pub struct ConversationItem {
    pub lines: Vec<Line>,
    pub title: Option<String>,
    pub height: u16,
}

/// The lines of a part of the conversation.
pub open spec fn message_lines(message: Message) -> Seq<Seq<SpanView>> {
    match message {
        Message::User(text) => seq![
            two_spans("> "@, strong(Color::Green), text@, colored(Color::Plain)),
        ],
        Message::Agent(text) => Seq::new(
            lines(text@).len(),
            |i: int| one_span(lines(text@)[i], colored(Color::Cyan)),
        ),
        Message::System(text) => seq![
            seq![
                SpanView { text: "["@, style: colored(Color::Yellow) },
                SpanView { text: text@, style: colored(Color::Yellow) },
                SpanView { text: "]"@, style: colored(Color::Yellow) },
            ],
        ],
        Message::ToolCall(call) => tool_lines(call),
    }
}

/// The height of a part of the conversation, in a list of this width.
pub open spec fn message_height(message: Message, width: u16) -> u16 {
    let w = if width > 0 {
        width as int
    } else {
        1
    };
    match message {
        Message::User(text) => capped(rows_of(text@.len() as int + 2, w)),
        Message::Agent(text) => {
            let rows = capped(wrapped_rows(lines(text@), w));
            if rows < 1 {
                1
            } else {
                rows
            }
        },
        Message::System(text) => capped(rows_of(text@.len() as int + 2, w)),
        Message::ToolCall(call) => capped(capped(tool_lines(call).len() as int) + 2),
    }
}

/// How many rows a text takes behind or between two more characters.
fn marked_rows(text: &str, width: u16) -> (rows: u16)
    requires
        width > 0,
    ensures
        rows == capped(rows_of(text@.len() as int + 2, width as int)),
{
    let v = to_chars(text);
    let n: u64 = v.len() as u64;
    if n > u64::MAX - 2 {
        proof {
            let c = n as int + 2;
            let w = width as int;
            assert((c + w - 1) / w >= u16::MAX as int) by (nonlinear_arith)
                requires
                    0 < w <= 65535,
                    c >= 0xffff_ffff_ffff_ffff,
            ;
        }
        return u16::MAX;
    }
    wrapped_line_height(n + 2, width as u64)
}

fn tool_call_lines(call: &ToolCall) -> (out: Vec<Line>)
    ensures
        line_views(out@) == tool_lines(*call),
{
    let ghost all = Seq::new(
        call.locations@.len(),
        |i: int| one_span(location_text(call.locations@[i]), colored(Color::DarkGray)),
    );
    let mut out: Vec<Line> = Vec::new();
    if !is_empty_text(call.title.as_str()) {
        out.push(Line::of_one(call.title.clone(), Style::color(Color::White)));
    }
    let ghost head = line_views(out@);
    let mut i: usize = 0;
    assert(line_views(out@) =~= head + all.take(0));
    while i < call.locations.len()
        invariant
            i <= call.locations@.len(),
            all == Seq::new(
                call.locations@.len(),
                |i: int| one_span(location_text(call.locations@[i]), colored(Color::DarkGray)),
            ),
            line_views(out@) == head + all.take(i as int),
        decreases call.locations.len() - i,
    {
        let ghost was = line_views(out@);
        let place = &call.locations[i];
        let mut text = "path: ".to_owned();
        text.append(place.path.as_str());
        if let Some(line) = place.line {
            let at = number(line as u64);
            text.append(":");
            text.append(at.as_str());
        }
        out.push(Line::of_one(text, Style::color(Color::DarkGray)));
        assert(line_views(out@) =~= was.push(all[i as int]));
        assert(line_views(out@) =~= head + all.take(i + 1));
        i += 1;
    }
    assert(all.take(all.len() as int) =~= all);
    assert(line_views(out@) =~= tool_lines(*call));
    out
}

fn agent_lines(text: &str) -> (out: Vec<Line>)
    ensures
        line_views(out@) == Seq::new(
            lines(text@).len(),
            |i: int| one_span(lines(text@)[i], colored(Color::Cyan)),
        ),
{
    let list = lines_of(text);
    let ghost all = Seq::new(
        lines(text@).len(),
        |i: int| one_span(lines(text@)[i], colored(Color::Cyan)),
    );
    let mut out: Vec<Line> = Vec::new();
    let mut i: usize = 0;
    assert(line_views(out@) =~= all.take(0));
    assert(views(list@).len() == list@.len());
    while i < list.len()
        invariant
            i <= list@.len(),
            views(list@) == lines(text@),
            list@.len() == lines(text@).len(),
            all == Seq::new(
                lines(text@).len(),
                |i: int| one_span(lines(text@)[i], colored(Color::Cyan)),
            ),
            line_views(out@) == all.take(i as int),
        decreases list.len() - i,
    {
        let ghost was = line_views(out@);
        assert(views(list@)[i as int] == list@[i as int]@);
        out.push(Line::of_one(list[i].clone(), Style::color(Color::Cyan)));
        assert(line_views(out@) =~= was.push(all[i as int]));
        assert(line_views(out@) =~= all.take(i + 1));
        i += 1;
    }
    assert(all.take(all.len() as int) =~= all);
    out
}

/// A part of the conversation as it is drawn in a list of this width.
pub fn conversation_item(message: &Message, width: u16) -> (item: ConversationItem)
    ensures
        line_views(item.lines@) == message_lines(*message),
        opt_text(item.title) == (match *message {
            Message::ToolCall(call) => Some(" "@ + kind_text(call.kind) + " "@),
            _ => None,
        }),
        item.height == message_height(*message, width),
{
    let w: u16 = if width > 0 {
        width
    } else {
        1
    };
    match message {
        Message::User(text) => {
            let mut out: Vec<Line> = Vec::new();
            out.push(
                Line::of_two(
                    "> ".to_owned(),
                    Style::bold(Color::Green),
                    text.clone(),
                    Style::color(Color::Plain),
                ),
            );
            assert(line_views(out@) =~= message_lines(*message));
            ConversationItem { lines: out, title: None, height: marked_rows(text.as_str(), w) }
        },
        Message::Agent(text) => {
            let out = agent_lines(text.as_str());
            let rows: u16 = text_rows(text.as_str(), w);
            ConversationItem {
                lines: out,
                title: None,
                height: if rows < 1 {
                    1
                } else {
                    rows
                },
            }
        },
        Message::System(text) => {
            let style = Style::color(Color::Yellow);
            let mut spans: Vec<Span> = Vec::new();
            spans.push(Span { text: "[".to_owned(), style });
            spans.push(Span { text: text.clone(), style });
            spans.push(Span { text: "]".to_owned(), style });
            assert(span_views(spans@) =~= seq![
                SpanView { text: "["@, style: colored(Color::Yellow) },
                SpanView { text: text@, style: colored(Color::Yellow) },
                SpanView { text: "]"@, style: colored(Color::Yellow) },
            ]);
            let mut out: Vec<Line> = Vec::new();
            out.push(Line { spans });
            assert(line_views(out@) =~= message_lines(*message));
            ConversationItem { lines: out, title: None, height: marked_rows(text.as_str(), w) }
        },
        Message::ToolCall(call) => {
            let out = tool_call_lines(call);
            assert(line_views(out@).len() == out@.len());
            let height: u16 = add_capped(height_of(out.len()), 2);
            let mut title = " ".to_owned();
            title.append(kind_label(call.kind));
            title.append(" ");
            ConversationItem { lines: out, title: Some(title), height }
        },
    }
}

// ---------------------------------------------------------------------------
// Laws
// ---------------------------------------------------------------------------

/// However the agent's text comes in pieces, it makes one message.
pub proof fn pieces_make_one_message(messages: Seq<MessageView>, a: Seq<char>, b: Seq<char>)
    ensures
        said(said(messages, a), b) == said(messages, a + b),
{
    let after = said(messages, a);
    assert(after.last() is Agent);
    if messages.len() > 0 && messages.last() is Agent {
        let whole = messages.last()->Agent_0;
        assert(after.drop_last() =~= messages.drop_last());
        assert(whole + a + b =~= whole + (a + b));
    } else {
        assert(after.drop_last() =~= messages);
    }
}

/// What a key asks for in a session is for that session.
pub proof fn keys_stay_in_their_session(
    key: KeyEvent,
    id: u32,
    waiting: bool,
    show_stderr: bool,
    panel: FocusedPanel,
)
    ensures
        (match key_action(key, id, waiting, show_stderr, panel) {
            Some(Action::SessionSubmitPrompt(tab)) => tab == id,
            Some(action) => target_tab(action) == Some(id),
            None => waiting,
        }),
{
}

/// While the agent works nothing is sent or written.
pub proof fn nothing_is_written_while_the_agent_works(
    key: KeyEvent,
    id: u32,
    show_stderr: bool,
    panel: FocusedPanel,
)
    ensures
        (match key_action(key, id, true, show_stderr, panel) {
            Some(action) => !(action is SessionSubmitPrompt) && !(action is SessionInsertNewline)
                && !(action is SessionInput),
            None => true,
        }),
{
}

/// A prompt can be sent exactly when something is written that is not white
/// space, the agent is not at work, and the session is not closing or closed.
pub proof fn what_can_be_sent(lines: Seq<Seq<char>>, model: SessionModel)
    ensures
        can_send(lines, model) <==> {
            &&& !model.waiting
            &&& model.lifecycle == SessionLifecycle::Active
            &&& exists|i: int|
                0 <= i < join(lines, "\n"@).len() && !is_space(#[trigger] join(lines, "\n"@)[i])
        },
{
    let s = join(lines, "\n"@);
    trimming_takes_only_white_space(s);
    let t = trim(s);
    let i = choose|i: int|
        0 <= i <= s.len() - t.len() && #[trigger] s.subrange(i, i + t.len()) == t && (forall|k: int|
            0 <= k < i || i + t.len() <= k < s.len() ==> is_space(#[trigger] s[k]));
    if t.len() > 0 {
        assert(s[i] == s.subrange(i, i + t.len())[0]);
        assert(!is_space(s[i]));
    }
}

/// News never takes anything from a conversation. What the agent says comes
/// behind what it said last, or behind everything; a tool call comes behind
/// everything; other news leaves the conversation as it is.
pub proof fn news_only_adds_to_a_conversation(messages: Seq<MessageView>, update: SessionUpdate)
    ensures
        ({
            let after = messages_after(messages, update);
            &&& messages.len() <= after.len()
            &&& forall|i: int| 0 <= i < messages.len() - 1 ==> #[trigger] after[i] == messages[i]
            &&& messages.len() > 0 && !(messages.last() is Agent) ==> after[messages.len() - 1]
                == messages.last()
            &&& messages.len() > 0 && messages.last() is Agent ==> (after[messages.len()
                - 1] matches MessageView::Agent(text) && begins(text, messages.last()->Agent_0))
            &&& match update {
                SessionUpdate::AgentText(text) => {
                    &&& after.last() matches MessageView::Agent(all) && text@.len() <= all.len()
                        && all.skip(all.len() - text@.len()) == text@
                    &&& after.len() <= messages.len() + 1
                    &&& after.len() == messages.len() <==> messages.len() > 0
                        && messages.last() is Agent
                },
                SessionUpdate::ToolCall(call) => after.len() == messages.len() + 1
                    && after.last() == MessageView::ToolCall(call),
                _ => after == messages,
            }
        }),
{
    let after = messages_after(messages, update);
    if messages.len() > 0 && messages.last() is Agent {
        let before = messages.last()->Agent_0;
        assert(before.take(before.len() as int) =~= before);
        if let SessionUpdate::AgentText(text) = update {
            let all = before + text@;
            assert(all.take(before.len() as int) =~= before);
            assert(all.skip(all.len() - text@.len()) =~= text@);
        }
    } else if let SessionUpdate::AgentText(text) = update {
        assert(text@.skip(0) =~= text@);
    }
}

/// A choice shows the name of a value that it has, or the value itself where no
/// value of that kind has a name.
pub proof fn a_choice_shows_its_value(option: ConfigOption)
    ensures
        (match (option.select, select_label(option)) {
            (Some(select), Some(label)) => {
                ||| exists|i: int|
                    0 <= i < select.values@.len() && (#[trigger] select.values@[i]).value@
                        == select.current_value@ && select.values@[i].name@ == label
                ||| label == select.current_value@ && forall|i: int|
                    0 <= i < select.values@.len() ==> (#[trigger] select.values@[i]).value@
                        != select.current_value@
            },
            (None, None) => true,
            _ => false,
        }),
{
    if let Some(select) = option.select {
        lemma_value_name(select.values@, select.current_value@);
    }
}

proof fn lemma_value_name(values: Seq<SelectValue>, value: Seq<char>)
    ensures
        (match value_name(values, value) {
            Some(name) => exists|i: int|
                0 <= i < values.len() && (#[trigger] values[i]).value@ == value && values[i].name@
                    == name,
            None => forall|i: int|
                0 <= i < values.len() ==> (#[trigger] values[i]).value@ != value,
        }),
    decreases values.len(),
{
    if values.len() > 0 {
        let rest = values.skip(1);
        lemma_value_name(rest, value);
        if values[0].value@ != value {
            match value_name(rest, value) {
                Some(name) => {
                    let i = choose|i: int|
                        0 <= i < rest.len() && (#[trigger] rest[i]).value@ == value
                            && rest[i].name@ == name;
                    assert(values[i + 1] == rest[i]);
                },
                None => {
                    assert forall|i: int| 0 <= i < values.len() implies (
                    #[trigger] values[i]).value@ != value by {
                        if i > 0 {
                            assert(rest[i - 1] == values[i]);
                        }
                    }
                },
            }
        }
    }
}

/// An option about the model sets the model's label, and one about the mode the
/// mode's; each leaves the other. The last one that is set holds, and an option
/// that is no choice sets nothing.
pub proof fn the_last_option_holds(
    before: (Option<Seq<char>>, Option<Seq<char>>),
    options: Seq<ConfigOption>,
    option: ConfigOption,
)
    ensures
        ({
            let was = labels_after(before, options);
            let now = labels_after(before, options.push(option));
            match select_label(option) {
                Some(label) => {
                    &&& option.category == OptionCategory::Model ==> now.0 == Some(label) && now.1
                        == was.1
                    &&& option.category == OptionCategory::Mode ==> now.0 == was.0 && now.1 == Some(
                        label,
                    )
                    &&& option.category == OptionCategory::Other ==> {
                        let lower = lowercase(option.name@);
                        &&& now.0 == (if occurs(lower, "model"@) {
                            Some(label)
                        } else {
                            was.0
                        })
                        &&& now.1 == (if occurs(lower, "mode"@) {
                            Some(label)
                        } else {
                            was.1
                        })
                    }
                },
                None => now == was,
            }
        }),
        labels_after(before, Seq::empty()) == before,
{
    let more = options.push(option);
    assert(more.drop_last() =~= options);
    assert(more.last() == option);
}

/// The title begins with the model, or with the agent where no model is known,
/// and ends with the mode where one is known.
pub proof fn a_title_names_model_and_mode(
    model: Option<Seq<char>>,
    mode: Option<Seq<char>>,
    agent: Seq<char>,
)
    ensures
        ({
            let title = title_of(model, mode, agent);
            let named = model matches Some(m) && m.len() > 0;
            let moded = mode matches Some(m) && m.len() > 0;
            &&& named ==> begins(title, model->0)
            &&& !named ==> begins(title, agent)
            &&& moded ==> mode->0.len() <= title.len() && title.skip(title.len() - mode->0.len())
                == mode->0
            &&& !moded ==> title == (if named {
                model->0
            } else {
                agent
            })
        }),
{
    let title = title_of(model, mode, agent);
    let first = if model matches Some(m) && m.len() > 0 {
        model->0
    } else {
        agent
    };
    assert(title.take(first.len() as int) =~= first);
    if mode matches Some(m) && m.len() > 0 {
        let m = mode->0;
        assert(title.skip(title.len() - m.len()) =~= m);
    }
}

/// Enter sends the prompt and, with Alt or Shift, begins a line; a character
/// without Control is written; the keys that scroll scroll the panel that has
/// the focus, up and down by as much.
pub proof fn keys_do_what_they_say(
    key: KeyEvent,
    id: u32,
    show_stderr: bool,
    panel: FocusedPanel,
)
    ensures
        ({
            let asked = key_action(key, id, false, show_stderr, panel);
            &&& key.code == KeyCode::Enter && !key.alt && !key.shift ==> asked == Some(
                Action::SessionSubmitPrompt(id),
            )
            &&& key.code == KeyCode::Enter && (key.alt || key.shift) ==> asked == Some(
                Action::SessionInsertNewline(id),
            )
            &&& key.code is Char && !key.control ==> asked == Some(
                Action::SessionInput { tab_id: id, key },
            )
            &&& key.code == KeyCode::Char('e') && key.control ==> asked == Some(
                Action::SessionToggleStderr(id),
            )
        }),
        forall|waiting: bool, shift: bool|
            ({
                let up = #[trigger] key_action(
                    KeyEvent { code: KeyCode::PageUp, shift, ..key },
                    id,
                    waiting,
                    show_stderr,
                    panel,
                );
                let down = key_action(
                    KeyEvent { code: KeyCode::PageDown, shift, ..key },
                    id,
                    waiting,
                    show_stderr,
                    panel,
                );
                match panel {
                    FocusedPanel::Conversation => up matches Some(
                        Action::SessionScrollConversation { tab_id: t, delta: u },
                    ) && down matches Some(
                        Action::SessionScrollConversation { tab_id: s, delta: d },
                    ) && t == id && s == id && u < 0 && d == -u,
                    FocusedPanel::Stderr => up matches Some(
                        Action::SessionScrollStderr { tab_id: t, delta: u },
                    ) && down matches Some(Action::SessionScrollStderr { tab_id: s, delta: d })
                        && t == id && s == id && u < 0 && d == -u,
                }
            }),
{
}

/// The wheel scrolls the panel under the mouse and gives it the focus; outside
/// the conversation's area it does nothing.
pub proof fn the_wheel_scrolls_what_is_under_it(
    layout: SessionLayout,
    mouse: MouseEvent,
    id: u32,
)
    ensures
        ({
            let actions = wheel_actions(layout, mouse, id);
            let inside = layout.conversation.has(mouse.column, mouse.row);
            let errors = layout.stderr matches Some(area) && area.has(mouse.column, mouse.row);
            match wheel_delta(mouse.kind) {
                Some(delta) => {
                    &&& !inside ==> actions.len() == 0
                    &&& inside && errors ==> actions.len() == 2 && actions[0]
                        == Action::SessionFocusStderr(id) && actions[1]
                        == (Action::SessionScrollStderr { tab_id: id, delta })
                    &&& inside && !errors ==> actions.len() == 2 && actions[0]
                        == Action::SessionFocusConversation(id) && actions[1]
                        == (Action::SessionScrollConversation { tab_id: id, delta })
                },
                None => actions.len() == 0,
            }
        }),
{
}

/// A line takes as many rows as hold it and no more, and at least one.
pub proof fn rows_hold_their_line(chars: int, width: int)
    requires
        0 <= chars,
        0 < width,
    ensures
        rows_of(chars, width) >= 1,
        rows_of(chars, width) * width >= chars,
        rows_of(chars, width) > 1 ==> (rows_of(chars, width) - 1) * width < chars,
{
    let full = (chars + width - 1) / width;
    vstd::arithmetic::div_mod::lemma_fundamental_div_mod(chars + width - 1, width);
    let rest = (chars + width - 1) % width;
    assert(0 <= rest < width);
    assert(width * full == full * width) by (nonlinear_arith);
    assert((full - 1) * width == full * width - width) by (nonlinear_arith);
    if full < 1 {
        assert(full * width <= 0) by (nonlinear_arith)
            requires
                full < 1,
                width > 0,
        ;
        assert(1 * width == width);
    }
}

/// Lines take at least a row each.
pub proof fn every_line_takes_a_row(list: Seq<Seq<char>>, width: int)
    requires
        0 < width,
    ensures
        wrapped_rows(list, width) >= list.len(),
    decreases list.len(),
{
    if list.len() > 0 {
        every_line_takes_a_row(list.drop_last(), width);
        rows_hold_their_line(list.last().len() as int, width);
    }
}

/// What is drawn of a conversation is what was said: a prompt's text and a
/// note's, each line of what the agent said, and of a tool call its title and
/// the path and line of every place that it is about.
pub proof fn a_message_is_drawn_whole(message: Message)
    ensures
        ({
            let drawn = message_lines(message);
            match message {
                Message::User(text) => drawn.len() == 1 && drawn[0].len() == 2 && drawn[0][1].text
                    == text@,
                Message::Agent(text) => drawn.len() == lines(text@).len() && forall|i: int|
                    0 <= i < drawn.len() ==> (#[trigger] drawn[i]).len() == 1 && drawn[i][0].text
                        == lines(text@)[i],
                Message::System(text) => drawn.len() == 1 && drawn[0].len() == 3
                    && drawn[0][1].text == text@,
                Message::ToolCall(call) => {
                    let head: int = if call.title@.len() > 0 {
                        1
                    } else {
                        0
                    };
                    &&& drawn.len() == head + call.locations@.len()
                    &&& head == 1 ==> drawn[0].len() == 1 && drawn[0][0].text == call.title@
                    &&& forall|i: int|
                        0 <= i < call.locations@.len() ==> {
                            let at = #[trigger] call.locations@[i];
                            let line = drawn[head + i];
                            &&& line.len() == 1
                            &&& occurs(line[0].text, at.path@)
                            &&& at.line matches Some(n) ==> occurs(
                                line[0].text,
                                at.path@ + ":"@ + decimal(n as nat),
                            )
                        }
                },
            }
        }),
{
    if let Message::ToolCall(call) = message {
        let drawn = message_lines(message);
        let head: int = if call.title@.len() > 0 {
            1
        } else {
            0
        };
        assert forall|i: int| 0 <= i < call.locations@.len() implies {
            let at = #[trigger] call.locations@[i];
            let line = drawn[head + i];
            &&& line.len() == 1
            &&& occurs(line[0].text, at.path@)
            &&& at.line matches Some(n) ==> occurs(
                line[0].text,
                at.path@ + ":"@ + decimal(n as nat),
            )
        } by {
            lemma_location_text(call.locations@[i]);
            assert(drawn[head + i] == one_span(
                location_text(call.locations@[i]),
                colored(Color::DarkGray),
            ));
        }
    }
}

proof fn lemma_location_text(at: ToolLocation)
    ensures
        occurs(location_text(at), at.path@),
        at.line matches Some(n) ==> occurs(location_text(at), at.path@ + ":"@ + decimal(n as nat)),
{
    let text = location_text(at);
    match at.line {
        Some(n) => {
            let line = decimal(n as nat);
            lemma_same_either_way("path: "@ + at.path@, ":"@, line);
            lemma_stands_between("path: "@, at.path@, ":"@ + line);
            lemma_same_either_way("path: "@, at.path@ + ":"@, line);
            lemma_same_either_way("path: "@, at.path@, ":"@);
            lemma_stands_at_the_end("path: "@, at.path@ + ":"@ + line);
        },
        None => {
            lemma_stands_at_the_end("path: "@, at.path@);
        },
    }
}

/// The areas of a session stand where they are meant to: the conversation above
/// the prompt, the errors beside the conversation and only where they are shown,
/// and what a fork carries over above the prompt and only where there is some.
pub proof fn areas_stand_in_their_places(
    outer: Seq<Rect>,
    panels: Option<Seq<Rect>>,
    boxes: Option<Seq<Rect>>,
)
    requires
        outer.len() == 2,
        panels matches Some(p) ==> p.len() == 2,
        boxes matches Some(b) ==> b.len() == 2,
    ensures
        ({
            let layout = arranged(outer, panels, boxes);
            &&& layout.conversation == outer.first()
            &&& panels is None ==> layout.stderr is None && layout.conversation_panel is None
            &&& panels matches Some(p) ==> layout.conversation_panel == Some(p.first())
                && layout.stderr == Some(p.last())
            &&& boxes is None ==> layout.input == outer.last() && layout.fork_hint is None
            &&& boxes matches Some(b) ==> layout.fork_hint == Some(b.first()) && layout.input
                == b.last()
        }),
{
}

/// The box with what a fork carries over is as high as its rows and its border,
/// between its least height and its greatest; and the prompt keeps its own
/// height below it, with one border between them.
pub proof fn a_hint_is_as_high_as_its_rows(text: Seq<char>, width: u16)
    requires
        width > 3,
    ensures
        ({
            let rows = wrapped_rows(lines(text), width - 2);
            let height = hint_height(text, width);
            &&& FORK_HINT_MIN_BLOCK_HEIGHT <= height <= FORK_HINT_MAX_BLOCK_HEIGHT
            &&& FORK_HINT_MIN_BLOCK_HEIGHT <= rows + 2 <= FORK_HINT_MAX_BLOCK_HEIGHT ==> height
                == rows + 2
            &&& rows + 2 > FORK_HINT_MAX_BLOCK_HEIGHT ==> height == FORK_HINT_MAX_BLOCK_HEIGHT
            &&& input_height(Some(text), width) == AGENT_INPUT_HEIGHT + height - 1
            &&& input_height(None, width) == AGENT_INPUT_HEIGHT
        }),
{
    every_line_takes_a_row(lines(text), width - 2);
}

/// A message is drawn at least a row high; what the agent said is as high as its
/// lines take when they are wrapped, and a tool call as its lines and a border.
pub proof fn a_message_is_as_high_as_it_is_drawn(message: Message, width: u16)
    requires
        width > 0,
    ensures
        message_height(message, width) >= 1,
        (match message {
            Message::User(text) => message_height(message, width) == capped(
                rows_of(text@.len() as int + 2, width as int),
            ),
            Message::System(text) => message_height(message, width) == capped(
                rows_of(text@.len() as int + 2, width as int),
            ),
            Message::Agent(text) => {
                let rows = wrapped_rows(lines(text@), width as int);
                1 <= rows <= u16::MAX ==> message_height(message, width) == rows
            },
            Message::ToolCall(call) => message_lines(message).len() + 2 <= u16::MAX
                ==> message_height(message, width) == message_lines(message).len() + 2,
        }),
{
    match message {
        Message::User(text) => {
            rows_hold_their_line(text@.len() as int + 2, width as int);
        },
        Message::System(text) => {
            rows_hold_their_line(text@.len() as int + 2, width as int);
        },
        Message::Agent(text) => {
            every_line_takes_a_row(lines(text@), width as int);
        },
        Message::ToolCall(_) => {},
    }
}

/// Each kind of tool call goes by its own name.
pub proof fn tool_calls_go_by_their_kind()
    ensures
        kind_text(ToolKind::Read) == "Read"@,
        kind_text(ToolKind::Edit) == "Edit"@,
        kind_text(ToolKind::Delete) == "Delete"@,
        kind_text(ToolKind::Move) == "Move"@,
        kind_text(ToolKind::Search) == "Search"@,
        kind_text(ToolKind::Execute) == "Execute"@,
        kind_text(ToolKind::Think) == "Think"@,
        kind_text(ToolKind::Fetch) == "Fetch"@,
        kind_text(ToolKind::SwitchMode) == "SwitchMode"@,
        kind_text(ToolKind::Other) == "Tool"@,
{
}

} // verus!
