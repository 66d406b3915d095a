//! Settings: which agents there are and how they are run, where to work, and
//! whether sessions are pushed.

use crate::components::session::EnvVar;
use crate::diff::{copy_opt, opt_text};
use crate::text::{begins, is_blank, lower_ascii, same, starts_with, to_lower_ascii, trim};
use vstd::prelude::*;

verus! {

/// How an agent is run.
#[derive(Debug)]
pub struct AgentConfig {
    pub name: String,
    pub command: String,
    pub args: Vec<String>,
    pub env: Vec<EnvVar>,
}

impl AgentConfig {
    /// The name that is shown: its id where it has none.
    pub fn display_name(&self, fallback_id: &str) -> (name: String)
        ensures
            name@ == (if trim(self.name@).len() == 0 {
                fallback_id@
            } else {
                self.name@
            }),
    {
        if is_blank(self.name.as_str()) {
            fallback_id.to_owned()
        } else {
            self.name.clone()
        }
    }
}

/// An agent and its id.
#[derive(Debug)]
pub struct AgentEntry {
    pub id: String,
    pub agent: AgentConfig,
}

/// The agents that are known, each id once.
#[derive(Debug)]
pub struct Agents {
    pub entries: Vec<AgentEntry>,
}

/// The place of an agent.
pub open spec fn agent_place(entries: Seq<AgentEntry>, id: Seq<char>) -> Option<int>
    decreases entries.len(),
{
    if entries.len() == 0 {
        None
    } else {
        match agent_place(entries.drop_last(), id) {
            Some(i) => Some(i),
            None => if entries.last().id@ == id {
                Some(entries.len() - 1)
            } else {
                None
            },
        }
    }
}

proof fn lemma_agent_place(entries: Seq<AgentEntry>, id: Seq<char>)
    ensures
        (match agent_place(entries, id) {
            Some(i) => 0 <= i < entries.len() && entries[i].id@ == id && forall|j: int|
                0 <= j < i ==> (#[trigger] entries[j]).id@ != id,
            None => forall|j: int| 0 <= j < entries.len() ==> (#[trigger] entries[j]).id@ != id,
        }),
    decreases entries.len(),
{
    if entries.len() > 0 {
        let rest = entries.drop_last();
        lemma_agent_place(rest, id);
        assert forall|j: int| 0 <= j < rest.len() implies (#[trigger] entries[j]) == rest[j] by {}
        if let Some(i) = agent_place(rest, id) {
            assert(entries[i] == rest[i]);
        }
    }
}

impl Agents {
    /// No id occurs twice.
    pub open spec fn wf(&self) -> bool {
        forall|i: int, j: int|
            0 <= i < j < self.entries@.len() ==> (#[trigger] self.entries@[i]).id@ != (
            #[trigger] self.entries@[j]).id@
    }

    /// No agents.
    pub fn new() -> (agents: Agents)
        ensures
            agents.entries@.len() == 0,
            agents.wf(),
    {
        Agents { entries: Vec::new() }
    }

    /// How many there are.
    pub fn len(&self) -> (n: usize)
        ensures
            n == self.entries@.len(),
    {
        self.entries.len()
    }

    /// Where an agent is.
    pub fn find(&self, id: &str) -> (place: Option<usize>)
        ensures
            (match place {
                Some(i) => agent_place(self.entries@, id@) == Some(i as int) && i
                    < self.entries@.len() && self.entries@[i as int].id@ == id@,
                None => agent_place(self.entries@, id@) is None,
            }),
    {
        let mut i: usize = 0;
        while i < self.entries.len()
            invariant
                i <= self.entries@.len(),
                forall|j: int| 0 <= j < i ==> (#[trigger] self.entries@[j]).id@ != id@,
            decreases self.entries.len() - i,
        {
            if same(self.entries[i].id.as_str(), id) {
                proof {
                    lemma_agent_place(self.entries@, id@);
                    assert(self.entries@[i as int].id@ == id@);
                }
                return Some(i);
            }
            i += 1;
        }
        proof {
            lemma_agent_place(self.entries@, id@);
        }
        None
    }

    /// Sets an agent: in place of the one with its id, or as a new one.
    pub fn insert(&mut self, id: String, agent: AgentConfig)
        requires
            old(self).wf(),
        ensures
            final(self).wf(),
            (match agent_place(old(self).entries@, id@) {
                Some(i) => final(self).entries@ == old(self).entries@.update(
                    i,
                    AgentEntry { id: old(self).entries@[i].id, agent },
                ),
                None => final(self).entries@ == old(self).entries@.push(AgentEntry { id, agent }),
            }),
    {
        match self.find(id.as_str()) {
            Some(i) => {
                self.entries[i].agent = agent;
            },
            None => {
                proof {
                    lemma_agent_place(self.entries@, id@);
                }
                self.entries.push(AgentEntry { id, agent });
            },
        }
    }
}

/// Whether sessions are pushed after each turn, and where.
#[derive(Debug)]
pub struct SyncConfig {
    pub auto_push: bool,
    pub remote: String,
}

impl Default for SyncConfig {
    /// They are not; the remote is `origin`.
    fn default() -> (c: SyncConfig)
        ensures
            !c.auto_push,
            c.remote@ == "origin"@,
    {
        SyncConfig { auto_push: false, remote: "origin".to_owned() }
    }
}

/// The settings.
#[derive(Debug)]
pub struct Config {
    /// The agent to use when none is named.
    pub default_agent: Option<String>,
    pub agents: Agents,
    /// Where to work when no place is named.
    pub workspace: Option<String>,
    pub sync: SyncConfig,
}

/// Whether an entry is an agent that is run by its name alone.
pub open spec fn is_plain_agent(e: AgentEntry, id: Seq<char>, name: Seq<char>) -> bool {
    e.id@ == id && e.agent.name@ == name && e.agent.command@ == id && e.agent.args@.len() == 0
        && e.agent.env@.len() == 0
}

fn plain_agent(id: &str, name: &str) -> (e: AgentEntry)
    ensures
        is_plain_agent(e, id@, name@),
{
    AgentEntry {
        id: id.to_owned(),
        agent: AgentConfig {
            name: name.to_owned(),
            command: id.to_owned(),
            args: Vec::new(),
            env: Vec::new(),
        },
    }
}

/// An agent that comes with the program: its id, which is also its command, and
/// the name that is shown.
#[derive(Debug)]
pub struct BuiltinAgent {
    pub id: String,
    pub name: String,
}

/// The agents that are known without being set: the one to use first, and
/// Codex. Each is run by its id alone.
pub open spec fn are_builtin(entries: Seq<AgentEntry>, first: BuiltinAgent) -> bool {
    &&& entries.len() == 2
    &&& is_plain_agent(entries[0], first.id@, first.name@)
    &&& is_plain_agent(entries[1], "codex"@, "Codex"@)
}

/// The agents that are known without being set.
pub fn default_agents(first: &BuiltinAgent) -> (agents: Agents)
    requires
        first.id@ != "codex"@,
    ensures
        agents.wf(),
        are_builtin(agents.entries@, *first),
{
    let mut entries: Vec<AgentEntry> = Vec::new();
    entries.push(plain_agent(first.id.as_str(), first.name.as_str()));
    entries.push(plain_agent("codex", "Codex"));
    Agents { entries }
}

impl Config {
    /// The settings when nothing is set.
    pub fn defaults(first: &BuiltinAgent) -> (c: Config)
        requires
            first.id@ != "codex"@,
        ensures
            opt_text(c.default_agent) == Some(first.id@),
            c.agents.wf(),
            are_builtin(c.agents.entries@, *first),
            c.workspace is None,
            !c.sync.auto_push,
            c.sync.remote@ == "origin"@,
    {
        Config {
            default_agent: Some(first.id.clone()),
            agents: default_agents(first),
            workspace: None,
            sync: SyncConfig::default(),
        }
    }
}

/// What the command line sets. What it does not name stays as it is.
#[derive(Debug)]
pub struct CliArgs {
    pub default_agent: Option<String>,
    pub workspace: Option<String>,
}

/// The first of two that there is.
pub open spec fn overridden(by: Option<Seq<char>>, was: Option<Seq<char>>) -> Option<Seq<char>> {
    if by is Some {
        by
    } else {
        was
    }
}

impl Config {
    /// Takes what the command line sets, over everything else.
    pub fn apply(&mut self, cli: &CliArgs)
        ensures
            opt_text(final(self).default_agent) == overridden(
                opt_text(cli.default_agent),
                opt_text(old(self).default_agent),
            ),
            opt_text(final(self).workspace) == overridden(
                opt_text(cli.workspace),
                opt_text(old(self).workspace),
            ),
            final(self).agents == old(self).agents,
            final(self).sync == old(self).sync,
    {
        if cli.default_agent.is_some() {
            self.default_agent = copy_opt(&cli.default_agent);
        }
        if cli.workspace.is_some() {
            self.workspace = copy_opt(&cli.workspace);
        }
    }
}

/// Whether a variable of the environment, without its prefix, is a setting of
/// the command line: those of the window are not, which start with `APP_` in
/// letters of any case.
pub fn is_setting(key: &str) -> (r: bool)
    ensures
        r == !begins(lower_ascii(key@), "app_"@),
{
    let lower = to_lower_ascii(key);
    !starts_with(lower.as_str(), "app_")
}

/// The setting that a variable of the window sets, by the rest of its name.
pub fn app_setting(key: &str) -> (path: String)
    ensures
        path@ == "app."@ + key@,
{
    let mut path = "app.".to_owned();
    path.append(key);
    path
}

/// What the command line names replaces what was set, and what it does not name
/// stays.
pub proof fn the_command_line_comes_first(by: Option<Seq<char>>, was: Option<Seq<char>>)
    ensures
        by matches Some(text) ==> overridden(by, was) == Some(text),
        by is None ==> overridden(by, was) == was,
{
}

/// The agents that come with the program are two, each run by its own id with
/// no arguments and nothing in its environment; each is found by that id.
pub proof fn builtin_agents_are_found(entries: Seq<AgentEntry>, first: BuiltinAgent)
    requires
        are_builtin(entries, first),
        first.id@ != "codex"@,
    ensures
        entries.len() == 2,
        agent_place(entries, first.id@) == Some(0int),
        agent_place(entries, "codex"@) == Some(1int),
        entries[0].agent.name@ == first.name@,
        entries[1].agent.name@ == "Codex"@,
        forall|i: int|
            0 <= i < 2 ==> (#[trigger] entries[i]).agent.command@ == entries[i].id@
                && entries[i].agent.args@.len() == 0 && entries[i].agent.env@.len() == 0,
{
    lemma_agent_place(entries, first.id@);
    lemma_agent_place(entries, "codex"@);
    assert(entries[0].id@ == first.id@);
    assert(entries[1].id@ == "codex"@);
}

/// An agent is found by its id, wherever it stands, and no other agent is.
pub proof fn an_agent_is_found_by_its_id(agents: Agents, i: int)
    requires
        agents.wf(),
        0 <= i < agents.entries@.len(),
    ensures
        agent_place(agents.entries@, agents.entries@[i].id@) == Some(i),
{
    lemma_agent_place(agents.entries@, agents.entries@[i].id@);
}

} // verus!
