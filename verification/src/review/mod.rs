//! The review commands: everything that works on a diff rather than on a
//! session.
//!
//! Every command works on `base...head`, and takes it the same way: from the
//! flags, then from the window that the terminal belongs to, then from the
//! environment. Beyond that it does not guess: it exits with [`BAD_INPUT`] and
//! names what to pass. Only the repository has a default, which is where the
//! command runs.

pub mod comments;
pub mod guide;
pub mod import;
pub mod inspect;
pub mod store;

use crate::diff::{copy_opt, opt_text};
use crate::text::{is_blank, is_space, trim, trimming_takes_only_white_space};
use vstd::prelude::*;

verus! {

/// Clean.
pub const OK: u8 = 0;

/// Broken links, coverage below what is asked, nothing to act on.
pub const FINDINGS: u8 = 1;

/// Bad arguments, or no diff to load.
pub const BAD_INPUT: u8 = 2;

/// The code that a command exits with.
pub fn exit_code(outcome: Result<(), u8>) -> (code: u8)
    ensures
        code == (match outcome {
            Ok(_) => OK,
            Err(code) => code,
        }),
{
    match outcome {
        Ok(()) => OK,
        Err(code) => code,
    }
}

/// A command on comments.
#[allow(inconsistent_fields)]
#[derive(Debug)]
pub enum CommentsAction {
    /// Leave a comment on a range of lines.
    Add { anchor: String, body: String, author: Option<String>, range: RangeArgs },
    /// Answer a comment. Without an anchor the answer takes its thread's.
    Reply {
        id: String,
        anchor: Option<String>,
        body: String,
        author: Option<String>,
        range: RangeArgs,
    },
    /// The recorded comments as one document.
    Export { prompt: bool, out: Option<String>, range: RangeArgs },
    /// Comments from a document, or from a pull request.
    Import { input: String, author: Option<String>, dry_run: bool, range: RangeArgs },
}

/// The texts that tell an agent how to go about a review: writing a guide to
/// a diff, and answering the comments on it.
#[derive(Clone, Copy, Debug, PartialEq, Eq, Structural)]
pub enum Skill {
    ReviewGuide,
    AddressComments,
}

/// Which diff to work on, as the flags say.
#[derive(Debug)]
pub struct RangeArgs {
    pub repo: Option<String>,
    pub base: Option<String>,
    pub head: Option<String>,
}

/// Which diff to work on.
#[derive(Debug)]
pub struct Target {
    pub repo: String,
    pub base: String,
    pub head: String,
}

/// What the environment says of the open diff.
#[derive(Debug)]
pub struct RangeEnv {
    pub repo: Option<String>,
    pub base: Option<String>,
    pub head: Option<String>,
}

/// A value of the environment; a blank one is none.
pub open spec fn env_value(value: Option<Seq<char>>) -> Option<Seq<char>> {
    match value {
        Some(v) => if trim(v).len() == 0 {
            None
        } else {
            Some(v)
        },
        None => None,
    }
}

/// A value of the environment; a blank one is none.
pub fn non_blank(value: &Option<String>) -> (r: Option<String>)
    ensures
        opt_text(r) == env_value(opt_text(*value)),
{
    match value {
        Some(v) => if is_blank(v.as_str()) {
            None
        } else {
            Some(v.clone())
        },
        None => None,
    }
}

/// The first of three that there is.
pub open spec fn first_given(
    flag: Option<Seq<char>>,
    window: Option<Seq<char>>,
    env: Option<Seq<char>>,
) -> Option<Seq<char>> {
    if flag is Some {
        flag
    } else if window is Some {
        window
    } else {
        env_value(env)
    }
}

fn pick(flag: &Option<String>, window: Option<&String>, env: &Option<String>) -> (r: Option<String>)
    ensures
        opt_text(r) == first_given(
            opt_text(*flag),
            (match window {
                Some(w) => Some(w@),
                None => None,
            }),
            opt_text(*env),
        ),
{
    if flag.is_some() {
        return copy_opt(flag);
    }
    match window {
        Some(w) => Some(w.clone()),
        None => non_blank(env),
    }
}

/// The repository to work on: the one given, the window's, the environment's,
/// or where the command runs.
pub open spec fn repo_text(
    flag: Option<Seq<char>>,
    window: Option<Target>,
    env: Option<Seq<char>>,
) -> Seq<char> {
    match first_given(
        flag,
        match window {
            Some(w) => Some(w.repo@),
            None => None,
        },
        env,
    ) {
        Some(repo) => repo,
        None => "."@,
    }
}

/// The repository alone, for what never touches a range.
pub fn repo_arg(repo: &Option<String>, window: &Option<Target>, env: &Option<String>) -> (r: String)
    ensures
        r@ == repo_text(opt_text(*repo), *window, opt_text(*env)),
{
    let from_window = match window {
        Some(w) => Some(&w.repo),
        None => None,
    };
    match pick(repo, from_window, env) {
        Some(repo) => repo,
        None => ".".to_owned(),
    }
}

/// What is said when no range is given.
pub open spec fn no_range_text() -> Seq<char> {
    "error: no review range — pass --base <rev> --head <rev>, or run inside the concats-app terminal (its CONCATS_APP_* environment names the open diff).\nCommon ranges:\n  --base HEAD  --head WORKTREE   everything uncommitted\n  --base INDEX --head WORKTREE   unstaged changes only\n  --base main  --head HEAD       a branch against its merge base"@
}

impl RangeArgs {
    /// The range to work on: each part from the flags, then from the window,
    /// then from the environment. Both ends must be given somewhere.
    pub fn resolve(&self, window: &Option<Target>, env: &RangeEnv) -> (r: Result<Target, String>)
        ensures
            ({
                let base = first_given(
                    opt_text(self.base),
                    match *window {
                        Some(w) => Some(w.base@),
                        None => None,
                    },
                    opt_text(env.base),
                );
                let head = first_given(
                    opt_text(self.head),
                    match *window {
                        Some(w) => Some(w.head@),
                        None => None,
                    },
                    opt_text(env.head),
                );
                match r {
                    Ok(t) => base == Some(t.base@) && head == Some(t.head@) && t.repo@ == repo_text(
                        opt_text(self.repo),
                        *window,
                        opt_text(env.repo),
                    ),
                    Err(text) => (base is None || head is None) && text@ == no_range_text(),
                }
            }),
    {
        let repo = repo_arg(&self.repo, window, &env.repo);
        let (window_base, window_head) = match window {
            Some(w) => (Some(&w.base), Some(&w.head)),
            None => (None, None),
        };
        let base = pick(&self.base, window_base, &env.base);
        let head = pick(&self.head, window_head, &env.head);
        match (base, head) {
            (Some(base), Some(head)) => Ok(Target { repo, base, head }),
            _ => Err(
                "error: no review range — pass --base <rev> --head <rev>, or run inside the concats-app terminal (its CONCATS_APP_* environment names the open diff).\nCommon ranges:\n  --base HEAD  --head WORKTREE   everything uncommitted\n  --base INDEX --head WORKTREE   unstaged changes only\n  --base main  --head HEAD       a branch against its merge base".to_owned(),
            ),
        }
    }
}

/// A flag counts before the window, and the window before the environment; of
/// the environment only a value that is not all white space counts. The
/// repository is where the command runs only when none of them names one.
pub proof fn flags_then_window_then_environment(
    flag: Option<Seq<char>>,
    window: Option<Target>,
    env: Option<Seq<char>>,
)
    ensures
        ({
            let of_window = match window {
                Some(w) => Some(w.base@),
                None => None,
            };
            let given = first_given(flag, of_window, env);
            &&& flag is Some ==> given == flag
            &&& flag is None && window is Some ==> given == Some(window->0.base@)
            &&& flag is None && window is None ==> match env {
                Some(v) => if exists|i: int| 0 <= i < v.len() && !is_space(#[trigger] v[i]) {
                    given == Some(v)
                } else {
                    given is None
                },
                None => given is None,
            }
        }),
        flag matches Some(repo) ==> repo_text(flag, window, env) == repo,
        flag is None && window is Some ==> repo_text(flag, window, env) == window->0.repo@,
        flag is None && window is None && env is None ==> repo_text(flag, window, env) == "."@,
{
    if let Some(v) = env {
        trimming_takes_only_white_space(v);
        let t = trim(v);
        let i = choose|i: int|
            0 <= i <= v.len() - t.len() && #[trigger] v.subrange(i, i + t.len()) == t && (forall|
                k: int,
            |
                0 <= k < i || i + t.len() <= k < v.len() ==> is_space(#[trigger] v[k]));
        if t.len() > 0 {
            assert(v[i] == v.subrange(i, i + t.len())[0]);
        }
    }
}

} // verus!
