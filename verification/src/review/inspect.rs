//! Looking at a range without changing anything: which recorded turns it came
//! from.

use crate::diff::Oid;
use crate::text::{begins, decimal, number, same, views};
use vstd::prelude::*;

verus! {

/// A link between a turn and a range: by what it wrote, or by the commit it
/// was recorded at.
#[derive(Clone, Copy, Debug, PartialEq, Eq, Structural)]
pub struct Link {
    pub turn: usize,
    pub via_tree: bool,
    pub via_branch: bool,
}

/// A recorded turn.
#[derive(Debug)]
pub struct RecordedTurn {
    pub session_id: String,
    pub oid: Oid,
    pub subject: String,
    pub entries: usize,
    pub touched: Vec<String>,
}

/// Whether a turn is linked.
pub open spec fn is_linked(links: Seq<Link>, turn: int) -> bool {
    exists|k: int| 0 <= k < links.len() && (#[trigger] links[k]).turn == turn
}

/// Whether a turn is linked by what it wrote.
pub open spec fn by_content(links: Seq<Link>, turn: int) -> bool {
    exists|k: int|
        0 <= k < links.len() && (#[trigger] links[k]).turn == turn && links[k].via_tree
}

/// Whether a turn is linked by the commit it was recorded at.
pub open spec fn by_commit(links: Seq<Link>, turn: int) -> bool {
    exists|k: int|
        0 <= k < links.len() && (#[trigger] links[k]).turn == turn && links[k].via_branch
}

/// How a turn is linked. One can be linked both ways; the mark shows the
/// stronger.
pub open spec fn mark_text(links: Seq<Link>, turn: int) -> Seq<char> {
    if by_content(links, turn) {
        "◆ linked (content)"@
    } else if by_commit(links, turn) {
        "◇ linked (recorded at commit)"@
    } else {
        "·"@
    }
}

/// How a turn is linked: whether it is, by content, and by commit.
pub fn link_of(links: &Vec<Link>, turn: usize) -> (r: (bool, bool, bool))
    ensures
        r.0 == is_linked(links@, turn as int),
        r.1 == by_content(links@, turn as int),
        r.2 == by_commit(links@, turn as int),
{
    let mut linked = false;
    let mut content = false;
    let mut commit = false;
    let mut i: usize = 0;
    while i < links.len()
        invariant
            i <= links@.len(),
            linked == (exists|k: int| 0 <= k < i && (#[trigger] links@[k]).turn == turn),
            content == (exists|k: int|
                0 <= k < i && (#[trigger] links@[k]).turn == turn && links@[k].via_tree),
            commit == (exists|k: int|
                0 <= k < i && (#[trigger] links@[k]).turn == turn && links@[k].via_branch),
        decreases links.len() - i,
    {
        let link = links[i];
        if link.turn == turn {
            linked = true;
            content = content || link.via_tree;
            commit = commit || link.via_branch;
        }
        i += 1;
    }
    (linked, content, commit)
}

/// How many digits of a turn's name are shown.
pub const SHORT_NAME: usize = 10;

/// The line of a turn.
pub open spec fn turn_line(turn: RecordedTurn, mark: Seq<char>) -> Seq<char> {
    "  "@ + turn.oid.text().take(SHORT_NAME as int) + "  "@ + turn.subject@ + "  ["@ + decimal(
        turn.entries as nat,
    ) + " entr"@ + (if turn.entries == 1 {
        "y"@
    } else {
        "ies"@
    }) + ", "@ + decimal(turn.touched@.len()) + " file(s) touched]  "@ + mark
}

/// The lines of a turn: a heading where its session starts, its own line, and
/// where it is linked the files it touched.
pub open spec fn turn_block(turns: Seq<RecordedTurn>, links: Seq<Link>, i: int) -> Seq<Seq<char>> {
    let turn = turns[i];
    let before = if i == 0 {
        ""@
    } else {
        turns[i - 1].session_id@
    };
    (if turn.session_id@ != before {
        seq!["\n── session "@ + turn.session_id@]
    } else {
        Seq::empty()
    }) + seq![turn_line(turn, mark_text(links, i))] + (if is_linked(links, i) {
        Seq::new(turn.touched@.len(), |k: int| "        "@ + turn.touched@[k]@)
    } else {
        Seq::empty()
    })
}

/// The lines of the first `n` turns.
pub open spec fn turn_blocks(turns: Seq<RecordedTurn>, links: Seq<Link>, n: nat) -> Seq<Seq<char>>
    decreases n,
{
    if n == 0 {
        Seq::empty()
    } else {
        turn_blocks(turns, links, (n - 1) as nat) + turn_block(turns, links, n - 1)
    }
}

/// The turns that are linked.
pub open spec fn linked_turns(links: Seq<Link>) -> Set<usize> {
    Seq::new(links.len(), |k: int| links[k].turn).to_set()
}

fn count_linked(links: &Vec<Link>) -> (n: usize)
    ensures
        n == linked_turns(links@).len(),
{
    let ghost all = Seq::new(links@.len(), |k: int| links@[k].turn);
    let mut seen: Vec<usize> = Vec::new();
    let mut i: usize = 0;
    while i < links.len()
        invariant
            i <= links@.len(),
            all == Seq::new(links@.len(), |k: int| links@[k].turn),
            seen@.no_duplicates(),
            forall|t: usize| seen@.contains(t) <==> all.take(i as int).contains(t),
        decreases links.len() - i,
    {
        let turn: usize = links[i].turn;
        let mut known = false;
        let mut k: usize = 0;
        while k < seen.len()
            invariant
                k <= seen@.len(),
                known == (exists|j: int| 0 <= j < k && seen@[j] == turn),
            decreases seen.len() - k,
        {
            if seen[k] == turn {
                known = true;
            }
            k += 1;
        }
        let ghost was = seen@;
        assert(known == was.contains(turn));
        if !known {
            seen.push(turn);
        }
        proof {
            let now = all.take(i as int);
            let next = all.take(i + 1);
            assert(next =~= now.push(turn));
            assert forall|t: usize| seen@.contains(t) <==> next.contains(t) by {
                if now.contains(t) {
                    let j = choose|j: int| 0 <= j < now.len() && now[j] == t;
                    assert(next[j] == t);
                }
                if next.contains(t) {
                    let j = choose|j: int| 0 <= j < next.len() && next[j] == t;
                    if j < now.len() {
                        assert(now[j] == t);
                    }
                }
                if was.contains(t) {
                    let j = choose|j: int| 0 <= j < was.len() && was[j] == t;
                    assert(seen@[j] == t);
                }
                if seen@.contains(t) {
                    let j = choose|j: int| 0 <= j < seen@.len() && seen@[j] == t;
                    if j < was.len() {
                        assert(was[j] == t);
                    }
                }
                assert(next[i as int] == turn);
                if !known {
                    assert(seen@[was.len() as int] == turn);
                }
            }
        }
        i += 1;
    }
    proof {
        assert(all.take(all.len() as int) =~= all);
        assert(seen@.to_set() =~= all.to_set());
        seen@.unique_seq_to_set();
    }
    seen.len()
}

fn push_turn(out: &mut Vec<String>, turns: &Vec<RecordedTurn>, links: &Vec<Link>, i: usize)
    requires
        i < turns@.len(),
    ensures
        views(final(out)@) == views(old(out)@) + turn_block(turns@, links@, i as int),
{
    let ghost was = views(out@);
    let turn = &turns[i];
    let fresh = if i == 0 {
        !same(turn.session_id.as_str(), "")
    } else {
        !same(turn.session_id.as_str(), turns[i - 1].session_id.as_str())
    };
    if fresh {
        let mut head = "\n── session ".to_owned();
        head.append(turn.session_id.as_str());
        out.push(head);
    }
    let ghost headed = views(out@);
    let (linked, content, commit) = link_of(links, i);
    let mark = if content {
        "◆ linked (content)"
    } else if commit {
        "◇ linked (recorded at commit)"
    } else {
        "·"
    };
    let short = turn.oid.short(SHORT_NAME);
    let entries = number(turn.entries as u64);
    let touched = number(turn.touched.len() as u64);
    let mut line = "  ".to_owned();
    line.append(short.as_str());
    line.append("  ");
    line.append(turn.subject.as_str());
    line.append("  [");
    line.append(entries.as_str());
    line.append(" entr");
    line.append(
        if turn.entries == 1 {
            "y"
        } else {
            "ies"
        },
    );
    line.append(", ");
    line.append(touched.as_str());
    line.append(" file(s) touched]  ");
    line.append(mark);
    let ghost own = line@;
    out.push(line);
    let ghost before = headed.push(own);
    assert(views(out@) =~= before);
    let ghost files = Seq::new(turn.touched@.len(), |k: int| "        "@ + turn.touched@[k]@);
    if linked {
        let mut k: usize = 0;
        assert(views(out@) =~= before + files.take(0));
        while k < turn.touched.len()
            invariant
                k <= turn.touched@.len(),
                files == Seq::new(turn.touched@.len(), |k: int| "        "@ + turn.touched@[k]@),
                views(out@) == before + files.take(k as int),
            decreases turn.touched.len() - k,
        {
            let ghost now = views(out@);
            let mut line = "        ".to_owned();
            line.append(turn.touched[k].as_str());
            out.push(line);
            assert(views(out@) =~= now.push(files[k as int]));
            assert(views(out@) =~= before + files.take(k + 1));
            k += 1;
        }
        assert(files.take(files.len() as int) =~= files);
    }
    assert(views(out@) =~= was + turn_block(turns@, links@, i as int));
}

/// The recorded turns of a repository, how each is linked to a range, and how
/// many are.
pub fn turns(
    recorded: &Vec<RecordedTurn>,
    links: &Vec<Link>,
    root: &str,
    base: &str,
    head: &str,
) -> (out: Vec<String>)
    ensures
        views(out@) == (if recorded@.len() == 0 {
            seq!["no agent sessions (refs/agent/sessions/*) in "@ + root@]
        } else {
            turn_blocks(recorded@, links@, recorded@.len()).push(
                "\n"@ + decimal(linked_turns(links@).len()) + " of "@ + decimal(recorded@.len())
                    + " turn(s) linked to "@ + base@ + "..."@ + head@,
            )
        }),
{
    let mut out: Vec<String> = Vec::new();
    if recorded.len() == 0 {
        let mut text = "no agent sessions (refs/agent/sessions/*) in ".to_owned();
        text.append(root);
        let ghost said = text@;
        out.push(text);
        assert(views(out@) =~= seq![said]);
        return out;
    }
    let mut i: usize = 0;
    assert(views(out@) =~= Seq::empty());
    while i < recorded.len()
        invariant
            i <= recorded@.len(),
            views(out@) == turn_blocks(recorded@, links@, i as nat),
        decreases recorded.len() - i,
    {
        push_turn(&mut out, recorded, links, i);
        i += 1;
    }
    let ghost before = views(out@);
    let linked = number(count_linked(links) as u64);
    let total = number(recorded.len() as u64);
    let mut text = "\n".to_owned();
    text.append(linked.as_str());
    text.append(" of ");
    text.append(total.as_str());
    text.append(" turn(s) linked to ");
    text.append(base);
    text.append("...");
    text.append(head);
    let ghost said = text@;
    out.push(text);
    assert(views(out@) =~= before.push(said));
    out
}

// ---------------------------------------------------------------------------
// Laws
// ---------------------------------------------------------------------------

/// Whether a turn is shown at a place: its line, with its short name and
/// subject first and how it is linked last; the files that it touched behind
/// it, in their order, where it is linked; and a heading before it where its
/// session is another than that of the turn before.
pub open spec fn shown_at(
    text: Seq<Seq<char>>,
    turns: Seq<RecordedTurn>,
    links: Seq<Link>,
    i: int,
    at: int,
) -> bool {
    let turn = turns[i];
    let line = text[at];
    let mark = if exists|k: int|
        0 <= k < links.len() && (#[trigger] links[k]).turn == i && links[k].via_tree {
        "◆ linked (content)"@
    } else if exists|k: int|
        0 <= k < links.len() && (#[trigger] links[k]).turn == i && links[k].via_branch {
        "◇ linked (recorded at commit)"@
    } else {
        "·"@
    };
    let linked = exists|k: int| 0 <= k < links.len() && (#[trigger] links[k]).turn == i;
    &&& 0 <= at < text.len()
    &&& begins(
        line,
        "  "@ + turn.oid.text().take(SHORT_NAME as int) + "  "@ + turn.subject@ + "  ["@,
    )
    &&& mark.len() <= line.len() && line.skip(line.len() - mark.len()) == mark
    &&& linked ==> at + turn.touched@.len() < text.len() && forall|k: int|
        0 <= k < turn.touched@.len() ==> text[at + 1 + k] == "        "@ + (
        #[trigger] turn.touched@[k])@
    &&& i > 0 && turns[i - 1].session_id@ != turn.session_id@ ==> at > 0 && text[at - 1]
        == "\n── session "@ + turn.session_id@
    &&& i == 0 && turn.session_id@.len() > 0 ==> at > 0 && text[at - 1] == "\n── session "@
        + turn.session_id@
}

/// Every recorded turn is shown, with how it is linked.
pub proof fn every_turn_is_shown(turns: Seq<RecordedTurn>, links: Seq<Link>, n: nat, i: int)
    requires
        0 <= i < n <= turns.len(),
    ensures
        exists|at: int| #[trigger] shown_at(turn_blocks(turns, links, n), turns, links, i, at),
    decreases n,
{
    let before = turn_blocks(turns, links, (n - 1) as nat);
    let all = turn_blocks(turns, links, n);
    if i < n - 1 {
        every_turn_is_shown(turns, links, (n - 1) as nat, i);
        let at = choose|at: int| #[trigger] shown_at(before, turns, links, i, at);
        assert(shown_at(all, turns, links, i, at));
    } else {
        let turn = turns[i];
        let own = turn_block(turns, links, i);
        let last = if i == 0 {
            ""@
        } else {
            turns[i - 1].session_id@
        };
        reveal_strlit("");
        let skip: int = if turn.session_id@ != last {
            1
        } else {
            0
        };
        let at = before.len() + skip;
        let mark = mark_text(links, i);
        lemma_turn_line(turn, mark);
        assert(all[at] == own[skip]);
        assert(own[skip] == turn_line(turn, mark));
        if is_linked(links, i) {
            assert forall|k: int| 0 <= k < turn.touched@.len() implies all[at + 1 + k]
                == "        "@ + (#[trigger] turn.touched@[k])@ by {
                assert(all[at + 1 + k] == own[skip + 1 + k]);
            }
        }
        if skip == 1 {
            assert(all[at - 1] == own[0]);
        }
        if i == 0 && turn.session_id@.len() > 0 {
            assert(turn.session_id@ != ""@);
        }
        assert(shown_at(all, turns, links, i, at));
    }
}

proof fn lemma_turn_line(turn: RecordedTurn, mark: Seq<char>)
    ensures
        begins(
            turn_line(turn, mark),
            "  "@ + turn.oid.text().take(SHORT_NAME as int) + "  "@ + turn.subject@ + "  ["@,
        ),
        mark.len() <= turn_line(turn, mark).len(),
        turn_line(turn, mark).skip(turn_line(turn, mark).len() - mark.len()) == mark,
{
    let line = turn_line(turn, mark);
    let head = "  "@ + turn.oid.text().take(SHORT_NAME as int) + "  "@ + turn.subject@ + "  ["@;
    let rest = decimal(turn.entries as nat) + " entr"@ + (if turn.entries == 1 {
        "y"@
    } else {
        "ies"@
    }) + ", "@ + decimal(turn.touched@.len()) + " file(s) touched]  "@;
    assert(line =~= head + rest + mark);
    assert((head + rest + mark).take(head.len() as int) =~= head);
    assert((head + rest + mark).skip((head + rest).len() as int) =~= mark);
}

/// A turn is counted once however often it is linked, and only when it is.
pub proof fn a_linked_turn_counts_once(links: Seq<Link>, turn: usize)
    ensures
        linked_turns(links).contains(turn) <==> exists|k: int|
            0 <= k < links.len() && (#[trigger] links[k]).turn == turn,
{
    let all = Seq::new(links.len(), |k: int| links[k].turn);
    if linked_turns(links).contains(turn) {
        assert(all.contains(turn));
        let k = choose|k: int| 0 <= k < all.len() && all[k] == turn;
        assert(links[k].turn == turn);
    }
    if exists|k: int| 0 <= k < links.len() && (#[trigger] links[k]).turn == turn {
        let k = choose|k: int| 0 <= k < links.len() && (#[trigger] links[k]).turn == turn;
        assert(all[k] == turn);
        assert(all.contains(turn));
    }
}

} // verus!
