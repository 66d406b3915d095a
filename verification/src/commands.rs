//! The commands that work on sessions: which turn a reference names, what a
//! history and a checkout print, and which hooks are meant.

use crate::diff::Oid;
use crate::text::{
    a_column_holds_its_text, begins, blanks, decimal, digit_char, digits_value,
    each_part_stands_in_the_join, find_last, from_chars, is_digit, join, joined, joined_range,
    last_of, lines, lines_of, lower_ascii, lower_char, number, occurs, pad_left, pad_right,
    padded_left, padded_right, parse_usize, parse_value, same, starts_with, to_chars,
    to_lower_ascii, unsigned_part, views,
};
use vstd::prelude::*;

verus! {

// ---------------------------------------------------------------------------
// Session references
// ---------------------------------------------------------------------------

/// How far back one tilde suffix goes: its number, or one when it says none.
pub open spec fn tilde_step(suffix: Seq<char>) -> nat {
    match parse_value(suffix, usize::MAX as nat) {
        Some(n) => n,
        None => 1,
    }
}

/// How far back all the tilde suffixes of a reference go together.
pub open spec fn tilde_offset(input: Seq<char>) -> nat
    decreases input.len(),
{
    match last_of(input, '~') {
        Some(pos) => if 0 <= pos < input.len() {
            tilde_offset(input.take(pos)) + tilde_step(input.skip(pos + 1))
        } else {
            0
        },
        None => 0,
    }
}

/// What stands before the tilde suffixes of a reference.
pub open spec fn tilde_name(input: Seq<char>) -> Seq<char>
    decreases input.len(),
{
    match last_of(input, '~') {
        Some(pos) => if 0 <= pos < input.len() {
            tilde_name(input.take(pos))
        } else {
            input
        },
        None => input,
    }
}

/// Reads a reference; `None` when it goes further back than can be counted.
fn tilde_parts(input: &str) -> (r: Option<(String, usize)>)
    ensures
        (match r {
            Some((name, offset)) => name@ == tilde_name(input@) && offset == tilde_offset(input@),
            None => tilde_offset(input@) > usize::MAX,
        }),
{
    let v = to_chars(input);
    let mut total: usize = 0;
    let mut end: usize = v.len();
    assert(v@.take(v@.len() as int) =~= v@);
    loop
        invariant
            v@ == input@,
            end <= v@.len(),
            tilde_name(input@) == tilde_name(v@.take(end as int)),
            tilde_offset(input@) == total + tilde_offset(v@.take(end as int)),
        decreases end,
    {
        match find_last(&v, end, '~') {
            Some(pos) => {
                let suffix = from_chars(&v, pos + 1, end);
                assert(suffix@ =~= v@.take(end as int).skip(pos + 1));
                assert(v@.take(end as int).take(pos as int) =~= v@.take(pos as int));
                let n: usize = match parse_usize(suffix.as_str()) {
                    Some(n) => n,
                    None => 1,
                };
                total = match total.checked_add(n) {
                    Some(sum) => sum,
                    None => {
                        return None;
                    },
                };
                end = pos;
            },
            None => {
                let name = from_chars(&v, 0, end);
                assert(name@ =~= v@.take(end as int));
                return Some((name, total));
            },
        }
    }
}

/// Whether the offset of a reference can be counted.
pub fn tilde_suffix_fits(input: &str) -> (r: bool)
    ensures
        r == (tilde_offset(input@) <= usize::MAX),
{
    tilde_parts(input).is_some()
}

/// Reads `session-a~3` as `session-a`, three turns back. Suffixes add up, so
/// `session-a~2~1` goes as far.
pub fn parse_tilde_suffix(input: &str) -> (r: (String, usize))
    requires
        tilde_offset(input@) <= usize::MAX,
    ensures
        (r.0)@ == tilde_name(input@),
        r.1 == tilde_offset(input@),
{
    match tilde_parts(input) {
        Some(parts) => parts,
        None => (String::new(), 0),
    }
}

/// The digits of a number are digits, and say that number.
pub proof fn lemma_decimal_reads_back(n: nat)
    ensures
        decimal(n).len() > 0,
        forall|i: int| 0 <= i < decimal(n).len() ==> is_digit(#[trigger] decimal(n)[i]),
        digits_value(decimal(n)) == n,
    decreases n,
{
    if n < 10 {
        assert(decimal(n).drop_last() =~= Seq::empty());
        assert(digits_value(decimal(n).drop_last()) == 0);
        assert(decimal(n).last() == digit_char(n));
    } else {
        lemma_decimal_reads_back(n / 10);
        assert(decimal(n).drop_last() =~= decimal(n / 10));
        assert(decimal(n).last() == digit_char(n % 10));
    }
}

/// A tilde that is followed by none is the last one.
proof fn lemma_last_tilde(a: Seq<char>, b: Seq<char>)
    requires
        forall|i: int| 0 <= i < b.len() ==> b[i] != '~',
    ensures
        last_of(a + seq!['~'] + b, '~') == Some(a.len() as int),
    decreases b.len(),
{
    let s = a + seq!['~'] + b;
    if b.len() > 0 {
        lemma_last_tilde(a, b.drop_last());
        assert(s.drop_last() =~= a + seq!['~'] + b.drop_last());
    }
}

/// A suffix with a number goes back that many turns more, whatever stands
/// before it; so suffixes add up.
pub proof fn tilde_suffixes_add_up(input: Seq<char>, n: nat)
    requires
        n <= usize::MAX,
    ensures
        tilde_offset(input + "~"@ + decimal(n)) == tilde_offset(input) + n,
        tilde_name(input + "~"@ + decimal(n)) == tilde_name(input),
{
    reveal_strlit("~");
    assert("~"@ =~= seq!['~']);
    lemma_decimal_reads_back(n);
    let d = decimal(n);
    let whole = input + "~"@ + d;
    assert forall|i: int| 0 <= i < d.len() implies d[i] != '~' by {
        assert(is_digit(d[i]));
    }
    lemma_last_tilde(input, d);
    assert(whole.take(input.len() as int) =~= input);
    assert(whole.skip(input.len() as int + 1) =~= d);
    assert(is_digit(d[0]));
    assert(unsigned_part(d) == d);
}

/// A name without a suffix is the newest turn of that name.
pub proof fn a_bare_name_is_the_tip(name: Seq<char>)
    requires
        forall|i: int| 0 <= i < name.len() ==> name[i] != '~',
    ensures
        tilde_offset(name) == 0,
        tilde_name(name) == name,
{
    lemma_no_tilde(name);
}

proof fn lemma_no_tilde(name: Seq<char>)
    requires
        forall|i: int| 0 <= i < name.len() ==> name[i] != '~',
    ensures
        last_of(name, '~') is None,
    decreases name.len(),
{
    if name.len() > 0 {
        lemma_no_tilde(name.drop_last());
    }
}

/// A session in the list: its id and its turns, oldest first; `None` where the
/// turns could not be read.
#[derive(Debug)]
pub struct SessionTurns {
    pub id: String,
    pub turns: Option<Vec<Oid>>,
}

/// The turn that a reference names.
#[derive(Clone, Copy, Debug, PartialEq, Eq, Structural)]
pub struct ResolvedRef {
    /// The session, as a place in the list; `None` is the session that was
    /// opened by its name.
    pub session: Option<usize>,
    pub turn: usize,
    pub offset_from_tip: usize,
}

/// The first turn whose name begins like this.
pub open spec fn turn_beginning(turns: Seq<Oid>, prefix: Seq<char>) -> Option<int>
    decreases turns.len(),
{
    if turns.len() == 0 {
        None
    } else {
        match turn_beginning(turns.drop_last(), prefix) {
            Some(i) => Some(i),
            None => if begins(turns.last().text(), prefix) {
                Some(turns.len() - 1)
            } else {
                None
            },
        }
    }
}

/// The turn of one session that begins like this; none of one that could not
/// be read.
pub open spec fn turn_in(session: SessionTurns, prefix: Seq<char>) -> Option<int> {
    match session.turns {
        Some(turns) => turn_beginning(turns@, prefix),
        None => None,
    }
}

/// The first session with a turn that begins like this.
pub open spec fn session_with(sessions: Seq<SessionTurns>, prefix: Seq<char>) -> Option<int>
    decreases sessions.len(),
{
    if sessions.len() == 0 {
        None
    } else {
        match session_with(sessions.drop_last(), prefix) {
            Some(i) => Some(i),
            None => if turn_in(sessions.last(), prefix) is Some {
                Some(sessions.len() - 1)
            } else {
                None
            },
        }
    }
}

/// What went wrong with the session of a name: it has no turns.
pub open spec fn no_turns_text(name: Seq<char>) -> Seq<char> {
    "session '"@ + name + "' has no turns"@
}

/// What went wrong with an offset: the session has fewer turns.
pub open spec fn out_of_range_text(name: Seq<char>, offset: nat, turns: nat) -> Seq<char> {
    "offset ~"@ + decimal(offset) + " out of range; session '"@ + name + "' has "@ + decimal(turns)
        + " turns"@
}

/// What went wrong with a name that has a suffix: there is no such session.
pub open spec fn not_found_text(name: Seq<char>) -> Seq<char> {
    "session '"@ + name + "' not found (tilde suffix only works with session names)"@
}

/// What went wrong with a bare reference: nothing begins like it.
pub open spec fn no_match_text(input: Seq<char>) -> Seq<char> {
    "no session or turn matching '"@ + input + "'"@
}

/// What a reference resolves to. `opened` is the session of the name: its
/// turns, or why they could not be read, or `None` when there is no such
/// session; then a reference without a suffix is tried as the beginning of a
/// turn's name.
pub open spec fn resolution(
    input: Seq<char>,
    opened: Option<Result<Vec<Oid>, String>>,
    sessions: Seq<SessionTurns>,
) -> Result<ResolvedRef, Seq<char>> {
    let name = tilde_name(input);
    let offset = tilde_offset(input);
    match opened {
        Some(Err(e)) => Err(e@),
        Some(Ok(turns)) => if turns@.len() == 0 {
            Err(no_turns_text(name))
        } else if offset + 1 > turns@.len() {
            Err(out_of_range_text(name, offset, turns@.len()))
        } else {
            Ok(
                ResolvedRef {
                    session: None,
                    turn: (turns@.len() - 1 - offset) as usize,
                    offset_from_tip: offset as usize,
                },
            )
        },
        None => if offset > 0 {
            Err(not_found_text(name))
        } else {
            match session_with(sessions, input) {
                Some(s) => {
                    let turns = sessions[s].turns->0@;
                    let i = turn_in(sessions[s], input)->0;
                    Ok(
                        ResolvedRef {
                            session: Some(s as usize),
                            turn: i as usize,
                            offset_from_tip: (turns.len() - 1 - i) as usize,
                        },
                    )
                },
                None => Err(no_match_text(input)),
            }
        },
    }
}

/// The view of a resolution.
pub open spec fn resolved_view(r: Result<ResolvedRef, String>) -> Result<ResolvedRef, Seq<char>> {
    match r {
        Ok(resolved) => Ok(resolved),
        Err(e) => Err(e@),
    }
}

fn find_turn(turns: &Vec<Oid>, prefix: &str) -> (r: Option<usize>)
    ensures
        (match r {
            Some(i) => turn_beginning(turns@, prefix@) == Some(i as int) && i < turns@.len(),
            None => turn_beginning(turns@, prefix@) is None,
        }),
{
    let mut i: usize = 0;
    while i < turns.len()
        invariant
            i <= turns.len(),
            turn_beginning(turns@.take(i as int), prefix@) is None,
        decreases turns.len() - i,
    {
        assert(turns@.take(i + 1).drop_last() =~= turns@.take(i as int));
        let name = turns[i].hex();
        if starts_with(name.as_str(), prefix) {
            proof {
                lemma_turn_found(turns@, prefix@, i + 1);
            }
            return Some(i);
        }
        i += 1;
    }
    assert(turns@.take(turns@.len() as int) =~= turns@);
    None
}

/// A turn that was found stays found among more turns.
proof fn lemma_turn_found(turns: Seq<Oid>, prefix: Seq<char>, n: int)
    requires
        0 <= n <= turns.len(),
        turn_beginning(turns.take(n), prefix) is Some,
    ensures
        turn_beginning(turns, prefix) == turn_beginning(turns.take(n), prefix),
    decreases turns.len() - n,
{
    if n == turns.len() {
        assert(turns.take(n) =~= turns);
    } else {
        assert(turns.take(n + 1).drop_last() =~= turns.take(n));
        lemma_turn_found(turns, prefix, n + 1);
    }
}

proof fn lemma_session_found(sessions: Seq<SessionTurns>, prefix: Seq<char>, n: int)
    requires
        0 <= n <= sessions.len(),
        session_with(sessions.take(n), prefix) is Some,
    ensures
        session_with(sessions, prefix) == session_with(sessions.take(n), prefix),
    decreases sessions.len() - n,
{
    if n == sessions.len() {
        assert(sessions.take(n) =~= sessions);
    } else {
        assert(sessions.take(n + 1).drop_last() =~= sessions.take(n));
        lemma_session_found(sessions, prefix, n + 1);
    }
}

/// Resolves a reference to a turn: by a session's name and how far back from
/// its tip, or by the beginning of a turn's name in any session.
pub fn resolve_session_ref(
    input: &str,
    opened: &Option<Result<Vec<Oid>, String>>,
    sessions: &Vec<SessionTurns>,
) -> (r: Result<ResolvedRef, String>)
    requires
        tilde_offset(input@) < usize::MAX,
    ensures
        resolved_view(r) == resolution(input@, *opened, sessions@),
{
    let (name, offset) = parse_tilde_suffix(input);
    match opened {
        Some(Err(e)) => Err(e.clone()),
        Some(Ok(turns)) => {
            if turns.len() == 0 {
                let mut text = "session '".to_owned();
                text.append(name.as_str());
                text.append("' has no turns");
                return Err(text);
            }
            if offset >= turns.len() {
                let back = number(offset as u64);
                let count = number(turns.len() as u64);
                let mut text = "offset ~".to_owned();
                text.append(back.as_str());
                text.append(" out of range; session '");
                text.append(name.as_str());
                text.append("' has ");
                text.append(count.as_str());
                text.append(" turns");
                return Err(text);
            }
            Ok(
                ResolvedRef {
                    session: None,
                    turn: turns.len() - 1 - offset,
                    offset_from_tip: offset,
                },
            )
        },
        None => {
            if offset > 0 {
                let mut text = "session '".to_owned();
                text.append(name.as_str());
                text.append("' not found (tilde suffix only works with session names)");
                return Err(text);
            }
            let mut s: usize = 0;
            while s < sessions.len()
                invariant
                    s <= sessions.len(),
                    session_with(sessions@.take(s as int), input@) is None,
                    *opened is None,
                    tilde_offset(input@) == 0,
                decreases sessions.len() - s,
            {
                assert(sessions@.take(s + 1).drop_last() =~= sessions@.take(s as int));
                if let Some(turns) = &sessions[s].turns {
                    if let Some(i) = find_turn(turns, input) {
                        proof {
                            lemma_session_found(sessions@, input@, s + 1);
                        }
                        return Ok(
                            ResolvedRef {
                                session: Some(s),
                                turn: i,
                                offset_from_tip: turns.len() - 1 - i,
                            },
                        );
                    }
                }
                s += 1;
            }
            assert(sessions@.take(sessions@.len() as int) =~= sessions@);
            let mut text = "no session or turn matching '".to_owned();
            text.append(input);
            text.append("'");
            Err(text)
        },
    }
}

// ---------------------------------------------------------------------------
// History
// ---------------------------------------------------------------------------

/// The turns that a history shows, as a range of places: up to the turn that is
/// so far from the tip, and of those the last `count`.
pub open spec fn turns_shown(total: int, offset_from_tip: int, count: Option<usize>) -> (int, int) {
    let end = total - offset_from_tip;
    (
        match count {
            Some(n) => if n < end {
                end - n
            } else {
                0
            },
            None => 0,
        },
        end,
    )
}

/// A history ends with the turn that its reference resolves to, and shows as
/// many turns as are asked for, where there are so many; they stand next to each
/// other.
pub proof fn a_history_shows_the_last_turns(
    input: Seq<char>,
    turns: Vec<Oid>,
    sessions: Seq<SessionTurns>,
    count: Option<usize>,
)
    ensures
        resolution(input, Some(Ok(turns)), sessions) matches Ok(r) ==> {
            let (start, end) = turns_shown(
                turns@.len() as int,
                r.offset_from_tip as int,
                count,
            );
            &&& end == r.turn + 1
            &&& 0 <= start <= end <= turns@.len()
            &&& count is None ==> start == 0
            &&& count matches Some(n) ==> end - start == (if n < r.turn + 1 {
                n as int
            } else {
                r.turn + 1
            })
        },
{
    assert(turns@.len() == turns.len());
}

/// The turns that a history shows, as a range of places: up to the resolved
/// turn, and of those the last `count`.
pub fn visible_turns(total: usize, offset_from_tip: usize, count: Option<usize>) -> (range: (
    usize,
    usize,
))
    requires
        offset_from_tip <= total,
    ensures
        range.1 == total - offset_from_tip,
        range.0 == (match count {
            Some(n) => if n < range.1 {
                range.1 - n
            } else {
                0
            },
            None => 0,
        }),
        (range.0 as int, range.1 as int) == turns_shown(
            total as int,
            offset_from_tip as int,
            count,
        ),
{
    let end: usize = total - offset_from_tip;
    let start: usize = match count {
        Some(n) => if n < end {
            end - n
        } else {
            0
        },
        None => 0,
    };
    (start, end)
}

/// The last turn that a history shows is the one its reference names.
pub proof fn a_history_ends_with_its_turn(
    input: Seq<char>,
    opened: Option<Result<Vec<Oid>, String>>,
    sessions: Seq<SessionTurns>,
    total: int,
)
    requires
        resolution(input, opened, sessions) is Ok,
        total == (match opened {
            Some(turns) => (turns->Ok_0)@.len() as int,
            None => (sessions[session_with(sessions, input)->0].turns->0)@.len() as int,
        }),
        total <= usize::MAX,
        opened is None ==> sessions.len() <= usize::MAX,
    ensures
        ({
            let r = resolution(input, opened, sessions)->Ok_0;
            r.turn < total && total - r.offset_from_tip == r.turn + 1
        }),
{
    if opened is None {
        lemma_session_place(sessions, input);
        let s = session_with(sessions, input)->0;
        lemma_turn_place(sessions[s].turns->0@, input);
    }
}

proof fn lemma_session_place(sessions: Seq<SessionTurns>, prefix: Seq<char>)
    ensures
        session_with(sessions, prefix) matches Some(s) ==> 0 <= s < sessions.len() && turn_in(
            sessions[s],
            prefix,
        ) is Some,
    decreases sessions.len(),
{
    if sessions.len() > 0 {
        lemma_session_place(sessions.drop_last(), prefix);
    }
}

proof fn lemma_turn_place(turns: Seq<Oid>, prefix: Seq<char>)
    ensures
        turn_beginning(turns, prefix) matches Some(i) ==> 0 <= i < turns.len(),
    decreases turns.len(),
{
    if turns.len() > 0 {
        lemma_turn_place(turns.drop_last(), prefix);
    }
}

/// A reference to a session that opens counts back from its newest turn: the
/// turn it resolves to stands exactly as many turns before the last one as its
/// suffixes add up to, and that number is kept. A session that has no turn so
/// far back gives an error.
pub proof fn a_reference_counts_back_from_the_last_turn(
    input: Seq<char>,
    turns: Vec<Oid>,
    sessions: Seq<SessionTurns>,
)
    ensures
        (match resolution(input, Some(Ok(turns)), sessions) {
            Ok(r) => {
                &&& tilde_offset(input) < turns@.len()
                &&& r.session is None
                &&& r.turn < turns@.len()
                &&& r.turn + tilde_offset(input) == turns@.len() - 1
                &&& r.offset_from_tip == tilde_offset(input)
            },
            Err(_) => tilde_offset(input) >= turns@.len(),
        }),
{
    assert(turns@.len() == turns.len());
}

/// The name of a session without a suffix resolves to its last turn.
pub proof fn a_bare_name_resolves_to_the_last_turn(
    input: Seq<char>,
    turns: Vec<Oid>,
    sessions: Seq<SessionTurns>,
)
    requires
        forall|i: int| 0 <= i < input.len() ==> input[i] != '~',
        turns@.len() > 0,
    ensures
        (match resolution(input, Some(Ok(turns)), sessions) {
            Ok(r) => r.session is None && r.turn == turns@.len() - 1 && r.offset_from_tip == 0,
            Err(_) => false,
        }),
{
    assert(turns@.len() == turns.len());
    a_bare_name_is_the_tip(input);
}

/// Every further `~1` behind a reference resolves to the turn before.
pub proof fn one_more_step_back_is_the_turn_before(
    input: Seq<char>,
    turns: Vec<Oid>,
    sessions: Seq<SessionTurns>,
)
    requires
        tilde_offset(input) + 1 < turns@.len(),
    ensures
        (match (
            resolution(input, Some(Ok(turns)), sessions),
            resolution(input + "~"@ + decimal(1), Some(Ok(turns)), sessions),
        ) {
            (Ok(at), Ok(before)) => before.turn + 1 == at.turn && before.offset_from_tip
                == at.offset_from_tip + 1,
            _ => false,
        }),
{
    assert(turns@.len() == turns.len());
    tilde_suffixes_add_up(input, 1);
}

/// A reference without a suffix that names no session resolves to the first
/// turn of the first session whose name begins with it, wherever there is one;
/// no session and no turn before it has such a name.
pub proof fn a_turn_is_found_by_how_it_begins(input: Seq<char>, sessions: Vec<SessionTurns>)
    requires
        tilde_offset(input) == 0,
    ensures
        (match resolution(input, None, sessions@) {
            Ok(r) => {
                &&& r.session matches Some(s) && s < sessions@.len()
                &&& sessions@[r.session->0 as int].turns matches Some(turns) && {
                    &&& r.turn < turns@.len()
                    &&& r.turn + r.offset_from_tip == turns@.len() - 1
                    &&& begins(turns@[r.turn as int].text(), input)
                    &&& forall|i: int|
                        0 <= i < r.turn ==> !begins((#[trigger] turns@[i]).text(), input)
                }
                &&& forall|s: int, i: int|
                    0 <= s < r.session->0 && (#[trigger] sessions@[s].turns) is Some && 0 <= i
                        < sessions@[s].turns->0@.len() ==> !begins(
                        (#[trigger] sessions@[s].turns->0@[i]).text(),
                        input,
                    )
            },
            Err(_) => forall|s: int, i: int|
                0 <= s < sessions@.len() && (#[trigger] sessions@[s].turns) is Some && 0 <= i
                    < sessions@[s].turns->0@.len() ==> !begins(
                    (#[trigger] sessions@[s].turns->0@[i]).text(),
                    input,
                ),
        }),
{
    lemma_session_first(sessions@, input);
    assert(sessions@.len() == sessions.len());
    match session_with(sessions@, input) {
        Some(s) => {
            let turns = sessions@[s].turns->0;
            assert(turns@.len() == turns.len());
            lemma_turn_first(turns@, input);
        },
        None => {},
    }
    assert forall|s: int, i: int|
        0 <= s < sessions@.len() && (#[trigger] sessions@[s].turns) is Some && turn_in(
            sessions@[s],
            input,
        ) is None && 0 <= i < sessions@[s].turns->0@.len() implies !begins(
        (#[trigger] sessions@[s].turns->0@[i]).text(),
        input,
    ) by {
        lemma_turn_first(sessions@[s].turns->0@, input);
    }
}

proof fn lemma_turn_first(turns: Seq<Oid>, prefix: Seq<char>)
    ensures
        (match turn_beginning(turns, prefix) {
            Some(t) => {
                &&& 0 <= t < turns.len()
                &&& begins(turns[t].text(), prefix)
                &&& forall|i: int| 0 <= i < t ==> !begins((#[trigger] turns[i]).text(), prefix)
            },
            None => forall|i: int|
                0 <= i < turns.len() ==> !begins((#[trigger] turns[i]).text(), prefix),
        }),
    decreases turns.len(),
{
    if turns.len() > 0 {
        let before = turns.drop_last();
        lemma_turn_first(before, prefix);
        assert forall|i: int| 0 <= i < before.len() implies #[trigger] turns[i] == before[i] by {}
    }
}

proof fn lemma_session_first(sessions: Seq<SessionTurns>, prefix: Seq<char>)
    ensures
        (match session_with(sessions, prefix) {
            Some(s) => {
                &&& 0 <= s < sessions.len()
                &&& turn_in(sessions[s], prefix) is Some
                &&& forall|i: int| 0 <= i < s ==> turn_in(#[trigger] sessions[i], prefix) is None
            },
            None => forall|i: int|
                0 <= i < sessions.len() ==> turn_in(#[trigger] sessions[i], prefix) is None,
        }),
    decreases sessions.len(),
{
    if sessions.len() > 0 {
        let before = sessions.drop_last();
        lemma_session_first(before, prefix);
        assert forall|i: int| 0 <= i < before.len() implies #[trigger] sessions[i]
            == before[i] by {}
    }
}

/// The head of a history.
pub fn log_header(id: &str, turns: usize) -> (text: String)
    ensures
        text@ == "session "@ + id@ + " ("@ + decimal(turns as nat) + " turns)\n"@,
{
    let count = number(turns as u64);
    let mut text = "session ".to_owned();
    text.append(id);
    text.append(" (");
    text.append(count.as_str());
    text.append(" turns)\n");
    text
}

/// One entry of a turn.
#[derive(Debug)]
pub enum TurnEntry {
    Prompt { text: String },
    Response { text: String },
    ToolCall { kind: String },
}

/// What a turn did to a file.
#[derive(Debug)]
pub enum DiffStatus {
    Added,
    Modified,
    Deleted,
    Renamed { old_path: String },
}

/// A file that a turn changed.
#[derive(Debug)]
pub struct FileChange {
    pub path: String,
    pub status: DiffStatus,
}

/// Each line behind a lead.
pub open spec fn led(lead: Seq<char>, list: Seq<Seq<char>>) -> Seq<Seq<char>> {
    Seq::new(list.len(), |i: int| lead + list[i])
}

/// The lines of one entry: a prompt behind a mark, a response line by line, a
/// tool call by its kind.
pub open spec fn entry_lines(entry: TurnEntry) -> Seq<Seq<char>> {
    match entry {
        TurnEntry::Prompt { text } => seq!["  > "@ + text@],
        TurnEntry::Response { text } => led("  "@, lines(text@)),
        TurnEntry::ToolCall { kind } => seq!["  tool "@ + kind@],
    }
}

/// The lines of several entries.
pub open spec fn all_entry_lines(entries: Seq<TurnEntry>) -> Seq<Seq<char>>
    decreases entries.len(),
{
    if entries.len() == 0 {
        Seq::empty()
    } else {
        all_entry_lines(entries.drop_last()) + entry_lines(entries.last())
    }
}

/// The letter of a change.
pub open spec fn status_icon(status: DiffStatus) -> Seq<char> {
    match status {
        DiffStatus::Added => "A"@,
        DiffStatus::Modified => "M"@,
        DiffStatus::Deleted => "D"@,
        DiffStatus::Renamed { .. } => "R"@,
    }
}

/// The path of a change; a rename shows both.
pub open spec fn change_path(change: FileChange) -> Seq<char> {
    match change.status {
        DiffStatus::Renamed { old_path } => old_path@ + " -> "@ + change.path@,
        _ => change.path@,
    }
}

/// The line of a change.
pub open spec fn change_line(change: FileChange) -> Seq<char> {
    "  "@ + status_icon(change.status) + " "@ + change_path(change)
}

/// The lines of a turn: its name and time, its entries, an empty line and its
/// changes where there are any, and an empty line.
pub open spec fn turn_text(
    short: Seq<char>,
    time: Seq<char>,
    entries: Seq<TurnEntry>,
    changes: Seq<FileChange>,
) -> Seq<Seq<char>> {
    seq!["turn "@ + short + " "@ + time] + all_entry_lines(entries) + (if changes.len() == 0 {
        Seq::empty()
    } else {
        seq![""@] + Seq::new(changes.len(), |i: int| change_line(changes[i]))
    }) + seq![""@]
}

fn push_entry(out: &mut Vec<String>, entry: &TurnEntry)
    ensures
        views(final(out)@) == views(old(out)@) + entry_lines(*entry),
{
    let ghost was = views(out@);
    match entry {
        TurnEntry::Prompt { text } => {
            let mut line = "  > ".to_owned();
            line.append(text.as_str());
            out.push(line);
            assert(views(out@) =~= was + entry_lines(*entry));
        },
        TurnEntry::Response { text } => {
            let list = lines_of(text.as_str());
            let ghost all = led("  "@, lines(text@));
            let mut i: usize = 0;
            assert(views(out@) =~= was + all.take(0));
            while i < list.len()
                invariant
                    i <= list.len(),
                    views(list@) == lines(text@),
                    all == led("  "@, lines(text@)),
                    views(out@) == was + all.take(i as int),
                decreases list.len() - i,
            {
                let ghost before = views(out@);
                let mut line = "  ".to_owned();
                line.append(list[i].as_str());
                assert(views(list@)[i as int] == list@[i as int]@);
                out.push(line);
                assert(views(out@) =~= before.push(all[i as int]));
                assert(views(out@) =~= was + all.take(i + 1));
                i += 1;
            }
            assert(views(list@).len() == list@.len());
            assert(all.take(all.len() as int) =~= all);
        },
        TurnEntry::ToolCall { kind } => {
            let mut line = "  tool ".to_owned();
            line.append(kind.as_str());
            out.push(line);
            assert(views(out@) =~= was + entry_lines(*entry));
        },
    }
}

fn change_text(change: &FileChange) -> (line: String)
    ensures
        line@ == change_line(*change),
{
    let icon = match &change.status {
        DiffStatus::Added => "A",
        DiffStatus::Modified => "M",
        DiffStatus::Deleted => "D",
        DiffStatus::Renamed { .. } => "R",
    };
    let path = match &change.status {
        DiffStatus::Renamed { old_path } => {
            let mut path = old_path.clone();
            path.append(" -> ");
            path.append(change.path.as_str());
            path
        },
        _ => change.path.clone(),
    };
    let mut line = "  ".to_owned();
    line.append(icon);
    line.append(" ");
    line.append(path.as_str());
    line
}

/// The lines that a history prints for a turn.
pub fn turn_lines(
    short: &str,
    time: &str,
    entries: &Vec<TurnEntry>,
    changes: &Vec<FileChange>,
) -> (out: Vec<String>)
    ensures
        views(out@) == turn_text(short@, time@, entries@, changes@),
{
    let mut out: Vec<String> = Vec::new();
    let mut first = "turn ".to_owned();
    first.append(short);
    first.append(" ");
    first.append(time);
    let ghost head = seq![first@];
    out.push(first);
    assert(views(out@) =~= head);
    let mut i: usize = 0;
    assert(views(out@) =~= head + all_entry_lines(entries@.take(0)));
    while i < entries.len()
        invariant
            i <= entries.len(),
            views(out@) == head + all_entry_lines(entries@.take(i as int)),
        decreases entries.len() - i,
    {
        assert(entries@.take(i + 1).drop_last() =~= entries@.take(i as int));
        push_entry(&mut out, &entries[i]);
        assert(views(out@) =~= head + all_entry_lines(entries@.take(i + 1)));
        i += 1;
    }
    assert(entries@.take(entries@.len() as int) =~= entries@);
    let ghost body = views(out@);
    let ghost shown = Seq::new(changes@.len(), |k: int| change_line(changes@[k]));
    if changes.len() > 0 {
        out.push("".to_owned());
        assert(views(out@) =~= body + (seq![""@] + shown.take(0)));
        let mut c: usize = 0;
        while c < changes.len()
            invariant
                c <= changes.len(),
                shown == Seq::new(changes@.len(), |k: int| change_line(changes@[k])),
                views(out@) == body + (seq![""@] + shown.take(c as int)),
            decreases changes.len() - c,
        {
            let ghost before = views(out@);
            out.push(change_text(&changes[c]));
            assert(views(out@) =~= before.push(shown[c as int]));
            assert(views(out@) =~= body + (seq![""@] + shown.take(c + 1)));
            c += 1;
        }
        assert(shown.take(shown.len() as int) =~= shown);
    }
    let ghost before = views(out@);
    out.push("".to_owned());
    assert(views(out@) =~= before.push(""@));
    assert(views(out@) =~= turn_text(short@, time@, entries@, changes@));
    out
}

/// The line of a session in the list.
pub open spec fn session_text(id: Seq<char>, turns: nat, modified: Seq<char>) -> Seq<char> {
    pad_right(id, 40) + " "@ + pad_left(decimal(turns), 3) + " turns  "@ + modified
}

/// The line of a session in the list.
pub fn session_line(id: &str, turns: usize, modified: &str) -> (line: String)
    ensures
        line@ == session_text(id@, turns as nat, modified@),
{
    let count = number(turns as u64);
    let column = padded_left(count.as_str(), 3);
    let mut line = padded_right(id, 40);
    line.append(" ");
    line.append(column.as_str());
    line.append(" turns  ");
    line.append(modified);
    line
}

/// What the session list says at its end: sessions travel over plain git, and
/// their refs are in no default refspec, so a bare push never carries them.
pub fn push_hint() -> (text: &'static str)
    ensures
        text@
            == "\npush a session (and its snapshots) with git:\n           git push <remote> 'refs/agent/sessions/<id>' 'refs/agent/snapshots/<id>'"@,
{
    "\npush a session (and its snapshots) with git:\n           git push <remote> 'refs/agent/sessions/<id>' 'refs/agent/snapshots/<id>'"
}

// ---------------------------------------------------------------------------
// Checkout
// ---------------------------------------------------------------------------

/// How many paths a conflict lists.
pub const LISTED_CONFLICTS: usize = 20;

/// What a checkout says when it would overwrite local changes: how many files,
/// the first of them by name, and how many more there are.
pub open spec fn conflict_text(paths: Seq<Seq<char>>) -> Seq<char> {
    let n = paths.len();
    let shown = if n > LISTED_CONFLICTS {
        paths.take(LISTED_CONFLICTS as int)
    } else {
        paths
    };
    "checkout would overwrite local changes in "@ + decimal(n) + " file"@ + (if n == 1 {
        ""@
    } else {
        "s"@
    }) + ":\n"@ + join(led("  "@, shown), "\n"@) + (if n > LISTED_CONFLICTS {
        "\n  ... and "@ + decimal((n - LISTED_CONFLICTS) as nat) + " more"@
    } else {
        ""@
    }) + "\n\nuse --force to discard these changes"@
}

/// What a checkout says when it would overwrite local changes.
pub fn conflict_message(paths: &Vec<String>) -> (text: String)
    ensures
        text@ == conflict_text(views(paths@)),
{
    let n: usize = paths.len();
    let top: usize = if n > LISTED_CONFLICTS {
        LISTED_CONFLICTS
    } else {
        n
    };
    let ghost all = views(paths@);
    let ghost shown = all.take(top as int);
    let mut listed: Vec<String> = Vec::new();
    while listed.len() < top
        invariant
            top <= paths.len(),
            all == views(paths@),
            shown == all.take(top as int),
            listed@.len() <= top,
            views(listed@) == led("  "@, shown).take(listed@.len() as int),
        decreases top - listed.len(),
    {
        let ghost was = views(listed@);
        let i: usize = listed.len();
        let mut line = "  ".to_owned();
        line.append(paths[i].as_str());
        assert(shown[i as int] == paths@[i as int]@);
        listed.push(line);
        assert(views(listed@) =~= was.push(led("  "@, shown)[i as int]));
        assert(views(listed@) =~= led("  "@, shown).take(i + 1));
    }
    assert(led("  "@, shown).take(top as int) =~= led("  "@, shown));
    let listing = joined(&listed, "\n");
    let count = number(n as u64);
    let mut suffix = "".to_owned();
    if n > LISTED_CONFLICTS {
        let more = number((n - LISTED_CONFLICTS) as u64);
        suffix = "\n  ... and ".to_owned();
        suffix.append(more.as_str());
        suffix.append(" more");
    }
    let mut text = "checkout would overwrite local changes in ".to_owned();
    text.append(count.as_str());
    text.append(" file");
    text.append(
        if n == 1 {
            ""
        } else {
            "s"
        },
    );
    text.append(":\n");
    text.append(listing.as_str());
    text.append(suffix.as_str());
    text.append("\n\nuse --force to discard these changes");
    assert(n <= LISTED_CONFLICTS ==> shown =~= all);
    text
}

/// The reference of a turn: the session, and how far back from its tip.
pub open spec fn ref_text(id: Seq<char>, offset: nat) -> Seq<char> {
    if offset > 0 {
        id + "~"@ + decimal(offset)
    } else {
        id
    }
}

/// The reference of a turn.
pub fn ref_display(id: &str, offset: usize) -> (text: String)
    ensures
        text@ == ref_text(id@, offset as nat),
{
    if offset > 0 {
        let back = number(offset as u64);
        let mut text = id.to_owned();
        text.append("~");
        text.append(back.as_str());
        text
    } else {
        id.to_owned()
    }
}

/// The reference that is shown for a turn reads back as that turn.
pub proof fn a_shown_reference_reads_back(id: Seq<char>, offset: nat)
    requires
        forall|i: int| 0 <= i < id.len() ==> id[i] != '~',
        offset <= usize::MAX,
    ensures
        tilde_name(ref_text(id, offset)) == id,
        tilde_offset(ref_text(id, offset)) == offset,
{
    a_bare_name_is_the_tip(id);
    tilde_suffixes_add_up(id, offset);
}

/// What a checkout says when it is done.
pub fn checkout_message(short: &str, id: &str, offset: usize) -> (text: String)
    ensures
        text@ == "Checked out turn "@ + short@ + " (from session "@ + id@
            + ").\n\nContinue from this point. To see the full conversation up to here:\n  concats log "@
            + ref_text(id@, offset as nat)
            + "\n\nThe working tree has been restored to the state at this turn."@,
{
    let shown = ref_display(id, offset);
    let mut text = "Checked out turn ".to_owned();
    text.append(short);
    text.append(" (from session ");
    text.append(id);
    text.append(
        ").\n\nContinue from this point. To see the full conversation up to here:\n  concats log ",
    );
    text.append(shown.as_str());
    text.append("\n\nThe working tree has been restored to the state at this turn.");
    text
}

// ---------------------------------------------------------------------------
// Hooks
// ---------------------------------------------------------------------------

/// Where hooks are installed.
#[derive(Debug)]
pub enum InstallScope {
    User,
    Project { root: String },
}

/// Where hooks are installed: for the user, or in the project at `path` or
/// where the command runs. `None` when that cannot be told.
pub fn resolve_scope(path: Option<String>, global: bool, cwd: Option<String>) -> (scope: Option<
    InstallScope,
>)
    ensures
        (match scope {
            Some(InstallScope::User) => global,
            Some(InstallScope::Project { root }) => !global && (match path {
                Some(path) => root == path,
                None => cwd matches Some(cwd) && root == cwd,
            }),
            None => !global && path is None && cwd is None,
        }),
{
    if global {
        return Some(InstallScope::User);
    }
    match path {
        Some(root) => Some(InstallScope::Project { root }),
        None => match cwd {
            Some(root) => Some(InstallScope::Project { root }),
            None => None,
        },
    }
}

/// The first agent of this name, whatever the case of its letters.
pub open spec fn agent_named(agents: Seq<Seq<char>>, name: Seq<char>) -> Option<int>
    decreases agents.len(),
{
    if agents.len() == 0 {
        None
    } else {
        match agent_named(agents.drop_last(), name) {
            Some(i) => Some(i),
            None => if lower_ascii(agents.last()) == lower_ascii(name) {
                Some(agents.len() - 1)
            } else {
                None
            },
        }
    }
}

/// What is said of an agent that is not known.
pub open spec fn unknown_agent_text(agents: Seq<Seq<char>>, name: Seq<char>) -> Seq<char> {
    "unknown agent: "@ + name + ". Expected one of: "@ + join(agents, ", "@)
}

proof fn lemma_agent_found(agents: Seq<Seq<char>>, name: Seq<char>, n: int)
    requires
        0 <= n <= agents.len(),
        agent_named(agents.take(n), name) is Some,
    ensures
        agent_named(agents, name) == agent_named(agents.take(n), name),
    decreases agents.len() - n,
{
    if n == agents.len() {
        assert(agents.take(n) =~= agents);
    } else {
        assert(agents.take(n + 1).drop_last() =~= agents.take(n));
        lemma_agent_found(agents, name, n + 1);
    }
}

/// Looks an agent up by its name, whatever the case of its letters.
pub fn resolve_agent(name: &str, agents: &Vec<String>) -> (r: Result<usize, String>)
    ensures
        (match r {
            Ok(i) => agent_named(views(agents@), name@) == Some(i as int),
            Err(text) => agent_named(views(agents@), name@) is None && text@
                == unknown_agent_text(views(agents@), name@),
        }),
{
    let wanted = to_lower_ascii(name);
    let ghost all = views(agents@);
    let mut i: usize = 0;
    while i < agents.len()
        invariant
            i <= agents.len(),
            all == views(agents@),
            wanted@ == lower_ascii(name@),
            agent_named(all.take(i as int), name@) is None,
        decreases agents.len() - i,
    {
        assert(all.take(i + 1).drop_last() =~= all.take(i as int));
        assert(all.take(i + 1).last() == agents@[i as int]@);
        let known = to_lower_ascii(agents[i].as_str());
        if same(known.as_str(), wanted.as_str()) {
            proof {
                lemma_agent_found(all, name@, i + 1);
            }
            return Ok(i);
        }
        i += 1;
    }
    assert(all.take(all.len() as int) =~= all);
    let names = joined(agents, ", ");
    let mut text = "unknown agent: ".to_owned();
    text.append(name);
    text.append(". Expected one of: ");
    text.append(names.as_str());
    Err(text)
}

/// The places of several agents, by name.
pub open spec fn agents_named(agents: Seq<Seq<char>>, names: Seq<Seq<char>>) -> Result<
    Seq<usize>,
    Seq<char>,
>
    decreases names.len(),
{
    if names.len() == 0 {
        Ok(Seq::empty())
    } else {
        match agents_named(agents, names.drop_last()) {
            Err(e) => Err(e),
            Ok(found) => match agent_named(agents, names.last()) {
                Some(i) => Ok(found.push(i as usize)),
                None => Err(unknown_agent_text(agents, names.last())),
            },
        }
    }
}

/// The view of a list of places.
pub open spec fn places_view(r: Result<Vec<usize>, String>) -> Result<Seq<usize>, Seq<char>> {
    match r {
        Ok(places) => Ok(places@),
        Err(e) => Err(e@),
    }
}

proof fn lemma_agents_error(agents: Seq<Seq<char>>, names: Seq<Seq<char>>, n: int)
    requires
        0 <= n <= names.len(),
        agents_named(agents, names.take(n)) is Err,
    ensures
        agents_named(agents, names) == agents_named(agents, names.take(n)),
    decreases names.len() - n,
{
    if n == names.len() {
        assert(names.take(n) =~= names);
    } else {
        assert(names.take(n + 1).drop_last() =~= names.take(n));
        lemma_agents_error(agents, names, n + 1);
    }
}

/// The agents whose hooks are to be installed; the first name that is not
/// known stops it.
pub fn install_targets(names: &Vec<String>, agents: &Vec<String>) -> (r: Result<Vec<usize>, String>)
    ensures
        places_view(r) == agents_named(views(agents@), views(names@)),
{
    let ghost all = views(names@);
    let ghost known = views(agents@);
    let mut found: Vec<usize> = Vec::new();
    let mut i: usize = 0;
    assert(all.take(0) =~= Seq::empty());
    while i < names.len()
        invariant
            i <= names.len(),
            all == views(names@),
            known == views(agents@),
            agents_named(known, all.take(i as int)) == Ok::<Seq<usize>, Seq<char>>(found@),
        decreases names.len() - i,
    {
        assert(all.take(i + 1).drop_last() =~= all.take(i as int));
        assert(all.take(i + 1).last() == names@[i as int]@);
        match resolve_agent(names[i].as_str(), agents) {
            Ok(place) => {
                found.push(place);
            },
            Err(e) => {
                proof {
                    lemma_agents_error(known, all, i + 1);
                }
                return Err(e);
            },
        }
        i += 1;
    }
    assert(all.take(all.len() as int) =~= all);
    Ok(found)
}

/// The agents whose hooks are to be removed: those named, or every one.
pub fn uninstall_targets(names: &Vec<String>, agents: &Vec<String>) -> (r: Result<
    Vec<usize>,
    String,
>)
    ensures
        places_view(r) == (if names@.len() == 0 {
            Ok(Seq::new(agents@.len(), |i: int| i as usize))
        } else {
            agents_named(views(agents@), views(names@))
        }),
{
    if names.len() > 0 {
        return install_targets(names, agents);
    }
    let mut every: Vec<usize> = Vec::new();
    while every.len() < agents.len()
        invariant
            every@.len() <= agents@.len(),
            forall|i: int| 0 <= i < every@.len() ==> every@[i] == i,
        decreases agents.len() - every.len(),
    {
        every.push(every.len());
    }
    assert(every@ =~= Seq::new(agents@.len(), |i: int| i as usize));
    Ok(every)
}

/// What is said when no agent is detected. `first` is the agent that the program
/// uses when none is named.
pub open spec fn none_detected_text(first: Seq<char>) -> Seq<char> {
    "no coding agents detected. Install an agent ("@ + first
        + ", codex, cursor, ...) or use `concats hooks install <agent>` to wire up hooks explicitly."@
}

/// The agents that are detected, for hooks at the project level; an error when
/// there are none.
pub fn detected_agents(detected: &Vec<bool>, first: &str) -> (r: Result<Vec<usize>, String>)
    ensures
        places_view(r) == (if exists|i: int| 0 <= i < detected@.len() && detected@[i] {
            Ok(places_of(detected@))
        } else {
            Err(none_detected_text(first@))
        }),
{
    let mut found: Vec<usize> = Vec::new();
    let mut i: usize = 0;
    assert(detected@.take(0) =~= Seq::empty());
    while i < detected.len()
        invariant
            i <= detected.len(),
            found@ == places_of(detected@.take(i as int)),
            (found@.len() > 0) == (exists|k: int| 0 <= k < i && detected@[k]),
        decreases detected.len() - i,
    {
        assert(detected@.take(i + 1).drop_last() =~= detected@.take(i as int));
        if detected[i] {
            found.push(i);
        }
        i += 1;
    }
    assert(detected@.take(detected@.len() as int) =~= detected@);
    if found.len() == 0 {
        let mut text = "no coding agents detected. Install an agent (".to_owned();
        text.append(first);
        text.append(
            ", codex, cursor, ...) or use `concats hooks install <agent>` to wire up hooks explicitly.",
        );
        return Err(text);
    }
    Ok(found)
}

/// The places that are marked.
pub open spec fn places_of(marks: Seq<bool>) -> Seq<usize>
    decreases marks.len(),
{
    if marks.len() == 0 {
        Seq::empty()
    } else if marks.last() {
        places_of(marks.drop_last()).push((marks.len() - 1) as usize)
    } else {
        places_of(marks.drop_last())
    }
}

/// What happened to one agent's hooks: its name, and what went wrong.
#[derive(Debug)]
pub struct HookOutcome {
    pub agent: String,
    pub error: Option<String>,
}

/// The names of the agents for which it went well.
pub open spec fn succeeded(outcomes: Seq<HookOutcome>) -> Seq<Seq<char>>
    decreases outcomes.len(),
{
    if outcomes.len() == 0 {
        Seq::empty()
    } else if outcomes.last().error is None {
        succeeded(outcomes.drop_last()).push(outcomes.last().agent@)
    } else {
        succeeded(outcomes.drop_last())
    }
}

/// A warning for each agent for which it did not.
pub open spec fn warnings(outcomes: Seq<HookOutcome>, what: Seq<char>) -> Seq<Seq<char>>
    decreases outcomes.len(),
{
    if outcomes.len() == 0 {
        Seq::empty()
    } else {
        match outcomes.last().error {
            Some(e) => warnings(outcomes.drop_last(), what).push(
                "warning: failed to "@ + what + " hooks for "@ + outcomes.last().agent@ + ": "@ + e@,
            ),
            None => warnings(outcomes.drop_last(), what),
        }
    }
}

fn split_outcomes(outcomes: &Vec<HookOutcome>, what: &str) -> (r: (Vec<String>, Vec<String>))
    ensures
        views((r.0)@) == warnings(outcomes@, what@),
        views((r.1)@) == succeeded(outcomes@),
{
    let mut said: Vec<String> = Vec::new();
    let mut done: Vec<String> = Vec::new();
    let mut i: usize = 0;
    assert(views(said@) =~= warnings(outcomes@.take(0), what@));
    assert(views(done@) =~= succeeded(outcomes@.take(0)));
    while i < outcomes.len()
        invariant
            i <= outcomes.len(),
            views(said@) == warnings(outcomes@.take(i as int), what@),
            views(done@) == succeeded(outcomes@.take(i as int)),
        decreases outcomes.len() - i,
    {
        let ghost was_said = views(said@);
        let ghost was_done = views(done@);
        assert(outcomes@.take(i + 1).drop_last() =~= outcomes@.take(i as int));
        match &outcomes[i].error {
            Some(e) => {
                let mut line = "warning: failed to ".to_owned();
                line.append(what);
                line.append(" hooks for ");
                line.append(outcomes[i].agent.as_str());
                line.append(": ");
                line.append(e.as_str());
                let ghost shown = line@;
                said.push(line);
                assert(views(said@) =~= was_said.push(shown));
            },
            None => {
                done.push(outcomes[i].agent.clone());
                assert(views(done@) =~= was_done.push(outcomes@[i as int].agent@));
            },
        }
        i += 1;
    }
    assert(outcomes@.take(outcomes@.len() as int) =~= outcomes@);
    (said, done)
}

/// The lines that installing hooks prints: a warning for each agent it failed
/// for, and those it was done for.
pub fn install_report(outcomes: &Vec<HookOutcome>) -> (lines: Vec<String>)
    ensures
        views(lines@) == warnings(outcomes@, "install"@).push(
            if succeeded(outcomes@).len() == 0 {
                "no agents were installed"@
            } else {
                "hooks installed for: "@ + join(succeeded(outcomes@), ", "@)
            },
        ),
{
    let (mut lines, done) = split_outcomes(outcomes, "install");
    let ghost was = views(lines@);
    assert(views(done@).len() == done@.len());
    let summary = if done.len() == 0 {
        "no agents were installed".to_owned()
    } else {
        let names = joined(&done, ", ");
        let mut text = "hooks installed for: ".to_owned();
        text.append(names.as_str());
        text
    };
    let ghost shown = summary@;
    lines.push(summary);
    assert(views(lines@) =~= was.push(shown));
    lines
}

/// The lines that removing hooks prints.
pub fn uninstall_report(outcomes: &Vec<HookOutcome>) -> (lines: Vec<String>)
    ensures
        views(lines@) == warnings(outcomes@, "uninstall"@).push(
            if succeeded(outcomes@).len() == 0 {
                "no hooks were removed"@
            } else {
                "hooks removed for: "@ + join(succeeded(outcomes@), ", "@)
            },
        ),
{
    let (mut lines, done) = split_outcomes(outcomes, "uninstall");
    let ghost was = views(lines@);
    assert(views(done@).len() == done@.len());
    let summary = if done.len() == 0 {
        "no hooks were removed".to_owned()
    } else {
        let names = joined(&done, ", ");
        let mut text = "hooks removed for: ".to_owned();
        text.append(names.as_str());
        text
    };
    let ghost shown = summary@;
    lines.push(summary);
    assert(views(lines@) =~= was.push(shown));
    lines
}

/// A row of the hook status table.
pub open spec fn status_text(name: Seq<char>, detected: Seq<char>, installed: Seq<char>) -> Seq<
    char,
> {
    pad_right(name, 12) + " "@ + pad_right(detected, 10) + " "@ + installed
}

fn table_row(name: &str, detected: &str, installed: &str) -> (line: String)
    ensures
        line@ == status_text(name@, detected@, installed@),
{
    let column = padded_right(detected, 10);
    let mut line = padded_right(name, 12);
    line.append(" ");
    line.append(column.as_str());
    line.append(" ");
    line.append(installed);
    line
}

/// The head of the hook status table.
pub fn status_header() -> (rows: (String, String))
    ensures
        (rows.0)@ == status_text("Agent"@, "Detected"@, "Installed"@),
        (rows.1)@ == status_text("-----"@, "--------"@, "---------"@),
{
    (table_row("Agent", "Detected", "Installed"), table_row("-----", "--------", "---------"))
}

/// Yes or no.
pub open spec fn yes_no(b: bool) -> Seq<char> {
    if b {
        "yes"@
    } else {
        "no"@
    }
}

/// An agent's row of the hook status table.
pub fn status_row(name: &str, detected: bool, installed: bool) -> (line: String)
    ensures
        line@ == status_text(name@, yes_no(detected), yes_no(installed)),
{
    table_row(
        name,
        if detected {
            "yes"
        } else {
            "no"
        },
        if installed {
            "yes"
        } else {
            "no"
        },
    )
}

// ---------------------------------------------------------------------------
// Laws
// ---------------------------------------------------------------------------

/// A suffix without a number goes back one turn.
pub proof fn a_lone_tilde_goes_back_one(input: Seq<char>)
    ensures
        tilde_offset(input + "~"@) == tilde_offset(input) + 1,
        tilde_name(input + "~"@) == tilde_name(input),
{
    reveal_strlit("~");
    let whole = input + "~"@;
    lemma_last_tilde(input, Seq::empty());
    assert(whole =~= input + seq!['~'] + Seq::<char>::empty());
    assert(whole.take(input.len() as int) =~= input);
    assert(whole.skip(input.len() as int + 1) =~= Seq::empty());
}

/// Whether lines hold these lines one after another, from a place on.
pub open spec fn stand_at(text: Seq<Seq<char>>, at: int, some: Seq<Seq<char>>) -> bool {
    &&& 0 <= at
    &&& at + some.len() <= text.len()
    &&& forall|k: int| 0 <= k < some.len() ==> text[at + k] == #[trigger] some[k]
}

proof fn lemma_entry_stands(entries: Seq<TurnEntry>, i: int)
    requires
        0 <= i < entries.len(),
    ensures
        stand_at(
            all_entry_lines(entries),
            all_entry_lines(entries.take(i)).len() as int,
            entry_lines(entries[i]),
        ),
    decreases entries.len(),
{
    let rest = entries.drop_last();
    let all = all_entry_lines(entries);
    if i < rest.len() {
        lemma_entry_stands(rest, i);
        assert(rest.take(i) =~= entries.take(i));
        let at = all_entry_lines(entries.take(i)).len() as int;
        let some = entry_lines(entries[i]);
        assert forall|k: int| 0 <= k < some.len() implies all[at + k] == #[trigger] some[k] by {
            assert(all_entry_lines(rest)[at + k] == some[k]);
        }
    } else {
        assert(entries.take(i) =~= rest);
    }
}

proof fn lemma_heights_grow(entries: Seq<TurnEntry>, i: int, j: int)
    requires
        0 <= i <= j <= entries.len(),
    ensures
        all_entry_lines(entries.take(i)).len() <= all_entry_lines(entries.take(j)).len(),
    decreases j - i,
{
    if i < j {
        lemma_heights_grow(entries, i, j - 1);
        assert(entries.take(j).drop_last() =~= entries.take(j - 1));
    }
}

/// A turn of a history is printed whole. Its first line has its name and time.
/// Every prompt, response and tool call follows, in their order: a prompt
/// behind a mark, each line of a response on a line of its own, a tool call by
/// its kind.
pub proof fn a_turn_shows_every_entry(
    short: Seq<char>,
    time: Seq<char>,
    entries: Seq<TurnEntry>,
    changes: Seq<FileChange>,
    i: int,
)
    requires
        0 <= i < entries.len(),
    ensures
        ({
            let text = turn_text(short, time, entries, changes);
            let at: int = 1 + all_entry_lines(entries.take(i)).len() as int;
            &&& text[0] == "turn "@ + short + " "@ + time
            &&& at < text.len()
            &&& match entries[i] {
                TurnEntry::Prompt { text: said } => text[at] == "  > "@ + said@,
                TurnEntry::Response { text: said } => at + lines(said@).len() < text.len()
                    && forall|k: int|
                    0 <= k < lines(said@).len() ==> text[at + k] == "  "@ + #[trigger] lines(
                        said@,
                    )[k],
                TurnEntry::ToolCall { kind } => text[at] == "  tool "@ + kind@,
            }
            &&& forall|j: int|
                0 <= j <= i ==> (#[trigger] all_entry_lines(entries.take(j))).len() < at
        }),
{
    let text = turn_text(short, time, entries, changes);
    let all = all_entry_lines(entries);
    let at = all_entry_lines(entries.take(i)).len() as int;
    let some = entry_lines(entries[i]);
    lemma_entry_stands(entries, i);
    assert forall|k: int| 0 <= k < some.len() implies text[1 + at + k] == #[trigger] some[k] by {
        assert(text[1 + at + k] == all[at + k]);
    }
    match entries[i] {
        TurnEntry::Prompt { text: said } => {
            assert(some[0] == "  > "@ + said@);
        },
        TurnEntry::Response { text: said } => {
            assert forall|k: int| 0 <= k < lines(said@).len() implies text[1 + at + k] == "  "@
                + #[trigger] lines(said@)[k] by {
                assert(some[k] == "  "@ + lines(said@)[k]);
            }
        },
        TurnEntry::ToolCall { kind } => {
            assert(some[0] == "  tool "@ + kind@);
        },
    }
    assert forall|j: int| 0 <= j <= i implies (#[trigger] all_entry_lines(entries.take(j))).len()
        < 1 + at by {
        lemma_heights_grow(entries, j, i);
    }
}

/// A turn of a history lists every file that it changed, in order, at its end
/// and behind an empty line: by a letter for what was done to it, and its path,
/// with the former path of one that was renamed.
pub proof fn a_turn_lists_every_change(
    short: Seq<char>,
    time: Seq<char>,
    entries: Seq<TurnEntry>,
    changes: Seq<FileChange>,
    i: int,
)
    requires
        0 <= i < changes.len(),
    ensures
        ({
            let text = turn_text(short, time, entries, changes);
            let line = text[text.len() - 1 - changes.len() + i];
            &&& text.len() >= changes.len() + 3
            &&& text.last() == ""@
            &&& text[text.len() - 2 - changes.len()] == ""@
            &&& match changes[i].status {
                DiffStatus::Added => line == "  A "@ + changes[i].path@,
                DiffStatus::Modified => line == "  M "@ + changes[i].path@,
                DiffStatus::Deleted => line == "  D "@ + changes[i].path@,
                DiffStatus::Renamed { old_path } => line == "  R "@ + old_path@ + " -> "@
                    + changes[i].path@,
            }
        }),
{
    let text = turn_text(short, time, entries, changes);
    let line = text[text.len() - 1 - changes.len() + i];
    assert(line == change_line(changes[i]));
    reveal_strlit("  ");
    reveal_strlit(" ");
    reveal_strlit("A");
    reveal_strlit("M");
    reveal_strlit("D");
    reveal_strlit("R");
    reveal_strlit("  A ");
    reveal_strlit("  M ");
    reveal_strlit("  D ");
    reveal_strlit("  R ");
    match changes[i].status {
        DiffStatus::Added => {
            assert(line =~= "  A "@ + changes[i].path@);
        },
        DiffStatus::Modified => {
            assert(line =~= "  M "@ + changes[i].path@);
        },
        DiffStatus::Deleted => {
            assert(line =~= "  D "@ + changes[i].path@);
        },
        DiffStatus::Renamed { old_path } => {
            assert(line =~= "  R "@ + old_path@ + " -> "@ + changes[i].path@);
        },
    }
}

proof fn lemma_agent_place(agents: Seq<Seq<char>>, name: Seq<char>)
    ensures
        (match agent_named(agents, name) {
            Some(i) => {
                &&& 0 <= i < agents.len()
                &&& lower_ascii(agents[i]) == lower_ascii(name)
                &&& forall|k: int| 0 <= k < i ==> lower_ascii(#[trigger] agents[k]) != lower_ascii(
                    name,
                )
            },
            None => forall|k: int|
                0 <= k < agents.len() ==> lower_ascii(#[trigger] agents[k]) != lower_ascii(name),
        }),
    decreases agents.len(),
{
    if agents.len() > 0 {
        let rest = agents.drop_last();
        lemma_agent_place(rest, name);
        assert forall|k: int| 0 <= k < rest.len() implies #[trigger] agents[k] == rest[k] by {}
    }
}

/// Whether an agent goes by a name, whatever the case of its letters.
pub open spec fn is_named(agent: Seq<char>, name: Seq<char>) -> bool {
    agent.len() == name.len() && forall|i: int|
        0 <= i < name.len() ==> lower_char(#[trigger] agent[i]) == lower_char(name[i])
}

proof fn lemma_is_named(agent: Seq<char>, name: Seq<char>)
    ensures
        is_named(agent, name) == (lower_ascii(agent) == lower_ascii(name)),
{
    let a = lower_ascii(agent);
    let b = lower_ascii(name);
    if is_named(agent, name) {
        assert forall|i: int| 0 <= i < a.len() implies a[i] == b[i] by {
            assert(lower_char(agent[i]) == lower_char(name[i]));
        }
        assert(a =~= b);
    }
    if a == b {
        assert(a.len() == agent.len() && b.len() == name.len());
        assert forall|i: int| 0 <= i < name.len() implies lower_char(#[trigger] agent[i])
            == lower_char(name[i]) by {
            assert(a[i] == b[i]);
        }
    }
}

/// Naming agents finds one for each name, in the order of the names, and each
/// goes by that name; or there is a name that no agent goes by, and then none
/// is found.
pub proof fn every_named_agent_is_found(agents: Seq<Seq<char>>, names: Seq<Seq<char>>)
    requires
        agents.len() <= usize::MAX,
    ensures
        (match agents_named(agents, names) {
            Ok(found) => found.len() == names.len() && forall|i: int|
                0 <= i < names.len() ==> (#[trigger] found[i]) < agents.len() && is_named(
                    agents[found[i] as int],
                    names[i],
                ),
            Err(_) => exists|i: int|
                0 <= i < names.len() && forall|k: int|
                    0 <= k < agents.len() ==> !is_named(#[trigger] agents[k], #[trigger] names[i]),
        }),
    decreases names.len(),
{
    if names.len() > 0 {
        let rest = names.drop_last();
        every_named_agent_is_found(agents, rest);
        lemma_agent_place(agents, names.last());
        assert forall|k: int| 0 <= k < agents.len() implies is_named(
            #[trigger] agents[k],
            names.last(),
        ) == (lower_ascii(agents[k]) == lower_ascii(names.last())) by {
            lemma_is_named(agents[k], names.last());
        }
        match agents_named(agents, rest) {
            Err(_) => {
                let i = choose|i: int|
                    0 <= i < rest.len() && forall|k: int|
                        0 <= k < agents.len() ==> !is_named(
                            #[trigger] agents[k],
                            #[trigger] rest[i],
                        );
                assert(names[i] == rest[i]);
            },
            Ok(before) => {
                if agent_named(agents, names.last()) is Some {
                    let found = agents_named(agents, names)->Ok_0;
                    assert forall|i: int| 0 <= i < names.len() implies (#[trigger] found[i])
                        < agents.len() && is_named(agents[found[i] as int], names[i]) by {
                        if i < rest.len() {
                            assert(found[i] == before[i]);
                        }
                    }
                } else {
                    assert(names[names.len() - 1] == names.last());
                }
            },
        }
    }
}

/// The agents that are detected are all found, each once, in their order, and
/// no other is.
pub proof fn what_is_marked_is_found(marks: Seq<bool>)
    requires
        marks.len() <= usize::MAX,
    ensures
        forall|i: int|
            0 <= i < places_of(marks).len() ==> (#[trigger] places_of(marks)[i]) < marks.len()
                && marks[places_of(marks)[i] as int],
        forall|i: int, j: int|
            0 <= i < j < places_of(marks).len() ==> (#[trigger] places_of(marks)[i]) < (
            #[trigger] places_of(marks)[j]),
        forall|k: int|
            0 <= k < marks.len() && marks[k] ==> #[trigger] places_of(marks).contains(k as usize),
    decreases marks.len(),
{
    if marks.len() > 0 {
        let rest = marks.drop_last();
        let before = places_of(rest);
        let all = places_of(marks);
        what_is_marked_is_found(rest);
        assert forall|i: int| 0 <= i < before.len() implies #[trigger] all[i] == before[i] by {}
        assert forall|k: int| 0 <= k < marks.len() && marks[k] implies #[trigger] all.contains(
            k as usize,
        ) by {
            if k < rest.len() {
                assert(rest[k]);
                assert(before.contains(k as usize));
                let i = choose|i: int| 0 <= i < before.len() && before[i] == k as usize;
                assert(all[i] == k as usize);
            } else {
                assert(all[all.len() - 1] == k as usize);
            }
        }
    }
}

/// Every agent is reported on: one whose hooks failed by a warning with its
/// name and what went wrong, any other by its name among those it was done for;
/// and nothing else is reported.
pub proof fn every_outcome_is_reported(outcomes: Seq<HookOutcome>, what: Seq<char>, i: int)
    requires
        0 <= i < outcomes.len(),
    ensures
        outcomes[i].error matches Some(e) ==> warnings(outcomes, what).contains(
            "warning: failed to "@ + what + " hooks for "@ + outcomes[i].agent@ + ": "@ + e@,
        ),
        outcomes[i].error is None ==> succeeded(outcomes).contains(outcomes[i].agent@),
        warnings(outcomes, what).len() + succeeded(outcomes).len() == outcomes.len(),
    decreases outcomes.len(),
{
    let rest = outcomes.drop_last();
    let w = warnings(outcomes, what);
    let s = succeeded(outcomes);
    lemma_outcomes_add_up(outcomes, what);
    if i < rest.len() {
        every_outcome_is_reported(rest, what, i);
        match outcomes[i].error {
            Some(e) => {
                let line = "warning: failed to "@ + what + " hooks for "@ + outcomes[i].agent@
                    + ": "@ + e@;
                let before = warnings(rest, what);
                let k = choose|k: int| 0 <= k < before.len() && before[k] == line;
                assert(w[k] == line);
            },
            None => {
                let before = succeeded(rest);
                let k = choose|k: int| 0 <= k < before.len() && before[k] == outcomes[i].agent@;
                assert(s[k] == outcomes[i].agent@);
            },
        }
    } else {
        match outcomes[i].error {
            Some(_) => {
                assert(w[w.len() - 1] == w.last());
            },
            None => {
                assert(s[s.len() - 1] == s.last());
            },
        }
    }
}

proof fn lemma_outcomes_add_up(outcomes: Seq<HookOutcome>, what: Seq<char>)
    ensures
        warnings(outcomes, what).len() + succeeded(outcomes).len() == outcomes.len(),
    decreases outcomes.len(),
{
    if outcomes.len() > 0 {
        lemma_outcomes_add_up(outcomes.drop_last(), what);
    }
}

/// A conflict says how many files it is about, and names the first of them, as
/// many as are listed, each on a line of its own.
pub proof fn a_conflict_names_its_files(paths: Seq<Seq<char>>, i: int)
    requires
        0 <= i < paths.len(),
        i < LISTED_CONFLICTS,
    ensures
        begins(
            conflict_text(paths),
            "checkout would overwrite local changes in "@ + decimal(paths.len()) + " file"@,
        ),
        occurs(conflict_text(paths), "\n  "@ + paths[i]),
{
    let shown = if paths.len() > LISTED_CONFLICTS {
        paths.take(LISTED_CONFLICTS as int)
    } else {
        paths
    };
    let list = led("  "@, shown);
    let text = conflict_text(paths);
    let head = "checkout would overwrite local changes in "@ + decimal(paths.len()) + " file"@;
    let plural = if paths.len() == 1 {
        ""@
    } else {
        "s"@
    };
    let rest = (if paths.len() > LISTED_CONFLICTS {
        "\n  ... and "@ + decimal((paths.len() - LISTED_CONFLICTS) as nat) + " more"@
    } else {
        ""@
    }) + "\n\nuse --force to discard these changes"@;
    let joined = join(list, "\n"@);
    reveal_strlit("\n");
    reveal_strlit(":\n");
    reveal_strlit("  ");
    reveal_strlit("\n  ");
    assert(text =~= head + plural + ":\n"@ + joined + rest);
    assert(text.take(head.len() as int) =~= head);
    each_part_stands_in_the_join(list, "\n"@, i);
    let want = "\n  "@ + paths[i];
    if i == 0 {
        let at: int = head.len() as int + plural.len() as int + 1;
        assert(joined.take(list[0].len() as int) == "  "@ + paths[0]);
        assert(text.subrange(at, at + want.len()) =~= want) by {
            assert forall|k: int| 0 <= k < want.len() implies text[at + k] == want[k] by {
                if k > 0 {
                    assert(text[at + k] == joined[k - 1]);
                    assert(joined[k - 1] == joined.take(list[0].len() as int)[k - 1]);
                }
            }
        }
    } else {
        let line = "\n"@ + list[i];
        assert(want =~= line);
        let k = choose|k: int|
            0 <= k <= joined.len() - line.len() && #[trigger] joined.subrange(k, k + line.len())
                == line;
        let at: int = head.len() as int + plural.len() as int + 2 + k;
        assert(text.subrange(at, at + want.len()) =~= joined.subrange(k, k + line.len()));
    }
}

/// A row of the status table names the agent first and says last whether its
/// hooks are installed; a session's line begins with its id and ends with when it
/// was changed.
pub proof fn tables_show_their_rows(
    name: Seq<char>,
    detected: bool,
    installed: bool,
    turns: nat,
    modified: Seq<char>,
)
    ensures
        ({
            let row = status_text(name, yes_no(detected), yes_no(installed));
            let line = session_text(name, turns, modified);
            let last = yes_no(installed);
            &&& begins(row, name)
            &&& row.skip(row.len() - last.len()) == last
            &&& begins(line, name)
            &&& line.skip(line.len() - modified.len()) == modified
            &&& occurs(line, decimal(turns) + " turns"@)
        }),
        yes_no(true) == "yes"@,
        yes_no(false) == "no"@,
{
    let last = yes_no(installed);
    let row = status_text(name, yes_no(detected), last);
    let line = session_text(name, turns, modified);
    a_column_holds_its_text(name, 12);
    a_column_holds_its_text(name, 40);
    let a = pad_right(name, 12);
    assert(a.take(name.len() as int) == name);
    assert(row.take(name.len() as int) =~= a.take(name.len() as int));
    assert(row.skip(row.len() - last.len()) =~= last);
    let b = pad_right(name, 40);
    assert(b.take(name.len() as int) == name);
    assert(line.take(name.len() as int) =~= b.take(name.len() as int));
    assert(line.skip(line.len() - modified.len()) =~= modified);
    let d = decimal(turns);
    let fill = blanks(3 - d.len());
    let head = b + " "@ + fill;
    reveal_strlit(" turns  ");
    reveal_strlit(" turns");
    let want = d + " turns"@;
    let at = head.len() as int;
    assert(line =~= head + d + " turns  "@ + modified);
    assert(line.subrange(at, at + want.len()) =~= want);
}

} // verus!
