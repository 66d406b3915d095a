//! The recorded sessions and their checkpoints, as they are drawn in the
//! interface with a tab for each session.

use crate::components::sessions::name_style;
use crate::components::turns::{
    blank_line, diffs_lines, prompt_line, push_blank, push_prompt, push_response,
    render_file_diffs, response_lines, FileDiff, TurnRow,
};
use crate::geometry::{capped, height_of};
use crate::style::{
    colored, line_views, span_views, strong, two_spans, Color, Line, Span, SpanView, Style,
};
use crate::text::{decimal, number, to_chars};
use vstd::prelude::*;

verus! {

/// A recorded session.
#[derive(Debug)]
pub struct SessionInfo {
    pub title: String,
    pub timestamp: String,
    pub turn_count: usize,
}

/// A checkpoint of a session.
#[derive(Debug)]
pub struct TurnInfo {
    pub turn_number: usize,
    /// The name of its commit, as it is shown.
    pub short_oid: String,
    pub prompt: String,
    pub response_summary: String,
    pub diffs: Vec<FileDiff>,
}

/// The line of a session.
pub open spec fn info_spans(s: SessionInfo, selected: bool) -> Seq<SpanView> {
    seq![
        SpanView { text: "  "@ + s.title@ + " "@, style: name_style(selected) },
        SpanView { text: "  •  "@, style: colored(Color::DarkGray) },
        SpanView { text: s.timestamp@, style: colored(Color::DarkGray) },
        SpanView {
            text: "  •  "@ + decimal(s.turn_count as nat) + " turns"@,
            style: colored(Color::Cyan),
        },
    ]
}

/// The line of a session.
pub fn session_item(s: &SessionInfo, selected: bool) -> (spans: Vec<Span>)
    ensures
        span_views(spans@) == info_spans(*s, selected),
{
    let mut name = "  ".to_owned();
    name.append(s.title.as_str());
    name.append(" ");
    let count = number(s.turn_count as u64);
    let mut turns = "  •  ".to_owned();
    turns.append(count.as_str());
    turns.append(" turns");
    let mut spans: Vec<Span> = Vec::new();
    spans.push(
        Span {
            text: name,
            style: Style {
                fg: Color::White,
                bg: Color::Plain,
                bold: false,
                dim: false,
                reversed: selected,
            },
        },
    );
    spans.push(Span { text: "  •  ".to_owned(), style: Style::color(Color::DarkGray) });
    spans.push(Span { text: s.timestamp.clone(), style: Style::color(Color::DarkGray) });
    spans.push(Span { text: turns, style: Style::color(Color::Cyan) });
    assert(span_views(spans@) =~= info_spans(*s, selected));
    spans
}

/// The lines of a checkpoint: its number and name, the prompt, the response
/// where there is one, what changed, and a gap.
pub open spec fn checkpoint_lines(turn: TurnInfo) -> Seq<Seq<SpanView>> {
    seq![
        two_spans(
            "  #"@ + decimal(turn.turn_number as nat) + " "@,
            strong(Color::White),
            "("@ + turn.short_oid@ + ")"@,
            colored(Color::DarkGray),
        ),
        prompt_line(turn.prompt@),
    ] + (if turn.response_summary@.len() == 0 {
        Seq::empty()
    } else {
        response_lines(turn.response_summary@)
    }) + diffs_lines(turn.diffs@) + seq![blank_line()]
}

/// A checkpoint as it is drawn.
pub fn checkpoint(turn: &TurnInfo) -> (row: TurnRow)
    ensures
        line_views(row.lines@) == checkpoint_lines(*turn),
        row.height == capped(row.lines@.len() as int),
{
    let shown = number(turn.turn_number as u64);
    let mut head = "  #".to_owned();
    head.append(shown.as_str());
    head.append(" ");
    let mut name = "(".to_owned();
    name.append(turn.short_oid.as_str());
    name.append(")");
    let ghost first = two_spans(head@, strong(Color::White), name@, colored(Color::DarkGray));
    let mut out: Vec<Line> = Vec::new();
    out.push(
        Line::of_two(head, Style::bold(Color::White), name, Style::color(Color::DarkGray)),
    );
    assert(line_views(out@) =~= seq![first]);
    push_prompt(&mut out, turn.prompt.as_str());
    assert(line_views(out@) =~= seq![first, prompt_line(turn.prompt@)]);
    let summary = to_chars(turn.response_summary.as_str());
    if summary.len() > 0 {
        push_response(&mut out, turn.response_summary.as_str());
    } else {
        assert(line_views(out@) =~= line_views(out@) + Seq::<Seq<SpanView>>::empty());
    }
    render_file_diffs(&turn.diffs, &mut out);
    let ghost before = line_views(out@);
    push_blank(&mut out);
    assert(line_views(out@) =~= before + seq![blank_line()]);
    let height: u16 = height_of(out.len());
    TurnRow { lines: out, height }
}

/// The title over the checkpoints of a session.
pub fn detail_title(sessions: &Vec<SessionInfo>, index: usize) -> (title: String)
    ensures
        title@ == "Checkpoints — "@ + (if index < sessions@.len() {
            sessions@[index as int].title@
        } else {
            "Session"@
        }),
{
    let mut title = "Checkpoints — ".to_owned();
    if index < sessions.len() {
        title.append(sessions[index].title.as_str());
    } else {
        title.append("Session");
    }
    title
}

/// A session's line shows its title, its time and how many turns it has.
pub proof fn a_session_line_shows_it(s: SessionInfo, selected: bool)
    ensures
        info_spans(s, selected).len() == 4,
        info_spans(s, selected)[0].text == "  "@ + s.title@ + " "@,
        info_spans(s, selected)[0].style.reversed == selected,
        info_spans(s, selected)[2].text == s.timestamp@,
        info_spans(s, selected)[3].text == "  •  "@ + decimal(s.turn_count as nat) + " turns"@,
{
}

/// A checkpoint begins with its number and short name, then what was asked, as
/// far as it is shown; behind that stand the answer, where there is one, and
/// what changed.
pub proof fn a_checkpoint_shows_its_turn(turn: TurnInfo)
    ensures
        ({
            let drawn = checkpoint_lines(turn);
            let answer = if turn.response_summary@.len() == 0 {
                Seq::empty()
            } else {
                response_lines(turn.response_summary@)
            };
            let changes = diffs_lines(turn.diffs@);
            &&& drawn.len() == 2 + answer.len() + changes.len() + 1
            &&& drawn[0].len() == 2
            &&& drawn[0][0].text == "  #"@ + decimal(turn.turn_number as nat) + " "@
            &&& drawn[0][1].text == "("@ + turn.short_oid@ + ")"@
            &&& drawn[1] == prompt_line(turn.prompt@)
            &&& drawn.subrange(2, 2 + answer.len() as int) == answer
            &&& drawn.subrange(2 + answer.len() as int, drawn.len() - 1) == changes
        }),
{
    let drawn = checkpoint_lines(turn);
    let answer = if turn.response_summary@.len() == 0 {
        Seq::empty()
    } else {
        response_lines(turn.response_summary@)
    };
    let changes = diffs_lines(turn.diffs@);
    assert(drawn.subrange(2, 2 + answer.len() as int) =~= answer);
    assert(drawn.subrange(2 + answer.len() as int, drawn.len() - 1) =~= changes);
}

} // verus!
