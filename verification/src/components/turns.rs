//! A recorded turn as it is drawn: what was said, and what changed.

use crate::commands::{DiffStatus, TurnEntry};
use crate::geometry::{capped, height_of};
use crate::style::{
    colored, line_views, one_span, strong, two_spans, Color, Line, SpanView, Style,
};
use crate::text::{from_chars, lines, lines_of, to_chars, views};
use vstd::prelude::*;
use vstd::utf8::encode_utf8;

verus! {

/// How much of a prompt is shown.
pub const PROMPT_PREVIEW: usize = 120;

/// How much of a response is shown.
pub const RESPONSE_PREVIEW: usize = 200;

/// What a line of a diff is.
#[derive(Clone, Copy, Debug, PartialEq, Eq, Structural)]
pub enum DiffLineKind {
    Add,
    Remove,
    Context,
}

/// A line of a diff.
#[derive(Debug)]
pub struct DiffLine {
    pub kind: DiffLineKind,
    pub content: String,
}

/// A part of a file that changed.
#[derive(Debug)]
pub struct Hunk {
    pub header: String,
    pub lines: Vec<DiffLine>,
}

/// A file that changed.
#[derive(Debug)]
pub struct FileDiff {
    pub path: String,
    pub status: DiffStatus,
    pub hunks: Vec<Hunk>,
}

/// A turn as it is drawn.
#[derive(Debug)]
pub struct TurnRow {
    pub lines: Vec<Line>,
    pub height: u16,
}

/// The start of a text: as many characters as are shown, and dots where the
/// text has more bytes than that.
pub open spec fn preview(text: Seq<char>, n: nat) -> Seq<char> {
    let start = if text.len() > n {
        text.take(n as int)
    } else {
        text
    };
    if encode_utf8(text).len() > n {
        start + "..."@
    } else {
        start
    }
}

/// The start of a text.
pub fn preview_of(text: &str, n: usize) -> (r: String)
    ensures
        r@ == preview(text@, n as nat),
{
    let v = to_chars(text);
    let end: usize = if v.len() > n {
        n
    } else {
        v.len()
    };
    let mut start = from_chars(&v, 0, end);
    assert(start@ =~= (if text@.len() > n {
        text@.take(n as int)
    } else {
        text@
    }));
    if text.as_bytes().len() > n {
        start.append("...");
    }
    start
}

/// The lines of a response, as far as it is shown.
pub open spec fn response_lines(text: Seq<char>) -> Seq<Seq<SpanView>> {
    let shown = lines(preview(text, RESPONSE_PREVIEW as nat));
    Seq::new(shown.len(), |i: int| one_span("  "@ + shown[i], colored(Color::Cyan)))
}

/// The line of a prompt.
pub open spec fn prompt_line(text: Seq<char>) -> Seq<SpanView> {
    two_spans(
        "  > "@,
        strong(Color::Green),
        preview(text, PROMPT_PREVIEW as nat),
        colored(Color::Green),
    )
}

/// The lines of an entry.
pub open spec fn transcript_lines(entry: TurnEntry) -> Seq<Seq<SpanView>> {
    match entry {
        TurnEntry::Prompt { text } => seq![prompt_line(text@)],
        TurnEntry::Response { text } => response_lines(text@),
        TurnEntry::ToolCall { kind } => seq![
            two_spans("  tool "@, colored(Color::Yellow), kind@, strong(Color::White)),
        ],
    }
}

/// The lines of several entries.
pub open spec fn transcript(entries: Seq<TurnEntry>) -> Seq<Seq<SpanView>>
    decreases entries.len(),
{
    if entries.len() == 0 {
        Seq::empty()
    } else {
        transcript(entries.drop_last()) + transcript_lines(entries.last())
    }
}

/// Adds the line of a prompt.
pub(crate) fn push_prompt(out: &mut Vec<Line>, text: &str)
    ensures
        line_views(final(out)@) == line_views(old(out)@).push(prompt_line(text@)),
{
    let ghost was = line_views(out@);
    let shown = preview_of(text, PROMPT_PREVIEW);
    out.push(
        Line::of_two(
            "  > ".to_owned(),
            Style::bold(Color::Green),
            shown,
            Style::color(Color::Green),
        ),
    );
    assert(line_views(out@) =~= was.push(prompt_line(text@)));
}

/// Adds the lines of a response.
pub(crate) fn push_response(out: &mut Vec<Line>, text: &str)
    ensures
        line_views(final(out)@) == line_views(old(out)@) + response_lines(text@),
{
    let ghost was = line_views(out@);
    let ghost all = response_lines(text@);
    let display = preview_of(text, RESPONSE_PREVIEW);
    let shown = lines_of(display.as_str());
    let mut i: usize = 0;
    assert(views(shown@).len() == shown@.len());
    assert(line_views(out@) =~= was + all.take(0));
    while i < shown.len()
        invariant
            i <= shown@.len(),
            views(shown@) == lines(preview(text@, RESPONSE_PREVIEW as nat)),
            shown@.len() == lines(preview(text@, RESPONSE_PREVIEW as nat)).len(),
            all == response_lines(text@),
            line_views(out@) == was + all.take(i as int),
        decreases shown.len() - i,
    {
        let ghost before = line_views(out@);
        assert(views(shown@)[i as int] == shown@[i as int]@);
        let mut line = "  ".to_owned();
        line.append(shown[i].as_str());
        out.push(Line::of_one(line, Style::color(Color::Cyan)));
        assert(line_views(out@) =~= before.push(all[i as int]));
        assert(line_views(out@) =~= was + all.take(i + 1));
        i += 1;
    }
    assert(all.take(all.len() as int) =~= all);
}

fn push_transcript(out: &mut Vec<Line>, entry: &TurnEntry)
    ensures
        line_views(final(out)@) == line_views(old(out)@) + transcript_lines(*entry),
{
    let ghost was = line_views(out@);
    match entry {
        TurnEntry::Prompt { text } => {
            push_prompt(out, text.as_str());
            assert(line_views(out@) =~= was + transcript_lines(*entry));
        },
        TurnEntry::Response { text } => {
            push_response(out, text.as_str());
        },
        TurnEntry::ToolCall { kind } => {
            out.push(
                Line::of_two(
                    "  tool ".to_owned(),
                    Style::color(Color::Yellow),
                    kind.clone(),
                    Style::bold(Color::White),
                ),
            );
            assert(line_views(out@) =~= was + transcript_lines(*entry));
        },
    }
}

/// The letter of a change, and its color.
pub open spec fn change_mark(status: DiffStatus) -> (Seq<char>, Color) {
    match status {
        DiffStatus::Added => ("  A "@, Color::Green),
        DiffStatus::Modified => ("  M "@, Color::Yellow),
        DiffStatus::Deleted => ("  D "@, Color::Red),
        DiffStatus::Renamed { .. } => ("  R "@, Color::Cyan),
    }
}

/// The path of a change; a rename shows both.
pub open spec fn shown_path(file: FileDiff) -> Seq<char> {
    match file.status {
        DiffStatus::Renamed { old_path } => old_path@ + " -> "@ + file.path@,
        _ => file.path@,
    }
}

/// The line of a line of a diff.
pub open spec fn diff_line(line: DiffLine) -> Seq<SpanView> {
    match line.kind {
        DiffLineKind::Add => one_span("    +"@ + line.content@, colored(Color::Green)),
        DiffLineKind::Remove => one_span("    -"@ + line.content@, colored(Color::Red)),
        DiffLineKind::Context => one_span("     "@ + line.content@, colored(Color::Gray)),
    }
}

/// The lines of a hunk.
pub open spec fn hunk_lines(hunk: Hunk) -> Seq<Seq<SpanView>> {
    seq![one_span("    "@ + hunk.header@, colored(Color::DarkGray))] + Seq::new(
        hunk.lines@.len(),
        |i: int| diff_line(hunk.lines@[i]),
    )
}

/// The lines of several hunks.
pub open spec fn all_hunks(hunks: Seq<Hunk>) -> Seq<Seq<SpanView>>
    decreases hunks.len(),
{
    if hunks.len() == 0 {
        Seq::empty()
    } else {
        all_hunks(hunks.drop_last()) + hunk_lines(hunks.last())
    }
}

/// The lines of a file that changed.
pub open spec fn file_lines(file: FileDiff) -> Seq<Seq<SpanView>> {
    seq![
        two_spans(
            change_mark(file.status).0,
            colored(change_mark(file.status).1),
            shown_path(file),
            strong(Color::White),
        ),
    ] + all_hunks(file.hunks@)
}

/// The lines of several files.
pub open spec fn all_files(files: Seq<FileDiff>) -> Seq<Seq<SpanView>>
    decreases files.len(),
{
    if files.len() == 0 {
        Seq::empty()
    } else {
        all_files(files.drop_last()) + file_lines(files.last())
    }
}

/// A line with nothing on it.
pub open spec fn blank_line() -> Seq<SpanView> {
    one_span(""@, colored(Color::Plain))
}

/// What changed: nothing where nothing did, else a gap and the files.
pub open spec fn diffs_lines(files: Seq<FileDiff>) -> Seq<Seq<SpanView>> {
    if files.len() == 0 {
        Seq::empty()
    } else {
        seq![blank_line()] + all_files(files)
    }
}

/// Adds a line with nothing on it.
pub(crate) fn push_blank(out: &mut Vec<Line>)
    ensures
        line_views(final(out)@) == line_views(old(out)@).push(blank_line()),
{
    let ghost was = line_views(out@);
    out.push(Line::of_one("".to_owned(), Style::color(Color::Plain)));
    assert(line_views(out@) =~= was.push(blank_line()));
}

fn push_hunk(out: &mut Vec<Line>, hunk: &Hunk)
    ensures
        line_views(final(out)@) == line_views(old(out)@) + hunk_lines(*hunk),
{
    let ghost was = line_views(out@);
    let ghost all = hunk_lines(*hunk);
    let mut header = "    ".to_owned();
    header.append(hunk.header.as_str());
    out.push(Line::of_one(header, Style::color(Color::DarkGray)));
    assert(line_views(out@) =~= was + all.take(1));
    let mut i: usize = 0;
    while i < hunk.lines.len()
        invariant
            i <= hunk.lines@.len(),
            all == hunk_lines(*hunk),
            line_views(out@) == was + all.take(i + 1),
        decreases hunk.lines.len() - i,
    {
        let ghost before = line_views(out@);
        let line = &hunk.lines[i];
        let (lead, color) = match line.kind {
            DiffLineKind::Add => ("    +", Color::Green),
            DiffLineKind::Remove => ("    -", Color::Red),
            DiffLineKind::Context => ("     ", Color::Gray),
        };
        let mut text = lead.to_owned();
        text.append(line.content.as_str());
        out.push(Line::of_one(text, Style::color(color)));
        assert(line_views(out@) =~= before.push(all[i + 1]));
        assert(line_views(out@) =~= was + all.take(i + 2));
        i += 1;
    }
    assert(all.take(all.len() as int) =~= all);
}

fn push_file(out: &mut Vec<Line>, file: &FileDiff)
    ensures
        line_views(final(out)@) == line_views(old(out)@) + file_lines(*file),
{
    let ghost was = line_views(out@);
    let (mark, color) = match &file.status {
        DiffStatus::Added => ("  A ", Color::Green),
        DiffStatus::Modified => ("  M ", Color::Yellow),
        DiffStatus::Deleted => ("  D ", Color::Red),
        DiffStatus::Renamed { .. } => ("  R ", Color::Cyan),
    };
    let path = match &file.status {
        DiffStatus::Renamed { old_path } => {
            let mut path = old_path.clone();
            path.append(" -> ");
            path.append(file.path.as_str());
            path
        },
        _ => file.path.clone(),
    };
    out.push(
        Line::of_two(mark.to_owned(), Style::color(color), path, Style::bold(Color::White)),
    );
    let ghost head = line_views(out@);
    assert(head =~= was.push(
        two_spans(
            change_mark(file.status).0,
            colored(change_mark(file.status).1),
            shown_path(*file),
            strong(Color::White),
        ),
    ));
    let mut i: usize = 0;
    assert(line_views(out@) =~= head + all_hunks(file.hunks@.take(0)));
    while i < file.hunks.len()
        invariant
            i <= file.hunks@.len(),
            line_views(out@) == head + all_hunks(file.hunks@.take(i as int)),
        decreases file.hunks.len() - i,
    {
        assert(file.hunks@.take(i + 1).drop_last() =~= file.hunks@.take(i as int));
        push_hunk(out, &file.hunks[i]);
        assert(line_views(out@) =~= head + all_hunks(file.hunks@.take(i + 1)));
        i += 1;
    }
    assert(file.hunks@.take(file.hunks@.len() as int) =~= file.hunks@);
    assert(line_views(out@) =~= was + file_lines(*file));
}

/// Adds what changed.
pub(crate) fn render_file_diffs(files: &Vec<FileDiff>, out: &mut Vec<Line>)
    ensures
        line_views(final(out)@) == line_views(old(out)@) + diffs_lines(files@),
{
    let ghost was = line_views(out@);
    if files.len() == 0 {
        assert(line_views(out@) =~= was + diffs_lines(files@));
        return;
    }
    push_blank(out);
    let ghost head = line_views(out@);
    let mut i: usize = 0;
    assert(line_views(out@) =~= head + all_files(files@.take(0)));
    while i < files.len()
        invariant
            i <= files@.len(),
            line_views(out@) == head + all_files(files@.take(i as int)),
        decreases files.len() - i,
    {
        assert(files@.take(i + 1).drop_last() =~= files@.take(i as int));
        push_file(out, &files[i]);
        assert(line_views(out@) =~= head + all_files(files@.take(i + 1)));
        i += 1;
    }
    assert(files@.take(files@.len() as int) =~= files@);
    assert(line_views(out@) =~= was + diffs_lines(files@));
}

/// The lines of a turn: its name, what was said, what changed or why that could
/// not be read, and a gap.
pub open spec fn turn_row_lines(
    short: Seq<char>,
    entries: Seq<TurnEntry>,
    diffs: Result<Vec<FileDiff>, String>,
) -> Seq<Seq<SpanView>> {
    seq![
        two_spans(
            "  turn "@,
            strong(Color::White),
            "("@ + short + ")"@,
            colored(Color::DarkGray),
        ),
    ] + (if entries.len() == 0 {
        seq![one_span("  (no transcript captured)"@, colored(Color::DarkGray))]
    } else {
        transcript(entries)
    }) + (match diffs {
        Ok(files) => diffs_lines(files@),
        Err(error) => seq![
            one_span("  failed to load diff: "@ + error@, colored(Color::Red)),
        ],
    }) + seq![blank_line()]
}

/// A turn as it is drawn.
pub fn build_turn_row(
    short: &str,
    entries: &Vec<TurnEntry>,
    diffs: &Result<Vec<FileDiff>, String>,
) -> (row: TurnRow)
    ensures
        line_views(row.lines@) == turn_row_lines(short@, entries@, *diffs),
        row.height == capped(row.lines@.len() as int),
{
    let mut out: Vec<Line> = Vec::new();
    let mut name = "(".to_owned();
    name.append(short);
    name.append(")");
    let ghost shown = name@;
    out.push(
        Line::of_two(
            "  turn ".to_owned(),
            Style::bold(Color::White),
            name,
            Style::color(Color::DarkGray),
        ),
    );
    let ghost head = seq![
        two_spans("  turn "@, strong(Color::White), shown, colored(Color::DarkGray)),
    ];
    assert(line_views(out@) =~= head);
    if entries.len() == 0 {
        out.push(
            Line::of_one(
                "  (no transcript captured)".to_owned(),
                Style::color(Color::DarkGray),
            ),
        );
        assert(line_views(out@) =~= head + seq![
            one_span("  (no transcript captured)"@, colored(Color::DarkGray)),
        ]);
    } else {
        let mut i: usize = 0;
        assert(line_views(out@) =~= head + transcript(entries@.take(0)));
        while i < entries.len()
            invariant
                i <= entries@.len(),
                line_views(out@) == head + transcript(entries@.take(i as int)),
            decreases entries.len() - i,
        {
            assert(entries@.take(i + 1).drop_last() =~= entries@.take(i as int));
            push_transcript(&mut out, &entries[i]);
            assert(line_views(out@) =~= head + transcript(entries@.take(i + 1)));
            i += 1;
        }
        assert(entries@.take(entries@.len() as int) =~= entries@);
    }
    let ghost body = line_views(out@);
    match diffs {
        Ok(files) => {
            render_file_diffs(files, &mut out);
        },
        Err(error) => {
            let mut text = "  failed to load diff: ".to_owned();
            text.append(error.as_str());
            let ghost said = text@;
            out.push(Line::of_one(text, Style::color(Color::Red)));
            assert(line_views(out@) =~= body + seq![one_span(said, colored(Color::Red))]);
        },
    }
    let ghost before = line_views(out@);
    push_blank(&mut out);
    assert(line_views(out@) =~= before + seq![blank_line()]);
    let height: u16 = height_of(out.len());
    TurnRow { lines: out, height }
}

// ---------------------------------------------------------------------------
// Laws
// ---------------------------------------------------------------------------

/// A preview is the text, or begins as the text does for as many characters as
/// are shown; dots stand behind it exactly when the text has more bytes.
pub proof fn a_preview_is_the_start(text: Seq<char>, n: nat)
    ensures
        ({
            let shown = if text.len() > n {
                text.take(n as int)
            } else {
                text
            };
            &&& encode_utf8(text).len() <= n ==> preview(text, n) == shown
            &&& encode_utf8(text).len() > n ==> preview(text, n).len() == shown.len() + 3
            &&& preview(text, n).take(shown.len() as int) == shown
            &&& encode_utf8(text).len() > n ==> preview(text, n).skip(shown.len() as int) == "..."@
        }),
{
    let shown = if text.len() > n {
        text.take(n as int)
    } else {
        text
    };
    reveal_strlit("...");
    assert(preview(text, n).take(shown.len() as int) =~= shown);
    if encode_utf8(text).len() > n {
        assert(preview(text, n).skip(shown.len() as int) =~= "..."@);
    }
}

/// Whether a line of one part is drawn, with this text.
pub open spec fn draws(drawn: Seq<Seq<SpanView>>, text: Seq<char>) -> bool {
    exists|p: int| 0 <= p < drawn.len() && (#[trigger] drawn[p]).len() == 1 && drawn[p][0].text == text
}

/// Whether a line of two parts is drawn, with these texts.
pub open spec fn draws_both(drawn: Seq<Seq<SpanView>>, a: Seq<char>, b: Seq<char>) -> bool {
    exists|p: int|
        0 <= p < drawn.len() && (#[trigger] drawn[p]).len() == 2 && drawn[p][0].text == a
            && drawn[p][1].text == b
}

proof fn lemma_draws_more(
    before: Seq<Seq<SpanView>>,
    drawn: Seq<Seq<SpanView>>,
    after: Seq<Seq<SpanView>>,
)
    ensures
        forall|text: Seq<char>| draws(drawn, text) ==> #[trigger] draws(before + drawn + after, text),
        forall|a: Seq<char>, b: Seq<char>|
            draws_both(drawn, a, b) ==> #[trigger] draws_both(before + drawn + after, a, b),
{
    let all = before + drawn + after;
    assert forall|text: Seq<char>| draws(drawn, text) implies #[trigger] draws(all, text) by {
        let p = choose|p: int|
            0 <= p < drawn.len() && (#[trigger] drawn[p]).len() == 1 && drawn[p][0].text == text;
        assert(all[before.len() + p] == drawn[p]);
    }
    assert forall|a: Seq<char>, b: Seq<char>| draws_both(drawn, a, b) implies #[trigger] draws_both(
        all,
        a,
        b,
    ) by {
        let p = choose|p: int|
            0 <= p < drawn.len() && (#[trigger] drawn[p]).len() == 2 && drawn[p][0].text == a
                && drawn[p][1].text == b;
        assert(all[before.len() + p] == drawn[p]);
    }
}

proof fn lemma_hunk_is_drawn(hunks: Seq<Hunk>, h: int)
    requires
        0 <= h < hunks.len(),
    ensures
        exists|before: Seq<Seq<SpanView>>, after: Seq<Seq<SpanView>>|
            all_hunks(hunks) == before + hunk_lines(hunks[h]) + after,
    decreases hunks.len(),
{
    let rest = hunks.drop_last();
    if h < rest.len() {
        lemma_hunk_is_drawn(rest, h);
        let (before, after) = choose|before: Seq<Seq<SpanView>>, after: Seq<Seq<SpanView>>|
            all_hunks(rest) == before + hunk_lines(rest[h]) + after;
        let more = after + hunk_lines(hunks.last());
        assert(all_hunks(hunks) =~= before + hunk_lines(hunks[h]) + more);
    } else {
        assert(all_hunks(hunks) =~= all_hunks(rest) + hunk_lines(hunks[h]) + Seq::empty());
    }
}

proof fn lemma_file_is_drawn(files: Seq<FileDiff>, f: int)
    requires
        0 <= f < files.len(),
    ensures
        exists|before: Seq<Seq<SpanView>>, after: Seq<Seq<SpanView>>|
            all_files(files) == before + file_lines(files[f]) + after,
    decreases files.len(),
{
    let rest = files.drop_last();
    if f < rest.len() {
        lemma_file_is_drawn(rest, f);
        let (before, after) = choose|before: Seq<Seq<SpanView>>, after: Seq<Seq<SpanView>>|
            all_files(rest) == before + file_lines(rest[f]) + after;
        let more = after + file_lines(files.last());
        assert(all_files(files) =~= before + file_lines(files[f]) + more);
    } else {
        assert(all_files(files) =~= all_files(rest) + file_lines(files[f]) + Seq::empty());
    }
}

proof fn lemma_entry_is_drawn(entries: Seq<TurnEntry>, i: int)
    requires
        0 <= i < entries.len(),
    ensures
        exists|before: Seq<Seq<SpanView>>, after: Seq<Seq<SpanView>>|
            transcript(entries) == before + transcript_lines(entries[i]) + after,
    decreases entries.len(),
{
    let rest = entries.drop_last();
    if i < rest.len() {
        lemma_entry_is_drawn(rest, i);
        let (before, after) = choose|before: Seq<Seq<SpanView>>, after: Seq<Seq<SpanView>>|
            transcript(rest) == before + transcript_lines(rest[i]) + after;
        let more = after + transcript_lines(entries.last());
        assert(transcript(entries) =~= before + transcript_lines(entries[i]) + more);
    } else {
        assert(transcript(entries) =~= transcript(rest) + transcript_lines(entries[i])
            + Seq::empty());
    }
}

/// Everything that a turn changed is drawn: every file by a letter for what was
/// done to it and its path, the former path too where it was renamed; the head
/// of every hunk; and every line of it, behind a plus where it was added, a
/// minus where it was taken out, and a space where it stayed.
pub proof fn every_change_of_a_turn_is_drawn(
    short: Seq<char>,
    entries: Seq<TurnEntry>,
    files: Vec<FileDiff>,
    f: int,
)
    requires
        0 <= f < files@.len(),
    ensures
        ({
            let drawn = turn_row_lines(short, entries, Ok(files));
            let file = files@[f];
            &&& match file.status {
                DiffStatus::Added => draws_both(drawn, "  A "@, file.path@),
                DiffStatus::Modified => draws_both(drawn, "  M "@, file.path@),
                DiffStatus::Deleted => draws_both(drawn, "  D "@, file.path@),
                DiffStatus::Renamed { old_path } => draws_both(
                    drawn,
                    "  R "@,
                    old_path@ + " -> "@ + file.path@,
                ),
            }
            &&& forall|h: int|
                0 <= h < file.hunks@.len() ==> {
                    let hunk = #[trigger] file.hunks@[h];
                    &&& draws(drawn, "    "@ + hunk.header@)
                    &&& forall|l: int|
                        0 <= l < hunk.lines@.len() ==> {
                            let line = #[trigger] hunk.lines@[l];
                            match line.kind {
                                DiffLineKind::Add => draws(drawn, "    +"@ + line.content@),
                                DiffLineKind::Remove => draws(drawn, "    -"@ + line.content@),
                                DiffLineKind::Context => draws(drawn, "     "@ + line.content@),
                            }
                        }
                }
        }),
{
    let drawn = turn_row_lines(short, entries, Ok(files));
    let file = files@[f];
    lemma_file_is_drawn(files@, f);
    let (a, z) = choose|before: Seq<Seq<SpanView>>, after: Seq<Seq<SpanView>>|
        all_files(files@) == before + file_lines(file) + after;
    let head = seq![
        two_spans(
            "  turn "@,
            strong(Color::White),
            "("@ + short + ")"@,
            colored(Color::DarkGray),
        ),
    ] + (if entries.len() == 0 {
        seq![one_span("  (no transcript captured)"@, colored(Color::DarkGray))]
    } else {
        transcript(entries)
    });
    let own = file_lines(file);
    assert(drawn =~= (head + seq![blank_line()] + a) + own + (z + seq![blank_line()]));
    lemma_draws_more(head + seq![blank_line()] + a, own, z + seq![blank_line()]);
    assert(own[0].len() == 2);
    assert(draws_both(own, change_mark(file.status).0, shown_path(file)));
    assert forall|h: int| 0 <= h < file.hunks@.len() implies {
        let hunk = #[trigger] file.hunks@[h];
        &&& draws(drawn, "    "@ + hunk.header@)
        &&& forall|l: int|
            0 <= l < hunk.lines@.len() ==> {
                let line = #[trigger] hunk.lines@[l];
                match line.kind {
                    DiffLineKind::Add => draws(drawn, "    +"@ + line.content@),
                    DiffLineKind::Remove => draws(drawn, "    -"@ + line.content@),
                    DiffLineKind::Context => draws(drawn, "     "@ + line.content@),
                }
            }
    } by {
        let hunk = file.hunks@[h];
        let some = hunk_lines(hunk);
        lemma_hunk_is_drawn(file.hunks@, h);
        let (b, y) = choose|before: Seq<Seq<SpanView>>, after: Seq<Seq<SpanView>>|
            all_hunks(file.hunks@) == before + some + after;
        assert(own =~= (seq![own[0]] + b) + some + y);
        lemma_draws_more(seq![own[0]] + b, some, y);
        assert(some[0].len() == 1 && some[0][0].text == "    "@ + hunk.header@);
        assert(draws(some, "    "@ + hunk.header@));
        assert(draws(own, "    "@ + hunk.header@));
        assert forall|l: int| 0 <= l < hunk.lines@.len() implies {
            let line = #[trigger] hunk.lines@[l];
            match line.kind {
                DiffLineKind::Add => draws(drawn, "    +"@ + line.content@),
                DiffLineKind::Remove => draws(drawn, "    -"@ + line.content@),
                DiffLineKind::Context => draws(drawn, "     "@ + line.content@),
            }
        } by {
            let line = hunk.lines@[l];
            assert(some[l + 1] == diff_line(line));
            let text = diff_line(line)[0].text;
            assert(some[l + 1].len() == 1 && some[l + 1][0].text == text);
            assert(draws(some, text));
            assert(draws(own, text));
            assert(draws(drawn, text));
        }
    }
}

/// Everything that was said in a turn is drawn: every prompt and tool call, and
/// every line of every response, as far as it is shown.
pub proof fn every_entry_of_a_turn_is_drawn(
    short: Seq<char>,
    entries: Seq<TurnEntry>,
    diffs: Result<Vec<FileDiff>, String>,
    i: int,
)
    requires
        0 <= i < entries.len(),
    ensures
        ({
            let drawn = turn_row_lines(short, entries, diffs);
            match entries[i] {
                TurnEntry::Prompt { text } => draws_both(
                    drawn,
                    "  > "@,
                    preview(text@, PROMPT_PREVIEW as nat),
                ),
                TurnEntry::ToolCall { kind } => draws_both(drawn, "  tool "@, kind@),
                TurnEntry::Response { text } => {
                    let shown = lines(preview(text@, RESPONSE_PREVIEW as nat));
                    forall|k: int|
                        0 <= k < shown.len() ==> draws(drawn, "  "@ + #[trigger] shown[k])
                },
            }
        }),
{
    let drawn = turn_row_lines(short, entries, diffs);
    let some = transcript_lines(entries[i]);
    lemma_entry_is_drawn(entries, i);
    let (a, z) = choose|before: Seq<Seq<SpanView>>, after: Seq<Seq<SpanView>>|
        transcript(entries) == before + some + after;
    let head = drawn[0];
    let tail = drawn.skip(1 + transcript(entries).len() as int);
    assert(drawn =~= (seq![head] + a) + some + (z + tail));
    lemma_draws_more(seq![head] + a, some, z + tail);
    match entries[i] {
        TurnEntry::Prompt { text } => {
            assert(some[0].len() == 2);
            assert(draws_both(some, "  > "@, preview(text@, PROMPT_PREVIEW as nat)));
        },
        TurnEntry::ToolCall { kind } => {
            assert(some[0].len() == 2);
            assert(draws_both(some, "  tool "@, kind@));
        },
        TurnEntry::Response { text } => {
            let shown = lines(preview(text@, RESPONSE_PREVIEW as nat));
            assert forall|k: int| 0 <= k < shown.len() implies draws(
                drawn,
                "  "@ + #[trigger] shown[k],
            ) by {
                assert(some[k].len() == 1 && some[k][0].text == "  "@ + shown[k]);
                assert(draws(some, "  "@ + shown[k]));
            }
        },
    }
}

/// A turn whose changes could not be read says why.
pub proof fn a_failed_diff_is_drawn(short: Seq<char>, entries: Seq<TurnEntry>, error: String)
    ensures
        draws(turn_row_lines(short, entries, Err(error)), "  failed to load diff: "@ + error@),
{
    let drawn = turn_row_lines(short, entries, Err(error));
    let line = one_span("  failed to load diff: "@ + error@, colored(Color::Red));
    assert(drawn[drawn.len() - 2] == line);
}

} // verus!
