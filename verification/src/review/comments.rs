//! Review comments outside a window: leaving one, answering one, listing and
//! exporting them.
//!
//! A comment names a blob and a range of its lines, so it shows in every view
//! that has those lines. Line numbers come in counted from one on the new
//! side, and every anchor is checked against the diff before anything is
//! stored.

use crate::diff::{opt_text, Oid};
use crate::order::{
    is_stable_order, is_text_before, lemma_text_order, stable_order, text_before, SortKey,
};
use crate::review::import::{
    endpoint, endpoint_text, lines_shown, push_ranges, ranges_text, shown_lines, Entry,
};
use crate::review::store::{
    comment_views, root_place, thread_key_of, Anchor, Comment, CommentView, Cursors, Store,
};
use crate::text::{
    begins, decimal, each_part_stands_in_the_join, find_first, find_last, first_of, from_chars,
    is_digit, join, joined, last_of, lemma_same_either_way, lemma_stands_between, number, occurs,
    parse_up_to, parse_value, pieces, split, to_chars, trim, trim_start, trimmed, unsigned_part,
    views,
};
use vstd::prelude::*;

verus! {

// ---------------------------------------------------------------------------
// Anchors
// ---------------------------------------------------------------------------

/// A text without the character at its end, however often it stands there.
pub open spec fn without_trailing(s: Seq<char>, c: char) -> Seq<char>
    decreases s.len(),
{
    if s.len() > 0 && s.last() == c {
        without_trailing(s.drop_last(), c)
    } else {
        s
    }
}

/// A text without the character at its start, however often it stands there.
pub open spec fn without_leading(s: Seq<char>, c: char) -> Seq<char>
    decreases s.len(),
{
    if s.len() > 0 && s[0] == c {
        without_leading(s.drop_first(), c)
    } else {
        s
    }
}

fn drop_trailing(s: &str, c: char) -> (r: String)
    ensures
        r@ == without_trailing(s@, c),
{
    let v = to_chars(s);
    let mut end: usize = v.len();
    assert(v@.take(end as int) =~= v@);
    while end > 0 && v[end - 1] == c
        invariant
            end <= v@.len(),
            without_trailing(v@, c) == without_trailing(v@.take(end as int), c),
        decreases end,
    {
        assert(v@.take(end as int).drop_last() =~= v@.take(end - 1));
        end -= 1;
    }
    let r = from_chars(&v, 0, end);
    assert(r@ =~= v@.take(end as int));
    r
}

fn drop_leading(s: &str, c: char) -> (r: String)
    ensures
        r@ == without_leading(s@, c),
{
    let v = to_chars(s);
    let mut start: usize = 0;
    assert(v@.skip(0) =~= v@);
    while start < v.len() && v[start] == c
        invariant
            start <= v@.len(),
            without_leading(v@, c) == without_leading(v@.skip(start as int), c),
        decreases v.len() - start,
    {
        assert(v@.skip(start as int).drop_first() =~= v@.skip(start + 1));
        start += 1;
    }
    let r = from_chars(&v, start, v.len());
    assert(r@ =~= v@.skip(start as int));
    r
}

/// Where a comment is to go: a file and lines of it, counted from one.
#[derive(Debug)]
pub struct LineSpec {
    pub path: String,
    /// The path without slashes at its end, by which the file is looked up.
    pub lookup: String,
    pub start: u32,
    pub end: u32,
}

/// What an anchor says, `<path>:<start>[-<end>]`: the file, and the lines in
/// their order; or what is wrong with it.
pub open spec fn anchor_meaning(spec: Seq<char>) -> Result<(Seq<char>, nat, nat), Seq<char>> {
    match last_of(spec, ':') {
        None => Err("error: anchor must be <path>:<start>[-<end>]"@),
        Some(colon) => {
            let lines = spec.skip(colon + 1);
            let ends = match first_of(lines, '-') {
                Some(dash) => (lines.take(dash), lines.skip(dash + 1)),
                None => (lines, lines),
            };
            match (
                parse_value(trim(ends.0), u32::MAX as nat),
                parse_value(trim(ends.1), u32::MAX as nat),
            ) {
                (Some(a), Some(b)) => if a == 0 || b == 0 {
                    Err("error: lines are 1-based"@)
                } else {
                    Ok(
                        (
                            spec.take(colon),
                            if a < b {
                                a
                            } else {
                                b
                            },
                            if a < b {
                                b
                            } else {
                                a
                            },
                        ),
                    )
                },
                _ => Err(
                    "error: cannot parse line range `"@ + lines
                        + "` — lines are 1-based new-side numbers"@,
                ),
            }
        },
    }
}

/// Reads an anchor.
pub fn parse_anchor(spec: &str) -> (r: Result<LineSpec, String>)
    ensures
        (match r {
            Ok(at) => anchor_meaning(spec@) == Ok::<(Seq<char>, nat, nat), Seq<char>>(
                (at.path@, at.start as nat, at.end as nat),
            ) && at.lookup@ == without_trailing(at.path@, '/') && 0 < at.start <= at.end,
            Err(e) => anchor_meaning(spec@) == Err::<(Seq<char>, nat, nat), Seq<char>>(e@),
        }),
{
    let v = to_chars(spec);
    assert(v@.take(v@.len() as int) =~= v@);
    let colon: usize = match find_last(&v, v.len(), ':') {
        Some(colon) => colon,
        None => {
            return Err("error: anchor must be <path>:<start>[-<end>]".to_owned());
        },
    };
    let lines = from_chars(&v, colon + 1, v.len());
    assert(lines@ =~= v@.skip(colon + 1));
    let w = to_chars(lines.as_str());
    let (first, last) = match find_first(&w, '-') {
        Some(dash) => {
            let first = from_chars(&w, 0, dash);
            let last = from_chars(&w, dash + 1, w.len());
            assert(first@ =~= w@.take(dash as int));
            assert(last@ =~= w@.skip(dash + 1));
            (first, last)
        },
        None => (lines.clone(), lines.clone()),
    };
    let a = parse_up_to(trimmed(first.as_str()).as_str(), u32::MAX as u64);
    let b = parse_up_to(trimmed(last.as_str()).as_str(), u32::MAX as u64);
    match (a, b) {
        (Some(a), Some(b)) => {
            if a == 0 || b == 0 {
                return Err("error: lines are 1-based".to_owned());
            }
            let path = from_chars(&v, 0, colon);
            assert(path@ =~= v@.take(colon as int));
            let lookup = drop_trailing(path.as_str(), '/');
            let (start, end) = if a < b {
                (a as u32, b as u32)
            } else {
                (b as u32, a as u32)
            };
            Ok(LineSpec { path, lookup, start, end })
        },
        _ => {
            let mut text = "error: cannot parse line range `".to_owned();
            text.append(lines.as_str());
            text.append("` — lines are 1-based new-side numbers");
            Err(text)
        },
    }
}

/// A line of a file that the diff shows: its number, and where its text is.
#[derive(Clone, Copy, Debug, PartialEq, Eq, Structural)]
pub struct NumberedLine {
    pub number: u32,
    pub blob: Oid,
    pub index: u32,
}

/// A file of the diff: its new-side lines, and links to its reviewable ranges.
#[derive(Debug)]
pub struct FileLines {
    pub path: String,
    pub lines: Vec<NumberedLine>,
    pub ranges: Vec<String>,
}

/// The first line with a number.
pub open spec fn line_numbered(lines: Seq<NumberedLine>, number: u32) -> Option<NumberedLine>
    decreases lines.len(),
{
    if lines.len() == 0 {
        None
    } else {
        match line_numbered(lines.drop_last(), number) {
            Some(line) => Some(line),
            None => if lines.last().number == number {
                Some(lines.last())
            } else {
                None
            },
        }
    }
}

proof fn lemma_line_found(lines: Seq<NumberedLine>, number: u32, n: int)
    requires
        0 <= n <= lines.len(),
        line_numbered(lines.take(n), number) is Some,
    ensures
        line_numbered(lines, number) == line_numbered(lines.take(n), number),
    decreases lines.len() - n,
{
    if n == lines.len() {
        assert(lines.take(n) =~= lines);
    } else {
        assert(lines.take(n + 1).drop_last() =~= lines.take(n));
        lemma_line_found(lines, number, n + 1);
    }
}

fn find_line(lines: &Vec<NumberedLine>, number: u32) -> (r: Option<NumberedLine>)
    ensures
        r == line_numbered(lines@, number),
{
    let mut i: usize = 0;
    while i < lines.len()
        invariant
            i <= lines@.len(),
            line_numbered(lines@.take(i as int), number) is None,
        decreases lines.len() - i,
    {
        assert(lines@.take(i + 1).drop_last() =~= lines@.take(i as int));
        if lines[i].number == number {
            proof {
                lemma_line_found(lines@, number, i + 1);
            }
            return Some(lines[i]);
        }
        i += 1;
    }
    assert(lines@.take(lines@.len() as int) =~= lines@);
    None
}

/// The numbers from `start` up to but not including `end` that the diff does
/// not show.
pub open spec fn missing_lines(lines: Seq<NumberedLine>, start: int, end: int) -> Seq<u32>
    decreases end - start,
{
    if end <= start {
        Seq::empty()
    } else if line_numbered(lines, (end - 1) as u32) is Some {
        missing_lines(lines, start, end - 1)
    } else {
        missing_lines(lines, start, end - 1).push((end - 1) as u32)
    }
}

/// Where an anchor is in the diff, or what is said of one that is not. Every
/// line of the range must be in the diff.
pub open spec fn placing(
    path: Seq<char>,
    start: u32,
    end: u32,
    file: Option<FileLines>,
) -> Result<(Seq<char>, Anchor), Seq<Seq<char>>> {
    match file {
        None => Err(
            seq![
                "error: `"@ + path + "` is not part of this diff"@,
                "       run `concats manifest` for the reviewable files"@,
            ],
        ),
        Some(file) => {
            let missing = missing_lines(file.lines@, start as int, end + 1);
            if missing.len() > 0 {
                Err(
                    seq![
                        "error: line(s) "@ + shown_lines(missing) + " of "@ + file.path@
                            + " are not part of this diff"@,
                    ] + ranges_text(views(file.ranges@)),
                )
            } else {
                let first = line_numbered(file.lines@, start)->0;
                let last = line_numbered(file.lines@, end)->0;
                Ok(
                    (
                        file.path@,
                        Anchor { blob: first.blob, start: first.index, end: last.index },
                    ),
                )
            }
        },
    }
}

proof fn lemma_none_missing(lines: Seq<NumberedLine>, start: int, end: int, n: int)
    requires
        start <= n < end,
        0 <= start,
        end <= u32::MAX + 1,
        missing_lines(lines, start, end).len() == 0,
    ensures
        line_numbered(lines, n as u32) is Some,
    decreases end - start,
{
    if n < end - 1 {
        lemma_none_missing(lines, start, end - 1, n);
    }
}

/// Places an anchor in the file that it names, if the diff has that file.
pub fn place_anchor(at: &LineSpec, file: &Option<FileLines>) -> (r: Result<
    (String, Anchor),
    Vec<String>,
>)
    requires
        at.start <= at.end,
    ensures
        (match r {
            Ok((path, anchor)) => placing(at.path@, at.start, at.end, *file) == Ok::<
                (Seq<char>, Anchor),
                Seq<Seq<char>>,
            >((path@, anchor)),
            Err(lines) => placing(at.path@, at.start, at.end, *file) == Err::<
                (Seq<char>, Anchor),
                Seq<Seq<char>>,
            >(views(lines@)),
        }),
{
    match file {
        None => {
            let mut first = "error: `".to_owned();
            first.append(at.path.as_str());
            first.append("` is not part of this diff");
            let ghost said = first@;
            let mut lines: Vec<String> = Vec::new();
            lines.push(first);
            lines.push("       run `concats manifest` for the reviewable files".to_owned());
            assert(views(lines@) =~= seq![
                said,
                "       run `concats manifest` for the reviewable files"@,
            ]);
            Err(lines)
        },
        Some(file) => {
            let mut missing: Vec<u32> = Vec::new();
            let mut n: u64 = at.start as u64;
            let end: u64 = at.end as u64 + 1;
            while n < end
                invariant
                    at.start <= n <= end,
                    end == at.end + 1,
                    missing@ == missing_lines(file.lines@, at.start as int, n as int),
                decreases end - n,
            {
                if find_line(&file.lines, n as u32).is_none() {
                    missing.push(n as u32);
                }
                n += 1;
            }
            if missing.len() > 0 {
                let shown = lines_shown(&missing);
                let mut first = "error: line(s) ".to_owned();
                first.append(shown.as_str());
                first.append(" of ");
                first.append(file.path.as_str());
                first.append(" are not part of this diff");
                let ghost said = first@;
                let mut lines: Vec<String> = Vec::new();
                lines.push(first);
                assert(views(lines@) =~= seq![said]);
                push_ranges(&mut lines, &file.ranges);
                return Err(lines);
            }
            proof {
                lemma_none_missing(file.lines@, at.start as int, end as int, at.start as int);
                lemma_none_missing(file.lines@, at.start as int, end as int, at.end as int);
            }
            match (find_line(&file.lines, at.start), find_line(&file.lines, at.end)) {
                (Some(first), Some(last)) => Ok(
                    (
                        file.path.clone(),
                        Anchor { blob: first.blob, start: first.index, end: last.index },
                    ),
                ),
                _ => Err(Vec::new()),
            }
        },
    }
}

/// An anchor that is placed lies in the diff with every one of its lines.
pub proof fn a_placed_anchor_is_in_the_diff(
    path: Seq<char>,
    start: u32,
    end: u32,
    file: FileLines,
    n: u32,
)
    requires
        placing(path, start, end, Some(file)) is Ok,
        start <= n <= end,
    ensures
        line_numbered(file.lines@, n) is Some,
{
    lemma_none_missing(file.lines@, start as int, end + 1, n as int);
}

/// An anchor that is placed keeps both of its ends: it starts at a line of the
/// file that has the first number, in the text that line is in, and ends at a
/// line of the file that has the last number.
pub proof fn a_placed_anchor_has_both_ends(
    path: Seq<char>,
    start: u32,
    end: u32,
    file: FileLines,
)
    requires
        start <= end,
    ensures
        placing(path, start, end, Some(file)) matches Ok((placed, anchor)) ==> {
            &&& placed == file.path@
            &&& exists|i: int|
                0 <= i < file.lines@.len() && (#[trigger] file.lines@[i]).number == start
                    && file.lines@[i].index == anchor.start && file.lines@[i].blob == anchor.blob
            &&& exists|j: int|
                0 <= j < file.lines@.len() && (#[trigger] file.lines@[j]).number == end
                    && file.lines@[j].index == anchor.end
        },
{
    if placing(path, start, end, Some(file)) is Ok {
        a_placed_anchor_is_in_the_diff(path, start, end, file, start);
        a_placed_anchor_is_in_the_diff(path, start, end, file, end);
        lemma_line_numbered(file.lines@, start);
        lemma_line_numbered(file.lines@, end);
    }
}

/// An anchor is placed exactly where the diff has its file and shows a line
/// for every number of its range.
pub proof fn an_anchor_is_placed_where_every_line_is_shown(
    path: Seq<char>,
    start: u32,
    end: u32,
    file: Option<FileLines>,
)
    requires
        start <= end,
    ensures
        placing(path, start, end, file) is Ok <==> (file matches Some(file) && forall|n: u32|
            start <= n <= end ==> #[trigger] shows(file.lines@, n)),
{
    match file {
        Some(file) => {
            let missing = missing_lines(file.lines@, start as int, end + 1);
            if missing.len() == 0 {
                assert forall|n: u32| start <= n <= end implies #[trigger] shows(
                    file.lines@,
                    n,
                ) by {
                    lemma_none_missing(file.lines@, start as int, end + 1, n as int);
                    lemma_line_numbered(file.lines@, n);
                }
            } else {
                lemma_missing(file.lines@, start as int, end + 1);
                let n = missing[0];
                assert(!shows(file.lines@, n));
            }
        },
        None => {},
    }
}

/// Whether a file shows a line with a number.
pub open spec fn shows(lines: Seq<NumberedLine>, number: u32) -> bool {
    exists|i: int| 0 <= i < lines.len() && (#[trigger] lines[i]).number == number
}

/// The numbers that are said to be missing are those of the range that no line
/// has, lowest first.
proof fn lemma_missing(lines: Seq<NumberedLine>, start: int, end: int)
    requires
        0 <= start,
        end <= u32::MAX + 1,
    ensures
        forall|k: int|
            0 <= k < missing_lines(lines, start, end).len() ==> start <= (
            #[trigger] missing_lines(lines, start, end)[k]) < end && !shows(
                lines,
                missing_lines(lines, start, end)[k],
            ),
    decreases end - start,
{
    if end > start {
        lemma_missing(lines, start, end - 1);
        lemma_line_numbered(lines, (end - 1) as u32);
        let before = missing_lines(lines, start, end - 1);
        let all = missing_lines(lines, start, end);
        assert forall|k: int| 0 <= k < all.len() implies start <= (#[trigger] all[k]) < end
            && !shows(lines, all[k]) by {
            if k < before.len() {
                assert(all[k] == before[k]);
            }
        }
    }
}

proof fn lemma_line_numbered(lines: Seq<NumberedLine>, number: u32)
    ensures
        (match line_numbered(lines, number) {
            Some(line) => line.number == number && exists|i: int|
                0 <= i < lines.len() && #[trigger] lines[i] == line,
            None => !shows(lines, number),
        }),
    decreases lines.len(),
{
    if lines.len() > 0 {
        let before = lines.drop_last();
        lemma_line_numbered(before, number);
        match line_numbered(before, number) {
            Some(line) => {
                let i = choose|i: int| 0 <= i < before.len() && #[trigger] before[i] == line;
                assert(lines[i] == line);
            },
            None => {
                if lines.last().number != number {
                    if shows(lines, number) {
                        let i = choose|i: int|
                            0 <= i < lines.len() && (#[trigger] lines[i]).number == number;
                        assert(before[i].number == number);
                    }
                } else {
                    assert(lines[lines.len() - 1] == lines.last());
                }
            },
        }
    }
}

/// A colon that is followed by none is the last one.
proof fn lemma_last_colon(a: Seq<char>, b: Seq<char>)
    requires
        forall|i: int| 0 <= i < b.len() ==> b[i] != ':',
    ensures
        last_of(a.push(':') + b, ':') == Some(a.len() as int),
    decreases b.len(),
{
    let s = a.push(':') + b;
    if b.len() > 0 {
        lemma_last_colon(a, b.drop_last());
        assert(s.drop_last() =~= a.push(':') + b.drop_last());
        assert(s.last() == b.last());
    } else {
        assert(s.last() == ':');
    }
}

/// A dash that follows none is the first one.
proof fn lemma_first_dash(a: Seq<char>, b: Seq<char>)
    requires
        forall|i: int| 0 <= i < a.len() ==> a[i] != '-',
    ensures
        first_of(a.push('-') + b, '-') == Some(a.len() as int),
        first_of(a, '-') is None,
    decreases a.len(),
{
    let s = a.push('-') + b;
    if a.len() > 0 {
        lemma_first_dash(a.drop_first(), b);
        assert(s.drop_first() =~= a.drop_first().push('-') + b);
        assert(s[0] == a[0]);
    } else {
        assert(s[0] == '-');
    }
}

/// The digits of a number are read back as that number.
proof fn lemma_digits_read_back(n: nat)
    requires
        n <= u32::MAX,
    ensures
        forall|i: int| 0 <= i < decimal(n).len() ==> is_digit(#[trigger] decimal(n)[i]),
        parse_value(trim(decimal(n)), u32::MAX as nat) == Some(n),
{
    crate::commands::lemma_decimal_reads_back(n);
    let d = decimal(n);
    assert(is_digit(d[0]));
    assert(is_digit(d[d.len() - 1]));
    assert(trim_start(d) == d);
    assert(trim(d) == d);
    assert(unsigned_part(d) == d);
}

/// An anchor that is written as a path, a colon and two line numbers reads
/// back as that path and those lines, the lower one first; with one number, as
/// that line.
pub proof fn a_written_anchor_reads_back(path: Seq<char>, a: nat, b: nat)
    requires
        0 < a <= u32::MAX,
        0 < b <= u32::MAX,
    ensures
        anchor_meaning(path + ":"@ + decimal(a) + "-"@ + decimal(b)) matches Ok((p, start, end))
            && p == path && start <= end && ((start == a && end == b) || (start == b && end == a)),
        anchor_meaning(path + ":"@ + decimal(a)) == Ok::<(Seq<char>, nat, nat), Seq<char>>(
            (path, a, a),
        ),
{
    reveal_strlit(":");
    reveal_strlit("-");
    lemma_digits_read_back(a);
    lemma_digits_read_back(b);
    let da = decimal(a);
    let db = decimal(b);
    assert forall|i: int| 0 <= i < da.len() implies da[i] != ':' && da[i] != '-' by {
        assert(is_digit(da[i]));
    }
    assert forall|i: int| 0 <= i < db.len() implies db[i] != ':' by {
        assert(is_digit(db[i]));
    }
    let one = path + ":"@ + da;
    lemma_last_colon(path, da);
    assert(one =~= path.push(':') + da);
    assert(one.skip(path.len() as int + 1) =~= da);
    assert(one.take(path.len() as int) =~= path);
    lemma_first_dash(da, db);
    let two = path + ":"@ + da + "-"@ + db;
    let range = da.push('-') + db;
    lemma_last_colon(path, range);
    assert(two =~= path.push(':') + range);
    assert(two.skip(path.len() as int + 1) =~= range);
    assert(two.take(path.len() as int) =~= path);
    assert(range.take(da.len() as int) =~= da);
    assert(range.skip(da.len() as int + 1) =~= db);
}

// ---------------------------------------------------------------------------
// Adding and answering
// ---------------------------------------------------------------------------

/// A comment's words, without the space around them; none is not a comment.
pub fn non_empty(body: &str) -> (r: Result<String, String>)
    ensures
        (match r {
            Ok(text) => trim(body@).len() > 0 && text@ == trim(body@),
            Err(e) => trim(body@).len() == 0 && e@ == "error: empty comment body"@,
        }),
{
    let text = trimmed(body);
    let v = to_chars(text.as_str());
    if v.len() == 0 {
        Err("error: empty comment body".to_owned())
    } else {
        Ok(text)
    }
}

/// The id of a comment as a command names it, `3` or `#3`.
pub fn parse_id(id: &str) -> (r: Result<u64, String>)
    ensures
        (match r {
            Ok(n) => parse_value(without_leading(id@, '#'), u64::MAX as nat) == Some(n as nat),
            Err(e) => parse_value(without_leading(id@, '#'), u64::MAX as nat) is None && e@
                == "error: `"@ + id@
                + "` is not a comment id — run `concats comments` for the stored ones"@,
        }),
{
    let digits = drop_leading(id, '#');
    match parse_up_to(digits.as_str(), u64::MAX) {
        Some(n) => Ok(n),
        None => {
            let mut text = "error: `".to_owned();
            text.append(id);
            text.append("` is not a comment id — run `concats comments` for the stored ones");
            Err(text)
        },
    }
}

/// Lines of a file as they are shown, counted from one.
pub open spec fn lines_text(path: Seq<char>, at: Anchor) -> Seq<char> {
    path + ":"@ + decimal((at.start + 1) as nat) + "–"@ + decimal((at.end + 1) as nat)
}

fn shown_at(path: &str, at: Anchor) -> (text: String)
    ensures
        text@ == lines_text(path@, at),
{
    let start = number(at.start as u64 + 1);
    let end = number(at.end as u64 + 1);
    let mut text = path.to_owned();
    text.append(":");
    text.append(start.as_str());
    text.append("–");
    text.append(end.as_str());
    text
}

/// Where a comment goes, and its cursors in the file's document.
#[derive(Debug)]
pub struct Spot {
    pub path: String,
    pub anchor: Anchor,
    pub cursors: Option<Cursors>,
}

/// A comment at a spot.
pub open spec fn comment_at(
    id: u64,
    spot: Spot,
    body: Seq<char>,
    author: Option<Seq<char>>,
    now: u64,
    parent: Option<u64>,
) -> CommentView {
    CommentView {
        id,
        path: spot.path@,
        anchor: spot.anchor,
        body,
        author,
        created_at: now,
        parent,
        external: None,
        cursors: crate::review::store::cursors_view(spot.cursors),
    }
}

/// Leaves a comment, and says where.
pub fn add(store: &mut Store, spot: Spot, body: String, author: Option<String>, now: u64) -> (text:
    String)
    requires
        old(store).wf(),
        old(store).next < u64::MAX,
    ensures
        final(store).wf(),
        final(store).next == old(store).next + 1,
        comment_views(final(store).comments@) == comment_views(old(store).comments@).push(
            comment_at(old(store).next, spot, body@, opt_text(author), now, None),
        ),
        text@ == "added comment #"@ + decimal(old(store).next as nat) + " on "@ + lines_text(
            spot.path@,
            spot.anchor,
        ),
{
    let at = shown_at(spot.path.as_str(), spot.anchor);
    let id: u64 = store.add_comment(
        Comment {
            id: 0,
            path: spot.path,
            anchor: spot.anchor,
            body,
            author,
            created_at: now,
            parent: None,
            external: None,
            cursors: spot.cursors,
        },
    );
    let shown = number(id);
    let mut text = "added comment #".to_owned();
    text.append(shown.as_str());
    text.append(" on ");
    text.append(at.as_str());
    text
}

/// What is said of a comment that is not there.
pub open spec fn no_such_comment_text(id: u64) -> Seq<Seq<char>> {
    seq![
        "no comment with id "@ + decimal(id as nat),
        "       run `concats comments` for the stored comments"@,
    ]
}

fn no_such_comment(id: u64) -> (lines: Vec<String>)
    ensures
        views(lines@) == no_such_comment_text(id),
{
    let shown = number(id);
    let mut first = "no comment with id ".to_owned();
    first.append(shown.as_str());
    let ghost said = first@;
    let mut lines: Vec<String> = Vec::new();
    lines.push(first);
    lines.push("       run `concats comments` for the stored comments".to_owned());
    assert(views(lines@) =~= seq![said, "       run `concats comments` for the stored comments"@]);
    lines
}

/// The comment that an answer to a thread becomes: at a spot of its own where it
/// is given one, and else at the place of the thread's root.
pub open spec fn answer_at(
    id: u64,
    root: CommentView,
    moved: Option<Spot>,
    body: Seq<char>,
    author: Option<Seq<char>>,
    now: u64,
) -> CommentView {
    match moved {
        Some(spot) => comment_at(id, spot, body, author, now, Some(root.id)),
        None => CommentView {
            id,
            path: root.path,
            anchor: root.anchor,
            body,
            author,
            created_at: now,
            parent: Some(root.id),
            external: None,
            cursors: None,
        },
    }
}

/// An answer is in the thread of its root, whichever comment of the thread it
/// was given for, with its own words; without a spot of its own it stands where
/// the root stands.
pub proof fn an_answer_stands_in_its_thread(
    comments: Seq<CommentView>,
    asked: u64,
    id: u64,
    moved: Option<Spot>,
    body: Seq<char>,
    author: Option<Seq<char>>,
    now: u64,
)
    requires
        root_place(comments, asked) is Some,
    ensures
        ({
            let r = root_place(comments, asked)->0;
            let c = answer_at(id, comments[r], moved, body, author, now);
            &&& c.id == id && c.body == body && c.author == author && c.created_at == now
            &&& c.parent == Some(comments[r].id) && comments[r].parent is None
            &&& exists|k: int|
                0 <= k < comments.len() && (#[trigger] comments[k]).id == asked && (c.parent
                    == Some(comments[k].id) || c.parent == comments[k].parent)
            &&& moved is None ==> c.path == comments[r].path && c.anchor == comments[r].anchor
            &&& moved matches Some(spot) ==> c.path == spot.path@ && c.anchor == spot.anchor
        }),
{
    crate::review::store::the_root_answers_nothing(comments, asked);
}

/// Answers a comment, in the thread of its root. An answer takes the root's
/// place, unless it is given another.
pub fn reply(
    store: &mut Store,
    parent: u64,
    moved: Option<Spot>,
    body: String,
    author: Option<String>,
    now: u64,
) -> (r: Result<String, Vec<String>>)
    requires
        old(store).wf(),
        old(store).next < u64::MAX,
    ensures
        final(store).wf(),
        (match root_place(comment_views(old(store).comments@), parent) {
            None => r matches Err(lines) && views(lines@) == no_such_comment_text(parent)
                && *final(store) == *old(store),
            Some(i) => {
                let root = comment_views(old(store).comments@)[i];
                let id = old(store).next;
                let said = "added comment #"@ + decimal(id as nat) + " replying to #"@ + decimal(
                    root.id as nat,
                );
                &&& final(store).next == id + 1
                &&& match moved {
                    Some(spot) => {
                        &&& comment_views(final(store).comments@) == comment_views(
                            old(store).comments@,
                        ).push(comment_at(id, spot, body@, opt_text(author), now, Some(root.id)))
                        &&& r matches Ok(text) && text@ == said + ", on "@ + lines_text(
                            spot.path@,
                            spot.anchor,
                        )
                    },
                    None => {
                        &&& comment_views(final(store).comments@) == comment_views(
                            old(store).comments@,
                        ).push(
                            (CommentView {
                                id,
                                path: root.path,
                                anchor: root.anchor,
                                body: body@,
                                author: opt_text(author),
                                created_at: now,
                                parent: Some(root.id),
                                external: None,
                                cursors: None,
                            }),
                        )
                        &&& r matches Ok(text) && text@ == said
                    },
                }
            },
        }),
        root_place(comment_views(old(store).comments@), parent) matches Some(i) ==> comment_views(
            final(store).comments@,
        ) == comment_views(old(store).comments@).push(
            answer_at(
                old(store).next,
                comment_views(old(store).comments@)[i],
                moved,
                body@,
                opt_text(author),
                now,
            ),
        ),
{
    let place: usize = match store.root_of(parent) {
        Some(place) => place,
        None => {
            return Err(no_such_comment(parent));
        },
    };
    let thread: u64 = store.comments[place].id;
    let answered = number(thread);
    match moved {
        Some(spot) => {
            let at = shown_at(spot.path.as_str(), spot.anchor);
            let id: u64 = store.add_comment(
                Comment {
                    id: 0,
                    path: spot.path,
                    anchor: spot.anchor,
                    body,
                    author,
                    created_at: now,
                    parent: Some(thread),
                    external: None,
                    cursors: spot.cursors,
                },
            );
            let shown = number(id);
            let mut text = "added comment #".to_owned();
            text.append(shown.as_str());
            text.append(" replying to #");
            text.append(answered.as_str());
            text.append(", on ");
            text.append(at.as_str());
            Ok(text)
        },
        None => match store.reply_comment(parent, body, author, now, None) {
            Some(id) => {
                let shown = number(id);
                let mut text = "added comment #".to_owned();
                text.append(shown.as_str());
                text.append(" replying to #");
                text.append(answered.as_str());
                Ok(text)
            },
            None => Err(no_such_comment(parent)),
        },
    }
}

// ---------------------------------------------------------------------------
// Listing
// ---------------------------------------------------------------------------

/// What deleting a comment says, from how many there were before and after.
pub fn deleted(id: u64, before: usize, after: usize) -> (r: Result<String, String>)
    ensures
        (match r {
            Ok(text) => before != after && text@ == "deleted comment "@ + decimal(id as nat),
            Err(text) => before == after && text@ == "no comment with id "@ + decimal(id as nat),
        }),
{
    let shown = number(id);
    if before == after {
        let mut text = "no comment with id ".to_owned();
        text.append(shown.as_str());
        Err(text)
    } else {
        let mut text = "deleted comment ".to_owned();
        text.append(shown.as_str());
        Ok(text)
    }
}

/// By which comments are listed: the thread, then the order of making.
pub struct ThreadKey {
    pub thread: u64,
    pub id: u64,
}

impl SortKey for ThreadKey {
    open spec fn before(self, other: ThreadKey) -> bool {
        self.thread < other.thread || (self.thread == other.thread && self.id < other.id)
    }

    proof fn order_law(a: ThreadKey, b: ThreadKey, c: ThreadKey) {
    }

    fn is_before(&self, other: &ThreadKey) -> (r: bool) {
        self.thread < other.thread || (self.thread == other.thread && self.id < other.id)
    }
}

/// The keys of comments.
pub open spec fn thread_keys(comments: Seq<CommentView>) -> Seq<ThreadKey> {
    Seq::new(
        comments.len(),
        |i: int| ThreadKey { thread: thread_key_of(comments[i]), id: comments[i].id },
    )
}

/// The order in which comments are listed: by thread, each in the order it was
/// written.
pub fn threaded(store: &Store) -> (order: Vec<usize>)
    ensures
        is_stable_order(thread_keys(comment_views(store.comments@)), order@),
{
    let ghost want = thread_keys(comment_views(store.comments@));
    let mut keys: Vec<ThreadKey> = Vec::new();
    while keys.len() < store.comments.len()
        invariant
            want == thread_keys(comment_views(store.comments@)),
            keys@.len() <= store.comments@.len(),
            forall|i: int| 0 <= i < keys@.len() ==> keys@[i] == want[i],
        decreases store.comments.len() - keys.len(),
    {
        let c = &store.comments[keys.len()];
        keys.push(ThreadKey { thread: c.thread_key(), id: c.id });
    }
    assert(keys@ =~= want);
    stable_order(&keys)
}

/// In the list nothing of another thread stands between two comments of one
/// thread, and of those the older stands first.
pub proof fn threads_are_listed_whole(
    comments: Seq<CommentView>,
    order: Seq<usize>,
    i: int,
    j: int,
    k: int,
)
    requires
        is_stable_order(thread_keys(comments), order),
        0 <= i <= k <= j < order.len(),
        thread_key_of(comments[order[i] as int]) == thread_key_of(comments[order[j] as int]),
    ensures
        thread_key_of(comments[order[k] as int]) == thread_key_of(comments[order[i] as int]),
        comments[order[i] as int].id <= comments[order[k] as int].id,
{
    let keys = thread_keys(comments);
    assert(order[i] < comments.len() && order[j] < comments.len() && order[k] < comments.len());
    if i < k {
        assert(crate::order::precedes(keys, order[i] as int, order[k] as int));
    }
    if k < j {
        assert(crate::order::precedes(keys, order[k] as int, order[j] as int));
    }
}

/// How many digits of a blob's name a list shows.
pub const SHORT_NAME: usize = 10;

/// A comment in the list: an answer is indented.
pub open spec fn listed(c: CommentView) -> Seq<char> {
    let lead = if c.parent is Some {
        "    "@
    } else {
        ""@
    };
    lead + "#"@ + decimal(c.id as nat) + "  "@ + lines_text(c.path, c.anchor) + "  (blob "@
        + c.anchor.blob.text().take(SHORT_NAME as int) + ")"@ + (match c.author {
        Some(a) => "  by "@ + a,
        None => ""@,
    }) + (match c.external {
        Some(e) => "  ["@ + e + "]"@,
        None => ""@,
    }) + "\n"@ + lead + "    "@ + join(split(c.body, '\n'), "\n"@ + lead + "    "@) + "\n"@
}

/// A comment in the list.
pub fn list_entry(c: &Comment) -> (text: String)
    ensures
        text@ == listed(c@),
{
    let lead = if c.parent.is_some() {
        "    "
    } else {
        ""
    };
    let id = number(c.id);
    let at = shown_at(c.path.as_str(), c.anchor);
    let short = c.anchor.blob.short(SHORT_NAME);
    let by = match &c.author {
        Some(a) => {
            let mut by = "  by ".to_owned();
            by.append(a.as_str());
            by
        },
        None => "".to_owned(),
    };
    let from = match &c.external {
        Some(e) => {
            let mut from = "  [".to_owned();
            from.append(e.as_str());
            from.append("]");
            from
        },
        None => "".to_owned(),
    };
    let mut sep = "\n".to_owned();
    sep.append(lead);
    sep.append("    ");
    let parts = pieces(c.body.as_str(), '\n');
    let body = joined(&parts, sep.as_str());
    let mut text = lead.to_owned();
    text.append("#");
    text.append(id.as_str());
    text.append("  ");
    text.append(at.as_str());
    text.append("  (blob ");
    text.append(short.as_str());
    text.append(")");
    text.append(by.as_str());
    text.append(from.as_str());
    text.append("\n");
    text.append(lead);
    text.append("    ");
    text.append(body.as_str());
    text.append("\n");
    text
}

/// Everything that is recorded, threads whole.
pub open spec fn list_is(comments: Seq<CommentView>, repo: Seq<char>, lines: Seq<Seq<char>>) -> bool {
    if comments.len() == 0 {
        lines == seq!["no review comments recorded for "@ + repo]
    } else {
        exists|order: Seq<usize>|
            #![trigger is_stable_order(thread_keys(comments), order)]
            {
                &&& is_stable_order(thread_keys(comments), order)
                &&& lines == Seq::new(
                    order.len(),
                    |i: int| listed(comments[order[i] as int]),
                ).push(decimal(comments.len()) + " comment(s)"@)
            }
    }
}

/// The list of the recorded comments, threads whole.
pub fn list(store: &Store, repo: &str) -> (lines: Vec<String>)
    ensures
        list_is(comment_views(store.comments@), repo@, views(lines@)),
{
    let ghost all = comment_views(store.comments@);
    let mut lines: Vec<String> = Vec::new();
    if store.comments.len() == 0 {
        let mut text = "no review comments recorded for ".to_owned();
        text.append(repo);
        let ghost said = text@;
        lines.push(text);
        assert(views(lines@) =~= seq![said]);
        return lines;
    }
    let order = threaded(store);
    let ghost want = Seq::new(order@.len(), |i: int| listed(all[order@[i] as int]));
    let mut i: usize = 0;
    assert(views(lines@) =~= want.take(0));
    while i < order.len()
        invariant
            i <= order@.len(),
            all == comment_views(store.comments@),
            is_stable_order(thread_keys(all), order@),
            want == Seq::new(order@.len(), |i: int| listed(all[order@[i] as int])),
            views(lines@) == want.take(i as int),
        decreases order.len() - i,
    {
        let ghost was = views(lines@);
        assert(order@[i as int] < all.len());
        lines.push(list_entry(&store.comments[order[i]]));
        assert(views(lines@) =~= was.push(want[i as int]));
        assert(views(lines@) =~= want.take(i + 1));
        i += 1;
    }
    assert(want.take(want.len() as int) =~= want);
    let mut count = number(store.comments.len() as u64);
    count.append(" comment(s)");
    let ghost said = count@;
    lines.push(count);
    assert(views(lines@) =~= want.push(said));
    lines
}

// ---------------------------------------------------------------------------
// Exporting
// ---------------------------------------------------------------------------

/// Where a comment sits for an export.
pub open spec fn relocated(c: CommentView, blob_in_range: bool, held: Option<Anchor>) -> CommentView {
    if c.cursors is Some && !blob_in_range && held is Some {
        CommentView { anchor: held->0, ..c }
    } else {
        c
    }
}

/// Exporting moves a comment only to where its cursors are now, and only when
/// the range does not have its blob; whether it moves or not, it keeps its words,
/// its author, its thread and its file.
pub proof fn exporting_moves_only_the_lines(
    c: CommentView,
    blob_in_range: bool,
    held: Option<Anchor>,
)
    ensures
        ({
            let r = relocated(c, blob_in_range, held);
            &&& r.id == c.id && r.path == c.path && r.body == c.body && r.author == c.author
            &&& r.created_at == c.created_at && r.parent == c.parent && r.external == c.external
                && r.cursors == c.cursors
            &&& blob_in_range ==> r.anchor == c.anchor
            &&& c.cursors is None ==> r.anchor == c.anchor
            &&& held is None ==> r.anchor == c.anchor
            &&& !blob_in_range && c.cursors is Some ==> (held matches Some(at) ==> r.anchor == at)
        }),
{
}

/// Where a comment sits for an export: its own lines when the range has its
/// blob; else, for one whose cursors the file's document reads, the lines they
/// cover now. One that cannot be placed either way is exported as recorded.
pub fn relocate(c: &Comment, blob_in_range: bool, held: Option<Anchor>) -> (r: Comment)
    ensures
        r@ == (if c.cursors is Some && !blob_in_range && held is Some {
            CommentView { anchor: held->0, ..c@ }
        } else {
            c@
        }),
        r@ == relocated(c@, blob_in_range, held),
{
    let mut r = c.copy();
    if c.cursors.is_some() && !blob_in_range {
        if let Some(at) = held {
            r.anchor = at;
        }
    }
    r
}

/// What an export says of comments that the range does not have.
pub fn stale_warning(stale: usize, base: &str, head: &str) -> (line: Option<String>)
    ensures
        opt_text(line) == (if stale > 0 {
            Some(
                "warning: "@ + decimal(stale as nat) + " comment(s) do not anchor in "@ + base@
                    + "..."@ + head@
                    + " — exported as recorded, they will not re-import against this range"@,
            )
        } else {
            None
        }),
{
    if stale > 0 {
        let count = number(stale as u64);
        let mut text = "warning: ".to_owned();
        text.append(count.as_str());
        text.append(" comment(s) do not anchor in ");
        text.append(base);
        text.append("...");
        text.append(head);
        text.append(" — exported as recorded, they will not re-import against this range");
        Some(text)
    } else {
        None
    }
}

/// By which an export is ordered: the file as the diff orders it, those that
/// it does not have last; then the line; then the thread.
pub struct ExportKey {
    pub file: usize,
    pub path: String,
    pub start: u32,
    pub thread: Option<u64>,
    pub id: Option<u64>,
}

/// Whether an id comes before another; none comes before any.
pub open spec fn id_before(a: Option<u64>, b: Option<u64>) -> bool {
    match (a, b) {
        (None, Some(_)) => true,
        (Some(a), Some(b)) => a < b,
        _ => false,
    }
}

fn is_id_before(a: Option<u64>, b: Option<u64>) -> (r: bool)
    ensures
        r == id_before(a, b),
{
    match (a, b) {
        (None, Some(_)) => true,
        (Some(a), Some(b)) => a < b,
        _ => false,
    }
}

/// The order of an export.
pub open spec fn export_before(
    a: (int, Seq<char>, int, Option<u64>, Option<u64>),
    b: (int, Seq<char>, int, Option<u64>, Option<u64>),
) -> bool {
    if a.0 != b.0 {
        a.0 < b.0
    } else if a.1 != b.1 {
        text_before(a.1, b.1)
    } else if a.2 != b.2 {
        a.2 < b.2
    } else if a.3 != b.3 {
        id_before(a.3, b.3)
    } else {
        id_before(a.4, b.4)
    }
}

impl ExportKey {
    /// The key's parts, the first deciding first.
    pub open spec fn parts(self) -> (int, Seq<char>, int, Option<u64>, Option<u64>) {
        (self.file as int, self.path@, self.start as int, self.thread, self.id)
    }
}

impl SortKey for ExportKey {
    open spec fn before(self, other: ExportKey) -> bool {
        export_before(self.parts(), other.parts())
    }

    proof fn order_law(a: ExportKey, b: ExportKey, c: ExportKey) {
        lemma_text_order(a.path@, b.path@, c.path@);
        lemma_text_order(b.path@, c.path@, a.path@);
        lemma_text_order(c.path@, a.path@, b.path@);
        lemma_text_order(a.path@, c.path@, b.path@);
        lemma_text_order(c.path@, b.path@, a.path@);
        lemma_text_order(b.path@, a.path@, c.path@);
    }

    fn is_before(&self, other: &ExportKey) -> (r: bool) {
        if self.file != other.file {
            self.file < other.file
        } else if !crate::text::same(self.path.as_str(), other.path.as_str()) {
            is_text_before(self.path.as_str(), other.path.as_str())
        } else if self.start != other.start {
            self.start < other.start
        } else if self.thread != other.thread {
            is_id_before(self.thread, other.thread)
        } else {
            is_id_before(self.id, other.id)
        }
    }
}

/// The place of a file in the diff: the last that has the path, and past every
/// one for a file that the diff does not have.
pub open spec fn file_place(files: Seq<Seq<char>>, path: Seq<char>) -> usize
    decreases files.len(),
{
    if files.len() == 0 {
        usize::MAX
    } else if files.last() == path {
        (files.len() - 1) as usize
    } else {
        file_place(files.drop_last(), path)
    }
}

fn place_in_diff(files: &Vec<String>, path: &str) -> (place: usize)
    ensures
        place == file_place(views(files@), path@),
{
    let ghost all = views(files@);
    let mut n: usize = files.len();
    assert(all.take(n as int) =~= all);
    while n > 0
        invariant
            n <= files@.len(),
            all == views(files@),
            file_place(all, path@) == file_place(all.take(n as int), path@),
        decreases n,
    {
        assert(all.take(n as int).drop_last() =~= all.take(n - 1));
        assert(all.take(n as int).last() == files@[n - 1]@);
        if crate::text::same(files[n - 1].as_str(), path) {
            return n - 1;
        }
        n -= 1;
    }
    usize::MAX
}

/// What an entry of an export is ordered by.
pub open spec fn export_parts(entry: Entry, files: Seq<Seq<char>>) -> (
    int,
    Seq<char>,
    int,
    Option<u64>,
    Option<u64>,
) {
    (
        file_place(files, entry.path@) as int,
        entry.path@,
        entry.start as int,
        if entry.reply_to is Some {
            entry.reply_to
        } else {
            entry.id
        },
        entry.id,
    )
}

/// Whether places are in the order of an export; entries that tie keep theirs.
pub open spec fn is_export_order(
    entries: Seq<Entry>,
    files: Seq<Seq<char>>,
    order: Seq<usize>,
) -> bool {
    &&& crate::order::is_arrangement(order, entries.len())
    &&& forall|i: int, j: int|
        0 <= i < j < order.len() ==> {
            let a = export_parts(entries[(#[trigger] order[i]) as int], files);
            let b = export_parts(entries[(#[trigger] order[j]) as int], files);
            export_before(a, b) || (!export_before(b, a) && order[i] < order[j])
        }
}

/// The order of an export: files as the diff has them, then lines, then
/// threads.
pub fn export_order(entries: &Vec<Entry>, files: &Vec<String>) -> (order: Vec<usize>)
    ensures
        is_export_order(entries@, views(files@), order@),
{
    let ghost paths = views(files@);
    let mut keys: Vec<ExportKey> = Vec::new();
    while keys.len() < entries.len()
        invariant
            paths == views(files@),
            keys@.len() <= entries@.len(),
            forall|i: int|
                0 <= i < keys@.len() ==> (#[trigger] keys@[i]).parts() == export_parts(
                    entries@[i],
                    paths,
                ),
        decreases entries.len() - keys.len(),
    {
        let e = &entries[keys.len()];
        let thread = if e.reply_to.is_some() {
            e.reply_to
        } else {
            e.id
        };
        keys.push(
            ExportKey {
                file: place_in_diff(files, e.path.as_str()),
                path: e.path.clone(),
                start: e.start,
                thread,
                id: e.id,
            },
        );
    }
    let order = stable_order(&keys);
    proof {
        assert forall|i: int, j: int| 0 <= i < j < order@.len() implies {
            let a = export_parts(entries@[(#[trigger] order@[i]) as int], paths);
            let b = export_parts(entries@[(#[trigger] order@[j]) as int], paths);
            export_before(a, b) || (!export_before(b, a) && order@[i] < order@[j])
        } by {
            assert(crate::order::precedes(keys@, order@[i] as int, order@[j] as int));
        }
    }
    order
}

/// What an export to a file says.
pub fn exported_text(count: usize, path: &str) -> (text: String)
    ensures
        text@ == "exported "@ + decimal(count as nat) + " comment(s) to "@ + path@,
{
    let shown = number(count as u64);
    let mut text = "exported ".to_owned();
    text.append(shown.as_str());
    text.append(" comment(s) to ");
    text.append(path);
    text
}

/// What a document says it was made for: the repository, and the two ends of
/// the range that its anchors were resolved against.
#[derive(Debug)]
pub struct Meta {
    pub repo: Option<String>,
    pub base: Option<String>,
    pub head: Option<String>,
}

/// What an export says it was made for.
pub fn document_meta(repo: Option<String>, merge_base: Option<Oid>, head: Option<Oid>) -> (meta:
    Meta)
    ensures
        meta.repo == repo,
        opt_text(meta.base) == Some(endpoint_text(merge_base, "INDEX"@)),
        opt_text(meta.head) == Some(endpoint_text(head, "WORKTREE"@)),
{
    Meta {
        repo,
        base: Some(endpoint(merge_base, "INDEX")),
        head: Some(endpoint(head, "WORKTREE")),
    }
}

// ---------------------------------------------------------------------------
// Laws
// ---------------------------------------------------------------------------

/// A comment is recorded as it was given: at its spot, with its words, author
/// and time, in the thread that it answers.
pub proof fn a_comment_keeps_what_it_was_given(
    id: u64,
    spot: Spot,
    body: Seq<char>,
    author: Option<Seq<char>>,
    now: u64,
    parent: Option<u64>,
)
    ensures
        ({
            let c = comment_at(id, spot, body, author, now, parent);
            &&& c.id == id
            &&& c.path == spot.path@
            &&& c.anchor == spot.anchor
            &&& c.body == body
            &&& c.author == author
            &&& c.created_at == now
            &&& c.parent == parent
            &&& c.external is None
            &&& c.cursors is Some <==> spot.cursors is Some
            &&& spot.cursors matches Some(at) ==> c.cursors == Some((at.from@, at.to@))
        }),
{
}

/// The number of a comment reads back as that comment, with a mark before it or
/// without.
pub proof fn a_shown_id_reads_back(id: u64)
    ensures
        parse_value(without_leading("#"@ + decimal(id as nat), '#'), u64::MAX as nat) == Some(
            id as nat,
        ),
        parse_value(without_leading(decimal(id as nat), '#'), u64::MAX as nat) == Some(id as nat),
{
    reveal_strlit("#");
    let d = decimal(id as nat);
    crate::commands::lemma_decimal_reads_back(id as nat);
    assert(is_digit(d[0]));
    let marked = "#"@ + d;
    assert(marked[0] == '#');
    assert(marked.drop_first() =~= d);
    assert(without_leading(d, '#') == d);
    assert(unsigned_part(d) == d);
}

/// A comment in the list shows its number, its file with its first and last
/// line counted from one, who wrote it, and every line of its words, each
/// behind the same lead; the lead of an answer is wider.
pub proof fn a_listed_comment_shows_all_of_it(c: CommentView, i: int)
    requires
        0 <= i < split(c.body, '\n').len(),
    ensures
        ({
            let lead = if c.parent is Some {
                "    "@
            } else {
                ""@
            };
            let text = listed(c);
            &&& begins(
                text,
                lead + "#"@ + decimal(c.id as nat) + "  "@ + c.path + ":"@ + decimal(
                    (c.anchor.start + 1) as nat,
                ) + "–"@ + decimal((c.anchor.end + 1) as nat) + "  (blob "@,
            )
            &&& c.author matches Some(a) ==> occurs(text, "  by "@ + a)
            &&& c.external matches Some(e) ==> occurs(text, "  ["@ + e + "]"@)
            &&& occurs(text, "\n"@ + lead + "    "@ + split(c.body, '\n')[i])
        }),
{
    let lead = if c.parent is Some {
        "    "@
    } else {
        ""@
    };
    let text = listed(c);
    let sep = "\n"@ + lead + "    "@;
    let parts = split(c.body, '\n');
    let words = join(parts, sep);
    let place = c.path + ":"@ + decimal((c.anchor.start + 1) as nat) + "–"@ + decimal(
        (c.anchor.end + 1) as nat,
    );
    let head = lead + "#"@ + decimal(c.id as nat) + "  "@ + place + "  (blob "@;
    let spelt = lead + "#"@ + decimal(c.id as nat) + "  "@ + c.path + ":"@ + decimal(
        (c.anchor.start + 1) as nat,
    ) + "–"@ + decimal((c.anchor.end + 1) as nat) + "  (blob "@;
    let blob = c.anchor.blob.text().take(SHORT_NAME as int);
    let by = match c.author {
        Some(a) => "  by "@ + a,
        None => ""@,
    };
    let from = match c.external {
        Some(e) => "  ["@ + e + "]"@,
        None => ""@,
    };
    let start = lead + "#"@ + decimal(c.id as nat) + "  "@;
    assert(head =~= spelt) by {
        lemma_same_either_way(
            start,
            c.path + ":"@ + decimal((c.anchor.start + 1) as nat) + "–"@,
            decimal((c.anchor.end + 1) as nat),
        );
        lemma_same_either_way(start, c.path + ":"@ + decimal((c.anchor.start + 1) as nat), "–"@);
        lemma_same_either_way(start, c.path + ":"@, decimal((c.anchor.start + 1) as nat));
        lemma_same_either_way(start, c.path, ":"@);
    }
    let before = head + blob + ")"@ + by + from;
    assert(text == before + sep + words + "\n"@) by {
        lemma_same_either_way(before, "\n"@ + lead, "    "@);
        lemma_same_either_way(before, "\n"@, lead);
    }
    lemma_stands_between(head + blob + ")"@, by, from + sep + words + "\n"@);
    lemma_stands_between(head + blob + ")"@ + by, from, sep + words + "\n"@);
    lemma_in_a_row(head, blob + ")"@, by, from, sep, words, "\n"@);
    lemma_same_either_way(head, blob, ")"@);
    lemma_part_behind(before, sep, parts, "\n"@, i);
}

proof fn lemma_in_a_row(
    a: Seq<char>,
    b: Seq<char>,
    c: Seq<char>,
    d: Seq<char>,
    e: Seq<char>,
    f: Seq<char>,
    g: Seq<char>,
)
    ensures
        begins(a + b + c + d + e + f + g, a),
        a + b + c + d + e + f + g == a + b + c + (d + e + f + g),
        a + b + c + d + e + f + g == a + b + c + d + (e + f + g),
{
    let all = a + b + c + d + e + f + g;
    assert(all.take(a.len() as int) =~= a);
    assert(all =~= a + b + c + (d + e + f + g));
    assert(all =~= a + b + c + d + (e + f + g));
}

/// Where parts are joined behind their separator, each part stands behind one.
proof fn lemma_part_behind(
    before: Seq<char>,
    sep: Seq<char>,
    parts: Seq<Seq<char>>,
    after: Seq<char>,
    i: int,
)
    requires
        0 <= i < parts.len(),
    ensures
        occurs(before + sep + join(parts, sep) + after, sep + parts[i]),
{
    let words = join(parts, sep);
    let text = before + sep + words + after;
    let want = sep + parts[i];
    each_part_stands_in_the_join(parts, sep, i);
    if i == 0 {
        let rest = words.skip(parts[0].len() as int);
        assert(words =~= parts[0] + rest);
        lemma_stands_between(before, want, rest + after);
        assert(before + want + (rest + after) =~= text);
    } else {
        let k = choose|k: int|
            0 <= k <= words.len() - want.len() && #[trigger] words.subrange(k, k + want.len())
                == want;
        let at = before.len() + sep.len() + k;
        assert(text.subrange(at, at + want.len()) =~= words.subrange(k, k + want.len()));
    }
}

/// Every comment is in the list, on as many entries as there are comments, and
/// the last line counts them.
pub proof fn every_comment_is_listed(
    comments: Seq<CommentView>,
    repo: Seq<char>,
    lines: Seq<Seq<char>>,
    i: int,
)
    requires
        list_is(comments, repo, lines),
        0 <= i < comments.len() <= usize::MAX,
    ensures
        lines.len() == comments.len() + 1,
        lines.contains(listed(comments[i])),
        lines.last() == decimal(comments.len()) + " comment(s)"@,
{
    let order = choose|order: Seq<usize>|
        #![trigger is_stable_order(thread_keys(comments), order)]
        {
            &&& is_stable_order(thread_keys(comments), order)
            &&& lines == Seq::new(
                order.len(),
                |i: int| listed(comments[order[i] as int]),
            ).push(decimal(comments.len()) + " comment(s)"@)
        };
    let keys = thread_keys(comments);
    assert(keys.len() == comments.len());
    crate::order::lemma_arrangement_covers(order, comments.len(), i as usize);
    let k = choose|k: int| 0 <= k < order.len() && order[k] == i;
    assert(lines[k] == listed(comments[i]));
}

/// A file that the diff has stands where the diff has it, and before every file
/// that the diff does not have.
pub proof fn files_of_the_diff_come_first(files: Seq<Seq<char>>, path: Seq<char>)
    requires
        files.len() <= usize::MAX,
    ensures
        files.contains(path) ==> file_place(files, path) < files.len() && files[file_place(
            files,
            path,
        ) as int] == path,
        !files.contains(path) ==> file_place(files, path) == usize::MAX,
    decreases files.len(),
{
    if files.len() > 0 {
        let rest = files.drop_last();
        files_of_the_diff_come_first(rest, path);
        if files.last() == path {
            assert(files[files.len() - 1] == path);
        } else {
            if files.contains(path) {
                let i = choose|i: int| 0 <= i < files.len() && files[i] == path;
                assert(rest[i] == path);
            }
            if rest.contains(path) {
                let i = choose|i: int| 0 <= i < rest.len() && rest[i] == path;
                assert(files[i] == path);
            }
        }
    }
}

/// An export has every entry once. Entries of two files of the diff stand in the
/// order of the diff, before those of any file that it does not have; in one
/// file a lower first line stands first; and at one line of it what begins a
/// thread stands before what answers it, where it has the lower number.
pub proof fn an_export_is_in_the_order_of_the_diff(
    entries: Seq<Entry>,
    files: Seq<Seq<char>>,
    order: Seq<usize>,
    i: int,
    j: int,
)
    requires
        is_export_order(entries, files, order),
        0 <= i < j < order.len(),
        files.len() < usize::MAX,
    ensures
        ({
            let a = entries[order[i] as int];
            let b = entries[order[j] as int];
            &&& order.len() == entries.len()
            &&& order[i] != order[j]
            &&& files.contains(b.path@) ==> files.contains(a.path@)
            &&& file_place(files, a.path@) <= file_place(files, b.path@)
            &&& a.path@ == b.path@ ==> a.start <= b.start
            &&& a.path@ == b.path@ && a.start == b.start ==> !(b.reply_to is None && a.reply_to
                == b.id && b.id is Some && a.id is Some && b.id->0 < a.id->0)
        }),
{
    let a = entries[order[i] as int];
    let b = entries[order[j] as int];
    files_of_the_diff_come_first(files, a.path@);
    files_of_the_diff_come_first(files, b.path@);
    let x = export_parts(a, files);
    let y = export_parts(b, files);
    assert(export_before(x, y) || (!export_before(y, x) && order[i] < order[j]));
}

} // verus!
