//! Checking a review guide: what it broke and what it forgot, with links to
//! paste for what it missed.

use crate::diff::opt_text;
use crate::text::{
    begins, decimal, lemma_same_either_way, lemma_stands_between, number, occurs, views,
};
use vstd::prelude::*;

verus! {

/// Something wrong with a link of a guide.
#[derive(Debug)]
pub struct Problem {
    pub line: usize,
    pub locator: String,
    pub message: String,
}

/// A file with hunks that a guide never mentions, and links to them.
#[derive(Debug)]
pub struct Uncovered {
    pub path: String,
    pub links: Vec<String>,
    pub total_hunks: usize,
}

/// What checking a guide found.
#[derive(Debug)]
pub struct Report {
    pub broken: Vec<Problem>,
    pub duplicates: Vec<Problem>,
    pub uncovered: Vec<Uncovered>,
    /// The guide refers to no part of the diff.
    pub no_refs: bool,
    pub lines_covered: usize,
    pub lines_total: usize,
    pub hunks_placed: usize,
    pub hunks_total: usize,
    /// The covered lines that come from links to whole new files.
    pub lines_covered_new_files: usize,
    pub new_file_hunks_placed: usize,
}

/// Whether a guide fails: a link is broken, or it covers too little.
pub fn verdict(report: &Report, coverage_fail: bool) -> (failed: bool)
    ensures
        failed == (report.broken@.len() > 0 || coverage_fail),
{
    report.broken.len() > 0 || coverage_fail
}

/// The lines of a broken link.
pub open spec fn broken_lines(path: Seq<char>, p: Problem) -> Seq<Seq<char>> {
    seq![
        "  "@ + path + ":"@ + decimal(p.line as nat),
        "      "@ + p.locator@,
        "      → "@ + p.message@ + "\n"@,
    ]
}

/// The lines of broken links.
pub open spec fn all_broken(path: Seq<char>, ps: Seq<Problem>) -> Seq<Seq<char>>
    decreases ps.len(),
{
    if ps.len() == 0 {
        Seq::empty()
    } else {
        all_broken(path, ps.drop_last()) + broken_lines(path, ps.last())
    }
}

/// The line of a reference that is used more than once.
pub open spec fn duplicate_line(path: Seq<char>, p: Problem) -> Seq<char> {
    "  "@ + path + ":"@ + decimal(p.line as nat) + "  "@ + p.message@
}

/// What a guide got wrong: links that resolve to nothing, and hunks that it
/// pointed at more than once.
pub open spec fn problem_text(path: Seq<char>, report: Report, allow_duplicates: bool) -> Seq<
    Seq<char>,
> {
    let broken = if report.broken@.len() == 0 {
        Seq::empty()
    } else {
        seq!["✗ "@ + decimal(report.broken@.len()) + " broken link(s)\n"@] + all_broken(
            path,
            report.broken@,
        )
    };
    let duplicates = if allow_duplicates || report.duplicates@.len() == 0 {
        Seq::empty()
    } else {
        seq!["⚠ "@ + decimal(report.duplicates@.len()) + " duplicate reference(s)\n"@] + Seq::new(
            report.duplicates@.len(),
            |i: int| duplicate_line(path, report.duplicates@[i]),
        ) + seq![""@]
    };
    broken + duplicates
}

fn push_broken(out: &mut Vec<String>, path: &str, p: &Problem)
    ensures
        views(final(out)@) == views(old(out)@) + broken_lines(path@, *p),
{
    let ghost was = views(out@);
    let at = number(p.line as u64);
    let mut first = "  ".to_owned();
    first.append(path);
    first.append(":");
    first.append(at.as_str());
    let mut second = "      ".to_owned();
    second.append(p.locator.as_str());
    let mut third = "      → ".to_owned();
    third.append(p.message.as_str());
    third.append("\n");
    out.push(first);
    out.push(second);
    out.push(third);
    assert(views(out@) =~= was + broken_lines(path@, *p));
}

/// What a guide got wrong.
pub fn problem_lines(path: &str, report: &Report, allow_duplicates: bool) -> (out: Vec<String>)
    ensures
        views(out@) == problem_text(path@, *report, allow_duplicates),
{
    let mut out: Vec<String> = Vec::new();
    assert(views(out@) =~= Seq::empty());
    if report.broken.len() > 0 {
        let count = number(report.broken.len() as u64);
        let mut head = "✗ ".to_owned();
        head.append(count.as_str());
        head.append(" broken link(s)\n");
        let ghost said = head@;
        out.push(head);
        let mut i: usize = 0;
        assert(views(out@) =~= seq![said] + all_broken(path@, report.broken@.take(0)));
        while i < report.broken.len()
            invariant
                i <= report.broken@.len(),
                views(out@) == seq![said] + all_broken(path@, report.broken@.take(i as int)),
            decreases report.broken.len() - i,
        {
            assert(report.broken@.take(i + 1).drop_last() =~= report.broken@.take(i as int));
            push_broken(&mut out, path, &report.broken[i]);
            assert(views(out@) =~= seq![said] + all_broken(path@, report.broken@.take(i + 1)));
            i += 1;
        }
        assert(report.broken@.take(report.broken@.len() as int) =~= report.broken@);
    }
    let ghost broken = views(out@);
    if !allow_duplicates && report.duplicates.len() > 0 {
        let count = number(report.duplicates.len() as u64);
        let mut head = "⚠ ".to_owned();
        head.append(count.as_str());
        head.append(" duplicate reference(s)\n");
        let ghost said = head@;
        let ghost all = Seq::new(
            report.duplicates@.len(),
            |i: int| duplicate_line(path@, report.duplicates@[i]),
        );
        out.push(head);
        let mut i: usize = 0;
        assert(views(out@) =~= broken + (seq![said] + all.take(0)));
        while i < report.duplicates.len()
            invariant
                i <= report.duplicates@.len(),
                all == Seq::new(
                    report.duplicates@.len(),
                    |i: int| duplicate_line(path@, report.duplicates@[i]),
                ),
                views(out@) == broken + (seq![said] + all.take(i as int)),
            decreases report.duplicates.len() - i,
        {
            let ghost was = views(out@);
            let at = number(report.duplicates[i].line as u64);
            let mut line = "  ".to_owned();
            line.append(path);
            line.append(":");
            line.append(at.as_str());
            line.append("  ");
            line.append(report.duplicates[i].message.as_str());
            out.push(line);
            assert(views(out@) =~= was.push(all[i as int]));
            assert(views(out@) =~= broken + (seq![said] + all.take(i + 1)));
            i += 1;
        }
        assert(all.take(all.len() as int) =~= all);
        let ghost was = views(out@);
        out.push("".to_owned());
        assert(views(out@) =~= was.push(""@));
    }
    assert(views(out@) =~= problem_text(path@, *report, allow_duplicates));
    out
}

/// The lines of a file with hunks that a guide never mentions. Links stand at
/// the start of their line: indented, they would paste as code.
pub open spec fn uncovered_file(f: Uncovered) -> Seq<Seq<char>> {
    seq![
        "  ── "@ + f.path@ + "  ("@ + decimal(f.links@.len()) + " of "@ + decimal(
            f.total_hunks as nat,
        ) + " hunks unreferenced)\n"@,
    ] + Seq::new(f.links@.len(), |i: int| f.links@[i]@ + "\n"@)
}

/// The lines of such files.
pub open spec fn uncovered_files(fs: Seq<Uncovered>) -> Seq<Seq<char>>
    decreases fs.len(),
{
    if fs.len() == 0 {
        Seq::empty()
    } else {
        uncovered_files(fs.drop_last()) + uncovered_file(fs.last())
    }
}

/// Links to paste for everything that a guide never mentions.
pub open spec fn uncovered_text(fs: Seq<Uncovered>) -> Seq<Seq<char>> {
    if fs.len() == 0 {
        Seq::empty()
    } else {
        seq!["\n  Not referenced — paste a link line where it belongs.\n"@] + uncovered_files(fs)
    }
}

fn push_uncovered(out: &mut Vec<String>, f: &Uncovered)
    ensures
        views(final(out)@) == views(old(out)@) + uncovered_file(*f),
{
    let ghost was = views(out@);
    let ghost all = uncovered_file(*f);
    let count = number(f.links.len() as u64);
    let total = number(f.total_hunks as u64);
    let mut head = "  ── ".to_owned();
    head.append(f.path.as_str());
    head.append("  (");
    head.append(count.as_str());
    head.append(" of ");
    head.append(total.as_str());
    head.append(" hunks unreferenced)\n");
    assert(head@ == all[0]);
    out.push(head);
    assert(views(out@) =~= was + all.take(1));
    let mut i: usize = 0;
    while i < f.links.len()
        invariant
            i <= f.links@.len(),
            all == uncovered_file(*f),
            views(out@) == was + all.take(i + 1),
        decreases f.links.len() - i,
    {
        let ghost before = views(out@);
        let mut line = f.links[i].clone();
        line.append("\n");
        assert(line@ == all[i + 1]);
        out.push(line);
        assert(views(out@) =~= before.push(all[i + 1]));
        assert(views(out@) =~= was + all.take(i + 2));
        i += 1;
    }
    assert(all.take(all.len() as int) =~= all);
}

/// Links to paste for everything that a guide never mentions.
pub fn uncovered_lines(fs: &Vec<Uncovered>) -> (out: Vec<String>)
    ensures
        views(out@) == uncovered_text(fs@),
{
    let mut out: Vec<String> = Vec::new();
    assert(views(out@) =~= Seq::empty());
    if fs.len() == 0 {
        return out;
    }
    out.push("\n  Not referenced — paste a link line where it belongs.\n".to_owned());
    let ghost head = seq!["\n  Not referenced — paste a link line where it belongs.\n"@];
    let mut i: usize = 0;
    assert(views(out@) =~= head + uncovered_files(fs@.take(0)));
    while i < fs.len()
        invariant
            i <= fs@.len(),
            views(out@) == head + uncovered_files(fs@.take(i as int)),
        decreases fs.len() - i,
    {
        assert(fs@.take(i + 1).drop_last() =~= fs@.take(i as int));
        push_uncovered(&mut out, &fs[i]);
        assert(views(out@) =~= head + uncovered_files(fs@.take(i + 1)));
        i += 1;
    }
    assert(fs@.take(fs@.len() as int) =~= fs@);
    out
}

/// How many changed lines of files that were there before a guide covers, and
/// how many there are.
pub open spec fn existing_lines(report: Report) -> (int, int) {
    (
        report.lines_covered - report.lines_covered_new_files,
        if report.lines_covered_new_files <= report.lines_total {
            report.lines_total - report.lines_covered_new_files
        } else {
            0
        },
    )
}

/// The lines that a guide covers are those of new files and those of existing
/// ones, and so are all the lines less the new ones that it covers; of existing
/// code it covers no more than there is.
pub proof fn covered_lines_are_new_or_existing(report: Report)
    requires
        report.lines_covered_new_files <= report.lines_covered <= report.lines_total,
    ensures
        existing_lines(report).0 + report.lines_covered_new_files == report.lines_covered,
        existing_lines(report).1 + report.lines_covered_new_files == report.lines_total,
        0 <= existing_lines(report).0 <= existing_lines(report).1,
{
}

/// How many changed lines of files that were there before a guide covers, and
/// how many there are.
pub fn existing_code(report: &Report) -> (r: (usize, usize))
    requires
        report.lines_covered_new_files <= report.lines_covered,
    ensures
        r.0 == report.lines_covered - report.lines_covered_new_files,
        r.1 == (if report.lines_covered_new_files <= report.lines_total {
            report.lines_total - report.lines_covered_new_files
        } else {
            0
        }),
        (r.0 as int, r.1 as int) == existing_lines(*report),
{
    let total: usize = if report.lines_covered_new_files <= report.lines_total {
        report.lines_total - report.lines_covered_new_files
    } else {
        0
    };
    (report.lines_covered - report.lines_covered_new_files, total)
}

/// A warning when a guide covers the diff mostly by links to whole new files.
/// Such a link is one hunk worth many lines: it cannot be forbidden, so it is
/// made visible. `mostly_new` says whether at least half of the covered lines
/// are of that kind, and the two texts are the shares in percent.
pub fn new_file_warning(report: &Report, mostly_new: bool, share: &str, existing: &str) -> (text:
    Option<String>)
    ensures
        opt_text(text) == (if report.new_file_hunks_placed == 0 || !mostly_new {
            None
        } else {
            Some(
                "\n⚠ "@ + share@ + "% of your covered lines ("@ + decimal(
                    report.lines_covered_new_files as nat,
                ) + " of "@ + decimal(report.lines_covered as nat) + ") come from "@ + decimal(
                    report.new_file_hunks_placed as nat,
                )
                    + " whole-new-file link(s).\n      New files are one hunk each, so they are cheap coverage. Coverage of the\n      changes to EXISTING code is what this number was meant to measure — and\n      yours is "@
                    + existing@ + "%. Read the modified files."@,
            )
        }),
{
    if report.new_file_hunks_placed == 0 || !mostly_new {
        return None;
    }
    let new = number(report.lines_covered_new_files as u64);
    let covered = number(report.lines_covered as u64);
    let placed = number(report.new_file_hunks_placed as u64);
    let mut text = "\n⚠ ".to_owned();
    text.append(share);
    text.append("% of your covered lines (");
    text.append(new.as_str());
    text.append(" of ");
    text.append(covered.as_str());
    text.append(") come from ");
    text.append(placed.as_str());
    text.append(
        " whole-new-file link(s).\n      New files are one hunk each, so they are cheap coverage. Coverage of the\n      changes to EXISTING code is what this number was meant to measure — and\n      yours is ",
    );
    text.append(existing);
    text.append("%. Read the modified files.");
    Some(text)
}

/// The head of a report.
pub fn report_header(path: &str, base: &str, head: &str) -> (text: String)
    ensures
        text@ == path@ + "   ["@ + base@ + " → "@ + head@ + "]\n"@,
{
    let mut text = path.to_owned();
    text.append("   [");
    text.append(base);
    text.append(" → ");
    text.append(head);
    text.append("]\n");
    text
}

/// What a report says of a guide that refers to nothing.
pub fn no_refs_warning(report: &Report) -> (text: Option<String>)
    ensures
        opt_text(text) == (if report.no_refs {
            Some("⚠ this review references no part of the diff at all — prose about nothing\n"@)
        } else {
            None
        }),
{
    if report.no_refs {
        Some(
            "⚠ this review references no part of the diff at all — prose about nothing\n".to_owned(),
        )
    } else {
        None
    }
}

/// What a report says of coverage; the texts are percentages.
pub open spec fn coverage_text(
    report: Report,
    coverage_fail: bool,
    pct: Seq<char>,
    threshold: Seq<char>,
) -> Seq<Seq<char>> {
    let line = (if coverage_fail {
        "✗"@
    } else {
        "·"@
    }) + " coverage "@ + pct + "%   "@ + decimal(report.lines_covered as nat) + " of "@ + decimal(
        report.lines_total as nat,
    ) + " changed lines   ("@ + decimal(report.hunks_placed as nat) + " of "@ + decimal(
        report.hunks_total as nat,
    ) + " hunks)"@;
    if coverage_fail {
        seq![line, "      below the --min-coverage "@ + threshold + "% threshold"@]
    } else {
        seq![line]
    }
}

/// What a report says of coverage.
pub fn coverage_lines(report: &Report, coverage_fail: bool, pct: &str, threshold: &str) -> (out:
    Vec<String>)
    ensures
        views(out@) == coverage_text(*report, coverage_fail, pct@, threshold@),
{
    let covered = number(report.lines_covered as u64);
    let total = number(report.lines_total as u64);
    let placed = number(report.hunks_placed as u64);
    let hunks = number(report.hunks_total as u64);
    let mut line = if coverage_fail {
        "✗".to_owned()
    } else {
        "·".to_owned()
    };
    line.append(" coverage ");
    line.append(pct);
    line.append("%   ");
    line.append(covered.as_str());
    line.append(" of ");
    line.append(total.as_str());
    line.append(" changed lines   (");
    line.append(placed.as_str());
    line.append(" of ");
    line.append(hunks.as_str());
    line.append(" hunks)");
    let ghost first = line@;
    let mut out: Vec<String> = Vec::new();
    out.push(line);
    if coverage_fail {
        let mut below = "      below the --min-coverage ".to_owned();
        below.append(threshold);
        below.append("% threshold");
        let ghost second = below@;
        out.push(below);
        assert(views(out@) =~= seq![first, second]);
    } else {
        assert(views(out@) =~= seq![first]);
    }
    out
}

/// The percentages of a report, as they are shown.
#[derive(Debug)]
pub struct Percentages {
    pub coverage: String,
    pub threshold: String,
    pub new_files: String,
    pub existing: String,
    /// At least half of the covered lines come from new files.
    pub mostly_new: bool,
}

/// A text, where there is one.
pub open spec fn at_most_one(text: Option<Seq<char>>) -> Seq<Seq<char>> {
    match text {
        Some(text) => seq![text],
        None => Seq::empty(),
    }
}

fn push_text(out: &mut Vec<String>, text: Option<String>)
    ensures
        views(final(out)@) == views(old(out)@) + at_most_one(opt_text(text)),
{
    let ghost was = views(out@);
    match text {
        Some(text) => {
            let ghost said = text@;
            out.push(text);
            assert(views(out@) =~= was + seq![said]);
        },
        None => {
            assert(views(out@) =~= was + Seq::<Seq<char>>::empty());
        },
    }
}

fn push_all(out: &mut Vec<String>, more: Vec<String>)
    ensures
        views(final(out)@) == views(old(out)@) + views(more@),
{
    let ghost was = views(out@);
    let ghost add = views(more@);
    let mut more = more;
    out.append(&mut more);
    assert(views(out@) =~= was + add);
}

/// What checking a guide prints: what it is about, what is wrong with it, what
/// it covers, what it leaves out, and the verdict.
pub open spec fn report_text(
    path: Seq<char>,
    report: Report,
    base: Seq<char>,
    head: Seq<char>,
    allow_duplicates: bool,
    coverage_fail: bool,
    shown: Percentages,
) -> Seq<Seq<char>> {
    seq![path + "   ["@ + base + " → "@ + head + "]\n"@] + problem_text(
        path,
        report,
        allow_duplicates,
    ) + at_most_one(
        if report.no_refs {
            Some("⚠ this review references no part of the diff at all — prose about nothing\n"@)
        } else {
            None
        },
    ) + coverage_text(report, coverage_fail, shown.coverage@, shown.threshold@) + at_most_one(
        if report.new_file_hunks_placed == 0 || !shown.mostly_new {
            None
        } else {
            Some(
                "\n⚠ "@ + shown.new_files@ + "% of your covered lines ("@ + decimal(
                    report.lines_covered_new_files as nat,
                ) + " of "@ + decimal(report.lines_covered as nat) + ") come from "@ + decimal(
                    report.new_file_hunks_placed as nat,
                )
                    + " whole-new-file link(s).\n      New files are one hunk each, so they are cheap coverage. Coverage of the\n      changes to EXISTING code is what this number was meant to measure — and\n      yours is "@
                    + shown.existing@ + "%. Read the modified files."@,
            )
        },
    ) + uncovered_text(report.uncovered@) + seq![
        if report.broken@.len() > 0 || coverage_fail {
            "FAIL"@
        } else {
            "OK"@
        },
    ]
}

/// What checking a guide prints.
pub fn report_lines(
    path: &str,
    report: &Report,
    base: &str,
    head: &str,
    allow_duplicates: bool,
    coverage_fail: bool,
    shown: &Percentages,
) -> (out: Vec<String>)
    ensures
        views(out@) == report_text(
            path@,
            *report,
            base@,
            head@,
            allow_duplicates,
            coverage_fail,
            *shown,
        ),
{
    let first = report_header(path, base, head);
    let ghost said = first@;
    let mut out: Vec<String> = Vec::new();
    out.push(first);
    assert(views(out@) =~= seq![said]);
    push_all(&mut out, problem_lines(path, report, allow_duplicates));
    push_text(&mut out, no_refs_warning(report));
    push_all(
        &mut out,
        coverage_lines(report, coverage_fail, shown.coverage.as_str(), shown.threshold.as_str()),
    );
    push_text(
        &mut out,
        new_file_warning(
            report,
            shown.mostly_new,
            shown.new_files.as_str(),
            shown.existing.as_str(),
        ),
    );
    push_all(&mut out, uncovered_lines(&report.uncovered));
    let ghost before = views(out@);
    let last = if verdict(report, coverage_fail) {
        "FAIL".to_owned()
    } else {
        "OK".to_owned()
    };
    let ghost ended = last@;
    out.push(last);
    assert(views(out@) =~= before + seq![ended]);
    out
}

/// How many lines the first `n` files that a guide leaves out take: one that
/// names the file, and one for each of its links.
pub open spec fn uncovered_height(fs: Seq<Uncovered>, n: nat) -> nat
    decreases n,
{
    if n == 0 {
        0
    } else {
        uncovered_height(fs, (n - 1) as nat) + 1 + fs[n - 1].links@.len()
    }
}

proof fn lemma_uncovered_height(a: Seq<Uncovered>, b: Seq<Uncovered>, n: nat)
    requires
        n <= a.len() <= b.len(),
        forall|i: int| 0 <= i < a.len() ==> a[i] == b[i],
    ensures
        uncovered_height(a, n) == uncovered_height(b, n),
    decreases n,
{
    if n > 0 {
        lemma_uncovered_height(a, b, (n - 1) as nat);
    }
}

proof fn lemma_height_grows(fs: Seq<Uncovered>, i: nat, n: nat)
    requires
        i < n <= fs.len(),
    ensures
        uncovered_height(fs, i) + 1 + fs[i as int].links@.len() <= uncovered_height(fs, n),
    decreases n,
{
    if i + 1 < n {
        lemma_height_grows(fs, i, (n - 1) as nat);
    }
}

proof fn lemma_uncovered_files(fs: Seq<Uncovered>, i: int)
    requires
        0 <= i < fs.len(),
    ensures
        uncovered_files(fs).len() == uncovered_height(fs, fs.len()),
        begins(
            uncovered_files(fs)[uncovered_height(fs, i as nat) as int],
            "  ── "@ + fs[i].path@,
        ),
        forall|j: int|
            0 <= j < fs[i].links@.len() ==> uncovered_files(fs)[uncovered_height(fs, i as nat) + 1
                + j] == (#[trigger] fs[i].links@[j])@ + "\n"@,
    decreases fs.len(),
{
    let before = fs.drop_last();
    let last = fs.last();
    let n = before.len();
    lemma_uncovered_height(before, fs, n);
    if n > 0 {
        lemma_uncovered_files(before, if i < n { i } else { 0 });
    }
    assert(uncovered_files(before).len() == uncovered_height(fs, n));
    let head = "  ── "@ + last.path@;
    let line = uncovered_file(last)[0];
    assert(line.take(head.len() as int) =~= head);
    assert(fs[n as int] == last);
    assert(uncovered_height(fs, fs.len()) == uncovered_height(fs, n) + 1 + last.links@.len());
    if i < n {
        lemma_uncovered_height(before, fs, i as nat);
        lemma_height_grows(before, i as nat, n);
        assert(before[i] == fs[i]);
    }
}

/// Every link of every file that a guide leaves out is a line of the report, at
/// the start of its line: the files one after another in their order, each
/// named on a line of its own and followed by its links in their order, and
/// after all of them the verdict.
pub proof fn every_link_left_out_is_reported(
    path: Seq<char>,
    report: Report,
    base: Seq<char>,
    head: Seq<char>,
    allow_duplicates: bool,
    coverage_fail: bool,
    shown: Percentages,
    i: int,
)
    requires
        0 <= i < report.uncovered@.len(),
    ensures
        ({
            let fs = report.uncovered@;
            let text = report_text(
                path,
                report,
                base,
                head,
                allow_duplicates,
                coverage_fail,
                shown,
            );
            let from = text.len() - 1 - uncovered_height(fs, fs.len());
            let at = from + uncovered_height(fs, i as nat);
            &&& 0 < from <= at
            &&& at + fs[i].links@.len() < text.len() - 1
            &&& begins(text[at], "  ── "@ + fs[i].path@)
            &&& forall|j: int|
                0 <= j < fs[i].links@.len() ==> text[at + 1 + j] == (#[trigger] fs[i].links@[j])@
                    + "\n"@
        }),
{
    let fs = report.uncovered@;
    lemma_uncovered_files(fs, i);
    lemma_height_grows(fs, i as nat, fs.len());
}

/// Every broken link is reported, in order: where it stands in the guide, what
/// it says, and what is wrong with it.
pub proof fn every_broken_link_is_reported(
    path: Seq<char>,
    report: Report,
    base: Seq<char>,
    head: Seq<char>,
    allow_duplicates: bool,
    coverage_fail: bool,
    shown: Percentages,
    i: int,
)
    requires
        0 <= i < report.broken@.len(),
    ensures
        ({
            let text = report_text(
                path,
                report,
                base,
                head,
                allow_duplicates,
                coverage_fail,
                shown,
            );
            let p = report.broken@[i];
            &&& 4 + 3 * i < text.len()
            &&& text[2 + 3 * i] == "  "@ + path + ":"@ + decimal(p.line as nat)
            &&& text[3 + 3 * i] == "      "@ + p.locator@
            &&& text[4 + 3 * i] == "      → "@ + p.message@ + "\n"@
        }),
{
    lemma_all_broken(path, report.broken@, i);
}

proof fn lemma_all_broken(path: Seq<char>, ps: Seq<Problem>, i: int)
    requires
        0 <= i < ps.len(),
    ensures
        all_broken(path, ps).len() == 3 * ps.len(),
        all_broken(path, ps)[3 * i] == "  "@ + path + ":"@ + decimal(ps[i].line as nat),
        all_broken(path, ps)[3 * i + 1] == "      "@ + ps[i].locator@,
        all_broken(path, ps)[3 * i + 2] == "      → "@ + ps[i].message@ + "\n"@,
    decreases ps.len(),
{
    let before = ps.drop_last();
    if before.len() > 0 {
        lemma_all_broken(path, before, if i < before.len() { i } else { 0 });
    }
    assert(all_broken(path, before).len() == 3 * before.len());
    assert(broken_lines(path, ps.last()).len() == 3);
    if i < before.len() {
        assert(before[i] == ps[i]);
    }
}

/// Every reference that is used again is reported, in order, unless that is
/// allowed.
pub proof fn every_duplicate_is_reported(
    path: Seq<char>,
    report: Report,
    base: Seq<char>,
    head: Seq<char>,
    coverage_fail: bool,
    shown: Percentages,
    i: int,
)
    requires
        0 <= i < report.duplicates@.len(),
    ensures
        ({
            let text = report_text(path, report, base, head, false, coverage_fail, shown);
            let p = report.duplicates@[i];
            let at = 2 + i + (if report.broken@.len() == 0 {
                0
            } else {
                1 + 3 * report.broken@.len()
            });
            &&& at < text.len()
            &&& text[at] == "  "@ + path + ":"@ + decimal(p.line as nat) + "  "@ + p.message@
        }),
{
    if report.broken@.len() > 0 {
        lemma_all_broken(path, report.broken@, 0);
    }
}

/// A guide fails exactly when a link of it is broken or it covers too little;
/// the last line of the report says which. References that are used again, and
/// hunks that are left out, fail no guide by themselves.
pub proof fn the_report_ends_with_the_verdict(
    path: Seq<char>,
    report: Report,
    base: Seq<char>,
    head: Seq<char>,
    allow_duplicates: bool,
    coverage_fail: bool,
    shown: Percentages,
)
    ensures
        ({
            let last = report_text(
                path,
                report,
                base,
                head,
                allow_duplicates,
                coverage_fail,
                shown,
            ).last();
            &&& (coverage_fail || report.broken@.len() > 0) ==> last == "FAIL"@
            &&& (!coverage_fail && report.broken@.len() == 0) ==> last == "OK"@
        }),
{
}

/// A report says how much is covered: the share, how many of how many lines, and
/// how many of how many hunks. It says that this is too little exactly when it
/// is.
pub proof fn a_report_says_how_much_is_covered(
    report: Report,
    fail: bool,
    pct: Seq<char>,
    threshold: Seq<char>,
)
    ensures
        ({
            let said = coverage_text(report, fail, pct, threshold);
            let share = " coverage "@ + pct + "%   "@ + decimal(report.lines_covered as nat)
                + " of "@ + decimal(report.lines_total as nat) + " changed lines   ("@ + decimal(
                report.hunks_placed as nat,
            ) + " of "@ + decimal(report.hunks_total as nat) + " hunks)"@;
            &&& said.len() == (if fail {
                2int
            } else {
                1
            })
            &&& share.len() <= said[0].len() && said[0].skip(said[0].len() - share.len()) == share
            &&& fail ==> begins(said[0], "✗"@) && occurs(said[1], threshold)
            &&& !fail ==> begins(said[0], "·"@)
        }),
{
    let said = coverage_text(report, fail, pct, threshold);
    let a = " coverage "@;
    let c = "%   "@;
    let d = decimal(report.lines_covered as nat);
    let of = " of "@;
    let e = decimal(report.lines_total as nat);
    let f = " changed lines   ("@;
    let g = decimal(report.hunks_placed as nat);
    let h = decimal(report.hunks_total as nat);
    let z = " hunks)"@;
    let mark = if fail {
        "✗"@
    } else {
        "·"@
    };
    let share = a + pct + c + d + of + e + f + g + of + h + z;
    lemma_same_either_way(mark, a, pct);
    lemma_same_either_way(mark, a + pct, c);
    lemma_same_either_way(mark, a + pct + c, d);
    lemma_same_either_way(mark, a + pct + c + d, of);
    lemma_same_either_way(mark, a + pct + c + d + of, e);
    lemma_same_either_way(mark, a + pct + c + d + of + e, f);
    lemma_same_either_way(mark, a + pct + c + d + of + e + f, g);
    lemma_same_either_way(mark, a + pct + c + d + of + e + f + g, of);
    lemma_same_either_way(mark, a + pct + c + d + of + e + f + g + of, h);
    lemma_same_either_way(mark, a + pct + c + d + of + e + f + g + of + h, z);
    assert(said[0] == mark + share);
    lemma_two_parts(mark, share);
    if fail {
        lemma_stands_between("      below the --min-coverage "@, threshold, "% threshold"@);
    }
}

proof fn lemma_two_parts(a: Seq<char>, b: Seq<char>)
    ensures
        begins(a + b, a),
        (a + b).skip((a + b).len() - b.len()) == b,
{
    assert((a + b).take(a.len() as int) =~= a);
    assert((a + b).skip((a + b).len() - b.len()) =~= b);
}

} // verus!
