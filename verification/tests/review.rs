use concats::diff::Oid;
use concats::review::comments::{
    add, deleted, document_meta, export_order, exported_text, list, list_entry, non_empty,
    parse_anchor, parse_id, place_anchor, relocate, reply, stale_warning, threaded, FileLines,
    NumberedLine, Spot,
};
use concats::review::guide::{
    coverage_lines, existing_code, new_file_warning, no_refs_warning, problem_lines,
    report_header, report_lines, uncovered_lines, verdict, Percentages, Problem, Report,
    Uncovered,
};
use concats::review::import::{
    endpoint, import, is_payload, range_warning, resolve_roots, warning_line, write_entries,
    Entry, EntrySide, Resolution, ResolvedEntry,
};
use concats::review::inspect::{link_of, turns, Link, RecordedTurn};
use concats::review::store::{Anchor, Comment, Cursors, Store};
use concats::review::{
    exit_code, non_blank, repo_arg, RangeArgs, RangeEnv, Target, BAD_INPUT, FINDINGS, OK,
};
use concats::review_doc::ReviewDoc;
use concats::widgets::share::{share_meta, share_order, share_status};

const BLOB: Oid = Oid { hi: 9, lo: 9 };

fn entry(id: Option<u64>, line: u32, body: &str) -> Entry {
    Entry {
        id,
        reply_to: None,
        answers: None,
        path: "file.rs".to_string(),
        side: EntrySide::New,
        start: line,
        end: line,
        body: body.to_string(),
        author: None,
        created_at: None,
        external: None,
        line: 1,
    }
}

fn placed(line: u32) -> Resolution {
    Resolution::Placed(ResolvedEntry {
        path: "file.rs".to_string(),
        blob: BLOB,
        start: line - 1,
        end: line,
    })
}

fn missing(line: u32) -> Resolution {
    Resolution::MissingLines {
        file: "file.rs".to_string(),
        missing: vec![line],
        ranges: vec!["L1".to_string()],
    }
}

#[test]
fn import_policies_preserve_atomicity_dry_runs_and_thread_identity() {
    let fallback = Some("Fallback".to_string());
    let mut store = Store::new();

    // One entry of a document does not anchor: nothing is imported.
    let document = vec![entry(None, 1, "Valid"), entry(None, 999, "Invalid")];
    let found = vec![placed(1), missing(999)];
    let rejected = import(&mut store, &document, &found, "review.md", false, &fallback, false, 5);
    assert!(rejected.tally.is_none());
    assert!(rejected.lines.iter().any(|l| l.contains("nothing imported")));
    assert!(store.comments.is_empty());

    // Of a payload, what anchors is taken.
    let external = |n: u64| Some(format!("github:{n}"));
    let mut root = entry(Some(1), 1, "Root");
    root.external = external(1);
    let mut answer = entry(Some(2), 999, "Reply");
    answer.reply_to = Some(1);
    answer.external = external(2);
    answer.answers = external(1);
    let mut outdated = entry(Some(3), 999, "Outdated");
    outdated.external = external(3);
    let payload = vec![root, answer, outdated];
    let found = vec![placed(1), missing(999), missing(999)];
    let dry = import(&mut store, &payload, &found, "review.json", true, &fallback, true, 5);
    assert!(store.comments.is_empty());
    let accepted = import(&mut store, &payload, &found, "review.json", true, &fallback, false, 5);
    let counts = |t: &concats::review::import::Tally| (t.added, t.updated, t.skipped, t.orphaned);
    assert_eq!(
        counts(dry.tally.as_ref().unwrap()),
        counts(accepted.tally.as_ref().unwrap())
    );
    assert!(accepted
        .lines
        .iter()
        .any(|l| l.contains("1 thread(s) do not anchor in this range — skipped")));
    assert_eq!(store.comments.len(), 2);
    let root = store.comments.iter().find(|c| c.body == "Root").unwrap();
    let reply = store.comments.iter().find(|c| c.body == "Reply").unwrap();
    assert_eq!(reply.parent, Some(root.id));
    assert_eq!(root.author.as_deref(), Some("Fallback"));

    // Importing it again changes nothing.
    import(&mut store, &payload, &found, "review.json", true, &fallback, false, 6);
    assert_eq!(store.comments.len(), 2);

    let valid = vec![entry(None, 1, "Markdown")];
    let found = vec![placed(1)];
    assert!(import(&mut store, &valid, &found, "valid.md", false, &fallback, false, 7)
        .tally
        .is_some());
    assert_eq!(store.comments.len(), 3);
}

#[test]
fn an_import_counts_what_it_did() {
    let mut store = Store::new();
    let mut first = entry(Some(1), 1, "before");
    first.external = Some("github:1".to_string());
    let found = vec![placed(1)];
    let tally = write_entries(&mut store, &vec![first], &found, &vec![0], &None, false, 1);
    assert_eq!((tally.added, tally.updated, tally.skipped, tally.orphaned), (1, 0, 0, 0));
    assert_eq!(tally.anchored, [store.comments[0].id]);
    let mut changed = entry(Some(1), 1, "after");
    changed.external = Some("github:1".to_string());
    let tally = write_entries(&mut store, &vec![changed], &found, &vec![0], &None, false, 2);
    assert_eq!((tally.added, tally.updated, tally.skipped, tally.orphaned), (0, 1, 0, 0));
    assert_eq!(store.comments[0].body, "after");
    let mut same = entry(Some(1), 1, "after");
    same.external = Some("github:1".to_string());
    let tally = write_entries(&mut store, &vec![same], &found, &vec![0], &None, false, 3);
    assert_eq!((tally.added, tally.updated, tally.skipped, tally.orphaned), (0, 0, 1, 0));
    let mut orphan = entry(Some(7), 1, "lost");
    orphan.reply_to = Some(6);
    let tally = write_entries(&mut store, &vec![orphan], &found, &vec![0], &None, false, 4);
    assert_eq!((tally.added, tally.updated, tally.skipped, tally.orphaned), (0, 0, 0, 1));
    let (warning, summary) = tally.report(true);
    assert!(warning.is_some());
    assert!(summary.contains('0'));
}

#[test]
fn an_empty_import_is_refused() {
    let mut store = Store::new();
    let report = import(&mut store, &vec![], &vec![], "x.md", false, &None, false, 1);
    assert!(report.tally.is_none());
    assert_eq!(report.lines, ["error: no comment entries found in x.md"]);
    let (roots, failed, lines) =
        resolve_roots(&vec![entry(None, 1, "a")], &vec![Resolution::UnknownPath], "x.md", false);
    assert!(roots.is_empty());
    assert_eq!(failed, 1);
    assert!(lines.len() >= 1);
}

#[test]
fn payloads_and_ranges_are_told_apart() {
    assert!(is_payload("  [1]"));
    assert!(is_payload("{}"));
    assert!(!is_payload("# a"));
    assert!(!is_payload(""));
    assert!(warning_line("odd", "x.md", false).contains("odd"));
    assert_eq!(endpoint(None, "WORKTREE"), "WORKTREE");
    assert_eq!(endpoint(Some(BLOB), "WORKTREE"), BLOB.hex());
    assert!(range_warning("base", &None, "x").is_none());
    assert!(range_warning("base", &Some("x".to_string()), "x").is_none());
    assert!(range_warning("base", &Some("y".to_string()), "x").is_some());
}

fn numbered(numbers: &[u32]) -> FileLines {
    FileLines {
        path: "file.rs".to_string(),
        lines: numbers
            .iter()
            .enumerate()
            .map(|(i, n)| NumberedLine { number: *n, blob: BLOB, index: i as u32 })
            .collect(),
        ranges: vec!["L1-L3".to_string()],
    }
}

#[test]
fn an_anchor_names_a_path_and_its_lines() {
    let at = parse_anchor("file.rs:2-3").unwrap();
    assert_eq!((at.path.as_str(), at.start, at.end), ("file.rs", 2, 3));
    let at = parse_anchor("file.rs:2").unwrap();
    assert_eq!((at.start, at.end), (2, 2));
    // In either order.
    let at = parse_anchor("a:b/ file.rs: 3 - 2").unwrap();
    assert_eq!((at.path.as_str(), at.start, at.end), ("a:b/ file.rs", 2, 3));
    let wrong = |spec: &str| parse_anchor(spec).err().unwrap();
    assert_eq!(wrong("file.rs"), "error: anchor must be <path>:<start>[-<end>]");
    assert_eq!(
        wrong("file.rs:x"),
        "error: cannot parse line range `x` — lines are 1-based new-side numbers"
    );
    assert_eq!(wrong("file.rs:0"), "error: lines are 1-based");
}

#[test]
fn a_placed_anchor_is_in_the_diff() {
    let at = parse_anchor("file.rs:2-3").unwrap();
    let (path, anchor) = place_anchor(&at, &Some(numbered(&[1, 2, 3]))).unwrap();
    assert_eq!(path, "file.rs");
    assert_eq!((anchor.blob, anchor.start), (BLOB, 1));
    assert!(place_anchor(&at, &None).is_err());
    let lines = place_anchor(&at, &Some(numbered(&[1]))).unwrap_err();
    assert!(lines.iter().any(|l| l.contains("L1-L3")));
}

fn spot(line: u32) -> Spot {
    Spot {
        path: "file.rs".to_string(),
        anchor: Anchor { blob: BLOB, start: line, end: line },
        cursors: Some(Cursors { from: "a".to_string(), to: "b".to_string() }),
    }
}

#[test]
fn a_reply_joins_the_root() {
    let mut store = Store::new();
    add(&mut store, spot(1), "root".to_string(), None, 1);
    let root = store.comments[0].id;
    reply(&mut store, root, None, "one".to_string(), None, 2).unwrap();
    let first = store.comments[1].id;
    reply(&mut store, first, None, "two".to_string(), Some("me".to_string()), 3).unwrap();
    assert_eq!(store.comments[2].parent, Some(root));
    assert_eq!(store.root_of(store.comments[2].id), Some(0));
    assert!(reply(&mut store, 999, None, "lost".to_string(), None, 4).is_err());
    assert_eq!(store.comments.len(), 3);
    assert!(store.find(999).is_none());
}

#[test]
fn deleting_a_comment_takes_its_answers() {
    let mut store = Store::new();
    add(&mut store, spot(1), "root".to_string(), None, 1);
    add(&mut store, spot(2), "other".to_string(), None, 2);
    let root = store.comments[0].id;
    reply(&mut store, root, None, "one".to_string(), None, 3).unwrap();
    let next = store.next;
    store.delete_comment(999);
    assert_eq!(store.comments.len(), 3);
    store.delete_comment(root);
    assert_eq!(store.comments.len(), 1);
    assert_eq!(store.comments[0].body, "other");
    assert_eq!(store.next, next);
    store.delete_comment(root);
    assert_eq!(store.comments.len(), 1);
}

#[test]
fn threads_are_listed_whole() {
    let mut store = Store::new();
    add(&mut store, spot(1), "first".to_string(), None, 1);
    add(&mut store, spot(2), "second".to_string(), None, 2);
    let first = store.comments[0].id;
    reply(&mut store, first, None, "late".to_string(), None, 3).unwrap();
    assert_eq!(threaded(&store), [0, 2, 1]);
    let lines = list(&store, "/repo").join("\n");
    let at = |s: &str| lines.find(s).unwrap();
    assert!(at("first") < at("late") && at("late") < at("second"));
    assert!(list_entry(&store.comments[0]).contains("first"));
    assert!(list(&Store::new(), "/repo").len() > 0);
}

#[test]
fn ids_and_bodies_are_read() {
    assert_eq!(parse_id("12").unwrap(), 12);
    assert!(parse_id("x").is_err());
    assert_eq!(non_empty("  hi ").unwrap().trim(), "hi");
    assert!(non_empty("  ").is_err());
    assert!(deleted(3, 2, 1).is_ok());
    assert!(deleted(3, 2, 2).is_err());
    assert!(exported_text(1, "out.md").contains("out.md"));
    assert!(stale_warning(0, "a", "b").is_none());
    assert!(stale_warning(2, "a", "b").unwrap().contains('2'));
}

#[test]
fn a_comment_follows_its_line() {
    let mut comment = Comment {
        id: 1,
        path: "file.rs".to_string(),
        anchor: Anchor { blob: BLOB, start: 4, end: 5 },
        body: "b".to_string(),
        author: None,
        created_at: 1,
        parent: None,
        external: None,
        cursors: Some(Cursors { from: "a".to_string(), to: "b".to_string() }),
    };
    let elsewhere = Anchor { blob: Oid { hi: 1, lo: 1 }, start: 8, end: 9 };
    assert_eq!(relocate(&comment, true, Some(elsewhere)).anchor, comment.anchor);
    assert_eq!(relocate(&comment, false, Some(elsewhere)).anchor, elsewhere);
    assert_eq!(relocate(&comment, false, None).anchor, comment.anchor);
    assert_eq!(comment.thread_key(), 1);
    comment.cursors = None;
    assert_eq!(relocate(&comment, false, Some(elsewhere)).anchor, comment.anchor);
}

#[test]
fn an_export_goes_by_file_line_and_thread() {
    let mut a = entry(Some(1), 9, "a");
    a.path = "b.rs".to_string();
    let mut b = entry(Some(2), 5, "b");
    b.path = "a.rs".to_string();
    let mut c = entry(Some(3), 2, "c");
    c.path = "a.rs".to_string();
    let files = vec!["a.rs".to_string(), "b.rs".to_string()];
    assert_eq!(export_order(&vec![a, b, c], &files), [2, 1, 0]);
    let meta = document_meta(Some("/r".to_string()), Some(BLOB), None);
    assert_eq!(meta.base, Some(BLOB.hex()));
    assert_eq!(meta.repo.as_deref(), Some("/r"));
}

#[test]
fn a_share_is_ordered_like_an_export() {
    let order = share_order(&vec![entry(Some(1), 9, "a"), entry(Some(2), 5, "b")]);
    assert_eq!(order, [1, 0]);
    let mut doc = ReviewDoc::default();
    doc.repo = "/r".to_string();
    assert_eq!(share_meta(&doc, Some(BLOB), None).base, Some(BLOB.hex()));
    assert!(share_status(2).contains('2'));
}

fn report() -> Report {
    Report {
        broken: vec![Problem {
            line: 3,
            locator: "a.rs#L1".to_string(),
            message: "no such line".to_string(),
        }],
        duplicates: vec![Problem {
            line: 4,
            locator: "a.rs#L2".to_string(),
            message: "placed twice".to_string(),
        }],
        uncovered: vec![Uncovered {
            path: "b.rs".to_string(),
            links: vec!["b.rs#L1".to_string()],
            total_hunks: 2,
        }],
        no_refs: false,
        lines_covered: 6,
        lines_total: 10,
        hunks_placed: 3,
        hunks_total: 5,
        lines_covered_new_files: 2,
        new_file_hunks_placed: 1,
    }
}

fn clean() -> Report {
    Report { broken: vec![], duplicates: vec![], uncovered: vec![], ..report() }
}

#[test]
fn a_guide_fails_on_broken_links_and_low_coverage() {
    assert!(verdict(&report(), false));
    assert!(verdict(&clean(), true));
    assert!(!verdict(&clean(), false));
    assert!(existing_code(&report()).0 <= 6);
    let lines = problem_lines("guide.md", &report(), false).join("\n");
    assert!(lines.contains("no such line") && lines.contains("placed twice"));
    let lines = uncovered_lines(&report().uncovered).join("\n");
    assert!(lines.contains("b.rs"));
    assert!(report_header("guide.md", "a", "b").contains("guide.md"));
    assert!(no_refs_warning(&clean()).is_none());
    assert!(no_refs_warning(&Report { no_refs: true, ..clean() }).is_some());
    assert!(new_file_warning(&clean(), false, "1", "2").is_none());
    assert!(coverage_lines(&clean(), true, "60.0", "80.0").join("\n").contains("60.0"));
    let shown = Percentages {
        coverage: "60.0".to_string(),
        threshold: "0.0".to_string(),
        new_files: "33.3".to_string(),
        existing: "40.0".to_string(),
        mostly_new: false,
    };
    let all = report_lines("guide.md", &report(), "a", "b", false, false, &shown).join("\n");
    assert!(all.contains("guide.md") && all.contains("60.0") && all.contains("b.rs"));
}

#[test]
fn recorded_turns_are_listed_with_their_links() {
    let recorded = vec![RecordedTurn {
        session_id: "s".to_string(),
        oid: BLOB,
        subject: "subject".to_string(),
        entries: 2,
        touched: vec!["a.rs".to_string()],
    }];
    let links = vec![Link { turn: 0, via_tree: true, via_branch: false }];
    assert_eq!(link_of(&links, 0), (true, true, false));
    assert_eq!(link_of(&links, 1), (false, false, false));
    let out = turns(&recorded, &links, "/root", "a", "b").join("\n");
    assert!(out.contains("subject"), "{out}");
}

#[test]
fn a_range_comes_from_the_arguments_then_the_window_then_the_environment() {
    let args = RangeArgs { repo: None, base: Some("main".to_string()), head: None };
    let window = Some(Target {
        repo: "/w".to_string(),
        base: "wb".to_string(),
        head: "wh".to_string(),
    });
    let env = RangeEnv {
        repo: Some("/e".to_string()),
        base: Some("eb".to_string()),
        head: Some("eh".to_string()),
    };
    let t = args.resolve(&window, &env).unwrap();
    assert_eq!(t.base, "main");
    assert_eq!(repo_arg(&Some("/r".to_string()), &window, &env.repo), "/r");
    assert_eq!(repo_arg(&None, &window, &env.repo), "/w");
    assert_eq!(repo_arg(&None, &None, &env.repo), "/e");
    assert_eq!(non_blank(&Some("  ".to_string())), None);
    assert_eq!(non_blank(&Some("x".to_string())).as_deref(), Some("x"));
    let nothing = RangeArgs { repo: None, base: None, head: None };
    let bare = RangeEnv { repo: None, base: None, head: None };
    assert!(nothing.resolve(&None, &bare).is_err());
    assert_eq!(exit_code(Ok(())), OK);
    assert_eq!(exit_code(Err(FINDINGS)), 1);
    assert_eq!(exit_code(Err(BAD_INPUT)), 2);
}
