use concats::diff::{Oid, PathSet, Row};
use concats::review_doc::ReviewDoc;
use concats::widgets::file_browser::{
    build, merge, rev_chip, status_dots, DotKind, DotMap, DrawStep, FileBrowser,
    FileBrowserAction, FileTree, Node,
};
use makepad_live_id::LiveId;

fn paths(list: &[&str]) -> Vec<String> {
    list.iter().map(|s| s.to_string()).collect()
}

fn id(path: &str) -> u64 {
    LiveId::from_str(path).0
}

fn node<'a>(tree: &'a FileTree, path: &str) -> &'a Node {
    tree.get(id(path)).unwrap()
}

/// The names of one folder's children, in draw order.
fn children_of<'a>(tree: &'a FileTree, path: &str) -> Vec<&'a str> {
    node(tree, path)
        .children
        .as_ref()
        .unwrap()
        .iter()
        .map(|k| tree.nodes[*k].name.as_str())
        .collect()
}

fn dots(list: &[(&str, DotKind)]) -> DotMap {
    let mut map = DotMap::new();
    for (path, kind) in list {
        map.insert(path, *kind);
    }
    map
}

#[test]
fn folders_are_materialized_from_the_path_separators() {
    let tree = build(
        &paths(&["a/b/c.rs", "a/d.rs", "top.md"]),
        &DotMap::new(),
        "repo",
    );

    // `a/b` is a node even though the listing only ever named blobs.
    assert_eq!(node(&tree, "a").name, "a");
    assert_eq!(node(&tree, "a/b").name, "b");
    assert_eq!(node(&tree, "a/b/c.rs").name, "c.rs");
    // Everything hangs off the repo row, so no real folder sits at the depth
    // where the tree widget skips the status dot.
    assert_eq!(tree.name, "repo");
    assert_eq!(tree.root_id(), id(""));
    // Folders sort before files at every level.
    let roots: Vec<&str> = tree.roots.iter().map(|k| tree.nodes[*k].name.as_str()).collect();
    assert_eq!(roots, ["a", "top.md"]);
    assert_eq!(children_of(&tree, "a"), ["b", "d.rs"]);
}

#[test]
fn two_kinds_under_one_folder_read_as_mixed() {
    let status = dots(&[
        ("a/new.rs", DotKind::New),
        ("a/edit.rs", DotKind::Modified),
        ("b/one.rs", DotKind::New),
        ("b/two.rs", DotKind::New),
    ]);
    let tree = build(
        &paths(&["a/new.rs", "a/edit.rs", "b/one.rs", "b/two.rs"]),
        &status,
        "repo",
    );

    assert_eq!(node(&tree, "a").status, DotKind::Mixed);
    // One kind throughout cascades unchanged.
    assert_eq!(node(&tree, "b").status, DotKind::New);
}

#[test]
fn a_deleted_path_tints_its_folders_without_being_listed() {
    let status = dots(&[("a/gone.rs", DotKind::Mixed)]);
    let tree = build(&paths(&["a/kept.rs"]), &status, "repo");

    assert!(tree.get(id("a/gone.rs")).is_none());
    assert_eq!(node(&tree, "a").status, DotKind::Mixed);
}

#[test]
fn a_path_the_range_never_touched_gets_no_dot() {
    let tree = build(&paths(&["a/quiet.rs"]), &DotMap::new(), "repo");

    assert_eq!(node(&tree, "a/quiet.rs").status, DotKind::Clean);
}

fn header(path: &str) -> Row {
    Row::FileHeader {
        path: path.to_string(),
        adds: 1,
        dels: 0,
        from: None,
        similarity: None,
    }
}

fn path_set(list: &[&str]) -> PathSet {
    let mut set = PathSet::new();
    for path in list {
        set.insert(path);
    }
    set
}

#[test]
fn status_dots_reads_new_edited_and_deleted_off_the_range() {
    let files_rows: Vec<Row> = ["new.rs", "edit.rs", "gone.rs"].iter().map(|p| header(p)).collect();
    let added = path_set(&["new.rs"]);
    let at_head = path_set(&["new.rs", "edit.rs", "quiet.rs"]);

    let dots = status_dots(&files_rows, &added, &at_head);

    assert_eq!(dots.get("new.rs"), Some(DotKind::New));
    assert_eq!(dots.get("edit.rs"), Some(DotKind::Modified));
    // Changed but absent from the head tree: deleted.
    assert_eq!(dots.get("gone.rs"), Some(DotKind::Mixed));
    // Untouched by the range, so no entry at all.
    assert_eq!(dots.get("quiet.rs"), None);
}

#[test]
fn every_node_has_one_parent() {
    let listed = ["a/b/c.rs", "a/d.rs", "a/b/e.rs", "f.rs", "a/d.rs", "g/h/i.rs"];
    let tree = build(&paths(&listed), &dots(&[("a/gone.rs", DotKind::Mixed)]), "repo");
    let mut places = vec![0; tree.nodes.len()];
    for k in &tree.roots {
        places[*k] += 1;
    }
    for node in &tree.nodes {
        for k in node.children.iter().flatten() {
            places[*k] += 1;
        }
    }
    assert_eq!(places, vec![1; 9]);
}

#[test]
fn merging_kinds_does_not_depend_on_their_order() {
    let kinds = [DotKind::Clean, DotKind::New, DotKind::Modified, DotKind::Mixed];
    for a in kinds {
        assert_eq!(merge(a, a), a);
        for b in kinds {
            assert_eq!(merge(a, b), merge(b, a));
            for c in kinds {
                assert_eq!(merge(merge(a, b), c), merge(a, merge(b, c)));
            }
        }
    }
}

#[test]
fn a_click_on_a_node_names_its_path() {
    let tree = build(&paths(&["src/lib.rs"]), &DotMap::new(), "repo");
    assert!(matches!(
        tree.file_clicked(id("src/lib.rs")),
        FileBrowserAction::OpenFile(path) if path == "src/lib.rs"
    ));
    assert!(matches!(tree.file_clicked(id("nowhere")), FileBrowserAction::Nothing));
}

#[test]
fn only_open_folders_are_drawn_into() {
    let tree = build(&paths(&["a/b.rs", "c.rs"]), &DotMap::new(), "repo");
    assert!(tree.draw(&vec![]).len() < tree.draw(&vec![id("")]).len());
    let shut = tree.draw(&vec![id("")]);
    let open = tree.draw(&vec![id(""), id("a")]);
    assert!(open.len() > shut.len());
    assert!(shut.iter().all(|s| !matches!(s, DrawStep::Open(k) if tree.nodes[*k].name == "a")));
}

#[test]
fn the_chip_names_the_revision_and_its_commit() {
    let oid = Oid { hi: 0x0123_4567_89ab_cdef_0123_4567_89ab_cdef, lo: 1 };
    assert_eq!(rev_chip("main", Some(oid)), "main · 0123456");
    assert_eq!(rev_chip("WORKTREE", None), "WORKTREE");
}

#[test]
fn a_browser_rebuilds_when_the_document_changes() {
    let mut browser = FileBrowser::new();
    let mut doc = ReviewDoc::default();
    doc.generation = 3;
    doc.files_rows = vec![header("a.rs")];
    let listed = paths(&["a.rs", "b.rs"]);
    assert!(browser.refresh(&doc, &listed, &path_set(&["a.rs"])));
    assert_eq!(browser.tree.get(id("a.rs")).unwrap().status, DotKind::New);
    assert_eq!(browser.tree.get(id("b.rs")).unwrap().status, DotKind::Clean);
    assert!(!browser.refresh(&doc, &listed, &path_set(&[])));
}
