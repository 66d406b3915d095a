use concats::diff::{Blob, Oid};
use concats::review_doc::ReviewDoc;
use concats::window::WindowState;
use std::sync::Arc;

fn named(repo: &str) -> ReviewDoc {
    let mut doc = ReviewDoc::default();
    doc.repo = repo.to_string();
    doc
}

fn failed(error: &str) -> ReviewDoc {
    let mut doc = ReviewDoc::default();
    doc.error = Some(error.to_string());
    doc
}

fn blob(text: &str) -> Blob {
    Blob {
        oid: Oid { hi: 7, lo: 7 },
        label: "/repo/a.rs".to_string(),
        edit_rev: 0,
        editable: true,
        text: text.to_string(),
        lines: vec![text.trim_end().to_string()],
        line_starts: vec![0],
    }
}

/// Lands a document into which nothing is carried over but the window's own.
fn land(state: &mut WindowState, request: u64, next: ReviewDoc) -> bool {
    let carried = state.prepared(next.copy());
    state.land(request, next, carried)
}

#[test]
fn a_superseded_load_cannot_replace_the_current_document() {
    let mut state = WindowState::new(1, String::new());
    let old = state.next_load();
    let current = state.next_load();
    assert!(land(&mut state, current, named("current")));
    assert!(!land(&mut state, old, named("stale")));
    assert!(!land(&mut state, old, failed("stale error")));
    assert_eq!(state.read().repo, "current");
    assert!(state.read().error.is_none());
}

#[test]
fn typing_a_comment_does_not_clone_a_shared_review_document() {
    let mut state = WindowState::new(1, String::new());
    let drawing = state.snapshot();
    state.compose_draft.push_str("unfinished comment");
    assert!(Arc::ptr_eq(&drawing, &state.snapshot()));
    assert_eq!(state.compose_draft, "unfinished comment");
}

#[test]
fn a_failed_reload_keeps_edits_made_while_loading() {
    let mut state = WindowState::new(1, String::new());
    let mut doc = named("/repo");
    doc.git_dir = Some("/repo/.git".to_string());
    doc.blobs.push(blob("before\n"));
    doc.loading = true;
    state.write(doc);
    let request = state.next_load();
    let mut edited = state.read().copy();
    edited.blobs[0].text = "typed\nbefore\n".to_string();
    edited.blobs[0].edit_rev += 1;
    state.write(edited);
    state.compose_draft = "unfinished comment".to_string();
    assert!(land(&mut state, request, failed("index temporarily unavailable")));
    let doc = state.read();
    assert_eq!(doc.repo, "/repo");
    assert_eq!(doc.blobs[0].text, "typed\nbefore\n");
    assert_eq!(doc.blobs[0].edit_rev, 1);
    assert_eq!(doc.error.as_deref(), Some("index temporarily unavailable"));
    assert!(!doc.loading);
    assert_eq!(state.compose_draft, "unfinished comment");
}

#[test]
fn a_landed_load_keeps_what_belongs_to_the_window() {
    let mut state = WindowState::new(1, String::new());
    let mut doc = named("/repo");
    doc.folded.insert("a.rs");
    state.write(doc);
    state.compose_draft = "draft".to_string();
    let request = state.next_load();
    let generation = state.read().generation;
    assert!(land(&mut state, request, named("/repo")));
    assert!(state.read().folded.contains("a.rs"));
    assert_eq!(state.read().generation, generation + 1);
    assert_eq!(state.compose_draft, "draft");
    // Another repository's draft does not follow.
    assert!(land(&mut state, request, named("/other")));
    assert_eq!(state.compose_draft, "");
}

#[test]
fn what_is_carried_over_is_what_lands() {
    let mut state = WindowState::new(1, String::new());
    state.write(named("/repo"));
    let request = state.next_load();
    let mut carried = state.prepared(named("/repo"));
    carried.blobs.push(blob("typed\n"));
    assert!(state.land(request, named("/repo"), carried));
    assert_eq!(state.read().blobs[0].text, "typed\n");
    assert_eq!(state.read().generation, 1);
}

#[test]
fn a_window_without_a_document_takes_even_a_failure() {
    let mut state = WindowState::detached();
    assert_eq!(state.id, 0);
    let request = state.next_load();
    assert!(state.load_is_current(request));
    assert!(land(&mut state, request, failed("no repository")));
    assert_eq!(state.read().error.as_deref(), Some("no repository"));
    state.set_focused(true);
    assert!(state.is_focused());
}
