use concats::commands::{
    checkout_message, conflict_message, detected_agents, install_report, install_targets,
    log_header, parse_tilde_suffix, push_hint, ref_display, resolve_agent, resolve_scope,
    resolve_session_ref, session_line, status_header, status_row, tilde_suffix_fits, turn_lines,
    uninstall_report, uninstall_targets, visible_turns, DiffStatus, FileChange, HookOutcome,
    InstallScope, ResolvedRef, SessionTurns, TurnEntry,
};
use concats::diff::Oid;
use concats::timestamp::{format_timestamp, or_seconds, Timestamp};

fn registry() -> Vec<String> {
    strings(&["codex", "cursor", "windsurf", "gemini", "copilot", "droid", "amp", "opencode"])
}

fn strings(list: &[&str]) -> Vec<String> {
    list.iter().map(|s| s.to_string()).collect()
}

#[test]
fn an_agent_is_found_whatever_its_case() {
    let agents = registry();
    assert_eq!(agents[resolve_agent("CoDeX", &agents).unwrap()], "codex");
}

#[test]
fn an_unknown_agent_is_told_which_there_are() {
    let agents = strings(&["amp", "codex"]);
    assert_eq!(
        resolve_agent("gpt", &agents).unwrap_err(),
        "unknown agent: gpt. Expected one of: amp, codex"
    );
    assert_eq!(install_targets(&strings(&["codex", "AMP"]), &agents).unwrap(), [1, 0]);
    assert!(install_targets(&strings(&["codex", "gpt"]), &agents).is_err());
    assert_eq!(uninstall_targets(&vec![], &agents).unwrap(), [0, 1]);
    assert_eq!(uninstall_targets(&strings(&["codex"]), &agents).unwrap(), [1]);
    assert_eq!(detected_agents(&vec![false, true, true], "amp").unwrap(), [1, 2]);
    assert_eq!(
        detected_agents(&vec![false; 9], "amp").unwrap_err(),
        "no coding agents detected. Install an agent (amp, codex, cursor, ...) or use \
         `concats hooks install <agent>` to wire up hooks explicitly."
    );
}

#[test]
fn tilde_suffixes_add_up() {
    assert_eq!(parse_tilde_suffix("session-a~3"), ("session-a".to_string(), 3));
    assert_eq!(parse_tilde_suffix("session-a~2~1"), ("session-a".to_string(), 3));
    assert_eq!(parse_tilde_suffix("session-a"), ("session-a".to_string(), 0));
    assert_eq!(parse_tilde_suffix("session-a~"), ("session-a".to_string(), 1));
    assert_eq!(parse_tilde_suffix("session-a~x"), ("session-a".to_string(), 1));
    assert!(tilde_suffix_fits("a~1~2"));
    assert!(!tilde_suffix_fits(&format!("a~{}~1", usize::MAX)));
}

fn oid(lead: u128) -> Oid {
    Oid { hi: lead << 96, lo: 0 }
}

#[test]
fn a_reference_resolves_from_the_tip() {
    let opened = Some(Ok(vec![oid(1), oid(2), oid(3)]));
    let sessions = vec![];
    assert_eq!(
        resolve_session_ref("s~2", &opened, &sessions),
        Ok(ResolvedRef { session: None, turn: 0, offset_from_tip: 2 })
    );
    assert_eq!(
        resolve_session_ref("s~3", &opened, &sessions).unwrap_err(),
        "offset ~3 out of range; session 's' has 3 turns"
    );
    assert_eq!(
        resolve_session_ref("s", &Some(Ok(vec![])), &sessions).unwrap_err(),
        "session 's' has no turns"
    );
    assert_eq!(
        resolve_session_ref("s", &Some(Err("unreadable".to_string())), &sessions).unwrap_err(),
        "unreadable"
    );
    assert_eq!(
        resolve_session_ref("s~1", &None, &sessions).unwrap_err(),
        "session 's' not found (tilde suffix only works with session names)"
    );
}

#[test]
fn a_bare_reference_is_tried_as_the_start_of_a_turn() {
    let sessions = vec![
        SessionTurns { id: "broken".to_string(), turns: None },
        SessionTurns { id: "a".to_string(), turns: Some(vec![oid(0xabcd_0000)]) },
        SessionTurns { id: "b".to_string(), turns: Some(vec![oid(0x1234_0000), oid(0x1234_5678)]) },
    ];
    assert_eq!(
        resolve_session_ref("1234", &None, &sessions),
        Ok(ResolvedRef { session: Some(2), turn: 0, offset_from_tip: 1 })
    );
    assert_eq!(
        resolve_session_ref("12345", &None, &sessions),
        Ok(ResolvedRef { session: Some(2), turn: 1, offset_from_tip: 0 })
    );
    assert_eq!(
        resolve_session_ref("ffff", &None, &sessions).unwrap_err(),
        "no session or turn matching 'ffff'"
    );
}

#[test]
fn a_history_ends_with_its_turn() {
    assert_eq!(visible_turns(5, 2, None), (0, 3));
    assert_eq!(visible_turns(5, 2, Some(2)), (1, 3));
    assert_eq!(visible_turns(5, 0, Some(9)), (0, 5));
    assert_eq!(visible_turns(5, 1, Some(0)), (4, 4));
}

#[test]
fn a_turn_prints_what_was_said_and_what_changed() {
    let entries = vec![
        TurnEntry::Prompt { text: "do it".to_string() },
        TurnEntry::Response { text: "one\ntwo".to_string() },
        TurnEntry::ToolCall { kind: "edit".to_string() },
    ];
    let changes = vec![
        FileChange { path: "a.rs".to_string(), status: DiffStatus::Added },
        FileChange { path: "b.rs".to_string(), status: DiffStatus::Modified },
        FileChange { path: "c.rs".to_string(), status: DiffStatus::Deleted },
        FileChange {
            path: "new.rs".to_string(),
            status: DiffStatus::Renamed { old_path: "old.rs".to_string() },
        },
    ];
    assert_eq!(
        turn_lines("abc1234", "then", &entries, &changes),
        [
            "turn abc1234 then",
            "  > do it",
            "  one",
            "  two",
            "  tool edit",
            "",
            "  A a.rs",
            "  M b.rs",
            "  D c.rs",
            "  R old.rs -> new.rs",
            ""
        ]
    );
    assert_eq!(turn_lines("abc1234", "then", &vec![], &vec![]), ["turn abc1234 then", ""]);
    assert_eq!(log_header("s", 2), "session s (2 turns)\n");
}

#[test]
fn a_session_is_listed_in_columns() {
    assert_eq!(
        session_line("abc", 7, "now"),
        format!("{:<40} {:>3} turns  {}", "abc", 7, "now")
    );
    assert!(push_hint().contains("git push <remote> 'refs/agent/sessions/<id>'"));
}

#[test]
fn a_conflict_lists_the_first_files() {
    assert_eq!(
        conflict_message(&strings(&["a.rs"])),
        "checkout would overwrite local changes in 1 file:\n  a.rs\n\nuse --force to discard these changes"
    );
    let many: Vec<String> = (0..22).map(|i| format!("f{i}")).collect();
    let text = conflict_message(&many);
    assert!(text.starts_with("checkout would overwrite local changes in 22 files:\n  f0\n"));
    assert!(text.contains("  f19\n  ... and 2 more\n\nuse --force"));
    assert!(!text.contains("f20"));
}

#[test]
fn a_shown_reference_reads_back() {
    assert_eq!(ref_display("s", 0), "s");
    assert_eq!(ref_display("s", 4), "s~4");
    assert_eq!(parse_tilde_suffix(&ref_display("s", 4)), ("s".to_string(), 4));
    assert!(checkout_message("abc", "s", 2).contains("  concats log s~2\n"));
    assert!(checkout_message("abc", "s", 0).starts_with("Checked out turn abc (from session s)."));
}

#[test]
fn hooks_go_to_the_user_or_to_a_project() {
    assert!(matches!(resolve_scope(None, true, None), Some(InstallScope::User)));
    assert!(matches!(
        resolve_scope(Some("/p".to_string()), false, Some("/c".to_string())),
        Some(InstallScope::Project { root }) if root == "/p"
    ));
    assert!(matches!(
        resolve_scope(None, false, Some("/c".to_string())),
        Some(InstallScope::Project { root }) if root == "/c"
    ));
    assert!(resolve_scope(None, false, None).is_none());
}

#[test]
fn hook_reports_name_each_agent_once() {
    let outcomes = vec![
        HookOutcome { agent: "gemini".to_string(), error: None },
        HookOutcome { agent: "codex".to_string(), error: Some("denied".to_string()) },
        HookOutcome { agent: "amp".to_string(), error: None },
    ];
    assert_eq!(
        install_report(&outcomes),
        [
            "warning: failed to install hooks for codex: denied",
            "hooks installed for: gemini, amp"
        ]
    );
    assert_eq!(
        uninstall_report(&outcomes),
        [
            "warning: failed to uninstall hooks for codex: denied",
            "hooks removed for: gemini, amp"
        ]
    );
    assert_eq!(install_report(&vec![]), ["no agents were installed"]);
    assert_eq!(uninstall_report(&vec![]), ["no hooks were removed"]);
    let (head, rule) = status_header();
    assert_eq!(head, format!("{:<12} {:<10} Installed", "Agent", "Detected"));
    assert_eq!(rule, format!("{:<12} {:<10} ---------", "-----", "--------"));
    assert_eq!(status_row("codex", true, false), format!("{:<12} {:<10} no", "codex", "yes"));
}

#[test]
fn a_time_is_written_with_its_offset() {
    let t = Timestamp { seconds: 1_700_000_000, nanos: 0, offset: 3_600 };
    assert_eq!(format_timestamp(t), "2023-11-14T23:13:20+01:00");
    let utc = Timestamp { seconds: 0, nanos: 500_000_000, offset: 0 };
    assert_eq!(format_timestamp(utc), "1970-01-01T00:00:00.5Z");
}

#[test]
fn a_time_that_cannot_be_written_is_counted() {
    // The format has no seconds in its offset, and no years before zero.
    let odd = Timestamp { seconds: 5, nanos: 0, offset: 1 };
    assert_eq!(format_timestamp(odd), "5");
    let early = Timestamp { seconds: i64::MIN, nanos: 0, offset: 0 };
    assert_eq!(format_timestamp(early), i64::MIN.to_string());
    assert_eq!(or_seconds(Some("then".to_string()), 5), "then");
    assert_eq!(or_seconds(None, -5), "-5");
}
