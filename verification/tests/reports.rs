use cursor_analysis::aggregate::{
    get_all_projects, get_full_analysis, get_overview, get_workspaces, make_project,
    overview_of_projects, session_totals, workspace_info,
};
use cursor_analysis::session::parse_composer_data;
use cursor_analysis::storage::StorageSizes;
use cursor_analysis::store::{StoreAnswers, Tally};
use cursor_analysis::workspace::WorkspaceSnapshot;

fn store(id: &str, descriptor: Option<&str>, sessions: Option<&str>) -> WorkspaceSnapshot {
    WorkspaceSnapshot {
        id: id.to_string(),
        descriptor: descriptor.map(|s| s.to_string()),
        workspace_file: None,
        has_store: true,
        session_list: sessions.map(|s| s.to_string()),
    }
}

fn list(records: &[&str]) -> String {
    format!("{{\"allComposers\":[{}]}}", records.join(","))
}

fn head(id: &str, mode: &str, added: i64, removed: i64, files: i64) -> String {
    format!(
        "{{\"type\":\"head\",\"composerId\":\"{}\",\"unifiedMode\":\"{}\",\"totalLinesAdded\":{},\"totalLinesRemoved\":{},\"filesChangedCount\":{}}}",
        id, mode, added, removed, files
    )
}

#[test]
fn a_workspace_adds_up_its_sessions() {
    let sessions = list(&[&head("a", "agent", 10, 1, 2), &head("b", "chat", 5, 2, 3)]);
    let snapshot = store("ws1", Some(r#"{"folder":"file:///home/ann/app"}"#), Some(&sessions));
    let info = workspace_info(&snapshot);
    assert_eq!(info.id, "ws1");
    assert_eq!(info.created_at, "");
    assert_eq!(info.projects, vec!["/home/ann/app"]);
    assert_eq!(info.chat_count, 2);
    assert_eq!(info.lines_added, 15);
    assert_eq!(info.lines_removed, 3);
    assert_eq!(info.files_changed, 5);
    assert_eq!(info.recent_chats.len(), 2);
    assert!(!info.is_multi_project);
}

#[test]
fn a_multi_project_workspace_carries_its_creation_time_and_projects() {
    let sessions = list(&[&head("a", "agent", 1, 0, 0)]);
    let snapshot = WorkspaceSnapshot {
        id: "ws2".to_string(),
        descriptor: Some(r#"{"workspace":"file:///ws/1700000000000/set.code-workspace"}"#.to_string()),
        workspace_file: Some(r#"{"folders":[{"path":"/p/one"},{"uri":"file:///p/two"}]}"#.to_string()),
        has_store: true,
        session_list: Some(sessions),
    };
    let info = workspace_info(&snapshot);
    assert!(info.is_multi_project);
    assert_eq!(info.created_at, "2023-11-14 22:13");
    assert_eq!(info.projects, vec!["/p/one", "/p/two"]);
    assert_eq!(info.chat_count, 1);
}

#[test]
fn a_folder_takes_precedence_over_a_workspace_file() {
    let snapshot = WorkspaceSnapshot {
        id: "both".to_string(),
        descriptor: Some(
            r#"{"folder":"file:///p/solo","workspace":"file:///ws/1700000000000/w.json"}"#.to_string(),
        ),
        workspace_file: Some(r#"{"folders":[{"path":"/p/one"}]}"#.to_string()),
        has_store: true,
        session_list: None,
    };
    let info = workspace_info(&snapshot);
    assert!(!info.is_multi_project);
    assert_eq!(info.created_at, "");
    assert_eq!(info.projects, vec!["/p/solo"]);
    assert_eq!(info.chat_count, 0);
}

#[test]
fn workspaces_without_sessions_are_not_reported() {
    let with = list(&[&head("a", "agent", 1, 0, 0)]);
    let drafts = list(&["{\"type\":\"draft\",\"composerId\":\"d\"}"]);
    let snapshots = vec![
        store("empty", Some(r#"{"folder":"file:///p/empty"}"#), Some(&list(&[]))),
        store("drafts", Some(r#"{"folder":"file:///p/drafts"}"#), Some(&drafts)),
        store("unread", Some(r#"{"folder":"file:///p/unread"}"#), None),
        store("broken", Some(r#"{"folder":"file:///p/broken"}"#), Some("{")),
        store("full", Some(r#"{"folder":"file:///p/full"}"#), Some(&with)),
    ];
    let workspaces = get_workspaces(&snapshots);
    assert_eq!(workspaces.len(), 1);
    assert_eq!(workspaces[0].id, "full");
    let projects = get_all_projects(&snapshots);
    assert_eq!(projects.len(), 1);
    assert_eq!(projects[0].path, "/p/full");
    for w in &workspaces {
        assert!(w.chat_count > 0 && !w.recent_chats.is_empty());
    }
    for p in &projects {
        assert!(p.chat_count > 0 && !p.chats.is_empty());
    }
}

#[test]
fn a_store_that_is_not_there_holds_no_sessions() {
    let with = list(&[&head("a", "agent", 1, 0, 0)]);
    let mut snapshot = store("gone", Some(r#"{"folder":"file:///p/gone"}"#), Some(&with));
    snapshot.has_store = false;
    assert!(get_workspaces(&vec![snapshot.clone()]).is_empty());
    assert!(get_all_projects(&vec![snapshot]).is_empty());
}

#[test]
fn an_unresolved_workspace_is_reported_with_its_sessions() {
    let with = list(&[&head("a", "agent", 4, 0, 0)]);
    let snapshots = vec![
        store("no-descriptor", None, Some(&with)),
        store("no-fields", Some("{}"), Some(&with)),
        store("bad-descriptor", Some("nonsense"), Some(&with)),
    ];
    let workspaces = get_workspaces(&snapshots);
    assert_eq!(workspaces.len(), 3);
    let ids: Vec<&str> = workspaces.iter().map(|w| w.id.as_str()).collect();
    assert_eq!(ids, vec!["no-descriptor", "no-fields", "bad-descriptor"]);
    for w in &workspaces {
        assert!(w.projects.is_empty());
        assert!(!w.is_multi_project);
        assert_eq!(w.lines_added, 4);
    }
    assert!(get_all_projects(&snapshots).is_empty());
}

#[test]
fn workspaces_are_ordered_by_lines_added() {
    let snapshots = vec![
        store("small", None, Some(&list(&[&head("a", "agent", 1, 0, 0)]))),
        store("large", None, Some(&list(&[&head("b", "agent", 100, 0, 0)]))),
        store("tie-1", None, Some(&list(&[&head("c", "agent", 50, 0, 0)]))),
        store("tie-2", None, Some(&list(&[&head("d", "agent", 20, 0, 0), &head("e", "agent", 30, 0, 0)]))),
        store("negative", None, Some(&list(&[&head("f", "agent", -5, 0, 0)]))),
    ];
    let ids: Vec<String> = get_workspaces(&snapshots).into_iter().map(|w| w.id).collect();
    assert_eq!(ids, vec!["large", "tie-1", "tie-2", "small", "negative"]);
}

#[test]
fn workspaces_of_one_folder_are_one_project() {
    let app = r#"{"folder":"file:///home/ann/my%20app"}"#;
    let snapshots = vec![
        store("w1", Some(app), Some(&list(&[&head("a", "agent", 10, 1, 1)]))),
        store("w2", Some(r#"{"folder":"file:///home/ann/tool"}"#), Some(&list(&[&head("t", "chat", 3, 3, 3)]))),
        store("w3", Some(app), Some(&list(&[&head("b", "chat", 20, 2, 2), &head("c", "agent", 30, 3, 3)]))),
    ];
    let projects = get_all_projects(&snapshots);
    assert_eq!(projects.len(), 2);
    let app = &projects[0];
    assert_eq!(app.path, "/home/ann/my app");
    assert_eq!(app.name, "my app");
    assert_eq!(app.chat_count, 3);
    assert_eq!(app.lines_added, 60);
    assert_eq!(app.lines_removed, 6);
    assert_eq!(app.files_changed, 6);
    let chats: Vec<&str> = app.chats.iter().map(|c| c.id.as_str()).collect();
    assert_eq!(chats, vec!["a", "b", "c"]);
    let tool = &projects[1];
    assert_eq!(tool.name, "tool");
    assert_eq!(tool.chat_count, 1);
    assert_eq!(tool.lines_added, 3);
}

#[test]
fn projects_are_ordered_by_lines_added_and_then_by_first_appearance() {
    let snapshots = vec![
        store("w1", Some(r#"{"folder":"/p/one"}"#), Some(&list(&[&head("a", "x", 5, 0, 0)]))),
        store("w2", Some(r#"{"folder":"/p/two"}"#), Some(&list(&[&head("b", "x", 9, 0, 0)]))),
        store("w3", Some(r#"{"folder":"/p/three"}"#), Some(&list(&[&head("c", "x", 5, 0, 0)]))),
        store("w4", Some(r#"{"folder":"/p/four"}"#), Some(&list(&[&head("d", "x", 5, 0, 0)]))),
    ];
    let paths: Vec<String> = get_all_projects(&snapshots).into_iter().map(|p| p.path).collect();
    assert_eq!(paths, vec!["/p/two", "/p/one", "/p/three", "/p/four"]);
}

#[test]
fn multi_project_workspaces_count_for_no_project() {
    let sessions = list(&[&head("a", "agent", 1, 0, 0)]);
    let snapshot = WorkspaceSnapshot {
        id: "multi".to_string(),
        descriptor: Some(r#"{"workspace":"file:///ws/w.json"}"#.to_string()),
        workspace_file: Some(r#"{"folders":[{"path":"/p/one"}]}"#.to_string()),
        has_store: true,
        session_list: Some(sessions),
    };
    let snapshots = vec![snapshot, store("empty-folder", Some(r#"{"folder":"file://"}"#), Some(&list(&[&head("z", "agent", 1, 0, 0)])))];
    assert!(get_all_projects(&snapshots).is_empty());
    assert_eq!(get_workspaces(&snapshots).len(), 2);
}

#[test]
fn a_project_is_named_after_the_last_segment_of_its_path() {
    assert_eq!(make_project("/home/ann/app".to_string(), Vec::new()).name, "app");
    assert_eq!(make_project("app".to_string(), Vec::new()).name, "app");
    assert_eq!(make_project("/home/ann/".to_string(), Vec::new()).name, "");
    assert_eq!(make_project("C:\\work\\app".to_string(), Vec::new()).name, "C:\\work\\app");
    let empty = make_project("/p".to_string(), Vec::new());
    assert_eq!(empty.chat_count, 0);
    assert_eq!(empty.lines_added, 0);
}

#[test]
fn sums_stay_within_the_counters() {
    let big = i64::MAX;
    let sessions = parse_composer_data(&list(&[
        &head("a", "agent", big, i64::MIN, 1),
        &head("b", "agent", big, i64::MIN, 2),
        &head("c", "agent", -1, 1, -4),
    ]));
    let totals = session_totals(&sessions);
    assert_eq!(totals.0, i64::MAX);
    assert_eq!(totals.1, i64::MIN);
    assert_eq!(totals.2, -1);
    let back = parse_composer_data(&list(&[
        &head("a", "agent", big, 0, 0),
        &head("b", "agent", big, 0, 0),
        &head("c", "agent", -big, 0, 0),
    ]));
    assert_eq!(session_totals(&back).0, i64::MAX);
    assert_eq!(session_totals(&Vec::new()), (0, 0, 0));
}

#[test]
fn the_overview_adds_up_the_projects() {
    let snapshots = vec![
        store("w1", Some(r#"{"folder":"/p/one"}"#), Some(&list(&[
            &head("a", "agent", 10, 4, 1),
            &head("b", "chat", 20, 5, 2),
            &head("c", "something else", 1, 1, 1),
            "{\"type\":\"head\",\"composerId\":\"no mode\"}",
        ]))),
        store("w2", Some(r#"{"folder":"/p/two"}"#), Some(&list(&[&head("d", "agent", 100, 200, 7)]))),
        store("w3", None, Some(&list(&[&head("e", "agent", 1000, 0, 0)]))),
    ];
    let overview = get_overview(&snapshots);
    assert_eq!(overview.total_projects, 2);
    assert_eq!(overview.total_chats, 5);
    assert_eq!(overview.total_lines_added, 131);
    assert_eq!(overview.total_lines_removed, 210);
    assert_eq!(overview.net_lines, -79);
    assert_eq!(overview.total_files_changed, 11);
    assert_eq!(overview.agent_mode_count, 2);
    assert_eq!(overview.chat_mode_count, 3);
    assert_eq!(overview, overview_of_projects(&get_all_projects(&snapshots)));
}

#[test]
fn the_overview_of_nothing_is_zero() {
    let overview = get_overview(&Vec::new());
    assert_eq!(overview.total_projects, 0);
    assert_eq!(overview.total_chats, 0);
    assert_eq!(overview.net_lines, 0);
    assert_eq!(overview.agent_mode_count, 0);
    assert_eq!(overview.chat_mode_count, 0);
}

#[test]
fn the_net_lines_stay_within_the_counter() {
    let snapshots = vec![store(
        "w",
        Some(r#"{"folder":"/p"}"#),
        Some(&list(&[&head("a", "agent", i64::MAX, i64::MIN, 0)])),
    )];
    let overview = get_overview(&snapshots);
    assert_eq!(overview.total_lines_added, i64::MAX);
    assert_eq!(overview.total_lines_removed, i64::MIN);
    assert_eq!(overview.net_lines, i64::MAX);
}

#[test]
fn the_full_analysis_holds_every_report() {
    let snapshots = vec![store(
        "w1",
        Some(r#"{"folder":"/p/one"}"#),
        Some(&list(&[&head("a", "agent", 10, 4, 1)])),
    )];
    let sizes = StorageSizes {
        global_storage: 4096,
        history: 0,
        workspace_storage: 1024,
        state_vscdb: 2048,
        state_vscdb_backup: 0,
    };
    let some = Tally { count: Some(1), size: Some(10) };
    let none = Tally { count: None, size: None };
    let answers = StoreAnswers {
        item_table: some,
        disk_kv: none,
        bubble: none,
        composer: none,
        checkpoint: none,
        agent_kv: none,
    };
    assert!(sizes.can_be_summed());
    let all = get_full_analysis(&sizes, &answers, &snapshots);
    assert_eq!(all.storage.total_size, 5120);
    assert_eq!(all.storage.total_size_human, "5.00 KB");
    assert_eq!(all.storage.state_vscdb_size, 2048);
    assert_eq!(all.database.item_table_count, 1);
    assert_eq!(all.database.bubble_count, 0);
    assert_eq!(all.overview.total_chats, 1);
    assert_eq!(all.projects.len(), 1);
    assert_eq!(all.projects[0].name, "one");
    assert_eq!(all.workspaces.len(), 1);
    assert_eq!(all.workspaces[0].id, "w1");
}

#[test]
fn sizes_that_cannot_be_summed_are_told_apart() {
    let too_much = StorageSizes {
        global_storage: u64::MAX,
        history: 1,
        workspace_storage: 0,
        state_vscdb: 0,
        state_vscdb_backup: 0,
    };
    assert!(!too_much.can_be_summed());
    let just_enough = StorageSizes {
        global_storage: u64::MAX - 1,
        history: 1,
        workspace_storage: 0,
        state_vscdb: 0,
        state_vscdb_backup: 0,
    };
    assert!(just_enough.can_be_summed());
}

fn dated(id: &str, updated: i64) -> String {
    format!("{{\"type\":\"head\",\"composerId\":\"{}\",\"lastUpdatedAt\":{}}}", id, updated)
}

#[test]
fn the_sessions_of_a_project_are_in_order_across_its_workspaces() {
    let app = r#"{"folder":"file:///home/ann/app"}"#;
    let snapshots = vec![
        store("first", Some(app), Some(&list(&[&dated("early", 1_600_000_000_000), "{\"type\":\"head\",\"composerId\":\"undated\"}"]))),
        store("second", Some(app), Some(&list(&[&dated("late", 1_700_000_000_000), &dated("middle", 1_650_000_000_000)]))),
        store("third", Some(app), Some(&list(&[&dated("tie", 1_600_000_000_000), "{\"type\":\"head\",\"composerId\":\"undated-2\"}"]))),
    ];
    let projects = get_all_projects(&snapshots);
    assert_eq!(projects.len(), 1);
    let ids: Vec<&str> = projects[0].chats.iter().map(|c| c.id.as_str()).collect();
    assert_eq!(ids, vec!["late", "middle", "early", "tie", "undated", "undated-2"]);
    assert_eq!(projects[0].chat_count, 6);
    let times: Vec<Option<String>> = projects[0].chats.iter().map(|c| c.updated_at.clone()).collect();
    for pair in times.windows(2) {
        assert!(pair[0] >= pair[1]);
    }
}
