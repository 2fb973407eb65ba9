use cursor_analysis::aggregate::{get_all_projects, get_overview};
use cursor_analysis::json::Json;
use cursor_analysis::mutation::{
    cascade_prefixes, count_selected, delete_batch, delete_chat, delete_chats_batch, delete_one,
    delete_project_chats, delete_selected, delete_workspace, delete_workspace_chats,
    is_selected_record, key_begins_with, key_is_left_over, label_of_workspace, remove_sessions,
    split_sessions, steps, MutationError, Selection, Step,
};
use cursor_analysis::session::parse_composer_data;
use cursor_analysis::trash::TrashLedger;
use cursor_analysis::workspace::WorkspaceSnapshot;

const STORE: &str = r#"{"allComposers":[
    {"type":"head","composerId":"A","name":"first","unifiedMode":"agent","totalLinesAdded":10,"unknownField":[1,2,3]},
    {"type":"draft","composerId":"draft-1","name":"a draft"},
    {"type":"head","composerId":"B","name":"second","unifiedMode":"chat","totalLinesAdded":5}
],"selectedComposerId":"A","version":3}"#;

fn parsed(text: &str) -> serde_json::Value {
    serde_json::from_str(text).expect("valid JSON")
}

fn record_ids(text: &str) -> Vec<String> {
    parsed(text)["allComposers"]
        .as_array()
        .expect("an array")
        .iter()
        .map(|r| r["composerId"].as_str().unwrap_or("").to_string())
        .collect()
}

fn written(value: &Option<String>) -> &str {
    value.as_deref().expect("a list to write back")
}

fn snapshot(sessions: Option<&str>) -> WorkspaceSnapshot {
    WorkspaceSnapshot {
        id: "ws-1".to_string(),
        descriptor: Some(r#"{"folder":"file:///home/ann/app"}"#.to_string()),
        workspace_file: None,
        has_store: true,
        session_list: sessions.map(|s| s.to_string()),
    }
}

#[test]
fn one_session_is_removed_and_filed() {
    let removal = delete_one(Some(STORE), "A", "/home/ann/app", "2024-06-01 08:00:00")
        .expect("the session is there");
    assert_eq!(removal.removed, 1);
    assert_eq!(record_ids(written(&removal.value)), vec!["draft-1", "B"]);
    assert_eq!(parsed(written(&removal.value))["selectedComposerId"], serde_json::Value::from("A"));
    assert_eq!(parsed(written(&removal.value))["version"], serde_json::Value::from(3));
    assert_eq!(removal.archived.len(), 1);
    let kept = &removal.archived[0];
    assert_eq!(kept.chat_id, "A");
    assert_eq!(kept.chat_name, "first");
    assert_eq!(kept.project_path, "/home/ann/app");
    assert_eq!(kept.mode, "agent");
    assert_eq!(kept.lines_added, 10);
    assert_eq!(kept.deleted_at, "2024-06-01 08:00:00");
    assert_eq!(parsed(&kept.original_data), parsed(STORE)["allComposers"][0]);
    assert_eq!(removal.cascade, vec!["A"]);
}

#[test]
fn removing_a_session_and_listing_the_trash() {
    let mut ledger = TrashLedger::init_trash_db();
    let before = parse_composer_data(STORE).len();
    let removal = delete_chat(Some(STORE), "/home/ann/app", "B").expect("the session is there");
    let value = removal.value.clone();
    for entry in removal.archived {
        assert!(ledger.append(entry).is_some());
    }
    let items = ledger.get_trash_items();
    assert_eq!(items.len(), 1);
    assert_eq!(items[0].chat_id, "B");
    assert_eq!(items[0].project_path, "/home/ann/app");
    assert_eq!(items[0].deleted_at.len(), 19);
    assert!(items[0].deleted_at.as_str() > "2024-01-01 00:00:00");
    assert_eq!(parsed(&items[0].original_data), parsed(STORE)["allComposers"][2]);
    let after = parse_composer_data(written(&value));
    assert_eq!(after.len(), before - 1);
    assert_eq!(after[0].id, "A");
}

#[test]
fn a_session_that_is_not_there_is_not_found() {
    assert_eq!(
        delete_one(Some(STORE), "Z", "/p", "now").err(),
        Some(MutationError::NotFound)
    );
    assert_eq!(delete_chat(Some(STORE), "/p", "Z").err(), Some(MutationError::NotFound));
    assert_eq!(
        delete_one(Some(r#"{"allComposers":[]}"#), "A", "/p", "now").err(),
        Some(MutationError::NotFound)
    );
}

#[test]
fn a_list_without_records_holds_no_session_to_remove() {
    assert_eq!(delete_one(Some("{}"), "A", "/p", "now").err(), Some(MutationError::NotFound));
    assert_eq!(
        delete_one(Some(r#"{"version":3}"#), "A", "/p", "now").err(),
        Some(MutationError::NotFound)
    );
    assert_eq!(
        delete_one(Some(r#"{"allComposers":{"A":1}}"#), "A", "/p", "now").err(),
        Some(MutationError::NotFound)
    );
    assert_eq!(delete_one(Some("[1,2]"), "A", "/p", "now").err(), Some(MutationError::NotFound));
    assert_eq!(delete_chat(Some("{}"), "/p", "A").err(), Some(MutationError::NotFound));
}

#[test]
fn a_missing_or_corrupt_session_list_fails_every_removal() {
    assert_eq!(delete_chat(None, "/p", "A").err(), Some(MutationError::NotFound));
    assert_eq!(delete_chat(Some("{"), "/p", "A").err(), Some(MutationError::Corrupt));
    assert_eq!(
        delete_chats_batch(None, "/p", vec!["A".to_string()]).err(),
        Some(MutationError::NotFound)
    );
    assert_eq!(
        delete_chats_batch(Some("not json"), "/p", vec!["A".to_string()]).err(),
        Some(MutationError::Corrupt)
    );
    assert_eq!(delete_project_chats(None, "/p").err(), Some(MutationError::NotFound));
    assert_eq!(delete_project_chats(Some(""), "/p").err(), Some(MutationError::Corrupt));
    assert_eq!(
        delete_selected(None, &Selection::Heads, "/p", "now").err(),
        Some(MutationError::NotFound)
    );
    assert_eq!(
        delete_selected(Some("[1,"), &Selection::Heads, "/p", "now").err(),
        Some(MutationError::Corrupt)
    );
}

#[test]
fn a_list_without_records_loses_nothing() {
    for text in [r#"{"version":3}"#, r#"{"allComposers":{"A":1}}"#, "[1,2]", r#"{"allComposers":[]}"#] {
        let removal = delete_selected(Some(text), &Selection::Heads, "/p", "now")
            .expect("a valid list");
        assert_eq!(removal.removed, 0);
        assert_eq!(removal.value, None);
        assert!(removal.archived.is_empty());
        assert!(removal.cascade.is_empty());
        assert!(steps(removal).is_empty());
    }
}

#[test]
fn a_batch_removes_the_sessions_it_names() {
    let ids = vec!["B".to_string(), "missing".to_string(), "draft-1".to_string()];
    let removal = delete_chats_batch(Some(STORE), "/home/ann/app", ids).expect("a valid list");
    assert_eq!(removal.removed, 2);
    assert_eq!(record_ids(written(&removal.value)), vec!["A"]);
    let filed: Vec<&str> = removal.archived.iter().map(|e| e.chat_id.as_str()).collect();
    assert_eq!(filed, vec!["draft-1", "B"]);
    assert_eq!(removal.cascade, vec!["draft-1", "B"]);
}

#[test]
fn a_batch_of_absent_ids_changes_nothing() {
    let removal = delete_chats_batch(Some(STORE), "/home/ann/app", vec!["nobody".to_string()])
        .expect("a valid list");
    assert_eq!(removal.removed, 0);
    assert_eq!(removal.value, None);
    assert!(removal.archived.is_empty());
    assert!(removal.cascade.is_empty());
    assert!(steps(removal).is_empty());
    // Asking again gives the same.
    let again = delete_chats_batch(Some(STORE), "/home/ann/app", vec!["nobody".to_string()])
        .expect("a valid list");
    assert_eq!(again.removed, 0);
    assert!(steps(again).is_empty());
}

#[test]
fn a_batch_without_ids_does_nothing_whatever_the_store_holds() {
    for list in [Some(STORE), Some("{"), Some(""), None] {
        let removal = delete_chats_batch(list, "/home/ann/app", Vec::new()).expect("nothing to do");
        assert_eq!(removal.removed, 0);
        assert_eq!(removal.value, None);
        assert!(removal.archived.is_empty());
        assert!(removal.cascade.is_empty());
        assert!(steps(removal).is_empty());
        let at = delete_batch(list, Vec::new(), "/home/ann/app", "now").expect("nothing to do");
        assert_eq!(at.removed, 0);
        assert!(steps(at).is_empty());
    }
}

#[test]
fn every_session_of_a_project_is_removed() {
    let removal = delete_project_chats(Some(STORE), "/home/ann/app").expect("a valid list");
    assert_eq!(removal.removed, 2);
    assert_eq!(record_ids(written(&removal.value)), vec!["draft-1"]);
    let filed: Vec<&str> = removal.archived.iter().map(|e| e.chat_id.as_str()).collect();
    assert_eq!(filed, vec!["A", "B"]);
    assert_eq!(removal.cascade, vec!["A", "B"]);
    assert!(parse_composer_data(written(&removal.value)).is_empty());
}

#[test]
fn a_session_without_an_id_is_removed_with_the_others() {
    let text = r#"{"allComposers":[{"type":"head","name":"anonymous"},{"type":"head","composerId":"A"}]}"#;
    let removal = delete_project_chats(Some(text), "/p").expect("a valid list");
    assert_eq!(removal.removed, 2);
    assert_eq!(removal.archived.len(), 2);
    assert_eq!(removal.archived[0].chat_id, "");
    assert_eq!(removal.archived[0].chat_name, "anonymous");
    assert_eq!(removal.cascade, vec!["A"]);
    assert!(record_ids(written(&removal.value)).is_empty());
}

#[test]
fn every_session_of_a_workspace_is_removed() {
    let removal = delete_workspace_chats(&snapshot(Some(STORE))).expect("a valid list");
    assert_eq!(removal.removed, 2);
    assert_eq!(record_ids(written(&removal.value)), vec!["draft-1"]);
    assert_eq!(removal.archived[0].project_path, "/home/ann/app");
    assert_eq!(removal.archived[1].project_path, "/home/ann/app");
    assert_eq!(removal.archived[0].deleted_at.len(), 19);
    let at = delete_workspace(&snapshot(Some(STORE)), "2024-06-01 08:00:00").expect("a valid list");
    assert_eq!(at.removed, 2);
    assert_eq!(at.archived[1].deleted_at, "2024-06-01 08:00:00");
}

#[test]
fn a_workspace_without_a_store_is_not_found() {
    let mut gone = snapshot(Some(STORE));
    gone.has_store = false;
    assert_eq!(delete_workspace_chats(&gone).err(), Some(MutationError::NotFound));
    assert_eq!(delete_workspace_chats(&snapshot(None)).err(), Some(MutationError::NotFound));
    assert_eq!(delete_workspace_chats(&snapshot(Some("{"))).err(), Some(MutationError::Corrupt));
}

#[test]
fn a_workspace_without_a_folder_is_filed_under_its_id() {
    let mut unresolved = snapshot(Some(STORE));
    unresolved.descriptor = None;
    assert_eq!(label_of_workspace(&unresolved), "[工作区] ws-1");
    unresolved.descriptor = Some("{".to_string());
    assert_eq!(label_of_workspace(&unresolved), "[工作区] ws-1");
    unresolved.descriptor = Some(r#"{"workspace":"file:///ws/w.json"}"#.to_string());
    assert_eq!(label_of_workspace(&unresolved), "[工作区] ws-1");
    let removal = delete_workspace_chats(&unresolved).expect("a valid list");
    assert_eq!(removal.archived[0].project_path, "[工作区] ws-1");
    assert_eq!(label_of_workspace(&snapshot(None)), "/home/ann/app");
}

#[test]
fn records_are_selected_by_id_or_by_kind() {
    let head = Json::parse(r#"{"type":"head","composerId":"A"}"#).expect("valid JSON");
    let draft = Json::parse(r#"{"type":"draft","composerId":"D"}"#).expect("valid JSON");
    let numbered = Json::parse(r#"{"type":"head","composerId":7}"#).expect("valid JSON");
    let by_id = Selection::Ids(vec!["D".to_string(), "7".to_string()]);
    assert!(!is_selected_record(&head, &by_id));
    assert!(is_selected_record(&draft, &by_id));
    assert!(!is_selected_record(&numbered, &by_id));
    assert!(is_selected_record(&head, &Selection::Heads));
    assert!(!is_selected_record(&draft, &Selection::Heads));
    assert!(is_selected_record(&numbered, &Selection::Heads));
    assert!(!is_selected_record(&head, &Selection::Ids(Vec::new())));
}

#[test]
fn selected_records_are_counted() {
    let doc = Json::parse(STORE).expect("valid JSON");
    assert_eq!(count_selected(&doc, &Selection::Heads), 2);
    assert_eq!(count_selected(&doc, &Selection::Ids(vec!["A".to_string()])), 1);
    assert_eq!(count_selected(&doc, &Selection::Ids(vec!["Z".to_string()])), 0);
    let none = Json::parse(r#"{"version":3}"#).expect("valid JSON");
    assert_eq!(count_selected(&none, &Selection::Heads), 0);
}

#[test]
fn a_document_is_left_without_the_selected_records() {
    let selection = Selection::Ids(vec!["A".to_string(), "B".to_string()]);
    let doc = Json::parse(STORE).expect("valid JSON");
    let (remaining, archived, cascade) = split_sessions(doc, &selection, "/p", "t");
    assert_eq!(archived.len(), 2);
    assert_eq!(cascade, vec!["A", "B"]);
    let records = remaining.array_at("allComposers").expect("an array");
    assert_eq!(records.len(), 1);
    assert_eq!(records[0].text_at("composerId"), Some("draft-1"));
    assert_eq!(remaining.text_at("selectedComposerId"), Some("A"));
    let removal = remove_sessions(Json::parse(STORE).expect("valid JSON"), &selection, "/p", "t");
    assert_eq!(removal.removed, 2);
    assert_eq!(removal.value, Some(remaining.render()));
}

#[test]
fn a_document_without_selected_records_stays_as_it_is() {
    let selection = Selection::Ids(vec!["Z".to_string()]);
    let doc = Json::parse(STORE).expect("valid JSON");
    let (remaining, archived, cascade) = split_sessions(doc, &selection, "/p", "t");
    assert!(archived.is_empty());
    assert!(cascade.is_empty());
    assert_eq!(parsed(&remaining.render()), parsed(STORE));
    let removal = remove_sessions(Json::parse(STORE).expect("valid JSON"), &selection, "/p", "t");
    assert_eq!(removal.removed, 0);
    assert_eq!(removal.value, None);
}

#[test]
fn two_records_with_one_id_go_together() {
    let text = r#"{"allComposers":[{"type":"head","composerId":"A","name":"one"},{"type":"head","composerId":"A","name":"two"}]}"#;
    let removal = delete_one(Some(text), "A", "/p", "t").expect("the session is there");
    assert_eq!(removal.removed, 2);
    assert_eq!(removal.archived.len(), 2);
    assert_eq!(removal.archived[0].chat_name, "one");
    assert_eq!(removal.archived[1].chat_name, "two");
    assert_eq!(removal.cascade, vec!["A", "A"]);
    assert!(record_ids(written(&removal.value)).is_empty());
}

#[test]
fn the_rows_left_over_are_named_by_prefix() {
    let (bubbles, checkpoints) = cascade_prefixes("abc-123");
    assert_eq!(bubbles, "bubbleId:abc-123:");
    assert_eq!(checkpoints, "checkpointId:abc-123:");
    let (empty_bubbles, empty_checkpoints) = cascade_prefixes("");
    assert_eq!(empty_bubbles, "bubbleId::");
    assert_eq!(empty_checkpoints, "checkpointId::");
}

#[test]
fn only_keys_with_exactly_the_prefix_are_left_over() {
    assert!(key_is_left_over("bubbleId:A:1", "A"));
    assert!(key_is_left_over("checkpointId:A:x:y", "A"));
    assert!(key_is_left_over("bubbleId:A:", "A"));
    assert!(!key_is_left_over("bubbleId:AB:1", "A"));
    assert!(!key_is_left_over("bubbleId:B:1", "A"));
    assert!(!key_is_left_over("bubbleid:A:1", "A"));
    assert!(!key_is_left_over("composerData:A:1", "A"));
    assert!(!key_is_left_over("xbubbleId:A:1", "A"));
    // No character of an id stands for any other.
    assert!(!key_is_left_over("bubbleId:AB:1", "A%"));
    assert!(!key_is_left_over("bubbleId:AB:1", "A_"));
    assert!(!key_is_left_over("bubbleId:anything:1", "%"));
    assert!(key_is_left_over("bubbleId:A%:1", "A%"));
    assert!(key_is_left_over("checkpointId:a_b:1", "a_b"));
    assert!(!key_is_left_over("checkpointId:axb:1", "a_b"));
    assert!(key_begins_with("abc", ""));
    assert!(key_begins_with("abc", "abc"));
    assert!(!key_begins_with("ab", "abc"));
}

#[test]
fn a_removal_is_carried_out_in_order() {
    let removal = delete_project_chats(Some(STORE), "/home/ann/app").expect("a valid list");
    let value = removal.value.clone().expect("a list to write back");
    let plan = steps(removal);
    assert_eq!(plan.len(), 7);
    match (&plan[0], &plan[1]) {
        (Step::File(a), Step::File(b)) => {
            assert_eq!(a.chat_id, "A");
            assert_eq!(b.chat_id, "B");
        }
        other => panic!("unexpected steps {:?}", other),
    }
    match &plan[2] {
        Step::Write(text) => assert_eq!(text, &value),
        other => panic!("unexpected step {:?}", other),
    }
    let cleaned: Vec<&str> = plan[3..]
        .iter()
        .map(|s| match s {
            Step::Clean(prefix) => prefix.as_str(),
            other => panic!("unexpected step {:?}", other),
        })
        .collect();
    assert_eq!(cleaned, vec!["bubbleId:A:", "checkpointId:A:", "bubbleId:B:", "checkpointId:B:"]);
    let binding: Vec<bool> = plan.iter().map(|s| s.is_binding()).collect();
    assert_eq!(binding, vec![false, false, true, false, false, false, false]);
}

#[test]
fn two_sessions_and_a_draft() {
    let mut store = snapshot(Some(STORE));
    let mut ledger = TrashLedger::init_trash_db();
    let overview = get_overview(&vec![store.clone()]);
    assert_eq!(overview.total_projects, 1);
    assert_eq!(overview.total_chats, 2);
    assert_eq!(overview.agent_mode_count, 1);
    assert_eq!(overview.chat_mode_count, 1);

    let removal = delete_chat(store.session_list.as_deref(), "/home/ann/app", "A")
        .expect("the session is there");
    assert_eq!(removal.removed, 1);
    for step in steps(removal) {
        match step {
            Step::File(entry) => assert!(ledger.append(entry).is_some()),
            Step::Write(value) => store.session_list = Some(value),
            Step::Clean(_) => {}
        }
    }

    let projects = get_all_projects(&vec![store.clone()]);
    assert_eq!(projects.len(), 1);
    assert_eq!(projects[0].chat_count, 1);
    assert_eq!(projects[0].chats[0].id, "B");
    let trash = ledger.get_trash_items();
    assert_eq!(trash.len(), 1);
    assert_eq!(trash[0].chat_id, "A");
    // The draft is still in the store.
    assert_eq!(record_ids(store.session_list.as_deref().expect("a list")), vec!["draft-1", "B"]);
}
