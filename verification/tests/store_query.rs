use cursor_analysis::mutation::cascade_prefixes;
use cursor_analysis::store::{
    cleaning_statement, count_query, get_database_stats, session_list_query, session_list_update,
    size_query, Category, StoreAnswers, Tally,
};
use rusqlite::Connection;

fn store_with(items: &[(&str, &str)], rows: &[(&str, &str)]) -> Connection {
    let conn = Connection::open_in_memory().expect("a store in memory");
    conn.execute("CREATE TABLE ItemTable (key TEXT UNIQUE ON CONFLICT REPLACE, value BLOB)", ())
        .expect("a table");
    conn.execute("CREATE TABLE cursorDiskKV (key TEXT UNIQUE ON CONFLICT REPLACE, value BLOB)", ())
        .expect("a table");
    for (key, value) in items {
        conn.execute("INSERT INTO ItemTable (key, value) VALUES (?1, ?2)", [key, value])
            .expect("a row");
    }
    for (key, value) in rows {
        conn.execute("INSERT INTO cursorDiskKV (key, value) VALUES (?1, ?2)", [key, value])
            .expect("a row");
    }
    conn
}

fn answer(conn: &Connection, sql: &str) -> i64 {
    conn.query_row(sql, (), |row| row.get(0)).expect("an answer")
}

fn keys(conn: &Connection) -> Vec<String> {
    let mut stmt = conn.prepare("SELECT key FROM cursorDiskKV ORDER BY key").expect("a query");
    let found = stmt.query_map((), |row| row.get(0)).expect("rows");
    found.map(|k| k.expect("a key")).collect()
}

fn tally(count: Option<i64>, size: Option<i64>) -> Tally {
    Tally { count, size }
}

#[test]
fn queries_name_the_table_and_the_key_prefix() {
    assert_eq!(count_query(Category::ItemTable), "SELECT COUNT(*) FROM ItemTable");
    assert_eq!(count_query(Category::DiskKv), "SELECT COUNT(*) FROM cursorDiskKV");
    assert_eq!(
        count_query(Category::Bubble),
        "SELECT COUNT(*) FROM cursorDiskKV WHERE substr(key, 1, length('bubbleId:')) = 'bubbleId:'"
    );
    assert_eq!(
        count_query(Category::Composer),
        "SELECT COUNT(*) FROM cursorDiskKV WHERE substr(key, 1, length('composerData:')) = 'composerData:'"
    );
    assert_eq!(
        count_query(Category::Checkpoint),
        "SELECT COUNT(*) FROM cursorDiskKV WHERE substr(key, 1, length('checkpointId:')) = 'checkpointId:'"
    );
    assert_eq!(
        count_query(Category::AgentKv),
        "SELECT COUNT(*) FROM cursorDiskKV WHERE substr(key, 1, length('agentKv:')) = 'agentKv:'"
    );
    assert_eq!(
        size_query(Category::ItemTable),
        "SELECT COALESCE(SUM(LENGTH(CAST(value AS BLOB))), 0) FROM ItemTable"
    );
    assert_eq!(
        size_query(Category::Bubble),
        "SELECT COALESCE(SUM(LENGTH(CAST(value AS BLOB))), 0) FROM cursorDiskKV WHERE substr(key, 1, length('bubbleId:')) = 'bubbleId:'"
    );
}

#[test]
fn categories_know_their_table_and_prefix() {
    assert_eq!(Category::ItemTable.table_name(), "ItemTable");
    assert_eq!(Category::AgentKv.table_name(), "cursorDiskKV");
    assert_eq!(Category::ItemTable.key_prefix(), None);
    assert_eq!(Category::DiskKv.key_prefix(), None);
    assert_eq!(Category::Checkpoint.key_prefix(), Some("checkpointId:"));
}

#[test]
fn answers_are_put_together() {
    let answers = StoreAnswers {
        item_table: tally(Some(3), Some(300)),
        disk_kv: tally(Some(40), Some(4000)),
        bubble: tally(Some(5), Some(500)),
        composer: tally(Some(6), Some(600)),
        checkpoint: tally(Some(7), Some(700)),
        agent_kv: tally(Some(8), Some(800)),
    };
    let stats = get_database_stats(&answers);
    assert_eq!(stats.item_table_count, 3);
    assert_eq!(stats.item_table_size, 300);
    assert_eq!(stats.cursor_disk_kv_count, 40);
    assert_eq!(stats.cursor_disk_kv_size, 4000);
    assert_eq!(stats.bubble_count, 5);
    assert_eq!(stats.bubble_size, 500);
    assert_eq!(stats.composer_count, 6);
    assert_eq!(stats.composer_size, 600);
    assert_eq!(stats.checkpoint_count, 7);
    assert_eq!(stats.checkpoint_size, 700);
    assert_eq!(stats.agent_kv_count, 8);
    assert_eq!(stats.agent_kv_size, 800);
}

#[test]
fn a_missing_answer_counts_nothing() {
    let none = tally(None, None);
    let answers = StoreAnswers {
        item_table: none,
        disk_kv: tally(Some(2), None),
        bubble: tally(None, Some(9)),
        composer: none,
        checkpoint: none,
        agent_kv: none,
    };
    let stats = get_database_stats(&answers);
    assert_eq!(stats.item_table_count, 0);
    assert_eq!(stats.item_table_size, 0);
    assert_eq!(stats.cursor_disk_kv_count, 2);
    assert_eq!(stats.cursor_disk_kv_size, 0);
    assert_eq!(stats.bubble_count, 0);
    assert_eq!(stats.bubble_size, 9);
    assert_eq!(stats.agent_kv_count, 0);
    assert_eq!(stats.agent_kv_size, 0);
}

#[test]
fn a_negative_size_is_read_as_unsigned() {
    let none = tally(None, None);
    let answers = StoreAnswers {
        item_table: tally(Some(-1), Some(-1)),
        disk_kv: tally(None, Some(i64::MIN)),
        bubble: tally(None, Some(i64::MAX)),
        composer: none,
        checkpoint: none,
        agent_kv: none,
    };
    let stats = get_database_stats(&answers);
    assert_eq!(stats.item_table_count, -1);
    assert_eq!(stats.item_table_size, u64::MAX);
    assert_eq!(stats.item_table_size, -1i64 as u64);
    assert_eq!(stats.cursor_disk_kv_size, i64::MIN as u64);
    assert_eq!(stats.bubble_size, i64::MAX as u64);
}

#[test]
fn sizes_are_measured_in_bytes() {
    let conn = store_with(&[("one", "é")], &[("bubbleId:a:1", "日本"), ("bubbleId:a:2", "xyz")]);
    assert_eq!(answer(&conn, &count_query(Category::ItemTable)), 1);
    assert_eq!(answer(&conn, &size_query(Category::ItemTable)), 2);
    assert_eq!(answer(&conn, &count_query(Category::Bubble)), 2);
    assert_eq!(answer(&conn, &size_query(Category::Bubble)), 9);
    assert_eq!(answer(&conn, &size_query(Category::Checkpoint)), 0);
    conn.execute(
        "INSERT INTO cursorDiskKV (key, value) VALUES ('checkpointId:a:1', x'00ff10')",
        (),
    )
    .expect("a row");
    assert_eq!(answer(&conn, &size_query(Category::Checkpoint)), 3);
    assert_eq!(answer(&conn, &size_query(Category::DiskKv)), 12);
}

#[test]
fn categories_count_the_keys_with_their_prefix_only() {
    let conn = store_with(
        &[],
        &[
            ("bubbleId:a:1", "1"),
            ("BUBBLEID:a:2", "22"),
            ("xbubbleId:a:3", "333"),
            ("bubbleId", "4444"),
            ("composerData:c", "55555"),
            ("agentKv:k", "666666"),
        ],
    );
    assert_eq!(answer(&conn, &count_query(Category::Bubble)), 1);
    assert_eq!(answer(&conn, &size_query(Category::Bubble)), 1);
    assert_eq!(answer(&conn, &count_query(Category::Composer)), 1);
    assert_eq!(answer(&conn, &size_query(Category::Composer)), 5);
    assert_eq!(answer(&conn, &count_query(Category::AgentKv)), 1);
    assert_eq!(answer(&conn, &count_query(Category::Checkpoint)), 0);
    assert_eq!(answer(&conn, &count_query(Category::DiskKv)), 6);
}

#[test]
fn a_missing_table_gives_no_answer() {
    let conn = Connection::open_in_memory().expect("a store in memory");
    let count: Option<i64> = conn.query_row(&count_query(Category::Bubble), (), |r| r.get(0)).ok();
    let size: Option<i64> = conn.query_row(&size_query(Category::Bubble), (), |r| r.get(0)).ok();
    assert_eq!(count, None);
    assert_eq!(size, None);
    let none = Tally { count: None, size: None };
    let answers = StoreAnswers {
        item_table: none,
        disk_kv: none,
        bubble: Tally { count, size },
        composer: none,
        checkpoint: none,
        agent_kv: none,
    };
    let stats = get_database_stats(&answers);
    assert_eq!(stats.bubble_count, 0);
    assert_eq!(stats.bubble_size, 0);
}

#[test]
fn cleaning_removes_the_rows_of_one_session_only() {
    let conn = store_with(
        &[],
        &[
            ("bubbleId:A:1", ""),
            ("bubbleId:A:2", ""),
            ("checkpointId:A:1", ""),
            ("bubbleId:AB:1", ""),
            ("bubbleId:B:1", ""),
            ("bubbleid:A:1", ""),
            ("composerData:A", ""),
        ],
    );
    let (bubbles, checkpoints) = cascade_prefixes("A");
    assert_eq!(conn.execute(cleaning_statement(), [&bubbles]).expect("cleaned"), 2);
    assert_eq!(conn.execute(cleaning_statement(), [&checkpoints]).expect("cleaned"), 1);
    assert_eq!(
        keys(&conn),
        vec!["bubbleId:AB:1", "bubbleId:B:1", "bubbleid:A:1", "composerData:A"]
    );
}

#[test]
fn no_character_of_an_id_stands_for_another() {
    let conn = store_with(
        &[],
        &[
            ("bubbleId:A%:1", ""),
            ("bubbleId:AB:1", ""),
            ("bubbleId:A_:1", ""),
            ("bubbleId:B:1", ""),
            ("checkpointId:AB:1", ""),
        ],
    );
    let (bubbles, checkpoints) = cascade_prefixes("A%");
    assert_eq!(conn.execute(cleaning_statement(), [&bubbles]).expect("cleaned"), 1);
    assert_eq!(conn.execute(cleaning_statement(), [&checkpoints]).expect("cleaned"), 0);
    let (any, _) = cascade_prefixes("%");
    assert_eq!(conn.execute(cleaning_statement(), [&any]).expect("cleaned"), 0);
    let (one, _) = cascade_prefixes("A_");
    assert_eq!(conn.execute(cleaning_statement(), [&one]).expect("cleaned"), 1);
    assert_eq!(keys(&conn), vec!["bubbleId:AB:1", "bubbleId:B:1", "checkpointId:AB:1"]);
}

#[test]
fn the_session_list_is_read_and_written_under_its_key() {
    let conn = store_with(&[("composer.composerData", "{}"), ("other", "x")], &[]);
    let read: String = conn.query_row(session_list_query(), (), |r| r.get(0)).expect("a list");
    assert_eq!(read, "{}");
    assert_eq!(conn.execute(session_list_update(), ["{\"allComposers\":[]}"]).expect("written"), 1);
    let again: String = conn.query_row(session_list_query(), (), |r| r.get(0)).expect("a list");
    assert_eq!(again, "{\"allComposers\":[]}");
    let other: String = conn
        .query_row("SELECT value FROM ItemTable WHERE key = 'other'", (), |r| r.get(0))
        .expect("a row");
    assert_eq!(other, "x");
}
