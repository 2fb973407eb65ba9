//! Questions to the central store: how many rows a table or a category of
//! keys holds, and how many bytes their values take.

use crate::text::{push_text, text_of};
use vstd::prelude::*;

verus! {

/// Row counts and value sizes of the central store, by table and by category
/// of key.
#[derive(Debug, Clone, Copy, PartialEq, Eq, Structural)]
pub struct DatabaseStats {
    pub item_table_count: i64,
    pub item_table_size: u64,
    pub cursor_disk_kv_count: i64,
    pub cursor_disk_kv_size: u64,
    pub bubble_count: i64,
    pub bubble_size: u64,
    pub composer_count: i64,
    pub composer_size: u64,
    pub checkpoint_count: i64,
    pub checkpoint_size: u64,
    pub agent_kv_count: i64,
    pub agent_kv_size: u64,
}

/// What the statistics count: a whole table, or the rows of the key-value
/// table whose key begins with a category's prefix.
#[derive(Debug, Clone, Copy, PartialEq, Eq, Structural)]
pub enum Category {
    ItemTable,
    DiskKv,
    Bubble,
    Composer,
    Checkpoint,
    AgentKv,
}

/// What the store answered for one category: the number of rows and the sum
/// of the sizes of their values in bytes, each absent where the store gave
/// no answer.
#[derive(Debug, Clone, Copy)]
pub struct Tally {
    pub count: Option<i64>,
    pub size: Option<i64>,
}

/// The store's answers for all categories.
#[derive(Debug, Clone, Copy)]
pub struct StoreAnswers {
    pub item_table: Tally,
    pub disk_kv: Tally,
    pub bubble: Tally,
    pub composer: Tally,
    pub checkpoint: Tally,
    pub agent_kv: Tally,
}

impl Category {
    /// The table that holds the category's rows.
    pub open spec fn table(self) -> Seq<char> {
        match self {
            Category::ItemTable => "ItemTable"@,
            _ => "cursorDiskKV"@,
        }
    }

    /// The prefix of the category's keys; none for a whole table.
    pub open spec fn prefix(self) -> Option<Seq<char>> {
        match self {
            Category::ItemTable => None,
            Category::DiskKv => None,
            Category::Bubble => Some("bubbleId:"@),
            Category::Composer => Some("composerData:"@),
            Category::Checkpoint => Some("checkpointId:"@),
            Category::AgentKv => Some("agentKv:"@),
        }
    }

    /// Computes `table`.
    pub fn table_name(self) -> (r: &'static str)
        ensures
            r@ == self.table(),
    {
        match self {
            Category::ItemTable => "ItemTable",
            _ => "cursorDiskKV",
        }
    }

    /// Computes `prefix`.
    pub fn key_prefix(self) -> (r: Option<&'static str>)
        ensures
            match r {
                Some(p) => self.prefix() == Some(p@),
                None => self.prefix() is None,
            },
    {
        match self {
            Category::ItemTable => None,
            Category::DiskKv => None,
            Category::Bubble => Some("bubbleId:"),
            Category::Composer => Some("composerData:"),
            Category::Checkpoint => Some("checkpointId:"),
            Category::AgentKv => Some("agentKv:"),
        }
    }
}

/// The rows that a query is about: all of `table`, or those whose key
/// begins with `prefix`, character for character: the first characters of
/// the key, as many as the prefix has, are compared with the prefix itself.
pub open spec fn selection_text(table: Seq<char>, prefix: Option<Seq<char>>) -> Seq<char> {
    match prefix {
        Some(p) => table + " WHERE substr(key, 1, length('"@ + p + "')) = '"@ + p + "'"@,
        None => table,
    }
}

/// The query that counts the rows of a category.
pub open spec fn count_query_text(category: Category) -> Seq<char> {
    "SELECT COUNT(*) FROM "@ + selection_text(category.table(), category.prefix())
}

/// The query that sums the sizes of the values of a category in bytes: each
/// value is measured as the bytes it is stored as, not as the characters of
/// a text. Without rows the sum is zero.
pub open spec fn size_query_text(category: Category) -> Seq<char> {
    "SELECT COALESCE(SUM(LENGTH(CAST(value AS BLOB))), 0) FROM "@ + selection_text(
        category.table(),
        category.prefix(),
    )
}

fn push_selection(out: &mut Vec<char>, category: Category)
    ensures
        final(out)@ == old(out)@ + selection_text(category.table(), category.prefix()),
{
    push_text(out, category.table_name());
    match category.key_prefix() {
        Some(p) => {
            push_text(out, " WHERE substr(key, 1, length('");
            push_text(out, p);
            push_text(out, "')) = '");
            push_text(out, p);
            push_text(out, "'");
            assert(final(out)@ =~= old(out)@ + selection_text(category.table(), category.prefix()));
        },
        None => {},
    }
}

/// Writes the query that counts the rows of a category.
pub fn count_query(category: Category) -> (sql: String)
    ensures
        sql@ == count_query_text(category),
{
    let mut out: Vec<char> = Vec::new();
    push_text(&mut out, "SELECT COUNT(*) FROM ");
    push_selection(&mut out, category);
    assert(out@ =~= count_query_text(category));
    text_of(&out)
}

/// Writes the query that sums the sizes of the values of a category in bytes.
pub fn size_query(category: Category) -> (sql: String)
    ensures
        sql@ == size_query_text(category),
{
    let mut out: Vec<char> = Vec::new();
    push_text(&mut out, "SELECT COALESCE(SUM(LENGTH(CAST(value AS BLOB))), 0) FROM ");
    push_selection(&mut out, category);
    assert(out@ =~= size_query_text(category));
    text_of(&out)
}

/// A row count as reported: zero where the store gave no answer.
pub open spec fn counted(answer: Option<i64>) -> i64 {
    match answer {
        Some(n) => n,
        None => 0,
    }
}

/// A byte total as reported: zero where the store gave no answer; a
/// negative answer is read as the unsigned number with the same 64 bits.
pub open spec fn sized(answer: Option<i64>) -> u64 {
    match answer {
        Some(n) => if n >= 0 {
            n as u64
        } else {
            (n + 0x1_0000_0000_0000_0000) as u64
        },
        None => 0,
    }
}

fn size_of_answer(answer: Option<i64>) -> (r: u64)
    ensures
        r == sized(answer),
{
    match answer {
        Some(n) => if n >= 0 {
            n as u64
        } else {
            let below: u64 = (-(n + 1)) as u64;
            0xffff_ffff_ffff_ffffu64 - below
        },
        None => 0,
    }
}

fn count_of_answer(answer: Option<i64>) -> (r: i64)
    ensures
        r == counted(answer),
{
    match answer {
        Some(n) => n,
        None => 0,
    }
}

/// The statistics that a set of answers amounts to.
pub open spec fn database_stats_of(answers: StoreAnswers) -> DatabaseStats {
    DatabaseStats {
        item_table_count: counted(answers.item_table.count),
        item_table_size: sized(answers.item_table.size),
        cursor_disk_kv_count: counted(answers.disk_kv.count),
        cursor_disk_kv_size: sized(answers.disk_kv.size),
        bubble_count: counted(answers.bubble.count),
        bubble_size: sized(answers.bubble.size),
        composer_count: counted(answers.composer.count),
        composer_size: sized(answers.composer.size),
        checkpoint_count: counted(answers.checkpoint.count),
        checkpoint_size: sized(answers.checkpoint.size),
        agent_kv_count: counted(answers.agent_kv.count),
        agent_kv_size: sized(answers.agent_kv.size),
    }
}

/// Puts the store's answers together. A category for which the store gave
/// no answer, a missing table among them, counts zero rows and zero bytes.
pub fn get_database_stats(answers: &StoreAnswers) -> (stats: DatabaseStats)
    ensures
        stats == database_stats_of(*answers),
{
    DatabaseStats {
        item_table_count: count_of_answer(answers.item_table.count),
        item_table_size: size_of_answer(answers.item_table.size),
        cursor_disk_kv_count: count_of_answer(answers.disk_kv.count),
        cursor_disk_kv_size: size_of_answer(answers.disk_kv.size),
        bubble_count: count_of_answer(answers.bubble.count),
        bubble_size: size_of_answer(answers.bubble.size),
        composer_count: count_of_answer(answers.composer.count),
        composer_size: size_of_answer(answers.composer.size),
        checkpoint_count: count_of_answer(answers.checkpoint.count),
        checkpoint_size: size_of_answer(answers.checkpoint.size),
        agent_kv_count: count_of_answer(answers.agent_kv.count),
        agent_kv_size: size_of_answer(answers.agent_kv.size),
    }
}

/// The query that reads the session list of a store.
pub fn session_list_query() -> (sql: &'static str)
    ensures
        sql@ == "SELECT value FROM ItemTable WHERE key = 'composer.composerData'"@,
{
    "SELECT value FROM ItemTable WHERE key = 'composer.composerData'"
}

/// The statement that writes the session list of a store; its one
/// parameter is the new list.
pub fn session_list_update() -> (sql: &'static str)
    ensures
        sql@ == "UPDATE ItemTable SET value = ?1 WHERE key = 'composer.composerData'"@,
{
    "UPDATE ItemTable SET value = ?1 WHERE key = 'composer.composerData'"
}

/// The statement that removes the rows of the key-value table whose key
/// begins with a prefix, character for character; its one parameter is the
/// prefix. The first characters of the key, as many as the prefix has, are
/// compared with the prefix itself, so that no character of the prefix
/// stands for any other.
pub fn cleaning_statement() -> (sql: &'static str)
    ensures
        sql@ == "DELETE FROM cursorDiskKV WHERE substr(key, 1, length(?1)) = ?1"@,
{
    "DELETE FROM cursorDiskKV WHERE substr(key, 1, length(?1)) = ?1"
}

} // verus!
