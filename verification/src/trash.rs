//! The trash: a ledger of the sessions that were removed, each with the
//! whole record it was removed with.

use crate::json::{json_text, text_or, Json, JsonValue};
use crate::order::{
    is_ranking_relation, lemma_ranked_is_stable, lemma_ranked_mapped, ranked, ranked_origin,
    ranking_of, sort_ranked, stands_before, Ranked,
};
use crate::session::{count_at, count_field};
use crate::tally::{clamp_i64, count};
use crate::text::{
    lemma_lex_asymmetric, lemma_lex_total, lemma_lex_transitive, lex_less, text_less,
};
use crate::time::{read_clock, stamp_text, timestamp_of_reading};
use vstd::prelude::*;

verus! {

/// A record on its way into the trash: what is kept of a removed session.
#[derive(Debug, Clone)]
pub struct TrashEntry {
    pub chat_id: String,
    pub chat_name: String,
    pub project_path: String,
    pub mode: String,
    pub lines_added: i64,
    pub lines_removed: i64,
    pub files_changed: i64,
    pub deleted_at: String,
    pub original_data: String,
}

/// The mathematical value of a `TrashEntry`.
pub struct TrashEntryView {
    pub chat_id: Seq<char>,
    pub chat_name: Seq<char>,
    pub project_path: Seq<char>,
    pub mode: Seq<char>,
    pub lines_added: i64,
    pub lines_removed: i64,
    pub files_changed: i64,
    pub deleted_at: Seq<char>,
    pub original_data: Seq<char>,
}

impl View for TrashEntry {
    type V = TrashEntryView;

    open spec fn view(&self) -> TrashEntryView {
        TrashEntryView {
            chat_id: self.chat_id@,
            chat_name: self.chat_name@,
            project_path: self.project_path@,
            mode: self.mode@,
            lines_added: self.lines_added,
            lines_removed: self.lines_removed,
            files_changed: self.files_changed,
            deleted_at: self.deleted_at@,
            original_data: self.original_data@,
        }
    }
}

/// A record in the trash.
#[derive(Debug, Clone)]
pub struct TrashItem {
    pub id: i64,
    pub chat_id: String,
    pub chat_name: String,
    pub project_path: String,
    pub mode: String,
    pub lines_added: i64,
    pub lines_removed: i64,
    pub files_changed: i64,
    pub deleted_at: String,
    pub original_data: String,
}

/// The mathematical value of a `TrashItem`.
pub struct TrashItemView {
    pub id: i64,
    pub chat_id: Seq<char>,
    pub chat_name: Seq<char>,
    pub project_path: Seq<char>,
    pub mode: Seq<char>,
    pub lines_added: i64,
    pub lines_removed: i64,
    pub files_changed: i64,
    pub deleted_at: Seq<char>,
    pub original_data: Seq<char>,
}

impl View for TrashItem {
    type V = TrashItemView;

    open spec fn view(&self) -> TrashItemView {
        TrashItemView {
            id: self.id,
            chat_id: self.chat_id@,
            chat_name: self.chat_name@,
            project_path: self.project_path@,
            mode: self.mode@,
            lines_added: self.lines_added,
            lines_removed: self.lines_removed,
            files_changed: self.files_changed,
            deleted_at: self.deleted_at@,
            original_data: self.original_data@,
        }
    }
}

/// The values of a run of entries.
pub open spec fn entry_views(entries: Seq<TrashEntry>) -> Seq<TrashEntryView> {
    entries.map_values(|e: TrashEntry| e@)
}

/// The values of a run of items.
pub open spec fn item_views(items: Seq<TrashItem>) -> Seq<TrashItemView> {
    items.map_values(|t: TrashItem| t@)
}

/// What is kept of a record that is removed for the project at
/// `project_path` at the time `deleted_at`: the fields that identify the
/// session, and the record itself as JSON text.
pub open spec fn entry_of(
    record: JsonValue,
    project_path: Seq<char>,
    deleted_at: Seq<char>,
) -> TrashEntryView {
    TrashEntryView {
        chat_id: text_or(record.text_at("composerId"@), ""@),
        chat_name: text_or(record.text_at("name"@), "Unnamed"@),
        project_path,
        mode: text_or(record.text_at("unifiedMode"@), "unknown"@),
        lines_added: count_at(record, "totalLinesAdded"@),
        lines_removed: count_at(record, "totalLinesRemoved"@),
        files_changed: count_at(record, "filesChangedCount"@),
        deleted_at,
        original_data: json_text(record),
    }
}

/// The item that an entry becomes under the id `id`.
pub open spec fn item_of(entry: TrashEntryView, id: i64) -> TrashItemView {
    TrashItemView {
        id,
        chat_id: entry.chat_id,
        chat_name: entry.chat_name,
        project_path: entry.project_path,
        mode: entry.mode,
        lines_added: entry.lines_added,
        lines_removed: entry.lines_removed,
        files_changed: entry.files_changed,
        deleted_at: entry.deleted_at,
        original_data: entry.original_data,
    }
}

/// Computes `entry_of`.
pub fn trash_entry(record: &Json, project_path: &str, deleted_at: &str) -> (entry: TrashEntry)
    ensures
        entry@ == entry_of(record@, project_path@, deleted_at@),
{
    TrashEntry {
        chat_id: record.text_or("composerId", ""),
        chat_name: record.text_or("name", "Unnamed"),
        project_path: project_path.to_owned(),
        mode: record.text_or("unifiedMode", "unknown"),
        lines_added: count_field(record, "totalLinesAdded"),
        lines_removed: count_field(record, "totalLinesRemoved"),
        files_changed: count_field(record, "filesChangedCount"),
        deleted_at: deleted_at.to_owned(),
        original_data: record.render(),
    }
}

impl TrashItem {
    /// A copy of the item.
    pub fn duplicate(&self) -> (copy: TrashItem)
        ensures
            copy@ == self@,
    {
        TrashItem {
            id: self.id,
            chat_id: self.chat_id.clone(),
            chat_name: self.chat_name.clone(),
            project_path: self.project_path.clone(),
            mode: self.mode.clone(),
            lines_added: self.lines_added,
            lines_removed: self.lines_removed,
            files_changed: self.files_changed,
            deleted_at: self.deleted_at.clone(),
            original_data: self.original_data.clone(),
        }
    }
}

/// `a` was deleted later than `b`. Times compare as texts.
pub open spec fn deleted_later(a: TrashItemView, b: TrashItemView) -> bool {
    lex_less(b.deleted_at, a.deleted_at)
}

/// The ranking of trash items: the later deletion first.
pub open spec fn trash_ranking() -> spec_fn(TrashItemView, TrashItemView) -> bool {
    |a: TrashItemView, b: TrashItemView| deleted_later(a, b)
}

impl Ranked for TrashItem {
    open spec fn outranks(&self, other: &Self) -> bool {
        deleted_later(self@, other@)
    }

    fn ranks_before(&self, other: &Self) -> (b: bool) {
        text_less(other.deleted_at.as_str(), self.deleted_at.as_str())
    }
}

/// Puts items in the order in which the trash shows them: the latest
/// deletion first, items deleted at the same time in the order given.
pub fn newest_first(items: Vec<TrashItem>) -> (out: Vec<TrashItem>)
    ensures
        item_views(out@) == listing(item_views(items@)),
{
    let out = sort_ranked(items);
    proof {
        lemma_ranked_mapped(items@, |t: TrashItem| t@, ranking_of::<TrashItem>(), trash_ranking());
    }
    out
}

/// A ledger is in order: ids are positive, below the next one to be given
/// out, and grow with every item filed.
pub open spec fn ledger_wf(items: Seq<TrashItemView>, next_id: i64) -> bool {
    &&& next_id >= 1
    &&& forall|i: int| 0 <= i < items.len() ==> 0 < (#[trigger] items[i]).id < next_id
    &&& forall|i: int, j: int|
        0 <= i < j < items.len() ==> (#[trigger] items[i]).id < (#[trigger] items[j]).id
}

/// The trash as it is shown: the latest deletion first, items deleted at
/// the same time in the order in which they were filed.
pub open spec fn listing(items: Seq<TrashItemView>) -> Seq<TrashItemView> {
    ranked(items, trash_ranking())
}

/// A ledger in order holds fewer items than its next id says: each item
/// took an id of its own.
pub proof fn lemma_ledger_len(items: Seq<TrashItemView>, next_id: i64)
    requires
        ledger_wf(items, next_id),
    ensures
        items.len() < next_id,
        forall|i: int| 0 <= i < items.len() ==> (#[trigger] items[i]).id > i,
    decreases items.len(),
{
    if items.len() > 0 {
        let front = items.drop_last();
        assert forall|i: int| 0 <= i < front.len() implies 0 < (#[trigger] front[i]).id
            < items.last().id by {
            assert(front[i] == items[i]);
        }
        assert forall|i: int, j: int| 0 <= i < j < front.len() implies (#[trigger] front[i]).id < (
        #[trigger] front[j]).id by {
            assert(front[i] == items[i] && front[j] == items[j]);
        }
        lemma_ledger_len(front, items.last().id);
        assert forall|i: int| 0 <= i < items.len() implies (#[trigger] items[i]).id > i by {
            if i < front.len() {
                assert(front[i] == items[i]);
            }
        }
    }
}

/// The trash as a value: its items in the order in which they were filed,
/// and the id that the next item will get.
pub struct TrashLedger {
    items: Vec<TrashItem>,
    next_id: i64,
}

impl TrashLedger {
    /// The items, in the order in which they were filed.
    pub closed spec fn items(&self) -> Seq<TrashItemView> {
        item_views(self.items@)
    }

    /// The id that the next item will get.
    pub closed spec fn next_id(&self) -> i64 {
        self.next_id
    }

    /// The ledger is in order: see `ledger_wf`.
    pub open spec fn wf(&self) -> bool {
        ledger_wf(self.items(), self.next_id())
    }

    /// An empty trash, as it is when first set up.
    pub fn init_trash_db() -> (ledger: TrashLedger)
        ensures
            ledger.wf(),
            ledger.items().len() == 0,
            ledger.next_id() == 1,
    {
        TrashLedger { items: Vec::new(), next_id: 1 }
    }

    /// Takes up the rows of a trash that is kept elsewhere, in the order of
    /// their ids, as a ledger whose next id follows the last row's. Nothing
    /// where the rows are not in order: an id that is not positive, not
    /// above the one before it, or the last one there is.
    pub fn restore(rows: Vec<TrashItem>) -> (ledger: Option<TrashLedger>)
        ensures
            match ledger {
                Some(l) => l.wf() && l.items() == item_views(rows@) && l.next_id() == (if rows@.len()
                    == 0 {
                    1
                } else {
                    rows@.last().id + 1
                }),
                None => !exists|next_id: i64| ledger_wf(item_views(rows@), next_id),
            },
    {
        let ghost views = item_views(rows@);
        let mut last: i64 = 0;
        let mut i: usize = 0;
        while i < rows.len()
            invariant
                i <= rows.len(),
                views == item_views(rows@),
                0 <= last < i64::MAX,
                i == 0 ==> last == 0,
                i > 0 ==> last == views[i - 1].id,
                forall|k: int| 0 <= k < i ==> 0 < (#[trigger] views[k]).id <= last,
                forall|a: int, b: int|
                    0 <= a < b < i ==> (#[trigger] views[a]).id < (#[trigger] views[b]).id,
            decreases rows.len() - i,
        {
            assert(views[i as int] == rows@[i as int]@);
            let id = rows[i].id;
            if id <= last || id == 0x7fff_ffff_ffff_ffffi64 {
                proof {
                    let at = i as int;
                    assert(views[at].id == id);
                    assert forall|next_id: i64| !ledger_wf(views, next_id) by {
                        if ledger_wf(views, next_id) {
                            assert(0 < views[at].id < next_id);
                            if at > 0 {
                                assert(views[at - 1].id < views[at].id);
                            }
                            assert(false);
                        }
                    }
                }
                return None;
            }
            last = id;
            i += 1;
        }
        proof {
            if rows@.len() > 0 {
                assert(views[rows@.len() - 1] == rows@[rows@.len() - 1]@);
            }
        }
        Some(TrashLedger { items: rows, next_id: last + 1 })
    }

    /// Files an entry under the next id. Nothing is filed, and nothing
    /// returned, once the ids are used up.
    pub fn append(&mut self, entry: TrashEntry) -> (id: Option<i64>)
        requires
            old(self).wf(),
        ensures
            final(self).wf(),
            match id {
                Some(n) => n == old(self).next_id() && n < i64::MAX && final(self).next_id() == n
                    + 1 && final(self).items() == old(self).items().push(item_of(entry@, n)),
                None => old(self).next_id() == i64::MAX && final(self).next_id() == old(
                    self,
                ).next_id() && final(self).items() == old(self).items(),
            },
    {
        if self.next_id == 0x7fff_ffff_ffff_ffffi64 {
            return None;
        }
        let id = self.next_id;
        let item = TrashItem {
            id,
            chat_id: entry.chat_id,
            chat_name: entry.chat_name,
            project_path: entry.project_path,
            mode: entry.mode,
            lines_added: entry.lines_added,
            lines_removed: entry.lines_removed,
            files_changed: entry.files_changed,
            deleted_at: entry.deleted_at,
            original_data: entry.original_data,
        };
        let ghost before = self.items@;
        self.items.push(item);
        self.next_id = id + 1;
        assert(item_views(self.items@) =~= item_views(before).push(item_of(entry@, id)));
        assert forall|i: int| 0 <= i < self.items().len() implies 0 < (
        #[trigger] self.items()[i]).id < self.next_id() by {
            if i < before.len() {
                assert(self.items()[i] == old(self).items()[i]);
            }
        }
        assert forall|i: int, j: int| 0 <= i < j < self.items().len() implies (
        #[trigger] self.items()[i]).id < (#[trigger] self.items()[j]).id by {
            assert(self.items()[i] == old(self).items()[i]);
            if j < before.len() {
                assert(self.items()[j] == old(self).items()[j]);
            }
        }
        Some(id)
    }

    /// Files what is kept of a removed record, stamped with what the clock
    /// reads.
    pub fn add_to_trash(&mut self, chat: &Json, project_path: &str) -> (id: Option<i64>)
        requires
            old(self).wf(),
        ensures
            final(self).wf(),
            match id {
                Some(n) => n == old(self).next_id() && n < i64::MAX && final(self).next_id() == n
                    + 1 && exists|reading: Option<u64>|
                    final(self).items() == old(self).items().push(
                        item_of(entry_of(chat@, project_path@, #[trigger] stamp_text(reading)), n),
                    ),
                None => old(self).next_id() == i64::MAX && final(self).next_id() == old(
                    self,
                ).next_id() && final(self).items() == old(self).items(),
            },
    {
        let reading = read_clock();
        let stamp = timestamp_of_reading(reading);
        let entry = trash_entry(chat, project_path, stamp.as_str());
        let id = self.append(entry);
        proof {
            if id is Some {
                assert(final(self).items() == old(self).items().push(
                    item_of(entry_of(chat@, project_path@, stamp_text(reading)), id->0),
                ));
            }
        }
        id
    }

    /// The items of the trash, the latest deletion first; items deleted at
    /// the same time in the order in which they were filed.
    pub fn get_trash_items(&self) -> (out: Vec<TrashItem>)
        ensures
            item_views(out@) == listing(self.items()),
            out@.len() == self.items().len(),
    {
        proof {
            crate::order::lemma_ranked_len(item_views(self.items@), trash_ranking());
        }
        let mut copies: Vec<TrashItem> = Vec::new();
        let mut i: usize = 0;
        while i < self.items.len()
            invariant
                i <= self.items.len(),
                item_views(copies@) == item_views(self.items@).take(i as int),
            decreases self.items.len() - i,
        {
            let ghost before = copies@;
            let copy = self.items[i].duplicate();
            copies.push(copy);
            assert(item_views(copies@) =~= item_views(before).push(copy@));
            i += 1;
            assert(item_views(self.items@).take(i as int) =~= item_views(self.items@).take(
                i - 1,
            ).push(copy@));
        }
        assert(item_views(self.items@).take(self.items@.len() as int) =~= item_views(self.items@));
        newest_first(copies)
    }

    /// Empties the trash and says how many items it held. Ids are not given
    /// out again.
    pub fn clear_trash(&mut self) -> (removed: i64)
        requires
            old(self).wf(),
        ensures
            final(self).wf(),
            removed == old(self).items().len(),
            final(self).items() == Seq::<TrashItemView>::empty(),
            final(self).next_id() == old(self).next_id(),
    {
        proof {
            lemma_ledger_len(self.items(), self.next_id());
        }
        let removed = count(self.items.len());
        self.items.clear();
        assert(item_views(self.items@) =~= Seq::<TrashItemView>::empty());
        removed
    }

    /// The position of the item with the id `id`.
    pub open spec fn position_of(items: Seq<TrashItemView>, id: i64) -> Option<int>
        decreases items.len(),
    {
        if items.len() == 0 {
            None
        } else if items[0].id == id {
            Some(0)
        } else {
            match Self::position_of(items.skip(1), id) {
                Some(k) => Some(k + 1),
                None => None,
            }
        }
    }

    /// Takes the item with the id `id` out of the trash, and says whether
    /// there was one. An id that is not there changes nothing.
    pub fn delete_trash_item(&mut self, id: i64) -> (found: bool)
        requires
            old(self).wf(),
        ensures
            final(self).wf(),
            final(self).next_id() == old(self).next_id(),
            match Self::position_of(old(self).items(), id) {
                Some(k) => found && 0 <= k < old(self).items().len() && final(self).items() == old(
                    self,
                ).items().remove(k),
                None => !found && final(self).items() == old(self).items(),
            },
    {
        let ghost views = item_views(self.items@);
        let mut i: usize = 0;
        assert(views.skip(0) =~= views);
        while i < self.items.len()
            invariant
                i <= self.items.len(),
                *self == *old(self),
                old(self).wf(),
                views == item_views(self.items@),
                Self::position_of(views, id) == match Self::position_of(views.skip(i as int), id) {
                    Some(k) => Some(k + i),
                    None => None,
                },
            decreases self.items.len() - i,
        {
            assert(views.skip(i as int)[0] == self.items@[i as int]@);
            if self.items[i].id == id {
                self.items.remove(i);
                assert(item_views(self.items@) =~= views.remove(i as int));
                assert forall|a: int| 0 <= a < self.items().len() implies 0 < (
                #[trigger] self.items()[a]).id < self.next_id() by {
                    if a < i {
                        assert(self.items()[a] == old(self).items()[a]);
                    } else {
                        assert(self.items()[a] == old(self).items()[a + 1]);
                    }
                }
                assert forall|a: int, b: int| 0 <= a < b < self.items().len() implies (
                #[trigger] self.items()[a]).id < (#[trigger] self.items()[b]).id by {
                    let x = if a < i {
                        a
                    } else {
                        a + 1
                    };
                    let y = if b < i {
                        b
                    } else {
                        b + 1
                    };
                    assert(self.items()[a] == old(self).items()[x]);
                    assert(self.items()[b] == old(self).items()[y]);
                }
                return true;
            }
            assert(views.skip(i as int).skip(1) =~= views.skip(i + 1));
            i += 1;
        }
        false
    }
}

/// The ranking of trash items orders by deletion time.
pub proof fn lemma_trash_ranking_orders()
    ensures
        is_ranking_relation(trash_ranking()),
{
    assert forall|a: TrashItemView, b: TrashItemView| !(#[trigger] deleted_later(a, b)
        && deleted_later(b, a)) by {
        lemma_lex_asymmetric(a.deleted_at, b.deleted_at);
    }
    assert forall|a: TrashItemView, b: TrashItemView, c: TrashItemView| #[trigger]
        deleted_later(a, c) implies #[trigger] deleted_later(a, b) || #[trigger] deleted_later(
        b,
        c,
    ) by {
        let x = a.deleted_at;
        let y = b.deleted_at;
        let z = c.deleted_at;
        lemma_lex_total(y, x);
        lemma_lex_total(z, y);
        if !lex_less(y, x) && !lex_less(z, y) {
            if x != y && y != z {
                lemma_lex_transitive(z, x, y);
                lemma_lex_asymmetric(z, y);
            }
        }
    }
    assert(is_ranking_relation(trash_ranking()));
}

/// The listing shows every item that was filed, and each as often as it was
/// filed; it is in order of deletion time, the latest first.
pub proof fn lemma_listing(items: Seq<TrashItemView>)
    ensures
        listing(items).len() == items.len(),
        listing(items).to_multiset() == items.to_multiset(),
        forall|t: TrashItemView| listing(items).contains(t) <==> items.contains(t),
        forall|i: int, j: int|
            0 <= i < j < listing(items).len() ==> !deleted_later(
                #[trigger] listing(items)[j],
                #[trigger] listing(items)[i],
            ),
{
    crate::order::lemma_ranked_len(items, trash_ranking());
    crate::order::lemma_ranked_same_items(items, trash_ranking());
    assert forall|t: TrashItemView| listing(items).contains(t) <==> items.contains(t) by {
        vstd::seq_lib::to_multiset_contains(listing(items), t);
        vstd::seq_lib::to_multiset_contains(items, t);
    }
    lemma_trash_ranking_orders();
    lemma_ranked_is_stable(items, trash_ranking());
    let from = ranked_origin(items, trash_ranking());
    assert forall|i: int, j: int| 0 <= i < j < listing(items).len() implies !deleted_later(
        #[trigger] listing(items)[j],
        #[trigger] listing(items)[i],
    ) by {
        assert(stands_before(items, from[i], from[j], trash_ranking()));
        assert(listing(items)[i] == items[from[i]] && listing(items)[j] == items[from[j]]);
        lemma_lex_asymmetric(items[from[i]].deleted_at, items[from[j]].deleted_at);
    }
}

/// Clearing the trash returns exactly the number of items it held, and the
/// trash then lists nothing: the count is that of the items of a ledger in
/// order, and the listing of no items is empty.
pub proof fn lemma_clear_then_list(items: Seq<TrashItemView>, next_id: i64)
    requires
        ledger_wf(items, next_id),
    ensures
        clamp_i64(items.len() as int) == items.len(),
        listing(Seq::<TrashItemView>::empty()) == Seq::<TrashItemView>::empty(),
        ledger_wf(Seq::<TrashItemView>::empty(), next_id),
{
    lemma_ledger_len(items, next_id);
    assert(listing(Seq::<TrashItemView>::empty()) =~= Seq::<TrashItemView>::empty());
}

/// The statement that sets up the table of the trash where it is not there
/// yet: an id that the table gives out and never gives out again, the
/// fields that identify the session, the time of deletion, and the record.
pub fn table_statement() -> (sql: &'static str)
    ensures
        sql@
            == "CREATE TABLE IF NOT EXISTS trash (id INTEGER PRIMARY KEY AUTOINCREMENT, chat_id TEXT NOT NULL, chat_name TEXT, project_path TEXT, mode TEXT, lines_added INTEGER DEFAULT 0, lines_removed INTEGER DEFAULT 0, files_changed INTEGER DEFAULT 0, deleted_at TEXT NOT NULL, original_data TEXT)"@,
{
    "CREATE TABLE IF NOT EXISTS trash (id INTEGER PRIMARY KEY AUTOINCREMENT, chat_id TEXT NOT NULL, chat_name TEXT, project_path TEXT, mode TEXT, lines_added INTEGER DEFAULT 0, lines_removed INTEGER DEFAULT 0, files_changed INTEGER DEFAULT 0, deleted_at TEXT NOT NULL, original_data TEXT)"
}

/// The statement that files an entry; its nine parameters are the fields of
/// the entry in their order.
pub fn insert_statement() -> (sql: &'static str)
    ensures
        sql@
            == "INSERT INTO trash (chat_id, chat_name, project_path, mode, lines_added, lines_removed, files_changed, deleted_at, original_data) VALUES (?1, ?2, ?3, ?4, ?5, ?6, ?7, ?8, ?9)"@,
{
    "INSERT INTO trash (chat_id, chat_name, project_path, mode, lines_added, lines_removed, files_changed, deleted_at, original_data) VALUES (?1, ?2, ?3, ?4, ?5, ?6, ?7, ?8, ?9)"
}

/// The query that reads the rows of the trash in the order of their ids,
/// the fields of an item in their order.
pub fn rows_query() -> (sql: &'static str)
    ensures
        sql@
            == "SELECT id, chat_id, chat_name, project_path, mode, lines_added, lines_removed, files_changed, deleted_at, original_data FROM trash ORDER BY id"@,
{
    "SELECT id, chat_id, chat_name, project_path, mode, lines_added, lines_removed, files_changed, deleted_at, original_data FROM trash ORDER BY id"
}

/// The query that counts the rows of the trash.
pub fn count_statement() -> (sql: &'static str)
    ensures
        sql@ == "SELECT COUNT(*) FROM trash"@,
{
    "SELECT COUNT(*) FROM trash"
}

/// The statement that empties the trash.
pub fn clear_statement() -> (sql: &'static str)
    ensures
        sql@ == "DELETE FROM trash"@,
{
    "DELETE FROM trash"
}

/// The statement that removes the row with an id; its one parameter is the id.
pub fn delete_statement() -> (sql: &'static str)
    ensures
        sql@ == "DELETE FROM trash WHERE id = ?1"@,
{
    "DELETE FROM trash WHERE id = ?1"
}

} // verus!
