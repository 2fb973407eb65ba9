//! Removing sessions from a store: which records go, what is kept of them
//! for the trash, what the session list looks like afterwards, and which
//! rows of the store are left to clean up.

use crate::json::{
    entries_of, json_parse, json_text, lemma_array_view, lemma_object_view, lookup, values_of,
    Json, JsonValue,
};
use crate::session::{
    composer_records, head_sessions, is_head, is_head_record, session_ranking, sessions_in,
};
use crate::tally::{clamp_i64, count};
use crate::text::{
    chars_of, lists_text, matches_at, push_text, same_text, starts_with, text_of, texts_of,
};
use crate::time::{read_clock, stamp_text, str_view, timestamp_of_reading};
use crate::trash::{
    entry_of, entry_views, item_of, ledger_wf, lemma_listing, listing, trash_entry, TrashEntry,
    TrashEntryView, TrashItemView,
};
use crate::workspace::{descriptor_folder, read_descriptor, WorkspaceSnapshot, WorkspaceSnapshotView};
use vstd::prelude::*;

verus! {

/// Why nothing was removed.
#[derive(Debug, Clone, Copy, PartialEq, Eq, Structural)]
pub enum MutationError {
    /// There is no store, no session list in it, or no session with the id asked for.
    NotFound,
    /// The session list is not JSON.
    Corrupt,
}

/// Which records of a session list are to go.
#[derive(Debug, Clone)]
pub enum Selection {
    /// The records whose id is one of these.
    Ids(Vec<String>),
    /// Every canonical record.
    Heads,
}

/// The mathematical value of a `Selection`.
pub enum SelectionView {
    Ids(Seq<Seq<char>>),
    Heads,
}

impl View for Selection {
    type V = SelectionView;

    open spec fn view(&self) -> SelectionView {
        match self {
            Selection::Ids(ids) => SelectionView::Ids(texts_of(ids@)),
            Selection::Heads => SelectionView::Heads,
        }
    }
}

/// What a removal amounts to.
#[derive(Debug, Clone)]
pub struct Removal {
    /// How many records were removed.
    pub removed: i64,
    /// The session list without them, as the JSON text to write back;
    /// nothing where no record was removed and the list stays as it is.
    pub value: Option<String>,
    /// What is kept of each removed record, in the order of the records.
    pub archived: Vec<TrashEntry>,
    /// The ids of the removed records, in their order; a record without an
    /// id has none.
    pub cascade: Vec<String>,
}

/// The mathematical value of a `Removal`.
pub struct RemovalView {
    pub removed: i64,
    pub value: Option<Seq<char>>,
    pub archived: Seq<TrashEntryView>,
    pub cascade: Seq<Seq<char>>,
}

impl View for Removal {
    type V = RemovalView;

    open spec fn view(&self) -> RemovalView {
        RemovalView {
            removed: self.removed,
            value: crate::time::text_view(self.value),
            archived: entry_views(self.archived@),
            cascade: texts_of(self.cascade@),
        }
    }
}

/// The value of an outcome.
pub open spec fn outcome_view(outcome: Result<Removal, MutationError>) -> Result<
    RemovalView,
    MutationError,
> {
    match outcome {
        Ok(removal) => Ok(removal@),
        Err(e) => Err(e),
    }
}

/// The removal that removes nothing: no record goes, nothing is filed,
/// nothing is written and nothing is left to clean up.
pub open spec fn nothing_removed() -> RemovalView {
    RemovalView { removed: 0, value: None, archived: Seq::empty(), cascade: Seq::empty() }
}

/// A record is selected: its id is a text and one of those asked for, or,
/// where every canonical record is to go, it is canonical.
pub open spec fn is_selected(record: JsonValue, selection: SelectionView) -> bool {
    match selection {
        SelectionView::Ids(ids) => match record.text_at("composerId"@) {
            Some(id) => ids.contains(id),
            None => false,
        },
        SelectionView::Heads => is_head(record),
    }
}

/// The records that stay, in their order.
pub open spec fn kept_records(records: Seq<JsonValue>, selection: SelectionView) -> Seq<JsonValue>
    decreases records.len(),
{
    if records.len() == 0 {
        Seq::empty()
    } else if is_selected(records.last(), selection) {
        kept_records(records.drop_last(), selection)
    } else {
        kept_records(records.drop_last(), selection).push(records.last())
    }
}

/// The records that go, in their order.
pub open spec fn removed_records(records: Seq<JsonValue>, selection: SelectionView) -> Seq<
    JsonValue,
>
    decreases records.len(),
{
    if records.len() == 0 {
        Seq::empty()
    } else if is_selected(records.last(), selection) {
        removed_records(records.drop_last(), selection).push(records.last())
    } else {
        removed_records(records.drop_last(), selection)
    }
}

/// The ids of a run of records, in their order; a record without a text as
/// its id has none.
pub open spec fn ids_of(records: Seq<JsonValue>) -> Seq<Seq<char>>
    decreases records.len(),
{
    if records.len() == 0 {
        Seq::empty()
    } else {
        match records.last().text_at("composerId"@) {
            Some(id) => ids_of(records.drop_last()).push(id),
            None => ids_of(records.drop_last()),
        }
    }
}

/// What is kept of each of a run of records.
pub open spec fn entries_for(
    records: Seq<JsonValue>,
    project_path: Seq<char>,
    deleted_at: Seq<char>,
) -> Seq<TrashEntryView> {
    records.map_values(|r: JsonValue| entry_of(r, project_path, deleted_at))
}

/// The position of the first entry named `key`.
pub open spec fn entry_index(entries: Seq<(Seq<char>, JsonValue)>, key: Seq<char>) -> Option<int>
    decreases entries.len(),
{
    if entries.len() == 0 {
        None
    } else if entries[0].0 == key {
        Some(0)
    } else {
        match entry_index(entries.skip(1), key) {
            Some(k) => Some(k + 1),
            None => None,
        }
    }
}

/// Where a session list keeps its records: the position of the member
/// `allComposers` of an object, where that member is an array.
pub open spec fn records_slot(doc: JsonValue) -> Option<int> {
    match doc {
        JsonValue::Object(entries) => match entry_index(entries, "allComposers"@) {
            Some(k) => if entries[k].1 is Array {
                Some(k)
            } else {
                None
            },
            None => None,
        },
        _ => None,
    }
}

/// The session list with `records` in the place of its records; the list
/// as it is where it keeps none.
pub open spec fn with_records(doc: JsonValue, records: Seq<JsonValue>) -> JsonValue {
    match records_slot(doc) {
        Some(k) => JsonValue::Object(
            doc->Object_0.update(k, (doc->Object_0[k].0, JsonValue::Array(records))),
        ),
        None => doc,
    }
}

/// The session list without the selected records.
pub open spec fn remaining_list(doc: JsonValue, selection: SelectionView) -> JsonValue {
    with_records(doc, kept_records(composer_records(doc), selection))
}

/// The removal of the selected records from a session list, for the project
/// at `project_path` at the time `deleted_at`. Where no record is selected
/// it is the removal that removes nothing; else what is written back is the
/// list without the selected records.
pub open spec fn removal_of(
    doc: JsonValue,
    selection: SelectionView,
    project_path: Seq<char>,
    deleted_at: Seq<char>,
) -> RemovalView {
    let gone = removed_records(composer_records(doc), selection);
    RemovalView {
        removed: clamp_i64(gone.len() as int),
        value: if gone.len() == 0 {
            None
        } else {
            Some(json_text(remaining_list(doc, selection)))
        },
        archived: entries_for(gone, project_path, deleted_at),
        cascade: ids_of(gone),
    }
}

/// Decides `is_selected`.
pub fn is_selected_record(record: &Json, selection: &Selection) -> (b: bool)
    ensures
        b == is_selected(record@, selection@),
{
    match selection {
        Selection::Ids(ids) => match record.text_at("composerId") {
            Some(id) => lists_text(ids, id),
            None => false,
        },
        Selection::Heads => is_head_record(record),
    }
}

/// The first entry named `key` is the one that `lookup` finds.
pub proof fn lemma_entry_index(entries: Seq<(Seq<char>, JsonValue)>, key: Seq<char>)
    ensures
        match entry_index(entries, key) {
            Some(k) => 0 <= k < entries.len() && entries[k].0 == key && lookup(entries, key)
                == Some(entries[k].1),
            None => lookup(entries, key) is None,
        },
    decreases entries.len(),
{
    if entries.len() > 0 && entries[0].0 != key {
        lemma_entry_index(entries.skip(1), key);
    }
}

fn find_entry(entries: &Vec<(String, Json)>, key: &str) -> (r: Option<usize>)
    ensures
        match r {
            Some(k) => k < entries.len() && entry_index(entries_of(entries@), key@) == Some(
                k as int,
            ),
            None => entry_index(entries_of(entries@), key@) is None,
        },
{
    let ghost all = entries_of(entries@);
    let mut i: usize = 0;
    assert(all.skip(0) =~= all);
    while i < entries.len()
        invariant
            i <= entries.len(),
            all == entries_of(entries@),
            entry_index(all, key@) == match entry_index(all.skip(i as int), key@) {
                Some(k) => Some(k + i),
                None => None,
            },
        decreases entries.len() - i,
    {
        assert(all.skip(i as int)[0] == all[i as int]);
        if same_text(entries[i].0.as_str(), key) {
            return Some(i);
        }
        assert(all.skip(i as int).skip(1) =~= all.skip(i + 1));
        i += 1;
    }
    None
}

/// What becomes of the records of a session list: those that stay, what is
/// kept of those that go, and the ids of those that go.
fn split_records(
    items: Vec<Json>,
    selection: &Selection,
    project_path: &str,
    deleted_at: &str,
) -> (r: (Vec<Json>, Vec<TrashEntry>, Vec<String>))
    ensures
        values_of(r.0@) == kept_records(values_of(items@), selection@),
        entry_views(r.1@) == entries_for(
            removed_records(values_of(items@), selection@),
            project_path@,
            deleted_at@,
        ),
        texts_of(r.2@) == ids_of(removed_records(values_of(items@), selection@)),
{
    let ghost all = values_of(items@);
    let ghost source = items@;
    let mut kept: Vec<Json> = Vec::new();
    let mut archived: Vec<TrashEntry> = Vec::new();
    let mut cascade: Vec<String> = Vec::new();
    assert(all.take(0) =~= Seq::<JsonValue>::empty());
    assert(values_of(kept@) =~= Seq::<JsonValue>::empty());
    assert(entry_views(archived@) =~= Seq::<TrashEntryView>::empty());
    assert(texts_of(cascade@) =~= Seq::<Seq<char>>::empty());
    assert(entries_for(Seq::<JsonValue>::empty(), project_path@, deleted_at@)
        =~= Seq::<TrashEntryView>::empty());
    for item in it: items
        invariant
            it.seq() == source,
            all == values_of(source),
            values_of(kept@) == kept_records(all.take(it.index() as int), selection@),
            entry_views(archived@) == entries_for(
                removed_records(all.take(it.index() as int), selection@),
                project_path@,
                deleted_at@,
            ),
            texts_of(cascade@) == ids_of(
                removed_records(all.take(it.index() as int), selection@),
            ),
    {
        let ghost i = it.index() as int;
        let ghost gone = removed_records(all.take(i), selection@);
        let ghost kept_before = kept@;
        let ghost archived_before = archived@;
        let ghost cascade_before = cascade@;
        assert(all.take(i + 1).drop_last() =~= all.take(i));
        assert(all.take(i + 1).last() == item@);
        if is_selected_record(&item, selection) {
            let entry = trash_entry(&item, project_path, deleted_at);
            archived.push(entry);
            assert(entry_views(archived@) =~= entry_views(archived_before).push(entry@));
            assert(entries_for(gone.push(item@), project_path@, deleted_at@) =~= entries_for(
                gone,
                project_path@,
                deleted_at@,
            ).push(entry_of(item@, project_path@, deleted_at@)));
            assert(gone.push(item@).drop_last() =~= gone);
            match item.text_at("composerId") {
                Some(id) => {
                    let owned = id.to_owned();
                    cascade.push(owned);
                    assert(texts_of(cascade@) =~= texts_of(cascade_before).push(id@));
                },
                None => {},
            }
        } else {
            kept.push(item);
            assert(values_of(kept@) =~= values_of(kept_before).push(item@));
        }
    }
    assert(all.take(all.len() as int) =~= all);
    (kept, archived, cascade)
}

/// Takes the selected records out of a session list: the list without
/// them, what is kept of each of them, and their ids.
pub fn split_sessions(
    doc: Json,
    selection: &Selection,
    project_path: &str,
    deleted_at: &str,
) -> (parts: (Json, Vec<TrashEntry>, Vec<String>))
    ensures
        parts.0@ == remaining_list(doc@, selection@),
        entry_views(parts.1@) == entries_for(
            removed_records(composer_records(doc@), selection@),
            project_path@,
            deleted_at@,
        ),
        texts_of(parts.2@) == ids_of(removed_records(composer_records(doc@), selection@)),
        parts.1@.len() == removed_records(composer_records(doc@), selection@).len(),
{
    let ghost before = doc@;
    let mut remaining = doc;
    let mut archived: Vec<TrashEntry> = Vec::new();
    let mut cascade: Vec<String> = Vec::new();
    proof {
        assert(entry_views(archived@) =~= Seq::<TrashEntryView>::empty());
        assert(texts_of(cascade@) =~= Seq::<Seq<char>>::empty());
        assert(entries_for(Seq::<JsonValue>::empty(), project_path@, deleted_at@)
            =~= Seq::<TrashEntryView>::empty());
    }
    match remaining {
        Json::Object(entries) => {
            let mut entries = entries;
            let ghost old_entries = entries_of(entries@);
            proof {
                lemma_object_view(entries);
                lemma_entry_index(old_entries, "allComposers"@);
            }
            match find_entry(&entries, "allComposers") {
                Some(k) => {
                    let pair = entries.remove(k);
                    let key = pair.0;
                    match pair.1 {
                        Json::Array(items) => {
                            proof {
                                lemma_array_view(items);
                            }
                            let parts = split_records(items, selection, project_path, deleted_at);
                            let kept = parts.0;
                            archived = parts.1;
                            cascade = parts.2;
                            proof {
                                lemma_array_view(kept);
                            }
                            entries.insert(k, (key, Json::Array(kept)));
                            assert(entries_of(entries@) =~= old_entries.update(
                                k as int,
                                (old_entries[k as int].0, JsonValue::Array(values_of(kept@))),
                            ));
                        },
                        other => {
                            entries.insert(k, (key, other));
                            assert(entries_of(entries@) =~= old_entries);
                        },
                    }
                },
                None => {},
            }
            proof {
                lemma_object_view(entries);
            }
            remaining = Json::Object(entries);
        },
        other => {
            remaining = other;
        },
    }
    let ghost gone = removed_records(composer_records(before), selection@);
    assert(remaining@ == remaining_list(before, selection@));
    assert(entry_views(archived@) == entries_for(gone, project_path@, deleted_at@));
    assert(texts_of(cascade@) == ids_of(gone));
    assert(archived@.len() == entry_views(archived@).len());
    assert(gone.len() == entries_for(gone, project_path@, deleted_at@).len());
    (remaining, archived, cascade)
}

/// Removes the selected records from a session list.
pub fn remove_sessions(
    doc: Json,
    selection: &Selection,
    project_path: &str,
    deleted_at: &str,
) -> (removal: Removal)
    ensures
        removal@ == removal_of(doc@, selection@, project_path@, deleted_at@),
{
    let parts = split_sessions(doc, selection, project_path, deleted_at);
    let remaining = parts.0;
    let archived = parts.1;
    let cascade = parts.2;
    let value = if archived.len() == 0 {
        None
    } else {
        Some(remaining.render())
    };
    Removal { removed: count(archived.len()), value, archived, cascade }
}

/// A session list keeps records just where an array stands under `allComposers`.
pub proof fn lemma_records_slot(doc: JsonValue)
    ensures
        records_slot(doc) is Some <==> doc.array_at("allComposers"@) is Some,
        records_slot(doc) matches Some(k) ==> doc is Object && 0 <= k < doc->Object_0.len()
            && doc->Object_0[k].1 == JsonValue::Array(composer_records(doc)),
{
    if doc is Object {
        lemma_entry_index(doc->Object_0, "allComposers"@);
    }
}

/// How many records of a session list are selected.
pub fn count_selected(doc: &Json, selection: &Selection) -> (n: usize)
    ensures
        n == removed_records(composer_records(doc@), selection@).len(),
{
    match doc.array_at("allComposers") {
        Some(items) => {
            let ghost all = values_of(items@);
            let mut n: usize = 0;
            let mut i: usize = 0;
            assert(all.take(0) =~= Seq::<JsonValue>::empty());
            while i < items.len()
                invariant
                    i <= items.len(),
                    all == values_of(items@),
                    n <= i,
                    n == removed_records(all.take(i as int), selection@).len(),
                decreases items.len() - i,
            {
                assert(all.take(i + 1).drop_last() =~= all.take(i as int));
                assert(all.take(i + 1).last() == items@[i as int]@);
                if is_selected_record(&items[i], selection) {
                    n += 1;
                }
                i += 1;
            }
            assert(all.take(items@.len() as int) =~= all);
            n
        },
        None => 0,
    }
}

/// What a removal from the stored session list amounts to: nothing is found
/// where the store holds no list, the list is corrupt where it is not JSON.
pub open spec fn deletion_of(
    session_list: Option<Seq<char>>,
    selection: SelectionView,
    project_path: Seq<char>,
    deleted_at: Seq<char>,
) -> Result<RemovalView, MutationError> {
    match session_list {
        Some(text) => match json_parse(text) {
            Some(doc) => Ok(removal_of(doc, selection, project_path, deleted_at)),
            None => Err(MutationError::Corrupt),
        },
        None => Err(MutationError::NotFound),
    }
}

/// The removal of the one session `chat_id` from a session list. Nothing is
/// found where no record of the list has that id; else it is the removal of
/// the records with that id.
pub open spec fn single_removal_of(
    doc: JsonValue,
    chat_id: Seq<char>,
    project_path: Seq<char>,
    deleted_at: Seq<char>,
) -> Result<RemovalView, MutationError> {
    let selection = SelectionView::Ids(seq![chat_id]);
    if removed_records(composer_records(doc), selection).len() == 0 {
        Err(MutationError::NotFound)
    } else {
        Ok(removal_of(doc, selection, project_path, deleted_at))
    }
}

/// What the removal of the one session `chat_id` from the stored session
/// list amounts to: nothing is found where the store holds no list or the
/// list no such session, the list is corrupt where it is not JSON.
pub open spec fn single_deletion_of(
    session_list: Option<Seq<char>>,
    chat_id: Seq<char>,
    project_path: Seq<char>,
    deleted_at: Seq<char>,
) -> Result<RemovalView, MutationError> {
    match session_list {
        Some(text) => match json_parse(text) {
            Some(doc) => single_removal_of(doc, chat_id, project_path, deleted_at),
            None => Err(MutationError::Corrupt),
        },
        None => Err(MutationError::NotFound),
    }
}

/// What the removal of the sessions with the ids `chat_ids` amounts to.
/// Without ids there is nothing to do, whatever the store holds: nothing is
/// removed and nothing fails.
pub open spec fn batch_deletion_of(
    session_list: Option<Seq<char>>,
    chat_ids: Seq<Seq<char>>,
    project_path: Seq<char>,
    deleted_at: Seq<char>,
) -> Result<RemovalView, MutationError> {
    if chat_ids.len() == 0 {
        Ok(nothing_removed())
    } else {
        deletion_of(session_list, SelectionView::Ids(chat_ids), project_path, deleted_at)
    }
}

/// Whether a removal by these ids has nothing to do, so that the store
/// need not be read: there is no id among them.
pub fn nothing_asked(chat_ids: &Vec<String>) -> (b: bool)
    ensures
        b == (texts_of(chat_ids@).len() == 0),
        b ==> forall|session_list: Option<Seq<char>>, project_path: Seq<char>, deleted_at: Seq<char>|
            #[trigger] batch_deletion_of(
                session_list,
                texts_of(chat_ids@),
                project_path,
                deleted_at,
            ) == Ok::<RemovalView, MutationError>(nothing_removed()),
{
    chat_ids.len() == 0
}

/// Removes from the stored session list what `selection` selects, at the
/// time `deleted_at`.
pub fn delete_selected(
    session_list: Option<&str>,
    selection: &Selection,
    project_path: &str,
    deleted_at: &str,
) -> (outcome: Result<Removal, MutationError>)
    ensures
        outcome_view(outcome) == deletion_of(
            str_view(session_list),
            selection@,
            project_path@,
            deleted_at@,
        ),
{
    let text = match session_list {
        Some(t) => t,
        None => {
            return Err(MutationError::NotFound);
        },
    };
    match Json::parse(text) {
        Some(doc) => Ok(remove_sessions(doc, selection, project_path, deleted_at)),
        None => Err(MutationError::Corrupt),
    }
}

/// Removes the one session `chat_id` from the stored session list, at the
/// time `deleted_at`.
pub fn delete_one(
    session_list: Option<&str>,
    chat_id: &str,
    project_path: &str,
    deleted_at: &str,
) -> (outcome: Result<Removal, MutationError>)
    ensures
        outcome_view(outcome) == single_deletion_of(
            str_view(session_list),
            chat_id@,
            project_path@,
            deleted_at@,
        ),
{
    let text = match session_list {
        Some(t) => t,
        None => {
            return Err(MutationError::NotFound);
        },
    };
    let mut ids: Vec<String> = Vec::new();
    ids.push(chat_id.to_owned());
    let selection = Selection::Ids(ids);
    assert(selection@ == SelectionView::Ids(seq![chat_id@])) by {
        assert(texts_of(ids@) =~= seq![chat_id@]);
    }
    match Json::parse(text) {
        Some(doc) => {
            if count_selected(&doc, &selection) == 0 {
                return Err(MutationError::NotFound);
            }
            Ok(remove_sessions(doc, &selection, project_path, deleted_at))
        },
        None => Err(MutationError::Corrupt),
    }
}

/// Removes the sessions with the ids `chat_ids` from the stored session
/// list, at the time `deleted_at`.
pub fn delete_batch(
    session_list: Option<&str>,
    chat_ids: Vec<String>,
    project_path: &str,
    deleted_at: &str,
) -> (outcome: Result<Removal, MutationError>)
    ensures
        outcome_view(outcome) == batch_deletion_of(
            str_view(session_list),
            texts_of(chat_ids@),
            project_path@,
            deleted_at@,
        ),
{
    if chat_ids.len() == 0 {
        let nothing = Removal {
            removed: 0,
            value: None,
            archived: Vec::new(),
            cascade: Vec::new(),
        };
        assert(nothing@ == nothing_removed()) by {
            assert(entry_views(nothing.archived@) =~= Seq::<TrashEntryView>::empty());
            assert(texts_of(nothing.cascade@) =~= Seq::<Seq<char>>::empty());
        }
        return Ok(nothing);
    }
    let selection = Selection::Ids(chat_ids);
    delete_selected(session_list, &selection, project_path, deleted_at)
}

/// Removes one session from the session list of a project's store. What is
/// kept of it is stamped with what the clock reads.
pub fn delete_chat(session_list: Option<&str>, project_path: &str, chat_id: &str) -> (outcome:
    Result<Removal, MutationError>)
    ensures
        exists|reading: Option<u64>|
            outcome_view(outcome) == single_deletion_of(
                str_view(session_list),
                chat_id@,
                project_path@,
                #[trigger] stamp_text(reading),
            ),
{
    let reading = read_clock();
    let stamp = timestamp_of_reading(reading);
    let outcome = delete_one(session_list, chat_id, project_path, stamp.as_str());
    assert(outcome_view(outcome) == single_deletion_of(
        str_view(session_list),
        chat_id@,
        project_path@,
        stamp_text(reading),
    ));
    outcome
}

/// Removes the sessions with the given ids from the session list of a
/// project's store. An id that no session has removes nothing, and without
/// ids nothing is done at all.
pub fn delete_chats_batch(
    session_list: Option<&str>,
    project_path: &str,
    chat_ids: Vec<String>,
) -> (outcome: Result<Removal, MutationError>)
    ensures
        exists|reading: Option<u64>|
            outcome_view(outcome) == batch_deletion_of(
                str_view(session_list),
                texts_of(chat_ids@),
                project_path@,
                #[trigger] stamp_text(reading),
            ),
{
    let reading = read_clock();
    let stamp = timestamp_of_reading(reading);
    let outcome = delete_batch(session_list, chat_ids, project_path, stamp.as_str());
    assert(outcome_view(outcome) == batch_deletion_of(
        str_view(session_list),
        texts_of(chat_ids@),
        project_path@,
        stamp_text(reading),
    ));
    outcome
}

/// Removes every session from the session list of a project's store.
pub fn delete_project_chats(session_list: Option<&str>, project_path: &str) -> (outcome: Result<
    Removal,
    MutationError,
>)
    ensures
        exists|reading: Option<u64>|
            outcome_view(outcome) == deletion_of(
                str_view(session_list),
                SelectionView::Heads,
                project_path@,
                #[trigger] stamp_text(reading),
            ),
{
    let reading = read_clock();
    let stamp = timestamp_of_reading(reading);
    let outcome = delete_selected(session_list, &Selection::Heads, project_path, stamp.as_str());
    assert(outcome_view(outcome) == deletion_of(
        str_view(session_list),
        SelectionView::Heads,
        project_path@,
        stamp_text(reading),
    ));
    outcome
}

/// The project that the trash names for the sessions of a workspace: the
/// folder of its descriptor, else a label made of the workspace's id.
pub open spec fn workspace_label(snapshot: WorkspaceSnapshotView) -> Seq<char> {
    match descriptor_folder(snapshot.descriptor) {
        Some(folder) => folder,
        None => "[工作区] "@ + snapshot.id,
    }
}

/// What the removal of every session of a workspace amounts to: nothing is
/// found where the workspace has no store.
pub open spec fn workspace_deletion_of(
    snapshot: WorkspaceSnapshotView,
    deleted_at: Seq<char>,
) -> Result<RemovalView, MutationError> {
    if snapshot.has_store {
        deletion_of(
            snapshot.session_list,
            SelectionView::Heads,
            workspace_label(snapshot),
            deleted_at,
        )
    } else {
        Err(MutationError::NotFound)
    }
}

/// Computes `workspace_label`.
pub fn label_of_workspace(snapshot: &WorkspaceSnapshot) -> (label: String)
    ensures
        label@ == workspace_label(snapshot@),
{
    let folder = match &snapshot.descriptor {
        Some(text) => match read_descriptor(text.as_str()) {
            Some(d) => d.folder,
            None => None,
        },
        None => None,
    };
    match folder {
        Some(path) => path,
        None => {
            let mut out: Vec<char> = Vec::new();
            push_text(&mut out, "[工作区] ");
            push_text(&mut out, snapshot.id.as_str());
            text_of(&out)
        },
    }
}

/// Removes every session of a workspace at the time `deleted_at`.
pub fn delete_workspace(snapshot: &WorkspaceSnapshot, deleted_at: &str) -> (outcome: Result<
    Removal,
    MutationError,
>)
    ensures
        outcome_view(outcome) == workspace_deletion_of(snapshot@, deleted_at@),
{
    if snapshot.has_store {
        let label = label_of_workspace(snapshot);
        let session_list: Option<&str> = match &snapshot.session_list {
            Some(t) => Some(t.as_str()),
            None => None,
        };
        delete_selected(session_list, &Selection::Heads, label.as_str(), deleted_at)
    } else {
        Err(MutationError::NotFound)
    }
}

/// Removes every session from the session list of a workspace's store.
pub fn delete_workspace_chats(snapshot: &WorkspaceSnapshot) -> (outcome: Result<
    Removal,
    MutationError,
>)
    ensures
        exists|reading: Option<u64>|
            outcome_view(outcome) == workspace_deletion_of(
                snapshot@,
                #[trigger] stamp_text(reading),
            ),
{
    let reading = read_clock();
    let stamp = timestamp_of_reading(reading);
    let outcome = delete_workspace(snapshot, stamp.as_str());
    assert(outcome_view(outcome) == workspace_deletion_of(snapshot@, stamp_text(reading)));
    outcome
}

/// What the keys of the conversation turns of the session `id` begin with.
pub open spec fn bubble_prefix(id: Seq<char>) -> Seq<char> {
    "bubbleId:"@ + id + ":"@
}

/// What the keys of the checkpoints of the session `id` begin with.
pub open spec fn checkpoint_prefix(id: Seq<char>) -> Seq<char> {
    "checkpointId:"@ + id + ":"@
}

/// A row is left over from the session `id`: its key begins, character for
/// character, with the prefix of the session's conversation turns or with
/// that of its checkpoints. No character of an id stands for any other.
pub open spec fn is_left_over(key: Seq<char>, id: Seq<char>) -> bool {
    starts_with(key, bubble_prefix(id)) || starts_with(key, checkpoint_prefix(id))
}

/// The prefixes of the keys of the rows that are left over when the
/// session `id` is removed: that of its conversation turns and that of its
/// checkpoints.
pub fn cascade_prefixes(id: &str) -> (prefixes: (String, String))
    ensures
        prefixes.0@ == bubble_prefix(id@),
        prefixes.1@ == checkpoint_prefix(id@),
{
    let mut bubbles: Vec<char> = Vec::new();
    push_text(&mut bubbles, "bubbleId:");
    push_text(&mut bubbles, id);
    push_text(&mut bubbles, ":");
    let mut checkpoints: Vec<char> = Vec::new();
    push_text(&mut checkpoints, "checkpointId:");
    push_text(&mut checkpoints, id);
    push_text(&mut checkpoints, ":");
    (text_of(&bubbles), text_of(&checkpoints))
}

/// Whether a key begins with a prefix, character for character.
pub fn key_begins_with(key: &str, prefix: &str) -> (b: bool)
    ensures
        b == starts_with(key@, prefix@),
{
    let k = chars_of(key);
    let p = chars_of(prefix);
    matches_at(&k, 0, &p)
}

/// Decides `is_left_over`.
pub fn key_is_left_over(key: &str, id: &str) -> (b: bool)
    ensures
        b == is_left_over(key@, id@),
{
    let prefixes = cascade_prefixes(id);
    key_begins_with(key, prefixes.0.as_str()) || key_begins_with(key, prefixes.1.as_str())
}

/// One thing to do to carry out a removal.
#[derive(Debug, Clone)]
pub enum Step {
    /// File what is kept of a removed record in the trash.
    File(TrashEntry),
    /// Write the session list back to the store.
    Write(String),
    /// Remove from the store the rows whose key begins with the prefix,
    /// character for character.
    Clean(String),
}

/// The mathematical value of a `Step`.
pub enum StepView {
    File(TrashEntryView),
    Write(Seq<char>),
    Clean(Seq<char>),
}

impl View for Step {
    type V = StepView;

    open spec fn view(&self) -> StepView {
        match self {
            Step::File(entry) => StepView::File(entry@),
            Step::Write(value) => StepView::Write(value@),
            Step::Clean(prefix) => StepView::Clean(prefix@),
        }
    }
}

/// The values of a run of steps.
pub open spec fn step_views(steps: Seq<Step>) -> Seq<StepView> {
    steps.map_values(|s: Step| s@)
}

/// The filing of each of a run of entries.
pub open spec fn filing(entries: Seq<TrashEntryView>) -> Seq<StepView> {
    entries.map_values(|e: TrashEntryView| StepView::File(e))
}

/// The writing back of a session list; nothing where there is none to write.
pub open spec fn writing(value: Option<Seq<char>>) -> Seq<StepView> {
    match value {
        Some(text) => seq![StepView::Write(text)],
        None => Seq::empty(),
    }
}

/// The cleaning up after each of a run of sessions: for each, first its
/// conversation turns, then its checkpoints.
pub open spec fn cleaning(ids: Seq<Seq<char>>) -> Seq<StepView>
    decreases ids.len(),
{
    if ids.len() == 0 {
        Seq::empty()
    } else {
        cleaning(ids.drop_last()) + seq![
            StepView::Clean(bubble_prefix(ids.last())),
            StepView::Clean(checkpoint_prefix(ids.last())),
        ]
    }
}

/// How a removal is carried out: what was removed is filed first, then the
/// session list is written back, then the rows left over are cleaned up. A
/// removal that removes nothing has no step.
pub open spec fn steps_of(removal: RemovalView) -> Seq<StepView> {
    filing(removal.archived) + writing(removal.value) + cleaning(removal.cascade)
}

impl Step {
    /// Whether the removal fails when the step fails. Only the write is
    /// binding: filing and cleaning up are done as far as they go.
    pub fn is_binding(&self) -> (b: bool)
        ensures
            b == (self@ is Write),
    {
        match self {
            Step::Write(_) => true,
            _ => false,
        }
    }
}

/// Lays out the steps that carry out a removal, in their order.
pub fn steps(removal: Removal) -> (out: Vec<Step>)
    ensures
        step_views(out@) == steps_of(removal@),
{
    let ghost entries = entry_views(removal.archived@);
    let ghost ids = texts_of(removal.cascade@);
    let mut out: Vec<Step> = Vec::new();
    assert(step_views(out@) =~= filing(entries.take(0)));
    let ghost source = removal.archived@;
    for entry in it: removal.archived
        invariant
            it.seq() == source,
            entries == entry_views(source),
            step_views(out@) == filing(entries.take(it.index() as int)),
    {
        let ghost before = out@;
        out.push(Step::File(entry));
        assert(step_views(out@) =~= step_views(before).push(StepView::File(entry@)));
        assert(filing(entries.take(it.index() + 1)) =~= filing(entries.take(it.index() as int)).push(
            StepView::File(entry@),
        ));
    }
    assert(entries.take(entries.len() as int) =~= entries);
    let ghost filed = out@;
    match removal.value {
        Some(value) => {
            out.push(Step::Write(value));
            assert(step_views(out@) =~= filing(entries) + seq![StepView::Write(value@)]);
        },
        None => {
            assert(step_views(out@) =~= filing(entries) + Seq::<StepView>::empty());
        },
    }
    let ghost front = step_views(out@);
    let mut i: usize = 0;
    assert(ids.take(0) =~= Seq::<Seq<char>>::empty());
    assert(front + cleaning(ids.take(0)) =~= front);
    while i < removal.cascade.len()
        invariant
            i <= removal.cascade.len(),
            ids == texts_of(removal.cascade@),
            step_views(out@) == front + cleaning(ids.take(i as int)),
        decreases removal.cascade.len() - i,
    {
        let ghost before = out@;
        let prefixes = cascade_prefixes(removal.cascade[i].as_str());
        out.push(Step::Clean(prefixes.0));
        out.push(Step::Clean(prefixes.1));
        assert(ids.take(i + 1).drop_last() =~= ids.take(i as int));
        assert(ids.take(i + 1).last() == removal.cascade@[i as int]@);
        assert(step_views(out@) =~= step_views(before) + seq![
            StepView::Clean(prefixes.0@),
            StepView::Clean(prefixes.1@),
        ]);
        assert(step_views(out@) =~= front + cleaning(ids.take(i + 1)));
        i += 1;
    }
    assert(ids.take(removal.cascade@.len() as int) =~= ids);
    out
}

/// Every record that goes is selected, every record that stays is not, and
/// together they are the records there were.
pub proof fn lemma_split_records(records: Seq<JsonValue>, selection: SelectionView)
    ensures
        forall|i: int|
            0 <= i < removed_records(records, selection).len() ==> is_selected(
                #[trigger] removed_records(records, selection)[i],
                selection,
            ),
        forall|i: int|
            0 <= i < kept_records(records, selection).len() ==> !is_selected(
                #[trigger] kept_records(records, selection)[i],
                selection,
            ),
        kept_records(records, selection).len() + removed_records(records, selection).len()
            == records.len(),
        (forall|k: int| 0 <= k < records.len() ==> !is_selected(#[trigger] records[k], selection))
            ==> kept_records(records, selection) == records && removed_records(
            records,
            selection,
        ).len() == 0,
    decreases records.len(),
{
    if records.len() > 0 {
        let front = records.drop_last();
        lemma_split_records(front, selection);
        assert forall|i: int| 0 <= i < removed_records(records, selection).len() implies is_selected(
            #[trigger] removed_records(records, selection)[i],
            selection,
        ) by {
            if i < removed_records(front, selection).len() {
                assert(removed_records(records, selection)[i] == removed_records(
                    front,
                    selection,
                )[i]);
            }
        }
        assert forall|i: int| 0 <= i < kept_records(records, selection).len() implies !is_selected(
            #[trigger] kept_records(records, selection)[i],
            selection,
        ) by {
            if i < kept_records(front, selection).len() {
                assert(kept_records(records, selection)[i] == kept_records(front, selection)[i]);
            }
        }
        if forall|k: int| 0 <= k < records.len() ==> !is_selected(#[trigger] records[k], selection) {
            assert forall|k: int| 0 <= k < front.len() implies !is_selected(
                #[trigger] front[k],
                selection,
            ) by {
                assert(front[k] == records[k]);
            }
            assert(!is_selected(records[records.len() - 1], selection));
            assert(front.push(records.last()) =~= records);
        }
    } else {
        assert(kept_records(records, selection) =~= records);
    }
}

/// The sessions of the records that stay and of those that go are, in
/// number, the sessions of the records there were.
pub proof fn lemma_split_sessions(records: Seq<JsonValue>, selection: SelectionView)
    ensures
        head_sessions(kept_records(records, selection)).len() + head_sessions(
            removed_records(records, selection),
        ).len() == head_sessions(records).len(),
    decreases records.len(),
{
    if records.len() > 0 {
        let front = records.drop_last();
        lemma_split_sessions(front, selection);
        if is_selected(records.last(), selection) {
            assert(removed_records(records, selection).drop_last() =~= removed_records(
                front,
                selection,
            ));
        } else {
            assert(kept_records(records, selection).drop_last() =~= kept_records(front, selection));
        }
    }
}

proof fn lemma_lookup_updated(
    entries: Seq<(Seq<char>, JsonValue)>,
    key: Seq<char>,
    value: JsonValue,
)
    ensures
        entry_index(entries, key) matches Some(k) ==> lookup(
            entries.update(k, (entries[k].0, value)),
            key,
        ) == Some(value) && entry_index(entries.update(k, (entries[k].0, value)), key) == Some(k),
    decreases entries.len(),
{
    lemma_entry_index(entries, key);
    if entries.len() > 0 && entries[0].0 != key {
        lemma_lookup_updated(entries.skip(1), key, value);
        lemma_entry_index(entries.skip(1), key);
        if let Some(k) = entry_index(entries, key) {
            assert(entries.update(k, (entries[k].0, value)).skip(1) =~= entries.skip(1).update(
                k - 1,
                (entries.skip(1)[k - 1].0, value),
            ));
        }
    }
}

/// A session list that keeps records keeps, after `with_records`, just the
/// records it was given; and given its own records it is unchanged.
pub proof fn lemma_with_records(doc: JsonValue, records: Seq<JsonValue>)
    ensures
        records_slot(doc) is Some ==> composer_records(with_records(doc, records)) == records,
        with_records(doc, composer_records(doc)) == doc,
{
    lemma_records_slot(doc);
    if let Some(k) = records_slot(doc) {
        let entries = doc->Object_0;
        lemma_lookup_updated(entries, "allComposers"@, JsonValue::Array(records));
        assert(entries.update(k, (entries[k].0, JsonValue::Array(composer_records(doc))))
            =~= entries);
    }
}

/// Removing one session and then listing the trash. Where the session list
/// holds just one record with the id `chat_id`, and that record is
/// canonical, the removal succeeds and removes that one record. The list
/// that is written back has one record less, none of them with that id,
/// and holds one session less. What is filed is that record alone, under
/// the id asked for and with the text of the record as its original data.
/// The steps are: file it, write the list, clean up the two kinds of rows
/// of that id. And the trash, once the entry is filed, lists one item more
/// than before, the new item among them.
pub proof fn lemma_delete_then_list(
    doc: JsonValue,
    chat_id: Seq<char>,
    project_path: Seq<char>,
    deleted_at: Seq<char>,
    items: Seq<TrashItemView>,
    next_id: i64,
)
    requires
        removed_records(composer_records(doc), SelectionView::Ids(seq![chat_id])).len() == 1,
        is_head(removed_records(composer_records(doc), SelectionView::Ids(seq![chat_id]))[0]),
        ledger_wf(items, next_id),
    ensures
        ({
            let selection = SelectionView::Ids(seq![chat_id]);
            let record = removed_records(composer_records(doc), selection)[0];
            let remaining = remaining_list(doc, selection);
            let entry = entry_of(record, project_path, deleted_at);
            let filed = item_of(entry, next_id);
            let removal = RemovalView {
                removed: 1,
                value: Some(json_text(remaining)),
                archived: seq![entry],
                cascade: seq![chat_id],
            };
            &&& single_removal_of(doc, chat_id, project_path, deleted_at) == Ok::<
                RemovalView,
                MutationError,
            >(removal)
            &&& steps_of(removal) == seq![
                StepView::File(entry),
                StepView::Write(json_text(remaining)),
                StepView::Clean(bubble_prefix(chat_id)),
                StepView::Clean(checkpoint_prefix(chat_id)),
            ]
            &&& composer_records(remaining).len() == composer_records(doc).len() - 1
            &&& forall|k: int|
                0 <= k < composer_records(remaining).len() ==> (#[trigger] composer_records(
                    remaining,
                )[k]).text_at("composerId"@) != Some(chat_id)
            &&& sessions_in(remaining).len() == sessions_in(doc).len() - 1
            &&& entry.chat_id == chat_id
            &&& entry.project_path == project_path
            &&& entry.original_data == json_text(record)
            &&& listing(items.push(filed)).len() == listing(items).len() + 1
            &&& listing(items.push(filed)).contains(filed)
            &&& !listing(items).contains(filed)
            &&& forall|t: TrashItemView|
                listing(items).contains(t) ==> listing(items.push(filed)).contains(t)
        }),
{
    let selection = SelectionView::Ids(seq![chat_id]);
    let records = composer_records(doc);
    let gone = removed_records(records, selection);
    let kept = kept_records(records, selection);
    let record = gone[0];
    lemma_split_records(records, selection);
    lemma_split_sessions(records, selection);
    lemma_records_slot(doc);
    lemma_with_records(doc, kept);
    assert(records_slot(doc) is Some) by {
        if records_slot(doc) is None {
            assert(records.len() == 0);
        }
    }
    assert(is_selected(record, selection));
    assert(record.text_at("composerId"@) == Some(chat_id)) by {
        let id = record.text_at("composerId"@)->0;
        assert(seq![chat_id].contains(id));
        assert(seq![chat_id][0] == chat_id);
    }
    assert(gone =~= seq![record]);
    assert(head_sessions(gone).len() == 1) by {
        assert(gone.drop_last() =~= Seq::<JsonValue>::empty());
        assert(head_sessions(gone.drop_last()).len() == 0);
    }
    assert(ids_of(gone) =~= seq![chat_id]) by {
        assert(gone.drop_last() =~= Seq::<JsonValue>::empty());
        assert(ids_of(gone.drop_last()) =~= Seq::<Seq<char>>::empty());
    }
    let entry = entry_of(record, project_path, deleted_at);
    assert(entries_for(gone, project_path, deleted_at) =~= seq![entry]);
    let remaining = remaining_list(doc, selection);
    assert(composer_records(remaining) == kept);
    assert forall|k: int| 0 <= k < kept.len() implies (#[trigger] kept[k]).text_at(
        "composerId"@,
    ) != Some(chat_id) by {
        assert(!is_selected(kept[k], selection));
        if kept[k].text_at("composerId"@) == Some(chat_id) {
            assert(seq![chat_id][0] == chat_id);
            assert(seq![chat_id].contains(chat_id));
        }
    }
    crate::order::lemma_ranked_len(head_sessions(composer_records(remaining)), session_ranking());
    crate::order::lemma_ranked_len(head_sessions(records), session_ranking());
    assert(filing(seq![entry]) =~= seq![StepView::File(entry)]);
    assert(cleaning(seq![chat_id]) =~= seq![
        StepView::Clean(bubble_prefix(chat_id)),
        StepView::Clean(checkpoint_prefix(chat_id)),
    ]) by {
        assert(seq![chat_id].drop_last() =~= Seq::<Seq<char>>::empty());
        assert(cleaning(Seq::<Seq<char>>::empty()) =~= Seq::<StepView>::empty());
    }
    assert(seq![StepView::File(entry)] + seq![StepView::Write(json_text(remaining))] + seq![
        StepView::Clean(bubble_prefix(chat_id)),
        StepView::Clean(checkpoint_prefix(chat_id)),
    ] =~= seq![
        StepView::File(entry),
        StepView::Write(json_text(remaining)),
        StepView::Clean(bubble_prefix(chat_id)),
        StepView::Clean(checkpoint_prefix(chat_id)),
    ]);
    let filed = item_of(entry, next_id);
    lemma_listing(items);
    lemma_listing(items.push(filed));
    assert(items.push(filed)[items.len() as int] == filed);
    assert(!items.contains(filed)) by {
        if items.contains(filed) {
            let i = choose|i: int| 0 <= i < items.len() && items[i] == filed;
            assert(items[i].id < next_id);
        }
    }
    assert forall|t: TrashItemView| listing(items).contains(t) implies listing(
        items.push(filed),
    ).contains(t) by {
        assert(items.contains(t));
        let i = choose|i: int| 0 <= i < items.len() && items[i] == t;
        assert(items.push(filed)[i] == t);
        assert(items.push(filed).contains(t));
    }
    assert(items.push(filed).contains(filed));
}

/// Removing sessions by ids that no record has changes nothing. The removal
/// succeeds, removes no record, and has no step: nothing is filed, the
/// session list is not written, no row is cleaned up. The same holds where
/// no id is given at all, whatever the store holds.
pub proof fn lemma_absent_ids_change_nothing(
    text: Seq<char>,
    doc: JsonValue,
    chat_ids: Seq<Seq<char>>,
    project_path: Seq<char>,
    deleted_at: Seq<char>,
)
    requires
        json_parse(text) == Some(doc),
        forall|k: int|
            0 <= k < composer_records(doc).len() ==> !is_selected(
                #[trigger] composer_records(doc)[k],
                SelectionView::Ids(chat_ids),
            ),
    ensures
        removal_of(doc, SelectionView::Ids(chat_ids), project_path, deleted_at)
            == nothing_removed(),
        batch_deletion_of(Some(text), chat_ids, project_path, deleted_at) == Ok::<
            RemovalView,
            MutationError,
        >(nothing_removed()),
        steps_of(nothing_removed()) == Seq::<StepView>::empty(),
        remaining_list(doc, SelectionView::Ids(chat_ids)) == doc,
{
    let selection = SelectionView::Ids(chat_ids);
    let records = composer_records(doc);
    lemma_split_records(records, selection);
    lemma_with_records(doc, records);
    let gone = removed_records(records, selection);
    assert(gone =~= Seq::<JsonValue>::empty());
    assert(entries_for(gone, project_path, deleted_at) =~= Seq::<TrashEntryView>::empty());
    assert(ids_of(gone) =~= Seq::<Seq<char>>::empty());
    lemma_nothing_has_no_step();
}

/// A removal that removes nothing has no step.
pub proof fn lemma_nothing_has_no_step()
    ensures
        steps_of(nothing_removed()) == Seq::<StepView>::empty(),
{
    assert(filing(Seq::<TrashEntryView>::empty()) =~= Seq::<StepView>::empty());
    assert(cleaning(Seq::<Seq<char>>::empty()) =~= Seq::<StepView>::empty());
    assert(steps_of(nothing_removed()) =~= Seq::<StepView>::empty());
}

/// Removing without ids does nothing, whatever the store holds: no list, a
/// list that is not JSON, or any list.
pub proof fn lemma_no_ids_nothing_done(
    session_list: Option<Seq<char>>,
    project_path: Seq<char>,
    deleted_at: Seq<char>,
)
    ensures
        batch_deletion_of(session_list, Seq::empty(), project_path, deleted_at) == Ok::<
            RemovalView,
            MutationError,
        >(nothing_removed()),
        steps_of(nothing_removed()) == Seq::<StepView>::empty(),
{
    lemma_nothing_has_no_step();
}

} // verus!
