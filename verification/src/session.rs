//! Chat sessions and their decoding from the session list of a store.

use crate::json::{json_parse, values_of, Json, JsonNumber, JsonValue};
use crate::json::text_or;
use crate::order::{
    is_ranking_relation, lemma_ranked_is_stable, lemma_ranked_mapped, ranked, ranked_origin,
    ranking_of, sort_ranked, stands_before, Ranked,
};
use crate::text::{
    chars_of, lemma_lex_asymmetric, lemma_lex_total, lemma_lex_transitive, lex_less, text_less,
    text_of_range,
};
use crate::time::{text_view, timestamp_text, timestamp_to_string};
use vstd::prelude::*;

verus! {

/// One chat session of a store.
#[derive(Debug, Clone)]
pub struct ChatSession {
    pub id: String,
    pub name: String,
    pub mode: String,
    pub created_at: Option<String>,
    pub updated_at: Option<String>,
    pub lines_added: i64,
    pub lines_removed: i64,
    pub files_changed: i64,
    /// The share of the context in use, as the record gives it.
    pub context_usage: JsonNumber,
    pub branch: String,
    pub is_archived: bool,
    pub subtitle: String,
}

/// The mathematical value of a `ChatSession`.
pub struct ChatSessionView {
    pub id: Seq<char>,
    pub name: Seq<char>,
    pub mode: Seq<char>,
    pub created_at: Option<Seq<char>>,
    pub updated_at: Option<Seq<char>>,
    pub lines_added: i64,
    pub lines_removed: i64,
    pub files_changed: i64,
    pub context_usage: JsonNumber,
    pub branch: Seq<char>,
    pub is_archived: bool,
    pub subtitle: Seq<char>,
}

impl View for ChatSession {
    type V = ChatSessionView;

    open spec fn view(&self) -> ChatSessionView {
        ChatSessionView {
            id: self.id@,
            name: self.name@,
            mode: self.mode@,
            created_at: text_view(self.created_at),
            updated_at: text_view(self.updated_at),
            lines_added: self.lines_added,
            lines_removed: self.lines_removed,
            files_changed: self.files_changed,
            context_usage: self.context_usage,
            branch: self.branch@,
            is_archived: self.is_archived,
            subtitle: self.subtitle@,
        }
    }
}

/// The values of a run of sessions.
pub open spec fn session_views(sessions: Seq<ChatSession>) -> Seq<ChatSessionView> {
    sessions.map_values(|s: ChatSession| s@)
}

/// The longest subtitle that is kept, in characters.
pub const SUBTITLE_LIMIT: usize = 100;

/// The first `limit` characters of a text; all of it where it is shorter.
pub open spec fn truncated(text: Seq<char>, limit: int) -> Seq<char> {
    if text.len() <= limit {
        text
    } else {
        text.take(limit)
    }
}

/// The timestamp text for the integer under `key`; absent where no integer
/// stands there or where it is no valid instant.
pub open spec fn time_at(record: JsonValue, key: Seq<char>) -> Option<Seq<char>> {
    match record.i64_at(key) {
        Some(ts) => timestamp_text(ts),
        None => None,
    }
}

/// The integer under `key`, or zero.
pub open spec fn count_at(record: JsonValue, key: Seq<char>) -> i64 {
    match record.i64_at(key) {
        Some(n) => n,
        None => 0,
    }
}

/// A record is canonical: its `type` is the text `head`.
pub open spec fn is_head(record: JsonValue) -> bool {
    record.text_at("type"@) == Some("head"@)
}

/// The session that a record describes, each missing or ill-typed member
/// taking its default.
pub open spec fn session_of(record: JsonValue) -> ChatSessionView {
    ChatSessionView {
        id: text_or(record.text_at("composerId"@), ""@),
        name: text_or(record.text_at("name"@), "Unnamed"@),
        mode: text_or(record.text_at("unifiedMode"@), "unknown"@),
        created_at: time_at(record, "createdAt"@),
        updated_at: time_at(record, "lastUpdatedAt"@),
        lines_added: count_at(record, "totalLinesAdded"@),
        lines_removed: count_at(record, "totalLinesRemoved"@),
        files_changed: count_at(record, "filesChangedCount"@),
        context_usage: match record.number_at("contextUsagePercent"@) {
            Some(n) => n,
            None => JsonNumber::PosInt(0),
        },
        branch: text_or(record.text_at("createdOnBranch"@), ""@),
        is_archived: match record.bool_at("isArchived"@) {
            Some(b) => b,
            None => false,
        },
        subtitle: truncated(text_or(record.text_at("subtitle"@), ""@), SUBTITLE_LIMIT as int),
    }
}

/// The records of a session list: the items of the array under
/// `allComposers`, none where no array stands there.
pub open spec fn composer_records(doc: JsonValue) -> Seq<JsonValue> {
    match doc.array_at("allComposers"@) {
        Some(items) => items,
        None => Seq::empty(),
    }
}

/// The sessions of the canonical records among `records`, in their order.
pub open spec fn head_sessions(records: Seq<JsonValue>) -> Seq<ChatSessionView>
    decreases records.len(),
{
    if records.len() == 0 {
        Seq::empty()
    } else if is_head(records.last()) {
        head_sessions(records.drop_last()).push(session_of(records.last()))
    } else {
        head_sessions(records.drop_last())
    }
}

/// `a` was updated later than `b`; an absent time is earlier than any other.
/// Times compare as texts.
pub open spec fn updated_later(a: ChatSessionView, b: ChatSessionView) -> bool {
    match (a.updated_at, b.updated_at) {
        (Some(p), Some(q)) => lex_less(q, p),
        (Some(_), None) => true,
        (None, _) => false,
    }
}

/// The ranking of sessions: the later update first.
pub open spec fn session_ranking() -> spec_fn(ChatSessionView, ChatSessionView) -> bool {
    |a: ChatSessionView, b: ChatSessionView| updated_later(a, b)
}

impl Ranked for ChatSession {
    open spec fn outranks(&self, other: &Self) -> bool {
        updated_later(self@, other@)
    }

    fn ranks_before(&self, other: &Self) -> (b: bool) {
        match (&self.updated_at, &other.updated_at) {
            (Some(p), Some(q)) => text_less(q.as_str(), p.as_str()),
            (Some(_), None) => true,
            (None, _) => false,
        }
    }
}

/// The sessions of a session list: those of its canonical records, the most
/// recently updated first, sessions with the same update time in the order
/// of their records.
pub open spec fn sessions_in(doc: JsonValue) -> Seq<ChatSessionView> {
    ranked(head_sessions(composer_records(doc)), session_ranking())
}

/// The sessions of a session list given as JSON text; none where the text is
/// not JSON.
pub open spec fn sessions_of_text(text: Seq<char>) -> Seq<ChatSessionView> {
    match json_parse(text) {
        Some(doc) => sessions_in(doc),
        None => Seq::empty(),
    }
}

/// Whether a record is canonical.
pub fn is_head_record(record: &Json) -> (b: bool)
    ensures
        b == is_head(record@),
{
    match record.text_at("type") {
        Some(tag) => crate::text::same_text(tag, "head"),
        None => false,
    }
}

fn time_field(record: &Json, key: &str) -> (r: Option<String>)
    ensures
        text_view(r) == time_at(record@, key@),
{
    match record.i64_at(key) {
        Some(ts) => timestamp_to_string(ts),
        None => None,
    }
}

/// The integer under `key` of a record, or zero.
pub fn count_field(record: &Json, key: &str) -> (r: i64)
    ensures
        r == count_at(record@, key@),
{
    match record.i64_at(key) {
        Some(n) => n,
        None => 0,
    }
}

fn truncate_text(text: &str, limit: usize) -> (r: String)
    ensures
        r@ == truncated(text@, limit as int),
{
    let chars = chars_of(text);
    if chars.len() <= limit {
        assert(chars@.subrange(0, chars@.len() as int) =~= chars@);
        text_of_range(&chars, 0, chars.len())
    } else {
        text_of_range(&chars, 0, limit)
    }
}

/// Decodes one record into a session.
pub fn decode_session(record: &Json) -> (s: ChatSession)
    ensures
        s@ == session_of(record@),
{
    let subtitle = record.text_or("subtitle", "");
    ChatSession {
        id: record.text_or("composerId", ""),
        name: record.text_or("name", "Unnamed"),
        mode: record.text_or("unifiedMode", "unknown"),
        created_at: time_field(record, "createdAt"),
        updated_at: time_field(record, "lastUpdatedAt"),
        lines_added: count_field(record, "totalLinesAdded"),
        lines_removed: count_field(record, "totalLinesRemoved"),
        files_changed: count_field(record, "filesChangedCount"),
        context_usage: match record.number_at("contextUsagePercent") {
            Some(n) => n,
            None => JsonNumber::PosInt(0),
        },
        branch: record.text_or("createdOnBranch", ""),
        is_archived: match record.bool_at("isArchived") {
            Some(b) => b,
            None => false,
        },
        subtitle: truncate_text(subtitle.as_str(), SUBTITLE_LIMIT),
    }
}

/// Decodes the canonical records of a session list, in their order.
pub fn decode_sessions(doc: &Json) -> (out: Vec<ChatSession>)
    ensures
        session_views(out@) == head_sessions(composer_records(doc@)),
{
    let mut out: Vec<ChatSession> = Vec::new();
    match doc.array_at("allComposers") {
        Some(items) => {
            let ghost records = values_of(items@);
            let mut i: usize = 0;
            assert(session_views(out@) =~= head_sessions(records.take(0)));
            while i < items.len()
                invariant
                    i <= items.len(),
                    records == values_of(items@),
                    session_views(out@) == head_sessions(records.take(i as int)),
                decreases items.len() - i,
            {
                let ghost before = out@;
                assert(records.take(i + 1).drop_last() =~= records.take(i as int));
                assert(records.take(i + 1).last() == items@[i as int]@);
                if is_head_record(&items[i]) {
                    out.push(decode_session(&items[i]));
                    assert(session_views(out@) =~= session_views(before).push(out@.last()@));
                }
                i += 1;
            }
            assert(records.take(items@.len() as int) =~= records);
        },
        None => {
            assert(session_views(out@) =~= Seq::<ChatSessionView>::empty());
        },
    }
    out
}

/// A run of sessions is in order: none stands before one that was updated
/// later, so that sessions without an update time stand last.
pub open spec fn in_update_order(sessions: Seq<ChatSessionView>) -> bool {
    forall|i: int, j: int|
        0 <= i < j < sessions.len() ==> !updated_later(#[trigger] sessions[j], #[trigger] sessions[i])
}

/// Puts sessions in order: the most recently updated first, sessions with
/// the same update time in the order given.
pub fn sort_sessions(sessions: Vec<ChatSession>) -> (out: Vec<ChatSession>)
    ensures
        session_views(out@) == ranked(session_views(sessions@), session_ranking()),
        in_update_order(session_views(out@)),
{
    let out = sort_ranked(sessions);
    proof {
        lemma_ranked_mapped(
            sessions@,
            |s: ChatSession| s@,
            ranking_of::<ChatSession>(),
            session_ranking(),
        );
        lemma_ranked_sessions_in_order(session_views(sessions@));
    }
    out
}

/// The sessions of a parsed session list, the most recently updated first.
pub fn sessions_from_document(doc: &Json) -> (out: Vec<ChatSession>)
    ensures
        session_views(out@) == sessions_in(doc@),
        in_update_order(session_views(out@)),
{
    sort_sessions(decode_sessions(doc))
}

/// Decodes the session list stored as JSON text. A text that is not JSON
/// holds no sessions.
pub fn parse_composer_data(json_str: &str) -> (out: Vec<ChatSession>)
    ensures
        session_views(out@) == sessions_of_text(json_str@),
        in_update_order(session_views(out@)),
{
    match Json::parse(json_str) {
        Some(doc) => sessions_from_document(&doc),
        None => {
            let out: Vec<ChatSession> = Vec::new();
            assert(session_views(out@) =~= Seq::<ChatSessionView>::empty());
            out
        },
    }
}

/// The ranking of sessions orders by update time: it never holds both ways,
/// and a session that outranks another outranks, or is outranked by, every
/// third.
pub proof fn lemma_session_ranking_orders()
    ensures
        is_ranking_relation(session_ranking()),
{
    assert forall|a: ChatSessionView, b: ChatSessionView| !(#[trigger] updated_later(a, b)
        && updated_later(b, a)) by {
        if a.updated_at is Some && b.updated_at is Some {
            lemma_lex_asymmetric(a.updated_at->0, b.updated_at->0);
        }
    }
    assert forall|a: ChatSessionView, b: ChatSessionView, c: ChatSessionView| #[trigger]
        updated_later(a, c) implies #[trigger] updated_later(a, b) || #[trigger] updated_later(
        b,
        c,
    ) by {
        if b.updated_at is Some && c.updated_at is Some {
            let x = a.updated_at->0;
            let y = b.updated_at->0;
            let z = c.updated_at->0;
            lemma_lex_total(y, x);
            if !lex_less(y, x) && !lex_less(z, y) {
                lemma_lex_total(z, y);
                if x != y && y != z {
                    lemma_lex_transitive(z, x, y);
                    lemma_lex_asymmetric(z, y);
                }
            }
        }
    }
    assert(is_ranking_relation(session_ranking()));
}

/// Every decoded session is the session of a canonical record, and there
/// is one for each such record.
pub proof fn lemma_head_sessions(records: Seq<JsonValue>)
    ensures
        head_sessions(records).len() == records.filter(|r: JsonValue| is_head(r)).len(),
        head_sessions(records).len() <= records.len(),
        forall|i: int|
            0 <= i < head_sessions(records).len() ==> exists|k: int|
                0 <= k < records.len() && is_head(records[k]) && (#[trigger] head_sessions(
                    records,
                )[i]) == session_of(records[k]),
    decreases records.len(),
{
    reveal(Seq::filter);
    if records.len() > 0 {
        let front = records.drop_last();
        lemma_head_sessions(front);
        assert forall|i: int| 0 <= i < head_sessions(records).len() implies exists|k: int|
            0 <= k < records.len() && is_head(records[k]) && (#[trigger] head_sessions(records)[i])
                == session_of(records[k]) by {
            if i < head_sessions(front).len() {
                let k = choose|k: int|
                    0 <= k < front.len() && is_head(front[k]) && head_sessions(front)[i]
                        == session_of(front[k]);
                assert(records[k] == front[k]);
            } else {
                assert(is_head(records[records.len() - 1]));
            }
        }
    }
}

/// The decoder yields no more sessions than the session list has canonical
/// records, and each session it yields is that of a canonical record: a
/// record of any other kind never shows.
pub proof fn lemma_only_heads_are_decoded(doc: JsonValue)
    ensures
        sessions_in(doc).len() <= composer_records(doc).filter(|r: JsonValue| is_head(r)).len(),
        forall|i: int|
            0 <= i < sessions_in(doc).len() ==> exists|k: int|
                0 <= k < composer_records(doc).len() && is_head(composer_records(doc)[k]) && (
                #[trigger] sessions_in(doc)[i]) == session_of(composer_records(doc)[k]),
{
    let records = composer_records(doc);
    let decoded = head_sessions(records);
    lemma_head_sessions(records);
    lemma_session_ranking_orders();
    lemma_ranked_is_stable(decoded, session_ranking());
    let origin = ranked_origin(decoded, session_ranking());
    assert forall|i: int| 0 <= i < sessions_in(doc).len() implies exists|k: int|
        0 <= k < records.len() && is_head(records[k]) && (#[trigger] sessions_in(doc)[i])
            == session_of(records[k]) by {
        assert(sessions_in(doc)[i] == decoded[origin[i]]);
    }
}

/// The order of the decoded sessions is stable. With `origin[i]` the place
/// among the canonical records of the session that comes out at `i`: no
/// session comes before one that was updated later; sessions with the same
/// update time, those without one among them, come out in the order of
/// their records; and a session without an update time never comes before
/// one that has one.
pub proof fn lemma_session_order_is_stable(doc: JsonValue)
    ensures
        ({
            let input = head_sessions(composer_records(doc));
            let output = sessions_in(doc);
            let origin = ranked_origin(input, session_ranking());
            &&& output.len() == input.len()
            &&& origin.len() == input.len()
            &&& forall|i: int|
                0 <= i < output.len() ==> 0 <= #[trigger] origin[i] < input.len() && output[i]
                    == input[origin[i]]
            &&& forall|i: int, j: int|
                0 <= i < j < output.len() ==> !updated_later(
                    #[trigger] output[j],
                    #[trigger] output[i],
                )
            &&& forall|i: int, j: int|
                0 <= i < j < output.len() && output[i].updated_at == output[j].updated_at
                    ==> #[trigger] origin[i] < #[trigger] origin[j]
            &&& forall|i: int, j: int|
                0 <= i < j < output.len() ==> !((#[trigger] output[i]).updated_at is None && (
                #[trigger] output[j]).updated_at is Some)
        }),
{
    let input = head_sessions(composer_records(doc));
    let output = sessions_in(doc);
    let origin = ranked_origin(input, session_ranking());
    lemma_session_ranking_orders();
    lemma_ranked_is_stable(input, session_ranking());
    assert forall|i: int, j: int| 0 <= i < j < output.len() implies !updated_later(
        #[trigger] output[j],
        #[trigger] output[i],
    ) && !(output[i].updated_at is None && output[j].updated_at is Some) && (output[i].updated_at
        == output[j].updated_at ==> origin[i] < origin[j]) by {
        assert(stands_before(input, origin[i], origin[j], session_ranking()));
        assert(output[i] == input[origin[i]] && output[j] == input[origin[j]]);
        lemma_session_ranking_irreflexive(output[i], output[j]);
    }
}

proof fn lemma_session_ranking_irreflexive(a: ChatSessionView, b: ChatSessionView)
    ensures
        !(updated_later(a, b) && updated_later(b, a)),
        a.updated_at == b.updated_at ==> !updated_later(a, b),
{
    if a.updated_at is Some && b.updated_at is Some {
        lemma_lex_asymmetric(a.updated_at->0, b.updated_at->0);
    }
}

/// Sessions that were ranked are in order.
pub proof fn lemma_ranked_sessions_in_order(sessions: Seq<ChatSessionView>)
    ensures
        in_update_order(ranked(sessions, session_ranking())),
{
    let output = ranked(sessions, session_ranking());
    let origin = ranked_origin(sessions, session_ranking());
    lemma_session_ranking_orders();
    lemma_ranked_is_stable(sessions, session_ranking());
    assert forall|i: int, j: int| 0 <= i < j < output.len() implies !updated_later(
        #[trigger] output[j],
        #[trigger] output[i],
    ) by {
        assert(stands_before(sessions, origin[i], origin[j], session_ranking()));
        assert(output[i] == sessions[origin[i]] && output[j] == sessions[origin[j]]);
        lemma_session_ranking_irreflexive(output[i], output[j]);
    }
}

/// The sessions of a session list given as text are in order.
pub proof fn lemma_sessions_of_text_in_order(text: Seq<char>)
    ensures
        in_update_order(sessions_of_text(text)),
{
    match json_parse(text) {
        Some(doc) => {
            lemma_ranked_sessions_in_order(head_sessions(composer_records(doc)));
        },
        None => {},
    }
}

} // verus!
