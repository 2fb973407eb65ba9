//! The registry of workspaces: what a workspace's descriptor says about the
//! project, or projects, that it belongs to.

use crate::json::{json_parse, values_of, Json, JsonValue};
use crate::text::{
    chars_of, decimal_value, is_digits, matches_at, occurs_at,
    parse_digits, replace_all, replace_chars, same_text, starts_with, text_of, text_of_range,
    value_of_digit, digit_value, lists_text, texts_of,
};
use crate::time::{str_view, text_view, timestamp_text, timestamp_to_string};
use vstd::prelude::*;

verus! {

/// What was read of one workspace: the name of its storage directory and the
/// contents of the files in it, each absent where it could not be read.
#[derive(Debug, Clone)]
pub struct WorkspaceSnapshot {
    /// The name of the storage directory.
    pub id: String,
    /// The text of the descriptor file.
    pub descriptor: Option<String>,
    /// The text of the multi-root workspace file that the descriptor names.
    pub workspace_file: Option<String>,
    /// Whether the directory holds a store.
    pub has_store: bool,
    /// The session list kept in the store.
    pub session_list: Option<String>,
}

/// The mathematical value of a `WorkspaceSnapshot`.
pub struct WorkspaceSnapshotView {
    pub id: Seq<char>,
    pub descriptor: Option<Seq<char>>,
    pub workspace_file: Option<Seq<char>>,
    pub has_store: bool,
    pub session_list: Option<Seq<char>>,
}

impl View for WorkspaceSnapshot {
    type V = WorkspaceSnapshotView;

    open spec fn view(&self) -> WorkspaceSnapshotView {
        WorkspaceSnapshotView {
            id: self.id@,
            descriptor: text_view(self.descriptor),
            workspace_file: text_view(self.workspace_file),
            has_store: self.has_store,
            session_list: text_view(self.session_list),
        }
    }
}

/// The values of a run of snapshots.
pub open spec fn snapshot_views(snapshots: Seq<WorkspaceSnapshot>) -> Seq<WorkspaceSnapshotView> {
    snapshots.map_values(|s: WorkspaceSnapshot| s@)
}

/// What a descriptor refers to, each reference as a plain path.
#[derive(Debug, Clone)]
pub struct Descriptor {
    /// The folder of a single-project workspace.
    pub folder: Option<String>,
    /// The file of a multi-root workspace.
    pub workspace: Option<String>,
}

/// A location without its `file://` scheme.
pub open spec fn without_scheme(uri: Seq<char>) -> Seq<char> {
    if starts_with(uri, "file://"@) {
        uri.skip("file://"@.len() as int)
    } else {
        uri
    }
}

/// The path that a location stands for: the scheme dropped from its front
/// and every `%20` read as a space.
pub open spec fn plain_path(uri: Seq<char>) -> Seq<char> {
    replace_all(without_scheme(uri), "%20"@, " "@)
}

/// The path under `key` of a descriptor, where a text stands there.
pub open spec fn path_at(doc: JsonValue, key: Seq<char>) -> Option<Seq<char>> {
    match doc.text_at(key) {
        Some(uri) => Some(plain_path(uri)),
        None => None,
    }
}

/// The folder that a descriptor text names.
pub open spec fn descriptor_folder(descriptor: Option<Seq<char>>) -> Option<Seq<char>> {
    match descriptor {
        Some(text) => match json_parse(text) {
            Some(doc) => path_at(doc, "folder"@),
            None => None,
        },
        None => None,
    }
}

/// The multi-root workspace file that a descriptor text names.
pub open spec fn descriptor_workspace(descriptor: Option<Seq<char>>) -> Option<Seq<char>> {
    match descriptor {
        Some(text) => match json_parse(text) {
            Some(doc) => path_at(doc, "workspace"@),
            None => None,
        },
        None => None,
    }
}

/// Computes `plain_path`.
pub fn normalize_uri(uri: &str) -> (path: String)
    ensures
        path@ == plain_path(uri@),
{
    let chars = chars_of(uri);
    let scheme = chars_of("file://");
    let percent = chars_of("%20");
    let space = chars_of(" ");
    let rest = if matches_at(&chars, 0, &scheme) {
        let mut rest: Vec<char> = Vec::new();
        crate::text::push_range(&mut rest, &chars, scheme.len(), chars.len());
        assert(rest@ =~= chars@.skip(scheme@.len() as int));
        rest
    } else {
        chars
    };
    let replaced = replace_chars(&rest, &percent, &space);
    text_of(&replaced)
}

fn path_field(doc: &Json, key: &str) -> (r: Option<String>)
    ensures
        text_view(r) == path_at(doc@, key@),
{
    match doc.text_at(key) {
        Some(uri) => Some(normalize_uri(uri)),
        None => None,
    }
}

/// Reads a descriptor: nothing where the text is not JSON.
pub fn read_descriptor(text: &str) -> (r: Option<Descriptor>)
    ensures
        match r {
            Some(d) => json_parse(text@) is Some && text_view(d.folder) == descriptor_folder(
                Some(text@),
            ) && text_view(d.workspace) == descriptor_workspace(Some(text@)),
            None => json_parse(text@) is None,
        },
{
    match Json::parse(text) {
        Some(doc) => Some(
            Descriptor { folder: path_field(&doc, "folder"), workspace: path_field(&doc, "workspace") },
        ),
        None => None,
    }
}

/// The multi-root workspace file that a descriptor names, for the caller to
/// read it.
pub fn multi_root_file(descriptor: &str) -> (r: Option<String>)
    ensures
        text_view(r) == descriptor_workspace(Some(descriptor@)),
{
    match read_descriptor(descriptor) {
        Some(d) => d.workspace,
        None => None,
    }
}

/// The path that one entry of a folder list names: its `path` where there is
/// such a member, else its `uri`, where that is a text.
pub open spec fn folder_path(entry: JsonValue) -> Option<Seq<char>> {
    let member = match entry.get("path"@) {
        Some(v) => Some(v),
        None => entry.get("uri"@),
    };
    match member {
        Some(v) => match v.as_text() {
            Some(uri) => Some(plain_path(uri)),
            None => None,
        },
        None => None,
    }
}

/// The paths that the entries of a folder list name, in their order.
pub open spec fn folder_paths(entries: Seq<JsonValue>) -> Seq<Seq<char>>
    decreases entries.len(),
{
    if entries.len() == 0 {
        Seq::empty()
    } else {
        match folder_path(entries.last()) {
            Some(p) => folder_paths(entries.drop_last()).push(p),
            None => folder_paths(entries.drop_last()),
        }
    }
}

/// The project paths of a multi-root workspace file: those of the entries
/// of its `folders`; none where the text is absent, is not JSON or holds no
/// such array.
pub open spec fn workspace_projects(file: Option<Seq<char>>) -> Seq<Seq<char>> {
    match file {
        Some(text) => match json_parse(text) {
            Some(doc) => match doc.array_at("folders"@) {
                Some(entries) => folder_paths(entries),
                None => Seq::empty(),
            },
            None => Seq::empty(),
        },
        None => Seq::empty(),
    }
}

fn folder_reference(entry: &Json) -> (r: Option<String>)
    ensures
        text_view(r) == folder_path(entry@),
{
    let member = match entry.get("path") {
        Some(v) => Some(v),
        None => entry.get("uri"),
    };
    match member {
        Some(v) => match v.as_str() {
            Some(uri) => Some(normalize_uri(uri)),
            None => None,
        },
        None => None,
    }
}

/// Reads the project paths out of the text of a multi-root workspace file.
pub fn get_workspace_projects(file: Option<&str>) -> (paths: Vec<String>)
    ensures
        texts_of(paths@) == workspace_projects(str_view(file)),
{
    let mut paths: Vec<String> = Vec::new();
    assert(texts_of(paths@) =~= Seq::<Seq<char>>::empty());
    let text = match file {
        Some(t) => t,
        None => {
            return paths;
        },
    };
    let doc = match Json::parse(text) {
        Some(d) => d,
        None => {
            return paths;
        },
    };
    match doc.array_at("folders") {
        Some(entries) => {
            let ghost values = values_of(entries@);
            let mut i: usize = 0;
            assert(values.take(0) =~= Seq::<JsonValue>::empty());
            while i < entries.len()
                invariant
                    i <= entries.len(),
                    values == values_of(entries@),
                    texts_of(paths@) == folder_paths(values.take(i as int)),
                decreases entries.len() - i,
            {
                let ghost before = paths@;
                assert(values.take(i + 1).drop_last() =~= values.take(i as int));
                assert(values.take(i + 1).last() == entries@[i as int]@);
                match folder_reference(&entries[i]) {
                    Some(p) => {
                        paths.push(p);
                        assert(texts_of(paths@) =~= texts_of(before).push(p@));
                    },
                    None => {},
                }
                i += 1;
            }
            assert(values.take(entries@.len() as int) =~= values);
        },
        None => {},
    }
    paths
}

/// A segment of a path that can be a creation time: ten digits or more.
pub open spec fn is_time_token(segment: Seq<char>) -> bool {
    segment.len() >= 10 && is_digits(segment)
}

/// The position of the first `/` of `path` at or after `from`; the length
/// of `path` where there is none.
pub open spec fn segment_end(path: Seq<char>, from: int) -> int
    decreases path.len() - from,
{
    if from >= path.len() {
        path.len() as int
    } else if path[from] == '/' {
        from
    } else {
        segment_end(path, from + 1)
    }
}

/// The first segment of `path`, among those that begin at `from` or later,
/// that can be a creation time. Segments are what `/` separates.
pub open spec fn time_token(path: Seq<char>, from: int) -> Option<Seq<char>>
    decreases path.len() - from,
{
    let end = segment_end(path, from);
    if from < 0 || from > path.len() || end < from {
        None
    } else if is_time_token(path.subrange(from, end)) {
        Some(path.subrange(from, end))
    } else if end >= path.len() {
        None
    } else {
        time_token(path, end + 1)
    }
}

/// The creation time that the path of a multi-root workspace file carries:
/// its first segment of ten digits or more, read as milliseconds and
/// written as a timestamp; empty where there is no such segment or it is no
/// valid instant.
pub open spec fn creation_time(path: Seq<char>) -> Seq<char> {
    match time_token(path, 0) {
        Some(token) => if decimal_value(token) <= i64::MAX {
            match timestamp_text(decimal_value(token) as i64) {
                Some(t) => t,
                None => Seq::empty(),
            }
        } else {
            Seq::empty()
        },
        None => Seq::empty(),
    }
}

fn find_time_token(path: &Vec<char>) -> (r: Option<(usize, usize)>)
    ensures
        match r {
            Some((a, b)) => a <= b <= path.len() && time_token(path@, 0) == Some(
                path@.subrange(a as int, b as int),
            ) && is_time_token(path@.subrange(a as int, b as int)),
            None => time_token(path@, 0) is None,
        },
{
    let mut start: usize = 0;
    loop
        invariant
            start <= path.len(),
            time_token(path@, 0) == time_token(path@, start as int),
        decreases path.len() - start,
    {
        let mut end: usize = start;
        let mut all_digits = true;
        assert(path@.subrange(start as int, end as int) =~= Seq::<char>::empty());
        while end < path.len() && path[end] != '/'
            invariant
                start <= end <= path.len(),
                segment_end(path@, start as int) == segment_end(path@, end as int),
                all_digits == is_digits(path@.subrange(start as int, end as int)),
            decreases path.len() - end,
        {
            let ghost before = path@.subrange(start as int, end as int);
            let ghost after = path@.subrange(start as int, end + 1);
            assert(after =~= before.push(path@[end as int]));
            assert(forall|k: int| 0 <= k < before.len() ==> before[k] == after[k]);
            if value_of_digit(path[end]).is_none() {
                assert(digit_value(after[end - start]) is None);
                all_digits = false;
            } else {
                assert(is_digits(before) ==> is_digits(after)) by {
                    if is_digits(before) {
                        assert forall|k: int| 0 <= k < after.len() implies digit_value(
                            #[trigger] after[k],
                        ) is Some by {
                            if k < before.len() {
                                assert(after[k] == before[k]);
                            }
                        }
                    }
                }
                assert(!is_digits(before) ==> !is_digits(after)) by {
                    if !is_digits(before) {
                        let k = choose|k: int|
                            0 <= k < before.len() && !(digit_value(#[trigger] before[k]) is Some);
                        assert(after[k] == before[k]);
                    }
                }
            }
            end += 1;
        }
        assert(segment_end(path@, start as int) == end);
        if all_digits && end - start >= 10 {
            return Some((start, end));
        }
        if end >= path.len() {
            return None;
        }
        start = end + 1;
    }
}

/// Computes `creation_time`.
pub fn creation_time_of(path: &str) -> (r: String)
    ensures
        r@ == creation_time(path@),
{
    let chars = chars_of(path);
    match find_time_token(&chars) {
        Some((a, b)) => match parse_digits(&chars, a, b) {
            Some(ts) => match timestamp_to_string(ts) {
                Some(t) => t,
                None => String::new(),
            },
            None => String::new(),
        },
        None => String::new(),
    }
}

/// The store of a workspace serves a project: the workspace has a store and
/// its descriptor names the project as its folder, or names a multi-root
/// workspace file whose folder list holds the project.
pub open spec fn serves_project(snapshot: WorkspaceSnapshotView, project_path: Seq<char>) -> bool {
    &&& snapshot.has_store
    &&& {
        ||| descriptor_folder(snapshot.descriptor) == Some(project_path)
        ||| (descriptor_workspace(snapshot.descriptor) is Some && workspace_projects(
            snapshot.workspace_file,
        ).contains(project_path))
    }
}

/// Decides `serves_project`.
pub fn workspace_serves(snapshot: &WorkspaceSnapshot, project_path: &str) -> (r: bool)
    ensures
        r == serves_project(snapshot@, project_path@),
{
    if !snapshot.has_store {
        return false;
    }
    let descriptor = match &snapshot.descriptor {
        Some(text) => match read_descriptor(text.as_str()) {
            Some(d) => d,
            None => {
                return false;
            },
        },
        None => {
            return false;
        },
    };
    match &descriptor.folder {
        Some(folder) => {
            if same_text(folder.as_str(), project_path) {
                return true;
            }
        },
        None => {},
    }
    match &descriptor.workspace {
        Some(_) => {
            let file: Option<&str> = match &snapshot.workspace_file {
                Some(t) => Some(t.as_str()),
                None => None,
            };
            let projects = get_workspace_projects(file);
            lists_text(&projects, project_path)
        },
        None => false,
    }
}

/// Finds the workspace whose store serves a project: the position of the
/// first such snapshot, or nothing where there is none.
pub fn find_workspace_db_by_project(project_path: &str, snapshots: &Vec<WorkspaceSnapshot>) -> (r:
    Option<usize>)
    ensures
        match r {
            Some(i) => i < snapshots.len() && serves_project(snapshots@[i as int]@, project_path@)
                && forall|k: int| 0 <= k < i ==> !serves_project(snapshots@[k]@, project_path@),
            None => forall|k: int|
                0 <= k < snapshots.len() ==> !serves_project(snapshots@[k]@, project_path@),
        },
{
    let mut i: usize = 0;
    while i < snapshots.len()
        invariant
            i <= snapshots.len(),
            forall|k: int| 0 <= k < i ==> !serves_project(snapshots@[k]@, project_path@),
        decreases snapshots.len() - i,
    {
        if workspace_serves(&snapshots[i], project_path) {
            return Some(i);
        }
        i += 1;
    }
    None
}

} // verus!
