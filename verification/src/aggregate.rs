//! Statistics by project and by workspace, and the overview over all of them.

use crate::order::{
    is_ranking_relation, lemma_ranked_is_stable, lemma_ranked_mapped, ranked, ranked_origin,
    ranking_of, sort_ranked, stands_before, Ranked,
};
use crate::order::lemma_ranked_len;
use crate::session::{
    in_update_order, lemma_ranked_sessions_in_order, lemma_sessions_of_text_in_order,
    parse_composer_data, session_ranking, session_views, sessions_of_text, sort_sessions,
    ChatSession, ChatSessionView,
};
use crate::tally::{clamp, clamp_i64, count, lemma_sum_take, sum_of};
use crate::text::{
    chars_of, find_last_segment, last_segment, same_text, text_of_range, texts_of,
};
use crate::workspace::{
    creation_time, creation_time_of, descriptor_folder, descriptor_workspace,
    get_workspace_projects, read_descriptor, snapshot_views, workspace_projects,
    Descriptor, WorkspaceSnapshot, WorkspaceSnapshotView,
};
use crate::storage::{get_storage_info, size_text, StorageInfo, StorageSizes};
use crate::store::{database_stats_of, get_database_stats, DatabaseStats, StoreAnswers};
use vstd::prelude::*;

verus! {

/// What the sessions of one project add up to. A project is the folder
/// that one or more single-project workspaces name.
#[derive(Debug, Clone)]
pub struct ProjectStats {
    pub name: String,
    pub path: String,
    pub chat_count: i64,
    pub lines_added: i64,
    pub lines_removed: i64,
    pub files_changed: i64,
    pub chats: Vec<ChatSession>,
}

/// The mathematical value of a `ProjectStats`.
pub struct ProjectStatsView {
    pub name: Seq<char>,
    pub path: Seq<char>,
    pub chat_count: i64,
    pub lines_added: i64,
    pub lines_removed: i64,
    pub files_changed: i64,
    pub chats: Seq<ChatSessionView>,
}

impl View for ProjectStats {
    type V = ProjectStatsView;

    open spec fn view(&self) -> ProjectStatsView {
        ProjectStatsView {
            name: self.name@,
            path: self.path@,
            chat_count: self.chat_count,
            lines_added: self.lines_added,
            lines_removed: self.lines_removed,
            files_changed: self.files_changed,
            chats: session_views(self.chats@),
        }
    }
}

/// What the sessions of one workspace add up to.
#[derive(Debug, Clone)]
pub struct WorkspaceInfo {
    pub id: String,
    pub created_at: String,
    pub projects: Vec<String>,
    pub chat_count: i64,
    pub lines_added: i64,
    pub lines_removed: i64,
    pub files_changed: i64,
    pub recent_chats: Vec<ChatSession>,
    pub is_multi_project: bool,
}

/// The mathematical value of a `WorkspaceInfo`.
pub struct WorkspaceInfoView {
    pub id: Seq<char>,
    pub created_at: Seq<char>,
    pub projects: Seq<Seq<char>>,
    pub chat_count: i64,
    pub lines_added: i64,
    pub lines_removed: i64,
    pub files_changed: i64,
    pub recent_chats: Seq<ChatSessionView>,
    pub is_multi_project: bool,
}

impl View for WorkspaceInfo {
    type V = WorkspaceInfoView;

    open spec fn view(&self) -> WorkspaceInfoView {
        WorkspaceInfoView {
            id: self.id@,
            created_at: self.created_at@,
            projects: texts_of(self.projects@),
            chat_count: self.chat_count,
            lines_added: self.lines_added,
            lines_removed: self.lines_removed,
            files_changed: self.files_changed,
            recent_chats: session_views(self.recent_chats@),
            is_multi_project: self.is_multi_project,
        }
    }
}

/// The totals over all projects.
#[derive(Debug, Clone, Copy, PartialEq, Eq, Structural)]
pub struct OverviewStats {
    pub total_projects: i64,
    pub total_chats: i64,
    pub total_lines_added: i64,
    pub total_lines_removed: i64,
    pub net_lines: i64,
    pub total_files_changed: i64,
    pub agent_mode_count: i64,
    pub chat_mode_count: i64,
}

/// The values of a run of project statistics.
pub open spec fn project_views(projects: Seq<ProjectStats>) -> Seq<ProjectStatsView> {
    projects.map_values(|p: ProjectStats| p@)
}

/// The values of a run of workspace statistics.
pub open spec fn workspace_views(infos: Seq<WorkspaceInfo>) -> Seq<WorkspaceInfoView> {
    infos.map_values(|w: WorkspaceInfo| w@)
}

/// The lines that a session added.
pub open spec fn added() -> spec_fn(ChatSessionView) -> int {
    |s: ChatSessionView| s.lines_added as int
}

/// The lines that a session removed.
pub open spec fn removed() -> spec_fn(ChatSessionView) -> int {
    |s: ChatSessionView| s.lines_removed as int
}

/// The files that a session changed.
pub open spec fn changed() -> spec_fn(ChatSessionView) -> int {
    |s: ChatSessionView| s.files_changed as int
}

/// The sessions that a workspace's store holds; none without a store or a
/// readable session list.
pub open spec fn stored_sessions(snapshot: WorkspaceSnapshotView) -> Seq<ChatSessionView> {
    if snapshot.has_store {
        match snapshot.session_list {
            Some(text) => sessions_of_text(text),
            None => Seq::empty(),
        }
    } else {
        Seq::empty()
    }
}

/// The statistics of one workspace. A descriptor that names a folder makes
/// it a single-project workspace; one that names a workspace file instead
/// makes it a multi-project workspace, with the creation time that the
/// file's path carries and the projects that the file lists. The sums are
/// exact wherever a counter can hold them, and else the nearest value it can.
pub open spec fn workspace_info_of(snapshot: WorkspaceSnapshotView) -> WorkspaceInfoView {
    let sessions = stored_sessions(snapshot);
    let folder = descriptor_folder(snapshot.descriptor);
    let file = descriptor_workspace(snapshot.descriptor);
    WorkspaceInfoView {
        id: snapshot.id,
        created_at: match (folder, file) {
            (None, Some(path)) => creation_time(path),
            _ => Seq::empty(),
        },
        projects: match (folder, file) {
            (Some(path), _) => seq![path],
            (None, Some(_)) => workspace_projects(snapshot.workspace_file),
            (None, None) => Seq::empty(),
        },
        chat_count: clamp_i64(sessions.len() as int),
        lines_added: clamp_i64(sum_of(sessions, added())),
        lines_removed: clamp_i64(sum_of(sessions, removed())),
        files_changed: clamp_i64(sum_of(sessions, changed())),
        recent_chats: sessions,
        is_multi_project: folder is None && file is Some,
    }
}

/// The statistics of the workspaces that hold a session, in the order of
/// the snapshots.
pub open spec fn reported_workspaces(snapshots: Seq<WorkspaceSnapshotView>) -> Seq<
    WorkspaceInfoView,
>
    decreases snapshots.len(),
{
    if snapshots.len() == 0 {
        Seq::empty()
    } else if stored_sessions(snapshots.last()).len() > 0 {
        reported_workspaces(snapshots.drop_last()).push(workspace_info_of(snapshots.last()))
    } else {
        reported_workspaces(snapshots.drop_last())
    }
}

/// The ranking of workspaces: more lines added first.
pub open spec fn workspace_ranking() -> spec_fn(WorkspaceInfoView, WorkspaceInfoView) -> bool {
    |a: WorkspaceInfoView, b: WorkspaceInfoView| a.lines_added > b.lines_added
}

/// The report on workspaces: every workspace with a session, the one with
/// the most lines added first, equals in the order of the snapshots.
pub open spec fn workspace_report(snapshots: Seq<WorkspaceSnapshotView>) -> Seq<WorkspaceInfoView> {
    ranked(reported_workspaces(snapshots), workspace_ranking())
}

impl Ranked for WorkspaceInfo {
    open spec fn outranks(&self, other: &Self) -> bool {
        self.lines_added > other.lines_added
    }

    fn ranks_before(&self, other: &Self) -> (b: bool) {
        self.lines_added > other.lines_added
    }
}

/// The three sums over a run of sessions.
pub fn session_totals(sessions: &Vec<ChatSession>) -> (totals: (i64, i64, i64))
    ensures
        totals.0 == clamp_i64(sum_of(session_views(sessions@), added())),
        totals.1 == clamp_i64(sum_of(session_views(sessions@), removed())),
        totals.2 == clamp_i64(sum_of(session_views(sessions@), changed())),
{
    let ghost views = session_views(sessions@);
    let mut a: i128 = 0;
    let mut r: i128 = 0;
    let mut c: i128 = 0;
    let mut i: usize = 0;
    while i < sessions.len()
        invariant
            i <= sessions.len(),
            views == session_views(sessions@),
            a == sum_of(views.take(i as int), added()),
            r == sum_of(views.take(i as int), removed()),
            c == sum_of(views.take(i as int), changed()),
            -(i as int) * 0x8000_0000_0000_0000 <= a <= (i as int) * 0x8000_0000_0000_0000,
            -(i as int) * 0x8000_0000_0000_0000 <= r <= (i as int) * 0x8000_0000_0000_0000,
            -(i as int) * 0x8000_0000_0000_0000 <= c <= (i as int) * 0x8000_0000_0000_0000,
        decreases sessions.len() - i,
    {
        proof {
            lemma_sum_take(views, i as int, added());
            lemma_sum_take(views, i as int, removed());
            lemma_sum_take(views, i as int, changed());
            assert(views[i as int] == sessions@[i as int]@);
        }
        a = a + sessions[i].lines_added as i128;
        r = r + sessions[i].lines_removed as i128;
        c = c + sessions[i].files_changed as i128;
        i += 1;
    }
    assert(views.take(sessions@.len() as int) =~= views);
    (clamp(a), clamp(r), clamp(c))
}

/// The sessions that a workspace's store holds.
pub fn sessions_of_snapshot(snapshot: &WorkspaceSnapshot) -> (sessions: Vec<ChatSession>)
    ensures
        session_views(sessions@) == stored_sessions(snapshot@),
{
    if snapshot.has_store {
        match &snapshot.session_list {
            Some(text) => {
                return parse_composer_data(text.as_str());
            },
            None => {},
        }
    }
    let sessions: Vec<ChatSession> = Vec::new();
    assert(session_views(sessions@) =~= Seq::<ChatSessionView>::empty());
    sessions
}

fn descriptor_of(snapshot: &WorkspaceSnapshot) -> (d: Descriptor)
    ensures
        crate::time::text_view(d.folder) == descriptor_folder(snapshot@.descriptor),
        crate::time::text_view(d.workspace) == descriptor_workspace(snapshot@.descriptor),
{
    match &snapshot.descriptor {
        Some(text) => match read_descriptor(text.as_str()) {
            Some(d) => d,
            None => Descriptor { folder: None, workspace: None },
        },
        None => Descriptor { folder: None, workspace: None },
    }
}

/// Computes the statistics of one workspace.
pub fn workspace_info(snapshot: &WorkspaceSnapshot) -> (info: WorkspaceInfo)
    ensures
        info@ == workspace_info_of(snapshot@),
{
    let sessions = sessions_of_snapshot(snapshot);
    let totals = session_totals(&sessions);
    let descriptor = descriptor_of(snapshot);
    let mut created_at = String::new();
    let mut projects: Vec<String> = Vec::new();
    let mut is_multi_project = false;
    match descriptor.folder {
        Some(path) => {
            projects.push(path);
            assert(texts_of(projects@) =~= seq![path@]);
        },
        None => match descriptor.workspace {
            Some(path) => {
                is_multi_project = true;
                created_at = creation_time_of(path.as_str());
                let file: Option<&str> = match &snapshot.workspace_file {
                    Some(t) => Some(t.as_str()),
                    None => None,
                };
                projects = get_workspace_projects(file);
            },
            None => {
                assert(texts_of(projects@) =~= Seq::<Seq<char>>::empty());
            },
        },
    }
    WorkspaceInfo {
        id: snapshot.id.clone(),
        created_at,
        projects,
        chat_count: count(sessions.len()),
        lines_added: totals.0,
        lines_removed: totals.1,
        files_changed: totals.2,
        recent_chats: sessions,
        is_multi_project,
    }
}

/// Reports on the workspaces that hold at least one session.
pub fn get_workspaces(snapshots: &Vec<WorkspaceSnapshot>) -> (out: Vec<WorkspaceInfo>)
    ensures
        workspace_views(out@) == workspace_report(snapshot_views(snapshots@)),
        forall|i: int|
            0 <= i < out@.len() ==> (#[trigger] out@[i]).recent_chats@.len() > 0
                && out@[i].chat_count > 0 && in_update_order(session_views(out@[i].recent_chats@)),
{
    let ghost views = snapshot_views(snapshots@);
    let mut found: Vec<WorkspaceInfo> = Vec::new();
    let mut i: usize = 0;
    assert(workspace_views(found@) =~= reported_workspaces(views.take(0)));
    while i < snapshots.len()
        invariant
            i <= snapshots.len(),
            views == snapshot_views(snapshots@),
            workspace_views(found@) == reported_workspaces(views.take(i as int)),
        decreases snapshots.len() - i,
    {
        let ghost before = found@;
        assert(views.take(i + 1).drop_last() =~= views.take(i as int));
        assert(views.take(i + 1).last() == snapshots@[i as int]@);
        let info = workspace_info(&snapshots[i]);
        if info.recent_chats.len() > 0 {
            found.push(info);
            assert(workspace_views(found@) =~= workspace_views(before).push(info@));
        }
        i += 1;
    }
    assert(views.take(snapshots@.len() as int) =~= views);
    let out = sort_ranked(found);
    proof {
        lemma_ranked_mapped(
            found@,
            |w: WorkspaceInfo| w@,
            ranking_of::<WorkspaceInfo>(),
            workspace_ranking(),
        );
        lemma_reports_hold_sessions(views);
        lemma_reported_sessions_in_order(views);
        assert forall|i: int| 0 <= i < out@.len() implies (#[trigger] out@[i]).recent_chats@.len()
            > 0 && out@[i].chat_count > 0 && in_update_order(
            session_views(out@[i].recent_chats@),
        ) by {
            assert(workspace_views(out@)[i] == out@[i]@);
            assert(workspace_report(views)[i].recent_chats.len() > 0);
            assert(out@[i]@.recent_chats.len() == out@[i].recent_chats@.len());
        }
    }
    out
}

/// The project that a workspace belongs to: the folder that its descriptor
/// names, where that is not empty.
pub open spec fn snapshot_project(snapshot: WorkspaceSnapshotView) -> Option<Seq<char>> {
    match descriptor_folder(snapshot.descriptor) {
        Some(path) => if path.len() > 0 {
            Some(path)
        } else {
            None
        },
        None => None,
    }
}

/// The statistics of the project at `path` with the sessions `chats`. Its
/// name is what follows the last `/` of the path.
pub open spec fn project_of(path: Seq<char>, chats: Seq<ChatSessionView>) -> ProjectStatsView {
    ProjectStatsView {
        name: last_segment(path, '/'),
        path,
        chat_count: clamp_i64(chats.len() as int),
        lines_added: clamp_i64(sum_of(chats, added())),
        lines_removed: clamp_i64(sum_of(chats, removed())),
        files_changed: clamp_i64(sum_of(chats, changed())),
        chats,
    }
}

/// The position of the first project at `path`.
pub open spec fn project_index(projects: Seq<ProjectStatsView>, path: Seq<char>) -> Option<int>
    decreases projects.len(),
{
    if projects.len() == 0 {
        None
    } else if projects[0].path == path {
        Some(0)
    } else {
        match project_index(projects.skip(1), path) {
            Some(k) => Some(k + 1),
            None => None,
        }
    }
}

/// `projects` with `sessions` added to the project at `path`. Where the
/// project is there, its sessions and the new ones are put in order
/// together: the most recently updated first, sessions with the same update
/// time in the order they had, those of the project before the new ones.
/// Else the sessions are those of a new project at the end.
pub open spec fn with_sessions(
    projects: Seq<ProjectStatsView>,
    path: Seq<char>,
    sessions: Seq<ChatSessionView>,
) -> Seq<ProjectStatsView> {
    match project_index(projects, path) {
        Some(k) => projects.update(
            k,
            project_of(path, ranked(projects[k].chats + sessions, session_ranking())),
        ),
        None => projects.push(project_of(path, sessions)),
    }
}

/// The projects of a run of workspaces, in the order in which each first
/// shows a session. Workspaces that name the same folder are one project.
pub open spec fn merged_projects(snapshots: Seq<WorkspaceSnapshotView>) -> Seq<ProjectStatsView>
    decreases snapshots.len(),
{
    if snapshots.len() == 0 {
        Seq::empty()
    } else {
        let before = merged_projects(snapshots.drop_last());
        match snapshot_project(snapshots.last()) {
            Some(path) => if stored_sessions(snapshots.last()).len() > 0 {
                with_sessions(before, path, stored_sessions(snapshots.last()))
            } else {
                before
            },
            None => before,
        }
    }
}

/// The ranking of projects: more lines added first.
pub open spec fn project_ranking() -> spec_fn(ProjectStatsView, ProjectStatsView) -> bool {
    |a: ProjectStatsView, b: ProjectStatsView| a.lines_added > b.lines_added
}

/// The report on projects: every project with a session, the one with the
/// most lines added first, equals in the order in which they first appear.
pub open spec fn project_report(snapshots: Seq<WorkspaceSnapshotView>) -> Seq<ProjectStatsView> {
    ranked(merged_projects(snapshots), project_ranking())
}

impl Ranked for ProjectStats {
    open spec fn outranks(&self, other: &Self) -> bool {
        self.lines_added > other.lines_added
    }

    fn ranks_before(&self, other: &Self) -> (b: bool) {
        self.lines_added > other.lines_added
    }
}

/// Computes `project_of`.
pub fn make_project(path: String, chats: Vec<ChatSession>) -> (project: ProjectStats)
    ensures
        project@ == project_of(path@, session_views(chats@)),
{
    let chars = chars_of(path.as_str());
    let start = find_last_segment(&chars, '/');
    let name = text_of_range(&chars, start, chars.len());
    assert(chars@.subrange(start as int, chars@.len() as int) =~= last_segment(path@, '/'));
    let totals = session_totals(&chats);
    ProjectStats {
        name,
        path,
        chat_count: count(chats.len()),
        lines_added: totals.0,
        lines_removed: totals.1,
        files_changed: totals.2,
        chats,
    }
}

fn find_project(projects: &Vec<ProjectStats>, path: &str) -> (r: Option<usize>)
    ensures
        match r {
            Some(k) => k < projects.len() && project_index(project_views(projects@), path@) == Some(
                k as int,
            ),
            None => project_index(project_views(projects@), path@) is None,
        },
{
    let ghost views = project_views(projects@);
    let mut i: usize = 0;
    assert(views.skip(0) =~= views);
    while i < projects.len()
        invariant
            i <= projects.len(),
            views == project_views(projects@),
            project_index(views, path@) == match project_index(views.skip(i as int), path@) {
                Some(k) => Some(k + i),
                None => None,
            },
        decreases projects.len() - i,
    {
        assert(views.skip(i as int)[0] == projects@[i as int]@);
        if same_text(projects[i].path.as_str(), path) {
            return Some(i);
        }
        assert(views.skip(i as int).skip(1) =~= views.skip(i + 1));
        i += 1;
    }
    None
}

/// Adds the sessions of one workspace to the project at `path`.
pub fn add_sessions(projects: &mut Vec<ProjectStats>, path: String, sessions: Vec<ChatSession>)
    ensures
        project_views(final(projects)@) == with_sessions(
            project_views(old(projects)@),
            path@,
            session_views(sessions@),
        ),
{
    let ghost before = project_views(projects@);
    match find_project(projects, path.as_str()) {
        Some(k) => {
            let found = projects.remove(k);
            let mut chats = found.chats;
            let mut incoming = sessions;
            chats.append(&mut incoming);
            assert(session_views(chats@) =~= before[k as int].chats + session_views(sessions@));
            let sorted = sort_sessions(chats);
            let rebuilt = make_project(path, sorted);
            projects.insert(k, rebuilt);
            assert(project_views(projects@) =~= before.update(k as int, rebuilt@));
        },
        None => {
            let fresh = make_project(path, sessions);
            projects.push(fresh);
            assert(project_views(projects@) =~= before.push(fresh@));
        },
    }
}

fn project_path_of(snapshot: &WorkspaceSnapshot) -> (r: Option<String>)
    ensures
        crate::time::text_view(r) == snapshot_project(snapshot@),
{
    let descriptor = descriptor_of(snapshot);
    match descriptor.folder {
        Some(path) => if path.as_str().unicode_len() > 0 {
            Some(path)
        } else {
            None
        },
        None => None,
    }
}

/// Reports on the projects that hold at least one session. Only
/// single-project workspaces count towards a project.
pub fn get_all_projects(snapshots: &Vec<WorkspaceSnapshot>) -> (out: Vec<ProjectStats>)
    ensures
        project_views(out@) == project_report(snapshot_views(snapshots@)),
        forall|i: int|
            0 <= i < out@.len() ==> (#[trigger] out@[i]).chats@.len() > 0 && out@[i].chat_count > 0
                && in_update_order(session_views(out@[i].chats@)),
{
    let ghost views = snapshot_views(snapshots@);
    let mut projects: Vec<ProjectStats> = Vec::new();
    let mut i: usize = 0;
    assert(project_views(projects@) =~= merged_projects(views.take(0)));
    while i < snapshots.len()
        invariant
            i <= snapshots.len(),
            views == snapshot_views(snapshots@),
            project_views(projects@) == merged_projects(views.take(i as int)),
        decreases snapshots.len() - i,
    {
        assert(views.take(i + 1).drop_last() =~= views.take(i as int));
        assert(views.take(i + 1).last() == snapshots@[i as int]@);
        match project_path_of(&snapshots[i]) {
            Some(path) => {
                let sessions = sessions_of_snapshot(&snapshots[i]);
                if sessions.len() > 0 {
                    add_sessions(&mut projects, path, sessions);
                }
            },
            None => {},
        }
        i += 1;
    }
    assert(views.take(snapshots@.len() as int) =~= views);
    let out = sort_ranked(projects);
    proof {
        lemma_ranked_mapped(
            projects@,
            |p: ProjectStats| p@,
            ranking_of::<ProjectStats>(),
            project_ranking(),
        );
        lemma_reports_hold_sessions(views);
        lemma_reported_sessions_in_order(views);
        assert forall|i: int| 0 <= i < out@.len() implies (#[trigger] out@[i]).chats@.len() > 0
            && out@[i].chat_count > 0 && in_update_order(session_views(out@[i].chats@)) by {
            assert(project_views(out@)[i] == out@[i]@);
            assert(project_report(views)[i].chats.len() > 0);
            assert(out@[i]@.chats.len() == out@[i].chats@.len());
        }
    }
    out
}

/// One for a session in agent mode, zero for any other.
pub open spec fn agent_sessions() -> spec_fn(ChatSessionView) -> int {
    |s: ChatSessionView|
        if s.mode == "agent"@ {
            1int
        } else {
            0int
        }
}

/// One for a session in any mode but agent mode, zero for one in agent mode.
pub open spec fn other_sessions() -> spec_fn(ChatSessionView) -> int {
    |s: ChatSessionView|
        if s.mode == "agent"@ {
            0int
        } else {
            1int
        }
}

/// The session count of a project.
pub open spec fn project_chats() -> spec_fn(ProjectStatsView) -> int {
    |p: ProjectStatsView| p.chat_count as int
}

/// The lines that a project added.
pub open spec fn project_added() -> spec_fn(ProjectStatsView) -> int {
    |p: ProjectStatsView| p.lines_added as int
}

/// The lines that a project removed.
pub open spec fn project_removed() -> spec_fn(ProjectStatsView) -> int {
    |p: ProjectStatsView| p.lines_removed as int
}

/// The files that a project changed.
pub open spec fn project_changed() -> spec_fn(ProjectStatsView) -> int {
    |p: ProjectStatsView| p.files_changed as int
}

/// The sessions of a project that are in agent mode.
pub open spec fn project_agents() -> spec_fn(ProjectStatsView) -> int {
    |p: ProjectStatsView| sum_of(p.chats, agent_sessions())
}

/// The sessions of a project that are in another mode.
pub open spec fn project_others() -> spec_fn(ProjectStatsView) -> int {
    |p: ProjectStatsView| sum_of(p.chats, other_sessions())
}

/// The totals over a run of projects. Each sum is exact wherever a counter
/// can hold it, and else the nearest value it can; the net lines are the
/// total added less the total removed, held in the same way.
pub open spec fn overview_of(projects: Seq<ProjectStatsView>) -> OverviewStats {
    let total_added = clamp_i64(sum_of(projects, project_added()));
    let total_removed = clamp_i64(sum_of(projects, project_removed()));
    OverviewStats {
        total_projects: clamp_i64(projects.len() as int),
        total_chats: clamp_i64(sum_of(projects, project_chats())),
        total_lines_added: total_added,
        total_lines_removed: total_removed,
        net_lines: clamp_i64(total_added - total_removed),
        total_files_changed: clamp_i64(sum_of(projects, project_changed())),
        agent_mode_count: clamp_i64(sum_of(projects, project_agents())),
        chat_mode_count: clamp_i64(sum_of(projects, project_others())),
    }
}

fn add_capped(total: i64, more: i64) -> (r: i64)
    requires
        total >= 0,
        more >= 0,
    ensures
        r == clamp_i64(total + more),
{
    clamp(total as i128 + more as i128)
}

fn count_modes(chats: &Vec<ChatSession>) -> (r: (i64, i64))
    ensures
        r.0 == clamp_i64(sum_of(session_views(chats@), agent_sessions())),
        r.1 == clamp_i64(sum_of(session_views(chats@), other_sessions())),
        sum_of(session_views(chats@), agent_sessions()) >= 0,
        sum_of(session_views(chats@), other_sessions()) >= 0,
{
    let ghost views = session_views(chats@);
    let mut agents: i64 = 0;
    let mut others: i64 = 0;
    let mut i: usize = 0;
    while i < chats.len()
        invariant
            i <= chats.len(),
            views == session_views(chats@),
            sum_of(views.take(i as int), agent_sessions()) >= 0,
            sum_of(views.take(i as int), other_sessions()) >= 0,
            agents == clamp_i64(sum_of(views.take(i as int), agent_sessions())),
            others == clamp_i64(sum_of(views.take(i as int), other_sessions())),
        decreases chats.len() - i,
    {
        proof {
            lemma_sum_take(views, i as int, agent_sessions());
            lemma_sum_take(views, i as int, other_sessions());
            assert(views[i as int] == chats@[i as int]@);
        }
        if same_text(chats[i].mode.as_str(), "agent") {
            agents = add_capped(agents, 1);
        } else {
            others = add_capped(others, 1);
        }
        i += 1;
    }
    assert(views.take(chats@.len() as int) =~= views);
    (agents, others)
}

/// Computes the totals over a run of projects.
pub fn overview_of_projects(projects: &Vec<ProjectStats>) -> (stats: OverviewStats)
    ensures
        stats == overview_of(project_views(projects@)),
{
    let ghost views = project_views(projects@);
    let mut chats: i128 = 0;
    let mut a: i128 = 0;
    let mut r: i128 = 0;
    let mut c: i128 = 0;
    let mut agents: i64 = 0;
    let mut others: i64 = 0;
    let mut i: usize = 0;
    while i < projects.len()
        invariant
            i <= projects.len(),
            views == project_views(projects@),
            chats == sum_of(views.take(i as int), project_chats()),
            a == sum_of(views.take(i as int), project_added()),
            r == sum_of(views.take(i as int), project_removed()),
            c == sum_of(views.take(i as int), project_changed()),
            -(i as int) * 0x8000_0000_0000_0000 <= chats <= (i as int) * 0x8000_0000_0000_0000,
            -(i as int) * 0x8000_0000_0000_0000 <= a <= (i as int) * 0x8000_0000_0000_0000,
            -(i as int) * 0x8000_0000_0000_0000 <= r <= (i as int) * 0x8000_0000_0000_0000,
            -(i as int) * 0x8000_0000_0000_0000 <= c <= (i as int) * 0x8000_0000_0000_0000,
            sum_of(views.take(i as int), project_agents()) >= 0,
            sum_of(views.take(i as int), project_others()) >= 0,
            agents == clamp_i64(sum_of(views.take(i as int), project_agents())),
            others == clamp_i64(sum_of(views.take(i as int), project_others())),
        decreases projects.len() - i,
    {
        proof {
            lemma_sum_take(views, i as int, project_chats());
            lemma_sum_take(views, i as int, project_added());
            lemma_sum_take(views, i as int, project_removed());
            lemma_sum_take(views, i as int, project_changed());
            lemma_sum_take(views, i as int, project_agents());
            lemma_sum_take(views, i as int, project_others());
            assert(views[i as int] == projects@[i as int]@);
        }
        let project = &projects[i];
        chats = chats + project.chat_count as i128;
        a = a + project.lines_added as i128;
        r = r + project.lines_removed as i128;
        c = c + project.files_changed as i128;
        let modes = count_modes(&project.chats);
        agents = add_capped(agents, modes.0);
        others = add_capped(others, modes.1);
        i += 1;
    }
    assert(views.take(projects@.len() as int) =~= views);
    let total_added = clamp(a);
    let total_removed = clamp(r);
    OverviewStats {
        total_projects: count(projects.len()),
        total_chats: clamp(chats),
        total_lines_added: total_added,
        total_lines_removed: total_removed,
        net_lines: clamp(total_added as i128 - total_removed as i128),
        total_files_changed: clamp(c),
        agent_mode_count: agents,
        chat_mode_count: others,
    }
}

/// The overview over the projects of a run of workspaces.
pub fn get_overview(snapshots: &Vec<WorkspaceSnapshot>) -> (stats: OverviewStats)
    ensures
        stats == overview_of(project_report(snapshot_views(snapshots@))),
{
    let projects = get_all_projects(snapshots);
    overview_of_projects(&projects)
}

/// Everything that the reports say, side by side.
#[derive(Debug, Clone)]
pub struct AnalysisResult {
    pub storage: StorageInfo,
    pub overview: OverviewStats,
    pub database: DatabaseStats,
    pub projects: Vec<ProjectStats>,
    pub workspaces: Vec<WorkspaceInfo>,
}

/// Runs every report on what was read: the sizes on disk, the central
/// store's answers and the workspaces.
pub fn get_full_analysis(
    sizes: &StorageSizes,
    answers: &StoreAnswers,
    snapshots: &Vec<WorkspaceSnapshot>,
) -> (all: AnalysisResult)
    requires
        sizes.fits(),
    ensures
        all.storage.total_size == sizes.global_storage + sizes.history + sizes.workspace_storage,
        all.storage.total_size_human@ == size_text(all.storage.total_size),
        all.storage.global_storage_size == sizes.global_storage,
        all.storage.global_storage_size_human@ == size_text(sizes.global_storage),
        all.storage.history_size == sizes.history,
        all.storage.history_size_human@ == size_text(sizes.history),
        all.storage.workspace_storage_size == sizes.workspace_storage,
        all.storage.workspace_storage_size_human@ == size_text(sizes.workspace_storage),
        all.storage.state_vscdb_size == sizes.state_vscdb,
        all.storage.state_vscdb_backup_size == sizes.state_vscdb_backup,
        all.overview == overview_of(project_report(snapshot_views(snapshots@))),
        all.database == database_stats_of(*answers),
        project_views(all.projects@) == project_report(snapshot_views(snapshots@)),
        workspace_views(all.workspaces@) == workspace_report(snapshot_views(snapshots@)),
{
    let storage = get_storage_info(sizes);
    let projects = get_all_projects(snapshots);
    let overview = overview_of_projects(&projects);
    let database = get_database_stats(answers);
    let workspaces = get_workspaces(snapshots);
    AnalysisResult { storage, overview, database, projects, workspaces }
}

proof fn lemma_project_index_bounds(projects: Seq<ProjectStatsView>, path: Seq<char>)
    ensures
        project_index(projects, path) matches Some(k) ==> 0 <= k < projects.len() && projects[k].path
            == path,
        project_index(projects, path) is None ==> forall|k: int|
            0 <= k < projects.len() ==> (#[trigger] projects[k]).path != path,
    decreases projects.len(),
{
    if projects.len() > 0 && projects[0].path != path {
        lemma_project_index_bounds(projects.skip(1), path);
        assert forall|k: int| 0 <= k < projects.len() && project_index(projects, path)
            is None implies (#[trigger] projects[k]).path != path by {
            if k > 0 {
                assert(projects[k] == projects.skip(1)[k - 1]);
            }
        }
    }
}

/// Every merged project holds a session, its sessions are in order, its
/// counters are the totals of its sessions, and no two of them have the
/// same path.
pub proof fn lemma_merged_projects(snapshots: Seq<WorkspaceSnapshotView>)
    ensures
        forall|i: int|
            0 <= i < merged_projects(snapshots).len() ==> {
                let p = #[trigger] merged_projects(snapshots)[i];
                p.chats.len() > 0 && p == project_of(p.path, p.chats) && in_update_order(p.chats)
            },
        forall|i: int, j: int|
            0 <= i < j < merged_projects(snapshots).len() ==> (#[trigger] merged_projects(
                snapshots,
            )[i]).path != (#[trigger] merged_projects(snapshots)[j]).path,
    decreases snapshots.len(),
{
    if snapshots.len() > 0 {
        let before = merged_projects(snapshots.drop_last());
        lemma_merged_projects(snapshots.drop_last());
        let sessions = stored_sessions(snapshots.last());
        match snapshot_project(snapshots.last()) {
            Some(path) => {
                if sessions.len() > 0 {
                    lemma_project_index_bounds(before, path);
                    lemma_stored_sessions_in_order(snapshots.last());
                    if let Some(k) = project_index(before, path) {
                        lemma_ranked_len(before[k].chats + sessions, session_ranking());
                        lemma_ranked_sessions_in_order(before[k].chats + sessions);
                    }
                    let after = with_sessions(before, path, sessions);
                    assert forall|i: int| 0 <= i < after.len() implies {
                        let p = #[trigger] after[i];
                        p.chats.len() > 0 && p == project_of(p.path, p.chats) && in_update_order(
                            p.chats,
                        )
                    } by {
                        if i < before.len() && project_index(before, path) != Some(i) {
                            assert(after[i] == before[i]);
                        }
                    }
                    assert forall|i: int, j: int| 0 <= i < j < after.len() implies (
                    #[trigger] after[i]).path != (#[trigger] after[j]).path by {
                        if j < before.len() {
                            assert(after[i].path == before[i].path);
                            assert(after[j].path == before[j].path);
                        } else {
                            assert(after[i] == before[i]);
                        }
                    }
                }
            },
            None => {},
        }
    }
}

/// Neither report shows an entry without sessions: every project and every
/// workspace that is reported holds at least one, and says so in its count.
pub proof fn lemma_reports_hold_sessions(snapshots: Seq<WorkspaceSnapshotView>)
    ensures
        forall|i: int|
            0 <= i < project_report(snapshots).len() ==> (#[trigger] project_report(
                snapshots,
            )[i]).chats.len() > 0 && project_report(snapshots)[i].chat_count > 0,
        forall|i: int|
            0 <= i < workspace_report(snapshots).len() ==> (#[trigger] workspace_report(
                snapshots,
            )[i]).recent_chats.len() > 0 && workspace_report(snapshots)[i].chat_count > 0,
{
    let merged = merged_projects(snapshots);
    lemma_merged_projects(snapshots);
    assert(is_ranking_relation(project_ranking()));
    lemma_ranked_is_stable(merged, project_ranking());
    let from = ranked_origin(merged, project_ranking());
    assert forall|i: int| 0 <= i < project_report(snapshots).len() implies (
    #[trigger] project_report(snapshots)[i]).chats.len() > 0 && project_report(
        snapshots,
    )[i].chat_count > 0 by {
        assert(project_report(snapshots)[i] == merged[from[i]]);
    }
    let found = reported_workspaces(snapshots);
    lemma_reported_workspaces(snapshots);
    assert(is_ranking_relation(workspace_ranking()));
    lemma_ranked_is_stable(found, workspace_ranking());
    let origin = ranked_origin(found, workspace_ranking());
    assert forall|i: int| 0 <= i < workspace_report(snapshots).len() implies (
    #[trigger] workspace_report(snapshots)[i]).recent_chats.len() > 0 && workspace_report(
        snapshots,
    )[i].chat_count > 0 by {
        assert(workspace_report(snapshots)[i] == found[origin[i]]);
    }
}

/// No two reported projects have the same path.
pub proof fn lemma_reported_projects_differ(snapshots: Seq<WorkspaceSnapshotView>)
    ensures
        forall|i: int, j: int|
            0 <= i < j < project_report(snapshots).len() ==> (#[trigger] project_report(
                snapshots,
            )[i]).path != (#[trigger] project_report(snapshots)[j]).path,
{
    let merged = merged_projects(snapshots);
    lemma_merged_projects(snapshots);
    assert(is_ranking_relation(project_ranking()));
    lemma_ranked_is_stable(merged, project_ranking());
    let from = ranked_origin(merged, project_ranking());
    assert forall|i: int, j: int| 0 <= i < j < project_report(snapshots).len() implies (
    #[trigger] project_report(snapshots)[i]).path != (#[trigger] project_report(
        snapshots,
    )[j]).path by {
        assert(project_report(snapshots)[i] == merged[from[i]]);
        assert(project_report(snapshots)[j] == merged[from[j]]);
        assert(stands_before(merged, from[i], from[j], project_ranking()));
        if from[i] < from[j] {
            assert(merged[from[i]].path != merged[from[j]].path);
        } else if from[j] < from[i] {
            assert(merged[from[j]].path != merged[from[i]].path);
        }
    }
}

/// Every workspace that is found for the report holds a session.
pub proof fn lemma_reported_workspaces(snapshots: Seq<WorkspaceSnapshotView>)
    ensures
        forall|i: int|
            0 <= i < reported_workspaces(snapshots).len() ==> (#[trigger] reported_workspaces(
                snapshots,
            )[i]).recent_chats.len() > 0 && reported_workspaces(snapshots)[i].chat_count > 0,
    decreases snapshots.len(),
{
    if snapshots.len() > 0 {
        lemma_reported_workspaces(snapshots.drop_last());
        let before = reported_workspaces(snapshots.drop_last());
        assert forall|i: int| 0 <= i < reported_workspaces(snapshots).len() implies (
        #[trigger] reported_workspaces(snapshots)[i]).recent_chats.len() > 0
            && reported_workspaces(snapshots)[i].chat_count > 0 by {
            if i < before.len() {
                assert(reported_workspaces(snapshots)[i] == before[i]);
            }
        }
    }
}

/// The sessions that a workspace's store holds are in order.
pub proof fn lemma_stored_sessions_in_order(snapshot: WorkspaceSnapshotView)
    ensures
        in_update_order(stored_sessions(snapshot)),
{
    if snapshot.has_store && snapshot.session_list is Some {
        lemma_sessions_of_text_in_order(snapshot.session_list->0);
    }
}

/// The sessions of every reported project and of every reported workspace
/// are in order: the most recently updated first, those without an update
/// time last. This holds just as well where several workspaces name one
/// project.
pub proof fn lemma_reported_sessions_in_order(snapshots: Seq<WorkspaceSnapshotView>)
    ensures
        forall|i: int|
            0 <= i < project_report(snapshots).len() ==> in_update_order(
                (#[trigger] project_report(snapshots)[i]).chats,
            ),
        forall|i: int|
            0 <= i < workspace_report(snapshots).len() ==> in_update_order(
                (#[trigger] workspace_report(snapshots)[i]).recent_chats,
            ),
{
    let merged = merged_projects(snapshots);
    lemma_merged_projects(snapshots);
    assert(is_ranking_relation(project_ranking()));
    lemma_ranked_is_stable(merged, project_ranking());
    let from = ranked_origin(merged, project_ranking());
    assert forall|i: int| 0 <= i < project_report(snapshots).len() implies in_update_order(
        (#[trigger] project_report(snapshots)[i]).chats,
    ) by {
        assert(project_report(snapshots)[i] == merged[from[i]]);
    }
    let found = reported_workspaces(snapshots);
    lemma_found_workspaces_in_order(snapshots);
    assert(is_ranking_relation(workspace_ranking()));
    lemma_ranked_is_stable(found, workspace_ranking());
    let origin = ranked_origin(found, workspace_ranking());
    assert forall|i: int| 0 <= i < workspace_report(snapshots).len() implies in_update_order(
        (#[trigger] workspace_report(snapshots)[i]).recent_chats,
    ) by {
        assert(workspace_report(snapshots)[i] == found[origin[i]]);
    }
}

proof fn lemma_found_workspaces_in_order(snapshots: Seq<WorkspaceSnapshotView>)
    ensures
        forall|i: int|
            0 <= i < reported_workspaces(snapshots).len() ==> in_update_order(
                (#[trigger] reported_workspaces(snapshots)[i]).recent_chats,
            ),
    decreases snapshots.len(),
{
    if snapshots.len() > 0 {
        lemma_found_workspaces_in_order(snapshots.drop_last());
        lemma_stored_sessions_in_order(snapshots.last());
        let before = reported_workspaces(snapshots.drop_last());
        assert forall|i: int| 0 <= i < reported_workspaces(snapshots).len() implies in_update_order(
            (#[trigger] reported_workspaces(snapshots)[i]).recent_chats,
        ) by {
            if i < before.len() {
                assert(reported_workspaces(snapshots)[i] == before[i]);
            }
        }
    }
}

} // verus!
