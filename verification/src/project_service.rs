//! Projects: creation, edits, archiving, deletion with its cascade, the
//! project list with microtask counts, and the nested project tree.

use vstd::prelude::*;
pub use crate::tree::get_project_tree;
use crate::precheck::{blank_settled, settle_blank};
use crate::time::{clock_error, clock_unreadable, is_utc_timestamp, now_iso8601};
use crate::cascade::{
    goal_ids_of, goals_inside_projects, goals_outside_projects, keep_goals_outside_projects,
    keep_microtasks_outside_tasks, keep_projects_without_ids, keep_tasks_outside_goals,
    microtasks_outside_tasks, projects_without_ids, select_goals_inside_projects,
    select_tasks_inside_goals, task_ids_of, tasks_inside_goals, tasks_outside_goals,
};
use crate::error::{AppError, ErrorView};
use crate::models::{Goal, GoalView, Microtask, MicrotaskView, Project, ProjectSummary, ProjectSummaryView, ProjectView, Task, TaskView};
use crate::order::{arranged, sort_by_text, sorted_by_text};
use crate::store::{goals_view, microtasks_view, tasks_view};
use crate::text::{completed_word, copy_opt, status_completed};
use crate::reorder::texts_view;
use crate::store::{find_project, goal_ids, projects_view, task_ids, Planner, PlannerView};
use crate::text::{open_word, opt_str, own_opt, status_open, trim_text, trim_view};

verus! {

broadcast use {Seq::lemma_filter_push, Seq::lemma_push_map_commute};

/// Every project row with the id, with the new name and description,
/// stamped `now`.
pub open spec fn projects_edited(
    ps: Seq<ProjectView>,
    id: Seq<char>,
    name: Seq<char>,
    description: Option<Seq<char>>,
    now: Seq<char>,
) -> Seq<ProjectView> {
    ps.map_values(
        |p: ProjectView|
            if p.id == id { ProjectView { name, description, updated_at: now, ..p } } else { p },
    )
}

/// Every project row with the id, archived and stamped `now`.
pub open spec fn projects_archived(ps: Seq<ProjectView>, id: Seq<char>, now: Seq<char>) -> Seq<ProjectView> {
    ps.map_values(
        |p: ProjectView| if p.id == id { ProjectView { is_archived: true, updated_at: now, ..p } } else { p },
    )
}

impl PlannerView {
    /// Creating project `id`: the name is trimmed and must not be blank, the
    /// id must be new; the project is open, unarchived and stamped `now`.
    pub open spec fn create_project(
        self,
        now: Seq<char>,
        id: Seq<char>,
        name: Seq<char>,
        description: Option<Seq<char>>,
    ) -> Result<PlannerView, ErrorView> {
        let n = trim_view(name);
        if n.len() == 0 {
            Err(ErrorView::Validation("project name must not be empty"@))
        } else if self.has_project(id) {
            Err(ErrorView::Db("error returned from database: (code: 1555) UNIQUE constraint failed: projects.id"@))
        } else {
            Ok(
                PlannerView {
                    projects: self.projects.push(
                        ProjectView {
                            id,
                            name: n,
                            description,
                            status: status_open(),
                            is_archived: false,
                            completed_at: None,
                            created_at: now,
                            updated_at: now,
                        },
                    ),
                    ..self
                },
            )
        }
    }

    /// Editing project `id`: the trimmed name must not be blank; name and
    /// description take the given values.
    pub open spec fn update_project(
        self,
        now: Seq<char>,
        id: Seq<char>,
        name: Seq<char>,
        description: Option<Seq<char>>,
    ) -> Result<PlannerView, ErrorView> {
        let n = trim_view(name);
        if n.len() == 0 {
            Err(ErrorView::Validation("project name must not be empty"@))
        } else if !self.has_project(id) {
            Err(ErrorView::NotFound { entity: "project"@, id })
        } else {
            Ok(PlannerView { projects: projects_edited(self.projects, id, n, description, now), ..self })
        }
    }

    /// Archiving project `id`.
    pub open spec fn archive_project(self, now: Seq<char>, id: Seq<char>) -> Result<PlannerView, ErrorView> {
        if !self.has_project(id) {
            Err(ErrorView::NotFound { entity: "project"@, id })
        } else {
            Ok(PlannerView { projects: projects_archived(self.projects, id, now), ..self })
        }
    }

    /// Deleting project `id`, with its goals, their tasks and those tasks'
    /// microtasks.
    pub open spec fn delete_project(self, id: Seq<char>) -> Result<PlannerView, ErrorView> {
        if !self.has_project(id) {
            Err(ErrorView::NotFound { entity: "project"@, id })
        } else {
            let gone = seq![id];
            let gone_goals = goal_ids(goals_inside_projects(self.goals, gone));
            let gone_tasks = task_ids(tasks_inside_goals(self.tasks, gone_goals));
            Ok(
                PlannerView {
                    projects: projects_without_ids(self.projects, gone),
                    goals: goals_outside_projects(self.goals, gone),
                    tasks: tasks_outside_goals(self.tasks, gone_goals),
                    microtasks: microtasks_outside_tasks(self.microtasks, gone_tasks),
                    ..self
                },
            )
        }
    }
}

/// Creates project `id` at `now`, as `PlannerView::create_project` says. On
/// an error the store is left as it was.
pub fn create_project_at(store: &mut Planner, now: &str, id: &str, name: &str, description: Option<&str>) -> (r: Result<(), AppError>)
    ensures
        match old(store)@.create_project(now@, id@, name@, opt_str(description)) {
            Ok(v) => r is Ok && final(store)@ == v,
            Err(e) => r matches Err(x) && x@ == e && final(store)@ == old(store)@,
        },
{
    let n = trim_text(name);
    if n.is_empty() {
        return Err(AppError::Validation("project name must not be empty".to_owned()));
    }
    let id_s = id.to_owned();
    if find_project(&store.projects, &id_s).is_some() {
        return Err(AppError::Db("error returned from database: (code: 1555) UNIQUE constraint failed: projects.id".to_owned()));
    }
    let p = Project {
        id: id_s,
        name: n.to_owned(),
        description: own_opt(description),
        status: open_word(),
        is_archived: false,
        completed_at: None,
        created_at: now.to_owned(),
        updated_at: now.to_owned(),
    };
    store.projects.push(p);
    assert(projects_view(store.projects@) =~= projects_view(old(store).projects@).push(p@));
    Ok(())
}

/// Edits project `id` at `now`, as `PlannerView::update_project` says. On an
/// error the store is left as it was.
pub fn update_project_at(store: &mut Planner, now: &str, id: &str, name: &str, description: Option<&str>) -> (r: Result<(), AppError>)
    ensures
        match old(store)@.update_project(now@, id@, name@, opt_str(description)) {
            Ok(v) => r is Ok && final(store)@ == v,
            Err(e) => r matches Err(x) && x@ == e && final(store)@ == old(store)@,
        },
{
    let ghost v0 = store@;
    let n = trim_text(name);
    if n.is_empty() {
        return Err(AppError::Validation("project name must not be empty".to_owned()));
    }
    let id_s = id.to_owned();
    if find_project(&store.projects, &id_s).is_none() {
        return Err(AppError::NotFound { entity: "project", id: id_s });
    }
    let ghost target = projects_edited(v0.projects, id@, n@, opt_str(description), now@);
    let mut i: usize = 0;
    while i < store.projects.len()
        invariant
            i <= store.projects.len(),
            store.projects@.len() == v0.projects.len(),
            id_s@ == id@,
            v0 == old(store)@,
            target == projects_edited(v0.projects, id@, n@, opt_str(description), now@),
            forall|j: int| 0 <= j < i ==> #[trigger] store.projects@[j]@ == target[j],
            forall|j: int| i <= j < store.projects@.len() ==> #[trigger] store.projects@[j]@ == v0.projects[j],
            store.goals == old(store).goals,
            store.tasks == old(store).tasks,
            store.microtasks == old(store).microtasks,
            store.pomodoro_types == old(store).pomodoro_types,
        decreases store.projects.len() - i,
    {
        let ghost old_p = v0.projects[i as int];
        assert(old_p == store.projects@[i as int]@);
        if store.projects[i].id == id_s {
            let mut p = store.projects[i].clone();
            p.name = n.to_owned();
            p.description = own_opt(description);
            p.updated_at = now.to_owned();
            assert(p@ == ProjectView { name: n@, description: opt_str(description), updated_at: now@, ..old_p });
            store.projects.set(i, p);
        }
        assert(store.projects@[i as int]@ == target[i as int]);
        i += 1;
    }
    assert(projects_view(store.projects@) =~= target);
    Ok(())
}

/// Archives project `id` at `now`. On an error the store is left as it was.
pub fn archive_project_at(store: &mut Planner, now: &str, id: &str) -> (r: Result<(), AppError>)
    ensures
        match old(store)@.archive_project(now@, id@) {
            Ok(v) => r is Ok && final(store)@ == v,
            Err(e) => r matches Err(x) && x@ == e && final(store)@ == old(store)@,
        },
{
    let ghost v0 = store@;
    let id_s = id.to_owned();
    if find_project(&store.projects, &id_s).is_none() {
        return Err(AppError::NotFound { entity: "project", id: id_s });
    }
    let ghost target = projects_archived(v0.projects, id@, now@);
    let mut i: usize = 0;
    while i < store.projects.len()
        invariant
            i <= store.projects.len(),
            store.projects@.len() == v0.projects.len(),
            id_s@ == id@,
            v0 == old(store)@,
            target == projects_archived(v0.projects, id@, now@),
            forall|j: int| 0 <= j < i ==> #[trigger] store.projects@[j]@ == target[j],
            forall|j: int| i <= j < store.projects@.len() ==> #[trigger] store.projects@[j]@ == v0.projects[j],
            store.goals == old(store).goals,
            store.tasks == old(store).tasks,
            store.microtasks == old(store).microtasks,
            store.pomodoro_types == old(store).pomodoro_types,
        decreases store.projects.len() - i,
    {
        let ghost old_p = v0.projects[i as int];
        assert(old_p == store.projects@[i as int]@);
        if store.projects[i].id == id_s {
            let mut p = store.projects[i].clone();
            p.is_archived = true;
            p.updated_at = now.to_owned();
            assert(p@ == ProjectView { is_archived: true, updated_at: now@, ..old_p });
            store.projects.set(i, p);
        }
        assert(store.projects@[i as int]@ == target[i as int]);
        i += 1;
    }
    assert(projects_view(store.projects@) =~= target);
    Ok(())
}

/// Deletes project `id` with its goals, their tasks and those tasks'
/// microtasks. On an error the store is left as it was.
pub fn delete_project(store: &mut Planner, id: &str) -> (r: Result<(), AppError>)
    ensures
        match old(store)@.delete_project(id@) {
            Ok(v) => r is Ok && final(store)@ == v,
            Err(e) => r matches Err(x) && x@ == e && final(store)@ == old(store)@,
        },
{
    let id_s = id.to_owned();
    if find_project(&store.projects, &id_s).is_none() {
        return Err(AppError::NotFound { entity: "project", id: id_s });
    }
    let mut gone: Vec<String> = Vec::new();
    gone.push(id_s);
    assert(texts_view(gone@) =~= seq![id@]);
    let removed_goals = select_goals_inside_projects(&store.goals, &gone);
    let gone_goals = goal_ids_of(&removed_goals);
    let removed_tasks = select_tasks_inside_goals(&store.tasks, &gone_goals);
    let gone_tasks = task_ids_of(&removed_tasks);
    let microtasks = keep_microtasks_outside_tasks(&store.microtasks, &gone_tasks);
    let tasks = keep_tasks_outside_goals(&store.tasks, &gone_goals);
    let goals = keep_goals_outside_projects(&store.goals, &gone);
    let projects = keep_projects_without_ids(&store.projects, &gone);
    store.microtasks = microtasks;
    store.tasks = tasks;
    store.goals = goals;
    store.projects = projects;
    Ok(())
}

/// Some goal row with id `gid` belongs to project `pid`.
pub open spec fn goal_in_project(gs: Seq<GoalView>, gid: Seq<char>, pid: Seq<char>) -> bool {
    exists|k: int| 0 <= k < gs.len() && #[trigger] gs[k].id == gid && gs[k].project_id == pid
}

/// Some task row with id `tid` belongs to a goal of project `pid`.
pub open spec fn task_in_project(v: PlannerView, tid: Seq<char>, pid: Seq<char>) -> bool {
    exists|i: int|
        0 <= i < v.tasks.len() && #[trigger] v.tasks[i].id == tid && goal_in_project(
            v.goals,
            v.tasks[i].goal_id,
            pid,
        )
}

/// The unarchived microtasks of project `pid`.
pub open spec fn project_microtasks(v: PlannerView, pid: Seq<char>) -> Seq<MicrotaskView> {
    v.microtasks.filter(|m: MicrotaskView| !m.is_archived && task_in_project(v, m.task_id, pid))
}

/// The unarchived, completed microtasks of project `pid`.
pub open spec fn project_completed_microtasks(v: PlannerView, pid: Seq<char>) -> Seq<MicrotaskView> {
    v.microtasks.filter(
        |m: MicrotaskView|
            !m.is_archived && m.status == status_completed() && task_in_project(v, m.task_id, pid),
    )
}

/// A project with the counts of its unarchived microtasks, all and completed.
pub open spec fn summary_of(v: PlannerView, p: ProjectView) -> ProjectSummaryView {
    ProjectSummaryView {
        project: p,
        total_microtasks: project_microtasks(v, p.id).len() as int,
        completed_microtasks: project_completed_microtasks(v, p.id).len() as int,
    }
}

/// The projects shown in the list: the unarchived ones, or all of them.
pub open spec fn listed_projects(ps: Seq<ProjectView>, include_archived: bool) -> Seq<ProjectView> {
    ps.filter(|p: ProjectView| include_archived || !p.is_archived)
}

/// The creation times of `s`, in order.
pub open spec fn created_keys(s: Seq<ProjectView>) -> Seq<Seq<char>> {
    s.map_values(|p: ProjectView| p.created_at)
}

impl PlannerView {
    /// The project list: the unarchived projects (all of them when
    /// `include_archived`), ordered by creation time (ties in stored order),
    /// each with the counts of its unarchived microtasks.
    pub open spec fn project_list(self, include_archived: bool) -> Seq<ProjectSummaryView> {
        let shown = listed_projects(self.projects, include_archived);
        arranged(shown, sorted_by_text(created_keys(shown), shown.len())).map_values(
            |p: ProjectView| summary_of(self, p),
        )
    }
}

fn goal_in_project_exec(rows: &Vec<Goal>, gid: &String, pid: &String) -> (r: bool)
    ensures
        r == goal_in_project(goals_view(rows@), gid@, pid@),
{
    let ghost gv = goals_view(rows@);
    let mut k: usize = 0;
    while k < rows.len()
        invariant
            k <= rows.len(),
            gv == goals_view(rows@),
            forall|q: int| 0 <= q < k ==> !(#[trigger] gv[q].id == gid@ && gv[q].project_id == pid@),
        decreases rows.len() - k,
    {
        if rows[k].id == *gid && rows[k].project_id == *pid {
            assert(gv[k as int].id == gid@);
            return true;
        }
        k += 1;
    }
    false
}

fn task_in_project_exec(store: &Planner, tid: &String, pid: &String) -> (r: bool)
    ensures
        r == task_in_project(store@, tid@, pid@),
{
    let ghost v = store@;
    let mut i: usize = 0;
    while i < store.tasks.len()
        invariant
            i <= store.tasks.len(),
            v == store@,
            forall|q: int|
                0 <= q < i ==> !(#[trigger] v.tasks[q].id == tid@ && goal_in_project(
                    v.goals,
                    v.tasks[q].goal_id,
                    pid@,
                )),
        decreases store.tasks.len() - i,
    {
        if store.tasks[i].id == *tid && goal_in_project_exec(&store.goals, &store.tasks[i].goal_id, pid) {
            assert(v.tasks[i as int].id == tid@);
            return true;
        }
        i += 1;
    }
    false
}

/// The summary of project `p`: its counts of unarchived microtasks, all and
/// completed.
fn summarize(store: &Planner, p: &Project) -> (r: ProjectSummary)
    requires
        store@.microtasks.len() <= i64::MAX,
    ensures
        r@ == summary_of(store@, p@),
{
    let ghost v = store@;
    let ghost all = v.microtasks;
    let completed = completed_word();
    let mut total: i64 = 0;
    let mut done: i64 = 0;
    let mut i: usize = 0;
    while i < store.microtasks.len()
        invariant
            i <= store.microtasks.len(),
            v == store@,
            all == v.microtasks,
            all.len() <= i64::MAX,
            completed@ == status_completed(),
            total as int == all.take(i as int).filter(
                |m: MicrotaskView| !m.is_archived && task_in_project(v, m.task_id, p@.id),
            ).len(),
            done as int == all.take(i as int).filter(
                |m: MicrotaskView|
                    !m.is_archived && m.status == status_completed() && task_in_project(v, m.task_id, p@.id),
            ).len(),
            total <= i,
            done <= i,
        decreases store.microtasks.len() - i,
    {
        assert(all.take(i + 1) =~= all.take(i as int).push(all[i as int]));
        let m = &store.microtasks[i];
        if !m.is_archived && task_in_project_exec(store, &m.task_id, &p.id) {
            total += 1;
            if m.status == completed {
                done += 1;
            }
        }
        i += 1;
    }
    assert(all.take(all.len() as int) =~= all);
    ProjectSummary {
        id: p.id.clone(),
        name: p.name.clone(),
        description: copy_opt(&p.description),
        status: p.status.clone(),
        is_archived: p.is_archived,
        completed_at: copy_opt(&p.completed_at),
        created_at: p.created_at.clone(),
        updated_at: p.updated_at.clone(),
        total_microtasks: total,
        completed_microtasks: done,
    }
}

/// The project list, as `PlannerView::project_list` says.
pub fn list_projects(store: &Planner, include_archived: bool) -> (r: Vec<ProjectSummary>)
    requires
        store@.microtasks.len() <= i64::MAX,
    ensures
        r@.map_values(|s: ProjectSummary| s@) == store@.project_list(include_archived),
{
    let ghost v = store@;
    let ghost all = v.projects;
    let mut shown: Vec<Project> = Vec::new();
    let mut i: usize = 0;
    while i < store.projects.len()
        invariant
            i <= store.projects.len(),
            v == store@,
            all == v.projects,
            projects_view(shown@) == listed_projects(all.take(i as int), include_archived),
        decreases store.projects.len() - i,
    {
        assert(all.take(i + 1) =~= all.take(i as int).push(all[i as int]));
        if include_archived || !store.projects[i].is_archived {
            shown.push(store.projects[i].clone());
        }
        assert(projects_view(shown@) =~= listed_projects(all.take(i + 1), include_archived));
        i += 1;
    }
    assert(all.take(all.len() as int) =~= all);
    let ghost sv = projects_view(shown@);
    let mut keys: Vec<String> = Vec::new();
    let mut j: usize = 0;
    while j < shown.len()
        invariant
            j <= shown.len(),
            sv == projects_view(shown@),
            keys@.len() == j,
            forall|k: int| 0 <= k < j ==> #[trigger] keys@[k]@ == sv[k].created_at,
        decreases shown.len() - j,
    {
        keys.push(shown[j].created_at.clone());
        j += 1;
    }
    assert(keys@.map_values(|k: String| k@) =~= created_keys(sv));
    let order = sort_by_text(&keys);
    let mut out: Vec<ProjectSummary> = Vec::new();
    let mut k: usize = 0;
    while k < order.len()
        invariant
            k <= order.len(),
            v == store@,
            v.microtasks.len() <= i64::MAX,
            sv == projects_view(shown@),
            order@ == sorted_by_text(created_keys(sv), sv.len()),
            forall|q: int| 0 <= q < order@.len() ==> #[trigger] order@[q] < keys@.len(),
            keys@.len() == shown@.len(),
            out@.len() == k,
            forall|q: int| 0 <= q < k ==> #[trigger] out@[q]@ == summary_of(v, sv[order@[q] as int]),
        decreases order.len() - k,
    {
        assert(order@[k as int] < keys@.len());
        out.push(summarize(store, &shown[order[k]]));
        k += 1;
    }
    assert(out@.map_values(|s: ProjectSummary| s@) =~= store@.project_list(include_archived));
    out
}

/// First settles, without reading the clock, what `blank_settled` says; otherwise
/// runs `create_project_at` at the current time of the clock, or, when the clock
/// reads a time that cannot be recorded, fails with `clock_error` and
/// changes nothing.
pub fn create_project(
    store: &mut Planner,
    id: &str,
    name: &str,
    description: Option<&str>,
) -> (r: Result<(), AppError>)
    ensures
        match blank_settled(name@, "project name must not be empty"@) {
            Some(out) => final(store)@ == old(store)@ && match out {
                Ok(_) => r is Ok,
                Err(e) => r matches Err(x) && x@ == e,
            },
            None => (r matches Err(x) && x@ == clock_error() && final(store)@ == old(store)@) || exists|now: Seq<char>|
                    is_utc_timestamp(now) && match #[trigger] old(store)@.create_project(now, id@, name@, opt_str(description)) {
                        Ok(v) => r is Ok && final(store)@ == v,
                        Err(e) => r matches Err(x) && x@ == e && final(store)@ == old(store)@,
                    },
        },
{
    match settle_blank(name, "project name must not be empty") {
        Some(out) => return out,
        None => {},
    }
    let now = match now_iso8601() {
        Some(t) => t,
        None => return Err(clock_unreadable()),
    };
    let r = create_project_at(store, now.as_str(), id, name, description);
    assert(
        match old(store)@.create_project(now@, id@, name@, opt_str(description)) {
            Ok(v) => r is Ok && store@ == v,
            Err(e) => r matches Err(x) && x@ == e && store@ == old(store)@,
        }
    );
    r
}

/// First settles, without reading the clock, what `blank_settled` says; otherwise
/// runs `update_project_at` at the current time of the clock, or, when the clock
/// reads a time that cannot be recorded, fails with `clock_error` and
/// changes nothing.
pub fn update_project(
    store: &mut Planner,
    id: &str,
    name: &str,
    description: Option<&str>,
) -> (r: Result<(), AppError>)
    ensures
        match blank_settled(name@, "project name must not be empty"@) {
            Some(out) => final(store)@ == old(store)@ && match out {
                Ok(_) => r is Ok,
                Err(e) => r matches Err(x) && x@ == e,
            },
            None => (r matches Err(x) && x@ == clock_error() && final(store)@ == old(store)@) || exists|now: Seq<char>|
                    is_utc_timestamp(now) && match #[trigger] old(store)@.update_project(now, id@, name@, opt_str(description)) {
                        Ok(v) => r is Ok && final(store)@ == v,
                        Err(e) => r matches Err(x) && x@ == e && final(store)@ == old(store)@,
                    },
        },
{
    match settle_blank(name, "project name must not be empty") {
        Some(out) => return out,
        None => {},
    }
    let now = match now_iso8601() {
        Some(t) => t,
        None => return Err(clock_unreadable()),
    };
    let r = update_project_at(store, now.as_str(), id, name, description);
    assert(
        match old(store)@.update_project(now@, id@, name@, opt_str(description)) {
            Ok(v) => r is Ok && store@ == v,
            Err(e) => r matches Err(x) && x@ == e && store@ == old(store)@,
        }
    );
    r
}

/// Runs `archive_project_at` at the current time of the clock; when the clock reads a time
/// that cannot be recorded, fails with `clock_error` and changes nothing.
pub fn archive_project(
    store: &mut Planner,
    id: &str,
) -> (r: Result<(), AppError>)
    ensures
        (r matches Err(x) && x@ == clock_error() && final(store)@ == old(store)@) || exists|now: Seq<char>|
            is_utc_timestamp(now) && match #[trigger] old(store)@.archive_project(now, id@) {
                Ok(v) => r is Ok && final(store)@ == v,
                Err(e) => r matches Err(x) && x@ == e && final(store)@ == old(store)@,
            },
{
    let now = match now_iso8601() {
        Some(t) => t,
        None => return Err(clock_unreadable()),
    };
    let r = archive_project_at(store, now.as_str(), id);
    assert(
        match old(store)@.archive_project(now@, id@) {
            Ok(v) => r is Ok && store@ == v,
            Err(e) => r matches Err(x) && x@ == e && store@ == old(store)@,
        }
    );
    r
}

} // verus!
