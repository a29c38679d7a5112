//! The nested project tree: a project's unarchived goals, their unarchived
//! tasks and those tasks' unarchived microtasks, each level in sort order.

use vstd::prelude::*;
use crate::error::{AppError, ErrorView};
use crate::goal_service::live_goals_of;
use crate::microtask_service::live_microtasks_of;
use crate::models::{
    Goal, GoalView, Microtask, MicrotaskView, ProjectTree, ProjectTreeView, Task, TaskView,
    TreeGoal, TreeGoalView, TreeMicrotask, TreeMicrotaskView, TreeTask, TreeTaskView,
    tree_goals_view, tree_microtasks_view, tree_tasks_view,
};
use crate::order::{arranged, sort_by_int, sorted_by_int};
use crate::store::{
    find_project, goals_view, lemma_first_position, microtasks_view, project_ids, tasks_view,
    first_position, Planner, PlannerView,
};
use crate::task_service::live_tasks_of;
use crate::text::copy_opt;

verus! {

broadcast use {Seq::lemma_filter_push, Seq::lemma_push_map_commute};

/// The sort orders of `s`, in order.
pub open spec fn microtask_sort_keys(s: Seq<MicrotaskView>) -> Seq<i64> {
    s.map_values(|r: MicrotaskView| r.sort_order)
}

/// The unarchived microtasks whose `task_id` is `parent`, in sort order (ties in
/// stored order).
pub open spec fn ordered_microtasks(s: Seq<MicrotaskView>, parent: Seq<char>) -> Seq<MicrotaskView> {
    let live = live_microtasks_of(s, parent);
    arranged(live, sorted_by_int(microtask_sort_keys(live), live.len()))
}

/// The unarchived microtasks whose `task_id` is `parent`, in stored order.
fn select_live_microtasks(rows: &Vec<Microtask>, parent: &String) -> (r: Vec<Microtask>)
    ensures
        microtasks_view(r@) == live_microtasks_of(microtasks_view(rows@), parent@),
{
    let ghost all = microtasks_view(rows@);
    let mut out: Vec<Microtask> = Vec::new();
    let mut i: usize = 0;
    while i < rows.len()
        invariant
            i <= rows.len(),
            all == microtasks_view(rows@),
            microtasks_view(out@) == live_microtasks_of(all.take(i as int), parent@),
        decreases rows.len() - i,
    {
        assert(all.take(i + 1) =~= all.take(i as int).push(all[i as int]));
        if rows[i].task_id == *parent && !rows[i].is_archived {
            out.push(rows[i].clone());
        }
        assert(microtasks_view(out@) =~= live_microtasks_of(all.take(i + 1), parent@));
        i += 1;
    }
    assert(all.take(rows.len() as int) =~= all);
    out
}

/// The unarchived microtasks whose `task_id` is `parent`, in sort order.
fn ordered_live_microtasks(rows: &Vec<Microtask>, parent: &String) -> (r: Vec<Microtask>)
    ensures
        microtasks_view(r@) == ordered_microtasks(microtasks_view(rows@), parent@),
{
    let live = select_live_microtasks(rows, parent);
    let ghost lv = microtasks_view(live@);
    let mut keys: Vec<i64> = Vec::new();
    let mut i: usize = 0;
    while i < live.len()
        invariant
            i <= live.len(),
            lv == microtasks_view(live@),
            keys@.len() == i,
            forall|k: int| 0 <= k < i ==> #[trigger] keys@[k] == lv[k].sort_order,
        decreases live.len() - i,
    {
        keys.push(live[i].sort_order);
        i += 1;
    }
    assert(keys@ =~= microtask_sort_keys(lv));
    let order = sort_by_int(&keys);
    let mut out: Vec<Microtask> = Vec::new();
    let mut k: usize = 0;
    while k < order.len()
        invariant
            k <= order.len(),
            lv == microtasks_view(live@),
            order@ == sorted_by_int(keys@, keys@.len()),
            forall|q: int| 0 <= q < order@.len() ==> #[trigger] order@[q] < keys@.len(),
            keys@.len() == live@.len(),
            out@.len() == k,
            forall|q: int| 0 <= q < k ==> #[trigger] out@[q]@ == lv[order@[q] as int],
        decreases order.len() - k,
    {
        assert(order@[k as int] < keys@.len());
        out.push(live[order[k]].clone());
        k += 1;
    }
    assert(microtasks_view(out@) =~= arranged(lv, order@));
    out
}

/// The sort orders of `s`, in order.
pub open spec fn task_sort_keys(s: Seq<TaskView>) -> Seq<i64> {
    s.map_values(|r: TaskView| r.sort_order)
}

/// The unarchived tasks whose `goal_id` is `parent`, in sort order (ties in
/// stored order).
pub open spec fn ordered_tasks(s: Seq<TaskView>, parent: Seq<char>) -> Seq<TaskView> {
    let live = live_tasks_of(s, parent);
    arranged(live, sorted_by_int(task_sort_keys(live), live.len()))
}

/// The unarchived tasks whose `goal_id` is `parent`, in stored order.
fn select_live_tasks(rows: &Vec<Task>, parent: &String) -> (r: Vec<Task>)
    ensures
        tasks_view(r@) == live_tasks_of(tasks_view(rows@), parent@),
{
    let ghost all = tasks_view(rows@);
    let mut out: Vec<Task> = Vec::new();
    let mut i: usize = 0;
    while i < rows.len()
        invariant
            i <= rows.len(),
            all == tasks_view(rows@),
            tasks_view(out@) == live_tasks_of(all.take(i as int), parent@),
        decreases rows.len() - i,
    {
        assert(all.take(i + 1) =~= all.take(i as int).push(all[i as int]));
        if rows[i].goal_id == *parent && !rows[i].is_archived {
            out.push(rows[i].clone());
        }
        assert(tasks_view(out@) =~= live_tasks_of(all.take(i + 1), parent@));
        i += 1;
    }
    assert(all.take(rows.len() as int) =~= all);
    out
}

/// The unarchived tasks whose `goal_id` is `parent`, in sort order.
fn ordered_live_tasks(rows: &Vec<Task>, parent: &String) -> (r: Vec<Task>)
    ensures
        tasks_view(r@) == ordered_tasks(tasks_view(rows@), parent@),
{
    let live = select_live_tasks(rows, parent);
    let ghost lv = tasks_view(live@);
    let mut keys: Vec<i64> = Vec::new();
    let mut i: usize = 0;
    while i < live.len()
        invariant
            i <= live.len(),
            lv == tasks_view(live@),
            keys@.len() == i,
            forall|k: int| 0 <= k < i ==> #[trigger] keys@[k] == lv[k].sort_order,
        decreases live.len() - i,
    {
        keys.push(live[i].sort_order);
        i += 1;
    }
    assert(keys@ =~= task_sort_keys(lv));
    let order = sort_by_int(&keys);
    let mut out: Vec<Task> = Vec::new();
    let mut k: usize = 0;
    while k < order.len()
        invariant
            k <= order.len(),
            lv == tasks_view(live@),
            order@ == sorted_by_int(keys@, keys@.len()),
            forall|q: int| 0 <= q < order@.len() ==> #[trigger] order@[q] < keys@.len(),
            keys@.len() == live@.len(),
            out@.len() == k,
            forall|q: int| 0 <= q < k ==> #[trigger] out@[q]@ == lv[order@[q] as int],
        decreases order.len() - k,
    {
        assert(order@[k as int] < keys@.len());
        out.push(live[order[k]].clone());
        k += 1;
    }
    assert(tasks_view(out@) =~= arranged(lv, order@));
    out
}

/// The sort orders of `s`, in order.
pub open spec fn goal_sort_keys(s: Seq<GoalView>) -> Seq<i64> {
    s.map_values(|r: GoalView| r.sort_order)
}

/// The unarchived goals whose `project_id` is `parent`, in sort order (ties in
/// stored order).
pub open spec fn ordered_goals(s: Seq<GoalView>, parent: Seq<char>) -> Seq<GoalView> {
    let live = live_goals_of(s, parent);
    arranged(live, sorted_by_int(goal_sort_keys(live), live.len()))
}

/// The unarchived goals whose `project_id` is `parent`, in stored order.
fn select_live_goals(rows: &Vec<Goal>, parent: &String) -> (r: Vec<Goal>)
    ensures
        goals_view(r@) == live_goals_of(goals_view(rows@), parent@),
{
    let ghost all = goals_view(rows@);
    let mut out: Vec<Goal> = Vec::new();
    let mut i: usize = 0;
    while i < rows.len()
        invariant
            i <= rows.len(),
            all == goals_view(rows@),
            goals_view(out@) == live_goals_of(all.take(i as int), parent@),
        decreases rows.len() - i,
    {
        assert(all.take(i + 1) =~= all.take(i as int).push(all[i as int]));
        if rows[i].project_id == *parent && !rows[i].is_archived {
            out.push(rows[i].clone());
        }
        assert(goals_view(out@) =~= live_goals_of(all.take(i + 1), parent@));
        i += 1;
    }
    assert(all.take(rows.len() as int) =~= all);
    out
}

/// The unarchived goals whose `project_id` is `parent`, in sort order.
fn ordered_live_goals(rows: &Vec<Goal>, parent: &String) -> (r: Vec<Goal>)
    ensures
        goals_view(r@) == ordered_goals(goals_view(rows@), parent@),
{
    let live = select_live_goals(rows, parent);
    let ghost lv = goals_view(live@);
    let mut keys: Vec<i64> = Vec::new();
    let mut i: usize = 0;
    while i < live.len()
        invariant
            i <= live.len(),
            lv == goals_view(live@),
            keys@.len() == i,
            forall|k: int| 0 <= k < i ==> #[trigger] keys@[k] == lv[k].sort_order,
        decreases live.len() - i,
    {
        keys.push(live[i].sort_order);
        i += 1;
    }
    assert(keys@ =~= goal_sort_keys(lv));
    let order = sort_by_int(&keys);
    let mut out: Vec<Goal> = Vec::new();
    let mut k: usize = 0;
    while k < order.len()
        invariant
            k <= order.len(),
            lv == goals_view(live@),
            order@ == sorted_by_int(keys@, keys@.len()),
            forall|q: int| 0 <= q < order@.len() ==> #[trigger] order@[q] < keys@.len(),
            keys@.len() == live@.len(),
            out@.len() == k,
            forall|q: int| 0 <= q < k ==> #[trigger] out@[q]@ == lv[order@[q] as int],
        decreases order.len() - k,
    {
        assert(order@[k as int] < keys@.len());
        out.push(live[order[k]].clone());
        k += 1;
    }
    assert(goals_view(out@) =~= arranged(lv, order@));
    out
}

/// A microtask as the tree shows it.
pub open spec fn tree_microtask_of(m: MicrotaskView) -> TreeMicrotaskView {
    TreeMicrotaskView {
        id: m.id,
        title: m.title,
        estimated_minutes: m.estimated_minutes,
        pomodoro_count: m.pomodoro_count,
        pomodoro_type_id: m.pomodoro_type_id,
        deadline: m.deadline,
        priority: m.priority,
        status: m.status,
    }
}

/// The microtasks of task `tid` as the tree shows them.
pub open spec fn tree_microtasks_of(v: PlannerView, tid: Seq<char>) -> Seq<TreeMicrotaskView> {
    ordered_microtasks(v.microtasks, tid).map_values(|m: MicrotaskView| tree_microtask_of(m))
}

/// A task with its microtasks as the tree shows it.
pub open spec fn tree_task_of(v: PlannerView, t: TaskView) -> TreeTaskView {
    TreeTaskView {
        id: t.id,
        title: t.title,
        description: t.description,
        deadline: t.deadline,
        priority: t.priority,
        status: t.status,
        microtasks: tree_microtasks_of(v, t.id),
    }
}

/// The tasks of goal `gid` as the tree shows them.
pub open spec fn tree_tasks_of(v: PlannerView, gid: Seq<char>) -> Seq<TreeTaskView> {
    ordered_tasks(v.tasks, gid).map_values(|t: TaskView| tree_task_of(v, t))
}

/// A goal with its tasks as the tree shows it.
pub open spec fn tree_goal_of(v: PlannerView, g: GoalView) -> TreeGoalView {
    TreeGoalView {
        id: g.id,
        title: g.title,
        description: g.description,
        deadline: g.deadline,
        priority: g.priority,
        status: g.status,
        tasks: tree_tasks_of(v, g.id),
    }
}

/// The goals of project `pid` as the tree shows them.
pub open spec fn tree_goals_of(v: PlannerView, pid: Seq<char>) -> Seq<TreeGoalView> {
    ordered_goals(v.goals, pid).map_values(|g: GoalView| tree_goal_of(v, g))
}

impl PlannerView {
    /// The tree of project `pid`: its first row with the id, with its
    /// unarchived goals, their unarchived tasks and those tasks' unarchived
    /// microtasks, each level in sort order.
    pub open spec fn project_tree(self, pid: Seq<char>) -> Result<ProjectTreeView, ErrorView> {
        if !self.has_project(pid) {
            Err(ErrorView::NotFound { entity: "project"@, id: pid })
        } else {
            let p = self.projects[first_position(project_ids(self.projects), pid)];
            Ok(
                ProjectTreeView {
                    id: p.id,
                    name: p.name,
                    description: p.description,
                    status: p.status,
                    goals: tree_goals_of(self, pid),
                },
            )
        }
    }
}

fn tree_microtasks(store: &Planner, tid: &String) -> (r: Vec<TreeMicrotask>)
    ensures
        tree_microtasks_view(r@) == tree_microtasks_of(store@, tid@),
{
    let rows = ordered_live_microtasks(&store.microtasks, tid);
    let ghost rv = microtasks_view(rows@);
    let mut out: Vec<TreeMicrotask> = Vec::new();
    let mut i: usize = 0;
    while i < rows.len()
        invariant
            i <= rows.len(),
            rv == microtasks_view(rows@),
            out@.len() == i,
            forall|k: int| 0 <= k < i ==> #[trigger] out@[k]@ == tree_microtask_of(rv[k]),
        decreases rows.len() - i,
    {
        let m = &rows[i];
        out.push(
            TreeMicrotask {
                id: m.id.clone(),
                title: m.title.clone(),
                estimated_minutes: m.estimated_minutes,
                pomodoro_count: m.pomodoro_count,
                pomodoro_type_id: copy_opt(&m.pomodoro_type_id),
                deadline: copy_opt(&m.deadline),
                priority: m.priority,
                status: m.status.clone(),
            },
        );
        i += 1;
    }
    assert(tree_microtasks_view(out@) =~= tree_microtasks_of(store@, tid@));
    out
}

fn tree_tasks(store: &Planner, gid: &String) -> (r: Vec<TreeTask>)
    ensures
        tree_tasks_view(r@) == tree_tasks_of(store@, gid@),
{
    let rows = ordered_live_tasks(&store.tasks, gid);
    let ghost rv = tasks_view(rows@);
    let mut out: Vec<TreeTask> = Vec::new();
    let mut i: usize = 0;
    while i < rows.len()
        invariant
            i <= rows.len(),
            rv == tasks_view(rows@),
            out@.len() == i,
            forall|k: int| 0 <= k < i ==> #[trigger] out@[k]@ == tree_task_of(store@, rv[k]),
        decreases rows.len() - i,
    {
        let t = &rows[i];
        let microtasks = tree_microtasks(store, &t.id);
        out.push(
            TreeTask {
                id: t.id.clone(),
                title: t.title.clone(),
                description: copy_opt(&t.description),
                deadline: copy_opt(&t.deadline),
                priority: t.priority,
                status: t.status.clone(),
                microtasks,
            },
        );
        i += 1;
    }
    assert(tree_tasks_view(out@) =~= tree_tasks_of(store@, gid@));
    out
}

fn tree_goals(store: &Planner, pid: &String) -> (r: Vec<TreeGoal>)
    ensures
        tree_goals_view(r@) == tree_goals_of(store@, pid@),
{
    let rows = ordered_live_goals(&store.goals, pid);
    let ghost rv = goals_view(rows@);
    let mut out: Vec<TreeGoal> = Vec::new();
    let mut i: usize = 0;
    while i < rows.len()
        invariant
            i <= rows.len(),
            rv == goals_view(rows@),
            out@.len() == i,
            forall|k: int| 0 <= k < i ==> #[trigger] out@[k]@ == tree_goal_of(store@, rv[k]),
        decreases rows.len() - i,
    {
        let g = &rows[i];
        let tasks = tree_tasks(store, &g.id);
        out.push(
            TreeGoal {
                id: g.id.clone(),
                title: g.title.clone(),
                description: copy_opt(&g.description),
                deadline: copy_opt(&g.deadline),
                priority: g.priority,
                status: g.status.clone(),
                tasks,
            },
        );
        i += 1;
    }
    assert(tree_goals_view(out@) =~= tree_goals_of(store@, pid@));
    out
}

/// The tree of project `project_id`, as `PlannerView::project_tree` says.
pub fn get_project_tree(store: &Planner, project_id: &str) -> (r: Result<ProjectTree, AppError>)
    ensures
        match store@.project_tree(project_id@) {
            Ok(t) => r matches Ok(x) && x@ == t,
            Err(e) => r matches Err(x) && x@ == e,
        },
{
    let pid = project_id.to_owned();
    match find_project(&store.projects, &pid) {
        None => Err(AppError::NotFound { entity: "project", id: pid }),
        Some(k) => {
            proof {
                lemma_first_position(project_ids(store@.projects), pid@, k as int);
            }
            let goals = tree_goals(store, &pid);
            let p = &store.projects[k];
            Ok(
                ProjectTree {
                    id: p.id.clone(),
                    name: p.name.clone(),
                    description: copy_opt(&p.description),
                    status: p.status.clone(),
                    goals,
                },
            )
        },
    }
}

} // verus!
