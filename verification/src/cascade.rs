//! Deleting rows, with the cascades of the store's foreign keys: a deleted
//! project takes its goals, a deleted goal its tasks, a deleted task its
//! microtasks; a deleted pomodoro type is cleared from the microtasks that
//! used it.

use vstd::prelude::*;
use crate::models::{
    Goal, GoalView, Microtask, MicrotaskView, PomodoroType, PomodoroTypeView, Project,
    ProjectView, Task, TaskView,
};
use crate::reorder::{contains_text, texts_view};
use crate::store::{goal_ids, project_ids, task_ids, goals_view, microtasks_view, pomodoro_types_view, projects_view, tasks_view};

verus! {

broadcast use {Seq::lemma_filter_push, Seq::lemma_push_map_commute};

/// The project rows whose id is not in `ids`.
pub open spec fn projects_without_ids(s: Seq<ProjectView>, ids: Seq<Seq<char>>) -> Seq<ProjectView> {
    s.filter(|r: ProjectView| !ids.contains(r.id))
}

/// The goal rows whose id is not in `ids`.
pub open spec fn goals_without_ids(s: Seq<GoalView>, ids: Seq<Seq<char>>) -> Seq<GoalView> {
    s.filter(|r: GoalView| !ids.contains(r.id))
}

/// The goal rows whose project is not in `ids`.
pub open spec fn goals_outside_projects(s: Seq<GoalView>, ids: Seq<Seq<char>>) -> Seq<GoalView> {
    s.filter(|r: GoalView| !ids.contains(r.project_id))
}

/// The goal rows whose project is in `ids`.
pub open spec fn goals_inside_projects(s: Seq<GoalView>, ids: Seq<Seq<char>>) -> Seq<GoalView> {
    s.filter(|r: GoalView| ids.contains(r.project_id))
}

/// The task rows whose id is not in `ids`.
pub open spec fn tasks_without_ids(s: Seq<TaskView>, ids: Seq<Seq<char>>) -> Seq<TaskView> {
    s.filter(|r: TaskView| !ids.contains(r.id))
}

/// The task rows whose goal is not in `ids`.
pub open spec fn tasks_outside_goals(s: Seq<TaskView>, ids: Seq<Seq<char>>) -> Seq<TaskView> {
    s.filter(|r: TaskView| !ids.contains(r.goal_id))
}

/// The task rows whose goal is in `ids`.
pub open spec fn tasks_inside_goals(s: Seq<TaskView>, ids: Seq<Seq<char>>) -> Seq<TaskView> {
    s.filter(|r: TaskView| ids.contains(r.goal_id))
}

/// The microtask rows whose id is not in `ids`.
pub open spec fn microtasks_without_ids(s: Seq<MicrotaskView>, ids: Seq<Seq<char>>) -> Seq<MicrotaskView> {
    s.filter(|r: MicrotaskView| !ids.contains(r.id))
}

/// The microtask rows whose task is not in `ids`.
pub open spec fn microtasks_outside_tasks(s: Seq<MicrotaskView>, ids: Seq<Seq<char>>) -> Seq<MicrotaskView> {
    s.filter(|r: MicrotaskView| !ids.contains(r.task_id))
}

/// The pomodoro type rows whose id is not in `ids`.
pub open spec fn types_without_ids(s: Seq<PomodoroTypeView>, ids: Seq<Seq<char>>) -> Seq<PomodoroTypeView> {
    s.filter(|r: PomodoroTypeView| !ids.contains(r.id))
}

/// The rows of `rows` that `projects_without_ids` keeps, in order.
pub fn keep_projects_without_ids(rows: &Vec<Project>, ids: &Vec<String>) -> (r: Vec<Project>)
    ensures
        projects_view(r@) == projects_without_ids(projects_view(rows@), texts_view(ids@)),
{
    let ghost all = projects_view(rows@);
    let ghost t = texts_view(ids@);
    let mut out: Vec<Project> = Vec::new();
    let mut i: usize = 0;
    while i < rows.len()
        invariant
            i <= rows.len(),
            all == projects_view(rows@),
            t == texts_view(ids@),
            projects_view(out@) == projects_without_ids(all.take(i as int), t),
        decreases rows.len() - i,
    {
        assert(all.take(i + 1) =~= all.take(i as int).push(all[i as int]));
        if !contains_text(ids.as_slice(), &rows[i].id) {
            out.push(rows[i].clone());
        }
        assert(projects_view(out@) =~= projects_without_ids(all.take(i + 1), t));
        i += 1;
    }
    assert(all.take(rows.len() as int) =~= all);
    out
}

/// The rows of `rows` that `goals_without_ids` keeps, in order.
pub fn keep_goals_without_ids(rows: &Vec<Goal>, ids: &Vec<String>) -> (r: Vec<Goal>)
    ensures
        goals_view(r@) == goals_without_ids(goals_view(rows@), texts_view(ids@)),
{
    let ghost all = goals_view(rows@);
    let ghost t = texts_view(ids@);
    let mut out: Vec<Goal> = Vec::new();
    let mut i: usize = 0;
    while i < rows.len()
        invariant
            i <= rows.len(),
            all == goals_view(rows@),
            t == texts_view(ids@),
            goals_view(out@) == goals_without_ids(all.take(i as int), t),
        decreases rows.len() - i,
    {
        assert(all.take(i + 1) =~= all.take(i as int).push(all[i as int]));
        if !contains_text(ids.as_slice(), &rows[i].id) {
            out.push(rows[i].clone());
        }
        assert(goals_view(out@) =~= goals_without_ids(all.take(i + 1), t));
        i += 1;
    }
    assert(all.take(rows.len() as int) =~= all);
    out
}

/// The rows of `rows` that `goals_outside_projects` keeps, in order.
pub fn keep_goals_outside_projects(rows: &Vec<Goal>, ids: &Vec<String>) -> (r: Vec<Goal>)
    ensures
        goals_view(r@) == goals_outside_projects(goals_view(rows@), texts_view(ids@)),
{
    let ghost all = goals_view(rows@);
    let ghost t = texts_view(ids@);
    let mut out: Vec<Goal> = Vec::new();
    let mut i: usize = 0;
    while i < rows.len()
        invariant
            i <= rows.len(),
            all == goals_view(rows@),
            t == texts_view(ids@),
            goals_view(out@) == goals_outside_projects(all.take(i as int), t),
        decreases rows.len() - i,
    {
        assert(all.take(i + 1) =~= all.take(i as int).push(all[i as int]));
        if !contains_text(ids.as_slice(), &rows[i].project_id) {
            out.push(rows[i].clone());
        }
        assert(goals_view(out@) =~= goals_outside_projects(all.take(i + 1), t));
        i += 1;
    }
    assert(all.take(rows.len() as int) =~= all);
    out
}

/// The rows of `rows` that `goals_inside_projects` keeps, in order.
pub fn select_goals_inside_projects(rows: &Vec<Goal>, ids: &Vec<String>) -> (r: Vec<Goal>)
    ensures
        goals_view(r@) == goals_inside_projects(goals_view(rows@), texts_view(ids@)),
{
    let ghost all = goals_view(rows@);
    let ghost t = texts_view(ids@);
    let mut out: Vec<Goal> = Vec::new();
    let mut i: usize = 0;
    while i < rows.len()
        invariant
            i <= rows.len(),
            all == goals_view(rows@),
            t == texts_view(ids@),
            goals_view(out@) == goals_inside_projects(all.take(i as int), t),
        decreases rows.len() - i,
    {
        assert(all.take(i + 1) =~= all.take(i as int).push(all[i as int]));
        if contains_text(ids.as_slice(), &rows[i].project_id) {
            out.push(rows[i].clone());
        }
        assert(goals_view(out@) =~= goals_inside_projects(all.take(i + 1), t));
        i += 1;
    }
    assert(all.take(rows.len() as int) =~= all);
    out
}

/// The rows of `rows` that `tasks_without_ids` keeps, in order.
pub fn keep_tasks_without_ids(rows: &Vec<Task>, ids: &Vec<String>) -> (r: Vec<Task>)
    ensures
        tasks_view(r@) == tasks_without_ids(tasks_view(rows@), texts_view(ids@)),
{
    let ghost all = tasks_view(rows@);
    let ghost t = texts_view(ids@);
    let mut out: Vec<Task> = Vec::new();
    let mut i: usize = 0;
    while i < rows.len()
        invariant
            i <= rows.len(),
            all == tasks_view(rows@),
            t == texts_view(ids@),
            tasks_view(out@) == tasks_without_ids(all.take(i as int), t),
        decreases rows.len() - i,
    {
        assert(all.take(i + 1) =~= all.take(i as int).push(all[i as int]));
        if !contains_text(ids.as_slice(), &rows[i].id) {
            out.push(rows[i].clone());
        }
        assert(tasks_view(out@) =~= tasks_without_ids(all.take(i + 1), t));
        i += 1;
    }
    assert(all.take(rows.len() as int) =~= all);
    out
}

/// The rows of `rows` that `tasks_outside_goals` keeps, in order.
pub fn keep_tasks_outside_goals(rows: &Vec<Task>, ids: &Vec<String>) -> (r: Vec<Task>)
    ensures
        tasks_view(r@) == tasks_outside_goals(tasks_view(rows@), texts_view(ids@)),
{
    let ghost all = tasks_view(rows@);
    let ghost t = texts_view(ids@);
    let mut out: Vec<Task> = Vec::new();
    let mut i: usize = 0;
    while i < rows.len()
        invariant
            i <= rows.len(),
            all == tasks_view(rows@),
            t == texts_view(ids@),
            tasks_view(out@) == tasks_outside_goals(all.take(i as int), t),
        decreases rows.len() - i,
    {
        assert(all.take(i + 1) =~= all.take(i as int).push(all[i as int]));
        if !contains_text(ids.as_slice(), &rows[i].goal_id) {
            out.push(rows[i].clone());
        }
        assert(tasks_view(out@) =~= tasks_outside_goals(all.take(i + 1), t));
        i += 1;
    }
    assert(all.take(rows.len() as int) =~= all);
    out
}

/// The rows of `rows` that `tasks_inside_goals` keeps, in order.
pub fn select_tasks_inside_goals(rows: &Vec<Task>, ids: &Vec<String>) -> (r: Vec<Task>)
    ensures
        tasks_view(r@) == tasks_inside_goals(tasks_view(rows@), texts_view(ids@)),
{
    let ghost all = tasks_view(rows@);
    let ghost t = texts_view(ids@);
    let mut out: Vec<Task> = Vec::new();
    let mut i: usize = 0;
    while i < rows.len()
        invariant
            i <= rows.len(),
            all == tasks_view(rows@),
            t == texts_view(ids@),
            tasks_view(out@) == tasks_inside_goals(all.take(i as int), t),
        decreases rows.len() - i,
    {
        assert(all.take(i + 1) =~= all.take(i as int).push(all[i as int]));
        if contains_text(ids.as_slice(), &rows[i].goal_id) {
            out.push(rows[i].clone());
        }
        assert(tasks_view(out@) =~= tasks_inside_goals(all.take(i + 1), t));
        i += 1;
    }
    assert(all.take(rows.len() as int) =~= all);
    out
}

/// The rows of `rows` that `microtasks_without_ids` keeps, in order.
pub fn keep_microtasks_without_ids(rows: &Vec<Microtask>, ids: &Vec<String>) -> (r: Vec<Microtask>)
    ensures
        microtasks_view(r@) == microtasks_without_ids(microtasks_view(rows@), texts_view(ids@)),
{
    let ghost all = microtasks_view(rows@);
    let ghost t = texts_view(ids@);
    let mut out: Vec<Microtask> = Vec::new();
    let mut i: usize = 0;
    while i < rows.len()
        invariant
            i <= rows.len(),
            all == microtasks_view(rows@),
            t == texts_view(ids@),
            microtasks_view(out@) == microtasks_without_ids(all.take(i as int), t),
        decreases rows.len() - i,
    {
        assert(all.take(i + 1) =~= all.take(i as int).push(all[i as int]));
        if !contains_text(ids.as_slice(), &rows[i].id) {
            out.push(rows[i].clone());
        }
        assert(microtasks_view(out@) =~= microtasks_without_ids(all.take(i + 1), t));
        i += 1;
    }
    assert(all.take(rows.len() as int) =~= all);
    out
}

/// The rows of `rows` that `microtasks_outside_tasks` keeps, in order.
pub fn keep_microtasks_outside_tasks(rows: &Vec<Microtask>, ids: &Vec<String>) -> (r: Vec<Microtask>)
    ensures
        microtasks_view(r@) == microtasks_outside_tasks(microtasks_view(rows@), texts_view(ids@)),
{
    let ghost all = microtasks_view(rows@);
    let ghost t = texts_view(ids@);
    let mut out: Vec<Microtask> = Vec::new();
    let mut i: usize = 0;
    while i < rows.len()
        invariant
            i <= rows.len(),
            all == microtasks_view(rows@),
            t == texts_view(ids@),
            microtasks_view(out@) == microtasks_outside_tasks(all.take(i as int), t),
        decreases rows.len() - i,
    {
        assert(all.take(i + 1) =~= all.take(i as int).push(all[i as int]));
        if !contains_text(ids.as_slice(), &rows[i].task_id) {
            out.push(rows[i].clone());
        }
        assert(microtasks_view(out@) =~= microtasks_outside_tasks(all.take(i + 1), t));
        i += 1;
    }
    assert(all.take(rows.len() as int) =~= all);
    out
}

/// The rows of `rows` that `types_without_ids` keeps, in order.
pub fn keep_types_without_ids(rows: &Vec<PomodoroType>, ids: &Vec<String>) -> (r: Vec<PomodoroType>)
    ensures
        pomodoro_types_view(r@) == types_without_ids(pomodoro_types_view(rows@), texts_view(ids@)),
{
    let ghost all = pomodoro_types_view(rows@);
    let ghost t = texts_view(ids@);
    let mut out: Vec<PomodoroType> = Vec::new();
    let mut i: usize = 0;
    while i < rows.len()
        invariant
            i <= rows.len(),
            all == pomodoro_types_view(rows@),
            t == texts_view(ids@),
            pomodoro_types_view(out@) == types_without_ids(all.take(i as int), t),
        decreases rows.len() - i,
    {
        assert(all.take(i + 1) =~= all.take(i as int).push(all[i as int]));
        if !contains_text(ids.as_slice(), &rows[i].id) {
            out.push(rows[i].clone());
        }
        assert(pomodoro_types_view(out@) =~= types_without_ids(all.take(i + 1), t));
        i += 1;
    }
    assert(all.take(rows.len() as int) =~= all);
    out
}

/// The ids of `rows`, in order.
pub fn project_ids_of(rows: &Vec<Project>) -> (r: Vec<String>)
    ensures
        texts_view(r@) == project_ids(projects_view(rows@)),
{
    let mut out: Vec<String> = Vec::new();
    let mut i: usize = 0;
    while i < rows.len()
        invariant
            i <= rows.len(),
            out@.len() == i,
            forall|j: int| 0 <= j < i ==> #[trigger] out@[j]@ == rows@[j].id@,
        decreases rows.len() - i,
    {
        out.push(rows[i].id.clone());
        i += 1;
    }
    assert(texts_view(out@) =~= project_ids(projects_view(rows@)));
    out
}

/// The ids of `rows`, in order.
pub fn goal_ids_of(rows: &Vec<Goal>) -> (r: Vec<String>)
    ensures
        texts_view(r@) == goal_ids(goals_view(rows@)),
{
    let mut out: Vec<String> = Vec::new();
    let mut i: usize = 0;
    while i < rows.len()
        invariant
            i <= rows.len(),
            out@.len() == i,
            forall|j: int| 0 <= j < i ==> #[trigger] out@[j]@ == rows@[j].id@,
        decreases rows.len() - i,
    {
        out.push(rows[i].id.clone());
        i += 1;
    }
    assert(texts_view(out@) =~= goal_ids(goals_view(rows@)));
    out
}

/// The ids of `rows`, in order.
pub fn task_ids_of(rows: &Vec<Task>) -> (r: Vec<String>)
    ensures
        texts_view(r@) == task_ids(tasks_view(rows@)),
{
    let mut out: Vec<String> = Vec::new();
    let mut i: usize = 0;
    while i < rows.len()
        invariant
            i <= rows.len(),
            out@.len() == i,
            forall|j: int| 0 <= j < i ==> #[trigger] out@[j]@ == rows@[j].id@,
        decreases rows.len() - i,
    {
        out.push(rows[i].id.clone());
        i += 1;
    }
    assert(texts_view(out@) =~= task_ids(tasks_view(rows@)));
    out
}

} // verus!
