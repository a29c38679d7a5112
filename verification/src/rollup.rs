//! Completion roll-up: completing the last open microtask of a task
//! completes the task, and completing the last open task of a goal completes
//! the goal; reopening a microtask reopens its task and goal.

use vstd::prelude::*;
use crate::error::{AppError, ErrorView};
use crate::models::{Goal, GoalView, Microtask, MicrotaskView, Task, TaskView};
use crate::store::{
    goal_ids,
    has_live_open_microtask, has_live_open_task,
    find_microtask, find_task, first_position, goals_view, is_first_position,
    lemma_first_position, microtask_ids, microtasks_view, task_ids, tasks_view, Planner,
    PlannerView,
};
use crate::text::{completed_word, open_word, status_completed, status_open};

verus! {

/// What sqlx reports when a query that must return a row returns none.
pub open spec fn no_rows_message() -> Seq<char> {
    "no rows returned by a query that expected to return at least one row"@
}

/// Every microtask row with the id, marked completed at `now`.
pub open spec fn microtasks_completed(ms: Seq<MicrotaskView>, id: Seq<char>, now: Seq<char>) -> Seq<MicrotaskView> {
    ms.map_values(
        |x: MicrotaskView|
            if x.id == id {
                MicrotaskView { status: status_completed(), completed_at: Some(now), updated_at: now, ..x }
            } else {
                x
            },
    )
}

/// Every microtask row with the id, reopened at `now`.
pub open spec fn microtasks_reopened(ms: Seq<MicrotaskView>, id: Seq<char>, now: Seq<char>) -> Seq<MicrotaskView> {
    ms.map_values(
        |x: MicrotaskView|
            if x.id == id {
                MicrotaskView { status: status_open(), completed_at: None, updated_at: now, ..x }
            } else {
                x
            },
    )
}

/// Every open task row with the id, marked completed at `now`.
pub open spec fn tasks_completed(ts: Seq<TaskView>, id: Seq<char>, now: Seq<char>) -> Seq<TaskView> {
    ts.map_values(
        |t: TaskView|
            if t.id == id && t.status == status_open() {
                TaskView { status: status_completed(), completed_at: Some(now), updated_at: now, ..t }
            } else {
                t
            },
    )
}

/// Every completed task row with the id, reopened at `now`.
pub open spec fn tasks_reopened(ts: Seq<TaskView>, id: Seq<char>, now: Seq<char>) -> Seq<TaskView> {
    ts.map_values(
        |t: TaskView|
            if t.id == id && t.status == status_completed() {
                TaskView { status: status_open(), completed_at: None, updated_at: now, ..t }
            } else {
                t
            },
    )
}

/// Every open goal row with the id, marked completed at `now`.
pub open spec fn goals_completed(gs: Seq<GoalView>, id: Seq<char>, now: Seq<char>) -> Seq<GoalView> {
    gs.map_values(
        |g: GoalView|
            if g.id == id && g.status == status_open() {
                GoalView { status: status_completed(), completed_at: Some(now), updated_at: now, ..g }
            } else {
                g
            },
    )
}

/// Every completed goal row with the id, reopened at `now`.
pub open spec fn goals_reopened(gs: Seq<GoalView>, id: Seq<char>, now: Seq<char>) -> Seq<GoalView> {
    gs.map_values(
        |g: GoalView|
            if g.id == id && g.status == status_completed() {
                GoalView { status: status_open(), completed_at: None, updated_at: now, ..g }
            } else {
                g
            },
    )
}

impl PlannerView {
    /// The first microtask row with the id.
    pub open spec fn microtask_row(self, id: Seq<char>) -> MicrotaskView {
        self.microtasks[first_position(microtask_ids(self.microtasks), id)]
    }

    /// The first task row with the id.
    pub open spec fn task_row(self, id: Seq<char>) -> TaskView {
        self.tasks[first_position(task_ids(self.tasks), id)]
    }

    /// The first goal row with the id.
    pub open spec fn goal_row(self, id: Seq<char>) -> GoalView {
        self.goals[first_position(goal_ids(self.goals), id)]
    }

    /// Completing microtask `id` at `now`, with its roll-up: when no open,
    /// unarchived microtask is left under its task, the task completes; when
    /// then no open, unarchived task is left under the task's goal, the goal
    /// completes. The roll-up stops at the goal. Completing a completed
    /// microtask changes nothing.
    pub open spec fn complete_microtask(self, now: Seq<char>, id: Seq<char>) -> Result<PlannerView, ErrorView> {
        if !self.has_microtask(id) {
            Err(ErrorView::NotFound { entity: "microtask"@, id })
        } else {
            let m = self.microtask_row(id);
            if m.status == status_completed() {
                Ok(self)
            } else {
                let ms = microtasks_completed(self.microtasks, id, now);
                if has_live_open_microtask(ms, m.task_id) {
                    Ok(PlannerView { microtasks: ms, ..self })
                } else if !self.has_task(m.task_id) {
                    Err(ErrorView::Db(no_rows_message()))
                } else {
                    let ts = tasks_completed(self.tasks, m.task_id, now);
                    let gid = self.task_row(m.task_id).goal_id;
                    if has_live_open_task(ts, gid) {
                        Ok(PlannerView { microtasks: ms, tasks: ts, ..self })
                    } else {
                        Ok(
                            PlannerView {
                                microtasks: ms,
                                tasks: ts,
                                goals: goals_completed(self.goals, gid, now),
                                ..self
                            },
                        )
                    }
                }
            }
        }
    }

    /// Reopening microtask `id` at `now`: its task and the task's goal reopen
    /// when they are completed. Reopening an open microtask changes nothing.
    pub open spec fn uncomplete_microtask(self, now: Seq<char>, id: Seq<char>) -> Result<PlannerView, ErrorView> {
        if !self.has_microtask(id) {
            Err(ErrorView::NotFound { entity: "microtask"@, id })
        } else {
            let m = self.microtask_row(id);
            if m.status == status_open() {
                Ok(self)
            } else if !self.has_task(m.task_id) {
                Err(ErrorView::Db(no_rows_message()))
            } else {
                let gid = self.task_row(m.task_id).goal_id;
                Ok(
                    PlannerView {
                        microtasks: microtasks_reopened(self.microtasks, id, now),
                        tasks: tasks_reopened(self.tasks, m.task_id, now),
                        goals: goals_reopened(self.goals, gid, now),
                        ..self
                    },
                )
            }
        }
    }
}

pub(crate) fn mark_microtasks_completed(rows: &mut Vec<Microtask>, id: &String, now: &String)
    ensures
        microtasks_view(final(rows)@) == microtasks_completed(microtasks_view(old(rows)@), id@, now@),
{
    let ghost old_rows = rows@;
    let mut i: usize = 0;
    while i < rows.len()
        invariant
            i <= rows.len(),
            rows@.len() == old_rows.len(),
            forall|j: int| 0 <= j < i ==> #[trigger] rows@[j]@ == microtasks_completed(microtasks_view(old_rows), id@, now@)[j],
            forall|j: int| i <= j < rows@.len() ==> #[trigger] rows@[j] == old_rows[j],
        decreases rows.len() - i,
    {
        if rows[i].id == *id {
            let mut m = rows[i].clone();
            m.status = completed_word();
            m.completed_at = Some(now.clone());
            m.updated_at = now.clone();
            rows.set(i, m);
        }
        i += 1;
    }
    assert(microtasks_view(rows@) =~= microtasks_completed(microtasks_view(old_rows), id@, now@));
}

pub(crate) fn mark_microtasks_reopened(rows: &mut Vec<Microtask>, id: &String, now: &String)
    ensures
        microtasks_view(final(rows)@) == microtasks_reopened(microtasks_view(old(rows)@), id@, now@),
{
    let ghost old_rows = rows@;
    let mut i: usize = 0;
    while i < rows.len()
        invariant
            i <= rows.len(),
            rows@.len() == old_rows.len(),
            forall|j: int| 0 <= j < i ==> #[trigger] rows@[j]@ == microtasks_reopened(microtasks_view(old_rows), id@, now@)[j],
            forall|j: int| i <= j < rows@.len() ==> #[trigger] rows@[j] == old_rows[j],
        decreases rows.len() - i,
    {
        if rows[i].id == *id {
            let mut m = rows[i].clone();
            m.status = open_word();
            m.completed_at = None;
            m.updated_at = now.clone();
            rows.set(i, m);
        }
        i += 1;
    }
    assert(microtasks_view(rows@) =~= microtasks_reopened(microtasks_view(old_rows), id@, now@));
}

pub(crate) fn mark_tasks_completed(rows: &mut Vec<Task>, id: &String, now: &String)
    ensures
        tasks_view(final(rows)@) == tasks_completed(tasks_view(old(rows)@), id@, now@),
{
    let ghost old_rows = rows@;
    let from = open_word();
    let mut i: usize = 0;
    while i < rows.len()
        invariant
            i <= rows.len(),
            rows@.len() == old_rows.len(),
            from@ == status_open(),
            forall|j: int| 0 <= j < i ==> #[trigger] rows@[j]@ == tasks_completed(tasks_view(old_rows), id@, now@)[j],
            forall|j: int| i <= j < rows@.len() ==> #[trigger] rows@[j] == old_rows[j],
        decreases rows.len() - i,
    {
        if rows[i].id == *id && rows[i].status == from {
            let mut m = rows[i].clone();
            m.status = completed_word();
            m.completed_at = Some(now.clone());
            m.updated_at = now.clone();
            rows.set(i, m);
        }
        i += 1;
    }
    assert(tasks_view(rows@) =~= tasks_completed(tasks_view(old_rows), id@, now@));
}

pub(crate) fn mark_tasks_reopened(rows: &mut Vec<Task>, id: &String, now: &String)
    ensures
        tasks_view(final(rows)@) == tasks_reopened(tasks_view(old(rows)@), id@, now@),
{
    let ghost old_rows = rows@;
    let from = completed_word();
    let mut i: usize = 0;
    while i < rows.len()
        invariant
            i <= rows.len(),
            rows@.len() == old_rows.len(),
            from@ == status_completed(),
            forall|j: int| 0 <= j < i ==> #[trigger] rows@[j]@ == tasks_reopened(tasks_view(old_rows), id@, now@)[j],
            forall|j: int| i <= j < rows@.len() ==> #[trigger] rows@[j] == old_rows[j],
        decreases rows.len() - i,
    {
        if rows[i].id == *id && rows[i].status == from {
            let mut m = rows[i].clone();
            m.status = open_word();
            m.completed_at = None;
            m.updated_at = now.clone();
            rows.set(i, m);
        }
        i += 1;
    }
    assert(tasks_view(rows@) =~= tasks_reopened(tasks_view(old_rows), id@, now@));
}

pub(crate) fn mark_goals_completed(rows: &mut Vec<Goal>, id: &String, now: &String)
    ensures
        goals_view(final(rows)@) == goals_completed(goals_view(old(rows)@), id@, now@),
{
    let ghost old_rows = rows@;
    let from = open_word();
    let mut i: usize = 0;
    while i < rows.len()
        invariant
            i <= rows.len(),
            rows@.len() == old_rows.len(),
            from@ == status_open(),
            forall|j: int| 0 <= j < i ==> #[trigger] rows@[j]@ == goals_completed(goals_view(old_rows), id@, now@)[j],
            forall|j: int| i <= j < rows@.len() ==> #[trigger] rows@[j] == old_rows[j],
        decreases rows.len() - i,
    {
        if rows[i].id == *id && rows[i].status == from {
            let mut m = rows[i].clone();
            m.status = completed_word();
            m.completed_at = Some(now.clone());
            m.updated_at = now.clone();
            rows.set(i, m);
        }
        i += 1;
    }
    assert(goals_view(rows@) =~= goals_completed(goals_view(old_rows), id@, now@));
}

pub(crate) fn mark_goals_reopened(rows: &mut Vec<Goal>, id: &String, now: &String)
    ensures
        goals_view(final(rows)@) == goals_reopened(goals_view(old(rows)@), id@, now@),
{
    let ghost old_rows = rows@;
    let from = completed_word();
    let mut i: usize = 0;
    while i < rows.len()
        invariant
            i <= rows.len(),
            rows@.len() == old_rows.len(),
            from@ == status_completed(),
            forall|j: int| 0 <= j < i ==> #[trigger] rows@[j]@ == goals_reopened(goals_view(old_rows), id@, now@)[j],
            forall|j: int| i <= j < rows@.len() ==> #[trigger] rows@[j] == old_rows[j],
        decreases rows.len() - i,
    {
        if rows[i].id == *id && rows[i].status == from {
            let mut m = rows[i].clone();
            m.status = open_word();
            m.completed_at = None;
            m.updated_at = now.clone();
            rows.set(i, m);
        }
        i += 1;
    }
    assert(goals_view(rows@) =~= goals_reopened(goals_view(old_rows), id@, now@));
}

} // verus!
