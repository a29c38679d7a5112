//! Tasks: creation under a goal, edits, archiving, deletion with its
//! cascade, and ordering within the goal.

use vstd::prelude::*;
use crate::precheck::{blank_settled, settle_blank, settles_as};
use crate::time::{clock_error, clock_unreadable, is_utc_timestamp, now_iso8601};
use crate::error::{AppError, ErrorView};
use crate::models::{Task, TaskView};
use crate::reorder::{check_reorder, is_exact_reorder, new_sort_order, position_of_text, texts_view};
use crate::store::{find_task, find_goal, task_ids, tasks_view, Planner, PlannerView};
use crate::cascade::{
    keep_microtasks_outside_tasks, keep_tasks_without_ids, microtasks_outside_tasks,
    tasks_without_ids,
};
use crate::sort_order::{task_sort_orders, max_task_sort_order, next_sort_order, seq_max};
use crate::text::{completed_word, open_word, opt_str, own_opt, status_completed, status_open, trim_text, trim_view};
use crate::models::{Goal, GoalView};
use crate::store::{goal_ids, goals_view};

verus! {

broadcast use {Seq::lemma_filter_push, Seq::lemma_push_map_commute};

/// The unarchived tasks of goal `pid`, in stored order.
pub open spec fn live_tasks_of(gs: Seq<TaskView>, pid: Seq<char>) -> Seq<TaskView> {
    gs.filter(|g: TaskView| g.goal_id == pid && !g.is_archived)
}

/// Every task row named in `ordered` gets its position there as its sort
/// order, stamped `now`.
pub open spec fn tasks_reordered(gs: Seq<TaskView>, ordered: Seq<Seq<char>>, now: Seq<char>) -> Seq<TaskView> {
    gs.map_values(
        |g: TaskView|
            if ordered.contains(g.id) {
                TaskView { sort_order: new_sort_order(ordered, g.id), updated_at: now, ..g }
            } else {
                g
            },
    )
}

/// Every task row with the id, with the new title, description, deadline
/// and priority, stamped `now`.
pub open spec fn tasks_edited(
    gs: Seq<TaskView>,
    id: Seq<char>,
    title: Seq<char>,
    description: Option<Seq<char>>,
    deadline: Option<Seq<char>>,
    priority: i64,
    now: Seq<char>,
) -> Seq<TaskView> {
    gs.map_values(
        |g: TaskView|
            if g.id == id {
                TaskView { title, description, deadline, priority, updated_at: now, ..g }
            } else {
                g
            },
    )
}

/// Every task row with the id, archived and stamped `now`.
pub open spec fn tasks_archived(gs: Seq<TaskView>, id: Seq<char>, now: Seq<char>) -> Seq<TaskView> {
    gs.map_values(
        |g: TaskView| if g.id == id { TaskView { is_archived: true, updated_at: now, ..g } } else { g },
    )
}

/// Some goal row with the id is open and unarchived.
pub open spec fn has_open_live_goal(gs: Seq<GoalView>, id: Seq<char>) -> bool {
    exists|j: int|
        0 <= j < gs.len() && #[trigger] gs[j].id == id && gs[j].status == status_open() && !gs[j].is_archived
}

/// Whether some goal row with the id is open and unarchived.
fn find_open_live_goal(rows: &Vec<Goal>, id: &String) -> (r: bool)
    ensures
        r == has_open_live_goal(goals_view(rows@), id@),
{
    let open = open_word();
    let mut i: usize = 0;
    while i < rows.len()
        invariant
            i <= rows.len(),
            open@ == status_open(),
            forall|j: int|
                0 <= j < i ==> !(#[trigger] rows@[j].id@ == id@ && rows@[j].status@ == status_open()
                    && !rows@[j].is_archived),
        decreases rows.len() - i,
    {
        if rows[i].id == *id && rows[i].status == open && !rows[i].is_archived {
            assert(goals_view(rows@)[i as int].id == id@);
            return true;
        }
        i += 1;
    }
    assert forall|j: int| 0 <= j < goals_view(rows@).len() implies !(#[trigger] goals_view(rows@)[j].id == id@
        && goals_view(rows@)[j].status == status_open() && !goals_view(rows@)[j].is_archived) by {
        assert(goals_view(rows@)[j] == rows@[j]@);
    }
    false
}

impl PlannerView {
    /// Creating task `id` under goal `pid`: the title is trimmed and must
    /// not be blank, the goal must exist and be open and unarchived, the id
    /// must be new; the task is open, unarchived, stamped `now`, and placed
    /// after its siblings.
    pub open spec fn create_task(
        self,
        now: Seq<char>,
        id: Seq<char>,
        pid: Seq<char>,
        title: Seq<char>,
        description: Option<Seq<char>>,
        deadline: Option<Seq<char>>,
        priority: i64,
    ) -> Result<PlannerView, ErrorView> {
        let t = trim_view(title);
        let next = next_sort_order(seq_max(task_sort_orders(self.tasks, pid)));
        if t.len() == 0 {
            Err(ErrorView::Validation("task title must not be empty"@))
        } else if !has_open_live_goal(self.goals, pid) {
            if !self.has_goal(pid) {
                Err(ErrorView::NotFound { entity: "goal"@, id: pid })
            } else if self.goal_row(pid).status == status_completed() {
                Err(ErrorView::Validation("cannot create a task under a completed goal"@))
            } else {
                Err(ErrorView::Validation("cannot create a task under an archived goal"@))
            }
        } else if self.has_task(id) {
            Err(ErrorView::Db("error returned from database: (code: 1555) UNIQUE constraint failed: tasks.id"@))
        } else if next is None {
            Err(ErrorView::Db("integer overflow"@))
        } else {
            Ok(
                PlannerView {
                    tasks: self.tasks.push(
                        TaskView {
                            id,
                            goal_id: pid,
                            title: t,
                            description,
                            deadline,
                            priority,
                            sort_order: next->Some_0,
                            status: status_open(),
                            is_archived: false,
                            completed_at: None,
                            created_at: now,
                            updated_at: now,
                        },
                    ),
                    ..self
                },
            )
        }
    }

    /// Editing task `id`: the trimmed title must not be blank; title,
    /// description, deadline and priority take the given values.
    pub open spec fn update_task(
        self,
        now: Seq<char>,
        id: Seq<char>,
        title: Seq<char>,
        description: Option<Seq<char>>,
        deadline: Option<Seq<char>>,
        priority: i64,
    ) -> Result<PlannerView, ErrorView> {
        let t = trim_view(title);
        if t.len() == 0 {
            Err(ErrorView::Validation("task title must not be empty"@))
        } else if !self.has_task(id) {
            Err(ErrorView::NotFound { entity: "task"@, id })
        } else {
            Ok(PlannerView { tasks: tasks_edited(self.tasks, id, t, description, deadline, priority, now), ..self })
        }
    }

    /// Archiving task `id`.
    pub open spec fn archive_task(self, now: Seq<char>, id: Seq<char>) -> Result<PlannerView, ErrorView> {
        if !self.has_task(id) {
            Err(ErrorView::NotFound { entity: "task"@, id })
        } else {
            Ok(PlannerView { tasks: tasks_archived(self.tasks, id, now), ..self })
        }
    }

    /// Deleting task `id`, with its microtasks.
    pub open spec fn delete_task(self, id: Seq<char>) -> Result<PlannerView, ErrorView> {
        if !self.has_task(id) {
            Err(ErrorView::NotFound { entity: "task"@, id })
        } else {
            let gone = seq![id];
            Ok(
                PlannerView {
                    tasks: tasks_without_ids(self.tasks, gone),
                    microtasks: microtasks_outside_tasks(self.microtasks, gone),
                    ..self
                },
            )
        }
    }

    /// Reordering the tasks of goal `pid`: `ordered` must list exactly its
    /// unarchived tasks, each once; each then takes its position as sort
    /// order.
    pub open spec fn reorder_tasks(self, now: Seq<char>, pid: Seq<char>, ordered: Seq<Seq<char>>) -> Result<PlannerView, ErrorView> {
        if !is_exact_reorder(task_ids(live_tasks_of(self.tasks, pid)), ordered) {
            Err(ErrorView::Validation("ordered_ids must contain exactly the goal's non-archived tasks"@))
        } else {
            Ok(PlannerView { tasks: tasks_reordered(self.tasks, ordered, now), ..self })
        }
    }
}

/// The ids of the unarchived tasks of goal `pid`, in stored order.
fn live_task_ids(rows: &Vec<Task>, pid: &String) -> (r: Vec<String>)
    ensures
        texts_view(r@) == task_ids(live_tasks_of(tasks_view(rows@), pid@)),
{
    let ghost all = tasks_view(rows@);
    let mut out: Vec<String> = Vec::new();
    let mut i: usize = 0;
    while i < rows.len()
        invariant
            i <= rows.len(),
            all == tasks_view(rows@),
            texts_view(out@) == task_ids(live_tasks_of(all.take(i as int), pid@)),
        decreases rows.len() - i,
    {
        assert(all.take(i + 1) =~= all.take(i as int).push(all[i as int]));
        if rows[i].goal_id == *pid && !rows[i].is_archived {
            out.push(rows[i].id.clone());
        }
        assert(texts_view(out@) =~= task_ids(live_tasks_of(all.take(i + 1), pid@)));
        i += 1;
    }
    assert(all.take(rows.len() as int) =~= all);
    out
}

/// Reorders the tasks of goal `goal_id`: `ordered_ids` must list
/// exactly its unarchived tasks, each once, and each takes its position as
/// sort order. On an error the store is left as it was.
pub fn reorder_tasks_at(store: &mut Planner, now: &str, goal_id: &str, ordered_ids: &[String]) -> (r: Result<(), AppError>)
    requires
        ordered_ids@.len() <= i64::MAX,
    ensures
        match old(store)@.reorder_tasks(now@, goal_id@, texts_view(ordered_ids@)) {
            Ok(v) => r is Ok && final(store)@ == v,
            Err(e) => r matches Err(x) && x@ == e && final(store)@ == old(store)@,
        },
{
    let ghost v0 = store@;
    let ghost o = texts_view(ordered_ids@);
    let pid = goal_id.to_owned();
    let existing = live_task_ids(&store.tasks, &pid);
    if !check_reorder(&existing, ordered_ids) {
        return Err(
            AppError::Validation(
                "ordered_ids must contain exactly the goal's non-archived tasks".to_owned(),
            ),
        );
    }
    let now_s = now.to_owned();
    let mut i: usize = 0;
    while i < store.tasks.len()
        invariant
            i <= store.tasks.len(),
            store.tasks@.len() == v0.tasks.len(),
            o == texts_view(ordered_ids@),
            ordered_ids@.len() <= i64::MAX,
            now_s@ == now@,
            forall|j: int| 0 <= j < i ==> #[trigger] store.tasks@[j]@ == tasks_reordered(v0.tasks, o, now@)[j],
            forall|j: int| i <= j < store.tasks@.len() ==> #[trigger] store.tasks@[j]@ == v0.tasks[j],
            store.goals == old(store).goals,
            store.microtasks == old(store).microtasks,
            store.projects == old(store).projects,
            store.pomodoro_types == old(store).pomodoro_types,
        decreases store.tasks.len() - i,
    {
        match position_of_text(ordered_ids, &store.tasks[i].id) {
            Some(p) => {
                proof {
                    crate::store::lemma_first_position(o, store.tasks@[i as int].id@, p as int);
                }
                let ghost old_g = v0.tasks[i as int];
                assert(old_g == store.tasks@[i as int]@);
                assert(o.contains(old_g.id));
                assert(new_sort_order(o, old_g.id) == p as i64);
                let mut g = store.tasks[i].clone();
                g.sort_order = p as i64;
                g.updated_at = now_s.clone();
                assert(g@ == TaskView { sort_order: new_sort_order(o, old_g.id), updated_at: now@, ..old_g });
                store.tasks.set(i, g);
                assert(store.tasks@[i as int]@ == tasks_reordered(v0.tasks, o, now@)[i as int]);
            },
            None => {
                assert(store.tasks@[i as int]@ == tasks_reordered(v0.tasks, o, now@)[i as int]);
            },
        }
        i += 1;
    }
    assert(tasks_view(store.tasks@) =~= tasks_reordered(v0.tasks, o, now@));
    Ok(())
}

/// Creates task `id` under goal `goal_id` at `now`, as
/// `PlannerView::create_task` says. On an error the store is left as it was.
pub fn create_task_at(
    store: &mut Planner,
    now: &str,
    id: &str,
    goal_id: &str,
    title: &str,
    description: Option<&str>,
    deadline: Option<&str>,
    priority: i64,
) -> (r: Result<(), AppError>)
    ensures
        match old(store)@.create_task(now@, id@, goal_id@, title@, opt_str(description), opt_str(deadline), priority) {
            Ok(v) => r is Ok && final(store)@ == v,
            Err(e) => r matches Err(x) && x@ == e && final(store)@ == old(store)@,
        },
{
    let t = trim_text(title);
    if t.is_empty() {
        return Err(AppError::Validation("task title must not be empty".to_owned()));
    }
    let pid = goal_id.to_owned();
    if !find_open_live_goal(&store.goals, &pid) {
        match find_goal(&store.goals, &pid) {
            None => {
                return Err(AppError::NotFound { entity: "goal", id: pid });
            },
            Some(gi) => {
                proof {
                    crate::store::lemma_first_position(goal_ids(old(store)@.goals), pid@, gi as int);
                }
                let completed = completed_word();
                if store.goals[gi].status == completed {
                    return Err(AppError::Validation("cannot create a task under a completed goal".to_owned()));
                } else {
                    return Err(AppError::Validation("cannot create a task under an archived goal".to_owned()));
                }
            },
        }
    }
    let id_s = id.to_owned();
    if find_task(&store.tasks, &id_s).is_some() {
        return Err(AppError::Db("error returned from database: (code: 1555) UNIQUE constraint failed: tasks.id".to_owned()));
    }
    let next = match max_task_sort_order(&store.tasks, &pid) {
        None => 0,
        Some(m) => {
            if m == i64::MAX {
                return Err(AppError::Db("integer overflow".to_owned()));
            }
            m + 1
        },
    };
    let g = Task {
        id: id_s,
        goal_id: pid,
        title: t.to_owned(),
        description: own_opt(description),
        deadline: own_opt(deadline),
        priority,
        sort_order: next,
        status: open_word(),
        is_archived: false,
        completed_at: None,
        created_at: now.to_owned(),
        updated_at: now.to_owned(),
    };
    store.tasks.push(g);
    assert(tasks_view(store.tasks@) =~= tasks_view(old(store).tasks@).push(g@));
    Ok(())
}

/// Edits task `id` at `now`, as `PlannerView::update_task` says. On an error
/// the store is left as it was.
pub fn update_task_at(
    store: &mut Planner,
    now: &str,
    id: &str,
    title: &str,
    description: Option<&str>,
    deadline: Option<&str>,
    priority: i64,
) -> (r: Result<(), AppError>)
    ensures
        match old(store)@.update_task(now@, id@, title@, opt_str(description), opt_str(deadline), priority) {
            Ok(v) => r is Ok && final(store)@ == v,
            Err(e) => r matches Err(x) && x@ == e && final(store)@ == old(store)@,
        },
{
    let ghost v0 = store@;
    let t = trim_text(title);
    if t.is_empty() {
        return Err(AppError::Validation("task title must not be empty".to_owned()));
    }
    let id_s = id.to_owned();
    if find_task(&store.tasks, &id_s).is_none() {
        return Err(AppError::NotFound { entity: "task", id: id_s });
    }
    let ghost target = tasks_edited(v0.tasks, id@, t@, opt_str(description), opt_str(deadline), priority, now@);
    let mut i: usize = 0;
    while i < store.tasks.len()
        invariant
            i <= store.tasks.len(),
            store.tasks@.len() == v0.tasks.len(),
            id_s@ == id@,
            v0 == old(store)@,
            target == tasks_edited(v0.tasks, id@, t@, opt_str(description), opt_str(deadline), priority, now@),
            forall|j: int| 0 <= j < i ==> #[trigger] store.tasks@[j]@ == target[j],
            forall|j: int| i <= j < store.tasks@.len() ==> #[trigger] store.tasks@[j]@ == v0.tasks[j],
            store.goals == old(store).goals,
            store.microtasks == old(store).microtasks,
            store.projects == old(store).projects,
            store.pomodoro_types == old(store).pomodoro_types,
        decreases store.tasks.len() - i,
    {
        let ghost old_g = v0.tasks[i as int];
        assert(old_g == store.tasks@[i as int]@);
        if store.tasks[i].id == id_s {
            let mut g = store.tasks[i].clone();
            g.title = t.to_owned();
            g.description = own_opt(description);
            g.deadline = own_opt(deadline);
            g.priority = priority;
            g.updated_at = now.to_owned();
            assert(g@ == TaskView {
                title: t@,
                description: opt_str(description),
                deadline: opt_str(deadline),
                priority,
                updated_at: now@,
                ..old_g
            });
            store.tasks.set(i, g);
        }
        assert(store.tasks@[i as int]@ == target[i as int]);
        i += 1;
    }
    assert(tasks_view(store.tasks@) =~= target);
    Ok(())
}

/// Archives task `id` at `now`. On an error the store is left as it was.
pub fn archive_task_at(store: &mut Planner, now: &str, id: &str) -> (r: Result<(), AppError>)
    ensures
        match old(store)@.archive_task(now@, id@) {
            Ok(v) => r is Ok && final(store)@ == v,
            Err(e) => r matches Err(x) && x@ == e && final(store)@ == old(store)@,
        },
{
    let ghost v0 = store@;
    let id_s = id.to_owned();
    if find_task(&store.tasks, &id_s).is_none() {
        return Err(AppError::NotFound { entity: "task", id: id_s });
    }
    let ghost target = tasks_archived(v0.tasks, id@, now@);
    let mut i: usize = 0;
    while i < store.tasks.len()
        invariant
            i <= store.tasks.len(),
            store.tasks@.len() == v0.tasks.len(),
            id_s@ == id@,
            v0 == old(store)@,
            target == tasks_archived(v0.tasks, id@, now@),
            forall|j: int| 0 <= j < i ==> #[trigger] store.tasks@[j]@ == target[j],
            forall|j: int| i <= j < store.tasks@.len() ==> #[trigger] store.tasks@[j]@ == v0.tasks[j],
            store.goals == old(store).goals,
            store.microtasks == old(store).microtasks,
            store.projects == old(store).projects,
            store.pomodoro_types == old(store).pomodoro_types,
        decreases store.tasks.len() - i,
    {
        let ghost old_g = v0.tasks[i as int];
        assert(old_g == store.tasks@[i as int]@);
        if store.tasks[i].id == id_s {
            let mut g = store.tasks[i].clone();
            g.is_archived = true;
            g.updated_at = now.to_owned();
            assert(g@ == TaskView { is_archived: true, updated_at: now@, ..old_g });
            store.tasks.set(i, g);
        }
        assert(store.tasks@[i as int]@ == target[i as int]);
        i += 1;
    }
    assert(tasks_view(store.tasks@) =~= target);
    Ok(())
}

/// Deletes task `id` with its microtasks. On an error the store is left as
/// it was.
pub fn delete_task(store: &mut Planner, id: &str) -> (r: Result<(), AppError>)
    ensures
        match old(store)@.delete_task(id@) {
            Ok(v) => r is Ok && final(store)@ == v,
            Err(e) => r matches Err(x) && x@ == e && final(store)@ == old(store)@,
        },
{
    let id_s = id.to_owned();
    if find_task(&store.tasks, &id_s).is_none() {
        return Err(AppError::NotFound { entity: "task", id: id_s });
    }
    let mut gone: Vec<String> = Vec::new();
    gone.push(id_s);
    assert(texts_view(gone@) =~= seq![id@]);
    let microtasks = keep_microtasks_outside_tasks(&store.microtasks, &gone);
    let tasks = keep_tasks_without_ids(&store.tasks, &gone);
    store.microtasks = microtasks;
    store.tasks = tasks;
    Ok(())
}

/// What reordering a goal's tasks settles before the clock is read: a list
/// that is not exactly the goal's unarchived tasks.
pub open spec fn reorder_tasks_settled(v: PlannerView, pid: Seq<char>, ordered: Seq<Seq<char>>) -> Option<Result<(), ErrorView>> {
    if !is_exact_reorder(task_ids(live_tasks_of(v.tasks, pid)), ordered) {
        Some(Err(ErrorView::Validation("ordered_ids must contain exactly the goal's non-archived tasks"@)))
    } else {
        None
    }
}

fn settle_reorder_tasks(store: &Planner, goal_id: &str, ordered_ids: &[String]) -> (r: Option<Result<(), AppError>>)
    ensures
        settles_as(r, reorder_tasks_settled(store@, goal_id@, texts_view(ordered_ids@))),
{
    let pid = goal_id.to_owned();
    let existing = live_task_ids(&store.tasks, &pid);
    if !check_reorder(&existing, ordered_ids) {
        return Some(Err(AppError::Validation("ordered_ids must contain exactly the goal's non-archived tasks".to_owned())));
    }
    None
}

/// First settles, without reading the clock, what `reorder_tasks_settled` says; otherwise
/// runs `reorder_tasks_at` at the current time of the clock, or, when the clock
/// reads a time that cannot be recorded, fails with `clock_error` and
/// changes nothing.
pub fn reorder_tasks(
    store: &mut Planner,
    goal_id: &str,
    ordered_ids: &[String],
) -> (r: Result<(), AppError>)
    requires
        ordered_ids@.len() <= i64::MAX,
    ensures
        match reorder_tasks_settled(old(store)@, goal_id@, texts_view(ordered_ids@)) {
            Some(out) => final(store)@ == old(store)@ && match out {
                Ok(_) => r is Ok,
                Err(e) => r matches Err(x) && x@ == e,
            },
            None => (r matches Err(x) && x@ == clock_error() && final(store)@ == old(store)@) || exists|now: Seq<char>|
                    is_utc_timestamp(now) && match #[trigger] old(store)@.reorder_tasks(now, goal_id@, texts_view(ordered_ids@)) {
                        Ok(v) => r is Ok && final(store)@ == v,
                        Err(e) => r matches Err(x) && x@ == e && final(store)@ == old(store)@,
                    },
        },
{
    match settle_reorder_tasks(store, goal_id, ordered_ids) {
        Some(out) => return out,
        None => {},
    }
    let now = match now_iso8601() {
        Some(t) => t,
        None => return Err(clock_unreadable()),
    };
    let r = reorder_tasks_at(store, now.as_str(), goal_id, ordered_ids);
    assert(
        match old(store)@.reorder_tasks(now@, goal_id@, texts_view(ordered_ids@)) {
            Ok(v) => r is Ok && store@ == v,
            Err(e) => r matches Err(x) && x@ == e && store@ == old(store)@,
        }
    );
    r
}

/// First settles, without reading the clock, what `blank_settled` says; otherwise
/// runs `create_task_at` at the current time of the clock, or, when the clock
/// reads a time that cannot be recorded, fails with `clock_error` and
/// changes nothing.
pub fn create_task(
    store: &mut Planner,
    id: &str,
    goal_id: &str,
    title: &str,
    description: Option<&str>,
    deadline: Option<&str>,
    priority: i64,
) -> (r: Result<(), AppError>)
    ensures
        match blank_settled(title@, "task title must not be empty"@) {
            Some(out) => final(store)@ == old(store)@ && match out {
                Ok(_) => r is Ok,
                Err(e) => r matches Err(x) && x@ == e,
            },
            None => (r matches Err(x) && x@ == clock_error() && final(store)@ == old(store)@) || exists|now: Seq<char>|
                    is_utc_timestamp(now) && match #[trigger] old(store)@.create_task(now, id@, goal_id@, title@, opt_str(description), opt_str(deadline), priority) {
                        Ok(v) => r is Ok && final(store)@ == v,
                        Err(e) => r matches Err(x) && x@ == e && final(store)@ == old(store)@,
                    },
        },
{
    match settle_blank(title, "task title must not be empty") {
        Some(out) => return out,
        None => {},
    }
    let now = match now_iso8601() {
        Some(t) => t,
        None => return Err(clock_unreadable()),
    };
    let r = create_task_at(store, now.as_str(), id, goal_id, title, description, deadline, priority);
    assert(
        match old(store)@.create_task(now@, id@, goal_id@, title@, opt_str(description), opt_str(deadline), priority) {
            Ok(v) => r is Ok && store@ == v,
            Err(e) => r matches Err(x) && x@ == e && store@ == old(store)@,
        }
    );
    r
}

/// First settles, without reading the clock, what `blank_settled` says; otherwise
/// runs `update_task_at` at the current time of the clock, or, when the clock
/// reads a time that cannot be recorded, fails with `clock_error` and
/// changes nothing.
pub fn update_task(
    store: &mut Planner,
    id: &str,
    title: &str,
    description: Option<&str>,
    deadline: Option<&str>,
    priority: i64,
) -> (r: Result<(), AppError>)
    ensures
        match blank_settled(title@, "task title must not be empty"@) {
            Some(out) => final(store)@ == old(store)@ && match out {
                Ok(_) => r is Ok,
                Err(e) => r matches Err(x) && x@ == e,
            },
            None => (r matches Err(x) && x@ == clock_error() && final(store)@ == old(store)@) || exists|now: Seq<char>|
                    is_utc_timestamp(now) && match #[trigger] old(store)@.update_task(now, id@, title@, opt_str(description), opt_str(deadline), priority) {
                        Ok(v) => r is Ok && final(store)@ == v,
                        Err(e) => r matches Err(x) && x@ == e && final(store)@ == old(store)@,
                    },
        },
{
    match settle_blank(title, "task title must not be empty") {
        Some(out) => return out,
        None => {},
    }
    let now = match now_iso8601() {
        Some(t) => t,
        None => return Err(clock_unreadable()),
    };
    let r = update_task_at(store, now.as_str(), id, title, description, deadline, priority);
    assert(
        match old(store)@.update_task(now@, id@, title@, opt_str(description), opt_str(deadline), priority) {
            Ok(v) => r is Ok && store@ == v,
            Err(e) => r matches Err(x) && x@ == e && store@ == old(store)@,
        }
    );
    r
}

/// Runs `archive_task_at` at the current time of the clock; when the clock reads a time
/// that cannot be recorded, fails with `clock_error` and changes nothing.
pub fn archive_task(
    store: &mut Planner,
    id: &str,
) -> (r: Result<(), AppError>)
    ensures
        (r matches Err(x) && x@ == clock_error() && final(store)@ == old(store)@) || exists|now: Seq<char>|
            is_utc_timestamp(now) && match #[trigger] old(store)@.archive_task(now, id@) {
                Ok(v) => r is Ok && final(store)@ == v,
                Err(e) => r matches Err(x) && x@ == e && final(store)@ == old(store)@,
            },
{
    let now = match now_iso8601() {
        Some(t) => t,
        None => return Err(clock_unreadable()),
    };
    let r = archive_task_at(store, now.as_str(), id);
    assert(
        match old(store)@.archive_task(now@, id@) {
            Ok(v) => r is Ok && store@ == v,
            Err(e) => r matches Err(x) && x@ == e && store@ == old(store)@,
        }
    );
    r
}

} // verus!
