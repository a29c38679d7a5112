//! Goals: creation under a project, edits, archiving, deletion with its
//! cascade, and ordering within the project.

use vstd::prelude::*;
use crate::precheck::{blank_settled, settle_blank, settles_as};
use crate::time::{clock_error, clock_unreadable, is_utc_timestamp, now_iso8601};
use crate::error::{AppError, ErrorView};
use crate::models::{Goal, GoalView};
use crate::reorder::{check_reorder, is_exact_reorder, new_sort_order, position_of_text, texts_view};
use crate::store::{find_goal, find_project, goal_ids, goals_view, Planner, PlannerView};
use crate::cascade::{
    goals_without_ids, keep_goals_without_ids, keep_microtasks_outside_tasks,
    keep_tasks_outside_goals, microtasks_outside_tasks, select_tasks_inside_goals,
    task_ids_of, tasks_inside_goals, tasks_outside_goals,
};
use crate::sort_order::{goal_sort_orders, max_goal_sort_order, next_sort_order, seq_max};
use crate::store::task_ids;
use crate::text::{open_word, opt_str, own_opt, status_open, trim_text, trim_view};

verus! {

broadcast use {Seq::lemma_filter_push, Seq::lemma_push_map_commute};

/// The unarchived goals of project `pid`, in stored order.
pub open spec fn live_goals_of(gs: Seq<GoalView>, pid: Seq<char>) -> Seq<GoalView> {
    gs.filter(|g: GoalView| g.project_id == pid && !g.is_archived)
}

/// Every goal row named in `ordered` gets its position there as its sort
/// order, stamped `now`.
pub open spec fn goals_reordered(gs: Seq<GoalView>, ordered: Seq<Seq<char>>, now: Seq<char>) -> Seq<GoalView> {
    gs.map_values(
        |g: GoalView|
            if ordered.contains(g.id) {
                GoalView { sort_order: new_sort_order(ordered, g.id), updated_at: now, ..g }
            } else {
                g
            },
    )
}

/// Every goal row with the id, with the new title, description, deadline
/// and priority, stamped `now`.
pub open spec fn goals_edited(
    gs: Seq<GoalView>,
    id: Seq<char>,
    title: Seq<char>,
    description: Option<Seq<char>>,
    deadline: Option<Seq<char>>,
    priority: i64,
    now: Seq<char>,
) -> Seq<GoalView> {
    gs.map_values(
        |g: GoalView|
            if g.id == id {
                GoalView { title, description, deadline, priority, updated_at: now, ..g }
            } else {
                g
            },
    )
}

/// Every goal row with the id, archived and stamped `now`.
pub open spec fn goals_archived(gs: Seq<GoalView>, id: Seq<char>, now: Seq<char>) -> Seq<GoalView> {
    gs.map_values(
        |g: GoalView| if g.id == id { GoalView { is_archived: true, updated_at: now, ..g } } else { g },
    )
}

impl PlannerView {
    /// Creating goal `id` under project `pid`: the title is trimmed and must
    /// not be blank, the project must exist, the id must be new; the goal is
    /// open, unarchived, stamped `now`, and placed after its siblings.
    pub open spec fn create_goal(
        self,
        now: Seq<char>,
        id: Seq<char>,
        pid: Seq<char>,
        title: Seq<char>,
        description: Option<Seq<char>>,
        deadline: Option<Seq<char>>,
        priority: i64,
    ) -> Result<PlannerView, ErrorView> {
        let t = trim_view(title);
        let next = next_sort_order(seq_max(goal_sort_orders(self.goals, pid)));
        if t.len() == 0 {
            Err(ErrorView::Validation("goal title must not be empty"@))
        } else if !self.has_project(pid) {
            Err(ErrorView::NotFound { entity: "project"@, id: pid })
        } else if self.has_goal(id) {
            Err(ErrorView::Db("error returned from database: (code: 1555) UNIQUE constraint failed: goals.id"@))
        } else if next is None {
            Err(ErrorView::Db("integer overflow"@))
        } else {
            Ok(
                PlannerView {
                    goals: self.goals.push(
                        GoalView {
                            id,
                            project_id: pid,
                            title: t,
                            description,
                            deadline,
                            priority,
                            sort_order: next->Some_0,
                            status: status_open(),
                            is_archived: false,
                            completed_at: None,
                            created_at: now,
                            updated_at: now,
                        },
                    ),
                    ..self
                },
            )
        }
    }

    /// Editing goal `id`: the trimmed title must not be blank; title,
    /// description, deadline and priority take the given values.
    pub open spec fn update_goal(
        self,
        now: Seq<char>,
        id: Seq<char>,
        title: Seq<char>,
        description: Option<Seq<char>>,
        deadline: Option<Seq<char>>,
        priority: i64,
    ) -> Result<PlannerView, ErrorView> {
        let t = trim_view(title);
        if t.len() == 0 {
            Err(ErrorView::Validation("goal title must not be empty"@))
        } else if !self.has_goal(id) {
            Err(ErrorView::NotFound { entity: "goal"@, id })
        } else {
            Ok(PlannerView { goals: goals_edited(self.goals, id, t, description, deadline, priority, now), ..self })
        }
    }

    /// Archiving goal `id`.
    pub open spec fn archive_goal(self, now: Seq<char>, id: Seq<char>) -> Result<PlannerView, ErrorView> {
        if !self.has_goal(id) {
            Err(ErrorView::NotFound { entity: "goal"@, id })
        } else {
            Ok(PlannerView { goals: goals_archived(self.goals, id, now), ..self })
        }
    }

    /// Deleting goal `id`, with its tasks and their microtasks.
    pub open spec fn delete_goal(self, id: Seq<char>) -> Result<PlannerView, ErrorView> {
        if !self.has_goal(id) {
            Err(ErrorView::NotFound { entity: "goal"@, id })
        } else {
            let gone = seq![id];
            Ok(
                PlannerView {
                    goals: goals_without_ids(self.goals, gone),
                    tasks: tasks_outside_goals(self.tasks, gone),
                    microtasks: microtasks_outside_tasks(
                        self.microtasks,
                        task_ids(tasks_inside_goals(self.tasks, gone)),
                    ),
                    ..self
                },
            )
        }
    }

    /// Reordering the goals of project `pid`: `ordered` must list exactly its
    /// unarchived goals, each once; each then takes its position as sort
    /// order.
    pub open spec fn reorder_goals(self, now: Seq<char>, pid: Seq<char>, ordered: Seq<Seq<char>>) -> Result<PlannerView, ErrorView> {
        if !is_exact_reorder(goal_ids(live_goals_of(self.goals, pid)), ordered) {
            Err(ErrorView::Validation("ordered_ids must contain exactly the project's non-archived goals"@))
        } else {
            Ok(PlannerView { goals: goals_reordered(self.goals, ordered, now), ..self })
        }
    }
}

/// The ids of the unarchived goals of project `pid`, in stored order.
fn live_goal_ids(rows: &Vec<Goal>, pid: &String) -> (r: Vec<String>)
    ensures
        texts_view(r@) == goal_ids(live_goals_of(goals_view(rows@), pid@)),
{
    let ghost all = goals_view(rows@);
    let mut out: Vec<String> = Vec::new();
    let mut i: usize = 0;
    while i < rows.len()
        invariant
            i <= rows.len(),
            all == goals_view(rows@),
            texts_view(out@) == goal_ids(live_goals_of(all.take(i as int), pid@)),
        decreases rows.len() - i,
    {
        assert(all.take(i + 1) =~= all.take(i as int).push(all[i as int]));
        if rows[i].project_id == *pid && !rows[i].is_archived {
            out.push(rows[i].id.clone());
        }
        assert(texts_view(out@) =~= goal_ids(live_goals_of(all.take(i + 1), pid@)));
        i += 1;
    }
    assert(all.take(rows.len() as int) =~= all);
    out
}

/// Reorders the goals of project `project_id`: `ordered_ids` must list
/// exactly its unarchived goals, each once, and each takes its position as
/// sort order. On an error the store is left as it was.
pub fn reorder_goals_at(store: &mut Planner, now: &str, project_id: &str, ordered_ids: &[String]) -> (r: Result<(), AppError>)
    requires
        ordered_ids@.len() <= i64::MAX,
    ensures
        match old(store)@.reorder_goals(now@, project_id@, texts_view(ordered_ids@)) {
            Ok(v) => r is Ok && final(store)@ == v,
            Err(e) => r matches Err(x) && x@ == e && final(store)@ == old(store)@,
        },
{
    let ghost v0 = store@;
    let ghost o = texts_view(ordered_ids@);
    let pid = project_id.to_owned();
    let existing = live_goal_ids(&store.goals, &pid);
    if !check_reorder(&existing, ordered_ids) {
        return Err(
            AppError::Validation(
                "ordered_ids must contain exactly the project's non-archived goals".to_owned(),
            ),
        );
    }
    let now_s = now.to_owned();
    let mut i: usize = 0;
    while i < store.goals.len()
        invariant
            i <= store.goals.len(),
            store.goals@.len() == v0.goals.len(),
            o == texts_view(ordered_ids@),
            ordered_ids@.len() <= i64::MAX,
            now_s@ == now@,
            forall|j: int| 0 <= j < i ==> #[trigger] store.goals@[j]@ == goals_reordered(v0.goals, o, now@)[j],
            forall|j: int| i <= j < store.goals@.len() ==> #[trigger] store.goals@[j]@ == v0.goals[j],
            store.projects == old(store).projects,
            store.tasks == old(store).tasks,
            store.microtasks == old(store).microtasks,
            store.pomodoro_types == old(store).pomodoro_types,
        decreases store.goals.len() - i,
    {
        match position_of_text(ordered_ids, &store.goals[i].id) {
            Some(p) => {
                proof {
                    crate::store::lemma_first_position(o, store.goals@[i as int].id@, p as int);
                }
                let ghost old_g = v0.goals[i as int];
                assert(old_g == store.goals@[i as int]@);
                assert(o.contains(old_g.id));
                assert(new_sort_order(o, old_g.id) == p as i64);
                let mut g = store.goals[i].clone();
                g.sort_order = p as i64;
                g.updated_at = now_s.clone();
                assert(g@ == GoalView { sort_order: new_sort_order(o, old_g.id), updated_at: now@, ..old_g });
                store.goals.set(i, g);
                assert(store.goals@[i as int]@ == goals_reordered(v0.goals, o, now@)[i as int]);
            },
            None => {
                assert(store.goals@[i as int]@ == goals_reordered(v0.goals, o, now@)[i as int]);
            },
        }
        i += 1;
    }
    assert(goals_view(store.goals@) =~= goals_reordered(v0.goals, o, now@));
    Ok(())
}

/// Creates goal `id` under project `project_id` at `now`, as
/// `PlannerView::create_goal` says. On an error the store is left as it was.
pub fn create_goal_at(
    store: &mut Planner,
    now: &str,
    id: &str,
    project_id: &str,
    title: &str,
    description: Option<&str>,
    deadline: Option<&str>,
    priority: i64,
) -> (r: Result<(), AppError>)
    ensures
        match old(store)@.create_goal(now@, id@, project_id@, title@, opt_str(description), opt_str(deadline), priority) {
            Ok(v) => r is Ok && final(store)@ == v,
            Err(e) => r matches Err(x) && x@ == e && final(store)@ == old(store)@,
        },
{
    let t = trim_text(title);
    if t.is_empty() {
        return Err(AppError::Validation("goal title must not be empty".to_owned()));
    }
    let pid = project_id.to_owned();
    if find_project(&store.projects, &pid).is_none() {
        return Err(AppError::NotFound { entity: "project", id: pid });
    }
    let id_s = id.to_owned();
    if find_goal(&store.goals, &id_s).is_some() {
        return Err(AppError::Db("error returned from database: (code: 1555) UNIQUE constraint failed: goals.id".to_owned()));
    }
    let next = match max_goal_sort_order(&store.goals, &pid) {
        None => 0,
        Some(m) => {
            if m == i64::MAX {
                return Err(AppError::Db("integer overflow".to_owned()));
            }
            m + 1
        },
    };
    let g = Goal {
        id: id_s,
        project_id: pid,
        title: t.to_owned(),
        description: own_opt(description),
        deadline: own_opt(deadline),
        priority,
        sort_order: next,
        status: open_word(),
        is_archived: false,
        completed_at: None,
        created_at: now.to_owned(),
        updated_at: now.to_owned(),
    };
    store.goals.push(g);
    assert(goals_view(store.goals@) =~= goals_view(old(store).goals@).push(g@));
    Ok(())
}

/// Edits goal `id` at `now`, as `PlannerView::update_goal` says. On an error
/// the store is left as it was.
pub fn update_goal_at(
    store: &mut Planner,
    now: &str,
    id: &str,
    title: &str,
    description: Option<&str>,
    deadline: Option<&str>,
    priority: i64,
) -> (r: Result<(), AppError>)
    ensures
        match old(store)@.update_goal(now@, id@, title@, opt_str(description), opt_str(deadline), priority) {
            Ok(v) => r is Ok && final(store)@ == v,
            Err(e) => r matches Err(x) && x@ == e && final(store)@ == old(store)@,
        },
{
    let ghost v0 = store@;
    let t = trim_text(title);
    if t.is_empty() {
        return Err(AppError::Validation("goal title must not be empty".to_owned()));
    }
    let id_s = id.to_owned();
    if find_goal(&store.goals, &id_s).is_none() {
        return Err(AppError::NotFound { entity: "goal", id: id_s });
    }
    let ghost target = goals_edited(v0.goals, id@, t@, opt_str(description), opt_str(deadline), priority, now@);
    let mut i: usize = 0;
    while i < store.goals.len()
        invariant
            i <= store.goals.len(),
            store.goals@.len() == v0.goals.len(),
            id_s@ == id@,
            v0 == old(store)@,
            target == goals_edited(v0.goals, id@, t@, opt_str(description), opt_str(deadline), priority, now@),
            forall|j: int| 0 <= j < i ==> #[trigger] store.goals@[j]@ == target[j],
            forall|j: int| i <= j < store.goals@.len() ==> #[trigger] store.goals@[j]@ == v0.goals[j],
            store.projects == old(store).projects,
            store.tasks == old(store).tasks,
            store.microtasks == old(store).microtasks,
            store.pomodoro_types == old(store).pomodoro_types,
        decreases store.goals.len() - i,
    {
        let ghost old_g = v0.goals[i as int];
        assert(old_g == store.goals@[i as int]@);
        if store.goals[i].id == id_s {
            let mut g = store.goals[i].clone();
            g.title = t.to_owned();
            g.description = own_opt(description);
            g.deadline = own_opt(deadline);
            g.priority = priority;
            g.updated_at = now.to_owned();
            assert(g@ == GoalView {
                title: t@,
                description: opt_str(description),
                deadline: opt_str(deadline),
                priority,
                updated_at: now@,
                ..old_g
            });
            store.goals.set(i, g);
        }
        assert(store.goals@[i as int]@ == target[i as int]);
        i += 1;
    }
    assert(goals_view(store.goals@) =~= target);
    Ok(())
}

/// Archives goal `id` at `now`. On an error the store is left as it was.
pub fn archive_goal_at(store: &mut Planner, now: &str, id: &str) -> (r: Result<(), AppError>)
    ensures
        match old(store)@.archive_goal(now@, id@) {
            Ok(v) => r is Ok && final(store)@ == v,
            Err(e) => r matches Err(x) && x@ == e && final(store)@ == old(store)@,
        },
{
    let ghost v0 = store@;
    let id_s = id.to_owned();
    if find_goal(&store.goals, &id_s).is_none() {
        return Err(AppError::NotFound { entity: "goal", id: id_s });
    }
    let ghost target = goals_archived(v0.goals, id@, now@);
    let mut i: usize = 0;
    while i < store.goals.len()
        invariant
            i <= store.goals.len(),
            store.goals@.len() == v0.goals.len(),
            id_s@ == id@,
            v0 == old(store)@,
            target == goals_archived(v0.goals, id@, now@),
            forall|j: int| 0 <= j < i ==> #[trigger] store.goals@[j]@ == target[j],
            forall|j: int| i <= j < store.goals@.len() ==> #[trigger] store.goals@[j]@ == v0.goals[j],
            store.projects == old(store).projects,
            store.tasks == old(store).tasks,
            store.microtasks == old(store).microtasks,
            store.pomodoro_types == old(store).pomodoro_types,
        decreases store.goals.len() - i,
    {
        let ghost old_g = v0.goals[i as int];
        assert(old_g == store.goals@[i as int]@);
        if store.goals[i].id == id_s {
            let mut g = store.goals[i].clone();
            g.is_archived = true;
            g.updated_at = now.to_owned();
            assert(g@ == GoalView { is_archived: true, updated_at: now@, ..old_g });
            store.goals.set(i, g);
        }
        assert(store.goals@[i as int]@ == target[i as int]);
        i += 1;
    }
    assert(goals_view(store.goals@) =~= target);
    Ok(())
}

/// Deletes goal `id` with its tasks and their microtasks. On an error the
/// store is left as it was.
pub fn delete_goal(store: &mut Planner, id: &str) -> (r: Result<(), AppError>)
    ensures
        match old(store)@.delete_goal(id@) {
            Ok(v) => r is Ok && final(store)@ == v,
            Err(e) => r matches Err(x) && x@ == e && final(store)@ == old(store)@,
        },
{
    let id_s = id.to_owned();
    if find_goal(&store.goals, &id_s).is_none() {
        return Err(AppError::NotFound { entity: "goal", id: id_s });
    }
    let mut gone: Vec<String> = Vec::new();
    gone.push(id_s);
    assert(texts_view(gone@) =~= seq![id@]);
    let removed_tasks = select_tasks_inside_goals(&store.tasks, &gone);
    let removed_task_ids = task_ids_of(&removed_tasks);
    let microtasks = keep_microtasks_outside_tasks(&store.microtasks, &removed_task_ids);
    let tasks = keep_tasks_outside_goals(&store.tasks, &gone);
    let goals = keep_goals_without_ids(&store.goals, &gone);
    store.microtasks = microtasks;
    store.tasks = tasks;
    store.goals = goals;
    Ok(())
}

/// What creating a goal settles before the clock is read: a blank title, or
/// a project that does not exist.
pub open spec fn create_goal_settled(v: PlannerView, pid: Seq<char>, title: Seq<char>) -> Option<Result<(), ErrorView>> {
    if trim_view(title).len() == 0 {
        Some(Err(ErrorView::Validation("goal title must not be empty"@)))
    } else if !v.has_project(pid) {
        Some(Err(ErrorView::NotFound { entity: "project"@, id: pid }))
    } else {
        None
    }
}

/// What reordering a project's goals settles before the clock is read: a
/// list that is not exactly the project's unarchived goals.
pub open spec fn reorder_goals_settled(v: PlannerView, pid: Seq<char>, ordered: Seq<Seq<char>>) -> Option<Result<(), ErrorView>> {
    if !is_exact_reorder(goal_ids(live_goals_of(v.goals, pid)), ordered) {
        Some(Err(ErrorView::Validation("ordered_ids must contain exactly the project's non-archived goals"@)))
    } else {
        None
    }
}

fn settle_create_goal(store: &Planner, project_id: &str, title: &str) -> (r: Option<Result<(), AppError>>)
    ensures
        settles_as(r, create_goal_settled(store@, project_id@, title@)),
{
    if trim_text(title).is_empty() {
        return Some(Err(AppError::Validation("goal title must not be empty".to_owned())));
    }
    let pid = project_id.to_owned();
    if find_project(&store.projects, &pid).is_none() {
        return Some(Err(AppError::NotFound { entity: "project", id: pid }));
    }
    None
}

fn settle_reorder_goals(store: &Planner, project_id: &str, ordered_ids: &[String]) -> (r: Option<Result<(), AppError>>)
    ensures
        settles_as(r, reorder_goals_settled(store@, project_id@, texts_view(ordered_ids@))),
{
    let pid = project_id.to_owned();
    let existing = live_goal_ids(&store.goals, &pid);
    if !check_reorder(&existing, ordered_ids) {
        return Some(Err(AppError::Validation("ordered_ids must contain exactly the project's non-archived goals".to_owned())));
    }
    None
}

/// First settles, without reading the clock, what `reorder_goals_settled` says; otherwise
/// runs `reorder_goals_at` at the current time of the clock, or, when the clock
/// reads a time that cannot be recorded, fails with `clock_error` and
/// changes nothing.
pub fn reorder_goals(
    store: &mut Planner,
    project_id: &str,
    ordered_ids: &[String],
) -> (r: Result<(), AppError>)
    requires
        ordered_ids@.len() <= i64::MAX,
    ensures
        match reorder_goals_settled(old(store)@, project_id@, texts_view(ordered_ids@)) {
            Some(out) => final(store)@ == old(store)@ && match out {
                Ok(_) => r is Ok,
                Err(e) => r matches Err(x) && x@ == e,
            },
            None => (r matches Err(x) && x@ == clock_error() && final(store)@ == old(store)@) || exists|now: Seq<char>|
                    is_utc_timestamp(now) && match #[trigger] old(store)@.reorder_goals(now, project_id@, texts_view(ordered_ids@)) {
                        Ok(v) => r is Ok && final(store)@ == v,
                        Err(e) => r matches Err(x) && x@ == e && final(store)@ == old(store)@,
                    },
        },
{
    match settle_reorder_goals(store, project_id, ordered_ids) {
        Some(out) => return out,
        None => {},
    }
    let now = match now_iso8601() {
        Some(t) => t,
        None => return Err(clock_unreadable()),
    };
    let r = reorder_goals_at(store, now.as_str(), project_id, ordered_ids);
    assert(
        match old(store)@.reorder_goals(now@, project_id@, texts_view(ordered_ids@)) {
            Ok(v) => r is Ok && store@ == v,
            Err(e) => r matches Err(x) && x@ == e && store@ == old(store)@,
        }
    );
    r
}

/// First settles, without reading the clock, what `create_goal_settled` says; otherwise
/// runs `create_goal_at` at the current time of the clock, or, when the clock
/// reads a time that cannot be recorded, fails with `clock_error` and
/// changes nothing.
pub fn create_goal(
    store: &mut Planner,
    id: &str,
    project_id: &str,
    title: &str,
    description: Option<&str>,
    deadline: Option<&str>,
    priority: i64,
) -> (r: Result<(), AppError>)
    ensures
        match create_goal_settled(old(store)@, project_id@, title@) {
            Some(out) => final(store)@ == old(store)@ && match out {
                Ok(_) => r is Ok,
                Err(e) => r matches Err(x) && x@ == e,
            },
            None => (r matches Err(x) && x@ == clock_error() && final(store)@ == old(store)@) || exists|now: Seq<char>|
                    is_utc_timestamp(now) && match #[trigger] old(store)@.create_goal(now, id@, project_id@, title@, opt_str(description), opt_str(deadline), priority) {
                        Ok(v) => r is Ok && final(store)@ == v,
                        Err(e) => r matches Err(x) && x@ == e && final(store)@ == old(store)@,
                    },
        },
{
    match settle_create_goal(store, project_id, title) {
        Some(out) => return out,
        None => {},
    }
    let now = match now_iso8601() {
        Some(t) => t,
        None => return Err(clock_unreadable()),
    };
    let r = create_goal_at(store, now.as_str(), id, project_id, title, description, deadline, priority);
    assert(
        match old(store)@.create_goal(now@, id@, project_id@, title@, opt_str(description), opt_str(deadline), priority) {
            Ok(v) => r is Ok && store@ == v,
            Err(e) => r matches Err(x) && x@ == e && store@ == old(store)@,
        }
    );
    r
}

/// First settles, without reading the clock, what `blank_settled` says; otherwise
/// runs `update_goal_at` at the current time of the clock, or, when the clock
/// reads a time that cannot be recorded, fails with `clock_error` and
/// changes nothing.
pub fn update_goal(
    store: &mut Planner,
    id: &str,
    title: &str,
    description: Option<&str>,
    deadline: Option<&str>,
    priority: i64,
) -> (r: Result<(), AppError>)
    ensures
        match blank_settled(title@, "goal title must not be empty"@) {
            Some(out) => final(store)@ == old(store)@ && match out {
                Ok(_) => r is Ok,
                Err(e) => r matches Err(x) && x@ == e,
            },
            None => (r matches Err(x) && x@ == clock_error() && final(store)@ == old(store)@) || exists|now: Seq<char>|
                    is_utc_timestamp(now) && match #[trigger] old(store)@.update_goal(now, id@, title@, opt_str(description), opt_str(deadline), priority) {
                        Ok(v) => r is Ok && final(store)@ == v,
                        Err(e) => r matches Err(x) && x@ == e && final(store)@ == old(store)@,
                    },
        },
{
    match settle_blank(title, "goal title must not be empty") {
        Some(out) => return out,
        None => {},
    }
    let now = match now_iso8601() {
        Some(t) => t,
        None => return Err(clock_unreadable()),
    };
    let r = update_goal_at(store, now.as_str(), id, title, description, deadline, priority);
    assert(
        match old(store)@.update_goal(now@, id@, title@, opt_str(description), opt_str(deadline), priority) {
            Ok(v) => r is Ok && store@ == v,
            Err(e) => r matches Err(x) && x@ == e && store@ == old(store)@,
        }
    );
    r
}

/// Runs `archive_goal_at` at the current time of the clock; when the clock reads a time
/// that cannot be recorded, fails with `clock_error` and changes nothing.
pub fn archive_goal(
    store: &mut Planner,
    id: &str,
) -> (r: Result<(), AppError>)
    ensures
        (r matches Err(x) && x@ == clock_error() && final(store)@ == old(store)@) || exists|now: Seq<char>|
            is_utc_timestamp(now) && match #[trigger] old(store)@.archive_goal(now, id@) {
                Ok(v) => r is Ok && final(store)@ == v,
                Err(e) => r matches Err(x) && x@ == e && final(store)@ == old(store)@,
            },
{
    let now = match now_iso8601() {
        Some(t) => t,
        None => return Err(clock_unreadable()),
    };
    let r = archive_goal_at(store, now.as_str(), id);
    assert(
        match old(store)@.archive_goal(now@, id@) {
            Ok(v) => r is Ok && store@ == v,
            Err(e) => r matches Err(x) && x@ == e && store@ == old(store)@,
        }
    );
    r
}

} // verus!
