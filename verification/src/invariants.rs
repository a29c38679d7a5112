//! What every operation keeps: the store's integrity rules (unique ids, no
//! dangling reference) and the roll-up rule (nothing completed above an open,
//! unarchived row).

use vstd::prelude::*;
use crate::cascade::{tasks_inside_goals, goals_inside_projects};
use crate::models::{GoalView, MicrotaskView, TaskView, ProjectView, PomodoroTypeView};
use crate::store::{
    goal_ids, has_live_open_microtask, has_live_open_task, ids_unique, microtask_ids,
    project_ids, task_ids, type_ids, PlannerView,
};

verus! {

/// `w` has the rows of `v`, in the same places, with the same ids and the
/// same references.
pub open spec fn same_keys(v: PlannerView, w: PlannerView) -> bool {
    &&& w.projects.len() == v.projects.len()
    &&& forall|i: int| #![trigger w.projects[i]] 0 <= i < v.projects.len() ==> w.projects[i].id == v.projects[i].id
    &&& w.goals.len() == v.goals.len()
    &&& forall|i: int|
        #![trigger w.goals[i]]
        0 <= i < v.goals.len() ==> w.goals[i].id == v.goals[i].id && w.goals[i].project_id
            == v.goals[i].project_id
    &&& w.tasks.len() == v.tasks.len()
    &&& forall|i: int|
        #![trigger w.tasks[i]]
        0 <= i < v.tasks.len() ==> w.tasks[i].id == v.tasks[i].id && w.tasks[i].goal_id
            == v.tasks[i].goal_id
    &&& w.microtasks.len() == v.microtasks.len()
    &&& forall|i: int|
        #![trigger w.microtasks[i]]
        0 <= i < v.microtasks.len() ==> w.microtasks[i].id == v.microtasks[i].id
            && w.microtasks[i].task_id == v.microtasks[i].task_id
            && w.microtasks[i].pomodoro_type_id == v.microtasks[i].pomodoro_type_id
    &&& w.pomodoro_types.len() == v.pomodoro_types.len()
    &&& forall|i: int| #![trigger w.pomodoro_types[i]] 0 <= i < v.pomodoro_types.len() ==> w.pomodoro_types[i].id == v.pomodoro_types[i].id
}

/// `w` has the rows of `v` with the same keys and statuses, and archiving is
/// the only change to the archived flags.
pub open spec fn same_rollup(v: PlannerView, w: PlannerView) -> bool {
    &&& same_keys(v, w)
    &&& forall|i: int|
        #![trigger w.tasks[i]]
        0 <= i < v.tasks.len() ==> w.tasks[i].status == v.tasks[i].status && (v.tasks[i].is_archived
            ==> w.tasks[i].is_archived)
    &&& forall|i: int| #![trigger w.goals[i]] 0 <= i < v.goals.len() ==> w.goals[i].status == v.goals[i].status
    &&& forall|i: int|
        #![trigger w.microtasks[i]]
        0 <= i < v.microtasks.len() ==> w.microtasks[i].status == v.microtasks[i].status
            && (v.microtasks[i].is_archived ==> w.microtasks[i].is_archived)
}

pub proof fn lemma_wf_same_keys(v: PlannerView, w: PlannerView)
    requires
        v.wf(),
        same_keys(v, w),
    ensures
        w.wf(),
{
    assert(project_ids(w.projects) =~= project_ids(v.projects));
    assert(goal_ids(w.goals) =~= goal_ids(v.goals));
    assert(task_ids(w.tasks) =~= task_ids(v.tasks));
    assert(microtask_ids(w.microtasks) =~= microtask_ids(v.microtasks));
    assert(type_ids(w.pomodoro_types) =~= type_ids(v.pomodoro_types));
    assert forall|i: int| 0 <= i < w.goals.len() implies w.has_project(#[trigger] w.goals[i].project_id) by {
        assert(w.goals[i].project_id == v.goals[i].project_id);
        assert(v.has_project(v.goals[i].project_id));
    }
    assert forall|i: int| 0 <= i < w.tasks.len() implies w.has_goal(#[trigger] w.tasks[i].goal_id) by {
        assert(w.tasks[i].goal_id == v.tasks[i].goal_id);
        assert(v.has_goal(v.tasks[i].goal_id));
    }
    assert forall|i: int| 0 <= i < w.microtasks.len() implies w.has_task(#[trigger] w.microtasks[i].task_id) by {
        assert(w.microtasks[i].task_id == v.microtasks[i].task_id);
        assert(v.has_task(v.microtasks[i].task_id));
    }
    assert forall|i: int| 0 <= i < w.microtasks.len() implies match #[trigger] w.microtasks[i].pomodoro_type_id {
        Some(t) => w.has_pomodoro_type(t),
        None => true,
    } by {
        assert(w.microtasks[i].pomodoro_type_id == v.microtasks[i].pomodoro_type_id);
    }
}

pub proof fn lemma_rollup_same(v: PlannerView, w: PlannerView)
    requires
        v.rollup_consistent(),
        same_rollup(v, w),
    ensures
        w.rollup_consistent(),
{
    assert forall|i: int|
        0 <= i < w.tasks.len() && #[trigger] w.tasks[i].status == crate::text::status_completed()
            implies !has_live_open_microtask(w.microtasks, w.tasks[i].id) by {
        assert(v.tasks[i].status == crate::text::status_completed());
        if has_live_open_microtask(w.microtasks, w.tasks[i].id) {
            let j = choose|j: int|
                0 <= j < w.microtasks.len() && #[trigger] w.microtasks[j].task_id == w.tasks[i].id
                    && w.microtasks[j].status == crate::text::status_open() && !w.microtasks[j].is_archived;
            assert(w.microtasks[j].task_id == v.microtasks[j].task_id);
            assert(w.tasks[i].id == v.tasks[i].id);
            assert(v.microtasks[j].task_id == v.tasks[i].id);
        }
    }
    assert forall|i: int|
        0 <= i < w.goals.len() && #[trigger] w.goals[i].status == crate::text::status_completed()
            implies !has_live_open_task(w.tasks, w.goals[i].id) by {
        assert(v.goals[i].status == crate::text::status_completed());
        if has_live_open_task(w.tasks, w.goals[i].id) {
            let j = choose|j: int|
                0 <= j < w.tasks.len() && #[trigger] w.tasks[j].goal_id == w.goals[i].id
                    && w.tasks[j].status == crate::text::status_open() && !w.tasks[j].is_archived;
            assert(w.tasks[j].goal_id == v.tasks[j].goal_id);
            assert(w.goals[i].id == v.goals[i].id);
            assert(v.tasks[j].goal_id == v.goals[i].id);
        }
    }
}

/// Editing, archiving and reordering goals keeps the integrity and roll-up
/// rules.
pub proof fn law_goal_edits_keep_invariants(
    v: PlannerView,
    now: Seq<char>,
    id: Seq<char>,
    pid: Seq<char>,
    title: Seq<char>,
    description: Option<Seq<char>>,
    deadline: Option<Seq<char>>,
    priority: i64,
    ordered: Seq<Seq<char>>,
)
    requires
        v.wf(),
        v.rollup_consistent(),
    ensures
        v.update_goal(now, id, title, description, deadline, priority) matches Ok(w) ==> w.wf() && w.rollup_consistent(),
        v.archive_goal(now, id) matches Ok(w) ==> w.wf() && w.rollup_consistent(),
        v.reorder_goals(now, pid, ordered) matches Ok(w) ==> w.wf() && w.rollup_consistent(),
{
    if let Ok(w) = v.update_goal(now, id, title, description, deadline, priority) {
        assert(same_rollup(v, w));
        lemma_wf_same_keys(v, w);
        lemma_rollup_same(v, w);
    }
    if let Ok(w) = v.archive_goal(now, id) {
        assert(same_rollup(v, w));
        lemma_wf_same_keys(v, w);
        lemma_rollup_same(v, w);
    }
    if let Ok(w) = v.reorder_goals(now, pid, ordered) {
        assert(same_rollup(v, w));
        lemma_wf_same_keys(v, w);
        lemma_rollup_same(v, w);
    }
}

/// Editing and archiving projects keeps the integrity and roll-up rules.
pub proof fn law_project_edits_keep_invariants(
    v: PlannerView,
    now: Seq<char>,
    id: Seq<char>,
    name: Seq<char>,
    description: Option<Seq<char>>,
)
    requires
        v.wf(),
        v.rollup_consistent(),
    ensures
        v.update_project(now, id, name, description) matches Ok(w) ==> w.wf() && w.rollup_consistent(),
        v.archive_project(now, id) matches Ok(w) ==> w.wf() && w.rollup_consistent(),
{
    if let Ok(w) = v.update_project(now, id, name, description) {
        assert(same_rollup(v, w));
        lemma_wf_same_keys(v, w);
        lemma_rollup_same(v, w);
    }
    if let Ok(w) = v.archive_project(now, id) {
        assert(same_rollup(v, w));
        lemma_wf_same_keys(v, w);
        lemma_rollup_same(v, w);
    }
}

/// Editing, archiving and reordering tasks keeps the integrity and roll-up
/// rules.
pub proof fn law_task_edits_keep_invariants(
    v: PlannerView,
    now: Seq<char>,
    id: Seq<char>,
    gid: Seq<char>,
    title: Seq<char>,
    description: Option<Seq<char>>,
    deadline: Option<Seq<char>>,
    priority: i64,
    ordered: Seq<Seq<char>>,
)
    requires
        v.wf(),
        v.rollup_consistent(),
    ensures
        v.update_task(now, id, title, description, deadline, priority) matches Ok(w) ==> w.wf() && w.rollup_consistent(),
        v.archive_task(now, id) matches Ok(w) ==> w.wf() && w.rollup_consistent(),
        v.reorder_tasks(now, gid, ordered) matches Ok(w) ==> w.wf() && w.rollup_consistent(),
{
    if let Ok(w) = v.update_task(now, id, title, description, deadline, priority) {
        assert(same_rollup(v, w));
        lemma_wf_same_keys(v, w);
        lemma_rollup_same(v, w);
    }
    if let Ok(w) = v.archive_task(now, id) {
        assert(same_rollup(v, w));
        lemma_wf_same_keys(v, w);
        lemma_rollup_same(v, w);
    }
    if let Ok(w) = v.reorder_tasks(now, gid, ordered) {
        assert(same_rollup(v, w));
        lemma_wf_same_keys(v, w);
        lemma_rollup_same(v, w);
    }
}

/// Archiving and reordering microtasks keeps the integrity and roll-up
/// rules.
pub proof fn law_microtask_moves_keep_invariants(
    v: PlannerView,
    now: Seq<char>,
    id: Seq<char>,
    tid: Seq<char>,
    ordered: Seq<Seq<char>>,
)
    requires
        v.wf(),
        v.rollup_consistent(),
    ensures
        v.archive_microtask(now, id) matches Ok(w) ==> w.wf() && w.rollup_consistent(),
        v.reorder_microtasks(now, tid, ordered) matches Ok(w) ==> w.wf() && w.rollup_consistent(),
{
    if let Ok(w) = v.archive_microtask(now, id) {
        assert(same_rollup(v, w));
        lemma_wf_same_keys(v, w);
        lemma_rollup_same(v, w);
    }
    if let Ok(w) = v.reorder_microtasks(now, tid, ordered) {
        assert(same_rollup(v, w));
        lemma_wf_same_keys(v, w);
        lemma_rollup_same(v, w);
    }
}

/// Editing pomodoro types and choosing the default keeps the integrity and
/// roll-up rules.
pub proof fn law_type_edits_keep_invariants(
    v: PlannerView,
    now: Seq<char>,
    id: Seq<char>,
    name: Seq<char>,
    work_minutes: i64,
    rest_minutes: i64,
    long_break_minutes: Option<i64>,
    long_break_every: Option<i64>,
)
    requires
        v.wf(),
        v.rollup_consistent(),
    ensures
        v.update_pomodoro_type(now, id, name, work_minutes, rest_minutes, long_break_minutes, long_break_every) matches Ok(w) ==> w.wf() && w.rollup_consistent(),
        v.set_default_pomodoro_type(now, id) matches Ok(w) ==> w.wf() && w.rollup_consistent(),
{
    if let Ok(w) = v.update_pomodoro_type(now, id, name, work_minutes, rest_minutes, long_break_minutes, long_break_every) {
        assert(same_rollup(v, w));
        lemma_wf_same_keys(v, w);
        lemma_rollup_same(v, w);
    }
    if let Ok(w) = v.set_default_pomodoro_type(now, id) {
        assert(same_rollup(v, w));
        lemma_wf_same_keys(v, w);
        lemma_rollup_same(v, w);
    }
}

/// Editing a microtask keeps the integrity and roll-up rules: a pomodoro
/// type it names must exist.
pub proof fn law_microtask_update_keeps_invariants(
    v: PlannerView,
    now: Seq<char>,
    id: Seq<char>,
    title: Seq<char>,
    estimated_minutes: i64,
    pomodoro_count: i64,
    pomodoro_type_id: Option<Seq<char>>,
    deadline: Option<Seq<char>>,
    priority: i64,
)
    requires
        v.wf(),
        v.rollup_consistent(),
    ensures
        v.update_microtask(now, id, title, estimated_minutes, pomodoro_count, pomodoro_type_id, deadline, priority) matches Ok(w)
            ==> w.wf() && w.rollup_consistent(),
{
    if let Ok(w) = v.update_microtask(now, id, title, estimated_minutes, pomodoro_count, pomodoro_type_id, deadline, priority) {
        let u = PlannerView { microtasks: v.microtasks, ..w };
        assert(u == v);
        assert(microtask_ids(w.microtasks) =~= microtask_ids(v.microtasks));
        assert forall|i: int| 0 <= i < w.microtasks.len() implies w.has_task(#[trigger] w.microtasks[i].task_id) by {
            assert(w.microtasks[i].task_id == v.microtasks[i].task_id);
            assert(v.has_task(v.microtasks[i].task_id));
        }
        assert forall|i: int| 0 <= i < w.microtasks.len() implies match #[trigger] w.microtasks[i].pomodoro_type_id {
            Some(t) => w.has_pomodoro_type(t),
            None => true,
        } by {
            if w.microtasks[i].id != id {
                assert(w.microtasks[i] == v.microtasks[i]);
            }
        }
        assert forall|i: int|
            0 <= i < w.tasks.len() && #[trigger] w.tasks[i].status == crate::text::status_completed()
                implies !has_live_open_microtask(w.microtasks, w.tasks[i].id) by {
            if has_live_open_microtask(w.microtasks, w.tasks[i].id) {
                let j = choose|j: int|
                    0 <= j < w.microtasks.len() && #[trigger] w.microtasks[j].task_id == w.tasks[i].id
                        && w.microtasks[j].status == crate::text::status_open() && !w.microtasks[j].is_archived;
                assert(v.microtasks[j].task_id == v.tasks[i].id);
            }
        }
    }
}

/// Completing or reopening a microtask keeps the integrity rules, and, in a
/// store with unique ids, the roll-up rule.
pub proof fn law_completion_keeps_invariants(v: PlannerView, now: Seq<char>, id: Seq<char>)
    requires
        v.wf(),
        v.rollup_consistent(),
    ensures
        v.complete_microtask(now, id) matches Ok(w) ==> w.wf() && w.rollup_consistent(),
        v.uncomplete_microtask(now, id) matches Ok(w) ==> w.wf() && w.rollup_consistent(),
{
    crate::laws::law_complete_keeps_rollup(v, now, id);
    crate::laws::law_uncomplete_keeps_rollup(v, now, id);
    if let Ok(w) = v.complete_microtask(now, id) {
        assert(same_keys(v, w));
        lemma_wf_same_keys(v, w);
    }
    if let Ok(w) = v.uncomplete_microtask(now, id) {
        assert(same_keys(v, w));
        lemma_wf_same_keys(v, w);
    }
}

/// Creating a project keeps the integrity and roll-up rules.
pub proof fn law_create_project_keeps_invariants(
    v: PlannerView,
    now: Seq<char>,
    id: Seq<char>,
    name: Seq<char>,
    description: Option<Seq<char>>,
)
    requires
        v.wf(),
        v.rollup_consistent(),
    ensures
        v.create_project(now, id, name, description) matches Ok(w) ==> w.wf() && w.rollup_consistent(),
{
    if let Ok(w) = v.create_project(now, id, name, description) {
        let ids = project_ids(v.projects);
        assert(project_ids(w.projects) =~= ids.push(id));
        assert forall|x: Seq<char>| v.has_project(x) implies w.has_project(x) by {
            let k = choose|k: int| 0 <= k < ids.len() && ids[k] == x;
            assert(project_ids(w.projects)[k] == x);
        }
        assert forall|i: int| 0 <= i < w.goals.len() implies w.has_project(#[trigger] w.goals[i].project_id) by {
            assert(v.has_project(v.goals[i].project_id));
        }
    }
}

/// Creating a goal keeps the integrity and roll-up rules.
pub proof fn law_create_goal_keeps_invariants(
    v: PlannerView,
    now: Seq<char>,
    id: Seq<char>,
    pid: Seq<char>,
    title: Seq<char>,
    description: Option<Seq<char>>,
    deadline: Option<Seq<char>>,
    priority: i64,
)
    requires
        v.wf(),
        v.rollup_consistent(),
    ensures
        v.create_goal(now, id, pid, title, description, deadline, priority) matches Ok(w) ==> w.wf() && w.rollup_consistent(),
{
    if let Ok(w) = v.create_goal(now, id, pid, title, description, deadline, priority) {
        let ids = goal_ids(v.goals);
        assert(goal_ids(w.goals) =~= ids.push(id));
        assert forall|x: Seq<char>| v.has_goal(x) implies w.has_goal(x) by {
            let k = choose|k: int| 0 <= k < ids.len() && ids[k] == x;
            assert(goal_ids(w.goals)[k] == x);
        }
        assert forall|i: int| 0 <= i < w.goals.len() implies w.has_project(#[trigger] w.goals[i].project_id) by {
            if i < v.goals.len() {
                assert(w.goals[i] == v.goals[i]);
            }
        }
        assert forall|i: int| 0 <= i < w.tasks.len() implies w.has_goal(#[trigger] w.tasks[i].goal_id) by {
            assert(v.has_goal(v.tasks[i].goal_id));
        }
        assert forall|i: int|
            0 <= i < w.goals.len() && #[trigger] w.goals[i].status == crate::text::status_completed()
                implies !has_live_open_task(w.tasks, w.goals[i].id) by {
            if i < v.goals.len() {
                assert(w.goals[i] == v.goals[i]);
            }
        }
    }
}

/// Creating a task keeps the integrity and roll-up rules.
pub proof fn law_create_task_keeps_invariants(
    v: PlannerView,
    now: Seq<char>,
    id: Seq<char>,
    gid: Seq<char>,
    title: Seq<char>,
    description: Option<Seq<char>>,
    deadline: Option<Seq<char>>,
    priority: i64,
)
    requires
        v.wf(),
        v.rollup_consistent(),
    ensures
        v.create_task(now, id, gid, title, description, deadline, priority) matches Ok(w) ==> w.wf() && w.rollup_consistent(),
{
    if let Ok(w) = v.create_task(now, id, gid, title, description, deadline, priority) {
        let ids = task_ids(v.tasks);
        assert(task_ids(w.tasks) =~= ids.push(id));
        assert forall|x: Seq<char>| v.has_task(x) implies w.has_task(x) by {
            let k = choose|k: int| 0 <= k < ids.len() && ids[k] == x;
            assert(task_ids(w.tasks)[k] == x);
        }
        let j = choose|j: int|
            0 <= j < v.goals.len() && #[trigger] v.goals[j].id == gid && v.goals[j].status
                == crate::text::status_open() && !v.goals[j].is_archived;
        assert(goal_ids(v.goals)[j] == gid);
        assert forall|i: int| 0 <= i < w.tasks.len() implies w.has_goal(#[trigger] w.tasks[i].goal_id) by {
            if i < v.tasks.len() {
                assert(w.tasks[i] == v.tasks[i]);
            }
        }
        assert forall|i: int| 0 <= i < w.microtasks.len() implies w.has_task(#[trigger] w.microtasks[i].task_id) by {
            assert(v.has_task(v.microtasks[i].task_id));
        }
        assert forall|i: int|
            0 <= i < w.tasks.len() && #[trigger] w.tasks[i].status == crate::text::status_completed()
                implies !has_live_open_microtask(w.microtasks, w.tasks[i].id) by {
            if i < v.tasks.len() {
                assert(w.tasks[i] == v.tasks[i]);
            }
        }
        assert forall|i: int|
            0 <= i < w.goals.len() && #[trigger] w.goals[i].status == crate::text::status_completed()
                implies !has_live_open_task(w.tasks, w.goals[i].id) by {
            if has_live_open_task(w.tasks, w.goals[i].id) {
                let q = choose|q: int|
                    0 <= q < w.tasks.len() && #[trigger] w.tasks[q].goal_id == w.goals[i].id
                        && w.tasks[q].status == crate::text::status_open() && !w.tasks[q].is_archived;
                if q < v.tasks.len() {
                    assert(w.tasks[q] == v.tasks[q]);
                } else {
                    assert(goal_ids(v.goals)[i] == gid);
                    assert(i == j);
                }
            }
        }
    }
}

/// Creating a microtask keeps the integrity and roll-up rules.
pub proof fn law_create_microtask_keeps_invariants(
    v: PlannerView,
    now: Seq<char>,
    id: Seq<char>,
    tid: Seq<char>,
    title: Seq<char>,
    estimated_minutes: i64,
    pomodoro_count: i64,
    pomodoro_type_id: Option<Seq<char>>,
    deadline: Option<Seq<char>>,
    priority: i64,
)
    requires
        v.wf(),
        v.rollup_consistent(),
    ensures
        v.create_microtask(now, id, tid, title, estimated_minutes, pomodoro_count, pomodoro_type_id, deadline, priority)
            matches Ok(w) ==> w.wf() && w.rollup_consistent(),
{
    if let Ok(w) = v.create_microtask(now, id, tid, title, estimated_minutes, pomodoro_count, pomodoro_type_id, deadline, priority) {
        let ids = microtask_ids(v.microtasks);
        assert(microtask_ids(w.microtasks) =~= ids.push(id));
        crate::store::lemma_first_position_exists(task_ids(v.tasks), tid);
        let ti = crate::store::first_position(task_ids(v.tasks), tid);
        assert forall|i: int| 0 <= i < w.microtasks.len() implies w.has_task(#[trigger] w.microtasks[i].task_id) by {
            if i < v.microtasks.len() {
                assert(w.microtasks[i] == v.microtasks[i]);
            }
        }
        assert forall|i: int| 0 <= i < w.microtasks.len() implies match #[trigger] w.microtasks[i].pomodoro_type_id {
            Some(t) => w.has_pomodoro_type(t),
            None => true,
        } by {
            if i < v.microtasks.len() {
                assert(w.microtasks[i] == v.microtasks[i]);
            }
        }
        assert forall|i: int|
            0 <= i < w.tasks.len() && #[trigger] w.tasks[i].status == crate::text::status_completed()
                implies !has_live_open_microtask(w.microtasks, w.tasks[i].id) by {
            if has_live_open_microtask(w.microtasks, w.tasks[i].id) {
                let q = choose|q: int|
                    0 <= q < w.microtasks.len() && #[trigger] w.microtasks[q].task_id == w.tasks[i].id
                        && w.microtasks[q].status == crate::text::status_open() && !w.microtasks[q].is_archived;
                if q < v.microtasks.len() {
                    assert(w.microtasks[q] == v.microtasks[q]);
                } else {
                    assert(task_ids(v.tasks)[i] == tid);
                    assert(task_ids(v.tasks)[i] == task_ids(v.tasks)[ti]);
                    assert(i == ti);
                }
            }
        }
    }
}

/// Creating a pomodoro type keeps the integrity and roll-up rules.
pub proof fn law_create_type_keeps_invariants(
    v: PlannerView,
    now: Seq<char>,
    id: Seq<char>,
    name: Seq<char>,
    work_minutes: i64,
    rest_minutes: i64,
    long_break_minutes: Option<i64>,
    long_break_every: Option<i64>,
)
    requires
        v.wf(),
        v.rollup_consistent(),
    ensures
        v.create_pomodoro_type(now, id, name, work_minutes, rest_minutes, long_break_minutes, long_break_every) matches Ok(w)
            ==> w.wf() && w.rollup_consistent(),
{
    if let Ok(w) = v.create_pomodoro_type(now, id, name, work_minutes, rest_minutes, long_break_minutes, long_break_every) {
        let ids = type_ids(v.pomodoro_types);
        assert(type_ids(w.pomodoro_types) =~= ids.push(id));
        assert forall|x: Seq<char>| v.has_pomodoro_type(x) implies w.has_pomodoro_type(x) by {
            let k = choose|k: int| 0 <= k < ids.len() && ids[k] == x;
            assert(type_ids(w.pomodoro_types)[k] == x);
        }
        assert forall|i: int| 0 <= i < w.microtasks.len() implies match #[trigger] w.microtasks[i].pomodoro_type_id {
            Some(t) => w.has_pomodoro_type(t),
            None => true,
        } by {
            assert(w.microtasks[i] == v.microtasks[i]);
        }
    }
}

/// A filtered sequence is a subsequence: its rows sit, in order, at
/// increasing positions of `s`.
pub proof fn lemma_filter_embeds<T>(s: Seq<T>, p: spec_fn(T) -> bool) -> (m: Seq<int>)
    ensures
        m.len() == s.filter(p).len(),
        forall|i: int| 0 <= i < m.len() ==> 0 <= #[trigger] m[i] < s.len() && s.filter(p)[i] == s[m[i]],
        forall|i: int, j: int| 0 <= i < j < m.len() ==> #[trigger] m[i] < #[trigger] m[j],
    decreases s.len(),
{
    reveal(Seq::filter);
    if s.len() == 0 {
        Seq::<int>::empty()
    } else {
        let rest = s.drop_last();
        let m0 = lemma_filter_embeds(rest, p);
        let f0 = rest.filter(p);
        if p(s.last()) {
            let m = m0.push(s.len() - 1);
            assert forall|i: int| 0 <= i < m.len() implies 0 <= #[trigger] m[i] < s.len() && s.filter(p)[i] == s[m[i]] by {
                if i < m0.len() {
                    assert(s.filter(p)[i] == f0[i]);
                    assert(rest[m0[i]] == s[m0[i]]);
                }
            }
            m
        } else {
            assert forall|i: int| 0 <= i < m0.len() implies 0 <= #[trigger] m0[i] < s.len() && s.filter(p)[i] == s[m0[i]] by {
                assert(rest[m0[i]] == s[m0[i]]);
            }
            m0
        }
    }
}

/// Removing rows keeps the roll-up rule.
pub proof fn lemma_rollup_subrows(v: PlannerView, w: PlannerView)
    requires
        v.rollup_consistent(),
        forall|i: int| 0 <= i < w.goals.len() ==> v.goals.contains(#[trigger] w.goals[i]),
        forall|i: int| 0 <= i < w.tasks.len() ==> v.tasks.contains(#[trigger] w.tasks[i]),
        forall|i: int| 0 <= i < w.microtasks.len() ==> v.microtasks.contains(#[trigger] w.microtasks[i]),
    ensures
        w.rollup_consistent(),
{
    assert forall|i: int|
        0 <= i < w.tasks.len() && #[trigger] w.tasks[i].status == crate::text::status_completed()
            implies !has_live_open_microtask(w.microtasks, w.tasks[i].id) by {
        assert(v.tasks.contains(w.tasks[i]));
        let a = choose|a: int| 0 <= a < v.tasks.len() && v.tasks[a] == w.tasks[i];
        assert(v.tasks[a].status == crate::text::status_completed());
        if has_live_open_microtask(w.microtasks, w.tasks[i].id) {
            let j = choose|j: int|
                0 <= j < w.microtasks.len() && #[trigger] w.microtasks[j].task_id == w.tasks[i].id
                    && w.microtasks[j].status == crate::text::status_open() && !w.microtasks[j].is_archived;
            assert(v.microtasks.contains(w.microtasks[j]));
            let b = choose|b: int| 0 <= b < v.microtasks.len() && v.microtasks[b] == w.microtasks[j];
            assert(v.microtasks[b].task_id == v.tasks[a].id);
        }
    }
    assert forall|i: int|
        0 <= i < w.goals.len() && #[trigger] w.goals[i].status == crate::text::status_completed()
            implies !has_live_open_task(w.tasks, w.goals[i].id) by {
        assert(v.goals.contains(w.goals[i]));
        let a = choose|a: int| 0 <= a < v.goals.len() && v.goals[a] == w.goals[i];
        assert(v.goals[a].status == crate::text::status_completed());
        if has_live_open_task(w.tasks, w.goals[i].id) {
            let j = choose|j: int|
                0 <= j < w.tasks.len() && #[trigger] w.tasks[j].goal_id == w.goals[i].id
                    && w.tasks[j].status == crate::text::status_open() && !w.tasks[j].is_archived;
            assert(v.tasks.contains(w.tasks[j]));
            let b = choose|b: int| 0 <= b < v.tasks.len() && v.tasks[b] == w.tasks[j];
            assert(v.tasks[b].goal_id == v.goals[a].id);
        }
    }
}

proof fn unique_project_rows(s: Seq<ProjectView>)
    ensures
        ids_unique(project_ids(s)) <==> forall|a: int, b: int|
            0 <= a < s.len() && 0 <= b < s.len() && a != b ==> (#[trigger] s[a]).id != (#[trigger] s[b]).id,
{
    let ids = project_ids(s);
    if ids_unique(ids) {
        assert forall|a: int, b: int| 0 <= a < s.len() && 0 <= b < s.len() && a != b implies (#[trigger] s[a]).id != (#[trigger] s[b]).id by {
            assert(ids[a] == s[a].id && ids[b] == s[b].id);
        }
    }
    if forall|a: int, b: int| 0 <= a < s.len() && 0 <= b < s.len() && a != b ==> (#[trigger] s[a]).id != (#[trigger] s[b]).id {
        assert forall|a: int, b: int| 0 <= a < ids.len() && 0 <= b < ids.len() && a != b implies ids[a] != ids[b] by {
            assert(ids[a] == s[a].id && ids[b] == s[b].id);
        }
    }
}

proof fn unique_goal_rows(s: Seq<GoalView>)
    ensures
        ids_unique(goal_ids(s)) <==> forall|a: int, b: int|
            0 <= a < s.len() && 0 <= b < s.len() && a != b ==> (#[trigger] s[a]).id != (#[trigger] s[b]).id,
{
    let ids = goal_ids(s);
    if ids_unique(ids) {
        assert forall|a: int, b: int| 0 <= a < s.len() && 0 <= b < s.len() && a != b implies (#[trigger] s[a]).id != (#[trigger] s[b]).id by {
            assert(ids[a] == s[a].id && ids[b] == s[b].id);
        }
    }
    if forall|a: int, b: int| 0 <= a < s.len() && 0 <= b < s.len() && a != b ==> (#[trigger] s[a]).id != (#[trigger] s[b]).id {
        assert forall|a: int, b: int| 0 <= a < ids.len() && 0 <= b < ids.len() && a != b implies ids[a] != ids[b] by {
            assert(ids[a] == s[a].id && ids[b] == s[b].id);
        }
    }
}

proof fn unique_task_rows(s: Seq<TaskView>)
    ensures
        ids_unique(task_ids(s)) <==> forall|a: int, b: int|
            0 <= a < s.len() && 0 <= b < s.len() && a != b ==> (#[trigger] s[a]).id != (#[trigger] s[b]).id,
{
    let ids = task_ids(s);
    if ids_unique(ids) {
        assert forall|a: int, b: int| 0 <= a < s.len() && 0 <= b < s.len() && a != b implies (#[trigger] s[a]).id != (#[trigger] s[b]).id by {
            assert(ids[a] == s[a].id && ids[b] == s[b].id);
        }
    }
    if forall|a: int, b: int| 0 <= a < s.len() && 0 <= b < s.len() && a != b ==> (#[trigger] s[a]).id != (#[trigger] s[b]).id {
        assert forall|a: int, b: int| 0 <= a < ids.len() && 0 <= b < ids.len() && a != b implies ids[a] != ids[b] by {
            assert(ids[a] == s[a].id && ids[b] == s[b].id);
        }
    }
}

proof fn unique_microtask_rows(s: Seq<MicrotaskView>)
    ensures
        ids_unique(microtask_ids(s)) <==> forall|a: int, b: int|
            0 <= a < s.len() && 0 <= b < s.len() && a != b ==> (#[trigger] s[a]).id != (#[trigger] s[b]).id,
{
    let ids = microtask_ids(s);
    if ids_unique(ids) {
        assert forall|a: int, b: int| 0 <= a < s.len() && 0 <= b < s.len() && a != b implies (#[trigger] s[a]).id != (#[trigger] s[b]).id by {
            assert(ids[a] == s[a].id && ids[b] == s[b].id);
        }
    }
    if forall|a: int, b: int| 0 <= a < s.len() && 0 <= b < s.len() && a != b ==> (#[trigger] s[a]).id != (#[trigger] s[b]).id {
        assert forall|a: int, b: int| 0 <= a < ids.len() && 0 <= b < ids.len() && a != b implies ids[a] != ids[b] by {
            assert(ids[a] == s[a].id && ids[b] == s[b].id);
        }
    }
}

proof fn unique_type_rows(s: Seq<PomodoroTypeView>)
    ensures
        ids_unique(type_ids(s)) <==> forall|a: int, b: int|
            0 <= a < s.len() && 0 <= b < s.len() && a != b ==> (#[trigger] s[a]).id != (#[trigger] s[b]).id,
{
    let ids = type_ids(s);
    if ids_unique(ids) {
        assert forall|a: int, b: int| 0 <= a < s.len() && 0 <= b < s.len() && a != b implies (#[trigger] s[a]).id != (#[trigger] s[b]).id by {
            assert(ids[a] == s[a].id && ids[b] == s[b].id);
        }
    }
    if forall|a: int, b: int| 0 <= a < s.len() && 0 <= b < s.len() && a != b ==> (#[trigger] s[a]).id != (#[trigger] s[b]).id {
        assert forall|a: int, b: int| 0 <= a < ids.len() && 0 <= b < ids.len() && a != b implies ids[a] != ids[b] by {
            assert(ids[a] == s[a].id && ids[b] == s[b].id);
        }
    }
}

/// Filtering keeps keys that were unique unique, and keeps only rows of
/// `s`.
pub proof fn lemma_filter_keeps_unique<T>(s: Seq<T>, p: spec_fn(T) -> bool, key: spec_fn(T) -> Seq<char>)
    requires
        forall|a: int, b: int| 0 <= a < s.len() && 0 <= b < s.len() && a != b ==> key(#[trigger] s[a]) != key(#[trigger] s[b]),
    ensures
        forall|a: int, b: int|
            0 <= a < s.filter(p).len() && 0 <= b < s.filter(p).len() && a != b ==> key(#[trigger] s.filter(p)[a]) != key(
                #[trigger] s.filter(p)[b],
            ),
        forall|i: int| 0 <= i < s.filter(p).len() ==> s.contains(#[trigger] s.filter(p)[i]),
{
    let m = lemma_filter_embeds(s, p);
    let f = s.filter(p);
    assert forall|a: int, b: int| 0 <= a < f.len() && 0 <= b < f.len() && a != b implies key(#[trigger] f[a]) != key(#[trigger] f[b]) by {
        assert(f[a] == s[m[a]] && f[b] == s[m[b]]);
        if a < b {
            assert(m[a] < m[b]);
        } else {
            assert(m[b] < m[a]);
        }
    }
    assert forall|i: int| 0 <= i < f.len() implies s.contains(#[trigger] f[i]) by {
        assert(f[i] == s[m[i]]);
    }
}

/// Deleting a goal, with its tasks and their microtasks, keeps the integrity
/// and roll-up rules.
pub proof fn law_delete_goal_keeps_invariants(v: PlannerView, id: Seq<char>)
    requires
        v.wf(),
        v.rollup_consistent(),
    ensures
        v.delete_goal(id) matches Ok(w) ==> w.wf() && w.rollup_consistent(),
{
    broadcast use vstd::seq_lib::group_filter_ensures;

    if let Ok(w) = v.delete_goal(id) {
        let gone = seq![id];
        let gone_tasks = task_ids(tasks_inside_goals(v.tasks, gone));
        unique_goal_rows(v.goals);
        unique_task_rows(v.tasks);
        unique_microtask_rows(v.microtasks);
        lemma_filter_keeps_unique(v.goals, |r: GoalView| !gone.contains(r.id), |r: GoalView| r.id);
        lemma_filter_keeps_unique(v.tasks, |r: TaskView| !gone.contains(r.goal_id), |r: TaskView| r.id);
        lemma_filter_keeps_unique(v.microtasks, |r: MicrotaskView| !gone_tasks.contains(r.task_id), |r: MicrotaskView| r.id);
        assert(w.goals == v.goals.filter(|r: GoalView| !gone.contains(r.id)));
        assert(ids_unique(goal_ids(w.goals)));
        assert(ids_unique(task_ids(w.tasks)));
        assert(ids_unique(microtask_ids(w.microtasks)));
        assert forall|i: int| 0 <= i < w.goals.len() implies w.has_project(#[trigger] w.goals[i].project_id) by {
            assert(v.goals.contains(w.goals[i]));
        }
        assert forall|i: int| 0 <= i < w.tasks.len() implies w.has_goal(#[trigger] w.tasks[i].goal_id) by {
            let t = w.tasks[i];
            assert(v.tasks.contains(t));
            assert(!gone.contains(t.goal_id));
            let a = choose|a: int| 0 <= a < v.tasks.len() && v.tasks[a] == t;
            assert(v.has_goal(v.tasks[a].goal_id));
            let k = choose|k: int| 0 <= k < goal_ids(v.goals).len() && goal_ids(v.goals)[k] == t.goal_id;
            assert(v.goals[k].id == t.goal_id);
            assert(w.goals.contains(v.goals[k]));
            let q = choose|q: int| 0 <= q < w.goals.len() && w.goals[q] == v.goals[k];
            assert(goal_ids(w.goals)[q] == t.goal_id);
        }
        assert forall|i: int| 0 <= i < w.microtasks.len() implies w.has_task(#[trigger] w.microtasks[i].task_id) by {
            let m = w.microtasks[i];
            assert(v.microtasks.contains(m));
            assert(!gone_tasks.contains(m.task_id));
            let a = choose|a: int| 0 <= a < v.microtasks.len() && v.microtasks[a] == m;
            assert(v.has_task(v.microtasks[a].task_id));
            let k = choose|k: int| 0 <= k < task_ids(v.tasks).len() && task_ids(v.tasks)[k] == m.task_id;
            assert(v.tasks[k].id == m.task_id);
            if gone.contains(v.tasks[k].goal_id) {
                assert(tasks_inside_goals(v.tasks, gone).contains(v.tasks[k]));
                let q = choose|q: int| 0 <= q < tasks_inside_goals(v.tasks, gone).len() && tasks_inside_goals(v.tasks, gone)[q] == v.tasks[k];
                assert(gone_tasks[q] == m.task_id);
            }
            assert(w.tasks.contains(v.tasks[k]));
            let q = choose|q: int| 0 <= q < w.tasks.len() && w.tasks[q] == v.tasks[k];
            assert(task_ids(w.tasks)[q] == m.task_id);
        }
        assert forall|i: int| 0 <= i < w.microtasks.len() implies match #[trigger] w.microtasks[i].pomodoro_type_id {
            Some(t) => w.has_pomodoro_type(t),
            None => true,
        } by {
            assert(v.microtasks.contains(w.microtasks[i]));
        }
        lemma_rollup_subrows(v, w);
    }
}

/// Deleting a task, with its microtasks, keeps the integrity and roll-up
/// rules.
pub proof fn law_delete_task_keeps_invariants(v: PlannerView, id: Seq<char>)
    requires
        v.wf(),
        v.rollup_consistent(),
    ensures
        v.delete_task(id) matches Ok(w) ==> w.wf() && w.rollup_consistent(),
{
    broadcast use vstd::seq_lib::group_filter_ensures;

    if let Ok(w) = v.delete_task(id) {
        let gone = seq![id];
        unique_task_rows(v.tasks);
        unique_microtask_rows(v.microtasks);
        lemma_filter_keeps_unique(v.tasks, |r: TaskView| !gone.contains(r.id), |r: TaskView| r.id);
        lemma_filter_keeps_unique(v.microtasks, |r: MicrotaskView| !gone.contains(r.task_id), |r: MicrotaskView| r.id);
        unique_task_rows(w.tasks);
        unique_microtask_rows(w.microtasks);
        assert forall|i: int| 0 <= i < w.tasks.len() implies w.has_goal(#[trigger] w.tasks[i].goal_id) by {
            assert(v.tasks.contains(w.tasks[i]));
        }
        assert forall|i: int| 0 <= i < w.microtasks.len() implies w.has_task(#[trigger] w.microtasks[i].task_id) by {
            let m = w.microtasks[i];
            assert(v.microtasks.contains(m));
            assert(!gone.contains(m.task_id));
            let a = choose|a: int| 0 <= a < v.microtasks.len() && v.microtasks[a] == m;
            assert(v.has_task(v.microtasks[a].task_id));
            let k = choose|k: int| 0 <= k < task_ids(v.tasks).len() && task_ids(v.tasks)[k] == m.task_id;
            assert(v.tasks[k].id == m.task_id);
            assert(w.tasks.contains(v.tasks[k]));
            let q = choose|q: int| 0 <= q < w.tasks.len() && w.tasks[q] == v.tasks[k];
            assert(task_ids(w.tasks)[q] == m.task_id);
        }
        assert forall|i: int| 0 <= i < w.microtasks.len() implies match #[trigger] w.microtasks[i].pomodoro_type_id {
            Some(t) => w.has_pomodoro_type(t),
            None => true,
        } by {
            assert(v.microtasks.contains(w.microtasks[i]));
        }
        lemma_rollup_subrows(v, w);
    }
}

/// Deleting a microtask keeps the integrity and roll-up rules.
pub proof fn law_delete_microtask_keeps_invariants(v: PlannerView, id: Seq<char>)
    requires
        v.wf(),
        v.rollup_consistent(),
    ensures
        v.delete_microtask(id) matches Ok(w) ==> w.wf() && w.rollup_consistent(),
{
    broadcast use vstd::seq_lib::group_filter_ensures;

    if let Ok(w) = v.delete_microtask(id) {
        let gone = seq![id];
        unique_microtask_rows(v.microtasks);
        lemma_filter_keeps_unique(v.microtasks, |r: MicrotaskView| !gone.contains(r.id), |r: MicrotaskView| r.id);
        unique_microtask_rows(w.microtasks);
        assert forall|i: int| 0 <= i < w.microtasks.len() implies w.has_task(#[trigger] w.microtasks[i].task_id) by {
            assert(v.microtasks.contains(w.microtasks[i]));
        }
        assert forall|i: int| 0 <= i < w.microtasks.len() implies match #[trigger] w.microtasks[i].pomodoro_type_id {
            Some(t) => w.has_pomodoro_type(t),
            None => true,
        } by {
            assert(v.microtasks.contains(w.microtasks[i]));
        }
        lemma_rollup_subrows(v, w);
    }
}

/// Deleting a project, with its goals, their tasks and those tasks'
/// microtasks, keeps the integrity and roll-up rules.
pub proof fn law_delete_project_keeps_invariants(v: PlannerView, id: Seq<char>)
    requires
        v.wf(),
        v.rollup_consistent(),
    ensures
        v.delete_project(id) matches Ok(w) ==> w.wf() && w.rollup_consistent(),
{
    broadcast use vstd::seq_lib::group_filter_ensures;

    if let Ok(w) = v.delete_project(id) {
        let gone = seq![id];
        let gone_goals = goal_ids(goals_inside_projects(v.goals, gone));
        let gone_tasks = task_ids(tasks_inside_goals(v.tasks, gone_goals));
        unique_project_rows(v.projects);
        unique_goal_rows(v.goals);
        unique_task_rows(v.tasks);
        unique_microtask_rows(v.microtasks);
        lemma_filter_keeps_unique(v.projects, |r: ProjectView| !gone.contains(r.id), |r: ProjectView| r.id);
        lemma_filter_keeps_unique(v.goals, |r: GoalView| !gone.contains(r.project_id), |r: GoalView| r.id);
        lemma_filter_keeps_unique(v.tasks, |r: TaskView| !gone_goals.contains(r.goal_id), |r: TaskView| r.id);
        lemma_filter_keeps_unique(v.microtasks, |r: MicrotaskView| !gone_tasks.contains(r.task_id), |r: MicrotaskView| r.id);
        unique_project_rows(w.projects);
        unique_goal_rows(w.goals);
        unique_task_rows(w.tasks);
        unique_microtask_rows(w.microtasks);
        assert forall|i: int| 0 <= i < w.goals.len() implies w.has_project(#[trigger] w.goals[i].project_id) by {
            let g = w.goals[i];
            assert(v.goals.contains(g));
            assert(!gone.contains(g.project_id));
            let a = choose|a: int| 0 <= a < v.goals.len() && v.goals[a] == g;
            assert(v.has_project(v.goals[a].project_id));
            let k = choose|k: int| 0 <= k < project_ids(v.projects).len() && project_ids(v.projects)[k] == g.project_id;
            assert(v.projects[k].id == g.project_id);
            assert(w.projects.contains(v.projects[k]));
            let q = choose|q: int| 0 <= q < w.projects.len() && w.projects[q] == v.projects[k];
            assert(project_ids(w.projects)[q] == g.project_id);
        }
        assert forall|i: int| 0 <= i < w.tasks.len() implies w.has_goal(#[trigger] w.tasks[i].goal_id) by {
            let t = w.tasks[i];
            assert(v.tasks.contains(t));
            assert(!gone_goals.contains(t.goal_id));
            let a = choose|a: int| 0 <= a < v.tasks.len() && v.tasks[a] == t;
            assert(v.has_goal(v.tasks[a].goal_id));
            let k = choose|k: int| 0 <= k < goal_ids(v.goals).len() && goal_ids(v.goals)[k] == t.goal_id;
            assert(v.goals[k].id == t.goal_id);
            if gone.contains(v.goals[k].project_id) {
                assert(goals_inside_projects(v.goals, gone).contains(v.goals[k]));
                let q = choose|q: int| 0 <= q < goals_inside_projects(v.goals, gone).len() && goals_inside_projects(v.goals, gone)[q] == v.goals[k];
                assert(gone_goals[q] == t.goal_id);
            }
            assert(w.goals.contains(v.goals[k]));
            let q = choose|q: int| 0 <= q < w.goals.len() && w.goals[q] == v.goals[k];
            assert(goal_ids(w.goals)[q] == t.goal_id);
        }
        assert forall|i: int| 0 <= i < w.microtasks.len() implies w.has_task(#[trigger] w.microtasks[i].task_id) by {
            let m = w.microtasks[i];
            assert(v.microtasks.contains(m));
            assert(!gone_tasks.contains(m.task_id));
            let a = choose|a: int| 0 <= a < v.microtasks.len() && v.microtasks[a] == m;
            assert(v.has_task(v.microtasks[a].task_id));
            let k = choose|k: int| 0 <= k < task_ids(v.tasks).len() && task_ids(v.tasks)[k] == m.task_id;
            assert(v.tasks[k].id == m.task_id);
            if gone_goals.contains(v.tasks[k].goal_id) {
                assert(tasks_inside_goals(v.tasks, gone_goals).contains(v.tasks[k]));
                let q = choose|q: int| 0 <= q < tasks_inside_goals(v.tasks, gone_goals).len() && tasks_inside_goals(v.tasks, gone_goals)[q] == v.tasks[k];
                assert(gone_tasks[q] == m.task_id);
            }
            assert(w.tasks.contains(v.tasks[k]));
            let q = choose|q: int| 0 <= q < w.tasks.len() && w.tasks[q] == v.tasks[k];
            assert(task_ids(w.tasks)[q] == m.task_id);
        }
        assert forall|i: int| 0 <= i < w.microtasks.len() implies match #[trigger] w.microtasks[i].pomodoro_type_id {
            Some(t) => w.has_pomodoro_type(t),
            None => true,
        } by {
            assert(v.microtasks.contains(w.microtasks[i]));
        }
        lemma_rollup_subrows(v, w);
    }
}

/// Deleting a pomodoro type, which clears it from the microtasks that used
/// it, keeps the integrity and roll-up rules.
pub proof fn law_delete_type_keeps_invariants(v: PlannerView, id: Seq<char>)
    requires
        v.wf(),
        v.rollup_consistent(),
    ensures
        v.delete_pomodoro_type(id) matches Ok(w) ==> w.wf() && w.rollup_consistent(),
{
    broadcast use vstd::seq_lib::group_filter_ensures;

    if let Ok(w) = v.delete_pomodoro_type(id) {
        let gone = seq![id];
        unique_type_rows(v.pomodoro_types);
        lemma_filter_keeps_unique(v.pomodoro_types, |r: PomodoroTypeView| !gone.contains(r.id), |r: PomodoroTypeView| r.id);
        unique_type_rows(w.pomodoro_types);
        assert(microtask_ids(w.microtasks) =~= microtask_ids(v.microtasks));
        assert forall|i: int| 0 <= i < w.microtasks.len() implies w.has_task(#[trigger] w.microtasks[i].task_id) by {
            assert(v.has_task(v.microtasks[i].task_id));
        }
        assert forall|i: int| 0 <= i < w.microtasks.len() implies match #[trigger] w.microtasks[i].pomodoro_type_id {
            Some(t) => w.has_pomodoro_type(t),
            None => true,
        } by {
            if let Some(t) = w.microtasks[i].pomodoro_type_id {
                assert(v.microtasks[i].pomodoro_type_id == Some(t));
                assert(t != id);
                let k = choose|k: int| 0 <= k < type_ids(v.pomodoro_types).len() && type_ids(v.pomodoro_types)[k] == t;
                assert(v.pomodoro_types[k].id == t);
                assert(w.pomodoro_types.contains(v.pomodoro_types[k]));
                let q = choose|q: int| 0 <= q < w.pomodoro_types.len() && w.pomodoro_types[q] == v.pomodoro_types[k];
                assert(type_ids(w.pomodoro_types)[q] == t);
            }
        }
        assert forall|i: int|
            0 <= i < w.tasks.len() && #[trigger] w.tasks[i].status == crate::text::status_completed()
                implies !has_live_open_microtask(w.microtasks, w.tasks[i].id) by {
            if has_live_open_microtask(w.microtasks, w.tasks[i].id) {
                let j = choose|j: int|
                    0 <= j < w.microtasks.len() && #[trigger] w.microtasks[j].task_id == w.tasks[i].id
                        && w.microtasks[j].status == crate::text::status_open() && !w.microtasks[j].is_archived;
                assert(v.microtasks[j].task_id == v.tasks[i].id);
            }
        }
    }
}

} // verus!
