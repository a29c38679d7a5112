//! Laws of the planner that span operations: what every operation keeps, and
//! how operations combine.

use vstd::prelude::*;
use crate::error::ErrorView;
use crate::rollup::{
    goals_completed, goals_reopened, microtasks_completed, microtasks_reopened, tasks_completed,
    tasks_reopened,
};
use crate::store::{
    first_position, has_live_open_microtask, has_live_open_task, is_first_position,
    lemma_first_position, lemma_first_position_exists, microtask_ids, task_ids, PlannerView,
};
use crate::text::{is_blank, lemma_trim_empty_iff_blank, status_completed, status_open, text_le};
use crate::project_service::listed_projects;
use crate::order::lemma_sorted_by_text;
use crate::store::{type_ids, ids_unique, goal_ids};
use crate::goal_service::live_goals_of;
use crate::sort_order::{goal_sort_orders, lemma_seq_max, next_sort_order, seq_max};
use crate::tree::{ordered_goals, goal_sort_keys};
use crate::order::{arranged, lemma_sorted_by_int, sorted_by_int};
use crate::models::GoalView;
use crate::goal_service::goals_reordered;
use crate::task_service::{live_tasks_of, tasks_reordered};
use crate::microtask_service::{live_microtasks_of, microtasks_reordered};
use crate::models::{TaskView, MicrotaskView};
use crate::tree::{ordered_tasks, ordered_microtasks, task_sort_keys, microtask_sort_keys};
use crate::reorder::is_exact_reorder;
use crate::precheck::blank_settled;
use crate::goal_service::{create_goal_settled, reorder_goals_settled};
use crate::task_service::reorder_tasks_settled;
use crate::microtask_service::{
    complete_microtask_settled, create_microtask_settled, reorder_microtasks_settled,
    uncomplete_microtask_settled, update_microtask_settled,
};
use crate::pomodoro_type_service::type_fields_settled;

verus! {

proof fn lemma_microtasks_completed_no_new_open(ms: Seq<crate::models::MicrotaskView>, id: Seq<char>, now: Seq<char>, tid: Seq<char>)
    ensures
        has_live_open_microtask(microtasks_completed(ms, id, now), tid) ==> has_live_open_microtask(ms, tid),
{
    let ms1 = microtasks_completed(ms, id, now);
    if has_live_open_microtask(ms1, tid) {
        let j = choose|j: int|
            0 <= j < ms1.len() && #[trigger] ms1[j].task_id == tid && ms1[j].status == status_open()
                && !ms1[j].is_archived;
        reveal_strlit("open");
        assert(ms[j].task_id == tid);
    }
}

proof fn lemma_tasks_completed_no_new_open(ts: Seq<crate::models::TaskView>, id: Seq<char>, now: Seq<char>, gid: Seq<char>)
    ensures
        has_live_open_task(tasks_completed(ts, id, now), gid) ==> has_live_open_task(ts, gid),
{
    let ts1 = tasks_completed(ts, id, now);
    if has_live_open_task(ts1, gid) {
        let j = choose|j: int|
            0 <= j < ts1.len() && #[trigger] ts1[j].goal_id == gid && ts1[j].status == status_open()
                && !ts1[j].is_archived;
        assert(ts[j].goal_id == gid);
    }
}

/// Completing a microtask keeps the roll-up rule: no completed task is left
/// with an open, unarchived microtask, and no completed goal with an open,
/// unarchived task.
pub proof fn law_complete_keeps_rollup(v: PlannerView, now: Seq<char>, id: Seq<char>)
    requires
        v.rollup_consistent(),
    ensures
        v.complete_microtask(now, id) matches Ok(w) ==> w.rollup_consistent(),
{
    let ids = microtask_ids(v.microtasks);
    if ids.contains(id) {
        let m = v.microtasks[first_position(ids, id)];
        if m.status != status_completed() {
            let ms = microtasks_completed(v.microtasks, id, now);
            let ts = tasks_completed(v.tasks, m.task_id, now);
            assert forall|t: Seq<char>| #[trigger] has_live_open_microtask(ms, t) implies has_live_open_microtask(v.microtasks, t) by {
                lemma_microtasks_completed_no_new_open(v.microtasks, id, now, t);
            }
            assert forall|g: Seq<char>| #[trigger] has_live_open_task(ts, g) implies has_live_open_task(v.tasks, g) by {
                lemma_tasks_completed_no_new_open(v.tasks, m.task_id, now, g);
            }
            if let Ok(w) = v.complete_microtask(now, id) {
                assert forall|i: int|
                    0 <= i < w.tasks.len() && #[trigger] w.tasks[i].status == status_completed()
                        implies !has_live_open_microtask(w.microtasks, w.tasks[i].id) by {
                    if v.tasks[i].status == status_completed() {
                        assert(v.tasks[i].id == w.tasks[i].id);
                    }
                }
                assert forall|i: int|
                    0 <= i < w.goals.len() && #[trigger] w.goals[i].status == status_completed()
                        implies !has_live_open_task(w.tasks, w.goals[i].id) by {
                    if v.goals[i].status == status_completed() {
                        assert(v.goals[i].id == w.goals[i].id);
                    }
                }
            }
        }
    }
}

/// Reopening a microtask keeps the roll-up rule in a store whose ids are
/// unique: its task and goal reopen, so neither stays completed above an open
/// row.
pub proof fn law_uncomplete_keeps_rollup(v: PlannerView, now: Seq<char>, id: Seq<char>)
    requires
        v.wf(),
        v.rollup_consistent(),
    ensures
        v.uncomplete_microtask(now, id) matches Ok(w) ==> w.rollup_consistent(),
{
    let ids = microtask_ids(v.microtasks);
    if let Ok(w) = v.uncomplete_microtask(now, id) {
        if ids.contains(id) {
            lemma_first_position_exists(ids, id);
            let k = first_position(ids, id);
            let m = v.microtasks[k];
            if m.status != status_open() {
                let tids = task_ids(v.tasks);
                lemma_first_position_exists(tids, m.task_id);
                let ti = first_position(tids, m.task_id);
                let gid = v.tasks[ti].goal_id;
                assert forall|i: int|
                    0 <= i < w.tasks.len() && #[trigger] w.tasks[i].status == status_completed()
                        implies !has_live_open_microtask(w.microtasks, w.tasks[i].id) by {
                    assert(v.tasks[i].status == status_completed());
                    assert(v.tasks[i].id != m.task_id);
                    if has_live_open_microtask(w.microtasks, w.tasks[i].id) {
                        let j = choose|j: int|
                            0 <= j < w.microtasks.len() && #[trigger] w.microtasks[j].task_id
                                == w.tasks[i].id && w.microtasks[j].status == status_open()
                                && !w.microtasks[j].is_archived;
                        if v.microtasks[j].id == id {
                            assert(ids[j] == ids[k]);
                            assert(j == k);
                        } else {
                            assert(v.microtasks[j] == w.microtasks[j]);
                            assert(has_live_open_microtask(v.microtasks, v.tasks[i].id));
                        }
                    }
                }
                assert forall|i: int|
                    0 <= i < w.goals.len() && #[trigger] w.goals[i].status == status_completed()
                        implies !has_live_open_task(w.tasks, w.goals[i].id) by {
                    assert(v.goals[i].status == status_completed());
                    assert(v.goals[i].id != gid);
                    if has_live_open_task(w.tasks, w.goals[i].id) {
                        let j = choose|j: int|
                            0 <= j < w.tasks.len() && #[trigger] w.tasks[j].goal_id == w.goals[i].id
                                && w.tasks[j].status == status_open() && !w.tasks[j].is_archived;
                        if v.tasks[j].id == m.task_id && v.tasks[j].status == status_completed() {
                            assert(tids[j] == tids[ti]);
                            assert(j == ti);
                        } else {
                            assert(v.tasks[j] == w.tasks[j]);
                            assert(has_live_open_task(v.tasks, v.goals[i].id));
                        }
                    }
                }
            }
        }
    }
}

/// Completing a microtask that was just completed changes nothing more:
/// completion is idempotent.
pub proof fn law_complete_idempotent(v: PlannerView, now1: Seq<char>, now2: Seq<char>, id: Seq<char>)
    ensures
        v.complete_microtask(now1, id) matches Ok(w) ==> w.complete_microtask(now2, id) == Ok::<PlannerView, ErrorView>(w),
{
    if let Ok(w) = v.complete_microtask(now1, id) {
        let ids = microtask_ids(v.microtasks);
        assert(microtask_ids(w.microtasks) =~= ids);
        lemma_first_position_exists(ids, id);
    }
}

/// Reopening a microtask that was just reopened changes nothing more.
pub proof fn law_uncomplete_idempotent(v: PlannerView, now1: Seq<char>, now2: Seq<char>, id: Seq<char>)
    ensures
        v.uncomplete_microtask(now1, id) matches Ok(w) ==> w.uncomplete_microtask(now2, id) == Ok::<PlannerView, ErrorView>(w),
{
    if let Ok(w) = v.uncomplete_microtask(now1, id) {
        let ids = microtask_ids(v.microtasks);
        assert(microtask_ids(w.microtasks) =~= ids);
        lemma_first_position_exists(ids, id);
    }
}

/// The status of every row of the store, table by table.
pub open spec fn statuses(v: PlannerView) -> (Seq<Seq<char>>, Seq<Seq<char>>, Seq<Seq<char>>) {
    (
        v.microtasks.map_values(|m: crate::models::MicrotaskView| m.status),
        v.tasks.map_values(|t: crate::models::TaskView| t.status),
        v.goals.map_values(|g: crate::models::GoalView| g.status),
    )
}

/// In a store with unique ids, reopening a microtask right after completing
/// it restores the status of every microtask, task and goal, provided the
/// microtask, its task and the task's goal were open; projects and pomodoro
/// types are never touched.
pub proof fn law_complete_then_uncomplete(v: PlannerView, now1: Seq<char>, now2: Seq<char>, id: Seq<char>)
    requires
        v.wf(),
        v.has_microtask(id),
        v.microtask_row(id).status == status_open(),
        v.has_task(v.microtask_row(id).task_id),
        v.task_row(v.microtask_row(id).task_id).status == status_open(),
        v.has_goal(v.task_row(v.microtask_row(id).task_id).goal_id),
        v.goal_row(v.task_row(v.microtask_row(id).task_id).goal_id).status == status_open(),
    ensures
        v.complete_microtask(now1, id) matches Ok(w) && w.uncomplete_microtask(now2, id) matches Ok(x)
            && statuses(x) == statuses(v) && x.projects == v.projects
            && x.pomodoro_types == v.pomodoro_types,
{
    let ids = microtask_ids(v.microtasks);
    lemma_first_position_exists(ids, id);
    let k = first_position(ids, id);
    let m = v.microtask_row(id);
    let tids = task_ids(v.tasks);
    lemma_first_position_exists(tids, m.task_id);
    let ti = first_position(tids, m.task_id);
    let gid = v.tasks[ti].goal_id;
    let gids = crate::store::goal_ids(v.goals);
    lemma_first_position_exists(gids, gid);
    let gi = first_position(gids, gid);
    let w = v.complete_microtask(now1, id)->Ok_0;
    assert(microtask_ids(w.microtasks) =~= ids);
    assert(task_ids(w.tasks) =~= tids);
    assert(w.microtasks[k].status == status_completed());
    assert(w.microtask_row(id) == w.microtasks[k]);
    assert(w.task_row(m.task_id) == w.tasks[ti]);
    let x = w.uncomplete_microtask(now2, id)->Ok_0;
    let (a0, b0, c0) = statuses(v);
    let (a1, b1, c1) = statuses(x);
    assert forall|j: int| 0 <= j < a0.len() implies a1[j] == a0[j] by {
        if v.microtasks[j].id == id {
            assert(ids[j] == ids[k]);
        }
    }
    assert(a1 =~= a0);
    assert forall|j: int| 0 <= j < b0.len() implies b1[j] == b0[j] by {
        if v.tasks[j].id == m.task_id {
            assert(tids[j] == tids[ti]);
        }
    }
    assert(b1 =~= b0);
    assert forall|j: int| 0 <= j < c0.len() implies c1[j] == c0[j] by {
        if v.goals[j].id == gid {
            assert(gids[j] == gids[gi]);
        }
    }
    assert(c1 =~= c0);
}

/// After pomodoro type `id` is made the default, the default rows are
/// exactly the rows with that id; in a store with unique ids there is
/// exactly one.
pub proof fn law_set_default_is_exclusive(v: PlannerView, now: Seq<char>, id: Seq<char>)
    ensures
        v.set_default_pomodoro_type(now, id) matches Ok(w) ==> {
            &&& forall|i: int|
                0 <= i < w.pomodoro_types.len() ==> (#[trigger] w.pomodoro_types[i].is_default <==> w.pomodoro_types[i].id == id)
            &&& v.wf() ==> exists|i: int|
                0 <= i < w.pomodoro_types.len() && #[trigger] w.pomodoro_types[i].is_default && forall|j: int|
                    0 <= j < w.pomodoro_types.len() && #[trigger] w.pomodoro_types[j].is_default ==> j == i
        },
{
    if let Ok(w) = v.set_default_pomodoro_type(now, id) {
        if v.wf() {
            let ids = type_ids(v.pomodoro_types);
            let k = choose|k: int| 0 <= k < ids.len() && ids[k] == id;
            assert(w.pomodoro_types[k].is_default);
            assert forall|j: int|
                0 <= j < w.pomodoro_types.len() && #[trigger] w.pomodoro_types[j].is_default implies j == k by {
                assert(ids[j] == ids[k]);
            }
        }
    }
}

/// A new goal goes after every goal of its project, archived ones included.
pub proof fn law_new_goal_goes_last(
    v: PlannerView,
    now: Seq<char>,
    id: Seq<char>,
    pid: Seq<char>,
    title: Seq<char>,
    description: Option<Seq<char>>,
    deadline: Option<Seq<char>>,
    priority: i64,
)
    ensures
        v.create_goal(now, id, pid, title, description, deadline, priority) matches Ok(w) ==> {
            &&& w.goals.len() == v.goals.len() + 1
            &&& w.goals.last().id == id
            &&& forall|i: int|
                0 <= i < v.goals.len() && #[trigger] v.goals[i].project_id == pid ==> v.goals[i].sort_order
                    < w.goals.last().sort_order
        },
{
    broadcast use vstd::seq_lib::group_filter_ensures;

    if let Ok(w) = v.create_goal(now, id, pid, title, description, deadline, priority) {
        let sibs = goal_sort_orders(v.goals, pid);
        lemma_seq_max(sibs);
        assert forall|i: int| 0 <= i < v.goals.len() && #[trigger] v.goals[i].project_id == pid implies v.goals[i].sort_order
            < w.goals.last().sort_order by {
            let f = v.goals.filter(|g: GoalView| g.project_id == pid);
            assert(f.contains(v.goals[i]));
            let k = choose|k: int| 0 <= k < f.len() && f[k] == v.goals[i];
            assert(sibs[k] == v.goals[i].sort_order);
        }
    }
}

/// The goals of a project come back as its unarchived goals, each once, in
/// sort order.
pub proof fn law_ordered_goals(gs: Seq<GoalView>, pid: Seq<char>)
    requires
        gs.len() <= usize::MAX,
    ensures
        ordered_goals(gs, pid).len() == live_goals_of(gs, pid).len(),
        forall|i: int|
            0 <= i < ordered_goals(gs, pid).len() ==> #[trigger] ordered_goals(gs, pid)[i].project_id == pid
                && !ordered_goals(gs, pid)[i].is_archived,
        forall|a: int, b: int|
            0 <= a < b < ordered_goals(gs, pid).len() ==> #[trigger] ordered_goals(gs, pid)[a].sort_order
                <= #[trigger] ordered_goals(gs, pid)[b].sort_order,
        forall|k: int| 0 <= k < live_goals_of(gs, pid).len() ==> ordered_goals(gs, pid).contains(#[trigger] live_goals_of(gs, pid)[k]),
{
    broadcast use vstd::seq_lib::group_filter_ensures;

    let live = live_goals_of(gs, pid);
    assert(live.len() <= gs.len());
    let keys = goal_sort_keys(live);
    let order = sorted_by_int(keys, live.len());
    lemma_sorted_by_int(keys, live.len());
    let o = ordered_goals(gs, pid);
    assert(o == arranged(live, order));
    assert forall|i: int| 0 <= i < o.len() implies #[trigger] o[i].project_id == pid && !o[i].is_archived by {
        assert(order.contains(order[i]));
        assert(o[i] == live[order[i] as int]);
    }
    assert forall|a: int, b: int| 0 <= a < b < o.len() implies #[trigger] o[a].sort_order <= #[trigger] o[b].sort_order by {
        assert(order.contains(order[a]));
        assert(order.contains(order[b]));
        assert(keys[order[a] as int] <= keys[order[b] as int]);
    }
    assert forall|k: int| 0 <= k < live.len() implies o.contains(#[trigger] live[k]) by {
        assert(order.contains(k as usize));
        let q = choose|q: int| 0 <= q < order.len() && order[q] == k as usize;
        assert(order[q] as int == k);
        assert(o[q] == live[k]);
    }
}

/// An exact reorder list names every listed id once: the listed ids are a
/// permutation of the existing ones.
pub proof fn lemma_exact_reorder_is_permutation(existing: Seq<Seq<char>>, ordered: Seq<Seq<char>>)
    requires
        is_exact_reorder(existing, ordered),
    ensures
        existing.no_duplicates(),
        forall|x: Seq<char>| existing.contains(x) ==> ordered.contains(x),
{
    broadcast use vstd::set::group_set_axioms;
    broadcast use vstd::seq_lib::seq_to_set_is_finite;

    assert(ordered.no_duplicates());
    ordered.unique_seq_to_set();
    existing.lemma_cardinality_of_set();
    assert(ordered.to_set().subset_of(existing.to_set())) by {
        assert forall|x: Seq<char>| ordered.to_set().contains(x) implies existing.to_set().contains(x) by {
            let i = choose|i: int| 0 <= i < ordered.len() && ordered[i] == x;
            assert(existing.contains(ordered[i]));
        }
    }
    vstd::set_lib::lemma_len_subset(ordered.to_set(), existing.to_set());
    vstd::set_lib::lemma_subset_equality(ordered.to_set(), existing.to_set());
    existing.lemma_no_dup_set_cardinality();
    assert forall|x: Seq<char>| existing.contains(x) implies ordered.contains(x) by {
        assert(existing.to_set().contains(x));
        assert(ordered.to_set().contains(x));
    }
}

proof fn lemma_increasing_at_least(x: Seq<int>, i: int)
    requires
        0 <= i < x.len(),
        forall|k: int| 0 <= k < x.len() ==> 0 <= #[trigger] x[k],
        forall|a: int, b: int| 0 <= a < b < x.len() ==> #[trigger] x[a] < #[trigger] x[b],
    ensures
        x[i] >= i,
    decreases i,
{
    if i > 0 {
        lemma_increasing_at_least(x, i - 1);
        assert(x[i - 1] < x[i]);
    } else {
        assert(x[0] >= 0);
    }
}

proof fn lemma_increasing_at_most(x: Seq<int>, i: int)
    requires
        0 <= i < x.len(),
        forall|k: int| 0 <= k < x.len() ==> #[trigger] x[k] < x.len(),
        forall|a: int, b: int| 0 <= a < b < x.len() ==> #[trigger] x[a] < #[trigger] x[b],
    ensures
        x[i] <= i,
    decreases x.len() - i,
{
    if i < x.len() - 1 {
        lemma_increasing_at_most(x, i + 1);
        assert(x[i] < x[i + 1]);
    } else {
        assert(x[i] < x.len());
    }
}

/// A strictly increasing sequence of `n` values from `0..n` is `0, 1, .., n-1`.
proof fn lemma_increasing_fill(x: Seq<int>)
    requires
        forall|k: int| 0 <= k < x.len() ==> 0 <= #[trigger] x[k] < x.len(),
        forall|a: int, b: int| 0 <= a < b < x.len() ==> #[trigger] x[a] < #[trigger] x[b],
    ensures
        forall|i: int| 0 <= i < x.len() ==> #[trigger] x[i] == i,
{
    assert forall|i: int| 0 <= i < x.len() implies #[trigger] x[i] == i by {
        lemma_increasing_at_least(x, i);
        lemma_increasing_at_most(x, i);
    }
}

proof fn lemma_live_goals_reordered(gs: Seq<GoalView>, pid: Seq<char>, ordered: Seq<Seq<char>>, now: Seq<char>)
    ensures
        live_goals_of(goals_reordered(gs, ordered, now), pid) == goals_reordered(live_goals_of(gs, pid), ordered, now),
    decreases gs.len(),
{
    reveal(Seq::filter);
    let r = goals_reordered(gs, ordered, now);
    if gs.len() > 0 {
        lemma_live_goals_reordered(gs.drop_last(), pid, ordered, now);
        assert(r.drop_last() =~= goals_reordered(gs.drop_last(), ordered, now));
        let f0 = live_goals_of(gs.drop_last(), pid);
        if gs.last().project_id == pid && !gs.last().is_archived {
            assert(goals_reordered(f0.push(gs.last()), ordered, now) =~= goals_reordered(f0, ordered, now).push(r.last()));
        }
    } else {
        assert(goals_reordered(live_goals_of(gs, pid), ordered, now) =~= Seq::<GoalView>::empty());
    }
    assert(live_goals_of(r, pid) =~= goals_reordered(live_goals_of(gs, pid), ordered, now));
}

/// A reorder of a project's goals that is accepted makes the project's
/// visible goals come back exactly in the requested order.
pub proof fn law_reorder_goals_takes_the_given_order(v: PlannerView, now: Seq<char>, pid: Seq<char>, ordered: Seq<Seq<char>>)
    requires
        v.goals.len() <= usize::MAX,
        ordered.len() <= i64::MAX,
    ensures
        v.reorder_goals(now, pid, ordered) matches Ok(w) ==> goal_ids(ordered_goals(w.goals, pid)) == ordered,
{
    broadcast use vstd::seq_lib::group_filter_ensures;

    if let Ok(w) = v.reorder_goals(now, pid, ordered) {
        let live_v = live_goals_of(v.goals, pid);
        let existing = goal_ids(live_v);
        lemma_exact_reorder_is_permutation(existing, ordered);
        lemma_live_goals_reordered(v.goals, pid, ordered, now);
        let live_w = live_goals_of(w.goals, pid);
        assert(live_w == goals_reordered(live_v, ordered, now));
        let n = ordered.len();
        assert(live_v.len() <= v.goals.len());
        let keys = goal_sort_keys(live_w);
        let order = sorted_by_int(keys, live_w.len());
        lemma_sorted_by_int(keys, live_w.len());
        let o = ordered_goals(w.goals, pid);
        assert(o == arranged(live_w, order));
        // every visible goal's new sort order is the position of its id in `ordered`
        assert forall|k: int| 0 <= k < live_w.len() implies ordered[#[trigger] keys[k] as int] == existing[k]
            && 0 <= keys[k] < n by {
            assert(existing.contains(existing[k]));
            assert(ordered.contains(existing[k]));
            lemma_first_position_exists(ordered, existing[k]);
        }
        let x = Seq::new(n, |i: int| keys[order[i] as int] as int);
        assert forall|k: int| 0 <= k < x.len() implies 0 <= #[trigger] x[k] < x.len() by {
            assert(order.contains(order[k]));
            assert(0 <= keys[order[k] as int] < n);
        }
        assert forall|a: int, b: int| 0 <= a < b < x.len() implies #[trigger] x[a] < #[trigger] x[b] by {
            assert(order.contains(order[a]));
            assert(order.contains(order[b]));
            assert(keys[order[a] as int] <= keys[order[b] as int]);
            assert(order[a] != order[b]);
            if keys[order[a] as int] == keys[order[b] as int] {
                assert(ordered[keys[order[a] as int] as int] == existing[order[a] as int]);
                assert(ordered[keys[order[b] as int] as int] == existing[order[b] as int]);
                assert(existing[order[a] as int] == existing[order[b] as int]);
            }
        }
        lemma_increasing_fill(x);
        assert forall|i: int| 0 <= i < o.len() implies #[trigger] goal_ids(o)[i] == ordered[i] by {
            assert(order.contains(order[i]));
            assert(x[i] == i);
            assert(o[i] == live_w[order[i] as int]);
        }
        assert(goal_ids(o) =~= ordered);
    }
}

proof fn lemma_live_tasks_reordered(gs: Seq<TaskView>, pid: Seq<char>, ordered: Seq<Seq<char>>, now: Seq<char>)
    ensures
        live_tasks_of(tasks_reordered(gs, ordered, now), pid) == tasks_reordered(live_tasks_of(gs, pid), ordered, now),
    decreases gs.len(),
{
    reveal(Seq::filter);
    let r = tasks_reordered(gs, ordered, now);
    if gs.len() > 0 {
        lemma_live_tasks_reordered(gs.drop_last(), pid, ordered, now);
        assert(r.drop_last() =~= tasks_reordered(gs.drop_last(), ordered, now));
        let f0 = live_tasks_of(gs.drop_last(), pid);
        if gs.last().goal_id == pid && !gs.last().is_archived {
            assert(tasks_reordered(f0.push(gs.last()), ordered, now) =~= tasks_reordered(f0, ordered, now).push(r.last()));
        }
    } else {
        assert(tasks_reordered(live_tasks_of(gs, pid), ordered, now) =~= Seq::<TaskView>::empty());
    }
    assert(live_tasks_of(r, pid) =~= tasks_reordered(live_tasks_of(gs, pid), ordered, now));
}

/// A reorder of a goal's tasks that is accepted makes the goal's visible
/// tasks come back exactly in the requested order.
pub proof fn law_reorder_tasks_takes_the_given_order(v: PlannerView, now: Seq<char>, pid: Seq<char>, ordered: Seq<Seq<char>>)
    requires
        v.tasks.len() <= usize::MAX,
        ordered.len() <= i64::MAX,
    ensures
        v.reorder_tasks(now, pid, ordered) matches Ok(w) ==> task_ids(ordered_tasks(w.tasks, pid)) == ordered,
{
    broadcast use vstd::seq_lib::group_filter_ensures;

    if let Ok(w) = v.reorder_tasks(now, pid, ordered) {
        let live_v = live_tasks_of(v.tasks, pid);
        let existing = task_ids(live_v);
        lemma_exact_reorder_is_permutation(existing, ordered);
        lemma_live_tasks_reordered(v.tasks, pid, ordered, now);
        let live_w = live_tasks_of(w.tasks, pid);
        assert(live_w == tasks_reordered(live_v, ordered, now));
        let n = ordered.len();
        assert(live_v.len() <= v.tasks.len());
        let keys = task_sort_keys(live_w);
        let order = sorted_by_int(keys, live_w.len());
        lemma_sorted_by_int(keys, live_w.len());
        let o = ordered_tasks(w.tasks, pid);
        assert(o == arranged(live_w, order));
        // every visible task's new sort order is the position of its id in `ordered`
        assert forall|k: int| 0 <= k < live_w.len() implies ordered[#[trigger] keys[k] as int] == existing[k]
            && 0 <= keys[k] < n by {
            assert(existing.contains(existing[k]));
            assert(ordered.contains(existing[k]));
            lemma_first_position_exists(ordered, existing[k]);
        }
        let x = Seq::new(n, |i: int| keys[order[i] as int] as int);
        assert forall|k: int| 0 <= k < x.len() implies 0 <= #[trigger] x[k] < x.len() by {
            assert(order.contains(order[k]));
            assert(0 <= keys[order[k] as int] < n);
        }
        assert forall|a: int, b: int| 0 <= a < b < x.len() implies #[trigger] x[a] < #[trigger] x[b] by {
            assert(order.contains(order[a]));
            assert(order.contains(order[b]));
            assert(keys[order[a] as int] <= keys[order[b] as int]);
            assert(order[a] != order[b]);
            if keys[order[a] as int] == keys[order[b] as int] {
                assert(ordered[keys[order[a] as int] as int] == existing[order[a] as int]);
                assert(ordered[keys[order[b] as int] as int] == existing[order[b] as int]);
                assert(existing[order[a] as int] == existing[order[b] as int]);
            }
        }
        lemma_increasing_fill(x);
        assert forall|i: int| 0 <= i < o.len() implies #[trigger] task_ids(o)[i] == ordered[i] by {
            assert(order.contains(order[i]));
            assert(x[i] == i);
            assert(o[i] == live_w[order[i] as int]);
        }
        assert(task_ids(o) =~= ordered);
    }
}

proof fn lemma_live_microtasks_reordered(gs: Seq<MicrotaskView>, pid: Seq<char>, ordered: Seq<Seq<char>>, now: Seq<char>)
    ensures
        live_microtasks_of(microtasks_reordered(gs, ordered, now), pid) == microtasks_reordered(live_microtasks_of(gs, pid), ordered, now),
    decreases gs.len(),
{
    reveal(Seq::filter);
    let r = microtasks_reordered(gs, ordered, now);
    if gs.len() > 0 {
        lemma_live_microtasks_reordered(gs.drop_last(), pid, ordered, now);
        assert(r.drop_last() =~= microtasks_reordered(gs.drop_last(), ordered, now));
        let f0 = live_microtasks_of(gs.drop_last(), pid);
        if gs.last().task_id == pid && !gs.last().is_archived {
            assert(microtasks_reordered(f0.push(gs.last()), ordered, now) =~= microtasks_reordered(f0, ordered, now).push(r.last()));
        }
    } else {
        assert(microtasks_reordered(live_microtasks_of(gs, pid), ordered, now) =~= Seq::<MicrotaskView>::empty());
    }
    assert(live_microtasks_of(r, pid) =~= microtasks_reordered(live_microtasks_of(gs, pid), ordered, now));
}

/// A reorder of a task's microtasks that is accepted makes the task's
/// visible microtasks come back exactly in the requested order.
pub proof fn law_reorder_microtasks_takes_the_given_order(v: PlannerView, now: Seq<char>, pid: Seq<char>, ordered: Seq<Seq<char>>)
    requires
        v.microtasks.len() <= usize::MAX,
        ordered.len() <= i64::MAX,
    ensures
        v.reorder_microtasks(now, pid, ordered) matches Ok(w) ==> microtask_ids(ordered_microtasks(w.microtasks, pid)) == ordered,
{
    broadcast use vstd::seq_lib::group_filter_ensures;

    if let Ok(w) = v.reorder_microtasks(now, pid, ordered) {
        let live_v = live_microtasks_of(v.microtasks, pid);
        let existing = microtask_ids(live_v);
        lemma_exact_reorder_is_permutation(existing, ordered);
        lemma_live_microtasks_reordered(v.microtasks, pid, ordered, now);
        let live_w = live_microtasks_of(w.microtasks, pid);
        assert(live_w == microtasks_reordered(live_v, ordered, now));
        let n = ordered.len();
        assert(live_v.len() <= v.microtasks.len());
        let keys = microtask_sort_keys(live_w);
        let order = sorted_by_int(keys, live_w.len());
        lemma_sorted_by_int(keys, live_w.len());
        let o = ordered_microtasks(w.microtasks, pid);
        assert(o == arranged(live_w, order));
        // every visible microtask's new sort order is the position of its id in `ordered`
        assert forall|k: int| 0 <= k < live_w.len() implies ordered[#[trigger] keys[k] as int] == existing[k]
            && 0 <= keys[k] < n by {
            assert(existing.contains(existing[k]));
            assert(ordered.contains(existing[k]));
            lemma_first_position_exists(ordered, existing[k]);
        }
        let x = Seq::new(n, |i: int| keys[order[i] as int] as int);
        assert forall|k: int| 0 <= k < x.len() implies 0 <= #[trigger] x[k] < x.len() by {
            assert(order.contains(order[k]));
            assert(0 <= keys[order[k] as int] < n);
        }
        assert forall|a: int, b: int| 0 <= a < b < x.len() implies #[trigger] x[a] < #[trigger] x[b] by {
            assert(order.contains(order[a]));
            assert(order.contains(order[b]));
            assert(keys[order[a] as int] <= keys[order[b] as int]);
            assert(order[a] != order[b]);
            if keys[order[a] as int] == keys[order[b] as int] {
                assert(ordered[keys[order[a] as int] as int] == existing[order[a] as int]);
                assert(ordered[keys[order[b] as int] as int] == existing[order[b] as int]);
                assert(existing[order[a] as int] == existing[order[b] as int]);
            }
        }
        lemma_increasing_fill(x);
        assert forall|i: int| 0 <= i < o.len() implies #[trigger] microtask_ids(o)[i] == ordered[i] by {
            assert(order.contains(order[i]));
            assert(x[i] == i);
            assert(o[i] == live_w[order[i] as int]);
        }
        assert(microtask_ids(o) =~= ordered);
    }
}

/// A blank title or name is refused, whatever else the request holds:
/// creating or editing a project, goal, task, microtask or pomodoro type with
/// one changes nothing.
pub proof fn law_blank_text_is_refused(
    v: PlannerView,
    now: Seq<char>,
    id: Seq<char>,
    parent: Seq<char>,
    text: Seq<char>,
    description: Option<Seq<char>>,
    deadline: Option<Seq<char>>,
    number: i64,
    type_id: Option<Seq<char>>,
    long_break: Option<i64>,
)
    requires
        is_blank(text),
    ensures
        v.create_project(now, id, text, description) is Err,
        v.update_project(now, id, text, description) is Err,
        v.create_goal(now, id, parent, text, description, deadline, number) is Err,
        v.update_goal(now, id, text, description, deadline, number) is Err,
        v.create_task(now, id, parent, text, description, deadline, number) is Err,
        v.update_task(now, id, text, description, deadline, number) is Err,
        v.create_microtask(now, id, parent, text, number, number, type_id, deadline, number) is Err,
        v.update_microtask(now, id, text, number, number, type_id, deadline, number) is Err,
        v.create_pomodoro_type(now, id, text, number, number, long_break, long_break) is Err,
        v.update_pomodoro_type(now, id, text, number, number, long_break, long_break) is Err,
{
    lemma_trim_empty_iff_blank(text);
}

/// Completing or reopening a microtask never changes a project or a
/// pomodoro type: the roll-up stops at the goal.
pub proof fn law_rollup_stops_at_the_goal(v: PlannerView, now: Seq<char>, id: Seq<char>)
    ensures
        v.complete_microtask(now, id) matches Ok(w) ==> w.projects == v.projects && w.pomodoro_types == v.pomodoro_types,
        v.uncomplete_microtask(now, id) matches Ok(w) ==> w.projects == v.projects && w.pomodoro_types == v.pomodoro_types,
{
}

/// The project list hides archived projects unless asked for them, and then
/// lists every project.
pub proof fn law_list_hides_archived(v: PlannerView)
    requires
        v.projects.len() <= usize::MAX,
    ensures
        forall|i: int| 0 <= i < v.project_list(false).len() ==> !(#[trigger] v.project_list(false)[i]).project.is_archived,
        v.project_list(true).len() == v.projects.len(),
{
    broadcast use vstd::seq_lib::group_filter_ensures;

    let hidden = listed_projects(v.projects, false);
    let keys = crate::project_service::created_keys(hidden);
    assert(hidden.len() <= v.projects.len());
    lemma_sorted_by_text(keys, hidden.len());
    let order = crate::order::sorted_by_text(keys, hidden.len());
    assert forall|i: int| 0 <= i < v.project_list(false).len() implies !(#[trigger] v.project_list(false)[i]).project.is_archived by {
        assert(order.contains(order[i]));
        assert(v.project_list(false)[i].project == hidden[order[i] as int]);
    }
    let all = listed_projects(v.projects, true);
    assert(all =~= v.projects) by {
        reveal_with_fuel(Seq::filter, 1);
        lemma_filter_all(v.projects);
    }
    lemma_sorted_by_text(crate::project_service::created_keys(all), all.len());
}

/// The project list comes in order of creation time: each project was
/// created at a time that sorts at or before the next one's.
pub proof fn law_project_list_is_ordered(v: PlannerView, include_archived: bool)
    requires
        v.projects.len() <= usize::MAX,
    ensures
        forall|a: int, b: int|
            0 <= a < b < v.project_list(include_archived).len() ==> text_le(
                (#[trigger] v.project_list(include_archived)[a]).project.created_at,
                (#[trigger] v.project_list(include_archived)[b]).project.created_at,
            ),
{
    broadcast use vstd::seq_lib::group_filter_ensures;

    let shown = listed_projects(v.projects, include_archived);
    let keys = crate::project_service::created_keys(shown);
    assert(shown.len() <= v.projects.len());
    lemma_sorted_by_text(keys, shown.len());
    let order = crate::order::sorted_by_text(keys, shown.len());
    assert forall|a: int, b: int|
        0 <= a < b < v.project_list(include_archived).len() implies text_le(
            (#[trigger] v.project_list(include_archived)[a]).project.created_at,
            (#[trigger] v.project_list(include_archived)[b]).project.created_at,
        ) by {
        assert(order.contains(order[a]) && order.contains(order[b]));
        assert(v.project_list(include_archived)[a].project == shown[order[a] as int]);
        assert(v.project_list(include_archived)[b].project == shown[order[b] as int]);
        assert(text_le(keys[order[a] as int], keys[order[b] as int]));
    }
}

/// The pomodoro types come in order of creation time.
pub proof fn law_pomodoro_type_list_is_ordered(v: PlannerView)
    requires
        v.pomodoro_types.len() <= usize::MAX,
    ensures
        forall|a: int, b: int|
            0 <= a < b < v.pomodoro_type_list().len() ==> text_le(
                (#[trigger] v.pomodoro_type_list()[a]).created_at,
                (#[trigger] v.pomodoro_type_list()[b]).created_at,
            ),
{
    let ts = v.pomodoro_types;
    let keys = crate::pomodoro_type_service::type_created_keys(ts);
    lemma_sorted_by_text(keys, ts.len());
    let order = crate::order::sorted_by_text(keys, ts.len());
    assert forall|a: int, b: int|
        0 <= a < b < v.pomodoro_type_list().len() implies text_le(
            (#[trigger] v.pomodoro_type_list()[a]).created_at,
            (#[trigger] v.pomodoro_type_list()[b]).created_at,
        ) by {
        assert(order.contains(order[a]) && order.contains(order[b]));
        assert(text_le(keys[order[a] as int], keys[order[b] as int]));
    }
}

/// What the goal requests settle before reading the clock is what the exact
/// operations give at every timestamp.
pub proof fn law_goal_checks_agree(
    v: PlannerView,
    now: Seq<char>,
    id: Seq<char>,
    pid: Seq<char>,
    title: Seq<char>,
    description: Option<Seq<char>>,
    deadline: Option<Seq<char>>,
    priority: i64,
    ordered: Seq<Seq<char>>,
)
    ensures
        create_goal_settled(v, pid, title) matches Some(Err(e)) ==> v.create_goal(now, id, pid, title, description, deadline, priority) == Err::<PlannerView, ErrorView>(e),
        blank_settled(title, "goal title must not be empty"@) matches Some(Err(e)) ==> v.update_goal(now, id, title, description, deadline, priority) == Err::<PlannerView, ErrorView>(e),
        reorder_goals_settled(v, pid, ordered) matches Some(Err(e)) ==> v.reorder_goals(now, pid, ordered) == Err::<PlannerView, ErrorView>(e),
{
}

/// What the task requests settle before reading the clock is what the exact
/// operations give at every timestamp.
pub proof fn law_task_checks_agree(
    v: PlannerView,
    now: Seq<char>,
    id: Seq<char>,
    pid: Seq<char>,
    title: Seq<char>,
    description: Option<Seq<char>>,
    deadline: Option<Seq<char>>,
    priority: i64,
    ordered: Seq<Seq<char>>,
)
    ensures
        blank_settled(title, "task title must not be empty"@) matches Some(Err(e)) ==> v.create_task(now, id, pid, title, description, deadline, priority) == Err::<PlannerView, ErrorView>(e),
        blank_settled(title, "task title must not be empty"@) matches Some(Err(e)) ==> v.update_task(now, id, title, description, deadline, priority) == Err::<PlannerView, ErrorView>(e),
        reorder_tasks_settled(v, pid, ordered) matches Some(Err(e)) ==> v.reorder_tasks(now, pid, ordered) == Err::<PlannerView, ErrorView>(e),
{
}

/// What the microtask requests settle before reading the clock is what the
/// exact operations give at every timestamp: the same error, or, for a
/// completion or reopening that has nothing to do, the store unchanged.
pub proof fn law_microtask_checks_agree(
    v: PlannerView,
    now: Seq<char>,
    id: Seq<char>,
    task_id: Seq<char>,
    title: Seq<char>,
    estimated_minutes: i64,
    pomodoro_count: i64,
    pomodoro_type_id: Option<Seq<char>>,
    deadline: Option<Seq<char>>,
    priority: i64,
    ordered: Seq<Seq<char>>,
)
    ensures
        create_microtask_settled(v, task_id, title, estimated_minutes, pomodoro_count, pomodoro_type_id) matches Some(Err(e))
            ==> v.create_microtask(now, id, task_id, title, estimated_minutes, pomodoro_count, pomodoro_type_id, deadline, priority) == Err::<PlannerView, ErrorView>(e),
        update_microtask_settled(v, title, estimated_minutes, pomodoro_count, pomodoro_type_id) matches Some(Err(e))
            ==> v.update_microtask(now, id, title, estimated_minutes, pomodoro_count, pomodoro_type_id, deadline, priority) == Err::<PlannerView, ErrorView>(e),
        complete_microtask_settled(v, id) matches Some(Err(e)) ==> v.complete_microtask(now, id) == Err::<PlannerView, ErrorView>(e),
        complete_microtask_settled(v, id) matches Some(Ok(_)) ==> v.complete_microtask(now, id) == Ok::<PlannerView, ErrorView>(v),
        uncomplete_microtask_settled(v, id) matches Some(Err(e)) ==> v.uncomplete_microtask(now, id) == Err::<PlannerView, ErrorView>(e),
        uncomplete_microtask_settled(v, id) matches Some(Ok(_)) ==> v.uncomplete_microtask(now, id) == Ok::<PlannerView, ErrorView>(v),
        reorder_microtasks_settled(v, task_id, ordered) matches Some(Err(e)) ==> v.reorder_microtasks(now, task_id, ordered) == Err::<PlannerView, ErrorView>(e),
{
}

/// What the pomodoro type and project requests settle before reading the
/// clock is what the exact operations give at every timestamp.
pub proof fn law_type_and_project_checks_agree(
    v: PlannerView,
    now: Seq<char>,
    id: Seq<char>,
    name: Seq<char>,
    work_minutes: i64,
    rest_minutes: i64,
    long_break_minutes: Option<i64>,
    long_break_every: Option<i64>,
    description: Option<Seq<char>>,
)
    ensures
        type_fields_settled(name, work_minutes, rest_minutes, long_break_minutes, long_break_every) matches Some(Err(e))
            ==> v.create_pomodoro_type(now, id, name, work_minutes, rest_minutes, long_break_minutes, long_break_every) == Err::<PlannerView, ErrorView>(e),
        type_fields_settled(name, work_minutes, rest_minutes, long_break_minutes, long_break_every) matches Some(Err(e))
            ==> v.update_pomodoro_type(now, id, name, work_minutes, rest_minutes, long_break_minutes, long_break_every) == Err::<PlannerView, ErrorView>(e),
        blank_settled(name, "project name must not be empty"@) matches Some(Err(e)) ==> v.create_project(now, id, name, description) == Err::<PlannerView, ErrorView>(e),
        blank_settled(name, "project name must not be empty"@) matches Some(Err(e)) ==> v.update_project(now, id, name, description) == Err::<PlannerView, ErrorView>(e),
{
}

proof fn lemma_filter_all(s: Seq<crate::models::ProjectView>)
    ensures
        listed_projects(s, true) == s,
    decreases s.len(),
{
    reveal(Seq::filter);
    if s.len() > 0 {
        lemma_filter_all(s.drop_last());
        assert(s.drop_last().push(s.last()) =~= s);
    }
}

} // verus!
