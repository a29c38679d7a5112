//! Laws on what the queries and creations give, stated over the store's
//! rows: where a new row goes, which rows the project tree shows and in what
//! order, what the project list counts, and what deleting a pomodoro type
//! clears.

use vstd::prelude::*;
use crate::error::ErrorView;
use crate::models::{MicrotaskView, TaskView};
use crate::sort_order::{lemma_seq_max, microtask_sort_orders, seq_max, task_sort_orders};
use crate::store::PlannerView;
use crate::order::{arranged, sorted_by_text};
use crate::project_service::{
    created_keys, goal_in_project, listed_projects, project_completed_microtasks, project_microtasks,
    summary_of, task_in_project,
};
use crate::text::status_completed;
use crate::order::{lemma_sorted_by_int, sorted_by_int};
use crate::task_service::live_tasks_of;
use crate::microtask_service::live_microtasks_of;
use crate::store::{goal_ids, ids_unique, lemma_first_position, microtask_ids, task_ids};
use crate::goal_service::live_goals_of;
use crate::laws::{
    law_reorder_goals_takes_the_given_order, law_reorder_microtasks_takes_the_given_order,
    law_reorder_tasks_takes_the_given_order,
};
use crate::models::{TreeGoalView, TreeMicrotaskView, TreeTaskView};
use crate::tree::{
    goal_sort_keys, microtask_sort_keys, ordered_goals, ordered_microtasks, ordered_tasks, task_sort_keys, tree_goal_of,
    tree_goals_of, tree_microtask_of, tree_microtasks_of, tree_task_of, tree_tasks_of,
};

verus! {

/// A new task goes right after the largest sort order among the tasks of its
/// goal, archived ones included, or at 0 when the goal has none.
pub proof fn law_new_task_goes_last(
    v: PlannerView,
    now: Seq<char>,
    id: Seq<char>,
    gid: Seq<char>,
    title: Seq<char>,
    description: Option<Seq<char>>,
    deadline: Option<Seq<char>>,
    priority: i64,
)
    ensures
        v.create_task(now, id, gid, title, description, deadline, priority) matches Ok(w) ==> {
            &&& w.tasks.len() == v.tasks.len() + 1
            &&& w.tasks.drop_last() == v.tasks
            &&& w.tasks.last().id == id
            &&& w.tasks.last().goal_id == gid
            &&& forall|i: int|
                0 <= i < v.tasks.len() && #[trigger] v.tasks[i].goal_id == gid ==> v.tasks[i].sort_order
                    < w.tasks.last().sort_order
            &&& (forall|i: int| 0 <= i < v.tasks.len() ==> #[trigger] v.tasks[i].goal_id != gid)
                ==> w.tasks.last().sort_order == 0
            &&& (exists|i: int| 0 <= i < v.tasks.len() && #[trigger] v.tasks[i].goal_id == gid)
                ==> exists|i: int|
                0 <= i < v.tasks.len() && #[trigger] v.tasks[i].goal_id == gid && v.tasks[i].sort_order
                    == w.tasks.last().sort_order - 1
        },
{
    broadcast use {vstd::seq_lib::group_filter_ensures, Seq::lemma_filter_contains_rev};

    if let Ok(w) = v.create_task(now, id, gid, title, description, deadline, priority) {
        let f = v.tasks.filter(|t: TaskView| t.goal_id == gid);
        let sibs = task_sort_orders(v.tasks, gid);
        lemma_seq_max(sibs);
        assert(w.tasks.drop_last() =~= v.tasks);
        assert forall|i: int| 0 <= i < v.tasks.len() && #[trigger] v.tasks[i].goal_id == gid implies v.tasks[i].sort_order
            < w.tasks.last().sort_order by {
            assert(f.contains(v.tasks[i]));
            let k = choose|k: int| 0 <= k < f.len() && f[k] == v.tasks[i];
            assert(sibs[k] == v.tasks[i].sort_order);
        }
        if forall|i: int| 0 <= i < v.tasks.len() ==> #[trigger] v.tasks[i].goal_id != gid {
            if f.len() > 0 {
                assert(f.contains(f[0]));
                let k = choose|k: int| 0 <= k < v.tasks.len() && v.tasks[k] == f[0];
                assert(v.tasks[k].goal_id == gid);
            }
            assert(sibs.len() == 0);
        }
        if exists|i: int| 0 <= i < v.tasks.len() && #[trigger] v.tasks[i].goal_id == gid {
            let i0 = choose|i: int| 0 <= i < v.tasks.len() && #[trigger] v.tasks[i].goal_id == gid;
            assert(f.contains(v.tasks[i0]));
            assert(sibs.len() == f.len());
            let m = seq_max(sibs)->Some_0;
            let q = choose|q: int| 0 <= q < sibs.len() && sibs[q] == m;
            assert(sibs[q] == f[q].sort_order);
            assert(f.contains(f[q]));
            let k = choose|k: int| 0 <= k < v.tasks.len() && v.tasks[k] == f[q];
            assert(v.tasks[k].goal_id == gid && v.tasks[k].sort_order == m);
        }
    }
}

/// A new microtask goes right after the largest sort order among the
/// microtasks of its task, archived ones included, or at 0 when the task has
/// none.
pub proof fn law_new_microtask_goes_last(
    v: PlannerView,
    now: Seq<char>,
    id: Seq<char>,
    tid: Seq<char>,
    title: Seq<char>,
    estimated_minutes: i64,
    pomodoro_count: i64,
    pomodoro_type_id: Option<Seq<char>>,
    deadline: Option<Seq<char>>,
    priority: i64,
)
    ensures
        v.create_microtask(now, id, tid, title, estimated_minutes, pomodoro_count, pomodoro_type_id, deadline, priority) matches Ok(w) ==> {
            &&& w.microtasks.len() == v.microtasks.len() + 1
            &&& w.microtasks.drop_last() == v.microtasks
            &&& w.microtasks.last().id == id
            &&& w.microtasks.last().task_id == tid
            &&& forall|i: int|
                0 <= i < v.microtasks.len() && #[trigger] v.microtasks[i].task_id == tid ==> v.microtasks[i].sort_order
                    < w.microtasks.last().sort_order
            &&& (forall|i: int| 0 <= i < v.microtasks.len() ==> #[trigger] v.microtasks[i].task_id != tid)
                ==> w.microtasks.last().sort_order == 0
            &&& (exists|i: int| 0 <= i < v.microtasks.len() && #[trigger] v.microtasks[i].task_id == tid)
                ==> exists|i: int|
                0 <= i < v.microtasks.len() && #[trigger] v.microtasks[i].task_id == tid && v.microtasks[i].sort_order
                    == w.microtasks.last().sort_order - 1
        },
{
    broadcast use {vstd::seq_lib::group_filter_ensures, Seq::lemma_filter_contains_rev};

    if let Ok(w) = v.create_microtask(now, id, tid, title, estimated_minutes, pomodoro_count, pomodoro_type_id, deadline, priority) {
        let f = v.microtasks.filter(|t: MicrotaskView| t.task_id == tid);
        let sibs = microtask_sort_orders(v.microtasks, tid);
        lemma_seq_max(sibs);
        assert(w.microtasks.drop_last() =~= v.microtasks);
        assert forall|i: int| 0 <= i < v.microtasks.len() && #[trigger] v.microtasks[i].task_id == tid implies v.microtasks[i].sort_order
            < w.microtasks.last().sort_order by {
            assert(f.contains(v.microtasks[i]));
            let k = choose|k: int| 0 <= k < f.len() && f[k] == v.microtasks[i];
            assert(sibs[k] == v.microtasks[i].sort_order);
        }
        if forall|i: int| 0 <= i < v.microtasks.len() ==> #[trigger] v.microtasks[i].task_id != tid {
            if f.len() > 0 {
                assert(f.contains(f[0]));
                let k = choose|k: int| 0 <= k < v.microtasks.len() && v.microtasks[k] == f[0];
                assert(v.microtasks[k].task_id == tid);
            }
            assert(sibs.len() == 0);
        }
        if exists|i: int| 0 <= i < v.microtasks.len() && #[trigger] v.microtasks[i].task_id == tid {
            let i0 = choose|i: int| 0 <= i < v.microtasks.len() && #[trigger] v.microtasks[i].task_id == tid;
            assert(f.contains(v.microtasks[i0]));
            assert(sibs.len() == f.len());
            let m = seq_max(sibs)->Some_0;
            let q = choose|q: int| 0 <= q < sibs.len() && sibs[q] == m;
            assert(sibs[q] == f[q].sort_order);
            assert(f.contains(f[q]));
            let k = choose|k: int| 0 <= k < v.microtasks.len() && v.microtasks[k] == f[q];
            assert(v.microtasks[k].task_id == tid && v.microtasks[k].sort_order == m);
        }
    }
}

/// Deleting a pomodoro type removes that type and no other, and clears the
/// type from exactly the microtasks that named it: every other microtask is
/// left as it was, and nothing else in the store changes.
pub proof fn law_delete_type_clears_only_its_references(v: PlannerView, id: Seq<char>)
    ensures
        v.delete_pomodoro_type(id) is Err <==> !v.has_pomodoro_type(id),
        v.delete_pomodoro_type(id) matches Ok(w) ==> {
            &&& w.microtasks.len() == v.microtasks.len()
            &&& forall|i: int|
                0 <= i < v.microtasks.len() && (#[trigger] v.microtasks[i]).pomodoro_type_id != Some(id)
                    ==> w.microtasks[i] == v.microtasks[i]
            &&& forall|i: int|
                0 <= i < v.microtasks.len() && (#[trigger] v.microtasks[i]).pomodoro_type_id == Some(id)
                    ==> w.microtasks[i] == (MicrotaskView { pomodoro_type_id: None, ..v.microtasks[i] })
            &&& forall|i: int| 0 <= i < w.pomodoro_types.len() ==> (#[trigger] w.pomodoro_types[i]).id != id
            &&& forall|i: int|
                0 <= i < v.pomodoro_types.len() && (#[trigger] v.pomodoro_types[i]).id != id
                    ==> w.pomodoro_types.contains(v.pomodoro_types[i])
            &&& w.projects == v.projects
            &&& w.goals == v.goals
            &&& w.tasks == v.tasks
        },
{
    broadcast use vstd::seq_lib::group_filter_ensures;

    if let Ok(w) = v.delete_pomodoro_type(id) {
        let gone = seq![id];
        assert forall|x: Seq<char>| gone.contains(x) <==> x == id by {
            if x == id {
                assert(gone[0] == x);
            }
        }
        assert forall|i: int| 0 <= i < w.pomodoro_types.len() implies (#[trigger] w.pomodoro_types[i]).id != id by {
            assert(!gone.contains(w.pomodoro_types[i].id));
        }
        assert forall|i: int|
            0 <= i < v.pomodoro_types.len() && (#[trigger] v.pomodoro_types[i]).id != id implies w.pomodoro_types.contains(
            v.pomodoro_types[i],
        ) by {
            assert(!gone.contains(v.pomodoro_types[i].id));
        }
    }
}

/// Microtask `m` hangs under project `pid`: some task row with its task id
/// belongs to some goal row of the project.
pub open spec fn under_project(v: PlannerView, m: MicrotaskView, pid: Seq<char>) -> bool {
    exists|i: int, k: int|
        #![trigger v.tasks[i], v.goals[k]]
        0 <= i < v.tasks.len() && 0 <= k < v.goals.len() && v.tasks[i].id == m.task_id
            && v.goals[k].id == v.tasks[i].goal_id && v.goals[k].project_id == pid
}

/// Filtering twice keeps what passes both tests.
proof fn lemma_filter_filter<A>(s: Seq<A>, a: spec_fn(A) -> bool, b: spec_fn(A) -> bool)
    ensures
        s.filter(a).filter(b) == s.filter(|x: A| a(x) && b(x)),
    decreases s.len(),
{
    broadcast use Seq::lemma_filter_push;

    if s.len() > 0 {
        let p = s.drop_last();
        lemma_filter_filter(p, a, b);
        assert(p.push(s.last()) =~= s);
    } else {
        assert(s.filter(a) =~= s);
        assert(s.filter(a).filter(b) =~= s);
        assert(s.filter(|x: A| a(x) && b(x)) =~= s);
    }
}

/// The project list counts, for each project, the unarchived microtasks under
/// it, and as completed exactly those of them that are completed: archived
/// microtasks count in neither, and the completed count never exceeds the
/// total.
pub proof fn law_project_counts(v: PlannerView, include_archived: bool)
    requires
        v.projects.len() <= usize::MAX,
    ensures
        forall|k: int|
            0 <= k < v.project_list(include_archived).len() ==> {
                let s = #[trigger] v.project_list(include_archived)[k];
                let counted = v.microtasks.filter(
                    |m: MicrotaskView| !m.is_archived && under_project(v, m, s.project.id),
                );
                &&& s.total_microtasks == counted.len()
                &&& s.completed_microtasks == counted.filter(
                    |m: MicrotaskView| m.status == status_completed(),
                ).len()
                &&& 0 <= s.completed_microtasks <= s.total_microtasks
            },
{
    broadcast use vstd::seq_lib::group_filter_ensures;

    assert forall|k: int| 0 <= k < v.project_list(include_archived).len() implies {
        let s = #[trigger] v.project_list(include_archived)[k];
        let counted = v.microtasks.filter(
            |m: MicrotaskView| !m.is_archived && under_project(v, m, s.project.id),
        );
        &&& s.total_microtasks == counted.len()
        &&& s.completed_microtasks == counted.filter(
            |m: MicrotaskView| m.status == status_completed(),
        ).len()
        &&& 0 <= s.completed_microtasks <= s.total_microtasks
    } by {
        let s = v.project_list(include_archived)[k];
        let pid = s.project.id;
        let shown = listed_projects(v.projects, include_archived);
        let order = sorted_by_text(created_keys(shown), shown.len());
        assert(s == summary_of(v, arranged(shown, order)[k]));
        assert forall|m: MicrotaskView| task_in_project(v, m.task_id, pid) <==> under_project(v, m, pid) by {
            if task_in_project(v, m.task_id, pid) {
                let i = choose|i: int|
                    0 <= i < v.tasks.len() && #[trigger] v.tasks[i].id == m.task_id && goal_in_project(
                        v.goals,
                        v.tasks[i].goal_id,
                        pid,
                    );
                let g = choose|g: int|
                    0 <= g < v.goals.len() && #[trigger] v.goals[g].id == v.tasks[i].goal_id && v.goals[g].project_id == pid;
                assert(v.tasks[i].id == m.task_id && v.goals[g].id == v.tasks[i].goal_id);
            }
            if under_project(v, m, pid) {
                let (i, g) = choose|i: int, g: int|
                    #![trigger v.tasks[i], v.goals[g]]
                    0 <= i < v.tasks.len() && 0 <= g < v.goals.len() && v.tasks[i].id == m.task_id
                        && v.goals[g].id == v.tasks[i].goal_id && v.goals[g].project_id == pid;
                assert(goal_in_project(v.goals, v.tasks[i].goal_id, pid)) by {
                    assert(v.goals[g].id == v.tasks[i].goal_id);
                }
                assert(v.tasks[i].id == m.task_id);
            }
        }
        let q1 = |m: MicrotaskView| !m.is_archived && under_project(v, m, pid);
        let q2 = |m: MicrotaskView| m.status == status_completed();
        assert((|m: MicrotaskView| !m.is_archived && task_in_project(v, m.task_id, pid)) =~= q1);
        assert(project_microtasks(v, pid) == v.microtasks.filter(q1));
        lemma_filter_filter(v.microtasks, q1, q2);
        assert((|m: MicrotaskView|
            !m.is_archived && m.status == status_completed() && task_in_project(v, m.task_id, pid))
            =~= (|x: MicrotaskView| q1(x) && q2(x)));
        assert(project_completed_microtasks(v, pid) == v.microtasks.filter(q1).filter(q2));
    }
}

/// The tasks that `ordered_tasks` gives are rows of `s`, unarchived and of
/// goal `parent`, every such row among them, with sort orders that never
/// decrease.
proof fn lemma_ordered_tasks(s: Seq<TaskView>, parent: Seq<char>)
    requires
        s.len() <= usize::MAX,
    ensures
        forall|a: int|
            0 <= a < ordered_tasks(s, parent).len() ==> s.contains(#[trigger] ordered_tasks(s, parent)[a])
                && ordered_tasks(s, parent)[a].goal_id == parent && !ordered_tasks(s, parent)[a].is_archived,
        forall|a: int, b: int|
            0 <= a < b < ordered_tasks(s, parent).len() ==> #[trigger] ordered_tasks(s, parent)[a].sort_order
                <= #[trigger] ordered_tasks(s, parent)[b].sort_order,
        forall|i: int|
            0 <= i < s.len() && #[trigger] s[i].goal_id == parent && !s[i].is_archived ==> ordered_tasks(
                s,
                parent,
            ).contains(s[i]),
{
    broadcast use {vstd::seq_lib::group_filter_ensures, Seq::lemma_filter_contains_rev};

    let live = live_tasks_of(s, parent);
    assert(live.len() <= s.len());
    let keys = task_sort_keys(live);
    let order = sorted_by_int(keys, live.len());
    lemma_sorted_by_int(keys, live.len());
    let o = ordered_tasks(s, parent);
    assert(o == arranged(live, order));
    assert forall|a: int| 0 <= a < o.len() implies s.contains(#[trigger] o[a]) && o[a].goal_id == parent
        && !o[a].is_archived by {
        assert(order.contains(order[a]));
        assert(o[a] == live[order[a] as int]);
        assert(live.contains(live[order[a] as int]));
    }
    assert forall|a: int, b: int| 0 <= a < b < o.len() implies #[trigger] o[a].sort_order <= #[trigger] o[b].sort_order by {
        assert(order.contains(order[a]));
        assert(order.contains(order[b]));
        assert(keys[order[a] as int] <= keys[order[b] as int]);
    }
    assert forall|i: int| 0 <= i < s.len() && #[trigger] s[i].goal_id == parent && !s[i].is_archived implies o.contains(
        s[i],
    ) by {
        assert(live.contains(s[i]));
        let k = choose|k: int| 0 <= k < live.len() && live[k] == s[i];
        assert(order.contains(k as usize));
        let q = choose|q: int| 0 <= q < order.len() && order[q] == k as usize;
        assert(o[q] == live[k]);
    }
}

/// The microtasks that `ordered_microtasks` gives are rows of `s`, unarchived
/// and of task `parent`, every such row among them, with sort orders that
/// never decrease.
proof fn lemma_ordered_microtasks(s: Seq<MicrotaskView>, parent: Seq<char>)
    requires
        s.len() <= usize::MAX,
    ensures
        forall|a: int|
            0 <= a < ordered_microtasks(s, parent).len() ==> s.contains(#[trigger] ordered_microtasks(s, parent)[a])
                && ordered_microtasks(s, parent)[a].task_id == parent && !ordered_microtasks(s, parent)[a].is_archived,
        forall|a: int, b: int|
            0 <= a < b < ordered_microtasks(s, parent).len() ==> #[trigger] ordered_microtasks(s, parent)[a].sort_order
                <= #[trigger] ordered_microtasks(s, parent)[b].sort_order,
        forall|i: int|
            0 <= i < s.len() && #[trigger] s[i].task_id == parent && !s[i].is_archived ==> ordered_microtasks(
                s,
                parent,
            ).contains(s[i]),
{
    broadcast use {vstd::seq_lib::group_filter_ensures, Seq::lemma_filter_contains_rev};

    let live = live_microtasks_of(s, parent);
    assert(live.len() <= s.len());
    let keys = microtask_sort_keys(live);
    let order = sorted_by_int(keys, live.len());
    lemma_sorted_by_int(keys, live.len());
    let o = ordered_microtasks(s, parent);
    assert(o == arranged(live, order));
    assert forall|a: int| 0 <= a < o.len() implies s.contains(#[trigger] o[a]) && o[a].task_id == parent
        && !o[a].is_archived by {
        assert(order.contains(order[a]));
        assert(o[a] == live[order[a] as int]);
        assert(live.contains(live[order[a] as int]));
    }
    assert forall|a: int, b: int| 0 <= a < b < o.len() implies #[trigger] o[a].sort_order <= #[trigger] o[b].sort_order by {
        assert(order.contains(order[a]));
        assert(order.contains(order[b]));
        assert(keys[order[a] as int] <= keys[order[b] as int]);
    }
    assert forall|i: int| 0 <= i < s.len() && #[trigger] s[i].task_id == parent && !s[i].is_archived implies o.contains(
        s[i],
    ) by {
        assert(live.contains(s[i]));
        let k = choose|k: int| 0 <= k < live.len() && live[k] == s[i];
        assert(order.contains(k as usize));
        let q = choose|q: int| 0 <= q < order.len() && order[q] == k as usize;
        assert(o[q] == live[k]);
    }
}

/// Goal `g` of project `pid`'s tree is the `g`-th of `ordered_goals`, and
/// its tasks are, by id, those of `ordered_tasks` for that goal.
proof fn lemma_tree_goal_shape(v: PlannerView, pid: Seq<char>, g: int)
    requires
        0 <= g < tree_goals_of(v, pid).len(),
    ensures
        g < ordered_goals(v.goals, pid).len(),
        tree_goals_of(v, pid)[g].id == ordered_goals(v.goals, pid)[g].id,
        tree_goals_of(v, pid)[g].tasks == tree_tasks_of(v, ordered_goals(v.goals, pid)[g].id),
        tree_goals_of(v, pid)[g].tasks.len() == ordered_tasks(v.tasks, ordered_goals(v.goals, pid)[g].id).len(),
        forall|a: int|
            0 <= a < tree_goals_of(v, pid)[g].tasks.len() ==> (#[trigger] tree_goals_of(v, pid)[g].tasks[a]).id
                == ordered_tasks(v.tasks, ordered_goals(v.goals, pid)[g].id)[a].id,
{
    let og = ordered_goals(v.goals, pid);
    let tg = tree_goals_of(v, pid)[g];
    assert(tg == tree_goal_of(v, og[g]));
    let ot = ordered_tasks(v.tasks, og[g].id);
    assert(tg.tasks == tree_tasks_of(v, og[g].id));
    assert forall|a: int| 0 <= a < tg.tasks.len() implies (#[trigger] tg.tasks[a]).id == ot[a].id by {
        assert(tg.tasks[a] == tree_task_of(v, ot[a]));
    }
}

/// With unique task ids, each task that `ordered_tasks` gives is the task
/// row with its id.
proof fn lemma_ordered_task_rows(v: PlannerView, gid: Seq<char>)
    requires
        ids_unique(task_ids(v.tasks)),
        v.tasks.len() <= usize::MAX,
    ensures
        forall|a: int|
            0 <= a < ordered_tasks(v.tasks, gid).len() ==> v.has_task((#[trigger] ordered_tasks(v.tasks, gid)[a]).id)
                && v.task_row(ordered_tasks(v.tasks, gid)[a].id) == ordered_tasks(v.tasks, gid)[a],
{
    let ot = ordered_tasks(v.tasks, gid);
    lemma_ordered_tasks(v.tasks, gid);
    let ids = task_ids(v.tasks);
    assert forall|a: int| 0 <= a < ot.len() implies v.has_task((#[trigger] ot[a]).id) && v.task_row(ot[a].id) == ot[a] by {
        assert(v.tasks.contains(ot[a]));
        let k = choose|k: int| 0 <= k < v.tasks.len() && v.tasks[k] == ot[a];
        assert(ids[k] == ot[a].id);
        assert forall|j: int| 0 <= j < k implies ids[j] != ot[a].id by {
            assert(ids[j] != ids[k]);
        }
        lemma_first_position(ids, ot[a].id, k);
    }
}

/// In a store with unique ids, the tasks under each goal of a project's tree
/// are exactly the goal's unarchived tasks, in sort order: each is the task
/// row with its id, of that goal and unarchived; every unarchived task of the
/// goal is there; and a task listed before another has a sort order no larger
/// than the other's.
pub proof fn law_tree_tasks_in_sort_order(v: PlannerView, pid: Seq<char>)
    requires
        v.wf(),
        v.tasks.len() <= usize::MAX,
    ensures
        v.project_tree(pid) matches Ok(t) ==> {
            &&& forall|g: int, a: int|
                0 <= g < t.goals.len() && 0 <= a < t.goals[g].tasks.len() ==> {
                    let id = (#[trigger] t.goals[g].tasks[a]).id;
                    &&& v.has_task(id)
                    &&& v.task_row(id).goal_id == t.goals[g].id
                    &&& !v.task_row(id).is_archived
                }
            &&& forall|g: int, i: int|
                #![trigger t.goals[g], v.tasks[i]]
                0 <= g < t.goals.len() && 0 <= i < v.tasks.len() && v.tasks[i].goal_id == t.goals[g].id
                    && !v.tasks[i].is_archived ==> exists|a: int|
                    0 <= a < t.goals[g].tasks.len() && (#[trigger] t.goals[g].tasks[a]).id == v.tasks[i].id
            &&& forall|g: int, a: int, b: int|
                #![trigger t.goals[g].tasks[a], t.goals[g].tasks[b]]
                0 <= g < t.goals.len() && 0 <= a < b < t.goals[g].tasks.len() ==> v.task_row(
                    t.goals[g].tasks[a].id,
                ).sort_order <= v.task_row(t.goals[g].tasks[b].id).sort_order
        },
{
    if let Ok(t) = v.project_tree(pid) {
        let tgs = tree_goals_of(v, pid);
        assert(t.goals == tgs);
        let og = ordered_goals(v.goals, pid);
        assert forall|g: int, a: int| 0 <= g < t.goals.len() && 0 <= a < t.goals[g].tasks.len() implies {
            let id = (#[trigger] t.goals[g].tasks[a]).id;
            &&& v.has_task(id)
            &&& v.task_row(id).goal_id == t.goals[g].id
            &&& !v.task_row(id).is_archived
        } by {
            lemma_tree_goal_shape(v, pid, g);
            lemma_ordered_tasks(v.tasks, og[g].id);
            lemma_ordered_task_rows(v, og[g].id);
            let ot = ordered_tasks(v.tasks, og[g].id);
            assert(t.goals[g].tasks[a].id == ot[a].id);
        }
        assert forall|g: int, i: int|
            #![trigger t.goals[g], v.tasks[i]]
            0 <= g < t.goals.len() && 0 <= i < v.tasks.len() && v.tasks[i].goal_id == t.goals[g].id
                && !v.tasks[i].is_archived implies exists|a: int|
                0 <= a < t.goals[g].tasks.len() && (#[trigger] t.goals[g].tasks[a]).id == v.tasks[i].id by {
            lemma_tree_goal_shape(v, pid, g);
            lemma_ordered_tasks(v.tasks, og[g].id);
            let ot = ordered_tasks(v.tasks, og[g].id);
            assert(ot.contains(v.tasks[i]));
            let a = choose|a: int| 0 <= a < ot.len() && ot[a] == v.tasks[i];
            assert(t.goals[g].tasks[a].id == ot[a].id);
        }
        assert forall|g: int, a: int, b: int|
            #![trigger t.goals[g].tasks[a], t.goals[g].tasks[b]]
            0 <= g < t.goals.len() && 0 <= a < b < t.goals[g].tasks.len() implies v.task_row(
                t.goals[g].tasks[a].id,
            ).sort_order <= v.task_row(t.goals[g].tasks[b].id).sort_order by {
            lemma_tree_goal_shape(v, pid, g);
            lemma_ordered_tasks(v.tasks, og[g].id);
            lemma_ordered_task_rows(v, og[g].id);
            let ot = ordered_tasks(v.tasks, og[g].id);
            assert(t.goals[g].tasks[a].id == ot[a].id);
            assert(t.goals[g].tasks[b].id == ot[b].id);
            assert(ot[a].sort_order <= ot[b].sort_order);
        }
    }
}

/// Task `a` of goal `gid`'s tree is the `a`-th of `ordered_tasks`, and its
/// microtasks are, by id, those of `ordered_microtasks` for that task.
proof fn lemma_tree_task_shape(v: PlannerView, gid: Seq<char>, a: int)
    requires
        0 <= a < tree_tasks_of(v, gid).len(),
    ensures
        a < ordered_tasks(v.tasks, gid).len(),
        tree_tasks_of(v, gid)[a].id == ordered_tasks(v.tasks, gid)[a].id,
        tree_tasks_of(v, gid)[a].microtasks.len() == ordered_microtasks(v.microtasks, ordered_tasks(v.tasks, gid)[a].id).len(),
        forall|c: int|
            0 <= c < tree_tasks_of(v, gid)[a].microtasks.len() ==> (#[trigger] tree_tasks_of(v, gid)[a].microtasks[c]).id
                == ordered_microtasks(v.microtasks, ordered_tasks(v.tasks, gid)[a].id)[c].id,
{
    let ot = ordered_tasks(v.tasks, gid);
    let tt = tree_tasks_of(v, gid)[a];
    assert(tt == tree_task_of(v, ot[a]));
    let om = ordered_microtasks(v.microtasks, ot[a].id);
    assert(tt.microtasks == tree_microtasks_of(v, ot[a].id));
    assert forall|c: int| 0 <= c < tt.microtasks.len() implies (#[trigger] tt.microtasks[c]).id == om[c].id by {
        assert(tt.microtasks[c] == tree_microtask_of(om[c]));
    }
}

/// With unique microtask ids, each microtask that `ordered_microtasks` gives
/// is the microtask row with its id.
proof fn lemma_ordered_microtask_rows(v: PlannerView, tid: Seq<char>)
    requires
        ids_unique(microtask_ids(v.microtasks)),
        v.microtasks.len() <= usize::MAX,
    ensures
        forall|c: int|
            0 <= c < ordered_microtasks(v.microtasks, tid).len() ==> v.has_microtask(
                (#[trigger] ordered_microtasks(v.microtasks, tid)[c]).id,
            ) && v.microtask_row(ordered_microtasks(v.microtasks, tid)[c].id) == ordered_microtasks(v.microtasks, tid)[c],
{
    let om = ordered_microtasks(v.microtasks, tid);
    lemma_ordered_microtasks(v.microtasks, tid);
    let ids = microtask_ids(v.microtasks);
    assert forall|c: int| 0 <= c < om.len() implies v.has_microtask((#[trigger] om[c]).id) && v.microtask_row(om[c].id)
        == om[c] by {
        assert(v.microtasks.contains(om[c]));
        let k = choose|k: int| 0 <= k < v.microtasks.len() && v.microtasks[k] == om[c];
        assert(ids[k] == om[c].id);
        assert forall|j: int| 0 <= j < k implies ids[j] != om[c].id by {
            assert(ids[j] != ids[k]);
        }
        lemma_first_position(ids, om[c].id, k);
    }
}

/// In a store with unique ids, the microtasks under each task of a
/// project's tree are exactly the task's unarchived microtasks, in sort
/// order: each is the microtask row with its id, of that task and
/// unarchived; every unarchived microtask of the task is there; and one
/// listed before another has a sort order no larger than the other's.
pub proof fn law_tree_microtasks_in_sort_order(v: PlannerView, pid: Seq<char>)
    requires
        v.wf(),
        v.microtasks.len() <= usize::MAX,
    ensures
        v.project_tree(pid) matches Ok(t) ==> {
            &&& forall|g: int, a: int, c: int|
                0 <= g < t.goals.len() && 0 <= a < t.goals[g].tasks.len() && 0 <= c
                    < t.goals[g].tasks[a].microtasks.len() ==> {
                    let id = (#[trigger] t.goals[g].tasks[a].microtasks[c]).id;
                    &&& v.has_microtask(id)
                    &&& v.microtask_row(id).task_id == t.goals[g].tasks[a].id
                    &&& !v.microtask_row(id).is_archived
                }
            &&& forall|g: int, a: int, i: int|
                #![trigger t.goals[g].tasks[a], v.microtasks[i]]
                0 <= g < t.goals.len() && 0 <= a < t.goals[g].tasks.len() && 0 <= i < v.microtasks.len()
                    && v.microtasks[i].task_id == t.goals[g].tasks[a].id && !v.microtasks[i].is_archived
                    ==> exists|c: int|
                    0 <= c < t.goals[g].tasks[a].microtasks.len() && (#[trigger] t.goals[g].tasks[a].microtasks[c]).id
                        == v.microtasks[i].id
            &&& forall|g: int, a: int, c: int, d: int|
                #![trigger t.goals[g].tasks[a].microtasks[c], t.goals[g].tasks[a].microtasks[d]]
                0 <= g < t.goals.len() && 0 <= a < t.goals[g].tasks.len() && 0 <= c < d
                    < t.goals[g].tasks[a].microtasks.len() ==> v.microtask_row(
                    t.goals[g].tasks[a].microtasks[c].id,
                ).sort_order <= v.microtask_row(t.goals[g].tasks[a].microtasks[d].id).sort_order
        },
{
    if let Ok(t) = v.project_tree(pid) {
        let tgs = tree_goals_of(v, pid);
        assert(t.goals == tgs);
        let og = ordered_goals(v.goals, pid);
        assert forall|g: int, a: int, c: int|
            0 <= g < t.goals.len() && 0 <= a < t.goals[g].tasks.len() && 0 <= c < t.goals[g].tasks[a].microtasks.len() implies {
            let id = (#[trigger] t.goals[g].tasks[a].microtasks[c]).id;
            &&& v.has_microtask(id)
            &&& v.microtask_row(id).task_id == t.goals[g].tasks[a].id
            &&& !v.microtask_row(id).is_archived
        } by {
            lemma_tree_goal_shape(v, pid, g);
            let gid = og[g].id;
            lemma_tree_task_shape(v, gid, a);
            let ot = ordered_tasks(v.tasks, gid);
            lemma_ordered_microtasks(v.microtasks, ot[a].id);
            lemma_ordered_microtask_rows(v, ot[a].id);
            let om = ordered_microtasks(v.microtasks, ot[a].id);
            assert(t.goals[g].tasks[a].microtasks[c].id == om[c].id);
        }
        assert forall|g: int, a: int, i: int|
            #![trigger t.goals[g].tasks[a], v.microtasks[i]]
            0 <= g < t.goals.len() && 0 <= a < t.goals[g].tasks.len() && 0 <= i < v.microtasks.len()
                && v.microtasks[i].task_id == t.goals[g].tasks[a].id && !v.microtasks[i].is_archived implies exists|c: int|
                0 <= c < t.goals[g].tasks[a].microtasks.len() && (#[trigger] t.goals[g].tasks[a].microtasks[c]).id
                    == v.microtasks[i].id by {
            lemma_tree_goal_shape(v, pid, g);
            let gid = og[g].id;
            lemma_tree_task_shape(v, gid, a);
            let ot = ordered_tasks(v.tasks, gid);
            lemma_ordered_microtasks(v.microtasks, ot[a].id);
            let om = ordered_microtasks(v.microtasks, ot[a].id);
            assert(om.contains(v.microtasks[i]));
            let c = choose|c: int| 0 <= c < om.len() && om[c] == v.microtasks[i];
            assert(t.goals[g].tasks[a].microtasks[c].id == om[c].id);
        }
        assert forall|g: int, a: int, c: int, d: int|
            #![trigger t.goals[g].tasks[a].microtasks[c], t.goals[g].tasks[a].microtasks[d]]
            0 <= g < t.goals.len() && 0 <= a < t.goals[g].tasks.len() && 0 <= c < d < t.goals[g].tasks[a].microtasks.len()
                implies v.microtask_row(t.goals[g].tasks[a].microtasks[c].id).sort_order <= v.microtask_row(
                t.goals[g].tasks[a].microtasks[d].id,
            ).sort_order by {
            lemma_tree_goal_shape(v, pid, g);
            let gid = og[g].id;
            lemma_tree_task_shape(v, gid, a);
            let ot = ordered_tasks(v.tasks, gid);
            lemma_ordered_microtasks(v.microtasks, ot[a].id);
            lemma_ordered_microtask_rows(v, ot[a].id);
            let om = ordered_microtasks(v.microtasks, ot[a].id);
            assert(t.goals[g].tasks[a].microtasks[c].id == om[c].id);
            assert(t.goals[g].tasks[a].microtasks[d].id == om[d].id);
            assert(om[c].sort_order <= om[d].sort_order);
        }
    }
}

/// With unique goal ids, each goal that `ordered_goals` gives for project
/// `pid` is the goal row with its id, of that project and unarchived; every
/// unarchived goal of the project is among them; sort orders never decrease.
proof fn lemma_ordered_goal_rows(v: PlannerView, pid: Seq<char>)
    requires
        ids_unique(goal_ids(v.goals)),
        v.goals.len() <= usize::MAX,
    ensures
        forall|g: int|
            0 <= g < ordered_goals(v.goals, pid).len() ==> v.has_goal((#[trigger] ordered_goals(v.goals, pid)[g]).id)
                && v.goal_row(ordered_goals(v.goals, pid)[g].id) == ordered_goals(v.goals, pid)[g]
                && ordered_goals(v.goals, pid)[g].project_id == pid && !ordered_goals(v.goals, pid)[g].is_archived,
        forall|i: int|
            0 <= i < v.goals.len() && (#[trigger] v.goals[i]).project_id == pid && !v.goals[i].is_archived
                ==> ordered_goals(v.goals, pid).contains(v.goals[i]),
        forall|a: int, b: int|
            0 <= a < b < ordered_goals(v.goals, pid).len() ==> #[trigger] ordered_goals(v.goals, pid)[a].sort_order
                <= #[trigger] ordered_goals(v.goals, pid)[b].sort_order,
{
    broadcast use {vstd::seq_lib::group_filter_ensures, Seq::lemma_filter_contains_rev};

    let gs = v.goals;
    let live = live_goals_of(gs, pid);
    assert(live.len() <= gs.len());
    let keys = goal_sort_keys(live);
    let order = sorted_by_int(keys, live.len());
    lemma_sorted_by_int(keys, live.len());
    let o = ordered_goals(gs, pid);
    assert(o == arranged(live, order));
    let ids = goal_ids(gs);
    assert forall|g: int| 0 <= g < o.len() implies v.has_goal((#[trigger] o[g]).id) && v.goal_row(o[g].id) == o[g]
        && o[g].project_id == pid && !o[g].is_archived by {
        assert(order.contains(order[g]));
        assert(o[g] == live[order[g] as int]);
        assert(live.contains(live[order[g] as int]));
        assert(gs.contains(o[g]));
        let k = choose|k: int| 0 <= k < gs.len() && gs[k] == o[g];
        assert(ids[k] == o[g].id);
        assert forall|j: int| 0 <= j < k implies ids[j] != o[g].id by {
            assert(ids[j] != ids[k]);
        }
        lemma_first_position(ids, o[g].id, k);
    }
    assert forall|i: int| 0 <= i < gs.len() && (#[trigger] gs[i]).project_id == pid && !gs[i].is_archived implies o.contains(
        gs[i],
    ) by {
        assert(live.contains(gs[i]));
        let k = choose|k: int| 0 <= k < live.len() && live[k] == gs[i];
        assert(order.contains(k as usize));
        let q = choose|q: int| 0 <= q < order.len() && order[q] == k as usize;
        assert(o[q] == live[k]);
    }
    assert forall|a: int, b: int| 0 <= a < b < o.len() implies #[trigger] o[a].sort_order <= #[trigger] o[b].sort_order by {
        assert(order.contains(order[a]));
        assert(order.contains(order[b]));
        assert(keys[order[a] as int] <= keys[order[b] as int]);
    }
}

/// In a store with unique ids, the goals of a project's tree are exactly its
/// unarchived goals, in sort order: each is the goal row with its id, of the
/// project and unarchived; every unarchived goal of the project is there;
/// and a goal listed before another has a sort order no larger than the
/// other's.
pub proof fn law_tree_goals_in_sort_order(v: PlannerView, pid: Seq<char>)
    requires
        v.wf(),
        v.goals.len() <= usize::MAX,
    ensures
        v.project_tree(pid) matches Ok(t) ==> {
            &&& forall|g: int|
                0 <= g < t.goals.len() ==> {
                    let id = (#[trigger] t.goals[g]).id;
                    &&& v.has_goal(id)
                    &&& v.goal_row(id).project_id == pid
                    &&& !v.goal_row(id).is_archived
                }
            &&& forall|i: int|
                0 <= i < v.goals.len() && (#[trigger] v.goals[i]).project_id == pid && !v.goals[i].is_archived
                    ==> exists|g: int| 0 <= g < t.goals.len() && (#[trigger] t.goals[g]).id == v.goals[i].id
            &&& forall|a: int, b: int|
                0 <= a < b < t.goals.len() ==> v.goal_row((#[trigger] t.goals[a]).id).sort_order <= v.goal_row(
                    (#[trigger] t.goals[b]).id,
                ).sort_order
        },
{
    if let Ok(t) = v.project_tree(pid) {
        let og = ordered_goals(v.goals, pid);
        assert(t.goals == tree_goals_of(v, pid));
        lemma_ordered_goal_rows(v, pid);
        assert forall|g: int| 0 <= g < t.goals.len() implies (#[trigger] t.goals[g]).id == og[g].id by {
            lemma_tree_goal_shape(v, pid, g);
        }
        assert forall|i: int|
            0 <= i < v.goals.len() && (#[trigger] v.goals[i]).project_id == pid && !v.goals[i].is_archived implies exists|g: int|
            0 <= g < t.goals.len() && (#[trigger] t.goals[g]).id == v.goals[i].id by {
            assert(og.contains(v.goals[i]));
            let g = choose|g: int| 0 <= g < og.len() && og[g] == v.goals[i];
            assert(t.goals[g].id == og[g].id);
        }
        assert forall|a: int, b: int| 0 <= a < b < t.goals.len() implies v.goal_row((#[trigger] t.goals[a]).id).sort_order
            <= v.goal_row((#[trigger] t.goals[b]).id).sort_order by {
            assert(t.goals[a].id == og[a].id);
            assert(t.goals[b].id == og[b].id);
            assert(og[a].sort_order <= og[b].sort_order);
        }
    }
}

/// After an accepted reorder of a project's goals, the project's tree lists
/// its goals exactly in the requested order.
pub proof fn law_tree_shows_reordered_goals(v: PlannerView, now: Seq<char>, pid: Seq<char>, ordered: Seq<Seq<char>>)
    requires
        v.goals.len() <= usize::MAX,
        ordered.len() <= i64::MAX,
    ensures
        v.reorder_goals(now, pid, ordered) matches Ok(w) ==> (w.project_tree(pid) matches Ok(t) ==> t.goals.map_values(
            |x: TreeGoalView| x.id,
        ) == ordered),
{
    if let Ok(w) = v.reorder_goals(now, pid, ordered) {
        law_reorder_goals_takes_the_given_order(v, now, pid, ordered);
        if let Ok(t) = w.project_tree(pid) {
            assert(t.goals == tree_goals_of(w, pid));
            let og = ordered_goals(w.goals, pid);
            assert(t.goals.len() == og.len());
            assert forall|g: int| 0 <= g < t.goals.len() implies (#[trigger] t.goals[g]).id == og[g].id by {
                lemma_tree_goal_shape(w, pid, g);
            }
            assert(t.goals.map_values(|x: TreeGoalView| x.id) =~= goal_ids(og));
        }
    }
}

/// After an accepted reorder of a goal's tasks, every project tree lists
/// that goal's tasks exactly in the requested order.
pub proof fn law_tree_shows_reordered_tasks(
    v: PlannerView,
    now: Seq<char>,
    project: Seq<char>,
    gid: Seq<char>,
    ordered: Seq<Seq<char>>,
)
    requires
        v.tasks.len() <= usize::MAX,
        ordered.len() <= i64::MAX,
    ensures
        v.reorder_tasks(now, gid, ordered) matches Ok(w) ==> (w.project_tree(project) matches Ok(t) ==> forall|g: int|
            0 <= g < t.goals.len() && (#[trigger] t.goals[g]).id == gid ==> t.goals[g].tasks.map_values(
                |x: TreeTaskView| x.id,
            ) == ordered),
{
    if let Ok(w) = v.reorder_tasks(now, gid, ordered) {
        law_reorder_tasks_takes_the_given_order(v, now, gid, ordered);
        if let Ok(t) = w.project_tree(project) {
            assert(t.goals == tree_goals_of(w, project));
            assert forall|g: int| 0 <= g < t.goals.len() && (#[trigger] t.goals[g]).id == gid implies t.goals[g].tasks.map_values(
                |x: TreeTaskView| x.id,
            ) == ordered by {
                lemma_tree_goal_shape(w, project, g);
                let ot = ordered_tasks(w.tasks, gid);
                assert(t.goals[g].tasks.map_values(|x: TreeTaskView| x.id) =~= task_ids(ot));
            }
        }
    }
}

/// After an accepted reorder of a task's microtasks, every project tree
/// lists that task's microtasks exactly in the requested order.
pub proof fn law_tree_shows_reordered_microtasks(
    v: PlannerView,
    now: Seq<char>,
    project: Seq<char>,
    tid: Seq<char>,
    ordered: Seq<Seq<char>>,
)
    requires
        v.microtasks.len() <= usize::MAX,
        ordered.len() <= i64::MAX,
    ensures
        v.reorder_microtasks(now, tid, ordered) matches Ok(w) ==> (w.project_tree(project) matches Ok(t) ==> forall|g: int, a: int|
            0 <= g < t.goals.len() && 0 <= a < t.goals[g].tasks.len() && (#[trigger] t.goals[g].tasks[a]).id == tid
                ==> t.goals[g].tasks[a].microtasks.map_values(|x: TreeMicrotaskView| x.id) == ordered),
{
    if let Ok(w) = v.reorder_microtasks(now, tid, ordered) {
        law_reorder_microtasks_takes_the_given_order(v, now, tid, ordered);
        if let Ok(t) = w.project_tree(project) {
            assert(t.goals == tree_goals_of(w, project));
            assert forall|g: int, a: int|
                0 <= g < t.goals.len() && 0 <= a < t.goals[g].tasks.len() && (#[trigger] t.goals[g].tasks[a]).id == tid
                    implies t.goals[g].tasks[a].microtasks.map_values(|x: TreeMicrotaskView| x.id) == ordered by {
                lemma_tree_goal_shape(w, project, g);
                let gid = ordered_goals(w.goals, project)[g].id;
                lemma_tree_task_shape(w, gid, a);
                let om = ordered_microtasks(w.microtasks, tid);
                assert(t.goals[g].tasks[a].microtasks.map_values(|x: TreeMicrotaskView| x.id) =~= microtask_ids(om));
            }
        }
    }
}

} // verus!
