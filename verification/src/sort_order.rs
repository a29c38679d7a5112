//! Sort orders of new rows: a new row goes after all of its siblings,
//! archived ones included (`COALESCE(MAX(sort_order) + 1, 0)`).

use vstd::prelude::*;
use crate::models::{Goal, GoalView, Microtask, MicrotaskView, Task, TaskView};
use crate::store::{goals_view, microtasks_view, tasks_view};

verus! {

broadcast use {Seq::lemma_filter_push, Seq::lemma_push_map_commute};

/// The largest value of `s`, if any.
pub open spec fn seq_max(s: Seq<i64>) -> Option<i64>
    decreases s.len(),
{
    if s.len() == 0 {
        None
    } else {
        match seq_max(s.drop_last()) {
            None => Some(s.last()),
            Some(m) => Some(if m < s.last() { s.last() } else { m }),
        }
    }
}

/// The sort order after the largest one, 0 when there is none; none when the
/// largest is `i64::MAX` and the next one does not fit.
pub open spec fn next_sort_order(max: Option<i64>) -> Option<i64> {
    match max {
        None => Some(0),
        Some(m) => if m < i64::MAX { Some((m + 1) as i64) } else { None },
    }
}

/// The largest value of `s` is one of its values and no value exceeds it.
pub proof fn lemma_seq_max(s: Seq<i64>)
    ensures
        match seq_max(s) {
            None => s.len() == 0,
            Some(m) => s.contains(m) && forall|i: int| 0 <= i < s.len() ==> s[i] <= m,
        },
    decreases s.len(),
{
    if s.len() > 0 {
        let p = s.drop_last();
        lemma_seq_max(p);
        let x = s.last();
        assert(s[s.len() - 1] == x);
        match seq_max(p) {
            None => {
                assert(p.len() == 0);
                assert(seq_max(s) == Some(x));
            },
            Some(m) => {
                let k = choose|k: int| 0 <= k < p.len() && p[k] == m;
                assert(s[k] == m);
                assert forall|i: int| 0 <= i < s.len() implies s[i] <= seq_max(s)->Some_0 by {
                    if i < s.len() - 1 {
                        assert(s[i] == p[i]);
                    }
                }
            },
        }
    }
}

/// The sort orders of the rows whose `project_id` is `parent`, archived ones included.
pub open spec fn goal_sort_orders(s: Seq<GoalView>, parent: Seq<char>) -> Seq<i64> {
    s.filter(|r: GoalView| r.project_id == parent).map_values(|r: GoalView| r.sort_order)
}

/// The largest sort order among the rows whose `project_id` is `parent`.
pub fn max_goal_sort_order(rows: &Vec<Goal>, parent: &String) -> (r: Option<i64>)
    ensures
        r == seq_max(goal_sort_orders(goals_view(rows@), parent@)),
{
    let ghost all = goals_view(rows@);
    let mut mx: Option<i64> = None;
    let mut i: usize = 0;
    while i < rows.len()
        invariant
            i <= rows.len(),
            all == goals_view(rows@),
            mx == seq_max(goal_sort_orders(all.take(i as int), parent@)),
        decreases rows.len() - i,
    {
        assert(all.take(i + 1) =~= all.take(i as int).push(all[i as int]));
        let ghost before = goal_sort_orders(all.take(i as int), parent@);
        if rows[i].project_id == *parent {
            let k = rows[i].sort_order;
            assert(goal_sort_orders(all.take(i + 1), parent@) =~= before.push(k));
            assert(before.push(k).drop_last() =~= before);
            mx = match mx {
                None => Some(k),
                Some(m) => Some(if m < k { k } else { m }),
            };
        } else {
            assert(goal_sort_orders(all.take(i + 1), parent@) =~= before);
        }
        i += 1;
    }
    assert(all.take(rows.len() as int) =~= all);
    mx
}

/// The sort orders of the rows whose `goal_id` is `parent`, archived ones included.
pub open spec fn task_sort_orders(s: Seq<TaskView>, parent: Seq<char>) -> Seq<i64> {
    s.filter(|r: TaskView| r.goal_id == parent).map_values(|r: TaskView| r.sort_order)
}

/// The largest sort order among the rows whose `goal_id` is `parent`.
pub fn max_task_sort_order(rows: &Vec<Task>, parent: &String) -> (r: Option<i64>)
    ensures
        r == seq_max(task_sort_orders(tasks_view(rows@), parent@)),
{
    let ghost all = tasks_view(rows@);
    let mut mx: Option<i64> = None;
    let mut i: usize = 0;
    while i < rows.len()
        invariant
            i <= rows.len(),
            all == tasks_view(rows@),
            mx == seq_max(task_sort_orders(all.take(i as int), parent@)),
        decreases rows.len() - i,
    {
        assert(all.take(i + 1) =~= all.take(i as int).push(all[i as int]));
        let ghost before = task_sort_orders(all.take(i as int), parent@);
        if rows[i].goal_id == *parent {
            let k = rows[i].sort_order;
            assert(task_sort_orders(all.take(i + 1), parent@) =~= before.push(k));
            assert(before.push(k).drop_last() =~= before);
            mx = match mx {
                None => Some(k),
                Some(m) => Some(if m < k { k } else { m }),
            };
        } else {
            assert(task_sort_orders(all.take(i + 1), parent@) =~= before);
        }
        i += 1;
    }
    assert(all.take(rows.len() as int) =~= all);
    mx
}

/// The sort orders of the rows whose `task_id` is `parent`, archived ones included.
pub open spec fn microtask_sort_orders(s: Seq<MicrotaskView>, parent: Seq<char>) -> Seq<i64> {
    s.filter(|r: MicrotaskView| r.task_id == parent).map_values(|r: MicrotaskView| r.sort_order)
}

/// The largest sort order among the rows whose `task_id` is `parent`.
pub fn max_microtask_sort_order(rows: &Vec<Microtask>, parent: &String) -> (r: Option<i64>)
    ensures
        r == seq_max(microtask_sort_orders(microtasks_view(rows@), parent@)),
{
    let ghost all = microtasks_view(rows@);
    let mut mx: Option<i64> = None;
    let mut i: usize = 0;
    while i < rows.len()
        invariant
            i <= rows.len(),
            all == microtasks_view(rows@),
            mx == seq_max(microtask_sort_orders(all.take(i as int), parent@)),
        decreases rows.len() - i,
    {
        assert(all.take(i + 1) =~= all.take(i as int).push(all[i as int]));
        let ghost before = microtask_sort_orders(all.take(i as int), parent@);
        if rows[i].task_id == *parent {
            let k = rows[i].sort_order;
            assert(microtask_sort_orders(all.take(i + 1), parent@) =~= before.push(k));
            assert(before.push(k).drop_last() =~= before);
            mx = match mx {
                None => Some(k),
                Some(m) => Some(if m < k { k } else { m }),
            };
        } else {
            assert(microtask_sort_orders(all.take(i + 1), parent@) =~= before);
        }
        i += 1;
    }
    assert(all.take(rows.len() as int) =~= all);
    mx
}

} // verus!
