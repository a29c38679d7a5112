//! Microtasks: validation, creation, edits, archiving, deletion, ordering,
//! and completion with roll-up.

use vstd::prelude::*;
use crate::precheck::settles_as;
use crate::time::{clock_error, clock_unreadable, is_utc_timestamp, now_iso8601};
use crate::error::{AppError, ErrorView};
use crate::models::{Microtask, MicrotaskView, TaskView};
use crate::rollup::{
    mark_goals_completed, mark_goals_reopened,
    mark_microtasks_completed, mark_microtasks_reopened, mark_tasks_completed,
    mark_tasks_reopened, microtasks_completed, tasks_completed,
};
use crate::store::{
    has_live_open_microtask, has_live_open_task, find_microtask, find_task, lemma_first_position, microtask_ids, microtasks_view, task_ids,
    tasks_view, Planner,
};
use crate::text::{completed_word, open_word, opt_str, own_opt, status_completed, status_open, trim_text, trim_view};
use crate::cascade::{keep_microtasks_without_ids, microtasks_without_ids};
use crate::reorder::{check_reorder, is_exact_reorder, new_sort_order, position_of_text, texts_view};
use crate::sort_order::{max_microtask_sort_order, microtask_sort_orders, next_sort_order, seq_max};
use crate::store::{find_pomodoro_type, PlannerView};

verus! {

broadcast use {Seq::lemma_filter_push, Seq::lemma_push_map_commute};

/// Whether some row other than `id` is an open, unarchived microtask of
/// task `tid`.
fn other_live_open_microtask(rows: &Vec<Microtask>, tid: &String, id: &String) -> (r: bool)
    ensures
        r == exists|j: int|
            0 <= j < rows@.len() && #[trigger] rows@[j].task_id@ == tid@ && rows@[j].id@ != id@
                && rows@[j].status@ == status_open() && !rows@[j].is_archived,
{
    let open = open_word();
    let mut i: usize = 0;
    while i < rows.len()
        invariant
            i <= rows.len(),
            open@ == status_open(),
            forall|j: int|
                0 <= j < i ==> !(#[trigger] rows@[j].task_id@ == tid@ && rows@[j].id@ != id@
                    && rows@[j].status@ == status_open() && !rows@[j].is_archived),
        decreases rows.len() - i,
    {
        if rows[i].task_id == *tid && !(rows[i].id == *id) && rows[i].status == open
            && !rows[i].is_archived {
            return true;
        }
        i += 1;
    }
    false
}

/// Whether some row other than `tid` is an open, unarchived task of goal
/// `gid`.
fn other_live_open_task(rows: &Vec<crate::models::Task>, gid: &String, tid: &String) -> (r: bool)
    ensures
        r == exists|j: int|
            0 <= j < rows@.len() && #[trigger] rows@[j].goal_id@ == gid@ && rows@[j].id@ != tid@
                && rows@[j].status@ == status_open() && !rows@[j].is_archived,
{
    let open = open_word();
    let mut i: usize = 0;
    while i < rows.len()
        invariant
            i <= rows.len(),
            open@ == status_open(),
            forall|j: int|
                0 <= j < i ==> !(#[trigger] rows@[j].goal_id@ == gid@ && rows@[j].id@ != tid@
                    && rows@[j].status@ == status_open() && !rows@[j].is_archived),
        decreases rows.len() - i,
    {
        if rows[i].goal_id == *gid && !(rows[i].id == *tid) && rows[i].status == open
            && !rows[i].is_archived {
            return true;
        }
        i += 1;
    }
    false
}

/// Completes microtask `id` at `now`, rolling the completion up to its task
/// and goal as `PlannerView::complete_microtask` says. On an error the store
/// is left as it was.
pub fn complete_microtask_at(store: &mut Planner, now: &str, id: &str) -> (r: Result<(), AppError>)
    ensures
        match old(store)@.complete_microtask(now@, id@) {
            Ok(v) => r is Ok && final(store)@ == v,
            Err(e) => r matches Err(x) && x@ == e && final(store)@ == old(store)@,
        },
{
    let ghost v0 = store@;
    let id_s = id.to_owned();
    let now_s = now.to_owned();
    let k = match find_microtask(&store.microtasks, &id_s) {
        None => return Err(AppError::NotFound { entity: "microtask", id: id_s }),
        Some(k) => k,
    };
    proof {
        lemma_first_position(microtask_ids(v0.microtasks), id@, k as int);
    }
    let completed = completed_word();
    if store.microtasks[k].status == completed {
        return Ok(());
    }
    let task_id = store.microtasks[k].task_id.clone();
    let ghost ms = microtasks_completed(v0.microtasks, id@, now@);
    let siblings = other_live_open_microtask(&store.microtasks, &task_id, &id_s);
    assert(siblings == has_live_open_microtask(ms, task_id@)) by {
        if siblings {
            let j = choose|j: int|
                0 <= j < store.microtasks@.len() && #[trigger] store.microtasks@[j].task_id@ == task_id@
                    && store.microtasks@[j].id@ != id@ && store.microtasks@[j].status@ == status_open()
                    && !store.microtasks@[j].is_archived;
            assert(ms[j].task_id == task_id@);
        }
        if has_live_open_microtask(ms, task_id@) {
            let j = choose|j: int|
                0 <= j < ms.len() && #[trigger] ms[j].task_id == task_id@ && ms[j].status
                    == status_open() && !ms[j].is_archived;
            assert(store.microtasks@[j].task_id@ == task_id@);
        }
    }
    if siblings {
        mark_microtasks_completed(&mut store.microtasks, &id_s, &now_s);
        return Ok(());
    }
    let ti = match find_task(&store.tasks, &task_id) {
        None => {
            return Err(
                AppError::Db(
                    "no rows returned by a query that expected to return at least one row".to_owned(),
                ),
            );
        },
        Some(ti) => ti,
    };
    proof {
        lemma_first_position(task_ids(v0.tasks), task_id@, ti as int);
    }
    let goal_id = store.tasks[ti].goal_id.clone();
    let ghost ts = tasks_completed(v0.tasks, task_id@, now@);
    let open_tasks = other_live_open_task(&store.tasks, &goal_id, &task_id);
    assert(open_tasks == has_live_open_task(ts, goal_id@)) by {
        if open_tasks {
            let j = choose|j: int|
                0 <= j < store.tasks@.len() && #[trigger] store.tasks@[j].goal_id@ == goal_id@
                    && store.tasks@[j].id@ != task_id@ && store.tasks@[j].status@ == status_open()
                    && !store.tasks@[j].is_archived;
            assert(ts[j].goal_id == goal_id@);
        }
        if has_live_open_task(ts, goal_id@) {
            let j = choose|j: int|
                0 <= j < ts.len() && #[trigger] ts[j].goal_id == goal_id@ && ts[j].status
                    == status_open() && !ts[j].is_archived;
            assert(store.tasks@[j].goal_id@ == goal_id@);
        }
    }
    mark_microtasks_completed(&mut store.microtasks, &id_s, &now_s);
    mark_tasks_completed(&mut store.tasks, &task_id, &now_s);
    if !open_tasks {
        mark_goals_completed(&mut store.goals, &goal_id, &now_s);
    }
    Ok(())
}

/// Reopens microtask `id` at `now`, reopening its task and the task's goal
/// as `PlannerView::uncomplete_microtask` says. On an error the store is left
/// as it was.
pub fn uncomplete_microtask_at(store: &mut Planner, now: &str, id: &str) -> (r: Result<(), AppError>)
    ensures
        match old(store)@.uncomplete_microtask(now@, id@) {
            Ok(v) => r is Ok && final(store)@ == v,
            Err(e) => r matches Err(x) && x@ == e && final(store)@ == old(store)@,
        },
{
    let ghost v0 = store@;
    let id_s = id.to_owned();
    let now_s = now.to_owned();
    let k = match find_microtask(&store.microtasks, &id_s) {
        None => return Err(AppError::NotFound { entity: "microtask", id: id_s }),
        Some(k) => k,
    };
    proof {
        lemma_first_position(microtask_ids(v0.microtasks), id@, k as int);
    }
    let open = open_word();
    if store.microtasks[k].status == open {
        return Ok(());
    }
    let task_id = store.microtasks[k].task_id.clone();
    let ti = match find_task(&store.tasks, &task_id) {
        None => {
            return Err(
                AppError::Db(
                    "no rows returned by a query that expected to return at least one row".to_owned(),
                ),
            );
        },
        Some(ti) => ti,
    };
    proof {
        lemma_first_position(task_ids(v0.tasks), task_id@, ti as int);
    }
    let goal_id = store.tasks[ti].goal_id.clone();
    mark_microtasks_reopened(&mut store.microtasks, &id_s, &now_s);
    mark_tasks_reopened(&mut store.tasks, &task_id, &now_s);
    mark_goals_reopened(&mut store.goals, &goal_id, &now_s);
    Ok(())
}

/// The unarchived microtasks of task `pid`, in stored order.
pub open spec fn live_microtasks_of(gs: Seq<MicrotaskView>, pid: Seq<char>) -> Seq<MicrotaskView> {
    gs.filter(|g: MicrotaskView| g.task_id == pid && !g.is_archived)
}

/// Every microtask row named in `ordered` gets its position there as its sort
/// order, stamped `now`.
pub open spec fn microtasks_reordered(gs: Seq<MicrotaskView>, ordered: Seq<Seq<char>>, now: Seq<char>) -> Seq<MicrotaskView> {
    gs.map_values(
        |g: MicrotaskView|
            if ordered.contains(g.id) {
                MicrotaskView { sort_order: new_sort_order(ordered, g.id), updated_at: now, ..g }
            } else {
                g
            },
    )
}

/// Every microtask row with the id, archived and stamped `now`.
pub open spec fn microtasks_archived(gs: Seq<MicrotaskView>, id: Seq<char>, now: Seq<char>) -> Seq<MicrotaskView> {
    gs.map_values(
        |g: MicrotaskView| if g.id == id { MicrotaskView { is_archived: true, updated_at: now, ..g } } else { g },
    )
}

impl PlannerView {
    /// Archiving microtask `id`.
    pub open spec fn archive_microtask(self, now: Seq<char>, id: Seq<char>) -> Result<PlannerView, ErrorView> {
        if !self.has_microtask(id) {
            Err(ErrorView::NotFound { entity: "microtask"@, id })
        } else {
            Ok(PlannerView { microtasks: microtasks_archived(self.microtasks, id, now), ..self })
        }
    }

    /// Reordering the microtasks of task `pid`: `ordered` must list exactly its
    /// unarchived microtasks, each once; each then takes its position as sort
    /// order.
    pub open spec fn reorder_microtasks(self, now: Seq<char>, pid: Seq<char>, ordered: Seq<Seq<char>>) -> Result<PlannerView, ErrorView> {
        if !is_exact_reorder(microtask_ids(live_microtasks_of(self.microtasks, pid)), ordered) {
            Err(ErrorView::Validation("ordered_ids must contain exactly the task's non-archived microtasks"@))
        } else {
            Ok(PlannerView { microtasks: microtasks_reordered(self.microtasks, ordered, now), ..self })
        }
    }

}

/// The ids of the unarchived microtasks of task `pid`, in stored order.
fn live_microtask_ids(rows: &Vec<Microtask>, pid: &String) -> (r: Vec<String>)
    ensures
        texts_view(r@) == microtask_ids(live_microtasks_of(microtasks_view(rows@), pid@)),
{
    let ghost all = microtasks_view(rows@);
    let mut out: Vec<String> = Vec::new();
    let mut i: usize = 0;
    while i < rows.len()
        invariant
            i <= rows.len(),
            all == microtasks_view(rows@),
            texts_view(out@) == microtask_ids(live_microtasks_of(all.take(i as int), pid@)),
        decreases rows.len() - i,
    {
        assert(all.take(i + 1) =~= all.take(i as int).push(all[i as int]));
        if rows[i].task_id == *pid && !rows[i].is_archived {
            out.push(rows[i].id.clone());
        }
        assert(texts_view(out@) =~= microtask_ids(live_microtasks_of(all.take(i + 1), pid@)));
        i += 1;
    }
    assert(all.take(rows.len() as int) =~= all);
    out
}

/// Reorders the microtasks of task `task_id`: `ordered_ids` must list
/// exactly its unarchived microtasks, each once, and each takes its position as
/// sort order. On an error the store is left as it was.
pub fn reorder_microtasks_at(store: &mut Planner, now: &str, task_id: &str, ordered_ids: &[String]) -> (r: Result<(), AppError>)
    requires
        ordered_ids@.len() <= i64::MAX,
    ensures
        match old(store)@.reorder_microtasks(now@, task_id@, texts_view(ordered_ids@)) {
            Ok(v) => r is Ok && final(store)@ == v,
            Err(e) => r matches Err(x) && x@ == e && final(store)@ == old(store)@,
        },
{
    let ghost v0 = store@;
    let ghost o = texts_view(ordered_ids@);
    let pid = task_id.to_owned();
    let existing = live_microtask_ids(&store.microtasks, &pid);
    if !check_reorder(&existing, ordered_ids) {
        return Err(
            AppError::Validation(
                "ordered_ids must contain exactly the task's non-archived microtasks".to_owned(),
            ),
        );
    }
    let now_s = now.to_owned();
    let mut i: usize = 0;
    while i < store.microtasks.len()
        invariant
            i <= store.microtasks.len(),
            store.microtasks@.len() == v0.microtasks.len(),
            o == texts_view(ordered_ids@),
            ordered_ids@.len() <= i64::MAX,
            now_s@ == now@,
            forall|j: int| 0 <= j < i ==> #[trigger] store.microtasks@[j]@ == microtasks_reordered(v0.microtasks, o, now@)[j],
            forall|j: int| i <= j < store.microtasks@.len() ==> #[trigger] store.microtasks@[j]@ == v0.microtasks[j],
            store.tasks == old(store).tasks,
            store.goals == old(store).goals,
            store.projects == old(store).projects,
            store.pomodoro_types == old(store).pomodoro_types,
        decreases store.microtasks.len() - i,
    {
        match position_of_text(ordered_ids, &store.microtasks[i].id) {
            Some(p) => {
                proof {
                    crate::store::lemma_first_position(o, store.microtasks@[i as int].id@, p as int);
                }
                let ghost old_g = v0.microtasks[i as int];
                assert(old_g == store.microtasks@[i as int]@);
                assert(o.contains(old_g.id));
                assert(new_sort_order(o, old_g.id) == p as i64);
                let mut g = store.microtasks[i].clone();
                g.sort_order = p as i64;
                g.updated_at = now_s.clone();
                assert(g@ == MicrotaskView { sort_order: new_sort_order(o, old_g.id), updated_at: now@, ..old_g });
                store.microtasks.set(i, g);
                assert(store.microtasks@[i as int]@ == microtasks_reordered(v0.microtasks, o, now@)[i as int]);
            },
            None => {
                assert(store.microtasks@[i as int]@ == microtasks_reordered(v0.microtasks, o, now@)[i as int]);
            },
        }
        i += 1;
    }
    assert(microtasks_view(store.microtasks@) =~= microtasks_reordered(v0.microtasks, o, now@));
    Ok(())
}

/// Archives microtask `id` at `now`. On an error the store is left as it was.
pub fn archive_microtask_at(store: &mut Planner, now: &str, id: &str) -> (r: Result<(), AppError>)
    ensures
        match old(store)@.archive_microtask(now@, id@) {
            Ok(v) => r is Ok && final(store)@ == v,
            Err(e) => r matches Err(x) && x@ == e && final(store)@ == old(store)@,
        },
{
    let ghost v0 = store@;
    let id_s = id.to_owned();
    if find_microtask(&store.microtasks, &id_s).is_none() {
        return Err(AppError::NotFound { entity: "microtask", id: id_s });
    }
    let ghost target = microtasks_archived(v0.microtasks, id@, now@);
    let mut i: usize = 0;
    while i < store.microtasks.len()
        invariant
            i <= store.microtasks.len(),
            store.microtasks@.len() == v0.microtasks.len(),
            id_s@ == id@,
            v0 == old(store)@,
            target == microtasks_archived(v0.microtasks, id@, now@),
            forall|j: int| 0 <= j < i ==> #[trigger] store.microtasks@[j]@ == target[j],
            forall|j: int| i <= j < store.microtasks@.len() ==> #[trigger] store.microtasks@[j]@ == v0.microtasks[j],
            store.tasks == old(store).tasks,
            store.goals == old(store).goals,
            store.projects == old(store).projects,
            store.pomodoro_types == old(store).pomodoro_types,
        decreases store.microtasks.len() - i,
    {
        let ghost old_g = v0.microtasks[i as int];
        assert(old_g == store.microtasks@[i as int]@);
        if store.microtasks[i].id == id_s {
            let mut g = store.microtasks[i].clone();
            g.is_archived = true;
            g.updated_at = now.to_owned();
            assert(g@ == MicrotaskView { is_archived: true, updated_at: now@, ..old_g });
            store.microtasks.set(i, g);
        }
        assert(store.microtasks@[i as int]@ == target[i as int]);
        i += 1;
    }
    assert(microtasks_view(store.microtasks@) =~= target);
    Ok(())
}

/// The rule a microtask's fields break, if any: the trimmed title must not
/// be blank, and the estimate and the pomodoro count must be at least 1.
pub open spec fn microtask_fields_error(title: Seq<char>, estimated_minutes: i64, pomodoro_count: i64) -> Option<ErrorView> {
    if trim_view(title).len() == 0 {
        Some(ErrorView::Validation("microtask title must not be empty"@))
    } else if estimated_minutes < 1 {
        Some(ErrorView::Validation("estimated_minutes must be >= 1"@))
    } else if pomodoro_count < 1 {
        Some(ErrorView::Validation("pomodoro_count must be >= 1"@))
    } else {
        None
    }
}

/// Checks a microtask's fields: the trimmed title must not be blank, and the
/// estimate and the pomodoro count must be at least 1.
pub fn validate_microtask_fields(title: &str, estimated_minutes: i64, pomodoro_count: i64) -> (r: Result<(), AppError>)
    ensures
        match microtask_fields_error(title@, estimated_minutes, pomodoro_count) {
            None => r is Ok,
            Some(e) => r matches Err(x) && x@ == e,
        },
{
    if trim_text(title).is_empty() {
        return Err(AppError::Validation("microtask title must not be empty".to_owned()));
    }
    if estimated_minutes < 1 {
        return Err(AppError::Validation("estimated_minutes must be >= 1".to_owned()));
    }
    if pomodoro_count < 1 {
        return Err(AppError::Validation("pomodoro_count must be >= 1".to_owned()));
    }
    Ok(())
}

/// Every microtask row with the id, with the new fields, stamped `now`.
pub open spec fn microtasks_edited(
    ms: Seq<MicrotaskView>,
    id: Seq<char>,
    title: Seq<char>,
    estimated_minutes: i64,
    pomodoro_count: i64,
    pomodoro_type_id: Option<Seq<char>>,
    deadline: Option<Seq<char>>,
    priority: i64,
    now: Seq<char>,
) -> Seq<MicrotaskView> {
    ms.map_values(
        |m: MicrotaskView|
            if m.id == id {
                MicrotaskView {
                    title,
                    estimated_minutes,
                    pomodoro_count,
                    pomodoro_type_id,
                    deadline,
                    priority,
                    updated_at: now,
                    ..m
                }
            } else {
                m
            },
    )
}

impl PlannerView {
    /// The pomodoro type named by `type_id`, if one is named, does not exist.
    pub open spec fn missing_pomodoro_type(self, type_id: Option<Seq<char>>) -> bool {
        match type_id {
            Some(t) => !self.has_pomodoro_type(t),
            None => false,
        }
    }

    /// Creating microtask `id` under task `task_id`: the fields must pass
    /// `microtask_fields_error`, the task must exist and be neither
    /// completed nor archived, a named pomodoro type must exist, the id must
    /// be new; the microtask is open, unarchived, stamped `now`, has the
    /// trimmed title, and is placed after its siblings.
    pub open spec fn create_microtask(
        self,
        now: Seq<char>,
        id: Seq<char>,
        task_id: Seq<char>,
        title: Seq<char>,
        estimated_minutes: i64,
        pomodoro_count: i64,
        pomodoro_type_id: Option<Seq<char>>,
        deadline: Option<Seq<char>>,
        priority: i64,
    ) -> Result<PlannerView, ErrorView> {
        let next = next_sort_order(seq_max(microtask_sort_orders(self.microtasks, task_id)));
        if microtask_fields_error(title, estimated_minutes, pomodoro_count) is Some {
            Err(microtask_fields_error(title, estimated_minutes, pomodoro_count)->Some_0)
        } else if !self.has_task(task_id) {
            Err(ErrorView::NotFound { entity: "task"@, id: task_id })
        } else if self.task_row(task_id).status == status_completed() {
            Err(ErrorView::Validation("cannot create a microtask under a completed task"@))
        } else if self.task_row(task_id).is_archived {
            Err(ErrorView::Validation("cannot create a microtask under an archived task"@))
        } else if self.missing_pomodoro_type(pomodoro_type_id) {
            Err(ErrorView::NotFound { entity: "pomodoro_type"@, id: pomodoro_type_id->Some_0 })
        } else if self.has_microtask(id) {
            Err(ErrorView::Db("error returned from database: (code: 1555) UNIQUE constraint failed: microtasks.id"@))
        } else if next is None {
            Err(ErrorView::Db("integer overflow"@))
        } else {
            Ok(
                PlannerView {
                    microtasks: self.microtasks.push(
                        MicrotaskView {
                            id,
                            task_id,
                            title: trim_view(title),
                            estimated_minutes,
                            pomodoro_count,
                            pomodoro_type_id,
                            deadline,
                            priority,
                            sort_order: next->Some_0,
                            status: status_open(),
                            is_archived: false,
                            completed_at: None,
                            created_at: now,
                            updated_at: now,
                        },
                    ),
                    ..self
                },
            )
        }
    }

    /// Editing microtask `id`: the fields must pass `microtask_fields_error`
    /// and a named pomodoro type must exist; the fields take the given
    /// values, the title trimmed.
    pub open spec fn update_microtask(
        self,
        now: Seq<char>,
        id: Seq<char>,
        title: Seq<char>,
        estimated_minutes: i64,
        pomodoro_count: i64,
        pomodoro_type_id: Option<Seq<char>>,
        deadline: Option<Seq<char>>,
        priority: i64,
    ) -> Result<PlannerView, ErrorView> {
        if microtask_fields_error(title, estimated_minutes, pomodoro_count) is Some {
            Err(microtask_fields_error(title, estimated_minutes, pomodoro_count)->Some_0)
        } else if self.missing_pomodoro_type(pomodoro_type_id) {
            Err(ErrorView::NotFound { entity: "pomodoro_type"@, id: pomodoro_type_id->Some_0 })
        } else if !self.has_microtask(id) {
            Err(ErrorView::NotFound { entity: "microtask"@, id })
        } else {
            Ok(
                PlannerView {
                    microtasks: microtasks_edited(
                        self.microtasks,
                        id,
                        trim_view(title),
                        estimated_minutes,
                        pomodoro_count,
                        pomodoro_type_id,
                        deadline,
                        priority,
                        now,
                    ),
                    ..self
                },
            )
        }
    }

    /// Deleting microtask `id`.
    pub open spec fn delete_microtask(self, id: Seq<char>) -> Result<PlannerView, ErrorView> {
        if !self.has_microtask(id) {
            Err(ErrorView::NotFound { entity: "microtask"@, id })
        } else {
            Ok(PlannerView { microtasks: microtasks_without_ids(self.microtasks, seq![id]), ..self })
        }
    }
}

/// Checks that the pomodoro type named by `pomodoro_type_id`, if one is
/// named, exists.
pub fn ensure_pomodoro_type_exists(store: &Planner, pomodoro_type_id: Option<&str>) -> (r: Result<(), AppError>)
    ensures
        store@.missing_pomodoro_type(opt_str(pomodoro_type_id)) ==> (r matches Err(x) && x@
            == (ErrorView::NotFound { entity: "pomodoro_type"@, id: opt_str(pomodoro_type_id)->Some_0 })),
        !store@.missing_pomodoro_type(opt_str(pomodoro_type_id)) ==> r is Ok,
{
    match pomodoro_type_id {
        Some(type_id) => {
            let t = type_id.to_owned();
            if find_pomodoro_type(&store.pomodoro_types, &t).is_none() {
                return Err(AppError::NotFound { entity: "pomodoro_type", id: t });
            }
            Ok(())
        },
        None => Ok(()),
    }
}

/// Creates microtask `id` under task `task_id` at `now`, as
/// `PlannerView::create_microtask` says. On an error the store is left as it
/// was.
pub fn create_microtask_at(
    store: &mut Planner,
    now: &str,
    id: &str,
    task_id: &str,
    title: &str,
    estimated_minutes: i64,
    pomodoro_count: i64,
    pomodoro_type_id: Option<&str>,
    deadline: Option<&str>,
    priority: i64,
) -> (r: Result<(), AppError>)
    ensures
        match old(store)@.create_microtask(
            now@,
            id@,
            task_id@,
            title@,
            estimated_minutes,
            pomodoro_count,
            opt_str(pomodoro_type_id),
            opt_str(deadline),
            priority,
        ) {
            Ok(v) => r is Ok && final(store)@ == v,
            Err(e) => r matches Err(x) && x@ == e && final(store)@ == old(store)@,
        },
{
    validate_microtask_fields(title, estimated_minutes, pomodoro_count)?;
    let t = trim_text(title);
    let tid = task_id.to_owned();
    let ti = match find_task(&store.tasks, &tid) {
        None => {
            return Err(AppError::NotFound { entity: "task", id: tid });
        },
        Some(ti) => ti,
    };
    proof {
        lemma_first_position(task_ids(old(store)@.tasks), tid@, ti as int);
    }
    let completed = completed_word();
    if store.tasks[ti].status == completed {
        return Err(AppError::Validation("cannot create a microtask under a completed task".to_owned()));
    }
    if store.tasks[ti].is_archived {
        return Err(AppError::Validation("cannot create a microtask under an archived task".to_owned()));
    }
    ensure_pomodoro_type_exists(store, pomodoro_type_id)?;
    let id_s = id.to_owned();
    if find_microtask(&store.microtasks, &id_s).is_some() {
        return Err(AppError::Db("error returned from database: (code: 1555) UNIQUE constraint failed: microtasks.id".to_owned()));
    }
    let next = match max_microtask_sort_order(&store.microtasks, &tid) {
        None => 0,
        Some(m) => {
            if m == i64::MAX {
                return Err(AppError::Db("integer overflow".to_owned()));
            }
            m + 1
        },
    };
    let m = Microtask {
        id: id_s,
        task_id: tid,
        title: t.to_owned(),
        estimated_minutes,
        pomodoro_count,
        pomodoro_type_id: own_opt(pomodoro_type_id),
        deadline: own_opt(deadline),
        priority,
        sort_order: next,
        status: open_word(),
        is_archived: false,
        completed_at: None,
        created_at: now.to_owned(),
        updated_at: now.to_owned(),
    };
    store.microtasks.push(m);
    assert(microtasks_view(store.microtasks@) =~= microtasks_view(old(store).microtasks@).push(m@));
    Ok(())
}

/// Edits microtask `id` at `now`, as `PlannerView::update_microtask` says.
/// On an error the store is left as it was.
pub fn update_microtask_at(
    store: &mut Planner,
    now: &str,
    id: &str,
    title: &str,
    estimated_minutes: i64,
    pomodoro_count: i64,
    pomodoro_type_id: Option<&str>,
    deadline: Option<&str>,
    priority: i64,
) -> (r: Result<(), AppError>)
    ensures
        match old(store)@.update_microtask(
            now@,
            id@,
            title@,
            estimated_minutes,
            pomodoro_count,
            opt_str(pomodoro_type_id),
            opt_str(deadline),
            priority,
        ) {
            Ok(v) => r is Ok && final(store)@ == v,
            Err(e) => r matches Err(x) && x@ == e && final(store)@ == old(store)@,
        },
{
    let ghost v0 = store@;
    validate_microtask_fields(title, estimated_minutes, pomodoro_count)?;
    let t = trim_text(title);
    ensure_pomodoro_type_exists(store, pomodoro_type_id)?;
    let id_s = id.to_owned();
    if find_microtask(&store.microtasks, &id_s).is_none() {
        return Err(AppError::NotFound { entity: "microtask", id: id_s });
    }
    let ghost target = microtasks_edited(
        v0.microtasks,
        id@,
        t@,
        estimated_minutes,
        pomodoro_count,
        opt_str(pomodoro_type_id),
        opt_str(deadline),
        priority,
        now@,
    );
    let mut i: usize = 0;
    while i < store.microtasks.len()
        invariant
            i <= store.microtasks.len(),
            store.microtasks@.len() == v0.microtasks.len(),
            id_s@ == id@,
            v0 == old(store)@,
            target == microtasks_edited(
                v0.microtasks,
                id@,
                t@,
                estimated_minutes,
                pomodoro_count,
                opt_str(pomodoro_type_id),
                opt_str(deadline),
                priority,
                now@,
            ),
            forall|j: int| 0 <= j < i ==> #[trigger] store.microtasks@[j]@ == target[j],
            forall|j: int| i <= j < store.microtasks@.len() ==> #[trigger] store.microtasks@[j]@ == v0.microtasks[j],
            store.projects == old(store).projects,
            store.goals == old(store).goals,
            store.tasks == old(store).tasks,
            store.pomodoro_types == old(store).pomodoro_types,
        decreases store.microtasks.len() - i,
    {
        let ghost old_m = v0.microtasks[i as int];
        assert(old_m == store.microtasks@[i as int]@);
        if store.microtasks[i].id == id_s {
            let mut m = store.microtasks[i].clone();
            m.title = t.to_owned();
            m.estimated_minutes = estimated_minutes;
            m.pomodoro_count = pomodoro_count;
            m.pomodoro_type_id = own_opt(pomodoro_type_id);
            m.deadline = own_opt(deadline);
            m.priority = priority;
            m.updated_at = now.to_owned();
            assert(m@ == MicrotaskView {
                title: t@,
                estimated_minutes,
                pomodoro_count,
                pomodoro_type_id: opt_str(pomodoro_type_id),
                deadline: opt_str(deadline),
                priority,
                updated_at: now@,
                ..old_m
            });
            store.microtasks.set(i, m);
        }
        assert(store.microtasks@[i as int]@ == target[i as int]);
        i += 1;
    }
    assert(microtasks_view(store.microtasks@) =~= target);
    Ok(())
}

/// Deletes microtask `id`. On an error the store is left as it was.
pub fn delete_microtask(store: &mut Planner, id: &str) -> (r: Result<(), AppError>)
    ensures
        match old(store)@.delete_microtask(id@) {
            Ok(v) => r is Ok && final(store)@ == v,
            Err(e) => r matches Err(x) && x@ == e && final(store)@ == old(store)@,
        },
{
    let id_s = id.to_owned();
    if find_microtask(&store.microtasks, &id_s).is_none() {
        return Err(AppError::NotFound { entity: "microtask", id: id_s });
    }
    let mut gone: Vec<String> = Vec::new();
    gone.push(id_s);
    assert(texts_view(gone@) =~= seq![id@]);
    let microtasks = keep_microtasks_without_ids(&store.microtasks, &gone);
    store.microtasks = microtasks;
    Ok(())
}

/// The first microtask with the id.
pub fn get_microtask(store: &Planner, id: &str) -> (r: Result<Microtask, AppError>)
    ensures
        store@.has_microtask(id@) ==> (r matches Ok(m) && m@ == store@.microtask_row(id@)),
        !store@.has_microtask(id@) ==> (r matches Err(x) && x@ == (ErrorView::NotFound { entity: "microtask"@, id: id@ })),
{
    let id_s = id.to_owned();
    match find_microtask(&store.microtasks, &id_s) {
        None => Err(AppError::NotFound { entity: "microtask", id: id_s }),
        Some(k) => {
            proof {
                lemma_first_position(microtask_ids(store@.microtasks), id@, k as int);
            }
            Ok(store.microtasks[k].clone())
        },
    }
}

/// What completing a microtask settles before the clock is read: a
/// microtask that does not exist is not found, and one already completed is
/// left as it is.
pub open spec fn complete_microtask_settled(v: PlannerView, id: Seq<char>) -> Option<Result<(), ErrorView>> {
    if !v.has_microtask(id) {
        Some(Err(ErrorView::NotFound { entity: "microtask"@, id }))
    } else if v.microtask_row(id).status == status_completed() {
        Some(Ok(()))
    } else {
        None
    }
}

/// What reopening a microtask settles before the clock is read: a microtask
/// that does not exist is not found, and one already open is left as it is.
pub open spec fn uncomplete_microtask_settled(v: PlannerView, id: Seq<char>) -> Option<Result<(), ErrorView>> {
    if !v.has_microtask(id) {
        Some(Err(ErrorView::NotFound { entity: "microtask"@, id }))
    } else if v.microtask_row(id).status == status_open() {
        Some(Ok(()))
    } else {
        None
    }
}

/// What reordering a task's microtasks settles before the clock is read: a
/// list that is not exactly the task's unarchived microtasks.
pub open spec fn reorder_microtasks_settled(v: PlannerView, pid: Seq<char>, ordered: Seq<Seq<char>>) -> Option<Result<(), ErrorView>> {
    if !is_exact_reorder(microtask_ids(live_microtasks_of(v.microtasks, pid)), ordered) {
        Some(Err(ErrorView::Validation("ordered_ids must contain exactly the task's non-archived microtasks"@)))
    } else {
        None
    }
}

/// What creating a microtask settles before the clock is read: fields that
/// `microtask_fields_error` refuses, a task that does not exist or is
/// completed or archived, or a named pomodoro type that does not exist.
pub open spec fn create_microtask_settled(
    v: PlannerView,
    task_id: Seq<char>,
    title: Seq<char>,
    estimated_minutes: i64,
    pomodoro_count: i64,
    pomodoro_type_id: Option<Seq<char>>,
) -> Option<Result<(), ErrorView>> {
    if microtask_fields_error(title, estimated_minutes, pomodoro_count) is Some {
        Some(Err(microtask_fields_error(title, estimated_minutes, pomodoro_count)->Some_0))
    } else if !v.has_task(task_id) {
        Some(Err(ErrorView::NotFound { entity: "task"@, id: task_id }))
    } else if v.task_row(task_id).status == status_completed() {
        Some(Err(ErrorView::Validation("cannot create a microtask under a completed task"@)))
    } else if v.task_row(task_id).is_archived {
        Some(Err(ErrorView::Validation("cannot create a microtask under an archived task"@)))
    } else if v.missing_pomodoro_type(pomodoro_type_id) {
        Some(Err(ErrorView::NotFound { entity: "pomodoro_type"@, id: pomodoro_type_id->Some_0 }))
    } else {
        None
    }
}

/// What editing a microtask settles before the clock is read: fields that
/// `microtask_fields_error` refuses, or a named pomodoro type that does not
/// exist.
pub open spec fn update_microtask_settled(
    v: PlannerView,
    title: Seq<char>,
    estimated_minutes: i64,
    pomodoro_count: i64,
    pomodoro_type_id: Option<Seq<char>>,
) -> Option<Result<(), ErrorView>> {
    if microtask_fields_error(title, estimated_minutes, pomodoro_count) is Some {
        Some(Err(microtask_fields_error(title, estimated_minutes, pomodoro_count)->Some_0))
    } else if v.missing_pomodoro_type(pomodoro_type_id) {
        Some(Err(ErrorView::NotFound { entity: "pomodoro_type"@, id: pomodoro_type_id->Some_0 }))
    } else {
        None
    }
}

fn settle_complete_microtask(store: &Planner, id: &str) -> (r: Option<Result<(), AppError>>)
    ensures
        settles_as(r, complete_microtask_settled(store@, id@)),
{
    let id_s = id.to_owned();
    let k = match find_microtask(&store.microtasks, &id_s) {
        None => return Some(Err(AppError::NotFound { entity: "microtask", id: id_s })),
        Some(k) => k,
    };
    proof {
        lemma_first_position(microtask_ids(store@.microtasks), id@, k as int);
    }
    let completed = completed_word();
    if store.microtasks[k].status == completed {
        return Some(Ok(()));
    }
    None
}

fn settle_uncomplete_microtask(store: &Planner, id: &str) -> (r: Option<Result<(), AppError>>)
    ensures
        settles_as(r, uncomplete_microtask_settled(store@, id@)),
{
    let id_s = id.to_owned();
    let k = match find_microtask(&store.microtasks, &id_s) {
        None => return Some(Err(AppError::NotFound { entity: "microtask", id: id_s })),
        Some(k) => k,
    };
    proof {
        lemma_first_position(microtask_ids(store@.microtasks), id@, k as int);
    }
    let open = open_word();
    if store.microtasks[k].status == open {
        return Some(Ok(()));
    }
    None
}

fn settle_reorder_microtasks(store: &Planner, task_id: &str, ordered_ids: &[String]) -> (r: Option<Result<(), AppError>>)
    ensures
        settles_as(r, reorder_microtasks_settled(store@, task_id@, texts_view(ordered_ids@))),
{
    let pid = task_id.to_owned();
    let existing = live_microtask_ids(&store.microtasks, &pid);
    if !check_reorder(&existing, ordered_ids) {
        return Some(Err(AppError::Validation("ordered_ids must contain exactly the task's non-archived microtasks".to_owned())));
    }
    None
}

fn settle_create_microtask(
    store: &Planner,
    task_id: &str,
    title: &str,
    estimated_minutes: i64,
    pomodoro_count: i64,
    pomodoro_type_id: Option<&str>,
) -> (r: Option<Result<(), AppError>>)
    ensures
        settles_as(
            r,
            create_microtask_settled(store@, task_id@, title@, estimated_minutes, pomodoro_count, opt_str(pomodoro_type_id)),
        ),
{
    match validate_microtask_fields(title, estimated_minutes, pomodoro_count) {
        Err(e) => return Some(Err(e)),
        Ok(()) => {},
    }
    let tid = task_id.to_owned();
    let ti = match find_task(&store.tasks, &tid) {
        None => return Some(Err(AppError::NotFound { entity: "task", id: tid })),
        Some(ti) => ti,
    };
    proof {
        lemma_first_position(task_ids(store@.tasks), tid@, ti as int);
    }
    let completed = completed_word();
    if store.tasks[ti].status == completed {
        return Some(Err(AppError::Validation("cannot create a microtask under a completed task".to_owned())));
    }
    if store.tasks[ti].is_archived {
        return Some(Err(AppError::Validation("cannot create a microtask under an archived task".to_owned())));
    }
    match ensure_pomodoro_type_exists(store, pomodoro_type_id) {
        Err(e) => return Some(Err(e)),
        Ok(()) => {},
    }
    None
}

fn settle_update_microtask(
    store: &Planner,
    title: &str,
    estimated_minutes: i64,
    pomodoro_count: i64,
    pomodoro_type_id: Option<&str>,
) -> (r: Option<Result<(), AppError>>)
    ensures
        settles_as(r, update_microtask_settled(store@, title@, estimated_minutes, pomodoro_count, opt_str(pomodoro_type_id))),
{
    match validate_microtask_fields(title, estimated_minutes, pomodoro_count) {
        Err(e) => return Some(Err(e)),
        Ok(()) => {},
    }
    match ensure_pomodoro_type_exists(store, pomodoro_type_id) {
        Err(e) => return Some(Err(e)),
        Ok(()) => {},
    }
    None
}

/// First settles, without reading the clock, what `complete_microtask_settled` says; otherwise
/// runs `complete_microtask_at` at the current time of the clock, or, when the clock
/// reads a time that cannot be recorded, fails with `clock_error` and
/// changes nothing.
pub fn complete_microtask(
    store: &mut Planner,
    id: &str,
) -> (r: Result<(), AppError>)
    ensures
        match complete_microtask_settled(old(store)@, id@) {
            Some(out) => final(store)@ == old(store)@ && match out {
                Ok(_) => r is Ok,
                Err(e) => r matches Err(x) && x@ == e,
            },
            None => (r matches Err(x) && x@ == clock_error() && final(store)@ == old(store)@) || exists|now: Seq<char>|
                    is_utc_timestamp(now) && match #[trigger] old(store)@.complete_microtask(now, id@) {
                        Ok(v) => r is Ok && final(store)@ == v,
                        Err(e) => r matches Err(x) && x@ == e && final(store)@ == old(store)@,
                    },
        },
{
    match settle_complete_microtask(store, id) {
        Some(out) => return out,
        None => {},
    }
    let now = match now_iso8601() {
        Some(t) => t,
        None => return Err(clock_unreadable()),
    };
    let r = complete_microtask_at(store, now.as_str(), id);
    assert(
        match old(store)@.complete_microtask(now@, id@) {
            Ok(v) => r is Ok && store@ == v,
            Err(e) => r matches Err(x) && x@ == e && store@ == old(store)@,
        }
    );
    r
}

/// First settles, without reading the clock, what `uncomplete_microtask_settled` says; otherwise
/// runs `uncomplete_microtask_at` at the current time of the clock, or, when the clock
/// reads a time that cannot be recorded, fails with `clock_error` and
/// changes nothing.
pub fn uncomplete_microtask(
    store: &mut Planner,
    id: &str,
) -> (r: Result<(), AppError>)
    ensures
        match uncomplete_microtask_settled(old(store)@, id@) {
            Some(out) => final(store)@ == old(store)@ && match out {
                Ok(_) => r is Ok,
                Err(e) => r matches Err(x) && x@ == e,
            },
            None => (r matches Err(x) && x@ == clock_error() && final(store)@ == old(store)@) || exists|now: Seq<char>|
                    is_utc_timestamp(now) && match #[trigger] old(store)@.uncomplete_microtask(now, id@) {
                        Ok(v) => r is Ok && final(store)@ == v,
                        Err(e) => r matches Err(x) && x@ == e && final(store)@ == old(store)@,
                    },
        },
{
    match settle_uncomplete_microtask(store, id) {
        Some(out) => return out,
        None => {},
    }
    let now = match now_iso8601() {
        Some(t) => t,
        None => return Err(clock_unreadable()),
    };
    let r = uncomplete_microtask_at(store, now.as_str(), id);
    assert(
        match old(store)@.uncomplete_microtask(now@, id@) {
            Ok(v) => r is Ok && store@ == v,
            Err(e) => r matches Err(x) && x@ == e && store@ == old(store)@,
        }
    );
    r
}

/// First settles, without reading the clock, what `reorder_microtasks_settled` says; otherwise
/// runs `reorder_microtasks_at` at the current time of the clock, or, when the clock
/// reads a time that cannot be recorded, fails with `clock_error` and
/// changes nothing.
pub fn reorder_microtasks(
    store: &mut Planner,
    task_id: &str,
    ordered_ids: &[String],
) -> (r: Result<(), AppError>)
    requires
        ordered_ids@.len() <= i64::MAX,
    ensures
        match reorder_microtasks_settled(old(store)@, task_id@, texts_view(ordered_ids@)) {
            Some(out) => final(store)@ == old(store)@ && match out {
                Ok(_) => r is Ok,
                Err(e) => r matches Err(x) && x@ == e,
            },
            None => (r matches Err(x) && x@ == clock_error() && final(store)@ == old(store)@) || exists|now: Seq<char>|
                    is_utc_timestamp(now) && match #[trigger] old(store)@.reorder_microtasks(now, task_id@, texts_view(ordered_ids@)) {
                        Ok(v) => r is Ok && final(store)@ == v,
                        Err(e) => r matches Err(x) && x@ == e && final(store)@ == old(store)@,
                    },
        },
{
    match settle_reorder_microtasks(store, task_id, ordered_ids) {
        Some(out) => return out,
        None => {},
    }
    let now = match now_iso8601() {
        Some(t) => t,
        None => return Err(clock_unreadable()),
    };
    let r = reorder_microtasks_at(store, now.as_str(), task_id, ordered_ids);
    assert(
        match old(store)@.reorder_microtasks(now@, task_id@, texts_view(ordered_ids@)) {
            Ok(v) => r is Ok && store@ == v,
            Err(e) => r matches Err(x) && x@ == e && store@ == old(store)@,
        }
    );
    r
}

/// Runs `archive_microtask_at` at the current time of the clock; when the clock reads a time
/// that cannot be recorded, fails with `clock_error` and changes nothing.
pub fn archive_microtask(
    store: &mut Planner,
    id: &str,
) -> (r: Result<(), AppError>)
    ensures
        (r matches Err(x) && x@ == clock_error() && final(store)@ == old(store)@) || exists|now: Seq<char>|
            is_utc_timestamp(now) && match #[trigger] old(store)@.archive_microtask(now, id@) {
                Ok(v) => r is Ok && final(store)@ == v,
                Err(e) => r matches Err(x) && x@ == e && final(store)@ == old(store)@,
            },
{
    let now = match now_iso8601() {
        Some(t) => t,
        None => return Err(clock_unreadable()),
    };
    let r = archive_microtask_at(store, now.as_str(), id);
    assert(
        match old(store)@.archive_microtask(now@, id@) {
            Ok(v) => r is Ok && store@ == v,
            Err(e) => r matches Err(x) && x@ == e && store@ == old(store)@,
        }
    );
    r
}

/// First settles, without reading the clock, what `create_microtask_settled` says; otherwise
/// runs `create_microtask_at` at the current time of the clock, or, when the clock
/// reads a time that cannot be recorded, fails with `clock_error` and
/// changes nothing.
pub fn create_microtask(
    store: &mut Planner,
    id: &str,
    task_id: &str,
    title: &str,
    estimated_minutes: i64,
    pomodoro_count: i64,
    pomodoro_type_id: Option<&str>,
    deadline: Option<&str>,
    priority: i64,
) -> (r: Result<(), AppError>)
    ensures
        match create_microtask_settled(old(store)@, task_id@, title@, estimated_minutes, pomodoro_count, opt_str(pomodoro_type_id)) {
            Some(out) => final(store)@ == old(store)@ && match out {
                Ok(_) => r is Ok,
                Err(e) => r matches Err(x) && x@ == e,
            },
            None => (r matches Err(x) && x@ == clock_error() && final(store)@ == old(store)@) || exists|now: Seq<char>|
                    is_utc_timestamp(now) && match #[trigger] old(store)@.create_microtask(
                        now,
                        id@,
                        task_id@,
                        title@,
                        estimated_minutes,
                        pomodoro_count,
                        opt_str(pomodoro_type_id),
                        opt_str(deadline),
                        priority,
                    ) {
                        Ok(v) => r is Ok && final(store)@ == v,
                        Err(e) => r matches Err(x) && x@ == e && final(store)@ == old(store)@,
                    },
        },
{
    match settle_create_microtask(store, task_id, title, estimated_minutes, pomodoro_count, pomodoro_type_id) {
        Some(out) => return out,
        None => {},
    }
    let now = match now_iso8601() {
        Some(t) => t,
        None => return Err(clock_unreadable()),
    };
    let r = create_microtask_at(store, now.as_str(), id, task_id, title, estimated_minutes, pomodoro_count, pomodoro_type_id, deadline, priority);
    assert(
        match old(store)@.create_microtask(
            now@,
            id@,
            task_id@,
            title@,
            estimated_minutes,
            pomodoro_count,
            opt_str(pomodoro_type_id),
            opt_str(deadline),
            priority,
        ) {
            Ok(v) => r is Ok && store@ == v,
            Err(e) => r matches Err(x) && x@ == e && store@ == old(store)@,
        }
    );
    r
}

/// First settles, without reading the clock, what `update_microtask_settled` says; otherwise
/// runs `update_microtask_at` at the current time of the clock, or, when the clock
/// reads a time that cannot be recorded, fails with `clock_error` and
/// changes nothing.
pub fn update_microtask(
    store: &mut Planner,
    id: &str,
    title: &str,
    estimated_minutes: i64,
    pomodoro_count: i64,
    pomodoro_type_id: Option<&str>,
    deadline: Option<&str>,
    priority: i64,
) -> (r: Result<(), AppError>)
    ensures
        match update_microtask_settled(old(store)@, title@, estimated_minutes, pomodoro_count, opt_str(pomodoro_type_id)) {
            Some(out) => final(store)@ == old(store)@ && match out {
                Ok(_) => r is Ok,
                Err(e) => r matches Err(x) && x@ == e,
            },
            None => (r matches Err(x) && x@ == clock_error() && final(store)@ == old(store)@) || exists|now: Seq<char>|
                    is_utc_timestamp(now) && match #[trigger] old(store)@.update_microtask(
                        now,
                        id@,
                        title@,
                        estimated_minutes,
                        pomodoro_count,
                        opt_str(pomodoro_type_id),
                        opt_str(deadline),
                        priority,
                    ) {
                        Ok(v) => r is Ok && final(store)@ == v,
                        Err(e) => r matches Err(x) && x@ == e && final(store)@ == old(store)@,
                    },
        },
{
    match settle_update_microtask(store, title, estimated_minutes, pomodoro_count, pomodoro_type_id) {
        Some(out) => return out,
        None => {},
    }
    let now = match now_iso8601() {
        Some(t) => t,
        None => return Err(clock_unreadable()),
    };
    let r = update_microtask_at(store, now.as_str(), id, title, estimated_minutes, pomodoro_count, pomodoro_type_id, deadline, priority);
    assert(
        match old(store)@.update_microtask(
            now@,
            id@,
            title@,
            estimated_minutes,
            pomodoro_count,
            opt_str(pomodoro_type_id),
            opt_str(deadline),
            priority,
        ) {
            Ok(v) => r is Ok && store@ == v,
            Err(e) => r matches Err(x) && x@ == e && store@ == old(store)@,
        }
    );
    r
}

} // verus!
