//! Pomodoro types: work/rest presets, one of which is the default.

use vstd::prelude::*;
use crate::precheck::settles_as;
use crate::time::{clock_error, clock_unreadable, is_utc_timestamp, now_iso8601};
use crate::cascade::{keep_types_without_ids, types_without_ids};
use crate::error::{AppError, ErrorView};
use crate::models::{MicrotaskView, PomodoroType, PomodoroTypeView};
use crate::order::{arranged, sort_by_text, sorted_by_text};
use crate::reorder::texts_view;
use crate::store::{find_pomodoro_type, microtasks_view, pomodoro_types_view, Planner, PlannerView};
use crate::text::{trim_text, trim_view};

verus! {

/// The rule a pomodoro type's fields break, if any: the trimmed name must not
/// be blank, work and rest must be at least 1 minute, and the long break
/// fields come as a pair, each at least 1, or not at all.
pub open spec fn type_fields_error(
    name: Seq<char>,
    work_minutes: i64,
    rest_minutes: i64,
    long_break_minutes: Option<i64>,
    long_break_every: Option<i64>,
) -> Option<ErrorView> {
    if trim_view(name).len() == 0 {
        Some(ErrorView::Validation("pomodoro type name must not be empty"@))
    } else if work_minutes < 1 || rest_minutes < 1 {
        Some(ErrorView::Validation("work_minutes and rest_minutes must be >= 1"@))
    } else {
        match (long_break_minutes, long_break_every) {
            (None, None) => None,
            (Some(m), Some(e)) => if m >= 1 && e >= 1 {
                None
            } else {
                Some(ErrorView::Validation(long_break_message()))
            },
            _ => Some(ErrorView::Validation(long_break_message())),
        }
    }
}

/// The message for long break fields that do not come as a valid pair.
pub open spec fn long_break_message() -> Seq<char> {
    "long_break_minutes and long_break_every must both be set (each >= 1) or both be empty"@
}

/// Checks a pomodoro type's fields as `type_fields_error` says.
pub fn validate_type_fields(
    name: &str,
    work_minutes: i64,
    rest_minutes: i64,
    long_break_minutes: Option<i64>,
    long_break_every: Option<i64>,
) -> (r: Result<(), AppError>)
    ensures
        match type_fields_error(name@, work_minutes, rest_minutes, long_break_minutes, long_break_every) {
            None => r is Ok,
            Some(e) => r matches Err(x) && x@ == e,
        },
{
    if trim_text(name).is_empty() {
        return Err(AppError::Validation("pomodoro type name must not be empty".to_owned()));
    }
    if work_minutes < 1 || rest_minutes < 1 {
        return Err(AppError::Validation("work_minutes and rest_minutes must be >= 1".to_owned()));
    }
    match (long_break_minutes, long_break_every) {
        (None, None) => Ok(()),
        (Some(m), Some(e)) if m >= 1 && e >= 1 => Ok(()),
        _ => Err(
            AppError::Validation(
                "long_break_minutes and long_break_every must both be set (each >= 1) or both be empty".to_owned(),
            ),
        ),
    }
}

/// Every pomodoro type row with the id, with the new fields, stamped `now`.
pub open spec fn types_edited(
    ts: Seq<PomodoroTypeView>,
    id: Seq<char>,
    name: Seq<char>,
    work_minutes: i64,
    rest_minutes: i64,
    long_break_minutes: Option<i64>,
    long_break_every: Option<i64>,
    now: Seq<char>,
) -> Seq<PomodoroTypeView> {
    ts.map_values(
        |t: PomodoroTypeView|
            if t.id == id {
                PomodoroTypeView {
                    name,
                    work_minutes,
                    rest_minutes,
                    long_break_minutes,
                    long_break_every,
                    updated_at: now,
                    ..t
                }
            } else {
                t
            },
    )
}

/// The rows with the id become the default and every other default row
/// stops being one; each changed row is stamped `now`.
pub open spec fn types_with_default(ts: Seq<PomodoroTypeView>, id: Seq<char>, now: Seq<char>) -> Seq<PomodoroTypeView> {
    ts.map_values(
        |t: PomodoroTypeView|
            if t.id == id {
                PomodoroTypeView { is_default: true, updated_at: now, ..t }
            } else if t.is_default {
                PomodoroTypeView { is_default: false, updated_at: now, ..t }
            } else {
                t
            },
    )
}

/// Microtasks that used pomodoro type `id` no longer name one.
pub open spec fn microtasks_type_cleared(ms: Seq<MicrotaskView>, id: Seq<char>) -> Seq<MicrotaskView> {
    ms.map_values(
        |m: MicrotaskView|
            if m.pomodoro_type_id == Some(id) {
                MicrotaskView { pomodoro_type_id: None, ..m }
            } else {
                m
            },
    )
}

/// The creation times of `s`, in order.
pub open spec fn type_created_keys(s: Seq<PomodoroTypeView>) -> Seq<Seq<char>> {
    s.map_values(|t: PomodoroTypeView| t.created_at)
}

impl PlannerView {
    /// All pomodoro types, ordered by creation time (ties in stored order).
    pub open spec fn pomodoro_type_list(self) -> Seq<PomodoroTypeView> {
        let ts = self.pomodoro_types;
        arranged(ts, sorted_by_text(type_created_keys(ts), ts.len()))
    }

    /// Creating pomodoro type `id`: the fields must pass
    /// `type_fields_error` and the id must be new; the type has the trimmed
    /// name, is not the default, and is stamped `now`.
    pub open spec fn create_pomodoro_type(
        self,
        now: Seq<char>,
        id: Seq<char>,
        name: Seq<char>,
        work_minutes: i64,
        rest_minutes: i64,
        long_break_minutes: Option<i64>,
        long_break_every: Option<i64>,
    ) -> Result<PlannerView, ErrorView> {
        let err = type_fields_error(name, work_minutes, rest_minutes, long_break_minutes, long_break_every);
        if err is Some {
            Err(err->Some_0)
        } else if self.has_pomodoro_type(id) {
            Err(ErrorView::Db("error returned from database: (code: 1555) UNIQUE constraint failed: pomodoro_types.id"@))
        } else {
            Ok(
                PlannerView {
                    pomodoro_types: self.pomodoro_types.push(
                        PomodoroTypeView {
                            id,
                            name: trim_view(name),
                            work_minutes,
                            rest_minutes,
                            long_break_minutes,
                            long_break_every,
                            is_default: false,
                            created_at: now,
                            updated_at: now,
                        },
                    ),
                    ..self
                },
            )
        }
    }

    /// Editing pomodoro type `id`: the fields must pass `type_fields_error`;
    /// they take the given values, the name trimmed.
    pub open spec fn update_pomodoro_type(
        self,
        now: Seq<char>,
        id: Seq<char>,
        name: Seq<char>,
        work_minutes: i64,
        rest_minutes: i64,
        long_break_minutes: Option<i64>,
        long_break_every: Option<i64>,
    ) -> Result<PlannerView, ErrorView> {
        let err = type_fields_error(name, work_minutes, rest_minutes, long_break_minutes, long_break_every);
        if err is Some {
            Err(err->Some_0)
        } else if !self.has_pomodoro_type(id) {
            Err(ErrorView::NotFound { entity: "pomodoro_type"@, id })
        } else {
            Ok(
                PlannerView {
                    pomodoro_types: types_edited(
                        self.pomodoro_types,
                        id,
                        trim_view(name),
                        work_minutes,
                        rest_minutes,
                        long_break_minutes,
                        long_break_every,
                        now,
                    ),
                    ..self
                },
            )
        }
    }

    /// Deleting pomodoro type `id`; the microtasks that used it no longer
    /// name a type.
    pub open spec fn delete_pomodoro_type(self, id: Seq<char>) -> Result<PlannerView, ErrorView> {
        if !self.has_pomodoro_type(id) {
            Err(ErrorView::NotFound { entity: "pomodoro_type"@, id })
        } else {
            Ok(
                PlannerView {
                    pomodoro_types: types_without_ids(self.pomodoro_types, seq![id]),
                    microtasks: microtasks_type_cleared(self.microtasks, id),
                    ..self
                },
            )
        }
    }

    /// Making pomodoro type `id` the default, and no other.
    pub open spec fn set_default_pomodoro_type(self, now: Seq<char>, id: Seq<char>) -> Result<PlannerView, ErrorView> {
        if !self.has_pomodoro_type(id) {
            Err(ErrorView::NotFound { entity: "pomodoro_type"@, id })
        } else {
            Ok(PlannerView { pomodoro_types: types_with_default(self.pomodoro_types, id, now), ..self })
        }
    }
}

/// All pomodoro types, as `PlannerView::pomodoro_type_list` says.
pub fn list_pomodoro_types(store: &Planner) -> (r: Vec<PomodoroType>)
    ensures
        pomodoro_types_view(r@) == store@.pomodoro_type_list(),
{
    let ghost tv = store@.pomodoro_types;
    let mut keys: Vec<String> = Vec::new();
    let mut j: usize = 0;
    while j < store.pomodoro_types.len()
        invariant
            j <= store.pomodoro_types.len(),
            tv == store@.pomodoro_types,
            keys@.len() == j,
            forall|k: int| 0 <= k < j ==> #[trigger] keys@[k]@ == tv[k].created_at,
        decreases store.pomodoro_types.len() - j,
    {
        keys.push(store.pomodoro_types[j].created_at.clone());
        j += 1;
    }
    assert(keys@.map_values(|k: String| k@) =~= type_created_keys(tv));
    let order = sort_by_text(&keys);
    let mut out: Vec<PomodoroType> = Vec::new();
    let mut k: usize = 0;
    while k < order.len()
        invariant
            k <= order.len(),
            tv == store@.pomodoro_types,
            order@ == sorted_by_text(type_created_keys(tv), tv.len()),
            forall|q: int| 0 <= q < order@.len() ==> #[trigger] order@[q] < keys@.len(),
            keys@.len() == tv.len(),
            out@.len() == k,
            forall|q: int| 0 <= q < k ==> #[trigger] out@[q]@ == tv[order@[q] as int],
        decreases order.len() - k,
    {
        assert(order@[k as int] < keys@.len());
        out.push(store.pomodoro_types[order[k]].clone());
        k += 1;
    }
    assert(pomodoro_types_view(out@) =~= store@.pomodoro_type_list());
    out
}

/// Creates pomodoro type `id` at `now`, as
/// `PlannerView::create_pomodoro_type` says. On an error the store is left
/// as it was.
pub fn create_pomodoro_type_at(
    store: &mut Planner,
    now: &str,
    id: &str,
    name: &str,
    work_minutes: i64,
    rest_minutes: i64,
    long_break_minutes: Option<i64>,
    long_break_every: Option<i64>,
) -> (r: Result<(), AppError>)
    ensures
        match old(store)@.create_pomodoro_type(now@, id@, name@, work_minutes, rest_minutes, long_break_minutes, long_break_every) {
            Ok(v) => r is Ok && final(store)@ == v,
            Err(e) => r matches Err(x) && x@ == e && final(store)@ == old(store)@,
        },
{
    validate_type_fields(name, work_minutes, rest_minutes, long_break_minutes, long_break_every)?;
    let n = trim_text(name);
    let id_s = id.to_owned();
    if find_pomodoro_type(&store.pomodoro_types, &id_s).is_some() {
        return Err(AppError::Db("error returned from database: (code: 1555) UNIQUE constraint failed: pomodoro_types.id".to_owned()));
    }
    let t = PomodoroType {
        id: id_s,
        name: n.to_owned(),
        work_minutes,
        rest_minutes,
        long_break_minutes,
        long_break_every,
        is_default: false,
        created_at: now.to_owned(),
        updated_at: now.to_owned(),
    };
    store.pomodoro_types.push(t);
    assert(pomodoro_types_view(store.pomodoro_types@) =~= pomodoro_types_view(old(store).pomodoro_types@).push(t@));
    Ok(())
}

/// Edits pomodoro type `id` at `now`, as
/// `PlannerView::update_pomodoro_type` says. On an error the store is left
/// as it was.
pub fn update_pomodoro_type_at(
    store: &mut Planner,
    now: &str,
    id: &str,
    name: &str,
    work_minutes: i64,
    rest_minutes: i64,
    long_break_minutes: Option<i64>,
    long_break_every: Option<i64>,
) -> (r: Result<(), AppError>)
    ensures
        match old(store)@.update_pomodoro_type(now@, id@, name@, work_minutes, rest_minutes, long_break_minutes, long_break_every) {
            Ok(v) => r is Ok && final(store)@ == v,
            Err(e) => r matches Err(x) && x@ == e && final(store)@ == old(store)@,
        },
{
    let ghost v0 = store@;
    validate_type_fields(name, work_minutes, rest_minutes, long_break_minutes, long_break_every)?;
    let n = trim_text(name);
    let id_s = id.to_owned();
    if find_pomodoro_type(&store.pomodoro_types, &id_s).is_none() {
        return Err(AppError::NotFound { entity: "pomodoro_type", id: id_s });
    }
    let ghost target = types_edited(v0.pomodoro_types, id@, n@, work_minutes, rest_minutes, long_break_minutes, long_break_every, now@);
    let mut i: usize = 0;
    while i < store.pomodoro_types.len()
        invariant
            i <= store.pomodoro_types.len(),
            store.pomodoro_types@.len() == v0.pomodoro_types.len(),
            id_s@ == id@,
            v0 == old(store)@,
            target == types_edited(v0.pomodoro_types, id@, n@, work_minutes, rest_minutes, long_break_minutes, long_break_every, now@),
            forall|j: int| 0 <= j < i ==> #[trigger] store.pomodoro_types@[j]@ == target[j],
            forall|j: int| i <= j < store.pomodoro_types@.len() ==> #[trigger] store.pomodoro_types@[j]@ == v0.pomodoro_types[j],
            store.projects == old(store).projects,
            store.goals == old(store).goals,
            store.tasks == old(store).tasks,
            store.microtasks == old(store).microtasks,
        decreases store.pomodoro_types.len() - i,
    {
        let ghost old_t = v0.pomodoro_types[i as int];
        assert(old_t == store.pomodoro_types@[i as int]@);
        if store.pomodoro_types[i].id == id_s {
            let mut t = store.pomodoro_types[i].clone();
            t.name = n.to_owned();
            t.work_minutes = work_minutes;
            t.rest_minutes = rest_minutes;
            t.long_break_minutes = long_break_minutes;
            t.long_break_every = long_break_every;
            t.updated_at = now.to_owned();
            assert(t@ == PomodoroTypeView {
                name: n@,
                work_minutes,
                rest_minutes,
                long_break_minutes,
                long_break_every,
                updated_at: now@,
                ..old_t
            });
            store.pomodoro_types.set(i, t);
        }
        assert(store.pomodoro_types@[i as int]@ == target[i as int]);
        i += 1;
    }
    assert(pomodoro_types_view(store.pomodoro_types@) =~= target);
    Ok(())
}

/// Deletes pomodoro type `id`; the microtasks that used it no longer name a
/// type. On an error the store is left as it was.
pub fn delete_pomodoro_type(store: &mut Planner, id: &str) -> (r: Result<(), AppError>)
    ensures
        match old(store)@.delete_pomodoro_type(id@) {
            Ok(v) => r is Ok && final(store)@ == v,
            Err(e) => r matches Err(x) && x@ == e && final(store)@ == old(store)@,
        },
{
    let ghost v0 = store@;
    let id_s = id.to_owned();
    if find_pomodoro_type(&store.pomodoro_types, &id_s).is_none() {
        return Err(AppError::NotFound { entity: "pomodoro_type", id: id_s });
    }
    let ghost target = microtasks_type_cleared(v0.microtasks, id@);
    let mut i: usize = 0;
    while i < store.microtasks.len()
        invariant
            i <= store.microtasks.len(),
            store.microtasks@.len() == v0.microtasks.len(),
            id_s@ == id@,
            v0 == old(store)@,
            target == microtasks_type_cleared(v0.microtasks, id@),
            forall|j: int| 0 <= j < i ==> #[trigger] store.microtasks@[j]@ == target[j],
            forall|j: int| i <= j < store.microtasks@.len() ==> #[trigger] store.microtasks@[j]@ == v0.microtasks[j],
            store.projects == old(store).projects,
            store.goals == old(store).goals,
            store.tasks == old(store).tasks,
            store.pomodoro_types == old(store).pomodoro_types,
        decreases store.microtasks.len() - i,
    {
        let ghost old_m = v0.microtasks[i as int];
        assert(old_m == store.microtasks@[i as int]@);
        let uses = match &store.microtasks[i].pomodoro_type_id {
            Some(t) => *t == id_s,
            None => false,
        };
        if uses {
            let mut m = store.microtasks[i].clone();
            m.pomodoro_type_id = None;
            assert(m@ == MicrotaskView { pomodoro_type_id: None, ..old_m });
            store.microtasks.set(i, m);
        }
        assert(store.microtasks@[i as int]@ == target[i as int]);
        i += 1;
    }
    assert(microtasks_view(store.microtasks@) =~= target);
    let mut gone: Vec<String> = Vec::new();
    gone.push(id_s);
    assert(texts_view(gone@) =~= seq![id@]);
    let types = keep_types_without_ids(&store.pomodoro_types, &gone);
    store.pomodoro_types = types;
    Ok(())
}

/// Makes pomodoro type `id` the default, and no other, at `now`. On an error
/// the store is left as it was.
pub fn set_default_pomodoro_type_at(store: &mut Planner, now: &str, id: &str) -> (r: Result<(), AppError>)
    ensures
        match old(store)@.set_default_pomodoro_type(now@, id@) {
            Ok(v) => r is Ok && final(store)@ == v,
            Err(e) => r matches Err(x) && x@ == e && final(store)@ == old(store)@,
        },
{
    let ghost v0 = store@;
    let id_s = id.to_owned();
    if find_pomodoro_type(&store.pomodoro_types, &id_s).is_none() {
        return Err(AppError::NotFound { entity: "pomodoro_type", id: id_s });
    }
    let ghost target = types_with_default(v0.pomodoro_types, id@, now@);
    let mut i: usize = 0;
    while i < store.pomodoro_types.len()
        invariant
            i <= store.pomodoro_types.len(),
            store.pomodoro_types@.len() == v0.pomodoro_types.len(),
            id_s@ == id@,
            v0 == old(store)@,
            target == types_with_default(v0.pomodoro_types, id@, now@),
            forall|j: int| 0 <= j < i ==> #[trigger] store.pomodoro_types@[j]@ == target[j],
            forall|j: int| i <= j < store.pomodoro_types@.len() ==> #[trigger] store.pomodoro_types@[j]@ == v0.pomodoro_types[j],
            store.projects == old(store).projects,
            store.goals == old(store).goals,
            store.tasks == old(store).tasks,
            store.microtasks == old(store).microtasks,
        decreases store.pomodoro_types.len() - i,
    {
        let ghost old_t = v0.pomodoro_types[i as int];
        assert(old_t == store.pomodoro_types@[i as int]@);
        if store.pomodoro_types[i].id == id_s {
            let mut t = store.pomodoro_types[i].clone();
            t.is_default = true;
            t.updated_at = now.to_owned();
            assert(t@ == PomodoroTypeView { is_default: true, updated_at: now@, ..old_t });
            store.pomodoro_types.set(i, t);
        } else if store.pomodoro_types[i].is_default {
            let mut t = store.pomodoro_types[i].clone();
            t.is_default = false;
            t.updated_at = now.to_owned();
            assert(t@ == PomodoroTypeView { is_default: false, updated_at: now@, ..old_t });
            store.pomodoro_types.set(i, t);
        }
        assert(store.pomodoro_types@[i as int]@ == target[i as int]);
        i += 1;
    }
    assert(pomodoro_types_view(store.pomodoro_types@) =~= target);
    Ok(())
}

/// What editing a pomodoro type settles before the clock is read: fields
/// that `type_fields_error` refuses.
pub open spec fn type_fields_settled(
    name: Seq<char>,
    work_minutes: i64,
    rest_minutes: i64,
    long_break_minutes: Option<i64>,
    long_break_every: Option<i64>,
) -> Option<Result<(), ErrorView>> {
    match type_fields_error(name, work_minutes, rest_minutes, long_break_minutes, long_break_every) {
        Some(e) => Some(Err(e)),
        None => None,
    }
}

fn settle_type_fields(
    name: &str,
    work_minutes: i64,
    rest_minutes: i64,
    long_break_minutes: Option<i64>,
    long_break_every: Option<i64>,
) -> (r: Option<Result<(), AppError>>)
    ensures
        settles_as(r, type_fields_settled(name@, work_minutes, rest_minutes, long_break_minutes, long_break_every)),
{
    match validate_type_fields(name, work_minutes, rest_minutes, long_break_minutes, long_break_every) {
        Ok(()) => None,
        Err(e) => Some(Err(e)),
    }
}

/// First settles, without reading the clock, what `type_fields_settled` says; otherwise
/// runs `create_pomodoro_type_at` at the current time of the clock, or, when the clock
/// reads a time that cannot be recorded, fails with `clock_error` and
/// changes nothing.
pub fn create_pomodoro_type(
    store: &mut Planner,
    id: &str,
    name: &str,
    work_minutes: i64,
    rest_minutes: i64,
    long_break_minutes: Option<i64>,
    long_break_every: Option<i64>,
) -> (r: Result<(), AppError>)
    ensures
        match type_fields_settled(name@, work_minutes, rest_minutes, long_break_minutes, long_break_every) {
            Some(out) => final(store)@ == old(store)@ && match out {
                Ok(_) => r is Ok,
                Err(e) => r matches Err(x) && x@ == e,
            },
            None => (r matches Err(x) && x@ == clock_error() && final(store)@ == old(store)@) || exists|now: Seq<char>|
                    is_utc_timestamp(now) && match #[trigger] old(store)@.create_pomodoro_type(now, id@, name@, work_minutes, rest_minutes, long_break_minutes, long_break_every) {
                        Ok(v) => r is Ok && final(store)@ == v,
                        Err(e) => r matches Err(x) && x@ == e && final(store)@ == old(store)@,
                    },
        },
{
    match settle_type_fields(name, work_minutes, rest_minutes, long_break_minutes, long_break_every) {
        Some(out) => return out,
        None => {},
    }
    let now = match now_iso8601() {
        Some(t) => t,
        None => return Err(clock_unreadable()),
    };
    let r = create_pomodoro_type_at(store, now.as_str(), id, name, work_minutes, rest_minutes, long_break_minutes, long_break_every);
    assert(
        match old(store)@.create_pomodoro_type(now@, id@, name@, work_minutes, rest_minutes, long_break_minutes, long_break_every) {
            Ok(v) => r is Ok && store@ == v,
            Err(e) => r matches Err(x) && x@ == e && store@ == old(store)@,
        }
    );
    r
}

/// First settles, without reading the clock, what `type_fields_settled` says; otherwise
/// runs `update_pomodoro_type_at` at the current time of the clock, or, when the clock
/// reads a time that cannot be recorded, fails with `clock_error` and
/// changes nothing.
pub fn update_pomodoro_type(
    store: &mut Planner,
    id: &str,
    name: &str,
    work_minutes: i64,
    rest_minutes: i64,
    long_break_minutes: Option<i64>,
    long_break_every: Option<i64>,
) -> (r: Result<(), AppError>)
    ensures
        match type_fields_settled(name@, work_minutes, rest_minutes, long_break_minutes, long_break_every) {
            Some(out) => final(store)@ == old(store)@ && match out {
                Ok(_) => r is Ok,
                Err(e) => r matches Err(x) && x@ == e,
            },
            None => (r matches Err(x) && x@ == clock_error() && final(store)@ == old(store)@) || exists|now: Seq<char>|
                    is_utc_timestamp(now) && match #[trigger] old(store)@.update_pomodoro_type(now, id@, name@, work_minutes, rest_minutes, long_break_minutes, long_break_every) {
                        Ok(v) => r is Ok && final(store)@ == v,
                        Err(e) => r matches Err(x) && x@ == e && final(store)@ == old(store)@,
                    },
        },
{
    match settle_type_fields(name, work_minutes, rest_minutes, long_break_minutes, long_break_every) {
        Some(out) => return out,
        None => {},
    }
    let now = match now_iso8601() {
        Some(t) => t,
        None => return Err(clock_unreadable()),
    };
    let r = update_pomodoro_type_at(store, now.as_str(), id, name, work_minutes, rest_minutes, long_break_minutes, long_break_every);
    assert(
        match old(store)@.update_pomodoro_type(now@, id@, name@, work_minutes, rest_minutes, long_break_minutes, long_break_every) {
            Ok(v) => r is Ok && store@ == v,
            Err(e) => r matches Err(x) && x@ == e && store@ == old(store)@,
        }
    );
    r
}

/// Runs `set_default_pomodoro_type_at` at the current time of the clock; when the clock reads a time
/// that cannot be recorded, fails with `clock_error` and changes nothing.
pub fn set_default_pomodoro_type(
    store: &mut Planner,
    id: &str,
) -> (r: Result<(), AppError>)
    ensures
        (r matches Err(x) && x@ == clock_error() && final(store)@ == old(store)@) || exists|now: Seq<char>|
            is_utc_timestamp(now) && match #[trigger] old(store)@.set_default_pomodoro_type(now, id@) {
                Ok(v) => r is Ok && final(store)@ == v,
                Err(e) => r matches Err(x) && x@ == e && final(store)@ == old(store)@,
            },
{
    let now = match now_iso8601() {
        Some(t) => t,
        None => return Err(clock_unreadable()),
    };
    let r = set_default_pomodoro_type_at(store, now.as_str(), id);
    assert(
        match old(store)@.set_default_pomodoro_type(now@, id@) {
            Ok(v) => r is Ok && store@ == v,
            Err(e) => r matches Err(x) && x@ == e && store@ == old(store)@,
        }
    );
    r
}

} // verus!
