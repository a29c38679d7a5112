//! The planner's store: its five tables, their view, the store's integrity
//! rules and the roll-up consistency rule, and lookups by id.

use vstd::prelude::*;
use crate::models::{
    Goal, GoalView, Microtask, MicrotaskView, PomodoroType, PomodoroTypeView, Project, ProjectView,
    Task, TaskView,
};
use crate::text::{status_completed, status_open};

verus! {

/// The planner's tables, each kept in stored order.
#[derive(Debug)]
pub struct Planner {
    pub projects: Vec<Project>,
    pub goals: Vec<Goal>,
    pub tasks: Vec<Task>,
    pub microtasks: Vec<Microtask>,
    pub pomodoro_types: Vec<PomodoroType>,
}

/// The mathematical value of a `Planner`: one sequence of rows per table.
pub struct PlannerView {
    pub projects: Seq<ProjectView>,
    pub goals: Seq<GoalView>,
    pub tasks: Seq<TaskView>,
    pub microtasks: Seq<MicrotaskView>,
    pub pomodoro_types: Seq<PomodoroTypeView>,
}

impl View for Planner {
    type V = PlannerView;

    open spec fn view(&self) -> PlannerView {
        PlannerView {
            projects: projects_view(self.projects@),
            goals: goals_view(self.goals@),
            tasks: tasks_view(self.tasks@),
            microtasks: microtasks_view(self.microtasks@),
            pomodoro_types: pomodoro_types_view(self.pomodoro_types@),
        }
    }
}

impl Planner {
    /// An empty store.
    pub fn new() -> (p: Planner)
        ensures
            p@.projects.len() == 0,
            p@.goals.len() == 0,
            p@.tasks.len() == 0,
            p@.microtasks.len() == 0,
            p@.pomodoro_types.len() == 0,
            p@.wf(),
            p@.rollup_consistent(),
    {
        Planner {
            projects: Vec::new(),
            goals: Vec::new(),
            tasks: Vec::new(),
            microtasks: Vec::new(),
            pomodoro_types: Vec::new(),
        }
    }
}

pub open spec fn projects_view(rows: Seq<Project>) -> Seq<ProjectView> {
    rows.map_values(|r: Project| r@)
}

pub open spec fn goals_view(rows: Seq<Goal>) -> Seq<GoalView> {
    rows.map_values(|r: Goal| r@)
}

pub open spec fn tasks_view(rows: Seq<Task>) -> Seq<TaskView> {
    rows.map_values(|r: Task| r@)
}

pub open spec fn microtasks_view(rows: Seq<Microtask>) -> Seq<MicrotaskView> {
    rows.map_values(|r: Microtask| r@)
}

pub open spec fn pomodoro_types_view(rows: Seq<PomodoroType>) -> Seq<PomodoroTypeView> {
    rows.map_values(|r: PomodoroType| r@)
}

pub open spec fn project_ids(s: Seq<ProjectView>) -> Seq<Seq<char>> {
    s.map_values(|r: ProjectView| r.id)
}

pub open spec fn goal_ids(s: Seq<GoalView>) -> Seq<Seq<char>> {
    s.map_values(|r: GoalView| r.id)
}

pub open spec fn task_ids(s: Seq<TaskView>) -> Seq<Seq<char>> {
    s.map_values(|r: TaskView| r.id)
}

pub open spec fn microtask_ids(s: Seq<MicrotaskView>) -> Seq<Seq<char>> {
    s.map_values(|r: MicrotaskView| r.id)
}

pub open spec fn type_ids(s: Seq<PomodoroTypeView>) -> Seq<Seq<char>> {
    s.map_values(|r: PomodoroTypeView| r.id)
}

/// `i` is the first position of `id` in `ids`.
pub open spec fn is_first_position(ids: Seq<Seq<char>>, id: Seq<char>, i: int) -> bool {
    &&& 0 <= i < ids.len()
    &&& ids[i] == id
    &&& forall|j: int| 0 <= j < i ==> ids[j] != id
}

/// The first position of `id` in `ids` (meaningful when `ids` holds `id`).
pub open spec fn first_position(ids: Seq<Seq<char>>, id: Seq<char>) -> int {
    choose|i: int| is_first_position(ids, id, i)
}

/// No id occurs twice.
pub open spec fn ids_unique(ids: Seq<Seq<char>>) -> bool {
    forall|i: int, j: int| 0 <= i < ids.len() && 0 <= j < ids.len() && i != j ==> ids[i] != ids[j]
}

pub proof fn lemma_first_position(ids: Seq<Seq<char>>, id: Seq<char>, i: int)
    requires
        is_first_position(ids, id, i),
    ensures
        first_position(ids, id) == i,
        ids.contains(id),
{
    let k = first_position(ids, id);
    assert(is_first_position(ids, id, k));
    if k < i {
        assert(ids[k] != id);
    } else if i < k {
        assert(ids[i] != id);
    }
    assert(ids[i] == id);
}

/// When `ids` holds `id`, its first position is one.
pub proof fn lemma_first_position_exists(ids: Seq<Seq<char>>, id: Seq<char>)
    requires
        ids.contains(id),
    ensures
        is_first_position(ids, id, first_position(ids, id)),
    decreases ids.len(),
{
    let j = choose|j: int| 0 <= j < ids.len() && ids[j] == id;
    if ids[0] == id {
        assert(is_first_position(ids, id, 0));
    } else {
        let rest = ids.drop_first();
        assert(rest[j - 1] == id);
        lemma_first_position_exists(rest, id);
        let k = first_position(rest, id);
        assert forall|m: int| 0 <= m < k + 1 implies ids[m] != id by {
            if m > 0 {
                assert(ids[m] == rest[m - 1]);
            }
        }
        assert(is_first_position(ids, id, k + 1));
    }
}

/// Some microtask of task `tid` is open and not archived.
pub open spec fn has_live_open_microtask(ms: Seq<MicrotaskView>, tid: Seq<char>) -> bool {
    exists|j: int|
        0 <= j < ms.len() && #[trigger] ms[j].task_id == tid && ms[j].status == status_open()
            && !ms[j].is_archived
}

/// Some task of goal `gid` is open and not archived.
pub open spec fn has_live_open_task(ts: Seq<TaskView>, gid: Seq<char>) -> bool {
    exists|j: int|
        0 <= j < ts.len() && #[trigger] ts[j].goal_id == gid && ts[j].status == status_open()
            && !ts[j].is_archived
}

impl PlannerView {
    pub open spec fn has_project(self, id: Seq<char>) -> bool {
        project_ids(self.projects).contains(id)
    }

    pub open spec fn has_goal(self, id: Seq<char>) -> bool {
        goal_ids(self.goals).contains(id)
    }

    pub open spec fn has_task(self, id: Seq<char>) -> bool {
        task_ids(self.tasks).contains(id)
    }

    pub open spec fn has_microtask(self, id: Seq<char>) -> bool {
        microtask_ids(self.microtasks).contains(id)
    }

    pub open spec fn has_pomodoro_type(self, id: Seq<char>) -> bool {
        type_ids(self.pomodoro_types).contains(id)
    }

    /// The store's integrity rules: primary keys are unique and every
    /// reference names an existing row.
    pub open spec fn wf(self) -> bool {
        &&& ids_unique(project_ids(self.projects))
        &&& ids_unique(goal_ids(self.goals))
        &&& ids_unique(task_ids(self.tasks))
        &&& ids_unique(microtask_ids(self.microtasks))
        &&& ids_unique(type_ids(self.pomodoro_types))
        &&& forall|i: int|
            0 <= i < self.goals.len() ==> self.has_project(#[trigger] self.goals[i].project_id)
        &&& forall|i: int| 0 <= i < self.tasks.len() ==> self.has_goal(#[trigger] self.tasks[i].goal_id)
        &&& forall|i: int|
            0 <= i < self.microtasks.len() ==> self.has_task(#[trigger] self.microtasks[i].task_id)
        &&& forall|i: int|
            0 <= i < self.microtasks.len() ==> match #[trigger] self.microtasks[i].pomodoro_type_id {
                Some(t) => self.has_pomodoro_type(t),
                None => true,
            }
    }

    /// The roll-up rule holds: no completed task still has an open,
    /// unarchived microtask, and no completed goal an open, unarchived task.
    pub open spec fn rollup_consistent(self) -> bool {
        &&& forall|i: int|
            0 <= i < self.tasks.len() && #[trigger] self.tasks[i].status == status_completed()
                ==> !has_live_open_microtask(self.microtasks, self.tasks[i].id)
        &&& forall|i: int|
            0 <= i < self.goals.len() && #[trigger] self.goals[i].status == status_completed()
                ==> !has_live_open_task(self.tasks, self.goals[i].id)
    }
}

/// The first project row with the id.
pub fn find_project(rows: &Vec<Project>, id: &String) -> (r: Option<usize>)
    ensures
        match r {
            Some(i) => is_first_position(project_ids(projects_view(rows@)), id@, i as int),
            None => !project_ids(projects_view(rows@)).contains(id@),
        },
{
    let ghost ids = project_ids(projects_view(rows@));
    let mut i: usize = 0;
    while i < rows.len()
        invariant
            i <= rows.len(),
            ids == project_ids(projects_view(rows@)),
            ids.len() == rows@.len(),
            forall|k: int| 0 <= k < rows@.len() ==> ids[k] == rows@[k].id@,
            forall|j: int| 0 <= j < i ==> ids[j] != id@,
        decreases rows.len() - i,
    {
        if rows[i].id == *id {
            assert(is_first_position(ids, id@, i as int));
            let r = Some(i);
            assert(match r {
                Some(i) => is_first_position(project_ids(projects_view(rows@)), id@, i as int),
                None => true,
            });
            return r;
        }
        i += 1;
    }
    None
}

/// The first goal row with the id.
pub fn find_goal(rows: &Vec<Goal>, id: &String) -> (r: Option<usize>)
    ensures
        match r {
            Some(i) => is_first_position(goal_ids(goals_view(rows@)), id@, i as int),
            None => !goal_ids(goals_view(rows@)).contains(id@),
        },
{
    let ghost ids = goal_ids(goals_view(rows@));
    let mut i: usize = 0;
    while i < rows.len()
        invariant
            i <= rows.len(),
            ids == goal_ids(goals_view(rows@)),
            ids.len() == rows@.len(),
            forall|k: int| 0 <= k < rows@.len() ==> ids[k] == rows@[k].id@,
            forall|j: int| 0 <= j < i ==> ids[j] != id@,
        decreases rows.len() - i,
    {
        if rows[i].id == *id {
            assert(is_first_position(ids, id@, i as int));
            let r = Some(i);
            assert(match r {
                Some(i) => is_first_position(goal_ids(goals_view(rows@)), id@, i as int),
                None => true,
            });
            return r;
        }
        i += 1;
    }
    None
}

/// The first task row with the id.
pub fn find_task(rows: &Vec<Task>, id: &String) -> (r: Option<usize>)
    ensures
        match r {
            Some(i) => is_first_position(task_ids(tasks_view(rows@)), id@, i as int),
            None => !task_ids(tasks_view(rows@)).contains(id@),
        },
{
    let ghost ids = task_ids(tasks_view(rows@));
    let mut i: usize = 0;
    while i < rows.len()
        invariant
            i <= rows.len(),
            ids == task_ids(tasks_view(rows@)),
            ids.len() == rows@.len(),
            forall|k: int| 0 <= k < rows@.len() ==> ids[k] == rows@[k].id@,
            forall|j: int| 0 <= j < i ==> ids[j] != id@,
        decreases rows.len() - i,
    {
        if rows[i].id == *id {
            assert(is_first_position(ids, id@, i as int));
            let r = Some(i);
            assert(match r {
                Some(i) => is_first_position(task_ids(tasks_view(rows@)), id@, i as int),
                None => true,
            });
            return r;
        }
        i += 1;
    }
    None
}

/// The first microtask row with the id.
pub fn find_microtask(rows: &Vec<Microtask>, id: &String) -> (r: Option<usize>)
    ensures
        match r {
            Some(i) => is_first_position(microtask_ids(microtasks_view(rows@)), id@, i as int),
            None => !microtask_ids(microtasks_view(rows@)).contains(id@),
        },
{
    let ghost ids = microtask_ids(microtasks_view(rows@));
    let mut i: usize = 0;
    while i < rows.len()
        invariant
            i <= rows.len(),
            ids == microtask_ids(microtasks_view(rows@)),
            ids.len() == rows@.len(),
            forall|k: int| 0 <= k < rows@.len() ==> ids[k] == rows@[k].id@,
            forall|j: int| 0 <= j < i ==> ids[j] != id@,
        decreases rows.len() - i,
    {
        if rows[i].id == *id {
            assert(is_first_position(ids, id@, i as int));
            let r = Some(i);
            assert(match r {
                Some(i) => is_first_position(microtask_ids(microtasks_view(rows@)), id@, i as int),
                None => true,
            });
            return r;
        }
        i += 1;
    }
    None
}

/// The first pomodoro type row with the id.
pub fn find_pomodoro_type(rows: &Vec<PomodoroType>, id: &String) -> (r: Option<usize>)
    ensures
        match r {
            Some(i) => is_first_position(type_ids(pomodoro_types_view(rows@)), id@, i as int),
            None => !type_ids(pomodoro_types_view(rows@)).contains(id@),
        },
{
    let ghost ids = type_ids(pomodoro_types_view(rows@));
    let mut i: usize = 0;
    while i < rows.len()
        invariant
            i <= rows.len(),
            ids == type_ids(pomodoro_types_view(rows@)),
            ids.len() == rows@.len(),
            forall|k: int| 0 <= k < rows@.len() ==> ids[k] == rows@[k].id@,
            forall|j: int| 0 <= j < i ==> ids[j] != id@,
        decreases rows.len() - i,
    {
        if rows[i].id == *id {
            assert(is_first_position(ids, id@, i as int));
            let r = Some(i);
            assert(match r {
                Some(i) => is_first_position(type_ids(pomodoro_types_view(rows@)), id@, i as int),
                None => true,
            });
            return r;
        }
        i += 1;
    }
    None
}

} // verus!
