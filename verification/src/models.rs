//! The rows of the planner's tables and the nested project tree, each with
//! its mathematical view.

use vstd::prelude::*;
use crate::text::{opt_text, copy_opt};

verus! {

/// A row of the `projects` table.
#[derive(Debug)]
pub struct Project {
    pub id: String,
    pub name: String,
    pub description: Option<String>,
    pub status: String,
    pub is_archived: bool,
    pub completed_at: Option<String>,
    pub created_at: String,
    pub updated_at: String,
}

pub struct ProjectView {
    pub id: Seq<char>,
    pub name: Seq<char>,
    pub description: Option<Seq<char>>,
    pub status: Seq<char>,
    pub is_archived: bool,
    pub completed_at: Option<Seq<char>>,
    pub created_at: Seq<char>,
    pub updated_at: Seq<char>,
}

impl View for Project {
    type V = ProjectView;

    open spec fn view(&self) -> ProjectView {
        ProjectView {
            id: self.id@,
            name: self.name@,
            description: opt_text(self.description),
            status: self.status@,
            is_archived: self.is_archived,
            completed_at: opt_text(self.completed_at),
            created_at: self.created_at@,
            updated_at: self.updated_at@,
        }
    }
}

impl Clone for Project {
    fn clone(&self) -> (r: Self)
        ensures
            r == *self,
    {
        Project {
            id: self.id.clone(),
            name: self.name.clone(),
            description: copy_opt(&self.description),
            status: self.status.clone(),
            is_archived: self.is_archived,
            completed_at: copy_opt(&self.completed_at),
            created_at: self.created_at.clone(),
            updated_at: self.updated_at.clone(),
        }
    }
}

/// A project with its microtask counts, as the project list shows it.
#[derive(Debug)]
pub struct ProjectSummary {
    pub id: String,
    pub name: String,
    pub description: Option<String>,
    pub status: String,
    pub is_archived: bool,
    pub completed_at: Option<String>,
    pub created_at: String,
    pub updated_at: String,
    pub total_microtasks: i64,
    pub completed_microtasks: i64,
}

pub struct ProjectSummaryView {
    pub project: ProjectView,
    pub total_microtasks: int,
    pub completed_microtasks: int,
}

impl View for ProjectSummary {
    type V = ProjectSummaryView;

    open spec fn view(&self) -> ProjectSummaryView {
        ProjectSummaryView {
            project: ProjectView {
                id: self.id@,
                name: self.name@,
                description: opt_text(self.description),
                status: self.status@,
                is_archived: self.is_archived,
                completed_at: opt_text(self.completed_at),
                created_at: self.created_at@,
                updated_at: self.updated_at@,
            },
            total_microtasks: self.total_microtasks as int,
            completed_microtasks: self.completed_microtasks as int,
        }
    }
}

/// A row of the `goals` table.
#[derive(Debug)]
pub struct Goal {
    pub id: String,
    pub project_id: String,
    pub title: String,
    pub description: Option<String>,
    pub deadline: Option<String>,
    pub priority: i64,
    pub sort_order: i64,
    pub status: String,
    pub is_archived: bool,
    pub completed_at: Option<String>,
    pub created_at: String,
    pub updated_at: String,
}

pub struct GoalView {
    pub id: Seq<char>,
    pub project_id: Seq<char>,
    pub title: Seq<char>,
    pub description: Option<Seq<char>>,
    pub deadline: Option<Seq<char>>,
    pub priority: i64,
    pub sort_order: i64,
    pub status: Seq<char>,
    pub is_archived: bool,
    pub completed_at: Option<Seq<char>>,
    pub created_at: Seq<char>,
    pub updated_at: Seq<char>,
}

impl View for Goal {
    type V = GoalView;

    open spec fn view(&self) -> GoalView {
        GoalView {
            id: self.id@,
            project_id: self.project_id@,
            title: self.title@,
            description: opt_text(self.description),
            deadline: opt_text(self.deadline),
            priority: self.priority,
            sort_order: self.sort_order,
            status: self.status@,
            is_archived: self.is_archived,
            completed_at: opt_text(self.completed_at),
            created_at: self.created_at@,
            updated_at: self.updated_at@,
        }
    }
}

impl Clone for Goal {
    fn clone(&self) -> (r: Self)
        ensures
            r == *self,
    {
        Goal {
            id: self.id.clone(),
            project_id: self.project_id.clone(),
            title: self.title.clone(),
            description: copy_opt(&self.description),
            deadline: copy_opt(&self.deadline),
            priority: self.priority,
            sort_order: self.sort_order,
            status: self.status.clone(),
            is_archived: self.is_archived,
            completed_at: copy_opt(&self.completed_at),
            created_at: self.created_at.clone(),
            updated_at: self.updated_at.clone(),
        }
    }
}

/// A row of the `tasks` table.
#[derive(Debug)]
pub struct Task {
    pub id: String,
    pub goal_id: String,
    pub title: String,
    pub description: Option<String>,
    pub deadline: Option<String>,
    pub priority: i64,
    pub sort_order: i64,
    pub status: String,
    pub is_archived: bool,
    pub completed_at: Option<String>,
    pub created_at: String,
    pub updated_at: String,
}

pub struct TaskView {
    pub id: Seq<char>,
    pub goal_id: Seq<char>,
    pub title: Seq<char>,
    pub description: Option<Seq<char>>,
    pub deadline: Option<Seq<char>>,
    pub priority: i64,
    pub sort_order: i64,
    pub status: Seq<char>,
    pub is_archived: bool,
    pub completed_at: Option<Seq<char>>,
    pub created_at: Seq<char>,
    pub updated_at: Seq<char>,
}

impl View for Task {
    type V = TaskView;

    open spec fn view(&self) -> TaskView {
        TaskView {
            id: self.id@,
            goal_id: self.goal_id@,
            title: self.title@,
            description: opt_text(self.description),
            deadline: opt_text(self.deadline),
            priority: self.priority,
            sort_order: self.sort_order,
            status: self.status@,
            is_archived: self.is_archived,
            completed_at: opt_text(self.completed_at),
            created_at: self.created_at@,
            updated_at: self.updated_at@,
        }
    }
}

impl Clone for Task {
    fn clone(&self) -> (r: Self)
        ensures
            r == *self,
    {
        Task {
            id: self.id.clone(),
            goal_id: self.goal_id.clone(),
            title: self.title.clone(),
            description: copy_opt(&self.description),
            deadline: copy_opt(&self.deadline),
            priority: self.priority,
            sort_order: self.sort_order,
            status: self.status.clone(),
            is_archived: self.is_archived,
            completed_at: copy_opt(&self.completed_at),
            created_at: self.created_at.clone(),
            updated_at: self.updated_at.clone(),
        }
    }
}

/// A row of the `microtasks` table.
#[derive(Debug)]
pub struct Microtask {
    pub id: String,
    pub task_id: String,
    pub title: String,
    pub estimated_minutes: i64,
    pub pomodoro_count: i64,
    pub pomodoro_type_id: Option<String>,
    pub deadline: Option<String>,
    pub priority: i64,
    pub sort_order: i64,
    pub status: String,
    pub is_archived: bool,
    pub completed_at: Option<String>,
    pub created_at: String,
    pub updated_at: String,
}

pub struct MicrotaskView {
    pub id: Seq<char>,
    pub task_id: Seq<char>,
    pub title: Seq<char>,
    pub estimated_minutes: i64,
    pub pomodoro_count: i64,
    pub pomodoro_type_id: Option<Seq<char>>,
    pub deadline: Option<Seq<char>>,
    pub priority: i64,
    pub sort_order: i64,
    pub status: Seq<char>,
    pub is_archived: bool,
    pub completed_at: Option<Seq<char>>,
    pub created_at: Seq<char>,
    pub updated_at: Seq<char>,
}

impl View for Microtask {
    type V = MicrotaskView;

    open spec fn view(&self) -> MicrotaskView {
        MicrotaskView {
            id: self.id@,
            task_id: self.task_id@,
            title: self.title@,
            estimated_minutes: self.estimated_minutes,
            pomodoro_count: self.pomodoro_count,
            pomodoro_type_id: opt_text(self.pomodoro_type_id),
            deadline: opt_text(self.deadline),
            priority: self.priority,
            sort_order: self.sort_order,
            status: self.status@,
            is_archived: self.is_archived,
            completed_at: opt_text(self.completed_at),
            created_at: self.created_at@,
            updated_at: self.updated_at@,
        }
    }
}

impl Clone for Microtask {
    fn clone(&self) -> (r: Self)
        ensures
            r == *self,
    {
        Microtask {
            id: self.id.clone(),
            task_id: self.task_id.clone(),
            title: self.title.clone(),
            estimated_minutes: self.estimated_minutes,
            pomodoro_count: self.pomodoro_count,
            pomodoro_type_id: copy_opt(&self.pomodoro_type_id),
            deadline: copy_opt(&self.deadline),
            priority: self.priority,
            sort_order: self.sort_order,
            status: self.status.clone(),
            is_archived: self.is_archived,
            completed_at: copy_opt(&self.completed_at),
            created_at: self.created_at.clone(),
            updated_at: self.updated_at.clone(),
        }
    }
}

/// A row of the `pomodoro_types` table: a work/rest preset.
#[derive(Debug)]
pub struct PomodoroType {
    pub id: String,
    pub name: String,
    pub work_minutes: i64,
    pub rest_minutes: i64,
    pub long_break_minutes: Option<i64>,
    pub long_break_every: Option<i64>,
    pub is_default: bool,
    pub created_at: String,
    pub updated_at: String,
}

pub struct PomodoroTypeView {
    pub id: Seq<char>,
    pub name: Seq<char>,
    pub work_minutes: i64,
    pub rest_minutes: i64,
    pub long_break_minutes: Option<i64>,
    pub long_break_every: Option<i64>,
    pub is_default: bool,
    pub created_at: Seq<char>,
    pub updated_at: Seq<char>,
}

impl View for PomodoroType {
    type V = PomodoroTypeView;

    open spec fn view(&self) -> PomodoroTypeView {
        PomodoroTypeView {
            id: self.id@,
            name: self.name@,
            work_minutes: self.work_minutes,
            rest_minutes: self.rest_minutes,
            long_break_minutes: self.long_break_minutes,
            long_break_every: self.long_break_every,
            is_default: self.is_default,
            created_at: self.created_at@,
            updated_at: self.updated_at@,
        }
    }
}

impl Clone for PomodoroType {
    fn clone(&self) -> (r: Self)
        ensures
            r == *self,
    {
        PomodoroType {
            id: self.id.clone(),
            name: self.name.clone(),
            work_minutes: self.work_minutes,
            rest_minutes: self.rest_minutes,
            long_break_minutes: self.long_break_minutes,
            long_break_every: self.long_break_every,
            is_default: self.is_default,
            created_at: self.created_at.clone(),
            updated_at: self.updated_at.clone(),
        }
    }
}

/// A microtask as the project tree shows it.
#[derive(Debug)]
pub struct TreeMicrotask {
    pub id: String,
    pub title: String,
    pub estimated_minutes: i64,
    pub pomodoro_count: i64,
    pub pomodoro_type_id: Option<String>,
    pub deadline: Option<String>,
    pub priority: i64,
    pub status: String,
}

pub struct TreeMicrotaskView {
    pub id: Seq<char>,
    pub title: Seq<char>,
    pub estimated_minutes: i64,
    pub pomodoro_count: i64,
    pub pomodoro_type_id: Option<Seq<char>>,
    pub deadline: Option<Seq<char>>,
    pub priority: i64,
    pub status: Seq<char>,
}

impl View for TreeMicrotask {
    type V = TreeMicrotaskView;

    open spec fn view(&self) -> TreeMicrotaskView {
        TreeMicrotaskView {
            id: self.id@,
            title: self.title@,
            estimated_minutes: self.estimated_minutes,
            pomodoro_count: self.pomodoro_count,
            pomodoro_type_id: opt_text(self.pomodoro_type_id),
            deadline: opt_text(self.deadline),
            priority: self.priority,
            status: self.status@,
        }
    }
}

pub open spec fn tree_microtasks_view(s: Seq<TreeMicrotask>) -> Seq<TreeMicrotaskView> {
    s.map_values(|m: TreeMicrotask| m@)
}

/// A task with its visible microtasks, as the project tree shows it.
#[derive(Debug)]
pub struct TreeTask {
    pub id: String,
    pub title: String,
    pub description: Option<String>,
    pub deadline: Option<String>,
    pub priority: i64,
    pub status: String,
    pub microtasks: Vec<TreeMicrotask>,
}

pub struct TreeTaskView {
    pub id: Seq<char>,
    pub title: Seq<char>,
    pub description: Option<Seq<char>>,
    pub deadline: Option<Seq<char>>,
    pub priority: i64,
    pub status: Seq<char>,
    pub microtasks: Seq<TreeMicrotaskView>,
}

impl View for TreeTask {
    type V = TreeTaskView;

    open spec fn view(&self) -> TreeTaskView {
        TreeTaskView {
            id: self.id@,
            title: self.title@,
            description: opt_text(self.description),
            deadline: opt_text(self.deadline),
            priority: self.priority,
            status: self.status@,
            microtasks: tree_microtasks_view(self.microtasks@),
        }
    }
}

pub open spec fn tree_tasks_view(s: Seq<TreeTask>) -> Seq<TreeTaskView> {
    s.map_values(|t: TreeTask| t@)
}

/// A goal with its visible tasks, as the project tree shows it.
#[derive(Debug)]
pub struct TreeGoal {
    pub id: String,
    pub title: String,
    pub description: Option<String>,
    pub deadline: Option<String>,
    pub priority: i64,
    pub status: String,
    pub tasks: Vec<TreeTask>,
}

pub struct TreeGoalView {
    pub id: Seq<char>,
    pub title: Seq<char>,
    pub description: Option<Seq<char>>,
    pub deadline: Option<Seq<char>>,
    pub priority: i64,
    pub status: Seq<char>,
    pub tasks: Seq<TreeTaskView>,
}

impl View for TreeGoal {
    type V = TreeGoalView;

    open spec fn view(&self) -> TreeGoalView {
        TreeGoalView {
            id: self.id@,
            title: self.title@,
            description: opt_text(self.description),
            deadline: opt_text(self.deadline),
            priority: self.priority,
            status: self.status@,
            tasks: tree_tasks_view(self.tasks@),
        }
    }
}

pub open spec fn tree_goals_view(s: Seq<TreeGoal>) -> Seq<TreeGoalView> {
    s.map_values(|g: TreeGoal| g@)
}

/// A project with its visible goals, tasks and microtasks, nested.
#[derive(Debug)]
pub struct ProjectTree {
    pub id: String,
    pub name: String,
    pub description: Option<String>,
    pub status: String,
    pub goals: Vec<TreeGoal>,
}

pub struct ProjectTreeView {
    pub id: Seq<char>,
    pub name: Seq<char>,
    pub description: Option<Seq<char>>,
    pub status: Seq<char>,
    pub goals: Seq<TreeGoalView>,
}

impl View for ProjectTree {
    type V = ProjectTreeView;

    open spec fn view(&self) -> ProjectTreeView {
        ProjectTreeView {
            id: self.id@,
            name: self.name@,
            description: opt_text(self.description),
            status: self.status@,
            goals: tree_goals_view(self.goals@),
        }
    }
}

} // verus!
