//! Focus Planner's backlog: projects, goals, tasks and microtasks with
//! completion roll-up, ordering, and pomodoro type presets, as a verified
//! in-memory model of the planner's store.

pub mod text;
pub mod error;
pub mod models;
pub mod store;
pub mod rollup;
pub mod microtask_service;
pub mod laws;
pub mod reorder;
pub mod goal_service;
pub mod cascade;
pub mod sort_order;
pub mod task_service;
pub mod project_service;
pub mod order;
pub mod tree;
pub mod pomodoro_type_service;
pub mod time;
pub mod precheck;
pub mod outcome_laws;
pub mod commands;
pub mod invariants;
