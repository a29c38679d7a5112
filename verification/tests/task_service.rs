use focus_planner::error::AppError;
use focus_planner::goal_service;
use focus_planner::models::{Goal, Project};
use focus_planner::project_service;
use focus_planner::store::Planner;
use focus_planner::task_service;

const NOW: &str = "2026-06-09T08:00:00Z";

fn seed_goal(p: &mut Planner) {
    project_service::create_project_at(p, NOW, "p1", "P", None).unwrap();
    goal_service::create_goal_at(p, NOW, "g1", "p1", "G", None, None, 0).unwrap();
}

#[test]
fn create_task_appends_sort_order_within_goal() {
    let mut p = Planner::new();
    seed_goal(&mut p);
    task_service::create_task_at(&mut p, NOW, "t1", "g1", "First", None, None, 0).unwrap();
    task_service::create_task_at(&mut p, NOW, "t2", "g1", "Second", None, None, 0).unwrap();
    let mut rows: Vec<_> = p.tasks.iter().collect();
    rows.sort_by_key(|t| t.sort_order);
    assert_eq!((rows[0].id.as_str(), rows[0].sort_order), ("t1", 0));
    assert_eq!((rows[1].id.as_str(), rows[1].sort_order), ("t2", 1));
}

#[test]
fn create_task_unknown_goal_is_not_found() {
    let mut p = Planner::new();
    let err = task_service::create_task(&mut p, "t1", "ghost", "T", None, None, 0).unwrap_err();
    assert!(matches!(err, AppError::NotFound { entity: "goal", .. }));
}

#[test]
fn create_task_rejects_blank_title() {
    let mut p = Planner::new();
    seed_goal(&mut p);
    let err = task_service::create_task(&mut p, "t1", "g1", " ", None, None, 0).unwrap_err();
    assert!(matches!(err, AppError::Validation(_)));
}

#[test]
fn create_task_rejects_completed_goal() {
    let mut p = Planner::new();
    seed_goal(&mut p);
    p.goals[0].status = "completed".to_string();
    let err = task_service::create_task(&mut p, "t1", "g1", "T", None, None, 0).unwrap_err();
    assert!(matches!(err, AppError::Validation(_)));
}

#[test]
fn create_task_rejects_archived_goal() {
    let mut p = Planner::new();
    seed_goal(&mut p);
    goal_service::archive_goal(&mut p, "g1").unwrap();
    let err = task_service::create_task(&mut p, "t1", "g1", "T", None, None, 0).unwrap_err();
    assert!(matches!(err, AppError::Validation(_)));
}

#[test]
fn update_archive_delete_task() {
    let mut p = Planner::new();
    seed_goal(&mut p);
    task_service::create_task_at(&mut p, NOW, "t1", "g1", "Old", Some("d"), None, 1).unwrap();

    task_service::update_task(&mut p, "t1", "New", None, Some("2026-08-01T00:00:00Z"), 3).unwrap();
    let row = &p.tasks[0];
    assert_eq!(row.title, "New");
    assert!(row.description.is_none());
    assert_eq!(row.deadline.as_deref(), Some("2026-08-01T00:00:00Z"));
    assert_eq!(row.priority, 3);

    task_service::archive_task(&mut p, "t1").unwrap();
    assert!(p.tasks[0].is_archived);

    task_service::delete_task(&mut p, "t1").unwrap();
    let err = task_service::delete_task(&mut p, "t1").unwrap_err();
    assert!(matches!(err, AppError::NotFound { .. }));
}

fn goal_row(id: &str, project_id: &str, status: &str, is_archived: bool) -> Goal {
    Goal {
        id: id.to_string(),
        project_id: project_id.to_string(),
        title: id.to_string(),
        description: None,
        deadline: None,
        priority: 0,
        sort_order: 0,
        status: status.to_string(),
        is_archived,
        completed_at: None,
        created_at: "now".to_string(),
        updated_at: "now".to_string(),
    }
}

#[test]
fn test_create_task_under_archived_or_completed_goal_atomic() {
    let mut p = Planner::new();
    p.projects.push(Project {
        id: "p-1".to_string(),
        name: "P1".to_string(),
        description: None,
        status: "open".to_string(),
        is_archived: false,
        completed_at: None,
        created_at: "now".to_string(),
        updated_at: "now".to_string(),
    });
    p.goals.push(goal_row("g-completed", "p-1", "completed", false));
    p.goals.push(goal_row("g-archived", "p-1", "open", true));

    let err = task_service::create_task(&mut p, "t-1", "g-completed", "Task 1", None, None, 0).unwrap_err();
    assert!(matches!(err, AppError::Validation(_)));

    let err = task_service::create_task(&mut p, "t-2", "g-archived", "Task 2", None, None, 0).unwrap_err();
    assert!(matches!(err, AppError::Validation(_)));

    let err = task_service::create_task(&mut p, "t-3", "nonexistent-goal", "Task 3", None, None, 0).unwrap_err();
    assert!(matches!(err, AppError::NotFound { .. }));
    assert!(p.tasks.is_empty());
}

#[test]
fn create_task_errors_name_the_goal_state() {
    let mut p = Planner::new();
    seed_goal(&mut p);
    p.goals[0].status = "completed".to_string();
    let err = task_service::create_task(&mut p, "t1", "g1", "T", None, None, 0).unwrap_err();
    assert!(matches!(err, AppError::Validation(ref m) if m == "cannot create a task under a completed goal"));
    p.goals[0].status = "open".to_string();
    p.goals[0].is_archived = true;
    let err = task_service::create_task(&mut p, "t1", "g1", "T", None, None, 0).unwrap_err();
    assert!(matches!(err, AppError::Validation(ref m) if m == "cannot create a task under an archived goal"));
}

#[test]
fn delete_task_takes_its_microtasks() {
    let mut p = Planner::new();
    seed_goal(&mut p);
    task_service::create_task_at(&mut p, NOW, "t1", "g1", "T1", None, None, 0).unwrap();
    task_service::create_task_at(&mut p, NOW, "t2", "g1", "T2", None, None, 0).unwrap();
    focus_planner::microtask_service::create_microtask_at(&mut p, NOW, "m1", "t1", "M1", 20, 1, None, None, 0).unwrap();
    focus_planner::microtask_service::create_microtask_at(&mut p, NOW, "m2", "t2", "M2", 20, 1, None, None, 0).unwrap();
    task_service::delete_task(&mut p, "t1").unwrap();
    assert_eq!(p.tasks.len(), 1);
    assert_eq!(p.microtasks.len(), 1);
    assert_eq!(p.microtasks[0].id, "m2");
}
