use focus_planner::error::AppError;
use focus_planner::goal_service;
use focus_planner::microtask_service;
use focus_planner::models::PomodoroType;
use focus_planner::project_service;
use focus_planner::store::Planner;
use focus_planner::task_service;

const NOW: &str = "2026-06-09T08:00:00Z";
const SEEDED_STANDARD: &str = "a0000000-0000-4000-8000-000000000001";

fn seed_standard_type(p: &mut Planner) {
    p.pomodoro_types.push(PomodoroType {
        id: SEEDED_STANDARD.to_string(),
        name: "Standard".to_string(),
        work_minutes: 20,
        rest_minutes: 5,
        long_break_minutes: None,
        long_break_every: None,
        is_default: true,
        created_at: "2026-01-01T00:00:00Z".to_string(),
        updated_at: "2026-01-01T00:00:00Z".to_string(),
    });
}

fn seed_task(p: &mut Planner) {
    seed_standard_type(p);
    project_service::create_project_at(p, NOW, "p1", "P", None).unwrap();
    goal_service::create_goal_at(p, NOW, "g1", "p1", "G", None, None, 0).unwrap();
    task_service::create_task_at(p, NOW, "t1", "g1", "T", None, None, 0).unwrap();
}

#[test]
fn create_microtask_appends_sort_order_and_stores_given_count() {
    let mut p = Planner::new();
    seed_task(&mut p);
    microtask_service::create_microtask_at(&mut p, NOW, "m1", "t1", "Outline", 50, 3, None, None, 0).unwrap();
    microtask_service::create_microtask_at(&mut p, NOW, "m2", "t1", "Draft", 20, 1, None, None, 0).unwrap();
    let mut rows: Vec<_> = p.microtasks.iter().collect();
    rows.sort_by_key(|m| m.sort_order);
    assert_eq!(rows.len(), 2);
    assert_eq!(rows[0].id, "m1");
    assert_eq!(rows[0].estimated_minutes, 50);
    assert_eq!(rows[0].pomodoro_count, 3);
    assert_eq!(rows[0].sort_order, 0);
    assert_eq!(rows[0].status, "open");
    assert_eq!(rows[1].sort_order, 1);
}

#[test]
fn create_microtask_accepts_the_seeded_pomodoro_type() {
    let mut p = Planner::new();
    seed_task(&mut p);
    microtask_service::create_microtask_at(&mut p, NOW, "m1", "t1", "Outline", 40, 2, Some(SEEDED_STANDARD), None, 0)
        .unwrap();
    assert_eq!(p.microtasks[0].pomodoro_type_id.as_deref(), Some(SEEDED_STANDARD));
}

#[test]
fn create_microtask_unknown_type_is_not_found() {
    let mut p = Planner::new();
    seed_task(&mut p);
    let err = microtask_service::create_microtask(&mut p, "m1", "t1", "X", 20, 1, Some("ghost"), None, 0).unwrap_err();
    assert!(matches!(err, AppError::NotFound { entity: "pomodoro_type", .. }));
}

#[test]
fn create_microtask_rejects_nonpositive_estimate_and_count() {
    let mut p = Planner::new();
    seed_task(&mut p);
    let err = microtask_service::create_microtask(&mut p, "m1", "t1", "X", 0, 1, None, None, 0).unwrap_err();
    assert!(matches!(err, AppError::Validation(_)));
    let err = microtask_service::create_microtask(&mut p, "m1", "t1", "X", 20, 0, None, None, 0).unwrap_err();
    assert!(matches!(err, AppError::Validation(_)));
}

#[test]
fn create_microtask_rejects_completed_task() {
    let mut p = Planner::new();
    seed_task(&mut p);
    p.tasks[0].status = "completed".to_string();
    let err = microtask_service::create_microtask(&mut p, "m1", "t1", "M", 20, 1, None, None, 0).unwrap_err();
    assert!(matches!(err, AppError::Validation(_)));
}

#[test]
fn create_microtask_rejects_archived_task() {
    let mut p = Planner::new();
    seed_task(&mut p);
    task_service::archive_task(&mut p, "t1").unwrap();
    let err = microtask_service::create_microtask(&mut p, "m1", "t1", "M", 20, 1, None, None, 0).unwrap_err();
    assert!(matches!(err, AppError::Validation(_)));
}

#[test]
fn update_archive_delete_microtask() {
    let mut p = Planner::new();
    seed_task(&mut p);
    microtask_service::create_microtask_at(&mut p, NOW, "m1", "t1", "Old", 20, 1, None, None, 0).unwrap();

    microtask_service::update_microtask(&mut p, "m1", "New", 60, 3, None, Some("2026-08-01T00:00:00Z"), 2).unwrap();
    let row = &p.microtasks[0];
    assert_eq!(row.title, "New");
    assert_eq!(row.estimated_minutes, 60);
    assert_eq!(row.pomodoro_count, 3);
    assert!(row.pomodoro_type_id.is_none());
    assert_eq!(row.deadline.as_deref(), Some("2026-08-01T00:00:00Z"));
    assert_eq!(row.priority, 2);

    microtask_service::archive_microtask(&mut p, "m1").unwrap();
    assert!(p.microtasks[0].is_archived);

    microtask_service::delete_microtask(&mut p, "m1").unwrap();
    let err = microtask_service::delete_microtask(&mut p, "m1").unwrap_err();
    assert!(matches!(err, AppError::NotFound { .. }));
}

#[test]
fn get_microtask_returns_the_row_or_not_found() {
    let mut p = Planner::new();
    seed_task(&mut p);
    microtask_service::create_microtask_at(&mut p, NOW, "m1", "t1", "Read", 40, 2, None, None, 0).unwrap();

    let m = microtask_service::get_microtask(&p, "m1").unwrap();
    assert_eq!(m.title, "Read");
    assert_eq!(m.estimated_minutes, 40);
    assert_eq!(m.pomodoro_count, 2);

    let err = microtask_service::get_microtask(&p, "ghost").unwrap_err();
    assert!(matches!(err, AppError::NotFound { entity: "microtask", .. }));
}

#[test]
fn validate_microtask_fields_reports_each_rule() {
    assert!(microtask_service::validate_microtask_fields("Read", 1, 1).is_ok());
    let e = microtask_service::validate_microtask_fields(" \n ", 20, 1).unwrap_err();
    assert!(matches!(e, AppError::Validation(ref m) if m == "microtask title must not be empty"));
    let e = microtask_service::validate_microtask_fields("Read", 0, 1).unwrap_err();
    assert!(matches!(e, AppError::Validation(ref m) if m == "estimated_minutes must be >= 1"));
    let e = microtask_service::validate_microtask_fields("Read", 5, -3).unwrap_err();
    assert!(matches!(e, AppError::Validation(ref m) if m == "pomodoro_count must be >= 1"));
}

#[test]
fn ensure_pomodoro_type_exists_checks_only_a_named_type() {
    let mut p = Planner::new();
    seed_standard_type(&mut p);
    assert!(microtask_service::ensure_pomodoro_type_exists(&p, None).is_ok());
    assert!(microtask_service::ensure_pomodoro_type_exists(&p, Some(SEEDED_STANDARD)).is_ok());
    let e = microtask_service::ensure_pomodoro_type_exists(&p, Some("ghost")).unwrap_err();
    assert!(matches!(e, AppError::NotFound { entity: "pomodoro_type", ref id } if id == "ghost"));
}

#[test]
fn update_microtask_unknown_type_or_id() {
    let mut p = Planner::new();
    seed_task(&mut p);
    microtask_service::create_microtask_at(&mut p, NOW, "m1", "t1", "M", 20, 1, None, None, 0).unwrap();
    let e = microtask_service::update_microtask(&mut p, "m1", "M", 20, 1, Some("ghost"), None, 0).unwrap_err();
    assert!(matches!(e, AppError::NotFound { entity: "pomodoro_type", .. }));
    let e = microtask_service::update_microtask(&mut p, "ghost", "M", 20, 1, None, None, 0).unwrap_err();
    assert!(matches!(e, AppError::NotFound { entity: "microtask", .. }));
    assert_eq!(p.microtasks[0].title, "M");
}
