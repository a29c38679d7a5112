use focus_planner::error::AppError;
use focus_planner::goal_service;
use focus_planner::microtask_service;
use focus_planner::models::PomodoroType;
use focus_planner::pomodoro_type_service;
use focus_planner::project_service;
use focus_planner::store::Planner;
use focus_planner::task_service;

const SEEDED_STANDARD: &str = "a0000000-0000-4000-8000-000000000001";
const NOW: &str = "2026-06-09T08:00:00Z";

fn seeded() -> Planner {
    let mut p = Planner::new();
    p.pomodoro_types.push(PomodoroType {
        id: SEEDED_STANDARD.to_string(),
        name: "Standard".to_string(),
        work_minutes: 20,
        rest_minutes: 5,
        long_break_minutes: None,
        long_break_every: None,
        is_default: true,
        created_at: "2026-01-01T00:00:00Z".to_string(),
        updated_at: "2026-01-01T00:00:00Z".to_string(),
    });
    p
}

fn default_ids(p: &Planner) -> Vec<String> {
    p.pomodoro_types.iter().filter(|t| t.is_default).map(|t| t.id.clone()).collect()
}

#[test]
fn create_and_list_pomodoro_types() {
    let mut p = seeded();
    pomodoro_type_service::create_pomodoro_type(&mut p, "pt1", "Deep Work", 50, 10, Some(30), Some(2)).unwrap();
    let types = pomodoro_type_service::list_pomodoro_types(&p);
    assert_eq!(types.len(), 2);
    let deep = types.iter().find(|t| t.id == "pt1").unwrap();
    assert_eq!(deep.name, "Deep Work");
    assert_eq!(deep.work_minutes, 50);
    assert_eq!(deep.rest_minutes, 10);
    assert_eq!(deep.long_break_minutes, Some(30));
    assert_eq!(deep.long_break_every, Some(2));
    assert!(!deep.is_default, "new types are never default");
}

#[test]
fn create_rejects_bad_values() {
    let mut p = seeded();
    let err = pomodoro_type_service::create_pomodoro_type(&mut p, "x", " ", 20, 5, None, None).unwrap_err();
    assert!(matches!(err, AppError::Validation(_)));
    let err = pomodoro_type_service::create_pomodoro_type(&mut p, "x", "T", 0, 5, None, None).unwrap_err();
    assert!(matches!(err, AppError::Validation(_)));
    let err = pomodoro_type_service::create_pomodoro_type(&mut p, "x", "T", 20, 5, Some(15), None).unwrap_err();
    assert!(matches!(err, AppError::Validation(_)));
}

#[test]
fn update_pomodoro_type_sets_absolute_values() {
    let mut p = seeded();
    pomodoro_type_service::create_pomodoro_type(&mut p, "pt1", "Old", 25, 5, Some(20), Some(4)).unwrap();
    pomodoro_type_service::update_pomodoro_type(&mut p, "pt1", "New", 45, 15, None, None).unwrap();
    let row = p.pomodoro_types.iter().find(|t| t.id == "pt1").unwrap();
    assert_eq!(row.name, "New");
    assert_eq!(row.work_minutes, 45);
    assert_eq!(row.rest_minutes, 15);
    assert!(row.long_break_minutes.is_none());
    assert!(row.long_break_every.is_none());

    let err = pomodoro_type_service::update_pomodoro_type(&mut p, "ghost", "X", 20, 5, None, None).unwrap_err();
    assert!(matches!(err, AppError::NotFound { .. }));
}

#[test]
fn set_default_is_exclusive() {
    let mut p = seeded();
    pomodoro_type_service::create_pomodoro_type(&mut p, "pt1", "Deep", 50, 10, None, None).unwrap();
    pomodoro_type_service::set_default_pomodoro_type(&mut p, "pt1").unwrap();
    assert_eq!(default_ids(&p), ["pt1"], "exactly one default; the seeded Standard lost the flag");

    let err = pomodoro_type_service::set_default_pomodoro_type(&mut p, "ghost").unwrap_err();
    assert!(matches!(err, AppError::NotFound { .. }));
    assert_eq!(default_ids(&p), ["pt1"]);
}

#[test]
fn delete_pomodoro_type_nulls_microtask_references() {
    let mut p = seeded();
    project_service::create_project(&mut p, "p1", "P", None).unwrap();
    goal_service::create_goal(&mut p, "g1", "p1", "G", None, None, 0).unwrap();
    task_service::create_task(&mut p, "t1", "g1", "T", None, None, 0).unwrap();
    microtask_service::create_microtask(&mut p, "m1", "t1", "M", 20, 1, Some(SEEDED_STANDARD), None, 0).unwrap();

    pomodoro_type_service::delete_pomodoro_type(&mut p, SEEDED_STANDARD).unwrap();
    assert!(p.microtasks[0].pomodoro_type_id.is_none(), "ON DELETE SET NULL must apply");

    let err = pomodoro_type_service::delete_pomodoro_type(&mut p, SEEDED_STANDARD).unwrap_err();
    assert!(matches!(err, AppError::NotFound { .. }));
}

#[test]
fn validate_type_fields_reports_each_rule() {
    assert!(pomodoro_type_service::validate_type_fields("T", 1, 1, None, None).is_ok());
    assert!(pomodoro_type_service::validate_type_fields("T", 1, 1, Some(1), Some(1)).is_ok());
    let e = pomodoro_type_service::validate_type_fields("", 1, 1, None, None).unwrap_err();
    assert!(matches!(e, AppError::Validation(ref m) if m == "pomodoro type name must not be empty"));
    let e = pomodoro_type_service::validate_type_fields("T", 1, 0, None, None).unwrap_err();
    assert!(matches!(e, AppError::Validation(ref m) if m == "work_minutes and rest_minutes must be >= 1"));
    let e = pomodoro_type_service::validate_type_fields("T", 1, 1, Some(0), Some(2)).unwrap_err();
    assert!(matches!(e, AppError::Validation(ref m) if m.starts_with("long_break_minutes and long_break_every")));
    let e = pomodoro_type_service::validate_type_fields("T", 1, 1, None, Some(2)).unwrap_err();
    assert!(matches!(e, AppError::Validation(_)));
}

#[test]
fn list_pomodoro_types_orders_by_creation_time() {
    let mut p = seeded();
    pomodoro_type_service::create_pomodoro_type_at(&mut p, "2026-03-01T00:00:00Z", "late", "Late", 20, 5, None, None).unwrap();
    pomodoro_type_service::create_pomodoro_type_at(&mut p, "2025-12-31T23:59:59Z", "early", "Early", 20, 5, None, None).unwrap();
    pomodoro_type_service::create_pomodoro_type_at(&mut p, "2026-03-01T00:00:00Z", "late2", "Late 2", 20, 5, None, None).unwrap();
    let ids: Vec<String> = pomodoro_type_service::list_pomodoro_types(&p).into_iter().map(|t| t.id).collect();
    assert_eq!(ids, ["early", SEEDED_STANDARD, "late", "late2"]);
}

#[test]
fn set_default_stamps_both_changed_rows() {
    let mut p = seeded();
    pomodoro_type_service::create_pomodoro_type_at(&mut p, NOW, "pt1", "Deep", 50, 10, None, None).unwrap();
    pomodoro_type_service::set_default_pomodoro_type_at(&mut p, "2026-06-10T00:00:00Z", "pt1").unwrap();
    assert_eq!(p.pomodoro_types[0].updated_at, "2026-06-10T00:00:00Z");
    assert!(!p.pomodoro_types[0].is_default);
    assert_eq!(p.pomodoro_types[1].updated_at, "2026-06-10T00:00:00Z");
    assert!(p.pomodoro_types[1].is_default);
}
