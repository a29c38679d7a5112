use focus_planner::error::AppError;
use focus_planner::goal_service;
use focus_planner::project_service;
use focus_planner::store::Planner;

const NOW: &str = "2026-06-09T08:00:00Z";

fn seed_project(p: &mut Planner) {
    project_service::create_project_at(p, NOW, "p1", "P", None).unwrap();
}

#[test]
fn create_goal_appends_sort_order() {
    let mut p = Planner::new();
    seed_project(&mut p);
    goal_service::create_goal_at(&mut p, NOW, "g1", "p1", "First", None, None, 0).unwrap();
    goal_service::create_goal_at(&mut p, NOW, "g2", "p1", "Second", Some("desc"), Some("2026-07-01T00:00:00Z"), 2)
        .unwrap();
    let mut rows: Vec<_> = p.goals.iter().collect();
    rows.sort_by_key(|g| g.sort_order);
    assert_eq!(rows.len(), 2);
    assert_eq!((rows[0].id.as_str(), rows[0].sort_order), ("g1", 0));
    assert_eq!((rows[1].id.as_str(), rows[1].sort_order), ("g2", 1));
    assert_eq!(rows[1].priority, 2);
    assert_eq!(rows[1].deadline.as_deref(), Some("2026-07-01T00:00:00Z"));
}

#[test]
fn create_goal_unknown_project_is_not_found() {
    let mut p = Planner::new();
    let err = goal_service::create_goal_at(&mut p, NOW, "g1", "ghost", "G", None, None, 0).unwrap_err();
    assert!(matches!(err, AppError::NotFound { entity: "project", .. }));
}

#[test]
fn create_goal_rejects_blank_title() {
    let mut p = Planner::new();
    seed_project(&mut p);
    let err = goal_service::create_goal_at(&mut p, NOW, "g1", "p1", "  ", None, None, 0).unwrap_err();
    assert!(matches!(err, AppError::Validation(_)));
}

#[test]
fn update_goal_sets_absolute_values() {
    let mut p = Planner::new();
    seed_project(&mut p);
    goal_service::create_goal_at(&mut p, NOW, "g1", "p1", "Old", Some("d"), Some("2026-07-01T00:00:00Z"), 1)
        .unwrap();
    goal_service::update_goal(&mut p, "g1", "New", None, None, 5).unwrap();
    let row = &p.goals[0];
    assert_eq!(row.title, "New");
    assert!(row.description.is_none());
    assert!(row.deadline.is_none());
    assert_eq!(row.priority, 5);
}

#[test]
fn update_goal_unknown_id_is_not_found() {
    let mut p = Planner::new();
    let err = goal_service::update_goal(&mut p, "ghost", "X", None, None, 0).unwrap_err();
    assert!(matches!(err, AppError::NotFound { .. }));
}

#[test]
fn archive_and_delete_goal() {
    let mut p = Planner::new();
    seed_project(&mut p);
    goal_service::create_goal_at(&mut p, NOW, "g1", "p1", "G", None, None, 0).unwrap();

    goal_service::archive_goal(&mut p, "g1").unwrap();
    assert!(p.goals[0].is_archived);

    goal_service::delete_goal(&mut p, "g1").unwrap();
    assert_eq!(p.goals.len(), 0);

    let err = goal_service::delete_goal(&mut p, "g1").unwrap_err();
    assert!(matches!(err, AppError::NotFound { .. }));
}

#[test]
fn create_goal_trims_title_and_stamps_now() {
    let mut p = Planner::new();
    seed_project(&mut p);
    goal_service::create_goal_at(&mut p, NOW, "g1", "p1", "  Padded \t", None, None, 0).unwrap();
    let g = &p.goals[0];
    assert_eq!(g.title, "Padded");
    assert_eq!(g.status, "open");
    assert!(!g.is_archived);
    assert_eq!(g.created_at, NOW);
    assert_eq!(g.updated_at, NOW);
    assert!(g.completed_at.is_none());
}

#[test]
fn create_goal_duplicate_id_is_a_db_error() {
    let mut p = Planner::new();
    seed_project(&mut p);
    goal_service::create_goal_at(&mut p, NOW, "g1", "p1", "G", None, None, 0).unwrap();
    let err = goal_service::create_goal_at(&mut p, NOW, "g1", "p1", "G again", None, None, 0).unwrap_err();
    assert!(matches!(err, AppError::Db(ref m) if m == "error returned from database: (code: 1555) UNIQUE constraint failed: goals.id"));
    assert_eq!(p.goals.len(), 1);
}

#[test]
fn create_goal_after_the_largest_sort_order_overflows() {
    let mut p = Planner::new();
    seed_project(&mut p);
    goal_service::create_goal_at(&mut p, NOW, "g1", "p1", "G", None, None, 0).unwrap();
    p.goals[0].sort_order = i64::MAX;
    let err = goal_service::create_goal_at(&mut p, NOW, "g2", "p1", "G2", None, None, 0).unwrap_err();
    assert!(matches!(err, AppError::Db(ref m) if m == "integer overflow"));
    assert_eq!(p.goals.len(), 1);
}

#[test]
fn new_goal_goes_after_archived_siblings_too() {
    let mut p = Planner::new();
    seed_project(&mut p);
    goal_service::create_goal_at(&mut p, NOW, "g1", "p1", "G1", None, None, 0).unwrap();
    goal_service::create_goal_at(&mut p, NOW, "g2", "p1", "G2", None, None, 0).unwrap();
    goal_service::archive_goal_at(&mut p, NOW, "g2").unwrap();
    goal_service::create_goal_at(&mut p, NOW, "g3", "p1", "G3", None, None, 0).unwrap();
    assert_eq!(p.goals[2].sort_order, 2);
}
