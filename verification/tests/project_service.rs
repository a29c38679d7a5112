use focus_planner::error::AppError;
use focus_planner::goal_service;
use focus_planner::microtask_service;
use focus_planner::models::{Goal, Project};
use focus_planner::project_service;
use focus_planner::store::Planner;
use focus_planner::task_service;

const NOW: &str = "2026-06-09T08:00:00Z";

fn project_row(id: &str, name: &str, is_archived: bool) -> Project {
    Project {
        id: id.to_string(),
        name: name.to_string(),
        description: None,
        status: "open".to_string(),
        is_archived,
        completed_at: None,
        created_at: NOW.to_string(),
        updated_at: NOW.to_string(),
    }
}

fn seed_tree(p: &mut Planner) {
    project_service::create_project(p, "p1", "P", None).unwrap();
    goal_service::create_goal(p, "g1", "p1", "G", None, None, 0).unwrap();
    task_service::create_task(p, "t1", "g1", "T", None, None, 0).unwrap();
    microtask_service::create_microtask(p, "m1", "t1", "M1", 20, 1, None, None, 0).unwrap();
    microtask_service::create_microtask(p, "m2", "t1", "M2", 20, 1, None, None, 0).unwrap();
    microtask_service::create_microtask(p, "m3", "t1", "M3", 20, 1, None, None, 0).unwrap();
}

#[test]
fn list_projects_on_empty_db_returns_empty_vec() {
    let p = Planner::new();
    let projects = project_service::list_projects(&p, false);
    assert!(projects.is_empty());
}

#[test]
fn list_projects_excludes_archived_unless_asked() {
    let mut p = Planner::new();
    p.projects.push(project_row("p1", "Active", false));
    p.projects.push(project_row("p2", "Archived", true));
    let visible = project_service::list_projects(&p, false);
    assert_eq!(visible.len(), 1);
    assert_eq!(visible[0].name, "Active");
    let all = project_service::list_projects(&p, true);
    assert_eq!(all.len(), 2);
}

#[test]
fn create_project_inserts_open_unarchived_row_with_timestamps() {
    let mut p = Planner::new();
    project_service::create_project(&mut p, "p1", "Write the book", Some("a novel")).unwrap();
    let row = &p.projects[0];
    assert_eq!(row.name, "Write the book");
    assert_eq!(row.description.as_deref(), Some("a novel"));
    assert_eq!(row.status, "open");
    assert!(!row.is_archived);
    assert!(row.completed_at.is_none());
    assert_eq!(row.created_at, row.updated_at);
    assert!(row.created_at.ends_with('Z'));
}

#[test]
fn create_project_rejects_blank_name() {
    let mut p = Planner::new();
    let err = project_service::create_project(&mut p, "p1", "   ", None).unwrap_err();
    assert!(matches!(err, AppError::Validation(_)));
}

#[test]
fn update_project_sets_absolute_values_and_bumps_updated_at() {
    let mut p = Planner::new();
    project_service::create_project_at(&mut p, NOW, "p1", "Old", Some("old desc")).unwrap();
    project_service::update_project_at(&mut p, "2026-06-10T09:00:00Z", "p1", "New", None).unwrap();
    let row = &p.projects[0];
    assert_eq!(row.name, "New");
    assert!(row.description.is_none());
    assert_eq!(row.updated_at, "2026-06-10T09:00:00Z");
    assert_eq!(row.created_at, NOW);
}

#[test]
fn update_project_unknown_id_is_not_found() {
    let mut p = Planner::new();
    let err = project_service::update_project(&mut p, "ghost", "X", None).unwrap_err();
    assert!(matches!(err, AppError::NotFound { .. }));
}

#[test]
fn archive_project_sets_flag() {
    let mut p = Planner::new();
    project_service::create_project(&mut p, "p1", "P", None).unwrap();
    project_service::archive_project(&mut p, "p1").unwrap();
    assert!(p.projects[0].is_archived);
}

#[test]
fn delete_project_cascades_to_goals() {
    let mut p = Planner::new();
    project_service::create_project(&mut p, "p1", "P", None).unwrap();
    p.goals.push(Goal {
        id: "g1".to_string(),
        project_id: "p1".to_string(),
        title: "G".to_string(),
        description: None,
        deadline: None,
        priority: 0,
        sort_order: 0,
        status: "open".to_string(),
        is_archived: false,
        completed_at: None,
        created_at: "2026-06-09T08:00:00Z".to_string(),
        updated_at: "2026-06-09T08:00:00Z".to_string(),
    });
    project_service::delete_project(&mut p, "p1").unwrap();
    assert_eq!(p.goals.len(), 0, "goal must be cascade-deleted");
}

#[test]
fn delete_project_unknown_id_is_not_found() {
    let mut p = Planner::new();
    let err = project_service::delete_project(&mut p, "ghost").unwrap_err();
    assert!(matches!(err, AppError::NotFound { .. }));
}

#[test]
fn list_projects_counts_completed_and_total_microtasks() {
    let mut p = Planner::new();
    seed_tree(&mut p);
    microtask_service::complete_microtask(&mut p, "m1").unwrap();
    let projects = project_service::list_projects(&p, false);
    assert_eq!(projects.len(), 1);
    assert_eq!(projects[0].total_microtasks, 3);
    assert_eq!(projects[0].completed_microtasks, 1);
}

#[test]
fn archived_microtasks_are_excluded_from_the_stats() {
    let mut p = Planner::new();
    seed_tree(&mut p);
    microtask_service::archive_microtask(&mut p, "m3").unwrap();
    let projects = project_service::list_projects(&p, false);
    assert_eq!(projects[0].total_microtasks, 2);
}

#[test]
fn empty_project_has_zero_stats() {
    let mut p = Planner::new();
    project_service::create_project(&mut p, "p1", "Empty", None).unwrap();
    let projects = project_service::list_projects(&p, false);
    assert_eq!(projects[0].total_microtasks, 0);
    assert_eq!(projects[0].completed_microtasks, 0);
}

#[test]
fn get_project_tree_nests_all_levels_in_sort_order() {
    let mut p = Planner::new();
    seed_tree(&mut p);
    goal_service::create_goal(&mut p, "g2", "p1", "G2", None, None, 0).unwrap();
    goal_service::reorder_goals(&mut p, "p1", &["g2".to_string(), "g1".to_string()]).unwrap();

    let tree = project_service::get_project_tree(&p, "p1").unwrap();
    assert_eq!(tree.id, "p1");
    assert_eq!(tree.goals.len(), 2);
    assert_eq!(tree.goals[0].id, "g2", "goals come back in sort order");
    assert_eq!(tree.goals[1].tasks.len(), 1);
    assert_eq!(tree.goals[1].tasks[0].microtasks.len(), 3);
    assert_eq!(tree.goals[1].tasks[0].microtasks[0].id, "m1");
}

#[test]
fn get_project_tree_excludes_archived_rows() {
    let mut p = Planner::new();
    seed_tree(&mut p);
    microtask_service::archive_microtask(&mut p, "m2").unwrap();
    let tree = project_service::get_project_tree(&p, "p1").unwrap();
    let micro_ids: Vec<&str> = tree.goals[0].tasks[0].microtasks.iter().map(|m| m.id.as_str()).collect();
    assert_eq!(micro_ids, ["m1", "m3"]);
}

#[test]
fn get_project_tree_unknown_project_is_not_found() {
    let p = Planner::new();
    let err = project_service::get_project_tree(&p, "ghost").unwrap_err();
    assert!(matches!(err, AppError::NotFound { entity: "project", .. }));
}

#[test]
fn list_projects_orders_by_creation_time_with_ties_in_stored_order() {
    let mut p = Planner::new();
    project_service::create_project_at(&mut p, "2026-06-09T08:00:00Z", "b", "B", None).unwrap();
    project_service::create_project_at(&mut p, "2026-06-01T08:00:00Z", "a", "A", None).unwrap();
    project_service::create_project_at(&mut p, "2026-06-09T08:00:00Z", "c", "C", None).unwrap();
    let ids: Vec<String> = project_service::list_projects(&p, false).into_iter().map(|s| s.id).collect();
    assert_eq!(ids, ["a", "b", "c"]);
}

#[test]
fn delete_project_cascades_through_all_levels() {
    let mut p = Planner::new();
    seed_tree(&mut p);
    project_service::create_project(&mut p, "p2", "Other", None).unwrap();
    goal_service::create_goal(&mut p, "g9", "p2", "Kept", None, None, 0).unwrap();
    project_service::delete_project(&mut p, "p1").unwrap();
    assert_eq!(p.projects.len(), 1);
    assert_eq!(p.goals.len(), 1);
    assert_eq!(p.goals[0].id, "g9");
    assert!(p.tasks.is_empty());
    assert!(p.microtasks.is_empty());
}

#[test]
fn project_tree_shows_archived_goal_children_never() {
    let mut p = Planner::new();
    seed_tree(&mut p);
    goal_service::archive_goal(&mut p, "g1").unwrap();
    let tree = project_service::get_project_tree(&p, "p1").unwrap();
    assert!(tree.goals.is_empty());
    assert_eq!(tree.name, "P");
    assert_eq!(tree.status, "open");
}
