use focus_planner::error::AppError;
use focus_planner::goal_service;
use focus_planner::microtask_service;
use focus_planner::project_service;
use focus_planner::store::Planner;
use focus_planner::task_service;

fn seed(p: &mut Planner) {
    project_service::create_project(p, "p1", "P", None).unwrap();
    for g in ["g1", "g2", "g3"] {
        goal_service::create_goal(p, g, "p1", g, None, None, 0).unwrap();
    }
    task_service::create_task(p, "t1", "g1", "t1", None, None, 0).unwrap();
    task_service::create_task(p, "t2", "g1", "t2", None, None, 0).unwrap();
    microtask_service::create_microtask(p, "m1", "t1", "m1", 20, 1, None, None, 0).unwrap();
    microtask_service::create_microtask(p, "m2", "t1", "m2", 20, 1, None, None, 0).unwrap();
}

fn goal_order(p: &Planner, project: &str) -> Vec<String> {
    let mut rows: Vec<_> = p.goals.iter().filter(|g| g.project_id == project).collect();
    rows.sort_by_key(|g| g.sort_order);
    rows.into_iter().map(|g| g.id.clone()).collect()
}

#[test]
fn reorder_goals_rewrites_sort_order_from_the_full_list() {
    let mut p = Planner::new();
    seed(&mut p);
    goal_service::reorder_goals(&mut p, "p1", &["g3".to_string(), "g1".to_string(), "g2".to_string()]).unwrap();
    assert_eq!(goal_order(&p, "p1"), ["g3", "g1", "g2"]);
}

#[test]
fn reorder_goals_rejects_partial_or_foreign_lists() {
    let mut p = Planner::new();
    seed(&mut p);
    let err = goal_service::reorder_goals(&mut p, "p1", &["g1".to_string(), "g2".to_string()]).unwrap_err();
    assert!(matches!(err, AppError::Validation(_)));
    let err = goal_service::reorder_goals(&mut p, "p1", &["g1".to_string(), "g2".to_string(), "ghost".to_string()])
        .unwrap_err();
    assert!(matches!(err, AppError::Validation(_)));
    assert_eq!(goal_order(&p, "p1"), ["g1", "g2", "g3"]);
}

#[test]
fn reorder_goals_ignores_archived_children() {
    let mut p = Planner::new();
    seed(&mut p);
    goal_service::archive_goal(&mut p, "g2").unwrap();
    goal_service::reorder_goals(&mut p, "p1", &["g3".to_string(), "g1".to_string()]).unwrap();
    let mut visible: Vec<_> = p.goals.iter().filter(|g| g.project_id == "p1" && !g.is_archived).collect();
    visible.sort_by_key(|g| g.sort_order);
    let ids: Vec<&str> = visible.iter().map(|g| g.id.as_str()).collect();
    assert_eq!(ids, ["g3", "g1"]);
}

#[test]
fn reorder_tasks_and_microtasks_work_the_same_way() {
    let mut p = Planner::new();
    seed(&mut p);
    task_service::reorder_tasks(&mut p, "g1", &["t2".to_string(), "t1".to_string()]).unwrap();
    let mut tasks: Vec<_> = p.tasks.iter().filter(|t| t.goal_id == "g1").collect();
    tasks.sort_by_key(|t| t.sort_order);
    let ids: Vec<&str> = tasks.iter().map(|t| t.id.as_str()).collect();
    assert_eq!(ids, ["t2", "t1"]);

    microtask_service::reorder_microtasks(&mut p, "t1", &["m2".to_string(), "m1".to_string()]).unwrap();
    let mut micros: Vec<_> = p.microtasks.iter().filter(|m| m.task_id == "t1").collect();
    micros.sort_by_key(|m| m.sort_order);
    let ids: Vec<&str> = micros.iter().map(|m| m.id.as_str()).collect();
    assert_eq!(ids, ["m2", "m1"]);
}

#[test]
fn reorder_rejects_a_list_that_names_a_goal_twice() {
    let mut p = Planner::new();
    seed(&mut p);
    let err = goal_service::reorder_goals(&mut p, "p1", &["g1".to_string(), "g1".to_string(), "g2".to_string()])
        .unwrap_err();
    assert!(matches!(err, AppError::Validation(ref m) if m == "ordered_ids must contain exactly the project's non-archived goals"));
}

#[test]
fn reorder_goals_shows_in_the_tree_in_the_given_order() {
    let mut p = Planner::new();
    seed(&mut p);
    goal_service::reorder_goals_at(&mut p, "2026-06-12T00:00:00Z", "p1", &["g2".to_string(), "g3".to_string(), "g1".to_string()])
        .unwrap();
    let tree = project_service::get_project_tree(&p, "p1").unwrap();
    let ids: Vec<&str> = tree.goals.iter().map(|g| g.id.as_str()).collect();
    assert_eq!(ids, ["g2", "g3", "g1"]);
    assert!(p.goals.iter().all(|g| g.updated_at == "2026-06-12T00:00:00Z"));
}
