use focus_planner::error::AppError;
use focus_planner::goal_service;
use focus_planner::microtask_service;
use focus_planner::project_service;
use focus_planner::store::Planner;
use focus_planner::task_service;

fn seed_tree(p: &mut Planner) {
    project_service::create_project(p, "p1", "P", None).unwrap();
    goal_service::create_goal(p, "g1", "p1", "G", None, None, 0).unwrap();
    task_service::create_task(p, "t1", "g1", "T1", None, None, 0).unwrap();
    task_service::create_task(p, "t2", "g1", "T2", None, None, 0).unwrap();
    microtask_service::create_microtask(p, "m1", "t1", "M1", 20, 1, None, None, 0).unwrap();
    microtask_service::create_microtask(p, "m2", "t1", "M2", 20, 1, None, None, 0).unwrap();
    microtask_service::create_microtask(p, "m3", "t2", "M3", 20, 1, None, None, 0).unwrap();
}

fn micro(p: &Planner, id: &str) -> (String, Option<String>) {
    let m = p.microtasks.iter().find(|m| m.id == id).unwrap();
    (m.status.clone(), m.completed_at.clone())
}

fn task(p: &Planner, id: &str) -> (String, Option<String>) {
    let t = p.tasks.iter().find(|t| t.id == id).unwrap();
    (t.status.clone(), t.completed_at.clone())
}

fn goal(p: &Planner, id: &str) -> String {
    p.goals.iter().find(|g| g.id == id).unwrap().status.clone()
}

#[test]
fn completing_a_non_last_microtask_does_not_touch_the_task() {
    let mut p = Planner::new();
    seed_tree(&mut p);
    microtask_service::complete_microtask(&mut p, "m1").unwrap();
    let (m1_status, m1_completed) = micro(&p, "m1");
    assert_eq!(m1_status, "completed");
    assert!(m1_completed.is_some());
    assert_eq!(task(&p, "t1").0, "open");
    assert_eq!(goal(&p, "g1"), "open");
}

#[test]
fn completing_the_last_microtask_completes_the_task_but_not_the_goal_with_open_siblings() {
    let mut p = Planner::new();
    seed_tree(&mut p);
    microtask_service::complete_microtask(&mut p, "m1").unwrap();
    microtask_service::complete_microtask(&mut p, "m2").unwrap();
    assert_eq!(task(&p, "t1").0, "completed");
    assert!(task(&p, "t1").1.is_some());
    assert_eq!(goal(&p, "g1"), "open", "t2 is still open");
}

#[test]
fn completing_the_last_task_completes_the_goal_but_never_the_project() {
    let mut p = Planner::new();
    seed_tree(&mut p);
    microtask_service::complete_microtask(&mut p, "m1").unwrap();
    microtask_service::complete_microtask(&mut p, "m2").unwrap();
    microtask_service::complete_microtask(&mut p, "m3").unwrap();
    assert_eq!(task(&p, "t2").0, "completed");
    assert_eq!(goal(&p, "g1"), "completed");
    assert_eq!(p.projects[0].status, "open", "roll-up stops at the goal");
}

#[test]
fn archived_open_microtasks_do_not_block_task_completion() {
    let mut p = Planner::new();
    seed_tree(&mut p);
    microtask_service::archive_microtask(&mut p, "m2").unwrap();
    microtask_service::complete_microtask(&mut p, "m1").unwrap();
    assert_eq!(task(&p, "t1").0, "completed");
}

#[test]
fn uncomplete_reverses_the_full_chain() {
    let mut p = Planner::new();
    seed_tree(&mut p);
    for m in ["m1", "m2", "m3"] {
        microtask_service::complete_microtask(&mut p, m).unwrap();
    }
    assert_eq!(goal(&p, "g1"), "completed");

    microtask_service::uncomplete_microtask(&mut p, "m3").unwrap();

    let (m3_status, m3_completed) = micro(&p, "m3");
    assert_eq!(m3_status, "open");
    assert!(m3_completed.is_none());
    assert_eq!(task(&p, "t2").0, "open");
    assert!(task(&p, "t2").1.is_none());
    assert_eq!(goal(&p, "g1"), "open");
    assert_eq!(task(&p, "t1").0, "completed");
}

#[test]
fn complete_is_idempotent_and_unknown_id_is_not_found() {
    let mut p = Planner::new();
    seed_tree(&mut p);
    microtask_service::complete_microtask(&mut p, "m1").unwrap();
    microtask_service::complete_microtask(&mut p, "m1").unwrap();

    let err = microtask_service::complete_microtask(&mut p, "ghost").unwrap_err();
    assert!(matches!(err, AppError::NotFound { entity: "microtask", .. }));

    microtask_service::uncomplete_microtask(&mut p, "m2").unwrap();
    let err = microtask_service::uncomplete_microtask(&mut p, "ghost").unwrap_err();
    assert!(matches!(err, AppError::NotFound { entity: "microtask", .. }));
}

#[test]
fn completion_stamps_the_whole_chain_with_one_time() {
    let mut p = Planner::new();
    seed_tree(&mut p);
    microtask_service::complete_microtask_at(&mut p, "2026-06-09T08:00:00Z", "m3").unwrap();
    let t2 = p.tasks.iter().find(|t| t.id == "t2").unwrap();
    assert_eq!(t2.completed_at.as_deref(), Some("2026-06-09T08:00:00Z"));
    assert_eq!(t2.updated_at, "2026-06-09T08:00:00Z");
    assert_eq!(goal(&p, "g1"), "open");
}

#[test]
fn completing_again_keeps_the_first_completion_time() {
    let mut p = Planner::new();
    seed_tree(&mut p);
    microtask_service::complete_microtask_at(&mut p, "2026-06-09T08:00:00Z", "m1").unwrap();
    microtask_service::complete_microtask_at(&mut p, "2026-06-10T08:00:00Z", "m1").unwrap();
    assert_eq!(micro(&p, "m1").1.as_deref(), Some("2026-06-09T08:00:00Z"));
}

#[test]
fn complete_then_uncomplete_restores_every_status() {
    let mut p = Planner::new();
    seed_tree(&mut p);
    microtask_service::complete_microtask(&mut p, "m3").unwrap();
    assert_eq!(goal(&p, "g1"), "open");
    microtask_service::complete_microtask(&mut p, "m1").unwrap();
    microtask_service::complete_microtask(&mut p, "m2").unwrap();
    assert_eq!(goal(&p, "g1"), "completed");
    microtask_service::uncomplete_microtask(&mut p, "m2").unwrap();
    assert_eq!(micro(&p, "m2").0, "open");
    assert_eq!(task(&p, "t1").0, "open");
    assert_eq!(task(&p, "t2").0, "completed");
    assert_eq!(goal(&p, "g1"), "open");
}

#[test]
fn completing_a_microtask_whose_task_is_gone_changes_nothing() {
    let mut p = Planner::new();
    seed_tree(&mut p);
    p.tasks.retain(|t| t.id != "t2");
    let err = microtask_service::complete_microtask(&mut p, "m3").unwrap_err();
    assert!(matches!(err, AppError::Db(ref m) if m.starts_with("no rows returned")));
    assert_eq!(micro(&p, "m3").0, "open");
}
