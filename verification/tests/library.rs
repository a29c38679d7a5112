use focus_planner::commands::{frontend_log_level, log_outcome, LogLevel};
use focus_planner::error::AppError;
use focus_planner::order::{sort_by_int, sort_by_text, text_le_exec};
use focus_planner::project_service::create_project_at;
use focus_planner::store::Planner;

#[test]
fn error_codes_and_messages() {
    let db = AppError::Db("error returned from database: (code: 1555) UNIQUE constraint failed: goals.id".to_string());
    assert_eq!(db.code(), "db");
    assert_eq!(db.message(), "database error: error returned from database: (code: 1555) UNIQUE constraint failed: goals.id");
    let nf = AppError::NotFound { entity: "goal", id: "g9".to_string() };
    assert_eq!(nf.code(), "not_found");
    assert_eq!(nf.message(), "goal not found: g9");
    let v = AppError::Validation("goal title must not be empty".to_string());
    assert_eq!(v.code(), "validation");
    assert_eq!(v.message(), "validation failed: goal title must not be empty");
}

#[test]
fn log_outcome_levels() {
    let ok: Result<(), AppError> = Ok(());
    let line = log_outcome(&ok);
    assert_eq!(line.level, LogLevel::Info);
    assert_eq!(line.event, "ok");
    assert!(line.detail.is_none());

    let rejected: Result<(), AppError> = Err(AppError::Validation("bad".to_string()));
    let line = log_outcome(&rejected);
    assert_eq!(line.level, LogLevel::Warn);
    assert_eq!(line.event, "rejected");
    assert_eq!(line.detail.as_deref(), Some("bad"));

    let failed: Result<u8, AppError> = Err(AppError::NotFound { entity: "task", id: "t1".to_string() });
    let line = log_outcome(&failed);
    assert_eq!(line.level, LogLevel::Error);
    assert_eq!(line.event, "failed");
    assert_eq!(line.detail.as_deref(), Some("task not found: t1"));
}

#[test]
fn frontend_levels() {
    assert_eq!(frontend_log_level("error"), LogLevel::Error);
    assert_eq!(frontend_log_level("warn"), LogLevel::Warn);
    assert_eq!(frontend_log_level("info"), LogLevel::Info);
    assert_eq!(frontend_log_level("debug"), LogLevel::Info);
    assert_eq!(frontend_log_level("ERROR"), LogLevel::Info);
}

#[test]
fn trim_strips_unicode_whitespace_at_both_ends() {
    let cases = [("  a b \t\n", "a b"), ("\u{3000}x\u{a0}", "x"), ("plain", "plain")];
    let mut p = Planner::new();
    for (i, (raw, trimmed)) in cases.iter().enumerate() {
        let id = format!("p{i}");
        create_project_at(&mut p, "2026-06-09T08:00:00Z", &id, raw, None).unwrap();
        assert_eq!(p.projects[i].name, *trimmed);
    }
    let r = create_project_at(&mut p, "2026-06-09T08:00:00Z", "px", " \u{2029} ", None);
    assert!(matches!(r, Err(AppError::Validation(_))));
    assert_eq!(p.projects.len(), 3);
}

#[test]
fn text_order_is_character_order() {
    let s = |x: &str| x.to_string();
    assert!(text_le_exec(&s("2026-01-01"), &s("2026-01-02")));
    assert!(text_le_exec(&s("abc"), &s("abc")));
    assert!(text_le_exec(&s("ab"), &s("abc")));
    assert!(!text_le_exec(&s("abd"), &s("abc")));
    assert!(!text_le_exec(&s("b"), &s("a")));
    assert!(text_le_exec(&s(""), &s("")));
}

#[test]
fn sorting_is_stable() {
    assert_eq!(sort_by_int(&vec![3, 1, 2, 1]), vec![1, 3, 2, 0]);
    assert_eq!(sort_by_int(&vec![]), Vec::<usize>::new());
    let keys: Vec<String> = ["b", "a", "b", "a"].iter().map(|k| k.to_string()).collect();
    assert_eq!(sort_by_text(&keys), vec![1, 3, 0, 2]);
}
