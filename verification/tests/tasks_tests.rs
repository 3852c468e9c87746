use craftmc::tasks::{Task, TaskRegistry, TaskStatus};

#[test]
fn created_task_is_running_and_listed() {
    let mut r = TaskRegistry::new();
    let t = r.create_at("download", "Fetch jar", "t1".to_string(), 100);
    assert_eq!(t.id, "t1");
    assert_eq!(t.status, TaskStatus::Running);
    assert_eq!(t.progress, 0);
    assert_eq!(t.total, None);
    assert_eq!(t.message, "");
    assert_eq!(t.started_at, 100);
    assert_eq!(t.finished_at, None);
    let l = r.list();
    assert_eq!(l.len(), 1);
    assert_eq!(l[0].label, "Fetch jar");
}

#[test]
fn create_uses_a_fresh_uuid() {
    let mut r = TaskRegistry::new();
    let a = r.create("k", "a");
    let b = r.create("k", "b");
    assert_eq!(a.id.len(), 36);
    assert_ne!(a.id, b.id);
    assert_eq!(r.list().len(), 2);
}

#[test]
fn progress_and_finish() {
    let mut r = TaskRegistry::new();
    r.create_at("k", "l", "x".to_string(), 1);
    let t = r.set_total("x", Some(500), "downloading").unwrap();
    assert_eq!(t.total, Some(500));
    assert_eq!(t.message, "downloading");
    let t = r.set_progress("x", 120).unwrap();
    assert_eq!(t.progress, 120);
    let t = r.finish_done_at("x", "installed", 9).unwrap();
    assert_eq!(t.status, TaskStatus::Done);
    assert_eq!(t.progress, 500);
    assert_eq!(t.finished_at, Some(9));
    assert_eq!(t.message, "installed");
    assert!(r.set_progress("missing", 1).is_none());
}

#[test]
fn done_without_total_keeps_progress() {
    let mut r = TaskRegistry::new();
    r.create_at("k", "l", "x".to_string(), 1);
    r.set_progress("x", 77);
    let t = r.finish_done("x", "ok").unwrap();
    assert_eq!(t.progress, 77);
    assert!(t.finished_at.is_some());
}

#[test]
fn failure_is_recorded() {
    let mut r = TaskRegistry::new();
    r.create_at("k", "l", "x".to_string(), 1);
    r.set_progress("x", 5);
    let t = r.finish_failed_at("x", "boom", 4).unwrap();
    assert_eq!(t.status, TaskStatus::Failed);
    assert_eq!(t.progress, 5);
    assert_eq!(t.message, "boom");
    assert_eq!(t.finished_at, Some(4));
    assert!(r.finish_failed("nope", "x").is_none());
    assert!(r.finish_failed("x", "again").unwrap().finished_at.is_some());
}

#[test]
fn update_keeps_the_id() {
    let mut r = TaskRegistry::new();
    r.create_at("k", "l", "x".to_string(), 1);
    let t = r
        .update("x", |mut t: Task| {
            t.id = "other".to_string();
            t.label = "renamed".to_string();
            t
        })
        .unwrap();
    assert_eq!(t.id, "x");
    assert_eq!(t.label, "renamed");
    assert_eq!(r.list()[0].label, "renamed");
    assert!(r.update("y", |t: Task| t).is_none());
}

#[test]
fn list_is_newest_first_and_prune_keeps_newest() {
    let mut r = TaskRegistry::new();
    for (i, ts) in [5i64, 1, 9, 3, 7].iter().enumerate() {
        r.create_at("k", "l", format!("t{i}"), *ts);
    }
    let starts: Vec<i64> = r.list().iter().map(|t| t.started_at).collect();
    assert_eq!(starts, vec![9, 7, 5, 3, 1]);
    r.prune_old(2);
    let starts: Vec<i64> = r.list().iter().map(|t| t.started_at).collect();
    assert_eq!(starts, vec![9, 7]);
    r.prune_old(10);
    assert_eq!(r.list().len(), 2);
    r.prune_old(0);
    assert!(r.list().is_empty());
}

#[test]
fn task_with_same_id_replaces() {
    let mut r = TaskRegistry::new();
    r.create_at("k", "first", "x".to_string(), 1);
    r.create_at("k", "second", "x".to_string(), 2);
    let l = r.list();
    assert_eq!(l.len(), 1);
    assert_eq!(l[0].label, "second");
}

#[test]
fn tasks_started_together_keep_their_order() {
    let mut r = TaskRegistry::new();
    r.create_at("k", "l", "a".to_string(), 3);
    r.create_at("k", "l", "b".to_string(), 3);
    r.create_at("k", "l", "c".to_string(), 4);
    let ids: Vec<String> = r.list().into_iter().map(|t| t.id).collect();
    assert_eq!(ids, vec!["c", "a", "b"]);
}
