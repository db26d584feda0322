//! How often and what is broadcast.

use motrix_core::broadcaster::{build_snapshot, effective_interval, BroadcasterConfig};
use motrix_core::json::Json;
use motrix_core::repository::TaskRepository;
use motrix_core::task::{Task, TaskStatus};

fn task_with_gid(gid: &str) -> Task {
    let urls = vec!["https://example.com/a.zip".to_string()];
    Task::new_http_task(gid, &urls, "/downloads", "a.zip")
}

fn text(s: &str) -> Json {
    Json::Text(s.to_string())
}

fn at<'a>(v: &'a Json, key: &str) -> &'a Json {
    v.get(key).expect("missing key")
}

fn items(v: &Json) -> &Vec<Json> {
    match v {
        Json::Array(items) => items,
        other => panic!("not an array: {other:?}"),
    }
}

#[test]
fn effective_interval_falls_in_range() {
    assert_eq!(effective_interval(0), 1000);
    assert_eq!(effective_interval(1), 900);
    assert_eq!(effective_interval(5), 500);
    assert_eq!(effective_interval(100), 500);

    for n in [0u32, 1, 2, 3, 5, 10, 100, u32::MAX] {
        let interval = effective_interval(n);
        assert!(interval >= 500, "num_active={n}: {interval}");
        assert!(interval <= 6000, "num_active={n}: {interval}");
    }
}

#[test]
fn effective_interval_is_monotonic() {
    let mut prev = 6000;
    for n in 0..=50u32 {
        let interval = effective_interval(n);
        assert!(interval <= prev, "n={n}, prev={prev}, cur={interval}");
        prev = interval;
    }
}

#[test]
fn own_intervals_are_kept_within_bounds() {
    let mut config = BroadcasterConfig::default();
    config.base_interval = 9000;
    assert_eq!(config.effective_interval(1), 6000);
}

#[test]
fn build_snapshot_shape() {
    let mut repo = TaskRepository::new();
    let mut active = task_with_gid("aaaaaaaaaaaaaaaa");
    active.transition(TaskStatus::Active).unwrap();
    active.completed_length = 50;
    active.total_length = 100;
    active.download_speed = 512;
    repo.add(active);
    repo.add(task_with_gid("bbbbbbbbbbbbbbbb"));

    let snapshot = build_snapshot(&repo);
    assert!(snapshot.get("globalStat").is_some());
    assert!(snapshot.get("tasks").is_some());

    let stat = at(&snapshot, "globalStat");
    assert_eq!(at(stat, "numActive"), &text("1"));
    assert_eq!(at(stat, "numWaiting"), &text("1"));
    assert_eq!(at(stat, "downloadSpeed"), &text("512"));
    assert_eq!(at(stat, "numStopped"), &text("0"));

    let tasks = items(at(&snapshot, "tasks"));
    assert_eq!(tasks.len(), 2);
    assert_eq!(at(&tasks[0], "gid"), &text("aaaaaaaaaaaaaaaa"));
    assert_eq!(at(&tasks[0], "status"), &text("active"));
    assert_eq!(at(&tasks[0], "totalLength"), &text("100"));
    assert_eq!(at(&tasks[0], "completedLength"), &text("50"));
    assert_eq!(at(&tasks[0], "downloadSpeed"), &text("512"));
    assert_eq!(at(&tasks[1], "gid"), &text("bbbbbbbbbbbbbbbb"));
    assert_eq!(at(&tasks[1], "status"), &text("waiting"));
    assert_eq!(at(&tasks[1], "totalLength"), &text("0"));
}

#[test]
fn build_snapshot_empty_repo() {
    let repo = TaskRepository::new();
    let snapshot = build_snapshot(&repo);
    assert_eq!(at(at(&snapshot, "globalStat"), "numActive"), &text("0"));
    assert_eq!(items(at(&snapshot, "tasks")).len(), 0);
}
