//! Tasks, their states and the repository.

use motrix_core::gid::generate_gid;
use motrix_core::json::Json;
use motrix_core::repository::{GlobalStat, TaskRepository, MAX_REMOVED};
use motrix_core::task::{BittorrentInfo, Task, TaskError, TaskStatus};

fn task_with_gid(gid: &str) -> Task {
    let urls = vec!["https://example.com/a.zip".to_string()];
    Task::new_http_task(gid, &urls, "/downloads", "a.zip")
}

fn text(s: &str) -> Json {
    Json::Text(s.to_string())
}

fn at<'a>(v: &'a Json, key: &str) -> &'a Json {
    v.get(key).expect("missing key")
}

fn items(v: &Json) -> &Vec<Json> {
    match v {
        Json::Array(items) => items,
        other => panic!("not an array: {other:?}"),
    }
}

#[test]
fn gid_is_16_hex_and_unique() {
    let a = generate_gid(1_700_000_000_000_000, 1, 4242);
    let b = generate_gid(1_700_000_000_000_000, 2, 4242);
    assert_eq!(a.len(), 16);
    assert_eq!(b.len(), 16);
    for gid in [&a, &b] {
        assert!(gid.chars().all(|c| matches!(c, '0'..='9' | 'a'..='f')));
    }
    assert_ne!(a, b);
}

#[test]
fn gids_of_one_process_at_different_times() {
    let mut seen = std::collections::HashSet::new();
    for n in 0u64..10_000 {
        let micros = 1_700_000_000_000_000u128 + u128::from(n / 3);
        assert!(seen.insert(generate_gid(micros, n, 4242)));
    }
}

#[test]
fn a_paused_task_can_fail_but_not_complete() {
    assert!(Task::can_transition(TaskStatus::Paused, TaskStatus::Error));
    assert!(!Task::can_transition(TaskStatus::Paused, TaskStatus::Complete));
    assert!(!Task::can_transition(TaskStatus::Paused, TaskStatus::Seeding));
}

#[test]
fn gid_depends_on_each_input() {
    let a = generate_gid(5, 1, 7);
    assert_ne!(a, generate_gid(6, 1, 7));
    assert_ne!(a, generate_gid(5, 1, 8));
    assert_eq!(a, generate_gid(5, 1, 7));
}

#[test]
fn status_transition_valid_and_invalid() {
    let mut task = task_with_gid("t1");
    assert_eq!(task.status, TaskStatus::Waiting);

    task.transition(TaskStatus::Active).unwrap();
    task.transition(TaskStatus::Paused).unwrap();
    task.transition(TaskStatus::Active).unwrap();
    task.transition(TaskStatus::Complete).unwrap();
    assert_eq!(task.status, TaskStatus::Complete);

    let err = task.transition(TaskStatus::Active).unwrap_err();
    assert_eq!(
        err,
        TaskError::InvalidTransition {
            from: TaskStatus::Complete,
            to: TaskStatus::Active,
        }
    );
    assert_eq!(task.status, TaskStatus::Complete);

    assert!(Task::can_transition(TaskStatus::Active, TaskStatus::Paused));
    assert!(Task::can_transition(TaskStatus::Paused, TaskStatus::Active));
    assert!(Task::can_transition(TaskStatus::Waiting, TaskStatus::Paused));
    assert!(Task::can_transition(TaskStatus::Active, TaskStatus::Removed));
    assert!(Task::can_transition(TaskStatus::Complete, TaskStatus::Removed));
    assert!(Task::can_transition(TaskStatus::Error, TaskStatus::Removed));
    assert!(Task::can_transition(TaskStatus::Active, TaskStatus::Seeding));
    assert!(Task::can_transition(TaskStatus::Seeding, TaskStatus::Complete));
    assert!(!Task::can_transition(TaskStatus::Complete, TaskStatus::Active));
    assert!(!Task::can_transition(TaskStatus::Removed, TaskStatus::Active));
    assert!(!Task::can_transition(TaskStatus::Paused, TaskStatus::Complete));
}

#[test]
fn removed_is_final() {
    for to in [
        TaskStatus::Active,
        TaskStatus::Waiting,
        TaskStatus::Paused,
        TaskStatus::Error,
        TaskStatus::Complete,
        TaskStatus::Seeding,
    ] {
        assert!(!Task::can_transition(TaskStatus::Removed, to));
    }
}

#[test]
fn task_status_str_roundtrip() {
    for status in [
        TaskStatus::Active,
        TaskStatus::Waiting,
        TaskStatus::Paused,
        TaskStatus::Error,
        TaskStatus::Complete,
        TaskStatus::Removed,
        TaskStatus::Seeding,
    ] {
        assert_eq!(TaskStatus::from_str(status.as_str()), Some(status));
    }
    assert_eq!(TaskStatus::from_str("unknown"), None);
}

#[test]
fn new_task_notes_the_time() {
    let task = task_with_gid("t2");
    assert!(task.created_at > 1_600_000_000);
    let torrent = Task::new_bt_task("t3", "magnet:?xt=x", "/d", None);
    assert!(torrent.created_at >= task.created_at);
}

#[test]
fn to_aria2_shape_with_http_task() {
    let mut task = task_with_gid("0123456789abcdef");
    task.transition(TaskStatus::Active).unwrap();
    task.completed_length = 123;
    task.total_length = 456;
    task.upload_length = 999;
    task.download_speed = 1024;
    task.upload_speed = 2048;
    task.connections = 4;
    task.error_code = Some(3);
    task.error_message = Some("file not found".to_string());

    let v = task.to_aria2();
    for key in [
        "gid",
        "status",
        "totalLength",
        "completedLength",
        "uploadLength",
        "downloadSpeed",
        "uploadSpeed",
        "connections",
        "dir",
        "files",
        "errorCode",
        "errorMessage",
        "numSeeders",
        "seeder",
        "bitfield",
        "infoHash",
        "bittorrent",
    ] {
        assert!(v.get(key).is_some(), "missing key: {key}");
    }

    assert_eq!(at(&v, "gid"), &text("0123456789abcdef"));
    assert_eq!(at(&v, "status"), &text("active"));
    assert_eq!(at(&v, "totalLength"), &text("456"));
    assert_eq!(at(&v, "completedLength"), &text("123"));
    assert_eq!(at(&v, "uploadLength"), &text("999"));
    assert_eq!(at(&v, "downloadSpeed"), &text("1024"));
    assert_eq!(at(&v, "uploadSpeed"), &text("2048"));
    assert_eq!(at(&v, "connections"), &text("4"));
    assert_eq!(at(&v, "dir"), &text("/downloads"));
    assert_eq!(at(&v, "errorCode"), &text("3"));
    assert_eq!(at(&v, "errorMessage"), &text("file not found"));
    assert_eq!(at(&v, "numSeeders"), &text("0"));
    assert_eq!(at(&v, "seeder"), &text("false"));
    assert_eq!(at(&v, "bitfield"), &text(""));
    assert_eq!(at(&v, "infoHash"), &Json::Null);
    assert_eq!(at(&v, "bittorrent"), &Json::Null);

    let files = items(at(&v, "files"));
    assert_eq!(files.len(), 1);
    let f0 = &files[0];
    assert_eq!(at(f0, "index"), &text("1"));
    assert_eq!(at(f0, "length"), &text("0"));
    assert_eq!(at(f0, "completedLength"), &text("0"));
    assert_eq!(at(f0, "selected"), &text("true"));
    assert_eq!(at(f0, "path"), &text("/downloads/a.zip"));
    let uris = items(at(f0, "uris"));
    assert_eq!(uris.len(), 1);
    assert_eq!(at(&uris[0], "uri"), &text("https://example.com/a.zip"));
    assert_eq!(at(&uris[0], "status"), &text("used"));
}

#[test]
fn to_aria2_with_bittorrent() {
    let mut task = task_with_gid("fedcba9876543210");
    task.transition(TaskStatus::Active).unwrap();
    task.transition(TaskStatus::Seeding).unwrap();
    task.bittorrent = Some(BittorrentInfo {
        mode: "multi".to_string(),
        info_name: Some("ubuntu-24.04".to_string()),
        announce_list: vec![
            vec!["udp://tracker1:80".to_string()],
            vec!["udp://tracker2:80".to_string()],
        ],
        info_hash: Some("aabbccddeeff00112233".to_string()),
    });
    task.num_seeders = 7;
    task.seeder = true;

    let v = task.to_aria2();
    assert_eq!(at(&v, "status"), &text("seeding"));
    assert_eq!(at(&v, "numSeeders"), &text("7"));
    assert_eq!(at(&v, "seeder"), &text("true"));
    assert_eq!(at(&v, "infoHash"), &text("aabbccddeeff00112233"));
    let bt = at(&v, "bittorrent");
    assert_eq!(at(bt, "mode"), &text("multi"));
    assert_eq!(at(at(bt, "info"), "name"), &text("ubuntu-24.04"));
    assert_eq!(
        at(bt, "announceList"),
        &Json::Array(vec![
            Json::Array(vec![text("udp://tracker1:80")]),
            Json::Array(vec![text("udp://tracker2:80")]),
        ])
    );
}

#[test]
fn to_aria2_magnet_metadata_pending_omits_info_key() {
    let mut task = task_with_gid("magnet0000000001");
    task.transition(TaskStatus::Active).unwrap();
    task.bittorrent = Some(BittorrentInfo {
        mode: "single".to_string(),
        info_name: None,
        announce_list: Vec::new(),
        info_hash: Some("cafebabecafebabecafebabecafebabecafebabe".to_string()),
    });

    let v = task.to_aria2();
    let bt = at(&v, "bittorrent");
    assert_eq!(at(bt, "mode"), &text("single"));
    assert_eq!(at(bt, "announceList"), &Json::Array(vec![]));
    assert!(bt.get("info").is_none());
    assert_eq!(
        at(&v, "infoHash"),
        &text("cafebabecafebabecafebabecafebabecafebabe")
    );
    task.bittorrent.as_mut().unwrap().info_name = Some("debian-12".to_string());
    let v2 = task.to_aria2();
    assert_eq!(at(at(at(&v2, "bittorrent"), "info"), "name"), &text("debian-12"));
}

#[test]
fn repository_grouping_remove_and_stat() {
    let mut repo = TaskRepository::new();

    let gid_active = "aaaaaaaaaaaaaaaa";
    let gid_waiting = "bbbbbbbbbbbbbbbb";
    let gid_complete = "cccccccccccccccc";
    let gid_to_remove = "dddddddddddddddd";

    let mut a = task_with_gid(gid_active);
    a.transition(TaskStatus::Active).unwrap();
    a.download_speed = 100;
    a.upload_speed = 10;

    let w = task_with_gid(gid_waiting);

    let mut c = task_with_gid(gid_complete);
    c.transition(TaskStatus::Complete).unwrap();

    let mut r = task_with_gid(gid_to_remove);
    r.transition(TaskStatus::Active).unwrap();
    r.download_speed = 200;

    repo.add(a);
    repo.add(w);
    repo.add(c);
    repo.add(r);

    assert!(repo.contains(gid_active));
    assert_eq!(repo.get(gid_active).unwrap().status, TaskStatus::Active);
    assert!(repo.get("no-such-gid").is_none());

    assert_eq!(repo.active().len(), 2);
    assert_eq!(repo.active()[0].gid, gid_active);
    assert_eq!(repo.active()[1].gid, gid_to_remove);
    assert_eq!(repo.waiting().len(), 1);
    assert_eq!(repo.waiting()[0].gid, gid_waiting);
    assert_eq!(repo.stopped().len(), 1);
    assert_eq!(repo.stopped()[0].gid, gid_complete);
    assert_eq!(repo.all().len(), 4);

    repo.set_status(gid_waiting, TaskStatus::Paused).unwrap();
    assert_eq!(repo.get(gid_waiting).unwrap().status, TaskStatus::Paused);
    assert!(repo.set_status(gid_complete, TaskStatus::Active).is_err());
    assert_eq!(
        repo.set_status("no-such-gid", TaskStatus::Active).unwrap_err(),
        TaskError::NotFound {
            gid: "no-such-gid".to_string()
        }
    );

    repo.update_progress(gid_active, 50, 100, 512, 0, 4).unwrap();
    let t = repo.get(gid_active).unwrap();
    assert_eq!(t.completed_length, 50);
    assert_eq!(t.total_length, 100);
    assert_eq!(t.download_speed, 512);
    assert_eq!(t.connections, 4);

    repo.set_status(gid_waiting, TaskStatus::Active).unwrap();
    repo.mark_error(gid_waiting, 1, "timeout".to_string()).unwrap();
    let t = repo.get(gid_waiting).unwrap();
    assert_eq!(t.status, TaskStatus::Error);
    assert_eq!(t.error_code, Some(1));
    assert_eq!(t.error_message.as_deref(), Some("timeout"));

    let removed_task = repo.remove(gid_to_remove).unwrap();
    assert_eq!(removed_task.gid, gid_to_remove);
    assert!(!repo.contains(gid_to_remove));
    assert_eq!(repo.active().len(), 1);
    assert_eq!(repo.stopped().len(), 3);
    assert!(repo
        .stopped()
        .iter()
        .any(|t| t.gid == gid_to_remove && t.status == TaskStatus::Removed));
    assert!(repo.remove(gid_to_remove).is_none());

    let stat = repo.global_stat();
    assert_eq!(stat.num_active, 1);
    assert_eq!(stat.num_waiting, 0);
    assert_eq!(stat.num_stopped, 3);
    assert_eq!(stat.download_speed, 512);
    assert_eq!(stat.upload_speed, 0);

    repo.purge_removed();
    assert_eq!(repo.stopped().len(), 2);
    assert!(!repo.stopped().iter().any(|t| t.gid == gid_to_remove));
}

#[test]
fn history_forgets_the_oldest() {
    let mut repo = TaskRepository::new();
    for i in 0..MAX_REMOVED + 2 {
        let gid = format!("g{i}");
        repo.add(task_with_gid(&gid));
        assert!(repo.remove(&gid).is_some());
    }
    let stopped = repo.stopped();
    assert_eq!(stopped.len(), MAX_REMOVED);
    assert_eq!(stopped[0].gid, "g2");
}

#[test]
fn change_through_get_mut_is_kept() {
    let mut repo = TaskRepository::new();
    repo.add(task_with_gid("a"));
    repo.get_mut("a").unwrap().total_length = 9;
    assert_eq!(repo.get("a").unwrap().total_length, 9);
    assert!(repo.get_mut("b").is_none());
}

#[test]
fn global_stat_to_aria2_json() {
    let stat = GlobalStat {
        download_speed: 100,
        upload_speed: 50,
        num_active: 2,
        num_waiting: 3,
        num_stopped: 4,
    };
    let v = stat.to_aria2_json();
    assert_eq!(at(&v, "downloadSpeed"), &text("100"));
    assert_eq!(at(&v, "uploadSpeed"), &text("50"));
    assert_eq!(at(&v, "numActive"), &text("2"));
    assert_eq!(at(&v, "numWaiting"), &text("3"));
    assert_eq!(at(&v, "numStopped"), &text("4"));
}
