//! The shapes that clients rely on: what tasks, statistics and the version look
//! like from outside.

use motrix_core::config::{Platform, SystemConfig};
use motrix_core::json::Json;
use motrix_core::manager::TaskManager;
use motrix_core::repository::GlobalStat;
use motrix_core::rpc_backend::{engine_version, ENGINE_VERSION};
use motrix_core::task::{Task, TaskStatus};

fn text(s: &str) -> Json {
    Json::Text(s.to_string())
}

fn object(fields: Vec<(&str, Json)>) -> Json {
    Json::Object(fields.into_iter().map(|(k, v)| (k.to_string(), v)).collect())
}

/// The same value with the fields of every object in the order of their names.
fn ordered(value: Json) -> Json {
    match value {
        Json::Array(items) => Json::Array(items.into_iter().map(ordered).collect()),
        Json::Object(fields) => {
            let mut fields: Vec<(String, Json)> =
                fields.into_iter().map(|(k, v)| (k, ordered(v))).collect();
            fields.sort_by(|a, b| a.0.cmp(&b.0));
            Json::Object(fields)
        }
        other => other,
    }
}

fn golden_file(length: &str, completed: &str, path: &str, uri: &str) -> Json {
    object(vec![
        ("index", text("1")),
        ("length", text(length)),
        ("completedLength", text(completed)),
        ("selected", text("true")),
        ("path", text(path)),
        (
            "uris",
            Json::Array(vec![object(vec![("uri", text(uri)), ("status", text("used"))])]),
        ),
    ])
}

fn golden_tell_status_active() -> Json {
    object(vec![
        ("gid", text("0123456789abcdef")),
        ("status", text("active")),
        ("totalLength", text("1048576")),
        ("completedLength", text("524288")),
        ("uploadLength", text("0")),
        ("downloadSpeed", text("102400")),
        ("uploadSpeed", text("0")),
        ("connections", text("4")),
        ("dir", text("/downloads")),
        (
            "files",
            Json::Array(vec![golden_file(
                "1048576",
                "524288",
                "/downloads/ubuntu-24.04.iso",
                "https://mirror.example.com/ubuntu-24.04.iso",
            )]),
        ),
        ("errorCode", text("0")),
        ("errorMessage", text("")),
        ("numSeeders", text("0")),
        ("seeder", text("false")),
        ("bitfield", text("")),
        ("infoHash", Json::Null),
        ("bittorrent", Json::Null),
    ])
}

fn golden_tell_status_complete() -> Json {
    object(vec![
        ("gid", text("fedcba9876543210")),
        ("status", text("complete")),
        ("totalLength", text("2048")),
        ("completedLength", text("2048")),
        ("uploadLength", text("0")),
        ("downloadSpeed", text("0")),
        ("uploadSpeed", text("0")),
        ("connections", text("1")),
        ("dir", text("/downloads")),
        (
            "files",
            Json::Array(vec![golden_file(
                "2048",
                "2048",
                "/downloads/release-notes.txt",
                "https://example.com/release-notes.txt",
            )]),
        ),
        ("errorCode", text("0")),
        ("errorMessage", text("")),
        ("numSeeders", text("0")),
        ("seeder", text("false")),
        ("bitfield", text("")),
        ("infoHash", Json::Null),
        ("bittorrent", Json::Null),
    ])
}

fn golden_global_stat() -> Json {
    object(vec![
        ("downloadSpeed", text("102400")),
        ("uploadSpeed", text("0")),
        ("numActive", text("1")),
        ("numWaiting", text("2")),
        ("numStopped", text("1")),
    ])
}

fn golden_get_version() -> Json {
    let features = [
        "Async DNS",
        "BitTorrent",
        "Firefox3 Cookie",
        "GZip",
        "HTTPS",
        "Message Digest",
        "Metalink",
        "XML-RPC",
        "SFTP",
    ];
    object(vec![
        ("version", text(ENGINE_VERSION)),
        ("enabledFeatures", Json::Array(features.iter().map(|f| text(f)).collect())),
    ])
}

fn build_active_task() -> Task {
    let mut task = Task::new_http_task(
        "0123456789abcdef",
        &vec!["https://mirror.example.com/ubuntu-24.04.iso".to_string()],
        "/downloads",
        "ubuntu-24.04.iso",
    );
    task.transition(TaskStatus::Active).expect("a queued task starts");
    task.total_length = 1_048_576;
    task.completed_length = 524_288;
    task.download_speed = 102_400;
    task.connections = 4;
    task.files[0].length = 1_048_576;
    task.files[0].completed_length = 524_288;
    task.error_code = Some(0);
    task.error_message = Some(String::new());
    task
}

fn build_complete_task() -> Task {
    let mut task = Task::new_http_task(
        "fedcba9876543210",
        &vec!["https://example.com/release-notes.txt".to_string()],
        "/downloads",
        "release-notes.txt",
    );
    task.transition(TaskStatus::Active).expect("a queued task starts");
    task.transition(TaskStatus::Complete).expect("a running task ends");
    task.total_length = 2048;
    task.completed_length = 2048;
    task.connections = 1;
    task.files[0].length = 2048;
    task.files[0].completed_length = 2048;
    task.error_code = Some(0);
    task.error_message = Some(String::new());
    task
}

fn waiting_task(gid: &str, uri: &str, out: &str) -> Task {
    Task::new_http_task(gid, &vec![uri.to_string()], "/downloads", out)
}

fn test_manager() -> TaskManager {
    TaskManager::new(&SystemConfig::defaults(Platform::Linux, "/tmp/motrix", "/downloads"))
}

#[test]
fn tell_status_active_matches_golden() {
    assert_eq!(
        ordered(build_active_task().to_aria2()),
        ordered(golden_tell_status_active())
    );
}

#[test]
fn tell_status_complete_matches_golden() {
    assert_eq!(
        ordered(build_complete_task().to_aria2()),
        ordered(golden_tell_status_complete())
    );
}

#[test]
fn tell_status_via_task_manager_matches_golden() {
    let mut tm = test_manager();
    tm.repo.add(build_active_task());
    let out = tm.get("0123456789abcdef").expect("a task on the books").to_aria2();
    assert_eq!(ordered(out), ordered(golden_tell_status_active()));
}

#[test]
fn global_stat_matches_golden() {
    let stat = GlobalStat {
        download_speed: 102_400,
        upload_speed: 0,
        num_active: 1,
        num_waiting: 2,
        num_stopped: 1,
    };
    assert_eq!(ordered(stat.to_aria2_json()), ordered(golden_global_stat()));

    let mut tm = test_manager();
    tm.repo.add(build_active_task());
    tm.repo.add(waiting_task("bbbbbbbbbbbbbbbb", "https://example.com/b.bin", "b.bin"));
    tm.repo.add(waiting_task("cccccccccccccccc", "https://example.com/c.bin", "c.bin"));
    tm.repo.add(build_complete_task());
    assert_eq!(ordered(tm.global_stat().to_aria2_json()), ordered(golden_global_stat()));
}

#[test]
fn get_version_matches_golden_shape() {
    let golden = golden_get_version();
    let version = match golden.get("version") {
        Some(Json::Text(s)) => s.clone(),
        other => panic!("no version: {:?}", other),
    };
    assert!(version.starts_with("1.8.19"));
    assert!(version.contains("(motrix-engine"));
    let features = match golden.get("enabledFeatures") {
        Some(Json::Array(items)) => items,
        other => panic!("no list of features: {:?}", other),
    };
    assert!(!features.is_empty());
    assert!(features.iter().all(|f| matches!(f, Json::Text(_))));
    assert_eq!(version, ENGINE_VERSION);

    assert_eq!(ordered(engine_version()), ordered(golden));
}

#[test]
fn golden_numeric_fields_are_strings() {
    let is_text = |value: &Json, key: &str| matches!(value.get(key), Some(Json::Text(_)));
    let numeric_keys = [
        "totalLength",
        "completedLength",
        "uploadLength",
        "downloadSpeed",
        "uploadSpeed",
        "connections",
        "numSeeders",
    ];
    for golden in [
        golden_tell_status_active(),
        golden_tell_status_complete(),
        build_active_task().to_aria2(),
    ] {
        for key in numeric_keys {
            assert!(is_text(&golden, key), "{}", key);
        }
        let file = match golden.get("files") {
            Some(Json::Array(files)) => &files[0],
            other => panic!("no list of files: {:?}", other),
        };
        for key in ["index", "length", "completedLength", "selected"] {
            assert!(is_text(file, key), "{}", key);
        }
    }
    for key in ["downloadSpeed", "uploadSpeed", "numActive", "numWaiting", "numStopped"] {
        assert!(is_text(&golden_global_stat(), key), "{}", key);
    }
}
