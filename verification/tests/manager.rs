//! The task manager: queueing, running, pausing, seeding and options.

use motrix_core::bt::{BtProgress, TorrentFileMeta, TorrentMeta};
use motrix_core::config::{Platform, SystemConfig};
use motrix_core::engine::{
    file_name_from_uri, join_save_path, normalize_system_patch, plan_uris,
    resolve_finished_bytes, seeding_limit_reached, UriPlan,
};
use motrix_core::gid::generate_gid;
use motrix_core::json::{Json, Number};
use motrix_core::manager::{
    engine_after, preferred_engine, EngineKind, OptionEffect, ResumePlan, StartPlan, StopPlan,
    TaskManager,
};
use motrix_core::options::EngineOptions;
use motrix_core::task::{Task, TaskStatus};

const MAGNET: &str = "magnet:?xt=urn:btih:0123456789abcdef0123456789abcdef01234567";
const HASH: &str = "0123456789abcdef0123456789abcdef01234567";
const NOW: u64 = 1_700_000_000;

fn text(s: &str) -> Json {
    Json::Text(s.to_string())
}

fn object(fields: Vec<(&str, Json)>) -> Json {
    Json::Object(fields.into_iter().map(|(k, v)| (k.to_string(), v)).collect())
}

fn manager(limit: u32) -> TaskManager {
    let mut system = SystemConfig::defaults(Platform::Linux, "/tmp/motrix", "/tmp/dl");
    system.max_concurrent_downloads = limit;
    TaskManager::new(&system)
}

/// Queues a plain download under the given gid.
fn queue(tm: &mut TaskManager, gid: &str, out: &str, total: u64) {
    let options = tm.new_task_options(&object(vec![("out", text(out))]), None);
    tm.add_uri(gid, "http://127.0.0.1:9/file", options, total, NOW);
}

/// Starts whatever may run on the sequential engine.
fn start(tm: &mut TaskManager) -> Option<String> {
    match tm.promote_waiting() {
        Some(plan) => {
            tm.engine_started(&plan.gid, EngineKind::Http);
            Some(plan.gid)
        }
        None => None,
    }
}

fn status(tm: &TaskManager, gid: &str) -> TaskStatus {
    tm.get(gid).expect("a task on the books").status
}

fn event_names(tm: &mut TaskManager) -> Vec<String> {
    tm.take_events().into_iter().map(|e| e.event).collect()
}

fn has<V>(table: &Vec<(String, V)>, gid: &str) -> bool {
    table.iter().any(|(k, _)| k == gid)
}

#[test]
fn max_concurrent_limits_and_promotes() {
    let mut tm = manager(1);
    queue(&mut tm, "one", "one.bin", 512);
    assert_eq!(start(&mut tm), Some("one".to_string()));
    queue(&mut tm, "two", "two.bin", 512);
    assert_eq!(start(&mut tm), None);
    assert_eq!(status(&tm, "one"), TaskStatus::Active);
    assert_eq!(status(&tm, "two"), TaskStatus::Waiting);

    // The end of the first task makes room for the second.
    assert!(tm.handle_finished("one", Some(512)));
    assert_eq!(status(&tm, "one"), TaskStatus::Complete);
    assert_eq!(start(&mut tm), Some("two".to_string()));
    assert!(tm.handle_finished("two", Some(512)));
    assert_eq!(status(&tm, "two"), TaskStatus::Complete);
    assert_eq!(tm.get("two").unwrap().completed_length, 512);
    assert_eq!(tm.get("two").unwrap().files[0].path, "/tmp/dl/two.bin");
}

#[test]
fn resolve_finished_bytes_handles_unknown_total() {
    let uris = vec!["http://127.0.0.1:9/file".to_string()];
    let mut task = Task::new_http_task("a", &uris, "/tmp/dl", "done.bin");
    assert_eq!(task.total_length, 0);
    assert_eq!(resolve_finished_bytes(&task, Some(42)), (42, 42));

    task.total_length = 1234;
    assert_eq!(resolve_finished_bytes(&task, Some(42)), (1234, 1234));

    let missing = Task::new_http_task("b", &uris, "/tmp/dl", "nope.bin");
    assert_eq!(resolve_finished_bytes(&missing, None), (0, 0));
}

#[test]
fn change_global_option_updates_max_concurrent_and_persists() {
    let mut tm = manager(1);
    let patch = tm.change_global_option(
        &object(vec![
            ("max-concurrent-downloads", text("3")),
            ("max-download-limit", text("1M")),
            ("dir", text("/tmp/dl2")),
        ]),
        &vec![("max-concurrent-downloads".to_string(), 3f64.to_bits())],
    );
    assert_eq!(tm.max_concurrent, 3);
    assert_eq!(tm.global.max_download_limit, Some(1024 * 1024));
    assert_eq!(tm.global.dir, "/tmp/dl2");
    assert_eq!(
        patch.get("max-concurrent-downloads"),
        Some(&Json::Number(Number::Unsigned(3)))
    );
}

#[test]
fn change_global_option_lets_at_least_one_task_run() {
    let mut tm = manager(4);
    tm.change_global_option(&object(vec![("max-concurrent-downloads", text("0"))]), &vec![]);
    assert_eq!(tm.max_concurrent, 1);
    tm.change_global_option(&object(vec![("dir", text("/d"))]), &vec![]);
    assert_eq!(tm.max_concurrent, 1);
    let huge = object(vec![("max-concurrent-downloads", text("4294967296"))]);
    tm.change_global_option(&huge, &vec![]);
    assert_eq!(tm.max_concurrent, 1);
    assert_eq!(manager(0).max_concurrent, 1);
}

#[test]
fn file_name_from_uri_extracts_name() {
    assert_eq!(file_name_from_uri("https://example.com/a.zip"), "a.zip");
    assert_eq!(file_name_from_uri("https://example.com/a.zip?x=1"), "a.zip?x=1");
    assert_eq!(file_name_from_uri("https://example.com/"), "download");
    assert_eq!(file_name_from_uri("https://example.com"), "download");
}

#[test]
fn save_paths_have_one_separator() {
    assert_eq!(join_save_path("/dl/", "a/b.bin"), "/dl/a/b.bin");
    assert_eq!(join_save_path("/dl", "b.bin"), "/dl/b.bin");
}

#[test]
fn normalize_system_patch_converts_numeric_strings() {
    let patch = object(vec![
        ("max-concurrent-downloads", text("3")),
        ("max-download-limit", text("1M")),
        ("seed-ratio", text("2.5")),
        ("dir", text("/downloads")),
        ("user-agent", text("UA")),
    ]);
    let readings = vec![
        ("max-concurrent-downloads".to_string(), 3f64.to_bits()),
        ("seed-ratio".to_string(), 2.5f64.to_bits()),
    ];
    let normalized = normalize_system_patch(&patch, &readings);
    let number = |key: &str| match normalized.get(key) {
        Some(Json::Number(n)) => match n {
            Number::Unsigned(n) => *n as f64,
            Number::Negative(n) => *n as f64,
            Number::Float(bits) => f64::from_bits(*bits),
        },
        other => panic!("no number under {}: {:?}", key, other),
    };
    assert_eq!(number("max-concurrent-downloads"), 3.0);
    assert_eq!(number("max-download-limit"), (1024 * 1024) as f64);
    assert_eq!(number("seed-ratio"), 2.5);
    assert_eq!(normalized.get("dir"), Some(&text("/downloads")));
    assert_eq!(normalized.get("user-agent"), Some(&text("UA")));
}

#[test]
fn add_torrent_creates_bt_task_and_purge_clears_removed() {
    let mut tm = manager(1);
    let plan = tm.plan_torrent(MAGNET, &object(vec![]), None, true).expect("a plan");
    assert!(plan.magnet);
    assert_eq!(plan.source, MAGNET);
    assert!(plan.options.keep_seeding);
    assert!(!plan.add.paused);
    let gid = generate_gid(NOW as u128, 0, 7);
    assert_eq!(gid.len(), 16);
    assert!(gid.chars().all(|c| matches!(c, '0'..='9' | 'a'..='f')));
    tm.add_torrent(&gid, MAGNET, plan.options, HASH.to_string(), None, NOW);

    let task = tm.get(&gid).expect("a task on the books");
    let bt = task.bittorrent.as_ref().expect("a torrent");
    assert_eq!(bt.info_hash.as_deref(), Some(HASH));
    assert!(bt.info_name.is_none());
    assert_eq!(task.total_length, 0);
    assert_eq!(task.files[0].uris[0].0, MAGNET);
    let gid3 = generate_gid(NOW as u128, 1, 7);
    assert_ne!(gid3, gid);

    assert!(tm.get("0123456789abcdef").is_none());
    let gid2 = "abcdef0123456789";
    let uris = vec!["http://127.0.0.1:1/x".to_string()];
    tm.repo.add(Task::new_http_task(gid2, &uris, "/tmp", "x.bin"));
    assert_eq!(tm.get(gid2).unwrap().gid, gid2);

    // Only what was removed leaves the history.
    tm.repo.remove(gid2);
    assert!(!tm.repo.stopped().is_empty());
    tm.purge();
    assert!(tm.repo.stopped().is_empty());
    assert!(tm.repo.contains(&gid));
}

#[test]
fn add_torrent_of_nothing_is_refused() {
    let tm = manager(1);
    assert_eq!(
        tm.plan_torrent("  ", &object(vec![]), None, false),
        Err("add_torrent 需要一个 magnet 链接或 base64 编码的 .torrent 内容".to_string())
    );
    let plan = tm
        .plan_torrent("ZDQ=", &object(vec![("keep-seeding", Json::Bool(true))]), None, false)
        .expect("a plan");
    assert!(!plan.magnet);
    assert!(plan.options.keep_seeding);
}

#[test]
fn add_uri_routes_magnet_to_bt_engine() {
    let magnet = "magnet:?xt=urn:btih:deadbeefdeadbeefdeadbeefdeadbeefdeadbeef".to_string();
    assert_eq!(plan_uris(&vec![magnet.clone()]), Ok(vec![UriPlan::Magnet(magnet.clone())]));

    let plans = plan_uris(&vec![magnet.clone(), "http://127.0.0.1:9/file".to_string()])
        .expect("two sources");
    assert_eq!(plans.len(), 2);
    assert_eq!(plans[0], UriPlan::Magnet(magnet.clone()));
    assert!(matches!(&plans[1], UriPlan::Plain { uri, .. } if uri == "http://127.0.0.1:9/file"));

    let mut tm = manager(1);
    let plan = tm.plan_torrent(&magnet, &object(vec![]), None, false).expect("a plan");
    let hash = "deadbeefdeadbeefdeadbeefdeadbeefdeadbeef".to_string();
    tm.add_torrent("g", &magnet, plan.options, hash, None, NOW);
    let task = tm.get("g").expect("a task on the books");
    assert!(task.bittorrent.expect("a torrent").info_name.is_none());
    assert_eq!(task.total_length, 0);
}

#[test]
fn add_uri_of_nothing_is_refused() {
    assert_eq!(plan_uris(&vec![]), Err("add_uri 需要一个非空的 URL 数组".to_string()));
    assert_eq!(
        plan_uris(&vec!["".to_string(), " ".to_string()]),
        Err("add_uri 的 URL 列表均为空".to_string())
    );
}

#[test]
fn resume_bt_task_after_restart_lazily_creates_engine() {
    let mut tm = manager(1);
    let gid = "aaaa1111bbbb2222";
    let mut task = Task::new_bt_task(gid, MAGNET, "/tmp/dl", Some(HASH.to_string()));
    task.status = TaskStatus::Paused;
    tm.repo.add(task);
    assert!(!tm.bt_ready);

    assert_eq!(tm.resume(gid), Ok(ResumePlan::Torrent));
    // The source comes from the files of the task, for no record of it is left.
    let (source, add) = tm.torrent_source(gid).expect("a source");
    assert_eq!(source, MAGNET);
    assert_eq!(add.dir, "/tmp/dl");
    tm.bt_engine_started();
    tm.bt_started(gid);
    assert!(tm.bt_ready);
    assert_eq!(status(&tm, gid), TaskStatus::Active);
    assert!(has(&tm.bt_active, gid));
}

#[test]
fn resume_restored_task_falls_back_to_files_uris() {
    let mut tm = manager(1);
    let gid = "fedcba9876543210";
    let uris = vec!["http://127.0.0.1:9/file".to_string()];
    let mut task = Task::new_http_task(gid, &uris, "/tmp/dl", "restored.bin");
    task.status = TaskStatus::Paused;
    task.total_length = 50_000;
    task.completed_length = 10_000;
    tm.repo.add(task);

    assert_eq!(tm.resume(gid), Ok(ResumePlan::Transfer));
    assert_eq!(status(&tm, gid), TaskStatus::Active);
    let transfer = tm.transfer(gid).expect("a transfer");
    assert_eq!(transfer.url, "http://127.0.0.1:9/file");
    assert_eq!(transfer.options.dir, "/tmp/dl");
    assert_eq!(transfer.options.out.as_deref(), Some("restored.bin"));
    assert_eq!(tm.existing_bytes(gid), 10_000);
}

#[test]
fn progress_reports_computed_download_speed() {
    let mut tm = manager(1);
    queue(&mut tm, "g", "speed.bin", 1_048_576);
    start(&mut tm);
    tm.handle_progress("g", 65_536, 0, 1_000);
    assert_eq!(tm.get("g").unwrap().completed_length, 65_536);
    assert_eq!(tm.get("g").unwrap().download_speed, 0);
    // Too soon for another sample.
    tm.handle_progress("g", 131_072, 0, 1_050);
    assert_eq!(tm.get("g").unwrap().download_speed, 0);
    // 131072 bytes in a fifth of a second.
    tm.handle_progress("g", 196_608, 0, 1_200);
    assert_eq!(tm.get("g").unwrap().download_speed, 655_360);

    assert!(tm.handle_finished("g", Some(1_048_576)));
    assert_eq!(tm.get("g").unwrap().download_speed, 0);
    assert!(!has(&tm.speed_samples, "g"));
}

#[test]
fn without_a_length_the_speed_is_the_engines() {
    let mut tm = manager(1);
    queue(&mut tm, "g", "a.bin", 0);
    start(&mut tm);
    tm.handle_progress("g", 10, 77, 1_000);
    assert_eq!(tm.get("g").unwrap().download_speed, 77);
    assert_eq!(tm.get("g").unwrap().completed_length, 0);
    assert!(tm.speed_samples.is_empty());
}

#[test]
fn pause_frees_the_slot_and_resume_waits_for_one() {
    let mut tm = manager(1);
    queue(&mut tm, "one", "one.bin", 100);
    queue(&mut tm, "two", "two.bin", 100);
    assert_eq!(start(&mut tm), Some("one".to_string()));
    assert_eq!(tm.release_engine("one"), StopPlan::Engine(EngineKind::Http));
    assert_eq!(tm.pause("one"), Ok(()));
    assert_eq!(status(&tm, "one"), TaskStatus::Paused);
    assert_eq!(start(&mut tm), Some("two".to_string()));

    // The slot is taken, so the task is queued again.
    assert_eq!(tm.resume("one"), Ok(ResumePlan::Nothing));
    assert_eq!(status(&tm, "one"), TaskStatus::Waiting);
    assert!(tm.handle_finished("two", None));
    assert_eq!(start(&mut tm), Some("one".to_string()));
    assert!(tm.handle_finished("one", None));
    assert_eq!(
        event_names(&mut tm),
        vec!["start", "pause", "start", "complete", "start", "complete"]
    );
    assert!(tm.take_events().is_empty());
}

#[test]
fn late_reports_of_a_stopped_task_change_nothing() {
    let mut tm = manager(1);
    queue(&mut tm, "g", "a.bin", 100);
    start(&mut tm);
    tm.handle_progress("g", 40, 0, 1_000);
    tm.release_engine("g");
    tm.pause("g").expect("a running task");
    tm.take_events();
    tm.handle_progress("g", 90, 0, 2_000);
    assert!(!tm.handle_finished("g", Some(100)));
    assert!(!tm.handle_failed("g", "broken"));
    let task = tm.get("g").unwrap();
    assert_eq!(task.status, TaskStatus::Paused);
    assert_eq!(task.completed_length, 40);
    assert!(tm.take_events().is_empty());
}

#[test]
fn a_failed_transfer_says_why() {
    let mut tm = manager(1);
    queue(&mut tm, "g", "a.bin", 100);
    start(&mut tm);
    assert!(tm.handle_failed("g", "connection refused"));
    let task = tm.get("g").unwrap();
    assert_eq!(task.status, TaskStatus::Error);
    assert_eq!(task.error_code, Some(1));
    assert_eq!(task.error_message.as_deref(), Some("connection refused"));
    assert!(!has(&tm.active, "g"));
    assert_eq!(event_names(&mut tm), vec!["start", "error"]);
}

#[test]
fn remove_takes_a_task_off_the_books() {
    let mut tm = manager(2);
    queue(&mut tm, "g", "a.bin", 100);
    assert_eq!(tm.first_path("g"), Some("/tmp/dl/a.bin".to_string()));
    assert_eq!(tm.release_engine("g"), StopPlan::Idle);
    assert_eq!(tm.remove("g"), Ok(()));
    assert!(tm.get("g").is_none());
    assert!(!has(&tm.task_uris, "g"));
    assert!(!has(&tm.task_options, "g"));
    assert_eq!(tm.repo.stopped().len(), 1);
    assert_eq!(tm.remove("g"), Err("任务不存在: g".to_string()));
    assert_eq!(tm.pause("g"), Err("任务不存在: g".to_string()));
    assert_eq!(tm.resume("g"), Err("任务不存在: g".to_string()));
}

#[test]
fn a_finished_task_is_not_resumed() {
    let mut tm = manager(1);
    queue(&mut tm, "g", "a.bin", 100);
    start(&mut tm);
    assert_eq!(tm.resume("g"), Ok(ResumePlan::Nothing));
    tm.handle_finished("g", None);
    assert_eq!(
        tm.resume("g"),
        Err("无法恢复任务（当前状态不支持）: gid=g".to_string())
    );
}

#[test]
fn engines_are_tried_in_turn() {
    assert_eq!(preferred_engine("http://a/b"), EngineKind::FastDown);
    assert_eq!(preferred_engine("https://a/b"), EngineKind::FastDown);
    assert_eq!(preferred_engine("ftp://a/b"), EngineKind::Kget);
    assert_eq!(engine_after(EngineKind::FastDown, "no"), Ok(EngineKind::Http));
    assert_eq!(engine_after(EngineKind::Http, "no"), Err("启动下载失败: no".to_string()));
    assert_eq!(engine_after(EngineKind::Kget, "no"), Err("启动下载失败: no".to_string()));
}

#[test]
fn the_oldest_task_is_started_first() {
    let mut tm = manager(3);
    for gid in ["c", "a", "b"] {
        queue(&mut tm, gid, gid, 1);
    }
    assert_eq!(tm.promote_waiting(), Some(StartPlan { gid: "c".to_string(), bt: false }));
    tm.start_failed("c", "no engine");
    assert_eq!(status(&tm, "c"), TaskStatus::Error);
    assert_eq!(start(&mut tm), Some("a".to_string()));
    assert_eq!(start(&mut tm), Some("b".to_string()));
    assert_eq!(start(&mut tm), None);
    assert_eq!(tm.global_stat().num_active, 2);
}

#[test]
fn metadata_of_a_magnet_link_fills_its_task() {
    let mut tm = manager(1);
    let plan = tm
        .plan_torrent(MAGNET, &object(vec![("select-file", text("2"))]), None, false)
        .expect("a plan");
    tm.add_torrent("g", MAGNET, plan.options, HASH.to_string(), None, NOW);
    let meta = TorrentMeta {
        info_hash: HASH.to_string(),
        name: Some("album".to_string()),
        mode: "multi".to_string(),
        total_length: 30,
        files: vec![
            TorrentFileMeta { index: 1, path: "album/a.mp3".to_string(), length: 10 },
            TorrentFileMeta { index: 2, path: "album/b.mp3".to_string(), length: 20 },
        ],
        announce_list: vec!["udp://tracker".to_string()],
    };
    tm.bt_metadata_ready("g", &meta);
    let task = tm.get("g").unwrap();
    assert_eq!(task.total_length, 30);
    assert_eq!(task.files.len(), 2);
    assert_eq!(task.files[0].path, "/tmp/dl/album/a.mp3");
    assert!(!task.files[0].selected);
    assert!(task.files[1].selected);
    assert_eq!(task.bittorrent.unwrap().info_name.as_deref(), Some("album"));
}

/// Puts a torrent on the books, with plain options.
fn inject_bt_task(tm: &mut TaskManager, gid: &str) {
    tm.repo.add(Task::new_bt_task(gid, MAGNET, "/tmp/dl", Some(HASH.to_string())));
    tm.task_options.push((gid.to_string(), EngineOptions::default()));
}

/// Puts a seeding torrent on the books that began to seed at millisecond `0`.
fn inject_seeding_task(
    tm: &mut TaskManager,
    gid: &str,
    seed_ratio: Option<f64>,
    seed_time: Option<u32>,
    total: u64,
) {
    let mut task = Task::new_bt_task(gid, MAGNET, "/tmp/dl", Some(HASH.to_string()));
    task.status = TaskStatus::Seeding;
    task.total_length = total;
    task.completed_length = total;
    tm.repo.add(task);
    let mut options = EngineOptions::default();
    options.keep_seeding = true;
    options.seed_ratio = seed_ratio.map(f64::to_bits);
    options.seed_time = seed_time;
    tm.task_options.push((gid.to_string(), options));
    tm.bt_seed_started.push((gid.to_string(), 0));
    tm.bt_active.push((gid.to_string(), ()));
    tm.bt_done.push((gid.to_string(), ()));
}

fn seeding_progress(total: u64, uploaded: u64) -> BtProgress {
    BtProgress {
        completed: total,
        total,
        uploaded_bytes: uploaded,
        download_speed: 0,
        upload_speed: 0,
        num_seeders: 1,
        seeder: true,
        bitfield: String::new(),
        file_progress: vec![total],
        finished: true,
    }
}

fn options_of<'a>(tm: &'a TaskManager, gid: &str) -> &'a EngineOptions {
    &tm.task_options.iter().find(|(k, _)| k == gid).expect("options on record").1
}

#[test]
fn change_option_select_file_dispatches_to_bt() {
    let mut tm = manager(1);
    let gid = "0123456789abcdef";
    inject_bt_task(&mut tm, gid);
    let err = tm
        .change_option(gid, &object(vec![("select-file", text("1,3"))]), None)
        .expect_err("no engine yet");
    assert!(err.contains("BT 引擎未初始化"));
    assert_eq!(options_of(&tm, gid).only_files, Some(vec![0, 2]));

    tm.bt_engine_started();
    assert_eq!(
        tm.change_option(gid, &object(vec![("select-file", text("2"))]), None),
        Ok(OptionEffect::SelectFiles(vec![1]))
    );
}

#[test]
fn change_option_select_file_ignored_for_http() {
    let mut tm = manager(1);
    let gid = "fedcba9876543210";
    let uris = vec!["http://127.0.0.1:9/x".to_string()];
    tm.repo.add(Task::new_http_task(gid, &uris, "/tmp", "x.bin"));
    tm.task_options.push((gid.to_string(), EngineOptions::default()));
    assert_eq!(
        tm.change_option(gid, &object(vec![("select-file", text("1,2"))]), None),
        Ok(OptionEffect::Nothing)
    );
    assert_eq!(options_of(&tm, gid).only_files, Some(vec![0, 1]));
    assert_eq!(
        tm.change_option("nobody", &object(vec![]), None),
        Err("任务不存在: nobody".to_string())
    );
}

fn limit_reached(
    ratio: Option<f64>,
    time: Option<u32>,
    uploaded: u64,
    total: u64,
    elapsed: u64,
) -> bool {
    seeding_limit_reached(ratio.map(f64::to_bits), time, uploaded, total, elapsed)
}

#[test]
fn seeding_limit_reached_pure_logic() {
    assert!(!limit_reached(None, None, 999, 1000, 99999));
    assert!(!limit_reached(None, Some(10), 0, 1000, 9));
    assert!(limit_reached(None, Some(10), 0, 1000, 10));
    assert!(limit_reached(None, Some(10), 0, 1000, 11));
    assert!(!limit_reached(Some(2.0), None, 1999, 1000, 0));
    assert!(limit_reached(Some(2.0), None, 2000, 1000, 0));
    assert!(limit_reached(Some(2.0), None, 3000, 1000, 0));
    assert!(!limit_reached(Some(2.0), None, 999, 0, 0));
    assert!(!limit_reached(Some(2.0), None, 999, 0, 5));
    assert!(limit_reached(Some(2.0), Some(5), 999, 0, 5));
    assert!(limit_reached(Some(1.5), Some(999), 1500, 1000, 1));
    assert!(limit_reached(Some(999.0), Some(60), 0, 1000, 60));
}

#[test]
fn seeding_ratio_is_the_quotient_of_doubles() {
    let counts: [u64; 9] = [
        1,
        3,
        7,
        1000,
        1_048_577,
        9_007_199_254_740_993,
        123_456_789_012_345_678,
        u64::MAX - 1,
        u64::MAX,
    ];
    let limits = [0.1, 0.3, 1.0, 2.0 / 3.0, 1.5, 2.0, 1e-300, 1e300, -1.0, 0.0];
    for up in counts {
        for total in counts {
            let quotient = up as f64 / total as f64;
            for limit in limits {
                assert_eq!(limit_reached(Some(limit), None, up, total, 0), quotient >= limit);
            }
            assert!(limit_reached(Some(quotient), None, up, total, 0));
            assert!(!limit_reached(Some(quotient.next_up()), None, up, total, 0));
            assert!(!limit_reached(Some(f64::NAN), None, up, total, 0));
            assert!(!limit_reached(Some(f64::INFINITY), None, up, total, 0));
        }
    }
}

#[test]
fn bt_update_progress_ends_seeding_when_time_limit_reached() {
    let mut tm = manager(1);
    let gid = "0123456789abcdef";
    inject_seeding_task(&mut tm, gid, None, Some(1), 1000);
    tm.bt_update_progress(gid, &seeding_progress(1000, 0), 2_000);
    assert_eq!(status(&tm, gid), TaskStatus::Complete);
    assert_eq!(event_names(&mut tm), vec!["bt-complete"]);
    assert!(!has(&tm.bt_active, gid));
    assert!(!has(&tm.bt_seed_started, gid));
}

#[test]
fn bt_update_progress_ends_seeding_when_ratio_limit_reached() {
    let mut tm = manager(1);
    let gid = "0123456789abcdef";
    inject_seeding_task(&mut tm, gid, Some(2.0), None, 1000);
    tm.bt_update_progress(gid, &seeding_progress(1000, 2000), 0);
    assert_eq!(status(&tm, gid), TaskStatus::Complete);
    assert_eq!(event_names(&mut tm), vec!["bt-complete"]);
}

#[test]
fn bt_update_progress_keeps_seeding_before_limit() {
    let mut tm = manager(1);
    let gid = "0123456789abcdef";
    inject_seeding_task(&mut tm, gid, Some(10.0), Some(60), 1000);
    tm.bt_update_progress(gid, &seeding_progress(1000, 100), 1_000);
    assert_eq!(status(&tm, gid), TaskStatus::Seeding);
    assert!(has(&tm.bt_seed_started, gid));
    assert!(has(&tm.bt_active, gid));
    assert!(tm.take_events().is_empty());
}

#[test]
fn bt_update_progress_keeps_seeding_without_limits() {
    let mut tm = manager(1);
    let gid = "0123456789abcdef";
    inject_seeding_task(&mut tm, gid, None, None, 1000);
    tm.bt_update_progress(gid, &seeding_progress(1000, 99999), 30_000);
    assert_eq!(status(&tm, gid), TaskStatus::Seeding);
}

#[test]
fn bt_update_progress_enters_seeding_records_start_time() {
    let mut tm = manager(1);
    let gid = "0123456789abcdef";
    let mut task = Task::new_bt_task(gid, MAGNET, "/tmp/dl", Some(HASH.to_string()));
    task.status = TaskStatus::Active;
    task.total_length = 1000;
    task.completed_length = 1000;
    tm.repo.add(task);
    let mut options = EngineOptions::default();
    options.keep_seeding = true;
    tm.task_options.push((gid.to_string(), options));
    tm.bt_active.push((gid.to_string(), ()));
    tm.bt_update_progress(gid, &seeding_progress(1000, 0), 5_000);
    assert_eq!(status(&tm, gid), TaskStatus::Seeding);
    assert_eq!(tm.bt_seed_started, vec![(gid.to_string(), 5_000)]);
    assert!(has(&tm.bt_active, gid));
}

#[test]
fn a_torrent_that_is_not_to_seed_ends_when_it_is_there() {
    let mut tm = manager(1);
    let gid = "0123456789abcdef";
    inject_bt_task(&mut tm, gid);
    assert_eq!(tm.promote_waiting(), Some(StartPlan { gid: gid.to_string(), bt: true }));
    tm.bt_started(gid);
    tm.take_events();
    assert!(tm.bt_update_progress(gid, &seeding_progress(1000, 0), 5_000));
    assert_eq!(status(&tm, gid), TaskStatus::Complete);
    assert!(!has(&tm.bt_active, gid));
}

#[test]
fn a_removed_task_leaves_nothing_behind() {
    let mut tm = manager(2);
    queue(&mut tm, "a", "a.bin", 100);
    start(&mut tm);
    tm.handle_progress("a", 10, 0, 1_000);
    assert_eq!(tm.release_engine("a"), StopPlan::Engine(EngineKind::Http));
    tm.take_events();
    assert_eq!(tm.remove("a"), Ok(()));
    assert!(tm.get("a").is_none());
    assert!(!has(&tm.active, "a"));
    assert!(!has(&tm.task_uris, "a"));
    assert!(!has(&tm.task_options, "a"));
    assert!(!has(&tm.speed_samples, "a"));
    assert_eq!(event_names(&mut tm), vec!["stop"]);
    assert_eq!(tm.remove("a"), Err("任务不存在: a".to_string()));

    let gid = "0123456789abcdef";
    inject_seeding_task(&mut tm, gid, None, None, 1000);
    assert_eq!(tm.release_engine(gid), StopPlan::Torrent);
    assert_eq!(tm.remove_bt(gid), Ok(()));
    assert!(tm.get(gid).is_none());
    assert!(!has(&tm.task_options, gid));
    assert!(!has(&tm.bt_active, gid));
    assert!(!has(&tm.bt_done, gid));
    assert!(!has(&tm.bt_seed_started, gid));
    assert_eq!(event_names(&mut tm), vec!["stop"]);
    assert_eq!(tm.remove_bt(gid), Err(format!("任务不存在: {gid}")));
}

#[test]
fn a_report_touches_one_task() {
    let mut tm = manager(2);
    queue(&mut tm, "a", "a.bin", 100);
    queue(&mut tm, "b", "b.bin", 200);
    start(&mut tm);
    start(&mut tm);
    tm.handle_progress("a", 60, 7, 1_000);
    assert_eq!(tm.get("a").unwrap().completed_length, 60);
    assert_eq!(tm.get("b").unwrap().completed_length, 0);
    assert_eq!(tm.get("b").unwrap().total_length, 200);
}

#[test]
fn a_started_engine_holds_one_connection() {
    let mut tm = manager(1);
    queue(&mut tm, "a", "a.bin", 100);
    start(&mut tm);
    tm.handle_started("a");
    assert_eq!(tm.get("a").unwrap().connections, 1);
    tm.release_engine("a");
    tm.pause("a").expect("a pause");
    tm.handle_progress("a", 50, 9, 5_000);
    assert_eq!(tm.get("a").unwrap().completed_length, 0);
}

#[test]
fn a_running_torrent_is_paused_and_a_seeding_one_is_not() {
    let mut tm = manager(1);
    let gid = "0123456789abcdef";
    inject_bt_task(&mut tm, gid);
    tm.promote_waiting();
    tm.bt_started(gid);
    assert!(has(&tm.bt_active, gid));
    tm.take_events();
    assert_eq!(tm.begin_pause(gid), Ok(StopPlan::Torrent));
    assert_eq!(tm.pause_bt(gid), Ok(()));
    assert_eq!(status(&tm, gid), TaskStatus::Paused);
    assert!(!has(&tm.bt_active, gid));
    assert_eq!(event_names(&mut tm), vec!["pause"]);
    assert_eq!(tm.pause_bt(gid), Ok(()));
    assert!(tm.take_events().is_empty());
    assert_eq!(tm.pause_bt("nobody"), Err("任务不存在: nobody".to_string()));

    let seeding = "fedcba9876543210";
    inject_seeding_task(&mut tm, seeding, None, None, 1000);
    assert_eq!(
        tm.begin_pause(seeding),
        Err(format!("无法暂停任务（当前状态不支持）: gid={seeding}"))
    );
    assert!(has(&tm.bt_active, seeding));
    assert_eq!(
        tm.pause_bt(seeding),
        Err(format!("无法暂停任务（当前状态不支持）: gid={seeding}"))
    );
    assert_eq!(status(&tm, seeding), TaskStatus::Seeding);
    assert!(has(&tm.bt_seed_started, seeding));
}

#[test]
fn files_of_paused_tasks() {
    let mut tm = manager(1);
    queue(&mut tm, "a", "a.bin", 100);
    assert_eq!(tm.truncate_target("a"), None);
    assert_eq!(tm.cleanup_target("a"), Some("/tmp/dl/a.bin".to_string()));
    start(&mut tm);
    tm.handle_progress("a", 40, 0, 1_000);
    assert_eq!(tm.truncate_target("a"), Some(("/tmp/dl/a.bin".to_string(), 40)));
    assert!(tm.is_preallocated("a", 100));
    assert!(!tm.is_preallocated("a", 99));
    tm.handle_finished("a", Some(100));
    assert!(!tm.is_preallocated("a", 100));
    assert_eq!(tm.truncate_target("nobody"), None);
    assert_eq!(tm.cleanup_target("nobody"), None);
    assert!(!tm.is_preallocated("nobody", 1));
}

#[test]
fn a_magnet_link_that_cannot_be_added_fails() {
    let mut tm = manager(1);
    let gid = "0123456789abcdef";
    inject_bt_task(&mut tm, gid);
    tm.bt_add_failed(gid, "no peers");
    assert_eq!(status(&tm, gid), TaskStatus::Error);
    assert_eq!(tm.get(gid).unwrap().error_message.as_deref(), Some("no peers"));
    assert_eq!(event_names(&mut tm), vec!["error"]);
}

#[test]
fn metadata_is_taken_over_once() {
    let mut tm = manager(1);
    let gid = "0123456789abcdef";
    inject_bt_task(&mut tm, gid);
    let meta = |name: &str| TorrentMeta {
        info_hash: HASH.to_string(),
        name: Some(name.to_string()),
        mode: "single".to_string(),
        total_length: 10,
        files: vec![TorrentFileMeta { index: 1, path: name.to_string(), length: 10 }],
        announce_list: vec![],
    };
    tm.apply_bt_meta_if_pending(gid, &meta("first"));
    tm.apply_bt_meta_if_pending(gid, &meta("second"));
    let task = tm.get(gid).unwrap();
    assert_eq!(task.bittorrent.unwrap().info_name.as_deref(), Some("first"));
    assert_eq!(task.files[0].path, "/tmp/dl/first");
    tm.apply_bt_meta_if_pending("nobody", &meta("third"));
}

#[test]
fn a_torrent_session_starts_with_the_options_of_its_task() {
    let mut tm = manager(1);
    let gid = "0123456789abcdef";
    inject_bt_task(&mut tm, gid);
    assert_eq!(tm.bt_session_options(gid).dir, EngineOptions::default().dir);
    assert_eq!(tm.bt_session_options("nobody").dir, "/tmp/dl");
    assert_ne!(EngineOptions::default().dir, "/tmp/dl");
}

#[test]
fn speeds_beyond_any_count_are_found() {
    let mut tm = manager(3);
    let huge = u64::MAX / 2;
    queue(&mut tm, "a", "a.bin", huge);
    start(&mut tm);
    assert!(tm.can_report("a", 0, 1_000));
    tm.handle_progress("a", 0, 0, 1_000);
    assert!(tm.can_report("a", 1 << 40, 3_000));
    assert!(!tm.can_report("a", huge, 3_000));
    assert!(tm.can_report("nobody", huge, 3_000));

    assert!(tm.repo.speeds_fit());
    for gid in ["x", "y"] {
        let mut task = Task::new_http_task(gid, &vec!["http://a/b".to_string()], "/tmp", "b");
        task.status = TaskStatus::Active;
        task.download_speed = u64::MAX;
        tm.repo.add(task);
    }
    assert!(!tm.repo.speeds_fit());
}

#[test]
fn a_forced_pause_is_a_pause() {
    let mut tm = manager(1);
    queue(&mut tm, "a", "a.bin", 100);
    start(&mut tm);
    tm.release_engine("a");
    tm.take_events();
    assert_eq!(tm.force_pause("a"), Ok(()));
    assert_eq!(status(&tm, "a"), TaskStatus::Paused);
    assert_eq!(event_names(&mut tm), vec!["pause"]);
    assert_eq!(tm.force_pause("b"), Err("任务不存在: b".to_string()));
}

#[test]
fn a_pause_that_is_refused_stops_nothing() {
    let mut tm = manager(1);
    queue(&mut tm, "a", "a.bin", 100);
    start(&mut tm);
    assert_eq!(tm.begin_pause("a"), Ok(StopPlan::Engine(EngineKind::Http)));
    assert_eq!(tm.begin_pause("a"), Ok(StopPlan::Idle));
    assert_eq!(tm.begin_pause("nobody"), Err("任务不存在: nobody".to_string()));
    tm.handle_finished("a", Some(100));
    assert_eq!(
        tm.begin_pause("a"),
        Err("无法暂停任务（当前状态不支持）: gid=a".to_string())
    );
}

#[test]
fn torrents_take_up_room_when_a_transfer_is_resumed() {
    let mut tm = manager(1);
    queue(&mut tm, "a", "a.bin", 100);
    start(&mut tm);
    tm.begin_pause("a").expect("a pause");
    tm.pause("a").expect("a pause");
    let gid = "0123456789abcdef";
    inject_bt_task(&mut tm, gid);
    tm.promote_waiting();
    tm.bt_started(gid);
    tm.take_events();
    assert!(tm.active.is_empty());
    assert_eq!(tm.resume("a"), Ok(ResumePlan::Nothing));
    assert_eq!(status(&tm, "a"), TaskStatus::Waiting);
    assert!(tm.take_events().is_empty());
    assert_eq!(tm.remove_bt(gid), Ok(()));
    assert_eq!(start(&mut tm), Some("a".to_string()));
}

#[test]
fn a_queued_torrent_that_is_there_seeds() {
    let mut tm = manager(1);
    let gid = "0123456789abcdef";
    inject_bt_task(&mut tm, gid);
    tm.task_options[0].1.keep_seeding = true;
    assert_eq!(status(&tm, gid), TaskStatus::Waiting);
    assert!(!tm.bt_update_progress(gid, &seeding_progress(1000, 0), 7_000));
    assert_eq!(status(&tm, gid), TaskStatus::Seeding);
    assert_eq!(event_names(&mut tm), vec!["complete"]);
    assert_eq!(tm.bt_seed_started, vec![(gid.to_string(), 7_000)]);
}

#[test]
fn a_paused_magnet_link_that_cannot_be_added_fails() {
    let mut tm = manager(1);
    let gid = "0123456789abcdef";
    inject_bt_task(&mut tm, gid);
    tm.pause_bt(gid).expect("a pause");
    tm.bt_add_failed(gid, "no peers");
    assert_eq!(status(&tm, gid), TaskStatus::Error);
}
