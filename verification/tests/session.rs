//! Sessions: saving tasks, taking them up, and files of an older program.

use motrix_core::config::Platform;
use motrix_core::path::{file_name, join_name, parent_of, strip_dir};
use motrix_core::repository::TaskRepository;
use motrix_core::session::{
    checkpoint_tasks, found_session, out_from_path, parse_aria2_session, readable_tasks,
    restore_checkpoint, restore_session, CheckpointTask, ImportedTask, SavedSession,
};
use motrix_core::task::{Task, TaskStatus};

#[test]
fn parse_aria2_session_parses_lines_and_skips_bad() {
    let content = "0123456789abcdef complete /downloads/a.zip https://example.com/a.zip\n\
fedcba9876543210 waiting /downloads/b.bin https://example.com/b.bin https://mirror.example.com/b.bin\n\
aabbccddeeff0011 paused /downloads/c.mp4\n\
\n\
abc123\n\
deadbeefdeadbeef unknown /tmp/x.zip https://example.com/x.zip\n";
    let tasks = parse_aria2_session(content);
    assert_eq!(tasks.len(), 3);

    assert_eq!(tasks[0].gid, "0123456789abcdef");
    assert_eq!(tasks[0].status, "complete");
    assert_eq!(tasks[0].path, "/downloads/a.zip");
    assert_eq!(tasks[0].urls, vec!["https://example.com/a.zip"]);

    assert_eq!(tasks[1].status, "waiting");
    assert_eq!(
        tasks[1].urls,
        vec![
            "https://example.com/b.bin".to_string(),
            "https://mirror.example.com/b.bin".to_string()
        ]
    );

    assert_eq!(tasks[2].status, "paused");
    assert!(tasks[2].urls.is_empty());
}

#[test]
fn parse_aria2_session_tolerates_crlf_and_whitespace() {
    let content = "  0123456789abcdef complete /downloads/a.zip https://example.com/a.zip  \r\n\
fedcba9876543210 waiting /downloads/b.bin https://example.com/b.bin\r\n";
    let tasks = parse_aria2_session(content);
    assert_eq!(tasks.len(), 2);
    assert_eq!(tasks[0].gid, "0123456789abcdef");
    assert_eq!(tasks[0].urls, vec!["https://example.com/a.zip"]);
    assert_eq!(tasks[1].status, "waiting");
}

#[test]
fn checkpoint_keeps_state_progress_and_urls() {
    let mut repo = TaskRepository::new();

    let urls_a = vec!["https://example.com/a.zip".to_string()];
    let mut a = Task::new_http_task("aaaaaaaaaaaaaaaa", &urls_a, "/downloads", "a.zip");
    a.status = TaskStatus::Complete;
    a.total_length = 1000;
    a.completed_length = 1000;
    a.created_at = 111;

    let urls_b = vec![
        "https://example.com/b.bin".to_string(),
        "https://mirror.example.com/b.bin".to_string(),
    ];
    let mut b = Task::new_http_task("bbbbbbbbbbbbbbbb", &urls_b, "/downloads", "b.bin");
    b.total_length = 2000;
    b.completed_length = 500;
    b.created_at = 222;

    let urls_c = vec!["https://example.com/c.mp4".to_string()];
    let mut c = Task::new_http_task("cccccccccccccccc", &urls_c, "/downloads", "c.mp4");
    c.status = TaskStatus::Error;
    c.error_message = Some("下载失败: timeout".to_string());
    c.total_length = 3000;
    c.completed_length = 100;
    c.created_at = 333;

    repo.add(a);
    repo.add(b);
    repo.add(c);

    let exported = checkpoint_tasks(Platform::Linux, &repo);
    assert_eq!(exported.len(), 3);

    let mut repo2 = TaskRepository::new();
    restore_checkpoint(&mut repo2, exported);
    assert_eq!(repo2.all().len(), 3);

    let a2 = repo2.get("aaaaaaaaaaaaaaaa").unwrap();
    assert_eq!(a2.status, TaskStatus::Complete);
    assert_eq!(a2.total_length, 1000);
    assert_eq!(a2.completed_length, 1000);
    assert_eq!(a2.created_at, 111);
    assert_eq!(a2.files[0].uris[0].0, "https://example.com/a.zip");
    assert_eq!(a2.files[0].path, "/downloads/a.zip");

    let b2 = repo2.get("bbbbbbbbbbbbbbbb").unwrap();
    assert_eq!(b2.status, TaskStatus::Waiting);
    assert_eq!(b2.total_length, 2000);
    assert_eq!(b2.completed_length, 500);
    assert_eq!(b2.created_at, 222);
    assert_eq!(b2.files[0].uris.len(), 2);
    assert_eq!(b2.files[0].uris[1].0, "https://mirror.example.com/b.bin");

    let c2 = repo2.get("cccccccccccccccc").unwrap();
    assert_eq!(c2.status, TaskStatus::Error);
    assert_eq!(c2.total_length, 3000);
    assert_eq!(c2.completed_length, 100);
    assert_eq!(c2.error_message.as_deref(), Some("下载失败: timeout"));
    assert_eq!(c2.created_at, 333);
}

#[test]
fn checkpoint_keeps_bt_fields() {
    let info_hash = "c0ffeec0ffeec0ffeec0ffeec0ffeec0ffeeabcd";
    let magnet = format!("magnet:?xt=urn:btih:{info_hash}");

    let mut repo = TaskRepository::new();
    let mut bt1 = Task::new_bt_task(
        "bt00000000000001",
        &magnet,
        "/downloads",
        Some(info_hash.to_string()),
    );
    bt1.total_length = 1000;
    bt1.completed_length = 400;
    bt1.bitfield = "05f".to_string();
    bt1.created_at = 111;

    let mut bt2 = Task::new_bt_task(
        "bt00000000000002",
        &magnet,
        "/downloads",
        Some(info_hash.to_string()),
    );
    bt2.total_length = 1000;
    bt2.completed_length = 1000;
    bt2.status = TaskStatus::Seeding;
    bt2.created_at = 222;

    repo.add(bt1);
    repo.add(bt2);

    let exported = checkpoint_tasks(Platform::Linux, &repo);
    assert_eq!(exported.len(), 2);
    assert!(exported.iter().all(|c| c.is_bt));
    assert!(exported
        .iter()
        .all(|c| c.info_hash.as_deref() == Some(info_hash)));
    assert_eq!(exported[0].piece_bitmap.as_deref(), Some("05f"));
    assert_eq!(exported[1].piece_bitmap, None);
    assert_eq!(exported[0].urls, vec![magnet.clone()]);

    let mut repo2 = TaskRepository::new();
    restore_checkpoint(&mut repo2, exported);
    assert_eq!(repo2.all().len(), 2);

    let r1 = repo2.get("bt00000000000001").unwrap();
    assert_eq!(r1.status, TaskStatus::Waiting);
    assert_eq!(r1.total_length, 1000);
    assert_eq!(r1.completed_length, 400);
    assert_eq!(r1.bitfield, "05f");
    assert_eq!(r1.created_at, 111);
    assert_eq!(
        r1.bittorrent.as_ref().unwrap().info_hash.as_deref(),
        Some(info_hash)
    );
    assert!(r1.bittorrent.as_ref().unwrap().info_name.is_none());
    assert_eq!(r1.files[0].uris[0].0, magnet);

    let r2 = repo2.get("bt00000000000002").unwrap();
    assert_eq!(r2.status, TaskStatus::Seeding);
}

fn saved(status: &str) -> CheckpointTask {
    CheckpointTask {
        gid: "aaaaaaaaaaaaaaaa".to_string(),
        status: status.to_string(),
        dir: "/d".to_string(),
        urls: vec!["https://a/x".to_string()],
        out: None,
        total_length: 10,
        completed_length: 5,
        error_message: None,
        created_at: 1,
        is_bt: false,
        info_hash: None,
        piece_bitmap: None,
    }
}

#[test]
fn running_and_unknown_states_wait() {
    for (name, want) in [
        ("active", TaskStatus::Waiting),
        ("waiting", TaskStatus::Waiting),
        ("paused", TaskStatus::Paused),
        ("error", TaskStatus::Error),
        ("complete", TaskStatus::Complete),
        ("removed", TaskStatus::Removed),
        ("seeding", TaskStatus::Seeding),
        ("strange", TaskStatus::Waiting),
    ] {
        let mut repo = TaskRepository::new();
        restore_checkpoint(&mut repo, vec![saved(name)]);
        let t = repo.get("aaaaaaaaaaaaaaaa").unwrap();
        assert_eq!(t.status, want, "{name}");
        assert!(t.bittorrent.is_none());
        assert_eq!(t.files[0].path, "/d/download");
    }
}

#[test]
fn restore_session_takes_up_an_older_program() {
    let session = "0123456789abcdef complete /downloads/a.zip https://example.com/a.zip\n\
fedcba9876543210 active /downloads/b.bin https://example.com/b.bin\n\
aabbccddeeff0011 paused /downloads/c.mp4 https://example.com/c.mp4\n\
deadbeefdeadbeef removed /downloads/d.torrent\n";
    let mut repo = TaskRepository::new();
    assert!(restore_session(
        Platform::Linux,
        &mut repo,
        SavedSession::Imported(session.to_string()),
        77
    ));

    let a = repo.get("0123456789abcdef").unwrap();
    assert_eq!(a.status, TaskStatus::Complete);
    assert_eq!(a.files[0].uris[0].0, "https://example.com/a.zip");
    assert_eq!(a.files[0].path, "/downloads/a.zip");
    assert_eq!(a.created_at, 77);

    let d = repo.get("deadbeefdeadbeef").unwrap();
    assert_eq!(d.status, TaskStatus::Removed);

    let b = repo.get("fedcba9876543210").unwrap();
    assert_eq!(b.status, TaskStatus::Error);
    assert_eq!(b.error_code, Some(1));
    assert!(b.error_message.as_deref().unwrap().contains("请重新下载"));
    assert_eq!(repo.get("aabbccddeeff0011").unwrap().status, TaskStatus::Error);

    let again = checkpoint_tasks(Platform::Linux, &repo);
    let mut repo2 = TaskRepository::new();
    assert!(!restore_session(Platform::Linux, &mut repo2, SavedSession::Checkpoint(again), 88));
    assert_eq!(repo2.all().len(), 4);
    assert_eq!(
        repo2.get("0123456789abcdef").unwrap().status,
        TaskStatus::Complete
    );
    assert_eq!(repo2.get("fedcba9876543210").unwrap().status, TaskStatus::Error);
    assert_eq!(repo2.get("aabbccddeeff0011").unwrap().status, TaskStatus::Error);

    let mut empty = TaskRepository::new();
    assert!(!restore_session(Platform::Linux, &mut empty, SavedSession::Checkpoint(vec![]), 88));
    assert!(empty.all().is_empty());
    assert!(!restore_session(Platform::Linux, &mut empty, SavedSession::Nothing, 88));
    assert!(empty.all().is_empty());
}

#[test]
fn path_below_the_directory() {
    assert_eq!(out_from_path(Platform::Linux, "/d/sub/f.bin", "/d").as_deref(), Some("sub/f.bin"));
    assert_eq!(out_from_path(Platform::Linux, "/d/sub/f.bin", "/d/").as_deref(), Some("sub/f.bin"));
    assert_eq!(out_from_path(Platform::Linux, "/e/f.bin", "/d").as_deref(), Some("f.bin"));
    assert_eq!(out_from_path(Platform::Linux, "/d/f.bin", "").as_deref(), Some("f.bin"));
    assert_eq!(out_from_path(Platform::Linux, "/d", "/d").as_deref(), Some("d"));
    assert_eq!(out_from_path(Platform::Linux, "/d/..", "/e"), None);
    for (path, dir) in [
        ("/d//x/./y", "/d"),
        ("./a/b", "./a"),
        ("./a/b", "a"),
        ("a/b/", "a"),
        ("/", "/d"),
        ("", ""),
        ("/dd/f", "/d"),
    ] {
        let p = std::path::Path::new(path);
        let want = match p.strip_prefix(dir) {
            Ok(rel) if !dir.is_empty() && !rel.as_os_str().is_empty() => {
                Some(rel.to_string_lossy().to_string())
            }
            _ => p.file_name().map(|n| n.to_string_lossy().to_string()),
        };
        assert_eq!(out_from_path(Platform::Linux, path, dir), want, "{path} in {dir}");
    }
}

#[test]
fn saved_tasks_go_before_an_older_program() {
    let older = || Some("0123456789abcdef complete /downloads/a.zip\n".to_string());
    let gids = |checkpoint: Option<Vec<CheckpointTask>>, older: Option<String>| {
        let mut repo = TaskRepository::new();
        let found = found_session(checkpoint, older);
        let save = restore_session(Platform::Linux, &mut repo, found, 9);
        let all: Vec<String> = repo.all().into_iter().map(|t| t.gid).collect();
        (save, all)
    };
    let one = || vec![saved("paused")];
    let kept = vec!["aaaaaaaaaaaaaaaa".to_string()];
    assert_eq!(gids(Some(readable_tasks(Some(one()))), older()), (false, kept.clone()));
    assert_eq!(gids(Some(readable_tasks(Some(one()))), None), (false, kept));
    assert_eq!(gids(Some(readable_tasks(Some(vec![]))), older()), (false, vec![]));
    assert_eq!(gids(Some(readable_tasks(None)), older()), (false, vec![]));
    assert_eq!(gids(None, older()), (true, vec!["0123456789abcdef".to_string()]));
    assert_eq!(gids(None, None), (false, vec![]));
}

#[test]
fn session_files_join() {
    let a = "0123456789abcdef complete /downloads/a.zip https://example.com/a.zip\r";
    let b = "\nfedcba9876543210 waiting /downloads/b.bin\nshort line\n";
    let fields = |tasks: Vec<ImportedTask>| -> Vec<(String, String, String, Vec<String>)> {
        tasks.into_iter().map(|t| (t.gid, t.status, t.path, t.urls)).collect()
    };
    let both = fields(parse_aria2_session(&format!("{a}\n{b}")));
    let mut apart = fields(parse_aria2_session(a));
    apart.extend(fields(parse_aria2_session(b)));
    assert_eq!(both, apart);
    assert_eq!(both.len(), 2);
    assert_eq!(parse_aria2_session("g waiting").len(), 0);
    assert_eq!(parse_aria2_session("g waiting /p").len(), 1);
    assert_eq!(parse_aria2_session("g sleeping /p").len(), 0);
}

#[test]
fn paths_are_read_as_the_platform_writes_them() {
    let below = |path: &str, dir: &str| strip_dir(Platform::Windows, path, dir);
    assert_eq!(below(r"C:\d\a.zip", r"C:\d").as_deref(), Some("a.zip"));
    assert_eq!(below(r"C:/d\sub\f", "C:/d").as_deref(), Some(r"sub\f"));
    assert_eq!(below(r"c:\d\a.zip", r"C:\d\").as_deref(), Some("a.zip"));
    assert_eq!(below(r"D:\d\a.zip", r"C:\d"), None);
    assert_eq!(below(r"C:\d\a.zip", "C:").as_deref(), Some(r"\d\a.zip"));
    assert_eq!(below(r"C:.\a.zip", "C:").as_deref(), Some(r".\a.zip"));
    assert_eq!(below(r"C:a.zip", r"C:\"), None);
    assert_eq!(below(r"\\server\share\f", r"\\server\share").as_deref(), Some("f"));
    assert_eq!(below(r"//server/share/f", r"\\server\share\").as_deref(), Some("f"));
    assert_eq!(below(r"\\server\share\f", r"\\server\other"), None);
    assert_eq!(below(r"\\?\C:\d\.\f", r"\\?\C:\d").as_deref(), Some(r".\f"));
    assert_eq!(below(r"\\?\C:\d\f", r"C:\d"), None);
    assert_eq!(below(r"\\?\UNC\s\h\f", r"\\?\UNC\s\h").as_deref(), Some(r"\f"));
    assert_eq!(below(r"\\?\pics\f", r"\\?\pics\").as_deref(), Some("f"));
    assert_eq!(below(r"\\.\COM1\f", r"\\.\COM1").as_deref(), Some("f"));
    assert_eq!(below(r".\a\b", r".\a").as_deref(), Some("b"));

    let name = |path: &str| file_name(Platform::Windows, path);
    assert_eq!(name(r"C:\d\a.zip").as_deref(), Some("a.zip"));
    assert_eq!(name(r"C:a.zip").as_deref(), Some("a.zip"));
    assert_eq!(name(r"a\b/c").as_deref(), Some("c"));
    assert_eq!(name(r"C:\"), None);
    assert_eq!(name("C:"), None);
    assert_eq!(name(r"C:\d\.."), None);
    assert_eq!(name(r"\\server\share"), None);
    assert_eq!(name(r"\\?\C:\d\."), None);
    assert_eq!(name(r"\\?\C:\a/b").as_deref(), Some("a/b"));

    let up = |path: &str| parent_of(Platform::Windows, path);
    assert_eq!(up(r"C:\d\a.zip").as_deref(), Some(r"C:\d"));
    assert_eq!(up(r"C:\a.zip").as_deref(), Some(r"C:\"));
    assert_eq!(up("C:a.zip").as_deref(), Some("C:"));
    assert_eq!(up(r"\\server\share\f").as_deref(), Some(r"\\server\share\"));
    assert_eq!(up(r"C:\"), None);
    assert_eq!(up("C:"), None);
    assert_eq!(up(r"a.zip").as_deref(), Some(""));
    assert_eq!(up(r".\a").as_deref(), Some("."));
    assert_eq!(up(r"\a").as_deref(), Some(r"\"));

    let join = |dir: &str| join_name(Platform::Windows, dir, "dht.dat");
    assert_eq!(join(r"C:\data"), r"C:\data\dht.dat");
    assert_eq!(join(r"C:\data\"), r"C:\data\dht.dat");
    assert_eq!(join("C:/data/"), "C:/data/dht.dat");
    assert_eq!(join("C:"), "C:dht.dat");
    assert_eq!(join(""), "dht.dat");
    assert_eq!(join(r"\\?\C:\data\\x\"), r"\\?\C:\data\x\dht.dat");
    assert_eq!(join(r"\\?\C:"), r"\\?\C:\dht.dat");

    assert_eq!(file_name(Platform::Linux, r"/d\a.zip").as_deref(), Some(r"d\a.zip"));
    assert_eq!(file_name(Platform::MacOs, "C:/a").as_deref(), Some("a"));
    assert_eq!(parent_of(Platform::Linux, r"C:\a").as_deref(), Some(""));
    assert_eq!(join_name(Platform::Linux, "/data", "dht.dat"), "/data/dht.dat");
}

#[test]
fn paths_match_the_standard_library() {
    let paths =
        ["/d//x/./y", "./a/b", "a/b/", "/", "", ".", "./", "..", "a/..", "/a", "a", r"a\b/c"];
    for path in paths {
        let p = std::path::Path::new(path);
        let name = p.file_name().map(|n| n.to_string_lossy().to_string());
        assert_eq!(file_name(Platform::Linux, path), name, "{path}");
        let up = p.parent().map(|n| n.to_string_lossy().to_string());
        assert_eq!(parent_of(Platform::Linux, path), up, "{path}");
        let file = p.join("dht.dat").to_string_lossy().to_string();
        assert_eq!(join_name(Platform::Linux, path, "dht.dat"), file, "{path}");
        for dir in paths {
            let rest = p.strip_prefix(dir).ok().map(|r| r.to_string_lossy().to_string());
            assert_eq!(strip_dir(Platform::Linux, path, dir), rest, "{path} in {dir}");
        }
    }
}

#[test]
fn tasks_on_windows_are_taken_up_where_they_were() {
    let mut repo = TaskRepository::new();
    let urls = vec!["https://example.com/a.zip".to_string()];
    let t = Task::new_http_task("aaaaaaaaaaaaaaaa", &urls, r"C:\dl\", r"sub\a.zip");
    assert_eq!(t.files[0].path, r"C:\dl\sub\a.zip");
    repo.add(t);
    repo.add(Task::new_http_task("bbbbbbbbbbbbbbbb", &urls, r"C:\dl", "b.zip"));
    let exported = checkpoint_tasks(Platform::Windows, &repo);
    assert_eq!(exported[0].out.as_deref(), Some(r"sub\a.zip"));
    assert_eq!(exported[1].out.as_deref(), Some("b.zip"));
    let mut again = TaskRepository::new();
    restore_checkpoint(&mut again, exported);
    assert_eq!(again.get("aaaaaaaaaaaaaaaa").unwrap().files[0].path, r"C:\dl\sub\a.zip");
    assert_eq!(again.get("bbbbbbbbbbbbbbbb").unwrap().files[0].path, r"C:\dl/b.zip");

    let older = r"0123456789abcdef complete C:\dl\c.zip https://example.com/c.zip";
    let mut repo = TaskRepository::new();
    restore_session(
        Platform::Windows,
        &mut repo,
        SavedSession::Imported(older.to_string()),
        1,
    );
    let t = repo.get("0123456789abcdef").unwrap();
    assert_eq!(t.dir, r"C:\dl");
    assert_eq!(t.files[0].path, r"C:\dl/c.zip");
}
