//! The download engines.

use motrix_core::fastdown::{
    are_separated, check_url, file_id_matches, make_state, max_end, merged_total, setup,
    state_path, url_failure, FdEnd, FdEvent, FdSession, FdState, FileId, SourceInfo,
};
use motrix_core::http::{
    accept, alignment, file_name_from_url_or_default, is_fatal_error, proxy_auth, range_header,
    resume_offset, sendable_headers, total_length, Accepted, HttpAction, HttpDownload, Phase, Transfer,
};
use motrix_core::kget::{
    after_head, after_range, custom_proxy, head_state, head_step, is_fatal_engine_error,
    join_path, make_optimizer, make_proxy, map_kget_error, output_path, parse_content_length,
    parse_content_range_total, parse_status_code, probe_request, range_length, request_headers,
    split_http_url, Attempts, HeadState, HttpTarget, KgetError, KgetInitError, NextTry,
    ProbeStep, ProxyKind,
};
use motrix_core::options::EngineOptions;

#[test]
fn join_path_handles_dir_separator() {
    assert_eq!(join_path("/downloads", "a.zip"), "/downloads/a.zip");
    assert_eq!(join_path("/downloads/", "a.zip"), "/downloads/a.zip");
    assert_eq!(join_path("C:\\Downloads", "a.zip"), "C:\\Downloads/a.zip");
    assert_eq!(join_path("", "a.zip"), "a.zip");
    assert_eq!(join_path("C:\\", "a.zip"), "C:\\a.zip");
}

#[test]
fn make_proxy_detects_scheme_and_auth() {
    let mut opts = EngineOptions::default();
    let proxy = make_proxy(&opts);
    assert!(!proxy.enabled);

    opts.all_proxy = Some("socks5://127.0.0.1:1080".to_string());
    opts.all_proxy_user = Some("u".to_string());
    opts.all_proxy_passwd = Some("p".to_string());
    let proxy = make_proxy(&opts);
    assert!(proxy.enabled);
    assert_eq!(proxy.proxy_type, ProxyKind::Socks5);
    assert_eq!(proxy.username.as_deref(), Some("u"));
    assert_eq!(proxy.password.as_deref(), Some("p"));

    opts.all_proxy = Some("https://proxy:8443".to_string());
    assert_eq!(make_proxy(&opts).proxy_type, ProxyKind::Https);
    opts.all_proxy = Some("http://proxy:8080".to_string());
    assert_eq!(make_proxy(&opts).proxy_type, ProxyKind::Http);
}

#[test]
fn make_optimizer_applies_connections_and_speed_limit() {
    let mut opts = EngineOptions::default();
    opts.connections = 64;
    opts.max_download_limit = Some(1024 * 1024);
    opts.max_overall_download_limit = Some(512 * 1024);
    let settings = make_optimizer(&opts);
    assert_eq!(settings.max_connections, 32);
    assert_eq!(settings.speed_limit, Some(512 * 1024));
    let mut cfg = kget::Config::default().optimization;
    cfg.speed_limit = settings.speed_limit;
    cfg.max_connections = settings.max_connections;
    let optimizer = kget::Optimizer::from_config(cfg);
    assert_eq!(optimizer.max_connections(), 32);
    assert_eq!(optimizer.speed_limit, Some(512 * 1024));

    opts.max_download_limit = None;
    opts.max_overall_download_limit = None;
    assert_eq!(make_optimizer(&opts).speed_limit, None);
    opts.connections = 0;
    assert_eq!(make_optimizer(&opts).max_connections, 1);
}

#[test]
fn map_kget_error_produces_readable_message() {
    assert_eq!(
        map_kget_error(&KgetError::NotFound("https://x/404".to_string())),
        "资源不存在（HTTP 404）: https://x/404"
    );
    assert_eq!(
        map_kget_error(&KgetError::Network("connection refused".to_string())),
        "网络错误: connection refused"
    );
    assert_eq!(map_kget_error(&KgetError::Cancelled), "下载已取消");
}

#[test]
fn every_engine_error_has_words() {
    let s = |x: &str| x.to_string();
    assert_eq!(map_kget_error(&KgetError::Io(s("e"))), "本地 IO 错误: e");
    assert_eq!(
        map_kget_error(&KgetError::ChecksumMismatch {
            algorithm: s("md5"),
            expected: s("a"),
            got: s("b")
        }),
        "校验和不匹配（md5）: 期望 a，实际 b"
    );
    assert_eq!(map_kget_error(&KgetError::Protocol(s("e"))), "协议错误: e");
    assert_eq!(
        map_kget_error(&KgetError::Http { status: 503, url: s("u") }),
        "HTTP 错误 503: u"
    );
    assert_eq!(map_kget_error(&KgetError::SidecarError(s("e"))), "校验和文件错误: e");
    assert_eq!(map_kget_error(&KgetError::Other(s("e"))), "下载失败: e");
    assert_eq!(KgetInitError::Init(s("e")).message(), "KGet 引擎初始化失败: e");
    assert_eq!(KgetInitError::Io(s("e")).message(), "本地文件系统错误: e");
}

#[test]
fn parse_status_code_extracts_code() {
    assert_eq!(parse_status_code(b"HTTP/1.1 200 OK\r\n\r\n"), 200);
    assert_eq!(parse_status_code(b"HTTP/1.1 206 Partial Content\r\n\r\n"), 206);
    assert_eq!(parse_status_code(b"HTTP/1.1 404 Not Found\r\n\r\n"), 404);
    assert_eq!(parse_status_code(b"garbage"), 0);
    assert_eq!(parse_status_code(b""), 0);
    assert_eq!(parse_status_code(b"HTTP/1.1 99999 x"), 0);
}

#[test]
fn parse_content_length_extracts_value() {
    let resp = b"HTTP/1.1 200 OK\r\nContent-Length: 12345\r\nConnection: close\r\n\r\n";
    assert_eq!(parse_content_length(resp), Some(12345));
    assert_eq!(
        parse_content_length(b"HTTP/1.1 200 OK\r\ncontent-length: 7\r\n\r\n"),
        Some(7)
    );
    assert_eq!(parse_content_length(b"HTTP/1.1 200 OK\r\n\r\n"), None);
    assert_eq!(
        parse_content_length(b"content-length: x\r\nContent-length:8\r\n"),
        Some(8)
    );
    assert_eq!(parse_content_length(b"\xff\r\nContent-Length: 3\r\n"), Some(3));
}

#[test]
fn parse_content_range_total_extracts_total() {
    let resp = b"HTTP/1.1 206 Partial Content\r\nContent-Range: bytes 0-0/12345\r\n\r\n";
    assert_eq!(parse_content_range_total(resp), Some(12345));
    assert_eq!(parse_content_range_total(b"HTTP/1.1 200 OK\r\n\r\n"), None);
    assert_eq!(parse_content_range_total(b"Content-Range: bytes 0-0/*\r\n"), None);
}

#[test]
fn probe_content_length_rejects_https() {
    assert!(split_http_url("https://example.com/a.zip").is_err());
}

#[test]
fn probe_names_host_port_and_path() {
    let target = |host: &str, port: u16, path: &str| HttpTarget {
        host: host.to_string(),
        port,
        path: path.to_string(),
    };
    assert_eq!(split_http_url("http://h/p/q?x=1"), Ok(target("h", 80, "/p/q?x=1")));
    assert_eq!(split_http_url("http://h:8080/p"), Ok(target("h", 8080, "/p")));
    assert_eq!(split_http_url("http://h"), Ok(target("h", 80, "/")));
    assert_eq!(split_http_url("http://h:70000/"), Ok(target("h:70000", 80, "/")));
    assert_eq!(split_http_url("http://h:/"), Ok(target("h:", 80, "/")));
    assert!(split_http_url("ftp://h/").unwrap_err().contains("ftp://h/"));
}

#[test]
fn probe_requests_are_minimal() {
    let t = split_http_url("http://h:81/p").unwrap();
    let mut opts = EngineOptions::default();
    opts.user_agent = Some("UA".to_string());
    assert_eq!(
        probe_request(&t, &opts, false),
        "HEAD /p HTTP/1.1\r\nHost: h\r\nUser-Agent: UA\r\nConnection: close\r\n\r\n"
    );
    assert_eq!(
        probe_request(&t, &opts, true),
        "GET /p HTTP/1.1\r\nHost: h\r\nUser-Agent: UA\r\nRange: bytes=0-0\r\nConnection: close\r\n\r\n"
    );
    opts.user_agent = None;
    assert!(probe_request(&t, &opts, false).contains("Chrome/111.0.0.0"));
}

#[test]
fn probe_goes_by_the_head_or_asks_again() {
    assert_eq!(
        after_head(b"HTTP/1.1 200 OK\r\nContent-Length: 5\r\n\r\n"),
        ProbeStep::Known(5)
    );
    assert_eq!(
        after_head(b"HTTP/1.1 405 No\r\nContent-Length: 5\r\n\r\n"),
        ProbeStep::AskRange(Some(5))
    );
    assert_eq!(head_step("HTTP/1.1 200 OK\r\n\r\n"), ProbeStep::AskRange(None));
    let partial = b"HTTP/1.1 206 P\r\nContent-Range: bytes 0-0/99\r\nContent-Length: 1\r\n\r\n";
    assert_eq!(after_range(partial, None), 99);
    assert_eq!(after_range(b"HTTP/1.1 200 OK\r\nContent-Length: 8\r\n\r\n", None), 8);
    assert_eq!(range_length("HTTP/1.1 206 P\r\n\r\n", Some(4)), 4);
    assert_eq!(range_length("HTTP/1.1 206 P\r\n\r\n", None), 0);
    assert_eq!(range_length("HTTP/1.1 404 N\r\nContent-Length: 8\r\n", Some(4)), 0);
}

#[test]
fn head_of_a_response_has_an_end() {
    assert_eq!(head_state(b"HTTP/1.1 200 OK\r\n"), HeadState::More);
    assert_eq!(head_state(b"HTTP/1.1 200 OK\r\n\r\nbody"), HeadState::Done);
    assert_eq!(head_state(&vec![b'x'; 64 * 1024]), HeadState::More);
    assert_eq!(head_state(&vec![b'x'; 64 * 1024 + 1]), HeadState::TooLong);
    assert_eq!(head_state(b""), HeadState::More);
}

#[test]
fn file_name_by_the_general_engine() {
    let mut opts = EngineOptions::default();
    opts.dir = "/d".to_string();
    opts.out = None;
    assert_eq!(output_path(&opts, "ftp://h/dir/a%20b.iso?x=1"), "/d/a b.iso");
    assert_eq!(output_path(&opts, "ftp://h/"), "/d/download");
    opts.out = Some("mine".to_string());
    assert_eq!(output_path(&opts, "ftp://h/dir/a.iso"), "/d/mine");
}

#[test]
fn headers_end_with_the_agent() {
    let mut opts = EngineOptions::default();
    opts.headers = vec![("A".to_string(), "1".to_string())];
    opts.user_agent = Some("UA".to_string());
    assert_eq!(
        request_headers(&opts),
        vec![
            ("A".to_string(), "1".to_string()),
            ("User-Agent".to_string(), "UA".to_string())
        ]
    );
    opts.user_agent = None;
    assert_eq!(request_headers(&opts).len(), 1);
}

#[test]
fn blank_proxy_is_none() {
    assert_eq!(custom_proxy(&Some("  ".to_string())), None);
    assert_eq!(custom_proxy(&None), None);
    assert_eq!(
        custom_proxy(&Some(" http://p ".to_string())),
        Some(" http://p ".to_string())
    );
}

#[test]
fn hopeless_errors_are_not_tried_again() {
    for msg in ["HTTP 404", "Not Found", "CHECKSUM differs"] {
        assert!(is_fatal_error(msg), "{msg}");
        assert!(is_fatal_engine_error(msg), "{msg}");
    }
    assert!(is_fatal_engine_error("server does not support range requests"));
    assert!(!is_fatal_error("server does not support range requests"));
    assert!(!is_fatal_error("timeout"));
}

#[test]
fn attempts_are_bounded() {
    let mut opts = EngineOptions::default();
    opts.max_tries = 3;
    opts.retry_wait = 9;
    let mut tries = Attempts::new(&opts);
    assert_eq!(tries.failed(false, false), NextTry::Again(9));
    assert_eq!(tries.failed(false, false), NextTry::Again(9));
    assert_eq!(tries.failed(false, false), NextTry::GiveUp);
    let mut tries = Attempts::new(&opts);
    assert_eq!(tries.failed(true, false), NextTry::GiveUp);
    let mut tries = Attempts::new(&opts);
    assert_eq!(tries.failed(true, true), NextTry::Stop);
}

#[test]
fn file_name_extraction_works() {
    assert_eq!(file_name_from_url_or_default("https://a.com/f.iso", "d"), "f.iso");
    assert_eq!(
        file_name_from_url_or_default("https://a.com/dir/f.iso?x=1", "d"),
        "f.iso"
    );
    assert_eq!(file_name_from_url_or_default("https://a.com", "d"), "d");
    assert_eq!(file_name_from_url_or_default("https://a.com/", "d"), "d");
    assert_eq!(file_name_from_url_or_default("https://a.com/f#a/b", "d"), "f");
}

#[test]
fn sequential_engine_resumes_only_a_true_prefix() {
    assert_eq!(resume_offset(100, 100), 100);
    assert_eq!(resume_offset(100, 99), 0);
    assert_eq!(resume_offset(0, 0), 0);
    assert_eq!(range_header(0), None);
    assert_eq!(range_header(7).as_deref(), Some("bytes=7-"));
    assert_eq!(accept(206, "206 Partial", 7), Ok(Accepted { start: 7, append: true }));
    assert_eq!(accept(200, "200 OK", 7), Ok(Accepted { start: 0, append: false }));
    assert_eq!(
        accept(404, "404 Not Found", 7),
        Err("HTTP 错误: 404 Not Found".to_string())
    );
    assert_eq!(total_length(&Some("bytes 7-9/10".to_string()), 7, 3), 10);
    assert_eq!(total_length(&Some("bytes 7-9/*".to_string()), 7, 3), 10);
    assert_eq!(total_length(&None, u64::MAX, 3), u64::MAX);
    assert_eq!(alignment(5, 5), None);
    assert_eq!(alignment(6, 5), Some(5));
}

#[test]
fn proxy_needs_both_name_and_password() {
    let mut opts = EngineOptions::default();
    opts.all_proxy_user = Some("u".to_string());
    assert_eq!(proxy_auth(&opts), None);
    opts.all_proxy_passwd = Some("p".to_string());
    assert_eq!(proxy_auth(&opts), Some(("u".to_string(), "p".to_string())));
}

#[test]
fn progress_is_reported_now_and_then() {
    let mut t = Transfer::new(10, 1_000_000);
    assert_eq!(t.wrote(262_143), None);
    assert_eq!(t.wrote(1), Some(262_154));
    assert_eq!(t.wrote(5), None);
    assert_eq!(t.finish(true).unwrap_err(), "下载已取消");
    assert!(t.finish(false).is_err());
}

fn options(max_tries: u32) -> EngineOptions {
    let mut opts = EngineOptions::default();
    opts.max_tries = max_tries;
    opts.retry_wait = 2;
    opts
}

#[test]
fn sequential_download_to_the_end() {
    let mut d = HttpDownload::new(&options(3), 4);
    assert_eq!(d.begin(4, false), HttpAction::Ask(Some("bytes=4-".to_string())));
    assert_eq!(
        d.answered(206, "206 Partial", &Some("bytes 4-9/10".to_string()), 6),
        HttpAction::Open { start: 4, append: true }
    );
    assert_eq!(d.got(6, false), HttpAction::Read(None));
    assert_eq!(d.got(0, false), HttpAction::Finish((10, 10)));
    assert_eq!(d.phase, Phase::Over);
}

#[test]
fn sequential_download_tries_again() {
    let mut d = HttpDownload::new(&options(2), 0);
    assert_eq!(d.begin(0, false), HttpAction::Ask(None));
    d.answered(200, "200 OK", &None, 10);
    d.got(3, false);
    assert_eq!(d.got(0, false), HttpAction::Measure(Some((3, 10))));
    assert_eq!(d.measured(Some(3), false), HttpAction::Wait(2));
    assert_eq!(d.begin(3, false), HttpAction::Ask(Some("bytes=3-".to_string())));
    assert_eq!(d.broke("HTTP 请求失败: x".to_string()), HttpAction::Measure(None));
    assert_eq!(
        d.measured(None, false),
        HttpAction::Fail("HTTP 请求失败: x".to_string())
    );
    assert_eq!(d.existing, 3);
}

#[test]
fn sequential_download_ends_at_once_on_a_missing_file() {
    let mut d = HttpDownload::new(&options(5), 0);
    d.begin(0, false);
    assert_eq!(
        d.answered(404, "404 Not Found", &None, 0),
        HttpAction::Measure(None)
    );
    assert_eq!(
        d.measured(None, false),
        HttpAction::Fail("HTTP 错误: 404 Not Found".to_string())
    );
}

#[test]
fn cancelled_download_is_never_finished() {
    let mut d = HttpDownload::new(&options(5), 0);
    d.begin(0, false);
    d.answered(200, "200 OK", &None, 10);
    d.got(10, false);
    assert_eq!(d.got(0, true), HttpAction::Measure(Some((10, 10))));
    assert_eq!(d.measured(Some(10), true), HttpAction::Quit);
    let mut d = HttpDownload::new(&options(5), 0);
    assert_eq!(d.begin(0, true), HttpAction::Measure(None));
    assert_eq!(d.measured(None, true), HttpAction::Quit);
}

fn info(size: u64) -> SourceInfo {
    SourceInfo {
        size,
        supports_range: true,
        file_id: FileId {
            etag: Some("e".to_string()),
            last_modified: None,
        },
    }
}

fn resumed(completed: Vec<(u64, u64)>, size: u64) -> Vec<(u64, u64)> {
    let file_len = max_end(&completed);
    let state = make_state("u", size, &info(size).file_id, &completed, file_len, true);
    let (session, start) =
        FdSession::begin("u", info(size), Some(state), Some(file_len), 4, 0);
    assert!(!start.truncate && !start.drop_state);
    assert_eq!(session.merged, completed);
    start.remaining
}

#[test]
fn invert_returns_remaining_ranges() {
    assert_eq!(resumed(vec![(0, 100)], 300), vec![(100, 300)]);
    assert_eq!(
        resumed(vec![(0, 10), (20, 30), (40, 50)], 100),
        vec![(10, 20), (30, 40), (50, 100)]
    );
    assert!(resumed(vec![(0, 300)], 300).is_empty());
    assert_eq!(resumed(vec![(10, 20)], 15), vec![(0, 10)]);
    assert_eq!(resumed(vec![], 15), vec![(0, 15)]);
}

#[test]
fn merge_progress_merges_ranges() {
    let (mut s, _) = FdSession::begin("u", info(1000), None, None, 4, 0);
    s.heard(FdEvent::Pushed((20, 30)), 0);
    s.heard(FdEvent::Pushed((0, 10)), 0);
    s.heard(FdEvent::Pushed((10, 20)), 0);
    s.heard(FdEvent::Pushed((25, 40)), 0);
    assert_eq!(s.merged, vec![(0, 40)]);
    s.drained(FdEvent::Pushed((40, 60)));
    s.drained(FdEvent::Pushed((80, 90)));
    assert_eq!(s.merged, vec![(0, 60), (80, 90)]);
    assert_eq!(merged_total(&s.merged), 70);
    assert_eq!(max_end(&s.merged), 90);
    s.heard(FdEvent::Pushed((7, 7)), 0);
    s.heard(FdEvent::Other, 0);
    s.heard(FdEvent::Pulled((60, 70)), 0);
    s.drained(FdEvent::Pulled((60, 70)));
    assert_eq!(s.merged, vec![(0, 60), (80, 90)]);
}

#[test]
fn file_id_matches_requires_same_etag_and_last_modified() {
    let state = FdState {
        url: "http://x/a.bin".to_string(),
        size: 100,
        etag: Some("\"abc\"".to_string()),
        last_modified: Some("Mon, 01 Jan 2024 00:00:00 GMT".to_string()),
        completed: vec![(0, 50)],
        file_len: 50,
        clean: true,
    };
    let id = |etag: Option<&str>, modified: Option<&str>| FileId {
        etag: etag.map(str::to_string),
        last_modified: modified.map(str::to_string),
    };
    let date = Some("Mon, 01 Jan 2024 00:00:00 GMT");
    assert!(file_id_matches(&state, &id(Some("\"abc\""), date)));
    assert!(!file_id_matches(&state, &id(Some("\"def\""), date)));
    assert!(!file_id_matches(&state, &id(Some("\"abc\""), None)));
}

#[test]
fn state_lies_beside_the_file() {
    assert_eq!(state_path("/d/a.bin"), "/d/a.bin.fd.json");
}

#[test]
fn paused_parallel_download_goes_on_exactly() {
    let (mut s, start) = FdSession::begin("u", info(100), None, None, 4, 0);
    assert_eq!(start.remaining, vec![(0, 100)]);
    assert!(start.truncate);
    assert_eq!(start.concurrent, 4);
    s.heard(FdEvent::Pushed((0, 10)), 0);
    s.heard(FdEvent::Pushed((50, 60)), 0);
    let pause = s.pause(true);
    assert_eq!(pause.report, 20);
    let keep = pause.keep.unwrap();
    assert_eq!(keep.len, 60);
    assert!(keep.state.clean && keep.state.sound());
    let (s2, start) = FdSession::begin("u", info(100), Some(keep.state), Some(60), 4, 0);
    assert_eq!(s2.merged, vec![(0, 10), (50, 60)]);
    assert_eq!(start.remaining, vec![(10, 50), (60, 100)]);
}

#[test]
fn doubtful_state_is_dropped() {
    let done = vec![(0u64, 10u64)];
    let id = info(100).file_id;
    let begin = |url: &str, size: u64, clean: bool, disk: Option<u64>| {
        let state = make_state(url, size, &id, &done, 10, clean);
        FdSession::begin("u", info(100), Some(state), disk, 4, 0).1
    };
    assert!(!begin("u", 100, true, Some(10)).drop_state);
    for start in [
        begin("v", 100, true, Some(10)),
        begin("u", 99, true, Some(10)),
        begin("u", 100, false, Some(10)),
        begin("u", 100, true, Some(9)),
        begin("u", 100, true, None),
    ] {
        assert!(start.drop_state && start.truncate);
        assert_eq!(start.remaining, vec![(0, 100)]);
    }
    assert!(!are_separated(&vec![(0, 10), (10, 20)]));
    assert!(!are_separated(&vec![(5, 5)]));
    assert!(!are_separated(&vec![(20, 30), (0, 10)]));
    assert!(are_separated(&vec![(0, 10), (11, 20)]));
}

#[test]
fn parallel_download_reports_and_saves() {
    let (mut s, _) = FdSession::begin("u", info(1_000_000), None, None, 4, 1000);
    let step = s.heard(FdEvent::Pushed((0, 262_143)), 1500);
    assert_eq!((step.report, step.save.is_some()), (None, false));
    let step = s.heard(FdEvent::Pushed((262_143, 262_144)), 3000);
    assert_eq!(step.report, Some(262_144));
    let saved = step.save.unwrap();
    assert!(!saved.clean);
    assert_eq!(saved.completed, vec![(0, 262_144)]);
    assert_eq!(saved.file_len, 262_144);
    let step = s.heard(FdEvent::Other, 4999);
    assert_eq!((step.report, step.save.is_some()), (None, false));
    assert!(matches!(s.end(), FdEnd::Failed(_)));
    s.heard(FdEvent::Pushed((262_144, 1_000_000)), 5000);
    assert_eq!(s.end(), FdEnd::Finished);
}

#[test]
fn source_without_ranges_is_not_resumed() {
    let mut source = info(100);
    source.supports_range = false;
    let (mut s, start) = FdSession::begin("u", source, None, None, 4, 0);
    assert_eq!(start.concurrent, 1);
    s.heard(FdEvent::Pushed((0, 10)), 0);
    assert!(s.pause(true).keep.is_none());
    let (s, _) = FdSession::begin("u", info(0), None, None, 4, 0);
    assert!(!s.ranged);
    assert_eq!(s.end(), FdEnd::Finished);
}

#[test]
fn parallel_engine_is_set_up_from_options() {
    let mut opts = EngineOptions::default();
    opts.dir = "/d".to_string();
    opts.out = None;
    opts.connections = 99;
    opts.retry_wait = 0;
    opts.user_agent = Some("UA".to_string());
    let s = setup(&opts, "https://h/p/f.iso?q").unwrap();
    assert_eq!(s.output, "/d/f.iso");
    assert_eq!(s.connections, 32);
    assert_eq!(s.retry_wait, 1);
    assert_eq!(s.proxy, None);
    assert_eq!(s.headers, vec![("User-Agent".to_string(), "UA".to_string())]);
    opts.all_proxy_user = Some("u".to_string());
    assert!(setup(&opts, "https://h/").unwrap_err().contains("代理认证"));
}

#[test]
fn headers_that_cannot_be_sent_are_left_out() {
    let pairs = |list: &[(&str, &str)]| {
        list.iter().map(|(k, v)| (k.to_string(), v.to_string())).collect::<Vec<_>>()
    };
    let long = "x".repeat(65535);
    let longer = "x".repeat(65536);
    let headers = pairs(&[
        ("Accept", "*/*"),
        ("", "v"),
        ("Bad Name", "v"),
        ("X-A", "a\nb"),
        ("X-B", "\tä"),
        ("Ünicode", "v"),
        ("X-C", "\u{7f}"),
        ("X-!#$%&'*+-.^_`|~9", ""),
        (&long, "1"),
        (&longer, "2"),
        ("Accept", "text/html"),
    ]);
    assert_eq!(
        sendable_headers(&headers),
        pairs(&[
            ("Accept", "*/*"),
            ("X-B", "\tä"),
            ("X-!#$%&'*+-.^_`|~9", ""),
            (&long, "1"),
            ("Accept", "text/html"),
        ])
    );
    // Every character below 256, by itself.
    for n in 0u8..=255 {
        let text = char::from(n).to_string();
        let name = pairs(&[(&text, "v")]);
        let token = n.is_ascii_alphanumeric() || "!#$%&'*+-.^_`|~".contains(char::from(n));
        assert_eq!(sendable_headers(&name).len(), usize::from(token));
        let value = pairs(&[("n", &text)]);
        let plain = n == 9 || n >= 32 && n != 127;
        assert_eq!(sendable_headers(&value).len(), usize::from(plain));
    }
}

#[test]
fn sources_are_urls() {
    assert_eq!(check_url("http://example.com/a b?c#d"), Ok(()));
    assert_eq!(
        check_url("no url"),
        Err("解析 URL 失败: relative URL without a base".to_string())
    );
    assert_eq!(check_url("http://"), Err("解析 URL 失败: empty host".to_string()));
    assert_eq!(url_failure("why"), "解析 URL 失败: why");
}
