//! Options of tasks and of the engine.

use motrix_core::config::{Platform, SystemConfig};
use motrix_core::json::{Json, Number};
use motrix_core::options::{
    parse_headers, parse_select_file, parse_tracker_option, split_tracker_list, EngineOptions,
};
use motrix_core::size::parse_size;

fn text(s: &str) -> Json {
    Json::Text(s.to_string())
}

fn num(n: u64) -> Json {
    Json::Number(Number::Unsigned(n))
}

fn arr(items: Vec<Json>) -> Json {
    Json::Array(items)
}

fn obj(fields: Vec<(&str, Json)>) -> Json {
    Json::Object(fields.into_iter().map(|(k, v)| (k.to_string(), v)).collect())
}

fn pair(a: &str, b: &str) -> (String, String) {
    (a.to_string(), b.to_string())
}

fn system() -> SystemConfig {
    SystemConfig::defaults(Platform::Linux, "/tmp/motrix", "/downloads")
}

#[test]
fn parse_size_supports_suffixes() {
    assert_eq!(parse_size("1024"), Some(1024));
    assert_eq!(parse_size(" 1024 "), Some(1024));
    assert_eq!(parse_size("1K"), Some(1024));
    assert_eq!(parse_size("1KB"), Some(1024));
    assert_eq!(parse_size("1KiB"), Some(1024));
    assert_eq!(parse_size("2M"), Some(2 * 1024 * 1024));
    assert_eq!(parse_size("2MB"), Some(2 * 1024 * 1024));
    assert_eq!(parse_size("1G"), Some(1024 * 1024 * 1024));
    assert_eq!(parse_size("1.5M"), Some((1.5 * 1024.0 * 1024.0) as u64));
    assert_eq!(parse_size(""), None);
    assert_eq!(parse_size("abc"), None);
    assert_eq!(parse_size("10X"), None);
    assert_eq!(parse_size("M"), None);
}

#[test]
fn whole_sizes_are_read_exactly() {
    for n in [0u64, 7, 1023, 123_456_789, (1 << 53) - 1, 1 << 53] {
        assert_eq!(parse_size(&n.to_string()), Some(n));
        assert_eq!(parse_size(&format!("{n}K")), Some(1024 * n));
        assert_eq!(parse_size(&format!(" {n} kib ")), Some(1024 * n));
        assert_eq!(parse_size(&format!("\t{n}\u{3000}")), Some(n));
        let wide = (n as u128) << 40;
        let want = u64::try_from(wide).unwrap_or(u64::MAX);
        assert_eq!(parse_size(&format!("{n}TiB")), Some(want));
    }
}

#[test]
fn parse_size_agrees_with_doubles() {
    for s in [
        "0", "0.1", "2.5", "1000", "125.00", "7.", ".5", "123456789.987", "0.001", "9007199254740993",
        "18446744073709551615", "99999999999999999999999999", "0.00000000000000000000000001",
        "4503599627370496.49999999999999999999", "4503599627370496.5", "0.0009765625", "1.1",
    ] {
        let want = s.parse::<f64>().unwrap();
        assert_eq!(parse_size(s), Some(want as u64), "{s}");
        assert_eq!(parse_size(&format!("{s}K")), Some((want * 1024.0) as u64), "{s}K");
        assert_eq!(
            parse_size(&format!("{s}mb")),
            Some((want * 1024.0 * 1024.0) as u64),
            "{s}mb"
        );
    }
    assert_eq!(parse_size("1e3"), None);
    assert_eq!(parse_size("."), None);
    assert_eq!(parse_size("1.2.3"), None);
}

#[test]
fn parse_headers_handles_array_and_string() {
    let list = arr(vec![text("Authorization: Bearer abc"), text("Cookie=a=b")]);
    assert_eq!(
        parse_headers(Some(&list)),
        vec![pair("Authorization", "Bearer abc"), pair("Cookie", "a=b")]
    );
    let single = text("Referer: https://example.com\nX-Custom: v");
    assert_eq!(
        parse_headers(Some(&single)),
        vec![pair("Referer", "https://example.com"), pair("X-Custom", "v")]
    );
    assert!(parse_headers(Some(&text(""))).is_empty());
    assert!(parse_headers(None).is_empty());
    assert!(parse_headers(Some(&num(42))).is_empty());
    let bad = arr(vec![text("no-separator"), text("   ")]);
    assert!(parse_headers(Some(&bad)).is_empty());
}

#[test]
fn from_system_config_maps_connections_and_limits() {
    let mut s = system();
    s.split = 8;
    s.max_connection_per_server = 16;
    s.max_download_limit = 1024 * 1024;
    s.max_overall_download_limit = 5 * 1024 * 1024;
    let opts = EngineOptions::from_system_config(&s);
    assert_eq!(opts.connections, 8);
    assert_eq!(opts.max_download_limit, Some(1024 * 1024));
    assert_eq!(opts.max_overall_download_limit, Some(5 * 1024 * 1024));
    assert_eq!(opts.effective_speed_limit(), Some(1024 * 1024));

    let mut s = system();
    s.max_download_limit = 0;
    s.max_overall_download_limit = 0;
    let opts = EngineOptions::from_system_config(&s);
    assert_eq!(opts.max_download_limit, None);
    assert_eq!(opts.max_overall_download_limit, None);
    assert_eq!(opts.effective_speed_limit(), None);
}

#[test]
fn from_system_config_maps_proxy_ua_headers_and_retry() {
    let mut s = system();
    s.all_proxy = "http://127.0.0.1:8000".to_string();
    s.no_proxy = "localhost,127.0.0.1".to_string();
    s.user_agent = "Motrix-Test-UA".to_string();
    s.dir = "/downloads".to_string();
    s.extra.push(("header".to_string(), arr(vec![text("X-Token: t1")])));
    s.extra.push(("max-tries".to_string(), num(3)));
    s.extra.push(("retry-wait".to_string(), num(5)));
    s.extra.push(("all-proxy-user".to_string(), text("u1")));
    s.extra.push(("all-proxy-passwd".to_string(), text("p1")));

    let opts = EngineOptions::from_system_config(&s);
    assert_eq!(opts.all_proxy.as_deref(), Some("http://127.0.0.1:8000"));
    assert_eq!(opts.no_proxy.as_deref(), Some("localhost,127.0.0.1"));
    assert_eq!(opts.all_proxy_user.as_deref(), Some("u1"));
    assert_eq!(opts.all_proxy_passwd.as_deref(), Some("p1"));
    assert_eq!(opts.user_agent.as_deref(), Some("Motrix-Test-UA"));
    assert_eq!(opts.headers, vec![pair("X-Token", "t1")]);
    assert_eq!(opts.max_tries, 3);
    assert_eq!(opts.retry_wait, 5);
    assert_eq!(opts.dir, "/downloads");
    assert_eq!(opts.out, None);
}

#[test]
fn apply_task_options_overrides_global() {
    let mut opts = EngineOptions::default();
    opts.apply_task_options(
        &obj(vec![
            ("split", num(4)),
            ("max-download-limit", text("1M")),
            ("dir", text("/tmp/tasks")),
            ("out", text("a.zip")),
            ("user-agent", text("Custom-UA")),
            ("header", arr(vec![text("Cookie: session=1")])),
            ("max-tries", num(2)),
            ("retry-wait", num(3)),
        ]),
        None,
    );
    assert_eq!(opts.connections, 4);
    assert_eq!(opts.max_download_limit, Some(1024 * 1024));
    assert_eq!(opts.dir, "/tmp/tasks");
    assert_eq!(opts.out.as_deref(), Some("a.zip"));
    assert_eq!(opts.user_agent.as_deref(), Some("Custom-UA"));
    assert_eq!(opts.headers, vec![pair("Cookie", "session=1")]);
    assert_eq!(opts.max_tries, 2);
    assert_eq!(opts.retry_wait, 3);
}

#[test]
fn apply_task_options_split_and_max_connection_min() {
    let mut opts = EngineOptions::default();
    opts.apply_task_options(
        &obj(vec![("split", num(8)), ("max-connection-per-server", num(4))]),
        None,
    );
    assert_eq!(opts.connections, 4);

    let mut opts = EngineOptions::default();
    opts.apply_task_options(&obj(vec![("split", num(12))]), None);
    assert_eq!(opts.connections, 12);
}

#[test]
fn anything_but_an_object_sets_no_option() {
    let mut opts = EngineOptions::default();
    opts.apply_task_options(&Json::Null, None);
    opts.apply_task_options(&arr(vec![num(1)]), None);
    assert_eq!(opts, EngineOptions::default());
}

#[test]
fn normalized_max_tries_handles_zero() {
    let mut opts = EngineOptions::default();
    opts.max_tries = 0;
    assert_eq!(opts.normalized_max_tries(), 100);
    opts.max_tries = 5;
    assert_eq!(opts.normalized_max_tries(), 5);
}

#[test]
fn from_system_config_maps_bt_options() {
    let mut s = system();
    s.bt_tracker = "udp://tracker1:80, https://tracker2/announce".to_string();
    s.listen_port = 21301;
    s.seed_ratio = 2.0f64.to_bits();
    s.seed_time = 2880;
    let opts = EngineOptions::from_system_config(&s);
    assert_eq!(
        opts.bt_trackers,
        vec![
            "udp://tracker1:80".to_string(),
            "https://tracker2/announce".to_string()
        ]
    );
    assert_eq!(opts.bt_listen_port, Some(21301));
    assert_eq!(opts.seed_ratio, Some(2.0f64.to_bits()));
    assert_eq!(opts.seed_time, Some(2880));
    assert!(!opts.keep_seeding);
    assert_eq!(opts.only_files, None);
}

#[test]
fn apply_task_options_maps_bt_keys() {
    let mut opts = EngineOptions::default();
    opts.apply_task_options(
        &obj(vec![
            ("bt-tracker", text("udp://t1:80,udp://t2:80")),
            ("seed-ratio", text("1.5")),
            ("seed-time", num(600)),
            ("keep-seeding", text("true")),
            ("select-file", text("1,3")),
        ]),
        "1.5".parse::<f64>().ok().map(f64::to_bits),
    );
    assert_eq!(
        opts.bt_trackers,
        vec!["udp://t1:80".to_string(), "udp://t2:80".to_string()]
    );
    assert_eq!(opts.seed_ratio, Some(1.5f64.to_bits()));
    assert_eq!(opts.seed_time, Some(600));
    assert!(opts.keep_seeding);
    assert_eq!(opts.only_files, Some(vec![0, 2]));

    let mut opts = EngineOptions::default();
    opts.apply_task_options(
        &obj(vec![
            ("bt-tracker", arr(vec![text("udp://a:80"), text("https://b/announce")])),
            ("select-file", arr(vec![num(2), num(4)])),
        ]),
        None,
    );
    assert_eq!(
        opts.bt_trackers,
        vec!["udp://a:80".to_string(), "https://b/announce".to_string()]
    );
    assert_eq!(opts.only_files, Some(vec![1, 3]));
}

#[test]
fn seed_ratio_may_be_an_integer() {
    let mut opts = EngineOptions::default();
    opts.apply_task_options(&obj(vec![("seed-ratio", num(3))]), None);
    assert_eq!(opts.seed_ratio, Some(3.0f64.to_bits()));
}

#[test]
fn split_tracker_list_handles_blank_and_whitespace() {
    assert!(split_tracker_list("").is_empty());
    assert!(split_tracker_list(" , , ").is_empty());
    assert_eq!(
        split_tracker_list("udp://a:80 udp://b:80"),
        vec!["udp://a:80".to_string(), "udp://b:80".to_string()]
    );
}

#[test]
fn trackers_and_files_in_other_shapes() {
    assert!(parse_tracker_option(Some(&num(1))).is_empty());
    assert!(parse_tracker_option(None).is_empty());
    assert_eq!(parse_select_file(&Json::Null), None);
    assert_eq!(parse_select_file(&text("")), None);
}

#[test]
fn options_set_twice_are_set_once() {
    let options = obj(vec![
        ("split", num(0)),
        ("max-download-limit", text("1M")),
        ("header", text("A: b")),
        ("bt-tracker", text("udp://a,udp://b")),
        ("out", text("")),
        ("select-file", text("3,1")),
    ]);
    let mut once = EngineOptions::from_system_config(&system());
    let untouched = once.clone();
    once.apply_task_options(&obj(vec![]), None);
    assert_eq!(once, untouched);
    once.apply_task_options(&options, None);
    assert_ne!(once, untouched);
    assert_eq!(once.connections, 1);
    let mut twice = once.clone();
    twice.apply_task_options(&options, None);
    assert_eq!(twice, once);
}
