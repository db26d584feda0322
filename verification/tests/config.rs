//! Settings: defaults, patches and preferences.

use motrix_core::config::{
    complete_with, default_tracker_source, merge_patch, preference_steps, ConfigError,
    Platform, PreferenceStep, SystemConfig, UserConfig, TRACKER_BEST_IP_URL_CDN, TRACKER_BEST_URL_CDN,
};
use motrix_core::json::{Json, Number};

fn text(s: &str) -> Json {
    Json::Text(s.to_string())
}

fn num(n: u64) -> Json {
    Json::Number(Number::Unsigned(n))
}

fn table(fields: Vec<(&str, Json)>) -> Vec<(String, Json)> {
    fields.into_iter().map(|(k, v)| (k.to_string(), v)).collect()
}

#[test]
fn defaults_of_a_fresh_installation() {
    let user = UserConfig::defaults(Platform::Linux);
    assert_eq!(user.theme, "auto");
    assert_eq!(user.run_mode, 1);
    assert_eq!(user.log_level, "warn");
    assert!(!user.auto_check_update);
    assert!(UserConfig::defaults(Platform::MacOs).auto_check_update);
    assert_eq!(
        default_tracker_source(),
        vec![
            TRACKER_BEST_IP_URL_CDN.to_string(),
            TRACKER_BEST_URL_CDN.to_string()
        ]
    );

    let system = SystemConfig::defaults(Platform::Linux, "/tmp/motrix", "/home/u/Downloads");
    assert_eq!(system.max_concurrent_downloads, 5);
    assert_eq!(system.rpc_listen_port, 16800);
    assert_eq!(system.max_connection_per_server, 64);
    assert_eq!(system.dir, "/home/u/Downloads");
    assert!(system.continue_partial);
    assert_eq!(f64::from_bits(system.seed_ratio), 2.0);
}

#[test]
fn dht_files_lie_in_the_data_directory() {
    let system = SystemConfig::defaults(Platform::Linux, "/tmp/motrix", "/dl");
    assert_eq!(system.dht_file_path, "/tmp/motrix/dht.dat");
    assert_eq!(system.dht_file_path6, "/tmp/motrix/dht6.dat");
    let system = SystemConfig::defaults(Platform::Windows, r"C:\Users\u\motrix", r"D:\dl");
    assert_eq!(system.dht_file_path, r"C:\Users\u\motrix\dht.dat");
    assert_eq!(system.dht_file_path6, r"C:\Users\u\motrix\dht6.dat");
}

#[test]
fn update_merges_and_preserves_extra_keys() {
    let patch = Json::Object(table(vec![
        (
            "user",
            Json::Object(table(vec![("theme", text("dark")), ("some-custom-key", num(42))])),
        ),
        (
            "system",
            Json::Object(table(vec![("max-concurrent-downloads", num(10))])),
        ),
    ]));
    let mut user = table(vec![("theme", text("auto")), ("log-level", text("warn"))]);
    let mut system = table(vec![
        ("max-concurrent-downloads", num(5)),
        ("rpc-listen-port", num(16800)),
    ]);
    for step in preference_steps(patch.get("user"), patch.get("system")) {
        match step {
            PreferenceStep::User(patch) => merge_patch(&mut user, &patch),
            PreferenceStep::System(patch) => merge_patch(&mut system, &patch),
            PreferenceStep::Reject(part) => panic!("{part}"),
        }
    }
    assert_eq!(
        user,
        table(vec![
            ("theme", text("dark")),
            ("log-level", text("warn")),
            ("some-custom-key", num(42)),
        ])
    );
    assert_eq!(
        system,
        table(vec![
            ("max-concurrent-downloads", num(10)),
            ("rpc-listen-port", num(16800)),
        ])
    );
}

#[test]
fn defaults_fill_only_gaps() {
    let mut stored = table(vec![("theme", text("dark"))]);
    complete_with(
        &mut stored,
        &table(vec![("theme", text("auto")), ("log-level", text("warn"))]),
    );
    assert_eq!(
        stored,
        table(vec![("theme", text("dark")), ("log-level", text("warn"))])
    );
}

#[test]
fn preferences_are_saved_in_order() {
    let user = Json::Object(table(vec![("theme", text("dark"))]));
    let system = Json::Object(table(vec![("max-concurrent-downloads", num(10))]));
    assert_eq!(
        preference_steps(Some(&user), Some(&system)),
        vec![
            PreferenceStep::System(table(vec![("max-concurrent-downloads", num(10))])),
            PreferenceStep::User(table(vec![("theme", text("dark"))])),
        ]
    );
    assert_eq!(preference_steps(None, None), vec![]);
    assert_eq!(
        preference_steps(Some(&num(1)), None),
        vec![PreferenceStep::Reject("user".to_string())]
    );
    assert_eq!(
        preference_steps(Some(&user), Some(&Json::Null)),
        vec![PreferenceStep::Reject("system".to_string())]
    );
    assert_eq!(
        preference_steps(Some(&num(1)), Some(&system)),
        vec![
            PreferenceStep::System(table(vec![("max-concurrent-downloads", num(10))])),
            PreferenceStep::Reject("user".to_string()),
        ]
    );
}

#[test]
fn errors_in_words() {
    let (path, source) = ("/d/user.json".to_string(), "denied".to_string());
    assert_eq!(ConfigError::DataDirNotFound.message(), "无法确定数据目录");
    assert_eq!(
        ConfigError::Io { path: path.clone(), source: source.clone() }.message(),
        "配置文件 /d/user.json 读写失败: denied"
    );
    assert_eq!(
        ConfigError::Parse { path, source }.message(),
        "配置文件 /d/user.json 解析失败: denied"
    );
    assert_eq!(ConfigError::Serialize("x".to_string()).message(), "配置数据不合法: x");
    assert_eq!(
        ConfigError::InvalidPayload("user".to_string()).message(),
        "偏好载荷 user 应为 JSON 对象"
    );
}
