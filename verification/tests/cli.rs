//! The command line: the calls that commands make, and what they print.

use motrix_core::cli::{
    failure_text, format_bytes, format_engine_status, format_kv_pairs, format_percent,
    format_speed, format_task_detail, format_task_table, output_mode, plan_calls, report,
    resolve_secret, rpc_err, status_label, torrent_argument, CliCommand, OutputMode, RpcCall,
    Shown, TorrentArg, SYSTEM_KEYS, USER_KEYS,
};
use motrix_core::json::{Json, Number};
use motrix_core::rpc::{plan_request, ClientError, ItemPlan, RequestPlan, RpcRequest};
use motrix_core::rpc_backend::{route, Command};

fn text(s: &str) -> Json {
    Json::Text(s.to_string())
}

fn num(n: u64) -> Json {
    Json::Number(Number::Unsigned(n))
}

fn object(fields: Vec<(&str, Json)>) -> Json {
    Json::Object(fields.into_iter().map(|(k, v)| (k.to_string(), v)).collect())
}

fn call(method: &str, params: Vec<Json>) -> RpcCall {
    RpcCall { method: method.to_string(), params }
}

fn shown(value: &str) -> Shown {
    Shown { value: value.to_string(), pairs: vec![] }
}

const SAMPLES: [u64; 30] = [
    0,
    1,
    2,
    9,
    10,
    99,
    512,
    1000,
    1023,
    1024,
    1025,
    1075,
    1076,
    1126,
    1127,
    1536,
    52_377,
    1_048_575,
    1_048_576,
    1_572_864,
    5_000_000,
    1_073_741_823,
    1_073_741_824,
    123_456_789_012,
    1_099_511_627_776,
    9_007_199_254_740_991,
    9_007_199_254_740_993,
    1_234_567_890_123_456_789,
    18_446_744_073_709_551_000,
    u64::MAX,
];

/// The text that double precision gives.
fn in_doubles(n: u64, units: &[&str]) -> String {
    let mut v = n as f64;
    let mut i = 0;
    while v >= 1024.0 && i < units.len() - 1 {
        v /= 1024.0;
        i += 1;
    }
    format!("{v:.1} {}", units[i])
}

#[test]
fn sizes_and_speeds_read_as_in_doubles() {
    for n in SAMPLES {
        assert_eq!(format_bytes(n), in_doubles(n, &["B", "KiB", "MiB", "GiB", "TiB"]));
        if n > 0 {
            assert_eq!(format_speed(n), in_doubles(n, &["B/s", "KiB/s", "MiB/s", "GiB/s"]));
        }
    }
    for n in 0..4096u64 {
        assert_eq!(format_bytes(n * 51), in_doubles(n * 51, &["B", "KiB", "MiB", "GiB", "TiB"]));
    }
    assert_eq!(format_speed(0), "-");
    assert_eq!(format_bytes(1_572_864), "1.5 MiB");
    assert_eq!(format_speed(1_258_291), "1.2 MiB/s");
}

#[test]
fn percentages_read_as_in_doubles() {
    for done in SAMPLES {
        for total in SAMPLES {
            if total > 0 {
                assert_eq!(
                    format_percent(done, total),
                    format!("{:.1}%", done as f64 * 100.0 / total as f64)
                );
            }
        }
    }
    for done in 0..=2000u64 {
        assert_eq!(
            format_percent(done, 2000),
            format!("{:.1}%", done as f64 * 100.0 / 2000.0)
        );
    }
    assert_eq!(format_percent(1, 3), "33.3%");
}

#[test]
fn tasks_are_listed_in_a_table() {
    assert_eq!(format_task_table(&Json::Null), "（无任务）");
    assert_eq!(format_task_table(&Json::Array(vec![])), "（无任务）");
    let tasks = Json::Array(vec![
        object(vec![
            ("gid", text("0123456789abcdef")),
            ("status", text("active")),
            ("totalLength", text("2000")),
            ("completedLength", text("500")),
            ("downloadSpeed", text("2048")),
        ]),
        object(vec![("gid", num(3)), ("status", text("odd")), ("totalLength", text("x"))]),
    ]);
    let rule = "─".repeat(46);
    let head = format!("{:<16} {:<8} {:>7} {:>10}", "GID", "状态", "进度", "速度");
    let one = format!("{:<16} {:<8} {:>7} {:>10}", "0123456789abcdef", "下载中", "25.0%", "2.0 KiB/s");
    let two = format!("{:<16} {:<8} {:>7} {:>10}", "-", "odd", "-", "-");
    assert_eq!(format_task_table(&tasks), format!("{head}\n{rule}\n{one}\n{two}"));
}

#[test]
fn a_task_is_shown_in_detail() {
    let task = object(vec![
        ("gid", text("g")),
        ("status", text("error")),
        ("totalLength", text("3")),
        ("completedLength", text("1")),
        ("downloadSpeed", text("0")),
        ("uploadSpeed", text("10")),
        ("errorCode", text("1")),
        ("errorMessage", text("refused")),
        ("dir", text("/dl")),
        (
            "files",
            Json::Array(vec![
                object(vec![("path", text("/dl/a")), ("length", text("1024"))]),
                object(vec![]),
            ]),
        ),
    ]);
    assert_eq!(
        format_task_detail(&task, "\"1\""),
        "gid:            g\n\
         状态:           出错\n\
         进度:           33.3% （1.0 B / 3.0 B）\n\
         下载速度:       -\n\
         上传速度:       10.0 B/s\n\
         错误码:         \"1\"\n\
         错误信息:       refused\n\
         目录:           /dl\n\
         文件:\n\x20 - /dl/a （1.0 KiB）\n\x20 - - （0.0 B）\n"
    );
    assert_eq!(
        format_task_detail(&object(vec![("completedLength", text("7"))]), ""),
        "gid:            -\n\
         状态:           -\n\
         已下载:         7.0 B\n\
         下载速度:       -\n\
         上传速度:       -\n"
    );
}

#[test]
fn the_state_of_the_engine_is_shown() {
    let result = Json::Array(vec![
        object(vec![("version", text("1.8.19"))]),
        object(vec![("downloadSpeed", text("5")), ("numActive", text("1"))]),
    ]);
    assert_eq!(
        format_engine_status(&result),
        "引擎版本: 1.8.19\n下载速度: 5\n上传速度: -\n活动任务: 1\n等待任务: -\n已停止任务: -\n累计停止: -\n"
    );
    assert!(format_engine_status(&Json::Null).starts_with("引擎版本: 未知\n"));
}

#[test]
fn settings_are_listed_by_name() {
    let pair = |k: &str, v: &str| (k.to_string(), v.to_string());
    assert_eq!(
        format_kv_pairs(&vec![
            pair("split", "\"16\""),
            pair("dir", "\"/dl\""),
            pair("max-tries", "5"),
            pair("d", "1"),
        ]),
        "d = 1\ndir = \"/dl\"\nmax-tries = 5\nsplit = \"16\""
    );
    assert_eq!(format_kv_pairs(&vec![]), "");
}

#[test]
fn status_names_are_translated() {
    for (name, label) in [
        ("active", "下载中"),
        ("waiting", "等待中"),
        ("paused", "已暂停"),
        ("error", "出错"),
        ("complete", "已完成"),
        ("removed", "已移除"),
        ("other", "other"),
    ] {
        assert_eq!(status_label(name), label);
    }
}

#[test]
fn commands_make_calls() {
    let add = CliCommand::Add {
        urls: vec!["http://a".to_string(), "http://b".to_string()],
        dir: Some("/dl".to_string()),
        connections: Some(8),
        limit: Some("1M".to_string()),
    };
    let calls = plan_calls(&add, "").expect("one call");
    assert_eq!(calls.len(), 1);
    assert_eq!(calls[0].method, "aria2.addUri");
    assert_eq!(calls[0].params[0], Json::Array(vec![text("http://a"), text("http://b")]));
    assert_eq!(calls[0].params[1].get("dir"), Some(&text("/dl")));
    assert_eq!(calls[0].params[1].get("max-connection-per-server"), Some(&text("8")));
    assert_eq!(calls[0].params[1].get("max-download-limit"), Some(&text("1M")));

    assert_eq!(
        plan_calls(&CliCommand::List { kind: "active".to_string() }, ""),
        Ok(vec![call("aria2.tellActive", vec![])])
    );
    assert_eq!(
        plan_calls(&CliCommand::List { kind: "stopped".to_string() }, ""),
        Ok(vec![call("aria2.tellStopped", vec![num(0), num(100)])])
    );
    assert_eq!(
        plan_calls(&CliCommand::List { kind: "x".to_string() }, ""),
        Err("未知任务类型 `x`（可选: active | waiting | stopped）".to_string())
    );
    assert_eq!(
        plan_calls(
            &CliCommand::Remove { gids: vec!["a".to_string(), "b".to_string()], force: true },
            "s"
        ),
        Ok(vec![
            call("aria2.forceRemove", vec![text("a")]),
            call("aria2.forceRemove", vec![text("b")]),
        ])
    );
    assert_eq!(
        plan_calls(&CliCommand::Pause { gids: vec![] }, ""),
        Err("至少需要一个 gid 参数".to_string())
    );
    assert_eq!(
        plan_calls(&CliCommand::EngineStatus, ""),
        Ok(vec![call(
            "system.multicall",
            vec![Json::Array(vec![
                Json::Array(vec![text("aria2.getVersion"), Json::Array(vec![])]),
                Json::Array(vec![text("aria2.getGlobalStat"), Json::Array(vec![])]),
            ])]
        )])
    );
}

#[test]
fn settings_go_where_they_belong() {
    let set = |key: &str| CliCommand::ConfigSet { key: key.to_string(), value: "v".to_string() };
    assert_eq!(
        plan_calls(&set("theme"), ""),
        Ok(vec![call("motrix.saveUserConfig", vec![object(vec![("theme", text("v"))])])])
    );
    assert_eq!(
        plan_calls(&set("split"), ""),
        Ok(vec![call("aria2.changeGlobalOption", vec![object(vec![("split", text("v"))])])])
    );
    assert_eq!(
        plan_calls(&set("nothing"), ""),
        Err(
            "未知配置键: nothing（键名清单见 src/shared/configKeys.js 的 userKeys / systemKeys）"
                .to_string()
        )
    );
    assert!(USER_KEYS.iter().all(|key| !SYSTEM_KEYS.contains(key)));
}

#[test]
fn errors_come_with_advice() {
    let refused = ClientError::Connection("refused".to_string());
    assert_eq!(
        rpc_err(&refused),
        "无法连接到 RPC 服务: refused（请确认 Motrix 后端已启动，且 --rpc-url 指向正确）"
    );
    let denied =
        ClientError::ServerError { code: 1, message: "Authorization failed".to_string() };
    assert_eq!(
        rpc_err(&denied),
        "Authorization failed（请检查 --rpc-secret / 环境变量 MOTRIX_RPC_SECRET / system.json 中的 rpc-secret）"
    );
    assert_eq!(rpc_err(&ClientError::HttpStatus(500)), "RPC 服务返回 HTTP 状态码 500");

    let set = CliCommand::ConfigSet { key: "theme".to_string(), value: "v".to_string() };
    let missing = ClientError::ServerError { code: -32601, message: "no".to_string() };
    assert_eq!(
        failure_text(&set, &missing),
        "后端暂未实现 motrix.saveUserConfig（no），用户配置写入将在后续阶段上线"
    );
    assert_eq!(failure_text(&set, &denied), "Authorization failed");
    assert_eq!(failure_text(&CliCommand::Purge, &refused), rpc_err(&refused));
}

#[test]
fn the_secret_comes_from_the_first_place_that_has_one() {
    let system = Some(object(vec![("rpc-secret", text("file"))]));
    let some = |s: &str| Some(s.to_string());
    assert_eq!(resolve_secret(&some("arg"), &some("env"), &system), "arg");
    assert_eq!(resolve_secret(&some(""), &some("env"), &system), "");
    assert_eq!(resolve_secret(&None, &some("env"), &system), "env");
    assert_eq!(resolve_secret(&None, &some(""), &system), "file");
    assert_eq!(resolve_secret(&None, &None, &Some(object(vec![("rpc-secret", num(1))]))), "");
    assert_eq!(resolve_secret(&None, &None, &None), "");
}

#[test]
fn torrents_are_links_files_or_text() {
    assert_eq!(
        torrent_argument("magnet:?xt=a.torrent"),
        TorrentArg::Payload("magnet:?xt=a.torrent".to_string())
    );
    assert_eq!(torrent_argument("/x/a.torrent"), TorrentArg::File("/x/a.torrent".to_string()));
    assert_eq!(torrent_argument("ZDQ6"), TorrentArg::Payload("ZDQ6".to_string()));
}

#[test]
fn quiet_wins_over_json() {
    assert_eq!(output_mode(true, true), OutputMode::Silent);
    assert_eq!(output_mode(false, true), OutputMode::Json);
    assert_eq!(output_mode(false, false), OutputMode::Human);
}

#[test]
fn commands_report_their_answers() {
    let gids = Json::Array(vec![text("a"), num(1), text("b")]);
    let add = CliCommand::Add { urls: vec![], dir: None, connections: None, limit: None };
    assert_eq!(
        report(&add, &gids, &shown("[..]")),
        Ok("任务已添加: a\n任务已添加: b".to_string())
    );
    assert_eq!(report(&add, &num(1), &shown("1")), Ok("任务已添加: 1".to_string()));
    let pause = CliCommand::Pause { gids: vec!["a".to_string()] };
    assert_eq!(report(&pause, &text("a"), &shown("\"a\"")), Ok("已暂停: \"a\"".to_string()));
    let get = |key: &str| CliCommand::ConfigGet { only: Some(key.to_string()) };
    let settings = object(vec![("dir", text("/dl")), ("split", num(16)), ("none", Json::Null)]);
    assert_eq!(report(&get("dir"), &settings, &shown("\"/dl\"")), Ok("/dl".to_string()));
    assert_eq!(report(&get("split"), &settings, &shown("16")), Ok("16".to_string()));
    assert_eq!(report(&get("none"), &settings, &shown("")), Err("未找到配置键: none".to_string()));
    assert_eq!(report(&get("x"), &settings, &shown("")), Err("未找到配置键: x".to_string()));
    let set = CliCommand::ConfigSet { key: "split".to_string(), value: "8".to_string() };
    assert_eq!(report(&set, &text("OK"), &shown("")), Ok("已设置全局选项: split = 8".to_string()));
    assert_eq!(report(&CliCommand::Purge, &text("OK"), &shown("")), Ok("已清除下载记录".to_string()));
}

#[test]
fn calls_are_understood() {
    let understood = |c: CliCommand| {
        let calls = plan_calls(&c, "").expect("calls");
        calls.iter().map(|call| route(&call.method, &call.params)).collect::<Vec<_>>()
    };
    assert_eq!(
        understood(CliCommand::Pause { gids: vec!["a".to_string(), "b".to_string()] }),
        vec![
            Ok(Command::Pause { gid: "a".to_string() }),
            Ok(Command::Pause { gid: "b".to_string() }),
        ]
    );
    assert_eq!(
        understood(CliCommand::List { kind: "waiting".to_string() }),
        vec![Ok(Command::Waiting { offset: 0, num: 100 })]
    );
    assert_eq!(
        understood(CliCommand::AddTorrent { payload: "AAAA".to_string() }),
        vec![Ok(Command::AddTorrent { torrent: "AAAA".to_string(), options: Json::Null })]
    );
    assert_eq!(understood(CliCommand::ConfigGet { only: None }), vec![Ok(Command::Options)]);
    assert_eq!(
        understood(CliCommand::ConfigSet { key: "theme".to_string(), value: "v".to_string() }),
        vec![Ok(Command::SaveUser { patch: vec![("theme".to_string(), text("v"))] })]
    );
}

#[test]
fn the_state_of_an_engine_with_a_secret_is_asked_for() {
    let token = || text("token:s3cret");
    let mut calls = plan_calls(&CliCommand::EngineStatus, "s3cret").expect("one call");
    assert_eq!(
        calls,
        vec![call(
            "system.multicall",
            vec![Json::Array(vec![
                Json::Array(vec![text("aria2.getVersion"), Json::Array(vec![token()])]),
                Json::Array(vec![text("aria2.getGlobalStat"), Json::Array(vec![token()])]),
            ])]
        )]
    );
    let batch = calls.remove(0);
    let mut params = batch.params;
    params.insert(0, token());
    let req = RpcRequest {
        jsonrpc: Some("2.0".to_string()),
        id: Some(num(1)),
        method: batch.method,
        params,
    };
    let item = |method: &str| ItemPlan::Call { method: method.to_string(), params: vec![] };
    assert_eq!(
        plan_request(&req, "s3cret"),
        RequestPlan::Batch(vec![item("aria2.getVersion"), item("aria2.getGlobalStat")])
    );
}

#[test]
fn settings_that_are_no_object_are_shown_as_they_are() {
    let get = CliCommand::ConfigGet { only: None };
    assert_eq!(report(&get, &num(7), &shown("7")), Ok("7".to_string()));
    assert_eq!(report(&get, &object(vec![]), &shown("{}")), Ok(String::new()));
}
