//! The command line: what each command asks of a running engine, and how the
//! answers read.

use vstd::prelude::*;

use crate::assoc;
use crate::digits;
use crate::double;
use crate::json::{self, Json, JsonView};
use crate::kget::mentions;
use crate::options::{self, collect_texts};
use crate::rpc::{self, ClientError, ItemView, PlanView, RequestView, RpcErrorView};
use crate::rpc_backend::{self, CommandView};
use crate::task::text_list_json;
use crate::text::{self, chars_of, join2, join3, same};

verus! {

/// The settings of the user.
pub const USER_KEYS: [&'static str; 28] = [
    "auto-check-update",
    "auto-hide-window",
    "auto-sync-tracker",
    "cookie",
    "enable-upnp",
    "engine-bin-path",
    "engine-max-connection-per-server",
    "favorite-directories",
    "hide-app-menu",
    "history-directories",
    "keep-seeding",
    "keep-window-state",
    "last-check-update-time",
    "last-sync-tracker-time",
    "locale",
    "log-level",
    "new-task-show-downloading",
    "no-confirm-before-delete-task",
    "open-at-login",
    "protocols",
    "proxy",
    "resume-all-when-app-launched",
    "run-mode",
    "show-progress-bar",
    "task-notification",
    "theme",
    "tracker-source",
    "tray-speedometer",
];

/// The settings of the system.
pub const SYSTEM_KEYS: [&'static str; 121] = [
    "all-proxy-passwd",
    "all-proxy-user",
    "all-proxy",
    "allow-overwrite",
    "allow-piece-length-change",
    "always-resume",
    "async-dns",
    "auto-file-renaming",
    "bt-enable-hook-after-hash-check",
    "bt-enable-lpd",
    "bt-exclude-tracker",
    "bt-external-ip",
    "bt-force-encryption",
    "bt-hash-check-seed",
    "bt-load-saved-metadata",
    "bt-max-peers",
    "bt-metadata-only",
    "bt-min-crypto-level",
    "bt-prioritize-piece",
    "bt-remove-unselected-file",
    "bt-request-peer-speed-limit",
    "bt-require-crypto",
    "bt-save-metadata",
    "bt-seed-unverified",
    "bt-stop-timeout",
    "bt-tracker-connect-timeout",
    "bt-tracker-interval",
    "bt-tracker-timeout",
    "bt-tracker",
    "check-integrity",
    "checksum",
    "conditional-get",
    "connect-timeout",
    "content-disposition-default-utf8",
    "continue",
    "dht-file-path",
    "dht-file-path6",
    "dht-listen-port",
    "dir",
    "dry-run",
    "enable-http-keep-alive",
    "enable-http-pipelining",
    "enable-mmap",
    "enable-peer-exchange",
    "file-allocation",
    "follow-metalink",
    "follow-torrent",
    "force-save",
    "force-sequential",
    "ftp-passwd",
    "ftp-pasv",
    "ftp-proxy-passwd",
    "ftp-proxy-user",
    "ftp-proxy",
    "ftp-reuse-connection",
    "ftp-type",
    "ftp-user",
    "gid",
    "hash-check-only",
    "header",
    "http-accept-gzip",
    "http-auth-challenge",
    "http-no-cache",
    "http-passwd",
    "http-proxy-passwd",
    "http-proxy-user",
    "http-proxy",
    "http-user",
    "https-proxy-passwd",
    "https-proxy-user",
    "https-proxy",
    "index-out",
    "listen-port",
    "lowest-speed-limit",
    "max-concurrent-downloads",
    "max-connection-per-server",
    "max-download-limit",
    "max-file-not-found",
    "max-mmap-limit",
    "max-overall-download-limit",
    "max-overall-upload-limit",
    "max-resume-failure-tries",
    "max-tries",
    "max-upload-limit",
    "metalink-base-uri",
    "metalink-enable-unique-protocol",
    "metalink-language",
    "metalink-location",
    "metalink-os",
    "metalink-preferred-protocol",
    "metalink-version",
    "min-split-size",
    "no-file-allocation-limit",
    "no-netrc",
    "no-proxy",
    "no-want-digest-header",
    "out",
    "parameterized-uri",
    "pause-metadata",
    "pause",
    "piece-length",
    "proxy-method",
    "realtime-chunk-checksum",
    "referer",
    "remote-time",
    "remove-control-file",
    "retry-wait",
    "reuse-uri",
    "rpc-listen-port",
    "rpc-save-upload-metadata",
    "rpc-secret",
    "seed-ratio",
    "seed-time",
    "select-file",
    "split",
    "ssh-host-key-md",
    "stream-piece-selector",
    "timeout",
    "uri-selector",
    "use-head",
    "user-agent",
];

/// Whether `key` is among the names.
pub open spec fn listed(names: Seq<&'static str>, key: Seq<char>) -> bool {
    exists|i: int| 0 <= i < names.len() && (#[trigger] names[i])@ == key
}

/// Whether `key` is among the names.
fn is_listed(names: &[&'static str], key: &str) -> (r: bool)
    ensures
        r == listed(names@, key@),
{
    let mut i: usize = 0;
    while i < names.len()
        invariant
            i <= names@.len(),
            forall|j: int| 0 <= j < i ==> (#[trigger] names@[j])@ != key@,
        decreases names@.len() - i,
    {
        if same(names[i], key) {
            proof {
                assert(names@[i as int]@ == key@);
            }
            return true;
        }
        i += 1;
    }
    false
}

/// A command.
#[derive(Debug, PartialEq, Eq)]
pub enum CliCommand {
    Add {
        urls: Vec<String>,
        dir: Option<String>,
        connections: Option<u32>,
        limit: Option<String>,
    },
    /// A magnet link, or a torrent in base64.
    AddTorrent { payload: String },
    List { kind: String },
    Status { gid: String },
    Pause { gids: Vec<String> },
    PauseAll,
    Resume { gids: Vec<String> },
    ResumeAll,
    Remove { gids: Vec<String>, force: bool },
    Purge,
    ConfigGet { only: Option<String> },
    ConfigSet { key: String, value: String },
    EngineStatus,
}

/// A call to make.
#[derive(Debug, PartialEq, Eq)]
pub struct RpcCall {
    pub method: String,
    pub params: Vec<Json>,
}

/// What an `RpcCall` stands for.
pub struct CallView {
    pub method: Seq<char>,
    pub params: Seq<JsonView>,
}

impl DeepView for RpcCall {
    type V = CallView;

    open spec fn deep_view(&self) -> CallView {
        CallView { method: self.method@, params: self.params.deep_view() }
    }
}

/// The options of a new task, as the command line gives them: all of them texts.
pub open spec fn add_options(
    dir: Option<Seq<char>>,
    connections: Option<u32>,
    limit: Option<Seq<char>>,
) -> Seq<(Seq<char>, JsonView)> {
    let a = match dir {
        Some(dir) => seq![("dir"@, JsonView::Text(dir))],
        None => seq![],
    };
    let b = match connections {
        Some(n) => seq![
            ("max-connection-per-server"@, JsonView::Text(digits::dec(n as nat))),
        ],
        None => seq![],
    };
    let c = match limit {
        Some(limit) => seq![("max-download-limit"@, JsonView::Text(limit))],
        None => seq![],
    };
    a + b + c
}

/// One call with these parameters.
pub open spec fn one_call(method: Seq<char>, params: Seq<JsonView>) -> Seq<CallView> {
    seq![CallView { method, params }]
}

/// One call for each identifier.
pub open spec fn call_for_each(method: Seq<char>, gids: Seq<Seq<char>>) -> Seq<CallView> {
    Seq::new(
        gids.len(),
        |i: int| CallView { method, params: seq![JsonView::Text(gids[i])] },
    )
}

/// One call for each identifier, of which there must be one.
pub open spec fn calls_for(method: Seq<char>, gids: Seq<Seq<char>>) -> Result<
    Seq<CallView>,
    Seq<char>,
> {
    if gids.len() == 0 {
        Err("至少需要一个 gid 参数"@)
    } else {
        Ok(call_for_each(method, gids))
    }
}

/// A number as it stands in a call.
pub open spec fn count(n: i64) -> JsonView {
    JsonView::Number(json::number_of(n))
}

/// A call of a batch without parameters of its own: it carries the token for the
/// secret, where there is one.
pub open spec fn item_of(method: Seq<char>, secret: Seq<char>) -> JsonView {
    JsonView::Array(
        seq![JsonView::Text(method), JsonView::Array(rpc::with_token(seq![], secret))],
    )
}

/// A batch that asks for the version of the engine and for its figures.
pub open spec fn status_batch(secret: Seq<char>) -> JsonView {
    JsonView::Array(
        seq![item_of("aria2.getVersion"@, secret), item_of("aria2.getGlobalStat"@, secret)],
    )
}

/// The calls that a command makes to an engine with this secret, or why it is
/// refused. The token of each call comes with the request; those of a batch are in
/// it.
pub open spec fn calls_of(c: CliCommand, secret: Seq<char>) -> Result<Seq<CallView>, Seq<char>> {
    match c {
        CliCommand::Add { urls, dir, connections, limit } => Ok(
            one_call(
                "aria2.addUri"@,
                seq![
                    crate::task::text_list(urls.deep_view()),
                    JsonView::Object(
                        add_options(dir.deep_view(), connections, limit.deep_view()),
                    ),
                ],
            ),
        ),
        CliCommand::AddTorrent { payload } => Ok(
            one_call("aria2.addTorrent"@, seq![JsonView::Text(payload@)]),
        ),
        CliCommand::List { kind } => if kind@ == "active"@ {
            Ok(one_call("aria2.tellActive"@, seq![]))
        } else if kind@ == "waiting"@ {
            Ok(one_call("aria2.tellWaiting"@, seq![count(0), count(100)]))
        } else if kind@ == "stopped"@ {
            Ok(one_call("aria2.tellStopped"@, seq![count(0), count(100)]))
        } else {
            Err("未知任务类型 `"@ + kind@ + "`（可选: active | waiting | stopped）"@)
        },
        CliCommand::Status { gid } => Ok(
            one_call("aria2.tellStatus"@, seq![JsonView::Text(gid@)]),
        ),
        CliCommand::Pause { gids } => calls_for("aria2.pause"@, gids.deep_view()),
        CliCommand::PauseAll => Ok(one_call("aria2.pauseAll"@, seq![])),
        CliCommand::Resume { gids } => calls_for("aria2.unpause"@, gids.deep_view()),
        CliCommand::ResumeAll => Ok(one_call("aria2.unpauseAll"@, seq![])),
        CliCommand::Remove { gids, force } => calls_for(
            if force {
                "aria2.forceRemove"@
            } else {
                "aria2.remove"@
            },
            gids.deep_view(),
        ),
        CliCommand::Purge => Ok(one_call("aria2.purgeDownloadResult"@, seq![])),
        CliCommand::ConfigGet { .. } => Ok(one_call("aria2.getGlobalOption"@, seq![])),
        CliCommand::ConfigSet { key, value } => {
            let patch = JsonView::Object(seq![(key@, JsonView::Text(value@))]);
            if listed(USER_KEYS@, key@) {
                Ok(one_call("motrix.saveUserConfig"@, seq![patch]))
            } else if listed(SYSTEM_KEYS@, key@) {
                Ok(one_call("aria2.changeGlobalOption"@, seq![patch]))
            } else {
                Err(
                    "未知配置键: "@ + key@
                        + "（键名清单见 src/shared/configKeys.js 的 userKeys / systemKeys）"@,
                )
            }
        },
        CliCommand::EngineStatus => Ok(one_call("system.multicall"@, seq![status_batch(secret)])),
    }
}

/// Whether `r` is `want`.
pub open spec fn makes(
    r: Result<Vec<RpcCall>, String>,
    want: Result<Seq<CallView>, Seq<char>>,
) -> bool {
    match (r, want) {
        (Ok(calls), Ok(w)) => calls.deep_view() == w,
        (Err(e), Err(w)) => e@ == w,
        _ => false,
    }
}

/// One call with these parameters.
fn single(method: &str, params: Vec<Json>) -> (r: Vec<RpcCall>)
    ensures
        r.deep_view() == one_call(method@, params.deep_view()),
{
    let ghost shown = params.deep_view();
    let mut out: Vec<RpcCall> = Vec::new();
    out.push(RpcCall { method: method.to_owned(), params });
    proof {
        assert(out.deep_view() =~= one_call(method@, shown));
    }
    out
}

/// One call with one parameter.
fn with_one(method: &str, param: Json) -> (r: Vec<RpcCall>)
    ensures
        r.deep_view() == one_call(method@, seq![param@]),
{
    let ghost shown = param@;
    let mut params: Vec<Json> = Vec::new();
    params.push(param);
    proof {
        assert(params.deep_view() =~= seq![shown]);
    }
    single(method, params)
}

/// One call without parameters.
fn bare(method: &str) -> (r: Vec<RpcCall>)
    ensures
        r.deep_view() == one_call(method@, seq![]),
{
    let params: Vec<Json> = Vec::new();
    proof {
        assert(params.deep_view() =~= seq![]);
    }
    single(method, params)
}

/// A call for the first hundred of a list.
fn first_page(method: &str) -> (r: Vec<RpcCall>)
    ensures
        r.deep_view() == one_call(method@, seq![count(0), count(100)]),
{
    let mut params: Vec<Json> = Vec::new();
    params.push(json::integer(0));
    params.push(json::integer(100));
    proof {
        assert(params.deep_view() =~= seq![count(0), count(100)]);
    }
    single(method, params)
}

/// One call for each identifier.
fn each(method: &str, gids: &Vec<String>) -> (r: Result<Vec<RpcCall>, String>)
    ensures
        makes(r, calls_for(method@, gids.deep_view())),
{
    if gids.len() == 0 {
        return Err("至少需要一个 gid 参数".to_owned());
    }
    let mut out: Vec<RpcCall> = Vec::new();
    let mut i: usize = 0;
    while i < gids.len()
        invariant
            i <= gids@.len(),
            out@.len() == i,
            forall|j: int|
                0 <= j < i ==> (#[trigger] out@[j]).deep_view() == (CallView {
                    method: method@,
                    params: seq![JsonView::Text(gids@[j]@)],
                }),
        decreases gids@.len() - i,
    {
        let mut params: Vec<Json> = Vec::new();
        params.push(json::text(gids[i].as_str()));
        proof {
            assert(params.deep_view() =~= seq![JsonView::Text(gids@[i as int]@)]);
        }
        out.push(RpcCall { method: method.to_owned(), params });
        i += 1;
    }
    proof {
        assert(out.deep_view() =~= call_for_each(method@, gids.deep_view()));
    }
    Ok(out)
}

/// The call that adds a download.
fn add_call(
    urls: &Vec<String>,
    dir: &Option<String>,
    connections: &Option<u32>,
    limit: &Option<String>,
) -> (r: Vec<RpcCall>)
    ensures
        r.deep_view() == one_call(
            "aria2.addUri"@,
            seq![
                crate::task::text_list(urls.deep_view()),
                JsonView::Object(add_options(dir.deep_view(), *connections, limit.deep_view())),
            ],
        ),
{
    let mut fields: Vec<(String, Json)> = Vec::new();
    if let Some(dir) = dir {
        assoc::put(&mut fields, "dir", json::text(dir.as_str()));
    }
    if let Some(n) = connections {
        assoc::put(
            &mut fields,
            "max-connection-per-server",
            Json::Text(digits::u64_text(*n as u64)),
        );
    }
    if let Some(limit) = limit {
        assoc::put(&mut fields, "max-download-limit", json::text(limit.as_str()));
    }
    let ghost given = add_options(dir.deep_view(), *connections, limit.deep_view());
    proof {
        json::lemma_object_view(fields);
        assert(fields.deep_view() =~= given);
    }
    let mut params: Vec<Json> = Vec::new();
    params.push(text_list_json(urls));
    params.push(Json::Object(fields));
    proof {
        assert(params.deep_view() =~= seq![
            crate::task::text_list(urls.deep_view()),
            JsonView::Object(given),
        ]);
    }
    single("aria2.addUri", params)
}

/// A call of a batch without parameters of its own.
fn batch_item(method: &str, secret: &str) -> (r: Json)
    ensures
        r@ == item_of(method@, secret@),
{
    let mut params: Vec<Json> = Vec::new();
    if !secret.is_empty() {
        params.push(Json::Text(join2("token:", secret)));
    }
    let mut item: Vec<Json> = Vec::new();
    proof {
        json::lemma_array_view(params);
        assert(params.deep_view() =~= rpc::with_token(seq![], secret@));
    }
    item.push(json::text(method));
    item.push(Json::Array(params));
    proof {
        json::lemma_array_view(item);
        assert(item.deep_view() =~= item_of(method@, secret@)->Array_0);
    }
    Json::Array(item)
}

/// The calls that a command makes to an engine with this secret, or why it is
/// refused.
pub fn plan_calls(c: &CliCommand, secret: &str) -> (r: Result<Vec<RpcCall>, String>)
    ensures
        makes(r, calls_of(*c, secret@)),
{
    match c {
        CliCommand::Add { urls, dir, connections, limit } => Ok(
            add_call(urls, dir, connections, limit),
        ),
        CliCommand::AddTorrent { payload } => Ok(
            with_one("aria2.addTorrent", json::text(payload.as_str())),
        ),
        CliCommand::List { kind } => if same(kind.as_str(), "active") {
            Ok(bare("aria2.tellActive"))
        } else if same(kind.as_str(), "waiting") {
            Ok(first_page("aria2.tellWaiting"))
        } else if same(kind.as_str(), "stopped") {
            Ok(first_page("aria2.tellStopped"))
        } else {
            Err(
                join3(
                    "未知任务类型 `",
                    kind.as_str(),
                    "`（可选: active | waiting | stopped）",
                ),
            )
        },
        CliCommand::Status { gid } => Ok(with_one("aria2.tellStatus", json::text(gid.as_str()))),
        CliCommand::Pause { gids } => each("aria2.pause", gids),
        CliCommand::PauseAll => Ok(bare("aria2.pauseAll")),
        CliCommand::Resume { gids } => each("aria2.unpause", gids),
        CliCommand::ResumeAll => Ok(bare("aria2.unpauseAll")),
        CliCommand::Remove { gids, force } => if *force {
            each("aria2.forceRemove", gids)
        } else {
            each("aria2.remove", gids)
        },
        CliCommand::Purge => Ok(bare("aria2.purgeDownloadResult")),
        CliCommand::ConfigGet { .. } => Ok(bare("aria2.getGlobalOption")),
        CliCommand::ConfigSet { key, value } => {
            let user = USER_KEYS;
            let system = SYSTEM_KEYS;
            let mut fields: Vec<(String, Json)> = Vec::new();
            assoc::put(&mut fields, key.as_str(), json::text(value.as_str()));
            proof {
                json::lemma_object_view(fields);
                assert(fields.deep_view() =~= seq![(key@, JsonView::Text(value@))]);
            }
            if is_listed(user.as_slice(), key.as_str()) {
                Ok(with_one("motrix.saveUserConfig", Json::Object(fields)))
            } else if is_listed(system.as_slice(), key.as_str()) {
                Ok(with_one("aria2.changeGlobalOption", Json::Object(fields)))
            } else {
                Err(
                    join3(
                        "未知配置键: ",
                        key.as_str(),
                        "（键名清单见 src/shared/configKeys.js 的 userKeys / systemKeys）",
                    ),
                )
            }
        },
        CliCommand::EngineStatus => {
            let mut batch: Vec<Json> = Vec::new();
            batch.push(batch_item("aria2.getVersion", secret));
            batch.push(batch_item("aria2.getGlobalStat", secret));
            proof {
                json::lemma_array_view(batch);
                assert(batch.deep_view() =~= status_batch(secret@)->Array_0);
            }
            Ok(with_one("system.multicall", Json::Array(batch)))
        },
    }
}

/// An error of a call in words, with advice on what to look at.
pub open spec fn advice(e: ClientError) -> Seq<char> {
    match e {
        ClientError::Connection(_) => e.words()
            + "（请确认 Motrix 后端已启动，且 --rpc-url 指向正确）"@,
        ClientError::ServerError { code, .. } => if code == 1 {
            e.words()
                + "（请检查 --rpc-secret / 环境变量 MOTRIX_RPC_SECRET / system.json 中的 rpc-secret）"@
        } else {
            e.words()
        },
        _ => e.words(),
    }
}

/// An error of a call in words, with advice on what to look at.
pub fn rpc_err(e: &ClientError) -> (r: String)
    ensures
        r@ == advice(*e),
{
    let mut out = e.message();
    match e {
        ClientError::Connection(_) => {
            out.append("（请确认 Motrix 后端已启动，且 --rpc-url 指向正确）");
        },
        ClientError::ServerError { code, .. } => {
            if *code == 1 {
                out.append(
                    "（请检查 --rpc-secret / 环境变量 MOTRIX_RPC_SECRET / system.json 中的 rpc-secret）",
                );
            }
        },
        _ => {},
    }
    out
}

/// Whether an error says that the engine does not know the method.
pub open spec fn not_provided(e: ClientError) -> bool {
    match e {
        ClientError::ServerError { code, message } => code == -32601 || text::find_text(
            message@,
            "未实现"@,
        ) >= 0,
        _ => false,
    }
}

/// The error of a call that a command made, in words.
pub fn failure_text(c: &CliCommand, e: &ClientError) -> (r: String)
    ensures
        match *c {
            CliCommand::ConfigSet { key, .. } => if listed(USER_KEYS@, key@) {
                if not_provided(*e) {
                    r@ == "后端暂未实现 motrix.saveUserConfig（"@ + e.words()
                        + "），用户配置写入将在后续阶段上线"@
                } else {
                    r@ == e.words()
                }
            } else {
                r@ == advice(*e)
            },
            _ => r@ == advice(*e),
        },
{
    if let CliCommand::ConfigSet { key, .. } = c {
        let user = USER_KEYS;
        if is_listed(user.as_slice(), key.as_str()) {
            if let ClientError::ServerError { code, message } = e {
                if *code == -32601 || mentions(message.as_str(), "未实现") {
                    return join3(
                        "后端暂未实现 motrix.saveUserConfig（",
                        message.as_str(),
                        "），用户配置写入将在后续阶段上线",
                    );
                }
            }
            return e.message();
        }
    }
    rpc_err(e)
}

/// Where the secret comes from: the command line, or else the environment unless
/// it is empty there, or else the settings; empty where it comes from nowhere.
pub open spec fn secret_from(
    arg: Option<Seq<char>>,
    env: Option<Seq<char>>,
    system: Option<JsonView>,
) -> Seq<char> {
    if arg is Some {
        arg->0
    } else if env is Some && env->0.len() > 0 {
        env->0
    } else {
        match system {
            Some(v) => match v.field("rpc-secret"@) {
                Some(JsonView::Text(s)) => s,
                _ => seq![],
            },
            None => seq![],
        }
    }
}

/// The secret for the calls.
pub fn resolve_secret(
    arg: &Option<String>,
    env: &Option<String>,
    system: &Option<Json>,
) -> (r: String)
    ensures
        r@ == secret_from(arg.deep_view(), env.deep_view(), system.deep_view()),
{
    if let Some(s) = arg {
        return s.clone();
    }
    if let Some(s) = env {
        if !s.as_str().is_empty() {
            return s.clone();
        }
    }
    if let Some(v) = system {
        if let Some(field) = v.get("rpc-secret") {
            if let Some(s) = field.as_str() {
                return s.to_owned();
            }
        }
    }
    let none = String::new();
    proof {
        assert(none@ =~= seq![]);
    }
    none
}

/// What names a torrent on the command line.
#[derive(Debug, PartialEq, Eq)]
pub enum TorrentArg {
    /// A magnet link, or a torrent in base64, to be handed on as it is.
    Payload(String),
    /// A file to be read and put into base64.
    File(String),
}

/// Whether `s` ends with `p`.
pub open spec fn ends(s: Seq<char>, p: Seq<char>) -> bool {
    p.len() <= s.len() && s.skip(s.len() - p.len()) == p
}

/// What an argument names.
pub fn torrent_argument(input: &str) -> (r: TorrentArg)
    ensures
        match r {
            TorrentArg::File(path) => !text::starts(input@, "magnet:"@) && ends(
                input@,
                ".torrent"@,
            ) && path@ == input@,
            TorrentArg::Payload(s) => (text::starts(input@, "magnet:"@) || !ends(
                input@,
                ".torrent"@,
            )) && s@ == input@,
        },
{
    if text::starts_with(input, "magnet:") {
        return TorrentArg::Payload(input.to_owned());
    }
    let chars = chars_of(input);
    let suffix = chars_of(".torrent");
    let n: usize = chars.len();
    let k: usize = suffix.len();
    if k <= n {
        let tail = text::sub_chars(&chars, n - k, n);
        proof {
            assert(tail@ =~= input@.skip(n - k));
        }
        if same(text::text_of(&tail).as_str(), ".torrent") {
            return TorrentArg::File(input.to_owned());
        }
    }
    TorrentArg::Payload(input.to_owned())
}

/// How an answer is put out.
#[derive(Debug, Clone, Copy, PartialEq, Eq, Structural)]
pub enum OutputMode {
    Silent,
    Json,
    Human,
}

/// How an answer is put out: not at all where that is asked for, before anything
/// else.
pub fn output_mode(quiet: bool, json: bool) -> (r: OutputMode)
    ensures
        r == (if quiet {
            OutputMode::Silent
        } else if json {
            OutputMode::Json
        } else {
            OutputMode::Human
        }),
{
    if quiet {
        OutputMode::Silent
    } else if json {
        OutputMode::Json
    } else {
        OutputMode::Human
    }
}

/// A state in the words of the command line.
pub open spec fn label(s: Seq<char>) -> Seq<char> {
    if s == "active"@ {
        "下载中"@
    } else if s == "waiting"@ {
        "等待中"@
    } else if s == "paused"@ {
        "已暂停"@
    } else if s == "error"@ {
        "出错"@
    } else if s == "complete"@ {
        "已完成"@
    } else if s == "removed"@ {
        "已移除"@
    } else {
        s
    }
}

/// A state in the words of the command line.
pub fn status_label(s: &str) -> (r: String)
    ensures
        r@ == label(s@),
{
    if same(s, "active") {
        "下载中".to_owned()
    } else if same(s, "waiting") {
        "等待中".to_owned()
    } else if same(s, "paused") {
        "已暂停".to_owned()
    } else if same(s, "error") {
        "出错".to_owned()
    } else if same(s, "complete") {
        "已完成".to_owned()
    } else if same(s, "removed") {
        "已移除".to_owned()
    } else {
        s.to_owned()
    }
}

/// The number that the text under `key` is; zero where there is none.
pub open spec fn number_at(v: JsonView, key: Seq<char>) -> nat {
    match v.field(key) {
        Some(JsonView::Text(s)) => match digits::unsigned(s, u64::MAX as nat) {
            Some(n) => n,
            None => 0,
        },
        _ => 0,
    }
}

/// The number that the text under `key` is; zero where there is none.
fn read_number(v: &Json, key: &str) -> (r: u64)
    ensures
        r == number_at(v@, key@),
{
    match v.get(key) {
        Some(field) => match field.as_str() {
            Some(s) => match digits::parse_unsigned(s, u64::MAX) {
                Some(n) => n,
                None => 0,
            },
            None => 0,
        },
        None => 0,
    }
}

/// The text under `key`, or else `default`.
pub open spec fn text_at(v: JsonView, key: Seq<char>, default: Seq<char>) -> Seq<char> {
    match v.field(key) {
        Some(JsonView::Text(s)) => s,
        _ => default,
    }
}

/// The text under `key`, or else `default`.
fn read_text(v: &Json, key: &str, default: &str) -> (r: String)
    ensures
        r@ == text_at(v@, key@, default@),
{
    match v.get(key) {
        Some(field) => match field.as_str() {
            Some(s) => s.to_owned(),
            None => default.to_owned(),
        },
        None => default.to_owned(),
    }
}

/// A number of tenths, as a decimal fraction.
pub open spec fn tenths_text(t: nat) -> Seq<char> {
    digits::dec(t / 10) + "."@ + digits::dec(t % 10)
}

/// Appends a number of tenths, as a decimal fraction.
fn push_tenths(out: &mut String, t: u128)
    ensures
        final(out)@ == old(out)@ + tenths_text(t as nat),
{
    digits::push_dec_wide(out, t / 10);
    out.append(".");
    digits::push_dec_wide(out, t % 10);
    proof {
        assert(out@ =~= old(out)@ + tenths_text(t as nat));
    }
}

/// The unit that a size is given in, as its number of bytes and its place among
/// the units: the first under which the size is less than 1024, if there is one.
pub open spec fn unit_for(size: nat, bytes: nat, place: int, last: int) -> (nat, int)
    decreases last - place,
{
    if place < last && size >= 1024 * bytes {
        unit_for(size, 1024 * bytes, place + 1, last)
    } else {
        (bytes, place)
    }
}

/// A size in its unit, with one decimal.
pub open spec fn size_text(n: nat, units: Seq<&'static str>) -> Seq<char> {
    let size = double::held(n);
    let (bytes, place) = unit_for(size, 1, 0, units.len() - 1);
    tenths_text(double::round_even(10 * size, bytes)) + " "@ + units[place]@
}

/// A size in its unit, with one decimal.
fn sized(n: u64, units: &[&'static str]) -> (r: String)
    requires
        0 < units@.len() <= 5,
    ensures
        r@ == size_text(n as nat, units@),
{
    let size: u128 = double::hold(n as u128);
    let last: usize = units.len() - 1;
    let mut bytes: u128 = 1;
    let mut place: usize = 0;
    let ghost want = unit_for(size as nat, 1, 0, last as int);
    while place < last && size >= 1024 * bytes
        invariant
            place <= last < 5,
            0 < bytes,
            place == 0 ==> bytes == 1,
            place == 1 ==> bytes == 0x400,
            place == 2 ==> bytes == 0x10_0000,
            place == 3 ==> bytes == 0x4000_0000,
            place == 4 ==> bytes == 0x100_0000_0000,
            unit_for(size as nat, bytes as nat, place as int, last as int) == want,
        decreases last - place,
    {
        bytes = bytes * 1024;
        place += 1;
    }
    let mut out = String::new();
    push_tenths(&mut out, double::rounded(10 * size, bytes));
    out.append(" ");
    out.append(units[place]);
    proof {
        assert(out@ =~= size_text(n as nat, units@));
    }
    out
}

/// The units of a speed.
pub const SPEED_UNITS: [&'static str; 4] = ["B/s", "KiB/s", "MiB/s", "GiB/s"];

/// The units of a size.
pub const SIZE_UNITS: [&'static str; 5] = ["B", "KiB", "MiB", "GiB", "TiB"];

/// A speed in its unit; a dash for none.
pub open spec fn speed_text(bytes: nat) -> Seq<char> {
    if bytes == 0 {
        "-"@
    } else {
        size_text(bytes, SPEED_UNITS@)
    }
}

/// A speed in its unit; a dash for none.
pub fn format_speed(bytes: u64) -> (r: String)
    ensures
        r@ == speed_text(bytes as nat),
{
    if bytes == 0 {
        return "-".to_owned();
    }
    let units = SPEED_UNITS;
    sized(bytes, units.as_slice())
}

/// A size in its unit.
pub fn format_bytes(n: u64) -> (r: String)
    ensures
        r@ == size_text(n as nat, SIZE_UNITS@),
{
    let units = SIZE_UNITS;
    sized(n, units.as_slice())
}

/// How much of a task is done, in percent with one decimal. As in double
/// precision, each number and each step is held with 53 bits.
pub open spec fn percent_text(done: nat, total: nat) -> Seq<char> {
    tenths_text(
        double::tenths_of(double::held(100 * double::held(done)), double::held(total)),
    ) + "%"@
}

/// How much of a task is done, in percent with one decimal.
pub fn format_percent(done: u64, total: u64) -> (r: String)
    requires
        total > 0,
    ensures
        r@ == percent_text(done as nat, total as nat),
{
    let part: u128 = double::hold(done as u128);
    let hundredfold: u128 = double::hold(100 * part);
    let whole: u128 = double::hold(total as u128);
    let mut out = String::new();
    push_tenths(&mut out, double::tenths(hundredfold, whole));
    out.append("%");
    proof {
        assert(out@ =~= percent_text(done as nat, total as nat));
    }
    out
}

/// `n` blanks.
pub open spec fn blanks(n: int) -> Seq<char> {
    Seq::new(
        if n > 0 {
            n as nat
        } else {
            0
        },
        |i: int| ' ',
    )
}

/// `s` at the left of `width` places.
pub open spec fn left(s: Seq<char>, width: int) -> Seq<char> {
    s + blanks(width - s.len())
}

/// `s` at the right of `width` places.
pub open spec fn right(s: Seq<char>, width: int) -> Seq<char> {
    blanks(width - s.len()) + s
}

/// Appends the blanks that `len` characters lack for `width`.
fn push_blanks(out: &mut String, len: usize, width: usize)
    ensures
        final(out)@ == old(out)@ + blanks(width - len),
{
    let mut i: usize = len;
    let ghost before = out@;
    proof {
        assert(before + blanks(0) =~= before);
    }
    while i < width
        invariant
            len <= i,
            i <= width || i == len,
            out@ == before + blanks(i - len),
        decreases width - i,
    {
        out.push(' ');
        i += 1;
        proof {
            assert(out@ =~= before + blanks(i - len));
        }
    }
    proof {
        assert(blanks(width - len) =~= blanks(i - len));
    }
}

/// Appends `s` at the left of `width` places.
fn push_left(out: &mut String, s: &str, width: usize)
    ensures
        final(out)@ == old(out)@ + left(s@, width as int),
{
    let len: usize = chars_of(s).len();
    out.append(s);
    push_blanks(out, len, width);
    proof {
        assert(out@ =~= old(out)@ + left(s@, width as int));
    }
}

/// Appends `s` at the right of `width` places.
fn push_right(out: &mut String, s: &str, width: usize)
    ensures
        final(out)@ == old(out)@ + right(s@, width as int),
{
    let len: usize = chars_of(s).len();
    push_blanks(out, len, width);
    out.append(s);
    proof {
        assert(out@ =~= old(out)@ + right(s@, width as int));
    }
}

/// A row of the table of tasks.
pub open spec fn row_text(
    gid: Seq<char>,
    status: Seq<char>,
    percent: Seq<char>,
    speed: Seq<char>,
) -> Seq<char> {
    left(gid, 16) + " "@ + left(status, 8) + " "@ + right(percent, 7) + " "@ + right(speed, 10)
}

/// A task as a row of the table.
pub open spec fn task_row(t: JsonView) -> Seq<char> {
    let total = number_at(t, "totalLength"@);
    row_text(
        text_at(t, "gid"@, "-"@),
        label(text_at(t, "status"@, "-"@)),
        if total > 0 {
            percent_text(number_at(t, "completedLength"@), total)
        } else {
            "-"@
        },
        speed_text(number_at(t, "downloadSpeed"@)),
    )
}

/// Appends a row of the table of tasks.
fn push_row(out: &mut String, gid: &str, status: &str, percent: &str, speed: &str)
    ensures
        final(out)@ == old(out)@ + row_text(gid@, status@, percent@, speed@),
{
    push_left(out, gid, 16);
    out.append(" ");
    push_left(out, status, 8);
    out.append(" ");
    push_right(out, percent, 7);
    out.append(" ");
    push_right(out, speed, 10);
    proof {
        assert(out@ =~= old(out)@ + row_text(gid@, status@, percent@, speed@));
    }
}

/// Appends a task as a row of the table.
fn push_task_row(out: &mut String, t: &Json)
    ensures
        final(out)@ == old(out)@ + task_row(t@),
{
    let gid = read_text(t, "gid", "-");
    let raw = read_text(t, "status", "-");
    let status = status_label(raw.as_str());
    let total: u64 = read_number(t, "totalLength");
    let done: u64 = read_number(t, "completedLength");
    let percent = if total > 0 {
        format_percent(done, total)
    } else {
        "-".to_owned()
    };
    let speed = format_speed(read_number(t, "downloadSpeed"));
    push_row(out, gid.as_str(), status.as_str(), percent.as_str(), speed.as_str());
}

/// Lines with a line break between each two.
pub open spec fn joined(lines: Seq<Seq<char>>) -> Seq<char>
    decreases lines.len(),
{
    if lines.len() == 0 {
        seq![]
    } else if lines.len() == 1 {
        lines[0]
    } else {
        joined(lines.drop_last()) + "\n"@ + lines.last()
    }
}

/// The rows of tasks.
pub open spec fn task_rows(tasks: Seq<JsonView>) -> Seq<Seq<char>> {
    Seq::new(tasks.len(), |i: int| task_row(tasks[i]))
}

/// The line under the head of the table.
pub open spec fn rule() -> Seq<char> {
    Seq::new(46, |i: int| '─')
}

/// The table of tasks.
pub open spec fn table_text(tasks: JsonView) -> Seq<char> {
    match tasks {
        JsonView::Array(items) => if items.len() > 0 {
            row_text("GID"@, "状态"@, "进度"@, "速度"@) + "\n"@ + rule() + "\n"@ + joined(
                task_rows(items),
            )
        } else {
            "（无任务）"@
        },
        _ => "（无任务）"@,
    }
}

/// The table of tasks.
pub fn format_task_table(tasks: &Json) -> (r: String)
    ensures
        r@ == table_text(tasks@),
{
    let items = match tasks {
        Json::Array(items) => items,
        _ => {
            return "（无任务）".to_owned();
        },
    };
    let ghost view = items.deep_view();
    proof {
        json::lemma_array_view(*items);
    }
    if items.len() == 0 {
        return "（无任务）".to_owned();
    }
    let mut out = String::new();
    push_row(&mut out, "GID", "状态", "进度", "速度");
    out.append("\n");
    let ghost before = out@;
    let mut k: usize = 0;
    proof {
        assert(before + rule().take(0) =~= before);
    }
    while k < 46
        invariant
            k <= 46,
            out@ == before + rule().take(k as int),
        decreases 46 - k,
    {
        out.push('─');
        k += 1;
        proof {
            assert(out@ =~= before + rule().take(k as int));
        }
    }
    out.append("\n");
    proof {
        assert(rule().take(46) =~= rule());
    }
    let ghost head = out@;
    let ghost rows = task_rows(view);
    let mut i: usize = 0;
    proof {
        assert(rows.take(0) =~= seq![]);
        assert(head + joined(seq![]) =~= head);
    }
    while i < items.len()
        invariant
            i <= items@.len(),
            view == items.deep_view(),
            rows == task_rows(view),
            out@ == head + joined(rows.take(i as int)),
        decreases items@.len() - i,
    {
        proof {
            let upto = rows.take(i + 1);
            assert(upto.drop_last() =~= rows.take(i as int));
            assert(view[i as int] == items@[i as int]@);
            assert(upto.last() == task_row(items@[i as int]@));
            assert(i == 0 ==> joined(rows.take(0)) =~= seq![]);
        }
        if i > 0 {
            out.append("\n");
        }
        push_task_row(&mut out, &items[i]);
        i += 1;
        proof {
            assert(out@ =~= head + joined(rows.take(i as int)));
        }
    }
    proof {
        assert(rows.take(i as int) =~= rows);
        assert(out@ =~= table_text(tasks@));
    }
    out
}

/// A file of a task, on a line of its own.
pub open spec fn file_line(f: JsonView) -> Seq<char> {
    "  - "@ + text_at(f, "path"@, "-"@) + " （"@ + size_text(
        number_at(f, "length"@),
        SIZE_UNITS@,
    ) + "）\n"@
}

/// The files of a task, each on a line of its own.
pub open spec fn file_lines(files: Seq<JsonView>) -> Seq<char>
    decreases files.len(),
{
    if files.len() == 0 {
        seq![]
    } else {
        file_lines(files.drop_last()) + file_line(files.last())
    }
}

/// What is said of the progress of a task.
pub open spec fn progress_line(done: nat, total: nat) -> Seq<char> {
    if total > 0 {
        "进度:           "@ + percent_text(done, total) + " （"@ + size_text(done, SIZE_UNITS@)
            + " / "@ + size_text(total, SIZE_UNITS@) + "）\n"@
    } else {
        "已下载:         "@ + size_text(done, SIZE_UNITS@) + "\n"@
    }
}

/// A text under its heading, unless it is empty.
pub open spec fn optional_line(heading: Seq<char>, s: Option<Seq<char>>) -> Seq<char> {
    if s is Some && s->0.len() > 0 {
        heading + s->0 + "\n"@
    } else {
        seq![]
    }
}

/// The text under `key`, if there is one.
pub open spec fn some_text(v: JsonView, key: Seq<char>) -> Option<Seq<char>> {
    match v.field(key) {
        Some(JsonView::Text(s)) => Some(s),
        _ => None,
    }
}

/// The files of a task, under their heading.
pub open spec fn files_part(v: Option<JsonView>) -> Seq<char> {
    match v {
        Some(JsonView::Array(files)) => if files.len() > 0 {
            "文件:\n"@ + file_lines(files)
        } else {
            seq![]
        },
        _ => seq![],
    }
}

/// A task in detail; `shown` is how its error code reads.
pub open spec fn detail_text(t: JsonView, shown: Seq<char>) -> Seq<char> {
    "gid:            "@ + text_at(t, "gid"@, "-"@) + "\n状态:           "@ + label(
        text_at(t, "status"@, "-"@),
    ) + "\n"@ + progress_line(number_at(t, "completedLength"@), number_at(t, "totalLength"@))
        + "下载速度:       "@ + speed_text(number_at(t, "downloadSpeed"@)) + "\n上传速度:       "@
        + speed_text(number_at(t, "uploadSpeed"@)) + "\n"@ + (if t.field("errorCode"@) is Some {
        "错误码:         "@ + shown + "\n"@
    } else {
        seq![]
    }) + optional_line("错误信息:       "@, some_text(t, "errorMessage"@)) + optional_line(
        "目录:           "@,
        some_text(t, "dir"@),
    ) + files_part(t.field("files"@))
}

/// Appends what is said of the progress of a task.
fn push_progress(out: &mut String, done: u64, total: u64)
    ensures
        final(out)@ == old(out)@ + progress_line(done as nat, total as nat),
{
    if total > 0 {
        out.append("进度:           ");
        out.append(format_percent(done, total).as_str());
        out.append(" （");
        out.append(format_bytes(done).as_str());
        out.append(" / ");
        out.append(format_bytes(total).as_str());
        out.append("）\n");
    } else {
        out.append("已下载:         ");
        out.append(format_bytes(done).as_str());
        out.append("\n");
    }
    proof {
        assert(out@ =~= old(out)@ + progress_line(done as nat, total as nat));
    }
}

/// Appends the text under `key` under its heading, unless it is empty.
fn push_optional(out: &mut String, heading: &str, v: &Json, key: &str)
    ensures
        final(out)@ == old(out)@ + optional_line(heading@, some_text(v@, key@)),
{
    if let Some(field) = v.get(key) {
        if let Some(s) = field.as_str() {
            if !s.is_empty() {
                out.append(heading);
                out.append(s);
                out.append("\n");
                proof {
                    assert(out@ =~= old(out)@ + optional_line(heading@, some_text(v@, key@)));
                }
                return ;
            }
        }
    }
    proof {
        assert(out@ =~= old(out)@ + optional_line(heading@, some_text(v@, key@)));
    }
}

/// Appends the files of a task, under their heading.
fn push_files(out: &mut String, v: Option<&Json>)
    ensures
        final(out)@ == old(out)@ + files_part(v.deep_view()),
{
    let ghost before = out@;
    if let Some(Json::Array(files)) = v {
        let ghost view = files.deep_view();
        proof {
            json::lemma_array_view(*files);
        }
        if files.len() > 0 {
            out.append("文件:\n");
            let ghost head = out@;
            let mut i: usize = 0;
            proof {
                assert(view.take(0) =~= seq![]);
                assert(head + file_lines(view.take(0)) =~= head);
            }
            while i < files.len()
                invariant
                    i <= files@.len(),
                    view == files.deep_view(),
                    out@ == head + file_lines(view.take(i as int)),
                decreases files@.len() - i,
            {
                let f = &files[i];
                proof {
                    let upto = view.take(i + 1);
                    assert(upto.drop_last() =~= view.take(i as int));
                    assert(upto.last() == f@);
                }
                out.append("  - ");
                out.append(read_text(f, "path", "-").as_str());
                out.append(" （");
                out.append(format_bytes(read_number(f, "length")).as_str());
                out.append("）\n");
                i += 1;
                proof {
                    assert(out@ =~= head + file_lines(view.take(i as int)));
                }
            }
            proof {
                assert(view.take(i as int) =~= view);
                assert(out@ =~= before + files_part(v.deep_view()));
            }
            return ;
        }
    }
    proof {
        assert(out@ =~= before + files_part(v.deep_view()));
    }
}

/// A task in detail; `shown` is how its error code reads.
pub fn format_task_detail(t: &Json, shown: &str) -> (r: String)
    ensures
        r@ == detail_text(t@, shown@),
{
    let mut out = "gid:            ".to_owned();
    out.append(read_text(t, "gid", "-").as_str());
    out.append("\n状态:           ");
    let status = read_text(t, "status", "-");
    out.append(status_label(status.as_str()).as_str());
    out.append("\n");
    push_progress(&mut out, read_number(t, "completedLength"), read_number(t, "totalLength"));
    out.append("下载速度:       ");
    out.append(format_speed(read_number(t, "downloadSpeed")).as_str());
    out.append("\n上传速度:       ");
    out.append(format_speed(read_number(t, "uploadSpeed")).as_str());
    out.append("\n");
    if t.get("errorCode").is_some() {
        out.append("错误码:         ");
        out.append(shown);
        out.append("\n");
    }
    push_optional(&mut out, "错误信息:       ", t, "errorMessage");
    push_optional(&mut out, "目录:           ", t, "dir");
    push_files(&mut out, t.get("files"));
    proof {
        assert(out@ =~= detail_text(t@, shown@));
    }
    out
}

/// The figures of the engine: what they are called, and the keys they are under.
pub const STAT_LABELS: [&'static str; 6] = [
    "下载速度",
    "上传速度",
    "活动任务",
    "等待任务",
    "已停止任务",
    "累计停止",
];

/// The keys that the figures of the engine are under.
pub const STAT_KEYS: [&'static str; 6] = [
    "downloadSpeed",
    "uploadSpeed",
    "numActive",
    "numWaiting",
    "numStopped",
    "numStoppedTotal",
];

/// The first `n` figures of the engine, each on a line of its own.
pub open spec fn stat_lines(stat: JsonView, n: int) -> Seq<char>
    decreases n,
{
    if n <= 0 {
        seq![]
    } else {
        stat_lines(stat, n - 1) + STAT_LABELS@[n - 1]@ + ": "@ + text_at(
            stat,
            STAT_KEYS@[n - 1]@,
            "-"@,
        ) + "\n"@
    }
}

/// The value at place `i` of an array; null where there is none.
pub open spec fn item_at(v: JsonView, i: int) -> JsonView {
    match v {
        JsonView::Array(items) => if 0 <= i < items.len() {
            items[i]
        } else {
            JsonView::Null
        },
        _ => JsonView::Null,
    }
}

/// The version of the engine and its figures.
pub open spec fn engine_text(r: JsonView) -> Seq<char> {
    "引擎版本: "@ + text_at(item_at(r, 0), "version"@, "未知"@) + "\n"@ + stat_lines(
        item_at(r, 1),
        6,
    )
}

/// The value at place `i` of an array; null where there is none.
fn item(v: &Json, i: usize) -> (r: Json)
    ensures
        r@ == item_at(v@, i as int),
{
    if let Json::Array(items) = v {
        proof {
            json::lemma_array_view(*items);
        }
        if i < items.len() {
            proof {
                assert(items.deep_view()[i as int] == items@[i as int]@);
            }
            return items[i].clone();
        }
    }
    Json::Null
}

/// The version of the engine and its figures.
pub fn format_engine_status(r: &Json) -> (out: String)
    ensures
        out@ == engine_text(r@),
{
    let labels = STAT_LABELS;
    let keys = STAT_KEYS;
    let first = item(r, 0);
    let stat = item(r, 1);
    let mut out = "引擎版本: ".to_owned();
    out.append(read_text(&first, "version", "未知").as_str());
    out.append("\n");
    let ghost head = out@;
    let mut i: usize = 0;
    proof {
        assert(head + stat_lines(stat@, 0) =~= head);
    }
    while i < 6
        invariant
            i <= 6,
            labels@ == STAT_LABELS@,
            keys@ == STAT_KEYS@,
            out@ == head + stat_lines(stat@, i as int),
        decreases 6 - i,
    {
        out.append(labels[i]);
        out.append(": ");
        out.append(read_text(&stat, keys[i], "-").as_str());
        out.append("\n");
        i += 1;
        proof {
            assert(out@ =~= head + stat_lines(stat@, i as int));
        }
    }
    proof {
        assert(out@ =~= engine_text(r@));
    }
    out
}

/// Whether `a` stands before `b`, or is the same, in the order of their characters.
pub open spec fn in_order(a: Seq<char>, b: Seq<char>) -> bool
    decreases a.len(),
{
    a.len() == 0 || (b.len() > 0 && ((a[0] as int) < (b[0] as int) || (a[0] == b[0] && in_order(
        a.skip(1),
        b.skip(1),
    ))))
}

/// Of two texts one stands before the other, and both do only if they are the
/// same.
pub proof fn lemma_order_total(a: Seq<char>, b: Seq<char>)
    ensures
        in_order(a, b) || in_order(b, a),
        in_order(a, b) && in_order(b, a) ==> a == b,
    decreases a.len(),
{
    if a.len() > 0 && b.len() > 0 && a[0] == b[0] {
        lemma_order_total(a.skip(1), b.skip(1));
        if a.skip(1) == b.skip(1) {
            assert(a =~= seq![a[0]] + a.skip(1));
            assert(b =~= seq![b[0]] + b.skip(1));
        }
    } else if a.len() == 0 && b.len() == 0 {
        assert(a =~= b);
    }
}

/// The order carries over.
pub proof fn lemma_order_transitive(a: Seq<char>, b: Seq<char>, c: Seq<char>)
    requires
        in_order(a, b),
        in_order(b, c),
    ensures
        in_order(a, c),
    decreases a.len(),
{
    if a.len() > 0 && a[0] == b[0] && b[0] == c[0] {
        lemma_order_transitive(a.skip(1), b.skip(1), c.skip(1));
    }
}

/// Whether the character `p` stands before `q`.
fn precedes(p: char, q: char) -> (r: bool)
    ensures
        r == ((p as int) < (q as int)),
{
    (p as u32) < (q as u32)
}

/// Whether `a` stands before `b`, or is the same.
fn ordered(a: &str, b: &str) -> (r: bool)
    ensures
        r == in_order(a@, b@),
{
    let x = chars_of(a);
    let y = chars_of(b);
    let mut i: usize = 0;
    proof {
        assert(a@.skip(0) =~= a@);
        assert(b@.skip(0) =~= b@);
    }
    while i < x.len() && i < y.len()
        invariant
            x@ == a@,
            y@ == b@,
            i <= x@.len(),
            i <= y@.len(),
            in_order(a@.skip(i as int), b@.skip(i as int)) == in_order(a@, b@),
        decreases x@.len() - i,
    {
        proof {
            assert(a@.skip(i as int).skip(1) =~= a@.skip(i + 1));
            assert(b@.skip(i as int).skip(1) =~= b@.skip(i + 1));
        }
        let p: char = x[i];
        let q: char = y[i];
        if p != q {
            return precedes(p, q);
        }
        i += 1;
    }
    i >= x.len()
}

/// Whether the keys are in order.
pub open spec fn sorted(pairs: Seq<(Seq<char>, Seq<char>)>) -> bool {
    forall|i: int, j: int|
        #![trigger pairs[i], pairs[j]]
        0 <= i < j < pairs.len() ==> in_order(pairs[i].0, pairs[j].0)
}

/// Settings as lines.
pub open spec fn pair_lines(pairs: Seq<(Seq<char>, Seq<char>)>) -> Seq<Seq<char>> {
    Seq::new(pairs.len(), |i: int| pairs[i].0 + " = "@ + pairs[i].1)
}

/// The settings in the order of their keys.
fn sort_pairs(pairs: &Vec<(String, String)>) -> (r: Vec<(String, String)>)
    ensures
        sorted(r.deep_view()),
        r.deep_view().to_multiset() == pairs.deep_view().to_multiset(),
{
    let ghost view = pairs.deep_view();
    let mut out: Vec<(String, String)> = Vec::new();
    let mut i: usize = 0;
    proof {
        assert(view.take(0) =~= out.deep_view());
    }
    while i < pairs.len()
        invariant
            i <= pairs@.len(),
            view == pairs.deep_view(),
            out@.len() == i,
            sorted(out.deep_view()),
            out.deep_view().to_multiset() == view.take(i as int).to_multiset(),
        decreases pairs@.len() - i,
    {
        let key = pairs[i].0.as_str();
        let mut at: usize = 0;
        while at < out.len() && ordered(out[at].0.as_str(), key)
            invariant
                at <= out@.len(),
                forall|j: int| 0 <= j < at ==> in_order((#[trigger] out@[j]).0@, key@),
            decreases out@.len() - at,
        {
            at += 1;
        }
        let ghost before = out.deep_view();
        let ghost new = (pairs@[i as int].0@, pairs@[i as int].1@);
        proof {
            if at < before.len() {
                lemma_order_total(before[at as int].0, key@);
            }
        }
        out.insert(at, (pairs[i].0.clone(), pairs[i].1.clone()));
        proof {
            let after = out.deep_view();
            assert(after =~= before.insert(at as int, new));
            assert forall|j: int, k: int|
                #![trigger after[j], after[k]]
                0 <= j < k < after.len() implies in_order(after[j].0, after[k].0) by {
                if j < at && k < at {
                    assert(before[j] == after[j] && before[k] == after[k]);
                } else if j < at && k == at {
                    assert(after[j] == before[j]);
                } else if j < at {
                    assert(before[j] == after[j] && before[k - 1] == after[k]);
                } else if j == at {
                    assert(after[k] == before[k - 1]);
                    if k - 1 > at {
                        assert(in_order(before[at as int].0, before[k - 1].0));
                        lemma_order_transitive(key@, before[at as int].0, before[k - 1].0);
                    }
                } else {
                    assert(before[j - 1] == after[j] && before[k - 1] == after[k]);
                }
            }
            assert(after.remove(at as int) =~= before);
            assert(after[at as int] == new);
            broadcast use vstd::seq_lib::group_to_multiset_ensures;
            assert(after.contains(new));
            assert(after.to_multiset().remove(new) == before.to_multiset());
            assert(view.take(i + 1) =~= view.take(i as int).push(new));
            assert(after.to_multiset() =~= before.to_multiset().insert(new));
        }
        i += 1;
    }
    proof {
        assert(view.take(i as int) =~= view);
    }
    out
}

/// Whether `r` lists the settings, one on each line, in the order of their keys.
pub open spec fn lists(r: Seq<char>, pairs: Seq<(Seq<char>, Seq<char>)>) -> bool {
    exists|s: Seq<(Seq<char>, Seq<char>)>|
        sorted(s) && s.to_multiset() == pairs.to_multiset() && r == joined(#[trigger] pair_lines(s))
}

/// The settings, one on each line, in the order of their keys.
pub fn format_kv_pairs(pairs: &Vec<(String, String)>) -> (r: String)
    ensures
        lists(r@, pairs.deep_view()),
{
    let sorted_pairs = sort_pairs(pairs);
    let ghost s = sorted_pairs.deep_view();
    let ghost lines = pair_lines(s);
    let mut out = String::new();
    let mut i: usize = 0;
    proof {
        assert(lines.take(0) =~= seq![]);
        assert(out@ =~= joined(lines.take(0)));
    }
    while i < sorted_pairs.len()
        invariant
            i <= sorted_pairs@.len(),
            s == sorted_pairs.deep_view(),
            lines == pair_lines(s),
            out@ == joined(lines.take(i as int)),
        decreases sorted_pairs@.len() - i,
    {
        let ghost before = out@;
        proof {
            let upto = lines.take(i + 1);
            assert(upto.drop_last() =~= lines.take(i as int));
            assert(s[i as int] == (sorted_pairs@[i as int].0@, sorted_pairs@[i as int].1@));
            assert(upto.last() == lines[i as int]);
            assert(i == 0 ==> joined(lines.take(0)) =~= seq![]);
        }
        if i > 0 {
            out.append("\n");
        }
        out.append(sorted_pairs[i].0.as_str());
        out.append(" = ");
        out.append(sorted_pairs[i].1.as_str());
        i += 1;
        proof {
            assert(out@ =~= joined(lines.take(i as int)));
        }
    }
    proof {
        assert(lines.take(i as int) =~= lines);
        assert(out@ == joined(pair_lines(s)));
    }
    out
}

/// How the values of an answer read that are put out as they are.
#[derive(Debug, PartialEq, Eq)]
pub struct Shown {
    /// The error code of a task, the setting that was asked for, or else the whole
    /// answer.
    pub value: String,
    /// Every setting.
    pub pairs: Vec<(String, String)>,
}

/// A line for each task that was added.
pub open spec fn added_lines(gids: Seq<Seq<char>>) -> Seq<Seq<char>> {
    Seq::new(gids.len(), |i: int| "任务已添加: "@ + gids[i])
}

/// Whether `r` is what a command reports of an answer.
pub open spec fn reports(
    r: Result<Seq<char>, Seq<char>>,
    c: CliCommand,
    result: JsonView,
    value: Seq<char>,
    pairs: Seq<(Seq<char>, Seq<char>)>,
) -> bool {
    match c {
        CliCommand::Add { .. } => r == Ok::<Seq<char>, Seq<char>>(
            match result {
                JsonView::Array(items) => joined(added_lines(options::texts_in(items))),
                _ => "任务已添加: "@ + value,
            },
        ),
        CliCommand::AddTorrent { .. } => r == Ok::<Seq<char>, Seq<char>>("任务已添加: "@ + value),
        CliCommand::List { .. } => r == Ok::<Seq<char>, Seq<char>>(table_text(result)),
        CliCommand::Status { .. } => r == Ok::<Seq<char>, Seq<char>>(detail_text(result, value)),
        CliCommand::Pause { .. } => r == Ok::<Seq<char>, Seq<char>>("已暂停: "@ + value),
        CliCommand::PauseAll => r == Ok::<Seq<char>, Seq<char>>("已暂停全部任务"@),
        CliCommand::Resume { .. } => r == Ok::<Seq<char>, Seq<char>>("已恢复: "@ + value),
        CliCommand::ResumeAll => r == Ok::<Seq<char>, Seq<char>>("已恢复全部任务"@),
        CliCommand::Remove { .. } => r == Ok::<Seq<char>, Seq<char>>("已删除: "@ + value),
        CliCommand::Purge => r == Ok::<Seq<char>, Seq<char>>("已清除下载记录"@),
        CliCommand::ConfigGet { only } => match only {
            Some(key) => match result.field(key@) {
                None => r == Err::<Seq<char>, Seq<char>>("未找到配置键: "@ + key@),
                Some(JsonView::Null) => r == Err::<Seq<char>, Seq<char>>(
                    "未找到配置键: "@ + key@,
                ),
                Some(JsonView::Text(s)) => r == Ok::<Seq<char>, Seq<char>>(s),
                Some(_) => r == Ok::<Seq<char>, Seq<char>>(value),
            },
            None => if result is Object {
                r is Ok && lists(r->Ok_0, pairs)
            } else {
                r == Ok::<Seq<char>, Seq<char>>(value)
            },
        },
        CliCommand::ConfigSet { key, value } => r == Ok::<Seq<char>, Seq<char>>(
            (if listed(USER_KEYS@, key@) {
                "已保存用户配置: "@
            } else {
                "已设置全局选项: "@
            }) + key@ + " = "@ + value@,
        ),
        CliCommand::EngineStatus => r == Ok::<Seq<char>, Seq<char>>(engine_text(result)),
    }
}

/// A text or an error, as what it stands for.
pub open spec fn words_of(r: Result<String, String>) -> Result<Seq<char>, Seq<char>> {
    match r {
        Ok(s) => Ok(s@),
        Err(e) => Err(e@),
    }
}

/// A line for each task that was added.
fn added(items: &Vec<Json>) -> (r: String)
    ensures
        r@ == joined(added_lines(options::texts_in(items.deep_view()))),
{
    let gids = collect_texts(items);
    let ghost lines = added_lines(gids.deep_view());
    let mut out = String::new();
    let mut i: usize = 0;
    proof {
        assert(lines.take(0) =~= seq![]);
        assert(out@ =~= joined(lines.take(0)));
    }
    while i < gids.len()
        invariant
            i <= gids@.len(),
            lines == added_lines(gids.deep_view()),
            out@ == joined(lines.take(i as int)),
        decreases gids@.len() - i,
    {
        proof {
            let upto = lines.take(i + 1);
            assert(upto.drop_last() =~= lines.take(i as int));
            assert(gids.deep_view()[i as int] == gids@[i as int]@);
            assert(upto.last() == lines[i as int]);
            assert(i == 0 ==> joined(lines.take(0)) =~= seq![]);
        }
        if i > 0 {
            out.append("\n");
        }
        out.append("任务已添加: ");
        out.append(gids[i].as_str());
        i += 1;
        proof {
            assert(out@ =~= joined(lines.take(i as int)));
        }
    }
    proof {
        assert(lines.take(i as int) =~= lines);
    }
    out
}

/// What a command reports of the answer to a call that it made.
pub fn report(c: &CliCommand, result: &Json, shown: &Shown) -> (r: Result<String, String>)
    ensures
        reports(words_of(r), *c, result@, shown.value@, shown.pairs.deep_view()),
{
    let value = shown.value.as_str();
    match c {
        CliCommand::Add { .. } => match result {
            Json::Array(items) => {
                proof {
                    json::lemma_array_view(*items);
                }
                Ok(added(items))
            },
            _ => Ok(join2("任务已添加: ", value)),
        },
        CliCommand::AddTorrent { .. } => Ok(join2("任务已添加: ", value)),
        CliCommand::List { .. } => Ok(format_task_table(result)),
        CliCommand::Status { .. } => Ok(format_task_detail(result, value)),
        CliCommand::Pause { .. } => Ok(join2("已暂停: ", value)),
        CliCommand::PauseAll => Ok("已暂停全部任务".to_owned()),
        CliCommand::Resume { .. } => Ok(join2("已恢复: ", value)),
        CliCommand::ResumeAll => Ok("已恢复全部任务".to_owned()),
        CliCommand::Remove { .. } => Ok(join2("已删除: ", value)),
        CliCommand::Purge => Ok("已清除下载记录".to_owned()),
        CliCommand::ConfigGet { only } => match only {
            Some(key) => match result.get(key.as_str()) {
                None => Err(join2("未找到配置键: ", key.as_str())),
                Some(Json::Null) => Err(join2("未找到配置键: ", key.as_str())),
                Some(Json::Text(s)) => Ok(s.clone()),
                Some(_) => Ok(value.to_owned()),
            },
            None => match result {
                Json::Object(_) => Ok(format_kv_pairs(&shown.pairs)),
                _ => Ok(value.to_owned()),
            },
        },
        CliCommand::ConfigSet { key, value } => {
            let user = USER_KEYS;
            let mut out = if is_listed(user.as_slice(), key.as_str()) {
                "已保存用户配置: ".to_owned()
            } else {
                "已设置全局选项: ".to_owned()
            };
            out.append(key.as_str());
            out.append(" = ");
            out.append(value.as_str());
            Ok(out)
        },
        CliCommand::EngineStatus => Ok(format_engine_status(result)),
    }
}

/// What a call of a command is meant to be, for a command other than the one that
/// asks for the state of the engine.
pub open spec fn meant(c: CliCommand, i: int) -> CommandView {
    match c {
        CliCommand::Add { urls, dir, connections, limit } => CommandView::AddUri {
            uris: urls.deep_view(),
            options: JsonView::Object(
                add_options(dir.deep_view(), connections, limit.deep_view()),
            ),
        },
        CliCommand::AddTorrent { payload } => CommandView::AddTorrent {
            torrent: payload@,
            options: JsonView::Null,
        },
        CliCommand::List { kind } => if kind@ == "active"@ {
            CommandView::Active
        } else if kind@ == "waiting"@ {
            CommandView::Waiting { offset: 0, num: 100 }
        } else {
            CommandView::Stopped { offset: 0, num: 100 }
        },
        CliCommand::Status { gid } => CommandView::Status { gid: gid@ },
        CliCommand::Pause { gids } => CommandView::Pause { gid: gids.deep_view()[i] },
        CliCommand::PauseAll => CommandView::PauseAll,
        CliCommand::Resume { gids } => CommandView::Resume { gid: gids.deep_view()[i] },
        CliCommand::ResumeAll => CommandView::ResumeAll,
        CliCommand::Remove { gids, .. } => CommandView::Remove { gid: gids.deep_view()[i] },
        CliCommand::Purge => CommandView::Purge,
        CliCommand::ConfigGet { .. } => CommandView::Options,
        CliCommand::ConfigSet { key, value } => {
            let patch = seq![(key@, JsonView::Text(value@))];
            if listed(USER_KEYS@, key@) {
                CommandView::SaveUser { patch }
            } else {
                CommandView::ChangeGlobal { options: JsonView::Object(patch) }
            }
        },
        CliCommand::EngineStatus => CommandView::Version,
    }
}

/// The texts of a list of texts are those that it was made of.
proof fn lemma_texts_of_list(items: Seq<Seq<char>>)
    ensures
        options::texts_in(Seq::new(items.len(), |i: int| JsonView::Text(items[i]))) == items,
    decreases items.len(),
{
    let list = Seq::new(items.len(), |i: int| JsonView::Text(items[i]));
    if items.len() > 0 {
        let fewer = items.drop_last();
        lemma_texts_of_list(fewer);
        assert(list.drop_last() =~= Seq::new(fewer.len(), |i: int| JsonView::Text(fewer[i])));
        assert(fewer.push(items.last()) =~= items);
    } else {
        assert(options::texts_in(list) =~= items);
    }
}

/// What the names of methods are told apart by: their length and two of their
/// characters.
pub open spec fn mark(s: Seq<char>) -> (nat, char, char) {
    (s.len(), s[6], s[10])
}

/// No two methods of the engine have the same mark.
pub proof fn lemma_marks()
    ensures
        mark("aria2.addUri"@) == (12nat, 'a', 'r'),
        mark("aria2.addTorrent"@) == (16nat, 'a', 'o'),
        mark("aria2.addMetalink"@) == (17nat, 'a', 'e'),
        mark("aria2.tellStatus"@) == (16nat, 't', 'S'),
        mark("aria2.tellActive"@) == (16nat, 't', 'A'),
        mark("aria2.tellWaiting"@) == (17nat, 't', 'W'),
        mark("aria2.tellStopped"@) == (17nat, 't', 'S'),
        mark("aria2.getPeers"@) == (14nat, 'g', 'e'),
        mark("aria2.getGlobalStat"@) == (19nat, 'g', 'l'),
        mark("aria2.getVersion"@) == (16nat, 'g', 'e'),
        mark("aria2.pause"@) == (11nat, 'p', 'e'),
        mark("aria2.pauseAll"@) == (14nat, 'p', 'e'),
        mark("aria2.forcePause"@) == (16nat, 'f', 'e'),
        mark("aria2.forcePauseAll"@) == (19nat, 'f', 'e'),
        mark("aria2.unpause"@) == (13nat, 'u', 'u'),
        mark("aria2.unpauseAll"@) == (16nat, 'u', 'u'),
        mark("aria2.remove"@) == (12nat, 'r', 'v'),
        mark("aria2.forceRemove"@) == (17nat, 'f', 'e'),
        mark("aria2.changeOption"@) == (18nat, 'c', 'g'),
        mark("aria2.changeGlobalOption"@) == (24nat, 'c', 'g'),
        mark("aria2.getOption"@) == (15nat, 'g', 'p'),
        mark("aria2.getGlobalOption"@) == (21nat, 'g', 'l'),
        mark("aria2.saveSession"@) == (17nat, 's', 'S'),
        mark("aria2.purgeDownloadResult"@) == (25nat, 'p', 'e'),
        mark("motrix.saveUserConfig"@) == (21nat, '.', 'e'),
        mark("motrix.getUserConfig"@) == (20nat, '.', 'U'),
{
    reveal_strlit("aria2.addUri");
    reveal_strlit("aria2.addTorrent");
    reveal_strlit("aria2.addMetalink");
    reveal_strlit("aria2.tellStatus");
    reveal_strlit("aria2.tellActive");
    reveal_strlit("aria2.tellWaiting");
    reveal_strlit("aria2.tellStopped");
    reveal_strlit("aria2.getPeers");
    reveal_strlit("aria2.getGlobalStat");
    reveal_strlit("aria2.getVersion");
    reveal_strlit("aria2.pause");
    reveal_strlit("aria2.pauseAll");
    reveal_strlit("aria2.forcePause");
    reveal_strlit("aria2.forcePauseAll");
    reveal_strlit("aria2.unpause");
    reveal_strlit("aria2.unpauseAll");
    reveal_strlit("aria2.remove");
    reveal_strlit("aria2.forceRemove");
    reveal_strlit("aria2.changeOption");
    reveal_strlit("aria2.changeGlobalOption");
    reveal_strlit("aria2.getOption");
    reveal_strlit("aria2.getGlobalOption");
    reveal_strlit("aria2.saveSession");
    reveal_strlit("aria2.purgeDownloadResult");
    reveal_strlit("motrix.saveUserConfig");
    reveal_strlit("motrix.getUserConfig");
}

/// The engine understands every call that a command makes, as what the command
/// means.
pub proof fn law_calls_are_understood(c: CliCommand, secret: Seq<char>, i: int)
    requires
        calls_of(c, secret) is Ok,
        c !is EngineStatus,
        0 <= i < calls_of(c, secret)->Ok_0.len(),
    ensures
        rpc_backend::routed(
            calls_of(c, secret)->Ok_0[i].method,
            calls_of(c, secret)->Ok_0[i].params,
        ) == Ok::<CommandView, RpcErrorView>(meant(c, i)),
{
    lemma_marks();
    let call = calls_of(c, secret)->Ok_0[i];
    match c {
        CliCommand::Add { urls, .. } => {
            lemma_texts_of_list(urls.deep_view());
            assert(call.params[0] == crate::task::text_list(urls.deep_view()));
        },
        CliCommand::Pause { gids } => {
            assert(call.params[0] == JsonView::Text(gids.deep_view()[i]));
        },
        CliCommand::Resume { gids } => {
            assert(call.params[0] == JsonView::Text(gids.deep_view()[i]));
        },
        CliCommand::Remove { gids, .. } => {
            assert(call.params[0] == JsonView::Text(gids.deep_view()[i]));
        },
        _ => {},
    }
}

/// A server takes a call of a batch that carries the token for its secret as the
/// call that it is.
proof fn lemma_item_is_called(method: Seq<char>, secret: Seq<char>)
    ensures
        rpc::item_plan(item_of(method, secret), secret) == (ItemView::Call {
            method,
            params: seq![],
        }),
{
    let parts = item_of(method, secret)->Array_0;
    assert(rpc::item_params(parts) == rpc::with_token(seq![], secret));
    rpc::law_client_is_understood(seq![], secret);
}

/// The state of the engine is asked for in one batch of two calls. A server with the
/// same secret makes both, one after the other, and the engine takes them for what
/// they are.
pub proof fn law_state_is_asked_for_in_one_batch(secret: Seq<char>, id: Option<JsonView>)
    ensures
        calls_of(CliCommand::EngineStatus, secret) == Ok::<Seq<CallView>, Seq<char>>(
            one_call("system.multicall"@, seq![status_batch(secret)]),
        ),
        rpc::plan(
            RequestView {
                jsonrpc: Some("2.0"@),
                id,
                method: "system.multicall"@,
                params: rpc::with_token(seq![status_batch(secret)], secret),
            },
            secret,
        ) == PlanView::Batch(
            seq![
                ItemView::Call { method: "aria2.getVersion"@, params: seq![] },
                ItemView::Call { method: "aria2.getGlobalStat"@, params: seq![] },
            ],
        ),
        rpc_backend::routed("aria2.getVersion"@, seq![]) == Ok::<CommandView, RpcErrorView>(
            CommandView::Version,
        ),
        rpc_backend::routed("aria2.getGlobalStat"@, seq![]) == Ok::<CommandView, RpcErrorView>(
            CommandView::GlobalStat,
        ),
{
    lemma_marks();
    let params = seq![status_batch(secret)];
    let calls = status_batch(secret)->Array_0;
    rpc::law_client_is_understood(params, secret);
    assert(rpc::first_array(params) == Some(calls));
    lemma_item_is_called("aria2.getVersion"@, secret);
    lemma_item_is_called("aria2.getGlobalStat"@, secret);
    let plans = Seq::new(calls.len(), |i: int| rpc::item_plan(calls[i], secret));
    assert(plans =~= seq![
        ItemView::Call { method: "aria2.getVersion"@, params: seq![] },
        ItemView::Call { method: "aria2.getGlobalStat"@, params: seq![] },
    ]);
}

} // verus!
