//! The engine's side of the remote interface: which command a call stands for, and
//! what it is answered.

use vstd::prelude::*;

use crate::assoc;
use crate::bt::PeerInfo;
use crate::config::SystemConfig;
use crate::json::{self, Json, JsonView};
use crate::manager::{ManagerView, TaskManager};
use crate::options::{self, collect_texts};
use crate::repository::{self, Group};
use crate::rpc::{RpcError, RpcErrorView};
use crate::task::{self, bool_json, number_json, text_list_json, Task, TaskStatus, TaskView};
use crate::text::{join2, same};

verus! {

/// Version of the engine, as it presents itself.
pub const ENGINE_VERSION: &'static str = "1.8.19 (motrix-engine 0.1.0)";

/// What the engine says it can do.
pub const ENABLED_FEATURES: [&'static str; 9] = [
    "Async DNS",
    "BitTorrent",
    "Firefox3 Cookie",
    "GZip",
    "HTTPS",
    "Message Digest",
    "Metalink",
    "XML-RPC",
    "SFTP",
];

/// What a call asks for.
#[derive(Debug, PartialEq, Eq)]
pub enum Command {
    Version,
    GlobalStat,
    Active,
    Waiting { offset: usize, num: usize },
    Stopped { offset: usize, num: usize },
    Status { gid: String },
    Pause { gid: String },
    Resume { gid: String },
    PauseAll,
    ResumeAll,
    Remove { gid: String },
    AddUri { uris: Vec<String>, options: Json },
    AddTorrent { torrent: String, options: Json },
    Peers { gid: String, limit: usize },
    Options,
    ChangeGlobal { options: Json },
    ChangeTask { gid: String, options: Json },
    SaveSession,
    Purge,
    SaveUser { patch: Vec<(String, Json)> },
    GetUser,
}

/// What a `Command` stands for.
pub enum CommandView {
    Version,
    GlobalStat,
    Active,
    Waiting { offset: usize, num: usize },
    Stopped { offset: usize, num: usize },
    Status { gid: Seq<char> },
    Pause { gid: Seq<char> },
    Resume { gid: Seq<char> },
    PauseAll,
    ResumeAll,
    Remove { gid: Seq<char> },
    AddUri { uris: Seq<Seq<char>>, options: JsonView },
    AddTorrent { torrent: Seq<char>, options: JsonView },
    Peers { gid: Seq<char>, limit: usize },
    Options,
    ChangeGlobal { options: JsonView },
    ChangeTask { gid: Seq<char>, options: JsonView },
    SaveSession,
    Purge,
    SaveUser { patch: Seq<(Seq<char>, JsonView)> },
    GetUser,
}

impl View for Command {
    type V = CommandView;

    open spec fn view(&self) -> CommandView {
        match *self {
            Command::Version => CommandView::Version,
            Command::GlobalStat => CommandView::GlobalStat,
            Command::Active => CommandView::Active,
            Command::Waiting { offset, num } => CommandView::Waiting { offset, num },
            Command::Stopped { offset, num } => CommandView::Stopped { offset, num },
            Command::Status { gid } => CommandView::Status { gid: gid@ },
            Command::Pause { gid } => CommandView::Pause { gid: gid@ },
            Command::Resume { gid } => CommandView::Resume { gid: gid@ },
            Command::PauseAll => CommandView::PauseAll,
            Command::ResumeAll => CommandView::ResumeAll,
            Command::Remove { gid } => CommandView::Remove { gid: gid@ },
            Command::AddUri { uris, options } => CommandView::AddUri {
                uris: uris.deep_view(),
                options: options@,
            },
            Command::AddTorrent { torrent, options } => CommandView::AddTorrent {
                torrent: torrent@,
                options: options@,
            },
            Command::Peers { gid, limit } => CommandView::Peers { gid: gid@, limit },
            Command::Options => CommandView::Options,
            Command::ChangeGlobal { options } => CommandView::ChangeGlobal { options: options@ },
            Command::ChangeTask { gid, options } => CommandView::ChangeTask {
                gid: gid@,
                options: options@,
            },
            Command::SaveSession => CommandView::SaveSession,
            Command::Purge => CommandView::Purge,
            Command::SaveUser { patch } => CommandView::SaveUser { patch: patch.deep_view() },
            Command::GetUser => CommandView::GetUser,
        }
    }
}

/// The parameter at place `i`.
pub open spec fn param(params: Seq<JsonView>, i: int) -> Option<JsonView> {
    if 0 <= i < params.len() {
        Some(params[i])
    } else {
        None
    }
}

/// The text at the first place.
pub open spec fn first_text(params: Seq<JsonView>) -> Option<Seq<char>> {
    match param(params, 0) {
        Some(v) => v.text(),
        None => None,
    }
}

/// The count at place `i`, or else `default`.
pub open spec fn count_at(params: Seq<JsonView>, i: int, default: u64) -> usize {
    match param(params, i) {
        Some(v) => match v.unsigned() {
            Some(n) => n as usize,
            None => default as usize,
        },
        None => default as usize,
    }
}

/// The options at the second place; none where there is nothing.
pub open spec fn given_options(params: Seq<JsonView>) -> JsonView {
    match param(params, 1) {
        Some(v) => v,
        None => JsonView::Null,
    }
}

/// A complaint about the parameters.
pub open spec fn bad_params(message: Seq<char>) -> Result<CommandView, RpcErrorView> {
    Err(RpcErrorView::InvalidParams(message))
}

/// Which command a call stands for.
pub open spec fn routed(method: Seq<char>, params: Seq<JsonView>) -> Result<
    CommandView,
    RpcErrorView,
> {
    let gid = first_text(params);
    let needs_gid = bad_params(method + " 需要 gid 参数"@);
    if method == "aria2.getVersion"@ {
        Ok(CommandView::Version)
    } else if method == "aria2.getGlobalStat"@ {
        Ok(CommandView::GlobalStat)
    } else if method == "aria2.tellActive"@ {
        Ok(CommandView::Active)
    } else if method == "aria2.tellWaiting"@ {
        Ok(CommandView::Waiting { offset: count_at(params, 0, 0), num: count_at(params, 1, 50) })
    } else if method == "aria2.tellStopped"@ {
        Ok(CommandView::Stopped { offset: count_at(params, 0, 0), num: count_at(params, 1, 50) })
    } else if method == "aria2.tellStatus"@ {
        match gid {
            Some(gid) => Ok(CommandView::Status { gid }),
            None => needs_gid,
        }
    } else if method == "aria2.pause"@ || method == "aria2.forcePause"@ {
        match gid {
            Some(gid) => Ok(CommandView::Pause { gid }),
            None => needs_gid,
        }
    } else if method == "aria2.unpause"@ {
        match gid {
            Some(gid) => Ok(CommandView::Resume { gid }),
            None => needs_gid,
        }
    } else if method == "aria2.pauseAll"@ || method == "aria2.forcePauseAll"@ {
        Ok(CommandView::PauseAll)
    } else if method == "aria2.unpauseAll"@ {
        Ok(CommandView::ResumeAll)
    } else if method == "aria2.remove"@ || method == "aria2.forceRemove"@ {
        match gid {
            Some(gid) => Ok(CommandView::Remove { gid }),
            None => needs_gid,
        }
    } else if method == "aria2.addUri"@ {
        match param(params, 0) {
            Some(JsonView::Array(items)) => Ok(
                CommandView::AddUri {
                    uris: options::texts_in(items),
                    options: given_options(params),
                },
            ),
            _ => bad_params("aria2.addUri 需要一个 URL 数组作为第一个参数"@),
        }
    } else if method == "aria2.addTorrent"@ {
        match gid {
            Some(torrent) => Ok(
                CommandView::AddTorrent { torrent, options: given_options(params) },
            ),
            None => bad_params("aria2.addTorrent 需要 base64 编码的种子内容作为第一个参数"@),
        }
    } else if method == "aria2.getPeers"@ {
        match gid {
            Some(gid) => Ok(CommandView::Peers { gid, limit: count_at(params, 1, 100) }),
            None => needs_gid,
        }
    } else if method == "aria2.addMetalink"@ {
        Err(
            RpcErrorView::Other {
                code: 1,
                message: "aria2.addMetalink 尚未实现（Phase 2/3 提供 Metalink 支持）"@,
            },
        )
    } else if method == "aria2.getOption"@ || method == "aria2.getGlobalOption"@ {
        Ok(CommandView::Options)
    } else if method == "aria2.changeGlobalOption"@ {
        match param(params, 0) {
            Some(options) => Ok(CommandView::ChangeGlobal { options }),
            None => bad_params("aria2.changeGlobalOption 需要 options 参数"@),
        }
    } else if method == "aria2.changeOption"@ {
        match (gid, param(params, 1)) {
            (Some(gid), Some(options)) => Ok(CommandView::ChangeTask { gid, options }),
            (Some(_), None) => bad_params("aria2.changeOption 需要 options 参数"@),
            (None, _) => needs_gid,
        }
    } else if method == "aria2.saveSession"@ {
        Ok(CommandView::SaveSession)
    } else if method == "aria2.purgeDownloadResult"@ {
        Ok(CommandView::Purge)
    } else if method == "motrix.saveUserConfig"@ {
        match param(params, 0) {
            Some(JsonView::Object(patch)) => Ok(CommandView::SaveUser { patch }),
            _ => bad_params("motrix.saveUserConfig 需要 userKeys 对象作为第一个参数"@),
        }
    } else if method == "motrix.getUserConfig"@ {
        Ok(CommandView::GetUser)
    } else {
        Err(RpcErrorView::MethodNotFound("方法未实现: "@ + method))
    }
}

/// Whether `r` is `want`.
pub open spec fn routes_to(
    r: Result<Command, RpcError>,
    want: Result<CommandView, RpcErrorView>,
) -> bool {
    match (r, want) {
        (Ok(c), Ok(w)) => c@ == w,
        (Err(e), Err(w)) => e@ == w,
        _ => false,
    }
}

/// The text at the first place.
fn text_first(params: &Vec<Json>) -> (r: Option<String>)
    ensures
        r.deep_view() == first_text(params.deep_view()),
{
    if params.len() == 0 {
        return None;
    }
    proof {
        assert(params.deep_view()[0] == params@[0]@);
    }
    match params[0].as_str() {
        Some(s) => Some(s.to_owned()),
        None => None,
    }
}

/// The count at place `i`, or else `default`.
fn count_param(params: &Vec<Json>, i: usize, default: u64) -> (r: usize)
    ensures
        r == count_at(params.deep_view(), i as int, default),
{
    let n: u64 = if i < params.len() {
        proof {
            assert(params.deep_view()[i as int] == params@[i as int]@);
        }
        match params[i].as_u64() {
            Some(n) => n,
            None => default,
        }
    } else {
        default
    };
    n as usize
}

/// The options at the second place.
fn options_param(params: &Vec<Json>) -> (r: Json)
    ensures
        r@ == given_options(params.deep_view()),
{
    if params.len() > 1 {
        proof {
            assert(params.deep_view()[1] == params@[1]@);
        }
        params[1].clone()
    } else {
        Json::Null
    }
}

/// A complaint that the call `method` names no task.
fn needs_gid(method: &str) -> (r: Result<Command, RpcError>)
    ensures
        routes_to(r, bad_params(method@ + " 需要 gid 参数"@)),
{
    Err(RpcError::InvalidParams(join2(method, " 需要 gid 参数")))
}

/// A complaint about the parameters.
fn complain(message: &str) -> (r: Result<Command, RpcError>)
    ensures
        routes_to(r, bad_params(message@)),
{
    Err(RpcError::InvalidParams(message.to_owned()))
}

/// Which command a call stands for.
pub fn route(method: &str, params: &Vec<Json>) -> (r: Result<Command, RpcError>)
    ensures
        routes_to(r, routed(method@, params.deep_view())),
{
    let gid = text_first(params);
    proof {
        assert(params.deep_view().len() == params@.len());
        if params@.len() > 0 {
            assert(params.deep_view()[0] == params@[0]@);
        }
        if params@.len() > 1 {
            assert(params.deep_view()[1] == params@[1]@);
        }
    }
    if same(method, "aria2.getVersion") {
        Ok(Command::Version)
    } else if same(method, "aria2.getGlobalStat") {
        Ok(Command::GlobalStat)
    } else if same(method, "aria2.tellActive") {
        Ok(Command::Active)
    } else if same(method, "aria2.tellWaiting") {
        Ok(
            Command::Waiting {
                offset: count_param(params, 0, 0),
                num: count_param(params, 1, 50),
            },
        )
    } else if same(method, "aria2.tellStopped") {
        Ok(
            Command::Stopped {
                offset: count_param(params, 0, 0),
                num: count_param(params, 1, 50),
            },
        )
    } else if same(method, "aria2.tellStatus") {
        match gid {
            Some(gid) => Ok(Command::Status { gid }),
            None => needs_gid(method),
        }
    } else if same(method, "aria2.pause") || same(method, "aria2.forcePause") {
        match gid {
            Some(gid) => Ok(Command::Pause { gid }),
            None => needs_gid(method),
        }
    } else if same(method, "aria2.unpause") {
        match gid {
            Some(gid) => Ok(Command::Resume { gid }),
            None => needs_gid(method),
        }
    } else if same(method, "aria2.pauseAll") || same(method, "aria2.forcePauseAll") {
        Ok(Command::PauseAll)
    } else if same(method, "aria2.unpauseAll") {
        Ok(Command::ResumeAll)
    } else if same(method, "aria2.remove") || same(method, "aria2.forceRemove") {
        match gid {
            Some(gid) => Ok(Command::Remove { gid }),
            None => needs_gid(method),
        }
    } else {
        route_rest(method, params, gid)
    }
}

/// Which command a call stands for that neither asks for the state of the engine
/// nor stops, resumes or removes a task.
fn route_rest(method: &str, params: &Vec<Json>, gid: Option<String>) -> (r: Result<
    Command,
    RpcError,
>)
    requires
        gid.deep_view() == first_text(params.deep_view()),
        method@ != "aria2.getVersion"@,
        method@ != "aria2.getGlobalStat"@,
        method@ != "aria2.tellActive"@,
        method@ != "aria2.tellWaiting"@,
        method@ != "aria2.tellStopped"@,
        method@ != "aria2.tellStatus"@,
        method@ != "aria2.pause"@,
        method@ != "aria2.forcePause"@,
        method@ != "aria2.unpause"@,
        method@ != "aria2.pauseAll"@,
        method@ != "aria2.forcePauseAll"@,
        method@ != "aria2.unpauseAll"@,
        method@ != "aria2.remove"@,
        method@ != "aria2.forceRemove"@,
    ensures
        routes_to(r, routed(method@, params.deep_view())),
{
    proof {
        assert(params.deep_view().len() == params@.len());
        if params@.len() > 0 {
            assert(params.deep_view()[0] == params@[0]@);
        }
        if params@.len() > 1 {
            assert(params.deep_view()[1] == params@[1]@);
        }
    }
    if same(method, "aria2.addUri") {
        if params.len() > 0 {
            if let Json::Array(items) = &params[0] {
                proof {
                    json::lemma_array_view(*items);
                }
                return Ok(
                    Command::AddUri { uris: collect_texts(items), options: options_param(params) },
                );
            }
        }
        complain("aria2.addUri 需要一个 URL 数组作为第一个参数")
    } else if same(method, "aria2.addTorrent") {
        match gid {
            Some(torrent) => Ok(Command::AddTorrent { torrent, options: options_param(params) }),
            None => complain("aria2.addTorrent 需要 base64 编码的种子内容作为第一个参数"),
        }
    } else if same(method, "aria2.getPeers") {
        match gid {
            Some(gid) => Ok(Command::Peers { gid, limit: count_param(params, 1, 100) }),
            None => needs_gid(method),
        }
    } else if same(method, "aria2.addMetalink") {
        Err(
            RpcError::Other {
                code: 1,
                message: "aria2.addMetalink 尚未实现（Phase 2/3 提供 Metalink 支持）".to_owned(),
            },
        )
    } else if same(method, "aria2.getOption") || same(method, "aria2.getGlobalOption") {
        Ok(Command::Options)
    } else if same(method, "aria2.changeGlobalOption") {
        if params.len() > 0 {
            Ok(Command::ChangeGlobal { options: params[0].clone() })
        } else {
            complain("aria2.changeGlobalOption 需要 options 参数")
        }
    } else if same(method, "aria2.changeOption") {
        match gid {
            Some(gid) => if params.len() > 1 {
                Ok(Command::ChangeTask { gid, options: params[1].clone() })
            } else {
                complain("aria2.changeOption 需要 options 参数")
            },
            None => needs_gid(method),
        }
    } else if same(method, "aria2.saveSession") {
        Ok(Command::SaveSession)
    } else if same(method, "aria2.purgeDownloadResult") {
        Ok(Command::Purge)
    } else if same(method, "motrix.saveUserConfig") {
        if params.len() > 0 {
            if let Json::Object(patch) = &params[0] {
                proof {
                    json::lemma_object_view(*patch);
                }
                return Ok(Command::SaveUser { patch: crate::config::clone_fields(patch) });
            }
        }
        complain("motrix.saveUserConfig 需要 userKeys 对象作为第一个参数")
    } else if same(method, "motrix.getUserConfig") {
        Ok(Command::GetUser)
    } else {
        Err(RpcError::MethodNotFound(join2("方法未实现: ", method)))
    }
}

/// That no task has this identifier.
pub open spec fn unknown_gid(gid: Seq<char>) -> RpcErrorView {
    RpcErrorView::Other { code: 1, message: "gid 不存在: "@ + gid }
}

/// That no task has this identifier.
pub fn gid_not_found(gid: &str) -> (r: RpcError)
    ensures
        r@ == unknown_gid(gid@),
{
    RpcError::Other { code: 1, message: join2("gid 不存在: ", gid) }
}

/// The tasks from the one at `offset` on, `num` of them at most.
pub open spec fn page(tasks: Seq<TaskView>, offset: int, num: int) -> Seq<TaskView> {
    if offset >= tasks.len() {
        seq![]
    } else if offset + num >= tasks.len() {
        tasks.skip(offset)
    } else {
        tasks.subrange(offset, offset + num)
    }
}

/// Tasks as the interface reports them.
pub open spec fn tasks_view(tasks: Seq<TaskView>) -> JsonView {
    JsonView::Array(Seq::new(tasks.len(), |i: int| tasks[i].aria2()))
}

/// A page of tasks as the interface reports them.
pub fn paginate_tasks(tasks: &Vec<Task>, offset: usize, num: usize) -> (r: Json)
    ensures
        r@ == tasks_view(page(tasks.deep_view(), offset as int, num as int)),
{
    let n: usize = tasks.len();
    let mut out: Vec<Json> = Vec::new();
    let ghost all = tasks.deep_view();
    if offset < n {
        let end: usize = if num >= n - offset {
            n
        } else {
            offset + num
        };
        let mut i: usize = offset;
        while i < end
            invariant
                offset <= i <= end <= tasks@.len(),
                out@.len() == i - offset,
                forall|j: int|
                    0 <= j < i - offset ==> (#[trigger] out@[j])@ == tasks@[j + offset]@.aria2(),
            decreases end - i,
        {
            out.push(tasks[i].to_aria2());
            i += 1;
        }
        proof {
            let p = page(all, offset as int, num as int);
            assert(p.len() == end - offset);
            assert forall|j: int| 0 <= j < p.len() implies #[trigger] out.deep_view()[j]
                == p[j].aria2() by {
                assert(p[j] == all[j + offset]);
                assert(all[j + offset] == tasks@[j + offset]@);
            }
        }
    }
    proof {
        json::lemma_array_view(out);
        assert(out.deep_view() =~= tasks_view(page(all, offset as int, num as int))->Array_0);
    }
    Json::Array(out)
}

/// The settings that the interface reports as options: every number as text.
pub open spec fn options_answer(s: SystemConfig) -> JsonView {
    JsonView::Object(
        seq![
            ("dir"@, JsonView::Text(s.dir@)),
            ("max-concurrent-downloads"@, task::number_text(s.max_concurrent_downloads as int)),
            ("max-connection-per-server"@, task::number_text(s.max_connection_per_server as int)),
            ("split"@, task::number_text(s.split as int)),
            ("user-agent"@, JsonView::Text(s.user_agent@)),
            ("max-download-limit"@, task::number_text(s.max_download_limit as int)),
            (
                "max-overall-download-limit"@,
                task::number_text(s.max_overall_download_limit as int),
            ),
            ("max-overall-upload-limit"@, task::number_text(s.max_overall_upload_limit as int)),
            ("all-proxy"@, JsonView::Text(s.all_proxy@)),
            ("no-proxy"@, JsonView::Text(s.no_proxy@)),
            ("continue"@, JsonView::Text(task::bool_name(s.continue_partial))),
        ],
    )
}

/// The settings that the interface reports as options.
pub fn engine_options(system: &SystemConfig) -> (r: Json)
    ensures
        r@ == options_answer(*system),
{
    let mut out: Vec<(String, Json)> = Vec::new();
    assoc::put(&mut out, "dir", json::text(system.dir.as_str()));
    assoc::put(
        &mut out,
        "max-concurrent-downloads",
        number_json(system.max_concurrent_downloads as u64),
    );
    assoc::put(
        &mut out,
        "max-connection-per-server",
        number_json(system.max_connection_per_server as u64),
    );
    assoc::put(&mut out, "split", number_json(system.split as u64));
    assoc::put(&mut out, "user-agent", json::text(system.user_agent.as_str()));
    assoc::put(&mut out, "max-download-limit", number_json(system.max_download_limit));
    assoc::put(
        &mut out,
        "max-overall-download-limit",
        number_json(system.max_overall_download_limit),
    );
    assoc::put(&mut out, "max-overall-upload-limit", number_json(system.max_overall_upload_limit));
    assoc::put(&mut out, "all-proxy", json::text(system.all_proxy.as_str()));
    assoc::put(&mut out, "no-proxy", json::text(system.no_proxy.as_str()));
    assoc::put(&mut out, "continue", bool_json(system.continue_partial));
    proof {
        json::lemma_object_view(out);
        assert(out.deep_view() =~= options_answer(*system)->Object_0);
    }
    Json::Object(out)
}

/// The engine's version and what it can do.
pub open spec fn version_answer() -> JsonView {
    JsonView::Object(
        seq![
            ("version"@, JsonView::Text(ENGINE_VERSION@)),
            ("enabledFeatures"@, crate::rpc::names_view(ENABLED_FEATURES@)),
        ],
    )
}

/// The engine's version and what it can do.
pub fn engine_version() -> (r: Json)
    ensures
        r@ == version_answer(),
{
    let features = ENABLED_FEATURES;
    let mut out: Vec<(String, Json)> = Vec::new();
    assoc::put(&mut out, "version", json::text(ENGINE_VERSION));
    assoc::put(&mut out, "enabledFeatures", crate::rpc::names_json(features.as_slice()));
    proof {
        json::lemma_object_view(out);
        assert(out.deep_view() =~= version_answer()->Object_0);
    }
    Json::Object(out)
}

/// A peer as the interface reports it: every number as text.
pub open spec fn peer_view(p: PeerInfo) -> JsonView {
    JsonView::Object(
        seq![
            ("ip"@, JsonView::Text(p.ip@)),
            ("port"@, task::number_text(p.port as int)),
            ("peerId"@, JsonView::Text(p.peer_id@)),
            ("bitfield"@, JsonView::Text(p.bitfield@)),
            ("downloadSpeed"@, task::number_text(p.download_speed as int)),
            ("uploadSpeed"@, task::number_text(p.upload_speed as int)),
        ],
    )
}

/// Peers as the interface reports them.
pub fn peers_json(peers: &Vec<PeerInfo>) -> (r: Json)
    ensures
        r@ == JsonView::Array(Seq::new(peers@.len(), |i: int| peer_view(peers@[i]))),
{
    let mut list: Vec<Json> = Vec::new();
    let mut i: usize = 0;
    while i < peers.len()
        invariant
            i <= peers@.len(),
            list@.len() == i,
            forall|j: int| 0 <= j < i ==> (#[trigger] list@[j])@ == peer_view(peers@[j]),
        decreases peers@.len() - i,
    {
        let p = &peers[i];
        let mut out: Vec<(String, Json)> = Vec::new();
        assoc::put(&mut out, "ip", json::text(p.ip.as_str()));
        assoc::put(&mut out, "port", number_json(p.port as u64));
        assoc::put(&mut out, "peerId", json::text(p.peer_id.as_str()));
        assoc::put(&mut out, "bitfield", json::text(p.bitfield.as_str()));
        assoc::put(&mut out, "downloadSpeed", number_json(p.download_speed));
        assoc::put(&mut out, "uploadSpeed", number_json(p.upload_speed));
        proof {
            json::lemma_object_view(out);
            assert(out.deep_view() =~= peer_view(*p)->Object_0);
        }
        list.push(Json::Object(out));
        i += 1;
    }
    proof {
        json::lemma_array_view(list);
        assert(list.deep_view() =~= Seq::new(peers@.len(), |j: int| peer_view(peers@[j])));
    }
    Json::Array(list)
}

/// The figures of all tasks as the interface reports them.
pub open spec fn stat_answer(m: ManagerView) -> JsonView {
    (repository::GlobalStat {
        download_speed: repository::download_total(m.repo.tasks) as u64,
        upload_speed: repository::upload_total(m.repo.tasks) as u64,
        num_active: repository::members(m.repo.tasks, Group::Active).len() as usize,
        num_waiting: repository::members(m.repo.tasks, Group::Waiting).len() as usize,
        num_stopped: m.repo.stopped().len() as usize,
    }).aria2()
}

/// What a command is answered that asks and changes nothing; `None` for any other
/// command.
pub open spec fn query_answer(
    m: ManagerView,
    system: SystemConfig,
    user: JsonView,
    c: CommandView,
) -> Option<Result<JsonView, RpcErrorView>> {
    match c {
        CommandView::Version => Some(Ok(version_answer())),
        CommandView::GlobalStat => Some(Ok(stat_answer(m))),
        CommandView::Active => Some(
            Ok(tasks_view(repository::members(m.repo.tasks, Group::Active))),
        ),
        CommandView::Waiting { offset, num } => Some(
            Ok(
                tasks_view(
                    page(
                        repository::members(m.repo.tasks, Group::Waiting),
                        offset as int,
                        num as int,
                    ),
                ),
            ),
        ),
        CommandView::Stopped { offset, num } => Some(
            Ok(tasks_view(page(m.repo.stopped(), offset as int, num as int))),
        ),
        CommandView::Status { gid } => Some(
            match m.repo.task(gid) {
                Some(task) => Ok(task.aria2()),
                None => Err(unknown_gid(gid)),
            },
        ),
        CommandView::Peers { .. } => Some(Ok(JsonView::Array(seq![]))),
        CommandView::Options => Some(Ok(options_answer(system))),
        CommandView::SaveSession => Some(Ok(JsonView::Text("OK"@))),
        CommandView::GetUser => Some(Ok(user)),
        _ => None,
    }
}

/// Whether `r` is `want`.
pub open spec fn answers(
    r: Option<Result<Json, RpcError>>,
    want: Option<Result<JsonView, RpcErrorView>>,
) -> bool {
    match (r, want) {
        (Some(o), Some(w)) => crate::rpc::outcome_view(o) == w,
        (None, None) => true,
        _ => false,
    }
}

/// What a command is answered that asks and changes nothing; `None` for any other
/// command. Where the figures of all tasks are asked for, the speeds of the running
/// tasks must have a sum that fits.
pub fn answer_query(
    m: &TaskManager,
    system: &SystemConfig,
    user: &Json,
    command: &Command,
) -> (r: Option<Result<Json, RpcError>>)
    requires
        m@.wf(),
        command@ is GlobalStat ==> repository::download_total(m@.repo.tasks) <= u64::MAX
            && repository::upload_total(m@.repo.tasks) <= u64::MAX,
    ensures
        answers(r, query_answer(m@, *system, user@, command@)),
{
    match command {
        Command::Version => Some(Ok(engine_version())),
        Command::GlobalStat => {
            let stat = m.repo.global_stat();
            Some(Ok(stat.to_aria2_json()))
        },
        Command::Active => {
            let tasks = m.repo.active();
            let n: usize = tasks.len();
            proof {
                assert(page(tasks.deep_view(), 0, n as int) =~= tasks.deep_view());
            }
            Some(Ok(paginate_tasks(&tasks, 0, n)))
        },
        Command::Waiting { offset, num } => Some(
            Ok(paginate_tasks(&m.repo.waiting(), *offset, *num)),
        ),
        Command::Stopped { offset, num } => Some(
            Ok(paginate_tasks(&m.repo.stopped(), *offset, *num)),
        ),
        Command::Status { gid } => Some(
            match m.repo.get(gid.as_str()) {
                Some(task) => Ok(task.to_aria2()),
                None => Err(gid_not_found(gid.as_str())),
            },
        ),
        Command::Peers { gid, limit } => {
            let peers = m.get_peers(gid.as_str(), *limit);
            let list = peers_json(&peers);
            proof {
                assert(list@->Array_0 =~= seq![]);
            }
            Some(Ok(list))
        },
        Command::Options => Some(Ok(engine_options(system))),
        Command::SaveSession => Some(Ok(json::text("OK"))),
        Command::GetUser => Some(Ok(user.clone())),
        _ => None,
    }
}

/// The identifiers of the tasks in one of two states, in order.
pub open spec fn gids_in(
    tasks: Seq<TaskView>,
    one: TaskStatus,
    other: TaskStatus,
) -> Seq<Seq<char>>
    decreases tasks.len(),
{
    if tasks.len() == 0 {
        seq![]
    } else {
        let before = gids_in(tasks.drop_last(), one, other);
        if tasks.last().status == one || tasks.last().status == other {
            before.push(tasks.last().gid)
        } else {
            before
        }
    }
}

/// The identifiers of the tasks in one of two states, in order.
fn collect_gids(m: &TaskManager, one: TaskStatus, other: TaskStatus) -> (r: Vec<String>)
    ensures
        r.deep_view() == gids_in(repository::members(m@.repo.tasks, Group::All), one, other),
{
    let all = m.repo.all();
    let ghost view = all.deep_view();
    let mut out: Vec<String> = Vec::new();
    let mut i: usize = 0;
    proof {
        assert(view.take(0) =~= seq![]);
        assert(out.deep_view() =~= seq![]);
    }
    while i < all.len()
        invariant
            i <= all@.len(),
            view == all.deep_view(),
            out.deep_view() == gids_in(view.take(i as int), one, other),
        decreases all@.len() - i,
    {
        let ghost before = out.deep_view();
        proof {
            let upto = view.take(i + 1);
            assert(upto.drop_last() =~= view.take(i as int));
            assert(upto.last() == all@[i as int]@);
        }
        if all[i].status == one || all[i].status == other {
            out.push(all[i].gid.clone());
            proof {
                assert(out.deep_view() =~= before.push(all@[i as int].gid@));
            }
        }
        i += 1;
    }
    proof {
        assert(view.take(i as int) =~= view);
    }
    out
}

/// The tasks that pausing all of them pauses: those that run or wait.
pub fn gids_to_pause(m: &TaskManager) -> (r: Vec<String>)
    ensures
        r.deep_view() == gids_in(
            repository::members(m@.repo.tasks, Group::All),
            TaskStatus::Active,
            TaskStatus::Waiting,
        ),
{
    collect_gids(m, TaskStatus::Active, TaskStatus::Waiting)
}

/// The tasks that resuming all of them resumes: those that are paused.
pub fn gids_to_resume(m: &TaskManager) -> (r: Vec<String>)
    ensures
        r.deep_view() == gids_in(
            repository::members(m@.repo.tasks, Group::All),
            TaskStatus::Paused,
            TaskStatus::Paused,
        ),
{
    collect_gids(m, TaskStatus::Paused, TaskStatus::Paused)
}

/// What a command is answered that changes something, `None` for any other
/// command. `outcome` is what the change came to: the identifiers of the tasks
/// that were added, if any, or why it failed. Pausing, resuming and purging in
/// bulk never fail.
pub open spec fn change_answer(
    c: CommandView,
    outcome: Result<Seq<Seq<char>>, Seq<char>>,
) -> Option<Result<JsonView, RpcErrorView>> {
    let done: Result<JsonView, RpcErrorView> = Ok(JsonView::Text("OK"@));
    match (c, outcome) {
        (CommandView::PauseAll, _) => Some(done),
        (CommandView::ResumeAll, _) => Some(done),
        (CommandView::Purge, _) => Some(done),
        (CommandView::Pause { .. }, Ok(_)) => Some(done),
        (CommandView::Resume { .. }, Ok(_)) => Some(done),
        (CommandView::Remove { gid }, Ok(_)) => Some(Ok(JsonView::Text(gid))),
        (CommandView::AddUri { .. }, Ok(gids)) => Some(Ok(task::text_list(gids))),
        (CommandView::AddTorrent { .. }, Ok(gids)) => Some(Ok(JsonView::Text(gids[0]))),
        (CommandView::ChangeGlobal { .. }, Ok(_)) => Some(done),
        (CommandView::ChangeTask { .. }, Ok(_)) => Some(done),
        (CommandView::SaveUser { .. }, Ok(_)) => Some(done),
        (CommandView::SaveUser { .. }, Err(e)) => Some(Err(
            RpcErrorView::Other { code: 1, message: "保存用户配置失败: "@ + e },
        )),
        (CommandView::Pause { .. }, Err(e))
        | (CommandView::Resume { .. }, Err(e))
        | (CommandView::Remove { .. }, Err(e))
        | (CommandView::AddUri { .. }, Err(e))
        | (CommandView::AddTorrent { .. }, Err(e))
        | (CommandView::ChangeGlobal { .. }, Err(e))
        | (CommandView::ChangeTask { .. }, Err(e)) => Some(
            Err(RpcErrorView::Other { code: 1, message: e }),
        ),
        _ => None,
    }
}

/// What a change came to, as what it stands for.
pub open spec fn change_view(outcome: Result<Vec<String>, String>) -> Result<
    Seq<Seq<char>>,
    Seq<char>,
> {
    match outcome {
        Ok(gids) => Ok(gids.deep_view()),
        Err(e) => Err(e@),
    }
}

/// What a command is answered that changes something, `None` for any other
/// command. `outcome` is what the change came to: the identifiers of the tasks
/// that were added, if any, or why it failed.
pub fn answer_change(command: &Command, outcome: Result<Vec<String>, String>) -> (r: Option<
    Result<Json, RpcError>,
>)
    requires
        command@ is AddTorrent ==> (outcome matches Ok(gids) ==> gids@.len() == 1),
    ensures
        answers(r, change_answer(command@, change_view(outcome))),
{
    match command {
        Command::PauseAll | Command::ResumeAll | Command::Purge => Some(Ok(json::text("OK"))),
        Command::SaveUser { .. } => Some(
            match outcome {
                Ok(_) => Ok(json::text("OK")),
                Err(e) => Err(
                    RpcError::Other { code: 1, message: join2("保存用户配置失败: ", e.as_str()) },
                ),
            },
        ),
        Command::Pause { .. }
        | Command::Resume { .. }
        | Command::ChangeGlobal { .. }
        | Command::ChangeTask { .. } => Some(
            match outcome {
                Ok(_) => Ok(json::text("OK")),
                Err(e) => Err(RpcError::Other { code: 1, message: e }),
            },
        ),
        Command::Remove { gid } => Some(
            match outcome {
                Ok(_) => Ok(json::text(gid.as_str())),
                Err(e) => Err(RpcError::Other { code: 1, message: e }),
            },
        ),
        Command::AddUri { .. } => Some(
            match outcome {
                Ok(gids) => Ok(text_list_json(&gids)),
                Err(e) => Err(RpcError::Other { code: 1, message: e }),
            },
        ),
        Command::AddTorrent { .. } => Some(
            match outcome {
                Ok(gids) => {
                    proof {
                        assert(gids.deep_view()[0] == gids@[0]@);
                    }
                    Ok(json::text(gids[0].as_str()))
                },
                Err(e) => Err(RpcError::Other { code: 1, message: e }),
            },
        ),
        _ => None,
    }
}

/// Every command is answered: either as a query or as a change, and never as both.
pub proof fn law_every_command_is_answered(
    m: ManagerView,
    system: SystemConfig,
    user: JsonView,
    c: CommandView,
    outcome: Result<Seq<Seq<char>>, Seq<char>>,
)
    ensures
        query_answer(m, system, user, c) is Some <==> change_answer(c, outcome) is None,
{
}

/// Pages of a list follow each other without a gap and without a repetition: a
/// page and the rest of the list behind it are what is left of the list from
/// where the page begins.
pub proof fn law_pages_join(tasks: Seq<TaskView>, offset: int, num: int, more: int)
    requires
        0 <= offset,
        0 <= num,
        0 <= more,
    ensures
        page(tasks, offset, num) + page(tasks, offset + num, more) == page(
            tasks,
            offset,
            num + more,
        ),
        page(tasks, offset, num).len() <= num,
        page(tasks, 0, tasks.len() as int) == tasks,
{
    assert(page(tasks, offset, num) + page(tasks, offset + num, more) =~= page(
        tasks,
        offset,
        num + more,
    ));
    assert(page(tasks, 0, tasks.len() as int) =~= tasks);
}

/// A call of a method that is not listed is refused as one of an unknown method.
pub proof fn law_unknown_method_is_refused(method: Seq<char>, params: Seq<JsonView>)
    requires
        forall|i: int|
            0 <= i < crate::rpc::LIST_METHODS@.len() ==> (#[trigger] crate::rpc::LIST_METHODS@[i])@
                != method,
    ensures
        routed(method, params) == Err::<CommandView, RpcErrorView>(
            RpcErrorView::MethodNotFound("方法未实现: "@ + method),
        ),
{
    let names = crate::rpc::LIST_METHODS@;
    assert(names[0]@ == "aria2.addUri"@);
    assert(names[1]@ == "aria2.addTorrent"@);
    assert(names[2]@ == "aria2.addMetalink"@);
    assert(names[3]@ == "aria2.tellStatus"@);
    assert(names[4]@ == "aria2.tellActive"@);
    assert(names[5]@ == "aria2.tellWaiting"@);
    assert(names[6]@ == "aria2.tellStopped"@);
    assert(names[7]@ == "aria2.getPeers"@);
    assert(names[8]@ == "aria2.getGlobalStat"@);
    assert(names[9]@ == "aria2.getVersion"@);
    assert(names[10]@ == "aria2.pause"@);
    assert(names[11]@ == "aria2.pauseAll"@);
    assert(names[12]@ == "aria2.forcePause"@);
    assert(names[13]@ == "aria2.forcePauseAll"@);
    assert(names[14]@ == "aria2.unpause"@);
    assert(names[15]@ == "aria2.unpauseAll"@);
    assert(names[16]@ == "aria2.remove"@);
    assert(names[17]@ == "aria2.forceRemove"@);
    assert(names[18]@ == "aria2.changeOption"@);
    assert(names[19]@ == "aria2.changeGlobalOption"@);
    assert(names[20]@ == "aria2.getOption"@);
    assert(names[21]@ == "aria2.getGlobalOption"@);
    assert(names[22]@ == "aria2.saveSession"@);
    assert(names[23]@ == "aria2.purgeDownloadResult"@);
    assert(names[28]@ == "motrix.saveUserConfig"@);
    assert(names[29]@ == "motrix.getUserConfig"@);
}

} // verus!
