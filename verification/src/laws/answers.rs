//! Answers of the interface: what they say of tasks, files, peers, figures and settings.

use vstd::prelude::*;

use crate::assoc;
use crate::bt::PeerInfo;
use crate::config::SystemConfig;
use crate::digits;
use crate::json::{self, Json, JsonView, Number};
use crate::laws::remote;
use crate::manager::TaskManager;
use crate::repository::{self, GlobalStat, Group};
use crate::rpc::RpcError;
use crate::rpc_backend::{self, Command};
use crate::task::{self, BittorrentInfo, Task, TaskFile, TaskStatus, TaskView};

verus! {

/// Whether an object says `value` under `key`.
pub open spec fn tells(object: JsonView, key: Seq<char>, value: JsonView) -> bool {
    object matches JsonView::Object(fields) && fields.contains((key, value))
}

/// A number, in decimal notation.
pub open spec fn number(n: nat) -> JsonView {
    JsonView::Text(digits::dec(n))
}

/// A flag, in letters.
pub open spec fn flag(b: bool) -> JsonView {
    JsonView::Text(
        if b {
            "true"@
        } else {
            "false"@
        },
    )
}

/// A text, if there is one.
pub open spec fn maybe(s: Option<String>) -> JsonView {
    match s {
        Some(s) => JsonView::Text(s@),
        None => JsonView::Null,
    }
}

/// The word for the state of a task.
pub open spec fn state_word(s: TaskStatus) -> Seq<char> {
    match s {
        TaskStatus::Waiting => "waiting"@,
        TaskStatus::Active => "active"@,
        TaskStatus::Paused => "paused"@,
        TaskStatus::Complete => "complete"@,
        TaskStatus::Seeding => "seeding"@,
        TaskStatus::Error => "error"@,
        TaskStatus::Removed => "removed"@,
    }
}

/// The state of a task is written as its word, and read back from it.
pub proof fn law_states_have_their_words(
    s: TaskStatus,
    r: &'static str,
    word: &str,
    t: Option<TaskStatus>,
)
    requires
        call_ensures(TaskStatus::as_str, (&s,), r),
        word@ == state_word(s),
        call_ensures(TaskStatus::from_str, (word,), t),
    ensures
        r@ == state_word(s),
        t == Some(s),
{
    task::law_status_names_distinct(s, t->0);
}

/// What is told of a task is what it holds, each figure under its own name.
pub proof fn law_a_task_is_told_as_it_is(task: &Task, r: Json)
    requires
        call_ensures(Task::to_aria2, (task,), r),
    ensures
        r@->Object_0.len() == 17,
        tells(r@, "gid"@, JsonView::Text(task.gid@)),
        tells(r@, "status"@, JsonView::Text(state_word(task.status))),
        tells(r@, "totalLength"@, number(task.total_length as nat)),
        tells(r@, "completedLength"@, number(task.completed_length as nat)),
        tells(r@, "uploadLength"@, number(task.upload_length as nat)),
        tells(r@, "downloadSpeed"@, number(task.download_speed as nat)),
        tells(r@, "uploadSpeed"@, number(task.upload_speed as nat)),
        tells(r@, "connections"@, number(task.connections as nat)),
        tells(r@, "dir"@, JsonView::Text(task.dir@)),
        tells(r@, "errorMessage"@, maybe(task.error_message)),
        tells(r@, "numSeeders"@, number(task.num_seeders as nat)),
        tells(r@, "seeder"@, flag(task.seeder)),
        tells(r@, "bitfield"@, JsonView::Text(task.bitfield@)),
        task.error_code is None ==> tells(r@, "errorCode"@, JsonView::Null),
        (task.error_code matches Some(code) && code >= 0) ==> tells(
            r@,
            "errorCode"@,
            number(task.error_code->0 as nat),
        ),
        (task.error_code matches Some(code) && code < 0) ==> tells(
            r@,
            "errorCode"@,
            JsonView::Text(seq!['-'] + digits::dec((-task.error_code->0) as nat)),
        ),
        task.bittorrent matches Some(b) ==> tells(r@, "infoHash"@, maybe(b.info_hash)),
        task.bittorrent is None ==> tells(r@, "infoHash"@, JsonView::Null) && tells(
            r@,
            "bittorrent"@,
            JsonView::Null,
        ),
{
    assert(r@ is Object);
    assert(r@->Object_0[0] == ("gid"@, JsonView::Text(task.gid@)));
    assert(r@->Object_0[1] == ("status"@, JsonView::Text(state_word(task.status))));
    assert(r@->Object_0[2] == ("totalLength"@, number(task.total_length as nat)));
    assert(r@->Object_0[3] == ("completedLength"@, number(task.completed_length as nat)));
    assert(r@->Object_0[4] == ("uploadLength"@, number(task.upload_length as nat)));
    assert(r@->Object_0[5] == ("downloadSpeed"@, number(task.download_speed as nat)));
    assert(r@->Object_0[6] == ("uploadSpeed"@, number(task.upload_speed as nat)));
    assert(r@->Object_0[7] == ("connections"@, number(task.connections as nat)));
    assert(r@->Object_0[8] == ("dir"@, JsonView::Text(task.dir@)));
    assert(r@->Object_0[11] == ("errorMessage"@, maybe(task.error_message)));
    assert(r@->Object_0[12] == ("numSeeders"@, number(task.num_seeders as nat)));
    assert(r@->Object_0[13] == ("seeder"@, flag(task.seeder)));
    assert(r@->Object_0[14] == ("bitfield"@, JsonView::Text(task.bitfield@)));
    assert(r@->Object_0[10].0 == "errorCode"@);
    assert(r@->Object_0[10] == ("errorCode"@, r@->Object_0[10].1));
    assert(r@->Object_0[15] == ("infoHash"@, r@->Object_0[15].1));
    assert(r@->Object_0[16] == ("bittorrent"@, r@->Object_0[16].1));
}

/// The files of a task are told one by one and in their order, as is what its torrent
/// says.
pub proof fn law_the_files_of_a_task_are_told(task: &Task, r: Json, i: int, f: Json, b: Json)
    requires
        call_ensures(Task::to_aria2, (task,), r),
        0 <= i < task.files@.len(),
        call_ensures(TaskFile::to_aria2, (&task.files@[i],), f),
        task.bittorrent matches Some(info) ==> call_ensures(BittorrentInfo::to_aria2, (&info,), b),
    ensures
        exists|list: Seq<JsonView>|
            #[trigger] tells(r@, "files"@, JsonView::Array(list)) && list.len() == task.files@.len()
                && list[i] == f@,
        task.bittorrent is Some ==> tells(r@, "bittorrent"@, b@),
{
    let list = r@->Object_0[9].1->Array_0;
    assert(r@->Object_0[9] == ("files"@, JsonView::Array(list)));
    assert(task.files.deep_view()[i] == task.files@[i]@);
    assert(list[i] == f@);
    assert(tells(r@, "files"@, JsonView::Array(list)));
    assert(r@->Object_0[16] == ("bittorrent"@, r@->Object_0[16].1));
}

/// What is told of a file is what it holds, and its sources in their order.
pub proof fn law_a_file_is_told_as_it_is(file: &TaskFile, r: Json, i: int)
    requires
        call_ensures(TaskFile::to_aria2, (file,), r),
    ensures
        r@->Object_0.len() == 6,
        tells(r@, "index"@, number(file.index as nat)),
        tells(r@, "length"@, number(file.length as nat)),
        tells(r@, "completedLength"@, number(file.completed_length as nat)),
        tells(r@, "selected"@, flag(file.selected)),
        tells(r@, "path"@, JsonView::Text(file.path@)),
        0 <= i < file.uris@.len() ==> exists|list: Seq<JsonView>|
            #[trigger] tells(r@, "uris"@, JsonView::Array(list)) && list.len() == file.uris@.len()
                && tells(list[i], "uri"@, JsonView::Text(file.uris@[i].0@)) && tells(
                list[i],
                "status"@,
                JsonView::Text(file.uris@[i].1@),
            ),
{
    assert(r@ is Object);
    assert(r@->Object_0[0] == ("index"@, number(file.index as nat)));
    assert(r@->Object_0[1] == ("length"@, number(file.length as nat)));
    assert(r@->Object_0[2] == ("completedLength"@, number(file.completed_length as nat)));
    assert(r@->Object_0[3] == ("selected"@, flag(file.selected)));
    assert(r@->Object_0[4] == ("path"@, JsonView::Text(file.path@)));
    let list = r@->Object_0[5].1->Array_0;
    assert(r@->Object_0[5] == ("uris"@, JsonView::Array(list)));
    assert(tells(r@, "uris"@, JsonView::Array(list)));
    if 0 <= i < file.uris@.len() {
        assert(file.uris.deep_view()[i] == (file.uris@[i].0@, file.uris@[i].1@));
        assert(list[i]->Object_0[0] == ("uri"@, JsonView::Text(file.uris@[i].0@)));
        assert(list[i]->Object_0[1] == ("status"@, JsonView::Text(file.uris@[i].1@)));
    }
}

/// What is told of a torrent: its mode, its trackers in their lists, and its name as soon
/// as that is known.
pub proof fn law_a_torrent_is_told_as_it_is(b: &BittorrentInfo, r: Json, i: int, j: int)
    requires
        call_ensures(BittorrentInfo::to_aria2, (b,), r),
    ensures
        tells(r@, "mode"@, JsonView::Text(b.mode@)),
        b.info_name is None ==> r@->Object_0.len() == 2,
        b.info_name matches Some(name) ==> r@->Object_0.len() == 3 && tells(
            r@,
            "info"@,
            JsonView::Object(seq![("name"@, JsonView::Text(name@))]),
        ),
        0 <= i < b.announce_list@.len() && 0 <= j < b.announce_list@[i]@.len() ==> exists|
            lists: Seq<JsonView>,
        |
            #[trigger] tells(r@, "announceList"@, JsonView::Array(lists)) && lists.len()
                == b.announce_list@.len() && lists[i]->Array_0.len() == b.announce_list@[i]@.len()
                && lists[i]->Array_0[j] == JsonView::Text(b.announce_list@[i]@[j]@),
{
    assert(r@->Object_0[1] == ("mode"@, JsonView::Text(b.mode@)));
    if b.info_name is Some {
        assert(r@->Object_0[2] == (
            "info"@,
            JsonView::Object(seq![("name"@, JsonView::Text(b.info_name->0@))]),
        ));
    }
    let lists = r@->Object_0[0].1->Array_0;
    assert(r@->Object_0[0] == ("announceList"@, JsonView::Array(lists)));
    assert(tells(r@, "announceList"@, JsonView::Array(lists)));
    if 0 <= i < b.announce_list@.len() && 0 <= j < b.announce_list@[i]@.len() {
        assert(b.announce_list.deep_view()[i] == b.announce_list@[i].deep_view());
        assert(b.announce_list@[i].deep_view()[j] == b.announce_list@[i]@[j]@);
    }
}

/// What is told of all tasks: speeds and counts, each under its own name.
pub proof fn law_figures_are_told_as_they_are(s: &GlobalStat, r: Json)
    requires
        call_ensures(GlobalStat::to_aria2_json, (s,), r),
    ensures
        r@->Object_0.len() == 5,
        tells(r@, "downloadSpeed"@, number(s.download_speed as nat)),
        tells(r@, "uploadSpeed"@, number(s.upload_speed as nat)),
        tells(r@, "numActive"@, number(s.num_active as nat)),
        tells(r@, "numWaiting"@, number(s.num_waiting as nat)),
        tells(r@, "numStopped"@, number(s.num_stopped as nat)),
{
    assert(r@ is Object);
    assert(r@->Object_0[0] == ("downloadSpeed"@, number(s.download_speed as nat)));
    assert(r@->Object_0[1] == ("uploadSpeed"@, number(s.upload_speed as nat)));
    assert(r@->Object_0[2] == ("numActive"@, number(s.num_active as nat)));
    assert(r@->Object_0[3] == ("numWaiting"@, number(s.num_waiting as nat)));
    assert(r@->Object_0[4] == ("numStopped"@, number(s.num_stopped as nat)));
}

/// The settings are told as the options that they are.
pub proof fn law_settings_are_told_as_options(s: &SystemConfig, r: Json)
    requires
        call_ensures(rpc_backend::engine_options, (s,), r),
    ensures
        r@->Object_0.len() == 11,
        tells(r@, "dir"@, JsonView::Text(s.dir@)),
        tells(r@, "max-concurrent-downloads"@, number(s.max_concurrent_downloads as nat)),
        tells(r@, "max-connection-per-server"@, number(s.max_connection_per_server as nat)),
        tells(r@, "split"@, number(s.split as nat)),
        tells(r@, "user-agent"@, JsonView::Text(s.user_agent@)),
        tells(r@, "max-download-limit"@, number(s.max_download_limit as nat)),
        tells(r@, "max-overall-download-limit"@, number(s.max_overall_download_limit as nat)),
        tells(r@, "max-overall-upload-limit"@, number(s.max_overall_upload_limit as nat)),
        tells(r@, "all-proxy"@, JsonView::Text(s.all_proxy@)),
        tells(r@, "no-proxy"@, JsonView::Text(s.no_proxy@)),
        tells(r@, "continue"@, flag(s.continue_partial)),
{
    assert(r@ is Object);
    assert(r@->Object_0[0] == ("dir"@, JsonView::Text(s.dir@)));
    assert(r@->Object_0[1] == ("max-concurrent-downloads"@, number(s.max_concurrent_downloads as nat)));
    assert(r@->Object_0[2] == ("max-connection-per-server"@, number(s.max_connection_per_server as nat)));
    assert(r@->Object_0[3] == ("split"@, number(s.split as nat)));
    assert(r@->Object_0[4] == ("user-agent"@, JsonView::Text(s.user_agent@)));
    assert(r@->Object_0[5] == ("max-download-limit"@, number(s.max_download_limit as nat)));
    assert(r@->Object_0[6] == ("max-overall-download-limit"@, number(s.max_overall_download_limit as nat)));
    assert(r@->Object_0[7] == ("max-overall-upload-limit"@, number(s.max_overall_upload_limit as nat)));
    assert(r@->Object_0[8] == ("all-proxy"@, JsonView::Text(s.all_proxy@)));
    assert(r@->Object_0[9] == ("no-proxy"@, JsonView::Text(s.no_proxy@)));
    assert(r@->Object_0[10] == ("continue"@, flag(s.continue_partial)));
}

/// Peers are told one by one and in their order, as they are.
pub proof fn law_peers_are_told_as_they_are(peers: &Vec<PeerInfo>, r: Json, i: int)
    requires
        call_ensures(rpc_backend::peers_json, (peers,), r),
        0 <= i < peers@.len(),
    ensures
        r@ matches JsonView::Array(list) && list.len() == peers@.len() && {
            &&& list[i]->Object_0.len() == 6
            &&& tells(list[i], "ip"@, JsonView::Text(peers@[i].ip@))
            &&& tells(list[i], "port"@, number(peers@[i].port as nat))
            &&& tells(list[i], "peerId"@, JsonView::Text(peers@[i].peer_id@))
            &&& tells(list[i], "bitfield"@, JsonView::Text(peers@[i].bitfield@))
            &&& tells(list[i], "downloadSpeed"@, number(peers@[i].download_speed as nat))
            &&& tells(list[i], "uploadSpeed"@, number(peers@[i].upload_speed as nat))
        },
{
    let list = r@->Array_0;
    assert(list[i]->Object_0[0] == ("ip"@, JsonView::Text(peers@[i].ip@)));
    assert(list[i]->Object_0[1] == ("port"@, number(peers@[i].port as nat)));
    assert(list[i]->Object_0[2] == ("peerId"@, JsonView::Text(peers@[i].peer_id@)));
    assert(list[i]->Object_0[3] == ("bitfield"@, JsonView::Text(peers@[i].bitfield@)));
    assert(list[i]->Object_0[4] == ("downloadSpeed"@, number(peers@[i].download_speed as nat)));
    assert(list[i]->Object_0[5] == ("uploadSpeed"@, number(peers@[i].upload_speed as nat)));
}

/// The engine names its version and what it can do.
pub proof fn law_the_engine_names_its_version(r: Json)
    requires
        call_ensures(rpc_backend::engine_version, (), r),
    ensures
        r@->Object_0.len() == 2,
        tells(r@, "version"@, JsonView::Text(rpc_backend::ENGINE_VERSION@)),
        exists|list: Seq<JsonView>| #[trigger]
            tells(r@, "enabledFeatures"@, JsonView::Array(list)) && list.len() > 0 && list.contains(
                JsonView::Text("BitTorrent"@),
            ),
{
    assert(r@->Object_0[0] == ("version"@, JsonView::Text(rpc_backend::ENGINE_VERSION@)));
    let list = r@->Object_0[1].1->Array_0;
    assert(r@->Object_0[1] == ("enabledFeatures"@, JsonView::Array(list)));
    assert(tells(r@, "enabledFeatures"@, JsonView::Array(list)));
    assert(list[1] == JsonView::Text("BitTorrent"@));
}

/// The identifiers of the tasks in one of two states are those of exactly these tasks.
proof fn lemma_gids(tasks: Seq<TaskView>, one: TaskStatus, other: TaskStatus, gid: Seq<char>)
    ensures
        rpc_backend::gids_in(tasks, one, other).contains(gid) <==> exists|i: int|
            0 <= i < tasks.len() && (#[trigger] tasks[i]).gid == gid && (tasks[i].status == one
                || tasks[i].status == other),
    decreases tasks.len(),
{
    if tasks.len() > 0 {
        let before = tasks.drop_last();
        let last = tasks.last();
        let head = rpc_backend::gids_in(before, one, other);
        let all = rpc_backend::gids_in(tasks, one, other);
        lemma_gids(before, one, other, gid);
        if head.contains(gid) {
            let k = choose|k: int| 0 <= k < head.len() && head[k] == gid;
            assert(all[k] == gid);
            let i = choose|i: int|
                0 <= i < before.len() && (#[trigger] before[i]).gid == gid && (before[i].status
                    == one || before[i].status == other);
            assert(tasks[i].gid == gid);
        }
        if all.contains(gid) && !head.contains(gid) {
            let k = choose|k: int| 0 <= k < all.len() && all[k] == gid;
            assert(k < head.len() ==> head[k] == gid);
            assert(tasks[tasks.len() - 1] == last);
        }
        if exists|i: int|
            0 <= i < tasks.len() && (#[trigger] tasks[i]).gid == gid && (tasks[i].status == one
                || tasks[i].status == other) {
            let i = choose|i: int|
                0 <= i < tasks.len() && (#[trigger] tasks[i]).gid == gid && (tasks[i].status == one
                    || tasks[i].status == other);
            if i < before.len() {
                assert(before[i] == tasks[i]);
            } else {
                assert(all[all.len() - 1] == gid);
            }
        }
    }
}

/// Pausing all tasks pauses exactly those that run or wait, and resuming all of them
/// resumes exactly those that are paused.
pub proof fn law_all_are_paused_and_resumed(
    m: &TaskManager,
    gid: Seq<char>,
    a: Vec<String>,
    b: Vec<String>,
)
    requires
        m@.wf(),
        m@.repo.task(gid) is Some,
        call_ensures(rpc_backend::gids_to_pause, (m,), a),
        call_ensures(rpc_backend::gids_to_resume, (m,), b),
    ensures
        ({
            let status = m@.repo.task(gid)->0.status;
            &&& a.deep_view().contains(gid) <==> status == TaskStatus::Active || status
                == TaskStatus::Waiting
            &&& b.deep_view().contains(gid) <==> status == TaskStatus::Paused
        }),
{
    let tasks = m@.repo.tasks;
    let all = repository::members(tasks, Group::All);
    remote::law_lists_go_by_state(tasks);
    lemma_gids(all, TaskStatus::Active, TaskStatus::Waiting, gid);
    lemma_gids(all, TaskStatus::Paused, TaskStatus::Paused, gid);
    assoc::lemma_index_of(tasks, gid);
    let k = assoc::index_of(tasks, gid);
    assert(all[k] == tasks[k].1);
    assert(tasks[k].0 == tasks[k].1.gid);
    assert forall|i: int| 0 <= i < all.len() && (#[trigger] all[i]).gid == gid implies i == k by {
        assert(tasks[i].0 == tasks[i].1.gid);
    }
}

/// Whether an outcome is the text `s`.
pub open spec fn is_answer(r: Option<Result<Json, RpcError>>, s: Seq<char>) -> bool {
    r matches Some(Ok(Json::Text(t))) && t@ == s
}

/// What a change is answered that succeeded: a removal with the task that was removed, an
/// addition with the tasks that were added, and everything else with a plain word.
pub proof fn law_a_change_is_answered(
    c: &Command,
    gids: Vec<String>,
    r: Option<Result<Json, RpcError>>,
    i: int,
)
    requires
        *c is AddTorrent ==> gids@.len() == 1,
        call_ensures(
            rpc_backend::answer_change,
            (c, Ok::<Vec<String>, String>(gids)),
            r,
        ),
    ensures
        *c is Pause || *c is Resume || *c is PauseAll || *c is ResumeAll || *c is Purge
            || *c is ChangeGlobal || *c is ChangeTask || *c is SaveUser ==> is_answer(r, "OK"@),
        *c matches Command::Remove { gid } ==> is_answer(r, gid@),
        *c is AddTorrent ==> is_answer(r, gids@[0]@),
        *c is AddUri ==> (r matches Some(Ok(Json::Array(list))) && list@.len() == gids@.len() && (0
            <= i < gids@.len() ==> (list@[i] matches Json::Text(s) && s@ == gids@[i]@))),
{
    assert(gids.deep_view().len() == gids@.len());
    if gids@.len() > 0 {
        assert(gids.deep_view()[0] == gids@[0]@);
    }
    if *c is AddUri {
        let list = r->0->Ok_0->Array_0;
        json::lemma_array_view(list);
        assert(list.deep_view().len() == list@.len());
        if 0 <= i < gids@.len() {
            assert(gids.deep_view()[i] == gids@[i]@);
            assert(list.deep_view()[i] == list@[i].deep_view());
        }
    }
}

/// A change that failed is answered with what went wrong, except where changes in bulk
/// never fail.
pub proof fn law_a_failed_change_says_why(
    c: &Command,
    e: String,
    r: Option<Result<Json, RpcError>>,
)
    requires
        call_ensures(rpc_backend::answer_change, (c, Err::<Vec<String>, String>(e)), r),
    ensures
        *c is Pause || *c is Resume || *c is Remove || *c is AddUri || *c is AddTorrent
            || *c is ChangeGlobal || *c is ChangeTask ==> (r matches Some(
            Err(RpcError::Other { code, message }),
        ) && code == 1 && message@ == e@),
        *c is SaveUser ==> (r matches Some(Err(RpcError::Other { code, message })) && code == 1
            && message@ == "保存用户配置失败: "@ + e@),
        *c is PauseAll || *c is ResumeAll || *c is Purge ==> is_answer(r, "OK"@),
{
}

/// What a JSON value holds is what is read out of it.
pub proof fn law_values_are_read_as_they_are(
    j: &Json,
    s: Option<&str>,
    n: Option<u64>,
    m: Option<i64>,
)
    requires
        call_ensures(Json::as_str, (j,), s),
        call_ensures(Json::as_u64, (j,), n),
        call_ensures(Json::as_i64, (j,), m),
    ensures
        *j matches Json::Text(t) ==> s is Some && s->0@ == t@,
        !(*j is Text) ==> s is None,
        *j matches Json::Number(Number::Unsigned(v)) ==> n == Some(v) && (v <= i64::MAX ==> m
            == Some(v as i64)),
        *j matches Json::Number(Number::Negative(v)) ==> n is None && m == Some(v),
        !(*j is Number) ==> n is None && m is None,
{
    if *j is Text {
        let t = j->Text_0;
        assert(j@ == JsonView::Text(t@));
    }
}

/// A field of an object is found under its key, where no earlier one has that key.
pub proof fn law_fields_are_found_by_their_keys(
    j: &Json,
    fields: Vec<(String, Json)>,
    key: &str,
    r: Option<&Json>,
    i: int,
)
    requires
        *j == Json::Object(fields),
        call_ensures(Json::get, (j, key), r),
    ensures
        0 <= i < fields@.len() && fields@[i].0@ == key@ && (forall|k: int|
            0 <= k < i ==> (#[trigger] fields@[k]).0@ != key@) ==> r is Some && r->0@
            == fields@[i].1@,
        (forall|k: int| 0 <= k < fields@.len() ==> (#[trigger] fields@[k]).0@ != key@) ==> r is None,
{
    json::lemma_object_view(fields);
    let view = fields.deep_view();
    assert(view.len() == fields@.len());
    assert forall|k: int| 0 <= k < view.len() implies #[trigger] view[k] == (
        fields@[k].0@,
        fields@[k].1@,
    ) by {}
    assoc::lemma_index_of(view, key@);
    let at = assoc::index_of(view, key@);
    if 0 <= i < fields@.len() && fields@[i].0@ == key@ && (forall|k: int|
        0 <= k < i ==> (#[trigger] fields@[k]).0@ != key@) {
        assert(view[i].0 == key@);
        assert forall|k: int| 0 <= k < i implies (#[trigger] view[k]).0 != key@ by {
            assert(fields@[k].0@ != key@);
        }
        assoc::lemma_index_is(view, key@, i);
    }
    if forall|k: int| 0 <= k < fields@.len() ==> (#[trigger] fields@[k]).0@ != key@ {
        assert forall|k: int| 0 <= k < view.len() implies (#[trigger] view[k]).0 != key@ by {
            assert(fields@[k].0@ != key@);
        }
    }
}

} // verus!
