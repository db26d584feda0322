//! Settings: their defaults, how they are merged, completed and stored, how often the
//! state is sent out, and how tasks are named.

use vstd::prelude::*;

use crate::assoc;
use crate::broadcaster::{self, BroadcasterConfig};
use crate::config::{self, ConfigError, Platform, PreferenceStep, SystemConfig, UserConfig};
use crate::digits;
use crate::engine;
use crate::gid;
use crate::json::{self, Json, JsonView, Number};
use crate::laws::answers;
use crate::laws::remote;
use crate::manager::TaskManager;
use crate::options::EngineOptions;
use crate::path;
use crate::repository::{self, GlobalStat, Group, TaskRepository};
use crate::size;
use crate::task::Task;

verus! {

/// A setting of the patch replaces the stored one, in its place; what the patch does not
/// mention stays as it was.
pub proof fn law_a_patch_replaces_what_it_mentions(
    base: &mut Vec<(String, Json)>,
    patch: &Vec<(String, Json)>,
    key: Seq<char>,
    i: int,
)
    requires
        call_ensures(config::merge_patch, (base, patch), ()),
        assoc::distinct(patch.deep_view()),
    ensures
        0 <= i < patch@.len() && patch@[i].0@ == key ==> assoc::lookup(
            final(base).deep_view(),
            key,
        ) == Some(patch@[i].1@),
        (forall|j: int| 0 <= j < patch@.len() ==> (#[trigger] patch@[j]).0@ != key)
            ==> assoc::lookup(final(base).deep_view(), key) == assoc::lookup(
            old(base).deep_view(),
            key,
        ),
        patch@.len() == 0 ==> final(base).deep_view() == old(base).deep_view(),
{
    let view = patch.deep_view();
    config::law_merge_keeps_the_rest(old(base).deep_view(), view, key);
    lemma_found_at(patch, key, i);
}

/// A setting is found where it stands, where no earlier one has its key.
proof fn lemma_found_at(table: &Vec<(String, Json)>, key: Seq<char>, i: int)
    requires
        assoc::distinct(table.deep_view()),
    ensures
        0 <= i < table@.len() && table@[i].0@ == key ==> assoc::lookup(table.deep_view(), key)
            == Some(table@[i].1@) && assoc::has(table.deep_view(), key),
        (forall|j: int| 0 <= j < table@.len() ==> (#[trigger] table@[j]).0@ != key) ==> !assoc::has(
            table.deep_view(),
            key,
        ) && assoc::lookup(table.deep_view(), key) is None,
{
    let view = table.deep_view();
    assert forall|j: int| 0 <= j < view.len() implies #[trigger] view[j] == (
        table@[j].0@,
        table@[j].1@,
    ) by {}
    assoc::lemma_index_of(view, key);
    if 0 <= i < table@.len() && table@[i].0@ == key {
        assert(view[i].0 == key);
        assert forall|j: int| 0 <= j < i implies (#[trigger] view[j]).0 != key by {
            assert(view[j].0 != view[i].0);
        }
        assoc::lemma_index_is(view, key, i);
    }
    if forall|j: int| 0 <= j < table@.len() ==> (#[trigger] table@[j]).0@ != key {
        assert forall|j: int| 0 <= j < view.len() implies (#[trigger] view[j]).0 != key by {
            assert(table@[j].0@ != key);
        }
        assoc::lemma_index_is(view, key, view.len() as int);
    }
}

/// A default is taken for a setting that is not stored, and for no other.
pub proof fn law_defaults_are_taken_for_what_is_missing(
    stored: &mut Vec<(String, Json)>,
    defaults: &Vec<(String, Json)>,
    key: Seq<char>,
    i: int,
)
    requires
        call_ensures(config::complete_with, (stored, defaults), ()),
        assoc::distinct(defaults.deep_view()),
    ensures
        assoc::lookup(old(stored).deep_view(), key) is Some ==> assoc::lookup(
            final(stored).deep_view(),
            key,
        ) == assoc::lookup(old(stored).deep_view(), key),
        assoc::lookup(old(stored).deep_view(), key) is None && 0 <= i < defaults@.len()
            && defaults@[i].0@ == key ==> assoc::lookup(final(stored).deep_view(), key) == Some(
            defaults@[i].1@,
        ),
{
    config::law_defaults_fill_gaps(old(stored).deep_view(), defaults.deep_view(), key);
    lemma_found_at(defaults, key, i);
    assoc::lemma_index_of(old(stored).deep_view(), key);
}

/// The system part of the preferences is saved before the user part, each into its own
/// settings; a part that is no object ends the saving, and is named.
pub proof fn law_preferences_are_saved_in_parts(
    user: Option<&Json>,
    system: Option<&Json>,
    r: Vec<PreferenceStep>,
)
    requires
        call_ensures(config::preference_steps, (user, system), r),
    ensures
        user is None && system is None ==> r@.len() == 0,
        user is None && (system matches Some(Json::Object(s))) ==> r@.len() == 1 && (
        r@[0] matches PreferenceStep::System(v) && Json::Object(v)@ == system->0@),
        system is None && (user matches Some(Json::Object(u))) ==> r@.len() == 1 && (
        r@[0] matches PreferenceStep::User(v) && Json::Object(v)@ == user->0@),
        (user matches Some(Json::Object(u))) && (system matches Some(Json::Object(s))) ==> r@.len()
            == 2 && (r@[0] matches PreferenceStep::System(v) && Json::Object(v)@ == system->0@) && (
        r@[1] matches PreferenceStep::User(v) && Json::Object(v)@ == user->0@),
        system is Some && !(system->0 is Object) ==> r@.len() == 1 && (
        r@[0] matches PreferenceStep::Reject(part) && part@ == "system"@),
        system is None && user is Some && !(user->0 is Object) ==> r@.len() == 1 && (
        r@[0] matches PreferenceStep::Reject(part) && part@ == "user"@),
{
    let view = r.deep_view();
    assert(view.len() == r@.len());
    if r@.len() > 0 {
        assert(view[0] == r@[0].deep_view());
        if r@[0] is System {
            json::lemma_object_view(r@[0]->System_0);
        }
        if r@[0] is User {
            json::lemma_object_view(r@[0]->User_0);
        }
    }
    if r@.len() > 1 {
        assert(view[1] == r@[1].deep_view());
        json::lemma_object_view(r@[1]->User_0);
    }
    if system is Some && system->0 is Object {
        json::lemma_object_view(system->0->Object_0);
    }
    if user is Some && user->0 is Object {
        json::lemma_object_view(user->0->Object_0);
    }
}

/// What a fresh installation begins with: the system settings.
pub proof fn law_system_settings_at_first(
    os: Platform,
    data: &str,
    downloads: &str,
    r: SystemConfig,
    table: &str,
    table6: &str,
    a: String,
    b: String,
)
    requires
        call_ensures(SystemConfig::defaults, (os, data, downloads), r),
        table@ == "dht.dat"@ && table6@ == "dht6.dat"@,
        call_ensures(path::join_name, (os, data, table), a),
        call_ensures(path::join_name, (os, data, table6), b),
    ensures
        r.dir@ == downloads@,
        r.dht_file_path@ == a@ && r.dht_file_path6@ == b@,
        r.max_concurrent_downloads == 5,
        r.max_connection_per_server == 64 && r.split == 64,
        r.listen_port == 21301 && r.dht_listen_port == 26701 && r.rpc_listen_port == 16800,
        r.seed_time == 2880 && r.seed_ratio == 0x4000_0000_0000_0000,
        r.max_download_limit == 0 && r.max_overall_download_limit == 0
            && r.max_overall_upload_limit == 0,
        r.all_proxy@.len() == 0 && r.no_proxy@.len() == 0 && r.rpc_secret@.len() == 0,
        r.bt_tracker@.len() == 0 && r.bt_exclude_tracker@.len() == 0 && r.extra@.len() == 0,
        r.auto_file_renaming && r.bt_load_saved_metadata && r.bt_save_metadata
            && r.continue_partial && r.follow_metalink && r.follow_torrent && r.pause,
        !r.allow_overwrite && !r.bt_force_encryption && !r.pause_metadata,
        r.user_agent@ == config::CHROME_UA@,
{
}

/// What a fresh installation begins with: the user settings.
pub proof fn law_user_settings_at_first(os: Platform, r: UserConfig)
    requires
        call_ensures(UserConfig::defaults, (os,), r),
    ensures
        r.auto_check_update <==> os == Platform::MacOs,
        r.tray_speedometer <==> os == Platform::MacOs,
        r.hide_app_menu <==> os == Platform::Windows || os == Platform::Linux,
        r.auto_sync_tracker && r.enable_upnp && r.new_task_show_downloading && r.show_progress_bar
            && r.task_notification,
        !r.auto_hide_window && !r.keep_seeding && !r.keep_window_state
            && !r.no_confirm_before_delete_task && !r.open_at_login
            && !r.resume_all_when_app_launched,
        r.cookie@.len() == 0 && r.engine_bin_path@.len() == 0,
        r.engine_max_connection_per_server == 64 && r.run_mode == 1,
        r.favorite_directories@.len() == 0 && r.history_directories@.len() == 0,
        r.last_check_update_time == 0 && r.last_sync_tracker_time == 0,
        r.locale@ == "en-US"@ && r.log_level@ == "warn"@ && r.theme@ == "auto"@ && r.tray_theme@
            == "auto"@ && r.update_channel@ == "latest"@,
        r.protocols.magnet && !r.protocols.thunder,
        !r.proxy.enable && r.proxy.server@.len() == 0 && r.proxy.bypass@.len() == 0,
        r.proxy.scope.deep_view() == seq!["download"@, "update-app"@, "update-trackers"@],
        r.tracker_source@.len() == 2,
        r.extra@.len() == 0,
{
    assert(r.tracker_source.deep_view().len() == r.tracker_source@.len());
}

/// Why settings could not be read or written, in words.
pub proof fn law_errors_name_their_file(e: &ConfigError, r: String)
    requires
        call_ensures(ConfigError::message, (e,), r),
    ensures
        *e matches ConfigError::Io { path, source } ==> r@ == "配置文件 "@ + path@
            + " 读写失败: "@ + source@,
        *e matches ConfigError::Parse { path, source } ==> r@ == "配置文件 "@ + path@
            + " 解析失败: "@ + source@,
        *e matches ConfigError::Serialize(m) ==> r@ == "配置数据不合法: "@ + m@,
        *e matches ConfigError::InvalidPayload(part) ==> r@ == "偏好载荷 "@ + part@
            + " 应为 JSON 对象"@,
        *e is DataDirNotFound ==> r@ == "无法确定数据目录"@,
{
}

/// Whether a setting is a number.
pub open spec fn numeric(key: Seq<char>) -> bool {
    ||| key == "max-concurrent-downloads"@ || key == "max-connection-per-server"@
    ||| key == "split"@ || key == "max-download-limit"@ || key == "max-overall-download-limit"@
    ||| key == "max-overall-upload-limit"@ || key == "rpc-listen-port"@
    ||| key == "dht-listen-port"@ || key == "listen-port"@ || key == "seed-time"@
    ||| key == "seed-ratio"@ || key == "max-tries"@ || key == "retry-wait"@
}

/// Settings are stored in their places: a number that is given in digits as that number,
/// one that is a size as its bytes, and everything that is no number setting as it is.
pub proof fn law_number_settings_are_stored_as_numbers(
    options: &Json,
    fields: Vec<(String, Json)>,
    readings: &Vec<(String, u64)>,
    r: Json,
    i: int,
    n: u64,
    s: String,
    word: &str,
    bytes: Option<u64>,
)
    requires
        *options == Json::Object(fields),
        call_ensures(engine::normalize_system_patch, (options, readings), r),
        0 <= i < fields@.len(),
        call_ensures(digits::u64_text, (n,), s),
        call_ensures(size::parse_size, (word,), bytes),
    ensures
        r matches Json::Object(out) && out@.len() == fields@.len() && {
            let (key, value) = (fields@[i].0@, fields@[i].1);
            &&& out@[i].0@ == key
            &&& !numeric(key) ==> out@[i].1@ == value@
            &&& numeric(key) && value == Json::Number(Number::Unsigned(n)) ==> out@[i].1
                == Json::Number(Number::Unsigned(n))
            &&& numeric(key) && (value matches Json::Text(t) && t@ == s@) ==> out@[i].1
                == Json::Number(Number::Unsigned(n))
            &&& numeric(key) && (value matches Json::Bool(b)) ==> out@[i].1 == value
            &&& numeric(key) && assoc::lookup(readings.deep_view(), key) is None && (
            value matches Json::Text(t) && t@ == word@ && digits::unsigned(
                word@,
                u64::MAX as nat,
            ) is None) ==> match bytes {
                Some(v) => out@[i].1 == Json::Number(Number::Unsigned(v)),
                None => out@[i].1@ == value@,
            }
        },
{
    digits::lemma_dec(n as nat);
    assert(digits::is_digit(s@[0]));
    json::lemma_object_view(fields);
    let out = r->Object_0;
    json::lemma_object_view(out);
    let view = out.deep_view();
    assert(view.len() == out@.len());
    assert(view[i] == (out@[i].0@, out@[i].1@));
    assert(fields.deep_view()[i] == (fields@[i].0@, fields@[i].1@));
    let key = fields@[i].0@;
    assert(numeric(key) == engine::numeric_key(key));
}

/// A setting that reads as a finite fraction is stored as that fraction.
pub proof fn law_fractions_are_stored_as_fractions(
    options: &Json,
    fields: Vec<(String, Json)>,
    readings: &Vec<(String, u64)>,
    r: Json,
    i: int,
    bits: u64,
)
    requires
        *options == Json::Object(fields),
        call_ensures(engine::normalize_system_patch, (options, readings), r),
        0 <= i < fields@.len(),
        numeric(fields@[i].0@),
        fields@[i].1 matches Json::Text(t) && digits::unsigned(t@, u64::MAX as nat) is None,
        assoc::lookup(readings.deep_view(), fields@[i].0@) == Some(bits),
    ensures
        r matches Json::Object(out) && out@.len() == fields@.len() && {
            &&& bits < 0x7FF0_0000_0000_0000 ==> out@[i].1 == Json::Number(Number::Float(bits))
            &&& 0x7FF0_0000_0000_0000 <= bits < 0x8000_0000_0000_0000 ==> out@[i].1 == Json::Null
        },
{
    json::lemma_object_view(fields);
    let out = r->Object_0;
    json::lemma_object_view(out);
    let view = out.deep_view();
    assert(view.len() == out@.len());
    assert(view[i] == (out@[i].0@, out@[i].1@));
    assert(fields.deep_view()[i] == (fields@[i].0@, fields@[i].1@));
    let key = fields@[i].0@;
    assert(numeric(key) == engine::numeric_key(key));
}

/// The length of a finished task is the one that was known, or that of its file.
pub proof fn law_a_finished_task_is_as_long_as_its_file(
    t: &Task,
    disk: Option<u64>,
    r: (u64, u64),
)
    requires
        call_ensures(engine::resolve_finished_bytes, (t, disk), r),
    ensures
        r.0 == r.1,
        t.total_length > 0 ==> r.0 == t.total_length,
        t.total_length == 0 && disk is Some ==> r.0 == disk->0,
        t.total_length == 0 && disk is None ==> r.0 == 0,
{
}

/// URLs of HTTP are told by their scheme.
pub proof fn law_urls_are_told_by_their_scheme(url: &str, rest: Seq<char>, r: bool)
    requires
        call_ensures(engine::is_http_url, (url,), r),
    ensures
        url@ == "http://"@ + rest || url@ == "https://"@ + rest ==> r,
        r ==> "http://"@.is_prefix_of(url@) || "https://"@.is_prefix_of(url@),
{
    reveal_strlit("http://");
    reveal_strlit("https://");
    if url@ == "http://"@ + rest {
        assert(url@.take(7) =~= "http://"@);
    }
    if url@ == "https://"@ + rest {
        assert(url@.take(8) =~= "https://"@);
    }
}

/// The last separator of a path stands before the last piece without one.
proof fn lemma_last_separator(head: Seq<char>, c: char, name: Seq<char>)
    requires
        c == '/' || c == '\\',
        forall|i: int| 0 <= i < name.len() ==> name[i] != '/' && name[i] != '\\',
    ensures
        engine::last_separator(head.push(c) + name) == head.len(),
        engine::last_separator(name) == -1,
    decreases name.len(),
{
    let s = head.push(c) + name;
    if name.len() == 0 {
        assert(s.last() == c);
    } else {
        assert(s.last() == name.last());
        assert(s.drop_last() =~= head.push(c) + name.drop_last());
        lemma_last_separator(head, c, name.drop_last());
    }
}

/// The name in a path is what follows its last separator; none where nothing does.
pub proof fn law_the_name_follows_the_last_separator(
    p: &str,
    head: Seq<char>,
    c: char,
    name: Seq<char>,
    r: Option<String>,
)
    requires
        c == '/' || c == '\\',
        forall|i: int| 0 <= i < name.len() ==> name[i] != '/' && name[i] != '\\',
        call_ensures(engine::name_of_path, (p,), r),
    ensures
        p@ == head.push(c) + name || p@ == name ==> (name.len() > 0 ==> (r matches Some(n) && n@
            == name)) && (name.len() == 0 ==> r is None),
{
    lemma_last_separator(head, c, name);
    let whole = head.push(c) + name;
    assert(whole.skip(head.len() + 1int) =~= name);
    assert(name.skip(0) =~= name);
}

/// The source of a task is the first of its first file.
pub proof fn law_the_source_of_a_task(t: &Task, r: Option<(String, String)>)
    requires
        call_ensures(engine::source_of, (t,), r),
    ensures
        t.files@.len() > 0 && t.files@[0].uris@.len() > 0 ==> (r matches Some((uri, state)) && uri@
            == t.files@[0].uris@[0].0@ && state@ == t.files@[0].uris@[0].1@),
        t.files@.len() == 0 || t.files@[0].uris@.len() == 0 ==> r is None,
{
    if t.files@.len() > 0 {
        assert(t.files.deep_view()[0] == t.files@[0]@);
        let uris = t.files@[0].uris;
        assert(uris.deep_view().len() == uris@.len());
        if uris@.len() > 0 {
            assert(uris.deep_view()[0] == (uris@[0].0@, uris@[0].1@));
        }
    }
}

/// A task is asked for by its identifier, and is a torrent where it holds one; the
/// options that a torrent is started with are those on its record, or the general ones.
pub proof fn law_tasks_are_asked_for(
    m: &TaskManager,
    gid: &str,
    r: Option<Task>,
    bt: bool,
    o: EngineOptions,
    recorded: EngineOptions,
)
    requires
        call_ensures(TaskManager::get, (m, gid), r),
        call_ensures(TaskManager::is_bt, (m, gid), bt),
        call_ensures(TaskManager::bt_session_options, (m, gid), o),
    ensures
        r.deep_view() == m@.repo.task(gid@),
        bt <==> (m@.repo.task(gid@) matches Some(t) && t.bittorrent is Some),
        assoc::lookup(m@.task_options, gid@) == Some(recorded@) ==> o@ == recorded@,
        assoc::lookup(m@.task_options, gid@) is None ==> o@ == m@.global,
{
}

/// The interval between two messages: the base where nothing runs, a tenth of a second
/// less for each running task, and within the bounds.
pub proof fn law_intervals_shrink_with_the_tasks(c: &BroadcasterConfig, n: u32, r: u64, s: u64)
    requires
        c.min_interval <= c.max_interval,
        call_ensures(BroadcasterConfig::effective_interval, (c, n), r),
        call_ensures(broadcaster::effective_interval, (n,), s),
    ensures
        n == 0 ==> r == c.base_interval && s == 1000,
        n > 0 ==> c.min_interval <= r <= c.max_interval,
        n > 0 && c.min_interval <= c.base_interval - 100 * n <= c.max_interval ==> r
            == c.base_interval - 100 * n,
        n > 0 && c.base_interval - 100 * n < c.min_interval ==> r == c.min_interval,
        n > 0 && c.base_interval - 100 * n > c.max_interval ==> r == c.max_interval,
        0 < n <= 5 ==> s == 1000 - 100 * n,
        n > 5 ==> s == 500,
{
}

/// What is sent out holds the figures of all tasks, and every task on the books in its
/// order.
pub proof fn law_what_is_sent_out(
    repo: &TaskRepository,
    r: Json,
    stat: GlobalStat,
    figures: Json,
    i: int,
    t: &Task,
    told: Json,
)
    requires
        repo@.wf(),
        repository::download_total(repo@.tasks) <= u64::MAX,
        repository::upload_total(repo@.tasks) <= u64::MAX,
        call_ensures(broadcaster::build_snapshot, (repo,), r),
        call_ensures(TaskRepository::global_stat, (repo,), stat),
        call_ensures(GlobalStat::to_aria2_json, (&stat,), figures),
        0 <= i < repo@.tasks.len(),
        t@ == repo@.tasks[i].1,
        call_ensures(Task::to_aria2, (t,), told),
    ensures
        r@->Object_0.len() == 2,
        answers::tells(r@, "globalStat"@, figures@),
        exists|list: Seq<JsonView>|
            #[trigger] answers::tells(r@, "tasks"@, JsonView::Array(list)) && list.len()
                == repo@.tasks.len() && list[i] == told@,
{
    let list = r@->Object_0[1].1->Array_0;
    assert(r@->Object_0[0] == ("globalStat"@, figures@));
    assert(r@->Object_0[1] == ("tasks"@, JsonView::Array(list)));
    remote::law_lists_go_by_state(repo@.tasks);
    let all = repository::members(repo@.tasks, Group::All);
    assert(all[i] == repo@.tasks[i].1);
    assert(list[i] == told@);
    assert(answers::tells(r@, "tasks"@, JsonView::Array(list)));
}

/// Identifiers that a process makes are sixteen hexadecimal digits; with other counters at
/// the same time they differ.
pub proof fn law_tasks_are_named_apart(
    micros: u128,
    a: u64,
    b: u64,
    pid: u64,
    x: String,
    y: String,
    i: int,
)
    requires
        call_ensures(gid::generate_gid, (micros, a, pid), x),
        call_ensures(gid::generate_gid, (micros, b, pid), y),
        0 <= i < 16,
    ensures
        x@.len() == 16,
        '0' <= x@[i] <= '9' || 'a' <= x@[i] <= 'f',
        a == b <==> x@ == y@,
{
    gid::law_gids_differ(micros, micros, pid, a, b);
    assert(gid::is_digit(x@[i]));
}

} // verus!
