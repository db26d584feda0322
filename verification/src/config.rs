//! User and system settings: their fields, their defaults, and how a patch is
//! merged into stored settings.

use vstd::prelude::*;

use crate::assoc;
use crate::json::{self, Json, JsonView};
use crate::path;
use crate::text::{join2, join3};

verus! {

/// User agent that is sent where none is configured.
pub const CHROME_UA: &'static str = "Mozilla/5.0 (Macintosh; Intel Mac OS X 10_15_7) AppleWebKit/537.36 (KHTML, like Gecko) Chrome/111.0.0.0 Safari/537.36";

/// Tracker list: the best trackers by address.
pub const TRACKER_BEST_IP_URL_CDN: &'static str = "https://cdn.jsdelivr.net/gh/ngosang/trackerslist/trackers_best_ip.txt";

/// Tracker list: the best trackers by name.
pub const TRACKER_BEST_URL_CDN: &'static str = "https://cdn.jsdelivr.net/gh/ngosang/trackerslist/trackers_best.txt";

/// The IEEE 754 encoding of `2`.
pub const DOUBLE_TWO: u64 = 0x4000_0000_0000_0000;

/// The operating systems whose defaults or paths differ.
#[derive(Debug, Clone, Copy, PartialEq, Eq, Structural)]
pub enum Platform {
    MacOs,
    Windows,
    Linux,
    Other,
}

/// Why settings could not be read or written.
#[derive(Debug, PartialEq, Eq)]
pub enum ConfigError {
    /// The system names no directory for settings.
    DataDirNotFound,
    /// A settings file could not be read or written.
    Io { path: String, source: String },
    /// A settings file does not hold JSON.
    Parse { path: String, source: String },
    /// A setting has a value of the wrong type.
    Serialize(String),
    /// A part of the preferences is not an object.
    InvalidPayload(String),
}

impl ConfigError {
    /// The error in words.
    pub open spec fn words(self) -> Seq<char> {
        match self {
            ConfigError::DataDirNotFound => "无法确定数据目录"@,
            ConfigError::Io { path, source } => "配置文件 "@ + path@ + " 读写失败: "@ + source@,
            ConfigError::Parse { path, source } => "配置文件 "@ + path@ + " 解析失败: "@
                + source@,
            ConfigError::Serialize(m) => "配置数据不合法: "@ + m@,
            ConfigError::InvalidPayload(part) => "偏好载荷 "@ + part@ + " 应为 JSON 对象"@,
        }
    }

    /// The error in words.
    pub fn message(&self) -> (r: String)
        ensures
            r@ == self.words(),
    {
        match self {
            ConfigError::DataDirNotFound => "无法确定数据目录".to_owned(),
            ConfigError::Io { path, source } => {
                let mut out = join3("配置文件 ", path.as_str(), " 读写失败: ");
                out.append(source.as_str());
                out
            },
            ConfigError::Parse { path, source } => {
                let mut out = join3("配置文件 ", path.as_str(), " 解析失败: ");
                out.append(source.as_str());
                out
            },
            ConfigError::Serialize(m) => join2("配置数据不合法: ", m.as_str()),
            ConfigError::InvalidPayload(part) => join3("偏好载荷 ", part.as_str(), " 应为 JSON 对象"),
        }
    }
}

/// On unless configured otherwise.
pub fn default_true() -> (r: bool)
    ensures
        r,
{
    true
}

/// Connections to one server.
pub fn default_max_connection_per_server() -> (r: u32)
    ensures
        r == 64,
{
    64
}

/// Colour theme.
pub fn default_theme() -> (r: String)
    ensures
        r@ == "auto"@,
{
    "auto".to_owned()
}

/// Verbosity of the log.
pub fn default_log_level() -> (r: String)
    ensures
        r@ == "warn"@,
{
    "warn".to_owned()
}

/// Standard mode.
pub fn default_run_mode() -> (r: u32)
    ensures
        r == 1,
{
    1
}

/// Release channel.
pub fn default_update_channel() -> (r: String)
    ensures
        r@ == "latest"@,
{
    "latest".to_owned()
}

/// Language.
pub fn default_locale() -> (r: String)
    ensures
        r@ == "en-US"@,
{
    "en-US".to_owned()
}

/// Whether to look for updates.
pub fn default_auto_check_update(platform: Platform) -> (r: bool)
    ensures
        r == (platform == Platform::MacOs),
{
    platform == Platform::MacOs
}

/// Whether the menu is hidden.
pub fn default_hide_app_menu(platform: Platform) -> (r: bool)
    ensures
        r == (platform == Platform::Windows || platform == Platform::Linux),
{
    platform == Platform::Windows || platform == Platform::Linux
}

/// Whether the tray shows the speed.
pub fn default_tray_speedometer(platform: Platform) -> (r: bool)
    ensures
        r == (platform == Platform::MacOs),
{
    platform == Platform::MacOs
}

/// Where tracker lists come from.
pub fn default_tracker_source() -> (r: Vec<String>)
    ensures
        r.deep_view() == seq![TRACKER_BEST_IP_URL_CDN@, TRACKER_BEST_URL_CDN@],
{
    let mut out: Vec<String> = Vec::new();
    out.push(TRACKER_BEST_IP_URL_CDN.to_owned());
    out.push(TRACKER_BEST_URL_CDN.to_owned());
    proof {
        assert(out.deep_view() =~= seq![TRACKER_BEST_IP_URL_CDN@, TRACKER_BEST_URL_CDN@]);
    }
    out
}

/// What goes through the proxy.
pub fn default_proxy_scope() -> (r: Vec<String>)
    ensures
        r.deep_view() == seq!["download"@, "update-app"@, "update-trackers"@],
{
    let mut out: Vec<String> = Vec::new();
    out.push("download".to_owned());
    out.push("update-app".to_owned());
    out.push("update-trackers".to_owned());
    proof {
        assert(out.deep_view() =~= seq!["download"@, "update-app"@, "update-trackers"@]);
    }
    out
}

/// Port of the distributed hash table.
pub fn default_dht_listen_port() -> (r: u16)
    ensures
        r == 26701,
{
    26701
}

/// Port for peers.
pub fn default_listen_port() -> (r: u16)
    ensures
        r == 21301,
{
    21301
}

/// Downloads at a time.
pub fn default_max_concurrent_downloads() -> (r: u32)
    ensures
        r == 5,
{
    5
}

/// Port of the RPC server.
pub fn default_rpc_listen_port() -> (r: u16)
    ensures
        r == 16800,
{
    16800
}

/// Share ratio at which seeding ends, as an encoded double.
pub fn default_seed_ratio() -> (r: u64)
    ensures
        r == DOUBLE_TWO,
{
    DOUBLE_TWO
}

/// Seconds after which seeding ends.
pub fn default_seed_time() -> (r: u32)
    ensures
        r == 2880,
{
    2880
}

/// User agent.
pub fn default_user_agent() -> (r: String)
    ensures
        r@ == CHROME_UA@,
{
    CHROME_UA.to_owned()
}

/// Link types that the application handles.
#[derive(Debug, Clone, Copy, PartialEq, Eq, Structural)]
pub struct ProtocolsConfig {
    pub magnet: bool,
    pub thunder: bool,
}

impl Default for ProtocolsConfig {
    fn default() -> (r: ProtocolsConfig)
        ensures
            r == (ProtocolsConfig { magnet: true, thunder: false }),
    {
        ProtocolsConfig { magnet: true, thunder: false }
    }
}

/// Proxy settings.
#[derive(Debug, PartialEq, Eq)]
pub struct ProxyConfig {
    pub enable: bool,
    pub server: String,
    pub bypass: String,
    pub scope: Vec<String>,
}

impl Default for ProxyConfig {
    fn default() -> (r: ProxyConfig)
        ensures
            !r.enable,
            r.server@.len() == 0,
            r.bypass@.len() == 0,
            r.scope.deep_view() == seq!["download"@, "update-app"@, "update-trackers"@],
    {
        ProxyConfig {
            enable: false,
            server: String::new(),
            bypass: String::new(),
            scope: default_proxy_scope(),
        }
    }
}

/// User settings.
#[derive(Debug, PartialEq, Eq)]
pub struct UserConfig {
    pub auto_check_update: bool,
    pub auto_hide_window: bool,
    pub auto_sync_tracker: bool,
    pub cookie: String,
    pub enable_upnp: bool,
    pub engine_bin_path: String,
    pub engine_max_connection_per_server: u32,
    pub favorite_directories: Vec<String>,
    pub hide_app_menu: bool,
    pub history_directories: Vec<String>,
    pub keep_seeding: bool,
    pub keep_window_state: bool,
    pub last_check_update_time: u64,
    pub last_sync_tracker_time: u64,
    pub locale: String,
    pub log_level: String,
    pub new_task_show_downloading: bool,
    pub no_confirm_before_delete_task: bool,
    pub open_at_login: bool,
    pub protocols: ProtocolsConfig,
    pub proxy: ProxyConfig,
    pub resume_all_when_app_launched: bool,
    pub run_mode: u32,
    pub show_progress_bar: bool,
    pub task_notification: bool,
    pub theme: String,
    pub tracker_source: Vec<String>,
    pub tray_speedometer: bool,
    pub tray_theme: String,
    pub update_channel: String,
    pub window_state: Json,
    /// Settings without a field of their own.
    pub extra: Vec<(String, Json)>,
}

impl UserConfig {
    /// The user settings of a fresh installation.
    pub fn defaults(platform: Platform) -> (r: UserConfig)
        ensures
            r.auto_check_update == (platform == Platform::MacOs),
            !r.auto_hide_window,
            r.auto_sync_tracker,
            r.cookie@.len() == 0,
            r.enable_upnp,
            r.engine_bin_path@.len() == 0,
            r.engine_max_connection_per_server == 64,
            r.favorite_directories@.len() == 0,
            r.hide_app_menu == (platform == Platform::Windows || platform == Platform::Linux),
            r.history_directories@.len() == 0,
            !r.keep_seeding,
            !r.keep_window_state,
            r.last_check_update_time == 0,
            r.last_sync_tracker_time == 0,
            r.locale@ == "en-US"@,
            r.log_level@ == "warn"@,
            r.new_task_show_downloading,
            !r.no_confirm_before_delete_task,
            !r.open_at_login,
            r.protocols == (ProtocolsConfig { magnet: true, thunder: false }),
            !r.proxy.enable,
            r.proxy.server@.len() == 0,
            r.proxy.bypass@.len() == 0,
            r.proxy.scope.deep_view() == seq!["download"@, "update-app"@, "update-trackers"@],
            !r.resume_all_when_app_launched,
            r.run_mode == 1,
            r.show_progress_bar,
            r.task_notification,
            r.theme@ == "auto"@,
            r.tracker_source.deep_view() == seq![TRACKER_BEST_IP_URL_CDN@, TRACKER_BEST_URL_CDN@],
            r.tray_speedometer == (platform == Platform::MacOs),
            r.tray_theme@ == "auto"@,
            r.update_channel@ == "latest"@,
            r.window_state@ == JsonView::Object(seq![]),
            r.extra@.len() == 0,
    {
        let fields: Vec<(String, Json)> = Vec::new();
        proof {
            json::lemma_object_view(fields);
            assert(fields.deep_view() =~= seq![]);
        }
        UserConfig {
            auto_check_update: default_auto_check_update(platform),
            auto_hide_window: false,
            auto_sync_tracker: true,
            cookie: String::new(),
            enable_upnp: true,
            engine_bin_path: String::new(),
            engine_max_connection_per_server: default_max_connection_per_server(),
            favorite_directories: Vec::new(),
            hide_app_menu: default_hide_app_menu(platform),
            history_directories: Vec::new(),
            keep_seeding: false,
            keep_window_state: false,
            last_check_update_time: 0,
            last_sync_tracker_time: 0,
            locale: default_locale(),
            log_level: default_log_level(),
            new_task_show_downloading: true,
            no_confirm_before_delete_task: false,
            open_at_login: false,
            protocols: ProtocolsConfig::default(),
            proxy: ProxyConfig::default(),
            resume_all_when_app_launched: false,
            run_mode: default_run_mode(),
            show_progress_bar: true,
            task_notification: true,
            theme: default_theme(),
            tracker_source: default_tracker_source(),
            tray_speedometer: default_tray_speedometer(platform),
            tray_theme: default_theme(),
            update_channel: default_update_channel(),
            window_state: Json::Object(fields),
            extra: Vec::new(),
        }
    }
}

/// System settings.
#[derive(Debug, PartialEq, Eq)]
pub struct SystemConfig {
    pub all_proxy: String,
    pub allow_overwrite: bool,
    pub auto_file_renaming: bool,
    pub bt_exclude_tracker: String,
    pub bt_force_encryption: bool,
    pub bt_load_saved_metadata: bool,
    pub bt_save_metadata: bool,
    pub bt_tracker: String,
    /// The setting `continue`.
    pub continue_partial: bool,
    pub dht_file_path: String,
    pub dht_file_path6: String,
    pub dht_listen_port: u16,
    pub dir: String,
    pub follow_metalink: bool,
    pub follow_torrent: bool,
    pub listen_port: u16,
    pub max_concurrent_downloads: u32,
    pub max_connection_per_server: u32,
    pub max_download_limit: u64,
    pub max_overall_download_limit: u64,
    pub max_overall_upload_limit: u64,
    pub no_proxy: String,
    pub pause_metadata: bool,
    pub pause: bool,
    pub rpc_listen_port: u16,
    pub rpc_secret: String,
    /// Share ratio at which seeding ends, as an encoded double.
    pub seed_ratio: u64,
    pub seed_time: u32,
    pub split: u32,
    pub user_agent: String,
    /// Settings without a field of their own.
    pub extra: Vec<(String, Json)>,
}

impl SystemConfig {
    /// The system settings of a fresh installation that keeps its data in
    /// `data_dir` and its downloads in `download_dir`.
    pub fn defaults(os: Platform, data_dir: &str, download_dir: &str) -> (r: SystemConfig)
        ensures
            r.all_proxy@.len() == 0,
            !r.allow_overwrite,
            r.auto_file_renaming,
            r.bt_exclude_tracker@.len() == 0,
            !r.bt_force_encryption,
            r.bt_load_saved_metadata,
            r.bt_save_metadata,
            r.bt_tracker@.len() == 0,
            r.continue_partial,
            r.dht_file_path@ == path::in_dir(os, data_dir@, "dht.dat"@),
            r.dht_file_path6@ == path::in_dir(os, data_dir@, "dht6.dat"@),
            r.dht_listen_port == 26701,
            r.dir@ == download_dir@,
            r.follow_metalink,
            r.follow_torrent,
            r.listen_port == 21301,
            r.max_concurrent_downloads == 5,
            r.max_connection_per_server == 64,
            r.max_download_limit == 0,
            r.max_overall_download_limit == 0,
            r.max_overall_upload_limit == 0,
            r.no_proxy@.len() == 0,
            !r.pause_metadata,
            r.pause,
            r.rpc_listen_port == 16800,
            r.rpc_secret@.len() == 0,
            r.seed_ratio == DOUBLE_TWO,
            r.seed_time == 2880,
            r.split == 64,
            r.user_agent@ == CHROME_UA@,
            r.extra@.len() == 0,
    {
        SystemConfig {
            all_proxy: String::new(),
            allow_overwrite: false,
            auto_file_renaming: true,
            bt_exclude_tracker: String::new(),
            bt_force_encryption: false,
            bt_load_saved_metadata: true,
            bt_save_metadata: true,
            bt_tracker: String::new(),
            continue_partial: true,
            dht_file_path: path::join_name(os, data_dir, "dht.dat"),
            dht_file_path6: path::join_name(os, data_dir, "dht6.dat"),
            dht_listen_port: default_dht_listen_port(),
            dir: download_dir.to_owned(),
            follow_metalink: true,
            follow_torrent: true,
            listen_port: default_listen_port(),
            max_concurrent_downloads: default_max_concurrent_downloads(),
            max_connection_per_server: default_max_connection_per_server(),
            max_download_limit: 0,
            max_overall_download_limit: 0,
            max_overall_upload_limit: 0,
            no_proxy: String::new(),
            pause_metadata: false,
            pause: true,
            rpc_listen_port: default_rpc_listen_port(),
            rpc_secret: String::new(),
            seed_ratio: default_seed_ratio(),
            seed_time: default_seed_time(),
            split: default_max_connection_per_server(),
            user_agent: default_user_agent(),
            extra: Vec::new(),
        }
    }
}

/// `base` with every setting of `patch` put in, in the order of the patch.
pub open spec fn merged(
    base: Seq<(Seq<char>, JsonView)>,
    patch: Seq<(Seq<char>, JsonView)>,
) -> Seq<(Seq<char>, JsonView)>
    decreases patch.len(),
{
    if patch.len() == 0 {
        base
    } else {
        assoc::insert(merged(base, patch.drop_last()), patch.last().0, patch.last().1)
    }
}

/// `stored` with every setting of `defaults` put in that it lacks.
pub open spec fn completed(
    stored: Seq<(Seq<char>, JsonView)>,
    defaults: Seq<(Seq<char>, JsonView)>,
) -> Seq<(Seq<char>, JsonView)>
    decreases defaults.len(),
{
    if defaults.len() == 0 {
        stored
    } else {
        let before = completed(stored, defaults.drop_last());
        if assoc::has(before, defaults.last().0) {
            before
        } else {
            before.push(defaults.last())
        }
    }
}

/// Puts every setting of `patch` into `base`.
pub fn merge_patch(base: &mut Vec<(String, Json)>, patch: &Vec<(String, Json)>)
    ensures
        final(base).deep_view() == merged(old(base).deep_view(), patch.deep_view()),
{
    let ghost before = base.deep_view();
    let ghost view = patch.deep_view();
    let mut i: usize = 0;
    proof {
        assert(view.take(0) =~= seq![]);
    }
    while i < patch.len()
        invariant
            i <= patch@.len(),
            view == patch.deep_view(),
            base.deep_view() == merged(before, view.take(i as int)),
        decreases patch@.len() - i,
    {
        proof {
            let upto = view.take(i + 1);
            assert(upto.drop_last() =~= view.take(i as int));
            assert(upto.last() == view[i as int]);
        }
        assoc::insert_in(base, patch[i].0.as_str(), patch[i].1.clone());
        i += 1;
    }
    proof {
        assert(view.take(i as int) =~= view);
    }
}

/// Puts every setting of `defaults` into `stored` that it lacks.
pub fn complete_with(stored: &mut Vec<(String, Json)>, defaults: &Vec<(String, Json)>)
    ensures
        final(stored).deep_view() == completed(old(stored).deep_view(), defaults.deep_view()),
{
    let ghost before = stored.deep_view();
    let ghost view = defaults.deep_view();
    let mut i: usize = 0;
    proof {
        assert(view.take(0) =~= seq![]);
    }
    while i < defaults.len()
        invariant
            i <= defaults@.len(),
            view == defaults.deep_view(),
            stored.deep_view() == completed(before, view.take(i as int)),
        decreases defaults@.len() - i,
    {
        proof {
            let upto = view.take(i + 1);
            assert(upto.drop_last() =~= view.take(i as int));
            assert(upto.last() == view[i as int]);
        }
        let key = defaults[i].0.as_str();
        if !assoc::has_key(stored, key) {
            assoc::put(stored, key, defaults[i].1.clone());
        }
        i += 1;
    }
    proof {
        assert(view.take(i as int) =~= view);
    }
}

/// What a merged setting holds: the last value that the patch has for it, or
/// what it held before where the patch has none.
pub proof fn law_merge_keeps_the_rest(
    base: Seq<(Seq<char>, JsonView)>,
    patch: Seq<(Seq<char>, JsonView)>,
    key: Seq<char>,
)
    requires
        assoc::distinct(patch),
    ensures
        assoc::lookup(merged(base, patch), key) == (if assoc::has(patch, key) {
            assoc::lookup(patch, key)
        } else {
            assoc::lookup(base, key)
        }),
    decreases patch.len(),
{
    if patch.len() > 0 {
        let rest = patch.drop_last();
        assert forall|i: int, j: int|
            #![trigger rest[i], rest[j]]
            0 <= i < j < rest.len() implies rest[i].0 != rest[j].0 by {
            assert(rest[i] == patch[i] && rest[j] == patch[j]);
        }
        law_merge_keeps_the_rest(base, rest, key);
        assoc::lemma_lookup_insert(merged(base, rest), patch.last().0, patch.last().1, key);
        assoc::lemma_index_of(rest, key);
        let n = patch.len() - 1;
        if patch.last().0 == key {
            assert forall|j: int| 0 <= j < n implies (#[trigger] patch[j]).0 != key by {
                assert(patch[j].0 != patch[n].0);
            }
            assoc::lemma_index_is(patch, key, n);
        } else {
            let k = assoc::index_of(rest, key);
            if k < n {
                assert(rest[k] == patch[k]);
                assert forall|j: int| 0 <= j < k implies (#[trigger] patch[j]).0 != key by {
                    assert(rest[j] == patch[j]);
                }
                assoc::lemma_index_is(patch, key, k);
            } else {
                assert forall|j: int| 0 <= j < patch.len() implies (#[trigger] patch[j]).0
                    != key by {
                    if j < n {
                        assert(rest[j] == patch[j]);
                    }
                }
                assoc::lemma_index_is(patch, key, patch.len() as int);
            }
        }
    }
}

/// Completing with defaults never changes a setting that is stored, and gives
/// every missing setting its default.
pub proof fn law_defaults_fill_gaps(
    stored: Seq<(Seq<char>, JsonView)>,
    defaults: Seq<(Seq<char>, JsonView)>,
    key: Seq<char>,
)
    ensures
        assoc::lookup(completed(stored, defaults), key) == (if assoc::has(stored, key) {
            assoc::lookup(stored, key)
        } else {
            assoc::lookup(defaults, key)
        }),
    decreases defaults.len(),
{
    if defaults.len() > 0 {
        let rest = defaults.drop_last();
        law_defaults_fill_gaps(stored, rest, key);
        let before = completed(stored, rest);
        let last = defaults.last();
        assoc::lemma_lookup_insert(before, last.0, last.1, key);
        assoc::lemma_index_of(rest, key);
        assoc::lemma_index_of(defaults, key);
        let n = defaults.len() - 1;
        let k = assoc::index_of(rest, key);
        assert forall|j: int| 0 <= j < k implies (#[trigger] defaults[j]).0 != key by {
            assert(rest[j] == defaults[j]);
        }
        if k < n {
            assert(rest[k] == defaults[k]);
            assoc::lemma_index_is(defaults, key, k);
        } else if last.0 == key {
            assoc::lemma_index_is(defaults, key, n);
        } else {
            assert forall|j: int| 0 <= j < defaults.len() implies (#[trigger] defaults[j]).0
                != key by {
                if j < n {
                    assert(rest[j] == defaults[j]);
                }
            }
            assoc::lemma_index_is(defaults, key, defaults.len() as int);
        }
    }
}

/// One step of saving preferences.
#[derive(Debug, PartialEq, Eq)]
pub enum PreferenceStep {
    /// Merge into the system settings.
    System(Vec<(String, Json)>),
    /// Merge into the user settings.
    User(Vec<(String, Json)>),
    /// Fail: this part is not an object.
    Reject(String),
}

/// What a `PreferenceStep` stands for.
pub enum PreferenceStepView {
    System(Seq<(Seq<char>, JsonView)>),
    User(Seq<(Seq<char>, JsonView)>),
    Reject(Seq<char>),
}

impl DeepView for PreferenceStep {
    type V = PreferenceStepView;

    open spec fn deep_view(&self) -> PreferenceStepView {
        match self {
            PreferenceStep::System(patch) => PreferenceStepView::System(patch.deep_view()),
            PreferenceStep::User(patch) => PreferenceStepView::User(patch.deep_view()),
            PreferenceStep::Reject(part) => PreferenceStepView::Reject(part@),
        }
    }
}

/// The steps that save preferences: the system part before the user part, each
/// where it is there; a part that is not an object ends the saving.
pub open spec fn preference_plan(
    user: Option<JsonView>,
    system: Option<JsonView>,
) -> Seq<PreferenceStepView> {
    let user_steps = match user {
        None => seq![],
        Some(JsonView::Object(patch)) => seq![PreferenceStepView::User(patch)],
        Some(_) => seq![PreferenceStepView::Reject("user"@)],
    };
    match system {
        None => user_steps,
        Some(JsonView::Object(patch)) => seq![PreferenceStepView::System(patch)] + user_steps,
        Some(_) => seq![PreferenceStepView::Reject("system"@)],
    }
}

/// A copy of a table of settings.
pub fn clone_fields(fields: &Vec<(String, Json)>) -> (r: Vec<(String, Json)>)
    ensures
        r.deep_view() == fields.deep_view(),
{
    let mut out: Vec<(String, Json)> = Vec::new();
    let mut i: usize = 0;
    while i < fields.len()
        invariant
            i <= fields@.len(),
            out@.len() == i,
            forall|j: int|
                0 <= j < i ==> (#[trigger] out@[j]).0@ == fields@[j].0@ && out@[j].1@
                    == fields@[j].1@,
        decreases fields@.len() - i,
    {
        out.push((fields[i].0.clone(), fields[i].1.clone()));
        i += 1;
    }
    proof {
        assert(out.deep_view() =~= fields.deep_view());
    }
    out
}

/// The steps that save preferences.
pub fn preference_steps(user: Option<&Json>, system: Option<&Json>) -> (r: Vec<PreferenceStep>)
    ensures
        r.deep_view() == preference_plan(user.deep_view(), system.deep_view()),
{
    let mut out: Vec<PreferenceStep> = Vec::new();
    let ghost plan = preference_plan(user.deep_view(), system.deep_view());
    match system {
        None => {},
        Some(Json::Object(patch)) => {
            proof {
                json::lemma_object_view(*patch);
            }
            out.push(PreferenceStep::System(clone_fields(patch)));
        },
        Some(_) => {
            out.push(PreferenceStep::Reject("system".to_owned()));
            proof {
                assert(out.deep_view() =~= plan);
            }
            return out;
        },
    }
    match user {
        None => {},
        Some(Json::Object(patch)) => {
            proof {
                json::lemma_object_view(*patch);
            }
            out.push(PreferenceStep::User(clone_fields(patch)));
        },
        Some(_) => {
            out.push(PreferenceStep::Reject("user".to_owned()));
        },
    }
    proof {
        assert(out.deep_view() =~= plan);
    }
    out
}

} // verus!
