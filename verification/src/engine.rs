//! Rules of the task engine that concern a single task: where its file goes,
//! what torrent metadata makes of it, when seeding ends.

use vstd::prelude::*;

use crate::assoc;
use crate::bt::{TorrentMeta, TorrentMetaView};
use crate::digits;
use crate::double;
use crate::json::{self, Json, JsonView, Number};
use crate::options::{self, double_from};
use crate::size::{self, parse_size};
use crate::task::{clone_opt_text, BittorrentView, Task, TaskFile, TaskFileView, TaskView};
use crate::text::{self, chars_of, same, sub_chars, text_of};

verus! {

/// A change in the state of a task.
#[derive(Debug, PartialEq, Eq)]
pub struct TaskEvent {
    /// The task.
    pub gid: String,
    /// `start`, `pause`, `stop`, `complete`, `error` or `bt-complete`.
    pub event: String,
}

impl DeepView for TaskEvent {
    type V = (Seq<char>, Seq<char>);

    open spec fn deep_view(&self) -> (Seq<char>, Seq<char>) {
        (self.gid@, self.event@)
    }
}

/// Whether seeding has reached a limit: the time in seconds, or the share ratio,
/// which is known only where the length is.
pub open spec fn seeding_over(
    seed_ratio: Option<u64>,
    seed_time: Option<u32>,
    uploaded: u64,
    total: u64,
    elapsed_secs: u64,
) -> bool {
    ||| seed_time is Some && elapsed_secs >= seed_time->0
    ||| seed_ratio is Some && total > 0 && double::at_least(
        double::ratio_encoding(uploaded as nat, total as nat),
        seed_ratio->0,
    )
}

/// Whether seeding has reached a limit. The share ratio is an encoded double.
pub fn seeding_limit_reached(
    seed_ratio: Option<u64>,
    seed_time: Option<u32>,
    uploaded: u64,
    total: u64,
    elapsed_secs: u64,
) -> (r: bool)
    ensures
        r == seeding_over(seed_ratio, seed_time, uploaded, total, elapsed_secs),
{
    if let Some(t) = seed_time {
        if elapsed_secs >= t as u64 {
            return true;
        }
    }
    if let Some(ratio) = seed_ratio {
        if total > 0 && double::ratio_at_least(uploaded, total, ratio) {
            return true;
        }
    }
    false
}

/// The length of a finished task: the known one, or that of its file on disk.
pub open spec fn finished_length(task: TaskView, disk_size: Option<u64>) -> u64 {
    if task.total_length > 0 {
        task.total_length
    } else {
        match disk_size {
            Some(n) => n,
            None => 0,
        }
    }
}

/// The bytes that a finished task has, and those that it has in all.
/// `disk_size` is the length of its first file on disk.
pub fn resolve_finished_bytes(task: &Task, disk_size: Option<u64>) -> (r: (u64, u64))
    ensures
        r == (finished_length(task@, disk_size), finished_length(task@, disk_size)),
{
    if task.total_length > 0 {
        return (task.total_length, task.total_length);
    }
    let size: u64 = match disk_size {
        Some(n) => n,
        None => 0,
    };
    (size, size)
}

/// Whether `c` separates the parts of a path.
pub open spec fn is_separator(c: char) -> bool {
    c == '/' || c == '\\'
}

/// `dir` without separators at its end.
pub open spec fn bare_dir(dir: Seq<char>) -> Seq<char>
    decreases dir.len(),
{
    if dir.len() > 0 && is_separator(dir.last()) {
        bare_dir(dir.drop_last())
    } else {
        dir
    }
}

/// Where a file of a torrent goes.
pub open spec fn save_path(dir: Seq<char>, rel: Seq<char>) -> Seq<char> {
    if bare_dir(dir).len() == 0 {
        rel
    } else {
        bare_dir(dir) + "/"@ + rel
    }
}

/// Where a file of a torrent goes.
pub fn join_save_path(dir: &str, rel: &str) -> (r: String)
    ensures
        r@ == save_path(dir@, rel@),
{
    let chars = chars_of(dir);
    let mut n: usize = chars.len();
    proof {
        assert(chars@.take(n as int) =~= chars@);
    }
    while n > 0 && (chars[n - 1] == '/' || chars[n - 1] == '\\')
        invariant
            n <= chars@.len(),
            bare_dir(chars@) == bare_dir(chars@.take(n as int)),
        decreases n,
    {
        proof {
            assert(chars@.take(n as int).drop_last() =~= chars@.take(n - 1));
        }
        n -= 1;
    }
    if n == 0 {
        return rel.to_owned();
    }
    let bare = text_of(&sub_chars(&chars, 0, n));
    proof {
        assert(bare@ =~= chars@.take(n as int));
    }
    text::join3(bare.as_str(), "/", rel)
}

/// The file name that a URL ends in, `download` where it ends in none.
pub open spec fn uri_name(uri: Seq<char>) -> Seq<char> {
    let at = text::find_text(uri, "://"@);
    let rest = if at < 0 {
        uri
    } else {
        uri.skip(at + 3)
    };
    let name = text::after_last(rest, '/');
    if text::rfind(rest, '/') >= 0 && name.len() > 0 {
        name
    } else {
        "download"@
    }
}

/// The file name that a URL ends in.
pub fn file_name_from_uri(uri: &str) -> (r: String)
    ensures
        r@ == uri_name(uri@),
{
    let chars = chars_of(uri);
    let mark = chars_of("://");
    proof {
        reveal_strlit("://");
        assert("://"@.len() == 3);
    }
    let end: usize = chars.len();
    let rest = match text::place_of_text(&chars, &mark) {
        Some(at) => sub_chars(&chars, at + 3, end),
        None => sub_chars(&chars, 0, end),
    };
    proof {
        let at = text::find_text(uri@, "://"@);
        assert(rest@ =~= if at < 0 {
            uri@
        } else {
            uri@.skip(at + 3)
        });
    }
    let from: usize = text::behind_last(&rest, '/');
    if from > 0 && from < rest.len() {
        let name = text_of(&sub_chars(&rest, from, rest.len()));
        proof {
            assert(name@ =~= text::after_last(rest@, '/'));
        }
        name
    } else {
        "download".to_owned()
    }
}

/// Whether a URL is fetched over HTTP.
pub open spec fn over_http(url: Seq<char>) -> bool {
    text::starts(url, "http://"@) || text::starts(url, "https://"@)
}

/// Whether a URL is fetched over HTTP.
pub fn is_http_url(url: &str) -> (r: bool)
    ensures
        r == over_http(url@),
{
    text::starts_with(url, "http://") || text::starts_with(url, "https://")
}

/// The place of the last separator of a path, or `-1` where there is none.
pub open spec fn last_separator(path: Seq<char>) -> int
    decreases path.len(),
{
    if path.len() == 0 {
        -1
    } else if is_separator(path.last()) {
        path.len() - 1
    } else {
        last_separator(path.drop_last())
    }
}

/// What is behind the last separator of a path, unless nothing is.
pub open spec fn path_name(path: Seq<char>) -> Option<Seq<char>> {
    let name = path.skip(last_separator(path) + 1);
    if name.len() == 0 {
        None
    } else {
        Some(name)
    }
}

/// What is behind the last separator of a path, unless nothing is.
pub fn name_of_path(path: &str) -> (r: Option<String>)
    ensures
        r.deep_view() == path_name(path@),
{
    let chars = chars_of(path);
    let mut i: usize = chars.len();
    proof {
        assert(chars@.take(i as int) =~= chars@);
    }
    while i > 0 && !(chars[i - 1] == '/' || chars[i - 1] == '\\')
        invariant
            i <= chars@.len(),
            last_separator(chars@) == last_separator(chars@.take(i as int)),
        decreases i,
    {
        proof {
            assert(chars@.take(i as int).drop_last() =~= chars@.take(i - 1));
        }
        i -= 1;
    }
    if i == chars.len() {
        return None;
    }
    let name = text_of(&sub_chars(&chars, i, chars.len()));
    proof {
        assert(name@ =~= path@.skip(i as int));
    }
    Some(name)
}

/// The source that a task keeps: the first one of its first file.
pub open spec fn task_source(task: TaskView) -> Option<(Seq<char>, Seq<char>)> {
    if task.files.len() > 0 && task.files[0].uris.len() > 0 {
        Some(task.files[0].uris[0])
    } else {
        None
    }
}

/// The files of a task whose torrent is known. The first one keeps the source.
pub open spec fn torrent_files(
    dir: Seq<char>,
    meta: TorrentMetaView,
    only_files: Option<Seq<usize>>,
    source: Option<(Seq<char>, Seq<char>)>,
) -> Seq<TaskFileView> {
    Seq::new(
        meta.files.len(),
        |i: int|
            TaskFileView {
                index: options::low32(meta.files[i].index as nat),
                path: save_path(dir, meta.files[i].path),
                length: meta.files[i].length,
                completed_length: 0,
                selected: match only_files {
                    Some(places) => places.contains(i as usize),
                    None => true,
                },
                uris: if i == 0 && source is Some {
                    seq![source->0]
                } else {
                    seq![]
                },
            },
    )
}

/// A task whose torrent is known.
pub open spec fn with_meta(
    task: TaskView,
    meta: TorrentMetaView,
    only_files: Option<Seq<usize>>,
) -> TaskView {
    TaskView {
        total_length: meta.total_length,
        bittorrent: match task.bittorrent {
            Some(_) => Some(
                BittorrentView {
                    mode: meta.mode,
                    info_name: meta.name,
                    announce_list: Seq::new(
                        meta.announce_list.len(),
                        |i: int| seq![meta.announce_list[i]],
                    ),
                    info_hash: Some(meta.info_hash),
                },
            ),
            None => None,
        },
        files: torrent_files(task.dir, meta, only_files, task_source(task)),
        ..task
    }
}

fn among(places: &Vec<usize>, i: usize) -> (r: bool)
    ensures
        r == places@.contains(i),
{
    let mut k: usize = 0;
    while k < places.len()
        invariant
            k <= places@.len(),
            forall|j: int| 0 <= j < k ==> places@[j] != i,
        decreases places@.len() - k,
    {
        if places[k] == i {
            proof {
                assert(places@[k as int] == i);
            }
            return true;
        }
        k += 1;
    }
    false
}

/// The source that a task keeps.
pub fn source_of(task: &Task) -> (r: Option<(String, String)>)
    ensures
        r.deep_view() == task_source(task@),
{
    if task.files.len() > 0 && task.files[0].uris.len() > 0 {
        let uri = &task.files[0].uris[0];
        Some((uri.0.clone(), uri.1.clone()))
    } else {
        None
    }
}

fn files_from_meta(
    dir: &str,
    meta: &TorrentMeta,
    only_files: &Option<Vec<usize>>,
    source: Option<(String, String)>,
) -> (r: Vec<TaskFile>)
    ensures
        r.deep_view() == torrent_files(
            dir@,
            meta@,
            options::places_view(*only_files),
            source.deep_view(),
        ),
{
    let ghost places = options::places_view(*only_files);
    let ghost whole = torrent_files(dir@, meta@, places, source.deep_view());
    let mut out: Vec<TaskFile> = Vec::new();
    let mut i: usize = 0;
    while i < meta.files.len()
        invariant
            i <= meta.files@.len(),
            out@.len() == i,
            places == options::places_view(*only_files),
            whole == torrent_files(dir@, meta@, places, source.deep_view()),
            forall|j: int| 0 <= j < i ==> (#[trigger] out@[j])@ == whole[j],
        decreases meta.files@.len() - i,
    {
        let file = &meta.files[i];
        let selected = match only_files {
            Some(places) => among(places, i),
            None => true,
        };
        let mut uris: Vec<(String, String)> = Vec::new();
        if i == 0 {
            if let Some((uri, status)) = &source {
                uris.push((uri.clone(), status.clone()));
            }
        }
        let task_file = TaskFile {
            index: (file.index as u64 % 0x1_0000_0000) as u32,
            path: join_save_path(dir, file.path.as_str()),
            length: file.length,
            completed_length: 0,
            selected,
            uris,
        };
        proof {
            assert(meta@.files[i as int] == meta.files@[i as int].deep_view());
            assert(task_file.uris.deep_view() =~= whole[i as int].uris);
            assert(task_file@ == whole[i as int]);
        }
        out.push(task_file);
        i += 1;
    }
    proof {
        assert(out.deep_view() =~= whole);
    }
    out
}

/// Fills in a task whose torrent is known.
pub fn apply_torrent_meta(task: &mut Task, meta: &TorrentMeta, only_files: &Option<Vec<usize>>)
    ensures
        final(task)@ == with_meta(
            old(task)@,
            meta@,
            options::places_view(*only_files),
        ),
{
    let source = source_of(task);
    let files = files_from_meta(task.dir.as_str(), meta, only_files, source);
    task.total_length = meta.total_length;
    let mut announce_list: Vec<Vec<String>> = Vec::new();
    let mut i: usize = 0;
    while i < meta.announce_list.len()
        invariant
            i <= meta.announce_list@.len(),
            announce_list@.len() == i,
            forall|j: int|
                0 <= j < i ==> (#[trigger] announce_list@[j]).deep_view() == seq![
                    meta.announce_list@[j]@,
                ],
        decreases meta.announce_list@.len() - i,
    {
        let mut group: Vec<String> = Vec::new();
        group.push(meta.announce_list[i].clone());
        proof {
            assert(group.deep_view() =~= seq![meta.announce_list@[i as int]@]);
        }
        announce_list.push(group);
        i += 1;
    }
    proof {
        assert(announce_list.deep_view() =~= Seq::new(
            meta@.announce_list.len(),
            |i: int| seq![meta@.announce_list[i]],
        ));
    }
    if task.bittorrent.is_some() {
        task.bittorrent = Some(
            crate::task::BittorrentInfo {
                mode: meta.mode.clone(),
                info_name: clone_opt_text(&meta.name),
                announce_list,
                info_hash: Some(meta.info_hash.clone()),
            },
        );
    }
    task.files = files;
}

/// The settings whose values are numbers.
pub open spec fn numeric_key(key: Seq<char>) -> bool {
    ||| key == "max-concurrent-downloads"@
    ||| key == "max-connection-per-server"@
    ||| key == "split"@
    ||| key == "max-download-limit"@
    ||| key == "max-overall-download-limit"@
    ||| key == "max-overall-upload-limit"@
    ||| key == "rpc-listen-port"@
    ||| key == "dht-listen-port"@
    ||| key == "listen-port"@
    ||| key == "seed-time"@
    ||| key == "seed-ratio"@
    ||| key == "max-tries"@
    ||| key == "retry-wait"@
}

fn is_numeric_key(key: &str) -> (r: bool)
    ensures
        r == numeric_key(key@),
{
    same(key, "max-concurrent-downloads") || same(key, "max-connection-per-server") || same(
        key,
        "split",
    ) || same(key, "max-download-limit") || same(key, "max-overall-download-limit") || same(
        key,
        "max-overall-upload-limit",
    ) || same(key, "rpc-listen-port") || same(key, "dht-listen-port") || same(key, "listen-port")
        || same(key, "seed-time") || same(key, "seed-ratio") || same(key, "max-tries") || same(
        key,
        "retry-wait",
    )
}

/// An encoded double as JSON: what is no finite number has no JSON form.
pub open spec fn double_json(bits: u64) -> JsonView {
    if bits % 0x8000_0000_0000_0000 < 0x7FF0_0000_0000_0000 {
        JsonView::Number(Number::Float(bits))
    } else {
        JsonView::Null
    }
}

/// The number that a numeric setting is stored as. A text is read as an integer,
/// then as a double (`reading` gives the double that it reads as, if any), then
/// as a size; anything else stays.
pub open spec fn normal_value(value: JsonView, reading: Option<u64>) -> JsonView {
    match value {
        JsonView::Number(Number::Unsigned(n)) => value,
        JsonView::Number(n) => double_json(options::number_double(n)),
        JsonView::Text(s) => match digits::unsigned(s, u64::MAX as nat) {
            Some(n) => JsonView::Number(Number::Unsigned(n as u64)),
            None => match reading {
                Some(bits) => double_json(bits),
                None => match size::size(s) {
                    Some(n) => JsonView::Number(Number::Unsigned(n as u64)),
                    None => value,
                },
            },
        },
        _ => value,
    }
}

/// The settings as they are stored: numbers under the numeric keys. `readings`
/// gives, for each key whose text reads as a double, that double.
pub open spec fn normal_fields(
    fields: Seq<(Seq<char>, JsonView)>,
    readings: Seq<(Seq<char>, u64)>,
) -> Seq<(Seq<char>, JsonView)> {
    Seq::new(
        fields.len(),
        |i: int|
            if numeric_key(fields[i].0) {
                (fields[i].0, normal_value(fields[i].1, assoc::lookup(readings, fields[i].0)))
            } else {
                fields[i]
            },
    )
}

fn double_to_json(bits: u64) -> (r: Json)
    ensures
        r@ == double_json(bits),
{
    if bits % 0x8000_0000_0000_0000 < 0x7FF0_0000_0000_0000 {
        Json::Number(Number::Float(bits))
    } else {
        Json::Null
    }
}

fn normalize_value(value: &Json, reading: Option<u64>) -> (r: Json)
    ensures
        r@ == normal_value(value@, reading),
{
    match value {
        Json::Number(Number::Unsigned(n)) => Json::Number(Number::Unsigned(*n)),
        Json::Number(n) => double_to_json(double_from(*n)),
        Json::Text(s) => match digits::parse_unsigned(s.as_str(), u64::MAX) {
            Some(n) => Json::Number(Number::Unsigned(n)),
            None => match reading {
                Some(bits) => double_to_json(bits),
                None => match parse_size(s.as_str()) {
                    Some(n) => Json::Number(Number::Unsigned(n)),
                    None => value.clone(),
                },
            },
        },
        _ => value.clone(),
    }
}

/// The settings as they are stored: numbers under the numeric keys. Anything but
/// an object stays as it is.
pub fn normalize_system_patch(options: &Json, readings: &Vec<(String, u64)>) -> (r: Json)
    ensures
        r@ == (match options@ {
            JsonView::Object(fields) => JsonView::Object(
                normal_fields(fields, readings.deep_view()),
            ),
            other => other,
        }),
{
    match options {
        Json::Object(fields) => {
            let ghost whole = normal_fields(fields.deep_view(), readings.deep_view());
            let mut out: Vec<(String, Json)> = Vec::new();
            let mut i: usize = 0;
            proof {
                json::lemma_object_view(*fields);
            }
            while i < fields.len()
                invariant
                    i <= fields@.len(),
                    out@.len() == i,
                    whole == normal_fields(fields.deep_view(), readings.deep_view()),
                    forall|j: int|
                        0 <= j < i ==> ((#[trigger] out@[j]).0@, out@[j].1@) == whole[j],
                decreases fields@.len() - i,
            {
                let key = fields[i].0.as_str();
                let value = if is_numeric_key(key) {
                    let reading: Option<u64> = match assoc::lookup_in(readings, key) {
                        Some(bits) => Some(*bits),
                        None => None,
                    };
                    normalize_value(&fields[i].1, reading)
                } else {
                    fields[i].1.clone()
                };
                proof {
                    assert(fields.deep_view()[i as int] == (
                        fields@[i as int].0@,
                        fields@[i as int].1@,
                    ));
                }
                out.push((fields[i].0.clone(), value));
                i += 1;
            }
            proof {
                json::lemma_object_view(out);
                assert(out.deep_view() =~= whole);
            }
            Json::Object(out)
        },
        _ => options.clone(),
    }
}

/// One source that a task is to be made of.
#[derive(Debug, PartialEq, Eq)]
pub enum UriPlan {
    /// A magnet link.
    Magnet(String),
    /// Anything else; `probe` says whether its length can be asked for.
    Plain { uri: String, probe: bool },
}

/// What a `UriPlan` stands for.
pub enum UriPlanView {
    Magnet(Seq<char>),
    Plain { uri: Seq<char>, probe: bool },
}

impl DeepView for UriPlan {
    type V = UriPlanView;

    open spec fn deep_view(&self) -> UriPlanView {
        match self {
            UriPlan::Magnet(uri) => UriPlanView::Magnet(uri@),
            UriPlan::Plain { uri, probe } => UriPlanView::Plain { uri: uri@, probe: *probe },
        }
    }
}

/// What becomes of one source.
pub open spec fn uri_plan(uri: Seq<char>) -> UriPlanView {
    if text::starts(uri, "magnet:"@) {
        UriPlanView::Magnet(uri)
    } else {
        UriPlanView::Plain { uri, probe: over_http(uri) }
    }
}

/// What becomes of the sources, those that are blank left out.
pub open spec fn uri_plans(uris: Seq<Seq<char>>) -> Seq<UriPlanView>
    decreases uris.len(),
{
    if uris.len() == 0 {
        seq![]
    } else {
        let before = uri_plans(uris.drop_last());
        let uri = text::trimmed(uris.last());
        if uri.len() == 0 {
            before
        } else {
            before.push(uri_plan(uri))
        }
    }
}

/// What becomes of the sources that `addUri` is given: an error where there are
/// none, or only blank ones.
pub fn plan_uris(uris: &Vec<String>) -> (r: Result<Vec<UriPlan>, String>)
    ensures
        match r {
            Ok(plans) => plans.deep_view() == uri_plans(uris.deep_view()) && plans@.len() > 0,
            Err(e) => uri_plans(uris.deep_view()).len() == 0 && e@ == (if uris@.len() == 0 {
                "add_uri 需要一个非空的 URL 数组"@
            } else {
                "add_uri 的 URL 列表均为空"@
            }),
        },
{
    let ghost view = uris.deep_view();
    if uris.len() == 0 {
        return Err("add_uri 需要一个非空的 URL 数组".to_owned());
    }
    let mut out: Vec<UriPlan> = Vec::new();
    let mut i: usize = 0;
    proof {
        assert(view.take(0) =~= seq![]);
        assert(out.deep_view() =~= seq![]);
    }
    while i < uris.len()
        invariant
            i <= uris@.len(),
            view == uris.deep_view(),
            out.deep_view() == uri_plans(view.take(i as int)),
        decreases uris@.len() - i,
    {
        let ghost before = out.deep_view();
        proof {
            let upto = view.take(i + 1);
            assert(upto.drop_last() =~= view.take(i as int));
            assert(upto.last() == uris@[i as int]@);
        }
        let uri = text::trim(uris[i].as_str());
        if !uri.as_str().is_empty() {
            let plan = if text::starts_with(uri.as_str(), "magnet:") {
                UriPlan::Magnet(uri)
            } else {
                let probe = is_http_url(uri.as_str());
                UriPlan::Plain { uri, probe }
            };
            let ghost shown = plan.deep_view();
            out.push(plan);
            proof {
                assert(out.deep_view() =~= before.push(shown));
            }
        }
        i += 1;
    }
    proof {
        assert(view.take(i as int) =~= view);
    }
    if out.len() == 0 {
        return Err("add_uri 的 URL 列表均为空".to_owned());
    }
    Ok(out)
}

} // verus!
