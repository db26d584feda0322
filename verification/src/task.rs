//! Task model: states and their transitions, the data of a download task, and
//! the repository that holds the tasks.

use vstd::prelude::*;

use crate::assoc;
use crate::digits;
use crate::json::{self, Json, JsonView};
use crate::text::{self, same};

verus! {

/// State of a task.
#[derive(Debug, Clone, Copy, PartialEq, Eq, Structural)]
pub enum TaskStatus {
    /// Transferring.
    Active,
    /// Queued.
    Waiting,
    /// Paused.
    Paused,
    /// Failed.
    Error,
    /// Finished.
    Complete,
    /// Removed (kept in the history of stopped tasks).
    Removed,
    /// Finished and still uploading (BitTorrent).
    Seeding,
}

impl TaskStatus {
    /// The name of the state in RPC answers.
    pub open spec fn name(self) -> Seq<char> {
        match self {
            TaskStatus::Active => "active"@,
            TaskStatus::Waiting => "waiting"@,
            TaskStatus::Paused => "paused"@,
            TaskStatus::Error => "error"@,
            TaskStatus::Complete => "complete"@,
            TaskStatus::Removed => "removed"@,
            TaskStatus::Seeding => "seeding"@,
        }
    }

    /// The name of the state in RPC answers.
    pub fn as_str(&self) -> (r: &'static str)
        ensures
            r@ == self.name(),
    {
        match self {
            TaskStatus::Active => "active",
            TaskStatus::Waiting => "waiting",
            TaskStatus::Paused => "paused",
            TaskStatus::Error => "error",
            TaskStatus::Complete => "complete",
            TaskStatus::Removed => "removed",
            TaskStatus::Seeding => "seeding",
        }
    }

    /// The state with the given name, `None` for a name that no state has.
    pub fn from_str(s: &str) -> (r: Option<TaskStatus>)
        ensures
            match r {
                Some(status) => s@ == status.name(),
                None => forall|any: TaskStatus| s@ != #[trigger] any.name(),
            },
    {
        if same(s, "active") {
            Some(TaskStatus::Active)
        } else if same(s, "waiting") {
            Some(TaskStatus::Waiting)
        } else if same(s, "paused") {
            Some(TaskStatus::Paused)
        } else if same(s, "error") {
            Some(TaskStatus::Error)
        } else if same(s, "complete") {
            Some(TaskStatus::Complete)
        } else if same(s, "removed") {
            Some(TaskStatus::Removed)
        } else if same(s, "seeding") {
            Some(TaskStatus::Seeding)
        } else {
            None
        }
    }
}

/// No two states share a name, so that a name read back gives the state that
/// wrote it.
pub proof fn law_status_names_distinct(a: TaskStatus, b: TaskStatus)
    requires
        a.name() == b.name(),
    ensures
        a == b,
{
    reveal_strlit("active");
    reveal_strlit("waiting");
    reveal_strlit("paused");
    reveal_strlit("error");
    reveal_strlit("complete");
    reveal_strlit("removed");
    reveal_strlit("seeding");
    assert("active"@.len() == 6 && "active"@[0] == 'a');
    assert("waiting"@.len() == 7 && "waiting"@[0] == 'w');
    assert("paused"@.len() == 6 && "paused"@[0] == 'p');
    assert("error"@.len() == 5);
    assert("complete"@.len() == 8);
    assert("removed"@.len() == 7 && "removed"@[0] == 'r');
    assert("seeding"@.len() == 7 && "seeding"@[0] == 's');
}

/// Why a task operation was refused.
#[derive(Debug, PartialEq, Eq)]
pub enum TaskError {
    /// The state machine does not allow the transition.
    InvalidTransition { from: TaskStatus, to: TaskStatus },
    /// No task has this gid.
    NotFound { gid: String },
}

/// A file of a task.
#[derive(Debug, PartialEq, Eq)]
pub struct TaskFile {
    /// Number of the file, from 1.
    pub index: u32,
    /// Absolute path.
    pub path: String,
    /// Length in bytes.
    pub length: u64,
    /// Bytes already there.
    pub completed_length: u64,
    /// Whether the file is to be downloaded.
    pub selected: bool,
    /// Sources, each with its state.
    pub uris: Vec<(String, String)>,
}

/// What a `TaskFile` stands for.
pub struct TaskFileView {
    pub index: u32,
    pub path: Seq<char>,
    pub length: u64,
    pub completed_length: u64,
    pub selected: bool,
    pub uris: Seq<(Seq<char>, Seq<char>)>,
}

impl DeepView for TaskFile {
    type V = TaskFileView;

    open spec fn deep_view(&self) -> TaskFileView {
        TaskFileView {
            index: self.index,
            path: self.path@,
            length: self.length,
            completed_length: self.completed_length,
            selected: self.selected,
            uris: self.uris.deep_view(),
        }
    }
}

impl View for TaskFile {
    type V = TaskFileView;

    open spec fn view(&self) -> TaskFileView {
        self.deep_view()
    }
}

/// A copy of a list of text pairs.
pub fn clone_pairs(pairs: &Vec<(String, String)>) -> (r: Vec<(String, String)>)
    ensures
        r.deep_view() == pairs.deep_view(),
{
    let mut out: Vec<(String, String)> = Vec::new();
    let mut i: usize = 0;
    while i < pairs.len()
        invariant
            i <= pairs@.len(),
            out@.len() == i,
            forall|j: int|
                0 <= j < i ==> (#[trigger] out@[j]).0@ == pairs@[j].0@ && out@[j].1@
                    == pairs@[j].1@,
        decreases pairs@.len() - i,
    {
        out.push((pairs[i].0.clone(), pairs[i].1.clone()));
        i += 1;
    }
    proof {
        assert(out.deep_view() =~= pairs.deep_view());
    }
    out
}

/// A copy of a list of strings.
pub fn clone_texts(items: &Vec<String>) -> (r: Vec<String>)
    ensures
        r.deep_view() == items.deep_view(),
{
    let mut out: Vec<String> = Vec::new();
    let mut i: usize = 0;
    while i < items.len()
        invariant
            i <= items@.len(),
            out@.len() == i,
            forall|j: int| 0 <= j < i ==> (#[trigger] out@[j])@ == items@[j]@,
        decreases items@.len() - i,
    {
        out.push(items[i].clone());
        i += 1;
    }
    proof {
        assert(out.deep_view() =~= items.deep_view());
    }
    out
}

/// A copy of an optional string.
pub fn clone_opt_text(item: &Option<String>) -> (r: Option<String>)
    ensures
        r.deep_view() == item.deep_view(),
{
    match item {
        Some(s) => Some(s.clone()),
        None => None,
    }
}

impl Clone for TaskFile {
    fn clone(&self) -> (r: Self)
        ensures
            r@ == self@,
    {
        TaskFile {
            index: self.index,
            path: self.path.clone(),
            length: self.length,
            completed_length: self.completed_length,
            selected: self.selected,
            uris: clone_pairs(&self.uris),
        }
    }
}

/// BitTorrent metadata of a task.
#[derive(Debug, PartialEq, Eq)]
pub struct BittorrentInfo {
    /// `single` or `multi`.
    pub mode: String,
    /// Name of the torrent; `None` until the metadata of a magnet link is known.
    pub info_name: Option<String>,
    /// Announce servers.
    pub announce_list: Vec<Vec<String>>,
    /// Info hash.
    pub info_hash: Option<String>,
}

/// What a `BittorrentInfo` stands for.
pub struct BittorrentView {
    pub mode: Seq<char>,
    pub info_name: Option<Seq<char>>,
    pub announce_list: Seq<Seq<Seq<char>>>,
    pub info_hash: Option<Seq<char>>,
}

impl DeepView for BittorrentInfo {
    type V = BittorrentView;

    open spec fn deep_view(&self) -> BittorrentView {
        BittorrentView {
            mode: self.mode@,
            info_name: self.info_name.deep_view(),
            announce_list: self.announce_list.deep_view(),
            info_hash: self.info_hash.deep_view(),
        }
    }
}

impl View for BittorrentInfo {
    type V = BittorrentView;

    open spec fn view(&self) -> BittorrentView {
        self.deep_view()
    }
}

impl Clone for BittorrentInfo {
    fn clone(&self) -> (r: Self)
        ensures
            r@ == self@,
    {
        let mut announce_list: Vec<Vec<String>> = Vec::new();
        let mut i: usize = 0;
        while i < self.announce_list.len()
            invariant
                i <= self.announce_list@.len(),
                announce_list@.len() == i,
                forall|j: int|
                    0 <= j < i ==> (#[trigger] announce_list@[j]).deep_view()
                        == self.announce_list@[j].deep_view(),
            decreases self.announce_list@.len() - i,
        {
            announce_list.push(clone_texts(&self.announce_list[i]));
            i += 1;
        }
        proof {
            assert(announce_list.deep_view() =~= self.announce_list.deep_view());
        }
        BittorrentInfo {
            mode: self.mode.clone(),
            info_name: clone_opt_text(&self.info_name),
            announce_list,
            info_hash: clone_opt_text(&self.info_hash),
        }
    }
}

/// A download task.
#[derive(Debug)]
pub struct Task {
    /// Identifier.
    pub gid: String,
    /// State.
    pub status: TaskStatus,
    /// Length in bytes.
    pub total_length: u64,
    /// Bytes already there.
    pub completed_length: u64,
    /// Bytes uploaded.
    pub upload_length: u64,
    /// Download speed, in bytes per second.
    pub download_speed: u64,
    /// Upload speed, in bytes per second.
    pub upload_speed: u64,
    /// Directory that the files go to.
    pub dir: String,
    /// Files.
    pub files: Vec<TaskFile>,
    /// BitTorrent metadata; `None` for other tasks.
    pub bittorrent: Option<BittorrentInfo>,
    /// Error code.
    pub error_code: Option<i32>,
    /// Error message.
    pub error_message: Option<String>,
    /// Connections in use.
    pub connections: u32,
    /// Pieces that are there, in hexadecimal.
    pub bitfield: String,
    /// Number of seeders.
    pub num_seeders: u32,
    /// Whether this side seeds.
    pub seeder: bool,
    /// Time of creation, in seconds since the Unix epoch.
    pub created_at: u64,
}

/// What a `Task` stands for.
pub struct TaskView {
    pub gid: Seq<char>,
    pub status: TaskStatus,
    pub total_length: u64,
    pub completed_length: u64,
    pub upload_length: u64,
    pub download_speed: u64,
    pub upload_speed: u64,
    pub dir: Seq<char>,
    pub files: Seq<TaskFileView>,
    pub bittorrent: Option<BittorrentView>,
    pub error_code: Option<i32>,
    pub error_message: Option<Seq<char>>,
    pub connections: u32,
    pub bitfield: Seq<char>,
    pub num_seeders: u32,
    pub seeder: bool,
    pub created_at: u64,
}

impl DeepView for Task {
    type V = TaskView;

    open spec fn deep_view(&self) -> TaskView {
        TaskView {
            gid: self.gid@,
            status: self.status,
            total_length: self.total_length,
            completed_length: self.completed_length,
            upload_length: self.upload_length,
            download_speed: self.download_speed,
            upload_speed: self.upload_speed,
            dir: self.dir@,
            files: self.files.deep_view(),
            bittorrent: self.bittorrent.deep_view(),
            error_code: self.error_code,
            error_message: self.error_message.deep_view(),
            connections: self.connections,
            bitfield: self.bitfield@,
            num_seeders: self.num_seeders,
            seeder: self.seeder,
            created_at: self.created_at,
        }
    }
}

impl View for Task {
    type V = TaskView;

    open spec fn view(&self) -> TaskView {
        self.deep_view()
    }
}

impl Clone for Task {
    fn clone(&self) -> (r: Self)
        ensures
            r@ == self@,
    {
        let mut files: Vec<TaskFile> = Vec::new();
        let mut i: usize = 0;
        while i < self.files.len()
            invariant
                i <= self.files@.len(),
                files@.len() == i,
                forall|j: int| 0 <= j < i ==> (#[trigger] files@[j])@ == self.files@[j]@,
            decreases self.files@.len() - i,
        {
            files.push(self.files[i].clone());
            i += 1;
        }
        proof {
            assert(files.deep_view() =~= self.files.deep_view());
        }
        let bittorrent = match &self.bittorrent {
            Some(b) => Some(b.clone()),
            None => None,
        };
        Task {
            gid: self.gid.clone(),
            status: self.status,
            total_length: self.total_length,
            completed_length: self.completed_length,
            upload_length: self.upload_length,
            download_speed: self.download_speed,
            upload_speed: self.upload_speed,
            dir: self.dir.clone(),
            files,
            bittorrent,
            error_code: self.error_code,
            error_message: clone_opt_text(&self.error_message),
            connections: self.connections,
            bitfield: self.bitfield.clone(),
            num_seeders: self.num_seeders,
            seeder: self.seeder,
            created_at: self.created_at,
        }
    }
}

/// Where the file `out` in the directory `dir` lies: a directory that already
/// ends in a separator gets no second one.
pub open spec fn joined_path(dir: Seq<char>, out: Seq<char>) -> Seq<char> {
    if dir.len() > 0 && (dir.last() == '/' || dir.last() == '\\') {
        dir + out
    } else {
        dir + "/"@ + out
    }
}

/// Where the file `out` in the directory `dir` lies.
pub fn join_dir(dir: &str, out: &str) -> (r: String)
    ensures
        r@ == joined_path(dir@, out@),
{
    let chars = text::chars_of(dir);
    if chars.len() > 0 && (chars[chars.len() - 1] == '/' || chars[chars.len() - 1] == '\\') {
        text::join2(dir, out)
    } else {
        text::join3(dir, "/", out)
    }
}

/// Sources as a new task lists them: each in use.
pub open spec fn used_uris(uris: Seq<Seq<char>>) -> Seq<(Seq<char>, Seq<char>)> {
    Seq::new(uris.len(), |i: int| (uris[i], "used"@))
}

/// A new task with one file at `path` and the given sources.
pub open spec fn fresh_task(
    gid: Seq<char>,
    uris: Seq<(Seq<char>, Seq<char>)>,
    dir: Seq<char>,
    path: Seq<char>,
    bittorrent: Option<BittorrentView>,
    created_at: u64,
) -> TaskView {
    TaskView {
        gid,
        status: TaskStatus::Waiting,
        total_length: 0,
        completed_length: 0,
        upload_length: 0,
        download_speed: 0,
        upload_speed: 0,
        dir,
        files: seq![
            TaskFileView {
                index: 1,
                path,
                length: 0,
                completed_length: 0,
                selected: true,
                uris,
            },
        ],
        bittorrent,
        error_code: None,
        error_message: None,
        connections: 0,
        bitfield: seq![],
        num_seeders: 0,
        seeder: false,
        created_at,
    }
}

/// A new HTTP task.
pub open spec fn http_task(
    gid: Seq<char>,
    uris: Seq<Seq<char>>,
    dir: Seq<char>,
    out: Seq<char>,
    created_at: u64,
) -> TaskView {
    fresh_task(gid, used_uris(uris), dir, joined_path(dir, out), None, created_at)
}

/// A new BitTorrent task whose metadata is not known yet.
pub open spec fn bt_task(
    gid: Seq<char>,
    source: Seq<char>,
    dir: Seq<char>,
    info_hash: Option<Seq<char>>,
    created_at: u64,
) -> TaskView {
    fresh_task(
        gid,
        used_uris(seq![source]),
        dir,
        dir + "/"@,
        Some(
            BittorrentView {
                mode: "single"@,
                info_name: None,
                announce_list: seq![],
                info_hash,
            },
        ),
        created_at,
    )
}

/// Transitions that the state machine allows.
pub open spec fn allowed(from: TaskStatus, to: TaskStatus) -> bool {
    match from {
        TaskStatus::Active => to != TaskStatus::Active,
        TaskStatus::Waiting => to != TaskStatus::Waiting && to != TaskStatus::Seeding,
        TaskStatus::Paused => to == TaskStatus::Active || to == TaskStatus::Waiting || to
            == TaskStatus::Error || to == TaskStatus::Removed,
        TaskStatus::Error => to == TaskStatus::Removed,
        TaskStatus::Complete => to == TaskStatus::Removed || to == TaskStatus::Seeding,
        TaskStatus::Seeding => to == TaskStatus::Removed || to == TaskStatus::Complete,
        TaskStatus::Removed => false,
    }
}

/// Whole seconds since the Unix epoch: `SystemTime::elapsed` on `UNIX_EPOCH`,
/// `0` where the clock stands before it. Nothing is claimed of the result.
#[verifier::external_body]
fn unix_seconds() -> u64 {
    match std::time::UNIX_EPOCH.elapsed() {
        Ok(d) => d.as_secs(),
        Err(_) => 0,
    }
}

impl Task {
    /// A new task that holds one file.
    fn fresh(
        gid: &str,
        uris: Vec<(String, String)>,
        dir: &str,
        path: String,
        bittorrent: Option<BittorrentInfo>,
        created_at: u64,
    ) -> (r: Task)
        ensures
            r@ == fresh_task(
                gid@,
                uris.deep_view(),
                dir@,
                path@,
                bittorrent.deep_view(),
                created_at,
            ),
    {
        let mut files: Vec<TaskFile> = Vec::new();
        let file = TaskFile {
            index: 1,
            path,
            length: 0,
            completed_length: 0,
            selected: true,
            uris,
        };
        let ghost view = file@;
        files.push(file);
        proof {
            assert(files.deep_view() =~= seq![view]);
        }
        let r = Task {
            gid: gid.to_owned(),
            status: TaskStatus::Waiting,
            total_length: 0,
            completed_length: 0,
            upload_length: 0,
            download_speed: 0,
            upload_speed: 0,
            dir: dir.to_owned(),
            files,
            bittorrent,
            error_code: None,
            error_message: None,
            connections: 0,
            bitfield: String::new(),
            num_seeders: 0,
            seeder: false,
            created_at,
        };
        proof {
            assert(r.bitfield@ =~= seq![]);
        }
        r
    }

    /// A new HTTP task created at the given time.
    pub fn new_http_task_at(
        gid: &str,
        uris: &Vec<String>,
        dir: &str,
        out: &str,
        created_at: u64,
    ) -> (r: Task)
        ensures
            r@ == http_task(gid@, uris.deep_view(), dir@, out@, created_at),
    {
        let mut list: Vec<(String, String)> = Vec::new();
        let mut i: usize = 0;
        while i < uris.len()
            invariant
                i <= uris@.len(),
                list@.len() == i,
                forall|j: int|
                    0 <= j < i ==> (#[trigger] list@[j]).0@ == uris@[j]@ && list@[j].1@
                        == "used"@,
            decreases uris@.len() - i,
        {
            list.push((uris[i].clone(), "used".to_owned()));
            i += 1;
        }
        proof {
            assert(list.deep_view() =~= used_uris(uris.deep_view()));
        }
        Task::fresh(gid, list, dir, join_dir(dir, out), None, created_at)
    }

    /// A new HTTP task: one file, nothing transferred yet.
    pub fn new_http_task(gid: &str, uris: &Vec<String>, dir: &str, out: &str) -> (r: Task)
        ensures
            r@ == http_task(gid@, uris.deep_view(), dir@, out@, r.created_at),
    {
        Task::new_http_task_at(gid, uris, dir, out, unix_seconds())
    }

    /// A new BitTorrent task created at the given time.
    pub fn new_bt_task_at(
        gid: &str,
        source: &str,
        dir: &str,
        info_hash: Option<String>,
        created_at: u64,
    ) -> (r: Task)
        ensures
            r@ == bt_task(gid@, source@, dir@, info_hash.deep_view(), created_at),
    {
        let mut list: Vec<(String, String)> = Vec::new();
        list.push((source.to_owned(), "used".to_owned()));
        let announce_list: Vec<Vec<String>> = Vec::new();
        proof {
            assert(list.deep_view() =~= used_uris(seq![source@]));
            assert(announce_list.deep_view() =~= seq![]);
        }
        let info = BittorrentInfo {
            mode: "single".to_owned(),
            info_name: None,
            announce_list,
            info_hash,
        };
        Task::fresh(gid, list, dir, text::join2(dir, "/"), Some(info), created_at)
    }

    /// A new BitTorrent task; its files are filled in once the metadata is
    /// known.
    pub fn new_bt_task(gid: &str, source: &str, dir: &str, info_hash: Option<String>) -> (r: Task)
        ensures
            r@ == bt_task(gid@, source@, dir@, info_hash.deep_view(), r.created_at),
    {
        Task::new_bt_task_at(gid, source, dir, info_hash, unix_seconds())
    }

    /// Whether the state machine allows the transition.
    pub fn can_transition(from: TaskStatus, to: TaskStatus) -> (r: bool)
        ensures
            r == allowed(from, to),
    {
        match from {
            TaskStatus::Active => to != TaskStatus::Active,
            TaskStatus::Waiting => to != TaskStatus::Waiting && to != TaskStatus::Seeding,
            TaskStatus::Paused => to == TaskStatus::Active || to == TaskStatus::Waiting || to
                == TaskStatus::Error || to == TaskStatus::Removed,
            TaskStatus::Error => to == TaskStatus::Removed,
            TaskStatus::Complete => to == TaskStatus::Removed || to == TaskStatus::Seeding,
            TaskStatus::Seeding => to == TaskStatus::Removed || to == TaskStatus::Complete,
            TaskStatus::Removed => false,
        }
    }

    /// Moves to the state `new`, where the state machine allows it.
    pub fn transition(&mut self, new: TaskStatus) -> (r: Result<(), TaskError>)
        ensures
            allowed(old(self).status, new) ==> r is Ok && final(self)@ == (TaskView {
                status: new,
                ..old(self)@
            }),
            !allowed(old(self).status, new) ==> *final(self) == *old(self) && r == Err::<
                (),
                TaskError,
            >(TaskError::InvalidTransition { from: old(self).status, to: new }),
    {
        if !Task::can_transition(self.status, new) {
            return Err(TaskError::InvalidTransition { from: self.status, to: new });
        }
        self.status = new;
        Ok(())
    }
}

/// A text as JSON, `null` where there is none.
pub open spec fn opt_text(s: Option<Seq<char>>) -> JsonView {
    match s {
        Some(s) => JsonView::Text(s),
        None => JsonView::Null,
    }
}

/// `true` or `false` in letters.
pub open spec fn bool_name(b: bool) -> Seq<char> {
    if b {
        "true"@
    } else {
        "false"@
    }
}

/// A text list as JSON.
pub open spec fn text_list(items: Seq<Seq<char>>) -> JsonView {
    JsonView::Array(Seq::new(items.len(), |i: int| JsonView::Text(items[i])))
}

/// A number as JSON text.
pub open spec fn number_text(n: int) -> JsonView {
    JsonView::Text(digits::dec_int(n))
}

impl TaskFileView {
    /// The file as `tellStatus` reports it: every number as text.
    pub open spec fn aria2(self) -> JsonView {
        JsonView::Object(
            seq![
                ("index"@, number_text(self.index as int)),
                ("length"@, number_text(self.length as int)),
                ("completedLength"@, number_text(self.completed_length as int)),
                ("selected"@, JsonView::Text(bool_name(self.selected))),
                ("path"@, JsonView::Text(self.path)),
                (
                    "uris"@,
                    JsonView::Array(
                        Seq::new(
                            self.uris.len(),
                            |i: int|
                                JsonView::Object(
                                    seq![
                                        ("uri"@, JsonView::Text(self.uris[i].0)),
                                        ("status"@, JsonView::Text(self.uris[i].1)),
                                    ],
                                ),
                        ),
                    ),
                ),
            ],
        )
    }
}

impl BittorrentView {
    /// The metadata as `tellStatus` reports it: no `info` until the name is
    /// known.
    pub open spec fn aria2(self) -> JsonView {
        let head = seq![
            (
                "announceList"@,
                JsonView::Array(
                    Seq::new(self.announce_list.len(), |i: int| text_list(self.announce_list[i])),
                ),
            ),
            ("mode"@, JsonView::Text(self.mode)),
        ];
        match self.info_name {
            Some(name) => JsonView::Object(
                head.push(("info"@, JsonView::Object(seq![("name"@, JsonView::Text(name))]))),
            ),
            None => JsonView::Object(head),
        }
    }
}

impl TaskView {
    /// The task as `tellStatus` reports it: every number as text.
    pub open spec fn aria2(self) -> JsonView {
        JsonView::Object(
            seq![
                ("gid"@, JsonView::Text(self.gid)),
                ("status"@, JsonView::Text(self.status.name())),
                ("totalLength"@, number_text(self.total_length as int)),
                ("completedLength"@, number_text(self.completed_length as int)),
                ("uploadLength"@, number_text(self.upload_length as int)),
                ("downloadSpeed"@, number_text(self.download_speed as int)),
                ("uploadSpeed"@, number_text(self.upload_speed as int)),
                ("connections"@, number_text(self.connections as int)),
                ("dir"@, JsonView::Text(self.dir)),
                (
                    "files"@,
                    JsonView::Array(Seq::new(self.files.len(), |i: int| self.files[i].aria2())),
                ),
                (
                    "errorCode"@,
                    match self.error_code {
                        Some(code) => number_text(code as int),
                        None => JsonView::Null,
                    },
                ),
                ("errorMessage"@, opt_text(self.error_message)),
                ("numSeeders"@, number_text(self.num_seeders as int)),
                ("seeder"@, JsonView::Text(bool_name(self.seeder))),
                ("bitfield"@, JsonView::Text(self.bitfield)),
                (
                    "infoHash"@,
                    match self.bittorrent {
                        Some(b) => opt_text(b.info_hash),
                        None => JsonView::Null,
                    },
                ),
                (
                    "bittorrent"@,
                    match self.bittorrent {
                        Some(b) => b.aria2(),
                        None => JsonView::Null,
                    },
                ),
            ],
        )
    }
}

/// A number as JSON text.
pub fn number_json(n: u64) -> (r: Json)
    ensures
        r@ == number_text(n as int),
{
    Json::Text(digits::u64_text(n))
}

/// A text as JSON, `null` where there is none.
pub fn opt_text_json(s: &Option<String>) -> (r: Json)
    ensures
        r@ == opt_text(s.deep_view()),
{
    match s {
        Some(s) => Json::Text(s.clone()),
        None => Json::Null,
    }
}

/// `true` or `false` in letters, as JSON.
pub fn bool_json(b: bool) -> (r: Json)
    ensures
        r@ == JsonView::Text(bool_name(b)),
{
    json::text(
        if b {
            "true"
        } else {
            "false"
        },
    )
}

/// A text list as JSON.
pub fn text_list_json(items: &Vec<String>) -> (r: Json)
    ensures
        r@ == text_list(items.deep_view()),
{
    let mut out: Vec<Json> = Vec::new();
    let mut i: usize = 0;
    while i < items.len()
        invariant
            i <= items@.len(),
            out@.len() == i,
            forall|j: int| 0 <= j < i ==> (#[trigger] out@[j])@ == JsonView::Text(items@[j]@),
        decreases items@.len() - i,
    {
        out.push(Json::Text(items[i].clone()));
        i += 1;
    }
    proof {
        json::lemma_array_view(out);
        assert(out.deep_view() =~= text_list(items.deep_view())->Array_0);
    }
    Json::Array(out)
}

impl TaskFile {
    /// The file as `tellStatus` reports it.
    pub fn to_aria2(&self) -> (r: Json)
        ensures
            r@ == self@.aria2(),
    {
        let mut uris: Vec<Json> = Vec::new();
        let mut i: usize = 0;
        while i < self.uris.len()
            invariant
                i <= self.uris@.len(),
                uris@.len() == i,
                forall|j: int|
                    0 <= j < i ==> (#[trigger] uris@[j])@ == JsonView::Object(
                        seq![
                            ("uri"@, JsonView::Text(self.uris@[j].0@)),
                            ("status"@, JsonView::Text(self.uris@[j].1@)),
                        ],
                    ),
            decreases self.uris@.len() - i,
        {
            let mut uri: Vec<(String, Json)> = Vec::new();
            assoc::put(&mut uri, "uri", Json::Text(self.uris[i].0.clone()));
            assoc::put(&mut uri, "status", Json::Text(self.uris[i].1.clone()));
            proof {
                json::lemma_object_view(uri);
                assert(uri.deep_view() =~= seq![
                    ("uri"@, JsonView::Text(self.uris@[i as int].0@)),
                    ("status"@, JsonView::Text(self.uris@[i as int].1@)),
                ]);
            }
            uris.push(Json::Object(uri));
            i += 1;
        }
        let mut out: Vec<(String, Json)> = Vec::new();
        assoc::put(&mut out, "index", number_json(self.index as u64));
        assoc::put(&mut out, "length", number_json(self.length));
        assoc::put(&mut out, "completedLength", number_json(self.completed_length));
        assoc::put(&mut out, "selected", bool_json(self.selected));
        assoc::put(&mut out, "path", Json::Text(self.path.clone()));
        proof {
            json::lemma_array_view(uris);
            assert(uris.deep_view() =~= self@.aria2()->Object_0[5].1->Array_0);
        }
        assoc::put(&mut out, "uris", Json::Array(uris));
        proof {
            json::lemma_object_view(out);
            assert(out.deep_view() =~= self@.aria2()->Object_0);
        }
        Json::Object(out)
    }
}

impl BittorrentInfo {
    /// The metadata as `tellStatus` reports it.
    pub fn to_aria2(&self) -> (r: Json)
        ensures
            r@ == self@.aria2(),
    {
        let mut lists: Vec<Json> = Vec::new();
        let mut i: usize = 0;
        while i < self.announce_list.len()
            invariant
                i <= self.announce_list@.len(),
                lists@.len() == i,
                forall|j: int|
                    0 <= j < i ==> (#[trigger] lists@[j])@ == text_list(
                        self.announce_list@[j].deep_view(),
                    ),
            decreases self.announce_list@.len() - i,
        {
            lists.push(text_list_json(&self.announce_list[i]));
            i += 1;
        }
        let mut out: Vec<(String, Json)> = Vec::new();
        proof {
            json::lemma_array_view(lists);
            assert(lists.deep_view() =~= self@.aria2()->Object_0[0].1->Array_0);
        }
        assoc::put(&mut out, "announceList", Json::Array(lists));
        assoc::put(&mut out, "mode", Json::Text(self.mode.clone()));
        if let Some(name) = &self.info_name {
            let mut info: Vec<(String, Json)> = Vec::new();
            assoc::put(&mut info, "name", Json::Text(name.clone()));
            proof {
                json::lemma_object_view(info);
                assert(info.deep_view() =~= seq![("name"@, JsonView::Text(name@))]);
            }
            assoc::put(&mut out, "info", Json::Object(info));
        }
        proof {
            json::lemma_object_view(out);
            assert(out.deep_view() =~= self@.aria2()->Object_0);
        }
        Json::Object(out)
    }
}

impl Task {
    /// The task as `tellStatus` reports it.
    pub fn to_aria2(&self) -> (r: Json)
        ensures
            r@ == self@.aria2(),
    {
        let mut files: Vec<Json> = Vec::new();
        let mut i: usize = 0;
        while i < self.files.len()
            invariant
                i <= self.files@.len(),
                files@.len() == i,
                forall|j: int| 0 <= j < i ==> (#[trigger] files@[j])@ == self.files@[j]@.aria2(),
            decreases self.files@.len() - i,
        {
            files.push(self.files[i].to_aria2());
            i += 1;
        }
        let mut out: Vec<(String, Json)> = Vec::new();
        assoc::put(&mut out, "gid", Json::Text(self.gid.clone()));
        assoc::put(&mut out, "status", json::text(self.status.as_str()));
        assoc::put(&mut out, "totalLength", number_json(self.total_length));
        assoc::put(&mut out, "completedLength", number_json(self.completed_length));
        assoc::put(&mut out, "uploadLength", number_json(self.upload_length));
        assoc::put(&mut out, "downloadSpeed", number_json(self.download_speed));
        assoc::put(&mut out, "uploadSpeed", number_json(self.upload_speed));
        assoc::put(&mut out, "connections", number_json(self.connections as u64));
        assoc::put(&mut out, "dir", Json::Text(self.dir.clone()));
        proof {
            json::lemma_array_view(files);
            assert(files.deep_view() =~= self@.aria2()->Object_0[9].1->Array_0);
        }
        assoc::put(&mut out, "files", Json::Array(files));
        let code = match self.error_code {
            Some(code) => Json::Text(digits::i64_text(code as i64)),
            None => Json::Null,
        };
        assoc::put(&mut out, "errorCode", code);
        assoc::put(&mut out, "errorMessage", opt_text_json(&self.error_message));
        assoc::put(&mut out, "numSeeders", number_json(self.num_seeders as u64));
        assoc::put(&mut out, "seeder", bool_json(self.seeder));
        assoc::put(&mut out, "bitfield", Json::Text(self.bitfield.clone()));
        let (info_hash, bittorrent) = match &self.bittorrent {
            Some(b) => (opt_text_json(&b.info_hash), b.to_aria2()),
            None => (Json::Null, Json::Null),
        };
        assoc::put(&mut out, "infoHash", info_hash);
        assoc::put(&mut out, "bittorrent", bittorrent);
        proof {
            json::lemma_object_view(out);
            assert(out.deep_view() =~= self@.aria2()->Object_0);
        }
        Json::Object(out)
    }
}

/// A removed task stays removed, and every other task can be removed.
pub proof fn law_removed_is_final(status: TaskStatus)
    ensures
        !allowed(TaskStatus::Removed, status),
        status != TaskStatus::Removed ==> allowed(status, TaskStatus::Removed),
{
}

} // verus!
