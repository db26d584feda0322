//! The task manager: which tasks run, which wait, and what every request and
//! every report of an engine makes of them. The engines themselves are driven
//! from outside: an operation that has to act on one says so in its result.

use vstd::prelude::*;

use crate::assoc;
use crate::bt::{BtAddOptions, BtProgress, PeerInfo, TorrentMeta};
use crate::config::SystemConfig;
use crate::double;
use crate::engine::{self, TaskEvent};
use crate::json::{self, Json, JsonView};
use crate::options::{self, EngineOptions, OptionsView};
use crate::repository::{self, GlobalStat, Group, RepositoryView, TaskRepository};
use crate::task::{self, Task, TaskFileView, TaskStatus, TaskView};
use crate::text;

verus! {

/// The engines that transfer tasks other than torrents.
#[derive(Debug, Clone, Copy, PartialEq, Eq, Structural)]
pub enum EngineKind {
    /// Parallel HTTP.
    FastDown,
    /// Sequential HTTP.
    Http,
    /// Other protocols.
    Kget,
}

impl DeepView for EngineKind {
    type V = EngineKind;

    open spec fn deep_view(&self) -> EngineKind {
        *self
    }
}

/// Progress at a moment, from which the speed is computed.
#[derive(Debug, Clone, Copy, PartialEq, Eq, Structural)]
pub struct Sample {
    /// Bytes that were there.
    pub completed: u64,
    /// The moment, in milliseconds of a clock that does not go back.
    pub at_ms: u64,
}

impl DeepView for Sample {
    type V = Sample;

    open spec fn deep_view(&self) -> Sample {
        *self
    }
}

/// The task manager.
#[derive(Debug)]
pub struct TaskManager {
    /// The tasks.
    pub repo: TaskRepository,
    /// Options that a new task starts from.
    pub global: EngineOptions,
    /// Running tasks, each with its engine.
    pub active: Vec<(String, EngineKind)>,
    /// The sources of each task.
    pub task_uris: Vec<(String, Vec<String>)>,
    /// The options of each task.
    pub task_options: Vec<(String, EngineOptions)>,
    /// Speed samples of running tasks.
    pub speed_samples: Vec<(String, Sample)>,
    /// How many tasks may run at a time.
    pub max_concurrent: u32,
    /// Whether the BitTorrent engine has been started.
    pub bt_ready: bool,
    /// Running torrents.
    pub bt_active: Vec<(String, ())>,
    /// Torrents whose completion has been announced.
    pub bt_done: Vec<(String, ())>,
    /// When each seeding torrent began to seed, in milliseconds.
    pub bt_seed_started: Vec<(String, u64)>,
    /// Events that are still to be sent.
    pub events: Vec<TaskEvent>,
}

/// What a `TaskManager` stands for.
pub struct ManagerView {
    pub repo: RepositoryView,
    pub global: OptionsView,
    pub active: Seq<(Seq<char>, EngineKind)>,
    pub task_uris: Seq<(Seq<char>, Seq<Seq<char>>)>,
    pub task_options: Seq<(Seq<char>, OptionsView)>,
    pub speed_samples: Seq<(Seq<char>, Sample)>,
    pub max_concurrent: u32,
    pub bt_ready: bool,
    pub bt_active: Seq<(Seq<char>, ())>,
    pub bt_done: Seq<(Seq<char>, ())>,
    pub bt_seed_started: Seq<(Seq<char>, u64)>,
    pub events: Seq<(Seq<char>, Seq<char>)>,
}

impl View for TaskManager {
    type V = ManagerView;

    open spec fn view(&self) -> ManagerView {
        ManagerView {
            repo: self.repo@,
            global: self.global@,
            active: self.active.deep_view(),
            task_uris: self.task_uris.deep_view(),
            task_options: self.task_options.deep_view(),
            speed_samples: self.speed_samples.deep_view(),
            max_concurrent: self.max_concurrent,
            bt_ready: self.bt_ready,
            bt_active: self.bt_active.deep_view(),
            bt_done: self.bt_done.deep_view(),
            bt_seed_started: self.bt_seed_started.deep_view(),
            events: self.events.deep_view(),
        }
    }
}

/// Every task is on the books under its own gid.
pub open spec fn under_own_gid(tasks: Seq<(Seq<char>, TaskView)>) -> bool {
    forall|i: int| 0 <= i < tasks.len() ==> (#[trigger] tasks[i]).0 == tasks[i].1.gid
}

/// `repo` with the task under `gid` in the given state, where the state machine
/// allows it.
pub open spec fn moved(repo: RepositoryView, gid: Seq<char>, status: TaskStatus) -> RepositoryView {
    match repo.task(gid) {
        Some(task) => if task::allowed(task.status, status) {
            repo.with_task(gid, TaskView { status, ..task })
        } else {
            repo
        },
        None => repo,
    }
}

/// `repo` with the task under `gid` failed, where the state machine allows it.
pub open spec fn failed(
    repo: RepositoryView,
    gid: Seq<char>,
    code: i32,
    message: Seq<char>,
) -> RepositoryView {
    match repo.task(gid) {
        Some(task) => if task.status == TaskStatus::Error || task::allowed(
            task.status,
            TaskStatus::Error,
        ) {
            repo.with_task(
                gid,
                TaskView {
                    status: TaskStatus::Error,
                    error_code: Some(code),
                    error_message: Some(message),
                    ..task
                },
            )
        } else {
            repo
        },
        None => repo,
    }
}

impl ManagerView {
    /// No table holds a key twice, every task is under its own gid, and at least one
    /// task may run.
    pub open spec fn wf(self) -> bool {
        &&& self.repo.wf()
        &&& under_own_gid(self.repo.tasks)
        &&& assoc::distinct(self.active)
        &&& assoc::distinct(self.task_uris)
        &&& assoc::distinct(self.task_options)
        &&& assoc::distinct(self.speed_samples)
        &&& assoc::distinct(self.bt_active)
        &&& assoc::distinct(self.bt_done)
        &&& assoc::distinct(self.bt_seed_started)
        &&& self.max_concurrent >= 1
    }

    /// The state of a task.
    pub open spec fn status(self, gid: Seq<char>) -> Option<TaskStatus> {
        match self.repo.task(gid) {
            Some(task) => Some(task.status),
            None => None,
        }
    }

    /// Whether a task is a torrent.
    pub open spec fn is_bt(self, gid: Seq<char>) -> bool {
        match self.repo.task(gid) {
            Some(task) => task.bittorrent is Some,
            None => false,
        }
    }

    /// How many tasks run.
    pub open spec fn running(self) -> nat {
        self.active.len() + self.bt_active.len()
    }

    /// Whether another task may run: torrents take up room as other tasks do.
    pub open spec fn has_slot(self) -> bool {
        self.running() < self.max_concurrent
    }

    /// The manager with one more event to send.
    pub open spec fn with_event(self, gid: Seq<char>, event: Seq<char>) -> ManagerView {
        ManagerView { events: self.events.push((gid, event)), ..self }
    }
}

proof fn lemma_gids_stay(tasks: Seq<(Seq<char>, TaskView)>, gid: Seq<char>, task: TaskView)
    requires
        under_own_gid(tasks),
        task.gid == gid,
    ensures
        under_own_gid(assoc::insert(tasks, gid, task)),
        under_own_gid(assoc::remove(tasks, gid)),
{
    assoc::lemma_index_of(tasks, gid);
    let more = assoc::insert(tasks, gid, task);
    assert forall|i: int| 0 <= i < more.len() implies (#[trigger] more[i]).0 == more[i].1.gid by {
        if i < tasks.len() {
            assert(tasks[i].0 == tasks[i].1.gid);
        }
    }
    let less = assoc::remove(tasks, gid);
    let k = assoc::index_of(tasks, gid);
    assert forall|i: int| 0 <= i < less.len() implies (#[trigger] less[i]).0 == less[i].1.gid by {
        let j = if k < tasks.len() && i >= k {
            i + 1
        } else {
            i
        };
        assert(less[i] == tasks[j]);
    }
}

/// The task under a gid has that gid.
proof fn lemma_own_gid(tasks: Seq<(Seq<char>, TaskView)>, gid: Seq<char>)
    requires
        under_own_gid(tasks),
        assoc::has(tasks, gid),
    ensures
        assoc::lookup(tasks, gid)->0.gid == gid,
{
    assoc::lemma_index_of(tasks, gid);
    assert(tasks[assoc::index_of(tasks, gid)].0 == tasks[assoc::index_of(tasks, gid)].1.gid);
}

/// Changing the task under a gid and taking it away keep every task under its
/// own gid.
proof fn lemma_repo_change(repo: RepositoryView, gid: Seq<char>, task: TaskView)
    requires
        repo.wf(),
        under_own_gid(repo.tasks),
        task.gid == gid,
    ensures
        repo.with_task(gid, task).wf(),
        under_own_gid(repo.with_task(gid, task).tasks),
        repo.without_task(gid).wf(),
        under_own_gid(repo.without_task(gid).tasks),
{
    assoc::lemma_distinct(repo.tasks, gid, task);
    lemma_gids_stay(repo.tasks, gid, task);
}

/// Moving a task to another state, or to failure, keeps the books in order.
pub proof fn lemma_repo_moves(
    repo: RepositoryView,
    gid: Seq<char>,
    status: TaskStatus,
    code: i32,
    message: Seq<char>,
)
    requires
        repo.wf(),
        under_own_gid(repo.tasks),
    ensures
        moved(repo, gid, status).wf(),
        under_own_gid(moved(repo, gid, status).tasks),
        failed(repo, gid, code, message).wf(),
        under_own_gid(failed(repo, gid, code, message).tasks),
{
    if repo.has(gid) {
        lemma_own_gid(repo.tasks, gid);
        let task = repo.task(gid)->0;
        lemma_repo_change(repo, gid, TaskView { status, ..task });
        lemma_repo_change(
            repo,
            gid,
            TaskView {
                status: TaskStatus::Error,
                error_code: Some(code),
                error_message: Some(message),
                ..task
            },
        );
    }
}

/// A task that may be started.
#[derive(Debug, PartialEq, Eq)]
pub struct StartPlan {
    pub gid: String,
    /// Whether it is a torrent.
    pub bt: bool,
}

/// The oldest queued task.
pub open spec fn first_waiting(repo: RepositoryView) -> Option<TaskView> {
    let waiting = repository::members(repo.tasks, Group::Waiting);
    if waiting.len() > 0 {
        Some(waiting[0])
    } else {
        None
    }
}

/// What is to be done to pause or remove a task.
#[derive(Debug, Clone, Copy, PartialEq, Eq, Structural)]
pub enum StopPlan {
    /// Stop the torrent.
    Torrent,
    /// Stop this engine.
    Engine(EngineKind),
    /// Nothing runs.
    Idle,
}

/// What is to be done to resume a task.
#[derive(Debug, Clone, Copy, PartialEq, Eq, Structural)]
pub enum ResumePlan {
    /// Nothing.
    Nothing,
    /// Start its transfer.
    Transfer,
    /// Start its torrent.
    Torrent,
}

impl TaskManager {
    /// A manager without tasks.
    pub fn new(system: &SystemConfig) -> (r: TaskManager)
        ensures
            r@.wf(),
            r@.repo.tasks.len() == 0,
            r@.repo.removed.len() == 0,
            r@.global == options::system_options(*system),
            r@.active.len() == 0,
            r@.task_uris.len() == 0,
            r@.task_options.len() == 0,
            r@.speed_samples.len() == 0,
            r@.max_concurrent == options::at_least_one(system.max_concurrent_downloads as nat),
            !r@.bt_ready,
            r@.bt_active.len() == 0,
            r@.bt_done.len() == 0,
            r@.bt_seed_started.len() == 0,
            r@.events.len() == 0,
    {
        TaskManager {
            repo: TaskRepository::new(),
            global: EngineOptions::from_system_config(system),
            active: Vec::new(),
            task_uris: Vec::new(),
            task_options: Vec::new(),
            speed_samples: Vec::new(),
            max_concurrent: if system.max_concurrent_downloads == 0 {
                1
            } else {
                system.max_concurrent_downloads
            },
            bt_ready: false,
            bt_active: Vec::new(),
            bt_done: Vec::new(),
            bt_seed_started: Vec::new(),
            events: Vec::new(),
        }
    }

    /// Queues an event.
    fn emit_event(&mut self, gid: &str, event: &str)
        ensures
            final(self)@ == old(self)@.with_event(gid@, event@),
            *final(self) == (TaskManager { events: final(self).events, ..*old(self) }),
    {
        let ghost before = self.events.deep_view();
        self.events.push(TaskEvent { gid: gid.to_owned(), event: event.to_owned() });
        proof {
            assert(self.events.deep_view() =~= before.push((gid@, event@)));
        }
    }

    /// Moves a task to another state, where the state machine allows it.
    fn move_task(&mut self, gid: &str, status: TaskStatus)
        requires
            old(self)@.repo.wf(),
        ensures
            final(self)@ == (ManagerView {
                repo: moved(old(self)@.repo, gid@, status),
                ..old(self)@
            }),
    {
        let _ = self.repo.set_status(gid, status);
    }

    /// Marks a task as failed, where the state machine allows it.
    fn fail_task(&mut self, gid: &str, message: &str)
        requires
            old(self)@.repo.wf(),
        ensures
            final(self)@ == (ManagerView {
                repo: failed(old(self)@.repo, gid@, 1, message@),
                ..old(self)@
            }),
    {
        let _ = self.repo.mark_error(gid, 1, message.to_owned());
    }

    /// The state of a task.
    fn status_of(&self, gid: &str) -> (r: Option<TaskStatus>)
        ensures
            r == self@.status(gid@),
    {
        match self.repo.get(gid) {
            Some(task) => Some(task.status),
            None => None,
        }
    }

    /// Whether a task is a torrent.
    pub fn is_bt(&self, gid: &str) -> (r: bool)
        ensures
            r == self@.is_bt(gid@),
    {
        match self.repo.get(gid) {
            Some(task) => task.bittorrent.is_some(),
            None => false,
        }
    }

    /// Chooses the task to start next: the oldest queued one, where another task
    /// may run. The task is moved to the running ones; whoever starts it reports
    /// back by `engine_started`, `bt_started` or `start_failed`.
    pub fn promote_waiting(&mut self) -> (r: Option<StartPlan>)
        requires
            old(self)@.wf(),
        ensures
            final(self)@.wf(),
            match r {
                Some(plan) => {
                    &&& old(self)@.has_slot()
                    &&& first_waiting(old(self)@.repo) matches Some(task)
                    &&& plan.gid@ == task.gid
                    &&& plan.bt == (task.bittorrent is Some)
                    &&& old(self)@.repo.task(task.gid) == Some(task)
                    &&& final(self)@ == (ManagerView {
                        repo: old(self)@.repo.with_task(
                            task.gid,
                            TaskView { status: TaskStatus::Active, ..task },
                        ),
                        ..old(self)@
                    })
                },
                None => {
                    &&& final(self)@ == old(self)@
                    &&& !old(self)@.has_slot() || first_waiting(old(self)@.repo) is None
                },
            },
    {
        let running: u128 = self.active.len() as u128 + self.bt_active.len() as u128;
        if running >= self.max_concurrent as u128 {
            return None;
        }
        let waiting = self.repo.waiting();
        if waiting.len() == 0 {
            return None;
        }
        let gid = waiting[0].gid.clone();
        let bt = waiting[0].bittorrent.is_some();
        proof {
            let tasks = self@.repo.tasks;
            let list = repository::members(tasks, Group::Waiting);
            assert(list[0] == waiting@[0]@);
            repository::law_members_match(tasks, Group::Waiting, 0);
            let k = choose|k: int| 0 <= k < tasks.len() && (#[trigger] tasks[k]).1 == list[0];
            assert(tasks[k].0 == gid@);
            assert forall|j: int| 0 <= j < k implies (#[trigger] tasks[j]).0 != gid@ by {
                assert(tasks[j].0 != tasks[k].0);
            }
            assoc::lemma_index_is(tasks, gid@, k);
            lemma_repo_moves(self@.repo, gid@, TaskStatus::Active, 1, seq![]);
        }
        self.move_task(gid.as_str(), TaskStatus::Active);
        Some(StartPlan { gid, bt })
    }

    /// Notes that the engine of a task has been started.
    pub fn engine_started(&mut self, gid: &str, kind: EngineKind)
        requires
            old(self)@.wf(),
        ensures
            final(self)@.wf(),
            final(self)@ == (ManagerView {
                active: assoc::insert(old(self)@.active, gid@, kind),
                ..old(self)@
            }).with_event(gid@, "start"@),
    {
        proof {
            assoc::lemma_distinct(self@.active, gid@, kind);
        }
        assoc::insert_in(&mut self.active, gid, kind);
        self.emit_event(gid, "start");
    }

    /// Notes that a torrent has been started.
    pub fn bt_started(&mut self, gid: &str)
        requires
            old(self)@.wf(),
        ensures
            final(self)@.wf(),
            final(self)@ == (ManagerView {
                bt_active: assoc::insert(old(self)@.bt_active, gid@, ()),
                ..old(self)@
            }).with_event(gid@, "start"@),
    {
        proof {
            assoc::lemma_distinct(self@.bt_active, gid@, ());
        }
        assoc::insert_in(&mut self.bt_active, gid, ());
        self.emit_event(gid, "start");
    }

    /// Notes that a task could not be started.
    pub fn start_failed(&mut self, gid: &str, message: &str)
        requires
            old(self)@.wf(),
        ensures
            final(self)@.wf(),
            final(self)@ == (ManagerView {
                repo: failed(old(self)@.repo, gid@, 1, message@),
                ..old(self)@
            }),
    {
        proof {
            lemma_repo_moves(self@.repo, gid@, TaskStatus::Active, 1, message@);
        }
        self.fail_task(gid, message);
    }
}

/// A message about a missing task.
pub open spec fn no_such_task(gid: Seq<char>) -> Seq<char> {
    "任务不存在: "@ + gid
}

/// A message about a task that cannot be paused.
pub open spec fn cannot_pause(gid: Seq<char>) -> Seq<char> {
    "无法暂停任务（当前状态不支持）: gid="@ + gid
}

/// A message about a task that cannot be resumed.
pub open spec fn cannot_resume(gid: Seq<char>) -> Seq<char> {
    "无法恢复任务（当前状态不支持）: gid="@ + gid
}

/// How a request to pause ends, by the state of the task.
pub open spec fn pause_error(status: Option<TaskStatus>, gid: Seq<char>) -> Option<Seq<char>> {
    match status {
        None => Some(no_such_task(gid)),
        Some(TaskStatus::Active) => None,
        Some(TaskStatus::Waiting) => None,
        Some(TaskStatus::Paused) => None,
        Some(_) => Some(cannot_pause(gid)),
    }
}

/// What pausing makes of the task itself: a running or queued one is paused and
/// announced, a paused one stays.
pub open spec fn paused(m: ManagerView, gid: Seq<char>) -> ManagerView {
    match m.status(gid) {
        Some(TaskStatus::Active) => (ManagerView {
            repo: moved(m.repo, gid, TaskStatus::Paused),
            ..m
        }).with_event(gid, "pause"@),
        Some(TaskStatus::Waiting) => (ManagerView {
            repo: moved(m.repo, gid, TaskStatus::Paused),
            ..m
        }).with_event(gid, "pause"@),
        _ => m,
    }
}

/// What is to be stopped with the engine of a task.
pub open spec fn stopped_engine(m: ManagerView, gid: Seq<char>) -> StopPlan {
    match assoc::lookup(m.active, gid) {
        Some(kind) => StopPlan::Engine(kind),
        None => StopPlan::Idle,
    }
}

/// The manager without the engine of a task.
pub open spec fn released(m: ManagerView, gid: Seq<char>) -> ManagerView {
    ManagerView { active: assoc::remove(m.active, gid), ..m }
}

impl TaskManager {
    /// Gives up the engine of a task that is to be removed, and says what is to be
    /// stopped.
    pub fn release_engine(&mut self, gid: &str) -> (r: StopPlan)
        requires
            old(self)@.wf(),
        ensures
            final(self)@.wf(),
            old(self)@.is_bt(gid@) ==> r == StopPlan::Torrent && final(self)@ == old(self)@,
            !old(self)@.is_bt(gid@) ==> r == stopped_engine(old(self)@, gid@) && final(self)@
                == released(old(self)@, gid@),
    {
        if self.is_bt(gid) {
            return StopPlan::Torrent;
        }
        proof {
            assoc::lemma_distinct(self@.active, gid@, EngineKind::Http);
        }
        match assoc::remove_in(&mut self.active, gid) {
            Some(kind) => StopPlan::Engine(kind),
            None => StopPlan::Idle,
        }
    }

    /// Begins to pause a task: gives up its engine, and says what is to be stopped.
    /// A task that cannot be paused is left as it is, and nothing is stopped.
    pub fn begin_pause(&mut self, gid: &str) -> (r: Result<StopPlan, String>)
        requires
            old(self)@.wf(),
        ensures
            final(self)@.wf(),
            match r {
                Ok(plan) => {
                    &&& pause_error(old(self)@.status(gid@), gid@) is None
                    &&& if old(self)@.is_bt(gid@) {
                        plan == StopPlan::Torrent && final(self)@ == old(self)@
                    } else {
                        plan == stopped_engine(old(self)@, gid@) && final(self)@ == released(
                            old(self)@,
                            gid@,
                        )
                    }
                },
                Err(e) => {
                    &&& pause_error(old(self)@.status(gid@), gid@) == Some(e@)
                    &&& final(self)@ == old(self)@
                },
            },
    {
        match self.status_of(gid) {
            None => Err(text::join2("任务不存在: ", gid)),
            Some(TaskStatus::Active) | Some(TaskStatus::Waiting) | Some(TaskStatus::Paused) => Ok(
                self.release_engine(gid),
            ),
            Some(_) => Err(text::join2("无法暂停任务（当前状态不支持）: gid=", gid)),
        }
    }

    /// The file to cut and the length to cut it to when a sequential download is
    /// paused: the bytes that are there.
    pub fn truncate_target(&self, gid: &str) -> (r: Option<(String, u64)>)
        ensures
            r.deep_view() == (match self@.repo.task(gid@) {
                Some(task) => if task.files.len() > 0 && task.files[0].path.len() > 0
                    && task.completed_length > 0 {
                    Some((task.files[0].path, task.completed_length))
                } else {
                    None
                },
                None => None,
            }),
    {
        match self.repo.get(gid) {
            Some(task) => {
                if task.files.len() > 0 && !task.files[0].path.as_str().is_empty()
                    && task.completed_length > 0 {
                    Some((task.files[0].path.clone(), task.completed_length))
                } else {
                    None
                }
            },
            None => None,
        }
    }

    /// The file to look at when a preallocating download is paused.
    pub fn cleanup_target(&self, gid: &str) -> (r: Option<String>)
        ensures
            r.deep_view() == (match self@.repo.task(gid@) {
                Some(task) => if task.files.len() > 0 && task.files[0].path.len() > 0
                    && task.total_length > 0 {
                    Some(task.files[0].path)
                } else {
                    None
                },
                None => None,
            }),
    {
        match self.repo.get(gid) {
            Some(task) => {
                if task.files.len() > 0 && !task.files[0].path.as_str().is_empty()
                    && task.total_length > 0 {
                    Some(task.files[0].path.clone())
                } else {
                    None
                }
            },
            None => None,
        }
    }

    /// Whether the file of a paused task, of the given length on disk, is a mere
    /// preallocation: as long as the task, while bytes are still missing.
    pub fn is_preallocated(&self, gid: &str, disk_size: u64) -> (r: bool)
        ensures
            r == (match self@.repo.task(gid@) {
                Some(task) => task.total_length > 0 && disk_size >= task.total_length
                    && task.completed_length < task.total_length,
                None => false,
            }),
    {
        match self.repo.get(gid) {
            Some(task) => task.total_length > 0 && disk_size >= task.total_length
                && task.completed_length < task.total_length,
            None => false,
        }
    }

    /// Pauses the task itself.
    fn pause_task(&mut self, gid: &str) -> (r: Result<(), String>)
        requires
            old(self)@.wf(),
        ensures
            final(self)@.wf(),
            final(self)@ == paused(old(self)@, gid@),
            match r {
                Ok(_) => pause_error(old(self)@.status(gid@), gid@) is None,
                Err(e) => pause_error(old(self)@.status(gid@), gid@) == Some(e@),
            },
    {
        match self.status_of(gid) {
            None => Err(text::join2("任务不存在: ", gid)),
            Some(TaskStatus::Active) | Some(TaskStatus::Waiting) => {
                proof {
                    lemma_repo_moves(self@.repo, gid@, TaskStatus::Paused, 1, seq![]);
                }
                self.move_task(gid, TaskStatus::Paused);
                self.emit_event(gid, "pause");
                Ok(())
            },
            Some(TaskStatus::Paused) => Ok(()),
            Some(_) => Err(text::join2("无法暂停任务（当前状态不支持）: gid=", gid)),
        }
    }

    /// Pauses a task whose engine has been stopped. A success may have made room
    /// for another task.
    pub fn pause(&mut self, gid: &str) -> (r: Result<(), String>)
        requires
            old(self)@.wf(),
        ensures
            final(self)@.wf(),
            final(self)@ == paused(
                ManagerView {
                    speed_samples: assoc::remove(old(self)@.speed_samples, gid@),
                    ..old(self)@
                },
                gid@,
            ),
            match r {
                Ok(_) => pause_error(old(self)@.status(gid@), gid@) is None,
                Err(e) => pause_error(old(self)@.status(gid@), gid@) == Some(e@),
            },
    {
        proof {
            assoc::lemma_distinct(
                self@.speed_samples,
                gid@,
                (Sample { completed: 0, at_ms: 0 }),
            );
        }
        let _ = assoc::remove_in(&mut self.speed_samples, gid);
        self.pause_task(gid)
    }

    /// Pauses a task at once, which every pause does.
    pub fn force_pause(&mut self, gid: &str) -> (r: Result<(), String>)
        requires
            old(self)@.wf(),
        ensures
            final(self)@.wf(),
            final(self)@ == paused(
                ManagerView {
                    speed_samples: assoc::remove(old(self)@.speed_samples, gid@),
                    ..old(self)@
                },
                gid@,
            ),
            match r {
                Ok(_) => pause_error(old(self)@.status(gid@), gid@) is None,
                Err(e) => pause_error(old(self)@.status(gid@), gid@) == Some(e@),
            },
    {
        self.pause(gid)
    }

    /// Pauses a torrent that has been stopped. A success may have made room for
    /// another task.
    pub fn pause_bt(&mut self, gid: &str) -> (r: Result<(), String>)
        requires
            old(self)@.wf(),
        ensures
            final(self)@.wf(),
            match r {
                Ok(_) => {
                    &&& pause_error(old(self)@.status(gid@), gid@) is None
                    &&& final(self)@ == (ManagerView {
                        bt_active: assoc::remove(old(self)@.bt_active, gid@),
                        bt_seed_started: assoc::remove(old(self)@.bt_seed_started, gid@),
                        ..paused(old(self)@, gid@)
                    })
                },
                Err(e) => {
                    &&& pause_error(old(self)@.status(gid@), gid@) == Some(e@)
                    &&& final(self)@ == old(self)@
                },
            },
    {
        match self.pause_task(gid) {
            Ok(_) => {
                proof {
                    assoc::lemma_distinct(self@.bt_active, gid@, ());
                    assoc::lemma_distinct(self@.bt_seed_started, gid@, 0);
                }
                let _ = assoc::remove_in(&mut self.bt_active, gid);
                let _ = assoc::remove_in(&mut self.bt_seed_started, gid);
                Ok(())
            },
            Err(e) => Err(e),
        }
    }
}

/// How a request to resume ends, by the state of the task.
pub open spec fn resume_error(status: Option<TaskStatus>, gid: Seq<char>) -> Option<Seq<char>> {
    match status {
        None => Some(no_such_task(gid)),
        Some(TaskStatus::Active) => None,
        Some(TaskStatus::Waiting) => None,
        Some(TaskStatus::Paused) => None,
        Some(_) => Some(cannot_resume(gid)),
    }
}

/// What is to be done to resume a task.
pub open spec fn resume_plan(m: ManagerView, gid: Seq<char>) -> ResumePlan {
    if m.status(gid) == Some(TaskStatus::Paused) && m.has_slot() {
        if m.is_bt(gid) {
            ResumePlan::Torrent
        } else {
            ResumePlan::Transfer
        }
    } else {
        ResumePlan::Nothing
    }
}

/// What a request to resume makes of the tasks: a paused one runs where it finds
/// room, and is queued where it does not.
pub open spec fn resumed(m: ManagerView, gid: Seq<char>) -> ManagerView {
    if m.status(gid) == Some(TaskStatus::Paused) {
        ManagerView {
            repo: moved(
                m.repo,
                gid,
                if m.has_slot() {
                    TaskStatus::Active
                } else {
                    TaskStatus::Waiting
                },
            ),
            ..m
        }
    } else {
        m
    }
}

/// The manager without what is on record of a transfer besides the task itself.
pub open spec fn forgotten(m: ManagerView, gid: Seq<char>) -> ManagerView {
    ManagerView {
        task_uris: assoc::remove(m.task_uris, gid),
        task_options: assoc::remove(m.task_options, gid),
        speed_samples: assoc::remove(m.speed_samples, gid),
        ..m
    }
}

/// The manager without what is on record of a torrent besides the task itself.
pub open spec fn torrent_forgotten(m: ManagerView, gid: Seq<char>) -> ManagerView {
    ManagerView {
        task_uris: assoc::remove(m.task_uris, gid),
        task_options: assoc::remove(m.task_options, gid),
        bt_active: assoc::remove(m.bt_active, gid),
        bt_done: assoc::remove(m.bt_done, gid),
        bt_seed_started: assoc::remove(m.bt_seed_started, gid),
        ..m
    }
}

/// The manager with a task taken off the books.
pub open spec fn removed(m: ManagerView, gid: Seq<char>) -> ManagerView {
    (ManagerView { repo: m.repo.without_task(gid), ..m }).with_event(gid, "stop"@)
}

impl TaskManager {
    /// Resumes a task; the result says what is to be started.
    pub fn resume(&mut self, gid: &str) -> (r: Result<ResumePlan, String>)
        requires
            old(self)@.wf(),
        ensures
            final(self)@.wf(),
            final(self)@ == resumed(old(self)@, gid@),
            match r {
                Ok(plan) => resume_error(old(self)@.status(gid@), gid@) is None && plan
                    == resume_plan(old(self)@, gid@),
                Err(e) => resume_error(old(self)@.status(gid@), gid@) == Some(e@),
            },
    {
        match self.status_of(gid) {
            None => Err(text::join2("任务不存在: ", gid)),
            Some(TaskStatus::Active) | Some(TaskStatus::Waiting) => Ok(ResumePlan::Nothing),
            Some(TaskStatus::Paused) => {
                let bt = self.is_bt(gid);
                let used: u128 = self.active.len() as u128 + self.bt_active.len() as u128;
                proof {
                    lemma_repo_moves(self@.repo, gid@, TaskStatus::Active, 1, seq![]);
                    lemma_repo_moves(self@.repo, gid@, TaskStatus::Waiting, 1, seq![]);
                }
                if used >= self.max_concurrent as u128 {
                    self.move_task(gid, TaskStatus::Waiting);
                    Ok(ResumePlan::Nothing)
                } else {
                    self.move_task(gid, TaskStatus::Active);
                    if bt {
                        Ok(ResumePlan::Torrent)
                    } else {
                        Ok(ResumePlan::Transfer)
                    }
                }
            },
            Some(_) => Err(text::join2("无法恢复任务（当前状态不支持）: gid=", gid)),
        }
    }

    /// Takes a task off the books.
    fn drop_task(&mut self, gid: &str) -> (r: Result<(), String>)
        requires
            old(self)@.wf(),
        ensures
            final(self)@.wf(),
            match r {
                Ok(_) => old(self)@.repo.has(gid@) && final(self)@ == removed(old(self)@, gid@),
                Err(e) => !old(self)@.repo.has(gid@) && final(self)@ == old(self)@ && e@
                    == no_such_task(gid@),
            },
    {
        proof {
            if self@.repo.has(gid@) {
                lemma_own_gid(self@.repo.tasks, gid@);
                lemma_repo_change(self@.repo, gid@, self@.repo.task(gid@)->0);
            }
        }
        match self.repo.remove(gid) {
            Some(_) => {
                self.emit_event(gid, "stop");
                Ok(())
            },
            None => Err(text::join2("任务不存在: ", gid)),
        }
    }

    /// The path of the first file of a task.
    pub fn first_path(&self, gid: &str) -> (r: Option<String>)
        ensures
            r.deep_view() == (match self@.repo.task(gid@) {
                Some(task) => if task.files.len() > 0 {
                    Some(task.files[0].path)
                } else {
                    None
                },
                None => None,
            }),
    {
        match self.repo.get(gid) {
            Some(task) => if task.files.len() > 0 {
                Some(task.files[0].path.clone())
            } else {
                None
            },
            None => None,
        }
    }

    /// Removes a task whose engine has been stopped. A success may have made room
    /// for another task.
    pub fn remove(&mut self, gid: &str) -> (r: Result<(), String>)
        requires
            old(self)@.wf(),
        ensures
            final(self)@.wf(),
            match r {
                Ok(_) => old(self)@.repo.has(gid@) && final(self)@ == removed(
                    forgotten(old(self)@, gid@),
                    gid@,
                ),
                Err(e) => !old(self)@.repo.has(gid@) && final(self)@ == forgotten(
                    old(self)@,
                    gid@,
                ) && e@ == no_such_task(gid@),
            },
    {
        proof {
            assoc::lemma_distinct(self@.task_uris, gid@, seq![]);
            assoc::lemma_distinct(self@.task_options, gid@, self@.global);
            assoc::lemma_distinct(
                self@.speed_samples,
                gid@,
                (Sample { completed: 0, at_ms: 0 }),
            );
        }
        let _ = assoc::remove_in(&mut self.task_uris, gid);
        let _ = assoc::remove_in(&mut self.task_options, gid);
        let _ = assoc::remove_in(&mut self.speed_samples, gid);
        self.drop_task(gid)
    }

    /// Removes a torrent that has been taken out of the engine. A success may
    /// have made room for another task.
    pub fn remove_bt(&mut self, gid: &str) -> (r: Result<(), String>)
        requires
            old(self)@.wf(),
        ensures
            final(self)@.wf(),
            match r {
                Ok(_) => old(self)@.repo.has(gid@) && final(self)@ == removed(
                    torrent_forgotten(old(self)@, gid@),
                    gid@,
                ),
                Err(e) => !old(self)@.repo.has(gid@) && final(self)@ == torrent_forgotten(
                    old(self)@,
                    gid@,
                ) && e@ == no_such_task(gid@),
            },
    {
        proof {
            assoc::lemma_distinct(self@.task_uris, gid@, seq![]);
            assoc::lemma_distinct(self@.task_options, gid@, self@.global);
            assoc::lemma_distinct(self@.bt_active, gid@, ());
            assoc::lemma_distinct(self@.bt_done, gid@, ());
            assoc::lemma_distinct(self@.bt_seed_started, gid@, 0);
        }
        let _ = assoc::remove_in(&mut self.task_uris, gid);
        let _ = assoc::remove_in(&mut self.task_options, gid);
        let _ = assoc::remove_in(&mut self.bt_active, gid);
        let _ = assoc::remove_in(&mut self.bt_done, gid);
        let _ = assoc::remove_in(&mut self.bt_seed_started, gid);
        self.drop_task(gid)
    }
}

/// The options `o` with those that `given` sets.
pub open spec fn overridden(o: OptionsView, given: JsonView, ratio: Option<u64>) -> OptionsView {
    match given {
        JsonView::Object(fields) => options::applied(o, fields, ratio),
        _ => o,
    }
}

/// What a change of a task's options asks of the BitTorrent engine.
#[derive(Debug, PartialEq, Eq)]
pub enum OptionEffect {
    /// Nothing.
    Nothing,
    /// Download these files only.
    SelectFiles(Vec<usize>),
}

/// The files that a changed selection leaves: none where it names none.
pub open spec fn files_left(o: OptionsView) -> Seq<usize> {
    match o.only_files {
        Some(files) => files,
        None => seq![],
    }
}

impl TaskManager {
    /// Changes the options of a task. A torrent takes a new selection of files
    /// over at once, for which its engine has to be there; other options wait for
    /// the next start.
    pub fn change_option(&mut self, gid: &str, given: &Json, ratio: Option<u64>) -> (r: Result<
        OptionEffect,
        String,
    >)
        requires
            old(self)@.wf(),
        ensures
            final(self)@.wf(),
            match assoc::lookup(old(self)@.task_options, gid@) {
                None => final(self)@ == old(self)@ && match r {
                    Err(e) => e@ == no_such_task(gid@),
                    Ok(_) => false,
                },
                Some(current) => {
                    let changed = overridden(current, given@, ratio);
                    &&& final(self)@ == (ManagerView {
                        task_options: assoc::insert(old(self)@.task_options, gid@, changed),
                        ..old(self)@
                    })
                    &&& if given@.field("select-file"@) is None || !old(self)@.is_bt(gid@) {
                        r matches Ok(effect) && effect is Nothing
                    } else if !old(self)@.bt_ready {
                        r matches Err(e) && e@ == "BT 引擎未初始化"@
                    } else {
                        r matches Ok(OptionEffect::SelectFiles(files)) && files@ == files_left(
                            changed,
                        )
                    }
                },
            },
    {
        let mut changed = match assoc::lookup_in(&self.task_options, gid) {
            Some(current) => current.clone(),
            None => {
                return Err(text::join2("任务不存在: ", gid));
            },
        };
        changed.apply_task_options(given, ratio);
        let ghost view = changed@;
        let files: Vec<usize> = match changed.clone().only_files {
            Some(files) => files,
            None => Vec::new(),
        };
        proof {
            assert(files@ =~= files_left(view));
            assoc::lemma_distinct(self@.task_options, gid@, view);
        }
        assoc::insert_in(&mut self.task_options, gid, changed);
        if given.get("select-file").is_none() || !self.is_bt(gid) {
            return Ok(OptionEffect::Nothing);
        }
        if !self.bt_ready {
            return Err("BT 引擎未初始化".to_owned());
        }
        Ok(OptionEffect::SelectFiles(files))
    }

    /// Changes the options that new tasks start from, and how many tasks may run
    /// at a time. Gives back the settings to be stored. `readings` gives, for each
    /// option whose text reads as a double, that double.
    pub fn change_global_option(&mut self, given: &Json, readings: &Vec<(String, u64)>) -> (r:
        Json)
        requires
            old(self)@.wf(),
        ensures
            final(self)@.wf(),
            final(self)@ == (ManagerView {
                global: overridden(
                    old(self)@.global,
                    given@,
                    assoc::lookup(readings.deep_view(), "seed-ratio"@),
                ),
                max_concurrent: match options::number_in(
                    given@.field("max-concurrent-downloads"@),
                ) {
                    Some(n) => options::at_least_one(options::low32(n) as nat) as u32,
                    None => old(self)@.max_concurrent,
                },
                ..old(self)@
            }),
            r@ == (match given@ {
                JsonView::Object(fields) => JsonView::Object(
                    engine::normal_fields(fields, readings.deep_view()),
                ),
                other => other,
            }),
    {
        let ratio: Option<u64> = match assoc::lookup_in(readings, "seed-ratio") {
            Some(bits) => Some(*bits),
            None => None,
        };
        self.global.apply_task_options(given, ratio);
        match given {
            Json::Object(fields) => {
                proof {
                    json::lemma_object_view(*fields);
                }
                if let Some(n) = options::number_option(fields, "max-concurrent-downloads") {
                    let wanted: u32 = (n % 0x1_0000_0000) as u32;
                    self.max_concurrent = if wanted == 0 {
                        1
                    } else {
                        wanted
                    };
                }
            },
            _ => {},
        }
        engine::normalize_system_patch(given, readings)
    }

    /// The options of a new task.
    pub fn new_task_options(&self, given: &Json, ratio: Option<u64>) -> (r: EngineOptions)
        ensures
            r@ == overridden(self@.global, given@, ratio),
    {
        let mut r = self.global.clone();
        r.apply_task_options(given, ratio);
        r
    }
}

/// A new task for a source, whose length may be known.
pub open spec fn sourced_task(
    gid: Seq<char>,
    uri: Seq<char>,
    o: OptionsView,
    total: u64,
    created_at: u64,
) -> TaskView {
    let out = match o.out {
        Some(out) => out,
        None => engine::uri_name(uri),
    };
    let task = task::http_task(gid, seq![uri], o.dir, out, created_at);
    TaskView {
        total_length: total,
        files: seq![TaskFileView { length: total, ..task.files[0] }],
        ..task
    }
}

impl TaskManager {
    /// Queues a new task for a source. `total` is its length, `0` where it is not
    /// known.
    pub fn add_uri(
        &mut self,
        gid: &str,
        uri: &str,
        task_options: EngineOptions,
        total: u64,
        created_at: u64,
    )
        requires
            old(self)@.wf(),
        ensures
            final(self)@.wf(),
            final(self)@ == (ManagerView {
                repo: old(self)@.repo.with_task(
                    gid@,
                    sourced_task(gid@, uri@, task_options@, total, created_at),
                ),
                task_uris: assoc::insert(old(self)@.task_uris, gid@, seq![uri@]),
                task_options: assoc::insert(old(self)@.task_options, gid@, task_options@),
                ..old(self)@
            }),
    {
        let out = match &task_options.out {
            Some(out) => out.clone(),
            None => engine::file_name_from_uri(uri),
        };
        let mut uris: Vec<String> = Vec::new();
        uris.push(uri.to_owned());
        proof {
            assert(uris.deep_view() =~= seq![uri@]);
        }
        let mut task = Task::new_http_task_at(
            gid,
            &uris,
            task_options.dir.as_str(),
            out.as_str(),
            created_at,
        );
        let ghost plain = task@;
        proof {
            assert(task.files.deep_view() == plain.files);
            assert(task.files.deep_view().len() == 1);
            assert(task.files.deep_view()[0] == task.files@[0]@);
        }
        task.total_length = total;
        task.files[0].length = total;
        let ghost view = sourced_task(gid@, uri@, task_options@, total, created_at);
        proof {
            assert(task.files.deep_view() =~= view.files);
            lemma_repo_change(self@.repo, gid@, view);
            assoc::lemma_distinct(self@.task_uris, gid@, seq![uri@]);
            assoc::lemma_distinct(self@.task_options, gid@, task_options@);
        }
        self.repo.add(task);
        assoc::insert_in(&mut self.task_uris, gid, uris);
        assoc::insert_in(&mut self.task_options, gid, task_options);
    }
}

/// How a torrent is to be added.
#[derive(Debug, PartialEq, Eq)]
pub struct TorrentPlan {
    /// The magnet link, or the torrent in base64.
    pub source: String,
    /// Whether it is a magnet link.
    pub magnet: bool,
    /// The options of the task.
    pub options: EngineOptions,
    /// What the engine is told.
    pub add: BtAddOptions,
}

/// The options of a new torrent: seeding goes by the user's setting where the
/// request does not say.
pub open spec fn torrent_options(
    global: OptionsView,
    given: JsonView,
    ratio: Option<u64>,
    keep_seeding: bool,
) -> OptionsView {
    let o = overridden(global, given, ratio);
    if given.field("keep-seeding"@) is None {
        OptionsView { keep_seeding, ..o }
    } else {
        o
    }
}

/// Whether the engine is told what the options say.
pub open spec fn adds_as(add: BtAddOptions, dir: Seq<char>, o: OptionsView) -> bool {
    &&& add.dir@ == dir
    &&& add.trackers.deep_view() == o.bt_trackers
    &&& options::places_view(add.only_files) == o.only_files
    &&& !add.paused
}

/// What the engine is told.
fn add_options(dir: &str, task_options: &EngineOptions) -> (r: BtAddOptions)
    ensures
        adds_as(r, dir@, task_options@),
{
    let copy = task_options.clone();
    BtAddOptions {
        dir: dir.to_owned(),
        trackers: copy.bt_trackers,
        only_files: copy.only_files,
        paused: false,
    }
}

impl TaskManager {
    /// How a torrent is to be added. `keep_seeding` is the user's setting.
    pub fn plan_torrent(
        &self,
        torrent: &str,
        given: &Json,
        ratio: Option<u64>,
        keep_seeding: bool,
    ) -> (r: Result<TorrentPlan, String>)
        ensures
            match r {
                Ok(plan) => {
                    let o = torrent_options(self@.global, given@, ratio, keep_seeding);
                    &&& text::trimmed(torrent@).len() > 0
                    &&& plan.source@ == text::trimmed(torrent@)
                    &&& plan.magnet == text::starts(text::trimmed(torrent@), "magnet:"@)
                    &&& plan.options@ == o
                    &&& adds_as(plan.add, o.dir, o)
                },
                Err(e) => text::trimmed(torrent@).len() == 0 && e@
                    == "add_torrent 需要一个 magnet 链接或 base64 编码的 .torrent 内容"@,
            },
    {
        let source = text::trim(torrent);
        if source.as_str().is_empty() {
            return Err(
                "add_torrent 需要一个 magnet 链接或 base64 编码的 .torrent 内容".to_owned(),
            );
        }
        let mut task_options = self.new_task_options(given, ratio);
        if given.get("keep-seeding").is_none() {
            task_options.keep_seeding = keep_seeding;
        }
        let magnet = text::starts_with(source.as_str(), "magnet:");
        let add = add_options(task_options.dir.as_str(), &task_options);
        Ok(TorrentPlan { source, magnet, options: task_options, add })
    }

    /// Queues a torrent that the engine has taken. `meta` is its metadata, where
    /// that is known already.
    pub fn add_torrent(
        &mut self,
        gid: &str,
        source: &str,
        task_options: EngineOptions,
        info_hash: String,
        meta: Option<TorrentMeta>,
        created_at: u64,
    )
        requires
            old(self)@.wf(),
        ensures
            final(self)@.wf(),
            ({
                let plain = task::bt_task(
                    gid@,
                    source@,
                    task_options@.dir,
                    Some(info_hash@),
                    created_at,
                );
                final(self)@ == (ManagerView {
                    repo: old(self)@.repo.with_task(
                        gid@,
                        match meta {
                            Some(meta) => engine::with_meta(
                                plain,
                                meta@,
                                task_options@.only_files,
                            ),
                            None => plain,
                        },
                    ),
                    task_uris: assoc::insert(old(self)@.task_uris, gid@, seq![source@]),
                    task_options: assoc::insert(old(self)@.task_options, gid@, task_options@),
                    ..old(self)@
                })
            }),
    {
        let mut task = Task::new_bt_task_at(
            gid,
            source,
            task_options.dir.as_str(),
            Some(info_hash),
            created_at,
        );
        if let Some(meta) = &meta {
            engine::apply_torrent_meta(&mut task, meta, &task_options.only_files);
        }
        let mut uris: Vec<String> = Vec::new();
        uris.push(source.to_owned());
        proof {
            assert(uris.deep_view() =~= seq![source@]);
            lemma_repo_change(self@.repo, gid@, task@);
            assoc::lemma_distinct(self@.task_uris, gid@, seq![source@]);
            assoc::lemma_distinct(self@.task_options, gid@, task_options@);
        }
        self.repo.add(task);
        assoc::insert_in(&mut self.task_uris, gid, uris);
        assoc::insert_in(&mut self.task_options, gid, task_options);
    }

    /// The peers of a torrent: the engine does not name them.
    pub fn get_peers(&self, gid: &str, limit: usize) -> (r: Vec<PeerInfo>)
        ensures
            r@.len() == 0,
    {
        Vec::new()
    }
}

/// Where a transfer comes from and with which options it is started.
#[derive(Debug, PartialEq, Eq)]
pub struct Transfer {
    pub url: String,
    pub options: EngineOptions,
}

/// What a `Transfer` stands for.
pub struct TransferView {
    pub url: Seq<char>,
    pub options: OptionsView,
}

impl DeepView for Transfer {
    type V = TransferView;

    open spec fn deep_view(&self) -> TransferView {
        TransferView { url: self.url@, options: self.options@ }
    }
}

/// The first source on record for a task.
pub open spec fn recorded_url(m: ManagerView, gid: Seq<char>) -> Option<Seq<char>> {
    match assoc::lookup(m.task_uris, gid) {
        Some(uris) => if uris.len() > 0 {
            Some(uris[0])
        } else {
            None
        },
        None => None,
    }
}

/// The options of a task that has none on record: the general ones, with the
/// directory and the file name of the task.
pub open spec fn fallback_options(global: OptionsView, task: TaskView) -> OptionsView {
    OptionsView {
        dir: task.dir,
        out: if task.files.len() > 0 {
            engine::path_name(task.files[0].path)
        } else {
            None
        },
        ..global
    }
}

/// Where a transfer comes from and with which options it is started. A task that
/// was restored has no record, and is started from what it holds itself.
pub open spec fn transfer_of(m: ManagerView, gid: Seq<char>) -> Result<TransferView, Seq<char>> {
    let url = recorded_url(m, gid);
    let on_record = assoc::lookup(m.task_options, gid);
    if url is Some && on_record is Some {
        Ok(TransferView { url: url->0, options: on_record->0 })
    } else {
        match m.repo.task(gid) {
            None => Err(no_such_task(gid)),
            Some(task) => if url is None && engine::task_source(task) is None {
                Err("任务 "@ + gid + " 缺少源 URL（task_uris 未登记且任务 files 为空）"@)
            } else {
                Ok(
                    TransferView {
                        url: match url {
                            Some(url) => url,
                            None => (engine::task_source(task)->0).0,
                        },
                        options: match on_record {
                            Some(o) => o,
                            None => fallback_options(m.global, task),
                        },
                    },
                )
            },
        }
    }
}

impl TaskManager {
    /// The first source on record for a task.
    fn recorded(&self, gid: &str) -> (r: Option<String>)
        ensures
            r.deep_view() == recorded_url(self@, gid@),
    {
        match assoc::lookup_in(&self.task_uris, gid) {
            Some(uris) => if uris.len() > 0 {
                Some(uris[0].clone())
            } else {
                None
            },
            None => None,
        }
    }

    /// The options on record for a task.
    fn recorded_options(&self, gid: &str) -> (r: Option<EngineOptions>)
        ensures
            r.deep_view() == assoc::lookup(self@.task_options, gid@),
    {
        match assoc::lookup_in(&self.task_options, gid) {
            Some(o) => Some(o.clone()),
            None => None,
        }
    }

    /// Where a transfer comes from and with which options it is started.
    pub fn transfer(&self, gid: &str) -> (r: Result<Transfer, String>)
        ensures
            match r {
                Ok(t) => transfer_of(self@, gid@) == Ok::<TransferView, Seq<char>>(t.deep_view()),
                Err(e) => transfer_of(self@, gid@) == Err::<TransferView, Seq<char>>(e@),
            },
    {
        let url = self.recorded(gid);
        let on_record = self.recorded_options(gid);
        match (url, on_record) {
            (Some(url), Some(o)) => Ok(Transfer { url, options: o }),
            (url, on_record) => {
                let task = match self.repo.get(gid) {
                    Some(task) => task,
                    None => {
                        return Err(text::join2("任务不存在: ", gid));
                    },
                };
                let url = match url {
                    Some(url) => url,
                    None => match engine::source_of(task) {
                        Some((uri, _)) => uri,
                        None => {
                            return Err(
                                text::join3(
                                    "任务 ",
                                    gid,
                                    " 缺少源 URL（task_uris 未登记且任务 files 为空）",
                                ),
                            );
                        },
                    },
                };
                let o = match on_record {
                    Some(o) => o,
                    None => {
                        let mut base = self.global.clone();
                        base.dir = task.dir.clone();
                        base.out = if task.files.len() > 0 {
                            engine::name_of_path(task.files[0].path.as_str())
                        } else {
                            None
                        };
                        base
                    },
                };
                Ok(Transfer { url, options: o })
            },
        }
    }

    /// The options that the BitTorrent engine is started with for a task.
    pub fn bt_session_options(&self, gid: &str) -> (r: EngineOptions)
        ensures
            r@ == (match assoc::lookup(self@.task_options, gid@) {
                Some(o) => o,
                None => self@.global,
            }),
    {
        match self.recorded_options(gid) {
            Some(o) => o,
            None => self.global.clone(),
        }
    }

    /// Where a torrent comes from and what the engine is told of it, for a torrent
    /// that the engine does not hold.
    pub fn torrent_source(&self, gid: &str) -> (r: Result<(String, BtAddOptions), String>)
        ensures
            match self@.repo.task(gid@) {
                None => r matches Err(e) && e@ == no_such_task(gid@),
                Some(task) => match engine::task_source(task) {
                    None => r matches Err(e) && e@ == "BT 任务 "@ + gid@
                        + " 缺少源（files 为空）"@,
                    Some((uri, _)) => r matches Ok((source, add)) && source@ == uri && adds_as(
                        add,
                        task.dir,
                        match assoc::lookup(self@.task_options, gid@) {
                            Some(o) => o,
                            None => options::initial_options(),
                        },
                    ),
                },
            },
    {
        let task = match self.repo.get(gid) {
            Some(task) => task,
            None => {
                return Err(text::join2("任务不存在: ", gid));
            },
        };
        let source = match engine::source_of(task) {
            Some((uri, _)) => uri,
            None => {
                return Err(text::join3("BT 任务 ", gid, " 缺少源（files 为空）"));
            },
        };
        let o = match self.recorded_options(gid) {
            Some(o) => o,
            None => EngineOptions::default(),
        };
        Ok((source, add_options(task.dir.as_str(), &o)))
    }
}

/// The engine that a transfer is first tried on.
pub fn preferred_engine(url: &str) -> (r: EngineKind)
    ensures
        r == (if engine::over_http(url@) {
            EngineKind::FastDown
        } else {
            EngineKind::Kget
        }),
{
    if engine::is_http_url(url) {
        EngineKind::FastDown
    } else {
        EngineKind::Kget
    }
}

/// The engine to try after one could not be started; where there is none, the
/// error of the task. Only parallel transfers have something to fall back on.
pub fn engine_after(kind: EngineKind, message: &str) -> (r: Result<EngineKind, String>)
    ensures
        match r {
            Ok(next) => kind is FastDown && next is Http,
            Err(e) => !(kind is FastDown) && e@ == "启动下载失败: "@ + message@,
        },
{
    match kind {
        EngineKind::FastDown => Ok(EngineKind::Http),
        _ => Err(text::join2("启动下载失败: ", message)),
    }
}

impl TaskManager {
    /// The bytes of a task that are there already, for a transfer that goes on
    /// behind them.
    pub fn existing_bytes(&self, gid: &str) -> (r: u64)
        ensures
            r == (match self@.repo.task(gid@) {
                Some(task) => task.completed_length,
                None => 0,
            }),
    {
        match self.repo.get(gid) {
            Some(task) => task.completed_length,
            None => 0,
        }
    }
}

/// The selection of files on record for a task.
pub open spec fn recorded_files(m: ManagerView, gid: Seq<char>) -> Option<Seq<usize>> {
    match assoc::lookup(m.task_options, gid) {
        Some(o) => o.only_files,
        None => None,
    }
}

impl TaskManager {
    /// Takes over the metadata of a torrent, which may let queued tasks start.
    pub fn bt_metadata_ready(&mut self, gid: &str, meta: &TorrentMeta)
        requires
            old(self)@.wf(),
        ensures
            final(self)@.wf(),
            final(self)@ == (match old(self)@.repo.task(gid@) {
                Some(task) => ManagerView {
                    repo: old(self)@.repo.with_task(
                        gid@,
                        engine::with_meta(task, meta@, recorded_files(old(self)@, gid@)),
                    ),
                    ..old(self)@
                },
                None => old(self)@,
            }),
    {
        let only_files: Option<Vec<usize>> = match self.recorded_options(gid) {
            Some(o) => o.only_files,
            None => None,
        };
        proof {
            if self@.repo.has(gid@) {
                lemma_own_gid(self@.repo.tasks, gid@);
                lemma_repo_change(
                    self@.repo,
                    gid@,
                    engine::with_meta(
                        self@.repo.task(gid@)->0,
                        meta@,
                        recorded_files(self@, gid@),
                    ),
                );
            }
        }
        let mut task = match self.repo.get(gid) {
            Some(task) => task.clone(),
            None => {
                return ;
            },
        };
        engine::apply_torrent_meta(&mut task, meta, &only_files);
        self.repo.add(task);
    }

    /// Takes over the metadata of a torrent that was added again, where the task
    /// still lacks it.
    pub fn apply_bt_meta_if_pending(&mut self, gid: &str, meta: &TorrentMeta)
        requires
            old(self)@.wf(),
        ensures
            final(self)@.wf(),
            final(self)@ == (match old(self)@.repo.task(gid@) {
                Some(task) => if task.bittorrent is Some && task.bittorrent->0.info_name is None {
                    ManagerView {
                        repo: old(self)@.repo.with_task(
                            gid@,
                            engine::with_meta(task, meta@, recorded_files(old(self)@, gid@)),
                        ),
                        ..old(self)@
                    }
                } else {
                    old(self)@
                },
                None => old(self)@,
            }),
    {
        let pending = match self.repo.get(gid) {
            Some(task) => match &task.bittorrent {
                Some(b) => b.info_name.is_none(),
                None => false,
            },
            None => false,
        };
        if pending {
            self.bt_metadata_ready(gid, meta);
        }
    }

    /// A magnet link could not be added.
    pub fn bt_add_failed(&mut self, gid: &str, message: &str)
        requires
            old(self)@.wf(),
        ensures
            final(self)@.wf(),
            final(self)@ == (ManagerView {
                repo: failed(old(self)@.repo, gid@, 1, message@),
                ..old(self)@
            }).with_event(gid@, "error"@),
    {
        proof {
            lemma_repo_moves(self@.repo, gid@, TaskStatus::Active, 1, message@);
        }
        self.fail_task(gid, message);
        self.emit_event(gid, "error");
    }
}

/// The files of a task, with the bytes that each has; nothing changes where their
/// number does not match.
pub open spec fn with_file_progress(
    files: Seq<TaskFileView>,
    progress: Seq<u64>,
) -> Seq<TaskFileView> {
    if files.len() == progress.len() {
        Seq::new(
            files.len(),
            |i: int|
                TaskFileView {
                    completed_length: progress[i],
                    length: if files[i].length >= progress[i] {
                        files[i].length
                    } else {
                        progress[i]
                    },
                    ..files[i]
                },
        )
    } else {
        files
    }
}

/// A torrent task with the progress that the engine reports.
pub open spec fn bt_progressed_task(task: TaskView, p: BtProgress) -> TaskView {
    let t = repository::progressed(
        task,
        p.completed,
        p.total,
        p.download_speed,
        p.upload_speed,
        p.num_seeders,
    );
    TaskView {
        upload_length: p.uploaded_bytes,
        num_seeders: p.num_seeders,
        seeder: p.seeder,
        bitfield: p.bitfield@,
        files: with_file_progress(t.files, p.file_progress@),
        ..t
    }
}

/// For how many seconds a torrent has seeded.
pub open spec fn seeded_secs(m: ManagerView, gid: Seq<char>, now_ms: u64) -> u64 {
    match assoc::lookup(m.bt_seed_started, gid) {
        Some(start) => if now_ms >= start {
            ((now_ms - start) / 1000) as u64
        } else {
            0
        },
        None => 0,
    }
}

/// Whether the limits of a seeding torrent are reached.
pub open spec fn seeding_ends(
    m: ManagerView,
    gid: Seq<char>,
    p: BtProgress,
    now_ms: u64,
) -> bool {
    let (ratio, time) = match assoc::lookup(m.task_options, gid) {
        Some(o) => (o.seed_ratio, o.seed_time),
        None => (None, None),
    };
    engine::seeding_over(ratio, time, p.uploaded_bytes, p.total, seeded_secs(m, gid, now_ms))
}

/// Whether a task keeps seeding once it has finished.
pub open spec fn keeps_seeding(m: ManagerView, gid: Seq<char>) -> bool {
    match assoc::lookup(m.task_options, gid) {
        Some(o) => o.keep_seeding,
        None => false,
    }
}

/// Whether reports of progress still count for a task in this state.
pub open spec fn torrent_live(status: Option<TaskStatus>) -> bool {
    status == Some(TaskStatus::Active) || status == Some(TaskStatus::Waiting) || status == Some(
        TaskStatus::Seeding,
    )
}

/// The end of seeding: the task is complete, and its slot is free.
pub open spec fn seeding_ended(m: ManagerView, gid: Seq<char>) -> ManagerView {
    (ManagerView {
        repo: moved(m.repo, gid, TaskStatus::Complete),
        bt_active: assoc::remove(m.bt_active, gid),
        bt_seed_started: assoc::remove(m.bt_seed_started, gid),
        ..m
    }).with_event(gid, "bt-complete"@)
}

/// `repo` with the task under `gid` seeding: one that is still queued runs for a
/// moment in between.
pub open spec fn seeding(repo: RepositoryView, gid: Seq<char>) -> RepositoryView {
    match repo.task(gid) {
        Some(task) => if task.status == TaskStatus::Waiting || task::allowed(
            task.status,
            TaskStatus::Seeding,
        ) {
            repo.with_task(gid, TaskView { status: TaskStatus::Seeding, ..task })
        } else {
            repo
        },
        None => repo,
    }
}

/// The end of the download, where the task seeds on: its seeding time starts.
pub open spec fn seeding_begun(m: ManagerView, gid: Seq<char>, now_ms: u64) -> ManagerView {
    (ManagerView {
        repo: seeding(m.repo, gid),
        bt_seed_started: if assoc::has(m.bt_seed_started, gid) {
            m.bt_seed_started
        } else {
            m.bt_seed_started.push((gid, now_ms))
        },
        bt_done: assoc::insert(m.bt_done, gid, ()),
        ..m
    }).with_event(gid, "complete"@)
}

/// The end of the download, where the task does not seed: it is complete, and its
/// slot is free.
pub open spec fn torrent_completed(m: ManagerView, gid: Seq<char>) -> ManagerView {
    (ManagerView {
        repo: moved(m.repo, gid, TaskStatus::Complete),
        bt_active: assoc::remove(m.bt_active, gid),
        bt_done: assoc::insert(m.bt_done, gid, ()),
        ..m
    }).with_event(gid, "complete"@).with_event(gid, "bt-complete"@)
}

/// What a report of progress makes of the manager.
pub open spec fn bt_progressed(
    m: ManagerView,
    gid: Seq<char>,
    p: BtProgress,
    now_ms: u64,
) -> ManagerView {
    if torrent_live(m.status(gid)) {
        let task = bt_progressed_task(m.repo.task(gid)->0, p);
        let n = ManagerView { repo: m.repo.with_task(gid, task), ..m };
        if task.status == TaskStatus::Seeding && seeding_ends(m, gid, p, now_ms) {
            seeding_ended(n, gid)
        } else if p.finished && !assoc::has(m.bt_done, gid) {
            if keeps_seeding(m, gid) {
                seeding_begun(n, gid, now_ms)
            } else {
                torrent_completed(n, gid)
            }
        } else {
            n
        }
    } else {
        m
    }
}

/// Whether a report of progress frees a slot.
pub open spec fn bt_frees_slot(
    m: ManagerView,
    gid: Seq<char>,
    p: BtProgress,
    now_ms: u64,
) -> bool {
    torrent_live(m.status(gid)) && if m.status(gid) == Some(TaskStatus::Seeding) && seeding_ends(
        m,
        gid,
        p,
        now_ms,
    ) {
        true
    } else {
        p.finished && !assoc::has(m.bt_done, gid) && !keeps_seeding(m, gid)
    }
}

/// Takes over the progress of a torrent task.
fn apply_bt_progress(task: &mut Task, p: &BtProgress)
    ensures
        ({
            let t = old(task)@;
            final(task)@ == TaskView {
                upload_length: p.uploaded_bytes,
                num_seeders: p.num_seeders,
                seeder: p.seeder,
                bitfield: p.bitfield@,
                files: with_file_progress(t.files, p.file_progress@),
                ..t
            }
        }),
{
    task.upload_length = p.uploaded_bytes;
    task.num_seeders = p.num_seeders;
    task.seeder = p.seeder;
    task.bitfield = p.bitfield.clone();
    let ghost before = task.files.deep_view();
    let ghost whole = with_file_progress(before, p.file_progress@);
    if task.files.len() == p.file_progress.len() {
        let mut i: usize = 0;
        while i < task.files.len()
            invariant
                i <= task.files@.len(),
                task.files@.len() == p.file_progress@.len(),
                before.len() == task.files@.len(),
                whole == with_file_progress(before, p.file_progress@),
                forall|j: int| 0 <= j < i ==> (#[trigger] task.files@[j])@ == whole[j],
                forall|j: int|
                    i <= j < task.files@.len() ==> (#[trigger] task.files@[j])@ == before[j],
                *task == (Task { files: task.files, ..*task }),
                task.upload_length == p.uploaded_bytes,
                task.num_seeders == p.num_seeders,
                task.seeder == p.seeder,
                task.bitfield@ == p.bitfield@,
                task@ == (TaskView {
                    upload_length: p.uploaded_bytes,
                    num_seeders: p.num_seeders,
                    seeder: p.seeder,
                    bitfield: p.bitfield@,
                    files: task.files.deep_view(),
                    ..old(task)@
                }),
            decreases task.files@.len() - i,
        {
            let done: u64 = p.file_progress[i];
            proof {
                assert(task.files@[i as int]@ == before[i as int]);
            }
            task.files[i].completed_length = done;
            if task.files[i].length < done {
                task.files[i].length = done;
            }
            proof {
                assert(task.files@[i as int]@ == whole[i as int]);
            }
            i += 1;
        }
        proof {
            assert(task.files.deep_view() =~= whole);
        }
    }
}

impl TaskManager {
    /// Ends the seeding of a torrent.
    fn end_seeding(&mut self, gid: &str)
        requires
            old(self)@.wf(),
        ensures
            final(self)@.wf(),
            final(self)@ == seeding_ended(old(self)@, gid@),
    {
        proof {
            lemma_repo_moves(self@.repo, gid@, TaskStatus::Complete, 1, seq![]);
            assoc::lemma_distinct(self@.bt_active, gid@, ());
            assoc::lemma_distinct(self@.bt_seed_started, gid@, 0);
        }
        self.move_task(gid, TaskStatus::Complete);
        self.emit_event(gid, "bt-complete");
        let _ = assoc::remove_in(&mut self.bt_active, gid);
        let _ = assoc::remove_in(&mut self.bt_seed_started, gid);
    }

    /// Begins the seeding of a torrent.
    fn begin_seeding(&mut self, gid: &str, now_ms: u64)
        requires
            old(self)@.wf(),
        ensures
            final(self)@.wf(),
            final(self)@ == seeding_begun(old(self)@, gid@, now_ms),
    {
        let ghost before = self@.repo;
        proof {
            assoc::lemma_distinct(self@.bt_done, gid@, ());
            assoc::lemma_distinct(self@.bt_seed_started, gid@, now_ms);
        }
        if let Some(TaskStatus::Waiting) = self.status_of(gid) {
            proof {
                lemma_repo_moves(before, gid@, TaskStatus::Active, 1, seq![]);
                let task = before.task(gid@)->0;
                let runs = TaskView { status: TaskStatus::Active, ..task };
                let seeds = TaskView { status: TaskStatus::Seeding, ..task };
                assoc::lemma_lookup_insert(before.tasks, gid@, runs, gid@);
                lemma_insert_twice(before.tasks, gid@, runs, seeds);
            }
            self.move_task(gid, TaskStatus::Active);
        }
        proof {
            lemma_repo_moves(self@.repo, gid@, TaskStatus::Seeding, 1, seq![]);
        }
        self.move_task(gid, TaskStatus::Seeding);
        proof {
            assert(self@.repo == seeding(before, gid@));
        }
        if !assoc::has_key(&self.bt_seed_started, gid) {
            assoc::insert_in(&mut self.bt_seed_started, gid, now_ms);
        }
        self.emit_event(gid, "complete");
        assoc::insert_in(&mut self.bt_done, gid, ());
    }

    /// Completes a torrent.
    fn complete_torrent(&mut self, gid: &str)
        requires
            old(self)@.wf(),
        ensures
            final(self)@.wf(),
            final(self)@ == torrent_completed(old(self)@, gid@),
    {
        proof {
            lemma_repo_moves(self@.repo, gid@, TaskStatus::Complete, 1, seq![]);
            assoc::lemma_distinct(self@.bt_done, gid@, ());
            assoc::lemma_distinct(self@.bt_active, gid@, ());
        }
        self.move_task(gid, TaskStatus::Complete);
        self.emit_event(gid, "complete");
        self.emit_event(gid, "bt-complete");
        let _ = assoc::remove_in(&mut self.bt_active, gid);
        assoc::insert_in(&mut self.bt_done, gid, ());
    }

    /// Whether the limits of a seeding torrent are reached.
    fn seeding_is_over(&self, gid: &str, p: &BtProgress, now_ms: u64) -> (r: bool)
        ensures
            r == seeding_ends(self@, gid@, *p, now_ms),
    {
        let (ratio, time): (Option<u64>, Option<u32>) = match assoc::lookup_in(
            &self.task_options,
            gid,
        ) {
            Some(o) => (o.seed_ratio, o.seed_time),
            None => (None, None),
        };
        let elapsed: u64 = match assoc::lookup_in(&self.bt_seed_started, gid) {
            Some(start) => if now_ms >= *start {
                (now_ms - *start) / 1000
            } else {
                0
            },
            None => 0,
        };
        engine::seeding_limit_reached(ratio, time, p.uploaded_bytes, p.total, elapsed)
    }

    /// Takes over a report of progress of a torrent at the given moment. The
    /// result says whether a slot has become free.
    pub fn bt_update_progress(&mut self, gid: &str, p: &BtProgress, now_ms: u64) -> (r: bool)
        requires
            old(self)@.wf(),
        ensures
            final(self)@.wf(),
            final(self)@ == bt_progressed(old(self)@, gid@, *p, now_ms),
            r == bt_frees_slot(old(self)@, gid@, *p, now_ms),
    {
        let seeding = match self.status_of(gid) {
            Some(TaskStatus::Active) | Some(TaskStatus::Waiting) => false,
            Some(TaskStatus::Seeding) => true,
            _ => {
                return false;
            },
        };
        let keep = match assoc::lookup_in(&self.task_options, gid) {
            Some(o) => o.keep_seeding,
            None => false,
        };
        let over = seeding && self.seeding_is_over(gid, p, now_ms);
        let ghost m = self@;
        let ghost t0 = m.repo.task(gid@)->0;
        let ghost t1 = repository::progressed(
            t0,
            p.completed,
            p.total,
            p.download_speed,
            p.upload_speed,
            p.num_seeders,
        );
        let ghost t2 = bt_progressed_task(t0, *p);
        proof {
            lemma_own_gid(m.repo.tasks, gid@);
            lemma_repo_change(m.repo, gid@, t1);
            lemma_repo_change(m.repo, gid@, t2);
            assoc::lemma_lookup_insert(m.repo.tasks, gid@, t1, gid@);
            assoc::lemma_lookup_insert(m.repo.tasks, gid@, t2, gid@);
            lemma_insert_twice(m.repo.tasks, gid@, t1, t2);
        }
        let _ = self.repo.update_progress(
            gid,
            p.completed,
            p.total,
            p.download_speed,
            p.upload_speed,
            p.num_seeders,
        );
        if let Some(task) = self.repo.get_mut(gid) {
            apply_bt_progress(task, p);
        }
        proof {
            assert(self@.repo == m.repo.with_task(gid@, t2));
        }
        if over {
            self.end_seeding(gid);
            return true;
        }
        if p.finished && !assoc::has_key(&self.bt_done, gid) {
            if keep {
                self.begin_seeding(gid, now_ms);
                return false;
            }
            self.complete_torrent(gid);
            return true;
        }
        false
    }
}

/// What was inserted last stays.
proof fn lemma_insert_twice<V>(table: Seq<(Seq<char>, V)>, key: Seq<char>, a: V, b: V)
    ensures
        assoc::insert(assoc::insert(table, key, a), key, b) == assoc::insert(table, key, b),
{
    assoc::lemma_index_of(table, key);
    let once = assoc::insert(table, key, a);
    let k = assoc::index_of(table, key);
    assert forall|j: int| 0 <= j < k implies (#[trigger] once[j]).0 != key by {
        assert(once[j] == table[j]);
    }
    assoc::lemma_index_is(once, key, k);
    assert(assoc::insert(once, key, b) =~= assoc::insert(table, key, b));
}

/// Whether reports of an engine still count for a task in this state.
pub open spec fn transfer_live(status: Option<TaskStatus>) -> bool {
    status == Some(TaskStatus::Active) || status == Some(TaskStatus::Waiting)
}

/// The bytes that a task has, from the share of its length that an engine
/// reports: never more than its length; unchanged where that is not known.
pub open spec fn reported_bytes(task: TaskView, share: u64) -> u64 {
    if task.total_length > 0 {
        if share <= double::held(task.total_length as nat) {
            share
        } else {
            double::held(task.total_length as nat) as u64
        }
    } else {
        task.completed_length
    }
}

/// Whether a new speed is computed: a tenth of a second after the last one.
pub open spec fn sample_due(last: Sample, now_ms: u64) -> bool {
    now_ms >= last.at_ms + 100
}

/// The bytes that came since the last sample.
pub open spec fn gained(last: Sample, completed: u64) -> nat {
    if completed >= last.completed {
        (completed - last.completed) as nat
    } else {
        0
    }
}

/// The speed that a report gives, in bytes per second: what came since the last
/// sample over the time since then; the old speed where there is no sample yet or
/// the last one is fresh; the engine's own figure where the length is not known.
pub open spec fn reported_speed(
    m: ManagerView,
    gid: Seq<char>,
    task: TaskView,
    completed: u64,
    speed: u64,
    now_ms: u64,
) -> u64 {
    if task.total_length > 0 {
        match assoc::lookup(m.speed_samples, gid) {
            Some(last) => if sample_due(last, now_ms) {
                (gained(last, completed) * 1000 / ((now_ms - last.at_ms) as nat)) as u64
            } else {
                task.download_speed
            },
            None => task.download_speed,
        }
    } else {
        speed
    }
}

/// The samples after a report: a first one, or a new one where the last was old.
pub open spec fn samples_after(
    m: ManagerView,
    gid: Seq<char>,
    task: TaskView,
    completed: u64,
    now_ms: u64,
) -> Seq<(Seq<char>, Sample)> {
    let sample = Sample { completed, at_ms: now_ms };
    if task.total_length > 0 {
        match assoc::lookup(m.speed_samples, gid) {
            Some(last) => if sample_due(last, now_ms) {
                assoc::insert(m.speed_samples, gid, sample)
            } else {
                m.speed_samples
            },
            None => assoc::insert(m.speed_samples, gid, sample),
        }
    } else {
        m.speed_samples
    }
}

/// At least one connection.
pub open spec fn some_connection(n: u32) -> u32 {
    if n == 0 {
        1
    } else {
        n
    }
}

/// What a report of progress of an engine makes of the manager.
pub open spec fn transferred(
    m: ManagerView,
    gid: Seq<char>,
    share: u64,
    speed: u64,
    now_ms: u64,
) -> ManagerView {
    if transfer_live(m.status(gid)) {
        let task = m.repo.task(gid)->0;
        let completed = reported_bytes(task, share);
        ManagerView {
            repo: m.repo.with_task(
                gid,
                repository::progressed(
                    task,
                    completed,
                    task.total_length,
                    reported_speed(m, gid, task, completed, speed, now_ms),
                    0,
                    some_connection(task.connections),
                ),
            ),
            speed_samples: samples_after(m, gid, task, completed, now_ms),
            ..m
        }
    } else {
        m
    }
}

/// Whether the speed that a report gives can be computed: a thousand times the
/// bytes that came since the last sample fit in 64 bits.
pub open spec fn speed_computable(
    m: ManagerView,
    gid: Seq<char>,
    share: u64,
    now_ms: u64,
) -> bool {
    transfer_live(m.status(gid)) && m.repo.task(gid)->0.total_length > 0 ==> match assoc::lookup(
        m.speed_samples,
        gid,
    ) {
        Some(last) => sample_due(last, now_ms) ==> gained(
            last,
            reported_bytes(m.repo.task(gid)->0, share),
        ) * 1000 <= u64::MAX,
        None => true,
    }
}

/// A share of a length that is known, never more than the length.
fn held_share(total: u64, share: u64) -> (r: u64)
    ensures
        r == (if share <= double::held(total as nat) {
            share
        } else {
            double::held(total as nat) as u64
        }),
{
    let bound: u128 = double::hold(total as u128);
    if share as u128 <= bound {
        share
    } else {
        bound as u64
    }
}

/// A task that an engine has finished: complete, all bytes there, no speed.
pub open spec fn finished_task(task: TaskView, disk_size: Option<u64>) -> TaskView {
    let n = engine::finished_length(task, disk_size);
    TaskView {
        status: TaskStatus::Complete,
        ..repository::progressed(task, n, n, 0, 0, some_connection(task.connections))
    }
}

impl TaskManager {
    /// An engine has started: it holds one connection.
    pub fn handle_started(&mut self, gid: &str)
        requires
            old(self)@.wf(),
        ensures
            final(self)@.wf(),
            final(self)@ == (if transfer_live(old(self)@.status(gid@)) {
                let task = old(self)@.repo.task(gid@)->0;
                ManagerView {
                    repo: old(self)@.repo.with_task(
                        gid@,
                        repository::progressed(
                            task,
                            task.completed_length,
                            task.total_length,
                            task.download_speed,
                            task.upload_speed,
                            1,
                        ),
                    ),
                    ..old(self)@
                }
            } else {
                old(self)@
            }),
    {
        let (completed, total, d_speed, u_speed): (u64, u64, u64, u64) = match self.repo.get(gid) {
            Some(task) => {
                match task.status {
                    TaskStatus::Active | TaskStatus::Waiting => {},
                    _ => {
                        return ;
                    },
                }
                (
                    task.completed_length,
                    task.total_length,
                    task.download_speed,
                    task.upload_speed,
                )
            },
            None => {
                return ;
            },
        };
        proof {
            lemma_own_gid(self@.repo.tasks, gid@);
            lemma_repo_change(
                self@.repo,
                gid@,
                repository::progressed(
                    self@.repo.task(gid@)->0,
                    completed,
                    total,
                    d_speed,
                    u_speed,
                    1,
                ),
            );
        }
        let _ = self.repo.update_progress(gid, completed, total, d_speed, u_speed, 1);
    }

    /// Whether the speed that a report of progress gives can be computed.
    pub fn can_report(&self, gid: &str, share: u64, now_ms: u64) -> (r: bool)
        ensures
            r == speed_computable(self@, gid@, share, now_ms),
    {
        let total: u64 = match self.repo.get(gid) {
            Some(task) => match task.status {
                TaskStatus::Active | TaskStatus::Waiting => task.total_length,
                _ => 0,
            },
            None => 0,
        };
        if total == 0 {
            return true;
        }
        let completed: u64 = held_share(total, share);
        match assoc::lookup_in(&self.speed_samples, gid) {
            Some(last) => now_ms < last.at_ms || now_ms - last.at_ms < 100 || completed
                <= last.completed || completed - last.completed <= u64::MAX / 1000,
            None => true,
        }
    }

    /// An engine reports progress: `share` is the part of the length that is
    /// there, in bytes, as far as the length is known.
    pub fn handle_progress(&mut self, gid: &str, share: u64, speed: u64, now_ms: u64)
        requires
            old(self)@.wf(),
            speed_computable(old(self)@, gid@, share, now_ms),
        ensures
            final(self)@.wf(),
            final(self)@ == transferred(old(self)@, gid@, share, speed, now_ms),
    {
        let ghost m = self@;
        let (total, before, old_speed, connections): (u64, u64, u64, u32) = match self.repo.get(
            gid,
        ) {
            Some(task) => {
                match task.status {
                    TaskStatus::Active | TaskStatus::Waiting => {},
                    _ => {
                        return ;
                    },
                }
                (
                    task.total_length,
                    task.completed_length,
                    task.download_speed,
                    if task.connections == 0 {
                        1
                    } else {
                        task.connections
                    },
                )
            },
            None => {
                return ;
            },
        };
        let completed: u64 = if total > 0 {
            held_share(total, share)
        } else {
            before
        };
        let ghost task = m.repo.task(gid@)->0;
        let last: Option<Sample> = match assoc::lookup_in(&self.speed_samples, gid) {
            Some(last) => Some(*last),
            None => None,
        };
        let sample = Sample { completed, at_ms: now_ms };
        proof {
            assoc::lemma_distinct(m.speed_samples, gid@, sample);
        }
        let new_speed: u64 = if total > 0 {
            match last {
                Some(last) => {
                    if now_ms >= last.at_ms && now_ms - last.at_ms >= 100 {
                        let gain: u64 = if completed >= last.completed {
                            completed - last.completed
                        } else {
                            0
                        };
                        let dt: u64 = now_ms - last.at_ms;
                        assoc::insert_in(&mut self.speed_samples, gid, sample);
                        gain * 1000 / dt
                    } else {
                        old_speed
                    }
                },
                None => {
                    assoc::insert_in(&mut self.speed_samples, gid, sample);
                    old_speed
                },
            }
        } else {
            speed
        };
        proof {
            lemma_own_gid(m.repo.tasks, gid@);
            lemma_repo_change(
                m.repo,
                gid@,
                repository::progressed(task, completed, total, new_speed, 0, connections),
            );
        }
        let _ = self.repo.update_progress(gid, completed, total, new_speed, 0, connections);
    }

    /// An engine has finished. `disk_size` is the length of the first file of the
    /// task on disk. The result says whether a slot has become free.
    pub fn handle_finished(&mut self, gid: &str, disk_size: Option<u64>) -> (r: bool)
        requires
            old(self)@.wf(),
        ensures
            final(self)@.wf(),
            r == transfer_live(old(self)@.status(gid@)),
            final(self)@ == (if transfer_live(old(self)@.status(gid@)) {
                (ManagerView {
                    repo: old(self)@.repo.with_task(
                        gid@,
                        finished_task(old(self)@.repo.task(gid@)->0, disk_size),
                    ),
                    active: assoc::remove(old(self)@.active, gid@),
                    speed_samples: assoc::remove(old(self)@.speed_samples, gid@),
                    ..old(self)@
                }).with_event(gid@, "complete"@)
            } else {
                old(self)@
            }),
    {
        let ghost m = self@;
        let (bytes, connections): ((u64, u64), u32) = match self.repo.get(gid) {
            Some(task) => {
                match task.status {
                    TaskStatus::Active | TaskStatus::Waiting => {},
                    _ => {
                        return false;
                    },
                }
                (
                    engine::resolve_finished_bytes(task, disk_size),
                    if task.connections == 0 {
                        1
                    } else {
                        task.connections
                    },
                )
            },
            None => {
                return false;
            },
        };
        let ghost task = m.repo.task(gid@)->0;
        let ghost t1 = repository::progressed(task, bytes.0, bytes.1, 0, 0, connections);
        let ghost t2 = TaskView { status: TaskStatus::Complete, ..t1 };
        proof {
            lemma_own_gid(m.repo.tasks, gid@);
            lemma_repo_change(m.repo, gid@, t1);
            lemma_repo_change(m.repo, gid@, t2);
            assoc::lemma_lookup_insert(m.repo.tasks, gid@, t1, gid@);
            lemma_insert_twice(m.repo.tasks, gid@, t1, t2);
            assoc::lemma_distinct(m.active, gid@, EngineKind::Http);
            assoc::lemma_distinct(m.speed_samples, gid@, (Sample { completed: 0, at_ms: 0 }));
        }
        let _ = self.repo.update_progress(gid, bytes.0, bytes.1, 0, 0, connections);
        self.move_task(gid, TaskStatus::Complete);
        self.emit_event(gid, "complete");
        let _ = assoc::remove_in(&mut self.active, gid);
        let _ = assoc::remove_in(&mut self.speed_samples, gid);
        true
    }

    /// An engine has failed. The result says whether a slot has become free.
    pub fn handle_failed(&mut self, gid: &str, message: &str) -> (r: bool)
        requires
            old(self)@.wf(),
        ensures
            final(self)@.wf(),
            r == transfer_live(old(self)@.status(gid@)),
            final(self)@ == (if transfer_live(old(self)@.status(gid@)) {
                (ManagerView {
                    repo: failed(old(self)@.repo, gid@, 1, message@),
                    active: assoc::remove(old(self)@.active, gid@),
                    speed_samples: assoc::remove(old(self)@.speed_samples, gid@),
                    ..old(self)@
                }).with_event(gid@, "error"@)
            } else {
                old(self)@
            }),
    {
        match self.status_of(gid) {
            Some(TaskStatus::Active) | Some(TaskStatus::Waiting) => {},
            _ => {
                return false;
            },
        }
        proof {
            lemma_repo_moves(self@.repo, gid@, TaskStatus::Active, 1, message@);
            assoc::lemma_distinct(self@.active, gid@, EngineKind::Http);
            assoc::lemma_distinct(
                self@.speed_samples,
                gid@,
                (Sample { completed: 0, at_ms: 0 }),
            );
        }
        self.fail_task(gid, message);
        self.emit_event(gid, "error");
        let _ = assoc::remove_in(&mut self.active, gid);
        let _ = assoc::remove_in(&mut self.speed_samples, gid);
        true
    }

    /// A copy of the task under a gid.
    pub fn get(&self, gid: &str) -> (r: Option<Task>)
        ensures
            r.deep_view() == self@.repo.task(gid@),
    {
        match self.repo.get(gid) {
            Some(task) => Some(task.clone()),
            None => None,
        }
    }

    /// Empties the history of removed tasks.
    pub fn purge(&mut self)
        requires
            old(self)@.wf(),
        ensures
            final(self)@.wf(),
            final(self)@ == (ManagerView {
                repo: RepositoryView { removed: seq![], ..old(self)@.repo },
                ..old(self)@
            }),
    {
        self.repo.purge_removed();
    }

    /// Task counts, and the speeds of the transferring tasks in sum.
    pub fn global_stat(&self) -> (r: GlobalStat)
        requires
            self@.wf(),
            repository::download_total(self@.repo.tasks) <= u64::MAX,
            repository::upload_total(self@.repo.tasks) <= u64::MAX,
        ensures
            r.download_speed == repository::download_total(self@.repo.tasks),
            r.upload_speed == repository::upload_total(self@.repo.tasks),
            r.num_active == repository::members(self@.repo.tasks, Group::Active).len(),
            r.num_waiting == repository::members(self@.repo.tasks, Group::Waiting).len(),
            r.num_stopped == self@.repo.stopped().len(),
    {
        self.repo.global_stat()
    }

    /// The events that are still to be sent, oldest first.
    pub fn take_events(&mut self) -> (r: Vec<TaskEvent>)
        requires
            old(self)@.wf(),
        ensures
            final(self)@.wf(),
            r.deep_view() == old(self)@.events,
            final(self)@ == (ManagerView { events: seq![], ..old(self)@ }),
    {
        let mut out: Vec<TaskEvent> = Vec::new();
        std::mem::swap(&mut out, &mut self.events);
        proof {
            assert(self.events.deep_view() =~= seq![]);
        }
        out
    }

    /// Notes that the BitTorrent engine has been started.
    pub fn bt_engine_started(&mut self)
        requires
            old(self)@.wf(),
        ensures
            final(self)@.wf(),
            final(self)@ == (ManagerView { bt_ready: true, ..old(self)@ }),
    {
        self.bt_ready = true;
    }
}

/// Starting a task that was chosen to run, or that is resumed, never takes the
/// running tasks over the limit.
pub proof fn law_slots_bounded(m: ManagerView, gid: Seq<char>, kind: EngineKind)
    requires
        m.has_slot() || resume_plan(m, gid) != ResumePlan::Nothing,
    ensures
        assoc::insert(m.active, gid, kind).len() + m.bt_active.len() <= m.max_concurrent,
        m.active.len() + assoc::insert(m.bt_active, gid, ()).len() <= m.max_concurrent,
{
    assoc::lemma_index_of(m.active, gid);
    assoc::lemma_index_of(m.bt_active, gid);
}

/// Reports that come late, for a task that is neither running nor queued, change
/// nothing; a torrent that seeds is the one exception.
pub proof fn law_late_reports_ignored(
    m: ManagerView,
    gid: Seq<char>,
    share: u64,
    speed: u64,
    p: BtProgress,
    now_ms: u64,
)
    requires
        !transfer_live(m.status(gid)),
    ensures
        transferred(m, gid, share, speed, now_ms) == m,
        m.status(gid) != Some(TaskStatus::Seeding) ==> bt_progressed(m, gid, p, now_ms) == m,
{
}

/// The completion of a torrent is announced once: after a report that says so, no
/// later report announces it again.
pub proof fn law_completion_announced_once(
    m: ManagerView,
    gid: Seq<char>,
    p: BtProgress,
    now_ms: u64,
    q: BtProgress,
    later_ms: u64,
)
    requires
        torrent_live(m.status(gid)),
        p.finished,
        !(m.status(gid) == Some(TaskStatus::Seeding) && seeding_ends(m, gid, p, now_ms)),
    ensures
        ({
            let n = bt_progressed(m, gid, p, now_ms);
            let last = bt_progressed(n, gid, q, later_ms).events;
            &&& assoc::has(n.bt_done, gid)
            &&& last.len() <= n.events.len() + 1
            &&& last.len() == n.events.len() + 1 ==> last.last() == (gid, "bt-complete"@)
        }),
{
    assoc::lemma_lookup_insert(m.bt_done, gid, (), gid);
}

/// A torrent that is there and is to seed on seeds from then on, whether it was
/// running or queued: it keeps its slot, the moment is on record, and its completion
/// alone is announced.
pub proof fn law_finished_torrent_seeds(
    m: ManagerView,
    gid: Seq<char>,
    p: BtProgress,
    now_ms: u64,
)
    requires
        transfer_live(m.status(gid)),
        keeps_seeding(m, gid),
        p.finished,
        !assoc::has(m.bt_done, gid),
    ensures
        ({
            let n = bt_progressed(m, gid, p, now_ms);
            &&& n.status(gid) == Some(TaskStatus::Seeding)
            &&& n.bt_active == m.bt_active
            &&& assoc::has(n.bt_seed_started, gid)
            &&& n.events == m.events.push((gid, "complete"@))
        }),
{
    let task = bt_progressed_task(m.repo.task(gid)->0, p);
    let first = assoc::insert(m.repo.tasks, gid, task);
    assoc::lemma_lookup_insert(m.repo.tasks, gid, task, gid);
    assoc::lemma_lookup_insert(
        first,
        gid,
        TaskView { status: TaskStatus::Seeding, ..task },
        gid,
    );
    assoc::lemma_lookup_insert(m.bt_seed_started, gid, now_ms, gid);
}

/// A task that was paused and has room runs again, and one without room waits.
pub proof fn law_pause_then_resume(m: ManagerView, gid: Seq<char>)
    requires
        m.wf(),
        transfer_live(m.status(gid)),
    ensures
        paused(m, gid).status(gid) == Some(TaskStatus::Paused),
        resumed(paused(m, gid), gid).status(gid) == Some(
            if paused(m, gid).has_slot() {
                TaskStatus::Active
            } else {
                TaskStatus::Waiting
            },
        ),
{
    let task = m.repo.task(gid)->0;
    let p = paused(m, gid);
    let stopped = TaskView { status: TaskStatus::Paused, ..task };
    assoc::lemma_lookup_insert(m.repo.tasks, gid, stopped, gid);
    let status = if p.has_slot() {
        TaskStatus::Active
    } else {
        TaskStatus::Waiting
    };
    assoc::lemma_lookup_insert(p.repo.tasks, gid, TaskView { status, ..stopped }, gid);
}

/// A request for one task leaves every other task as it was.
pub proof fn law_other_tasks_untouched(
    m: ManagerView,
    gid: Seq<char>,
    other: Seq<char>,
    status: TaskStatus,
    code: i32,
    message: Seq<char>,
)
    requires
        m.wf(),
        other != gid,
    ensures
        moved(m.repo, gid, status).task(other) == m.repo.task(other),
        failed(m.repo, gid, code, message).task(other) == m.repo.task(other),
        m.repo.without_task(gid).task(other) == m.repo.task(other),
        paused(m, gid).repo.task(other) == m.repo.task(other),
        resumed(m, gid).repo.task(other) == m.repo.task(other),
{
    if m.repo.has(gid) {
        let task = m.repo.task(gid)->0;
        assoc::lemma_lookup_insert(m.repo.tasks, gid, TaskView { status, ..task }, other);
        assoc::lemma_lookup_insert(
            m.repo.tasks,
            gid,
            TaskView { status: TaskStatus::Paused, ..task },
            other,
        );
        assoc::lemma_lookup_insert(
            m.repo.tasks,
            gid,
            TaskView { status: TaskStatus::Active, ..task },
            other,
        );
        assoc::lemma_lookup_insert(
            m.repo.tasks,
            gid,
            TaskView { status: TaskStatus::Waiting, ..task },
            other,
        );
        assoc::lemma_lookup_insert(
            m.repo.tasks,
            gid,
            TaskView {
                status: TaskStatus::Error,
                error_code: Some(code),
                error_message: Some(message),
                ..task
            },
            other,
        );
        assoc::lemma_lookup_remove(m.repo.tasks, gid, other);
    }
}

/// A task that was removed leaves nothing behind: it is not on the books, it runs
/// nowhere, and nothing is on record of it.
pub proof fn law_removed_task_is_gone(m: ManagerView, gid: Seq<char>)
    requires
        m.wf(),
        m.repo.has(gid),
    ensures
        !m.is_bt(gid) ==> ({
            let n = removed(forgotten(released(m, gid), gid), gid);
            &&& n.repo.task(gid) is None
            &&& assoc::lookup(n.active, gid) is None
            &&& assoc::lookup(n.task_uris, gid) is None
            &&& assoc::lookup(n.task_options, gid) is None
            &&& assoc::lookup(n.speed_samples, gid) is None
        }),
        m.is_bt(gid) ==> ({
            let n = removed(torrent_forgotten(m, gid), gid);
            &&& n.repo.task(gid) is None
            &&& assoc::lookup(n.bt_active, gid) is None
            &&& assoc::lookup(n.task_uris, gid) is None
            &&& assoc::lookup(n.task_options, gid) is None
            &&& assoc::lookup(n.bt_done, gid) is None
            &&& assoc::lookup(n.bt_seed_started, gid) is None
        }),
{
    assoc::lemma_lookup_remove(m.repo.tasks, gid, gid);
    assoc::lemma_lookup_remove(m.active, gid, gid);
    assoc::lemma_lookup_remove(m.task_uris, gid, gid);
    assoc::lemma_lookup_remove(m.task_options, gid, gid);
    assoc::lemma_lookup_remove(m.speed_samples, gid, gid);
    assoc::lemma_lookup_remove(m.bt_active, gid, gid);
    assoc::lemma_lookup_remove(m.bt_done, gid, gid);
    assoc::lemma_lookup_remove(m.bt_seed_started, gid, gid);
}

/// A report about one task, by an engine or by a torrent, leaves every other task
/// as it was.
pub proof fn law_reports_touch_one_task(
    m: ManagerView,
    gid: Seq<char>,
    other: Seq<char>,
    share: u64,
    speed: u64,
    p: BtProgress,
    now_ms: u64,
)
    requires
        other != gid,
    ensures
        transferred(m, gid, share, speed, now_ms).repo.task(other) == m.repo.task(other),
        bt_progressed(m, gid, p, now_ms).repo.task(other) == m.repo.task(other),
{
    if m.repo.has(gid) {
        let task = m.repo.task(gid)->0;
        let completed = reported_bytes(task, share);
        let report = repository::progressed(
            task,
            completed,
            task.total_length,
            reported_speed(m, gid, task, completed, speed, now_ms),
            0,
            some_connection(task.connections),
        );
        assoc::lemma_lookup_insert(m.repo.tasks, gid, report, other);
        let seen = bt_progressed_task(task, p);
        let n = assoc::insert(m.repo.tasks, gid, seen);
        assoc::lemma_lookup_insert(m.repo.tasks, gid, seen, gid);
        assoc::lemma_lookup_insert(m.repo.tasks, gid, seen, other);
        assoc::lemma_lookup_insert(
            n,
            gid,
            TaskView { status: TaskStatus::Complete, ..seen },
            other,
        );
        assoc::lemma_lookup_insert(
            n,
            gid,
            TaskView { status: TaskStatus::Seeding, ..seen },
            other,
        );
    }
}

} // verus!
