//! The repository of tasks: those on the books in the order in which they came,
//! and a bounded history of removed ones.

use vstd::prelude::*;

use crate::assoc;
use crate::json::{self, Json, JsonView};
use crate::task::{number_json, Task, TaskError, TaskFileView, TaskStatus, TaskView};

verus! {

/// How many removed tasks the history keeps.
pub const MAX_REMOVED: usize = 100;

/// The lists in which tasks are reported.
#[derive(Debug, Clone, Copy, PartialEq, Eq, Structural)]
pub enum Group {
    /// Transferring tasks.
    Active,
    /// Queued tasks.
    Waiting,
    /// Finished, failed and removed tasks.
    Stopped,
    /// Every task.
    All,
}

impl Group {
    /// Whether a task in the given state belongs to the group.
    pub open spec fn takes(self, status: TaskStatus) -> bool {
        match self {
            Group::Active => status == TaskStatus::Active,
            Group::Waiting => status == TaskStatus::Waiting,
            Group::Stopped => status == TaskStatus::Complete || status == TaskStatus::Error
                || status == TaskStatus::Removed,
            Group::All => true,
        }
    }

    /// Whether a task in the given state belongs to the group.
    pub fn accepts(self, status: TaskStatus) -> (r: bool)
        ensures
            r == self.takes(status),
    {
        match self {
            Group::Active => status == TaskStatus::Active,
            Group::Waiting => status == TaskStatus::Waiting,
            Group::Stopped => status == TaskStatus::Complete || status == TaskStatus::Error
                || status == TaskStatus::Removed,
            Group::All => true,
        }
    }
}

/// The tasks of a group, in the order of the table.
pub open spec fn members(tasks: Seq<(Seq<char>, TaskView)>, group: Group) -> Seq<TaskView>
    decreases tasks.len(),
{
    if tasks.len() == 0 {
        seq![]
    } else if group.takes(tasks.last().1.status) {
        members(tasks.drop_last(), group).push(tasks.last().1)
    } else {
        members(tasks.drop_last(), group)
    }
}

/// The sum of the download speeds of the transferring tasks.
pub open spec fn download_total(tasks: Seq<(Seq<char>, TaskView)>) -> nat
    decreases tasks.len(),
{
    if tasks.len() == 0 {
        0
    } else {
        download_total(tasks.drop_last()) + (if tasks.last().1.status == TaskStatus::Active {
            tasks.last().1.download_speed as nat
        } else {
            0
        })
    }
}

/// The sum of the upload speeds of the transferring tasks.
pub open spec fn upload_total(tasks: Seq<(Seq<char>, TaskView)>) -> nat
    decreases tasks.len(),
{
    if tasks.len() == 0 {
        0
    } else {
        upload_total(tasks.drop_last()) + (if tasks.last().1.status == TaskStatus::Active {
            tasks.last().1.upload_speed as nat
        } else {
            0
        })
    }
}

/// `history` with one more task at the end; the oldest one leaves where the
/// history would grow over its bound.
pub open spec fn remembered(history: Seq<TaskView>, task: TaskView) -> Seq<TaskView> {
    if history.len() >= MAX_REMOVED {
        history.push(task).skip(1)
    } else {
        history.push(task)
    }
}

/// What a `TaskRepository` stands for.
pub struct RepositoryView {
    /// Tasks on the books, each under its gid, oldest first.
    pub tasks: Seq<(Seq<char>, TaskView)>,
    /// Removed tasks, oldest first.
    pub removed: Seq<TaskView>,
}

impl RepositoryView {
    /// No gid is on the books twice, and the history is within its bound.
    pub open spec fn wf(self) -> bool {
        assoc::distinct(self.tasks) && self.removed.len() <= MAX_REMOVED
    }

    /// The task under `gid`.
    pub open spec fn task(self, gid: Seq<char>) -> Option<TaskView> {
        assoc::lookup(self.tasks, gid)
    }

    /// Whether a task is on the books under `gid`.
    pub open spec fn has(self, gid: Seq<char>) -> bool {
        assoc::has(self.tasks, gid)
    }

    /// The repository with `task` under `gid`.
    pub open spec fn with_task(self, gid: Seq<char>, task: TaskView) -> RepositoryView {
        RepositoryView { tasks: assoc::insert(self.tasks, gid, task), ..self }
    }

    /// The repository without the task under `gid`, which enters the history as
    /// removed.
    pub open spec fn without_task(self, gid: Seq<char>) -> RepositoryView {
        match self.task(gid) {
            Some(task) => RepositoryView {
                tasks: assoc::remove(self.tasks, gid),
                removed: remembered(
                    self.removed,
                    TaskView { status: TaskStatus::Removed, ..task },
                ),
            },
            None => self,
        }
    }

    /// The stopped tasks: those on the books, then the history.
    pub open spec fn stopped(self) -> Seq<TaskView> {
        members(self.tasks, Group::Stopped) + self.removed
    }
}

/// Progress figures of a task as the engine reports them.
pub open spec fn progressed(
    task: TaskView,
    completed: u64,
    total: u64,
    d_speed: u64,
    u_speed: u64,
    connections: u32,
) -> TaskView {
    TaskView {
        completed_length: completed,
        total_length: total,
        download_speed: d_speed,
        upload_speed: u_speed,
        connections,
        files: if task.files.len() == 1 {
            seq![
                TaskFileView {
                    completed_length: completed,
                    length: if total > 0 {
                        total
                    } else {
                        task.files[0].length
                    },
                    ..task.files[0]
                },
            ]
        } else {
            task.files
        },
        ..task
    }
}

/// Tasks on the books and the history of removed ones.
#[derive(Debug)]
pub struct TaskRepository {
    tasks: Vec<(String, Task)>,
    removed: Vec<Task>,
}

impl View for TaskRepository {
    type V = RepositoryView;

    closed spec fn view(&self) -> RepositoryView {
        RepositoryView { tasks: self.tasks.deep_view(), removed: self.removed.deep_view() }
    }
}

impl TaskRepository {
    /// An empty repository.
    pub fn new() -> (r: TaskRepository)
        ensures
            r@.wf(),
            r@.tasks.len() == 0,
            r@.removed.len() == 0,
    {
        TaskRepository { tasks: Vec::new(), removed: Vec::new() }
    }

    /// Puts a task on the books under its gid; one that is already there under
    /// this gid is replaced in its place.
    pub fn add(&mut self, task: Task)
        requires
            old(self)@.wf(),
        ensures
            final(self)@.wf(),
            final(self)@ == old(self)@.with_task(task@.gid, task@),
    {
        let gid = task.gid.clone();
        proof {
            assoc::lemma_distinct(self.tasks.deep_view(), gid@, task@);
        }
        assoc::insert_in(&mut self.tasks, gid.as_str(), task);
    }

    /// The task under `gid`.
    pub fn get(&self, gid: &str) -> (r: Option<&Task>)
        ensures
            r.deep_view() == self@.task(gid@),
    {
        assoc::lookup_in(&self.tasks, gid)
    }

    /// The task under `gid`, to be changed.
    pub fn get_mut(&mut self, gid: &str) -> (r: Option<&mut Task>)
        requires
            old(self)@.wf(),
        ensures
            final(self)@.wf(),
            match r {
                Some(task) => {
                    &&& old(self)@.task(gid@) == Some(task@)
                    &&& final(self)@ == old(self)@.with_task(gid@, final(task)@)
                },
                None => !old(self)@.has(gid@) && *final(self) == *old(self),
            },
    {
        let i: usize = assoc::place_of(&self.tasks, gid);
        let ghost before = self.tasks.deep_view();
        proof {
            assoc::lemma_index_of(before, gid@);
        }
        if i < self.tasks.len() {
            let task = &mut self.tasks[i].1;
            proof {
                assert(after_borrow(*self).tasks.deep_view() =~= before.update(
                    i as int,
                    (gid@, final(task).deep_view()),
                ));
                assoc::lemma_distinct(before, gid@, final(task).deep_view());
            }
            Some(task)
        } else {
            None
        }
    }

    /// Whether a task is on the books under `gid`.
    pub fn contains(&self, gid: &str) -> (r: bool)
        ensures
            r == self@.has(gid@),
    {
        assoc::has_key(&self.tasks, gid)
    }

    /// The tasks of a group.
    fn select(&self, group: Group) -> (r: Vec<Task>)
        ensures
            r.deep_view() == members(self@.tasks, group),
    {
        let mut out: Vec<Task> = Vec::new();
        let mut i: usize = 0;
        proof {
            assert(out.deep_view() =~= members(self@.tasks.take(0), group));
        }
        while i < self.tasks.len()
            invariant
                i <= self.tasks@.len(),
                out.deep_view() == members(self@.tasks.take(i as int), group),
            decreases self.tasks@.len() - i,
        {
            let task = &self.tasks[i].1;
            let ghost before = out.deep_view();
            if group.accepts(task.status) {
                out.push(task.clone());
                proof {
                    assert(out.deep_view() =~= before.push(task@));
                }
            }
            i += 1;
            proof {
                let upto = self@.tasks.take(i as int);
                assert(upto.drop_last() =~= self@.tasks.take(i - 1));
                assert(upto.last().1 == task@);
            }
        }
        proof {
            assert(self@.tasks.take(i as int) =~= self@.tasks);
        }
        out
    }

    /// The transferring tasks, oldest first.
    pub fn active(&self) -> (r: Vec<Task>)
        ensures
            r.deep_view() == members(self@.tasks, Group::Active),
    {
        self.select(Group::Active)
    }

    /// The queued tasks, oldest first.
    pub fn waiting(&self) -> (r: Vec<Task>)
        ensures
            r.deep_view() == members(self@.tasks, Group::Waiting),
    {
        self.select(Group::Waiting)
    }

    /// The stopped tasks: those on the books, oldest first, then the history.
    pub fn stopped(&self) -> (r: Vec<Task>)
        ensures
            r.deep_view() == self@.stopped(),
    {
        let mut out = self.select(Group::Stopped);
        let ghost head = out.deep_view();
        let mut i: usize = 0;
        proof {
            assert(out.deep_view() =~= head + self@.removed.take(0));
        }
        while i < self.removed.len()
            invariant
                i <= self.removed@.len(),
                out.deep_view() == head + self@.removed.take(i as int),
            decreases self.removed@.len() - i,
        {
            let ghost before = out.deep_view();
            out.push(self.removed[i].clone());
            i += 1;
            proof {
                assert(self@.removed[i - 1] == self.removed@[i - 1]@);
                assert(out.deep_view() =~= before.push(self@.removed[i - 1]));
                assert(self@.removed.take(i as int) =~= self@.removed.take(i - 1).push(
                    self@.removed[i - 1],
                ));
                assert(out.deep_view() =~= head + self@.removed.take(i as int));
            }
        }
        proof {
            assert(self@.removed.take(i as int) =~= self@.removed);
        }
        out
    }

    /// Every task on the books, oldest first.
    pub fn all(&self) -> (r: Vec<Task>)
        ensures
            r.deep_view() == members(self@.tasks, Group::All),
    {
        self.select(Group::All)
    }

    /// Moves the task under `gid` to the given state, where the state machine
    /// allows it.
    pub fn set_status(&mut self, gid: &str, status: TaskStatus) -> (r: Result<(), TaskError>)
        requires
            old(self)@.wf(),
        ensures
            final(self)@.wf(),
            match old(self)@.task(gid@) {
                None => final(self)@ == old(self)@ && match r {
                    Err(TaskError::NotFound { gid: g }) => g@ == gid@,
                    _ => false,
                },
                Some(task) => if crate::task::allowed(task.status, status) {
                    r is Ok && final(self)@ == old(self)@.with_task(
                        gid@,
                        TaskView { status, ..task },
                    )
                } else {
                    final(self)@ == old(self)@ && r == Err::<(), TaskError>(
                        TaskError::InvalidTransition { from: task.status, to: status },
                    )
                },
            },
    {
        proof {
            assoc::lemma_index_of(self@.tasks, gid@);
        }
        match self.get_mut(gid) {
            Some(task) => {
                let ghost before = old(self)@.tasks;
                let r = task.transition(status);
                proof {
                    let k = assoc::index_of(before, gid@);
                    assert(before.update(k, (gid@, before[k].1)) =~= before);
                }
                r
            },
            None => Err(TaskError::NotFound { gid: gid.to_owned() }),
        }
    }

    /// Takes over the progress figures that the engine reports.
    pub fn update_progress(
        &mut self,
        gid: &str,
        completed: u64,
        total: u64,
        d_speed: u64,
        u_speed: u64,
        connections: u32,
    ) -> (r: Result<(), TaskError>)
        requires
            old(self)@.wf(),
        ensures
            final(self)@.wf(),
            match old(self)@.task(gid@) {
                None => final(self)@ == old(self)@ && match r {
                    Err(TaskError::NotFound { gid: g }) => g@ == gid@,
                    _ => false,
                },
                Some(task) => r is Ok && final(self)@ == old(self)@.with_task(
                    gid@,
                    progressed(task, completed, total, d_speed, u_speed, connections),
                ),
            },
    {
        match self.get_mut(gid) {
            Some(task) => {
                let ghost view = task@;
                task.completed_length = completed;
                task.total_length = total;
                task.download_speed = d_speed;
                task.upload_speed = u_speed;
                task.connections = connections;
                if task.files.len() == 1 {
                    let file = &mut task.files[0];
                    file.completed_length = completed;
                    if total > 0 {
                        file.length = total;
                    }
                }
                proof {
                    assert(task.files.deep_view() =~= progressed(
                        view,
                        completed,
                        total,
                        d_speed,
                        u_speed,
                        connections,
                    ).files);
                }
                Ok(())
            },
            None => Err(TaskError::NotFound { gid: gid.to_owned() }),
        }
    }

    /// Marks a task as failed, with code and message; one that has failed
    /// already gets the new code and message.
    pub fn mark_error(&mut self, gid: &str, code: i32, msg: String) -> (r: Result<(), TaskError>)
        requires
            old(self)@.wf(),
        ensures
            final(self)@.wf(),
            match old(self)@.task(gid@) {
                None => final(self)@ == old(self)@ && match r {
                    Err(TaskError::NotFound { gid: g }) => g@ == gid@,
                    _ => false,
                },
                Some(task) => if task.status == TaskStatus::Error || crate::task::allowed(
                    task.status,
                    TaskStatus::Error,
                ) {
                    r is Ok && final(self)@ == old(self)@.with_task(
                        gid@,
                        TaskView {
                            status: TaskStatus::Error,
                            error_code: Some(code),
                            error_message: Some(msg@),
                            ..task
                        },
                    )
                } else {
                    final(self)@ == old(self)@ && r == Err::<(), TaskError>(
                        TaskError::InvalidTransition { from: task.status, to: TaskStatus::Error },
                    )
                },
            },
    {
        proof {
            assoc::lemma_index_of(self@.tasks, gid@);
        }
        match self.get_mut(gid) {
            Some(task) => {
                proof {
                    let before = old(self)@.tasks;
                    let k = assoc::index_of(before, gid@);
                    assert(before.update(k, (gid@, before[k].1)) =~= before);
                }
                if task.status != TaskStatus::Error {
                    match task.transition(TaskStatus::Error) {
                        Ok(_) => {},
                        Err(e) => {
                            return Err(e);
                        },
                    }
                }
                task.error_code = Some(code);
                task.error_message = Some(msg);
                Ok(())
            },
            None => Err(TaskError::NotFound { gid: gid.to_owned() }),
        }
    }

    /// Takes a task off the books and gives it back as it was; the history
    /// records it as removed.
    pub fn remove(&mut self, gid: &str) -> (r: Option<Task>)
        requires
            old(self)@.wf(),
        ensures
            final(self)@.wf(),
            r.deep_view() == old(self)@.task(gid@),
            final(self)@ == old(self)@.without_task(gid@),
    {
        let ghost before = self@;
        proof {
            if before.has(gid@) {
                assoc::lemma_distinct(before.tasks, gid@, before.task(gid@)->0);
            }
        }
        match assoc::remove_in(&mut self.tasks, gid) {
            Some(task) => {
                let mut copy = task.clone();
                copy.status = TaskStatus::Removed;
                let ghost view = copy@;
                self.removed.push(copy);
                proof {
                    assert(self.removed.deep_view() =~= before.removed.push(view));
                }
                if self.removed.len() > MAX_REMOVED {
                    let _ = self.removed.remove(0);
                    proof {
                        assert(self.removed.deep_view() =~= before.removed.push(view).skip(1));
                    }
                }
                Some(task)
            },
            None => None,
        }
    }

    /// Empties the history; the tasks on the books stay.
    pub fn purge_removed(&mut self)
        requires
            old(self)@.wf(),
        ensures
            final(self)@.wf(),
            final(self)@ == (RepositoryView { removed: seq![], ..old(self)@ }),
    {
        self.removed.clear();
        proof {
            assert(self.removed.deep_view() =~= seq![]);
        }
    }

    /// Whether the speeds of the transferring tasks have sums that fit.
    pub fn speeds_fit(&self) -> (r: bool)
        ensures
            r == (download_total(self@.tasks) <= u64::MAX && upload_total(self@.tasks)
                <= u64::MAX),
    {
        let mut download_speed: u64 = 0;
        let mut upload_speed: u64 = 0;
        let mut i: usize = 0;
        while i < self.tasks.len()
            invariant
                i <= self.tasks@.len(),
                download_speed == download_total(self@.tasks.take(i as int)),
                upload_speed == upload_total(self@.tasks.take(i as int)),
            decreases self.tasks@.len() - i,
        {
            let task = &self.tasks[i].1;
            proof {
                let upto = self@.tasks.take(i + 1);
                assert(upto.drop_last() =~= self@.tasks.take(i as int));
                assert(upto.last().1 == task@);
                lemma_totals_grow(self@.tasks, i + 1);
            }
            if task.status == TaskStatus::Active {
                match (
                    download_speed.checked_add(task.download_speed),
                    upload_speed.checked_add(task.upload_speed),
                ) {
                    (Some(download), Some(upload)) => {
                        download_speed = download;
                        upload_speed = upload;
                    },
                    _ => {
                        return false;
                    },
                }
            }
            i += 1;
        }
        proof {
            assert(self@.tasks.take(i as int) =~= self@.tasks);
        }
        true
    }

    /// Task counts, and the speeds of the transferring tasks in sum.
    pub fn global_stat(&self) -> (r: GlobalStat)
        requires
            self@.wf(),
            download_total(self@.tasks) <= u64::MAX,
            upload_total(self@.tasks) <= u64::MAX,
        ensures
            r == (GlobalStat {
                download_speed: download_total(self@.tasks) as u64,
                upload_speed: upload_total(self@.tasks) as u64,
                num_active: members(self@.tasks, Group::Active).len() as usize,
                num_waiting: members(self@.tasks, Group::Waiting).len() as usize,
                num_stopped: self@.stopped().len() as usize,
            }),
            r.num_active == members(self@.tasks, Group::Active).len(),
            r.num_waiting == members(self@.tasks, Group::Waiting).len(),
            r.num_stopped == self@.stopped().len(),
    {
        let mut download_speed: u64 = 0;
        let mut upload_speed: u64 = 0;
        let mut num_active: usize = 0;
        let mut num_waiting: usize = 0;
        let mut i: usize = 0;
        while i < self.tasks.len()
            invariant
                i <= self.tasks@.len(),
                download_total(self@.tasks) <= u64::MAX,
                upload_total(self@.tasks) <= u64::MAX,
                download_speed == download_total(self@.tasks.take(i as int)),
                upload_speed == upload_total(self@.tasks.take(i as int)),
                num_active == members(self@.tasks.take(i as int), Group::Active).len(),
                num_waiting == members(self@.tasks.take(i as int), Group::Waiting).len(),
                num_active <= i,
                num_waiting <= i,
            decreases self.tasks@.len() - i,
        {
            let task = &self.tasks[i].1;
            proof {
                let upto = self@.tasks.take(i + 1);
                assert(upto.drop_last() =~= self@.tasks.take(i as int));
                assert(upto.last().1 == task@);
                lemma_totals_grow(self@.tasks, i + 1);
            }
            if task.status == TaskStatus::Active {
                num_active += 1;
                download_speed += task.download_speed;
                upload_speed += task.upload_speed;
            } else if task.status == TaskStatus::Waiting {
                num_waiting += 1;
            }
            i += 1;
        }
        proof {
            assert(self@.tasks.take(i as int) =~= self@.tasks);
        }
        let stopped = self.stopped();
        GlobalStat {
            download_speed,
            upload_speed,
            num_active,
            num_waiting,
            num_stopped: stopped.len(),
        }
    }
}

/// The speeds of the first tasks never sum up to more than those of all.
pub proof fn lemma_totals_grow(tasks: Seq<(Seq<char>, TaskView)>, i: int)
    requires
        0 <= i <= tasks.len(),
    ensures
        download_total(tasks.take(i)) <= download_total(tasks),
        upload_total(tasks.take(i)) <= upload_total(tasks),
    decreases tasks.len() - i,
{
    if i < tasks.len() {
        lemma_totals_grow(tasks, i + 1);
        assert(tasks.take(i + 1).drop_last() =~= tasks.take(i));
    } else {
        assert(tasks.take(i) =~= tasks);
    }
}

impl Default for TaskRepository {
    fn default() -> (r: TaskRepository)
        ensures
            r@.wf(),
            r@.tasks.len() == 0,
            r@.removed.len() == 0,
    {
        TaskRepository::new()
    }
}

/// Counts and speeds over all tasks.
#[derive(Debug, Clone, Copy, PartialEq, Eq, Structural)]
pub struct GlobalStat {
    /// Download speed of all transferring tasks, in bytes per second.
    pub download_speed: u64,
    /// Upload speed of all transferring tasks, in bytes per second.
    pub upload_speed: u64,
    /// Transferring tasks.
    pub num_active: usize,
    /// Queued tasks.
    pub num_waiting: usize,
    /// Stopped tasks.
    pub num_stopped: usize,
}

impl GlobalStat {
    /// The figures as `getGlobalStat` reports them: every number as text.
    pub open spec fn aria2(self) -> JsonView {
        JsonView::Object(
            seq![
                ("downloadSpeed"@, crate::task::number_text(self.download_speed as int)),
                ("uploadSpeed"@, crate::task::number_text(self.upload_speed as int)),
                ("numActive"@, crate::task::number_text(self.num_active as int)),
                ("numWaiting"@, crate::task::number_text(self.num_waiting as int)),
                ("numStopped"@, crate::task::number_text(self.num_stopped as int)),
            ],
        )
    }

    /// The figures as `getGlobalStat` reports them.
    pub fn to_aria2_json(&self) -> (r: Json)
        ensures
            r@ == self.aria2(),
    {
        let mut out: Vec<(String, Json)> = Vec::new();
        assoc::put(&mut out, "downloadSpeed", number_json(self.download_speed));
        assoc::put(&mut out, "uploadSpeed", number_json(self.upload_speed));
        assoc::put(&mut out, "numActive", number_json(self.num_active as u64));
        assoc::put(&mut out, "numWaiting", number_json(self.num_waiting as u64));
        assoc::put(&mut out, "numStopped", number_json(self.num_stopped as u64));
        proof {
            json::lemma_object_view(out);
            assert(out.deep_view() =~= self.aria2()->Object_0);
        }
        Json::Object(out)
    }
}

/// A removed task is off the books and closes the list of stopped tasks, marked
/// as removed; every other task stays as it was.
pub proof fn law_remove(repo: RepositoryView, gid: Seq<char>, other: Seq<char>)
    requires
        repo.wf(),
        repo.has(gid),
    ensures
        !repo.without_task(gid).has(gid),
        repo.without_task(gid).stopped().last() == (TaskView {
            status: TaskStatus::Removed,
            ..repo.task(gid)->0
        }),
        other != gid ==> repo.without_task(gid).task(other) == repo.task(other),
{
    assoc::lemma_lookup_remove(repo.tasks, gid, gid);
    assoc::lemma_lookup_remove(repo.tasks, gid, other);
    let after = repo.without_task(gid);
    assert(after.removed.len() > 0);
    assert(after.stopped().last() == after.removed.last());
}

/// A task that was added is found under its gid, and every other task stays.
pub proof fn law_add(repo: RepositoryView, gid: Seq<char>, task: TaskView, other: Seq<char>)
    requires
        repo.wf(),
    ensures
        repo.with_task(gid, task).task(gid) == Some(task),
        other != gid ==> repo.with_task(gid, task).task(other) == repo.task(other),
        repo.with_task(gid, task).removed == repo.removed,
{
    assoc::lemma_lookup_insert(repo.tasks, gid, task, gid);
    assoc::lemma_lookup_insert(repo.tasks, gid, task, other);
}

/// Emptying the history leaves no removed task in any list, and takes nothing
/// off the books.
pub proof fn law_purge(repo: RepositoryView, gid: Seq<char>)
    ensures
        (RepositoryView { removed: seq![], ..repo }).stopped() == members(
            repo.tasks,
            Group::Stopped,
        ),
        (RepositoryView { removed: seq![], ..repo }).task(gid) == repo.task(gid),
{
    assert((RepositoryView { removed: seq![], ..repo }).stopped() =~= members(
        repo.tasks,
        Group::Stopped,
    ));
}

/// Every listed task is on the books in a state that the list takes.
pub proof fn law_members_match(tasks: Seq<(Seq<char>, TaskView)>, group: Group, i: int)
    requires
        0 <= i < members(tasks, group).len(),
    ensures
        group.takes(members(tasks, group)[i].status),
        exists|k: int| 0 <= k < tasks.len() && (#[trigger] tasks[k]).1 == members(tasks, group)[i],
    decreases tasks.len(),
{
    let rest = tasks.drop_last();
    if i < members(rest, group).len() {
        law_members_match(rest, group, i);
        let k = choose|k: int|
            0 <= k < rest.len() && (#[trigger] rest[k]).1 == members(rest, group)[i];
        assert(tasks[k].1 == members(tasks, group)[i]);
    } else {
        assert(tasks[tasks.len() - 1].1 == members(tasks, group)[i]);
    }
}

/// The lists of transferring, queued and stopped tasks never share a state, and
/// together never list more tasks than are on the books.
pub proof fn law_groups_disjoint(tasks: Seq<(Seq<char>, TaskView)>)
    ensures
        members(tasks, Group::Active).len() + members(tasks, Group::Waiting).len() + members(
            tasks,
            Group::Stopped,
        ).len() <= tasks.len(),
        members(tasks, Group::All).len() == tasks.len(),
    decreases tasks.len(),
{
    if tasks.len() > 0 {
        law_groups_disjoint(tasks.drop_last());
    }
}

} // verus!
