//! The queue: which tasks run, and what requests and reports make of a task.

use vstd::prelude::*;

use crate::assoc;
use crate::engine::{self, TaskEvent};
use crate::json::{Json, JsonView, Number};
use crate::manager::{
    self, EngineKind, ResumePlan, Sample, StartPlan, StopPlan, TaskManager, Transfer,
};
use crate::options::EngineOptions;
use crate::repository::{self, GlobalStat, Group};
use crate::task::{self, Task, TaskStatus, TaskView};
use crate::text;

verus! {

/// The state of the task under a gid.
pub open spec fn state_of(m: TaskManager, gid: Seq<char>) -> Option<TaskStatus> {
    match m@.repo.task(gid) {
        Some(t) => Some(t.status),
        None => None,
    }
}

/// How many tasks run, torrents among them.
pub open spec fn running(m: TaskManager) -> nat {
    m.active@.len() + m.bt_active@.len()
}

/// Whether nothing but the task under `gid`, what runs of it and the events differs.
pub open spec fn only_task_changed(before: TaskManager, after: TaskManager, gid: Seq<char>) -> bool {
    &&& forall|other: Seq<char>|
        other != gid ==> #[trigger] after@.repo.task(other) == before@.repo.task(other)
    &&& after@.global == before@.global
    &&& after@.max_concurrent == before@.max_concurrent
    &&& after@.bt_ready == before@.bt_ready
}

/// Whether a task is as it was but for its state.
pub open spec fn only_state_changed(before: TaskView, after: TaskView, status: TaskStatus) -> bool {
    after == TaskView { status, ..before }
}

/// The oldest queued task is the first in the table that waits.
proof fn lemma_first_waiting(tasks: Seq<(Seq<char>, TaskView)>)
    ensures
        ({
            let list = repository::members(tasks, Group::Waiting);
            &&& list.len() == 0 <==> forall|k: int|
                0 <= k < tasks.len() ==> (#[trigger] tasks[k]).1.status != TaskStatus::Waiting
            &&& list.len() > 0 ==> exists|k: int|
                0 <= k < tasks.len() && #[trigger] first_at(tasks, k) && tasks[k].1 == list[0]
        }),
    decreases tasks.len(),
{
    if tasks.len() > 0 {
        let rest = tasks.drop_last();
        lemma_first_waiting(rest);
        let n = tasks.len() - 1;
        let before = repository::members(rest, Group::Waiting);
        if before.len() > 0 {
            let k = choose|k: int|
                0 <= k < rest.len() && #[trigger] first_at(rest, k) && rest[k].1 == before[0];
            assert forall|j: int| 0 <= j < k implies (#[trigger] tasks[j]).1.status
                != TaskStatus::Waiting by {
                assert(rest[j] == tasks[j]);
            }
            assert(tasks[k] == rest[k]);
            assert(first_at(tasks, k));
        } else {
            assert forall|j: int| 0 <= j < n implies (#[trigger] tasks[j]).1.status
                != TaskStatus::Waiting by {
                assert(rest[j] == tasks[j]);
            }
            if tasks[n].1.status == TaskStatus::Waiting {
                assert(first_at(tasks, n));
            }
        }
    }
}

/// Whether the task at place `k` waits and none before it does.
pub open spec fn first_at(tasks: Seq<(Seq<char>, TaskView)>, k: int) -> bool {
    &&& 0 <= k < tasks.len()
    &&& tasks[k].1.status == TaskStatus::Waiting
    &&& forall|j: int| 0 <= j < k ==> (#[trigger] tasks[j]).1.status != TaskStatus::Waiting
}

/// A task is started exactly where fewer run than may and some task waits; it is the
/// one that has waited longest, it runs from then on, and no other task changes.
pub proof fn law_the_oldest_waiting_task_starts(m: &mut TaskManager, r: Option<StartPlan>)
    requires
        old(m)@.wf(),
        call_ensures(TaskManager::promote_waiting, (m,), r),
    ensures
        r is Some <==> running(*old(m)) < old(m).max_concurrent && exists|k: int|
            0 <= k < old(m)@.repo.tasks.len() && (#[trigger] old(m)@.repo.tasks[k]).1.status
                == TaskStatus::Waiting,
        r matches Some(plan) ==> {
            &&& exists|k: int| #[trigger]
                first_at(old(m)@.repo.tasks, k) && old(m)@.repo.tasks[k].0 == plan.gid@
            &&& state_of(*final(m), plan.gid@) == Some(TaskStatus::Active)
            &&& only_task_changed(*old(m), *final(m), plan.gid@)
            &&& old(m)@.repo.task(plan.gid@) matches Some(t) && plan.bt == (t.bittorrent is Some)
                && final(m)@.repo.task(plan.gid@) == Some(
                TaskView { status: TaskStatus::Active, ..t },
            )
        },
        r is None ==> final(m)@ == old(m)@,
        final(m)@.active == old(m)@.active && final(m)@.bt_active == old(m)@.bt_active,
        final(m)@.events == old(m)@.events,
{
    let tasks = old(m)@.repo.tasks;
    lemma_first_waiting(tasks);
    assert(old(m)@.active.len() == old(m).active@.len());
    assert(old(m)@.bt_active.len() == old(m).bt_active@.len());
    let list = repository::members(tasks, Group::Waiting);
    if let Some(plan) = r {
        let k = choose|k: int|
            0 <= k < tasks.len() && #[trigger] first_at(tasks, k) && tasks[k].1 == list[0];
        assert(first_at(tasks, k));
        assert(tasks[k].0 == tasks[k].1.gid);
        let t = TaskView { status: TaskStatus::Active, ..list[0] };
        assoc::lemma_lookup_insert(tasks, plan.gid@, t, plan.gid@);
        assert forall|other: Seq<char>| other != plan.gid@ implies #[trigger] final(m)@.repo.task(other) == old(m)@.repo.task(other) by {
            assoc::lemma_lookup_insert(tasks, plan.gid@, t, other);
        }
    } else if list.len() > 0 {
        assert(manager::first_waiting(old(m)@.repo) is Some);
    }
}

/// A task whose engine has been started counts as running with that engine, and its
/// start is announced.
pub proof fn law_a_started_task_runs(m: &mut TaskManager, gid: &str, kind: EngineKind)
    requires
        old(m)@.wf(),
        call_ensures(TaskManager::engine_started, (m, gid, kind), ()),
    ensures
        assoc::lookup(final(m)@.active, gid@) == Some(kind),
        final(m)@.repo == old(m)@.repo,
        final(m)@.bt_active == old(m)@.bt_active,
        final(m)@.events == old(m)@.events.push((gid@, "start"@)),
        running(*final(m)) <= running(*old(m)) + 1,
        !assoc::has(old(m)@.active, gid@) ==> running(*final(m)) == running(*old(m)) + 1,
{
    assoc::lemma_lookup_insert(old(m)@.active, gid@, kind, gid@);
    assoc::lemma_index_of(old(m)@.active, gid@);
    assert(old(m)@.active.len() == old(m).active@.len());
    assert(final(m)@.active.len() == final(m).active@.len());
    assert(old(m)@.bt_active.len() == old(m).bt_active@.len());
    assert(final(m)@.bt_active.len() == final(m).bt_active@.len());
}

/// A torrent that has been started counts as running, and its start is announced.
pub proof fn law_a_started_torrent_runs(m: &mut TaskManager, gid: &str)
    requires
        old(m)@.wf(),
        call_ensures(TaskManager::bt_started, (m, gid), ()),
    ensures
        assoc::has(final(m)@.bt_active, gid@),
        final(m)@.repo == old(m)@.repo,
        final(m)@.active == old(m)@.active,
        final(m)@.events == old(m)@.events.push((gid@, "start"@)),
        !assoc::has(old(m)@.bt_active, gid@) ==> running(*final(m)) == running(*old(m)) + 1,
{
    assoc::lemma_lookup_insert(old(m)@.bt_active, gid@, (), gid@);
    assert(old(m)@.active.len() == old(m).active@.len());
    assert(final(m)@.active.len() == final(m).active@.len());
    assert(old(m)@.bt_active.len() == old(m).bt_active@.len());
    assert(final(m)@.bt_active.len() == final(m).bt_active@.len());
}

/// A task that could not be started has failed, for the reason given.
pub proof fn law_a_task_that_does_not_start_fails(
    m: &mut TaskManager,
    gid: &str,
    message: &str,
    add: bool,
)
    requires
        old(m)@.wf(),
        add ==> call_ensures(TaskManager::bt_add_failed, (m, gid, message), ()),
        !add ==> call_ensures(TaskManager::start_failed, (m, gid, message), ()),
        state_of(*old(m), gid@) == Some(TaskStatus::Active) || state_of(*old(m), gid@) == Some(
            TaskStatus::Waiting,
        ),
    ensures
        final(m)@.repo.task(gid@) == Some(
            TaskView {
                status: TaskStatus::Error,
                error_code: Some(1),
                error_message: Some(message@),
                ..old(m)@.repo.task(gid@)->0
            },
        ),
        only_task_changed(*old(m), *final(m), gid@),
        add ==> final(m)@.events == old(m)@.events.push((gid@, "error"@)),
        !add ==> final(m)@.events == old(m)@.events,
{
    let t = TaskView {
        status: TaskStatus::Error,
        error_code: Some(1),
        error_message: Some(message@),
        ..old(m)@.repo.task(gid@)->0
    };
    lemma_one_task_changed(*old(m), *final(m), gid@, t);
}

/// Putting a task in the place of the one under its gid changes no other.
proof fn lemma_one_task_changed(
    before: TaskManager,
    after: TaskManager,
    gid: Seq<char>,
    t: TaskView,
)
    requires
        after@.repo.tasks == assoc::insert(before@.repo.tasks, gid, t),
    ensures
        after@.repo.task(gid) == Some(t),
        forall|other: Seq<char>|
            other != gid ==> #[trigger] after@.repo.task(other) == before@.repo.task(other),
{
    assoc::lemma_lookup_insert(before@.repo.tasks, gid, t, gid);
    assert forall|other: Seq<char>| other != gid implies #[trigger] after@.repo.task(other)
        == before@.repo.task(other) by {
        assoc::lemma_lookup_insert(before@.repo.tasks, gid, t, other);
    }
}

/// A running or queued task that is paused is paused, which is announced; a paused one
/// stays; any other is refused and stays as it is, as is a gid that no task has.
pub proof fn law_pausing(m: &mut TaskManager, gid: &str, r: Result<(), String>, force: bool)
    requires
        old(m)@.wf(),
        force ==> call_ensures(TaskManager::force_pause, (m, gid), r),
        !force ==> call_ensures(TaskManager::pause, (m, gid), r),
    ensures
        ({
            let was = state_of(*old(m), gid@);
            let live = was == Some(TaskStatus::Active) || was == Some(TaskStatus::Waiting);
            &&& r is Ok <==> live || was == Some(TaskStatus::Paused)
            &&& live ==> final(m)@.repo.task(gid@) == Some(
                TaskView { status: TaskStatus::Paused, ..old(m)@.repo.task(gid@)->0 },
            ) && final(m)@.events == old(m)@.events.push((gid@, "pause"@))
            &&& !live ==> final(m)@.repo == old(m)@.repo && final(m)@.events == old(m)@.events
        }),
        only_task_changed(*old(m), *final(m), gid@),
        final(m)@.active == old(m)@.active,
        final(m)@.bt_active == old(m)@.bt_active,
        assoc::lookup(final(m)@.speed_samples, gid@) is None,
{
    assoc::lemma_lookup_remove(old(m)@.speed_samples, gid@, gid@);
    let was = state_of(*old(m), gid@);
    if was == Some(TaskStatus::Active) || was == Some(TaskStatus::Waiting) {
        let t = TaskView { status: TaskStatus::Paused, ..old(m)@.repo.task(gid@)->0 };
        lemma_one_task_changed(*old(m), *final(m), gid@, t);
    }
}

/// A torrent that is paused gives its place among the running tasks free.
pub proof fn law_pausing_a_torrent(m: &mut TaskManager, gid: &str, r: Result<(), String>)
    requires
        old(m)@.wf(),
        call_ensures(TaskManager::pause_bt, (m, gid), r),
    ensures
        ({
            let was = state_of(*old(m), gid@);
            let live = was == Some(TaskStatus::Active) || was == Some(TaskStatus::Waiting);
            &&& r is Ok <==> live || was == Some(TaskStatus::Paused)
            &&& live ==> final(m)@.repo.task(gid@) == Some(
                TaskView { status: TaskStatus::Paused, ..old(m)@.repo.task(gid@)->0 },
            ) && final(m)@.events == old(m)@.events.push((gid@, "pause"@))
        }),
        r is Ok ==> !assoc::has(final(m)@.bt_active, gid@) && !assoc::has(
            final(m)@.bt_seed_started,
            gid@,
        ),
        r is Err ==> final(m)@ == old(m)@,
        only_task_changed(*old(m), *final(m), gid@),
{
    assoc::lemma_lookup_remove(old(m)@.bt_active, gid@, gid@);
    assoc::lemma_lookup_remove(old(m)@.bt_seed_started, gid@, gid@);
    let was = state_of(*old(m), gid@);
    if was == Some(TaskStatus::Active) || was == Some(TaskStatus::Waiting) {
        let t = TaskView { status: TaskStatus::Paused, ..old(m)@.repo.task(gid@)->0 };
        lemma_one_task_changed(*old(m), *final(m), gid@, t);
    }
}

/// Before a task is paused, what runs of it is to be stopped: its torrent, or the
/// engine that it runs on, which then counts as running no more. A task that cannot be
/// paused is left alone.
pub proof fn law_what_is_stopped_for_a_pause(
    m: &mut TaskManager,
    gid: &str,
    r: Result<StopPlan, String>,
)
    requires
        old(m)@.wf(),
        call_ensures(TaskManager::begin_pause, (m, gid), r),
    ensures
        ({
            let was = state_of(*old(m), gid@);
            r is Ok <==> was == Some(TaskStatus::Active) || was == Some(TaskStatus::Waiting) || was
                == Some(TaskStatus::Paused)
        }),
        r is Err ==> final(m)@ == old(m)@,
        final(m)@.repo == old(m)@.repo && final(m)@.events == old(m)@.events,
        r is Ok && old(m)@.repo.task(gid@)->0.bittorrent is Some ==> r->Ok_0 is Torrent
            && final(m)@ == old(m)@,
        r is Ok && old(m)@.repo.task(gid@)->0.bittorrent is None ==> {
            &&& !assoc::has(final(m)@.active, gid@)
            &&& assoc::lookup(old(m)@.active, gid@) matches Some(kind) ==> r->Ok_0
                == StopPlan::Engine(kind)
            &&& assoc::lookup(old(m)@.active, gid@) is None ==> r->Ok_0 is Idle
        },
{
    assoc::lemma_lookup_remove(old(m)@.active, gid@, gid@);
}

/// Before a task is removed, what runs of it is to be stopped, whatever its state is.
pub proof fn law_what_is_stopped_for_a_removal(m: &mut TaskManager, gid: &str, r: StopPlan)
    requires
        old(m)@.wf(),
        call_ensures(TaskManager::release_engine, (m, gid), r),
    ensures
        final(m)@.repo == old(m)@.repo && final(m)@.events == old(m)@.events,
        old(m)@.repo.task(gid@) matches Some(t) && t.bittorrent is Some ==> r is Torrent
            && final(m)@ == old(m)@,
        old(m)@.repo.task(gid@) is None || old(m)@.repo.task(gid@)->0.bittorrent is None ==> {
            &&& !assoc::has(final(m)@.active, gid@)
            &&& assoc::lookup(old(m)@.active, gid@) matches Some(kind) ==> r == StopPlan::Engine(
                kind,
            )
            &&& assoc::lookup(old(m)@.active, gid@) is None ==> r is Idle
        },
{
    assoc::lemma_lookup_remove(old(m)@.active, gid@, gid@);
}

/// A paused task that is resumed runs where fewer tasks run than may, and is started as
/// what it is; where they do not, it waits. Running and queued tasks stay, and any other
/// is refused.
pub proof fn law_resuming(m: &mut TaskManager, gid: &str, r: Result<ResumePlan, String>)
    requires
        old(m)@.wf(),
        call_ensures(TaskManager::resume, (m, gid), r),
    ensures
        ({
            let was = state_of(*old(m), gid@);
            let room = running(*old(m)) < old(m).max_concurrent;
            &&& r is Ok <==> was == Some(TaskStatus::Active) || was == Some(TaskStatus::Waiting)
                || was == Some(TaskStatus::Paused)
            &&& was == Some(TaskStatus::Paused) && room ==> {
                &&& final(m)@.repo.task(gid@) == Some(
                    TaskView { status: TaskStatus::Active, ..old(m)@.repo.task(gid@)->0 },
                )
                &&& old(m)@.repo.task(gid@)->0.bittorrent is Some ==> r->Ok_0 is Torrent
                &&& old(m)@.repo.task(gid@)->0.bittorrent is None ==> r->Ok_0 is Transfer
            }
            &&& was == Some(TaskStatus::Paused) && !room ==> {
                &&& final(m)@.repo.task(gid@) == Some(
                    TaskView { status: TaskStatus::Waiting, ..old(m)@.repo.task(gid@)->0 },
                )
                &&& r->Ok_0 is Nothing
            }
            &&& was != Some(TaskStatus::Paused) ==> final(m)@ == old(m)@ && (r is Ok ==> r->Ok_0
                is Nothing)
        }),
        only_task_changed(*old(m), *final(m), gid@),
        final(m)@.active == old(m)@.active && final(m)@.bt_active == old(m)@.bt_active,
        final(m)@.events == old(m)@.events,
{
    assert(old(m)@.active.len() == old(m).active@.len());
    assert(old(m)@.bt_active.len() == old(m).bt_active@.len());
    if state_of(*old(m), gid@) == Some(TaskStatus::Paused) {
        let status = if running(*old(m)) < old(m).max_concurrent {
            TaskStatus::Active
        } else {
            TaskStatus::Waiting
        };
        let t = TaskView { status, ..old(m)@.repo.task(gid@)->0 };
        lemma_one_task_changed(*old(m), *final(m), gid@, t);
    }
}

/// A task that is removed is off the books and runs nowhere, closes the list of the
/// removed ones, marked as such and otherwise as it was, and its end is announced; no
/// other task changes. A gid that no task has is refused.
pub proof fn law_removing(
    m: &mut TaskManager,
    gid: &str,
    r: Result<(), String>,
    bt: bool,
    other: Seq<char>,
)
    requires
        old(m)@.wf(),
        bt ==> call_ensures(TaskManager::remove_bt, (m, gid), r),
        !bt ==> call_ensures(TaskManager::remove, (m, gid), r),
    ensures
        r is Ok <==> old(m)@.repo.task(gid@) is Some,
        final(m)@.repo.task(gid@) is None,
        other != gid@ ==> final(m)@.repo.task(other) == old(m)@.repo.task(other),
        r is Ok ==> {
            &&& final(m)@.repo.removed.len() > 0
            &&& final(m)@.repo.removed.last() == TaskView {
                status: TaskStatus::Removed,
                ..old(m)@.repo.task(gid@)->0
            }
            &&& final(m)@.events == old(m)@.events.push((gid@, "stop"@))
        },
        r is Err ==> final(m)@.repo == old(m)@.repo && final(m)@.events == old(m)@.events,
        assoc::lookup(final(m)@.task_uris, gid@) is None,
        assoc::lookup(final(m)@.task_options, gid@) is None,
        other != gid@ ==> assoc::lookup(final(m)@.task_options, other) == assoc::lookup(
            old(m)@.task_options,
            other,
        ),
        bt ==> !assoc::has(final(m)@.bt_active, gid@) && final(m)@.active == old(m)@.active,
        !bt ==> final(m)@.bt_active == old(m)@.bt_active && final(m)@.active == old(m)@.active,
        final(m)@.global == old(m)@.global,
{
    assoc::lemma_lookup_remove(old(m)@.repo.tasks, gid@, gid@);
    assoc::lemma_lookup_remove(old(m)@.repo.tasks, gid@, other);
    assoc::lemma_lookup_remove(old(m)@.task_uris, gid@, gid@);
    assoc::lemma_lookup_remove(old(m)@.task_options, gid@, gid@);
    assoc::lemma_lookup_remove(old(m)@.task_options, gid@, other);
    assoc::lemma_lookup_remove(old(m)@.bt_active, gid@, gid@);
}

/// The list of removed tasks keeps the last hundred: the oldest one leaves for a new
/// one, and none but the oldest.
pub proof fn law_removed_tasks_are_remembered(
    m: &mut TaskManager,
    gid: &str,
    r: Result<(), String>,
    i: int,
)
    requires
        old(m)@.wf(),
        old(m)@.repo.task(gid@) is Some,
        call_ensures(TaskManager::remove, (m, gid), r),
    ensures
        old(m)@.repo.removed.len() < 100 ==> final(m)@.repo.removed.len()
            == old(m)@.repo.removed.len() + 1,
        old(m)@.repo.removed.len() == 100 ==> final(m)@.repo.removed.len() == 100,
        0 <= i < old(m)@.repo.removed.len() && old(m)@.repo.removed.len() < 100 ==> final(m)@.repo.removed[i] == old(m)@.repo.removed[i],
        0 < i < 100 && old(m)@.repo.removed.len() == 100 ==> final(m)@.repo.removed[i - 1]
            == old(m)@.repo.removed[i],
{
}

/// Whether reports of an engine still count for a task: while it runs or waits.
pub open spec fn live(m: TaskManager, gid: Seq<char>) -> bool {
    state_of(m, gid) == Some(TaskStatus::Active) || state_of(m, gid) == Some(TaskStatus::Waiting)
}

/// What an engine reports of the bytes that are there is what a live task has, but for
/// what would go over its length; the length and the state stay, and a task of one file
/// has the bytes in that file.
pub proof fn law_progress_is_taken_over(
    m: &mut TaskManager,
    gid: &str,
    share: u64,
    speed: u64,
    now: u64,
)
    requires
        old(m)@.wf(),
        manager::speed_computable(old(m)@, gid@, share, now),
        call_ensures(TaskManager::handle_progress, (m, gid, share, speed, now), ()),
        live(*old(m), gid@),
        0 < old(m)@.repo.task(gid@)->0.total_length < 0x20_0000_0000_0000,
    ensures
        ({
            let t = old(m)@.repo.task(gid@)->0;
            final(m)@.repo.task(gid@) matches Some(u) && {
                &&& u.completed_length == (if share <= t.total_length {
                    share
                } else {
                    t.total_length
                })
                &&& u.total_length == t.total_length
                &&& u.status == t.status && u.gid == t.gid && u.dir == t.dir
                &&& u.upload_speed == 0
                &&& u.connections >= 1
                &&& t.connections > 0 ==> u.connections == t.connections
                &&& u.files.len() == t.files.len()
                &&& t.files.len() == 1 ==> {
                    &&& u.files[0].completed_length == u.completed_length
                    &&& u.files[0].length == t.total_length
                    &&& u.files[0].path == t.files[0].path
                    &&& u.files[0].uris == t.files[0].uris
                }
                &&& t.files.len() != 1 ==> u.files == t.files
            }
        }),
        only_task_changed(*old(m), *final(m), gid@),
        final(m)@.active == old(m)@.active && final(m)@.bt_active == old(m)@.bt_active,
        final(m)@.events == old(m)@.events,
{
    let u = final(m)@.repo.task(gid@)->0;
    let task = old(m)@.repo.task(gid@)->0;
    let completed = manager::reported_bytes(task, share);
    let t = repository::progressed(
        task,
        completed,
        task.total_length,
        manager::reported_speed(old(m)@, gid@, task, completed, speed, now),
        0,
        manager::some_connection(task.connections),
    );
    lemma_one_task_changed(*old(m), *final(m), gid@, t);
}

/// The speed of a download of known length is what came since the last sample over the
/// time since then, in bytes per second, once a tenth of a second has passed; until
/// then it stays.
pub proof fn law_speed_is_bytes_over_time(
    m: &mut TaskManager,
    gid: &str,
    share: u64,
    speed: u64,
    now: u64,
    last: Sample,
)
    requires
        old(m)@.wf(),
        manager::speed_computable(old(m)@, gid@, share, now),
        call_ensures(TaskManager::handle_progress, (m, gid, share, speed, now), ()),
        live(*old(m), gid@),
        0 < old(m)@.repo.task(gid@)->0.total_length < 0x20_0000_0000_0000,
        assoc::lookup(old(m)@.speed_samples, gid@) == Some(last),
        last.completed <= share <= old(m)@.repo.task(gid@)->0.total_length,
    ensures
        now >= last.at_ms + 100 ==> {
            let u = final(m)@.repo.task(gid@)->0;
            let dt = now - last.at_ms;
            let gain = (share - last.completed) * 1000;
            &&& u.download_speed * dt <= gain < (u.download_speed + 1) * dt
            &&& assoc::lookup(final(m)@.speed_samples, gid@) == Some(
                Sample { completed: share, at_ms: now },
            )
        },
        now < last.at_ms + 100 ==> final(m)@.repo.task(gid@)->0.download_speed == old(m)@.repo.task(gid@)->0.download_speed && final(m)@.speed_samples == old(m)@.speed_samples,
{
    let task = old(m)@.repo.task(gid@)->0;
    let completed = manager::reported_bytes(task, share);
    assert(completed == share);
    let t = repository::progressed(
        task,
        completed,
        task.total_length,
        manager::reported_speed(old(m)@, gid@, task, completed, speed, now),
        0,
        manager::some_connection(task.connections),
    );
    lemma_one_task_changed(*old(m), *final(m), gid@, t);
    if now >= last.at_ms + 100 {
        let dt = (now - last.at_ms) as nat;
        let gain = manager::gained(last, completed) * 1000;
        assoc::lemma_lookup_insert(
            old(m)@.speed_samples,
            gid@,
            (Sample { completed: share, at_ms: now }),
            gid@,
        );
        assert((gain / dt) * dt <= gain < (gain / dt + 1) * dt && gain / dt <= gain) by (nonlinear_arith)
            requires
                dt > 0,
                gain >= 0,
        ;
        assert(gain <= u64::MAX);
    }
}

/// A first report gives no speed yet, but a sample that the next one goes by.
pub proof fn law_the_first_report_gives_a_sample(
    m: &mut TaskManager,
    gid: &str,
    share: u64,
    speed: u64,
    now: u64,
)
    requires
        old(m)@.wf(),
        manager::speed_computable(old(m)@, gid@, share, now),
        call_ensures(TaskManager::handle_progress, (m, gid, share, speed, now), ()),
        live(*old(m), gid@),
        0 < old(m)@.repo.task(gid@)->0.total_length < 0x20_0000_0000_0000,
        share <= old(m)@.repo.task(gid@)->0.total_length,
        assoc::lookup(old(m)@.speed_samples, gid@) is None,
    ensures
        final(m)@.repo.task(gid@)->0.download_speed == old(m)@.repo.task(gid@)->0.download_speed,
        assoc::lookup(final(m)@.speed_samples, gid@) == Some(
            Sample { completed: share, at_ms: now },
        ),
{
    let task = old(m)@.repo.task(gid@)->0;
    let completed = manager::reported_bytes(task, share);
    let t = repository::progressed(
        task,
        completed,
        task.total_length,
        manager::reported_speed(old(m)@, gid@, task, completed, speed, now),
        0,
        manager::some_connection(task.connections),
    );
    lemma_one_task_changed(*old(m), *final(m), gid@, t);
    assoc::lemma_lookup_insert(
        old(m)@.speed_samples,
        gid@,
        (Sample { completed: share, at_ms: now }),
        gid@,
    );
}

/// A task of unknown length keeps the bytes that it has, and takes the speed that its
/// engine measures.
pub proof fn law_progress_without_a_length(
    m: &mut TaskManager,
    gid: &str,
    share: u64,
    speed: u64,
    now: u64,
)
    requires
        old(m)@.wf(),
        manager::speed_computable(old(m)@, gid@, share, now),
        call_ensures(TaskManager::handle_progress, (m, gid, share, speed, now), ()),
        live(*old(m), gid@),
        old(m)@.repo.task(gid@)->0.total_length == 0,
    ensures
        final(m)@.repo.task(gid@)->0.completed_length == old(m)@.repo.task(
            gid@,
        )->0.completed_length,
        final(m)@.repo.task(gid@)->0.download_speed == speed,
        final(m)@.repo.task(gid@)->0.status == old(m)@.repo.task(gid@)->0.status,
        final(m)@.repo.task(gid@)->0.total_length == 0,
{
    let task = old(m)@.repo.task(gid@)->0;
    let t = repository::progressed(
        task,
        task.completed_length,
        0,
        speed,
        0,
        manager::some_connection(task.connections),
    );
    lemma_one_task_changed(*old(m), *final(m), gid@, t);
}

/// Reports that come for a task that neither runs nor waits change nothing.
pub proof fn law_late_reports_change_nothing(
    m: &mut TaskManager,
    gid: &str,
    share: u64,
    speed: u64,
    now: u64,
    disk: Option<u64>,
    message: &str,
    r: bool,
    which: int,
)
    requires
        old(m)@.wf(),
        !live(*old(m), gid@),
        which == 0 ==> call_ensures(TaskManager::handle_progress, (m, gid, share, speed, now), ()),
        which == 1 ==> call_ensures(TaskManager::handle_finished, (m, gid, disk), r),
        which == 2 ==> call_ensures(TaskManager::handle_failed, (m, gid, message), r),
        which == 3 ==> call_ensures(TaskManager::handle_started, (m, gid), ()),
        0 <= which <= 3,
    ensures
        final(m)@ == old(m)@,
        which == 1 || which == 2 ==> !r,
{
}

/// A download that its engine has finished is complete: it has all its bytes, or, where
/// their number was not known, those on disk; it transfers nothing, its place among the
/// running tasks is free, and its completion is announced.
pub proof fn law_a_finished_task_is_complete(
    m: &mut TaskManager,
    gid: &str,
    disk: Option<u64>,
    r: bool,
)
    requires
        old(m)@.wf(),
        live(*old(m), gid@),
        call_ensures(TaskManager::handle_finished, (m, gid, disk), r),
    ensures
        r,
        ({
            let t = old(m)@.repo.task(gid@)->0;
            final(m)@.repo.task(gid@) matches Some(u) && {
                &&& u.status == TaskStatus::Complete
                &&& u.completed_length == u.total_length
                &&& t.total_length > 0 ==> u.total_length == t.total_length
                &&& t.total_length == 0 && disk is Some ==> u.total_length == disk->0
                &&& t.total_length == 0 && disk is None ==> u.total_length == 0
                &&& u.download_speed == 0 && u.upload_speed == 0
                &&& u.gid == t.gid && u.dir == t.dir && u.created_at == t.created_at
                &&& t.files.len() == 1 ==> u.files.len() == 1 && u.files[0].completed_length
                    == u.completed_length && u.files[0].path == t.files[0].path
            }
        }),
        !assoc::has(final(m)@.active, gid@),
        final(m)@.bt_active == old(m)@.bt_active,
        assoc::lookup(final(m)@.speed_samples, gid@) is None,
        final(m)@.events == old(m)@.events.push((gid@, "complete"@)),
        only_task_changed(*old(m), *final(m), gid@),
{
    let t = manager::finished_task(old(m)@.repo.task(gid@)->0, disk);
    lemma_one_task_changed(*old(m), *final(m), gid@, t);
    assoc::lemma_lookup_remove(old(m)@.active, gid@, gid@);
    assoc::lemma_lookup_remove(old(m)@.speed_samples, gid@, gid@);
}

/// A download that its engine gave up on has failed, for the reason that the engine
/// gives; its place among the running tasks is free, and its failure is announced.
pub proof fn law_a_failed_task_says_why(
    m: &mut TaskManager,
    gid: &str,
    message: &str,
    r: bool,
)
    requires
        old(m)@.wf(),
        live(*old(m), gid@),
        call_ensures(TaskManager::handle_failed, (m, gid, message), r),
    ensures
        r,
        final(m)@.repo.task(gid@) == Some(
            TaskView {
                status: TaskStatus::Error,
                error_code: Some(1),
                error_message: Some(message@),
                ..old(m)@.repo.task(gid@)->0
            },
        ),
        !assoc::has(final(m)@.active, gid@),
        assoc::lookup(final(m)@.speed_samples, gid@) is None,
        final(m)@.events == old(m)@.events.push((gid@, "error"@)),
        only_task_changed(*old(m), *final(m), gid@),
{
    let t = TaskView {
        status: TaskStatus::Error,
        error_code: Some(1),
        error_message: Some(message@),
        ..old(m)@.repo.task(gid@)->0
    };
    lemma_one_task_changed(*old(m), *final(m), gid@, t);
    assoc::lemma_lookup_remove(old(m)@.active, gid@, gid@);
    assoc::lemma_lookup_remove(old(m)@.speed_samples, gid@, gid@);
}

/// An engine that has started holds one connection, and nothing else of the task
/// changes.
pub proof fn law_a_started_engine_holds_one_connection(m: &mut TaskManager, gid: &str)
    requires
        old(m)@.wf(),
        live(*old(m), gid@),
        call_ensures(TaskManager::handle_started, (m, gid), ()),
    ensures
        ({
            let t = old(m)@.repo.task(gid@)->0;
            final(m)@.repo.task(gid@) matches Some(u) && {
                &&& u.connections == 1
                &&& u.completed_length == t.completed_length
                &&& u.total_length == t.total_length
                &&& u.download_speed == t.download_speed && u.upload_speed == t.upload_speed
                &&& u.status == t.status
            }
        }),
        only_task_changed(*old(m), *final(m), gid@),
        final(m)@.events == old(m)@.events,
{
    let task = old(m)@.repo.task(gid@)->0;
    let t = repository::progressed(
        task,
        task.completed_length,
        task.total_length,
        task.download_speed,
        task.upload_speed,
        1,
    );
    lemma_one_task_changed(*old(m), *final(m), gid@, t);
}

/// How many tasks may run is what the settings say, and at least one; a manager starts
/// without tasks.
pub proof fn law_a_new_manager_is_empty(
    system: &crate::config::SystemConfig,
    r: TaskManager,
    o: EngineOptions,
)
    requires
        call_ensures(TaskManager::new, (system,), r),
        call_ensures(EngineOptions::from_system_config, (system,), o),
    ensures
        r@.wf(),
        r@.repo.tasks.len() == 0 && r@.repo.removed.len() == 0,
        running(r) == 0,
        system.max_concurrent_downloads > 0 ==> r.max_concurrent
            == system.max_concurrent_downloads,
        system.max_concurrent_downloads == 0 ==> r.max_concurrent == 1,
        r.global@ == o@,
        r@.events.len() == 0,
        !r.bt_ready,
{
    assert(r@.active.len() == r.active@.len());
    assert(r@.bt_active.len() == r.bt_active@.len());
}

/// The options of a task change as its own options would, and those of every other task
/// stay; a torrent whose engine runs is told which files are left when the selection
/// changes.
pub proof fn law_changing_the_options_of_a_task(
    m: &mut TaskManager,
    gid: &str,
    given: &Json,
    ratio: Option<u64>,
    o: &mut EngineOptions,
    r: Result<manager::OptionEffect, String>,
    other: Seq<char>,
)
    requires
        old(m)@.wf(),
        call_ensures(TaskManager::change_option, (m, gid, given, ratio), r),
        assoc::lookup(old(m)@.task_options, gid@) == Some(old(o)@),
        call_ensures(EngineOptions::apply_task_options, (o, given, ratio), ()),
    ensures
        assoc::lookup(final(m)@.task_options, gid@) == Some(final(o)@),
        other != gid@ ==> assoc::lookup(final(m)@.task_options, other) == assoc::lookup(
            old(m)@.task_options,
            other,
        ),
        final(m)@.repo == old(m)@.repo,
        final(m)@.global == old(m)@.global,
        final(m)@.active == old(m)@.active && final(m)@.bt_active == old(m)@.bt_active,
        ({
            let selects = given@.field("select-file"@) is Some && (old(m)@.repo.task(gid@) is Some
                && old(m)@.repo.task(gid@)->0.bittorrent is Some);
            &&& !selects ==> (r matches Ok(e) && e is Nothing)
            &&& selects && !old(m).bt_ready ==> r is Err
            &&& selects && old(m).bt_ready ==> (r matches Ok(
                manager::OptionEffect::SelectFiles(files),
            ) && (final(o).only_files matches Some(left) ==> files@ == left@) && (
            final(o).only_files is None ==> files@.len() == 0))
        }),
{
    assoc::lemma_lookup_insert(old(m)@.task_options, gid@, final(o)@, gid@);
    assoc::lemma_lookup_insert(old(m)@.task_options, gid@, final(o)@, other);
}

/// Options of a task that is not there are refused, and change nothing.
pub proof fn law_options_of_no_task_are_refused(
    m: &mut TaskManager,
    gid: &str,
    given: &Json,
    ratio: Option<u64>,
    r: Result<manager::OptionEffect, String>,
)
    requires
        old(m)@.wf(),
        call_ensures(TaskManager::change_option, (m, gid, given, ratio), r),
        assoc::lookup(old(m)@.task_options, gid@) is None,
    ensures
        r is Err,
        final(m)@ == old(m)@,
{
}

/// The general options change as those of a task would, and how many tasks may run is
/// what is set, and at least one; the tasks stay as they are.
pub proof fn law_changing_the_general_options(
    m: &mut TaskManager,
    given: &Json,
    readings: &Vec<(String, u64)>,
    o: &mut EngineOptions,
    r: Json,
    n: u32,
)
    requires
        old(m)@.wf(),
        call_ensures(TaskManager::change_global_option, (m, given, readings), r),
        old(o)@ == old(m)@.global,
        call_ensures(
            EngineOptions::apply_task_options,
            (o, given, assoc::lookup(readings.deep_view(), "seed-ratio"@)),
            (),
        ),
    ensures
        final(m)@.global == final(o)@,
        final(m)@.repo == old(m)@.repo,
        final(m)@.task_options == old(m)@.task_options,
        final(m)@.active == old(m)@.active && final(m)@.bt_active == old(m)@.bt_active,
        given@.field("max-concurrent-downloads"@) is None ==> final(m).max_concurrent
            == old(m).max_concurrent,
        given@.field("max-concurrent-downloads"@) == Some(
            JsonView::Number(Number::Unsigned(n as u64)),
        ) ==> final(m).max_concurrent == (if n > 0 {
            n
        } else {
            1
        }),
{
}

/// A task is transferred from the first source on record for it, with the options on
/// record for it.
pub proof fn law_a_task_is_transferred_as_recorded(
    m: &TaskManager,
    gid: &str,
    r: Result<Transfer, String>,
    uris: Seq<Seq<char>>,
    o: EngineOptions,
)
    requires
        call_ensures(TaskManager::transfer, (m, gid), r),
        assoc::lookup(m@.task_uris, gid@) == Some(uris),
        uris.len() > 0,
        assoc::lookup(m@.task_options, gid@) == Some(o@),
    ensures
        r matches Ok(t) && t.url@ == uris[0] && t.options@ == o@,
{
}

/// A task without records is transferred from the first source of its first file, into
/// its own directory, under the name that its file has, with the general options
/// otherwise.
pub proof fn law_a_restored_task_is_transferred_as_it_was(
    m: &TaskManager,
    gid: &str,
    t: TaskView,
    head: Seq<char>,
    c: char,
    name: Seq<char>,
    r: Result<Transfer, String>,
)
    requires
        call_ensures(TaskManager::transfer, (m, gid), r),
        assoc::lookup(m@.task_uris, gid@) is None,
        assoc::lookup(m@.task_options, gid@) is None,
        m@.repo.task(gid@) == Some(t),
        t.files.len() > 0 && t.files[0].uris.len() > 0,
        t.files[0].path == head.push(c) + name,
        c == '/' || c == '\\',
        name.len() > 0,
        forall|i: int| 0 <= i < name.len() ==> name[i] != '/' && name[i] != '\\',
    ensures
        r matches Ok(u) && {
            &&& u.url@ == t.files[0].uris[0].0
            &&& u.options.dir@ == t.dir
            &&& u.options.out.deep_view() == Some(name)
            &&& u.options.connections == m.global.connections
            &&& u.options.all_proxy.deep_view() == m.global.all_proxy.deep_view()
            &&& u.options.max_download_limit == m.global.max_download_limit
            &&& u.options.headers.deep_view() == m.global.headers.deep_view()
            &&& u.options.user_agent.deep_view() == m.global.user_agent.deep_view()
            &&& u.options.max_tries == m.global.max_tries
        },
{
    lemma_path_name(head, c, name);
}

/// The name of a path is what stands behind its last separator.
proof fn lemma_path_name(head: Seq<char>, c: char, name: Seq<char>)
    requires
        c == '/' || c == '\\',
        forall|i: int| 0 <= i < name.len() ==> name[i] != '/' && name[i] != '\\',
    ensures
        engine::last_separator(head.push(c) + name) == head.len(),
        name.len() > 0 ==> engine::path_name(head.push(c) + name) == Some(name),
    decreases name.len(),
{
    let s = head.push(c) + name;
    if name.len() == 0 {
        assert(s.last() == c);
    } else {
        assert(s.last() == name.last());
        assert(s.drop_last() =~= head.push(c) + name.drop_last());
        lemma_path_name(head, c, name.drop_last());
    }
    assert(s.skip(head.len() + 1int) =~= name);
}

/// A task that is not there, or that has no source, is not transferred.
pub proof fn law_a_task_without_a_source_is_refused(
    m: &TaskManager,
    gid: &str,
    r: Result<Transfer, String>,
)
    requires
        call_ensures(TaskManager::transfer, (m, gid), r),
        assoc::lookup(m@.task_uris, gid@) is None,
        m@.repo.task(gid@) is None || m@.repo.task(gid@)->0.files.len() == 0 || m@.repo.task(
            gid@,
        )->0.files[0].uris.len() == 0,
    ensures
        r is Err,
{
}

/// What is fetched over HTTP is fetched in parallel first, and in sequence where that
/// cannot be started; everything else goes to the general engine, and there is nothing
/// to fall back on.
pub proof fn law_engines_are_tried_in_turn(
    url: &str,
    first: EngineKind,
    message: &str,
    next: Result<EngineKind, String>,
    then: Result<EngineKind, String>,
)
    requires
        call_ensures(manager::preferred_engine, (url,), first),
        call_ensures(manager::engine_after, (first, message), next),
        next is Ok ==> call_ensures(manager::engine_after, (next->Ok_0, message), then),
    ensures
        text::starts(url@, "http://"@) || text::starts(url@, "https://"@) ==> first is FastDown
            && next == Ok::<EngineKind, String>(EngineKind::Http) && then is Err,
        !text::starts(url@, "http://"@) && !text::starts(url@, "https://"@) ==> first is Kget
            && next is Err,
        next is Err ==> next->Err_0@ == "启动下载失败: "@ + message@,
{
}

/// The events that are still to be sent are handed out once, oldest first.
pub proof fn law_events_are_sent_once(m: &mut TaskManager, r: Vec<TaskEvent>)
    requires
        old(m)@.wf(),
        call_ensures(TaskManager::take_events, (m,), r),
    ensures
        r.deep_view() == old(m)@.events,
        final(m)@.events.len() == 0,
        final(m)@.repo == old(m)@.repo,
        final(m)@.active == old(m)@.active && final(m)@.bt_active == old(m)@.bt_active,
{
}

/// Emptying the history takes no task off the books.
pub proof fn law_purging_keeps_the_tasks(m: &mut TaskManager)
    requires
        old(m)@.wf(),
        call_ensures(TaskManager::purge, (m,), ()),
    ensures
        final(m)@.repo.removed.len() == 0,
        final(m)@.repo.tasks == old(m)@.repo.tasks,
        final(m)@.events == old(m)@.events,
{
}

/// What is looked at and cut when a download is paused: its first file, and the bytes
/// that are there; nothing where there are none, or no file.
pub proof fn law_what_a_pause_cuts(
    m: &TaskManager,
    gid: &str,
    cut: Option<(String, u64)>,
    clean: Option<String>,
    first: Option<String>,
    there: u64,
    disk: u64,
    preallocated: bool,
)
    requires
        call_ensures(TaskManager::truncate_target, (m, gid), cut),
        call_ensures(TaskManager::cleanup_target, (m, gid), clean),
        call_ensures(TaskManager::first_path, (m, gid), first),
        call_ensures(TaskManager::existing_bytes, (m, gid), there),
        call_ensures(TaskManager::is_preallocated, (m, gid, disk), preallocated),
    ensures
        m@.repo.task(gid@) is None ==> cut is None && clean is None && first is None && there == 0
            && !preallocated,
        m@.repo.task(gid@) matches Some(t) ==> {
            &&& there == t.completed_length
            &&& preallocated <==> t.completed_length < t.total_length <= disk
            &&& t.files.len() == 0 ==> cut is None && clean is None && first is None
            &&& t.files.len() > 0 ==> first.deep_view() == Some(t.files[0].path)
            &&& t.files.len() > 0 && t.files[0].path.len() > 0 ==> {
                &&& t.completed_length > 0 ==> cut.deep_view() == Some(
                    (t.files[0].path, t.completed_length),
                )
                &&& t.completed_length == 0 ==> cut is None
                &&& t.total_length > 0 ==> clean.deep_view() == Some(t.files[0].path)
                &&& t.total_length == 0 ==> clean is None
            }
        },
{
}

/// The speeds of the running tasks add up: one more running task adds its own, and a
/// task in any other state adds nothing.
pub proof fn lemma_speeds_add_up(tasks: Seq<(Seq<char>, TaskView)>, t: (Seq<char>, TaskView))
    ensures
        repository::download_total(tasks.push(t)) == repository::download_total(tasks) + (
        if t.1.status == TaskStatus::Active {
            t.1.download_speed as nat
        } else {
            0
        }),
        repository::upload_total(tasks.push(t)) == repository::upload_total(tasks) + (
        if t.1.status == TaskStatus::Active {
            t.1.upload_speed as nat
        } else {
            0
        }),
        repository::download_total(Seq::empty()) == 0,
        repository::upload_total(Seq::empty()) == 0,
{
    assert(tasks.push(t).drop_last() =~= tasks);
}

/// The figures of all tasks count the running, the queued and the stopped ones, and add
/// up the speeds of the running ones.
pub proof fn law_figures_count_by_state(m: &TaskManager, r: GlobalStat)
    requires
        m@.wf(),
        repository::download_total(m@.repo.tasks) <= u64::MAX,
        repository::upload_total(m@.repo.tasks) <= u64::MAX,
        call_ensures(TaskManager::global_stat, (m,), r),
    ensures
        r.num_active == crate::laws::remote::in_state(m@.repo.tasks, TaskStatus::Active).len(),
        r.num_waiting == crate::laws::remote::in_state(m@.repo.tasks, TaskStatus::Waiting).len(),
        r.num_stopped == crate::laws::remote::ended(m@.repo.tasks).len() + m@.repo.removed.len(),
        r.download_speed == repository::download_total(m@.repo.tasks),
        r.upload_speed == repository::upload_total(m@.repo.tasks),
        m@.repo.tasks.len() == 1 && m@.repo.tasks[0].1.status == TaskStatus::Active
            ==> r.download_speed == m@.repo.tasks[0].1.download_speed && r.upload_speed
            == m@.repo.tasks[0].1.upload_speed,
{
    crate::laws::remote::law_lists_go_by_state(m@.repo.tasks);
    if m@.repo.tasks.len() == 1 {
        let none = Seq::<(Seq<char>, TaskView)>::empty();
        lemma_speeds_add_up(none, m@.repo.tasks[0]);
        assert(none.push(m@.repo.tasks[0]) =~= m@.repo.tasks);
    }
}

/// Which changes of state there are: a running task may go to any other state; a queued
/// one to any but seeding; a paused one may run, wait, fail or be removed; a failed one
/// may only be removed; a finished one may seed or be removed; a seeding one may finish
/// or be removed; and a removed one stays.
pub proof fn law_changes_of_state(t: &mut Task, to: TaskStatus, r: Result<(), task::TaskError>)
    requires
        call_ensures(Task::transition, (t, to), r),
    ensures
        r is Ok ==> final(t)@ == (TaskView { status: to, ..old(t)@ }),
        r is Err ==> final(t)@ == old(t)@,
        old(t).status == to ==> r is Err,
        old(t).status is Removed ==> r is Err,
        to is Removed && old(t).status !is Removed ==> r is Ok,
        old(t).status is Active && to !is Active ==> r is Ok,
        old(t).status is Waiting && to !is Waiting ==> (r is Ok <==> to !is Seeding),
        old(t).status is Paused && to !is Paused ==> (r is Ok <==> to is Active || to is Waiting
            || to is Error || to is Removed),
        old(t).status is Error ==> (r is Ok <==> to is Removed),
        old(t).status is Complete ==> (r is Ok <==> to is Seeding || to is Removed),
        old(t).status is Seeding ==> (r is Ok <==> to is Complete || to is Removed),
{
}

/// A report on a task of unknown length gives no sample to measure its speed by.
pub proof fn law_no_length_no_sample(
    m: &mut TaskManager,
    gid: &str,
    share: u64,
    speed: u64,
    now: u64,
)
    requires
        old(m)@.wf(),
        manager::speed_computable(old(m)@, gid@, share, now),
        call_ensures(TaskManager::handle_progress, (m, gid, share, speed, now), ()),
        live(*old(m), gid@),
        old(m)@.repo.task(gid@)->0.total_length == 0,
    ensures
        final(m)@.speed_samples == old(m)@.speed_samples,
{
}

/// A report can be taken of a task that neither runs nor waits, of one whose length is not
/// known, and of one that has no sample or a recent one.
pub proof fn law_reports_that_can_be_taken(
    m: &TaskManager,
    gid: &str,
    share: u64,
    now: u64,
    last: Sample,
    r: bool,
)
    requires
        call_ensures(TaskManager::can_report, (m, gid, share, now), r),
    ensures
        !live(*m, gid@) ==> r,
        (m@.repo.task(gid@) matches Some(t) && t.total_length == 0) ==> r,
        assoc::lookup(m@.speed_samples, gid@) is None ==> r,
        assoc::lookup(m@.speed_samples, gid@) == Some(last) && now < last.at_ms + 100 ==> r,
{
}

/// A task whose record holds no source is transferred from that of its first file.
pub proof fn law_an_empty_record_names_no_source(
    m: &TaskManager,
    gid: &str,
    t: TaskView,
    o: EngineOptions,
    r: Result<Transfer, String>,
)
    requires
        call_ensures(TaskManager::transfer, (m, gid), r),
        assoc::lookup(m@.task_uris, gid@) == Some(Seq::<Seq<char>>::empty()),
        assoc::lookup(m@.task_options, gid@) == Some(o@),
        m@.repo.task(gid@) == Some(t),
        t.files.len() > 0 && t.files[0].uris.len() > 0,
    ensures
        r matches Ok(u) && u.url@ == t.files[0].uris[0].0 && u.options@ == o@,
{
}

/// A pause or a resumption that is refused says why: the task is not there, or its state
/// does not allow it.
pub proof fn law_refusals_say_why(
    m: &mut TaskManager,
    gid: &str,
    pause: Result<(), String>,
    resume: Result<ResumePlan, String>,
    which: int,
)
    requires
        old(m)@.wf(),
        which == 0 ==> call_ensures(TaskManager::pause, (m, gid), pause),
        which == 1 ==> call_ensures(TaskManager::force_pause, (m, gid), pause),
        which == 2 ==> call_ensures(TaskManager::pause_bt, (m, gid), pause),
        which == 3 ==> call_ensures(TaskManager::resume, (m, gid), resume),
        0 <= which <= 3,
    ensures
        which <= 2 && pause is Err ==> pause->Err_0@ == (if state_of(*old(m), gid@) is None {
            "任务不存在: "@
        } else {
            "无法暂停任务（当前状态不支持）: gid="@
        }) + gid@,
        which == 3 && resume is Err ==> resume->Err_0@ == (if state_of(*old(m), gid@) is None {
            "任务不存在: "@
        } else {
            "无法恢复任务（当前状态不支持）: gid="@
        }) + gid@,
{
}

/// A report of fewer bytes than the last sample had counts as none gained: the speed is 0.
pub proof fn law_nothing_gained_is_no_speed(
    m: &mut TaskManager,
    gid: &str,
    share: u64,
    speed: u64,
    now: u64,
    last: Sample,
)
    requires
        old(m)@.wf(),
        manager::speed_computable(old(m)@, gid@, share, now),
        call_ensures(TaskManager::handle_progress, (m, gid, share, speed, now), ()),
        live(*old(m), gid@),
        0 < old(m)@.repo.task(gid@)->0.total_length < 0x20_0000_0000_0000,
        share <= old(m)@.repo.task(gid@)->0.total_length,
        assoc::lookup(old(m)@.speed_samples, gid@) == Some(last),
        now >= last.at_ms + 100,
        share <= last.completed,
    ensures
        final(m)@.repo.task(gid@)->0.download_speed == 0,
        final(m)@.repo.task(gid@)->0.completed_length == share,
{
    let task = old(m)@.repo.task(gid@)->0;
    let completed = manager::reported_bytes(task, share);
    let t = repository::progressed(
        task,
        completed,
        task.total_length,
        manager::reported_speed(old(m)@, gid@, task, completed, speed, now),
        0,
        manager::some_connection(task.connections),
    );
    lemma_one_task_changed(*old(m), *final(m), gid@, t);
    assert(0int * 1000 / ((now - last.at_ms) as int) == 0) by (nonlinear_arith)
        requires
            now - last.at_ms > 0,
    ;
}

} // verus!
