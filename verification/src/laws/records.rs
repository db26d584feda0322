//! Records of tasks: the books that they are on, how they are saved and taken up again,
//! and what is taken over from an older program.

use vstd::prelude::*;

use crate::assoc;
use crate::config::Platform;
use crate::laws::answers;
use crate::laws::remote;
use crate::laws::words;
use crate::path;
use crate::repository::{self, Group, TaskRepository};
use crate::session::{self, CheckpointTask, ImportedTask, SavedSession};
use crate::task::{self, Task, TaskError, TaskStatus, TaskView};
use crate::text;

verus! {

/// A new download waits with nothing transferred: one file, all its sources in their
/// order, and no error.
pub proof fn law_a_new_download(
    gid: &str,
    uris: &Vec<String>,
    dir: &str,
    out: &str,
    created_at: u64,
    r: Task,
    p: String,
    i: int,
)
    requires
        call_ensures(Task::new_http_task_at, (gid, uris, dir, out, created_at), r),
        call_ensures(task::join_dir, (dir, out), p),
    ensures
        r.gid@ == gid@ && r.dir@ == dir@ && r.created_at == created_at,
        r.status == TaskStatus::Waiting,
        r.total_length == 0 && r.completed_length == 0 && r.upload_length == 0,
        r.download_speed == 0 && r.upload_speed == 0 && r.connections == 0,
        r.num_seeders == 0 && !r.seeder && r.bitfield@.len() == 0,
        r.bittorrent is None && r.error_code is None && r.error_message is None,
        r.files@.len() == 1,
        r.files@[0].path@ == p@,
        r.files@[0].index == 1 && r.files@[0].selected,
        r.files@[0].length == 0 && r.files@[0].completed_length == 0,
        r.files@[0].uris@.len() == uris@.len(),
        0 <= i < uris@.len() ==> r.files@[0].uris@[i].0@ == uris@[i]@ && r.files@[0].uris@[i].1@
            == "used"@,
{
    assert(r.files.deep_view().len() == r.files@.len());
    assert(r.files.deep_view()[0] == r.files@[0]@);
    let sources = r.files@[0].uris;
    assert(sources.deep_view().len() == sources@.len());
    if 0 <= i < uris@.len() {
        assert(sources.deep_view()[i] == (sources@[i].0@, sources@[i].1@));
        assert(uris.deep_view()[i] == uris@[i]@);
    }
}

/// A new torrent waits with nothing transferred and without metadata: its one source, and
/// its hash where that is known.
pub proof fn law_a_new_torrent(
    gid: &str,
    source: &str,
    dir: &str,
    info_hash: Option<String>,
    created_at: u64,
    r: Task,
)
    requires
        call_ensures(Task::new_bt_task_at, (gid, source, dir, info_hash, created_at), r),
    ensures
        r.gid@ == gid@ && r.dir@ == dir@ && r.created_at == created_at,
        r.status == TaskStatus::Waiting,
        r.total_length == 0 && r.completed_length == 0 && r.upload_length == 0,
        r.download_speed == 0 && r.upload_speed == 0 && r.connections == 0,
        r.num_seeders == 0 && !r.seeder && r.bitfield@.len() == 0,
        r.error_code is None && r.error_message is None,
        r.bittorrent matches Some(b) && b.mode@ == "single"@ && b.info_name is None
            && b.announce_list@.len() == 0 && b.info_hash.deep_view() == info_hash.deep_view(),
        r.files@.len() == 1,
        r.files@[0].uris@.len() == 1 && r.files@[0].uris@[0].0@ == source@,
        r.files@[0].path@ == dir@ + "/"@,
{
    assert(r.files.deep_view().len() == r.files@.len());
    assert(r.files.deep_view()[0] == r.files@[0]@);
    let sources = r.files@[0].uris;
    assert(sources.deep_view().len() == sources@.len());
    assert(sources.deep_view()[0] == (sources@[0].0@, sources@[0].1@));
    assert(r.bittorrent->0.announce_list.deep_view().len() == 0);
}

/// A task that is put on the books is found under its identifier, and every other task
/// stays as it was.
pub proof fn law_books_are_kept(
    repo: &mut TaskRepository,
    t: Task,
    gid: &str,
    r: Option<&Task>,
    has: bool,
)
    requires
        old(repo)@.wf(),
        call_ensures(TaskRepository::add, (repo, t), ()),
        call_ensures(TaskRepository::get, (&*final(repo), gid), r),
        call_ensures(TaskRepository::contains, (&*final(repo), gid), has),
    ensures
        gid@ == t.gid@ ==> r is Some && r->0@ == t@,
        gid@ != t.gid@ ==> r.deep_view() == old(repo)@.task(gid@),
        has <==> r is Some,
        final(repo)@.removed == old(repo)@.removed,
{
    assoc::lemma_lookup_insert(old(repo)@.tasks, t@.gid, t@, gid@);
}

/// A new state is taken over where the change is allowed, and nothing changes where it is
/// not or where there is no such task.
pub proof fn law_states_are_recorded(
    repo: &mut TaskRepository,
    gid: &str,
    to: TaskStatus,
    r: Result<(), TaskError>,
    ok: bool,
    other: Seq<char>,
)
    requires
        old(repo)@.wf(),
        call_ensures(TaskRepository::set_status, (repo, gid, to), r),
        old(repo)@.task(gid@) matches Some(t) ==> call_ensures(
            Task::can_transition,
            (t.status, to),
            ok,
        ),
    ensures
        old(repo)@.task(gid@) is None ==> (r matches Err(TaskError::NotFound { gid: g }) && g@
            == gid@) && final(repo)@ == old(repo)@,
        old(repo)@.task(gid@) matches Some(t) ==> {
            &&& r is Ok <==> ok
            &&& ok ==> final(repo)@.task(gid@) == Some(TaskView { status: to, ..t })
            &&& !ok ==> final(repo)@ == old(repo)@ && r == Err::<(), TaskError>(
                TaskError::InvalidTransition { from: t.status, to },
            )
        },
        other != gid@ ==> final(repo)@.task(other) == old(repo)@.task(other),
        final(repo)@.removed == old(repo)@.removed,
{
    if old(repo)@.task(gid@) is Some {
        let t = old(repo)@.task(gid@)->0;
        let u = TaskView { status: to, ..t };
        assoc::lemma_lookup_insert(old(repo)@.tasks, gid@, u, gid@);
        assoc::lemma_lookup_insert(old(repo)@.tasks, gid@, u, other);
    }
}

/// A failed task has its code and its message, whether it has failed before or not; its
/// progress stays.
pub proof fn law_failures_are_recorded(
    repo: &mut TaskRepository,
    gid: &str,
    code: i32,
    msg: String,
    r: Result<(), TaskError>,
    other: Seq<char>,
)
    requires
        old(repo)@.wf(),
        call_ensures(TaskRepository::mark_error, (repo, gid, code, msg), r),
    ensures
        old(repo)@.task(gid@) is None ==> r is Err && final(repo)@ == old(repo)@,
        old(repo)@.task(gid@) matches Some(t) ==> {
            &&& t.status == TaskStatus::Active || t.status == TaskStatus::Waiting || t.status
                == TaskStatus::Paused || t.status == TaskStatus::Error ==> r is Ok
                && final(repo)@.task(gid@) == Some(
                TaskView {
                    status: TaskStatus::Error,
                    error_code: Some(code),
                    error_message: Some(msg@),
                    ..t
                },
            )
            &&& t.status == TaskStatus::Complete || t.status == TaskStatus::Seeding || t.status
                == TaskStatus::Removed ==> r is Err && final(repo)@ == old(repo)@
        },
        other != gid@ ==> final(repo)@.task(other) == old(repo)@.task(other),
{
    if old(repo)@.task(gid@) is Some {
        let t = old(repo)@.task(gid@)->0;
        let u = TaskView {
            status: TaskStatus::Error,
            error_code: Some(code),
            error_message: Some(msg@),
            ..t
        };
        assoc::lemma_lookup_insert(old(repo)@.tasks, gid@, u, gid@);
        assoc::lemma_lookup_insert(old(repo)@.tasks, gid@, u, other);
    }
}

/// Progress is recorded figure by figure; a single file has the progress of its task, and
/// its length as soon as that is known.
pub proof fn law_progress_is_recorded(
    repo: &mut TaskRepository,
    gid: &str,
    completed: u64,
    total: u64,
    down: u64,
    up: u64,
    connections: u32,
    r: Result<(), TaskError>,
    other: Seq<char>,
)
    requires
        old(repo)@.wf(),
        call_ensures(
            TaskRepository::update_progress,
            (repo, gid, completed, total, down, up, connections),
            r,
        ),
    ensures
        old(repo)@.task(gid@) is None ==> r is Err && final(repo)@ == old(repo)@,
        old(repo)@.task(gid@) matches Some(t) ==> r is Ok && (
        final(repo)@.task(gid@) matches Some(u) && {
            &&& u.completed_length == completed && u.total_length == total
            &&& u.download_speed == down && u.upload_speed == up && u.connections == connections
            &&& u.gid == t.gid && u.status == t.status && u.dir == t.dir
            &&& u.bittorrent == t.bittorrent && u.upload_length == t.upload_length
            &&& t.files.len() != 1 ==> u.files == t.files
            &&& t.files.len() == 1 ==> u.files.len() == 1 && u.files[0].completed_length
                == completed && u.files[0].path == t.files[0].path
            &&& t.files.len() == 1 && total > 0 ==> u.files[0].length == total
            &&& t.files.len() == 1 && total == 0 ==> u.files[0].length == t.files[0].length
        }),
        other != gid@ ==> final(repo)@.task(other) == old(repo)@.task(other),
{
    if old(repo)@.task(gid@) is Some {
        let t = old(repo)@.task(gid@)->0;
        let u = repository::progressed(t, completed, total, down, up, connections);
        assoc::lemma_lookup_insert(old(repo)@.tasks, gid@, u, gid@);
        assoc::lemma_lookup_insert(old(repo)@.tasks, gid@, u, other);
    }
}

/// A task that is taken off the books is handed out as it was and closes the history as
/// removed; the oldest of a hundred makes room for it. Emptying the history leaves the
/// books alone.
pub proof fn law_removals_are_recorded(
    repo: &mut TaskRepository,
    gid: &str,
    r: Option<Task>,
    other: Seq<char>,
    cleared: &mut TaskRepository,
)
    requires
        old(repo)@.wf(),
        call_ensures(TaskRepository::remove, (repo, gid), r),
        *old(cleared) == *final(repo),
        call_ensures(TaskRepository::purge_removed, (cleared,), ()),
    ensures
        r.deep_view() == old(repo)@.task(gid@),
        final(repo)@.task(gid@) is None,
        other != gid@ ==> final(repo)@.task(other) == old(repo)@.task(other),
        old(repo)@.task(gid@) is None ==> final(repo)@ == old(repo)@,
        old(repo)@.task(gid@) matches Some(t) ==> final(repo)@.removed.len() > 0
            && final(repo)@.removed.last() == (TaskView { status: TaskStatus::Removed, ..t }),
        old(repo)@.task(gid@) is Some && old(repo)@.removed.len() < 100 ==> final(repo)@.removed.drop_last() == old(repo)@.removed,
        old(repo)@.task(gid@) is Some && old(repo)@.removed.len() == 100 ==> final(repo)@.removed.drop_last() == old(repo)@.removed.skip(1),
        final(cleared)@.removed.len() == 0,
        final(cleared)@.tasks == final(repo)@.tasks,
{
    let before = old(repo)@;
    assoc::lemma_lookup_remove(before.tasks, gid@, gid@);
    assoc::lemma_lookup_remove(before.tasks, gid@, other);
    assoc::lemma_index_of(before.tasks, gid@);
    if before.task(gid@) is Some {
        let t = TaskView { status: TaskStatus::Removed, ..before.task(gid@)->0 };
        let history = before.removed.push(t);
        assert(history.drop_last() =~= before.removed);
        if before.removed.len() == 100 {
            assert(history.skip(1).drop_last() =~= before.removed.skip(1));
        }
    }
}

/// What is saved of a task: its figures, its state by its word, and of a torrent its hash
/// and the pieces that are there.
pub proof fn law_a_task_is_saved_as_it_is(
    os: Platform,
    repo: &TaskRepository,
    r: Vec<CheckpointTask>,
    i: int,
)
    requires
        call_ensures(session::checkpoint_tasks, (os, repo), r),
        0 <= i < repo@.tasks.len(),
    ensures
        r@.len() == repo@.tasks.len(),
        ({
            let t = repo@.tasks[i].1;
            let c = r@[i];
            &&& c.gid@ == t.gid && c.dir@ == t.dir
            &&& c.status@ == answers::state_word(t.status)
            &&& c.total_length == t.total_length && c.completed_length == t.completed_length
            &&& c.created_at == t.created_at
            &&& c.error_message.deep_view() == t.error_message
            &&& c.is_bt <==> t.bittorrent is Some
            &&& t.bittorrent matches Some(b) ==> c.info_hash.deep_view() == b.info_hash
            &&& t.bittorrent is None ==> c.info_hash is None
            &&& t.bitfield.len() > 0 ==> (c.piece_bitmap matches Some(m) && m@ == t.bitfield)
            &&& t.bitfield.len() == 0 ==> c.piece_bitmap is None
        }),
{
    lemma_saved(os, repo, r, i);
}

proof fn lemma_saved(os: Platform, repo: &TaskRepository, r: Vec<CheckpointTask>, i: int)
    requires
        r.deep_view() == session::all_saved(os, repo@),
        0 <= i < repo@.tasks.len(),
    ensures
        r@.len() == repo@.tasks.len(),
        r@[i].deep_view() == session::saved(os, repo@.tasks[i].1),
{
    remote::law_lists_go_by_state(repo@.tasks);
    let all = repository::members(repo@.tasks, Group::All);
    assert(r.deep_view().len() == r@.len());
    assert(r.deep_view()[i] == r@[i].deep_view());
    assert(all[i] == repo@.tasks[i].1);
}

/// The sources of a task of one file are saved, all of them and in their order.
pub proof fn law_the_sources_of_a_task_are_saved(
    os: Platform,
    repo: &TaskRepository,
    r: Vec<CheckpointTask>,
    i: int,
    k: int,
)
    requires
        call_ensures(session::checkpoint_tasks, (os, repo), r),
        0 <= i < repo@.tasks.len(),
        repo@.tasks[i].1.files.len() == 1,
        0 <= k < repo@.tasks[i].1.files[0].uris.len(),
    ensures
        r@[i].urls@.len() == repo@.tasks[i].1.files[0].uris.len(),
        r@[i].urls@[k]@ == repo@.tasks[i].1.files[0].uris[k].0,
{
    lemma_saved(os, repo, r, i);
    let files = repo@.tasks[i].1.files;
    let urls = r@[i].urls;
    assert(files.drop_last() =~= seq![]);
    assert(session::all_urls(files.drop_last()) =~= seq![]);
    assert(session::all_urls(files) =~= Seq::new(
        files.last().uris.len(),
        |j: int| files.last().uris[j].0,
    ));
    assert(urls.deep_view().len() == urls@.len());
    assert(urls.deep_view()[k] == urls@[k]@);
}

/// What is saved of where the first file lies is its place below the directory.
pub proof fn law_the_place_of_a_task_is_saved(
    os: Platform,
    repo: &TaskRepository,
    r: Vec<CheckpointTask>,
    i: int,
    p: &str,
    dir: &str,
    out: Option<String>,
)
    requires
        call_ensures(session::checkpoint_tasks, (os, repo), r),
        0 <= i < repo@.tasks.len(),
        p@ == repo@.tasks[i].1.files[0].path,
        dir@ == repo@.tasks[i].1.dir,
        call_ensures(session::out_from_path, (os, p, dir), out),
    ensures
        repo@.tasks[i].1.files.len() > 0 ==> r@[i].out.deep_view() == out.deep_view(),
        repo@.tasks[i].1.files.len() == 0 ==> r@[i].out is None,
{
    lemma_saved(os, repo, r, i);
}

/// The state that a task is taken up in: the one that it was saved in, save that a running
/// one waits.
pub open spec fn state_after_restart(word: Seq<char>, status: TaskStatus) -> bool {
    &&& word == "complete"@ ==> status == TaskStatus::Complete
    &&& word == "paused"@ ==> status == TaskStatus::Paused
    &&& word == "error"@ ==> status == TaskStatus::Error
    &&& word == "removed"@ ==> status == TaskStatus::Removed
    &&& word == "seeding"@ ==> status == TaskStatus::Seeding
    &&& word == "waiting"@ || word == "active"@ ==> status == TaskStatus::Waiting
}

proof fn lemma_words_differ()
    ensures
        "complete"@ != "paused"@ && "complete"@ != "error"@ && "complete"@ != "removed"@
            && "complete"@ != "seeding"@ && "complete"@ != "waiting"@ && "complete"@ != "active"@,
        "paused"@ != "error"@ && "paused"@ != "removed"@ && "paused"@ != "seeding"@ && "paused"@
            != "waiting"@ && "paused"@ != "active"@,
        "error"@ != "removed"@ && "error"@ != "seeding"@ && "error"@ != "waiting"@ && "error"@
            != "active"@,
        "removed"@ != "seeding"@ && "removed"@ != "waiting"@ && "removed"@ != "active"@,
        "seeding"@ != "waiting"@ && "seeding"@ != "active"@,
{
    reveal_strlit("complete");
    reveal_strlit("paused");
    reveal_strlit("error");
    reveal_strlit("removed");
    reveal_strlit("seeding");
    reveal_strlit("waiting");
    reveal_strlit("active");
    assert("complete"@[0] == 'c' && "paused"@[0] == 'p' && "error"@[0] == 'e' && "removed"@[0]
        == 'r' && "seeding"@[0] == 's' && "waiting"@[0] == 'w' && "active"@[0] == 'a');
}

/// Of tasks that are taken up, the one under an identifier is the last that has it; every
/// identifier that none of them has keeps its task.
proof fn lemma_taken_up(
    repo: repository::RepositoryView,
    tasks: Seq<session::CheckpointView>,
    k: int,
    gid: Seq<char>,
)
    requires
        0 <= k < tasks.len() ==> tasks[k].gid == gid && forall|j: int|
            k < j < tasks.len() ==> (#[trigger] tasks[j]).gid != gid,
        !(0 <= k < tasks.len()) ==> forall|j: int|
            0 <= j < tasks.len() ==> (#[trigger] tasks[j]).gid != gid,
    ensures
        0 <= k < tasks.len() ==> session::with_restored(repo, tasks).task(gid) == Some(
            session::restored(tasks[k]),
        ),
        !(0 <= k < tasks.len()) ==> session::with_restored(repo, tasks).task(gid) == repo.task(gid),
        session::with_restored(repo, tasks).removed == repo.removed,
    decreases tasks.len(),
{
    if tasks.len() > 0 {
        let less = tasks.drop_last();
        let last = tasks.last();
        let before = session::with_restored(repo, less);
        assert forall|j: int| 0 <= j < less.len() implies #[trigger] less[j] == tasks[j] by {}
        assoc::lemma_lookup_insert(before.tasks, last.gid, session::restored(last), gid);
        if 0 <= k < less.len() {
            assert(tasks[tasks.len() - 1].gid != gid);
            lemma_taken_up(repo, less, k, gid);
        } else if k == tasks.len() - 1 {
            lemma_removed_kept(repo, less);
        } else {
            assert(tasks[tasks.len() - 1].gid != gid);
            lemma_taken_up(repo, less, -1, gid);
        }
    }
}

proof fn lemma_removed_kept(
    repo: repository::RepositoryView,
    tasks: Seq<session::CheckpointView>,
)
    ensures
        session::with_restored(repo, tasks).removed == repo.removed,
    decreases tasks.len(),
{
    if tasks.len() > 0 {
        lemma_removed_kept(repo, tasks.drop_last());
    }
}

/// A saved task is taken up with its figures, in the state it was saved in, save that a
/// running one waits; of a torrent its hash and pieces, of any other task all its sources.
pub proof fn law_a_saved_task_is_taken_up(
    repo: &mut TaskRepository,
    tasks: Vec<CheckpointTask>,
    k: int,
    other: Seq<char>,
    i: int,
)
    requires
        old(repo)@.wf(),
        call_ensures(session::restore_checkpoint, (repo, tasks), ()),
        0 <= k < tasks@.len(),
        forall|j: int| k < j < tasks@.len() ==> (#[trigger] tasks@[j]).gid@ != tasks@[k].gid@,
        forall|j: int| 0 <= j < tasks@.len() ==> (#[trigger] tasks@[j]).gid@ != other,
    ensures
        ({
            let c = tasks@[k];
            final(repo)@.task(c.gid@) matches Some(t) && {
                &&& t.gid == c.gid@ && t.dir == c.dir@ && t.created_at == c.created_at
                &&& t.total_length == c.total_length && t.completed_length == c.completed_length
                &&& t.error_message == c.error_message.deep_view()
                &&& state_after_restart(c.status@, t.status)
                &&& t.files.len() == 1
                &&& t.bittorrent is Some <==> c.is_bt
                &&& c.is_bt ==> t.bittorrent->0.info_hash == c.info_hash.deep_view()
                &&& c.is_bt ==> (c.piece_bitmap matches Some(m) ==> t.bitfield == m@)
                &&& !c.is_bt ==> t.files[0].uris.len() == c.urls@.len()
                &&& !c.is_bt && 0 <= i < c.urls@.len() ==> t.files[0].uris[i].0 == c.urls@[i]@
                &&& c.is_bt && c.urls@.len() > 0 ==> t.files[0].uris.len() == 1
                    && t.files[0].uris[0].0 == c.urls@[0]@
                &&& t.download_speed == 0 && t.upload_speed == 0
            }
        }),
        final(repo)@.task(other) == old(repo)@.task(other),
        final(repo)@.removed == old(repo)@.removed,
{
    lemma_words_differ();
    let view = tasks.deep_view();
    let c = tasks@[k];
    assert forall|j: int| 0 <= j < view.len() implies #[trigger] view[j] == tasks@[j].deep_view() by {
    }
    assert forall|j: int| k < j < view.len() implies (#[trigger] view[j]).gid != c.gid@ by {
        assert(tasks@[j].gid@ != c.gid@);
    }
    assert forall|j: int| 0 <= j < view.len() implies (#[trigger] view[j]).gid != other by {
        assert(tasks@[j].gid@ != other);
    }
    lemma_taken_up(old(repo)@, view, k, c.gid@);
    lemma_taken_up(old(repo)@, view, -1, other);
    assert(c.urls.deep_view().len() == c.urls@.len());
    if 0 <= i < c.urls@.len() {
        assert(c.urls.deep_view()[i] == c.urls@[i]@);
    }
    if c.urls@.len() > 0 {
        assert(c.urls.deep_view()[0] == c.urls@[0]@);
    }
}

/// A saved download is taken up at the place below its directory, or under a general name
/// where none was saved.
pub proof fn law_a_saved_download_keeps_its_place(
    repo: &mut TaskRepository,
    tasks: Vec<CheckpointTask>,
    dir: &str,
    out: &str,
    p: String,
)
    requires
        old(repo)@.wf(),
        call_ensures(session::restore_checkpoint, (repo, tasks), ()),
        tasks@.len() == 1,
        !tasks@[0].is_bt,
        dir@ == tasks@[0].dir@,
        tasks@[0].out matches Some(o) ==> o@ == out@,
        tasks@[0].out is None ==> out@ == "download"@,
        call_ensures(task::join_dir, (dir, out), p),
    ensures
        final(repo)@.task(tasks@[0].gid@) matches Some(t) && t.files[0].path == p@,
{
    let view = tasks.deep_view();
    assert(view[0] == tasks@[0].deep_view());
    lemma_taken_up(old(repo)@, view, 0, tasks@[0].gid@);
}

/// What is taken up at the start: the saved tasks wherever there is a file of them, else
/// what an older program left; a file that cannot be read holds no tasks.
pub proof fn law_what_is_taken_up(
    checkpoint: Option<Vec<CheckpointTask>>,
    older: Option<String>,
    r: SavedSession,
    parsed: Option<Vec<CheckpointTask>>,
    read: Vec<CheckpointTask>,
)
    requires
        call_ensures(session::found_session, (checkpoint, older), r),
        call_ensures(session::readable_tasks, (parsed,), read),
    ensures
        checkpoint matches Some(tasks) ==> (r matches SavedSession::Checkpoint(v) && v.deep_view()
            == tasks.deep_view()),
        checkpoint is None && older is Some ==> (r matches SavedSession::Imported(s) && s@
            == older->0@),
        checkpoint is None && older is None ==> r is Nothing,
        parsed matches Some(tasks) ==> read.deep_view() == tasks.deep_view(),
        parsed is None ==> read@.len() == 0,
{
    assert(read.deep_view().len() == read@.len());
}

/// Whether a text has no blanks.
pub open spec fn one_word(s: Seq<char>) -> bool {
    s.len() > 0 && forall|i: int| 0 <= i < s.len() ==> !text::spec_is_space(#[trigger] s[i])
}

/// A line of a session file of an older program.
pub open spec fn session_line(gid: Seq<char>, status: Seq<char>, p: Seq<char>, url: Seq<char>) ->
    Seq<char> {
    gid.push(' ') + (status.push(' ') + (p.push(' ') + url))
}

proof fn lemma_session_line(gid: Seq<char>, status: Seq<char>, p: Seq<char>, url: Seq<char>)
    requires
        one_word(gid) && one_word(status) && one_word(p) && one_word(url),
    ensures
        text::tokens(session_line(gid, status, p, url), false) == seq![gid, status, p, url],
        forall|i: int|
            0 <= i < session_line(gid, status, p, url).len() ==> session_line(
                gid,
                status,
                p,
                url,
            )[i] != '\n',
{
    words::lemma_one_token(gid, false);
    words::lemma_one_token(status, false);
    words::lemma_one_token(p, false);
    words::lemma_one_token(url, false);
    words::lemma_tokens_join(p, ' ', url, false);
    words::lemma_tokens_join(status, ' ', p.push(' ') + url, false);
    words::lemma_tokens_join(gid, ' ', status.push(' ') + (p.push(' ') + url), false);
    let line = session_line(gid, status, p, url);
    assert(text::tokens(line, false) =~= seq![gid, status, p, url]);
    assert forall|i: int| 0 <= i < line.len() implies line[i] != '\n' by {
        let a = gid.len() as int;
        let b = a + 1 + status.len();
        let c = b + 1 + p.len();
        if i < a {
            assert(line[i] == gid[i]);
            assert(!text::spec_is_space(gid[i]));
        } else if a < i < b {
            assert(line[i] == status[i - a - 1]);
            assert(!text::spec_is_space(status[i - a - 1]));
        } else if b < i < c {
            assert(line[i] == p[i - b - 1]);
            assert(!text::spec_is_space(p[i - b - 1]));
        } else if c < i {
            assert(line[i] == url[i - c - 1]);
            assert(!text::spec_is_space(url[i - c - 1]));
        }
    }
}

/// A line of a session file gives a task: identifier, state, path and sources in this
/// order; a state that is none gives no task.
pub proof fn law_a_session_line_is_a_task(
    content: &str,
    gid: Seq<char>,
    status: Seq<char>,
    p: Seq<char>,
    url: Seq<char>,
    r: Vec<ImportedTask>,
    word: &str,
    known: Option<TaskStatus>,
)
    requires
        one_word(gid) && one_word(status) && one_word(p) && one_word(url),
        content@ == session_line(gid, status, p, url),
        call_ensures(session::parse_aria2_session, (content,), r),
        word@ == status,
        call_ensures(TaskStatus::from_str, (word,), known),
    ensures
        known is Some ==> r@.len() == 1 && r@[0].gid@ == gid && r@[0].status@ == status
            && r@[0].path@ == p && r@[0].urls@.len() == 1 && r@[0].urls@[0]@ == url,
        known is None ==> r@.len() == 0,
{
    lemma_session_line(gid, status, p, url);
    session::law_line_is_one_task(content@);
    let view = r.deep_view();
    assert(view.len() == r@.len());
    let all = seq![gid, status, p, url];
    assert(all.skip(3) =~= seq![url]);
    if known is Some {
        assert(status == known->0.name());
        assert(view[0] == r@[0].deep_view());
        let urls = r@[0].urls;
        assert(urls.deep_view().len() == urls@.len());
        assert(urls.deep_view()[0] == urls@[0]@);
    }
}

/// Session files behind each other give their tasks behind each other.
pub proof fn law_session_files_join(
    a: &str,
    b: &str,
    both: &str,
    x: Vec<ImportedTask>,
    y: Vec<ImportedTask>,
    z: Vec<ImportedTask>,
)
    requires
        both@ == a@.push('\n') + b@,
        call_ensures(session::parse_aria2_session, (a,), x),
        call_ensures(session::parse_aria2_session, (b,), y),
        call_ensures(session::parse_aria2_session, (both,), z),
    ensures
        z.deep_view() == x.deep_view() + y.deep_view(),
{
    session::law_sessions_join(a@, b@);
}

/// A task of an older program that it had finished is complete, one that it had removed
/// is removed, and every other one has failed, with a word on why; each lies where it lay,
/// and the tasks are to be saved.
pub proof fn law_an_older_task_is_taken_over(
    os: Platform,
    repo: &mut TaskRepository,
    content: String,
    now: u64,
    save: bool,
    gid: Seq<char>,
    status: Seq<char>,
    p: &str,
    url: Seq<char>,
    up: Option<String>,
    name: Option<String>,
    dir: &str,
    out: &str,
    place: String,
)
    requires
        old(repo)@.wf(),
        one_word(gid) && one_word(status) && one_word(p@) && one_word(url),
        content@ == session_line(gid, status, p@, url),
        session::names_status(status),
        call_ensures(
            session::restore_session,
            (os, repo, SavedSession::Imported(content), now),
            save,
        ),
        call_ensures(path::parent_of, (os, p), up),
        call_ensures(path::file_name, (os, p), name),
        up matches Some(d) && d@ == dir@,
        name matches Some(n) && n@ == out@,
        call_ensures(task::join_dir, (dir, out), place),
    ensures
        save,
        final(repo)@.task(gid) matches Some(t) && {
            &&& t.gid == gid && t.created_at == now && t.dir == dir@
            &&& t.files.len() == 1 && t.files[0].path == place@
            &&& t.files[0].uris.len() == 1 && t.files[0].uris[0].0 == url
            &&& t.bittorrent is None
            &&& status == "complete"@ ==> t.status == TaskStatus::Complete && t.error_code is None
            &&& status == "removed"@ ==> t.status == TaskStatus::Removed && t.error_code is None
            &&& status != "complete"@ && status != "removed"@ ==> t.status == TaskStatus::Error
                && t.error_code == Some(1i32) && t.error_message == Some(
                "旧会话未完成任务，请重新下载（*.aria2 控制文件不再解析）"@,
            )
        },
{
    lemma_words_differ();
    lemma_session_line(gid, status, p@, url);
    session::law_line_is_one_task(content@);
    let all = seq![gid, status, p@, url];
    assert(all.skip(3) =~= seq![url]);
    let tasks = session::all_imported(text::lines(content@));
    let t = tasks[0];
    assert(tasks.len() == 1);
    assert(tasks.drop_last() =~= seq![]);
    assert(session::with_migrated(os, old(repo)@, seq![], now) == old(repo)@);
    assert(final(repo)@ == old(repo)@.with_task(gid, session::migrated(os, t, now)));
    assoc::lemma_lookup_insert(old(repo)@.tasks, gid, session::migrated(os, t, now), gid);
}

/// At a start with saved tasks these are taken up, and nothing needs to be saved; at a
/// start with nothing the books stay as they are.
pub proof fn law_a_start_takes_up_what_was_saved(
    os: Platform,
    repo: &mut TaskRepository,
    tasks: Vec<CheckpointTask>,
    now: u64,
    save: bool,
    same: &mut TaskRepository,
    idle: &mut TaskRepository,
    none: bool,
)
    requires
        old(repo)@.wf() && old(same)@ == old(repo)@ && old(idle)@ == old(repo)@,
        call_ensures(
            session::restore_session,
            (os, repo, SavedSession::Checkpoint(tasks), now),
            save,
        ),
        call_ensures(session::restore_checkpoint, (same, tasks), ()),
        call_ensures(session::restore_session, (os, idle, SavedSession::Nothing, now), none),
    ensures
        final(repo)@ == final(same)@,
        !save && !none,
        final(idle)@ == old(idle)@,
{
}

/// A line of a session file of three words is a task without sources, and a shorter line
/// is none.
pub proof fn law_short_session_lines(
    content: &str,
    gid: Seq<char>,
    status: Seq<char>,
    p: Seq<char>,
    r: Vec<ImportedTask>,
)
    requires
        one_word(gid) && one_word(status) && one_word(p),
        session::names_status(status),
        call_ensures(session::parse_aria2_session, (content,), r),
    ensures
        content@ == gid.push(' ') + (status.push(' ') + p) ==> r@.len() == 1 && r@[0].gid@ == gid
            && r@[0].status@ == status && r@[0].path@ == p && r@[0].urls@.len() == 0,
        content@ == gid.push(' ') + status ==> r@.len() == 0,
{
    words::lemma_one_token(gid, false);
    words::lemma_one_token(status, false);
    words::lemma_one_token(p, false);
    words::lemma_tokens_join(status, ' ', p, false);
    words::lemma_tokens_join(gid, ' ', status.push(' ') + p, false);
    words::lemma_tokens_join(gid, ' ', status, false);
    let line = content@;
    let view = r.deep_view();
    assert(view.len() == r@.len());
    let a = gid.len() as int;
    let b = a + 1 + status.len();
    if line == gid.push(' ') + (status.push(' ') + p) {
        assert(text::tokens(line, false) =~= seq![gid, status, p]);
        assert forall|i: int| 0 <= i < line.len() implies line[i] != '\n' by {
            if i < a {
                assert(line[i] == gid[i]);
                assert(!text::spec_is_space(gid[i]));
            } else if a < i < b {
                assert(line[i] == status[i - a - 1]);
                assert(!text::spec_is_space(status[i - a - 1]));
            } else if b < i {
                assert(line[i] == p[i - b - 1]);
                assert(!text::spec_is_space(p[i - b - 1]));
            }
        }
        session::law_line_is_one_task(line);
        assert(seq![gid, status, p].skip(3) =~= seq![]);
        assert(view[0] == r@[0].deep_view());
        assert(r@[0].urls.deep_view().len() == r@[0].urls@.len());
    }
    if line == gid.push(' ') + status {
        assert(text::tokens(line, false) =~= seq![gid, status]);
        assert forall|i: int| 0 <= i < line.len() implies line[i] != '\n' by {
            if i < a {
                assert(line[i] == gid[i]);
                assert(!text::spec_is_space(gid[i]));
            } else if a < i {
                assert(line[i] == status[i - a - 1]);
                assert(!text::spec_is_space(status[i - a - 1]));
            }
        }
        session::law_line_is_one_task(line);
    }
}

/// A file without a directory is saved by its name.
pub proof fn law_without_a_directory_the_name_is_saved(
    os: Platform,
    p: &str,
    dir: &str,
    out: Option<String>,
    name: Option<String>,
)
    requires
        dir@.len() == 0,
        call_ensures(session::out_from_path, (os, p, dir), out),
        call_ensures(path::file_name, (os, p), name),
    ensures
        out.deep_view() == name.deep_view(),
{
}

/// A torrent that was saved without a source is taken up with an empty one.
pub proof fn law_a_torrent_without_a_source_is_taken_up(
    repo: &mut TaskRepository,
    tasks: Vec<CheckpointTask>,
)
    requires
        old(repo)@.wf(),
        call_ensures(session::restore_checkpoint, (repo, tasks), ()),
        tasks@.len() == 1,
        tasks@[0].is_bt && tasks@[0].urls@.len() == 0,
    ensures
        final(repo)@.task(tasks@[0].gid@) matches Some(t) && t.files[0].uris.len() == 1
            && t.files[0].uris[0].0.len() == 0,
{
    let view = tasks.deep_view();
    assert(view[0] == tasks@[0].deep_view());
    assert(tasks@[0].urls.deep_view().len() == 0);
    lemma_taken_up(old(repo)@, view, 0, tasks@[0].gid@);
}

} // verus!
