//! Sessions: tasks saved to be taken up again, and the session files of an older
//! program.

use vstd::prelude::*;

use crate::assoc;
use crate::config::Platform;
use crate::path;
use crate::repository::{self, Group, RepositoryView, TaskRepository};
use crate::task::{self, clone_opt_text, Task, TaskFileView, TaskStatus, TaskView};
use crate::text::{self, same};

verus! {

/// Message of a task that an older program left unfinished.
pub const UNFINISHED_MIGRATE_HINT: &'static str = "旧会话未完成任务，请重新下载（*.aria2 控制文件不再解析）";

/// A task of a session file of an older program.
#[derive(Debug, PartialEq, Eq)]
pub struct ImportedTask {
    pub gid: String,
    pub status: String,
    pub path: String,
    pub urls: Vec<String>,
}

/// What an `ImportedTask` stands for.
pub struct ImportedView {
    pub gid: Seq<char>,
    pub status: Seq<char>,
    pub path: Seq<char>,
    pub urls: Seq<Seq<char>>,
}

impl DeepView for ImportedTask {
    type V = ImportedView;

    open spec fn deep_view(&self) -> ImportedView {
        ImportedView {
            gid: self.gid@,
            status: self.status@,
            path: self.path@,
            urls: self.urls.deep_view(),
        }
    }
}

/// Whether some state has the name.
pub open spec fn names_status(s: Seq<char>) -> bool {
    exists|status: TaskStatus| s == #[trigger] status.name()
}

/// The task that a line of a session file gives: an identifier, the name of a
/// state, a path and any number of sources; `None` for any other line.
pub open spec fn imported(line: Seq<char>) -> Option<ImportedView> {
    let words = text::tokens(line, false);
    if words.len() >= 3 && names_status(words[1]) {
        Some(
            ImportedView { gid: words[0], status: words[1], path: words[2], urls: words.skip(3) },
        )
    } else {
        None
    }
}

/// The tasks that the lines of a session file give.
pub open spec fn all_imported(lines: Seq<Seq<char>>) -> Seq<ImportedView>
    decreases lines.len(),
{
    if lines.len() == 0 {
        seq![]
    } else {
        let before = all_imported(lines.drop_last());
        match imported(lines.last()) {
            Some(task) => before.push(task),
            None => before,
        }
    }
}

/// The tasks of lines that stand behind others come behind the tasks of those.
proof fn lemma_imported_in_order(a: Seq<Seq<char>>, b: Seq<Seq<char>>)
    ensures
        all_imported(a + b) == all_imported(a) + all_imported(b),
    decreases b.len(),
{
    if b.len() == 0 {
        assert(a + b =~= a);
        assert(all_imported(a) + all_imported(b) =~= all_imported(a));
    } else {
        lemma_imported_in_order(a, b.drop_last());
        assert((a + b).drop_last() =~= a + b.drop_last());
        assert((a + b).last() == b.last());
        assert(all_imported(a + b) =~= all_imported(a) + all_imported(b));
    }
}

/// Two session files with a line feed between them give the tasks of the first
/// and then those of the second.
pub proof fn law_sessions_join(a: Seq<char>, b: Seq<char>)
    ensures
        all_imported(text::lines(a.push('\n') + b)) == all_imported(text::lines(a))
            + all_imported(text::lines(b)),
    decreases a.len(),
{
    let both = a.push('\n') + b;
    let i = text::find(a, '\n');
    text::lemma_find(a, '\n');
    text::lemma_find_is(both, '\n', i);
    let first = text::without_return(both.take(i));
    if i < a.len() {
        law_sessions_join(a.skip(i + 1), b);
        assert(both.skip(i + 1) =~= a.skip(i + 1).push('\n') + b);
        assert(both.take(i) =~= a.take(i));
        lemma_imported_in_order(seq![first], text::lines(both.skip(i + 1)));
        lemma_imported_in_order(seq![first], text::lines(a.skip(i + 1)));
        assert(all_imported(text::lines(both)) =~= all_imported(text::lines(a)) + all_imported(
            text::lines(b),
        ));
    } else {
        assert(both.skip(i + 1) =~= b);
        assert(both.take(i) =~= a);
        lemma_imported_in_order(seq![first], text::lines(b));
        assert(seq![first].drop_last() =~= seq![]);
        if a.len() == 0 {
            assert(imported(first) is None);
        } else {
            if a.last() == '\r' {
                assert(a =~= first.push('\r'));
                text::lemma_tokens_before_separator(first, false, '\r');
            }
            assert(imported(first) == imported(a));
            assert(seq![a].drop_last() =~= seq![]);
            assert(seq![a].last() == a);
            assert(seq![first].last() == first);
        }
        assert(all_imported(text::lines(both)) =~= all_imported(text::lines(a)) + all_imported(
            text::lines(b),
        ));
    }
}

/// A session file of one line gives one task where the line holds three words or
/// more and the second names a state, and no task otherwise.
pub proof fn law_line_is_one_task(line: Seq<char>)
    requires
        forall|i: int| 0 <= i < line.len() ==> line[i] != '\n',
    ensures
        ({
            let words = text::tokens(line, false);
            all_imported(text::lines(line)) == if words.len() >= 3 && names_status(words[1]) {
                seq![
                    ImportedView {
                        gid: words[0],
                        status: words[1],
                        path: words[2],
                        urls: words.skip(3),
                    },
                ]
            } else {
                seq![]
            }
        }),
{
    text::lemma_find_is(line, '\n', line.len() as int);
    if line.len() > 0 {
        let none = Seq::<Seq<char>>::empty();
        assert(all_imported(none) =~= seq![]);
        assert(seq![line].drop_last() =~= none);
        assert(seq![line].last() == line);
        match imported(line) {
            Some(task) => {
                assert(all_imported(seq![line]) =~= seq![task]);
            },
            None => {
                assert(all_imported(seq![line]) =~= seq![]);
            },
        }
    } else {
        assert(all_imported(text::lines(line)) =~= seq![]);
    }
}

/// The task that a line of a session file gives.
fn import_line(line: &str) -> (r: Option<ImportedTask>)
    ensures
        r.deep_view() == imported(line@),
{
    let words = text::split_tokens(line, false);
    proof {
        assert(words.deep_view().len() == words@.len());
    }
    if words.len() < 3 {
        return None;
    }
    proof {
        assert(words.deep_view()[0] == words@[0]@);
        assert(words.deep_view()[1] == words@[1]@);
        assert(words.deep_view()[2] == words@[2]@);
    }
    if TaskStatus::from_str(words[1].as_str()).is_none() {
        return None;
    }
    let mut urls: Vec<String> = Vec::new();
    let mut i: usize = 3;
    while i < words.len()
        invariant
            3 <= i <= words@.len(),
            urls@.len() == i - 3,
            forall|j: int| 0 <= j < i - 3 ==> (#[trigger] urls@[j])@ == words@[j + 3]@,
        decreases words@.len() - i,
    {
        urls.push(words[i].clone());
        i += 1;
    }
    proof {
        assert(urls.deep_view() =~= words.deep_view().skip(3));
    }
    Some(
        ImportedTask {
            gid: words[0].clone(),
            status: words[1].clone(),
            path: words[2].clone(),
            urls,
        },
    )
}

/// The tasks that a session file gives; lines that give none are left out.
pub fn parse_aria2_session(content: &str) -> (r: Vec<ImportedTask>)
    ensures
        r.deep_view() == all_imported(text::lines(content@)),
{
    let lines = text::lines_of(content);
    let ghost view = lines.deep_view();
    let mut out: Vec<ImportedTask> = Vec::new();
    let mut i: usize = 0;
    proof {
        assert(view.take(0) =~= seq![]);
        assert(out.deep_view() =~= seq![]);
    }
    while i < lines.len()
        invariant
            i <= lines@.len(),
            view == lines.deep_view(),
            out.deep_view() == all_imported(view.take(i as int)),
        decreases lines@.len() - i,
    {
        let ghost before = out.deep_view();
        proof {
            let upto = view.take(i + 1);
            assert(upto.drop_last() =~= view.take(i as int));
            assert(upto.last() == lines@[i as int]@);
        }
        if let Some(task) = import_line(lines[i].as_str()) {
            let ghost shown = task.deep_view();
            out.push(task);
            proof {
                assert(out.deep_view() =~= before.push(shown));
            }
        }
        i += 1;
    }
    proof {
        assert(view.take(i as int) =~= view);
    }
    out
}

/// A saved task.
#[derive(Debug, PartialEq, Eq)]
pub struct CheckpointTask {
    pub gid: String,
    pub status: String,
    pub dir: String,
    pub urls: Vec<String>,
    /// Path below the directory.
    pub out: Option<String>,
    pub total_length: u64,
    pub completed_length: u64,
    pub error_message: Option<String>,
    pub created_at: u64,
    /// Whether it is a torrent.
    pub is_bt: bool,
    pub info_hash: Option<String>,
    /// Pieces that are there, in hexadecimal.
    pub piece_bitmap: Option<String>,
}

/// What a `CheckpointTask` stands for.
pub struct CheckpointView {
    pub gid: Seq<char>,
    pub status: Seq<char>,
    pub dir: Seq<char>,
    pub urls: Seq<Seq<char>>,
    pub out: Option<Seq<char>>,
    pub total_length: u64,
    pub completed_length: u64,
    pub error_message: Option<Seq<char>>,
    pub created_at: u64,
    pub is_bt: bool,
    pub info_hash: Option<Seq<char>>,
    pub piece_bitmap: Option<Seq<char>>,
}

impl DeepView for CheckpointTask {
    type V = CheckpointView;

    open spec fn deep_view(&self) -> CheckpointView {
        CheckpointView {
            gid: self.gid@,
            status: self.status@,
            dir: self.dir@,
            urls: self.urls.deep_view(),
            out: self.out.deep_view(),
            total_length: self.total_length,
            completed_length: self.completed_length,
            error_message: self.error_message.deep_view(),
            created_at: self.created_at,
            is_bt: self.is_bt,
            info_hash: self.info_hash.deep_view(),
            piece_bitmap: self.piece_bitmap.deep_view(),
        }
    }
}

/// Where a file lies below its directory; its name where it does not lie below.
pub open spec fn out_of(os: Platform, p: Seq<char>, dir: Seq<char>) -> Option<Seq<char>> {
    match path::below(os, p, dir) {
        Some(rest) => if dir.len() > 0 && rest.len() > 0 {
            Some(rest)
        } else {
            path::last_part(os, p)
        },
        None => path::last_part(os, p),
    }
}

/// Where a file lies below its directory; its name where it does not lie below.
pub fn out_from_path(os: Platform, path: &str, dir: &str) -> (r: Option<String>)
    ensures
        r.deep_view() == out_of(os, path@, dir@),
{
    if !dir.is_empty() {
        if let Some(rest) = path::strip_dir(os, path, dir) {
            if !rest.as_str().is_empty() {
                return Some(rest);
            }
        }
    }
    path::file_name(os, path)
}

/// The sources of the files, one after the other.
pub open spec fn all_urls(files: Seq<TaskFileView>) -> Seq<Seq<char>>
    decreases files.len(),
{
    if files.len() == 0 {
        seq![]
    } else {
        all_urls(files.drop_last()) + Seq::new(
            files.last().uris.len(),
            |i: int| files.last().uris[i].0,
        )
    }
}

/// A task as it is saved.
pub open spec fn saved(os: Platform, t: TaskView) -> CheckpointView {
    CheckpointView {
        gid: t.gid,
        status: t.status.name(),
        dir: t.dir,
        urls: all_urls(t.files),
        out: if t.files.len() > 0 {
            out_of(os, t.files[0].path, t.dir)
        } else {
            None
        },
        total_length: t.total_length,
        completed_length: t.completed_length,
        error_message: t.error_message,
        created_at: t.created_at,
        is_bt: t.bittorrent is Some,
        info_hash: match t.bittorrent {
            Some(b) => b.info_hash,
            None => None,
        },
        piece_bitmap: if t.bitfield.len() == 0 {
            None
        } else {
            Some(t.bitfield)
        },
    }
}

/// The sources of the files of a task.
fn urls_of(t: &Task) -> (r: Vec<String>)
    ensures
        r.deep_view() == all_urls(t@.files),
{
    let mut out: Vec<String> = Vec::new();
    let ghost view = t@.files;
    let mut i: usize = 0;
    proof {
        assert(view.take(0) =~= seq![]);
        assert(out.deep_view() =~= seq![]);
    }
    while i < t.files.len()
        invariant
            i <= t.files@.len(),
            view == t@.files,
            out.deep_view() == all_urls(view.take(i as int)),
        decreases t.files@.len() - i,
    {
        let uris = &t.files[i].uris;
        let ghost before = out.deep_view();
        let ghost more = Seq::new(uris@.len(), |j: int| uris.deep_view()[j].0);
        let mut k: usize = 0;
        proof {
            assert(before + more.take(0) =~= before);
        }
        while k < uris.len()
            invariant
                k <= uris@.len(),
                more == Seq::new(uris@.len(), |j: int| uris.deep_view()[j].0),
                out.deep_view() == before + more.take(k as int),
            decreases uris@.len() - k,
        {
            let ghost so_far = out.deep_view();
            out.push(uris[k].0.clone());
            k += 1;
            proof {
                assert(more[k - 1] == uris@[k - 1].0@);
                assert(out.deep_view() =~= so_far.push(more[k - 1]));
                assert(out.deep_view() =~= before + more.take(k as int));
            }
        }
        i += 1;
        proof {
            assert(more.take(k as int) =~= more);
            let upto = view.take(i as int);
            assert(upto.drop_last() =~= view.take(i - 1));
            assert(upto.last() == t.files@[i - 1]@);
            assert(more =~= Seq::new(upto.last().uris.len(), |j: int| upto.last().uris[j].0));
        }
    }
    proof {
        assert(view.take(i as int) =~= view);
    }
    out
}

/// A task as it is saved.
fn save_task(os: Platform, t: &Task) -> (r: CheckpointTask)
    ensures
        r.deep_view() == saved(os, t@),
{
    let info_hash = match &t.bittorrent {
        Some(b) => clone_opt_text(&b.info_hash),
        None => None,
    };
    CheckpointTask {
        gid: t.gid.clone(),
        status: t.status.as_str().to_owned(),
        dir: t.dir.clone(),
        urls: urls_of(t),
        out: if t.files.len() > 0 {
            out_from_path(os, t.files[0].path.as_str(), t.dir.as_str())
        } else {
            None
        },
        total_length: t.total_length,
        completed_length: t.completed_length,
        error_message: clone_opt_text(&t.error_message),
        created_at: t.created_at,
        is_bt: t.bittorrent.is_some(),
        info_hash,
        piece_bitmap: if t.bitfield.as_str().is_empty() {
            None
        } else {
            Some(t.bitfield.clone())
        },
    }
}

/// The tasks on the books as they are saved, oldest first.
pub open spec fn all_saved(os: Platform, repo: RepositoryView) -> Seq<CheckpointView> {
    let all = repository::members(repo.tasks, Group::All);
    Seq::new(all.len(), |i: int| saved(os, all[i]))
}

/// The tasks on the books as they are saved, oldest first.
pub fn checkpoint_tasks(os: Platform, repo: &TaskRepository) -> (r: Vec<CheckpointTask>)
    ensures
        r.deep_view() == all_saved(os, repo@),
{
    let all = repo.all();
    let mut out: Vec<CheckpointTask> = Vec::new();
    let mut i: usize = 0;
    while i < all.len()
        invariant
            i <= all@.len(),
            out@.len() == i,
            forall|j: int| 0 <= j < i ==> (#[trigger] out@[j]).deep_view() == saved(os, all@[j]@),
        decreases all@.len() - i,
    {
        out.push(save_task(os, &all[i]));
        i += 1;
    }
    proof {
        assert(out.deep_view() =~= all_saved(os, repo@)) by {
            assert forall|j: int| 0 <= j < all@.len() implies #[trigger] out.deep_view()[j] == saved(
                os,
                repository::members(repo@.tasks, Group::All)[j],
            ) by {
                assert(all.deep_view()[j] == all@[j]@);
            }
        }
    }
    out
}

/// The state that a saved task is taken up in: a running one waits, and so does
/// one whose state is not known.
pub open spec fn restored_status(name: Seq<char>) -> TaskStatus {
    if name == "complete"@ {
        TaskStatus::Complete
    } else if name == "paused"@ {
        TaskStatus::Paused
    } else if name == "error"@ {
        TaskStatus::Error
    } else if name == "removed"@ {
        TaskStatus::Removed
    } else if name == "seeding"@ {
        TaskStatus::Seeding
    } else {
        TaskStatus::Waiting
    }
}

/// A saved task as it is taken up.
pub open spec fn restored(c: CheckpointView) -> TaskView {
    let base = if c.is_bt {
        task::bt_task(
            c.gid,
            if c.urls.len() > 0 {
                c.urls[0]
            } else {
                seq![]
            },
            c.dir,
            c.info_hash,
            c.created_at,
        )
    } else {
        task::http_task(
            c.gid,
            c.urls,
            c.dir,
            match c.out {
                Some(out) => out,
                None => "download"@,
            },
            c.created_at,
        )
    };
    TaskView {
        status: restored_status(c.status),
        total_length: c.total_length,
        completed_length: c.completed_length,
        error_message: c.error_message,
        bitfield: if c.is_bt && c.piece_bitmap is Some {
            c.piece_bitmap->0
        } else {
            seq![]
        },
        ..base
    }
}

/// The state that a saved task is taken up in.
fn status_from(name: &str) -> (r: TaskStatus)
    ensures
        r == restored_status(name@),
{
    if same(name, "complete") {
        TaskStatus::Complete
    } else if same(name, "paused") {
        TaskStatus::Paused
    } else if same(name, "error") {
        TaskStatus::Error
    } else if same(name, "removed") {
        TaskStatus::Removed
    } else if same(name, "seeding") {
        TaskStatus::Seeding
    } else {
        TaskStatus::Waiting
    }
}

/// A saved task as it is taken up.
fn restore_task(c: &CheckpointTask) -> (r: Task)
    ensures
        r@ == restored(c.deep_view()),
{
    let mut t = if c.is_bt {
        let source = if c.urls.len() > 0 {
            c.urls[0].clone()
        } else {
            String::new()
        };
        proof {
            assert(source@ =~= if c.urls@.len() > 0 {
                c.urls.deep_view()[0]
            } else {
                seq![]
            });
        }
        let mut t = Task::new_bt_task_at(
            c.gid.as_str(),
            source.as_str(),
            c.dir.as_str(),
            clone_opt_text(&c.info_hash),
            c.created_at,
        );
        if let Some(bitmap) = &c.piece_bitmap {
            t.bitfield = bitmap.clone();
        }
        t
    } else {
        let out = match &c.out {
            Some(out) => out.clone(),
            None => "download".to_owned(),
        };
        Task::new_http_task_at(
            c.gid.as_str(),
            &c.urls,
            c.dir.as_str(),
            out.as_str(),
            c.created_at,
        )
    };
    t.total_length = c.total_length;
    t.completed_length = c.completed_length;
    t.error_message = clone_opt_text(&c.error_message);
    t.status = status_from(c.status.as_str());
    t
}

/// The repository with the saved tasks taken up, in order.
pub open spec fn with_restored(
    repo: RepositoryView,
    tasks: Seq<CheckpointView>,
) -> RepositoryView
    decreases tasks.len(),
{
    if tasks.len() == 0 {
        repo
    } else {
        with_restored(repo, tasks.drop_last()).with_task(tasks.last().gid, restored(tasks.last()))
    }
}

/// Takes saved tasks up.
pub fn restore_checkpoint(repo: &mut TaskRepository, tasks: Vec<CheckpointTask>)
    requires
        old(repo)@.wf(),
    ensures
        final(repo)@.wf(),
        final(repo)@ == with_restored(old(repo)@, tasks.deep_view()),
{
    let ghost view = tasks.deep_view();
    let ghost before = repo@;
    let mut i: usize = 0;
    proof {
        assert(view.take(0) =~= seq![]);
    }
    while i < tasks.len()
        invariant
            i <= tasks@.len(),
            view == tasks.deep_view(),
            repo@.wf(),
            repo@ == with_restored(before, view.take(i as int)),
        decreases tasks@.len() - i,
    {
        proof {
            let upto = view.take(i + 1);
            assert(upto.drop_last() =~= view.take(i as int));
            assert(upto.last() == tasks@[i as int].deep_view());
        }
        repo.add(restore_task(&tasks[i]));
        i += 1;
    }
    proof {
        assert(view.take(i as int) =~= view);
    }
}

/// What there is to be taken up when the program starts.
#[derive(Debug, PartialEq, Eq)]
pub enum SavedSession {
    /// Saved tasks, maybe none: the session of this program.
    Checkpoint(Vec<CheckpointTask>),
    /// No saved tasks, but the session file of an older program.
    Imported(String),
    /// Neither.
    Nothing,
}

/// What a `SavedSession` stands for.
pub enum SessionView {
    Checkpoint(Seq<CheckpointView>),
    Imported(Seq<char>),
    Nothing,
}

impl DeepView for SavedSession {
    type V = SessionView;

    open spec fn deep_view(&self) -> SessionView {
        match self {
            SavedSession::Checkpoint(tasks) => SessionView::Checkpoint(tasks.deep_view()),
            SavedSession::Imported(content) => SessionView::Imported(content@),
            SavedSession::Nothing => SessionView::Nothing,
        }
    }
}

/// The tasks of a file of saved tasks: none where the file does not read as such.
pub fn readable_tasks(parsed: Option<Vec<CheckpointTask>>) -> (r: Vec<CheckpointTask>)
    ensures
        r.deep_view() == (match parsed.deep_view() {
            Some(tasks) => tasks,
            None => seq![],
        }),
{
    match parsed {
        Some(tasks) => tasks,
        None => {
            let r: Vec<CheckpointTask> = Vec::new();
            proof {
                assert(r.deep_view() =~= seq![]);
            }
            r
        },
    }
}

/// What is taken up where these are the saved tasks, if any were saved, and this is
/// the session file of an older program, if there is one.
pub open spec fn chosen(
    checkpoint: Option<Seq<CheckpointView>>,
    older: Option<Seq<char>>,
) -> SessionView {
    match (checkpoint, older) {
        (Some(tasks), _) => SessionView::Checkpoint(tasks),
        (None, Some(content)) => SessionView::Imported(content),
        (None, None) => SessionView::Nothing,
    }
}

/// What is taken up: the saved tasks wherever some were saved, and the session file
/// of an older program otherwise.
pub fn found_session(
    checkpoint: Option<Vec<CheckpointTask>>,
    older: Option<String>,
) -> (r: SavedSession)
    ensures
        r.deep_view() == chosen(checkpoint.deep_view(), older.deep_view()),
        r is Checkpoint <==> checkpoint is Some,
        r is Imported <==> checkpoint is None && older is Some,
{
    match checkpoint {
        Some(tasks) => SavedSession::Checkpoint(tasks),
        None => match older {
            Some(content) => SavedSession::Imported(content),
            None => SavedSession::Nothing,
        },
    }
}

/// A task of an older program as it is taken up: what it did not finish has
/// failed.
pub open spec fn migrated(os: Platform, t: ImportedView, created_at: u64) -> TaskView {
    let dir = match path::parent(os, t.path) {
        Some(dir) => dir,
        None => seq![],
    };
    let out = match path::last_part(os, t.path) {
        Some(out) => out,
        None => "download"@,
    };
    let base = task::http_task(t.gid, t.urls, dir, out, created_at);
    if t.status == "complete"@ {
        TaskView { status: TaskStatus::Complete, ..base }
    } else if t.status == "removed"@ {
        TaskView { status: TaskStatus::Removed, ..base }
    } else {
        TaskView {
            status: TaskStatus::Error,
            error_code: Some(1),
            error_message: Some(UNFINISHED_MIGRATE_HINT@),
            ..base
        }
    }
}

/// A task of an older program as it is taken up.
fn migrate_task(os: Platform, t: &ImportedTask, created_at: u64) -> (r: Task)
    ensures
        r@ == migrated(os, t.deep_view(), created_at),
{
    let dir = match path::parent_of(os, t.path.as_str()) {
        Some(dir) => dir,
        None => String::new(),
    };
    proof {
        assert(dir@ =~= match path::parent(os, t.path@) {
            Some(dir) => dir,
            None => seq![],
        });
    }
    let out = match path::file_name(os, t.path.as_str()) {
        Some(out) => out,
        None => "download".to_owned(),
    };
    let mut r = Task::new_http_task_at(
        t.gid.as_str(),
        &t.urls,
        dir.as_str(),
        out.as_str(),
        created_at,
    );
    if same(t.status.as_str(), "complete") {
        r.status = TaskStatus::Complete;
    } else if same(t.status.as_str(), "removed") {
        r.status = TaskStatus::Removed;
    } else {
        r.status = TaskStatus::Error;
        r.error_code = Some(1);
        r.error_message = Some(UNFINISHED_MIGRATE_HINT.to_owned());
    }
    r
}

/// The repository with the tasks of an older program taken up, in order.
pub open spec fn with_migrated(
    os: Platform,
    repo: RepositoryView,
    tasks: Seq<ImportedView>,
    created_at: u64,
) -> RepositoryView
    decreases tasks.len(),
{
    if tasks.len() == 0 {
        repo
    } else {
        with_migrated(os, repo, tasks.drop_last(), created_at).with_task(
            tasks.last().gid,
            migrated(os, tasks.last(), created_at),
        )
    }
}

/// The repository after what there was has been taken up.
pub open spec fn taken_up(
    os: Platform,
    repo: RepositoryView,
    found: SessionView,
    now: u64,
) -> RepositoryView {
    match found {
        SessionView::Checkpoint(tasks) => with_restored(repo, tasks),
        SessionView::Imported(content) => with_migrated(
            os,
            repo,
            all_imported(text::lines(content)),
            now,
        ),
        SessionView::Nothing => repo,
    }
}

/// Takes up what there is when the program starts. The result says whether the
/// tasks are to be saved at once, as after a migration.
pub fn restore_session(
    os: Platform,
    repo: &mut TaskRepository,
    found: SavedSession,
    now: u64,
) -> (save: bool)
    requires
        old(repo)@.wf(),
    ensures
        final(repo)@.wf(),
        save == (found is Imported),
        final(repo)@ == taken_up(os, old(repo)@, found.deep_view(), now),
{
    match found {
        SavedSession::Checkpoint(tasks) => {
            restore_checkpoint(repo, tasks);
            false
        },
        SavedSession::Imported(content) => {
            let tasks = parse_aria2_session(content.as_str());
            let ghost view = tasks.deep_view();
            let ghost before = repo@;
            let mut i: usize = 0;
            proof {
                assert(view.take(0) =~= seq![]);
            }
            while i < tasks.len()
                invariant
                    i <= tasks@.len(),
                    view == tasks.deep_view(),
                    repo@.wf(),
                    repo@ == with_migrated(os, before, view.take(i as int), now),
                decreases tasks@.len() - i,
            {
                proof {
                    let upto = view.take(i + 1);
                    assert(upto.drop_last() =~= view.take(i as int));
                    assert(upto.last() == tasks@[i as int].deep_view());
                }
                repo.add(migrate_task(os, &tasks[i], now));
                i += 1;
            }
            proof {
                assert(view.take(i as int) =~= view);
            }
            true
        },
        SavedSession::Nothing => false,
    }
}

/// Where there is a file of saved tasks, what is taken up is what it holds, whatever
/// an older program has left behind; a file without tasks changes nothing.
pub proof fn law_checkpoint_goes_first(
    os: Platform,
    repo: RepositoryView,
    tasks: Seq<CheckpointView>,
    older: Option<Seq<char>>,
    now: u64,
)
    ensures
        taken_up(os, repo, chosen(Some(tasks), older), now) == with_restored(repo, tasks),
        tasks.len() == 0 ==> taken_up(os, repo, chosen(Some(tasks), older), now) == repo,
{
}

/// A state is taken up as it was saved, save that a running task waits.
proof fn lemma_restored_status(status: TaskStatus)
    ensures
        restored_status(status.name()) == (if status == TaskStatus::Active {
            TaskStatus::Waiting
        } else {
            status
        }),
{
    let known = seq![
        TaskStatus::Complete,
        TaskStatus::Paused,
        TaskStatus::Error,
        TaskStatus::Removed,
        TaskStatus::Seeding,
    ];
    assert forall|i: int| 0 <= i < 5 && status.name() == (#[trigger] known[i]).name() implies status
        == known[i] by {
        task::law_status_names_distinct(status, known[i]);
    }
    assert(known[0].name() == "complete"@);
    assert(known[1].name() == "paused"@);
    assert(known[2].name() == "error"@);
    assert(known[3].name() == "removed"@);
    assert(known[4].name() == "seeding"@);
}

/// What saving a task and taking it up again keeps: its identifier, directory,
/// progress, error message and time of creation; its state, save that a running
/// task waits; whether it is a torrent; of a torrent which one, the pieces that
/// are there and the first source; of any other task all its sources.
pub proof fn law_saved_task_comes_back(os: Platform, t: TaskView)
    ensures
        ({
            let r = restored(saved(os, t));
            &&& r.gid == t.gid
            &&& r.dir == t.dir
            &&& r.total_length == t.total_length
            &&& r.completed_length == t.completed_length
            &&& r.error_message == t.error_message
            &&& r.created_at == t.created_at
            &&& r.status == (if t.status == TaskStatus::Active {
                TaskStatus::Waiting
            } else {
                t.status
            })
            &&& r.bittorrent is Some == t.bittorrent is Some
            &&& r.files.len() == 1
            &&& t.bittorrent is Some ==> {
                &&& r.bittorrent->0.info_hash == t.bittorrent->0.info_hash
                &&& r.bitfield == t.bitfield
                &&& all_urls(t.files).len() > 0 ==> r.files[0].uris == task::used_uris(
                    seq![all_urls(t.files)[0]],
                )
            }
            &&& t.bittorrent is None ==> r.files[0].uris == task::used_uris(all_urls(t.files))
        }),
{
    lemma_restored_status(t.status);
    let r = restored(saved(os, t));
    assert(t.bittorrent is Some ==> r.bitfield =~= t.bitfield);
}

/// Whether the path of the file `out` in the directory `dir` can be told from
/// what is saved of it.
pub open spec fn recoverable(os: Platform, dir: Seq<char>, out: Seq<char>) -> bool {
    let base = task::joined_path(dir, seq![]);
    if dir.len() == 0 {
        &&& path::tidy(os, path::PrefixKind::Absent, out)
        &&& path::part_count(os, path::PrefixKind::Absent, out) == 1
        &&& out != ".."@
    } else {
        path::joins(os, dir, base, out)
    }
}

/// Paths in ordinary directories can be told: on Windows in those that begin with a
/// drive and its root, elsewhere in all that do not end with a backslash.
pub proof fn law_ordinary_paths_recoverable(os: Platform, dir: Seq<char>, out: Seq<char>)
    requires
        dir.len() > 0,
        path::tidy(os, path::PrefixKind::Absent, out),
        if os == Platform::Windows {
            path::drive_at(dir, 0) && dir.len() > 2 && path::separators(os).has(dir[2])
        } else {
            dir.last() != '\\'
        },
    ensures
        recoverable(os, dir, out),
{
    reveal_strlit("/");
    let base = task::joined_path(dir, seq![]);
    let none = Seq::<char>::empty();
    assert(dir + none =~= dir);
    assert(dir + "/"@ + none =~= dir.push('/'));
    let p = base + out;
    assert forall|i: int| 0 <= i < dir.len() implies #[trigger] p[i] == dir[i] by {}
    if os == Platform::Windows {
        assert(p[0] == dir[0] && p[1] == dir[1]);
        assert(path::prefix(os, p) == path::prefix(os, dir));
        assert(path::has_root(os, dir));
    } else {
        path::lemma_not_bare(os, dir);
    }
}

/// A saved download is taken up at the path it had.
pub proof fn law_saved_path_comes_back(os: Platform, t: TaskView, out: Seq<char>)
    requires
        t.bittorrent is None,
        t.files.len() > 0,
        t.files[0].path == task::joined_path(t.dir, out),
        recoverable(os, t.dir, out),
    ensures
        restored(saved(os, t)).files[0].path == t.files[0].path,
{
    let p = t.files[0].path;
    let base = task::joined_path(t.dir, seq![]);
    reveal_strlit("/");
    assert(p =~= base + out);
    if t.dir.len() > 0 {
        assert(base =~= t.dir || base =~= t.dir.push('/'));
        path::law_below_joined(os, t.dir, base, out);
        path::lemma_tidy_front(os, path::prefix(os, t.dir).kind, out);
    } else {
        assert(base =~= "/"@);
        path::lemma_last_of_root(os, out);
        assert(out_of(os, p, t.dir) == Some(out));
    }
}

/// The tasks on the books, saved and taken up by a program that has none, are on
/// its books again, under the same identifiers and in the same order, each as
/// `law_saved_task_comes_back` says.
pub proof fn law_session_comes_back(os: Platform, repo: RepositoryView, fresh: RepositoryView)
    requires
        repo.wf(),
        forall|i: int|
            0 <= i < repo.tasks.len() ==> (#[trigger] repo.tasks[i]).0 == repo.tasks[i].1.gid,
        fresh.tasks.len() == 0,
    ensures
        with_restored(fresh, all_saved(os, repo)).tasks == Seq::new(
            repo.tasks.len(),
            |i: int| (repo.tasks[i].0, restored(saved(os, repo.tasks[i].1))),
        ),
        with_restored(fresh, all_saved(os, repo)).removed == fresh.removed,
    decreases repo.tasks.len(),
{
    let n = repo.tasks.len() as int;
    let want = Seq::new(
        repo.tasks.len(),
        |i: int| (repo.tasks[i].0, restored(saved(os, repo.tasks[i].1))),
    );
    if n > 0 {
        let less = RepositoryView { tasks: repo.tasks.drop_last(), ..repo };
        assert(less.wf());
        law_session_comes_back(os, less, fresh);
        let all = all_saved(os, repo);
        assert(all.drop_last() =~= all_saved(os, less));
        assert(all.last() == saved(os, repo.tasks.last().1));
        let before = with_restored(fresh, all_saved(os, less)).tasks;
        let gid = repo.tasks.last().0;
        assert forall|j: int| 0 <= j < n - 1 implies (#[trigger] before[j]).0 != gid by {
            assert(repo.tasks[j].0 != repo.tasks[n - 1].0);
        }
        assoc::lemma_index_is(before, gid, n - 1);
    } else {
        assert(all_saved(os, repo) =~= seq![]);
    }
    assert(with_restored(fresh, all_saved(os, repo)).tasks =~= want);
}

} // verus!
