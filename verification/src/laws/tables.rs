//! Tables, lists and ranges: what is put into them, and what is found there.

use vstd::prelude::*;
use vstd::utf8::*;

use crate::assoc;
use crate::bt::{self, TorrentTable};
use crate::fastdown::{self, FdState, FileId};
use crate::json::{self, Json, JsonView, Number};
use crate::kget::{self, ProbeStep};
use crate::laws::remote;
use crate::manager::TaskManager;
use crate::options;
use crate::repository::TaskRepository;
use crate::rpc::RpcError;
use crate::rpc_backend;
use crate::size;
use crate::task::{self, Task, TaskStatus};
use crate::text;

verus! {

/// An entry of a table is found under its key, where no earlier one has that key.
pub proof fn law_entries_are_found<V: DeepView>(
    table: &Vec<(String, V)>,
    key: &str,
    i: int,
    place: usize,
    has: bool,
    r: Option<&V>,
)
    requires
        call_ensures(assoc::place_of::<V>, (table, key), place),
        call_ensures(assoc::has_key::<V>, (table, key), has),
        call_ensures(assoc::lookup_in::<V>, (table, key), r),
        0 <= i <= table@.len(),
        forall|j: int| 0 <= j < i ==> (#[trigger] table@[j]).0@ != key@,
        i < table@.len() ==> table@[i].0@ == key@,
    ensures
        place == i,
        has <==> i < table@.len(),
        i < table@.len() ==> r is Some && r->0.deep_view() == table@[i].1.deep_view(),
        i == table@.len() ==> r is None,
{
    let view = table.deep_view();
    assert forall|j: int| 0 <= j < i implies (#[trigger] view[j]).0 != key@ by {
        assert(view[j].0 == table@[j].0@);
    }
    if i < table@.len() {
        assert(view[i].0 == table@[i].0@);
    }
    assoc::lemma_index_is(view, key@, i);
}

/// A value that is put under a key is found there, and every other key keeps its value; a
/// key that is there keeps its place, and a new one comes last.
pub proof fn law_entries_are_put<V: DeepView>(
    table: &mut Vec<(String, V)>,
    key: &str,
    value: V,
    other: &str,
    before: Option<&V>,
    after: Option<&V>,
)
    requires
        call_ensures(assoc::insert_in::<V>, (table, key, value), ()),
        call_ensures(assoc::lookup_in::<V>, (&*old(table), other), before),
        call_ensures(assoc::lookup_in::<V>, (&*final(table), other), after),
    ensures
        other@ == key@ ==> after is Some && after->0.deep_view() == value.deep_view(),
        other@ != key@ ==> after.deep_view() == before.deep_view(),
        other@ == key@ && before is Some ==> final(table)@.len() == old(table)@.len(),
        other@ == key@ && before is None ==> final(table)@.len() == old(table)@.len() + 1
            && final(table)@.last().0@ == key@,
{
    let view = old(table).deep_view();
    let now = final(table).deep_view();
    assoc::lemma_lookup_insert(view, key@, value.deep_view(), other@);
    assoc::lemma_index_of(view, key@);
    assert(now.len() == final(table)@.len());
    assert(now.last() == (final(table)@.last().0@, final(table)@.last().1.deep_view()));
}

/// What is taken out is handed out and gone, and every other key keeps its value.
pub proof fn law_entries_are_taken_out<V: DeepView>(
    table: &mut Vec<(String, V)>,
    key: &str,
    r: Option<V>,
    other: &str,
    before: Option<&V>,
    after: Option<&V>,
)
    requires
        assoc::distinct(old(table).deep_view()),
        call_ensures(assoc::remove_in::<V>, (table, key), r),
        call_ensures(assoc::lookup_in::<V>, (&*old(table), other), before),
        call_ensures(assoc::lookup_in::<V>, (&*final(table), other), after),
    ensures
        other@ == key@ ==> after is None && r.deep_view() == before.deep_view(),
        other@ != key@ ==> after.deep_view() == before.deep_view(),
{
    assoc::lemma_lookup_remove(old(table).deep_view(), key@, other@);
}

/// Texts are the same where their characters are, and are joined one behind the other; a
/// text starts with what it was joined from.
pub proof fn law_texts_are_joined(
    a: &str,
    b: &str,
    c: &str,
    equal: bool,
    two: String,
    three: String,
    whole: &str,
    starts: bool,
)
    requires
        call_ensures(text::same, (a, b), equal),
        call_ensures(text::join2, (a, b), two),
        call_ensures(text::join3, (a, b, c), three),
        whole@ == two@,
        call_ensures(text::starts_with, (whole, a), starts),
    ensures
        equal <==> a@ == b@,
        two@ == a@ + b@,
        three@ == two@ + c@,
        starts,
{
    assert(two@.take(a@.len() as int) =~= a@);
}

/// Blanks, tabs and the ends of lines are blank, and no character that can be seen is.
pub proof fn law_what_is_blank(c: char, r: bool)
    requires
        call_ensures(text::is_space, (c,), r),
    ensures
        c == ' ' || c == '\t' || c == '\n' || c == '\r' ==> r,
        '!' <= c <= '~' ==> !r,
{
}

/// The bytes in ranges are those of each of them together, and the end is that of the
/// last.
pub proof fn law_ranges_add_up(
    ranges: &Vec<(u64, u64)>,
    more: &Vec<(u64, u64)>,
    new: (u64, u64),
    a: u64,
    b: u64,
    end: u64,
)
    requires
        more@ == ranges@.push(new),
        fastdown::separated(more@),
        call_ensures(fastdown::merged_total, (ranges,), a),
        call_ensures(fastdown::merged_total, (more,), b),
        call_ensures(fastdown::max_end, (more,), end),
    ensures
        b == a + (new.1 - new.0),
        ranges@.len() == 0 ==> a == 0,
        end == new.1,
{
    assert(more@.drop_last() =~= ranges@);
    assert(more@[more@.len() - 1] == new);
}

/// A state holds together where no range is empty and each ends before the next begins.
pub proof fn law_ranges_lie_apart(
    s: &FdState,
    ranges: &Vec<(u64, u64)>,
    r: bool,
    sound: bool,
    i: int,
    j: int,
)
    requires
        call_ensures(fastdown::are_separated, (ranges,), r),
        call_ensures(FdState::sound, (s,), sound),
        s.completed@ == ranges@,
        0 <= i < j < ranges@.len(),
    ensures
        sound == r,
        r ==> ranges@[i].0 < ranges@[i].1 < ranges@[j].0,
        ranges@[i].0 >= ranges@[i].1 || ranges@[i].1 >= ranges@[j].0 ==> !r,
        ranges@.len() == 2 && ranges@[0].0 < ranges@[0].1 < ranges@[1].0 < ranges@[1].1 ==> r,
{
    let x = ranges@[i];
    let y = ranges@[j];
}

/// What is saved of a download is what it was given.
pub proof fn law_a_state_is_what_it_was_given(
    url: &str,
    size: u64,
    id: &FileId,
    done: &Vec<(u64, u64)>,
    len: u64,
    clean: bool,
    r: FdState,
    problem: &str,
    s: String,
)
    requires
        call_ensures(fastdown::make_state, (url, size, id, done, len, clean), r),
        call_ensures(fastdown::url_failure, (problem,), s),
    ensures
        r.url@ == url@ && r.size == size && r.file_len == len && r.clean == clean,
        r.completed@ == done@,
        r.etag.deep_view() == id.etag.deep_view(),
        r.last_modified.deep_view() == id.last_modified.deep_view(),
        s@ == "解析 URL 失败: "@ + problem@,
{
}

/// Tasks are listed by their state, oldest first; the stopped ones before those that were
/// removed.
pub proof fn law_books_list_by_state(
    repo: &TaskRepository,
    active: Vec<Task>,
    waiting: Vec<Task>,
    stopped: Vec<Task>,
    all: Vec<Task>,
    i: int,
)
    requires
        call_ensures(TaskRepository::active, (repo,), active),
        call_ensures(TaskRepository::waiting, (repo,), waiting),
        call_ensures(TaskRepository::stopped, (repo,), stopped),
        call_ensures(TaskRepository::all, (repo,), all),
    ensures
        active.deep_view() == remote::in_state(repo@.tasks, TaskStatus::Active),
        waiting.deep_view() == remote::in_state(repo@.tasks, TaskStatus::Waiting),
        stopped.deep_view() == remote::ended(repo@.tasks) + repo@.removed,
        all@.len() == repo@.tasks.len(),
        0 <= i < repo@.tasks.len() ==> all@[i]@ == repo@.tasks[i].1,
{
    remote::law_lists_go_by_state(repo@.tasks);
    assert(all.deep_view().len() == all@.len());
    if 0 <= i < repo@.tasks.len() {
        assert(all.deep_view()[i] == all@[i]@);
    }
}

/// New books are empty, and a new task is made now but otherwise as at any given time.
pub proof fn law_new_books_are_empty(
    repo: TaskRepository,
    gid: &str,
    uris: &Vec<String>,
    dir: &str,
    out: &str,
    now: Task,
    at: Task,
)
    requires
        call_ensures(TaskRepository::new, (), repo),
        call_ensures(Task::new_http_task, (gid, uris, dir, out), now),
        call_ensures(Task::new_http_task_at, (gid, uris, dir, out, now.created_at), at),
    ensures
        repo@.tasks.len() == 0 && repo@.removed.len() == 0,
        now@ == at@,
{
}

/// A new torrent is made now but otherwise as at any given time.
pub proof fn law_a_torrent_made_now(
    gid: &str,
    source: &str,
    dir: &str,
    hash: Option<String>,
    now: Task,
    at: Task,
)
    requires
        call_ensures(Task::new_bt_task, (gid, source, dir, hash), now),
        call_ensures(Task::new_bt_task_at, (gid, source, dir, hash, now.created_at), at),
    ensures
        now@ == at@,
{
}

/// Values as they stand in answers.
pub proof fn law_values_in_answers(
    n: u64,
    b: bool,
    t: &Option<String>,
    items: &Vec<String>,
    i: int,
    k: i64,
    s: &str,
    number: Json,
    flag: Json,
    maybe: Json,
    list: Json,
    integer: Json,
    words: Json,
)
    requires
        call_ensures(task::number_json, (n,), number),
        call_ensures(task::bool_json, (b,), flag),
        call_ensures(task::opt_text_json, (t,), maybe),
        call_ensures(task::text_list_json, (items,), list),
        call_ensures(json::integer, (k,), integer),
        call_ensures(json::text, (s,), words),
    ensures
        number@ == crate::laws::answers::number(n as nat),
        b ==> flag@ == JsonView::Text("true"@),
        !b ==> flag@ == JsonView::Text("false"@),
        *t matches Some(x) ==> maybe@ == JsonView::Text(x@),
        *t is None ==> maybe@ == JsonView::Null,
        list@ matches JsonView::Array(v) && v.len() == items@.len() && (0 <= i < items@.len()
            ==> v[i] == JsonView::Text(items@[i]@)),
        k >= 0 ==> integer@ == JsonView::Number(Number::Unsigned(k as u64)),
        k < 0 ==> integer@ == JsonView::Number(Number::Negative(k)),
        words@ == JsonView::Text(s@),
{
    assert(items.deep_view().len() == items@.len());
    if 0 <= i < items@.len() {
        assert(items.deep_view()[i] == items@[i]@);
    }
}

/// A page of a list is the tasks from its first place on, as many as it may hold, each as
/// it is told by itself.
pub proof fn law_a_page_of_tasks(
    tasks: &Vec<Task>,
    offset: usize,
    num: usize,
    r: Json,
    i: int,
    told: Json,
    gid: &str,
    e: RpcError,
)
    requires
        call_ensures(rpc_backend::paginate_tasks, (tasks, offset, num), r),
        0 <= i,
        offset + i < tasks@.len() ==> call_ensures(
            Task::to_aria2,
            (&tasks@[offset + i],),
            told,
        ),
        call_ensures(rpc_backend::gid_not_found, (gid,), e),
    ensures
        r@ is Array,
        r@->Array_0.len() <= num,
        i < num && offset + i < tasks@.len() ==> i < r@->Array_0.len() && r@->Array_0[i] == told@,
        offset >= tasks@.len() ==> r@->Array_0.len() == 0,
        e matches RpcError::Other { code, message } && code == 1 && message@ == "gid 不存在: "@
            + gid@,
{
    assert(tasks.deep_view().len() == tasks@.len());
    if offset + i < tasks@.len() {
        assert(tasks.deep_view()[offset + i] == tasks@[offset + i]@);
    }
}

/// An option that is a text gives that text; one that is a number, or a size in words,
/// gives its number; a missing one gives neither.
pub proof fn law_options_give_their_values(
    fields: &Vec<(String, Json)>,
    key: &str,
    s: Option<String>,
    n: Option<u64>,
    word: &str,
    bytes: Option<u64>,
    v: u64,
)
    requires
        call_ensures(options::text_option, (fields, key), s),
        call_ensures(options::number_option, (fields, key), n),
        call_ensures(size::parse_size, (word,), bytes),
    ensures
        assoc::lookup(fields.deep_view(), key@) == Some(JsonView::Text(word@)) ==> (s matches Some(t)
            && t@ == word@) && n == bytes,
        assoc::lookup(fields.deep_view(), key@) == Some(JsonView::Number(Number::Unsigned(v)))
            ==> s is None && n == Some(v),
        assoc::lookup(fields.deep_view(), key@) is None ==> s is None && n is None,
{
}

/// Bytes that encode a text are read as that text: its status, its length and its total.
pub proof fn law_bytes_are_read_as_their_text(
    head: &str,
    bytes: &[u8],
    status: u16,
    code: u16,
    step: ProbeStep,
    after: ProbeStep,
    known: Option<u64>,
    length: u64,
    total: u64,
)
    requires
        bytes@ == encode_utf8(head@),
        call_ensures(kget::status_code_in, (head,), status),
        call_ensures(kget::parse_status_code, (bytes,), code),
        call_ensures(kget::head_step, (head,), step),
        call_ensures(kget::after_head, (bytes,), after),
        call_ensures(kget::range_length, (head, known), length),
        call_ensures(kget::after_range, (bytes, known), total),
    ensures
        code == status,
        after == step,
        total == length,
{
    encode_utf8_valid_utf8(head@);
    encode_utf8_decode_utf8(head@);
}

/// The length that a head settles is the one that its bytes give, and it is settled only
/// by a success.
pub proof fn law_the_bytes_of_a_head_give_its_length(
    bytes: &[u8],
    code: u16,
    length: Option<u64>,
    after: ProbeStep,
)
    requires
        call_ensures(kget::parse_status_code, (bytes,), code),
        call_ensures(kget::parse_content_length, (bytes,), length),
        call_ensures(kget::after_head, (bytes,), after),
    ensures
        (code == 200 || code == 206) && length is Some ==> after == ProbeStep::Known(length->0),
        code != 200 && code != 206 ==> after == ProbeStep::AskRange(length),
        length is None ==> after == ProbeStep::AskRange(None),
{
}

/// The length that the first byte settles: the total of a partial answer, the length of a
/// full one, else what was known.
pub proof fn law_the_bytes_of_a_part_give_the_length(
    bytes: &[u8],
    code: u16,
    length: Option<u64>,
    total: Option<u64>,
    known: Option<u64>,
    r: u64,
)
    requires
        call_ensures(kget::parse_status_code, (bytes,), code),
        call_ensures(kget::parse_content_length, (bytes,), length),
        call_ensures(kget::parse_content_range_total, (bytes,), total),
        call_ensures(kget::after_range, (bytes, known), r),
    ensures
        code == 206 && total is Some ==> r == total->0,
        code == 200 && length is Some ==> r == length->0,
        (code == 206 && total is None) || (code == 200 && length is None) ==> r == match known {
            Some(n) => n,
            None => 0,
        },
        code != 200 && code != 206 ==> r == 0,
{
}

/// A torrent that was entered for a task is found by the task, and its metadata is not
/// waited for any more once that was told.
pub proof fn law_torrents_are_found_by_their_task(
    fresh: TorrentTable,
    t: &mut TorrentTable,
    id: usize,
    gid: &str,
    has: bool,
    found: Option<usize>,
    u: &mut TorrentTable,
    waits: bool,
)
    requires
        call_ensures(TorrentTable::new, (), fresh),
        bt::distinct_ids(old(t).slots.deep_view()),
        call_ensures(TorrentTable::register, (t, id, gid, false), ()),
        call_ensures(TorrentTable::contains, (&*final(t), gid), has),
        call_ensures(TorrentTable::id_of, (&*final(t), gid), found),
        *old(u) == *final(t),
        call_ensures(TorrentTable::mark_notified, (u, id), ()),
        call_ensures(TorrentTable::awaits_metadata, (&*final(u), id), waits),
    ensures
        fresh.slots@.len() == 0,
        has,
        found is Some,
        old(t).slots@.len() == 0 ==> found == Some(id),
        !waits,
{
    let slots = final(t).slots.deep_view();
    let slot = bt::slot_of(slots, id)->0;
    assert(slot.gid == gid@);
    let i = choose|i: int| 0 <= i < slots.len() && (#[trigger] slots[i]).id == id;
    assert(slots[i].gid == gid@);
    if old(t).slots@.len() == 0 {
        let k = choose|k: int|
            0 <= k < slots.len() && (#[trigger] slots[k]).id == found->0 && slots[k].gid == gid@;
        assert(old(t).slots.deep_view().len() == 0);
        if found->0 != id {
            assert(slots[k].id == found->0);
            assert(bt::slot_of(slots, found->0) is Some);
            assert(bt::slot_of(old(t).slots.deep_view(), found->0) is None);
        }
    }
}

/// The engine of torrents is ready once it was started; no peers are known of any task;
/// and a first report can always be taken.
pub proof fn law_the_torrent_engine_is_ready(
    m: &mut TaskManager,
    peer: &TaskManager,
    gid: &str,
    limit: usize,
    peers: Vec<bt::PeerInfo>,
    share: u64,
    now: u64,
    can: bool,
)
    requires
        old(m)@.wf(),
        call_ensures(TaskManager::bt_engine_started, (m,), ()),
        call_ensures(TaskManager::get_peers, (peer, gid, limit), peers),
        call_ensures(TaskManager::can_report, (peer, gid, share, now), can),
    ensures
        final(m)@.bt_ready,
        final(m)@.repo == old(m)@.repo && final(m)@.active == old(m)@.active
            && final(m)@.bt_active == old(m)@.bt_active && final(m)@.events == old(m)@.events,
        peers@.len() == 0,
        assoc::lookup(peer@.speed_samples, gid@) is None ==> can,
{
}

} // verus!
