//! Torrents: what is reported of them, when they seed, and what their links say.

use vstd::prelude::*;
use vstd::utf8::*;

use crate::assoc;
use crate::bt::{
    self, AddSettings, BtAddOptions, BtEngineConfig, BtProgress, MagnetInfo, PollReport,
    TorrentMeta, TorrentReadings, TorrentTable,
};
use crate::engine;
use crate::manager::{self, TaskManager};
use crate::options::{self, EngineOptions};
use crate::task::{TaskStatus, TaskView};
use crate::text;

verus! {

/// Whether reports still count for a torrent: while it runs, waits or seeds.
pub open spec fn heard(m: TaskManager, gid: Seq<char>) -> bool {
    m@.repo.task(gid) matches Some(t) && (t.status == TaskStatus::Active || t.status
        == TaskStatus::Waiting || t.status == TaskStatus::Seeding)
}

/// The state of a torrent after a report.
pub open spec fn state_after(m: TaskManager, gid: Seq<char>, p: BtProgress, now: u64) -> TaskStatus {
    let status = m@.repo.task(gid)->0.status;
    if status == TaskStatus::Seeding && manager::seeding_ends(m@, gid, p, now) {
        TaskStatus::Complete
    } else if p.finished && !assoc::has(m@.bt_done, gid) {
        if manager::keeps_seeding(m@, gid) {
            TaskStatus::Seeding
        } else {
            TaskStatus::Complete
        }
    } else {
        status
    }
}

/// A report changes the figures of a torrent and its state, and no other task.
pub proof fn lemma_after_report(m: &mut TaskManager, gid: &str, p: &BtProgress, now: u64, r: bool)
    requires
        old(m)@.wf(),
        heard(*old(m), gid@),
        call_ensures(TaskManager::bt_update_progress, (m, gid, p, now), r),
    ensures
        ({
            let t = manager::bt_progressed_task(old(m)@.repo.task(gid@)->0, *p);
            final(m)@.repo.task(gid@) == Some(
                TaskView { status: state_after(*old(m), gid@, *p, now), ..t },
            )
        }),
        forall|other: Seq<char>|
            other != gid@ ==> #[trigger] final(m)@.repo.task(other) == old(m)@.repo.task(other),
{
    let m0 = old(m)@;
    let t0 = m0.repo.task(gid@)->0;
    let t = manager::bt_progressed_task(t0, *p);
    assert(t.status == t0.status);
    let n = m0.repo.with_task(gid@, t);
    assoc::lemma_lookup_insert(m0.repo.tasks, gid@, t, gid@);
    let done = TaskView { status: TaskStatus::Complete, ..t };
    let seeds = TaskView { status: TaskStatus::Seeding, ..t };
    assoc::lemma_lookup_insert(n.tasks, gid@, done, gid@);
    assoc::lemma_lookup_insert(n.tasks, gid@, seeds, gid@);
    assert forall|other: Seq<char>| other != gid@ implies #[trigger] final(m)@.repo.task(other)
        == old(m)@.repo.task(other) by {
        assoc::lemma_lookup_insert(m0.repo.tasks, gid@, t, other);
        assoc::lemma_lookup_insert(n.tasks, gid@, done, other);
        assoc::lemma_lookup_insert(n.tasks, gid@, seeds, other);
    }
}

/// After a report every file of a torrent has the bytes that are reported of it, and its
/// length is what it was, unless more bytes are reported than that.
pub proof fn law_files_keep_their_lengths(
    m: &mut TaskManager,
    gid: &str,
    p: &BtProgress,
    now: u64,
    r: bool,
    i: int,
)
    requires
        old(m)@.wf(),
        heard(*old(m), gid@),
        call_ensures(TaskManager::bt_update_progress, (m, gid, p, now), r),
        old(m)@.repo.task(gid@)->0.files.len() == p.file_progress@.len(),
        old(m)@.repo.task(gid@)->0.files.len() != 1,
        0 <= i < p.file_progress@.len(),
    ensures
        ({
            let before = old(m)@.repo.task(gid@)->0.files;
            let after = final(m)@.repo.task(gid@)->0.files;
            &&& after.len() == before.len()
            &&& after[i].completed_length == p.file_progress@[i]
            &&& after[i].length >= before[i].length
            &&& after[i].length >= after[i].completed_length
            &&& p.file_progress@[i] <= before[i].length ==> after[i].length == before[i].length
            &&& p.file_progress@[i] > before[i].length ==> after[i].length == p.file_progress@[i]
            &&& after[i].path == before[i].path
            &&& after[i].selected == before[i].selected
            &&& after[i].index == before[i].index
            &&& after[i].uris == before[i].uris
        }),
{
    lemma_after_report(m, gid, p, now, r);
}

/// The file of a torrent of one file has the bytes that are reported of it, and the
/// length of the torrent.
pub proof fn law_a_single_file_has_the_length_of_the_torrent(
    m: &mut TaskManager,
    gid: &str,
    p: &BtProgress,
    now: u64,
    r: bool,
)
    requires
        old(m)@.wf(),
        heard(*old(m), gid@),
        call_ensures(TaskManager::bt_update_progress, (m, gid, p, now), r),
        old(m)@.repo.task(gid@)->0.files.len() == 1,
        p.file_progress@.len() == 1,
        p.file_progress@[0] <= p.total,
        p.total > 0,
    ensures
        ({
            let before = old(m)@.repo.task(gid@)->0.files;
            let after = final(m)@.repo.task(gid@)->0.files;
            &&& after.len() == 1
            &&& after[0].completed_length == p.file_progress@[0]
            &&& after[0].length == p.total
            &&& after[0].path == before[0].path
        }),
{
    lemma_after_report(m, gid, p, now, r);
}

/// A report whose number of files is not that of the torrent changes no file of a
/// torrent of several.
pub proof fn law_a_report_of_other_files_changes_none(
    m: &mut TaskManager,
    gid: &str,
    p: &BtProgress,
    now: u64,
    r: bool,
)
    requires
        old(m)@.wf(),
        heard(*old(m), gid@),
        call_ensures(TaskManager::bt_update_progress, (m, gid, p, now), r),
        old(m)@.repo.task(gid@)->0.files.len() != p.file_progress@.len(),
        old(m)@.repo.task(gid@)->0.files.len() != 1,
    ensures
        final(m)@.repo.task(gid@)->0.files == old(m)@.repo.task(gid@)->0.files,
{
    lemma_after_report(m, gid, p, now, r);
}

/// After a report a torrent has the figures that are reported, and is otherwise the
/// task that it was; no other task changes.
pub proof fn law_a_report_is_taken_over(
    m: &mut TaskManager,
    gid: &str,
    p: &BtProgress,
    now: u64,
    r: bool,
)
    requires
        old(m)@.wf(),
        heard(*old(m), gid@),
        call_ensures(TaskManager::bt_update_progress, (m, gid, p, now), r),
    ensures
        ({
            let t = old(m)@.repo.task(gid@)->0;
            final(m)@.repo.task(gid@) matches Some(u) && {
                &&& u.completed_length == p.completed
                &&& u.total_length == p.total
                &&& u.upload_length == p.uploaded_bytes
                &&& u.download_speed == p.download_speed
                &&& u.upload_speed == p.upload_speed
                &&& u.num_seeders == p.num_seeders
                &&& u.connections == p.num_seeders
                &&& u.seeder == p.seeder
                &&& u.bitfield == p.bitfield@
                &&& u.gid == t.gid && u.dir == t.dir && u.bittorrent == t.bittorrent
                &&& u.created_at == t.created_at
                &&& u.error_code == t.error_code && u.error_message == t.error_message
            }
        }),
        forall|other: Seq<char>|
            other != gid@ ==> #[trigger] final(m)@.repo.task(other) == old(m)@.repo.task(other),
        final(m)@.active == old(m)@.active,
        final(m)@.global == old(m)@.global,
        final(m)@.task_options == old(m)@.task_options,
{
    lemma_after_report(m, gid, p, now, r);
}

/// A report that finds a torrent neither running nor waiting nor seeding changes
/// nothing.
pub proof fn law_reports_on_stopped_torrents_are_ignored(
    m: &mut TaskManager,
    gid: &str,
    p: &BtProgress,
    now: u64,
    r: bool,
)
    requires
        old(m)@.wf(),
        !heard(*old(m), gid@),
        call_ensures(TaskManager::bt_update_progress, (m, gid, p, now), r),
    ensures
        final(m)@ == old(m)@,
        !r,
{
}

/// A torrent that has not finished stays in its state, keeps its place, and nothing is
/// announced of it, unless it seeds.
pub proof fn law_an_unfinished_torrent_goes_on(
    m: &mut TaskManager,
    gid: &str,
    p: &BtProgress,
    now: u64,
    r: bool,
)
    requires
        old(m)@.wf(),
        heard(*old(m), gid@),
        !p.finished,
        old(m)@.repo.task(gid@)->0.status != TaskStatus::Seeding,
        call_ensures(TaskManager::bt_update_progress, (m, gid, p, now), r),
    ensures
        !r,
        final(m)@.repo.task(gid@)->0.status == old(m)@.repo.task(gid@)->0.status,
        final(m)@.bt_active == old(m)@.bt_active,
        final(m)@.bt_done == old(m)@.bt_done,
        final(m)@.bt_seed_started == old(m)@.bt_seed_started,
        final(m)@.events == old(m)@.events,
{
    lemma_after_report(m, gid, p, now, r);
}

/// A torrent that is found to be finished for the first time seeds from then on, where
/// its options say so: it keeps its place, the moment is noted, and its completion is
/// announced. Where they do not, it is complete: its place is free, and both ends are
/// announced.
pub proof fn law_a_finished_torrent(
    m: &mut TaskManager,
    gid: &str,
    p: &BtProgress,
    now: u64,
    r: bool,
    o: EngineOptions,
)
    requires
        old(m)@.wf(),
        heard(*old(m), gid@),
        old(m)@.repo.task(gid@)->0.status != TaskStatus::Seeding,
        p.finished,
        !assoc::has(old(m)@.bt_done, gid@),
        assoc::lookup(old(m)@.task_options, gid@) == Some(o@),
        call_ensures(TaskManager::bt_update_progress, (m, gid, p, now), r),
    ensures
        assoc::has(final(m)@.bt_done, gid@),
        o.keep_seeding ==> {
            &&& !r
            &&& final(m)@.repo.task(gid@)->0.status == TaskStatus::Seeding
            &&& final(m)@.bt_active == old(m)@.bt_active
            &&& assoc::has(final(m)@.bt_seed_started, gid@)
            &&& !assoc::has(old(m)@.bt_seed_started, gid@) ==> assoc::lookup(
                final(m)@.bt_seed_started,
                gid@,
            ) == Some(now)
            &&& final(m)@.events == old(m)@.events.push((gid@, "complete"@))
        },
        !o.keep_seeding ==> {
            &&& r
            &&& final(m)@.repo.task(gid@)->0.status == TaskStatus::Complete
            &&& !assoc::has(final(m)@.bt_active, gid@)
            &&& final(m)@.events == old(m)@.events.push((gid@, "complete"@)).push(
                (gid@, "bt-complete"@),
            )
        },
{
    lemma_after_report(m, gid, p, now, r);
    assoc::lemma_lookup_insert(old(m)@.bt_done, gid@, (), gid@);
    assoc::lemma_lookup_insert(old(m)@.bt_seed_started, gid@, now, gid@);
    assoc::lemma_lookup_remove(old(m)@.bt_active, gid@, gid@);
}

/// A seeding torrent is complete as soon as it has seeded for the seconds that its
/// options set: its place is free, and its end is announced. Without limits it seeds on.
pub proof fn law_seeding_ends_by_time(
    m: &mut TaskManager,
    gid: &str,
    p: &BtProgress,
    now: u64,
    r: bool,
    o: EngineOptions,
    since: u64,
)
    requires
        old(m)@.wf(),
        old(m)@.repo.task(gid@) is Some,
        old(m)@.repo.task(gid@)->0.status == TaskStatus::Seeding,
        assoc::has(old(m)@.bt_done, gid@),
        assoc::lookup(old(m)@.task_options, gid@) == Some(o@),
        assoc::lookup(old(m)@.bt_seed_started, gid@) == Some(since),
        since <= now,
        call_ensures(TaskManager::bt_update_progress, (m, gid, p, now), r),
    ensures
        o.seed_time matches Some(secs) && now - since >= secs * 1000 ==> {
            &&& r
            &&& final(m)@.repo.task(gid@)->0.status == TaskStatus::Complete
            &&& !assoc::has(final(m)@.bt_active, gid@)
            &&& !assoc::has(final(m)@.bt_seed_started, gid@)
            &&& final(m)@.events == old(m)@.events.push((gid@, "bt-complete"@))
        },
        o.seed_ratio is None && (o.seed_time is None || now - since < o.seed_time->0 * 1000) ==> {
            &&& !r
            &&& final(m)@.repo.task(gid@)->0.status == TaskStatus::Seeding
            &&& final(m)@.bt_active == old(m)@.bt_active
            &&& final(m)@.bt_seed_started == old(m)@.bt_seed_started
            &&& final(m)@.events == old(m)@.events
        },
{
    lemma_after_report(m, gid, p, now, r);
    assoc::lemma_lookup_remove(old(m)@.bt_active, gid@, gid@);
    assoc::lemma_lookup_remove(old(m)@.bt_seed_started, gid@, gid@);
    assert(manager::seeded_secs(old(m)@, gid@, now) == (now - since) / 1000);
}

/// Seeding ends at the time limit or at the ratio, whichever is reached first; without
/// either it goes on, and nothing uploaded reaches no ratio above zero.
pub proof fn law_limits_of_seeding(
    ratio: Option<u64>,
    time: Option<u32>,
    uploaded: u64,
    total: u64,
    secs: u64,
    r: bool,
)
    requires
        call_ensures(engine::seeding_limit_reached, (ratio, time, uploaded, total, secs), r),
    ensures
        ratio is None && time is None ==> !r,
        time matches Some(t) && secs >= t ==> r,
        ratio is None && time is Some ==> (r <==> secs >= time->0),
        (time is None || secs < time->0) && total == 0 ==> !r,
        (time is None || secs < time->0) && uploaded == 0 && ratio is Some && 0 < ratio->0
            <= 0x7FF0_0000_0000_0000 ==> !r,
{
}

/// A torrent whose metadata has come holds the files of the metadata, those of its
/// selection to be downloaded; a task that is not there changes nothing.
pub proof fn law_metadata_fills_in_the_files(
    m: &mut TaskManager,
    gid: &str,
    meta: &TorrentMeta,
    i: int,
    pending: bool,
)
    requires
        old(m)@.wf(),
        pending ==> call_ensures(TaskManager::apply_bt_meta_if_pending, (m, gid, meta), ()),
        !pending ==> call_ensures(TaskManager::bt_metadata_ready, (m, gid, meta), ()),
        old(m)@.repo.task(gid@) is Some,
        pending ==> old(m)@.repo.task(gid@)->0.bittorrent is Some && old(m)@.repo.task(
            gid@,
        )->0.bittorrent->0.info_name is None,
        0 <= i < meta.files@.len() <= usize::MAX,
    ensures
        final(m)@.repo.task(gid@) matches Some(t) && {
            &&& t.total_length == meta.total_length
            &&& t.files.len() == meta.files@.len()
            &&& t.files[i].length == meta.files@[i].length
            &&& t.files[i].completed_length == 0
            &&& assoc::lookup(old(m)@.task_options, gid@) is None ==> t.files[i].selected
            &&& assoc::lookup(old(m)@.task_options, gid@) matches Some(o) ==> match o.only_files {
                Some(places) => t.files[i].selected == places.contains(i as usize),
                None => t.files[i].selected,
            }
            &&& t.status == old(m)@.repo.task(gid@)->0.status
            &&& t.completed_length == old(m)@.repo.task(gid@)->0.completed_length
            &&& t.gid == gid@
            &&& t.dir == old(m)@.repo.task(gid@)->0.dir
            &&& old(m)@.repo.task(gid@)->0.bittorrent is Some ==> (t.bittorrent matches Some(b)
                && b.info_name == meta.name.deep_view() && b.info_hash == Some(meta.info_hash@)
                && b.mode == meta.mode@)
        },
        forall|other: Seq<char>|
            other != gid@ ==> #[trigger] final(m)@.repo.task(other) == old(m)@.repo.task(other),
        final(m)@.events == old(m)@.events,
{
    let t = engine::with_meta(
        old(m)@.repo.task(gid@)->0,
        meta@,
        manager::recorded_files(old(m)@, gid@),
    );
    assoc::lemma_lookup_insert(old(m)@.repo.tasks, gid@, t, gid@);
    assert forall|other: Seq<char>| other != gid@ implies #[trigger] final(m)@.repo.task(other)
        == old(m)@.repo.task(other) by {
        assoc::lemma_lookup_insert(old(m)@.repo.tasks, gid@, t, other);
    }
    assert(meta@.files[i] == meta.files@[i].deep_view());
    assoc::lemma_index_of(old(m)@.repo.tasks, gid@);
    let k = assoc::index_of(old(m)@.repo.tasks, gid@);
    assert(old(m)@.repo.tasks[k].0 == old(m)@.repo.tasks[k].1.gid);
}

/// Metadata that is already there is not taken over again.
pub proof fn law_known_metadata_stays(m: &mut TaskManager, gid: &str, meta: &TorrentMeta)
    requires
        old(m)@.wf(),
        call_ensures(TaskManager::apply_bt_meta_if_pending, (m, gid, meta), ()),
        old(m)@.repo.task(gid@) is None || old(m)@.repo.task(gid@)->0.bittorrent is None || old(m)@.repo.task(gid@)->0.bittorrent->0.info_name is Some,
    ensures
        final(m)@ == old(m)@,
{
}

/// A torrent that the engine does not hold is added again from the source of its first
/// file, into its directory, with the trackers and for the files that are on record.
pub proof fn law_a_torrent_is_added_again(
    m: &TaskManager,
    gid: &str,
    r: Result<(String, BtAddOptions), String>,
    o: EngineOptions,
)
    requires
        call_ensures(TaskManager::torrent_source, (m, gid), r),
        m@.repo.task(gid@) is Some,
        m@.repo.task(gid@)->0.files.len() > 0 && m@.repo.task(gid@)->0.files[0].uris.len() > 0,
        assoc::lookup(m@.task_options, gid@) == Some(o@),
    ensures
        r matches Ok((source, add)) && {
            &&& source@ == m@.repo.task(gid@)->0.files[0].uris[0].0
            &&& add.dir@ == m@.repo.task(gid@)->0.dir
            &&& add.trackers.deep_view() == o.bt_trackers.deep_view()
            &&& options::places_view(add.only_files) == options::places_view(o.only_files)
            &&& !add.paused
        },
{
}

/// The engine that torrents run on listens from the port of the options on, and a
/// torrent is handed to it as it is to be added.
pub proof fn law_the_engine_is_told_the_options(
    o: &EngineOptions,
    c: BtEngineConfig,
    add: &BtAddOptions,
    s: AddSettings,
)
    requires
        call_ensures(BtEngineConfig::from_options, (o,), c),
        call_ensures(bt::make_add_options, (add,), s),
    ensures
        o.bt_listen_port is None <==> c.listen_port_range is None,
        o.bt_listen_port matches Some(port) ==> {
            let (first, end) = c.listen_port_range->0;
            &&& first == port
            &&& end >= port
            &&& port <= 65435 ==> end == port + 100
        },
        s.output_folder@ == add.dir@,
        s.paused == add.paused,
        options::places_view(s.only_files) == options::places_view(add.only_files),
        add.trackers@.len() == 0 ==> s.trackers is None,
        add.trackers@.len() > 0 ==> (s.trackers matches Some(t) && t.deep_view()
            == add.trackers.deep_view()),
        s.overwrite,
{
}

/// The metadata of a torrent holds its files in their order, numbered from one.
pub proof fn law_metadata_numbers_the_files(
    info_hash: String,
    name: Option<String>,
    total: u64,
    files: Vec<(String, u64)>,
    trackers: Vec<String>,
    r: TorrentMeta,
    i: int,
)
    requires
        call_ensures(TorrentMeta::from_parts, (info_hash, name, total, files, trackers), r),
        0 <= i < files@.len() < usize::MAX,
    ensures
        r.info_hash@ == info_hash@,
        r.name.deep_view() == name.deep_view(),
        r.total_length == total,
        r.files@.len() == files@.len(),
        r.files@[i].index == i + 1,
        r.files@[i].path@ == files@[i].0@,
        r.files@[i].length == files@[i].1,
        r.announce_list.deep_view() == trackers.deep_view(),
        r.mode@ == if files@.len() > 1 {
            "multi"@
        } else {
            "single"@
        },
{
    assert(r.files.deep_view().len() == r.files@.len());
    assert(r.files.deep_view()[i] == r.files@[i].deep_view());
    assert(files.deep_view()[i] == (files@[i].0@, files@[i].1));
}

/// What is reported of a torrent is what the engine tells of it; one that does not run
/// has neither speeds nor peers.
pub proof fn law_readings_are_reported(t: &TorrentReadings, r: BtProgress)
    requires
        t.layout is Some ==> t.layout->0.wf(),
        call_ensures(bt::progress_of, (t,), r),
    ensures
        r.completed == t.progress_bytes,
        r.total == t.total_bytes,
        r.uploaded_bytes == t.uploaded_bytes,
        r.finished == t.finished,
        r.seeder == t.finished,
        r.file_progress@ == t.file_progress@,
        t.live matches Some(l) ==> r.download_speed == l.download_speed && r.upload_speed
            == l.upload_speed && r.num_seeders == l.peers,
        t.live is None ==> r.download_speed == 0 && r.upload_speed == 0 && r.num_seeders == 0,
        t.layout is None ==> r.bitfield@.len() == 0,
        t.layout matches Some(l) ==> r.bitfield@.len() <= 240,
{
}

/// The bytes that a file has to have for a piece: those up to the end of the piece, or
/// of the file.
pub open spec fn needed(start: int, len: int, end: int) -> int {
    if start + len <= end {
        len
    } else {
        end - start
    }
}

/// A piece is there exactly where every file that has bytes in it has its bytes up to
/// the end of the piece.
pub proof fn law_a_piece_is_there_where_its_bytes_are(
    ranges: &[(u64, u64)],
    progress: &[u64],
    pieces: usize,
    len: u64,
    r: Vec<bool>,
    p: int,
)
    requires
        pieces * len <= u64::MAX,
        forall|f: int|
            0 <= f < ranges@.len() ==> (#[trigger] ranges@[f]).0 + ranges@[f].1 <= u64::MAX,
        progress@.len() == ranges@.len(),
        call_ensures(bt::compute_piece_flags, (ranges, progress, pieces, len), r),
        0 <= p < pieces,
    ensures
        r@.len() == pieces,
        r@[p] <==> forall|f: int|
            0 <= f < ranges@.len() && (#[trigger] ranges@[f]).0 < (p + 1) * len && ranges@[f].0
                + ranges@[f].1 > p * len ==> progress@[f] >= needed(
                ranges@[f].0 as int,
                ranges@[f].1 as int,
                (p + 1) * len,
            ),
{
    assert((p + 1) * len == p * len + len) by (nonlinear_arith);
    let done = bt::piece_done(ranges@, progress@, p, len as int);
    assert(r@[p] == done);
    let want = forall|f: int|
        0 <= f < ranges@.len() && (#[trigger] ranges@[f]).0 < (p + 1) * len && ranges@[f].0
            + ranges@[f].1 > p * len ==> progress@[f] >= needed(
            ranges@[f].0 as int,
            ranges@[f].1 as int,
            (p + 1) * len,
        );
    if done {
        assert forall|f: int|
            0 <= f < ranges@.len() && (#[trigger] ranges@[f]).0 < (p + 1) * len && ranges@[f].0
                + ranges@[f].1 > p * len implies progress@[f] >= needed(
            ranges@[f].0 as int,
            ranges@[f].1 as int,
            (p + 1) * len,
        ) by {
            assert(bt::reaches(
                ranges@[f].0 as int,
                ranges@[f].1 as int,
                p * len,
                p * len + len,
            ));
        }
    }
    if want {
        assert forall|f: int|
            #![trigger ranges@[f]]
            0 <= f < ranges@.len() && bt::reaches(
                ranges@[f].0 as int,
                ranges@[f].1 as int,
                p * (len as int),
                p * (len as int) + len,
            ) implies (if f < progress@.len() {
            progress@[f] as int
        } else {
            0
        }) >= bt::lesser(ranges@[f].0 + ranges@[f].1, p * (len as int) + len) - ranges@[f].0 by {}
    }
}

/// Where there are no more pieces than digits, each piece has a digit of its own: `f`
/// where it is there, and `0` where it is not.
pub proof fn law_each_piece_has_its_digit(flags: &[bool], width: usize, r: String, p: int)
    requires
        flags@.len() <= width,
        0 <= p < flags@.len(),
        call_ensures(bt::downsample_bitfield, (flags, width), r),
    ensures
        r@.len() == flags@.len(),
        flags@[p] ==> r@[p] == 'f',
        !flags@[p] ==> r@[p] == '0',
{
    let n = flags@.len() as int;
    assert(p * n / n == p && (p + 1) * n / n == p + 1) by (nonlinear_arith)
        requires
            n > 0,
    ;
    let part = bt::bucket(flags@, p, n);
    assert(part =~= seq![flags@[p]]);
    assert(part.drop_last() =~= seq![]);
    assert(bt::count_set(part.drop_last()) == 0);
    assert(bt::count_set(part) == if flags@[p] {
        1nat
    } else {
        0
    });
}

/// A percent escape stands for its byte, and every other byte for itself, one after the
/// other.
pub proof fn law_escapes_are_resolved_one_by_one(
    bytes: &[u8],
    rest: &[u8],
    r: Vec<u8>,
    s: Vec<u8>,
    h: u8,
    l: u8,
    b: u8,
)
    requires
        call_ensures(bt::unescape, (bytes,), r),
        call_ensures(bt::unescape, (rest,), s),
        h < 16 && l < 16,
    ensures
        bytes@ == seq![37u8, hex_digit(h), hex_digit(l)] + rest@ ==> r@ == seq![(16 * h + l) as u8]
            + s@,
        b != 37 && bytes@ == seq![b] + rest@ ==> r@ == seq![b] + s@,
        rest@.len() == 0 ==> s@.len() == 0,
{
    if bytes@ == seq![37u8, hex_digit(h), hex_digit(l)] + rest@ {
        assert(bytes@[0] == 37 && bytes@[1] == hex_digit(h) && bytes@[2] == hex_digit(l));
        assert(bt::escape_at(bytes@, 0) == Some((16 * h + l) as u8));
        lemma_unescaped_behind(seq![37u8, hex_digit(h), hex_digit(l)], rest@, 0);
    }
    if b != 37 && bytes@ == seq![b] + rest@ {
        assert(bytes@[0] == b);
        lemma_unescaped_behind(seq![b], rest@, 0);
    }
}

/// The hexadecimal digit of a value, as a byte.
pub open spec fn hex_digit(v: u8) -> u8 {
    if v < 10 {
        (48 + v) as u8
    } else {
        (87 + v) as u8
    }
}

/// What stands behind a beginning is resolved as it is by itself.
proof fn lemma_unescaped_behind(head: Seq<u8>, rest: Seq<u8>, i: int)
    requires
        0 <= i,
    ensures
        bt::unescaped(head + rest, head.len() + i) == bt::unescaped(rest, i),
    decreases rest.len() - i,
{
    let all = head + rest;
    let n = head.len() as int;
    if i < rest.len() {
        assert(all[n + i] == rest[i]);
        if i + 2 < rest.len() {
            assert(all[n + i + 1] == rest[i + 1]);
            assert(all[n + i + 2] == rest[i + 2]);
        }
        assert(bt::escape_at(all, n + i) == bt::escape_at(rest, i));
        lemma_unescaped_behind(head, rest, i + 1);
        if i + 2 < rest.len() {
            lemma_unescaped_behind(head, rest, i + 3);
        }
    }
}

/// Behind another parameter of a link comes what it is by itself.
proof fn lemma_pieces_join(a: Seq<char>, c: char, b: Seq<char>)
    requires
        forall|i: int| 0 <= i < b.len() ==> b[i] != c,
    ensures
        text::split(a.push(c) + b, c) == text::split(a, c).push(b),
    decreases a.len(),
{
    let s = a.push(c) + b;
    let i = text::find(a, c);
    text::lemma_find(a, c);
    text::lemma_find_is(s, c, i);
    assert(s.take(i) =~= a.take(i));
    if i < a.len() {
        assert(s.skip(i + 1) =~= a.skip(i + 1).push(c) + b);
        lemma_pieces_join(a.skip(i + 1), c, b);
        assert(text::split(s, c) =~= text::split(a, c).push(b));
    } else {
        assert(s.skip(i + 1) =~= b);
        text::lemma_find_is(b, c, b.len() as int);
        assert(a.take(i) =~= a);
        assert(text::split(b, c) == seq![b]);
        assert(text::split(s, c) =~= text::split(a, c).push(b));
    }
}

/// One more tracker, name or hash at the end of a magnet link is one more tracker, the
/// name, or the hash of what the link says; everything else stays.
pub proof fn law_a_magnet_link_is_read_by_its_parameters(
    link: &str,
    longer: &str,
    value: Seq<char>,
    a: Option<MagnetInfo>,
    b: Option<MagnetInfo>,
    text_of: &str,
    plain: String,
)
    requires
        call_ensures(bt::parse_magnet, (link,), a),
        call_ensures(bt::parse_magnet, (longer,), b),
        a is Some,
        forall|i: int| 0 <= i < value.len() ==> value[i] != '&',
        text_of@ == value,
        call_ensures(bt::percent_decode, (text_of,), plain),
        plain@.len() > 0,
    ensures
        longer@ == link@.push('&') + ("tr="@ + value) ==> (b matches Some(m) && {
            &&& m.info_hash@ == a->0.info_hash@
            &&& m.display_name.deep_view() == a->0.display_name.deep_view()
            &&& m.trackers.deep_view() == a->0.trackers.deep_view().push(plain@)
        }),
        longer@ == link@.push('&') + ("dn="@ + value) ==> (b matches Some(m) && {
            &&& m.info_hash@ == a->0.info_hash@
            &&& m.display_name.deep_view() == Some(plain@)
            &&& m.trackers.deep_view() == a->0.trackers.deep_view()
        }),
{
    reveal_strlit("tr=");
    reveal_strlit("dn=");
    reveal_strlit("tr");
    reveal_strlit("dn");
    reveal_strlit("xt");
    let prefix = "magnet:?"@;
    let n = prefix.len() as int;
    let rest = link@.skip(n);
    assert(text::starts(link@, prefix));
    let tr = "tr="@ + value;
    let dn = "dn="@ + value;
    assert(tr.skip(3) =~= value && dn.skip(3) =~= value);
    assert("tr"@[0] == 't' && "dn"@[0] == 'd' && "xt"@[0] == 'x');
    if longer@ == link@.push('&') + tr {
        lemma_magnet_param(link@, longer@, tr, value);
        assert(tr.take(2) =~= "tr"@);
    }
    if longer@ == link@.push('&') + dn {
        lemma_magnet_param(link@, longer@, dn, value);
        assert(dn.take(2) =~= "dn"@);
    }
}

/// Whether `c` is a hexadecimal digit in either case.
pub open spec fn hexadecimal(c: char) -> bool {
    '0' <= c <= '9' || 'a' <= c <= 'f' || 'A' <= c <= 'F'
}

/// A magnet link that gives nothing but a hash of 40 hexadecimal digits has that hash, in
/// lower case, and neither a name nor trackers; what does not begin as a magnet link is
/// none.
pub proof fn law_a_magnet_link_gives_its_hash(
    link: &str,
    hash: Seq<char>,
    r: Option<MagnetInfo>,
    i: int,
)
    requires
        call_ensures(bt::parse_magnet, (link,), r),
        hash.len() == 40,
        forall|j: int| 0 <= j < 40 ==> hexadecimal(#[trigger] hash[j]),
        0 <= i < 40,
    ensures
        link@ == "magnet:?xt=urn:btih:"@ + hash ==> (r matches Some(m) && {
            &&& m.info_hash@.len() == 40
            &&& 'A' <= hash[i] <= 'F' ==> m.info_hash@[i] == (hash[i] as int + 32) as char
            &&& !('A' <= hash[i] <= 'F') ==> m.info_hash@[i] == hash[i]
            &&& m.display_name is None
            &&& m.trackers@.len() == 0
        }),
        !"magnet:?"@.is_prefix_of(link@) ==> r is None,
{
    reveal_strlit("magnet:?xt=urn:btih:");
    reveal_strlit("magnet:?");
    reveal_strlit("urn:btih:");
    reveal_strlit("xt");
    let prefix = "magnet:?"@;
    if link@ == "magnet:?xt=urn:btih:"@ + hash {
        let param = link@.skip(8);
        assert(link@.take(8) =~= prefix);
        assert forall|j: int| 0 <= j < param.len() implies param[j] != '&' by {
            if j >= 12 {
                assert(param[j] == hash[j - 12]);
                assert(hexadecimal(hash[j - 12]));
            }
        }
        text::lemma_find_is(param, '&', param.len() as int);
        assert(text::split(param, '&') == seq![param]);
        text::lemma_find_is(param, '=', 2);
        assert(param.take(2) =~= "xt"@);
        let value = param.skip(3);
        assert(value.take(9) =~= "urn:btih:"@);
        assert(value.skip(9) =~= hash);
        assert forall|j: int| 0 <= j < 40 implies bt::is_hex(#[trigger] hash[j]) by {
            assert(hexadecimal(hash[j]));
        }
        assert(seq![param].drop_last() =~= seq![]);
        let none = bt::magnet_params(seq![]);
        assert(bt::magnet_params(seq![param]) == bt::magnet_step(none, param));
        assert(r->0.trackers.deep_view().len() == 0);
        assert(hexadecimal(hash[i]));
    }
}

/// A parameter of two letters at the end of a magnet link is the last that is read.
proof fn lemma_magnet_param(link: Seq<char>, longer: Seq<char>, param: Seq<char>, value: Seq<char>)
    requires
        text::starts(link, "magnet:?"@),
        longer == link.push('&') + param,
        param.len() == value.len() + 3,
        param[0] != '=' && param[1] != '=' && param[2] == '=',
        param[0] != '&' && param[1] != '&',
        param.skip(3) == value,
        forall|i: int| 0 <= i < value.len() ==> value[i] != '&',
    ensures
        text::starts(longer, "magnet:?"@),
        text::find(param, '=') == 2,
        bt::magnet_params(text::split(longer.skip("magnet:?"@.len() as int), '&'))
            == bt::magnet_step(
            bt::magnet_params(text::split(link.skip("magnet:?"@.len() as int), '&')),
            param,
        ),
{
    let prefix = "magnet:?"@;
    let n = prefix.len() as int;
    let rest = link.skip(n);
    assert(longer.take(n) =~= link.take(n));
    assert(longer.skip(n) =~= rest.push('&') + param);
    assert forall|i: int| 0 <= i < param.len() implies param[i] != '&' by {
        if i >= 3 {
            assert(param[i] == param.skip(3)[i - 3]);
        }
    }
    lemma_pieces_join(rest, '&', param);
    text::lemma_find_is(param, '=', 2);
    let parts = text::split(rest, '&');
    assert(parts.push(param).drop_last() =~= parts);
    assert(parts.push(param).last() == param);
}

/// What a link without escapes says is what stands in it.
pub proof fn law_plain_text_needs_no_decoding(s: &str, r: String)
    requires
        forall|i: int| 0 <= i < encode_utf8(s@).len() ==> encode_utf8(s@)[i] != 37,
        call_ensures(bt::percent_decode, (s,), r),
    ensures
        r@ == s@,
{
}

/// The metadata of a torrent is reported once, as soon as it is known; of the torrents
/// none but the one that was asked changes.
pub proof fn law_metadata_is_reported_once(
    t: &mut TorrentTable,
    id: usize,
    meta: Option<TorrentMeta>,
    readings: &TorrentReadings,
    r: PollReport,
    u: &mut TorrentTable,
    later: Option<TorrentMeta>,
    again: &TorrentReadings,
    s: PollReport,
)
    requires
        bt::distinct_ids(old(t).slots.deep_view()),
        readings.layout is Some ==> readings.layout->0.wf(),
        again.layout is Some ==> again.layout->0.wf(),
        call_ensures(TorrentTable::polled, (t, id, meta, readings), r),
        old(u).slots.deep_view() == final(t).slots.deep_view(),
        call_ensures(TorrentTable::polled, (u, id, later, again), s),
    ensures
        r.metadata is Some ==> r.metadata == meta,
        r.metadata is Some ==> s.metadata is None,
        meta is None ==> r.metadata is None,
{
}

/// A torrent that is entered runs for its task until it is taken out, and its metadata
/// is waited for exactly where it was not known.
pub proof fn law_torrents_are_entered_and_taken_out(
    t: &mut TorrentTable,
    id: usize,
    gid: &str,
    known: bool,
    u: &mut TorrentTable,
    waits: bool,
    other: usize,
)
    requires
        bt::distinct_ids(old(t).slots.deep_view()),
        call_ensures(TorrentTable::register, (t, id, gid, known), ()),
        call_ensures(TorrentTable::awaits_metadata, (&*final(t), id), waits),
        old(u).slots.deep_view() == final(t).slots.deep_view(),
        call_ensures(TorrentTable::remove, (u, id), ()),
    ensures
        waits <==> !known,
        bt::slot_of(final(t).slots.deep_view(), id) matches Some(slot) && slot.gid == gid@
            && slot.id == id,
        bt::slot_of(final(u).slots.deep_view(), id) is None,
        other != id ==> bt::slot_of(final(u).slots.deep_view(), other) == bt::slot_of(
            old(t).slots.deep_view(),
            other,
        ),
{
}

/// A torrent that is written in base64 is read back as it was, blanks round it or not.
pub proof fn law_base64_is_read_back(
    bytes: &[u8],
    s: String,
    t: &str,
    front: Seq<char>,
    back: Seq<char>,
    r: Result<Vec<u8>, String>,
)
    requires
        call_ensures(bt::encode_torrent_base64, (bytes,), s),
        text::blank(front) && text::blank(back),
        t@ == front + s@ + back,
        call_ensures(bt::decode_torrent_base64, (t,), r),
    ensures
        r matches Ok(b) && b@ == bytes@,
{
    if s@.len() > 0 {
        assert(bt::in_base64(s@[0]));
        assert(bt::in_base64(s@[s@.len() - 1]));
    }
    text::lemma_trimmed(front, s@, back);
}

/// A finished torrent without options on its record does not seed: it is complete.
pub proof fn law_without_options_nothing_seeds(
    m: &mut TaskManager,
    gid: &str,
    p: &BtProgress,
    now: u64,
    r: bool,
)
    requires
        old(m)@.wf(),
        heard(*old(m), gid@),
        old(m)@.repo.task(gid@)->0.status != TaskStatus::Seeding,
        p.finished,
        !assoc::has(old(m)@.bt_done, gid@),
        assoc::lookup(old(m)@.task_options, gid@) is None,
        call_ensures(TaskManager::bt_update_progress, (m, gid, p, now), r),
    ensures
        r,
        final(m)@.repo.task(gid@)->0.status == TaskStatus::Complete,
{
    lemma_after_report(m, gid, p, now, r);
}

/// How many of the flags are set.
pub open spec fn set_among(flags: Seq<bool>) -> nat {
    flags.filter(|b: bool| b).len()
}

proof fn lemma_count(flags: Seq<bool>)
    ensures
        bt::count_set(flags) == set_among(flags),
        set_among(flags) <= flags.len(),
    decreases flags.len(),
{
    reveal(Seq::filter);
    if flags.len() > 0 {
        lemma_count(flags.drop_last());
    }
}

/// Where the pieces are spread evenly over fewer digits, each digit gives the share of its
/// pieces that are there, in sixteenths cut to a whole number; all of them are fifteen.
pub proof fn law_a_digit_gives_the_share_of_its_pieces(
    flags: &[bool],
    width: usize,
    each: usize,
    r: String,
    b: int,
    v: int,
)
    requires
        width > 0 && each > 0,
        flags@.len() == width * each,
        0 <= b < width,
        call_ensures(bt::downsample_bitfield, (flags, width), r),
        v * each <= 16 * set_among(flags@.subrange(b * each, (b + 1) * each)) < (v + 1) * each,
    ensures
        r@.len() == width,
        0 <= v < 10 ==> r@[b] == (48 + v) as char,
        10 <= v < 16 ==> r@[b] == (87 + v) as char,
        v == 16 ==> r@[b] == 'f',
{
    let n = flags@.len() as int;
    let w = width as int;
    let k = each as int;
    assert(w <= n && b * n / w == b * k && (b + 1) * n / w == (b + 1) * k) by (nonlinear_arith)
        requires
            n == w * k,
            w > 0,
            k > 0,
    ;
    assert(0 <= b * k <= (b + 1) * k <= n && (b + 1) * k - b * k == k) by (nonlinear_arith)
        requires
            n == w * k,
            0 <= b < w,
            k > 0,
    ;
    let part = flags@.subrange(b * k, (b + 1) * k);
    lemma_count(part);
    let c = set_among(part) as int;
    assert(16 * c / k == v) by (nonlinear_arith)
        requires
            v * k <= 16 * c < (v + 1) * k,
            k > 0,
    ;
    assert(bt::bucket(flags@, b, w) == part);
}

/// A link whose hash has a character that is no hexadecimal digit, or another length, gives
/// no torrent.
pub proof fn law_other_hashes_are_refused(link: &str, hash: Seq<char>, r: Option<MagnetInfo>, i: int)
    requires
        call_ensures(bt::parse_magnet, (link,), r),
        link@ == "magnet:?xt=urn:btih:"@ + hash,
        forall|j: int| 0 <= j < hash.len() ==> hash[j] != '&',
        hash.len() != 40 || (0 <= i < 40 && !('0' <= hash[i] <= '9') && !('a' <= hash[i] <= 'f')
            && !('A' <= hash[i] <= 'F')),
    ensures
        r is None,
{
    reveal_strlit("magnet:?xt=urn:btih:");
    reveal_strlit("magnet:?");
    reveal_strlit("urn:btih:");
    reveal_strlit("xt");
    let prefix = "magnet:?"@;
    let param = link@.skip(8);
    assert(link@.take(8) =~= prefix);
    assert forall|j: int| 0 <= j < param.len() implies param[j] != '&' by {
        if j >= 12 {
            assert(param[j] == hash[j - 12]);
        }
    }
    text::lemma_find_is(param, '&', param.len() as int);
    assert(text::split(param, '&') == seq![param]);
    text::lemma_find_is(param, '=', 2);
    assert(param.take(2) =~= "xt"@);
    let value = param.skip(3);
    assert(value.take(9) =~= "urn:btih:"@);
    assert(value.skip(9) =~= hash);
    assert(seq![param].drop_last() =~= seq![]);
    let none = bt::magnet_params(seq![]);
    assert(bt::magnet_params(seq![param]) == bt::magnet_step(none, param));
    if hash.len() == 40 {
        assert(!bt::is_hex(hash[i]));
    }
}

/// The pieces that are reported of a torrent are those that its files have, in 240 digits
/// at most.
pub proof fn law_the_pieces_of_the_files_are_reported(
    t: &TorrentReadings,
    r: BtProgress,
    ranges: &[(u64, u64)],
    progress: &[u64],
    flags: Vec<bool>,
    there: &[bool],
    bits: String,
)
    requires
        t.layout is Some && t.layout->0.wf(),
        call_ensures(bt::progress_of, (t,), r),
        ranges@ == t.layout->0.file_ranges@,
        progress@ == t.file_progress@,
        call_ensures(
            bt::compute_piece_flags,
            (ranges, progress, t.layout->0.pieces, t.layout->0.piece_length),
            flags,
        ),
        there@ == flags@,
        call_ensures(bt::downsample_bitfield, (there, 240usize), bits),
    ensures
        r.bitfield@ == bits@,
{
    assert(flags@ =~= bt::pieces_there(t.layout->0, t.file_progress@));
}

} // verus!
