//! The manager's tables: what each operation enters, what it clears, and what it leaves
//! alone.

use vstd::prelude::*;

use crate::assoc;
use crate::bt::BtProgress;
use crate::double;
use crate::json::Json;
use crate::laws::figures;
use crate::laws::torrents;
use crate::manager::{self, EngineKind, ManagerView, OptionEffect, TaskManager};
use crate::options::EngineOptions;
use crate::task::TaskStatus;

verus! {

/// Nothing changed of the settings, nor of what is on record of any task.
pub open spec fn same_records(a: ManagerView, b: ManagerView) -> bool {
    &&& a.global == b.global && a.max_concurrent == b.max_concurrent && a.bt_ready == b.bt_ready
    &&& a.task_uris == b.task_uris && a.task_options == b.task_options
}

/// Nothing changed of the transfers that run, nor of their samples.
pub open spec fn same_transfers(a: ManagerView, b: ManagerView) -> bool {
    a.active == b.active && a.speed_samples == b.speed_samples
}

/// Nothing changed of the torrents that run, are finished or seed.
pub open spec fn same_torrents(a: ManagerView, b: ManagerView) -> bool {
    a.bt_active == b.bt_active && a.bt_done == b.bt_done && a.bt_seed_started == b.bt_seed_started
}

/// A table that lost the entry of one key, and no other.
pub open spec fn cleared<V>(
    before: Seq<(Seq<char>, V)>,
    after: Seq<(Seq<char>, V)>,
    gid: Seq<char>,
    other: Seq<char>,
) -> bool {
    &&& assoc::lookup(after, gid) is None
    &&& other != gid ==> assoc::lookup(after, other) == assoc::lookup(before, other)
}

/// A table that got an entry for one key, and no other.
pub open spec fn entered<V>(
    before: Seq<(Seq<char>, V)>,
    after: Seq<(Seq<char>, V)>,
    gid: Seq<char>,
    value: V,
    other: Seq<char>,
) -> bool {
    &&& assoc::lookup(after, gid) == Some(value)
    &&& other != gid ==> assoc::lookup(after, other) == assoc::lookup(before, other)
}

/// A transfer that was started is entered with its engine, and announced; nothing else
/// changes.
pub proof fn law_a_started_transfer_is_entered(
    m: &mut TaskManager,
    gid: &str,
    kind: EngineKind,
    other: Seq<char>,
)
    requires
        old(m)@.wf(),
        call_ensures(TaskManager::engine_started, (m, gid, kind), ()),
    ensures
        entered(old(m)@.active, final(m)@.active, gid@, kind, other),
        final(m)@.repo == old(m)@.repo && final(m)@.speed_samples == old(m)@.speed_samples,
        same_records(old(m)@, final(m)@) && same_torrents(old(m)@, final(m)@),
        final(m)@.events == old(m)@.events.push((gid@, "start"@)),
{
    assoc::lemma_lookup_insert(old(m)@.active, gid@, kind, gid@);
    assoc::lemma_lookup_insert(old(m)@.active, gid@, kind, other);
}

/// A torrent that was started is entered and announced; nothing else changes.
pub proof fn law_a_started_torrent_is_entered(m: &mut TaskManager, gid: &str, other: Seq<char>)
    requires
        old(m)@.wf(),
        call_ensures(TaskManager::bt_started, (m, gid), ()),
    ensures
        entered(old(m)@.bt_active, final(m)@.bt_active, gid@, (), other),
        final(m)@.repo == old(m)@.repo && same_transfers(old(m)@, final(m)@),
        same_records(old(m)@, final(m)@),
        final(m)@.bt_done == old(m)@.bt_done && final(m)@.bt_seed_started == old(m)@.bt_seed_started,
        final(m)@.events == old(m)@.events.push((gid@, "start"@)),
{
    assoc::lemma_lookup_insert(old(m)@.bt_active, gid@, (), gid@);
    assoc::lemma_lookup_insert(old(m)@.bt_active, gid@, (), other);
}

/// A task that could not be started leaves every table as it was; of a torrent the error
/// is announced.
pub proof fn law_a_failed_start_enters_nothing(
    m: &mut TaskManager,
    gid: &str,
    message: &str,
    bt: bool,
)
    requires
        old(m)@.wf(),
        bt ==> call_ensures(TaskManager::bt_add_failed, (m, gid, message), ()),
        !bt ==> call_ensures(TaskManager::start_failed, (m, gid, message), ()),
    ensures
        same_transfers(old(m)@, final(m)@) && same_torrents(old(m)@, final(m)@),
        same_records(old(m)@, final(m)@),
        bt ==> final(m)@.events == old(m)@.events.push((gid@, "error"@)),
        !bt ==> final(m)@.events == old(m)@.events,
{
}

/// A pause clears the samples of the task and no others; whatever runs stays entered.
pub proof fn law_a_pause_clears_the_samples(
    m: &mut TaskManager,
    gid: &str,
    r: Result<(), String>,
    force: bool,
    other: Seq<char>,
)
    requires
        old(m)@.wf(),
        force ==> call_ensures(TaskManager::force_pause, (m, gid), r),
        !force ==> call_ensures(TaskManager::pause, (m, gid), r),
    ensures
        cleared(old(m)@.speed_samples, final(m)@.speed_samples, gid@, other),
        final(m)@.active == old(m)@.active && same_torrents(old(m)@, final(m)@),
        same_records(old(m)@, final(m)@),
{
    assoc::lemma_lookup_remove(old(m)@.speed_samples, gid@, gid@);
    assoc::lemma_lookup_remove(old(m)@.speed_samples, gid@, other);
}

/// A torrent that is paused runs no more, and its seeding is not timed any more; a pause
/// that is refused changes nothing.
pub proof fn law_a_paused_torrent_is_cleared(
    m: &mut TaskManager,
    gid: &str,
    r: Result<(), String>,
    other: Seq<char>,
)
    requires
        old(m)@.wf(),
        call_ensures(TaskManager::pause_bt, (m, gid), r),
    ensures
        r is Ok ==> cleared(old(m)@.bt_active, final(m)@.bt_active, gid@, other) && cleared(
            old(m)@.bt_seed_started,
            final(m)@.bt_seed_started,
            gid@,
            other,
        ),
        r is Err ==> final(m)@ == old(m)@,
        final(m)@.bt_done == old(m)@.bt_done && same_transfers(old(m)@, final(m)@),
        same_records(old(m)@, final(m)@),
{
    assoc::lemma_lookup_remove(old(m)@.bt_active, gid@, gid@);
    assoc::lemma_lookup_remove(old(m)@.bt_active, gid@, other);
    assoc::lemma_lookup_remove(old(m)@.bt_seed_started, gid@, gid@);
    assoc::lemma_lookup_remove(old(m)@.bt_seed_started, gid@, other);
}

/// Of a task that is removed nothing is left on record: neither its sources and options
/// nor its samples, and of a torrent neither that it ran nor that it was finished or
/// seeded. Everything on record of other tasks stays.
pub proof fn law_nothing_is_left_of_a_removed_task(
    m: &mut TaskManager,
    gid: &str,
    r: Result<(), String>,
    bt: bool,
    other: Seq<char>,
)
    requires
        old(m)@.wf(),
        bt ==> call_ensures(TaskManager::remove_bt, (m, gid), r),
        !bt ==> call_ensures(TaskManager::remove, (m, gid), r),
    ensures
        cleared(old(m)@.task_uris, final(m)@.task_uris, gid@, other),
        cleared(old(m)@.task_options, final(m)@.task_options, gid@, other),
        !bt ==> cleared(old(m)@.speed_samples, final(m)@.speed_samples, gid@, other)
            && same_torrents(old(m)@, final(m)@) && final(m)@.active == old(m)@.active,
        bt ==> cleared(old(m)@.bt_active, final(m)@.bt_active, gid@, other) && cleared(
            old(m)@.bt_done,
            final(m)@.bt_done,
            gid@,
            other,
        ) && cleared(old(m)@.bt_seed_started, final(m)@.bt_seed_started, gid@, other)
            && same_transfers(old(m)@, final(m)@),
        final(m)@.global == old(m)@.global && final(m)@.max_concurrent == old(m)@.max_concurrent
            && final(m)@.bt_ready == old(m)@.bt_ready,
{
    let a = old(m)@;
    assoc::lemma_lookup_remove(a.task_uris, gid@, gid@);
    assoc::lemma_lookup_remove(a.task_uris, gid@, other);
    assoc::lemma_lookup_remove(a.task_options, gid@, gid@);
    assoc::lemma_lookup_remove(a.task_options, gid@, other);
    assoc::lemma_lookup_remove(a.speed_samples, gid@, gid@);
    assoc::lemma_lookup_remove(a.speed_samples, gid@, other);
    assoc::lemma_lookup_remove(a.bt_active, gid@, gid@);
    assoc::lemma_lookup_remove(a.bt_active, gid@, other);
    assoc::lemma_lookup_remove(a.bt_done, gid@, gid@);
    assoc::lemma_lookup_remove(a.bt_done, gid@, other);
    assoc::lemma_lookup_remove(a.bt_seed_started, gid@, gid@);
    assoc::lemma_lookup_remove(a.bt_seed_started, gid@, other);
}

/// A download that is added is on record with its source and its options; nothing runs or
/// is announced for it yet.
pub proof fn law_an_added_download_is_on_record(
    m: &mut TaskManager,
    gid: &str,
    uri: &str,
    o: EngineOptions,
    total: u64,
    now: u64,
    other: Seq<char>,
)
    requires
        old(m)@.wf(),
        call_ensures(TaskManager::add_uri, (m, gid, uri, o, total, now), ()),
    ensures
        entered(old(m)@.task_uris, final(m)@.task_uris, gid@, seq![uri@], other),
        entered(old(m)@.task_options, final(m)@.task_options, gid@, o@, other),
        same_transfers(old(m)@, final(m)@) && same_torrents(old(m)@, final(m)@),
        final(m)@.events == old(m)@.events && final(m)@.global == old(m)@.global,
        final(m)@.max_concurrent == old(m)@.max_concurrent && final(m)@.bt_ready == old(m)@.bt_ready,
{
    let a = old(m)@;
    assoc::lemma_lookup_insert(a.task_uris, gid@, seq![uri@], gid@);
    assoc::lemma_lookup_insert(a.task_uris, gid@, seq![uri@], other);
    assoc::lemma_lookup_insert(a.task_options, gid@, o@, gid@);
    assoc::lemma_lookup_insert(a.task_options, gid@, o@, other);
}

/// A task that has finished or failed runs no more, and its samples are gone; its record
/// and every torrent stay.
pub proof fn law_an_ended_transfer_is_cleared(
    m: &mut TaskManager,
    gid: &str,
    disk: Option<u64>,
    message: &str,
    r: bool,
    well: bool,
    other: Seq<char>,
)
    requires
        old(m)@.wf(),
        well ==> call_ensures(TaskManager::handle_finished, (m, gid, disk), r),
        !well ==> call_ensures(TaskManager::handle_failed, (m, gid, message), r),
        old(m)@.repo.task(gid@) matches Some(t) && (t.status == TaskStatus::Active || t.status
            == TaskStatus::Waiting),
    ensures
        r,
        cleared(old(m)@.active, final(m)@.active, gid@, other),
        cleared(old(m)@.speed_samples, final(m)@.speed_samples, gid@, other),
        same_records(old(m)@, final(m)@) && same_torrents(old(m)@, final(m)@),
        well ==> final(m)@.events == old(m)@.events.push((gid@, "complete"@)),
        !well ==> final(m)@.events == old(m)@.events.push((gid@, "error"@)),
{
    let a = old(m)@;
    assoc::lemma_lookup_remove(a.active, gid@, gid@);
    assoc::lemma_lookup_remove(a.active, gid@, other);
    assoc::lemma_lookup_remove(a.speed_samples, gid@, gid@);
    assoc::lemma_lookup_remove(a.speed_samples, gid@, other);
}

/// Progress changes neither what runs nor what is on record, and announces nothing.
pub proof fn law_progress_enters_nothing(
    m: &mut TaskManager,
    gid: &str,
    share: u64,
    speed: u64,
    now: u64,
)
    requires
        old(m)@.wf(),
        manager::speed_computable(old(m)@, gid@, share, now),
        call_ensures(TaskManager::handle_progress, (m, gid, share, speed, now), ()),
    ensures
        final(m)@.active == old(m)@.active && final(m)@.events == old(m)@.events,
        same_records(old(m)@, final(m)@) && same_torrents(old(m)@, final(m)@),
        final(m)@.repo.removed == old(m)@.repo.removed,
{
}

/// Options that change are on record of their task alone; tasks and transfers stay, and
/// nothing is announced.
pub proof fn law_changed_options_are_on_record(
    m: &mut TaskManager,
    gid: &str,
    given: &Json,
    ratio: Option<u64>,
    r: Result<OptionEffect, String>,
    other: Seq<char>,
)
    requires
        old(m)@.wf(),
        call_ensures(TaskManager::change_option, (m, gid, given, ratio), r),
    ensures
        other != gid@ ==> assoc::lookup(final(m)@.task_options, other) == assoc::lookup(
            old(m)@.task_options,
            other,
        ),
        final(m)@.repo == old(m)@.repo && final(m)@.task_uris == old(m)@.task_uris,
        same_transfers(old(m)@, final(m)@) && same_torrents(old(m)@, final(m)@),
        final(m)@.global == old(m)@.global && final(m)@.max_concurrent == old(m)@.max_concurrent,
        final(m)@.events == old(m)@.events,
{
    if assoc::lookup(old(m)@.task_options, gid@) is Some {
        let changed = manager::overridden(
            assoc::lookup(old(m)@.task_options, gid@)->0,
            given@,
            ratio,
        );
        assoc::lemma_lookup_insert(old(m)@.task_options, gid@, changed, other);
    }
}

/// A report on a torrent changes what is known of that torrent alone, and no record.
pub proof fn law_a_report_concerns_one_torrent(
    m: &mut TaskManager,
    gid: &str,
    p: &BtProgress,
    now: u64,
    r: bool,
    other: Seq<char>,
)
    requires
        old(m)@.wf(),
        call_ensures(TaskManager::bt_update_progress, (m, gid, p, now), r),
        other != gid@,
    ensures
        assoc::lookup(final(m)@.bt_active, other) == assoc::lookup(old(m)@.bt_active, other),
        assoc::lookup(final(m)@.bt_done, other) == assoc::lookup(old(m)@.bt_done, other),
        assoc::lookup(final(m)@.bt_seed_started, other) == assoc::lookup(
            old(m)@.bt_seed_started,
            other,
        ),
        same_records(old(m)@, final(m)@) && same_transfers(old(m)@, final(m)@),
{
    let a = old(m)@;
    assoc::lemma_lookup_remove(a.bt_active, gid@, other);
    assoc::lemma_lookup_remove(a.bt_seed_started, gid@, other);
    assoc::lemma_lookup_remove(a.bt_done, gid@, other);
    assoc::lemma_lookup_insert(a.bt_done, gid@, (), other);
    assoc::lemma_lookup_insert(a.bt_seed_started, gid@, now, other);
}

/// A seeding torrent with a ratio of a whole number and no time limit is complete exactly
/// as soon as so many times its length has been uploaded.
pub proof fn law_seeding_ends_by_ratio(
    m: &mut TaskManager,
    gid: &str,
    p: &BtProgress,
    now: u64,
    r: bool,
    o: EngineOptions,
    n: u64,
    bits: u64,
)
    requires
        old(m)@.wf(),
        old(m)@.repo.task(gid@) is Some,
        old(m)@.repo.task(gid@)->0.status == TaskStatus::Seeding,
        assoc::has(old(m)@.bt_done, gid@),
        assoc::lookup(old(m)@.task_options, gid@) == Some(o@),
        o.seed_time is None,
        o.seed_ratio == Some(bits),
        call_ensures(double::double_of, (n,), bits),
        0 < n && 0 < p.total,
        n * p.total < 0x20_0000_0000_0000,
        p.uploaded_bytes < 0x20_0000_0000_0000,
        call_ensures(TaskManager::bt_update_progress, (m, gid, p, now), r),
    ensures
        p.uploaded_bytes >= n * p.total ==> r && final(m)@.repo.task(gid@)->0.status
            == TaskStatus::Complete,
        p.uploaded_bytes < n * p.total ==> !r && final(m)@.repo.task(gid@)->0.status
            == TaskStatus::Seeding,
{
    figures::lemma_whole_ratio(p.uploaded_bytes, p.total, n, bits);
    torrents::lemma_after_report(m, gid, p, now, r);
}

} // verus!
