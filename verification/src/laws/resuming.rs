//! Downloads that are broken off and taken up again.

use vstd::prelude::*;

use crate::fastdown::{
    FdEnd, FdEvent, FdPause, FdSession, FdStart, FdState, FdStep, FileId, SourceInfo,
};

verus! {

/// Whether some range holds the byte `x`.
pub open spec fn holds(ranges: Seq<(u64, u64)>, x: int) -> bool {
    exists|i: int| 0 <= i < ranges.len() && (#[trigger] ranges[i]).0 <= x < ranges[i].1
}

/// Whether a saved state speaks of this source, and of this file on disk, and may be
/// relied on: every part of it has to agree.
pub open spec fn agrees(
    state: FdState,
    url: &str,
    info: SourceInfo,
    disk_len: Option<u64>,
) -> bool {
    &&& state.url@ == url@
    &&& state.size == info.size
    &&& state.etag.deep_view() == info.file_id.etag.deep_view()
    &&& state.last_modified.deep_view() == info.file_id.last_modified.deep_view()
    &&& disk_len == Some(state.file_len)
    &&& state.clean
}

/// A download whose saved state is of another address, another length, another tag
/// or another time of change, that was not saved cleanly, or whose file on disk has
/// another length, starts over: nothing counts as there, the whole file is asked
/// for, the file is emptied and the state dropped.
pub proof fn law_changed_source_starts_over(
    url: &str,
    info: SourceInfo,
    state: FdState,
    disk_len: Option<u64>,
    connections: usize,
    now: u64,
    r: (FdSession, FdStart),
)
    requires
        state.wf(),
        call_ensures(FdSession::begin, (url, info, Some(state), disk_len, connections, now), r),
        ({
            ||| state.url@ != url@
            ||| state.size != info.size
            ||| state.etag.deep_view() != info.file_id.etag.deep_view()
            ||| state.last_modified.deep_view() != info.file_id.last_modified.deep_view()
            ||| disk_len != Some(state.file_len)
            ||| !state.clean
        }),
    ensures
        r.0.merged@.len() == 0,
        r.1.remaining@ == seq![(0u64, info.size)],
        r.1.truncate,
        r.1.drop_state,
{
}

/// A download without a saved state starts at the beginning, with an empty file.
pub proof fn law_new_download_starts_empty(
    url: &str,
    info: SourceInfo,
    disk_len: Option<u64>,
    connections: usize,
    now: u64,
    r: (FdSession, FdStart),
)
    requires
        call_ensures(FdSession::begin, (url, info, None, disk_len, connections, now), r),
    ensures
        r.0.merged@.len() == 0,
        r.1.remaining@ == seq![(0u64, info.size)],
        r.1.truncate,
        !r.1.drop_state,
{
}

/// A download whose saved state agrees with the source and the file goes on: what
/// was there counts, nothing is thrown away, and of the bytes of the file exactly
/// those are asked for that are not there.
pub proof fn law_unchanged_source_goes_on(
    url: &str,
    info: SourceInfo,
    state: FdState,
    disk_len: Option<u64>,
    connections: usize,
    now: u64,
    r: (FdSession, FdStart),
)
    requires
        state.wf(),
        state.completed@.len() > 0 ==> state.completed@.last().1 <= info.size,
        agrees(state, url, info, disk_len),
        call_ensures(FdSession::begin, (url, info, Some(state), disk_len, connections, now), r),
    ensures
        r.0.merged@ == state.completed@,
        !r.1.truncate,
        !r.1.drop_state,
        forall|x: int|
            0 <= x < info.size ==> (#[trigger] holds(r.1.remaining@, x) <==> !holds(
                state.completed@,
                x,
            )),
        forall|x: int| x < 0 || x >= info.size ==> !#[trigger] holds(r.1.remaining@, x),
{
    crate::fastdown::law_resume_is_exact(state.completed@, info.size, r.1.remaining@);
    assert forall|x: int| #[trigger]
        holds(r.1.remaining@, x) <==> crate::fastdown::covers(r.1.remaining@, x) by {
        lemma_holds(r.1.remaining@, x);
    }
    assert forall|x: int| #[trigger]
        holds(state.completed@, x) <==> crate::fastdown::covers(state.completed@, x) by {
        lemma_holds(state.completed@, x);
    }
    assert forall|x: int| 0 <= x < info.size implies (#[trigger] holds(r.1.remaining@, x) <==> !holds(
        state.completed@,
        x,
    )) by {
        assert(crate::fastdown::covers(r.1.remaining@, x) <==> !crate::fastdown::covers(
            state.completed@,
            x,
        ));
    }
    assert forall|x: int| x < 0 || x >= info.size implies !#[trigger] holds(
        r.1.remaining@,
        x,
    ) by {
        assert(!crate::fastdown::covers(r.1.remaining@, x));
    }
}

/// The two ways to say that a byte is in some range are the same.
proof fn lemma_holds(ranges: Seq<(u64, u64)>, x: int)
    ensures
        holds(ranges, x) <==> crate::fastdown::covers(ranges, x),
{
    if holds(ranges, x) {
        let i = choose|i: int| 0 <= i < ranges.len() && (#[trigger] ranges[i]).0 <= x < ranges[i].1;
        assert(crate::fastdown::inside(ranges[i], x));
    }
    if crate::fastdown::covers(ranges, x) {
        let i = choose|i: int|
            0 <= i < ranges.len() && crate::fastdown::inside(#[trigger] ranges[i], x);
        assert(ranges[i].0 <= x < ranges[i].1);
    }
}

/// A download is of the source that it was begun for, makes several connections
/// only where parts of the file can be asked for, and has reported nothing yet.
pub proof fn law_download_is_of_its_source(
    url: &str,
    info: SourceInfo,
    loaded: Option<FdState>,
    disk_len: Option<u64>,
    connections: usize,
    now: u64,
    r: (FdSession, FdStart),
)
    requires
        loaded is Some ==> loaded->0.wf(),
        call_ensures(FdSession::begin, (url, info, loaded, disk_len, connections, now), r),
    ensures
        r.0.url@ == url@,
        r.0.size == info.size,
        r.0.file_id == info.file_id,
        r.0.ranged <==> info.supports_range && info.size > 0,
        r.0.reported == 0,
        r.0.saved_at == now,
        r.1.concurrent >= 1,
        r.1.concurrent > 1 ==> info.supports_range && info.size > 0 && r.1.concurrent
            == connections,
        info.supports_range && info.size > 0 && connections >= 1 ==> r.1.concurrent
            == connections,
{
}

/// Pausing a download that the writer has finished, and beginning it again with what
/// the pause kept, against the same source and with the file cut as it was told,
/// takes up exactly the bytes that it had.
pub proof fn law_paused_download_is_taken_up(
    s: FdSession,
    p: FdPause,
    url: &str,
    info: SourceInfo,
    connections: usize,
    now: u64,
    r: (FdSession, FdStart),
)
    requires
        s.wf(),
        call_ensures(FdSession::pause, (&s, true), p),
        p.keep is Some,
        url@ == s.url@,
        info.size == s.size,
        info.file_id.etag.deep_view() == s.file_id.etag.deep_view(),
        info.file_id.last_modified.deep_view() == s.file_id.last_modified.deep_view(),
        call_ensures(
            FdSession::begin,
            (url, info, Some(p.keep->0.state), Some(p.keep->0.len), connections, now),
            r,
        ),
    ensures
        r.0.merged@ == s.merged@,
        !r.1.truncate,
        !r.1.drop_state,
{
    let kept = p.keep->0.state.deep_view();
    assert(kept.file_id == s.file_id.deep_view());
}

/// Pausing a download before the writer has finished keeps a state that no later
/// download goes on from; a source whose parts cannot be asked for keeps none.
pub proof fn law_unfinished_writer_is_not_relied_on(
    s: FdSession,
    done: bool,
    p: FdPause,
    url: &str,
    info: SourceInfo,
    disk_len: Option<u64>,
    connections: usize,
    now: u64,
    r: (FdSession, FdStart),
)
    requires
        s.wf(),
        call_ensures(FdSession::pause, (&s, done), p),
        p.keep is Some && !done ==> call_ensures(
            FdSession::begin,
            (url, info, Some(p.keep->0.state), disk_len, connections, now),
            r,
        ),
    ensures
        p.keep is Some <==> s.ranged,
        p.keep is Some && !done ==> r.0.merged@.len() == 0 && r.1.truncate,
        p.keep is Some ==> p.keep->0.len == p.keep->0.state.file_len,
        p.keep is Some && s.merged@.len() > 0 ==> p.keep->0.len == s.merged@.last().1,
        p.keep is Some && s.merged@.len() == 0 ==> p.keep->0.len == 0,
{
    if p.keep is Some {
        let kept = p.keep->0.state.deep_view();
        assert(kept.clean == done);
    }
}

/// While a download runs, the bytes that are there are those that were there and
/// those that have been handed to the writer; nothing else adds or takes away any.
pub proof fn law_only_written_bytes_count(
    s: &mut FdSession,
    event: FdEvent,
    now: u64,
    r: FdStep,
    x: int,
)
    requires
        old(s).wf(),
        call_ensures(FdSession::heard, (s, event, now), r),
    ensures
        final(s).wf(),
        final(s).url == old(s).url,
        final(s).size == old(s).size,
        final(s).file_id == old(s).file_id,
        final(s).ranged == old(s).ranged,
        event is Pushed ==> (holds(final(s).merged@, x) <==> holds(old(s).merged@, x)
            || event->Pushed_0.0 <= x < event->Pushed_0.1),
        event !is Pushed ==> final(s).merged@ == old(s).merged@,
{
    lemma_holds(final(s).merged@, x);
    lemma_holds(old(s).merged@, x);
    if event is Pushed {
        let range = event->Pushed_0;
        assert(crate::fastdown::covers(final(s).merged@, x) <==> crate::fastdown::covers(
            old(s).merged@,
            x,
        ) || crate::fastdown::inside(range, x));
    }
}

/// After a download was called off, bytes that still reach the writer count too.
pub proof fn law_drained_bytes_count(s: &mut FdSession, event: FdEvent, x: int)
    requires
        old(s).wf(),
        call_ensures(FdSession::drained, (s, event), ()),
    ensures
        final(s).wf(),
        final(s).url == old(s).url,
        final(s).size == old(s).size,
        final(s).file_id == old(s).file_id,
        final(s).ranged == old(s).ranged,
        event is Pushed ==> (holds(final(s).merged@, x) <==> holds(old(s).merged@, x)
            || event->Pushed_0.0 <= x < event->Pushed_0.1),
        event !is Pushed ==> final(s).merged@ == old(s).merged@,
{
    lemma_holds(final(s).merged@, x);
    lemma_holds(old(s).merged@, x);
    if event is Pushed {
        let range = event->Pushed_0;
        assert(crate::fastdown::covers(final(s).merged@, x) <==> crate::fastdown::covers(
            old(s).merged@,
            x,
        ) || crate::fastdown::inside(range, x));
    }
}

/// What is reported and what is saved while a download runs is what it has: the
/// saved state is of this source, holds the bytes that are there, and counts as one
/// that may not have reached the disk. It is saved two seconds after the last time.
pub proof fn law_saved_state_is_of_the_download(
    s: &mut FdSession,
    event: FdEvent,
    now: u64,
    r: FdStep,
)
    requires
        old(s).wf(),
        call_ensures(FdSession::heard, (s, event, now), r),
    ensures
        r.save is Some <==> now >= old(s).saved_at + 2000,
        r.save is Some ==> final(s).saved_at == now,
        r.save is None ==> final(s).saved_at == old(s).saved_at,
        r.save matches Some(state) ==> {
            &&& state.url@ == old(s).url@
            &&& state.size == old(s).size
            &&& state.etag.deep_view() == old(s).file_id.etag.deep_view()
            &&& state.last_modified.deep_view() == old(s).file_id.last_modified.deep_view()
            &&& state.completed@ == final(s).merged@
            &&& !state.clean
        },
        r.report is Some ==> r.report->0 == final(s).reported,
        r.report is None ==> final(s).reported == old(s).reported,
{
    if r.save is Some {
        assert(r.save->0.deep_view().file_id == final(s).file_id.deep_view());
    }
}

/// Progress is reported as soon as a quarter of a mebibyte has come since the last
/// report, and not before; where one range is there, what is reported is its length.
pub proof fn law_progress_is_reported_in_steps(
    s: &mut FdSession,
    event: FdEvent,
    now: u64,
    r: FdStep,
)
    requires
        old(s).wf(),
        call_ensures(FdSession::heard, (s, event, now), r),
        final(s).merged@.len() == 1,
    ensures
        ({
            let there = final(s).merged@[0].1 - final(s).merged@[0].0;
            &&& r.report is Some <==> there >= old(s).reported + 262144
            &&& r.report is Some ==> r.report->0 == there
        }),
{
    let ranges = final(s).merged@;
    assert(ranges.drop_last() =~= seq![]);
    assert(crate::fastdown::byte_count(ranges.drop_last()) == 0);
    assert(ranges[0].0 < ranges[0].1);
}

/// A download ends well exactly where no byte of the file is missing.
pub proof fn law_end_means_whole(s: FdSession, r: FdEnd)
    requires
        s.wf(),
        s.size > 0,
        s.merged@.len() > 0 ==> s.merged@.last().1 <= s.size,
        call_ensures(FdSession::end, (&s,), r),
    ensures
        r is Finished <==> forall|x: int| 0 <= x < s.size ==> #[trigger] holds(s.merged@, x),
{
    if r is Finished {
        crate::fastdown::law_finished_is_whole(s);
        assert forall|x: int| 0 <= x < s.size implies #[trigger] holds(s.merged@, x) by {
            assert(s.merged@[0].0 <= x < s.merged@[0].1);
        }
    } else if forall|x: int| 0 <= x < s.size ==> #[trigger] holds(s.merged@, x) {
        let whole = seq![(0u64, s.size)];
        assert forall|x: int| #[trigger]
            crate::fastdown::covers(s.merged@, x) <==> crate::fastdown::covers(whole, x) by {
            lemma_holds(s.merged@, x);
            lemma_holds(whole, x);
            assert(whole[0] == (0u64, s.size));
            if holds(s.merged@, x) {
                let i = choose|i: int|
                    0 <= i < s.merged@.len() && (#[trigger] s.merged@[i]).0 <= x < s.merged@[i].1;
                let last = s.merged@.len() - 1;
                if i < last {
                    assert(s.merged@[i].1 < s.merged@[last].0);
                    assert(s.merged@[last].0 < s.merged@[last].1);
                }
            }
        }
        crate::fastdown::law_ranges_unique(s.merged@, whole);
        assert(whole.drop_last() =~= seq![]);
        assert(crate::fastdown::byte_count(whole.drop_last()) == 0);
        assert(crate::fastdown::byte_count(whole) == s.size);
    }
}

/// A source of unknown length is whole whenever it ends.
pub proof fn law_unknown_length_ends_well(s: FdSession, r: FdEnd)
    requires
        s.wf(),
        s.size == 0,
        call_ensures(FdSession::end, (&s,), r),
    ensures
        r is Finished,
{
}

/// The state of a download lies beside its file, under the name of the file and a
/// suffix of its own, so that two files never share a state.
pub proof fn law_states_lie_apart(a: &str, b: &str, x: String, y: String)
    requires
        call_ensures(crate::fastdown::state_path, (a,), x),
        call_ensures(crate::fastdown::state_path, (b,), y),
    ensures
        x@ == a@ + ".fd.json"@,
        x@ == y@ ==> a@ == b@,
{
    let suffix = ".fd.json"@;
    if x@ == y@ {
        assert(a@ =~= x@.take(x@.len() - suffix.len()));
        assert(b@ =~= y@.take(y@.len() - suffix.len()));
    }
}

/// A file on the server is taken for the same exactly where its tag and its time of
/// change are.
pub proof fn law_identity_is_tag_and_time(state: FdState, file_id: FileId, r: bool)
    requires
        call_ensures(crate::fastdown::file_id_matches, (&state, &file_id), r),
    ensures
        r <==> state.etag.deep_view() == file_id.etag.deep_view() && state.last_modified.deep_view()
            == file_id.last_modified.deep_view(),
{
}

} // verus!
