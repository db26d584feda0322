//! The parallel HTTP engine. The parts of a file come in any order; which of them
//! have been handed to the writer is kept as ranges of bytes, and saved beside the
//! file, so that a download that was paused goes on with exactly the bytes that
//! are missing.

use vstd::prelude::*;

use fast_down::Merge;

use crate::http;
use crate::kget;
use crate::options::EngineOptions;
use crate::task::clone_opt_text;
use crate::text::{join2, same};

verus! {

/// What the name of the file that saves the state of a download ends with.
pub const SIDECAR_EXT: &'static str = ".fd.json";

/// The bytes that are handed to the writer between two reports of progress.
pub const REPORT_STEP: u64 = 262144;

/// Milliseconds between two saves of the state while a download runs.
pub const PERSIST_EVERY: u64 = 2000;

/// Where the state of the download to `output` is saved.
pub fn state_path(output: &str) -> (r: String)
    ensures
        r@ == output@ + SIDECAR_EXT@,
{
    join2(output, SIDECAR_EXT)
}

/// Whether the ranges are in order, none of them empty, and no two of them touch.
pub open spec fn separated(ranges: Seq<(u64, u64)>) -> bool {
    &&& forall|i: int| 0 <= i < ranges.len() ==> (#[trigger] ranges[i]).0 < ranges[i].1
    &&& forall|i: int, j: int|
        #![trigger ranges[i], ranges[j]]
        0 <= i < j < ranges.len() ==> ranges[i].1 < ranges[j].0
}

/// Whether the byte `x` lies in the range `r`.
pub open spec fn inside(r: (u64, u64), x: int) -> bool {
    r.0 <= x < r.1
}

/// Whether the byte `x` lies in one of the ranges.
pub open spec fn covers(ranges: Seq<(u64, u64)>, x: int) -> bool {
    exists|i: int| 0 <= i < ranges.len() && inside(#[trigger] ranges[i], x)
}

/// Whether `after` holds the bytes of `before` and those of `new`.
pub open spec fn merged_with(
    before: Seq<(u64, u64)>,
    new: (u64, u64),
    after: Seq<(u64, u64)>,
) -> bool {
    &&& separated(after)
    &&& forall|x: int| #[trigger] covers(after, x) <==> covers(before, x) || inside(new, x)
}

/// Whether `missing` holds the bytes that `done` lacks: of the first `total` bytes
/// all of them, and of further bytes those before the last range.
pub open spec fn complement(
    done: Seq<(u64, u64)>,
    total: u64,
    missing: Seq<(u64, u64)>,
) -> bool {
    &&& separated(missing)
    &&& forall|x: int| #[trigger]
        covers(missing, x) <==> 0 <= x && !covers(done, x) && (x < total || (done.len() > 0 && x
            < done.last().0))
}

/// `fast_down::Merge::merge_progress` on ranges that are separated: a range is
/// added, joined with those that it overlaps or touches.
#[verifier::external_body]
fn merge_progress(ranges: &mut Vec<(u64, u64)>, new: (u64, u64))
    requires
        separated(old(ranges)@),
        new.0 < new.1,
    ensures
        merged_with(old(ranges)@, new, final(ranges)@),
{
    let mut list: Vec<std::ops::Range<u64>> = ranges.iter().map(|r| r.0..r.1).collect();
    list.merge_progress(new.0..new.1);
    *ranges = list.into_iter().map(|r| (r.start, r.end)).collect();
}

/// `fast_down::invert` on ranges that are separated, without a window: the gaps
/// before, between and behind them.
#[verifier::external_body]
fn invert(done: &Vec<(u64, u64)>, total: u64) -> (r: Vec<(u64, u64)>)
    requires
        separated(done@),
    ensures
        complement(done@, total, r@),
{
    let list = done.iter().map(|r| r.0..r.1);
    fast_down::invert(list, total, 0).map(|r| (r.start, r.end)).collect()
}

/// The bytes in ranges that are separated.
pub open spec fn byte_count(ranges: Seq<(u64, u64)>) -> nat
    decreases ranges.len(),
{
    if ranges.len() == 0 {
        0
    } else {
        byte_count(ranges.drop_last()) + (ranges.last().1 - ranges.last().0) as nat
    }
}

/// There are no more bytes in separated ranges than lie before the end of the
/// last one.
pub proof fn lemma_byte_count(ranges: Seq<(u64, u64)>)
    requires
        separated(ranges),
    ensures
        ranges.len() > 0 ==> byte_count(ranges) <= ranges.last().1,
        byte_count(ranges) <= u64::MAX,
    decreases ranges.len(),
{
    if ranges.len() > 0 {
        let less = ranges.drop_last();
        assert forall|i: int| 0 <= i < less.len() implies (#[trigger] less[i]).0 < less[i].1 by {
            assert(less[i] == ranges[i]);
        }
        assert forall|i: int, j: int|
            #![trigger less[i], less[j]]
            0 <= i < j < less.len() implies less[i].1 < less[j].0 by {
            assert(less[i] == ranges[i] && less[j] == ranges[j]);
        }
        lemma_byte_count(less);
        assert(ranges.last() == ranges[ranges.len() - 1]);
        if less.len() > 0 {
            assert(less.last() == ranges[ranges.len() - 2]);
        }
    }
}

/// The bytes in ranges that are separated.
pub fn merged_total(ranges: &Vec<(u64, u64)>) -> (r: u64)
    requires
        separated(ranges@),
    ensures
        r == byte_count(ranges@),
{
    let mut sum: u64 = 0;
    let mut i: usize = 0;
    proof {
        assert(ranges@.take(0) =~= seq![]);
    }
    while i < ranges.len()
        invariant
            i <= ranges@.len(),
            separated(ranges@),
            sum == byte_count(ranges@.take(i as int)),
        decreases ranges@.len() - i,
    {
        let (from, to) = ranges[i];
        proof {
            let upto = ranges@.take(i + 1);
            assert(upto.drop_last() =~= ranges@.take(i as int));
            assert(upto.last() == ranges@[i as int]);
            assert(separated(upto));
            lemma_byte_count(upto);
        }
        sum = sum + (to - from);
        i += 1;
    }
    proof {
        assert(ranges@.take(i as int) =~= ranges@);
    }
    sum
}

/// The end of the last range; zero where there is none.
pub open spec fn end_of(ranges: Seq<(u64, u64)>) -> u64 {
    if ranges.len() > 0 {
        ranges.last().1
    } else {
        0
    }
}

/// The end of the last range; zero where there is none.
pub fn max_end(ranges: &Vec<(u64, u64)>) -> (r: u64)
    ensures
        r == end_of(ranges@),
{
    if ranges.len() > 0 {
        ranges[ranges.len() - 1].1
    } else {
        0
    }
}

/// A copy of ranges.
fn copy_ranges(ranges: &Vec<(u64, u64)>) -> (r: Vec<(u64, u64)>)
    ensures
        r@ == ranges@,
{
    let mut out: Vec<(u64, u64)> = Vec::new();
    let mut i: usize = 0;
    while i < ranges.len()
        invariant
            i <= ranges@.len(),
            out@ == ranges@.take(i as int),
        decreases ranges@.len() - i,
    {
        out.push(ranges[i]);
        i += 1;
        proof {
            assert(out@ =~= ranges@.take(i as int));
        }
    }
    proof {
        assert(out@ =~= ranges@);
    }
    out
}

/// Whether ranges are separated.
pub fn are_separated(ranges: &Vec<(u64, u64)>) -> (r: bool)
    ensures
        r == separated(ranges@),
{
    let mut i: usize = 0;
    while i < ranges.len()
        invariant
            i <= ranges@.len(),
            separated(ranges@.take(i as int)),
        decreases ranges@.len() - i,
    {
        let (from, to) = ranges[i];
        if from >= to || (i > 0 && ranges[i - 1].1 >= from) {
            proof {
                if separated(ranges@) {
                    assert(ranges@[i as int].0 < ranges@[i as int].1);
                    if i > 0 {
                        assert(ranges@[i - 1].1 < ranges@[i as int].0);
                    }
                }
            }
            return false;
        }
        proof {
            let a = ranges@.take(i as int);
            let b = ranges@.take(i + 1);
            assert forall|j: int| 0 <= j < b.len() implies (#[trigger] b[j]).0 < b[j].1 by {
                if j < i {
                    assert(b[j] == a[j]);
                }
            }
            assert forall|j: int, k: int|
                #![trigger b[j], b[k]]
                0 <= j < k < b.len() implies b[j].1 < b[k].0 by {
                assert(b[j] == a[j]);
                if k < i {
                    assert(b[k] == a[k]);
                } else if j < i - 1 {
                    assert(a[j].1 < a[i - 1].0);
                    assert(a[i - 1].0 < a[i - 1].1);
                    assert(a[i - 1] == ranges@[i - 1]);
                }
            }
        }
        i += 1;
    }
    proof {
        assert(ranges@.take(i as int) =~= ranges@);
    }
    true
}

/// What a server says a file is by: a tag, and when it was changed last.
#[derive(Debug, PartialEq, Eq)]
pub struct FileId {
    pub etag: Option<String>,
    pub last_modified: Option<String>,
}

/// What a `FileId` stands for.
pub struct FileIdView {
    pub etag: Option<Seq<char>>,
    pub last_modified: Option<Seq<char>>,
}

impl DeepView for FileId {
    type V = FileIdView;

    open spec fn deep_view(&self) -> FileIdView {
        FileIdView {
            etag: self.etag.deep_view(),
            last_modified: self.last_modified.deep_view(),
        }
    }
}

/// The saved state of a download.
#[derive(Debug, PartialEq, Eq)]
pub struct FdState {
    pub url: String,
    /// Length of the file.
    pub size: u64,
    pub etag: Option<String>,
    pub last_modified: Option<String>,
    /// Ranges that are there.
    pub completed: Vec<(u64, u64)>,
    /// Length of what is on disk.
    pub file_len: u64,
    /// Whether everything in `completed` had reached the disk.
    pub clean: bool,
}

/// What an `FdState` stands for.
pub struct FdStateView {
    pub url: Seq<char>,
    pub size: u64,
    pub file_id: FileIdView,
    pub completed: Seq<(u64, u64)>,
    pub file_len: u64,
    pub clean: bool,
}

impl DeepView for FdState {
    type V = FdStateView;

    open spec fn deep_view(&self) -> FdStateView {
        FdStateView {
            url: self.url@,
            size: self.size,
            file_id: FileIdView {
                etag: self.etag.deep_view(),
                last_modified: self.last_modified.deep_view(),
            },
            completed: self.completed@,
            file_len: self.file_len,
            clean: self.clean,
        }
    }
}

impl FdState {
    /// The ranges are separated.
    pub open spec fn wf(self) -> bool {
        separated(self.completed@)
    }

    /// Whether a state that was read from disk holds together.
    pub fn sound(&self) -> (r: bool)
        ensures
            r == self.wf(),
    {
        are_separated(&self.completed)
    }
}

/// Whether both texts are there and the same, or both are missing.
fn same_opt(a: &Option<String>, b: &Option<String>) -> (r: bool)
    ensures
        r == (a.deep_view() == b.deep_view()),
{
    match (a, b) {
        (Some(x), Some(y)) => same(x.as_str(), y.as_str()),
        (None, None) => true,
        _ => false,
    }
}

/// Whether the file on the server is still the one that the state was saved of.
pub fn file_id_matches(state: &FdState, file_id: &FileId) -> (r: bool)
    ensures
        r == (state.deep_view().file_id == file_id.deep_view()),
{
    same_opt(&state.etag, &file_id.etag) && same_opt(&state.last_modified, &file_id.last_modified)
}

/// The state of a download as it is saved.
pub fn make_state(
    url: &str,
    size: u64,
    file_id: &FileId,
    merged: &Vec<(u64, u64)>,
    file_len: u64,
    clean: bool,
) -> (r: FdState)
    ensures
        r.deep_view() == (FdStateView {
            url: url@,
            size,
            file_id: file_id.deep_view(),
            completed: merged@,
            file_len,
            clean,
        }),
{
    FdState {
        url: url.to_owned(),
        size,
        etag: clone_opt_text(&file_id.etag),
        last_modified: clone_opt_text(&file_id.last_modified),
        completed: copy_ranges(merged),
        file_len,
        clean,
    }
}

/// What the server says of the file.
#[derive(Debug, PartialEq, Eq)]
pub struct SourceInfo {
    /// Length of the file; zero where it is not known.
    pub size: u64,
    /// Whether parts of the file can be asked for.
    pub supports_range: bool,
    pub file_id: FileId,
}

/// Whether a saved state is good to go on from: everything in it had reached the
/// disk, it is of the same source, with the same length and identity, and the file
/// on disk has the length that it was left with.
pub open spec fn usable(
    state: FdStateView,
    url: Seq<char>,
    size: u64,
    file_id: FileIdView,
    disk_len: Option<u64>,
) -> bool {
    &&& state.clean
    &&& state.size == size
    &&& state.url == url
    &&& state.file_id == file_id
    &&& disk_len == Some(state.file_len)
}

/// How a download begins.
#[derive(Debug, PartialEq, Eq)]
pub struct FdStart {
    /// Ranges to ask for.
    pub remaining: Vec<(u64, u64)>,
    /// Whether the file is emptied first.
    pub truncate: bool,
    /// Whether the saved state is deleted, because it is of no use.
    pub drop_state: bool,
    /// Connections to make.
    pub concurrent: usize,
}

/// What the engine hears while a download runs.
#[derive(Debug, Clone, Copy, PartialEq, Eq)]
pub enum FdEvent {
    /// A range has been handed to the writer.
    Pushed((u64, u64)),
    /// A range has come over the network; it counts once it is with the writer.
    Pulled((u64, u64)),
    /// Something that is of no account.
    Other,
}

/// What is done after an event.
#[derive(Debug, PartialEq, Eq)]
pub struct FdStep {
    /// Bytes that are there, where they are to be reported.
    pub report: Option<u64>,
    /// The state, where it is to be saved.
    pub save: Option<FdState>,
}

/// How a download ends.
#[derive(Debug, PartialEq, Eq)]
pub enum FdEnd {
    /// The file is whole: delete the saved state and report this path.
    Finished,
    /// Parts of it are missing: report this failure.
    Failed(String),
}

/// How a download is left that is called off.
#[derive(Debug, PartialEq, Eq)]
pub struct FdPause {
    /// Bytes that are there, to be reported.
    pub report: u64,
    /// What is kept; without it the saved state is deleted, because the download
    /// cannot go on from it.
    pub keep: Option<FdKeep>,
}

/// What is kept of a download that can go on later.
#[derive(Debug, PartialEq, Eq)]
pub struct FdKeep {
    /// The length to cut the file to.
    pub len: u64,
    /// The state to save.
    pub state: FdState,
}

/// A download that runs.
#[derive(Debug, PartialEq, Eq)]
pub struct FdSession {
    pub url: String,
    pub size: u64,
    /// Whether parts of the file can be asked for.
    pub ranged: bool,
    pub file_id: FileId,
    /// Ranges that have been handed to the writer.
    pub merged: Vec<(u64, u64)>,
    /// Bytes that were there at the last report.
    pub reported: u64,
    /// When the state was saved last, in milliseconds.
    pub saved_at: u64,
}

impl FdSession {
    /// The ranges are separated.
    pub open spec fn wf(self) -> bool {
        separated(self.merged@)
    }

    /// The state that is saved of the download.
    pub open spec fn state(self, clean: bool) -> FdStateView {
        FdStateView {
            url: self.url@,
            size: self.size,
            file_id: self.file_id.deep_view(),
            completed: self.merged@,
            file_len: end_of(self.merged@),
            clean,
        }
    }

    /// Whether nothing but the ranges, the last report and the last save differs
    /// from `other`.
    pub open spec fn same_source(self, other: FdSession) -> bool {
        &&& self.url == other.url
        &&& self.size == other.size
        &&& self.ranged == other.ranged
        &&& self.file_id == other.file_id
    }

    /// Begins a download: where a saved state is usable, it goes on with the bytes
    /// that are missing, and else from the beginning.
    pub fn begin(
        url: &str,
        info: SourceInfo,
        loaded: Option<FdState>,
        disk_len: Option<u64>,
        connections: usize,
        now: u64,
    ) -> (r: (FdSession, FdStart))
        requires
            loaded is Some ==> loaded->0.wf(),
        ensures
            r.0.wf(),
            r.0.url@ == url@,
            r.0.size == info.size,
            r.0.ranged == (info.supports_range && info.size > 0),
            r.0.file_id == info.file_id,
            r.0.reported == 0,
            r.0.saved_at == now,
            ({
                let resumed = loaded is Some && usable(
                    loaded->0.deep_view(),
                    url@,
                    info.size,
                    info.file_id.deep_view(),
                    disk_len,
                );
                &&& resumed ==> r.0.merged@ == loaded->0.completed@ && complement(
                    loaded->0.completed@,
                    info.size,
                    r.1.remaining@,
                )
                &&& !resumed ==> r.0.merged@ == Seq::<(u64, u64)>::empty() && r.1.remaining@
                    == seq![(0u64, info.size)]
                &&& r.1.truncate == !resumed
                &&& r.1.drop_state == (loaded is Some && !resumed)
            }),
            r.1.concurrent == (if r.0.ranged && connections > 1 {
                connections
            } else {
                1
            }),
    {
        let ranged = info.supports_range && info.size > 0;
        let concurrent: usize = if ranged && connections > 1 {
            connections
        } else {
            1
        };
        let had_state = loaded.is_some();
        let mut merged: Vec<(u64, u64)> = Vec::new();
        let mut remaining: Vec<(u64, u64)> = Vec::new();
        let mut resumed = false;
        if let Some(state) = loaded {
            let same_len = match disk_len {
                Some(n) => n == state.file_len,
                None => false,
            };
            if state.clean && state.size == info.size && same(state.url.as_str(), url)
                && file_id_matches(&state, &info.file_id) && same_len {
                remaining = invert(&state.completed, info.size);
                merged = state.completed;
                resumed = true;
            }
        }
        if !resumed {
            remaining.push((0, info.size));
            proof {
                assert(remaining@ =~= seq![(0u64, info.size)]);
            }
        }
        (
            FdSession {
                url: url.to_owned(),
                size: info.size,
                ranged,
                file_id: info.file_id,
                merged,
                reported: 0,
                saved_at: now,
            },
            FdStart { remaining, truncate: !resumed, drop_state: had_state && !resumed, concurrent },
        )
    }

    /// Takes account of an event. An empty range adds nothing.
    fn take_account(&mut self, event: FdEvent)
        requires
            old(self).wf(),
        ensures
            final(self).wf(),
            final(self).same_source(*old(self)),
            final(self).reported == old(self).reported,
            final(self).saved_at == old(self).saved_at,
            match event {
                FdEvent::Pushed(range) => merged_with(old(self).merged@, range, final(self).merged@),
                FdEvent::Pulled(_) | FdEvent::Other => final(self).merged@ == old(self).merged@,
            },
    {
        if let FdEvent::Pushed(range) = event {
            if range.0 < range.1 {
                merge_progress(&mut self.merged, range);
            }
        }
    }

    /// An event while the download runs, at the time `now` in milliseconds. The
    /// progress is reported once enough bytes have come since the last report, and
    /// the state is saved from time to time, as one that may not have reached the
    /// disk.
    pub fn heard(&mut self, event: FdEvent, now: u64) -> (r: FdStep)
        requires
            old(self).wf(),
        ensures
            final(self).wf(),
            final(self).same_source(*old(self)),
            match event {
                FdEvent::Pushed(range) => merged_with(old(self).merged@, range, final(self).merged@),
                FdEvent::Pulled(_) | FdEvent::Other => final(self).merged@ == old(self).merged@,
            },
            ({
                let there = byte_count(final(self).merged@);
                let due = there >= old(self).reported + REPORT_STEP;
                let late = now >= old(self).saved_at + PERSIST_EVERY;
                &&& r.report is Some == due
                &&& due ==> r.report->0 == there
                &&& final(self).reported == (if due {
                    there
                } else {
                    old(self).reported as nat
                })
                &&& r.save is Some == late
                &&& late ==> r.save->0.deep_view() == final(self).state(false)
                &&& final(self).saved_at == (if late {
                    now
                } else {
                    old(self).saved_at
                })
            }),
    {
        self.take_account(event);
        let there: u64 = merged_total(&self.merged);
        let report = if there.saturating_sub(self.reported) >= REPORT_STEP {
            self.reported = there;
            Some(there)
        } else {
            None
        };
        let save = if now.saturating_sub(self.saved_at) >= PERSIST_EVERY {
            self.saved_at = now;
            Some(self.state_now(false))
        } else {
            None
        };
        FdStep { report, save }
    }

    /// An event after the download was called off, while the writer finishes.
    pub fn drained(&mut self, event: FdEvent)
        requires
            old(self).wf(),
        ensures
            final(self).wf(),
            final(self).same_source(*old(self)),
            final(self).reported == old(self).reported,
            final(self).saved_at == old(self).saved_at,
            match event {
                FdEvent::Pushed(range) => merged_with(old(self).merged@, range, final(self).merged@),
                FdEvent::Pulled(_) | FdEvent::Other => final(self).merged@ == old(self).merged@,
            },
    {
        self.take_account(event);
    }

    /// The state that is saved of the download.
    fn state_now(&self, clean: bool) -> (r: FdState)
        ensures
            r.deep_view() == self.state(clean),
    {
        make_state(
            self.url.as_str(),
            self.size,
            &self.file_id,
            &self.merged,
            max_end(&self.merged),
            clean,
        )
    }

    /// How a download is left that was called off: it can go on later if parts of
    /// the file can be asked for, from a state that counts only if the writer has
    /// finished.
    pub fn pause(&self, writer_done: bool) -> (r: FdPause)
        requires
            self.wf(),
        ensures
            r.report == byte_count(self.merged@),
            r.keep is Some == self.ranged,
            r.keep matches Some(keep) ==> {
                &&& keep.len == end_of(self.merged@)
                &&& keep.state.wf()
                &&& keep.state.deep_view() == self.state(writer_done)
            },
    {
        let keep = if self.ranged {
            Some(FdKeep { len: max_end(&self.merged), state: self.state_now(writer_done) })
        } else {
            None
        };
        FdPause { report: merged_total(&self.merged), keep }
    }

    /// How a download ends that was not called off: well if every byte is there,
    /// as far as the length is known.
    pub fn end(&self) -> (r: FdEnd)
        requires
            self.wf(),
        ensures
            match r {
                FdEnd::Finished => self.size == 0 || byte_count(self.merged@) >= self.size,
                FdEnd::Failed(msg) => {
                    &&& self.size > 0
                    &&& byte_count(self.merged@) < self.size
                    &&& msg@ == "下载中断（部分分块失败，重试已耗尽）"@
                },
            },
    {
        if self.size == 0 || merged_total(&self.merged) >= self.size {
            FdEnd::Finished
        } else {
            FdEnd::Failed("下载中断（部分分块失败，重试已耗尽）".to_owned())
        }
    }
}

/// What is wrong with a text as a URL, in the words of `url::Url::parse`; nothing
/// where it is one.
pub uninterp spec fn url_problem(text: Seq<char>) -> Option<Seq<char>>;

/// `url::Url::parse`: whether the text is an absolute URL, and the words of the
/// error where it is not. The URL itself is left out.
#[verifier::external_body]
fn parse_url(text: &str) -> (r: Result<(), String>)
    ensures
        match r {
            Ok(_) => url_problem(text@) is None,
            Err(e) => url_problem(text@) == Some(e@),
        },
{
    match url::Url::parse(text) {
        Ok(_) => Ok(()),
        Err(e) => Err(e.to_string()),
    }
}

/// Why a source cannot be asked for, given what is wrong with its URL.
pub fn url_failure(problem: &str) -> (r: String)
    ensures
        r@ == "解析 URL 失败: "@ + problem@,
{
    join2("解析 URL 失败: ", problem)
}

/// Sees to it that a source is a URL before it is asked for.
pub fn check_url(url: &str) -> (r: Result<(), String>)
    ensures
        match r {
            Ok(_) => url_problem(url@) is None,
            Err(e) => url_problem(url@) is Some && e@ == "解析 URL 失败: "@ + url_problem(url@)->0,
        },
{
    match parse_url(url) {
        Ok(_) => Ok(()),
        Err(problem) => Err(url_failure(problem.as_str())),
    }
}

/// What the engine is set up with.
#[derive(Debug, PartialEq, Eq)]
pub struct FdSetup {
    /// Path of the file.
    pub output: String,
    pub headers: Vec<(String, String)>,
    /// Proxy, unless the system's is used.
    pub proxy: Option<String>,
    pub speed_limit: Option<u64>,
    pub connections: usize,
    /// Seconds before a part that failed is asked for again.
    pub retry_wait: u64,
}

/// Sets the engine up from the options of a task. It cannot log in at a proxy: a
/// task that needs that is refused, and goes to the sequential engine.
pub fn setup(options: &EngineOptions, url: &str) -> (r: Result<FdSetup, String>)
    ensures
        match r {
            Ok(s) => {
                &&& options.all_proxy_user is None && options.all_proxy_passwd is None
                &&& s.output@ == kget::output_with(
                    options.deep_view(),
                    http::url_file_name(url@, "download"@),
                )
                &&& s.headers.deep_view() == kget::headers_of(options.deep_view())
                &&& s.proxy.deep_view() == kget::named_proxy(options.deep_view().all_proxy)
                &&& s.speed_limit == crate::options::spec_speed_limit(
                    options.max_download_limit,
                    options.max_overall_download_limit,
                )
                &&& s.connections == kget::clamped(options.connections)
                &&& s.retry_wait == (if options.retry_wait < 1 {
                    1
                } else {
                    options.retry_wait
                })
            },
            Err(e) => {
                &&& options.all_proxy_user is Some || options.all_proxy_passwd is Some
                &&& e@ == "fast-down 不支持代理认证（回退顺序引擎）"@
            },
        },
{
    if options.all_proxy_user.is_some() || options.all_proxy_passwd.is_some() {
        return Err("fast-down 不支持代理认证（回退顺序引擎）".to_owned());
    }
    Ok(
        FdSetup {
            output: http::output_path(options, url),
            headers: kget::request_headers(options),
            proxy: kget::custom_proxy(&options.all_proxy),
            speed_limit: options.effective_speed_limit(),
            connections: kget::connection_count(options.connections),
            retry_wait: if options.retry_wait < 1 {
                1
            } else {
                options.retry_wait
            },
        },
    )
}

/// Separated ranges that hold the same bytes are the same ranges: what a download
/// has, or lacks, is written in one way only.
pub proof fn law_ranges_unique(a: Seq<(u64, u64)>, b: Seq<(u64, u64)>)
    requires
        separated(a),
        separated(b),
        forall|x: int| #[trigger] covers(a, x) <==> covers(b, x),
    ensures
        a == b,
    decreases a.len(),
{
    if a.len() == 0 {
        if b.len() > 0 {
            assert(inside(b[0], b[0].0 as int));
            assert(covers(b, b[0].0 as int));
            assert(covers(a, b[0].0 as int));
        }
        assert(a =~= b);
    } else {
        assert(inside(a[0], a[0].0 as int));
        assert(covers(a, a[0].0 as int));
        assert(covers(b, a[0].0 as int));
        let n = a.len() - 1;
        let m = b.len() - 1;
        lemma_last_end(a, b);
        lemma_last_end(b, a);
        lemma_last_start(a, b);
        lemma_last_start(b, a);
        assert(a[n] == b[m]);
        let c = a.drop_last();
        let d = b.drop_last();
        lemma_prefix_separated(a);
        lemma_prefix_separated(b);
        assert forall|x: int| #[trigger] covers(c, x) <==> covers(d, x) by {
            lemma_prefix_covers(a, x);
            lemma_prefix_covers(b, x);
            assert(covers(a, x) <==> covers(b, x));
        }
        law_ranges_unique(c, d);
        assert(a =~= c.push(a[n]));
        assert(b =~= d.push(b[m]));
    }
}

/// All but the last of separated ranges are separated.
proof fn lemma_prefix_separated(a: Seq<(u64, u64)>)
    requires
        separated(a),
        a.len() > 0,
    ensures
        separated(a.drop_last()),
{
    let c = a.drop_last();
    assert forall|i: int| 0 <= i < c.len() implies (#[trigger] c[i]).0 < c[i].1 by {
        assert(c[i] == a[i]);
    }
    assert forall|i: int, j: int|
        #![trigger c[i], c[j]]
        0 <= i < j < c.len() implies c[i].1 < c[j].0 by {
        assert(c[i] == a[i] && c[j] == a[j]);
    }
}

/// All but the last of separated ranges hold the bytes that are not in the last.
proof fn lemma_prefix_covers(a: Seq<(u64, u64)>, x: int)
    requires
        separated(a),
        a.len() > 0,
    ensures
        covers(a.drop_last(), x) <==> covers(a, x) && !inside(a.last(), x),
{
    let c = a.drop_last();
    let n = a.len() - 1;
    if covers(c, x) {
        let i = choose|i: int| 0 <= i < c.len() && inside(#[trigger] c[i], x);
        assert(c[i] == a[i]);
        assert(inside(a[i], x));
        assert(a[i].1 < a[n].0);
    }
    if covers(a, x) && !inside(a.last(), x) {
        let i = choose|i: int| 0 <= i < a.len() && inside(#[trigger] a[i], x);
        assert(i < n);
        assert(c[i] == a[i]);
    }
}

/// Where the same bytes are held, the last range of `a` does not end before that
/// of `b`.
proof fn lemma_last_end(a: Seq<(u64, u64)>, b: Seq<(u64, u64)>)
    requires
        separated(a),
        separated(b),
        a.len() > 0,
        b.len() > 0,
        forall|x: int| #[trigger] covers(a, x) <==> covers(b, x),
    ensures
        b.last().1 <= a.last().1,
{
    let m = b.len() - 1;
    let x = b[m].1 - 1;
    assert(b[m].0 < b[m].1);
    assert(inside(b[m], x));
    assert(covers(b, x));
    assert(covers(a, x));
    let i = choose|i: int| 0 <= i < a.len() && inside(#[trigger] a[i], x);
    if i < a.len() - 1 {
        assert(a[i].1 < a[a.len() - 1].0);
        assert(a[a.len() - 1].0 < a[a.len() - 1].1);
    }
}

/// Where the same bytes are held, the last range of `a` does not begin before that
/// of `b`.
proof fn lemma_last_start(a: Seq<(u64, u64)>, b: Seq<(u64, u64)>)
    requires
        separated(a),
        separated(b),
        a.len() > 0,
        b.len() > 0,
        a.last().1 == b.last().1,
        forall|x: int| #[trigger] covers(a, x) <==> covers(b, x),
    ensures
        b.last().0 <= a.last().0,
{
    let n = a.len() - 1;
    let m = b.len() - 1;
    if a[n].0 < b[m].0 {
        let x = b[m].0 - 1;
        assert(a[n].0 <= x);
        assert(b[m].0 < b[m].1);
        assert(inside(a[n], x));
        assert(covers(a, x));
        assert(covers(b, x));
        let i = choose|i: int| 0 <= i < b.len() && inside(#[trigger] b[i], x);
        if i < m {
            assert(b[i].1 < b[m].0);
        }
    }
}

/// Where the ranges that are there lie within the file, what is there and what is
/// asked for make up the file, and no byte is both.
pub proof fn law_resume_is_exact(done: Seq<(u64, u64)>, size: u64, missing: Seq<(u64, u64)>)
    requires
        separated(done),
        complement(done, size, missing),
        done.len() > 0 ==> done.last().1 <= size,
    ensures
        forall|x: int|
            0 <= x < size ==> (#[trigger] covers(missing, x) <==> !covers(done, x)),
        forall|x: int| x < 0 || x >= size ==> !#[trigger] covers(missing, x),
{
    if done.len() > 0 {
        assert(done.last() == done[done.len() - 1]);
        assert(done[done.len() - 1].0 < done[done.len() - 1].1);
    }
}

/// A download that was paused once the writer had finished is taken up with the
/// ranges that it had: its saved state is usable as long as the source is the
/// same and the file on disk was cut as it was to be. One that was saved before
/// the writer had finished never is.
pub proof fn law_pause_then_resume(s: FdSession, disk_len: Option<u64>)
    requires
        s.wf(),
    ensures
        usable(s.state(true), s.url@, s.size, s.file_id.deep_view(), Some(end_of(s.merged@))),
        !usable(s.state(false), s.url@, s.size, s.file_id.deep_view(), disk_len),
{
}

/// The ranges are the bytes that were handed to the writer: a further range adds
/// its own bytes, takes none away, and which ranges they become does not depend
/// on anything else.
pub proof fn law_merge_is_union(
    before: Seq<(u64, u64)>,
    new: (u64, u64),
    a: Seq<(u64, u64)>,
    b: Seq<(u64, u64)>,
)
    requires
        merged_with(before, new, a),
        merged_with(before, new, b),
    ensures
        a == b,
        forall|x: int| covers(before, x) ==> #[trigger] covers(a, x),
{
    assert forall|x: int| #[trigger] covers(a, x) <==> covers(b, x) by {
        assert(covers(a, x) <==> covers(before, x) || inside(new, x));
        assert(covers(b, x) <==> covers(before, x) || inside(new, x));
    }
    law_ranges_unique(a, b);
}

/// There are no more bytes in separated ranges than lie between the beginning of
/// the first and the end of the last, less one for each gap.
proof fn lemma_gaps_cost(ranges: Seq<(u64, u64)>)
    requires
        separated(ranges),
        ranges.len() > 0,
    ensures
        byte_count(ranges) + ranges.len() - 1 <= ranges.last().1 - ranges[0].0,
    decreases ranges.len(),
{
    let n = ranges.len() - 1;
    let less = ranges.drop_last();
    assert(ranges[n].0 < ranges[n].1);
    if n > 0 {
        lemma_prefix_separated(ranges);
        lemma_gaps_cost(less);
        assert(less.last() == ranges[n - 1]);
        assert(less[0] == ranges[0]);
        assert(ranges[n - 1].1 < ranges[n].0);
    } else {
        assert(byte_count(less) == 0);
    }
}

/// A download of known length that ends well has every byte, where no range lies
/// outside the file.
pub proof fn law_finished_is_whole(s: FdSession)
    requires
        s.wf(),
        s.size > 0,
        end_of(s.merged@) <= s.size,
        byte_count(s.merged@) >= s.size,
    ensures
        s.merged@ == seq![(0u64, s.size)],
{
    lemma_gaps_cost(s.merged@);
    assert(s.merged@ =~= seq![(0u64, s.size)]);
}

} // verus!
