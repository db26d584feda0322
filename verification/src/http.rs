//! The sequential HTTP engine. The bytes of a file are written from the first one
//! on, so that what is on disk is always a beginning of the file, and a download
//! that was broken off goes on where that beginning ends.

use vstd::prelude::*;

use crate::digits;
use crate::kget::{self, mentions, Attempts, NextTry};
use crate::options::{EngineOptions, OptionsView};
use crate::text::{self, chars_of, join2, sub_chars, text_of};

verus! {

/// The bytes that are written between two reports of progress.
pub const REPORT_STEP: u64 = 262144;

/// The path part of a URL: without the scheme, the query and the fragment.
pub open spec fn path_of_url(url: Seq<char>) -> Seq<char> {
    let at = text::find_text(url, "://"@);
    let rest = if at >= 0 {
        url.skip(at + 3)
    } else {
        url
    };
    let query = text::find(rest, '?');
    let fragment = text::find(rest, '#');
    rest.take(if query < fragment {
        query
    } else {
        fragment
    })
}

/// The name of the file that a URL leads to: what follows the last slash of its
/// path; the default where nothing does.
pub open spec fn url_file_name(url: Seq<char>, default: Seq<char>) -> Seq<char> {
    let p = path_of_url(url);
    let slash = text::rfind(p, '/');
    if slash >= 0 && slash + 1 < p.len() {
        p.skip(slash + 1)
    } else {
        default
    }
}

/// The name of the file that a URL leads to.
pub fn file_name_from_url_or_default(url: &str, default: &str) -> (r: String)
    ensures
        r@ == url_file_name(url@, default@),
{
    let chars = chars_of(url);
    let end: usize = chars.len();
    let scheme = chars_of("://");
    proof {
        reveal_strlit("://");
        assert("://"@.len() == 3);
    }
    let from: usize = match text::place_of_text(&chars, &scheme) {
        Some(i) => i + 3,
        None => 0,
    };
    let rest = sub_chars(&chars, from, end);
    proof {
        assert(rest@ =~= url@.skip(from as int));
        assert(url@.skip(0) =~= url@);
        assert(rest@.skip(0) =~= rest@);
    }
    let query: usize = text::find_from(&rest, '?', 0);
    let fragment: usize = text::find_from(&rest, '#', 0);
    let stop: usize = if query < fragment {
        query
    } else {
        fragment
    };
    let p = sub_chars(&rest, 0, stop);
    proof {
        assert(p@ =~= path_of_url(url@));
    }
    let behind: usize = text::behind_last(&p, '/');
    let len: usize = p.len();
    if behind > 0 && behind < len {
        proof {
            assert(p@.subrange(behind as int, len as int) =~= p@.skip(behind as int));
        }
        text_of(&sub_chars(&p, behind, len))
    } else {
        default.to_owned()
    }
}

/// The path that a download over HTTP goes to.
pub fn output_path(options: &EngineOptions, url: &str) -> (r: String)
    ensures
        r@ == kget::output_with(options.deep_view(), url_file_name(url@, "download"@)),
{
    let name = file_name_from_url_or_default(url, "download");
    kget::output_named(options, name.as_str())
}

/// What a proxy is told of the user: nothing unless both name and password are
/// set.
pub open spec fn auth_of(o: OptionsView) -> Option<(Seq<char>, Seq<char>)> {
    if o.all_proxy_user is Some && o.all_proxy_passwd is Some {
        Some((o.all_proxy_user->0, o.all_proxy_passwd->0))
    } else {
        None
    }
}

/// What a proxy is told of the user.
pub fn proxy_auth(options: &EngineOptions) -> (r: Option<(String, String)>)
    ensures
        r.deep_view() == auth_of(options.deep_view()),
{
    match (&options.all_proxy_user, &options.all_proxy_passwd) {
        (Some(user), Some(password)) => Some((user.clone(), password.clone())),
        _ => None,
    }
}

/// Whether trying again is no use after an error of this engine.
pub open spec fn hopeless(msg: Seq<char>) -> bool {
    let lower = text::ascii_lower(msg);
    ||| text::find_text(lower, "404"@) >= 0
    ||| text::find_text(lower, "not found"@) >= 0
    ||| text::find_text(lower, "checksum"@) >= 0
}

/// Whether trying again is no use after an error of this engine.
pub fn is_fatal_error(msg: &str) -> (r: bool)
    ensures
        r == hopeless(msg@),
{
    let lower = text::to_ascii_lower(msg);
    mentions(lower.as_str(), "404") || mentions(lower.as_str(), "not found") || mentions(
        lower.as_str(),
        "checksum",
    )
}

/// Where an attempt begins: behind the bytes of an earlier one, if the file on
/// disk is exactly as long as they are, and else at the beginning.
pub open spec fn resumed_at(existing: u64, disk_size: u64) -> u64 {
    if existing > 0 && disk_size == existing {
        existing
    } else {
        0
    }
}

/// Where an attempt begins.
pub fn resume_offset(existing: u64, disk_size: u64) -> (r: u64)
    ensures
        r == resumed_at(existing, disk_size),
        r > 0 ==> r == disk_size,
{
    if existing > 0 && disk_size == existing {
        existing
    } else {
        0
    }
}

/// The range that a request asks for; none at the beginning.
pub fn range_header(start: u64) -> (r: Option<String>)
    ensures
        match r {
            Some(range) => start > 0 && range@ == "bytes="@ + digits::dec(start as nat) + "-"@,
            None => start == 0,
        },
{
    if start == 0 {
        return None;
    }
    let mut out = "bytes=".to_owned();
    digits::push_dec(&mut out, start);
    out.append("-");
    Some(out)
}

/// How the answer to a request is written to the file.
#[derive(Debug, PartialEq, Eq)]
pub struct Accepted {
    /// Where the bytes of the answer begin.
    pub start: u64,
    /// Whether what is on disk stays: if not, the file is emptied.
    pub append: bool,
}

/// What becomes of an answer with the status `code`, which reads `status`, to a
/// request that began at `start`. A partial answer goes on there, any other
/// success is the whole file, and anything else is an error.
pub fn accept(code: u16, status: &str, start: u64) -> (r: Result<Accepted, String>)
    ensures
        match r {
            Ok(a) => {
                &&& 200 <= code < 300
                &&& a.append == (code == 206)
                &&& a.start == (if code == 206 {
                    start
                } else {
                    0
                })
            },
            Err(e) => !(200 <= code < 300) && e@ == "HTTP 错误: "@ + status@,
        },
{
    if code < 200 || code >= 300 {
        return Err(join2("HTTP 错误: ", status));
    }
    if code == 206 {
        Ok(Accepted { start, append: true })
    } else {
        Ok(Accepted { start: 0, append: false })
    }
}

/// `a + b`, or the largest number where that is too large.
pub open spec fn capped_sum(a: u64, b: u64) -> u64 {
    if a + b > u64::MAX {
        u64::MAX
    } else {
        (a + b) as u64
    }
}

/// The length of the whole file, as an answer gives it: the total of its range,
/// or else the length of the answer and what comes before it.
pub open spec fn whole_length(range: Option<Seq<char>>, start: u64, length: u64) -> nat {
    let total = match range {
        Some(value) => kget::total_in_range(value),
        None => None,
    };
    match total {
        Some(n) => n,
        None => capped_sum(start, length) as nat,
    }
}

/// The length of the whole file, as an answer gives it.
pub fn total_length(content_range: &Option<String>, start: u64, length: u64) -> (r: u64)
    ensures
        r == whole_length(content_range.deep_view(), start, length),
{
    let total = match content_range {
        Some(value) => kget::range_total(value.as_str()),
        None => None,
    };
    match total {
        Some(n) => n,
        None => start.saturating_add(length),
    }
}

/// The length that a file must be cut or stretched to before bytes are appended at
/// `start`; `None` where it has that length.
pub fn alignment(file_len: u64, start: u64) -> (r: Option<u64>)
    ensures
        r == (if file_len == start {
            None
        } else {
            Some(start)
        }),
{
    if file_len != start {
        Some(start)
    } else {
        None
    }
}

/// One attempt, while the bytes of the answer come in.
#[derive(Debug, Clone, Copy, PartialEq, Eq, Structural)]
pub struct Transfer {
    /// Where the bytes of the answer begin.
    pub start: u64,
    /// Length of the whole file; zero where it is not known.
    pub total: u64,
    /// Bytes written.
    pub written: u64,
    /// Bytes that had been written at the last report.
    pub reported: u64,
}

impl Transfer {
    /// What was reported had been written.
    pub open spec fn wf(self) -> bool {
        self.reported <= self.written
    }

    /// Bytes of the file that are there.
    pub open spec fn there(self) -> u64 {
        capped_sum(self.start, self.written)
    }

    /// The attempt before the first byte has come.
    pub fn new(start: u64, total: u64) -> (r: Transfer)
        ensures
            r.wf(),
            r.start == start,
            r.total == total,
            r.written == 0,
            r.reported == 0,
    {
        Transfer { start, total, written: 0, reported: 0 }
    }

    /// Bytes of the file that are there.
    pub fn absolute(&self) -> (r: u64)
        ensures
            r == self.there(),
    {
        self.start.saturating_add(self.written)
    }

    /// `n` more bytes have been written. The result is what to report of the
    /// progress: something as soon as enough bytes have come since the last
    /// report.
    pub fn wrote(&mut self, n: u64) -> (r: Option<u64>)
        requires
            old(self).wf(),
            old(self).written + n <= u64::MAX,
        ensures
            final(self).wf(),
            final(self).start == old(self).start,
            final(self).total == old(self).total,
            final(self).written == old(self).written + n,
            r == (if old(self).written + n - old(self).reported >= REPORT_STEP {
                Some(final(self).there())
            } else {
                None
            }),
            final(self).reported == (if r is Some {
                final(self).written
            } else {
                old(self).reported
            }),
            final(self).written - final(self).reported < REPORT_STEP,
    {
        self.written = self.written + n;
        if self.written - self.reported >= REPORT_STEP {
            self.reported = self.written;
            Some(self.absolute())
        } else {
            None
        }
    }

    /// How an attempt ended whose answer has come to its end, or that was called
    /// off. It has succeeded only if it was not called off and the file is whole,
    /// as far as its length is known.
    pub fn finish(&self, cancelled: bool) -> (r: Result<(), String>)
        ensures
            match r {
                Ok(()) => !cancelled && (self.total == 0 || self.there() >= self.total),
                Err(e) => if cancelled {
                    e@ == "下载已取消"@
                } else {
                    &&& e@ == "连接中断（已下载数据保留，可续传）"@
                    &&& self.total > 0
                    &&& self.there() < self.total
                },
            },
    {
        if cancelled {
            return Err("下载已取消".to_owned());
        }
        if self.total > 0 && self.absolute() < self.total {
            return Err("连接中断（已下载数据保留，可续传）".to_owned());
        }
        Ok(())
    }
}

/// What the engine does next.
#[derive(Debug, PartialEq, Eq)]
pub enum HttpAction {
    /// Send the request, for this range if there is one.
    Ask(Option<String>),
    /// Open the file, to go on at its end, once it has the given length, or to
    /// begin anew.
    Open { start: u64, append: bool },
    /// Read more of the answer, after reporting this progress, if any: bytes that
    /// are there, and bytes in all.
    Read(Option<(u64, u64)>),
    /// Look how long the file on disk is, after reporting this progress, if any.
    Measure(Option<(u64, u64)>),
    /// Begin anew after this many seconds.
    Wait(u64),
    /// Report this progress, and that the download is finished.
    Finish((u64, u64)),
    /// Report that the download failed.
    Fail(String),
    /// Stop without a word.
    Quit,
}

/// What an `HttpAction` stands for.
pub enum ActionView {
    Ask(Option<Seq<char>>),
    Open { start: u64, append: bool },
    Read(Option<(u64, u64)>),
    Measure(Option<(u64, u64)>),
    Wait(u64),
    Finish((u64, u64)),
    Fail(Seq<char>),
    Quit,
}

impl View for HttpAction {
    type V = ActionView;

    open spec fn view(&self) -> ActionView {
        match *self {
            HttpAction::Ask(range) => ActionView::Ask(range.deep_view()),
            HttpAction::Open { start, append } => ActionView::Open { start, append },
            HttpAction::Read(report) => ActionView::Read(report),
            HttpAction::Measure(report) => ActionView::Measure(report),
            HttpAction::Wait(secs) => ActionView::Wait(secs),
            HttpAction::Finish(report) => ActionView::Finish(report),
            HttpAction::Fail(msg) => ActionView::Fail(msg@),
            HttpAction::Quit => ActionView::Quit,
        }
    }
}

/// How far a download is.
#[derive(Debug, PartialEq, Eq)]
pub enum Phase {
    /// An attempt is to begin.
    Ready,
    /// A request that begins at this byte has been sent.
    Asked(u64),
    /// The answer is being read.
    Reading(Transfer),
    /// The attempt failed with this message.
    Broken(String),
    /// There is nothing left to do.
    Over,
}

/// What a `Phase` stands for.
pub enum PhaseView {
    Ready,
    Asked(u64),
    Reading(Transfer),
    Broken(Seq<char>),
    Over,
}

impl View for Phase {
    type V = PhaseView;

    open spec fn view(&self) -> PhaseView {
        match *self {
            Phase::Ready => PhaseView::Ready,
            Phase::Asked(start) => PhaseView::Asked(start),
            Phase::Reading(t) => PhaseView::Reading(t),
            Phase::Broken(msg) => PhaseView::Broken(msg@),
            Phase::Over => PhaseView::Over,
        }
    }
}

/// A download over HTTP: attempts, each of which goes on where the file on disk
/// ends, until one succeeds, there is none left, or it is called off.
#[derive(Debug, PartialEq, Eq)]
pub struct HttpDownload {
    /// Bytes that an earlier attempt left on disk.
    pub existing: u64,
    pub attempts: Attempts,
    pub phase: Phase,
}

impl HttpDownload {
    /// Unless the download is over, there is an attempt left; and while an answer
    /// is read, no more was reported than written.
    pub open spec fn wf(self) -> bool {
        &&& self.phase@ !is Over ==> self.attempts.wf()
        &&& self.phase matches Phase::Reading(t) ==> t.wf()
    }

    /// A download of which `existing` bytes are on disk.
    pub fn new(options: &EngineOptions, existing: u64) -> (r: HttpDownload)
        ensures
            r.wf(),
            r.existing == existing,
            r.attempts.made == 0,
            r.attempts.max_tries == (if options.max_tries == 0 {
                100
            } else {
                options.max_tries
            }),
            r.attempts.retry_wait == options.retry_wait,
            r.phase@ == PhaseView::Ready,
    {
        HttpDownload { existing, attempts: Attempts::new(options), phase: Phase::Ready }
    }

    /// An attempt begins, with `disk_size` bytes on disk.
    pub fn begin(&mut self, disk_size: u64, cancelled: bool) -> (r: HttpAction)
        requires
            old(self).wf(),
            old(self).phase@ is Ready,
        ensures
            final(self).wf(),
            final(self).existing == old(self).existing,
            final(self).attempts == old(self).attempts,
            ({
                let start = resumed_at(old(self).existing, disk_size);
                if cancelled {
                    &&& final(self).phase@ == PhaseView::Broken("下载已取消"@)
                    &&& r@ == ActionView::Measure(None)
                } else {
                    &&& final(self).phase@ == PhaseView::Asked(start)
                    &&& r@ == ActionView::Ask(
                        if start > 0 {
                            Some("bytes="@ + digits::dec(start as nat) + "-"@)
                        } else {
                            None
                        },
                    )
                }
            }),
    {
        if cancelled {
            self.phase = Phase::Broken("下载已取消".to_owned());
            return HttpAction::Measure(None);
        }
        let start: u64 = resume_offset(self.existing, disk_size);
        self.phase = Phase::Asked(start);
        HttpAction::Ask(range_header(start))
    }

    /// The server has answered with the status `code`, which reads `status`, with
    /// this range if it gave one, and with `length` bytes, zero where it gave no
    /// length.
    pub fn answered(
        &mut self,
        code: u16,
        status: &str,
        content_range: &Option<String>,
        length: u64,
    ) -> (r: HttpAction)
        requires
            old(self).wf(),
            old(self).phase@ is Asked,
        ensures
            final(self).wf(),
            final(self).existing == old(self).existing,
            final(self).attempts == old(self).attempts,
            ({
                let start = if code == 206 {
                    old(self).phase@->Asked_0
                } else {
                    0
                };
                let total = whole_length(content_range.deep_view(), start, length) as u64;
                if 200 <= code < 300 {
                    &&& final(self).phase@ == PhaseView::Reading(
                        (Transfer { start, total, written: 0, reported: 0 }),
                    )
                    &&& r@ == (ActionView::Open { start, append: code == 206 })
                } else {
                    &&& final(self).phase@ == PhaseView::Broken("HTTP 错误: "@ + status@)
                    &&& r@ == ActionView::Measure(None)
                }
            }),
    {
        let asked: u64 = match self.phase {
            Phase::Asked(start) => start,
            _ => 0,
        };
        match accept(code, status, asked) {
            Ok(a) => {
                let total: u64 = total_length(content_range, a.start, length);
                self.phase = Phase::Reading(Transfer::new(a.start, total));
                HttpAction::Open { start: a.start, append: a.append }
            },
            Err(e) => {
                self.phase = Phase::Broken(e);
                HttpAction::Measure(None)
            },
        }
    }

    /// The request, the file or the answer failed with this message.
    pub fn broke(&mut self, message: String) -> (r: HttpAction)
        requires
            old(self).wf(),
            old(self).phase@ is Asked || old(self).phase@ is Reading,
        ensures
            final(self).wf(),
            final(self).existing == old(self).existing,
            final(self).attempts == old(self).attempts,
            final(self).phase@ == PhaseView::Broken(message@),
            r@ == ActionView::Measure(None),
    {
        self.phase = Phase::Broken(message);
        HttpAction::Measure(None)
    }

    /// `n` bytes of the answer have been read and written; none at its end. While
    /// the download is called off, nothing is read: `n` is zero.
    pub fn got(&mut self, n: u64, cancelled: bool) -> (r: HttpAction)
        requires
            old(self).wf(),
            old(self).phase@ is Reading,
            old(self).phase@->Reading_0.written + n <= u64::MAX,
        ensures
            final(self).wf(),
            final(self).existing == old(self).existing,
            final(self).attempts == old(self).attempts,
            ({
                let t = old(self).phase@->Reading_0;
                let report = (t.there(), t.total);
                if n > 0 {
                    let more = (t.written + n) as u64;
                    let due = more - t.reported >= REPORT_STEP;
                    let u = Transfer {
                        written: more,
                        reported: if due {
                            more
                        } else {
                            t.reported
                        },
                        ..t
                    };
                    &&& final(self).phase@ == PhaseView::Reading(u)
                    &&& r@ == ActionView::Read(
                        if due {
                            Some((u.there(), u.total))
                        } else {
                            None
                        },
                    )
                } else if cancelled {
                    &&& final(self).phase@ == PhaseView::Broken("下载已取消"@)
                    &&& r@ == ActionView::Measure(Some(report))
                } else if t.total > 0 && t.there() < t.total {
                    &&& final(self).phase@ == PhaseView::Broken(
                        "连接中断（已下载数据保留，可续传）"@,
                    )
                    &&& r@ == ActionView::Measure(Some(report))
                } else {
                    &&& final(self).phase@ == PhaseView::Over
                    &&& r@ == ActionView::Finish(report)
                }
            }),
    {
        let mut t = match self.phase {
            Phase::Reading(t) => t,
            _ => Transfer::new(0, 0),
        };
        if n > 0 {
            let report = match t.wrote(n) {
                Some(there) => Some((there, t.total)),
                None => None,
            };
            self.phase = Phase::Reading(t);
            return HttpAction::Read(report);
        }
        let report = (t.absolute(), t.total);
        match t.finish(cancelled) {
            Ok(()) => {
                self.phase = Phase::Over;
                HttpAction::Finish(report)
            },
            Err(e) => {
                self.phase = Phase::Broken(e);
                HttpAction::Measure(Some(report))
            },
        }
    }

    /// After a failed attempt there are `disk_size` bytes on disk, unless that
    /// could not be told. The download ends here if it was called off, if trying
    /// again is no use, or if no attempt is left.
    pub fn measured(&mut self, disk_size: Option<u64>, cancelled: bool) -> (r: HttpAction)
        requires
            old(self).wf(),
            old(self).phase@ is Broken,
        ensures
            final(self).wf(),
            final(self).existing == (match disk_size {
                Some(n) => n,
                None => old(self).existing,
            }),
            final(self).attempts.made == old(self).attempts.made + 1,
            final(self).attempts.max_tries == old(self).attempts.max_tries,
            final(self).attempts.retry_wait == old(self).attempts.retry_wait,
            ({
                let msg = old(self).phase@->Broken_0;
                if cancelled {
                    final(self).phase@ is Over && r@ == ActionView::Quit
                } else if hopeless(msg) || final(self).attempts.made
                    >= old(self).attempts.max_tries {
                    final(self).phase@ is Over && r@ == ActionView::Fail(msg)
                } else {
                    final(self).phase@ is Ready && r@ == ActionView::Wait(
                        old(self).attempts.retry_wait,
                    )
                }
            }),
    {
        if let Some(n) = disk_size {
            self.existing = n;
        }
        let msg = match &self.phase {
            Phase::Broken(msg) => msg.clone(),
            _ => String::new(),
        };
        match self.attempts.failed(is_fatal_error(msg.as_str()), cancelled) {
            NextTry::Stop => {
                self.phase = Phase::Over;
                HttpAction::Quit
            },
            NextTry::GiveUp => {
                self.phase = Phase::Over;
                HttpAction::Fail(msg)
            },
            NextTry::Again(secs) => {
                self.phase = Phase::Ready;
                HttpAction::Wait(secs)
            },
        }
    }
}

/// The bytes of a file on disk after an attempt that began behind the first
/// `start` of them and wrote what it got.
pub open spec fn on_disk(before: Seq<u8>, start: int, written: Seq<u8>) -> Seq<u8> {
    before.take(start) + written
}

/// A character that the name of a header may hold.
pub open spec fn in_header_name(c: char) -> bool {
    ||| 'a' <= c <= 'z' || 'A' <= c <= 'Z' || '0' <= c <= '9'
    ||| c == '!' || c == '#' || c == '$' || c == '%' || c == '&' || c == '\'' || c == '*'
    ||| c == '+' || c == '-' || c == '.' || c == '^' || c == '_' || c == '`' || c == '|'
    ||| c == '~'
}

/// Whether a text can be the name of a header.
pub open spec fn is_header_name(s: Seq<char>) -> bool {
    0 < s.len() < 0x1_0000 && forall|i: int| 0 <= i < s.len() ==> in_header_name(#[trigger] s[i])
}

/// A character that the value of a header may hold: no control character but the
/// tab.
pub open spec fn in_header_value(c: char) -> bool {
    c == '\t' || c >= ' ' && c != '\u{7f}'
}

/// Whether a text can be the value of a header.
pub open spec fn is_header_value(s: Seq<char>) -> bool {
    forall|i: int| 0 <= i < s.len() ==> in_header_value(#[trigger] s[i])
}

/// `reqwest::header::HeaderName::from_bytes`, of the bytes of a text: it accepts
/// letters, digits and the other characters of a token, from one of them up to
/// 65535.
#[verifier::external_body]
fn names_header(s: &str) -> (r: bool)
    ensures
        r == is_header_name(s@),
{
    reqwest::header::HeaderName::from_bytes(s.as_bytes()).is_ok()
}

/// `reqwest::header::HeaderValue::from_str`: it accepts every text without control
/// characters other than the tab.
#[verifier::external_body]
fn values_header(s: &str) -> (r: bool)
    ensures
        r == is_header_value(s@),
{
    reqwest::header::HeaderValue::from_str(s).is_ok()
}

/// The headers that a request can carry, in their order; others are left out.
pub open spec fn sendable(headers: Seq<(Seq<char>, Seq<char>)>) -> Seq<(Seq<char>, Seq<char>)>
    decreases headers.len(),
{
    if headers.len() == 0 {
        seq![]
    } else {
        let before = sendable(headers.drop_last());
        if is_header_name(headers.last().0) && is_header_value(headers.last().1) {
            before.push(headers.last())
        } else {
            before
        }
    }
}

/// The headers that a request can carry, in their order; others are left out.
pub fn sendable_headers(headers: &Vec<(String, String)>) -> (r: Vec<(String, String)>)
    ensures
        r.deep_view() == sendable(headers.deep_view()),
{
    let ghost view = headers.deep_view();
    let mut out: Vec<(String, String)> = Vec::new();
    let mut i: usize = 0;
    proof {
        assert(out.deep_view() =~= sendable(view.take(0)));
    }
    while i < headers.len()
        invariant
            i <= headers@.len(),
            view == headers.deep_view(),
            out.deep_view() == sendable(view.take(i as int)),
        decreases headers@.len() - i,
    {
        proof {
            let upto = view.take(i + 1);
            assert(upto.drop_last() =~= view.take(i as int));
            assert(upto.last() == (headers@[i as int].0@, headers@[i as int].1@));
        }
        if names_header(headers[i].0.as_str()) && values_header(headers[i].1.as_str()) {
            let ghost before = out.deep_view();
            out.push((headers[i].0.clone(), headers[i].1.clone()));
            proof {
                assert(out.deep_view() =~= before.push(
                    (headers@[i as int].0@, headers@[i as int].1@),
                ));
            }
        }
        i += 1;
    }
    proof {
        assert(view.take(i as int) =~= view);
    }
    out
}

/// Broken off and taken up any number of times, a download writes the file that
/// the server has: if what is on disk is a beginning of the file, then so is what
/// an attempt leaves there, be it that it went on behind what was there or that it
/// began anew. Where an attempt ends well and the length of the file was known,
/// the file is whole.
pub proof fn law_disk_holds_a_beginning(
    file: Seq<u8>,
    before: Seq<u8>,
    existing: u64,
    partial: bool,
    t: Transfer,
)
    requires
        before == file.take(before.len() as int),
        before.len() <= file.len() <= u64::MAX,
        t.start == (if partial {
            resumed_at(existing, before.len() as u64)
        } else {
            0
        }),
        t.start + t.written <= file.len(),
    ensures
        ({
            let after = on_disk(
                before,
                t.start as int,
                file.subrange(t.start as int, t.start + t.written),
            );
            &&& after == file.take(after.len() as int)
            &&& after.len() == t.there()
            &&& t.total == file.len() && t.there() >= t.total ==> after == file
        }),
{
    let after = on_disk(
        before,
        t.start as int,
        file.subrange(t.start as int, t.start + t.written),
    );
    assert(after =~= file.take(t.start + t.written));
    assert(file.take(file.len() as int) =~= file);
}

} // verus!
