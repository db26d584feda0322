//! Transfers over HTTP: how they are set up, go on, fail and end, and how the length of a
//! source is probed.

use vstd::prelude::*;

use crate::digits;
use crate::fastdown::{self, FdSetup};
use crate::http::{self, Accepted, HttpAction, HttpDownload, Phase, Transfer};
use crate::kget::{
    self, Attempts, HeadState, HttpTarget, KgetError, KgetInitError, NextTry, OptimizerSettings,
    ProbeStep, ProxyKind, ProxySettings,
};
use crate::laws::words;
use crate::options::EngineOptions;
use crate::text;

verus! {

/// An attempt goes on at the end of the file where that is as long as the earlier
/// attempts left it, and else begins anew; it asks for what comes from there on.
pub proof fn law_an_attempt_goes_on_behind_the_file(
    existing: u64,
    disk: u64,
    start: u64,
    range: Option<String>,
    n: &str,
    number: Option<u64>,
)
    requires
        call_ensures(http::resume_offset, (existing, disk), start),
        call_ensures(http::range_header, (start,), range),
        call_ensures(digits::parse_unsigned, (n, u64::MAX), number),
        range is Some ==> range->0@ == "bytes="@ + n@ + "-"@,
    ensures
        existing == disk ==> start == disk,
        existing != disk ==> start == 0,
        start == 0 <==> range is None,
        range is Some ==> number == Some(start),
{
    if range is Some {
        digits::lemma_dec(start as nat);
        let d = digits::dec(start as nat);
        reveal_strlit("bytes=");
        reveal_strlit("-");
        let a = "bytes="@ + n@ + "-"@;
        let b = "bytes="@ + d + "-"@;
        assert(a.len() == b.len());
        assert(n@ =~= a.subrange(6, a.len() - 1));
        assert(d =~= b.subrange(6, b.len() - 1));
        assert(digits::is_digit(d[0]));
    }
}

/// Every request for a range is for what follows a given byte.
pub proof fn law_a_range_names_its_beginning(start: u64, range: Option<String>, s: String)
    requires
        call_ensures(http::range_header, (start,), range),
        call_ensures(digits::u64_text, (start,), s),
    ensures
        start > 0 ==> (range matches Some(r) && r@ == "bytes="@ + s@ + "-"@),
        start == 0 ==> range is None,
{
}

/// A partial answer is appended where the request began, any other success replaces the
/// file, and every other status is an error that says so.
pub proof fn law_only_a_partial_answer_is_appended(
    code: u16,
    status: &str,
    start: u64,
    r: Result<Accepted, String>,
)
    requires
        call_ensures(http::accept, (code, status, start), r),
    ensures
        code == 206 ==> (r matches Ok(a) && a.append && a.start == start),
        200 <= code < 300 && code != 206 ==> (r matches Ok(a) && !a.append && a.start == 0),
        code < 200 || code >= 300 ==> (r matches Err(e) && e@ == "HTTP 错误: "@ + status@),
{
}

/// The number behind the slash of a range is the length of the whole file; without a
/// range, the file ends where the answer does.
pub proof fn law_length_of_the_whole_file(
    range: &Option<String>,
    start: u64,
    length: u64,
    unit: Seq<char>,
    n: u64,
    s: String,
    r: u64,
    front: Seq<char>,
    back: Seq<char>,
    value: &str,
    t: Option<u64>,
)
    requires
        forall|i: int| 0 <= i < unit.len() ==> unit[i] != '/',
        call_ensures(digits::u64_text, (n,), s),
        text::blank(front) && text::blank(back),
        forall|i: int| 0 <= i < front.len() ==> front[i] != '/',
        forall|i: int| 0 <= i < back.len() ==> back[i] != '/',
        call_ensures(http::total_length, (range, start, length), r),
        call_ensures(kget::range_total, (value,), t),
    ensures
        range is Some && range->0@ == unit.push('/') + (front + s@ + back) ==> r == n,
        range is None && start + length <= u64::MAX ==> r == start + length,
        range is None && start + length > u64::MAX ==> r == u64::MAX,
        range is Some && range->0@ == unit && start + length <= u64::MAX ==> r == start + length,
        value@ == unit.push('/') + (front + s@ + back) ==> t == Some(n),
        value@ == unit ==> t is None,
{
    lemma_total_behind_slash(unit, n, front, back);
    text::lemma_find_is(unit, '/', unit.len() as int);
    assert(text::split(unit, '/') == seq![unit]);
}

/// The number behind the slash of a range is its total.
proof fn lemma_total_behind_slash(unit: Seq<char>, n: u64, front: Seq<char>, back: Seq<char>)
    requires
        forall|i: int| 0 <= i < unit.len() ==> unit[i] != '/',
        text::blank(front) && text::blank(back),
        forall|i: int| 0 <= i < front.len() ==> front[i] != '/',
        forall|i: int| 0 <= i < back.len() ==> back[i] != '/',
    ensures
        kget::total_in_range(unit.push('/') + (front + digits::dec(n as nat) + back)) == Some(
            n as nat,
        ),
{
    let d = digits::dec(n as nat);
    let part = front + d + back;
    let whole = unit.push('/') + part;
    let k = unit.len() as int;
    lemma_digits_are_plain(n);
    text::lemma_find_is(whole, '/', k);
    assert(whole.take(k) =~= unit);
    assert(whole.skip(k + 1) =~= part);
    assert forall|i: int| 0 <= i < part.len() implies part[i] != '/' by {
        if i < front.len() {
            assert(part[i] == front[i]);
        } else if i < front.len() + d.len() {
            assert(part[i] == d[i - front.len()]);
            assert(digits::is_digit(d[i - front.len()]));
        } else {
            assert(part[i] == back[i - front.len() - d.len()]);
        }
    }
    text::lemma_find_is(part, '/', part.len() as int);
    assert(text::split(part, '/') == seq![part]);
    assert(text::split(whole, '/') =~= seq![unit, part]);
    assert(text::split(whole, '/')[1] == part);
    text::lemma_trimmed(front, d, back);
}

/// A number is written in digits alone, and they are read as that number.
proof fn lemma_digits_are_plain(n: u64)
    ensures
        ({
            let d = digits::dec(n as nat);
            &&& d.len() > 0
            &&& forall|i: int| 0 <= i < d.len() ==> '0' <= #[trigger] d[i] <= '9'
            &&& forall|i: int| 0 <= i < d.len() ==> !text::spec_is_space(#[trigger] d[i])
            &&& digits::unsigned(d, u64::MAX as nat) == Some(n as nat)
            &&& n <= 65535 ==> digits::unsigned(d, 65535) == Some(n as nat)
        }),
{
    digits::lemma_dec(n as nat);
    let d = digits::dec(n as nat);
    assert forall|i: int| 0 <= i < d.len() implies '0' <= #[trigger] d[i] <= '9' by {
        assert(digits::is_digit(d[i]));
    }
    assert(d[0] != '+');
}

/// A file is cut or stretched to the byte where the answer begins, unless it ends there.
pub proof fn law_a_file_is_brought_to_its_length(len: u64, start: u64, r: Option<u64>)
    requires
        call_ensures(http::alignment, (len, start), r),
    ensures
        len == start ==> r is None,
        len != start ==> r == Some(start),
{
}

/// Progress is reported as soon as 256 KiB have been written since the last report, and
/// counts the bytes before the attempt.
pub proof fn law_written_bytes_are_reported(t: &mut Transfer, n: u64, r: Option<u64>)
    requires
        old(t).reported <= old(t).written,
        old(t).written + n <= u64::MAX,
        old(t).start + old(t).written + n <= u64::MAX,
        call_ensures(Transfer::wrote, (t, n), r),
    ensures
        final(t).start == old(t).start && final(t).total == old(t).total,
        final(t).written == old(t).written + n,
        old(t).written + n - old(t).reported >= 262144 ==> r == Some(
            (old(t).start + old(t).written + n) as u64,
        ) && final(t).reported == final(t).written,
        old(t).written + n - old(t).reported < 262144 ==> r is None && final(t).reported == old(t).reported,
{
}

/// An attempt succeeds exactly where it was not called off and, as far as its length is
/// known, the file is whole.
pub proof fn law_an_attempt_ends_well_with_the_whole_file(
    start: u64,
    total: u64,
    fresh: Transfer,
    t: &Transfer,
    cancelled: bool,
    r: Result<(), String>,
)
    requires
        call_ensures(Transfer::new, (start, total), fresh),
        t.start + t.written <= u64::MAX,
        call_ensures(Transfer::finish, (t, cancelled), r),
    ensures
        fresh == (Transfer { start, total, written: 0, reported: 0 }),
        r is Ok <==> !cancelled && (t.total == 0 || t.start + t.written >= t.total),
        cancelled ==> (r matches Err(e) && e@ == "下载已取消"@),
        !cancelled && r is Err ==> r->Err_0@ == "连接中断（已下载数据保留，可续传）"@,
{
}

/// The state of a download over HTTP before its first attempt.
pub proof fn law_a_download_begins_with_all_its_attempts(
    o: &EngineOptions,
    existing: u64,
    r: HttpDownload,
    a: Attempts,
)
    requires
        call_ensures(HttpDownload::new, (o, existing), r),
        call_ensures(Attempts::new, (o,), a),
    ensures
        r.existing == existing,
        r.phase is Ready,
        r.attempts.made == 0 && a.made == 0,
        o.max_tries > 0 ==> r.attempts.max_tries == o.max_tries && a.max_tries == o.max_tries,
        o.max_tries == 0 ==> r.attempts.max_tries == 100 && a.max_tries == 100,
        r.attempts.retry_wait == o.retry_wait && a.retry_wait == o.retry_wait,
{
}

/// After a failed attempt that left `n` bytes on disk the next one waits as long as is
/// set, and asks for what follows those bytes.
pub proof fn law_the_next_attempt_goes_on(
    d: &mut HttpDownload,
    n: u64,
    a: HttpAction,
    e: &mut HttpDownload,
    b: HttpAction,
    s: String,
)
    requires
        old(d).wf(),
        old(d).phase is Broken,
        call_ensures(HttpDownload::measured, (d, Some(n), false), a),
        a is Wait,
        *old(e) == *final(d),
        call_ensures(HttpDownload::begin, (e, n, false), b),
        call_ensures(digits::u64_text, (n,), s),
    ensures
        a == HttpAction::Wait(old(d).attempts.retry_wait),
        final(d).attempts.made == old(d).attempts.made + 1,
        final(d).attempts.made < final(d).attempts.max_tries,
        final(d).existing == n,
        final(d).phase is Ready,
        final(e).phase == Phase::Asked(n),
        n > 0 ==> (b matches HttpAction::Ask(Some(range)) && range@ == "bytes="@ + s@ + "-"@),
        n == 0 ==> b == HttpAction::Ask(None),
{
    assert(final(e).phase@ == http::PhaseView::Asked(n));
}

/// An attempt asks from the end of the file on where that is as long as it was left, and
/// for the whole file else.
pub proof fn law_what_an_attempt_asks_for(
    d: &mut HttpDownload,
    disk: u64,
    cancelled: bool,
    r: HttpAction,
    s: String,
)
    requires
        old(d).wf(),
        old(d).phase is Ready,
        call_ensures(HttpDownload::begin, (d, disk, cancelled), r),
        call_ensures(digits::u64_text, (disk,), s),
    ensures
        final(d).existing == old(d).existing && final(d).attempts == old(d).attempts,
        !cancelled && old(d).existing == disk && disk > 0 ==> (r matches HttpAction::Ask(Some(x))
            && x@ == "bytes="@ + s@ + "-"@) && final(d).phase == Phase::Asked(disk),
        !cancelled && (old(d).existing != disk || disk == 0) ==> r == HttpAction::Ask(None)
            && final(d).phase == Phase::Asked(0),
        cancelled ==> r == HttpAction::Measure(None) && (final(d).phase matches Phase::Broken(e)
            && e@ == "下载已取消"@),
{
}

/// The answer to a request: a partial one is appended where the request began, another
/// success replaces the file, and the length is that of the whole file; every other
/// status breaks the attempt.
pub proof fn law_what_an_answer_leads_to(
    d: &mut HttpDownload,
    code: u16,
    status: &str,
    range: &Option<String>,
    length: u64,
    r: HttpAction,
    start: u64,
)
    requires
        old(d).wf(),
        old(d).phase == Phase::Asked(start),
        call_ensures(HttpDownload::answered, (d, code, status, range, length), r),
        start + length <= u64::MAX,
    ensures
        final(d).existing == old(d).existing && final(d).attempts == old(d).attempts,
        code == 206 ==> r == (HttpAction::Open { start, append: true }) && (
        final(d).phase matches Phase::Reading(t) && t.start == start && t.written == 0 && t.reported
            == 0 && (range is None ==> t.total == start + length)),
        200 <= code < 300 && code != 206 ==> r == (HttpAction::Open { start: 0, append: false })
            && (final(d).phase matches Phase::Reading(t) && t.start == 0 && t.written == 0
            && t.reported == 0 && (range is None ==> t.total == length)),
        code < 200 || code >= 300 ==> r == HttpAction::Measure(None) && (
        final(d).phase matches Phase::Broken(e) && e@ == "HTTP 错误: "@ + status@),
{
}

/// A failure in the midst of an attempt breaks it, with its message.
pub proof fn law_a_failure_breaks_the_attempt(d: &mut HttpDownload, message: String, r: HttpAction)
    requires
        old(d).wf(),
        old(d).phase is Asked || old(d).phase is Reading,
        call_ensures(HttpDownload::broke, (d, message), r),
    ensures
        r == HttpAction::Measure(None),
        final(d).phase matches Phase::Broken(e) && e@ == message@,
        final(d).existing == old(d).existing && final(d).attempts == old(d).attempts,
{
}

/// Bytes that come are counted, and the end of the answer finishes the download exactly
/// where the file is whole, as far as its length is known, and nobody called it off.
pub proof fn law_what_the_bytes_lead_to(
    d: &mut HttpDownload,
    n: u64,
    cancelled: bool,
    r: HttpAction,
    t: Transfer,
)
    requires
        old(d).wf(),
        old(d).phase == Phase::Reading(t),
        t.start + t.written + n <= u64::MAX,
        call_ensures(HttpDownload::got, (d, n, cancelled), r),
    ensures
        final(d).existing == old(d).existing && final(d).attempts == old(d).attempts,
        n > 0 ==> (final(d).phase matches Phase::Reading(u) && u.written == t.written + n && u.start
            == t.start && u.total == t.total),
        n > 0 && t.written + n - t.reported >= 262144 ==> r == HttpAction::Read(
            Some(((t.start + t.written + n) as u64, t.total)),
        ),
        n > 0 && t.written + n - t.reported < 262144 ==> r == HttpAction::Read(None),
        n == 0 && !cancelled && (t.total == 0 || t.start + t.written >= t.total) ==> r
            == HttpAction::Finish(((t.start + t.written) as u64, t.total)) && final(d).phase is Over,
        n == 0 && cancelled ==> r == HttpAction::Measure(
            Some(((t.start + t.written) as u64, t.total)),
        ) && (final(d).phase matches Phase::Broken(e) && e@ == "下载已取消"@),
        n == 0 && !cancelled && t.total > 0 && t.start + t.written < t.total ==> r
            == HttpAction::Measure(Some(((t.start + t.written) as u64, t.total))) && (
        final(d).phase matches Phase::Broken(e) && e@ == "连接中断（已下载数据保留，可续传）"@),
{
}

/// What follows a failed attempt: nothing more once the download was called off; a report
/// of the failure where the source is not there or no attempt is left; and else another
/// attempt.
pub proof fn law_what_a_failure_leads_to(
    d: &mut HttpDownload,
    disk: Option<u64>,
    cancelled: bool,
    r: HttpAction,
    e: String,
    msg: &str,
    fatal: bool,
)
    requires
        old(d).wf(),
        old(d).phase == Phase::Broken(e),
        msg@ == e@,
        call_ensures(http::is_fatal_error, (msg,), fatal),
        call_ensures(HttpDownload::measured, (d, disk, cancelled), r),
    ensures
        disk matches Some(n) ==> final(d).existing == n,
        disk is None ==> final(d).existing == old(d).existing,
        final(d).attempts.made == old(d).attempts.made + 1,
        cancelled ==> r is Quit && final(d).phase is Over,
        !cancelled && (fatal || old(d).attempts.made + 1 >= old(d).attempts.max_tries) ==> (
        r matches HttpAction::Fail(m) && m@ == e@) && final(d).phase is Over,
        !cancelled && !fatal && old(d).attempts.made + 1 < old(d).attempts.max_tries ==> r
            == HttpAction::Wait(old(d).attempts.retry_wait) && final(d).phase is Ready,
{
}

/// Whether `part` stands in `msg`, be it in capital letters or not.
pub open spec fn says(msg: Seq<char>, part: Seq<char>) -> bool {
    exists|i: int|
        0 <= i && i + part.len() <= msg.len() && part == text::ascii_lower(
            #[trigger] msg.subrange(i, i + part.len()),
        )
}

proof fn lemma_says(msg: Seq<char>, part: Seq<char>)
    ensures
        says(msg, part) <==> text::find_text(text::ascii_lower(msg), part) >= 0,
{
    let low = text::ascii_lower(msg);
    words::lemma_found(low, part);
    if says(msg, part) {
        let i = choose|i: int|
            0 <= i && i + part.len() <= msg.len() && part == text::ascii_lower(
                #[trigger] msg.subrange(i, i + part.len()),
            );
        assert(low.subrange(i, i + part.len()) =~= text::ascii_lower(
            msg.subrange(i, i + part.len()),
        ));
    }
    if text::find_text(low, part) >= 0 {
        let i = text::find_text(low, part);
        assert(low.subrange(i, i + part.len()) =~= text::ascii_lower(
            msg.subrange(i, i + part.len()),
        ));
    }
}

/// Trying again is no use exactly where the error says that the source is not there or
/// that its checksum is wrong; for the general engine, also where it says that the server
/// cannot serve parts.
pub proof fn law_which_errors_are_final(msg: &str, a: bool, b: bool)
    requires
        call_ensures(http::is_fatal_error, (msg,), a),
        call_ensures(kget::is_fatal_engine_error, (msg,), b),
    ensures
        a <==> says(msg@, "404"@) || says(msg@, "not found"@) || says(msg@, "checksum"@),
        b <==> a || says(msg@, "does not support range"@),
{
    lemma_says(msg@, "404"@);
    lemma_says(msg@, "not found"@);
    lemma_says(msg@, "checksum"@);
    lemma_says(msg@, "does not support range"@);
}

/// A failed attempt is counted; the next one comes after the wait that is set, unless the
/// download was called off, the error is final, or no attempt is left.
pub proof fn law_attempts_are_counted(a: &mut Attempts, fatal: bool, cancelled: bool, r: NextTry)
    requires
        old(a).made < old(a).max_tries,
        call_ensures(Attempts::failed, (a, fatal, cancelled), r),
    ensures
        final(a).made == old(a).made + 1,
        final(a).max_tries == old(a).max_tries && final(a).retry_wait == old(a).retry_wait,
        r is Stop <==> cancelled,
        r is GiveUp <==> !cancelled && (fatal || final(a).made == final(a).max_tries),
        r matches NextTry::Again(secs) ==> secs == old(a).retry_wait && final(a).made < final(a).max_tries,
{
}

/// A proxy is told name and password together, or neither.
pub proof fn law_a_login_is_complete(o: &EngineOptions, r: Option<(String, String)>)
    requires
        call_ensures(http::proxy_auth, (o,), r),
    ensures
        o.all_proxy_user is Some && o.all_proxy_passwd is Some ==> (r matches Some((user, secret))
            && user@ == o.all_proxy_user->0@ && secret@ == o.all_proxy_passwd->0@),
        o.all_proxy_user is None || o.all_proxy_passwd is None ==> r is None,
{
}

/// The proxy of the options is used, with its login and in the way that its scheme says;
/// a blank one is none.
pub proof fn law_the_named_proxy_is_used(
    o: &EngineOptions,
    r: ProxySettings,
    c: Option<String>,
    rest: Seq<char>,
    i: int,
)
    requires
        call_ensures(kget::make_proxy, (o,), r),
        call_ensures(kget::custom_proxy, (&o.all_proxy,), c),
    ensures
        o.all_proxy is None ==> !r.enabled && r.url is None && c is None,
        (o.all_proxy matches Some(url) && text::blank(url@)) ==> !r.enabled && r.url is None
            && r.username is None && r.password is None && c is None,
        (o.all_proxy matches Some(url) && 0 <= i < url@.len() && !text::spec_is_space(url@[i]))
            ==> {
            &&& r.enabled
            &&& r.url matches Some(u) && u@ == o.all_proxy->0@
            &&& c matches Some(u) && u@ == o.all_proxy->0@
            &&& r.username.deep_view() == o.all_proxy_user.deep_view()
            &&& r.password.deep_view() == o.all_proxy_passwd.deep_view()
            &&& o.all_proxy->0@ == "socks5://"@ + rest || o.all_proxy->0@ == "socks5h://"@ + rest
                ==> r.proxy_type == ProxyKind::Socks5
            &&& o.all_proxy->0@ == "https://"@ + rest ==> r.proxy_type == ProxyKind::Https
            &&& o.all_proxy->0@ == "http://"@ + rest ==> r.proxy_type == ProxyKind::Http
        },
{
    reveal_strlit("socks5://");
    reveal_strlit("socks5h://");
    reveal_strlit("https://");
    reveal_strlit("http://");
    if o.all_proxy is Some {
        let url = o.all_proxy->0@;
        if text::blank(url) {
            text::lemma_trimmed(url, seq![], seq![]);
            assert(url + seq![] + seq![] =~= url);
        }
        if 0 <= i < url.len() && !text::spec_is_space(url[i]) {
            lemma_not_blank(url, i);
        }
        if url == "socks5://"@ + rest {
            assert(url.take(9) =~= "socks5://"@);
        }
        if url == "socks5h://"@ + rest {
            assert(url.take(10) =~= "socks5h://"@);
        }
        if url == "https://"@ + rest {
            assert(url.take(8) =~= "https://"@);
            assert(url[0] == 'h');
            assert("socks5://"@[0] == 's' && "socks5h://"@[0] == 's');
            assert(url.len() >= 9 ==> url.take(9)[0] == 'h');
            assert(url.len() >= 10 ==> url.take(10)[0] == 'h');
        }
        if url == "http://"@ + rest {
            assert(url[4] == ':' && url[0] == 'h');
            assert("https://"@[4] == 's');
            assert("socks5://"@[0] == 's' && "socks5h://"@[0] == 's');
            assert(url.len() >= 9 ==> url.take(9)[0] == 'h');
            assert(url.len() >= 10 ==> url.take(10)[0] == 'h');
            assert(url.len() >= 8 ==> url.take(8)[4] == ':');
        }
    }
}

/// A text with a character that is not blank keeps something when it is trimmed.
proof fn lemma_not_blank(s: Seq<char>, i: int)
    requires
        0 <= i < s.len(),
        !text::spec_is_space(s[i]),
    ensures
        text::trimmed(s).len() > 0,
    decreases s.len(),
{
    if text::spec_is_space(s[0]) {
        assert(s.skip(1)[i - 1] == s[i]);
        lemma_not_blank(s.skip(1), i - 1);
    } else {
        lemma_end_not_blank(s);
    }
}

proof fn lemma_end_not_blank(s: Seq<char>)
    requires
        s.len() > 0,
        !text::spec_is_space(s[0]),
    ensures
        text::trim_end(s).len() > 0,
    decreases s.len(),
{
    if text::spec_is_space(s.last()) {
        assert(s.drop_last()[0] == s[0]);
        lemma_end_not_blank(s.drop_last());
    }
}

/// As many connections are made as are set, from one up to 32, and at the speed that is
/// left by the limits.
pub proof fn law_connections_are_bounded(
    n: u32,
    r: usize,
    o: &EngineOptions,
    s: OptimizerSettings,
    limit: Option<u64>,
)
    requires
        call_ensures(kget::connection_count, (n,), r),
        call_ensures(kget::make_optimizer, (o,), s),
        call_ensures(EngineOptions::effective_speed_limit, (o,), limit),
        o.connections == n,
    ensures
        1 <= n <= 32 ==> r == n,
        n == 0 ==> r == 1,
        n > 32 ==> r == 32,
        s.max_connections == r,
        s.speed_limit == limit,
{
}

/// A request carries the headers of the options, in their order, and then the user agent.
pub proof fn law_requests_carry_the_headers(
    o: &EngineOptions,
    r: Vec<(String, String)>,
    i: int,
)
    requires
        call_ensures(kget::request_headers, (o,), r),
        0 <= i < o.headers@.len(),
    ensures
        r@[i].0@ == o.headers@[i].0@ && r@[i].1@ == o.headers@[i].1@,
        o.user_agent is None ==> r@.len() == o.headers@.len(),
        o.user_agent matches Some(agent) ==> r@.len() == o.headers@.len() + 1 && r@.last().0@
            == "User-Agent"@ && r@.last().1@ == agent@,
{
    let view = r.deep_view();
    assert(view.len() == r@.len());
    assert(view[i] == (r@[i].0@, r@[i].1@));
    assert(o.headers.deep_view()[i] == (o.headers@[i].0@, o.headers@[i].1@));
    assert(view.last() == (r@.last().0@, r@.last().1@));
}

/// Of the headers those are sent that can be, in their order: one more at the end is one
/// more that is sent, unless its name or value has a character that none may have.
pub proof fn law_headers_that_can_be_sent(
    headers: &Vec<(String, String)>,
    longer: &Vec<(String, String)>,
    a: Vec<(String, String)>,
    b: Vec<(String, String)>,
    name: String,
    value: String,
    i: int,
)
    requires
        longer@ == headers@.push((name, value)),
        call_ensures(http::sendable_headers, (headers,), a),
        call_ensures(http::sendable_headers, (longer,), b),
    ensures
        headers@.len() == 0 ==> a@.len() == 0,
        name@.len() == 0 ==> b.deep_view() == a.deep_view(),
        0 <= i < name@.len() && (name@[i] <= ' ' || name@[i] == ':' || name@[i] > '~')
            ==> b.deep_view() == a.deep_view(),
        0 <= i < value@.len() && (value@[i] == '\n' || value@[i] == '\r' || value@[i] == '\0')
            ==> b.deep_view() == a.deep_view(),
        0 < name@.len() < 65536 && (forall|j: int|
            0 <= j < name@.len() ==> 'a' <= #[trigger] name@[j] <= 'z' || 'A' <= name@[j] <= 'Z'
                || '0' <= name@[j] <= '9' || name@[j] == '-') && (forall|j: int|
            0 <= j < value@.len() ==> ' ' <= #[trigger] value@[j] <= '~') ==> b.deep_view()
            == a.deep_view().push((name@, value@)),
{
    assert(longer.deep_view() =~= headers.deep_view().push((name@, value@)));
    assert(longer.deep_view().drop_last() =~= headers.deep_view());
    assert(a.deep_view().len() == a@.len());
    if 0 <= i < name@.len() && (name@[i] <= ' ' || name@[i] == ':' || name@[i] > '~') {
        assert(!http::in_header_name(name@[i]));
    }
    if 0 <= i < value@.len() && (value@[i] == '\n' || value@[i] == '\r' || value@[i] == '\0') {
        assert(!http::in_header_value(value@[i]));
    }
}

/// The concurrent engine is set up from the options, and refuses a proxy that wants a
/// login.
pub proof fn law_the_concurrent_engine_is_set_up(
    o: &EngineOptions,
    url: &str,
    r: Result<FdSetup, String>,
    output: String,
    headers: Vec<(String, String)>,
    proxy: Option<String>,
    limit: Option<u64>,
    connections: usize,
)
    requires
        call_ensures(fastdown::setup, (o, url), r),
        call_ensures(http::output_path, (o, url), output),
        call_ensures(kget::request_headers, (o,), headers),
        call_ensures(kget::custom_proxy, (&o.all_proxy,), proxy),
        call_ensures(EngineOptions::effective_speed_limit, (o,), limit),
        call_ensures(kget::connection_count, (o.connections,), connections),
    ensures
        o.all_proxy_user is Some || o.all_proxy_passwd is Some ==> r is Err,
        o.all_proxy_user is None && o.all_proxy_passwd is None ==> (r matches Ok(s) && {
            &&& s.output@ == output@
            &&& s.headers.deep_view() == headers.deep_view()
            &&& s.proxy.deep_view() == proxy.deep_view()
            &&& s.speed_limit == limit
            &&& s.connections == connections
            &&& o.retry_wait > 0 ==> s.retry_wait == o.retry_wait
            &&& o.retry_wait == 0 ==> s.retry_wait == 1
        }),
{
}

/// A plain HTTP URL is taken apart into host, port and path: port 80 and the path `/`
/// where it names none. Any other URL is refused.
pub proof fn law_a_url_is_taken_apart(
    url: &str,
    r: Result<HttpTarget, String>,
    host: Seq<char>,
    port: u64,
    n: String,
    path: Seq<char>,
)
    requires
        call_ensures(kget::split_http_url, (url,), r),
        forall|i: int| 0 <= i < host.len() ==> host[i] != '/' && host[i] != ':',
        port <= 65535,
        call_ensures(digits::u64_text, (port,), n),
        path.len() > 0 ==> path[0] == '/',
    ensures
        url@ == "http://"@ + (host.push(':') + n@ + path) ==> (r matches Ok(t) && t.host@ == host
            && t.port == port && t.path@ == if path.len() == 0 {
            "/"@
        } else {
            path
        }),
        host.len() > 0 && url@ == "http://"@ + (host + path) ==> (r matches Ok(t) && t.host@ == host
            && t.port == 80 && t.path@ == if path.len() == 0 {
            "/"@
        } else {
            path
        }),
        !"http://"@.is_prefix_of(url@) ==> r is Err,
{
    reveal_strlit("http://");
    let rest = url@.skip(7);
    lemma_digits_are_plain(port);
    if url@ == "http://"@ + (host.push(':') + n@ + path) {
        assert(url@.take(7) =~= "http://"@);
        assert(rest =~= host.push(':') + n@ + path);
        let a = host.push(':') + n@;
        let k = a.len() as int;
        assert forall|i: int| 0 <= i < k implies rest[i] != '/' by {
            if i > host.len() {
                assert(rest[i] == n@[i - host.len() - 1]);
            }
        }
        if path.len() > 0 {
            assert(rest[k] == path[0]);
        }
        text::lemma_find_is(rest, '/', k);
        assert(rest.take(k) =~= a);
        assert(rest.skip(k) =~= path);
        words::lemma_last(host, ':', n@);
        assert(a.skip(host.len() + 1int) =~= n@);
        assert(a.take(host.len() as int) =~= host);
    }
    if host.len() > 0 && url@ == "http://"@ + (host + path) {
        assert(url@.take(7) =~= "http://"@);
        assert(rest =~= host + path);
        let k = host.len() as int;
        if path.len() > 0 {
            assert(rest[k] == path[0]);
        }
        text::lemma_find_is(rest, '/', k);
        assert(rest.take(k) =~= host);
        assert(rest.skip(k) =~= path);
        words::lemma_no_last(host, ':');
    }
}

/// A probe asks the host that the URL names for the head or the first byte of the path,
/// and names itself as the options say.
pub proof fn law_a_probe_asks_for_the_path(
    t: &HttpTarget,
    o: &EngineOptions,
    head: String,
    first: String,
    agent: String,
)
    requires
        call_ensures(kget::probe_request, (t, o, false), head),
        call_ensures(kget::probe_request, (t, o, true), first),
        o.user_agent matches Some(a) && a@ == agent@,
    ensures
        head@ == "HEAD "@ + t.path@ + " HTTP/1.1\r\nHost: "@ + t.host@ + "\r\nUser-Agent: "@
            + agent@ + "\r\nConnection: close\r\n\r\n"@,
        first@ == "GET "@ + t.path@ + " HTTP/1.1\r\nHost: "@ + t.host@ + "\r\nUser-Agent: "@
            + agent@ + "\r\nRange: bytes=0-0\r\nConnection: close\r\n\r\n"@,
{
}

/// The head of an answer ends with an empty line; without one it is read on until it is
/// longer than 64 KiB.
pub proof fn law_a_head_ends_with_an_empty_line(
    buf: &[u8],
    r: HeadState,
    a: Seq<u8>,
    b: Seq<u8>,
)
    requires
        call_ensures(kget::head_state, (buf,), r),
    ensures
        buf@ == a + seq![13u8, 10, 13, 10] + b ==> r == HeadState::Done,
        (forall|i: int| 0 <= i < buf@.len() ==> buf@[i] != 10) && buf@.len() > 65536 ==> r
            == HeadState::TooLong,
        (forall|i: int| 0 <= i < buf@.len() ==> buf@[i] != 10) && buf@.len() <= 65536 ==> r
            == HeadState::More,
{
    if buf@ == a + seq![13u8, 10, 13, 10] + b {
        let k = a.len() as int;
        assert(buf@[k] == 13 && buf@[k + 1] == 10 && buf@[k + 2] == 13 && buf@[k + 3] == 10);
        assert(kget::head_ends_at(buf@, k));
    }
    if (forall|i: int| 0 <= i < buf@.len() ==> buf@[i] != 10) && (exists|i: int|
        #[trigger] kget::head_ends_at(buf@, i)) {
        let i = choose|i: int| #[trigger] kget::head_ends_at(buf@, i);
        assert(buf@[i + 1] == 10);
    }
}

/// The first line of an answer, which gives the status `code`.
pub open spec fn status_line(version: Seq<char>, code: u64, reason: Seq<char>) -> Seq<char> {
    version + " "@ + digits::dec(code as nat) + " "@ + reason
}

/// What a status line with header lines and a rest behind it looks like.
pub open spec fn answer(line: Seq<char>, header: Seq<char>, rest: Seq<char>) -> Seq<char> {
    line + "\r\n"@ + (header + "\r\n"@ + rest)
}

/// Whether a text has no blanks.
pub open spec fn one_word(s: Seq<char>) -> bool {
    s.len() > 0 && forall|i: int| 0 <= i < s.len() ==> !text::spec_is_space(#[trigger] s[i])
}

/// Whether a text stays within a line.
pub open spec fn one_line(s: Seq<char>) -> bool {
    forall|i: int| 0 <= i < s.len() ==> s[i] != '\n' && s[i] != '\r'
}

proof fn lemma_lines_of(a: Seq<char>, rest: Seq<char>)
    requires
        one_line(a),
    ensures
        text::lines(a + "\r\n"@ + rest) == seq![a] + text::lines(rest),
{
    reveal_strlit("\r\n");
    let s = a + "\r\n"@ + rest;
    let n = a.len() as int;
    text::lemma_find_is(s, '\n', n + 1);
    assert(s.take(n + 1) =~= a.push('\r'));
    assert(a.push('\r').drop_last() =~= a);
    assert(s.skip(n + 2) =~= rest);
}

proof fn lemma_status(version: Seq<char>, code: u64, reason: Seq<char>, rest: Seq<char>)
    requires
        one_word(version) && one_line(version) && one_line(reason),
        code <= 65535,
    ensures
        one_line(status_line(version, code, reason)),
        kget::status_in(status_line(version, code, reason) + "\r\n"@ + rest) == code,
{
    let d = digits::dec(code as nat);
    let line = status_line(version, code, reason);
    lemma_digits_are_plain(code);
    reveal_strlit(" ");
    assert(" "@ =~= seq![' ']);
    assert forall|i: int| 0 <= i < line.len() implies line[i] != '\n' && line[i] != '\r' by {
        let v = version.len() as int;
        let w = d.len() as int;
        if i < v {
            assert(line[i] == version[i]);
        } else if i == v || i == v + 1 + w {
            assert(line[i] == ' ');
        } else if i < v + 1 + w {
            assert(line[i] == d[i - v - 1]);
        } else {
            assert(line[i] == reason[i - v - w - 2]);
        }
    }
    lemma_lines_of(line, rest);
    assert(line =~= version.push(' ') + (d.push(' ') + reason));
    words::lemma_tokens_join(version, ' ', d.push(' ') + reason, false);
    words::lemma_tokens_join(d, ' ', reason, false);
    words::lemma_one_token(version, false);
    words::lemma_one_token(d, false);
    let tokens = text::tokens(line, false);
    assert(tokens =~= seq![version, d] + text::tokens(reason, false));
    assert(tokens[1] == d);
}

/// The number in the status line of an answer is its status.
pub proof fn law_an_answer_gives_its_status(
    response: &str,
    version: Seq<char>,
    code: u64,
    reason: Seq<char>,
    rest: Seq<char>,
    r: u16,
)
    requires
        one_word(version) && one_line(version) && one_line(reason),
        code <= 65535,
        response@ == status_line(version, code, reason) + "\r\n"@ + rest,
        call_ensures(kget::status_code_in, (response,), r),
    ensures
        r == code,
{
    lemma_status(version, code, reason, rest);
}

proof fn lemma_lower(a: Seq<char>, b: Seq<char>)
    ensures
        text::ascii_lower(a + b) == text::ascii_lower(a) + text::ascii_lower(b),
{
    assert(text::ascii_lower(a + b) =~= text::ascii_lower(a) + text::ascii_lower(b));
}

proof fn lemma_header(name: Seq<char>, low: Seq<char>, value: Seq<char>)
    requires
        text::ascii_lower(name) == low,
    ensures
        kget::header_value(name + value, low) == Some(text::ascii_lower(value)),
{
    lemma_lower(name, value);
    let s = text::ascii_lower(name + value);
    assert(s.take(low.len() as int) =~= low);
    assert(s.skip(low.len() as int) =~= text::ascii_lower(value));
}

/// A header line that gives the length `n`.
pub open spec fn length_line(n: u64) -> Seq<char> {
    "Content-Length: "@ + digits::dec(n as nat)
}

/// A header line that gives a part of `n` bytes.
pub open spec fn range_line(n: u64) -> Seq<char> {
    "Content-Range: bytes 0-0/"@ + digits::dec(n as nat)
}

proof fn lemma_length_line(n: u64)
    ensures
        one_line(length_line(n)),
        kget::length_in_line(length_line(n)) == Some(n as nat),
        kget::total_in_line(length_line(n)) is None,
{
    reveal_strlit("Content-Length: ");
    reveal_strlit("Content-Length:");
    reveal_strlit("content-length:");
    reveal_strlit("content-range:");
    reveal_strlit(" ");
    lemma_digits_are_plain(n);
    let d = digits::dec(n as nat);
    assert(length_line(n) =~= "Content-Length:"@ + (" "@ + d));
    assert(text::ascii_lower("Content-Length:"@) =~= "content-length:"@);
    lemma_header("Content-Length:"@, "content-length:"@, " "@ + d);
    assert(text::ascii_lower(" "@ + d) =~= " "@ + d);
    assert(text::blank(" "@));
    text::lemma_trimmed(" "@, d, seq![]);
    assert(" "@ + d + seq![] =~= " "@ + d);
    let low = text::ascii_lower(length_line(n));
    assert(low[8] == 'l');
    assert(low.take(14)[8] == low[8]);
    assert("content-range:"@[8] == 'r');
}

proof fn lemma_range_line(n: u64)
    ensures
        one_line(range_line(n)),
        kget::total_in_line(range_line(n)) == Some(n as nat),
        kget::length_in_line(range_line(n)) is None,
{
    reveal_strlit("Content-Range: bytes 0-0/");
    reveal_strlit("Content-Range:");
    reveal_strlit("content-length:");
    reveal_strlit("content-range:");
    reveal_strlit(" bytes 0-0");
    lemma_digits_are_plain(n);
    let d = digits::dec(n as nat);
    let unit = " bytes 0-0"@;
    let value = unit.push('/') + (seq![] + d + seq![]);
    assert(range_line(n) =~= "Content-Range:"@ + value);
    assert(text::ascii_lower("Content-Range:"@) =~= "content-range:"@);
    lemma_header("Content-Range:"@, "content-range:"@, value);
    assert(text::ascii_lower(value) =~= value);
    lemma_total_behind_slash(unit, n, seq![], seq![]);
    let low = text::ascii_lower(range_line(n));
    assert(low[8] == 'r');
    assert(low.take(15)[8] == low[8]);
    assert("content-length:"@[8] == 'l');
}

proof fn lemma_status_line_gives_no_number(version: Seq<char>, code: u64, reason: Seq<char>)
    requires
        version.len() > 0,
        version[0] == 'H',
    ensures
        kget::length_in_line(status_line(version, code, reason)) is None,
        kget::total_in_line(status_line(version, code, reason)) is None,
{
    reveal_strlit("content-length:");
    reveal_strlit("content-range:");
    let low = text::ascii_lower(status_line(version, code, reason));
    assert(low[0] == 'h');
    assert(low.len() >= 15 ==> low.take(15)[0] == low[0]);
    assert(low.len() >= 14 ==> low.take(14)[0] == low[0]);
    assert("content-length:"@[0] == 'c' && "content-range:"@[0] == 'c');
}

/// What the first two lines of an answer say.
proof fn lemma_answer(
    version: Seq<char>,
    code: u64,
    reason: Seq<char>,
    header: Seq<char>,
    rest: Seq<char>,
    range: bool,
)
    requires
        one_word(version) && one_line(version) && one_line(reason) && one_line(header),
        version[0] == 'H',
        code <= 65535,
    ensures
        kget::status_in(answer(status_line(version, code, reason), header, rest)) == code,
        ({
            let here = if range {
                kget::total_in_line(header)
            } else {
                kget::length_in_line(header)
            };
            here is Some ==> kget::first_number(
                text::lines(answer(status_line(version, code, reason), header, rest)),
                range,
            ) == here
        }),
{
    let line = status_line(version, code, reason);
    let tail = header + "\r\n"@ + rest;
    lemma_status(version, code, reason, tail);
    lemma_lines_of(line, tail);
    lemma_lines_of(header, rest);
    lemma_status_line_gives_no_number(version, code, reason);
    let lines = text::lines(answer(line, header, rest));
    assert(lines[0] == line);
    assert(lines.skip(1) =~= seq![header] + text::lines(rest));
    assert(lines.skip(1)[0] == header);
    let here = if range {
        kget::total_in_line(header)
    } else {
        kget::length_in_line(header)
    };
    if here is Some {
        assert(kget::first_number(lines.skip(1), range) == here);
        assert(kget::first_number(lines, range) == kget::first_number(lines.skip(1), range));
    }
}

/// The head of a source settles its length where it is a success that gives one; where it
/// is none, the first byte is asked for, and the length of the head kept in mind.
pub proof fn law_the_head_gives_the_length(
    head: &str,
    version: Seq<char>,
    code: u64,
    reason: Seq<char>,
    n: u64,
    rest: Seq<char>,
    r: ProbeStep,
)
    requires
        one_word(version) && one_line(version) && one_line(reason),
        version[0] == 'H',
        code <= 65535,
        head@ == answer(status_line(version, code, reason), length_line(n), rest),
        call_ensures(kget::head_step, (head,), r),
    ensures
        code == 200 || code == 206 ==> r == ProbeStep::Known(n),
        code != 200 && code != 206 ==> r == ProbeStep::AskRange(Some(n)),
{
    lemma_length_line(n);
    lemma_answer(version, code, reason, length_line(n), rest, false);
}

/// The first byte of a source gives its length: the total of a partial answer, the length
/// of a full one; after any other answer it is not known.
pub proof fn law_the_first_byte_gives_the_length(
    first: &str,
    version: Seq<char>,
    code: u64,
    reason: Seq<char>,
    n: u64,
    partial: bool,
    rest: Seq<char>,
    known: Option<u64>,
    r: u64,
)
    requires
        one_word(version) && one_line(version) && one_line(reason),
        version[0] == 'H',
        code <= 65535,
        first@ == answer(
            status_line(version, code, reason),
            if partial {
                range_line(n)
            } else {
                length_line(n)
            },
            rest,
        ),
        call_ensures(kget::range_length, (first, known), r),
    ensures
        code == 206 && partial ==> r == n,
        code == 200 && !partial ==> r == n,
        code != 200 && code != 206 ==> r == 0,
{
    lemma_length_line(n);
    lemma_range_line(n);
    if partial {
        lemma_answer(version, code, reason, range_line(n), rest, true);
    } else {
        lemma_answer(version, code, reason, length_line(n), rest, false);
    }
}

/// Where the first byte gives no length, the length that the head gave stands.
pub proof fn law_the_length_of_the_head_stands(
    first: &str,
    version: Seq<char>,
    reason: Seq<char>,
    partial: bool,
    known: Option<u64>,
    r: u64,
)
    requires
        one_word(version) && one_line(version) && one_line(reason),
        version[0] == 'H',
        first@ == status_line(
            version,
            if partial {
                206
            } else {
                200
            },
            reason,
        ) + "\r\n"@,
        call_ensures(kget::range_length, (first, known), r),
    ensures
        known matches Some(n) ==> r == n,
        known is None ==> r == 0,
{
    let code: u64 = if partial {
        206
    } else {
        200
    };
    let line = status_line(version, code, reason);
    let none: Seq<char> = seq![];
    lemma_status(version, code, reason, none);
    lemma_lines_of(line, none);
    lemma_status_line_gives_no_number(version, code, reason);
    assert(line + "\r\n"@ + none =~= first@);
    let lines = text::lines(first@);
    assert(lines =~= seq![line]);
    assert(lines.skip(1) =~= seq![]);
    assert(kget::first_number(lines.skip(1), partial) is None);
    assert(kget::first_number(lines, partial) is None);
}

/// What the engine's errors say in words.
pub proof fn law_errors_in_words(e: &KgetError, r: String, i: &KgetInitError, s: String)
    requires
        call_ensures(kget::map_kget_error, (e,), r),
        call_ensures(KgetInitError::message, (i,), s),
    ensures
        *e matches KgetError::Network(msg) ==> r@ == "网络错误: "@ + msg@,
        *e matches KgetError::Io(msg) ==> r@ == "本地 IO 错误: "@ + msg@,
        *e matches KgetError::Protocol(msg) ==> r@ == "协议错误: "@ + msg@,
        *e matches KgetError::Cancelled ==> r@ == "下载已取消"@,
        *e matches KgetError::NotFound(url) ==> r@ == "资源不存在（HTTP 404）: "@ + url@,
        *e matches KgetError::SidecarError(msg) ==> r@ == "校验和文件错误: "@ + msg@,
        *e matches KgetError::Other(msg) ==> r@ == "下载失败: "@ + msg@,
        *i matches KgetInitError::Init(msg) ==> s@ == "KGet 引擎初始化失败: "@ + msg@,
        *i matches KgetInitError::Io(msg) ==> s@ == "本地文件系统错误: "@ + msg@,
{
}

/// A source that is not there is given up at once: its error is final.
pub proof fn law_a_missing_source_is_given_up(e: &KgetError, r: String, msg: &str, fatal: bool)
    requires
        *e is NotFound,
        call_ensures(kget::map_kget_error, (e,), r),
        msg@ == r@,
        call_ensures(kget::is_fatal_engine_error, (msg,), fatal),
    ensures
        fatal,
{
    reveal_strlit("资源不存在（HTTP 404）: ");
    reveal_strlit("404");
    let url = e->NotFound_0@;
    assert(msg@.subrange(11, 14) =~= "404"@);
    assert(text::ascii_lower(msg@.subrange(11, 11int + 3)) =~= "404"@);
    assert(says(msg@, "404"@));
    lemma_says(msg@, "404"@);
}

/// An answer without a line, or whose first line is one word, has no status.
pub proof fn law_no_status_is_zero(response: &str, r: u16)
    requires
        call_ensures(kget::status_code_in, (response,), r),
        response@.len() == 0 || (one_word(response@) && one_line(response@)),
    ensures
        r == 0,
{
    if response@.len() > 0 {
        text::lemma_find_is(response@, '\n', response@.len() as int);
        words::lemma_one_token(response@, false);
    }
}

} // verus!
