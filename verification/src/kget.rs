//! The general download engine: how it is set up from the options of a task, when
//! a failed attempt is made again, and how the length of a source is probed.

use vstd::prelude::*;

use crate::bt;
use crate::config;
use crate::digits;
use crate::options::{self, EngineOptions, OptionsView};
use crate::task::clone_opt_text;
use crate::text::{self, chars_of, join2, sub_chars, text_of};

verus! {

/// Why the engine gave up on a download.
#[derive(Debug, PartialEq, Eq)]
pub enum KgetError {
    Network(String),
    Io(String),
    ChecksumMismatch { algorithm: String, expected: String, got: String },
    Protocol(String),
    Cancelled,
    NotFound(String),
    Http { status: u16, url: String },
    SidecarError(String),
    Other(String),
}

impl KgetError {
    /// The error in words.
    pub open spec fn words(self) -> Seq<char> {
        match self {
            KgetError::Network(msg) => "网络错误: "@ + msg@,
            KgetError::Io(msg) => "本地 IO 错误: "@ + msg@,
            KgetError::ChecksumMismatch { algorithm, expected, got } => "校验和不匹配（"@
                + algorithm@ + "）: 期望 "@ + expected@ + "，实际 "@ + got@,
            KgetError::Protocol(msg) => "协议错误: "@ + msg@,
            KgetError::Cancelled => "下载已取消"@,
            KgetError::NotFound(url) => "资源不存在（HTTP 404）: "@ + url@,
            KgetError::Http { status, url } => "HTTP 错误 "@ + digits::dec(status as nat) + ": "@
                + url@,
            KgetError::SidecarError(msg) => "校验和文件错误: "@ + msg@,
            KgetError::Other(msg) => "下载失败: "@ + msg@,
        }
    }
}

/// The error in words.
pub fn map_kget_error(e: &KgetError) -> (r: String)
    ensures
        r@ == e.words(),
{
    match e {
        KgetError::Network(msg) => join2("网络错误: ", msg.as_str()),
        KgetError::Io(msg) => join2("本地 IO 错误: ", msg.as_str()),
        KgetError::ChecksumMismatch { algorithm, expected, got } => {
            let mut out = join2("校验和不匹配（", algorithm.as_str());
            out.append("）: 期望 ");
            out.append(expected.as_str());
            out.append("，实际 ");
            out.append(got.as_str());
            out
        },
        KgetError::Protocol(msg) => join2("协议错误: ", msg.as_str()),
        KgetError::Cancelled => "下载已取消".to_owned(),
        KgetError::NotFound(url) => join2("资源不存在（HTTP 404）: ", url.as_str()),
        KgetError::Http { status, url } => {
            let mut out = "HTTP 错误 ".to_owned();
            digits::push_dec(&mut out, *status as u64);
            out.append(": ");
            out.append(url.as_str());
            out
        },
        KgetError::SidecarError(msg) => join2("校验和文件错误: ", msg.as_str()),
        KgetError::Other(msg) => join2("下载失败: ", msg.as_str()),
    }
}

/// Why a download could not even be started.
#[derive(Debug, PartialEq, Eq)]
pub enum KgetInitError {
    /// The engine refused its settings.
    Init(String),
    /// The file system refused.
    Io(String),
}

impl KgetInitError {
    /// The error in words.
    pub fn message(&self) -> (r: String)
        ensures
            r@ == (match *self {
                KgetInitError::Init(msg) => "KGet 引擎初始化失败: "@ + msg@,
                KgetInitError::Io(msg) => "本地文件系统错误: "@ + msg@,
            }),
    {
        match self {
            KgetInitError::Init(msg) => join2("KGet 引擎初始化失败: ", msg.as_str()),
            KgetInitError::Io(msg) => join2("本地文件系统错误: ", msg.as_str()),
        }
    }
}

/// Where the file `name` in the directory `dir` lies; without a directory, the
/// name itself.
pub open spec fn file_in(dir: Seq<char>, name: Seq<char>) -> Seq<char> {
    if dir.len() == 0 {
        name
    } else if dir.last() == '/' || dir.last() == '\\' {
        dir + name
    } else {
        dir + "/"@ + name
    }
}

/// Where the file `name` in the directory `dir` lies.
pub fn join_path(dir: &str, filename: &str) -> (r: String)
    ensures
        r@ == file_in(dir@, filename@),
{
    let chars = chars_of(dir);
    if chars.len() == 0 {
        return filename.to_owned();
    }
    let last = chars[chars.len() - 1];
    if last == '/' || last == '\\' {
        join2(dir, filename)
    } else {
        text::join3(dir, "/", filename)
    }
}

/// What `kget::get_filename_from_url_or_default` takes for the name of the file
/// that a URL leads to.
pub uninterp spec fn kget_file_name(url: Seq<char>, default: Seq<char>) -> Seq<char>;

/// `kget::get_filename_from_url_or_default`: the last segment of the path of the
/// URL, decoded and made safe as a file name, or the default where there is none.
/// Only that it depends on the two texts alone is claimed.
#[verifier::external_body]
fn file_name_by_kget(url: &str, default: &str) -> (r: String)
    ensures
        r@ == kget_file_name(url@, default@),
{
    kget::get_filename_from_url_or_default(url, default)
}

/// The path that a download goes to: the name from the options, or else the given
/// one, in the directory from the options.
pub open spec fn output_with(o: OptionsView, name: Seq<char>) -> Seq<char> {
    match o.out {
        Some(out) => file_in(o.dir, out),
        None => file_in(o.dir, name),
    }
}

/// The path that a download goes to where the options name no file.
pub fn output_named(options: &EngineOptions, name: &str) -> (r: String)
    ensures
        r@ == output_with(options.deep_view(), name@),
{
    match &options.out {
        Some(out) => join_path(options.dir.as_str(), out.as_str()),
        None => join_path(options.dir.as_str(), name),
    }
}

/// The path that a download by this engine goes to.
pub fn output_path(options: &EngineOptions, url: &str) -> (r: String)
    ensures
        r@ == output_with(options.deep_view(), kget_file_name(url@, "download"@)),
{
    let name = file_name_by_kget(url, "download");
    output_named(options, name.as_str())
}

/// How the engine talks to a proxy.
#[derive(Debug, Clone, Copy, PartialEq, Eq, Structural)]
pub enum ProxyKind {
    Http,
    Https,
    Socks5,
}

/// The proxy of a download.
#[derive(Debug, PartialEq, Eq)]
pub struct ProxySettings {
    pub enabled: bool,
    pub url: Option<String>,
    pub username: Option<String>,
    pub password: Option<String>,
    pub proxy_type: ProxyKind,
}

/// How a proxy is talked to, by the scheme of its URL.
pub open spec fn proxy_kind(url: Seq<char>) -> ProxyKind {
    if text::starts(url, "socks5://"@) || text::starts(url, "socks5h://"@) {
        ProxyKind::Socks5
    } else if text::starts(url, "https://"@) {
        ProxyKind::Https
    } else {
        ProxyKind::Http
    }
}

/// The proxy that the options name, unless it is blank.
pub open spec fn named_proxy(all_proxy: Option<Seq<char>>) -> Option<Seq<char>> {
    match all_proxy {
        Some(url) => if text::trimmed(url).len() > 0 {
            Some(url)
        } else {
            None
        },
        None => None,
    }
}

/// The proxy that the options name, unless it is blank.
pub fn custom_proxy(all_proxy: &Option<String>) -> (r: Option<String>)
    ensures
        r.deep_view() == named_proxy(all_proxy.deep_view()),
{
    match all_proxy {
        Some(url) => {
            let bare = text::trim(url.as_str());
            if bare.as_str().is_empty() {
                None
            } else {
                Some(url.clone())
            }
        },
        None => None,
    }
}

/// The proxy of a download: disabled where the options name none.
pub fn make_proxy(options: &EngineOptions) -> (r: ProxySettings)
    ensures
        match named_proxy(options.deep_view().all_proxy) {
            Some(url) => {
                &&& r.enabled
                &&& r.url.deep_view() == Some(url)
                &&& r.username.deep_view() == options.deep_view().all_proxy_user
                &&& r.password.deep_view() == options.deep_view().all_proxy_passwd
                &&& r.proxy_type == proxy_kind(url)
            },
            None => {
                &&& !r.enabled
                &&& r.url is None
                &&& r.username is None
                &&& r.password is None
                &&& r.proxy_type == ProxyKind::Http
            },
        },
{
    match custom_proxy(&options.all_proxy) {
        Some(url) => {
            let kind = if text::starts_with(url.as_str(), "socks5://") || text::starts_with(
                url.as_str(),
                "socks5h://",
            ) {
                ProxyKind::Socks5
            } else if text::starts_with(url.as_str(), "https://") {
                ProxyKind::Https
            } else {
                ProxyKind::Http
            };
            ProxySettings {
                enabled: true,
                url: Some(url),
                username: clone_opt_text(&options.all_proxy_user),
                password: clone_opt_text(&options.all_proxy_passwd),
                proxy_type: kind,
            }
        },
        None => ProxySettings {
            enabled: false,
            url: None,
            username: None,
            password: None,
            proxy_type: ProxyKind::Http,
        },
    }
}

/// How many connections are made for a setting: at least one, at most 32.
pub open spec fn clamped(connections: u32) -> int {
    if connections < 1 {
        1
    } else if connections > 32 {
        32
    } else {
        connections as int
    }
}

/// How many connections are made for a setting.
pub fn connection_count(connections: u32) -> (r: usize)
    ensures
        r == clamped(connections),
{
    if connections < 1 {
        1
    } else if connections > 32 {
        32
    } else {
        connections as usize
    }
}

/// What the engine's optimizer is told.
#[derive(Debug, PartialEq, Eq)]
pub struct OptimizerSettings {
    pub speed_limit: Option<u64>,
    pub max_connections: usize,
}

/// What the engine's optimizer is told.
pub fn make_optimizer(options: &EngineOptions) -> (r: OptimizerSettings)
    ensures
        r.speed_limit == options::spec_speed_limit(
            options.max_download_limit,
            options.max_overall_download_limit,
        ),
        r.max_connections == clamped(options.connections),
{
    OptimizerSettings {
        speed_limit: options.effective_speed_limit(),
        max_connections: connection_count(options.connections),
    }
}

/// The request headers that the options ask for: the extra ones, then the user
/// agent.
pub open spec fn headers_of(o: OptionsView) -> Seq<(Seq<char>, Seq<char>)> {
    match o.user_agent {
        Some(agent) => o.headers.push(("User-Agent"@, agent)),
        None => o.headers,
    }
}

/// The request headers that the options ask for.
pub fn request_headers(options: &EngineOptions) -> (r: Vec<(String, String)>)
    ensures
        r.deep_view() == headers_of(options.deep_view()),
{
    let mut out = crate::task::clone_pairs(&options.headers);
    if let Some(agent) = &options.user_agent {
        let ghost before = out.deep_view();
        out.push(("User-Agent".to_owned(), agent.clone()));
        proof {
            assert(out.deep_view() =~= before.push(("User-Agent"@, agent@)));
        }
    }
    out
}

/// Whether trying again is no use after an error of this engine: the resource is
/// missing, its content is wrong, or the server cannot serve parts of it.
pub open spec fn hopeless(msg: Seq<char>) -> bool {
    let lower = text::ascii_lower(msg);
    ||| text::find_text(lower, "404"@) >= 0
    ||| text::find_text(lower, "not found"@) >= 0
    ||| text::find_text(lower, "checksum"@) >= 0
    ||| text::find_text(lower, "does not support range"@) >= 0
}

/// Whether `part` occurs in `s`.
pub fn mentions(s: &str, part: &str) -> (r: bool)
    ensures
        r == (text::find_text(s@, part@) >= 0),
{
    text::place_of_text(&chars_of(s), &chars_of(part)).is_some()
}

/// Whether trying again is no use after an error of this engine.
pub fn is_fatal_engine_error(msg: &str) -> (r: bool)
    ensures
        r == hopeless(msg@),
{
    let lower = text::to_ascii_lower(msg);
    mentions(lower.as_str(), "404") || mentions(lower.as_str(), "not found") || mentions(
        lower.as_str(),
        "checksum",
    ) || mentions(lower.as_str(), "does not support range")
}

/// What follows a failed attempt.
#[derive(Debug, Clone, Copy, PartialEq, Eq, Structural)]
pub enum NextTry {
    /// The download was called off: stop without a word.
    Stop,
    /// Report the failure.
    GiveUp,
    /// Try again after this many seconds.
    Again(u64),
}

/// The attempts at a download.
#[derive(Debug, PartialEq, Eq)]
pub struct Attempts {
    /// Attempts that failed.
    pub made: u32,
    /// Attempts to make at most.
    pub max_tries: u32,
    /// Seconds between two attempts.
    pub retry_wait: u64,
}

impl Attempts {
    /// There is an attempt left.
    pub open spec fn wf(self) -> bool {
        self.made < self.max_tries
    }

    /// The attempts that the options allow, none of them made.
    pub fn new(options: &EngineOptions) -> (r: Attempts)
        ensures
            r.wf(),
            r.made == 0,
            r.max_tries == (if options.max_tries == 0 {
                100
            } else {
                options.max_tries
            }),
            r.retry_wait == options.retry_wait,
    {
        Attempts {
            made: 0,
            max_tries: options.normalized_max_tries(),
            retry_wait: options.retry_wait,
        }
    }

    /// What follows an attempt that failed, with a fatal error or not, while the
    /// download was called off or not. A further attempt is made only while one is
    /// left.
    pub fn failed(&mut self, fatal: bool, cancelled: bool) -> (r: NextTry)
        requires
            old(self).wf(),
        ensures
            final(self).made == old(self).made + 1,
            final(self).max_tries == old(self).max_tries,
            final(self).retry_wait == old(self).retry_wait,
            r == (if cancelled {
                NextTry::Stop
            } else if fatal || old(self).made + 1 >= old(self).max_tries {
                NextTry::GiveUp
            } else {
                NextTry::Again(old(self).retry_wait)
            }),
            r is Again ==> final(self).wf(),
    {
        self.made = self.made + 1;
        if cancelled {
            NextTry::Stop
        } else if fatal || self.made >= self.max_tries {
            NextTry::GiveUp
        } else {
            NextTry::Again(self.retry_wait)
        }
    }
}

/// The server that a plain HTTP URL names, and the path on it.
#[derive(Debug, PartialEq, Eq)]
pub struct HttpTarget {
    pub host: String,
    pub port: u16,
    pub path: String,
}

/// What an `HttpTarget` stands for.
pub struct TargetView {
    pub host: Seq<char>,
    pub port: nat,
    pub path: Seq<char>,
}

impl DeepView for HttpTarget {
    type V = TargetView;

    open spec fn deep_view(&self) -> TargetView {
        TargetView { host: self.host@, port: self.port as nat, path: self.path@ }
    }
}

/// Host and port of an authority; port 80 where it names none.
pub open spec fn host_and_port(authority: Seq<char>) -> (Seq<char>, nat) {
    let colon = text::rfind(authority, ':');
    match digits::unsigned(authority.skip(colon + 1), 65535) {
        Some(port) => if colon >= 0 {
            (authority.take(colon), port)
        } else {
            (authority, 80)
        },
        None => (authority, 80),
    }
}

/// What a plain HTTP URL names; `None` for any other URL.
pub open spec fn target_of(url: Seq<char>) -> Option<TargetView> {
    if text::starts(url, "http://"@) {
        let rest = url.skip(7);
        let slash = text::find(rest, '/');
        let (host, port) = host_and_port(rest.take(slash));
        Some(
            TargetView {
                host,
                port,
                path: if slash < rest.len() {
                    rest.skip(slash)
                } else {
                    "/"@
                },
            },
        )
    } else {
        None
    }
}

/// Host and port of an authority.
fn split_authority(authority: &Vec<char>) -> (r: (String, u16))
    ensures
        r.0@ == host_and_port(authority@).0,
        r.1 == host_and_port(authority@).1,
{
    let behind: usize = text::behind_last(authority, ':');
    let end: usize = authority.len();
    let tail = text_of(&sub_chars(authority, behind, end));
    proof {
        assert(authority@.subrange(behind as int, end as int) =~= authority@.skip(behind as int));
    }
    if behind > 0 {
        if let Some(port) = digits::parse_unsigned(tail.as_str(), 65535) {
            proof {
                assert(authority@.subrange(0, behind - 1) =~= authority@.take(behind - 1));
            }
            return (text_of(&sub_chars(authority, 0, behind - 1)), port as u16);
        }
    }
    (text_of(authority), 80)
}

/// What a plain HTTP URL names; an error for any other URL, whose length is not
/// probed.
pub fn split_http_url(url: &str) -> (r: Result<HttpTarget, String>)
    ensures
        match (r, target_of(url@)) {
            (Ok(t), Some(want)) => t.deep_view() == want,
            (Err(e), None) => e@ == "probe_content_length 仅支持 http://（"@ + url@
                + " 为 https，返回 0）"@,
            _ => false,
        },
{
    if !text::starts_with(url, "http://") {
        return Err(text::join3("probe_content_length 仅支持 http://（", url, " 为 https，返回 0）"));
    }
    let chars = chars_of(url);
    let end: usize = chars.len();
    proof {
        reveal_strlit("http://");
        assert("http://"@.len() == 7);
    }
    let slash: usize = text::find_from(&chars, '/', 7);
    let authority = sub_chars(&chars, 7, slash);
    proof {
        let rest = url@.skip(7);
        assert(authority@ =~= rest.take(slash - 7));
        assert(rest.skip(slash - 7) =~= url@.subrange(slash as int, end as int));
    }
    let (host, port) = split_authority(&authority);
    let path = if slash < end {
        text_of(&sub_chars(&chars, slash, end))
    } else {
        "/".to_owned()
    };
    Ok(HttpTarget { host, port, path })
}

/// A request for the head of a resource, or for its first byte.
pub open spec fn request_text(t: TargetView, agent: Seq<char>, first_byte: bool) -> Seq<char> {
    if first_byte {
        "GET "@ + t.path + " HTTP/1.1\r\nHost: "@ + t.host + "\r\nUser-Agent: "@ + agent
            + "\r\nRange: bytes=0-0\r\nConnection: close\r\n\r\n"@
    } else {
        "HEAD "@ + t.path + " HTTP/1.1\r\nHost: "@ + t.host + "\r\nUser-Agent: "@ + agent
            + "\r\nConnection: close\r\n\r\n"@
    }
}

/// A request for the head of a resource, or for its first byte.
fn request_to(t: &HttpTarget, agent: &str, first_byte: bool) -> (r: String)
    ensures
        r@ == request_text(t.deep_view(), agent@, first_byte),
{
    let mut out = if first_byte {
        "GET ".to_owned()
    } else {
        "HEAD ".to_owned()
    };
    out.append(t.path.as_str());
    out.append(" HTTP/1.1\r\nHost: ");
    out.append(t.host.as_str());
    out.append("\r\nUser-Agent: ");
    out.append(agent);
    if first_byte {
        out.append("\r\nRange: bytes=0-0\r\nConnection: close\r\n\r\n");
    } else {
        out.append("\r\nConnection: close\r\n\r\n");
    }
    out
}

/// The user agent that a probe names itself as.
pub open spec fn agent_of(o: OptionsView) -> Seq<char> {
    match o.user_agent {
        Some(agent) => agent,
        None => config::CHROME_UA@,
    }
}

/// The request by which the length of a resource is probed: first for its head,
/// then for its first byte.
pub fn probe_request(t: &HttpTarget, options: &EngineOptions, first_byte: bool) -> (r: String)
    ensures
        r@ == request_text(t.deep_view(), agent_of(options.deep_view()), first_byte),
{
    match &options.user_agent {
        Some(agent) => request_to(t, agent.as_str(), first_byte),
        None => request_to(t, config::CHROME_UA, first_byte),
    }
}

/// How far the head of a response has been read.
#[derive(Debug, Clone, Copy, PartialEq, Eq, Structural)]
pub enum HeadState {
    /// There is more to read.
    More,
    /// The empty line that ends the head is there.
    Done,
    /// The head is too long.
    TooLong,
}

/// Whether the empty line that ends the head of a response stands at `i`.
pub open spec fn head_ends_at(buf: Seq<u8>, i: int) -> bool {
    0 <= i && i + 4 <= buf.len() && buf[i] == 13 && buf[i + 1] == 10 && buf[i + 2] == 13 && buf[i
        + 3] == 10
}

/// How far the head of a response has been read, after some bytes have come.
pub fn head_state(buf: &[u8]) -> (r: HeadState)
    ensures
        r == (if exists|i: int| #[trigger] head_ends_at(buf@, i) {
            HeadState::Done
        } else if buf@.len() > 64 * 1024 {
            HeadState::TooLong
        } else {
            HeadState::More
        }),
{
    let n: usize = buf.len();
    let mut i: usize = 0;
    while i < n && n - i >= 4
        invariant
            i <= n,
            n == buf@.len(),
            forall|j: int| 0 <= j < i ==> !#[trigger] head_ends_at(buf@, j),
        decreases n - i,
    {
        if buf[i] == 13 && buf[i + 1] == 10 && buf[i + 2] == 13 && buf[i + 3] == 10 {
            proof {
                assert(head_ends_at(buf@, i as int));
            }
            return HeadState::Done;
        }
        i += 1;
    }
    if n > 64 * 1024 {
        HeadState::TooLong
    } else {
        HeadState::More
    }
}

/// The status code of a response; zero where there is none.
pub open spec fn status_in(response: Seq<char>) -> nat {
    let lines = text::lines(response);
    let words = if lines.len() > 0 {
        text::tokens(lines[0], false)
    } else {
        seq![]
    };
    if words.len() >= 2 {
        match digits::unsigned(words[1], 65535) {
            Some(code) => code,
            None => 0,
        }
    } else {
        0
    }
}

/// The value of a header, in lower case, where the line is that header.
pub open spec fn header_value(line: Seq<char>, name: Seq<char>) -> Option<Seq<char>> {
    if text::starts(text::ascii_lower(line), name) {
        Some(text::ascii_lower(line).skip(name.len() as int))
    } else {
        None
    }
}

/// The length that a line of a response gives.
pub open spec fn length_in_line(line: Seq<char>) -> Option<nat> {
    match header_value(line, "content-length:"@) {
        Some(value) => digits::unsigned(text::trimmed(value), u64::MAX as nat),
        None => None,
    }
}

/// The number behind the first slash of a range, as in `bytes 0-0/12345`.
pub open spec fn total_in_range(value: Seq<char>) -> Option<nat> {
    let parts = text::split(value, '/');
    if parts.len() >= 2 {
        digits::unsigned(text::trimmed(parts[1]), u64::MAX as nat)
    } else {
        None
    }
}

/// The total length that a line of a response gives.
pub open spec fn total_in_line(line: Seq<char>) -> Option<nat> {
    match header_value(line, "content-range:"@) {
        Some(value) => total_in_range(value),
        None => None,
    }
}

/// The first length that the lines give, or, with `range`, the first total
/// length.
pub open spec fn first_number(lines: Seq<Seq<char>>, range: bool) -> Option<nat>
    decreases lines.len(),
{
    if lines.len() == 0 {
        None
    } else {
        let here = if range {
            total_in_line(lines[0])
        } else {
            length_in_line(lines[0])
        };
        match here {
            Some(n) => Some(n),
            None => first_number(lines.skip(1), range),
        }
    }
}

/// The value of a header, in lower case, where the line is that header.
fn header_in(line: &str, name: &str) -> (r: Option<String>)
    ensures
        r.deep_view() == header_value(line@, name@),
{
    let lower = text::to_ascii_lower(line);
    if text::starts_with(lower.as_str(), name) {
        let chars = chars_of(lower.as_str());
        let prefix = chars_of(name);
        let from: usize = prefix.len();
        let end: usize = chars.len();
        proof {
            assert(chars@.subrange(from as int, end as int) =~= chars@.skip(from as int));
        }
        Some(text_of(&sub_chars(&chars, from, end)))
    } else {
        None
    }
}

/// `a` and `b` hold the same number, or none.
pub open spec fn same_number(a: Option<u64>, b: Option<nat>) -> bool {
    match (a, b) {
        (Some(x), Some(y)) => x == y,
        (None, None) => true,
        _ => false,
    }
}

/// The number behind the first slash of a range.
pub fn range_total(value: &str) -> (r: Option<u64>)
    ensures
        same_number(r, total_in_range(value@)),
{
    let parts = text::split_on(value, '/');
    proof {
        assert(parts.deep_view().len() == parts@.len());
    }
    if parts.len() < 2 {
        return None;
    }
    let bare = text::trim(parts[1].as_str());
    proof {
        assert(parts.deep_view()[1] == parts@[1]@);
    }
    digits::parse_unsigned(bare.as_str(), u64::MAX)
}

/// The first length that a response gives, or, with `range`, the first total
/// length.
fn number_in(response: &str, range: bool) -> (r: Option<u64>)
    ensures
        same_number(r, first_number(text::lines(response@), range)),
{
    let lines = text::lines_of(response);
    let ghost view = lines.deep_view();
    let mut i: usize = 0;
    proof {
        assert(view.skip(0) =~= view);
    }
    while i < lines.len()
        invariant
            i <= lines@.len(),
            view == lines.deep_view(),
            view == text::lines(response@),
            first_number(view.skip(i as int), range) == first_number(view, range),
        decreases lines@.len() - i,
    {
        let line = lines[i].as_str();
        proof {
            assert(view.skip(i as int)[0] == line@);
            assert(view.skip(i as int).skip(1) =~= view.skip(i + 1));
        }
        let here = if range {
            match header_in(line, "content-range:") {
                Some(value) => range_total(value.as_str()),
                None => None,
            }
        } else {
            match header_in(line, "content-length:") {
                Some(value) => {
                    let bare = text::trim(value.as_str());
                    digits::parse_unsigned(bare.as_str(), u64::MAX)
                },
                None => None,
            }
        };
        if here.is_some() {
            return here;
        }
        i += 1;
    }
    None
}

/// The status code of a response.
pub fn status_code_in(response: &str) -> (r: u16)
    ensures
        r == status_in(response@),
{
    let lines = text::lines_of(response);
    proof {
        assert(lines.deep_view().len() == lines@.len());
    }
    if lines.len() == 0 {
        return 0;
    }
    let words = text::split_tokens(lines[0].as_str(), false);
    proof {
        assert(lines.deep_view()[0] == lines@[0]@);
        assert(words.deep_view().len() == words@.len());
    }
    if words.len() < 2 {
        return 0;
    }
    proof {
        assert(words.deep_view()[1] == words@[1]@);
    }
    match digits::parse_unsigned(words[1].as_str(), 65535) {
        Some(code) => code as u16,
        None => 0,
    }
}

/// The status code of a response; zero where there is none.
pub fn parse_status_code(response: &[u8]) -> (r: u16)
    ensures
        r == status_in(bt::bytes_text(response@)),
{
    status_code_in(bt::text_from_bytes(response).as_str())
}

/// The length that a response gives.
pub fn parse_content_length(response: &[u8]) -> (r: Option<u64>)
    ensures
        same_number(r, first_number(text::lines(bt::bytes_text(response@)), false)),
{
    number_in(bt::text_from_bytes(response).as_str(), false)
}

/// The total length that a response to a request for a range gives.
pub fn parse_content_range_total(response: &[u8]) -> (r: Option<u64>)
    ensures
        same_number(r, first_number(text::lines(bt::bytes_text(response@)), true)),
{
    number_in(bt::text_from_bytes(response).as_str(), true)
}

/// What the probe does after the answer to the request for the head.
#[derive(Debug, PartialEq, Eq)]
pub enum ProbeStep {
    /// The length is known.
    Known(u64),
    /// Ask for the first byte on a new connection; the head gave this length.
    AskRange(Option<u64>),
}

/// Whether the head of a resource settles its length.
pub open spec fn head_settles(head: Seq<char>) -> bool {
    &&& status_in(head) == 200 || status_in(head) == 206
    &&& first_number(text::lines(head), false) is Some
}

/// The length of a resource after the answer to the request for its first byte:
/// the total length of a partial answer or the length of a full one, the length
/// that the head gave where there is none; zero, for unknown, after any other
/// answer.
pub open spec fn probed(first: Seq<char>, known: Option<u64>) -> nat {
    let found = if status_in(first) == 206 {
        first_number(text::lines(first), true)
    } else {
        first_number(text::lines(first), false)
    };
    if status_in(first) != 206 && status_in(first) != 200 {
        0
    } else if found is Some {
        found->0
    } else if known is Some {
        known->0 as nat
    } else {
        0
    }
}

/// Whether `r` is what the probe does after the answer `head` to the request for
/// the head.
pub open spec fn follows_head(r: ProbeStep, head: Seq<char>) -> bool {
    let given = first_number(text::lines(head), false);
    match r {
        ProbeStep::Known(n) => head_settles(head) && same_number(Some(n), given),
        ProbeStep::AskRange(n) => !head_settles(head) && same_number(n, given),
    }
}

/// What the probe does after the answer to the request for the head.
pub fn head_step(head: &str) -> (r: ProbeStep)
    ensures
        follows_head(r, head@),
{
    let status: u16 = status_code_in(head);
    let length = number_in(head, false);
    match length {
        Some(n) => if status == 200 || status == 206 {
            ProbeStep::Known(n)
        } else {
            ProbeStep::AskRange(length)
        },
        None => ProbeStep::AskRange(None),
    }
}

/// The length of a resource after the answer to the request for its first byte,
/// where the head gave the length `known`.
pub fn range_length(first: &str, known: Option<u64>) -> (r: u64)
    ensures
        r == probed(first@, known),
{
    let status: u16 = status_code_in(first);
    if status != 206 && status != 200 {
        return 0;
    }
    let found = number_in(first, status == 206);
    match found {
        Some(n) => n,
        None => match known {
            Some(n) => n,
            None => 0,
        },
    }
}

/// What the probe does after the bytes of the answer to the request for the head.
pub fn after_head(response: &[u8]) -> (r: ProbeStep)
    ensures
        follows_head(r, bt::bytes_text(response@)),
{
    head_step(bt::text_from_bytes(response).as_str())
}

/// The length of a resource after the bytes of the answer to the request for its
/// first byte.
pub fn after_range(response: &[u8], known: Option<u64>) -> (r: u64)
    ensures
        r == probed(bt::bytes_text(response@), known),
{
    range_length(bt::text_from_bytes(response).as_str(), known)
}

} // verus!
