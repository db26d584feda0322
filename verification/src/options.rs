//! Options of the download engine, read from the system settings and from the
//! options of a single task.

use vstd::prelude::*;

use crate::assoc;
use crate::config::SystemConfig;
use crate::digits;
use crate::double;
use crate::json::{self, Json, JsonView, Number};
use crate::size::{self, parse_size};
use crate::task::{clone_opt_text, clone_pairs, clone_texts};
use crate::text::{self, chars_of, same, sub_chars, text_of, trim_chars};

verus! {

/// Options of the download engine.
#[derive(Debug, PartialEq, Eq)]
pub struct EngineOptions {
    /// Parallel connections.
    pub connections: u32,
    /// Speed limit of a task, in bytes per second; `None` for no limit.
    pub max_download_limit: Option<u64>,
    /// Speed limit of all tasks, in bytes per second; `None` for no limit.
    pub max_overall_download_limit: Option<u64>,
    /// Proxy for every connection.
    pub all_proxy: Option<String>,
    /// Hosts that are reached without the proxy.
    pub no_proxy: Option<String>,
    /// User name for the proxy.
    pub all_proxy_user: Option<String>,
    /// Password for the proxy.
    pub all_proxy_passwd: Option<String>,
    /// User agent.
    pub user_agent: Option<String>,
    /// Extra request headers.
    pub headers: Vec<(String, String)>,
    /// Attempts, the first one included; `0` for no bound.
    pub max_tries: u32,
    /// Seconds between attempts.
    pub retry_wait: u64,
    /// Directory that the files go to.
    pub dir: String,
    /// Name of the file; `None` to take it from the source.
    pub out: Option<String>,
    /// Additional trackers.
    pub bt_trackers: Vec<String>,
    /// Port for peers.
    pub bt_listen_port: Option<u16>,
    /// Share ratio at which seeding ends, as an encoded double.
    pub seed_ratio: Option<u64>,
    /// Seconds after which seeding ends.
    pub seed_time: Option<u32>,
    /// Whether to seed after the download.
    pub keep_seeding: bool,
    /// Files to download, by their place in the torrent.
    pub only_files: Option<Vec<usize>>,
}

/// What `EngineOptions` stand for.
pub struct OptionsView {
    pub connections: u32,
    pub max_download_limit: Option<u64>,
    pub max_overall_download_limit: Option<u64>,
    pub all_proxy: Option<Seq<char>>,
    pub no_proxy: Option<Seq<char>>,
    pub all_proxy_user: Option<Seq<char>>,
    pub all_proxy_passwd: Option<Seq<char>>,
    pub user_agent: Option<Seq<char>>,
    pub headers: Seq<(Seq<char>, Seq<char>)>,
    pub max_tries: u32,
    pub retry_wait: u64,
    pub dir: Seq<char>,
    pub out: Option<Seq<char>>,
    pub bt_trackers: Seq<Seq<char>>,
    pub bt_listen_port: Option<u16>,
    pub seed_ratio: Option<u64>,
    pub seed_time: Option<u32>,
    pub keep_seeding: bool,
    pub only_files: Option<Seq<usize>>,
}

impl DeepView for EngineOptions {
    type V = OptionsView;

    open spec fn deep_view(&self) -> OptionsView {
        OptionsView {
            connections: self.connections,
            max_download_limit: self.max_download_limit,
            max_overall_download_limit: self.max_overall_download_limit,
            all_proxy: self.all_proxy.deep_view(),
            no_proxy: self.no_proxy.deep_view(),
            all_proxy_user: self.all_proxy_user.deep_view(),
            all_proxy_passwd: self.all_proxy_passwd.deep_view(),
            user_agent: self.user_agent.deep_view(),
            headers: self.headers.deep_view(),
            max_tries: self.max_tries,
            retry_wait: self.retry_wait,
            dir: self.dir@,
            out: self.out.deep_view(),
            bt_trackers: self.bt_trackers.deep_view(),
            bt_listen_port: self.bt_listen_port,
            seed_ratio: self.seed_ratio,
            seed_time: self.seed_time,
            keep_seeding: self.keep_seeding,
            only_files: places_view(self.only_files),
        }
    }
}

/// What a selection of files stands for.
pub open spec fn places_view(files: Option<Vec<usize>>) -> Option<Seq<usize>> {
    match files {
        Some(files) => Some(files@),
        None => None,
    }
}

/// A copy of a selection of files.
pub fn clone_places(places: &Option<Vec<usize>>) -> (r: Option<Vec<usize>>)
    ensures
        places_view(r) == places_view(*places),
{
    match places {
        Some(files) => {
            let mut out: Vec<usize> = Vec::new();
            let mut i: usize = 0;
            while i < files.len()
                invariant
                    i <= files@.len(),
                    out@ == files@.take(i as int),
                decreases files@.len() - i,
            {
                out.push(files[i]);
                i += 1;
                proof {
                    assert(files@.take(i as int) =~= files@.take(i - 1).push(files@[i - 1]));
                }
            }
            proof {
                assert(files@.take(i as int) =~= files@);
            }
            Some(out)
        },
        None => None,
    }
}

impl View for EngineOptions {
    type V = OptionsView;

    open spec fn view(&self) -> OptionsView {
        self.deep_view()
    }
}

impl Clone for EngineOptions {
    fn clone(&self) -> (r: Self)
        ensures
            r@ == self@,
    {
        let only_files = clone_places(&self.only_files);
        EngineOptions {
            connections: self.connections,
            max_download_limit: self.max_download_limit,
            max_overall_download_limit: self.max_overall_download_limit,
            all_proxy: clone_opt_text(&self.all_proxy),
            no_proxy: clone_opt_text(&self.no_proxy),
            all_proxy_user: clone_opt_text(&self.all_proxy_user),
            all_proxy_passwd: clone_opt_text(&self.all_proxy_passwd),
            user_agent: clone_opt_text(&self.user_agent),
            headers: clone_pairs(&self.headers),
            max_tries: self.max_tries,
            retry_wait: self.retry_wait,
            dir: self.dir.clone(),
            out: clone_opt_text(&self.out),
            bt_trackers: clone_texts(&self.bt_trackers),
            bt_listen_port: self.bt_listen_port,
            seed_ratio: self.seed_ratio,
            seed_time: self.seed_time,
            keep_seeding: self.keep_seeding,
            only_files,
        }
    }
}

/// The name and the value of a header line, split at the first colon, or at the
/// first equals sign where there is no colon; `None` for a line without a name.
pub open spec fn header_of(line: Seq<char>) -> Option<(Seq<char>, Seq<char>)> {
    let t = text::trimmed(line);
    let i = if text::find(t, ':') < t.len() {
        text::find(t, ':')
    } else {
        text::find(t, '=')
    };
    if i < t.len() && text::trimmed(t.take(i)).len() > 0 {
        Some((text::trimmed(t.take(i)), text::trimmed(t.skip(i + 1))))
    } else {
        None
    }
}

/// The headers in the given lines.
pub open spec fn line_headers(lines: Seq<Seq<char>>) -> Seq<(Seq<char>, Seq<char>)>
    decreases lines.len(),
{
    if lines.len() == 0 {
        seq![]
    } else {
        let before = line_headers(lines.drop_last());
        match header_of(lines.last()) {
            Some(h) => before.push(h),
            None => before,
        }
    }
}

/// The headers in the texts among the given values.
pub open spec fn item_headers(items: Seq<JsonView>) -> Seq<(Seq<char>, Seq<char>)>
    decreases items.len(),
{
    if items.len() == 0 {
        seq![]
    } else {
        let before = item_headers(items.drop_last());
        match items.last() {
            JsonView::Text(s) => before + line_headers(text::lines(s)),
            _ => before,
        }
    }
}

/// The headers that an option lists: a text, or an array of texts, of one header
/// per line.
pub open spec fn headers_in(v: Option<JsonView>) -> Seq<(Seq<char>, Seq<char>)> {
    match v {
        Some(JsonView::Array(items)) => item_headers(items),
        Some(JsonView::Text(s)) => line_headers(text::lines(s)),
        _ => seq![],
    }
}

/// Adds the header of a line, if it holds one.
pub fn push_header_line(line: &str, out: &mut Vec<(String, String)>)
    ensures
        final(out).deep_view() == (match header_of(line@) {
            Some(h) => old(out).deep_view().push(h),
            None => old(out).deep_view(),
        }),
{
    let t = trim_chars(&chars_of(line));
    proof {
        assert(t@.skip(0) =~= t@);
    }
    let colon: usize = text::find_from(&t, ':', 0);
    let i: usize = if colon < t.len() {
        colon
    } else {
        text::find_from(&t, '=', 0)
    };
    if i < t.len() {
        let name = trim_chars(&sub_chars(&t, 0, i));
        let value = trim_chars(&sub_chars(&t, i + 1, t.len()));
        proof {
            assert(t@.subrange(0, i as int) =~= t@.take(i as int));
            assert(t@.subrange(i + 1, t@.len() as int) =~= t@.skip(i + 1));
        }
        if name.len() > 0 {
            let ghost before = out.deep_view();
            out.push((text_of(&name), text_of(&value)));
            proof {
                assert(out.deep_view() =~= before.push((name@, value@)));
            }
        }
    }
}

/// Adds the headers of every line of `s`.
fn push_header_lines(s: &str, out: &mut Vec<(String, String)>)
    ensures
        final(out).deep_view() == old(out).deep_view() + line_headers(text::lines(s@)),
{
    let lines = text::lines_of(s);
    let ghost view = lines.deep_view();
    let ghost before = out.deep_view();
    let mut i: usize = 0;
    proof {
        assert(view.take(0) =~= seq![]);
        assert(before + line_headers(view.take(0)) =~= before);
    }
    while i < lines.len()
        invariant
            i <= lines@.len(),
            view == lines.deep_view(),
            out.deep_view() == before + line_headers(view.take(i as int)),
        decreases lines@.len() - i,
    {
        proof {
            let upto = view.take(i + 1);
            assert(upto.drop_last() =~= view.take(i as int));
            assert(upto.last() == lines@[i as int]@);
        }
        push_header_line(lines[i].as_str(), out);
        i += 1;
        proof {
            assert(out.deep_view() =~= before + line_headers(view.take(i as int)));
        }
    }
    proof {
        assert(view.take(i as int) =~= view);
    }
}

/// The headers that an option lists.
pub fn parse_headers(v: Option<&Json>) -> (r: Vec<(String, String)>)
    ensures
        r.deep_view() == headers_in(v.deep_view()),
{
    let mut out: Vec<(String, String)> = Vec::new();
    proof {
        assert(out.deep_view() =~= seq![]);
    }
    match v {
        Some(Json::Array(items)) => {
            let ghost view = items.deep_view();
            let mut i: usize = 0;
            proof {
                json::lemma_array_view(*items);
                assert(view.take(0) =~= seq![]);
            }
            while i < items.len()
                invariant
                    i <= items@.len(),
                    view == items.deep_view(),
                    out.deep_view() == item_headers(view.take(i as int)),
                decreases items@.len() - i,
            {
                proof {
                    let upto = view.take(i + 1);
                    assert(upto.drop_last() =~= view.take(i as int));
                    assert(upto.last() == items@[i as int]@);
                }
                match &items[i] {
                    Json::Text(s) => push_header_lines(s.as_str(), &mut out),
                    _ => {},
                }
                i += 1;
            }
            proof {
                assert(view.take(i as int) =~= view);
            }
        },
        Some(Json::Text(s)) => {
            push_header_lines(s.as_str(), &mut out);
            proof {
                assert(out.deep_view() =~= line_headers(text::lines(s@)));
            }
        },
        _ => {},
    }
    out
}

/// The trackers in a list separated by commas and white space.
pub fn split_tracker_list(s: &str) -> (r: Vec<String>)
    ensures
        r.deep_view() == text::tokens(s@, true),
{
    text::split_tokens(s, true)
}

/// The texts among the given values.
pub open spec fn texts_in(items: Seq<JsonView>) -> Seq<Seq<char>>
    decreases items.len(),
{
    if items.len() == 0 {
        seq![]
    } else {
        let before = texts_in(items.drop_last());
        match items.last() {
            JsonView::Text(s) => before.push(s),
            _ => before,
        }
    }
}

/// The texts among the given values.
pub fn collect_texts(items: &Vec<Json>) -> (r: Vec<String>)
    ensures
        r.deep_view() == texts_in(items.deep_view()),
{
    let mut out: Vec<String> = Vec::new();
    let ghost view = items.deep_view();
    let mut i: usize = 0;
    proof {
        assert(view.take(0) =~= seq![]);
        assert(out.deep_view() =~= seq![]);
    }
    while i < items.len()
        invariant
            i <= items@.len(),
            view == items.deep_view(),
            out.deep_view() == texts_in(view.take(i as int)),
        decreases items@.len() - i,
    {
        let ghost before = out.deep_view();
        proof {
            let upto = view.take(i + 1);
            assert(upto.drop_last() =~= view.take(i as int));
            assert(upto.last() == items@[i as int]@);
        }
        match &items[i] {
            Json::Text(s) => {
                out.push(s.clone());
                proof {
                    assert(out.deep_view() =~= before.push(s@));
                }
            },
            _ => {},
        }
        i += 1;
    }
    proof {
        assert(view.take(i as int) =~= view);
    }
    out
}

/// The trackers that an option lists: a text, or an array of texts.
pub open spec fn trackers_in(v: Option<JsonView>) -> Seq<Seq<char>> {
    match v {
        Some(JsonView::Array(items)) => texts_in(items),
        Some(JsonView::Text(s)) => text::tokens(s, true),
        _ => seq![],
    }
}

/// The trackers that an option lists.
pub fn parse_tracker_option(v: Option<&Json>) -> (r: Vec<String>)
    ensures
        r.deep_view() == trackers_in(v.deep_view()),
{
    match v {
        Some(Json::Array(items)) => {
            proof {
                json::lemma_array_view(*items);
            }
            collect_texts(items)
        },
        Some(Json::Text(s)) => split_tracker_list(s.as_str()),
        _ => {
            let out: Vec<String> = Vec::new();
            proof {
                assert(out.deep_view() =~= seq![]);
            }
            out
        },
    }
}

/// The file number, from 1, that a value gives: an integer, or a text that holds
/// one.
pub open spec fn file_number(v: JsonView) -> Option<nat> {
    match v {
        JsonView::Text(s) => digits::unsigned(s, usize::MAX as nat),
        JsonView::Number(Number::Unsigned(n)) => if n <= usize::MAX {
            Some(n as nat)
        } else {
            None
        },
        _ => None,
    }
}

/// The places, from 0, of the files that the values number from 1; what is no
/// number of a file is left out.
pub open spec fn file_places(items: Seq<JsonView>) -> Seq<usize>
    decreases items.len(),
{
    if items.len() == 0 {
        seq![]
    } else {
        let before = file_places(items.drop_last());
        match file_number(items.last()) {
            Some(n) => if n >= 1 {
                before.push((n - 1) as usize)
            } else {
                before
            },
            None => before,
        }
    }
}

/// The pieces of a comma-separated text, as values.
pub open spec fn comma_items(s: Seq<char>) -> Seq<JsonView> {
    Seq::new(
        text::split(s, ',').len(),
        |i: int| JsonView::Text(text::trimmed(text::split(s, ',')[i])),
    )
}

/// The files that a selection names, by their place; `None` where it names none.
pub open spec fn selected_files(v: JsonView) -> Option<Seq<usize>> {
    let places = match v {
        JsonView::Array(items) => file_places(items),
        JsonView::Text(s) => file_places(comma_items(s)),
        _ => seq![],
    };
    if places.len() == 0 {
        None
    } else {
        Some(places)
    }
}

/// Adds the place of the file that a value numbers.
fn push_place(item: &Json, out: &mut Vec<usize>)
    ensures
        final(out)@ == (match file_number(item@) {
            Some(n) => if n >= 1 {
                old(out)@.push((n - 1) as usize)
            } else {
                old(out)@
            },
            None => old(out)@,
        }),
{
    let n: Option<u64> = match item {
        Json::Text(s) => digits::parse_unsigned(s.as_str(), usize::MAX as u64),
        Json::Number(Number::Unsigned(n)) => if *n <= usize::MAX as u64 {
            Some(*n)
        } else {
            None
        },
        _ => None,
    };
    match n {
        Some(n) => {
            if n >= 1 {
                out.push((n - 1) as usize);
            }
        },
        None => {},
    }
}

/// The places of the files that the values number.
fn places_of(items: &Vec<Json>) -> (r: Vec<usize>)
    ensures
        r@ == file_places(items.deep_view()),
{
    let mut out: Vec<usize> = Vec::new();
    let ghost view = items.deep_view();
    let mut i: usize = 0;
    proof {
        assert(view.take(0) =~= seq![]);
    }
    while i < items.len()
        invariant
            i <= items@.len(),
            view == items.deep_view(),
            out@ == file_places(view.take(i as int)),
        decreases items@.len() - i,
    {
        proof {
            let upto = view.take(i + 1);
            assert(upto.drop_last() =~= view.take(i as int));
            assert(upto.last() == items@[i as int]@);
        }
        push_place(&items[i], &mut out);
        i += 1;
    }
    proof {
        assert(view.take(i as int) =~= view);
    }
    out
}

/// The files that a selection names, by their place.
pub fn parse_select_file(v: &Json) -> (r: Option<Vec<usize>>)
    ensures
        match r {
            Some(files) => selected_files(v@) == Some(files@),
            None => selected_files(v@) is None,
        },
{
    let places = match v {
        Json::Array(items) => {
            proof {
                json::lemma_array_view(*items);
            }
            places_of(items)
        },
        Json::Text(s) => {
            let pieces = text::split_on(s.as_str(), ',');
            let mut items: Vec<Json> = Vec::new();
            let mut i: usize = 0;
            while i < pieces.len()
                invariant
                    i <= pieces@.len(),
                    items@.len() == i,
                    forall|j: int|
                        0 <= j < i ==> (#[trigger] items@[j])@ == JsonView::Text(
                            text::trimmed(pieces@[j]@),
                        ),
                decreases pieces@.len() - i,
            {
                items.push(Json::Text(text::trim(pieces[i].as_str())));
                i += 1;
            }
            proof {
                assert(items.deep_view() =~= comma_items(s@)) by {
                    assert(pieces.deep_view() == text::split(s@, ','));
                    assert forall|j: int| 0 <= j < items@.len() implies items.deep_view()[j]
                        == comma_items(s@)[j] by {
                        assert(pieces.deep_view()[j] == pieces@[j]@);
                    }
                }
            }
            places_of(&items)
        },
        _ => {
            return None;
        },
    };
    if places.len() == 0 {
        None
    } else {
        Some(places)
    }
}

/// The number that an option gives: an integer, or a size in letters.
pub open spec fn number_in(v: Option<JsonView>) -> Option<nat> {
    match v {
        Some(JsonView::Number(Number::Unsigned(n))) => Some(n as nat),
        Some(JsonView::Text(s)) => size::size(s),
        _ => None,
    }
}

/// The number that an option gives.
pub fn number_option(fields: &Vec<(String, Json)>, key: &str) -> (r: Option<u64>)
    ensures
        match r {
            Some(n) => number_in(assoc::lookup(fields.deep_view(), key@)) == Some(n as nat),
            None => number_in(assoc::lookup(fields.deep_view(), key@)) is None,
        },
{
    match assoc::lookup_in(fields, key) {
        Some(Json::Number(Number::Unsigned(n))) => Some(*n),
        Some(Json::Text(s)) => parse_size(s.as_str()),
        _ => None,
    }
}

/// The text that an option gives.
pub open spec fn text_in(v: Option<JsonView>) -> Option<Seq<char>> {
    match v {
        Some(JsonView::Text(s)) => Some(s),
        _ => None,
    }
}

/// The text that an option gives.
pub fn text_option(fields: &Vec<(String, Json)>, key: &str) -> (r: Option<String>)
    ensures
        r.deep_view() == text_in(assoc::lookup(fields.deep_view(), key@)),
{
    match assoc::lookup_in(fields, key) {
        Some(Json::Text(s)) => Some(s.clone()),
        _ => None,
    }
}

/// `s`, unless it is empty.
pub open spec fn non_empty(s: Seq<char>) -> Option<Seq<char>> {
    if s.len() == 0 {
        None
    } else {
        Some(s)
    }
}

/// `s`, unless it is empty.
fn unless_empty(s: String) -> (r: Option<String>)
    ensures
        r.deep_view() == non_empty(s@),
{
    if s.as_str().is_empty() {
        None
    } else {
        Some(s)
    }
}

/// `n`, unless it is zero.
pub open spec fn non_zero(n: nat) -> Option<u64> {
    if n == 0 {
        None
    } else {
        Some(n as u64)
    }
}

/// The lower 32 bits of `n`.
pub open spec fn low32(n: nat) -> u32 {
    (n % 0x1_0000_0000) as u32
}

fn lower32(n: u64) -> (r: u32)
    ensures
        r == low32(n as nat),
{
    (n % 0x1_0000_0000) as u32
}

/// A number as an encoded double.
pub open spec fn number_double(n: Number) -> u64 {
    match n {
        Number::Unsigned(n) => double::encoded(n as nat) as u64,
        Number::Negative(n) => if n < 0 {
            (0x8000_0000_0000_0000 + double::encoded((-n) as nat)) as u64
        } else {
            double::encoded(n as nat) as u64
        },
        Number::Float(bits) => bits,
    }
}

/// A number as an encoded double.
pub fn double_from(n: Number) -> (r: u64)
    ensures
        r == number_double(n),
{
    match n {
        Number::Unsigned(n) => double::double_of(n),
        Number::Negative(n) => {
            if n < 0 {
                let m: u64 = (-(n as i128)) as u64;
                0x8000_0000_0000_0000 + double::double_of(m)
            } else {
                double::double_of(n as u64)
            }
        },
        Number::Float(bits) => bits,
    }
}

/// The connections of a task: `split` and `max-connection-per-server`, whichever
/// is smaller, where the task sets the first; the second where it sets that one
/// alone; one in place of none. The lower 32 bits count.
pub open spec fn chosen_connections(
    current: u32,
    split: Option<nat>,
    per_server: Option<nat>,
) -> u32 {
    match (split, per_server) {
        (Some(split), Some(per_server)) => low32(at_least_one(smaller(split, per_server))),
        (Some(split), None) => low32(at_least_one(smaller(split, current as nat))),
        (None, Some(per_server)) => low32(at_least_one(per_server)),
        (None, None) => current,
    }
}

pub open spec fn smaller(a: nat, b: nat) -> nat {
    if a <= b {
        a
    } else {
        b
    }
}

pub open spec fn at_least_one(a: nat) -> nat {
    if a == 0 {
        1
    } else {
        a
    }
}

/// A limit that a task sets; zero lifts it.
pub open spec fn chosen_limit(current: Option<u64>, v: Option<nat>) -> Option<u64> {
    match v {
        Some(n) => non_zero(n),
        None => current,
    }
}

/// A text that a task sets; the empty text clears it.
pub open spec fn chosen_text(
    current: Option<Seq<char>>,
    v: Option<Seq<char>>,
) -> Option<Seq<char>> {
    match v {
        Some(s) => non_empty(s),
        None => current,
    }
}

/// The options `o` with those that a task sets. `ratio` is the double that the
/// text of `seed-ratio` reads as, where it is a text and reads as one.
pub open spec fn applied(
    o: OptionsView,
    fields: Seq<(Seq<char>, JsonView)>,
    ratio: Option<u64>,
) -> OptionsView {
    OptionsView {
        connections: chosen_connections(
            o.connections,
            number_in(assoc::lookup(fields, "split"@)),
            number_in(assoc::lookup(fields, "max-connection-per-server"@)),
        ),
        max_download_limit: chosen_limit(
            o.max_download_limit,
            number_in(assoc::lookup(fields, "max-download-limit"@)),
        ),
        max_overall_download_limit: chosen_limit(
            o.max_overall_download_limit,
            number_in(assoc::lookup(fields, "max-overall-download-limit"@)),
        ),
        all_proxy: chosen_text(o.all_proxy, text_in(assoc::lookup(fields, "all-proxy"@))),
        no_proxy: chosen_text(o.no_proxy, text_in(assoc::lookup(fields, "no-proxy"@))),
        all_proxy_user: chosen_text(
            o.all_proxy_user,
            text_in(assoc::lookup(fields, "all-proxy-user"@)),
        ),
        all_proxy_passwd: chosen_text(
            o.all_proxy_passwd,
            text_in(assoc::lookup(fields, "all-proxy-passwd"@)),
        ),
        user_agent: chosen_text(o.user_agent, text_in(assoc::lookup(fields, "user-agent"@))),
        headers: if assoc::has(fields, "header"@) {
            headers_in(assoc::lookup(fields, "header"@))
        } else {
            o.headers
        },
        max_tries: match number_in(assoc::lookup(fields, "max-tries"@)) {
            Some(n) => low32(n),
            None => o.max_tries,
        },
        retry_wait: match number_in(assoc::lookup(fields, "retry-wait"@)) {
            Some(n) => n as u64,
            None => o.retry_wait,
        },
        dir: match text_in(assoc::lookup(fields, "dir"@)) {
            Some(s) => s,
            None => o.dir,
        },
        out: chosen_text(o.out, text_in(assoc::lookup(fields, "out"@))),
        bt_trackers: if assoc::has(fields, "bt-tracker"@) {
            trackers_in(assoc::lookup(fields, "bt-tracker"@))
        } else {
            o.bt_trackers
        },
        bt_listen_port: o.bt_listen_port,
        seed_ratio: match assoc::lookup(fields, "seed-ratio"@) {
            Some(JsonView::Number(n)) => Some(number_double(n)),
            Some(JsonView::Text(_)) => if ratio is Some {
                ratio
            } else {
                o.seed_ratio
            },
            _ => o.seed_ratio,
        },
        seed_time: match assoc::lookup(fields, "seed-time"@) {
            Some(JsonView::Number(Number::Unsigned(n))) => Some(low32(n as nat)),
            Some(JsonView::Text(s)) => match digits::unsigned(s, u32::MAX as nat) {
                Some(n) => Some(n as u32),
                None => o.seed_time,
            },
            _ => o.seed_time,
        },
        keep_seeding: match assoc::lookup(fields, "keep-seeding"@) {
            Some(JsonView::Bool(b)) => b,
            Some(JsonView::Text(s)) => s == "true"@ || s == "1"@,
            _ => o.keep_seeding,
        },
        only_files: match assoc::lookup(fields, "select-file"@) {
            Some(v) => selected_files(v),
            None => o.only_files,
        },
    }
}

impl EngineOptions {
    /// Takes over what a task sets about the transfer itself.
    fn apply_transfer_options(&mut self, fields: &Vec<(String, Json)>)
        ensures
            final(self)@ == (OptionsView {
                connections: applied(old(self)@, fields.deep_view(), None).connections,
                max_download_limit: applied(
                    old(self)@,
                    fields.deep_view(),
                    None,
                ).max_download_limit,
                max_overall_download_limit: applied(
                    old(self)@,
                    fields.deep_view(),
                    None,
                ).max_overall_download_limit,
                headers: applied(old(self)@, fields.deep_view(), None).headers,
                max_tries: applied(old(self)@, fields.deep_view(), None).max_tries,
                retry_wait: applied(old(self)@, fields.deep_view(), None).retry_wait,
                ..old(self)@
            }),
    {
        let split = number_option(fields, "split");
        let per_server = number_option(fields, "max-connection-per-server");
        if let Some(split) = split {
            let bound: u64 = match per_server {
                Some(n) => n,
                None => self.connections as u64,
            };
            let n: u64 = if split <= bound {
                split
            } else {
                bound
            };
            self.connections = lower32(
                if n == 0 {
                    1
                } else {
                    n
                },
            );
        } else if let Some(n) = per_server {
            self.connections = lower32(
                if n == 0 {
                    1
                } else {
                    n
                },
            );
        }
        if let Some(v) = number_option(fields, "max-download-limit") {
            self.max_download_limit = if v > 0 {
                Some(v)
            } else {
                None
            };
        }
        if let Some(v) = number_option(fields, "max-overall-download-limit") {
            self.max_overall_download_limit = if v > 0 {
                Some(v)
            } else {
                None
            };
        }
        if assoc::has_key(fields, "header") {
            self.headers = parse_headers(assoc::lookup_in(fields, "header"));
        }
        if let Some(v) = number_option(fields, "max-tries") {
            self.max_tries = lower32(v);
        }
        if let Some(v) = number_option(fields, "retry-wait") {
            self.retry_wait = v;
        }
    }

    /// Takes over the texts that a task sets.
    fn apply_text_options(&mut self, fields: &Vec<(String, Json)>)
        ensures
            final(self)@ == (OptionsView {
                all_proxy: applied(old(self)@, fields.deep_view(), None).all_proxy,
                no_proxy: applied(old(self)@, fields.deep_view(), None).no_proxy,
                all_proxy_user: applied(old(self)@, fields.deep_view(), None).all_proxy_user,
                all_proxy_passwd: applied(old(self)@, fields.deep_view(), None).all_proxy_passwd,
                user_agent: applied(old(self)@, fields.deep_view(), None).user_agent,
                dir: applied(old(self)@, fields.deep_view(), None).dir,
                out: applied(old(self)@, fields.deep_view(), None).out,
                ..old(self)@
            }),
    {
        if let Some(v) = text_option(fields, "all-proxy") {
            self.all_proxy = unless_empty(v);
        }
        if let Some(v) = text_option(fields, "no-proxy") {
            self.no_proxy = unless_empty(v);
        }
        if let Some(v) = text_option(fields, "all-proxy-user") {
            self.all_proxy_user = unless_empty(v);
        }
        if let Some(v) = text_option(fields, "all-proxy-passwd") {
            self.all_proxy_passwd = unless_empty(v);
        }
        if let Some(v) = text_option(fields, "user-agent") {
            self.user_agent = unless_empty(v);
        }
        if let Some(v) = text_option(fields, "dir") {
            self.dir = v;
        }
        if let Some(v) = text_option(fields, "out") {
            self.out = unless_empty(v);
        }
    }

    /// Takes over what a task sets about BitTorrent.
    fn apply_bt_options(&mut self, fields: &Vec<(String, Json)>, ratio: Option<u64>)
        ensures
            final(self)@ == (OptionsView {
                bt_trackers: applied(old(self)@, fields.deep_view(), ratio).bt_trackers,
                seed_ratio: applied(old(self)@, fields.deep_view(), ratio).seed_ratio,
                seed_time: applied(old(self)@, fields.deep_view(), ratio).seed_time,
                keep_seeding: applied(old(self)@, fields.deep_view(), ratio).keep_seeding,
                only_files: applied(old(self)@, fields.deep_view(), ratio).only_files,
                ..old(self)@
            }),
    {
        if assoc::has_key(fields, "bt-tracker") {
            self.bt_trackers = parse_tracker_option(assoc::lookup_in(fields, "bt-tracker"));
        }
        match assoc::lookup_in(fields, "seed-ratio") {
            Some(Json::Number(n)) => {
                self.seed_ratio = Some(double_from(*n));
            },
            Some(Json::Text(_)) => {
                if ratio.is_some() {
                    self.seed_ratio = ratio;
                }
            },
            _ => {},
        }
        match assoc::lookup_in(fields, "seed-time") {
            Some(Json::Number(Number::Unsigned(n))) => {
                self.seed_time = Some(lower32(*n));
            },
            Some(Json::Text(s)) => {
                if let Some(n) = digits::parse_unsigned(s.as_str(), u32::MAX as u64) {
                    self.seed_time = Some(n as u32);
                }
            },
            _ => {},
        }
        match assoc::lookup_in(fields, "keep-seeding") {
            Some(Json::Bool(b)) => {
                self.keep_seeding = *b;
            },
            Some(Json::Text(s)) => {
                self.keep_seeding = same(s.as_str(), "true") || same(s.as_str(), "1");
            },
            _ => {},
        }
        if let Some(v) = assoc::lookup_in(fields, "select-file") {
            self.only_files = parse_select_file(v);
        }
    }

    /// Takes over the options of a task, which go before those that are set
    /// already. `ratio` is the double that the text of `seed-ratio` reads as,
    /// where it is a text and reads as one. Anything but an object sets nothing.
    pub fn apply_task_options(&mut self, options: &Json, ratio: Option<u64>)
        ensures
            final(self)@ == (match options@ {
                JsonView::Object(fields) => applied(old(self)@, fields, ratio),
                _ => old(self)@,
            }),
    {
        match options {
            Json::Object(fields) => {
                proof {
                    json::lemma_object_view(*fields);
                }
                self.apply_transfer_options(fields);
                self.apply_text_options(fields);
                self.apply_bt_options(fields, ratio);
            },
            _ => {},
        }
    }

    /// Attempts to make: no bound becomes a large one.
    pub fn normalized_max_tries(&self) -> (r: u32)
        ensures
            r == (if self.max_tries == 0 {
                100
            } else {
                self.max_tries
            }),
    {
        if self.max_tries == 0 {
            100
        } else {
            self.max_tries
        }
    }

    /// The speed limit in force: the smaller of the two limits, of those that
    /// are set and not zero.
    pub fn effective_speed_limit(&self) -> (r: Option<u64>)
        ensures
            r == spec_speed_limit(self.max_download_limit, self.max_overall_download_limit),
    {
        let own: u64 = match self.max_download_limit {
            Some(n) => n,
            None => 0,
        };
        let overall: u64 = match self.max_overall_download_limit {
            Some(n) => n,
            None => 0,
        };
        if own == 0 && overall == 0 {
            None
        } else if own == 0 {
            Some(overall)
        } else if overall == 0 || own <= overall {
            Some(own)
        } else {
            Some(overall)
        }
    }
}

/// The smaller of two limits, of those that are set and not zero.
pub open spec fn spec_speed_limit(own: Option<u64>, overall: Option<u64>) -> Option<u64> {
    match (chosen_limit(None, limit_value(own)), chosen_limit(None, limit_value(overall))) {
        (Some(a), Some(b)) => Some(
            if a <= b {
                a
            } else {
                b
            },
        ),
        (Some(a), None) => Some(a),
        (None, b) => b,
    }
}

pub open spec fn limit_value(limit: Option<u64>) -> Option<nat> {
    match limit {
        Some(n) => Some(n as nat),
        None => None,
    }
}

/// The options before any setting is read.
pub open spec fn initial_options() -> OptionsView {
    OptionsView {
        connections: 16,
        max_download_limit: None,
        max_overall_download_limit: None,
        all_proxy: None,
        no_proxy: None,
        all_proxy_user: None,
        all_proxy_passwd: None,
        user_agent: None,
        headers: seq![],
        max_tries: 5,
        retry_wait: 0,
        dir: "."@,
        out: None,
        bt_trackers: seq![],
        bt_listen_port: None,
        seed_ratio: None,
        seed_time: None,
        keep_seeding: false,
        only_files: None,
    }
}

impl Default for EngineOptions {
    fn default() -> (r: EngineOptions)
        ensures
            r@ == initial_options(),
    {
        let r = EngineOptions {
            connections: 16,
            max_download_limit: None,
            max_overall_download_limit: None,
            all_proxy: None,
            no_proxy: None,
            all_proxy_user: None,
            all_proxy_passwd: None,
            user_agent: None,
            headers: Vec::new(),
            max_tries: 5,
            retry_wait: 0,
            dir: ".".to_owned(),
            out: None,
            bt_trackers: Vec::new(),
            bt_listen_port: None,
            seed_ratio: None,
            seed_time: None,
            keep_seeding: false,
            only_files: None,
        };
        proof {
            assert(r.headers.deep_view() =~= seq![]);
            assert(r.bt_trackers.deep_view() =~= seq![]);
        }
        r
    }
}

/// The options that the system settings give.
pub open spec fn system_options(system: SystemConfig) -> OptionsView {
    let extra = system.extra.deep_view();
    OptionsView {
        connections: at_least_one(
            smaller(system.split as nat, system.max_connection_per_server as nat),
        ) as u32,
        max_download_limit: non_zero(system.max_download_limit as nat),
        max_overall_download_limit: non_zero(system.max_overall_download_limit as nat),
        all_proxy: non_empty(system.all_proxy@),
        no_proxy: non_empty(system.no_proxy@),
        all_proxy_user: text_in(assoc::lookup(extra, "all-proxy-user"@)),
        all_proxy_passwd: text_in(assoc::lookup(extra, "all-proxy-passwd"@)),
        user_agent: Some(system.user_agent@),
        headers: headers_in(assoc::lookup(extra, "header"@)),
        max_tries: match number_in(assoc::lookup(extra, "max-tries"@)) {
            Some(n) => low32(n),
            None => 5,
        },
        retry_wait: match number_in(assoc::lookup(extra, "retry-wait"@)) {
            Some(n) => n as u64,
            None => 0,
        },
        dir: system.dir@,
        out: None,
        bt_trackers: text::tokens(system.bt_tracker@, true),
        bt_listen_port: Some(system.listen_port),
        seed_ratio: if double::positive(system.seed_ratio) {
            Some(system.seed_ratio)
        } else {
            None
        },
        seed_time: if system.seed_time > 0 {
            Some(system.seed_time)
        } else {
            None
        },
        keep_seeding: false,
        only_files: None,
    }
}

impl EngineOptions {
    /// The options that the system settings give.
    pub fn from_system_config(system: &SystemConfig) -> (r: EngineOptions)
        ensures
            r@ == system_options(*system),
    {
        let fewer: u32 = if system.split <= system.max_connection_per_server {
            system.split
        } else {
            system.max_connection_per_server
        };
        EngineOptions {
            connections: if fewer == 0 {
                1
            } else {
                fewer
            },
            max_download_limit: if system.max_download_limit > 0 {
                Some(system.max_download_limit)
            } else {
                None
            },
            max_overall_download_limit: if system.max_overall_download_limit > 0 {
                Some(system.max_overall_download_limit)
            } else {
                None
            },
            all_proxy: unless_empty(system.all_proxy.clone()),
            no_proxy: unless_empty(system.no_proxy.clone()),
            all_proxy_user: text_option(&system.extra, "all-proxy-user"),
            all_proxy_passwd: text_option(&system.extra, "all-proxy-passwd"),
            user_agent: Some(system.user_agent.clone()),
            headers: parse_headers(assoc::lookup_in(&system.extra, "header")),
            max_tries: match number_option(&system.extra, "max-tries") {
                Some(n) => lower32(n),
                None => 5,
            },
            retry_wait: match number_option(&system.extra, "retry-wait") {
                Some(n) => n,
                None => 0,
            },
            dir: system.dir.clone(),
            out: None,
            bt_trackers: split_tracker_list(system.bt_tracker.as_str()),
            bt_listen_port: Some(system.listen_port),
            seed_ratio: if 0 < system.seed_ratio && system.seed_ratio <= 0x7FF0_0000_0000_0000 {
                Some(system.seed_ratio)
            } else {
                None
            },
            seed_time: if system.seed_time > 0 {
                Some(system.seed_time)
            } else {
                None
            },
            keep_seeding: false,
            only_files: None,
        }
    }
}

/// Options that a task does not set stay as they are, and options that it sets
/// once more change nothing.
pub proof fn law_options_settle(
    o: OptionsView,
    fields: Seq<(Seq<char>, JsonView)>,
    ratio: Option<u64>,
)
    ensures
        applied(o, Seq::empty(), ratio) == o,
        applied(applied(o, fields, ratio), fields, ratio) == applied(o, fields, ratio),
{
    let once = applied(o, fields, ratio);
    let twice = applied(once, fields, ratio);
    assert(twice.connections == once.connections);
}

} // verus!
