//! Tasks that are added: where they come from, where they go, and what they are.

use vstd::prelude::*;

use crate::assoc;
use crate::bt::TorrentMeta;
use crate::engine::{self, UriPlan};
use crate::http;
use crate::json::Json;
use crate::kget;
use crate::laws::words;
use crate::manager::{self, TaskManager, TorrentPlan};
use crate::options::EngineOptions;
use crate::task::{Task, TaskStatus};
use crate::text;

verus! {

/// Whether `path` is the path of the file `name` in the directory `dir`: with one
/// separator between the two, be it that the directory ends with one or not.
pub open spec fn lies_in(path: Seq<char>, dir: Seq<char>, name: Seq<char>) -> bool {
    if dir.len() > 0 && (dir.last() == '/' || dir.last() == '\\') {
        path == dir + name
    } else {
        path == dir.push('/') + name
    }
}

/// Whether a URL names a file: behind a scheme and a host, and behind the last slash,
/// it ends with `name`.
pub open spec fn names(
    uri: Seq<char>,
    scheme: Seq<char>,
    host: Seq<char>,
    name: Seq<char>,
) -> bool {
    &&& uri == scheme + "://"@ + (host.push('/') + name)
    &&& forall|i: int| 0 <= i < scheme.len() ==> scheme[i] != ':'
    &&& forall|i: int| 0 <= i < name.len() ==> name[i] != '/'
}

/// The name of a URL that names a file is that of the file.
pub proof fn lemma_uri_name(
    uri: Seq<char>,
    scheme: Seq<char>,
    host: Seq<char>,
    name: Seq<char>,
)
    requires
        names(uri, scheme, host, name),
    ensures
        engine::uri_name(uri) == (if name.len() > 0 {
            name
        } else {
            "download"@
        }),
{
    let rest = host.push('/') + name;
    words::lemma_scheme(scheme, rest);
    words::lemma_last(host, '/', name);
}

/// The file name that is taken from a URL is what stands behind its last slash, and
/// `download` where nothing does.
pub proof fn law_a_url_names_its_file(
    uri: &str,
    scheme: Seq<char>,
    host: Seq<char>,
    name: Seq<char>,
    r: String,
)
    requires
        names(uri@, scheme, host, name),
        call_ensures(engine::file_name_from_uri, (uri,), r),
    ensures
        name.len() > 0 ==> r@ == name,
        name.len() == 0 ==> r@ == "download"@,
{
    lemma_uri_name(uri@, scheme, host, name);
}

/// A URL that is a host alone names no file.
pub proof fn law_a_host_names_no_file(uri: &str, scheme: Seq<char>, host: Seq<char>, r: String)
    requires
        uri@ == scheme + "://"@ + host,
        forall|i: int| 0 <= i < scheme.len() ==> scheme[i] != ':',
        forall|i: int| 0 <= i < host.len() ==> host[i] != '/',
        call_ensures(engine::file_name_from_uri, (uri,), r),
    ensures
        r@ == "download"@,
{
    words::lemma_scheme(scheme, host);
    words::lemma_no_last(host, '/');
}

/// The path of a file in a directory tells the file.
proof fn lemma_paths_differ(p: Seq<char>, q: Seq<char>, dir: Seq<char>, a: Seq<char>, b: Seq<char>)
    requires
        lies_in(p, dir, a),
        lies_in(q, dir, b),
        p == q,
    ensures
        a == b,
{
    let n = if dir.len() > 0 && (dir.last() == '/' || dir.last() == '\\') {
        dir.len() as int
    } else {
        dir.len() + 1int
    };
    assert(a =~= p.skip(n));
    assert(b =~= q.skip(n));
}

/// A download that is added for a URL, with options that name no file, goes to the
/// file that the URL names, in the directory of the options.
pub proof fn law_an_added_url_goes_to_its_file(
    m: &mut TaskManager,
    gid: &str,
    uri: &str,
    o: EngineOptions,
    total: u64,
    at: u64,
    scheme: Seq<char>,
    host: Seq<char>,
    name: Seq<char>,
)
    requires
        old(m)@.wf(),
        o.out is None,
        name.len() > 0,
        names(uri@, scheme, host, name),
        call_ensures(TaskManager::add_uri, (m, gid, uri, o, total, at), ()),
    ensures
        final(m)@.repo.task(gid@) matches Some(t) && t.files.len() == 1 && lies_in(
            t.files[0].path,
            o.dir@,
            name,
        ),
{
    lemma_uri_name(uri@, scheme, host, name);
    let task = manager::sourced_task(gid@, uri@, o@, total, at);
    assoc::lemma_lookup_insert(old(m)@.repo.tasks, gid@, task, gid@);
    reveal_strlit("/");
    assert(o.dir@ + "/"@ =~= o.dir@.push('/'));
}

/// Two downloads that are added for URLs with different last parts, with options that
/// name no file, go to different files.
pub proof fn law_different_urls_go_to_different_files(
    m: &mut TaskManager,
    n: &mut TaskManager,
    gid: &str,
    other: &str,
    uri: &str,
    second: &str,
    o: EngineOptions,
    p: EngineOptions,
    total: u64,
    at: u64,
    scheme: Seq<char>,
    host: Seq<char>,
    name: Seq<char>,
    scheme2: Seq<char>,
    host2: Seq<char>,
    name2: Seq<char>,
)
    requires
        old(m)@.wf(),
        old(n)@.wf(),
        o.out is None && p.out is None,
        o.dir@ == p.dir@,
        name.len() > 0 && name2.len() > 0 && name != name2,
        names(uri@, scheme, host, name),
        names(second@, scheme2, host2, name2),
        call_ensures(TaskManager::add_uri, (m, gid, uri, o, total, at), ()),
        call_ensures(TaskManager::add_uri, (n, other, second, p, total, at), ()),
    ensures
        final(m)@.repo.task(gid@)->0.files[0].path != final(n)@.repo.task(
            other@,
        )->0.files[0].path,
{
    law_an_added_url_goes_to_its_file(m, gid, uri, o, total, at, scheme, host, name);
    law_an_added_url_goes_to_its_file(n, other, second, p, total, at, scheme2, host2, name2);
    let a = final(m)@.repo.task(gid@)->0.files[0].path;
    let b = final(n)@.repo.task(other@)->0.files[0].path;
    if a == b {
        lemma_paths_differ(a, b, o.dir@, name, name2);
    }
}

/// A download whose options name a file goes to that file, whatever its URL is.
pub proof fn law_a_named_download_goes_to_its_file(
    m: &mut TaskManager,
    gid: &str,
    uri: &str,
    o: EngineOptions,
    total: u64,
    at: u64,
)
    requires
        old(m)@.wf(),
        o.out is Some,
        call_ensures(TaskManager::add_uri, (m, gid, uri, o, total, at), ()),
    ensures
        final(m)@.repo.task(gid@) matches Some(t) && t.files.len() == 1 && lies_in(
            t.files[0].path,
            o.dir@,
            o.out->0@,
        ),
{
    let task = manager::sourced_task(gid@, uri@, o@, total, at);
    assoc::lemma_lookup_insert(old(m)@.repo.tasks, gid@, task, gid@);
    reveal_strlit("/");
    assert(o.dir@ + "/"@ =~= o.dir@.push('/'));
}

/// A download that is added waits, with nothing transferred yet, with the length that
/// is known of it and with its source; nothing else changes.
pub proof fn law_an_added_download_waits(
    m: &mut TaskManager,
    gid: &str,
    uri: &str,
    o: EngineOptions,
    total: u64,
    at: u64,
    other: Seq<char>,
)
    requires
        old(m)@.wf(),
        call_ensures(TaskManager::add_uri, (m, gid, uri, o, total, at), ()),
    ensures
        final(m)@.wf(),
        final(m)@.repo.task(gid@) matches Some(t) && {
            &&& t.gid == gid@
            &&& t.status == TaskStatus::Waiting
            &&& t.total_length == total
            &&& t.completed_length == 0 && t.upload_length == 0
            &&& t.download_speed == 0 && t.upload_speed == 0 && t.connections == 0
            &&& t.dir == o.dir@
            &&& t.bittorrent is None
            &&& t.error_code is None && t.error_message is None
            &&& t.created_at == at
            &&& t.files.len() == 1
            &&& t.files[0].length == total
            &&& t.files[0].completed_length == 0
            &&& t.files[0].index == 1 && t.files[0].selected
            &&& t.files[0].uris == seq![(uri@, "used"@)]
        },
        assoc::lookup(final(m)@.task_uris, gid@) == Some(seq![uri@]),
        assoc::lookup(final(m)@.task_options, gid@) == Some(o@),
        other != gid@ ==> final(m)@.repo.task(other) == old(m)@.repo.task(other),
        !old(m)@.repo.has(gid@) ==> final(m)@.repo.tasks.len() == old(m)@.repo.tasks.len() + 1
            && final(m)@.repo.tasks.last().0 == gid@,
        final(m)@.repo.removed == old(m)@.repo.removed,
        final(m)@.active == old(m)@.active,
        final(m)@.bt_active == old(m)@.bt_active,
        final(m)@.global == old(m)@.global,
        final(m)@.max_concurrent == old(m)@.max_concurrent,
        final(m)@.events == old(m)@.events,
{
    let task = manager::sourced_task(gid@, uri@, o@, total, at);
    assoc::lemma_lookup_insert(old(m)@.repo.tasks, gid@, task, gid@);
    assoc::lemma_lookup_insert(old(m)@.repo.tasks, gid@, task, other);
    assoc::lemma_lookup_insert(old(m)@.task_uris, gid@, seq![uri@], gid@);
    assoc::lemma_lookup_insert(old(m)@.task_options, gid@, o@, gid@);
    assert(crate::task::used_uris(seq![uri@]) =~= seq![(uri@, "used"@)]);
}

/// A torrent that is added waits, with its source and the hash of its content; while
/// nothing is known of it yet, it holds one file of no length.
pub proof fn law_an_added_torrent_waits(
    m: &mut TaskManager,
    gid: &str,
    source: &str,
    o: EngineOptions,
    info_hash: String,
    meta: Option<TorrentMeta>,
    at: u64,
    other: Seq<char>,
)
    requires
        old(m)@.wf(),
        call_ensures(TaskManager::add_torrent, (m, gid, source, o, info_hash, meta, at), ()),
    ensures
        final(m)@.wf(),
        final(m)@.repo.task(gid@) matches Some(t) && {
            &&& t.gid == gid@
            &&& t.status == TaskStatus::Waiting
            &&& t.completed_length == 0 && t.upload_length == 0
            &&& t.dir == o.dir@
            &&& t.error_code is None && t.error_message is None
            &&& t.created_at == at
            &&& t.bittorrent is Some
            &&& meta is None ==> {
                &&& t.bittorrent->0.info_hash == Some(info_hash@)
                &&& t.bittorrent->0.info_name is None
                &&& t.total_length == 0
                &&& t.files.len() == 1 && t.files[0].length == 0
                &&& t.files[0].uris == seq![(source@, "used"@)]
            }
            &&& meta matches Some(info) ==> {
                &&& t.bittorrent->0.info_hash == Some(info.info_hash@)
                &&& t.bittorrent->0.info_name == info.name.deep_view()
                &&& t.total_length == info.total_length
                &&& t.files.len() == info.files@.len()
                &&& t.files.len() > 0 ==> t.files[0].uris == seq![(source@, "used"@)]
            }
        },
        assoc::lookup(final(m)@.task_uris, gid@) == Some(seq![source@]),
        assoc::lookup(final(m)@.task_options, gid@) == Some(o@),
        other != gid@ ==> final(m)@.repo.task(other) == old(m)@.repo.task(other),
        final(m)@.active == old(m)@.active,
        final(m)@.bt_active == old(m)@.bt_active,
        final(m)@.global == old(m)@.global,
        final(m)@.events == old(m)@.events,
{
    let plain = crate::task::bt_task(gid@, source@, o@.dir, Some(info_hash@), at);
    let task = match meta {
        Some(info) => engine::with_meta(plain, info@, o@.only_files),
        None => plain,
    };
    assoc::lemma_lookup_insert(old(m)@.repo.tasks, gid@, task, gid@);
    assoc::lemma_lookup_insert(old(m)@.repo.tasks, gid@, task, other);
    assoc::lemma_lookup_insert(old(m)@.task_uris, gid@, seq![source@], gid@);
    assoc::lemma_lookup_insert(old(m)@.task_options, gid@, o@, gid@);
    assert(crate::task::used_uris(seq![source@]) =~= seq![(source@, "used"@)]);
}

/// What becomes of the files of a torrent once they are known: each lies below the
/// directory of the task at its own path, has its own length, has nothing transferred,
/// and is to be downloaded unless a selection leaves it out.
pub proof fn law_files_of_a_torrent(
    t: &mut Task,
    meta: &TorrentMeta,
    only: &Option<Vec<usize>>,
    i: int,
)
    requires
        call_ensures(engine::apply_torrent_meta, (t, meta, only), ()),
        0 <= i < meta.files@.len(),
        meta.files@.len() <= usize::MAX,
    ensures
        final(t).total_length == meta.total_length,
        final(t).files@.len() == meta.files@.len(),
        final(t).gid@ == old(t).gid@ && final(t).status == old(t).status && final(t).dir@
            == old(t).dir@,
        final(t)@.files[i].length == meta.files@[i].length,
        final(t)@.files[i].completed_length == 0,
        meta.files@[i].index <= u32::MAX ==> final(t)@.files[i].index == meta.files@[i].index,
        only is None ==> final(t)@.files[i].selected,
        only matches Some(places) ==> (final(t)@.files[i].selected <==> places@.contains(
            i as usize,
        )),
        i > 0 ==> final(t)@.files[i].uris.len() == 0,
        ({
            let dir = old(t).dir@;
            let rel = meta.files@[i].path@;
            dir.len() > 0 && dir.last() != '/' && dir.last() != '\\' ==> final(t)@.files[i].path
                == dir.push('/') + rel
        }),
        old(t).dir@.len() == 0 ==> final(t)@.files[i].path == meta.files@[i].path@,
{
    let view = engine::with_meta(old(t)@, meta@, crate::options::places_view(*only));
    assert(final(t)@.files == view.files);
    assert(final(t).files.deep_view().len() == final(t).files@.len());
    assert(meta@.files[i] == meta.files@[i].deep_view());
    reveal_strlit("/");
    assert(old(t).dir@ + "/"@ =~= old(t).dir@.push('/'));
}

/// A file of a torrent lies in its directory at its own path, with one slash between
/// the two however many separators the directory ends with.
pub proof fn law_torrent_files_lie_in_their_directory(
    dir: &str,
    rel: &str,
    r: String,
    c: char,
    again: &str,
    s: String,
)
    requires
        call_ensures(engine::join_save_path, (dir, rel), r),
        c == '/' || c == '\\',
        again@ == dir@.push(c),
        call_ensures(engine::join_save_path, (again, rel), s),
    ensures
        dir@.len() > 0 && dir@.last() != '/' && dir@.last() != '\\' ==> r@ == dir@.push('/') + rel@,
        dir@.len() == 0 ==> r@ == rel@,
        s@ == r@,
{
    reveal_strlit("/");
    assert(dir@ + "/"@ =~= dir@.push('/'));
    assert(again@.drop_last() =~= dir@);
}

/// Of the sources that a call lists, each that is not blank becomes one task, in the
/// order of the list: a magnet link where it begins as one, and else a download, whose
/// length is asked for where it is fetched over HTTP.
pub proof fn law_each_source_becomes_a_task(
    uris: &Vec<String>,
    r: Result<Vec<UriPlan>, String>,
    i: int,
)
    requires
        call_ensures(engine::plan_uris, (uris,), r),
        0 <= i < uris@.len(),
        forall|j: int|
            0 <= j < uris@.len() ==> text::trimmed((#[trigger] uris@[j])@) == uris@[j]@
                && uris@[j]@.len() > 0,
    ensures
        r matches Ok(plans) && plans@.len() == uris@.len() && match plans@[i] {
            UriPlan::Magnet(u) => u@ == uris@[i]@ && text::starts(u@, "magnet:"@),
            UriPlan::Plain { uri, probe } => uri@ == uris@[i]@ && !text::starts(uri@, "magnet:"@)
                && (probe <==> text::starts(uri@, "http://"@) || text::starts(uri@, "https://"@)),
        },
{
    let view = uris.deep_view();
    assert forall|j: int| 0 <= j < view.len() implies text::trimmed(#[trigger] view[j]) == view[j]
        && view[j].len() > 0 by {
        assert(view[j] == uris@[j]@);
        assert(text::trimmed(uris@[j]@) == uris@[j]@);
    }
    lemma_all_planned(view);
    match r {
        Ok(plans) => {
            assert(plans.deep_view().len() == plans@.len());
            assert(plans.deep_view()[i] == plans@[i].deep_view());
        },
        Err(_) => {},
    }
}

/// Sources that are neither blank nor have blanks round them all become tasks.
proof fn lemma_all_planned(uris: Seq<Seq<char>>)
    requires
        forall|j: int|
            0 <= j < uris.len() ==> text::trimmed(#[trigger] uris[j]) == uris[j] && uris[j].len()
                > 0,
    ensures
        engine::uri_plans(uris).len() == uris.len(),
        forall|j: int|
            0 <= j < uris.len() ==> #[trigger] engine::uri_plans(uris)[j] == engine::uri_plan(
                uris[j],
            ),
    decreases uris.len(),
{
    if uris.len() > 0 {
        let less = uris.drop_last();
        assert forall|j: int| 0 <= j < less.len() implies text::trimmed(#[trigger] less[j])
            == less[j] && less[j].len() > 0 by {
            assert(less[j] == uris[j]);
        }
        lemma_all_planned(less);
        let last = uris[uris.len() - 1];
        assert(text::trimmed(last) == last);
        assert forall|j: int| 0 <= j < uris.len() implies #[trigger] engine::uri_plans(uris)[j]
            == engine::uri_plan(uris[j]) by {
            if j < less.len() {
                assert(engine::uri_plans(less)[j] == engine::uri_plan(less[j]));
            }
        }
    }
}

/// Without sources, or with blank ones alone, nothing is added.
pub proof fn law_no_source_is_refused(uris: &Vec<String>, r: Result<Vec<UriPlan>, String>)
    requires
        call_ensures(engine::plan_uris, (uris,), r),
        uris@.len() == 0 || (uris@.len() == 1 && text::trimmed(uris@[0]@).len() == 0),
    ensures
        r is Err,
{
    let view = uris.deep_view();
    if uris@.len() == 1 {
        assert(view.drop_last() =~= seq![]);
        assert(engine::uri_plans(view.drop_last()) =~= seq![]);
        assert(view.last() == uris@[0]@);
    }
    if let Ok(plans) = r {
        assert(plans.deep_view().len() == plans@.len());
    }
}

/// How a torrent is added: by what it is given as, without blanks round it; as a
/// magnet link exactly where it begins as one; into the directory, with the trackers
/// and for the files of its options; and not paused. An empty one is refused.
pub proof fn law_a_torrent_is_added_by_its_options(
    m: &TaskManager,
    torrent: &str,
    given: &Json,
    ratio: Option<u64>,
    keep: bool,
    r: Result<TorrentPlan, String>,
)
    requires
        call_ensures(TaskManager::plan_torrent, (m, torrent, given, ratio, keep), r),
    ensures
        r is Ok <==> text::trimmed(torrent@).len() > 0,
        r matches Ok(p) ==> {
            &&& p.source@ == text::trimmed(torrent@)
            &&& p.magnet <==> text::starts(p.source@, "magnet:"@)
            &&& p.add.dir@ == p.options.dir@
            &&& p.add.trackers.deep_view() == p.options.bt_trackers.deep_view()
            &&& crate::options::places_view(p.add.only_files) == crate::options::places_view(
                p.options.only_files,
            )
            &&& !p.add.paused
        },
{
}

/// Whether a torrent seeds on is what its options say, and where they do not say, what
/// the user's setting says; all other options are those of any new task.
pub proof fn law_seeding_goes_by_the_setting(
    m: &TaskManager,
    torrent: &str,
    given: &Json,
    ratio: Option<u64>,
    keep: bool,
    p: TorrentPlan,
    o: EngineOptions,
)
    requires
        call_ensures(TaskManager::plan_torrent, (m, torrent, given, ratio, keep), Ok(p)),
        call_ensures(TaskManager::new_task_options, (m, given, ratio), o),
    ensures
        given@.field("keep-seeding"@) is None ==> p.options.keep_seeding == keep,
        given@.field("keep-seeding"@) is Some ==> p.options.keep_seeding == o.keep_seeding,
        p.options.dir@ == o.dir@,
        p.options.out.deep_view() == o.out.deep_view(),
        p.options.bt_trackers.deep_view() == o.bt_trackers.deep_view(),
        p.options.seed_ratio == o.seed_ratio,
        p.options.seed_time == o.seed_time,
        crate::options::places_view(p.options.only_files) == crate::options::places_view(
            o.only_files,
        ),
{
}

/// Whether a URL names a file for the engines: behind a scheme and a host, behind the
/// last slash and before the query, it holds `name`.
pub open spec fn leads_to(
    url: Seq<char>,
    scheme: Seq<char>,
    host: Seq<char>,
    name: Seq<char>,
    query: Seq<char>,
) -> bool {
    &&& url == scheme + "://"@ + (host.push('/') + name + query)
    &&& forall|i: int| 0 <= i < scheme.len() ==> scheme[i] != ':'
    &&& forall|i: int| 0 <= i < host.len() ==> host[i] != '?' && host[i] != '#'
    &&& forall|i: int|
        0 <= i < name.len() ==> name[i] != '/' && name[i] != '?' && name[i] != '#'
    &&& query.len() == 0 || query[0] == '?' || query[0] == '#'
}

/// The engines take the name of a file from the path of its URL, without the query.
pub proof fn lemma_url_file_name(
    url: Seq<char>,
    scheme: Seq<char>,
    host: Seq<char>,
    name: Seq<char>,
    query: Seq<char>,
    default: Seq<char>,
)
    requires
        leads_to(url, scheme, host, name, query),
    ensures
        http::url_file_name(url, default) == (if name.len() > 0 {
            name
        } else {
            default
        }),
{
    let head = host.push('/') + name;
    let rest = head + query;
    words::lemma_scheme(scheme, rest);
    let n = head.len() as int;
    assert forall|j: int| 0 <= j < n implies rest[j] != '?' && rest[j] != '#' by {
        if j < host.len() {
            assert(rest[j] == host[j]);
        } else if j > host.len() {
            assert(rest[j] == name[j - host.len() - 1]);
        }
    }
    text::lemma_find(rest, '?');
    text::lemma_find(rest, '#');
    if query.len() == 0 {
        text::lemma_find_is(rest, '?', n);
        text::lemma_find_is(rest, '#', n);
    } else {
        assert(rest[n] == query[0]);
        if query[0] == '?' {
            text::lemma_find_is(rest, '?', n);
        } else {
            text::lemma_find_is(rest, '#', n);
        }
        let a = text::find(rest, '?');
        let b = text::find(rest, '#');
        if a < n {
            assert(rest[a] != '?');
        }
        if b < n {
            assert(rest[b] != '#');
        }
    }
    assert(http::path_of_url(url) =~= head);
    words::lemma_last(host, '/', name);
}

/// A download over HTTP whose options name no file is written to the file that its URL
/// leads to, in the directory of the options, and one whose options name a file to
/// that file.
pub proof fn law_http_writes_to_the_named_file(
    o: &EngineOptions,
    url: &str,
    scheme: Seq<char>,
    host: Seq<char>,
    name: Seq<char>,
    query: Seq<char>,
    r: String,
)
    requires
        leads_to(url@, scheme, host, name, query),
        name.len() > 0,
        call_ensures(http::output_path, (o, url), r),
    ensures
        o.out is None && o.dir@.len() > 0 ==> lies_in(r@, o.dir@, name),
        o.out is None && o.dir@.len() == 0 ==> r@ == name,
        o.out is Some && o.dir@.len() > 0 ==> lies_in(r@, o.dir@, o.out->0@),
        o.out is Some && o.dir@.len() == 0 ==> r@ == o.out->0@,
{
    lemma_url_file_name(url@, scheme, host, name, query, "download"@);
    reveal_strlit("/");
    assert(o.dir@ + "/"@ =~= o.dir@.push('/'));
}

/// The general engine, too, writes to the file that the options name, in their
/// directory.
pub proof fn law_kget_writes_to_the_named_file(o: &EngineOptions, url: &str, r: String)
    requires
        o.out is Some,
        call_ensures(kget::output_path, (o, url), r),
    ensures
        o.dir@.len() > 0 ==> lies_in(r@, o.dir@, o.out->0@),
        o.dir@.len() == 0 ==> r@ == o.out->0@,
{
    reveal_strlit("/");
    assert(o.dir@ + "/"@ =~= o.dir@.push('/'));
}

/// A file name without one of its own in the options is the given one, in their
/// directory.
pub proof fn law_kget_falls_back_on_the_given_name(o: &EngineOptions, name: &str, r: String)
    requires
        o.out is None,
        call_ensures(kget::output_named, (o, name), r),
    ensures
        o.dir@.len() > 0 ==> lies_in(r@, o.dir@, name@),
        o.dir@.len() == 0 ==> r@ == name@,
{
    reveal_strlit("/");
    assert(o.dir@ + "/"@ =~= o.dir@.push('/'));
}

} // verus!
