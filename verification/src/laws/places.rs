//! Where files lie: paths, the directories and names in them, and how they are put
//! together.

use vstd::prelude::*;

use crate::config::Platform;
use crate::kget;
use crate::path::{self, Separators};
use crate::session;
use crate::task;

verus! {

/// Whether a character separates the parts of a path: the slash, and on Windows the
/// backslash too.
pub open spec fn parts_here(os: Platform, c: char) -> bool {
    c == '/' || os == Platform::Windows && c == '\\'
}

/// Whether a text is the name of a file: not empty, without separators, and none of the
/// two names that lead elsewhere.
pub open spec fn is_name(os: Platform, name: Seq<char>) -> bool {
    &&& name.len() > 0
    &&& forall|i: int| 0 <= i < name.len() ==> !parts_here(os, #[trigger] name[i])
    &&& name != seq!['.']
    &&& name != seq!['.', '.']
}

/// Whether a text is an ordinary directory: it ends with a name, and on Windows it begins
/// with a drive and its root.
pub open spec fn is_dir(os: Platform, dir: Seq<char>) -> bool {
    &&& dir.len() > 0
    &&& !parts_here(os, dir.last())
    &&& dir.last() != '.'
    &&& os == Platform::Windows ==> dir.len() > 3 && ('a' <= dir[0] <= 'z' || 'A' <= dir[0] <= 'Z')
        && dir[1] == ':' && parts_here(os, dir[2])
}

/// The parts of a path that ends with a name end where the path does.
proof fn lemma_spans_to_the_end(d: Seq<char>, by: Separators, from: int)
    requires
        0 <= from < d.len(),
        !by.has(d.last()),
        d.last() != '.',
    ensures
        path::spans(d, by, false, from).len() > 0,
        path::spans(d, by, false, from).last().1 == d.len(),
    decreases d.len() - from,
{
    path::lemma_next_separator(d, by, from);
    let to = path::next_separator(d, by, from);
    if to < d.len() {
        assert(to < d.len() - 1);
        lemma_spans_to_the_end(d, by, to + 1);
        let rest = path::spans(d, by, false, to + 1);
        let all = path::spans(d, by, false, from);
        assert(all.last() == rest.last());
    } else {
        assert(path::spans(d, by, false, to + 1) =~= seq![]);
        assert(path::is_part(d, false, from, to));
        assert(path::spans(d, by, false, from) =~= seq![(from, to)]);
    }
}

/// A name is one part of a path.
proof fn lemma_name_is_one_part(os: Platform, name: Seq<char>)
    requires
        is_name(os, name),
    ensures
        path::spans(name, path::separators(os), false, 0) == seq![(0int, name.len() as int)],
{
    let by = path::separators(os);
    let n = name.len() as int;
    assert forall|j: int| 0 <= j < n implies !by.has(#[trigger] name[j]) by {
        assert(!parts_here(os, name[j]));
    }
    path::lemma_next_separator_is(name, by, 0, n);
    assert(path::spans(name, by, false, n + 1) =~= seq![]);
    if n == 1 && name[0] == '.' {
        assert(name =~= seq!['.']);
    }
    assert(path::spans(name, by, false, 0) =~= seq![(0int, n)]);
}

/// The parts of the path of a file in a directory: those of the directory, and the name.
proof fn lemma_parts_of_file(os: Platform, dir: Seq<char>, c: char, name: Seq<char>)
    requires
        is_name(os, name),
        is_dir(os, dir),
        parts_here(os, c),
    ensures
        ({
            let p = dir.push(c) + name;
            let s = path::part_places(os, p);
            let own = path::part_places(os, dir);
            &&& path::prefix(os, p) == path::prefix(os, dir)
            &&& path::body_at(os, p) == path::body_at(os, dir)
            &&& !path::prefix(os, p).kind.verbatim()
            &&& own.len() > 0
            &&& own.last().1 == dir.len()
            &&& s == own.push((dir.len() + 1int, p.len() as int))
        }),
{
    let h = dir.push(c);
    let p = h + name;
    let by = path::separators(os);
    assert forall|i: int| 0 <= i < dir.len() implies #[trigger] p[i] == dir[i] by {}
    if os == Platform::Windows {
        assert(p[0] == dir[0] && p[1] == dir[1] && p[2] == dir[2]);
        assert(path::drive_at(p, 0) && path::drive_at(dir, 0));
    }
    assert(path::prefix(os, p) == path::prefix(os, dir));
    let x = path::prefix(os, dir);
    assert(path::has_root(os, p) == path::has_root(os, dir));
    let b = path::body_at(os, dir);
    assert(0 <= b < dir.len()) by {
        if os != Platform::Windows && dir.len() == 1 {
            assert(dir[0] == dir.last());
        }
    }
    lemma_spans_to_the_end(dir, by, b);
    path::lemma_spans_split(h, name, by, false, b);
    path::lemma_spans_closed(dir, c, by, false, b);
    lemma_name_is_one_part(os, name);
    let tail = path::moved(path::spans(name, by, false, 0), h.len() as int);
    assert(tail =~= seq![(h.len() as int, p.len() as int)]);
    assert(path::part_places(os, p) =~= path::part_places(os, dir).push(
        (dir.len() + 1int, p.len() as int),
    ));
}

/// A path is its directory and its name: the last part is the name, what is left without
/// it the directory, and what is left below the directory the name.
pub proof fn law_a_path_is_its_directory_and_its_name(
    os: Platform,
    dir: &str,
    c: char,
    name: Seq<char>,
    p: &str,
    last: Option<String>,
    up: Option<String>,
    below: Option<String>,
    out: Option<String>,
)
    requires
        is_name(os, name),
        is_dir(os, dir@),
        parts_here(os, c),
        p@ == dir@.push(c) + name,
        call_ensures(path::file_name, (os, p), last),
        call_ensures(path::parent_of, (os, p), up),
        call_ensures(path::strip_dir, (os, p, dir), below),
        call_ensures(session::out_from_path, (os, p, dir), out),
    ensures
        last matches Some(s) && s@ == name,
        up matches Some(s) && s@ == dir@,
        c == '/' ==> (below matches Some(s) && s@ == name),
        c == '/' ==> (out matches Some(s) && s@ == name),
{
    reveal_strlit(".");
    reveal_strlit("..");
    let d = dir@;
    lemma_parts_of_file(os, d, c, name);
    let s = path::part_places(os, p@);
    let names = path::parts(os, p@);
    assert(p@.subrange(d.len() + 1int, p@.len() as int) =~= name);
    assert(names.last() == name);
    if name == "."@ {
        assert(name =~= seq!['.']);
    }
    if name == ".."@ {
        assert(name =~= seq!['.', '.']);
    }
    assert(s[s.len() - 2] == path::part_places(os, d).last());
    assert(p@.take(d.len() as int) =~= d);
    if c == '/' {
        let h = d.push('/');
        let kind = path::prefix(os, d).kind;
        lemma_name_is_one_part(os, name);
        assert(path::tidy(os, kind, name));
        assert(!path::bare(os, d));
        assert(path::part_separators(os, kind).has(h.last()));
        path::law_below_joined(os, d, h, name);
    }
}

/// A file in the root has its name, and the root above it; a mere name has nothing above
/// it.
pub proof fn law_names_at_the_top(
    os: Platform,
    name: Seq<char>,
    p: &str,
    last: Option<String>,
    up: Option<String>,
)
    requires
        os != Platform::Windows,
        is_name(os, name),
        call_ensures(path::file_name, (os, p), last),
        call_ensures(path::parent_of, (os, p), up),
    ensures
        p@ == seq!['/'] + name ==> (last matches Some(s) && s@ == name) && (up matches Some(s) && s@
            == seq!['/']),
        p@ == name ==> (last matches Some(s) && s@ == name) && (up matches Some(s) && s@.len() == 0),
{
    reveal_strlit(".");
    reveal_strlit("..");
    let by = path::separators(os);
    lemma_name_is_one_part(os, name);
    assert(!parts_here(os, name[0]));
    if name == "."@ {
        assert(name =~= seq!['.']);
    }
    if name == ".."@ {
        assert(name =~= seq!['.', '.']);
    }
    if p@ == seq!['/'] + name {
        path::lemma_spans_behind(seq!['/'], name, by, false, 0);
        let s = path::part_places(os, p@);
        assert(p@[0] == '/');
        assert(s =~= seq![(1int, p@.len() as int)]);
        assert(p@.subrange(1, p@.len() as int) =~= name);
        assert(path::parts(os, p@).last() == name);
        assert(!path::has_dot(os, p@));
        assert(p@.take(1) =~= seq!['/']);
    }
    if p@ == name {
        let s = path::part_places(os, p@);
        assert(s =~= seq![(0int, p@.len() as int)]);
        assert(name.subrange(0, name.len() as int) =~= name);
        assert(path::parts(os, p@).last() == name);
        if path::has_dot(os, p@) {
            if name.len() == 1 {
                assert(name =~= seq!['.']);
            } else {
                assert(!parts_here(os, name[1]));
            }
        }
        assert(p@.take(0) =~= seq![]);
    }
}

/// A file is put into its directory so that both are found in its path again.
pub proof fn law_a_name_is_put_into_its_directory(
    os: Platform,
    dir: &str,
    name: &str,
    r: String,
    p: &str,
    last: Option<String>,
    up: Option<String>,
)
    requires
        is_name(os, name@),
        is_dir(os, dir@),
        call_ensures(path::join_name, (os, dir, name), r),
        p@ == r@,
        call_ensures(path::file_name, (os, p), last),
        call_ensures(path::parent_of, (os, p), up),
    ensures
        os != Platform::Windows ==> r@ == dir@.push('/') + name@,
        os == Platform::Windows ==> r@ == dir@.push('\\') + name@,
        last matches Some(s) && s@ == name@,
        up matches Some(s) && s@ == dir@,
{
    reveal_strlit("/");
    reveal_strlit("\\");
    assert(dir@ + "/"@ + name@ =~= dir@.push('/') + name@);
    assert(dir@ + "\\"@ + name@ =~= dir@.push('\\') + name@);
    let c = if os == Platform::Windows {
        '\\'
    } else {
        '/'
    };
    lemma_parts_of_file(os, dir@, c, name@);
    if os == Platform::Windows {
        assert(path::drive_at(dir@, 0));
    }
    reveal_strlit(".");
    reveal_strlit("..");
    let d = dir@;
    let s = path::part_places(os, p@);
    assert(p@.subrange(d.len() + 1int, p@.len() as int) =~= name@);
    assert(path::parts(os, p@).last() == name@);
    if name@ == "."@ {
        assert(name@ =~= seq!['.']);
    }
    if name@ == ".."@ {
        assert(name@ =~= seq!['.', '.']);
    }
    assert(s[s.len() - 2] == path::part_places(os, d).last());
    assert(p@.take(d.len() as int) =~= d);
}

/// Directory and name are joined by one slash, which is not doubled where the directory
/// ends with a separator; for a download without a directory the name stands alone, for a
/// task it stands in the root.
pub proof fn law_directory_and_name_are_joined(
    dir: &str,
    name: &str,
    task_path: String,
    download: String,
)
    requires
        call_ensures(task::join_dir, (dir, name), task_path),
        call_ensures(kget::join_path, (dir, name), download),
    ensures
        dir@.len() > 0 && dir@.last() != '/' && dir@.last() != '\\' ==> task_path@ == dir@.push('/')
            + name@ && download@ == dir@.push('/') + name@,
        dir@.len() > 0 && (dir@.last() == '/' || dir@.last() == '\\') ==> task_path@ == dir@ + name@
            && download@ == dir@ + name@,
        dir@.len() == 0 ==> download@ == name@ && task_path@ == seq!['/'] + name@,
{
    reveal_strlit("/");
    assert(dir@ + "/"@ + name@ =~= dir@.push('/') + name@);
    if dir@.len() == 0 {
        assert(task_path@ =~= seq!['/'] + name@);
    }
}

/// A text that is not empty and holds no separator.
pub open spec fn plain(s: Seq<char>) -> bool {
    s.len() > 0 && forall|i: int| 0 <= i < s.len() ==> #[trigger] s[i] != '/' && s[i] != '\\'
}

/// On Windows a server and its share are no file and have nothing above them, however they
/// are written; a file in a share has its name, and the share above it.
pub proof fn law_a_share_is_no_file(
    server: Seq<char>,
    share: Seq<char>,
    name: Seq<char>,
    p: &str,
    last: Option<String>,
    up: Option<String>,
)
    requires
        plain(server) && plain(share),
        server != seq!['?'] && server != seq!['.'],
        is_name(Platform::Windows, name),
        call_ensures(path::file_name, (Platform::Windows, p), last),
        call_ensures(path::parent_of, (Platform::Windows, p), up),
    ensures
        p@ == seq!['\\', '\\'] + server.push('\\') + share ==> last is None && up is None,
        p@ == seq!['\\', '\\', '?', '\\', 'U', 'N', 'C', '\\'] + server.push('\\') + share
            ==> last is None && up is None,
        p@ == (seq!['\\', '\\'] + server.push('\\') + share).push('\\') + name ==> (last matches Some(
            s,
        ) && s@ == name) && (up matches Some(s) && s@ == (seq!['\\', '\\'] + server.push('\\')
            + share).push('\\')),
{
    let os = Platform::Windows;
    let short = seq!['\\', '\\'] + server.push('\\') + share;
    let long = seq!['\\', '\\', '?', '\\', 'U', 'N', 'C', '\\'] + server.push('\\') + share;
    if p@ == short {
        lemma_share(p@, 2, server, share, Separators::Either);
        lemma_short_server(p@, server);
        assert(path::part_places(os, p@) =~= seq![]);
    }
    if p@ == long {
        lemma_share(p@, 8, server, share, Separators::Backslash);
        assert(p@[4] == 'U' && p@[5] == 'N' && p@[6] == 'C' && p@[7] == '\\');
        assert(path::marked_verbatim(p@));
        assert(path::part_places(os, p@) =~= seq![]);
    }
    if p@ == short.push('\\') + name {
        let q = short.push('\\');
        lemma_share(p@, 2, server, share, Separators::Either);
        lemma_short_server(p@, server);
        assert(p@[short.len() as int] == '\\');
        lemma_name_is_one_part(os, name);
        path::lemma_spans_behind(q, name, Separators::Either, false, 0);
        assert(path::part_places(os, p@) =~= seq![(q.len() as int, p@.len() as int)]);
        assert(p@.subrange(q.len() as int, p@.len() as int) =~= name);
        assert(path::parts(os, p@).last() == name);
        reveal_strlit(".");
        reveal_strlit("..");
        if name == "."@ {
            assert(name =~= seq!['.']);
        }
        if name == ".."@ {
            assert(name =~= seq!['.', '.']);
        }
        assert(p@.take(q.len() as int) =~= q);
    }
}

/// The server that begins at `at`, and its share.
proof fn lemma_share(p: Seq<char>, at: int, server: Seq<char>, share: Seq<char>, by: Separators)
    requires
        plain(server) && plain(share),
        0 <= at,
        by == Separators::Either || by == Separators::Backslash,
        p.len() >= at + server.len() + 1 + share.len(),
        p.subrange(at, at + server.len()) =~= server,
        p[at + server.len()] == '\\',
        p.subrange(at + server.len() + 1, at + server.len() + 1 + share.len()) =~= share,
        p.len() > at + server.len() + 1 + share.len() ==> p[at + server.len() + 1 + share.len()]
            == '\\',
    ensures
        path::next_separator(p, by, at) == at + server.len(),
        path::next_separator(p, by, at + server.len() + 1) == at + server.len() + 1 + share.len(),
{
    let mid = at + server.len();
    let to = mid + 1 + share.len();
    assert forall|j: int| at <= j < mid implies !by.has(#[trigger] p[j]) by {
        assert(p.subrange(at, mid)[j - at] == server[j - at]);
    }
    assert forall|j: int| mid + 1 <= j < to implies !by.has(#[trigger] p[j]) by {
        assert(p.subrange(mid + 1, to)[j - mid - 1] == share[j - mid - 1]);
    }
    path::lemma_next_separator_is(p, by, at, mid);
    path::lemma_next_separator_is(p, by, mid + 1, to);
}

/// A server behind two backslashes is neither a mark nor a device.
proof fn lemma_short_server(p: Seq<char>, server: Seq<char>)
    requires
        plain(server),
        server != seq!['?'] && server != seq!['.'],
        p.len() > server.len() + 3,
        p[0] == '\\' && p[1] == '\\',
        p.subrange(2, 2 + server.len() as int) =~= server,
        p[2 + server.len() as int] == '\\',
    ensures
        !path::marked_verbatim(p),
        !(p[2] == '.' && Separators::Either.has(p[3])),
{
    assert(p.subrange(2, 2 + server.len() as int)[0] == server[0]);
    if server.len() == 1 {
        assert(server[0] != '?') by {
            if server[0] == '?' {
                assert(server =~= seq!['?']);
            }
        }
        assert(server[0] != '.') by {
            if server[0] == '.' {
                assert(server =~= seq!['.']);
            }
        }
    } else {
        assert(p.subrange(2, 2 + server.len() as int)[1] == server[1]);
    }
}

/// In a directory that is taken as it is written only the backslash separates: a name is
/// put behind one, also where the directory ends with a slash.
pub proof fn law_a_name_in_a_marked_directory(
    a: Seq<char>,
    b: Seq<char>,
    dir: &str,
    name: &str,
    r: String,
)
    requires
        plain(a),
        a != seq!['U', 'N', 'C'],
        !(a.len() == 2 && a[1] == ':'),
        b.len() > 0,
        forall|i: int| 0 <= i < b.len() ==> #[trigger] b[i] != '\\',
        dir@ == seq!['\\', '\\', '?', '\\'] + a.push('\\') + b,
        call_ensures(path::join_name, (Platform::Windows, dir, name), r),
    ensures
        r@ == dir@.push('\\') + name@,
{
    let os = Platform::Windows;
    let d = dir@;
    let by = Separators::Backslash;
    let mid = 4 + a.len() as int;
    let n = d.len() as int;
    assert(d.subrange(4, mid) =~= a);
    assert forall|j: int| 4 <= j < mid implies #[trigger] d[j] == a[j - 4] by {}
    assert forall|j: int| mid + 1 <= j < n implies #[trigger] d[j] == b[j - mid - 1] by {}
    path::lemma_next_separator_is(d, by, 4, mid);
    path::lemma_next_separator_is(d, by, mid + 1, n);
    assert(path::marked_verbatim(d));
    if path::marked_server(d) {
        assert(a.len() >= 3) by {
            assert(d[mid] == '\\');
        }
        if a.len() > 3 {
            assert(d[7] == a[3]);
        }
        assert(a =~= seq!['U', 'N', 'C']);
    }
    if a.len() >= 3 {
        assert(d[6] == a[2]);
    }
    if a.len() == 1 {
        assert(d[5] == '\\');
    }
    assert(path::spans(d, by, true, n + 1) =~= seq![]);
    let s = path::part_places(os, d);
    assert(s =~= seq![(mid + 1, n)]);
    assert(s.drop_last() =~= seq![]);
    assert(path::backslashed(d, seq![]) =~= seq![]);
    reveal_strlit("\\");
    assert(path::backslashed(d, s) =~= seq!['\\'] + d.subrange(mid + 1, n));
    assert(d.take(mid) + path::backslashed(d, s) =~= d);
    assert(r@ =~= d.push('\\') + name@);
}

} // verus!
