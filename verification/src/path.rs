//! Paths as the platforms write them: their prefix and root, their parts, and what
//! is left of a path below a directory. Everywhere but on Windows the slash alone
//! separates parts. On Windows the backslash does too, and a path may begin with a
//! drive, a server or a device; behind the mark `\\?\` the backslash separates alone
//! and a lone dot is a part like any other.

use vstd::prelude::*;

use crate::config::Platform;
use crate::text::{self, chars_of, sub_chars, text_of};

verus! {

/// The characters that separate the parts of a path.
#[derive(Debug, Clone, Copy, PartialEq, Eq, Structural)]
pub enum Separators {
    Slash,
    Backslash,
    Either,
}

impl Separators {
    /// Whether `c` is one of them.
    pub open spec fn has(self, c: char) -> bool {
        match self {
            Separators::Slash => c == '/',
            Separators::Backslash => c == '\\',
            Separators::Either => c == '/' || c == '\\',
        }
    }

    /// Whether `c` is one of them.
    fn holds(self, c: char) -> (r: bool)
        ensures
            r == self.has(c),
    {
        match self {
            Separators::Slash => c == '/',
            Separators::Backslash => c == '\\',
            Separators::Either => c == '/' || c == '\\',
        }
    }
}

/// What separates parts on a platform.
pub open spec fn separators(os: Platform) -> Separators {
    if os == Platform::Windows {
        Separators::Either
    } else {
        Separators::Slash
    }
}

/// The first separator of `p` at or after `from`, or the length of `p`.
pub open spec fn next_separator(p: Seq<char>, by: Separators, from: int) -> int
    decreases p.len() - from,
{
    if from < 0 || from >= p.len() {
        p.len() as int
    } else if by.has(p[from]) {
        from
    } else {
        next_separator(p, by, from + 1)
    }
}

/// Before `next_separator` none stands, and at it one stands unless it is the end.
pub proof fn lemma_next_separator(p: Seq<char>, by: Separators, from: int)
    requires
        0 <= from <= p.len(),
    ensures
        from <= next_separator(p, by, from) <= p.len(),
        forall|j: int| from <= j < next_separator(p, by, from) ==> !by.has(#[trigger] p[j]),
        next_separator(p, by, from) < p.len() ==> by.has(p[next_separator(p, by, from)]),
    decreases p.len() - from,
{
    if from < p.len() && !by.has(p[from]) {
        lemma_next_separator(p, by, from + 1);
    }
}

/// The converse of `lemma_next_separator`.
pub proof fn lemma_next_separator_is(p: Seq<char>, by: Separators, from: int, to: int)
    requires
        0 <= from <= to <= p.len(),
        forall|j: int| from <= j < to ==> !by.has(#[trigger] p[j]),
        to < p.len() ==> by.has(p[to]),
    ensures
        next_separator(p, by, from) == to,
    decreases to - from,
{
    if from < to {
        assert(!by.has(p[from]));
        lemma_next_separator_is(p, by, from + 1, to);
    }
}

/// The first separator of `p` at or after `from`, or the length of `p`.
fn separator_from(p: &Vec<char>, by: Separators, from: usize) -> (r: usize)
    requires
        from <= p@.len(),
    ensures
        r == next_separator(p@, by, from as int),
        from <= r <= p@.len(),
{
    let mut i: usize = from;
    while i < p.len() && !by.holds(p[i])
        invariant
            from <= i <= p@.len(),
            forall|j: int| from <= j < i ==> !by.has(#[trigger] p@[j]),
        decreases p@.len() - i,
    {
        i += 1;
    }
    proof {
        lemma_next_separator_is(p@, by, from as int, i as int);
    }
    i
}

/// The kinds of prefixes that a path on Windows begins with.
#[derive(Debug, Clone, Copy, PartialEq, Eq, Structural)]
pub enum PrefixKind {
    /// No prefix.
    Absent,
    /// `C:`
    Drive,
    /// `\\server\share`
    Server,
    /// `\\.\COM42`
    Device,
    /// `\\?\pictures`
    Verbatim,
    /// `\\?\C:`
    VerbatimDrive,
    /// `\\?\UNC\server\share`
    VerbatimServer,
}

impl PrefixKind {
    /// Whether what follows is taken as it is written.
    pub open spec fn verbatim(self) -> bool {
        self == PrefixKind::Verbatim || self == PrefixKind::VerbatimDrive || self
            == PrefixKind::VerbatimServer
    }

    /// Whether the prefix stands for a root by itself.
    pub open spec fn implies_root(self) -> bool {
        self == PrefixKind::Server || self == PrefixKind::Device
    }
}

/// The prefix of a path.
struct Prefix {
    kind: PrefixKind,
    len: usize,
    name: String,
    share: String,
}

/// What a `Prefix` stands for: its kind, how many characters it takes, and what it
/// names. Two prefixes are the same where their kinds and names are.
pub struct PrefixView {
    pub kind: PrefixKind,
    pub len: int,
    /// The drive in upper case, the server, the device, or what else is named.
    pub name: Seq<char>,
    /// The share of a server.
    pub share: Seq<char>,
}

impl View for Prefix {
    type V = PrefixView;

    closed spec fn view(&self) -> PrefixView {
        PrefixView {
            kind: self.kind,
            len: self.len as int,
            name: self.name@,
            share: self.share@,
        }
    }
}

/// No prefix.
pub open spec fn no_prefix() -> PrefixView {
    PrefixView { kind: PrefixKind::Absent, len: 0, name: seq![], share: seq![] }
}

/// Whether a drive letter and a colon stand at `at`.
pub open spec fn drive_at(p: Seq<char>, at: int) -> bool {
    at + 1 < p.len() && ('a' <= p[at] <= 'z' || 'A' <= p[at] <= 'Z') && p[at + 1] == ':'
}

/// The prefix of this kind whose name begins at `at`.
pub open spec fn named_prefix(
    p: Seq<char>,
    at: int,
    by: Separators,
    kind: PrefixKind,
) -> PrefixView {
    let to = next_separator(p, by, at);
    PrefixView { kind, len: to, name: p.subrange(at, to), share: seq![] }
}

/// The prefix of this kind whose server begins at `at`.
pub open spec fn server_prefix(
    p: Seq<char>,
    at: int,
    by: Separators,
    kind: PrefixKind,
) -> PrefixView {
    let mid = next_separator(p, by, at);
    let to = next_separator(p, by, mid + 1);
    let share = if mid < p.len() {
        p.subrange(mid + 1, to)
    } else {
        seq![]
    };
    PrefixView {
        kind,
        len: if share.len() > 0 {
            to
        } else {
            mid
        },
        name: p.subrange(at, mid),
        share,
    }
}

/// Whether a path begins with the mark `\\?\`.
pub open spec fn marked_verbatim(p: Seq<char>) -> bool {
    p.len() >= 4 && p[0] == '\\' && p[1] == '\\' && p[2] == '?' && p[3] == '\\'
}

/// Whether `UNC` and a separator follow the mark.
pub open spec fn marked_server(p: Seq<char>) -> bool {
    p.len() >= 8 && p[4] == 'U' && p[5] == 'N' && p[6] == 'C' && Separators::Either.has(p[7])
}

/// The prefix of a path on Windows.
pub open spec fn windows_prefix(p: Seq<char>) -> PrefixView {
    let either = Separators::Either;
    if marked_verbatim(p) {
        if marked_server(p) {
            server_prefix(p, 8, Separators::Backslash, PrefixKind::VerbatimServer)
        } else if drive_at(p, 4) && (p.len() == 6 || either.has(p[6])) {
            PrefixView {
                kind: PrefixKind::VerbatimDrive,
                len: 6,
                name: seq![text::upper_char(p[4])],
                share: seq![],
            }
        } else {
            named_prefix(p, 4, Separators::Backslash, PrefixKind::Verbatim)
        }
    } else if p.len() >= 2 && either.has(p[0]) && either.has(p[1]) {
        if p.len() >= 4 && p[2] == '.' && either.has(p[3]) {
            named_prefix(p, 4, either, PrefixKind::Device)
        } else {
            let found = server_prefix(p, 2, either, PrefixKind::Server);
            if found.name.len() > 0 && found.share.len() > 0 {
                found
            } else {
                no_prefix()
            }
        }
    } else if drive_at(p, 0) {
        PrefixView {
            kind: PrefixKind::Drive,
            len: 2,
            name: seq![text::upper_char(p[0])],
            share: seq![],
        }
    } else {
        no_prefix()
    }
}

/// The prefix of a path.
pub open spec fn prefix(os: Platform, p: Seq<char>) -> PrefixView {
    if os == Platform::Windows {
        windows_prefix(p)
    } else {
        no_prefix()
    }
}

/// A prefix lies within its path.
proof fn lemma_prefix(os: Platform, p: Seq<char>)
    ensures
        0 <= prefix(os, p).len <= p.len(),
        prefix(os, p).kind == PrefixKind::Absent ==> prefix(os, p) == no_prefix(),
{
    let backslash = Separators::Backslash;
    let either = Separators::Either;
    if p.len() >= 8 {
        lemma_next_separator(p, backslash, 8);
        let mid = next_separator(p, backslash, 8);
        if mid < p.len() {
            lemma_next_separator(p, backslash, mid + 1);
        }
    }
    if p.len() >= 4 {
        lemma_next_separator(p, backslash, 4);
        lemma_next_separator(p, either, 4);
    }
    if p.len() >= 2 {
        lemma_next_separator(p, either, 2);
        let mid = next_separator(p, either, 2);
        if mid < p.len() {
            lemma_next_separator(p, either, mid + 1);
        }
    }
}

/// The characters `from..to` as text.
fn piece(p: &Vec<char>, from: usize, to: usize) -> (r: String)
    requires
        from <= to <= p@.len(),
    ensures
        r@ == p@.subrange(from as int, to as int),
{
    text_of(&sub_chars(p, from, to))
}

/// No text.
fn nothing() -> (r: String)
    ensures
        r@ == Seq::<char>::empty(),
{
    let r = String::new();
    proof {
        assert(r@ =~= seq![]);
    }
    r
}

/// A drive letter in upper case, as text.
fn drive_name(p: &Vec<char>, at: usize) -> (r: String)
    requires
        at < p@.len(),
        at <= 4,
    ensures
        r@ == seq![text::upper_char(p@[at as int])],
{
    let r = text::to_ascii_upper(piece(p, at, at + 1).as_str());
    proof {
        assert(r@ =~= seq![text::upper_char(p@[at as int])]);
    }
    r
}

/// Whether a drive letter and a colon stand at `at`.
fn has_drive(p: &Vec<char>, at: usize) -> (r: bool)
    requires
        at <= 4,
    ensures
        r == drive_at(p@, at as int),
{
    at + 1 < p.len() && ((p[at] >= 'a' && p[at] <= 'z') || (p[at] >= 'A' && p[at] <= 'Z')) && p[at
        + 1] == ':'
}

/// No prefix.
fn without_prefix() -> (r: Prefix)
    ensures
        r@ == no_prefix(),
{
    Prefix { kind: PrefixKind::Absent, len: 0, name: nothing(), share: nothing() }
}

/// The prefix of this kind whose name begins at `at`.
fn named_at(p: &Vec<char>, at: usize, by: Separators, kind: PrefixKind) -> (r: Prefix)
    requires
        at <= p@.len(),
    ensures
        r@ == named_prefix(p@, at as int, by, kind),
{
    let to: usize = separator_from(p, by, at);
    Prefix { kind, len: to, name: piece(p, at, to), share: nothing() }
}

/// The prefix of this kind whose server begins at `at`.
fn server_at(p: &Vec<char>, at: usize, by: Separators, kind: PrefixKind) -> (r: Prefix)
    requires
        at <= p@.len(),
    ensures
        r@ == server_prefix(p@, at as int, by, kind),
{
    let mid: usize = separator_from(p, by, at);
    if mid < p.len() {
        let to: usize = separator_from(p, by, mid + 1);
        let len: usize = if to > mid + 1 {
            to
        } else {
            mid
        };
        Prefix { kind, len, name: piece(p, at, mid), share: piece(p, mid + 1, to) }
    } else {
        Prefix { kind, len: mid, name: piece(p, at, mid), share: nothing() }
    }
}

/// The prefix of a path on Windows.
fn windows_prefix_of(p: &Vec<char>) -> (r: Prefix)
    ensures
        r@ == windows_prefix(p@),
{
    let either = Separators::Either;
    if p.len() >= 4 && p[0] == '\\' && p[1] == '\\' && p[2] == '?' && p[3] == '\\' {
        if p.len() >= 8 && p[4] == 'U' && p[5] == 'N' && p[6] == 'C' && either.holds(p[7]) {
            server_at(p, 8, Separators::Backslash, PrefixKind::VerbatimServer)
        } else if has_drive(p, 4) && (p.len() == 6 || either.holds(p[6])) {
            Prefix {
                kind: PrefixKind::VerbatimDrive,
                len: 6,
                name: drive_name(p, 4),
                share: nothing(),
            }
        } else {
            named_at(p, 4, Separators::Backslash, PrefixKind::Verbatim)
        }
    } else if p.len() >= 2 && either.holds(p[0]) && either.holds(p[1]) {
        if p.len() >= 4 && p[2] == '.' && either.holds(p[3]) {
            named_at(p, 4, either, PrefixKind::Device)
        } else {
            let found = server_at(p, 2, either, PrefixKind::Server);
            if !found.name.as_str().is_empty() && !found.share.as_str().is_empty() {
                found
            } else {
                without_prefix()
            }
        }
    } else if has_drive(p, 0) {
        Prefix { kind: PrefixKind::Drive, len: 2, name: drive_name(p, 0), share: nothing() }
    } else {
        without_prefix()
    }
}

/// Whether a separator follows the prefix.
pub open spec fn has_root(os: Platform, p: Seq<char>) -> bool {
    let n = prefix(os, p).len;
    n < p.len() && separators(os).has(p[n])
}

/// Whether a path begins at a root.
pub open spec fn rooted(os: Platform, p: Seq<char>) -> bool {
    has_root(os, p) || prefix(os, p).kind.implies_root()
}

/// Whether a lone dot stands before the parts, behind a drive at most.
pub open spec fn has_dot(os: Platform, p: Seq<char>) -> bool {
    let x = prefix(os, p);
    &&& x.kind == PrefixKind::Absent || x.kind == PrefixKind::Drive
    &&& x.len < p.len() && p[x.len] == '.'
    &&& p.len() == x.len + 1 || separators(os).has(p[x.len + 1])
}

/// Whether a path begins with a lone dot.
pub open spec fn dotted(os: Platform, p: Seq<char>) -> bool {
    has_dot(os, p) && prefix(os, p).kind == PrefixKind::Absent
}

/// Where the parts of a path may begin.
pub open spec fn body_at(os: Platform, p: Seq<char>) -> int {
    prefix(os, p).len + if has_root(os, p) {
        1int
    } else {
        0
    }
}

/// Where the prefix, the root and the lone dot at the front of a path end.
pub open spec fn front_end(os: Platform, p: Seq<char>) -> int {
    body_at(os, p) + if has_dot(os, p) {
        1int
    } else {
        0
    }
}

/// What separates the parts of a path with this prefix.
pub open spec fn part_separators(os: Platform, kind: PrefixKind) -> Separators {
    if kind.verbatim() {
        Separators::Backslash
    } else {
        separators(os)
    }
}

/// Whether the characters `from..to` of a path are one of its parts: not empty,
/// and not a lone dot unless dots count.
pub open spec fn is_part(p: Seq<char>, dots: bool, from: int, to: int) -> bool {
    from < to && (dots || !(to == from + 1 && p[from] == '.'))
}

/// Where the parts of a path lie, from `from` on.
pub open spec fn spans(p: Seq<char>, by: Separators, dots: bool, from: int) -> Seq<(int, int)>
    decreases p.len() + 2 - from,
    via spans_decreases
{
    let to = next_separator(p, by, from);
    if from < 0 || from >= p.len() {
        seq![]
    } else if is_part(p, dots, from, to) {
        seq![(from, to)] + spans(p, by, dots, to + 1)
    } else {
        spans(p, by, dots, to + 1)
    }
}

#[via_fn]
proof fn spans_decreases(p: Seq<char>, by: Separators, dots: bool, from: int) {
    if 0 <= from < p.len() {
        lemma_next_separator(p, by, from);
    }
}

/// Where the parts of a path lie.
pub open spec fn part_places(os: Platform, p: Seq<char>) -> Seq<(int, int)> {
    let kind = prefix(os, p).kind;
    spans(p, part_separators(os, kind), kind.verbatim(), body_at(os, p))
}

/// The texts of the parts of a path.
pub open spec fn parts(os: Platform, p: Seq<char>) -> Seq<Seq<char>> {
    let s = part_places(os, p);
    Seq::new(s.len(), |i: int| p.subrange(s[i].0, s[i].1))
}

/// Whether two paths begin with the same prefix.
pub open spec fn same_prefix(os: Platform, p: Seq<char>, q: Seq<char>) -> bool {
    let x = prefix(os, p);
    let y = prefix(os, q);
    x.kind == y.kind && x.name == y.name && x.share == y.share
}

/// Whether a path is a prefix alone, or empty.
pub open spec fn bare(os: Platform, p: Seq<char>) -> bool {
    !rooted(os, p) && !dotted(os, p) && parts(os, p).len() == 0
}

/// Whether `dir` is the path `p` itself or one above it.
pub open spec fn is_above(os: Platform, dir: Seq<char>, p: Seq<char>) -> bool {
    if bare(os, dir) {
        prefix(os, dir).kind == PrefixKind::Absent || same_prefix(os, dir, p)
    } else {
        &&& same_prefix(os, dir, p)
        &&& rooted(os, dir) == rooted(os, p)
        &&& dotted(os, dir) == dotted(os, p)
        &&& parts(os, dir).len() <= parts(os, p).len()
        &&& parts(os, p).take(parts(os, dir).len() as int) == parts(os, dir)
    }
}

/// Where the last part of a path ends, or what stands before the parts where there
/// are none.
pub open spec fn parts_end(os: Platform, p: Seq<char>) -> int {
    let s = part_places(os, p);
    if s.len() > 0 {
        s.last().1
    } else {
        front_end(os, p)
    }
}

/// What is left of the path `p` below `dir`; `None` where `dir` is not above it.
/// Below a prefix alone the root and the dot are left too.
pub open spec fn below(os: Platform, p: Seq<char>, dir: Seq<char>) -> Option<Seq<char>> {
    let s = part_places(os, p);
    let n = parts(os, dir).len() as int;
    if !is_above(os, dir, p) {
        None
    } else if bare(os, dir) {
        let from = if prefix(os, dir).kind == PrefixKind::Absent {
            0
        } else {
            prefix(os, p).len
        };
        Some(p.subrange(from, parts_end(os, p)))
    } else if n >= s.len() {
        Some(seq![])
    } else {
        Some(p.subrange(s[n].0, s.last().1))
    }
}

/// The last part of a path, unless it is a dot, leads upwards or there is none.
pub open spec fn last_part(os: Platform, p: Seq<char>) -> Option<Seq<char>> {
    let names = parts(os, p);
    if names.len() > 0 && names.last() != "."@ && names.last() != ".."@ {
        Some(names.last())
    } else {
        None
    }
}

/// The path without its last part; `None` where there is a prefix or a root at
/// most.
pub open spec fn parent(os: Platform, p: Seq<char>) -> Option<Seq<char>> {
    let s = part_places(os, p);
    if s.len() >= 2 {
        Some(p.take(s[s.len() - 2].1))
    } else if s.len() == 1 {
        Some(p.take(front_end(os, p)))
    } else if dotted(os, p) {
        Some(seq![])
    } else {
        None
    }
}

/// The parts `s` of a path, each with a backslash before it.
pub open spec fn backslashed(p: Seq<char>, s: Seq<(int, int)>) -> Seq<char>
    decreases s.len(),
{
    if s.len() == 0 {
        seq![]
    } else {
        backslashed(p, s.drop_last()).push('\\') + p.subrange(s.last().0, s.last().1)
    }
}

/// Where the file `name` lies in the directory `dir`; the name holds neither
/// separators nor colons. A directory that is taken as it is written is put
/// together from its parts anew.
pub open spec fn in_dir(os: Platform, dir: Seq<char>, name: Seq<char>) -> Seq<char> {
    let x = prefix(os, dir);
    if x.kind.verbatim() {
        dir.take(x.len) + backslashed(dir, part_places(os, dir)) + "\\"@ + name
    } else if dir.len() == 0 || separators(os).has(dir.last()) || (x.kind == PrefixKind::Drive
        && x.len == dir.len()) {
        dir + name
    } else if os == Platform::Windows {
        dir + "\\"@ + name
    } else {
        dir + "/"@ + name
    }
}

/// Places, as numbers.
pub open spec fn places(v: Seq<(usize, usize)>) -> Seq<(int, int)> {
    Seq::new(v.len(), |i: int| (v[i].0 as int, v[i].1 as int))
}

/// Every part lies within the path, behind those before it.
pub proof fn lemma_spans(p: Seq<char>, by: Separators, dots: bool, from: int)
    requires
        0 <= from,
    ensures
        forall|i: int|
            0 <= i < spans(p, by, dots, from).len() ==> from <= (#[trigger] spans(
                p,
                by,
                dots,
                from,
            )[i]).0 < spans(p, by, dots, from)[i].1 <= p.len(),
        forall|i: int, j: int|
            0 <= i < j < spans(p, by, dots, from).len() ==> (#[trigger] spans(
                p,
                by,
                dots,
                from,
            )[i]).1 < (#[trigger] spans(p, by, dots, from)[j]).0,
    decreases p.len() + 2 - from,
{
    if from < p.len() {
        lemma_next_separator(p, by, from);
        let to = next_separator(p, by, from);
        lemma_spans(p, by, dots, to + 1);
        let rest = spans(p, by, dots, to + 1);
        let all = spans(p, by, dots, from);
        if is_part(p, dots, from, to) {
            assert forall|i: int| 0 <= i < all.len() implies from <= (#[trigger] all[i]).0
                < all[i].1 <= p.len() by {
                if i > 0 {
                    assert(all[i] == rest[i - 1]);
                }
            }
            assert forall|i: int, j: int| 0 <= i < j < all.len() implies (#[trigger] all[i]).1 < (
            #[trigger] all[j]).0 by {
                assert(all[j] == rest[j - 1]);
                if i > 0 {
                    assert(all[i] == rest[i - 1]);
                }
            }
        }
    }
}

/// Where the parts of a path lie, from `start` on.
fn spans_of(p: &Vec<char>, by: Separators, dots: bool, start: usize) -> (r: Vec<(usize, usize)>)
    requires
        start <= p@.len(),
    ensures
        places(r@) == spans(p@, by, dots, start as int),
{
    let ghost all = spans(p@, by, dots, start as int);
    let mut out: Vec<(usize, usize)> = Vec::new();
    let mut from: usize = start;
    proof {
        assert(places(out@) + all =~= all);
    }
    while from < p.len()
        invariant
            from <= p@.len(),
            places(out@) + spans(p@, by, dots, from as int) == all,
        decreases p@.len() - from,
    {
        let to: usize = separator_from(p, by, from);
        let ghost before = places(out@);
        let next: usize = if to < p.len() {
            to + 1
        } else {
            to
        };
        let ghost rest = spans(p@, by, dots, to + 1);
        proof {
            lemma_next_separator(p@, by, from as int);
            if to == p@.len() {
                assert(spans(p@, by, dots, to as int) =~= rest);
            }
        }
        if from < to && (dots || !(to == from + 1 && p[from] == '.')) {
            out.push((from, to));
            proof {
                assert(places(out@) =~= before.push((from as int, to as int)));
                assert(before + (seq![(from as int, to as int)] + rest) =~= places(out@) + rest);
            }
        }
        from = next;
    }
    proof {
        assert(places(out@) + Seq::<(int, int)>::empty() =~= places(out@));
    }
    out
}

/// A path, taken apart.
struct Outline {
    prefix: Prefix,
    rooted: bool,
    dotted: bool,
    front: usize,
    parts: Vec<(usize, usize)>,
}

impl Outline {
    /// Whether these are the pieces of the path `p`.
    spec fn outlines(&self, os: Platform, p: Seq<char>) -> bool {
        let s = part_places(os, p);
        &&& self.prefix@ == prefix(os, p)
        &&& self.rooted == rooted(os, p)
        &&& self.dotted == dotted(os, p)
        &&& self.front == front_end(os, p)
        &&& self.prefix@.len <= self.front <= p.len()
        &&& self.parts@.len() == s.len()
        &&& parts(os, p).len() == s.len()
        &&& forall|i: int|
            0 <= i < s.len() ==> (#[trigger] self.parts@[i]).0 == s[i].0 && self.parts@[i].1
                == s[i].1 && s[i].0 < s[i].1 <= p.len() && self.prefix@.len <= s[i].0
                && parts(os, p)[i] == p.subrange(s[i].0, s[i].1)
        &&& forall|i: int, j: int|
            0 <= i < j < s.len() ==> (#[trigger] self.parts@[i]).1 < (#[trigger] self.parts@[j]).0
    }
}

/// A path, taken apart.
fn outline(os: Platform, p: &Vec<char>) -> (r: Outline)
    ensures
        r.outlines(os, p@),
{
    let windows = os == Platform::Windows;
    let by = if windows {
        Separators::Either
    } else {
        Separators::Slash
    };
    let prefix = if windows {
        windows_prefix_of(p)
    } else {
        without_prefix()
    };
    proof {
        lemma_prefix(os, p@);
    }
    let n: usize = prefix.len;
    let kind = prefix.kind;
    let verbatim = kind == PrefixKind::Verbatim || kind == PrefixKind::VerbatimDrive || kind
        == PrefixKind::VerbatimServer;
    let root = n < p.len() && by.holds(p[n]);
    let dot = (kind == PrefixKind::Absent || kind == PrefixKind::Drive) && n < p.len() && p[n]
        == '.' && (n + 1 == p.len() || by.holds(p[n + 1]));
    let body: usize = if root {
        n + 1
    } else {
        n
    };
    let front: usize = if dot {
        body + 1
    } else {
        body
    };
    let between = if verbatim {
        Separators::Backslash
    } else {
        by
    };
    let spans = spans_of(p, between, verbatim, body);
    proof {
        lemma_spans(p@, between, verbatim, body as int);
        assert(body == body_at(os, p@));
        assert(front == front_end(os, p@));
        let s = part_places(os, p@);
        assert(places(spans@) == s);
        assert(places(spans@).len() == spans@.len());
        assert forall|i: int| 0 <= i < s.len() implies (#[trigger] spans@[i]).0 == s[i].0
            && spans@[i].1 == s[i].1 && s[i].0 < s[i].1 <= p@.len() && n <= s[i].0 && parts(
            os,
            p@,
        )[i] == p@.subrange(s[i].0, s[i].1) by {
            assert(places(spans@)[i] == s[i]);
        }
        assert forall|i: int, j: int| 0 <= i < j < s.len() implies (#[trigger] spans@[i]).1 < (
        #[trigger] spans@[j]).0 by {
            assert(places(spans@)[i] == s[i]);
            assert(places(spans@)[j] == s[j]);
        }
    }
    Outline {
        prefix,
        rooted: root || kind == PrefixKind::Server || kind == PrefixKind::Device,
        dotted: dot && kind == PrefixKind::Absent,
        front,
        parts: spans,
    }
}

/// Whether `p` at `a` and `q` at `b` hold the same part.
fn same_part(p: &Vec<char>, a: (usize, usize), q: &Vec<char>, b: (usize, usize)) -> (r: bool)
    requires
        a.0 <= a.1 <= p@.len(),
        b.0 <= b.1 <= q@.len(),
    ensures
        r == (p@.subrange(a.0 as int, a.1 as int) == q@.subrange(b.0 as int, b.1 as int)),
{
    text::same(piece(p, a.0, a.1).as_str(), piece(q, b.0, b.1).as_str())
}

/// What is left of a path below a directory.
pub fn strip_dir(os: Platform, path: &str, dir: &str) -> (r: Option<String>)
    ensures
        r.deep_view() == below(os, path@, dir@),
{
    let p = chars_of(path);
    let d = chars_of(dir);
    let of_path = outline(os, &p);
    let of_dir = outline(os, &d);
    let same = of_path.prefix.kind == of_dir.prefix.kind && text::same(
        of_path.prefix.name.as_str(),
        of_dir.prefix.name.as_str(),
    ) && text::same(of_path.prefix.share.as_str(), of_dir.prefix.share.as_str());
    if !of_dir.rooted && !of_dir.dotted && of_dir.parts.len() == 0 {
        let absent = of_dir.prefix.kind == PrefixKind::Absent;
        if !absent && !same {
            return None;
        }
        let from: usize = if absent {
            0
        } else {
            of_path.prefix.len
        };
        let to: usize = if of_path.parts.len() > 0 {
            of_path.parts[of_path.parts.len() - 1].1
        } else {
            of_path.front
        };
        return Some(piece(&p, from, to));
    }
    if !same || of_path.rooted != of_dir.rooted || of_path.dotted != of_dir.dotted
        || of_dir.parts.len() > of_path.parts.len() {
        return None;
    }
    let mut i: usize = 0;
    while i < of_dir.parts.len()
        invariant
            i <= of_dir.parts@.len() <= of_path.parts@.len(),
            of_path.outlines(os, p@),
            of_dir.outlines(os, d@),
            !bare(os, d@),
            p@ == path@,
            d@ == dir@,
            forall|k: int| 0 <= k < i ==> #[trigger] parts(os, p@)[k] == parts(os, d@)[k],
        decreases of_dir.parts@.len() - i,
    {
        if !same_part(&p, of_path.parts[i], &d, of_dir.parts[i]) {
            proof {
                assert(parts(os, p@)[i as int] != parts(os, d@)[i as int]);
                assert(parts(os, p@).take(parts(os, d@).len() as int)[i as int] == parts(
                    os,
                    p@,
                )[i as int]);
            }
            return None;
        }
        i += 1;
    }
    proof {
        assert(parts(os, p@).take(parts(os, d@).len() as int) =~= parts(os, d@));
    }
    if of_dir.parts.len() == of_path.parts.len() {
        return Some(nothing());
    }
    let n: usize = of_dir.parts.len();
    let last: usize = of_path.parts.len() - 1;
    proof {
        if n < last {
            assert(of_path.parts@[n as int].1 < of_path.parts@[last as int].0);
        }
    }
    Some(piece(&p, of_path.parts[n].0, of_path.parts[last].1))
}

/// The last part of a path.
pub fn file_name(os: Platform, path: &str) -> (r: Option<String>)
    ensures
        r.deep_view() == last_part(os, path@),
{
    let p = chars_of(path);
    let o = outline(os, &p);
    if o.parts.len() == 0 {
        return None;
    }
    let last: usize = o.parts.len() - 1;
    let name = piece(&p, o.parts[last].0, o.parts[last].1);
    if text::same(name.as_str(), ".") || text::same(name.as_str(), "..") {
        None
    } else {
        Some(name)
    }
}

/// The path without its last part.
pub fn parent_of(os: Platform, path: &str) -> (r: Option<String>)
    ensures
        r.deep_view() == parent(os, path@),
{
    let p = chars_of(path);
    let o = outline(os, &p);
    let n: usize = o.parts.len();
    if n == 0 {
        return if o.dotted {
            Some(nothing())
        } else {
            None
        };
    }
    let to: usize = if n >= 2 {
        o.parts[n - 2].1
    } else {
        o.front
    };
    let up = piece(&p, 0, to);
    proof {
        assert(up@ =~= path@.take(to as int));
    }
    Some(up)
}

/// Where the file `name` lies in the directory `dir`.
pub fn join_name(os: Platform, dir: &str, name: &str) -> (r: String)
    ensures
        r@ == in_dir(os, dir@, name@),
{
    let d = chars_of(dir);
    let o = outline(os, &d);
    let kind = o.prefix.kind;
    if kind == PrefixKind::Verbatim || kind == PrefixKind::VerbatimDrive || kind
        == PrefixKind::VerbatimServer {
        let mut out = piece(&d, 0, o.prefix.len);
        let ghost head = d@.take(o.prefix.len as int);
        let ghost s = part_places(os, d@);
        let mut i: usize = 0;
        proof {
            assert(out@ =~= head + backslashed(d@, s.take(0)));
        }
        while i < o.parts.len()
            invariant
                i <= o.parts@.len(),
                o.outlines(os, d@),
                s == part_places(os, d@),
                out@ == head + backslashed(d@, s.take(i as int)),
            decreases o.parts@.len() - i,
        {
            let part = piece(&d, o.parts[i].0, o.parts[i].1);
            let ghost before = out@;
            out.push('\\');
            out.append(part.as_str());
            proof {
                let upto = s.take(i + 1);
                assert(upto.drop_last() =~= s.take(i as int));
                assert(upto.last() == s[i as int]);
                assert(out@ =~= head + backslashed(d@, upto));
            }
            i += 1;
        }
        proof {
            assert(s.take(i as int) =~= s);
        }
        return text::join3(out.as_str(), "\\", name);
    }
    let windows = os == Platform::Windows;
    let ended = d.len() == 0 || d[d.len() - 1] == '/' || (windows && d[d.len() - 1] == '\\');
    if ended || (kind == PrefixKind::Drive && o.prefix.len == d.len()) {
        text::join2(dir, name)
    } else if windows {
        text::join3(dir, "\\", name)
    } else {
        text::join3(dir, "/", name)
    }
}

/// The places of parts, moved along by `by`.
pub open spec fn moved(s: Seq<(int, int)>, by: int) -> Seq<(int, int)> {
    Seq::new(s.len(), |i: int| (s[i].0 + by, s[i].1 + by))
}

/// The parts that lie behind a beginning `h` are those of the rest.
pub proof fn lemma_spans_behind(h: Seq<char>, o: Seq<char>, by: Separators, dots: bool, from: int)
    requires
        0 <= from,
    ensures
        spans(h + o, by, dots, h.len() + from) == moved(spans(o, by, dots, from), h.len() as int),
    decreases o.len() + 2 - from,
{
    let p = h + o;
    let n = h.len() as int;
    if from < o.len() {
        lemma_next_separator(o, by, from);
        let to = next_separator(o, by, from);
        assert forall|j: int| n + from <= j < n + to implies !by.has(#[trigger] p[j]) by {
            assert(p[j] == o[j - n]);
        }
        lemma_next_separator_is(p, by, n + from, n + to);
        lemma_spans_behind(h, o, by, dots, to + 1);
    }
    assert(spans(p, by, dots, n + from) =~= moved(spans(o, by, dots, from), n));
}

/// The parts of a path are those of a beginning that ends with a separator, and
/// those of the rest.
pub proof fn lemma_spans_split(h: Seq<char>, o: Seq<char>, by: Separators, dots: bool, from: int)
    requires
        0 <= from <= h.len(),
        h.len() > 0,
        by.has(h.last()),
    ensures
        spans(h + o, by, dots, from) == spans(h, by, dots, from) + moved(
            spans(o, by, dots, 0),
            h.len() as int,
        ),
    decreases h.len() - from,
{
    let p = h + o;
    let tail = moved(spans(o, by, dots, 0), h.len() as int);
    if from == h.len() {
        lemma_spans_behind(h, o, by, dots, 0);
        assert(spans(h, by, dots, from) + tail =~= tail);
    } else {
        lemma_next_separator(h, by, from);
        let to = next_separator(h, by, from);
        assert(by.has(h[h.len() - 1]));
        assert(to < h.len());
        assert forall|j: int| from <= j < to implies !by.has(#[trigger] p[j]) by {
            assert(p[j] == h[j]);
        }
        lemma_next_separator_is(p, by, from, to);
        lemma_spans_split(h, o, by, dots, to + 1);
        assert(spans(p, by, dots, from) =~= spans(h, by, dots, from) + tail);
    }
}

/// A separator at the end of a path adds no part.
pub proof fn lemma_spans_closed(d: Seq<char>, c: char, by: Separators, dots: bool, from: int)
    requires
        0 <= from,
        by.has(c),
    ensures
        spans(d.push(c), by, dots, from) == spans(d, by, dots, from),
    decreases d.len() + 2 - from,
{
    let h = d.push(c);
    if from < d.len() {
        lemma_next_separator(d, by, from);
        let to = next_separator(d, by, from);
        assert forall|j: int| from <= j < to implies !by.has(#[trigger] h[j]) by {
            assert(h[j] == d[j]);
        }
        lemma_next_separator_is(h, by, from, to);
        lemma_spans_closed(d, c, by, dots, to + 1);
    } else if from == d.len() {
        lemma_next_separator_is(h, by, from, from);
        assert(spans(h, by, dots, from + 1) =~= seq![]);
    }
    assert(spans(h, by, dots, from) =~= spans(d, by, dots, from));
}

/// Where the parts of a path lie that stands behind a prefix of this kind.
pub open spec fn rest_places(os: Platform, kind: PrefixKind, o: Seq<char>) -> Seq<(int, int)> {
    spans(o, part_separators(os, kind), kind.verbatim(), 0)
}

/// How many parts such a path has.
pub open spec fn part_count(os: Platform, kind: PrefixKind, o: Seq<char>) -> nat {
    rest_places(os, kind, o).len()
}

/// Whether such a path begins with its first part and ends with its last.
pub open spec fn tidy(os: Platform, kind: PrefixKind, o: Seq<char>) -> bool {
    let s = rest_places(os, kind, o);
    s.len() > 0 && s[0].0 == 0 && s.last().1 == o.len()
}

/// A tidy path begins with a character that is no separator.
pub proof fn lemma_tidy_front(os: Platform, kind: PrefixKind, o: Seq<char>)
    requires
        tidy(os, kind, o),
    ensures
        o.len() > 0,
        !part_separators(os, kind).has(o[0]),
{
    let by = part_separators(os, kind);
    let dots = kind.verbatim();
    lemma_spans(o, by, dots, 0);
    assert(rest_places(os, kind, o)[0].0 < o.len());
    if by.has(o[0]) {
        lemma_next_separator_is(o, by, 0, 0);
        lemma_spans(o, by, dots, 1);
        assert(rest_places(os, kind, o) == spans(o, by, dots, 1));
        assert(spans(o, by, dots, 1)[0].0 >= 1);
    }
}

/// Where there are no prefixes, a path that is not empty is more than a prefix.
pub proof fn lemma_not_bare(os: Platform, p: Seq<char>)
    requires
        os != Platform::Windows,
        p.len() > 0,
    ensures
        !bare(os, p),
{
    if !rooted(os, p) && !dotted(os, p) {
        lemma_next_separator(p, separators(os), 0);
        assert(is_part(p, false, 0, next_separator(p, separators(os), 0)));
        assert(part_places(os, p).len() > 0);
    }
}

/// Whether the path `h + o` keeps apart what lies in the directory `d`, where `h` is
/// `d` or `d` and a slash: `d` is more than a prefix, `o` adds nothing to its prefix,
/// and `h` ends where a part may begin.
pub open spec fn joins(os: Platform, d: Seq<char>, h: Seq<char>, o: Seq<char>) -> bool {
    let kind = prefix(os, d).kind;
    &&& h == d || h == d.push('/')
    &&& !bare(os, d)
    &&& prefix(os, h + o) == prefix(os, d)
    &&& h.len() > 0 && part_separators(os, kind).has(h.last()) || body_at(os, d) == h.len()
    &&& tidy(os, kind, o)
}

/// What lies below a directory is found again: the path of `o` in `d`, taken
/// below `d`, is `o`.
pub proof fn law_below_joined(os: Platform, d: Seq<char>, h: Seq<char>, o: Seq<char>)
    requires
        joins(os, d, h, o),
    ensures
        below(os, h + o, d) == Some(o),
{
    let p = h + o;
    let x = prefix(os, d);
    let by = part_separators(os, x.kind);
    let dots = x.kind.verbatim();
    let b = body_at(os, d);
    let own = part_places(os, d);
    let tail = moved(rest_places(os, x.kind, o), h.len() as int);
    lemma_prefix(os, d);
    lemma_tidy_front(os, x.kind, o);
    lemma_spans(d, by, dots, b);
    lemma_spans(o, by, dots, 0);
    assert(d.len() > 0) by {
        if d.len() == 0 {
            assert(parts(os, d) =~= seq![]);
            assert(!x.kind.implies_root());
        }
    }
    if h != d {
        assert(h[d.len() as int] == '/');
    }
    assert forall|i: int| 0 <= i < d.len() implies #[trigger] p[i] == d[i] by {}
    if x.len == d.len() {
        assert(own =~= seq![]);
        assert(x.kind.implies_root());
    }
    assert(spans(p, by, dots, b) == own + tail) by {
        if by.has(h.last()) {
            lemma_spans_split(h, o, by, dots, b);
            if h != d {
                lemma_spans_closed(d, '/', by, dots, b);
            }
        } else {
            lemma_spans_behind(h, o, by, dots, 0);
            assert(own =~= seq![]);
            assert(own + tail =~= tail);
        }
    }
    assert(part_places(os, p) == own + tail) by {
        if has_root(os, p) && !has_root(os, d) {
            lemma_next_separator_is(p, by, b, b);
        }
    }
    assert(rooted(os, p) == rooted(os, d));
    assert(dotted(os, p) == dotted(os, d)) by {
        if x.kind == PrefixKind::Absent {
            assert(p[0] == d[0]);
            if d.len() > 1 {
                assert(p[1] == d[1]);
            }
        }
    }
    let n = own.len() as int;
    let s = part_places(os, p);
    assert(parts(os, p).take(n) =~= parts(os, d)) by {
        assert forall|i: int| 0 <= i < n implies #[trigger] parts(os, p)[i] == parts(os, d)[i] by {
            let a = own[i];
            assert(s[i] == a);
            assert(p.subrange(a.0, a.1) =~= d.subrange(a.0, a.1));
        }
    }
    assert(s[n] == tail[0]);
    assert(s.last() == tail.last());
    assert(p.subrange(h.len() as int, p.len() as int) =~= o);
}

/// The last part of the path of a tidy name of one part, in the root.
pub proof fn lemma_last_of_root(os: Platform, o: Seq<char>)
    requires
        tidy(os, PrefixKind::Absent, o),
        part_count(os, PrefixKind::Absent, o) == 1,
        o != ".."@,
    ensures
        last_part(os, "/"@ + o) == Some(o),
{
    reveal_strlit("/");
    reveal_strlit(".");
    let h = "/"@;
    let p = h + o;
    let by = separators(os);
    lemma_tidy_front(os, PrefixKind::Absent, o);
    assert(p[0] == '/');
    assert(p[1] == o[0]);
    assert(prefix(os, p) == no_prefix());
    lemma_spans_behind(h, o, by, false, 0);
    let s = part_places(os, p);
    assert(s == moved(spans(o, by, false, 0), 1));
    assert(s[0] == (1int, p.len() as int));
    assert(p.subrange(1, p.len() as int) =~= o);
    assert(parts(os, p)[0] == o);
    assert(o != "."@) by {
        lemma_next_separator(o, by, 0);
        lemma_spans(o, by, false, 0);
        if o == "."@ {
            assert(o.len() == 1 && o[0] == '.');
            assert(spans(o, by, false, next_separator(o, by, 0) + 1) =~= seq![]);
            assert(spans(o, by, false, 0) =~= seq![]);
        }
    }
}

} // verus!
