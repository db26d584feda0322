//! BitTorrent: magnet links, torrent metadata, progress bit fields, and the table
//! of torrents that the engine runs.

use vstd::prelude::*;
use vstd::utf8::*;

use crate::digits::{self, hex_val};
use crate::options::{self, EngineOptions};
use crate::text::{self, chars_of, same, sub_chars, text_of};

verus! {

/// Width of a progress bit field, in characters.
pub const DEFAULT_BITFIELD_CHARS: usize = 240;

/// Session settings of the BitTorrent engine.
#[derive(Debug, PartialEq, Eq)]
pub struct BtEngineConfig {
    /// Ports to listen on: the first, and the one behind the last.
    pub listen_port_range: Option<(u16, u16)>,
    /// Whether the routing table of the distributed hash table is not kept.
    pub disable_dht_persistence: bool,
}

/// The ports that the options ask for: a hundred from the configured one, as far
/// as there are ports.
pub open spec fn port_range(port: Option<u16>) -> Option<(u16, u16)> {
    match port {
        Some(p) => Some(
            (
                p,
                if p + 100 > u16::MAX {
                    u16::MAX
                } else {
                    (p + 100) as u16
                },
            ),
        ),
        None => None,
    }
}

impl BtEngineConfig {
    /// The session settings that the options ask for.
    pub fn from_options(options: &EngineOptions) -> (r: BtEngineConfig)
        ensures
            r.listen_port_range == port_range(options.bt_listen_port),
            r.disable_dht_persistence,
    {
        BtEngineConfig {
            listen_port_range: match options.bt_listen_port {
                Some(p) => Some((p, p.saturating_add(100))),
                None => None,
            },
            disable_dht_persistence: true,
        }
    }
}

/// How a torrent is added.
#[derive(Debug, PartialEq, Eq)]
pub struct BtAddOptions {
    /// Directory that the files go to.
    pub dir: String,
    /// Additional trackers.
    pub trackers: Vec<String>,
    /// Files to download, by their place in the torrent.
    pub only_files: Option<Vec<usize>>,
    /// Whether the torrent is added without being started.
    pub paused: bool,
}

/// What is known of a magnet link before its metadata.
#[derive(Debug, PartialEq, Eq)]
pub struct MagnetMeta {
    /// Info hash: 40 hexadecimal digits in lower case.
    pub info_hash: String,
    /// Display name.
    pub name: Option<String>,
}

/// A file of a torrent.
#[derive(Debug, PartialEq, Eq)]
pub struct TorrentFileMeta {
    /// Number of the file, from 1.
    pub index: usize,
    /// Path below the download directory.
    pub path: String,
    /// Length in bytes.
    pub length: u64,
}

/// What a `TorrentFileMeta` stands for.
pub struct TorrentFileView {
    pub index: usize,
    pub path: Seq<char>,
    pub length: u64,
}

impl DeepView for TorrentFileMeta {
    type V = TorrentFileView;

    open spec fn deep_view(&self) -> TorrentFileView {
        TorrentFileView { index: self.index, path: self.path@, length: self.length }
    }
}

/// Metadata of a torrent.
#[derive(Debug, PartialEq, Eq)]
pub struct TorrentMeta {
    /// Info hash: 40 hexadecimal digits in lower case.
    pub info_hash: String,
    /// Name.
    pub name: Option<String>,
    /// `single` or `multi`.
    pub mode: String,
    /// Length of all files.
    pub total_length: u64,
    /// Files.
    pub files: Vec<TorrentFileMeta>,
    /// Trackers.
    pub announce_list: Vec<String>,
}

/// What a `TorrentMeta` stands for.
pub struct TorrentMetaView {
    pub info_hash: Seq<char>,
    pub name: Option<Seq<char>>,
    pub mode: Seq<char>,
    pub total_length: u64,
    pub files: Seq<TorrentFileView>,
    pub announce_list: Seq<Seq<char>>,
}

impl DeepView for TorrentMeta {
    type V = TorrentMetaView;

    open spec fn deep_view(&self) -> TorrentMetaView {
        TorrentMetaView {
            info_hash: self.info_hash@,
            name: self.name.deep_view(),
            mode: self.mode@,
            total_length: self.total_length,
            files: self.files.deep_view(),
            announce_list: self.announce_list.deep_view(),
        }
    }
}

impl View for TorrentMeta {
    type V = TorrentMetaView;

    open spec fn view(&self) -> TorrentMetaView {
        self.deep_view()
    }
}

/// Files numbered from 1, in the given order.
pub open spec fn numbered(files: Seq<(Seq<char>, u64)>) -> Seq<TorrentFileView> {
    Seq::new(
        files.len(),
        |i: int| TorrentFileView { index: (i + 1) as usize, path: files[i].0, length: files[i].1 },
    )
}

impl TorrentMeta {
    /// The metadata of a torrent with the given files: `multi` where there is
    /// more than one.
    pub fn from_parts(
        info_hash: String,
        name: Option<String>,
        total_length: u64,
        files: Vec<(String, u64)>,
        announce_list: Vec<String>,
    ) -> (r: TorrentMeta)
        ensures
            r@ == (TorrentMetaView {
                info_hash: info_hash@,
                name: name.deep_view(),
                mode: if files@.len() > 1 {
                    "multi"@
                } else {
                    "single"@
                },
                total_length,
                files: numbered(files.deep_view()),
                announce_list: announce_list.deep_view(),
            }),
    {
        let mut list: Vec<TorrentFileMeta> = Vec::new();
        let mut i: usize = 0;
        while i < files.len()
            invariant
                i <= files@.len(),
                list@.len() == i,
                forall|j: int|
                    0 <= j < i ==> (#[trigger] list@[j]).deep_view() == (TorrentFileView {
                        index: (j + 1) as usize,
                        path: files@[j].0@,
                        length: files@[j].1,
                    }),
            decreases files@.len() - i,
        {
            list.push(
                TorrentFileMeta { index: i + 1, path: files[i].0.clone(), length: files[i].1 },
            );
            i += 1;
        }
        proof {
            assert(list.deep_view() =~= numbered(files.deep_view()));
        }
        TorrentMeta {
            info_hash,
            name,
            mode: (if files.len() > 1 {
                "multi"
            } else {
                "single"
            }).to_owned(),
            total_length,
            files: list,
            announce_list,
        }
    }
}

/// Progress of a torrent.
#[derive(Debug, PartialEq, Eq)]
pub struct BtProgress {
    /// Bytes already there.
    pub completed: u64,
    /// Bytes in all.
    pub total: u64,
    /// Bytes uploaded.
    pub uploaded_bytes: u64,
    /// Download speed, in bytes per second.
    pub download_speed: u64,
    /// Upload speed, in bytes per second.
    pub upload_speed: u64,
    /// Number of seeders.
    pub num_seeders: u32,
    /// Whether everything is there.
    pub seeder: bool,
    /// Pieces that are there, in hexadecimal.
    pub bitfield: String,
    /// Bytes already there of each file.
    pub file_progress: Vec<u64>,
    /// Whether the download has finished.
    pub finished: bool,
}

/// What the BitTorrent engine reports.
#[derive(Debug, PartialEq, Eq)]
pub enum BtEvent {
    /// The metadata of a magnet link is known.
    MetadataReady(TorrentMeta),
    /// Progress was made.
    Progress(BtProgress),
    /// A magnet link could not be added.
    AddFailed(String),
}

/// A peer as `getPeers` reports it.
#[derive(Debug, PartialEq, Eq)]
pub struct PeerInfo {
    pub ip: String,
    pub port: u16,
    pub peer_id: String,
    pub bitfield: String,
    pub download_speed: u64,
    pub upload_speed: u64,
}

/// What a magnet link says.
#[derive(Debug, PartialEq, Eq)]
pub struct MagnetInfo {
    /// Info hash: 40 hexadecimal digits in lower case.
    pub info_hash: String,
    /// Display name.
    pub display_name: Option<String>,
    /// Trackers.
    pub trackers: Vec<String>,
}

/// Whether a file that spans `start..start + len` reaches into `from..to`.
pub open spec fn reaches(start: int, len: int, from: int, to: int) -> bool {
    start + len > from && start < to
}

/// The smaller of two numbers.
pub open spec fn lesser(a: int, b: int) -> int {
    if a <= b {
        a
    } else {
        b
    }
}

/// Whether piece `p` is there: every file that reaches into it has its bytes up
/// to the end of the piece, or of the file.
pub open spec fn piece_done(
    ranges: Seq<(u64, u64)>,
    progress: Seq<u64>,
    p: int,
    piece_len: int,
) -> bool {
    forall|f: int|
        #![trigger ranges[f]]
        0 <= f < ranges.len() && reaches(
            ranges[f].0 as int,
            ranges[f].1 as int,
            p * piece_len,
            p * piece_len + piece_len,
        ) ==> (if f < progress.len() {
            progress[f] as int
        } else {
            0
        }) >= lesser(ranges[f].0 + ranges[f].1, p * piece_len + piece_len) - ranges[f].0
}

/// Which pieces are there, from the files' places, their lengths and the bytes
/// that each has.
pub fn compute_piece_flags(
    file_ranges: &[(u64, u64)],
    file_progress: &[u64],
    total_pieces: usize,
    piece_len: u64,
) -> (r: Vec<bool>)
    requires
        total_pieces * piece_len <= u64::MAX,
        forall|f: int|
            0 <= f < file_ranges@.len() ==> (#[trigger] file_ranges@[f]).0 + file_ranges@[f].1
                <= u64::MAX,
    ensures
        r@.len() == total_pieces,
        forall|p: int|
            0 <= p < total_pieces ==> #[trigger] r@[p] == piece_done(
                file_ranges@,
                file_progress@,
                p,
                piece_len as int,
            ),
{
    let mut flags: Vec<bool> = Vec::new();
    let mut p: usize = 0;
    while p < total_pieces
        invariant
            p <= total_pieces,
            total_pieces * piece_len <= u64::MAX,
            forall|f: int|
                0 <= f < file_ranges@.len() ==> (#[trigger] file_ranges@[f]).0 + file_ranges@[f].1
                    <= u64::MAX,
            flags@.len() == p,
            forall|q: int|
                0 <= q < p ==> #[trigger] flags@[q] == piece_done(
                    file_ranges@,
                    file_progress@,
                    q,
                    piece_len as int,
                ),
        decreases total_pieces - p,
    {
        proof {
            assert(p * piece_len + piece_len <= total_pieces * piece_len) by (nonlinear_arith)
                requires
                    p + 1 <= total_pieces,
            ;
        }
        let from: u64 = p as u64 * piece_len;
        let to: u64 = from + piece_len;
        let mut done = true;
        let mut f: usize = 0;
        while f < file_ranges.len() && done
            invariant
                f <= file_ranges@.len(),
                from == p * piece_len,
                to == p * piece_len + piece_len,
                forall|g: int|
                    0 <= g < file_ranges@.len() ==> (#[trigger] file_ranges@[g]).0
                        + file_ranges@[g].1 <= u64::MAX,
                done ==> forall|g: int|
                    #![trigger file_ranges@[g]]
                    0 <= g < f && reaches(
                        file_ranges@[g].0 as int,
                        file_ranges@[g].1 as int,
                        p * piece_len,
                        p * piece_len + piece_len,
                    ) ==> (if g < file_progress@.len() {
                        file_progress@[g] as int
                    } else {
                        0
                    }) >= lesser(
                        file_ranges@[g].0 + file_ranges@[g].1,
                        p * piece_len + piece_len,
                    ) - file_ranges@[g].0,
                !done ==> !piece_done(file_ranges@, file_progress@, p as int, piece_len as int),
            decreases file_ranges@.len() - f,
        {
            let (start, len) = file_ranges[f];
            let end: u64 = start + len;
            if end > from && start < to {
                let covered: u64 = if end <= to {
                    end
                } else {
                    to
                };
                let need: u64 = covered - start;
                let have: u64 = if f < file_progress.len() {
                    file_progress[f]
                } else {
                    0
                };
                if have < need {
                    done = false;
                    proof {
                        assert(reaches(
                            file_ranges@[f as int].0 as int,
                            file_ranges@[f as int].1 as int,
                            p * piece_len,
                            p * piece_len + piece_len,
                        ));
                    }
                }
            }
            f += 1;
        }
        flags.push(done);
        p += 1;
    }
    flags
}

/// How many of the flags are set.
pub open spec fn count_set(flags: Seq<bool>) -> nat
    decreases flags.len(),
{
    if flags.len() == 0 {
        0
    } else {
        count_set(flags.drop_last()) + (if flags.last() {
            1nat
        } else {
            0
        })
    }
}

/// The share of set flags, in sixteenths, cut to an integer of at most fifteen.
pub open spec fn share(flags: Seq<bool>) -> int {
    let sixteenths = 16 * count_set(flags) / flags.len();
    if sixteenths > 15 {
        15
    } else {
        sixteenths as int
    }
}

/// The flags in bucket `b` of `buckets` even ones.
pub open spec fn bucket(flags: Seq<bool>, b: int, buckets: int) -> Seq<bool> {
    flags.subrange(b * flags.len() / buckets, (b + 1) * flags.len() / buckets)
}

/// A bit field of at most `width` hexadecimal digits: each digit gives the share
/// of pieces that are there in its bucket.
pub open spec fn bitfield(flags: Seq<bool>, width: nat) -> Seq<char> {
    let buckets = lesser(width as int, flags.len() as int) as nat;
    Seq::new(buckets, |b: int| digits::hex_char(share(bucket(flags, b, buckets as int))))
}

fn count_flags(flags: &[bool], from: usize, to: usize) -> (r: usize)
    requires
        from <= to <= flags@.len(),
    ensures
        r == count_set(flags@.subrange(from as int, to as int)),
        r <= to - from,
{
    let ghost part = flags@.subrange(from as int, to as int);
    let mut n: usize = 0;
    let mut i: usize = from;
    while i < to
        invariant
            from <= i <= to <= flags@.len(),
            part == flags@.subrange(from as int, to as int),
            n == count_set(part.take(i - from)),
            n <= i - from,
        decreases to - i,
    {
        proof {
            assert(part.take(i - from + 1).drop_last() =~= part.take(i - from));
            assert(part[i - from] == flags@[i as int]);
        }
        if flags[i] {
            n += 1;
        }
        i += 1;
    }
    proof {
        assert(part.take(to - from) =~= part);
    }
    n
}

proof fn lemma_bucket_bounds(n: int, b: int, buckets: int)
    requires
        0 <= b < buckets <= n,
    ensures
        0 <= b * n / buckets < (b + 1) * n / buckets <= n,
{
    assert((b + 1) * n == b * n + n) by (nonlinear_arith);
    assert(0 <= b * n) by (nonlinear_arith)
        requires
            b >= 0,
            n >= 0,
    ;
    assert((b + 1) * n <= buckets * n) by (nonlinear_arith)
        requires
            b + 1 <= buckets,
            n >= 0,
    ;
    let x = b * n;
    let q = x / buckets;
    assert(x / buckets >= 0 && (x + n) / buckets >= x / buckets + 1) by (nonlinear_arith)
        requires
            x >= 0,
            n >= buckets,
            buckets > 0,
    ;
    assert((x + n) / buckets <= n) by (nonlinear_arith)
        requires
            x + n <= buckets * n,
            buckets > 0,
    ;
}

/// A bit field of at most `target_chars` hexadecimal digits.
pub fn downsample_bitfield(piece_flags: &[bool], target_chars: usize) -> (r: String)
    ensures
        r@ == bitfield(piece_flags@, target_chars as nat),
{
    let n: usize = piece_flags.len();
    let buckets: usize = if target_chars <= n {
        target_chars
    } else {
        n
    };
    let ghost whole = bitfield(piece_flags@, target_chars as nat);
    let mut out = String::new();
    let mut b: usize = 0;
    proof {
        assert(whole.take(0) =~= seq![]);
    }
    while b < buckets
        invariant
            b <= buckets <= n,
            n == piece_flags@.len(),
            buckets == lesser(target_chars as int, n as int),
            whole == bitfield(piece_flags@, target_chars as nat),
            out@ == whole.take(b as int),
        decreases buckets - b,
    {
        proof {
            lemma_bucket_bounds(n as int, b as int, buckets as int);
            assert((b + 1) * n <= u128::MAX && b * n <= u128::MAX) by (nonlinear_arith)
                requires
                    b + 1 <= usize::MAX,
                    n <= usize::MAX,
            ;
        }
        let start: usize = (b as u128 * n as u128 / buckets as u128) as usize;
        let end: usize = ((b as u128 + 1) * n as u128 / buckets as u128) as usize;
        let done: usize = count_flags(piece_flags, start, end);
        let raw: u128 = 16 * (done as u128) / ((end - start) as u128);
        let value: u8 = if raw > 15 {
            15
        } else {
            raw as u8
        };
        let c: u8 = if value < 10 {
            48u8 + value
        } else {
            87u8 + value
        };
        out.push(c as char);
        b += 1;
        proof {
            assert(whole.take(b as int) =~= whole.take(b - 1).push(whole[b - 1]));
        }
    }
    proof {
        assert(whole.take(b as int) =~= whole);
    }
    out
}

/// Of all pieces together: a bit field is never wider than asked for; where
/// every piece is there it is all `f`, and where none is it is all `0`.
pub proof fn law_bitfield(flags: Seq<bool>, width: nat, b: int)
    requires
        0 <= b < bitfield(flags, width).len(),
    ensures
        bitfield(flags, width).len() <= width,
        (forall|i: int| 0 <= i < flags.len() ==> flags[i]) ==> bitfield(flags, width)[b] == 'f',
        (forall|i: int| 0 <= i < flags.len() ==> !flags[i]) ==> bitfield(flags, width)[b] == '0',
{
    let buckets = lesser(width as int, flags.len() as int);
    lemma_bucket_bounds(flags.len() as int, b, buckets);
    let part = bucket(flags, b, buckets);
    assert(part.len() > 0);
    if forall|i: int| 0 <= i < flags.len() ==> flags[i] {
        lemma_count_all(part);
        let len = part.len() as int;
        assert(16 * len / len == 16) by (nonlinear_arith)
            requires
                len > 0,
        ;
    }
    if forall|i: int| 0 <= i < flags.len() ==> !flags[i] {
        lemma_count_none(part);
        let len = part.len() as int;
        assert(0int / len == 0) by (nonlinear_arith)
            requires
                len > 0,
        ;
    }
}

proof fn lemma_count_all(flags: Seq<bool>)
    requires
        forall|i: int| 0 <= i < flags.len() ==> flags[i],
    ensures
        count_set(flags) == flags.len(),
    decreases flags.len(),
{
    if flags.len() > 0 {
        lemma_count_all(flags.drop_last());
    }
}

proof fn lemma_count_none(flags: Seq<bool>)
    requires
        forall|i: int| 0 <= i < flags.len() ==> !flags[i],
    ensures
        count_set(flags) == 0,
    decreases flags.len(),
{
    if flags.len() > 0 {
        lemma_count_none(flags.drop_last());
    }
}

/// The byte that the characters behind a percent sign at `i` give, where both
/// are hexadecimal digits.
pub open spec fn escape_at(bytes: Seq<u8>, i: int) -> Option<u8> {
    if 0 <= i && i + 2 < bytes.len() && bytes[i] == 37 {
        match (digits::spec_hex_val(bytes[i + 1]), digits::spec_hex_val(bytes[i + 2])) {
            (Some(h), Some(l)) => Some((h * 16 + l) as u8),
            _ => None,
        }
    } else {
        None
    }
}

/// `bytes` from `i` on, with every percent escape replaced by its byte.
pub open spec fn unescaped(bytes: Seq<u8>, i: int) -> Seq<u8>
    decreases bytes.len() - i,
{
    if i < 0 || i >= bytes.len() {
        seq![]
    } else {
        match escape_at(bytes, i) {
            Some(b) => seq![b] + unescaped(bytes, i + 3),
            None => seq![bytes[i]] + unescaped(bytes, i + 1),
        }
    }
}

/// `bytes` with every percent escape replaced by its byte; a percent sign that
/// begins no escape stays.
pub fn unescape(bytes: &[u8]) -> (r: Vec<u8>)
    ensures
        r@ == unescaped(bytes@, 0),
{
    let mut out: Vec<u8> = Vec::new();
    let mut i: usize = 0;
    proof {
        assert(out@ + unescaped(bytes@, 0) =~= unescaped(bytes@, 0));
    }
    while i < bytes.len()
        invariant
            i <= bytes@.len(),
            out@ + unescaped(bytes@, i as int) == unescaped(bytes@, 0),
        decreases bytes@.len() - i,
    {
        let ghost before = out@;
        let mut step: usize = 1;
        let mut b: u8 = bytes[i];
        if b == 37 && i < bytes.len() - 1 && i + 1 < bytes.len() - 1 {
            match (hex_val(bytes[i + 1]), hex_val(bytes[i + 2])) {
                (Some(h), Some(l)) => {
                    b = h * 16 + l;
                    step = 3;
                },
                _ => {},
            }
        }
        out.push(b);
        proof {
            let rest = unescaped(bytes@, i + step);
            assert(before + (seq![b] + rest) =~= out@ + rest);
        }
        i += step;
    }
    proof {
        assert(out@ + Seq::<u8>::empty() =~= out@);
    }
    out
}

/// What `String::from_utf8_lossy` makes of bytes.
pub uninterp spec fn lossy_text(bytes: Seq<u8>) -> Seq<char>;

/// `String::from_utf8_lossy`: the text of the bytes. Bytes that are valid UTF-8
/// give the text that they encode; what stands for other bytes is left open.
#[verifier::external_body]
pub(crate) fn text_from_bytes(bytes: &[u8]) -> (r: String)
    ensures
        r@ == lossy_text(bytes@),
        valid_utf8(bytes@) ==> r@ == decode_utf8(bytes@),
{
    String::from_utf8_lossy(bytes).into_owned()
}

/// The text that bytes are read as: what they encode where they are valid UTF-8,
/// and otherwise what `String::from_utf8_lossy` makes of them.
pub open spec fn bytes_text(bytes: Seq<u8>) -> Seq<char> {
    if valid_utf8(bytes) {
        decode_utf8(bytes)
    } else {
        lossy_text(bytes)
    }
}

/// The text that a percent-encoded value gives.
pub open spec fn decoded(value: Seq<char>) -> Seq<char> {
    bytes_text(unescaped(encode_utf8(value), 0))
}

/// `s` with its percent escapes resolved. A text without percent signs stays as
/// it is.
pub fn percent_decode(s: &str) -> (r: String)
    ensures
        r@ == decoded(s@),
        (forall|i: int| 0 <= i < encode_utf8(s@).len() ==> encode_utf8(s@)[i] != 37) ==> r@ == s@,
{
    let bytes = unescape(s.as_bytes());
    proof {
        let raw = encode_utf8(s@);
        if forall|i: int| 0 <= i < raw.len() ==> raw[i] != 37 {
            lemma_nothing_to_unescape(raw, 0);
            assert(raw.skip(0) =~= raw);
            encode_utf8_valid_utf8(s@);
            encode_utf8_decode_utf8(s@);
        }
    }
    text_from_bytes(&bytes)
}

proof fn lemma_nothing_to_unescape(bytes: Seq<u8>, i: int)
    requires
        0 <= i <= bytes.len(),
        forall|j: int| 0 <= j < bytes.len() ==> bytes[j] != 37,
    ensures
        unescaped(bytes, i) == bytes.skip(i),
    decreases bytes.len() - i,
{
    if i < bytes.len() {
        lemma_nothing_to_unescape(bytes, i + 1);
        assert(seq![bytes[i]] + bytes.skip(i + 1) =~= bytes.skip(i));
    } else {
        assert(bytes.skip(i) =~= seq![]);
    }
}

/// What has been read of a magnet link.
pub struct MagnetView {
    pub info_hash: Option<Seq<char>>,
    pub display_name: Option<Seq<char>>,
    pub trackers: Seq<Seq<char>>,
}

/// Whether `c` is a hexadecimal digit in either case.
pub open spec fn is_hex(c: char) -> bool {
    '0' <= c <= '9' || 'a' <= c <= 'f' || 'A' <= c <= 'F'
}

/// The info hash that an `xt` parameter gives.
pub open spec fn info_hash_in(value: Seq<char>) -> Option<Seq<char>> {
    let prefix = "urn:btih:"@;
    let hash = value.skip(prefix.len() as int);
    if text::starts(value, prefix) && hash.len() == 40 && (forall|i: int|
        0 <= i < 40 ==> is_hex(#[trigger] hash[i])) {
        Some(text::ascii_lower(hash))
    } else {
        None
    }
}

/// A magnet link, read one parameter further.
pub open spec fn magnet_step(m: MagnetView, param: Seq<char>) -> MagnetView {
    let at = text::find(param, '=');
    let key = param.take(at);
    let value = if at < param.len() {
        param.skip(at + 1)
    } else {
        seq![]
    };
    if key == "xt"@ {
        MagnetView {
            info_hash: match info_hash_in(value) {
                Some(h) => Some(h),
                None => m.info_hash,
            },
            ..m
        }
    } else if key == "dn"@ {
        MagnetView { display_name: Some(decoded(value)), ..m }
    } else if key == "tr"@ {
        MagnetView {
            trackers: if decoded(value).len() == 0 {
                m.trackers
            } else {
                m.trackers.push(decoded(value))
            },
            ..m
        }
    } else {
        m
    }
}

/// The parameters of a magnet link, read in order.
pub open spec fn magnet_params(params: Seq<Seq<char>>) -> MagnetView
    decreases params.len(),
{
    if params.len() == 0 {
        MagnetView { info_hash: None, display_name: None, trackers: seq![] }
    } else {
        magnet_step(magnet_params(params.drop_last()), params.last())
    }
}

/// What a magnet link says; `None` where it is no magnet link or gives no info
/// hash of 40 hexadecimal digits.
pub open spec fn magnet(link: Seq<char>) -> Option<MagnetView> {
    let prefix = "magnet:?"@;
    let m = magnet_params(text::split(link.skip(prefix.len() as int), '&'));
    if text::starts(link, prefix) && m.info_hash is Some {
        Some(
            MagnetView {
                display_name: match m.display_name {
                    Some(name) => if name.len() == 0 {
                        None
                    } else {
                        Some(name)
                    },
                    None => None,
                },
                ..m
            },
        )
    } else {
        None
    }
}

impl DeepView for MagnetInfo {
    type V = MagnetView;

    open spec fn deep_view(&self) -> MagnetView {
        MagnetView {
            info_hash: Some(self.info_hash@),
            display_name: self.display_name.deep_view(),
            trackers: self.trackers.deep_view(),
        }
    }
}

/// The info hash that an `xt` parameter gives.
fn parse_info_hash(value: &Vec<char>) -> (r: Option<String>)
    ensures
        r.deep_view() == info_hash_in(value@),
{
    let prefix = chars_of("urn:btih:");
    proof {
        assert(value@.skip(0) =~= value@);
    }
    if !text::begins_at(value, 0, &prefix) {
        return None;
    }
    let hash = sub_chars(value, prefix.len(), value.len());
    proof {
        assert(hash@ =~= value@.skip(prefix@.len() as int));
    }
    if hash.len() != 40 {
        return None;
    }
    let mut i: usize = 0;
    while i < 40
        invariant
            i <= 40,
            hash@.len() == 40,
            prefix@ == "urn:btih:"@,
            hash@ == value@.skip(prefix@.len() as int),
            forall|j: int| 0 <= j < i ==> is_hex(#[trigger] hash@[j]),
        decreases 40 - i,
    {
        let c = hash[i];
        if !((c >= '0' && c <= '9') || (c >= 'a' && c <= 'f') || (c >= 'A' && c <= 'F')) {
            proof {
                assert(!is_hex(hash@[i as int]));
            }
            return None;
        }
        i += 1;
    }
    Some(text::to_ascii_lower(text_of(&hash).as_str()))
}

/// What a magnet link says.
pub fn parse_magnet(link: &str) -> (r: Option<MagnetInfo>)
    ensures
        r.deep_view() == magnet(link@),
{
    let chars = chars_of(link);
    let prefix = chars_of("magnet:?");
    proof {
        assert(chars@.skip(0) =~= chars@);
    }
    if !text::begins_at(&chars, 0, &prefix) {
        return None;
    }
    let rest = text_of(&sub_chars(&chars, prefix.len(), chars.len()));
    proof {
        assert(rest@ =~= link@.skip(prefix@.len() as int));
    }
    let params = text::split_on(rest.as_str(), '&');
    let ghost view = params.deep_view();
    let mut info_hash: Option<String> = None;
    let mut display_name: Option<String> = None;
    let mut trackers: Vec<String> = Vec::new();
    let mut i: usize = 0;
    proof {
        assert(view.take(0) =~= seq![]);
        assert(trackers.deep_view() =~= seq![]);
    }
    while i < params.len()
        invariant
            i <= params@.len(),
            view == params.deep_view(),
            magnet_params(view.take(i as int)) == (MagnetView {
                info_hash: info_hash.deep_view(),
                display_name: display_name.deep_view(),
                trackers: trackers.deep_view(),
            }),
        decreases params@.len() - i,
    {
        proof {
            let upto = view.take(i + 1);
            assert(upto.drop_last() =~= view.take(i as int));
            assert(upto.last() == params@[i as int]@);
        }
        let param = chars_of(params[i].as_str());
        proof {
            assert(param@.skip(0) =~= param@);
        }
        let at: usize = text::find_from(&param, '=', 0);
        let key = text_of(&sub_chars(&param, 0, at));
        let value = if at < param.len() {
            sub_chars(&param, at + 1, param.len())
        } else {
            Vec::new()
        };
        proof {
            assert(key@ =~= param@.take(at as int));
            assert(value@ =~= if at < param@.len() {
                param@.skip(at + 1)
            } else {
                seq![]
            });
        }
        if same(key.as_str(), "xt") {
            if let Some(h) = parse_info_hash(&value) {
                info_hash = Some(h);
            }
        } else if same(key.as_str(), "dn") {
            display_name = Some(percent_decode(text_of(&value).as_str()));
        } else if same(key.as_str(), "tr") {
            let tracker = percent_decode(text_of(&value).as_str());
            if !tracker.as_str().is_empty() {
                let ghost before = trackers.deep_view();
                trackers.push(tracker);
                proof {
                    assert(trackers.deep_view() =~= before.push(tracker@));
                }
            }
        }
        i += 1;
    }
    proof {
        assert(view.take(i as int) =~= view);
    }
    let display_name = match display_name {
        Some(name) => if name.as_str().is_empty() {
            None
        } else {
            Some(name)
        },
        None => None,
    };
    match info_hash {
        Some(info_hash) => Some(MagnetInfo { info_hash, display_name, trackers }),
        None => None,
    }
}

/// What standard base64 decoding gives: the bytes, or the text of the error.
pub uninterp spec fn base64_decoded(text: Seq<char>) -> Result<Seq<u8>, Seq<char>>;

/// `base64::Engine::decode` of `general_purpose::STANDARD`: the bytes that the
/// text encodes, or the text of its error.
#[verifier::external_body]
fn base64_decode(text: &str) -> (r: Result<Vec<u8>, String>)
    ensures
        match r {
            Ok(bytes) => base64_decoded(text@) == Ok::<Seq<u8>, Seq<char>>(bytes@),
            Err(e) => base64_decoded(text@) == Err::<Seq<u8>, Seq<char>>(e@),
        },
{
    match base64::Engine::decode(&base64::engine::general_purpose::STANDARD, text) {
        Ok(bytes) => Ok(bytes),
        Err(e) => Err(e.to_string()),
    }
}

/// A character that standard base64 text is made of.
pub open spec fn in_base64(c: char) -> bool {
    'A' <= c <= 'Z' || 'a' <= c <= 'z' || '0' <= c <= '9' || c == '+' || c == '/' || c == '='
}

/// Whether base64 text decodes to the bytes.
pub open spec fn decodes_to(text: Seq<char>, bytes: Seq<u8>) -> bool {
    base64_decoded(text) == Ok::<Seq<u8>, Seq<char>>(bytes)
}

/// `base64::Engine::encode` of `general_purpose::STANDARD`: text of the standard
/// alphabet, which decodes to the bytes again.
#[verifier::external_body]
fn base64_encode(bytes: &[u8]) -> (r: String)
    ensures
        forall|i: int| 0 <= i < r@.len() ==> in_base64(#[trigger] r@[i]),
        decodes_to(r@, bytes@),
{
    base64::Engine::encode(&base64::engine::general_purpose::STANDARD, bytes)
}

/// What a torrent in base64 decodes to: white space at the ends is left out.
pub open spec fn torrent_decoded(input: Seq<char>) -> Result<Seq<u8>, Seq<char>> {
    base64_decoded(text::trimmed(input))
}

/// The bytes of a torrent in base64.
pub fn decode_torrent_base64(input: &str) -> (r: Result<Vec<u8>, String>)
    ensures
        match r {
            Ok(bytes) => torrent_decoded(input@) == Ok::<Seq<u8>, Seq<char>>(bytes@),
            Err(e) => torrent_decoded(input@) is Err && e@ == "base64 解码种子内容失败: "@
                + torrent_decoded(input@)->Err_0,
        },
{
    let trimmed = text::trim(input);
    match base64_decode(trimmed.as_str()) {
        Ok(bytes) => Ok(bytes),
        Err(e) => Err(text::join2("base64 解码种子内容失败: ", e.as_str())),
    }
}

/// A torrent in base64: text of the standard alphabet, which decodes to the bytes
/// again, as it stands and as the text of a torrent.
pub fn encode_torrent_base64(bytes: &[u8]) -> (r: String)
    ensures
        forall|i: int| 0 <= i < r@.len() ==> in_base64(#[trigger] r@[i]),
        decodes_to(r@, bytes@),
        torrent_decoded(r@) == Ok::<Seq<u8>, Seq<char>>(bytes@),
{
    let r = base64_encode(bytes);
    proof {
        if r@.len() > 0 {
            assert(in_base64(r@[0]));
            assert(in_base64(r@[r@.len() - 1]));
        }
    }
    r
}

/// A torrent that the engine runs.
#[derive(Debug, PartialEq, Eq)]
pub struct TorrentSlot {
    /// Number of the torrent in the engine.
    pub id: usize,
    /// The task that it belongs to.
    pub gid: String,
    /// Whether its metadata has been reported.
    pub metadata_notified: bool,
}

/// What a `TorrentSlot` stands for.
pub struct TorrentSlotView {
    pub id: usize,
    pub gid: Seq<char>,
    pub metadata_notified: bool,
}

impl DeepView for TorrentSlot {
    type V = TorrentSlotView;

    open spec fn deep_view(&self) -> TorrentSlotView {
        TorrentSlotView {
            id: self.id,
            gid: self.gid@,
            metadata_notified: self.metadata_notified,
        }
    }
}

/// The torrents that the engine runs, each under its number.
#[derive(Debug, PartialEq, Eq)]
pub struct TorrentTable {
    pub slots: Vec<TorrentSlot>,
}

/// No number occurs twice.
pub open spec fn distinct_ids(slots: Seq<TorrentSlotView>) -> bool {
    forall|i: int, j: int|
        #![trigger slots[i], slots[j]]
        0 <= i < j < slots.len() ==> slots[i].id != slots[j].id
}

/// The torrent under a number.
pub open spec fn slot_of(slots: Seq<TorrentSlotView>, id: usize) -> Option<TorrentSlotView> {
    if exists|i: int| 0 <= i < slots.len() && (#[trigger] slots[i]).id == id {
        Some(slots[choose|i: int| 0 <= i < slots.len() && (#[trigger] slots[i]).id == id])
    } else {
        None
    }
}

/// Whether some torrent belongs to the task.
pub open spec fn runs(slots: Seq<TorrentSlotView>, gid: Seq<char>) -> bool {
    exists|i: int| 0 <= i < slots.len() && (#[trigger] slots[i]).gid == gid
}

impl TorrentTable {
    /// No torrent yet.
    pub fn new() -> (r: TorrentTable)
        ensures
            r.slots@.len() == 0,
            distinct_ids(r.slots.deep_view()),
    {
        TorrentTable { slots: Vec::new() }
    }

    fn place(&self, id: usize) -> (r: usize)
        ensures
            r <= self.slots@.len(),
            r < self.slots@.len() ==> self.slots@[r as int].id == id,
            r == self.slots@.len() ==> forall|i: int|
                0 <= i < self.slots@.len() ==> (#[trigger] self.slots@[i]).id != id,
    {
        let mut i: usize = 0;
        while i < self.slots.len() && self.slots[i].id != id
            invariant
                i <= self.slots@.len(),
                forall|j: int| 0 <= j < i ==> (#[trigger] self.slots@[j]).id != id,
            decreases self.slots@.len() - i,
        {
            i += 1;
        }
        i
    }

    /// Enters a torrent for a task. A number that is there already passes to the
    /// task.
    pub fn register(&mut self, id: usize, gid: &str, metadata_notified: bool)
        requires
            distinct_ids(old(self).slots.deep_view()),
        ensures
            distinct_ids(final(self).slots.deep_view()),
            slot_of(final(self).slots.deep_view(), id) == Some(
                TorrentSlotView { id, gid: gid@, metadata_notified },
            ),
            forall|other: usize|
                other != id ==> slot_of(final(self).slots.deep_view(), other) == slot_of(
                    old(self).slots.deep_view(),
                    other,
                ),
    {
        let i: usize = self.place(id);
        let ghost before = self.slots.deep_view();
        proof {
            assert forall|j: int| 0 <= j < before.len() implies (#[trigger] before[j]).id
                == self.slots@[j].id by {}
            assert(i < before.len() ==> before[i as int].id == id);
            assert(i == before.len() ==> forall|j: int|
                0 <= j < before.len() ==> (#[trigger] before[j]).id != id);
        }
        let slot = TorrentSlot { id, gid: gid.to_owned(), metadata_notified };
        let ghost view = slot.deep_view();
        if i < self.slots.len() {
            self.slots[i] = slot;
            proof {
                assert(self.slots.deep_view() =~= before.update(i as int, view));
            }
        } else {
            self.slots.push(slot);
            proof {
                assert(self.slots.deep_view() =~= before.push(view));
            }
        }
        proof {
            let after = self.slots.deep_view();
            assert(after[i as int] == view);
            assert forall|a: int, b: int|
                #![trigger after[a], after[b]]
                0 <= a < b < after.len() implies after[a].id != after[b].id by {
                if a < before.len() {
                    assert(after[a].id == before[a].id || a == i);
                }
                if b < before.len() {
                    assert(after[b].id == before[b].id || b == i);
                }
            }
            lemma_slot_is(after, i as int);
            assert forall|other: usize| other != id implies slot_of(after, other) == slot_of(
                before,
                other,
            ) by {
                lemma_slot_same(before, after, i as int, other);
            }
        }
    }

    /// Whether some torrent belongs to the task.
    pub fn contains(&self, gid: &str) -> (r: bool)
        ensures
            r == runs(self.slots.deep_view(), gid@),
    {
        let mut i: usize = 0;
        while i < self.slots.len()
            invariant
                i <= self.slots@.len(),
                forall|j: int|
                    0 <= j < i ==> (#[trigger] self.slots.deep_view()[j]).gid != gid@,
            decreases self.slots@.len() - i,
        {
            if same(self.slots[i].gid.as_str(), gid) {
                proof {
                    assert(self.slots.deep_view()[i as int].gid == gid@);
                }
                return true;
            }
            i += 1;
        }
        false
    }

    /// The number of a torrent that belongs to the task.
    pub fn id_of(&self, gid: &str) -> (r: Option<usize>)
        ensures
            r is Some <==> runs(self.slots.deep_view(), gid@),
            r matches Some(id) ==> exists|i: int|
                0 <= i < self.slots@.len() && (#[trigger] self.slots.deep_view()[i]).id == id
                    && self.slots.deep_view()[i].gid == gid@,
    {
        let mut i: usize = 0;
        while i < self.slots.len()
            invariant
                i <= self.slots@.len(),
                forall|j: int|
                    0 <= j < i ==> (#[trigger] self.slots.deep_view()[j]).gid != gid@,
            decreases self.slots@.len() - i,
        {
            if same(self.slots[i].gid.as_str(), gid) {
                proof {
                    assert(self.slots.deep_view()[i as int].gid == gid@);
                }
                return Some(self.slots[i].id);
            }
            i += 1;
        }
        None
    }

    /// Takes a torrent out.
    pub fn remove(&mut self, id: usize)
        requires
            distinct_ids(old(self).slots.deep_view()),
        ensures
            distinct_ids(final(self).slots.deep_view()),
            slot_of(final(self).slots.deep_view(), id) is None,
            forall|other: usize|
                other != id ==> slot_of(final(self).slots.deep_view(), other) == slot_of(
                    old(self).slots.deep_view(),
                    other,
                ),
    {
        let i: usize = self.place(id);
        let ghost before = self.slots.deep_view();
        proof {
            assert forall|j: int| 0 <= j < before.len() implies (#[trigger] before[j]).id
                == self.slots@[j].id by {}
            assert(i < before.len() ==> before[i as int].id == id);
            assert(i == before.len() ==> forall|j: int|
                0 <= j < before.len() ==> (#[trigger] before[j]).id != id);
        }
        if i < self.slots.len() {
            let _ = self.slots.remove(i);
            proof {
                let after = self.slots.deep_view();
                assert(after =~= before.remove(i as int));
                assert forall|a: int| 0 <= a < after.len() implies (#[trigger] after[a])
                    == before[if a < i {
                    a
                } else {
                    a + 1
                }] by {}
                assert forall|other: usize| other != id implies slot_of(after, other) == slot_of(
                    before,
                    other,
                ) by {
                    lemma_slot_less(before, after, i as int, other);
                }
                assert forall|a: int| 0 <= a < after.len() implies (#[trigger] after[a]).id
                    != id by {
                    if a < i {
                        assert(before[a].id != before[i as int].id);
                    } else {
                        assert(before[i as int].id != before[a + 1].id);
                    }
                }
            }
        }
    }

    /// Notes that the metadata of a torrent has been reported.
    pub fn mark_notified(&mut self, id: usize)
        requires
            distinct_ids(old(self).slots.deep_view()),
        ensures
            distinct_ids(final(self).slots.deep_view()),
            slot_of(final(self).slots.deep_view(), id) == (match slot_of(
                old(self).slots.deep_view(),
                id,
            ) {
                Some(slot) => Some(TorrentSlotView { metadata_notified: true, ..slot }),
                None => None,
            }),
            forall|other: usize|
                other != id ==> slot_of(final(self).slots.deep_view(), other) == slot_of(
                    old(self).slots.deep_view(),
                    other,
                ),
    {
        let i: usize = self.place(id);
        let ghost before = self.slots.deep_view();
        proof {
            assert forall|j: int| 0 <= j < before.len() implies (#[trigger] before[j]).id
                == self.slots@[j].id by {}
            assert(i < before.len() ==> before[i as int].id == id);
            assert(i == before.len() ==> forall|j: int|
                0 <= j < before.len() ==> (#[trigger] before[j]).id != id);
        }
        if i < self.slots.len() {
            self.slots[i].metadata_notified = true;
            proof {
                let after = self.slots.deep_view();
                assert(after =~= before.update(
                    i as int,
                    TorrentSlotView { metadata_notified: true, ..before[i as int] },
                ));
                lemma_slot_is(before, i as int);
                lemma_slot_is(after, i as int);
                assert forall|other: usize| other != id implies slot_of(after, other) == slot_of(
                    before,
                    other,
                ) by {
                    lemma_slot_same(before, after, i as int, other);
                }
            }
        }
    }
}

proof fn lemma_slot_is(slots: Seq<TorrentSlotView>, i: int)
    requires
        distinct_ids(slots),
        0 <= i < slots.len(),
    ensures
        slot_of(slots, slots[i].id) == Some(slots[i]),
{
    let id = slots[i].id;
    let k = choose|k: int| 0 <= k < slots.len() && (#[trigger] slots[k]).id == id;
    assert(slots[i].id == id);
    if k < i {
        assert(slots[k].id != slots[i].id);
    } else if i < k {
        assert(slots[i].id != slots[k].id);
    }
}

proof fn lemma_slot_same(
    before: Seq<TorrentSlotView>,
    after: Seq<TorrentSlotView>,
    i: int,
    other: usize,
)
    requires
        distinct_ids(before),
        distinct_ids(after),
        0 <= i < after.len(),
        i <= before.len() <= after.len() <= i + 1 || before.len() == after.len(),
        forall|j: int| 0 <= j < after.len() && j != i ==> #[trigger] after[j] == before[j],
        after[i].id != other,
        i < before.len() ==> before[i].id != other,
    ensures
        slot_of(after, other) == slot_of(before, other),
{
    if exists|j: int| 0 <= j < before.len() && (#[trigger] before[j]).id == other {
        let j = choose|j: int| 0 <= j < before.len() && (#[trigger] before[j]).id == other;
        assert(after[j] == before[j]);
        lemma_slot_is(before, j);
        lemma_slot_is(after, j);
    } else {
        assert forall|j: int| 0 <= j < after.len() implies (#[trigger] after[j]).id != other by {
            if j != i {
                assert(after[j] == before[j]);
            }
        }
    }
}

proof fn lemma_slot_less(
    before: Seq<TorrentSlotView>,
    after: Seq<TorrentSlotView>,
    i: int,
    other: usize,
)
    requires
        distinct_ids(before),
        distinct_ids(after),
        0 <= i < before.len(),
        after == before.remove(i),
        before[i].id != other,
    ensures
        slot_of(after, other) == slot_of(before, other),
{
    if exists|j: int| 0 <= j < before.len() && (#[trigger] before[j]).id == other {
        let j = choose|j: int| 0 <= j < before.len() && (#[trigger] before[j]).id == other;
        let k = if j < i {
            j
        } else {
            j - 1
        };
        assert(after[k] == before[j]);
        lemma_slot_is(before, j);
        lemma_slot_is(after, k);
    } else {
        assert forall|k: int| 0 <= k < after.len() implies (#[trigger] after[k]).id != other by {
            let j = if k < i {
                k
            } else {
                k + 1
            };
            assert(after[k] == before[j]);
        }
    }
}

/// Where the files and pieces of a torrent lie.
#[derive(Debug, PartialEq, Eq)]
pub struct TorrentLayout {
    /// Where each file begins, and its length.
    pub file_ranges: Vec<(u64, u64)>,
    pub pieces: usize,
    pub piece_length: u64,
}

impl TorrentLayout {
    /// The pieces and the files end within what can be counted.
    pub open spec fn wf(self) -> bool {
        &&& self.pieces * self.piece_length <= u64::MAX
        &&& forall|f: int|
            0 <= f < self.file_ranges@.len() ==> (#[trigger] self.file_ranges@[f]).0
                + self.file_ranges@[f].1 <= u64::MAX
    }
}

/// What a running torrent transfers.
#[derive(Debug, Clone, Copy, PartialEq, Eq, Structural)]
pub struct LiveReadings {
    /// Speeds, in bytes per second.
    pub download_speed: u64,
    pub upload_speed: u64,
    /// Peers that it is connected to.
    pub peers: u32,
}

/// What the BitTorrent engine tells of a torrent when it is asked.
#[derive(Debug, PartialEq, Eq)]
pub struct TorrentReadings {
    pub progress_bytes: u64,
    pub total_bytes: u64,
    pub uploaded_bytes: u64,
    pub finished: bool,
    /// Bytes already there of each file.
    pub file_progress: Vec<u64>,
    /// `None` for a torrent that does not run.
    pub live: Option<LiveReadings>,
    /// `None` where the metadata is not known.
    pub layout: Option<TorrentLayout>,
}

/// Which pieces are there.
pub open spec fn pieces_there(layout: TorrentLayout, progress: Seq<u64>) -> Seq<bool> {
    Seq::new(
        layout.pieces as nat,
        |p: int| piece_done(layout.file_ranges@, progress, p, layout.piece_length as int),
    )
}

/// A copy of numbers.
fn copy_numbers(numbers: &Vec<u64>) -> (r: Vec<u64>)
    ensures
        r@ == numbers@,
{
    let mut out: Vec<u64> = Vec::new();
    let mut i: usize = 0;
    while i < numbers.len()
        invariant
            i <= numbers@.len(),
            out@ == numbers@.take(i as int),
        decreases numbers@.len() - i,
    {
        out.push(numbers[i]);
        i += 1;
        proof {
            assert(out@ =~= numbers@.take(i as int));
        }
    }
    proof {
        assert(out@ =~= numbers@);
    }
    out
}

/// Whether `p` is the progress that is reported of a torrent: without speeds and
/// peers where it does not run, and without a bit field where its metadata is not
/// known.
pub open spec fn shows(p: BtProgress, t: TorrentReadings) -> bool {
    &&& p.completed == t.progress_bytes
    &&& p.total == t.total_bytes
    &&& p.uploaded_bytes == t.uploaded_bytes
    &&& p.seeder == t.finished
    &&& p.finished == t.finished
    &&& p.file_progress@ == t.file_progress@
    &&& match t.live {
        Some(live) => p.download_speed == live.download_speed && p.upload_speed
            == live.upload_speed && p.num_seeders == live.peers,
        None => p.download_speed == 0 && p.upload_speed == 0 && p.num_seeders == 0,
    }
    &&& match t.layout {
        Some(layout) => p.bitfield@ == bitfield(
            pieces_there(layout, t.file_progress@),
            DEFAULT_BITFIELD_CHARS as nat,
        ),
        None => p.bitfield@.len() == 0,
    }
}

/// The progress that is reported of a torrent.
pub fn progress_of(t: &TorrentReadings) -> (r: BtProgress)
    requires
        t.layout is Some ==> t.layout->0.wf(),
    ensures
        shows(r, *t),
{
    let live = match t.live {
        Some(live) => live,
        None => LiveReadings { download_speed: 0, upload_speed: 0, peers: 0 },
    };
    let bits = match &t.layout {
        Some(layout) => {
            let flags = compute_piece_flags(
                &layout.file_ranges,
                &t.file_progress,
                layout.pieces,
                layout.piece_length,
            );
            proof {
                assert(flags@ =~= pieces_there(*layout, t.file_progress@));
            }
            downsample_bitfield(&flags, DEFAULT_BITFIELD_CHARS)
        },
        None => String::new(),
    };
    BtProgress {
        completed: t.progress_bytes,
        total: t.total_bytes,
        uploaded_bytes: t.uploaded_bytes,
        download_speed: live.download_speed,
        upload_speed: live.upload_speed,
        num_seeders: live.peers,
        seeder: t.finished,
        bitfield: bits,
        file_progress: copy_numbers(&t.file_progress),
        finished: t.finished,
    }
}

/// What is reported of a torrent when it is asked how it is doing.
#[derive(Debug, PartialEq, Eq)]
pub struct PollReport {
    /// Its metadata, once it is known and has not been reported yet.
    pub metadata: Option<TorrentMeta>,
    pub progress: BtProgress,
}

impl TorrentTable {
    /// Whether the metadata of a torrent has yet to be reported.
    pub fn awaits_metadata(&self, id: usize) -> (r: bool)
        requires
            distinct_ids(self.slots.deep_view()),
        ensures
            r == (match slot_of(self.slots.deep_view(), id) {
                Some(slot) => !slot.metadata_notified,
                None => false,
            }),
    {
        let i: usize = self.place(id);
        let ghost slots = self.slots.deep_view();
        proof {
            assert forall|j: int| 0 <= j < slots.len() implies (#[trigger] slots[j]).id
                == self.slots@[j].id by {}
        }
        if i < self.slots.len() {
            proof {
                assert(slots[i as int].id == id);
                lemma_slot_is(slots, i as int);
            }
            !self.slots[i].metadata_notified
        } else {
            false
        }
    }

    /// What is reported of a torrent that was asked how it is doing. Its metadata
    /// is reported once.
    pub fn polled(
        &mut self,
        id: usize,
        metadata: Option<TorrentMeta>,
        readings: &TorrentReadings,
    ) -> (r: PollReport)
        requires
            distinct_ids(old(self).slots.deep_view()),
            readings.layout is Some ==> readings.layout->0.wf(),
        ensures
            distinct_ids(final(self).slots.deep_view()),
            shows(r.progress, *readings),
            ({
                let slot = slot_of(old(self).slots.deep_view(), id);
                let due = slot is Some && !slot->0.metadata_notified && metadata is Some;
                &&& r.metadata == (if due {
                    metadata
                } else {
                    None
                })
                &&& slot_of(final(self).slots.deep_view(), id) == (if due {
                    Some(TorrentSlotView { metadata_notified: true, ..slot->0 })
                } else {
                    slot
                })
            }),
            forall|other: usize|
                other != id ==> slot_of(final(self).slots.deep_view(), other) == slot_of(
                    old(self).slots.deep_view(),
                    other,
                ),
    {
        let progress = progress_of(readings);
        let mut reported: Option<TorrentMeta> = None;
        if self.awaits_metadata(id) && metadata.is_some() {
            self.mark_notified(id);
            reported = metadata;
        }
        PollReport { metadata: reported, progress }
    }
}

/// How the BitTorrent engine is told to add a torrent.
#[derive(Debug, PartialEq, Eq)]
pub struct AddSettings {
    pub paused: bool,
    pub output_folder: String,
    pub only_files: Option<Vec<usize>>,
    /// Additional trackers; `None` where there are none.
    pub trackers: Option<Vec<String>>,
    /// Whether files that are there are written to.
    pub overwrite: bool,
}

/// How the BitTorrent engine is told to add a torrent. Files that are there are
/// written to, so that a torrent can go on.
pub fn make_add_options(opts: &BtAddOptions) -> (r: AddSettings)
    ensures
        r.paused == opts.paused,
        r.output_folder@ == opts.dir@,
        options::places_view(r.only_files) == options::places_view(opts.only_files),
        match r.trackers {
            Some(trackers) => opts.trackers@.len() > 0 && trackers.deep_view()
                == opts.trackers.deep_view(),
            None => opts.trackers@.len() == 0,
        },
        r.overwrite,
{
    AddSettings {
        paused: opts.paused,
        output_folder: opts.dir.clone(),
        only_files: options::clone_places(&opts.only_files),
        trackers: if opts.trackers.len() == 0 {
            None
        } else {
            Some(crate::task::clone_texts(&opts.trackers))
        },
        overwrite: true,
    }
}

} // verus!
