//! Torrents: magnet links, base64, bit fields and the table of torrents.

use motrix_core::bt::{
    compute_piece_flags, decode_torrent_base64, downsample_bitfield, encode_torrent_base64,
    make_add_options, parse_magnet, percent_decode, progress_of, BtAddOptions, LiveReadings,
    TorrentLayout, TorrentMeta, TorrentReadings, TorrentTable, DEFAULT_BITFIELD_CHARS,
};

use base64::Engine as _;

fn char_state(ch: char) -> u32 {
    ch.to_digit(16).unwrap() / 4
}

#[test]
fn downsample_bitfield_length_bounded() {
    let flags: Vec<bool> = (0..100_000).map(|i| i % 3 == 0).collect();
    let s = downsample_bitfield(&flags, DEFAULT_BITFIELD_CHARS);
    assert!(s.len() <= DEFAULT_BITFIELD_CHARS);
    assert!(s.chars().all(|c| c.is_ascii_hexdigit()));
}

#[test]
fn downsample_bitfield_all_done_and_all_pending() {
    let done = vec![true; 1000];
    let s = downsample_bitfield(&done, 240);
    assert!(s.chars().all(|c| char_state(c) == 3));
    assert!(s.chars().all(|c| c == 'f'));
    let pending = vec![false; 1000];
    let s = downsample_bitfield(&pending, 240);
    assert!(s.chars().all(|c| char_state(c) == 0));
    assert!(s.chars().all(|c| c == '0'));
}

#[test]
fn downsample_bitfield_state_matches_bucket_ratio() {
    let n = 240usize;
    let buckets = 80usize;
    let flags: Vec<bool> = (0..n)
        .map(|i| {
            let group = i / 3;
            (i % 3) < (group % 4)
        })
        .collect();
    let s = downsample_bitfield(&flags, buckets);
    assert_eq!(s.len(), buckets);
    for (b, ch) in s.chars().enumerate() {
        let r = (b % 4) as f64 / 3.0;
        let expected_state = (r * 4.0).floor().min(3.0) as u32;
        assert_eq!(char_state(ch), expected_state, "bucket {b}");
    }
}

#[test]
fn downsample_bitfield_empty_inputs() {
    assert_eq!(downsample_bitfield(&[], 240), "");
    assert_eq!(downsample_bitfield(&[true; 10], 0), "");
}

#[test]
fn compute_piece_flags_marks_completed_pieces() {
    let ranges = [(0u64, 60u64), (60u64, 40u64)];
    let flags = compute_piece_flags(&ranges, &[60, 40], 5, 20);
    assert_eq!(flags, vec![true, true, true, true, true]);
    let flags = compute_piece_flags(&ranges, &[50, 40], 5, 20);
    assert_eq!(flags, vec![true, true, false, true, true]);
    let flags = compute_piece_flags(&ranges, &[60, 10], 5, 20);
    assert_eq!(flags, vec![true, true, true, false, false]);
}

#[test]
fn parse_magnet_extracts_fields() {
    let hash_upper = "C0FFEEC0FFEEC0FFEEC0FFEEC0FFEEC0FFEEABCD";
    assert_eq!(hash_upper.len(), 40);
    let m = parse_magnet(&format!(
        "magnet:?xt=urn:btih:{hash_upper}&dn=ubuntu-24.04&tr=udp%3A%2F%2Ftracker1%3A80%2Fannounce"
    ))
    .expect("a valid link");
    assert_eq!(m.info_hash, "c0ffeec0ffeec0ffeec0ffeec0ffeec0ffeeabcd");
    assert_eq!(m.display_name.as_deref(), Some("ubuntu-24.04"));
    assert_eq!(m.trackers, vec!["udp://tracker1:80/announce".to_string()]);
}

#[test]
fn magnet_texts_are_unescaped() {
    let hash = "c12fe1c06bba254a9dc9f519b335aa7c1367a88a";
    let m = parse_magnet(&format!(
        "magnet:?xt=urn:btih:{hash}&dn=%E7%94%B5%E5%BD%B1%20a&tr=udp%3A%2F%2Ft.example%3A80&tr="
    ))
    .unwrap();
    assert_eq!(m.display_name.as_deref(), Some("电影 a"));
    assert_eq!(m.trackers, vec!["udp://t.example:80".to_string()]);
}

#[test]
fn parse_magnet_rejects_invalid() {
    assert!(parse_magnet("https://example.com").is_none());
    assert!(parse_magnet("magnet:?dn=no-hash").is_none());
    assert!(parse_magnet("magnet:?xt=urn:btih:short").is_none());
    assert!(parse_magnet("magnet:?xt=urn:btih:zzzzzzzzzzzzzzzzzzzzzzzzzzzzzzzzzzzzzzzz").is_none());
}

#[test]
fn decode_torrent_base64_roundtrip() {
    let raw = b"d8:announce0:e".to_vec();
    let encoded = base64::engine::general_purpose::STANDARD.encode(&raw);
    let decoded = decode_torrent_base64(&encoded).expect("valid base64");
    assert_eq!(decoded, raw);
    assert!(decode_torrent_base64("not base64!!!").is_err());
    assert_eq!(
        decode_torrent_base64("").expect("empty base64"),
        Vec::<u8>::new()
    );
}

#[test]
fn encoded_torrent_is_decoded_again() {
    for raw in [vec![], vec![0u8], vec![0u8, 255], vec![1u8, 2, 3, 4, 5]] {
        let encoded = encode_torrent_base64(&raw);
        assert!(encoded
            .chars()
            .all(|c| c.is_ascii_alphanumeric() || c == '+' || c == '/' || c == '='));
        assert_eq!(
            encoded,
            base64::engine::general_purpose::STANDARD.encode(&raw)
        );
        assert_eq!(decode_torrent_base64(&format!(" {encoded}\n")).unwrap(), raw);
    }
    assert!(decode_torrent_base64("A").unwrap_err().starts_with("base64"));
}

#[test]
fn percent_decode_handles_hex_and_plain() {
    assert_eq!(percent_decode("udp%3A%2F%2Fhost%3A80"), "udp://host:80");
    assert_eq!(percent_decode("plain-text"), "plain-text");
    assert_eq!(percent_decode("100%"), "100%");
}

#[test]
fn percent_decode_replaces_what_is_no_text() {
    assert_eq!(percent_decode("%E4%BD%A0"), "你");
    assert_eq!(percent_decode("%FF"), "\u{FFFD}");
}

fn readings() -> TorrentReadings {
    TorrentReadings {
        progress_bytes: 60,
        total_bytes: 100,
        uploaded_bytes: 7,
        finished: false,
        file_progress: vec![60, 0],
        live: Some(LiveReadings {
            download_speed: 10,
            upload_speed: 20,
            peers: 3,
        }),
        layout: Some(TorrentLayout {
            file_ranges: vec![(0, 60), (60, 40)],
            pieces: 5,
            piece_length: 20,
        }),
    }
}

#[test]
fn progress_shows_pieces_and_speeds() {
    let p = progress_of(&readings());
    assert_eq!(p.completed, 60);
    assert_eq!(p.total, 100);
    assert_eq!(p.uploaded_bytes, 7);
    assert_eq!((p.download_speed, p.upload_speed, p.num_seeders), (10, 20, 3));
    assert_eq!(p.bitfield, "fff00");
    assert!(!p.finished && !p.seeder);
    assert_eq!(p.file_progress, vec![60, 0]);
}

#[test]
fn progress_without_metadata_and_transfer() {
    let mut t = readings();
    t.live = None;
    t.layout = None;
    let p = progress_of(&t);
    assert_eq!((p.download_speed, p.upload_speed, p.num_seeders), (0, 0, 0));
    assert_eq!(p.bitfield, "");
}

fn meta() -> TorrentMeta {
    TorrentMeta::from_parts("abcd".to_string(), None, 5, vec![("f".to_string(), 5)], vec![])
}

#[test]
fn metadata_is_reported_once() {
    let mut table = TorrentTable::new();
    table.register(4, "gid4", false);
    assert!(table.contains("gid4"));
    assert_eq!(table.id_of("gid4"), Some(4));
    let first = table.polled(4, None, &readings());
    assert!(first.metadata.is_none());
    let second = table.polled(4, Some(meta()), &readings());
    assert_eq!(second.metadata, Some(meta()));
    let third = table.polled(4, Some(meta()), &readings());
    assert!(third.metadata.is_none());
    assert!(!table.awaits_metadata(4));
    table.remove(4);
    assert!(!table.contains("gid4"));
}

#[test]
fn torrent_is_added_with_its_trackers() {
    let mut opts = BtAddOptions {
        dir: "/d".to_string(),
        trackers: vec![],
        only_files: Some(vec![1]),
        paused: false,
    };
    let bare = make_add_options(&opts);
    assert_eq!(bare.trackers, None);
    assert_eq!(bare.only_files, Some(vec![1]));
    assert_eq!(bare.output_folder, "/d");
    assert!(bare.overwrite && !bare.paused);
    opts.trackers.push("udp://t".to_string());
    assert_eq!(
        make_add_options(&opts).trackers,
        Some(vec!["udp://t".to_string()])
    );
}
