//! Tests of the binary container codec: the byte-level helpers, the header
//! and directory encoding, decode failures, and the whole-container round
//! trip.

use kfn_rs::helpers::{dump_hex, u32_to_u8_arr, Entry, FileType};
use kfn_rs::kfn_header::KfnHeader;
use kfn_rs::{Kfn, KfnParseError};

fn music_entry(name: &str, bytes: &[u8]) -> Entry {
    Entry {
        file_type: FileType::Music,
        filename: name.to_string(),
        len1: bytes.len(),
        offset: 0,
        len2: bytes.len(),
        flags: 0,
        file_bin: bytes.to_vec(),
    }
}

fn song_ini_entry(text: &str) -> Entry {
    Entry {
        file_type: FileType::SongIni,
        filename: "Song.ini".to_string(),
        len1: text.len(),
        offset: 0,
        len2: text.len(),
        flags: 0,
        file_bin: text.as_bytes().to_vec(),
    }
}

const INI: &str = "[General]\nTitle=Song\nEffectCount=1\n\n[Eff1]\nID=1\nNbAnim=0\nTextCount=1\nSync0=10,20\nText0=He/llo\n";

#[test]
fn u32_bytes_are_little_endian() {
    assert_eq!(u32_to_u8_arr(0x01020304), vec![0x04, 0x03, 0x02, 0x01]);
    assert_eq!(u32_to_u8_arr(0), vec![0, 0, 0, 0]);
    assert_eq!(u32_to_u8_arr(0xffffffff), vec![0xff, 0xff, 0xff, 0xff]);
}

#[test]
fn hex_dump_format() {
    assert_eq!(dump_hex(&vec![]), "");
    assert_eq!(dump_hex(&vec![0x0a]), "A ");
    assert_eq!(dump_hex(&vec![0x0a, 0xff]), "A  FF ");
    assert_eq!(dump_hex(&vec![0x00, 0x10]), "0  10 ");
}

#[test]
fn header_binary_starts_with_magic() {
    let h = KfnHeader::default();
    let bytes = h.to_binary();
    assert_eq!(&bytes[0..4], b"KFNB");
    // first record: DIFM, kind 1, value 0
    assert_eq!(&bytes[4..8], b"DIFM");
    assert_eq!(bytes[8], 1);
    assert_eq!(&bytes[9..13], &[0, 0, 0, 0]);
}

#[test]
fn bad_signature_is_reported() {
    let mut kfn = Kfn::from_bytes(b"NOPE".to_vec());
    match kfn.parse() {
        Err(KfnParseError::InvalidHeaderSignature(s)) => assert_eq!(s, "NOPE"),
        other => panic!("expected a signature failure, got {:?}", other),
    }
}

#[test]
fn truncated_file_is_reported() {
    let mut kfn = Kfn::from_bytes(b"KFNB".to_vec());
    match kfn.parse() {
        Err(KfnParseError::TruncatedFile) => {}
        other => panic!("expected a truncation failure, got {:?}", other),
    }
}

#[test]
fn missing_song_ini_is_reported() {
    let mut kfn = Kfn::new();
    kfn.header.title = "T".to_string();
    kfn.data.entries.push(music_entry("a.mp3", b"abc"));
    let bytes = kfn.export();
    let mut back = Kfn::from_bytes(bytes);
    match back.parse() {
        Err(KfnParseError::MissingSongIni) => {}
        other => panic!("expected a missing Song.ini failure, got {:?}", other),
    }
}

#[test]
fn container_round_trip() {
    let mut kfn = Kfn::new();
    kfn.header.title = "My Song".to_string();
    kfn.header.artist = "Someone".to_string();
    kfn.header.diff_men = 3;
    kfn.header.genre = 7;
    kfn.header.year = "1999".to_string();
    kfn.data.entries.push(music_entry("tune.mp3", b"mp3-bytes-here"));
    kfn.data.entries.push(song_ini_entry(INI));
    let bytes = kfn.export();

    let mut back = Kfn::from_bytes(bytes);
    back.parse().expect("round trip must parse");

    assert_eq!(back.header.title, "My Song");
    assert_eq!(back.header.artist, "Someone");
    assert_eq!(back.header.diff_men, 3);
    assert_eq!(back.header.genre, 7);
    assert_eq!(back.header.year, "1999");

    assert_eq!(back.data.entries.len(), 2);
    let e0 = &back.data.entries[0];
    assert_eq!(e0.filename, "tune.mp3");
    assert_eq!(e0.file_type, FileType::Music);
    assert_eq!(e0.len1, 14);
    assert_eq!(e0.flags, 0);
    assert_eq!(e0.file_bin, b"mp3-bytes-here".to_vec());
    let e1 = &back.data.entries[1];
    assert_eq!(e1.filename, "Song.ini");
    assert_eq!(e1.file_type, FileType::SongIni);
    assert_eq!(e1.file_bin, INI.as_bytes().to_vec());

    // offsets are recomputed against the directory's end
    assert_eq!(e0.offset, back.data.offset_dir_end);
    assert_eq!(e1.offset, back.data.offset_dir_end + e0.len1);

    // the effects language decoded from the embedded ini
    assert_eq!(back.data.song.effs.len(), 1);
    assert_eq!(back.data.song.effs[0].id, 1);
    assert_eq!(back.data.song.effs[0].syncs, vec![10, 20]);
}

#[test]
fn packed_offsets_are_contiguous() {
    let mut kfn = Kfn::new();
    kfn.data.entries.push(music_entry("a", b"12345"));
    kfn.data.entries.push(music_entry("b", b"678"));
    kfn.data.entries.push(music_entry("c", b"9"));
    kfn.data.adjust_dir_offset();
    assert_eq!(kfn.data.entries[0].offset, 0);
    assert_eq!(kfn.data.entries[1].offset, 5);
    assert_eq!(kfn.data.entries[2].offset, 8);
}

#[test]
fn unknown_header_tags_are_ignored() {
    // hand-build: magic, one unknown numeric record, ENDH, empty directory
    let mut bytes: Vec<u8> = Vec::new();
    bytes.extend_from_slice(b"KFNB");
    bytes.extend_from_slice(b"XXXX");
    bytes.push(1);
    bytes.extend_from_slice(&[1, 0, 0, 0]);
    bytes.extend_from_slice(b"ENDH");
    bytes.push(1);
    bytes.extend_from_slice(&[0xff, 0xff, 0xff, 0xff]);
    bytes.extend_from_slice(&[0, 0, 0, 0]); // zero entries
    let mut kfn = Kfn::from_bytes(bytes);
    // no Song.ini entry, so the decode fails only at the ini stage
    match kfn.parse() {
        Err(KfnParseError::MissingSongIni) => {}
        other => panic!("expected a missing Song.ini failure, got {:?}", other),
    }
    assert_eq!(kfn.data.entries.len(), 0);
}

#[test]
fn materials_enumerate_every_file() {
    let mut kfn = Kfn::new();
    kfn.data.entries.push(music_entry("a.mp3", b"aa"));
    kfn.data.entries.push(music_entry("b.mp3", b"bb"));
    kfn.update();
    let doc = &kfn.data.song.ini;
    assert_eq!(doc.get_from("Materials", "MatCount").as_deref(), Some("2"));
    assert_eq!(doc.get_from("Materials", "Mat0").as_deref(), Some("a.mp3"));
    assert_eq!(doc.get_from("Materials", "Mat1").as_deref(), Some("b.mp3"));
    // the rewrite appended a fresh Song.ini entry
    assert_eq!(kfn.data.entries.last().unwrap().filename, "Song.ini");
    assert_eq!(kfn.data.entries.len(), 3);
}

#[test]
fn remove_file_works_on_a_single_entry() {
    let mut kfn = Kfn::new();
    kfn.data.entries.push(music_entry("only.mp3", b"x"));
    kfn.remove_file("only.mp3");
    assert!(kfn.data.entries.iter().all(|e| e.filename != "only.mp3"));
    assert_eq!(kfn.data.entries.last().unwrap().filename, "Song.ini");
}

#[test]
fn remove_file_drops_the_entry() {
    let mut kfn = Kfn::new();
    kfn.data.entries.push(music_entry("a.mp3", b"aa"));
    kfn.data.entries.push(music_entry("b.mp3", b"bb"));
    kfn.remove_file("a.mp3");
    // the rewrite appends a fresh Song.ini entry after the removal
    assert!(kfn.data.entries.iter().all(|e| e.filename != "a.mp3"));
    assert!(kfn.data.entries.iter().any(|e| e.filename == "b.mp3"));
    assert_eq!(kfn.data.entries.last().unwrap().filename, "Song.ini");
}
