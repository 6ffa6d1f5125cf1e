//! Index-part codec round trips, exact bytes, forward tolerance and
//! rejection.

use timeline_sync::codec::{decode_index_part, encode_index_part, DecodeError};
use timeline_sync::index::{IndexPart, TimelineMetadata};
use timeline_sync::lsn::Lsn;
use timeline_sync::paths::RelativePath;

fn timeline_dir() -> Vec<u8> {
    b"/data/tenants/t1/timelines/tl1".to_vec()
}

fn rel(name: &str) -> RelativePath {
    let mut full = timeline_dir();
    full.push(b'/');
    full.extend_from_slice(name.as_bytes());
    RelativePath::new(&timeline_dir(), &full).expect("a file inside the timeline dir is relative")
}

fn sample_part() -> IndexPart {
    let metadata = TimelineMetadata::new(Lsn(0x30), b"metadata".to_vec());
    IndexPart::new(
        vec![rel("one"), rel("two")],
        vec![rel("three")],
        metadata.disk_consistent_lsn,
        metadata.body,
    )
}

#[test]
fn test_upload_index_part() {
    // the serialized object the upload engine would put at
    // `<timeline>/index_part.json`
    let index_part = sample_part();
    let first = encode_index_part(&index_part);
    let second = encode_index_part(&index_part);
    assert_eq!(
        first, second,
        "Serializing the same manifest twice gives byte-identical objects"
    );
    assert_eq!(
        IndexPart::file_name(),
        b"index_part.json".to_vec(),
        "Remote index part should have the correct name"
    );
    let remote_index_part = decode_index_part(&first).expect("the uploaded object decodes");
    assert_eq!(
        index_part, remote_index_part,
        "Remote index part should match the local one"
    );
}

#[test]
fn test_download_index_part() {
    let index_part = sample_part();
    let stored = encode_index_part(&index_part);
    let downloaded_index_part = decode_index_part(&stored).expect("a stored manifest decodes");
    assert_eq!(
        downloaded_index_part, index_part,
        "Downloaded index part should be the same as the one in storage"
    );
}

#[test]
fn encode_exact_bytes() {
    let part = IndexPart::new(
        vec![rel("a")],
        Vec::new(),
        Lsn(48),
        vec![7, 255],
    );
    let bytes = encode_index_part(&part);
    assert_eq!(
        String::from_utf8(bytes).unwrap(),
        "{\"stored_files\":[\"a\"],\"missing_files\":[],\"disk_consistent_lsn\":48,\"metadata_bytes\":[7,255]}"
    );
}

#[test]
fn escaped_path_round_trips() {
    let tricky = RelativePath {
        bytes: b"we\"ird\\name".to_vec(),
    };
    let part = IndexPart::new(vec![tricky], Vec::new(), Lsn(8), Vec::new());
    let decoded = decode_index_part(&encode_index_part(&part)).expect("escapes decode");
    assert_eq!(decoded, part);
}

#[test]
fn unknown_fields_are_skipped() {
    let doc = "{\"future_field\":{\"x\":[1,\"two\",{}]},\"stored_files\":[\"one\"],\"missing_files\":[],\"disk_consistent_lsn\":64,\"extra\":\"ignore me\",\"metadata_bytes\":[]}";
    let part = decode_index_part(&doc.as_bytes().to_vec()).expect("unknown fields are tolerated");
    assert_eq!(part.stored_files.len(), 1);
    assert_eq!(part.stored_files[0].bytes, b"one".to_vec());
    assert_eq!(part.disk_consistent_lsn, Lsn(64));
}

#[test]
fn malformed_documents_are_rejected() {
    for doc in [
        "",
        "{",
        "{}",
        "[1,2]",
        "{\"stored_files\":[\"one\"]}",
        "{\"stored_files\":[\"one\"],\"missing_files\":[],\"disk_consistent_lsn\":64,\"metadata_bytes\":[]}trailing",
        "{\"stored_files\":[\"one\"],\"stored_files\":[\"one\"],\"missing_files\":[],\"disk_consistent_lsn\":64,\"metadata_bytes\":[]}",
        "{\"stored_files\":[\"one\"],\"missing_files\":[],\"disk_consistent_lsn\":99999999999999999999999,\"metadata_bytes\":[]}",
        "{\"stored_files\":[\"one\"],\"missing_files\":[],\"disk_consistent_lsn\":64,\"metadata_bytes\":[256]}",
    ] {
        assert_eq!(
            decode_index_part(&doc.as_bytes().to_vec()),
            Err(DecodeError::Malformed),
            "{doc:?} must be rejected"
        );
    }
}

#[test]
fn invalid_paths_are_rejected() {
    let absolute =
        "{\"stored_files\":[\"/abs\"],\"missing_files\":[],\"disk_consistent_lsn\":0,\"metadata_bytes\":[]}";
    assert_eq!(
        decode_index_part(&absolute.as_bytes().to_vec()),
        Err(DecodeError::InvalidPath)
    );
    let dotdot =
        "{\"stored_files\":[\"up/../and/out\"],\"missing_files\":[],\"disk_consistent_lsn\":0,\"metadata_bytes\":[]}";
    assert_eq!(
        decode_index_part(&dotdot.as_bytes().to_vec()),
        Err(DecodeError::InvalidPath)
    );
    let duplicate =
        "{\"stored_files\":[\"a\",\"a\"],\"missing_files\":[],\"disk_consistent_lsn\":0,\"metadata_bytes\":[]}";
    assert_eq!(
        decode_index_part(&duplicate.as_bytes().to_vec()),
        Err(DecodeError::DuplicatePath)
    );
}

#[test]
fn empty_manifest_round_trips() {
    let part = IndexPart::new(Vec::new(), Vec::new(), Lsn(0), Vec::new());
    let decoded = decode_index_part(&encode_index_part(&part)).expect("an empty manifest decodes");
    assert_eq!(decoded, part);
    assert!(!decoded.has_missing_files());
}

#[test]
fn missing_files_flagged_for_warning() {
    let part = sample_part();
    assert!(
        part.has_missing_files(),
        "A manifest with missing files is logged as a warning on load"
    );
}
