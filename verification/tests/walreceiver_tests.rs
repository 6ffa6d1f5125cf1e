//! WAL receiver decisions: status updates, start points, alignment,
//! feedback, and the `IDENTIFY_SYSTEM` row.

use timeline_sync::lsn::Lsn;
use timeline_sync::walreceiver::{
    compute_feedback, derive_startpoint, parse_identify_system, parse_lsn_text,
    parse_replication_frame, parse_u64_dec, status_update_lsn, update_caught_up,
    update_status_for_message, validate_record_lsn, ReplicationMessage, WalConnectionStatus,
    WalReceiverError,
};

#[test]
fn startpoint_skips_padding() {
    let sp = derive_startpoint(Lsn(0x29)).expect("a non-zero position derives a start point");
    assert_eq!(sp, Lsn(0x30), "The start point skips the padding after the last record");
    let sp = derive_startpoint(Lsn(0x28)).expect("an aligned position derives a start point");
    assert_eq!(sp, Lsn(0x28), "An aligned position needs no padding");
    assert_eq!(
        derive_startpoint(Lsn(0)),
        Err(WalReceiverError::NoPreviousWalPosition),
        "Streaming cannot start without a previous WAL position"
    );
    assert_eq!(
        derive_startpoint(Lsn(u64::MAX)),
        Err(WalReceiverError::StartPointOverflow),
        "Padding past the top of the WAL space overflows"
    );
}

#[test]
fn record_alignment_is_enforced() {
    assert_eq!(validate_record_lsn(Lsn(64)), Ok(Lsn(64)));
    assert_eq!(
        validate_record_lsn(Lsn(65)),
        Err(WalReceiverError::MisalignedRecord),
        "A misaligned record LSN is corrupt"
    );
}

#[test]
fn status_follows_messages() {
    let status = WalConnectionStatus::connected(1_000);
    assert!(status.is_connected);
    assert!(!status.has_processed_wal);

    let status = status.after_identify(2_000, Lsn(0x100));
    assert_eq!(status.commit_lsn, Some(Lsn(0x100)));
    assert_eq!(status.latest_wal_update, 2_000);

    let msg = ReplicationMessage::XLogData {
        wal_start: Lsn(0x100),
        data_len: 32,
        wal_end: Lsn(0x200),
    };
    let status = update_status_for_message(status, 3_000, &msg);
    assert_eq!(status.streaming_lsn, Some(Lsn(0x120)));
    assert_eq!(status.commit_lsn, Some(Lsn(0x200)));
    assert_eq!(status.latest_wal_update, 3_000);
    assert_eq!(status.latest_connection_update, 3_000);

    let keepalive = ReplicationMessage::PrimaryKeepAlive {
        wal_end: Lsn(0x300),
        timestamp: 0,
        reply_requested: false,
    };
    let status = update_status_for_message(status, 4_000, &keepalive);
    assert_eq!(status.commit_lsn, Some(Lsn(0x300)));
    assert_eq!(
        status.latest_wal_update, 3_000,
        "A keepalive is not a WAL update"
    );
    assert_eq!(status.latest_connection_update, 4_000);
}

#[test]
fn status_update_scheduling() {
    let xlog = ReplicationMessage::XLogData {
        wal_start: Lsn(0x100),
        data_len: 8,
        wal_end: Lsn(0x200),
    };
    assert_eq!(status_update_lsn(&xlog, Lsn(0x50)), Some(Lsn(0x108)));
    let quiet = ReplicationMessage::PrimaryKeepAlive {
        wal_end: Lsn(0x300),
        timestamp: 7,
        reply_requested: false,
    };
    assert_eq!(status_update_lsn(&quiet, Lsn(0x50)), None);
    let reply = ReplicationMessage::PrimaryKeepAlive {
        wal_end: Lsn(0x300),
        timestamp: 7,
        reply_requested: true,
    };
    assert_eq!(
        status_update_lsn(&reply, Lsn(0x50)),
        Some(Lsn(0x50)),
        "A keepalive that requests a reply schedules a feedback with the last record"
    );
}

#[test]
fn caught_up_latches() {
    assert!(!update_caught_up(false, Lsn(10), Lsn(20)));
    assert!(update_caught_up(false, Lsn(20), Lsn(20)));
    assert!(update_caught_up(true, Lsn(0), Lsn(20)), "Caught-up never unlatches");
}

#[test]
fn feedback_fields_and_wire_form() {
    let f = compute_feedback(Lsn(0x300), Lsn(0x200), Some(Lsn(0x100)), 4096, 77);
    assert_eq!(f.ps_writelsn, 0x300);
    assert_eq!(f.ps_flushlsn, 0x200);
    assert_eq!(f.ps_applylsn, 0x100);
    assert_eq!(f.current_timeline_size, 4096);
    assert_eq!(f.ps_replytime, 77);
    assert!(f.ps_applylsn <= f.ps_flushlsn && f.ps_flushlsn <= f.ps_writelsn);

    let wire = f.serialize();
    assert_eq!(wire.len(), 40);
    let mut expected = Vec::new();
    for v in [4096u64, 0x300, 0x200, 0x100, 77] {
        expected.extend_from_slice(&v.to_be_bytes());
    }
    assert_eq!(wire, expected, "The feedback is its five fields, big-endian, in order");

    let none = compute_feedback(Lsn(0x300), Lsn(0x200), None, 0, 0);
    assert_eq!(
        none.ps_applylsn, 0,
        "Without an uploaded checkpoint the apply LSN is zero"
    );
}

#[test]
fn identify_system_row_parses() {
    let row = vec![
        Some(b"7141712245895247865".to_vec()),
        Some(b"1".to_vec()),
        Some(b"16/B374D848".to_vec()),
        None,
    ];
    let ident = parse_identify_system(row).expect("a well-formed row parses");
    assert_eq!(ident.systemid, 7141712245895247865);
    assert_eq!(ident.timeline, 1);
    assert_eq!(ident.xlogpos, Lsn((0x16 << 32) | 0xB374D848));
    assert!(ident.dbname.is_none());

    assert!(parse_identify_system(vec![Some(b"1".to_vec())]).is_err());
    assert!(parse_identify_system(vec![
        Some(b"x".to_vec()),
        Some(b"1".to_vec()),
        Some(b"0/0".to_vec()),
    ])
    .is_err());
    assert!(
        parse_identify_system(vec![
            Some(b"1".to_vec()),
            Some(b"4294967296".to_vec()),
            Some(b"0/0".to_vec()),
        ])
        .is_err(),
        "A timeline id past 32 bits is a malformed row"
    );
    assert!(
        parse_identify_system(vec![
            Some(b"1".to_vec()),
            Some(b"1".to_vec()),
            Some(b"nonsense".to_vec()),
        ])
        .is_err(),
        "An unparsable WAL position is a malformed row"
    );
    assert!(
        parse_identify_system(vec![Some(b"1".to_vec()), None, Some(b"0/0".to_vec())]).is_err(),
        "A null column among the first three is a malformed row"
    );
}

#[test]
fn number_and_lsn_text_parsing() {
    assert_eq!(parse_u64_dec(&b"0".to_vec()), Some(0));
    assert_eq!(parse_u64_dec(&b"18446744073709551615".to_vec()), Some(u64::MAX));
    assert_eq!(parse_u64_dec(&b"18446744073709551616".to_vec()), None);
    assert_eq!(parse_u64_dec(&b"".to_vec()), None);
    assert_eq!(parse_u64_dec(&b"12a".to_vec()), None);

    assert_eq!(parse_lsn_text(&b"0/0".to_vec()), Some(Lsn(0)));
    assert_eq!(parse_lsn_text(&b"1/2".to_vec()), Some(Lsn(0x100000002)));
    assert_eq!(
        parse_lsn_text(&b"FFFFFFFF/FFFFFFFF".to_vec()),
        Some(Lsn(u64::MAX))
    );
    assert_eq!(parse_lsn_text(&b"1".to_vec()), None);
    assert_eq!(parse_lsn_text(&b"1/".to_vec()), None);
    assert_eq!(parse_lsn_text(&b"/1".to_vec()), None);
    assert_eq!(parse_lsn_text(&b"100000000/0".to_vec()), None);
}

#[test]
fn replication_frames_parse() {
    // a WAL-data frame: tag, start, end-of-wal, send time, then payload
    let mut frame = vec![b'w'];
    frame.extend_from_slice(&0x100u64.to_be_bytes());
    frame.extend_from_slice(&0x200u64.to_be_bytes());
    frame.extend_from_slice(&7u64.to_be_bytes());
    frame.extend_from_slice(b"payload!");
    match parse_replication_frame(&frame) {
        Some((ReplicationMessage::XLogData { wal_start, data_len, wal_end }, data_at)) => {
            assert_eq!(wal_start, Lsn(0x100));
            assert_eq!(wal_end, Lsn(0x200));
            assert_eq!(data_at, 25);
            assert_eq!(data_len, 8);
            assert_eq!(&frame[data_at..], b"payload!");
        }
        other => panic!("Expected a WAL-data frame, got {other:?}"),
    }

    // a keepalive frame: tag, end-of-wal, send time, reply flag
    let mut frame = vec![b'k'];
    frame.extend_from_slice(&0x300u64.to_be_bytes());
    frame.extend_from_slice(&9u64.to_be_bytes());
    frame.push(1);
    match parse_replication_frame(&frame) {
        Some((
            ReplicationMessage::PrimaryKeepAlive { wal_end, timestamp, reply_requested },
            data_at,
        )) => {
            assert_eq!(wal_end, Lsn(0x300));
            assert_eq!(timestamp, 9);
            assert!(reply_requested);
            assert_eq!(data_at, 18);
        }
        other => panic!("Expected a keepalive frame, got {other:?}"),
    }

    assert!(parse_replication_frame(&Vec::new()).is_none());
    assert!(parse_replication_frame(&b"w123".to_vec()).is_none(), "A truncated frame is no frame");
    assert!(parse_replication_frame(&b"x".to_vec()).is_none());
}
