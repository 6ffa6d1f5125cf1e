//! The WAL receiver driver's decision logic: connection status updates,
//! stream start-point derivation, record alignment, replication feedback
//! and the `IDENTIFY_SYSTEM` row.
//!
//! The caller owns the replication connection and the clock; every function
//! here goes from plain values to plain values. Instants are microseconds
//! since the epoch.

use vstd::prelude::*;

use crate::codec::{parse_number, sp_number};
use crate::lsn::Lsn;

verus! {

/// Status of one WAL connection, published to observers after every
/// message so they see the safekeeper's latest LSNs even if ingest fails.
#[derive(Clone, Copy, Debug, PartialEq, Eq, Structural)]
pub struct WalConnectionStatus {
    /// A postgres connection was initiated: the safekeeper process runs.
    pub is_connected: bool,
    /// At least one WAL record was received and ingested without error.
    pub has_processed_wal: bool,
    /// Connection establishment, or the latest connection message.
    pub latest_connection_update: u64,
    /// When the latest non-empty WAL payload arrived.
    pub latest_wal_update: u64,
    /// The next WAL message starts from this LSN.
    pub streaming_lsn: Option<Lsn>,
    /// The latest commit LSN the safekeeper reported.
    pub commit_lsn: Option<Lsn>,
}

impl WalConnectionStatus {
    /// The status right after the connection opened.
    pub fn connected(now: u64) -> (r: WalConnectionStatus)
        ensures
            r.is_connected,
            !r.has_processed_wal,
            r.latest_connection_update == now,
            r.latest_wal_update == now,
            r.streaming_lsn is None,
            r.commit_lsn is None,
    {
        WalConnectionStatus {
            is_connected: true,
            has_processed_wal: false,
            latest_connection_update: now,
            latest_wal_update: now,
            streaming_lsn: None,
            commit_lsn: None,
        }
    }

    /// The status after `IDENTIFY_SYSTEM` answered with the stream's end.
    pub fn after_identify(self, now: u64, end_of_wal: Lsn) -> (r: WalConnectionStatus)
        ensures
            r.is_connected == self.is_connected,
            r.has_processed_wal == self.has_processed_wal,
            r.latest_connection_update == now,
            r.latest_wal_update == now,
            r.streaming_lsn == self.streaming_lsn,
            r.commit_lsn == Some(end_of_wal),
    {
        WalConnectionStatus {
            latest_connection_update: now,
            latest_wal_update: now,
            commit_lsn: Some(end_of_wal),
            ..self
        }
    }
}

/// A replication message, reduced to what the driver decides on.
#[derive(Clone, Copy, Debug)]
pub enum ReplicationMessage {
    XLogData { wal_start: Lsn, data_len: u64, wal_end: Lsn },
    PrimaryKeepAlive { wal_end: Lsn, timestamp: u64, reply_requested: bool },
}

/// Updates the status for an incoming message, before any ingest work, so
/// observers see the safekeeper's LSNs even when ingest later fails.
pub fn update_status_for_message(
    status: WalConnectionStatus,
    now: u64,
    msg: &ReplicationMessage,
) -> (r: WalConnectionStatus)
    requires
        msg matches ReplicationMessage::XLogData { wal_start, data_len, .. } ==> wal_start.0
            + *data_len <= u64::MAX,
    ensures
        match *msg {
            ReplicationMessage::XLogData { wal_start, data_len, wal_end } => {
                &&& r.latest_connection_update == now
                &&& r.commit_lsn == Some(wal_end)
                &&& r.streaming_lsn == Some(Lsn((wal_start.0 + data_len) as u64))
                &&& r.latest_wal_update == if data_len > 0 {
                    now
                } else {
                    status.latest_wal_update
                }
                &&& r.is_connected == status.is_connected
                &&& r.has_processed_wal == status.has_processed_wal
            },
            ReplicationMessage::PrimaryKeepAlive { wal_end, .. } => {
                &&& r.latest_connection_update == now
                &&& r.commit_lsn == Some(wal_end)
                &&& r.streaming_lsn == status.streaming_lsn
                &&& r.latest_wal_update == status.latest_wal_update
                &&& r.is_connected == status.is_connected
                &&& r.has_processed_wal == status.has_processed_wal
            },
        },
{
    match *msg {
        ReplicationMessage::XLogData { wal_start, data_len, wal_end } => WalConnectionStatus {
            latest_connection_update: now,
            commit_lsn: Some(wal_end),
            streaming_lsn: Some(Lsn(wal_start.0 + data_len)),
            latest_wal_update: if data_len > 0 {
                now
            } else {
                status.latest_wal_update
            },
            ..status
        },
        ReplicationMessage::PrimaryKeepAlive { wal_end, .. } => WalConnectionStatus {
            latest_connection_update: now,
            commit_lsn: Some(wal_end),
            ..status
        },
    }
}

/// Why the WAL receiver cannot proceed.
#[derive(Clone, Copy, Debug, PartialEq, Eq, Structural)]
pub enum WalReceiverError {
    /// The timeline has no previous WAL position to stream from.
    NoPreviousWalPosition,
    /// The derived start point does not fit in 64 bits.
    StartPointOverflow,
    /// A decoded record's LSN is not aligned: the stream is corrupt.
    MisalignedRecord,
}

/// Derives the replication start point from the last full record: skip the
/// padding after it, never starting mid-record. A zero position is an
/// error: there is nothing to resume from.
pub fn derive_startpoint(last_record_lsn: Lsn) -> (r: Result<Lsn, WalReceiverError>)
    ensures
        match r {
            Ok(sp) => {
                &&& last_record_lsn.0 != 0
                &&& sp.spec_is_aligned()
                &&& sp.0 == last_record_lsn.0 + last_record_lsn.spec_padding()
                &&& sp.0 >= last_record_lsn.0
                &&& sp.0 < last_record_lsn.0 + 8
            },
            Err(WalReceiverError::NoPreviousWalPosition) => last_record_lsn.0 == 0,
            Err(WalReceiverError::StartPointOverflow) => last_record_lsn.0
                + last_record_lsn.spec_padding() > u64::MAX,
            Err(_) => false,
        },
{
    if last_record_lsn.0 == 0 {
        return Err(WalReceiverError::NoPreviousWalPosition);
    }
    match last_record_lsn.align_up() {
        Some(sp) => Ok(sp),
        None => Err(WalReceiverError::StartPointOverflow),
    }
}

/// Accepts a decoded record only at an aligned LSN. Page lookups are made
/// at aligned LSNs, so ingesting a misaligned record risks a deadlock.
pub fn validate_record_lsn(lsn: Lsn) -> (r: Result<Lsn, WalReceiverError>)
    ensures
        match r {
            Ok(l) => l == lsn && lsn.0 % 8 == 0,
            Err(e) => e == WalReceiverError::MisalignedRecord && lsn.0 % 8 != 0,
        },
{
    if lsn.is_aligned() {
        Ok(lsn)
    } else {
        Err(WalReceiverError::MisalignedRecord)
    }
}

/// Whether the stream has caught up: the end of the received payload has
/// reached the end of WAL that `IDENTIFY_SYSTEM` reported.
pub fn update_caught_up(caught_up: bool, endlsn: Lsn, end_of_wal: Lsn) -> (r: bool)
    ensures
        r == (caught_up || endlsn.0 >= end_of_wal.0),
{
    caught_up || endlsn.0 >= end_of_wal.0
}

/// Which LSN, if any, a message schedules a status update for: the payload
/// end for WAL data, the last record for a keepalive that requests a reply.
pub fn status_update_lsn(msg: &ReplicationMessage, last_rec_lsn: Lsn) -> (r: Option<Lsn>)
    requires
        msg matches ReplicationMessage::XLogData { wal_start, data_len, .. } ==> wal_start.0
            + *data_len <= u64::MAX,
    ensures
        match *msg {
            ReplicationMessage::XLogData { wal_start, data_len, .. } => r == Some(
                Lsn((wal_start.0 + data_len) as u64),
            ),
            ReplicationMessage::PrimaryKeepAlive { reply_requested, .. } => r == if reply_requested {
                Some(last_rec_lsn)
            } else {
                None::<Lsn>
            },
        },
{
    match *msg {
        ReplicationMessage::XLogData { wal_start, data_len, .. } => Some(
            Lsn(wal_start.0 + data_len),
        ),
        ReplicationMessage::PrimaryKeepAlive { reply_requested, .. } => if reply_requested {
            Some(last_rec_lsn)
        } else {
            None
        },
    }
}

/// The replication feedback sent upstream; its three LSNs drive the
/// safekeeper's WAL trimming.
#[derive(Clone, Copy, Debug, PartialEq, Eq, Structural)]
pub struct ReplicationFeedback {
    pub current_timeline_size: u64,
    /// The last LSN processed; not necessarily durable.
    pub ps_writelsn: u64,
    /// The LSN up to which local state is durable.
    pub ps_flushlsn: u64,
    /// The LSN synced to remote storage; WAL before it may be trimmed.
    pub ps_applylsn: u64,
    /// When the feedback was computed, in microseconds since the epoch.
    pub ps_replytime: u64,
}

/// Builds the feedback for one status update.
///
/// The write LSN is the last processed one; the flush LSN is the local
/// `disk_consistent_lsn`; the apply LSN is the remote index's consistent
/// LSN, or zero when no checkpoint was uploaded yet. When the inputs are
/// ordered as the system keeps them — remote-consistent no newer than
/// locally durable, locally durable no newer than last processed — the
/// feedback LSNs satisfy `apply <= flush <= write`.
pub fn compute_feedback(
    last_lsn: Lsn,
    disk_consistent_lsn: Lsn,
    remote_consistent_lsn: Option<Lsn>,
    current_timeline_size: u64,
    now: u64,
) -> (r: ReplicationFeedback)
    ensures
        r.ps_writelsn == last_lsn.0,
        r.ps_flushlsn == disk_consistent_lsn.0,
        r.ps_applylsn == match remote_consistent_lsn {
            Some(l) => l.0,
            None => 0,
        },
        r.current_timeline_size == current_timeline_size,
        r.ps_replytime == now,
        (match remote_consistent_lsn {
            Some(l) => l.0 <= disk_consistent_lsn.0,
            None => true,
        }) && disk_consistent_lsn.0 <= last_lsn.0 ==> r.ps_applylsn <= r.ps_flushlsn
            <= r.ps_writelsn,
{
    ReplicationFeedback {
        current_timeline_size,
        ps_writelsn: last_lsn.0,
        ps_flushlsn: disk_consistent_lsn.0,
        ps_applylsn: match remote_consistent_lsn {
            Some(l) => l.0,
            None => 0,
        },
        ps_replytime: now,
    }
}

/// The eight big-endian bytes of a 64-bit value.
pub open spec fn u64_be(v: u64) -> Seq<u8> {
    seq![
        (v >> 56) as u8,
        (v >> 48) as u8,
        (v >> 40) as u8,
        (v >> 32) as u8,
        (v >> 24) as u8,
        (v >> 16) as u8,
        (v >> 8) as u8,
        v as u8,
    ]
}

/// The wire form of a feedback message: its five fields in declaration
/// order, each as eight big-endian bytes.
pub open spec fn spec_feedback_bytes(f: ReplicationFeedback) -> Seq<u8> {
    u64_be(f.current_timeline_size) + u64_be(f.ps_writelsn) + u64_be(f.ps_flushlsn) + u64_be(
        f.ps_applylsn,
    ) + u64_be(f.ps_replytime)
}

fn push_u64_be(out: &mut Vec<u8>, v: u64)
    ensures
        final(out)@ == old(out)@ + u64_be(v),
{
    out.push((v >> 56) as u8);
    out.push((v >> 48) as u8);
    out.push((v >> 40) as u8);
    out.push((v >> 32) as u8);
    out.push((v >> 24) as u8);
    out.push((v >> 16) as u8);
    out.push((v >> 8) as u8);
    out.push(v as u8);
    proof {
        assert(out@ =~= old(out)@ + u64_be(v));
    }
}

impl ReplicationFeedback {
    /// Serializes the feedback for the status-update message.
    pub fn serialize(&self) -> (r: Vec<u8>)
        ensures
            r@ == spec_feedback_bytes(*self),
            r@.len() == 40,
    {
        let mut out: Vec<u8> = Vec::new();
        push_u64_be(&mut out, self.current_timeline_size);
        push_u64_be(&mut out, self.ps_writelsn);
        push_u64_be(&mut out, self.ps_flushlsn);
        push_u64_be(&mut out, self.ps_applylsn);
        push_u64_be(&mut out, self.ps_replytime);
        proof {
            assert(out@ =~= spec_feedback_bytes(*self));
        }
        out
    }
}

/// The big-endian value of eight bytes.
pub open spec fn be64(s: Seq<u8>, pos: int) -> u64
    recommends
        0 <= pos,
        pos + 8 <= s.len(),
{
    (s[pos] as u64 * 0x100_0000_0000_0000 + s[pos + 1] as u64 * 0x1_0000_0000_0000 + s[pos
        + 2] as u64 * 0x100_0000_0000 + s[pos + 3] as u64 * 0x1_0000_0000 + s[pos
        + 4] as u64 * 0x100_0000 + s[pos + 5] as u64 * 0x1_0000 + s[pos + 6] as u64 * 0x100 + s[pos
        + 7] as u64) as u64
}

fn read_be64(s: &Vec<u8>, pos: usize) -> (r: u64)
    requires
        pos + 8 <= s@.len(),
    ensures
        r == be64(s@, pos as int),
{
    let n = s.len();
    proof {
        assert(pos + 8 <= n);
    }
    proof {
        assert(s@[pos as int] as u64 * 0x100_0000_0000_0000 + s@[pos + 1] as u64
            * 0x1_0000_0000_0000 + s@[pos + 2] as u64 * 0x100_0000_0000 + s@[pos
            + 3] as u64 * 0x1_0000_0000 + s@[pos + 4] as u64 * 0x100_0000 + s@[pos
            + 5] as u64 * 0x1_0000 + s@[pos + 6] as u64 * 0x100 + s@[pos + 7] as u64 <= 0xFF
            * 0x100_0000_0000_0000 + 0xFF * 0x1_0000_0000_0000 + 0xFF * 0x100_0000_0000 + 0xFF
            * 0x1_0000_0000 + 0xFF * 0x100_0000 + 0xFF * 0x1_0000 + 0xFF * 0x100 + 0xFF);
    }
    s[pos] as u64 * 0x100_0000_0000_0000 + s[pos + 1] as u64 * 0x1_0000_0000_0000 + s[pos
        + 2] as u64 * 0x100_0000_0000 + s[pos + 3] as u64 * 0x1_0000_0000 + s[pos
        + 4] as u64 * 0x100_0000 + s[pos + 5] as u64 * 0x1_0000 + s[pos + 6] as u64 * 0x100 + s[pos
        + 7] as u64
}

/// The tag byte of a WAL-data frame, `w`.
pub const XLOG_DATA_TAG: u8 = 119;

/// The tag byte of a keepalive frame, `k`.
pub const KEEPALIVE_TAG: u8 = 107;

/// Reads the header of one replication frame off the copy-both stream.
///
/// A `w` frame carries the WAL start position, the current end of WAL and
/// a send time, followed by the payload; the returned message's data
/// length counts the payload bytes after the 25-byte header, and
/// `wal_end` is the reported end of WAL. A `k` frame carries the end of
/// WAL, a send time and the reply-request flag. Anything else is no frame
/// this driver decides on.
pub fn parse_replication_frame(frame: &Vec<u8>) -> (r: Option<(ReplicationMessage, usize)>)
    ensures
        match r {
            Some((msg, data_at)) => match msg {
                ReplicationMessage::XLogData { wal_start, data_len, wal_end } => {
                    &&& frame@.len() >= 25
                    &&& frame@[0] == XLOG_DATA_TAG
                    &&& wal_start.0 == be64(frame@, 1)
                    &&& wal_end.0 == be64(frame@, 9)
                    &&& data_at == 25
                    &&& data_len == frame@.len() - 25
                },
                ReplicationMessage::PrimaryKeepAlive { wal_end, timestamp, reply_requested } => {
                    &&& frame@.len() >= 18
                    &&& frame@[0] == KEEPALIVE_TAG
                    &&& wal_end.0 == be64(frame@, 1)
                    &&& timestamp == be64(frame@, 9)
                    &&& reply_requested == (frame@[17] != 0)
                    &&& data_at == 18
                },
            },
            None => frame@.len() == 0 || (frame@[0] == XLOG_DATA_TAG && frame@.len() < 25) || (
            frame@[0] == KEEPALIVE_TAG && frame@.len() < 18) || (frame@[0] != XLOG_DATA_TAG
                && frame@[0] != KEEPALIVE_TAG),
        },
{
    if frame.len() == 0 {
        return None;
    }
    if frame[0] == XLOG_DATA_TAG {
        if frame.len() < 25 {
            return None;
        }
        let wal_start = Lsn(read_be64(frame, 1));
        let wal_end = Lsn(read_be64(frame, 9));
        let data_len = (frame.len() - 25) as u64;
        Some((ReplicationMessage::XLogData { wal_start, data_len, wal_end }, 25))
    } else if frame[0] == KEEPALIVE_TAG {
        if frame.len() < 18 {
            return None;
        }
        let wal_end = Lsn(read_be64(frame, 1));
        let timestamp = read_be64(frame, 9);
        let reply_requested = frame[17] != 0;
        Some((ReplicationMessage::PrimaryKeepAlive { wal_end, timestamp, reply_requested }, 18))
    } else {
        None
    }
}

/// What an entire string denotes as a decimal number, if anything.
pub open spec fn spec_parse_u64(s: Seq<u8>) -> Option<u64> {
    match sp_number(s, 0) {
        Option::Some((v, p)) => if p == s.len() {
            Option::Some(v)
        } else {
            Option::None
        },
        Option::None => Option::None,
    }
}

/// Parses an entire string as a decimal number.
pub fn parse_u64_dec(s: &Vec<u8>) -> (r: Option<u64>)
    ensures
        r == spec_parse_u64(s@),
{
    match parse_number(s, 0) {
        Some((v, p)) => {
            if p == s.len() {
                Some(v)
            } else {
                None
            }
        },
        None => None,
    }
}

/// Accumulates hex digits into a 32-bit value, rejecting overflow.
pub open spec fn sp_hex_body(s: Seq<u8>, pos: int, acc: nat) -> Option<(nat, int)>
    decreases s.len() - pos,
{
    if 0 <= pos < s.len() && crate::ids::is_hex_digit(s[pos]) {
        if acc * 16 + crate::ids::hex_val(s[pos]) <= 0xFFFF_FFFF {
            sp_hex_body(s, pos + 1, (acc * 16 + crate::ids::hex_val(s[pos])) as nat)
        } else {
            Option::None
        }
    } else {
        Option::Some((acc, pos))
    }
}

/// A 32-bit hex number of at least one digit.
pub open spec fn sp_hex32(s: Seq<u8>, pos: int) -> Option<(nat, int)> {
    if 0 <= pos < s.len() && crate::ids::is_hex_digit(s[pos]) {
        sp_hex_body(s, pos, 0)
    } else {
        None
    }
}

/// A parsed hex number never exceeds 32 bits: the parser rejects more.
proof fn lemma_sp_hex_body_bound(s: Seq<u8>, pos: int, acc: nat)
    requires
        acc <= 0xFFFF_FFFF,
    ensures
        sp_hex_body(s, pos, acc) matches Some((v, p)) ==> v <= 0xFFFF_FFFF,
    decreases s.len() - pos,
{
    if 0 <= pos < s.len() && crate::ids::is_hex_digit(s[pos]) {
        if acc * 16 + crate::ids::hex_val(s[pos]) <= 0xFFFF_FFFF {
            lemma_sp_hex_body_bound(
                s,
                pos + 1,
                (acc * 16 + crate::ids::hex_val(s[pos])) as nat,
            );
        }
    }
}

/// What an entire string denotes as a textual LSN — `hi/lo`, both 32-bit
/// hex numbers — if anything.
pub open spec fn spec_parse_lsn(s: Seq<u8>) -> Option<Lsn> {
    match sp_hex32(s, 0) {
        Option::Some((hi, p)) => if 0 <= p < s.len() && s[p] == 47 {
            match sp_hex32(s, p + 1) {
                Option::Some((lo, p2)) => if p2 == s.len() {
                    Option::Some(Lsn((hi * 0x1_0000_0000 + lo) as u64))
                } else {
                    Option::None
                },
                Option::None => Option::None,
            }
        } else {
            Option::None
        },
        Option::None => Option::None,
    }
}

fn parse_hex32(s: &Vec<u8>, pos: usize) -> (r: Option<(u64, usize)>)
    requires
        pos <= s@.len(),
    ensures
        match r {
            Some((v, p)) => sp_hex32(s@, pos as int) == Some((v as nat, p as int)) && p <= s@.len()
                && v <= 0xFFFF_FFFF,
            None => sp_hex32(s@, pos as int) is None,
        },
{
    if !(pos < s.len()) {
        return None;
    }
    let c0 = s[pos];
    let first_ok = (48 <= c0 && c0 <= 57) || (97 <= c0 && c0 <= 102) || (65 <= c0 && c0 <= 70);
    if !first_ok {
        return None;
    }
    let mut acc: u64 = 0;
    let mut i: usize = pos;
    loop
        invariant
            pos as int <= i <= s@.len(),
            acc <= 0xFFFF_FFFF,
            sp_hex32(s@, pos as int) == sp_hex_body(s@, i as int, acc as nat),
        decreases s@.len() - i,
    {
        if i < s.len() {
            let c = s[i];
            let d: u64 = if 48 <= c && c <= 57 {
                (c - 48) as u64
            } else if 97 <= c && c <= 102 {
                (c - 87) as u64
            } else if 65 <= c && c <= 70 {
                (c - 55) as u64
            } else {
                return Some((acc, i));
            };
            proof {
                assert(crate::ids::hex_val(s@[i as int]) == d);
            }
            if acc * 16 + d <= 0xFFFF_FFFF {
                acc = acc * 16 + d;
                i += 1;
            } else {
                return None;
            }
        } else {
            return Some((acc, i));
        }
    }
}

/// Parses an entire string as the textual LSN `IDENTIFY_SYSTEM` reports.
pub fn parse_lsn_text(s: &Vec<u8>) -> (r: Option<Lsn>)
    ensures
        r == spec_parse_lsn(s@),
{
    match parse_hex32(s, 0) {
        None => None,
        Some((hi, p)) => {
            if p < s.len() && s[p] == 47 {
                match parse_hex32(s, p + 1) {
                    Some((lo, p2)) => {
                        if p2 == s.len() {
                            proof {
                                lemma_sp_hex_body_bound(s@, 0, 0);
                                lemma_sp_hex_body_bound(s@, p + 1, 0);
                                assert(hi as nat * 0x1_0000_0000 + lo as nat <= u64::MAX as nat);
                            }
                            Some(Lsn(hi * 0x1_0000_0000 + lo))
                        } else {
                            None
                        }
                    },
                    None => None,
                }
            } else {
                None
            }
        },
    }
}

/// The response to `IDENTIFY_SYSTEM` could not be understood.
#[derive(Clone, Copy, Debug, PartialEq, Eq, Structural)]
pub struct IdentifyError;

/// A well-formed `IDENTIFY_SYSTEM` row: at least three columns, the first
/// a decimal system id, the second a decimal timeline id fitting 32 bits,
/// the third a textual WAL position.
pub open spec fn identify_row_ok(row: Seq<Option<Vec<u8>>>) -> bool {
    &&& row.len() >= 3
    &&& (row[0] matches Some(c0) && spec_parse_u64(c0@) is Some)
    &&& (row[1] matches Some(c1) && (spec_parse_u64(c1@) matches Some(t) && t
        <= u32::MAX as u64))
    &&& (row[2] matches Some(c2) && spec_parse_lsn(c2@) is Some)
}

/// The answer to the postgres `IDENTIFY_SYSTEM` command.
#[derive(Debug)]
pub struct IdentifySystem {
    pub systemid: u64,
    pub timeline: u32,
    pub xlogpos: Lsn,
    pub dbname: Option<Vec<u8>>,
}

/// Extracts the system identity from the columns of the first
/// `IDENTIFY_SYSTEM` row: system id, timeline id, current WAL position,
/// and optionally the database name. It succeeds exactly on well-formed
/// rows; a malformed row is a protocol error, fatal for the connection.
pub fn parse_identify_system(row: Vec<Option<Vec<u8>>>) -> (r: Result<
    IdentifySystem,
    IdentifyError,
>)
    ensures
        match r {
            Ok(ident) => {
                &&& identify_row_ok(row@)
                &&& (row@[0] matches Some(c0) && spec_parse_u64(c0@) == Some(ident.systemid))
                &&& (row@[1] matches Some(c1) && spec_parse_u64(c1@) == Some(
                    ident.timeline as u64,
                ))
                &&& (row@[2] matches Some(c2) && spec_parse_lsn(c2@) == Some(ident.xlogpos))
                &&& match ident.dbname {
                    Some(n) => row@.len() >= 4 && (row@[3] matches Some(c3) && n@ == c3@),
                    None => row@.len() < 4 || row@[3] is None,
                }
            },
            Err(_) => !identify_row_ok(row@),
        },
{
    if row.len() < 3 {
        return Err(IdentifyError);
    }
    let systemid = match &row[0] {
        Some(c) => match parse_u64_dec(c) {
            Some(v) => v,
            None => {
                return Err(IdentifyError);
            },
        },
        None => {
            return Err(IdentifyError);
        },
    };
    let timeline64 = match &row[1] {
        Some(c) => match parse_u64_dec(c) {
            Some(v) => v,
            None => {
                return Err(IdentifyError);
            },
        },
        None => {
            return Err(IdentifyError);
        },
    };
    if timeline64 > u32::MAX as u64 {
        return Err(IdentifyError);
    }
    let xlogpos = match &row[2] {
        Some(c) => match parse_lsn_text(c) {
            Some(l) => l,
            None => {
                return Err(IdentifyError);
            },
        },
        None => {
            return Err(IdentifyError);
        },
    };
    let dbname = if row.len() >= 4 {
        match &row[3] {
            Some(c) => Some(c.clone()),
            None => None,
        }
    } else {
        None
    };
    Ok(IdentifySystem { systemid, timeline: timeline64 as u32, xlogpos, dbname })
}

} // verus!
