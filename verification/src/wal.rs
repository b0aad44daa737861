//! Write-ahead-log records: framing, checking and recovery.
//!
//! A record is laid out as
//! `MAGIC (4) | VERSION (2) | LENGTH (4) | EVENT_ID (8) | TICK (8) | PAYLOAD (LENGTH) | CRC32 (4)`,
//! every integer little-endian. The checksum covers everything before it. The
//! header's cursor is the id and tick of the batch's last event. Recovery
//! keeps the longest prefix of valid records and stops at the first invalid
//! one.
use vstd::prelude::*;

use crate::errors::WalError;
use crate::events::SimEvent;
use crate::types::{EventId, Tick};
use vstd::bytes::{
    spec_u16_from_le_bytes, spec_u16_to_le_bytes, spec_u32_from_le_bytes, spec_u32_to_le_bytes,
    spec_u64_from_le_bytes, spec_u64_to_le_bytes, u16_from_le_bytes, u16_to_le_bytes, u32_from_le_bytes,
    u32_to_le_bytes, u64_from_le_bytes, u64_to_le_bytes,
};
use vstd::slice::slice_subrange;

verus! {

/// Identifies a log record ("WAL1" in ASCII).
pub const WAL_MAGIC: u32 = 0x57414C31u32;

/// The record format version written and accepted.
pub const WAL_VERSION: u16 = 1u16;

/// Bytes before the payload: magic, version, length, event id, tick.
pub const RECORD_HEADER_SIZE: usize = 26usize;

/// Bytes of the trailing checksum.
pub const CRC_SIZE: usize = 4usize;

/// Maximum serialized payload accepted for a single record (16 MiB).
pub const MAX_WAL_PAYLOAD_LEN: u32 = 16777216u32;

/// `n` steps of the bitwise CRC-32 register update with the reflected IEEE
/// polynomial `0xEDB88320`.
pub open spec fn crc_shift(c: u32, n: nat) -> u32
    decreases n,
{
    if n == 0 {
        c
    } else {
        let d = crc_shift(c, (n - 1) as nat);
        if d & 1u32 == 1u32 {
            (d >> 1u32) ^ 0xEDB88320u32
        } else {
            d >> 1u32
        }
    }
}

/// The CRC-32 register after feeding `bytes`, least significant bit first.
pub open spec fn crc_register(init: u32, bytes: Seq<u8>) -> u32
    decreases bytes.len(),
{
    if bytes.len() == 0 {
        init
    } else {
        crc_shift(crc_register(init, bytes.drop_last()) ^ (bytes.last() as u32), 8)
    }
}

/// The CRC-32 (IEEE) checksum of a byte string: the register starts at all
/// ones and is inverted at the end.
pub open spec fn crc32_of(bytes: Seq<u8>) -> u32 {
    !crc_register(0xFFFF_FFFFu32, bytes)
}

/// Calls `crc32fast::hash`, the CRC-32 (IEEE 802.3, reflected polynomial
/// `0xEDB88320`, initial value and final xor all ones) checksum of a byte
/// slice. Claimed: the result is `crc32_of` of the bytes.
#[verifier::external_body]
fn crc32(buf: &[u8]) -> (r: u32)
    ensures
        r == crc32_of(buf@),
{
    crc32fast::hash(buf)
}

pub open spec fn u16_at(b: Seq<u8>, i: int) -> u16 {
    spec_u16_from_le_bytes(b.subrange(i, i + 2))
}

pub open spec fn u32_at(b: Seq<u8>, i: int) -> u32 {
    spec_u32_from_le_bytes(b.subrange(i, i + 4))
}

pub open spec fn u64_at(b: Seq<u8>, i: int) -> u64 {
    spec_u64_from_le_bytes(b.subrange(i, i + 8))
}

/// The header of a record.
pub open spec fn header_bytes(version: u16, len: u32, event_id: u64, tick: u64) -> Seq<u8> {
    spec_u32_to_le_bytes(WAL_MAGIC) + spec_u16_to_le_bytes(version) + spec_u32_to_le_bytes(len)
        + spec_u64_to_le_bytes(event_id) + spec_u64_to_le_bytes(tick)
}

/// The checksum of a record: over its header and payload.
pub open spec fn record_crc(version: u16, len: u32, event_id: u64, tick: u64, payload: Seq<u8>) -> u32 {
    crc32_of(header_bytes(version, len, event_id, tick) + payload)
}

/// The bytes of a record holding `payload`, with the cursor `(event_id, tick)`.
pub open spec fn record_bytes(event_id: u64, tick: u64, payload: Seq<u8>) -> Seq<u8> {
    let len = payload.len() as u32;
    header_bytes(WAL_VERSION, len, event_id, tick) + payload + spec_u32_to_le_bytes(
        record_crc(WAL_VERSION, len, event_id, tick, payload),
    )
}

/// Where a well-framed record lies, and its header cursor.
#[derive(Clone, Copy, Debug, PartialEq, Eq, Structural)]
pub struct RecordFrame {
    pub event_id: u64,
    pub tick: u64,
    pub payload_start: usize,
    pub payload_len: u32,
    /// Offset just past the record's checksum.
    pub end: usize,
}

/// The outcome of reading the record that starts at `off`: its frame, or why
/// it cannot be read. Fields are checked in the order they are stored; the
/// payload bound and the remaining length are checked before the payload is
/// read.
pub open spec fn spec_decode_frame(b: Seq<u8>, off: int) -> Result<RecordFrame, WalError> {
    let rem = b.len() - off;
    if rem < 4 {
        Err(WalError::Truncated)
    } else if u32_at(b, off) != WAL_MAGIC {
        Err(WalError::InvalidMagic { found: u32_at(b, off) })
    } else if rem < 6 {
        Err(WalError::Truncated)
    } else if u16_at(b, off + 4) != WAL_VERSION {
        Err(WalError::UnsupportedVersion { found: u16_at(b, off + 4) })
    } else if rem < 26 {
        Err(WalError::Truncated)
    } else {
        let len = u32_at(b, off + 6);
        let event_id = u64_at(b, off + 10);
        let tick = u64_at(b, off + 18);
        if len > MAX_WAL_PAYLOAD_LEN {
            Err(WalError::PayloadTooLarge { len })
        } else if len + 4 > rem - 26 {
            Err(WalError::LengthBeyondEnd { required: (len + 4) as u64, available: (rem - 26) as u64 })
        } else {
            let payload = b.subrange(off + 26, off + 26 + len);
            let stored = u32_at(b, off + 26 + len);
            let computed = record_crc(WAL_VERSION, len, event_id, tick, payload);
            if stored != computed {
                Err(WalError::CrcMismatch { stored, computed })
            } else {
                Ok(
                    RecordFrame {
                        event_id,
                        tick,
                        payload_start: (off + 26) as usize,
                        payload_len: len,
                        end: (off + 30 + len) as usize,
                    },
                )
            }
        }
    }
}

fn read_u16(b: &[u8], i: usize) -> (r: u16)
    requires
        i + 2 <= b@.len(),
    ensures
        r == u16_at(b@, i as int),
{
    let _n = b.len();
    u16_from_le_bytes(slice_subrange(b, i, i + 2))
}

fn read_u32(b: &[u8], i: usize) -> (r: u32)
    requires
        i + 4 <= b@.len(),
    ensures
        r == u32_at(b@, i as int),
{
    let _n = b.len();
    u32_from_le_bytes(slice_subrange(b, i, i + 4))
}

fn read_u64(b: &[u8], i: usize) -> (r: u64)
    requires
        i + 8 <= b@.len(),
    ensures
        r == u64_at(b@, i as int),
{
    let _n = b.len();
    u64_from_le_bytes(slice_subrange(b, i, i + 8))
}

fn append_bytes(v: &mut Vec<u8>, s: &[u8])
    ensures
        final(v)@ == old(v)@ + s@,
{
    let mut i: usize = 0;
    let ghost start = v@;
    while i < s.len()
        invariant
            i <= s@.len(),
            v@ == start + s@.take(i as int),
        decreases s@.len() - i,
    {
        v.push(s[i]);
        i = i + 1;
        proof {
            assert(v@ =~= start + s@.take(i as int));
        }
    }
    proof {
        assert(s@.take(s@.len() as int) =~= s@);
    }
}

fn header_vec(version: u16, len: u32, event_id: u64, tick: u64) -> (r: Vec<u8>)
    ensures
        r@ == header_bytes(version, len, event_id, tick),
{
    let mut r: Vec<u8> = Vec::new();
    let m = u32_to_le_bytes(WAL_MAGIC);
    append_bytes(&mut r, m.as_slice());
    let v = u16_to_le_bytes(version);
    append_bytes(&mut r, v.as_slice());
    let l = u32_to_le_bytes(len);
    append_bytes(&mut r, l.as_slice());
    let e = u64_to_le_bytes(event_id);
    append_bytes(&mut r, e.as_slice());
    let t = u64_to_le_bytes(tick);
    append_bytes(&mut r, t.as_slice());
    r
}

/// The checksum of a record's header and payload.
pub fn compute_crc(version: u16, length: u32, event_id: u64, tick: u64, payload: &[u8]) -> (r: u32)
    ensures
        r == record_crc(version, length, event_id, tick, payload@),
{
    let mut covered = header_vec(version, length, event_id, tick);
    append_bytes(&mut covered, payload);
    crc32(covered.as_slice())
}

/// A payload length as reported in an error: the length itself, or the
/// largest `u32` for a longer payload.
pub open spec fn reported_len(n: nat) -> u32 {
    if n > u32::MAX {
        u32::MAX
    } else {
        n as u32
    }
}

/// Frames a payload as one record whose header cursor is `(event_id, tick)`.
/// A payload longer than `MAX_WAL_PAYLOAD_LEN` is refused with its length.
pub fn encode_record(event_id: u64, tick: u64, payload: &[u8]) -> (r: Result<Vec<u8>, WalError>)
    ensures
        payload@.len() > MAX_WAL_PAYLOAD_LEN ==> r == Err::<Vec<u8>, WalError>(
            WalError::PayloadTooLarge { len: reported_len(payload@.len()) },
        ),
        payload@.len() <= MAX_WAL_PAYLOAD_LEN ==> (r matches Ok(v) && v@ == record_bytes(event_id, tick, payload@)),
{
    if payload.len() > 16777216usize {
        let len: u32 = if payload.len() > 4294967295usize {
            4294967295u32
        } else {
            payload.len() as u32
        };
        return Err(WalError::PayloadTooLarge { len });
    }
    let len = payload.len() as u32;
    let crc = compute_crc(WAL_VERSION, len, event_id, tick, payload);
    let mut record = header_vec(WAL_VERSION, len, event_id, tick);
    append_bytes(&mut record, payload);
    let c = u32_to_le_bytes(crc);
    append_bytes(&mut record, c.as_slice());
    Ok(record)
}

/// Reads the frame of the record that starts at `offset`, checking its
/// magic, version, payload bound, length and checksum.
pub fn decode_frame(bytes: &[u8], offset: usize) -> (r: Result<RecordFrame, WalError>)
    requires
        offset <= bytes@.len(),
    ensures
        r == spec_decode_frame(bytes@, offset as int),
{
    let rem = bytes.len() - offset;
    if rem < 4 {
        return Err(WalError::Truncated);
    }
    let magic = read_u32(bytes, offset);
    if magic != WAL_MAGIC {
        return Err(WalError::InvalidMagic { found: magic });
    }
    if rem < 6 {
        return Err(WalError::Truncated);
    }
    let version = read_u16(bytes, offset + 4);
    if version != WAL_VERSION {
        return Err(WalError::UnsupportedVersion { found: version });
    }
    if rem < 26 {
        return Err(WalError::Truncated);
    }
    let len = read_u32(bytes, offset + 6);
    let event_id = read_u64(bytes, offset + 10);
    let tick = read_u64(bytes, offset + 18);
    if len > MAX_WAL_PAYLOAD_LEN {
        return Err(WalError::PayloadTooLarge { len });
    }
    let available = rem - 26;
    if len as usize + 4 > available {
        return Err(WalError::LengthBeyondEnd { required: len as u64 + 4, available: available as u64 });
    }
    let start = offset + 26;
    let end_payload = start + len as usize;
    let payload = slice_subrange(bytes, start, end_payload);
    let stored = read_u32(bytes, end_payload);
    let computed = compute_crc(WAL_VERSION, len, event_id, tick, payload);
    if stored != computed {
        return Err(WalError::CrcMismatch { stored, computed });
    }
    Ok(RecordFrame { event_id, tick, payload_start: start, payload_len: len, end: end_payload + 4 })
}

/// The frames of the records laid end to end from `off`, up to the end of
/// the data or the first record that cannot be read (and why).
pub open spec fn spec_frames(b: Seq<u8>, off: int) -> (Seq<RecordFrame>, Option<WalError>)
    decreases b.len() - off,
{
    if off < 0 || off >= b.len() || b.len() > usize::MAX {
        (seq![], None)
    } else {
        match spec_decode_frame(b, off) {
            Err(e) => (seq![], Some(e)),
            Ok(f) => {
                let rest = spec_frames(b, f.end as int);
                (seq![f] + rest.0, rest.1)
            },
        }
    }
}

/// Reads the frames of all records from the start of the log's bytes, up to
/// the end or the first record that cannot be read.
pub fn frame_records(bytes: &[u8]) -> (r: (Vec<RecordFrame>, Option<WalError>))
    ensures
        (r.0@, r.1) == spec_frames(bytes@, 0),
{
    let mut frames: Vec<RecordFrame> = Vec::new();
    let mut offset: usize = 0;
    let n = bytes.len();
    while offset < n
        invariant
            n == bytes@.len(),
            offset <= n,
            spec_frames(bytes@, 0) == (frames@ + spec_frames(bytes@, offset as int).0, spec_frames(bytes@, offset as int).1),
        decreases n - offset,
    {
        match decode_frame(bytes, offset) {
            Err(e) => {
                return (frames, Some(e));
            },
            Ok(f) => {
                proof {
                    let rest = spec_frames(bytes@, f.end as int);
                    assert(spec_frames(bytes@, offset as int) == (seq![f] + rest.0, rest.1));
                    assert(frames@ + (seq![f] + rest.0) =~= frames@.push(f) + rest.0);
                }
                frames.push(f);
                offset = f.end;
            },
        }
    }
    proof {
        assert(frames@ + seq![] =~= frames@);
    }
    (frames, None)
}

/// Whether a decoded payload is a batch that fits its record: `None` stands
/// for a payload that is not a batch of events; a batch must be non-empty and
/// its last event must carry the header's cursor.
pub open spec fn spec_check_batch(f: RecordFrame, decoded: Option<Seq<SimEvent>>) -> Result<Seq<SimEvent>, WalError> {
    match decoded {
        None => Err(WalError::InvalidPayload),
        Some(evs) => if evs.len() == 0 {
            Err(WalError::EmptyBatch)
        } else if evs.last().event_id.0 != f.event_id || evs.last().tick.0 != f.tick {
            Err(
                WalError::HeaderMismatch {
                    header_event_id: f.event_id,
                    header_tick: f.tick,
                    last_event_id: evs.last().event_id.0,
                    last_tick: evs.last().tick.0,
                },
            )
        } else {
            Ok(evs)
        },
    }
}

pub open spec fn opt_events_view(d: Option<Vec<SimEvent>>) -> Option<Seq<SimEvent>> {
    match d {
        Some(v) => Some(v@),
        None => None,
    }
}

/// Checks a record's decoded payload against its header.
pub fn check_batch(frame: &RecordFrame, decoded: Option<Vec<SimEvent>>) -> (r: Result<Vec<SimEvent>, WalError>)
    ensures
        match r {
            Ok(v) => spec_check_batch(*frame, opt_events_view(decoded)) == Ok::<Seq<SimEvent>, WalError>(v@),
            Err(e) => spec_check_batch(*frame, opt_events_view(decoded)) == Err::<Seq<SimEvent>, WalError>(e),
        },
{
    match decoded {
        None => Err(WalError::InvalidPayload),
        Some(evs) => {
            if evs.len() == 0 {
                return Err(WalError::EmptyBatch);
            }
            let last_id = evs[evs.len() - 1].event_id.0;
            let last_tick = evs[evs.len() - 1].tick.0;
            if last_id != frame.event_id || last_tick != frame.tick {
                return Err(
                    WalError::HeaderMismatch {
                        header_event_id: frame.event_id,
                        header_tick: frame.tick,
                        last_event_id: last_id,
                        last_tick,
                    },
                );
            }
            Ok(evs)
        },
    }
}

/// The durable tail of the log: the last event id (0 when empty), the last
/// tick, and how many events it holds.
#[derive(Clone, Copy, Debug, PartialEq, Eq, Structural)]
pub struct WalCursor {
    pub last_event_id: EventId,
    pub last_tick: Option<Tick>,
    pub total_events: u64,
}

impl WalCursor {
    /// The cursor of an empty log.
    pub fn empty() -> (r: Self)
        ensures
            r == (WalCursor { last_event_id: EventId(0), last_tick: None, total_events: 0 }),
    {
        WalCursor { last_event_id: EventId(0), last_tick: None, total_events: 0 }
    }

    /// The id the next appended event gets.
    pub open spec fn next_event_id(&self) -> int {
        self.last_event_id.0 + 1
    }

    pub fn last_event_id(&self) -> (r: EventId)
        ensures
            r == self.last_event_id,
    {
        self.last_event_id
    }

    pub fn last_tick(&self) -> (r: Option<Tick>)
        ensures
            r == self.last_tick,
    {
        self.last_tick
    }

    pub fn len(&self) -> (r: u64)
        ensures
            r == self.total_events,
    {
        self.total_events
    }

    pub fn is_empty(&self) -> (r: bool)
        ensures
            r == (self.total_events == 0),
    {
        self.total_events == 0
    }
}

/// The events of a list of batches, in order.
pub open spec fn flatten(batches: Seq<Seq<SimEvent>>) -> Seq<SimEvent>
    decreases batches.len(),
{
    if batches.len() == 0 {
        seq![]
    } else {
        flatten(batches.drop_last()) + batches.last()
    }
}

/// The checked batches of the records, up to the first one that fails.
pub open spec fn checked_prefix(frames: Seq<RecordFrame>, decoded: Seq<Option<Seq<SimEvent>>>, i: int) -> Seq<Seq<SimEvent>>
    decreases frames.len() - i,
{
    if i < 0 || i >= frames.len() || i >= decoded.len() {
        seq![]
    } else {
        match spec_check_batch(frames[i], decoded[i]) {
            Ok(evs) => seq![evs] + checked_prefix(frames, decoded, i + 1),
            Err(_) => seq![],
        }
    }
}

/// What recovery keeps of a log: the events of its valid prefix of records,
/// the durable cursor, the length of the valid prefix in bytes, and the
/// first reason a record was refused.
pub struct WalRecovery {
    pub events: Vec<SimEvent>,
    pub cursor: WalCursor,
    pub valid_end: usize,
    pub error: Option<WalError>,
}

pub open spec fn decoded_view(d: Seq<Option<Vec<SimEvent>>>) -> Seq<Option<Seq<SimEvent>>> {
    d.map_values(|x: Option<Vec<SimEvent>>| opt_events_view(x))
}

/// The outcome of recovery over the frames of a log and their decoded
/// payloads.
pub open spec fn recovered(
    frames: Seq<RecordFrame>,
    decoded: Seq<Option<Seq<SimEvent>>>,
    frame_error: Option<WalError>,
    r: WalRecovery,
) -> bool {
    let kept = checked_prefix(frames, decoded, 0);
    let k = kept.len() as int;
    let evs = flatten(kept);
    &&& r.events@ == evs
    &&& r.cursor.total_events == evs.len()
    &&& r.cursor.last_event_id.0 == if k == 0 { 0 } else { frames[k - 1].event_id }
    &&& r.cursor.last_tick == if k == 0 { None } else { Some(Tick(frames[k - 1].tick)) }
    &&& r.valid_end == if k == 0 { 0 } else { frames[k - 1].end }
    &&& r.error == if k < frames.len() {
        match spec_check_batch(frames[k], decoded[k]) {
            Err(e) => Some(e),
            Ok(_) => None,
        }
    } else {
        frame_error
    }
}

proof fn lemma_checked_prefix(frames: Seq<RecordFrame>, decoded: Seq<Option<Seq<SimEvent>>>, i: int)
    requires
        0 <= i <= frames.len(),
        frames.len() == decoded.len(),
        forall|j: int| 0 <= j < i ==> spec_check_batch(frames[j], decoded[j]) is Ok,
    ensures
        checked_prefix(frames, decoded, 0) == Seq::new(i as nat, |j: int| spec_check_batch(frames[j], decoded[j])->Ok_0)
            + checked_prefix(frames, decoded, i),
    decreases i,
{
    if i > 0 {
        lemma_checked_prefix(frames, decoded, i - 1);
        let x = spec_check_batch(frames[i - 1], decoded[i - 1])->Ok_0;
        assert(checked_prefix(frames, decoded, i - 1) == seq![x] + checked_prefix(frames, decoded, i));
        assert(Seq::new((i - 1) as nat, |j: int| spec_check_batch(frames[j], decoded[j])->Ok_0) + (seq![x]
            + checked_prefix(frames, decoded, i)) =~= Seq::new(i as nat, |j: int| spec_check_batch(frames[j], decoded[j])->Ok_0)
            + checked_prefix(frames, decoded, i));
    } else {
        assert(Seq::new(0, |j: int| spec_check_batch(frames[j], decoded[j])->Ok_0) + checked_prefix(frames, decoded, 0)
            =~= checked_prefix(frames, decoded, 0));
    }
}

/// Recovery: keeps the records whose payload is a valid batch, in order, up to
/// the first that is not, and reports the cursor and byte length of what it
/// kept. `decoded` holds, for each frame, its payload read as a batch of
/// events (`None` when the payload is not one).
pub fn recover_log(frames: &Vec<RecordFrame>, decoded: Vec<Option<Vec<SimEvent>>>, frame_error: Option<WalError>) -> (r: WalRecovery)
    requires
        decoded@.len() == frames@.len(),
    ensures
        recovered(frames@, decoded_view(decoded@), frame_error, r),
{
    let ghost dv = decoded_view(decoded@);
    let ghost fv = frames@;
    let mut pending = decoded;
    let mut events: Vec<SimEvent> = Vec::new();
    let mut cursor = WalCursor::empty();
    let mut valid_end: usize = 0;
    let mut i: usize = 0;
    let ghost mut kept: Seq<Seq<SimEvent>> = seq![];
    while i < frames.len()
        invariant
            fv == frames@,
            dv == decoded_view(decoded@),
            dv.len() == fv.len(),
            pending@.len() == frames@.len(),
            forall|j: int| i <= j < fv.len() ==> opt_events_view(#[trigger] pending@[j]) == dv[j],
            i <= frames@.len(),
            forall|j: int| 0 <= j < i ==> spec_check_batch(fv[j], dv[j]) is Ok,
            kept == Seq::new(i as nat, |j: int| spec_check_batch(fv[j], dv[j])->Ok_0),
            events@ == flatten(kept),
            cursor.total_events == events@.len(),
            cursor.last_event_id.0 == if i == 0 { 0 } else { fv[i - 1].event_id },
            cursor.last_tick == if i == 0 { None } else { Some(Tick(fv[i - 1].tick)) },
            valid_end == if i == 0 { 0 } else { fv[i - 1].end },
        decreases frames@.len() - i,
    {
        let mut tmp: Option<Vec<SimEvent>> = None;
        std::mem::swap(&mut tmp, &mut pending[i]);
        let ghost tv = opt_events_view(tmp);
        assert(tv == dv[i as int]);
        match check_batch(&frames[i], tmp) {
            Err(e) => {
                proof {
                    lemma_checked_prefix(fv, dv, i as int);
                    assert(spec_check_batch(fv[i as int], dv[i as int]) == Err::<Seq<SimEvent>, WalError>(e));
                    assert(checked_prefix(fv, dv, i as int) == Seq::<Seq<SimEvent>>::empty());
                    assert(kept + Seq::<Seq<SimEvent>>::empty() =~= kept);
                    assert(checked_prefix(fv, dv, 0) =~= kept);
                }
                return WalRecovery { events, cursor, valid_end, error: Some(e) };
            },
            Ok(batch) => {
                let ghost b = batch@;
                let n = batch.len();
                let last_id = batch[n - 1].event_id;
                let last_tick = batch[n - 1].tick;
                let mut batch = batch;
                events.append(&mut batch);
                cursor = WalCursor { last_event_id: last_id, last_tick: Some(last_tick), total_events: events.len() as u64 };
                valid_end = frames[i].end;
                proof {
                    let k2 = kept.push(b);
                    assert(k2.drop_last() =~= kept);
                    assert(events@ =~= flatten(k2));
                    kept = k2;
                    assert(kept =~= Seq::new((i + 1) as nat, |j: int| spec_check_batch(fv[j], dv[j])->Ok_0));
                }
                i = i + 1;
            },
        }
    }
    proof {
        lemma_checked_prefix(fv, dv, i as int);
        assert(kept + seq![] =~= kept);
        assert(checked_prefix(fv, dv, 0) =~= kept);
    }
    WalRecovery { events, cursor, valid_end, error: frame_error }
}

/// The batch with ids assigned from the cursor on: the i-th event gets id
/// `last_event_id + 1 + i`, and is otherwise unchanged.
pub open spec fn with_assigned_ids(cursor: WalCursor, events: Seq<SimEvent>) -> Seq<SimEvent> {
    Seq::new(events.len(), |i: int| SimEvent { event_id: EventId((cursor.last_event_id.0 + 1 + i) as u64), ..events[i] })
}

/// Assigns contiguous event ids to a batch, continuing from the cursor.
/// Refused when the ids would pass the largest `u64`.
pub fn assign_event_ids(cursor: &WalCursor, events: Vec<SimEvent>) -> (r: Result<Vec<SimEvent>, WalError>)
    ensures
        cursor.last_event_id.0 + events@.len() > u64::MAX ==> r == Err::<Vec<SimEvent>, WalError>(WalError::EventIdsExhausted),
        cursor.last_event_id.0 + events@.len() <= u64::MAX ==> (r matches Ok(v) && v@ == with_assigned_ids(*cursor, events@)),
{
    let n = events.len();
    if n as u64 > u64::MAX - cursor.last_event_id.0 {
        return Err(WalError::EventIdsExhausted);
    }
    let mut persisted: Vec<SimEvent> = Vec::new();
    let mut i: usize = 0;
    while i < n
        invariant
            n == events@.len(),
            cursor.last_event_id.0 + n <= u64::MAX,
            i <= n,
            persisted@ =~= with_assigned_ids(*cursor, events@).take(i as int),
        decreases n - i,
    {
        let e = events[i].clone();
        persisted.push(SimEvent { event_id: EventId(cursor.last_event_id.0 + 1 + i as u64), ..e });
        i = i + 1;
    }
    Ok(persisted)
}

/// The cursor after a batch of persisted events was appended: an empty batch
/// changes nothing; otherwise the cursor moves to the batch's last event and
/// the count grows by the batch's length (saturating).
pub open spec fn cursor_after(cursor: WalCursor, persisted: Seq<SimEvent>) -> WalCursor {
    if persisted.len() == 0 {
        cursor
    } else {
        WalCursor {
            last_event_id: persisted.last().event_id,
            last_tick: Some(persisted.last().tick),
            total_events: if cursor.total_events + persisted.len() > u64::MAX {
                u64::MAX
            } else {
                (cursor.total_events + persisted.len()) as u64
            },
        }
    }
}

impl WalCursor {
    /// Moves the cursor past an appended batch.
    pub fn record_append(&mut self, persisted: &Vec<SimEvent>)
        ensures
            *final(self) == cursor_after(*old(self), persisted@),
    {
        let n = persisted.len();
        if n > 0 {
            self.last_event_id = persisted[n - 1].event_id;
            self.last_tick = Some(persisted[n - 1].tick);
            self.total_events = self.total_events.saturating_add(n as u64);
        }
    }
}

/// Frames a persisted batch as one record, its header cursor being the last
/// event's id and tick; `payload` is the batch's serialized form. An empty
/// batch and an oversized payload are refused.
pub fn encode_batch_record(persisted: &Vec<SimEvent>, payload: &[u8]) -> (r: Result<Vec<u8>, WalError>)
    ensures
        persisted@.len() == 0 ==> r == Err::<Vec<u8>, WalError>(WalError::EmptyBatch),
        persisted@.len() > 0 && payload@.len() > MAX_WAL_PAYLOAD_LEN ==> r == Err::<Vec<u8>, WalError>(
            WalError::PayloadTooLarge { len: reported_len(payload@.len()) },
        ),
        persisted@.len() > 0 && payload@.len() <= MAX_WAL_PAYLOAD_LEN ==> (r matches Ok(v) && v@ == record_bytes(
            persisted@.last().event_id.0,
            persisted@.last().tick.0,
            payload@,
        )),
{
    let n = persisted.len();
    if n == 0 {
        return Err(WalError::EmptyBatch);
    }
    encode_record(persisted[n - 1].event_id.0, persisted[n - 1].tick.0, payload)
}

/// The events of a log whose id is above `from_id`, in order.
pub open spec fn log_after(events: Seq<SimEvent>, from_id: EventId) -> Seq<SimEvent> {
    events.filter(|e: SimEvent| e.event_id.0 > from_id.0)
}

/// The events of a log whose id is at most `event_id`, in order.
pub open spec fn log_up_to(events: Seq<SimEvent>, event_id: EventId) -> Seq<SimEvent> {
    events.filter(|e: SimEvent| e.event_id.0 <= event_id.0)
}

/// The events whose id is above `from_id`, in order.
pub fn events_after(events: &Vec<SimEvent>, from_id: EventId) -> (r: Vec<SimEvent>)
    ensures
        r@ == log_after(events@, from_id),
{
    let mut r: Vec<SimEvent> = Vec::new();
    let mut i: usize = 0;
    while i < events.len()
        invariant
            i <= events@.len(),
            r@ == events@.take(i as int).filter(|e: SimEvent| e.event_id.0 > from_id.0),
        decreases events@.len() - i,
    {
        proof {
            assert(events@.take(i as int + 1).drop_last() =~= events@.take(i as int));
            reveal(Seq::filter);
        }
        if events[i].event_id.0 > from_id.0 {
            r.push(events[i].clone());
        }
        i = i + 1;
    }
    proof {
        assert(events@.take(events@.len() as int) =~= events@);
    }
    r
}

/// The events whose id is at most `event_id`, in order.
pub fn events_up_to(events: &Vec<SimEvent>, event_id: EventId) -> (r: Vec<SimEvent>)
    ensures
        r@ == log_up_to(events@, event_id),
{
    let mut r: Vec<SimEvent> = Vec::new();
    let mut i: usize = 0;
    while i < events.len()
        invariant
            i <= events@.len(),
            r@ == events@.take(i as int).filter(|e: SimEvent| e.event_id.0 <= event_id.0),
        decreases events@.len() - i,
    {
        proof {
            assert(events@.take(i as int + 1).drop_last() =~= events@.take(i as int));
            reveal(Seq::filter);
        }
        if events[i].event_id.0 <= event_id.0 {
            r.push(events[i].clone());
        }
        i = i + 1;
    }
    proof {
        assert(events@.take(events@.len() as int) =~= events@);
    }
    r
}

proof fn lemma_window(b: Seq<u8>, off: int, r: Seq<u8>, a: int, k: int)
    requires
        0 <= off,
        off + r.len() <= b.len(),
        b.subrange(off, off + r.len()) == r,
        0 <= a,
        0 <= k,
        a + k <= r.len(),
    ensures
        b.subrange(off + a, off + a + k) == r.subrange(a, a + k),
{
    assert forall|i: int| 0 <= i < k implies #[trigger] b.subrange(off + a, off + a + k)[i] == r.subrange(a, a + k)[i] by {
        assert(r[a + i] == b.subrange(off, off + r.len())[a + i]);
    }
    assert(b.subrange(off + a, off + a + k) =~= r.subrange(a, a + k));
}

proof fn lemma_record_layout(event_id: u64, tick: u64, payload: Seq<u8>)
    requires
        payload.len() <= MAX_WAL_PAYLOAD_LEN,
    ensures
        ({
            let r = record_bytes(event_id, tick, payload);
            let len = payload.len() as u32;
            &&& len == payload.len()
            &&& r.len() == 30 + payload.len()
            &&& spec_u32_from_le_bytes(r.subrange(0, 4)) == WAL_MAGIC
            &&& spec_u16_from_le_bytes(r.subrange(4, 6)) == WAL_VERSION
            &&& spec_u32_from_le_bytes(r.subrange(6, 10)) == len
            &&& spec_u64_from_le_bytes(r.subrange(10, 18)) == event_id
            &&& spec_u64_from_le_bytes(r.subrange(18, 26)) == tick
            &&& r.subrange(26, 26 + payload.len() as int) == payload
            &&& spec_u32_from_le_bytes(r.subrange(26 + payload.len() as int, 30 + payload.len() as int)) == record_crc(
                WAL_VERSION,
                len,
                event_id,
                tick,
                payload,
            )
        }),
{
    vstd::bytes::lemma_auto_spec_u16_to_from_le_bytes();
    vstd::bytes::lemma_auto_spec_u32_to_from_le_bytes();
    vstd::bytes::lemma_auto_spec_u64_to_from_le_bytes();
    let len = payload.len() as u32;
    let m = spec_u32_to_le_bytes(WAL_MAGIC);
    let v = spec_u16_to_le_bytes(WAL_VERSION);
    let l = spec_u32_to_le_bytes(len);
    let e = spec_u64_to_le_bytes(event_id);
    let t = spec_u64_to_le_bytes(tick);
    let c = spec_u32_to_le_bytes(record_crc(WAL_VERSION, len, event_id, tick, payload));
    let r = record_bytes(event_id, tick, payload);
    assert(r == m + v + l + e + t + payload + c);
    assert(r.subrange(0, 4) =~= m);
    assert(r.subrange(4, 6) =~= v);
    assert(r.subrange(6, 10) =~= l);
    assert(r.subrange(10, 18) =~= e);
    assert(r.subrange(18, 26) =~= t);
    assert(r.subrange(26, 26 + payload.len() as int) =~= payload);
    assert(r.subrange(26 + payload.len() as int, 30 + payload.len() as int) =~= c);
}

/// Reading back a written record: wherever the bytes of a record encoded from
/// `(event_id, tick, payload)` stand in the log, the frame read there carries
/// that cursor, covers exactly that payload, and ends right after the record.
pub proof fn law_decode_encoded_record(b: Seq<u8>, off: int, event_id: u64, tick: u64, payload: Seq<u8>)
    requires
        payload.len() <= MAX_WAL_PAYLOAD_LEN,
        0 <= off,
        off + record_bytes(event_id, tick, payload).len() <= b.len(),
        b.len() <= usize::MAX,
        b.subrange(off, off + record_bytes(event_id, tick, payload).len()) == record_bytes(event_id, tick, payload),
    ensures
        spec_decode_frame(b, off) == Ok::<RecordFrame, WalError>(
            RecordFrame {
                event_id,
                tick,
                payload_start: (off + 26) as usize,
                payload_len: payload.len() as u32,
                end: (off + 30 + payload.len() as int) as usize,
            },
        ),
        b.subrange(off + 26, off + 26 + payload.len() as int) == payload,
{
    let r = record_bytes(event_id, tick, payload);
    let n = payload.len() as int;
    lemma_record_layout(event_id, tick, payload);
    lemma_window(b, off, r, 0, 4);
    lemma_window(b, off, r, 4, 2);
    lemma_window(b, off, r, 6, 4);
    lemma_window(b, off, r, 10, 8);
    lemma_window(b, off, r, 18, 8);
    lemma_window(b, off, r, 26, n);
    lemma_window(b, off, r, 26 + n, 4);
}

/// The bytes of records written one after the other; each record is
/// `(event_id, tick, payload)`.
pub open spec fn records_bytes(rs: Seq<(u64, u64, Seq<u8>)>) -> Seq<u8>
    decreases rs.len(),
{
    if rs.len() == 0 {
        seq![]
    } else {
        record_bytes(rs[0].0, rs[0].1, rs[0].2) + records_bytes(rs.drop_first())
    }
}

/// The frames of records written one after the other from offset `off`.
pub open spec fn records_frames(rs: Seq<(u64, u64, Seq<u8>)>, off: int) -> Seq<RecordFrame>
    decreases rs.len(),
{
    if rs.len() == 0 {
        seq![]
    } else {
        seq![
            RecordFrame {
                event_id: rs[0].0,
                tick: rs[0].1,
                payload_start: (off + 26) as usize,
                payload_len: rs[0].2.len() as u32,
                end: (off + 30 + rs[0].2.len()) as usize,
            },
        ] + records_frames(rs.drop_first(), off + 30 + rs[0].2.len())
    }
}

pub open spec fn payloads_fit(rs: Seq<(u64, u64, Seq<u8>)>) -> bool {
    forall|i: int| 0 <= i < rs.len() ==> (#[trigger] rs[i]).2.len() <= MAX_WAL_PAYLOAD_LEN
}

proof fn lemma_records_frames(pre: Seq<u8>, rs: Seq<(u64, u64, Seq<u8>)>, tail: Seq<u8>)
    requires
        payloads_fit(rs),
        (pre + records_bytes(rs) + tail).len() <= usize::MAX,
    ensures
        ({
            let b = pre + records_bytes(rs) + tail;
            let fr = spec_frames(b, pre.len() as int);
            &&& fr.0.len() >= rs.len()
            &&& fr.0.take(rs.len() as int) == records_frames(rs, pre.len() as int)
            &&& tail.len() == 0 ==> fr == (records_frames(rs, pre.len() as int), None::<WalError>)
            &&& forall|i: int| 0 <= i < rs.len() ==> b.subrange(
                (#[trigger] records_frames(rs, pre.len() as int)[i]).payload_start as int,
                records_frames(rs, pre.len() as int)[i].payload_start + rs[i].2.len(),
            ) == rs[i].2
        }),
    decreases rs.len(),
{
    let b = pre + records_bytes(rs) + tail;
    let off = pre.len() as int;
    if rs.len() == 0 {
        assert(b =~= pre + tail);
        if tail.len() == 0 {
            assert(spec_frames(b, off) == (Seq::<RecordFrame>::empty(), None::<WalError>));
        }
        assert(spec_frames(b, off).0.take(0) =~= Seq::<RecordFrame>::empty());
    } else {
        let r0 = record_bytes(rs[0].0, rs[0].1, rs[0].2);
        let rest = rs.drop_first();
        assert(rs[0].2.len() <= MAX_WAL_PAYLOAD_LEN);
        assert(payloads_fit(rest)) by {
            assert forall|i: int| 0 <= i < rest.len() implies (#[trigger] rest[i]).2.len() <= MAX_WAL_PAYLOAD_LEN by {
                assert(rest[i] == rs[i + 1]);
            }
        }
        lemma_record_layout(rs[0].0, rs[0].1, rs[0].2);
        assert(b.subrange(off, off + r0.len()) =~= r0);
        law_decode_encoded_record(b, off, rs[0].0, rs[0].1, rs[0].2);
        let pre2 = pre + r0;
        assert(b =~= pre2 + records_bytes(rest) + tail);
        lemma_records_frames(pre2, rest, tail);
        let f0 = records_frames(rs, off)[0];
        let fr = spec_frames(b, off);
        let fr2 = spec_frames(b, pre2.len() as int);
        assert(pre2.len() == off + 30 + rs[0].2.len());
        assert(fr == (seq![f0] + fr2.0, fr2.1));
        assert(records_frames(rs, off) == seq![f0] + records_frames(rest, pre2.len() as int));
        assert(fr.0.take(rs.len() as int) =~= seq![f0] + fr2.0.take(rest.len() as int));
        assert forall|i: int| 0 <= i < rs.len() implies b.subrange(
            (#[trigger] records_frames(rs, off)[i]).payload_start as int,
            records_frames(rs, off)[i].payload_start + rs[i].2.len(),
        ) == rs[i].2 by {
            if i > 0 {
                assert(records_frames(rs, off)[i] == records_frames(rest, pre2.len() as int)[i - 1]);
                assert(rs[i] == rest[i - 1]);
            }
        }
    }
}

/// Reading back a written log: the records written one after the other are
/// read back, in order, as frames that carry their cursors and cover their
/// payloads, whatever bytes follow them (a torn or corrupt tail costs
/// nothing before it); with nothing after them, reading ends cleanly.
pub proof fn law_read_back_written_records(rs: Seq<(u64, u64, Seq<u8>)>, tail: Seq<u8>)
    requires
        payloads_fit(rs),
        (records_bytes(rs) + tail).len() <= usize::MAX,
    ensures
        ({
            let b = records_bytes(rs) + tail;
            let fr = spec_frames(b, 0);
            &&& fr.0.take(rs.len() as int) == records_frames(rs, 0)
            &&& tail.len() == 0 ==> fr == (records_frames(rs, 0), None::<WalError>)
            &&& forall|i: int| 0 <= i < rs.len() ==> b.subrange(
                (#[trigger] records_frames(rs, 0)[i]).payload_start as int,
                records_frames(rs, 0)[i].payload_start + rs[i].2.len(),
            ) == rs[i].2
        }),
{
    let e = Seq::<u8>::empty();
    assert(e + records_bytes(rs) + tail =~= records_bytes(rs) + tail);
    lemma_records_frames(e, rs, tail);
}

/// Recovery of a log whose every record holds a valid batch keeps all of
/// their events, in order, ends at the last record, and reports only what
/// stopped the reading of frames (nothing, for a clean log).
pub proof fn law_recover_keeps_valid_log(
    frames: Seq<RecordFrame>,
    decoded: Seq<Option<Seq<SimEvent>>>,
    frame_error: Option<WalError>,
    r: WalRecovery,
)
    requires
        frames.len() == decoded.len(),
        forall|i: int| 0 <= i < frames.len() ==> (#[trigger] spec_check_batch(frames[i], decoded[i])) is Ok,
        recovered(frames, decoded, frame_error, r),
    ensures
        r.events@ == flatten(Seq::new(frames.len(), |i: int| spec_check_batch(frames[i], decoded[i])->Ok_0)),
        r.error == frame_error,
        r.valid_end == if frames.len() == 0 { 0 } else { frames.last().end },
{
    lemma_checked_prefix(frames, decoded, frames.len() as int);
    assert(checked_prefix(frames, decoded, 0) =~= Seq::new(
        frames.len(),
        |i: int| spec_check_batch(frames[i], decoded[i])->Ok_0,
    ));
}

/// Ids keep counting across appends: after a batch of `n` events is given
/// ids and appended, the log's last id has grown by `n`, so the next batch
/// starts right after it.
pub proof fn law_append_ids_continue(cursor: WalCursor, events: Seq<SimEvent>)
    requires
        events.len() > 0,
        cursor.last_event_id.0 + events.len() <= u64::MAX,
    ensures
        cursor_after(cursor, with_assigned_ids(cursor, events)).last_event_id.0 == cursor.last_event_id.0 + events.len(),
        with_assigned_ids(cursor, events)[0].event_id.0 == cursor.last_event_id.0 + 1,
        forall|i: int|
            0 <= i < events.len() - 1 ==> (#[trigger] with_assigned_ids(cursor, events)[i + 1]).event_id.0
                == with_assigned_ids(cursor, events)[i].event_id.0 + 1,
{
}

/// The cursor after appending the batches in order.
pub open spec fn cursor_after_batches(cursor: WalCursor, batches: Seq<Seq<SimEvent>>) -> WalCursor
    decreases batches.len(),
{
    if batches.len() == 0 {
        cursor
    } else {
        cursor_after(cursor_after_batches(cursor, batches.drop_last()), batches.last())
    }
}

/// The cursor counts events, not batches: after appending batches in order,
/// its count grows by the number of events they hold (as long as that fits a
/// `u64`), which for a log started empty is the number of events recovery
/// reads back from it.
pub proof fn law_cursor_counts_events(cursor: WalCursor, batches: Seq<Seq<SimEvent>>)
    requires
        cursor.total_events + flatten(batches).len() <= u64::MAX,
    ensures
        cursor_after_batches(cursor, batches).total_events == cursor.total_events + flatten(batches).len(),
    decreases batches.len(),
{
    if batches.len() > 0 {
        law_cursor_counts_events(cursor, batches.drop_last());
    }
}

/// Ids numbered 1, 2, 3, ... in log order.
pub open spec fn numbered_from_one(all: Seq<SimEvent>) -> bool {
    forall|i: int| 0 <= i < all.len() ==> (#[trigger] all[i]).event_id.0 == i + 1
}

/// In a log whose events are numbered 1, 2, 3, ..., the events after a
/// cursor are the log's suffix past that many events, and the events up to a
/// cursor are its prefix of that many events.
pub proof fn law_cursor_splits_log(all: Seq<SimEvent>, c: EventId)
    requires
        numbered_from_one(all),
    ensures
        log_after(all, c) == all.subrange(if c.0 < all.len() { c.0 as int } else { all.len() as int }, all.len() as int),
        log_up_to(all, c) == all.subrange(0, if c.0 < all.len() { c.0 as int } else { all.len() as int }),
    decreases all.len(),
{
    reveal(Seq::filter);
    let n = all.len() as int;
    if n > 0 {
        let d = all.drop_last();
        assert(numbered_from_one(d)) by {
            assert forall|i: int| 0 <= i < d.len() implies (#[trigger] d[i]).event_id.0 == i + 1 by {
                assert(d[i] == all[i]);
            }
        }
        law_cursor_splits_log(d, c);
        assert(all.last().event_id.0 == n);
        let m = if c.0 < n { c.0 as int } else { n };
        let md = if c.0 < n - 1 { c.0 as int } else { n - 1 };
        if c.0 < n {
            assert(md == m);
            assert(d.subrange(m, n - 1).push(all.last()) =~= all.subrange(m, n));
            assert(d.subrange(0, m) =~= all.subrange(0, m));
        } else {
            assert(md == n - 1);
            assert(d.subrange(n - 1, n - 1) =~= all.subrange(n, n));
            assert(d.subrange(0, n - 1).push(all.last()) =~= all.subrange(0, n));
        }
    } else {
        assert(all.subrange(0, 0) =~= all);
    }
}

} // verus!
