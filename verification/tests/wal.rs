use seej::errors::WalError;
use seej::events::{EventData, SimEvent};
use seej::types::{EventId, SimTime, Tick};
use seej::wal::{
    assign_event_ids, check_batch, compute_crc, decode_frame, encode_batch_record, encode_record, events_after,
    events_up_to, frame_records, recover_log, RecordFrame, WalCursor, WalRecovery, MAX_WAL_PAYLOAD_LEN, WAL_MAGIC,
    WAL_VERSION,
};

/// A test-only batch encoding: "BATCH" then `id:tick` pairs.
fn payload_of(events: &[SimEvent]) -> Vec<u8> {
    let mut s = String::from("BATCH");
    for e in events {
        s.push_str(&format!(" {}:{}", e.event_id.0, e.tick.0));
    }
    s.into_bytes()
}

fn decode_payload(bytes: &[u8]) -> Option<Vec<SimEvent>> {
    let s = std::str::from_utf8(bytes).ok()?;
    let rest = s.strip_prefix("BATCH")?;
    let mut out = Vec::new();
    for part in rest.split_whitespace() {
        let (id, tick) = part.split_once(':')?;
        let mut e = tick_event(tick.parse().ok()?);
        e.event_id = EventId::new(id.parse().ok()?);
        out.push(e);
    }
    Some(out)
}

fn tick_event(tick: u64) -> SimEvent {
    SimEvent::new(
        Tick(tick),
        EventData::TickProcessed { tick: Tick(tick), sim_time: SimTime { units: tick }, entities_processed: 0, rng_state_after: Some(tick) },
    )
}

/// An in-memory log: the bytes a file would hold, and its cursor.
struct MemLog {
    bytes: Vec<u8>,
    cursor: WalCursor,
}

impl MemLog {
    fn new() -> Self {
        MemLog { bytes: Vec::new(), cursor: WalCursor::empty() }
    }

    fn append_batch(&mut self, events: Vec<SimEvent>) -> Result<Vec<SimEvent>, WalError> {
        if events.is_empty() {
            return Ok(events);
        }
        let persisted = assign_event_ids(&self.cursor, events)?;
        let record = encode_batch_record(&persisted, &payload_of(&persisted))?;
        self.bytes.extend_from_slice(&record);
        self.cursor.record_append(&persisted);
        Ok(persisted)
    }

    fn append(&mut self, event: SimEvent) -> SimEvent {
        self.append_batch(vec![event]).unwrap().remove(0)
    }

    fn scan(bytes: &[u8]) -> WalRecovery {
        let (frames, err) = frame_records(bytes);
        let decoded: Vec<Option<Vec<SimEvent>>> = frames
            .iter()
            .map(|f: &RecordFrame| decode_payload(&bytes[f.payload_start..f.payload_start + f.payload_len as usize]))
            .collect();
        recover_log(&frames, decoded, err)
    }

    /// Reopens in repair mode: keeps the valid prefix and cuts the rest.
    fn reopen(bytes: Vec<u8>) -> Self {
        let rec = Self::scan(&bytes);
        let mut bytes = bytes;
        bytes.truncate(rec.valid_end);
        MemLog { bytes, cursor: rec.cursor }
    }

    fn read_all_valid(&self) -> Vec<SimEvent> {
        Self::scan(&self.bytes).events
    }
}

fn raw_record(event_id: u64, tick: u64, payload: &[u8]) -> Vec<u8> {
    let mut r = Vec::new();
    r.extend_from_slice(&WAL_MAGIC.to_le_bytes());
    r.extend_from_slice(&WAL_VERSION.to_le_bytes());
    r.extend_from_slice(&(payload.len() as u32).to_le_bytes());
    r.extend_from_slice(&event_id.to_le_bytes());
    r.extend_from_slice(&tick.to_le_bytes());
    r.extend_from_slice(payload);
    r.extend_from_slice(&compute_crc(WAL_VERSION, payload.len() as u32, event_id, tick, payload).to_le_bytes());
    r
}

#[test]
fn append_and_read() {
    let mut log = MemLog::new();
    let persisted = log.append(tick_event(1));
    assert_eq!(persisted.event_id, EventId::new(1));
    assert_eq!(log.cursor.len(), 1);
    assert_eq!(log.cursor.last_event_id(), EventId::new(1));
    let events = log.read_all_valid();
    assert_eq!(events.len(), 1);
    assert_eq!(events[0].event_id, EventId::new(1));
}

#[test]
fn empty_wal_recovers_as_empty() {
    let log = MemLog::reopen(Vec::new());
    assert_eq!(log.cursor.len(), 0);
    assert!(log.cursor.is_empty());
    assert_eq!(log.cursor.last_event_id(), EventId::zero());
    assert_eq!(log.cursor.last_tick(), None);
}

#[test]
fn event_id_is_monotonic() {
    let mut log = MemLog::new();
    for i in 1..=10 {
        let persisted = log.append(tick_event(i));
        assert_eq!(persisted.event_id.as_u64(), i);
    }
    assert_eq!(log.cursor.last_event_id(), EventId::new(10));
}

#[test]
fn read_from_event_id() {
    let mut log = MemLog::new();
    for i in 1..=10 {
        log.append(tick_event(i));
    }
    let events = events_after(&log.read_all_valid(), EventId::new(5));
    assert_eq!(events.len(), 5);
    assert_eq!(events[0].event_id, EventId::new(6));
    let kept = events_up_to(&log.read_all_valid(), EventId::new(5));
    assert_eq!(kept.len(), 5);
    assert_eq!(kept[4].event_id, EventId::new(5));
}

#[test]
fn recovery_after_reopen() {
    let mut log = MemLog::new();
    for i in 1..=5 {
        log.append(tick_event(i));
    }
    let log = MemLog::reopen(log.bytes);
    assert_eq!(log.cursor.len(), 5);
    assert_eq!(log.cursor.last_event_id(), EventId::new(5));
    assert_eq!(log.cursor.last_tick(), Some(Tick(5)));
    assert_eq!(log.read_all_valid().len(), 5);
}

#[test]
fn recovery_truncates_corrupt_first_record() {
    let mut log = MemLog::reopen(b"not-a-valid-wal".to_vec());
    assert_eq!(log.cursor.len(), 0);
    assert_eq!(log.bytes.len(), 0);
    log.append(tick_event(1));
    let log = MemLog::reopen(log.bytes);
    assert_eq!(log.cursor.len(), 1);
    assert_eq!(log.cursor.last_event_id(), EventId::new(1));
}

#[test]
fn recovery_rejects_legacy_single_event_payload() {
    let bytes = raw_record(1, 0, b"{\"WorldCreated\":{}}");
    let rec = MemLog::scan(&bytes);
    assert_eq!(rec.error, Some(WalError::InvalidPayload));
    let recovered = MemLog::reopen(bytes);
    assert_eq!(recovered.cursor.len(), 0);
    assert_eq!(recovered.cursor.last_event_id(), EventId::zero());
    assert_eq!(recovered.bytes.len(), 0);
}

#[test]
fn append_batch_assigns_contiguous_ids() {
    let mut log = MemLog::new();
    let events: Vec<_> = (1..=3).map(tick_event).collect();
    let persisted = log.append_batch(events).unwrap();
    assert_eq!(persisted.len(), 3);
    assert_eq!(persisted[0].event_id, EventId::new(1));
    assert_eq!(persisted[2].event_id, EventId::new(3));
    assert_eq!(log.cursor.last_event_id(), EventId::new(3));
    assert_eq!(log.read_all_valid().len(), 3);
}

#[test]
fn recovery_discards_partially_written_batch_record() {
    let mut log = MemLog::new();
    log.append_batch(vec![tick_event(10), tick_event(10), tick_event(10)]).unwrap();
    let mut bytes = log.bytes;
    bytes.pop();
    let log = MemLog::reopen(bytes);
    assert_eq!(log.cursor.len(), 0);
    assert_eq!(log.read_all_valid().len(), 0);
    assert_eq!(log.bytes.len(), 0);
}

#[test]
fn recovery_keeps_prefix_before_truncated_tail_record() {
    let mut log = MemLog::new();
    log.append(tick_event(1));
    let valid_prefix_len = log.bytes.len();
    log.append(tick_event(2));
    let mut bytes = log.bytes;
    bytes.pop();
    let log = MemLog::reopen(bytes);
    assert_eq!(log.cursor.len(), 1);
    assert_eq!(log.cursor.last_event_id(), EventId::new(1));
    assert_eq!(log.bytes.len(), valid_prefix_len);
}

#[test]
fn recovery_keeps_prefix_before_crc_invalid_tail_record() {
    let mut log = MemLog::new();
    log.append(tick_event(1));
    let valid_prefix_len = log.bytes.len();
    log.append(tick_event(2));
    let mut bytes = log.bytes;
    let last = bytes.len() - 1;
    bytes[last] ^= 0xff;
    assert!(matches!(MemLog::scan(&bytes).error, Some(WalError::CrcMismatch { .. })));
    let log = MemLog::reopen(bytes);
    assert_eq!(log.cursor.len(), 1);
    assert_eq!(log.cursor.last_event_id(), EventId::new(1));
    assert_eq!(log.bytes.len(), valid_prefix_len);
}

#[test]
fn read_only_open_reports_corrupt_tail_without_truncating() {
    let mut log = MemLog::new();
    log.append(tick_event(1));
    let valid_prefix_len = log.bytes.len();
    let mut bytes = log.bytes;
    bytes.extend_from_slice(b"corrupt-tail");
    let rec = MemLog::scan(&bytes);
    assert!(matches!(rec.error, Some(WalError::InvalidMagic { .. })));
    assert_eq!(rec.valid_end, valid_prefix_len);
    assert_eq!(rec.events.len(), 1);
    assert!(bytes.len() > valid_prefix_len);
}

#[test]
fn recovery_keeps_prefix_before_magic_invalid_tail_record() {
    let mut log = MemLog::new();
    log.append(tick_event(1));
    let valid_prefix_len = log.bytes.len();
    log.append(tick_event(2));
    let mut bytes = log.bytes;
    bytes[valid_prefix_len] ^= 0xff;
    let log = MemLog::reopen(bytes);
    assert_eq!(log.cursor.len(), 1);
    assert_eq!(log.cursor.last_event_id(), EventId::new(1));
    assert_eq!(log.bytes.len(), valid_prefix_len);
}

#[test]
fn recovery_truncates_record_with_payload_length_above_limit_without_allocating() {
    let mut record = Vec::new();
    record.extend_from_slice(&WAL_MAGIC.to_le_bytes());
    record.extend_from_slice(&WAL_VERSION.to_le_bytes());
    record.extend_from_slice(&(MAX_WAL_PAYLOAD_LEN + 1).to_le_bytes());
    record.extend_from_slice(&1u64.to_le_bytes());
    record.extend_from_slice(&1u64.to_le_bytes());
    assert_eq!(decode_frame(&record, 0), Err(WalError::PayloadTooLarge { len: MAX_WAL_PAYLOAD_LEN + 1 }));
    let log = MemLog::reopen(record);
    assert_eq!(log.cursor.len(), 0);
    assert_eq!(log.cursor.last_event_id(), EventId::zero());
    assert_eq!(log.bytes.len(), 0);
}

#[test]
fn recovery_truncates_record_with_length_beyond_remaining_file_without_allocating() {
    let mut record = Vec::new();
    record.extend_from_slice(&WAL_MAGIC.to_le_bytes());
    record.extend_from_slice(&WAL_VERSION.to_le_bytes());
    record.extend_from_slice(&1024u32.to_le_bytes());
    record.extend_from_slice(&1u64.to_le_bytes());
    record.extend_from_slice(&1u64.to_le_bytes());
    assert_eq!(decode_frame(&record, 0), Err(WalError::LengthBeyondEnd { required: 1028, available: 0 }));
    let log = MemLog::reopen(record);
    assert_eq!(log.cursor.len(), 0);
    assert_eq!(log.cursor.last_event_id(), EventId::zero());
    assert_eq!(log.bytes.len(), 0);
}

#[test]
fn encoded_record_has_the_documented_layout() {
    let payload = b"xyz";
    let r = encode_record(7, 9, payload).unwrap();
    assert_eq!(r.len(), 26 + 3 + 4);
    assert_eq!(&r[0..4], &0x57414C31u32.to_le_bytes());
    assert_eq!(&r[4..6], &1u16.to_le_bytes());
    assert_eq!(&r[6..10], &3u32.to_le_bytes());
    assert_eq!(&r[10..18], &7u64.to_le_bytes());
    assert_eq!(&r[18..26], &9u64.to_le_bytes());
    assert_eq!(&r[26..29], payload);
    // CRC-32 (IEEE) over everything before it.
    assert_eq!(&r[29..33], &crc32fast::hash(&r[0..29]).to_le_bytes());
    assert_eq!(r, raw_record(7, 9, payload));
    let f = decode_frame(&r, 0).unwrap();
    assert_eq!(f, RecordFrame { event_id: 7, tick: 9, payload_start: 26, payload_len: 3, end: 33 });
}

#[test]
fn crc_is_the_ieee_checksum() {
    // The empty payload's record checksum covers just the header.
    let mut header = Vec::new();
    header.extend_from_slice(&WAL_MAGIC.to_le_bytes());
    header.extend_from_slice(&WAL_VERSION.to_le_bytes());
    header.extend_from_slice(&0u32.to_le_bytes());
    header.extend_from_slice(&0u64.to_le_bytes());
    header.extend_from_slice(&0u64.to_le_bytes());
    assert_eq!(compute_crc(WAL_VERSION, 0, 0, 0, &[]), crc32fast::hash(&header));
    assert_ne!(compute_crc(WAL_VERSION, 0, 0, 0, b"1"), compute_crc(WAL_VERSION, 0, 0, 0, &[]));
    // Known value: CRC-32 of "123456789".
    assert_eq!(crc32fast::hash(b"123456789"), 0xCBF43926);
}

#[test]
fn decode_reports_each_framing_error() {
    assert_eq!(decode_frame(&[0x31, 0x4C], 0), Err(WalError::Truncated));
    assert_eq!(decode_frame(&[1, 2, 3, 4, 5, 6], 0), Err(WalError::InvalidMagic { found: 0x04030201 }));
    let mut v = WAL_MAGIC.to_le_bytes().to_vec();
    v.extend_from_slice(&2u16.to_le_bytes());
    assert_eq!(decode_frame(&v, 0), Err(WalError::UnsupportedVersion { found: 2 }));
    let mut w = WAL_MAGIC.to_le_bytes().to_vec();
    w.extend_from_slice(&1u16.to_le_bytes());
    w.extend_from_slice(&[0, 0, 0]);
    assert_eq!(decode_frame(&w, 0), Err(WalError::Truncated));
}

#[test]
fn check_batch_rejects_empty_and_mismatched_batches() {
    let f = RecordFrame { event_id: 2, tick: 5, payload_start: 26, payload_len: 0, end: 30 };
    assert_eq!(check_batch(&f, None), Err(WalError::InvalidPayload));
    assert_eq!(check_batch(&f, Some(vec![])), Err(WalError::EmptyBatch));
    let mut e = tick_event(4);
    e.event_id = EventId::new(2);
    assert_eq!(
        check_batch(&f, Some(vec![e.clone()])),
        Err(WalError::HeaderMismatch { header_event_id: 2, header_tick: 5, last_event_id: 2, last_tick: 4 })
    );
    let mut g = tick_event(5);
    g.event_id = EventId::new(2);
    assert_eq!(check_batch(&f, Some(vec![e, g.clone()])).unwrap().last(), Some(&g));
}

#[test]
fn encode_refuses_empty_and_oversized_batches() {
    assert_eq!(encode_batch_record(&vec![], b"x"), Err(WalError::EmptyBatch));
    let big = vec![0u8; MAX_WAL_PAYLOAD_LEN as usize + 1];
    assert_eq!(encode_record(1, 1, &big), Err(WalError::PayloadTooLarge { len: MAX_WAL_PAYLOAD_LEN + 1 }));
}

#[test]
fn id_assignment_refuses_to_pass_the_largest_id() {
    let cursor = WalCursor { last_event_id: EventId::new(u64::MAX - 1), last_tick: None, total_events: 0 };
    assert_eq!(assign_event_ids(&cursor, vec![tick_event(1), tick_event(2)]), Err(WalError::EventIdsExhausted));
    let ok = assign_event_ids(&cursor, vec![tick_event(1)]).unwrap();
    assert_eq!(ok[0].event_id, EventId::new(u64::MAX));
}
