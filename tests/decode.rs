use cdc::mvcc::{decode_ts_suffix, decode_var_u64, parse_lock, parse_write, LockType, WriteType};
use cdc::mvcc::{FLAG_DELETE, FLAG_LOCK, FLAG_PUT, FLAG_ROLLBACK};
use cdc::{decode_default, decode_lock, decode_scan, decode_write, EventRow, IngestError, LogType, OpType, TxnEntry};

fn encode_var(mut v: u64, out: &mut Vec<u8>) {
    while v >= 0x80 {
        out.push((v as u8) | 0x80);
        v >>= 7;
    }
    out.push(v as u8);
}

#[test]
fn varint_round_values() {
    for v in [0u64, 1, 127, 128, 300, 1 << 35, u64::MAX - 1, u64::MAX] {
        let mut b = vec![9u8];
        encode_var(v, &mut b);
        let n = b.len();
        assert_eq!(decode_var_u64(&b, 1), Some((v, n)));
    }
    assert_eq!(decode_var_u64(&[0xac, 0x02], 0), Some((300, 2)));
}

#[test]
fn varint_rejects_truncation_and_overflow() {
    assert_eq!(decode_var_u64(&[0x80], 0), None);
    assert_eq!(decode_var_u64(&[], 0), None);
    let mut too_big = vec![0xffu8; 9];
    too_big.push(0x02);
    assert_eq!(decode_var_u64(&too_big, 0), None);
    assert_eq!(decode_var_u64(&[0x80; 11], 0), None);
}

#[test]
fn timestamp_suffix_is_inverted_big_endian() {
    let mut key = b"ab".to_vec();
    key.extend_from_slice(&(!0x0102_0304_0506_0708u64).to_be_bytes());
    assert_eq!(decode_ts_suffix(&key), Some((2, 0x0102_0304_0506_0708)));
    assert_eq!(decode_ts_suffix(&[1, 2, 3]), None);
}

#[test]
fn write_record_parses() {
    let w = parse_write(&[FLAG_PUT, 5, b'v', 2, b'h', b'i']).unwrap();
    assert_eq!(w.write_type, WriteType::Put);
    assert_eq!(w.start_ts, 5);
    assert_eq!(w.short_value, Some(b"hi".to_vec()));
    let w = parse_write(&[FLAG_ROLLBACK, 7]).unwrap();
    assert_eq!(w.write_type, WriteType::Rollback);
    assert_eq!(w.short_value, None);
    assert!(parse_write(&[FLAG_PUT, 5, b'v', 3, b'h']).is_none());
    assert!(parse_write(&[FLAG_PUT, 5, 0]).is_none());
    assert!(parse_write(&[b'X', 5]).is_none());
}

#[test]
fn lock_record_parses() {
    let l = parse_lock(&[FLAG_DELETE, 1, b'p', 9, b'v', 1, b'z', b'f', 12]).unwrap();
    assert_eq!(l.lock_type, LockType::Delete);
    assert_eq!(l.primary, b"p".to_vec());
    assert_eq!(l.ts, 9);
    assert_eq!(l.short_value, Some(b"z".to_vec()));
    assert_eq!(l.for_update_ts, 12);
    let l = parse_lock(&[FLAG_LOCK, 0, 3]).unwrap();
    assert_eq!(l.lock_type, LockType::Lock);
    assert_eq!(l.for_update_ts, 0);
    assert!(parse_lock(&[FLAG_PUT, 4, b'p', 9]).is_none());
    // Fields after the known ones are skipped.
    let l = parse_lock(&[FLAG_PUT, 0, 9, b'f', 4, b't', 1, 2, 3, 4, 5, 6, 7, 8]).unwrap();
    assert_eq!(l.ts, 9);
    assert_eq!(l.for_update_ts, 4);
    assert!(parse_lock(&[FLAG_PUT, 0, 9, b'v', 5, 1]).is_none());
}

#[test]
fn write_rows() {
    let mut key = b"k".to_vec();
    key.extend_from_slice(&(!20u64).to_be_bytes());
    let row = decode_write(&key, &[FLAG_DELETE, 15]).unwrap().unwrap();
    assert_eq!(row.start_ts, 15);
    assert_eq!(row.commit_ts, 20);
    assert_eq!(row.key, b"k".to_vec());
    assert_eq!(row.op_type, OpType::Delete);
    assert_eq!(row.log_type, LogType::Commit);
    assert_eq!(decode_write(&key, &[FLAG_LOCK, 15]).unwrap(), None);
    assert_eq!(decode_write(b"k", &[FLAG_PUT, 15]), Err(IngestError::Malformed));
    let row = decode_write(&key, &[FLAG_ROLLBACK, 15]).unwrap().unwrap();
    assert_eq!(row.commit_ts, 0);
    assert_eq!(row.op_type, OpType::Unknown);
    assert_eq!(row.log_type, LogType::Rollback);
}

#[test]
fn lock_rows() {
    let row = decode_lock(b"k", &[FLAG_PUT, 0, 6, b'v', 1, b'x']).unwrap().unwrap();
    assert_eq!(row.start_ts, 6);
    assert_eq!(row.commit_ts, 0);
    assert_eq!(row.key, b"k".to_vec());
    assert_eq!(row.value, b"x".to_vec());
    assert_eq!(row.op_type, OpType::Put);
    assert_eq!(row.log_type, LogType::Prewrite);
    assert_eq!(decode_lock(b"k", &[FLAG_LOCK, 0, 6]).unwrap(), None);
    assert_eq!(decode_lock(b"k", &[]), Err(IngestError::Malformed));
}

#[test]
fn default_value_only_when_not_empty() {
    let mut row = EventRow::new();
    row.value = b"old".to_vec();
    decode_default(Vec::new(), &mut row);
    assert_eq!(row.value, b"old".to_vec());
    decode_default(b"new".to_vec(), &mut row);
    assert_eq!(row.value, b"new".to_vec());
}

#[test]
fn scan_ends_with_single_initialized_row() {
    let entries = vec![
        Some(TxnEntry::Prewrite { default: (Vec::new(), Vec::new()), lock: (b"a".to_vec(), vec![FLAG_PUT, 0, 1]) }),
        None,
    ];
    let rows = decode_scan(&entries).unwrap();
    assert_eq!(rows.len(), 2);
    assert_eq!(rows[0].log_type, LogType::Prewrite);
    assert_eq!(rows[1].log_type, LogType::Initialized);
    assert_eq!(decode_scan(&Vec::new()).unwrap(), Vec::new());
}
