use kv_checksum::digest::checksum_crc64_xor;
use kv_checksum::encode::{encode_checksum_payload, write_varint};
use kv_checksum::engine::{ChecksumAlgorithm, ChecksumContext, ChecksumRequest, ChecksumScanOn};
use kv_checksum::keys::{key_in_range, lex_lt_bytes, KeyRange};
use kv_checksum::mem::MemRowSource;
use kv_checksum::source::{Error, ScanMetrics};

// CRC64 of the bytes "123456789" under the ECMA-182 polynomial in the
// reflected, all-ones-initialized convention the crc crate implements:
// the published check value of that variant.
const CHECK_123456789: u64 = 0x995dc9bbdf1939fa;

fn read_varint(data: &[u8], pos: &mut usize) -> u64 {
    let mut shift = 0u32;
    let mut val: u64 = 0;
    loop {
        let b = data[*pos];
        *pos += 1;
        val |= ((b & 0x7f) as u64) << shift;
        if b & 0x80 == 0 {
            return val;
        }
        shift += 7;
    }
}

fn decode_payload(data: &[u8]) -> (u64, u64, u64) {
    let mut pos = 0usize;
    assert_eq!(data[pos], 8);
    pos += 1;
    let checksum = read_varint(data, &mut pos);
    assert_eq!(data[pos], 16);
    pos += 1;
    let total_kvs = read_varint(data, &mut pos);
    assert_eq!(data[pos], 24);
    pos += 1;
    let total_bytes = read_varint(data, &mut pos);
    assert_eq!(pos, data.len());
    (checksum, total_kvs, total_bytes)
}

fn store(rows: &[(&[u8], &[u8])]) -> Vec<(Vec<u8>, Vec<u8>)> {
    rows.iter().map(|(k, v)| (k.to_vec(), v.to_vec())).collect()
}

fn schedule(ranges: &[(&[u8], &[u8])]) -> Vec<KeyRange> {
    ranges
        .iter()
        .map(|(s, e)| KeyRange { start: s.to_vec(), end: e.to_vec() })
        .collect()
}

fn run(
    algorithm: ChecksumAlgorithm,
    ranges: &[(&[u8], &[u8])],
    rows: &[(&[u8], &[u8])],
) -> (Result<Vec<u8>, Error>, ScanMetrics) {
    let req = ChecksumRequest { algorithm, scan_on: ChecksumScanOn::Table, start_ts: 7 };
    let engine = ChecksumContext::new(req, schedule(ranges), MemRowSource::new(store(rows)));
    let mut metrics = ScanMetrics::new();
    let r = engine.handle_request(&mut metrics);
    (r, metrics)
}

#[test]
fn empty_schedule_yields_zero_result() {
    let (r, metrics) = run(ChecksumAlgorithm::Crc64Xor, &[], &[(b"k1", b"v1")]);
    let data = r.unwrap();
    assert_eq!(decode_payload(&data), (0, 0, 0));
    assert_eq!(metrics.scan_calls, 0);
    assert_eq!(metrics.range_flushes, 0);
}

#[test]
fn empty_ranges_yield_zero_result() {
    // Two ranges that hold none of the stored rows.
    let (r, metrics) = run(
        ChecksumAlgorithm::Crc64Xor,
        &[(b"a", b"b"), (b"x", b"y")],
        &[(b"m1", b"v1"), (b"m2", b"v2")],
    );
    let data = r.unwrap();
    assert_eq!(decode_payload(&data), (0, 0, 0));
    // Each range was bound, pulled once (empty), and flushed once.
    assert_eq!(metrics.scan_calls, 2);
    assert_eq!(metrics.range_flushes, 2);
}

#[test]
fn single_row_counts_bytes_exactly() {
    // key "k1" (2 bytes) and value "v1" (2 bytes): total_bytes = 4.
    let (r, _) = run(ChecksumAlgorithm::Crc64Xor, &[(b"k", b"l")], &[(b"k1", b"v1")]);
    let (checksum, total_kvs, total_bytes) = decode_payload(&r.unwrap());
    assert_eq!(total_kvs, 1);
    assert_eq!(total_bytes, 4);
    assert_eq!(checksum, checksum_crc64_xor(0, b"k1", b"v1"));
    assert_ne!(checksum, 0);
}

#[test]
fn unsupported_algorithm_is_rejected_before_any_scan() {
    let (r, metrics) = run(
        ChecksumAlgorithm::Unknown(99),
        &[(b"a", b"z")],
        &[(b"k1", b"v1")],
    );
    assert!(matches!(r, Err(Error::UnsupportedAlgorithm)));
    // The row source was never invoked.
    assert_eq!(metrics.scan_calls, 0);
    assert_eq!(metrics.range_flushes, 0);
}

#[test]
fn known_vector_crc64_ecma() {
    // The crc crate itself meets the published check value...
    assert_eq!(crc::crc64::checksum_ecma(b"123456789"), CHECK_123456789);
    // ...and the digest of key ++ value is the digest of the concatenation,
    // XORed into a zero accumulator.
    assert_eq!(checksum_crc64_xor(0, b"1234", b"56789"), CHECK_123456789);
}

#[test]
fn known_vector_through_engine() {
    let (r, _) = run(
        ChecksumAlgorithm::Crc64Xor,
        &[(b"1", b"2")],
        &[(b"1234", b"56789")],
    );
    let (checksum, total_kvs, total_bytes) = decode_payload(&r.unwrap());
    assert_eq!(checksum, CHECK_123456789);
    assert_eq!(total_kvs, 1);
    assert_eq!(total_bytes, 9);
}

#[test]
fn range_order_does_not_change_result() {
    let rows: &[(&[u8], &[u8])] = &[(b"a1", b"u"), (b"b1", b"v"), (b"c1", b"w")];
    let (r1, _) = run(ChecksumAlgorithm::Crc64Xor, &[(b"a", b"b"), (b"b", b"c")], rows);
    let (r2, _) = run(ChecksumAlgorithm::Crc64Xor, &[(b"b", b"c"), (b"a", b"b")], rows);
    assert_eq!(decode_payload(&r1.unwrap()), decode_payload(&r2.unwrap()));
}

#[test]
fn row_order_does_not_change_result() {
    let (r1, _) = run(
        ChecksumAlgorithm::Crc64Xor,
        &[(b"a", b"z")],
        &[(b"a1", b"u"), (b"b1", b"v"), (b"c1", b"w")],
    );
    let (r2, _) = run(
        ChecksumAlgorithm::Crc64Xor,
        &[(b"a", b"z")],
        &[(b"c1", b"w"), (b"a1", b"u"), (b"b1", b"v")],
    );
    assert_eq!(decode_payload(&r1.unwrap()), decode_payload(&r2.unwrap()));
}

#[test]
fn partitioning_a_range_does_not_change_result() {
    let rows: &[(&[u8], &[u8])] = &[(b"a1", b"u"), (b"b1", b"v"), (b"c1", b"w")];
    let (whole, _) = run(ChecksumAlgorithm::Crc64Xor, &[(b"a", b"d")], rows);
    let (split, _) = run(
        ChecksumAlgorithm::Crc64Xor,
        &[(b"a", b"b"), (b"b", b"c"), (b"c", b"d")],
        rows,
    );
    assert_eq!(decode_payload(&whole.unwrap()), decode_payload(&split.unwrap()));
}

#[test]
fn two_ranges_flush_once_each_and_keep_every_row() {
    // One distinct row per range; the boundary key belongs to the second.
    let rows: &[(&[u8], &[u8])] = &[(b"a9", b"u"), (b"b", b"v")];
    let (r, metrics) = run(ChecksumAlgorithm::Crc64Xor, &[(b"a", b"b"), (b"b", b"c")], rows);
    let (checksum, total_kvs, total_bytes) = decode_payload(&r.unwrap());
    // No row skipped, none counted twice.
    assert_eq!(total_kvs, 2);
    assert_eq!(total_bytes, 3 + 2);
    let expected = checksum_crc64_xor(checksum_crc64_xor(0, b"a9", b"u"), b"b", b"v");
    assert_eq!(checksum, expected);
    // Exactly one statistics flush per range.
    assert_eq!(metrics.range_flushes, 2);
    // One pull per row plus one exhausting pull per range.
    assert_eq!(metrics.scan_calls, 4);
}

#[test]
fn duplicate_rows_cancel_to_zero() {
    // Two identical rows in two ranges: their digests XOR away; the counts
    // still see both rows.
    let rows: &[(&[u8], &[u8])] = &[(b"a1", b"v")];
    let (r, _) = run(ChecksumAlgorithm::Crc64Xor, &[(b"a", b"b"), (b"a", b"b")], rows);
    let (checksum, total_kvs, total_bytes) = decode_payload(&r.unwrap());
    assert_eq!(checksum, 0);
    assert_eq!(total_kvs, 2);
    assert_eq!(total_bytes, 6);
}

#[test]
fn payload_encoding_golden_bytes() {
    assert_eq!(encode_checksum_payload(0, 0, 0), vec![8, 0, 16, 0, 24, 0]);
    assert_eq!(
        encode_checksum_payload(300, 1, 127),
        vec![8, 0xac, 0x02, 16, 1, 24, 0x7f]
    );
}

#[test]
fn varint_golden_bytes() {
    let mut out: Vec<u8> = Vec::new();
    write_varint(&mut out, 0);
    assert_eq!(out, vec![0]);
    let mut out: Vec<u8> = Vec::new();
    write_varint(&mut out, 300);
    assert_eq!(out, vec![0xac, 0x02]);
    let mut out: Vec<u8> = Vec::new();
    write_varint(&mut out, u64::MAX);
    assert_eq!(
        out,
        vec![0xff, 0xff, 0xff, 0xff, 0xff, 0xff, 0xff, 0xff, 0xff, 0x01]
    );
}

#[test]
fn lexicographic_order_on_keys() {
    assert!(lex_lt_bytes(b"", b"a"));
    assert!(lex_lt_bytes(b"a", b"ab"));
    assert!(lex_lt_bytes(b"ab", b"b"));
    assert!(!lex_lt_bytes(b"b", b"ab"));
    assert!(!lex_lt_bytes(b"a", b"a"));
    assert!(lex_lt_bytes(b"a\x00", b"a\x01"));
}

#[test]
fn range_bounds_are_half_open() {
    assert!(key_in_range(b"a", b"a", b"b"));
    assert!(key_in_range(b"az", b"a", b"b"));
    assert!(!key_in_range(b"b", b"a", b"b"));
    assert!(!key_in_range(b"0", b"a", b"b"));
    // An empty end key is below every key: the range is empty.
    assert!(!key_in_range(b"a", b"", b""));
}
