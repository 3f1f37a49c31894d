//! The mathematical model of the accumulator: what the checksum, row count
//! and byte count of a sequence of rows are.

use vstd::prelude::*;
use crate::digest::crc64_ecma;

verus! {

/// A row as the contracts see it: the key bytes and the value bytes.
pub type Row = (Seq<u8>, Seq<u8>);

/// The digest of one row: the CRC64 (ECMA-182) of the key bytes immediately
/// followed by the value bytes.
pub open spec fn row_digest(r: Row) -> u64 {
    crc64_ecma(r.0 + r.1)
}

/// How many bytes one row contributes to the byte count.
pub open spec fn row_bytes(r: Row) -> nat {
    r.0.len() + r.1.len()
}

/// The checksum of a sequence of rows: the XOR of the rows' digests,
/// starting from zero.
pub open spec fn rows_checksum(rows: Seq<Row>) -> u64
    decreases rows.len(),
{
    if rows.len() == 0 {
        0u64
    } else {
        rows_checksum(rows.drop_last()) ^ row_digest(rows.last())
    }
}

/// The byte count of a sequence of rows: the sum over the rows of
/// key length plus value length.
pub open spec fn rows_bytes(rows: Seq<Row>) -> nat
    decreases rows.len(),
{
    if rows.len() == 0 {
        0
    } else {
        rows_bytes(rows.drop_last()) + row_bytes(rows.last())
    }
}

pub proof fn lemma_xor_zero(x: u64)
    ensures
        x ^ 0u64 == x,
        0u64 ^ x == x,
{
    assert(x ^ 0u64 == x && 0u64 ^ x == x) by (bit_vector);
}

pub proof fn lemma_xor_assoc(a: u64, b: u64, c: u64)
    ensures
        (a ^ b) ^ c == a ^ (b ^ c),
        (a ^ b) ^ c == (a ^ c) ^ b,
{
    assert((a ^ b) ^ c == a ^ (b ^ c) && (a ^ b) ^ c == (a ^ c) ^ b) by (bit_vector);
}

/// The checksum and byte count of a single row.
pub proof fn lemma_rows_singleton(x: Row)
    ensures
        rows_checksum(seq![x]) == row_digest(x),
        rows_bytes(seq![x]) == row_bytes(x),
{
    assert(seq![x].len() == 1);
    assert(seq![x].last() == x);
    assert(seq![x].drop_last() =~= Seq::<Row>::empty());
    assert(rows_checksum(Seq::<Row>::empty()) == 0);
    assert(rows_bytes(Seq::<Row>::empty()) == 0);
    lemma_xor_zero(row_digest(x));
}

/// Partial results combine: the checksum of two row sequences scanned one
/// after the other is the XOR of their checksums, and the byte counts add.
/// This is what lets disjoint parts of a key space be scanned by different
/// callers and their partial results be merged without a re-scan.
pub proof fn lemma_rows_concat(a: Seq<Row>, b: Seq<Row>)
    ensures
        rows_checksum(a + b) == rows_checksum(a) ^ rows_checksum(b),
        rows_bytes(a + b) == rows_bytes(a) + rows_bytes(b),
    decreases b.len(),
{
    if b.len() == 0 {
        assert(a + b =~= a);
        lemma_xor_zero(rows_checksum(a));
    } else {
        lemma_rows_concat(a, b.drop_last());
        assert((a + b).drop_last() =~= a + b.drop_last());
        assert((a + b).last() == b.last());
        lemma_xor_assoc(rows_checksum(a), rows_checksum(b.drop_last()), row_digest(b.last()));
    }
}

/// The checksum and byte count of a nonempty sequence, split at its head.
pub proof fn lemma_rows_first(rows: Seq<Row>)
    requires
        rows.len() > 0,
    ensures
        rows_checksum(rows) == row_digest(rows[0]) ^ rows_checksum(rows.drop_first()),
        rows_bytes(rows) == row_bytes(rows[0]) + rows_bytes(rows.drop_first()),
{
    assert(rows =~= seq![rows[0]] + rows.drop_first());
    lemma_rows_concat(seq![rows[0]], rows.drop_first());
    lemma_rows_singleton(rows[0]);
}

} // verus!
