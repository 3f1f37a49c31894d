//! The order-independence laws of the accumulator: the checksum, row count
//! and byte count of a scan do not depend on the order of the rows, on the
//! order of the ranges, or on how the ranges are split between callers.

use vstd::prelude::*;
use crate::accum::{
    lemma_rows_concat, lemma_rows_singleton, lemma_xor_assoc, row_bytes, row_digest, rows_bytes,
    rows_checksum, Row,
};
use crate::engine::{ranges_rows, ChecksumContext};
use crate::keys::KeyRange;
use crate::source::{RowSource, ScanOn};

verus! {

/// Taking one row out anywhere takes its digest and its bytes out.
proof fn lemma_rows_remove(rows: Seq<Row>, i: int)
    requires
        0 <= i < rows.len(),
    ensures
        rows_checksum(rows) == rows_checksum(rows.remove(i)) ^ row_digest(rows[i]),
        rows_bytes(rows) == rows_bytes(rows.remove(i)) + row_bytes(rows[i]),
{
    let front = rows.take(i);
    let back = rows.skip(i + 1);
    assert(rows =~= (front + seq![rows[i]]) + back);
    assert(rows.remove(i) =~= front + back);
    lemma_rows_concat(front + seq![rows[i]], back);
    lemma_rows_concat(front, seq![rows[i]]);
    lemma_rows_concat(front, back);
    lemma_rows_singleton(rows[i]);
    lemma_xor_assoc(rows_checksum(front), row_digest(rows[i]), rows_checksum(back));
}

/// Two row sequences that hold the same rows, each the same number of times,
/// have the same checksum, the same row count and the same byte count: the
/// result of a scan is a function of the set of rows observed, not of the
/// order they arrived in.
pub proof fn lemma_rows_permutation(a: Seq<Row>, b: Seq<Row>)
    requires
        a.to_multiset() == b.to_multiset(),
    ensures
        rows_checksum(a) == rows_checksum(b),
        rows_bytes(a) == rows_bytes(b),
        a.len() == b.len(),
    decreases a.len(),
{
    broadcast use vstd::seq_lib::group_to_multiset_ensures;

    vstd::seq_lib::to_multiset_len(a);
    vstd::seq_lib::to_multiset_len(b);
    if a.len() == 0 {
        assert(b.len() == 0);
    } else {
        let x = a.last();
        assert(a.contains(x)) by {
            assert(a[a.len() - 1] == x);
        }
        assert(b.to_multiset().count(x) > 0);
        assert(b.contains(x));
        let j = choose|j: int| 0 <= j < b.len() && b[j] == x;
        assert(a.drop_last() =~= a.remove(a.len() - 1));
        assert(a.drop_last().to_multiset() == a.to_multiset().remove(x));
        assert(b.remove(j).to_multiset() == b.to_multiset().remove(x));
        lemma_rows_permutation(a.drop_last(), b.remove(j));
        lemma_rows_remove(b, j);
    }
}

/// Concatenating range schedules concatenates the rows they yield.
proof fn lemma_ranges_rows_concat<S: RowSource>(
    src: S,
    so: ScanOn,
    r1: Seq<KeyRange>,
    r2: Seq<KeyRange>,
)
    ensures
        ranges_rows(src, so, r1 + r2) == ranges_rows(src, so, r1) + ranges_rows(src, so, r2),
    decreases r1.len(),
{
    if r1.len() == 0 {
        assert(r1 + r2 =~= r2);
        assert(ranges_rows(src, so, r1) + ranges_rows(src, so, r2) =~= ranges_rows(src, so, r2));
    } else {
        assert((r1 + r2)[0] == r1[0]);
        assert((r1 + r2).drop_first() =~= r1.drop_first() + r2);
        lemma_ranges_rows_concat(src, so, r1.drop_first(), r2);
        assert(ranges_rows(src, so, r1 + r2) =~= ranges_rows(src, so, r1) + ranges_rows(
            src,
            so,
            r2,
        ));
    }
}

/// Taking one range out of the schedule takes exactly its rows out.
proof fn lemma_ranges_remove<S: RowSource>(src: S, so: ScanOn, ranges: Seq<KeyRange>, i: int)
    requires
        0 <= i < ranges.len(),
    ensures
        rows_checksum(ranges_rows(src, so, ranges)) == rows_checksum(
            ranges_rows(src, so, ranges.remove(i)),
        ) ^ rows_checksum(src.range_rows(so, ranges[i].start@, ranges[i].end@)),
        rows_bytes(ranges_rows(src, so, ranges)) == rows_bytes(
            ranges_rows(src, so, ranges.remove(i)),
        ) + rows_bytes(src.range_rows(so, ranges[i].start@, ranges[i].end@)),
        ranges_rows(src, so, ranges).len() == ranges_rows(src, so, ranges.remove(i)).len()
            + src.range_rows(so, ranges[i].start@, ranges[i].end@).len(),
{
    let front = ranges.take(i);
    let back = ranges.skip(i + 1);
    let one = seq![ranges[i]];
    let rows_i = src.range_rows(so, ranges[i].start@, ranges[i].end@);
    assert(ranges =~= (front + one) + back);
    assert(ranges.remove(i) =~= front + back);
    lemma_ranges_rows_concat(src, so, front + one, back);
    lemma_ranges_rows_concat(src, so, front, one);
    lemma_ranges_rows_concat(src, so, front, back);
    assert(one.drop_first() =~= Seq::<KeyRange>::empty());
    assert(one[0] == ranges[i]);
    assert(ranges_rows(src, so, Seq::<KeyRange>::empty()) =~= Seq::<Row>::empty());
    assert(ranges_rows(src, so, one) =~= rows_i);
    let f = ranges_rows(src, so, front);
    let b = ranges_rows(src, so, back);
    assert(ranges_rows(src, so, ranges) == (f + rows_i) + b);
    assert(ranges_rows(src, so, ranges.remove(i)) == f + b);
    lemma_rows_concat(f + rows_i, b);
    lemma_rows_concat(f, rows_i);
    lemma_rows_concat(f, b);
    lemma_xor_assoc(rows_checksum(f), rows_checksum(rows_i), rows_checksum(b));
}

/// Scanning the same set of ranges in any other order yields the same
/// checksum, the same row count and the same byte count: the result does not
/// depend on the order the caller listed the ranges in.
pub proof fn lemma_scan_permutation<S: RowSource>(
    src: S,
    so: ScanOn,
    rs1: Seq<KeyRange>,
    rs2: Seq<KeyRange>,
)
    requires
        rs1.to_multiset() == rs2.to_multiset(),
    ensures
        rows_checksum(ranges_rows(src, so, rs1)) == rows_checksum(ranges_rows(src, so, rs2)),
        rows_bytes(ranges_rows(src, so, rs1)) == rows_bytes(ranges_rows(src, so, rs2)),
        ranges_rows(src, so, rs1).len() == ranges_rows(src, so, rs2).len(),
    decreases rs1.len(),
{
    broadcast use vstd::seq_lib::group_to_multiset_ensures;

    vstd::seq_lib::to_multiset_len(rs1);
    vstd::seq_lib::to_multiset_len(rs2);
    if rs1.len() == 0 {
        assert(rs2.len() == 0);
    } else {
        let g = rs1.last();
        assert(rs1.contains(g)) by {
            assert(rs1[rs1.len() - 1] == g);
        }
        assert(rs2.to_multiset().count(g) > 0);
        assert(rs2.contains(g));
        let j = choose|j: int| 0 <= j < rs2.len() && rs2[j] == g;
        assert(rs1.drop_last() =~= rs1.remove(rs1.len() - 1));
        assert(rs1.drop_last().to_multiset() == rs1.to_multiset().remove(g));
        assert(rs2.remove(j).to_multiset() == rs2.to_multiset().remove(g));
        lemma_scan_permutation(src, so, rs1.drop_last(), rs2.remove(j));
        lemma_ranges_remove(src, so, rs1, rs1.len() - 1);
        lemma_ranges_remove(src, so, rs2, j);
    }
}

/// Two fresh engines over the same source and request whose range schedules
/// are permutations of each other observe row sequences with the same
/// checksum, the same row count and the same byte count; so, by
/// `handle_request`'s contract, they serialize identical payloads.
pub proof fn lemma_engine_result_permutation<S: RowSource>(
    e1: ChecksumContext<S>,
    e2: ChecksumContext<S>,
)
    requires
        e1.source == e2.source,
        e1.req == e2.req,
        !e1.active,
        !e2.active,
        e1.next_range == 0,
        e2.next_range == 0,
        e1.ranges@.to_multiset() == e2.ranges@.to_multiset(),
    ensures
        rows_checksum(e1.remaining_rows()) == rows_checksum(e2.remaining_rows()),
        rows_bytes(e1.remaining_rows()) == rows_bytes(e2.remaining_rows()),
        e1.remaining_rows().len() == e2.remaining_rows().len(),
{
    assert(e1.pending_ranges() =~= e1.ranges@);
    assert(e2.pending_ranges() =~= e2.ranges@);
    lemma_scan_permutation(e1.source, e1.mode(), e1.ranges@, e2.ranges@);
}

/// A scan whose every range holds no rows observes no row at all, so its
/// checksum, row count and byte count are all zero.
pub proof fn lemma_empty_ranges_scan<S: RowSource>(src: S, so: ScanOn, rs: Seq<KeyRange>)
    requires
        forall|i: int| 0 <= i < rs.len() ==> (#[trigger] src.range_rows(
            so,
            rs[i].start@,
            rs[i].end@,
        )).len() == 0,
    ensures
        ranges_rows(src, so, rs).len() == 0,
        rows_checksum(ranges_rows(src, so, rs)) == 0,
        rows_bytes(ranges_rows(src, so, rs)) == 0,
    decreases rs.len(),
{
    if rs.len() > 0 {
        assert(src.range_rows(so, rs[0].start@, rs[0].end@).len() == 0);
        assert forall|i: int| 0 <= i < rs.drop_first().len() implies (#[trigger] src.range_rows(
            so,
            rs.drop_first()[i].start@,
            rs.drop_first()[i].end@,
        )).len() == 0 by {
            assert(rs.drop_first()[i] == rs[i + 1]);
        }
        lemma_empty_ranges_scan(src, so, rs.drop_first());
        assert(ranges_rows(src, so, rs) =~= Seq::<Row>::empty());
    }
}

} // verus!
