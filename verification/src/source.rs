//! The row-source interface the engine consumes: a snapshot-scoped view of a
//! key-value space that can be bound to one range at a time and then pulled
//! row by row, plus the error kinds and the metrics it reports into.

use vstd::prelude::*;
use crate::accum::Row;
use crate::keys::KeyRange;

verus! {

/// The logical object a scan decodes: a table's rows or an index's entries.
#[derive(Clone, Copy, PartialEq, Eq, Structural, Debug)]
pub enum ScanOn {
    Table,
    Index,
}

/// Why a request was aborted. Every error aborts the whole request; no
/// partial checksum is ever returned.
#[derive(Debug)]
pub enum Error {
    /// The request names a checksum algorithm this engine does not
    /// implement. Detected before any scanning; no side effects.
    UnsupportedAlgorithm,
    /// The row source failed; its report is propagated unchanged.
    ScanFailure(String),
    /// Serialization of the final result failed. The built-in field-tagged
    /// serializer is total, so the engine never produces this kind itself;
    /// it completes the error surface a caller must be ready for.
    EncodingFailure,
}

/// Counters the engine and its row source maintain while scanning.
#[derive(Clone, Copy, PartialEq, Eq, Structural, Debug)]
pub struct ScanMetrics {
    /// How many times the engine asked the row source for a row.
    pub scan_calls: u64,
    /// How many per-range statistics flushes the row source performed.
    pub range_flushes: u64,
}

impl ScanMetrics {
    /// Fresh counters, all zero.
    pub fn new() -> (m: Self)
        ensures
            m.scan_calls == 0,
            m.range_flushes == 0,
    {
        ScanMetrics { scan_calls: 0, range_flushes: 0 }
    }
}

/// A snapshot-scoped row source. The snapshot is a read-only view fixed at
/// construction: which rows a range holds never changes over the source's
/// life, whatever is called on it. The source is bound to one range at a
/// time and hands that range's rows out in scan order.
pub trait RowSource: Sized {
    /// The implementation's internal invariant.
    spec fn inv(&self) -> bool;

    /// The rows a full scan of `[start, end)` under the given mode yields,
    /// in scan order. Fixed by the snapshot the source reads.
    spec fn range_rows(&self, scan_on: ScanOn, start: Seq<u8>, end: Seq<u8>) -> Seq<Row>;

    /// The rows of the currently bound range not yet handed out.
    spec fn pending(&self) -> Seq<Row>;

    /// Binds (or re-binds) the source to `range`: on success the pending
    /// rows are exactly the rows of that range.
    fn reset_range(&mut self, scan_on: ScanOn, range: &KeyRange) -> (r: Result<(), Error>)
        requires
            old(self).inv(),
        ensures
            final(self).inv(),
            forall|so: ScanOn, s: Seq<u8>, e: Seq<u8>|
                #[trigger] final(self).range_rows(so, s, e) == old(self).range_rows(so, s, e),
            match r {
                Ok(()) => final(self).pending() == old(self).range_rows(
                    scan_on,
                    range.start@,
                    range.end@,
                ),
                Err(e) => e is ScanFailure,
            },
    ;

    /// Hands out the next row of the bound range, or reports that the range
    /// is exhausted, or fails.
    fn next_row(&mut self) -> (r: Result<Option<(Vec<u8>, Vec<u8>)>, Error>)
        requires
            old(self).inv(),
        ensures
            final(self).inv(),
            forall|so: ScanOn, s: Seq<u8>, e: Seq<u8>|
                #[trigger] final(self).range_rows(so, s, e) == old(self).range_rows(so, s, e),
            match r {
                Ok(Some((k, v))) => old(self).pending().len() > 0 && (
                    k@,
                    v@,
                ) == old(self).pending()[0] && final(self).pending() == old(
                    self,
                ).pending().drop_first(),
                Ok(None) => old(self).pending().len() == 0 && final(self).pending() == old(
                    self,
                ).pending(),
                Err(e) => e is ScanFailure,
            },
    ;

    /// Flushes the statistics gathered while draining the current range into
    /// the caller's metrics: one flush is one step of `range_flushes`.
    fn collect_statistics_into(&mut self, metrics: &mut ScanMetrics)
        requires
            old(self).inv(),
        ensures
            final(self).inv(),
            forall|so: ScanOn, s: Seq<u8>, e: Seq<u8>|
                #[trigger] final(self).range_rows(so, s, e) == old(self).range_rows(so, s, e),
            final(self).pending() == old(self).pending(),
            final(metrics).range_flushes == old(metrics).range_flushes.saturating_add(1),
            final(metrics).scan_calls == old(metrics).scan_calls,
    ;
}

} // verus!
