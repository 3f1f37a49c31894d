//! The checksum engine: owns one request, the ranges still to be scanned and
//! the row source, drives the scan-and-accumulate loop, and serializes the
//! final `(checksum, total_kvs, total_bytes)` triple.

use vstd::prelude::*;
use crate::accum::{lemma_rows_concat, lemma_rows_first, rows_bytes, rows_checksum, Row};
use crate::digest::checksum_crc64_xor;
use crate::encode::{checksum_payload, encode_checksum_payload};
use crate::keys::KeyRange;
use crate::source::{Error, RowSource, ScanMetrics, ScanOn};

verus! {

/// The checksum algorithm a request asks for. Only `Crc64Xor` is
/// implemented; any other wire code is carried as `Unknown`.
#[derive(Clone, Copy, PartialEq, Eq, Structural, Debug)]
pub enum ChecksumAlgorithm {
    Crc64Xor,
    Unknown(u32),
}

/// The logical object a request checksums: a table or an index.
#[derive(Clone, Copy, PartialEq, Eq, Structural, Debug)]
pub enum ChecksumScanOn {
    Table,
    Index,
}

/// The immutable input of one request: supplied once, never mutated.
/// `start_ts` is the logical timestamp the caller's snapshot was taken at.
#[derive(Clone, Copy, PartialEq, Eq, Structural, Debug)]
pub struct ChecksumRequest {
    pub algorithm: ChecksumAlgorithm,
    pub scan_on: ChecksumScanOn,
    pub start_ts: u64,
}

/// The scan mode the row source is driven in for a request's logical object.
pub open spec fn scan_mode_spec(s: ChecksumScanOn) -> ScanOn {
    match s {
        ChecksumScanOn::Table => ScanOn::Table,
        ChecksumScanOn::Index => ScanOn::Index,
    }
}

/// Maps the request's logical object to the row source's scan mode.
pub fn scan_mode(s: ChecksumScanOn) -> (r: ScanOn)
    ensures
        r == scan_mode_spec(s),
{
    match s {
        ChecksumScanOn::Table => ScanOn::Table,
        ChecksumScanOn::Index => ScanOn::Index,
    }
}

/// Counter addition that stops at the top of the range, as the metrics
/// counters do.
pub open spec fn sat_add(x: u64, n: nat) -> u64 {
    if x + n > u64::MAX {
        u64::MAX
    } else {
        (x + n) as u64
    }
}

proof fn lemma_sat_add_one(x: u64, n: nat)
    ensures
        sat_add(x, n).saturating_add(1) == sat_add(x, n + 1),
{
}

proof fn lemma_sat_add_assoc(x: u64, a: nat, b: nat)
    ensures
        sat_add(sat_add(x, a), b) == sat_add(x, a + b),
{
}

/// The rows that scanning the given ranges one after the other yields.
pub open spec fn ranges_rows<S: RowSource>(src: S, scan_on: ScanOn, ranges: Seq<KeyRange>) -> Seq<
    Row,
>
    decreases ranges.len(),
{
    if ranges.len() == 0 {
        Seq::empty()
    } else {
        src.range_rows(scan_on, ranges[0].start@, ranges[0].end@) + ranges_rows(
            src,
            scan_on,
            ranges.drop_first(),
        )
    }
}

/// Two sources that agree on every range's rows induce the same scan.
pub proof fn lemma_ranges_rows_congruence<S: RowSource>(
    src1: S,
    src2: S,
    scan_on: ScanOn,
    ranges: Seq<KeyRange>,
)
    requires
        forall|so: ScanOn, s: Seq<u8>, e: Seq<u8>| #[trigger] src2.range_rows(so, s, e)
            == src1.range_rows(so, s, e),
    ensures
        ranges_rows(src2, scan_on, ranges) == ranges_rows(src1, scan_on, ranges),
    decreases ranges.len(),
{
    if ranges.len() > 0 {
        lemma_ranges_rows_congruence(src1, src2, scan_on, ranges.drop_first());
    }
}

/// Peeling one range off the front of the remaining schedule.
proof fn lemma_ranges_rows_skip<S: RowSource>(
    src: S,
    scan_on: ScanOn,
    ranges: Seq<KeyRange>,
    i: int,
)
    requires
        0 <= i < ranges.len(),
    ensures
        ranges_rows(src, scan_on, ranges.skip(i)) == src.range_rows(
            scan_on,
            ranges[i].start@,
            ranges[i].end@,
        ) + ranges_rows(src, scan_on, ranges.skip(i + 1)),
{
    assert(ranges.skip(i)[0] == ranges[i]);
    assert(ranges.skip(i).drop_first() =~= ranges.skip(i + 1));
}

/// Handles one checksum request. Created per request, consumed exactly once
/// by `handle_request`, never reused.
pub struct ChecksumContext<S: RowSource> {
    pub req: ChecksumRequest,
    pub ranges: Vec<KeyRange>,
    pub next_range: usize,
    pub source: S,
    pub active: bool,
}

impl<S: RowSource> ChecksumContext<S> {
    pub open spec fn wf(self) -> bool {
        &&& self.source.inv()
        &&& self.next_range <= self.ranges@.len()
        &&& (self.active ==> self.next_range >= 1)
    }

    /// The scan mode this request's logical object asks for.
    pub open spec fn mode(self) -> ScanOn {
        scan_mode_spec(self.req.scan_on)
    }

    /// The ranges not yet bound.
    pub open spec fn pending_ranges(self) -> Seq<KeyRange> {
        self.ranges@.skip(self.next_range as int)
    }

    /// Every row the engine has still to observe: what is left of the bound
    /// range, then the rows of the ranges not yet bound.
    pub open spec fn remaining_rows(self) -> Seq<Row> {
        let tail = ranges_rows(self.source, self.mode(), self.pending_ranges());
        if self.active {
            self.source.pending() + tail
        } else {
            tail
        }
    }

    /// How many ranges have been bound and fully drained; each of those has
    /// had its statistics flushed exactly once.
    pub open spec fn ranges_exhausted(self) -> int {
        self.next_range - if self.active {
            1int
        } else {
            0int
        }
    }

    /// A fresh engine over the given request, range schedule and
    /// snapshot-scoped row source. No range is bound yet (lazy).
    pub fn new(req: ChecksumRequest, ranges: Vec<KeyRange>, source: S) -> (r: Self)
        requires
            source.inv(),
        ensures
            r.wf(),
            r.req == req,
            r.ranges@ == ranges@,
            r.source == source,
            r.next_range == 0,
            !r.active,
            r.remaining_rows() == ranges_rows(source, scan_mode_spec(req.scan_on), ranges@),
    {
        let r = ChecksumContext { req, ranges, next_range: 0, source, active: false };
        proof {
            assert(r.pending_ranges() =~= r.ranges@);
        }
        r
    }

    /// Pulls the next row out of the scan state machine: drains the bound
    /// range, and on its exhaustion flushes its statistics and binds the
    /// next range, until a row appears or every range is spent.
    fn next_row(&mut self, metrics: &mut ScanMetrics) -> (r: Result<
        Option<(Vec<u8>, Vec<u8>)>,
        Error,
    >)
        requires
            old(self).wf(),
        ensures
            final(self).wf(),
            final(self).req == old(self).req,
            final(self).ranges@ == old(self).ranges@,
            old(self).ranges_exhausted() <= final(self).ranges_exhausted(),
            forall|so: ScanOn, s: Seq<u8>, e: Seq<u8>| #[trigger] final(self).source.range_rows(
                so,
                s,
                e,
            ) == old(self).source.range_rows(so, s, e),
            !(r is Err) ==> final(metrics).range_flushes == sat_add(
                old(metrics).range_flushes,
                (final(self).ranges_exhausted() - old(self).ranges_exhausted()) as nat,
            ),
            !(r is Err) ==> final(metrics).scan_calls == sat_add(
                old(metrics).scan_calls,
                (final(self).ranges_exhausted() - old(self).ranges_exhausted() + if r matches Ok(
                    Some(_),
                ) {
                    1int
                } else {
                    0int
                }) as nat,
            ),
            match r {
                Ok(Some((k, v))) => old(self).remaining_rows().len() > 0 && (
                    k@,
                    v@,
                ) == old(self).remaining_rows()[0] && final(self).remaining_rows() == old(self).remaining_rows().drop_first(),
                Ok(None) => old(self).remaining_rows().len() == 0 && final(self).remaining_rows().len() == 0 && final(self).next_range == final(self).ranges@.len() && !final(self).active,
                Err(e) => e is ScanFailure,
            },
            (!old(self).active && old(self).next_range == old(self).ranges@.len()) ==> (*final(self) == *old(self) && *final(metrics) == *old(metrics) && r matches Ok(None)),
    {
        loop
            invariant
                self.wf(),
                self.req == old(self).req,
                self.ranges@ == old(self).ranges@,
                old(self).ranges_exhausted() <= self.ranges_exhausted(),
                forall|so: ScanOn, s: Seq<u8>, e: Seq<u8>| #[trigger] self.source.range_rows(
                    so,
                    s,
                    e,
                ) == old(self).source.range_rows(so, s, e),
                self.remaining_rows() == old(self).remaining_rows(),
                metrics.range_flushes == sat_add(
                    old(metrics).range_flushes,
                    (self.ranges_exhausted() - old(self).ranges_exhausted()) as nat,
                ),
                metrics.scan_calls == sat_add(
                    old(metrics).scan_calls,
                    (self.ranges_exhausted() - old(self).ranges_exhausted()) as nat,
                ),
                (!old(self).active && old(self).next_range == old(self).ranges@.len()) ==> (*self
                    == *old(self) && *metrics == *old(metrics)),
            decreases 2 * (self.ranges@.len() - self.next_range) + if self.active {
                1int
            } else {
                0int
            },
        {
            let ghost s0 = *self;
            let ghost d0 = (s0.ranges_exhausted() - old(self).ranges_exhausted()) as nat;
            if self.active {
                metrics.scan_calls = metrics.scan_calls.saturating_add(1);
                proof {
                    lemma_sat_add_one(old(metrics).scan_calls, d0);
                }
                match self.source.next_row() {
                    Ok(Some(kv)) => {
                        proof {
                            let s1 = *self;
                            assert forall|so: ScanOn, s: Seq<u8>, e: Seq<u8>| #[trigger] s1.source.range_rows(
                                so,
                                s,
                                e,
                            ) == old(self).source.range_rows(so, s, e) by {
                                assert(s1.source.range_rows(so, s, e) == s0.source.range_rows(
                                    so,
                                    s,
                                    e,
                                ));
                            }
                            lemma_ranges_rows_congruence(
                                s0.source,
                                s1.source,
                                s0.mode(),
                                s0.pending_ranges(),
                            );
                            let pend0 = s0.source.pending();
                            let tail = ranges_rows(s0.source, s0.mode(), s0.pending_ranges());
                            assert(s0.remaining_rows() == pend0 + tail);
                            assert((pend0 + tail)[0] == pend0[0]);
                            assert(s1.remaining_rows() =~= s0.remaining_rows().drop_first());
                        }
                        return Ok(Some(kv));
                    },
                    Ok(None) => {
                        proof {
                            let s1 = *self;
                            assert(s1.source.pending().len() == 0);
                        }
                        self.source.collect_statistics_into(metrics);
                        self.active = false;
                        proof {
                            let s2 = *self;
                            assert forall|so: ScanOn, s: Seq<u8>, e: Seq<u8>| #[trigger] s2.source.range_rows(
                                so,
                                s,
                                e,
                            ) == old(self).source.range_rows(so, s, e) by {
                                assert(s2.source.range_rows(so, s, e) == s0.source.range_rows(
                                    so,
                                    s,
                                    e,
                                ));
                            }
                            lemma_ranges_rows_congruence(
                                s0.source,
                                s2.source,
                                s0.mode(),
                                s0.pending_ranges(),
                            );
                            let tail = ranges_rows(s0.source, s0.mode(), s0.pending_ranges());
                            assert(s0.remaining_rows() =~= Seq::<Row>::empty() + tail);
                            assert(Seq::<Row>::empty() + tail =~= tail);
                            assert(s2.remaining_rows() == tail);
                            lemma_sat_add_one(old(metrics).range_flushes, d0);
                        }
                    },
                    Err(e) => {
                        return Err(e);
                    },
                }
            }
            if self.next_range < self.ranges.len() {
                let ghost s2 = *self;
                let idx: usize = self.next_range;
                let so = scan_mode(self.req.scan_on);
                match self.source.reset_range(so, &self.ranges[idx]) {
                    Ok(()) => {},
                    Err(e) => {
                        return Err(e);
                    },
                }
                self.next_range = idx + 1;
                self.active = true;
                proof {
                    let s3 = *self;
                    assert forall|so2: ScanOn, s: Seq<u8>, e: Seq<u8>| #[trigger] s3.source.range_rows(
                        so2,
                        s,
                        e,
                    ) == old(self).source.range_rows(so2, s, e) by {
                        assert(s3.source.range_rows(so2, s, e) == s2.source.range_rows(so2, s, e));
                    }
                    lemma_ranges_rows_congruence(
                        s2.source,
                        s3.source,
                        s2.mode(),
                        s2.pending_ranges(),
                    );
                    lemma_ranges_rows_congruence(
                        s2.source,
                        s3.source,
                        s2.mode(),
                        s3.pending_ranges(),
                    );
                    lemma_ranges_rows_skip(s2.source, s2.mode(), s2.ranges@, idx as int);
                    assert(s3.source.pending() == s2.source.range_rows(
                        s2.mode(),
                        s2.ranges@[idx as int].start@,
                        s2.ranges@[idx as int].end@,
                    ));
                    assert(s3.remaining_rows() == s3.source.pending() + ranges_rows(
                        s3.source,
                        s3.mode(),
                        s3.pending_ranges(),
                    ));
                    assert(s2.remaining_rows() == ranges_rows(
                        s2.source,
                        s2.mode(),
                        s2.ranges@.skip(idx as int),
                    ));
                    assert(s3.remaining_rows() == s2.remaining_rows());
                }
            } else {
                proof {
                    assert(self.pending_ranges().len() == 0);
                }
                return Ok(None);
            }
        }
    }

    /// The terminal operation: consumes the engine, validates the requested
    /// algorithm, folds every remaining row into the accumulator, and
    /// serializes the final triple into the field-tagged payload.
    ///
    /// The checksum of the payload is the XOR of the CRC64 (ECMA-182)
    /// digests of the rows, `total_kvs` their number, and `total_bytes` the
    /// sum over the rows of key length plus value length. Errors of the row
    /// source abort the request unchanged; no partial result is returned.
    pub fn handle_request(self, metrics: &mut ScanMetrics) -> (r: Result<Vec<u8>, Error>)
        requires
            self.wf(),
            self.remaining_rows().len() <= u64::MAX,
            rows_bytes(self.remaining_rows()) <= u64::MAX,
        ensures
            (r matches Err(Error::UnsupportedAlgorithm)) <==> !(self.req.algorithm
                is Crc64Xor),
            !(self.req.algorithm is Crc64Xor) ==> *final(metrics) == *old(metrics),
            r matches Ok(data) ==> data@ == checksum_payload(
                rows_checksum(self.remaining_rows()),
                self.remaining_rows().len() as u64,
                rows_bytes(self.remaining_rows()) as u64,
            ),
            r matches Ok(data) ==> final(metrics).range_flushes == sat_add(
                old(metrics).range_flushes,
                (self.ranges@.len() - self.ranges_exhausted()) as nat,
            ),
            r matches Ok(data) ==> final(metrics).scan_calls == sat_add(
                old(metrics).scan_calls,
                (self.remaining_rows().len() + self.ranges@.len() - self.ranges_exhausted()) as nat,
            ),
            r matches Err(e) ==> (e is UnsupportedAlgorithm || e is ScanFailure),
            (self.req.algorithm is Crc64Xor && !self.active && self.next_range
                == self.ranges@.len()) ==> r is Ok,
    {
        match self.req.algorithm {
            ChecksumAlgorithm::Crc64Xor => {},
            ChecksumAlgorithm::Unknown(_) => {
                return Err(Error::UnsupportedAlgorithm);
            },
        }
        let mut me = self;
        let ghost all = self.remaining_rows();
        let mut checksum: u64 = 0;
        let mut total_kvs: u64 = 0;
        let mut total_bytes: u64 = 0;
        let ghost mut seen: Seq<Row> = Seq::empty();
        proof {
            assert(seen + all =~= all);
        }
        loop
            invariant
                self.req.algorithm is Crc64Xor,
                all == self.remaining_rows(),
                me.wf(),
                me.ranges@ == self.ranges@,
                self.ranges_exhausted() <= me.ranges_exhausted(),
                seen + me.remaining_rows() == all,
                all.len() <= u64::MAX,
                rows_bytes(all) <= u64::MAX,
                checksum == rows_checksum(seen),
                total_kvs == seen.len(),
                total_bytes == rows_bytes(seen),
                metrics.range_flushes == sat_add(
                    old(metrics).range_flushes,
                    (me.ranges_exhausted() - self.ranges_exhausted()) as nat,
                ),
                metrics.scan_calls == sat_add(
                    old(metrics).scan_calls,
                    (seen.len() + me.ranges_exhausted() - self.ranges_exhausted()) as nat,
                ),
                (!self.active && self.next_range == self.ranges@.len()) ==> (me.next_range
                    == self.next_range && !me.active),
            decreases me.remaining_rows().len(),
        {
            let ghost pre = me;
            match me.next_row(metrics) {
                Ok(Some((k, v))) => {
                    proof {
                        lemma_rows_concat(seen, pre.remaining_rows());
                        lemma_rows_first(pre.remaining_rows());
                    }
                    checksum = checksum_crc64_xor(checksum, k.as_slice(), v.as_slice());
                    total_kvs = total_kvs + 1;
                    total_bytes = total_bytes + (k.len() as u64) + (v.len() as u64);
                    proof {
                        let row = (k@, v@);
                        assert(row == pre.remaining_rows()[0]);
                        let prev_seen = seen;
                        seen = seen.push(row);
                        assert(seen.drop_last() =~= prev_seen);
                        assert(seen.last() == row);
                        assert(seen + me.remaining_rows() =~= all);
                        lemma_sat_add_assoc(
                            old(metrics).range_flushes,
                            (pre.ranges_exhausted() - self.ranges_exhausted()) as nat,
                            (me.ranges_exhausted() - pre.ranges_exhausted()) as nat,
                        );
                        lemma_sat_add_assoc(
                            old(metrics).scan_calls,
                            (seen.len() - 1 + pre.ranges_exhausted()
                                - self.ranges_exhausted()) as nat,
                            (me.ranges_exhausted() - pre.ranges_exhausted() + 1) as nat,
                        );
                    }
                },
                Ok(None) => {
                    proof {
                        assert(seen =~= all);
                        lemma_sat_add_assoc(
                            old(metrics).range_flushes,
                            (pre.ranges_exhausted() - self.ranges_exhausted()) as nat,
                            (me.ranges_exhausted() - pre.ranges_exhausted()) as nat,
                        );
                        lemma_sat_add_assoc(
                            old(metrics).scan_calls,
                            (seen.len() + pre.ranges_exhausted() - self.ranges_exhausted()) as nat,
                            (me.ranges_exhausted() - pre.ranges_exhausted()) as nat,
                        );
                        assert(me.ranges_exhausted() == me.ranges@.len());
                    }
                    let data = encode_checksum_payload(checksum, total_kvs, total_bytes);
                    return Ok(data);
                },
                Err(e) => {
                    return Err(e);
                },
            }
        }
    }
}

} // verus!
