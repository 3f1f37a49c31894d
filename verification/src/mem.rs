//! A verified in-memory row source: a fixed list of key-value pairs stands
//! for the snapshot, and a scan of a range yields, in store order, exactly
//! the pairs whose key lies in the range.

use vstd::prelude::*;
use crate::accum::{rows_bytes, Row};
use crate::keys::{in_range, key_in_range, KeyRange};
use crate::source::{Error, RowSource, ScanMetrics, ScanOn};

verus! {

/// The key and value bytes of one stored pair, as the contracts see them.
pub open spec fn row_view(p: (Vec<u8>, Vec<u8>)) -> Row {
    (p.0@, p.1@)
}

/// A sequence of stored pairs, as the contracts see it.
pub open spec fn rows_view(s: Seq<(Vec<u8>, Vec<u8>)>) -> Seq<Row> {
    s.map_values(|p: (Vec<u8>, Vec<u8>)| row_view(p))
}

/// The subsequence of `rows` whose key lies in `[start, end)`, in order.
pub open spec fn rows_in_range(rows: Seq<Row>, start: Seq<u8>, end: Seq<u8>) -> Seq<Row>
    decreases rows.len(),
{
    if rows.len() == 0 {
        Seq::empty()
    } else {
        let rest = rows_in_range(rows.drop_last(), start, end);
        if in_range(rows.last().0, start, end) {
            rest.push(rows.last())
        } else {
            rest
        }
    }
}

/// A range scan yields no more rows, and no more bytes, than the store
/// holds: what a caller needs to bound the engine's accumulator.
pub proof fn lemma_rows_in_range_bound(rows: Seq<Row>, start: Seq<u8>, end: Seq<u8>)
    ensures
        rows_in_range(rows, start, end).len() <= rows.len(),
        rows_bytes(rows_in_range(rows, start, end)) <= rows_bytes(rows),
    decreases rows.len(),
{
    if rows.len() > 0 {
        lemma_rows_in_range_bound(rows.drop_last(), start, end);
        let rest = rows_in_range(rows.drop_last(), start, end);
        if in_range(rows.last().0, start, end) {
            assert(rest.push(rows.last()).drop_last() =~= rest);
            assert(rest.push(rows.last()).last() == rows.last());
        }
    }
}

/// Copies a byte string.
pub fn clone_bytes(v: &Vec<u8>) -> (r: Vec<u8>)
    ensures
        r@ == v@,
{
    let r = v.clone();
    proof {
        assert(r@ =~= v@);
    }
    r
}

/// An in-memory snapshot: `rows` is fixed at construction; `bound` holds the
/// rows of the currently bound range, of which those before `pos` have been
/// handed out. It serves the same rows whichever scan mode is asked for.
pub struct MemRowSource {
    pub rows: Vec<(Vec<u8>, Vec<u8>)>,
    pub bound: Vec<(Vec<u8>, Vec<u8>)>,
    pub pos: usize,
}

impl MemRowSource {
    /// A source over the given pairs, not yet bound to any range.
    pub fn new(rows: Vec<(Vec<u8>, Vec<u8>)>) -> (r: Self)
        ensures
            r.inv(),
            r.rows@ == rows@,
            r.pending() == Seq::<Row>::empty(),
            forall|so: ScanOn, s: Seq<u8>, e: Seq<u8>| #[trigger] r.range_rows(so, s, e)
                == rows_in_range(rows_view(rows@), s, e),
    {
        let r = MemRowSource { rows, bound: Vec::new(), pos: 0 };
        proof {
            assert(r.pending() =~= Seq::<Row>::empty());
        }
        r
    }
}

impl RowSource for MemRowSource {
    open spec fn inv(&self) -> bool {
        self.pos <= self.bound@.len()
    }

    open spec fn range_rows(&self, scan_on: ScanOn, start: Seq<u8>, end: Seq<u8>) -> Seq<Row> {
        rows_in_range(rows_view(self.rows@), start, end)
    }

    open spec fn pending(&self) -> Seq<Row> {
        rows_view(self.bound@).skip(self.pos as int)
    }

    fn reset_range(&mut self, scan_on: ScanOn, range: &KeyRange) -> (r: Result<(), Error>) {
        let mut out: Vec<(Vec<u8>, Vec<u8>)> = Vec::new();
        let ghost all = rows_view(self.rows@);
        let mut i: usize = 0;
        proof {
            assert(all.take(0) =~= Seq::<Row>::empty());
            assert(rows_view(out@) =~= Seq::<Row>::empty());
        }
        while i < self.rows.len()
            invariant
                i <= self.rows@.len(),
                all == rows_view(self.rows@),
                rows_view(out@) == rows_in_range(all.take(i as int), range.start@, range.end@),
            decreases self.rows@.len() - i,
        {
            let kv = &self.rows[i];
            proof {
                assert(all[i as int] == row_view(self.rows@[i as int]));
                assert(all.take(i as int + 1).drop_last() =~= all.take(i as int));
                assert(all.take(i as int + 1).last() == all[i as int]);
            }
            if key_in_range(kv.0.as_slice(), range.start.as_slice(), range.end.as_slice()) {
                let k = clone_bytes(&kv.0);
                let v = clone_bytes(&kv.1);
                out.push((k, v));
                proof {
                    assert(rows_view(out@) =~= rows_view(out@.drop_last()).push(
                        row_view(out@.last()),
                    ));
                }
            }
            i = i + 1;
        }
        self.bound = out;
        self.pos = 0;
        proof {
            assert(all.take(self.rows@.len() as int) =~= all);
            assert(final(self).pending() =~= rows_view(final(self).bound@));
        }
        Ok(())
    }

    fn next_row(&mut self) -> (r: Result<Option<(Vec<u8>, Vec<u8>)>, Error>) {
        if self.pos < self.bound.len() {
            let kv = &self.bound[self.pos];
            let k = clone_bytes(&kv.0);
            let v = clone_bytes(&kv.1);
            let ghost before = self.pending();
            self.pos = self.pos + 1;
            proof {
                assert(before[0] == rows_view(self.bound@)[old(self).pos as int]);
                assert(final(self).pending() =~= before.drop_first());
            }
            Ok(Some((k, v)))
        } else {
            Ok(None)
        }
    }

    fn collect_statistics_into(&mut self, metrics: &mut ScanMetrics) {
        metrics.range_flushes = metrics.range_flushes.saturating_add(1);
    }
}

} // verus!
