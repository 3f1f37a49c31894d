//! Key ranges and the bytewise lexicographic order on keys.

use vstd::prelude::*;

verus! {

/// A half-open interval `[start, end)` of keys under bytewise lexicographic
/// order. An empty `end` is below every key, so it denotes the empty range.
pub struct KeyRange {
    pub start: Vec<u8>,
    pub end: Vec<u8>,
}

/// Strict bytewise lexicographic order: a proper prefix comes first, and
/// otherwise the first differing byte decides.
pub open spec fn lex_lt(a: Seq<u8>, b: Seq<u8>) -> bool
    decreases a.len(),
{
    if b.len() == 0 {
        false
    } else if a.len() == 0 {
        true
    } else if a[0] != b[0] {
        a[0] < b[0]
    } else {
        lex_lt(a.drop_first(), b.drop_first())
    }
}

/// Whether `key` lies in the half-open interval `[start, end)`.
pub open spec fn in_range(key: Seq<u8>, start: Seq<u8>, end: Seq<u8>) -> bool {
    !lex_lt(key, start) && lex_lt(key, end)
}

/// Decides the strict lexicographic order on byte strings.
pub fn lex_lt_bytes(a: &[u8], b: &[u8]) -> (r: bool)
    ensures
        r == lex_lt(a@, b@),
{
    let mut i: usize = 0;
    proof {
        assert(a@.skip(0) =~= a@);
        assert(b@.skip(0) =~= b@);
    }
    loop
        invariant
            i <= a@.len(),
            i <= b@.len(),
            lex_lt(a@, b@) == lex_lt(a@.skip(i as int), b@.skip(i as int)),
        decreases a@.len() - i,
    {
        if i >= b.len() {
            return false;
        }
        if i >= a.len() {
            return true;
        }
        let x: u8 = a[i];
        let y: u8 = b[i];
        if x != y {
            return x < y;
        }
        proof {
            assert(a@.skip(i as int)[0] == a@[i as int]);
            assert(b@.skip(i as int)[0] == b@[i as int]);
            assert(a@.skip(i as int).drop_first() =~= a@.skip(i as int + 1));
            assert(b@.skip(i as int).drop_first() =~= b@.skip(i as int + 1));
        }
        i = i + 1;
    }
}

/// Decides membership of `key` in the half-open interval `[start, end)`.
pub fn key_in_range(key: &[u8], start: &[u8], end: &[u8]) -> (r: bool)
    ensures
        r == in_range(key@, start@, end@),
{
    !lex_lt_bytes(key, start) && lex_lt_bytes(key, end)
}

} // verus!
