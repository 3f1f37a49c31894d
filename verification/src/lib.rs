//! An order-independent integrity checksum over the key/value pairs visible
//! through a snapshot, restricted to a caller-supplied set of key ranges.
//!
//! The engine pulls rows lazily from a caller-supplied row source, folds each
//! row's CRC64 (ECMA-182) digest into a running accumulator by bitwise XOR,
//! counts rows and bytes, and serializes the final triple into a field-tagged
//! binary payload. XOR is commutative and associative, so the result does not
//! depend on the order of the ranges or of the rows within them; distributed
//! callers may scan disjoint parts of a key space and combine partial results.

pub mod accum;
pub mod digest;
pub mod encode;
pub mod engine;
pub mod keys;
pub mod laws;
pub mod mem;
pub mod source;
