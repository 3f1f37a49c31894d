//! Serialization of the final result into the field-tagged binary payload:
//! three varint-encoded unsigned fields, tagged 1 (checksum), 2 (row count)
//! and 3 (byte count), each written whatever its value.

use vstd::prelude::*;

verus! {

/// The base-128 varint encoding of `n`: seven value bits per byte, least
/// significant group first, the high bit set on every byte but the last.
pub open spec fn varint(n: u64) -> Seq<u8>
    decreases n,
{
    if n < 128 {
        seq![n as u8]
    } else {
        seq![(128 + n % 128) as u8] + varint(n / 128)
    }
}

/// One varint field of the payload: a single tag byte (field number shifted
/// left by three, wire type zero) followed by the varint of the value.
pub open spec fn tagged_u64(field: u64, value: u64) -> Seq<u8> {
    seq![(field * 8) as u8] + varint(value)
}

/// The whole payload: the three fields in field-number order.
pub open spec fn checksum_payload(checksum: u64, total_kvs: u64, total_bytes: u64) -> Seq<u8> {
    tagged_u64(1, checksum) + tagged_u64(2, total_kvs) + tagged_u64(3, total_bytes)
}

/// Appends the varint encoding of `value` to `out`.
pub fn write_varint(out: &mut Vec<u8>, value: u64)
    ensures
        final(out)@ == old(out)@ + varint(value),
{
    let mut n: u64 = value;
    while n >= 128
        invariant
            out@ + varint(n) == old(out)@ + varint(value),
        decreases n,
    {
        let b: u8 = (n % 128) as u8 + 128;
        out.push(b);
        proof {
            assert(varint(n) == seq![b] + varint(n / 128));
            assert(out@ + varint(n / 128) =~= old(out)@ + varint(value));
        }
        n = n / 128;
    }
    out.push(n as u8);
    proof {
        assert(varint(n) == seq![n as u8]);
        assert(final(out)@ =~= old(out)@ + varint(value));
    }
}

/// Encodes `(checksum, total_kvs, total_bytes)` as the field-tagged payload.
pub fn encode_checksum_payload(checksum: u64, total_kvs: u64, total_bytes: u64) -> (r: Vec<u8>)
    ensures
        r@ == checksum_payload(checksum, total_kvs, total_bytes),
{
    let mut out: Vec<u8> = Vec::new();
    out.push(8);
    write_varint(&mut out, checksum);
    out.push(16);
    write_varint(&mut out, total_kvs);
    out.push(24);
    write_varint(&mut out, total_bytes);
    proof {
        assert(out@ =~= checksum_payload(checksum, total_kvs, total_bytes));
    }
    out
}

} // verus!
