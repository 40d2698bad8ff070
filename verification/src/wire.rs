//! Small byte-sequence helpers shared by the wire formats.

use vstd::prelude::*;

verus! {

/// 3-byte hash of the "NearbySharing" service id (it matches the mDNS service type).
pub const QS_SVC_HASH: [u8; 3] = [0xfc, 0x9f, 0x5e];

/// The four big-endian bytes of a 32-bit value.
pub open spec fn be_u32_bytes(x: u32) -> Seq<u8> {
    seq![
        (x / 0x100_0000) as u8,
        (x / 0x1_0000 % 0x100) as u8,
        (x / 0x100 % 0x100) as u8,
        (x % 0x100) as u8,
    ]
}

/// The value of four big-endian bytes.
pub open spec fn be_u32_value(b: Seq<u8>) -> nat
    recommends
        b.len() >= 4,
{
    (b[0] as nat) * 0x100_0000 + (b[1] as nat) * 0x1_0000 + (b[2] as nat) * 0x100 + (b[3] as nat)
}

/// Appends every byte of `src` to `dst`.
pub fn append_bytes(dst: &mut Vec<u8>, src: &[u8])
    ensures
        final(dst)@ == old(dst)@ + src@,
{
    let mut i: usize = 0;
    while i < src.len()
        invariant
            i <= src@.len(),
            dst@ == old(dst)@ + src@.take(i as int),
        decreases src@.len() - i,
    {
        dst.push(src[i]);
        i = i + 1;
        assert(src@.take(i as int) == src@.take((i - 1) as int).push(src@[i - 1]));
    }
    assert(src@.take(src@.len() as int) == src@);
}

/// The big-endian encoding of `x`, as `u32::to_be_bytes` gives it.
pub fn u32_to_be(x: u32) -> (r: [u8; 4])
    ensures
        r@ == be_u32_bytes(x),
{
    let b0 = (x >> 24) as u8;
    let b1 = ((x >> 16) & 0xff) as u8;
    let b2 = ((x >> 8) & 0xff) as u8;
    let b3 = (x & 0xff) as u8;
    assert(b0 == x / 0x100_0000 && b1 == x / 0x1_0000 % 0x100 && b2 == x / 0x100 % 0x100 && b3 == x
        % 0x100) by (bit_vector)
        requires
            b0 == (x >> 24) as u8,
            b1 == ((x >> 16) & 0xff) as u8,
            b2 == ((x >> 8) & 0xff) as u8,
            b3 == (x & 0xff) as u8,
    ;
    let r = [b0, b1, b2, b3];
    assert(r@ =~= be_u32_bytes(x));
    r
}

} // verus!
