//! Big- and little-endian byte encodings of the fixed-width integers that
//! appear in AMF0 values and RTMP chunk headers.

use vstd::prelude::*;

verus! {

/// Big-endian bytes of a `u16`.
pub open spec fn spec_u16_be(n: u16) -> Seq<u8> {
    seq![(n >> 8) as u8, n as u8]
}

/// The `u16` denoted by two big-endian bytes.
pub open spec fn spec_u16_of_be(b0: u8, b1: u8) -> u16 {
    ((b0 as u16) << 8) | (b1 as u16)
}

/// Big-endian bytes of a 24-bit value stored in a `u32`.
pub open spec fn spec_u24_be(n: u32) -> Seq<u8>
    recommends
        n < 0x1000000,
{
    seq![(n >> 16) as u8, (n >> 8) as u8, n as u8]
}

/// The 24-bit value denoted by three big-endian bytes.
pub open spec fn spec_u24_of_be(b0: u8, b1: u8, b2: u8) -> u32 {
    ((b0 as u32) << 16) | ((b1 as u32) << 8) | (b2 as u32)
}

/// Big-endian bytes of a `u32`.
pub open spec fn spec_u32_be(n: u32) -> Seq<u8> {
    seq![(n >> 24) as u8, (n >> 16) as u8, (n >> 8) as u8, n as u8]
}

/// The `u32` denoted by four big-endian bytes.
pub open spec fn spec_u32_of_be(b0: u8, b1: u8, b2: u8, b3: u8) -> u32 {
    ((b0 as u32) << 24) | ((b1 as u32) << 16) | ((b2 as u32) << 8) | (b3 as u32)
}

/// Little-endian bytes of a `u32`.
pub open spec fn spec_u32_le(n: u32) -> Seq<u8> {
    seq![n as u8, (n >> 8) as u8, (n >> 16) as u8, (n >> 24) as u8]
}

/// The `u32` denoted by four little-endian bytes.
pub open spec fn spec_u32_of_le(b0: u8, b1: u8, b2: u8, b3: u8) -> u32 {
    ((b3 as u32) << 24) | ((b2 as u32) << 16) | ((b1 as u32) << 8) | (b0 as u32)
}

/// Big-endian bytes of a `u64`.
pub open spec fn spec_u64_be(n: u64) -> Seq<u8> {
    seq![
        (n >> 56) as u8,
        (n >> 48) as u8,
        (n >> 40) as u8,
        (n >> 32) as u8,
        (n >> 24) as u8,
        (n >> 16) as u8,
        (n >> 8) as u8,
        n as u8,
    ]
}

/// The `u64` denoted by eight big-endian bytes.
pub open spec fn spec_u64_of_be(b: Seq<u8>) -> u64
    recommends
        b.len() == 8,
{
    ((b[0] as u64) << 56) | ((b[1] as u64) << 48) | ((b[2] as u64) << 40) | ((b[3] as u64) << 32)
        | ((b[4] as u64) << 24) | ((b[5] as u64) << 16) | ((b[6] as u64) << 8) | (b[7] as u64)
}

/// Reading back the big-endian bytes of a `u16` yields the value.
pub proof fn lemma_u16_be_round_trip(n: u16)
    ensures
        spec_u16_of_be(spec_u16_be(n)[0], spec_u16_be(n)[1]) == n,
{
    assert((((n >> 8) as u8 as u16) << 8) | (n as u8 as u16) == n) by (bit_vector);
}

/// Reading back the big-endian bytes of a 24-bit value yields the value.
pub proof fn lemma_u24_be_round_trip(n: u32)
    requires
        n < 0x1000000,
    ensures
        spec_u24_of_be(spec_u24_be(n)[0], spec_u24_be(n)[1], spec_u24_be(n)[2]) == n,
{
    assert((((n >> 16) as u8 as u32) << 16) | (((n >> 8) as u8 as u32) << 8) | (n as u8 as u32)
        == n) by (bit_vector)
        requires
            n < 0x1000000,
    ;
}

/// Reading back the big-endian bytes of a `u32` yields the value.
pub proof fn lemma_u32_be_round_trip(n: u32)
    ensures
        spec_u32_of_be(
            spec_u32_be(n)[0],
            spec_u32_be(n)[1],
            spec_u32_be(n)[2],
            spec_u32_be(n)[3],
        ) == n,
{
    assert((((n >> 24) as u8 as u32) << 24) | (((n >> 16) as u8 as u32) << 16) | (((n
        >> 8) as u8 as u32) << 8) | (n as u8 as u32) == n) by (bit_vector);
}

/// Reading back the little-endian bytes of a `u32` yields the value.
pub proof fn lemma_u32_le_round_trip(n: u32)
    ensures
        spec_u32_of_le(
            spec_u32_le(n)[0],
            spec_u32_le(n)[1],
            spec_u32_le(n)[2],
            spec_u32_le(n)[3],
        ) == n,
{
    assert((((n >> 24) as u8 as u32) << 24) | (((n >> 16) as u8 as u32) << 16) | (((n
        >> 8) as u8 as u32) << 8) | (n as u8 as u32) == n) by (bit_vector);
}

/// Reading back the big-endian bytes of a `u64` yields the value.
pub proof fn lemma_u64_be_round_trip(n: u64)
    ensures
        spec_u64_of_be(spec_u64_be(n)) == n,
{
    let b = spec_u64_be(n);
    assert((((n >> 56) as u8 as u64) << 56) | (((n >> 48) as u8 as u64) << 48) | (((n
        >> 40) as u8 as u64) << 40) | (((n >> 32) as u8 as u64) << 32) | (((n
        >> 24) as u8 as u64) << 24) | (((n >> 16) as u8 as u64) << 16) | (((n
        >> 8) as u8 as u64) << 8) | (n as u8 as u64) == n) by (bit_vector);
}

/// Appends the two big-endian bytes of a `u16`.
pub fn push_u16_be(out: &mut Vec<u8>, n: u16)
    ensures
        final(out)@ == old(out)@ + spec_u16_be(n),
{
    out.push((n >> 8) as u8);
    out.push(n as u8);
    proof {
        assert(final(out)@ =~= old(out)@ + spec_u16_be(n));
    }
}

/// Appends the three big-endian bytes of a 24-bit value.
pub fn push_u24_be(out: &mut Vec<u8>, n: u32)
    requires
        n < 0x1000000,
    ensures
        final(out)@ == old(out)@ + spec_u24_be(n),
{
    out.push((n >> 16) as u8);
    out.push((n >> 8) as u8);
    out.push(n as u8);
    proof {
        assert(final(out)@ =~= old(out)@ + spec_u24_be(n));
    }
}

/// Appends the four big-endian bytes of a `u32`.
pub fn push_u32_be(out: &mut Vec<u8>, n: u32)
    ensures
        final(out)@ == old(out)@ + spec_u32_be(n),
{
    out.push((n >> 24) as u8);
    out.push((n >> 16) as u8);
    out.push((n >> 8) as u8);
    out.push(n as u8);
    proof {
        assert(final(out)@ =~= old(out)@ + spec_u32_be(n));
    }
}

/// Appends the four little-endian bytes of a `u32`.
pub fn push_u32_le(out: &mut Vec<u8>, n: u32)
    ensures
        final(out)@ == old(out)@ + spec_u32_le(n),
{
    out.push(n as u8);
    out.push((n >> 8) as u8);
    out.push((n >> 16) as u8);
    out.push((n >> 24) as u8);
    proof {
        assert(final(out)@ =~= old(out)@ + spec_u32_le(n));
    }
}

/// Appends the eight big-endian bytes of a `u64`.
pub fn push_u64_be(out: &mut Vec<u8>, n: u64)
    ensures
        final(out)@ == old(out)@ + spec_u64_be(n),
{
    out.push((n >> 56) as u8);
    out.push((n >> 48) as u8);
    out.push((n >> 40) as u8);
    out.push((n >> 32) as u8);
    out.push((n >> 24) as u8);
    out.push((n >> 16) as u8);
    out.push((n >> 8) as u8);
    out.push(n as u8);
    proof {
        assert(final(out)@ =~= old(out)@ + spec_u64_be(n));
    }
}

/// Reads a big-endian `u16` at `pos`.
pub fn read_u16_be(bytes: &Vec<u8>, pos: usize) -> (r: u16)
    requires
        pos + 2 <= bytes.len(),
    ensures
        r == spec_u16_of_be(bytes@[pos as int], bytes@[pos as int + 1]),
{
    ((bytes[pos] as u16) << 8) | (bytes[pos + 1] as u16)
}

/// Reads a big-endian 24-bit value at `pos`.
pub fn read_u24_be(bytes: &Vec<u8>, pos: usize) -> (r: u32)
    requires
        pos + 3 <= bytes.len(),
    ensures
        r == spec_u24_of_be(bytes@[pos as int], bytes@[pos as int + 1], bytes@[pos as int + 2]),
        r < 0x1000000,
{
    let r = ((bytes[pos] as u32) << 16) | ((bytes[pos + 1] as u32) << 8) | (bytes[pos + 2] as u32);
    proof {
        let b0 = bytes@[pos as int];
        let b1 = bytes@[pos as int + 1];
        let b2 = bytes@[pos as int + 2];
        assert(((b0 as u32) << 16) | ((b1 as u32) << 8) | (b2 as u32) < 0x1000000)
            by (bit_vector);
    }
    r
}

/// Reads a big-endian `u32` at `pos`.
pub fn read_u32_be(bytes: &Vec<u8>, pos: usize) -> (r: u32)
    requires
        pos + 4 <= bytes.len(),
    ensures
        r == spec_u32_of_be(
            bytes@[pos as int],
            bytes@[pos as int + 1],
            bytes@[pos as int + 2],
            bytes@[pos as int + 3],
        ),
{
    ((bytes[pos] as u32) << 24) | ((bytes[pos + 1] as u32) << 16) | ((bytes[pos + 2] as u32) << 8)
        | (bytes[pos + 3] as u32)
}

/// Reads a little-endian `u32` at `pos`.
pub fn read_u32_le(bytes: &Vec<u8>, pos: usize) -> (r: u32)
    requires
        pos + 4 <= bytes.len(),
    ensures
        r == spec_u32_of_le(
            bytes@[pos as int],
            bytes@[pos as int + 1],
            bytes@[pos as int + 2],
            bytes@[pos as int + 3],
        ),
{
    ((bytes[pos + 3] as u32) << 24) | ((bytes[pos + 2] as u32) << 16) | ((bytes[pos
        + 1] as u32) << 8) | (bytes[pos] as u32)
}

/// Reads a big-endian `u64` at `pos`.
pub fn read_u64_be(bytes: &Vec<u8>, pos: usize) -> (r: u64)
    requires
        pos + 8 <= bytes.len(),
    ensures
        r == spec_u64_of_be(bytes@.subrange(pos as int, pos as int + 8)),
{
    let r = ((bytes[pos] as u64) << 56) | ((bytes[pos + 1] as u64) << 48) | ((bytes[pos
        + 2] as u64) << 40) | ((bytes[pos + 3] as u64) << 32) | ((bytes[pos + 4] as u64) << 24) | ((
    bytes[pos + 5] as u64) << 16) | ((bytes[pos + 6] as u64) << 8) | (bytes[pos + 7] as u64);
    proof {
        let s = bytes@.subrange(pos as int, pos as int + 8);
        assert(s[0] == bytes@[pos as int]);
        assert(s[1] == bytes@[pos as int + 1]);
        assert(s[2] == bytes@[pos as int + 2]);
        assert(s[3] == bytes@[pos as int + 3]);
        assert(s[4] == bytes@[pos as int + 4]);
        assert(s[5] == bytes@[pos as int + 5]);
        assert(s[6] == bytes@[pos as int + 6]);
        assert(s[7] == bytes@[pos as int + 7]);
    }
    r
}

/// Appends the bytes of `bytes[from..to]`.
#[verifier::loop_isolation(false)]
pub fn extend_from_range(out: &mut Vec<u8>, bytes: &Vec<u8>, from: usize, to: usize)
    requires
        from <= to <= bytes.len(),
    ensures
        final(out)@ == old(out)@ + bytes@.subrange(from as int, to as int),
{
    let mut i: usize = from;
    while i < to
        invariant
            from <= i <= to,
            out@ == old(out)@ + bytes@.subrange(from as int, i as int),
        decreases to - i,
    {
        out.push(bytes[i]);
        proof {
            assert(bytes@.subrange(from as int, i as int).push(bytes@[i as int]) =~= bytes@.subrange(
                from as int,
                i as int + 1,
            ));
        }
        i = i + 1;
    }
    proof {
        assert(out@ =~= old(out)@ + bytes@.subrange(from as int, to as int));
    }
}

} // verus!
