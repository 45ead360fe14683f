//! Big-endian byte-order conversions for the wire format: every length,
//! checksum, sequence number and code travels as big-endian bytes.

use vstd::prelude::*;

verus! {

/// The two big-endian bytes of a `u16`.
pub open spec fn spec_u16_to_be_bytes(x: u16) -> Seq<u8> {
    seq![(x >> 8) as u8, (x & 0xff) as u8]
}

/// The `u16` read from two big-endian bytes.
pub open spec fn spec_u16_from_be_bytes(s: Seq<u8>) -> u16
    recommends
        s.len() == 2,
{
    ((s[0] as u16) << 8 | (s[1] as u16)) as u16
}

/// The four big-endian bytes of a `u32`.
pub open spec fn spec_u32_to_be_bytes(x: u32) -> Seq<u8> {
    seq![
        ((x >> 24) & 0xff) as u8,
        ((x >> 16) & 0xff) as u8,
        ((x >> 8) & 0xff) as u8,
        (x & 0xff) as u8,
    ]
}

/// The `u32` read from four big-endian bytes.
pub open spec fn spec_u32_from_be_bytes(s: Seq<u8>) -> u32
    recommends
        s.len() == 4,
{
    ((s[0] as u32) << 24 | (s[1] as u32) << 16 | (s[2] as u32) << 8 | (s[3] as u32)) as u32
}

/// Reading back the two big-endian bytes of a `u16` yields the `u16`,
/// and writing back the `u16` read from two bytes yields the bytes.
pub proof fn lemma_u16_be_bytes_round_trip()
    ensures
        forall|x: u16| #[trigger] spec_u16_from_be_bytes(spec_u16_to_be_bytes(x)) == x,
        forall|s: Seq<u8>|
            s.len() == 2 ==> #[trigger] spec_u16_to_be_bytes(spec_u16_from_be_bytes(s)) == s,
{
    assert forall|x: u16| #[trigger] spec_u16_from_be_bytes(spec_u16_to_be_bytes(x)) == x by {
        let s = spec_u16_to_be_bytes(x);
        assert((((x >> 8) as u8) as u16) << 8 | (((x & 0xff) as u8) as u16) == x) by (bit_vector);
    }
    assert forall|s: Seq<u8>| s.len() == 2 implies #[trigger] spec_u16_to_be_bytes(
        spec_u16_from_be_bytes(s),
    ) == s by {
        let x = spec_u16_from_be_bytes(s);
        let b0 = s[0];
        let b1 = s[1];
        assert(((((b0 as u16) << 8 | (b1 as u16)) as u16) >> 8) as u8 == b0) by (bit_vector);
        assert(((((b0 as u16) << 8 | (b1 as u16)) as u16) & 0xff) as u8 == b1) by (bit_vector);
        assert(spec_u16_to_be_bytes(x) =~= s);
    }
}

/// Reading back the four big-endian bytes of a `u32` yields the `u32`,
/// and writing back the `u32` read from four bytes yields the bytes.
pub proof fn lemma_u32_be_bytes_round_trip()
    ensures
        forall|x: u32| #[trigger] spec_u32_from_be_bytes(spec_u32_to_be_bytes(x)) == x,
        forall|s: Seq<u8>|
            s.len() == 4 ==> #[trigger] spec_u32_to_be_bytes(spec_u32_from_be_bytes(s)) == s,
{
    assert forall|x: u32| #[trigger] spec_u32_from_be_bytes(spec_u32_to_be_bytes(x)) == x by {
        assert(((((x >> 24) & 0xff) as u8) as u32) << 24 | ((((x >> 16) & 0xff) as u8) as u32)
            << 16 | ((((x >> 8) & 0xff) as u8) as u32) << 8 | (((x & 0xff) as u8) as u32) == x)
            by (bit_vector);
    }
    assert forall|s: Seq<u8>| s.len() == 4 implies #[trigger] spec_u32_to_be_bytes(
        spec_u32_from_be_bytes(s),
    ) == s by {
        let x = spec_u32_from_be_bytes(s);
        let b0 = s[0];
        let b1 = s[1];
        let b2 = s[2];
        let b3 = s[3];
        assert({
            let y = ((b0 as u32) << 24 | (b1 as u32) << 16 | (b2 as u32) << 8 | (b3 as u32)) as u32;
            ((y >> 24) & 0xff) as u8 == b0 && ((y >> 16) & 0xff) as u8 == b1 && ((y >> 8)
                & 0xff) as u8 == b2 && (y & 0xff) as u8 == b3
        }) by (bit_vector);
        assert(spec_u32_to_be_bytes(x) =~= s);
    }
}

/// Write a `u16` as two big-endian bytes.
pub fn u16_to_be_bytes(x: u16) -> (s: Vec<u8>)
    ensures
        s@ == spec_u16_to_be_bytes(x),
        s@.len() == 2,
{
    proof {
        assert(x >> 8 < 256 && x & 0xff < 256) by (bit_vector);
    }
    let mut s: Vec<u8> = Vec::new();
    s.push((x >> 8) as u8);
    s.push((x & 0xff) as u8);
    proof {
        assert(s@ =~= spec_u16_to_be_bytes(x));
    }
    s
}

/// Read a `u16` from two big-endian bytes.
pub fn u16_from_be_bytes(s: &[u8]) -> (x: u16)
    requires
        s@.len() >= 2,
    ensures
        x == spec_u16_from_be_bytes(s@.subrange(0, 2)),
{
    let b0 = *vstd::slice::slice_index_get(s, 0);
    let b1 = *vstd::slice::slice_index_get(s, 1);
    proof {
        assert((b0 as u16) << 8 <= 0xff00) by (bit_vector);
        assert((b0 as u16) << 8 | (b1 as u16) <= 0xffff) by (bit_vector);
        assert(s@.subrange(0, 2)[0] == b0 && s@.subrange(0, 2)[1] == b1);
    }
    (b0 as u16) << 8 | (b1 as u16)
}

/// Write a `u32` as four big-endian bytes.
pub fn u32_to_be_bytes(x: u32) -> (s: Vec<u8>)
    ensures
        s@ == spec_u32_to_be_bytes(x),
        s@.len() == 4,
{
    proof {
        assert((x >> 24) & 0xff < 256 && (x >> 16) & 0xff < 256 && (x >> 8) & 0xff < 256 && x
            & 0xff < 256) by (bit_vector);
    }
    let mut s: Vec<u8> = Vec::new();
    s.push(((x >> 24) & 0xff) as u8);
    s.push(((x >> 16) & 0xff) as u8);
    s.push(((x >> 8) & 0xff) as u8);
    s.push((x & 0xff) as u8);
    proof {
        assert(s@ =~= spec_u32_to_be_bytes(x));
    }
    s
}

/// Read a `u32` from four big-endian bytes.
pub fn u32_from_be_bytes(s: &[u8]) -> (x: u32)
    requires
        s@.len() >= 4,
    ensures
        x == spec_u32_from_be_bytes(s@.subrange(0, 4)),
{
    let b0 = *vstd::slice::slice_index_get(s, 0);
    let b1 = *vstd::slice::slice_index_get(s, 1);
    let b2 = *vstd::slice::slice_index_get(s, 2);
    let b3 = *vstd::slice::slice_index_get(s, 3);
    proof {
        assert((b0 as u32) << 24 | (b1 as u32) << 16 | (b2 as u32) << 8 | (b3 as u32)
            <= 0xffffffff) by (bit_vector);
        assert(s@.subrange(0, 4)[0] == b0 && s@.subrange(0, 4)[1] == b1 && s@.subrange(0, 4)[2]
            == b2 && s@.subrange(0, 4)[3] == b3);
    }
    (b0 as u32) << 24 | (b1 as u32) << 16 | (b2 as u32) << 8 | (b3 as u32)
}

} // verus!
