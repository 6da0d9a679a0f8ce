use vstd::prelude::*;

verus! {

/// The little-endian four-byte encoding of a message length.
pub open spec fn le32_bytes(n: u32) -> Seq<u8> {
    seq![
        (n & 0xff) as u8,
        ((n >> 8) & 0xff) as u8,
        ((n >> 16) & 0xff) as u8,
        ((n >> 24) & 0xff) as u8,
    ]
}

/// The length a little-endian four-byte header denotes.
pub open spec fn le32_value(b0: u8, b1: u8, b2: u8, b3: u8) -> u32 {
    (b0 as u32) | ((b1 as u32) << 8) | ((b2 as u32) << 16) | ((b3 as u32) << 24)
}

/// Reading back an encoded length yields the length: the framing round
/// trip loses nothing.
pub proof fn lemma_le32_round_trip(n: u32)
    ensures
        le32_value(
            (n & 0xff) as u8,
            ((n >> 8) & 0xff) as u8,
            ((n >> 16) & 0xff) as u8,
            ((n >> 24) & 0xff) as u8,
        ) == n,
{
    assert(((n & 0xff) as u8 as u32) | (((n >> 8) & 0xff) as u8 as u32) << 8 | (((n >> 16)
        & 0xff) as u8 as u32) << 16 | (((n >> 24) & 0xff) as u8 as u32) << 24 == n)
        by (bit_vector);
}

/// Encoding the length a header denotes yields the header back: the two
/// directions of the framing are mutually inverse.
pub proof fn lemma_le32_round_trip_bytes(b0: u8, b1: u8, b2: u8, b3: u8)
    ensures
        le32_bytes(le32_value(b0, b1, b2, b3)) == seq![b0, b1, b2, b3],
{
    let n = le32_value(b0, b1, b2, b3);
    assert((((b0 as u32) | ((b1 as u32) << 8) | ((b2 as u32) << 16) | ((b3 as u32) << 24))
        & 0xff) as u8 == b0) by (bit_vector);
    assert(((((b0 as u32) | ((b1 as u32) << 8) | ((b2 as u32) << 16) | ((b3 as u32) << 24)) >> 8)
        & 0xff) as u8 == b1) by (bit_vector);
    assert(((((b0 as u32) | ((b1 as u32) << 8) | ((b2 as u32) << 16) | ((b3 as u32) << 24)) >> 16)
        & 0xff) as u8 == b2) by (bit_vector);
    assert(((((b0 as u32) | ((b1 as u32) << 8) | ((b2 as u32) << 16) | ((b3 as u32) << 24)) >> 24)
        & 0xff) as u8 == b3) by (bit_vector);
    assert(le32_bytes(n) =~= seq![b0, b1, b2, b3]);
}

/// Frames one message for the wire: a four-byte little-endian length
/// followed by the payload bytes.
pub fn frame_message(payload: &Vec<u8>) -> (r: Vec<u8>)
    requires
        payload@.len() < 0x1_0000_0000,
    ensures
        r@ == le32_bytes(payload@.len() as u32) + payload@,
        r@.len() == payload@.len() + 4,
{
    let n: u32 = payload.len() as u32;
    let mut out: Vec<u8> = Vec::new();
    out.push((n & 0xff) as u8);
    out.push(((n >> 8) & 0xff) as u8);
    out.push(((n >> 16) & 0xff) as u8);
    out.push(((n >> 24) & 0xff) as u8);
    proof {
        assert(out@ =~= le32_bytes(n));
    }
    let mut i: usize = 0;
    while i < payload.len()
        invariant
            i <= payload@.len(),
            payload@.len() < 0x1_0000_0000,
            n == payload@.len() as u32,
            out@ == le32_bytes(n) + payload@.subrange(0, i as int),
        decreases payload@.len() - i,
    {
        out.push(payload[i]);
        proof {
            assert(out@ =~= le32_bytes(n) + payload@.subrange(0, i + 1));
        }
        i += 1;
    }
    proof {
        assert(payload@.subrange(0, payload@.len() as int) =~= payload@);
        assert(out@ =~= le32_bytes(payload@.len() as u32) + payload@);
    }
    out
}

/// Reads the length a frame header announces: `None` for a header shorter
/// than four bytes.
pub fn parse_frame_len(header: &Vec<u8>) -> (r: Option<u32>)
    ensures
        r is Some <==> header@.len() >= 4,
        r matches Some(n) ==> n == le32_value(header@[0], header@[1], header@[2], header@[3]),
{
    if header.len() < 4 {
        None
    } else {
        let b0: u32 = header[0] as u32;
        let b1: u32 = header[1] as u32;
        let b2: u32 = header[2] as u32;
        let b3: u32 = header[3] as u32;
        Some(b0 | (b1 << 8) | (b2 << 16) | (b3 << 24))
    }
}

} // verus!
