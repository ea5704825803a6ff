//! Console protocol framing: one frame is a four-byte little-endian
//! length followed by that many payload bytes. What the payload means is
//! the codec layer's business; this module frames and checks bytes.

use vstd::prelude::*;

verus! {

/// The four little-endian bytes of a length.
pub open spec fn le32(n: u32) -> Seq<u8> {
    seq![
        (n & 0xff) as u8,
        ((n >> 8) & 0xff) as u8,
        ((n >> 16) & 0xff) as u8,
        ((n >> 24) & 0xff) as u8,
    ]
}

/// The length four little-endian bytes hold.
pub open spec fn le32_val(b: Seq<u8>) -> u32 {
    ((b[0] as u32) | ((b[1] as u32) << 8) | ((b[2] as u32) << 16) | ((b[3] as u32) << 24)) as u32
}

/// A framed payload: its length, then its bytes.
pub open spec fn frame_text(p: Seq<u8>) -> Seq<u8> {
    le32(p.len() as u32) + p
}

/// Reading back the four length bytes gives the length.
pub proof fn lemma_le32_roundtrip(n: u32)
    ensures
        le32_val(le32(n)) == n,
{
    let b0 = (n & 0xff) as u8;
    let b1 = ((n >> 8) & 0xff) as u8;
    let b2 = ((n >> 16) & 0xff) as u8;
    let b3 = ((n >> 24) & 0xff) as u8;
    assert(((b0 as u32) | ((b1 as u32) << 8) | ((b2 as u32) << 16) | ((b3 as u32) << 24)) == n)
        by (bit_vector)
        requires
            b0 == (n & 0xff) as u8,
            b1 == ((n >> 8) & 0xff) as u8,
            b2 == ((n >> 16) & 0xff) as u8,
            b3 == ((n >> 24) & 0xff) as u8,
    ;
}

/// Frame a payload.
pub fn frame(payload: &Vec<u8>) -> (r: Vec<u8>)
    requires
        payload@.len() <= u32::MAX,
    ensures
        r@ == frame_text(payload@),
{
    let n = payload.len() as u32;
    let mut r: Vec<u8> = Vec::new();
    r.push((n & 0xff) as u8);
    r.push(((n >> 8) & 0xff) as u8);
    r.push(((n >> 16) & 0xff) as u8);
    r.push(((n >> 24) & 0xff) as u8);
    let mut i: usize = 0;
    let len = payload.len();
    while i < len
        invariant
            0 <= i <= len == payload@.len(),
            r@.len() == 4 + i,
            r@.subrange(0, 4) =~= le32(payload@.len() as u32),
            r@.subrange(4, r@.len() as int) =~= payload@.take(i as int),
        decreases len - i,
    {
        r.push(payload[i]);
        proof {
            assert(r@.subrange(0, 4) =~= le32(payload@.len() as u32));
            assert(r@.subrange(4, r@.len() as int) =~= payload@.take(i as int + 1));
        }
        i = i + 1;
    }
    proof {
        assert(payload@.take(len as int) =~= payload@);
        assert(r@ =~= frame_text(payload@));
    }
    r
}

/// Take one frame off the front of a buffer: the payload and how many
/// bytes the frame used. Nothing comes back exactly while the buffer is
/// shorter than a header, or shorter than the length the header declares.
pub fn parse_frame(bytes: &Vec<u8>) -> (r: Option<(Vec<u8>, usize)>)
    ensures
        r is Some <==> bytes@.len() >= 4 && bytes@.len() >= 4 + le32_val(
            bytes@.subrange(0, 4),
        ),
        r matches Some((p, used)) ==> {
            &&& p@.len() == le32_val(bytes@.subrange(0, 4))
            &&& used == 4 + p@.len()
            &&& p@ == bytes@.subrange(4, used as int)
        },
{
    let total = bytes.len();
    if total < 4 {
        return None;
    }
    let n = (bytes[0] as u32) | ((bytes[1] as u32) << 8) | ((bytes[2] as u32) << 16) | ((
    bytes[3] as u32) << 24);
    proof {
        assert(bytes@.subrange(0, 4)[0] == bytes@[0]);
        assert(bytes@.subrange(0, 4)[1] == bytes@[1]);
        assert(bytes@.subrange(0, 4)[2] == bytes@[2]);
        assert(bytes@.subrange(0, 4)[3] == bytes@[3]);
    }
    let n = n as usize;
    if total - 4 < n {
        return None;
    }
    let mut payload: Vec<u8> = Vec::new();
    let mut i: usize = 0;
    while i < n
        invariant
            0 <= i <= n,
            4 + n <= total == bytes@.len(),
            payload@.len() == i,
            payload@ =~= bytes@.subrange(4, 4 + i as int),
        decreases n - i,
    {
        payload.push(bytes[4 + i]);
        proof {
            assert(payload@ =~= bytes@.subrange(4, 4 + i as int + 1));
        }
        i = i + 1;
    }
    Some((payload, 4 + n))
}

/// Law: taking a frame off a buffer that starts with the framed payload
/// gives the payload back and uses exactly the frame's bytes; by the
/// contract of `parse_frame`, framing and parsing round-trip whatever
/// follows the frame.
pub proof fn lemma_frame_roundtrip(p: Seq<u8>, rest: Seq<u8>)
    requires
        p.len() <= u32::MAX,
    ensures
        ({
            let b = frame_text(p) + rest;
            &&& b.len() >= 4 + le32_val(b.subrange(0, 4))
            &&& le32_val(b.subrange(0, 4)) == p.len()
            &&& b.subrange(4, 4 + p.len() as int) == p
        }),
{
    let b = frame_text(p) + rest;
    lemma_le32_roundtrip(p.len() as u32);
    assert(b.subrange(0, 4) =~= le32(p.len() as u32));
    assert(b.subrange(4, 4 + p.len() as int) =~= p);
}

} // verus!
