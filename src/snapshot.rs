use vstd::prelude::*;
use crate::thumbnails::{content_hash, content_hash_of};

verus! {

/// The four bytes that open a snapshot file: "LUMA".
pub open spec fn magic() -> Seq<u8> {
    seq![0x4cu8, 0x55u8, 0x4du8, 0x41u8]
}

/// The little-endian bytes of `n`.
pub open spec fn le_bytes(n: u64) -> Seq<u8> {
    seq![
        n as u8,
        (n >> 8u64) as u8,
        (n >> 16u64) as u8,
        (n >> 24u64) as u8,
        (n >> 32u64) as u8,
        (n >> 40u64) as u8,
        (n >> 48u64) as u8,
        (n >> 56u64) as u8,
    ]
}

/// The number whose little-endian bytes are the eight bytes of `b`.
pub open spec fn le_value(b: Seq<u8>) -> u64 {
    (b[0] as u64) | ((b[1] as u64) << 8u64) | ((b[2] as u64) << 16u64) | ((b[3] as u64) << 24u64)
        | ((b[4] as u64) << 32u64) | ((b[5] as u64) << 40u64) | ((b[6] as u64) << 48u64) | ((
    b[7] as u64) << 56u64)
}

/// A snapshot file: the magic bytes, the serialized records, and the content
/// hash of those records in little-endian order.
pub open spec fn framed(payload: Seq<u8>) -> Seq<u8> {
    magic() + payload + le_bytes(content_hash_of(payload))
}

/// The part of a file between the magic bytes and the trailing hash.
pub open spec fn payload_of(file: Seq<u8>) -> Seq<u8> {
    file.subrange(4, file.len() - 8)
}

/// A file is whole when it is long enough, opens with the magic bytes, and
/// ends with the hash of what lies between. A file cut short or overwritten
/// in part fails this unless the hash collides.
pub open spec fn whole(file: Seq<u8>) -> bool {
    &&& file.len() >= 12
    &&& file.subrange(0, 4) == magic()
    &&& le_value(file.subrange(file.len() - 8, file.len() as int)) == content_hash_of(
        payload_of(file),
    )
}

proof fn lemma_le_round_trip(n: u64)
    ensures
        le_value(le_bytes(n)) == n,
{
    let b = le_bytes(n);
    assert(b[0] == n as u8 && b[1] == (n >> 8u64) as u8 && b[2] == (n >> 16u64) as u8 && b[3] == (n
        >> 24u64) as u8 && b[4] == (n >> 32u64) as u8 && b[5] == (n >> 40u64) as u8 && b[6] == (n
        >> 48u64) as u8 && b[7] == (n >> 56u64) as u8);
    assert(((n as u8) as u64) | ((((n >> 8u64) as u8) as u64) << 8u64) | ((((n >> 16u64) as u8) as u64)
        << 16u64) | ((((n >> 24u64) as u8) as u64) << 24u64) | ((((n >> 32u64) as u8) as u64)
        << 32u64) | ((((n >> 40u64) as u8) as u64) << 40u64) | ((((n >> 48u64) as u8) as u64)
        << 48u64) | ((((n >> 56u64) as u8) as u64) << 56u64) == n) by (bit_vector);
}

/// Saving then loading gives back what was saved: a framed payload is whole,
/// and the payload read out of it is the one framed.
pub proof fn law_snapshot_round_trip(payload: Seq<u8>)
    ensures
        whole(framed(payload)),
        payload_of(framed(payload)) == payload,
{
    let f = framed(payload);
    lemma_le_round_trip(content_hash_of(payload));
    assert(f.subrange(0, 4) =~= magic());
    assert(payload_of(f) =~= payload);
    assert(f.subrange(f.len() - 8, f.len() as int) =~= le_bytes(content_hash_of(payload)));
}

fn push_all(out: &mut Vec<u8>, bytes: &[u8])
    ensures
        final(out)@ == old(out)@ + bytes@,
{
    let mut i: usize = 0;
    while i < bytes.len()
        invariant
            i <= bytes@.len(),
            out@ == old(out)@ + bytes@.subrange(0, i as int),
        decreases bytes@.len() - i,
    {
        out.push(bytes[i]);
        i = i + 1;
        assert(out@ =~= old(out)@ + bytes@.subrange(0, i as int));
    }
    assert(bytes@.subrange(0, bytes@.len() as int) =~= bytes@);
}

/// Frames serialized records into the bytes of a snapshot file.
pub fn frame_snapshot(payload: &[u8]) -> (r: Vec<u8>)
    requires
        payload@.len() + 12 <= usize::MAX,
    ensures
        r@ == framed(payload@),
{
    let mut out: Vec<u8> = Vec::new();
    out.push(0x4c);
    out.push(0x55);
    out.push(0x4d);
    out.push(0x41);
    assert(out@ =~= magic());
    push_all(&mut out, payload);
    let h = content_hash(payload);
    out.push(h as u8);
    out.push((h >> 8) as u8);
    out.push((h >> 16) as u8);
    out.push((h >> 24) as u8);
    out.push((h >> 32) as u8);
    out.push((h >> 40) as u8);
    out.push((h >> 48) as u8);
    out.push((h >> 56) as u8);
    assert(out@ =~= framed(payload@));
    out
}

/// Reads the serialized records out of a snapshot file, or `None` where the
/// file is not whole.
pub fn unframe_snapshot(file: &[u8]) -> (r: Option<Vec<u8>>)
    ensures
        match r {
            Some(p) => whole(file@) && p@ == payload_of(file@),
            None => !whole(file@),
        },
{
    let n = file.len();
    if n < 12 {
        return None;
    }
    if file[0] != 0x4c || file[1] != 0x55 || file[2] != 0x4d || file[3] != 0x41 {
        assert(file@.subrange(0, 4)[0] == file@[0]);
        assert(file@.subrange(0, 4)[1] == file@[1]);
        assert(file@.subrange(0, 4)[2] == file@[2]);
        assert(file@.subrange(0, 4)[3] == file@[3]);
        return None;
    }
    assert(file@.subrange(0, 4) =~= magic());
    let mut payload: Vec<u8> = Vec::new();
    let mut i: usize = 4;
    while i < n - 8
        invariant
            n == file@.len(),
            n >= 12,
            4 <= i <= n - 8,
            payload@ == file@.subrange(4, i as int),
        decreases n - 8 - i,
    {
        payload.push(file[i]);
        i = i + 1;
        assert(payload@ =~= file@.subrange(4, i as int));
    }
    let t = n - 8;
    let stored: u64 = (file[t] as u64) | ((file[t + 1] as u64) << 8) | ((file[t + 2] as u64) << 16)
        | ((file[t + 3] as u64) << 24) | ((file[t + 4] as u64) << 32) | ((file[t + 5] as u64) << 40)
        | ((file[t + 6] as u64) << 48) | ((file[t + 7] as u64) << 56);
    let ghost tail = file@.subrange(t as int, n as int);
    assert(tail[0] == file@[t as int] && tail[1] == file@[t + 1] && tail[2] == file@[t + 2]
        && tail[3] == file@[t + 3] && tail[4] == file@[t + 4] && tail[5] == file@[t + 5]
        && tail[6] == file@[t + 6] && tail[7] == file@[t + 7]);
    assert(stored == le_value(tail));
    if stored == content_hash(payload.as_slice()) {
        Some(payload)
    } else {
        None
    }
}

} // verus!
