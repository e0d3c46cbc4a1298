use vstd::prelude::*;
use base64::engine::general_purpose;
use base64::Engine;
use crate::thumbnails::ThumbnailCache;

verus! {

/// The sum of a sequence of sizes.
pub open spec fn total_of(sizes: Seq<u64>) -> nat
    decreases sizes.len(),
{
    if sizes.len() == 0 {
        0
    } else {
        total_of(sizes.drop_last()) + sizes.last() as nat
    }
}

/// The reported size of the cache: the snapshot file, if there is one, plus
/// every thumbnail blob, capped at `u64::MAX`.
pub open spec fn cache_size_of(snapshot: Option<u64>, blobs: Seq<u64>) -> nat {
    let sum = match snapshot {
        Some(s) => s as nat + total_of(blobs),
        None => total_of(blobs),
    };
    if sum > u64::MAX {
        u64::MAX as nat
    } else {
        sum
    }
}

/// Adds up the size of the snapshot file (if present) and of each thumbnail
/// blob, saturating at `u64::MAX`.
pub fn cache_size(snapshot: Option<u64>, blobs: &Vec<u64>) -> (r: u64)
    ensures
        r == cache_size_of(snapshot, blobs@),
{
    let mut sum: u64 = match snapshot {
        Some(s) => s,
        None => 0,
    };
    let ghost start: nat = match snapshot {
        Some(s) => s as nat,
        None => 0,
    };
    let mut i: usize = 0;
    while i < blobs.len()
        invariant
            i <= blobs@.len(),
            sum == if start + total_of(blobs@.subrange(0, i as int)) > u64::MAX {
                u64::MAX as nat
            } else {
                start + total_of(blobs@.subrange(0, i as int))
            },
        decreases blobs@.len() - i,
    {
        assert(blobs@.subrange(0, i + 1).drop_last() =~= blobs@.subrange(0, i as int));
        sum = sum.saturating_add(blobs[i]);
        i = i + 1;
    }
    assert(blobs@.subrange(0, blobs@.len() as int) =~= blobs@);
    sum
}

/// After the cache is cleared no handle is found any more and, with the
/// snapshot removed and no blob left, the reported size is zero.
pub proof fn law_cleared_cache_is_empty(cleared: ThumbnailCache, handle: Seq<char>)
    requires
        cleared@ == Map::<Seq<char>, Seq<u8>>::empty(),
    ensures
        !cleared@.contains_key(handle),
        cache_size_of(None, Seq::empty()) == 0,
{
}

/// The standard base64 alphabet.
pub open spec fn base64_alphabet() -> Seq<char> {
    seq!['A', 'B', 'C', 'D', 'E', 'F', 'G', 'H', 'I', 'J', 'K', 'L', 'M', 'N', 'O', 'P', 'Q', 'R', 'S', 'T', 'U', 'V', 'W', 'X', 'Y', 'Z', 'a', 'b', 'c', 'd', 'e', 'f', 'g', 'h', 'i', 'j', 'k', 'l', 'm', 'n', 'o', 'p', 'q', 'r', 's', 't', 'u', 'v', 'w', 'x', 'y', 'z', '0', '1', '2', '3', '4', '5', '6', '7', '8', '9', '+', '/']
}

pub open spec fn b64(v: int) -> char {
    base64_alphabet()[v]
}

/// Standard base64 with padding: each three bytes become four characters of
/// six bits each; a last group of one or two bytes is padded with `=`.
pub open spec fn base64_of(b: Seq<u8>) -> Seq<char>
    decreases b.len(),
{
    let x = b[0] as int;
    let y = b[1] as int;
    let z = b[2] as int;
    if b.len() == 0 {
        Seq::empty()
    } else if b.len() == 1 {
        seq![b64(x / 4), b64((x % 4) * 16), '=', '=']
    } else if b.len() == 2 {
        seq![b64(x / 4), b64((x % 4) * 16 + y / 16), b64((y % 16) * 4), '=']
    } else {
        seq![b64(x / 4), b64((x % 4) * 16 + y / 16), b64((y % 16) * 4 + z / 64), b64(z % 64)]
            + base64_of(b.subrange(3, b.len() as int))
    }
}

/// Relies on `Engine::encode` of `general_purpose::STANDARD`: the standard
/// alphabet with `=` padding. It panics only where the encoded length
/// overflows `usize`, which the bound excludes.
#[verifier::external_body]
fn base64_encode(bytes: &[u8]) -> (r: String)
    requires
        bytes@.len() <= usize::MAX / 2,
    ensures
        r@ == base64_of(bytes@),
{
    general_purpose::STANDARD.encode(bytes)
}

/// The declared image type of an embedded picture.
#[derive(Clone, Copy, Debug, PartialEq, Eq, Structural)]
pub enum PictureMime {
    Png,
    Jpeg,
    Gif,
    Bmp,
    Other,
}

/// The mime type named in a data URI; an unknown type is taken for JPEG.
pub open spec fn mime_name(mime: PictureMime) -> Seq<char> {
    match mime {
        PictureMime::Png => "image/png"@,
        PictureMime::Gif => "image/gif"@,
        PictureMime::Bmp => "image/bmp"@,
        _ => "image/jpeg"@,
    }
}

pub fn mime_str(mime: PictureMime) -> (r: &'static str)
    ensures
        r@ == mime_name(mime),
{
    match mime {
        PictureMime::Png => "image/png",
        PictureMime::Gif => "image/gif",
        PictureMime::Bmp => "image/bmp",
        _ => "image/jpeg",
    }
}

/// The inline form of an image: `data:<mime>;base64,<data>`.
pub open spec fn data_uri_of(mime: Seq<char>, bytes: Seq<u8>) -> Seq<char> {
    "data:"@ + mime + ";base64,"@ + base64_of(bytes)
}

/// Renders an embedded picture inline, with its declared mime type.
pub fn picture_data_uri(mime: PictureMime, bytes: &[u8]) -> (r: String)
    requires
        bytes@.len() <= usize::MAX / 2,
    ensures
        r@ == data_uri_of(mime_name(mime), bytes@),
{
    let mut out = String::new();
    out.append("data:");
    out.append(mime_str(mime));
    out.append(";base64,");
    let encoded = base64_encode(bytes);
    out.append(encoded.as_str());
    out
}

/// Renders a stored thumbnail inline; thumbnails are JPEG.
pub fn thumbnail_data_uri(bytes: &[u8]) -> (r: String)
    requires
        bytes@.len() <= usize::MAX / 2,
    ensures
        r@ == data_uri_of("image/jpeg"@, bytes@),
{
    picture_data_uri(PictureMime::Jpeg, bytes)
}

/// Looks a handle up in the cache and renders its blob inline; `None` for an
/// unknown handle.
pub fn thumbnail_for(cache: &ThumbnailCache, handle: &str) -> (r: Option<String>)
    requires
        cache.wf(),
    ensures
        match r {
            Some(uri) => cache@.contains_key(handle@) && cache@[handle@].len() <= usize::MAX / 2
                && uri@ == data_uri_of("image/jpeg"@, cache@[handle@]),
            None => !cache@.contains_key(handle@) || cache@[handle@].len() > usize::MAX / 2,
        },
{
    match cache.fetch(handle) {
        Some(bytes) => {
            if bytes.len() <= usize::MAX / 2 {
                Some(thumbnail_data_uri(bytes.as_slice()))
            } else {
                None
            }
        },
        None => None,
    }
}

} // verus!
