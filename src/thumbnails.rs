use vstd::prelude::*;
use std::collections::hash_map::DefaultHasher;
use std::hash::Hasher;
use vstd::std_specs::hash::DefaultHasherAdditionalSpecFns;
use std::io::Cursor;
use image::imageops::FilterType;
use image::ImageFormat;
use crate::numerals::{hex_digits, hex_lower, is_hex_u64, is_hex_u64_text, lemma_hex_u64_text};
use crate::text::str_eq;

verus! {

/// Side of the square box that thumbnails are fitted into.
pub const THUMBNAIL_SIDE: u32 = 250;

/// The content hash of encoded thumbnail bytes: what a fresh std
/// `DefaultHasher` finishes with after one write of the bytes.
pub open spec fn content_hash_of(bytes: Seq<u8>) -> u64 {
    DefaultHasher::spec_finish(seq![bytes])
}

/// Hashes bytes with a `DefaultHasher` made by `new`, whose keys are fixed,
/// so that equal bytes hash alike in every run.
pub fn content_hash(bytes: &[u8]) -> (r: u64)
    ensures
        r == content_hash_of(bytes@),
{
    let mut hasher = DefaultHasher::new();
    hasher.write(bytes);
    hasher.finish()
}

/// What decoding `raw` as an image, fitting it into a `side` x `side` box
/// with the Lanczos3 filter and encoding the result as JPEG gives; `None`
/// where decoding or encoding fails.
pub uninterp spec fn jpeg_thumbnail_of(raw: Seq<u8>, side: u32) -> Option<Seq<u8>>;

/// Relies on `image::load_from_memory` (format guessed from the bytes),
/// `DynamicImage::resize` with `FilterType::Lanczos3` (keeps the aspect ratio)
/// and `DynamicImage::write_to` with `ImageFormat::Jpeg`: each depends on its
/// input alone.
#[verifier::external_body]
fn jpeg_thumbnail(raw: &[u8], side: u32) -> (r: Option<Vec<u8>>)
    ensures
        match r {
            Some(b) => jpeg_thumbnail_of(raw@, side) == Some(b@),
            None => jpeg_thumbnail_of(raw@, side) is None,
        },
{
    let img = image::load_from_memory(raw).ok()?;
    let small = img.resize(side, side, FilterType::Lanczos3);
    let mut out: Vec<u8> = Vec::new();
    small.write_to(&mut Cursor::new(&mut out), ImageFormat::Jpeg).ok()?;
    Some(out)
}

/// The handle of an encoded thumbnail: the lowercase hexadecimal form of its
/// content hash.
pub open spec fn handle_of(bytes: Seq<u8>) -> Seq<char> {
    hex_digits(content_hash_of(bytes) as nat)
}

/// Computes the handle under which `bytes` are stored.
pub fn handle_for(bytes: &Vec<u8>) -> (r: String)
    ensures
        r@ == handle_of(bytes@),
{
    hex_lower(content_hash(bytes.as_slice()))
}

/// The file name of the blob stored under `handle`.
pub open spec fn blob_name_of(handle: Seq<char>) -> Seq<char> {
    handle + ".bin"@
}

/// Every handle has the shape of a rendered 64-bit number: one to sixteen
/// lowercase hexadecimal digits.
pub proof fn lemma_handle_shape(bytes: Seq<u8>)
    ensures
        is_hex_u64_text(handle_of(bytes)),
{
    lemma_hex_u64_text(content_hash_of(bytes));
}

/// Builds the file name `<handle>.bin` of a stored blob; `None` for text that
/// is not shaped like a handle, so that no other name can be formed from it.
pub fn blob_file_name(handle: &str) -> (r: Option<String>)
    ensures
        match r {
            Some(name) => is_hex_u64_text(handle@) && name@ == blob_name_of(handle@),
            None => !is_hex_u64_text(handle@),
        },
{
    if !is_hex_u64(handle) {
        return None;
    }
    let mut name = String::new();
    name.append(handle);
    name.append(".bin");
    assert(name@ =~= blob_name_of(handle@));
    Some(name)
}

/// An encoded thumbnail together with its content-derived handle.
pub struct Thumbnail {
    handle: String,
    bytes: Vec<u8>,
}

impl Thumbnail {
    #[verifier::type_invariant]
    spec fn addressed(self) -> bool {
        self.handle@ == handle_of(self.bytes@)
    }

    pub closed spec fn handle_view(self) -> Seq<char> {
        self.handle@
    }

    pub closed spec fn bytes_view(self) -> Seq<u8> {
        self.bytes@
    }

    /// Wraps already encoded thumbnail bytes, addressing them by their hash.
    pub fn from_encoded(bytes: Vec<u8>) -> (r: Thumbnail)
        ensures
            r.bytes_view() == bytes@,
            r.handle_view() == handle_of(bytes@),
    {
        let handle = handle_for(&bytes);
        Thumbnail { handle, bytes }
    }

    pub fn handle(&self) -> (r: &String)
        ensures
            r@ == self.handle_view(),
    {
        &self.handle
    }

    pub fn bytes(&self) -> (r: &Vec<u8>)
        ensures
            r@ == self.bytes_view(),
    {
        &self.bytes
    }
}

/// Turns raw embedded artwork into a thumbnail: decode, fit into the
/// thumbnail box with a Lanczos3 filter, encode as JPEG, and address the
/// encoded bytes by their hash. `None` where decoding or encoding fails.
pub fn make_thumbnail(raw: &[u8]) -> (r: Option<Thumbnail>)
    ensures
        match jpeg_thumbnail_of(raw@, THUMBNAIL_SIDE) {
            Some(b) => r matches Some(t) && t.bytes_view() == b && t.handle_view() == handle_of(b),
            None => r is None,
        },
{
    match jpeg_thumbnail(raw, THUMBNAIL_SIDE) {
        None => None,
        Some(encoded) => Some(Thumbnail::from_encoded(encoded)),
    }
}

/// What a sequence of thumbnails holds, as a map from handle to bytes; a
/// later entry under an existing handle wins.
pub open spec fn map_of(entries: Seq<Thumbnail>) -> Map<Seq<char>, Seq<u8>>
    decreases entries.len(),
{
    if entries.len() == 0 {
        Map::empty()
    } else {
        map_of(entries.drop_last()).insert(
            entries.last().handle_view(),
            entries.last().bytes_view(),
        )
    }
}

/// No two entries share a handle.
pub open spec fn distinct_handles(entries: Seq<Thumbnail>) -> bool {
    forall|i: int, j: int|
        0 <= i < entries.len() && 0 <= j < entries.len() && i != j
            ==> #[trigger] entries[i].handle_view() != #[trigger] entries[j].handle_view()
}

/// Every blob sits under the handle that its bytes hash to.
pub open spec fn content_addressed(m: Map<Seq<char>, Seq<u8>>) -> bool {
    forall|h: Seq<char>| #[trigger] m.contains_key(h) ==> handle_of(m[h]) == h
}

/// The contents after storing `bytes` under `handle`: a handle already present
/// keeps its blob, so a repeated store changes nothing.
pub open spec fn stored(m: Map<Seq<char>, Seq<u8>>, handle: Seq<char>, bytes: Seq<u8>) -> Map<
    Seq<char>,
    Seq<u8>,
> {
    if m.contains_key(handle) {
        m
    } else {
        m.insert(handle, bytes)
    }
}

proof fn lemma_map_of_dom(entries: Seq<Thumbnail>, h: Seq<char>)
    ensures
        map_of(entries).contains_key(h) <==> exists|i: int|
            0 <= i < entries.len() && #[trigger] entries[i].handle_view() == h,
    decreases entries.len(),
{
    if entries.len() > 0 {
        let prefix = entries.drop_last();
        lemma_map_of_dom(prefix, h);
        if map_of(prefix).contains_key(h) {
            let i = choose|i: int| 0 <= i < prefix.len() && #[trigger] prefix[i].handle_view() == h;
            assert(entries[i] == prefix[i]);
        }
        if exists|i: int| 0 <= i < entries.len() && #[trigger] entries[i].handle_view() == h {
            let i = choose|i: int| 0 <= i < entries.len() && #[trigger] entries[i].handle_view() == h;
            if i < entries.len() - 1 {
                assert(prefix[i] == entries[i]);
            }
        }
    }
}

proof fn lemma_map_of_at(entries: Seq<Thumbnail>, i: int)
    requires
        distinct_handles(entries),
        0 <= i < entries.len(),
    ensures
        map_of(entries).contains_key(entries[i].handle_view()),
        map_of(entries)[entries[i].handle_view()] == entries[i].bytes_view(),
    decreases entries.len(),
{
    if i < entries.len() - 1 {
        let prefix = entries.drop_last();
        assert(prefix[i] == entries[i]);
        assert(distinct_handles(prefix)) by {
            assert forall|a: int, b: int|
                0 <= a < prefix.len() && 0 <= b < prefix.len() && a != b
                    implies #[trigger] prefix[a].handle_view() != #[trigger] prefix[b].handle_view() by {
                assert(prefix[a] == entries[a] && prefix[b] == entries[b]);
            }
        }
        lemma_map_of_at(prefix, i);
        assert(entries[i].handle_view() != entries[entries.len() - 1].handle_view());
    }
}

proof fn lemma_map_of_len(entries: Seq<Thumbnail>)
    requires
        distinct_handles(entries),
    ensures
        map_of(entries).dom().finite(),
        map_of(entries).dom().len() == entries.len(),
    decreases entries.len(),
{
    if entries.len() > 0 {
        let prefix = entries.drop_last();
        assert(distinct_handles(prefix)) by {
            assert forall|a: int, b: int|
                0 <= a < prefix.len() && 0 <= b < prefix.len() && a != b
                    implies #[trigger] prefix[a].handle_view() != #[trigger] prefix[b].handle_view() by {
                assert(prefix[a] == entries[a] && prefix[b] == entries[b]);
            }
        }
        lemma_map_of_len(prefix);
        let last = entries.last().handle_view();
        lemma_map_of_dom(prefix, last);
        if map_of(prefix).contains_key(last) {
            let i = choose|i: int| 0 <= i < prefix.len() && #[trigger] prefix[i].handle_view() == last;
            assert(prefix[i] == entries[i]);
        }
    }
}

/// The content-addressed thumbnail store: each blob is kept once, under the
/// handle of its bytes.
pub struct ThumbnailCache {
    entries: Vec<Thumbnail>,
}

impl View for ThumbnailCache {
    type V = Map<Seq<char>, Seq<u8>>;

    closed spec fn view(&self) -> Map<Seq<char>, Seq<u8>> {
        map_of(self.entries@)
    }
}

impl ThumbnailCache {
    /// Handles are distinct and each one is the handle of its blob.
    pub closed spec fn wf(&self) -> bool {
        &&& distinct_handles(self.entries@)
        &&& forall|i: int|
            0 <= i < self.entries@.len() ==> #[trigger] self.entries@[i].handle_view()
                == handle_of(self.entries@[i].bytes_view())
    }

    /// The number of blobs held.
    pub closed spec fn blob_count(&self) -> nat {
        self.entries@.len()
    }

    /// Every cache is content-addressed and holds one blob per handle.
    pub proof fn lemma_shape(&self)
        requires
            self.wf(),
        ensures
            content_addressed(self@),
            self@.dom().finite(),
            self@.dom().len() == self.blob_count(),
    {
        lemma_map_of_len(self.entries@);
        assert forall|h: Seq<char>| #[trigger] self@.contains_key(h) implies handle_of(self@[h]) == h by {
            lemma_map_of_dom(self.entries@, h);
            let i = choose|i: int|
                0 <= i < self.entries@.len() && #[trigger] self.entries@[i].handle_view() == h;
            lemma_map_of_at(self.entries@, i);
        }
    }

    /// An empty cache.
    pub fn new() -> (r: ThumbnailCache)
        ensures
            r.wf(),
            r@ == Map::<Seq<char>, Seq<u8>>::empty(),
            r.blob_count() == 0,
    {
        ThumbnailCache { entries: Vec::new() }
    }

    fn position(&self, handle: &str) -> (r: Option<usize>)
        ensures
            match r {
                Some(i) => i < self.entries@.len() && self.entries@[i as int].handle_view()
                    == handle@,
                None => forall|i: int|
                    0 <= i < self.entries@.len() ==> #[trigger] self.entries@[i].handle_view()
                        != handle@,
            },
    {
        let mut i: usize = 0;
        while i < self.entries.len()
            invariant
                i <= self.entries@.len(),
                forall|k: int| 0 <= k < i ==> #[trigger] self.entries@[k].handle_view() != handle@,
            decreases self.entries@.len() - i,
        {
            if str_eq(self.entries[i].handle().as_str(), handle) {
                return Some(i);
            }
            i = i + 1;
        }
        None
    }

    /// Whether a blob is stored under `handle`.
    pub fn contains(&self, handle: &str) -> (r: bool)
        requires
            self.wf(),
        ensures
            r == self@.contains_key(handle@),
    {
        proof {
            lemma_map_of_dom(self.entries@, handle@);
        }
        self.position(handle).is_some()
    }

    /// Stores a thumbnail unless a blob already sits under its handle.
    /// Returns whether the blob is new, that is whether it must be written.
    pub fn store(&mut self, thumb: Thumbnail) -> (written: bool)
        requires
            old(self).wf(),
        ensures
            final(self).wf(),
            written == !old(self)@.contains_key(thumb.handle_view()),
            final(self)@ == stored(old(self)@, thumb.handle_view(), thumb.bytes_view()),
            final(self).blob_count() == old(self).blob_count() + if written {
                1nat
            } else {
                0nat
            },
    {
        proof {
            use_type_invariant(&thumb);
            lemma_map_of_dom(self.entries@, thumb.handle_view());
        }
        if self.position(thumb.handle().as_str()).is_some() {
            false
        } else {
            let ghost before = self.entries@;
            self.entries.push(thumb);
            proof {
                assert(self.entries@.drop_last() =~= before);
                assert forall|a: int, b: int|
                    0 <= a < self.entries@.len() && 0 <= b < self.entries@.len() && a != b
                        implies #[trigger] self.entries@[a].handle_view()
                        != #[trigger] self.entries@[b].handle_view() by {
                    if a < before.len() && b < before.len() {
                        assert(self.entries@[a] == before[a] && self.entries@[b] == before[b]);
                    } else if a < before.len() {
                        assert(self.entries@[a] == before[a]);
                    } else {
                        assert(self.entries@[b] == before[b]);
                    }
                }
                assert forall|i: int| 0 <= i < self.entries@.len() implies #[trigger] self.entries@[i].handle_view()
                    == handle_of(self.entries@[i].bytes_view()) by {
                    if i < before.len() {
                        assert(self.entries@[i] == before[i]);
                    }
                }
            }
            true
        }
    }

    /// The blob stored under `handle`, or `None` for an unknown handle.
    pub fn fetch(&self, handle: &str) -> (r: Option<Vec<u8>>)
        requires
            self.wf(),
        ensures
            match r {
                Some(b) => self@.contains_key(handle@) && b@ == self@[handle@],
                None => !self@.contains_key(handle@),
            },
    {
        proof {
            lemma_map_of_dom(self.entries@, handle@);
        }
        match self.position(handle) {
            Some(i) => {
                proof {
                    lemma_map_of_at(self.entries@, i as int);
                }
                let b = self.entries[i].bytes().clone();
                assert(b@ == self.entries@[i as int].bytes_view());
                Some(b)
            },
            None => None,
        }
    }

    /// The number of stored blobs.
    pub fn len(&self) -> (r: usize)
        ensures
            r == self.blob_count(),
    {
        self.entries.len()
    }

    /// Removes every blob.
    pub fn clear(&mut self)
        ensures
            final(self).wf(),
            final(self)@ == Map::<Seq<char>, Seq<u8>>::empty(),
            final(self).blob_count() == 0,
    {
        self.entries = Vec::new();
    }
}

/// Storing the same encoded thumbnail twice yields one handle: after the first
/// store a blob sits under it, the second store finds it there and so writes
/// nothing and leaves the cache as it was, and the blob under the handle is
/// the same after either store.
pub proof fn law_store_twice_dedups(cache: &ThumbnailCache, bytes: Seq<u8>)
    requires
        cache.wf(),
    ensures
        ({
            let h = handle_of(bytes);
            let once = stored(cache@, h, bytes);
            let twice = stored(once, h, bytes);
            &&& once.contains_key(h)
            &&& twice == once
            &&& twice[h] == once[h]
            &&& handle_of(once[h]) == h
            &&& content_addressed(once)
        }),
{
    cache.lemma_shape();
}

} // verus!
