//! Bitmaps that record which inodes and which blocks are in use.
//!
//! A bitmap is a list of chunks of a fixed number of bits, and stands for the sequence of all
//! the bits in order.

use bitmaps::Bitmap;
use vstd::prelude::*;

verus! {

/// Bits in a chunk.
pub const BITMAP_CHUNK_BITS: usize = 1024;

/// A chunk of bits: a `bitmaps::Bitmap` of `BITMAP_CHUNK_BITS` bits.
///
/// The bitmap's type is bounded by a trait of its crate, so it is held in here unseen; the
/// methods are what it is known by.
#[verifier::external_body]
pub struct Chunk {
    bits: Bitmap<BITMAP_CHUNK_BITS>,
}

/// The indices of the bits of a chunk that are `true`.
pub uninterp spec fn true_bits(chunk: Chunk) -> Set<usize>;

impl Chunk {
    /// `Bitmap::new` has every bit `false`.
    #[verifier::external_body]
    pub(crate) fn new() -> (chunk: Chunk)
        ensures
            true_bits(chunk) == Set::<usize>::empty(),
    {
        Chunk { bits: Bitmap::new() }
    }

    /// `Bitmap::get` reads a bit. It panics on an index beyond the chunk.
    #[verifier::external_body]
    pub(crate) fn get(&self, index: usize) -> (bit: bool)
        requires
            index < BITMAP_CHUNK_BITS,
        ensures
            bit == true_bits(*self).contains(index),
    {
        self.bits.get(index)
    }

    /// `Bitmap::set` writes a bit, and returns what it was before. It panics on an index
    /// beyond the chunk.
    #[verifier::external_body]
    pub(crate) fn set(&mut self, index: usize, value: bool) -> (before: bool)
        requires
            index < BITMAP_CHUNK_BITS,
        ensures
            before == true_bits(*old(self)).contains(index),
            true_bits(*final(self)) == (if value {
                true_bits(*old(self)).insert(index)
            } else {
                true_bits(*old(self)).remove(index)
            }),
    {
        self.bits.set(index, value)
    }

    /// `Bitmap::first_false_index` finds the first bit that is `false`.
    #[verifier::external_body]
    pub(crate) fn first_false_index(&self) -> (found: Option<usize>)
        ensures
            match found {
                Some(i) => i < BITMAP_CHUNK_BITS && !true_bits(*self).contains(i)
                    && forall|j: usize|
                    j < i ==> #[trigger] true_bits(*self).contains(j),
                None => forall|j: usize|
                    j < BITMAP_CHUNK_BITS ==> #[trigger] true_bits(*self).contains(j),
            },
    {
        self.bits.first_false_index()
    }

    /// `Bitmap::next_index` finds the first bit beyond `index` that is `true`.
    #[verifier::external_body]
    pub(crate) fn next_index(&self, index: usize) -> (found: Option<usize>)
        ensures
            match found {
                Some(i) => index < i < BITMAP_CHUNK_BITS && true_bits(*self).contains(i)
                    && forall|j: usize|
                    index < j < i ==> !#[trigger] true_bits(*self).contains(j),
                None => forall|j: usize|
                    index < j < BITMAP_CHUNK_BITS ==> !#[trigger] true_bits(*self).contains(j),
            },
    {
        self.bits.next_index(index)
    }

    /// `Bitmap::next_false_index` finds the first bit beyond `index` that is `false`.
    #[verifier::external_body]
    pub(crate) fn next_false_index(&self, index: usize) -> (found: Option<usize>)
        ensures
            match found {
                Some(i) => index < i < BITMAP_CHUNK_BITS && !true_bits(*self).contains(i)
                    && forall|j: usize|
                    index < j < i ==> #[trigger] true_bits(*self).contains(j),
                None => forall|j: usize|
                    index < j < BITMAP_CHUNK_BITS ==> #[trigger] true_bits(*self).contains(j),
            },
    {
        self.bits.next_false_index(index)
    }
}

/// The bits of a list of chunks, in order.
pub open spec fn all_bits(chunks: Seq<Chunk>) -> Seq<bool> {
    Seq::new(
        (chunks.len() * BITMAP_CHUNK_BITS) as nat,
        |i: int|
            true_bits(chunks[i / BITMAP_CHUNK_BITS as int]).contains(
                (i % BITMAP_CHUNK_BITS as int) as usize,
            ),
    )
}

/// A bitmap of any whole number of chunks.
pub struct ChunkedBitmap {
    pub chunks: Vec<Chunk>,
}

impl View for ChunkedBitmap {
    type V = Seq<bool>;

    open spec fn view(&self) -> Seq<bool> {
        all_bits(self.chunks@)
    }
}

impl ChunkedBitmap {
    /// A bitmap of `count` chunks, every bit of which is `false`.
    pub fn new(count: usize) -> (bitmap: ChunkedBitmap)
        ensures
            bitmap@ == Seq::new((count * BITMAP_CHUNK_BITS) as nat, |i: int| false),
    {
        let mut chunks: Vec<Chunk> = Vec::new();
        let mut i: usize = 0;
        while i < count
            invariant
                i <= count,
                chunks.len() == i,
                forall|k: int|
                    0 <= k < i ==> true_bits(#[trigger] chunks@[k]) == Set::<usize>::empty(),
            decreases count - i,
        {
            chunks.push(Chunk::new());
            i += 1;
        }
        let bitmap = ChunkedBitmap { chunks };
        assert(bitmap@ =~= Seq::new((count * BITMAP_CHUNK_BITS) as nat, |i: int| false));
        bitmap
    }

    /// The number of chunks.
    pub fn chunk_count(&self) -> (count: usize)
        ensures
            count * BITMAP_CHUNK_BITS == self@.len(),
    {
        self.chunks.len()
    }

    /// Reads a bit: `None` beyond the end of the bitmap.
    pub fn get(&self, index: u64) -> (bit: Option<bool>)
        ensures
            bit == (if index < self@.len() {
                Some(self@[index as int])
            } else {
                None
            }),
    {
        let chunk: u64 = index / BITMAP_CHUNK_BITS as u64;
        if chunk < self.chunks.len() as u64 {
            Some(self.chunks[chunk as usize].get((index % BITMAP_CHUNK_BITS as u64) as usize))
        } else {
            None
        }
    }

    /// Writes a bit.
    pub fn set(&mut self, index: u64, value: bool)
        requires
            index < old(self)@.len(),
        ensures
            final(self)@ == old(self)@.update(index as int, value),
    {
        let count: usize = self.chunks.len();
        assert(index / 1024 < count);
        let chunk: usize = (index / BITMAP_CHUNK_BITS as u64) as usize;
        let bit: usize = (index % BITMAP_CHUNK_BITS as u64) as usize;
        self.chunks[chunk].set(bit, value);
        assert(self@ =~= old(self)@.update(index as int, value));
    }

    /// The bits, one by one.
    pub fn to_bools(&self) -> (bools: Vec<bool>)
        ensures
            bools@ == self@,
    {
        let mut bools: Vec<bool> = Vec::new();
        let mut c: usize = 0;
        while c < self.chunks.len()
            invariant
                c <= self.chunks.len(),
                bools@ == self@.take(c * BITMAP_CHUNK_BITS),
            decreases self.chunks.len() - c,
        {
            let mut i: usize = 0;
            while i < BITMAP_CHUNK_BITS
                invariant
                    c < self.chunks.len(),
                    i <= BITMAP_CHUNK_BITS,
                    bools@ == self@.take(c * BITMAP_CHUNK_BITS + i),
                decreases BITMAP_CHUNK_BITS - i,
            {
                let ghost at = c * BITMAP_CHUNK_BITS + i;
                assert(at / 1024 == c && at % 1024 == i);
                bools.push(self.chunks[c].get(i));
                assert(bools@ =~= self@.take(at + 1));
                i += 1;
            }
            assert(c * 1024 + 1024 == (c + 1) * 1024);
            c += 1;
        }
        assert(self@.take(c * BITMAP_CHUNK_BITS) =~= self@);
        bools
    }

    /// A bitmap of `count` chunks with the given bits; those that are not given are `false`.
    pub fn from_bools(bools: &Vec<bool>, count: usize) -> (bitmap: ChunkedBitmap)
        requires
            bits_within(bools@, count * BITMAP_CHUNK_BITS),
        ensures
            bitmap@ == padded(bools@, count * BITMAP_CHUNK_BITS),
    {
        let mut bitmap = ChunkedBitmap::new(count);
        let ghost len = count * BITMAP_CHUNK_BITS;
        let mut i: usize = 0;
        assert(bitmap@ =~= padded(bools@.take(0), len));
        while i < bools.len()
            invariant
                i <= bools.len(),
                len == count * BITMAP_CHUNK_BITS,
                bits_within(bools@, len),
                bitmap@ == padded(bools@.take(i as int), len),
            decreases bools.len() - i,
        {
            if bools[i] {
                bitmap.set(i as u64, true);
            }
            assert(bitmap@ =~= padded(bools@.take(i + 1), len));
            i += 1;
        }
        assert(bools@.take(i as int) =~= bools@);
        bitmap
    }
}

/// None of the bits from `len` on is `true`.
pub open spec fn bits_within(bits: Seq<bool>, len: int) -> bool {
    forall|i: int| len <= i < bits.len() ==> !#[trigger] bits[i]
}

/// The bits up to `len`, with `false` for those that are not there.
pub open spec fn padded(bits: Seq<bool>, len: int) -> Seq<bool> {
    Seq::new(len as nat, |i: int| i < bits.len() && bits[i])
}

/// A new bitmap has 1024 bits for each chunk, and none of them is set.
pub proof fn lemma_new_bitmap(count: usize, bitmap: ChunkedBitmap)
    requires
        call_ensures(ChunkedBitmap::new, (count,), bitmap),
    ensures
        bitmap@.len() == count * 1024,
        forall|i: int| 0 <= i < bitmap@.len() ==> !#[trigger] bitmap@[i],
        bitmap.chunks@.len() == count,
{
    assert(bitmap@.len() == bitmap.chunks@.len() * 1024);
}

/// A bit that was written is read back, and the others stay as they were.
pub proof fn lemma_bit_written(
    old_bits: ChunkedBitmap,
    new_bits: ChunkedBitmap,
    index: u64,
    value: bool,
    other: u64,
    before: Option<bool>,
    after: Option<bool>,
)
    requires
        index < old_bits@.len(),
        exists|bitmap: &mut ChunkedBitmap| #[trigger]
            call_ensures(ChunkedBitmap::set, (bitmap, index, value), ()) && *bitmap == old_bits
                && *final(bitmap) == new_bits,
        call_ensures(ChunkedBitmap::get, (&old_bits, other), before),
        call_ensures(ChunkedBitmap::get, (&new_bits, other), after),
    ensures
        other == index ==> after == Some(value),
        other != index ==> after == before,
{
}

/// The bits that are given out one by one are all those that can be read, in order.
pub proof fn lemma_bits_given(
    bitmap: ChunkedBitmap,
    bools: Vec<bool>,
    index: u64,
    bit: Option<bool>,
)
    requires
        call_ensures(ChunkedBitmap::to_bools, (&bitmap,), bools),
        call_ensures(ChunkedBitmap::get, (&bitmap, index), bit),
    ensures
        bools@.len() == bitmap.chunks@.len() * 1024,
        index < bools@.len() ==> bit == Some(bools@[index as int]),
        index >= bools@.len() ==> bit is None,
{
}

/// A bitmap that is made of bits has those that are set, and no others.
pub proof fn lemma_bits_taken(bools: &Vec<bool>, count: usize, bitmap: ChunkedBitmap)
    requires
        call_ensures(ChunkedBitmap::from_bools, (bools, count), bitmap),
    ensures
        bitmap@.len() == count * 1024,
        forall|i: int|
            0 <= i < bitmap@.len() && i < bools@.len() ==> #[trigger] bitmap@[i] == bools@[i],
        forall|i: int| bools@.len() <= i < bitmap@.len() ==> !#[trigger] bitmap@[i],
{
}

} // verus!
