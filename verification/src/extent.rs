//! Extents: the runs of blocks that hold a file, and the slices of the backing store that a
//! read or a write of the file touches.
//!
//! The backing store is a flat array of bytes. Block `b` of it is the bytes from
//! `b * block_size` on. A file is the concatenation of its extents.

use vstd::prelude::*;

verus! {

/// A run of blocks. The first value is the start location; the second value is the extent
/// length, in blocks.
pub type Extent = (u64, u64);

/// A range of bytes of the backing store, to be read.
#[derive(Clone, Copy, Debug, PartialEq, Eq)]
pub struct ReadSlice {
    pub start: u64,
    pub len: u64,
}

/// Bytes to be written to the backing store, from `start` on.
#[derive(Debug, PartialEq, Eq)]
pub struct WriteSlice {
    pub start: u64,
    pub data: Vec<u8>,
}

/// The block `b` belongs to the extent.
pub open spec fn in_extent(ex: Extent, b: int) -> bool {
    ex.0 <= b < ex.0 + ex.1
}

/// The block `b` belongs to one of the extents.
pub open spec fn in_extents(extents: Seq<Extent>, b: int) -> bool {
    exists|k: int| 0 <= k < extents.len() && in_extent(#[trigger] extents[k], b)
}

/// The number of blocks in all the extents.
pub open spec fn block_total(extents: Seq<Extent>) -> int
    decreases extents.len(),
{
    if extents.len() == 0 {
        0
    } else {
        block_total(extents.drop_last()) + extents.last().1
    }
}

/// Every byte of the extents has a position that fits in 64 bits.
pub open spec fn extents_fit(extents: Seq<Extent>, block_size: int) -> bool {
    forall|k: int|
        0 <= k < extents.len() ==> ((#[trigger] extents[k]).0 + extents[k].1) * block_size
            <= u64::MAX
}

/// No block belongs to two of the extents.
pub open spec fn extents_disjoint(extents: Seq<Extent>) -> bool {
    forall|k: int, l: int, b: int|
        0 <= k < l < extents.len() ==> !(#[trigger] in_extent(extents[k], b)
            && #[trigger] in_extent(extents[l], b))
}

/// No block belongs to both lists of extents.
pub open spec fn no_shared_block(left: Seq<Extent>, right: Seq<Extent>) -> bool {
    forall|b: int| !(#[trigger] in_extents(left, b) && #[trigger] in_extents(right, b))
}

/// `len` consecutive positions.
pub open spec fn positions(start: int, len: int) -> Seq<int> {
    Seq::new(len as nat, |i: int| start + i)
}

/// The positions in the store of the bytes of an extent, in order.
pub open spec fn extent_bytes(ex: Extent, block_size: int) -> Seq<int> {
    positions(ex.0 * block_size, ex.1 * block_size)
}

/// The positions in the store of the bytes of a file, in order: its extents, one after
/// another.
pub open spec fn file_bytes(extents: Seq<Extent>, block_size: int) -> Seq<int>
    decreases extents.len(),
{
    if extents.len() == 0 {
        Seq::empty()
    } else {
        file_bytes(extents.drop_last(), block_size) + extent_bytes(extents.last(), block_size)
    }
}

/// The number of bytes that fit in the extents of a file.
pub open spec fn capacity(extents: Seq<Extent>, block_size: int) -> int {
    block_total(extents) * block_size
}

/// The positions that a list of reads touches, in order.
pub open spec fn read_positions(slices: Seq<ReadSlice>) -> Seq<int>
    decreases slices.len(),
{
    if slices.len() == 0 {
        Seq::empty()
    } else {
        read_positions(slices.drop_last()) + positions(
            slices.last().start as int,
            slices.last().len as int,
        )
    }
}

/// The positions that a list of writes touches, in order.
pub open spec fn write_positions(slices: Seq<WriteSlice>) -> Seq<int>
    decreases slices.len(),
{
    if slices.len() == 0 {
        Seq::empty()
    } else {
        write_positions(slices.drop_last()) + positions(
            slices.last().start as int,
            slices.last().data@.len() as int,
        )
    }
}

/// The bytes of a list of writes, in order.
pub open spec fn write_payload(slices: Seq<WriteSlice>) -> Seq<u8>
    decreases slices.len(),
{
    if slices.len() == 0 {
        Seq::empty()
    } else {
        write_payload(slices.drop_last()) + slices.last().data@
    }
}

/// `base` with `data` written over it from `start` on.
pub open spec fn overwrite(base: Seq<u8>, start: int, data: Seq<u8>) -> Seq<u8> {
    Seq::new(
        base.len(),
        |i: int|
            if start <= i < start + data.len() {
                data[i - start]
            } else {
                base[i]
            },
    )
}

/// The store after a list of writes, in order.
pub open spec fn apply_writes(store: Seq<u8>, slices: Seq<WriteSlice>) -> Seq<u8>
    decreases slices.len(),
{
    if slices.len() == 0 {
        store
    } else {
        overwrite(
            apply_writes(store, slices.drop_last()),
            slices.last().start as int,
            slices.last().data@,
        )
    }
}

/// The bytes of the store at the given positions.
pub open spec fn bytes_at(store: Seq<u8>, at: Seq<int>) -> Seq<u8> {
    Seq::new(at.len(), |i: int| store[at[i]])
}

/// What a list of reads brings from the store.
pub open spec fn read_back(store: Seq<u8>, slices: Seq<ReadSlice>) -> Seq<u8> {
    bytes_at(store, read_positions(slices))
}

/// All the bytes that a file's extents hold in the store.
pub open spec fn file_image(store: Seq<u8>, extents: Seq<Extent>, block_size: int) -> Seq<u8> {
    bytes_at(store, file_bytes(extents, block_size))
}

/// No position is given two different bytes.
pub open spec fn bytes_agree(at: Seq<int>, bytes: Seq<u8>) -> bool {
    forall|i: int, j: int|
        #![trigger at[i], at[j]]
        0 <= i < at.len() && 0 <= j < at.len() && at[i] == at[j] ==> bytes[i] == bytes[j]
}

/// The store is long enough for every byte of the extents.
pub open spec fn store_holds(store: Seq<u8>, extents: Seq<Extent>, block_size: int) -> bool {
    forall|i: int|
        0 <= i < file_bytes(extents, block_size).len() ==> 0 <= #[trigger] file_bytes(
            extents,
            block_size,
        )[i] < store.len()
}

/// The lesser of two numbers.
pub open spec fn spec_min(a: int, b: int) -> int {
    if a <= b {
        a
    } else {
        b
    }
}

/// The bytes of an extent end where the block behind it starts.
pub proof fn lemma_extent_end(ex: Extent, block_size: int)
    requires
        block_size >= 0,
    ensures
        ex.0 * block_size + ex.1 * block_size == (ex.0 + ex.1) * block_size,
        ex.0 * block_size >= 0,
        ex.1 * block_size >= 0,
        extent_bytes(ex, block_size).len() == ex.1 * block_size,
{
    vstd::arithmetic::mul::lemma_mul_is_distributive_add_other_way(
        block_size,
        ex.0 as int,
        ex.1 as int,
    );
    vstd::arithmetic::mul::lemma_mul_nonnegative(ex.0 as int, block_size);
    vstd::arithmetic::mul::lemma_mul_nonnegative(ex.1 as int, block_size);
}

/// A file has as many bytes as its extents have room for.
pub proof fn lemma_file_bytes_len(extents: Seq<Extent>, block_size: int)
    requires
        block_size >= 0,
    ensures
        file_bytes(extents, block_size).len() == capacity(extents, block_size),
    decreases extents.len(),
{
    if extents.len() > 0 {
        lemma_file_bytes_len(extents.drop_last(), block_size);
        lemma_extent_end(extents.last(), block_size);
        vstd::arithmetic::mul::lemma_mul_is_distributive_add_other_way(
            block_size,
            block_total(extents.drop_last()),
            extents.last().1 as int,
        );
    }
}

/// A file whose list of extents is extended keeps its bytes, and the new ones follow.
pub proof fn lemma_file_bytes_concat(left: Seq<Extent>, right: Seq<Extent>, block_size: int)
    ensures
        file_bytes(left + right, block_size) == file_bytes(left, block_size) + file_bytes(
            right,
            block_size,
        ),
        block_total(left + right) == block_total(left) + block_total(right),
    decreases right.len(),
{
    if right.len() == 0 {
        assert(left + right =~= left);
        assert(file_bytes(left, block_size) + file_bytes(right, block_size) =~= file_bytes(
            left,
            block_size,
        ));
    } else {
        lemma_file_bytes_concat(left, right.drop_last(), block_size);
        assert((left + right).drop_last() =~= left + right.drop_last());
        assert((left + right).last() == right.last());
        assert(file_bytes(left + right, block_size) =~= file_bytes(left, block_size) + file_bytes(
            right,
            block_size,
        ));
    }
}

/// Every byte of a file lies in a block of one of its extents.
pub proof fn lemma_file_byte_in_extent(extents: Seq<Extent>, block_size: int, i: int) -> (k: int)
    requires
        block_size >= 0,
        0 <= i < file_bytes(extents, block_size).len(),
    ensures
        0 <= k < extents.len(),
        extents[k].0 * block_size <= file_bytes(extents, block_size)[i],
        file_bytes(extents, block_size)[i] < (extents[k].0 + extents[k].1) * block_size,
    decreases extents.len(),
{
    let front = file_bytes(extents.drop_last(), block_size);
    if i < front.len() {
        lemma_file_byte_in_extent(extents.drop_last(), block_size, i)
    } else {
        lemma_extent_end(extents.last(), block_size);
        assert(file_bytes(extents, block_size)[i] == extent_bytes(extents.last(), block_size)[i
            - front.len()]);
        extents.len() - 1
    }
}

/// A byte between the ends of an extent lies in a block of it.
pub proof fn lemma_block_of_byte(ex: Extent, block_size: int, p: int)
    requires
        block_size > 0,
        ex.0 * block_size <= p < (ex.0 + ex.1) * block_size,
    ensures
        in_extent(ex, p / block_size),
{
    assert(ex.0 <= p / block_size) by (nonlinear_arith)
        requires
            block_size > 0,
            ex.0 * block_size <= p,
    ;
    assert(p / block_size < ex.0 + ex.1) by (nonlinear_arith)
        requires
            block_size > 0,
            p < (ex.0 + ex.1) * block_size,
    ;
}

/// A file whose extents do not overlap has no byte of the store twice.
pub proof fn lemma_file_bytes_distinct(extents: Seq<Extent>, block_size: int)
    requires
        block_size > 0,
        extents_disjoint(extents),
    ensures
        file_bytes(extents, block_size).no_duplicates(),
    decreases extents.len(),
{
    if extents.len() > 0 {
        let bytes = file_bytes(extents, block_size);
        let front = file_bytes(extents.drop_last(), block_size);
        let ex = extents.last();
        assert(extents_disjoint(extents.drop_last())) by {
            assert forall|k: int, l: int, b: int| 0 <= k < l < extents.drop_last().len() implies !(
            #[trigger] in_extent(extents.drop_last()[k], b) && #[trigger] in_extent(
                extents.drop_last()[l],
                b,
            )) by {
                assert(extents[k] == extents.drop_last()[k]);
                assert(extents[l] == extents.drop_last()[l]);
            }
        }
        lemma_file_bytes_distinct(extents.drop_last(), block_size);
        lemma_extent_end(ex, block_size);
        assert forall|i: int, j: int| 0 <= i < j < bytes.len() implies bytes[i] != bytes[j] by {
            if j < front.len() {
                assert(bytes[i] == front[i] && bytes[j] == front[j]);
            } else {
                assert(bytes[j] == extent_bytes(ex, block_size)[j - front.len()]);
                if i < front.len() {
                    assert(bytes[i] == front[i]);
                    let k = lemma_file_byte_in_extent(extents.drop_last(), block_size, i);
                    assert(extents.drop_last()[k] == extents[k]);
                    assert(extents[extents.len() - 1] == ex);
                    if bytes[i] == bytes[j] {
                        lemma_block_of_byte(extents[k], block_size, bytes[i]);
                        lemma_block_of_byte(ex, block_size, bytes[i]);
                    }
                } else {
                    assert(bytes[i] == extent_bytes(ex, block_size)[i - front.len()]);
                }
            }
        }
    }
}

/// Every position that is written to has its byte.
pub proof fn lemma_write_lengths(slices: Seq<WriteSlice>)
    ensures
        write_positions(slices).len() == write_payload(slices).len(),
    decreases slices.len(),
{
    if slices.len() > 0 {
        lemma_write_lengths(slices.drop_last());
    }
}

/// Where the writes put no two different bytes at one position, the store afterwards holds
/// every byte of them where it was written, and every other byte unchanged.
pub proof fn lemma_apply_writes(store: Seq<u8>, slices: Seq<WriteSlice>)
    requires
        bytes_agree(write_positions(slices), write_payload(slices)),
    ensures
        apply_writes(store, slices).len() == store.len(),
        write_positions(slices).len() == write_payload(slices).len(),
        forall|i: int|
            #![trigger write_positions(slices)[i]]
            0 <= i < write_positions(slices).len() && 0 <= write_positions(slices)[i]
                < store.len() ==> apply_writes(store, slices)[write_positions(slices)[i]]
                == write_payload(slices)[i],
        forall|p: int|
            0 <= p < store.len() && !write_positions(slices).contains(p)
                ==> #[trigger] apply_writes(store, slices)[p] == store[p],
    decreases slices.len(),
{
    if slices.len() > 0 {
        let before = slices.drop_last();
        let last = slices.last();
        let at = write_positions(slices);
        let front = write_positions(before);
        let tail = positions(last.start as int, last.data@.len() as int);
        let n = front.len() as int;
        lemma_write_lengths(before);
        assert forall|i: int, j: int|
            #![trigger front[i], front[j]]
            0 <= i < front.len() && 0 <= j < front.len() && front[i]
                == front[j] implies write_payload(before)[i] == write_payload(before)[j] by {
            assert(at[i] == front[i] && at[j] == front[j]);
            assert(write_payload(slices)[i] == write_payload(before)[i]);
            assert(write_payload(slices)[j] == write_payload(before)[j]);
        }
        lemma_apply_writes(store, before);
        let mid = apply_writes(store, before);
        let after = apply_writes(store, slices);
        assert forall|i: int| #![trigger at[i]] 0 <= i < at.len() && 0 <= at[i]
            < store.len() implies after[at[i]] == write_payload(slices)[i] by {
            if i < n {
                assert(at[i] == front[i]);
                assert(mid[front[i]] == write_payload(before)[i]);
                if last.start <= at[i] < last.start + last.data@.len() {
                    let j = n + (at[i] - last.start);
                    assert(at[j] == tail[at[i] - last.start]);
                    assert(at[j] == at[i]);
                }
            } else {
                assert(at[i] == tail[i - n]);
            }
        }
        assert forall|p: int| 0 <= p < store.len() && !at.contains(p) implies #[trigger] after[p]
            == store[p] by {
            if last.start <= p < last.start + last.data@.len() {
                assert(at[n + (p - last.start)] == tail[p - last.start]);
                assert(at.contains(p));
            }
            if front.contains(p) {
                let i = choose|i: int| 0 <= i < front.len() && front[i] == p;
                assert(at[i] == p);
            }
            assert(mid[p] == store[p]);
        }
    }
}

/// A list of writes that covers the bytes of a file from `start` on, in order, changes just
/// those bytes of the file.
pub proof fn lemma_write_changes_file(
    store: Seq<u8>,
    extents: Seq<Extent>,
    block_size: int,
    slices: Seq<WriteSlice>,
    start: int,
)
    requires
        block_size > 0,
        extents_disjoint(extents),
        store_holds(store, extents, block_size),
        0 <= start,
        start + write_payload(slices).len() <= file_bytes(extents, block_size).len(),
        write_positions(slices) == file_bytes(extents, block_size).subrange(
            start,
            start + write_payload(slices).len(),
        ),
    ensures
        apply_writes(store, slices).len() == store.len(),
        file_image(apply_writes(store, slices), extents, block_size) == overwrite(
            file_image(store, extents, block_size),
            start,
            write_payload(slices),
        ),
{
    let bytes = file_bytes(extents, block_size);
    let at = write_positions(slices);
    let n = write_payload(slices).len() as int;
    lemma_file_bytes_distinct(extents, block_size);
    assert(at.no_duplicates()) by {
        assert forall|i: int, j: int| 0 <= i < at.len() && 0 <= j < at.len() && i
            != j implies at[i] != at[j] by {
            assert(at[i] == bytes[start + i] && at[j] == bytes[start + j]);
        }
    }
    lemma_apply_writes(store, slices);
    let after = apply_writes(store, slices);
    assert forall|i: int| 0 <= i < bytes.len() implies #[trigger] file_image(
        after,
        extents,
        block_size,
    )[i] == overwrite(file_image(store, extents, block_size), start, write_payload(slices))[i] by {
        if start <= i < start + n {
            assert(at[i - start] == bytes[i]);
        } else {
            if at.contains(bytes[i]) {
                let j = choose|j: int| 0 <= j < at.len() && at[j] == bytes[i];
                assert(bytes[start + j] == bytes[i]);
            }
        }
    }
    assert(file_image(after, extents, block_size) =~= overwrite(
        file_image(store, extents, block_size),
        start,
        write_payload(slices),
    ));
}

/// A list of writes to bytes of one file leaves a file that shares no block with it as it
/// was.
pub proof fn lemma_write_keeps_other_file(
    store: Seq<u8>,
    extents: Seq<Extent>,
    other: Seq<Extent>,
    block_size: int,
    slices: Seq<WriteSlice>,
    start: int,
)
    requires
        block_size > 0,
        extents_disjoint(extents),
        no_shared_block(extents, other),
        store_holds(store, other, block_size),
        0 <= start,
        start + write_payload(slices).len() <= file_bytes(extents, block_size).len(),
        write_positions(slices) == file_bytes(extents, block_size).subrange(
            start,
            start + write_payload(slices).len(),
        ),
    ensures
        file_image(apply_writes(store, slices), other, block_size) == file_image(
            store,
            other,
            block_size,
        ),
{
    let bytes = file_bytes(extents, block_size);
    let at = write_positions(slices);
    lemma_file_bytes_distinct(extents, block_size);
    assert(at.no_duplicates()) by {
        assert forall|i: int, j: int| 0 <= i < at.len() && 0 <= j < at.len() && i
            != j implies at[i] != at[j] by {
            assert(at[i] == bytes[start + i] && at[j] == bytes[start + j]);
        }
    }
    lemma_apply_writes(store, slices);
    let others = file_bytes(other, block_size);
    assert forall|i: int| 0 <= i < others.len() implies #[trigger] apply_writes(
        store,
        slices,
    )[others[i]] == store[others[i]] by {
        let p = others[i];
        let k = lemma_file_byte_in_extent(other, block_size, i);
        if at.contains(p) {
            let j = choose|j: int| 0 <= j < at.len() && at[j] == p;
            assert(bytes[start + j] == p);
            let l = lemma_file_byte_in_extent(extents, block_size, start + j);
            let b = p / block_size;
            lemma_block_of_byte(extents[l], block_size, p);
            lemma_block_of_byte(other[k], block_size, p);
            assert(in_extents(extents, b));
            assert(in_extents(other, b));
        }
    }
    assert(file_image(apply_writes(store, slices), other, block_size) =~= file_image(
        store,
        other,
        block_size,
    ));
}

proof fn lemma_read_push(slices: Seq<ReadSlice>, slice: ReadSlice)
    ensures
        read_positions(slices.push(slice)) == read_positions(slices) + positions(
            slice.start as int,
            slice.len as int,
        ),
{
    assert(slices.push(slice).drop_last() =~= slices);
}

proof fn lemma_write_push(slices: Seq<WriteSlice>, slice: WriteSlice)
    ensures
        write_positions(slices.push(slice)) == write_positions(slices) + positions(
            slice.start as int,
            slice.data@.len() as int,
        ),
        write_payload(slices.push(slice)) == write_payload(slices) + slice.data@,
{
    assert(slices.push(slice).drop_last() =~= slices);
}

proof fn lemma_file_bytes_take(extents: Seq<Extent>, block_size: int, i: int)
    requires
        0 <= i < extents.len(),
    ensures
        file_bytes(extents.take(i + 1), block_size) == file_bytes(extents.take(i), block_size)
            + extent_bytes(extents[i], block_size),
{
    assert(extents.take(i + 1).drop_last() =~= extents.take(i));
}

/// The bytes of the first extents of a file are the first bytes of the file.
proof fn lemma_file_bytes_prefix(extents: Seq<Extent>, block_size: int, i: int)
    requires
        0 <= i <= extents.len(),
    ensures
        file_bytes(extents.take(i), block_size).len() <= file_bytes(extents, block_size).len(),
        file_bytes(extents.take(i), block_size) == file_bytes(extents, block_size).take(
            file_bytes(extents.take(i), block_size).len() as int,
        ),
{
    lemma_file_bytes_concat(extents.take(i), extents.skip(i), block_size);
    assert(extents.take(i) + extents.skip(i) =~= extents);
    assert(file_bytes(extents.take(i), block_size) =~= file_bytes(extents, block_size).take(
        file_bytes(extents.take(i), block_size).len() as int,
    ));
}

/// The part of the store that an extent takes up.
pub fn extent_slice(ex: &Extent, block_size: u32) -> (slice: ReadSlice)
    requires
        (ex.0 + ex.1) * block_size <= u64::MAX,
    ensures
        slice.start == ex.0 * block_size,
        slice.len == ex.1 * block_size,
        positions(slice.start as int, slice.len as int) == extent_bytes(*ex, block_size as int),
{
    proof {
        lemma_extent_end(*ex, block_size as int);
    }
    ReadSlice { start: ex.0 * block_size as u64, len: ex.1 * block_size as u64 }
}

/// The slices of the store that hold a whole file: one for each extent.
pub fn all_slices(extents: &Vec<Extent>, block_size: u32) -> (slices: Vec<ReadSlice>)
    requires
        extents_fit(extents@, block_size as int),
    ensures
        read_positions(slices@) == file_bytes(extents@, block_size as int),
        slices@.len() == extents@.len(),
{
    let ghost bs = block_size as int;
    let mut slices: Vec<ReadSlice> = Vec::new();
    let mut i: usize = 0;
    assert(file_bytes(extents@.take(0), bs) =~= Seq::<int>::empty());
    while i < extents.len()
        invariant
            bs == block_size,
            extents_fit(extents@, bs),
            i <= extents.len(),
            slices@.len() == i,
            read_positions(slices@) == file_bytes(extents@.take(i as int), bs),
        decreases extents.len() - i,
    {
        let slice = extent_slice(&extents[i], block_size);
        proof {
            lemma_file_bytes_take(extents@, bs, i as int);
            lemma_read_push(slices@, slice);
        }
        slices.push(slice);
        i += 1;
    }
    assert(extents@.take(i as int) =~= extents@);
    slices
}

/// The slices of the store that hold the bytes of a file from `offset` on: `size` of them, or
/// as many as the extents have.
pub fn plan_read(extents: &Vec<Extent>, block_size: u32, offset: u64, size: u64) -> (slices: Vec<
    ReadSlice,
>)
    requires
        extents_fit(extents@, block_size as int),
    ensures
        read_positions(slices@) == file_bytes(extents@, block_size as int).subrange(
            spec_min(offset as int, capacity(extents@, block_size as int)),
            spec_min(offset + size, capacity(extents@, block_size as int)),
        ),
{
    let ghost bs = block_size as int;
    let mut slices: Vec<ReadSlice> = Vec::new();
    let mut skip: u64 = offset;
    let mut want: u64 = size;
    let mut i: usize = 0;
    let ghost mut done: int = 0;
    assert(file_bytes(extents@.take(0), bs) =~= Seq::<int>::empty());
    while i < extents.len() && want > 0
        invariant
            bs == block_size,
            extents_fit(extents@, bs),
            i <= extents.len(),
            done == file_bytes(extents@.take(i as int), bs).len(),
            skip == (if offset >= done {
                offset - done
            } else {
                0
            }),
            want == offset + size - (if offset + size <= done {
                offset + size
            } else if offset >= done {
                offset as int
            } else {
                done
            }),
            read_positions(slices@) == file_bytes(extents@.take(i as int), bs).subrange(
                spec_min(offset as int, done),
                spec_min(offset + size, done),
            ),
        decreases extents.len() - i,
    {
        let whole = extent_slice(&extents[i], block_size);
        let ghost front = file_bytes(extents@.take(i as int), bs);
        proof {
            lemma_extent_end(extents[i as int], bs);
            lemma_file_bytes_take(extents@, bs, i as int);
        }
        let ghost next = file_bytes(extents@.take(i + 1), bs);
        let ghost from = spec_min(offset as int, done);
        if whole.len <= skip {
            skip = skip - whole.len;
            proof {
                if whole.len == 0 {
                    assert(next =~= front);
                } else {
                    assert(next.subrange(
                        spec_min(offset as int, done + whole.len),
                        spec_min(offset + size, done + whole.len),
                    ) =~= Seq::<int>::empty());
                    assert(front.subrange(from, from) =~= Seq::<int>::empty());
                }
            }
        } else {
            let left: u64 = whole.len - skip;
            let len: u64 = if left >= want {
                want
            } else {
                left
            };
            let slice = ReadSlice { start: whole.start + skip, len };
            proof {
                lemma_read_push(slices@, slice);
                assert(read_positions(slices@) + positions(slice.start as int, len as int)
                    =~= next.subrange(
                    spec_min(offset as int, done + whole.len),
                    spec_min(offset + size, done + whole.len),
                ));
            }
            slices.push(slice);
            skip = 0;
            want = want - len;
        }
        proof {
            done = done + whole.len;
        }
        i += 1;
    }
    proof {
        lemma_file_bytes_len(extents@, bs);
        lemma_file_bytes_prefix(extents@, bs, i as int);
        let all = file_bytes(extents@, bs);
        let front = file_bytes(extents@.take(i as int), bs);
        if i == extents.len() {
            assert(extents@.take(i as int) =~= extents@);
        } else {
            assert(front.subrange(spec_min(offset as int, done), spec_min(offset + size, done))
                =~= all.subrange(
                spec_min(offset as int, all.len() as int),
                spec_min(offset + size, all.len() as int),
            ));
        }
    }
    slices
}

/// How many bytes of a write of `len` bytes at `offset` go into a file that has room for
/// `room` bytes.
pub open spec fn placed_bytes(room: int, offset: int, len: int) -> int {
    if offset >= room {
        0
    } else {
        spec_min(len, room - offset)
    }
}

/// The writes that put `data` into a file from `offset` on, as far as the extents have room,
/// and how many bytes of it they put there.
pub fn plan_write(extents: &Vec<Extent>, block_size: u32, offset: u64, data: &[u8]) -> (r: (
    Vec<WriteSlice>,
    usize,
))
    requires
        extents_fit(extents@, block_size as int),
    ensures
        r.1 == placed_bytes(
            capacity(extents@, block_size as int),
            offset as int,
            data@.len() as int,
        ),
        write_payload(r.0@) == data@.take(r.1 as int),
        write_positions(r.0@) == file_bytes(extents@, block_size as int).subrange(
            spec_min(offset as int, capacity(extents@, block_size as int)),
            spec_min(offset as int, capacity(extents@, block_size as int)) + r.1,
        ),
{
    let ghost bs = block_size as int;
    let mut slices: Vec<WriteSlice> = Vec::new();
    let mut skip: u64 = offset;
    let mut placed: usize = 0;
    let mut i: usize = 0;
    let ghost mut done: int = 0;
    assert(file_bytes(extents@.take(0), bs) =~= Seq::<int>::empty());
    assert(data@.take(0) =~= Seq::<u8>::empty());
    while i < extents.len() && placed < data.len()
        invariant
            bs == block_size,
            extents_fit(extents@, bs),
            i <= extents.len(),
            done == file_bytes(extents@.take(i as int), bs).len(),
            skip == (if offset >= done {
                offset - done
            } else {
                0
            }),
            placed == placed_bytes(done, offset as int, data@.len() as int),
            placed <= data@.len(),
            write_payload(slices@) == data@.take(placed as int),
            write_positions(slices@) == file_bytes(extents@.take(i as int), bs).subrange(
                spec_min(offset as int, done),
                spec_min(offset as int, done) + placed,
            ),
        decreases extents.len() - i,
    {
        let whole = extent_slice(&extents[i], block_size);
        let ghost front = file_bytes(extents@.take(i as int), bs);
        proof {
            lemma_extent_end(extents[i as int], bs);
            lemma_file_bytes_take(extents@, bs, i as int);
        }
        let ghost next = file_bytes(extents@.take(i + 1), bs);
        let ghost from = spec_min(offset as int, done);
        if whole.len <= skip {
            skip = skip - whole.len;
            proof {
                if whole.len == 0 {
                    assert(next =~= front);
                } else {
                    let to = spec_min(offset as int, done + whole.len);
                    assert(next.subrange(to, to) =~= Seq::<int>::empty());
                    assert(front.subrange(from, from) =~= Seq::<int>::empty());
                }
            }
        } else {
            let left: u64 = whole.len - skip;
            let rest: usize = data.len() - placed;
            let len: usize = if left >= rest as u64 {
                rest
            } else {
                left as usize
            };
            let piece = vstd::slice::slice_subrange(data, placed, placed + len);
            let slice = WriteSlice {
                start: whole.start + skip,
                data: vstd::slice::slice_to_vec(piece),
            };
            proof {
                lemma_write_push(slices@, slice);
                assert(data@.take(placed as int) + slice.data@ =~= data@.take(placed + len));
                let to = spec_min(offset as int, done + whole.len);
                assert(write_positions(slices@) + positions(slice.start as int, len as int)
                    =~= next.subrange(to, to + placed + len));
            }
            slices.push(slice);
            skip = 0;
            placed = placed + len;
        }
        proof {
            done = done + whole.len;
        }
        i += 1;
    }
    proof {
        lemma_file_bytes_len(extents@, bs);
        lemma_file_bytes_prefix(extents@, bs, i as int);
        let all = file_bytes(extents@, bs);
        let front = file_bytes(extents@.take(i as int), bs);
        if i == extents.len() {
            assert(extents@.take(i as int) =~= extents@);
        } else {
            let from = spec_min(offset as int, done);
            let to = spec_min(offset as int, all.len() as int);
            assert(front.subrange(from, from + placed) =~= all.subrange(to, to + placed));
        }
    }
    (slices, placed)
}

/// Two lists of writes, one after the other.
pub proof fn lemma_writes_concat(store: Seq<u8>, left: Seq<WriteSlice>, right: Seq<WriteSlice>)
    ensures
        write_positions(left + right) == write_positions(left) + write_positions(right),
        write_payload(left + right) == write_payload(left) + write_payload(right),
        apply_writes(store, left + right) == apply_writes(apply_writes(store, left), right),
    decreases right.len(),
{
    if right.len() == 0 {
        assert(left + right =~= left);
        assert(write_positions(left) + write_positions(right) =~= write_positions(left));
        assert(write_payload(left) + write_payload(right) =~= write_payload(left));
    } else {
        lemma_writes_concat(store, left, right.drop_last());
        assert((left + right).drop_last() =~= left + right.drop_last());
        assert((left + right).last() == right.last());
        assert(write_positions(left + right) =~= write_positions(left) + write_positions(right));
        assert(write_payload(left + right) =~= write_payload(left) + write_payload(right));
    }
}

/// What one extent is: its blocks follow each other in the store from its start on, and it has
/// room for as many bytes as they have.
pub proof fn lemma_one_extent(ex: Extent, block_size: int)
    requires
        block_size >= 0,
    ensures
        block_total(seq![ex]) == ex.1,
        capacity(seq![ex], block_size) == ex.1 * block_size,
        file_bytes(seq![ex], block_size).len() == ex.1 * block_size,
        forall|i: int|
            0 <= i < ex.1 * block_size ==> #[trigger] file_bytes(seq![ex], block_size)[i] == ex.0
                * block_size + i,
        forall|b: int| #[trigger] in_extents(seq![ex], b) <==> ex.0 <= b < ex.0 + ex.1,
{
    let one = seq![ex];
    lemma_extent_end(ex, block_size);
    assert(one.drop_last() =~= Seq::<Extent>::empty());
    assert(block_total(one.drop_last()) == 0);
    assert(file_bytes(one.drop_last(), block_size) =~= Seq::<int>::empty());
    assert forall|b: int| #[trigger] in_extents(one, b) <==> ex.0 <= b < ex.0 + ex.1 by {
        if ex.0 <= b < ex.0 + ex.1 {
            assert(in_extent(one[0], b));
        }
    }
}

/// What several extents are: those of the first list, and then those of the second.
pub proof fn lemma_more_extents(left: Seq<Extent>, right: Seq<Extent>, block_size: int)
    requires
        block_size >= 0,
    ensures
        block_total(left + right) == block_total(left) + block_total(right),
        capacity(left + right, block_size) == capacity(left, block_size) + capacity(
            right,
            block_size,
        ),
        file_bytes(left + right, block_size) == file_bytes(left, block_size) + file_bytes(
            right,
            block_size,
        ),
        forall|b: int| #[trigger]
            in_extents(left + right, b) <==> in_extents(left, b) || in_extents(right, b),
        block_total(Seq::empty()) == 0,
        file_bytes(Seq::empty(), block_size).len() == 0,
    decreases right.len(),
{
    lemma_file_bytes_concat(left, right, block_size);
    if right.len() == 0 {
        assert(left + right =~= left);
    } else {
        lemma_more_extents(left, right.drop_last(), block_size);
        assert((left + right).drop_last() =~= left + right.drop_last());
    }
    vstd::arithmetic::mul::lemma_mul_is_distributive_add_other_way(
        block_size,
        block_total(left),
        block_total(right),
    );
    assert forall|b: int| #[trigger] in_extents(left + right, b) <==> in_extents(left, b)
        || in_extents(right, b) by {
        let all = left + right;
        if in_extents(all, b) {
            let k = choose|k: int| 0 <= k < all.len() && in_extent(#[trigger] all[k], b);
            if k < left.len() {
                assert(in_extent(left[k], b));
            } else {
                assert(in_extent(right[k - left.len()], b));
            }
        }
        if in_extents(left, b) {
            let k = choose|k: int| 0 <= k < left.len() && in_extent(#[trigger] left[k], b);
            assert(in_extent(all[k], b));
        }
        if in_extents(right, b) {
            let k = choose|k: int| 0 <= k < right.len() && in_extent(#[trigger] right[k], b);
            assert(in_extent(all[left.len() + k], b));
        }
    }
}

/// Extents are disjoint where of any two of them one ends before the other starts, or one is
/// empty.
pub proof fn lemma_disjoint_extents(extents: Seq<Extent>)
    ensures
        extents_disjoint(extents) <==> forall|k: int, l: int|
            #![trigger extents[k], extents[l]]
            0 <= k < l < extents.len() ==> extents[k].1 == 0 || extents[l].1 == 0 || extents[k].0
                + extents[k].1 <= extents[l].0 || extents[l].0 + extents[l].1 <= extents[k].0,
{
    if extents_disjoint(extents) {
        assert forall|k: int, l: int|
            #![trigger extents[k], extents[l]]
            0 <= k < l < extents.len() implies extents[k].1 == 0 || extents[l].1 == 0
            || extents[k].0 + extents[k].1 <= extents[l].0 || extents[l].0 + extents[l].1
            <= extents[k].0 by {
            assert(!(in_extent(extents[k], extents[k].0 as int) && in_extent(
                extents[l],
                extents[k].0 as int,
            )));
            assert(!(in_extent(extents[k], extents[l].0 as int) && in_extent(
                extents[l],
                extents[l].0 as int,
            )));
        }
    }
}

/// Two lists of extents share no block where of any two of them, one from each, one ends
/// before the other starts, or one is empty.
pub proof fn lemma_no_shared_block(left: Seq<Extent>, right: Seq<Extent>)
    ensures
        no_shared_block(left, right) <==> forall|k: int, l: int|
            #![trigger left[k], right[l]]
            0 <= k < left.len() && 0 <= l < right.len() ==> left[k].1 == 0 || right[l].1 == 0
                || left[k].0 + left[k].1 <= right[l].0 || right[l].0 + right[l].1 <= left[k].0,
{
    if no_shared_block(left, right) {
        assert forall|k: int, l: int|
            #![trigger left[k], right[l]]
            0 <= k < left.len() && 0 <= l < right.len() implies left[k].1 == 0 || right[l].1 == 0
            || left[k].0 + left[k].1 <= right[l].0 || right[l].0 + right[l].1 <= left[k].0 by {
            let b = if left[k].0 <= right[l].0 {
                right[l].0 as int
            } else {
                left[k].0 as int
            };
            if in_extent(left[k], b) && in_extent(right[l], b) {
                assert(in_extents(left, b));
                assert(in_extents(right, b));
            }
        }
    } else {
        let b = choose|b: int| #[trigger] in_extents(left, b) && #[trigger] in_extents(right, b);
        let k = choose|k: int| 0 <= k < left.len() && in_extent(#[trigger] left[k], b);
        let l = choose|l: int| 0 <= l < right.len() && in_extent(#[trigger] right[l], b);
        assert(left[k].0 <= b < left[k].0 + left[k].1);
        assert(right[l].0 <= b < right[l].0 + right[l].1);
    }
}

/// What one read touches and brings: as many bytes as it asks for, from its start on.
pub proof fn lemma_one_read(store: Seq<u8>, slice: ReadSlice)
    ensures
        read_positions(seq![slice]).len() == slice.len,
        read_back(store, seq![slice]).len() == slice.len,
        forall|i: int|
            0 <= i < slice.len ==> #[trigger] read_positions(seq![slice])[i] == slice.start + i,
        forall|i: int|
            0 <= i < slice.len ==> #[trigger] read_back(store, seq![slice])[i]
                == store[slice.start + i],
{
    let one = seq![slice];
    assert(one.drop_last() =~= Seq::<ReadSlice>::empty());
    assert(read_positions(one.drop_last()) =~= Seq::<int>::empty());
}

/// What several reads touch and bring: what the first do, and then what the others do.
pub proof fn lemma_more_reads(store: Seq<u8>, left: Seq<ReadSlice>, right: Seq<ReadSlice>)
    ensures
        read_positions(left + right) == read_positions(left) + read_positions(right),
        read_back(store, left + right) == read_back(store, left) + read_back(store, right),
        read_back(store, Seq::empty()).len() == 0,
    decreases right.len(),
{
    if right.len() == 0 {
        assert(left + right =~= left);
        assert(read_positions(left) + read_positions(right) =~= read_positions(left));
    } else {
        lemma_more_reads(store, left, right.drop_last());
        assert((left + right).drop_last() =~= left + right.drop_last());
        assert(read_positions(left + right) =~= read_positions(left) + read_positions(right));
    }
    assert(read_back(store, left + right) =~= read_back(store, left) + read_back(store, right));
}

/// What one write does to the store: its bytes stand from its start on, and all the others
/// stay.
pub proof fn lemma_one_write(store: Seq<u8>, slice: WriteSlice)
    ensures
        write_payload(seq![slice]) == slice.data@,
        write_positions(seq![slice]).len() == slice.data@.len(),
        forall|i: int|
            0 <= i < slice.data@.len() ==> #[trigger] write_positions(seq![slice])[i]
                == slice.start + i,
        apply_writes(store, seq![slice]).len() == store.len(),
        apply_writes(store, Seq::empty()) == store,
        forall|p: int|
            0 <= p < store.len() && slice.start <= p < slice.start + slice.data@.len()
                ==> #[trigger] apply_writes(store, seq![slice])[p] == slice.data@[p
                - slice.start],
        forall|p: int|
            0 <= p < store.len() && !(slice.start <= p < slice.start + slice.data@.len())
                ==> #[trigger] apply_writes(store, seq![slice])[p] == store[p],
{
    let one = seq![slice];
    assert(one.drop_last() =~= Seq::<WriteSlice>::empty());
    assert(write_positions(one.drop_last()) =~= Seq::<int>::empty());
    assert(write_payload(one.drop_last()) =~= Seq::<u8>::empty());
    assert(apply_writes(store, one.drop_last()) == store);
    assert(write_payload(one) =~= slice.data@);
}

/// How much of a write a file has room for: all of it, or as much as there is behind the
/// offset.
pub proof fn lemma_placed_bytes(room: int, offset: int, len: int)
    requires
        0 <= offset <= room,
        0 <= len,
    ensures
        offset + placed_bytes(room, offset, len) <= room,
        placed_bytes(room, offset, len) <= len,
        placed_bytes(room, offset, len) == len || offset + placed_bytes(room, offset, len)
            == room,
{
}

/// The slices for a read bring one byte for each byte that is asked for and that the extents
/// have, and they are those bytes of the file.
pub proof fn lemma_planned_read(
    extents: &Vec<Extent>,
    block_size: u32,
    offset: u64,
    size: u64,
    slices: Vec<ReadSlice>,
    store: Seq<u8>,
)
    requires
        call_ensures(plan_read, (extents, block_size, offset, size), slices),
        offset + size <= file_bytes(extents@, block_size as int).len(),
    ensures
        read_back(store, slices@).len() == size,
        forall|i: int|
            0 <= i < size ==> #[trigger] read_back(store, slices@)[i] == store[file_bytes(
                extents@,
                block_size as int,
            )[offset + i]],
{
    lemma_file_bytes_len(extents@, block_size as int);
}

/// The slices for a write carry the data in order to the bytes of the file from the offset on,
/// as far as the extents go.
pub proof fn lemma_planned_write(
    extents: &Vec<Extent>,
    block_size: u32,
    offset: u64,
    data: &[u8],
    r: (Vec<WriteSlice>, usize),
)
    requires
        call_ensures(plan_write, (extents, block_size, offset, data), r),
        offset <= file_bytes(extents@, block_size as int).len(),
    ensures
        r.1 <= data@.len(),
        offset + r.1 <= file_bytes(extents@, block_size as int).len(),
        r.1 == data@.len() || offset + r.1 == file_bytes(extents@, block_size as int).len(),
        write_payload(r.0@).len() == r.1,
        write_positions(r.0@).len() == r.1,
        forall|i: int| 0 <= i < r.1 ==> #[trigger] write_payload(r.0@)[i] == data@[i],
        forall|i: int|
            0 <= i < r.1 ==> #[trigger] write_positions(r.0@)[i] == file_bytes(
                extents@,
                block_size as int,
            )[offset + i],
{
    lemma_file_bytes_len(extents@, block_size as int);
}

/// The slices for a whole file are its extents, in order: block after block.
pub proof fn lemma_whole_file(
    extents: &Vec<Extent>,
    block_size: u32,
    slices: Vec<ReadSlice>,
    store: Seq<u8>,
)
    requires
        call_ensures(all_slices, (extents, block_size), slices),
    ensures
        read_back(store, slices@).len() == file_bytes(extents@, block_size as int).len(),
        forall|i: int|
            0 <= i < read_back(store, slices@).len() ==> #[trigger] read_back(store, slices@)[i]
                == store[file_bytes(extents@, block_size as int)[i]],
{
}

/// Extents that have a block each have at least as many blocks as there are extents.
pub proof fn lemma_total_positive(extents: Seq<Extent>)
    requires
        forall|k: int| 0 <= k < extents.len() ==> (#[trigger] extents[k]).1 >= 1,
    ensures
        block_total(extents) >= extents.len(),
    decreases extents.len(),
{
    if extents.len() > 0 {
        lemma_total_positive(extents.drop_last());
    }
}

} // verus!
