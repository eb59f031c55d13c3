//! Allocation of inodes and of blocks: first fit, in the bitmaps that record what is in use.

use crate::bitmap;
use crate::bitmap::ChunkedBitmap;
use crate::bitmap::BITMAP_CHUNK_BITS;
use crate::extent;
use crate::extent::Extent;
use vstd::prelude::*;

verus! {

/// The number of bits that are `false`: of inodes or blocks that are free.
pub open spec fn free_count(bits: Seq<bool>) -> nat
    decreases bits.len(),
{
    if bits.len() == 0 {
        0
    } else {
        free_count(bits.drop_last()) + if bits.last() {
            0nat
        } else {
            1nat
        }
    }
}

/// An inode that can be allocated: a free one. Inode 0 does not exist, and inode 1 is the root.
pub open spec fn inode_available(bits: Seq<bool>, i: int) -> bool {
    2 <= i < bits.len() && !bits[i]
}

/// The extent is a run of free blocks within one chunk of the bitmap.
pub open spec fn is_free_run(bits: Seq<bool>, ex: Extent) -> bool {
    &&& ex.1 >= 1
    &&& ex.0 + ex.1 <= bits.len()
    &&& ex.0 as int / BITMAP_CHUNK_BITS as int == (ex.0 + ex.1 - 1) / BITMAP_CHUNK_BITS as int
    &&& forall|b: int| extent::in_extent(ex, b) ==> !#[trigger] bits[b]
}

/// The extents come in order and do not overlap, and where two of them touch, a chunk ends
/// between them.
pub open spec fn runs_in_order(extents: Seq<Extent>) -> bool {
    &&& forall|k: int, l: int|
        0 <= k < l < extents.len() ==> (#[trigger] extents[k]).0 + extents[k].1 <= (
        #[trigger] extents[l]).0
    &&& forall|k: int, l: int|
        0 <= k < l < extents.len() && (#[trigger] extents[k]).0 + extents[k].1 == (
        #[trigger] extents[l]).0 ==> extents[l].0 as int % BITMAP_CHUNK_BITS as int == 0
}

/// The extents are the first `count` free blocks, as the runs that they form.
pub open spec fn is_first_fit(bits: Seq<bool>, count: int, extents: Seq<Extent>) -> bool {
    &&& forall|k: int| 0 <= k < extents.len() ==> is_free_run(bits, #[trigger] extents[k])
    &&& runs_in_order(extents)
    &&& forall|b: int|
        0 <= b < bits.len() && !(#[trigger] bits[b]) && extents.len() > 0 && b
            < extents.last().0 ==> extent::in_extents(extents, b)
    &&& extent::block_total(extents) == count
}

/// The bits with the blocks of the extents marked as in use.
pub open spec fn marked(bits: Seq<bool>, extents: Seq<Extent>) -> Seq<bool> {
    Seq::new(bits.len(), |b: int| bits[b] || extent::in_extents(extents, b))
}

/// What a search for free blocks has found when it stands at `pos`: all the free blocks that
/// come before.
spec fn found_up_to(bits: Seq<bool>, extents: Seq<Extent>, pos: int) -> bool {
    &&& 0 <= pos <= bits.len()
    &&& forall|k: int|
        0 <= k < extents.len() ==> is_free_run(bits, #[trigger] extents[k]) && extents[k].0
            + extents[k].1 <= pos
    &&& runs_in_order(extents)
    &&& forall|b: int| 0 <= b < pos && !(#[trigger] bits[b]) ==> extent::in_extents(extents, b)
    &&& extent::block_total(extents) == free_count(bits.take(pos))
}

/// Bits in use add nothing to the number of free ones.
proof fn lemma_free_count_used(bits: Seq<bool>, pos: int, end: int)
    requires
        0 <= pos <= end <= bits.len(),
        forall|b: int| pos <= b < end ==> #[trigger] bits[b],
    ensures
        free_count(bits.take(end)) == free_count(bits.take(pos)),
    decreases end - pos,
{
    if pos < end {
        lemma_free_count_used(bits, pos, end - 1);
        assert(bits.take(end).drop_last() =~= bits.take(end - 1));
        assert(bits.take(end).last() == bits[end - 1]);
    }
}

/// Free bits add to the number of free ones.
proof fn lemma_free_count_free(bits: Seq<bool>, pos: int, end: int)
    requires
        0 <= pos <= end <= bits.len(),
        forall|b: int| pos <= b < end ==> !#[trigger] bits[b],
    ensures
        free_count(bits.take(end)) == free_count(bits.take(pos)) + (end - pos),
    decreases end - pos,
{
    if pos < end {
        lemma_free_count_free(bits, pos, end - 1);
        assert(bits.take(end).drop_last() =~= bits.take(end - 1));
        assert(bits.take(end).last() == bits[end - 1]);
    }
}

/// A part of the bits has no more free ones than all of them.
proof fn lemma_free_count_part(bits: Seq<bool>, pos: int)
    requires
        0 <= pos <= bits.len(),
    ensures
        free_count(bits.take(pos)) <= free_count(bits),
    decreases bits.len() - pos,
{
    if pos < bits.len() {
        lemma_free_count_part(bits, pos + 1);
        assert(bits.take(pos + 1).drop_last() =~= bits.take(pos));
    } else {
        assert(bits.take(pos) =~= bits);
    }
}

/// The search moves over blocks that are in use.
proof fn lemma_pass_used(bits: Seq<bool>, extents: Seq<Extent>, pos: int, end: int)
    requires
        found_up_to(bits, extents, pos),
        pos <= end <= bits.len(),
        forall|b: int| pos <= b < end ==> #[trigger] bits[b],
    ensures
        found_up_to(bits, extents, end),
{
    lemma_free_count_used(bits, pos, end);
}

/// The search takes a run of free blocks.
proof fn lemma_take_free(bits: Seq<bool>, extents: Seq<Extent>, pos: int, ex: Extent)
    requires
        found_up_to(bits, extents, pos),
        ex.0 == pos,
        is_free_run(bits, ex),
        pos % BITMAP_CHUNK_BITS as int == 0 || bits[pos - 1],
    ensures
        found_up_to(bits, extents.push(ex), ex.0 + ex.1),
{
    let more = extents.push(ex);
    let end = ex.0 + ex.1;
    lemma_free_count_free(bits, pos, end);
    assert(more.drop_last() =~= extents);
    assert forall|k: int, l: int|
        0 <= k < l < more.len() && (#[trigger] more[k]).0 + more[k].1 == (
        #[trigger] more[l]).0 implies more[l].0 as int % BITMAP_CHUNK_BITS as int == 0 by {
        if l < extents.len() {
            assert(more[k] == extents[k] && more[l] == extents[l]);
        } else {
            assert(more[k] == extents[k]);
            assert(is_free_run(bits, extents[k]));
            assert(extent::in_extent(extents[k], pos - 1));
        }
    }
    assert forall|b: int| 0 <= b < end && !(#[trigger] bits[b]) implies extent::in_extents(
        more,
        b,
    ) by {
        if b < pos {
            let k = choose|k: int|
                0 <= k < extents.len() && extent::in_extent(#[trigger] extents[k], b);
            assert(more[k] == extents[k]);
        } else {
            assert(more[extents.len() as int] == ex);
            assert(extent::in_extent(ex, b));
        }
    }
}

/// What a search has found when it has taken `count` blocks is the first fit.
proof fn lemma_found_is_first_fit(bits: Seq<bool>, extents: Seq<Extent>, pos: int)
    requires
        found_up_to(bits, extents, pos),
    ensures
        is_first_fit(bits, extent::block_total(extents), extents),
        extent::block_total(extents) <= free_count(bits),
{
    lemma_free_count_part(bits, pos);
    if extents.len() > 0 {
        assert(is_free_run(bits, extents[extents.len() - 1]));
    }
}

/// Marking a run of free bits as used takes its length off the number of free ones.
proof fn lemma_free_count_marked_run(bits: Seq<bool>, after: Seq<bool>, lo: int, hi: int)
    requires
        0 <= lo <= hi <= bits.len(),
        after.len() == bits.len(),
        forall|b: int| lo <= b < hi ==> !#[trigger] bits[b],
        forall|b: int|
            0 <= b < bits.len() ==> #[trigger] after[b] == (bits[b] || lo <= b < hi),
    ensures
        free_count(after) == free_count(bits) - (hi - lo),
    decreases bits.len(),
{
    if bits.len() > 0 {
        let last = bits.len() - 1;
        let shorter = bits.drop_last();
        let shorter_after = after.drop_last();
        assert(after[last] == (bits[last] || lo <= last < hi));
        if hi == bits.len() && lo < hi {
            lemma_free_count_marked_run(shorter, shorter_after, lo, hi - 1);
        } else if hi == bits.len() {
            lemma_free_count_marked_run(shorter, shorter_after, lo - 1, hi - 1);
        } else {
            lemma_free_count_marked_run(shorter, shorter_after, lo, hi);
        }
    }
}

/// Marking free runs that do not overlap takes their blocks off the number of free ones.
proof fn lemma_free_count_marked(bits: Seq<bool>, extents: Seq<Extent>)
    requires
        forall|k: int| 0 <= k < extents.len() ==> is_free_run(bits, #[trigger] extents[k]),
        runs_in_order(extents),
    ensures
        free_count(marked(bits, extents)) == free_count(bits) - extent::block_total(extents),
    decreases extents.len(),
{
    if extents.len() == 0 {
        assert(marked(bits, extents) =~= bits);
    } else {
        let front = extents.drop_last();
        let n = extents.len() - 1;
        let ex = extents[n];
        assert forall|k: int| 0 <= k < front.len() implies is_free_run(
            bits,
            #[trigger] front[k],
        ) by {
            assert(front[k] == extents[k]);
        }
        lemma_free_count_marked(bits, front);
        let mid = marked(bits, front);
        let after = marked(bits, extents);
        assert(is_free_run(bits, ex));
        assert forall|b: int| ex.0 <= b < ex.0 + ex.1 implies !#[trigger] mid[b] by {
            assert(extent::in_extent(ex, b));
            assert(!bits[b]);
            if extent::in_extents(front, b) {
                let k = choose|k: int|
                    0 <= k < front.len() && extent::in_extent(#[trigger] front[k], b);
                assert(front[k] == extents[k]);
            }
        }
        assert forall|b: int| 0 <= b < bits.len() implies #[trigger] after[b] == (mid[b] || ex.0
            <= b < ex.0 + ex.1) by {
            if extent::in_extents(front, b) {
                let k = choose|k: int|
                    0 <= k < front.len() && extent::in_extent(#[trigger] front[k], b);
                assert(extent::in_extent(extents[k], b));
            }
            if extent::in_extents(extents, b) {
                let k = choose|k: int|
                    0 <= k < extents.len() && extent::in_extent(#[trigger] extents[k], b);
                if k < n {
                    assert(extent::in_extent(front[k], b));
                }
            }
            if extent::in_extent(ex, b) {
                assert(extent::in_extent(extents[n], b));
            }
        }
        lemma_free_count_marked_run(mid, after, ex.0 as int, ex.0 + ex.1);
    }
}

/// An allocation of blocks leaves as many fewer free ones as were asked for.
pub proof fn lemma_allocation_accounted(bits: Seq<bool>, count: int, extents: Seq<Extent>)
    requires
        is_first_fit(bits, count, extents),
    ensures
        free_count(marked(bits, extents)) == free_count(bits) - count,
{
    lemma_free_count_marked(bits, extents);
}

/// An extent more has its blocks more; runs that are left out have at least a block each.
proof fn lemma_total_prefix(extents: Seq<Extent>, k: int)
    requires
        0 <= k <= extents.len(),
        forall|i: int| 0 <= i < extents.len() ==> (#[trigger] extents[i]).1 >= 1,
    ensures
        extent::block_total(extents.take(k)) + (extents.len() - k) <= extent::block_total(
            extents,
        ),
        k > 0 ==> extent::block_total(extents.take(k)) == extent::block_total(
            extents.take(k - 1),
        ) + extents[k - 1].1,
    decreases extents.len() - k,
{
    if k < extents.len() {
        lemma_total_prefix(extents, k + 1);
    } else {
        assert(extents.take(k) =~= extents);
    }
    if k > 0 {
        assert(extents.take(k).drop_last() =~= extents.take(k - 1));
    }
}

/// Between two runs of a first fit, and before the first, no block is free.
proof fn lemma_no_free_gap(bits: Seq<bool>, count: int, extents: Seq<Extent>, k: int, b: int)
    requires
        is_first_fit(bits, count, extents),
        0 <= k < extents.len(),
        0 <= b < extents[k].0,
        k > 0 ==> extents[k - 1].0 + extents[k - 1].1 <= b,
    ensures
        bits[b],
{
    let n = extents.len() - 1;
    assert(is_free_run(bits, extents[k]));
    if !bits[b] {
        assert(extents[k].0 <= extents[n].0) by {
            if k < n {
                assert(extents[k].0 + extents[k].1 <= extents[n].0);
            }
        }
        assert(extent::in_extents(extents, b));
        let j = choose|j: int|
            0 <= j < extents.len() && extent::in_extent(#[trigger] extents[j], b);
        if j < k - 1 {
            assert(extents[j].0 + extents[j].1 <= extents[k - 1].0);
        } else if j > k {
            assert(extents[k].0 + extents[k].1 <= extents[j].0);
        }
    }
}

/// No first fit starts a run before another one does.
proof fn lemma_run_starts(bits: Seq<bool>, count: int, a: Seq<Extent>, b: Seq<Extent>, k: int)
    requires
        is_first_fit(bits, count, a),
        is_first_fit(bits, count, b),
        0 <= k < a.len(),
        k < b.len(),
        a.take(k) == b.take(k),
    ensures
        a[k].0 >= b[k].0,
{
    if a[k].0 < b[k].0 {
        assert(is_free_run(bits, a[k]));
        assert(extent::in_extent(a[k], a[k].0 as int));
        if k > 0 {
            assert(a.take(k)[k - 1] == a[k - 1]);
            assert(b.take(k)[k - 1] == b[k - 1]);
            assert(a[k - 1].0 + a[k - 1].1 <= a[k].0);
        }
        lemma_no_free_gap(bits, count, b, k, a[k].0 as int);
    }
}

/// No first fit ends a run before another one does.
proof fn lemma_run_ends(bits: Seq<bool>, count: int, a: Seq<Extent>, b: Seq<Extent>, k: int)
    requires
        is_first_fit(bits, count, a),
        is_first_fit(bits, count, b),
        0 <= k < a.len(),
        k < b.len(),
        a.take(k) == b.take(k),
        a[k].0 == b[k].0,
    ensures
        a[k].1 >= b[k].1,
{
    assert forall|i: int| 0 <= i < a.len() implies (#[trigger] a[i]).1 >= 1 by {
        assert(is_free_run(bits, a[i]));
    }
    assert forall|i: int| 0 <= i < b.len() implies (#[trigger] b[i]).1 >= 1 by {
        assert(is_free_run(bits, b[i]));
    }
    if a[k].1 < b[k].1 {
        let f = a[k].0 + a[k].1;
        assert(is_free_run(bits, b[k]));
        assert(extent::in_extent(b[k], f));
        assert(!bits[f]);
        if k + 1 < a.len() {
            assert(a[k].0 + a[k].1 <= a[k + 1].0);
            if f < a[k + 1].0 {
                lemma_no_free_gap(bits, count, a, k + 1, f);
            } else {
                assert(f % 1024 == 0);
                assert(b[k].0 as int / 1024 <= (f - 1) / 1024);
                assert(f / 1024 <= (b[k].0 + b[k].1 - 1) / 1024);
            }
        } else {
            lemma_total_prefix(a, k + 1);
            lemma_total_prefix(b, k + 1);
            assert(a.take(k + 1) =~= a);
        }
    }
}

/// The first fit is the only one: which blocks an allocation takes is determined.
pub proof fn lemma_first_fit_determined(
    bits: Seq<bool>,
    count: int,
    a: Seq<Extent>,
    b: Seq<Extent>,
)
    requires
        is_first_fit(bits, count, a),
        is_first_fit(bits, count, b),
    ensures
        a == b,
{
    let n = if a.len() <= b.len() {
        a.len() as int
    } else {
        b.len() as int
    };
    lemma_runs_agree(bits, count, a, b, n);
    assert forall|i: int| 0 <= i < a.len() implies (#[trigger] a[i]).1 >= 1 by {
        assert(is_free_run(bits, a[i]));
    }
    assert forall|i: int| 0 <= i < b.len() implies (#[trigger] b[i]).1 >= 1 by {
        assert(is_free_run(bits, b[i]));
    }
    lemma_total_prefix(a, n);
    lemma_total_prefix(b, n);
    assert(a.take(a.len() as int) =~= a);
    assert(b.take(b.len() as int) =~= b);
}

/// Two first fits agree on as many runs as both have.
proof fn lemma_runs_agree(bits: Seq<bool>, count: int, a: Seq<Extent>, b: Seq<Extent>, k: int)
    requires
        is_first_fit(bits, count, a),
        is_first_fit(bits, count, b),
        0 <= k <= a.len(),
        k <= b.len(),
    ensures
        a.take(k) == b.take(k),
    decreases k,
{
    if k > 0 {
        lemma_runs_agree(bits, count, a, b, k - 1);
        lemma_run_starts(bits, count, a, b, k - 1);
        lemma_run_starts(bits, count, b, a, k - 1);
        lemma_run_ends(bits, count, a, b, k - 1);
        lemma_run_ends(bits, count, b, a, k - 1);
        assert(a.take(k) =~= a.take(k - 1).push(a[k - 1]));
        assert(b.take(k) =~= b.take(k - 1).push(b[k - 1]));
    } else {
        assert(a.take(0) =~= b.take(0));
    }
}

/// An inode that is allocated is neither of the first two, and was free: freeing it brings
/// the bitmap back.
pub proof fn lemma_inode_freed_again(bits: Seq<bool>, i: int)
    requires
        inode_available(bits, i),
    ensures
        i >= 2,
        bits.update(i, true).update(i, false) == bits,
{
    assert(bits.update(i, true).update(i, false) =~= bits);
}

impl ChunkedBitmap {
    /// The first inode that is available, if there is one.
    pub fn first_free_inode(&self) -> (inode: Option<u64>)
        requires
            self@.len() <= u64::MAX,
        ensures
            match inode {
                Some(i) => {
                    &&& inode_available(self@, i as int)
                    &&& forall|j: int| 0 <= j < i ==> !#[trigger] inode_available(self@, j)
                },
                None => forall|j: int| !#[trigger] inode_available(self@, j),
            },
            inode is None <==> forall|j: int| 2 <= j < self@.len() ==> #[trigger] self@[j],
    {
        let mut c: usize = 0;
        while c < self.chunks.len()
            invariant
                c <= self.chunks.len(),
                self@.len() <= u64::MAX,
                forall|j: int|
                    0 <= j < c * BITMAP_CHUNK_BITS ==> !#[trigger] inode_available(self@, j),
            decreases self.chunks.len() - c,
        {
            // The first two inodes of all are never allocated.
            let found = if c == 0 {
                self.chunks[c].next_false_index(1)
            } else {
                self.chunks[c].first_false_index()
            };
            match found {
                Some(i) => {
                    let inode: u64 = c as u64 * BITMAP_CHUNK_BITS as u64 + i as u64;
                    assert(inode as int / 1024 == c && inode as int % 1024 == i);
                    assert(!self@[inode as int]);
                    assert forall|j: int| 0 <= j < inode implies !#[trigger] inode_available(
                        self@,
                        j,
                    ) by {
                        if j >= c * BITMAP_CHUNK_BITS {
                            assert(j / 1024 == c);
                            assert(j % 1024 < i);
                        }
                    }
                    return Some(inode);
                },
                None => {
                    assert forall|j: int| 0 <= j < (c + 1) * BITMAP_CHUNK_BITS implies
                        !#[trigger] inode_available(self@, j) by {
                        if j >= c * BITMAP_CHUNK_BITS {
                            assert(j / 1024 == c);
                        }
                    }
                },
            }
            c += 1;
        }
        assert forall|j: int| 2 <= j < self@.len() implies #[trigger] self@[j] by {
            assert(!inode_available(self@, j));
        }
        None
    }

    /// Takes the first inode that is available: sets its bit, and returns its number. `None`
    /// where there is none.
    pub fn allocate_inode(&mut self) -> (inode: Option<u64>)
        requires
            old(self)@.len() <= u64::MAX,
        ensures
            match inode {
                Some(i) => {
                    &&& inode_available(old(self)@, i as int)
                    &&& forall|j: int| 0 <= j < i ==> !#[trigger] inode_available(old(self)@, j)
                    &&& final(self)@ == old(self)@.update(i as int, true)
                },
                None => {
                    &&& forall|j: int| !#[trigger] inode_available(old(self)@, j)
                    &&& final(self)@ == old(self)@
                },
            },
    {
        let found = self.first_free_inode();
        if let Some(inode) = found {
            self.set(inode, true);
        }
        found
    }

    /// Marks the blocks of the extents as in use.
    fn mark(&mut self, extents: &Vec<Extent>)
        requires
            forall|k: int|
                0 <= k < extents@.len() ==> (#[trigger] extents@[k]).0 + extents@[k].1
                    <= old(self)@.len(),
            old(self)@.len() <= u64::MAX,
        ensures
            final(self)@ == marked(old(self)@, extents@),
    {
        let ghost bits = self@;
        let mut k: usize = 0;
        assert(self@ =~= marked(bits, extents@.take(0)));
        while k < extents.len()
            invariant
                k <= extents.len(),
                bits == old(self)@,
                bits.len() <= u64::MAX,
                forall|m: int|
                    0 <= m < extents@.len() ==> (#[trigger] extents@[m]).0 + extents@[m].1
                        <= bits.len(),
                self@ == marked(bits, extents@.take(k as int)),
            decreases extents.len() - k,
        {
            let ex = extents[k];
            let mut b: u64 = ex.0;
            while b < ex.0 + ex.1
                invariant
                    k < extents.len(),
                    ex == extents@[k as int],
                    ex.0 + ex.1 <= bits.len() <= u64::MAX,
                    ex.0 <= b <= ex.0 + ex.1,
                    self@ == Seq::new(
                        bits.len(),
                        |i: int| marked(bits, extents@.take(k as int))[i] || ex.0 <= i < b,
                    ),
                decreases ex.0 + ex.1 - b,
            {
                let ghost before = self@;
                self.set(b, true);
                assert(self@ =~= Seq::new(
                    bits.len(),
                    |i: int| marked(bits, extents@.take(k as int))[i] || ex.0 <= i < b + 1,
                ));
                b += 1;
            }
            proof {
                let front = extents@.take(k as int);
                let more = extents@.take(k + 1);
                assert forall|i: int| 0 <= i < bits.len() implies #[trigger] self@[i] == marked(
                    bits,
                    more,
                )[i] by {
                    if extent::in_extents(front, i) {
                        let m = choose|m: int|
                            0 <= m < front.len() && extent::in_extent(#[trigger] front[m], i);
                        assert(more[m] == front[m]);
                        assert(extent::in_extents(more, i));
                    }
                    if extent::in_extent(ex, i) {
                        assert(more[k as int] == ex);
                        assert(extent::in_extents(more, i));
                    }
                    if extent::in_extents(more, i) {
                        let m = choose|m: int|
                            0 <= m < more.len() && extent::in_extent(#[trigger] more[m], i);
                        if m < k {
                            assert(front[m] == more[m]);
                            assert(extent::in_extents(front, i));
                        }
                    }
                }
                assert(self@ =~= marked(bits, more));
            }
            k += 1;
        }
        assert(extents@.take(k as int) =~= extents@);
    }

    /// Takes the first `count` free blocks: marks them as in use, and returns the runs that
    /// they form. `None`, with nothing marked, where there are fewer.
    pub fn allocate_blocks(&mut self, count: usize) -> (extents: Option<Vec<Extent>>)
        requires
            old(self)@.len() <= u64::MAX,
        ensures
            match extents {
                Some(exs) => {
                    &&& count <= free_count(old(self)@)
                    &&& is_first_fit(old(self)@, count as int, exs@)
                    &&& final(self)@ == marked(old(self)@, exs@)
                },
                None => {
                    &&& count > free_count(old(self)@)
                    &&& final(self)@ == old(self)@
                },
            },
    {
        let ghost bits = self@;
        let mut extents: Vec<Extent> = Vec::new();
        let mut needed: usize = count;
        proof {
            assert(bits.take(0) =~= Seq::<bool>::empty());
            assert(extents@ =~= Seq::<Extent>::empty());
        }
        if needed == 0 {
            proof {
                lemma_found_is_first_fit(bits, extents@, 0);
                assert(marked(bits, extents@) =~= bits);
            }
            return Some(extents);
        }
        let mut c: usize = 0;
        while c < self.chunks.len()
            invariant
                *self == *old(self),
                bits == self@,
                bits.len() <= u64::MAX,
                c <= self.chunks.len(),
                needed > 0,
                extent::block_total(extents@) + needed == count,
                found_up_to(bits, extents@, c * BITMAP_CHUNK_BITS),
            decreases self.chunks.len() - c,
        {
            let base: u64 = c as u64 * BITMAP_CHUNK_BITS as u64;
            let mut at: usize = 0;
            let mut next = self.chunks[c].first_false_index();
            assert forall|b: int| base <= b < base + BITMAP_CHUNK_BITS implies #[trigger] bits[b]
                == bitmap::true_bits(self.chunks@[c as int]).contains(
                (b - base) as usize,
            ) by {
                assert(b / 1024 == c && b % 1024 == b - base);
            }
            while next.is_some()
                invariant
                    *self == *old(self),
                    bits == self@,
                    bits.len() <= u64::MAX,
                    c < self.chunks.len(),
                    base == c * BITMAP_CHUNK_BITS,
                    forall|b: int|
                        base <= b < base + BITMAP_CHUNK_BITS ==> #[trigger] bits[b]
                            == bitmap::true_bits(self.chunks@[c as int]).contains(
                            (b - base) as usize,
                        ),
                    at <= BITMAP_CHUNK_BITS,
                    needed > 0,
                    extent::block_total(extents@) + needed == count,
                    found_up_to(bits, extents@, base + at),
                    match next {
                        Some(i) => {
                            &&& at <= i < BITMAP_CHUNK_BITS
                            &&& at == 0 || at < i
                            &&& !bits[base + i]
                            &&& forall|b: int| base + at <= b < base + i ==> #[trigger] bits[b]
                        },
                        None => forall|b: int|
                            base + at <= b < base + BITMAP_CHUNK_BITS ==> #[trigger] bits[b],
                    },
                decreases BITMAP_CHUNK_BITS - at, (if next.is_some() { 1int } else { 0int }),
            {
                let open: usize = next.unwrap();
                proof {
                    lemma_pass_used(bits, extents@, base + at, base + open);
                }
                let end: usize = match self.chunks[c].next_index(open) {
                    Some(i) => i,
                    // Without a next block in use, the run goes on to the end of the chunk.
                    None => BITMAP_CHUNK_BITS,
                };
                let free: usize = end - open;
                let size: usize = if free >= needed {
                    needed
                } else {
                    free
                };
                let ex: Extent = (base + open as u64, size as u64);
                proof {
                    assert(is_free_run(bits, ex)) by {
                        assert(ex.0 as int / 1024 == c);
                        assert((ex.0 + ex.1 - 1) / 1024 == c);
                    }
                    lemma_take_free(bits, extents@, base + open, ex);
                    assert(extents@.push(ex).drop_last() =~= extents@);
                }
                extents.push(ex);
                needed = needed - size;
                if needed == 0 {
                    proof {
                        lemma_found_is_first_fit(bits, extents@, ex.0 + ex.1);
                    }
                    self.mark(&extents);
                    return Some(extents);
                }
                next = self.chunks[c].next_false_index(end);
                at = end;
            }
            proof {
                lemma_pass_used(bits, extents@, base + at, base + BITMAP_CHUNK_BITS);
            }
            c += 1;
        }
        assert(bits.take(bits.len() as int) =~= bits);
        None
    }
}

/// How many bits are free: none of no bits, and one more with every bit that is not set.
pub proof fn lemma_free_count_push(bits: Seq<bool>, bit: bool)
    ensures
        free_count(Seq::empty()) == 0,
        free_count(bits.push(bit)) == free_count(bits) + (if bit {
            0int
        } else {
            1int
        }),
{
    assert(bits.push(bit).drop_last() =~= bits);
}

/// The inode that is allocated is the first free one from 2 on; there is none exactly where
/// all of them are in use.
pub proof fn lemma_inode_allocated()
    ensures
        forall|bitmap: &mut ChunkedBitmap, inode: Option<u64>| #[trigger]
            call_ensures(ChunkedBitmap::allocate_inode, (bitmap,), inode) ==> {
                let before = (*bitmap)@;
                let after = (*final(bitmap))@;
                &&& inode is None <==> forall|j: int|
                    2 <= j < before.len() ==> #[trigger] before[j]
                &&& inode is None ==> after == before
                &&& inode matches Some(i) ==> {
                    &&& 2 <= i < before.len()
                    &&& !before[i as int]
                    &&& forall|j: int| 2 <= j < i ==> #[trigger] before[j]
                    &&& after.len() == before.len()
                    &&& after[i as int]
                    &&& forall|j: int|
                        0 <= j < before.len() && j != i ==> #[trigger] after[j] == before[j]
                }
            },
{
    assert forall|bitmap: &mut ChunkedBitmap, inode: Option<u64>| #[trigger]
        call_ensures(ChunkedBitmap::allocate_inode, (bitmap,), inode) implies {
        let before = (*bitmap)@;
        let after = (*final(bitmap))@;
        &&& inode is None <==> forall|j: int| 2 <= j < before.len() ==> #[trigger] before[j]
        &&& inode is None ==> after == before
        &&& inode matches Some(i) ==> {
            &&& 2 <= i < before.len()
            &&& !before[i as int]
            &&& forall|j: int| 2 <= j < i ==> #[trigger] before[j]
            &&& after.len() == before.len()
            &&& after[i as int]
            &&& forall|j: int|
                0 <= j < before.len() && j != i ==> #[trigger] after[j] == before[j]
        }
    } by {
        let before = (*bitmap)@;
        assert forall|j: int| 2 <= j < before.len() && (inode is None || j < inode->0) implies
            #[trigger] before[j] by {
            assert(!inode_available(before, j));
        }
    }
}

/// What a first fit takes: as many blocks as are asked for, all of them free, in runs from the
/// front; no free block is left out that comes before one that is taken.
pub proof fn lemma_first_fit_takes(bits: Seq<bool>, count: int, extents: Seq<Extent>)
    requires
        is_first_fit(bits, count, extents),
    ensures
        extent::block_total(extents) == count,
        forall|k: int, b: int|
            #![trigger extent::in_extent(extents[k], b)]
            0 <= k < extents.len() && extents[k].0 <= b < extents[k].0 + extents[k].1 ==> b
                < bits.len() && !bits[b],
        forall|k: int| 0 <= k < extents.len() ==> (#[trigger] extents[k]).1 >= 1,
        forall|k: int|
            0 <= k < extents.len() ==> (#[trigger] extents[k]).0 as int / 1024 == (extents[k].0
                + extents[k].1 - 1) / 1024,
        forall|k: int, l: int|
            #![trigger extents[k], extents[l]]
            0 <= k < l < extents.len() ==> extents[k].0 + extents[k].1 <= extents[l].0,
        forall|k: int, l: int|
            #![trigger extents[k], extents[l]]
            0 <= k < l < extents.len() && extents[k].0 + extents[k].1 == extents[l].0
                ==> extents[l].0 as int % 1024 == 0,
        forall|b: int, k: int|
            #![trigger bits[b], extents[k]]
            0 <= b < bits.len() && !bits[b] && 0 <= k < extents.len() && b < extents[k].0
                + extents[k].1 ==> exists|l: int|
                0 <= l < extents.len() && (#[trigger] extents[l]).0 <= b < extents[l].0
                    + extents[l].1,
{
    assert forall|k: int, b: int|
        #![trigger extent::in_extent(extents[k], b)]
        0 <= k < extents.len() && extents[k].0 <= b < extents[k].0 + extents[k].1 implies b
        < bits.len() && !bits[b] by {
        assert(is_free_run(bits, extents[k]));
        assert(extent::in_extent(extents[k], b));
    }
    assert forall|k: int| 0 <= k < extents.len() implies (#[trigger] extents[k]).1 >= 1
        && extents[k].0 as int / 1024 == (extents[k].0 + extents[k].1 - 1) / 1024 by {
        assert(is_free_run(bits, extents[k]));
    }
    assert forall|b: int, k: int|
        #![trigger bits[b], extents[k]]
        0 <= b < bits.len() && !bits[b] && 0 <= k < extents.len() && b < extents[k].0
            + extents[k].1 implies exists|l: int|
        0 <= l < extents.len() && (#[trigger] extents[l]).0 <= b < extents[l].0
            + extents[l].1 by {
        let n = extents.len() - 1;
        if b < extents[n].0 {
            assert(extent::in_extents(extents, b));
            let l = choose|l: int|
                0 <= l < extents.len() && extent::in_extent(#[trigger] extents[l], b);
            assert(extents[l].0 <= b < extents[l].0 + extents[l].1);
        } else {
            if k < n {
                assert(extents[k].0 + extents[k].1 <= extents[n].0);
            }
            assert(extents[n].0 <= b < extents[n].0 + extents[n].1);
        }
    }
}

/// What marking does: the blocks of the extents are in use then, and all others as before.
pub proof fn lemma_marked(bits: Seq<bool>, extents: Seq<Extent>, b: int)
    requires
        0 <= b < bits.len(),
    ensures
        marked(bits, extents).len() == bits.len(),
        (exists|k: int|
            0 <= k < extents.len() && (#[trigger] extents[k]).0 <= b < extents[k].0
                + extents[k].1) ==> marked(bits, extents)[b],
        !(exists|k: int|
            0 <= k < extents.len() && (#[trigger] extents[k]).0 <= b < extents[k].0
                + extents[k].1) ==> marked(bits, extents)[b] == bits[b],
{
    if exists|k: int|
        0 <= k < extents.len() && (#[trigger] extents[k]).0 <= b < extents[k].0 + extents[k].1 {
        let k = choose|k: int|
            0 <= k < extents.len() && (#[trigger] extents[k]).0 <= b < extents[k].0
                + extents[k].1;
        assert(extent::in_extent(extents[k], b));
        assert(extent::in_extents(extents, b));
    }
}

/// Blocks are allocated exactly where there are enough of them; then there are as many fewer.
pub proof fn lemma_blocks_allocated(count: usize)
    ensures
        forall|bitmap: &mut ChunkedBitmap, extents: Option<Vec<Extent>>| #[trigger]
            call_ensures(ChunkedBitmap::allocate_blocks, (bitmap, count), extents) ==> {
                let before = (*bitmap)@;
                let after = (*final(bitmap))@;
                &&& extents is Some <==> count <= free_count(before)
                &&& extents is Some ==> free_count(after) == free_count(before) - count
                    && extent::block_total(extents->0@) == count
                &&& extents is None ==> after == before
            },
{
    assert forall|bitmap: &mut ChunkedBitmap, extents: Option<Vec<Extent>>| #[trigger]
        call_ensures(ChunkedBitmap::allocate_blocks, (bitmap, count), extents) implies {
        let before = (*bitmap)@;
        let after = (*final(bitmap))@;
        &&& extents is Some <==> count <= free_count(before)
        &&& extents is Some ==> free_count(after) == free_count(before) - count
            && extent::block_total(extents->0@) == count
        &&& extents is None ==> after == before
    } by {
        if extents is Some {
            lemma_allocation_accounted((*bitmap)@, count as int, extents->0@);
        }
    }
}

} // verus!
