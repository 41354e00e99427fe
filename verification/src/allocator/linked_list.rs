//! A first-fit allocator over an address-ordered list of free blocks.
//!
//! Free memory is kept as a list of blocks sorted by address. Allocation
//! searches the list from the beginning for the first block that can hold the
//! request at the requested alignment; deallocation puts the block back in
//! address order and merges it with the free blocks it touches.
//!
//! Every block is a multiple of [`NODE_SIZE`] bytes long and starts at a
//! multiple of [`NODE_SIZE`]; requested sizes and alignments are rounded up
//! to multiples of [`NODE_SIZE`].
use vstd::prelude::*;

use super::layout::Layout;

verus! {

use vstd::arithmetic::div_mod::{lemma_fundamental_div_mod, lemma_mod_multiples_basic, lemma_mod_mod};
use vstd::arithmetic::power2::is_pow2;

/// The granularity of the allocator: the size and alignment of the header
/// that a free block holds.
pub const NODE_SIZE: usize = 16;

/// A free block of memory: the addresses `start..start + size`.
#[derive(Clone, Copy, Debug, PartialEq, Eq, Structural)]
pub struct FreeBlock {
    pub start: usize,
    pub size: usize,
}

/// One past the last address of the block.
pub open spec fn block_end(b: FreeBlock) -> int {
    b.start + b.size
}

/// `a` lies in `start..start + size`.
pub open spec fn in_range(a: int, start: int, size: int) -> bool {
    start <= a < start + size
}

/// A block that the allocator can keep: it starts at a non-null multiple of
/// [`NODE_SIZE`], is a non-zero multiple of [`NODE_SIZE`] long, and ends
/// within the address space.
pub open spec fn block_wf(b: FreeBlock) -> bool {
    &&& b.start > 0
    &&& b.start % 16 == 0
    &&& b.size >= 16
    &&& b.size % 16 == 0
    &&& block_end(b) <= usize::MAX
}

/// A well-formed free list: every block is well formed, and the blocks are
/// sorted by address with a gap between any two of them (blocks that touch
/// are always merged).
pub open spec fn blocks_wf(s: Seq<FreeBlock>) -> bool {
    &&& forall|i: int| 0 <= i < s.len() ==> block_wf(#[trigger] s[i])
    &&& forall|i: int, j: int| 0 <= i < j < s.len() ==> block_end(#[trigger] s[i]) < (#[trigger] s[j]).start
}

/// Address `a` is free: some block of `s` contains it.
pub open spec fn covers(s: Seq<FreeBlock>, a: int) -> bool {
    exists|i: int| 0 <= i < s.len() && in_range(a, s[i].start as int, s[i].size as int)
}

/// `x` rounded up to the next multiple of `m`.
pub open spec fn next_multiple_of(x: int, m: int) -> int {
    if x % m == 0 {
        x
    } else {
        x + (m - x % m)
    }
}

/// The number of bytes to add to `addr` to make it a multiple of `align`.
pub open spec fn align_offset(addr: int, align: int) -> int {
    if addr % align == 0 {
        0
    } else {
        align - addr % align
    }
}

/// The size that the allocator uses for a request: rounded up to a multiple
/// of [`NODE_SIZE`].
pub open spec fn request_size(layout: Layout) -> int {
    next_multiple_of(layout.spec_size() as int, 16)
}

/// The alignment that the allocator uses for a request: rounded up to a
/// multiple of [`NODE_SIZE`].
pub open spec fn request_align(layout: Layout) -> int {
    next_multiple_of(layout.spec_align() as int, 16)
}

/// Where an allocation of `align`-aligned memory from block `b` starts.
pub open spec fn aligned_start(b: FreeBlock, align: int) -> int {
    b.start + align_offset(b.start as int, align)
}

/// Block `b` can hold `size` bytes at an `align`-aligned address.
pub open spec fn fits(b: FreeBlock, size: int, align: int) -> bool {
    aligned_start(b, align) + size <= block_end(b)
}

/// Block `i` is the first block of `s` that can hold the request.
pub open spec fn first_fit_at(s: Seq<FreeBlock>, i: int, size: int, align: int) -> bool {
    &&& 0 <= i < s.len()
    &&& fits(s[i], size, align)
    &&& forall|j: int| 0 <= j < i ==> !fits(#[trigger] s[j], size, align)
}

/// What stays free of block `b` once `size` bytes were taken at its first
/// `align`-aligned address: the bytes that alignment skipped before the
/// allocation, and what remains after it, each when there are any.
pub open spec fn split_parts(b: FreeBlock, size: int, align: int) -> Seq<FreeBlock> {
    let p = aligned_start(b, align);
    let e = p + size;
    (if p > b.start {
        seq![FreeBlock { start: b.start, size: (p - b.start) as usize }]
    } else {
        Seq::empty()
    }) + (if e < block_end(b) {
        seq![FreeBlock { start: e as usize, size: (block_end(b) - e) as usize }]
    } else {
        Seq::empty()
    })
}

/// The free list after `size` bytes were taken at the aligned start of block
/// `i`: the block gives way to what stays free of it.
pub open spec fn split_result(s: Seq<FreeBlock>, i: int, size: int, align: int) -> Seq<FreeBlock> {
    s.subrange(0, i) + split_parts(s[i], size, align) + s.subrange(i + 1, s.len() as int)
}

/// Allocating `size` bytes at alignment `align` from free list `old` gave
/// address `p` and left free list `new`: the first block that fits was used.
pub open spec fn allocated_first_fit(
    old: Seq<FreeBlock>,
    new: Seq<FreeBlock>,
    p: int,
    size: int,
    align: int,
) -> bool {
    exists|i: int|
        #![trigger first_fit_at(old, i, size, align)]
        first_fit_at(old, i, size, align) && p == aligned_start(old[i], align) && new
            == split_result(old, i, size, align)
}

/// Where a heap region given to [`LinkedListAllocator::add_heap`] starts once
/// aligned to [`NODE_SIZE`].
pub open spec fn heap_aligned_start(heap_start: int) -> int {
    heap_start + align_offset(heap_start, 16)
}

/// How many bytes of a heap region the allocator keeps: what follows the
/// aligned start, rounded down to a multiple of [`NODE_SIZE`].
pub open spec fn heap_aligned_size(heap_start: int, heap_size: int) -> int {
    let rest = if heap_size >= align_offset(heap_start, 16) {
        heap_size - align_offset(heap_start, 16)
    } else {
        0
    };
    rest - rest % 16
}

/// `align_offset(addr, align)` is below `align` and brings `addr` to a
/// multiple of `align`.
pub(crate) proof fn lemma_align_offset(addr: int, align: int)
    requires
        addr >= 0,
        align > 0,
    ensures
        0 <= align_offset(addr, align) < align,
        (addr + align_offset(addr, align)) % align == 0,
{
    lemma_fundamental_div_mod(addr, align);
    let q = addr / align;
    let r = addr % align;
    assert(0 <= r < align) by {
        vstd::arithmetic::div_mod::lemma_mod_bound(addr, align);
    }
    if r != 0 {
        assert(addr + (align - r) == align * (q + 1)) by (nonlinear_arith)
            requires
                addr == align * q + r,
        ;
        lemma_mod_multiples_basic(q + 1, align);
        assert((align * (q + 1)) % align == 0) by (nonlinear_arith)
            requires
                ((q + 1) * align) % align == 0,
        ;
    }
}

proof fn lemma_multiple_of_multiple_of_16(a: int, m: int)
    requires
        a >= 0,
        m > 0,
        m % 16 == 0,
        a % m == 0,
    ensures
        a % 16 == 0,
{
    lemma_fundamental_div_mod(m, 16);
    let k = m / 16;
    assert(k > 0);
    lemma_mod_mod(a, 16, k);
    assert(m == 16 * k);
}

proof fn lemma_next_multiple_of_16(x: int)
    requires
        x >= 0,
    ensures
        next_multiple_of(x, 16) % 16 == 0,
        x <= next_multiple_of(x, 16) < x + 16,
        x > 0 ==> next_multiple_of(x, 16) >= 16,
{
}

proof fn lemma_request_align_divides(align: int, p: int)
    requires
        is_pow2(align),
        p >= 0,
        p % next_multiple_of(align, 16) == 0,
    ensures
        p % align == 0,
        p % 16 == 0,
{
    reveal_with_fuel(is_pow2, 5);
    if align < 16 {
        assert(align == 1 || align == 2 || align == 4 || align == 8);
        assert(next_multiple_of(align, 16) == 16);
        lemma_fundamental_div_mod(p, 16);
        let q = p / 16;
        if align == 8 {
            assert(p == 8 * (2 * q));
            lemma_mod_multiples_basic(2 * q, 8);
        } else if align == 4 {
            assert(p == 4 * (4 * q));
            lemma_mod_multiples_basic(4 * q, 4);
        } else if align == 2 {
            assert(p == 2 * (8 * q));
            lemma_mod_multiples_basic(8 * q, 2);
        }
    } else {
        assert(align % 16 == 0) by {
            vstd::arithmetic::power2::is_pow2_equiv(align);
            lemma_pow2_at_least_16_is_multiple(align);
        }
        assert(next_multiple_of(align, 16) == align);
        lemma_multiple_of_multiple_of_16(p, align);
    }
}

proof fn lemma_pow2_at_least_16_is_multiple(n: int)
    requires
        is_pow2(n),
        n >= 16,
    ensures
        n % 16 == 0,
    decreases n,
{
    reveal(is_pow2);
    if n > 16 {
        assert(n % 2 == 0 && is_pow2(n / 2));
        if n / 2 >= 16 {
            lemma_pow2_at_least_16_is_multiple(n / 2);
        } else {
            reveal_with_fuel(is_pow2, 5);
            assert(n / 2 == 8 || n / 2 == 4 || n / 2 == 2 || n / 2 == 1);
        }
    }
}

/// Rounds `x` up to a multiple of [`NODE_SIZE`].
fn round_up_16(x: usize) -> (r: usize)
    requires
        x % 16 == 0 || x <= usize::MAX - 16,
    ensures
        r == next_multiple_of(x as int, 16),
{
    if x % 16 == 0 {
        x
    } else {
        x + (16 - x % 16)
    }
}

/// The number of bytes to add to `addr` to make it a multiple of `align`.
fn compute_align_offset(addr: usize, align: usize) -> (r: usize)
    requires
        align > 0,
    ensures
        r == align_offset(addr as int, align as int),
        r < align,
{
    let rem = addr % align;
    if rem == 0 {
        0
    } else {
        align - rem
    }
}

proof fn lemma_covers_intro(s: Seq<FreeBlock>, i: int, a: int)
    requires
        0 <= i < s.len(),
        in_range(a, s[i].start as int, s[i].size as int),
    ensures
        covers(s, a),
{
}

/// In a well-formed list, an address lies in at most one block.
proof fn lemma_covers_unique(s: Seq<FreeBlock>, i: int, j: int, a: int)
    requires
        blocks_wf(s),
        0 <= i < s.len(),
        0 <= j < s.len(),
        in_range(a, s[i].start as int, s[i].size as int),
        in_range(a, s[j].start as int, s[j].size as int),
    ensures
        i == j,
{
    if i < j {
        assert(block_end(s[i]) < s[j].start);
    } else if j < i {
        assert(block_end(s[j]) < s[i].start);
    }
}

/// Putting the blocks `r`, which lie in order inside block `i`, in the place
/// of block `i` keeps the list well formed; the free addresses are those of
/// the other blocks and those of `r`.
proof fn lemma_replace_by(s: Seq<FreeBlock>, i: int, r: Seq<FreeBlock>)
    requires
        blocks_wf(s),
        0 <= i < s.len(),
        blocks_wf(r),
        forall|k: int|
            0 <= k < r.len() ==> s[i].start <= (#[trigger] r[k]).start && block_end(r[k])
                <= block_end(s[i]),
    ensures
        blocks_wf(s.subrange(0, i) + r + s.subrange(i + 1, s.len() as int)),
        forall|a: int|
            covers(s.subrange(0, i) + r + s.subrange(i + 1, s.len() as int), a) <==> ((covers(s, a)
                && !in_range(a, s[i].start as int, s[i].size as int)) || covers(r, a)),
{
    let new = s.subrange(0, i) + r + s.subrange(i + 1, s.len() as int);
    let m = r.len() as int;
    assert(new.len() == s.len() - 1 + m);
    assert forall|x: int| 0 <= x < new.len() implies #[trigger] new[x] == (if x < i {
        s[x]
    } else if x < i + m {
        r[x - i]
    } else {
        s[x - m + 1]
    }) by {}
    assert forall|x: int| 0 <= x < new.len() implies block_wf(#[trigger] new[x]) by {
        if x < i {
        } else if x < i + m {
            assert(block_wf(r[x - i]));
        } else {
            assert(block_wf(s[x - m + 1]));
        }
    }
    assert forall|x: int, y: int| 0 <= x < y < new.len() implies block_end(#[trigger] new[x])
        < (#[trigger] new[y]).start by {
        if x < i {
            if y < i {
                assert(block_end(s[x]) < s[y].start);
            } else if y < i + m {
                assert(block_end(s[x]) < s[i].start);
                assert(s[i].start <= r[y - i].start);
            } else {
                assert(block_end(s[x]) < s[y - m + 1].start);
            }
        } else if x < i + m {
            if y < i + m {
                assert(block_end(r[x - i]) < r[y - i].start);
            } else {
                assert(block_end(r[x - i]) <= block_end(s[i]));
                assert(block_end(s[i]) < s[y - m + 1].start);
            }
        } else {
            assert(block_end(s[x - m + 1]) < s[y - m + 1].start);
        }
    }
    assert forall|a: int|
        covers(new, a) <==> ((covers(s, a) && !in_range(a, s[i].start as int, s[i].size as int))
            || covers(r, a)) by {
        if covers(new, a) {
            let x = choose|x: int|
                0 <= x < new.len() && in_range(a, new[x].start as int, new[x].size as int);
            if x < i {
                lemma_covers_intro(s, x, a);
                if in_range(a, s[i].start as int, s[i].size as int) {
                    lemma_covers_unique(s, x, i, a);
                }
            } else if x < i + m {
                lemma_covers_intro(r, x - i, a);
            } else {
                lemma_covers_intro(s, x - m + 1, a);
                if in_range(a, s[i].start as int, s[i].size as int) {
                    lemma_covers_unique(s, x - m + 1, i, a);
                }
            }
        }
        if covers(s, a) && !in_range(a, s[i].start as int, s[i].size as int) {
            let j = choose|j: int| 0 <= j < s.len() && in_range(a, s[j].start as int, s[j].size as int);
            if j < i {
                lemma_covers_intro(new, j, a);
            } else {
                assert(j != i);
                lemma_covers_intro(new, j + m - 1, a);
            }
        }
        if covers(r, a) {
            let k = choose|k: int| 0 <= k < r.len() && in_range(a, r[k].start as int, r[k].size as int);
            lemma_covers_intro(new, i + k, a);
        }
    }
}

/// What stays free of a block that fits a request is well formed, lies in
/// the block, and holds the block's addresses but those taken.
proof fn lemma_split_parts(b: FreeBlock, size: int, align: int)
    requires
        block_wf(b),
        fits(b, size, align),
        size >= 16,
        size % 16 == 0,
        align > 0,
        align % 16 == 0,
    ensures
        blocks_wf(split_parts(b, size, align)),
        forall|k: int|
            0 <= k < split_parts(b, size, align).len() ==> b.start <= (#[trigger] split_parts(
                b,
                size,
                align,
            )[k]).start && block_end(split_parts(b, size, align)[k]) <= block_end(b),
        forall|a: int|
            covers(split_parts(b, size, align), a) <==> (in_range(a, b.start as int, b.size as int)
                && !in_range(a, aligned_start(b, align), size)),
{
    lemma_align_offset(b.start as int, align);
    let p = aligned_start(b, align);
    lemma_multiple_of_multiple_of_16(p, align);
    let e = p + size;
    let pad = FreeBlock { start: b.start, size: (p - b.start) as usize };
    let rest = FreeBlock { start: e as usize, size: (block_end(b) - e) as usize };
    let r = split_parts(b, size, align);
    if p > b.start {
        assert(block_wf(pad));
    }
    if e < block_end(b) {
        assert(block_wf(rest));
    }
    assert forall|a: int| covers(r, a) <==> (in_range(a, b.start as int, b.size as int) && !in_range(
        a,
        p,
        size,
    )) by {
        if covers(r, a) {
            let k = choose|k: int| 0 <= k < r.len() && in_range(a, r[k].start as int, r[k].size as int);
            assert(r[k] == pad || r[k] == rest);
        }
        if in_range(a, b.start as int, b.size as int) && !in_range(a, p, size) {
            if a < p {
                assert(r[0] == pad);
                lemma_covers_intro(r, 0, a);
            } else {
                assert(r[r.len() - 1] == rest);
                lemma_covers_intro(r, r.len() - 1, a);
            }
        }
    }
}

/// Taking memory from a block that fits leaves exactly the old free
/// addresses but those taken.
proof fn lemma_split_result(s: Seq<FreeBlock>, i: int, size: int, align: int)
    requires
        blocks_wf(s),
        0 <= i < s.len(),
        fits(s[i], size, align),
        size >= 16,
        size % 16 == 0,
        align > 0,
        align % 16 == 0,
    ensures
        blocks_wf(split_result(s, i, size, align)),
        aligned_start(s[i], align) % align == 0,
        aligned_start(s[i], align) % 16 == 0,
        forall|a: int|
            covers(split_result(s, i, size, align), a) <==> (covers(s, a) && !in_range(
                a,
                aligned_start(s[i], align),
                size,
            )),
{
    let b = s[i];
    lemma_align_offset(b.start as int, align);
    lemma_multiple_of_multiple_of_16(aligned_start(b, align), align);
    lemma_split_parts(b, size, align);
    lemma_replace_by(s, i, split_parts(b, size, align));
    assert forall|a: int|
        covers(split_result(s, i, size, align), a) <==> (covers(s, a) && !in_range(
            a,
            aligned_start(b, align),
            size,
        )) by {
        if covers(s, a) && in_range(a, b.start as int, b.size as int) {
        }
        if in_range(a, b.start as int, b.size as int) {
            lemma_covers_intro(s, i, a);
        }
    }
}

/// A linked list allocator: hands out memory from a list of free blocks kept
/// in address order, first fit, and merges adjacent free blocks when memory
/// comes back.
pub struct LinkedListAllocator {
    blocks: Vec<FreeBlock>,
}

impl View for LinkedListAllocator {
    type V = Seq<FreeBlock>;

    /// The free blocks, in address order.
    closed spec fn view(&self) -> Seq<FreeBlock> {
        self.blocks@
    }
}

impl LinkedListAllocator {
    /// The free list is well formed.
    pub open spec fn wf(&self) -> bool {
        blocks_wf(self@)
    }

    /// Creates an allocator with no memory.
    pub fn new() -> (r: Self)
        ensures
            r.wf(),
            r@ == Seq::<FreeBlock>::empty(),
    {
        LinkedListAllocator { blocks: Vec::new() }
    }

    /// The size and alignment that a request is served with: both rounded up
    /// to multiples of [`NODE_SIZE`].
    fn size_align(layout: Layout) -> (r: (usize, usize))
        requires
            layout.spec_size() > 0,
        ensures
            r.0 == request_size(layout),
            r.1 == request_align(layout),
            r.0 % 16 == 0,
            r.0 >= 16,
            r.1 % 16 == 0,
            r.1 >= 16,
            is_pow2(layout.spec_align() as int),
    {
        let size = layout.size();
        let align = layout.align();
        proof {
            vstd::arithmetic::power2::is_pow2_equiv(align as int);
            reveal(is_pow2);
            lemma_next_multiple_of_16(size as int);
            lemma_next_multiple_of_16(align as int);
        }
        assert(align > 0) by {
            reveal(is_pow2);
        }
        if align % 16 != 0 && align >= 16 {
            proof {
                lemma_pow2_at_least_16_is_multiple(align as int);
            }
        }
        (round_up_16(size), round_up_16(align))
    }

    /// Puts a block back into the free list, merging it with the blocks that
    /// it touches.
    #[verifier::spinoff_prover]
    fn insert_free_node(&mut self, node: FreeBlock)
        requires
            old(self).wf(),
            block_wf(node),
            forall|a: int|
                in_range(a, node.start as int, node.size as int) ==> !covers(old(self)@, a),
        ensures
            final(self).wf(),
            forall|a: int|
                covers(final(self)@, a) <==> (covers(old(self)@, a) || in_range(
                    a,
                    node.start as int,
                    node.size as int,
                )),
    {
        let ghost s = self@;
        let n = self.blocks.len();
        let mut k: usize = 0;
        while k < n && self.blocks[k].start < node.start
            invariant
                self@ == s,
                n == s.len(),
                k <= n,
                forall|j: int| 0 <= j < k ==> (#[trigger] s[j]).start < node.start,
            decreases n - k,
        {
            k = k + 1;
        }
        // Blocks before position `k` end at or before the new block; blocks
        // from `k` on start at or after its end.
        assert forall|j: int| 0 <= j < k implies block_end(#[trigger] s[j]) <= node.start by {
            if block_end(s[j]) > node.start {
                assert(in_range(node.start as int, s[j].start as int, s[j].size as int));
                lemma_covers_intro(s, j, node.start as int);
            }
        }
        assert forall|j: int| k <= j < n implies block_end(node) <= (#[trigger] s[j]).start by {
            if j == k {
                if s[j].start < block_end(node) {
                    assert(s[j].start >= node.start);
                    assert(in_range(s[j].start as int, node.start as int, node.size as int));
                    lemma_covers_intro(s, j, s[j].start as int);
                }
            } else {
                assert(block_end(s[k as int]) < s[j].start);
                if s[j].start < block_end(node) {
                    assert(in_range(s[k as int].start as int, node.start as int, node.size as int));
                    lemma_covers_intro(s, k as int, s[k as int].start as int);
                }
            }
        }
        let merge_prev = k > 0 && self.blocks[k - 1].start + self.blocks[k - 1].size == node.start;
        let merge_next = k < n && node.start + node.size == self.blocks[k].start;
        if merge_prev && merge_next {
            let prev = self.blocks[k - 1];
            let next = self.blocks[k];
            let merged = FreeBlock { start: prev.start, size: prev.size + node.size + next.size };
            self.blocks.set(k - 1, merged);
            self.blocks.remove(k);
            proof {
                let km = k - 1;
                let t = s.update(km as int, merged);
                assert(self@ == t.remove(k as int));
                assert(block_end(merged) == block_end(next));
                lemma_merge_both(self@, s, km as int, node, merged);
            }
        } else if merge_prev {
            let prev = self.blocks[k - 1];
            let merged = FreeBlock { start: prev.start, size: prev.size + node.size };
            self.blocks.set(k - 1, merged);
            proof {
                lemma_replace_block(self@, s, (k - 1) as int, node, merged);
                assert(self@ == s.update((k - 1) as int, merged));
            }
        } else if merge_next {
            let next = self.blocks[k];
            let merged = FreeBlock { start: node.start, size: node.size + next.size };
            self.blocks.set(k, merged);
            proof {
                lemma_replace_block(self@, s, k as int, node, merged);
                assert(self@ == s.update(k as int, merged));
            }
        } else {
            self.blocks.insert(k, node);
            proof {
                lemma_insert_block(self@, s, k as int, node);
                assert(self@ == s.insert(k as int, node));
            }
        }
    }

}

proof fn lemma_merge_both(new: Seq<FreeBlock>, s: Seq<FreeBlock>, km: int, node: FreeBlock, merged: FreeBlock)
    requires
        blocks_wf(s),
        block_wf(node),
        0 <= km,
        km + 1 < s.len(),
        block_end(s[km]) == node.start,
        block_end(node) == s[km + 1].start,
        merged.start == s[km].start,
        block_end(merged) == block_end(s[km + 1]),
        new == s.update(km, merged).remove(km + 1),
    ensures
        blocks_wf(new),
        forall|a: int|
            covers(new, a) <==> (covers(s, a) || in_range(
                a,
                node.start as int,
                node.size as int,
            )),
{
    assert(new.len() == s.len() - 1);
    assert forall|j: int| 0 <= j < new.len() implies new[j] == (if j < km {
        s[j]
    } else if j == km {
        merged
    } else {
        s[j + 1]
    }) by {}
    assert forall|x: int| 0 <= x < new.len() implies block_wf(#[trigger] new[x]) by {
        if x != km {
            let x0 = if x < km { x } else { x + 1 };
            assert(block_wf(s[x0]));
        } else {
            assert(block_wf(s[km]));
            assert(block_wf(s[km + 1]));
        }
    }
    assert forall|x: int, y: int| 0 <= x < y < new.len() implies block_end(
        #[trigger] new[x],
    ) < (#[trigger] new[y]).start by {
        let x0 = if x <= km { x } else { x + 1 };
        let y0 = if y <= km { y } else { y + 1 };
        if x == km {
            assert(block_end(s[km + 1]) < s[y0].start);
        } else if y == km {
            assert(block_end(s[x0]) < s[km].start);
        } else {
            assert(block_end(s[x0]) < s[y0].start);
        }
    }
    assert forall|a: int|
        covers(new, a) <==> (covers(s, a) || in_range(
            a,
            node.start as int,
            node.size as int,
        )) by {
        if covers(new, a) {
            let j = choose|j: int|
                0 <= j < new.len() && in_range(a, new[j].start as int, new[j].size as int);
            if j < km {
                lemma_covers_intro(s, j, a);
            } else if j > km {
                lemma_covers_intro(s, j + 1, a);
            } else {
                if a < node.start {
                    lemma_covers_intro(s, km, a);
                } else if a >= block_end(node) {
                    lemma_covers_intro(s, km + 1, a);
                }
            }
        }
        if covers(s, a) {
            let j = choose|j: int|
                0 <= j < s.len() && in_range(a, s[j].start as int, s[j].size as int);
            if j < km {
                lemma_covers_intro(new, j, a);
            } else if j > km + 1 {
                lemma_covers_intro(new, j - 1, a);
            } else {
                lemma_covers_intro(new, km, a);
            }
        }
        if in_range(a, node.start as int, node.size as int) {
            lemma_covers_intro(new, km, a);
        }
    }
}

impl LinkedListAllocator {
    /// Adds a heap region to the allocator: its part that starts and ends at
    /// multiples of [`NODE_SIZE`] becomes free. A region too small to hold
    /// such a part is ignored.
    pub fn add_heap(&mut self, heap_start: usize, heap_size: usize)
        requires
            old(self).wf(),
            heap_start > 0,
            heap_start + heap_size <= usize::MAX,
            forall|a: int| in_range(a, heap_start as int, heap_size as int) ==> !covers(old(self)@, a),
        ensures
            final(self).wf(),
            forall|a: int|
                covers(final(self)@, a) <==> (covers(old(self)@, a) || in_range(
                    a,
                    heap_aligned_start(heap_start as int),
                    heap_aligned_size(heap_start as int, heap_size as int),
                )),
    {
        let align_offset = compute_align_offset(heap_start, NODE_SIZE);
        proof {
            lemma_align_offset(heap_start as int, 16);
        }
        let aligned_heap_size = heap_size.saturating_sub(align_offset) / NODE_SIZE * NODE_SIZE;
        if aligned_heap_size == 0 {
            return;
        }
        let aligned_heap_start = heap_start + align_offset;
        let node = FreeBlock { start: aligned_heap_start, size: aligned_heap_size };
        assert(block_wf(node));
        assert(aligned_heap_start + aligned_heap_size <= heap_start + heap_size);
        assert forall|a: int| in_range(a, node.start as int, node.size as int) implies !covers(
            old(self)@,
            a,
        ) by {
            assert(in_range(a, heap_start as int, heap_size as int));
        }
        self.insert_free_node(node);
    }

    /// Allocates memory for `layout`: the first free block that can hold the
    /// rounded-up request at the rounded-up alignment gives it from its first
    /// suitably aligned address; the bytes of the block before and after the
    /// allocation stay free. Returns `None` when no block can.
    pub fn allocate(&mut self, layout: Layout) -> (r: Option<usize>)
        requires
            old(self).wf(),
            old(self)@.len() > 0 ==> layout.spec_size() > 0,
        ensures
            final(self).wf(),
            r is None <==> forall|i: int|
                0 <= i < old(self)@.len() ==> !fits(
                    #[trigger] old(self)@[i],
                    request_size(layout),
                    request_align(layout),
                ),
            r is None ==> final(self)@ == old(self)@,
            forall|a: int| covers(final(self)@, a) ==> covers(old(self)@, a),
            r matches Some(p) ==> {
                &&& p % layout.spec_align() == 0
                &&& p % 16 == 0
                &&& allocated_first_fit(
                    old(self)@,
                    final(self)@,
                    p as int,
                    request_size(layout),
                    request_align(layout),
                )
                &&& forall|a: int|
                    in_range(a, p as int, request_size(layout)) ==> covers(old(self)@, a)
                        && !covers(final(self)@, a)
                &&& forall|a: int|
                    covers(final(self)@, a) <==> (covers(old(self)@, a) && !in_range(
                        a,
                        p as int,
                        request_size(layout),
                    ))
            },
    {
        if self.blocks.len() == 0 {
            return None;
        }
        let (size, align) = Self::size_align(layout);
        let ghost s = self@;
        let n = self.blocks.len();
        let mut i: usize = 0;
        while i < n
            invariant
                self@ == s,
                s == old(self)@,
                is_pow2(layout.spec_align() as int),
                blocks_wf(s),
                n == s.len(),
                i <= n,
                size == request_size(layout),
                align == request_align(layout),
                size % 16 == 0,
                size >= 16,
                align % 16 == 0,
                align >= 16,
                forall|j: int| 0 <= j < i ==> !fits(#[trigger] s[j], size as int, align as int),
            decreases n - i,
        {
            let b = self.blocks[i];
            proof {
                lemma_align_offset(b.start as int, align as int);
            }
            if let Some((alloc_start, alloc_end)) = Self::try_fit(b, size, align) {
                let ghost sz = size as int;
                let ghost al = align as int;
                proof {
                    lemma_split_result(s, i as int, sz, al);
                    lemma_request_align_divides(layout.spec_align() as int, alloc_start as int);
                    assert(first_fit_at(s, i as int, sz, al));
                    assert(fits(old(self)@[i as int], sz, al));
                }
                let end = b.start + b.size;
                let ghost parts = split_parts(b, sz, al);
                let ghost before = s.subrange(0, i as int);
                let ghost after = s.subrange(i + 1, s.len() as int);
                if alloc_start > b.start {
                    let pad = FreeBlock { start: b.start, size: alloc_start - b.start };
                    self.blocks.set(i, pad);
                    if alloc_end < end {
                        self.blocks.insert(i + 1, FreeBlock { start: alloc_end, size: end - alloc_end });
                    }
                } else if alloc_end < end {
                    self.blocks.set(i, FreeBlock { start: alloc_end, size: end - alloc_end });
                } else {
                    self.blocks.remove(i);
                }
                proof {
                    assert(self@ =~= before + parts + after);
                    assert forall|a: int| in_range(a, alloc_start as int, sz) implies covers(s, a)
                        && !covers(self@, a) by {
                        lemma_covers_intro(s, i as int, a);
                    }
                }
                return Some(alloc_start);
            }
            i = i + 1;
        }
        None
    }

    /// Where an allocation of `size` bytes aligned to `align` would lie in
    /// block `b`, if the block can hold it.
    fn try_fit(b: FreeBlock, size: usize, align: usize) -> (r: Option<(usize, usize)>)
        requires
            block_wf(b),
            align > 0,
        ensures
            r is Some <==> fits(b, size as int, align as int),
            r matches Some((s, e)) ==> s == aligned_start(b, align as int) && e == s + size,
    {
        let offset = compute_align_offset(b.start, align);
        let alloc_start = match b.start.checked_add(offset) {
            Some(x) => x,
            None => return None,
        };
        let alloc_end = match alloc_start.checked_add(size) {
            Some(x) => x,
            None => return None,
        };
        if alloc_end > b.start + b.size {
            return None;
        }
        Some((alloc_start, alloc_end))
    }

    /// Gives back memory obtained from [`Self::allocate`] with the same
    /// layout. It becomes free again and merges with the free blocks it
    /// touches.
    pub fn deallocate(&mut self, ptr: usize, layout: Layout)
        requires
            old(self).wf(),
            layout.spec_size() > 0,
            ptr > 0,
            ptr % 16 == 0,
            ptr + request_size(layout) <= usize::MAX,
            forall|a: int| in_range(a, ptr as int, request_size(layout)) ==> !covers(old(self)@, a),
        ensures
            final(self).wf(),
            forall|a: int|
                covers(final(self)@, a) <==> (covers(old(self)@, a) || in_range(
                    a,
                    ptr as int,
                    request_size(layout),
                )),
    {
        let (size, _align) = Self::size_align(layout);
        let node = FreeBlock { start: ptr, size };
        self.insert_free_node(node);
    }
}

proof fn lemma_replace_block(new: Seq<FreeBlock>, s: Seq<FreeBlock>, k: int, node: FreeBlock, merged: FreeBlock)
    requires
        new == s.update(k, merged),
        blocks_wf(s),
        block_wf(node),
        0 <= k < s.len(),
        (block_end(s[k]) == node.start && merged.start == s[k].start && block_end(merged)
            == block_end(node)) || (block_end(node) == s[k].start && merged.start == node.start
            && block_end(merged) == block_end(s[k])),
        k > 0 ==> block_end(s[k - 1]) < merged.start,
        k + 1 < s.len() ==> block_end(merged) < s[k + 1].start,
    ensures
        blocks_wf(new),
        forall|a: int|
            covers(new, a) <==> (covers(s, a) || in_range(
                a,
                node.start as int,
                node.size as int,
            )),
{
    assert(block_wf(merged));
    assert forall|x: int, y: int| 0 <= x < y < new.len() implies block_end(#[trigger] new[x])
        < (#[trigger] new[y]).start by {
        if x == k {
            if y > k + 1 {
                assert(block_end(s[k + 1]) < s[y].start);
            }
        } else if y == k {
            if x < k - 1 {
                assert(block_end(s[x]) < s[k - 1].start);
            }
        } else {
            assert(block_end(s[x]) < s[y].start);
        }
    }
    assert forall|a: int|
        covers(new, a) <==> (covers(s, a) || in_range(a, node.start as int, node.size as int)) by {
        if covers(new, a) {
            let j = choose|j: int|
                0 <= j < new.len() && in_range(a, new[j].start as int, new[j].size as int);
            if j != k {
                lemma_covers_intro(s, j, a);
            } else if in_range(a, s[k].start as int, s[k].size as int) {
                lemma_covers_intro(s, k, a);
            }
        }
        if covers(s, a) {
            let j = choose|j: int|
                0 <= j < s.len() && in_range(a, s[j].start as int, s[j].size as int);
            lemma_covers_intro(new, j, a);
        }
        if in_range(a, node.start as int, node.size as int) {
            lemma_covers_intro(new, k, a);
        }
    }
}

proof fn lemma_insert_block(new: Seq<FreeBlock>, s: Seq<FreeBlock>, k: int, node: FreeBlock)
    requires
        new == s.insert(k, node),
        blocks_wf(s),
        block_wf(node),
        0 <= k <= s.len(),
        k > 0 ==> block_end(s[k - 1]) < node.start,
        k < s.len() ==> block_end(node) < s[k].start,
    ensures
        blocks_wf(new),
        forall|a: int|
            covers(new, a) <==> (covers(s, a) || in_range(
                a,
                node.start as int,
                node.size as int,
            )),
{
    assert forall|j: int| 0 <= j < new.len() implies new[j] == (if j < k {
        s[j]
    } else if j == k {
        node
    } else {
        s[j - 1]
    }) by {}
    assert forall|x: int| 0 <= x < new.len() implies block_wf(#[trigger] new[x]) by {
        if x < k {
            assert(block_wf(s[x]));
        } else if x > k {
            assert(block_wf(s[x - 1]));
        }
    }
    assert forall|x: int, y: int| 0 <= x < y < new.len() implies block_end(#[trigger] new[x])
        < (#[trigger] new[y]).start by {
        let x0 = if x < k { x } else { x - 1 };
        let y0 = if y < k { y } else { y - 1 };
        if x == k {
            if y > k + 1 {
                assert(block_end(s[k]) < s[y0].start);
            }
        } else if y == k {
            if x < k - 1 {
                assert(block_end(s[x]) < s[k - 1].start);
            }
        } else {
            assert(block_end(s[x0]) < s[y0].start);
        }
    }
    assert forall|a: int|
        covers(new, a) <==> (covers(s, a) || in_range(a, node.start as int, node.size as int)) by {
        if covers(new, a) {
            let j = choose|j: int|
                0 <= j < new.len() && in_range(a, new[j].start as int, new[j].size as int);
            if j < k {
                lemma_covers_intro(s, j, a);
            } else if j > k {
                lemma_covers_intro(s, j - 1, a);
            }
        }
        if covers(s, a) {
            let j = choose|j: int|
                0 <= j < s.len() && in_range(a, s[j].start as int, s[j].size as int);
            if j < k {
                lemma_covers_intro(new, j, a);
            } else {
                lemma_covers_intro(new, j + 1, a);
            }
        }
        if in_range(a, node.start as int, node.size as int) {
            lemma_covers_intro(new, k, a);
        }
    }
}

/// Giving an allocation back frees what allocating it took: the free
/// memory is again what it was before the allocation.
pub proof fn law_deallocate_undoes_allocate(
    old: Seq<FreeBlock>,
    mid: Seq<FreeBlock>,
    after: Seq<FreeBlock>,
    layout: Layout,
    p: int,
)
    requires
        blocks_wf(old),
        vstd::layout::valid_layout(layout.spec_size(), layout.spec_align()),
        layout.spec_size() > 0,
        allocated_first_fit(old, mid, p, request_size(layout), request_align(layout)),
        forall|a: int|
            covers(after, a) <==> (covers(mid, a) || in_range(a, p, request_size(layout))),
    ensures
        forall|a: int| covers(after, a) <==> covers(old, a),
{
    let size = request_size(layout);
    let align = request_align(layout);
    let i = choose|i: int|
        #![trigger first_fit_at(old, i, size, align)]
        first_fit_at(old, i, size, align) && p == aligned_start(old[i], align) && mid
            == split_result(old, i, size, align);
    lemma_next_multiple_of_16(layout.spec_size() as int);
    lemma_next_multiple_of_16(layout.spec_align() as int);
    assert(layout.spec_align() > 0) by {
        reveal(vstd::arithmetic::power2::is_pow2);
    }
    lemma_split_result(old, i, size, align);
    lemma_align_offset(old[i].start as int, align);
    assert forall|a: int| covers(after, a) <==> covers(old, a) by {
        if in_range(a, p, size) {
            lemma_covers_intro(old, i, a);
        }
    }
}

impl Default for LinkedListAllocator {
    /// An allocator with no memory, as [`LinkedListAllocator::new`].
    fn default() -> (r: Self)
        ensures
            r.wf(),
            r@ == Seq::<FreeBlock>::empty(),
    {
        LinkedListAllocator::new()
    }
}

} // verus!
