//! An allocator that serves common small sizes from per-size free lists.
//!
//! Requests of at most 2048 bytes are served from the list of the smallest
//! block size that holds them; such a list refills itself with a 4096-byte
//! arena taken from a fallback allocator. Larger requests go to the fallback
//! allocator directly.
use vstd::prelude::*;

use super::layout::Layout;
use super::linked_list::LinkedListAllocator;

verus! {

use super::linked_list::{
    FreeBlock,
    covers,
    fits,
    in_range,
    request_size,
    request_align,
    allocated_first_fit,
    heap_aligned_start,
    heap_aligned_size,
    next_multiple_of,
    blocks_wf,
};
use vstd::arithmetic::power2::is_pow2;
use vstd::layout::valid_layout;

/// The number of block sizes that have their own free list.
pub const BLOCK_SIZES_LEN: usize = 9;

/// The size and alignment of an arena that a block list takes from the
/// fallback allocator.
pub const ARENA_SIZE: usize = 4096;

/// The block sizes, smallest first: 8, 16, 32, ..., 2048 bytes.
pub open spec fn spec_block_size(index: int) -> int {
    if index == 0 {
        8
    } else if index == 1 {
        16
    } else if index == 2 {
        32
    } else if index == 3 {
        64
    } else if index == 4 {
        128
    } else if index == 5 {
        256
    } else if index == 6 {
        512
    } else if index == 7 {
        1024
    } else {
        2048
    }
}

/// The index of the smallest block size, searching from `from` on, that
/// holds `size` bytes; `None` when no block size does.
pub open spec fn block_index_from(size: int, from: int) -> Option<int>
    decreases BLOCK_SIZES_LEN - from,
{
    if from < 0 || from >= BLOCK_SIZES_LEN {
        None
    } else if spec_block_size(from) >= size {
        Some(from)
    } else {
        block_index_from(size, from + 1)
    }
}

/// The index of the smallest block size that holds `size` bytes; `None`
/// when the request is larger than every block size.
pub open spec fn block_index(size: int) -> Option<int> {
    block_index_from(size, 0)
}

/// The block size at `index`.
pub fn block_size(index: usize) -> (r: usize)
    requires
        index < BLOCK_SIZES_LEN,
    ensures
        r == spec_block_size(index as int),
{
    match index {
        0 => 8,
        1 => 16,
        2 => 32,
        3 => 64,
        4 => 128,
        5 => 256,
        6 => 512,
        7 => 1024,
        _ => 2048,
    }
}

/// The index of the block list that serves `layout`, or `None` when the
/// request is too large for every block list.
pub fn list_index(layout: &Layout) -> (r: Option<usize>)
    requires
        layout.spec_size() >= layout.spec_align(),
    ensures
        r == (match block_index(layout.spec_size() as int) {
            Some(i) => Some(i as usize),
            None => None::<usize>,
        }),
        valid_layout(layout.spec_size(), layout.spec_align()),
{
    let required_block_size = layout.size();
    let mut i: usize = 0;
    while i < BLOCK_SIZES_LEN
        invariant
            i <= BLOCK_SIZES_LEN,
            required_block_size == layout.spec_size(),
            valid_layout(layout.spec_size(), layout.spec_align()),
            block_index(required_block_size as int) == block_index_from(
                required_block_size as int,
                i as int,
            ),
        decreases BLOCK_SIZES_LEN - i,
    {
        if block_size(i) >= required_block_size {
            return Some(i);
        }
        i = i + 1;
    }
    None
}

proof fn lemma_block_sizes_valid(index: int)
    requires
        0 <= index < BLOCK_SIZES_LEN,
    ensures
        valid_layout(spec_block_size(index) as usize, spec_block_size(index) as usize),
        spec_block_size(index) % 8 == 0,
{
    reveal_with_fuel(is_pow2, 13);
    assert(is_pow2(spec_block_size(index)));
}

/// The layout of a block of the list at `index`: size and alignment both
/// the block size.
pub fn alloc_layout(index: usize) -> (r: Layout)
    requires
        index < BLOCK_SIZES_LEN,
    ensures
        r.spec_size() == spec_block_size(index as int),
        r.spec_align() == spec_block_size(index as int),
{
    let size = block_size(index);
    proof {
        lemma_block_sizes_valid(index as int);
    }
    Layout::from_size_align(size, size).unwrap()
}

/// The layout of an arena: 4096 bytes aligned to 4096 bytes.
pub fn arena_layout() -> (r: Layout)
    ensures
        r.spec_size() == ARENA_SIZE,
        r.spec_align() == ARENA_SIZE,
{
    proof {
        reveal_with_fuel(is_pow2, 13);
        assert(is_pow2(4096));
    }
    Layout::from_size_align(ARENA_SIZE, ARENA_SIZE).unwrap()
}

/// The number of bytes that an allocation of `layout` takes out of the free
/// lists: the block size rounded up to the list granularity for small
/// requests, the request size rounded up to it for large ones.
pub open spec fn allocation_size(layout: Layout) -> int {
    match block_index(layout.spec_size() as int) {
        Some(i) => next_multiple_of(spec_block_size(i), 16),
        None => request_size(layout),
    }
}

/// Free lists do not share any address.
pub open spec fn lists_disjoint(lists: Seq<Seq<FreeBlock>>) -> bool {
    forall|k1: int, k2: int, a: int|
        0 <= k1 < lists.len() && 0 <= k2 < lists.len() && k1 != k2 ==> !(#[trigger] covers(
            lists[k1],
            a,
        ) && #[trigger] covers(lists[k2], a))
}

/// Some free list of `lists` holds address `a`.
pub open spec fn free_in(lists: Seq<Seq<FreeBlock>>, a: int) -> bool {
    exists|k: int| 0 <= k < lists.len() && #[trigger] covers(lists[k], a)
}

/// A large request was served by the fallback allocator alone, first fit.
pub open spec fn served_by_fallback(
    old: Seq<Seq<FreeBlock>>,
    new: Seq<Seq<FreeBlock>>,
    layout: Layout,
    r: Option<usize>,
) -> bool {
    let fb = fallback_index();
    &&& forall|k: int| 0 <= k < BLOCK_SIZES_LEN ==> #[trigger] new[k] == old[k]
    &&& (r is None <==> forall|j: int|
        0 <= j < old[fb].len() ==> !fits(
            #[trigger] old[fb][j],
            request_size(layout),
            request_align(layout),
        ))
    &&& (r matches Some(p) ==> allocated_first_fit(
        old[fb],
        new[fb],
        p as int,
        request_size(layout),
        request_align(layout),
    ))
}

/// No block of `s` can hold `size` bytes at alignment `align`.
pub open spec fn no_fit(s: Seq<FreeBlock>, size: int, align: int) -> bool {
    forall|j: int| 0 <= j < s.len() ==> !fits(#[trigger] s[j], size, align)
}

/// Block list `old_list`, which had no room, took a 4096-byte arena from the
/// fallback list `old_fb` (first fit), and then served the request from
/// the refilled list (first fit).
pub open spec fn refilled(
    old_list: Seq<FreeBlock>,
    old_fb: Seq<FreeBlock>,
    new_list: Seq<FreeBlock>,
    new_fb: Seq<FreeBlock>,
    p: int,
    bs: int,
) -> bool {
    exists|q: int, mid: Seq<FreeBlock>|
        #![trigger allocated_first_fit(old_fb, new_fb, q, 4096, 4096), blocks_wf(mid)]
        {
            &&& allocated_first_fit(old_fb, new_fb, q, 4096, 4096)
            &&& blocks_wf(mid)
            &&& (forall|a: int| covers(mid, a) <==> (covers(old_list, a) || in_range(a, q, 4096)))
            &&& allocated_first_fit(mid, new_list, p, bs, bs)
        }
}

/// A small request was served by block list `i`: from its own blocks when
/// one had room, else from an arena that it took from the fallback list.
pub open spec fn served_by_block_list(
    old: Seq<Seq<FreeBlock>>,
    new: Seq<Seq<FreeBlock>>,
    i: int,
    r: Option<usize>,
) -> bool {
    let fb = fallback_index();
    let bs = next_multiple_of(spec_block_size(i), 16);
    &&& forall|k: int| 0 <= k < BLOCK_SIZES_LEN && k != i ==> #[trigger] new[k] == old[k]
    &&& (r is None <==> no_fit(old[i], bs, bs) && no_fit(old[fb], 4096, 4096))
    &&& (r matches Some(p) ==> {
        &&& !no_fit(old[i], bs, bs) ==> allocated_first_fit(old[i], new[i], p as int, bs, bs)
            && new[fb] == old[fb]
        &&& no_fit(old[i], bs, bs) ==> refilled(old[i], old[fb], new[i], new[fb], p as int, bs)
    })
}

/// Memory given back to the fallback allocator: the block lists stayed, and
/// the fallback list gained `ptr..ptr + n`.
pub open spec fn returned_to_fallback(
    old: Seq<Seq<FreeBlock>>,
    new: Seq<Seq<FreeBlock>>,
    ptr: int,
    n: int,
) -> bool {
    let fb = fallback_index();
    &&& forall|k: int| 0 <= k < BLOCK_SIZES_LEN ==> #[trigger] new[k] == old[k]
    &&& forall|a: int| covers(new[fb], a) <==> (covers(old[fb], a) || in_range(a, ptr, n))
}

/// Memory given back to block list `i`: the list gained `ptr..ptr + n`
/// (giving `mid`); then, when some block of `mid` held a whole 4096-byte
/// arena, the first such arena went back to the fallback list.
pub open spec fn returned_to_block_list(
    old: Seq<Seq<FreeBlock>>,
    new: Seq<Seq<FreeBlock>>,
    i: int,
    ptr: int,
    n: int,
) -> bool {
    let fb = fallback_index();
    &&& forall|k: int| 0 <= k < BLOCK_SIZES_LEN && k != i ==> #[trigger] new[k] == old[k]
    &&& exists|mid: Seq<FreeBlock>|
        #![trigger blocks_wf(mid)]
        {
            &&& blocks_wf(mid)
            &&& (forall|a: int| covers(mid, a) <==> (covers(old[i], a) || in_range(a, ptr, n)))
            &&& arena_settled(old, new, i, mid)
        }
}

/// Block list `i`, which held `mid`, kept it when no block of it held a whole
/// 4096-byte arena; else it gave the first such arena back to the fallback
/// list.
pub open spec fn arena_settled(old: Seq<Seq<FreeBlock>>, new: Seq<Seq<FreeBlock>>, i: int, mid: Seq<FreeBlock>) -> bool {
    let fb = fallback_index();
    ||| no_fit(mid, 4096, 4096) && new[i] == mid && new[fb] == old[fb]
    ||| exists|q: int| #[trigger] arena_returned(old, new, i, mid, q)
}

/// Block list `i` gave the arena at `q`, the first that a block of `mid`
/// held, back to the fallback list.
pub open spec fn arena_returned(old: Seq<Seq<FreeBlock>>, new: Seq<Seq<FreeBlock>>, i: int, mid: Seq<FreeBlock>, q: int) -> bool {
    let fb = fallback_index();
    &&& allocated_first_fit(mid, new[i], q, 4096, 4096)
    &&& forall|a: int| covers(new[fb], a) <==> (covers(old[fb], a) || in_range(a, q, 4096))
}

/// A fixed-size block allocator: one linked list allocator per block size,
/// and a fallback linked list allocator for large requests and for arenas.
pub struct FixedSizeBlockAllocator {
    list_heads: Vec<LinkedListAllocator>,
    fallback_allocator: LinkedListAllocator,
}

impl View for FixedSizeBlockAllocator {
    type V = Seq<Seq<FreeBlock>>;

    /// The free lists: those of the block sizes, smallest first, then that
    /// of the fallback allocator.
    closed spec fn view(&self) -> Seq<Seq<FreeBlock>> {
        Seq::new(
            (BLOCK_SIZES_LEN + 1) as nat,
            |k: int|
                if k < BLOCK_SIZES_LEN {
                    self.list_heads@[k]@
                } else {
                    self.fallback_allocator@
                },
        )
    }
}

/// The index of the fallback allocator's free list in the view.
pub open spec fn fallback_index() -> int {
    BLOCK_SIZES_LEN as int
}

impl FixedSizeBlockAllocator {
    /// The allocator is well formed: every free list is, and no two share an
    /// address.
    pub closed spec fn wf(&self) -> bool {
        &&& self.list_heads@.len() == BLOCK_SIZES_LEN
        &&& forall|k: int| 0 <= k < BLOCK_SIZES_LEN ==> (#[trigger] self.list_heads@[k]).wf()
        &&& self.fallback_allocator.wf()
        &&& lists_disjoint(self@)
    }

    /// What a well-formed allocator looks like from the outside.
    pub proof fn lemma_wf(&self)
        requires
            self.wf(),
        ensures
            self@.len() == BLOCK_SIZES_LEN + 1,
            forall|k: int| 0 <= k < self@.len() ==> blocks_wf(#[trigger] self@[k]),
            lists_disjoint(self@),
    {
    }

    /// Creates an allocator with no memory.
    pub fn new() -> (r: Self)
        ensures
            r.wf(),
            r@.len() == BLOCK_SIZES_LEN + 1,
            forall|k: int| 0 <= k < r@.len() ==> (#[trigger] r@[k]) == Seq::<FreeBlock>::empty(),
    {
        let mut list_heads: Vec<LinkedListAllocator> = Vec::new();
        let mut i: usize = 0;
        while i < BLOCK_SIZES_LEN
            invariant
                i <= BLOCK_SIZES_LEN,
                list_heads@.len() == i,
                forall|k: int| 0 <= k < i ==> (#[trigger] list_heads@[k]).wf() && list_heads@[k]@
                    == Seq::<FreeBlock>::empty(),
            decreases BLOCK_SIZES_LEN - i,
        {
            list_heads.push(LinkedListAllocator::new());
            i = i + 1;
        }
        let fallback_allocator = LinkedListAllocator::new();
        let r = FixedSizeBlockAllocator { list_heads, fallback_allocator };
        assert(lists_disjoint(r@));
        r
    }

    /// The number of block-size free lists.
    pub fn list_heads_len(&self) -> (r: usize)
        requires
            self.wf(),
        ensures
            r == BLOCK_SIZES_LEN,
    {
        self.list_heads.len()
    }

    /// Adds a heap region: it goes to the fallback allocator, as
    /// [`LinkedListAllocator::add_heap`] describes.
    pub fn add_heap(&mut self, heap_start: usize, heap_size: usize)
        requires
            old(self).wf(),
            heap_start > 0,
            heap_start + heap_size <= usize::MAX,
            forall|a: int| in_range(a, heap_start as int, heap_size as int) ==> !free_in(old(self)@, a),
        ensures
            final(self).wf(),
            forall|k: int| 0 <= k < BLOCK_SIZES_LEN ==> #[trigger] final(self)@[k] == old(self)@[k],
            forall|a: int|
                covers(final(self)@[fallback_index()], a) <==> (covers(
                    old(self)@[fallback_index()],
                    a,
                ) || in_range(
                    a,
                    heap_aligned_start(heap_start as int),
                    heap_aligned_size(heap_start as int, heap_size as int),
                )),
    {
        let ghost old_lists = self@;
        proof {
            assert forall|a: int| in_range(a, heap_start as int, heap_size as int) implies !covers(
                old_lists[fallback_index()],
                a,
            ) by {
                if covers(old_lists[fallback_index()], a) {
                    assert(free_in(old_lists, a));
                }
            }
        }
        self.fallback_allocator.add_heap(heap_start, heap_size);
        proof {
            let new_lists = self@;
            assert forall|k: int| 0 <= k < BLOCK_SIZES_LEN implies #[trigger] new_lists[k]
                == old_lists[k] by {}
            lemma_heap_offset_within(heap_start as int, heap_size as int);
            assert forall|k1: int, k2: int, a: int|
                0 <= k1 < new_lists.len() && 0 <= k2 < new_lists.len() && k1 != k2 implies !(
            #[trigger] covers(new_lists[k1], a) && #[trigger] covers(new_lists[k2], a)) by {
                if covers(new_lists[k1], a) && covers(new_lists[k2], a) {
                    if k1 == fallback_index() || k2 == fallback_index() {
                        let other = if k1 == fallback_index() { k2 } else { k1 };
                        assert(new_lists[other] == old_lists[other]);
                        assert(covers(old_lists[other], a));
                        if !covers(old_lists[fallback_index()], a) {
                            assert(in_range(a, heap_start as int, heap_size as int));
                            assert(free_in(old_lists, a));
                        } else {
                            assert(!(covers(old_lists[other], a) && covers(old_lists[fallback_index()], a)));
                        }
                    } else {
                        assert(new_lists[k1] == old_lists[k1]);
                        assert(new_lists[k2] == old_lists[k2]);
                    }
                }
            }
            assert(lists_disjoint(new_lists));
        }
    }
}

/// The free lists after list `k` lost some addresses and the others stayed:
/// they still share none, and no address became free.
proof fn lemma_shrink_list(old: Seq<Seq<FreeBlock>>, new: Seq<Seq<FreeBlock>>, k: int)
    requires
        lists_disjoint(old),
        old.len() == new.len(),
        0 <= k < old.len(),
        forall|j: int| 0 <= j < old.len() && j != k ==> #[trigger] new[j] == old[j],
        forall|a: int| covers(new[k], a) ==> covers(old[k], a),
    ensures
        lists_disjoint(new),
        forall|a: int| free_in(new, a) ==> free_in(old, a),
{
    assert forall|k1: int, k2: int, a: int|
        0 <= k1 < new.len() && 0 <= k2 < new.len() && k1 != k2 implies !(#[trigger] covers(
        new[k1],
        a,
    ) && #[trigger] covers(new[k2], a)) by {
        if covers(new[k1], a) && covers(new[k2], a) {
            assert(covers(old[k1], a));
            assert(covers(old[k2], a));
        }
    }
    assert forall|a: int| free_in(new, a) implies free_in(old, a) by {
        let j = choose|j: int| 0 <= j < new.len() && #[trigger] covers(new[j], a);
        assert(covers(old[j], a));
    }
}

/// The free lists after list `k` gained the addresses `start..start + size`,
/// none of which was free, and the others stayed: they still share none.
proof fn lemma_grow_list(
    old: Seq<Seq<FreeBlock>>,
    new: Seq<Seq<FreeBlock>>,
    k: int,
    start: int,
    size: int,
)
    requires
        lists_disjoint(old),
        old.len() == new.len(),
        0 <= k < old.len(),
        forall|j: int| 0 <= j < old.len() && j != k ==> #[trigger] new[j] == old[j],
        forall|a: int| covers(new[k], a) <==> (covers(old[k], a) || in_range(a, start, size)),
        forall|a: int| in_range(a, start, size) ==> !free_in(old, a),
    ensures
        lists_disjoint(new),
        forall|a: int| free_in(new, a) <==> (free_in(old, a) || in_range(a, start, size)),
{
    assert forall|k1: int, k2: int, a: int|
        0 <= k1 < new.len() && 0 <= k2 < new.len() && k1 != k2 implies !(#[trigger] covers(
        new[k1],
        a,
    ) && #[trigger] covers(new[k2], a)) by {
        if covers(new[k1], a) && covers(new[k2], a) {
            if in_range(a, start, size) {
                let other = if k1 == k { k2 } else { k1 };
                assert(covers(old[other], a));
                assert(free_in(old, a));
            } else {
                assert(covers(old[k1], a));
                assert(covers(old[k2], a));
            }
        }
    }
    assert forall|a: int| free_in(new, a) <==> (free_in(old, a) || in_range(a, start, size)) by {
        if free_in(new, a) {
            let j = choose|j: int| 0 <= j < new.len() && #[trigger] covers(new[j], a);
            if !in_range(a, start, size) {
                assert(covers(old[j], a));
            }
        }
        if free_in(old, a) {
            let j = choose|j: int| 0 <= j < old.len() && #[trigger] covers(old[j], a);
            assert(covers(new[j], a));
        }
        if in_range(a, start, size) {
            assert(covers(new[k], a));
        }
    }
}

/// An address in a block of a well-formed list lies below `usize::MAX`.
proof fn lemma_covered_below_max(s: Seq<FreeBlock>, a: int)
    requires
        blocks_wf(s),
        covers(s, a),
    ensures
        0 < a < usize::MAX,
{
    let j = choose|j: int| 0 <= j < s.len() && in_range(a, s[j].start as int, s[j].size as int);
    assert(super::linked_list::block_wf(s[j]));
}

/// An address that list `k` gave up, when the lists share no address, is
/// free in no list afterwards.
proof fn lemma_taken_not_free(old: Seq<Seq<FreeBlock>>, new: Seq<Seq<FreeBlock>>, k: int, a: int)
    requires
        lists_disjoint(old),
        old.len() == new.len(),
        0 <= k < old.len(),
        forall|j: int| 0 <= j < old.len() && j != k ==> #[trigger] new[j] == old[j],
        covers(old[k], a),
        !covers(new[k], a),
    ensures
        free_in(old, a),
        !free_in(new, a),
{
    if free_in(new, a) {
        let j = choose|j: int| 0 <= j < new.len() && #[trigger] covers(new[j], a);
        assert(j != k);
        assert(covers(old[j], a));
    }
}

/// A range covered by a well-formed list lies within a single block.
proof fn lemma_range_in_one_block(s: Seq<FreeBlock>, q: int, n: int) -> (j: int)
    requires
        blocks_wf(s),
        n > 0,
        forall|a: int| in_range(a, q, n) ==> covers(s, a),
    ensures
        0 <= j < s.len(),
        s[j].start <= q,
        q + n <= super::linked_list::block_end(s[j]),
{
    assert(covers(s, q));
    let j = choose|j: int| 0 <= j < s.len() && in_range(q, s[j].start as int, s[j].size as int);
    let e = super::linked_list::block_end(s[j]);
    if e < q + n {
        assert(in_range(e, q, n));
        assert(covers(s, e));
        let j2 = choose|j2: int| 0 <= j2 < s.len() && in_range(e, s[j2].start as int, s[j2].size as int);
        if j2 < j {
            assert(super::linked_list::block_end(s[j2]) < s[j].start);
        } else if j2 > j {
            assert(super::linked_list::block_end(s[j]) < s[j2].start);
        }
    }
    j
}

proof fn lemma_aligned_start_at_most(start: int, align: int, q: int)
    requires
        start >= 0,
        align > 0,
        q >= start,
        q % align == 0,
    ensures
        start + super::linked_list::align_offset(start, align) <= q,
{
    let off = super::linked_list::align_offset(start, align);
    super::linked_list::lemma_align_offset(start, align);
    let t = start + off;
    if t > q {
        vstd::arithmetic::div_mod::lemma_fundamental_div_mod(q, align);
        vstd::arithmetic::div_mod::lemma_fundamental_div_mod(t, align);
        let m = q / align;
        let n = t / align;
        assert(align * m < align * n) by {
            assert(q == align * m);
            assert(t == align * n);
        }
        assert(align * (n - 1) < align * m) by {
            assert(t - align < q);
            assert(align * (n - 1) == align * n - align) by (nonlinear_arith);
        }
        assert(false) by (nonlinear_arith)
            requires
                align > 0,
                align * m < align * n,
                align * (n - 1) < align * m,
        ;
    }
}

proof fn lemma_pow2_divides(a: int, b: int)
    requires
        is_pow2(a),
        is_pow2(b),
        a <= b,
    ensures
        b % a == 0,
    decreases a,
{
    reveal(is_pow2);
    if a != 1 {
        assert(a % 2 == 0 && is_pow2(a / 2));
        assert(b != 1);
        assert(b % 2 == 0 && is_pow2(b / 2));
        lemma_pow2_divides(a / 2, b / 2);
        vstd::arithmetic::div_mod::lemma_fundamental_div_mod(b / 2, a / 2);
        let k = (b / 2) / (a / 2);
        assert(b == a * k) by (nonlinear_arith)
            requires
                b / 2 == (a / 2) * k,
                b % 2 == 0,
                a % 2 == 0,
        ;
        vstd::arithmetic::div_mod::lemma_mod_multiples_basic(k, a);
        assert(b % a == 0) by (nonlinear_arith)
            requires
                b == a * k,
                (k * a) % a == 0,
        ;
    }
}

proof fn lemma_divides_transitive(p: int, b: int, a: int)
    requires
        p >= 0,
        a > 0,
        b > 0,
        p % b == 0,
        b % a == 0,
    ensures
        p % a == 0,
{
    vstd::arithmetic::div_mod::lemma_fundamental_div_mod(p, b);
    vstd::arithmetic::div_mod::lemma_fundamental_div_mod(b, a);
    let m = p / b;
    let n = b / a;
    assert(p == a * (n * m)) by (nonlinear_arith)
        requires
            p == b * m,
            b == a * n,
    ;
    vstd::arithmetic::div_mod::lemma_mod_multiples_basic(n * m, a);
    assert(p % a == 0) by (nonlinear_arith)
        requires
            p == a * (n * m),
            ((n * m) * a) % a == 0,
    ;
}

impl FixedSizeBlockAllocator {
    /// Allocates memory for `layout`.
    ///
    /// A request of at most 2048 bytes goes to the list of the smallest block
    /// size that holds it; when that list has no room, it first takes a
    /// 4096-byte arena from the fallback allocator. A larger request goes to
    /// the fallback allocator. Returns `None` when the memory runs out.
    pub fn allocate(&mut self, layout: Layout) -> (r: Option<usize>)
        requires
            old(self).wf(),
            layout.spec_size() >= layout.spec_align(),
        ensures
            final(self).wf(),
            r is None ==> final(self)@ == old(self)@,
            forall|a: int| free_in(final(self)@, a) ==> free_in(old(self)@, a),
            r matches Some(p) ==> {
                &&& p % layout.spec_align() == 0
                &&& forall|a: int|
                    in_range(a, p as int, allocation_size(layout)) ==> free_in(old(self)@, a)
                        && !free_in(final(self)@, a)
            },
            match block_index(layout.spec_size() as int) {
                None => served_by_fallback(old(self)@, final(self)@, layout, r),
                Some(i) => served_by_block_list(old(self)@, final(self)@, i, r),
            },
    {
        let ghost old_lists = self@;
        proof {
            lemma_block_index_holds(layout.spec_size() as int, 0);
        }
        let index = match list_index(&layout) {
            None => {
                let r = self.fallback_allocator.allocate(layout);
                proof {
                    let new_lists = self@;
                    assert(new_lists =~= old_lists.update(fallback_index(), self.fallback_allocator@));
                    lemma_shrink_list(old_lists, new_lists, fallback_index());
                    assert(old_lists[fallback_index()] == old(self).fallback_allocator@);
                    assert(new_lists[fallback_index()] == self.fallback_allocator@);
                    assert forall|k: int| 0 <= k < BLOCK_SIZES_LEN implies #[trigger] new_lists[k]
                        == old_lists[k] by {}
                    if let Some(p) = r {
                        assert forall|a: int| in_range(a, p as int, allocation_size(layout)) implies free_in(
                            old_lists,
                            a,
                        ) && !free_in(new_lists, a) by {
                            lemma_taken_not_free(old_lists, new_lists, fallback_index(), a);
                        }
                    }
                }
                return r;
            },
            Some(index) => index,
        };
        let ghost i = index as int;
        let alloc_layout = alloc_layout(index);
        let ghost bs = next_multiple_of(spec_block_size(i), 16);
        proof {
            lemma_block_sizes_valid(i);
            assert(request_size(alloc_layout) == bs);
            assert(request_align(alloc_layout) == bs);
            assert(self.list_heads@[i].wf());
        }
        let r1 = self.list_heads[index].allocate(alloc_layout);
        if let Some(ptr) = r1 {
            proof {
                let new_lists = self@;
                assert(new_lists =~= old_lists.update(i, self.list_heads@[i]@));
                assert forall|k: int| 0 <= k < BLOCK_SIZES_LEN implies (#[trigger] self.list_heads@[k]).wf() by {
                    if k != i {
                        assert(self.list_heads@[k] == old(self).list_heads@[k]);
                    }
                }
                lemma_shrink_list(old_lists, new_lists, i);
                lemma_allocated_aligned(layout, i, ptr as int);
                assert forall|a: int| in_range(a, ptr as int, allocation_size(layout)) implies free_in(
                    old_lists,
                    a,
                ) && !free_in(new_lists, a) by {
                    lemma_taken_not_free(old_lists, new_lists, i, a);
                }
                assert(!no_fit(old_lists[i], bs, bs));
            }
            return Some(ptr);
        }
        let ghost lists1 = self@;
        proof {
            assert(lists1 =~= old_lists.update(i, self.list_heads@[i]@));
            assert(lists1 =~= old_lists);
            assert forall|k: int| 0 <= k < BLOCK_SIZES_LEN implies (#[trigger] self.list_heads@[k]).wf() by {
                if k != i {
                    assert(self.list_heads@[k] == old(self).list_heads@[k]);
                } else {
                    assert(self.list_heads@[k]@ == old_lists[i]);
                }
            }
            assert(no_fit(old_lists[i], bs, bs));
        }
        let arena = arena_layout();
        let heap = match self.fallback_allocator.allocate(arena) {
            Some(heap) => heap,
            None => {
                proof {
                    assert(self@ =~= lists1.update(fallback_index(), self.fallback_allocator@));
                    assert(self@ =~= old_lists);
                    assert(no_fit(old_lists[fallback_index()], 4096, 4096));
                }
                return None;
            },
        };
        let ghost lists2 = self@;
        proof {
            assert(lists2 =~= lists1.update(fallback_index(), self.fallback_allocator@));
            lemma_shrink_list(lists1, lists2, fallback_index());
            lemma_covered_below_max(lists1[fallback_index()], heap + 4095);
            assert(in_range(heap + 4095, heap as int, 4096));
            assert forall|a: int| in_range(a, heap as int, ARENA_SIZE as int) implies !free_in(lists2, a) by {
                lemma_taken_not_free(lists1, lists2, fallback_index(), a);
            }
            assert forall|a: int| in_range(a, heap as int, ARENA_SIZE as int) implies !covers(
                lists2[i],
                a,
            ) by {
                if covers(lists2[i], a) {
                    assert(free_in(lists2, a));
                }
            }
            assert(self.list_heads@[i].wf());
            assert(heap_aligned_start(heap as int) == heap);
            assert(heap_aligned_size(heap as int, 4096) == 4096);
        }
        self.list_heads[index].add_heap(heap, ARENA_SIZE);
        let ghost lists3 = self@;
        proof {
            assert(lists3 =~= lists2.update(i, self.list_heads@[i]@));
            lemma_grow_list(lists2, lists3, i, heap as int, 4096);
        }
        let r = self.list_heads[index].allocate(alloc_layout);
        proof {
            let new_lists = self@;
            let mid = lists3[i];
            assert(new_lists =~= lists3.update(i, self.list_heads@[i]@));
            assert forall|k: int| 0 <= k < BLOCK_SIZES_LEN implies (#[trigger] self.list_heads@[k]).wf() by {
                if k != i {
                    assert(self.list_heads@[k] == old(self).list_heads@[k]);
                }
            }
            lemma_shrink_list(lists3, new_lists, i);
            lemma_arena_fits(mid, heap as int, i);
            let ptr = r->0;
            lemma_allocated_aligned(layout, i, ptr as int);
            assert forall|a: int| in_range(a, ptr as int, allocation_size(layout)) implies free_in(
                old_lists,
                a,
            ) && !free_in(new_lists, a) by {
                lemma_taken_not_free(lists3, new_lists, i, a);
                if !covers(old_lists[i], a) {
                    assert(in_range(a, heap as int, 4096));
                    assert(covers(old_lists[fallback_index()], a));
                }
                assert(free_in(old_lists, a));
            }
            assert(allocated_first_fit(lists1[fallback_index()], lists2[fallback_index()], heap as int, 4096, 4096));
            assert(refilled(old_lists[i], old_lists[fallback_index()], new_lists[i], new_lists[fallback_index()], ptr as int, bs));
        }
        r
    }

    /// Gives back memory obtained from [`Self::allocate`] with the same
    /// layout.
    ///
    /// Large memory goes back to the fallback allocator. Small memory goes
    /// back to its block list; if that list then holds a whole arena, the
    /// list gives the first such arena back to the fallback allocator.
    pub fn deallocate(&mut self, ptr: usize, layout: Layout)
        requires
            old(self).wf(),
            layout.spec_size() >= layout.spec_align(),
            ptr > 0,
            ptr % 16 == 0,
            ptr + allocation_size(layout) <= usize::MAX,
            forall|a: int| in_range(a, ptr as int, allocation_size(layout)) ==> !free_in(old(self)@, a),
        ensures
            final(self).wf(),
            forall|a: int|
                free_in(final(self)@, a) ==> free_in(old(self)@, a) || in_range(
                    a,
                    ptr as int,
                    allocation_size(layout),
                ),
            match block_index(layout.spec_size() as int) {
                None => returned_to_fallback(old(self)@, final(self)@, ptr as int, allocation_size(layout)),
                Some(i) => returned_to_block_list(
                    old(self)@,
                    final(self)@,
                    i,
                    ptr as int,
                    allocation_size(layout),
                ),
            },
    {
        let ghost old_lists = self@;
        let ghost n = allocation_size(layout);
        proof {
            lemma_block_index_holds(layout.spec_size() as int, 0);
        }
        let index = match list_index(&layout) {
            None => {
                proof {
                    assert forall|a: int| in_range(a, ptr as int, n) implies !covers(
                        old_lists[fallback_index()],
                        a,
                    ) by {
                        if covers(old_lists[fallback_index()], a) {
                            assert(free_in(old_lists, a));
                        }
                    }
                    reveal(is_pow2);
                }
                self.fallback_allocator.deallocate(ptr, layout);
                proof {
                    let new_lists = self@;
                    assert(new_lists =~= old_lists.update(fallback_index(), self.fallback_allocator@));
                    lemma_grow_list(old_lists, new_lists, fallback_index(), ptr as int, n);
                    assert forall|k: int| 0 <= k < BLOCK_SIZES_LEN implies #[trigger] new_lists[k]
                        == old_lists[k] by {}
                }
                return;
            },
            Some(index) => index,
        };
        let ghost i = index as int;
        let alloc_layout = alloc_layout(index);
        proof {
            lemma_block_sizes_valid(i);
            assert(request_size(alloc_layout) == n);
            assert forall|a: int| in_range(a, ptr as int, n) implies !covers(old_lists[i], a) by {
                if covers(old_lists[i], a) {
                    assert(free_in(old_lists, a));
                }
            }
            assert(self.list_heads@[i].wf());
        }
        self.list_heads[index].deallocate(ptr, alloc_layout);
        let ghost lists1 = self@;
        let ghost mid = lists1[i];
        proof {
            assert(lists1 =~= old_lists.update(i, self.list_heads@[i]@));
            lemma_grow_list(old_lists, lists1, i, ptr as int, n);
            assert(self.list_heads@[i].wf());
        }
        let arena = arena_layout();
        let r = self.list_heads[index].allocate(arena);
        let ghost lists2 = self@;
        proof {
            assert(lists2 =~= lists1.update(i, self.list_heads@[i]@));
            lemma_shrink_list(lists1, lists2, i);
        }
        if let Some(heap) = r {
            proof {
                lemma_covered_below_max(mid, heap + 4095);
                assert(in_range(heap + 4095, heap as int, 4096));
                assert forall|a: int| in_range(a, heap as int, 4096) implies !covers(
                    lists2[fallback_index()],
                    a,
                ) by {
                    lemma_taken_not_free(lists1, lists2, i, a);
                    if covers(lists2[fallback_index()], a) {
                        assert(free_in(lists2, a));
                    }
                }
                assert forall|a: int| in_range(a, heap as int, 4096) implies !free_in(lists2, a) by {
                    lemma_taken_not_free(lists1, lists2, i, a);
                }
                reveal(is_pow2);
            }
            self.fallback_allocator.deallocate(heap, arena);
            proof {
                let new_lists = self@;
                assert(new_lists =~= lists2.update(fallback_index(), self.fallback_allocator@));
                lemma_grow_list(lists2, new_lists, fallback_index(), heap as int, 4096);
                assert forall|a: int| free_in(new_lists, a) implies free_in(old_lists, a) || in_range(
                    a,
                    ptr as int,
                    n,
                ) by {
                    if !in_range(a, heap as int, 4096) {
                        assert(free_in(lists2, a));
                        assert(free_in(lists1, a));
                    } else {
                        lemma_taken_not_free(lists1, lists2, i, a);
                    }
                }
                assert(allocated_first_fit(mid, new_lists[i], heap as int, 4096, 4096));
                assert(arena_returned(old_lists, new_lists, i as int, mid, heap as int));
                assert(blocks_wf(mid));
            }
        } else {
            proof {
                assert(lists2 =~= lists1);
                assert(no_fit(mid, 4096, 4096));
                assert(blocks_wf(mid));
            }
        }
        proof {
            let new_lists = self@;
            assert forall|k: int| 0 <= k < BLOCK_SIZES_LEN implies (#[trigger] self.list_heads@[k]).wf() by {
                if k != i {
                    assert(self.list_heads@[k] == old(self).list_heads@[k]);
                }
            }
        }
    }
}

/// An address handed out by block list `i` for `layout` is aligned as the
/// layout asks.
proof fn lemma_allocated_aligned(layout: Layout, i: int, p: int)
    requires
        0 <= i < BLOCK_SIZES_LEN,
        block_index(layout.spec_size() as int) == Some(i),
        is_pow2(layout.spec_align() as int),
        layout.spec_size() >= layout.spec_align(),
        p >= 0,
        p % spec_block_size(i) == 0,
    ensures
        p % (layout.spec_align() as int) == 0,
{
    lemma_block_index_holds(layout.spec_size() as int, 0);
    reveal_with_fuel(is_pow2, 13);
    assert(is_pow2(spec_block_size(i)));
    lemma_pow2_divides(layout.spec_align() as int, spec_block_size(i));
    reveal(is_pow2);
    lemma_divides_transitive(p, spec_block_size(i), layout.spec_align() as int);
}

proof fn lemma_block_index_holds(size: int, from: int)
    requires
        0 <= from,
    ensures
        block_index_from(size, from) matches Some(i) ==> from <= i < BLOCK_SIZES_LEN && size
            <= spec_block_size(i),
    decreases BLOCK_SIZES_LEN - from,
{
    if from < BLOCK_SIZES_LEN {
        lemma_block_index_holds(size, from + 1);
    }
}

/// A list that holds a whole 4096-aligned arena has room for a block of any
/// block size.
proof fn lemma_arena_fits(mid: Seq<FreeBlock>, q: int, i: int)
    requires
        blocks_wf(mid),
        0 <= i < BLOCK_SIZES_LEN,
        q >= 0,
        q % 4096 == 0,
        forall|a: int| in_range(a, q, 4096) ==> covers(mid, a),
    ensures
        !no_fit(mid, next_multiple_of(spec_block_size(i), 16), next_multiple_of(spec_block_size(i), 16)),
{
    let bs = next_multiple_of(spec_block_size(i), 16);
    let j = lemma_range_in_one_block(mid, q, 4096);
    reveal_with_fuel(is_pow2, 13);
    assert(is_pow2(bs));
    assert(is_pow2(4096));
    lemma_pow2_divides(bs, 4096);
    lemma_divides_transitive(q, 4096, bs);
    assert(mid[j].start >= 0);
    lemma_aligned_start_at_most(mid[j].start as int, bs, q);
    assert(fits(mid[j], bs, bs));
}

proof fn lemma_heap_offset_within(heap_start: int, heap_size: int)
    requires
        heap_start >= 0,
        heap_size >= 0,
    ensures
        forall|a: int|
            in_range(a, heap_aligned_start(heap_start), heap_aligned_size(heap_start, heap_size))
                ==> in_range(a, heap_start, heap_size),
{
}

/// A range that a well-formed list covers, starting at a multiple of
/// `align`, leaves that list room for `n` bytes at alignment `align`.
proof fn lemma_covered_range_fits(s: Seq<FreeBlock>, q: int, n: int, align: int)
    requires
        blocks_wf(s),
        n > 0,
        align > 0,
        q >= 0,
        q % align == 0,
        forall|a: int| in_range(a, q, n) ==> covers(s, a),
    ensures
        !no_fit(s, n, align),
{
    let j = lemma_range_in_one_block(s, q, n);
    assert(s[j].start >= 0);
    lemma_aligned_start_at_most(s[j].start as int, align, q);
    assert(fits(s[j], n, align));
}

/// Where a first-fit allocation lands is a multiple of its alignment.
proof fn lemma_first_fit_aligned(old: Seq<FreeBlock>, new: Seq<FreeBlock>, p: int, size: int, align: int)
    requires
        align > 0,
        allocated_first_fit(old, new, p, size, align),
    ensures
        p % align == 0,
        p >= 0,
{
    let j = choose|j: int| #[trigger]
        super::linked_list::first_fit_at(old, j, size, align) && p == super::linked_list::aligned_start(
            old[j],
            align,
        ) && new == super::linked_list::split_result(old, j, size, align);
    super::linked_list::lemma_align_offset(old[j].start as int, align);
}

/// After memory of block size `i` went back to its list, that list has
/// room for a block, or the fallback list has room for an arena.
proof fn lemma_returned_has_room(old: Seq<Seq<FreeBlock>>, new: Seq<Seq<FreeBlock>>, i: int, ptr: int, n: int)
    requires
        0 <= i < BLOCK_SIZES_LEN,
        n == next_multiple_of(spec_block_size(i), 16),
        n > 0,
        ptr >= 0,
        ptr % n == 0,
        blocks_wf(new[fallback_index()]),
        returned_to_block_list(old, new, i, ptr, n),
    ensures
        !(no_fit(new[i], n, n) && no_fit(new[fallback_index()], 4096, 4096)),
{
    let fb = fallback_index();
    let mid = choose|mid: Seq<FreeBlock>|
        #![trigger blocks_wf(mid)]
        {
            &&& blocks_wf(mid)
            &&& (forall|a: int| covers(mid, a) <==> (covers(old[i], a) || in_range(a, ptr, n)))
            &&& arena_settled(old, new, i, mid)
        };
    if no_fit(mid, 4096, 4096) && new[i] == mid && new[fb] == old[fb] {
        lemma_covered_range_fits(mid, ptr, n, n);
    } else {
        let q = choose|q: int| #[trigger] arena_returned(old, new, i, mid, q);
        lemma_first_fit_aligned(mid, new[i], q, 4096, 4096);
        lemma_covered_range_fits(new[fb], q, 4096, 4096);
    }
}

/// Memory that was handed out for `layout` and then given back lets the next
/// request for `layout` succeed: `a0` served the request with `p` and became
/// `a1`, `a1` took `p` back and became `a2`, and `a2` served the same request
/// again, with `r`, and became `a3`.
pub proof fn law_freed_memory_is_reusable(
    a0: FixedSizeBlockAllocator,
    a1: FixedSizeBlockAllocator,
    a2: FixedSizeBlockAllocator,
    a3: FixedSizeBlockAllocator,
    layout: Layout,
    p: usize,
    r: Option<usize>,
)
    requires
        a0.wf(),
        a1.wf(),
        a2.wf(),
        a3.wf(),
        valid_layout(layout.spec_size(), layout.spec_align()),
        layout.spec_size() >= layout.spec_align(),
        match block_index(layout.spec_size() as int) {
            None => served_by_fallback(a0@, a1@, layout, Some(p)),
            Some(i) => served_by_block_list(a0@, a1@, i, Some(p)),
        },
        match block_index(layout.spec_size() as int) {
            None => returned_to_fallback(a1@, a2@, p as int, allocation_size(layout)),
            Some(i) => returned_to_block_list(a1@, a2@, i, p as int, allocation_size(layout)),
        },
        match block_index(layout.spec_size() as int) {
            None => served_by_fallback(a2@, a3@, layout, r),
            Some(i) => served_by_block_list(a2@, a3@, i, r),
        },
    ensures
        r is Some,
{
    a2.lemma_wf();
    assert(layout.spec_align() > 0) by {
        reveal(is_pow2);
    }
    let fb = fallback_index();
    assert(blocks_wf(a2@[fb]));
    lemma_block_index_holds(layout.spec_size() as int, 0);
    match block_index(layout.spec_size() as int) {
        None => {
            let n = request_size(layout);
            let al = request_align(layout);
            lemma_first_fit_aligned(a0@[fb], a1@[fb], p as int, n, al);
            lemma_covered_range_fits(a2@[fb], p as int, n, al);
        },
        Some(i) => {
            let bs = next_multiple_of(spec_block_size(i), 16);
            assert(bs > 0) by {
                lemma_block_sizes_valid(i);
            }
            let old_i = a0@[i];
            if !no_fit(old_i, bs, bs) {
                lemma_first_fit_aligned(a0@[i], a1@[i], p as int, bs, bs);
            } else {
                let (q, mid) = choose|q: int, mid: Seq<FreeBlock>|
                    #![trigger allocated_first_fit(a0@[fb], a1@[fb], q, 4096, 4096), blocks_wf(mid)]
                    {
                        &&& allocated_first_fit(a0@[fb], a1@[fb], q, 4096, 4096)
                        &&& blocks_wf(mid)
                        &&& (forall|a: int| covers(mid, a) <==> (covers(a0@[i], a) || in_range(a, q, 4096)))
                        &&& allocated_first_fit(mid, a1@[i], p as int, bs, bs)
                    };
                lemma_first_fit_aligned(mid, a1@[i], p as int, bs, bs);
            }
            assert(allocation_size(layout) == bs);
            lemma_returned_has_room(a1@, a2@, i, p as int, bs);
        },
    }
}

impl Default for FixedSizeBlockAllocator {
    /// An allocator with no memory, as [`FixedSizeBlockAllocator::new`].
    fn default() -> (r: Self)
        ensures
            r.wf(),
            r@.len() == BLOCK_SIZES_LEN + 1,
            forall|k: int| 0 <= k < r@.len() ==> (#[trigger] r@[k]) == Seq::<FreeBlock>::empty(),
    {
        FixedSizeBlockAllocator::new()
    }
}

} // verus!
