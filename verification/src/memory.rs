//! The page pool: a list of page tags (0 free, anything else in use) and
//! the bytes of every page.

use vstd::prelude::*;

verus! {

/// Size in bytes of one page of the pool.
pub const PAGE_SIZE: usize = 64 * 1024;

/// Size in bytes of the pool that the emulated file system works with.
pub const MEMORY_SIZE: usize = 3 * 1024 * 1024 * 1024;

/// Number of pages needed to hold `size` bytes.
pub open spec fn pages_for(size: int) -> int {
    if size % (PAGE_SIZE as int) == 0 {
        size / (PAGE_SIZE as int)
    } else {
        size / (PAGE_SIZE as int) + 1
    }
}

/// Number of free pages among the first `i` tags.
pub open spec fn free_before(tags: Seq<usize>, i: int) -> nat
    decreases i,
{
    if i <= 0 {
        0
    } else {
        free_before(tags, i - 1) + if tags[i - 1] == 0 {
            1nat
        } else {
            0nat
        }
    }
}

/// Number of free pages in the pool.
pub open spec fn free_count(tags: Seq<usize>) -> nat {
    free_before(tags, tags.len() as int)
}

/// The tags after the first `needed` free pages have been marked as used.
pub open spec fn tags_after_allocation(tags: Seq<usize>, needed: int) -> Seq<usize> {
    Seq::new(
        tags.len(),
        |j: int|
            if tags[j] == 0 && free_before(tags, j) < needed {
                1usize
            } else {
                tags[j]
            },
    )
}

/// The tags after every listed page that lies in the pool has been freed.
pub open spec fn tags_after_release(tags: Seq<usize>, pages: Seq<usize>) -> Seq<usize> {
    Seq::new(tags.len(), |j: int| if pages.contains(j as usize) { 0usize } else { tags[j] })
}

/// Page `page` is the `k`-th free page of the pool (counting from 0).
pub open spec fn is_kth_free(tags: Seq<usize>, page: usize, k: int) -> bool {
    &&& page < tags.len()
    &&& tags[page as int] == 0
    &&& free_before(tags, page as int) == k
}

pub proof fn lemma_free_before_monotone(tags: Seq<usize>, i: int, j: int)
    requires
        i <= j,
    ensures
        free_before(tags, i) <= free_before(tags, j),
    decreases j - i,
{
    if i < j {
        lemma_free_before_monotone(tags, i, j - 1);
    }
}

/// A position inside the first `pages` pages lies in one of them.
pub proof fn lemma_pos_in_pages(p: int, pages: int)
    requires
        0 <= p < pages * PAGE_SIZE,
    ensures
        0 <= p / (PAGE_SIZE as int) < pages,
{
    let ps = PAGE_SIZE as int;
    vstd::arithmetic::div_mod::lemma_fundamental_div_mod(p, ps);
    vstd::arithmetic::div_mod::lemma_div_pos_is_pos(p, ps);
    vstd::arithmetic::div_mod::lemma_mod_pos_bound(p, ps);
    if p / ps >= pages {
        vstd::arithmetic::mul::lemma_mul_inequality(pages, p / ps, ps);
        vstd::arithmetic::mul::lemma_mul_is_commutative(ps, p / ps);
    }
}

/// `pages_for(size)` pages hold at least `size` bytes.
pub proof fn lemma_pages_for_covers(size: int)
    requires
        0 <= size,
    ensures
        pages_for(size) * PAGE_SIZE >= size,
        pages_for(size) >= 0,
        size > 0 ==> pages_for(size) > 0,
{
    let ps = PAGE_SIZE as int;
    vstd::arithmetic::div_mod::lemma_fundamental_div_mod(size, ps);
    vstd::arithmetic::div_mod::lemma_div_pos_is_pos(size, ps);
    vstd::arithmetic::div_mod::lemma_mod_pos_bound(size, ps);
    vstd::arithmetic::mul::lemma_mul_is_commutative(ps, size / ps);
    vstd::arithmetic::mul::lemma_mul_is_distributive_add(ps, size / ps, 1);
    vstd::arithmetic::mul::lemma_mul_is_commutative(ps, size / ps + 1);
}

/// The pool of pages that emulated files keep their bytes in.
pub struct Memory {
    /// Offset in `data` at which page 0 starts.
    pub base_address: usize,
    /// One tag per page: 0 when the page is free.
    pub memory_list: Vec<usize>,
    /// The bytes of all pages, page `i` at `base_address + PAGE_SIZE * i`.
    pub data: Vec<u8>,
}

impl Memory {
    /// The byte storage covers every page of the pool.
    pub open spec fn wf(&self) -> bool {
        self.data.len() == self.base_address + self.memory_list.len() * PAGE_SIZE
    }

    /// Address in `data` of byte `pos` of page `page`.
    pub open spec fn addr(&self, page: int, pos: int) -> int {
        self.base_address + PAGE_SIZE * page + pos
    }

    /// A pool of `size` bytes, rounded up to whole pages, all free and zeroed.
    pub fn new(size: usize) -> (mem: Memory)
        requires
            pages_for(size as int) * PAGE_SIZE <= usize::MAX,
        ensures
            mem.wf(),
            mem.base_address == 0,
            mem.memory_list@.len() == pages_for(size as int),
            forall|i: int| 0 <= i < mem.memory_list@.len() ==> mem.memory_list@[i] == 0,
            forall|i: int| 0 <= i < mem.data@.len() ==> mem.data@[i] == 0,
    {
        let num_pages: usize = if size % PAGE_SIZE == 0 {
            size / PAGE_SIZE
        } else {
            size / PAGE_SIZE + 1
        };
        let memory_list: Vec<usize> = vec![0usize; num_pages];
        let data: Vec<u8> = vec![0u8; num_pages * PAGE_SIZE];
        Memory { base_address: 0, memory_list, data }
    }
}

/// Marks the first `pages_for(request_size)` free pages as used and returns
/// their indices in ascending order, or, when the pool does not hold that
/// many free pages or none are needed, leaves every tag as it was and
/// returns `None`.
pub fn try_allocate(memory: &mut Memory, request_size: usize) -> (res: Option<Vec<usize>>)
    ensures
        final(memory).base_address == old(memory).base_address,
        final(memory).data@ == old(memory).data@,
        match res {
            Some(block) => {
                &&& pages_for(request_size as int) > 0
                &&& pages_for(request_size as int) <= free_count(old(memory).memory_list@)
                &&& final(memory).memory_list@ == tags_after_allocation(
                    old(memory).memory_list@,
                    pages_for(request_size as int),
                )
                &&& block@.len() == pages_for(request_size as int)
                &&& forall|k: int|
                    0 <= k < block@.len() ==> is_kth_free(old(memory).memory_list@, #[trigger] block@[k], k)
            },
            None => {
                &&& (pages_for(request_size as int) == 0 || free_count(old(memory).memory_list@)
                    < pages_for(request_size as int))
                &&& final(memory).memory_list@ == old(memory).memory_list@
            },
        },
{
    let ghost tags = memory.memory_list@;
    let num_pages_needed: usize = if request_size % PAGE_SIZE == 0 {
        request_size / PAGE_SIZE
    } else {
        request_size / PAGE_SIZE + 1
    };
    let ghost needed = num_pages_needed as int;
    let mut allocated_block: Vec<usize> = Vec::new();
    let len = memory.memory_list.len();
    let mut index: usize = 0;
    while index < len
        invariant
            tags == old(memory).memory_list@,
            needed == pages_for(request_size as int),
            num_pages_needed == needed,
            len == tags.len(),
            index <= len,
            memory.base_address == old(memory).base_address,
            memory.data@ == old(memory).data@,
            memory.memory_list@.len() == len,
            allocated_block@.len() == free_before(tags, index as int),
            needed == 0 || allocated_block@.len() < needed,
            forall|k: int|
                0 <= k < allocated_block@.len() ==> is_kth_free(tags, #[trigger] allocated_block@[k], k),
            forall|k: int| 0 <= k < allocated_block@.len() ==> #[trigger] allocated_block@[k] < index,
            forall|j: int|
                0 <= j < index ==> #[trigger] memory.memory_list@[j] == (if tags[j] == 0 { 1usize } else { tags[j] }),
            forall|j: int| index <= j < len ==> #[trigger] memory.memory_list@[j] == tags[j],
        decreases len - index,
    {
        if memory.memory_list[index] == 0 {
            memory.memory_list[index] = 1;
            allocated_block.push(index);
            if allocated_block.len() == num_pages_needed {
                proof {
                    assert(free_before(tags, index as int + 1) == needed);
                    assert forall|j: int| 0 <= j < len implies #[trigger] memory.memory_list@[j]
                        == tags_after_allocation(tags, needed)[j] by {
                        if j <= index {
                            lemma_free_before_monotone(tags, j, index as int);
                        } else {
                            lemma_free_before_monotone(tags, index as int + 1, j);
                        }
                    }
                    assert(memory.memory_list@ =~= tags_after_allocation(tags, needed));
                    lemma_free_before_monotone(tags, index as int + 1, len as int);
                }
                return Some(allocated_block);
            }
        }
        index = index + 1;
    }
    // Not enough free pages: hand back every page taken above.
    let ghost taken = allocated_block@;
    let mut r: usize = 0;
    while r < allocated_block.len()
        invariant
            tags == old(memory).memory_list@,
            len == tags.len(),
            allocated_block@ == taken,
            r <= taken.len(),
            memory.base_address == old(memory).base_address,
            memory.data@ == old(memory).data@,
            memory.memory_list@.len() == len,
            taken.len() == free_before(tags, len as int),
            forall|k: int| 0 <= k < taken.len() ==> is_kth_free(tags, #[trigger] taken[k], k),
            forall|j: int|
                0 <= j < len ==> #[trigger] memory.memory_list@[j] == (if tags[j] == 0 && !(exists|k: int|
                    0 <= k < r && taken[k] == j) { 1usize } else { tags[j] }),
        decreases taken.len() - r,
    {
        let page = allocated_block[r];
        memory.memory_list[page] = 0;
        proof {
            assert forall|j: int| 0 <= j < len implies #[trigger] memory.memory_list@[j] == (if tags[j]
                == 0 && !(exists|k: int| 0 <= k < r + 1 && taken[k] == j) { 1usize } else { tags[j] }) by {
                if j != page as int {
                    if exists|k: int| 0 <= k < r + 1 && taken[k] == j {
                        let k = choose|k: int| 0 <= k < r + 1 && taken[k] == j;
                        assert(k != r);
                    }
                } else {
                    assert(taken[r as int] == j);
                }
            }
        }
        r = r + 1;
    }
    proof {
        assert forall|j: int| 0 <= j < len implies #[trigger] memory.memory_list@[j] == tags[j] by {
            if tags[j] == 0 {
                let k = free_before(tags, j) as int;
                lemma_free_before_monotone(tags, j + 1, len as int);
                // the k-th free page is j itself, and it was handed back
                if taken[k] != j as usize {
                    if taken[k] < j as usize {
                        lemma_free_before_monotone(tags, taken[k] as int + 1, j);
                    } else {
                        lemma_free_before_monotone(tags, j + 1, taken[k] as int);
                    }
                }
                assert(taken[k] == j);
            }
        }
        assert(memory.memory_list@ =~= tags);
    }
    None
}

/// Marks the first `pages_for(request_size)` free pages of the pool as used
/// and returns their indices in ascending order.
pub fn allocate(memory: &mut Memory, request_size: usize) -> (block: Vec<usize>)
    requires
        pages_for(request_size as int) > 0,
        pages_for(request_size as int) <= free_count(old(memory).memory_list@),
    ensures
        final(memory).base_address == old(memory).base_address,
        final(memory).data@ == old(memory).data@,
        final(memory).memory_list@ == tags_after_allocation(
            old(memory).memory_list@,
            pages_for(request_size as int),
        ),
        block@.len() == pages_for(request_size as int),
        forall|k: int| 0 <= k < block@.len() ==> is_kth_free(old(memory).memory_list@, #[trigger] block@[k], k),
{
    match try_allocate(memory, request_size) {
        Some(block) => block,
        None => {
            proof {
                assert(false);
            }
            Vec::new()
        },
    }
}

/// Frees every listed page that lies inside the pool; other entries are
/// ignored.
pub fn remove_fs(memory: &mut Memory, index_list: Vec<usize>)
    ensures
        final(memory).base_address == old(memory).base_address,
        final(memory).data@ == old(memory).data@,
        final(memory).memory_list@ == tags_after_release(old(memory).memory_list@, index_list@),
{
    let ghost tags = memory.memory_list@;
    let len = memory.memory_list.len();
    let mut i: usize = 0;
    while i < index_list.len()
        invariant
            tags == old(memory).memory_list@,
            len == tags.len(),
            i <= index_list@.len(),
            memory.base_address == old(memory).base_address,
            memory.data@ == old(memory).data@,
            memory.memory_list@ == tags_after_release(tags, index_list@.take(i as int)),
        decreases index_list@.len() - i,
    {
        let index = index_list[i];
        if index < len {
            memory.memory_list[index] = 0;
        }
        proof {
            let prev = index_list@.take(i as int);
            let next = index_list@.take(i as int + 1);
            assert(next =~= prev.push(index));
            assert forall|j: int| 0 <= j < len implies #[trigger] memory.memory_list@[j]
                == tags_after_release(tags, next)[j] by {
                if next.contains(j as usize) && j as usize != index {
                    let k = choose|k: int| 0 <= k < next.len() && next[k] == j as usize;
                    assert(prev[k] == j as usize);
                }
                if prev.contains(j as usize) {
                    let k = choose|k: int| 0 <= k < prev.len() && prev[k] == j as usize;
                    assert(next[k] == j as usize);
                }
                if j as usize == index {
                    assert(next[i as int] == index);
                }
            }
            assert(memory.memory_list@ =~= tags_after_release(tags, next));
        }
        i = i + 1;
    }
    proof {
        assert(index_list@.take(index_list@.len() as int) =~= index_list@);
    }
}

} // verus!
