//! What reads, writes and page allocation promise of each other.

use crate::file::{page_addr, write_effect, written, EmulatedFile};
use crate::memory::pages_for;
use crate::memory::{
    free_before,
    is_kth_free,
    lemma_pages_for_covers,
    lemma_pos_in_pages,
    tags_after_allocation,
    tags_after_release,
    Memory,
    PAGE_SIZE,
};
use vstd::prelude::*;

verus! {

/// No page occurs twice in a file's list of pages.
pub open spec fn pages_distinct(blocks: Seq<usize>) -> bool {
    forall|i: int, j: int| 0 <= i < j < blocks.len() ==> blocks[i] != blocks[j]
}

/// Distinct file positions inside the file's pages sit at distinct pool
/// addresses when no page occurs twice.
pub proof fn lemma_addrs_distinct(base: int, blocks: Seq<usize>, p1: int, p2: int)
    requires
        pages_distinct(blocks),
        0 <= p1 < blocks.len() * PAGE_SIZE,
        0 <= p2 < blocks.len() * PAGE_SIZE,
        p1 != p2,
    ensures
        page_addr(base, blocks, p1) != page_addr(base, blocks, p2),
{
    let ps = PAGE_SIZE as int;
    let q1 = p1 / ps;
    let q2 = p2 / ps;
    let r1 = p1 % ps;
    let r2 = p2 % ps;
    vstd::arithmetic::div_mod::lemma_fundamental_div_mod(p1, ps);
    vstd::arithmetic::div_mod::lemma_fundamental_div_mod(p2, ps);
    vstd::arithmetic::div_mod::lemma_mod_pos_bound(p1, ps);
    vstd::arithmetic::div_mod::lemma_mod_pos_bound(p2, ps);
    lemma_pos_in_pages(p1, blocks.len() as int);
    lemma_pos_in_pages(p2, blocks.len() as int);
    if page_addr(base, blocks, p1) == page_addr(base, blocks, p2) {
        let x = PAGE_SIZE * blocks[q1] + r1;
        assert(x == PAGE_SIZE * blocks[q2] + r2);
        vstd::arithmetic::div_mod::lemma_fundamental_div_mod_converse(x, ps, blocks[q1] as int, r1);
        vstd::arithmetic::div_mod::lemma_fundamental_div_mod_converse(x, ps, blocks[q2] as int, r2);
        assert(p1 == p2);
    }
}

/// A write leaves the pool's bytes as long as they were.
pub proof fn lemma_written_len(
    data: Seq<u8>,
    base: int,
    blocks: Seq<usize>,
    offset: int,
    bytes: Seq<u8>,
    count: nat,
)
    requires
        forall|p: int|
            offset <= p < offset + count ==> 0 <= #[trigger] page_addr(base, blocks, p) < data.len(),
    ensures
        written(data, base, blocks, offset, bytes, count).len() == data.len(),
    decreases count,
{
    if count > 0 {
        assert(0 <= page_addr(base, blocks, offset + count - 1) < data.len());
        lemma_written_len(data, base, blocks, offset, bytes, (count - 1) as nat);
    }
}

/// After a write of `count` bytes whose positions sit at distinct addresses
/// inside the pool, each of those addresses holds its byte.
pub proof fn lemma_written_reads_back(
    data: Seq<u8>,
    base: int,
    blocks: Seq<usize>,
    offset: int,
    bytes: Seq<u8>,
    count: nat,
    i: int,
)
    requires
        0 <= i < count,
        count <= bytes.len(),
        forall|p: int|
            offset <= p < offset + count ==> 0 <= #[trigger] page_addr(base, blocks, p) < data.len(),
        forall|p: int, q: int|
            offset <= p < q < offset + count ==> #[trigger] page_addr(base, blocks, p)
                != #[trigger] page_addr(base, blocks, q),
    ensures
        written(data, base, blocks, offset, bytes, count)[page_addr(base, blocks, offset + i)]
            == bytes[i],
    decreases count,
{
    lemma_written_len(data, base, blocks, offset, bytes, (count - 1) as nat);
    let last = offset + (count - 1);
    assert(0 <= page_addr(base, blocks, last) < data.len());
    if i < count - 1 {
        let p = offset + i;
        assert(page_addr(base, blocks, p) != page_addr(base, blocks, last));
        assert(0 <= page_addr(base, blocks, p) < data.len());
        lemma_written_reads_back(data, base, blocks, offset, bytes, (count - 1) as nat, i);
    }
}

/// Reading back the bytes that a write reached gives the bytes that were
/// written, as long as no page occurs twice in the file's list of pages.
pub proof fn law_read_after_write(
    old_file: EmulatedFile,
    old_memory: Memory,
    new_file: EmulatedFile,
    new_memory: Memory,
    bytes: Seq<u8>,
    length: int,
    offset: int,
    n: int,
)
    requires
        write_effect(old_file, old_memory, new_file, new_memory, bytes, length, offset, n),
        old_memory.wf(),
        new_file.wf(&new_memory),
        pages_distinct(new_file.memory_block@),
        0 <= offset,
        0 <= length <= bytes.len(),
    ensures
        new_file.contents(&new_memory, offset, n) == bytes.subrange(0, n),
{
    let base = new_memory.base_address as int;
    let blocks = new_file.memory_block@;
    assert(0 <= n <= length);
    assert(n == 0 || offset + n <= new_file.capacity());
    assert forall|p: int| offset <= p < offset + n implies 0 <= #[trigger] page_addr(base, blocks, p)
        < old_memory.data@.len() by {
        let q = p / (PAGE_SIZE as int);
        lemma_pos_in_pages(p, blocks.len() as int);
        vstd::arithmetic::div_mod::lemma_mod_pos_bound(p, PAGE_SIZE as int);
        assert(blocks[q] < new_memory.memory_list@.len());
        crate::file::lemma_page_in_pool(&new_memory, blocks[q] as int);
    }
    assert forall|p: int, q: int| offset <= p < q < offset + n implies #[trigger] page_addr(
        base,
        blocks,
        p,
    ) != #[trigger] page_addr(base, blocks, q) by {
        lemma_addrs_distinct(base, blocks, p, q);
    }
    assert forall|i: int| 0 <= i < n implies #[trigger] new_file.contents(&new_memory, offset, n)[i]
        == bytes.subrange(0, n)[i] by {
        lemma_written_reads_back(old_memory.data@, base, blocks, offset, bytes, n as nat, i);
    }
    assert(new_file.contents(&new_memory, offset, n) =~= bytes.subrange(0, n));
}

/// The first write to a file without pages reaches every byte it was given,
/// and reading them back gives those bytes.
pub proof fn law_first_write_reads_back(
    old_file: EmulatedFile,
    old_memory: Memory,
    new_file: EmulatedFile,
    new_memory: Memory,
    bytes: Seq<u8>,
    length: int,
    n: int,
)
    requires
        old_file.memory_block@.len() == 0,
        write_effect(old_file, old_memory, new_file, new_memory, bytes, length, 0, n),
        old_memory.wf(),
        new_file.wf(&new_memory),
        0 <= length <= bytes.len(),
    ensures
        n == length,
        new_file.contents(&new_memory, 0, n) == bytes.subrange(0, length),
{
    let blocks = new_file.memory_block@;
    let tags = old_memory.memory_list@;
    assert(new_file.memory_block@.subrange(0, 0) == old_file.memory_block@);
    assert forall|i: int, j: int| 0 <= i < j < blocks.len() implies blocks[i] != blocks[j] by {
        assert(is_kth_free(tags, blocks[0 + i], i));
        assert(is_kth_free(tags, blocks[0 + j], j));
    }
    lemma_pages_for_covers(length);
    law_read_after_write(old_file, old_memory, new_file, new_memory, bytes, length, 0, n);
}

/// The pages that an allocation hands out are pairwise distinct, were free,
/// and are marked as used afterwards.
pub proof fn law_allocated_pages_fresh(tags: Seq<usize>, block: Seq<usize>, needed: int)
    requires
        block.len() == needed,
        forall|k: int| 0 <= k < needed ==> is_kth_free(tags, #[trigger] block[k], k),
    ensures
        pages_distinct(block),
        forall|k: int|
            0 <= k < needed ==> tags[block[k] as int] == 0 && #[trigger] tags_after_allocation(
                tags,
                needed,
            )[block[k] as int] != 0,
{
    assert forall|i: int, j: int| 0 <= i < j < block.len() implies block[i] != block[j] by {
        assert(is_kth_free(tags, block[i], i));
        assert(is_kth_free(tags, block[j], j));
    }
}

/// Releasing the pages that an allocation handed out gives back the tags
/// the pool had before it.
pub proof fn law_release_undoes_allocation(tags: Seq<usize>, block: Seq<usize>, needed: int)
    requires
        tags.len() <= usize::MAX,
        block.len() == needed,
        forall|k: int| 0 <= k < needed ==> is_kth_free(tags, #[trigger] block[k], k),
    ensures
        tags_after_release(tags_after_allocation(tags, needed), block) == tags,
{
    let after = tags_after_allocation(tags, needed);
    assert forall|j: int| 0 <= j < tags.len() implies #[trigger] tags_after_release(after, block)[j]
        == tags[j] by {
        if block.contains(j as usize) {
            let k = choose|k: int| 0 <= k < block.len() && block[k] == j as usize;
            assert(is_kth_free(tags, block[k], k));
        } else if tags[j] == 0 && free_before(tags, j) < needed {
            let k = free_before(tags, j) as int;
            assert(is_kth_free(tags, j as usize, k));
            assert(is_kth_free(tags, block[k], k));
            if block[k] != j as usize {
                if (block[k] as int) < j {
                    crate::memory::lemma_free_before_monotone(tags, block[k] as int + 1, j);
                } else {
                    crate::memory::lemma_free_before_monotone(tags, j + 1, block[k] as int);
                }
            }
            assert(block[k] == j as usize);
        }
    }
    assert(tags_after_release(after, block) =~= tags);
}

/// `pages_for(size)` pages are the fewest that hold `size` bytes.
pub proof fn lemma_pages_for_fewest(size: int)
    requires
        0 < size,
    ensures
        pages_for(size) * PAGE_SIZE >= size,
        (pages_for(size) - 1) * PAGE_SIZE < size,
{
    let ps = PAGE_SIZE as int;
    lemma_pages_for_covers(size);
    vstd::arithmetic::div_mod::lemma_fundamental_div_mod(size, ps);
    vstd::arithmetic::div_mod::lemma_mod_pos_bound(size, ps);
    vstd::arithmetic::mul::lemma_mul_is_commutative(ps, size / ps);
    vstd::arithmetic::mul::lemma_mul_is_distributive_sub(ps, size / ps + 1, 1);
    vstd::arithmetic::mul::lemma_mul_is_commutative(ps, size / ps + 1);
    vstd::arithmetic::mul::lemma_mul_is_distributive_sub(ps, size / ps, 1);
    vstd::arithmetic::mul::lemma_mul_is_commutative(ps, size / ps - 1);
}

/// A write to a file with pages that runs past the file's end and past the
/// end of the page it starts in gives the file just as many new pages as
/// the bytes beyond the old end need: enough to hold them, and not one
/// more. When the file's pages held all of its bytes, every byte of the
/// write reaches the pages.
pub proof fn law_write_past_end_adds_pages(
    old_file: EmulatedFile,
    old_memory: Memory,
    new_file: EmulatedFile,
    new_memory: Memory,
    bytes: Seq<u8>,
    length: int,
    offset: int,
    n: int,
)
    requires
        old_file.memory_block@.len() > 0,
        0 <= offset <= old_file.filesize,
        0 <= length,
        offset + length > old_file.filesize,
        offset % (PAGE_SIZE as int) + length > PAGE_SIZE,
        write_effect(old_file, old_memory, new_file, new_memory, bytes, length, offset, n),
    ensures
        ({
            let added = new_file.memory_block@.len() - old_file.memory_block@.len();
            let beyond = offset + length - old_file.filesize;
            &&& added * PAGE_SIZE >= beyond
            &&& (added - 1) * PAGE_SIZE < beyond
        }),
        old_file.capacity() >= old_file.filesize ==> n == length,
{
    let beyond = offset + length - old_file.filesize;
    lemma_pages_for_fewest(beyond);
    let old_len = old_file.memory_block@.len() as int;
    let added = pages_for(beyond);
    assert(new_file.capacity() == (old_len + added) * PAGE_SIZE);
    vstd::arithmetic::mul::lemma_mul_is_distributive_add(PAGE_SIZE as int, old_len, added);
    vstd::arithmetic::mul::lemma_mul_is_commutative(PAGE_SIZE as int, old_len + added);
    vstd::arithmetic::mul::lemma_mul_is_commutative(PAGE_SIZE as int, old_len);
    vstd::arithmetic::mul::lemma_mul_is_commutative(PAGE_SIZE as int, added);
}

/// A write that stays inside the file, or that runs past its end without
/// leaving the page it starts in, gives a file with pages no new page.
pub proof fn law_write_inside_page_adds_none(
    old_file: EmulatedFile,
    old_memory: Memory,
    new_file: EmulatedFile,
    new_memory: Memory,
    bytes: Seq<u8>,
    length: int,
    offset: int,
    n: int,
)
    requires
        old_file.memory_block@.len() > 0,
        0 <= offset <= old_file.filesize,
        0 <= length,
        offset + length <= old_file.filesize || offset % (PAGE_SIZE as int) + length <= PAGE_SIZE,
        write_effect(old_file, old_memory, new_file, new_memory, bytes, length, offset, n),
    ensures
        new_file.memory_block@ == old_file.memory_block@,
        n == if offset + length <= old_file.capacity() {
            length
        } else if offset <= old_file.capacity() {
            old_file.capacity() - offset
        } else {
            0
        },
{
    assert(new_file.memory_block@ =~= new_file.memory_block@.subrange(
        0,
        old_file.memory_block@.len() as int,
    ));
    assert(new_file.capacity() == old_file.capacity());
}

/// A read delivers no more bytes than were asked for, and never reads past
/// the end of the file: at most the bytes between `offset` and the end.
/// When the file's pages hold all its bytes, it delivers exactly the
/// smaller of the two.
pub proof fn law_read_stops_at_end(file: EmulatedFile, length: int, offset: int, n: int)
    requires
        0 <= offset <= file.filesize,
        0 <= length,
        n == file.readable(length, offset),
    ensures
        0 <= n,
        n <= length,
        n <= file.filesize - offset,
        file.capacity() >= file.filesize ==> n == if length <= file.filesize - offset {
            length
        } else {
            file.filesize - offset
        },
{
}

} // verus!
