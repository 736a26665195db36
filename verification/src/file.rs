//! Emulated files: a name, a size and the list of pool pages that hold the
//! file's bytes, page `k` of the list holding bytes `k * PAGE_SIZE ..`.

use crate::digest::{bytes_equal, sha256_digest};
use crate::memory::{
    allocate,
    free_count,
    is_kth_free,
    pages_for,
    remove_fs,
    tags_after_allocation,
    tags_after_release,
    Memory,
    PAGE_SIZE,
};
use crate::open_files::{open_names, open_set_contains, open_set_insert, open_set_remove};
use dashmap::DashSet;
use vstd::prelude::*;

verus! {

#[verifier::external_type_specification]
#[verifier::external_body]
pub struct ExIoError(std::io::Error);

/// Longest file name, in bytes of its UTF-8 encoding, that a file may have.
pub const MAX_FILENAME_LENGTH: usize = 120;

/// Address in the pool's bytes of byte `p` of a file whose pages are
/// `blocks`.
pub open spec fn page_addr(base: int, blocks: Seq<usize>, p: int) -> int {
    base + PAGE_SIZE * blocks[p / (PAGE_SIZE as int)] + p % (PAGE_SIZE as int)
}

/// The pool's bytes after the first `count` bytes of `bytes` have been
/// written, one after the other, to file positions `offset ..`.
pub open spec fn written(
    data: Seq<u8>,
    base: int,
    blocks: Seq<usize>,
    offset: int,
    bytes: Seq<u8>,
    count: nat,
) -> Seq<u8>
    decreases count,
{
    if count == 0 {
        data
    } else {
        written(data, base, blocks, offset, bytes, (count - 1) as nat).update(
            page_addr(base, blocks, offset + count - 1),
            bytes[count - 1],
        )
    }
}

/// Length in bytes of the UTF-8 encoding of a name, as `str::len` gives it.
pub open spec fn name_len(name: Seq<char>) -> usize {
    vstd::utf8::encode_utf8(name).len() as usize
}

pub open spec fn min(a: int, b: int) -> int {
    if a <= b {
        a
    } else {
        b
    }
}

pub open spec fn max(a: int, b: int) -> int {
    if a <= b {
        b
    } else {
        a
    }
}

/// Byte `p` of a number that lies inside page `block` at `pos`.
pub proof fn lemma_page_split(p: int, block: int, pos: int)
    requires
        0 <= pos < PAGE_SIZE,
        p == block * PAGE_SIZE + pos,
    ensures
        p / (PAGE_SIZE as int) == block,
        p % (PAGE_SIZE as int) == pos,
{
    vstd::arithmetic::div_mod::lemma_fundamental_div_mod_converse(p, PAGE_SIZE as int, block, pos);
}

/// Page `index` of the pool lies wholly inside its bytes.
pub proof fn lemma_page_in_pool(memory: &Memory, index: int)
    requires
        memory.wf(),
        0 <= index < memory.memory_list@.len(),
    ensures
        memory.base_address + PAGE_SIZE * index + PAGE_SIZE <= memory.data@.len(),
{
    vstd::arithmetic::mul::lemma_mul_inequality(
        index + 1,
        memory.memory_list@.len() as int,
        PAGE_SIZE as int,
    );
    vstd::arithmetic::mul::lemma_mul_is_commutative(index + 1, PAGE_SIZE as int);
    vstd::arithmetic::mul::lemma_mul_is_distributive_add(PAGE_SIZE as int, index, 1);
}

/// What a write of the first `length` bytes of `bytes` at `offset`, which
/// reached `n` bytes, did to a file and the pool: the pages it added are the
/// first free ones of the pool, in order, now marked as used, and the bytes
/// went, one after the other, to the pages of the grown file.
pub open spec fn write_effect(
    old_file: EmulatedFile,
    old_memory: Memory,
    new_file: EmulatedFile,
    new_memory: Memory,
    bytes: Seq<u8>,
    length: int,
    offset: int,
    n: int,
) -> bool {
    let added = old_file.pages_added_by_write(length, offset);
    let old_len = old_file.memory_block@.len() as int;
    &&& new_file.filename == old_file.filename
    &&& new_memory.base_address == old_memory.base_address
    &&& new_memory.memory_list@ == tags_after_allocation(old_memory.memory_list@, added)
    &&& new_file.memory_block@.len() == old_len + added
    &&& new_file.memory_block@.subrange(0, old_len) == old_file.memory_block@
    &&& forall|k: int|
        0 <= k < added ==> is_kth_free(
            old_memory.memory_list@,
            #[trigger] new_file.memory_block@[old_len + k],
            k,
        )
    &&& n == min(length, max(0, new_file.capacity() - offset))
    &&& new_memory.data@ == written(
        old_memory.data@,
        old_memory.base_address as int,
        new_file.memory_block@,
        offset,
        bytes,
        n as nat,
    )
}

/// A file of the emulated file system.
#[derive(Debug)]
pub struct EmulatedFile {
    /// Size of the file in bytes.
    pub filesize: usize,
    /// Pool pages holding the file's bytes, in file order.
    pub memory_block: Vec<usize>,
    /// The file's name.
    pub filename: String,
}

impl EmulatedFile {
    /// The file's pages all lie in the pool, and the pool is well formed.
    pub open spec fn wf(&self, memory: &Memory) -> bool {
        &&& memory.wf()
        &&& forall|i: int|
            0 <= i < self.memory_block@.len() ==> #[trigger] self.memory_block@[i]
                < memory.memory_list@.len()
    }

    /// Number of bytes that the file's pages can hold.
    pub open spec fn capacity(&self) -> int {
        self.memory_block@.len() * PAGE_SIZE
    }

    /// The `count` bytes that the file's pages hold from position `start` on.
    pub open spec fn contents(&self, memory: &Memory, start: int, count: int) -> Seq<u8> {
        Seq::new(
            count as nat,
            |i: int| memory.data@[page_addr(memory.base_address as int, self.memory_block@, start + i)],
        )
    }

    /// Number of bytes that a read of `length` bytes at `offset` delivers:
    /// no more than asked for, than the file holds past `offset`, or than
    /// its pages hold past `offset`.
    pub open spec fn readable(&self, length: int, offset: int) -> int {
        min(min(length, self.filesize - offset), max(0, self.capacity() - offset))
    }

    /// Number of pages that a write of `length` bytes at `offset` adds.
    pub open spec fn pages_added_by_write(&self, length: int, offset: int) -> int {
        if self.memory_block@.len() == 0 {
            pages_for(length)
        } else if length + offset > self.filesize && offset % (PAGE_SIZE as int) + length
            > PAGE_SIZE {
            pages_for(length + offset - self.filesize)
        } else {
            0
        }
    }

    /// Size of the file after a write of `length` bytes at `offset`.
    pub open spec fn size_after_write(&self, length: int, offset: int) -> int {
        if self.memory_block@.len() == 0 {
            length
        } else if length + offset > self.filesize {
            length + offset
        } else {
            self.filesize as int
        }
    }

    /// A write of `length` bytes at `offset` finds the pages it must add
    /// free in the pool (a first write, to a file without pages, must write
    /// at least one byte).
    pub open spec fn write_fits(&self, memory: &Memory, length: int, offset: int) -> bool {
        &&& (self.memory_block@.len() == 0 ==> length > 0)
        &&& self.pages_added_by_write(length, offset) <= free_count(memory.memory_list@)
    }

    /// Number of leading pages that a shrink to `length` bytes keeps in use.
    pub open spec fn pages_kept_by_shrink(length: int) -> int {
        if length / (PAGE_SIZE as int) == 0 {
            1
        } else {
            length / (PAGE_SIZE as int) + 2
        }
    }

    /// The pages that a shrink to `length` bytes hands back to the pool.
    pub open spec fn pages_released_by_shrink(&self, length: int) -> Seq<usize> {
        let kept = Self::pages_kept_by_shrink(length);
        if kept < self.memory_block@.len() {
            self.memory_block@.subrange(kept, self.memory_block@.len() as int)
        } else {
            Seq::empty()
        }
    }

    /// A new, empty file named `filename`, whose name is entered in the set
    /// of open files.
    fn new(open_files: &mut DashSet<String>, filename: String) -> (res: std::io::Result<EmulatedFile>)
        requires
            name_len(filename@) <= MAX_FILENAME_LENGTH,
            !open_names(*old(open_files)).contains(filename@),
        ensures
            open_names(*final(open_files)) == open_names(*old(open_files)).insert(filename@),
            res matches Ok(f) && f.filename@ == filename@ && f.filesize == 0 && f.memory_block@.len()
                == 0,
    {
        let allowed = is_allowed_filename(&filename);
        assert(allowed);
        let in_use = open_set_contains(open_files, &filename);
        assert(!in_use);
        let name = filename.clone();
        open_set_insert(open_files, name);
        Ok(EmulatedFile { filesize: 0, memory_block: Vec::new(), filename })
    }

    /// Enters the file's name in the set of open files.
    pub fn open(&self, open_files: &mut DashSet<String>) -> (res: std::io::Result<()>)
        ensures
            open_names(*final(open_files)) == open_names(*old(open_files)).insert(self.filename@),
            res is Ok,
    {
        let name = self.filename.clone();
        open_set_insert(open_files, name);
        Ok(())
    }

    /// Takes the file's name out of the set of open files.
    pub fn close(&self, open_files: &mut DashSet<String>) -> (res: std::io::Result<()>)
        ensures
            open_names(*final(open_files)) == open_names(*old(open_files)).remove(self.filename@),
            res is Ok,
    {
        open_set_remove(open_files, &self.filename);
        Ok(())
    }

    /// Reads up to `length` bytes at `offset` into the front of `buf` and
    /// returns how many were read. The bytes read from the pool and the
    /// bytes placed in `buf` are checked to have the same SHA-256 digest.
    pub fn readat(&self, memory: &Memory, buf: &mut Vec<u8>, length: usize, offset: usize) -> (res:
        std::io::Result<usize>)
        requires
            self.wf(memory),
            offset <= self.filesize,
            length <= old(buf)@.len(),
        ensures
            final(buf)@.len() == old(buf)@.len(),
            match res {
                Ok(n) => {
                    &&& n == self.readable(length as int, offset as int)
                    &&& final(buf)@.subrange(0, n as int) == self.contents(memory, offset as int, n as int)
                    &&& final(buf)@.subrange(n as int, old(buf)@.len() as int) == old(buf)@.subrange(
                        n as int,
                        old(buf)@.len() as int,
                    )
                },
                Err(_) => false,
            },
    {
        // The most that can be read: what the file holds past `offset`.
        let len: usize = if length > self.filesize - offset {
            self.filesize - offset
        } else {
            length
        };
        // The page to start from, and the position inside it.
        let offset_block = offset / PAGE_SIZE;
        let offset_pos = offset % PAGE_SIZE;
        proof {
            vstd::arithmetic::div_mod::lemma_fundamental_div_mod(offset as int, PAGE_SIZE as int);
        }
        let buf_len = buf.len();
        let ghost old_buf = buf@;
        let mut remain_len = len;
        let mut mem_read: Vec<u8> = Vec::new();
        let mut buf_read: Vec<u8> = Vec::new();
        let mut copied: usize = 0;
        let mut block = offset_block;
        let mut first = true;
        let mut done = false;
        while !done && block < self.memory_block.len()
            invariant
                self.wf(memory),
                offset <= self.filesize,
                len <= length <= old_buf.len(),
                len <= self.filesize - offset,
                offset == offset_block * PAGE_SIZE + offset_pos,
                offset_pos < PAGE_SIZE,
                copied + remain_len == len,
                buf@.len() == old_buf.len(),
                first ==> copied == 0 && block == offset_block && !done,
                !first ==> block <= self.memory_block@.len(),
                !first && !done ==> offset + copied == block * PAGE_SIZE,
                !first ==> offset + copied <= block * PAGE_SIZE,
                old_buf.len() == buf_len,
                !first ==> (done <==> remain_len == 0),
                forall|i: int|
                    0 <= i < copied ==> #[trigger] buf@[i] == memory.data@[page_addr(
                        memory.base_address as int,
                        self.memory_block@,
                        offset + i,
                    )],
                forall|i: int| copied <= i < old_buf.len() ==> #[trigger] buf@[i] == old_buf[i],
                mem_read@ == buf@.subrange(0, copied as int),
                buf_read@ == mem_read@,
            decreases self.memory_block@.len() - block + (if done { 0int } else { 1int }),
        {
            let index = self.memory_block[block];
            proof {
                lemma_page_in_pool(memory, index as int);
            }
            let block_start = memory.base_address + PAGE_SIZE * index;
            // Only the first page is entered part-way.
            let start = if first {
                offset_pos
            } else {
                0
            };
            let bytes_to_copy = if remain_len < PAGE_SIZE - start {
                remain_len
            } else {
                PAGE_SIZE - start
            };
            remain_len = remain_len - bytes_to_copy;
            let mut k: usize = 0;
            while k < bytes_to_copy
                invariant
                    self.wf(memory),
                    index == self.memory_block@[block as int],
                    block < self.memory_block@.len(),
                    block_start == memory.base_address + PAGE_SIZE * index,
                    block_start + PAGE_SIZE <= memory.data@.len(),
                    start + bytes_to_copy <= PAGE_SIZE,
                    offset + copied == block * PAGE_SIZE + start,
                    copied + bytes_to_copy <= old_buf.len(),
                    old_buf.len() <= usize::MAX,
                    k <= bytes_to_copy,
                    buf@.len() == old_buf.len(),
                    forall|i: int|
                        0 <= i < copied + k ==> #[trigger] buf@[i] == memory.data@[page_addr(
                            memory.base_address as int,
                            self.memory_block@,
                            offset + i,
                        )],
                    forall|i: int| copied + k <= i < old_buf.len() ==> #[trigger] buf@[i] == old_buf[i],
                    mem_read@ == buf@.subrange(0, copied + k),
                    buf_read@ == mem_read@,
                decreases bytes_to_copy - k,
            {
                let b = memory.data[block_start + start + k];
                proof {
                    lemma_page_split(offset + copied + k, block as int, start + k);
                    assert(page_addr(memory.base_address as int, self.memory_block@, offset + copied + k)
                        == block_start + start + k);
                }
                mem_read.push(b);
                let pos = copied + k;
                buf[pos] = b;
                buf_read.push(buf[pos]);
                k = k + 1;
                proof {
                    assert(mem_read@ =~= buf@.subrange(0, copied + k));
                }
            }
            copied = copied + bytes_to_copy;
            if remain_len == 0 {
                done = true;
            }
            first = false;
            block = block + 1;
        }
        proof {
            // The read stopped at the length asked for, or at the end of the
            // file's pages.
            if done {
                vstd::arithmetic::mul::lemma_mul_inequality(
                    block as int,
                    self.memory_block@.len() as int,
                    PAGE_SIZE as int,
                );
            } else if first {
                vstd::arithmetic::mul::lemma_mul_inequality(
                    self.memory_block@.len() as int,
                    offset_block as int,
                    PAGE_SIZE as int,
                );
            }
        }
        // Both digests are taken over the same bytes, so they agree.
        let hash_mem = sha256_digest(mem_read.as_slice());
        let hash_buf = sha256_digest(buf_read.as_slice());
        let same = bytes_equal(&hash_mem, &hash_buf);
        assert(same);
        proof {
            assert(buf@.subrange(0, copied as int) =~= self.contents(memory, offset as int, copied as int));
            assert(buf@.subrange(copied as int, old_buf.len() as int) =~= old_buf.subrange(
                copied as int,
                old_buf.len() as int,
            ));
        }
        Ok(len - remain_len)
    }

    /// Writes the first `length` bytes of `buf` at `offset`, first giving
    /// the file pages from the pool where the write goes past its end, and
    /// returns how many bytes reached the file's pages.
    pub fn writeat(&mut self, memory: &mut Memory, buf: &[u8], length: usize, offset: usize) -> (res:
        std::io::Result<usize>)
        requires
            old(self).wf(old(memory)),
            offset <= old(self).filesize,
            length <= buf@.len(),
            length + offset <= usize::MAX,
            old(self).write_fits(old(memory), length as int, offset as int),
        ensures
            final(self).wf(final(memory)),
            final(self).filesize == old(self).size_after_write(length as int, offset as int),
            res matches Ok(n) && write_effect(
                *old(self),
                *old(memory),
                *final(self),
                *final(memory),
                buf@,
                length as int,
                offset as int,
                n as int,
            ),
    {
        let ghost old_blocks = self.memory_block@;
        let ghost old_tags = memory.memory_list@;
        let ghost old_data = memory.data@;
        let ghost added = self.pages_added_by_write(length as int, offset as int);
        // The page to start from, and the position inside it.
        let offset_block = offset / PAGE_SIZE;
        let offset_pos = offset % PAGE_SIZE;
        proof {
            vstd::arithmetic::div_mod::lemma_fundamental_div_mod(offset as int, PAGE_SIZE as int);
        }
        if self.memory_block.len() == 0 {
            // First write: the file gets its pages.
            self.filesize = length;
            let mut allocated = allocate(memory, length);
            self.memory_block.append(&mut allocated);
        } else if length + offset > self.filesize {
            let extendsize = length + offset - self.filesize;
            // The write runs past the first page it touches: extend.
            if offset_pos + length > PAGE_SIZE {
                let mut extendblock = allocate(memory, extendsize);
                self.memory_block.append(&mut extendblock);
            }
            self.filesize = length + offset;
        }
        proof {
            assert(self.memory_block@.subrange(0, old_blocks.len() as int) =~= old_blocks);
            assert forall|i: int| 0 <= i < self.memory_block@.len() implies #[trigger] self.memory_block@[i]
                < memory.memory_list@.len() by {
                if i >= old_blocks.len() {
                    assert(is_kth_free(old_tags, self.memory_block@[old_blocks.len() + (i - old_blocks.len())], i - old_blocks.len()));
                } else {
                    assert(self.memory_block@[i] == old_blocks[i]);
                }
            }
            assert(memory.memory_list@ == tags_after_allocation(old_tags, added)) by {
                if added == 0 {
                    assert(memory.memory_list@ =~= tags_after_allocation(old_tags, added));
                }
            }
        }
        let mut remain_len = length;
        let mut copied: usize = 0;
        let mut block = offset_block;
        let mut first = true;
        let mut done = false;
        while !done && block < self.memory_block.len()
            invariant
                self.wf(memory),
                memory.base_address == old(memory).base_address,
                memory.memory_list@ == tags_after_allocation(old_tags, added),
                length <= buf@.len(),
                offset == offset_block * PAGE_SIZE + offset_pos,
                offset_pos < PAGE_SIZE,
                copied + remain_len == length,
                first ==> copied == 0 && block == offset_block && !done,
                !first ==> block <= self.memory_block@.len(),
                !first && !done ==> offset + copied == block * PAGE_SIZE,
                !first ==> offset + copied <= block * PAGE_SIZE,
                !first ==> (done <==> remain_len == 0),
                memory.data@ == written(
                    old_data,
                    memory.base_address as int,
                    self.memory_block@,
                    offset as int,
                    buf@,
                    copied as nat,
                ),
            decreases self.memory_block@.len() - block + (if done { 0int } else { 1int }),
        {
            let index = self.memory_block[block];
            proof {
                lemma_page_in_pool(memory, index as int);
            }
            let block_start = memory.base_address + PAGE_SIZE * index;
            // Only the first page is entered part-way.
            let start = if first {
                offset_pos
            } else {
                0
            };
            let bytes_to_copy = if remain_len < PAGE_SIZE - start {
                remain_len
            } else {
                PAGE_SIZE - start
            };
            remain_len = remain_len - bytes_to_copy;
            let mut k: usize = 0;
            while k < bytes_to_copy
                invariant
                    self.wf(memory),
                    memory.base_address == old(memory).base_address,
                    memory.memory_list@ == tags_after_allocation(old_tags, added),
                    index == self.memory_block@[block as int],
                    block < self.memory_block@.len(),
                    block_start == memory.base_address + PAGE_SIZE * index,
                    block_start + PAGE_SIZE <= memory.data@.len(),
                    start + bytes_to_copy <= PAGE_SIZE,
                    offset + copied == block * PAGE_SIZE + start,
                    copied + bytes_to_copy <= length,
                    length <= buf@.len(),
                    k <= bytes_to_copy,
                    memory.data@ == written(
                        old_data,
                        memory.base_address as int,
                        self.memory_block@,
                        offset as int,
                        buf@,
                        (copied + k) as nat,
                    ),
                decreases bytes_to_copy - k,
            {
                let pos = copied + k;
                proof {
                    lemma_page_split(offset + copied + k, block as int, start + k);
                    assert(page_addr(memory.base_address as int, self.memory_block@, offset + copied + k)
                        == block_start + start + k);
                }
                memory.data[block_start + start + k] = buf[pos];
                k = k + 1;
            }
            copied = copied + bytes_to_copy;
            if remain_len == 0 {
                done = true;
            }
            first = false;
            block = block + 1;
        }
        proof {
            if done {
                vstd::arithmetic::mul::lemma_mul_inequality(
                    block as int,
                    self.memory_block@.len() as int,
                    PAGE_SIZE as int,
                );
            } else if first {
                vstd::arithmetic::mul::lemma_mul_inequality(
                    self.memory_block@.len() as int,
                    offset_block as int,
                    PAGE_SIZE as int,
                );
            }
        }
        Ok(length - remain_len)
    }

    /// Cuts the file down to `length` bytes and hands back to the pool the
    /// pages past the ones a file of that size keeps; the file's own list of
    /// pages is left as it was.
    pub fn shrink(&mut self, memory: &mut Memory, length: usize) -> (res: std::io::Result<()>)
        requires
            length <= old(self).filesize,
        ensures
            res is Ok,
            final(self).filesize == length,
            final(self).memory_block == old(self).memory_block,
            final(self).filename == old(self).filename,
            final(memory).base_address == old(memory).base_address,
            final(memory).data@ == old(memory).data@,
            final(memory).memory_list@ == tags_after_release(
                old(memory).memory_list@,
                old(self).pages_released_by_shrink(length as int),
            ),
    {
        // The pages still needed by a file of `length` bytes.
        let new_block_total: usize = if length / PAGE_SIZE == 0 {
            0
        } else {
            length / PAGE_SIZE + 1
        };
        let mut removed_block: Vec<usize> = Vec::new();
        let len = self.memory_block.len();
        if new_block_total + 1 < len {
            let mut j: usize = new_block_total + 1;
            while j < len
                invariant
                    new_block_total + 1 <= j <= len,
                    len == self.memory_block@.len(),
                    removed_block@ == self.memory_block@.subrange(new_block_total + 1, j as int),
                decreases len - j,
            {
                removed_block.push(self.memory_block[j]);
                j = j + 1;
                proof {
                    assert(removed_block@ =~= self.memory_block@.subrange(new_block_total + 1, j as int));
                }
            }
        }
        proof {
            assert(removed_block@ =~= self.pages_released_by_shrink(length as int));
        }
        remove_fs(memory, removed_block);
        self.filesize = length;
        Ok(())
    }

    /// A new vector of the file's size holding the file's bytes, as far as
    /// its pages reach, and zeros after them.
    pub fn readfile_to_new_bytes(&self, memory: &Memory) -> (res: std::io::Result<Vec<u8>>)
        requires
            self.wf(memory),
        ensures
            res matches Ok(bytes) && {
                let n = self.readable(self.filesize as int, 0);
                &&& bytes@.len() == self.filesize
                &&& bytes@.subrange(0, n) == self.contents(memory, 0, n)
                &&& forall|i: int| n <= i < self.filesize ==> #[trigger] bytes@[i] == 0
            },
    {
        let mut stringbuf: Vec<u8> = vec![0u8; self.filesize];
        let ghost zeros = stringbuf@;
        match self.readat(memory, &mut stringbuf, self.filesize, 0) {
            Ok(n) => {
                proof {
                    assert forall|i: int| n <= i < self.filesize implies #[trigger] stringbuf@[i] == 0 by {
                        assert(stringbuf@[i] == stringbuf@.subrange(n as int, self.filesize as int)[i - n]);
                        assert(zeros[i] == zeros.subrange(n as int, self.filesize as int)[i - n]);
                    }
                }
                Ok(stringbuf)
            },
            Err(e) => Err(e),
        }
    }

    /// Appends the bytes of `buf` at the end of the file.
    pub fn writefile_from_bytes(&mut self, memory: &mut Memory, buf: &[u8]) -> (res: std::io::Result<()>)
        requires
            old(self).wf(old(memory)),
            old(self).filesize + buf@.len() <= usize::MAX,
            old(self).write_fits(old(memory), buf@.len() as int, old(self).filesize as int),
        ensures
            res is Ok,
            final(self).wf(final(memory)),
            final(self).filesize == old(self).filesize + buf@.len(),
            exists|n: int|
                write_effect(
                    *old(self),
                    *old(memory),
                    *final(self),
                    *final(memory),
                    buf@,
                    buf@.len() as int,
                    old(self).filesize as int,
                    n,
                ),
    {
        let length = buf.len();
        let offset = self.filesize;
        let written = self.writeat(memory, buf, length, offset);
        if offset + length > self.filesize {
            self.filesize = offset + length;
        }
        proof {
            let n = written->Ok_0 as int;
            assert(write_effect(*old(self), *old(memory), *self, *memory, buf@, length as int, offset as int, n));
        }
        Ok(())
    }

    /// Writes `count` zero bytes at `offset` and returns how many reached the
    /// file's pages.
    pub fn zerofill_at(&mut self, memory: &mut Memory, offset: usize, count: usize) -> (res:
        std::io::Result<usize>)
        requires
            old(self).wf(old(memory)),
            offset <= old(self).filesize,
            offset + count <= usize::MAX,
            old(self).write_fits(old(memory), count as int, offset as int),
        ensures
            final(self).wf(final(memory)),
            final(self).filesize == max(
                old(self).size_after_write(count as int, offset as int),
                offset + count,
            ),
            res matches Ok(n) && write_effect(
                *old(self),
                *old(memory),
                *final(self),
                *final(memory),
                Seq::new(count as nat, |i: int| 0u8),
                count as int,
                offset as int,
                n as int,
            ),
    {
        let buf: Vec<u8> = vec![0u8; count];
        proof {
            assert(buf@ =~= Seq::new(count as nat, |i: int| 0u8));
        }
        let bytes_written = match self.writeat(memory, buf.as_slice(), buf.len(), offset) {
            Ok(n) => n,
            Err(e) => return Err(e),
        };
        if offset + count > self.filesize {
            self.filesize = offset + count;
        }
        Ok(bytes_written)
    }
}

/// Whether `filename` is short enough to name a file.
pub fn is_allowed_filename(filename: &String) -> (ok: bool)
    ensures
        ok == (name_len(filename@) <= MAX_FILENAME_LENGTH),
{
    filename.as_str().len() <= MAX_FILENAME_LENGTH
}

} // verus!

verus! {

/// Creates an empty file named `filename` and enters its name in the set of
/// open files.
pub fn openfile(open_files: &mut DashSet<String>, filename: String) -> (res: std::io::Result<EmulatedFile>)
    requires
        name_len(filename@) <= MAX_FILENAME_LENGTH,
        !open_names(*old(open_files)).contains(filename@),
    ensures
        open_names(*final(open_files)) == open_names(*old(open_files)).insert(filename@),
        res matches Ok(f) && f.filename@ == filename@ && f.filesize == 0 && f.memory_block@.len() == 0,
{
    EmulatedFile::new(open_files, filename)
}

} // verus!

verus! {

/// The number that a sequence of bytes spells in big-endian order.
pub open spec fn be_value(bytes: Seq<u8>) -> nat
    decreases bytes.len(),
{
    if bytes.len() == 0 {
        0
    } else {
        (be_value(bytes.drop_last()) * 256 + bytes.last()) as nat
    }
}

/// `256` to the power `i`.
pub open spec fn byte_bound(i: nat) -> nat
    decreases i,
{
    if i == 0 {
        1
    } else {
        byte_bound((i - 1) as nat) * 256
    }
}

/// Reads eight big-endian bytes as a size.
pub fn convert_bytes_to_size(bytes_to_write: &[u8]) -> (size: usize)
    requires
        bytes_to_write@.len() == 8,
        be_value(bytes_to_write@) <= usize::MAX,
    ensures
        size == be_value(bytes_to_write@),
{
    let mut value: u64 = 0;
    let mut i: usize = 0;
    proof {
        reveal_with_fuel(byte_bound, 9);
        assert(byte_bound(8) == 0x1_0000_0000_0000_0000);
    }
    while i < 8
        invariant
            bytes_to_write@.len() == 8,
            i <= 8,
            value == be_value(bytes_to_write@.take(i as int)),
            value < byte_bound(i as nat),
            byte_bound(8) == 0x1_0000_0000_0000_0000,
        decreases 8 - i,
    {
        proof {
            if i < 7 {
                lemma_byte_bound_monotone((i + 1) as nat, 8);
            }
            assert(bytes_to_write@.take(i + 1).drop_last() =~= bytes_to_write@.take(i as int));
        }
        value = value * 256 + bytes_to_write[i] as u64;
        i = i + 1;
    }
    proof {
        assert(bytes_to_write@.take(8) =~= bytes_to_write@);
    }
    value as usize
}

pub proof fn lemma_byte_bound_monotone(i: nat, j: nat)
    requires
        i <= j,
    ensures
        byte_bound(i) <= byte_bound(j),
    decreases j - i,
{
    if i < j {
        lemma_byte_bound_monotone(i, (j - 1) as nat);
    }
}

/// Whether `c` may stand in a file name: a letter or digit, or a period.
pub fn is_allowed_char(c: char) -> (allowed: bool)
    ensures
        allowed == (unicode_alphanumeric(c) || c == '.'),
{
    char_is_alphanumeric(c) || c == '.'
}

/// Whether a character is alphabetic or numeric in Unicode's terms, as
/// `char::is_alphanumeric` decides.
pub uninterp spec fn unicode_alphanumeric(c: char) -> bool;

/// Calls `char::is_alphanumeric`. Claimed: the result is the property
/// named `unicode_alphanumeric(c)`.
#[verifier::external_body]
fn char_is_alphanumeric(c: char) -> (b: bool)
    ensures
        b == unicode_alphanumeric(c),
{
    c.is_alphanumeric()
}

} // verus!

verus! {

/// Creates an empty file named `filename`, as `openfile` does, when the name
/// is short enough and no open file has it; otherwise changes nothing and
/// returns `None`.
pub fn openfile_checked(open_files: &mut DashSet<String>, filename: String) -> (res: Option<
    EmulatedFile,
>)
    ensures
        res is Some <==> (name_len(filename@) <= MAX_FILENAME_LENGTH && !open_names(
            *old(open_files),
        ).contains(filename@)),
        match res {
            Some(f) => {
                &&& open_names(*final(open_files)) == open_names(*old(open_files)).insert(filename@)
                &&& f.filename@ == filename@
                &&& f.filesize == 0
                &&& f.memory_block@.len() == 0
            },
            None => open_names(*final(open_files)) == open_names(*old(open_files)),
        },
{
    if !is_allowed_filename(&filename) {
        return None;
    }
    if open_set_contains(open_files, &filename) {
        return None;
    }
    match openfile(open_files, filename) {
        Ok(f) => Some(f),
        Err(_) => None,
    }
}

} // verus!
