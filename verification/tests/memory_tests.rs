use rustposix::memory::{allocate, remove_fs, try_allocate, Memory, PAGE_SIZE};

fn pool(pages: usize) -> Memory {
    Memory::new(pages * PAGE_SIZE)
}

#[test]
fn new_pool_rounds_up_to_pages() {
    let mem = Memory::new(3 * PAGE_SIZE + 1);
    assert_eq!(mem.memory_list, vec![0, 0, 0, 0]);
    assert_eq!(mem.base_address, 0);
    assert_eq!(mem.data.len(), 4 * PAGE_SIZE);
    let exact = Memory::new(2 * PAGE_SIZE);
    assert_eq!(exact.memory_list.len(), 2);
}

#[test]
fn allocate_takes_first_free_pages_in_order() {
    let mut mem = pool(4);
    assert_eq!(allocate(&mut mem, 1), vec![0]);
    assert_eq!(allocate(&mut mem, 2 * PAGE_SIZE), vec![1, 2]);
    assert_eq!(mem.memory_list, vec![1, 1, 1, 0]);
    remove_fs(&mut mem, vec![1]);
    assert_eq!(allocate(&mut mem, PAGE_SIZE + 1), vec![1, 3]);
    assert_eq!(mem.memory_list, vec![1, 1, 1, 1]);
}

#[test]
fn allocate_rounds_request_up_to_pages() {
    let mut mem = pool(4);
    assert_eq!(allocate(&mut mem, PAGE_SIZE).len(), 1);
    assert_eq!(allocate(&mut mem, PAGE_SIZE + 1).len(), 2);
}

#[test]
fn try_allocate_without_enough_pages_changes_nothing() {
    let mut mem = pool(3);
    allocate(&mut mem, 1);
    let before = mem.memory_list.clone();
    assert_eq!(try_allocate(&mut mem, 3 * PAGE_SIZE), None);
    assert_eq!(mem.memory_list, before);
}

#[test]
fn try_allocate_of_nothing_changes_nothing() {
    let mut mem = pool(2);
    assert_eq!(try_allocate(&mut mem, 0), None);
    assert_eq!(mem.memory_list, vec![0, 0]);
}

#[test]
fn remove_fs_frees_listed_pages_and_skips_others() {
    let mut mem = pool(4);
    allocate(&mut mem, 4 * PAGE_SIZE);
    remove_fs(&mut mem, vec![1, 3, 100]);
    assert_eq!(mem.memory_list, vec![1, 0, 1, 0]);
}

#[test]
fn release_undoes_allocation() {
    let mut mem = pool(5);
    allocate(&mut mem, 1);
    remove_fs(&mut mem, vec![0]);
    allocate(&mut mem, 2 * PAGE_SIZE);
    let before = mem.memory_list.clone();
    let block = allocate(&mut mem, 2 * PAGE_SIZE);
    assert_ne!(mem.memory_list, before);
    remove_fs(&mut mem, block);
    assert_eq!(mem.memory_list, before);
}
