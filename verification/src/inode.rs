//! Inodes, the name-to-inode tables of directories, and the table of all
//! inodes by number, both held in `dashmap::DashMap`s.

use dashmap::DashMap;
use vstd::prelude::*;

verus! {

/// A device number.
#[derive(Debug, Clone)]
pub struct DevNo {
    pub major: u32,
    pub minor: u32,
}

/// The inode of a regular file.
#[derive(Debug, Clone)]
pub struct GenericInode {
    pub size: usize,
    pub uid: u32,
    pub gid: u32,
    pub mode: u32,
    pub linkcount: u32,
    pub refcount: u32,
    pub atime: u64,
    pub ctime: u64,
    pub mtime: u64,
}

/// The inode of a character device.
#[derive(Debug, Clone)]
pub struct DeviceInode {
    pub size: usize,
    pub uid: u32,
    pub gid: u32,
    pub mode: u32,
    pub linkcount: u32,
    pub refcount: u32,
    pub atime: u64,
    pub ctime: u64,
    pub mtime: u64,
    pub dev: DevNo,
}

/// The inode of a socket.
#[derive(Debug, Clone)]
pub struct SocketInode {
    pub size: usize,
    pub uid: u32,
    pub gid: u32,
    pub mode: u32,
    pub linkcount: u32,
    pub refcount: u32,
    pub atime: u64,
    pub ctime: u64,
    pub mtime: u64,
}

/// The inode of a directory, with its entries.
#[derive(Debug, Clone)]
pub struct DirectoryInode {
    pub size: usize,
    pub uid: u32,
    pub gid: u32,
    pub mode: u32,
    pub linkcount: u32,
    pub refcount: u32,
    pub atime: u64,
    pub ctime: u64,
    pub mtime: u64,
    pub filename_to_inode_dict: DashMap<String, usize>,
}

/// An inode of any kind.
#[derive(Debug, Clone)]
pub enum Inode {
    File(GenericInode),
    CharDev(DeviceInode),
    Socket(SocketInode),
    Dir(DirectoryInode),
}

#[verifier::external_type_specification]
#[verifier::external_body]
#[verifier::reject_recursive_types(K)]
#[verifier::reject_recursive_types(V)]
#[verifier::reject_recursive_types(S)]
pub struct ExDashMap<K, V, S>(dashmap::DashMap<K, V, S>);

/// `DashMap`'s `Clone`, which copies every shard with its entries. Nothing
/// is claimed of the copy here.
pub assume_specification<K: Eq + core::hash::Hash + Clone, V: Clone, S: Clone>[
    <dashmap::DashMap<K, V, S> as Clone>::clone
](map: &dashmap::DashMap<K, V, S>) -> dashmap::DashMap<K, V, S>;

/// The entries that a directory's table holds: each name with the inode
/// number it stands for.
pub uninterp spec fn dir_entries(dict: DashMap<String, usize>) -> Map<Seq<char>, usize>;

/// The inode number that `name` stands for among `entries`, if any.
pub open spec fn lookup(entries: Map<Seq<char>, usize>, name: Seq<char>) -> Option<usize> {
    if entries.dom().contains(name) {
        Some(entries[name])
    } else {
        None
    }
}

/// No entries at all.
pub open spec fn no_entries() -> Map<Seq<char>, usize> {
    Map::empty()
}

/// Calls `DashMap::new`: an empty table.
#[verifier::external_body]
pub(crate) fn dict_new() -> (dict: DashMap<String, usize>)
    ensures
        dir_entries(dict) == no_entries(),
{
    DashMap::new()
}

/// Calls `DashMap::insert`: afterwards `name` stands for `inode`; the result
/// is the number it stood for before, if any.
#[verifier::external_body]
pub(crate) fn dict_insert(dict: &mut DashMap<String, usize>, name: String, inode: usize) -> (previous:
    Option<usize>)
    ensures
        dir_entries(*final(dict)) == dir_entries(*old(dict)).insert(name@, inode),
        previous == lookup(dir_entries(*old(dict)), name@),
{
    dict.insert(name, inode)
}

/// Calls `DashMap::get`: the number that `name` stands for, if any.
#[verifier::external_body]
pub(crate) fn dict_get(dict: &DashMap<String, usize>, name: &String) -> (inode: Option<usize>)
    ensures
        inode == lookup(dir_entries(*dict), name@),
{
    match dict.get(name) {
        Some(entry) => Some(*entry),
        None => None,
    }
}

/// Calls `DashMap::remove`: afterwards `name` stands for nothing; the result
/// is the number it stood for, if any.
#[verifier::external_body]
pub(crate) fn dict_remove(dict: &mut DashMap<String, usize>, name: &String) -> (previous: Option<
    usize,
>)
    ensures
        dir_entries(*final(dict)) == dir_entries(*old(dict)).remove(name@),
        previous == lookup(dir_entries(*old(dict)), name@),
{
    match dict.remove(name) {
        Some((_, inode)) => Some(inode),
        None => None,
    }
}

/// Walks the table with `DashMap::iter` and copies out each entry once, in
/// the order the iteration visits them. Claimed: no name occurs twice, and
/// an entry is in the list exactly when the table holds it. The order is
/// left unsaid: the iteration follows the hashes.
#[verifier::external_body]
pub(crate) fn dict_entries_list(dict: &DashMap<String, usize>) -> (list: Vec<(String, usize)>)
    ensures
        forall|i: int, j: int| 0 <= i < j < list@.len() ==> list@[i].0@ != list@[j].0@,
        forall|i: int|
            0 <= i < list@.len() ==> #[trigger] dir_entries(*dict).dom().contains(list@[i].0@)
                && dir_entries(*dict)[list@[i].0@] == list@[i].1,
        forall|name: Seq<char>|
            #[trigger] dir_entries(*dict).dom().contains(name) ==> exists|i: int|
                0 <= i < list@.len() && list@[i].0@ == name,
{
    let mut list = Vec::new();
    for entry in dict.iter() {
        list.push((entry.key().clone(), *entry.value()));
    }
    list
}

/// The inodes that the inode table holds, by number.
pub uninterp spec fn table_entries(table: DashMap<usize, Inode>) -> Map<usize, Inode>;

/// The inode numbered `k` among `entries`, if any.
pub open spec fn table_lookup(entries: Map<usize, Inode>, k: usize) -> Option<Inode> {
    if entries.dom().contains(k) {
        Some(entries[k])
    } else {
        None
    }
}

/// No inodes at all.
pub open spec fn no_inodes() -> Map<usize, Inode> {
    Map::empty()
}

/// Calls `DashMap::new`: an empty inode table.
#[verifier::external_body]
pub(crate) fn table_new() -> (table: DashMap<usize, Inode>)
    ensures
        table_entries(table) == no_inodes(),
{
    DashMap::new()
}

/// Calls `DashMap::contains_key`: whether inode `k` is in the table.
#[verifier::external_body]
pub(crate) fn table_contains(table: &DashMap<usize, Inode>, k: usize) -> (found: bool)
    ensures
        found == table_entries(*table).dom().contains(k),
{
    table.contains_key(&k)
}

/// Calls `DashMap::get` and clones the inode it finds under the entry's
/// guard. Claimed: the copy equals inode `k` as the table holds it (the
/// derived `Clone` copies each field, and a directory's name table is
/// copied by `DashMap`'s `Clone` with every entry); `None` when the table
/// lacks `k`.
#[verifier::external_body]
pub(crate) fn table_get(table: &DashMap<usize, Inode>, k: usize) -> (inode: Option<Inode>)
    ensures
        inode == table_lookup(table_entries(*table), k),
{
    match table.get(&k) {
        Some(entry) => Some(entry.value().clone()),
        None => None,
    }
}

/// Calls `DashMap::insert`: afterwards the table holds `inode` as number
/// `k`; the result is the inode that had that number before, if any.
#[verifier::external_body]
pub(crate) fn table_insert(table: &mut DashMap<usize, Inode>, k: usize, inode: Inode) -> (previous:
    Option<Inode>)
    ensures
        table_entries(*final(table)) == table_entries(*old(table)).insert(k, inode),
        previous == table_lookup(table_entries(*old(table)), k),
{
    table.insert(k, inode)
}

/// Calls `DashMap::remove`: afterwards the table lacks `k`; the result is
/// the inode it held under that number, if any.
#[verifier::external_body]
pub(crate) fn table_remove(table: &mut DashMap<usize, Inode>, k: usize) -> (previous: Option<Inode>)
    ensures
        table_entries(*final(table)) == table_entries(*old(table)).remove(k),
        previous == table_lookup(table_entries(*old(table)), k),
{
    match table.remove(&k) {
        Some((_, inode)) => Some(inode),
        None => None,
    }
}

} // verus!
