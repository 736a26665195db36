//! The metadata of the file tree: the inode table, the fresh and formatted
//! trees, walks from the root along a path, and the bookkeeping of links and
//! references.

use crate::inode::{
    dict_entries_list,
    dict_get,
    dict_insert,
    dict_new,
    dict_remove,
    dir_entries,
    lookup,
    DevNo,
    DeviceInode,
    DirectoryInode,
    Inode,
    table_contains,
    table_entries,
    table_get,
    table_insert,
    table_new,
    table_remove,
};
use dashmap::DashMap;
use crate::path::{file_name_of, paths_equal, Component, ComponentView, PathBuf};
use vstd::prelude::*;

verus! {

/// Name of the file the metadata would be kept in.
pub const METADATAFILENAME: &'static str = "lind.metadata";

/// Name of the file the metadata log would be kept in.
pub const LOGFILENAME: &'static str = "lind.md.log";

/// Inode number of the root directory.
pub const ROOTDIRECTORYINODE: usize = 1;

/// Last inode number reserved for the standard streams.
pub const STREAMINODE: usize = 2;

/// Owner of the files the file system creates itself.
pub const DEFAULT_UID: u32 = 1000;

/// Group of the files the file system creates itself.
pub const DEFAULT_GID: u32 = 1000;

/// File type bits of a directory.
pub const S_IFDIR: u32 = 0o40000;

/// File type bits of a character device.
pub const S_IFCHR: u32 = 0o20000;

/// File type bits of a regular file.
pub const S_IFREG: u32 = 0o100000;

/// Read, write and execute rights for everyone.
pub const S_IRWXA: u32 = 0o777;

/// The metadata of the whole file tree.
#[derive(Debug)]
pub struct FilesystemMetadata {
    /// The number the next new inode gets.
    pub nextinode: usize,
    pub dev_id: u64,
    pub inodetable: DashMap<usize, Inode>,
}

/// The entries of a fresh directory: `.` for itself and `..` for its
/// parent.
pub fn init_filename_to_inode_dict(curinode: usize, parentinode: usize) -> (dict: DashMap<
    String,
    usize,
>)
    ensures
        dir_entries(dict) == map![seq!['.'] => curinode, seq!['.', '.'] => parentinode],
{
    let mut retval = dict_new();
    let dot = String::from_str(".");
    let dotdot = String::from_str("..");
    proof {
        reveal_strlit(".");
        reveal_strlit("..");
        assert(dot@ =~= seq!['.']);
        assert(dotdot@ =~= seq!['.', '.']);
    }
    dict_insert(&mut retval, dot, curinode);
    dict_insert(&mut retval, dotdot, parentinode);
    assert(dir_entries(retval) =~= map![seq!['.'] => curinode, seq!['.', '.'] => parentinode]);
    retval
}

#[verifier::external_type_specification]
#[verifier::external_body]
pub struct ExSystemTime(std::time::SystemTime);

#[verifier::external_type_specification]
#[verifier::external_body]
pub struct ExSystemTimeError(std::time::SystemTimeError);

/// Calls `SystemTime::now`. Nothing is claimed of the result: it is what
/// the system clock reads.
#[verifier::external_body]
fn system_time_now() -> std::time::SystemTime {
    std::time::SystemTime::now()
}

/// Calls `SystemTime::duration_since` with the Unix epoch. Nothing is
/// claimed of the result: it follows the clock reading, which is opaque
/// here.
#[verifier::external_body]
fn since_unix_epoch(t: &std::time::SystemTime) -> std::result::Result<
    std::time::Duration,
    std::time::SystemTimeError,
> {
    t.duration_since(std::time::UNIX_EPOCH)
}

/// Calls `Duration::as_secs`. Nothing is claimed of the result: a
/// `Duration` is opaque here.
#[verifier::external_body]
fn whole_seconds(d: &std::time::Duration) -> u64 {
    d.as_secs()
}

/// Whole seconds since the Unix epoch by the system clock, 0 for a clock
/// set before it.
fn timestamp() -> u64 {
    let now = system_time_now();
    match since_unix_epoch(&now) {
        Ok(d) => whole_seconds(&d),
        Err(_) => 0,
    }
}

/// A directory inode of the file system's own making.
pub open spec fn is_own_dir(
    inode: Inode,
    mode: u32,
    linkcount: u32,
    entries: Map<Seq<char>, usize>,
) -> bool {
    inode matches Inode::Dir(d) && {
        &&& d.size == 0
        &&& d.uid == DEFAULT_UID
        &&& d.gid == DEFAULT_GID
        &&& d.mode == mode
        &&& d.linkcount == linkcount
        &&& d.refcount == 0
        &&& d.atime == d.ctime == d.mtime
        &&& dir_entries(d.filename_to_inode_dict) == entries
    }
}

/// A character device inode of the file system's own making.
pub open spec fn is_own_device(inode: Inode, major: u32, minor: u32, time: u64) -> bool {
    inode matches Inode::CharDev(c) && {
        &&& c.size == 0
        &&& c.uid == DEFAULT_UID
        &&& c.gid == DEFAULT_UID
        &&& c.mode == S_IFCHR | 666
        &&& c.linkcount == 1
        &&& c.refcount == 0
        &&& c.atime == time && c.ctime == time && c.mtime == time
        &&& c.dev.major == major && c.dev.minor == minor
    }
}

/// The times of a directory inode.
pub open spec fn dir_time(inode: Inode) -> u64 {
    match inode {
        Inode::Dir(d) => d.mtime,
        _ => 0,
    }
}

/// A file tree holding only the root directory, which is its own parent,
/// with the next inode number just past the standard streams.
pub open spec fn is_blank_fs(md: FilesystemMetadata) -> bool {
    &&& md.nextinode == STREAMINODE + 1
    &&& md.dev_id == 20
    &&& table_entries(md.inodetable).dom() == set![ROOTDIRECTORYINODE]
    &&& is_own_dir(
        table_entries(md.inodetable)[ROOTDIRECTORYINODE],
        S_IFDIR | S_IRWXA,
        3,
        map![seq!['.'] => ROOTDIRECTORYINODE, seq!['.', '.'] => ROOTDIRECTORYINODE],
    )
}

impl FilesystemMetadata {
    /// A file tree holding only the root directory, which is its own parent.
    pub fn blank_fs_init() -> (md: FilesystemMetadata)
        ensures
            is_blank_fs(md),
    {
        let mut inodetable = table_new();
        let time = timestamp();
        // Links: `.`, `..`, and one that keeps the root from ever being removed.
        let dirinode = DirectoryInode {
            size: 0,
            uid: DEFAULT_UID,
            gid: DEFAULT_GID,
            mode: S_IFDIR | S_IRWXA,
            linkcount: 3,
            refcount: 0,
            atime: time,
            ctime: time,
            mtime: time,
            filename_to_inode_dict: init_filename_to_inode_dict(
                ROOTDIRECTORYINODE,
                ROOTDIRECTORYINODE,
            ),
        };
        table_insert(&mut inodetable, ROOTDIRECTORYINODE, Inode::Dir(dirinode));
        let md = FilesystemMetadata { nextinode: STREAMINODE + 1, dev_id: 20, inodetable };
        assert(table_entries(md.inodetable).dom() =~= set![ROOTDIRECTORYINODE]);
        md
    }

    /// The file tree the file system starts from: a blank one.
    pub fn init_fs_metadata() -> (md: FilesystemMetadata)
        ensures
            is_blank_fs(md),
    {
        FilesystemMetadata::blank_fs_init()
    }
}

/// Whether an inode survives a consistency check: files and devices that
/// something links to, directories with an entry besides `.` and `..`.
pub open spec fn survives_fsck(inode: Inode) -> bool {
    match inode {
        Inode::File(f) => f.linkcount != 0,
        Inode::Dir(d) => d.linkcount > 2,
        Inode::CharDev(c) => c.linkcount != 0,
        Inode::Socket(_) => false,
    }
}

fn keeps_inode(inode: &Inode) -> (keep: bool)
    ensures
        keep == survives_fsck(*inode),
{
    match inode {
        Inode::File(f) => f.linkcount != 0,
        Inode::Dir(d) => d.linkcount > 2,
        Inode::CharDev(c) => c.linkcount != 0,
        Inode::Socket(_) => false,
    }
}

/// The table that the consistency check leaves: the inodes of `t` that
/// survive it.
pub open spec fn checked_table(t: Map<usize, Inode>) -> Map<usize, Inode> {
    t.restrict(Set::new(|k: usize| t.dom().contains(k) && survives_fsck(t[k])))
}

/// Drops every inode that does not survive the consistency check.
pub fn fsck(md: &mut FilesystemMetadata)
    ensures
        final(md).nextinode == old(md).nextinode,
        final(md).dev_id == old(md).dev_id,
        table_entries(final(md).inodetable) == checked_table(table_entries(old(md).inodetable)),
{
    table_retain_surviving(&mut md.inodetable);
}

/// Calls `DashMap::retain`, keeping the inodes for which `keeps_inode`
/// says yes. Claimed: afterwards the table holds exactly the inodes it held
/// that survive the consistency check.
#[verifier::external_body]
fn table_retain_surviving(table: &mut DashMap<usize, Inode>)
    ensures
        table_entries(*final(table)) == checked_table(table_entries(*old(table))),
{
    table.retain(|_, inode| keeps_inode(inode))
}

/// Directory `dir` holds `target` under `name`.
pub open spec fn names_in_dir(t: Map<usize, Inode>, dir: usize, target: usize, name: Seq<char>) -> bool {
    match t[dir] {
        Inode::Dir(d) => lookup(dir_entries(d.filename_to_inode_dict), name) == Some(target),
        _ => false,
    }
}

/// Directory `dir` holds `target` under some name.
pub open spec fn holds_inode(t: Map<usize, Inode>, dir: usize, target: usize) -> bool {
    exists|name: Seq<char>| #[trigger] names_in_dir(t, dir, target, name)
}

/// A name under which directory `dir_inode_no` holds `target_inode`, if it
/// is a directory that holds it. Which name, where there are several, is the
/// first one that the walk of the directory's table meets.
pub fn filenamefrominode(md: &FilesystemMetadata, dir_inode_no: usize, target_inode: usize) -> (name:
    Option<String>)
    requires
        table_entries(md.inodetable).dom().contains(dir_inode_no),
    ensures
        match name {
            Some(n) => names_in_dir(table_entries(md.inodetable), dir_inode_no, target_inode, n@),
            None => !holds_inode(table_entries(md.inodetable), dir_inode_no, target_inode),
        },
{
    let ghost t = table_entries(md.inodetable);
    let cur_node = table_get(&md.inodetable, dir_inode_no);
    match cur_node {
        Some(Inode::Dir(d)) => {
            let entries = dict_entries_list(&d.filename_to_inode_dict);
            let ghost m = dir_entries(d.filename_to_inode_dict);
            let mut i: usize = 0;
            while i < entries.len()
                invariant
                    i <= entries@.len(),
                    t == table_entries(md.inodetable),
                    t[dir_inode_no] matches Inode::Dir(dd) && dir_entries(dd.filename_to_inode_dict) == m,
                    forall|j: int|
                        0 <= j < entries@.len() ==> #[trigger] m.dom().contains(entries@[j].0@)
                            && m[entries@[j].0@] == entries@[j].1,
                    forall|name: Seq<char>|
                        #[trigger] m.dom().contains(name) ==> exists|j: int|
                            0 <= j < entries@.len() && entries@[j].0@ == name,
                    forall|j: int| 0 <= j < i ==> entries@[j].1 != target_inode,
                decreases entries@.len() - i,
            {
                if entries[i].1 == target_inode {
                    let name = entries[i].0.clone();
                    assert(m.dom().contains(entries@[i as int].0@));
                    return Some(name);
                }
                i = i + 1;
            }
            proof {
                assert forall|name: Seq<char>| !#[trigger] names_in_dir(t, dir_inode_no, target_inode, name) by {
                    if m.dom().contains(name) {
                        let j = choose|j: int| 0 <= j < entries@.len() && entries@[j].0@ == name;
                        assert(m.dom().contains(entries@[j].0@));
                    }
                }
            }
            None
        },
        Some(_) => None,
        None => None,
    }
}

/// The name `..`.
pub open spec fn dotdot() -> Seq<char> {
    seq!['.', '.']
}

/// The inode that directory `cur`'s `..` entry names, if it is a directory
/// with one.
pub open spec fn dir_parent(t: Map<usize, Inode>, cur: usize) -> Option<usize> {
    match t[cur] {
        Inode::Dir(d) => lookup(dir_entries(d.filename_to_inode_dict), dotdot()),
        _ => None,
    }
}

/// Whether inode `cur` is a directory in the table.
pub open spec fn is_dir_in(t: Map<usize, Inode>, cur: usize) -> bool {
    t.dom().contains(cur) && t[cur] is Dir
}

/// Inode `cur` is a directory whose `..` entry names an inode of the table.
pub open spec fn has_usable_parent(t: Map<usize, Inode>, cur: usize) -> bool {
    &&& is_dir_in(t, cur)
    &&& dir_parent(t, cur) matches Some(p) && t.dom().contains(p)
}

/// How the walk up from a directory through its `..` entries ends.
pub enum ChainEnd {
    /// At the root.
    Reaches,
    /// At an inode that is missing or not a directory, at a directory
    /// without a `..` entry or whose `..` names a missing inode (the root
    /// too), or at a parent that does not hold the directory.
    Fails,
    /// Not within the steps allowed.
    Unfinished,
}

/// How the walk up from directory `cur` ends within `fuel` steps.
pub open spec fn chain_end(t: Map<usize, Inode>, cur: usize, fuel: nat) -> ChainEnd
    decreases fuel,
{
    if fuel == 0 {
        ChainEnd::Unfinished
    } else if !has_usable_parent(t, cur) {
        ChainEnd::Fails
    } else if cur == ROOTDIRECTORYINODE {
        ChainEnd::Reaches
    } else {
        let p = dir_parent(t, cur)->0;
        if !holds_inode(t, p, cur) {
            ChainEnd::Fails
        } else {
            chain_end(t, p, (fuel - 1) as nat)
        }
    }
}

/// The walk up from inode `inodenum` ends, at the root or where a step is
/// missing, within some number of steps: it does not go round a cycle of
/// `..` entries.
pub open spec fn pathname_walk_ends(t: Map<usize, Inode>, inodenum: usize) -> bool {
    exists|fuel: nat| !(#[trigger] chain_end(t, inodenum, fuel) is Unfinished)
}

/// Once the walk has ended, more steps do not change how.
pub proof fn lemma_chain_end_fuel(t: Map<usize, Inode>, cur: usize, fuel: nat, more: nat)
    requires
        fuel <= more,
        !(chain_end(t, cur, fuel) is Unfinished),
    ensures
        chain_end(t, cur, more) == chain_end(t, cur, fuel),
    decreases fuel,
{
    if has_usable_parent(t, cur) && cur != ROOTDIRECTORYINODE {
        let p = dir_parent(t, cur)->0;
        if holds_inode(t, p, cur) {
            lemma_chain_end_fuel(t, p, (fuel - 1) as nat, (more - 1) as nat);
        }
    }
}

/// The chain of directories from `chain[0]` up through the `..` entries,
/// each held by the next under the matching entry of `names`.
pub open spec fn is_chain_prefix(t: Map<usize, Inode>, chain: Seq<usize>, names: Seq<Seq<char>>) -> bool {
    &&& chain.len() == names.len() + 1
    &&& forall|i: int|
        0 <= i < names.len() ==> {
            &&& #[trigger] chain[i] != ROOTDIRECTORYINODE
            &&& is_dir_in(t, chain[i])
            &&& dir_parent(t, chain[i]) == Some(chain[i + 1])
            &&& names_in_dir(t, chain[i + 1], chain[i], names[i])
        }
}

/// The chain of directories from `inodenum` up to the root, each held by
/// the next under the matching entry of `names`.
pub open spec fn is_root_chain(
    t: Map<usize, Inode>,
    inodenum: usize,
    chain: Seq<usize>,
    names: Seq<Seq<char>>,
) -> bool {
    &&& is_chain_prefix(t, chain, names)
    &&& chain[0] == inodenum
    &&& chain.last() == ROOTDIRECTORYINODE
    &&& has_usable_parent(t, ROOTDIRECTORYINODE)
}

/// The names, from the last to the first, each followed by `/`.
pub open spec fn joined_names(names: Seq<Seq<char>>) -> Seq<char>
    decreases names.len(),
{
    if names.len() == 0 {
        Seq::empty()
    } else {
        names.last() + seq!['/'] + joined_names(names.drop_last())
    }
}

/// The absolute path of directory `inodenum`: `/` followed by the names
/// along the chain of its ancestors, from the root's child down to itself,
/// each followed by `/`; `/` alone for the root. Found by walking up
/// through the `..` entries to the root and taking each directory's name
/// from its parent. `None` where the walk meets a missing inode, one that
/// is not a directory, a directory without a `..` entry or whose `..`
/// names a missing inode (the root included), or a parent that does not
/// hold the directory.
pub fn pathnamefrominodenum(md: &FilesystemMetadata, inodenum: usize) -> (path: Option<String>)
    requires
        pathname_walk_ends(table_entries(md.inodetable), inodenum),
    ensures
        path is None <==> exists|fuel: nat|
            #[trigger] chain_end(table_entries(md.inodetable), inodenum, fuel) is Fails,
        path matches Some(p) ==> exists|chain: Seq<usize>, names: Seq<Seq<char>>|
            #[trigger] is_root_chain(table_entries(md.inodetable), inodenum, chain, names)
                && p@ == seq!['/'] + joined_names(names),
        inodenum == ROOTDIRECTORYINODE ==> if has_usable_parent(table_entries(md.inodetable), inodenum) {
            path matches Some(p) && p@ == seq!['/']
        } else {
            path is None
        },
{
    let ghost t = table_entries(md.inodetable);
    let ghost fuel0: nat = choose|fuel: nat| !(#[trigger] chain_end(t, inodenum, fuel) is Unfinished);
    let ghost target = chain_end(t, inodenum, fuel0);
    proof {
        assert forall|fuel: nat| !(#[trigger] chain_end(t, inodenum, fuel) is Unfinished) implies chain_end(
            t,
            inodenum,
            fuel,
        ) == target by {
            if fuel <= fuel0 {
                lemma_chain_end_fuel(t, inodenum, fuel, fuel0);
            } else {
                lemma_chain_end_fuel(t, inodenum, fuel0, fuel);
            }
        }
    }
    let mut path_string = String::new();
    let mut current_inodenum = inodenum;
    let ghost mut fuel = fuel0;
    let ghost mut chain: Seq<usize> = seq![inodenum];
    let ghost mut names: Seq<Seq<char>> = Seq::empty();
    let dotdot_name = String::from_str("..");
    proof {
        reveal_strlit("..");
        assert(dotdot_name@ =~= dotdot());
        assert(path_string@ =~= joined_names(names));
    }
    loop
        invariant
            t == table_entries(md.inodetable),
            dotdot_name@ == dotdot(),
            !(target is Unfinished),
            chain_end(t, current_inodenum, fuel) == target,
            target == chain_end(t, inodenum, fuel0),
            forall|f: nat|
                !(#[trigger] chain_end(t, inodenum, f) is Unfinished) ==> chain_end(t, inodenum, f)
                    == target,
            is_chain_prefix(t, chain, names),
            chain[0] == inodenum,
            chain.last() == current_inodenum,
            path_string@ == joined_names(names),
        decreases fuel,
    {
        let thisinode = match table_get(&md.inodetable, current_inodenum) {
            Some(inode) => inode,
            None => {
                proof {
                    assert(chain_end(t, current_inodenum, fuel) is Fails);
                }
                return None;
            },
        };
        match thisinode {
            Inode::Dir(dir_inode) => {
                match dict_get(&dir_inode.filename_to_inode_dict, &dotdot_name) {
                    Some(parent_dir_inode) => {
                        if !table_contains(&md.inodetable, parent_dir_inode) {
                            // `..` names an inode that is not in the table.
                            proof {
                                assert(chain_end(t, current_inodenum, fuel) is Fails);
                            }
                            return None;
                        }
                        // At the root: the path is done.
                        if current_inodenum == ROOTDIRECTORYINODE {
                            let slash = String::from_str("/");
                            proof {
                                reveal_strlit("/");
                                assert(slash@ =~= seq!['/']);
                                assert(is_root_chain(t, inodenum, chain, names));
                            }
                            let result = slash.concat(path_string.as_str());
                            return Some(result);
                        }
                        match filenamefrominode(md, parent_dir_inode, current_inodenum) {
                            Some(filename) => {
                                let slash = String::from_str("/");
                                proof {
                                    reveal_strlit("/");
                                    assert(slash@ =~= seq!['/']);
                                }
                                let ghost old_chain = chain;
                                let ghost old_names = names;
                                let with_slash = filename.concat(slash.as_str());
                                path_string = with_slash.concat(path_string.as_str());
                                proof {
                                    names = old_names.push(filename@);
                                    chain = old_chain.push(parent_dir_inode);
                                    assert(names.drop_last() =~= old_names);
                                    assert forall|i: int| 0 <= i < names.len() implies {
                                        &&& #[trigger] chain[i] != ROOTDIRECTORYINODE
                                        &&& is_dir_in(t, chain[i])
                                        &&& dir_parent(t, chain[i]) == Some(chain[i + 1])
                                        &&& names_in_dir(t, chain[i + 1], chain[i], names[i])
                                    } by {
                                        if i < old_names.len() {
                                            assert(chain[i] == old_chain[i]);
                                            assert(chain[i + 1] == old_chain[i + 1]);
                                            assert(names[i] == old_names[i]);
                                        }
                                    }
                                    assert(holds_inode(t, parent_dir_inode, current_inodenum));
                                    fuel = (fuel - 1) as nat;
                                }
                                current_inodenum = parent_dir_inode;
                            },
                            None => {
                                proof {
                                    assert(chain_end(t, current_inodenum, fuel) is Fails);
                                }
                                return None;
                            },
                        }
                    },
                    None => {
                        proof {
                            assert(chain_end(t, current_inodenum, fuel) is Fails);
                        }
                        return None;
                    },
                }
            },
            _ => {
                proof {
                    assert(chain_end(t, current_inodenum, fuel) is Fails);
                }
                return None;
            },
        }
    }
}

/// How a walk from the root along a path stands.
pub enum WalkState {
    /// Still going, at inode `.0` (if any) reached from `.1` (if any).
    Running(Option<usize>, Option<usize>),
    /// Given up, with this answer.
    Returned(Option<usize>, Option<usize>),
    /// At a name below an inode number that the table lacks.
    Stuck,
}

/// One step of the walk along a path.
pub open spec fn walk_step(
    t: Map<usize, Inode>,
    comp: ComponentView,
    ino: Option<usize>,
    prev: Option<usize>,
) -> WalkState {
    match comp {
        ComponentView::RootDir => WalkState::Running(ino, prev),
        ComponentView::Normal(f) => match ino {
            None => WalkState::Returned(None, None),
            Some(i) => {
                if !t.dom().contains(i) {
                    WalkState::Stuck
                } else {
                    match t[i] {
                        Inode::Dir(d) => WalkState::Running(
                            lookup(dir_entries(d.filename_to_inode_dict), f),
                            Some(i),
                        ),
                        _ => WalkState::Returned(None, None),
                    }
                }
            },
        },
        _ => WalkState::Returned(None, None),
    }
}

/// The walk along the first `n` components of a path, from the root.
pub open spec fn walk_prefix(t: Map<usize, Inode>, comps: Seq<ComponentView>, n: nat) -> WalkState
    decreases n,
{
    if n == 0 {
        WalkState::Running(Some(ROOTDIRECTORYINODE), None)
    } else {
        match walk_prefix(t, comps, (n - 1) as nat) {
            WalkState::Running(ino, prev) => walk_step(t, comps[n - 1], ino, prev),
            other => other,
        }
    }
}

/// The walk along a whole path.
pub open spec fn walk_path(t: Map<usize, Inode>, comps: Seq<ComponentView>) -> WalkState {
    walk_prefix(t, comps, comps.len())
}

/// The answer of a walk along a whole path: the inode reached and its
/// parent.
pub open spec fn walk_answer(t: Map<usize, Inode>, comps: Seq<ComponentView>) -> (
    Option<usize>,
    Option<usize>,
) {
    match walk_path(t, comps) {
        WalkState::Running(a, b) => (a, b),
        WalkState::Returned(a, b) => (a, b),
        WalkState::Stuck => (None, None),
    }
}

/// A walk that has stopped stays stopped.
pub proof fn lemma_walk_stopped(t: Map<usize, Inode>, comps: Seq<ComponentView>, n: nat, m: nat)
    requires
        n <= m,
        !(walk_prefix(t, comps, n) is Running),
    ensures
        walk_prefix(t, comps, m) == walk_prefix(t, comps, n),
    decreases m - n,
{
    if n < m {
        lemma_walk_stopped(t, comps, n, (m - 1) as nat);
    }
}

/// The inode that `path` leads to from the root, and the directory it was
/// reached from: `(None, None)` where the walk meets a name below something
/// that is not a directory, a `.` or `..` component, or a name below a
/// missing entry.
pub fn metawalkandparent(md: &FilesystemMetadata, path: &PathBuf) -> (res: (Option<usize>, Option<usize>))
    requires
        table_entries(md.inodetable).dom().contains(ROOTDIRECTORYINODE),
        !(walk_path(table_entries(md.inodetable), path@) is Stuck),
    ensures
        res == walk_answer(table_entries(md.inodetable), path@),
{
    let ghost t = table_entries(md.inodetable);
    let mut inodeno: Option<usize> = Some(ROOTDIRECTORYINODE);
    let mut previnodeno: Option<usize> = None;
    let mut i: usize = 0;
    while i < path.components.len()
        invariant
            t == table_entries(md.inodetable),
            i <= path.components@.len(),
            !(walk_path(t, path@) is Stuck),
            walk_prefix(t, path@, i as nat) == WalkState::Running(inodeno, previnodeno),
        decreases path.components@.len() - i,
    {
        assert(path@[i as int] == path.components@[i as int]@);
        match &path.components[i] {
            Component::RootDir => {},
            Component::Normal(f) => {
                match inodeno {
                    None => {
                        proof {
                            lemma_walk_stopped(t, path@, (i + 1) as nat, path@.len());
                        }
                        return (None, None);
                    },
                    Some(ino) => {
                        match table_get(&md.inodetable, ino) {
                            Some(Inode::Dir(d)) => {
                                previnodeno = inodeno;
                                inodeno = dict_get(&d.filename_to_inode_dict, f);
                            },
                            Some(_) => {
                                proof {
                                    lemma_walk_stopped(t, path@, (i + 1) as nat, path@.len());
                                }
                                return (None, None);
                            },
                            None => {
                                proof {
                                    lemma_walk_stopped(t, path@, (i + 1) as nat, path@.len());
                                }
                                return (None, None);
                            },
                        }
                    },
                }
            },
            _ => {
                proof {
                    lemma_walk_stopped(t, path@, (i + 1) as nat, path@.len());
                }
                return (None, None);
            },
        }
        i = i + 1;
    }
    (inodeno, previnodeno)
}

/// The inode that `path` leads to from the root, if any.
pub fn metawalk(md: &FilesystemMetadata, path: &PathBuf) -> (inode: Option<usize>)
    requires
        table_entries(md.inodetable).dom().contains(ROOTDIRECTORYINODE),
        !(walk_path(table_entries(md.inodetable), path@) is Stuck),
    ensures
        inode == walk_answer(table_entries(md.inodetable), path@).0,
{
    metawalkandparent(md, path).0
}

} // verus!

verus! {

/// The root's entries after formatting.
pub open spec fn formatted_root_entries() -> Map<Seq<char>, usize> {
    map![seq!['.'] => 1usize, seq!['.', '.'] => 1usize, seq!['d', 'e', 'v'] => 2usize]
}

/// The entries of `/dev` after formatting.
pub open spec fn formatted_dev_entries() -> Map<Seq<char>, usize> {
    map![
        seq!['.', '.'] => 1usize,
        seq!['.'] => 2usize,
        seq!['n', 'u', 'l', 'l'] => 3usize,
        seq!['z', 'e', 'r', 'o'] => 4usize,
        seq!['u', 'r', 'a', 'n', 'd', 'o', 'm'] => 5usize,
        seq!['r', 'a', 'n', 'd', 'o', 'm'] => 6usize
    ]
}

/// The entries of the temporary directory after formatting.
pub open spec fn formatted_tmp_entries() -> Map<Seq<char>, usize> {
    map![seq!['.', '.'] => 1usize, seq!['.'] => 2usize]
}

/// The file tree as formatting leaves it.
pub open spec fn is_formatted(md: FilesystemMetadata) -> bool {
    let t = table_entries(md.inodetable);
    let time = dir_time(t[2]);
    &&& md.nextinode == 8
    &&& md.dev_id == 20
    &&& t.dom() == set![1usize, 2usize, 3usize, 4usize, 5usize, 6usize, 7usize]
    &&& is_own_dir(t[1], S_IFDIR | S_IRWXA, 4, formatted_root_entries())
    &&& is_own_dir(t[2], S_IFDIR | 755, 7, formatted_dev_entries())
    &&& is_own_device(t[3], 1, 3, time)
    &&& is_own_device(t[4], 1, 5, time)
    &&& is_own_device(t[5], 1, 9, time)
    &&& is_own_device(t[6], 1, 8, time)
    &&& is_own_dir(t[7], S_IFDIR | 755, 7, formatted_tmp_entries())
    &&& dir_time(t[7]) == time
}

/// A string holding `s`.
fn owned(s: &str) -> (owned: String)
    ensures
        owned@ == s@,
{
    String::from_str(s)
}

/// A character device inode of the file system's own making.
fn own_device(major: u32, minor: u32, time: u64) -> (inode: Inode)
    ensures
        is_own_device(inode, major, minor, time),
{
    Inode::CharDev(
        DeviceInode {
            size: 0,
            uid: DEFAULT_UID,
            gid: DEFAULT_UID,
            mode: S_IFCHR | 666,
            linkcount: 1,
            refcount: 0,
            atime: time,
            ctime: time,
            mtime: time,
            dev: DevNo { major, minor },
        },
    )
}

/// A fresh file tree with `/dev` (holding `null`, `zero`, `urandom` and
/// `random`) under the root, and a temporary directory as inode 7.
pub fn format_fs() -> (md: FilesystemMetadata)
    ensures
        is_formatted(md),
{
    let mut newmetadata = FilesystemMetadata::blank_fs_init();
    proof {
        reveal_strlit(".");
        reveal_strlit("..");
        reveal_strlit("dev");
        reveal_strlit("null");
        reveal_strlit("zero");
        reveal_strlit("urandom");
        reveal_strlit("random");
    }
    // The root gets the entry for `/dev`.
    let rootinode = table_remove(&mut newmetadata.inodetable, 1);
    match rootinode {
        Some(Inode::Dir(mut rootdir)) => {
            let dev = owned("dev");
            assert(dev@ =~= seq!['d', 'e', 'v']);
            dict_insert(&mut rootdir.filename_to_inode_dict, dev, 2);
            assert(dir_entries(rootdir.filename_to_inode_dict) =~= formatted_root_entries());
            rootdir.linkcount = rootdir.linkcount + 1;
            table_insert(&mut newmetadata.inodetable, 1, Inode::Dir(rootdir));
        },
        _ => {
            assert(false);
        },
    }
    let mut devchildren = dict_new();
    let mut tmpchildren = dict_new();
    let n_dotdot = owned("..");
    let n_dot = owned(".");
    let n_null = owned("null");
    let n_zero = owned("zero");
    let n_urandom = owned("urandom");
    let n_random = owned("random");
    let t_dotdot = owned("..");
    let t_dot = owned(".");
    proof {
        assert(n_dotdot@ =~= seq!['.', '.']);
        assert(n_dot@ =~= seq!['.']);
        assert(n_null@ =~= seq!['n', 'u', 'l', 'l']);
        assert(n_zero@ =~= seq!['z', 'e', 'r', 'o']);
        assert(n_urandom@ =~= seq!['u', 'r', 'a', 'n', 'd', 'o', 'm']);
        assert(n_random@ =~= seq!['r', 'a', 'n', 'd', 'o', 'm']);
        assert(t_dotdot@ =~= seq!['.', '.']);
        assert(t_dot@ =~= seq!['.']);
    }
    dict_insert(&mut devchildren, n_dotdot, 1);
    dict_insert(&mut devchildren, n_dot, 2);
    dict_insert(&mut devchildren, n_null, 3);
    dict_insert(&mut devchildren, n_zero, 4);
    dict_insert(&mut devchildren, n_urandom, 5);
    dict_insert(&mut devchildren, n_random, 6);
    dict_insert(&mut tmpchildren, t_dotdot, 1);
    dict_insert(&mut tmpchildren, t_dot, 2);
    assert(dir_entries(devchildren) =~= formatted_dev_entries());
    assert(dir_entries(tmpchildren) =~= formatted_tmp_entries());
    let time = timestamp();
    // Links: `.`, `..`, the parent's entry, and one for each device.
    let devdirinode = Inode::Dir(
        DirectoryInode {
            size: 0,
            uid: DEFAULT_UID,
            gid: DEFAULT_GID,
            mode: S_IFDIR | 755,
            linkcount: 3 + 4,
            refcount: 0,
            atime: time,
            ctime: time,
            mtime: time,
            filename_to_inode_dict: devchildren,
        },
    );
    let nullinode = own_device(1, 3, time);
    let zeroinode = own_device(1, 5, time);
    let urandominode = own_device(1, 9, time);
    let randominode = own_device(1, 8, time);
    let tmpdirinode = Inode::Dir(
        DirectoryInode {
            size: 0,
            uid: DEFAULT_UID,
            gid: DEFAULT_GID,
            mode: S_IFDIR | 755,
            linkcount: 3 + 4,
            refcount: 0,
            atime: time,
            ctime: time,
            mtime: time,
            filename_to_inode_dict: tmpchildren,
        },
    );
    newmetadata.nextinode = 8;
    table_insert(&mut newmetadata.inodetable, 2, devdirinode);
    table_insert(&mut newmetadata.inodetable, 3, nullinode);
    table_insert(&mut newmetadata.inodetable, 4, zeroinode);
    table_insert(&mut newmetadata.inodetable, 5, urandominode);
    table_insert(&mut newmetadata.inodetable, 6, randominode);
    table_insert(&mut newmetadata.inodetable, 7, tmpdirinode);
    proof {
        let t = table_entries(newmetadata.inodetable);
        assert(t.dom() =~= set![1usize, 2usize, 3usize, 4usize, 5usize, 6usize, 7usize]);
    }
    newmetadata
}

} // verus!

verus! {

/// Two directory inodes agree on everything but their links, references
/// and entries.
pub open spec fn same_dir_attributes(a: DirectoryInode, b: DirectoryInode) -> bool {
    &&& a.size == b.size
    &&& a.uid == b.uid
    &&& a.gid == b.gid
    &&& a.mode == b.mode
    &&& a.atime == b.atime
    &&& a.ctime == b.ctime
    &&& a.mtime == b.mtime
}

/// Directory `new` is directory `old` with `change` added to its count of
/// open references.
pub open spec fn dir_with_refcount_change(old: Inode, new: Inode, change: int) -> bool {
    old matches Inode::Dir(a) && new matches Inode::Dir(b) && {
        &&& same_dir_attributes(a, b)
        &&& b.linkcount == a.linkcount
        &&& b.refcount == a.refcount + change
        &&& b.filename_to_inode_dict == a.filename_to_inode_dict
    }
}

/// The path leads to a directory in the table with an open reference.
pub open spec fn leads_to_referenced_dir(t: Map<usize, Inode>, comps: Seq<ComponentView>) -> bool {
    match walk_answer(t, comps).0 {
        Some(ino) => t.dom().contains(ino) && (t[ino] matches Inode::Dir(d) && d.refcount > 0),
        None => false,
    }
}

/// Directory `parent` is in the table, links to something, and holds an
/// entry for the last component of the path, which is a name.
pub open spec fn can_unlink(t: Map<usize, Inode>, parent: usize, comps: Seq<ComponentView>) -> bool {
    &&& t.dom().contains(parent)
    &&& match file_name_of(comps) {
        Some(name) => match t[parent] {
            Inode::Dir(d) => d.linkcount > 0 && dir_entries(d.filename_to_inode_dict).dom().contains(name),
            _ => false,
        },
        None => false,
    }
}

/// Counts one more open reference to the root directory.
pub fn incref_root(md: &mut FilesystemMetadata)
    requires
        table_entries(old(md).inodetable).dom().contains(ROOTDIRECTORYINODE),
        table_entries(old(md).inodetable)[ROOTDIRECTORYINODE] matches Inode::Dir(d) && d.refcount < u32::MAX,
    ensures
        final(md).nextinode == old(md).nextinode,
        final(md).dev_id == old(md).dev_id,
        table_entries(final(md).inodetable).dom() == table_entries(old(md).inodetable).dom(),
        forall|k: usize|
            k != ROOTDIRECTORYINODE && #[trigger] table_entries(old(md).inodetable).dom().contains(k)
                ==> table_entries(final(md).inodetable)[k] == table_entries(old(md).inodetable)[k],
        dir_with_refcount_change(
            table_entries(old(md).inodetable)[ROOTDIRECTORYINODE],
            table_entries(final(md).inodetable)[ROOTDIRECTORYINODE],
            1,
        ),
{
    let root = table_remove(&mut md.inodetable, ROOTDIRECTORYINODE);
    match root {
        Some(Inode::Dir(mut rootdir_dirinode_obj)) => {
            rootdir_dirinode_obj.refcount = rootdir_dirinode_obj.refcount + 1;
            table_insert(&mut md.inodetable, ROOTDIRECTORYINODE, Inode::Dir(rootdir_dirinode_obj));
        },
        _ => {
            assert(false);
        },
    }
    assert(table_entries(md.inodetable).dom() =~= table_entries(old(md).inodetable).dom());
}

/// Counts one open reference less to the directory `cwd_container` leads
/// to, and drops that directory from the table when nothing refers to it or
/// links to it any more.
pub fn decref_dir(md: &mut FilesystemMetadata, cwd_container: &PathBuf)
    requires
        table_entries(old(md).inodetable).dom().contains(ROOTDIRECTORYINODE),
        !(walk_path(table_entries(old(md).inodetable), cwd_container@) is Stuck),
        leads_to_referenced_dir(table_entries(old(md).inodetable), cwd_container@),
    ensures
        final(md).nextinode == old(md).nextinode,
        final(md).dev_id == old(md).dev_id,
        ({
            let ino = walk_answer(table_entries(old(md).inodetable), cwd_container@).0->0;
            let t = table_entries(old(md).inodetable);
            if t[ino] matches Inode::Dir(d) && d.refcount == 1 && d.linkcount == 0 {
                table_entries(final(md).inodetable) == t.remove(ino)
            } else {
                &&& table_entries(final(md).inodetable).dom() == t.dom()
                &&& forall|k: usize|
                    k != ino && #[trigger] t.dom().contains(k) ==> table_entries(final(md).inodetable)[k] == t[k]
                &&& dir_with_refcount_change(t[ino], table_entries(final(md).inodetable)[ino], -1)
            }
        }),
{
    let ghost t = table_entries(md.inodetable);
    match metawalk(md, cwd_container) {
        Some(cwdinodenum) => {
            let inode = table_remove(&mut md.inodetable, cwdinodenum);
            match inode {
                Some(Inode::Dir(mut cwddir)) => {
                    cwddir.refcount = cwddir.refcount - 1;
                    // Removed, and this was the last reference to it.
                    if cwddir.refcount == 0 && cwddir.linkcount == 0 {
                    } else {
                        table_insert(&mut md.inodetable, cwdinodenum, Inode::Dir(cwddir));
                        assert(table_entries(md.inodetable).dom() =~= t.dom());
                    }
                },
                _ => {
                    assert(false);
                },
            }
        },
        None => {
            assert(false);
        },
    }
}

/// Directory `new` is directory `old` without the entry `name` and with one
/// link less.
pub open spec fn dir_after_unlink(old: Inode, new: Inode, name: Seq<char>) -> bool {
    old matches Inode::Dir(a) && new matches Inode::Dir(b) && {
        &&& same_dir_attributes(a, b)
        &&& b.refcount == a.refcount
        &&& b.linkcount == a.linkcount - 1
        &&& dir_entries(b.filename_to_inode_dict) == dir_entries(a.filename_to_inode_dict).remove(name)
    }
}

/// Takes the entry for the last component of `truepath` out of directory
/// `parent_inodenum`, which loses a link.
pub fn remove_from_parent_dir(md: &mut FilesystemMetadata, parent_inodenum: usize, truepath: &PathBuf)
    requires
        table_entries(old(md).inodetable).dom().contains(parent_inodenum),
        can_unlink(table_entries(old(md).inodetable), parent_inodenum, truepath@),
    ensures
        final(md).nextinode == old(md).nextinode,
        final(md).dev_id == old(md).dev_id,
        table_entries(final(md).inodetable).dom() == table_entries(old(md).inodetable).dom(),
        forall|k: usize|
            k != parent_inodenum && #[trigger] table_entries(old(md).inodetable).dom().contains(k)
                ==> table_entries(final(md).inodetable)[k] == table_entries(old(md).inodetable)[k],
        dir_after_unlink(
            table_entries(old(md).inodetable)[parent_inodenum],
            table_entries(final(md).inodetable)[parent_inodenum],
            file_name_of(truepath@)->0,
        ),
{
    let ghost t = table_entries(md.inodetable);
    let parent = table_remove(&mut md.inodetable, parent_inodenum);
    match parent {
        Some(Inode::Dir(mut parent_dir)) => {
            match truepath.file_name() {
                Some(name) => {
                    dict_remove(&mut parent_dir.filename_to_inode_dict, name);
                },
                None => {
                    assert(false);
                },
            }
            parent_dir.linkcount = parent_dir.linkcount - 1;
            table_insert(&mut md.inodetable, parent_inodenum, Inode::Dir(parent_dir));
            assert(table_entries(md.inodetable).dom() =~= t.dom());
        },
        _ => {
            assert(false);
        },
    }
}

/// Whether `p` is among the paths, by components.
pub open spec fn holds_path(paths: Seq<PathBuf>, p: Seq<ComponentView>) -> bool {
    exists|i: int| 0 <= i < paths.len() && paths[i]@ == p
}

/// Removes the domain socket at `truepath`: its entry leaves its parent
/// directory, its inode leaves the table, and the path leaves the list of
/// domain socket paths.
pub fn remove_domain_sock(
    md: &mut FilesystemMetadata,
    domsock_paths: &mut Vec<PathBuf>,
    truepath: PathBuf,
)
    requires
        table_entries(old(md).inodetable).dom().contains(ROOTDIRECTORYINODE),
        !(walk_path(table_entries(old(md).inodetable), truepath@) is Stuck),
        (walk_answer(table_entries(old(md).inodetable), truepath@) matches (Some(ino), Some(par)) && can_unlink(
            table_entries(old(md).inodetable),
            par,
            truepath@,
        )),
    ensures
        final(md).nextinode == old(md).nextinode,
        final(md).dev_id == old(md).dev_id,
        ({
            let (ino, par) = walk_answer(table_entries(old(md).inodetable), truepath@);
            let t = table_entries(old(md).inodetable);
            let u = table_entries(final(md).inodetable);
            &&& !u.dom().contains(ino->0)
            &&& u.dom() == t.dom().remove(ino->0)
            &&& forall|k: usize|
                k != ino->0 && k != par->0 && #[trigger] t.dom().contains(k) ==> u[k] == t[k]
            &&& ino->0 != par->0 ==> dir_after_unlink(t[par->0], u[par->0], file_name_of(truepath@)->0)
        }),
        forall|p: Seq<ComponentView>|
            holds_path(final(domsock_paths)@, p) == (holds_path(old(domsock_paths)@, p) && p
                != truepath@),
{
    match metawalkandparent(md, &truepath) {
        (Some(inodenum), Some(parentinodenum)) => {
            remove_from_parent_dir(md, parentinodenum, &truepath);
            table_remove(&mut md.inodetable, inodenum);
            remove_path(domsock_paths, &truepath);
        },
        _ => {
            assert(false);
        },
    }
}

/// Takes every copy of `truepath` out of the list of paths.
fn remove_path(paths: &mut Vec<PathBuf>, truepath: &PathBuf)
    ensures
        forall|p: Seq<ComponentView>|
            holds_path(final(paths)@, p) == (holds_path(old(paths)@, p) && p != truepath@),
{
    let mut i: usize = 0;
    while i < paths.len()
        invariant
            i <= paths@.len(),
            forall|j: int| 0 <= j < i ==> paths@[j]@ != truepath@,
            forall|p: Seq<ComponentView>|
                p != truepath@ ==> (holds_path(paths@, p) == holds_path(old(paths)@, p)),
            holds_path(old(paths)@, truepath@) || !holds_path(paths@, truepath@),
        decreases paths@.len() - i,
    {
        if paths_equal(&paths[i], truepath) {
            let ghost before = paths@;
            paths.remove(i);
            proof {
                assert forall|p: Seq<ComponentView>| p != truepath@ implies (holds_path(paths@, p)
                    == holds_path(before, p)) by {
                    if holds_path(before, p) {
                        let j = choose|j: int| 0 <= j < before.len() && before[j]@ == p;
                        if j < i {
                            assert(paths@[j] == before[j]);
                        } else {
                            assert(j != i);
                            assert(paths@[j - 1] == before[j]);
                        }
                    }
                    if holds_path(paths@, p) {
                        let j = choose|j: int| 0 <= j < paths@.len() && paths@[j]@ == p;
                        if j < i {
                            assert(before[j] == paths@[j]);
                        } else {
                            assert(before[j + 1] == paths@[j]);
                        }
                    }
                }
                if holds_path(paths@, truepath@) {
                    let j = choose|j: int| 0 <= j < paths@.len() && paths@[j]@ == truepath@;
                    if j < i {
                        assert(before[j] == paths@[j]);
                    } else {
                        assert(before[j + 1] == paths@[j]);
                    }
                    assert(holds_path(before, truepath@));
                }
            }
        } else {
            i = i + 1;
        }
    }
    proof {
        assert(!holds_path(paths@, truepath@));
    }
}

} // verus!
