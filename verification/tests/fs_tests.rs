use rustposix::filesystem::{
    decref_dir, filenamefrominode, format_fs, fsck, incref_root, init_filename_to_inode_dict,
    metawalk, metawalkandparent, pathnamefrominodenum, remove_domain_sock, FilesystemMetadata,
    DEFAULT_UID, ROOTDIRECTORYINODE, S_IFCHR, S_IFDIR, S_IRWXA, STREAMINODE,
};
use rustposix::inode::{DirectoryInode, GenericInode, Inode, SocketInode};
use rustposix::path::{convpath, paths_equal};
use dashmap::DashMap;

fn entry(d: &DashMap<String, usize>, name: &str) -> Option<usize> {
    d.get(name).map(|r| *r)
}

fn inode(md: &FilesystemMetadata, ino: usize) -> Option<Inode> {
    md.inodetable.get(&ino).map(|r| r.value().clone())
}

fn dir(md: &FilesystemMetadata, ino: usize) -> DirectoryInode {
    match inode(md, ino) {
        Some(Inode::Dir(d)) => d,
        _ => panic!("not a directory"),
    }
}

fn file_inode(linkcount: u32) -> Inode {
    Inode::File(GenericInode {
        size: 0, uid: 0, gid: 0, mode: 0, linkcount, refcount: 0, atime: 0, ctime: 0, mtime: 0,
    })
}

#[test]
fn fresh_directory_entries() {
    let d = init_filename_to_inode_dict(5, 1);
    assert_eq!(entry(&d, "."), Some(5));
    assert_eq!(entry(&d, ".."), Some(1));
    assert_eq!(entry(&d, "x"), None);
    assert_eq!(d.len(), 2);
}

#[test]
fn blank_fs_holds_only_root() {
    let md = FilesystemMetadata::blank_fs_init();
    assert_eq!(md.nextinode, STREAMINODE + 1);
    assert_eq!(md.dev_id, 20);
    let root = dir(&md, ROOTDIRECTORYINODE);
    assert_eq!(root.linkcount, 3);
    assert_eq!(root.mode, S_IFDIR | S_IRWXA);
    assert_eq!(root.uid, DEFAULT_UID);
    assert!(root.mtime > 0);
    assert_eq!(entry(&root.filename_to_inode_dict, ".."), Some(1));
    assert!(inode(&md, 2).is_none());
    let md2 = FilesystemMetadata::init_fs_metadata();
    assert_eq!(md2.nextinode, 3);
}

#[test]
fn format_fs_builds_dev_tree() {
    let md = format_fs();
    assert_eq!(md.nextinode, 8);
    let root = dir(&md, 1);
    assert_eq!(root.linkcount, 4);
    assert_eq!(entry(&root.filename_to_inode_dict, "dev"), Some(2));
    let dev = dir(&md, 2);
    assert_eq!(dev.linkcount, 7);
    assert_eq!(dev.mode, S_IFDIR | 755);
    match inode(&md, 5) {
        Some(Inode::CharDev(c)) => {
            assert_eq!((c.dev.major, c.dev.minor), (1, 9));
            assert_eq!(c.mode, S_IFCHR | 666);
            assert_eq!(c.gid, DEFAULT_UID);
        }
        _ => panic!("urandom is not a device"),
    }
    let tmp = dir(&md, 7);
    assert_eq!(entry(&tmp.filename_to_inode_dict, "."), Some(2));
}

#[test]
fn metawalk_on_formatted_tree() {
    let md = format_fs();
    assert_eq!(metawalk(&md, &convpath("/dev/null")), Some(3));
    assert_eq!(metawalkandparent(&md, &convpath("/dev/zero")), (Some(4), Some(2)));
    assert_eq!(metawalkandparent(&md, &convpath("/")), (Some(1), None));
    assert_eq!(metawalkandparent(&md, &convpath("/nope")), (None, Some(1)));
    assert_eq!(metawalkandparent(&md, &convpath("/nope/deeper")), (None, None));
    assert_eq!(metawalkandparent(&md, &convpath("/dev/null/x")), (None, None));
    assert_eq!(metawalkandparent(&md, &convpath("/dev/../dev")), (None, None));
    assert_eq!(metawalk(&md, &convpath("/tmp")), None);
}

#[test]
fn names_and_paths_from_inodes() {
    let md = format_fs();
    assert_eq!(filenamefrominode(&md, 2, 5), Some("urandom".to_string()));
    assert_eq!(filenamefrominode(&md, 2, 42), None);
    assert_eq!(filenamefrominode(&md, 3, 1), None);
    assert_eq!(pathnamefrominodenum(&md, 2), Some("/dev/".to_string()));
    assert_eq!(pathnamefrominodenum(&md, 1), Some("/".to_string()));
    assert_eq!(pathnamefrominodenum(&md, 3), None);
    assert_eq!(pathnamefrominodenum(&md, 99), None);
}

#[test]
fn path_of_directory_with_missing_parent_is_none() {
    let md = format_fs();
    md.inodetable.insert(8, Inode::Dir(DirectoryInode {
        size: 0, uid: 0, gid: 0, mode: S_IFDIR, linkcount: 2, refcount: 0,
        atime: 0, ctime: 0, mtime: 0, filename_to_inode_dict: init_filename_to_inode_dict(8, 77),
    }));
    assert_eq!(pathnamefrominodenum(&md, 8), None);
    assert_eq!(pathnamefrominodenum(&md, 7), None);
}

fn root_entries(md: &FilesystemMetadata) -> DashMap<String, usize> {
    match md.inodetable.get(&ROOTDIRECTORYINODE).map(|r| r.value().clone()) {
        Some(Inode::Dir(d)) => d.filename_to_inode_dict,
        _ => panic!("root is not a directory"),
    }
}

fn set_root_entries(md: &FilesystemMetadata, entries: DashMap<String, usize>) {
    if let Some(mut entry) = md.inodetable.get_mut(&ROOTDIRECTORYINODE) {
        if let Inode::Dir(d) = entry.value_mut() {
            d.filename_to_inode_dict = entries;
        }
    }
}

#[test]
fn path_of_root_without_parent_entry_is_none() {
    let md = format_fs();
    let entries = root_entries(&md);
    entries.remove("..");
    set_root_entries(&md, entries);
    assert_eq!(pathnamefrominodenum(&md, ROOTDIRECTORYINODE), None);
    assert_eq!(pathnamefrominodenum(&md, 2), None);
}

#[test]
fn path_of_root_whose_parent_is_missing_is_none() {
    let md = format_fs();
    let entries = root_entries(&md);
    entries.insert("..".to_string(), 99);
    set_root_entries(&md, entries);
    assert_eq!(pathnamefrominodenum(&md, ROOTDIRECTORYINODE), None);
    assert_eq!(pathnamefrominodenum(&md, 2), None);
}

#[test]
fn path_of_blank_root_is_slash() {
    let md = FilesystemMetadata::blank_fs_init();
    assert_eq!(pathnamefrominodenum(&md, ROOTDIRECTORYINODE), Some("/".to_string()));
}

#[test]
fn path_of_nested_directory() {
    let md = format_fs();
    md.inodetable.insert(8, Inode::Dir(DirectoryInode {
        size: 0, uid: 0, gid: 0, mode: S_IFDIR, linkcount: 2, refcount: 0,
        atime: 0, ctime: 0, mtime: 0, filename_to_inode_dict: init_filename_to_inode_dict(8, 2),
    }));
    if let Some(entry) = md.inodetable.get(&2) {
        if let Inode::Dir(d) = entry.value() {
            d.filename_to_inode_dict.insert("sub".to_string(), 8);
        }
    }
    assert_eq!(pathnamefrominodenum(&md, 8), Some("/dev/sub/".to_string()));
}

#[test]
fn fsck_drops_unlinked_and_sockets() {
    let mut md = format_fs();
    md.inodetable.insert(8, file_inode(0));
    md.inodetable.insert(9, file_inode(2));
    md.inodetable.insert(10, Inode::Socket(SocketInode {
        size: 0, uid: 0, gid: 0, mode: 0, linkcount: 1, refcount: 0, atime: 0, ctime: 0, mtime: 0,
    }));
    fsck(&mut md);
    for k in 1..=7 {
        assert!(md.inodetable.contains_key(&k));
    }
    assert!(!md.inodetable.contains_key(&8));
    assert!(md.inodetable.contains_key(&9));
    assert!(!md.inodetable.contains_key(&10));
    fsck(&mut md);
    assert!(md.inodetable.contains_key(&9));
}

#[test]
fn root_reference_counting() {
    let mut md = format_fs();
    incref_root(&mut md);
    assert_eq!(dir(&md, 1).refcount, 1);
    decref_dir(&mut md, &convpath("/"));
    assert_eq!(dir(&md, 1).refcount, 0);
    assert!(md.inodetable.contains_key(&1));
}

#[test]
fn decref_drops_removed_directory() {
    let mut md = format_fs();
    let gone = init_filename_to_inode_dict(8, 2);
    gone.insert("keep".to_string(), 9);
    md.inodetable.insert(8, Inode::Dir(DirectoryInode {
        size: 0, uid: 0, gid: 0, mode: S_IFDIR, linkcount: 0, refcount: 1,
        atime: 0, ctime: 0, mtime: 0, filename_to_inode_dict: gone,
    }));
    if let Some((_, Inode::Dir(d))) = md.inodetable.remove(&2) {
        d.filename_to_inode_dict.insert("old".to_string(), 8);
        md.inodetable.insert(2, Inode::Dir(d));
    }
    decref_dir(&mut md, &convpath("/dev/old"));
    assert!(!md.inodetable.contains_key(&8));
}

#[test]
fn remove_domain_sock_unlinks_everything() {
    let mut md = format_fs();
    md.inodetable.insert(8, Inode::Socket(SocketInode {
        size: 0, uid: 0, gid: 0, mode: 0, linkcount: 1, refcount: 0, atime: 0, ctime: 0, mtime: 0,
    }));
    if let Some((_, Inode::Dir(mut d))) = md.inodetable.remove(&1) {
        d.filename_to_inode_dict.insert("sock".to_string(), 8);
        d.linkcount += 1;
        md.inodetable.insert(1, Inode::Dir(d));
    }
    let mut socks = vec![convpath("/sock"), convpath("/other"), convpath("/sock")];
    remove_domain_sock(&mut md, &mut socks, convpath("/sock"));
    assert!(!md.inodetable.contains_key(&8));
    let root = dir(&md, 1);
    assert_eq!(root.linkcount, 4);
    assert_eq!(entry(&root.filename_to_inode_dict, "sock"), None);
    assert_eq!(entry(&root.filename_to_inode_dict, "dev"), Some(2));
    assert_eq!(socks.len(), 1);
    assert!(paths_equal(&socks[0], &convpath("/other")));
}
