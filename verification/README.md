# rustposix

An in-memory emulation of a POSIX file system's storage and metadata,
written in Verus and verified.

- `src/memory.rs`: the page pool (`Memory`), page allocation and release.
- `src/file.rs`: emulated files (`EmulatedFile`) that read and write their
  bytes through the pool's pages; `src/file_laws.rs` proves that reads give
  back what writes stored, as long as no page occurs twice in the file's
  list of pages (a file that shrank and grew again can hold a freed page a
  second time), and that releasing pages undoes an allocation.
- `src/open_files.rs`: the set of open file names, a `dashmap::DashSet`.
- `src/digest.rs`: SHA-256 digests (`sha2`) used to cross-check reads.
- `src/path.rs`: paths as component lists, parsing and normalization.
- `src/inode.rs`, `src/filesystem.rs`: inodes, directory entries and the
  inode table (both held in `dashmap::DashMap`s), the blank and formatted
  trees, walks along paths, the path of a directory,
  reference and link counting; `src/laws.rs` states what these promise
  across calls.
- `src/load.rs`: the list of files at the head of a load file.
- `app/`: the host side (listing the host directory, shared-memory backing
  files, reading a load file).
