//! An in-memory emulation of a file system: a page pool that files draw
//! their storage from, emulated files that read and write through it, and
//! the inode metadata of the file tree.

pub mod digest;
pub mod memory;
pub mod open_files;
pub mod file;
pub mod file_laws;
pub mod path;
pub mod inode;
pub mod filesystem;
pub mod load;
pub mod laws;
