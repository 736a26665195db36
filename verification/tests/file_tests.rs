use dashmap::DashSet;
use rustposix::file::{
    convert_bytes_to_size, is_allowed_char, is_allowed_filename, openfile, openfile_checked,
    EmulatedFile, MAX_FILENAME_LENGTH,
};
use rustposix::memory::{Memory, PAGE_SIZE};

fn new_file(name: &str) -> (DashSet<String>, EmulatedFile) {
    let mut open_files = DashSet::new();
    let f = openfile(&mut open_files, name.to_string()).unwrap();
    (open_files, f)
}

fn read_all(f: &EmulatedFile, mem: &Memory) -> Vec<u8> {
    f.readfile_to_new_bytes(mem).unwrap()
}

#[test]
fn openfile_gives_empty_file_and_marks_it_open() {
    let (open_files, f) = new_file("foo.txt");
    assert_eq!(f.filename, "foo.txt");
    assert_eq!(f.filesize, 0);
    assert!(f.memory_block.is_empty());
    assert!(open_files.contains("foo.txt"));
}

#[test]
fn close_then_open_toggles_the_open_set() {
    let (mut open_files, f) = new_file("bar");
    f.close(&mut open_files).unwrap();
    assert!(!open_files.contains("bar"));
    f.open(&mut open_files).unwrap();
    assert!(open_files.contains("bar"));
    f.close(&mut open_files).unwrap();
    assert!(open_files.is_empty());
}

#[test]
fn first_write_reads_back() {
    let mut mem = Memory::new(4 * PAGE_SIZE);
    let (_open, mut f) = new_file("a");
    let n = f.writeat(&mut mem, b"hello", 5, 0).unwrap();
    assert_eq!(n, 5);
    assert_eq!(f.filesize, 5);
    assert_eq!(f.memory_block, vec![0]);
    assert_eq!(mem.memory_list, vec![1, 0, 0, 0]);
    let mut buf = vec![7u8; 8];
    assert_eq!(f.readat(&mem, &mut buf, 5, 0).unwrap(), 5);
    assert_eq!(buf, b"hello\x07\x07\x07".to_vec());
}

#[test]
fn write_of_prefix_of_buffer() {
    let mut mem = Memory::new(2 * PAGE_SIZE);
    let (_open, mut f) = new_file("a");
    assert_eq!(f.writeat(&mut mem, b"abcdef", 3, 0).unwrap(), 3);
    assert_eq!(read_all(&f, &mem), b"abc".to_vec());
}

#[test]
fn read_stops_at_end_of_file() {
    let mut mem = Memory::new(2 * PAGE_SIZE);
    let (_open, mut f) = new_file("a");
    f.writefile_from_bytes(&mut mem, b"0123456789").unwrap();
    let mut buf = vec![0u8; 10];
    assert_eq!(f.readat(&mem, &mut buf, 10, 4).unwrap(), 6);
    assert_eq!(&buf[..6], b"456789");
    assert_eq!(f.readat(&mem, &mut buf, 10, 10).unwrap(), 0);
}

#[test]
fn append_and_read_whole_file() {
    let mut mem = Memory::new(4 * PAGE_SIZE);
    let (_open, mut f) = new_file("a");
    f.writefile_from_bytes(&mut mem, b"hello").unwrap();
    f.writefile_from_bytes(&mut mem, b"world").unwrap();
    assert_eq!(f.filesize, 10);
    assert_eq!(read_all(&f, &mem), b"helloworld".to_vec());
}

#[test]
fn overwrite_inside_file() {
    let mut mem = Memory::new(4 * PAGE_SIZE);
    let (_open, mut f) = new_file("a");
    f.writefile_from_bytes(&mut mem, b"helloworld").unwrap();
    assert_eq!(f.writeat(&mut mem, b"XY", 2, 3).unwrap(), 2);
    assert_eq!(f.filesize, 10);
    assert_eq!(read_all(&f, &mem), b"helXYworld".to_vec());
}

#[test]
fn zerofill_inside_and_past_end() {
    let mut mem = Memory::new(4 * PAGE_SIZE);
    let (_open, mut f) = new_file("a");
    f.writefile_from_bytes(&mut mem, b"helloworld").unwrap();
    assert_eq!(f.zerofill_at(&mut mem, 2, 3).unwrap(), 3);
    assert_eq!(read_all(&f, &mem), b"he\0\0\0world".to_vec());
    assert_eq!(f.zerofill_at(&mut mem, 8, 4).unwrap(), 4);
    assert_eq!(f.filesize, 12);
    assert_eq!(read_all(&f, &mem), b"he\0\0\0wor\0\0\0\0".to_vec());
}

#[test]
fn write_across_pages() {
    let mut mem = Memory::new(4 * PAGE_SIZE);
    let (_open, mut f) = new_file("a");
    let data: Vec<u8> = (0..PAGE_SIZE + 100).map(|i| (i % 251) as u8).collect();
    f.writefile_from_bytes(&mut mem, &data).unwrap();
    assert_eq!(f.memory_block, vec![0, 1]);
    assert_eq!(read_all(&f, &mem), data);
    // Extending from inside the second page, past its end.
    let more = vec![9u8; PAGE_SIZE];
    assert_eq!(f.writeat(&mut mem, &more, PAGE_SIZE, PAGE_SIZE + 100).unwrap(), PAGE_SIZE);
    assert_eq!(f.memory_block, vec![0, 1, 2]);
    let all = read_all(&f, &mem);
    assert_eq!(all.len(), 2 * PAGE_SIZE + 100);
    assert_eq!(&all[..PAGE_SIZE + 100], &data[..]);
    assert!(all[PAGE_SIZE + 100..].iter().all(|&b| b == 9));
}

#[test]
fn append_at_page_boundary_gets_no_page() {
    // A write that starts at the very end of the file's last page and fits
    // in one page is not given a page: nothing of it is stored.
    let mut mem = Memory::new(4 * PAGE_SIZE);
    let (_open, mut f) = new_file("a");
    let full = vec![1u8; PAGE_SIZE];
    f.writefile_from_bytes(&mut mem, &full).unwrap();
    let n = f.writeat(&mut mem, b"tail", 4, PAGE_SIZE).unwrap();
    assert_eq!(n, 0);
    assert_eq!(f.filesize, PAGE_SIZE + 4);
    assert_eq!(f.memory_block.len(), 1);
    let all = read_all(&f, &mem);
    assert_eq!(&all[..PAGE_SIZE], &full[..]);
    assert_eq!(&all[PAGE_SIZE..], &[0, 0, 0, 0]);
}

#[test]
fn shrink_keeps_pages_listed_but_frees_them() {
    let mut mem = Memory::new(4 * PAGE_SIZE);
    let (_open, mut f) = new_file("a");
    let data = vec![3u8; 3 * PAGE_SIZE];
    f.writefile_from_bytes(&mut mem, &data).unwrap();
    assert_eq!(mem.memory_list, vec![1, 1, 1, 0]);
    f.shrink(&mut mem, 10).unwrap();
    assert_eq!(f.filesize, 10);
    assert_eq!(f.memory_block, vec![0, 1, 2]);
    assert_eq!(mem.memory_list, vec![1, 0, 0, 0]);
    assert_eq!(read_all(&f, &mem), vec![3u8; 10]);
}

#[test]
fn shrink_past_first_page_keeps_two_more() {
    let mut mem = Memory::new(6 * PAGE_SIZE);
    let (_open, mut f) = new_file("a");
    f.writefile_from_bytes(&mut mem, &vec![1u8; 5 * PAGE_SIZE]).unwrap();
    f.shrink(&mut mem, PAGE_SIZE + 1).unwrap();
    assert_eq!(mem.memory_list, vec![1, 1, 1, 0, 0, 0]);
}

#[test]
fn convert_bytes_to_size_is_big_endian() {
    assert_eq!(convert_bytes_to_size(&[0, 0, 0, 0, 0, 0, 1, 2]), 258);
    assert_eq!(convert_bytes_to_size(&[1, 0, 0, 0, 0, 0, 0, 0]), 1usize << 56);
    assert_eq!(convert_bytes_to_size(&[0xff; 8]), usize::MAX);
}

#[test]
fn filename_length_limit_counts_bytes() {
    assert!(is_allowed_filename(&"a".repeat(MAX_FILENAME_LENGTH)));
    assert!(!is_allowed_filename(&"a".repeat(MAX_FILENAME_LENGTH + 1)));
    assert!(!is_allowed_filename(&"é".repeat(61)));
    assert!(is_allowed_filename(&"é".repeat(60)));
}

#[test]
fn allowed_chars_are_alphanumeric_or_period() {
    assert!(is_allowed_char('a'));
    assert!(is_allowed_char('7'));
    assert!(is_allowed_char('.'));
    assert!(is_allowed_char('é'));
    assert!(!is_allowed_char('/'));
    assert!(!is_allowed_char(' '));
}

#[test]
fn openfile_checked_refuses_open_or_long_names() {
    let mut open_files = DashSet::new();
    let f = openfile_checked(&mut open_files, "x".to_string()).unwrap();
    assert_eq!(f.filename, "x");
    assert!(openfile_checked(&mut open_files, "x".to_string()).is_none());
    assert!(openfile_checked(&mut open_files, "y".repeat(MAX_FILENAME_LENGTH + 1)).is_none());
    assert_eq!(open_files.len(), 1);
    f.close(&mut open_files).unwrap();
    assert!(openfile_checked(&mut open_files, "x".to_string()).is_some());
}
