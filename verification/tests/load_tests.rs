use rustposix::load::{parse_load_entries, parse_size_word, LoadEntry};

fn describe(e: &LoadEntry) -> String {
    match e {
        LoadEntry::File { filename, filesize, filepath } => format!("{}|{}|{}", filename, filesize, filepath),
        LoadEntry::BadSize(entry) => format!("bad:{}", entry),
    }
}

#[test]
fn parses_entries_and_reports_bad_sizes() {
    let got: Vec<String> =
        parse_load_entries("a 10 /x/a;b zz /y;c 1;  d\t+7 /z  \n").iter().map(describe).collect();
    assert_eq!(got, vec!["a|10|/x/a", "bad:b zz /y", "d|7|/z"]);
}

#[test]
fn entries_of_other_word_counts_give_nothing() {
    assert!(parse_load_entries("").is_empty());
    assert!(parse_load_entries(";;").is_empty());
    assert!(parse_load_entries("a 1 /p extra").is_empty());
}

#[test]
fn unicode_white_space_separates_words() {
    let got: Vec<String> = parse_load_entries("f\u{a0}3\u{2003}/p").iter().map(describe).collect();
    assert_eq!(got, vec!["f|3|/p"]);
}

#[test]
fn sizes_parse_as_usize_from_str() {
    for w in ["0", "42", "+42", "007", "18446744073709551615", "", "+", "-1", "4x", "18446744073709551616"] {
        assert_eq!(parse_size_word(&w.to_string()), w.parse::<usize>().ok(), "word {:?}", w);
    }
}

#[test]
fn white_space_is_exactly_the_unicode_list() {
    let listed: Vec<u32> = (0x9..=0xd)
        .chain([0x20, 0x85, 0xa0, 0x1680])
        .chain(0x2000..=0x200a)
        .chain([0x2028, 0x2029, 0x202f, 0x205f, 0x3000])
        .collect();
    for c in (0u32..=0x10ffff).filter_map(char::from_u32) {
        assert_eq!(c.is_whitespace(), listed.contains(&(c as u32)), "char {:?}", c);
    }
}

#[test]
fn zero_width_space_does_not_separate_words() {
    let got: Vec<String> = parse_load_entries("f\u{200b}g 3 /p;h\u{3000}4\u{2028}/q").iter().map(describe).collect();
    assert_eq!(got, vec!["f\u{200b}g|3|/p", "h|4|/q"]);
}
