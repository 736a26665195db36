//! The list of files at the head of a load file: entries separated by `;`,
//! each a file name, a size and a path, separated by white space.

use crate::path::string_push;
use vstd::prelude::*;

verus! {

/// One entry of the list.
#[derive(Debug)]
pub enum LoadEntry {
    /// An entry of three words whose second is a size.
    File { filename: String, filesize: usize, filepath: String },
    /// An entry of three words whose second is not a size; holds the entry
    /// as written.
    BadSize(String),
}

/// An entry, with its text as character sequences.
pub enum LoadEntryView {
    File(Seq<char>, usize, Seq<char>),
    BadSize(Seq<char>),
}

impl View for LoadEntry {
    type V = LoadEntryView;

    open spec fn view(&self) -> LoadEntryView {
        match self {
            LoadEntry::File { filename, filesize, filepath } => LoadEntryView::File(
                filename@,
                *filesize,
                filepath@,
            ),
            LoadEntry::BadSize(entry) => LoadEntryView::BadSize(entry@),
        }
    }
}

/// Whether a character has Unicode's White_Space property: the control
/// characters from tab to carriage return, the space, next line, no-break
/// space, Ogham space mark, the spaces from en quad to hair space, the line
/// and paragraph separators, the narrow no-break space, the medium
/// mathematical space and the ideographic space.
pub open spec fn unicode_whitespace(c: char) -> bool {
    ||| '\u{9}' <= c <= '\u{d}'
    ||| c == ' '
    ||| c == '\u{85}'
    ||| c == '\u{a0}'
    ||| c == '\u{1680}'
    ||| '\u{2000}' <= c <= '\u{200a}'
    ||| c == '\u{2028}'
    ||| c == '\u{2029}'
    ||| c == '\u{202f}'
    ||| c == '\u{205f}'
    ||| c == '\u{3000}'
}

/// Calls `char::is_whitespace`, which std documents as whether the
/// character has the White_Space property of the Unicode Character
/// Database. Claimed: the result is `unicode_whitespace(c)`, that property
/// written out.
#[verifier::external_body]
fn char_is_whitespace(c: char) -> (b: bool)
    ensures
        b == unicode_whitespace(c),
{
    c.is_whitespace()
}

/// The pieces of `s` between the `sep` characters (the empty ones
/// included).
pub open spec fn split_on(s: Seq<char>, sep: char) -> Seq<Seq<char>>
    decreases s.len(),
{
    if s.len() == 0 {
        seq![Seq::<char>::empty()]
    } else {
        let prev = split_on(s.drop_last(), sep);
        if s.last() == sep {
            prev.push(Seq::<char>::empty())
        } else {
            prev.update(prev.len() - 1, prev.last().push(s.last()))
        }
    }
}

pub proof fn lemma_split_on_nonempty(s: Seq<char>, sep: char)
    ensures
        split_on(s, sep).len() >= 1,
    decreases s.len(),
{
    if s.len() > 0 {
        lemma_split_on_nonempty(s.drop_last(), sep);
    }
}

/// `ws` with `cur` appended when it is not empty.
pub open spec fn flush_word(ws: Seq<Seq<char>>, cur: Seq<char>) -> Seq<Seq<char>> {
    if cur.len() > 0 {
        ws.push(cur)
    } else {
        ws
    }
}

/// The complete words of `s` and the word it ends in.
pub open spec fn words_state(s: Seq<char>) -> (Seq<Seq<char>>, Seq<char>)
    decreases s.len(),
{
    if s.len() == 0 {
        (Seq::empty(), Seq::empty())
    } else {
        let prev = words_state(s.drop_last());
        if unicode_whitespace(s.last()) {
            (flush_word(prev.0, prev.1), Seq::empty())
        } else {
            (prev.0, prev.1.push(s.last()))
        }
    }
}

/// The words of `s`: its pieces between white space, the empty ones left
/// out.
pub open spec fn words_of(s: Seq<char>) -> Seq<Seq<char>> {
    flush_word(words_state(s).0, words_state(s).1)
}

pub open spec fn is_digit(c: char) -> bool {
    '0' <= c <= '9'
}

/// The number that a sequence of decimal digits spells.
pub open spec fn decimal_value(d: Seq<char>) -> nat
    decreases d.len(),
{
    if d.len() == 0 {
        0
    } else {
        (decimal_value(d.drop_last()) * 10 + (d.last() as u32 - '0' as u32)) as nat
    }
}

/// The digits of a size: the word without a leading `+`.
pub open spec fn size_digits(w: Seq<char>) -> Seq<char> {
    if w.len() > 0 && w[0] == '+' {
        w.drop_first()
    } else {
        w
    }
}

/// The size that a word spells, as `usize::from_str` reads it: an optional
/// `+` and then at least one decimal digit, of a value that fits.
pub open spec fn parse_size(w: Seq<char>) -> Option<usize> {
    let d = size_digits(w);
    if d.len() > 0 && (forall|i: int| 0 <= i < d.len() ==> is_digit(#[trigger] d[i]))
        && decimal_value(d) <= usize::MAX {
        Some(decimal_value(d) as usize)
    } else {
        None
    }
}

/// What an entry of the list gives: a file when it has three words and the
/// second is a size, a complaint when it has three words and the second is
/// not, nothing otherwise.
pub open spec fn entry_result(entry: Seq<char>) -> Seq<LoadEntryView> {
    let ws = words_of(entry);
    if ws.len() == 3 {
        match parse_size(ws[1]) {
            Some(n) => seq![LoadEntryView::File(ws[0], n, ws[2])],
            None => seq![LoadEntryView::BadSize(entry)],
        }
    } else {
        Seq::empty()
    }
}

/// What a list of entries gives, entry by entry.
pub open spec fn entries_result(entries: Seq<Seq<char>>) -> Seq<LoadEntryView>
    decreases entries.len(),
{
    if entries.len() == 0 {
        Seq::empty()
    } else {
        entries_result(entries.drop_last()) + entry_result(entries.last())
    }
}

/// What the list `line` gives.
pub open spec fn load_entries(line: Seq<char>) -> Seq<LoadEntryView> {
    entries_result(split_on(line, ';'))
}

/// The value only grows as digits are appended.
pub proof fn lemma_decimal_value_grows(d: Seq<char>, n: int)
    requires
        0 <= n <= d.len(),
        forall|i: int| 0 <= i < d.len() ==> is_digit(#[trigger] d[i]),
    ensures
        decimal_value(d.take(n)) <= decimal_value(d),
    decreases d.len() - n,
{
    if n < d.len() {
        lemma_decimal_value_grows(d, n + 1);
        assert(d.take(n + 1).drop_last() =~= d.take(n));
    } else {
        assert(d.take(n) =~= d);
    }
}

/// The size that `word` spells, if it spells one.
pub fn parse_size_word(word: &String) -> (size: Option<usize>)
    ensures
        size == parse_size(word@),
{
    let ghost w = word@;
    let ghost d = size_digits(w);
    let mut value: usize = 0;
    let mut first = true;
    let mut signed = false;
    let ghost mut digits: int = 0;
    let mut any_digit = false;
    let mut ok = true;
    for c in it: word.as_str().chars()
        invariant
            it.seq() == w,
            d == size_digits(w),
            first == (it.index() == 0),
            signed == (it.index() >= 1 && w[0] == '+'),
            !first ==> digits == it.index() - (if signed { 1int } else { 0int }),
            first ==> digits == 0,
            any_digit == (digits > 0),
            ok ==> forall|i: int| 0 <= i < digits ==> is_digit(#[trigger] d[i]),
            ok ==> value == decimal_value(d.take(digits)),
            !ok ==> parse_size(w) is None,
            !first ==> d =~= (if signed { w.drop_first() } else { w }),
    {
        let ghost i = it.index();
        if first && c == '+' {
            signed = true;
            first = false;
        } else {
            first = false;
            if ok {
                proof {
                    assert(d[digits] == c);
                }
                if '0' <= c && c <= '9' {
                    let digit = (c as u32 - '0' as u32) as usize;
                    proof {
                        assert(d.take(digits + 1).drop_last() =~= d.take(digits));
                    }
                    match value.checked_mul(10) {
                        Some(v10) => match v10.checked_add(digit) {
                            Some(v) => {
                                value = v;
                            },
                            None => {
                                ok = false;
                            },
                        },
                        None => {
                            ok = false;
                        },
                    }
                    if !ok {
                        proof {
                            if forall|k: int| 0 <= k < d.len() ==> is_digit(#[trigger] d[k]) {
                                lemma_decimal_value_grows(d, digits + 1);
                            }
                        }
                    }
                } else {
                    ok = false;
                    assert(!is_digit(d[digits]));
                }
            }
            proof {
                digits = digits + 1;
            }
            any_digit = true;
        }
    }
    if !ok {
        return None;
    }
    if !any_digit {
        proof {
            if !signed {
                assert(w.len() == 0 || !first);
            }
        }
        return None;
    }
    proof {
        assert(d.take(digits) =~= d);
    }
    Some(value)
}

} // verus!

verus! {

/// The views of a list of strings.
pub open spec fn string_views(v: Seq<String>) -> Seq<Seq<char>> {
    v.map_values(|s: String| s@)
}

/// The views of a list of entries.
pub open spec fn entry_views(v: Seq<LoadEntry>) -> Seq<LoadEntryView> {
    v.map_values(|e: LoadEntry| e@)
}

/// Appends `word` to the words when it is not empty.
fn flush(words: &mut Vec<String>, word: String)
    ensures
        string_views(final(words)@) == flush_word(string_views(old(words)@), word@),
{
    if !word.as_str().is_empty() {
        words.push(word);
        assert(string_views(words@) =~= string_views(old(words)@).push(word@));
    }
}

/// Appends what an entry gives, given the entry and its words.
fn finish_entry(results: &mut Vec<LoadEntry>, entry: String, words: Vec<String>)
    requires
        string_views(words@) == words_of(entry@),
    ensures
        entry_views(final(results)@) == entry_views(old(results)@) + entry_result(entry@),
{
    let ghost ws = words_of(entry@);
    if words.len() == 3 {
        let mut words = words;
        let filepath = words.pop().unwrap();
        let size_word = words.pop().unwrap();
        let filename = words.pop().unwrap();
        proof {
            assert(filepath@ == ws[2]);
            assert(size_word@ == ws[1]);
            assert(filename@ == ws[0]);
        }
        match parse_size_word(&size_word) {
            Some(filesize) => {
                let e = LoadEntry::File { filename, filesize, filepath };
                results.push(e);
                assert(entry_views(results@) =~= entry_views(old(results)@) + entry_result(entry@));
            },
            None => {
                let ghost text = entry@;
                results.push(LoadEntry::BadSize(entry));
                assert(entry_views(results@) =~= entry_views(old(results)@) + entry_result(text));
            },
        }
    } else {
        assert(entry_views(results@) =~= entry_views(old(results)@) + entry_result(entry@));
    }
}

/// The entries of the list `lines`, in order: a file for each entry of
/// three words whose second is a size, a complaint holding the entry for
/// each entry of three words whose second is not; other entries give
/// nothing.
pub fn parse_load_entries(lines: &str) -> (entries: Vec<LoadEntry>)
    ensures
        entry_views(entries@) == load_entries(lines@),
{
    let mut results: Vec<LoadEntry> = Vec::new();
    let mut entry = String::new();
    let mut words: Vec<String> = Vec::new();
    let mut word = String::new();
    proof {
        assert(lines@.take(0) =~= Seq::<char>::empty());
        assert(entry_views(results@) =~= Seq::<LoadEntryView>::empty());
        assert(string_views(words@) =~= Seq::<Seq<char>>::empty());
    }
    for c in it: lines.chars()
        invariant
            it.seq() == lines@,
            entry_views(results@) == entries_result(split_on(lines@.take(it.index()), ';').drop_last()),
            entry@ == split_on(lines@.take(it.index()), ';').last(),
            string_views(words@) == words_state(entry@).0,
            word@ == words_state(entry@).1,
    {
        let ghost i = it.index();
        let ghost pre = lines@.take(i);
        let ghost post = lines@.take(i + 1);
        proof {
            assert(post.drop_last() =~= pre);
            assert(post.last() == c);
            lemma_split_on_nonempty(pre, ';');
        }
        if c == ';' {
            let done_entry = entry;
            let mut done_words = words;
            flush(&mut done_words, word);
            finish_entry(&mut results, done_entry, done_words);
            entry = String::new();
            words = Vec::new();
            word = String::new();
            proof {
                let segs = split_on(pre, ';');
                assert(split_on(post, ';').drop_last() =~= segs);
                assert(segs =~= segs.drop_last().push(segs.last()));
                assert(string_views(words@) =~= Seq::<Seq<char>>::empty());
            }
        } else {
            let ghost old_entry = entry@;
            string_push(&mut entry, c);
            proof {
                let segs = split_on(pre, ';');
                assert(split_on(post, ';').drop_last() =~= segs.drop_last());
                assert(entry@.drop_last() =~= old_entry);
            }
            if char_is_whitespace(c) {
                let done_word = word;
                flush(&mut words, done_word);
                word = String::new();
            } else {
                string_push(&mut word, c);
            }
        }
    }
    proof {
        let all = lines@;
        assert(lines@.take(lines@.len() as int) =~= all);
        lemma_split_on_nonempty(all, ';');
        let segs = split_on(all, ';');
        assert(segs =~= segs.drop_last().push(segs.last()));
    }
    flush(&mut words, word);
    finish_entry(&mut results, entry, words);
    results
}

} // verus!
