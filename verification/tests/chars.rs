use docfetch::chars::{
    char_is_space, decimal_of, find_char, find_seq, find_space_from, from_chars, lines_of,
    read_u16, replaced, second_word, split_on, to_chars, trimmed,
};
use docfetch::dict::StringMap;

fn text(v: &[char]) -> String {
    v.iter().collect()
}

fn texts(v: &[Vec<char>]) -> Vec<String> {
    v.iter().map(|piece| text(piece)).collect()
}

#[test]
fn strings_and_characters_convert_both_ways() {
    assert_eq!(to_chars("héllo"), ['h', 'é', 'l', 'l', 'o']);
    assert_eq!(from_chars(&vec!['a', 'ß', '\u{1f600}']), "aß\u{1f600}");
    assert_eq!(from_chars(&to_chars("")), "");
}

#[test]
fn finding_gives_the_first_place_or_the_length() {
    assert_eq!(find_char(&to_chars("a/b/c"), '/'), 1);
    assert_eq!(find_char(&to_chars("abc"), '/'), 3);
    assert_eq!(find_seq(&to_chars("http://x://y"), &to_chars("://")), 4);
    assert_eq!(find_seq(&to_chars("http:/x"), &to_chars("://")), 7);
    assert_eq!(find_seq(&to_chars(":/"), &to_chars("://")), 2);
}

#[test]
fn trimming_takes_unicode_white_space_off_both_ends() {
    assert_eq!(text(&trimmed(&to_chars(" \t\r\n a b \u{a0}\u{2003}\u{3000}"))), "a b");
    assert_eq!(text(&trimmed(&to_chars("   "))), "");
    assert_eq!(text(&trimmed(&to_chars("x"))), "x");
    assert_eq!(text(&trimmed(&to_chars("\u{200b}x"))), "\u{200b}x");
}

#[test]
fn white_space_is_what_the_standard_library_calls_it() {
    let mut code = 0u32;
    while code <= 0x3100 {
        if let Some(c) = char::from_u32(code) {
            assert_eq!(char_is_space(c), c.is_whitespace(), "U+{:04X}", code);
        }
        code += 1;
    }
}

#[test]
fn second_word_stands_between_the_first_two_white_space_characters() {
    let word = |s: &str| second_word(&to_chars(s)).map(|w| text(&w));
    assert_eq!(word("a b c"), Some("b".to_string()));
    assert_eq!(word("a\tb\nc"), Some("b".to_string()));
    assert_eq!(word("a b"), Some("b".to_string()));
    assert_eq!(word("a  b"), Some("".to_string()));
    assert_eq!(word("a "), Some("".to_string()));
    assert_eq!(word(" a b"), Some("a".to_string()));
    assert_eq!(word("ab"), None);
    assert_eq!(word(""), None);
    for s in ["a b c", "a\tb\u{2003}c", "x", "", "  ", "one two", "tab\there "] {
        let expected = s.split(char::is_whitespace).nth(1).map(|w| w.to_string());
        assert_eq!(word(s), expected, "{:?}", s);
    }
    assert_eq!(find_space_from(&to_chars("ab cd ef"), 0), 2);
    assert_eq!(find_space_from(&to_chars("ab cd ef"), 3), 5);
    assert_eq!(find_space_from(&to_chars("ab cd ef"), 6), 8);
}

#[test]
fn replacing_goes_left_to_right_without_overlap() {
    let r = |s: &str, p: &str, w: &str| text(&replaced(&to_chars(s), &to_chars(p), &to_chars(w)));
    assert_eq!(r("aaa", "aa", "b"), "ba");
    assert_eq!(r("a&amp;b&amp;", "&amp;", "&"), "a&b&");
    assert_eq!(r("abc", "x", "y"), "abc");
    assert_eq!(r("", "x", "y"), "");
    assert_eq!(r("\t\t", "\t", "    "), "        ");
    assert_eq!(r("abab", "ab", ""), "");
}

#[test]
fn splitting_gives_one_piece_more_than_separators() {
    assert_eq!(texts(&split_on(&to_chars("a&b&&c"), '&')), ["a", "b", "", "c"]);
    assert_eq!(texts(&split_on(&to_chars(""), '&')), [""]);
    assert_eq!(texts(&split_on(&to_chars("&"), '&')), ["", ""]);
    let s = "x=1&y=2&";
    assert_eq!(texts(&split_on(&to_chars(s), '&')), s.split('&').collect::<Vec<_>>());
}

#[test]
fn lines_end_at_line_feeds() {
    for s in ["", "\n", "a", "a\n", "a\nb", "a\r\nb\r\n", "a\r\n\r\nb", "\r", "a\r", "a\r\r\n", "\n\n", "a\n\rb"] {
        assert_eq!(texts(&lines_of(&to_chars(s))), s.lines().collect::<Vec<_>>(), "{:?}", s);
    }
}

#[test]
fn numbers_are_read_as_the_standard_library_reads_them() {
    for s in ["0", "80", "+80", "0080", "65535", "65536", "99999999999999999999", "", "+", "-1", "8 0", " 80", "80 ", "++1", "1+", "٣", "000000000000000000000065535"] {
        assert_eq!(read_u16(&to_chars(s)), s.parse::<u16>().ok(), "{:?}", s);
    }
}

#[test]
fn numbers_are_written_in_decimal() {
    for n in [0u16, 7, 10, 80, 443, 8080, 9999, 10000, 65535] {
        assert_eq!(text(&decimal_of(n)), n.to_string());
    }
}

#[test]
fn string_map_keeps_first_place_and_last_value() {
    let mut map = StringMap::new();
    assert!(map.is_empty());
    map.insert("b".to_string(), "1".to_string());
    map.insert("a".to_string(), "2".to_string());
    map.insert("b".to_string(), "3".to_string());
    assert_eq!(map.len(), 2);
    assert!(!map.is_empty());
    assert_eq!(map.key_at(0), "b");
    assert_eq!(map.value_at(0), "3");
    assert_eq!(map.key_at(1), "a");
    assert_eq!(map.get("a").cloned(), Some("2".to_string()));
    assert_eq!(map.get("c"), None);
    assert!(map.contains_key("b"));
    assert!(!map.contains_key("B"));
    let copy = map.clone();
    assert_eq!(copy.len(), 2);
    assert_eq!(copy.get("b").cloned(), Some("3".to_string()));
}
