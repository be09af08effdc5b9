use snowfall::text::{
    chars_lt, chars_of, find_char, find_sub, join_chars, remove_char, rfind_char, splice_chars, split_lines,
    split_on_char, split_whitespace, trim_chars,
};

fn cs(s: &str) -> Vec<char> {
    s.chars().collect()
}

fn st(v: &[char]) -> String {
    v.iter().collect()
}

#[test]
fn whitespace_words_and_trim() {
    let w = split_whitespace(&cs("  a  bc\td\n"));
    let w: Vec<String> = w.iter().map(|x| st(x)).collect();
    assert_eq!(w, vec!["a", "bc", "d"]);
    assert_eq!(st(&trim_chars(&cs(" \u{3000}x y\t"))), "x y");
    assert_eq!(chars_of("héllo").len(), 5);
}

#[test]
fn lines_like_str_lines() {
    let ls = split_lines(&cs("a\r\nb\n\nc"));
    let ls: Vec<String> = ls.iter().map(|x| st(x)).collect();
    assert_eq!(ls, "a\r\nb\n\nc".lines().collect::<Vec<_>>());
    assert!(split_lines(&cs("")).is_empty());
    assert_eq!(split_lines(&cs("x\n")).len(), 1);
}

#[test]
fn split_keeps_empty_pieces() {
    let p = split_on_char(&cs(",a,,b,"), ',');
    let p: Vec<String> = p.iter().map(|x| st(x)).collect();
    assert_eq!(p, vec!["", "a", "", "b", ""]);
}

#[test]
fn finding() {
    assert_eq!(find_char(&cs("a[b[c"), '['), Some(1));
    assert_eq!(rfind_char(&cs("a]b]c"), ']'), Some(3));
    assert_eq!(find_char(&cs("abc"), 'z'), None);
    assert_eq!(find_sub(&cs("xxabab"), &cs("ab")), Some(2));
    assert_eq!(find_sub(&cs("abc"), &cs("")), Some(0));
    assert_eq!(find_sub(&cs("ab"), &cs("abc")), None);
}

#[test]
fn edits_and_order() {
    assert_eq!(st(&splice_chars(&cs("ad"), 1, &cs("bc"))), "abcd");
    assert_eq!(st(&remove_char(&cs("abc"), 1)), "ac");
    assert_eq!(st(&join_chars(&vec![cs("a"), cs("b"), cs("c")], &cs(", "))), "a, b, c");
    assert!(chars_lt(&cs("Zed"), &cs("abc")));
    assert!(chars_lt(&cs("ab"), &cs("abc")));
    assert!(!chars_lt(&cs("abc"), &cs("abc")));
}
