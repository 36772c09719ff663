//! The INI parser and the line matcher.

use chip8::grep::{contains_subslice, match_lines, split_lines};
use chip8::ini::parse;

fn flat(r: &[(String, Vec<(String, String)>)]) -> Vec<(String, Vec<(String, String)>)> {
    r.to_vec()
}

#[test]
fn ini_parses_sections_and_keys() {
    let text = "[alpha]\nkey = value\nother=thing\n\n[beta]\nk2 = v2\n";
    let r = parse(text);
    let r = flat(&r);
    assert_eq!(r.len(), 2);
    assert_eq!(r[0].0, "alpha");
    assert_eq!(r[0].1, vec![("key".to_string(), "value".to_string()), ("other".to_string(),
        "thing".to_string())]);
    assert_eq!(r[1].0, "beta");
    assert_eq!(r[1].1, vec![("k2".to_string(), "v2".to_string())]);
}

#[test]
fn ini_later_values_replace_earlier_ones() {
    let text = "[s]\nk = a\nk = b\n";
    let r = parse(text);
    assert_eq!(r[0].1, vec![("k".to_string(), "b".to_string())]);
}

#[test]
fn ini_key_without_equals_gets_an_empty_value() {
    let text = "[s]\nflag\n";
    let r = parse(text);
    assert_eq!(r[0].1, vec![("flag".to_string(), String::new())]);
}

#[test]
fn ini_revisits_a_section() {
    let text = "[a]\nx = 1\n[b]\ny = 2\n[a]\nz = 3\n";
    let r = parse(text);
    assert_eq!(r.len(), 2);
    assert_eq!(r[0].0, "a");
    assert_eq!(
        r[0].1,
        vec![("x".to_string(), "1".to_string()), ("z".to_string(), "3".to_string())]
    );
    assert_eq!(r[1].0, "b");
}

#[test]
fn ini_trims_whitespace() {
    let text = "  [sec]  \n   spaced key   =   spaced value   \n";
    let r = parse(text);
    assert_eq!(r[0].0, "sec");
    assert_eq!(r[0].1, vec![("spaced key".to_string(), "spaced value".to_string())]);
}

#[test]
fn ini_trims_all_unicode_whitespace() {
    let text = "[sec]\n\u{a0}\u{2003}key\u{3000} = \u{2028}value\u{85}\n";
    let r = parse(text);
    assert_eq!(r[0].1, vec![("key".to_string(), "value".to_string())]);
}

#[test]
fn ini_empty_input_yields_nothing() {
    let r = parse("");
    assert!(r.is_empty());
}

#[test]
fn subslice_search_finds_runs() {
    assert!(contains_subslice(b"hello world", b"lo wo"));
    assert!(contains_subslice(b"hello", b""));
    assert!(contains_subslice(b"hello", b"hello"));
    assert!(!contains_subslice(b"hello", b"world"));
    assert!(!contains_subslice(b"he", b"hello"));
}

#[test]
fn split_lines_matches_a_buffered_reader() {
    let lines = split_lines(b"one\ntwo\r\nthree");
    let texts: Vec<&[u8]> = lines.iter().map(|l| l.as_slice()).collect();
    assert_eq!(texts, vec![b"one".as_slice(), b"two".as_slice(), b"three".as_slice()]);

    let lines = split_lines(b"ends\nwith newline\n");
    assert_eq!(lines.len(), 2);

    let lines = split_lines(b"");
    assert!(lines.is_empty());

    let lines = split_lines(b"a\n\nb");
    assert_eq!(lines.len(), 3);
    assert_eq!(lines[1], b"".to_vec());
}

#[test]
fn match_lines_numbers_the_hits() {
    let content = b"first hit\nnothing\nsecond hit\n";
    let found = match_lines(content, b"hit");
    assert_eq!(found.len(), 2);
    assert_eq!(found[0].0, 1);
    assert_eq!(found[0].1, b"first hit".to_vec());
    assert_eq!(found[1].0, 3);
    assert_eq!(found[1].1, b"second hit".to_vec());

    let none = match_lines(content, b"absent");
    assert!(none.is_empty());
}
