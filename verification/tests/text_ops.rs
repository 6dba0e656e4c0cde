use phrep::text::contains_sub;
use phrep::text::ends_with_str;
use phrep::text::find_first;
use phrep::text::split_char;
use phrep::text::split_lines;
use phrep::text::starts_with_str;
use phrep::text::str_eq;
use phrep::text::trim_str;

#[test]
fn trim_both_ends() {
    assert_eq!(trim_str("  a b\t"), "a b");
    assert_eq!(trim_str("a"), "a");
    assert_eq!(trim_str("   "), "");
    assert_eq!(trim_str(""), "");
    assert_eq!(trim_str("\r\nx\r\n"), "x");
}

#[test]
fn split_on_commas() {
    let v = split_char("a,b,,c", ',');
    assert_eq!(v, vec!["a", "b", "", "c"]);
    let v = split_char("", ',');
    assert_eq!(v, vec![""]);
    let v = split_char("xyz", ',');
    assert_eq!(v, vec!["xyz"]);
    let v = split_char("a,", ',');
    assert_eq!(v, vec!["a", ""]);
}

#[test]
fn lines_like_std() {
    let v = split_lines("one\ntwo\r\nthree");
    assert_eq!(v, vec!["one", "two", "three"]);
    let v = split_lines("end\n");
    assert_eq!(v, vec!["end"]);
    let v = split_lines("");
    assert!(v.is_empty());
    let v = split_lines("\n\n");
    assert_eq!(v, vec!["", ""]);
    // agreement with the standard splitter on a mixed sample
    let sample = "a\nb\r\nc\n\nd";
    let ours = split_lines(sample);
    let std_lines: Vec<&str> = sample.lines().collect();
    assert_eq!(ours, std_lines);
}

#[test]
fn substring_search() {
    assert!(contains_sub("hello world", "o w"));
    assert!(!contains_sub("hello", "z"));
    assert!(contains_sub("abc", ""));
    assert_eq!(find_first("aaa", "aa"), Some(0));
    assert_eq!(find_first("xayaa", "aa"), Some(3));
    assert_eq!(find_first("xy", "z"), None);
    assert!(starts_with_str("needle in", "needle"));
    assert!(!starts_with_str("in needle", "needle"));
    assert!(ends_with_str("Foo.php", ".php"));
    assert!(!ends_with_str("Foo.phps", ".php"));
}

#[test]
fn char_equality() {
    assert!(str_eq("abc", "abc"));
    assert!(!str_eq("abc", "abd"));
    assert!(!str_eq("abc", "ab"));
    assert!(str_eq("", ""));
}
