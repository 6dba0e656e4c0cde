use phrep::render::format_filename;
use phrep::render::highlight_first;
use phrep::render::usize_to_string;

#[test]
fn home_prefix_becomes_tilde() {
    let home = Some("/home/alice".to_string());
    assert_eq!(format_filename("/home/alice/proj/x.php", &home), "~/proj/x.php");
    assert_eq!(format_filename("/srv/www/x.php", &home), "/srv/www/x.php");
}

#[test]
fn leading_dot_slash_stripped() {
    assert_eq!(format_filename("./x.php", &None), "x.php");
    assert_eq!(format_filename("x.php", &None), "x.php");
    assert_eq!(format_filename("a/./x.php", &None), "a/./x.php");
}

#[test]
fn decimal_rendering() {
    assert_eq!(usize_to_string(0), "0");
    assert_eq!(usize_to_string(7), "7");
    assert_eq!(usize_to_string(10), "10");
    assert_eq!(usize_to_string(1234567890), "1234567890");
}

#[test]
fn first_occurrence_highlighted() {
    assert_eq!(
        highlight_first("say needle now", "needle"),
        "say \u{1b}[1;31mneedle\u{1b}[0m now"
    );
    // only the first occurrence is wrapped
    assert_eq!(highlight_first("aaa", "aa"), "\u{1b}[1;31maa\u{1b}[0ma");
    // no occurrence: unchanged
    assert_eq!(highlight_first("plain", "x"), "plain");
}
