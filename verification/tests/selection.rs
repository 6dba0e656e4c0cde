use phrep::select::is_candidate_path;
use phrep::select::keep_entry;

fn default_excludes() -> Vec<String> {
    vec!["vendor".to_string(), "cache".to_string(), "logs".to_string()]
}

#[test]
fn vendor_pruned_at_any_depth() {
    let ex = default_excludes();
    assert!(!keep_entry("./vendor", "vendor", &ex));
    assert!(!keep_entry("./vendor/pkg", "vendor/pkg", &ex));
    assert!(!keep_entry("./vendor/pkg/Foo.php", "vendor/pkg/Foo.php", &ex));
    assert!(!keep_entry("./deep/vendor/pkg/Foo.php", "deep/vendor/pkg/Foo.php", &ex));
    assert!(keep_entry("./src/Foo.php", "src/Foo.php", &ex));
}

#[test]
fn relative_prefix_and_suffix_exclude() {
    let ex = vec!["build".to_string()];
    // relative-prefix match
    assert!(!keep_entry("/x/y", "build/y", &ex));
    // suffix match
    assert!(!keep_entry("/x/my-build", "my-build", &ex));
    assert!(keep_entry("/x/src/y", "src/y", &ex));
}

#[test]
fn empty_exclude_set_keeps_everything() {
    let ex: Vec<String> = Vec::new();
    assert!(keep_entry("./vendor/pkg/Foo.php", "vendor/pkg/Foo.php", &ex));
}

#[test]
fn candidate_extension_and_name_filter() {
    assert!(is_candidate_path("a/Foo.php", ".php"));
    assert!(is_candidate_path("a/Foo.php", "Foo"));
    assert!(!is_candidate_path("a/Foo.php", "Bar"));
    assert!(!is_candidate_path("a/Foo.txt", ".php"));
    assert!(!is_candidate_path("a/Foo", ""));
    // a hidden name with no further dot has no extension
    assert!(!is_candidate_path("a/.php", ""));
    assert!(is_candidate_path("a/x.php", ""));
}
