use phrep::engine::Match;
use phrep::engine::grep_search_file;
use phrep::engine::search_file;
use phrep::query::Query;
use phrep::query::SearchMode;
use phrep::render::render_match;

fn query(s: &str) -> Query {
    Query::new(s.to_string()).unwrap()
}

const CLASS_FILE: &str = "<?php\nclass A { function f() { $x = 1; /* needle */ return $x; } }";

#[test]
fn scoped_search_finds_line_in_method() {
    let q = query("needle");
    let (ms, ws) = search_file(CLASS_FILE, &q, SearchMode::Basic, false, "A.php");
    assert!(ws.is_empty());
    assert_eq!(ms.len(), 1);
    let m = &ms[0];
    assert_eq!(m.file_path, "A.php");
    assert_eq!(m.line, 2);
    assert_eq!(m.decl_name.as_deref(), Some("f"));
    assert_eq!(
        m.text,
        "{ $x = 1; /* \u{1b}[1;31mneedle\u{1b}[0m */ return $x; }"
    );
}

#[test]
fn name_search_returns_whole_body() {
    let q = query("f");
    let (ms, ws) = search_file(CLASS_FILE, &q, SearchMode::NameSearch, false, "A.php");
    assert!(ws.is_empty());
    assert_eq!(ms.len(), 1);
    let m = &ms[0];
    assert_eq!(m.decl_name.as_deref(), Some("f"));
    assert_eq!(m.line, 2);
    assert_eq!(m.params_text, "()");
    assert_eq!(m.return_type_text, "");
    assert_eq!(m.text, "{ $x = 1; /* needle */ return $x; }");
}

#[test]
fn name_search_carries_params_and_return_type() {
    let content = "<?php\nclass C { function t(int $x): int { return $x; } }";
    let q = query("t");
    let (ms, _) = search_file(content, &q, SearchMode::NameSearch, false, "C.php");
    assert_eq!(ms.len(), 1);
    assert_eq!(ms[0].params_text, "(int $x)");
    assert_eq!(ms[0].return_type_text, "int");
}

#[test]
fn name_search_misses_other_names() {
    let q = query("zz");
    let (ms, _) = search_file(CLASS_FILE, &q, SearchMode::NameSearch, false, "A.php");
    assert!(ms.is_empty());
}

#[test]
fn grep_reports_each_containing_line() {
    let q = query("needle");
    let content = "foo\nbar needle\nneedle baz\nquux";
    let (ms, ws) = search_file(content, &q, SearchMode::Grep, false, "f.php");
    assert!(ws.is_empty());
    let lines: Vec<usize> = ms.iter().map(|m| m.line).collect();
    assert_eq!(lines, vec![2, 3]);
    assert!(ms.iter().all(|m| m.decl_name.is_none()));
}

#[test]
fn grep_uses_real_pattern_semantics() {
    // a pattern with a repetition matches where the literal text differs
    let q = query("ne+dle");
    let ms = grep_search_file("say needle now\nnothing here", &q, "f.php");
    assert_eq!(ms.len(), 1);
    assert_eq!(ms[0].line, 1);
    // the highlight wraps the literal pattern text only, so the line stays
    // unmarked: the documented limitation of literal-text highlighting
    assert_eq!(ms[0].text, "say needle now");
}

#[test]
fn scoped_search_skips_unmatched_files() {
    let q = query("absent");
    let (ms, ws) = search_file(CLASS_FILE, &q, SearchMode::Basic, false, "A.php");
    assert!(ms.is_empty());
    assert!(ws.is_empty());
}

#[test]
fn top_level_function_found_by_recursive_pass() {
    let q = query("return");
    let content = "<?php\nfunction g($a) { return $a; }";
    let (ms, _) = search_file(content, &q, SearchMode::Basic, false, "g.php");
    assert_eq!(ms.len(), 1);
    assert_eq!(ms[0].decl_name.as_deref(), Some("g"));
    assert_eq!(ms[0].line, 2);
}

#[test]
fn nested_function_reported_under_both_scopes() {
    let q = query("echo");
    let content = "<?php\nclass B { function m() { function h() { echo 1; } } }";
    let (ms, _) = search_file(content, &q, SearchMode::Basic, false, "b.php");
    let names: Vec<&str> = ms.iter().map(|m| m.decl_name.as_deref().unwrap()).collect();
    assert_eq!(names, vec!["m", "h"]);
    assert!(ms.iter().all(|m| m.line == 2));
}

#[test]
fn whole_body_emitted_per_matching_line() {
    let q = query("line");
    let content = "<?php\nfunction w() {\n  $a = 'line one';\n  $b = 'line two';\n}";
    let (ms, _) = search_file(content, &q, SearchMode::Basic, true, "w.php");
    assert_eq!(ms.len(), 2);
    assert_eq!(ms[0].line, 3);
    assert_eq!(ms[1].line, 4);
    // both carry the whole body, highlighted at its first occurrence
    assert_eq!(ms[0].text, ms[1].text);
    assert!(ms[0].text.starts_with("{"));
}

#[test]
fn excluded_directory_contributes_no_matches() {
    // a small tree, walked in memory: the match sits under vendor/ and the
    // default exclude set prunes it before the file is ever searched
    let files = vec![
        ("./vendor/pkg/Foo.php", "vendor/pkg/Foo.php", "<?php\nfunction v() { needle(); }"),
        ("./src/Bar.php", "src/Bar.php", "<?php\nfunction b() { clean(); }"),
    ];
    let excludes = vec!["vendor".to_string(), "cache".to_string(), "logs".to_string()];
    let q = query("needle");
    let mut all: Vec<Match> = Vec::new();
    for (path, rel, content) in files {
        if !phrep::select::keep_entry(path, rel, &excludes) {
            continue;
        }
        if !phrep::select::is_candidate_path(path, ".php") {
            continue;
        }
        let (ms, _) = search_file(content, &q, SearchMode::Basic, false, path);
        all.extend(ms);
    }
    assert!(all.is_empty());
}

#[test]
fn grep_on_empty_file_reports_nothing() {
    let q = query("x");
    let (ms, ws) = search_file("", &q, SearchMode::Grep, false, "e.php");
    assert!(ms.is_empty());
    assert!(ws.is_empty());
}

#[test]
fn same_invocation_twice_is_identical() {
    let q = query("needle");
    let first: (Vec<Match>, _) = search_file(CLASS_FILE, &q, SearchMode::Basic, false, "A.php");
    let second: (Vec<Match>, _) = search_file(CLASS_FILE, &q, SearchMode::Basic, false, "A.php");
    assert_eq!(first.0, second.0);
    let r1: Vec<String> = first.0.iter().map(|m| render_match(m, SearchMode::Basic)).collect();
    let r2: Vec<String> = second.0.iter().map(|m| render_match(m, SearchMode::Basic)).collect();
    assert_eq!(r1, r2);
}

#[test]
fn rendered_output_lines() {
    let q = query("needle");
    let (ms, _) = search_file(CLASS_FILE, &q, SearchMode::Basic, false, "A.php");
    assert_eq!(
        render_match(&ms[0], SearchMode::Basic),
        "A.php:2: f() \u{2192} { $x = 1; /* \u{1b}[1;31mneedle\u{1b}[0m */ return $x; }"
    );
    let (ns, _) = search_file(CLASS_FILE, &query("f"), SearchMode::NameSearch, false, "A.php");
    assert_eq!(
        render_match(&ns[0], SearchMode::NameSearch),
        "A.php:2: f(): \u{2192} { $x = 1; /* needle */ return $x; }"
    );
    let (gs, _) = search_file("a needle", &q, SearchMode::Grep, false, "g.php");
    assert_eq!(
        render_match(&gs[0], SearchMode::Grep),
        "g.php:1 \u{2192} a \u{1b}[1;31mneedle\u{1b}[0m"
    );
}
