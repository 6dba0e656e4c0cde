use phrep::decl::DeclKind;
use phrep::decl::Declaration;
use phrep::decl::Warning;
use phrep::decl::extract;
use phrep::engine::basic_decls_search;
use phrep::engine::name_decls_search;
use phrep::query::Query;
use phrep::tree::SyntaxNode;

fn leaf(kind: &str, field: Option<&str>, text: Option<&str>, row: usize) -> SyntaxNode {
    SyntaxNode {
        kind: kind.to_string(),
        named: true,
        field: field.map(|f| f.to_string()),
        start_row: row,
        end_row: row,
        text: text.map(|t| t.to_string()),
        children: Vec::new(),
    }
}

fn method(name: Option<&str>, body_text: &str, row: usize) -> SyntaxNode {
    SyntaxNode {
        kind: "method_declaration".to_string(),
        named: true,
        field: None,
        start_row: row,
        end_row: row,
        text: Some(format!("function x() {}", body_text)),
        children: vec![
            leaf("name", Some("name"), name, row),
            leaf("formal_parameters", Some("parameters"), Some("($a)"), row),
            leaf("compound_statement", Some("body"), Some(body_text), row),
        ],
    }
}

fn class_with(members: Vec<SyntaxNode>, class_name: &str) -> SyntaxNode {
    let first = members.first().map(|m| m.start_row).unwrap_or(0);
    let last = members.last().map(|m| m.end_row).unwrap_or(0);
    SyntaxNode {
        kind: "class_declaration".to_string(),
        named: true,
        field: None,
        start_row: first,
        end_row: last,
        text: None,
        children: vec![
            leaf("name", Some("name"), Some(class_name), first),
            SyntaxNode {
                kind: "declaration_list".to_string(),
                named: true,
                field: Some("body".to_string()),
                start_row: first,
                end_row: last,
                text: None,
                children: members,
            },
        ],
    }
}

fn program(children: Vec<SyntaxNode>) -> SyntaxNode {
    SyntaxNode {
        kind: "program".to_string(),
        named: true,
        field: None,
        start_row: 0,
        end_row: 9,
        text: None,
        children,
    }
}

#[test]
fn class_members_extracted_with_class_name() {
    let root = program(vec![class_with(vec![method(Some("f"), "{ return 1; }", 3)], "A")]);
    let (ds, ws) = extract(&root);
    assert!(ws.is_empty());
    assert_eq!(ds.len(), 1);
    let d = &ds[0];
    assert_eq!(d.name, "f");
    assert_eq!(d.kind, DeclKind::Method);
    assert_eq!(d.enclosing_class.as_deref(), Some("A"));
    assert_eq!(d.body_start_line, 3);
    assert_eq!(d.body_end_line, 3);
    assert_eq!(d.body_text, "{ return 1; }");
    assert_eq!(d.params_text, "($a)");
    assert_eq!(d.return_type_text, "");
}

#[test]
fn unreadable_name_yields_warning_and_skip() {
    let root = program(vec![class_with(
        vec![method(None, "{ return 1; }", 5), method(Some("g"), "{ return 2; }", 6)],
        "A",
    )]);
    let (ds, ws) = extract(&root);
    assert_eq!(ws, vec![Warning::InvalidName { row: 5 }]);
    assert_eq!(ds.len(), 1);
    assert_eq!(ds[0].name, "g");
}

#[test]
fn unreadable_body_yields_warning_and_skip() {
    let mut broken = method(Some("h"), "{ }", 7);
    broken.children[2].text = None;
    let root = program(vec![class_with(vec![broken], "A")]);
    let (ds, ws) = extract(&root);
    assert_eq!(ws, vec![Warning::InvalidBody { row: 7 }]);
    assert!(ds.is_empty());
}

#[test]
fn member_without_body_yields_nothing() {
    // an abstract method: no body child at all, no declaration, no warning
    let abstract_method = SyntaxNode {
        kind: "method_declaration".to_string(),
        named: true,
        field: None,
        start_row: 2,
        end_row: 2,
        text: None,
        children: vec![leaf("name", Some("name"), Some("a"), 2)],
    };
    let root = program(vec![class_with(vec![abstract_method], "A")]);
    let (ds, ws) = extract(&root);
    assert!(ds.is_empty());
    assert!(ws.is_empty());
}

#[test]
fn engine_reports_absolute_lines_from_body_rows() {
    let q = Query::new("needle".to_string()).unwrap();
    let d = Declaration {
        name: "f".to_string(),
        kind: DeclKind::Method,
        enclosing_class: None,
        body_start_line: 10,
        body_end_line: 11,
        body_text: "{ a\n  needle(); }".to_string(),
        params_text: "()".to_string(),
        return_type_text: "".to_string(),
    };
    let ms = basic_decls_search(&vec![d], &q, "x.php", false);
    assert_eq!(ms.len(), 1);
    assert_eq!(ms[0].line, 12);
    assert_eq!(ms[0].text, "\u{1b}[1;31mneedle\u{1b}[0m(); }");
}

#[test]
fn name_search_requires_substring_of_name() {
    let q = Query::new("eed".to_string()).unwrap();
    let hit = Declaration {
        name: "needleMaker".to_string(),
        kind: DeclKind::NestedFunction,
        enclosing_class: None,
        body_start_line: 4,
        body_end_line: 4,
        body_text: "{ }".to_string(),
        params_text: "()".to_string(),
        return_type_text: ": int".to_string(),
    };
    let miss = Declaration {
        name: "other".to_string(),
        kind: DeclKind::NestedFunction,
        enclosing_class: None,
        body_start_line: 8,
        body_end_line: 8,
        body_text: "{ }".to_string(),
        params_text: "()".to_string(),
        return_type_text: "".to_string(),
    };
    let ms = name_decls_search(&vec![hit, miss], &q, "x.php");
    assert_eq!(ms.len(), 1);
    assert_eq!(ms[0].decl_name.as_deref(), Some("needleMaker"));
    assert_eq!(ms[0].line, 5);
    assert_eq!(ms[0].params_text, "()");
    assert_eq!(ms[0].return_type_text, ": int");
}
