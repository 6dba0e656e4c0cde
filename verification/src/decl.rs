//! Declaration extraction: turning a parsed tree into the ordered sequence
//! of function and method declarations the match engine works on.
//!
//! Extraction makes two passes, in this order:
//! 1. the direct members of every top-level class (non-recursive), and
//! 2. a full preorder descent collecting every `function_definition` node
//!    at any depth.
//! A function definition nested inside a method found by the first pass is
//! therefore reported on its own as well as being part of the enclosing
//! body's text; that duplication is deliberate and kept.

use vstd::prelude::*;
use crate::text::count_char;
use crate::text::opt_text;
use crate::tree::NodeModel;
use crate::tree::SyntaxNode;
use crate::tree::child_by_field;
use crate::tree::find_child_by_field;
use crate::tree::models_of;
use crate::tree::node_model;
use crate::tree::lemma_models_of;

verus! {

/// How a declaration was found.
#[derive(Clone, Copy, Debug, PartialEq, Eq, Structural)]
pub enum DeclKind {
    /// A `function_declaration` member of a class body.
    TopLevelFunction,
    /// A `method_declaration` member of a class body.
    Method,
    /// A `function_definition` found by the full recursive pass.
    NestedFunction,
}

/// A named function or method construct with a body.
#[derive(Clone, Debug)]
pub struct Declaration {
    pub name: String,
    pub kind: DeclKind,
    /// Name of the enclosing class, for class members whose class has a
    /// readable name.
    pub enclosing_class: Option<String>,
    /// First row (0-based, absolute in the file) of the body node.
    pub body_start_line: usize,
    /// Last row (0-based, absolute in the file) of the body node.
    pub body_end_line: usize,
    /// Exact source slice of the body node.
    pub body_text: String,
    /// Source of the parameter list, or empty when absent.
    pub params_text: String,
    /// Source of the return type, or empty when absent.
    pub return_type_text: String,
}

/// Mathematical view of a [`Declaration`].
pub struct DeclModel {
    pub name: Seq<char>,
    pub kind: DeclKind,
    pub enclosing_class: Option<Seq<char>>,
    pub body_start_line: int,
    pub body_end_line: int,
    pub body_text: Seq<char>,
    pub params_text: Seq<char>,
    pub return_type_text: Seq<char>,
}

/// A recoverable oddity met while extracting; reported, never fatal.
#[derive(Clone, Copy, Debug, PartialEq, Eq, Structural)]
pub enum Warning {
    /// The parser produced no tree for the file.
    ParseFailed,
    /// A declaration's name was not readable text; the node was skipped.
    InvalidName { row: usize },
    /// A declaration's body was not readable text; the node was skipped.
    InvalidBody { row: usize },
}

pub open spec fn decl_model(d: Declaration) -> DeclModel {
    DeclModel {
        name: d.name@,
        kind: d.kind,
        enclosing_class: match d.enclosing_class {
            Some(c) => Some(c@),
            None => None,
        },
        body_start_line: d.body_start_line as int,
        body_end_line: d.body_end_line as int,
        body_text: d.body_text@,
        params_text: d.params_text@,
        return_type_text: d.return_type_text@,
    }
}

pub open spec fn decl_views(s: Seq<Declaration>) -> Seq<DeclModel> {
    s.map_values(|d: Declaration| decl_model(d))
}

/// A declaration's lines are consistent with its row span.
pub open spec fn wf_decl(d: DeclModel) -> bool {
    &&& 0 <= d.body_start_line <= d.body_end_line
    &&& d.body_end_line + 2 <= usize::MAX
    &&& count_char(d.body_text, '\n') == d.body_end_line - d.body_start_line
}

// ---------------------------------------------------------------------
// Pass 1: direct class members
// ---------------------------------------------------------------------

pub open spec fn is_member_kind(k: Seq<char>) -> bool {
    k == "method_declaration"@ || k == "function_declaration"@
}

pub open spec fn member_kind(k: Seq<char>) -> DeclKind {
    if k == "method_declaration"@ {
        DeclKind::Method
    } else {
        DeclKind::TopLevelFunction
    }
}

/// Text of the first child under field `f`, or empty when there is no such
/// child or its text is unreadable.
pub open spec fn field_text_or_empty(m: NodeModel, f: Seq<char>) -> Seq<char> {
    match child_by_field(m, f) {
        Some(c) => match c.text {
            Some(t) => t,
            None => Seq::empty(),
        },
        None => Seq::empty(),
    }
}

/// Name of a class, read from its `name` field.
pub open spec fn class_name_of(c: NodeModel) -> Option<Seq<char>> {
    match child_by_field(c, "name"@) {
        Some(n) => n.text,
        None => None,
    }
}

/// The declaration a single class member yields, if any.
pub open spec fn member_decl(m: NodeModel, cls: Option<Seq<char>>) -> Seq<DeclModel> {
    if m.named && is_member_kind(m.kind) {
        match (child_by_field(m, "name"@), child_by_field(m, "body"@)) {
            (Some(nm), Some(bd)) => match (nm.text, bd.text) {
                (Some(nt), Some(bt)) => seq![
                    DeclModel {
                        name: nt,
                        kind: member_kind(m.kind),
                        enclosing_class: cls,
                        body_start_line: bd.start_row,
                        body_end_line: bd.end_row,
                        body_text: bt,
                        params_text: field_text_or_empty(m, "parameters"@),
                        return_type_text: field_text_or_empty(m, "return_type"@),
                    },
                ],
                _ => Seq::empty(),
            },
            _ => Seq::empty(),
        }
    } else {
        Seq::empty()
    }
}

/// The warning a single class member yields, if any.
pub open spec fn member_warning(m: NodeModel) -> Seq<Warning> {
    if m.named && is_member_kind(m.kind) {
        match (child_by_field(m, "name"@), child_by_field(m, "body"@)) {
            (Some(nm), Some(bd)) => if nm.text is None {
                seq![Warning::InvalidName { row: m.start_row as usize }]
            } else if bd.text is None {
                seq![Warning::InvalidBody { row: m.start_row as usize }]
            } else {
                Seq::empty()
            },
            _ => Seq::empty(),
        }
    } else {
        Seq::empty()
    }
}

pub open spec fn members_decls(ms: Seq<NodeModel>, cls: Option<Seq<char>>) -> Seq<DeclModel>
    decreases ms,
{
    if ms.len() == 0 {
        Seq::empty()
    } else {
        member_decl(ms[0], cls) + members_decls(ms.drop_first(), cls)
    }
}

pub open spec fn members_warnings(ms: Seq<NodeModel>) -> Seq<Warning>
    decreases ms,
{
    if ms.len() == 0 {
        Seq::empty()
    } else {
        member_warning(ms[0]) + members_warnings(ms.drop_first())
    }
}

/// Declarations contributed by one top-level node: the members of its body
/// when it is a class declaration, nothing otherwise.
pub open spec fn class_decls_of(c: NodeModel) -> Seq<DeclModel> {
    if c.kind == "class_declaration"@ {
        match child_by_field(c, "body"@) {
            Some(b) => members_decls(b.children, class_name_of(c)),
            None => Seq::empty(),
        }
    } else {
        Seq::empty()
    }
}

pub open spec fn class_warnings_of(c: NodeModel) -> Seq<Warning> {
    if c.kind == "class_declaration"@ {
        match child_by_field(c, "body"@) {
            Some(b) => members_warnings(b.children),
            None => Seq::empty(),
        }
    } else {
        Seq::empty()
    }
}

pub open spec fn classes_decls(s: Seq<NodeModel>) -> Seq<DeclModel>
    decreases s,
{
    if s.len() == 0 {
        Seq::empty()
    } else {
        class_decls_of(s[0]) + classes_decls(s.drop_first())
    }
}

pub open spec fn classes_warnings(s: Seq<NodeModel>) -> Seq<Warning>
    decreases s,
{
    if s.len() == 0 {
        Seq::empty()
    } else {
        class_warnings_of(s[0]) + classes_warnings(s.drop_first())
    }
}

// ---------------------------------------------------------------------
// Pass 2: full recursive descent over function definitions
// ---------------------------------------------------------------------

/// The declaration node `m` itself yields in the recursive pass, if any.
pub open spec fn own_nested_decl(m: NodeModel) -> Seq<DeclModel> {
    if m.kind == "function_definition"@ {
        match child_by_field(m, "name"@) {
            Some(nm) => match nm.text {
                Some(nt) => match child_by_field(m, "body"@) {
                    Some(bd) => match bd.text {
                        Some(bt) => seq![
                            DeclModel {
                                name: nt,
                                kind: DeclKind::NestedFunction,
                                enclosing_class: None,
                                body_start_line: bd.start_row,
                                body_end_line: bd.end_row,
                                body_text: bt,
                                params_text: field_text_or_empty(m, "parameters"@),
                                return_type_text: field_text_or_empty(m, "return_type"@),
                            },
                        ],
                        None => Seq::empty(),
                    },
                    None => Seq::empty(),
                },
                None => Seq::empty(),
            },
            None => Seq::empty(),
        }
    } else {
        Seq::empty()
    }
}

pub open spec fn own_nested_warning(m: NodeModel) -> Seq<Warning> {
    if m.kind == "function_definition"@ {
        match child_by_field(m, "name"@) {
            Some(nm) => if nm.text is None {
                seq![Warning::InvalidName { row: m.start_row as usize }]
            } else {
                match child_by_field(m, "body"@) {
                    Some(bd) => if bd.text is None {
                        seq![Warning::InvalidBody { row: m.start_row as usize }]
                    } else {
                        Seq::empty()
                    },
                    None => Seq::empty(),
                }
            },
            None => Seq::empty(),
        }
    } else {
        Seq::empty()
    }
}

/// All nested-function declarations in the subtree rooted at `m`, preorder.
pub open spec fn nested_decls(m: NodeModel) -> Seq<DeclModel>
    decreases m,
{
    own_nested_decl(m) + nested_decls_seq(m.children)
}

pub open spec fn nested_decls_seq(s: Seq<NodeModel>) -> Seq<DeclModel>
    decreases s,
{
    if s.len() == 0 {
        Seq::empty()
    } else {
        nested_decls(s[0]) + nested_decls_seq(s.drop_first())
    }
}

pub open spec fn nested_warnings(m: NodeModel) -> Seq<Warning>
    decreases m,
{
    own_nested_warning(m) + nested_warnings_seq(m.children)
}

pub open spec fn nested_warnings_seq(s: Seq<NodeModel>) -> Seq<Warning>
    decreases s,
{
    if s.len() == 0 {
        Seq::empty()
    } else {
        nested_warnings(s[0]) + nested_warnings_seq(s.drop_first())
    }
}

// ---------------------------------------------------------------------
// The whole extraction
// ---------------------------------------------------------------------

/// Every declaration the tree yields: class members first, then the full
/// recursive pass, each in preorder.
pub open spec fn extract_model(root: NodeModel) -> Seq<DeclModel> {
    classes_decls(root.children) + nested_decls(root)
}

pub open spec fn extract_warnings(root: NodeModel) -> Seq<Warning> {
    classes_warnings(root.children) + nested_warnings(root)
}

// ---------------------------------------------------------------------
// Executable extraction
// ---------------------------------------------------------------------

/// Text of the first child under field `f`, or empty.
fn field_text_or_default(m: &SyntaxNode, f: &str) -> (r: String)
    ensures
        r@ == field_text_or_empty(node_model(*m), f@),
{
    match find_child_by_field(m, f) {
        Some(c) => match &c.text {
            Some(t) => t.clone(),
            None => String::new(),
        },
        None => String::new(),
    }
}

/// Process one candidate class member, appending its declaration or
/// warning.
fn process_member(
    m: &SyntaxNode,
    cls: &Option<String>,
    out: &mut Vec<Declaration>,
    warns: &mut Vec<Warning>,
)
    ensures
        decl_views(final(out)@) == decl_views(old(out)@) + member_decl(
            node_model(*m),
            opt_text(*cls),
        ),
        final(warns)@ == old(warns)@ + member_warning(node_model(*m)),
{
    let ghost m0 = node_model(*m);
    let is_member = m.named && (crate::text::str_eq(m.kind.as_str(), "method_declaration")
        || crate::text::str_eq(m.kind.as_str(), "function_declaration"));
    if !is_member {
        proof {
            assert(out@ =~= old(out)@);
            assert(decl_views(out@) =~= decl_views(old(out)@) + member_decl(m0, opt_text(*cls)));
            assert(warns@ =~= old(warns)@ + member_warning(m0));
        }
        return ;
    }
    let name_node = find_child_by_field(m, "name");
    let body_node = find_child_by_field(m, "body");
    match (name_node, body_node) {
        (Some(nm), Some(bd)) => {
            match (&nm.text, &bd.text) {
                (Some(nt), Some(bt)) => {
                    let kind = if crate::text::str_eq(m.kind.as_str(), "method_declaration") {
                        DeclKind::Method
                    } else {
                        DeclKind::TopLevelFunction
                    };
                    let d = Declaration {
                        name: nt.clone(),
                        kind,
                        enclosing_class: match cls {
                            Some(c) => Some(c.clone()),
                            None => None,
                        },
                        body_start_line: bd.start_row,
                        body_end_line: bd.end_row,
                        body_text: bt.clone(),
                        params_text: field_text_or_default(m, "parameters"),
                        return_type_text: field_text_or_default(m, "return_type"),
                    };
                    let ghost prev = decl_views(out@);
                    out.push(d);
                    proof {
                        assert(decl_views(out@) =~= prev + member_decl(m0, opt_text(*cls)));
                        assert(warns@ =~= old(warns)@ + member_warning(m0));
                    }
                },
                (None, _) => {
                    warns.push(Warning::InvalidName { row: m.start_row });
                    proof {
                        assert(warns@ =~= old(warns)@ + member_warning(m0));
                        assert(decl_views(out@) =~= decl_views(old(out)@) + member_decl(
                            m0,
                            opt_text(*cls),
                        ));
                    }
                },
                (Some(_), None) => {
                    warns.push(Warning::InvalidBody { row: m.start_row });
                    proof {
                        assert(warns@ =~= old(warns)@ + member_warning(m0));
                        assert(decl_views(out@) =~= decl_views(old(out)@) + member_decl(
                            m0,
                            opt_text(*cls),
                        ));
                    }
                },
            }
        },
        _ => {
            proof {
                assert(decl_views(out@) =~= decl_views(old(out)@) + member_decl(
                    m0,
                    opt_text(*cls),
                ));
                assert(warns@ =~= old(warns)@ + member_warning(m0));
            }
        },
    }
}

/// Process one top-level node of the tree: when it is a class declaration,
/// walk the direct members of its body.
fn process_class(c: &SyntaxNode, out: &mut Vec<Declaration>, warns: &mut Vec<Warning>)
    ensures
        decl_views(final(out)@) == decl_views(old(out)@) + class_decls_of(node_model(*c)),
        final(warns)@ == old(warns)@ + class_warnings_of(node_model(*c)),
{
    let ghost c0 = node_model(*c);
    if !crate::text::str_eq(c.kind.as_str(), "class_declaration") {
        proof {
            assert(decl_views(out@) =~= decl_views(old(out)@) + class_decls_of(c0));
            assert(warns@ =~= old(warns)@ + class_warnings_of(c0));
        }
        return ;
    }
    let body = match find_child_by_field(c, "body") {
        Some(b) => b,
        None => {
            proof {
                assert(decl_views(out@) =~= decl_views(old(out)@) + class_decls_of(c0));
                assert(warns@ =~= old(warns)@ + class_warnings_of(c0));
            }
            return ;
        },
    };
    let cls: Option<String> = match find_child_by_field(c, "name") {
        Some(n) => match &n.text {
            Some(t) => Some(t.clone()),
            None => None,
        },
        None => None,
    };
    proof {
        assert(opt_text(cls) == class_name_of(c0));
        lemma_models_of(body.children@);
        assert(models_of(body.children@).skip(0) =~= models_of(body.children@));
    }
    let ghost b0 = node_model(*body);
    let ghost base_d = decl_views(out@);
    let ghost base_w = warns@;
    let len = body.children.len();
    let mut i: usize = 0;
    while i < len
        invariant
            len == body.children@.len(),
            0 <= i <= len,
            b0 == node_model(*body),
            b0.children == models_of(body.children@),
            models_of(body.children@).len() == len,
            forall|j: int| 0 <= j < len ==> models_of(body.children@)[j] == node_model(
                body.children@[j],
            ),
            decl_views(out@) + members_decls(b0.children.skip(i as int), opt_text(cls)) =~= base_d
                + members_decls(b0.children, opt_text(cls)),
            warns@ + members_warnings(b0.children.skip(i as int)) =~= base_w + members_warnings(
                b0.children,
            ),
        decreases len - i,
    {
        let m = &body.children[i];
        process_member(m, &cls, out, warns);
        proof {
            let ms = b0.children;
            assert(ms.skip(i as int)[0] == ms[i as int]);
            assert(ms.skip(i as int).drop_first() =~= ms.skip(i + 1));
        }
        i = i + 1;
    }
    proof {
        assert(b0.children.skip(len as int) =~= Seq::empty());
        assert(decl_views(out@) =~= base_d + members_decls(b0.children, opt_text(cls)));
        assert(warns@ =~= base_w + members_warnings(b0.children));
        assert(class_decls_of(c0) == members_decls(b0.children, class_name_of(c0)));
    }
}

/// The full recursive pass: append every nested-function declaration in
/// the subtree rooted at `n`, preorder.
fn nested_pass(n: &SyntaxNode, out: &mut Vec<Declaration>, warns: &mut Vec<Warning>)
    ensures
        decl_views(final(out)@) == decl_views(old(out)@) + nested_decls(node_model(*n)),
        final(warns)@ == old(warns)@ + nested_warnings(node_model(*n)),
    decreases *n,
{
    let ghost n0 = node_model(*n);
    if crate::text::str_eq(n.kind.as_str(), "function_definition") {
        match find_child_by_field(n, "name") {
            Some(nm) => {
                match &nm.text {
                    None => {
                        warns.push(Warning::InvalidName { row: n.start_row });
                        proof {
                            assert(warns@ =~= old(warns)@ + own_nested_warning(n0));
                        }
                    },
                    Some(nt) => {
                        match find_child_by_field(n, "body") {
                            Some(bd) => {
                                match &bd.text {
                                    None => {
                                        warns.push(Warning::InvalidBody { row: n.start_row });
                                        proof {
                                            assert(warns@ =~= old(warns)@ + own_nested_warning(
                                                n0,
                                            ));
                                        }
                                    },
                                    Some(bt) => {
                                        let d = Declaration {
                                            name: nt.clone(),
                                            kind: DeclKind::NestedFunction,
                                            enclosing_class: None,
                                            body_start_line: bd.start_row,
                                            body_end_line: bd.end_row,
                                            body_text: bt.clone(),
                                            params_text: field_text_or_default(n, "parameters"),
                                            return_type_text: field_text_or_default(
                                                n,
                                                "return_type",
                                            ),
                                        };
                                        let ghost prev = decl_views(out@);
                                        out.push(d);
                                        proof {
                                            assert(decl_views(out@) =~= prev + own_nested_decl(
                                                n0,
                                            ));
                                        }
                                    },
                                }
                            },
                            None => {},
                        }
                    },
                }
            },
            None => {},
        }
    }
    proof {
        assert(decl_views(out@) =~= decl_views(old(out)@) + own_nested_decl(n0));
        assert(warns@ =~= old(warns)@ + own_nested_warning(n0));
        lemma_models_of(n.children@);
        assert(models_of(n.children@).skip(0) =~= models_of(n.children@));
    }
    let ghost base_d = decl_views(out@);
    let ghost base_w = warns@;
    let len = n.children.len();
    let mut i: usize = 0;
    while i < len
        invariant
            len == n.children@.len(),
            n0 == node_model(*n),
            n0.children == models_of(n.children@),
            0 <= i <= len,
            models_of(n.children@).len() == len,
            forall|j: int| 0 <= j < len ==> models_of(n.children@)[j] == node_model(
                n.children@[j],
            ),
            decl_views(out@) + nested_decls_seq(n0.children.skip(i as int)) =~= base_d
                + nested_decls_seq(n0.children),
            warns@ + nested_warnings_seq(n0.children.skip(i as int)) =~= base_w
                + nested_warnings_seq(n0.children),
        decreases len - i,
    {
        let c = &n.children[i];
        proof {
            assert(decreases_to!(*n => *c));
        }
        nested_pass(c, out, warns);
        proof {
            let ms = n0.children;
            assert(ms.skip(i as int)[0] == ms[i as int]);
            assert(ms.skip(i as int).drop_first() =~= ms.skip(i + 1));
        }
        i = i + 1;
    }
    proof {
        assert(n0.children.skip(len as int) =~= Seq::empty());
        assert(decl_views(out@) =~= base_d + nested_decls_seq(n0.children));
        assert(warns@ =~= base_w + nested_warnings_seq(n0.children));
    }
}

/// Extract every declaration of the tree, with the warnings met on the
/// way, exactly as [`extract_model`] and [`extract_warnings`] describe.
pub fn extract(root: &SyntaxNode) -> (r: (Vec<Declaration>, Vec<Warning>))
    ensures
        decl_views(r.0@) == extract_model(node_model(*root)),
        r.1@ == extract_warnings(node_model(*root)),
{
    let mut out: Vec<Declaration> = Vec::new();
    let mut warns: Vec<Warning> = Vec::new();
    let ghost r0 = node_model(*root);
    proof {
        lemma_models_of(root.children@);
        assert(models_of(root.children@).skip(0) =~= models_of(root.children@));
        assert(decl_views(out@) =~= Seq::<DeclModel>::empty());
    }
    let len = root.children.len();
    let mut i: usize = 0;
    while i < len
        invariant
            len == root.children@.len(),
            r0 == node_model(*root),
            r0.children == models_of(root.children@),
            0 <= i <= len,
            models_of(root.children@).len() == len,
            forall|j: int| 0 <= j < len ==> models_of(root.children@)[j] == node_model(
                root.children@[j],
            ),
            decl_views(out@) + classes_decls(r0.children.skip(i as int)) =~= classes_decls(
                r0.children,
            ),
            warns@ + classes_warnings(r0.children.skip(i as int)) =~= classes_warnings(
                r0.children,
            ),
        decreases len - i,
    {
        let c = &root.children[i];
        process_class(c, &mut out, &mut warns);
        proof {
            let ms = r0.children;
            assert(ms.skip(i as int)[0] == ms[i as int]);
            assert(ms.skip(i as int).drop_first() =~= ms.skip(i + 1));
        }
        i = i + 1;
    }
    proof {
        assert(r0.children.skip(len as int) =~= Seq::empty());
        assert(decl_views(out@) =~= classes_decls(r0.children));
        assert(warns@ =~= classes_warnings(r0.children));
    }
    nested_pass(root, &mut out, &mut warns);
    proof {
        assert(decl_views(out@) =~= extract_model(r0));
        assert(warns@ =~= extract_warnings(r0));
    }
    (out, warns)
}

// ---------------------------------------------------------------------
// Well-formedness of what extraction yields
// ---------------------------------------------------------------------

pub proof fn lemma_first_with_field_wf(s: Seq<NodeModel>, f: Seq<char>)
    requires
        crate::tree::wf_children(s),
    ensures
        crate::tree::first_with_field(s, f) matches Some(c) ==> crate::tree::wf_model(c),
    decreases s,
{
    if s.len() != 0 {
        if !(s[0].field matches Some(g) && g == f) {
            lemma_first_with_field_wf(s.drop_first(), f);
        }
    }
}

pub proof fn lemma_member_decl_wf(m: NodeModel, cls: Option<Seq<char>>)
    requires
        crate::tree::wf_model(m),
    ensures
        forall|k: int|
            0 <= k < member_decl(m, cls).len() ==> wf_decl(#[trigger] member_decl(m, cls)[k]),
{
    lemma_first_with_field_wf(m.children, "body"@);
}

pub proof fn lemma_members_decls_wf(ms: Seq<NodeModel>, cls: Option<Seq<char>>)
    requires
        crate::tree::wf_children(ms),
    ensures
        forall|k: int|
            0 <= k < members_decls(ms, cls).len() ==> wf_decl(
                #[trigger] members_decls(ms, cls)[k],
            ),
    decreases ms,
{
    if ms.len() != 0 {
        lemma_member_decl_wf(ms[0], cls);
        lemma_members_decls_wf(ms.drop_first(), cls);
        let a = member_decl(ms[0], cls);
        let b = members_decls(ms.drop_first(), cls);
        assert forall|k: int| 0 <= k < members_decls(ms, cls).len() implies wf_decl(
            members_decls(ms, cls)[k],
        ) by {
            if k < a.len() {
                assert(members_decls(ms, cls)[k] == a[k]);
            } else {
                assert(members_decls(ms, cls)[k] == b[k - a.len()]);
            }
        }
    }
}

pub proof fn lemma_class_decls_wf(c: NodeModel)
    requires
        crate::tree::wf_model(c),
    ensures
        forall|k: int|
            0 <= k < class_decls_of(c).len() ==> wf_decl(#[trigger] class_decls_of(c)[k]),
{
    if c.kind == "class_declaration"@ {
        lemma_first_with_field_wf(c.children, "body"@);
        match child_by_field(c, "body"@) {
            Some(b) => {
                lemma_members_decls_wf(b.children, class_name_of(c));
            },
            None => {},
        }
    }
}

pub proof fn lemma_classes_decls_wf(s: Seq<NodeModel>)
    requires
        crate::tree::wf_children(s),
    ensures
        forall|k: int|
            0 <= k < classes_decls(s).len() ==> wf_decl(#[trigger] classes_decls(s)[k]),
    decreases s,
{
    if s.len() != 0 {
        lemma_class_decls_wf(s[0]);
        lemma_classes_decls_wf(s.drop_first());
        let a = class_decls_of(s[0]);
        let b = classes_decls(s.drop_first());
        assert forall|k: int| 0 <= k < classes_decls(s).len() implies wf_decl(
            classes_decls(s)[k],
        ) by {
            if k < a.len() {
                assert(classes_decls(s)[k] == a[k]);
            } else {
                assert(classes_decls(s)[k] == b[k - a.len()]);
            }
        }
    }
}

pub proof fn lemma_own_nested_decl_wf(m: NodeModel)
    requires
        crate::tree::wf_model(m),
    ensures
        forall|k: int|
            0 <= k < own_nested_decl(m).len() ==> wf_decl(#[trigger] own_nested_decl(m)[k]),
{
    lemma_first_with_field_wf(m.children, "body"@);
}

pub proof fn lemma_nested_decls_wf(m: NodeModel)
    requires
        crate::tree::wf_model(m),
    ensures
        forall|k: int|
            0 <= k < nested_decls(m).len() ==> wf_decl(#[trigger] nested_decls(m)[k]),
    decreases m,
{
    lemma_own_nested_decl_wf(m);
    lemma_nested_decls_seq_wf(m.children);
    let a = own_nested_decl(m);
    let b = nested_decls_seq(m.children);
    assert forall|k: int| 0 <= k < nested_decls(m).len() implies wf_decl(nested_decls(m)[k]) by {
        if k < a.len() {
            assert(nested_decls(m)[k] == a[k]);
        } else {
            assert(nested_decls(m)[k] == b[k - a.len()]);
        }
    }
}

pub proof fn lemma_nested_decls_seq_wf(s: Seq<NodeModel>)
    requires
        crate::tree::wf_children(s),
    ensures
        forall|k: int|
            0 <= k < nested_decls_seq(s).len() ==> wf_decl(#[trigger] nested_decls_seq(s)[k]),
    decreases s,
{
    if s.len() != 0 {
        lemma_nested_decls_wf(s[0]);
        lemma_nested_decls_seq_wf(s.drop_first());
        let a = nested_decls(s[0]);
        let b = nested_decls_seq(s.drop_first());
        assert forall|k: int| 0 <= k < nested_decls_seq(s).len() implies wf_decl(
            nested_decls_seq(s)[k],
        ) by {
            if k < a.len() {
                assert(nested_decls_seq(s)[k] == a[k]);
            } else {
                assert(nested_decls_seq(s)[k] == b[k - a.len()]);
            }
        }
    }
}

/// Every declaration extracted from a well-formed tree is well formed.
pub proof fn lemma_extract_wf(root: NodeModel)
    requires
        crate::tree::wf_model(root),
    ensures
        forall|k: int|
            0 <= k < extract_model(root).len() ==> wf_decl(#[trigger] extract_model(root)[k]),
{
    lemma_classes_decls_wf(root.children);
    lemma_nested_decls_wf(root);
    let a = classes_decls(root.children);
    let b = nested_decls(root);
    assert forall|k: int| 0 <= k < extract_model(root).len() implies wf_decl(
        extract_model(root)[k],
    ) by {
        if k < a.len() {
            assert(extract_model(root)[k] == a[k]);
        } else {
            assert(extract_model(root)[k] == b[k - a.len()]);
        }
    }
}

} // verus!
