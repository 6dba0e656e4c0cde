//! The concrete syntax tree, modelled as a plain recursive value.
//!
//! The external parser's typed nodes are copied, one for one, into
//! [`SyntaxNode`] records holding exactly what the search logic reads: the
//! node kind, the field label under its parent, row positions, the source
//! text of the node, and the child list.  [`NodeModel`] is the mathematical
//! view of such a record, used by every contract.

use vstd::prelude::*;
use crate::text::count_char;

verus! {

/// One node of the concrete syntax tree, as the library sees it.
pub struct SyntaxNode {
    /// Grammar kind of the node, e.g. `"class_declaration"`.
    pub kind: String,
    /// Whether the parser marks the node as named (rather than anonymous
    /// punctuation).
    pub named: bool,
    /// The field label under which the parent holds this node, e.g.
    /// `"body"`, if any.
    pub field: Option<String>,
    /// First row (0-based) covered by the node.
    pub start_row: usize,
    /// Last row (0-based) covered by the node.
    pub end_row: usize,
    /// Source text of the node; `None` when the slice is not valid text.
    pub text: Option<String>,
    /// The node's children, in tree order.
    pub children: Vec<SyntaxNode>,
}

/// Mathematical view of a [`SyntaxNode`].
pub struct NodeModel {
    pub kind: Seq<char>,
    pub named: bool,
    pub field: Option<Seq<char>>,
    pub start_row: int,
    pub end_row: int,
    pub text: Option<Seq<char>>,
    pub children: Seq<NodeModel>,
}

/// The view of a node: every string replaced by its character sequence.
pub open spec fn node_model(n: SyntaxNode) -> NodeModel
    decreases n,
{
    NodeModel {
        kind: n.kind@,
        named: n.named,
        field: match n.field {
            Some(f) => Some(f@),
            None => None,
        },
        start_row: n.start_row as int,
        end_row: n.end_row as int,
        text: match n.text {
            Some(t) => Some(t@),
            None => None,
        },
        children: models_of(n.children@),
    }
}

/// The views of a sequence of nodes.
pub open spec fn models_of(s: Seq<SyntaxNode>) -> Seq<NodeModel>
    decreases s,
{
    if s.len() == 0 {
        Seq::empty()
    } else {
        seq![node_model(s[0])] + models_of(s.drop_first())
    }
}

/// `models_of` maps `node_model` over the sequence, index by index.
pub proof fn lemma_models_of(s: Seq<SyntaxNode>)
    ensures
        models_of(s).len() == s.len(),
        forall|i: int| 0 <= i < s.len() ==> models_of(s)[i] == node_model(s[i]),
    decreases s,
{
    if s.len() != 0 {
        lemma_models_of(s.drop_first());
        assert forall|i: int| 0 <= i < s.len() implies models_of(s)[i] == node_model(s[i]) by {
            if i > 0 {
                assert(s.drop_first()[i - 1] == s[i]);
                assert(models_of(s)[i] == models_of(s.drop_first())[i - 1]);
            }
        }
    }
}

/// Well-formedness of a tree as the parser reports it: rows are ordered,
/// far from the `usize` limit, and a node's text spans exactly the rows the
/// node covers (its newline count equals the row difference).
pub open spec fn wf_model(m: NodeModel) -> bool
    decreases m,
{
    &&& 0 <= m.start_row <= m.end_row
    &&& m.end_row + 2 <= usize::MAX
    &&& (m.text matches Some(t) ==> count_char(t, '\n') == m.end_row - m.start_row)
    &&& wf_children(m.children)
}

pub open spec fn wf_children(s: Seq<NodeModel>) -> bool
    decreases s,
{
    if s.len() == 0 {
        true
    } else {
        wf_model(s[0]) && wf_children(s.drop_first())
    }
}

/// The first child of `n` holding field label `f`, if any.
pub open spec fn child_by_field(m: NodeModel, f: Seq<char>) -> Option<NodeModel> {
    first_with_field(m.children, f)
}

pub open spec fn first_with_field(s: Seq<NodeModel>, f: Seq<char>) -> Option<NodeModel>
    decreases s,
{
    if s.len() == 0 {
        None
    } else if s[0].field matches Some(g) && g == f {
        Some(s[0])
    } else {
        first_with_field(s.drop_first(), f)
    }
}

// ---------------------------------------------------------------------
// Executable tree lookups
// ---------------------------------------------------------------------

/// First child of `n` carrying field label `f`.
pub fn find_child_by_field<'a>(n: &'a SyntaxNode, f: &str) -> (r: Option<&'a SyntaxNode>)
    ensures
        match r {
            Some(c) => child_by_field(node_model(*n), f@) == Some(node_model(*c)),
            None => child_by_field(node_model(*n), f@) is None,
        },
{
    proof {
        lemma_models_of(n.children@);
        assert(models_of(n.children@).skip(0) =~= models_of(n.children@));
    }
    let mut i: usize = 0;
    let len = n.children.len();
    loop
        invariant
            len == n.children@.len(),
            0 <= i <= len,
            models_of(n.children@).len() == len,
            forall|j: int| 0 <= j < len ==> models_of(n.children@)[j] == node_model(
                n.children@[j],
            ),
            first_with_field(models_of(n.children@).skip(i as int), f@) == first_with_field(
                models_of(n.children@),
                f@,
            ),
        decreases len - i,
    {
        if i == len {
            proof {
                assert(models_of(n.children@).skip(i as int) =~= Seq::empty());
            }
            return None;
        }
        let c = &n.children[i];
        let hit = match &c.field {
            Some(g) => crate::text::str_eq(g.as_str(), f),
            None => false,
        };
        proof {
            let ms = models_of(n.children@);
            assert(ms.skip(i as int)[0] == ms[i as int]);
            assert(ms.skip(i as int).drop_first() =~= ms.skip(i + 1));
        }
        if hit {
            return Some(c);
        }
        i = i + 1;
    }
}

// ---------------------------------------------------------------------
// The trusted boundary: producing a tree from source text
// ---------------------------------------------------------------------

#[verifier::external_type_specification]
#[verifier::external_body]
pub struct ExNode<'tree>(tree_sitter::Node<'tree>);

/// The tree that parsing a given source text yields, if any.  Parsing is a
/// deterministic function of the text alone, so its result is only named
/// here; nothing further is assumed about its shape.
pub uninterp spec fn php_parse(s: Seq<char>) -> Option<NodeModel>;

/// The view of an optional tree.
pub open spec fn opt_model(r: Option<SyntaxNode>) -> Option<NodeModel> {
    match r {
        Some(n) => Some(node_model(n)),
        None => None,
    }
}

/// Relies on `tree_sitter::Parser::{new, set_language, parse}` with the PHP
/// grammar of `tree_sitter_php`, and on `convert_node` below, to turn source
/// text into a plain tree.  A parser configured for PHP is set up for the
/// call, and the text is parsed whole, never incrementally, so the result
/// is deterministic in the text alone, which justifies naming it
/// `php_parse`.  Well-formedness holds because the parser reports ordered
/// row positions (rows count newlines, so they stay below the source's
/// byte length) and `utf8_text` returns exactly the bytes a node covers.
#[verifier::external_body]
pub(crate) fn parse_php(content: &str) -> (r: Option<SyntaxNode>)
    ensures
        opt_model(r) == php_parse(content@),
        r matches Some(n) ==> wf_model(node_model(n)),
{
    let mut parser = tree_sitter::Parser::new();
    if parser.set_language(&tree_sitter_php::LANGUAGE_PHP.into()).is_err() {
        return None;
    }
    let tree = parser.parse(content, None)?;
    Some(convert_node(tree.root_node(), content.as_bytes()))
}

/// Relies on `tree_sitter::Node::{kind, is_named, start_position,
/// end_position, utf8_text}` and cursor traversal
/// (`walk`, `goto_first_child`, `goto_next_sibling`, `field_name`, `node`):
/// each parser node is copied, one for one, into a [`SyntaxNode`].
#[verifier::external_body]
fn convert_node<'tree>(node: tree_sitter::Node<'tree>, src: &[u8]) -> (r: SyntaxNode) {
    SyntaxNode {
        kind: node.kind().to_string(),
        named: node.is_named(),
        field: None,
        start_row: node.start_position().row,
        end_row: node.end_position().row,
        text: node.utf8_text(src).ok().map(|t| t.to_string()),
        children: convert_children(node, src),
    }
}

/// Relies on `tree_sitter::TreeCursor` traversal (`walk`,
/// `goto_first_child`, `goto_next_sibling`, `field_name`, `node`): the
/// children of a parser node are copied in tree order, each labelled with
/// the field name its parent holds it under.
#[verifier::external_body]
fn convert_children<'tree>(node: tree_sitter::Node<'tree>, src: &[u8]) -> (r: Vec<SyntaxNode>) {
    let mut out: Vec<SyntaxNode> = Vec::new();
    let mut cursor = node.walk();
    if cursor.goto_first_child() {
        loop {
            let mut child = convert_node(cursor.node(), src);
            child.field = cursor.field_name().map(|f| f.to_string());
            out.push(child);
            if !cursor.goto_next_sibling() {
                break;
            }
        }
    }
    out
}

} // verus!
