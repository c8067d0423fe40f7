use vstd::prelude::*;

use crate::error::{custom_error, Error, ErrorKind};

verus! {

/// Syntax-rule kinds: the grammar's vocabulary.
#[derive(PartialEq, Eq, Structural, Clone, Copy, Debug)]
pub enum Rule {
    /// Whole document: header plus section bodies.
    Root,
    /// The configuration block that opens the document.
    Header,
    /// One `key: value` entry of the header.
    HeaderLine,
    HeaderKey,
    HeaderValue,
    /// A section's human-readable name.
    Label,
    /// The single token inside a label.
    Word,
    /// One numbered premise: number, formula, optional justification.
    Arg,
    /// The numeric token of a premise.
    Number,
    /// Wraps the formula a section concludes with.
    Conclusion,
    /// A grouping node: its children are emitted in order.
    Formula,
    /// A quantifier symbol: `@` (universal) or `&` (existential).
    Existencial,
    /// Unary negation of one sub-formula.
    Neg,
    /// A binary connective symbol: `->`, `^`, `V` or `v`.
    Bioperator,
    /// A parenthesized formula.
    Subexpr,
    /// Predicate application: name plus argument list.
    Func,
    /// The argument list of a predicate application.
    ArgList,
    /// An atomic symbol or term.
    Operand,
    /// Opaque literal text passed through untranslated.
    LineExt,
}

/// One node of the parse tree: a syntax-rule kind, the matched source
/// text, its span in the input (for error reporting), and the ordered
/// child nodes.
#[derive(Debug)]
pub struct Node {
    pub kind: Rule,
    pub text: Vec<char>,
    pub start: usize,
    pub end: usize,
    pub children: Vec<Node>,
}

/// Mathematical model of a parse-tree node.
pub ghost struct NodeV {
    pub kind: Rule,
    pub text: Seq<char>,
    pub start: int,
    pub end: int,
    pub children: Seq<NodeV>,
}

/// The model of an executable node: the same shape over `Seq` and `int`.
pub open spec fn node_view(n: Node) -> NodeV
    decreases n,
{
    NodeV {
        kind: n.kind,
        text: n.text@,
        start: n.start as int,
        end: n.end as int,
        children: Seq::new(
            n.children@.len(),
            |i: int|
                if 0 <= i < n.children@.len() {
                    node_view(n.children@[i])
                } else {
                    arbitrary()
                },
        ),
    }
}

impl View for Node {
    type V = NodeV;

    open spec fn view(&self) -> NodeV {
        node_view(*self)
    }
}

/// How a node's model relates to its fields, child by child.
pub proof fn lemma_node_view(n: Node)
    ensures
        n@.kind == n.kind,
        n@.text == n.text@,
        n@.start == n.start as int,
        n@.end == n.end as int,
        n@.children.len() == n.children@.len(),
        forall|i: int| 0 <= i < n.children@.len() ==> n@.children[i] == #[trigger] n.children@[i]@,
{
}

/// Require `n` to have exactly `k` children; too few is an arity
/// error, excess is refused defensively. On success callers index
/// `n.children` directly.
pub fn extract_exact(n: &Node, k: usize) -> (r: Result<(), Error>)
    ensures
        r is Ok <==> n@.children.len() == k,
        n@.children.len() < k ==> r == Err::<(), Error>(
            Error {
                kind: ErrorKind::Arity { rule: n.kind, expected: k, got: n.children.len() },
                start: n.start,
                end: n.end,
            },
        ),
        n@.children.len() > k ==> r == Err::<(), Error>(
            Error {
                kind: ErrorKind::ExcessArity { rule: n.kind, expected: k, got: n.children.len() },
                start: n.start,
                end: n.end,
            },
        ),
{
    if n.children.len() < k {
        Err(custom_error(
            ErrorKind::Arity { rule: n.kind, expected: k, got: n.children.len() },
            n.start,
            n.end,
        ))
    } else if n.children.len() > k {
        Err(custom_error(
            ErrorKind::ExcessArity { rule: n.kind, expected: k, got: n.children.len() },
            n.start,
            n.end,
        ))
    } else {
        Ok(())
    }
}

/// Require `n` to have at least `k` children; children beyond `k` are
/// meaningful excess the caller inspects itself.
pub fn extract_at_least(n: &Node, k: usize) -> (r: Result<(), Error>)
    ensures
        r is Ok <==> n@.children.len() >= k,
        r is Err ==> r == Err::<(), Error>(
            Error {
                kind: ErrorKind::Arity { rule: n.kind, expected: k, got: n.children.len() },
                start: n.start,
                end: n.end,
            },
        ),
{
    if n.children.len() < k {
        Err(custom_error(
            ErrorKind::Arity { rule: n.kind, expected: k, got: n.children.len() },
            n.start,
            n.end,
        ))
    } else {
        Ok(())
    }
}

} // verus!
