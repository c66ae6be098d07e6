//! The immutable expression tree.
//!
//! A query fragment arrives as a tree of nodes.  Each node carries an
//! operator or literal kind, an ordered list of children, and a raw byte
//! payload whose meaning depends on the kind: an eight-byte big-endian
//! integer for integer literals and column references, a literal byte
//! string, an encoded sorted value list, or nothing.  Trees are immutable
//! during evaluation.

use vstd::prelude::*;

verus! {

/// The operator or literal kind of one expression node.
///
/// The set is closed for the evaluator, but producers may run ahead of
/// this node: a kind outside the supported set arrives as [`ExprType::Unknown`]
/// and evaluates to the null value (forward compatibility).
#[derive(Debug, Clone, Copy, PartialEq, Eq, Structural)]
pub enum ExprType {
    Null,
    Int64,
    Uint64,
    Float32,
    Float64,
    String,
    Bytes,
    ColumnRef,
    ValueList,
    LT,
    LE,
    EQ,
    NE,
    GE,
    GT,
    NullEQ,
    And,
    Or,
    Not,
    Like,
    In,
    /// A kind outside the supported set; it evaluates to the null value.
    Unknown,
}

/// The mathematical image of an expression node: the same shape with
/// children and payload abstracted to sequences.
pub struct ExprView {
    pub tp: ExprType,
    pub children: Seq<ExprView>,
    pub val: Seq<u8>,
}

/// One node of an expression tree: a kind, the ordered children, and the
/// raw payload interpreted per kind.
#[derive(Debug)]
pub struct Expr {
    pub tp: ExprType,
    pub children: Vec<Expr>,
    pub val: Vec<u8>,
}

impl Expr {
}

/// The images of a list of nodes, in order.
pub open spec fn exprs_view(cs: Seq<Expr>) -> Seq<ExprView>
    decreases cs, 0int,
    via exprs_view_decreases
{
    if cs.len() == 0 {
        Seq::empty()
    } else {
        seq![expr_view(cs[0])] + exprs_view(cs.subrange(1, cs.len() as int))
    }
}

#[via_fn]
proof fn exprs_view_decreases(cs: Seq<Expr>) {
    if cs.len() != 0 {
        assert(decreases_to!(cs => cs[0]));
        assert(decreases_to!(cs => cs.subrange(1, cs.len() as int)));
    }
}

/// The image of one node, children folded recursively.
pub open spec fn expr_view(e: Expr) -> ExprView
    decreases e, 1int,
    via expr_view_decreases
{
    ExprView { tp: e.tp, children: exprs_view(e.children@), val: e.val@ }
}

#[via_fn]
proof fn expr_view_decreases(e: Expr) {
    assert(decreases_to!(e => e.children));
    assert(decreases_to!(e.children => e.children@));
}

impl View for Expr {
    type V = ExprView;

    open spec fn view(&self) -> ExprView {
        expr_view(*self)
    }
}

/// Folding a list of nodes is folding each node: the images line up index
/// by index.
pub proof fn lemma_exprs_view(cs: Seq<Expr>)
    ensures
        exprs_view(cs).len() == cs.len(),
        forall|i: int| 0 <= i < cs.len() ==> exprs_view(cs)[i] == expr_view(cs[i]),
    decreases cs.len(),
{
    if cs.len() != 0 {
        lemma_exprs_view(cs.subrange(1, cs.len() as int));
    }
}

} // verus!
