//! CSG trees: cells described by nested set operations over shapes.
use vstd::prelude::*;

use crate::csg::{csg_eval, is_valid_rpn, mask_bit};
use crate::expr::{CsgExpr, expr_eval, lemma_rpn_valid_meaning, rpn};

verus! {

/// A CSG tree over shape ids.
#[derive(Debug, PartialEq, Eq)]
pub enum CSGNode {
    Union(Box<CSGNode>, Box<CSGNode>),
    Intersection(Box<CSGNode>, Box<CSGNode>),
    Difference(Box<CSGNode>, Box<CSGNode>),
    /// shape id
    Primitive(usize),
}

/// Whether a point lies in the region of a tree, given for every shape id
/// whether the point lies in that shape (false for ids without an entry).
pub open spec fn node_contains(node: CSGNode, inside: Seq<bool>) -> bool
    decreases node,
{
    match node {
        CSGNode::Union(l, r) => node_contains(*l, inside) || node_contains(*r, inside),
        CSGNode::Intersection(l, r) => node_contains(*l, inside) && node_contains(*r, inside),
        CSGNode::Difference(l, r) => node_contains(*l, inside) && !node_contains(*r, inside),
        CSGNode::Primitive(id) => 0 <= id < inside.len() && inside[id as int],
    }
}

/// Every shape id of the tree is below `shape_len`.
pub open spec fn node_indices_below(node: CSGNode, shape_len: int) -> bool
    decreases node,
{
    match node {
        CSGNode::Union(l, r) => node_indices_below(*l, shape_len) && node_indices_below(
            *r,
            shape_len,
        ),
        CSGNode::Intersection(l, r) => node_indices_below(*l, shape_len) && node_indices_below(
            *r,
            shape_len,
        ),
        CSGNode::Difference(l, r) => node_indices_below(*l, shape_len) && node_indices_below(
            *r,
            shape_len,
        ),
        CSGNode::Primitive(id) => id < shape_len,
    }
}

impl CSGNode {
    /// Whether the point lies in the region, from the per-shape answers
    /// `inside[id]`, short-circuiting as `||` and `&&` do.
    pub fn contains(&self, inside: &[bool]) -> (r: bool)
        requires
            node_indices_below(*self, inside@.len() as int),
        ensures
            r == node_contains(*self, inside@),
        decreases *self,
    {
        match self {
            CSGNode::Union(left, right) => left.contains(inside) || right.contains(inside),
            CSGNode::Intersection(left, right) => left.contains(inside) && right.contains(inside),
            CSGNode::Difference(left, right) => left.contains(inside) && !right.contains(inside),
            CSGNode::Primitive(id) => inside[*id],
        }
    }

    /// Whether every shape id of the tree is below `shape_len`.
    pub fn check_primitive_indices(&self, shape_len: usize) -> (r: bool)
        ensures
            r == node_indices_below(*self, shape_len as int),
        decreases *self,
    {
        match self {
            CSGNode::Union(left, right) => {
                left.check_primitive_indices(shape_len) && right.check_primitive_indices(shape_len)
            },
            CSGNode::Intersection(left, right) => {
                left.check_primitive_indices(shape_len) && right.check_primitive_indices(shape_len)
            },
            CSGNode::Difference(left, right) => {
                left.check_primitive_indices(shape_len) && right.check_primitive_indices(shape_len)
            },
            CSGNode::Primitive(id) => *id < shape_len,
        }
    }
}

/// A region made of one material.
pub struct Cell {
    pub csg: CSGNode,
    pub material_id: u32,
}

/// Whether every cell only names shapes below `shape_len`.
pub fn check_cells_primitive_indices(cells: &[Cell], shape_len: usize) -> (r: bool)
    ensures
        r == forall|c: int|
            0 <= c < cells@.len() ==> node_indices_below(#[trigger] cells@[c].csg, shape_len as int),
{
    let mut c: usize = 0;
    while c < cells.len()
        invariant
            0 <= c <= cells@.len(),
            forall|d: int|
                0 <= d < c ==> node_indices_below(#[trigger] cells@[d].csg, shape_len as int),
        decreases cells@.len() - c,
    {
        if !cells[c].csg.check_primitive_indices(shape_len) {
            return false;
        }
        c = c + 1;
    }
    true
}

/// Material of the first cell, from index `c` on, whose region holds the
/// point.
pub open spec fn first_containing_from(cells: Seq<Cell>, inside: Seq<bool>, c: int) -> Option<u32>
    decreases cells.len() - c,
{
    if c < 0 || c >= cells.len() {
        None
    } else if node_contains(cells[c].csg, inside) {
        Some(cells[c].material_id)
    } else {
        first_containing_from(cells, inside, c + 1)
    }
}

/// The material at a point, from the per-shape answers `inside[id]`: that of
/// the first cell whose region holds the point, or `None` outside every
/// cell.
pub fn material_containing(cells: &[Cell], inside: &[bool]) -> (r: Option<u32>)
    requires
        forall|c: int|
            0 <= c < cells@.len() ==> node_indices_below(
                #[trigger] cells@[c].csg,
                inside@.len() as int,
            ),
    ensures
        r == first_containing_from(cells@, inside@, 0),
        forall|c: int|
            0 <= c < cells@.len() && node_contains(#[trigger] cells@[c].csg, inside@) && (forall|
                d: int,
            | 0 <= d < c ==> !node_contains(#[trigger] cells@[d].csg, inside@))
                ==> r == Some(cells@[c].material_id),
        r is None <==> forall|c: int|
            0 <= c < cells@.len() ==> !node_contains(#[trigger] cells@[c].csg, inside@),
{
    let mut c: usize = 0;
    while c < cells.len()
        invariant
            0 <= c <= cells@.len(),
            forall|d: int|
                0 <= d < cells@.len() ==> node_indices_below(
                    #[trigger] cells@[d].csg,
                    inside@.len() as int,
                ),
            first_containing_from(cells@, inside@, 0) == first_containing_from(
                cells@,
                inside@,
                c as int,
            ),
        decreases cells@.len() - c,
    {
        if cells[c].csg.contains(inside) {
            proof {
                lemma_first_containing(cells@, inside@);
            }
            return Some(cells[c].material_id);
        }
        c = c + 1;
    }
    proof {
        lemma_first_containing(cells@, inside@);
    }
    None
}

/// The expression a tree stands for: union, intersection and difference of
/// its operands, shape `id` for a leaf.
pub open spec fn node_expr(node: CSGNode) -> CsgExpr
    decreases node,
{
    match node {
        CSGNode::Union(l, r) => CsgExpr::Union(Box::new(node_expr(*l)), Box::new(node_expr(*r))),
        CSGNode::Intersection(l, r) => CsgExpr::Intersection(
            Box::new(node_expr(*l)),
            Box::new(node_expr(*r)),
        ),
        CSGNode::Difference(l, r) => CsgExpr::Difference(
            Box::new(node_expr(*l)),
            Box::new(node_expr(*r)),
        ),
        CSGNode::Primitive(id) => CsgExpr::Prim(id),
    }
}

/// Containment in a tree is the set meaning of its expression: when bit `i`
/// of `mask` tells whether the point lies in shape `i`, the point lies in
/// the tree exactly when the expression holds on the mask, which is also
/// the value of the tree's flattened RPN program.
pub proof fn lemma_tree_contains_meaning(node: CSGNode, inside: Seq<bool>, mask: u64)
    requires
        node_indices_below(node, inside.len() as int),
        forall|i: int| 0 <= i < inside.len() ==> mask_bit(mask, i as usize) == #[trigger] inside[i],
    ensures
        node_contains(node, inside) == expr_eval(node_expr(node), mask),
        is_valid_rpn(rpn(node_expr(node))),
        node_contains(node, inside) == csg_eval(rpn(node_expr(node)), mask),
    decreases node,
{
    match node {
        CSGNode::Union(l, r) => {
            lemma_tree_contains_meaning(*l, inside, mask);
            lemma_tree_contains_meaning(*r, inside, mask);
        },
        CSGNode::Intersection(l, r) => {
            lemma_tree_contains_meaning(*l, inside, mask);
            lemma_tree_contains_meaning(*r, inside, mask);
        },
        CSGNode::Difference(l, r) => {
            lemma_tree_contains_meaning(*l, inside, mask);
            lemma_tree_contains_meaning(*r, inside, mask);
        },
        CSGNode::Primitive(id) => {
            assert(mask_bit(mask, id) == inside[id as int]);
        },
    }
    lemma_rpn_valid_meaning(node_expr(node), mask);
}

proof fn lemma_first_containing_at(cells: Seq<Cell>, inside: Seq<bool>, k: int, c: int)
    requires
        0 <= k <= c < cells.len(),
        node_contains(cells[c].csg, inside),
        forall|d: int| k <= d < c ==> !node_contains(#[trigger] cells[d].csg, inside),
    ensures
        first_containing_from(cells, inside, k) == Some(cells[c].material_id),
    decreases c - k,
{
    if k < c {
        assert(!node_contains(cells[k].csg, inside));
        lemma_first_containing_at(cells, inside, k + 1, c);
    }
}

proof fn lemma_first_containing_none(cells: Seq<Cell>, inside: Seq<bool>, k: int)
    requires
        0 <= k <= cells.len(),
    ensures
        first_containing_from(cells, inside, k) is None <==> forall|c: int|
            k <= c < cells.len() ==> !node_contains(#[trigger] cells[c].csg, inside),
    decreases cells.len() - k,
{
    if k < cells.len() {
        lemma_first_containing_none(cells, inside, k + 1);
    }
}

/// The material at a point is that of the first cell containing it,
/// whichever cell that is (the last one included), and there is none
/// exactly when no cell contains the point.
pub proof fn lemma_first_containing(cells: Seq<Cell>, inside: Seq<bool>)
    ensures
        forall|c: int|
            0 <= c < cells.len() && node_contains(#[trigger] cells[c].csg, inside) && (forall|
                d: int,
            | 0 <= d < c ==> !node_contains(#[trigger] cells[d].csg, inside))
                ==> first_containing_from(cells, inside, 0) == Some(cells[c].material_id),
        first_containing_from(cells, inside, 0) is None <==> forall|c: int|
            0 <= c < cells.len() ==> !node_contains(#[trigger] cells[c].csg, inside),
{
    assert forall|c: int|
        0 <= c < cells.len() && node_contains(#[trigger] cells[c].csg, inside) && (forall|d: int|
            0 <= d < c ==> !node_contains(#[trigger] cells[d].csg, inside)) implies first_containing_from(
        cells,
        inside,
        0,
    ) == Some(cells[c].material_id) by {
        lemma_first_containing_at(cells, inside, 0, c);
    }
    lemma_first_containing_none(cells, inside, 0);
}

} // verus!
