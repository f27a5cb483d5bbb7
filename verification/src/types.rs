//! Element kinds and identifiers.

use vstd::prelude::*;

verus! {

/// Node identifier.
pub type NodeId = usize;

/// Element identifier.
pub type ElementId = usize;

/// Element kind.
#[derive(Debug, Clone, Copy, PartialEq, Eq, Structural)]
pub enum ElementType {
    /// 3-node triangle
    Triangle3,
    /// 4-node quadrilateral
    Quadrilateral4,
    /// 6-node triangle
    Triangle6,
    /// 8-node quadrilateral
    Quadrilateral8,
}

impl ElementType {
    /// Number of nodes of this element kind.
    pub open spec fn spec_num_nodes(self) -> nat {
        match self {
            ElementType::Triangle3 => 3,
            ElementType::Quadrilateral4 => 4,
            ElementType::Triangle6 => 6,
            ElementType::Quadrilateral8 => 8,
        }
    }

    /// Number of nodes of this element kind.
    pub fn num_nodes(&self) -> (n: usize)
        ensures
            n == self.spec_num_nodes(),
    {
        match self {
            ElementType::Triangle3 => 3,
            ElementType::Quadrilateral4 => 4,
            ElementType::Triangle6 => 6,
            ElementType::Quadrilateral8 => 8,
        }
    }

    /// Degrees of freedom per node: the X and Y displacements.
    pub fn dofs_per_node(&self) -> (n: usize)
        ensures
            n == 2,
    {
        2
    }

    /// Total degrees of freedom of this element kind.
    pub fn total_dofs(&self) -> (n: usize)
        ensures
            n == self.spec_num_nodes() * 2,
    {
        self.num_nodes() * self.dofs_per_node()
    }
}

/// Each kind has the number of nodes that its name gives: three for the
/// linear triangle, four for the linear quadrilateral, six and eight for
/// their quadratic forms; and two degrees of freedom per node.
pub proof fn lemma_kind_node_counts()
    ensures
        ElementType::Triangle3.spec_num_nodes() == 3,
        ElementType::Quadrilateral4.spec_num_nodes() == 4,
        ElementType::Triangle6.spec_num_nodes() == 6,
        ElementType::Quadrilateral8.spec_num_nodes() == 8,
{
}

} // verus!
