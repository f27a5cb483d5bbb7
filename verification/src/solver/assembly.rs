//! Degrees of freedom of elements in the global system.

use vstd::prelude::*;

use crate::mesh::Element;
use crate::types::NodeId;

verus! {

/// Every node ID of `ids` numbers equations that fit in `usize`.
pub open spec fn dofs_fit(ids: Seq<NodeId>) -> bool {
    forall|k: int| 0 <= k < ids.len() ==> #[trigger] ids[k] * 2 + 1 <= usize::MAX
}

/// The global equation numbers of nodes `ids`: for each node, in order,
/// its X equation `2 * id` and its Y equation `2 * id + 1`.
pub open spec fn dofs_of(ids: Seq<NodeId>) -> Seq<usize> {
    Seq::new(ids.len() * 2, |k: int| (ids[k / 2] * 2 + k % 2) as usize)
}

/// An element's equations are two per node, in node order: the X equation
/// `2 * id` and then the Y equation `2 * id + 1` of each node.
pub proof fn lemma_dofs_two_per_node(ids: Seq<NodeId>)
    requires
        dofs_fit(ids),
    ensures
        dofs_of(ids).len() == 2 * ids.len(),
        forall|k: int|
            0 <= k < ids.len() ==> dofs_of(ids)[2 * k] == 2 * #[trigger] ids[k] && dofs_of(ids)[2
                * k + 1] == 2 * ids[k] + 1,
{
    assert forall|k: int| 0 <= k < ids.len() implies dofs_of(ids)[2 * k] == 2 * #[trigger] ids[k]
        && dofs_of(ids)[2 * k + 1] == 2 * ids[k] + 1 by {
        assert((2 * k) / 2 == k && (2 * k) % 2 == 0);
        assert((2 * k + 1) / 2 == k && (2 * k + 1) % 2 == 1);
        assert(ids[k] * 2 + 1 <= usize::MAX);
    }
}

/// Assembler of the global system.
pub struct MatrixAssembler;

impl MatrixAssembler {
    /// The global equation numbers of the nodes of `element`, two per node.
    pub fn get_element_dofs(element: &Element) -> (dofs: Vec<usize>)
        requires
            dofs_fit(element@.node_ids),
        ensures
            dofs@ == dofs_of(element@.node_ids),
    {
        let ids = element.node_ids();
        let mut dofs: Vec<usize> = Vec::new();
        let n = ids.len();
        for i in 0..n
            invariant
                n == ids@.len(),
                ids@ == element@.node_ids,
                dofs_fit(ids@),
                dofs@ =~= dofs_of(ids@.take(i as int)),
        {
            let id = ids[i];
            assert(id * 2 + 1 <= usize::MAX);
            dofs.push(id * 2);
            dofs.push(id * 2 + 1);
            assert(dofs@ =~= dofs_of(ids@.take(i + 1)));
        }
        assert(ids@.take(n as int) =~= ids@);
        dofs
    }
}

} // verus!
