//! Elements of a mesh and their node connectivity.

use vstd::prelude::*;

use crate::types::{ElementId, ElementType, NodeId};

verus! {

/// The ordered node list of one element.
#[derive(Debug, Clone, PartialEq)]
pub struct ElementConnectivity {
    node_ids: Vec<NodeId>,
}

impl View for ElementConnectivity {
    type V = Seq<NodeId>;

    closed spec fn view(&self) -> Seq<NodeId> {
        self.node_ids@
    }
}

impl ElementConnectivity {
    /// Creates a connectivity from an ordered list of node IDs.
    pub fn new(node_ids: Vec<NodeId>) -> (c: Self)
        ensures
            c@ == node_ids@,
    {
        ElementConnectivity { node_ids }
    }

    /// The node IDs, in order.
    pub fn node_ids(&self) -> (ids: &[NodeId])
        ensures
            ids@ == self@,
    {
        self.node_ids.as_slice()
    }

    /// The node ID at position `idx`, if there is one.
    pub fn node_id(&self, idx: usize) -> (id: Option<NodeId>)
        ensures
            id == (if idx < self@.len() { Some(self@[idx as int]) } else { None::<NodeId> }),
    {
        if idx < self.node_ids.len() {
            Some(self.node_ids[idx])
        } else {
            None
        }
    }

    /// Number of nodes.
    pub fn num_nodes(&self) -> (n: usize)
        ensures
            n == self@.len(),
    {
        self.node_ids.len()
    }
}

/// What an element is, as a value: its ID, its kind and its node IDs.
pub struct ElementView {
    pub id: ElementId,
    pub element_type: ElementType,
    pub node_ids: Seq<NodeId>,
}

/// An element of the mesh.
#[derive(Debug, Clone, PartialEq)]
pub struct Element {
    id: ElementId,
    element_type: ElementType,
    connectivity: ElementConnectivity,
}

impl View for Element {
    type V = ElementView;

    closed spec fn view(&self) -> ElementView {
        ElementView {
            id: self.id,
            element_type: self.element_type,
            node_ids: self.connectivity@,
        }
    }
}

impl Element {
    /// Creates an element.
    pub fn new(id: ElementId, element_type: ElementType, connectivity: ElementConnectivity) -> (e:
        Self)
        ensures
            e@ == (ElementView { id, element_type, node_ids: connectivity@ }),
    {
        Element { id, element_type, connectivity }
    }

    /// The element ID.
    pub fn id(&self) -> (id: ElementId)
        ensures
            id == self@.id,
    {
        self.id
    }

    /// The element kind.
    pub fn element_type(&self) -> (t: ElementType)
        ensures
            t == self@.element_type,
    {
        self.element_type
    }

    /// The connectivity.
    pub fn connectivity(&self) -> (c: &ElementConnectivity)
        ensures
            c@ == self@.node_ids,
    {
        &self.connectivity
    }

    /// The node IDs of this element, in order.
    pub fn node_ids(&self) -> (ids: &[NodeId])
        ensures
            ids@ == self@.node_ids,
    {
        self.connectivity.node_ids()
    }

    /// Total degrees of freedom of the element, from its kind.
    pub fn num_dofs(&self) -> (n: usize)
        ensures
            n == self@.element_type.spec_num_nodes() * 2,
    {
        self.element_type.total_dofs()
    }
}

} // verus!
