//! Nodes of a mesh.

use vstd::prelude::*;

use crate::types::NodeId;

verus! {

/// A node: its ID and its coordinates, of the type `P` that the mesh carries.
#[derive(Debug, Clone, Copy, PartialEq)]
pub struct Node<P> {
    id: NodeId,
    coordinates: P,
}

impl<P> Node<P> {
    /// The node with the given ID and coordinates, as a value.
    pub closed spec fn spec_new(id: NodeId, coordinates: P) -> Self {
        Node { id, coordinates }
    }

    /// The node ID.
    pub closed spec fn spec_id(self) -> NodeId {
        self.id
    }

    /// The node coordinates.
    pub closed spec fn spec_coordinates(self) -> P {
        self.coordinates
    }

    /// A node is determined by its ID and coordinates.
    pub broadcast proof fn lemma_node_parts(id: NodeId, coordinates: P)
        ensures
            #[trigger] Self::spec_new(id, coordinates).spec_id() == id,
            Self::spec_new(id, coordinates).spec_coordinates() == coordinates,
    {
    }

    /// Creates a node.
    pub fn new(id: NodeId, coordinates: P) -> (n: Self)
        ensures
            n == Self::spec_new(id, coordinates),
    {
        Node { id, coordinates }
    }

    /// The node ID.
    pub fn id(&self) -> (id: NodeId)
        ensures
            id == self.spec_id(),
    {
        self.id
    }

    /// The node coordinates.
    pub fn coordinates(&self) -> (c: &P)
        ensures
            *c == self.spec_coordinates(),
    {
        &self.coordinates
    }
}

} // verus!
