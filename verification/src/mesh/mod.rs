//! Mesh data structures: nodes, elements and the ID lookups over them.
//!
//! A mesh carries node coordinates of any type `P`; the mesh itself only
//! stores them and hands them back.

use vstd::prelude::*;

pub mod element;
pub mod loader;
pub mod node;

pub use element::{Element, ElementConnectivity, ElementView};
pub use loader::{AbaqusLoader, CoordinateText};
pub use node::Node;

use crate::text::{decimal, decimal_string};
use crate::types::{ElementId, ElementType, NodeId};
use crate::FemError;
use std::collections::HashMap;

verus! {

broadcast use vstd::std_specs::hash::group_hash_axioms;

/// What a mesh is, as a value: its nodes and elements in insertion order,
/// and the position that each ID was last added at.
pub struct MeshView<P> {
    pub nodes: Seq<Node<P>>,
    pub elements: Seq<ElementView>,
    pub node_index: Map<NodeId, usize>,
    pub element_index: Map<ElementId, usize>,
}

impl<P> MeshView<P> {
    /// The mesh with no nodes and no elements.
    pub open spec fn empty() -> Self {
        MeshView {
            nodes: Seq::empty(),
            elements: Seq::empty(),
            node_index: Map::empty(),
            element_index: Map::empty(),
        }
    }

    /// The mesh after adding a node: it is appended, and its ID now refers
    /// to it.
    pub open spec fn add_node(self, id: NodeId, coordinates: P) -> Self {
        MeshView {
            nodes: self.nodes.push(Node::spec_new(id, coordinates)),
            node_index: self.node_index.insert(id, self.nodes.len() as usize),
            ..self
        }
    }

    /// The mesh after adding an element: it is appended, and its ID now
    /// refers to it.
    pub open spec fn add_element(self, id: ElementId, element_type: ElementType, node_ids: Seq<
        NodeId,
    >) -> Self {
        MeshView {
            elements: self.elements.push(ElementView { id, element_type, node_ids }),
            element_index: self.element_index.insert(id, self.elements.len() as usize),
            ..self
        }
    }

    /// The position that `id` refers to among the nodes, if any.
    pub open spec fn node_position(self, id: NodeId) -> Option<usize> {
        if self.node_index.contains_key(id) {
            Some(self.node_index[id])
        } else {
            None
        }
    }

    /// The node that `id` refers to, if any.
    pub open spec fn node(self, id: NodeId) -> Option<Node<P>> {
        if self.node_index.contains_key(id) && self.node_index[id] < self.nodes.len() {
            Some(self.nodes[self.node_index[id] as int])
        } else {
            None
        }
    }

    /// The element that `id` refers to, if any.
    pub open spec fn element(self, id: ElementId) -> Option<ElementView> {
        if self.element_index.contains_key(id) && self.element_index[id] < self.elements.len() {
            Some(self.elements[self.element_index[id] as int])
        } else {
            None
        }
    }

}

/// Number of elements of the given kind in `elements`.
pub open spec fn count_of_type(elements: Seq<ElementView>, element_type: ElementType) -> nat
    decreases elements.len(),
{
    if elements.len() == 0 {
        0
    } else {
        count_of_type(elements.drop_last(), element_type) + if elements.last().element_type
            == element_type {
            1nat
        } else {
            0nat
        }
    }
}

/// Appending an element adds one to the count of its own kind and nothing
/// to the count of any other kind.
pub proof fn lemma_count_push(elements: Seq<ElementView>, e: ElementView, element_type: ElementType)
    ensures
        count_of_type(elements.push(e), element_type) == count_of_type(elements, element_type) + (
        if e.element_type == element_type {
            1int
        } else {
            0int
        }),
{
    assert(elements.push(e).drop_last() =~= elements);
}

/// The count of a kind is the number of elements of that kind.
pub proof fn lemma_count_is_number_of_kind(elements: Seq<ElementView>, element_type: ElementType)
    ensures
        count_of_type(elements, element_type) == elements.filter(
            |e: ElementView| e.element_type == element_type,
        ).len(),
    decreases elements.len(),
{
    let f = |e: ElementView| e.element_type == element_type;
    if elements.len() == 0 {
        assert(elements.filter(f) =~= Seq::<ElementView>::empty());
    } else {
        let init = elements.drop_last();
        lemma_count_is_number_of_kind(init, element_type);
        assert(init.push(elements.last()) =~= elements);
        init.lemma_filter_push(elements.last(), f);
    }
}

/// When every element is of one kind, that kind's count is the number of
/// elements and every other kind's count is zero.
pub proof fn lemma_count_all_one_kind(
    elements: Seq<ElementView>,
    element_type: ElementType,
    other: ElementType,
)
    requires
        forall|i: int| 0 <= i < elements.len() ==> #[trigger] elements[i].element_type
            == element_type,
        other != element_type,
    ensures
        count_of_type(elements, element_type) == elements.len(),
        count_of_type(elements, other) == 0,
    decreases elements.len(),
{
    if elements.len() > 0 {
        let init = elements.drop_last();
        assert forall|i: int| 0 <= i < init.len() implies #[trigger] init[i].element_type
            == element_type by {
            assert(init[i] == elements[i]);
        }
        lemma_count_all_one_kind(init, element_type, other);
        assert(elements.last() == elements[elements.len() - 1]);
    }
}

/// Every node ID refers to a position that holds a node.
pub open spec fn node_positions_in_range<P>(m: MeshView<P>) -> bool {
    forall|id: NodeId| #[trigger] m.node_index.contains_key(id) ==> m.node_index[id] < m.nodes.len()
}

/// Every element ID refers to a position that holds an element.
pub open spec fn element_positions_in_range<P>(m: MeshView<P>) -> bool {
    forall|id: ElementId| #[trigger] m.element_index.contains_key(id) ==> m.element_index[id]
        < m.elements.len()
}

/// Every ID refers to a position that holds a node or an element.
pub open spec fn positions_in_range<P>(m: MeshView<P>) -> bool {
    node_positions_in_range(m) && element_positions_in_range(m)
}

/// A node that was just added is what its ID refers to, at the last
/// position; the other IDs refer to what they referred to before.
pub proof fn lemma_add_node_then_get<P>(m: MeshView<P>, id: NodeId, coordinates: P, other: NodeId)
    requires
        m.nodes.len() < usize::MAX,
        positions_in_range(m),
        other != id,
    ensures
        m.add_node(id, coordinates).node(id) == Some(Node::spec_new(id, coordinates)),
        m.add_node(id, coordinates).node_position(id) == Some(m.nodes.len() as usize),
        m.add_node(id, coordinates).node(other) == m.node(other),
        positions_in_range(m.add_node(id, coordinates)),
{
    let m2 = m.add_node(id, coordinates);
    if m.node_index.contains_key(other) {
        assert(m2.nodes[m.node_index[other] as int] == m.nodes[m.node_index[other] as int]);
    }
}

/// An element that was just added is what its ID refers to; the other IDs
/// refer to what they referred to before.
pub proof fn lemma_add_element_then_get<P>(
    m: MeshView<P>,
    id: ElementId,
    element_type: ElementType,
    node_ids: Seq<NodeId>,
    other: ElementId,
)
    requires
        m.elements.len() < usize::MAX,
        positions_in_range(m),
        other != id,
    ensures
        m.add_element(id, element_type, node_ids).element(id) == Some(
            ElementView { id, element_type, node_ids },
        ),
        m.add_element(id, element_type, node_ids).element(other) == m.element(other),
        positions_in_range(m.add_element(id, element_type, node_ids)),
{
    let m2 = m.add_element(id, element_type, node_ids);
    if m.element_index.contains_key(other) {
        let k = m.element_index[other] as int;
        assert(m2.elements[k] == m.elements[k]);
    }
}

/// Every element is of exactly one kind: the four counts add up to the
/// number of elements.
pub proof fn lemma_counts_cover_elements(elements: Seq<ElementView>)
    ensures
        count_of_type(elements, ElementType::Triangle3) + count_of_type(
            elements,
            ElementType::Quadrilateral4,
        ) + count_of_type(elements, ElementType::Triangle6) + count_of_type(
            elements,
            ElementType::Quadrilateral8,
        ) == elements.len(),
    decreases elements.len(),
{
    if elements.len() > 0 {
        lemma_counts_cover_elements(elements.drop_last());
    }
}

/// The message of [`Mesh::add_element`] when the node count does not fit the
/// element kind.
pub open spec fn wrong_node_count_message(id: nat, got: nat, expected: nat) -> Seq<char> {
    "Element "@ + decimal(id) + " has "@ + decimal(got) + " nodes, expected "@ + decimal(expected)
}

/// The nodes of a mesh with the lookup from ID to position. Every ID in
/// the lookup refers to a stored node.
#[derive(Debug)]
struct NodeTable<P> {
    items: Vec<Node<P>>,
    index: HashMap<NodeId, usize>,
}

impl<P> NodeTable<P> {
    #[verifier::type_invariant]
    spec fn wf(self) -> bool {
        forall|id: NodeId| #[trigger] self.index@.contains_key(id) ==> self.index@[id]
            < self.items@.len()
    }

    fn new() -> (t: Self)
        ensures
            t.items@ == Seq::<Node<P>>::empty(),
            t.index@ == Map::<NodeId, usize>::empty(),
    {
        NodeTable { items: Vec::new(), index: HashMap::new() }
    }

    fn push(&mut self, id: NodeId, coords: P)
        ensures
            final(self).items@ == old(self).items@.push(Node::spec_new(id, coords)),
            final(self).index@ == old(self).index@.insert(id, old(self).items@.len() as usize),
    {
        let mut taken = NodeTable::new();
        std::mem::swap(self, &mut taken);
        proof {
            use_type_invariant(&taken);
        }
        let NodeTable { mut items, mut index } = taken;
        let position = items.len();
        items.push(Node::new(id, coords));
        index.insert(id, position);
        *self = NodeTable { items, index };
    }

    fn get_mut(&mut self, id: NodeId) -> (n: Option<&mut Node<P>>)
        ensures
            final(self).index@ == old(self).index@,
            match n {
                Some(node) => {
                    &&& old(self).index@.contains_key(id)
                    &&& *node == old(self).items@[old(self).index@[id] as int]
                    &&& final(self).items@ == old(self).items@.update(
                        old(self).index@[id] as int,
                        *final(node),
                    )
                },
                None => !old(self).index@.contains_key(id) && final(self).items@ == old(
                    self,
                ).items@,
            },
    {
        proof {
            use_type_invariant(&*self);
        }
        let found = match self.index.get(&id) {
            Some(idx) => Some(*idx),
            None => None,
        };
        match found {
            Some(idx) => Some(&mut self.items[idx]),
            None => None,
        }
    }
}

impl<P: Clone> Clone for NodeTable<P> {
    fn clone(&self) -> (c: Self) {
        proof {
            use_type_invariant(self);
        }
        NodeTable { items: self.items.clone(), index: self.index.clone() }
    }
}

/// A mesh: nodes and elements, with lookup by ID.
#[derive(Debug, Clone)]
pub struct Mesh<P> {
    nodes: NodeTable<P>,
    elements: Vec<Element>,
    element_map: HashMap<ElementId, usize>,
}

impl<P> View for Mesh<P> {
    type V = MeshView<P>;

    closed spec fn view(&self) -> MeshView<P> {
        MeshView {
            nodes: self.nodes.items@,
            elements: self.elements@.map_values(|e: Element| e@),
            node_index: self.nodes.index@,
            element_index: self.element_map@,
        }
    }
}

impl<P> Mesh<P> {
    /// Creates an empty mesh.
    pub fn new() -> (m: Self)
        ensures
            m@ == MeshView::<P>::empty(),
    {
        let m = Mesh { nodes: NodeTable::new(), elements: Vec::new(), element_map: HashMap::new() };
        proof {
            assert(m@.elements =~= Seq::<ElementView>::empty());
        }
        m
    }

    /// Adds a node. A node added under an ID that is already present
    /// replaces it in lookups by ID; both stay in [`Mesh::nodes`]. Lookups
    /// of every other ID are unchanged.
    pub fn add_node(&mut self, id: NodeId, coords: P)
        ensures
            final(self)@ == old(self)@.add_node(id, coords),
            final(self)@.node(id) == Some(Node::spec_new(id, coords)),
            final(self)@.node_position(id) == Some(old(self)@.nodes.len() as usize),
            forall|other: NodeId|
                other != id ==> #[trigger] final(self)@.node(other) == old(self)@.node(other),
    {
        proof {
            use_type_invariant(&self.nodes);
            assert(self.nodes.items@.len() == self.nodes.items.len());
            assert forall|other: NodeId| other != id implies #[trigger] old(self)@.add_node(
                id,
                coords,
            ).node(other) == old(self)@.node(other) by {
                if old(self)@.node_index.contains_key(other) {
                    let k = old(self)@.node_index[other] as int;
                    assert(old(self)@.add_node(id, coords).nodes[k] == old(self)@.nodes[k]);
                }
            }
        }
        self.nodes.push(id, coords);
    }

    /// Adds an element, after checking that its node count fits its kind.
    /// Where every element ID refers to a stored element before the call
    /// (as in every mesh that this library builds), lookups of every other
    /// ID are unchanged. That condition is not a type invariant of `Mesh`:
    /// [`Mesh::elements_mut`] lends out the element vector as a slice, and
    /// nothing states that a lent slice keeps its length.
    pub fn add_element(
        &mut self,
        id: ElementId,
        elem_type: ElementType,
        connectivity: Vec<NodeId>,
    ) -> (r: Result<(), FemError>)
        ensures
            connectivity@.len() == elem_type.spec_num_nodes() ==> {
                &&& r is Ok
                &&& final(self)@ == old(self)@.add_element(id, elem_type, connectivity@)
                &&& final(self)@.element(id) == Some(
                    ElementView { id, element_type: elem_type, node_ids: connectivity@ },
                )
                &&& element_positions_in_range(old(self)@) ==> element_positions_in_range(
                    final(self)@,
                )
                &&& element_positions_in_range(old(self)@) ==> forall|other: ElementId|
                    other != id ==> #[trigger] final(self)@.element(other) == old(self)@.element(
                        other,
                    )
            },
            connectivity@.len() != elem_type.spec_num_nodes() ==> {
                &&& final(self)@ == old(self)@
                &&& r matches Err(e) && crate::is_invalid_input(
                    e,
                    wrong_node_count_message(
                        id as nat,
                        connectivity@.len(),
                        elem_type.spec_num_nodes(),
                    ),
                )
            },
    {
        let expected = elem_type.num_nodes();
        if connectivity.len() != expected {
            let mut msg = String::from_str("Element ");
            msg.append(decimal_string(id).as_str());
            msg.append(" has ");
            msg.append(decimal_string(connectivity.len()).as_str());
            msg.append(" nodes, expected ");
            msg.append(decimal_string(expected).as_str());
            return Err(FemError::InvalidInput(msg));
        }
        let ghost before = self@;
        let index = self.elements.len();
        self.element_map.insert(id, index);
        let ghost conn = connectivity@;
        self.elements.push(Element::new(id, elem_type, ElementConnectivity::new(connectivity)));
        proof {
            assert(self@.elements =~= before.elements.push(
                ElementView { id, element_type: elem_type, node_ids: conn },
            ));
            if element_positions_in_range(before) {
                assert forall|other: ElementId| other != id implies #[trigger] self@.element(other)
                    == before.element(other) by {
                    if before.element_index.contains_key(other) {
                        let k = before.element_index[other] as int;
                        assert(self@.elements[k] == before.elements[k]);
                    }
                }
            }
        }
        Ok(())
    }

    /// Number of nodes.
    pub fn num_nodes(&self) -> (n: usize)
        ensures
            n == self@.nodes.len(),
    {
        self.nodes.items.len()
    }

    /// Number of elements.
    pub fn num_elements(&self) -> (n: usize)
        ensures
            n == self@.elements.len(),
    {
        self.elements.len()
    }

    /// Total degrees of freedom: two per node. Requires that this count
    /// fits in `usize`.
    pub fn num_dofs(&self) -> (n: usize)
        requires
            self@.nodes.len() * 2 <= usize::MAX,
        ensures
            n == self@.nodes.len() * 2,
    {
        self.nodes.items.len() * 2
    }

    /// The node that `id` refers to.
    pub fn get_node(&self, id: NodeId) -> (n: Option<&Node<P>>)
        ensures
            match n {
                Some(node) => self@.node(id) == Some(*node),
                None => self@.node(id) is None,
            },
    {
        proof {
            use_type_invariant(&self.nodes);
        }
        match self.nodes.index.get(&id) {
            Some(idx) => Some(&self.nodes.items[*idx]),
            None => None,
        }
    }

    /// The node that `id` refers to, for update.
    pub fn get_node_mut(&mut self, id: NodeId) -> (n: Option<&mut Node<P>>)
        ensures
            match n {
                Some(node) => old(self)@.node(id) == Some(*node) && final(self)@ == (MeshView {
                    nodes: old(self)@.nodes.update(
                        old(self)@.node_index[id] as int,
                        *final(node),
                    ),
                    ..old(self)@
                }),
                None => old(self)@.node(id) is None && final(self)@ == old(self)@,
            },
    {
        proof {
            use_type_invariant(&self.nodes);
        }
        self.nodes.get_mut(id)
    }

    /// The element that `id` refers to.
    pub fn get_element(&self, id: ElementId) -> (e: Option<&Element>)
        ensures
            match e {
                Some(elem) => self@.element(id) == Some(elem@),
                None => self@.element(id) is None,
            },
    {
        match self.element_map.get(&id) {
            Some(idx) => {
                if *idx < self.elements.len() {
                    Some(&self.elements[*idx])
                } else {
                    None
                }
            },
            None => None,
        }
    }

    /// The position of the node that `id` refers to.
    pub fn get_node_index(&self, id: NodeId) -> (i: Option<usize>)
        ensures
            i == self@.node_position(id),
    {
        match self.nodes.index.get(&id) {
            Some(idx) => Some(*idx),
            None => None,
        }
    }

    /// All nodes, in insertion order.
    pub fn nodes(&self) -> (ns: &[Node<P>])
        ensures
            ns@ == self@.nodes,
    {
        self.nodes.items.as_slice()
    }

    /// All elements, in insertion order.
    pub fn elements(&self) -> (es: &[Element])
        ensures
            es@.map_values(|e: Element| e@) == self@.elements,
    {
        self.elements.as_slice()
    }

    /// All elements, for update in place.
    pub fn elements_mut(&mut self) -> (es: &mut [Element])
        ensures
            es@.map_values(|e: Element| e@) == old(self)@.elements,
            final(self)@ == (MeshView {
                elements: final(es)@.map_values(|e: Element| e@),
                ..old(self)@
            }),
    {
        self.elements.as_mut_slice()
    }
}

/// Mesh statistics: counts of nodes, elements, degrees of freedom and
/// elements of each kind, and the bounding box of the node coordinates.
#[derive(Debug, Clone)]
pub struct MeshStats<P> {
    pub num_nodes: usize,
    pub num_elements: usize,
    pub num_dofs: usize,
    pub num_tri3: usize,
    pub num_quad4: usize,
    pub num_tri6: usize,
    pub num_quad8: usize,
    pub bounding_box: Option<(P, P)>,
}

impl<P> Mesh<P> {
    /// The statistics of the mesh. The bounding box is computed from the
    /// coordinates by the caller, who knows what they are, and is reported
    /// as given.
    pub fn statistics(&self, bounding_box: Option<(P, P)>) -> (stats: MeshStats<P>)
        requires
            self@.nodes.len() * 2 <= usize::MAX,
        ensures
            stats.num_nodes == self@.nodes.len(),
            stats.num_elements == self@.elements.len(),
            stats.num_dofs == self@.nodes.len() * 2,
            stats.num_tri3 == count_of_type(self@.elements, ElementType::Triangle3),
            stats.num_quad4 == count_of_type(self@.elements, ElementType::Quadrilateral4),
            stats.num_tri6 == count_of_type(self@.elements, ElementType::Triangle6),
            stats.num_quad8 == count_of_type(self@.elements, ElementType::Quadrilateral8),
            stats.num_tri3 + stats.num_quad4 + stats.num_tri6 + stats.num_quad8
                == stats.num_elements,
            stats.bounding_box == bounding_box,
    {
        let mut num_tri3: usize = 0;
        let mut num_quad4: usize = 0;
        let mut num_tri6: usize = 0;
        let mut num_quad8: usize = 0;
        let n = self.elements.len();
        let ghost all = self@.elements;
        for i in 0..n
            invariant
                n == self.elements@.len(),
                all == self@.elements,
                num_tri3 == count_of_type(all.take(i as int), ElementType::Triangle3),
                num_quad4 == count_of_type(all.take(i as int), ElementType::Quadrilateral4),
                num_tri6 == count_of_type(all.take(i as int), ElementType::Triangle6),
                num_quad8 == count_of_type(all.take(i as int), ElementType::Quadrilateral8),
                num_tri3 + num_quad4 + num_tri6 + num_quad8 == i,
        {
            proof {
                assert(all.take(i + 1).drop_last() =~= all.take(i as int));
                assert(all.take(i + 1).last() == self.elements@[i as int]@);
            }
            match self.elements[i].element_type() {
                ElementType::Triangle3 => num_tri3 += 1,
                ElementType::Quadrilateral4 => num_quad4 += 1,
                ElementType::Triangle6 => num_tri6 += 1,
                ElementType::Quadrilateral8 => num_quad8 += 1,
            }
        }
        proof {
            assert(all.take(n as int) =~= all);
        }
        MeshStats {
            num_nodes: self.num_nodes(),
            num_elements: self.num_elements(),
            num_dofs: self.num_dofs(),
            num_tri3,
            num_quad4,
            num_tri6,
            num_quad8,
            bounding_box,
        }
    }
}

impl<P> Default for MeshStats<P> {
    fn default() -> (s: Self)
        ensures
            s.num_nodes == 0 && s.num_elements == 0 && s.num_dofs == 0,
            s.num_tri3 == 0 && s.num_quad4 == 0 && s.num_tri6 == 0 && s.num_quad8 == 0,
            s.bounding_box is None,
    {
        MeshStats {
            num_nodes: 0,
            num_elements: 0,
            num_dofs: 0,
            num_tri3: 0,
            num_quad4: 0,
            num_tri6: 0,
            num_quad8: 0,
            bounding_box: None,
        }
    }
}

impl<P> Default for Mesh<P> {
    fn default() -> (m: Self)
        ensures
            m@ == MeshView::<P>::empty(),
    {
        Self::new()
    }
}

} // verus!
