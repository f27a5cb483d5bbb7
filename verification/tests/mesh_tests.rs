use rust_fem_solver::mesh::{Mesh, MeshStats, Node};
use rust_fem_solver::types::ElementType;
use rust_fem_solver::FemError;

fn square() -> Mesh<[f64; 2]> {
    let mut m = Mesh::new();
    m.add_node(0, [0.0, 0.0]);
    m.add_node(1, [1.0, 0.0]);
    m.add_node(2, [1.0, 1.0]);
    m.add_node(3, [0.0, 1.0]);
    m.add_element(10, ElementType::Quadrilateral4, vec![0, 1, 2, 3]).unwrap();
    m.add_element(11, ElementType::Triangle3, vec![0, 1, 2]).unwrap();
    m
}

#[test]
fn empty_mesh() {
    let m: Mesh<[f64; 2]> = Mesh::new();
    assert_eq!(m.num_nodes(), 0);
    assert_eq!(m.num_elements(), 0);
    assert_eq!(m.num_dofs(), 0);
    assert!(m.get_node(0).is_none());
    assert!(m.get_element(0).is_none());
    let d: Mesh<[f64; 2]> = Mesh::default();
    assert_eq!(d.num_nodes(), 0);
}

#[test]
fn nodes_are_found_by_id() {
    let m = square();
    assert_eq!(m.num_nodes(), 4);
    assert_eq!(m.num_dofs(), 8);
    let n = m.get_node(2).unwrap();
    assert_eq!(n.id(), 2);
    assert_eq!(n.coordinates(), &[1.0, 1.0]);
    assert_eq!(m.get_node_index(3), Some(3));
    assert_eq!(m.get_node_index(9), None);
    assert!(m.get_node(9).is_none());
    assert_eq!(m.nodes().len(), 4);
    assert_eq!(m.nodes()[1], Node::new(1, [1.0, 0.0]));
}

#[test]
fn readding_a_node_id_replaces_the_lookup() {
    let mut m = square();
    m.add_node(1, [5.0, 5.0]);
    assert_eq!(m.num_nodes(), 5);
    assert_eq!(m.get_node_index(1), Some(4));
    assert_eq!(m.get_node(1).unwrap().coordinates(), &[5.0, 5.0]);
    assert_eq!(m.nodes()[1].coordinates(), &[1.0, 0.0]);
}

#[test]
fn node_update_in_place() {
    let mut m = square();
    *m.get_node_mut(3).unwrap() = Node::new(3, [-1.0, 2.0]);
    assert_eq!(m.get_node(3).unwrap().coordinates(), &[-1.0, 2.0]);
    assert!(m.get_node_mut(42).is_none());
}

#[test]
fn elements_are_found_by_id() {
    let m = square();
    assert_eq!(m.num_elements(), 2);
    let e = m.get_element(11).unwrap();
    assert_eq!(e.element_type(), ElementType::Triangle3);
    assert_eq!(e.node_ids(), &[0, 1, 2]);
    assert!(m.get_element(12).is_none());
    assert_eq!(m.elements()[0].id(), 10);
}

#[test]
fn element_with_wrong_node_count_is_refused() {
    let mut m = square();
    let r = m.add_element(7, ElementType::Triangle6, vec![0, 1, 2]);
    match r {
        Err(FemError::InvalidInput(msg)) => {
            assert_eq!(msg, "Element 7 has 3 nodes, expected 6")
        }
        _ => panic!("expected an invalid-input error"),
    }
    assert_eq!(m.num_elements(), 2);
    assert!(m.get_element(7).is_none());
}

#[test]
fn elements_can_be_replaced_in_place() {
    let mut m = square();
    let replacement = m.elements()[1].clone();
    m.elements_mut()[0] = replacement;
    assert_eq!(m.elements()[0].element_type(), ElementType::Triangle3);
    // The lookup by ID still points at the first position.
    assert_eq!(m.get_element(10).unwrap().id(), 11);
}

#[test]
fn statistics_count_kinds() {
    let mut m = square();
    m.add_element(12, ElementType::Triangle6, vec![0, 1, 2, 3, 0, 1]).unwrap();
    m.add_element(13, ElementType::Quadrilateral8, vec![0, 1, 2, 3, 0, 1, 2, 3]).unwrap();
    m.add_element(14, ElementType::Triangle3, vec![1, 2, 3]).unwrap();
    let s: MeshStats<[f64; 2]> = m.statistics(Some(([0.0, 0.0], [1.0, 1.0])));
    assert_eq!(s.num_nodes, 4);
    assert_eq!(s.num_elements, 5);
    assert_eq!(s.num_dofs, 8);
    assert_eq!(s.num_tri3, 2);
    assert_eq!(s.num_quad4, 1);
    assert_eq!(s.num_tri6, 1);
    assert_eq!(s.num_quad8, 1);
    assert_eq!(s.num_tri3 + s.num_quad4 + s.num_tri6 + s.num_quad8, s.num_elements);
    assert_eq!(s.bounding_box, Some(([0.0, 0.0], [1.0, 1.0])));
    let d: MeshStats<[f64; 2]> = MeshStats::default();
    assert_eq!(d.num_elements, 0);
    assert!(d.bounding_box.is_none());
}

#[test]
fn adding_leaves_other_lookups_alone() {
    let mut m = square();
    let before: Vec<_> = (0..4).map(|id| m.get_node(id).map(|n| *n.coordinates())).collect();
    m.add_node(9, [7.0, 7.0]);
    for id in 0..4 {
        assert_eq!(m.get_node(id).map(|n| *n.coordinates()), before[id]);
    }
    assert_eq!(m.get_node_index(9), Some(4));
    let e1 = m.get_element(10).map(|e| e.node_ids().to_vec());
    m.add_element(5, ElementType::Triangle3, vec![0, 1, 9]).unwrap();
    assert!(e1.is_some());
    assert_eq!(m.get_element(10).map(|e| e.node_ids().to_vec()), e1);
    assert_eq!(m.get_element(5).unwrap().node_ids(), &[0, 1, 9]);
}

#[test]
fn cloned_mesh_keeps_lookups() {
    let m = square();
    let c = m.clone();
    for id in 0..4 {
        assert_eq!(c.get_node_index(id), m.get_node_index(id));
    }
    assert_eq!(c.num_elements(), m.num_elements());
}
