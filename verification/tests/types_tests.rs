use rust_fem_solver::solver::MatrixAssembler;
use rust_fem_solver::mesh::{Element, ElementConnectivity};
use rust_fem_solver::types::ElementType;
use rust_fem_solver::FemError;

#[test]
fn element_type_node_counts() {
    assert_eq!(ElementType::Triangle3.num_nodes(), 3);
    assert_eq!(ElementType::Quadrilateral4.num_nodes(), 4);
    assert_eq!(ElementType::Triangle6.num_nodes(), 6);
    assert_eq!(ElementType::Quadrilateral8.num_nodes(), 8);
}

#[test]
fn element_type_dofs() {
    for t in [
        ElementType::Triangle3,
        ElementType::Quadrilateral4,
        ElementType::Triangle6,
        ElementType::Quadrilateral8,
    ] {
        assert_eq!(t.dofs_per_node(), 2);
        assert_eq!(t.total_dofs(), t.num_nodes() * t.dofs_per_node());
    }
    assert_eq!(ElementType::Quadrilateral8.total_dofs(), 16);
}

#[test]
fn connectivity_accessors() {
    let c = ElementConnectivity::new(vec![4, 7, 9]);
    assert_eq!(c.node_ids(), &[4, 7, 9]);
    assert_eq!(c.node_id(1), Some(7));
    assert_eq!(c.node_id(3), None);
    assert_eq!(c.num_nodes(), 3);
}

#[test]
fn element_accessors() {
    let e = Element::new(12, ElementType::Triangle3, ElementConnectivity::new(vec![1, 2, 3]));
    assert_eq!(e.id(), 12);
    assert_eq!(e.element_type(), ElementType::Triangle3);
    assert_eq!(e.node_ids(), &[1, 2, 3]);
    assert_eq!(e.connectivity().num_nodes(), 3);
    assert_eq!(e.num_dofs(), 6);
}

#[test]
fn element_dofs_are_two_per_node() {
    let e = Element::new(1, ElementType::Triangle3, ElementConnectivity::new(vec![0, 5, 2]));
    assert_eq!(MatrixAssembler::get_element_dofs(&e), vec![0, 1, 10, 11, 4, 5]);
    let empty = Element::new(2, ElementType::Triangle3, ElementConnectivity::new(vec![]));
    assert!(MatrixAssembler::get_element_dofs(&empty).is_empty());
}

#[test]
fn error_messages() {
    assert_eq!(
        FemError::ParseError("bad".to_string()).to_string(),
        "Parse error: bad"
    );
    assert_eq!(
        FemError::ConvergenceError("x".to_string()).to_string(),
        "Convergence error: x"
    );
    assert_eq!(FemError::InvalidInput("y".to_string()).to_string(), "Invalid input: y");
    assert_eq!(FemError::AssemblyError("z".to_string()).to_string(), "Assembly error: z");
    assert_eq!(FemError::ContactError("w".to_string()).to_string(), "Contact error: w");
    let io = std::io::Error::new(std::io::ErrorKind::NotFound, "missing file");
    assert_eq!(FemError::IoError(io).to_string(), "IO error: missing file");
}

#[test]
fn io_error_converts() {
    let io = std::io::Error::new(std::io::ErrorKind::Other, "boom");
    let e: FemError = io.into();
    assert!(matches!(e, FemError::IoError(_)));
}
