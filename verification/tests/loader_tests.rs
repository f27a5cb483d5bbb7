use rust_fem_solver::mesh::{AbaqusLoader, CoordinateText, Mesh};
use rust_fem_solver::types::ElementType;
use rust_fem_solver::FemError;

fn lines(text: &str) -> Vec<String> {
    text.lines().map(|l| l.to_string()).collect()
}

fn parse(text: &str) -> Result<Mesh<CoordinateText>, FemError> {
    AbaqusLoader::parse_lines(&lines(text))
}

fn parse_error(text: &str) -> String {
    match parse(text) {
        Err(FemError::ParseError(m)) => m,
        Err(e) => panic!("unexpected error {:?}", e),
        Ok(_) => panic!("expected a parse error"),
    }
}

#[test]
fn test_parse_element_header() {
    assert_eq!(
        AbaqusLoader::parse_element_header("*Element, type=CPS3").unwrap(),
        ElementType::Triangle3
    );
    assert_eq!(
        AbaqusLoader::parse_element_header("*Element, type=CPS4").unwrap(),
        ElementType::Quadrilateral4
    );
}

#[test]
fn element_header_kinds() {
    let cases = [
        ("*Element, type=CPE3", ElementType::Triangle3),
        ("*Element, type=cpe4", ElementType::Quadrilateral4),
        ("*ELEMENT, TYPE=CPS6, ELSET=A", ElementType::Triangle6),
        ("*Element, type=cpE8", ElementType::Quadrilateral8),
        ("*Element, type=CPS8R, type=CPS3", ElementType::Triangle3),
    ];
    for (header, kind) in cases {
        assert_eq!(AbaqusLoader::parse_element_header(header).unwrap(), kind);
    }
}

#[test]
fn element_header_uses_unicode_upper_case() {
    // U+017F LATIN SMALL LETTER LONG S upper-cases to `S`.
    assert_eq!(
        AbaqusLoader::parse_element_header("*Element, type=cp\u{17f}3").unwrap(),
        ElementType::Triangle3
    );
}

#[test]
fn element_header_unsupported() {
    match AbaqusLoader::parse_element_header("*Element, type=S4R") {
        Err(FemError::ParseError(m)) => assert_eq!(m, "Unsupported element type in Abaqus file"),
        _ => panic!("expected a parse error"),
    }
}

#[test]
fn element_kind_from_upper_case_header() {
    assert_eq!(
        AbaqusLoader::element_type_from_uppercase("*ELEMENT, TYPE=CPE6").unwrap(),
        ElementType::Triangle6
    );
    // Lower case is not matched once the text is taken as already upper case.
    assert!(AbaqusLoader::element_type_from_uppercase("*element, type=cpe6").is_err());
}

const SAMPLE: &str = "*Heading
** A unit square
*Node
1, 0.0, 0.0
2, 1.0, 0.0
3, 1.0, 1.0
4, 0.0, 1.0
*Element, type=CPS4
10, 1, 2, 3, 4
*Element, type=CPS3
11, 1, 2, 3
*End Step";

#[test]
fn reads_nodes_and_elements() {
    let m = parse(SAMPLE).unwrap();
    assert_eq!(m.num_nodes(), 4);
    assert_eq!(m.num_elements(), 2);
    let n = m.get_node(3).unwrap();
    assert_eq!(n.id(), 3);
    assert_eq!(m.nodes()[2].id(), 3);
    assert_eq!(m.nodes()[1].coordinates().x, "1.0");
    assert_eq!(m.nodes()[1].coordinates().y, "0.0");
    let e = m.get_element(10).unwrap();
    assert_eq!(e.element_type(), ElementType::Quadrilateral4);
    assert_eq!(e.node_ids(), &[1, 2, 3, 4]);
    let t = m.get_element(11).unwrap();
    assert_eq!(t.element_type(), ElementType::Triangle3);
    assert_eq!(t.node_ids(), &[1, 2, 3]);
}


#[test]
fn later_node_line_wins_lookup() {
    let m = parse("*Node\n1, 0, 0\n1, 2.5, 3\n*Element, type=CPS3\n1, 1, 1, 1").unwrap();
    assert_eq!(m.num_nodes(), 2);
    assert_eq!(m.get_node(1).unwrap().coordinates().x, "2.5");
    assert_eq!(m.get_node_index(1), Some(1));
}

#[test]
fn fields_are_trimmed() {
    let m = parse("  *Node  \n\t7 ,\u{3000}2.0 , 3.0\r\n*Element, type=CPS3\n 1 , 7 , 7 , 7 ").unwrap();
    let n = m.get_node(7).unwrap();
    assert_eq!(n.coordinates().x, "2.0");
    assert_eq!(n.coordinates().y, "3.0");
    assert_eq!(m.get_element(1).unwrap().node_ids(), &[7, 7, 7]);
}

#[test]
fn short_lines_are_skipped() {
    let m = parse("*Node\n1, 0.0\n2, 0, 0, 9\n*Element, type=CPS3\n5, 1, 2\n6, 2, 2, 2, 2").unwrap();
    assert_eq!(m.num_nodes(), 1);
    assert_eq!(m.get_node(2).unwrap().coordinates().y, "0");
    assert_eq!(m.num_elements(), 1);
    assert_eq!(m.get_element(6).unwrap().node_ids(), &[2, 2, 2]);
}

#[test]
fn empty_line_ends_a_section() {
    let m = parse("*Node\n1, 0, 0\n\n2, 1, 1\n*Element, type=CPS3\n1, 1, 1, 1\n\n2, 1, 1, 1").unwrap();
    assert_eq!(m.num_nodes(), 1);
    assert_eq!(m.num_elements(), 1);
}

#[test]
fn keywords_are_case_sensitive() {
    // `*node` opens no section, so the file has no nodes.
    let msg = parse_error("*node\n1, 0, 0\n*Element, type=CPS3\n1, 1, 1, 1");
    assert_eq!(msg, "No nodes or elements found in mesh file");
}

#[test]
fn empty_file_has_no_mesh() {
    assert_eq!(parse_error(""), "No nodes or elements found in mesh file");
    assert_eq!(parse_error("*Node\n1, 0, 0"), "No nodes or elements found in mesh file");
    assert_eq!(
        parse_error("*Element, type=CPS3\n1, 1, 1, 1"),
        "No nodes or elements found in mesh file"
    );
}

#[test]
fn bad_node_lines() {
    assert_eq!(parse_error("*Node\na, 0, 0"), "Invalid node ID: a");
    assert_eq!(parse_error("*Node\n-1, 0, 0"), "Invalid node ID: -1");
    assert_eq!(
        parse_error("*Node\n99999999999999999999999, 0, 0"),
        "Invalid node ID: 99999999999999999999999"
    );
    assert_eq!(parse_error("*Node\n1, 1.0.0, 0"), "Invalid X coordinate: 1.0.0");
    assert_eq!(parse_error("*Node\n1, 0, y"), "Invalid Y coordinate: y");
    assert_eq!(parse_error("*Node\n1, , 0"), "Invalid X coordinate: ");
}

#[test]
fn bad_element_lines() {
    assert_eq!(
        parse_error("*Node\n1, 0, 0\n*Element, type=CPS3\ne, 1, 1, 1"),
        "Invalid element ID: e"
    );
    assert_eq!(
        parse_error("*Node\n1, 0, 0\n*Element, type=CPS3\n1, 1, q, 1"),
        "Invalid node ID: q"
    );
    assert_eq!(
        parse_error("*Node\n1, 0, 0\n*Element, type=S4R\n1, 1, 1, 1"),
        "Unsupported element type in Abaqus file"
    );
}

#[test]
fn first_error_wins() {
    assert_eq!(
        parse_error("*Node\nx, 0, 0\n*Element, type=S4R"),
        "Invalid node ID: x"
    );
}

#[test]
fn plus_sign_ids() {
    let m = parse("*Node\n+7, 0, 0\n*Element, type=CPS3\n+1, 7, +7, 007").unwrap();
    assert!(m.get_node(7).is_some());
    assert_eq!(m.get_element(1).unwrap().node_ids(), &[7, 7, 7]);
}

#[test]
fn coordinate_syntax_matches_f64_parsing() {
    let candidates = [
        "0", "1", "-1", "+2.5", ".5", "5.", "1e5", "1E-5", "1.5e+3", "-.25E2", "inf", "-Infinity",
        "+NaN", "nan", "INF", "infinity", "", ".", "e5", "1e", "1e+", "--1", "+-1", "0x10",
        "1.5f", "1_000", "in", "infinit", "nana", "1e5.0", "..5", "1..", "١", "1 2",
    ];
    for c in candidates {
        let text = format!("*Node\n1, {}, 0\n*Element, type=CPS3\n1, 1, 1, 1", c);
        let ok = parse(&text).is_ok();
        let expected = c.trim().parse::<f64>().is_ok();
        assert_eq!(ok, expected, "coordinate {:?}", c);
        if ok {
            let m = parse(&text).unwrap();
            let x = &m.get_node(1).unwrap().coordinates().x;
            assert_eq!(x.parse::<f64>().is_ok(), true);
        }
    }
}

#[test]
fn later_element_line_wins_lookup() {
    // Fields past the kind's node count are ignored: both lines add an element.
    let m = parse("*Node\n1, 0, 0\n*Element, type=CPS3\n4, 1, 1, 1\n4, 1, 1, 1, 9").unwrap();
    assert_eq!(m.num_elements(), 2);
    assert_eq!(m.get_element(4).unwrap().node_ids(), &[1, 1, 1]);
    let m = parse("*Node\n1, 0, 0\n*Element, type=CPS3\n4, 1, 1, 1\n*Element, type=CPS4\n4, 1, 1, 1, 1")
        .unwrap();
    assert_eq!(m.num_elements(), 2);
    let e = m.get_element(4).unwrap();
    assert_eq!(e.element_type(), ElementType::Quadrilateral4);
    assert_eq!(e.node_ids(), &[1, 1, 1, 1]);
}

#[test]
fn read_indices_point_into_the_mesh() {
    let m = parse("*Node\n3, 0, 0\n1, 1, 0\n3, 2, 2\n2, 0, 1\n*Element, type=CPS3\n1, 1, 2, 3").unwrap();
    for id in [1usize, 2, 3] {
        let i = m.get_node_index(id).unwrap();
        assert!(i < m.num_nodes());
        assert_eq!(m.nodes()[i].id(), id);
    }
    assert_eq!(m.get_node_index(4), None);
    assert_eq!(m.get_node(3).unwrap().coordinates().x, "2");
}

#[test]
fn largest_id_is_read_back() {
    let text = format!("*Node\n{}, 0, 0\n*Element, type=CPS3\n{}, 1, 1, 1", usize::MAX, usize::MAX);
    let m = parse(&text).unwrap();
    assert_eq!(m.get_node(usize::MAX).unwrap().id(), usize::MAX);
    assert_eq!(m.get_element(usize::MAX).unwrap().id(), usize::MAX);
    let over = "18446744073709551616";
    if usize::MAX as u128 == 18446744073709551615u128 {
        assert_eq!(parse_error(&format!("*Node\n{}, 0, 0", over)), format!("Invalid node ID: {}", over));
    }
}
