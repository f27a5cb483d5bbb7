use rust_fem_solver::mesh::Mesh;
use rust_fem_solver::output::{CsvWriter, TecplotWriter, VtkWriter, XdmfWriter};
use rust_fem_solver::types::ElementType;

fn mesh() -> Mesh<()> {
    let mut m = Mesh::new();
    for id in 0..4 {
        m.add_node(id, ());
    }
    m.add_element(1, ElementType::Quadrilateral4, vec![0, 1, 2, 3]).unwrap();
    m.add_element(2, ElementType::Triangle3, vec![0, 1, 2]).unwrap();
    m
}

#[test]
fn csv_element_table() {
    let t = CsvWriter::elements_table(&mesh());
    assert_eq!(
        t,
        "element_id,type,node1,node2,node3,node4,node5,node6,node7,node8\n\
         1,Quadrilateral4,0,1,2,3,,,,\n\
         2,Triangle3,0,1,2,,,,,\n"
    );
    let empty: Mesh<()> = Mesh::new();
    assert_eq!(
        CsvWriter::elements_table(&empty),
        "element_id,type,node1,node2,node3,node4,node5,node6,node7,node8\n"
    );
}

#[test]
fn csv_full_rows_have_no_padding() {
    let mut m: Mesh<()> = Mesh::new();
    m.add_element(30, ElementType::Quadrilateral8, vec![1, 2, 3, 4, 5, 6, 7, 8]).unwrap();
    m.add_element(31, ElementType::Triangle6, vec![10, 20, 30, 40, 50, 60]).unwrap();
    let t = CsvWriter::elements_table(&m);
    assert!(t.ends_with("30,Quadrilateral8,1,2,3,4,5,6,7,8\n31,Triangle6,10,20,30,40,50,60,,\n"));
}

#[test]
fn vtk_sections() {
    let m = mesh();
    assert_eq!(
        VtkWriter::points_header(&m),
        "# vtk DataFile Version 3.0\nFEM Solver Results\nASCII\nDATASET UNSTRUCTURED_GRID\nPOINTS 4 float\n"
    );
    assert_eq!(
        VtkWriter::cells_section(&m).unwrap(),
        "CELLS 2 9\n4 0 1 2 3\n3 0 1 2\nCELL_TYPES 2\n9\n5\nPOINT_DATA 4\nVECTORS displacement float\n"
    );
}

#[test]
fn vtk_cell_type_codes() {
    let mut m: Mesh<()> = Mesh::new();
    m.add_element(1, ElementType::Triangle6, vec![0; 6]).unwrap();
    m.add_element(2, ElementType::Quadrilateral8, vec![0; 8]).unwrap();
    let s = VtkWriter::cells_section(&m).unwrap();
    assert!(s.contains("CELL_TYPES 2\n22\n23\n"));
    assert!(s.starts_with("CELLS 2 16\n"));
}

#[test]
fn tecplot_sections() {
    let m = mesh();
    assert_eq!(
        TecplotWriter::zone_header(&m),
        "TITLE = \"FEM Solver Results\"\nVARIABLES = \"X\" \"Y\" \"Ux\" \"Uy\"\nZONE T=\"Solution\" N=4  E=2  ET=QUADRILATERAL  F=POINT\n"
    );
    assert_eq!(TecplotWriter::connectivity_section(&m).unwrap(), "1 2 3 4 \n1 2 3 \n");
    let empty: Mesh<()> = Mesh::new();
    assert!(TecplotWriter::zone_header(&empty).contains("ET=TRIANGLE"));
}

#[test]
fn tecplot_refuses_unnumberable_ids() {
    let mut m: Mesh<()> = Mesh::new();
    m.add_element(1, ElementType::Triangle3, vec![0, usize::MAX, 1]).unwrap();
    assert!(TecplotWriter::connectivity_section(&m).is_none());
}

#[test]
fn xdmf_document_counts() {
    let lines = [
        "<?xml version=\"1.0\"?>",
        "<Xdmf Version=\"3.0\">",
        "  <Domain>",
        "    <Grid GridType=\"Uniform\">",
        "      <Topology TopologyType=\"Mixed\" NumberOfElements=\"2\">",
        "        <DataItem Format=\"HDF\" Dimensions=\"2\" NumberType=\"Int\">",
        "          connectivity.h5:/connectivity",
        "        </DataItem>",
        "      </Topology>",
        "      <Geometry GeometryType=\"XYZ\">",
        "        <DataItem Format=\"HDF\" Dimensions=\"4 3\" NumberType=\"Double\">",
        "          coordinates.h5:/coordinates",
        "        </DataItem>",
        "      </Geometry>",
        "      <Attribute Name=\"Displacement\" AttributeType=\"Vector\" Center=\"Node\">",
        "        <DataItem Format=\"HDF\" Dimensions=\"4 3\" NumberType=\"Double\">",
        "          displacement.h5:/displacement",
        "        </DataItem>",
        "      </Attribute>",
        "    </Grid>",
        "  </Domain>",
        "</Xdmf>",
    ];
    let expected: String = lines.iter().map(|l| format!("{}\n", l)).collect();
    assert_eq!(XdmfWriter::document(&mesh()), expected);
}

#[test]
fn xdmf_document_of_empty_mesh() {
    let d = XdmfWriter::document(&Mesh::<()>::new());
    assert!(d.contains("NumberOfElements=\"0\""));
    assert!(d.contains("Dimensions=\"0 3\""));
    assert!(d.ends_with("</Xdmf>\n"));
}
