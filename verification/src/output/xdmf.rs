//! XDMF light-data document.
//!
//! The document describes one uniform grid whose topology, coordinates and
//! displacements are heavy data kept in HDF5 files beside it. The element
//! count is written as the number of elements of the topology and as the
//! dimension of its connectivity item; the node count as the first
//! dimension of the coordinate and displacement items.

use vstd::prelude::*;

use crate::mesh::Mesh;
use crate::text::{contains, decimal, lemma_contains_middle, push_decimal};

verus! {

/// The lines before the element count.
pub open spec fn xdmf_prologue() -> Seq<char> {
    "<?xml version=\"1.0\"?>\n"@ + "<Xdmf Version=\"3.0\">\n"@ + "  <Domain>\n"@
        + "    <Grid GridType=\"Uniform\">\n"@
        + "      <Topology TopologyType=\"Mixed\" NumberOfElements=\""@
}

/// The text between the two element counts.
pub open spec fn xdmf_topology_item() -> Seq<char> {
    "\">\n"@ + "        <DataItem Format=\"HDF\" Dimensions=\""@
}

/// The text between the second element count and the first node count.
pub open spec fn xdmf_geometry_item() -> Seq<char> {
    "\" NumberType=\"Int\">\n"@ + "          connectivity.h5:/connectivity\n"@
        + "        </DataItem>\n"@ + "      </Topology>\n"@
        + "      <Geometry GeometryType=\"XYZ\">\n"@
        + "        <DataItem Format=\"HDF\" Dimensions=\""@
}

/// The text between the two node counts.
pub open spec fn xdmf_attribute_item() -> Seq<char> {
    " 3\" NumberType=\"Double\">\n"@ + "          coordinates.h5:/coordinates\n"@
        + "        </DataItem>\n"@ + "      </Geometry>\n"@
        + "      <Attribute Name=\"Displacement\" AttributeType=\"Vector\" Center=\"Node\">\n"@
        + "        <DataItem Format=\"HDF\" Dimensions=\""@
}

/// The lines after the second node count.
pub open spec fn xdmf_epilogue() -> Seq<char> {
    " 3\" NumberType=\"Double\">\n"@ + "          displacement.h5:/displacement\n"@
        + "        </DataItem>\n"@ + "      </Attribute>\n"@ + "    </Grid>\n"@ + "  </Domain>\n"@
        + "</Xdmf>\n"@
}

/// The XDMF document of a mesh with `num_elements` elements and
/// `num_nodes` nodes.
pub open spec fn xdmf_document(num_elements: nat, num_nodes: nat) -> Seq<char> {
    xdmf_prologue() + decimal(num_elements) + xdmf_topology_item() + decimal(num_elements)
        + xdmf_geometry_item() + decimal(num_nodes) + xdmf_attribute_item() + decimal(num_nodes)
        + xdmf_epilogue()
}

/// Writer of XDMF documents.
pub struct XdmfWriter;

impl XdmfWriter {
    /// The XDMF document of the mesh.
    pub fn document<P>(mesh: &Mesh<P>) -> (s: String)
        ensures
            s@ == xdmf_document(mesh@.elements.len(), mesh@.nodes.len()),
    {
        let num_elements = mesh.num_elements();
        let num_nodes = mesh.num_nodes();
        let mut s = String::from_str("<?xml version=\"1.0\"?>\n");
        s.append("<Xdmf Version=\"3.0\">\n");
        s.append("  <Domain>\n");
        s.append("    <Grid GridType=\"Uniform\">\n");
        s.append("      <Topology TopologyType=\"Mixed\" NumberOfElements=\"");
        let ghost a = s@;
        assert(a =~= xdmf_prologue());
        push_decimal(&mut s, num_elements);
        s.append("\">\n");
        s.append("        <DataItem Format=\"HDF\" Dimensions=\"");
        let ghost b = s@;
        assert(b =~= a + decimal(num_elements as nat) + xdmf_topology_item());
        push_decimal(&mut s, num_elements);
        s.append("\" NumberType=\"Int\">\n");
        s.append("          connectivity.h5:/connectivity\n");
        s.append("        </DataItem>\n");
        s.append("      </Topology>\n");
        s.append("      <Geometry GeometryType=\"XYZ\">\n");
        s.append("        <DataItem Format=\"HDF\" Dimensions=\"");
        let ghost c = s@;
        assert(c =~= b + decimal(num_elements as nat) + xdmf_geometry_item());
        push_decimal(&mut s, num_nodes);
        s.append(" 3\" NumberType=\"Double\">\n");
        s.append("          coordinates.h5:/coordinates\n");
        s.append("        </DataItem>\n");
        s.append("      </Geometry>\n");
        s.append("      <Attribute Name=\"Displacement\" AttributeType=\"Vector\" Center=\"Node\">\n");
        s.append("        <DataItem Format=\"HDF\" Dimensions=\"");
        let ghost d = s@;
        assert(d =~= c + decimal(num_nodes as nat) + xdmf_attribute_item());
        push_decimal(&mut s, num_nodes);
        s.append(" 3\" NumberType=\"Double\">\n");
        s.append("          displacement.h5:/displacement\n");
        s.append("        </DataItem>\n");
        s.append("      </Attribute>\n");
        s.append("    </Grid>\n");
        s.append("  </Domain>\n");
        s.append("</Xdmf>\n");
        assert(s@ =~= d + decimal(num_nodes as nat) + xdmf_epilogue());
        s
    }
}

proof fn lemma_topology_count(num_elements: nat, num_nodes: nat)
    ensures
        contains(
            xdmf_document(num_elements, num_nodes),
            "NumberOfElements=\""@ + decimal(num_elements) + "\">"@,
        ),
{
    let de = decimal(num_elements);
    let dn = decimal(num_nodes);
    reveal_strlit("      <Topology TopologyType=\"Mixed\" NumberOfElements=\"");
    reveal_strlit("      <Topology TopologyType=\"Mixed\" ");
    reveal_strlit("NumberOfElements=\"");
    reveal_strlit("\">\n");
    reveal_strlit("\">");
    reveal_strlit("\n");
    let p0 = "<?xml version=\"1.0\"?>\n"@ + "<Xdmf Version=\"3.0\">\n"@ + "  <Domain>\n"@
        + "    <Grid GridType=\"Uniform\">\n"@ + "      <Topology TopologyType=\"Mixed\" "@;
    let n1 = "NumberOfElements=\""@ + de + "\">"@;
    let rest = "\n"@ + "        <DataItem Format=\"HDF\" Dimensions=\""@ + de + xdmf_geometry_item()
        + dn + xdmf_attribute_item() + dn + xdmf_epilogue();
    assert(xdmf_prologue() =~= p0 + "NumberOfElements=\""@);
    assert(xdmf_topology_item() =~= "\">"@ + "\n"@ + "        <DataItem Format=\"HDF\" Dimensions=\""@);
    assert(xdmf_document(num_elements, num_nodes) =~= p0 + n1 + rest);
    lemma_contains_middle(p0, n1, rest);
}

proof fn lemma_connectivity_size(num_elements: nat, num_nodes: nat)
    ensures
        contains(
            xdmf_document(num_elements, num_nodes),
            "Dimensions=\""@ + decimal(num_elements) + "\" NumberType=\"Int\">"@,
        ),
{
    let de = decimal(num_elements);
    let dn = decimal(num_nodes);
    reveal_strlit("        <DataItem Format=\"HDF\" Dimensions=\"");
    reveal_strlit("        <DataItem Format=\"HDF\" ");
    reveal_strlit("Dimensions=\"");
    reveal_strlit("\" NumberType=\"Int\">\n");
    reveal_strlit("\" NumberType=\"Int\">");
    reveal_strlit("\n");
    let g_rest = "          connectivity.h5:/connectivity\n"@ + "        </DataItem>\n"@
        + "      </Topology>\n"@ + "      <Geometry GeometryType=\"XYZ\">\n"@
        + "        <DataItem Format=\"HDF\" Dimensions=\""@;
    let pre = xdmf_prologue() + de + "\">\n"@ + "        <DataItem Format=\"HDF\" "@;
    let n2 = "Dimensions=\""@ + de + "\" NumberType=\"Int\">"@;
    let rest = "\n"@ + g_rest + dn + xdmf_attribute_item() + dn + xdmf_epilogue();
    assert(xdmf_topology_item() =~= "\">\n"@ + "        <DataItem Format=\"HDF\" "@ + "Dimensions=\""@);
    assert(xdmf_geometry_item() =~= "\" NumberType=\"Int\">"@ + "\n"@ + g_rest);
    assert(xdmf_document(num_elements, num_nodes) =~= pre + n2 + rest);
    lemma_contains_middle(pre, n2, rest);
}

proof fn lemma_coordinate_size(num_elements: nat, num_nodes: nat)
    ensures
        contains(
            xdmf_document(num_elements, num_nodes),
            "Dimensions=\""@ + decimal(num_nodes) + " 3\" NumberType=\"Double\">\n          coordinates.h5"@,
        ),
{
    let de = decimal(num_elements);
    let dn = decimal(num_nodes);
    reveal_strlit("        <DataItem Format=\"HDF\" Dimensions=\"");
    reveal_strlit("        <DataItem Format=\"HDF\" ");
    reveal_strlit("Dimensions=\"");
    reveal_strlit(" 3\" NumberType=\"Double\">\n");
    reveal_strlit("          coordinates.h5:/coordinates\n");
    reveal_strlit(" 3\" NumberType=\"Double\">\n          coordinates.h5");
    reveal_strlit(":/coordinates\n");
    let g_head = "\" NumberType=\"Int\">\n"@ + "          connectivity.h5:/connectivity\n"@
        + "        </DataItem>\n"@ + "      </Topology>\n"@
        + "      <Geometry GeometryType=\"XYZ\">\n"@ + "        <DataItem Format=\"HDF\" "@;
    let a_rest = "        </DataItem>\n"@ + "      </Geometry>\n"@
        + "      <Attribute Name=\"Displacement\" AttributeType=\"Vector\" Center=\"Node\">\n"@
        + "        <DataItem Format=\"HDF\" Dimensions=\""@;
    let pre = xdmf_prologue() + de + xdmf_topology_item() + de + g_head;
    let n3 = "Dimensions=\""@ + dn + " 3\" NumberType=\"Double\">\n          coordinates.h5"@;
    let rest = ":/coordinates\n"@ + a_rest + dn + xdmf_epilogue();
    assert(xdmf_geometry_item() =~= g_head + "Dimensions=\""@);
    assert(xdmf_attribute_item() =~= " 3\" NumberType=\"Double\">\n          coordinates.h5"@
        + ":/coordinates\n"@ + a_rest);
    assert(xdmf_document(num_elements, num_nodes) =~= pre + n3 + rest);
    lemma_contains_middle(pre, n3, rest);
}

proof fn lemma_displacement_size(num_elements: nat, num_nodes: nat)
    ensures
        contains(
            xdmf_document(num_elements, num_nodes),
            "Dimensions=\""@ + decimal(num_nodes) + " 3\" NumberType=\"Double\">\n          displacement.h5"@,
        ),
{
    let de = decimal(num_elements);
    let dn = decimal(num_nodes);
    reveal_strlit("        <DataItem Format=\"HDF\" Dimensions=\"");
    reveal_strlit("        <DataItem Format=\"HDF\" ");
    reveal_strlit("Dimensions=\"");
    reveal_strlit(" 3\" NumberType=\"Double\">\n");
    reveal_strlit("          displacement.h5:/displacement\n");
    reveal_strlit(" 3\" NumberType=\"Double\">\n          displacement.h5");
    reveal_strlit(":/displacement\n");
    let a_head = " 3\" NumberType=\"Double\">\n"@ + "          coordinates.h5:/coordinates\n"@
        + "        </DataItem>\n"@ + "      </Geometry>\n"@
        + "      <Attribute Name=\"Displacement\" AttributeType=\"Vector\" Center=\"Node\">\n"@
        + "        <DataItem Format=\"HDF\" "@;
    let e_rest = "        </DataItem>\n"@ + "      </Attribute>\n"@ + "    </Grid>\n"@
        + "  </Domain>\n"@ + "</Xdmf>\n"@;
    let pre = xdmf_prologue() + de + xdmf_topology_item() + de + xdmf_geometry_item() + dn + a_head;
    let n4 = "Dimensions=\""@ + dn + " 3\" NumberType=\"Double\">\n          displacement.h5"@;
    let rest = ":/displacement\n"@ + e_rest;
    assert(xdmf_attribute_item() =~= a_head + "Dimensions=\""@);
    assert(xdmf_epilogue() =~= " 3\" NumberType=\"Double\">\n          displacement.h5"@
        + ":/displacement\n"@ + e_rest);
    assert(xdmf_document(num_elements, num_nodes) =~= pre + n4 + rest);
    lemma_contains_middle(pre, n4, rest);
}

/// The document gives the element count as the topology's number of
/// elements and as the size of its connectivity item, and the node count as
/// the first dimension of the coordinate item and of the displacement item.
pub proof fn lemma_xdmf_counts(num_elements: nat, num_nodes: nat)
    ensures
        contains(
            xdmf_document(num_elements, num_nodes),
            "NumberOfElements=\""@ + decimal(num_elements) + "\">"@,
        ),
        contains(
            xdmf_document(num_elements, num_nodes),
            "Dimensions=\""@ + decimal(num_elements) + "\" NumberType=\"Int\">"@,
        ),
        contains(
            xdmf_document(num_elements, num_nodes),
            "Dimensions=\""@ + decimal(num_nodes) + " 3\" NumberType=\"Double\">\n          coordinates.h5"@,
        ),
        contains(
            xdmf_document(num_elements, num_nodes),
            "Dimensions=\""@ + decimal(num_nodes) + " 3\" NumberType=\"Double\">\n          displacement.h5"@,
        ),
{
    lemma_topology_count(num_elements, num_nodes);
    lemma_connectivity_size(num_elements, num_nodes);
    lemma_coordinate_size(num_elements, num_nodes);
    lemma_displacement_size(num_elements, num_nodes);
}

} // verus!
