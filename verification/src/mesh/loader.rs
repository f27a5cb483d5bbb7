//! Reader of Abaqus `.inp` input files.
//!
//! The reader goes through the lines of the file once. A line that begins
//! with `*Node` opens a node section, one that begins with `*Element` an
//! element section of the kind that its `TYPE=` names; a section runs until
//! an empty line or one that begins with `*`. Other lines outside sections
//! are skipped. Node coordinates are kept as the text that the file holds,
//! checked to be numbers in the syntax that `f64` parsing accepts.

use vstd::prelude::*;

use super::{ElementView, Mesh, MeshView, Node};
use crate::output::csv::{lemma_split_node_cells, node_cells};
use crate::text::{
    chars_of, contains, contains_chars, decimal, field_ranges, fields, free_of,
    is_float_literal, is_float_literal_range, lemma_decimal_free, lemma_parse_decimal,
    lemma_split_fields_on_comma, lemma_split_on_concat, lemma_split_on_sep, lemma_split_on_word,
    lemma_trim_decimal, message_with, parse_usize, parse_usize_range, range_texts, split_on,
    starts_with, starts_with_range, trim, trim_range,
};
use crate::types::{ElementType, NodeId};
use crate::{is_parse_error, FemError};

verus! {

/// The coordinates of a node as the input file writes them.
#[derive(Debug, Clone)]
pub struct CoordinateText {
    pub x: String,
    pub y: String,
}

/// A node line of the file, as a value.
pub struct NodeRecord {
    pub id: NodeId,
    pub x: Seq<char>,
    pub y: Seq<char>,
}

/// The section that the reader is in.
pub enum Section {
    Top,
    Nodes,
    Elements(ElementType),
}

/// What the reader has found so far.
pub struct ReadState {
    pub section: Section,
    pub nodes: Seq<NodeRecord>,
    pub elements: Seq<ElementView>,
}

/// The upper-case form of `s`, as `str::to_uppercase` gives it.
pub uninterp spec fn uppercase(s: Seq<char>) -> Seq<char>;

/// `str::to_uppercase`.
///
/// Its result is named by [`uppercase`]; nothing more is stated of it.
#[verifier::external_body]
fn to_uppercase(s: &str) -> (u: String)
    ensures
        u@ == uppercase(s@),
{
    s.to_uppercase()
}

/// The element kind that an upper-cased `*Element` header names.
pub open spec fn element_type_of_uppercase(u: Seq<char>) -> Option<ElementType> {
    if contains(u, "TYPE=CPS3"@) || contains(u, "TYPE=CPE3"@) {
        Some(ElementType::Triangle3)
    } else if contains(u, "TYPE=CPS4"@) || contains(u, "TYPE=CPE4"@) {
        Some(ElementType::Quadrilateral4)
    } else if contains(u, "TYPE=CPS6"@) || contains(u, "TYPE=CPE6"@) {
        Some(ElementType::Triangle6)
    } else if contains(u, "TYPE=CPS8"@) || contains(u, "TYPE=CPE8"@) {
        Some(ElementType::Quadrilateral8)
    } else {
        None
    }
}

/// Which kind an upper-cased header names: a 3-node name (`TYPE=CPS3` or
/// `TYPE=CPE3`) gives the 3-node triangle; otherwise a 4-node name the
/// 4-node quadrilateral; otherwise a 6-node name the 6-node triangle;
/// otherwise an 8-node name the 8-node quadrilateral; a header with none of
/// these names gives no kind.
pub proof fn lemma_header_kinds(u: Seq<char>)
    ensures
        contains(u, "TYPE=CPS3"@) || contains(u, "TYPE=CPE3"@) ==> element_type_of_uppercase(u)
            == Some(ElementType::Triangle3),
        !(contains(u, "TYPE=CPS3"@) || contains(u, "TYPE=CPE3"@)) && (contains(u, "TYPE=CPS4"@)
            || contains(u, "TYPE=CPE4"@)) ==> element_type_of_uppercase(u) == Some(
            ElementType::Quadrilateral4,
        ),
        !(contains(u, "TYPE=CPS3"@) || contains(u, "TYPE=CPE3"@)) && !(contains(u, "TYPE=CPS4"@)
            || contains(u, "TYPE=CPE4"@)) && (contains(u, "TYPE=CPS6"@) || contains(
            u,
            "TYPE=CPE6"@,
        )) ==> element_type_of_uppercase(u) == Some(ElementType::Triangle6),
        !(contains(u, "TYPE=CPS3"@) || contains(u, "TYPE=CPE3"@)) && !(contains(u, "TYPE=CPS4"@)
            || contains(u, "TYPE=CPE4"@)) && !(contains(u, "TYPE=CPS6"@) || contains(
            u,
            "TYPE=CPE6"@,
        )) && (contains(u, "TYPE=CPS8"@) || contains(u, "TYPE=CPE8"@))
            ==> element_type_of_uppercase(u) == Some(ElementType::Quadrilateral8),
        !contains(u, "TYPE=CPS3"@) && !contains(u, "TYPE=CPE3"@) && !contains(u, "TYPE=CPS4"@)
            && !contains(u, "TYPE=CPE4"@) && !contains(u, "TYPE=CPS6"@) && !contains(
            u,
            "TYPE=CPE6"@,
        ) && !contains(u, "TYPE=CPS8"@) && !contains(u, "TYPE=CPE8"@)
            ==> element_type_of_uppercase(u) is None,
{
}

/// The element kind that an `*Element` header names.
pub open spec fn header_element_type(header: Seq<char>) -> Option<ElementType> {
    element_type_of_uppercase(uppercase(header))
}

/// The message for an element header that names no supported kind.
pub open spec fn unsupported_type_message() -> Seq<char> {
    "Unsupported element type in Abaqus file"@
}

/// The message for a file without nodes or without elements.
pub open spec fn empty_mesh_message() -> Seq<char> {
    "No nodes or elements found in mesh file"@
}

/// A line that ends a section: empty, or beginning with `*`.
pub open spec fn is_section_end(t: Seq<char>) -> bool {
    t.len() == 0 || t[0] == '*'
}

/// The node that a (trimmed) line of a node section gives: at least three
/// fields, an ID and two coordinates, make a node; shorter lines give none.
pub open spec fn node_line(t: Seq<char>) -> Result<Option<NodeRecord>, Seq<char>> {
    let p = fields(t);
    if p.len() < 3 {
        Ok(None)
    } else if parse_usize(p[0]) is None {
        Err("Invalid node ID: "@ + p[0])
    } else if !is_float_literal(p[1]) {
        Err("Invalid X coordinate: "@ + p[1])
    } else if !is_float_literal(p[2]) {
        Err("Invalid Y coordinate: "@ + p[2])
    } else {
        Ok(Some(NodeRecord { id: parse_usize(p[0])->0, x: p[1], y: p[2] }))
    }
}

/// Reading a (trimmed) line of a node section.
pub open spec fn read_node_line(st: ReadState, t: Seq<char>) -> Result<ReadState, Seq<char>> {
    match node_line(t) {
        Err(m) => Err(m),
        Ok(None) => Ok(st),
        Ok(Some(r)) => Ok(ReadState { nodes: st.nodes.push(r), ..st }),
    }
}

/// A node line written as its ID, a comma, the X text, a comma and the Y
/// text reads back as that node, for any ID and any coordinate texts in
/// the accepted number syntax (without commas or surrounding whitespace).
pub proof fn lemma_node_line_reads_back(id: usize, x: Seq<char>, y: Seq<char>)
    requires
        is_float_literal(x),
        is_float_literal(y),
        free_of(x, ','),
        free_of(y, ','),
        trim(x) == x,
        trim(y) == y,
    ensures
        node_line(decimal(id as nat) + ","@ + x + ","@ + y) == Ok::<Option<NodeRecord>, Seq<char>>(
            Some(NodeRecord { id, x, y }),
        ),
{
    let e = Seq::<char>::empty();
    let d = decimal(id as nat);
    let t = d + ","@ + x + ","@ + y;
    reveal_strlit(",");
    assert(","@ =~= seq![',']);
    lemma_split_on_sep(',');
    assert(seq![e, e].skip(1) =~= seq![e]);
    lemma_decimal_free(id as nat, ',');
    lemma_split_on_word(d, ',');
    lemma_split_on_word(x, ',');
    lemma_split_on_word(y, ',');
    lemma_split_on_concat(d, ","@, ',');
    assert(d + e =~= d);
    assert(split_on(d + ","@, ',') =~= seq![d, e]);
    lemma_split_on_concat(d + ","@, x, ',');
    assert(e + x =~= x);
    assert(seq![x].skip(1) =~= Seq::<Seq<char>>::empty());
    assert(split_on(d + ","@ + x, ',') =~= seq![d, x]);
    lemma_split_on_concat(d + ","@ + x, ","@, ',');
    assert(x + e =~= x);
    assert(split_on(d + ","@ + x + ","@, ',') =~= seq![d, x, e]);
    lemma_split_on_concat(d + ","@ + x + ","@, y, ',');
    assert(e + y =~= y);
    assert(seq![y].skip(1) =~= Seq::<Seq<char>>::empty());
    assert(split_on(t, ',') =~= seq![d, x, y]);
    lemma_split_fields_on_comma(t);
    lemma_trim_decimal(id as nat);
    assert(fields(t) =~= seq![d, x, y]);
    lemma_parse_decimal(id);
}

/// Node IDs written as numerals read back as those IDs.
proof fn lemma_node_ids_read_back(p: Seq<Seq<char>>, ids: Seq<NodeId>, k: nat)
    requires
        k <= ids.len(),
        p.len() == ids.len() + 1,
        forall|j: int| 0 <= j < ids.len() ==> p[j + 1] == decimal(#[trigger] ids[j] as nat),
    ensures
        parse_node_ids(p, k) == Ok::<Seq<NodeId>, Seq<char>>(ids.take(k as int)),
    decreases k,
{
    if k == 0 {
        assert(ids.take(0) =~= Seq::<NodeId>::empty());
    } else {
        lemma_node_ids_read_back(p, ids, (k - 1) as nat);
        let j = k - 1;
        assert(p[j + 1] == decimal(ids[j] as nat));
        lemma_parse_decimal(ids[j]);
        assert(ids.take(k as int) =~= ids.take(j as int).push(ids[j]));
    }
}

/// An element line written as its ID and then a comma and the numeral of
/// each node ID reads back, in a section of the element's kind, as that
/// element with those node IDs in order.
pub proof fn lemma_element_line_reads_back(ty: ElementType, id: usize, ids: Seq<NodeId>)
    requires
        ids.len() == ty.spec_num_nodes(),
    ensures
        element_line(ty, decimal(id as nat) + node_cells(ids)) == Ok::<
            Option<ElementView>,
            Seq<char>,
        >(Some(ElementView { id, element_type: ty, node_ids: ids })),
{
    let e = Seq::<char>::empty();
    let d = decimal(id as nat);
    let t = d + node_cells(ids);
    let m = ids.map_values(|q: NodeId| decimal(q as nat));
    lemma_decimal_free(id as nat, ',');
    lemma_split_on_word(d, ',');
    lemma_split_node_cells(ids);
    lemma_split_on_concat(d, node_cells(ids), ',');
    assert(d + e =~= d);
    assert((seq![e] + m).skip(1) =~= m);
    assert(split_on(t, ',') =~= seq![d] + m);
    lemma_split_fields_on_comma(t);
    lemma_trim_decimal(id as nat);
    assert forall|j: int| 0 <= j < m.len() implies trim(#[trigger] m[j]) == m[j] by {
        lemma_trim_decimal(ids[j] as nat);
    }
    let p = fields(t);
    assert(p =~= seq![d] + m);
    lemma_parse_decimal(id);
    assert forall|j: int| 0 <= j < ids.len() implies p[j + 1] == decimal(#[trigger] ids[j] as nat) by {
        assert(p[j + 1] == m[j]);
    }
    lemma_node_ids_read_back(p, ids, ids.len());
    assert(ids.take(ids.len() as int) =~= ids);
}

/// The node IDs in fields `1..=k`, or the message for the first that is
/// not one.
pub open spec fn parse_node_ids(p: Seq<Seq<char>>, k: nat) -> Result<Seq<NodeId>, Seq<char>>
    decreases k,
{
    if k == 0 {
        Ok(Seq::empty())
    } else {
        match parse_node_ids(p, (k - 1) as nat) {
            Err(m) => Err(m),
            Ok(ids) => match parse_usize(p[k as int]) {
                Some(id) => Ok(ids.push(id)),
                None => Err("Invalid node ID: "@ + p[k as int]),
            },
        }
    }
}

/// The element that a (trimmed) line of an element section of kind `ty`
/// gives: an ID and as many node IDs as the kind has nodes make an element;
/// shorter lines give none.
pub open spec fn element_line(ty: ElementType, t: Seq<char>) -> Result<Option<ElementView>, Seq<char>> {
    let p = fields(t);
    if p.len() < ty.spec_num_nodes() + 1 {
        Ok(None)
    } else {
        match parse_usize(p[0]) {
            None => Err("Invalid element ID: "@ + p[0]),
            Some(id) => match parse_node_ids(p, ty.spec_num_nodes()) {
                Err(m) => Err(m),
                Ok(ids) => Ok(Some(ElementView { id, element_type: ty, node_ids: ids })),
            },
        }
    }
}

/// Reading a (trimmed) line of an element section.
pub open spec fn read_element_line(st: ReadState, ty: ElementType, t: Seq<char>) -> Result<
    ReadState,
    Seq<char>,
> {
    match element_line(ty, t) {
        Err(m) => Err(m),
        Ok(None) => Ok(st),
        Ok(Some(e)) => Ok(ReadState { elements: st.elements.push(e), ..st }),
    }
}

/// Reading a (trimmed) line outside any section.
pub open spec fn read_top_line(st: ReadState, t: Seq<char>) -> Result<ReadState, Seq<char>> {
    if starts_with(t, "*Node"@) {
        Ok(ReadState { section: Section::Nodes, ..st })
    } else if starts_with(t, "*Element"@) {
        match header_element_type(t) {
            Some(ty) => Ok(ReadState { section: Section::Elements(ty), ..st }),
            None => Err(unsupported_type_message()),
        }
    } else {
        Ok(ReadState { section: Section::Top, ..st })
    }
}

/// Reading one (trimmed) line.
pub open spec fn read_line(st: ReadState, t: Seq<char>) -> Result<ReadState, Seq<char>> {
    match st.section {
        Section::Top => read_top_line(st, t),
        Section::Nodes => if is_section_end(t) {
            read_top_line(st, t)
        } else {
            read_node_line(st, t)
        },
        Section::Elements(ty) => if is_section_end(t) {
            read_top_line(st, t)
        } else {
            read_element_line(st, ty, t)
        },
    }
}

/// Reading the lines in order, from outside any section; the first error
/// ends the reading.
pub open spec fn read_lines(lines: Seq<Seq<char>>) -> Result<ReadState, Seq<char>>
    decreases lines.len(),
{
    if lines.len() == 0 {
        Ok(ReadState { section: Section::Top, nodes: Seq::empty(), elements: Seq::empty() })
    } else {
        match read_lines(lines.drop_last()) {
            Err(m) => Err(m),
            Ok(st) => read_line(st, trim(lines.last())),
        }
    }
}

/// The position that each ID was last seen at.
pub open spec fn index_of_ids(ids: Seq<usize>) -> Map<usize, usize>
    decreases ids.len(),
{
    if ids.len() == 0 {
        Map::empty()
    } else {
        index_of_ids(ids.drop_last()).insert(ids.last(), (ids.len() - 1) as usize)
    }
}

/// The texts of the lines.
pub open spec fn line_texts(lines: Seq<String>) -> Seq<Seq<char>> {
    lines.map_values(|l: String| l@)
}

/// `n` is the node that the record describes.
pub open spec fn node_matches(n: Node<CoordinateText>, r: NodeRecord) -> bool {
    &&& n.spec_id() == r.id
    &&& n.spec_coordinates().x@ == r.x
    &&& n.spec_coordinates().y@ == r.y
}

/// `m` is the mesh made of these nodes and elements, added in order.
pub open spec fn mesh_holds(
    m: MeshView<CoordinateText>,
    nodes: Seq<NodeRecord>,
    elements: Seq<ElementView>,
) -> bool {
    &&& m.nodes.len() == nodes.len()
    &&& forall|i: int| 0 <= i < nodes.len() ==> node_matches(#[trigger] m.nodes[i], nodes[i])
    &&& m.node_index == index_of_ids(nodes.map_values(|r: NodeRecord| r.id))
    &&& m.elements == elements
    &&& m.element_index == index_of_ids(elements.map_values(|e: ElementView| e.id))
}

/// The nodes that the lines of a node section give, in order, or the
/// message of the first line that is not a valid node line.
pub open spec fn section_nodes(ts: Seq<Seq<char>>) -> Result<Seq<NodeRecord>, Seq<char>>
    decreases ts.len(),
{
    if ts.len() == 0 {
        Ok(Seq::empty())
    } else {
        match section_nodes(ts.drop_last()) {
            Err(m) => Err(m),
            Ok(rs) => match node_line(trim(ts.last())) {
                Err(m) => Err(m),
                Ok(None) => Ok(rs),
                Ok(Some(r)) => Ok(rs.push(r)),
            },
        }
    }
}

/// The elements that the lines of an element section of kind `ty` give, in
/// order, or the message of the first line that is not a valid element line.
pub open spec fn section_elements(ty: ElementType, ts: Seq<Seq<char>>) -> Result<
    Seq<ElementView>,
    Seq<char>,
>
    decreases ts.len(),
{
    if ts.len() == 0 {
        Ok(Seq::empty())
    } else {
        match section_elements(ty, ts.drop_last()) {
            Err(m) => Err(m),
            Ok(es) => match element_line(ty, trim(ts.last())) {
                Err(m) => Err(m),
                Ok(None) => Ok(es),
                Ok(Some(e)) => Ok(es.push(e)),
            },
        }
    }
}

/// The lookup `index` after the IDs `ids` are added at positions `base`,
/// `base + 1`, and so on.
pub open spec fn index_after(index: Map<usize, usize>, ids: Seq<usize>, base: int) -> Map<
    usize,
    usize,
>
    decreases ids.len(),
{
    if ids.len() == 0 {
        index
    } else {
        index_after(index, ids.drop_last(), base).insert(ids.last(), (base + ids.len() - 1) as usize)
    }
}

/// `new` is `old` with the nodes of the records added at the end, in order.
pub open spec fn nodes_appended(
    old: MeshView<CoordinateText>,
    new: MeshView<CoordinateText>,
    rs: Seq<NodeRecord>,
) -> bool {
    &&& new.elements == old.elements
    &&& new.element_index == old.element_index
    &&& new.nodes.len() == old.nodes.len() + rs.len()
    &&& forall|i: int| 0 <= i < old.nodes.len() ==> #[trigger] new.nodes[i] == old.nodes[i]
    &&& forall|i: int| 0 <= i < rs.len() ==> node_matches(new.nodes[old.nodes.len() + i], #[trigger] rs[i])
    &&& new.node_index == index_after(
        old.node_index,
        rs.map_values(|r: NodeRecord| r.id),
        old.nodes.len() as int,
    )
}

/// `new` is `old` with the elements `es` added at the end, in order.
pub open spec fn elements_appended<P>(old: MeshView<P>, new: MeshView<P>, es: Seq<ElementView>) -> bool {
    &&& new.nodes == old.nodes
    &&& new.node_index == old.node_index
    &&& new.elements == old.elements + es
    &&& new.element_index == index_after(
        old.element_index,
        es.map_values(|e: ElementView| e.id),
        old.elements.len() as int,
    )
}

/// Reading a node section that starts at line `start` stops with message
/// `m` at line `k`, no line from `start` to `k` ending the section, and
/// `new` is `old` with the nodes of the lines before `k`.
pub open spec fn node_section_fails_at(
    old: MeshView<CoordinateText>,
    new: MeshView<CoordinateText>,
    texts: Seq<Seq<char>>,
    start: int,
    k: int,
    m: Seq<char>,
) -> bool {
    &&& start <= k < texts.len()
    &&& forall|q: int| start <= q <= k ==> !is_section_end(#[trigger] trim(texts[q]))
    &&& section_nodes(texts.subrange(start, k)) matches Ok(rs) && nodes_appended(old, new, rs)
    &&& node_line(trim(texts[k])) == Err::<Option<NodeRecord>, Seq<char>>(m)
}

/// Reading an element section of kind `ty` that starts at line `start`
/// stops with message `m` at line `k`, no line from `start` to `k` ending
/// the section, and `new` is `old` with the elements of the lines before `k`.
pub open spec fn element_section_fails_at<P>(
    old: MeshView<P>,
    new: MeshView<P>,
    ty: ElementType,
    texts: Seq<Seq<char>>,
    start: int,
    k: int,
    m: Seq<char>,
) -> bool {
    &&& start <= k < texts.len()
    &&& forall|q: int| start <= q <= k ==> !is_section_end(#[trigger] trim(texts[q]))
    &&& section_elements(ty, texts.subrange(start, k)) matches Ok(es) && elements_appended(
        old,
        new,
        es,
    )
    &&& element_line(ty, trim(texts[k])) == Err::<Option<ElementView>, Seq<char>>(m)
}

/// Adding IDs after those of `a` gives the lookup of `a` followed by them.
proof fn lemma_index_after(a: Seq<usize>, b: Seq<usize>)
    ensures
        index_after(index_of_ids(a), b, a.len() as int) == index_of_ids(a + b),
    decreases b.len(),
{
    if b.len() == 0 {
        assert(a + b =~= a);
    } else {
        lemma_index_after(a, b.drop_last());
        assert((a + b).drop_last() =~= a + b.drop_last());
    }
}

/// Adding a node keeps `nodes_appended` with one more record.
proof fn lemma_nodes_appended_step(
    old: MeshView<CoordinateText>,
    m: MeshView<CoordinateText>,
    rs: Seq<NodeRecord>,
    r: NodeRecord,
    c: CoordinateText,
)
    requires
        nodes_appended(old, m, rs),
        c.x@ == r.x,
        c.y@ == r.y,
    ensures
        nodes_appended(old, m.add_node(r.id, c), rs.push(r)),
{
    Node::<CoordinateText>::lemma_node_parts(r.id, c);
    let m2 = m.add_node(r.id, c);
    let ids = rs.map_values(|q: NodeRecord| q.id);
    assert(rs.push(r).map_values(|q: NodeRecord| q.id) =~= ids.push(r.id));
    assert(ids.push(r.id).drop_last() =~= ids);
    assert forall|i: int| 0 <= i < old.nodes.len() implies #[trigger] m2.nodes[i] == old.nodes[i] by {
        assert(m2.nodes[i] == m.nodes[i]);
    }
    assert forall|i: int| 0 <= i < rs.push(r).len() implies node_matches(
        m2.nodes[old.nodes.len() + i],
        #[trigger] rs.push(r)[i],
    ) by {
        if i < rs.len() {
            assert(rs.push(r)[i] == rs[i]);
            assert(m2.nodes[old.nodes.len() + i] == m.nodes[old.nodes.len() + i]);
        } else {
            assert(m2.nodes[old.nodes.len() + i] == Node::<CoordinateText>::spec_new(r.id, c));
        }
    }
}

/// Adding an element keeps `elements_appended` with one more element.
proof fn lemma_elements_appended_step<P>(
    old: MeshView<P>,
    m: MeshView<P>,
    es: Seq<ElementView>,
    e: ElementView,
)
    requires
        elements_appended(old, m, es),
    ensures
        elements_appended(old, m.add_element(e.id, e.element_type, e.node_ids), es.push(e)),
{
    let ids = es.map_values(|q: ElementView| q.id);
    assert(es.push(e).map_values(|q: ElementView| q.id) =~= ids.push(e.id));
    assert(ids.push(e.id).drop_last() =~= ids);
    assert(old.elements + es.push(e) =~= (old.elements + es).push(e));
}

/// A mesh made of some records, with the nodes of more records appended, is
/// made of all of them.
proof fn lemma_holds_after_nodes(
    m: MeshView<CoordinateText>,
    m2: MeshView<CoordinateText>,
    nodes: Seq<NodeRecord>,
    elements: Seq<ElementView>,
    rs: Seq<NodeRecord>,
)
    requires
        mesh_holds(m, nodes, elements),
        nodes_appended(m, m2, rs),
    ensures
        mesh_holds(m2, nodes + rs, elements),
{
    let all = nodes + rs;
    assert forall|i: int| 0 <= i < all.len() implies node_matches(#[trigger] m2.nodes[i], all[i]) by {
        if i < nodes.len() {
            assert(m2.nodes[i] == m.nodes[i]);
        } else {
            let k = i - nodes.len();
            assert(rs[k] == all[i]);
            assert(node_matches(m2.nodes[m.nodes.len() + k], rs[k]));
        }
    }
    let a = nodes.map_values(|r: NodeRecord| r.id);
    let b = rs.map_values(|r: NodeRecord| r.id);
    assert(all.map_values(|r: NodeRecord| r.id) =~= a + b);
    lemma_index_after(a, b);
}

/// A mesh made of some elements, with more elements appended, is made of
/// all of them.
proof fn lemma_holds_after_elements(
    m: MeshView<CoordinateText>,
    m2: MeshView<CoordinateText>,
    nodes: Seq<NodeRecord>,
    elements: Seq<ElementView>,
    es: Seq<ElementView>,
)
    requires
        mesh_holds(m, nodes, elements),
        elements_appended(m, m2, es),
    ensures
        mesh_holds(m2, nodes, elements + es),
{
    let a = elements.map_values(|e: ElementView| e.id);
    let b = es.map_values(|e: ElementView| e.id);
    assert((elements + es).map_values(|e: ElementView| e.id) =~= a + b);
    lemma_index_after(a, b);
}

/// Reading the lines of a node section that has not ended adds the nodes
/// of those lines.
proof fn lemma_read_node_section(texts: Seq<Seq<char>>, s: int, j: int, st: ReadState)
    requires
        0 <= s <= j <= texts.len(),
        read_lines(texts.take(s)) == Ok::<ReadState, Seq<char>>(st),
        st.section == Section::Nodes,
        forall|q: int| s <= q < j ==> !is_section_end(#[trigger] trim(texts[q])),
    ensures
        read_lines(texts.take(j)) == match section_nodes(texts.subrange(s, j)) {
            Ok(rs) => Ok(ReadState { nodes: st.nodes + rs, ..st }),
            Err(m) => Err::<ReadState, Seq<char>>(m),
        },
    decreases j - s,
{
    if j == s {
        assert(texts.subrange(s, j) =~= Seq::<Seq<char>>::empty());
        assert(st.nodes + Seq::<NodeRecord>::empty() =~= st.nodes);
    } else {
        lemma_read_node_section(texts, s, j - 1, st);
        lemma_read_next(texts, j - 1);
        assert(texts.subrange(s, j).drop_last() =~= texts.subrange(s, j - 1));
        assert(texts.subrange(s, j).last() == texts[j - 1]);
        assert(!is_section_end(trim(texts[j - 1])));
        match section_nodes(texts.subrange(s, j - 1)) {
            Ok(rs) => {
                match node_line(trim(texts[j - 1])) {
                    Ok(Some(r)) => {
                        assert(st.nodes + rs.push(r) =~= (st.nodes + rs).push(r));
                    },
                    _ => {},
                }
            },
            Err(_) => {},
        }
    }
}

/// Reading the lines of an element section that has not ended adds the
/// elements of those lines.
proof fn lemma_read_element_section(
    texts: Seq<Seq<char>>,
    ty: ElementType,
    s: int,
    j: int,
    st: ReadState,
)
    requires
        0 <= s <= j <= texts.len(),
        read_lines(texts.take(s)) == Ok::<ReadState, Seq<char>>(st),
        st.section == Section::Elements(ty),
        forall|q: int| s <= q < j ==> !is_section_end(#[trigger] trim(texts[q])),
    ensures
        read_lines(texts.take(j)) == match section_elements(ty, texts.subrange(s, j)) {
            Ok(es) => Ok(ReadState { elements: st.elements + es, ..st }),
            Err(m) => Err::<ReadState, Seq<char>>(m),
        },
    decreases j - s,
{
    if j == s {
        assert(texts.subrange(s, j) =~= Seq::<Seq<char>>::empty());
        assert(st.elements + Seq::<ElementView>::empty() =~= st.elements);
    } else {
        lemma_read_element_section(texts, ty, s, j - 1, st);
        lemma_read_next(texts, j - 1);
        assert(texts.subrange(s, j).drop_last() =~= texts.subrange(s, j - 1));
        assert(texts.subrange(s, j).last() == texts[j - 1]);
        assert(!is_section_end(trim(texts[j - 1])));
        match section_elements(ty, texts.subrange(s, j - 1)) {
            Ok(es) => {
                match element_line(ty, trim(texts[j - 1])) {
                    Ok(Some(e)) => {
                        assert(st.elements + es.push(e) =~= (st.elements + es).push(e));
                    },
                    _ => {},
                }
            },
            Err(_) => {},
        }
    }
}

/// Once reading has failed, more lines do not change the outcome.
proof fn lemma_error_persists(lines: Seq<Seq<char>>, k: int)
    requires
        0 <= k <= lines.len(),
        read_lines(lines.take(k)) is Err,
    ensures
        read_lines(lines) == read_lines(lines.take(k)),
    decreases lines.len() - k,
{
    if k == lines.len() {
        assert(lines.take(k) =~= lines);
    } else {
        let init = lines.drop_last();
        assert(init.take(k) =~= lines.take(k));
        lemma_error_persists(init, k);
    }
}

/// Reading one more line.
proof fn lemma_read_next(lines: Seq<Seq<char>>, i: int)
    requires
        0 <= i < lines.len(),
    ensures
        read_lines(lines.take(i + 1)) == match read_lines(lines.take(i)) {
            Err(m) => Err(m),
            Ok(st) => read_line(st, trim(lines[i])),
        },
{
    assert(lines.take(i + 1).drop_last() =~= lines.take(i));
}

/// Loader of Abaqus input files.
pub struct AbaqusLoader;

impl AbaqusLoader {
    /// The element kind that an upper-cased `*Element` header names: the
    /// first of `TYPE=CPS3`/`TYPE=CPE3`, `TYPE=CPS4`/`TYPE=CPE4`,
    /// `TYPE=CPS6`/`TYPE=CPE6`, `TYPE=CPS8`/`TYPE=CPE8` that it contains.
    pub fn element_type_from_uppercase(upper: &str) -> (r: Result<ElementType, FemError>)
        ensures
            match element_type_of_uppercase(upper@) {
                Some(t) => r == Ok::<ElementType, FemError>(t),
                None => r matches Err(e) && is_parse_error(e, unsupported_type_message()),
            },
    {
        let u = chars_of(upper);
        if contains_chars(&u, &chars_of("TYPE=CPS3")) || contains_chars(&u, &chars_of("TYPE=CPE3")) {
            Ok(ElementType::Triangle3)
        } else if contains_chars(&u, &chars_of("TYPE=CPS4")) || contains_chars(
            &u,
            &chars_of("TYPE=CPE4"),
        ) {
            Ok(ElementType::Quadrilateral4)
        } else if contains_chars(&u, &chars_of("TYPE=CPS6")) || contains_chars(
            &u,
            &chars_of("TYPE=CPE6"),
        ) {
            Ok(ElementType::Triangle6)
        } else if contains_chars(&u, &chars_of("TYPE=CPS8")) || contains_chars(
            &u,
            &chars_of("TYPE=CPE8"),
        ) {
            Ok(ElementType::Quadrilateral8)
        } else {
            Err(FemError::ParseError(String::from_str("Unsupported element type in Abaqus file")))
        }
    }

    /// The element kind that an `*Element` header names, letter case
    /// ignored as `str::to_uppercase` ignores it.
    pub fn parse_element_header(header: &str) -> (r: Result<ElementType, FemError>)
        ensures
            match header_element_type(header@) {
                Some(t) => r == Ok::<ElementType, FemError>(t),
                None => r matches Err(e) && is_parse_error(e, unsupported_type_message()),
            },
    {
        let upper = to_uppercase(header);
        Self::element_type_from_uppercase(upper.as_str())
    }
}


impl AbaqusLoader {
    /// Reads the node section whose first line is `start`, adding its nodes
    /// to `mesh`, and returns the line that ends it (empty or beginning with
    /// `*`; the number of lines if none does). Lines with fewer than three
    /// fields are skipped. On a line with a bad ID or coordinate it stops
    /// with that line's message, the nodes of the lines before it added.
    fn parse_nodes(lines: &[String], start: usize, mesh: &mut Mesh<CoordinateText>) -> (r: Result<
        usize,
        FemError,
    >)
        requires
            start <= lines@.len(),
        ensures
            match r {
                Ok(j) => {
                    &&& start <= j <= lines@.len()
                    &&& forall|k: int|
                        start <= k < j ==> !is_section_end(#[trigger] trim(line_texts(lines@)[k]))
                    &&& j < lines@.len() ==> is_section_end(trim(line_texts(lines@)[j as int]))
                    &&& section_nodes(line_texts(lines@).subrange(start as int, j as int)) matches Ok(
                        rs,
                    ) && nodes_appended(old(mesh)@, final(mesh)@, rs)
                },
                Err(e) => e matches FemError::ParseError(m) && exists|k: int|
                    #[trigger] node_section_fails_at(
                        old(mesh)@,
                        final(mesh)@,
                        line_texts(lines@),
                        start as int,
                        k,
                        m@,
                    ),
            },
    {
        let ghost texts = line_texts(lines@);
        let mut i = start;
        proof {
            assert(texts.subrange(start as int, start as int) =~= Seq::<Seq<char>>::empty());
            assert(mesh@.nodes.len() == old(mesh)@.nodes.len() + 0);
            assert(Seq::<NodeRecord>::empty().map_values(|r: NodeRecord| r.id) =~= Seq::<
                usize,
            >::empty());
        }
        while i < lines.len()
            invariant
                start <= i <= lines@.len(),
                texts == line_texts(lines@),
                forall|k: int| start <= k < i ==> !is_section_end(#[trigger] trim(texts[k])),
                section_nodes(texts.subrange(start as int, i as int)) matches Ok(rs)
                    && nodes_appended(old(mesh)@, mesh@, rs),
            decreases lines@.len() - i,
        {
            let line = chars_of(lines[i].as_str());
            let (a, b) = trim_range(&line, 0, line.len());
            let ghost rs = section_nodes(texts.subrange(start as int, i as int))->Ok_0;
            proof {
                assert(line@.subrange(0, line@.len() as int) =~= line@);
                assert(texts[i as int] == line@);
                assert(texts.subrange(start as int, i + 1).drop_last() =~= texts.subrange(
                    start as int,
                    i as int,
                ));
                assert(texts.subrange(start as int, i + 1).last() == texts[i as int]);
            }
            let ghost t = line@.subrange(a as int, b as int);
            assert(t == trim(texts[i as int]));
            if a == b || line[a] == '*' {
                return Ok(i);
            }
            assert(!is_section_end(t));
            let parts = field_ranges(&line, a, b);
            let ghost p = fields(t);
            assert(range_texts(line@, parts@) == p);
            assert(parts@.len() == p.len());
            if parts.len() >= 3 {
                let (i0, j0) = parts[0];
                let (i1, j1) = parts[1];
                let (i2, j2) = parts[2];
                assert(p[0] == line@.subrange(i0 as int, j0 as int));
                assert(p[1] == line@.subrange(i1 as int, j1 as int));
                assert(p[2] == line@.subrange(i2 as int, j2 as int));
                let id_found = parse_usize_range(&line, i0, j0);
                let x_ok = is_float_literal_range(&line, i1, j1);
                let y_ok = is_float_literal_range(&line, i2, j2);
                let bad: Option<String> = if id_found.is_none() {
                    Some(message_with("Invalid node ID: ", &line, i0, j0))
                } else if !x_ok {
                    Some(message_with("Invalid X coordinate: ", &line, i1, j1))
                } else if !y_ok {
                    Some(message_with("Invalid Y coordinate: ", &line, i2, j2))
                } else {
                    None
                };
                if let Some(msg) = bad {
                    assert(node_section_fails_at(
                        old(mesh)@,
                        mesh@,
                        texts,
                        start as int,
                        i as int,
                        msg@,
                    ));
                    let e = FemError::ParseError(msg);
                    assert(e is ParseError);
                    assert(e->ParseError_0 == msg);
                    assert(e matches FemError::ParseError(m) && exists|k: int|
                        #[trigger] node_section_fails_at(
                            old(mesh)@,
                            mesh@,
                            line_texts(lines@),
                            start as int,
                            k,
                            m@,
                        ));
                    return Err(e);
                }
                let node_id = id_found.unwrap();
                let coords = CoordinateText {
                    x: message_with("", &line, i1, j1),
                    y: message_with("", &line, i2, j2),
                };
                proof {
                    assert(""@ + p[1] =~= p[1]) by {
                        reveal_strlit("");
                    }
                    assert(""@ + p[2] =~= p[2]) by {
                        reveal_strlit("");
                    }
                    lemma_nodes_appended_step(
                        old(mesh)@,
                        mesh@,
                        rs,
                        NodeRecord { id: node_id, x: p[1], y: p[2] },
                        coords,
                    );
                }
                mesh.add_node(node_id, coords);
            }
            i += 1;
        }
        Ok(i)
    }
}

impl AbaqusLoader {
    /// Reads the element section of kind `elem_type` whose first line is
    /// `start`, adding its elements to `mesh`, and returns the line that
    /// ends it (empty or beginning with `*`; the number of lines if none
    /// does). Lines with fewer fields than an ID and the kind's node count
    /// are skipped; fields past those are ignored. On a line with a bad ID
    /// it stops with that line's message, the elements of the lines before
    /// it added.
    fn parse_elements(
        lines: &[String],
        start: usize,
        mesh: &mut Mesh<CoordinateText>,
        elem_type: ElementType,
    ) -> (r: Result<usize, FemError>)
        requires
            start <= lines@.len(),
        ensures
            match r {
                Ok(j) => {
                    &&& start <= j <= lines@.len()
                    &&& forall|k: int|
                        start <= k < j ==> !is_section_end(#[trigger] trim(line_texts(lines@)[k]))
                    &&& j < lines@.len() ==> is_section_end(trim(line_texts(lines@)[j as int]))
                    &&& section_elements(
                        elem_type,
                        line_texts(lines@).subrange(start as int, j as int),
                    ) matches Ok(es) && elements_appended(old(mesh)@, final(mesh)@, es)
                },
                Err(e) => e matches FemError::ParseError(m) && exists|k: int|
                    #[trigger] element_section_fails_at(
                        old(mesh)@,
                        final(mesh)@,
                        elem_type,
                        line_texts(lines@),
                        start as int,
                        k,
                        m@,
                    ),
            },
    {
        let ghost texts = line_texts(lines@);
        let n = elem_type.num_nodes();
        let mut i = start;
        proof {
            assert(texts.subrange(start as int, start as int) =~= Seq::<Seq<char>>::empty());
            assert(mesh@.elements =~= old(mesh)@.elements + Seq::<ElementView>::empty());
            assert(Seq::<ElementView>::empty().map_values(|e: ElementView| e.id) =~= Seq::<
                usize,
            >::empty());
        }
        while i < lines.len()
            invariant
                start <= i <= lines@.len(),
                texts == line_texts(lines@),
                n == elem_type.spec_num_nodes(),
                forall|k: int| start <= k < i ==> !is_section_end(#[trigger] trim(texts[k])),
                section_elements(elem_type, texts.subrange(start as int, i as int)) matches Ok(es)
                    && elements_appended(old(mesh)@, mesh@, es),
            decreases lines@.len() - i,
        {
            let line = chars_of(lines[i].as_str());
            let (a, b) = trim_range(&line, 0, line.len());
            let ghost es = section_elements(elem_type, texts.subrange(start as int, i as int))->Ok_0;
            proof {
                assert(line@.subrange(0, line@.len() as int) =~= line@);
                assert(texts[i as int] == line@);
                assert(texts.subrange(start as int, i + 1).drop_last() =~= texts.subrange(
                    start as int,
                    i as int,
                ));
                assert(texts.subrange(start as int, i + 1).last() == texts[i as int]);
            }
            let ghost t = line@.subrange(a as int, b as int);
            assert(t == trim(texts[i as int]));
            if a == b || line[a] == '*' {
                return Ok(i);
            }
            assert(!is_section_end(t));
            let parts = field_ranges(&line, a, b);
            let ghost p = fields(t);
            assert(range_texts(line@, parts@) == p);
            assert(parts@.len() == p.len());
            if parts.len() >= n + 1 {
                assert forall|k: int| 0 <= k < parts@.len() implies #[trigger] parts@[k].0
                    <= parts@[k].1 <= line@.len() by {
                    assert(a <= parts@[k].0 <= parts@[k].1 <= b);
                }
                let (elem_id, connectivity) = match Self::element_fields(&line, &parts, n) {
                    Ok(found) => found,
                    Err(e) => {
                        assert(element_section_fails_at(
                            old(mesh)@,
                            mesh@,
                            elem_type,
                            texts,
                            start as int,
                            i as int,
                            element_line(elem_type, t)->Err_0,
                        ));
                        return Err(e);
                    },
                };
                let ghost ids = connectivity@;
                proof {
                    lemma_node_ids_len(p, n as nat);
                    lemma_elements_appended_step(
                        old(mesh)@,
                        mesh@,
                        es,
                        ElementView { id: elem_id, element_type: elem_type, node_ids: ids },
                    );
                }
                match mesh.add_element(elem_id, elem_type, connectivity) {
                    Ok(()) => {},
                    Err(e) => {
                        return Err(e);
                    },
                }
            }
            i += 1;
        }
        Ok(i)
    }
}

impl AbaqusLoader {
    /// The element ID and the `n` node IDs in the fields of an element line.
    fn element_fields(line: &Vec<char>, parts: &Vec<(usize, usize)>, n: usize) -> (r: Result<
        (usize, Vec<NodeId>),
        FemError,
    >)
        requires
            n + 1 <= parts@.len(),
            forall|k: int|
                0 <= k < parts@.len() ==> #[trigger] parts@[k].0 <= parts@[k].1 <= line@.len(),
        ensures
            ({
                let p = range_texts(line@, parts@);
                match parse_usize(p[0]) {
                    None => r matches Err(e) && is_parse_error(e, "Invalid element ID: "@ + p[0]),
                    Some(id) => match parse_node_ids(p, n as nat) {
                        Err(m) => r matches Err(e) && is_parse_error(e, m),
                        Ok(ids) => r matches Ok(found) && found.0 == id && found.1@ == ids,
                    },
                }
            }),
    {
        let ghost p = range_texts(line@, parts@);
        let (i0, j0) = parts[0];
        assert(p[0] == line@.subrange(i0 as int, j0 as int));
        let elem_id = match parse_usize_range(line, i0, j0) {
            Some(v) => v,
            None => {
                return Err(FemError::ParseError(message_with("Invalid element ID: ", line, i0, j0)));
            },
        };
        let mut connectivity: Vec<NodeId> = Vec::new();
        let mut j: usize = 1;
        assert(parts@.len() == parts.len());
        while j <= n
            invariant
                1 <= j <= n + 1,
                n < usize::MAX,
                n + 1 <= parts@.len(),
                p == range_texts(line@, parts@),
                parse_usize(p[0]) == Some(elem_id),
                forall|k: int|
                    0 <= k < parts@.len() ==> #[trigger] parts@[k].0 <= parts@[k].1 <= line@.len(),
                parse_node_ids(p, (j - 1) as nat) == Ok::<Seq<NodeId>, Seq<char>>(connectivity@),
            decreases n + 1 - j,
        {
            let (ij, jj) = parts[j];
            assert(p[j as int] == line@.subrange(ij as int, jj as int));
            match parse_usize_range(line, ij, jj) {
                Some(v) => {
                    connectivity.push(v);
                },
                None => {
                    proof {
                        lemma_node_ids_error_stays(p, j as nat, n as nat);
                    }
                    return Err(FemError::ParseError(message_with("Invalid node ID: ", line, ij, jj)));
                },
            }
            j += 1;
        }
        Ok((elem_id, connectivity))
    }
}

/// Reading node IDs from fields `1..=k` gives `k` of them.
proof fn lemma_node_ids_len(p: Seq<Seq<char>>, k: nat)
    requires
        parse_node_ids(p, k) is Ok,
    ensures
        parse_node_ids(p, k)->Ok_0.len() == k,
    decreases k,
{
    if k > 0 {
        lemma_node_ids_len(p, (k - 1) as nat);
    }
}

/// Once a node ID fails to read, reading more fields fails the same way.
proof fn lemma_node_ids_error_stays(p: Seq<Seq<char>>, j: nat, k: nat)
    requires
        j <= k,
        parse_node_ids(p, j) is Err,
    ensures
        parse_node_ids(p, k) == parse_node_ids(p, j),
    decreases k - j,
{
    if j < k {
        lemma_node_ids_error_stays(p, j, (k - 1) as nat);
    }
}

/// What reading the lines of an input file gives: the error message of the
/// first offending line; the empty-mesh message when there is no node or no
/// element; or else the mesh of all nodes and elements, in file order.
pub open spec fn read_result_holds(lines: Seq<String>, r: Result<Mesh<CoordinateText>, FemError>) -> bool {
    match read_lines(line_texts(lines)) {
        Err(m) => r matches Err(e) && is_parse_error(e, m),
        Ok(st) => if st.nodes.len() == 0 || st.elements.len() == 0 {
            r matches Err(e) && is_parse_error(e, empty_mesh_message())
        } else {
            r matches Ok(mesh) && mesh_holds(mesh@, st.nodes, st.elements)
        },
    }
}

impl AbaqusLoader {
    /// Reads a mesh from the lines of an Abaqus input file.
    pub fn parse_lines(lines: &[String]) -> (r: Result<Mesh<CoordinateText>, FemError>)
        ensures
            read_result_holds(lines@, r),
            r matches Ok(m) ==> m@.nodes.len() >= 1 && m@.elements.len() >= 1
                && super::positions_in_range(m@),
    {
        let ghost texts = line_texts(lines@);
        let node_kw = chars_of("*Node");
        let elem_kw = chars_of("*Element");
        let mut mesh: Mesh<CoordinateText> = Mesh::new();
        let mut i: usize = 0;
        proof {
            assert(texts.take(0) =~= Seq::<Seq<char>>::empty());
            assert(MeshView::<CoordinateText>::empty().elements =~= Seq::<ElementView>::empty());
            assert(Seq::<NodeRecord>::empty().map_values(|r: NodeRecord| r.id) =~= Seq::<usize>::empty());
            assert(Seq::<ElementView>::empty().map_values(|e: ElementView| e.id) =~= Seq::<usize>::empty());
        }
        while i < lines.len()
            invariant
                i <= lines@.len(),
                texts == line_texts(lines@),
                node_kw@ == "*Node"@,
                elem_kw@ == "*Element"@,
                read_lines(texts.take(i as int)) matches Ok(st) && mesh_holds(
                    mesh@,
                    st.nodes,
                    st.elements,
                ) && (i < lines@.len() ==> read_line(st, trim(texts[i as int])) == read_top_line(
                    st,
                    trim(texts[i as int]),
                )),
            decreases lines@.len() - i,
        {
            let line = chars_of(lines[i].as_str());
            let (a, b) = trim_range(&line, 0, line.len());
            let ghost st = read_lines(texts.take(i as int))->Ok_0;
            proof {
                assert(line@.subrange(0, line@.len() as int) =~= line@);
                assert(texts[i as int] == line@);
                lemma_read_next(texts, i as int);
            }
            let ghost t = line@.subrange(a as int, b as int);
            assert(t == trim(texts[i as int]));
            if starts_with_range(&line, a, b, &node_kw) {
                let ghost m0 = mesh@;
                let ghost st1 = ReadState { section: Section::Nodes, ..st };
                assert(read_lines(texts.take(i + 1)) == Ok::<ReadState, Seq<char>>(st1));
                match Self::parse_nodes(lines, i + 1, &mut mesh) {
                    Ok(j) => {
                        proof {
                            lemma_read_node_section(texts, i + 1, j as int, st1);
                            let rs = section_nodes(texts.subrange(i + 1, j as int))->Ok_0;
                            lemma_holds_after_nodes(m0, mesh@, st.nodes, st.elements, rs);
                        }
                        i = j;
                    },
                    Err(e) => {
                        proof {
                            let m = e->ParseError_0;
                            let s1: int = i + 1;
                            let k = choose|k: int|
                                #[trigger] node_section_fails_at(m0, mesh@, texts, s1, k, m@);
                            lemma_read_node_section(texts, i + 1, k, st1);
                            lemma_read_next(texts, k);
                            lemma_error_persists(texts, k + 1);
                            assert(texts.take(texts.len() as int) =~= texts);
                        }
                        return Err(e);
                    },
                }
            } else if starts_with_range(&line, a, b, &elem_kw) {
                let mut header = String::new();
                crate::text::push_range(&mut header, &line, a, b);
                assert(header@ =~= t);
                let ty = match Self::parse_element_header(header.as_str()) {
                    Ok(ty) => ty,
                    Err(e) => {
                        proof {
                            lemma_error_persists(texts, i + 1);
                        }
                        return Err(e);
                    },
                };
                let ghost m0 = mesh@;
                let ghost st1 = ReadState { section: Section::Elements(ty), ..st };
                assert(read_lines(texts.take(i + 1)) == Ok::<ReadState, Seq<char>>(st1));
                match Self::parse_elements(lines, i + 1, &mut mesh, ty) {
                    Ok(j) => {
                        proof {
                            lemma_read_element_section(texts, ty, i + 1, j as int, st1);
                            let es = section_elements(ty, texts.subrange(i + 1, j as int))->Ok_0;
                            lemma_holds_after_elements(m0, mesh@, st.nodes, st.elements, es);
                        }
                        i = j;
                    },
                    Err(e) => {
                        proof {
                            let m = e->ParseError_0;
                            let s1: int = i + 1;
                            let k = choose|k: int|
                                #[trigger] element_section_fails_at(m0, mesh@, ty, texts, s1, k, m@);
                            lemma_read_element_section(texts, ty, i + 1, k, st1);
                            lemma_read_next(texts, k);
                            lemma_error_persists(texts, k + 1);
                            assert(texts.take(texts.len() as int) =~= texts);
                        }
                        return Err(e);
                    },
                }
            } else {
                i += 1;
            }
        }
        proof {
            assert(texts.take(lines@.len() as int) =~= texts);
        }
        if mesh.num_nodes() == 0 || mesh.num_elements() == 0 {
            return Err(
                FemError::ParseError(String::from_str("No nodes or elements found in mesh file")),
            );
        }
        proof {
            let st = read_lines(texts)->Ok_0;
            lemma_read_positions_in_range(mesh@, st.nodes, st.elements);
        }
        Ok(mesh)
    }
}

/// A line on which reading fails makes reading the whole file fail with a
/// parse error, the same whatever lines follow it.
pub proof fn lemma_offending_line_fails(
    lines: Seq<String>,
    k: int,
    r: Result<Mesh<CoordinateText>, FemError>,
)
    requires
        0 <= k <= lines.len(),
        read_lines(line_texts(lines).take(k)) is Err,
        read_result_holds(lines, r),
    ensures
        read_lines(line_texts(lines)) == read_lines(line_texts(lines).take(k)),
        r matches Err(e) && e is ParseError,
{
    lemma_error_persists(line_texts(lines), k);
}

/// The outcomes of reading a file: every failure is a parse error (the
/// message of the first offending line, or the empty-mesh message), and a
/// mesh comes back exactly when no line fails and the file gives at least
/// one node and one element; it then holds at least one of each.
pub proof fn lemma_reading_outcomes(lines: Seq<String>, r: Result<Mesh<CoordinateText>, FemError>)
    requires
        read_result_holds(lines, r),
    ensures
        r matches Err(e) ==> e is ParseError,
        r is Ok <==> (read_lines(line_texts(lines)) matches Ok(st) && st.nodes.len() >= 1
            && st.elements.len() >= 1),
        r matches Ok(m) ==> m@.nodes.len() >= 1 && m@.elements.len() >= 1,
{
}

proof fn lemma_index_of_last(ids: Seq<usize>, i: int)
    requires
        0 <= i < ids.len() <= usize::MAX,
        forall|j: int| i < j < ids.len() ==> ids[j] != ids[i],
    ensures
        index_of_ids(ids).contains_key(ids[i]),
        index_of_ids(ids)[ids[i]] == i,
    decreases ids.len(),
{
    if i < ids.len() - 1 {
        let init = ids.drop_last();
        assert(ids[ids.len() - 1] != ids[i]);
        assert(init[i] == ids[i]);
        lemma_index_of_last(init, i);
    }
}

/// In a mesh read from a file, a node ID refers to the node of the last
/// line that gave that ID, with that line's coordinates.
pub proof fn lemma_read_node_lookup(
    m: MeshView<CoordinateText>,
    nodes: Seq<NodeRecord>,
    elements: Seq<ElementView>,
    i: int,
)
    requires
        mesh_holds(m, nodes, elements),
        0 <= i < nodes.len() <= usize::MAX,
        forall|j: int| i < j < nodes.len() ==> nodes[j].id != nodes[i].id,
    ensures
        m.node(nodes[i].id) matches Some(n) && node_matches(n, nodes[i]),
{
    let ids = nodes.map_values(|r: NodeRecord| r.id);
    assert forall|j: int| i < j < ids.len() implies ids[j] != ids[i] by {
        assert(nodes[j].id != nodes[i].id);
    }
    lemma_index_of_last(ids, i);
    assert(ids[i] == nodes[i].id);
}

/// In a mesh read from a file, an element ID refers to the element of the
/// last line that gave that ID.
pub proof fn lemma_read_element_lookup(
    m: MeshView<CoordinateText>,
    nodes: Seq<NodeRecord>,
    elements: Seq<ElementView>,
    i: int,
)
    requires
        mesh_holds(m, nodes, elements),
        0 <= i < elements.len() <= usize::MAX,
        forall|j: int| i < j < elements.len() ==> elements[j].id != elements[i].id,
    ensures
        m.element(elements[i].id) == Some(elements[i]),
{
    let ids = elements.map_values(|e: ElementView| e.id);
    assert forall|j: int| i < j < ids.len() implies ids[j] != ids[i] by {
        assert(elements[j].id != elements[i].id);
    }
    lemma_index_of_last(ids, i);
    assert(ids[i] == elements[i].id);
}

proof fn lemma_index_in_range(ids: Seq<usize>, id: usize)
    requires
        ids.len() <= usize::MAX,
        index_of_ids(ids).contains_key(id),
    ensures
        index_of_ids(ids)[id] < ids.len(),
    decreases ids.len(),
{
    if ids.len() > 0 && id != ids.last() {
        lemma_index_in_range(ids.drop_last(), id);
    }
}

/// In a mesh read from a file, every ID refers to a node or an element
/// that the mesh holds.
pub proof fn lemma_read_positions_in_range(
    m: MeshView<CoordinateText>,
    nodes: Seq<NodeRecord>,
    elements: Seq<ElementView>,
)
    requires
        mesh_holds(m, nodes, elements),
        nodes.len() <= usize::MAX,
        elements.len() <= usize::MAX,
    ensures
        super::positions_in_range(m),
{
    assert forall|id: NodeId| #[trigger] m.node_index.contains_key(id) implies m.node_index[id]
        < m.nodes.len() by {
        lemma_index_in_range(nodes.map_values(|r: NodeRecord| r.id), id);
    }
    assert forall|id: usize| #[trigger] m.element_index.contains_key(id) implies m.element_index[id]
        < m.elements.len() by {
        lemma_index_in_range(elements.map_values(|e: ElementView| e.id), id);
    }
}
} // verus!
