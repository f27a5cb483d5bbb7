//! VTK legacy-format sections.

use vstd::prelude::*;

use crate::mesh::{Element, ElementView, Mesh};
use crate::text::{
    decimal, free_of, lemma_decimal_free, lemma_free_concat, lemma_parse_decimal,
    lemma_split_on_concat, lemma_split_on_len, lemma_split_on_sep, lemma_split_on_word, parse_usize,
    push_decimal, split_on,
};
use crate::types::{ElementType, NodeId};

verus! {

/// The VTK cell type code of an element kind.
pub open spec fn vtk_cell_type(t: ElementType) -> nat {
    match t {
        ElementType::Triangle3 => 5,
        ElementType::Quadrilateral4 => 9,
        ElementType::Triangle6 => 22,
        ElementType::Quadrilateral8 => 23,
    }
}

/// A space and the ID of each node, in order.
pub open spec fn spaced_ids(ids: Seq<NodeId>) -> Seq<char>
    decreases ids.len(),
{
    if ids.len() == 0 {
        Seq::empty()
    } else {
        spaced_ids(ids.drop_last()) + " "@ + decimal(ids.last() as nat)
    }
}

/// The cell line of an element: its node count, then its node IDs.
pub open spec fn cell_line(e: ElementView) -> Seq<char> {
    decimal(e.node_ids.len()) + spaced_ids(e.node_ids) + "\n"@
}

/// The cell lines of the elements, in order.
pub open spec fn cell_lines(es: Seq<ElementView>) -> Seq<char>
    decreases es.len(),
{
    if es.len() == 0 {
        Seq::empty()
    } else {
        cell_lines(es.drop_last()) + cell_line(es.last())
    }
}

/// The cell type lines of the elements, in order.
pub open spec fn type_lines(es: Seq<ElementView>) -> Seq<char>
    decreases es.len(),
{
    if es.len() == 0 {
        Seq::empty()
    } else {
        type_lines(es.drop_last()) + decimal(vtk_cell_type(es.last().element_type)) + "\n"@
    }
}

/// The size of the cell list: for each element, its node count plus one.
pub open spec fn connectivity_size(es: Seq<ElementView>) -> nat
    decreases es.len(),
{
    if es.len() == 0 {
        0
    } else {
        connectivity_size(es.drop_last()) + es.last().node_ids.len() + 1
    }
}

/// The file header and the line that announces `num_nodes` points.
pub open spec fn points_header(num_nodes: nat) -> Seq<char> {
    "# vtk DataFile Version 3.0\n"@ + "FEM Solver Results\n"@ + "ASCII\n"@
        + "DATASET UNSTRUCTURED_GRID\n"@ + "POINTS "@ + decimal(num_nodes) + " float\n"@
}

/// The cells, the cell types, and the line that announces the point data.
pub open spec fn cells_section(es: Seq<ElementView>, num_nodes: nat) -> Seq<char> {
    "CELLS "@ + decimal(es.len()) + " "@ + decimal(connectivity_size(es)) + "\n"@ + cell_lines(es)
        + "CELL_TYPES "@ + decimal(es.len()) + "\n"@ + type_lines(es) + "POINT_DATA "@ + decimal(
        num_nodes,
    ) + "\n"@ + "VECTORS displacement float\n"@
}

proof fn lemma_size_grows(es: Seq<ElementView>, i: int)
    requires
        0 <= i <= es.len(),
    ensures
        connectivity_size(es.take(i)) <= connectivity_size(es),
    decreases es.len() - i,
{
    if i < es.len() {
        lemma_size_grows(es.drop_last(), i);
        assert(es.drop_last().take(i) =~= es.take(i));
    } else {
        assert(es.take(i) =~= es);
    }
}

/// Writer of VTK legacy files.
pub struct VtkWriter;

impl VtkWriter {
    /// The file header and the `POINTS` line of the mesh.
    pub fn points_header<P>(mesh: &Mesh<P>) -> (s: String)
        ensures
            s@ == points_header(mesh@.nodes.len()),
    {
        let mut s = String::from_str("# vtk DataFile Version 3.0\n");
        s.append("FEM Solver Results\n");
        s.append("ASCII\n");
        s.append("DATASET UNSTRUCTURED_GRID\n");
        s.append("POINTS ");
        push_decimal(&mut s, mesh.num_nodes());
        s.append(" float\n");
        s
    }

    /// The `CELLS` and `CELL_TYPES` sections of the mesh and the
    /// `POINT_DATA` header; `None` when the size of the cell list does not
    /// fit in `usize`.
    pub fn cells_section<P>(mesh: &Mesh<P>) -> (r: Option<String>)
        ensures
            match r {
                Some(s) => connectivity_size(mesh@.elements) <= usize::MAX && s@ == cells_section(
                    mesh@.elements,
                    mesh@.nodes.len(),
                ),
                None => connectivity_size(mesh@.elements) > usize::MAX,
            },
    {
        let es = mesh.elements();
        let ghost views = mesh@.elements;
        let n = es.len();
        let mut total: usize = 0;
        assert(views.take(0) =~= Seq::<ElementView>::empty());
        for i in 0..n
            invariant
                n == es@.len(),
                views == es@.map_values(|e: Element| e@),
                views == mesh@.elements,
                total == connectivity_size(views.take(i as int)),
        {
            assert(views.take(i + 1).drop_last() =~= views.take(i as int));
            assert(views[i as int] == es@[i as int]@);
            let len = es[i].node_ids().len();
            match total.checked_add(len) {
                Some(t) => match t.checked_add(1) {
                    Some(t2) => {
                        total = t2;
                    },
                    None => {
                        proof {
                            lemma_size_grows(views, i + 1);
                        }
                        return None;
                    },
                },
                None => {
                    proof {
                        lemma_size_grows(views, i + 1);
                    }
                    return None;
                },
            }
        }
        assert(views.take(n as int) =~= views);
        let mut s = String::from_str("CELLS ");
        push_decimal(&mut s, n);
        s.append(" ");
        push_decimal(&mut s, total);
        s.append("\n");
        let ghost head = s@;
        for i in 0..n
            invariant
                n == es@.len(),
                views == es@.map_values(|e: Element| e@),
                views == mesh@.elements,
                s@ == head + cell_lines(views.take(i as int)),
        {
            let ghost before = s@;
            let ids = es[i].node_ids();
            let m = ids.len();
            push_decimal(&mut s, m);
            let ghost mid = s@;
            assert(ids@.take(0) =~= Seq::<NodeId>::empty());
            for k in 0..m
                invariant
                    m == ids@.len(),
                    s@ == mid + spaced_ids(ids@.take(k as int)),
            {
                s.append(" ");
                push_decimal(&mut s, ids[k]);
                assert(ids@.take(k + 1).drop_last() =~= ids@.take(k as int));
                assert(mid + spaced_ids(ids@.take(k + 1)) =~= mid + spaced_ids(ids@.take(k as int))
                    + " "@ + decimal(ids@[k as int] as nat));
            }
            assert(ids@.take(m as int) =~= ids@);
            s.append("\n");
            proof {
                assert(views[i as int] == es@[i as int]@);
                assert(views.take(i + 1).drop_last() =~= views.take(i as int));
                assert(s@ =~= before + cell_line(views[i as int]));
            }
        }
        assert(views.take(n as int) =~= views);
        s.append("CELL_TYPES ");
        push_decimal(&mut s, n);
        s.append("\n");
        let ghost head2 = s@;
        for i in 0..n
            invariant
                n == es@.len(),
                views == es@.map_values(|e: Element| e@),
                views == mesh@.elements,
                s@ == head2 + type_lines(views.take(i as int)),
        {
            let code: usize = match es[i].element_type() {
                ElementType::Triangle3 => 5,
                ElementType::Quadrilateral4 => 9,
                ElementType::Triangle6 => 22,
                ElementType::Quadrilateral8 => 23,
            };
            push_decimal(&mut s, code);
            s.append("\n");
            proof {
                assert(views[i as int] == es@[i as int]@);
                assert(views.take(i + 1).drop_last() =~= views.take(i as int));
            }
        }
        assert(views.take(n as int) =~= views);
        s.append("POINT_DATA ");
        push_decimal(&mut s, mesh.num_nodes());
        s.append("\n");
        s.append("VECTORS displacement float\n");
        Some(s)
    }
}


/// The text of a cell line before its line break.
spec fn cell_text(e: ElementView) -> Seq<char> {
    decimal(e.node_ids.len()) + spaced_ids(e.node_ids)
}

proof fn lemma_spaced_free(ids: Seq<NodeId>)
    ensures
        free_of(spaced_ids(ids), '\n'),
    decreases ids.len(),
{
    if ids.len() > 0 {
        lemma_spaced_free(ids.drop_last());
        reveal_strlit(" ");
        lemma_decimal_free(ids.last() as nat, '\n');
        lemma_free_concat(spaced_ids(ids.drop_last()), " "@, '\n');
        lemma_free_concat(spaced_ids(ids.drop_last()) + " "@, decimal(ids.last() as nat), '\n');
    }
}

/// Split at spaces, the node list is an empty piece and then the numeral
/// of each node ID.
proof fn lemma_split_spaced(ids: Seq<NodeId>)
    ensures
        split_on(spaced_ids(ids), ' ') == seq![Seq::<char>::empty()] + ids.map_values(
            |id: NodeId| decimal(id as nat),
        ),
    decreases ids.len(),
{
    if ids.len() == 0 {
        assert(ids.map_values(|id: NodeId| decimal(id as nat)) =~= Seq::<Seq<char>>::empty());
        assert(seq![Seq::<char>::empty()] + Seq::<Seq<char>>::empty() =~= seq![
            Seq::<char>::empty(),
        ]);
    } else {
        let init = ids.drop_last();
        let x = ids.last();
        let p = spaced_ids(init);
        lemma_split_spaced(init);
        reveal_strlit(" ");
        assert(" "@ =~= seq![' ']);
        assert(seq![' '].drop_last() =~= Seq::<char>::empty());
        lemma_split_on_sep(' ');
        lemma_split_on_len(p, ' ');
        lemma_split_on_concat(p, " "@, ' ');
        let sp = split_on(p, ' ');
        assert(sp.last() + Seq::<char>::empty() =~= sp.last());
        assert(split_on(p + " "@, ' ') =~= sp.push(Seq::<char>::empty()));
        lemma_decimal_free(x as nat, ' ');
        lemma_split_on_word(decimal(x as nat), ' ');
        lemma_split_on_concat(p + " "@, decimal(x as nat), ' ');
        assert(Seq::<char>::empty() + decimal(x as nat) =~= decimal(x as nat));
        assert(seq![decimal(x as nat)].skip(1) =~= Seq::<Seq<char>>::empty());
        assert(ids.map_values(|id: NodeId| decimal(id as nat)) =~= init.map_values(
            |id: NodeId| decimal(id as nat),
        ).push(decimal(x as nat)));
        assert(split_on(spaced_ids(ids), ' ') =~= seq![Seq::<char>::empty()] + ids.map_values(
            |id: NodeId| decimal(id as nat),
        ));
    }
}

/// Split at spaces, a cell line is the node count and then the node IDs.
proof fn lemma_split_cell_text(e: ElementView)
    ensures
        split_on(cell_text(e), ' ') == seq![decimal(e.node_ids.len())] + e.node_ids.map_values(
            |id: NodeId| decimal(id as nat),
        ),
        free_of(cell_text(e), '\n'),
{
    let d = decimal(e.node_ids.len());
    lemma_decimal_free(e.node_ids.len(), ' ');
    lemma_split_on_word(d, ' ');
    lemma_split_spaced(e.node_ids);
    lemma_split_on_concat(d, spaced_ids(e.node_ids), ' ');
    assert(d + Seq::<char>::empty() =~= d);
    let m = e.node_ids.map_values(|id: NodeId| decimal(id as nat));
    assert((seq![Seq::<char>::empty()] + m).skip(1) =~= m);
    assert(split_on(cell_text(e), ' ') =~= seq![d] + m);
    lemma_decimal_free(e.node_ids.len(), '\n');
    lemma_spaced_free(e.node_ids);
    lemma_free_concat(d, spaced_ids(e.node_ids), '\n');
}

/// Split at line breaks, the cell lines are the cell texts and an empty
/// piece after the last break.
proof fn lemma_split_cell_lines(es: Seq<ElementView>)
    ensures
        split_on(cell_lines(es), '\n') == es.map_values(|e: ElementView| cell_text(e)) + seq![
            Seq::<char>::empty(),
        ],
    decreases es.len(),
{
    reveal_strlit("\n");
    assert("\n"@ =~= seq!['\n']);
    assert(seq!['\n'].drop_last() =~= Seq::<char>::empty());
    lemma_split_on_sep('\n');
    if es.len() == 0 {
        assert(es.map_values(|e: ElementView| cell_text(e)) =~= Seq::<Seq<char>>::empty());
        assert(split_on(cell_lines(es), '\n') =~= es.map_values(|e: ElementView| cell_text(e))
            + seq![Seq::<char>::empty()]);
    } else {
        let init = es.drop_last();
        let e = es.last();
        lemma_split_cell_lines(init);
        let t = cell_text(e);
        lemma_split_cell_text(e);
        lemma_split_on_word(t, '\n');
        lemma_split_on_concat(t, "\n"@, '\n');
        assert(t + Seq::<char>::empty() =~= t);
        assert(split_on(t + "\n"@, '\n') =~= seq![t, Seq::<char>::empty()]);
        assert(cell_line(e) =~= t + "\n"@);
        let prev = cell_lines(init);
        lemma_split_on_concat(prev, cell_line(e), '\n');
        let mi = init.map_values(|q: ElementView| cell_text(q));
        assert(Seq::<char>::empty() + t =~= t);
        assert((mi + seq![Seq::<char>::empty()]).drop_last() =~= mi);
        assert(seq![t, Seq::<char>::empty()].skip(1) =~= seq![Seq::<char>::empty()]);
        assert(es.map_values(|q: ElementView| cell_text(q)) =~= mi.push(t));
        assert(split_on(cell_lines(es), '\n') =~= es.map_values(|q: ElementView| cell_text(q))
            + seq![Seq::<char>::empty()]);
    }
}

/// Split at line breaks, the cell type lines are the numeral of each
/// element's cell type code and an empty piece after the last break.
proof fn lemma_split_type_lines(es: Seq<ElementView>)
    ensures
        split_on(type_lines(es), '\n') == es.map_values(
            |q: ElementView| decimal(vtk_cell_type(q.element_type)),
        ) + seq![Seq::<char>::empty()],
    decreases es.len(),
{
    let e = Seq::<char>::empty();
    reveal_strlit("\n");
    assert("\n"@ =~= seq!['\n']);
    lemma_split_on_sep('\n');
    if es.len() == 0 {
        assert(es.map_values(|q: ElementView| decimal(vtk_cell_type(q.element_type))) =~= Seq::<
            Seq<char>,
        >::empty());
        assert(split_on(type_lines(es), '\n') =~= es.map_values(
            |q: ElementView| decimal(vtk_cell_type(q.element_type)),
        ) + seq![e]);
    } else {
        let init = es.drop_last();
        let d = decimal(vtk_cell_type(es.last().element_type));
        let p = type_lines(init);
        let m = init.map_values(|q: ElementView| decimal(vtk_cell_type(q.element_type)));
        lemma_split_type_lines(init);
        lemma_decimal_free(vtk_cell_type(es.last().element_type), '\n');
        lemma_split_on_word(d, '\n');
        lemma_split_on_concat(p, d, '\n');
        assert((m + seq![e]).drop_last() =~= m);
        assert(e + d =~= d);
        assert(seq![d].skip(1) =~= Seq::<Seq<char>>::empty());
        assert(split_on(p + d, '\n') =~= m.push(d));
        lemma_split_on_concat(p + d, "\n"@, '\n');
        assert(d + e =~= d);
        assert(seq![e, e].skip(1) =~= seq![e]);
        assert(es.map_values(|q: ElementView| decimal(vtk_cell_type(q.element_type))) =~= m.push(
            d,
        ));
        assert(split_on(type_lines(es), '\n') =~= es.map_values(
            |q: ElementView| decimal(vtk_cell_type(q.element_type)),
        ) + seq![e]);
    }
}

/// The lines of the cell section: the `CELLS` line, one cell line per
/// element, the `CELL_TYPES` line, one cell type line per element, and then
/// the point data lines.
proof fn lemma_split_cells_section(es: Seq<ElementView>, num_nodes: nat)
    ensures
        split_on(cells_section(es, num_nodes), '\n').len() >= 2 * es.len() + 3,
        split_on(cells_section(es, num_nodes), '\n')[es.len() + 1int] == "CELL_TYPES "@ + decimal(
            es.len(),
        ),
        forall|i: int|
            #![trigger es[i]]
            0 <= i < es.len() ==> split_on(cells_section(es, num_nodes), '\n')[i + 1] == cell_text(
                es[i],
            ) && split_on(cells_section(es, num_nodes), '\n')[es.len() + 2 + i] == decimal(
                vtk_cell_type(es[i].element_type),
            ),
{
    let e = Seq::<char>::empty();
    reveal_strlit("CELLS ");
    reveal_strlit("CELL_TYPES ");
    reveal_strlit(" ");
    reveal_strlit("\n");
    let h = "CELLS "@ + decimal(es.len()) + " "@ + decimal(connectivity_size(es));
    let big_h = h + "\n"@;
    let cl = cell_lines(es);
    let t1 = "CELL_TYPES "@ + decimal(es.len());
    let big_t1 = t1 + "\n"@;
    let tl = type_lines(es);
    let t2 = "POINT_DATA "@ + decimal(num_nodes) + "\n"@ + "VECTORS displacement float\n"@;
    assert(cells_section(es, num_nodes) =~= (big_h + cl) + ((big_t1 + tl) + t2));
    assert("\n"@ =~= seq!['\n']);
    lemma_split_on_sep('\n');
    // The CELLS line.
    assert(free_of("CELLS "@, '\n'));
    assert(free_of(" "@, '\n'));
    lemma_decimal_free(es.len(), '\n');
    lemma_decimal_free(connectivity_size(es), '\n');
    lemma_free_concat("CELLS "@, decimal(es.len()), '\n');
    lemma_free_concat("CELLS "@ + decimal(es.len()), " "@, '\n');
    lemma_free_concat("CELLS "@ + decimal(es.len()) + " "@, decimal(connectivity_size(es)), '\n');
    lemma_split_on_word(h, '\n');
    lemma_split_on_concat(h, "\n"@, '\n');
    assert(h + e =~= h);
    assert(seq![e, e].skip(1) =~= seq![e]);
    assert(split_on(big_h, '\n') =~= seq![h, e]);
    // The cell lines.
    lemma_split_cell_lines(es);
    let m = es.map_values(|q: ElementView| cell_text(q));
    lemma_split_on_concat(big_h, cl, '\n');
    assert((m + seq![e])[0] == (if es.len() > 0 {
        m[0]
    } else {
        e
    }));
    assert(e + (m + seq![e])[0] =~= (m + seq![e])[0]);
    assert(split_on(big_h + cl, '\n') =~= seq![h] + m + seq![e]);
    // The CELL_TYPES line.
    assert(free_of("CELL_TYPES "@, '\n'));
    lemma_free_concat("CELL_TYPES "@, decimal(es.len()), '\n');
    lemma_split_on_word(t1, '\n');
    lemma_split_on_concat(t1, "\n"@, '\n');
    assert(t1 + e =~= t1);
    assert(split_on(big_t1, '\n') =~= seq![t1, e]);
    // The cell type lines.
    lemma_split_type_lines(es);
    let tm = es.map_values(|q: ElementView| decimal(vtk_cell_type(q.element_type)));
    lemma_split_on_concat(big_t1, tl, '\n');
    assert((tm + seq![e])[0] == (if es.len() > 0 {
        tm[0]
    } else {
        e
    }));
    assert(e + (tm + seq![e])[0] =~= (tm + seq![e])[0]);
    assert(split_on(big_t1 + tl, '\n') =~= seq![t1] + tm + seq![e]);
    // The point data lines.
    lemma_split_on_len(t2, '\n');
    let s2 = split_on(t2, '\n');
    lemma_split_on_concat(big_t1 + tl, t2, '\n');
    let tail = split_on((big_t1 + tl) + t2, '\n');
    assert(tail =~= seq![t1] + tm + seq![e + s2[0]] + s2.skip(1));
    lemma_split_on_concat(big_h + cl, (big_t1 + tl) + t2, '\n');
    let whole = split_on(cells_section(es, num_nodes), '\n');
    assert(e + tail[0] =~= t1);
    assert(whole =~= seq![h] + m + tail);
    assert forall|i: int|
        #![trigger es[i]]
        0 <= i < es.len() implies whole[i + 1] == cell_text(es[i]) && whole[es.len() + 2 + i]
        == decimal(vtk_cell_type(es[i].element_type)) by {
        assert(m[i] == cell_text(es[i]));
        assert(tm[i] == decimal(vtk_cell_type(es[i].element_type)));
        assert(tail[1 + i] == tm[i]);
    }
}

/// Line `i + 1` of the cell section (after the `CELLS` line) is the cell of
/// element `i`: split at spaces, it reads back as the element's node count
/// followed by the element's own node IDs, in order.
pub proof fn lemma_cells_list_node_ids(es: Seq<ElementView>, num_nodes: nat)
    requires
        forall|i: int| 0 <= i < es.len() ==> #[trigger] es[i].node_ids.len() <= usize::MAX,
    ensures
        split_on(cells_section(es, num_nodes), '\n').len() >= es.len() + 2,
        forall|i: int|
            #![trigger es[i]]
            0 <= i < es.len() ==> split_on(split_on(cells_section(es, num_nodes), '\n')[i + 1], ' ').len()
                == es[i].node_ids.len() + 1 && parse_usize(
                split_on(split_on(cells_section(es, num_nodes), '\n')[i + 1], ' ')[0],
            ) == Some(es[i].node_ids.len() as usize),
        forall|i: int, k: int|
            0 <= i < es.len() && 0 <= k < es[i].node_ids.len() ==> parse_usize(
                split_on(split_on(cells_section(es, num_nodes), '\n')[i + 1], ' ')[k + 1],
            ) == Some(#[trigger] es[i].node_ids[k]),
{
    lemma_split_cells_section(es, num_nodes);
    let whole = split_on(cells_section(es, num_nodes), '\n');
    assert forall|i: int|
        #![trigger es[i]]
        0 <= i < es.len() implies split_on(whole[i + 1], ' ').len() == es[i].node_ids.len() + 1
        && parse_usize(split_on(whole[i + 1], ' ')[0]) == Some(es[i].node_ids.len() as usize) by {
        lemma_split_cell_text(es[i]);
        lemma_parse_decimal(es[i].node_ids.len() as usize);
    }
    assert forall|i: int, k: int|
        0 <= i < es.len() && 0 <= k < es[i].node_ids.len() implies parse_usize(
        split_on(whole[i + 1], ' ')[k + 1],
    ) == Some(#[trigger] es[i].node_ids[k]) by {
        lemma_split_cell_text(es[i]);
        lemma_parse_decimal(es[i].node_ids[k]);
        assert(split_on(whole[i + 1], ' ')[k + 1] == decimal(es[i].node_ids[k] as nat));
    }
}

/// The `CELL_TYPES` line after the cells announces one type per element,
/// and line `i` after it reads back as the VTK code of element `i`'s shape:
/// 5 for the 3-node triangle, 9 for the 4-node quadrilateral, 22 for the
/// 6-node triangle, 23 for the 8-node quadrilateral.
pub proof fn lemma_cell_type_codes(es: Seq<ElementView>, num_nodes: nat)
    ensures
        split_on(cells_section(es, num_nodes), '\n').len() >= 2 * es.len() + 3,
        split_on(cells_section(es, num_nodes), '\n')[es.len() + 1int] == "CELL_TYPES "@ + decimal(
            es.len(),
        ),
        forall|i: int|
            #![trigger es[i]]
            0 <= i < es.len() ==> parse_usize(
                split_on(cells_section(es, num_nodes), '\n')[es.len() + 2 + i],
            ) == Some(
                match es[i].element_type {
                    ElementType::Triangle3 => 5usize,
                    ElementType::Quadrilateral4 => 9usize,
                    ElementType::Triangle6 => 22usize,
                    ElementType::Quadrilateral8 => 23usize,
                },
            ),
{
    lemma_split_cells_section(es, num_nodes);
    let whole = split_on(cells_section(es, num_nodes), '\n');
    assert forall|i: int|
        #![trigger es[i]]
        0 <= i < es.len() implies parse_usize(whole[es.len() + 2 + i]) == Some(
        match es[i].element_type {
            ElementType::Triangle3 => 5usize,
            ElementType::Quadrilateral4 => 9usize,
            ElementType::Triangle6 => 22usize,
            ElementType::Quadrilateral8 => 23usize,
        },
    ) by {
        let c: usize = match es[i].element_type {
            ElementType::Triangle3 => 5usize,
            ElementType::Quadrilateral4 => 9usize,
            ElementType::Triangle6 => 22usize,
            ElementType::Quadrilateral8 => 23usize,
        };
        lemma_parse_decimal(c);
        assert(vtk_cell_type(es[i].element_type) == c);
    }
}

} // verus!
