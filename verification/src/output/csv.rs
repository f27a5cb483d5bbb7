//! CSV element table.

use vstd::prelude::*;

use crate::mesh::{Element, ElementView, Mesh};
use crate::text::{
    decimal, free_of, lemma_decimal_free, lemma_free_concat, lemma_parse_decimal,
    lemma_split_on_concat, lemma_split_on_len, lemma_split_on_sep, lemma_split_on_word, parse_usize,
    push_char, push_decimal, split_on,
};
use crate::types::{ElementType, NodeId};

verus! {

/// The name that `{:?}` prints for an element kind.
pub open spec fn kind_name(t: ElementType) -> Seq<char> {
    match t {
        ElementType::Triangle3 => "Triangle3"@,
        ElementType::Quadrilateral4 => "Quadrilateral4"@,
        ElementType::Triangle6 => "Triangle6"@,
        ElementType::Quadrilateral8 => "Quadrilateral8"@,
    }
}

/// A comma and the ID of each node, in order.
pub open spec fn node_cells(ids: Seq<NodeId>) -> Seq<char>
    decreases ids.len(),
{
    if ids.len() == 0 {
        Seq::empty()
    } else {
        node_cells(ids.drop_last()) + ","@ + decimal(ids.last() as nat)
    }
}

/// The empty cells that fill a row of `n` nodes up to eight node columns.
pub open spec fn padding(n: nat) -> Seq<char> {
    Seq::new(if n < 8 { (8 - n) as nat } else { 0 }, |i: int| ',')
}

/// The row of one element: ID, kind, node IDs, empty cells up to eight
/// node columns.
pub open spec fn element_row(e: ElementView) -> Seq<char> {
    decimal(e.id as nat) + ","@ + kind_name(e.element_type) + node_cells(e.node_ids) + padding(
        e.node_ids.len(),
    ) + "\n"@
}

/// The rows of the elements, in order.
pub open spec fn element_rows(es: Seq<ElementView>) -> Seq<char>
    decreases es.len(),
{
    if es.len() == 0 {
        Seq::empty()
    } else {
        element_rows(es.drop_last()) + element_row(es.last())
    }
}

/// The header row of the element table.
pub open spec fn element_table_header() -> Seq<char> {
    "element_id,type,node1,node2,node3,node4,node5,node6,node7,node8\n"@
}

/// Appends the row of element `e`.
fn push_element_row(s: &mut String, e: &Element)
    ensures
        final(s)@ == old(s)@ + element_row(e@),
{
    let ghost before = s@;
    let ghost ev = e@;
    push_decimal(s, e.id());
    s.append(",");
    let name: &str = match e.element_type() {
        ElementType::Triangle3 => "Triangle3",
        ElementType::Quadrilateral4 => "Quadrilateral4",
        ElementType::Triangle6 => "Triangle6",
        ElementType::Quadrilateral8 => "Quadrilateral8",
    };
    assert(name@ == kind_name(ev.element_type));
    s.append(name);
    let ids = e.node_ids();
    let m = ids.len();
    let ghost mid = s@;
    assert(ids@.take(0) =~= Seq::<NodeId>::empty());
    for k in 0..m
        invariant
            m == ids@.len(),
            s@ == mid + node_cells(ids@.take(k as int)),
    {
        s.append(",");
        push_decimal(s, ids[k]);
        assert(ids@.take(k + 1).drop_last() =~= ids@.take(k as int));
        assert(mid + node_cells(ids@.take(k + 1)) =~= mid + node_cells(ids@.take(k as int))
            + ","@ + decimal(ids@[k as int] as nat));
    }
    assert(ids@.take(m as int) =~= ids@);
    let ghost cells = s@;
    let mut k = m;
    while k < 8
        invariant
            m <= k <= 8 || (k == m && m > 8),
            s@ == cells + Seq::new((k - m) as nat, |j: int| ','),
        decreases 8 - k,
    {
        push_char(s, ',');
        assert(cells + Seq::new((k + 1 - m) as nat, |j: int| ',') =~= (cells + Seq::new(
            (k - m) as nat,
            |j: int| ',',
        )).push(','));
        k += 1;
    }
    assert(Seq::new((k - m) as nat, |j: int| ',') =~= padding(m as nat));
    s.append("\n");
    assert(s@ =~= before + element_row(ev));
}

/// Writer of CSV tables.
pub struct CsvWriter;

impl CsvWriter {
    /// The element table of the mesh: a header row, then one row per
    /// element in mesh order.
    pub fn elements_table<P>(mesh: &Mesh<P>) -> (s: String)
        ensures
            s@ == element_table_header() + element_rows(mesh@.elements),
    {
        let mut s = String::from_str("element_id,type,node1,node2,node3,node4,node5,node6,node7,node8\n");
        let es = mesh.elements();
        let ghost views = mesh@.elements;
        let n = es.len();
        assert(views.take(0) =~= Seq::<ElementView>::empty());
        for i in 0..n
            invariant
                n == es@.len(),
                views == es@.map_values(|e: Element| e@),
                views == mesh@.elements,
                s@ == element_table_header() + element_rows(views.take(i as int)),
        {
            let ghost before = s@;
            push_element_row(&mut s, &es[i]);
            let ghost ev = views[i as int];
            assert(ev == es@[i as int]@);
            proof {
                assert(views.take(i + 1).drop_last() =~= views.take(i as int));
                assert(s@ =~= before + element_row(ev));
            }
        }
        assert(views.take(n as int) =~= views);
        s
    }
}


/// The comma-separated pieces of row `i` of the element table (the line
/// after the header line and `i` element lines).
pub open spec fn table_row_fields(es: Seq<ElementView>, i: int) -> Seq<Seq<char>> {
    split_on(split_on(element_table_header() + element_rows(es), '\n')[i + 1], ',')
}

/// The text of an element row before its line break.
spec fn row_text(e: ElementView) -> Seq<char> {
    decimal(e.id as nat) + ","@ + kind_name(e.element_type) + node_cells(e.node_ids) + padding(
        e.node_ids.len(),
    )
}

proof fn lemma_kind_free(t: ElementType)
    ensures
        free_of(kind_name(t), ','),
        free_of(kind_name(t), '\n'),
{
    reveal_strlit("Triangle3");
    reveal_strlit("Quadrilateral4");
    reveal_strlit("Triangle6");
    reveal_strlit("Quadrilateral8");
}

proof fn lemma_node_cells_free(ids: Seq<NodeId>)
    ensures
        free_of(node_cells(ids), '\n'),
    decreases ids.len(),
{
    if ids.len() > 0 {
        reveal_strlit(",");
        lemma_node_cells_free(ids.drop_last());
        lemma_decimal_free(ids.last() as nat, '\n');
        lemma_free_concat(node_cells(ids.drop_last()), ","@, '\n');
        lemma_free_concat(node_cells(ids.drop_last()) + ","@, decimal(ids.last() as nat), '\n');
    }
}

/// Split at commas, the node cells are an empty piece and then the numeral
/// of each node ID.
pub(crate) proof fn lemma_split_node_cells(ids: Seq<NodeId>)
    ensures
        split_on(node_cells(ids), ',') == seq![Seq::<char>::empty()] + ids.map_values(
            |id: NodeId| decimal(id as nat),
        ),
    decreases ids.len(),
{
    let e = Seq::<char>::empty();
    if ids.len() == 0 {
        assert(ids.map_values(|id: NodeId| decimal(id as nat)) =~= Seq::<Seq<char>>::empty());
        assert(seq![e] + Seq::<Seq<char>>::empty() =~= seq![e]);
    } else {
        let init = ids.drop_last();
        let x = ids.last();
        let p = node_cells(init);
        lemma_split_node_cells(init);
        reveal_strlit(",");
        assert(","@ =~= seq![',']);
        lemma_split_on_sep(',');
        lemma_split_on_len(p, ',');
        lemma_split_on_concat(p, ","@, ',');
        let sp = split_on(p, ',');
        assert(sp.last() + e =~= sp.last());
        assert(seq![e, e].skip(1) =~= seq![e]);
        assert(split_on(p + ","@, ',') =~= sp.push(e));
        lemma_decimal_free(x as nat, ',');
        lemma_split_on_word(decimal(x as nat), ',');
        lemma_split_on_concat(p + ","@, decimal(x as nat), ',');
        assert(e + decimal(x as nat) =~= decimal(x as nat));
        assert(seq![decimal(x as nat)].skip(1) =~= Seq::<Seq<char>>::empty());
        assert(ids.map_values(|id: NodeId| decimal(id as nat)) =~= init.map_values(
            |id: NodeId| decimal(id as nat),
        ).push(decimal(x as nat)));
        assert(split_on(node_cells(ids), ',') =~= seq![e] + ids.map_values(
            |id: NodeId| decimal(id as nat),
        ));
    }
}

/// `p` commas split into `p + 1` empty pieces.
proof fn lemma_split_commas(p: nat)
    ensures
        split_on(Seq::new(p, |i: int| ','), ',') == Seq::new(p + 1, |i: int| Seq::<char>::empty()),
    decreases p,
{
    let e = Seq::<char>::empty();
    if p == 0 {
        assert(Seq::new(0, |i: int| ',') =~= e);
        assert(Seq::new(1, |i: int| e) =~= seq![e]);
    } else {
        lemma_split_commas((p - 1) as nat);
        let c = Seq::new(p, |i: int| ',');
        assert(c.drop_last() =~= Seq::new((p - 1) as nat, |i: int| ','));
        assert(c.last() == ',');
        assert(Seq::new((p - 1 + 1) as nat, |i: int| e).push(e) =~= Seq::new(p + 1, |i: int| e));
    }
}

/// Split at commas, a row is the element ID, the kind name, the node IDs,
/// and an empty piece per padding comma.
proof fn lemma_split_row_text(e: ElementView)
    ensures
        split_on(row_text(e), ',') == seq![decimal(e.id as nat), kind_name(e.element_type)]
            + e.node_ids.map_values(|id: NodeId| decimal(id as nat)) + Seq::new(
            padding(e.node_ids.len()).len(),
            |i: int| Seq::<char>::empty(),
        ),
        free_of(row_text(e), '\n'),
{
    let em = Seq::<char>::empty();
    let d = decimal(e.id as nat);
    let k = kind_name(e.element_type);
    let nc = node_cells(e.node_ids);
    let pad = padding(e.node_ids.len());
    let m = e.node_ids.map_values(|id: NodeId| decimal(id as nat));
    reveal_strlit(",");
    assert(","@ =~= seq![',']);
    lemma_split_on_sep(',');
    lemma_decimal_free(e.id as nat, ',');
    lemma_split_on_word(d, ',');
    lemma_split_on_concat(d, ","@, ',');
    assert(d + em =~= d);
    assert(seq![em, em].skip(1) =~= seq![em]);
    assert(split_on(d + ","@, ',') =~= seq![d, em]);
    lemma_kind_free(e.element_type);
    lemma_split_on_word(k, ',');
    lemma_split_on_concat(d + ","@, k, ',');
    assert(em + k =~= k);
    assert(seq![k].skip(1) =~= Seq::<Seq<char>>::empty());
    assert(split_on(d + ","@ + k, ',') =~= seq![d, k]);
    lemma_split_node_cells(e.node_ids);
    lemma_split_on_concat(d + ","@ + k, nc, ',');
    assert(k + em =~= k);
    assert((seq![em] + m).skip(1) =~= m);
    let x = seq![d, k] + m;
    assert(split_on(d + ","@ + k + nc, ',') =~= x);
    lemma_split_commas(pad.len());
    assert(pad =~= Seq::new(pad.len(), |i: int| ','));
    lemma_split_on_concat(d + ","@ + k + nc, pad, ',');
    assert(x.last() + em =~= x.last());
    assert(x.drop_last().push(x.last()) =~= x);
    assert(Seq::new(pad.len() + 1, |i: int| em).skip(1) =~= Seq::new(pad.len(), |i: int| em));
    assert(split_on(row_text(e), ',') =~= x + Seq::new(pad.len(), |i: int| em));
    // No line break in the row.
    lemma_decimal_free(e.id as nat, '\n');
    assert(free_of(","@, '\n'));
    lemma_node_cells_free(e.node_ids);
    assert(free_of(pad, '\n'));
    lemma_free_concat(d, ","@, '\n');
    lemma_free_concat(d + ","@, k, '\n');
    lemma_free_concat(d + ","@ + k, nc, '\n');
    lemma_free_concat(d + ","@ + k + nc, pad, '\n');
}

/// Split at line breaks, the rows are the row texts and an empty piece
/// after the last break.
proof fn lemma_split_rows(es: Seq<ElementView>)
    ensures
        split_on(element_rows(es), '\n') == es.map_values(|q: ElementView| row_text(q)) + seq![
            Seq::<char>::empty(),
        ],
    decreases es.len(),
{
    let em = Seq::<char>::empty();
    reveal_strlit("\n");
    assert("\n"@ =~= seq!['\n']);
    lemma_split_on_sep('\n');
    if es.len() == 0 {
        assert(es.map_values(|q: ElementView| row_text(q)) =~= Seq::<Seq<char>>::empty());
        assert(split_on(element_rows(es), '\n') =~= es.map_values(|q: ElementView| row_text(q))
            + seq![em]);
    } else {
        let init = es.drop_last();
        let t = row_text(es.last());
        let m = init.map_values(|q: ElementView| row_text(q));
        lemma_split_rows(init);
        lemma_split_row_text(es.last());
        lemma_split_on_word(t, '\n');
        lemma_split_on_concat(t, "\n"@, '\n');
        assert(t + em =~= t);
        assert(seq![em, em].skip(1) =~= seq![em]);
        assert(split_on(t + "\n"@, '\n') =~= seq![t, em]);
        let prev = element_rows(init);
        assert(element_rows(es) =~= prev + (t + "\n"@));
        lemma_split_on_concat(prev, t + "\n"@, '\n');
        assert((m + seq![em]).drop_last() =~= m);
        assert(em + t =~= t);
        assert(seq![t, em].skip(1) =~= seq![em]);
        assert(es.map_values(|q: ElementView| row_text(q)) =~= m.push(t));
        assert(split_on(element_rows(es), '\n') =~= es.map_values(|q: ElementView| row_text(q))
            + seq![em]);
    }
}

/// Split at line breaks, the header is its one line and an empty piece.
proof fn lemma_split_header()
    ensures
        split_on(element_table_header(), '\n') == seq![
            "element_id,type,node1,node2,node3,node4,node5,node6,node7,node8"@,
            Seq::<char>::empty(),
        ],
{
    let em = Seq::<char>::empty();
    let hdr = "element_id,type,node1,node2,node3,node4,node5,node6,node7,node8"@;
    reveal_strlit("element_id,type,node1,node2,node3,node4,node5,node6,node7,node8");
    reveal_strlit("element_id,type,node1,node2,node3,node4,node5,node6,node7,node8\n");
    reveal_strlit("\n");
    assert(element_table_header() =~= hdr + "\n"@);
    assert(free_of(hdr, '\n'));
    assert("\n"@ =~= seq!['\n']);
    lemma_split_on_sep('\n');
    lemma_split_on_word(hdr, '\n');
    lemma_split_on_concat(hdr, "\n"@, '\n');
    assert(hdr + em =~= hdr);
    assert(seq![em, em].skip(1) =~= seq![em]);
}

/// The fields of one row, read back.
proof fn lemma_row_fields(e: ElementView)
    ensures
        split_on(row_text(e), ',').len() == if e.node_ids.len() < 8 {
            10
        } else {
            e.node_ids.len() + 2
        },
        parse_usize(split_on(row_text(e), ',')[0]) == Some(e.id),
        split_on(row_text(e), ',')[1] == match e.element_type {
            ElementType::Triangle3 => "Triangle3"@,
            ElementType::Quadrilateral4 => "Quadrilateral4"@,
            ElementType::Triangle6 => "Triangle6"@,
            ElementType::Quadrilateral8 => "Quadrilateral8"@,
        },
        forall|j: int|
            e.node_ids.len() + 2 <= j < split_on(row_text(e), ',').len() ==> #[trigger] split_on(
                row_text(e),
                ',',
            )[j] == Seq::<char>::empty(),
        forall|k: int|
            0 <= k < e.node_ids.len() ==> parse_usize(split_on(row_text(e), ',')[k + 2]) == Some(
                #[trigger] e.node_ids[k],
            ),
{
    lemma_split_row_text(e);
    lemma_parse_decimal(e.id);
    assert forall|k: int| 0 <= k < e.node_ids.len() implies parse_usize(
        split_on(row_text(e), ',')[k + 2],
    ) == Some(#[trigger] e.node_ids[k]) by {
        lemma_parse_decimal(e.node_ids[k]);
        assert(split_on(row_text(e), ',')[k + 2] == decimal(e.node_ids[k] as nat));
    }
}

/// The element table has a header line and then one line per element, in
/// order. Split at commas, the line of element `i` is its ID, the name of
/// its kind, its node IDs in order, and empty cells up to eight node
/// columns.
pub proof fn lemma_table_rows(es: Seq<ElementView>)
    ensures
        split_on(element_table_header() + element_rows(es), '\n').len() == es.len() + 2,
        split_on(element_table_header() + element_rows(es), '\n')[0]
            == "element_id,type,node1,node2,node3,node4,node5,node6,node7,node8"@,
        forall|i: int|
            #![trigger es[i]]
            0 <= i < es.len() ==> {
                &&& table_row_fields(es, i).len() == if es[i].node_ids.len() < 8 {
                    10
                } else {
                    es[i].node_ids.len() + 2
                }
                &&& parse_usize(table_row_fields(es, i)[0]) == Some(es[i].id)
                &&& table_row_fields(es, i)[1] == match es[i].element_type {
                    ElementType::Triangle3 => "Triangle3"@,
                    ElementType::Quadrilateral4 => "Quadrilateral4"@,
                    ElementType::Triangle6 => "Triangle6"@,
                    ElementType::Quadrilateral8 => "Quadrilateral8"@,
                }
                &&& forall|j: int|
                    es[i].node_ids.len() + 2 <= j < table_row_fields(es, i).len() ==> #[trigger] table_row_fields(
                        es,
                        i,
                    )[j] == Seq::<char>::empty()
            },
        forall|i: int, k: int|
            0 <= i < es.len() && 0 <= k < es[i].node_ids.len() ==> parse_usize(
                table_row_fields(es, i)[k + 2],
            ) == Some(#[trigger] es[i].node_ids[k]),
{
    let em = Seq::<char>::empty();
    let hdr = "element_id,type,node1,node2,node3,node4,node5,node6,node7,node8"@;
    lemma_split_header();
    lemma_split_rows(es);
    let m = es.map_values(|q: ElementView| row_text(q));
    lemma_split_on_concat(element_table_header(), element_rows(es), '\n');
    assert((m + seq![em])[0] == (if es.len() > 0 {
        m[0]
    } else {
        em
    }));
    assert(em + (m + seq![em])[0] =~= (m + seq![em])[0]);
    let whole = split_on(element_table_header() + element_rows(es), '\n');
    assert(whole =~= seq![hdr] + m + seq![em]);
    assert forall|i: int| 0 <= i < es.len() implies #[trigger] table_row_fields(es, i) == split_on(
        row_text(es[i]),
        ',',
    ) by {
        assert(whole[i + 1] == m[i]);
    }
    assert forall|i: int|
        #![trigger es[i]]
        0 <= i < es.len() implies {
        &&& table_row_fields(es, i).len() == if es[i].node_ids.len() < 8 {
            10
        } else {
            es[i].node_ids.len() + 2
        }
        &&& parse_usize(table_row_fields(es, i)[0]) == Some(es[i].id)
        &&& table_row_fields(es, i)[1] == match es[i].element_type {
            ElementType::Triangle3 => "Triangle3"@,
            ElementType::Quadrilateral4 => "Quadrilateral4"@,
            ElementType::Triangle6 => "Triangle6"@,
            ElementType::Quadrilateral8 => "Quadrilateral8"@,
        }
        &&& forall|j: int|
            es[i].node_ids.len() + 2 <= j < table_row_fields(es, i).len() ==> #[trigger] table_row_fields(
                es,
                i,
            )[j] == Seq::<char>::empty()
    } by {
        assert(table_row_fields(es, i) == split_on(row_text(es[i]), ','));
        lemma_row_fields(es[i]);
    }
    assert forall|i: int, k: int|
        0 <= i < es.len() && 0 <= k < es[i].node_ids.len() implies parse_usize(
        table_row_fields(es, i)[k + 2],
    ) == Some(#[trigger] es[i].node_ids[k]) by {
        assert(table_row_fields(es, i) == split_on(row_text(es[i]), ','));
        lemma_row_fields(es[i]);
    }
}

} // verus!
