//! Tecplot ASCII sections.

use vstd::prelude::*;

use crate::mesh::{Element, ElementView, Mesh};
use crate::text::{
    decimal, free_of, lemma_decimal_free, lemma_free_concat, lemma_parse_decimal,
    lemma_split_on_concat, lemma_split_on_len, lemma_split_on_sep, lemma_split_on_word, parse_usize,
    push_decimal, split_on,
};
use crate::types::{ElementType, NodeId};

verus! {

/// The zone element type: that of the first element, triangles for an
/// empty mesh.
pub open spec fn zone_element_type(es: Seq<ElementView>) -> Seq<char> {
    if es.len() == 0 {
        "TRIANGLE"@
    } else {
        match es[0].element_type {
            ElementType::Triangle3 => "TRIANGLE"@,
            ElementType::Quadrilateral4 => "QUADRILATERAL"@,
            ElementType::Triangle6 => "TRIANGLE"@,
            ElementType::Quadrilateral8 => "QUADRILATERAL"@,
        }
    }
}

/// The title, variable and zone lines.
pub open spec fn zone_header(num_nodes: nat, es: Seq<ElementView>) -> Seq<char> {
    "TITLE = \"FEM Solver Results\"\n"@ + "VARIABLES = \"X\" \"Y\" \"Ux\" \"Uy\"\n"@
        + "ZONE T=\"Solution\" N="@ + decimal(num_nodes) + "  E="@ + decimal(es.len()) + "  ET="@
        + zone_element_type(es) + "  F=POINT\n"@
}

/// The zone line names the shape of the first element: `ET=TRIANGLE` when
/// it is a 3- or 6-node triangle (and for a mesh without elements),
/// `ET=QUADRILATERAL` when it is a 4- or 8-node quadrilateral.
pub proof fn lemma_zone_shape(num_nodes: nat, es: Seq<ElementView>)
    ensures
        (es.len() == 0 || es[0].element_type == ElementType::Triangle3 || es[0].element_type
            == ElementType::Triangle6) ==> zone_header(num_nodes, es) == "TITLE = \"FEM Solver Results\"\n"@
            + "VARIABLES = \"X\" \"Y\" \"Ux\" \"Uy\"\n"@ + "ZONE T=\"Solution\" N="@ + decimal(
            num_nodes,
        ) + "  E="@ + decimal(es.len()) + "  ET=TRIANGLE  F=POINT\n"@,
        (es.len() > 0 && (es[0].element_type == ElementType::Quadrilateral4 || es[0].element_type
            == ElementType::Quadrilateral8)) ==> zone_header(num_nodes, es)
            == "TITLE = \"FEM Solver Results\"\n"@ + "VARIABLES = \"X\" \"Y\" \"Ux\" \"Uy\"\n"@
            + "ZONE T=\"Solution\" N="@ + decimal(num_nodes) + "  E="@ + decimal(es.len())
            + "  ET=QUADRILATERAL  F=POINT\n"@,
{
    reveal_strlit("  ET=");
    reveal_strlit("TRIANGLE");
    reveal_strlit("QUADRILATERAL");
    reveal_strlit("  F=POINT\n");
    reveal_strlit("  ET=TRIANGLE  F=POINT\n");
    reveal_strlit("  ET=QUADRILATERAL  F=POINT\n");
    let head = "TITLE = \"FEM Solver Results\"\n"@ + "VARIABLES = \"X\" \"Y\" \"Ux\" \"Uy\"\n"@
        + "ZONE T=\"Solution\" N="@ + decimal(num_nodes) + "  E="@ + decimal(es.len());
    assert(head + "  ET="@ + "TRIANGLE"@ + "  F=POINT\n"@ =~= head + "  ET=TRIANGLE  F=POINT\n"@);
    assert(head + "  ET="@ + "QUADRILATERAL"@ + "  F=POINT\n"@ =~= head
        + "  ET=QUADRILATERAL  F=POINT\n"@);
}

/// Each node ID counted from one, followed by a space.
pub open spec fn one_based_ids(ids: Seq<NodeId>) -> Seq<char>
    decreases ids.len(),
{
    if ids.len() == 0 {
        Seq::empty()
    } else {
        one_based_ids(ids.drop_last()) + decimal((ids.last() + 1) as nat) + " "@
    }
}

/// One line per element with its node IDs counted from one.
pub open spec fn connectivity_lines(es: Seq<ElementView>) -> Seq<char>
    decreases es.len(),
{
    if es.len() == 0 {
        Seq::empty()
    } else {
        connectivity_lines(es.drop_last()) + one_based_ids(es.last().node_ids) + "\n"@
    }
}

/// Every node ID of every element can be counted from one in `usize`.
pub open spec fn one_based_fits(es: Seq<ElementView>) -> bool {
    forall|i: int, k: int|
        0 <= i < es.len() && 0 <= k < es[i].node_ids.len() ==> #[trigger] es[i].node_ids[k]
            < usize::MAX
}

/// Writer of Tecplot ASCII files.
pub struct TecplotWriter;

impl TecplotWriter {
    /// The title, variable and zone lines of the mesh.
    pub fn zone_header<P>(mesh: &Mesh<P>) -> (s: String)
        ensures
            s@ == zone_header(mesh@.nodes.len(), mesh@.elements),
    {
        let es = mesh.elements();
        let name: &str = if es.len() == 0 {
            "TRIANGLE"
        } else {
            match es[0].element_type() {
                ElementType::Triangle3 => "TRIANGLE",
                ElementType::Quadrilateral4 => "QUADRILATERAL",
                ElementType::Triangle6 => "TRIANGLE",
                ElementType::Quadrilateral8 => "QUADRILATERAL",
            }
        };
        assert(name@ == zone_element_type(mesh@.elements));
        let mut s = String::from_str("TITLE = \"FEM Solver Results\"\n");
        s.append("VARIABLES = \"X\" \"Y\" \"Ux\" \"Uy\"\n");
        s.append("ZONE T=\"Solution\" N=");
        push_decimal(&mut s, mesh.num_nodes());
        s.append("  E=");
        push_decimal(&mut s, mesh.num_elements());
        s.append("  ET=");
        s.append(name);
        s.append("  F=POINT\n");
        s
    }

    /// The connectivity lines of the mesh, node IDs counted from one;
    /// `None` when a node ID is `usize::MAX`.
    pub fn connectivity_section<P>(mesh: &Mesh<P>) -> (r: Option<String>)
        ensures
            match r {
                Some(s) => one_based_fits(mesh@.elements) && s@ == connectivity_lines(
                    mesh@.elements,
                ),
                None => !one_based_fits(mesh@.elements),
            },
    {
        let es = mesh.elements();
        let ghost views = mesh@.elements;
        let n = es.len();
        let mut s = String::new();
        assert(views.take(0) =~= Seq::<ElementView>::empty());
        for i in 0..n
            invariant
                n == es@.len(),
                views == es@.map_values(|e: Element| e@),
                views == mesh@.elements,
                forall|i2: int, k2: int|
                    0 <= i2 < i && 0 <= k2 < views[i2].node_ids.len() ==> #[trigger] views[i2].node_ids[k2]
                        < usize::MAX,
                s@ == connectivity_lines(views.take(i as int)),
        {
            let ghost before = s@;
            let ids = es[i].node_ids();
            proof {
                assert(views[i as int] == es@[i as int]@);
            }
            let m = ids.len();
            assert(ids@.take(0) =~= Seq::<NodeId>::empty());
            for k in 0..m
                invariant
                    m == ids@.len(),
                    ids@ == views[i as int].node_ids,
                    i < views.len(),
                    views == mesh@.elements,
                    forall|k2: int| 0 <= k2 < k ==> #[trigger] ids@[k2] < usize::MAX,
                    s@ == before + one_based_ids(ids@.take(k as int)),
            {
                let id = ids[k];
                if id == usize::MAX {
                    assert(views[i as int].node_ids[k as int] == usize::MAX);
                    return None;
                }
                push_decimal(&mut s, id + 1);
                s.append(" ");
                assert(ids@.take(k + 1).drop_last() =~= ids@.take(k as int));
                assert(before + one_based_ids(ids@.take(k + 1)) =~= before + one_based_ids(
                    ids@.take(k as int),
                ) + decimal((ids@[k as int] + 1) as nat) + " "@);
            }
            assert(ids@.take(m as int) =~= ids@);
            s.append("\n");
            proof {
                assert(views.take(i + 1).drop_last() =~= views.take(i as int));
            }
        }
        assert(views.take(n as int) =~= views);
        Some(s)
    }
}


proof fn lemma_one_based_free(ids: Seq<NodeId>)
    ensures
        free_of(one_based_ids(ids), '\n'),
    decreases ids.len(),
{
    if ids.len() > 0 {
        reveal_strlit(" ");
        lemma_one_based_free(ids.drop_last());
        lemma_decimal_free((ids.last() + 1) as nat, '\n');
        lemma_free_concat(one_based_ids(ids.drop_last()), decimal((ids.last() + 1) as nat), '\n');
        lemma_free_concat(
            one_based_ids(ids.drop_last()) + decimal((ids.last() + 1) as nat),
            " "@,
            '\n',
        );
    }
}

/// Split at spaces, a connectivity line is the numeral of each node ID plus
/// one, and an empty piece after the last space.
proof fn lemma_split_one_based(ids: Seq<NodeId>)
    ensures
        split_on(one_based_ids(ids), ' ') == ids.map_values(|id: NodeId| decimal((id + 1) as nat))
            + seq![Seq::<char>::empty()],
    decreases ids.len(),
{
    let e = Seq::<char>::empty();
    if ids.len() == 0 {
        assert(ids.map_values(|id: NodeId| decimal((id + 1) as nat)) =~= Seq::<Seq<char>>::empty());
        assert(split_on(one_based_ids(ids), ' ') =~= ids.map_values(
            |id: NodeId| decimal((id + 1) as nat),
        ) + seq![e]);
    } else {
        let init = ids.drop_last();
        let d = decimal((ids.last() + 1) as nat);
        let p = one_based_ids(init);
        let m = init.map_values(|id: NodeId| decimal((id + 1) as nat));
        lemma_split_one_based(init);
        lemma_decimal_free((ids.last() + 1) as nat, ' ');
        lemma_split_on_word(d, ' ');
        lemma_split_on_concat(p, d, ' ');
        assert((m + seq![e]).drop_last() =~= m);
        assert(e + d =~= d);
        assert(seq![d].skip(1) =~= Seq::<Seq<char>>::empty());
        assert(split_on(p + d, ' ') =~= m.push(d));
        reveal_strlit(" ");
        assert(" "@ =~= seq![' ']);
        lemma_split_on_sep(' ');
        lemma_split_on_concat(p + d, " "@, ' ');
        assert(d + e =~= d);
        assert(seq![e, e].skip(1) =~= seq![e]);
        assert(ids.map_values(|id: NodeId| decimal((id + 1) as nat)) =~= m.push(d));
        assert(split_on(one_based_ids(ids), ' ') =~= ids.map_values(
            |id: NodeId| decimal((id + 1) as nat),
        ) + seq![e]);
    }
}

/// Split at line breaks, the connectivity section is one line per element
/// and an empty piece after the last break.
proof fn lemma_split_connectivity(es: Seq<ElementView>)
    ensures
        split_on(connectivity_lines(es), '\n') == es.map_values(
            |q: ElementView| one_based_ids(q.node_ids),
        ) + seq![Seq::<char>::empty()],
    decreases es.len(),
{
    let e = Seq::<char>::empty();
    reveal_strlit("\n");
    assert("\n"@ =~= seq!['\n']);
    lemma_split_on_sep('\n');
    if es.len() == 0 {
        assert(es.map_values(|q: ElementView| one_based_ids(q.node_ids)) =~= Seq::<
            Seq<char>,
        >::empty());
        assert(split_on(connectivity_lines(es), '\n') =~= es.map_values(
            |q: ElementView| one_based_ids(q.node_ids),
        ) + seq![e]);
    } else {
        let init = es.drop_last();
        let t = one_based_ids(es.last().node_ids);
        let m = init.map_values(|q: ElementView| one_based_ids(q.node_ids));
        lemma_split_connectivity(init);
        lemma_one_based_free(es.last().node_ids);
        lemma_split_on_word(t, '\n');
        lemma_split_on_concat(t, "\n"@, '\n');
        assert(t + e =~= t);
        assert(seq![e, e].skip(1) =~= seq![e]);
        assert(split_on(t + "\n"@, '\n') =~= seq![t, e]);
        let prev = connectivity_lines(init);
        assert(connectivity_lines(es) =~= prev + (t + "\n"@));
        lemma_split_on_concat(prev, t + "\n"@, '\n');
        assert((m + seq![e]).drop_last() =~= m);
        assert(e + t =~= t);
        assert(seq![t, e].skip(1) =~= seq![e]);
        assert(es.map_values(|q: ElementView| one_based_ids(q.node_ids)) =~= m.push(t));
        assert(split_on(connectivity_lines(es), '\n') =~= es.map_values(
            |q: ElementView| one_based_ids(q.node_ids),
        ) + seq![e]);
    }
}

/// Line `i` of the connectivity section belongs to element `i`: split at
/// spaces, it reads back as each of the element's node IDs plus one, in
/// order, followed by the empty piece after the trailing space.
pub proof fn lemma_connectivity_one_based(es: Seq<ElementView>)
    requires
        one_based_fits(es),
    ensures
        split_on(connectivity_lines(es), '\n').len() == es.len() + 1,
        forall|i: int|
            #![trigger es[i]]
            0 <= i < es.len() ==> split_on(split_on(connectivity_lines(es), '\n')[i], ' ').len()
                == es[i].node_ids.len() + 1 && split_on(
                split_on(connectivity_lines(es), '\n')[i],
                ' ',
            )[es[i].node_ids.len() as int] == Seq::<char>::empty(),
        forall|i: int, k: int|
            0 <= i < es.len() && 0 <= k < es[i].node_ids.len() ==> parse_usize(
                split_on(split_on(connectivity_lines(es), '\n')[i], ' ')[k],
            ) == Some((#[trigger] es[i].node_ids[k] + 1) as usize),
{
    lemma_split_connectivity(es);
    let lines = split_on(connectivity_lines(es), '\n');
    assert forall|i: int|
        #![trigger es[i]]
        0 <= i < es.len() implies split_on(lines[i], ' ').len() == es[i].node_ids.len() + 1
        && split_on(lines[i], ' ')[es[i].node_ids.len() as int] == Seq::<char>::empty() by {
        assert(lines[i] == one_based_ids(es[i].node_ids));
        lemma_split_one_based(es[i].node_ids);
    }
    assert forall|i: int, k: int|
        0 <= i < es.len() && 0 <= k < es[i].node_ids.len() implies parse_usize(
        split_on(lines[i], ' ')[k],
    ) == Some((#[trigger] es[i].node_ids[k] + 1) as usize) by {
        assert(lines[i] == one_based_ids(es[i].node_ids));
        lemma_split_one_based(es[i].node_ids);
        assert(es[i].node_ids[k] < usize::MAX);
        lemma_parse_decimal((es[i].node_ids[k] + 1) as usize);
        assert(split_on(lines[i], ' ')[k] == decimal((es[i].node_ids[k] + 1) as nat));
    }
}

} // verus!
