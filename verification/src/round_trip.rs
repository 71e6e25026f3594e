use crate::config::{
    canonical, config_wf, decode_config, lemma_config_round_trip, lemma_put_all_of_sorted,
    UdfEntryView,
};
use crate::elements::{EdgeView, NodeView, SchemaView};
use crate::error::ProgramFault;
use crate::graph::EdgeLink;
use crate::taxonomy::{lemma_edge_type_round_trip, lemma_operator_round_trip, parse_operator};
use crate::wire::{
    decode_edge, decode_edge_payload, decode_node, decode_program, decode_schema, edge_fault,
    encode_edge, encode_node, encode_program, encode_schema, first_bad_edge, first_bad_node,
    edge_within_wire, index_table, indices_fit, narrow_indices, widen_indices, wire_registry,
    within_wire, ProgramView, WireEdgeView, WireNodeView,
};
use vstd::prelude::*;

verus! {

/// A program that the wire can carry without loss: the wire carries its
/// numbers as they are, its edges are well formed, and so is its registry.
pub open spec fn fits_wire(p: ProgramView) -> bool {
    &&& within_wire(p)
    &&& forall|i: int| 0 <= i < p.edges.len() ==> (#[trigger] p.edges[i]).edge.wf()
    &&& config_wf(p.config)
}

/// An edge as it comes back from the wire: a projection of no columns has
/// become the projection of all.
pub open spec fn normalize_edge(link: EdgeLink) -> EdgeLink {
    EdgeLink {
        edge: EdgeView {
            projection: match link.edge.projection {
                Some(p) => if p.len() == 0 {
                    None
                } else {
                    Some(p)
                },
                None => None,
            },
            ..link.edge
        },
        ..link
    }
}

/// A program as it comes back from the wire.
pub open spec fn normalize(p: ProgramView) -> ProgramView {
    ProgramView { edges: Seq::new(p.edges.len(), |i: int| normalize_edge(p.edges[i])), ..p }
}

/// No node is faulty exactly when every operator name names an operator.
pub proof fn lemma_first_bad_node(nodes: Seq<WireNodeView>, from: int)
    requires
        0 <= from,
    ensures
        first_bad_node(nodes, from) is None <==> (forall|k: int|
            from <= k < nodes.len() ==> parse_operator((#[trigger] nodes[k]).operator_name) is Some),
    decreases nodes.len() - from,
{
    if from < nodes.len() && parse_operator(nodes[from].operator_name) is Some {
        lemma_first_bad_node(nodes, from + 1);
    }
}

/// No edge is faulty exactly when nothing is wrong with any edge.
pub proof fn lemma_first_bad_edge(edges: Seq<WireEdgeView>, table: Map<i32, usize>, from: int)
    requires
        0 <= from,
    ensures
        first_bad_edge(edges, table, from) is None <==> (forall|k: int|
            from <= k < edges.len() ==> edge_fault(#[trigger] edges[k], table) is None),
    decreases edges.len() - from,
{
    if from < edges.len() && edge_fault(edges[from], table) is None {
        lemma_first_bad_edge(edges, table, from + 1);
    }
}

/// Nodes that carry their positions as their indices build the table that
/// takes each index to itself.
pub proof fn lemma_index_table_of_positions(nodes: Seq<WireNodeView>, count: int)
    requires
        0 <= count <= nodes.len(),
        count <= i32::MAX,
        forall|k: int| 0 <= k < nodes.len() ==> (#[trigger] nodes[k]).node_index == k,
    ensures
        forall|key: i32| #[trigger] index_table(nodes, count).contains_key(key) <==> 0 <= key < count,
        forall|key: i32| 0 <= key < count ==> #[trigger] index_table(nodes, count)[key] == key,
    decreases count,
{
    if count > 0 {
        lemma_index_table_of_positions(nodes, count - 1);
        let before = index_table(nodes, count - 1);
        let after = index_table(nodes, count);
        assert(nodes[count - 1].node_index == count - 1);
        assert(after == before.insert((count - 1) as i32, (count - 1) as usize));
        assert forall|key: i32| #[trigger] after.contains_key(key) <==> 0 <= key < count by {
            assert(before.contains_key(key) <==> 0 <= key < count - 1);
        }
        assert forall|key: i32| 0 <= key < count implies #[trigger] after[key] == key by {
            if key < count - 1 {
                assert(before.contains_key(key));
                assert(before[key] == key);
            }
        }
    }
}

/// Positions that fit in 32 bits come back from the wire as they went.
pub proof fn lemma_indices_round_trip(indices: Seq<usize>)
    requires
        indices_fit(indices),
    ensures
        widen_indices(narrow_indices(indices)) == indices,
        narrow_indices(indices).len() == indices.len(),
{
    assert(widen_indices(narrow_indices(indices)) =~= indices);
}

/// A node whose parallelism fits in 32 bits comes back from the wire as it
/// went.
pub proof fn lemma_node_round_trip(node: NodeView, index: int)
    requires
        node.parallelism <= u32::MAX,
    ensures
        parse_operator(encode_node(node, index).operator_name) is Some,
        decode_node(encode_node(node, index)) == node,
{
    lemma_operator_round_trip(node.operator_name);
}

/// A well-formed edge between nodes of a program that the wire can number
/// is read back without fault, normalized.
pub proof fn lemma_edge_round_trip(link: EdgeLink, table: Map<i32, usize>, count: int)
    requires
        0 <= count <= i32::MAX,
        forall|key: i32| #[trigger] table.contains_key(key) <==> 0 <= key < count,
        forall|key: i32| 0 <= key < count ==> #[trigger] table[key] == key,
        edge_within_wire(link, count),
        link.edge.wf(),
    ensures
        edge_fault(encode_edge(link), table) is None,
        decode_edge(encode_edge(link), table) == normalize_edge(link),
{
    let wire = encode_edge(link);
    let schema = link.edge.schema;
    lemma_edge_type_round_trip(link.edge.edge_type);
    lemma_indices_round_trip(schema.key_indices);
    assert(decode_schema(encode_schema(schema)) == schema);
    assert(table.contains_key(wire.source));
    assert(table.contains_key(wire.target));
    match link.edge.projection {
        Some(p) => {
            lemma_indices_round_trip(p);
        },
        None => {},
    }
    let back = decode_edge_payload(wire);
    assert(back == normalize_edge(link).edge);
    assert(back.wf());
    back.lemma_fault_wf();
}

/// Round trip: a program that the wire can carry without loss, written to
/// the wire and read back, is the program itself with the same nodes, the
/// same edges between the same nodes, and the same registry; only a
/// projection of no columns comes back as the projection of all.
pub proof fn lemma_round_trip(p: ProgramView)
    requires
        fits_wire(p),
    ensures
        decode_program(encode_program(p)) == Ok::<ProgramView, ProgramFault>(normalize(p)),
{
    let w = encode_program(p);
    let n = p.nodes.len() as int;
    assert forall|k: int| 0 <= k < w.nodes.len() implies parse_operator(
        (#[trigger] w.nodes[k]).operator_name,
    ) is Some by {
        lemma_node_round_trip(p.nodes[k], k);
    }
    lemma_first_bad_node(w.nodes, 0);
    let table = index_table(w.nodes, n);
    lemma_index_table_of_positions(w.nodes, n);
    assert forall|k: int| 0 <= k < w.edges.len() implies edge_fault(#[trigger] w.edges[k], table)
        is None by {
        lemma_edge_round_trip(p.edges[k], table, n);
    }
    lemma_first_bad_edge(w.edges, table, 0);
    lemma_config_round_trip(p.config);
    lemma_put_all_of_sorted(p.config, p.config.len() as int);
    assert(p.config.take(p.config.len() as int) =~= p.config);
    assert(wire_registry(w) == p.config);
    let nodes = Seq::new(w.nodes.len(), |i: int| decode_node(w.nodes[i]));
    let edges = Seq::new(w.edges.len(), |i: int| decode_edge(w.edges[i], table));
    assert(nodes =~= p.nodes) by {
        assert forall|k: int| 0 <= k < nodes.len() implies nodes[k] == p.nodes[k] by {
            lemma_node_round_trip(p.nodes[k], k);
        }
    }
    assert(edges =~= normalize(p).edges) by {
        assert forall|k: int| 0 <= k < edges.len() implies edges[k] == normalize(p).edges[k] by {
            lemma_edge_round_trip(p.edges[k], table, n);
        }
    }
}

/// A node whose parallelism fits in 32 bits is told by its wire form.
pub proof fn lemma_node_told(a: NodeView, b: NodeView, index: int)
    requires
        a.parallelism <= u32::MAX,
        b.parallelism <= u32::MAX,
        encode_node(a, index) == encode_node(b, index),
    ensures
        a == b,
{
    lemma_operator_round_trip(a.operator_name);
    lemma_operator_round_trip(b.operator_name);
}

/// Positions that fit in 32 bits are told by what the wire writes for
/// them.
pub proof fn lemma_indices_told(a: Seq<usize>, b: Seq<usize>)
    requires
        indices_fit(a),
        indices_fit(b),
        narrow_indices(a) == narrow_indices(b),
    ensures
        a == b,
{
    assert(a.len() == narrow_indices(a).len());
    assert(b.len() == narrow_indices(b).len());
    assert forall|i: int| 0 <= i < a.len() implies a[i] == b[i] by {
        assert(narrow_indices(a)[i] == a[i] as u32);
        assert(narrow_indices(b)[i] == b[i] as u32);
        assert(a[i] <= u32::MAX && b[i] <= u32::MAX);
    }
    assert(a =~= b);
}

/// An edge that the wire carries as it is is told by its wire form, up to
/// a projection of no columns.
pub proof fn lemma_edge_told(a: EdgeLink, b: EdgeLink, count_a: int, count_b: int)
    requires
        count_a <= i32::MAX,
        count_b <= i32::MAX,
        edge_within_wire(a, count_a),
        edge_within_wire(b, count_b),
        encode_edge(a) == encode_edge(b),
    ensures
        normalize_edge(a) == normalize_edge(b),
{
    let wa = encode_edge(a);
    let wb = encode_edge(b);
    lemma_edge_type_round_trip(a.edge.edge_type);
    lemma_edge_type_round_trip(b.edge.edge_type);
    assert(wa.schema == wb.schema);
    lemma_indices_told(a.edge.schema.key_indices, b.edge.schema.key_indices);
    assert(a.edge.schema == b.edge.schema);
    assert(wa.projection == wb.projection);
    match (a.edge.projection, b.edge.projection) {
        (Some(pa), Some(pb)) => {
            lemma_indices_told(pa, pb);
        },
        (Some(pa), None) => {
            assert(narrow_indices(pa).len() == pa.len());
        },
        (None, Some(pb)) => {
            assert(narrow_indices(pb).len() == pb.len());
        },
        (None, None) => {},
    }
    assert(wa.edge_type == wb.edge_type);
    assert(a.edge.edge_type == b.edge.edge_type);
}

/// The wire form tells programs apart: two programs whose numbers the wire
/// carries as they are and that have one wire form have the same nodes,
/// the same registry in the order of its names, and the same edges
/// between the same nodes up to
/// projections of no columns. So a change to a node's parallelism or
/// configuration, or to an edge's type, schema or projected columns,
/// shows on the wire.
pub proof fn lemma_wire_form_tells_apart(p: ProgramView, q: ProgramView)
    requires
        within_wire(p),
        within_wire(q),
        encode_program(p) == encode_program(q),
    ensures
        p.nodes == q.nodes,
        canonical(p.config) == canonical(q.config),
        p.edges.len() == q.edges.len(),
        forall|i: int|
            0 <= i < p.edges.len() ==> normalize_edge(#[trigger] p.edges[i]) == normalize_edge(
                q.edges[i],
            ),
{
    let wp = encode_program(p);
    let wq = encode_program(q);
    assert(p.nodes.len() == wp.nodes.len());
    assert(q.nodes.len() == wq.nodes.len());
    assert forall|i: int| 0 <= i < p.nodes.len() implies p.nodes[i] == q.nodes[i] by {
        assert(wp.nodes[i] == encode_node(p.nodes[i], i));
        assert(wq.nodes[i] == encode_node(q.nodes[i], i));
        lemma_node_told(p.nodes[i], q.nodes[i], i);
    }
    assert(p.nodes =~= q.nodes);
    assert(p.edges.len() == wp.edges.len());
    assert(q.edges.len() == wq.edges.len());
    assert forall|i: int| 0 <= i < p.edges.len() implies normalize_edge(#[trigger] p.edges[i])
        == normalize_edge(q.edges[i]) by {
        assert(wp.edges[i] == encode_edge(p.edges[i]));
        assert(wq.edges[i] == encode_edge(q.edges[i]));
        lemma_edge_told(p.edges[i], q.edges[i], p.nodes.len() as int, q.nodes.len() as int);
    }
    assert(wp.program_config == Some(canonical(p.config)));
    assert(wq.program_config == Some(canonical(q.config)));
}

/// The first faulty edge is faulty, and no edge before it is.
pub proof fn lemma_first_bad_edge_is_first(
    edges: Seq<WireEdgeView>,
    table: Map<i32, usize>,
    from: int,
)
    requires
        0 <= from,
    ensures
        first_bad_edge(edges, table, from) matches Some(i) ==> {
            &&& from <= i < edges.len()
            &&& edge_fault(edges[i], table) is Some
            &&& forall|j: int| from <= j < i ==> edge_fault(#[trigger] edges[j], table) is None
        },
    decreases edges.len() - from,
{
    if from < edges.len() && edge_fault(edges[from], table) is None {
        lemma_first_bad_edge_is_first(edges, table, from + 1);
    }
}

/// Where every operator name names an operator, the first edge with which
/// something is wrong decides what reading the program gives: the first
/// thing wrong with it. So an edge whose source or target no node carries
/// is rejected with `DanglingEdgeReference` and its index, and an edge
/// with the sentinel edge type with `SentinelEdgeType`, unless an earlier
/// edge or an earlier fault of the same edge is reported in its place.
pub proof fn lemma_first_faulty_edge_rejected(w: crate::wire::WireProgramView, k: int)
    requires
        first_bad_node(w.nodes, 0) is None,
        0 <= k < w.edges.len(),
        edge_fault(w.edges[k], index_table(w.nodes, w.nodes.len() as int)) is Some,
        forall|j: int|
            0 <= j < k ==> edge_fault(
                #[trigger] w.edges[j],
                index_table(w.nodes, w.nodes.len() as int),
            ) is None,
    ensures
        decode_program(w) == Err::<ProgramView, ProgramFault>(
            edge_fault(w.edges[k], index_table(w.nodes, w.nodes.len() as int)).unwrap(),
        ),
{
    let table = index_table(w.nodes, w.nodes.len() as int);
    lemma_first_bad_edge(w.edges, table, 0);
    lemma_first_bad_edge_is_first(w.edges, table, 0);
    let i = first_bad_edge(w.edges, table, 0).unwrap();
    if i < k {
        assert(edge_fault(w.edges[i], table) is None);
    }
    if k < i {
        assert(edge_fault(w.edges[k], table) is None);
    }
}

/// A wire program that is read without error has no node with an unknown
/// operator name and no edge with which anything is wrong: no edge with an
/// end that no node carries, none without a schema, none with the sentinel
/// edge type, none with a faulty schema or projection.
pub proof fn lemma_read_means_faultless(w: crate::wire::WireProgramView)
    requires
        decode_program(w) is Ok,
    ensures
        forall|k: int|
            0 <= k < w.nodes.len() ==> parse_operator((#[trigger] w.nodes[k]).operator_name) is Some,
        forall|k: int|
            0 <= k < w.edges.len() ==> edge_fault(
                #[trigger] w.edges[k],
                index_table(w.nodes, w.nodes.len() as int),
            ) is None,
{
    let table = index_table(w.nodes, w.nodes.len() as int);
    lemma_first_bad_node(w.nodes, 0);
    lemma_first_bad_edge(w.edges, table, 0);
}

} // verus!
