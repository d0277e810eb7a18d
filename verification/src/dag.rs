//! The stage/edge declaration of a pipeline and its validation: no
//! duplicate port handles, no dangling port references, no cycles. A
//! declaration that passes becomes an execution plan; one that fails is
//! rejected with a `GraphError` before any stage initializes.

use vstd::prelude::*;
use vstd::seq_lib::*;
use vstd::set_lib::*;

verus! {

/// An opaque port identifier, unique within a stage's input set and
/// within its output set independently.
pub type PortHandle = u16;

/// The handle a stage's implicit default port goes by when the stage
/// declares no explicit port list.
pub const DEFAULT_PORT_HANDLE: PortHandle = 0;

/// What a stage is: a source has no inputs, a sink no outputs.
#[derive(Clone, Copy, Debug, PartialEq, Eq, Structural)]
pub enum NodeRole {
    Source,
    Processor,
    Sink,
}

/// One declared stage: its role and its port declarations, where `None`
/// is the explicit marker for the single default port — never a bare
/// absence of ports.
#[derive(Clone, Debug)]
pub struct NodeDecl {
    pub role: NodeRole,
    pub input_ports: Option<Vec<PortHandle>>,
    pub output_ports: Option<Vec<PortHandle>>,
}

/// One end of an edge: a stage and a port on it.
#[derive(Clone, Copy, Debug, PartialEq, Eq, Structural)]
pub struct Endpoint {
    pub node: usize,
    pub port: PortHandle,
}

/// A bounded, ordered transport from one output port to one input port.
#[derive(Clone, Copy, Debug, PartialEq, Eq, Structural)]
pub struct Edge {
    pub from: Endpoint,
    pub to: Endpoint,
}

/// A whole pipeline declaration.
#[derive(Clone, Debug)]
pub struct Dag {
    pub nodes: Vec<NodeDecl>,
    pub edges: Vec<Edge>,
}

/// Why a declaration was rejected, with the offending stage or edge.
#[derive(Clone, Copy, Debug, PartialEq, Eq, Structural)]
pub enum GraphError {
    Cycle,
    DanglingPort(usize),
    DuplicateHandle(usize),
}

/// The ports a declaration names: an explicit list, or the default port.
pub open spec fn ports_of(p: Option<Seq<PortHandle>>) -> Seq<PortHandle> {
    match p {
        Some(v) => v,
        None => seq![DEFAULT_PORT_HANDLE],
    }
}

/// The view of a port declaration.
pub open spec fn port_decl_view(p: Option<Vec<PortHandle>>) -> Option<Seq<PortHandle>> {
    match p {
        Some(v) => Some(v@),
        None => None,
    }
}

/// A port list with no handle declared twice.
pub open spec fn distinct_ports(s: Seq<PortHandle>) -> bool {
    forall|i: int, j: int| 0 <= i < j < s.len() ==> s[i] != s[j]
}

/// The declared input ports of node `v`.
pub open spec fn input_ports_of(d: Dag, v: int) -> Seq<PortHandle> {
    ports_of(port_decl_view(d.nodes@[v].input_ports))
}

/// The declared output ports of node `v`.
pub open spec fn output_ports_of(d: Dag, v: int) -> Seq<PortHandle> {
    ports_of(port_decl_view(d.nodes@[v].output_ports))
}

/// No node declares a port handle twice, on either side.
pub open spec fn no_duplicate_handles(d: Dag) -> bool {
    forall|v: int|
        0 <= v < d.nodes@.len() ==> distinct_ports(#[trigger] input_ports_of(d, v))
            && distinct_ports(output_ports_of(d, v))
}

/// The first node, if any, that declares some handle twice.
pub open spec fn node_has_duplicate(d: Dag, v: int) -> bool {
    !distinct_ports(input_ports_of(d, v)) || !distinct_ports(output_ports_of(d, v))
}

/// Both endpoints of the edge exist, their roles can carry it, and the
/// named ports are declared.
pub open spec fn edge_valid(d: Dag, e: Edge) -> bool {
    &&& e.from.node < d.nodes@.len()
    &&& e.to.node < d.nodes@.len()
    &&& d.nodes@[e.from.node as int].role != NodeRole::Sink
    &&& d.nodes@[e.to.node as int].role != NodeRole::Source
    &&& output_ports_of(d, e.from.node as int).contains(e.from.port)
    &&& input_ports_of(d, e.to.node as int).contains(e.to.port)
}

/// Every edge is valid.
pub open spec fn edges_valid(d: Dag) -> bool {
    forall|k: int| 0 <= k < d.edges@.len() ==> edge_valid(d, #[trigger] d.edges@[k])
}

/// Acyclicity: some ranking of the nodes sends every edge strictly
/// forward.
pub open spec fn spec_acyclic(d: Dag) -> bool {
    exists|rank: Seq<int>|
        rank.len() == d.nodes@.len() && #[trigger] rank_respects(rank, d.edges@)
}

/// Every edge goes from a lower rank to a higher one.
pub open spec fn rank_respects(rank: Seq<int>, edges: Seq<Edge>) -> bool {
    forall|k: int|
        0 <= k < edges.len() ==> rank[(#[trigger] edges[k]).from.node as int] < rank[
            edges[k].to.node as int
        ]
}

/// A declaration the runtime will accept.
pub open spec fn spec_valid(d: Dag) -> bool {
    no_duplicate_handles(d) && edges_valid(d) && spec_acyclic(d)
}

/// The declared ports as an owned list, the default port spelled out.
fn port_list(p: &Option<Vec<PortHandle>>) -> (r: Vec<PortHandle>)
    ensures
        r@ == ports_of(port_decl_view(*p)),
{
    match p {
        Some(v) => {
            let mut r: Vec<PortHandle> = Vec::new();
            let mut i: usize = 0;
            while i < v.len()
                invariant
                    i <= v@.len(),
                    r@ == v@.subrange(0, i as int),
                decreases v@.len() - i,
            {
                r.push(v[i]);
                i += 1;
            }
            proof {
                assert(r@ =~= v@);
            }
            r
        },
        None => {
            let mut r: Vec<PortHandle> = Vec::new();
            r.push(DEFAULT_PORT_HANDLE);
            proof {
                assert(r@ =~= seq![DEFAULT_PORT_HANDLE]);
            }
            r
        },
    }
}

/// Whether the list declares any handle twice.
fn has_duplicate(v: &Vec<PortHandle>) -> (r: bool)
    ensures
        r == !distinct_ports(v@),
{
    let mut i: usize = 0;
    while i < v.len()
        invariant
            i <= v@.len(),
            forall|a: int, b: int| 0 <= a < b < v@.len() && a < i ==> v@[a] != v@[b],
        decreases v@.len() - i,
    {
        let mut j: usize = i + 1;
        while j < v.len()
            invariant
                i < j ==> i < v@.len(),
                i + 1 <= j <= v@.len() || (i + 1 > v@.len() && j == i + 1),
                forall|b: int| i < b < j ==> v@[i as int] != v@[b],
            decreases v@.len() - j,
        {
            if v[i] == v[j] {
                return true;
            }
            j += 1;
        }
        i += 1;
    }
    false
}

/// Whether the list holds `port`.
fn list_contains(v: &Vec<PortHandle>, port: PortHandle) -> (r: bool)
    ensures
        r == v@.contains(port),
{
    let mut i: usize = 0;
    while i < v.len()
        invariant
            i <= v@.len(),
            forall|a: int| 0 <= a < i ==> v@[a] != port,
        decreases v@.len() - i,
    {
        if v[i] == port {
            return true;
        }
        i += 1;
    }
    false
}

/// Overwrites one element of a boolean table.
fn set_bool(v: &mut Vec<bool>, i: usize, value: bool)
    requires
        i < old(v)@.len(),
    ensures
        final(v)@ == old(v)@.update(i as int, value),
{
    let ghost pre = v@;
    v.remove(i);
    v.insert(i, value);
    proof {
        assert(v@ =~= pre.update(i as int, value));
    }
}

/// Overwrites one element of a rank table.
fn set_usize(v: &mut Vec<usize>, i: usize, value: usize)
    requires
        i < old(v)@.len(),
    ensures
        final(v)@ == old(v)@.update(i as int, value),
{
    let ghost pre = v@;
    v.remove(i);
    v.insert(i, value);
    proof {
        assert(v@ =~= pre.update(i as int, value));
    }
}

/// A node not yet removed all of whose incoming edges start at removed
/// nodes — the next node a topological pass may take out.
fn find_removable(d: &Dag, removed: &Vec<bool>) -> (r: Option<usize>)
    requires
        removed@.len() == d.nodes@.len(),
        edges_valid(*d),
    ensures
        r matches Some(v) ==> v < d.nodes@.len() && !removed@[v as int] && forall|k: int|
            0 <= k < d.edges@.len() && (#[trigger] d.edges@[k]).to.node == v ==> removed@[
                d.edges@[k].from.node as int
            ],
        r is None ==> forall|v: int|
            0 <= v < d.nodes@.len() && !removed@[v] ==> exists|k: int|
                0 <= k < d.edges@.len() && (#[trigger] d.edges@[k]).to.node == v && !removed@[
                    d.edges@[k].from.node as int
                ],
{
    let mut v: usize = 0;
    while v < d.nodes.len()
        invariant
            removed@.len() == d.nodes@.len(),
            edges_valid(*d),
            v <= d.nodes@.len(),
            forall|u: int|
                0 <= u < v && !removed@[u] ==> exists|k: int|
                    0 <= k < d.edges@.len() && (#[trigger] d.edges@[k]).to.node == u && !removed@[
                        d.edges@[k].from.node as int
                    ],
        decreases d.nodes@.len() - v,
    {
        if !removed[v] {
            let mut blocked = false;
            let mut k: usize = 0;
            while k < d.edges.len()
                invariant
                    removed@.len() == d.nodes@.len(),
                    edges_valid(*d),
                    v < d.nodes@.len(),
                    k <= d.edges@.len(),
                    !blocked ==> forall|kk: int|
                        0 <= kk < k && (#[trigger] d.edges@[kk]).to.node == v ==> removed@[
                            d.edges@[kk].from.node as int
                        ],
                    blocked ==> exists|kk: int|
                        0 <= kk < d.edges@.len() && (#[trigger] d.edges@[kk]).to.node == v
                            && !removed@[d.edges@[kk].from.node as int],
                decreases d.edges@.len() - k,
            {
                if d.edges[k].to.node == v && !removed[d.edges[k].from.node] {
                    blocked = true;
                }
                k += 1;
            }
            if !blocked {
                return Some(v);
            }
        }
        v += 1;
    }
    None
}

/// In any nonempty set of surviving nodes there is one of least rank.
proof fn lemma_min_surviving(removed: Seq<bool>, w: Seq<int>, i: int) -> (m: int)
    requires
        removed.len() == w.len(),
        0 <= i < removed.len(),
        exists|v: int| i <= v < removed.len() && !removed[v],
    ensures
        i <= m < removed.len(),
        !removed[m],
        forall|v: int| i <= v < removed.len() && !removed[v] ==> w[m] <= w[v],
    decreases removed.len() - i,
{
    if exists|v: int| i + 1 <= v < removed.len() && !removed[v] {
        let m2 = lemma_min_surviving(removed, w, i + 1);
        if !removed[i] && w[i] <= w[m2] {
            i
        } else {
            m2
        }
    } else {
        assert(!removed[i]);
        i
    }
}

/// Checks a declaration: no duplicate handles, then no dangling or
/// incompatible edges, then no cycles — exactly the conditions under
/// which the runtime accepts it.
pub fn validate(d: &Dag) -> (r: Result<(), GraphError>)
    ensures
        r is Ok <==> spec_valid(*d),
        r matches Err(GraphError::DuplicateHandle(v)) ==> v < d.nodes@.len()
            && node_has_duplicate(*d, v as int),
        r matches Err(GraphError::DanglingPort(k)) ==> no_duplicate_handles(*d) && k
            < d.edges@.len() && !edge_valid(*d, d.edges@[k as int]),
        r == Err::<(), GraphError>(GraphError::Cycle) ==> no_duplicate_handles(*d) && edges_valid(
            *d,
        ) && !spec_acyclic(*d),
{
    let mut v: usize = 0;
    while v < d.nodes.len()
        invariant
            v <= d.nodes@.len(),
            forall|u: int| 0 <= u < v ==> !node_has_duplicate(*d, u),
        decreases d.nodes@.len() - v,
    {
        let ins = port_list(&d.nodes[v].input_ports);
        let outs = port_list(&d.nodes[v].output_ports);
        if has_duplicate(&ins) || has_duplicate(&outs) {
            proof {
                assert(node_has_duplicate(*d, v as int));
                assert(!no_duplicate_handles(*d)) by {
                    if no_duplicate_handles(*d) {
                        assert(distinct_ports(input_ports_of(*d, v as int)) && distinct_ports(
                            output_ports_of(*d, v as int),
                        ));
                    }
                }
            }
            return Err(GraphError::DuplicateHandle(v));
        }
        v += 1;
    }
    assert forall|u: int| 0 <= u < d.nodes@.len() implies distinct_ports(
        #[trigger] input_ports_of(*d, u),
    ) && distinct_ports(output_ports_of(*d, u)) by {
        assert(!node_has_duplicate(*d, u));
    }
    assert(no_duplicate_handles(*d));
    let mut k: usize = 0;
    while k < d.edges.len()
        invariant
            no_duplicate_handles(*d),
            k <= d.edges@.len(),
            forall|kk: int| 0 <= kk < k ==> edge_valid(*d, #[trigger] d.edges@[kk]),
        decreases d.edges@.len() - k,
    {
        let e = d.edges[k];
        if e.from.node >= d.nodes.len() || e.to.node >= d.nodes.len() {
            return Err(GraphError::DanglingPort(k));
        }
        let from_role_ok = match d.nodes[e.from.node].role {
            NodeRole::Sink => false,
            _ => true,
        };
        let to_role_ok = match d.nodes[e.to.node].role {
            NodeRole::Source => false,
            _ => true,
        };
        if !from_role_ok || !to_role_ok {
            return Err(GraphError::DanglingPort(k));
        }
        let outs = port_list(&d.nodes[e.from.node].output_ports);
        let ins = port_list(&d.nodes[e.to.node].input_ports);
        if !list_contains(&outs, e.from.port) || !list_contains(&ins, e.to.port) {
            return Err(GraphError::DanglingPort(k));
        }
        k += 1;
    }
    assert(edges_valid(*d));
    let n = d.nodes.len();
    let mut removed: Vec<bool> = Vec::new();
    let mut rank: Vec<usize> = Vec::new();
    let mut i: usize = 0;
    while i < n
        invariant
            i <= n,
            removed@.len() == i,
            rank@.len() == i,
            forall|u: int| 0 <= u < i ==> !removed@[u],
        decreases n - i,
    {
        removed.push(false);
        rank.push(0);
        i += 1;
    }
    let mut order: Vec<usize> = Vec::new();
    while order.len() < n
        invariant
            n == d.nodes@.len(),
            no_duplicate_handles(*d),
            edges_valid(*d),
            removed@.len() == n,
            rank@.len() == n,
            order@.len() <= n,
            forall|p: int|
                0 <= p < order@.len() ==> (#[trigger] order@[p]) < n && removed@[
                    order@[p] as int
                ] && rank@[order@[p] as int] == p,
            forall|u: int|
                0 <= u < n && removed@[u] ==> exists|p: int|
                    0 <= p < order@.len() && #[trigger] order@[p] == u,
            forall|kk: int|
                0 <= kk < d.edges@.len() && removed@[(#[trigger] d.edges@[kk]).to.node as int]
                    ==> removed@[d.edges@[kk].from.node as int] && rank@[
                    d.edges@[kk].from.node as int
                ] < rank@[d.edges@[kk].to.node as int],
        decreases n - order.len(),
    {
        match find_removable(d, &removed) {
            Some(w) => {
                let ghost pre_removed = removed@;
                let ghost pre_rank = rank@;
                let ghost pre_order = order@;
                set_bool(&mut removed, w, true);
                set_usize(&mut rank, w, order.len());
                order.push(w);
                proof {
                    assert forall|p: int| 0 <= p < order@.len() implies (#[trigger] order@[p]) < n
                        && removed@[order@[p] as int] && rank@[order@[p] as int] == p by {
                        if p < pre_order.len() {
                            assert(pre_order[p] < n && pre_removed[pre_order[p] as int]
                                && pre_rank[pre_order[p] as int] == p);
                            assert(pre_order[p] != w);
                        }
                    }
                    assert forall|kk: int|
                        0 <= kk < d.edges@.len() && removed@[(
                        #[trigger] d.edges@[kk]).to.node as int] implies removed@[
                        d.edges@[kk].from.node as int
                    ] && rank@[d.edges@[kk].from.node as int] < rank@[
                        d.edges@[kk].to.node as int
                    ] by {
                        let e = d.edges@[kk];
                        if e.to.node as int == w as int {
                            assert(pre_removed[e.from.node as int]);
                            let p = choose|p: int|
                                0 <= p < pre_order.len() && #[trigger] pre_order[p]
                                    == e.from.node as int;
                            assert(pre_rank[e.from.node as int] == p);
                            assert(e.from.node as int != w as int);
                        } else {
                            assert(pre_removed[e.to.node as int]);
                            assert(pre_removed[e.from.node as int]);
                            assert(e.from.node as int != w as int && e.to.node as int != w as int);
                        }
                    }
                    assert forall|u: int| 0 <= u < n && removed@[u] implies exists|p: int|
                        0 <= p < order@.len() && #[trigger] order@[p] == u by {
                        if u == w as int {
                            assert(order@[order@.len() - 1] == w);
                        } else {
                            assert(pre_removed[u]);
                            let p = choose|p: int|
                                0 <= p < pre_order.len() && #[trigger] pre_order[p] == u;
                            assert(order@[p] == u);
                        }
                    }
                }
            },
            None => {
                proof {
                    lemma_stall_not_acyclic(*d, removed@, order@);
                }
                return Err(GraphError::Cycle);
            },
        }
    }
    proof {
        lemma_full_order_acyclic(*d, removed@, rank@, order@);
    }
    Ok(())
}

/// When every node is removed in a pass order whose ranks send each edge
/// forward, that rank table witnesses acyclicity.
proof fn lemma_full_order_acyclic(d: Dag, removed: Seq<bool>, rank: Seq<usize>, order: Seq<usize>)
    requires
        removed.len() == d.nodes@.len(),
        rank.len() == d.nodes@.len(),
        order.len() == d.nodes@.len(),
        forall|p: int|
            0 <= p < order.len() ==> (#[trigger] order[p]) < d.nodes@.len() && removed[
                order[p] as int
            ] && rank[order[p] as int] == p,
        forall|kk: int|
            0 <= kk < d.edges@.len() && removed[(#[trigger] d.edges@[kk]).to.node as int]
                ==> removed[d.edges@[kk].from.node as int] && rank[d.edges@[kk].from.node as int]
                < rank[d.edges@[kk].to.node as int],
        edges_valid(d),
    ensures
        spec_acyclic(d),
{
    let n = d.nodes@.len() as int;
    let order_int = order.map_values(|x: usize| x as int);
    assert(order_int.no_duplicates()) by {
        assert forall|p: int, q: int|
            0 <= p < order_int.len() && 0 <= q < order_int.len() && p != q implies order_int[p]
            != order_int[q] by {
            assert(rank[order[p] as int] == p && rank[order[q] as int] == q);
        }
    }
    order_int.unique_seq_to_set();
    let oset = order_int.to_set();
    let range = set_int_range(0, n);
    lemma_int_range(0, n);
    assert(oset.subset_of(range)) by {
        assert forall|x: int| oset.contains(x) implies range.contains(x) by {
            let p = choose|p: int| 0 <= p < order_int.len() && order_int[p] == x;
            assert(order[p] < d.nodes@.len());
        }
    }
    assert forall|u: int| 0 <= u < n implies removed[u] by {
        if !oset.contains(u) {
            oset.lemma_subset_not_in_lt(range, u);
            assert(false);
        }
        let p = choose|p: int| 0 <= p < order_int.len() && order_int[p] == u;
        assert(removed[order[p] as int]);
    }
    let witness = rank.map_values(|x: usize| x as int);
    assert(rank_respects(witness, d.edges@)) by {
        assert forall|kk: int| 0 <= kk < d.edges@.len() implies witness[(
        #[trigger] d.edges@[kk]).from.node as int] < witness[d.edges@[kk].to.node as int] by {
            assert(removed[d.edges@[kk].to.node as int]);
        }
    }
    assert(witness.len() == d.nodes@.len());
}

/// When some nodes survive and every survivor keeps an incoming edge
/// from a survivor, no ranking can send all edges forward: the survivors
/// hold a cycle.
#[verifier::rlimit(100)]
proof fn lemma_stall_not_acyclic(d: Dag, removed: Seq<bool>, order: Seq<usize>)
    requires
        removed.len() == d.nodes@.len(),
        order.len() < d.nodes@.len(),
        forall|p: int|
            0 <= p < order.len() ==> (#[trigger] order[p]) < d.nodes@.len() && removed[
                order[p] as int
            ],
        forall|u: int|
            0 <= u < d.nodes@.len() && removed[u] ==> exists|p: int|
                0 <= p < order.len() && #[trigger] order[p] == u,
        forall|v: int|
            0 <= v < d.nodes@.len() && !removed[v] ==> exists|k: int|
                0 <= k < d.edges@.len() && (#[trigger] d.edges@[k]).to.node == v && !removed[
                    d.edges@[k].from.node as int
                ],
        edges_valid(d),
    ensures
        !spec_acyclic(d),
{
    let n = d.nodes@.len() as int;
    assert(exists|v: int| 0 <= v < n && !removed[v]) by {
        if forall|v: int| 0 <= v < n ==> removed[v] {
            let order_int = order.map_values(|x: usize| x as int);
            let range = set_int_range(0, n);
            lemma_int_range(0, n);
            assert(range.subset_of(order_int.to_set())) by {
                assert forall|x: int| range.contains(x) implies order_int.to_set().contains(
                    x,
                ) by {
                    assert(removed[x]);
                    let p = choose|p: int| 0 <= p < order.len() && #[trigger] order[p] == x;
                    assert(order_int[p] == x);
                }
            }
            lemma_len_subset(range, order_int.to_set());
            order_int.lemma_cardinality_of_set();
            assert(false);
        }
    }
    if spec_acyclic(d) {
        let w = choose|rank: Seq<int>|
            rank.len() == d.nodes@.len() && #[trigger] rank_respects(rank, d.edges@);
        let m = lemma_min_surviving(removed, w, 0);
        let k = choose|k: int|
            0 <= k < d.edges@.len() && (#[trigger] d.edges@[k]).to.node == m && !removed[
                d.edges@[k].from.node as int
            ];
        assert(w[d.edges@[k].from.node as int] < w[m]);
        assert(w[m] <= w[d.edges@[k].from.node as int]);
        assert(false);
    }
}

} // verus!
