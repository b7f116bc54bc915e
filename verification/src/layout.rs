//! The layout engine: builds an ephemeral physics model over a snapshot of
//! the graph store, advances it one discrete tick at a time and reports the
//! simulation's own convergence signal.
//!
//! A layout is valid only for the exact topology it was built from; any
//! topology edit must discard it and a fresh one is built from the current
//! store. Edges reference nodes by their position in the snapshot's node
//! list, a local mapping rebuilt on every construction.

use vstd::prelude::*;

verus! {

use crate::graph;
use fjadra::Node as SimNode;
use crate::graph::{
    clone_edge_triples,
    neighbor_slots,
    seq_has_node_id,
    seq_node_slot,
    Edge,
    Graph,
    Node,
    NodeId,
    Pos,
};

/// Failures of the layout engine, each wrapping the graph store failure that
/// caused it.
#[derive(Debug)]
pub enum Error {
    GraphError(graph::Error),
}

impl Error {
    /// Human-readable rendering, offered in place of a `Display` impl.
    pub fn message(&self) -> String {
        match self {
            Error::GraphError(e) => e.message(),
        }
    }
}

#[verifier::external_type_specification]
#[verifier::external_body]
pub struct ExSimulation(fjadra::Simulation);

#[verifier::external_type_specification]
#[verifier::external_body]
pub struct ExSimNode(SimNode);

/// How many particles the simulation was built over. `fjadra` documents that
/// `positions` yields exactly one coordinate pair per supplied particle, in
/// the order they were supplied, and ticking never adds or removes
/// particles; this names that count.
pub uninterp spec fn sim_particle_count(sim: fjadra::Simulation) -> nat;

/// Relies on `fjadra::Node::default` and `Node::position`: a particle seed
/// with the given starting coordinates.
#[verifier::external_body]
fn fjadra_node_at(x: i32, y: i32) -> SimNode {
    SimNode::default().position(x.into(), y.into())
}

/// Relies on `fjadra::Node::default`: a particle seed left to the engine's
/// default placement.
#[verifier::external_body]
fn fjadra_node_default() -> SimNode {
    SimNode::default()
}

/// Relies on `fjadra::SimulationBuilder::build`, `Simulation::add_force`,
/// `Link::new` and `ManyBody::new`: a simulation over the given particles
/// with a link force pulling connected pairs toward a rest distance and a
/// repulsive many-body force preventing collapse. Link endpoints must be
/// in-range particle indices, which `Link`'s initialisation indexes by.
#[verifier::external_body]
fn build_simulation(particles: Vec<SimNode>, links: &Vec<(usize, usize)>) -> (sim:
    fjadra::Simulation)
    requires
        forall|k: int|
            0 <= k < links@.len() ==> (#[trigger] links@[k]).0 < particles@.len() && links@[k].1
                < particles@.len(),
    ensures
        sim_particle_count(sim) == particles@.len(),
{
    fjadra::SimulationBuilder::default().build(particles).add_force(
        "link",
        fjadra::Link::new(links.iter().map(|l| (l.0, l.1))),
    ).add_force("charge", fjadra::ManyBody::new())
}

/// Relies on `fjadra::Simulation::tick`: advances the simulation by the
/// given number of discrete ticks, leaving the particle set unchanged.
#[verifier::external_body]
fn sim_tick(sim: &mut fjadra::Simulation, iterations: usize)
    ensures
        sim_particle_count(*final(sim)) == sim_particle_count(*old(sim)),
{
    sim.tick(iterations);
}

/// Relies on `fjadra::Simulation::is_finished`: whether the simulation's
/// internal energy parameter has decayed below its stopping threshold.
#[verifier::external_body]
fn sim_is_finished(sim: &fjadra::Simulation) -> bool {
    sim.is_finished()
}

/// Relies on `fjadra::Simulation::positions`: one coordinate pair per
/// particle, in the order the particles were supplied, rounded here to the
/// store's integer coordinate units.
#[verifier::external_body]
fn sim_positions(sim: &fjadra::Simulation) -> (ps: Vec<Pos>)
    ensures
        ps@.len() == sim_particle_count(*sim),
{
    sim.positions().map(|p| Pos(p[0] as i32, p[1] as i32)).collect()
}

impl Node {
    /// The particle seed this node contributes to a simulation: fixed to its
    /// stored position when it has one, left to the engine-default placement
    /// otherwise.
    pub fn layout_node(&self) -> SimNode {
        match self.pos {
            Some(p) => fjadra_node_at(p.0, p.1),
            None => fjadra_node_default(),
        }
    }
}

/// How many of the nodes carry a position.
pub open spec fn positioned_count(ns: Seq<Node>) -> int
    decreases ns.len(),
{
    if ns.len() == 0 {
        0
    } else {
        positioned_count(ns.drop_last()) + if ns.last().pos is Some {
            1int
        } else {
            0int
        }
    }
}

/// The sum of the first coordinates of the positioned nodes.
pub open spec fn positioned_sum_x(ns: Seq<Node>) -> int
    decreases ns.len(),
{
    if ns.len() == 0 {
        0
    } else {
        positioned_sum_x(ns.drop_last()) + if ns.last().pos is Some {
            ns.last().pos.unwrap().0 as int
        } else {
            0
        }
    }
}

/// The sum of the second coordinates of the positioned nodes.
pub open spec fn positioned_sum_y(ns: Seq<Node>) -> int
    decreases ns.len(),
{
    if ns.len() == 0 {
        0
    } else {
        positioned_sum_y(ns.drop_last()) + if ns.last().pos is Some {
            ns.last().pos.unwrap().1 as int
        } else {
            0
        }
    }
}

/// Integer division truncating toward zero, the rounding the warm-start mean
/// uses.
pub open spec fn div_toward_zero(a: int, b: int) -> int {
    if a >= 0 {
        a / b
    } else {
        -((-a) / b)
    }
}

/// The warm-start position a layout seeds the node with: its own position if
/// it has one; otherwise the arithmetic mean of the positions of its
/// already-positioned neighbours in `g` (neighbours without a position are
/// skipped); absent when no neighbour is positioned, leaving the node to the
/// engine-default placement.
pub open spec fn warm_start_pos(g: Graph, node: Node) -> Option<Pos> {
    if node.pos is Some {
        node.pos
    } else {
        let ns = neighbor_slots(g.edges_seq(), g.node_slot(node.id@)).map_values(
            |s: int| g.nodes_seq()[s],
        );
        let cnt = positioned_count(ns);
        if cnt > 0 {
            Some(
                Pos(
                    div_toward_zero(positioned_sum_x(ns), cnt) as i32,
                    div_toward_zero(positioned_sum_y(ns), cnt) as i32,
                ),
            )
        } else {
            None
        }
    }
}

proof fn lemma_div_le(a: int, b: int, c: int)
    requires
        0 <= a,
        1 <= b,
        a <= b * c,
    ensures
        0 <= a / b <= c,
{
    vstd::arithmetic::div_mod::lemma_fundamental_div_mod(a, b);
    assert(0 <= a / b <= c) by (nonlinear_arith)
        requires
            1 <= b,
            0 <= a,
            b * (a / b) + (a % b) == a,
            0 <= a % b < b,
            a <= b * c,
    ;
}

/// Truncating division of an accumulated coordinate sum by the neighbour
/// count; the quotient is shown to fit the coordinate range.
fn mean_coord(sum: i128, count: i128) -> (r: i32)
    requires
        1 <= count <= 0x1_0000_0000_0000_0000,
        -(count * 0x8000_0000) <= sum <= count * 0x7fff_ffff,
    ensures
        r as int == div_toward_zero(sum as int, count as int),
{
    if sum >= 0 {
        proof {
            lemma_div_le(sum as int, count as int, 0x7fff_ffff);
        }
        let q: u128 = (sum as u128) / (count as u128);
        q as i32
    } else {
        proof {
            assert(count * 0x8000_0000 <= 0x1_0000_0000_0000_0000 * 0x8000_0000)
                by (nonlinear_arith)
                requires
                    1 <= count <= 0x1_0000_0000_0000_0000,
            ;
            lemma_div_le(-(sum as int), count as int, 0x8000_0000);
        }
        let neg: i128 = -sum;
        let q: u128 = (neg as u128) / (count as u128);
        (0 - (q as i64)) as i32
    }
}

/// Recomputes one snapshot node's position for layout construction: the
/// warm-start heuristic over its neighbours in the store. Fails with the
/// store's `NodeNotFound` exactly when the node's id is not live in `g`.
fn update_node_pos(node: Node, g: &Graph) -> (r: Result<Node, Error>)
    requires
        g.wf(),
    ensures
        match r {
            Ok(out) => (node.pos is Some || g.has_node_id(node.id@)) && out.id == node.id
                && out.data == node.data && out.pos == warm_start_pos(*g, node),
            Err(e) => node.pos is None && !g.has_node_id(node.id@) && (e matches
                Error::GraphError(ge) && (ge matches graph::Error::NodeNotFound { id: s } && s@
                == node.id@)),
        },
{
    if node.pos.is_some() {
        return Ok(node);
    }
    let neighbors = match g.node_neighbors(&node.id) {
        Ok(v) => v,
        Err(e) => { return Err(Error::GraphError(e)) },
    };
    let ghost ns = neighbors@;
    let len = neighbors.len();
    let mut count: i128 = 0;
    let mut sx: i128 = 0;
    let mut sy: i128 = 0;
    let mut i: usize = 0;
    while i < len
        invariant
            len == ns.len(),
            i <= len,
            neighbors@ == ns,
            count == positioned_count(ns.take(i as int)),
            0 <= count <= i,
            sx == positioned_sum_x(ns.take(i as int)),
            sy == positioned_sum_y(ns.take(i as int)),
            -(count * 0x8000_0000) <= sx <= count * 0x7fff_ffff,
            -(count * 0x8000_0000) <= sy <= count * 0x7fff_ffff,
        decreases len - i,
    {
        proof {
            let pre = ns.take(i as int);
            let post = ns.take(i + 1 as int);
            assert(post.drop_last() =~= pre);
            assert(post.last() == ns[i as int]);
            assert((count + 1) * 0x8000_0000 == count * 0x8000_0000 + 0x8000_0000)
                by (nonlinear_arith);
            assert((count + 1) * 0x7fff_ffff == count * 0x7fff_ffff + 0x7fff_ffff)
                by (nonlinear_arith);
        }
        match neighbors[i].pos {
            Some(p) => {
                count = count + 1;
                sx = sx + (p.0 as i128);
                sy = sy + (p.1 as i128);
            },
            None => {},
        }
        i += 1;
    }
    proof {
        assert(ns.take(len as int) =~= ns);
    }
    if count > 0 {
        let mx = mean_coord(sx, count);
        let my = mean_coord(sy, count);
        Ok(Node { id: node.id, data: node.data, pos: Some(Pos(mx, my)) })
    } else {
        Ok(Node { id: node.id, data: node.data, pos: None })
    }
}

/// One tick's output: the node list with updated positions, paired with the
/// unchanged edge list.
#[derive(Debug)]
pub struct NodesEdges {
    pub nodes: Vec<Node>,
    pub edges: Vec<(NodeId, NodeId, Edge)>,
}

impl Clone for NodesEdges {
    /// The clone carries the same nodes and edges.
    fn clone(&self) -> (r: Self)
        ensures
            r.nodes@ == self.nodes@,
            r.edges@ == self.edges@,
    {
        NodesEdges {
            nodes: graph::clone_nodes(&self.nodes),
            edges: clone_edge_triples(&self.edges),
        }
    }
}

/// The ephemeral physics model: the snapshot node list it was built over
/// (with warm-start positions), the edge list by stable id, and the live
/// simulation keyed by position in the node list.
pub struct Layout {
    nodes: Vec<Node>,
    edges: Vec<(NodeId, NodeId, Edge)>,
    sim: fjadra::Simulation,
}

/// The node arena after applying the positions of `list` in order, paired
/// with the id of the first node of `list` that is missing from the arena,
/// if any; application stops there.
pub open spec fn apply_positions_fold(arena: Seq<Node>, list: Seq<Node>) -> (Seq<Node>, Option<
    Seq<char>,
>)
    decreases list.len(),
{
    if list.len() == 0 {
        (arena, None)
    } else {
        let hd = list.first();
        if !seq_has_node_id(arena, hd.id@) {
            (arena, Some(hd.id@))
        } else {
            let arena2 = if hd.pos is Some {
                arena.update(
                    seq_node_slot(arena, hd.id@),
                    (Node { pos: hd.pos, ..arena[seq_node_slot(arena, hd.id@)] }),
                )
            } else {
                arena
            };
            apply_positions_fold(arena2, list.drop_first())
        }
    }
}

proof fn lemma_apply_fold_suffix(arena0: Seq<Node>, arena: Seq<Node>, list: Seq<Node>, m: int)
    requires
        graph::seq_nodes_distinct(arena0),
        arena.len() == arena0.len(),
        list.len() == arena0.len(),
        0 <= m <= list.len(),
        forall|i: int|
            0 <= i < arena0.len() ==> (#[trigger] arena[i]).id == arena0[i].id && (i < m
                ==> arena[i].pos is Some),
        forall|i: int|
            0 <= i < list.len() ==> (#[trigger] list[i]).id == arena0[i].id && list[i].pos is Some,
    ensures
        apply_positions_fold(arena, list.skip(m)).1 is None,
        apply_positions_fold(arena, list.skip(m)).0.len() == arena0.len(),
        forall|j: int|
            0 <= j < arena0.len() ==> {
                let out = #[trigger] apply_positions_fold(arena, list.skip(m)).0[j];
                out.id == arena[j].id && out.data == arena[j].data && out.pos is Some
            },
    decreases list.len() - m,
{
    let rest = list.skip(m);
    if m == list.len() {
        assert(rest =~= Seq::<Node>::empty());
    } else {
        assert(rest.first() == list[m]);
        let hd = rest.first();
        assert(arena[m].id@ == hd.id@);
        assert(seq_has_node_id(arena, hd.id@));
        let s = seq_node_slot(arena, hd.id@);
        assert(0 <= s < arena.len() && arena[s].id@ == hd.id@);
        if s != m {
            if s < m {
                assert(arena0[s].id@ != arena0[m].id@);
            } else {
                assert(arena0[m].id@ != arena0[s].id@);
            }
            assert(false);
        }
        let arena2 = arena.update(m, (Node { pos: hd.pos, ..arena[m] }));
        assert(rest.drop_first() =~= list.skip(m + 1));
        lemma_apply_fold_suffix(arena0, arena2, list, m + 1);
    }
}

/// Applying a full cover — one positioned entry per arena slot, under the
/// arena's own ids — succeeds, keeps every node's identity and payload, and
/// leaves every node positioned.
pub proof fn lemma_apply_fold_covering(arena: Seq<Node>, list: Seq<Node>)
    requires
        graph::seq_nodes_distinct(arena),
        list.len() == arena.len(),
        forall|i: int|
            0 <= i < list.len() ==> (#[trigger] list[i]).id == arena[i].id && list[i].pos is Some,
    ensures
        apply_positions_fold(arena, list).1 is None,
        apply_positions_fold(arena, list).0.len() == arena.len(),
        forall|j: int|
            0 <= j < arena.len() ==> {
                let out = #[trigger] apply_positions_fold(arena, list).0[j];
                out.id == arena[j].id && out.data == arena[j].data && out.pos is Some
            },
{
    assert(list.skip(0) =~= list);
    lemma_apply_fold_suffix(arena, arena, list, 0);
}

impl Layout {
    /// The snapshot node list the model was built over.
    pub closed spec fn nodes_seq(self) -> Seq<Node> {
        self.nodes@
    }

    /// The edge list, as (source id, target id, edge) triples.
    pub closed spec fn edges_seq(self) -> Seq<(NodeId, NodeId, Edge)> {
        self.edges@
    }

    /// The simulation covers exactly the snapshot nodes.
    pub closed spec fn wf(self) -> bool {
        sim_particle_count(self.sim) == self.nodes@.len()
    }

    /// The snapshot node list, with the warm-start positions the model was
    /// seeded from.
    pub fn node_list(&self) -> (r: Vec<Node>)
        ensures
            r@ == self.nodes_seq(),
    {
        graph::clone_nodes(&self.nodes)
    }

    /// The edge list, as (source id, target id, edge) triples.
    pub fn edge_list(&self) -> (r: Vec<(NodeId, NodeId, Edge)>)
        ensures
            r@ == self.edges_seq(),
    {
        clone_edge_triples(&self.edges)
    }

    /// Builds a layout from the store: snapshots nodes and edges, seeds each
    /// unpositioned node by the warm-start heuristic, and constructs the
    /// physics model with the link and many-body forces, edges referencing
    /// nodes by their position in the snapshot's node list. The endpoint
    /// check is defensive: under the store's invariants it cannot fail, so
    /// construction always succeeds.
    pub fn new(g: &Graph) -> (r: Result<Layout, Error>)
        requires
            g.wf(),
        ensures
            match r {
                Ok(l) => {
                    &&& l.wf()
                    &&& l.nodes_seq().len() == g.nodes_seq().len()
                    &&& forall|i: int|
                        0 <= i < g.nodes_seq().len() ==> {
                            let out = #[trigger] l.nodes_seq()[i];
                            out.id == g.nodes_seq()[i].id && out.data == g.nodes_seq()[i].data
                                && out.pos == warm_start_pos(*g, g.nodes_seq()[i])
                        }
                    &&& l.edges_seq().len() == g.edges_seq().len()
                    &&& forall|k: int|
                        0 <= k < g.edges_seq().len() ==> {
                            let rec = #[trigger] g.edges_seq()[k];
                            l.edges_seq()[k] == (
                                g.nodes_seq()[rec.source as int].id,
                                g.nodes_seq()[rec.target as int].id,
                                rec.edge,
                            )
                        }
                },
                Err(_) => false,
            },
    {
        let snapshot = g.graph_response();
        let mut seeded: Vec<Node> = Vec::new();
        let len = snapshot.nodes.len();
        let mut i: usize = 0;
        while i < len
            invariant
                g.wf(),
                len == g.nodes_seq().len(),
                snapshot.nodes@ == g.nodes_seq(),
                i <= len,
                seeded@.len() == i,
                forall|j: int|
                    0 <= j < i ==> {
                        let out = #[trigger] seeded@[j];
                        out.id == g.nodes_seq()[j].id && out.data == g.nodes_seq()[j].data
                            && out.pos == warm_start_pos(*g, g.nodes_seq()[j])
                    },
            decreases len - i,
        {
            let node = snapshot.nodes[i].clone();
            proof {
                assert(g.has_node_id(node.id@)) by {
                    assert(g.nodes_seq()[i as int].id@ == node.id@);
                }
            }
            match update_node_pos(node, g) {
                Ok(out) => {
                    seeded.push(out);
                },
                Err(_) => {
                    proof {
                        assert(false);
                    }
                },
            }
            i += 1;
        }
        let links = g.edge_endpoints();
        let mut particles: Vec<SimNode> = Vec::new();
        let mut k: usize = 0;
        while k < len
            invariant
                k <= len,
                seeded@.len() == len,
                particles@.len() == k,
            decreases len - k,
        {
            particles.push(seeded[k].layout_node());
            k += 1;
        }
        let sim = build_simulation(particles, &links);
        Ok(Layout { nodes: seeded, edges: snapshot.edges, sim })
    }

    /// Advances the simulation exactly one discrete tick. Returns the node
    /// list with every node carrying its updated position, paired with the
    /// unchanged edge list, and the simulation's own "finished" flag; the
    /// flag is intrinsic to the simulation's stopping criterion, not
    /// recomputed here.
    pub fn step(&mut self) -> (r: (NodesEdges, bool))
        requires
            old(self).wf(),
        ensures
            final(self).wf(),
            final(self).nodes_seq() == old(self).nodes_seq(),
            final(self).edges_seq() == old(self).edges_seq(),
            r.0.nodes@.len() == old(self).nodes_seq().len(),
            forall|i: int|
                0 <= i < old(self).nodes_seq().len() ==> {
                    let out = #[trigger] r.0.nodes@[i];
                    out.id == old(self).nodes_seq()[i].id && out.data
                        == old(self).nodes_seq()[i].data && out.pos is Some
                },
            r.0.edges@ == old(self).edges_seq(),
    {
        sim_tick(&mut self.sim, 1);
        let finished = sim_is_finished(&self.sim);
        let positions = sim_positions(&self.sim);
        let mut out_nodes: Vec<Node> = Vec::new();
        let len = self.nodes.len();
        let mut i: usize = 0;
        while i < len
            invariant
                len == self.nodes_seq().len(),
                positions@.len() == len,
                i <= len,
                out_nodes@.len() == i,
                forall|j: int|
                    0 <= j < i ==> {
                        let out = #[trigger] out_nodes@[j];
                        out.id == self.nodes_seq()[j].id && out.data == self.nodes_seq()[j].data
                            && out.pos is Some
                    },
            decreases len - i,
        {
            out_nodes.push(
                Node {
                    id: self.nodes[i].id.clone(),
                    data: self.nodes[i].data.clone(),
                    pos: Some(positions[i]),
                },
            );
            i += 1;
        }
        (NodesEdges { nodes: out_nodes, edges: clone_edge_triples(&self.edges) }, finished)
    }

    /// Writes the resulting positions into the store by stable id, in order.
    /// Fails with the store's `NodeNotFound` — surfaced, not swallowed —
    /// exactly when a node referenced by the result no longer exists, keeping
    /// the positions applied before it.
    pub fn apply(nodes_edges: &NodesEdges, graph: &mut Graph) -> (r: Result<(), Error>)
        requires
            old(graph).wf(),
        ensures
            final(graph).wf(),
            final(graph).edges_seq() == old(graph).edges_seq(),
            final(graph).counter() == old(graph).counter(),
            final(graph).created_at_millis() == old(graph).created_at_millis(),
            ({
                let fold = apply_positions_fold(old(graph).nodes_seq(), nodes_edges.nodes@);
                match r {
                    Ok(_) => fold.1 is None && final(graph).nodes_seq() == fold.0,
                    Err(e) => fold.1 is Some && final(graph).nodes_seq() == fold.0 && (
                    e matches Error::GraphError(ge) && (ge matches graph::Error::NodeNotFound {
                        id: s,
                    } && s@ == fold.1.unwrap())),
                }
            }),
    {
        let len = nodes_edges.nodes.len();
        proof {
            assert(nodes_edges.nodes@.skip(0) =~= nodes_edges.nodes@);
        }
        let mut i: usize = 0;
        while i < len
            invariant
                graph.wf(),
                len == nodes_edges.nodes@.len(),
                i <= len,
                graph.edges_seq() == old(graph).edges_seq(),
                graph.counter() == old(graph).counter(),
                graph.created_at_millis() == old(graph).created_at_millis(),
                apply_positions_fold(old(graph).nodes_seq(), nodes_edges.nodes@)
                    == apply_positions_fold(graph.nodes_seq(), nodes_edges.nodes@.skip(i as int)),
            decreases len - i,
        {
            proof {
                let rest = nodes_edges.nodes@.skip(i as int);
                assert(rest.first() == nodes_edges.nodes@[i as int]);
                assert(rest.drop_first() =~= nodes_edges.nodes@.skip(i + 1 as int));
            }
            let node = &nodes_edges.nodes[i];
            match node.pos {
                Some(p) => {
                    match graph.set_node_pos(&node.id, p) {
                        Ok(_) => {},
                        Err(e) => {
                            return Err(Error::GraphError(e));
                        },
                    }
                },
                None => {
                    match graph.resolve_node_index(&node.id) {
                        Ok(_) => {},
                        Err(e) => {
                            return Err(Error::GraphError(e));
                        },
                    }
                },
            }
            i += 1;
        }
        proof {
            assert(nodes_edges.nodes@.skip(len as int) =~= Seq::<Node>::empty());
        }
        Ok(())
    }
}

} // verus!
