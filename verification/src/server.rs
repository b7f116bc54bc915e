//! Request-level edits coming from the transport layer. The routing layer
//! itself — endpoints, JSON, event streams — is an external collaborator;
//! what it decides to do with the shared state is applied here, under the
//! exclusive lock, through the store's ordinary `add_node`, `ensure_node`
//! and `add_edge` calls.

use vstd::prelude::*;

verus! {

use crate::graph;
use crate::graph::{EdgeId, Node, NodeId};
use crate::graph_data::GraphData;

/// One requested edge: its endpoints by stable id, and optionally an
/// explicit edge id; a fresh one is generated when absent.
#[derive(Debug)]
pub struct EdgeRequest {
    pub a: NodeId,
    pub b: NodeId,
    pub id: Option<EdgeId>,
}

impl Clone for EdgeRequest {
    fn clone(&self) -> (r: Self)
        ensures
            r == *self,
    {
        EdgeRequest {
            a: self.a.clone(),
            b: self.b.clone(),
            id: match &self.id {
                Some(id) => Some(id.clone()),
                None => None,
            },
        }
    }
}

/// The default node list of a request that names none.
pub fn no_nodes() -> (r: Vec<Node>)
    ensures
        r@.len() == 0,
{
    Vec::new()
}

/// The default edge list of a request that names none.
pub fn no_edge_requests() -> (r: Vec<EdgeRequest>)
    ensures
        r@.len() == 0,
{
    Vec::new()
}

/// Applies one add request: discards the cached layout — this is a topology
/// edit — then inserts every node, and for every requested edge
/// materialises both endpoints and connects them. Because each endpoint is
/// ensured first, no edge insertion can fail, and the whole request always
/// succeeds.
pub fn apply_add_request(data: &mut GraphData, nodes: Vec<Node>, edges: Vec<EdgeRequest>) -> (r:
    Result<(), graph::Error>)
    requires
        old(data).wf(),
        old(data).graph.counter() + old(data).graph.edges_seq().len() + 1 + edges@.len() * (old(
            data,
        ).graph.edges_seq().len() + edges@.len() + 2) <= usize::MAX,
    ensures
        final(data).wf(),
        final(data).layout is None,
        r is Ok,
        final(data).graph.created_at_millis() == old(data).graph.created_at_millis(),
        forall|i: int|
            0 <= i < nodes@.len() ==> final(data).graph.has_node_id((#[trigger] nodes@[i]).id@),
        forall|j: int|
            0 <= j < edges@.len() ==> {
                let req = #[trigger] edges@[j];
                final(data).graph.has_node_id(req.a@) && final(data).graph.has_node_id(req.b@) && (
                req.id matches Some(id) ==> final(data).graph.has_edge_id(id@))
            },
{
    data.reset_layout();
    let node_total = nodes.len();
    let mut i: usize = 0;
    while i < node_total
        invariant
            data.graph.wf(),
            data.layout is None,
            node_total == nodes@.len(),
            i <= node_total,
            data.graph.created_at_millis() == old(data).graph.created_at_millis(),
            data.graph.counter() == old(data).graph.counter(),
            data.graph.edges_seq() == old(data).graph.edges_seq(),
            forall|j: int|
                0 <= j < i ==> data.graph.has_node_id((#[trigger] nodes@[j]).id@),
        decreases node_total - i,
    {
        let ghost pre = data.graph;
        let node = nodes[i].clone();
        data.graph.add_node(node);
        proof {
            if !pre.has_node_id(nodes@[i as int].id@) {
                assert(data.graph.nodes_seq()[data.graph.nodes_seq().len() - 1].id@ == nodes@[
                    i as int].id@);
            } else {
                graph::lemma_has_node_id_monotone(pre, data.graph, nodes@[i as int].id@);
            }
            assert forall|j: int| 0 <= j < i + 1 implies data.graph.has_node_id(
                (#[trigger] nodes@[j]).id@,
            ) by {
                if j < i {
                    graph::lemma_has_node_id_monotone(pre, data.graph, nodes@[j].id@);
                }
            }
        }
        i += 1;
    }
    let ghost e0 = data.graph.edges_seq().len() as int;
    let ghost n = edges@.len() as int;
    let ghost m = e0 + n + 2;
    let edge_total = edges.len();
    let mut k: usize = 0;
    proof {
        assert(n * m >= 0) by (nonlinear_arith)
            requires
                n >= 0,
                m >= 2,
        ;
    }
    while k < edge_total
        invariant
            data.graph.wf(),
            data.layout is None,
            edge_total == edges@.len(),
            k <= edge_total,
            n == edges@.len() as int,
            m == e0 + n + 2,
            data.graph.created_at_millis() == old(data).graph.created_at_millis(),
            e0 <= data.graph.edges_seq().len() <= e0 + k,
            data.graph.counter() + data.graph.edges_seq().len() + 1 + (n - k) * m <= usize::MAX,
            forall|j: int|
                0 <= j < nodes@.len() ==> data.graph.has_node_id((#[trigger] nodes@[j]).id@),
            forall|j: int|
                0 <= j < k ==> {
                    let req = #[trigger] edges@[j];
                    data.graph.has_node_id(req.a@) && data.graph.has_node_id(req.b@) && (
                    req.id matches Some(id) ==> data.graph.has_edge_id(id@))
                },
        decreases edge_total - k,
    {
        let ghost pre = data.graph;
        proof {
            assert((n - k) * m == (n - k - 1) * m + m) by (nonlinear_arith);
            assert((n - k - 1) * m >= 0) by (nonlinear_arith)
                requires
                    n - k - 1 >= 0,
                    m >= 2,
            ;
        }
        let req = &edges[k];
        data.graph.ensure_node(&req.a);
        proof {
            if !pre.has_node_id(req.a@) {
                assert(data.graph.nodes_seq()[data.graph.nodes_seq().len() - 1].id@ == req.a@);
            } else {
                graph::lemma_has_node_id_monotone(pre, data.graph, req.a@);
            }
        }
        let ghost g1 = data.graph;
        data.graph.ensure_node(&req.b);
        proof {
            graph::lemma_has_node_id_monotone(g1, data.graph, req.a@);
            if !g1.has_node_id(req.b@) {
                assert(data.graph.nodes_seq()[data.graph.nodes_seq().len() - 1].id@ == req.b@);
            } else {
                graph::lemma_has_node_id_monotone(g1, data.graph, req.b@);
            }
        }
        let explicit_id = match &req.id {
            Some(id) => Some(id.clone()),
            None => None,
        };
        match data.graph.add_edge(req.a.clone(), req.b.clone(), explicit_id) {
            Ok(_) => {},
            Err(_) => {
                proof {
                    assert(false);
                }
            },
        }
        proof {
            let g2 = data.graph;
            assert forall|j: int| 0 <= j < nodes@.len() implies data.graph.has_node_id(
                (#[trigger] nodes@[j]).id@,
            ) by {
                graph::lemma_has_node_id_monotone(pre, g2, nodes@[j].id@);
            }
            assert forall|j: int| 0 <= j < k + 1 implies {
                let req2 = #[trigger] edges@[j];
                data.graph.has_node_id(req2.a@) && data.graph.has_node_id(req2.b@) && (
                req2.id matches Some(id) ==> data.graph.has_edge_id(id@))
            } by {
                if j < k {
                    let req2 = edges@[j];
                    graph::lemma_has_node_id_monotone(pre, g2, req2.a@);
                    graph::lemma_has_node_id_monotone(pre, g2, req2.b@);
                    if req2.id is Some {
                        graph::lemma_has_edge_id_monotone(
                            pre.edges_seq(),
                            g2.edges_seq(),
                            req2.id.unwrap()@,
                        );
                    }
                } else {
                    assert(edges@[j] == *req);
                }
            }
        }
        k += 1;
    }
    Ok(())
}

} // verus!
