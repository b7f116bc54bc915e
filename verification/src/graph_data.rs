//! Aggregate of the graph store and its optional cached layout: the unit of
//! mutual exclusion. Writers and the background scheduler share one value of
//! this type behind a single exclusive lock; any collaborator that edits the
//! topology must call `reset_layout` so the scheduler rebuilds rather than
//! reuses a stale layout.

use vstd::prelude::*;

verus! {

use crate::graph;
use crate::graph::Graph;
use crate::layout;
use crate::layout::{warm_start_pos, Layout};

/// Failures below the scheduler, each wrapping the graph store or layout
/// failure that caused it.
#[derive(Debug)]
pub enum Error {
    GraphError(graph::Error),
    LayoutError(layout::Error),
}

impl Error {
    /// Human-readable rendering, offered in place of a `Display` impl.
    pub fn message(&self) -> String {
        match self {
            Error::GraphError(e) => e.message(),
            Error::LayoutError(e) => e.message(),
        }
    }
}

/// A cached layout is valid only for the exact topology it was built from:
/// same node count, the same stable ids slot for slot, and the matching edge
/// triples.
pub open spec fn layout_matches(g: Graph, l: Layout) -> bool {
    &&& l.nodes_seq().len() == g.nodes_seq().len()
    &&& forall|i: int|
        0 <= i < g.nodes_seq().len() ==> (#[trigger] l.nodes_seq()[i]).id == g.nodes_seq()[i].id
    &&& l.edges_seq().len() == g.edges_seq().len()
    &&& forall|k: int|
        0 <= k < g.edges_seq().len() ==> {
            let rec = #[trigger] g.edges_seq()[k];
            l.edges_seq()[k] == (
                g.nodes_seq()[rec.source as int].id,
                g.nodes_seq()[rec.target as int].id,
                rec.edge,
            )
        }
}

/// The shared mutable state: the store plus the layout cached between
/// scheduler ticks, absent until first needed and discarded on every
/// topology edit.
pub struct GraphData {
    pub graph: Graph,
    pub layout: Option<Layout>,
}

impl GraphData {
    /// Well-formedness: the store's own invariant, and any cached layout is
    /// healthy and was built over the current topology.
    pub open spec fn wf(self) -> bool {
        &&& self.graph.wf()
        &&& self.layout matches Some(l) ==> l.wf() && layout_matches(self.graph, l)
    }

    /// Discards the cached layout. Every collaborator performing a topology
    /// edit must call this first.
    pub fn reset_layout(&mut self)
        ensures
            final(self).graph == old(self).graph,
            final(self).layout is None,
    {
        self.layout = None;
    }

    /// Whether the store holds no nodes: the scheduler's idle state.
    pub fn is_empty(&self) -> (r: bool)
        ensures
            r == (self.graph.nodes_seq().len() == 0),
    {
        self.graph.node_count() == 0
    }

    /// Lazily builds the layout: a no-op when one is cached, otherwise a
    /// fresh model over the current topology, every node seeded by the
    /// warm-start heuristic. Construction cannot fail under the store's
    /// invariants, so this always succeeds.
    pub fn update_layout(&mut self) -> (r: Result<(), Error>)
        requires
            old(self).wf(),
        ensures
            final(self).wf(),
            final(self).graph == old(self).graph,
            r is Ok,
            final(self).layout is Some,
            old(self).layout is Some ==> final(self).layout == old(self).layout,
            old(self).layout is None ==> {
                let l = final(self).layout.unwrap();
                forall|i: int|
                    0 <= i < old(self).graph.nodes_seq().len() ==> (#[trigger] l.nodes_seq()[i]).pos
                        == warm_start_pos(old(self).graph, old(self).graph.nodes_seq()[i])
            },
    {
        if self.layout.is_none() {
            match Layout::new(&self.graph) {
                Ok(l) => {
                    self.layout = Some(l);
                },
                Err(e) => {
                    proof {
                        assert(false);
                    }
                    return Err(Error::LayoutError(e));
                },
            }
        }
        Ok(())
    }
}

} // verus!
