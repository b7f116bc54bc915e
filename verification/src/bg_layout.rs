//! The background scheduler's per-tick work and the fan-out of layout
//! snapshots to subscribers.
//!
//! The scheduler proper is a long-running task that, once per fixed
//! interval, acquires the shared [`crate::graph_data::GraphData`], runs
//! [`do_layout`], and publishes through [`send_update`] when
//! [`should_publish`] says so; the exit flag is polled once per iteration.
//! The loop itself — lock, sleep, spawn — lives with the runtime; every
//! decision it takes is here.

use vstd::prelude::*;

verus! {

use crate::graph;
use crate::graph::GraphResponse;
use crate::graph_data;
use crate::graph_data::GraphData;
use crate::layout;
use crate::layout::Layout;
use tokio::sync::broadcast::error::SendError;
use tokio::sync::broadcast::{Receiver, Sender, WeakSender};

/// Failures of a scheduler tick, each wrapping the failure of the layer
/// that caused it.
#[derive(Debug)]
pub enum Error {
    GraphDataError(graph_data::Error),
    GraphError(graph::Error),
    LayoutError(layout::Error),
}

impl Error {
    /// Human-readable rendering, offered in place of a `Display` impl.
    pub fn message(&self) -> String {
        match self {
            Error::GraphDataError(e) => e.message(),
            Error::GraphError(e) => e.message(),
            Error::LayoutError(e) => e.message(),
        }
    }
}

/// One broadcast payload: a layout snapshot.
#[derive(Debug)]
pub struct Update {
    pub graph: GraphResponse,
}

impl Clone for Update {
    /// The clone carries the same snapshot.
    fn clone(&self) -> (r: Self)
        ensures
            r.graph.nodes@ == self.graph.nodes@,
            r.graph.edges@ == self.graph.edges@,
            r.graph.creation_time == self.graph.creation_time,
    {
        Update { graph: self.graph.clone() }
    }
}

/// Depth of the update backlog: a subscriber that falls this far behind
/// observes a gap rather than unbounded buffering.
pub const UPDATE_CHANNEL_CAPACITY: usize = 10;

#[verifier::external_type_specification]
#[verifier::external_body]
#[verifier::reject_recursive_types(T)]
pub struct ExSender<T>(Sender<T>);

#[verifier::external_type_specification]
#[verifier::external_body]
#[verifier::reject_recursive_types(T)]
pub struct ExWeakSender<T>(WeakSender<T>);

#[verifier::external_type_specification]
#[verifier::external_body]
#[verifier::reject_recursive_types(T)]
pub struct ExReceiver<T>(Receiver<T>);

#[verifier::external_type_specification]
#[verifier::external_body]
#[verifier::reject_recursive_types(T)]
pub struct ExSendError<T>(SendError<T>);

/// Relies on tokio's broadcast `channel`: a connected sender/receiver pair
/// with the given backlog capacity. tokio documents a panic on zero or on
/// more than half of `usize::MAX`, so those capacities are excluded.
pub assume_specification<T: Clone>[ tokio::sync::broadcast::channel::<T> ](
    capacity: usize,
) -> (Sender<T>, Receiver<T>)
    requires
        1 <= capacity <= usize::MAX / 2,
;

/// Relies on tokio's broadcast `Sender::send`: queues the value for every
/// active receiver, returning how many there are, or hands the value back
/// when there are none. Which occurs depends on concurrent subscribers, so
/// nothing more is promised.
pub assume_specification<T>[ Sender::<T>::send ](s: &Sender<T>, value: T) -> Result<
    usize,
    SendError<T>,
>;

/// Relies on tokio's broadcast `Sender::subscribe`: a fresh receiver that
/// observes the values sent after this call.
pub assume_specification<T>[ Sender::<T>::subscribe ](s: &Sender<T>) -> Receiver<T>;

/// Relies on tokio's broadcast `WeakSender::upgrade`: a live sender, or
/// nothing once every strong sender has been dropped. Which occurs depends
/// on concurrent drops, so nothing more is promised.
pub assume_specification<T>[ WeakSender::<T>::upgrade ](s: &WeakSender<T>) -> Option<Sender<T>>;

/// Creates the update distribution channel with the scheduler's backlog
/// depth.
pub fn update_channel() -> (Sender<Update>, Receiver<Update>) {
    tokio::sync::broadcast::channel(UPDATE_CHANNEL_CAPACITY)
}

/// The publish policy: publish after a tick unless both the previous and
/// the current iteration were finished. This suppresses redundant
/// broadcasts once the layout has settled while guaranteeing that one final
/// "settled" broadcast is always sent.
pub fn should_publish(was_finished: bool, is_finished: bool) -> (r: bool)
    ensures
        r == !(was_finished && is_finished),
{
    !was_finished || !is_finished
}

/// One scheduler tick's work on the exclusively held state. When the store
/// is empty the scheduler is idle: nothing happens, no layout is allocated,
/// and the tick counts as finished. Otherwise the cached layout is used or
/// a fresh one built, advanced exactly one tick, its positions are written
/// back by stable id, and the simulation's own finished flag is returned.
/// Under the state's invariants no step can fail, so the tick always
/// succeeds.
pub fn do_layout(data: &mut GraphData) -> (r: Result<bool, Error>)
    requires
        old(data).wf(),
    ensures
        final(data).wf(),
        r is Ok,
        old(data).graph.nodes_seq().len() == 0 ==> *final(data) == *old(data) && r == Ok::<
            bool,
            Error,
        >(true),
        old(data).graph.nodes_seq().len() > 0 ==> {
            &&& final(data).layout is Some
            &&& final(data).graph.edges_seq() == old(data).graph.edges_seq()
            &&& final(data).graph.counter() == old(data).graph.counter()
            &&& final(data).graph.created_at_millis() == old(data).graph.created_at_millis()
            &&& final(data).graph.nodes_seq().len() == old(data).graph.nodes_seq().len()
            &&& forall|i: int|
                0 <= i < old(data).graph.nodes_seq().len() ==> {
                    let out = #[trigger] final(data).graph.nodes_seq()[i];
                    out.id == old(data).graph.nodes_seq()[i].id && out.data == old(
                        data,
                    ).graph.nodes_seq()[i].data && out.pos is Some
                }
        },
{
    if data.is_empty() {
        return Ok(true);
    }
    match data.update_layout() {
        Ok(_) => {},
        Err(e) => {
            proof {
                assert(false);
            }
            return Err(Error::GraphDataError(e));
        },
    }
    let mut cached: Layout = data.layout.take().unwrap();
    let (nodes_edges, is_finished) = cached.step();
    let ghost arena = data.graph.nodes_seq();
    proof {
        layout::lemma_apply_fold_covering(arena, nodes_edges.nodes@);
    }
    match Layout::apply(&nodes_edges, &mut data.graph) {
        Ok(_) => {},
        Err(e) => {
            proof {
                assert(false);
            }
            return Err(Error::LayoutError(e));
        },
    }
    proof {
        let ns = data.graph.nodes_seq();
        assert forall|i: int, j: int| 0 <= i < j < ns.len() implies #[trigger] ns[i].id@
            != #[trigger] ns[j].id@ by {
            assert(ns[i].id == arena[i].id);
            assert(ns[j].id == arena[j].id);
        }
        assert forall|k: int|
            0 <= k < data.graph.edges_seq().len() implies (#[trigger] data.graph.edges_seq()[
            k]).source < ns.len() && data.graph.edges_seq()[k].target < ns.len() by {
            assert(data.graph.edges_seq()[k] == old(data).graph.edges_seq()[k]);
        }
    }
    data.layout = Some(cached);
    Ok(is_finished)
}

/// Builds an update carrying the current snapshot and offers it to the
/// subscribers; returns whether anyone received it. A send with zero active
/// subscribers is the expected steady state, not an error.
pub fn send_update(data: &GraphData, updates_tx: &Sender<Update>) -> bool
    requires
        data.wf(),
{
    let update = Update { graph: data.graph.graph_response() };
    match updates_tx.send(update) {
        Ok(_) => true,
        Err(_) => false,
    }
}

/// Resolves the non-owning publisher handle at subscribe time: a fresh
/// receiver of every later update, or `None` — no further updates will be
/// delivered — when the publisher has already been torn down.
pub fn updates(updates_tx: &WeakSender<Update>) -> Option<Receiver<Update>> {
    match updates_tx.upgrade() {
        Some(tx) => Some(tx.subscribe()),
        None => None,
    }
}

} // verus!
