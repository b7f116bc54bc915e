//! Core of a live, collaboratively editable graph store with a continuously
//! running force-directed layout process.
//!
//! The crate is organised leaves first:
//! - [`graph`] owns the topology and the bijection between stable external
//!   identifiers and internal storage slots;
//! - [`layout`] builds an ephemeral physics model from a store snapshot,
//!   advances it tick by tick, and reports convergence;
//! - [`graph_data`] bundles the store with the optional cached layout: the
//!   unit of mutual exclusion;
//! - [`bg_layout`] holds the background scheduler's per-tick decisions and
//!   the fan-out of layout snapshots to subscribers;
//! - [`server`] applies request-level edits coming from the transport layer;
//! - [`stable_ids`] is a free-list allocator for reusable stable ids.
//!
//! The transport and routing layer, process lifecycle, and the parsing of
//! external graph descriptions are external collaborators: they only issue
//! the ordinary calls these modules expose.

pub mod bg_layout;
pub mod graph;
pub mod graph_data;
pub mod layout;
pub mod server;
pub mod stable_ids;
