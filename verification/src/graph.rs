//! The graph store: topology plus the bijection between stable external
//! identifiers and internal storage slots.
//!
//! Stable identifiers (`NodeId`, `EdgeId`) are what callers see; internal
//! slots are dense indices into the node and edge arenas and never leave this
//! crate. Coordinates are integer units; the layout engine converts to and
//! from its own floating-point space at the trusted boundary.

use vstd::prelude::*;

verus! {

use vstd::string::StringExecFns;

/// Stable identifier of a node. Distinct namespace from [`EdgeId`]; never
/// equal to an internal storage slot.
#[derive(Debug, Eq, Hash)]
pub struct NodeId(pub(crate) String);

impl View for NodeId {
    type V = Seq<char>;

    closed spec fn view(&self) -> Seq<char> {
        self.0@
    }
}

impl Clone for NodeId {
    fn clone(&self) -> (r: Self)
        ensures
            r == *self,
    {
        NodeId(self.0.clone())
    }
}

impl PartialEq for NodeId {
    fn eq(&self, other: &Self) -> (r: bool) {
        self.0 == other.0
    }
}

impl vstd::std_specs::cmp::PartialEqSpecImpl for NodeId {
    open spec fn obeys_eq_spec() -> bool {
        true
    }

    open spec fn eq_spec(&self, other: &Self) -> bool {
        self@ == other@
    }
}

impl From<String> for NodeId {
    fn from(value: String) -> (r: Self) {
        NodeId(value)
    }
}

impl vstd::std_specs::convert::FromSpecImpl<String> for NodeId {
    open spec fn obeys_from_spec() -> bool {
        true
    }

    closed spec fn from_spec(value: String) -> NodeId {
        NodeId(value)
    }
}

impl From<NodeId> for String {
    fn from(id: NodeId) -> (r: Self) {
        id.0
    }
}

impl vstd::std_specs::convert::FromSpecImpl<NodeId> for String {
    open spec fn obeys_from_spec() -> bool {
        true
    }

    closed spec fn from_spec(id: NodeId) -> String {
        id.0
    }
}

/// Stable identifier of an edge.
#[derive(Debug, Eq, Hash)]
pub struct EdgeId(pub(crate) String);

impl View for EdgeId {
    type V = Seq<char>;

    closed spec fn view(&self) -> Seq<char> {
        self.0@
    }
}

impl Clone for EdgeId {
    fn clone(&self) -> (r: Self)
        ensures
            r == *self,
    {
        EdgeId(self.0.clone())
    }
}

impl PartialEq for EdgeId {
    fn eq(&self, other: &Self) -> (r: bool) {
        self.0 == other.0
    }
}

impl vstd::std_specs::cmp::PartialEqSpecImpl for EdgeId {
    open spec fn obeys_eq_spec() -> bool {
        true
    }

    open spec fn eq_spec(&self, other: &Self) -> bool {
        self@ == other@
    }
}

impl From<String> for EdgeId {
    fn from(value: String) -> (r: Self) {
        EdgeId(value)
    }
}

impl vstd::std_specs::convert::FromSpecImpl<String> for EdgeId {
    open spec fn obeys_from_spec() -> bool {
        true
    }

    closed spec fn from_spec(value: String) -> EdgeId {
        EdgeId(value)
    }
}

impl From<EdgeId> for String {
    fn from(id: EdgeId) -> (r: Self) {
        id.0
    }
}

impl vstd::std_specs::convert::FromSpecImpl<EdgeId> for String {
    open spec fn obeys_from_spec() -> bool {
        true
    }

    closed spec fn from_spec(id: EdgeId) -> String {
        id.0
    }
}

/// Payload of a node besides its identity and position.
#[derive(Debug)]
pub struct NodeData {
    pub label: String,
}

impl Clone for NodeData {
    fn clone(&self) -> (r: Self)
        ensures
            r == *self,
    {
        NodeData { label: self.label.clone() }
    }
}

/// A 2-D position in integer coordinate units.
#[derive(Clone, Copy, Debug, PartialEq, Eq, Structural)]
pub struct Pos(pub i32, pub i32);

/// A stored node: stable id, payload, and an optional position that is absent
/// until the first layout pass assigns one.
#[derive(Debug)]
pub struct Node {
    pub id: NodeId,
    pub data: NodeData,
    pub pos: Option<Pos>,
}

impl Clone for Node {
    fn clone(&self) -> (r: Self)
        ensures
            r == *self,
    {
        Node { id: self.id.clone(), data: self.data.clone(), pos: self.pos }
    }
}

impl Node {
    /// Overwrites the node's position.
    pub fn set_pos(&mut self, pos: Pos)
        ensures
            *final(self) == (Node { pos: Some(pos), ..*old(self) }),
    {
        self.pos = Some(pos);
    }
}

/// Payload of an edge: its stable id.
#[derive(Debug)]
pub struct Edge {
    pub id: EdgeId,
}

impl Clone for Edge {
    fn clone(&self) -> (r: Self)
        ensures
            r == *self,
    {
        Edge { id: self.id.clone() }
    }
}

/// One stored edge: its payload plus the internal slots of its endpoints.
/// The direction is structurally present but neighbour queries ignore it.
#[derive(Debug)]
pub struct EdgeRecord {
    pub source: usize,
    pub target: usize,
    pub edge: Edge,
}

impl Clone for EdgeRecord {
    fn clone(&self) -> (r: Self)
        ensures
            r == *self,
    {
        EdgeRecord { source: self.source, target: self.target, edge: self.edge.clone() }
    }
}

/// Failures of the graph store. `NodeNotFound`/`EdgeNotFound` report a stale
/// stable id, the index variants a stale internal slot; either one signals a
/// caller or race bug and is always propagated, never recovered from.
/// `UnsupportedEdgeNode` reports a graph description whose edge endpoints the
/// store cannot represent.
#[derive(Debug)]
pub enum Error {
    NodeNotFound { id: String },
    EdgeNotFound { id: String },
    NodeIndexNotFound { index: usize },
    EdgeIndexNotFound { index: usize },
    UnsupportedEdgeNode,
}

impl Error {
    fn node_not_found(id: &str) -> (e: Error)
        ensures
            e matches Error::NodeNotFound { id: s } && s@ == id@,
    {
        Error::NodeNotFound { id: id.to_owned() }
    }

    fn edge_not_found(id: &str) -> (e: Error)
        ensures
            e matches Error::EdgeNotFound { id: s } && s@ == id@,
    {
        Error::EdgeNotFound { id: id.to_owned() }
    }

    fn node_index_not_found(index: usize) -> (e: Error)
        ensures
            e matches Error::NodeIndexNotFound { index: i } && i == index,
    {
        Error::NodeIndexNotFound { index }
    }

    fn edge_index_not_found(index: usize) -> (e: Error)
        ensures
            e matches Error::EdgeIndexNotFound { index: i } && i == index,
    {
        Error::EdgeIndexNotFound { index }
    }

    /// Human-readable rendering, offered in place of a `Display` impl.
    pub fn message(&self) -> String {
        match self {
            Error::NodeNotFound { id } => String::from_str("node not found: ").concat(id.as_str()),
            Error::EdgeNotFound { id } => String::from_str("edge not found: ").concat(id.as_str()),
            Error::NodeIndexNotFound { index: _ } => String::from_str("internal error: node index not found"),
            Error::EdgeIndexNotFound { index: _ } => String::from_str("internal error: edge index not found"),
            Error::UnsupportedEdgeNode => String::from_str("unsupported edge node type"),
        }
    }
}

/// Bijection round-trip between live node ids and live node slots: resolving
/// a live id to its slot and back yields the id, and resolving a live slot to
/// its id and back yields the slot.
pub proof fn lemma_node_bijection(g: Graph, id: Seq<char>, slot: int)
    requires
        g.wf(),
    ensures
        g.has_node_id(id) ==> 0 <= g.node_slot(id) < g.nodes_seq().len() && g.nodes_seq()[g.node_slot(id)].id@ == id,
        0 <= slot < g.nodes_seq().len() ==> g.has_node_id(g.nodes_seq()[slot].id@)
            && g.node_slot(g.nodes_seq()[slot].id@) == slot,
{
    if 0 <= slot < g.nodes_seq().len() {
        let sid = g.nodes_seq()[slot].id@;
        assert(g.has_node_id(sid));
        let s2 = g.node_slot(sid);
        if s2 < slot {
            assert(g.nodes_seq()[s2].id@ != g.nodes_seq()[slot].id@);
        } else if s2 > slot {
            assert(g.nodes_seq()[slot].id@ != g.nodes_seq()[s2].id@);
        }
    }
}

/// Bijection round-trip between mapped edge ids and their slots: the slot an
/// id resolves to carries exactly that id, and a slot that is still mapped
/// resolves back to itself through its id.
pub proof fn lemma_edge_bijection(g: Graph, id: Seq<char>)
    ensures
        match last_edge_slot(g.edges_seq(), id) {
            Some(k) => 0 <= k < g.edges_seq().len() && g.edges_seq()[k].edge.id@ == id
                && last_edge_slot(g.edges_seq(), g.edges_seq()[k].edge.id@) == Some(k),
            None => forall|j: int|
                0 <= j < g.edges_seq().len() ==> (#[trigger] g.edges_seq()[j]).edge.id@ != id,
        },
{
    lemma_last_edge_slot(g.edges_seq(), id);
}

/// `add_node` idempotence: whatever `add_node` produced, the node's id is
/// live afterwards and exactly one stored node carries it; a second
/// `add_node` with the same id is then the unchanged branch of the
/// `add_node` contract.
pub proof fn lemma_add_node_idempotent(g0: Graph, g1: Graph, node: Node)
    requires
        g0.wf(),
        g1.wf(),
        g0.has_node_id(node.id@) ==> g1.nodes_seq() == g0.nodes_seq(),
        !g0.has_node_id(node.id@) ==> g1.nodes_seq() == g0.nodes_seq().push(node),
    ensures
        g1.has_node_id(node.id@),
        forall|i: int, j: int|
            (0 <= i < g1.nodes_seq().len() && 0 <= j < g1.nodes_seq().len()
                && (#[trigger] g1.nodes_seq()[i]).id@ == node.id@
                && (#[trigger] g1.nodes_seq()[j]).id@ == node.id@) ==> i == j,
{
    if !g0.has_node_id(node.id@) {
        assert(g1.nodes_seq()[g1.nodes_seq().len() - 1].id@ == node.id@);
    }
    assert forall|i: int, j: int|
        (0 <= i < g1.nodes_seq().len() && 0 <= j < g1.nodes_seq().len()
            && (#[trigger] g1.nodes_seq()[i]).id@ == node.id@
            && (#[trigger] g1.nodes_seq()[j]).id@ == node.id@) implies i == j by {
        if i < j {
            assert(g1.nodes_seq()[i].id@ != g1.nodes_seq()[j].id@);
        } else if j < i {
            assert(g1.nodes_seq()[j].id@ != g1.nodes_seq()[i].id@);
        }
    }
}

/// A mapped edge id stays mapped when the edge arena is only extended: the
/// most recent edge with that id may move, but one always exists.
pub(crate) proof fn lemma_has_edge_id_monotone(pre: Seq<EdgeRecord>, post: Seq<EdgeRecord>, id: Seq<char>)
    requires
        last_edge_slot(pre, id) is Some,
        pre.len() <= post.len(),
        forall|j: int| 0 <= j < pre.len() ==> #[trigger] post[j] == pre[j],
    ensures
        last_edge_slot(post, id) is Some,
{
    lemma_last_edge_slot(pre, id);
    lemma_last_edge_slot(post, id);
    if last_edge_slot(post, id) is None {
        let k = last_edge_slot(pre, id).unwrap();
        assert(post[k].edge.id@ == id);
    }
}

/// A live node id stays live when the node arena is only extended.
pub(crate) proof fn lemma_has_node_id_monotone(g1: Graph, g2: Graph, id: Seq<char>)
    requires
        g1.has_node_id(id),
        g1.nodes_seq().len() <= g2.nodes_seq().len(),
        forall|i: int| 0 <= i < g1.nodes_seq().len() ==> #[trigger] g2.nodes_seq()[i] == g1.nodes_seq()[i],
    ensures
        g2.has_node_id(id),
{
    let i = choose|i: int|
        0 <= i < g1.nodes_seq().len() && (#[trigger] g1.nodes_seq()[i]).id@ == id;
    assert(g2.nodes_seq()[i].id@ == id);
}

/// Relies on `std::time::SystemTime::now` and `duration_since`: wall-clock
/// milliseconds since the Unix epoch. The result depends on the clock, so
/// nothing is promised of it.
#[verifier::external_body]
fn now_unix_millis() -> u64 {
    match std::time::SystemTime::now().duration_since(std::time::UNIX_EPOCH) {
        Ok(d) => d.as_millis() as u64,
        Err(_) => 0,
    }
}

/// The topology plus the id-to-slot bijections and a monotonically increasing
/// id counter. Node and edge arenas are dense vectors addressed by internal
/// slot; a node's slot is live for as long as the node, an edge's slot stays
/// mapped to its id until a later edge claims the same id.
#[derive(Debug)]
pub struct Graph {
    nodes: Vec<Node>,
    edges: Vec<EdgeRecord>,
    id_counter: usize,
    created_at: u64,
}

/// The slot the given edge id resolves to: the most recently inserted edge
/// with that id, if any. A slot whose id was later claimed by another edge is
/// no longer mapped, mirroring insertion into a bijective lookup table.
pub open spec fn last_edge_slot(edges: Seq<EdgeRecord>, id: Seq<char>) -> Option<int>
    decreases edges.len(),
{
    if edges.len() == 0 {
        None
    } else if edges.last().edge.id@ == id {
        Some(edges.len() - 1)
    } else {
        last_edge_slot(edges.drop_last(), id)
    }
}

/// What `last_edge_slot` finds is the last matching slot, and it finds one
/// exactly when a matching slot exists.
pub proof fn lemma_last_edge_slot(edges: Seq<EdgeRecord>, id: Seq<char>)
    ensures
        match last_edge_slot(edges, id) {
            Some(k) => 0 <= k < edges.len() && edges[k].edge.id@ == id && (forall|j: int|
                k < j < edges.len() ==> (#[trigger] edges[j]).edge.id@ != id),
            None => forall|j: int| 0 <= j < edges.len() ==> (#[trigger] edges[j]).edge.id@ != id,
        },
    decreases edges.len(),
{
    if edges.len() > 0 {
        let rest = edges.drop_last();
        lemma_last_edge_slot(rest, id);
        if edges.last().edge.id@ != id {
            match last_edge_slot(rest, id) {
                Some(k) => {
                    assert(edges[k] == rest[k]);
                    assert forall|j: int| k < j < edges.len() implies (#[trigger] edges[j]).edge.id@
                        != id by {
                        if j < edges.len() - 1 {
                            assert(edges[j] == rest[j]);
                        } else {
                            assert(edges[j] == edges.last());
                        }
                    }
                },
                None => {
                    assert forall|j: int| 0 <= j < edges.len() implies (#[trigger] edges[j]).edge.id@
                        != id by {
                        if j < edges.len() - 1 {
                            assert(edges[j] == rest[j]);
                        } else {
                            assert(edges[j] == edges.last());
                        }
                    }
                },
            }
        }
    }
}

/// Node ids are pairwise distinct in the arena.
pub open spec fn seq_nodes_distinct(ns: Seq<Node>) -> bool {
    forall|i: int, j: int| 0 <= i < j < ns.len() ==> #[trigger] ns[i].id@ != #[trigger] ns[j].id@
}

/// Whether a node arena holds a node with the given stable id.
pub open spec fn seq_has_node_id(ns: Seq<Node>, id: Seq<char>) -> bool {
    exists|i: int| 0 <= i < ns.len() && (#[trigger] ns[i]).id@ == id
}

/// The arena slot of the node with the given stable id (meaningful only when
/// `seq_has_node_id` holds; unique when ids are pairwise distinct).
pub open spec fn seq_node_slot(ns: Seq<Node>, id: Seq<char>) -> int {
    choose|i: int| 0 <= i < ns.len() && (#[trigger] ns[i]).id@ == id
}

/// The neighbour contribution of one edge, seen from `slot`: the slot at the
/// other end if the edge touches `slot`, nothing otherwise. A self-loop
/// contributes its own slot once.
pub open spec fn edge_other_end(rec: EdgeRecord, slot: int) -> Seq<int> {
    if rec.source == slot {
        seq![rec.target as int]
    } else if rec.target == slot {
        seq![rec.source as int]
    } else {
        Seq::empty()
    }
}

/// The neighbour slots of `slot`, one entry per adjacent edge, in
/// edge-insertion order and direction-agnostic.
pub open spec fn neighbor_slots(edges: Seq<EdgeRecord>, slot: int) -> Seq<int>
    decreases edges.len(),
{
    if edges.len() == 0 {
        Seq::empty()
    } else {
        neighbor_slots(edges.drop_last(), slot) + edge_other_end(edges.last(), slot)
    }
}

/// One statement of an external graph description, already reduced to plain
/// values by the parsing collaborator. The core has no parser-specific
/// ingestion path: every insertion routes through `add_node`, `ensure_node`
/// and `add_edge`.
#[derive(Debug)]
pub enum DotStatement {
    /// A node declaration with its display label.
    Node { id: NodeId, label: String },
    /// An edge between two plainly named nodes.
    Edge { from: NodeId, to: NodeId },
    /// An edge whose endpoints use a construct the store cannot represent.
    EdgeUnsupported,
    /// Any other statement; ignored.
    Ignored,
}

/// The character of one decimal digit value.
pub open spec fn decimal_digit(d: int) -> char {
    if d == 0 {
        '0'
    } else if d == 1 {
        '1'
    } else if d == 2 {
        '2'
    } else if d == 3 {
        '3'
    } else if d == 4 {
        '4'
    } else if d == 5 {
        '5'
    } else if d == 6 {
        '6'
    } else if d == 7 {
        '7'
    } else if d == 8 {
        '8'
    } else {
        '9'
    }
}

/// The decimal digits of `n`, most significant first.
pub open spec fn decimal_str(n: nat) -> Seq<char>
    decreases n,
{
    if n < 10 {
        seq![decimal_digit(n as int)]
    } else {
        decimal_str(n / 10) + seq![decimal_digit((n % 10) as int)]
    }
}

proof fn lemma_decimal_str_len(n: nat)
    ensures
        decimal_str(n).len() >= 1,
    decreases n,
{
    if n >= 10 {
        lemma_decimal_str_len(n / 10);
    }
}

/// Distinct numbers render as distinct digit strings.
proof fn lemma_decimal_str_injective(a: nat, b: nat)
    requires
        a != b,
    ensures
        decimal_str(a) != decimal_str(b),
    decreases a + b,
{
    if a < 10 && b < 10 {
        assert(decimal_str(a)[0] != decimal_str(b)[0]);
    } else if a < 10 && b >= 10 {
        lemma_decimal_str_len(b / 10);
        assert(decimal_str(b).len() >= 2);
    } else if a >= 10 && b < 10 {
        lemma_decimal_str_len(a / 10);
        assert(decimal_str(a).len() >= 2);
    } else {
        if a % 10 != b % 10 {
            assert(decimal_str(a).last() != decimal_str(b).last());
        } else {
            lemma_decimal_str_injective(a / 10, b / 10);
            if decimal_str(a) == decimal_str(b) {
                assert(decimal_str(a).drop_last() =~= decimal_str(a / 10));
                assert(decimal_str(b).drop_last() =~= decimal_str(b / 10));
                assert(false);
            }
        }
    }
}

/// The id generated for counter value `c` under the given kind prefix.
pub open spec fn generated_tag(prefix: Seq<char>, c: nat) -> Seq<char> {
    prefix + decimal_str(c)
}

proof fn lemma_concat_cancel(p: Seq<char>, x: Seq<char>, y: Seq<char>)
    requires
        p + x == p + y,
    ensures
        x == y,
{
    assert((p + x).len() == p.len() + x.len());
    assert((p + y).len() == p.len() + y.len());
    assert(x.len() == y.len());
    assert forall|i: int| 0 <= i < x.len() implies x[i] == y[i] by {
        assert((p + x)[p.len() + i] == x[i]);
        assert((p + y)[p.len() + i] == y[i]);
    }
    assert(x =~= y);
}

proof fn lemma_generated_tag_injective(prefix: Seq<char>, a: nat, b: nat)
    requires
        a != b,
    ensures
        generated_tag(prefix, a) != generated_tag(prefix, b),
{
    lemma_decimal_str_injective(a, b);
    if generated_tag(prefix, a) == generated_tag(prefix, b) {
        lemma_concat_cancel(prefix, decimal_str(a), decimal_str(b));
    }
}

/// The ids generated for counter values in `(base, cur]` under `prefix`.
spec fn tag_range(prefix: Seq<char>, base: int, cur: int) -> Set<Seq<char>> {
    Set::new(
        |s: Seq<char>|
            exists|c: int| base < c <= cur && s == #[trigger] generated_tag(prefix, c as nat),
    )
}

proof fn lemma_tag_range_step(prefix: Seq<char>, base: int, cur: int)
    requires
        base <= cur,
    ensures
        tag_range(prefix, base, cur + 1) =~= tag_range(prefix, base, cur).insert(
            generated_tag(prefix, (cur + 1) as nat),
        ),
{
    let lhs = tag_range(prefix, base, cur + 1);
    let rhs = tag_range(prefix, base, cur).insert(generated_tag(prefix, (cur + 1) as nat));
    assert forall|s: Seq<char>| lhs.contains(s) implies rhs.contains(s) by {
        let c = choose|c: int| base < c <= cur + 1 && s == #[trigger] generated_tag(prefix, c as nat);
        if c <= cur {
            assert(tag_range(prefix, base, cur).contains(s));
        }
    }
    assert forall|s: Seq<char>| rhs.contains(s) implies lhs.contains(s) by {
        if s == generated_tag(prefix, (cur + 1) as nat) {
            assert(base < cur + 1 <= cur + 1 && s == generated_tag(prefix, (cur + 1) as nat));
        } else {
            let c = choose|c: int| base < c <= cur && s == #[trigger] generated_tag(prefix, c as nat);
            assert(base < c <= cur + 1 && s == generated_tag(prefix, c as nat));
        }
    }
}

proof fn lemma_new_tag_fresh(prefix: Seq<char>, base: int, cur: int)
    requires
        0 <= base <= cur,
    ensures
        !tag_range(prefix, base, cur).contains(generated_tag(prefix, (cur + 1) as nat)),
{
    let t = generated_tag(prefix, (cur + 1) as nat);
    if tag_range(prefix, base, cur).contains(t) {
        let c = choose|c: int| base < c <= cur && t == #[trigger] generated_tag(prefix, c as nat);
        lemma_generated_tag_injective(prefix, c as nat, (cur + 1) as nat);
        assert(false);
    }
}

/// Relies on the std `format!` macro: a `usize` formatted with `{}` renders
/// as its decimal digits, here appended to the given prefix.
#[verifier::external_body]
fn format_tagged_number(prefix: &str, n: usize) -> (r: String)
    ensures
        r@ == prefix@ + decimal_str(n as nat),
{
    format!("{}{}", prefix, n)
}

/// The serialisable projection of the store: ordered node list, edge list as
/// (source id, target id, edge) triples, and the creation timestamp, in
/// milliseconds since the Unix epoch, fixed once at store creation.
#[derive(Debug)]
pub struct GraphResponse {
    pub nodes: Vec<Node>,
    pub edges: Vec<(NodeId, NodeId, Edge)>,
    pub creation_time: u64,
}

/// Clones a node list element by element.
pub(crate) fn clone_nodes(v: &Vec<Node>) -> (r: Vec<Node>)
    ensures
        r@ == v@,
{
    let mut out: Vec<Node> = Vec::new();
    let n = v.len();
    let mut i: usize = 0;
    while i < n
        invariant
            n == v@.len(),
            i <= n,
            out@.len() == i,
            forall|j: int| 0 <= j < i ==> #[trigger] out@[j] == v@[j],
        decreases n - i,
    {
        out.push(v[i].clone());
        i += 1;
    }
    proof {
        assert(out@ =~= v@);
    }
    out
}

/// Clones an edge-triple list element by element.
pub(crate) fn clone_edge_triples(v: &Vec<(NodeId, NodeId, Edge)>) -> (r: Vec<(NodeId, NodeId, Edge)>)
    ensures
        r@ == v@,
{
    let mut out: Vec<(NodeId, NodeId, Edge)> = Vec::new();
    let n = v.len();
    let mut i: usize = 0;
    while i < n
        invariant
            n == v@.len(),
            i <= n,
            out@.len() == i,
            forall|j: int| 0 <= j < i ==> #[trigger] out@[j] == v@[j],
        decreases n - i,
    {
        let t = &v[i];
        out.push((t.0.clone(), t.1.clone(), t.2.clone()));
        i += 1;
    }
    proof {
        assert(out@ =~= v@);
    }
    out
}

impl Clone for GraphResponse {
    /// The clone carries the same nodes, edges, and timestamp.
    fn clone(&self) -> (r: Self)
        ensures
            r.nodes@ == self.nodes@,
            r.edges@ == self.edges@,
            r.creation_time == self.creation_time,
    {
        GraphResponse {
            nodes: clone_nodes(&self.nodes),
            edges: clone_edge_triples(&self.edges),
            creation_time: self.creation_time,
        }
    }
}

impl Graph {
    /// The node arena; the slot of a node is its index here.
    pub closed spec fn nodes_seq(self) -> Seq<Node> {
        self.nodes@
    }

    /// The edge arena; the slot of an edge is its index here.
    pub closed spec fn edges_seq(self) -> Seq<EdgeRecord> {
        self.edges@
    }

    /// The id-generation counter.
    pub closed spec fn counter(self) -> int {
        self.id_counter as int
    }

    /// The creation timestamp, fixed once at store creation.
    pub closed spec fn created_at_millis(self) -> u64 {
        self.created_at
    }

    /// Node ids are pairwise distinct: the id-to-slot relation is a bijection
    /// between live ids and live slots.
    pub open spec fn nodes_distinct(self) -> bool {
        seq_nodes_distinct(self.nodes_seq())
    }

    /// Every edge's endpoints are live node slots.
    pub open spec fn edges_closed(self) -> bool {
        forall|k: int|
            0 <= k < self.edges_seq().len() ==> (#[trigger] self.edges_seq()[k]).source
                < self.nodes_seq().len() && self.edges_seq()[k].target < self.nodes_seq().len()
    }

    /// Well-formedness: established by the constructor and preserved by every
    /// mutating operation.
    pub open spec fn wf(self) -> bool {
        &&& self.nodes_distinct()
        &&& self.edges_closed()
    }

    /// Whether a node with the given stable id is stored.
    pub open spec fn has_node_id(self, id: Seq<char>) -> bool {
        seq_has_node_id(self.nodes_seq(), id)
    }

    /// The slot of the node with the given stable id (meaningful only when
    /// `has_node_id` holds; unique under `wf`).
    pub open spec fn node_slot(self, id: Seq<char>) -> int {
        seq_node_slot(self.nodes_seq(), id)
    }

    /// Whether an edge id is currently mapped.
    pub open spec fn has_edge_id(self, id: Seq<char>) -> bool {
        last_edge_slot(self.edges_seq(), id) is Some
    }

    /// Creates an empty store; the creation timestamp is fixed here, once.
    pub fn new() -> (g: Graph)
        ensures
            g.wf(),
            g.nodes_seq().len() == 0,
            g.edges_seq().len() == 0,
            g.counter() == 0,
    {
        Graph { nodes: Vec::new(), edges: Vec::new(), id_counter: 0, created_at: now_unix_millis() }
    }

    /// The slot holding the node with this id, if the id is live.
    fn node_index_of(&self, node_id: &NodeId) -> (r: Option<usize>)
        ensures
            match r {
                Some(i) => i < self.nodes_seq().len() && self.nodes_seq()[i as int].id@ == node_id@
                    && (self.wf() ==> i == self.node_slot(node_id@)),
                None => !self.has_node_id(node_id@),
            },
    {
        let n = self.nodes.len();
        let mut i: usize = 0;
        while i < n
            invariant
                n == self.nodes_seq().len(),
                i <= n,
                forall|j: int| 0 <= j < i ==> (#[trigger] self.nodes_seq()[j]).id@ != node_id@,
            decreases n - i,
        {
            if self.nodes[i].id == *node_id {
                proof {
                    if self.wf() {
                        let s = self.node_slot(node_id@);
                        assert(0 <= s < self.nodes_seq().len() && self.nodes_seq()[s].id@
                            == node_id@);
                    }
                }
                return Some(i);
            }
            i += 1;
        }
        None
    }

    /// O(slot-table) lookup from stable id to internal slot; fails with
    /// `NodeNotFound` exactly when the id is stale.
    pub fn resolve_node_index(&self, node_id: &NodeId) -> (r: Result<usize, Error>)
        requires
            self.wf(),
        ensures
            match r {
                Ok(i) => self.has_node_id(node_id@) && i == self.node_slot(node_id@) && i
                    < self.nodes_seq().len() && self.nodes_seq()[i as int].id@ == node_id@,
                Err(e) => !self.has_node_id(node_id@) && (e matches Error::NodeNotFound { id: s }
                    && s@ == node_id@),
            },
    {
        match self.node_index_of(node_id) {
            Some(i) => Ok(i),
            None => Err(Error::node_not_found(node_id.0.as_str())),
        }
    }

    /// O(1) lookup from internal slot to stable id; fails with
    /// `NodeIndexNotFound` exactly when the slot is not live.
    pub fn resolve_node_id(&self, node_index: usize) -> (r: Result<NodeId, Error>)
        requires
            self.wf(),
        ensures
            match r {
                Ok(id) => node_index < self.nodes_seq().len() && id
                    == self.nodes_seq()[node_index as int].id,
                Err(e) => node_index >= self.nodes_seq().len() && (e matches
                    Error::NodeIndexNotFound { index } && index == node_index),
            },
    {
        if node_index < self.nodes.len() {
            Ok(self.nodes[node_index].id.clone())
        } else {
            Err(Error::node_index_not_found(node_index))
        }
    }

    /// Inserts the node under its stable id, mapping a fresh slot; idempotent
    /// on the id: if the id is already live, the call leaves the store
    /// unchanged.
    pub fn add_node(&mut self, node: Node)
        requires
            old(self).wf(),
        ensures
            final(self).wf(),
            final(self).edges_seq() == old(self).edges_seq(),
            final(self).counter() == old(self).counter(),
            final(self).created_at_millis() == old(self).created_at_millis(),
            old(self).has_node_id(node.id@) ==> final(self).nodes_seq() == old(self).nodes_seq(),
            !old(self).has_node_id(node.id@) ==> final(self).nodes_seq() == old(
                self,
            ).nodes_seq().push(node),
            old(self).nodes_seq().len() <= final(self).nodes_seq().len(),
            forall|i: int|
                0 <= i < old(self).nodes_seq().len() ==> #[trigger] final(self).nodes_seq()[i]
                    == old(self).nodes_seq()[i],
    {
        match self.node_index_of(&node.id) {
            Some(_) => {},
            None => {
                self.nodes.push(node);
                proof {
                    let ns = self.nodes_seq();
                    assert forall|i: int, j: int| 0 <= i < j < ns.len() implies #[trigger] ns[i].id@
                        != #[trigger] ns[j].id@ by {
                        if j == ns.len() - 1 {
                            assert(old(self).nodes_seq()[i].id@ != node.id@);
                        } else {
                            assert(old(self).nodes_distinct());
                        }
                    }
                    assert forall|k: int|
                        0 <= k < self.edges_seq().len() implies (#[trigger] self.edges_seq()[k]).source
                        < self.nodes_seq().len() && self.edges_seq()[k].target
                        < self.nodes_seq().len() by {
                        assert(self.edges_seq()[k] == old(self).edges_seq()[k]);
                    }
                }
            },
        }
    }

    /// All nodes adjacent to the given one, direction-agnostic, one entry per
    /// adjacent edge in edge-insertion order. Used by the layout warm-start
    /// heuristic.
    pub fn node_neighbors(&self, node_id: &NodeId) -> (r: Result<Vec<Node>, Error>)
        requires
            self.wf(),
        ensures
            match r {
                Ok(v) => self.has_node_id(node_id@) && v@ == neighbor_slots(
                    self.edges_seq(),
                    self.node_slot(node_id@),
                ).map_values(|s: int| self.nodes_seq()[s]),
                Err(e) => !self.has_node_id(node_id@) && (e matches Error::NodeNotFound { id: s }
                    && s@ == node_id@),
            },
    {
        let slot = match self.node_index_of(node_id) {
            Some(i) => i,
            None => { return Err(Error::node_not_found(node_id.0.as_str())) },
        };
        let ghost f = |s: int| self.nodes_seq()[s];
        let mut out: Vec<Node> = Vec::new();
        let n = self.edges.len();
        let mut k: usize = 0;
        while k < n
            invariant
                self.wf(),
                n == self.edges_seq().len(),
                k <= n,
                slot < self.nodes_seq().len(),
                f == (|s: int| self.nodes_seq()[s]),
                out@ == neighbor_slots(self.edges_seq().take(k as int), slot as int).map_values(f),
            decreases n - k,
        {
            proof {
                let pre = self.edges_seq().take(k as int);
                let post = self.edges_seq().take(k + 1 as int);
                assert(post.drop_last() =~= pre);
                assert(post.last() == self.edges_seq()[k as int]);
                assert(neighbor_slots(post, slot as int) == neighbor_slots(pre, slot as int)
                    + edge_other_end(self.edges_seq()[k as int], slot as int));
            }
            if self.edges[k].source == slot {
                out.push(self.nodes[self.edges[k].target].clone());
            } else if self.edges[k].target == slot {
                out.push(self.nodes[self.edges[k].source].clone());
            }
            proof {
                let pre = self.edges_seq().take(k as int);
                let post = self.edges_seq().take(k + 1 as int);
                assert(out@ =~= neighbor_slots(post, slot as int).map_values(f));
            }
            k += 1;
        }
        proof {
            assert(self.edges_seq().take(n as int) =~= self.edges_seq());
        }
        Ok(out)
    }

    /// Overwrites the position of the node with the given stable id; fails
    /// with `NodeNotFound`, leaving the store unchanged, exactly when the id
    /// is stale.
    pub fn set_node_pos(&mut self, node_id: &NodeId, pos: Pos) -> (r: Result<(), Error>)
        requires
            old(self).wf(),
        ensures
            final(self).wf(),
            final(self).edges_seq() == old(self).edges_seq(),
            final(self).counter() == old(self).counter(),
            final(self).created_at_millis() == old(self).created_at_millis(),
            match r {
                Ok(_) => old(self).has_node_id(node_id@) && final(self).nodes_seq() == old(
                    self,
                ).nodes_seq().update(
                    old(self).node_slot(node_id@),
                    (Node {
                        pos: Some(pos),
                        ..old(self).nodes_seq()[old(self).node_slot(node_id@)]
                    }),
                ),
                Err(e) => !old(self).has_node_id(node_id@) && *final(self) == *old(self) && (
                e matches Error::NodeNotFound { id: s } && s@ == node_id@),
            },
    {
        let i = match self.node_index_of(node_id) {
            Some(i) => i,
            None => { return Err(Error::node_not_found(node_id.0.as_str())) },
        };
        let n = self.nodes[i].clone();
        self.nodes[i] = Node { id: n.id, data: n.data, pos: Some(pos) };
        proof {
            let ns = self.nodes_seq();
            assert forall|a: int, b: int| 0 <= a < b < ns.len() implies #[trigger] ns[a].id@
                != #[trigger] ns[b].id@ by {
                assert(ns[a].id@ == old(self).nodes_seq()[a].id@);
                assert(ns[b].id@ == old(self).nodes_seq()[b].id@);
            }
            assert forall|k: int|
                0 <= k < self.edges_seq().len() implies (#[trigger] self.edges_seq()[k]).source
                < self.nodes_seq().len() && self.edges_seq()[k].target
                < self.nodes_seq().len() by {
                assert(self.edges_seq()[k] == old(self).edges_seq()[k]);
            }
        }
        Ok(())
    }

    /// The serialisable point-in-time projection of the store: the node list,
    /// the edge list as (source id, target id, edge) triples, and the creation
    /// timestamp fixed at store creation. Node order follows the internal
    /// slot order and is stable within one call.
    pub fn graph_response(&self) -> (r: GraphResponse)
        requires
            self.wf(),
        ensures
            r.nodes@ == self.nodes_seq(),
            r.edges@.len() == self.edges_seq().len(),
            forall|k: int|
                0 <= k < self.edges_seq().len() ==> {
                    let rec = #[trigger] self.edges_seq()[k];
                    r.edges@[k] == (
                        self.nodes_seq()[rec.source as int].id,
                        self.nodes_seq()[rec.target as int].id,
                        rec.edge,
                    )
                },
            r.creation_time == self.created_at_millis(),
    {
        let mut nodes: Vec<Node> = Vec::new();
        let n = self.nodes.len();
        let mut i: usize = 0;
        while i < n
            invariant
                n == self.nodes_seq().len(),
                i <= n,
                nodes@.len() == i,
                forall|j: int| 0 <= j < i ==> #[trigger] nodes@[j] == self.nodes_seq()[j],
            decreases n - i,
        {
            nodes.push(self.nodes[i].clone());
            i += 1;
        }
        let mut edges: Vec<(NodeId, NodeId, Edge)> = Vec::new();
        let m = self.edges.len();
        let mut k: usize = 0;
        while k < m
            invariant
                self.wf(),
                m == self.edges_seq().len(),
                k <= m,
                edges@.len() == k,
                forall|j: int|
                    0 <= j < k ==> {
                        let rec = #[trigger] self.edges_seq()[j];
                        edges@[j] == (
                            self.nodes_seq()[rec.source as int].id,
                            self.nodes_seq()[rec.target as int].id,
                            rec.edge,
                        )
                    },
            decreases m - k,
        {
            let src = self.edges[k].source;
            let tgt = self.edges[k].target;
            edges.push(
                (self.nodes[src].id.clone(), self.nodes[tgt].id.clone(), self.edges[k].edge.clone()),
            );
            k += 1;
        }
        proof {
            assert(nodes@ =~= self.nodes_seq());
        }
        GraphResponse { nodes, edges, creation_time: self.created_at }
    }

    /// The slot the given edge id is currently mapped to, if any: the most
    /// recently inserted edge with that id.
    fn edge_index_of(&self, id: &String) -> (r: Option<usize>)
        ensures
            match r {
                Some(i) => last_edge_slot(self.edges_seq(), id@) == Some(i as int),
                None => last_edge_slot(self.edges_seq(), id@) is None,
            },
    {
        proof {
            lemma_last_edge_slot(self.edges_seq(), id@);
        }
        let n = self.edges.len();
        let mut k: usize = n;
        while k > 0
            invariant
                n == self.edges_seq().len(),
                k <= n,
                forall|j: int| k <= j < n ==> (#[trigger] self.edges_seq()[j]).edge.id@ != id@,
            decreases k,
        {
            k -= 1;
            if self.edges[k].edge.id.0 == *id {
                proof {
                    lemma_last_edge_slot(self.edges_seq(), id@);
                }
                return Some(k);
            }
        }
        None
    }

    /// O(slot-table) lookup from stable edge id to internal slot; fails with
    /// `EdgeNotFound` exactly when the id is not mapped.
    pub fn resolve_edge_index(&self, edge_id: EdgeId) -> (r: Result<usize, Error>)
        ensures
            match r {
                Ok(i) => last_edge_slot(self.edges_seq(), edge_id@) == Some(i as int) && i
                    < self.edges_seq().len() && self.edges_seq()[i as int].edge.id@ == edge_id@,
                Err(e) => !self.has_edge_id(edge_id@) && (e matches Error::EdgeNotFound { id: s }
                    && s@ == edge_id@),
            },
    {
        proof {
            lemma_last_edge_slot(self.edges_seq(), edge_id@);
        }
        match self.edge_index_of(&edge_id.0) {
            Some(i) => Ok(i),
            None => Err(Error::edge_not_found(edge_id.0.as_str())),
        }
    }

    /// Lookup from internal edge slot to stable id; fails with
    /// `EdgeIndexNotFound` exactly when the slot is not live or its id has
    /// since been claimed by a more recently inserted edge.
    pub fn resolve_edge_id(&self, edge_index: usize) -> (r: Result<EdgeId, Error>)
        ensures
            match r {
                Ok(id) => edge_index < self.edges_seq().len() && id == self.edges_seq()[
                    edge_index as int].edge.id && last_edge_slot(self.edges_seq(), id@) == Some(
                    edge_index as int,
                ),
                Err(e) => (edge_index >= self.edges_seq().len() || last_edge_slot(
                    self.edges_seq(),
                    self.edges_seq()[edge_index as int].edge.id@,
                ) != Some(edge_index as int)) && (e matches Error::EdgeIndexNotFound { index }
                    && index == edge_index),
            },
    {
        if edge_index < self.edges.len() {
            match self.edge_index_of(&self.edges[edge_index].edge.id.0) {
                Some(i) => {
                    if i == edge_index {
                        Ok(self.edges[edge_index].edge.id.clone())
                    } else {
                        Err(Error::edge_index_not_found(edge_index))
                    }
                },
                None => Err(Error::edge_index_not_found(edge_index)),
            }
        } else {
            Err(Error::edge_index_not_found(edge_index))
        }
    }

    /// Generates a fresh edge id from the monotonic counter with the
    /// edge-kind prefix, retrying until the id collides with no mapped edge
    /// id. Does not insert anything.
    fn new_edge_id(&mut self) -> (r: EdgeId)
        requires
            old(self).counter() + old(self).edges_seq().len() + 1 <= usize::MAX,
        ensures
            final(self).nodes_seq() == old(self).nodes_seq(),
            final(self).edges_seq() == old(self).edges_seq(),
            final(self).created_at_millis() == old(self).created_at_millis(),
            old(self).counter() < final(self).counter(),
            final(self).counter() <= old(self).counter() + old(self).edges_seq().len() + 1,
            !final(self).has_edge_id(r@),
            r@ == generated_tag("_gpe"@, final(self).counter() as nat),
    {
        let ghost base = old(self).counter();
        let ghost f = |e: EdgeRecord| e.edge.id@;
        let ghost views = self.edges_seq().map_values(f).to_set();
        let ghost mut tried: Set<Seq<char>> = Set::empty();
        proof {
            broadcast use vstd::seq_lib::seq_to_set_is_finite;

            assert(tried =~= tag_range("_gpe"@, base, base));
            self.edges_seq().map_values(f).lemma_cardinality_of_set();
        }
        loop
            invariant
                self.nodes_seq() == old(self).nodes_seq(),
                self.edges_seq() == old(self).edges_seq(),
                self.created_at_millis() == old(self).created_at_millis(),
                base == old(self).counter(),
                base <= self.counter(),
                f == (|e: EdgeRecord| e.edge.id@),
                views == self.edges_seq().map_values(f).to_set(),
                views.finite(),
                views.len() <= self.edges_seq().len(),
                tried == tag_range("_gpe"@, base, self.counter()),
                tried.finite(),
                tried.len() == self.counter() - base,
                tried.subset_of(views),
                self.counter() - base <= views.len(),
                base + self.edges_seq().len() + 1 <= usize::MAX,
            decreases base + self.edges_seq().len() - self.counter(),
        {
            self.id_counter = self.id_counter + 1;
            let id_string = format_tagged_number("_gpe", self.id_counter);
            match self.edge_index_of(&id_string) {
                None => {
                    proof {
                        lemma_last_edge_slot(self.edges_seq(), id_string@);
                    }
                    return EdgeId(id_string);
                },
                Some(i) => {
                    proof {
                        let cur = self.counter();
                        lemma_last_edge_slot(self.edges_seq(), id_string@);
                        let ms = self.edges_seq().map_values(f);
                        assert(ms[i as int] == id_string@);
                        assert(ms.contains(id_string@));
                        lemma_new_tag_fresh("_gpe"@, base, cur - 1);
                        lemma_tag_range_step("_gpe"@, base, cur - 1);
                        tried = tried.insert(id_string@);
                        vstd::set_lib::lemma_len_subset(tried, views);
                    }
                },
            }
        }
    }

    /// Generates a fresh node id from the monotonic counter with the
    /// node-kind prefix, retrying until the id collides with no live node id.
    /// Does not insert anything.
    #[allow(dead_code)]
    fn new_node_id(&mut self) -> (r: NodeId)
        requires
            old(self).counter() + old(self).nodes_seq().len() + 1 <= usize::MAX,
        ensures
            final(self).nodes_seq() == old(self).nodes_seq(),
            final(self).edges_seq() == old(self).edges_seq(),
            final(self).created_at_millis() == old(self).created_at_millis(),
            old(self).counter() < final(self).counter(),
            !final(self).has_node_id(r@),
            r@ == generated_tag("_gpn"@, final(self).counter() as nat),
    {
        let ghost base = old(self).counter();
        let ghost f = |n: Node| n.id@;
        let ghost views = self.nodes_seq().map_values(f).to_set();
        let ghost mut tried: Set<Seq<char>> = Set::empty();
        proof {
            broadcast use vstd::seq_lib::seq_to_set_is_finite;

            assert(tried =~= tag_range("_gpn"@, base, base));
            self.nodes_seq().map_values(f).lemma_cardinality_of_set();
        }
        loop
            invariant
                self.nodes_seq() == old(self).nodes_seq(),
                self.edges_seq() == old(self).edges_seq(),
                self.created_at_millis() == old(self).created_at_millis(),
                base == old(self).counter(),
                base <= self.counter(),
                f == (|n: Node| n.id@),
                views == self.nodes_seq().map_values(f).to_set(),
                views.finite(),
                views.len() <= self.nodes_seq().len(),
                tried == tag_range("_gpn"@, base, self.counter()),
                tried.finite(),
                tried.len() == self.counter() - base,
                tried.subset_of(views),
                self.counter() - base <= views.len(),
                base + self.nodes_seq().len() + 1 <= usize::MAX,
            decreases base + self.nodes_seq().len() - self.counter(),
        {
            self.id_counter = self.id_counter + 1;
            let id_string = format_tagged_number("_gpn", self.id_counter);
            let candidate = NodeId(id_string);
            match self.node_index_of(&candidate) {
                None => {
                    return candidate;
                },
                Some(i) => {
                    proof {
                        let cur = self.counter();
                        let ms = self.nodes_seq().map_values(f);
                        assert(ms[i as int] == candidate@);
                        assert(ms.contains(candidate@));
                        lemma_new_tag_fresh("_gpn"@, base, cur - 1);
                        lemma_tag_range_step("_gpn"@, base, cur - 1);
                        tried = tried.insert(candidate@);
                        vstd::set_lib::lemma_len_subset(tried, views);
                    }
                },
            }
        }
    }

    /// Inserts an edge between the nodes with stable ids `a` and `b`,
    /// generating a fresh edge id when none is supplied; fails with
    /// `NodeNotFound`, recording no partial edge, exactly when either
    /// endpoint id is absent. The id counter may still advance on failure.
    pub fn add_edge(&mut self, a: NodeId, b: NodeId, edge_id: Option<EdgeId>) -> (r: Result<
        (),
        Error,
    >)
        requires
            old(self).wf(),
            edge_id is None ==> old(self).counter() + old(self).edges_seq().len() + 1
                <= usize::MAX,
        ensures
            final(self).wf(),
            final(self).nodes_seq() == old(self).nodes_seq(),
            final(self).created_at_millis() == old(self).created_at_millis(),
            edge_id is Some ==> final(self).counter() == old(self).counter(),
            old(self).counter() <= final(self).counter() <= old(self).counter() + old(
                self,
            ).edges_seq().len() + 1,
            old(self).edges_seq().len() <= final(self).edges_seq().len(),
            forall|j: int|
                0 <= j < old(self).edges_seq().len() ==> #[trigger] final(self).edges_seq()[j]
                    == old(self).edges_seq()[j],
            match r {
                Ok(_) => {
                    &&& old(self).has_node_id(a@) && old(self).has_node_id(b@)
                    &&& final(self).edges_seq().len() == old(self).edges_seq().len() + 1
                    &&& final(self).edges_seq().drop_last() == old(self).edges_seq()
                    &&& final(self).edges_seq().last().source == old(self).node_slot(a@)
                    &&& final(self).edges_seq().last().target == old(self).node_slot(b@)
                    &&& (edge_id matches Some(id) ==> final(self).edges_seq().last().edge.id == id)
                    &&& (edge_id is None ==> !old(self).has_edge_id(
                        final(self).edges_seq().last().edge.id@,
                    ))
                    &&& final(self).has_edge_id(final(self).edges_seq().last().edge.id@)
                },
                Err(e) => {
                    &&& !(old(self).has_node_id(a@) && old(self).has_node_id(b@))
                    &&& final(self).edges_seq() == old(self).edges_seq()
                    &&& (e matches Error::NodeNotFound { id: s } && (if !old(self).has_node_id(a@) {
                        s@ == a@
                    } else {
                        s@ == b@
                    }))
                },
            },
    {
        let eid: EdgeId = match edge_id {
            Some(id) => id,
            None => self.new_edge_id(),
        };
        let ia = match self.node_index_of(&a) {
            Some(i) => i,
            None => { return Err(Error::node_not_found(a.0.as_str())) },
        };
        let ib = match self.node_index_of(&b) {
            Some(i) => i,
            None => { return Err(Error::node_not_found(b.0.as_str())) },
        };
        self.edges.push(EdgeRecord { source: ia, target: ib, edge: Edge { id: eid } });
        proof {
            assert(self.edges_seq().drop_last() =~= old(self).edges_seq());
            assert forall|k: int|
                0 <= k < self.edges_seq().len() implies (#[trigger] self.edges_seq()[k]).source
                < self.nodes_seq().len() && self.edges_seq()[k].target
                < self.nodes_seq().len() by {
                if k < self.edges_seq().len() - 1 {
                    assert(self.edges_seq()[k] == old(self).edges_seq()[k]);
                }
            }
        }
        Ok(())
    }

    /// How many nodes are stored.
    pub fn node_count(&self) -> (n: usize)
        ensures
            n == self.nodes_seq().len(),
    {
        self.nodes.len()
    }

    /// The current value of the id-generation counter.
    pub fn counter_value(&self) -> (c: usize)
        ensures
            c == self.counter(),
    {
        self.id_counter
    }

    /// How many edges are stored.
    pub fn edge_count(&self) -> (n: usize)
        ensures
            n == self.edges_seq().len(),
    {
        self.edges.len()
    }

    /// The endpoint slot pairs of all edges, in slot order: the local index
    /// mapping a layout builds its link list from.
    pub fn edge_endpoints(&self) -> (r: Vec<(usize, usize)>)
        ensures
            r@.len() == self.edges_seq().len(),
            forall|k: int|
                0 <= k < self.edges_seq().len() ==> #[trigger] r@[k] == (
                    self.edges_seq()[k].source,
                    self.edges_seq()[k].target,
                ),
    {
        let mut out: Vec<(usize, usize)> = Vec::new();
        let n = self.edges.len();
        let mut k: usize = 0;
        while k < n
            invariant
                n == self.edges_seq().len(),
                k <= n,
                out@.len() == k,
                forall|j: int|
                    0 <= j < k ==> #[trigger] out@[j] == (
                        self.edges_seq()[j].source,
                        self.edges_seq()[j].target,
                    ),
            decreases n - k,
        {
            out.push((self.edges[k].source, self.edges[k].target));
            k += 1;
        }
        out
    }

    /// Applies the statements of an external graph description in order,
    /// routing every insertion through `add_node`, `ensure_node` and
    /// `add_edge`: node statements insert the node under its label, edge
    /// statements materialise both endpoints and connect them under a fresh
    /// generated edge id. Stops with `UnsupportedEdgeNode` at the first
    /// statement whose endpoints the store cannot represent, keeping what was
    /// applied before it; succeeds exactly when no such statement occurs.
    pub fn apply_statements(&mut self, statements: Vec<DotStatement>) -> (r: Result<(), Error>)
        requires
            old(self).wf(),
            old(self).counter() + old(self).edges_seq().len() + 1 + statements@.len() * (old(
                self,
            ).edges_seq().len() + statements@.len() + 2) <= usize::MAX,
        ensures
            final(self).wf(),
            final(self).created_at_millis() == old(self).created_at_millis(),
            old(self).nodes_seq().len() <= final(self).nodes_seq().len(),
            forall|i: int|
                0 <= i < old(self).nodes_seq().len() ==> #[trigger] final(self).nodes_seq()[i]
                    == old(self).nodes_seq()[i],
            old(self).edges_seq().len() <= final(self).edges_seq().len(),
            forall|k: int|
                0 <= k < old(self).edges_seq().len() ==> #[trigger] final(self).edges_seq()[k]
                    == old(self).edges_seq()[k],
            r is Ok <==> (forall|s: int|
                0 <= s < statements@.len() ==> !((#[trigger] statements@[s]) is EdgeUnsupported)),
            r is Ok ==> (forall|s: int|
                0 <= s < statements@.len() ==> match #[trigger] statements@[s] {
                    DotStatement::Node { id, label } => final(self).has_node_id(id@),
                    DotStatement::Edge { from, to } => final(self).has_node_id(from@)
                        && final(self).has_node_id(to@),
                    _ => true,
                }),
            r matches Err(e) ==> e is UnsupportedEdgeNode,
    {
        let ghost c0 = old(self).counter();
        let ghost e0 = old(self).edges_seq().len() as int;
        let ghost n = statements@.len() as int;
        let ghost m = e0 + n + 2;
        let len = statements.len();
        let mut k: usize = 0;
        proof {
            assert(n * m >= 0) by (nonlinear_arith)
                requires
                    n >= 0,
                    m >= 2,
            ;
        }
        while k < len
            invariant
                self.wf(),
                self.created_at_millis() == old(self).created_at_millis(),
                len == statements@.len(),
                k <= len,
                n == statements@.len() as int,
                e0 == old(self).edges_seq().len() as int,
                m == e0 + n + 2,
                old(self).nodes_seq().len() <= self.nodes_seq().len(),
                forall|i: int|
                    0 <= i < old(self).nodes_seq().len() ==> #[trigger] self.nodes_seq()[i] == old(
                        self,
                    ).nodes_seq()[i],
                old(self).edges_seq().len() <= self.edges_seq().len(),
                forall|j: int|
                    0 <= j < old(self).edges_seq().len() ==> #[trigger] self.edges_seq()[j] == old(
                        self,
                    ).edges_seq()[j],
                self.edges_seq().len() <= e0 + k,
                self.counter() + self.edges_seq().len() + 1 + (n - k) * m <= usize::MAX,
                forall|s: int|
                    0 <= s < k ==> !((#[trigger] statements@[s]) is EdgeUnsupported),
                forall|s: int|
                    0 <= s < k ==> match #[trigger] statements@[s] {
                        DotStatement::Node { id, label } => self.has_node_id(id@),
                        DotStatement::Edge { from, to } => self.has_node_id(from@)
                            && self.has_node_id(to@),
                        _ => true,
                    },
            decreases len - k,
        {
            let ghost pre = *self;
            proof {
                assert((n - k) * m == (n - k - 1) * m + m) by (nonlinear_arith);
                assert((n - k - 1) * m >= 0) by (nonlinear_arith)
                    requires
                        n - k - 1 >= 0,
                        m >= 2,
                ;
            }
            match &statements[k] {
                DotStatement::Node { id, label } => {
                    let node = Node {
                        id: id.clone(),
                        data: NodeData { label: label.clone() },
                        pos: None,
                    };
                    self.add_node(node);
                    proof {
                        if !pre.has_node_id(id@) {
                            assert(self.nodes_seq()[self.nodes_seq().len() - 1].id@ == id@);
                        }
                        assert(self.has_node_id(id@)) by {
                            if pre.has_node_id(id@) {
                                lemma_has_node_id_monotone(pre, *self, id@);
                            }
                        }
                    }
                },
                DotStatement::Edge { from, to } => {
                    let eid = self.new_edge_id();
                    let ghost g1 = *self;
                    self.ensure_node(from);
                    proof {
                        if !g1.has_node_id(from@) {
                            assert(self.nodes_seq()[self.nodes_seq().len() - 1].id@ == from@);
                        } else {
                            lemma_has_node_id_monotone(g1, *self, from@);
                        }
                    }
                    let ghost g2 = *self;
                    self.ensure_node(to);
                    proof {
                        lemma_has_node_id_monotone(g2, *self, from@);
                        if !g2.has_node_id(to@) {
                            assert(self.nodes_seq()[self.nodes_seq().len() - 1].id@ == to@);
                        } else {
                            lemma_has_node_id_monotone(g2, *self, to@);
                        }
                    }
                    match self.add_edge(from.clone(), to.clone(), Some(eid)) {
                        Ok(_) => {},
                        Err(_) => {
                            proof {
                                assert(false);
                            }
                        },
                    }
                },
                DotStatement::EdgeUnsupported => {
                    return Err(Error::UnsupportedEdgeNode);
                },
                DotStatement::Ignored => {},
            }
            proof {
                assert forall|s: int| 0 <= s < k + 1 implies match #[trigger] statements@[s] {
                    DotStatement::Node { id, label } => self.has_node_id(id@),
                    DotStatement::Edge { from, to } => self.has_node_id(from@)
                        && self.has_node_id(to@),
                    _ => true,
                } by {
                    if s < k {
                        match statements@[s] {
                            DotStatement::Node { id, label } => {
                                lemma_has_node_id_monotone(pre, *self, id@);
                            },
                            DotStatement::Edge { from, to } => {
                                lemma_has_node_id_monotone(pre, *self, from@);
                                lemma_has_node_id_monotone(pre, *self, to@);
                            },
                            _ => {},
                        }
                    }
                }
            }
            k += 1;
        }
        Ok(())
    }

    /// Creates a placeholder node (label = id) if the id is absent; otherwise
    /// a no-op. Used to auto-materialise edge endpoints.
    pub fn ensure_node(&mut self, node_id: &NodeId)
        requires
            old(self).wf(),
        ensures
            final(self).wf(),
            final(self).edges_seq() == old(self).edges_seq(),
            final(self).counter() == old(self).counter(),
            final(self).created_at_millis() == old(self).created_at_millis(),
            old(self).has_node_id(node_id@) ==> final(self).nodes_seq() == old(self).nodes_seq(),
            !old(self).has_node_id(node_id@) ==> {
                &&& final(self).nodes_seq().len() == old(self).nodes_seq().len() + 1
                &&& final(self).nodes_seq().drop_last() == old(self).nodes_seq()
                &&& final(self).nodes_seq().last().id == *node_id
                &&& final(self).nodes_seq().last().data.label@ == node_id@
                &&& final(self).nodes_seq().last().pos is None
            },
            old(self).nodes_seq().len() <= final(self).nodes_seq().len(),
            forall|i: int|
                0 <= i < old(self).nodes_seq().len() ==> #[trigger] final(self).nodes_seq()[i]
                    == old(self).nodes_seq()[i],
    {
        match self.node_index_of(node_id) {
            Some(_) => {},
            None => {
                let node = Node {
                    id: node_id.clone(),
                    data: NodeData { label: node_id.0.clone() },
                    pos: None,
                };
                self.add_node(node);
                proof {
                    assert(self.nodes_seq().drop_last() =~= old(self).nodes_seq());
                }
            },
        }
    }
}

} // verus!
