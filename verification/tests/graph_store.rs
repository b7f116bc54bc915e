use graphpipe::graph::{Edge, EdgeId, Error, Graph, Node, NodeData, NodeId, Pos};

fn nid(s: &str) -> NodeId {
    NodeId::from(String::from(s))
}

fn eid(s: &str) -> EdgeId {
    EdgeId::from(String::from(s))
}

fn plain_node(id: &str) -> Node {
    Node {
        id: nid(id),
        data: NodeData {
            label: String::from(id),
        },
        pos: None,
    }
}

#[test]
fn add_node_is_idempotent_on_id() {
    let mut g = Graph::new();
    g.add_node(plain_node("A"));
    g.add_node(plain_node("A"));
    let response = g.graph_response();
    assert_eq!(response.nodes.len(), 1);
    assert_eq!(response.nodes[0].id, nid("A"));
}

#[test]
fn node_id_slot_round_trip() {
    let mut g = Graph::new();
    g.add_node(plain_node("A"));
    g.add_node(plain_node("B"));
    let ia = g.resolve_node_index(&nid("A")).unwrap();
    let ib = g.resolve_node_index(&nid("B")).unwrap();
    assert_ne!(ia, ib);
    assert_eq!(g.resolve_node_id(ia).unwrap(), nid("A"));
    assert_eq!(g.resolve_node_id(ib).unwrap(), nid("B"));
    let back = g.resolve_node_id(ia).unwrap();
    assert_eq!(g.resolve_node_index(&back).unwrap(), ia);
}

#[test]
fn resolve_reports_stale_lookups() {
    let g = Graph::new();
    let err = g.resolve_node_index(&nid("ghost")).unwrap_err();
    assert!(matches!(err, Error::NodeNotFound { ref id } if id.as_str() == "ghost"));
    let err = g.resolve_node_id(0).unwrap_err();
    assert!(matches!(err, Error::NodeIndexNotFound { index: 0 }));
    let err = g.resolve_edge_index(eid("ghost")).unwrap_err();
    assert!(matches!(err, Error::EdgeNotFound { ref id } if id.as_str() == "ghost"));
    let err = g.resolve_edge_id(0).unwrap_err();
    assert!(matches!(err, Error::EdgeIndexNotFound { index: 0 }));
}

#[test]
fn add_edge_fails_with_not_found_and_records_nothing() {
    let mut g = Graph::new();
    let err = g.add_edge(nid("x"), nid("y"), None).unwrap_err();
    assert!(matches!(err, Error::NodeNotFound { ref id } if id.as_str() == "x"));
    let response = g.graph_response();
    assert_eq!(response.nodes.len(), 0);
    assert_eq!(response.edges.len(), 0);
}

#[test]
fn add_edge_fails_when_only_second_endpoint_is_missing() {
    let mut g = Graph::new();
    g.add_node(plain_node("a"));
    let err = g.add_edge(nid("a"), nid("missing"), None).unwrap_err();
    assert!(matches!(err, Error::NodeNotFound { ref id } if id.as_str() == "missing"));
    assert_eq!(g.graph_response().edges.len(), 0);
}

#[test]
fn add_edge_connects_existing_nodes() {
    let mut g = Graph::new();
    g.add_node(plain_node("a"));
    g.add_node(plain_node("b"));
    g.add_edge(nid("a"), nid("b"), Some(eid("e1"))).unwrap();
    let response = g.graph_response();
    assert_eq!(response.edges.len(), 1);
    let (source, target, edge) = &response.edges[0];
    assert_eq!(*source, nid("a"));
    assert_eq!(*target, nid("b"));
    assert_eq!(edge.id, eid("e1"));
}

#[test]
fn generated_edge_ids_use_the_kind_prefix_and_counter() {
    let mut g = Graph::new();
    g.add_node(plain_node("a"));
    g.add_node(plain_node("b"));
    g.add_edge(nid("a"), nid("b"), None).unwrap();
    g.add_edge(nid("b"), nid("a"), None).unwrap();
    let response = g.graph_response();
    assert_eq!(response.edges[0].2.id, eid("_gpe1"));
    assert_eq!(response.edges[1].2.id, eid("_gpe2"));
}

#[test]
fn generated_edge_ids_skip_colliding_external_ids() {
    let mut g = Graph::new();
    g.add_node(plain_node("a"));
    g.add_node(plain_node("b"));
    g.add_edge(nid("a"), nid("b"), Some(eid("_gpe1"))).unwrap();
    g.add_edge(nid("a"), nid("b"), None).unwrap();
    let response = g.graph_response();
    assert_eq!(response.edges[1].2.id, eid("_gpe2"));
}

#[test]
fn duplicate_explicit_edge_id_remaps_to_the_newer_edge() {
    let mut g = Graph::new();
    g.add_node(plain_node("a"));
    g.add_node(plain_node("b"));
    g.add_edge(nid("a"), nid("b"), Some(eid("E"))).unwrap();
    g.add_edge(nid("b"), nid("a"), Some(eid("E"))).unwrap();
    assert_eq!(g.resolve_edge_index(eid("E")).unwrap(), 1);
    assert_eq!(g.resolve_edge_id(1).unwrap(), eid("E"));
    let err = g.resolve_edge_id(0).unwrap_err();
    assert!(matches!(err, Error::EdgeIndexNotFound { index: 0 }));
}

#[test]
fn ensure_node_creates_a_placeholder_once() {
    let mut g = Graph::new();
    g.ensure_node(&nid("n1"));
    g.ensure_node(&nid("n1"));
    let response = g.graph_response();
    assert_eq!(response.nodes.len(), 1);
    assert_eq!(response.nodes[0].data.label, "n1");
    assert!(response.nodes[0].pos.is_none());
}

#[test]
fn node_neighbors_are_direction_agnostic() {
    let mut g = Graph::new();
    g.add_node(plain_node("a"));
    g.add_node(plain_node("b"));
    g.add_node(plain_node("c"));
    g.add_edge(nid("a"), nid("b"), None).unwrap();
    g.add_edge(nid("c"), nid("a"), None).unwrap();
    let around_a: Vec<NodeId> = g
        .node_neighbors(&nid("a"))
        .unwrap()
        .into_iter()
        .map(|n| n.id)
        .collect();
    assert_eq!(around_a, vec![nid("b"), nid("c")]);
    let around_b: Vec<NodeId> = g
        .node_neighbors(&nid("b"))
        .unwrap()
        .into_iter()
        .map(|n| n.id)
        .collect();
    assert_eq!(around_b, vec![nid("a")]);
    let err = g.node_neighbors(&nid("zzz")).unwrap_err();
    assert!(matches!(err, Error::NodeNotFound { .. }));
}

#[test]
fn set_node_pos_overwrites_by_stable_id() {
    let mut g = Graph::new();
    g.add_node(plain_node("a"));
    g.set_node_pos(&nid("a"), Pos(3, -4)).unwrap();
    let response = g.graph_response();
    assert_eq!(response.nodes[0].pos, Some(Pos(3, -4)));
    let err = g.set_node_pos(&nid("nope"), Pos(0, 0)).unwrap_err();
    assert!(matches!(err, Error::NodeNotFound { .. }));
}

#[test]
fn snapshot_keeps_creation_time_and_node_order() {
    let mut g = Graph::new();
    g.add_node(plain_node("n1"));
    g.add_node(plain_node("n2"));
    let first = g.graph_response();
    g.add_node(plain_node("n3"));
    let second = g.graph_response();
    assert_eq!(first.creation_time, second.creation_time);
    assert_eq!(second.nodes[0].id, nid("n1"));
    assert_eq!(second.nodes[1].id, nid("n2"));
    assert_eq!(second.nodes[2].id, nid("n3"));
}

#[test]
fn node_and_edge_ids_convert_to_and_from_strings() {
    let id = nid("hello");
    let s: String = String::from(id.clone());
    assert_eq!(s, "hello");
    assert_eq!(NodeId::from(s), id);
    let e = eid("there");
    let s: String = String::from(e.clone());
    assert_eq!(s, "there");
    assert_eq!(EdgeId::from(s), e);
}

#[test]
fn self_loop_contributes_one_neighbor_entry() {
    let mut g = Graph::new();
    g.add_node(plain_node("a"));
    g.add_edge(nid("a"), nid("a"), None).unwrap();
    let around: Vec<NodeId> = g
        .node_neighbors(&nid("a"))
        .unwrap()
        .into_iter()
        .map(|n| n.id)
        .collect();
    assert_eq!(around, vec![nid("a")]);
}

#[test]
fn error_messages_name_the_missing_id() {
    let g = Graph::new();
    let err = g.resolve_node_index(&nid("ghost")).unwrap_err();
    assert_eq!(err.message(), "node not found: ghost");
}

#[test]
fn edge_payload_clone_keeps_the_id() {
    let edge = Edge { id: eid("e9") };
    let copy = edge.clone();
    assert_eq!(copy.id, edge.id);
}
