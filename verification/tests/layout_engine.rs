use graphpipe::graph::{Graph, Node, NodeData, NodeId, Pos};
use graphpipe::graph_data::GraphData;
use graphpipe::layout::{Layout, NodesEdges};

fn lid(s: &str) -> NodeId {
    NodeId::from(String::from(s))
}

fn node_at(id: &str, pos: Option<Pos>) -> Node {
    Node {
        id: lid(id),
        data: NodeData {
            label: String::from(id),
        },
        pos,
    }
}

#[test]
fn warm_start_seeds_from_positioned_neighbors() {
    let mut g = Graph::new();
    g.add_node(node_at("x", Some(Pos(0, 0))));
    g.add_node(node_at("y", None));
    g.add_edge(lid("x"), lid("y"), None).unwrap();
    let layout = Layout::new(&g).unwrap();
    let nodes = layout.node_list();
    assert_eq!(nodes[0].id, lid("x"));
    assert_eq!(nodes[0].pos, Some(Pos(0, 0)));
    assert_eq!(nodes[1].id, lid("y"));
    assert_eq!(nodes[1].pos, Some(Pos(0, 0)));
}

#[test]
fn warm_start_averages_all_positioned_neighbors() {
    let mut g = Graph::new();
    g.add_node(node_at("p", Some(Pos(10, -20))));
    g.add_node(node_at("q", Some(Pos(20, -40))));
    g.add_node(node_at("bare", None));
    g.add_node(node_at("mid", None));
    g.add_edge(lid("mid"), lid("p"), None).unwrap();
    g.add_edge(lid("q"), lid("mid"), None).unwrap();
    g.add_edge(lid("mid"), lid("bare"), None).unwrap();
    let layout = Layout::new(&g).unwrap();
    let nodes = layout.node_list();
    assert_eq!(nodes[3].id, lid("mid"));
    assert_eq!(nodes[3].pos, Some(Pos(15, -30)));
}

#[test]
fn warm_start_leaves_isolated_nodes_unseeded() {
    let mut g = Graph::new();
    g.add_node(node_at("alone", None));
    let layout = Layout::new(&g).unwrap();
    assert_eq!(layout.node_list()[0].pos, None);
}

#[test]
fn step_positions_every_node_and_keeps_edges() {
    let mut g = Graph::new();
    g.add_node(node_at("a", None));
    g.add_node(node_at("b", None));
    g.add_edge(lid("a"), lid("b"), None).unwrap();
    let mut layout = Layout::new(&g).unwrap();
    let (nodes_edges, _finished) = layout.step();
    assert_eq!(nodes_edges.nodes.len(), 2);
    assert!(nodes_edges.nodes.iter().all(|n| n.pos.is_some()));
    assert_eq!(nodes_edges.edges.len(), 1);
    assert_eq!(nodes_edges.edges[0].0, lid("a"));
    assert_eq!(nodes_edges.edges[0].1, lid("b"));
}

#[test]
fn convergence_flag_becomes_and_stays_true() {
    let mut g = Graph::new();
    g.add_node(node_at("a", None));
    g.add_node(node_at("b", None));
    g.add_node(node_at("c", None));
    g.add_edge(lid("a"), lid("b"), None).unwrap();
    g.add_edge(lid("b"), lid("c"), None).unwrap();
    let mut layout = Layout::new(&g).unwrap();
    let mut ticks = 0usize;
    let mut finished = false;
    while ticks < 2000 {
        let (_out, f) = layout.step();
        ticks += 1;
        if f {
            finished = true;
            break;
        }
    }
    assert!(finished, "simulation never reported convergence");
    for _ in 0..50 {
        let (_out, f) = layout.step();
        assert!(f, "finished flag did not stay set");
    }
}

#[test]
fn topology_edit_requires_fresh_convergence() {
    let mut g = Graph::new();
    g.add_node(node_at("a", None));
    g.add_node(node_at("b", None));
    g.add_edge(lid("a"), lid("b"), None).unwrap();
    let mut layout = Layout::new(&g).unwrap();
    let mut finished = false;
    for _ in 0..2000 {
        let (_out, f) = layout.step();
        if f {
            finished = true;
            break;
        }
    }
    assert!(finished);
    g.add_node(node_at("c", None));
    g.add_edge(lid("b"), lid("c"), None).unwrap();
    let mut rebuilt = Layout::new(&g).unwrap();
    let (_out, f) = rebuilt.step();
    assert!(!f, "a freshly built simulation must not start converged");
}

#[test]
fn apply_writes_positions_back_by_stable_id() {
    let mut g = Graph::new();
    g.add_node(node_at("a", None));
    g.add_node(node_at("b", None));
    let result = NodesEdges {
        nodes: vec![node_at("b", Some(Pos(7, 8)))],
        edges: Vec::new(),
    };
    Layout::apply(&result, &mut g).unwrap();
    let response = g.graph_response();
    assert_eq!(response.nodes[0].pos, None);
    assert_eq!(response.nodes[1].pos, Some(Pos(7, 8)));
}

#[test]
fn apply_surfaces_vanished_nodes_and_keeps_earlier_writes() {
    let mut g = Graph::new();
    g.add_node(node_at("a", None));
    let result = NodesEdges {
        nodes: vec![node_at("a", Some(Pos(1, 2))), node_at("gone", Some(Pos(3, 4)))],
        edges: Vec::new(),
    };
    let err = Layout::apply(&result, &mut g).unwrap_err();
    assert_eq!(err.message(), "node not found: gone");
    assert_eq!(g.graph_response().nodes[0].pos, Some(Pos(1, 2)));
}

#[test]
fn reset_layout_discards_the_cache_and_the_next_tick_rebuilds() {
    let mut data = GraphData {
        graph: Graph::new(),
        layout: None,
    };
    data.graph.add_node(node_at("a", None));
    data.update_layout().unwrap();
    assert!(data.layout.is_some());
    assert_eq!(data.layout.as_ref().unwrap().node_list().len(), 1);
    data.reset_layout();
    assert!(data.layout.is_none());
    data.graph.add_node(node_at("b", None));
    data.update_layout().unwrap();
    let rebuilt = data.layout.as_ref().unwrap().node_list();
    assert_eq!(rebuilt.len(), 2, "rebuilt layout must reflect current topology");
}

#[test]
fn cached_layout_is_reused_until_reset() {
    let mut data = GraphData {
        graph: Graph::new(),
        layout: None,
    };
    data.graph.add_node(node_at("a", Some(Pos(5, 5))));
    data.update_layout().unwrap();
    let before = data.layout.as_ref().unwrap().node_list();
    data.update_layout().unwrap();
    let after = data.layout.as_ref().unwrap().node_list();
    assert_eq!(before.len(), after.len());
    assert_eq!(before[0].pos, after[0].pos);
}
