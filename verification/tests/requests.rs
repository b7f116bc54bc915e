use graphpipe::graph::{EdgeId, Graph, NodeId};
use graphpipe::graph_data::GraphData;
use graphpipe::server::{apply_add_request, no_edge_requests, no_nodes, EdgeRequest};

fn rid(s: &str) -> NodeId {
    NodeId::from(String::from(s))
}

#[test]
fn request_defaults_are_empty() {
    assert!(no_nodes().is_empty());
    assert!(no_edge_requests().is_empty());
}

#[test]
fn add_request_materialises_edge_endpoints() {
    let mut data = GraphData {
        graph: Graph::new(),
        layout: None,
    };
    data.update_layout().unwrap();
    assert!(data.layout.is_some());
    let edges = vec![EdgeRequest {
        a: rid("x"),
        b: rid("y"),
        id: Some(EdgeId::from(String::from("E"))),
    }];
    apply_add_request(&mut data, no_nodes(), edges).unwrap();
    assert!(data.layout.is_none(), "an add request is a topology edit");
    let response = data.graph.graph_response();
    assert_eq!(response.nodes.len(), 2);
    assert_eq!(response.nodes[0].id, rid("x"));
    assert_eq!(response.nodes[1].id, rid("y"));
    assert_eq!(response.edges.len(), 1);
    assert_eq!(response.edges[0].2.id, EdgeId::from(String::from("E")));
}
