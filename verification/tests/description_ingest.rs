use graphpipe::graph::{DotStatement, Error, Graph, NodeId};

fn did(s: &str) -> NodeId {
    NodeId::from(String::from(s))
}

#[test]
fn statements_route_through_ordinary_insertions() {
    let mut g = Graph::new();
    let statements = vec![
        DotStatement::Node {
            id: did("a"),
            label: String::from("Alpha"),
        },
        DotStatement::Ignored,
        DotStatement::Edge {
            from: did("a"),
            to: did("b"),
        },
    ];
    g.apply_statements(statements).unwrap();
    let response = g.graph_response();
    assert_eq!(response.nodes.len(), 2);
    assert_eq!(response.nodes[0].id, did("a"));
    assert_eq!(response.nodes[0].data.label, "Alpha");
    assert_eq!(response.nodes[1].id, did("b"));
    assert_eq!(response.nodes[1].data.label, "b");
    assert_eq!(response.edges.len(), 1);
    assert_eq!(response.edges[0].0, did("a"));
    assert_eq!(response.edges[0].1, did("b"));
}

#[test]
fn unsupported_edge_endpoints_stop_ingestion() {
    let mut g = Graph::new();
    let statements = vec![
        DotStatement::Node {
            id: did("kept"),
            label: String::from("kept"),
        },
        DotStatement::EdgeUnsupported,
        DotStatement::Node {
            id: did("never"),
            label: String::from("never"),
        },
    ];
    let err = g.apply_statements(statements).unwrap_err();
    assert!(matches!(err, Error::UnsupportedEdgeNode));
    let response = g.graph_response();
    assert_eq!(response.nodes.len(), 1);
    assert_eq!(response.nodes[0].id, did("kept"));
}
