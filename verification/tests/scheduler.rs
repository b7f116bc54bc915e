use graphpipe::bg_layout::{do_layout, send_update, should_publish, update_channel, updates};
use graphpipe::graph::{Graph, Node, NodeData, NodeId};
use graphpipe::graph_data::GraphData;
use graphpipe::server::{apply_add_request, EdgeRequest};

fn sid(s: &str) -> NodeId {
    NodeId::from(String::from(s))
}

fn bare_node(id: &str) -> Node {
    Node {
        id: sid(id),
        data: NodeData {
            label: String::from(id),
        },
        pos: None,
    }
}

fn empty_data() -> GraphData {
    GraphData {
        graph: Graph::new(),
        layout: None,
    }
}

#[test]
fn publish_policy_suppresses_only_doubly_finished_ticks() {
    assert!(should_publish(false, false));
    assert!(should_publish(false, true));
    assert!(should_publish(true, false));
    assert!(!should_publish(true, true));
}

#[test]
fn idle_store_allocates_no_layout_and_counts_as_finished() {
    let mut data = empty_data();
    let finished = do_layout(&mut data).unwrap();
    assert!(finished);
    assert!(data.layout.is_none());
}

#[test]
fn do_layout_builds_steps_and_applies() {
    let mut data = empty_data();
    data.graph.add_node(bare_node("a"));
    data.graph.add_node(bare_node("b"));
    data.graph.add_edge(sid("a"), sid("b"), None).unwrap();
    do_layout(&mut data).unwrap();
    assert!(data.layout.is_some());
    let response = data.graph.graph_response();
    assert!(response.nodes.iter().all(|n| n.pos.is_some()));
}

#[test]
fn do_layout_rebuilds_after_reset_with_current_node_count() {
    let mut data = empty_data();
    data.graph.add_node(bare_node("a"));
    do_layout(&mut data).unwrap();
    assert_eq!(data.layout.as_ref().unwrap().node_list().len(), 1);
    data.reset_layout();
    data.graph.add_node(bare_node("b"));
    do_layout(&mut data).unwrap();
    assert_eq!(
        data.layout.as_ref().unwrap().node_list().len(),
        2,
        "the tick after a reset must run on the current topology"
    );
}

#[test]
fn subscribe_reports_a_torn_down_publisher() {
    let (tx, rx0) = update_channel();
    let weak = tx.downgrade();
    assert!(updates(&weak).is_some());
    drop(rx0);
    drop(tx);
    assert!(
        updates(&weak).is_none(),
        "a dead publisher must be reported, not hung on"
    );
}

#[test]
fn send_update_reports_subscriber_presence() {
    let mut data = empty_data();
    data.graph.add_node(bare_node("solo"));
    let (tx, mut rx) = update_channel();
    assert!(send_update(&data, &tx));
    let update = rx.try_recv().unwrap();
    assert_eq!(update.graph.nodes.len(), 1);
    assert_eq!(update.graph.nodes[0].id, sid("solo"));
    drop(rx);
    assert!(
        !send_update(&data, &tx),
        "a send with zero subscribers is reported, not an error"
    );
}

#[test]
fn scenario_updates_flow_then_settle() {
    let rt = tokio::runtime::Builder::new_multi_thread()
        .worker_threads(2)
        .enable_time()
        .build()
        .unwrap();
    rt.block_on(async {
        let data = std::sync::Arc::new(tokio::sync::Mutex::new(empty_data()));
        let (tx, rx0) = update_channel();
        drop(rx0);
        let exit = std::sync::Arc::new(std::sync::atomic::AtomicBool::new(false));

        let loop_data = data.clone();
        let loop_tx = tx.clone();
        let loop_exit = exit.clone();
        let scheduler = tokio::spawn(async move {
            let mut was_finished = false;
            while !loop_exit.load(std::sync::atomic::Ordering::Relaxed) {
                let is_finished = {
                    let mut d = loop_data.lock().await;
                    do_layout(&mut *d).unwrap()
                };
                tokio::time::sleep(std::time::Duration::from_millis(5)).await;
                if should_publish(was_finished, is_finished) {
                    let d = loop_data.lock().await;
                    send_update(&*d, &loop_tx);
                }
                was_finished = is_finished;
            }
        });

        let mut rx = updates(&tx.downgrade()).expect("publisher should be live");
        {
            let mut d = data.lock().await;
            let nodes = vec![bare_node("A"), bare_node("B")];
            let edges = vec![EdgeRequest {
                a: sid("A"),
                b: sid("B"),
                id: None,
            }];
            apply_add_request(&mut *d, nodes, edges).unwrap();
        }

        let deadline = tokio::time::Instant::now() + std::time::Duration::from_secs(5);
        let mut got_ab = false;
        while tokio::time::Instant::now() < deadline {
            match tokio::time::timeout(std::time::Duration::from_millis(500), rx.recv()).await {
                Ok(Ok(update)) => {
                    let names: Vec<String> = update
                        .graph
                        .nodes
                        .iter()
                        .map(|n| String::from(n.id.clone()))
                        .collect();
                    if names == vec![String::from("A"), String::from("B")] {
                        assert_eq!(update.graph.edges.len(), 1);
                        assert_eq!(update.graph.edges[0].0, sid("A"));
                        assert_eq!(update.graph.edges[0].1, sid("B"));
                        got_ab = true;
                        break;
                    }
                }
                Ok(Err(tokio::sync::broadcast::error::RecvError::Lagged(_))) => {}
                Ok(Err(_)) => panic!("publisher vanished while the scheduler runs"),
                Err(_) => {}
            }
        }
        assert!(got_ab, "no update carrying nodes A and B arrived");

        loop {
            match tokio::time::timeout(std::time::Duration::from_secs(1), rx.recv()).await {
                Ok(Ok(_)) => {}
                Ok(Err(tokio::sync::broadcast::error::RecvError::Lagged(_))) => {}
                Ok(Err(_)) => panic!("publisher vanished while the scheduler runs"),
                Err(_) => break,
            }
        }
        assert!(
            !exit.load(std::sync::atomic::Ordering::Relaxed),
            "the scheduler was still supposed to be running"
        );

        exit.store(true, std::sync::atomic::Ordering::Relaxed);
        scheduler.await.unwrap();
    });
}
