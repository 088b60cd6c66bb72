use maelstrom_echo::{Body, Message, MessageType, Node, NodeError, Topology};
use std::collections::{HashSet, VecDeque};

fn request(src: &str, dest: &str, msg_id: usize, payload: MessageType) -> Message {
    Message {
        src: src.to_string(),
        dest: dest.to_string(),
        body: Body { msg_id, in_reply_to: None, payload },
    }
}

fn names(list: &[&str]) -> Vec<String> {
    list.iter().map(|name| name.to_string()).collect()
}

fn started(id: &str, peers: &[&str]) -> Node {
    let mut node = Node::new();
    let init = MessageType::Init { node_id: id.to_string(), node_ids: names(peers) };
    let sent = node.handle_message(request("c0", id, 0, init)).unwrap();
    assert_eq!(sent.len(), 1);
    node
}

fn with_neighbors(node: &mut Node, id: &str, neighbors: &[&str]) {
    let mut topology = Topology::new();
    topology.insert(id.to_string(), names(neighbors));
    let sent = node
        .handle_message(request("c0", id, 0, MessageType::Topology { topology }))
        .unwrap();
    assert_eq!(sent.len(), 1);
}

fn generated(sent: &VecDeque<Message>) -> usize {
    assert_eq!(sent.len(), 1);
    match sent[0].body.payload {
        MessageType::GenerateOk { id } => id,
        _ => panic!("not a generate_ok reply"),
    }
}

fn seen(node: &mut Node, id: &str) -> HashSet<usize> {
    let sent = node.handle_message(request("c0", id, 0, MessageType::Read)).unwrap();
    assert_eq!(sent.len(), 1);
    match &sent[0].body.payload {
        MessageType::ReadOk { messages } => messages.clone(),
        _ => panic!("not a read_ok reply"),
    }
}

#[test]
fn init_is_answered_with_init_ok() {
    let mut node = Node::new();
    let init = MessageType::Init { node_id: "n3".to_string(), node_ids: names(&["n1", "n2", "n3"]) };
    let sent = node.handle_message(request("c1", "n3", 1, init)).unwrap();
    assert_eq!(sent.len(), 1);
    assert_eq!(sent[0].src, "n3");
    assert_eq!(sent[0].dest, "c1");
    assert_eq!(sent[0].body.msg_id, 0);
    assert_eq!(sent[0].body.in_reply_to, Some(1));
    assert!(matches!(sent[0].body.payload, MessageType::InitOk));
}

#[test]
fn bootstrap_then_generate_counts_from_the_index_in_cluster_strides() {
    let mut node = Node::new();
    let init = MessageType::Init { node_id: "n3".to_string(), node_ids: names(&["n1", "n2", "n3"]) };
    let sent = node.handle_message(request("c1", "n3", 1, init)).unwrap();
    assert_eq!(sent.len(), 1);
    assert!(matches!(sent[0].body.payload, MessageType::InitOk));
    assert_eq!(sent[0].body.in_reply_to, Some(1));
    let first = node.handle_message(request("c1", "n3", 2, MessageType::Generate)).unwrap();
    assert_eq!(generated(&first), 3);
    assert_eq!(first[0].body.in_reply_to, Some(2));
    let second = node.handle_message(request("c1", "n3", 3, MessageType::Generate)).unwrap();
    assert_eq!(generated(&second), 6);
    assert_eq!(second[0].body.in_reply_to, Some(3));
}

#[test]
fn echo_returns_the_text_unchanged() {
    let mut node = started("n1", &["n1", "n2"]);
    for (msg_id, text) in ["", "hello", "Please echo 35", "b\u{e9}ton \u{1f600}"].iter().enumerate() {
        let echo = MessageType::Echo { echo: text.to_string() };
        let sent = node.handle_message(request("c7", "n1", 40 + msg_id, echo)).unwrap();
        assert_eq!(sent.len(), 1);
        assert_eq!(sent[0].src, "n1");
        assert_eq!(sent[0].dest, "c7");
        assert_eq!(sent[0].body.in_reply_to, Some(40 + msg_id));
        match &sent[0].body.payload {
            MessageType::EchoOk { echo } => assert_eq!(echo, text),
            _ => panic!("not an echo_ok reply"),
        }
    }
}

#[test]
fn generate_in_a_cluster_without_peers_steps_by_one() {
    let mut node = started("n5", &[]);
    let first = node.handle_message(request("c1", "n5", 1, MessageType::Generate)).unwrap();
    let second = node.handle_message(request("c1", "n5", 2, MessageType::Generate)).unwrap();
    let third = node.handle_message(request("c1", "n5", 3, MessageType::Generate)).unwrap();
    assert_eq!(generated(&first), 5);
    assert_eq!(generated(&second), 6);
    assert_eq!(generated(&third), 7);
}

#[test]
fn generated_ids_of_a_cluster_never_collide() {
    let peers = ["n0", "n1", "n2", "n3"];
    let mut nodes: Vec<Node> = peers.iter().map(|id| started(id, &peers)).collect();
    let mut ids = HashSet::new();
    let order = [2usize, 0, 0, 3, 1, 2, 2, 1, 3, 3, 3, 0, 1];
    let mut calls = 0;
    for round in 0..40 {
        for &turn in order.iter() {
            let which = (turn + round) % nodes.len();
            let sent = nodes[which]
                .handle_message(request("c1", peers[which], calls, MessageType::Generate))
                .unwrap();
            assert!(ids.insert(generated(&sent)));
            calls += 1;
        }
    }
    assert_eq!(ids.len(), 40 * order.len());
}

#[test]
fn read_before_any_broadcast_is_empty() {
    let mut node = started("n1", &["n1"]);
    assert!(seen(&mut node, "n1").is_empty());
}

#[test]
fn read_reflects_all_seen_values() {
    let mut node = started("n1", &["n1", "n2"]);
    for value in [1usize, 2, 1] {
        let sent = node
            .handle_message(request("c1", "n1", 9, MessageType::Broadcast { message: value }))
            .unwrap();
        assert!(matches!(sent[0].body.payload, MessageType::BroadcastOk));
    }
    let values = seen(&mut node, "n1");
    assert_eq!(values.len(), 2);
    assert_eq!(values, HashSet::from([1, 2]));
}

#[test]
fn broadcast_is_forwarded_only_on_first_delivery() {
    let mut node = started("n1", &["n1", "n2", "n3"]);
    with_neighbors(&mut node, "n1", &["n2", "n3"]);
    let first = node
        .handle_message(request("c1", "n1", 5, MessageType::Broadcast { message: 7 }))
        .unwrap();
    assert_eq!(first.len(), 3);
    assert!(matches!(first[0].body.payload, MessageType::BroadcastOk));
    assert_eq!(first[0].dest, "c1");
    assert_eq!(first[0].body.in_reply_to, Some(5));
    assert_eq!(first[1].dest, "n2");
    assert_eq!(first[2].dest, "n3");
    for forwarded in first.iter().skip(1) {
        assert_eq!(forwarded.src, "n1");
        assert_eq!(forwarded.body.in_reply_to, None);
        assert!(matches!(forwarded.body.payload, MessageType::Broadcast { message: 7 }));
    }
    let second = node
        .handle_message(request("n2", "n1", 8, MessageType::Broadcast { message: 7 }))
        .unwrap();
    assert_eq!(second.len(), 1);
    assert!(matches!(second[0].body.payload, MessageType::BroadcastOk));
    assert_eq!(second[0].dest, "n2");
    assert_eq!(second[0].body.in_reply_to, Some(8));
    assert_eq!(seen(&mut node, "n1"), HashSet::from([7]));
}

#[test]
fn broadcast_is_not_sent_back_to_its_sender() {
    let mut node = started("n9", &["a1", "b2", "c3", "n9"]);
    with_neighbors(&mut node, "n9", &["a1", "b2", "c3"]);
    let sent = node
        .handle_message(request("b2", "n9", 1, MessageType::Broadcast { message: 11 }))
        .unwrap();
    let targets: Vec<&str> = sent.iter().skip(1).map(|m| m.dest.as_str()).collect();
    assert_eq!(targets, ["a1", "c3"]);
    assert_eq!(sent[0].dest, "b2");
}

#[test]
fn broadcast_is_not_sent_to_the_node_itself() {
    let mut node = started("n2", &["n1", "n2", "n3"]);
    with_neighbors(&mut node, "n2", &["n2", "n1", "n2", "n3", "n1"]);
    let sent = node
        .handle_message(request("c4", "n2", 1, MessageType::Broadcast { message: 0 }))
        .unwrap();
    let targets: Vec<&str> = sent.iter().skip(1).map(|m| m.dest.as_str()).collect();
    assert_eq!(targets, ["n1", "n3", "n1"]);
}

#[test]
fn broadcast_without_neighbors_is_only_acknowledged() {
    let mut node = started("n1", &["n1", "n2"]);
    let sent = node
        .handle_message(request("c1", "n1", 1, MessageType::Broadcast { message: 3 }))
        .unwrap();
    assert_eq!(sent.len(), 1);
    assert_eq!(seen(&mut node, "n1"), HashSet::from([3]));
}

#[test]
fn topology_sets_and_replaces_the_neighbors() {
    let mut node = started("n1", &["n1", "n2", "n3"]);
    let mut topology = Topology::new();
    topology.insert("n1".to_string(), names(&["n2"]));
    topology.insert("n2".to_string(), names(&["n1", "n3"]));
    let sent = node
        .handle_message(request("c1", "n1", 4, MessageType::Topology { topology }))
        .unwrap();
    assert_eq!(sent.len(), 1);
    assert!(matches!(sent[0].body.payload, MessageType::TopologyOk));
    assert_eq!(sent[0].body.in_reply_to, Some(4));
    let sent = node
        .handle_message(request("c1", "n1", 5, MessageType::Broadcast { message: 1 }))
        .unwrap();
    assert_eq!(sent.len(), 2);
    assert_eq!(sent[1].dest, "n2");
    with_neighbors(&mut node, "n1", &["n3", "n2"]);
    let sent = node
        .handle_message(request("c1", "n1", 6, MessageType::Broadcast { message: 2 }))
        .unwrap();
    let targets: Vec<&str> = sent.iter().skip(1).map(|m| m.dest.as_str()).collect();
    assert_eq!(targets, ["n3", "n2"]);
}

#[test]
fn topology_without_an_entry_for_the_node_keeps_its_neighbors() {
    let mut node = started("n1", &["n1", "n2", "n3"]);
    let mut topology = Topology::new();
    topology.insert("n2".to_string(), names(&["n1"]));
    let sent = node
        .handle_message(request("c1", "n1", 3, MessageType::Topology { topology }))
        .unwrap();
    assert_eq!(sent.len(), 1);
    assert!(matches!(sent[0].body.payload, MessageType::TopologyOk));
    let sent = node
        .handle_message(request("c1", "n1", 4, MessageType::Broadcast { message: 1 }))
        .unwrap();
    assert_eq!(sent.len(), 1);
    with_neighbors(&mut node, "n1", &["n2", "n3"]);
    let mut topology = Topology::new();
    topology.insert("n3".to_string(), names(&["n1"]));
    let sent = node
        .handle_message(request("c1", "n1", 5, MessageType::Topology { topology }))
        .unwrap();
    assert!(matches!(sent[0].body.payload, MessageType::TopologyOk));
    let sent = node
        .handle_message(request("c1", "n1", 6, MessageType::Broadcast { message: 2 }))
        .unwrap();
    let targets: Vec<&str> = sent.iter().skip(1).map(|m| m.dest.as_str()).collect();
    assert_eq!(targets, ["n2", "n3"]);
    let sent = node
        .handle_message(request("c1", "n1", 7, MessageType::Topology { topology: Topology::new() }))
        .unwrap();
    assert!(matches!(sent[0].body.payload, MessageType::TopologyOk));
    let sent = node
        .handle_message(request("c1", "n1", 8, MessageType::Broadcast { message: 3 }))
        .unwrap();
    assert_eq!(sent.len(), 3);
}

#[test]
fn topology_with_an_empty_list_for_the_node_clears_its_neighbors() {
    let mut node = started("n1", &["n1", "n2", "n3"]);
    with_neighbors(&mut node, "n1", &["n2", "n3"]);
    with_neighbors(&mut node, "n1", &[]);
    let sent = node
        .handle_message(request("c1", "n1", 4, MessageType::Broadcast { message: 1 }))
        .unwrap();
    assert_eq!(sent.len(), 1);
}

#[test]
fn message_ids_count_up_without_gaps() {
    let mut node = Node::new();
    let mut topology = Topology::new();
    topology.insert("n1".to_string(), names(&["n2", "n3", "n4"]));
    let inbound = vec![
        request("c1", "n1", 10, MessageType::Init { node_id: "n1".to_string(), node_ids: names(&["n1", "n2", "n3", "n4"]) }),
        request("c1", "n1", 11, MessageType::Topology { topology }),
        request("c1", "n1", 12, MessageType::Echo { echo: "x".to_string() }),
        request("n2", "n1", 13, MessageType::Broadcast { message: 5 }),
        request("n2", "n1", 14, MessageType::BroadcastOk),
        request("c2", "n1", 15, MessageType::Generate),
        request("c2", "n1", 16, MessageType::Broadcast { message: 6 }),
        request("n3", "n1", 17, MessageType::Broadcast { message: 5 }),
        request("c2", "n1", 18, MessageType::Read),
    ];
    let mut ids = Vec::new();
    for message in inbound {
        for sent in node.handle_message(message).unwrap() {
            assert_eq!(sent.src, "n1");
            ids.push(sent.body.msg_id);
        }
    }
    let expected: Vec<usize> = (0..ids.len()).collect();
    assert_eq!(ids, expected);
    assert_eq!(ids.len(), 1 + 1 + 1 + 3 + 0 + 1 + 4 + 1 + 1);
}

#[test]
fn the_reply_is_numbered_before_the_forwardings() {
    let mut node = started("n1", &["n1", "n2", "n3"]);
    with_neighbors(&mut node, "n1", &["n2", "n3"]);
    let sent = node
        .handle_message(request("c1", "n1", 1, MessageType::Broadcast { message: 9 }))
        .unwrap();
    let ids: Vec<usize> = sent.iter().map(|m| m.body.msg_id).collect();
    assert_eq!(ids, [2, 3, 4]);
}

#[test]
fn replies_that_arrive_are_dropped() {
    let mut node = started("n1", &["n1", "n2"]);
    let replies = vec![
        MessageType::InitOk,
        MessageType::EchoOk { echo: "x".to_string() },
        MessageType::GenerateOk { id: 4 },
        MessageType::BroadcastOk,
        MessageType::ReadOk { messages: HashSet::from([1, 2]) },
        MessageType::TopologyOk,
    ];
    for payload in replies {
        let sent = node.handle_message(request("n2", "n1", 3, payload)).unwrap();
        assert!(sent.is_empty());
    }
    let sent = node
        .handle_message(request("c1", "n1", 1, MessageType::Echo { echo: "x".to_string() }))
        .unwrap();
    assert_eq!(sent[0].body.msg_id, 1);
    assert!(seen(&mut node, "n1").is_empty());
}

#[test]
fn replies_are_dropped_before_init_too() {
    let mut node = Node::new();
    let sent = node.handle_message(request("n2", "n1", 3, MessageType::BroadcastOk)).unwrap();
    assert!(sent.is_empty());
}

#[test]
fn requests_before_init_are_refused() {
    let mut topology = Topology::new();
    topology.insert("n1".to_string(), names(&["n2"]));
    let requests = vec![
        MessageType::Echo { echo: "x".to_string() },
        MessageType::Generate,
        MessageType::Broadcast { message: 1 },
        MessageType::Read,
        MessageType::Topology { topology },
    ];
    let mut node = Node::default();
    for payload in requests {
        let refused = node.handle_message(request("c1", "n1", 1, payload));
        assert_eq!(refused.unwrap_err(), NodeError::Uninitialized);
    }
    let init = MessageType::Init { node_id: "n1".to_string(), node_ids: names(&["n1"]) };
    let sent = node.handle_message(request("c1", "n1", 2, init)).unwrap();
    assert_eq!(sent[0].body.msg_id, 0);
    assert!(seen(&mut node, "n1").is_empty());
}

#[test]
fn init_with_a_malformed_identity_is_refused() {
    for id in ["", "n", "nx", "n+", "n-1", "n 3", "n3x", "n3 ", "nn3", "n\u{663}", "n3.0", "n++3", "n99999999999999999999999999"] {
        let mut node = Node::new();
        let init = MessageType::Init { node_id: id.to_string(), node_ids: names(&["n1"]) };
        let refused = node.handle_message(request("c1", "n1", 1, init));
        assert_eq!(refused.unwrap_err(), NodeError::MalformedNodeId, "{:?}", id);
        let refused = node.handle_message(request("c1", "n1", 2, MessageType::Generate));
        assert_eq!(refused.unwrap_err(), NodeError::Uninitialized);
    }
}

#[test]
fn generate_is_refused_when_the_cursor_would_overflow() {
    let id = format!("n{}", usize::MAX - 2);
    let mut node = started(&id, &["a", "b"]);
    let sent = node.handle_message(request("c1", &id, 1, MessageType::Generate)).unwrap();
    assert_eq!(generated(&sent), usize::MAX - 2);
    let refused = node.handle_message(request("c1", &id, 2, MessageType::Generate));
    assert_eq!(refused.unwrap_err(), NodeError::CounterExhausted);
    let sent = node
        .handle_message(request("c1", &id, 3, MessageType::Echo { echo: "x".to_string() }))
        .unwrap();
    assert_eq!(sent[0].body.msg_id, 2);
}

#[test]
fn a_second_init_gives_the_node_a_new_identity() {
    let mut node = started("n1", &["n1", "n2"]);
    let sent = node.handle_message(request("c1", "n1", 1, MessageType::Generate)).unwrap();
    assert_eq!(generated(&sent), 1);
    let init = MessageType::Init { node_id: "n4".to_string(), node_ids: names(&["n4", "n5", "n6"]) };
    let sent = node.handle_message(request("c1", "n4", 2, init)).unwrap();
    assert_eq!(sent[0].src, "n4");
    assert_eq!(sent[0].body.msg_id, 2);
    let sent = node.handle_message(request("c1", "n4", 3, MessageType::Generate)).unwrap();
    assert_eq!(generated(&sent), 4);
    let sent = node.handle_message(request("c1", "n4", 4, MessageType::Generate)).unwrap();
    assert_eq!(generated(&sent), 7);
}
