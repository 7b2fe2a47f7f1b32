use rust_blockchain::block::Block;
use rust_blockchain::p2p::encode_message;
use rust_blockchain::p2p::outbound_message;
use rust_blockchain::p2p::route_message;
use rust_blockchain::p2p::PeerMessage;
use rust_blockchain::p2p::PeerSet;
use rust_blockchain::p2p::TOPIC;
use rust_blockchain::types::EventType;

fn block(id: i64) -> Block {
    Block {
        hash: format!("H{}", id),
        id,
        prev_hash: format!("H{}", id - 1),
        timestamp: 1000 + id,
        nonce: 5,
        data: format!("say \"{}\"", id),
    }
}

fn pair(peer: &str, address: &str) -> (String, String) {
    (peer.to_owned(), address.to_owned())
}

#[test]
fn every_message_travels_on_one_topic() {
    assert_eq!(TOPIC, "blockchain");
}

#[test]
fn outbound_events_become_messages() {
    assert_eq!(
        outbound_message(EventType::SendLatestBlock { receiver: "p".to_owned(), block: block(3) }),
        Some(PeerMessage::ReceivedLatestBlock { receiver: "p".to_owned(), block: block(3) })
    );
    assert_eq!(
        outbound_message(EventType::SendNewBlock(block(4))),
        Some(PeerMessage::ReceivedNewBlock { block: block(4) })
    );
    assert_eq!(
        outbound_message(EventType::SendChainRequest { receiver: "p".to_owned() }),
        Some(PeerMessage::ChainRequest { receiver: "p".to_owned() })
    );
    assert_eq!(
        outbound_message(EventType::SendChain {
            receiver: "p".to_owned(),
            chain: vec![block(0), block(1)]
        }),
        Some(PeerMessage::ReceivedChain { receiver: "p".to_owned(), chain: vec![block(0), block(1)] })
    );
}

#[test]
fn other_events_are_not_sent() {
    assert_eq!(outbound_message(EventType::InitDone), None);
    assert_eq!(outbound_message(EventType::ListPeers), None);
    assert_eq!(outbound_message(EventType::ReceivedNewBlock(block(1))), None);
    assert_eq!(
        outbound_message(EventType::SendLatestBlockRequest { receiver: "p".to_owned() }),
        None
    );
    assert_eq!(outbound_message(EventType::ReceivedChain { chain: vec![] }), None);
}

#[test]
fn a_request_for_the_latest_block_is_routed_to_its_receiver() {
    let message = || PeerMessage::LatestBlockRequest { receiver: "me".to_owned(), random: true };
    assert_eq!(
        route_message(message(), "me", Some("peer".to_owned()), "relay"),
        Some(EventType::SendLatestBlockRequest { receiver: "peer".to_owned() })
    );
    assert_eq!(route_message(message(), "you", Some("peer".to_owned()), "relay"), None);
    assert_eq!(route_message(message(), "me", None, "relay"), None);
}

#[test]
fn a_latest_block_is_routed_with_its_sender() {
    let message =
        || PeerMessage::ReceivedLatestBlock { receiver: "me".to_owned(), block: block(3) };
    assert_eq!(
        route_message(message(), "me", Some("peer".to_owned()), "relay"),
        Some(EventType::ReceivedLatestBlock { sender: "peer".to_owned(), block: block(3) })
    );
    assert_eq!(route_message(message(), "ME", Some("peer".to_owned()), "relay"), None);
    assert_eq!(route_message(message(), "me", None, "relay"), None);
}

#[test]
fn a_chain_request_is_routed_with_its_sender() {
    let message = || PeerMessage::ChainRequest { receiver: "me".to_owned() };
    assert_eq!(
        route_message(message(), "me", Some("peer".to_owned()), "relay"),
        Some(EventType::ReceivedChainRequest { receiver: "peer".to_owned() })
    );
    assert_eq!(route_message(message(), "m", Some("peer".to_owned()), "relay"), None);
    assert_eq!(route_message(message(), "me", None, "relay"), None);
}

#[test]
fn a_chain_is_routed_even_without_a_source() {
    let message =
        || PeerMessage::ReceivedChain { receiver: "me".to_owned(), chain: vec![block(0)] };
    assert_eq!(
        route_message(message(), "me", None, "relay"),
        Some(EventType::ReceivedChain { chain: vec![block(0)] })
    );
    assert_eq!(route_message(message(), "you", Some("peer".to_owned()), "relay"), None);
}

#[test]
fn a_new_block_is_taken_from_anyone_but_this_node() {
    let message = || PeerMessage::ReceivedNewBlock { block: block(2) };
    assert_eq!(
        route_message(message(), "me", None, "relay"),
        Some(EventType::ReceivedNewBlock(block(2)))
    );
    assert_eq!(route_message(message(), "me", Some("me".to_owned()), "me"), None);
}

#[test]
fn messages_are_written_as_strict_objects() {
    assert_eq!(
        encode_message(&PeerMessage::LatestBlockRequest { receiver: "peer".to_owned(), random: true }),
        "{\"receiver\":\"peer\",\"random\":true}"
    );
    assert_eq!(
        encode_message(&PeerMessage::LatestBlockRequest { receiver: "peer".to_owned(), random: false }),
        "{\"receiver\":\"peer\",\"random\":false}"
    );
    assert_eq!(
        encode_message(&PeerMessage::ChainRequest { receiver: "pe\\er".to_owned() }),
        "{\"receiver\":\"pe\\\\er\"}"
    );
    let block_text = "{\"hash\":\"H1\",\"id\":1,\"prev_hash\":\"H0\",\"timestamp\":1001,\"nonce\":5,\"data\":\"say \\\"1\\\"\"}";
    assert_eq!(
        encode_message(&PeerMessage::ReceivedNewBlock { block: block(1) }),
        format!("{{\"block\":{}}}", block_text)
    );
    assert_eq!(
        encode_message(&PeerMessage::ReceivedLatestBlock { receiver: "p".to_owned(), block: block(1) }),
        format!("{{\"receiver\":\"p\",\"block\":{}}}", block_text)
    );
}

#[test]
fn a_chain_is_written_as_an_array_of_blocks() {
    assert_eq!(
        encode_message(&PeerMessage::ReceivedChain { receiver: "p".to_owned(), chain: vec![] }),
        "{\"receiver\":\"p\",\"chain\":[]}"
    );
    let text = encode_message(&PeerMessage::ReceivedChain {
        receiver: "p".to_owned(),
        chain: vec![block(1), block(2)],
    });
    assert_eq!(
        text,
        "{\"receiver\":\"p\",\"chain\":[{\"hash\":\"H1\",\"id\":1,\"prev_hash\":\"H0\",\"timestamp\":1001,\"nonce\":5,\"data\":\"say \\\"1\\\"\"},{\"hash\":\"H2\",\"id\":2,\"prev_hash\":\"H1\",\"timestamp\":1002,\"nonce\":5,\"data\":\"say \\\"2\\\"\"}]}"
    );
    let parsed: serde_json::Value = serde_json::from_str(&text).unwrap();
    assert_eq!(parsed["chain"][1]["data"], "say \"2\"");
    assert_eq!(parsed["chain"][0]["id"], 1);
}

#[test]
fn the_first_subscriber_is_asked_for_its_latest_block() {
    let mut peers = PeerSet::new();
    assert_eq!(peers.len(), 0);
    assert_eq!(
        peers.subscribed("a".to_owned()),
        Some(PeerMessage::LatestBlockRequest { receiver: "a".to_owned(), random: true })
    );
    assert_eq!(peers.subscribed("b".to_owned()), None);
    assert_eq!(peers.subscribed("a".to_owned()), None);
    assert_eq!(peers.len(), 2);
    assert!(peers.contains("a"));
    assert!(peers.contains("b"));
    assert!(!peers.contains("c"));
}

#[test]
fn after_the_last_peer_left_the_next_is_asked_again() {
    let mut peers = PeerSet::new();
    assert!(peers.subscribed("a".to_owned()).is_some());
    assert!(peers.remove("a"));
    assert!(!peers.remove("a"));
    assert!(!peers.contains("a"));
    assert_eq!(
        peers.subscribed("b".to_owned()),
        Some(PeerMessage::LatestBlockRequest { receiver: "b".to_owned(), random: true })
    );
}

#[test]
fn removing_a_peer_keeps_the_others() {
    let mut peers = PeerSet::new();
    peers.subscribed("a".to_owned());
    peers.subscribed("b".to_owned());
    peers.subscribed("c".to_owned());
    assert!(peers.remove("b"));
    assert_eq!(peers.len(), 2);
    assert!(peers.contains("a"));
    assert!(!peers.contains("b"));
    assert!(peers.contains("c"));
}

#[test]
fn discovered_peers_are_dialed_once_unless_known() {
    let mut peers = PeerSet::new();
    peers.subscribed("known".to_owned());
    let found = vec![
        pair("a", "addr1"),
        pair("known", "addr2"),
        pair("b", "addr3"),
        pair("a", "addr4"),
        pair("b", "addr5"),
    ];
    assert_eq!(peers.dial_targets(&found), vec![pair("a", "addr1"), pair("b", "addr3")]);
    assert_eq!(peers.dial_targets(&Vec::new()), Vec::new());
}
