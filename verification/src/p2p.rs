//! The peer protocol: the five messages that travel on the gossip topic,
//! what a node does with one that arrives, what it sends for an outbound
//! event, and which peers it knows and dials.

use vstd::prelude::*;
use vstd::string::*;
use crate::block::Block;
use crate::block::BlockView;
use crate::digest::decimal_text;
use crate::digest::json_integer;
use crate::digest::json_string;
use crate::digest::json_string_text;
use crate::store::views;
use crate::text::str_eq;
use crate::types::EventType;

verus! {

/// The gossip topic on which every message travels.
pub const TOPIC: &'static str = "blockchain";

/// A message of the peer protocol.
#[derive(Debug, PartialEq)]
pub enum PeerMessage {
    /// Peer `receiver`, send me your latest block.
    LatestBlockRequest { receiver: String, random: bool },
    /// For `receiver`: the sender's latest block.
    ReceivedLatestBlock { receiver: String, block: Block },
    /// Peer `receiver`, send me your chain.
    ChainRequest { receiver: String },
    /// For `receiver`: the sender's chain.
    ReceivedChain { receiver: String, chain: Vec<Block> },
    /// For everyone: a block that the sender has mined.
    ReceivedNewBlock { block: Block },
}

/// The message that the transport publishes for an outbound event, if the
/// event is one that is sent to peers.
pub open spec fn message_for(event: EventType) -> Option<PeerMessage> {
    match event {
        EventType::SendLatestBlock { receiver, block } => Some(
            PeerMessage::ReceivedLatestBlock { receiver, block },
        ),
        EventType::SendNewBlock(block) => Some(PeerMessage::ReceivedNewBlock { block }),
        EventType::SendChainRequest { receiver } => Some(PeerMessage::ChainRequest { receiver }),
        EventType::SendChain { receiver, chain } => Some(
            PeerMessage::ReceivedChain { receiver, chain },
        ),
        _ => None,
    }
}

/// The message that the transport publishes for an outbound event, if the
/// event is one that is sent to peers.
pub fn outbound_message(event: EventType) -> (message: Option<PeerMessage>)
    ensures
        message == message_for(event),
{
    match event {
        EventType::SendLatestBlock { receiver, block } => Some(
            PeerMessage::ReceivedLatestBlock { receiver, block },
        ),
        EventType::SendNewBlock(block) => Some(PeerMessage::ReceivedNewBlock { block }),
        EventType::SendChainRequest { receiver } => Some(PeerMessage::ChainRequest { receiver }),
        EventType::SendChain { receiver, chain } => Some(
            PeerMessage::ReceivedChain { receiver, chain },
        ),
        _ => None,
    }
}

/// The event that a node with the id `local_peer` hands to its controller
/// for a message that arrived, if any.
///
/// A message for a receiver counts only when the receiver is this node. The
/// three that are answered need the id of the peer that wrote the message,
/// `source`. A new block counts unless the peer that passed it on,
/// `propagation_source`, is this node itself.
pub open spec fn event_for(
    message: PeerMessage,
    local_peer: Seq<char>,
    source: Option<String>,
    propagation_source: Seq<char>,
) -> Option<EventType> {
    match message {
        PeerMessage::ReceivedLatestBlock { receiver, block } => match source {
            Some(sender) if receiver@ == local_peer => Some(
                EventType::ReceivedLatestBlock { sender, block },
            ),
            _ => None,
        },
        PeerMessage::LatestBlockRequest { receiver, random } => match source {
            Some(sender) if receiver@ == local_peer => Some(
                EventType::SendLatestBlockRequest { receiver: sender },
            ),
            _ => None,
        },
        PeerMessage::ChainRequest { receiver } => match source {
            Some(sender) if receiver@ == local_peer => Some(
                EventType::ReceivedChainRequest { receiver: sender },
            ),
            _ => None,
        },
        PeerMessage::ReceivedChain { receiver, chain } => if receiver@ == local_peer {
            Some(EventType::ReceivedChain { chain })
        } else {
            None
        },
        PeerMessage::ReceivedNewBlock { block } => if propagation_source != local_peer {
            Some(EventType::ReceivedNewBlock(block))
        } else {
            None
        },
    }
}

/// Decides what a message that arrived means for the controller; `None`
/// when the message is ignored.
pub fn route_message(
    message: PeerMessage,
    local_peer: &str,
    source: Option<String>,
    propagation_source: &str,
) -> (event: Option<EventType>)
    ensures
        event == event_for(message, local_peer@, source, propagation_source@),
{
    match message {
        PeerMessage::ReceivedLatestBlock { receiver, block } => {
            if !str_eq(receiver.as_str(), local_peer) {
                return None;
            }
            match source {
                Some(sender) => Some(EventType::ReceivedLatestBlock { sender, block }),
                None => None,
            }
        },
        PeerMessage::LatestBlockRequest { receiver, random } => {
            if !str_eq(receiver.as_str(), local_peer) {
                return None;
            }
            match source {
                Some(sender) => Some(EventType::SendLatestBlockRequest { receiver: sender }),
                None => None,
            }
        },
        PeerMessage::ChainRequest { receiver } => {
            if !str_eq(receiver.as_str(), local_peer) {
                return None;
            }
            match source {
                Some(sender) => Some(EventType::ReceivedChainRequest { receiver: sender }),
                None => None,
            }
        },
        PeerMessage::ReceivedChain { receiver, chain } => {
            if str_eq(receiver.as_str(), local_peer) {
                Some(EventType::ReceivedChain { chain })
            } else {
                None
            }
        },
        PeerMessage::ReceivedNewBlock { block } => {
            if !str_eq(propagation_source, local_peer) {
                Some(EventType::ReceivedNewBlock(block))
            } else {
                None
            }
        },
    }
}

/// The JSON text of a block: an object with the fields `hash`, `id`,
/// `prev_hash`, `timestamp`, `nonce`, `data`, in this order.
pub open spec fn block_text(block: BlockView) -> Seq<char> {
    "{\"hash\":"@ + json_string_text(block.hash) + ",\"id\":"@ + decimal_text(block.id)
        + ",\"prev_hash\":"@ + json_string_text(block.prev_hash) + ",\"timestamp\":"@
        + decimal_text(block.timestamp) + ",\"nonce\":"@ + decimal_text(block.nonce)
        + ",\"data\":"@ + json_string_text(block.data) + "}"@
}

/// The JSON texts of the blocks, with a comma between two of them.
pub open spec fn blocks_text(blocks: Seq<BlockView>) -> Seq<char>
    decreases blocks.len(),
{
    if blocks.len() == 0 {
        Seq::empty()
    } else if blocks.len() == 1 {
        block_text(blocks[0])
    } else {
        blocks_text(blocks.drop_last()) + ","@ + block_text(blocks.last())
    }
}

/// The text of a message on the wire: a JSON object with exactly the fields
/// of its shape.
pub open spec fn message_text(message: PeerMessage) -> Seq<char> {
    match message {
        PeerMessage::LatestBlockRequest { receiver, random } => "{\"receiver\":"@
            + json_string_text(receiver@) + ",\"random\":"@ + (if random {
            "true"@
        } else {
            "false"@
        }) + "}"@,
        PeerMessage::ReceivedLatestBlock { receiver, block } => "{\"receiver\":"@
            + json_string_text(receiver@) + ",\"block\":"@ + block_text(block@) + "}"@,
        PeerMessage::ChainRequest { receiver } => "{\"receiver\":"@ + json_string_text(receiver@)
            + "}"@,
        PeerMessage::ReceivedChain { receiver, chain } => "{\"receiver\":"@ + json_string_text(
            receiver@,
        ) + ",\"chain\":["@ + blocks_text(views(chain@)) + "]}"@,
        PeerMessage::ReceivedNewBlock { block } => "{\"block\":"@ + block_text(block@) + "}"@,
    }
}

fn append_block(text: &mut String, block: &Block)
    ensures
        final(text)@ == old(text)@ + block_text(block@),
{
    text.append("{\"hash\":");
    text.append(json_string(block.hash.as_str()).as_str());
    text.append(",\"id\":");
    text.append(json_integer(block.id).as_str());
    text.append(",\"prev_hash\":");
    text.append(json_string(block.prev_hash.as_str()).as_str());
    text.append(",\"timestamp\":");
    text.append(json_integer(block.timestamp).as_str());
    text.append(",\"nonce\":");
    text.append(json_integer(block.nonce).as_str());
    text.append(",\"data\":");
    text.append(json_string(block.data.as_str()).as_str());
    text.append("}");
    proof {
        assert(text@ =~= old(text)@ + block_text(block@));
    }
}

fn append_blocks(text: &mut String, blocks: &Vec<Block>)
    ensures
        final(text)@ == old(text)@ + blocks_text(views(blocks@)),
{
    let mut i: usize = 0;
    proof {
        assert(views(blocks@).take(0) =~= Seq::<BlockView>::empty());
        assert(text@ =~= old(text)@ + blocks_text(views(blocks@).take(0)));
    }
    while i < blocks.len()
        invariant
            i <= blocks.len(),
            text@ == old(text)@ + blocks_text(views(blocks@).take(i as int)),
        decreases blocks.len() - i,
    {
        let ghost before = text@;
        if i > 0 {
            text.append(",");
        }
        append_block(text, &blocks[i]);
        proof {
            let done = views(blocks@).take(i as int);
            let next = views(blocks@).take(i as int + 1);
            assert(next.drop_last() =~= done);
            assert(next.last() == blocks@[i as int]@);
            if i == 0 {
                assert(next[0] == blocks@[0]@);
                assert(text@ =~= old(text)@ + blocks_text(next));
            } else {
                assert(text@ =~= old(text)@ + (blocks_text(done) + ","@ + block_text(
                    next.last(),
                )));
            }
        }
        i += 1;
    }
    proof {
        assert(views(blocks@).take(blocks.len() as int) =~= views(blocks@));
    }
}

/// Writes a message as it travels on the wire.
pub fn encode_message(message: &PeerMessage) -> (text: String)
    ensures
        text@ == message_text(*message),
{
    let mut text = String::from_str("{");
    match message {
        PeerMessage::LatestBlockRequest { receiver, random } => {
            text.append("\"receiver\":");
            text.append(json_string(receiver.as_str()).as_str());
            text.append(",\"random\":");
            if *random {
                text.append("true");
            } else {
                text.append("false");
            }
            text.append("}");
            proof {
                reveal_strlit("{");
                reveal_strlit("\"receiver\":");
                reveal_strlit("{\"receiver\":");
                assert(text@ =~= message_text(*message));
            }
        },
        PeerMessage::ReceivedLatestBlock { receiver, block } => {
            text.append("\"receiver\":");
            text.append(json_string(receiver.as_str()).as_str());
            text.append(",\"block\":");
            append_block(&mut text, block);
            text.append("}");
            proof {
                reveal_strlit("{");
                reveal_strlit("\"receiver\":");
                reveal_strlit("{\"receiver\":");
                assert(text@ =~= message_text(*message));
            }
        },
        PeerMessage::ChainRequest { receiver } => {
            text.append("\"receiver\":");
            text.append(json_string(receiver.as_str()).as_str());
            text.append("}");
            proof {
                reveal_strlit("{");
                reveal_strlit("\"receiver\":");
                reveal_strlit("{\"receiver\":");
                assert(text@ =~= message_text(*message));
            }
        },
        PeerMessage::ReceivedChain { receiver, chain } => {
            text.append("\"receiver\":");
            text.append(json_string(receiver.as_str()).as_str());
            text.append(",\"chain\":[");
            append_blocks(&mut text, chain);
            text.append("]}");
            proof {
                reveal_strlit("{");
                reveal_strlit("\"receiver\":");
                reveal_strlit("{\"receiver\":");
                assert(text@ =~= message_text(*message));
            }
        },
        PeerMessage::ReceivedNewBlock { block } => {
            text.append("\"block\":");
            append_block(&mut text, block);
            text.append("}");
            proof {
                reveal_strlit("{");
                reveal_strlit("\"block\":");
                reveal_strlit("{\"block\":");
                assert(text@ =~= message_text(*message));
            }
        },
    }
    text
}

/// The peers that are subscribed to the topic, each once, in the order in
/// which they came.
pub struct PeerSet {
    peers: Vec<String>,
}

/// The ids of a list of peers as plain values.
pub open spec fn peer_ids(peers: Seq<String>) -> Seq<Seq<char>> {
    Seq::new(peers.len(), |i: int| peers[i]@)
}

/// The peers and addresses of a list as plain values.
pub open spec fn addresses(found: Seq<(String, String)>) -> Seq<(Seq<char>, Seq<char>)> {
    Seq::new(found.len(), |i: int| (found[i].0@, found[i].1@))
}

/// Whether the list holds an address for `peer`.
pub open spec fn names(found: Seq<(Seq<char>, Seq<char>)>, peer: Seq<char>) -> bool {
    exists|j: int| 0 <= j < found.len() && (#[trigger] found[j]).0 == peer
}

/// The peers to dial among those discovered: each peer once, with the first
/// address found for it, and none that is known already.
pub open spec fn dial_list(known: Seq<Seq<char>>, found: Seq<(Seq<char>, Seq<char>)>) -> Seq<
    (Seq<char>, Seq<char>),
>
    decreases found.len(),
{
    if found.len() == 0 {
        Seq::empty()
    } else {
        let earlier = found.drop_last();
        let last = found.last();
        if known.contains(last.0) || names(earlier, last.0) {
            dial_list(known, earlier)
        } else {
            dial_list(known, earlier).push(last)
        }
    }
}

impl View for PeerSet {
    type V = Seq<Seq<char>>;

    closed spec fn view(&self) -> Seq<Seq<char>> {
        peer_ids(self.peers@)
    }
}

fn position_of(peers: &Vec<String>, peer: &str) -> (at: Option<usize>)
    ensures
        match at {
            Some(i) => i < peers.len() && peers@[i as int]@ == peer@,
            None => !peer_ids(peers@).contains(peer@),
        },
{
    let mut i: usize = 0;
    while i < peers.len()
        invariant
            i <= peers.len(),
            forall|k: int| 0 <= k < i ==> peer_ids(peers@)[k] != peer@,
        decreases peers.len() - i,
    {
        if str_eq(peers[i].as_str(), peer) {
            return Some(i);
        }
        i += 1;
    }
    None
}

/// Whether the peer at `i` stands earlier in the list too.
fn found_earlier(found: &Vec<(String, String)>, i: usize) -> (earlier: bool)
    requires
        i < found.len(),
    ensures
        earlier == names(addresses(found@).take(i as int), found@[i as int].0@),
{
    let ghost before = addresses(found@).take(i as int);
    let mut j: usize = 0;
    while j < i
        invariant
            j <= i,
            i < found.len(),
            before == addresses(found@).take(i as int),
            forall|k: int| 0 <= k < j ==> (#[trigger] before[k]).0 != found@[i as int].0@,
        decreases i - j,
    {
        proof {
            assert(before[j as int].0 == found@[j as int].0@);
        }
        if str_eq(found[j].0.as_str(), found[i].0.as_str()) {
            return true;
        }
        j += 1;
    }
    false
}

impl PeerSet {
    /// Whether no peer stands twice.
    pub open spec fn wf(&self) -> bool {
        self@.no_duplicates()
    }

    /// No peers.
    pub fn new() -> (set: PeerSet)
        ensures
            set.wf(),
            set@ == Seq::<Seq<char>>::empty(),
    {
        let peers: Vec<String> = Vec::new();
        proof {
            assert(peer_ids(peers@) =~= Seq::<Seq<char>>::empty());
        }
        PeerSet { peers }
    }

    /// The number of peers.
    pub fn len(&self) -> (n: usize)
        ensures
            n == self@.len(),
    {
        self.peers.len()
    }

    /// Whether `peer` is subscribed.
    pub fn contains(&self, peer: &str) -> (known: bool)
        ensures
            known == self@.contains(peer@),
    {
        match position_of(&self.peers, peer) {
            Some(i) => {
                assert(self@[i as int] == peer@);
                true
            },
            None => false,
        }
    }

    /// Takes note that `peer` has subscribed, and says what to send: the
    /// first peer to subscribe while none is known is asked for its latest
    /// block.
    pub fn subscribed(&mut self, peer: String) -> (request: Option<PeerMessage>)
        requires
            old(self).wf(),
        ensures
            final(self).wf(),
            final(self)@ == if old(self)@.contains(peer@) {
                old(self)@
            } else {
                old(self)@.push(peer@)
            },
            request == if old(self)@.len() == 0 {
                Some(PeerMessage::LatestBlockRequest { receiver: peer, random: true })
            } else {
                None
            },
    {
        let first = self.peers.len() == 0;
        match position_of(&self.peers, peer.as_str()) {
            Some(i) => {
                assert(self@[i as int] == peer@);
            },
            None => {
                proof {
                    assert(peer_ids(self.peers@.push(peer)) =~= peer_ids(self.peers@).push(peer@));
                }
                self.peers.push(peer.clone());
            },
        }
        if first {
            Some(PeerMessage::LatestBlockRequest { receiver: peer, random: true })
        } else {
            None
        }
    }

    /// Takes note that `peer` is gone: it has unsubscribed, does not speak
    /// the protocol, or its connection is closed.
    pub fn remove(&mut self, peer: &str) -> (removed: bool)
        requires
            old(self).wf(),
        ensures
            final(self).wf(),
            removed == old(self)@.contains(peer@),
            !final(self)@.contains(peer@),
            forall|other: Seq<char>|
                other != peer@ ==> final(self)@.contains(other) == old(self)@.contains(other),
            final(self)@ == if old(self)@.contains(peer@) {
                old(self)@.remove(old(self)@.index_of(peer@))
            } else {
                old(self)@
            },
    {
        match position_of(&self.peers, peer) {
            Some(i) => {
                let ghost before = self@;
                proof {
                    assert(before[i as int] == peer@);
                    assert(peer_ids(self.peers@.remove(i as int)) =~= before.remove(i as int));
                    let at = before.index_of(peer@);
                    assert(before[at] == before[i as int]);
                    assert(at == i);
                }
                self.peers.remove(i);
                proof {
                    assert forall|other: Seq<char>| other != peer@ implies self@.contains(other)
                        == before.contains(other) by {
                        if before.contains(other) {
                            let k = choose|k: int| 0 <= k < before.len() && before[k] == other;
                            if k < i {
                                assert(self@[k] == other);
                            } else {
                                assert(self@[k - 1] == other);
                            }
                        }
                        if self@.contains(other) {
                            let k = choose|k: int| 0 <= k < self@.len() && self@[k] == other;
                            if k < i {
                                assert(before[k] == other);
                            } else {
                                assert(before[k + 1] == other);
                            }
                        }
                    }
                    assert(!self@.contains(peer@)) by {
                        if self@.contains(peer@) {
                            let k = choose|k: int| 0 <= k < self@.len() && self@[k] == peer@;
                            if k < i {
                                assert(before[k] == before[i as int]);
                            } else {
                                assert(before[k + 1] == before[i as int]);
                            }
                        }
                    }
                    assert forall|a: int, b: int|
                        0 <= a < self@.len() && 0 <= b < self@.len() && a != b implies self@[a]
                        != self@[b] by {
                        let oa = if a < i {
                            a
                        } else {
                            a + 1
                        };
                        let ob = if b < i {
                            b
                        } else {
                            b + 1
                        };
                        assert(self@[a] == before[oa]);
                        assert(self@[b] == before[ob]);
                    }
                }
                true
            },
            None => false,
        }
    }

    /// The peers to dial among those that discovery found.
    pub fn dial_targets(&self, found: &Vec<(String, String)>) -> (targets: Vec<(String, String)>)
        ensures
            addresses(targets@) == dial_list(self@, addresses(found@)),
    {
        let mut targets: Vec<(String, String)> = Vec::new();
        let mut i: usize = 0;
        proof {
            assert(addresses(found@).take(0) =~= Seq::<(Seq<char>, Seq<char>)>::empty());
            assert(addresses(targets@) =~= Seq::<(Seq<char>, Seq<char>)>::empty());
        }
        while i < found.len()
            invariant
                i <= found.len(),
                addresses(targets@) == dial_list(self@, addresses(found@).take(i as int)),
            decreases found.len() - i,
        {
            let ghost upto = addresses(found@).take(i as int + 1);
            proof {
                assert(upto.drop_last() =~= addresses(found@).take(i as int));
                assert(upto.last() == (found@[i as int].0@, found@[i as int].1@));
            }
            let seen = self.contains(found[i].0.as_str()) || found_earlier(found, i);
            if !seen {
                let target = (found[i].0.clone(), found[i].1.clone());
                proof {
                    assert(addresses(targets@.push(target)) =~= addresses(targets@).push(
                        upto.last(),
                    ));
                }
                targets.push(target);
            }
            i += 1;
        }
        proof {
            assert(addresses(found@).take(found.len() as int) =~= addresses(found@));
        }
        targets
    }
}

} // verus!
