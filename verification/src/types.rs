//! The events that pass between the node controller and the transport.

use vstd::prelude::*;
use crate::block::Block;

verus! {

/// An event on one of the two channels between the controller and the
/// transport.
#[derive(Debug, PartialEq)]
pub enum EventType {
    /// The transport is ready.
    InitDone,
    /// The operator asks for the peers.
    ListPeers,
    /// The peer `receiver` has asked for the latest block.
    SendLatestBlockRequest { receiver: String },
    /// Send the latest block to `receiver`.
    SendLatestBlock { receiver: String, block: Block },
    /// The peer `sender` has sent its latest block.
    ReceivedLatestBlock { sender: String, block: Block },
    /// Broadcast a block that was mined here.
    SendNewBlock(Block),
    /// A peer has broadcast a new block.
    ReceivedNewBlock(Block),
    /// Send the whole chain to `receiver`.
    SendChain { receiver: String, chain: Vec<Block> },
    /// Ask `receiver` for its whole chain.
    SendChainRequest { receiver: String },
    /// The peer `receiver` has asked for the whole chain.
    ReceivedChainRequest { receiver: String },
    /// A peer has sent its whole chain.
    ReceivedChain { chain: Vec<Block> },
}

} // verus!
