//! The node controller: the operator's commands, and what the node does on
//! a command and on an event from the transport.

use vstd::prelude::*;
use vstd::string::*;
use crate::block::Block;
use crate::block::genesis_view;
use crate::block::mining_outcome;
use crate::block::BlockView;
use crate::validation::check_block;
use crate::validation::check_adoption;
use crate::validation::check_chain;
use crate::validation::tracks_sound_chain;
use crate::blockchain::Chain;
use crate::error::BlockchainError;
use crate::error::ErrorView;
use crate::store::find_by_hash;
use crate::store::insert_by_id;
use crate::store::insert_conflict;
use crate::store::sort_by_id;
use crate::store::views;
use crate::store::ChainStore;
use crate::validation::check_addition;
use crate::text::rest_after;
use crate::text::starts_with;
use crate::types::EventType;

verus! {

/// A command of the operator.
#[derive(Debug, PartialEq)]
pub enum Command {
    /// `ls p`: show the peers.
    ListPeers,
    /// `chain validate`: check the whole chain.
    ValidateChain,
    /// `block mine <data>`: mine and broadcast a block with this payload.
    Mine(String),
    /// `block get <hash>`: show the stored block with this hash.
    Get(String),
    /// `block latest`: show the latest block.
    Latest,
    /// `block validate <hash>`: check the stored block with this hash.
    ValidateBlock(String),
    /// `send message <text>`: broadcast a text as it is.
    SendMessage(String),
    /// `exit`: end the node.
    Exit,
    /// Anything else.
    Unknown,
}

/// A command as plain values.
pub enum CommandView {
    ListPeers,
    ValidateChain,
    Mine(Seq<char>),
    Get(Seq<char>),
    Latest,
    ValidateBlock(Seq<char>),
    SendMessage(Seq<char>),
    Exit,
    Unknown,
}

impl View for Command {
    type V = CommandView;

    open spec fn view(&self) -> CommandView {
        match self {
            Command::ListPeers => CommandView::ListPeers,
            Command::ValidateChain => CommandView::ValidateChain,
            Command::Mine(data) => CommandView::Mine(data@),
            Command::Get(hash) => CommandView::Get(hash@),
            Command::Latest => CommandView::Latest,
            Command::ValidateBlock(hash) => CommandView::ValidateBlock(hash@),
            Command::SendMessage(text) => CommandView::SendMessage(text@),
            Command::Exit => CommandView::Exit,
            Command::Unknown => CommandView::Unknown,
        }
    }
}

/// What follows the first `n` characters of a line.
pub open spec fn after(line: Seq<char>, n: nat) -> Seq<char> {
    line.subrange(n as int, line.len() as int)
}

/// The command that a line stands for: the first of the prefixes, in this
/// order, with which the line starts decides; the prefixes are
/// case-sensitive, and an argument is all that follows its prefix.
pub open spec fn command_of(line: Seq<char>) -> CommandView {
    if "ls p"@.is_prefix_of(line) {
        CommandView::ListPeers
    } else if "chain validate"@.is_prefix_of(line) {
        CommandView::ValidateChain
    } else if "block mine "@.is_prefix_of(line) {
        CommandView::Mine(after(line, "block mine "@.len()))
    } else if "block get "@.is_prefix_of(line) {
        CommandView::Get(after(line, "block get "@.len()))
    } else if "block latest"@.is_prefix_of(line) {
        CommandView::Latest
    } else if "block validate "@.is_prefix_of(line) {
        CommandView::ValidateBlock(after(line, "block validate "@.len()))
    } else if "send message "@.is_prefix_of(line) {
        CommandView::SendMessage(after(line, "send message "@.len()))
    } else if "exit"@.is_prefix_of(line) {
        CommandView::Exit
    } else {
        CommandView::Unknown
    }
}

/// Reads a line of the operator as a command.
pub fn parse_command(line: &str) -> (command: Command)
    ensures
        command@ == command_of(line@),
{
    if starts_with(line, "ls p") {
        Command::ListPeers
    } else if starts_with(line, "chain validate") {
        Command::ValidateChain
    } else if starts_with(line, "block mine ") {
        Command::Mine(rest_after(line, "block mine "))
    } else if starts_with(line, "block get ") {
        Command::Get(rest_after(line, "block get "))
    } else if starts_with(line, "block latest") {
        Command::Latest
    } else if starts_with(line, "block validate ") {
        Command::ValidateBlock(rest_after(line, "block validate "))
    } else if starts_with(line, "send message ") {
        Command::SendMessage(rest_after(line, "send message "))
    } else if starts_with(line, "exit") {
        Command::Exit
    } else {
        Command::Unknown
    }
}

/// What the node answers to a command.
#[derive(Debug)]
pub enum Reply {
    /// The transport is to show the peers.
    Peers,
    /// The chain is valid.
    ChainValid,
    /// The command failed, with this error.
    Failed(BlockchainError),
    /// This block was mined and stored; it is to be broadcast.
    Mined(Block),
    /// This is the block that was asked for.
    Found(Block),
    /// The block that was asked about is valid; this is its id.
    ValidBlock(i64),
    /// This text is to be broadcast as it is.
    Say(String),
    /// The node is to end.
    Exit,
}

/// The node: the chain handle and the store, of which the controller is
/// the only writer.
pub struct Node {
    pub chain: Chain,
    pub store: ChainStore,
}

impl Node {
    /// Whether the store obeys the rules of its table.
    pub open spec fn wf(&self) -> bool {
        self.store.wf()
    }

    /// Whether the store holds a sound chain, with the handle on its last
    /// block.
    pub open spec fn sound(&self) -> bool {
        tracks_sound_chain(self.chain.latest_block@, self.store@)
    }

    /// Whether the node stands as `before` stood.
    pub open spec fn same_as(&self, before: Node) -> bool {
        self.store@ == before.store@ && self.chain.latest_block@ == before.chain.latest_block@
    }

    /// Starts the node on a store: opens its chain, or begins one with the
    /// genesis block.
    pub fn start(store: ChainStore) -> (started: Result<Node, BlockchainError>)
        requires
            store.wf(),
        ensures
            started matches Ok(node) && node.wf() && if store@.len() == 0 {
                node.store@ == seq![genesis_view()] && node.chain.latest_block@ == genesis_view()
                    && node.sound()
            } else {
                node.store@ == store@ && node.chain.latest_block@ == store@.last()
            },
    {
        let mut store = store;
        proof {
            crate::validation::lemma_genesis_is_mined_chain();
            crate::validation::lemma_mined_chain_is_sound(seq![genesis_view()]);
        }
        match Chain::init(&mut store) {
            Ok(chain) => Ok(Node { chain, store }),
            Err(e) => Err(e),
        }
    }

    /// Handles one event from the transport, and returns the event to send
    /// back, if there is one.
    ///
    /// A request for the latest block is answered with it; a latest block
    /// with a greater id than our own, with a request for the sender's chain;
    /// a request for the chain, with the stored blocks. A received chain is
    /// adopted in place of the stored one if it is longer and valid, and a
    /// new block is added if it is valid and the store takes it. Every other
    /// event is ignored. A node that holds a sound chain holds one after
    /// every event.
    pub fn handle_event(&mut self, event: EventType) -> (reply: Option<EventType>)
        requires
            old(self).wf(),
        ensures
            final(self).wf(),
            match event {
                EventType::SendLatestBlockRequest { receiver } => {
                    &&& reply == Some(
                        EventType::SendLatestBlock {
                            receiver,
                            block: old(self).chain.latest_block,
                        },
                    )
                    &&& final(self).same_as(*old(self))
                },
                EventType::ReceivedLatestBlock { sender, block } => {
                    &&& reply == if old(self).chain.latest_block.id < block.id {
                        Some(EventType::SendChainRequest { receiver: sender })
                    } else {
                        None
                    }
                    &&& final(self).same_as(*old(self))
                },
                EventType::ReceivedChainRequest { receiver } => {
                    &&& reply matches Some(EventType::SendChain { receiver: to, chain })
                    &&& to == receiver
                    &&& views(chain@) == old(self).store@
                    &&& final(self).same_as(*old(self))
                },
                EventType::ReceivedChain { chain } => {
                    &&& reply is None
                    &&& match check_adoption(old(self).chain.latest_block@, views(chain@)) {
                        Ok(_) => {
                            &&& final(self).store@ == sort_by_id(views(chain@))
                            &&& final(self).chain.latest_block@ == final(self).store@.last()
                            &&& final(self).sound()
                        },
                        Err(_) => final(self).same_as(*old(self)),
                    }
                },
                EventType::ReceivedNewBlock(block) => {
                    &&& reply is None
                    &&& match check_addition(old(self).store@, block@) {
                        Ok(_) => final(self).store@ == insert_by_id(old(self).store@, block@)
                            && final(self).chain.latest_block@ == block@,
                        Err(_) => final(self).same_as(*old(self)),
                    }
                },
                _ => reply is None && final(self).same_as(*old(self)),
            },
            old(self).sound() ==> final(self).sound(),
    {
        match event {
            EventType::SendLatestBlockRequest { receiver } => Some(
                EventType::SendLatestBlock { receiver, block: self.chain.latest_block.clone() },
            ),
            EventType::ReceivedLatestBlock { sender, block } => {
                if self.chain.latest_block.id < block.id {
                    Some(EventType::SendChainRequest { receiver: sender })
                } else {
                    None
                }
            },
            EventType::ReceivedChainRequest { receiver } => Some(
                EventType::SendChain { receiver, chain: self.store.get_ordered() },
            ),
            EventType::ReceivedChain { chain } => {
                let mut incoming = chain;
                let _ = self.chain.update(&mut self.store, &mut incoming);
                None
            },
            EventType::ReceivedNewBlock(block) => {
                let _ = self.chain.add_block(&mut self.store, block);
                None
            },
            _ => None,
        }
    }

    /// Carries out a command of the operator.
    pub fn execute(&mut self, command: Command) -> (reply: Reply)
        requires
            old(self).wf(),
        ensures
            final(self).wf(),
            match command {
                Command::ListPeers => reply is Peers && final(self).same_as(*old(self)),
                Command::ValidateChain => {
                    &&& final(self).same_as(*old(self))
                    &&& match check_chain(old(self).store@, old(self).chain.latest_block@) {
                        Ok(_) => reply is ChainValid,
                        Err(cause) => reply matches Reply::Failed(e) && e@ == cause,
                    }
                },
                Command::Mine(data) => match reply {
                    Reply::Mined(block) => {
                        &&& exists|timestamp: i64|
                            block@.mined_on(
                                old(self).chain.latest_block@,
                                data@,
                                timestamp as int,
                            )
                        &&& insert_conflict(old(self).store@, block@) is None
                        &&& final(self).store@ == insert_by_id(old(self).store@, block@)
                        &&& final(self).chain.latest_block@ == block@
                    },
                    Reply::Failed(e) => {
                        &&& final(self).same_as(*old(self))
                        &&& if e@ == ErrorView::Error("no nonce solves the block"@) {
                            exists|timestamp: i64|
                                mining_outcome(
                                    old(self).chain.latest_block@,
                                    data@,
                                    timestamp as int,
                                    None::<Block>,
                                )
                        } else {
                            exists|block: BlockView, timestamp: i64|
                                block.mined_on(
                                    old(self).chain.latest_block@,
                                    data@,
                                    timestamp as int,
                                ) && insert_conflict(old(self).store@, block) == Some(e@)
                        }
                    },
                    _ => false,
                },
                Command::Get(hash) => {
                    &&& final(self).same_as(*old(self))
                    &&& match find_by_hash(old(self).store@, hash@) {
                        Some(found) => reply matches Reply::Found(b) && b@ == found,
                        None => reply matches Reply::Failed(e) && e@ == ErrorView::BlockNotFound(
                            hash@,
                        ),
                    }
                },
                Command::Latest => {
                    &&& final(self).same_as(*old(self))
                    &&& if old(self).store@.len() > 0 {
                        reply matches Reply::Found(b) && b@ == old(self).store@.last()
                    } else {
                        reply matches Reply::Failed(e) && e@ == ErrorView::DatabaseError(
                            "no blocks stored"@,
                        )
                    }
                },
                Command::ValidateBlock(hash) => {
                    &&& final(self).same_as(*old(self))
                    &&& match find_by_hash(old(self).store@, hash@) {
                        None => reply matches Reply::Failed(e) && e@ == ErrorView::BlockNotFound(
                            hash@,
                        ),
                        Some(found) => match check_block(old(self).store@, found) {
                            Ok(_) => reply == Reply::ValidBlock(found.id as i64),
                            Err(cause) => reply matches Reply::Failed(e) && e@ == cause,
                        },
                    }
                },
                Command::SendMessage(text) => reply == Reply::Say(text) && final(self).same_as(
                    *old(self),
                ),
                Command::Exit => reply is Exit && final(self).same_as(*old(self)),
                Command::Unknown => {
                    &&& reply matches Reply::Failed(e) && e@ == ErrorView::Error(
                        "unkown command."@,
                    )
                    &&& final(self).same_as(*old(self))
                },
            },
            old(self).sound() ==> final(self).sound(),
    {
        match command {
            Command::ListPeers => Reply::Peers,
            Command::ValidateChain => match self.chain.validate_chain(&self.store) {
                Ok(()) => Reply::ChainValid,
                Err(e) => Reply::Failed(e),
            },
            Command::Mine(data) => match self.chain.mine_block(data, &mut self.store) {
                Ok(block) => Reply::Mined(block),
                Err(e) => Reply::Failed(e),
            },
            Command::Get(hash) => match Chain::get_block(&self.store, hash.as_str()) {
                Ok(block) => Reply::Found(block),
                Err(e) => Reply::Failed(e),
            },
            Command::Latest => match Chain::get_latest_block(&self.store) {
                Ok(block) => Reply::Found(block),
                Err(e) => Reply::Failed(e),
            },
            Command::ValidateBlock(hash) => match Chain::get_block(&self.store, hash.as_str()) {
                Ok(block) => match Chain::check_if_block_valid(&self.store, &block) {
                    Ok(()) => Reply::ValidBlock(block.id),
                    Err(e) => Reply::Failed(e),
                },
                Err(e) => Reply::Failed(e),
            },
            Command::SendMessage(text) => Reply::Say(text),
            Command::Exit => Reply::Exit,
            Command::Unknown => Reply::Failed(BlockchainError::other("unkown command.")),
        }
    }
}

/// The event that the controller hands to the transport for a reply, if the
/// reply asks for one: the peers are listed, a mined block is broadcast.
pub fn reply_event(reply: &Reply) -> (event: Option<EventType>)
    ensures
        event == match *reply {
            Reply::Peers => Some(EventType::ListPeers),
            Reply::Mined(block) => Some(EventType::SendNewBlock(block)),
            _ => None,
        },
{
    match reply {
        Reply::Peers => Some(EventType::ListPeers),
        Reply::Mined(block) => Some(EventType::SendNewBlock(block.clone())),
        _ => None,
    }
}

} // verus!
