//! Blocks, the genesis block, and the mining of a successor.

use vstd::prelude::*;
use vstd::string::*;
use crate::mining::find_hash;
use crate::mining::is_solution;
use crate::mining::none_solves;
use crate::mining::NONCE_LIMIT;

verus! {

/// The hex prefix that the hash of a mined block starts with.
pub const BLOCK_DIFFICULTY: &'static str = "00";

/// The payload of the genesis block.
pub const GENESIS_BLOCK_DATA: &'static str = "genesis block";

/// The hash of the genesis block: a trust anchor, not the hash of its fields.
pub const GENESIS_BLOCK_HASH: &'static str =
    "0A31F6A1DB36EEDF9AA5C56AB90DCC76A3ABD90C77B1198336FD1AE512193F";

/// What the genesis block holds in place of a predecessor's hash.
pub const GENESIS_PREV_HASH: &'static str = "null";

/// The timestamp of the genesis block.
pub const GENESIS_BLOCK_TIME: i64 = 0;

/// A block: a payload linked to its predecessor by that block's hash, with
/// the nonce that proves the work.
#[derive(Debug, PartialEq)]
pub struct Block {
    pub hash: String,
    pub id: i64,
    pub prev_hash: String,
    pub timestamp: i64,
    pub nonce: i64,
    pub data: String,
}

/// A block as plain values.
pub struct BlockView {
    pub hash: Seq<char>,
    pub id: int,
    pub prev_hash: Seq<char>,
    pub timestamp: int,
    pub nonce: int,
    pub data: Seq<char>,
}

impl View for Block {
    type V = BlockView;

    open spec fn view(&self) -> BlockView {
        BlockView {
            hash: self.hash@,
            id: self.id as int,
            prev_hash: self.prev_hash@,
            timestamp: self.timestamp as int,
            nonce: self.nonce as int,
            data: self.data@,
        }
    }
}

impl Clone for Block {
    fn clone(&self) -> (copy: Block)
        ensures
            copy == *self,
    {
        Block {
            hash: self.hash.clone(),
            id: self.id,
            prev_hash: self.prev_hash.clone(),
            timestamp: self.timestamp,
            nonce: self.nonce,
            data: self.data.clone(),
        }
    }
}

/// The genesis block as plain values.
pub open spec fn genesis_view() -> BlockView {
    BlockView {
        hash: GENESIS_BLOCK_HASH@,
        id: 0,
        prev_hash: GENESIS_PREV_HASH@,
        timestamp: GENESIS_BLOCK_TIME as int,
        nonce: 0,
        data: GENESIS_BLOCK_DATA@,
    }
}

impl BlockView {
    /// Whether this is the genesis block, told by its id and hash.
    pub open spec fn is_genesis(self) -> bool {
        self.id == 0 && self.hash == GENESIS_BLOCK_HASH@
    }

    /// Whether the hash is the hash of the block's hashed fields.
    pub open spec fn hash_matches(self) -> bool {
        self.hash == crate::digest::hash_text(
            self.prev_hash,
            self.data,
            self.timestamp,
            self.nonce,
        )
    }

    /// Whether the block was mined on top of `prev` with payload `data` at
    /// `timestamp`: it links to `prev`, and its hash and nonce are a proof
    /// of work at [`BLOCK_DIFFICULTY`].
    pub open spec fn mined_on(self, prev: BlockView, data: Seq<char>, timestamp: int) -> bool {
        &&& self.id == prev.id + 1
        &&& self.prev_hash == prev.hash
        &&& self.data == data
        &&& self.timestamp == timestamp
        &&& 1 <= self.nonce < NONCE_LIMIT
        &&& is_solution(
            self.prev_hash,
            self.data,
            self.timestamp,
            BLOCK_DIFFICULTY@,
            self.hash,
            self.nonce,
        )
    }
}

/// What mining on top of `prev` gives: a block mined on it, or nothing when
/// `prev` has the last id or no nonce solves.
pub open spec fn mining_outcome(
    prev: BlockView,
    data: Seq<char>,
    timestamp: int,
    block: Option<Block>,
) -> bool {
    match block {
        Some(b) => b@.mined_on(prev, data, timestamp),
        None => prev.id == i64::MAX || none_solves(
            prev.hash,
            data,
            timestamp,
            BLOCK_DIFFICULTY@,
            1,
            NONCE_LIMIT as int,
        ),
    }
}

/// Reads the system clock and calls chrono's `DateTime::<Utc>::from` on it,
/// then `timestamp`: the seconds since the Unix epoch, below zero when the
/// clock stands before it. Trusted, and nothing is claimed of the value.
#[verifier::external_body]
fn current_timestamp() -> i64 {
    chrono::DateTime::<chrono::Utc>::from(std::time::SystemTime::now()).timestamp()
}

/// Calls `num_cpus::get`: the number of logical cores. Trusted, and nothing
/// is claimed of the value.
#[verifier::external_body]
fn logical_cores() -> usize {
    num_cpus::get()
}

impl Block {
    /// Mines the successor of `prev_block` with payload `data`, stamped with
    /// the current time, with one worker for each logical core.
    pub fn new(prev_block: &Block, data: String) -> (block: Option<Block>)
        ensures
            exists|timestamp: i64| mining_outcome(prev_block@, data@, timestamp as int, block),
    {
        let timestamp = current_timestamp();
        let cores = logical_cores();
        let threads = if cores == 0 {
            1
        } else {
            cores
        };
        let block = Block::mine(prev_block, data, timestamp, threads);
        assert(mining_outcome(prev_block@, data@, timestamp as int, block));
        block
    }

    /// Mines the successor of `prev_block` with payload `data` and the given
    /// timestamp, with `threads` workers.
    pub fn mine(prev_block: &Block, data: String, timestamp: i64, threads: usize) -> (block:
        Option<Block>)
        requires
            threads >= 1,
        ensures
            mining_outcome(prev_block@, data@, timestamp as int, block),
    {
        if prev_block.id == i64::MAX {
            return None;
        }
        match find_hash(
            prev_block.hash.as_str(),
            data.as_str(),
            timestamp,
            BLOCK_DIFFICULTY,
            threads,
        ) {
            Some((hash, nonce)) => Some(
                Block {
                    hash,
                    id: prev_block.id + 1,
                    prev_hash: prev_block.hash.clone(),
                    timestamp,
                    nonce,
                    data,
                },
            ),
            None => None,
        }
    }

    /// The genesis block: fixed, and the same on every node.
    pub fn create_genesis() -> (block: Block)
        ensures
            block@ == genesis_view(),
    {
        Block {
            hash: GENESIS_BLOCK_HASH.to_owned(),
            id: 0,
            prev_hash: GENESIS_PREV_HASH.to_owned(),
            timestamp: GENESIS_BLOCK_TIME,
            nonce: 0,
            data: GENESIS_BLOCK_DATA.to_owned(),
        }
    }
}

} // verus!
