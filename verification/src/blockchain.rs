//! The chain: a handle on the latest block, and the operations that read,
//! check, extend or replace the stored chain.

use vstd::prelude::*;
use vstd::string::*;
use crate::block::Block;
use crate::block::BlockView;
use crate::block::genesis_view;
use crate::block::mining_outcome;
use crate::block::GENESIS_BLOCK_HASH;
use crate::digest::hasher;
use crate::error::BlockchainError;
use crate::error::ErrorView;
use crate::store::find_by_hash;
use crate::store::insert_by_id;
use crate::store::insert_conflict;
use crate::store::sort_by_id;
use crate::store::views;
use crate::store::ChainStore;
use crate::text::str_eq;
use crate::validation::check_addition;
use crate::validation::check_adoption;
use crate::validation::check_block;
use crate::validation::check_chain;
use crate::validation::lemma_addition_keeps_sound;
use crate::validation::lemma_linked_block_keeps_sound;
use crate::validation::lemma_mining_extends_chain;
use crate::validation::lemma_sound_chain_is_valid;
use crate::validation::lemma_valid_chain_is_sound;
use crate::validation::sound_chain;
use crate::validation::tracks_mined_chain;
use crate::validation::tracks_sound_chain;
use crate::validation::verdict_view;
use crate::validation::walk;

verus! {

/// Whether the rows are a sound chain and `latest` has the id and the hash
/// of the last of them.
pub open spec fn handle_on_sound_chain(latest: BlockView, rows: Seq<BlockView>) -> bool {
    sound_chain(rows) && latest.id == rows.len() - 1 && latest.hash == rows.last().hash
}

/// Whether the candidate, if there is one, was mined on top of `latest`.
pub open spec fn mined_on_latest(candidate: Option<Block>, latest: BlockView) -> bool {
    candidate matches Some(block) ==> exists|data: Seq<char>, timestamp: int|
        block@.mined_on(latest, data, timestamp)
}

/// The chain handle: a copy of the latest block. Every other read goes to the
/// store.
#[derive(Debug)]
pub struct Chain {
    pub latest_block: Block,
}

impl Clone for Chain {
    fn clone(&self) -> (copy: Chain)
        ensures
            copy.latest_block@ == self.latest_block@,
    {
        Chain { latest_block: self.latest_block.clone() }
    }
}

impl Chain {
    /// Opens the chain of a store: the handle on its latest block, or, for
    /// an empty store, a fresh chain with the genesis block.
    pub fn init(store: &mut ChainStore) -> (chain: Result<Chain, BlockchainError>)
        requires
            old(store).wf(),
        ensures
            final(store).wf(),
            chain matches Ok(c) && if old(store)@.len() == 0 {
                final(store)@ == seq![genesis_view()] && c.latest_block@ == genesis_view()
            } else {
                final(store)@ == old(store)@ && c.latest_block@ == old(store)@.last()
            },
    {
        match store.get_latest() {
            Some(latest) => Ok(Chain::build(latest.clone())),
            None => {
                proof {
                    assert(insert_conflict(store@, genesis_view()) is None);
                    assert(insert_by_id(store@, genesis_view()) =~= seq![genesis_view()]);
                }
                Chain::new(store)
            },
        }
    }

    /// Starts a chain: inserts the genesis block into the store. Fails, and
    /// leaves the store as it is, when the store refuses the block.
    pub fn new(store: &mut ChainStore) -> (chain: Result<Chain, BlockchainError>)
        requires
            old(store).wf(),
        ensures
            final(store).wf(),
            match insert_conflict(old(store)@, genesis_view()) {
                Some(conflict) => {
                    &&& chain matches Err(e) && e@ == conflict
                    &&& final(store)@ == old(store)@
                },
                None => chain matches Ok(c) && c.latest_block@ == genesis_view() && final(store)@
                    == insert_by_id(old(store)@, genesis_view()),
            },
    {
        let block = Block::create_genesis();
        match store.insert(block.clone()) {
            Ok(()) => Ok(Chain { latest_block: block }),
            Err(e) => Err(e),
        }
    }

    /// The handle on a chain whose latest block is `latest_block`.
    pub fn build(latest_block: Block) -> (chain: Chain)
        ensures
            chain.latest_block == latest_block,
    {
        Chain { latest_block }
    }

    /// All stored blocks, in the order of their ids.
    pub fn get_chain(store: &ChainStore) -> (blocks: Result<Vec<Block>, BlockchainError>)
        ensures
            blocks matches Ok(list) && views(list@) == store@,
    {
        Ok(store.get_ordered())
    }

    /// The stored block with hash `key`.
    pub fn get_block(store: &ChainStore, key: &str) -> (block: Result<Block, BlockchainError>)
        ensures
            match find_by_hash(store@, key@) {
                Some(found) => block matches Ok(b) && b@ == found,
                None => block matches Err(e) && e@ == ErrorView::BlockNotFound(key@),
            },
    {
        match store.get_by_hash(key) {
            Some(found) => Ok(found.clone()),
            None => Err(BlockchainError::BlockNotFound(key.to_owned())),
        }
    }

    /// The latest stored block: the one with the greatest id.
    pub fn get_latest_block(store: &ChainStore) -> (block: Result<Block, BlockchainError>)
        ensures
            if store@.len() > 0 {
                block matches Ok(b) && b@ == store@.last()
            } else {
                block matches Err(e) && e@ == ErrorView::DatabaseError("no blocks stored"@)
            },
    {
        match store.get_latest() {
            Some(latest) => Ok(latest.clone()),
            None => Err(BlockchainError::DatabaseError(String::from_str("no blocks stored"))),
        }
    }

    /// Replaces the stored chain by a received one, sorted by id, and moves
    /// the handle to its last block, if the received chain can stand in a
    /// store of its own, is longer than the stored one, by the id of its last
    /// block, and is valid. The received chain is checked before anything is
    /// replaced: else the store and the handle stay as they are.
    pub fn update(&mut self, store: &mut ChainStore, chain: &mut Vec<Block>) -> (done: Result<
        (),
        BlockchainError,
    >)
        requires
            old(store).wf(),
        ensures
            final(store).wf(),
            views(final(chain)@) == sort_by_id(views(old(chain)@)),
            verdict_view(done) == check_adoption(old(self).latest_block@, views(old(chain)@)),
            done is Ok ==> final(store)@ == sort_by_id(views(old(chain)@)) && tracks_sound_chain(
                final(self).latest_block@,
                final(store)@,
            ),
            done is Err ==> {
                &&& final(store)@ == old(store)@
                &&& final(self).latest_block@ == old(self).latest_block@
            },
    {
        let mut incoming = ChainStore::new();
        match incoming.replace_all(chain) {
            Ok(()) => {},
            Err(conflict) => {
                return Err(conflict);
            },
        }
        let last = match incoming.get_latest() {
            Some(last) => last.clone(),
            None => {
                return Err(BlockchainError::other("received chain is not longer."));
            },
        };
        if last.id <= self.latest_block.id {
            return Err(BlockchainError::other("received chain is not longer."));
        }
        let candidate = Chain::build(last);
        match candidate.validate_chain(&incoming) {
            Ok(()) => {},
            Err(cause) => {
                return Err(cause);
            },
        }
        *store = incoming;
        self.latest_block = candidate.latest_block;
        Ok(())
    }

    /// Adds a received block: checks it against the store, inserts it, and
    /// moves the handle to it. If the check fails or the store refuses the
    /// block, the store and the handle stay as they are.
    pub fn add_block(&mut self, store: &mut ChainStore, block: Block) -> (done: Result<
        (),
        BlockchainError,
    >)
        requires
            old(store).wf(),
        ensures
            final(store).wf(),
            verdict_view(done) == check_addition(old(store)@, block@),
            done is Ok ==> {
                &&& final(store)@ == insert_by_id(old(store)@, block@)
                &&& final(self).latest_block@ == block@
            },
            done is Err ==> {
                &&& final(store)@ == old(store)@
                &&& final(self).latest_block@ == old(self).latest_block@
            },
            tracks_sound_chain(old(self).latest_block@, old(store)@) ==> tracks_sound_chain(
                final(self).latest_block@,
                final(store)@,
            ),
    {
        proof {
            if tracks_sound_chain(old(self).latest_block@, old(store)@) && check_addition(
                old(store)@,
                block@,
            ) is Ok {
                lemma_addition_keeps_sound(old(store)@, block@);
            }
        }
        match Chain::check_if_block_valid(store, &block) {
            Ok(()) => {},
            Err(cause) => {
                return Err(cause);
            },
        }
        match store.insert(block.clone()) {
            Ok(()) => {},
            Err(conflict) => {
                return Err(conflict);
            },
        }
        self.latest_block = block;
        Ok(())
    }

    /// Mines a block with payload `data` on top of the latest block, stores
    /// it, and moves the handle to it.
    ///
    /// The block is stamped with the current time; what is returned for each
    /// outcome of the mining is what [`Chain::accept_mined`] returns. It
    /// fails only where mining at that time gives no block, or gives one that
    /// the store refuses.
    pub fn mine_block(&mut self, data: String, store: &mut ChainStore) -> (mined: Result<
        Block,
        BlockchainError,
    >)
        requires
            old(store).wf(),
        ensures
            final(store).wf(),
            match mined {
                Ok(block) => {
                    &&& exists|timestamp: i64|
                        block@.mined_on(old(self).latest_block@, data@, timestamp as int)
                    &&& insert_conflict(old(store)@, block@) is None
                    &&& final(store)@ == insert_by_id(old(store)@, block@)
                    &&& final(self).latest_block@ == block@
                },
                Err(e) => {
                    &&& final(store)@ == old(store)@
                    &&& final(self).latest_block@ == old(self).latest_block@
                    &&& if e@ == ErrorView::Error("no nonce solves the block"@) {
                        exists|timestamp: i64|
                            mining_outcome(
                                old(self).latest_block@,
                                data@,
                                timestamp as int,
                                None::<Block>,
                            )
                    } else {
                        exists|block: BlockView, timestamp: i64|
                            block.mined_on(old(self).latest_block@, data@, timestamp as int)
                                && insert_conflict(old(store)@, block) == Some(e@)
                    }
                },
            },
            tracks_mined_chain(old(self).latest_block@, old(store)@) ==> tracks_mined_chain(
                final(self).latest_block@,
                final(store)@,
            ),
            tracks_sound_chain(old(self).latest_block@, old(store)@) ==> tracks_sound_chain(
                final(self).latest_block@,
                final(store)@,
            ),
    {
        let candidate = Block::new(&self.latest_block, data);
        self.accept_mined(candidate, store)
    }

    /// Takes the outcome of mining on top of the latest block: stores the
    /// block and moves the handle to it. With no block, or with one that the
    /// store refuses, the store and the handle stay as they are.
    pub fn accept_mined(&mut self, candidate: Option<Block>, store: &mut ChainStore) -> (mined:
        Result<Block, BlockchainError>)
        requires
            old(store).wf(),
        ensures
            final(store).wf(),
            match candidate {
                None => {
                    &&& mined matches Err(e) && e@ == ErrorView::Error("no nonce solves the block"@)
                    &&& final(store)@ == old(store)@
                    &&& final(self).latest_block@ == old(self).latest_block@
                },
                Some(block) => match insert_conflict(old(store)@, block@) {
                    Some(conflict) => {
                        &&& mined matches Err(e) && e@ == conflict
                        &&& final(store)@ == old(store)@
                        &&& final(self).latest_block@ == old(self).latest_block@
                    },
                    None => {
                        &&& mined matches Ok(b) && b@ == block@
                        &&& final(store)@ == insert_by_id(old(store)@, block@)
                        &&& final(self).latest_block@ == block@
                    },
                },
            },
            tracks_mined_chain(old(self).latest_block@, old(store)@) && mined_on_latest(
                candidate,
                old(self).latest_block@,
            ) ==> tracks_mined_chain(final(self).latest_block@, final(store)@),
            tracks_sound_chain(old(self).latest_block@, old(store)@) && mined_on_latest(
                candidate,
                old(self).latest_block@,
            ) ==> tracks_sound_chain(final(self).latest_block@, final(store)@),
    {
        let block = match candidate {
            Some(block) => block,
            None => {
                return Err(BlockchainError::other("no nonce solves the block"));
            },
        };
        match store.insert(block.clone()) {
            Ok(()) => {},
            Err(conflict) => {
                return Err(conflict);
            },
        }
        proof {
            if tracks_mined_chain(old(self).latest_block@, old(store)@) && mined_on_latest(
                candidate,
                old(self).latest_block@,
            ) {
                lemma_mining_extends_chain(old(store)@, block@);
            }
            if tracks_sound_chain(old(self).latest_block@, old(store)@) && mined_on_latest(
                candidate,
                old(self).latest_block@,
            ) {
                lemma_linked_block_keeps_sound(old(store)@, block@);
            }
        }
        self.latest_block = block.clone();
        Ok(block)
    }

    /// Checks one block against the store.
    pub fn check_if_block_valid(store: &ChainStore, block: &Block) -> (verdict: Result<
        (),
        BlockchainError,
    >)
        ensures
            verdict_view(verdict) == check_block(store@, block@),
    {
        if block.id == 0 && str_eq(block.hash.as_str(), GENESIS_BLOCK_HASH) {
            return Ok(());
        }
        let prev = match store.get_by_hash(block.prev_hash.as_str()) {
            Some(prev) => prev,
            None => {
                return Err(BlockchainError::BlockNotFound(block.prev_hash.clone()));
            },
        };
        if block.id == i64::MIN || prev.id != block.id - 1 {
            return Err(BlockchainError::BlockInvalid(block.hash.clone()));
        }
        let block_hash = hasher(
            block.prev_hash.as_str(),
            block.data.as_str(),
            block.timestamp,
            block.nonce,
        );
        if !str_eq(block_hash.as_str(), block.hash.as_str()) {
            return Err(BlockchainError::BlockInvalid(block.hash.clone()));
        }
        Ok(())
    }

    /// Checks the whole chain: the count of the stored blocks against the id
    /// of the latest, then every block on the walk from the latest back to
    /// the genesis block.
    pub fn validate_chain(&self, store: &ChainStore) -> (verdict: Result<(), BlockchainError>)
        ensures
            verdict_view(verdict) == check_chain(store@, self.latest_block@),
            store.wf() ==> (verdict is Ok <==> handle_on_sound_chain(self.latest_block@, store@)),
    {
        proof {
            if store.wf() {
                if check_chain(store@, self.latest_block@) is Ok {
                    lemma_valid_chain_is_sound(store@, self.latest_block@);
                }
                if handle_on_sound_chain(self.latest_block@, store@) {
                    lemma_sound_chain_is_valid(store@, self.latest_block@);
                }
            }
        }
        let count = store.count();
        if count as i128 != self.latest_block.id as i128 + 1 {
            return Err(
                BlockchainError::chain_invalid(
                    BlockchainError::other("number of blocks != ID of latest block + 1"),
                ),
            );
        }
        let mut current: String = self.latest_block.hash.clone();
        if count == 0 {
            return Err(BlockchainError::chain_invalid(BlockchainError::BlockNotFound(current)));
        }
        let mut visited: usize = 0;
        loop
            invariant
                count == store@.len(),
                visited < count,
                check_chain(store@, self.latest_block@) == walk(store@, current@, visited as nat),
                store.wf() ==> (check_chain(store@, self.latest_block@) is Ok
                    <==> handle_on_sound_chain(self.latest_block@, store@)),
            decreases count - visited,
        {
            let block = match store.get_by_hash(current.as_str()) {
                Some(block) => block,
                None => {
                    return Err(
                        BlockchainError::chain_invalid(BlockchainError::BlockNotFound(current)),
                    );
                },
            };
            match Chain::check_if_block_valid(store, block) {
                Ok(()) => {},
                Err(cause) => {
                    return Err(BlockchainError::chain_invalid(cause));
                },
            }
            if block.id == 0 {
                if visited + 1 != count {
                    return Err(
                        BlockchainError::chain_invalid(
                            BlockchainError::other("invalid chain length."),
                        ),
                    );
                }
                if !str_eq(block.hash.as_str(), GENESIS_BLOCK_HASH) {
                    return Err(
                        BlockchainError::chain_invalid(
                            BlockchainError::other("genesis hash invalid."),
                        ),
                    );
                }
                return Ok(());
            }
            if visited + 1 >= count {
                return Err(
                    BlockchainError::chain_invalid(BlockchainError::other("invalid chain length.")),
                );
            }
            current = block.prev_hash.clone();
            visited += 1;
        }
    }
}

} // verus!
