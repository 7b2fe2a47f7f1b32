//! The rules by which a block and a whole chain are valid, and what holds
//! of the chains that the rules accept and that mining builds.

use vstd::prelude::*;
use crate::block::genesis_view;
use crate::block::BlockView;
use crate::block::GENESIS_BLOCK_HASH;
use crate::error::BlockchainError;
use crate::error::ErrorView;
use crate::store::find_by_hash;
use crate::store::has_hash;
use crate::store::has_id;
use crate::store::insert_all;
use crate::store::insert_by_id;
use crate::store::insert_conflict;
use crate::store::lemma_find_by_hash;
use crate::store::lemma_insert_keeps_table_ok;
use crate::store::sort_by_id;
use crate::store::table_ok;

verus! {

/// The verdict on one block against the stored rows.
///
/// The genesis block, told by id 0 and the genesis hash, is valid. Any other
/// block needs its predecessor stored, with the id one below its own, and a
/// hash that is the hash of its fields.
pub open spec fn check_block(rows: Seq<BlockView>, block: BlockView) -> Result<(), ErrorView> {
    if block.is_genesis() {
        Ok(())
    } else {
        match find_by_hash(rows, block.prev_hash) {
            None => Err(ErrorView::BlockNotFound(block.prev_hash)),
            Some(prev) => if prev.id != block.id - 1 || !block.hash_matches() {
                Err(ErrorView::BlockInvalid(block.hash))
            } else {
                Ok(())
            },
        }
    }
}

/// A failed chain walk, for the reason `cause`.
pub open spec fn chain_invalid(cause: ErrorView) -> Result<(), ErrorView> {
    Err(ErrorView::ChainInvalid(Box::new(cause)))
}

/// The verdict of the walk that has visited `visited` blocks and stands at
/// the block with hash `hash`.
///
/// The walk checks the block, follows the predecessor hash, and ends at a
/// block with id 0, which must be the last of the rows to be visited and must
/// have the genesis hash. A walk that has visited every row without
/// reaching id 0 has a wrong length.
pub open spec fn walk(rows: Seq<BlockView>, hash: Seq<char>, visited: nat) -> Result<
    (),
    ErrorView,
>
    decreases rows.len() - visited,
{
    match find_by_hash(rows, hash) {
        None => chain_invalid(ErrorView::BlockNotFound(hash)),
        Some(block) => match check_block(rows, block) {
            Err(cause) => chain_invalid(cause),
            Ok(_) => if block.id == 0 {
                if visited + 1 != rows.len() {
                    chain_invalid(ErrorView::Error("invalid chain length."@))
                } else if block.hash != GENESIS_BLOCK_HASH@ {
                    chain_invalid(ErrorView::Error("genesis hash invalid."@))
                } else {
                    Ok(())
                }
            } else if visited + 1 >= rows.len() {
                chain_invalid(ErrorView::Error("invalid chain length."@))
            } else {
                walk(rows, block.prev_hash, visited + 1)
            },
        },
    }
}

/// The verdict on the chain that ends at `latest`: there are as many rows as
/// the id of `latest` plus one, and the walk back from its hash succeeds.
pub open spec fn check_chain(rows: Seq<BlockView>, latest: BlockView) -> Result<(), ErrorView> {
    if rows.len() != latest.id + 1 {
        chain_invalid(ErrorView::Error("number of blocks != ID of latest block + 1"@))
    } else {
        walk(rows, latest.hash, 0)
    }
}

/// The verdict of an operation as plain values.
pub open spec fn verdict_view(verdict: Result<(), BlockchainError>) -> Result<(), ErrorView> {
    match verdict {
        Ok(_) => Ok(()),
        Err(e) => Err(e@),
    }
}

/// The verdict on a received block that is to be added: that of
/// [`check_block`], then the conflict, if any, for which the table refuses
/// the block.
pub open spec fn check_addition(rows: Seq<BlockView>, block: BlockView) -> Result<(), ErrorView> {
    match check_block(rows, block) {
        Err(cause) => Err(cause),
        Ok(_) => match insert_conflict(rows, block) {
            Some(conflict) => Err(conflict),
            None => Ok(()),
        },
    }
}

/// A chain as mining builds it: the genesis block first, then blocks with
/// the ids 1, 2, ..., each mined on the one before it, in a table that obeys
/// its rules.
pub open spec fn mined_chain(rows: Seq<BlockView>) -> bool {
    &&& rows.len() >= 1
    &&& table_ok(rows)
    &&& rows[0] == genesis_view()
    &&& forall|i: int| 0 <= i < rows.len() ==> (#[trigger] rows[i]).id == i
    &&& forall|i: int|
        1 <= i < rows.len() ==> (#[trigger] rows[i]).mined_on(
            rows[i - 1],
            rows[i].data,
            rows[i].timestamp,
        )
}

/// The store holds a mined chain, and the handle stands on its last block.
pub open spec fn tracks_mined_chain(latest: BlockView, rows: Seq<BlockView>) -> bool {
    mined_chain(rows) && latest == rows.last()
}

/// The genesis block alone is a mined chain.
pub proof fn lemma_genesis_is_mined_chain()
    ensures
        mined_chain(seq![genesis_view()]),
{
}

/// A block mined on the last block of a mined chain, which the table takes,
/// goes to the end, and the chain is again a mined chain.
pub proof fn lemma_mining_extends_chain(rows: Seq<BlockView>, block: BlockView)
    requires
        mined_chain(rows),
        block.mined_on(rows.last(), block.data, block.timestamp),
        insert_conflict(rows, block) is None,
    ensures
        insert_by_id(rows, block) == rows.push(block),
        mined_chain(rows.push(block)),
{
    lemma_insert_keeps_table_ok(rows, block);
    let after = rows.push(block);
    assert(rows.last() == rows[rows.len() - 1]);
    assert(insert_by_id(rows, block) == after);
    assert forall|i: int| 1 <= i < after.len() implies (#[trigger] after[i]).mined_on(
        after[i - 1],
        after[i].data,
        after[i].timestamp,
    ) by {
        if i < rows.len() {
            assert(after[i] == rows[i]);
            assert(after[i - 1] == rows[i - 1]);
        }
    }
}

/// What a valid chain holds: the rows have the ids 0, 1, 2, ..., the first
/// has the genesis hash, and every other row links to the row before it and
/// has the hash of its fields.
pub open spec fn sound_chain(rows: Seq<BlockView>) -> bool {
    &&& rows.len() >= 1
    &&& rows[0].hash == GENESIS_BLOCK_HASH@
    &&& forall|i: int| 0 <= i < rows.len() ==> (#[trigger] rows[i]).id == i
    &&& forall|i: int|
        1 <= i < rows.len() ==> (#[trigger] rows[i]).prev_hash == rows[i - 1].hash
            && rows[i].hash_matches()
}

/// Whether the row at `j` passes for its place: with id 0 it has the
/// genesis hash, and else it links to a row with the id below its own and
/// has the hash of its fields.
spec fn passes(rows: Seq<BlockView>, j: int) -> bool {
    if rows[j].id == 0 {
        rows[j].hash == GENESIS_BLOCK_HASH@
    } else {
        rows[j].hash_matches() && exists|p: int|
            0 <= p < rows.len() && (#[trigger] rows[p]).id == rows[j].id - 1 && rows[p].hash
                == rows[j].prev_hash
    }
}

/// Whether a row with the id `k` is stored and passes.
spec fn covered(rows: Seq<BlockView>, k: int) -> bool {
    exists|j: int| 0 <= j < rows.len() && (#[trigger] rows[j]).id == k && passes(rows, j)
}

/// A walk that succeeds stands on the block whose id is the number of
/// blocks still to visit, and a passing row is stored for every id from 0
/// to that of the block.
proof fn lemma_walk_covers(rows: Seq<BlockView>, hash: Seq<char>, visited: nat)
    requires
        walk(rows, hash, visited) is Ok,
    ensures
        find_by_hash(rows, hash) matches Some(block) && block.id == rows.len() - 1 - visited
            && block.id >= 0 && forall|k: int| 0 <= k <= block.id ==> covered(rows, k),
    decreases rows.len() - visited,
{
    lemma_find_by_hash(rows, hash);
    let block = find_by_hash(rows, hash)->0;
    let j = choose|j: int| 0 <= j < rows.len() && rows[j] == block;
    if block.id == 0 {
        assert(passes(rows, j));
        assert(covered(rows, 0));
    } else {
        let prev = find_by_hash(rows, block.prev_hash)->0;
        lemma_find_by_hash(rows, block.prev_hash);
        lemma_walk_covers(rows, block.prev_hash, visited + 1);
        let p = choose|p: int| 0 <= p < rows.len() && rows[p] == prev;
        assert(rows[p].id == rows[j].id - 1 && rows[p].hash == rows[j].prev_hash);
        assert(passes(rows, j));
        assert(covered(rows, block.id));
    }
}

/// The place of the row with the id `k`, where there is one.
spec fn place_of(rows: Seq<BlockView>, k: int) -> int {
    choose|j: int| 0 <= j < rows.len() && (#[trigger] rows[j]).id == k
}

/// In a table that holds a row for each of the ids 0, 1, ..., as many as it
/// has rows, the row with the id `k` stands at `k` or behind it.
proof fn lemma_place_from_below(rows: Seq<BlockView>, k: int)
    requires
        table_ok(rows),
        forall|i: int| 0 <= i < rows.len() ==> has_id(rows, i),
        0 <= k < rows.len(),
    ensures
        k <= place_of(rows, k) < rows.len(),
        rows[place_of(rows, k)].id == k,
    decreases k,
{
    assert(has_id(rows, k));
    if k > 0 {
        lemma_place_from_below(rows, k - 1);
        let here = place_of(rows, k);
        let below = place_of(rows, k - 1);
        if here <= below {
            if here < below {
                assert(rows[here].id < rows[below].id);
            }
        }
    }
}

/// In such a table the row with the id `k` stands at `k` or before it.
proof fn lemma_place_from_above(rows: Seq<BlockView>, k: int)
    requires
        table_ok(rows),
        forall|i: int| 0 <= i < rows.len() ==> has_id(rows, i),
        0 <= k < rows.len(),
    ensures
        0 <= place_of(rows, k) <= k,
        rows[place_of(rows, k)].id == k,
    decreases rows.len() - k,
{
    assert(has_id(rows, k));
    if k + 1 < rows.len() {
        lemma_place_from_above(rows, k + 1);
        let here = place_of(rows, k);
        let above = place_of(rows, k + 1);
        if above <= here {
            if above < here {
                assert(rows[above].id < rows[here].id);
            }
        }
    }
}

/// A chain that the check accepts is sound: every stored block is on the
/// chain, the ids count up from 0, the first block has the genesis hash,
/// every other block links to the block before it and has the hash of its
/// fields, and the handle stands on the last block.
pub proof fn lemma_valid_chain_is_sound(rows: Seq<BlockView>, latest: BlockView)
    requires
        table_ok(rows),
        check_chain(rows, latest) is Ok,
    ensures
        sound_chain(rows),
        latest.id == rows.len() - 1,
        latest.hash == rows.last().hash,
{
    lemma_walk_covers(rows, latest.hash, 0);
    let top = find_by_hash(rows, latest.hash)->0;
    lemma_find_by_hash(rows, latest.hash);
    assert forall|i: int| 0 <= i < rows.len() implies has_id(rows, i) by {
        assert(covered(rows, i));
    }
    assert forall|i: int| 0 <= i < rows.len() implies (#[trigger] rows[i]).id == i by {
        lemma_place_from_below(rows, i);
        lemma_place_from_above(rows, i);
    }
    assert forall|i: int| 0 <= i < rows.len() implies passes(rows, i) by {
        assert(covered(rows, i));
        let j = choose|j: int|
            0 <= j < rows.len() && (#[trigger] rows[j]).id == i && passes(rows, j);
        assert(rows[j].id == j);
    }
    assert(passes(rows, 0));
    assert forall|i: int| 1 <= i < rows.len() implies (#[trigger] rows[i]).prev_hash == rows[i
        - 1].hash && rows[i].hash_matches() by {
        assert(passes(rows, i));
        let p = choose|p: int|
            0 <= p < rows.len() && (#[trigger] rows[p]).id == rows[i].id - 1 && rows[p].hash
                == rows[i].prev_hash;
        assert(rows[p].id == p);
    }
    let t = choose|t: int| 0 <= t < rows.len() && rows[t] == top;
    assert(rows[t].id == t);
}

/// The store holds a sound chain, and the handle stands on its last block.
pub open spec fn tracks_sound_chain(latest: BlockView, rows: Seq<BlockView>) -> bool {
    table_ok(rows) && sound_chain(rows) && latest == rows.last()
}

/// A mined chain is sound.
pub proof fn lemma_mined_chain_is_sound(rows: Seq<BlockView>)
    requires
        mined_chain(rows),
    ensures
        sound_chain(rows),
{
    assert forall|i: int| 1 <= i < rows.len() implies (#[trigger] rows[i]).prev_hash == rows[i
        - 1].hash && rows[i].hash_matches() by {
        assert(rows[i].mined_on(rows[i - 1], rows[i].data, rows[i].timestamp));
    }
}

/// A block that links to the last block of a sound chain and has the hash
/// of its fields goes to the end, if the table takes it, and the chain is
/// again sound.
pub proof fn lemma_linked_block_keeps_sound(rows: Seq<BlockView>, block: BlockView)
    requires
        table_ok(rows),
        sound_chain(rows),
        block.id == rows.len(),
        block.prev_hash == rows.last().hash,
        block.hash_matches(),
        insert_conflict(rows, block) is None,
    ensures
        insert_by_id(rows, block) == rows.push(block),
        table_ok(rows.push(block)),
        sound_chain(rows.push(block)),
{
    lemma_insert_keeps_table_ok(rows, block);
    let after = rows.push(block);
    assert(rows.last() == rows[rows.len() - 1]);
    assert(insert_by_id(rows, block) == after);
    assert(after[0] == rows[0]);
    assert forall|i: int| 0 <= i < after.len() implies (#[trigger] after[i]).id == i by {
        if i < rows.len() {
            assert(after[i] == rows[i]);
        }
    }
    assert forall|i: int| 1 <= i < after.len() implies (#[trigger] after[i]).prev_hash == after[i
        - 1].hash && after[i].hash_matches() by {
        assert(after[i - 1] == rows[i - 1]);
        if i < rows.len() {
            assert(after[i] == rows[i]);
        }
    }
}

/// A received block that is added to a sound chain goes to its end, and
/// the chain is again sound: a sound chain takes no block but the successor
/// of its last block.
pub proof fn lemma_addition_keeps_sound(rows: Seq<BlockView>, block: BlockView)
    requires
        table_ok(rows),
        sound_chain(rows),
        check_addition(rows, block) is Ok,
    ensures
        insert_by_id(rows, block) == rows.push(block),
        table_ok(rows.push(block)),
        sound_chain(rows.push(block)),
        block.id == rows.len(),
        block.prev_hash == rows.last().hash,
{
    if block.is_genesis() {
        assert(rows[0].id == block.id);
        assert(has_id(rows, block.id));
    } else {
        lemma_find_by_hash(rows, block.prev_hash);
        let prev = find_by_hash(rows, block.prev_hash)->0;
        let p = choose|p: int| 0 <= p < rows.len() && rows[p] == prev;
        assert(rows[p].id == p);
        if p + 1 < rows.len() {
            assert(rows[p + 1].id == block.id);
            assert(has_id(rows, block.id));
        }
        lemma_linked_block_keeps_sound(rows, block);
    }
}

/// The verdict on a received chain that is to replace the stored one: the
/// conflict, if the table refuses one of the blocks; else the chain must be
/// longer than the stored one, by the id of its last block, and valid.
pub open spec fn check_adoption(latest: BlockView, incoming: Seq<BlockView>) -> Result<
    (),
    ErrorView,
> {
    match insert_all(Seq::empty(), sort_by_id(incoming)) {
        Err(conflict) => Err(conflict),
        Ok(rows) => if rows.len() == 0 || rows.last().id <= latest.id {
            Err(ErrorView::Error("received chain is not longer."@))
        } else {
            check_chain(rows, rows.last())
        },
    }
}

/// In a sound chain the walk from any block back to the first succeeds.
proof fn lemma_walk_of_sound_chain(rows: Seq<BlockView>, k: int)
    requires
        table_ok(rows),
        sound_chain(rows),
        0 <= k < rows.len(),
    ensures
        walk(rows, rows[k].hash, (rows.len() - 1 - k) as nat) == Ok::<(), ErrorView>(()),
    decreases k,
{
    lemma_find_by_hash(rows, rows[k].hash);
    assert(find_by_hash(rows, rows[k].hash) == Some(rows[k]));
    if k == 0 {
        assert(rows[0].is_genesis());
    } else {
        let block = rows[k];
        let prev = rows[k - 1];
        lemma_find_by_hash(rows, prev.hash);
        assert(find_by_hash(rows, block.prev_hash) == Some(prev));
        assert(prev.id == k - 1);
        assert(block.id == k);
        assert(check_block(rows, block) == Ok::<(), ErrorView>(()));
        lemma_walk_of_sound_chain(rows, k - 1);
    }
}

/// A sound chain is valid from a handle on its last block: with
/// [`lemma_valid_chain_is_sound`], the check accepts exactly the sound
/// chains.
pub proof fn lemma_sound_chain_is_valid(rows: Seq<BlockView>, latest: BlockView)
    requires
        table_ok(rows),
        sound_chain(rows),
        latest.id == rows.len() - 1,
        latest.hash == rows.last().hash,
    ensures
        check_chain(rows, latest) == Ok::<(), ErrorView>(()),
{
    lemma_walk_of_sound_chain(rows, rows.len() - 1);
}

/// Every chain that mining builds is valid: the check of a mined chain from
/// its last block succeeds.
pub proof fn lemma_mined_chain_is_valid(rows: Seq<BlockView>)
    requires
        mined_chain(rows),
    ensures
        check_chain(rows, rows.last()) == Ok::<(), ErrorView>(()),
{
    lemma_mined_chain_is_sound(rows);
    lemma_sound_chain_is_valid(rows, rows.last());
}

/// A fresh chain, the genesis block alone, is valid.
pub proof fn lemma_fresh_chain_is_valid()
    ensures
        check_chain(seq![genesis_view()], genesis_view()) == Ok::<(), ErrorView>(()),
        seq![genesis_view()].len() == 1,
        genesis_view().id == 0,
        genesis_view().hash == GENESIS_BLOCK_HASH@,
{
    lemma_genesis_is_mined_chain();
    lemma_mined_chain_is_valid(seq![genesis_view()]);
}

/// A block whose predecessor is not stored is not added, unless it is the
/// genesis block.
pub proof fn lemma_unlinked_block_is_refused(rows: Seq<BlockView>, block: BlockView)
    requires
        !block.is_genesis(),
        !has_hash(rows, block.prev_hash),
    ensures
        check_addition(rows, block) == Err::<(), ErrorView>(
            ErrorView::BlockNotFound(block.prev_hash),
        ),
{
    lemma_find_by_hash(rows, block.prev_hash);
}

} // verus!
