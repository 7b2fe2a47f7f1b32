//! The chain store: a table of blocks in which hash, id and predecessor hash
//! are each unique, kept in the order of the ids.

use vstd::prelude::*;
use vstd::string::*;
use vstd::seq_lib::to_multiset_build;
use vstd::seq_lib::to_multiset_insert;
use crate::block::Block;
use crate::block::BlockView;
use crate::error::BlockchainError;
use crate::error::ErrorView;
use crate::text::str_eq;

verus! {

/// The blocks of a sequence as plain values, in order.
pub open spec fn views(blocks: Seq<Block>) -> Seq<BlockView> {
    Seq::new(blocks.len(), |i: int| blocks[i]@)
}

/// Whether the ids never fall along the rows.
pub open spec fn sorted_by_id(rows: Seq<BlockView>) -> bool {
    forall|i: int, j: int| 0 <= i < j < rows.len() ==> rows[i].id <= rows[j].id
}

/// The rules of the table: the rows stand in the order of their ids, and no
/// two rows share an id, a hash or a predecessor hash.
pub open spec fn table_ok(rows: Seq<BlockView>) -> bool {
    &&& forall|i: int, j: int| 0 <= i < j < rows.len() ==> rows[i].id < rows[j].id
    &&& forall|i: int, j: int| 0 <= i < j < rows.len() ==> rows[i].hash != rows[j].hash
    &&& forall|i: int, j: int| 0 <= i < j < rows.len() ==> rows[i].prev_hash != rows[j].prev_hash
}

/// Whether a row has this hash.
pub open spec fn has_hash(rows: Seq<BlockView>, hash: Seq<char>) -> bool {
    exists|i: int| 0 <= i < rows.len() && rows[i].hash == hash
}

/// Whether a row has this id.
pub open spec fn has_id(rows: Seq<BlockView>, id: int) -> bool {
    exists|i: int| 0 <= i < rows.len() && rows[i].id == id
}

/// Whether a row has this predecessor hash.
pub open spec fn has_prev_hash(rows: Seq<BlockView>, prev_hash: Seq<char>) -> bool {
    exists|i: int| 0 <= i < rows.len() && rows[i].prev_hash == prev_hash
}

/// The first row with this hash, if there is one.
pub open spec fn find_by_hash(rows: Seq<BlockView>, hash: Seq<char>) -> Option<BlockView>
    decreases rows.len(),
{
    if rows.len() == 0 {
        None
    } else if rows[0].hash == hash {
        Some(rows[0])
    } else {
        find_by_hash(rows.drop_first(), hash)
    }
}

/// The rows with `block` put in behind every row whose id is not greater.
pub open spec fn insert_by_id(rows: Seq<BlockView>, block: BlockView) -> Seq<BlockView>
    decreases rows.len(),
{
    if rows.len() == 0 || rows.last().id <= block.id {
        rows.push(block)
    } else {
        insert_by_id(rows.drop_last(), block).push(rows.last())
    }
}

/// The rows in the order of their ids; rows with the same id keep their
/// order.
pub open spec fn sort_by_id(rows: Seq<BlockView>) -> Seq<BlockView>
    decreases rows.len(),
{
    if rows.len() == 0 {
        rows
    } else {
        insert_by_id(sort_by_id(rows.drop_last()), rows.last())
    }
}

/// Why the table refuses `block`, if it does: its hash, its id or its
/// predecessor hash is taken, asked in this order.
pub open spec fn insert_conflict(rows: Seq<BlockView>, block: BlockView) -> Option<ErrorView> {
    if has_hash(rows, block.hash) {
        Some(ErrorView::DatabaseError("duplicate hash"@))
    } else if has_id(rows, block.id) {
        Some(ErrorView::DatabaseError("duplicate id"@))
    } else if has_prev_hash(rows, block.prev_hash) {
        Some(ErrorView::DatabaseError("duplicate prev_hash"@))
    } else {
        None
    }
}

/// The table after the blocks are inserted one by one, or the conflict that
/// stops the first that is refused.
pub open spec fn insert_all(rows: Seq<BlockView>, blocks: Seq<BlockView>) -> Result<
    Seq<BlockView>,
    ErrorView,
>
    decreases blocks.len(),
{
    if blocks.len() == 0 {
        Ok(rows)
    } else {
        match insert_conflict(rows, blocks[0]) {
            Some(conflict) => Err(conflict),
            None => insert_all(insert_by_id(rows, blocks[0]), blocks.drop_first()),
        }
    }
}

/// The first index at which `insert_by_id` can put a block with this id: the
/// number of rows up to the last whose id is not greater.
pub open spec fn slot_for(rows: Seq<BlockView>, id: int) -> int
    decreases rows.len(),
{
    if rows.len() == 0 || rows.last().id <= id {
        rows.len() as int
    } else {
        slot_for(rows.drop_last(), id)
    }
}

/// `insert_by_id` is an insertion at `slot_for`.
pub proof fn lemma_insert_by_id_is_insert(rows: Seq<BlockView>, block: BlockView)
    ensures
        0 <= slot_for(rows, block.id) <= rows.len(),
        insert_by_id(rows, block) == rows.insert(slot_for(rows, block.id), block),
    decreases rows.len(),
{
    if rows.len() == 0 || rows.last().id <= block.id {
        assert(rows.push(block) =~= rows.insert(rows.len() as int, block));
    } else {
        lemma_insert_by_id_is_insert(rows.drop_last(), block);
        let k = slot_for(rows.drop_last(), block.id);
        assert(rows.drop_last().insert(k, block).push(rows.last()) =~= rows.insert(k, block));
    }
}

/// Inserting into a table whose rows obey the rules a block that conflicts
/// with none of them gives a table that obeys the rules.
pub proof fn lemma_insert_keeps_table_ok(rows: Seq<BlockView>, block: BlockView)
    requires
        table_ok(rows),
        insert_conflict(rows, block) is None,
    ensures
        table_ok(insert_by_id(rows, block)),
{
    lemma_insert_by_id_is_insert(rows, block);
    lemma_slot_splits(rows, block.id);
    let k = slot_for(rows, block.id);
    let after = rows.insert(k, block);
    assert forall|i: int, j: int| 0 <= i < j < after.len() implies after[i].id < after[j].id
        && after[i].hash != after[j].hash && after[i].prev_hash != after[j].prev_hash by {
        let oi = if i < k {
            i
        } else {
            i - 1
        };
        let oj = if j < k {
            j
        } else {
            j - 1
        };
        if i == k {
            assert(after[j] == rows[oj]);
            assert(rows[oj].id != block.id);
        } else if j == k {
            assert(after[i] == rows[oi]);
            assert(rows[oi].id != block.id);
        } else {
            assert(after[i] == rows[oi]);
            assert(after[j] == rows[oj]);
        }
    }
}

/// In rows ordered by id, the rows before `slot_for` have ids that are not
/// greater, and the rows from it on have greater ids.
pub proof fn lemma_slot_splits(rows: Seq<BlockView>, id: int)
    requires
        sorted_by_id(rows),
    ensures
        forall|i: int| 0 <= i < slot_for(rows, id) ==> rows[i].id <= id,
        forall|i: int| slot_for(rows, id) <= i < rows.len() ==> rows[i].id > id,
        0 <= slot_for(rows, id) <= rows.len(),
    decreases rows.len(),
{
    if rows.len() == 0 || rows.last().id <= id {
    } else {
        let front = rows.drop_last();
        lemma_slot_splits(front, id);
        assert forall|i: int| 0 <= i < slot_for(rows, id) implies rows[i].id <= id by {
            assert(rows[i] == front[i]);
        }
        assert forall|i: int| slot_for(rows, id) <= i < rows.len() implies rows[i].id > id by {
            if i < front.len() {
                assert(rows[i] == front[i]);
            }
        }
    }
}

/// Putting a block into rows ordered by id keeps them ordered, and adds
/// the block to what they hold.
pub proof fn lemma_insert_by_id_sorted(rows: Seq<BlockView>, block: BlockView)
    requires
        sorted_by_id(rows),
    ensures
        sorted_by_id(insert_by_id(rows, block)),
        insert_by_id(rows, block).to_multiset() == rows.to_multiset().insert(block),
        insert_by_id(rows, block).len() == rows.len() + 1,
{
    lemma_insert_by_id_is_insert(rows, block);
    lemma_slot_splits(rows, block.id);
    let k = slot_for(rows, block.id);
    let after = rows.insert(k, block);
    to_multiset_insert(rows, k, block);
    assert forall|i: int, j: int| 0 <= i < j < after.len() implies after[i].id <= after[j].id by {
        let oi = if i < k {
            i
        } else {
            i - 1
        };
        let oj = if j < k {
            j
        } else {
            j - 1
        };
        if i == k {
            assert(after[j] == rows[oj]);
        } else if j == k {
            assert(after[i] == rows[oi]);
        } else {
            assert(after[i] == rows[oi]);
            assert(after[j] == rows[oj]);
        }
    }
}

/// `sort_by_id` gives the same blocks in the order of their ids.
pub proof fn lemma_sort_by_id(rows: Seq<BlockView>)
    ensures
        sorted_by_id(sort_by_id(rows)),
        sort_by_id(rows).to_multiset() == rows.to_multiset(),
        sort_by_id(rows).len() == rows.len(),
    decreases rows.len(),
{
    if rows.len() == 0 {
    } else {
        let front = rows.drop_last();
        lemma_sort_by_id(front);
        lemma_insert_by_id_sorted(sort_by_id(front), rows.last());
        to_multiset_build(front, rows.last());
        assert(front.push(rows.last()) =~= rows);
    }
}

/// Inserting, one by one, blocks that follow the rows in the order of the
/// ids: all are taken, and the table is the rows with the blocks behind them,
/// exactly when that table obeys the rules; else one is refused.
pub proof fn lemma_insert_all_sorted(rows: Seq<BlockView>, blocks: Seq<BlockView>)
    requires
        table_ok(rows),
        sorted_by_id(rows + blocks),
    ensures
        table_ok(rows + blocks) ==> insert_all(rows, blocks) == Ok::<Seq<BlockView>, ErrorView>(
            rows + blocks,
        ),
        !table_ok(rows + blocks) ==> insert_all(rows, blocks) is Err,
    decreases blocks.len(),
{
    let all = rows + blocks;
    if blocks.len() == 0 {
        assert(all =~= rows);
    } else {
        let first = blocks[0];
        assert(all[rows.len() as int] == first);
        assert forall|i: int| 0 <= i < rows.len() implies rows[i] == all[i] by {}
        if insert_conflict(rows, first) is None {
            if rows.len() > 0 {
                assert(rows.last() == all[rows.len() - 1]);
            }
            assert(insert_by_id(rows, first) == rows.push(first));
            lemma_insert_keeps_table_ok(rows, first);
            assert(rows.push(first) + blocks.drop_first() =~= all);
            lemma_insert_all_sorted(rows.push(first), blocks.drop_first());
        } else {
            if has_hash(rows, first.hash) {
                let i = choose|i: int| 0 <= i < rows.len() && rows[i].hash == first.hash;
                assert(all[i].hash == all[rows.len() as int].hash);
            } else if has_id(rows, first.id) {
                let i = choose|i: int| 0 <= i < rows.len() && rows[i].id == first.id;
                assert(all[i].id == all[rows.len() as int].id);
            } else {
                let i = choose|i: int|
                    0 <= i < rows.len() && rows[i].prev_hash == first.prev_hash;
                assert(all[i].prev_hash == all[rows.len() as int].prev_hash);
            }
        }
    }
}

/// A table that is filled with the blocks sorted by id holds exactly these
/// blocks, in the order of their ids.
pub proof fn lemma_replaced_table_is_sorted_input(blocks: Seq<BlockView>, rows: Seq<BlockView>)
    requires
        insert_all(Seq::empty(), sort_by_id(blocks)) == Ok::<Seq<BlockView>, ErrorView>(rows),
    ensures
        rows == sort_by_id(blocks),
        sorted_by_id(rows),
        table_ok(rows),
        rows.to_multiset() == blocks.to_multiset(),
{
    let sorted = sort_by_id(blocks);
    lemma_sort_by_id(blocks);
    assert(Seq::<BlockView>::empty() + sorted =~= sorted);
    lemma_insert_all_sorted(Seq::empty(), sorted);
}

/// What `find_by_hash` finds: a row with that hash when one exists, and in
/// a table with unique hashes the only one.
pub proof fn lemma_find_by_hash(rows: Seq<BlockView>, hash: Seq<char>)
    ensures
        find_by_hash(rows, hash) is Some <==> has_hash(rows, hash),
        find_by_hash(rows, hash) matches Some(row) ==> row.hash == hash && rows.contains(row),
        forall|i: int|
            0 <= i < rows.len() && rows[i].hash == hash && table_ok(rows) ==> find_by_hash(
                rows,
                hash,
            ) == Some(#[trigger] rows[i]),
    decreases rows.len(),
{
    if rows.len() == 0 {
    } else if rows[0].hash == hash {
        assert(rows.contains(rows[0]));
    } else {
        let rest = rows.drop_first();
        lemma_find_by_hash(rest, hash);
        if has_hash(rest, hash) {
            let i = choose|i: int| 0 <= i < rest.len() && rest[i].hash == hash;
            assert(rows[i + 1].hash == hash);
        }
        if has_hash(rows, hash) {
            let i = choose|i: int| 0 <= i < rows.len() && rows[i].hash == hash;
            assert(rest[i - 1].hash == hash);
        }
        if let Some(row) = find_by_hash(rest, hash) {
            let i = choose|i: int| 0 <= i < rest.len() && rest[i] == row;
            assert(rows[i + 1] == row);
        }
        assert forall|i: int|
            0 <= i < rows.len() && rows[i].hash == hash && table_ok(rows) implies find_by_hash(
            rows,
            hash,
        ) == Some(#[trigger] rows[i]) by {
            assert(rest[i - 1] == rows[i]);
            assert forall|a: int, b: int| 0 <= a < b < rest.len() implies rest[a].id < rest[b].id
                && rest[a].hash != rest[b].hash && rest[a].prev_hash != rest[b].prev_hash by {
                assert(rest[a] == rows[a + 1]);
                assert(rest[b] == rows[b + 1]);
            }
        }
    }
}

/// The rows with the payload of every row that has this hash replaced.
pub open spec fn with_data(rows: Seq<BlockView>, hash: Seq<char>, data: Seq<char>) -> Seq<
    BlockView,
> {
    Seq::new(
        rows.len(),
        |i: int|
            if rows[i].hash == hash {
                BlockView { data, ..rows[i] }
            } else {
                rows[i]
            },
    )
}

/// The chain store: the table of blocks.
pub struct ChainStore {
    rows: Vec<Block>,
}

impl View for ChainStore {
    type V = Seq<BlockView>;

    /// The rows as plain values, in the order of their ids.
    closed spec fn view(&self) -> Seq<BlockView> {
        views(self.rows@)
    }
}

fn any_with_hash(rows: &Vec<Block>, hash: &str) -> (found: bool)
    ensures
        found == has_hash(views(rows@), hash@),
{
    let mut i: usize = 0;
    while i < rows.len()
        invariant
            i <= rows.len(),
            forall|k: int| 0 <= k < i ==> views(rows@)[k].hash != hash@,
        decreases rows.len() - i,
    {
        if str_eq(rows[i].hash.as_str(), hash) {
            assert(views(rows@)[i as int].hash == hash@);
            return true;
        }
        i += 1;
    }
    false
}

fn any_with_id(rows: &Vec<Block>, id: i64) -> (found: bool)
    ensures
        found == has_id(views(rows@), id as int),
{
    let mut i: usize = 0;
    while i < rows.len()
        invariant
            i <= rows.len(),
            forall|k: int| 0 <= k < i ==> views(rows@)[k].id != id,
        decreases rows.len() - i,
    {
        if rows[i].id == id {
            assert(views(rows@)[i as int].id == id);
            return true;
        }
        i += 1;
    }
    false
}

fn any_with_prev_hash(rows: &Vec<Block>, prev_hash: &str) -> (found: bool)
    ensures
        found == has_prev_hash(views(rows@), prev_hash@),
{
    let mut i: usize = 0;
    while i < rows.len()
        invariant
            i <= rows.len(),
            forall|k: int| 0 <= k < i ==> views(rows@)[k].prev_hash != prev_hash@,
        decreases rows.len() - i,
    {
        if str_eq(rows[i].prev_hash.as_str(), prev_hash) {
            assert(views(rows@)[i as int].prev_hash == prev_hash@);
            return true;
        }
        i += 1;
    }
    false
}

fn slot(rows: &Vec<Block>, id: i64) -> (k: usize)
    ensures
        k == slot_for(views(rows@), id as int),
        k <= rows.len(),
{
    let mut k: usize = rows.len();
    proof {
        assert(views(rows@).take(k as int) =~= views(rows@));
    }
    while k > 0 && rows[k - 1].id > id
        invariant
            k <= rows.len(),
            slot_for(views(rows@), id as int) == slot_for(views(rows@).take(k as int), id as int),
        decreases k,
    {
        proof {
            let front = views(rows@).take(k as int);
            assert(front.last() == views(rows@)[k - 1]);
            assert(front.drop_last() =~= views(rows@).take(k - 1));
        }
        k -= 1;
    }
    proof {
        let front = views(rows@).take(k as int);
        if k > 0 {
            assert(front.last() == views(rows@)[k - 1]);
        }
    }
    k
}

/// Puts `block` into `rows` behind every row whose id is not greater.
fn insert_ordered(rows: &mut Vec<Block>, block: Block)
    ensures
        views(final(rows)@) == insert_by_id(views(old(rows)@), block@),
{
    let k = slot(rows, block.id);
    proof {
        lemma_insert_by_id_is_insert(views(rows@), block@);
        assert(views(rows@.insert(k as int, block)) =~= views(rows@).insert(k as int, block@));
    }
    rows.insert(k, block);
}

/// Sorts `blocks` by id, ascending; blocks with the same id keep their order.
pub fn sort_blocks(blocks: &mut Vec<Block>)
    ensures
        views(final(blocks)@) == sort_by_id(views(old(blocks)@)),
{
    let mut sorted: Vec<Block> = Vec::new();
    let mut i: usize = 0;
    proof {
        assert(views(blocks@).take(0) =~= Seq::<BlockView>::empty());
        assert(views(sorted@) =~= Seq::<BlockView>::empty());
    }
    while i < blocks.len()
        invariant
            i <= blocks.len(),
            views(sorted@) == sort_by_id(views(blocks@).take(i as int)),
        decreases blocks.len() - i,
    {
        proof {
            let next = views(blocks@).take(i as int + 1);
            assert(next.drop_last() =~= views(blocks@).take(i as int));
            assert(next.last() == blocks@[i as int]@);
        }
        insert_ordered(&mut sorted, blocks[i].clone());
        i += 1;
    }
    proof {
        assert(views(blocks@).take(blocks.len() as int) =~= views(blocks@));
    }
    *blocks = sorted;
}

impl ChainStore {
    /// Whether the rows obey the rules of the table.
    pub open spec fn wf(&self) -> bool {
        table_ok(self@)
    }

    /// An empty store.
    pub fn new() -> (store: ChainStore)
        ensures
            store.wf(),
            store@ == Seq::<BlockView>::empty(),
    {
        let rows: Vec<Block> = Vec::new();
        proof {
            assert(views(rows@) =~= Seq::<BlockView>::empty());
        }
        ChainStore { rows }
    }

    /// The number of blocks.
    pub fn count(&self) -> (n: usize)
        ensures
            n == self@.len(),
    {
        self.rows.len()
    }

    /// The block with this hash.
    pub fn get_by_hash(&self, hash: &str) -> (found: Option<&Block>)
        ensures
            match found {
                Some(block) => find_by_hash(self@, hash@) == Some(block@),
                None => find_by_hash(self@, hash@) is None,
            },
    {
        let mut i: usize = 0;
        proof {
            assert(self@.subrange(0, self@.len() as int) =~= self@);
        }
        while i < self.rows.len()
            invariant
                i <= self.rows.len(),
                self@ == views(self.rows@),
                find_by_hash(self@, hash@) == find_by_hash(
                    self@.subrange(i as int, self@.len() as int),
                    hash@,
                ),
            decreases self.rows.len() - i,
        {
            proof {
                let rest = self@.subrange(i as int, self@.len() as int);
                assert(rest[0] == self.rows@[i as int]@);
                assert(rest.drop_first() =~= self@.subrange(i as int + 1, self@.len() as int));
            }
            if str_eq(self.rows[i].hash.as_str(), hash) {
                return Some(&self.rows[i]);
            }
            i += 1;
        }
        None
    }

    /// The latest block: the one with the greatest id.
    pub fn get_latest(&self) -> (latest: Option<&Block>)
        ensures
            match latest {
                Some(block) => self@.len() > 0 && block@ == self@.last(),
                None => self@.len() == 0,
            },
    {
        let n = self.rows.len();
        if n == 0 {
            None
        } else {
            Some(&self.rows[n - 1])
        }
    }

    /// All blocks, in the order of their ids, ascending.
    pub fn get_ordered(&self) -> (blocks: Vec<Block>)
        ensures
            views(blocks@) == self@,
    {
        let mut blocks: Vec<Block> = Vec::new();
        let mut i: usize = 0;
        while i < self.rows.len()
            invariant
                i <= self.rows.len(),
                views(blocks@) =~= views(self.rows@).take(i as int),
            decreases self.rows.len() - i,
        {
            let copy = self.rows[i].clone();
            proof {
                assert(views(blocks@.push(copy)) =~= views(blocks@).push(copy@));
            }
            blocks.push(copy);
            i += 1;
        }
        proof {
            assert(views(self.rows@).take(self.rows.len() as int) =~= views(self.rows@));
        }
        blocks
    }

    /// Inserts `block`, unless its hash, its id or its predecessor hash is
    /// taken: then the store stays as it is, and the error says which.
    pub fn insert(&mut self, block: Block) -> (done: Result<(), BlockchainError>)
        requires
            old(self).wf(),
        ensures
            final(self).wf(),
            match insert_conflict(old(self)@, block@) {
                Some(conflict) => {
                    &&& done matches Err(e) && e@ == conflict
                    &&& final(self)@ == old(self)@
                },
                None => done is Ok && final(self)@ == insert_by_id(old(self)@, block@),
            },
    {
        if any_with_hash(&self.rows, block.hash.as_str()) {
            return Err(BlockchainError::DatabaseError(String::from_str("duplicate hash")));
        }
        if any_with_id(&self.rows, block.id) {
            return Err(BlockchainError::DatabaseError(String::from_str("duplicate id")));
        }
        if any_with_prev_hash(&self.rows, block.prev_hash.as_str()) {
            return Err(BlockchainError::DatabaseError(String::from_str("duplicate prev_hash")));
        }
        proof {
            lemma_insert_keeps_table_ok(views(self.rows@), block@);
        }
        insert_ordered(&mut self.rows, block);
        Ok(())
    }

    /// Overwrites the payload of the row with this hash, and says whether
    /// there was such a row. Nothing checks the new payload against the
    /// row's hash: a chain with such a row no longer validates.
    pub fn overwrite_data(&mut self, hash: &str, data: String) -> (found: bool)
        requires
            old(self).wf(),
        ensures
            final(self).wf(),
            found == has_hash(old(self)@, hash@),
            final(self)@ == with_data(old(self)@, hash@, data@),
    {
        let mut i: usize = 0;
        while i < self.rows.len()
            invariant
                i <= self.rows.len(),
                *self == *old(self),
                self.wf(),
                forall|k: int| 0 <= k < i ==> self@[k].hash != hash@,
            decreases self.rows.len() - i,
        {
            if str_eq(self.rows[i].hash.as_str(), hash) {
                let ghost before = self@;
                let row = &self.rows[i];
                let changed = Block {
                    hash: row.hash.clone(),
                    id: row.id,
                    prev_hash: row.prev_hash.clone(),
                    timestamp: row.timestamp,
                    nonce: row.nonce,
                    data,
                };
                self.rows.set(i, changed);
                proof {
                    let wanted = with_data(before, hash@, data@);
                    assert(before[i as int].hash == hash@);
                    assert forall|k: int| 0 <= k < before.len() implies self@[k] == wanted[k] by {
                        if k < i {
                            assert(before[k].hash != before[i as int].hash);
                        } else if k > i {
                            assert(before[i as int].hash != before[k].hash);
                        }
                    }
                    assert(self@ =~= wanted);
                    assert forall|a: int, b: int| 0 <= a < b < self@.len() implies self@[a].id
                        < self@[b].id && self@[a].hash != self@[b].hash && self@[a].prev_hash
                        != self@[b].prev_hash by {
                        assert(self@[a].hash == before[a].hash);
                        assert(self@[b].hash == before[b].hash);
                    }
                }
                return true;
            }
            i += 1;
        }
        proof {
            assert(self@ =~= with_data(self@, hash@, data@));
        }
        false
    }

    /// Replaces every row: sorts `blocks` by id, ascending, and inserts them
    /// in that order into an empty table, which becomes the store. If one of
    /// them is refused, the store stays as it is.
    pub fn replace_all(&mut self, blocks: &mut Vec<Block>) -> (done: Result<(), BlockchainError>)
        requires
            old(self).wf(),
        ensures
            final(self).wf(),
            views(final(blocks)@) == sort_by_id(views(old(blocks)@)),
            match insert_all(Seq::empty(), sort_by_id(views(old(blocks)@))) {
                Ok(rows) => done is Ok && final(self)@ == rows,
                Err(conflict) => {
                    &&& done matches Err(e) && e@ == conflict
                    &&& final(self)@ == old(self)@
                },
            },
            done is Ok <==> table_ok(sort_by_id(views(old(blocks)@))),
            done is Ok ==> final(self)@ == sort_by_id(views(old(blocks)@)),
    {
        let ghost before = self@;
        sort_blocks(blocks);
        let ghost sorted = views(blocks@);
        proof {
            lemma_sort_by_id(views(old(blocks)@));
            assert(Seq::<BlockView>::empty() + sorted =~= sorted);
            lemma_insert_all_sorted(Seq::empty(), sorted);
        }
        let mut fresh = ChainStore::new();
        let mut i: usize = 0;
        proof {
            assert(sorted.skip(0) =~= sorted);
        }
        while i < blocks.len()
            invariant
                i <= blocks.len(),
                fresh.wf(),
                self@ == before,
                table_ok(before),
                sorted == views(blocks@),
                sorted == sort_by_id(views(old(blocks)@)),
                table_ok(sorted) ==> insert_all(Seq::empty(), sorted) == Ok::<
                    Seq<BlockView>,
                    ErrorView,
                >(sorted),
                !table_ok(sorted) ==> insert_all(Seq::empty(), sorted) is Err,
                insert_all(Seq::empty(), sorted) == insert_all(fresh@, sorted.skip(i as int)),
            decreases blocks.len() - i,
        {
            proof {
                assert(sorted.skip(i as int)[0] == blocks@[i as int]@);
                assert(sorted.skip(i as int).drop_first() =~= sorted.skip(i as int + 1));
            }
            match fresh.insert(blocks[i].clone()) {
                Ok(()) => {},
                Err(e) => {
                    return Err(e);
                },
            }
            i += 1;
        }
        *self = fresh;
        Ok(())
    }
}

} // verus!
