//! Proof-of-work mining: the search for a nonce whose hash starts with the
//! difficulty prefix, in one thread or in several that share a counter.

use vstd::prelude::*;
use vstd::rwlock::RwLock;
use vstd::rwlock::RwLockPredicate;
use crate::digest::hash_text;
use crate::digest::hasher;
use crate::digest::lemma_empty_difficulty_always_met;
use crate::digest::meets_difficulty;

verus! {

/// How many nonces a worker claims at a time.
pub const BATCH_SIZE: i64 = 100;

/// The end of the nonce range: nonces below it are searched.
pub const NONCE_LIMIT: i64 = i64::MAX;

/// Whether the hash of the fields with `nonce` starts with `difficulty`.
pub open spec fn nonce_solves(
    prev_hash: Seq<char>,
    data: Seq<char>,
    timestamp: int,
    difficulty: Seq<char>,
    nonce: int,
) -> bool {
    difficulty.is_prefix_of(hash_text(prev_hash, data, timestamp, nonce))
}

/// Whether `(hash, nonce)` is a proof of work for the fields: `hash` is the
/// hash of the fields with `nonce`, and it starts with `difficulty`.
pub open spec fn is_solution(
    prev_hash: Seq<char>,
    data: Seq<char>,
    timestamp: int,
    difficulty: Seq<char>,
    hash: Seq<char>,
    nonce: int,
) -> bool {
    hash == hash_text(prev_hash, data, timestamp, nonce) && difficulty.is_prefix_of(hash)
}

/// Whether no nonce from `lo` up to, not including, `hi` solves.
pub open spec fn none_solves(
    prev_hash: Seq<char>,
    data: Seq<char>,
    timestamp: int,
    difficulty: Seq<char>,
    lo: int,
    hi: int,
) -> bool {
    forall|n: int| lo <= n < hi ==> !nonce_solves(prev_hash, data, timestamp, difficulty, n)
}

/// What a search in ascending order from `start` returns: the first nonce
/// from `start` that solves, with its hash, or nothing when no nonce from
/// `start` below [`NONCE_LIMIT`] solves.
pub open spec fn first_from(
    prev_hash: Seq<char>,
    data: Seq<char>,
    timestamp: int,
    difficulty: Seq<char>,
    start: int,
    found: Option<(String, i64)>,
) -> bool {
    match found {
        Some((hash, nonce)) => {
            &&& start <= nonce < NONCE_LIMIT
            &&& is_solution(prev_hash, data, timestamp, difficulty, hash@, nonce as int)
            &&& none_solves(prev_hash, data, timestamp, difficulty, start, nonce as int)
        },
        None => none_solves(prev_hash, data, timestamp, difficulty, start, NONCE_LIMIT as int),
    }
}

/// The first nonce of the batch in which `nonce` lies: the batches are
/// the nonces 1 to 100, 101 to 200, and so on.
pub open spec fn batch_start(nonce: int) -> int {
    nonce - (nonce - 1) % (BATCH_SIZE as int)
}

/// Tries the nonces from `start` up to, not including, `end`, in order, and
/// returns the first that solves, with its hash.
pub fn search_range(
    prev_hash: &str,
    data: &str,
    timestamp: i64,
    difficulty: &str,
    start: i64,
    end: i64,
) -> (found: Option<(String, i64)>)
    ensures
        match found {
            Some((hash, nonce)) => {
                &&& start <= nonce < end
                &&& is_solution(
                    prev_hash@,
                    data@,
                    timestamp as int,
                    difficulty@,
                    hash@,
                    nonce as int,
                )
                &&& none_solves(
                    prev_hash@,
                    data@,
                    timestamp as int,
                    difficulty@,
                    start as int,
                    nonce as int,
                )
            },
            None => none_solves(
                prev_hash@,
                data@,
                timestamp as int,
                difficulty@,
                start as int,
                end as int,
            ),
        },
{
    let mut nonce: i64 = start;
    while nonce < end
        invariant
            start <= nonce,
            none_solves(
                prev_hash@,
                data@,
                timestamp as int,
                difficulty@,
                start as int,
                nonce as int,
            ),
        decreases end - nonce,
    {
        let hash = hasher(prev_hash, data, timestamp, nonce);
        if meets_difficulty(hash.as_str(), difficulty) {
            return Some((hash, nonce));
        }
        nonce += 1;
    }
    None
}

/// Enumerates the nonces 0, 1, 2, ... in one thread and returns the first
/// that solves, with its hash; `None` when no nonce below [`NONCE_LIMIT`]
/// solves.
pub fn find_hash_sync(prev_hash: &str, data: &str, timestamp: i64, difficulty: &str) -> (found:
    Option<(String, i64)>)
    ensures
        first_from(prev_hash@, data@, timestamp as int, difficulty@, 0, found),
{
    search_range(prev_hash, data, timestamp, difficulty, 0, NONCE_LIMIT)
}

/// What the shared nonce counter may hold: the next unclaimed nonce, which
/// is the first of a batch, or [`NONCE_LIMIT`] when the range is used up.
/// In an easy search, one with the empty difficulty, it stays within one
/// batch for each worker.
pub struct CounterRule {
    pub easy: bool,
    pub workers: int,
}

impl RwLockPredicate<i64> for CounterRule {
    open spec fn inv(self, v: i64) -> bool {
        &&& 1 <= v
        &&& v == NONCE_LIMIT || batch_start(v as int) == v
        &&& self.easy ==> v <= 1 + BATCH_SIZE * self.workers
    }
}

/// What the shared solution slot may hold: nothing yet, or a proof of work
/// for these fields with a nonce from 1 that is the first to solve in its
/// batch. With the empty difficulty the nonce lies in the first batch of one
/// of the workers.
pub struct SolutionRule {
    pub prev_hash: Seq<char>,
    pub data: Seq<char>,
    pub timestamp: int,
    pub difficulty: Seq<char>,
    pub workers: int,
}

impl RwLockPredicate<Option<(String, i64)>> for SolutionRule {
    open spec fn inv(self, v: Option<(String, i64)>) -> bool {
        match v {
            Some((hash, nonce)) => {
                &&& 1 <= nonce < NONCE_LIMIT
                &&& is_solution(
                    self.prev_hash,
                    self.data,
                    self.timestamp,
                    self.difficulty,
                    hash@,
                    nonce as int,
                )
                &&& none_solves(
                    self.prev_hash,
                    self.data,
                    self.timestamp,
                    self.difficulty,
                    batch_start(nonce as int),
                    nonce as int,
                )
                &&& self.difficulty.len() == 0 ==> nonce < BATCH_SIZE * self.workers
            },
            None => true,
        }
    }
}

/// The cells that the workers of one search share: the counter from which
/// they claim batches, and the slot for the first solution published.
pub struct SharedSearch {
    next_nonce: RwLock<i64, CounterRule>,
    solution: RwLock<Option<(String, i64)>, SolutionRule>,
    /// Whether the difficulty is empty, so that every nonce solves.
    easy: bool,
    /// The nonce behind one batch for each worker.
    cap: i64,
}

/// The nonce behind one batch for each of the workers, or [`NONCE_LIMIT`]
/// where that lies beyond it.
pub open spec fn cap_for(workers: int) -> int {
    if 1 + BATCH_SIZE * workers <= NONCE_LIMIT {
        1 + BATCH_SIZE * workers
    } else {
        NONCE_LIMIT as int
    }
}

impl SharedSearch {
    /// The number of workers of the search.
    pub closed spec fn workers(&self) -> int {
        self.solution.pred().workers
    }

    /// Whether the cells belong to a search for these fields.
    pub closed spec fn serves(
        &self,
        prev_hash: Seq<char>,
        data: Seq<char>,
        timestamp: int,
        difficulty: Seq<char>,
    ) -> bool {
        &&& self.solution.pred() == (SolutionRule {
            prev_hash,
            data,
            timestamp,
            difficulty,
            workers: self.workers(),
        })
        &&& self.next_nonce.pred() == (CounterRule { easy: self.easy, workers: self.workers() })
        &&& self.easy == (difficulty.len() == 0)
        &&& self.workers() >= 1
        &&& self.cap == cap_for(self.workers())
    }

    fn new(
        Ghost(prev_hash): Ghost<Seq<char>>,
        Ghost(data): Ghost<Seq<char>>,
        Ghost(timestamp): Ghost<int>,
        difficulty: &str,
        threads: usize,
    ) -> (shared: SharedSearch)
        requires
            threads >= 1,
        ensures
            shared.serves(prev_hash, data, timestamp, difficulty@),
            shared.workers() == threads,
    {
        let easy = difficulty.is_empty();
        let cap = if threads as u128 > 92233720368547758u128 {
            NONCE_LIMIT
        } else {
            1 + BATCH_SIZE * (threads as i64)
        };
        SharedSearch {
            next_nonce: RwLock::new(1, Ghost(CounterRule { easy, workers: threads as int })),
            solution: RwLock::new(
                None,
                Ghost(
                    SolutionRule {
                        prev_hash,
                        data,
                        timestamp,
                        difficulty: difficulty@,
                        workers: threads as int,
                    },
                ),
            ),
            easy,
            cap,
        }
    }

    /// Claims the next batch of nonces by moving the counter past it. The
    /// batch is empty once the range is used up, and in an easy search once
    /// a batch has been claimed for each worker: there the first nonce of a
    /// batch solves, so that no worker comes for a second one.
    fn claim_batch(&self) -> (batch: (i64, i64))
        requires
            self.next_nonce.pred() == (CounterRule { easy: self.easy, workers: self.workers() }),
            self.cap == cap_for(self.workers()),
        ensures
            1 <= batch.0 <= batch.1 <= NONCE_LIMIT,
            batch.1 - batch.0 <= BATCH_SIZE,
            batch.0 == batch.1 || batch_start(batch.0 as int) == batch.0,
            self.easy ==> batch.1 <= 1 + BATCH_SIZE * self.workers(),
    {
        let (next, handle) = self.next_nonce.acquire_write();
        if self.easy && next >= self.cap {
            handle.release_write(next);
            return (next, next);
        }
        let (start, end) = next_batch(next);
        proof {
            lemma_next_batch_starts_a_batch(start as int, end as int);
            if self.easy && self.cap < NONCE_LIMIT {
                lemma_batch_below(start as int, self.workers());
            }
        }
        handle.release_write(end);
        (start, end)
    }

    /// Publishes a solution unless one was published before.
    fn publish(&self, hash: String, nonce: i64)
        requires
            self.solution.inv(Some((hash, nonce))),
    {
        let (current, handle) = self.solution.acquire_write();
        handle.release_write(first_writer_wins(current, (hash, nonce)));
    }

    /// Whether a solution stood in the slot when it was read: it says so only
    /// when a nonce of the search solves. A solution that another worker
    /// publishes later is not seen.
    fn is_solved(&self) -> (solved: bool)
        ensures
            forall|prev_hash: Seq<char>, data: Seq<char>, timestamp: int, difficulty: Seq<char>|
                solved && #[trigger] self.serves(prev_hash, data, timestamp, difficulty)
                    ==> exists|nonce: int|
                    1 <= nonce < NONCE_LIMIT && nonce_solves(
                        prev_hash,
                        data,
                        timestamp,
                        difficulty,
                        nonce,
                    ),
    {
        let handle = self.solution.acquire_read();
        let solved = handle.borrow().is_some();
        proof {
            if solved {
                let (hash, nonce) = handle.view()->0;
                assert(handle.view() == Some((hash, nonce)));
                assert forall|
                    prev_hash: Seq<char>,
                    data: Seq<char>,
                    timestamp: int,
                    difficulty: Seq<char>,
                | #[trigger] self.serves(prev_hash, data, timestamp, difficulty) implies exists|
                    n: int,
                |
                    1 <= n < NONCE_LIMIT && nonce_solves(
                        prev_hash,
                        data,
                        timestamp,
                        difficulty,
                        n,
                    ) by {
                    assert(nonce_solves(prev_hash, data, timestamp, difficulty, nonce as int));
                }
            }
        }
        handle.release_read();
        solved
    }

    /// Ends the search and hands out what was published.
    fn into_solution(self) -> (found: Option<(String, i64)>)
        ensures
            self.solution.inv(found),
    {
        self.solution.into_inner()
    }
}

/// The batch that a worker claims when the counter stands at `next`, as
/// `(start, end)` for the nonces from `start` up to, not including, `end`:
/// [`BATCH_SIZE`] nonces, or those that are left below [`NONCE_LIMIT`].
pub fn next_batch(next: i64) -> (batch: (i64, i64))
    ensures
        batch.0 == next,
        batch.1 == if next + BATCH_SIZE <= NONCE_LIMIT {
            next + BATCH_SIZE
        } else {
            NONCE_LIMIT as int
        },
{
    if next > NONCE_LIMIT - BATCH_SIZE {
        (next, NONCE_LIMIT)
    } else {
        (next, next + BATCH_SIZE)
    }
}

/// The solution slot after a worker offers `candidate`: the first solution
/// published stays.
pub fn first_writer_wins(current: Option<(String, i64)>, candidate: (String, i64)) -> (slot:
    Option<(String, i64)>)
    ensures
        slot == if current is Some {
            current
        } else {
            Some(candidate)
        },
{
    match current {
        Some(first) => Some(first),
        None => Some(candidate),
    }
}

/// A nonce that lies less than a batch behind the first nonce of a batch
/// lies in that batch.
pub proof fn lemma_batch_of(start: int, nonce: int)
    requires
        1 <= start,
        batch_start(start) == start,
        start <= nonce < start + BATCH_SIZE,
    ensures
        batch_start(nonce) == start,
{
    assert((start - 1) % 100 == 0);
    assert((nonce - 1) % 100 == nonce - start) by (nonlinear_arith)
        requires
            (start - 1) % 100 == 0,
            0 <= nonce - start < 100,
            1 <= start,
    ;
}

/// The batch after one that starts a batch starts a batch, unless it is
/// cut off at [`NONCE_LIMIT`].
proof fn lemma_next_batch_starts_a_batch(start: int, end: int)
    requires
        1 <= start,
        start == NONCE_LIMIT || batch_start(start) == start,
        end == if start + BATCH_SIZE <= NONCE_LIMIT {
            start + BATCH_SIZE
        } else {
            NONCE_LIMIT as int
        },
    ensures
        end == NONCE_LIMIT || batch_start(end) == end,
{
    if end != NONCE_LIMIT {
        assert((start - 1) % 100 == 0);
        assert((start + 100 - 1) % 100 == 0) by (nonlinear_arith)
            requires
                (start - 1) % 100 == 0,
                1 <= start,
        ;
    }
}

/// The first nonce of a batch that lies below the nonce behind `count`
/// batches lies a whole batch below it.
proof fn lemma_batch_below(start: int, count: int)
    requires
        1 <= start < 1 + BATCH_SIZE * count,
        batch_start(start) == start,
    ensures
        start + BATCH_SIZE <= 1 + BATCH_SIZE * count,
{
    assert((start - 1) % 100 == 0);
    assert(start + 100 <= 1 + 100 * count) by (nonlinear_arith)
        requires
            (start - 1) % 100 == 0,
            1 <= start < 1 + 100 * count,
    ;
}

/// The first nonce from 1 that solves is the first that solves in its batch.
pub proof fn lemma_first_is_first_in_batch(
    prev_hash: Seq<char>,
    data: Seq<char>,
    timestamp: int,
    difficulty: Seq<char>,
    nonce: int,
)
    requires
        1 <= nonce,
        none_solves(prev_hash, data, timestamp, difficulty, 1, nonce),
    ensures
        1 <= batch_start(nonce) <= nonce,
        none_solves(prev_hash, data, timestamp, difficulty, batch_start(nonce), nonce),
{
    assert(0 <= (nonce - 1) % 100 <= nonce - 1) by (nonlinear_arith)
        requires
            1 <= nonce,
    ;
}

/// One worker of a parallel search: claims batch after batch from the shared
/// counter, searches each, publishes the first solution of a batch, and stops
/// after the batch in which a solution is published, or when the range is
/// used up.
fn mine_worker(
    prev_hash: &str,
    data: &str,
    timestamp: i64,
    difficulty: &str,
    shared: &SharedSearch,
)
    requires
        shared.serves(prev_hash@, data@, timestamp as int, difficulty@),
{
    let mut searched_below: i64 = 1;
    loop
        invariant
            1 <= searched_below <= NONCE_LIMIT,
            shared.serves(prev_hash@, data@, timestamp as int, difficulty@),
        decreases NONCE_LIMIT - searched_below,
    {
        let (start, end) = shared.claim_batch();
        if start < searched_below || start >= end {
            break ;
        }
        searched_below = end;
        match search_range(prev_hash, data, timestamp, difficulty, start, end) {
            Some((hash, nonce)) => {
                proof {
                    lemma_batch_of(start as int, nonce as int);
                    if difficulty@.len() == 0 {
                        lemma_empty_difficulty_always_met(
                            hash_text(prev_hash@, data@, timestamp as int, start as int),
                        );
                        assert(difficulty@ =~= Seq::<char>::empty());
                        assert(nonce_solves(
                            prev_hash@,
                            data@,
                            timestamp as int,
                            difficulty@,
                            start as int,
                        ));
                        assert(nonce == start);
                        lemma_batch_below(start as int, shared.workers());
                    }
                }
                shared.publish(hash, nonce);
            },
            None => {},
        }
        if shared.is_solved() {
            break ;
        }
    }
}

/// The scope of `crossbeam`, in which threads are started that may borrow
/// from the caller and that have all ended when the scope ends.
#[verifier::external_type_specification]
#[verifier::external_body]
pub struct ExScope<'env>(crossbeam::thread::Scope<'env>);

/// Calls `spawn` on the `builder` of the scope, with a closure that calls
/// [`mine_worker`] on the shared cells: one more worker thread. Trusted:
/// nothing is claimed of what the worker does; when the thread cannot be
/// started, there is no worker.
#[verifier::external_body]
fn start_worker<'env>(
    scope: &crossbeam::thread::Scope<'env>,
    prev_hash: &'env str,
    data: &'env str,
    timestamp: i64,
    difficulty: &'env str,
    shared: &'env SharedSearch,
)
    requires
        shared.serves(prev_hash@, data@, timestamp as int, difficulty@),
{
    let _ = scope.builder().spawn(
        move |_| mine_worker(prev_hash, data, timestamp, difficulty, shared),
    );
}

/// Starts `threads` workers in the scope.
fn start_workers<'env>(
    scope: &crossbeam::thread::Scope<'env>,
    prev_hash: &'env str,
    data: &'env str,
    timestamp: i64,
    difficulty: &'env str,
    shared: &'env SharedSearch,
    threads: usize,
)
    requires
        shared.serves(prev_hash@, data@, timestamp as int, difficulty@),
{
    let mut started: usize = 0;
    while started < threads
        invariant
            shared.serves(prev_hash@, data@, timestamp as int, difficulty@),
        decreases threads - started,
    {
        start_worker(scope, prev_hash, data, timestamp, difficulty, shared);
        started += 1;
    }
}

/// Calls `crossbeam::scope` with a closure that calls [`start_workers`], and
/// returns when the scope has ended: when every worker that was started has
/// ended. Trusted: nothing is claimed of what the workers did.
#[verifier::external_body]
fn run_workers(
    prev_hash: &str,
    data: &str,
    timestamp: i64,
    difficulty: &str,
    shared: &SharedSearch,
    threads: usize,
)
    requires
        shared.serves(prev_hash@, data@, timestamp as int, difficulty@),
{
    let _ = crossbeam::scope(
        |scope| start_workers(scope, prev_hash, data, timestamp, difficulty, shared, threads),
    );
}

/// Searches for a proof of work with `threads` workers in parallel, over the
/// nonces from 1: nonce 0 is never reported.
///
/// The workers share a counter, from which each claims [`BATCH_SIZE`] nonces
/// at a time, and a slot, into which the first to find a solution publishes
/// the first of its batch. Which solution is returned depends on the race. A
/// single worker is the calling thread itself, which takes the batches in
/// order and so returns the first nonce that solves. If several workers end
/// without a solution, as when no thread could be started, the calling
/// thread searches the range itself, so `None` means that no nonce from 1
/// below [`NONCE_LIMIT`] solves.
pub fn find_hash(
    prev_hash: &str,
    data: &str,
    timestamp: i64,
    difficulty: &str,
    threads: usize,
) -> (found: Option<(String, i64)>)
    requires
        threads >= 1,
    ensures
        mined(prev_hash@, data@, timestamp as int, difficulty@, threads as int, found),
        threads == 1 ==> first_from(prev_hash@, data@, timestamp as int, difficulty@, 1, found),
{
    if threads > 1 {
        let shared = SharedSearch::new(
            Ghost(prev_hash@),
            Ghost(data@),
            Ghost(timestamp as int),
            difficulty,
            threads,
        );
        run_workers(prev_hash, data, timestamp, difficulty, &shared, threads);
        match shared.into_solution() {
            Some(solution) => {
                return Some(solution);
            },
            None => {},
        }
    }
    let found = search_range(prev_hash, data, timestamp, difficulty, 1, NONCE_LIMIT);
    proof {
        if found is Some {
            let solution = found.unwrap();
            lemma_first_is_first_in_batch(
                prev_hash@,
                data@,
                timestamp as int,
                difficulty@,
                solution.1 as int,
            );
            if difficulty@.len() == 0 {
                lemma_empty_difficulty_always_met(
                    hash_text(prev_hash@, data@, timestamp as int, 1),
                );
                assert(difficulty@ =~= Seq::<char>::empty());
                assert(nonce_solves(prev_hash@, data@, timestamp as int, difficulty@, 1));
            }
        }
    }
    found
}

/// What a search with `threads` workers may return: a proof of work with a
/// nonce from 1 that is the first to solve in its batch, or nothing when no
/// nonce from 1 below [`NONCE_LIMIT`] solves. With the empty difficulty the
/// nonce lies in one of the first `threads` batches.
pub open spec fn mined(
    prev_hash: Seq<char>,
    data: Seq<char>,
    timestamp: int,
    difficulty: Seq<char>,
    threads: int,
    found: Option<(String, i64)>,
) -> bool {
    match found {
        Some((hash, nonce)) => {
            &&& 1 <= nonce < NONCE_LIMIT
            &&& is_solution(prev_hash, data, timestamp, difficulty, hash@, nonce as int)
            &&& none_solves(
                prev_hash,
                data,
                timestamp,
                difficulty,
                batch_start(nonce as int),
                nonce as int,
            )
            &&& difficulty.len() == 0 ==> nonce < BATCH_SIZE * threads
        },
        None => none_solves(prev_hash, data, timestamp, difficulty, 1, NONCE_LIMIT as int),
    }
}

/// The number of workers does not matter to what a search is worth: two
/// searches for the same fields, with whatever worker counts, both return a
/// proof of work or both return nothing. The nonces may differ.
pub proof fn lemma_worker_count_is_immaterial(
    prev_hash: Seq<char>,
    data: Seq<char>,
    timestamp: int,
    difficulty: Seq<char>,
    threads: int,
    first: Option<(String, i64)>,
    other_threads: int,
    second: Option<(String, i64)>,
)
    requires
        mined(prev_hash, data, timestamp, difficulty, threads, first),
        mined(prev_hash, data, timestamp, difficulty, other_threads, second),
    ensures
        first is Some <==> second is Some,
        first matches Some((hash, nonce)) ==> is_solution(
            prev_hash,
            data,
            timestamp,
            difficulty,
            hash@,
            nonce as int,
        ),
        second matches Some((hash, nonce)) ==> is_solution(
            prev_hash,
            data,
            timestamp,
            difficulty,
            hash@,
            nonce as int,
        ),
{
    if let Some((hash, nonce)) = first {
        assert(nonce_solves(prev_hash, data, timestamp, difficulty, nonce as int));
    }
    if let Some((hash, nonce)) = second {
        assert(nonce_solves(prev_hash, data, timestamp, difficulty, nonce as int));
    }
}

/// With the empty difficulty every nonce solves, so a search returns at
/// once: always a proof of work, whose nonce is the first of one of the
/// first `threads` batches, the first nonce that a worker hashed.
pub proof fn lemma_empty_difficulty_is_always_mined(
    prev_hash: Seq<char>,
    data: Seq<char>,
    timestamp: int,
    threads: int,
    found: Option<(String, i64)>,
)
    requires
        mined(prev_hash, data, timestamp, Seq::empty(), threads, found),
    ensures
        found matches Some((hash, nonce)) && batch_start(nonce as int) == nonce && nonce
            < BATCH_SIZE * threads,
        forall|nonce: int| nonce_solves(prev_hash, data, timestamp, Seq::empty(), nonce),
{
    assert forall|nonce: int| nonce_solves(prev_hash, data, timestamp, Seq::empty(), nonce) by {
        lemma_empty_difficulty_always_met(hash_text(prev_hash, data, timestamp, nonce));
    }
    assert(nonce_solves(prev_hash, data, timestamp, Seq::empty(), 1));
    let solution = found.unwrap();
    let nonce = solution.1 as int;
    assert(0 <= (nonce - 1) % 100 <= nonce - 1) by (nonlinear_arith)
        requires
            1 <= nonce,
    ;
    assert(nonce_solves(prev_hash, data, timestamp, Seq::empty(), batch_start(nonce)));
}

/// With the empty difficulty a single worker returns the first nonce that
/// it hashes, which is 1.
pub proof fn lemma_empty_difficulty_one_worker(
    prev_hash: Seq<char>,
    data: Seq<char>,
    timestamp: int,
    found: Option<(String, i64)>,
)
    requires
        first_from(prev_hash, data, timestamp, Seq::empty(), 1, found),
    ensures
        found matches Some((hash, nonce)) && nonce == 1 && hash@ == hash_text(
            prev_hash,
            data,
            timestamp,
            1,
        ),
{
    lemma_empty_difficulty_always_met(hash_text(prev_hash, data, timestamp, 1));
    assert(nonce_solves(prev_hash, data, timestamp, Seq::empty(), 1));
}

/// A single worker returns what the search in one thread returns, where
/// nonce 0, which only that search tries, does not solve.
pub proof fn lemma_one_worker_is_the_sequential_search(
    prev_hash: Seq<char>,
    data: Seq<char>,
    timestamp: int,
    difficulty: Seq<char>,
    parallel: Option<(String, i64)>,
    sequential: Option<(String, i64)>,
)
    requires
        first_from(prev_hash, data, timestamp, difficulty, 1, parallel),
        first_from(prev_hash, data, timestamp, difficulty, 0, sequential),
        !nonce_solves(prev_hash, data, timestamp, difficulty, 0),
    ensures
        parallel is Some <==> sequential is Some,
        parallel matches Some((hash, nonce)) ==> sequential matches Some((other, same))
            && same == nonce && other@ == hash@,
{
    if let Some((hash, nonce)) = parallel {
        assert(nonce_solves(prev_hash, data, timestamp, difficulty, nonce as int));
    }
    if let Some((hash, nonce)) = sequential {
        assert(nonce_solves(prev_hash, data, timestamp, difficulty, nonce as int));
    }
}

} // verus!
