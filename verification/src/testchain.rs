//! The plan by which a test chain is generated: the blocks come in batches of at most
//! `TESTCHAIN_BATCH_SIZE`, the blocks below the latest consensus-version height carry no
//! transactions, and the transactions are spread evenly over the other blocks.
use vstd::prelude::*;

verus! {

/// The most blocks generated in one batch.
pub const TESTCHAIN_BATCH_SIZE: usize = 100;

/// The number of transactions in each block at or above the latest consensus-version
/// height `latest`: the transactions divided by the number of such blocks.
pub open spec fn txns_per_block(num_blocks: int, latest: int, num_txs: int) -> int {
    num_txs / (num_blocks - latest)
}

/// The number of batches: the blocks divided by the batch size, rounded up.
pub open spec fn num_batches(num_blocks: int) -> int {
    (num_blocks + TESTCHAIN_BATCH_SIZE - 1) / TESTCHAIN_BATCH_SIZE as int
}

/// The height at which batch `k` starts.
pub open spec fn batch_start(k: int) -> int {
    TESTCHAIN_BATCH_SIZE * k
}

/// The number of blocks of batch `k`: the batch size, or what is left.
pub open spec fn batch_size(num_blocks: int, k: int) -> int {
    if num_blocks - batch_start(k) < TESTCHAIN_BATCH_SIZE {
        num_blocks - batch_start(k)
    } else {
        TESTCHAIN_BATCH_SIZE as int
    }
}

/// The number of blocks of batch `k` below the height `latest`.
pub open spec fn batch_empty_blocks(num_blocks: int, latest: int, k: int) -> int {
    let empty = if latest > batch_start(k) {
        latest - batch_start(k)
    } else {
        0
    };
    if empty < batch_size(num_blocks, k) {
        empty
    } else {
        batch_size(num_blocks, k)
    }
}

/// The number of transactions of batch `k`: those of its blocks at or above `latest`.
pub open spec fn batch_txns(num_blocks: int, latest: int, num_txs: int, k: int) -> int {
    (batch_size(num_blocks, k) - batch_empty_blocks(num_blocks, latest, k)) * txns_per_block(
        num_blocks,
        latest,
        num_txs,
    )
}

/// The blocks of the first `k` batches.
pub open spec fn planned_blocks(num_blocks: int, k: int) -> int
    decreases k,
{
    if k <= 0 {
        0
    } else {
        planned_blocks(num_blocks, k - 1) + batch_size(num_blocks, k - 1)
    }
}

/// The transactions of the first `k` batches.
pub open spec fn planned_txns(num_blocks: int, latest: int, num_txs: int, k: int) -> int
    decreases k,
{
    if k <= 0 {
        0
    } else {
        planned_txns(num_blocks, latest, num_txs, k - 1) + batch_txns(num_blocks, latest, num_txs, k - 1)
    }
}

/// What the first `k` batches hold, up to the last batch: the blocks below the end of
/// batch `k - 1`, and the transactions of those at or above `latest`.
proof fn lemma_planned_prefix(num_blocks: int, latest: int, num_txs: int, k: int)
    requires
        0 <= latest < num_blocks,
        0 <= num_txs,
        0 <= k,
        k == 0 || batch_start(k - 1) < num_blocks,
    ensures
        ({
            let end = if batch_start(k) < num_blocks {
                batch_start(k)
            } else {
                num_blocks
            };
            &&& planned_blocks(num_blocks, k) == end
            &&& planned_txns(num_blocks, latest, num_txs, k) == (if end > latest {
                end - latest
            } else {
                0
            }) * txns_per_block(num_blocks, latest, num_txs)
        }),
    decreases k,
{
    if k > 0 {
        lemma_planned_prefix(num_blocks, latest, num_txs, k - 1);
        let t = txns_per_block(num_blocks, latest, num_txs);
        let s = batch_start(k - 1);
        let before: int = if s > latest {
            s - latest
        } else {
            0
        };
        let end = if batch_start(k) < num_blocks {
            batch_start(k)
        } else {
            num_blocks
        };
        let after: int = if end > latest {
            end - latest
        } else {
            0
        };
        let added = batch_size(num_blocks, k - 1) - batch_empty_blocks(num_blocks, latest, k - 1);
        assert(after == before + added);
        assert(after * t == before * t + added * t) by (nonlinear_arith)
            requires
                after == before + added,
        ;
    }
}

/// The whole plan holds every block and every transaction, where the number of blocks at
/// or above `latest` divides the number of transactions.
pub proof fn lemma_testchain_plan_totals(num_blocks: int, latest: int, num_txs: int)
    requires
        0 <= latest < num_blocks,
        0 <= num_txs,
        num_txs % (num_blocks - latest) == 0,
    ensures
        planned_blocks(num_blocks, num_batches(num_blocks)) == num_blocks,
        planned_txns(num_blocks, latest, num_txs, num_batches(num_blocks)) == num_txs,
{
    let k = num_batches(num_blocks);
    assert(k > 0 && batch_start(k - 1) < num_blocks && batch_start(k) >= num_blocks);
    lemma_planned_prefix(num_blocks, latest, num_txs, k);
    let d = num_blocks - latest;
    assert(d * (num_txs / d) == num_txs) by (nonlinear_arith)
        requires
            d > 0,
            num_txs % d == 0,
    ;
}

/// The batches in which to generate `num_blocks` blocks from `num_txs` transactions, the
/// latest consensus-version height being `latest`: for each batch, its number of blocks
/// and of transactions. There must be blocks at or above `latest`, and their number must
/// divide the number of transactions (else the transactions would run out).
pub fn testchain_batch_plan(num_blocks: usize, latest: usize, num_txs: usize) -> (r: Vec<(usize, usize)>)
    requires
        latest < num_blocks,
        num_txs % (num_blocks - latest) as usize == 0,
    ensures
        r@.len() == num_batches(num_blocks as int),
        forall|k: int|
            0 <= k < r@.len() ==> #[trigger] r@[k] == (
                batch_size(num_blocks as int, k) as usize,
                batch_txns(num_blocks as int, latest as int, num_txs as int, k) as usize,
            ),
{
    let txn_blocks = num_blocks - latest;
    let per_block = num_txs / txn_blocks;
    let mut r: Vec<(usize, usize)> = Vec::new();
    let mut current: usize = 0;
    let mut k: usize = 0;
    while current < num_blocks
        invariant
            latest < num_blocks,
            txn_blocks == num_blocks - latest,
            per_block == txns_per_block(num_blocks as int, latest as int, num_txs as int),
            num_txs % txn_blocks as usize == 0,
            r@.len() == k,
            current == if batch_start(k as int) < num_blocks {
                batch_start(k as int)
            } else {
                num_blocks as int
            },
            k == 0 || batch_start(k - 1) < num_blocks,
            forall|j: int|
                0 <= j < k ==> #[trigger] r@[j] == (
                    batch_size(num_blocks as int, j) as usize,
                    batch_txns(num_blocks as int, latest as int, num_txs as int, j) as usize,
                ),
        decreases num_blocks - current,
    {
        let left = num_blocks - current;
        let size = if left < TESTCHAIN_BATCH_SIZE {
            left
        } else {
            TESTCHAIN_BATCH_SIZE
        };
        let empty = latest.saturating_sub(current);
        let filled = size.saturating_sub(empty);
        assert(filled <= txn_blocks);
        assert(filled * per_block <= txn_blocks * per_block) by (nonlinear_arith)
            requires
                filled <= txn_blocks,
                0 <= per_block,
        ;
        assert(txn_blocks * per_block == num_txs) by (nonlinear_arith)
            requires
                txn_blocks > 0,
                per_block == num_txs as int / txn_blocks as int,
                num_txs as int % txn_blocks as int == 0,
        ;
        let txns = filled * per_block;
        assert(batch_start(k as int) == current);
        r.push((size, txns));
        current = current + size;
        k = k + 1;
    }
    assert(batch_start(k - 1) < num_blocks && batch_start(k as int) >= num_blocks);
    r
}

} // verus!
