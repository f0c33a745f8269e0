//! The flush controller: decides when a memtable must be frozen and
//! persisted, which table flushes first, and how flush failures escalate.
//!
//! Triggers are checked after every write and periodically: a table passing
//! the preflush ratio of its write buffer, a space passing its shared
//! ceiling, the database passing its global ceiling, or an explicit request.
//! On a shared-ceiling trigger the busiest table flushes first, oldest
//! entries winning ties, and the oldest frozen memtable of that table goes
//! first (the freeze queue is FIFO). Failures retry up to a ceiling with
//! backoff, then surface as a table-level fatal condition.

use vstd::prelude::*;

verus! {

/// Why a flush was triggered.
#[derive(Clone, Copy, Debug, PartialEq, Eq, Structural)]
pub enum FlushTrigger {
    /// The table's memtable reached the preflush share of its write buffer.
    TableSize,
    /// The space's aggregate write-buffer bytes reached its ceiling.
    SpaceSize,
    /// The database's aggregate write-buffer bytes reached its ceiling.
    DbSize,
    /// An explicit flush request.
    Explicit,
}

/// Whether the table's buffered bytes reached the preflush share of its
/// write-buffer size: `table_bytes >= ratio% of table_write_buffer_size`,
/// in exact integer arithmetic.
pub fn preflush_due(table_bytes: u64, table_write_buffer_size: u64, ratio_percent: u32) -> (b:
    bool)
    requires
        0 < ratio_percent <= 100,
    ensures
        b <==> 100 * table_bytes >= ratio_percent * table_write_buffer_size,
{
    proof {
        assert((ratio_percent as int) * (table_write_buffer_size as int)
            <= 100 * (u64::MAX as int)) by (nonlinear_arith)
            requires
                0 < ratio_percent <= 100,
                table_write_buffer_size <= u64::MAX,
        ;
    }
    let lhs: u128 = 100u128 * (table_bytes as u128);
    let rhs: u128 = (ratio_percent as u128) * (table_write_buffer_size as u128);
    lhs >= rhs
}

/// Checks the flush triggers in their order: table preflush, space ceiling,
/// database ceiling, explicit request. A zero ceiling is disabled.
pub fn check_triggers(
    table_bytes: u64,
    table_write_buffer_size: u64,
    ratio_percent: u32,
    space_bytes: u64,
    space_ceiling: u64,
    db_bytes: u64,
    db_ceiling: u64,
    explicit_request: bool,
) -> (r: Option<FlushTrigger>)
    requires
        0 < ratio_percent <= 100,
    ensures
        r == Some(FlushTrigger::TableSize)
            <==> 100 * table_bytes >= ratio_percent * table_write_buffer_size,
        r == Some(FlushTrigger::SpaceSize)
            <==> (100 * table_bytes < ratio_percent * table_write_buffer_size
                && space_ceiling > 0 && space_bytes >= space_ceiling),
        r == Some(FlushTrigger::DbSize)
            <==> (100 * table_bytes < ratio_percent * table_write_buffer_size
                && !(space_ceiling > 0 && space_bytes >= space_ceiling)
                && db_ceiling > 0 && db_bytes >= db_ceiling),
        r == Some(FlushTrigger::Explicit)
            <==> (100 * table_bytes < ratio_percent * table_write_buffer_size
                && !(space_ceiling > 0 && space_bytes >= space_ceiling)
                && !(db_ceiling > 0 && db_bytes >= db_ceiling)
                && explicit_request),
        r is None
            <==> (100 * table_bytes < ratio_percent * table_write_buffer_size
                && !(space_ceiling > 0 && space_bytes >= space_ceiling)
                && !(db_ceiling > 0 && db_bytes >= db_ceiling)
                && !explicit_request),
{
    if preflush_due(table_bytes, table_write_buffer_size, ratio_percent) {
        Some(FlushTrigger::TableSize)
    } else if space_ceiling > 0 && space_bytes >= space_ceiling {
        Some(FlushTrigger::SpaceSize)
    } else if db_ceiling > 0 && db_bytes >= db_ceiling {
        Some(FlushTrigger::DbSize)
    } else if explicit_request {
        Some(FlushTrigger::Explicit)
    } else {
        None
    }
}

/// What to do after one more flush failure.
#[derive(Clone, Copy, Debug, PartialEq, Eq, Structural)]
pub enum FlushRetryDecision {
    /// Retry with backoff; this will be failure number `attempt`.
    Retry { attempt: usize },
    /// Retries exhausted: the table turns write-unavailable until an
    /// operator acts.
    Fatal,
}

/// Escalates a flush failure: retry while failures stay below the
/// configured ceiling, otherwise fatal. Writes keep accumulating during
/// retries; that bounded risk is the configuration's explicit choice.
pub fn next_flush_retry(failures_so_far: usize, max_retry_flush_limit: usize) -> (d:
    FlushRetryDecision)
    requires
        failures_so_far < usize::MAX,
    ensures
        failures_so_far < max_retry_flush_limit
            ==> d == (FlushRetryDecision::Retry { attempt: (failures_so_far + 1) as usize }),
        failures_so_far >= max_retry_flush_limit ==> d == FlushRetryDecision::Fatal,
{
    if failures_so_far < max_retry_flush_limit {
        FlushRetryDecision::Retry { attempt: failures_so_far + 1 }
    } else {
        FlushRetryDecision::Fatal
    }
}

/// Picks which table flushes first under a shared ceiling: the one with the
/// most buffered bytes; among equals, the earliest listed wins, and tables
/// are listed oldest first.
pub fn pick_flush_victim(bytes_per_table: &Vec<u64>) -> (r: Option<usize>)
    ensures
        r is None <==> bytes_per_table@.len() == 0,
        r is Some ==> {
            let v = r.unwrap() as int;
            &&& 0 <= v < bytes_per_table@.len()
            &&& forall|t: int| 0 <= t < bytes_per_table@.len()
                ==> #[trigger] bytes_per_table@[t] <= bytes_per_table@[v]
            &&& forall|t: int| 0 <= t < v ==> #[trigger] bytes_per_table@[t]
                < bytes_per_table@[v]
        },
{
    if bytes_per_table.len() == 0 {
        return None;
    }
    let mut v: usize = 0;
    let mut i: usize = 1;
    while i < bytes_per_table.len()
        invariant
            0 <= v < i <= bytes_per_table@.len(),
            forall|t: int| 0 <= t < i
                ==> #[trigger] bytes_per_table@[t] <= bytes_per_table@[v as int],
            forall|t: int| 0 <= t < v ==> #[trigger] bytes_per_table@[t]
                < bytes_per_table@[v as int],
        decreases bytes_per_table@.len() - i,
    {
        if bytes_per_table[i] > bytes_per_table[v] {
            v = i;
        }
        i = i + 1;
    }
    Some(v)
}

} // verus!
