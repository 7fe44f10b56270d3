//! The batched cleanup engine, modelled over the rows' timestamps.
//!
//! A table pass works on one fixed cutoff: rows strictly older than the
//! cutoff are eligible. Each transaction deletes at most one batch of
//! eligible rows (all of them in unbounded mode), and the pass ends at the
//! first transaction that deletes nothing, or after one transaction in
//! unbounded mode. A fault injected at a transaction rolls that transaction
//! back: nothing it would have deleted is visible, and the pass reports the
//! corresponding error. Tables are processed independently: one table's
//! failure never keeps a later table from running.
use vstd::prelude::*;

verus! {

broadcast use {vstd::seq_lib::group_filter_ensures, vstd::seq::Seq::lemma_filter_push};

/// How a table pass can fail.
#[derive(Clone, Copy, Debug, PartialEq, Eq, Structural)]
pub enum CleanupError {
    /// A database step exceeded the configured timeout.
    TimedOut,
    /// The database rejected or errored on the statement.
    ExecutionFailed,
    /// The connection could not be established at all (fatal to the run).
    ConnectionFailed,
}

/// A fault injected into one transaction of a pass.
#[derive(Clone, Copy, Debug, PartialEq, Eq, Structural)]
pub enum FaultKind {
    /// The transaction runs normally.
    NoFault,
    /// A step of the transaction times out.
    Timeout,
    /// The database errors on the statement.
    DbError,
}

/// What one finished pass reports.
#[derive(Clone, Copy, Debug, PartialEq, Eq, Structural)]
pub struct CleanupReport {
    /// Rows removed over the whole pass.
    pub total_deleted: u64,
    /// Delete statements executed, the final empty one included.
    pub transactions: u64,
}

pub open spec fn min_int(a: int, b: int) -> int {
    if a <= b {
        a
    } else {
        b
    }
}

/// The rows a pass must keep: timestamp at or after the cutoff.
pub open spec fn surviving(rows: Seq<i64>, cutoff: i64) -> Seq<i64> {
    rows.filter(|t: i64| t >= cutoff)
}

/// The rows eligible for deletion: timestamp strictly before the cutoff.
pub open spec fn doomed(rows: Seq<i64>, cutoff: i64) -> Seq<i64> {
    rows.filter(|t: i64| t < cutoff)
}

pub open spec fn eligible_count(rows: Seq<i64>, cutoff: i64) -> int {
    doomed(rows, cutoff).len() as int
}

/// The cutoff comparison is strict: a row exactly at the cutoff survives,
/// and every strictly older row is eligible.
pub proof fn lemma_cutoff_is_strict(rows: Seq<i64>, cutoff: i64)
    ensures
        forall|j: int|
            0 <= j < surviving(rows, cutoff).len() ==> #[trigger] surviving(rows, cutoff)[j]
                >= cutoff,
        forall|j: int|
            0 <= j < doomed(rows, cutoff).len() ==> #[trigger] doomed(rows, cutoff)[j] < cutoff,
        forall|i: int|
            0 <= i < rows.len() && rows[i] >= cutoff ==> surviving(rows, cutoff).contains(
                #[trigger] rows[i],
            ),
        forall|i: int|
            0 <= i < rows.len() && rows[i] < cutoff ==> doomed(rows, cutoff).contains(
                #[trigger] rows[i],
            ),
{
}

/// A sequence with no eligible rows is exactly its surviving part.
pub proof fn lemma_all_surviving(rows: Seq<i64>, cutoff: i64)
    requires
        doomed(rows, cutoff).len() == 0,
    ensures
        rows == surviving(rows, cutoff),
    decreases rows.len(),
{
    if rows.len() == 0 {
        assert(rows =~= surviving(rows, cutoff)) by {
            Seq::lemma_filter_len(rows, |t: i64| t >= cutoff);
        }
    } else {
        let p = rows.drop_last();
        let x = rows.last();
        assert(rows =~= p.push(x));
        if x < cutoff {
            assert(doomed(rows, cutoff) == doomed(p, cutoff).push(x));
        } else {
            lemma_all_surviving(p, cutoff);
        }
    }
}

/// One delete statement against the rows: removes up to `limit` eligible rows
/// (all of them when `limit <= 0`) and returns how many rows it affected.
/// Ineligible rows are untouched, and the rows removed are always the first
/// eligible ones in sequence order — a deterministic batch selection under
/// which no row can be selected twice across the batches of one pass.
pub fn delete_batch(rows: &mut Vec<i64>, cutoff: i64, limit: i64) -> (deleted: u64)
    ensures
        surviving(final(rows)@, cutoff) == surviving(old(rows)@, cutoff),
        doomed(final(rows)@, cutoff) == doomed(old(rows)@, cutoff).skip(deleted as int),
        deleted as int == if limit <= 0 {
            eligible_count(old(rows)@, cutoff)
        } else {
            min_int(limit as int, eligible_count(old(rows)@, cutoff))
        },
{
    let n = rows.len();
    let mut out: Vec<i64> = Vec::new();
    let mut deleted: u64 = 0;
    let mut i: usize = 0;
    while i < n
        invariant
            rows@ == old(rows)@,
            n == rows@.len(),
            0 <= i <= n,
            deleted <= i,
            deleted as int == (if limit <= 0 {
                eligible_count(rows@.subrange(0, i as int), cutoff)
            } else {
                min_int(limit as int, eligible_count(rows@.subrange(0, i as int), cutoff))
            }),
            surviving(out@, cutoff) == surviving(rows@.subrange(0, i as int), cutoff),
            doomed(out@, cutoff) == doomed(rows@.subrange(0, i as int), cutoff).skip(
                deleted as int,
            ),
        decreases n - i,
    {
        let t = rows[i];
        let ghost pref = rows@.subrange(0, i as int);
        let ghost prefc = rows@.subrange(0, i as int + 1);
        proof {
            assert(prefc =~= pref.push(t));
            assert(doomed(pref, cutoff).len() <= pref.len());
        }
        if t < cutoff && (limit <= 0 || deleted < limit as u64) {
            proof {
                assert(deleted as int == doomed(pref, cutoff).len());
                assert(doomed(prefc, cutoff) == doomed(pref, cutoff).push(t));
                assert(doomed(prefc, cutoff).skip(deleted as int + 1) =~= doomed(out@, cutoff));
            }
            deleted = deleted + 1;
        } else {
            out.push(t);
            proof {
                if t < cutoff {
                    assert(doomed(prefc, cutoff) == doomed(pref, cutoff).push(t));
                    assert(deleted as int <= doomed(pref, cutoff).len());
                    assert(doomed(prefc, cutoff).skip(deleted as int) =~= doomed(
                        pref,
                        cutoff,
                    ).skip(deleted as int).push(t));
                } else {
                    assert(surviving(prefc, cutoff) == surviving(pref, cutoff).push(t));
                }
            }
        }
        i += 1;
    }
    proof {
        assert(rows@.subrange(0, n as int) =~= rows@);
    }
    *rows = out;
    deleted
}

/// The error a fault surfaces as: timeouts report `TimedOut`, database errors
/// report `ExecutionFailed`.
pub open spec fn fault_err(kind: FaultKind) -> CleanupError {
    match kind {
        FaultKind::DbError => CleanupError::ExecutionFailed,
        _ => CleanupError::TimedOut,
    }
}

/// Whether a pass over `e` eligible rows with batch size `b` ever reaches
/// transaction number `k`, so that a fault placed there fires.
pub open spec fn fault_triggers(e: int, b: int, k: int, kind: FaultKind) -> bool {
    kind != FaultKind::NoFault && (k == 0 || (b > 0 && (k - 1) * b < e))
}

/// How many rows the `k` committed transactions before a fault removed.
pub open spec fn committed(e: int, b: int, k: int) -> int {
    if b <= 0 {
        0
    } else {
        min_int(e, k * b)
    }
}

/// The whole contract of one table pass, shared by `run_cleanup` and
/// `run_all`: on a fault, the corresponding error and only whole committed
/// batches visible; otherwise every eligible row deleted and counted, in one
/// transaction when unbounded, and in as many bounded batches as the eligible
/// count requires.
pub open spec fn cleanup_post(
    old_rows: Seq<i64>,
    cutoff: i64,
    b: i64,
    fault_tx: u64,
    kind: FaultKind,
    new_rows: Seq<i64>,
    r: Result<CleanupReport, CleanupError>,
) -> bool {
    let e = eligible_count(old_rows, cutoff);
    if fault_triggers(e, b as int, fault_tx as int, kind) {
        &&& r == Err::<CleanupReport, CleanupError>(fault_err(kind))
        &&& surviving(new_rows, cutoff) == surviving(old_rows, cutoff)
        &&& doomed(new_rows, cutoff) == doomed(old_rows, cutoff).skip(
            committed(e, b as int, fault_tx as int),
        )
    } else {
        &&& r is Ok
        &&& new_rows == surviving(old_rows, cutoff)
        &&& r->Ok_0.total_deleted as int == e
        &&& (b <= 0 ==> r->Ok_0.transactions == 1)
        &&& (b > 0 ==> (if e == 0 {
            r->Ok_0.transactions == 1
        } else {
            &&& r->Ok_0.transactions >= 2
            &&& (r->Ok_0.transactions - 2) * b < e <= (r->Ok_0.transactions - 1) * b
        }))
    }
}

/// Drives one table's cleanup to completion: computes batches against the
/// rows until none is eligible (exactly one statement in unbounded mode),
/// with an optional fault injected at transaction `fault_tx`.
pub fn run_cleanup(
    rows: &mut Vec<i64>,
    cutoff: i64,
    batch_size: i64,
    fault_tx: u64,
    fault: FaultKind,
) -> (r: Result<CleanupReport, CleanupError>)
    requires
        old(rows)@.len() < u64::MAX,
    ensures
        cleanup_post(old(rows)@, cutoff, batch_size, fault_tx, fault, final(rows)@, r),
{
    let ghost orig = rows@;
    let ghost e = eligible_count(orig, cutoff);
    proof {
        assert(doomed(orig, cutoff).len() <= orig.len());
    }
    if batch_size <= 0 {
        if !matches!(fault, FaultKind::NoFault) && fault_tx == 0 {
            proof {
                assert(doomed(rows@, cutoff) =~= doomed(orig, cutoff).skip(0));
            }
            return Err(
                match fault {
                    FaultKind::DbError => CleanupError::ExecutionFailed,
                    _ => CleanupError::TimedOut,
                },
            );
        }
        let deleted = delete_batch(rows, cutoff, batch_size);
        proof {
            lemma_all_surviving(rows@, cutoff);
        }
        return Ok(CleanupReport { total_deleted: deleted, transactions: 1 });
    }
    let ghost b = batch_size as int;
    let mut tx: u64 = 0;
    let mut total: u64 = 0;
    loop
        invariant
            orig == old(rows)@,
            batch_size > 0,
            b == batch_size as int,
            orig.len() < u64::MAX,
            e == eligible_count(orig, cutoff),
            0 <= e <= orig.len(),
            surviving(rows@, cutoff) == surviving(orig, cutoff),
            doomed(rows@, cutoff) == doomed(orig, cutoff).skip(total as int),
            total as int == min_int(e, tx as int * b),
            total <= e,
            tx as int == 0 || (tx as int - 1) * b < e,
            tx <= e,
            !(fault is NoFault) ==> fault_tx >= tx,
        decreases e - total as int,
    {
        if !matches!(fault, FaultKind::NoFault) && fault_tx == tx {
            return Err(
                match fault {
                    FaultKind::DbError => CleanupError::ExecutionFailed,
                    _ => CleanupError::TimedOut,
                },
            );
        }
        let ghost before = rows@;
        let deleted = delete_batch(rows, cutoff, batch_size);
        proof {
            assert(doomed(before, cutoff) == doomed(orig, cutoff).skip(total as int));
            assert(eligible_count(before, cutoff) == e - total);
            assert(deleted as int == min_int(b, e - total));
            assert(doomed(rows@, cutoff) =~= doomed(orig, cutoff).skip(
                total as int + deleted as int,
            ));
            assert((tx as int + 1) * b == tx as int * b + b) by (nonlinear_arith);
            assert(tx as int * b >= tx as int) by (nonlinear_arith)
                requires
                    b >= 1,
                    tx as int >= 0,
            ;
        }
        tx = tx + 1;
        total = total + deleted;
        if deleted == 0 {
            proof {
                assert(total as int == e);
                lemma_all_surviving(rows@, cutoff);
                if e > 0 {
                    assert(tx as int >= 2);
                    assert((tx as int - 2) * b < e <= (tx as int - 1) * b);
                }
                if !(fault is NoFault) {
                    assert(fault_tx as int >= tx as int);
                    assert(e <= (tx as int - 1) * b);
                    assert((fault_tx as int - 1) * b >= (tx as int - 1) * b) by (nonlinear_arith)
                        requires
                            fault_tx as int >= tx as int,
                            b >= 1,
                    ;
                    assert(!fault_triggers(e, b, fault_tx as int, fault));
                }
            }
            return Ok(CleanupReport { total_deleted: total, transactions: tx });
        }
        proof {
            assert(total as int == min_int(e, tx as int * b));
        }
    }
}

/// Whether the pass runs in bounded mode: only a positive batch size limits
/// the per-statement row count.
pub fn batch_is_bounded(batch_size: i64) -> (r: bool)
    ensures
        r == (batch_size > 0),
{
    batch_size > 0
}

/// The loop decision after one committed batch: another batch runs only in
/// bounded mode and only when the last one still found rows to delete.
pub fn continue_after_batch(batch_size: i64, rows_affected: u64) -> (r: bool)
    ensures
        r == (batch_size > 0 && rows_affected > 0),
{
    batch_size > 0 && rows_affected > 0
}

/// Whether a configured timeout bounds each database step: a zero timeout
/// disables the bound entirely.
pub fn timeout_enabled(timeout_secs: u64) -> (r: bool)
    ensures
        r == (timeout_secs > 0),
{
    timeout_secs > 0
}

/// One table's model inputs for a multi-table run.
pub struct TablePass {
    /// Timestamps of the table's rows.
    pub rows: Vec<i64>,
    /// The cutoff fixed once for this table's pass.
    pub cutoff: i64,
    /// Transaction number at which `fault` strikes, if it is reached.
    pub fault_tx: u64,
    /// The fault injected into this table's pass, if any.
    pub fault: FaultKind,
}

/// One table's outcome in a multi-table run.
pub struct TableOutcome {
    /// The rows left in the table after its pass.
    pub remaining: Vec<i64>,
    /// The pass's report or error.
    pub result: Result<CleanupReport, CleanupError>,
}

fn copy_rows(v: &Vec<i64>) -> (r: Vec<i64>)
    ensures
        r@ == v@,
{
    let mut r: Vec<i64> = Vec::new();
    let mut i: usize = 0;
    while i < v.len()
        invariant
            0 <= i <= v@.len(),
            r@ == v@.subrange(0, i as int),
        decreases v@.len() - i,
    {
        r.push(v[i]);
        proof {
            assert(r@ =~= v@.subrange(0, i as int + 1));
        }
        i += 1;
    }
    proof {
        assert(r@ =~= v@);
    }
    r
}

/// Runs every table's pass in order, each against its own rows and cutoff.
/// Failures are isolated per table: every entry of the result is exactly what
/// `run_cleanup` would report for that table, whatever happened to the tables
/// before it.
pub fn run_all(passes: &Vec<TablePass>, batch_size: i64) -> (outs: Vec<TableOutcome>)
    requires
        forall|i: int| 0 <= i < passes@.len() ==> #[trigger] passes@[i].rows@.len() < u64::MAX,
    ensures
        outs@.len() == passes@.len(),
        forall|i: int|
            0 <= i < passes@.len() ==> cleanup_post(
                passes@[i].rows@,
                passes@[i].cutoff,
                batch_size,
                passes@[i].fault_tx,
                passes@[i].fault,
                (#[trigger] outs@[i]).remaining@,
                outs@[i].result,
            ),
{
    let mut outs: Vec<TableOutcome> = Vec::new();
    let mut i: usize = 0;
    while i < passes.len()
        invariant
            0 <= i <= passes@.len(),
            outs@.len() == i,
            forall|j: int| 0 <= j < passes@.len() ==> #[trigger] passes@[j].rows@.len() < u64::MAX,
            forall|j: int|
                0 <= j < i ==> cleanup_post(
                    passes@[j].rows@,
                    passes@[j].cutoff,
                    batch_size,
                    passes@[j].fault_tx,
                    passes@[j].fault,
                    (#[trigger] outs@[j]).remaining@,
                    outs@[j].result,
                ),
        decreases passes@.len() - i,
    {
        let p = &passes[i];
        let mut remaining = copy_rows(&p.rows);
        let result = run_cleanup(&mut remaining, p.cutoff, batch_size, p.fault_tx, p.fault);
        outs.push(TableOutcome { remaining, result });
        i += 1;
    }
    outs
}

} // verus!
