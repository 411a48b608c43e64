//! Comparison of ledger balances against physical counts.
use vstd::prelude::*;

verus! {

/// Number of quantity units in one whole unit of stock.
pub const QTY_SCALE: i64 = 1_000_000_000;

/// One (company, location, item, lot) balance as the ledger computes it and as
/// it was counted.
#[derive(Debug)]
pub struct ReconcileLine {
    pub company_id: String,
    pub location_id: String,
    pub item_id: String,
    pub lot_id: Option<String>,
    /// Quantity derived from the recorded movements.
    pub kardex_qty: i64,
    /// Quantity found by the physical count.
    pub balance_qty: i64,
}

#[derive(Debug)]
pub struct ReconcileStockInput {
    pub lines: Vec<ReconcileLine>,
    /// Largest discrepancy, in quantity units, that still counts as balanced.
    pub tolerance: i64,
}

/// A line whose discrepancy exceeds the tolerance.
#[derive(Debug)]
pub struct ReconcileMismatch {
    pub company_id: String,
    pub location_id: String,
    pub item_id: String,
    pub lot_id: Option<String>,
    pub kardex_qty: i64,
    pub balance_qty: i64,
    /// `balance_qty - kardex_qty`.
    pub delta: i128,
}

#[derive(Debug)]
pub struct ReconcileStockResult {
    pub balanced: bool,
    pub checked_lines: usize,
    pub mismatch_count: usize,
    pub mismatches: Vec<ReconcileMismatch>,
}

/// The default tolerance: one millionth of a unit.
pub fn default_tolerance() -> (r: i64)
    ensures
        r == QTY_SCALE / 1_000_000,
{
    QTY_SCALE / 1_000_000
}

pub open spec fn delta_of(l: ReconcileLine) -> int {
    l.balance_qty - l.kardex_qty
}

pub open spec fn abs(x: int) -> int {
    if x < 0 { -x } else { x }
}

pub open spec fn is_mismatch(l: ReconcileLine, tolerance: int) -> bool {
    abs(delta_of(l)) > tolerance
}

/// The mismatch recorded for a line: its identifiers, quantities and delta.
pub open spec fn mismatch_of(l: ReconcileLine) -> ReconcileMismatch {
    ReconcileMismatch {
        company_id: l.company_id,
        location_id: l.location_id,
        item_id: l.item_id,
        lot_id: l.lot_id,
        kardex_qty: l.kardex_qty,
        balance_qty: l.balance_qty,
        delta: delta_of(l) as i128,
    }
}

/// The mismatches among `lines`, in input order.
pub open spec fn mismatches_of(lines: Seq<ReconcileLine>, tolerance: int) -> Seq<ReconcileMismatch>
    decreases lines.len(),
{
    if lines.len() == 0 {
        seq![]
    } else {
        let rest = mismatches_of(lines.drop_last(), tolerance);
        if is_mismatch(lines.last(), tolerance) {
            rest.push(mismatch_of(lines.last()))
        } else {
            rest
        }
    }
}

/// What `reconcile_stock` returns on `input`.
pub open spec fn reconcile_post(
    input: ReconcileStockInput,
    r: Result<ReconcileStockResult, String>,
) -> bool {
    if input.tolerance < 0 {
        r is Err && r->Err_0@ == "Tolerance must be zero or positive"@
    } else {
        r is Ok && {
            let res = r->Ok_0;
            let ms = mismatches_of(input.lines@, input.tolerance as int);
            &&& res.mismatches@ == ms
            &&& res.checked_lines == input.lines@.len()
            &&& res.mismatch_count == ms.len()
            &&& res.balanced == (ms.len() == 0)
        }
    }
}

fn clone_opt(s: &Option<String>) -> (r: Option<String>)
    ensures
        r == *s,
{
    match s {
        Some(v) => Some(v.clone()),
        None => None,
    }
}

/// Flags each line whose physical count differs from the ledger by more than
/// the tolerance; the mismatches keep the order of the input lines.
pub fn reconcile_stock(input: ReconcileStockInput) -> (r: Result<ReconcileStockResult, String>)
    ensures
        reconcile_post(input, r),
{
    if input.tolerance < 0 {
        return Err("Tolerance must be zero or positive".to_string());
    }
    let lines = &input.lines;
    let checked_lines = lines.len();
    let mut mismatches: Vec<ReconcileMismatch> = Vec::new();
    let mut i: usize = 0;
    while i < lines.len()
        invariant
            0 <= i <= lines@.len(),
            input.tolerance >= 0,
            mismatches@ == mismatches_of(lines@.subrange(0, i as int), input.tolerance as int),
        decreases lines.len() - i,
    {
        let line = &lines[i];
        let delta: i128 = line.balance_qty as i128 - line.kardex_qty as i128;
        let magnitude: i128 = if delta < 0 { -delta } else { delta };
        proof {
            assert(lines@.subrange(0, i + 1).drop_last() =~= lines@.subrange(0, i as int));
        }
        if magnitude > input.tolerance as i128 {
            mismatches.push(ReconcileMismatch {
                company_id: line.company_id.clone(),
                location_id: line.location_id.clone(),
                item_id: line.item_id.clone(),
                lot_id: clone_opt(&line.lot_id),
                kardex_qty: line.kardex_qty,
                balance_qty: line.balance_qty,
                delta,
            });
        }
        i = i + 1;
    }
    proof {
        assert(lines@.subrange(0, lines@.len() as int) =~= lines@);
    }
    let mismatch_count = mismatches.len();
    Ok(ReconcileStockResult {
        balanced: mismatch_count == 0,
        checked_lines,
        mismatch_count,
        mismatches,
    })
}

/// Reconciling the same input twice gives the same result: the same error, or
/// the same flag, counts and mismatches.
pub proof fn lemma_reconcile_deterministic(
    input: ReconcileStockInput,
    r1: Result<ReconcileStockResult, String>,
    r2: Result<ReconcileStockResult, String>,
)
    requires
        reconcile_post(input, r1),
        reconcile_post(input, r2),
    ensures
        r1 is Ok <==> r2 is Ok,
        r1 is Err ==> r1->Err_0@ == r2->Err_0@,
        r1 is Ok ==> {
            let a = r1->Ok_0;
            let b = r2->Ok_0;
            &&& a.balanced == b.balanced
            &&& a.checked_lines == b.checked_lines
            &&& a.mismatch_count == b.mismatch_count
            &&& a.mismatches@ == b.mismatches@
        },
{
}

/// A negative tolerance is always refused.
pub proof fn lemma_negative_tolerance_refused(
    input: ReconcileStockInput,
    r: Result<ReconcileStockResult, String>,
)
    requires
        reconcile_post(input, r),
        input.tolerance < 0,
    ensures
        r is Err,
{
}

} // verus!
