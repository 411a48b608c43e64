//! First-expired-first-out allocation of stock from lots.
use vstd::prelude::*;
use crate::dates::{date_before, expiry_date_of, parse_date, ymd, ymd_lt, Date};
use crate::text::{blank, is_blank, text_less, text_lt};

verus! {

/// A lot that may be drawn from.
#[derive(Clone, Debug)]
pub struct FifoLot {
    pub lot_id: String,
    pub item_id: String,
    pub location_id: String,
    /// Expiry date; only its first ten characters (`YYYY-MM-DD`) are read.
    pub expires_at: String,
    pub available_qty: i64,
}

/// A request to draw `requested_qty` of an item at a location from `lots`.
#[derive(Debug)]
pub struct FifoRequest {
    pub company_id: String,
    pub item_id: String,
    pub location_id: String,
    pub requested_qty: i64,
    pub lots: Vec<FifoLot>,
    pub allow_expired: bool,
    pub reason: Option<String>,
}

/// A quantity drawn from one lot.
#[derive(Debug)]
pub struct FifoAllocation {
    pub lot_id: String,
    pub qty: i64,
    pub expires_at: String,
    pub is_expired: bool,
}

#[derive(Debug)]
pub struct FifoResult {
    pub allocations: Vec<FifoAllocation>,
    pub fulfilled_qty: i64,
    pub missing_qty: i64,
    pub used_expired: bool,
    pub warnings: Vec<String>,
}

/// A lot of the requested item, at the requested location, with stock.
pub open spec fn eligible(req: FifoRequest, l: FifoLot) -> bool {
    l.item_id@ == req.item_id@ && l.location_id@ == req.location_id@ && l.available_qty > 0
}

/// The expiry dates that chrono reads from the lots of `req`, by lot.
pub open spec fn expiry_dates(req: FifoRequest) -> Seq<Option<Date>> {
    req.lots@.map_values(
        |l: FifoLot|
            match expiry_date_of(l.expires_at@) {
                Some(t) => Some(Date { year: t.0, month: t.1, day: t.2 }),
                None => None,
            },
    )
}

/// The expiry date of lot `i` (meaningful where it could be read).
pub open spec fn lot_date(dates: Seq<Option<Date>>, i: int) -> (i32, u32, u32) {
    ymd(dates[i]->Some_0)
}

pub open spec fn lot_expired(dates: Seq<Option<Date>>, i: int, today: Date) -> bool {
    ymd_lt(lot_date(dates, i), ymd(today))
}

/// FIFO order of lots `i` and `j`: earlier expiry first, then lower identifier.
pub open spec fn lot_before(lots: Seq<FifoLot>, dates: Seq<Option<Date>>, i: int, j: int) -> bool {
    ymd_lt(lot_date(dates, i), lot_date(dates, j)) || (lot_date(dates, i) == lot_date(dates, j)
        && text_lt(lots[i].lot_id@, lots[j].lot_id@))
}

/// The first eligible lot among the first `n` whose expiry date is unknown.
pub open spec fn first_bad_date(req: FifoRequest, dates: Seq<Option<Date>>, n: int) -> Option<int>
    decreases n,
{
    if n <= 0 {
        None
    } else {
        match first_bad_date(req, dates, n - 1) {
            Some(i) => Some(i),
            None => if eligible(req, req.lots@[n - 1]) && dates[n - 1] is None {
                Some(n - 1)
            } else {
                None
            },
        }
    }
}

/// Inserts lot `j` into the queue `q` after every lot that does not come
/// after it, so that lots of equal rank keep their input order.
pub open spec fn insert_fifo(lots: Seq<FifoLot>, dates: Seq<Option<Date>>, q: Seq<usize>, j: usize) -> Seq<usize>
    decreases q.len(),
{
    if q.len() == 0 {
        seq![j]
    } else if lot_before(lots, dates, j as int, q[0] as int) {
        seq![j] + q
    } else {
        seq![q[0]] + insert_fifo(lots, dates, q.drop_first(), j)
    }
}

/// The eligible lots among the first `n` that are expired (or not, as
/// `expired` says), by index, in FIFO order.
pub open spec fn fifo_queue(req: FifoRequest, dates: Seq<Option<Date>>, today: Date, expired: bool, n: int) -> Seq<usize>
    decreases n,
{
    if n <= 0 {
        seq![]
    } else {
        let prev = fifo_queue(req, dates, today, expired, n - 1);
        let l = req.lots@[n - 1];
        if eligible(req, l) && lot_expired(dates, n - 1, today) == expired {
            insert_fifo(req.lots@, dates, prev, (n - 1) as usize)
        } else {
            prev
        }
    }
}

pub open spec fn fresh_queue(req: FifoRequest, dates: Seq<Option<Date>>, today: Date) -> Seq<usize> {
    fifo_queue(req, dates, today, false, req.lots@.len() as int)
}

pub open spec fn expired_queue(req: FifoRequest, dates: Seq<Option<Date>>, today: Date) -> Seq<usize> {
    fifo_queue(req, dates, today, true, req.lots@.len() as int)
}

/// Total available quantity of the lots in `q`.
pub open spec fn available_sum(lots: Seq<FifoLot>, q: Seq<usize>) -> int
    decreases q.len(),
{
    if q.len() == 0 {
        0
    } else {
        available_sum(lots, q.drop_last()) + lots[q.last() as int].available_qty
    }
}

/// Whether the lots that are not expired fall short of the request.
pub open spec fn short_of_fresh(req: FifoRequest, dates: Seq<Option<Date>>, today: Date) -> bool {
    available_sum(req.lots@, fresh_queue(req, dates, today)) < req.requested_qty
}

/// The first rule that the request breaks, as its message; `None` when it breaks none.
pub open spec fn fifo_error(req: FifoRequest, dates: Seq<Option<Date>>, today: Date) -> Option<Seq<char>> {
    let fresh = fresh_queue(req, dates, today);
    let old = expired_queue(req, dates, today);
    if req.requested_qty <= 0 {
        Some("Requested quantity must be greater than zero"@)
    } else if first_bad_date(req, dates, req.lots@.len() as int) is Some {
        let i = first_bad_date(req, dates, req.lots@.len() as int)->Some_0;
        Some("Invalid date format: "@ + req.lots@[i].expires_at@)
    } else if fresh.len() == 0 && old.len() == 0 {
        Some("No stock available for FIFO allocation in selected location"@)
    } else if fresh.len() == 0 {
        if !req.allow_expired {
            Some(
                "All available stock is expired. Enable allow_expired and register motive 'Uso de lote vencido'"@,
            )
        } else if is_blank(req.reason) {
            Some("Reason is required when using expired lots"@)
        } else {
            None
        }
    } else if short_of_fresh(req, dates, today) {
        if old.len() == 0 {
            Some("Insufficient non-expired stock for requested quantity"@)
        } else if !req.allow_expired {
            Some(
                "Expired lots are required to complete FIFO allocation. Confirmation is required with motive 'Uso de lote vencido'"@,
            )
        } else if is_blank(req.reason) {
            Some("Reason is required when using expired lots"@)
        } else {
            None
        }
    } else {
        None
    }
}

pub open spec fn tagged(q: Seq<usize>, expired: bool) -> Seq<(usize, bool)> {
    q.map_values(|i: usize| (i, expired))
}

/// The lots to draw from, in order, each with whether it is expired.
pub open spec fn fifo_pool(req: FifoRequest, dates: Seq<Option<Date>>, today: Date) -> Seq<(usize, bool)> {
    let fresh = fresh_queue(req, dates, today);
    let old = expired_queue(req, dates, today);
    if fresh.len() == 0 {
        tagged(old, true)
    } else if short_of_fresh(req, dates, today) {
        tagged(fresh, false) + tagged(old, true)
    } else {
        tagged(fresh, false)
    }
}

pub open spec fn fifo_warnings(req: FifoRequest, dates: Seq<Option<Date>>, today: Date) -> Seq<Seq<char>> {
    if fresh_queue(req, dates, today).len() == 0 {
        seq!["Todos los lotes disponibles se encuentran vencidos"@]
    } else if short_of_fresh(req, dates, today) {
        seq!["Se utilizaron lotes vencidos para completar la salida"@]
    } else {
        seq![]
    }
}

pub open spec fn min(a: int, b: int) -> int {
    if a <= b { a } else { b }
}

/// Greedy draws from `pool` towards `remaining`: (lot index, quantity, expired).
pub open spec fn draws(lots: Seq<FifoLot>, pool: Seq<(usize, bool)>, remaining: int) -> Seq<
    (usize, int, bool),
>
    decreases pool.len(),
{
    if pool.len() == 0 || remaining <= 0 {
        seq![]
    } else {
        let take = min(remaining, lots[pool[0].0 as int].available_qty as int);
        if take <= 0 {
            draws(lots, pool.drop_first(), remaining)
        } else {
            seq![(pool[0].0, take, pool[0].1)] + draws(lots, pool.drop_first(), remaining - take)
        }
    }
}

/// Sum of the quantities of `d`.
pub open spec fn drawn_sum(d: Seq<(usize, int, bool)>) -> int
    decreases d.len(),
{
    if d.len() == 0 {
        0
    } else {
        drawn_sum(d.drop_last()) + d.last().1
    }
}

/// Sum of the quantities of allocation lines.
pub open spec fn allocated_sum(a: Seq<FifoAllocation>) -> int
    decreases a.len(),
{
    if a.len() == 0 {
        0
    } else {
        allocated_sum(a.drop_last()) + a.last().qty
    }
}

/// The allocation line for draw `d`.
pub open spec fn line_of(lots: Seq<FifoLot>, a: FifoAllocation, d: (usize, int, bool)) -> bool {
    &&& a.lot_id == lots[d.0 as int].lot_id
    &&& a.expires_at == lots[d.0 as int].expires_at
    &&& a.qty == d.1
    &&& a.is_expired == d.2
}

/// What `allocate_fifo_dated` returns on `req` when the lots' expiry dates
/// are `dates` and the date is `today`.
pub open spec fn fifo_post_dated(
    req: FifoRequest,
    dates: Seq<Option<Date>>,
    today: Date,
    r: Result<FifoResult, String>,
) -> bool {
    match fifo_error(req, dates, today) {
        Some(msg) => r is Err && r->Err_0@ == msg,
        None => r is Ok && {
            let res = r->Ok_0;
            let d = draws(req.lots@, fifo_pool(req, dates, today), req.requested_qty as int);
            &&& res.allocations@.len() == d.len()
            &&& forall|k: int|
                0 <= k < d.len() ==> #[trigger] line_of(req.lots@, res.allocations@[k], d[k])
            &&& res.fulfilled_qty == drawn_sum(d)
            &&& res.missing_qty >= 0
            &&& res.missing_qty == req.requested_qty - drawn_sum(d)
            &&& res.used_expired == (exists|k: int| 0 <= k < d.len() && #[trigger] d[k].2)
            &&& res.warnings@.len() == fifo_warnings(req, dates, today).len()
            &&& forall|k: int|
                0 <= k < res.warnings@.len() ==> #[trigger] res.warnings@[k]@ == fifo_warnings(req, dates, today,
                )[k]
        }
    }
}

proof fn lemma_first_bad_date_kept(req: FifoRequest, dates: Seq<Option<Date>>, i: int, n: int)
    requires
        0 <= i < n,
        first_bad_date(req, dates, i + 1) == Some(i),
    ensures
        first_bad_date(req, dates, n) == Some(i),
    decreases n,
{
    if n > i + 1 {
        lemma_first_bad_date_kept(req, dates, i, n - 1);
    }
}

proof fn lemma_insert_at(lots: Seq<FifoLot>, dates: Seq<Option<Date>>, q: Seq<usize>, j: usize, p: int)
    requires
        0 <= p <= q.len(),
        forall|k: int| 0 <= k < p ==> !lot_before(lots, dates, j as int, (#[trigger] q[k]) as int),
        p < q.len() ==> lot_before(lots, dates, j as int, q[p] as int),
    ensures
        insert_fifo(lots, dates, q, j) == q.insert(p, j),
    decreases p,
{
    if p == 0 {
        if q.len() == 0 {
            assert(seq![j] =~= q.insert(0, j));
        } else {
            assert(seq![j] + q =~= q.insert(0, j));
        }
    } else {
        let rest = q.drop_first();
        assert forall|k: int| 0 <= k < p - 1 implies !lot_before(lots, dates, j as int, (#[trigger] rest[k]) as int) by {
            assert(rest[k] == q[k + 1]);
        }
        if p < q.len() {
            assert(rest[p - 1] == q[p]);
        }
        assert(!lot_before(lots, dates, j as int, q[0] as int));
        lemma_insert_at(lots, dates, rest, j, p - 1);
        assert(seq![q[0]] + rest.insert(p - 1, j) =~= q.insert(p, j));
    }
}

/// What `allocate_fifo_at` returns on `req` when the date is `today`.
pub open spec fn fifo_post(req: FifoRequest, today: Date, r: Result<FifoResult, String>) -> bool {
    fifo_post_dated(req, expiry_dates(req), today, r)
}

/// The lots of `q` are lots of `lots` with a known expiry date.
pub open spec fn dates_known(lots: Seq<FifoLot>, dates: Seq<Option<Date>>, q: Seq<usize>) -> bool {
    forall|k: int|
        0 <= k < q.len() ==> {
            &&& q[k] < lots.len()
            &&& q[k] < dates.len()
            &&& #[trigger] dates[q[k] as int] is Some
        }
}

fn lot_ahead(lots: &Vec<FifoLot>, expiry: &Vec<Option<Date>>, i: usize, j: usize) -> (r: bool)
    requires
        i < lots@.len(),
        j < lots@.len(),
        i < expiry@.len(),
        j < expiry@.len(),
        expiry@[i as int] is Some,
        expiry@[j as int] is Some,
    ensures
        r == lot_before(lots@, expiry@, i as int, j as int),
{
    match (&expiry[i], &expiry[j]) {
        (Some(da), Some(db)) => date_before(da, db) || (*da == *db && text_less(
            lots[i].lot_id.as_str(),
            lots[j].lot_id.as_str(),
        )),
        _ => false,
    }
}

/// Where lot `j` goes in the FIFO queue `q`: after every lot that does not
/// come after it.
fn insert_position(lots: &Vec<FifoLot>, expiry: &Vec<Option<Date>>, q: &Vec<usize>, j: usize) -> (p:
    usize)
    requires
        j < lots@.len(),
        j < expiry@.len(),
        expiry@[j as int] is Some,
        dates_known(lots@, expiry@, q@),
    ensures
        p <= q@.len(),
        insert_fifo(lots@, expiry@, q@, j) == q@.insert(p as int, j),
{
    let ghost dates = expiry@;
    let mut p: usize = 0;
    while p < q.len()
        invariant
            0 <= p <= q@.len(),
            dates == expiry@,
            j < lots@.len(),
            j < expiry@.len(),
            expiry@[j as int] is Some,
            dates_known(lots@, expiry@, q@),
            forall|k: int|
                0 <= k < p ==> !lot_before(lots@, dates, j as int, (#[trigger] q@[k]) as int),
        decreases q@.len() - p,
    {
        let k = q[p];
        assert(expiry@[q@[p as int] as int] is Some);
        if lot_ahead(lots, expiry, j, k) {
            proof {
                lemma_insert_at(lots@, dates, q@, j, p as int);
            }
            return p;
        }
        p = p + 1;
    }
    proof {
        lemma_insert_at(lots@, dates, q@, j, p as int);
    }
    p
}

/// Splits the eligible lots of `req` into the queues of lots that are not
/// expired and that are, each in FIFO order, by the expiry dates `expiry`;
/// fails on the first eligible lot whose expiry date is unknown.
fn fifo_queues(req: &FifoRequest, expiry: &Vec<Option<Date>>, today: Date) -> (r: Result<
    (Vec<usize>, Vec<usize>),
    String,
>)
    requires
        expiry@.len() == req.lots@.len(),
    ensures
        ({
            let dates = expiry@;
            match r {
                Ok((fresh, old)) => {
                    &&& first_bad_date(*req, dates, req.lots@.len() as int) is None
                    &&& fresh@ == fresh_queue(*req, dates, today)
                    &&& old@ == expired_queue(*req, dates, today)
                    &&& forall|k: int| 0 <= k < fresh@.len() ==> fresh@[k] < req.lots@.len()
                    &&& forall|k: int| 0 <= k < old@.len() ==> old@[k] < req.lots@.len()
                },
                Err(e) => {
                    &&& first_bad_date(*req, dates, req.lots@.len() as int) is Some
                    &&& e@ == "Invalid date format: "@ + req.lots@[first_bad_date(
                        *req,
                        dates,
                        req.lots@.len() as int,
                    )->Some_0].expires_at@
                },
            }
        }),
{
    let ghost dates = expiry@;
    let lots = &req.lots;
    let mut fresh: Vec<usize> = Vec::new();
    let mut old: Vec<usize> = Vec::new();
    let mut i: usize = 0;
    while i < lots.len()
        invariant
            0 <= i <= lots@.len(),
            lots@ == req.lots@,
            dates == expiry@,
            expiry@.len() == lots@.len(),
            first_bad_date(*req, dates, i as int) is None,
            fresh@ == fifo_queue(*req, dates, today, false, i as int),
            old@ == fifo_queue(*req, dates, today, true, i as int),
            forall|k: int| 0 <= k < fresh@.len() ==> fresh@[k] < i,
            forall|k: int| 0 <= k < old@.len() ==> old@[k] < i,
            dates_known(lots@, dates, fresh@),
            dates_known(lots@, dates, old@),
        decreases lots@.len() - i,
    {
        let lot = &lots[i];
        if lot.item_id == req.item_id && lot.location_id == req.location_id && lot.available_qty
            > 0 {
            match &expiry[i] {
                Some(d) => {
                    if date_before(d, &today) {
                        let p = insert_position(lots, expiry, &old, i);
                        old.insert(p, i);
                    } else {
                        let p = insert_position(lots, expiry, &fresh, i);
                        fresh.insert(p, i);
                    }
                },
                None => {
                    proof {
                        lemma_first_bad_date_kept(*req, dates, i as int, lots@.len() as int);
                    }
                    let prefix = "Invalid date format: ".to_string();
                    return Err(prefix.concat(lot.expires_at.as_str()));
                },
            }
        }
        i = i + 1;
    }
    Ok((fresh, old))
}

/// Total available quantity of the lots in the queue `q`.
fn queue_available(lots: &Vec<FifoLot>, q: &Vec<usize>) -> (r: i128)
    requires
        forall|k: int| 0 <= k < q@.len() ==> q@[k] < lots@.len(),
    ensures
        r == available_sum(lots@, q@),
{
    let mut total: i128 = 0;
    let mut k: usize = 0;
    while k < q.len()
        invariant
            0 <= k <= q@.len(),
            forall|m: int| 0 <= m < q@.len() ==> q@[m] < lots@.len(),
            total == available_sum(lots@, q@.subrange(0, k as int)),
            (k as int) * (i64::MIN as int) <= total <= (k as int) * (i64::MAX as int),
        decreases q@.len() - k,
    {
        let a = lots[q[k]].available_qty;
        proof {
            assert(q@.subrange(0, k + 1).drop_last() =~= q@.subrange(0, k as int));
            assert((k as int + 1) * (i64::MAX as int) == (k as int) * (i64::MAX as int) + (
            i64::MAX as int)) by (nonlinear_arith);
            assert((k as int + 1) * (i64::MIN as int) == (k as int) * (i64::MIN as int) + (
            i64::MIN as int)) by (nonlinear_arith);
            assert((k as int + 1) * (i64::MAX as int) <= (usize::MAX as int) * (i64::MAX as int))
                by (nonlinear_arith)
                requires
                    k < usize::MAX,
            ;
            assert((k as int + 1) * (i64::MIN as int) >= (usize::MAX as int) * (i64::MIN as int))
                by (nonlinear_arith)
                requires
                    k < usize::MAX,
            ;
        }
        total = total + a as i128;
        k = k + 1;
    }
    proof {
        assert(q@.subrange(0, q@.len() as int) =~= q@);
    }
    total
}

/// Appends the lots of `q`, each marked expired or not, to `pool`.
fn append_tagged(pool: &mut Vec<(usize, bool)>, q: &Vec<usize>, expired: bool)
    ensures
        final(pool)@ == old(pool)@ + tagged(q@, expired),
{
    let mut k: usize = 0;
    while k < q.len()
        invariant
            0 <= k <= q@.len(),
            pool@ == old(pool)@ + tagged(q@.subrange(0, k as int), expired),
        decreases q@.len() - k,
    {
        pool.push((q[k], expired));
        k = k + 1;
        proof {
            assert(tagged(q@.subrange(0, k as int), expired) =~= tagged(
                q@.subrange(0, k - 1),
                expired,
            ).push((q@[k - 1], expired)));
        }
    }
    proof {
        assert(q@.subrange(0, q@.len() as int) =~= q@);
    }
}

/// Draws greedily from the lots of `pool`, in order, until `requested` is met
/// or the pool runs out. Returns the allocation lines, what is still missing,
/// and whether an expired lot was drawn from.
fn draw_from(lots: &Vec<FifoLot>, pool: &Vec<(usize, bool)>, requested: i64) -> (r: (
    Vec<FifoAllocation>,
    i64,
    bool,
))
    requires
        requested > 0,
        forall|k: int| 0 <= k < pool@.len() ==> pool@[k].0 < lots@.len(),
    ensures
        ({
            let d = draws(lots@, pool@, requested as int);
            &&& r.0@.len() == d.len()
            &&& forall|k: int| 0 <= k < d.len() ==> #[trigger] line_of(lots@, r.0@[k], d[k])
            &&& 0 <= r.1 <= requested
            &&& drawn_sum(d) == requested - r.1
            &&& r.2 == (exists|k: int| 0 <= k < d.len() && #[trigger] d[k].2)
        }),
{
    let ghost d = draws(lots@, pool@, requested as int);
    let ghost mut done: Seq<(usize, int, bool)> = seq![];
    let mut allocations: Vec<FifoAllocation> = Vec::new();
    let mut remaining: i64 = requested;
    let mut used_expired = false;
    let n = pool.len();
    let mut k: usize = 0;
    proof {
        assert(pool@.subrange(0, n as int) =~= pool@);
        assert(done + d =~= d);
    }
    while k < n
        invariant
            n == pool@.len(),
            0 <= k <= n,
            forall|m: int| 0 <= m < pool@.len() ==> pool@[m].0 < lots@.len(),
            d == draws(lots@, pool@, requested as int),
            done + draws(lots@, pool@.subrange(k as int, n as int), remaining as int) == d,
            allocations@.len() == done.len(),
            forall|m: int| 0 <= m < done.len() ==> #[trigger] line_of(lots@, allocations@[m], done[m]),
            0 <= remaining <= requested,
            drawn_sum(done) == requested - remaining,
            used_expired == (exists|m: int| 0 <= m < done.len() && #[trigger] done[m].2),
        ensures
            k == n || remaining == 0,
            done + draws(lots@, pool@.subrange(k as int, n as int), remaining as int) == d,
        decreases n - k,
    {
        let ghost rest = pool@.subrange(k as int, n as int);
        if remaining <= 0 {
            break;
        }
        let (idx, expired) = pool[k];
        let lot = &lots[idx];
        let take = if remaining <= lot.available_qty {
            remaining
        } else {
            lot.available_qty
        };
        proof {
            assert(rest[0] == (idx, expired));
            assert(rest.drop_first() =~= pool@.subrange(k + 1, n as int));
        }
        if take > 0 {
            allocations.push(
                FifoAllocation {
                    lot_id: lot.lot_id.clone(),
                    qty: take,
                    expires_at: lot.expires_at.clone(),
                    is_expired: expired,
                },
            );
            let ghost step = (idx, take as int, expired);
            proof {
                let later = draws(lots@, pool@.subrange(k + 1, n as int), remaining - take);
                assert(done + (seq![step] + later) =~= done.push(step) + later);
                assert(done.push(step).drop_last() =~= done);
                assert(done.push(step)[done.len() as int] == step);
                if expired {
                    assert(done.push(step)[done.len() as int].2);
                } else {
                    assert forall|m: int| 0 <= m < done.len() + 1 && #[trigger] done.push(step)[m].2 implies 0 <= m < done.len() && done[m].2 by {
                        if m < done.len() {
                            assert(done.push(step)[m] == done[m]);
                        }
                    }
                    assert forall|m: int| 0 <= m < done.len() && #[trigger] done[m].2 implies 0 <= m < done.len() + 1 && done.push(step)[m].2 by {
                        assert(done.push(step)[m] == done[m]);
                    }
                }
                done = done.push(step);
            }
            used_expired = used_expired || expired;
            remaining = remaining - take;
        }
        k = k + 1;
    }
    proof {
        assert(draws(lots@, pool@.subrange(k as int, n as int), remaining as int) == Seq::<
            (usize, int, bool),
        >::empty());
        assert(done + seq![] =~= done);
    }
    (allocations, remaining, used_expired)
}

/// Allocates the request first-expired-first-out, with `today` deciding which
/// lots are expired. Each lot's expiry date is read from the first ten
/// characters of its expiry text.
pub fn allocate_fifo_at(input: FifoRequest, today: Date) -> (r: Result<FifoResult, String>)
    ensures
        fifo_post(input, today, r),
{
    let mut expiry: Vec<Option<Date>> = Vec::new();
    let mut i: usize = 0;
    while i < input.lots.len()
        invariant
            0 <= i <= input.lots@.len(),
            expiry@ == expiry_dates(input).subrange(0, i as int),
        decreases input.lots@.len() - i,
    {
        let d = match parse_date(input.lots[i].expires_at.as_str()) {
            Ok(d) => Some(d),
            Err(_) => None,
        };
        expiry.push(d);
        i = i + 1;
        proof {
            assert(expiry@ =~= expiry_dates(input).subrange(0, i as int));
        }
    }
    proof {
        assert(expiry@ =~= expiry_dates(input));
    }
    allocate_fifo_dated(input, expiry, today)
}

/// Allocates the request first-expired-first-out, where `expiry` holds the
/// expiry date of each lot (`None` where it could not be read) and `today`
/// decides which lots are expired. Lots that are not expired are drawn from
/// first; expired lots only with the caller's confirmation and a reason, and
/// only where the others fall short.
pub fn allocate_fifo_dated(input: FifoRequest, expiry: Vec<Option<Date>>, today: Date) -> (r: Result<
    FifoResult,
    String,
>)
    requires
        expiry@.len() == input.lots@.len(),
    ensures
        fifo_post_dated(input, expiry@, today, r),
{
    let ghost dates = expiry@;
    if input.requested_qty <= 0 {
        return Err("Requested quantity must be greater than zero".to_string());
    }
    let (fresh, old) = match fifo_queues(&input, &expiry, today) {
        Ok(queues) => queues,
        Err(e) => {
            return Err(e);
        },
    };
    if fresh.len() == 0 && old.len() == 0 {
        return Err("No stock available for FIFO allocation in selected location".to_string());
    }
    let mut warnings: Vec<String> = Vec::new();
    let mut pool: Vec<(usize, bool)> = Vec::new();
    if fresh.len() == 0 {
        if !input.allow_expired {
            return Err(
                "All available stock is expired. Enable allow_expired and register motive 'Uso de lote vencido'".to_string(),
            );
        }
        if blank(&input.reason) {
            return Err("Reason is required when using expired lots".to_string());
        }
        warnings.push("Todos los lotes disponibles se encuentran vencidos".to_string());
        append_tagged(&mut pool, &old, true);
    } else {
        append_tagged(&mut pool, &fresh, false);
        let fresh_total = queue_available(&input.lots, &fresh);
        if fresh_total < input.requested_qty as i128 {
            if old.len() == 0 {
                return Err("Insufficient non-expired stock for requested quantity".to_string());
            }
            if !input.allow_expired {
                return Err(
                    "Expired lots are required to complete FIFO allocation. Confirmation is required with motive 'Uso de lote vencido'".to_string(),
                );
            }
            if blank(&input.reason) {
                return Err("Reason is required when using expired lots".to_string());
            }
            warnings.push("Se utilizaron lotes vencidos para completar la salida".to_string());
            append_tagged(&mut pool, &old, true);
        }
    }
    proof {
        assert(pool@ =~= fifo_pool(input, dates, today));
        assert forall|k: int| 0 <= k < pool@.len() implies pool@[k].0 < input.lots@.len() by {
            let f = tagged(fresh@, false);
            let o = tagged(old@, true);
            if fresh@.len() == 0 {
                assert(pool@[k] == o[k]);
            } else if short_of_fresh(input, dates, today) {
                if k < f.len() {
                    assert(pool@[k] == f[k]);
                } else {
                    assert(pool@[k] == o[k - f.len()]);
                }
            } else {
                assert(pool@[k] == f[k]);
            }
        }
    }
    let (allocations, remaining, used_expired) = draw_from(&input.lots, &pool, input.requested_qty);
    let missing_qty = if remaining > 0 {
        remaining
    } else {
        0
    };
    proof {
        let w = fifo_warnings(input, dates, today);
        assert(warnings@.len() == w.len());
        assert forall|k: int| 0 <= k < warnings@.len() implies #[trigger] warnings@[k]@ == w[k] by {}
    }
    Ok(
        FifoResult {
            allocations,
            fulfilled_qty: input.requested_qty - missing_qty,
            missing_qty,
            used_expired,
            warnings,
        },
    )
}

proof fn lemma_allocated_sum(lots: Seq<FifoLot>, a: Seq<FifoAllocation>, d: Seq<(usize, int, bool)>)
    requires
        a.len() == d.len(),
        forall|k: int| 0 <= k < d.len() ==> #[trigger] line_of(lots, a[k], d[k]),
    ensures
        allocated_sum(a) == drawn_sum(d),
    decreases a.len(),
{
    if a.len() > 0 {
        let a0 = a.drop_last();
        let d0 = d.drop_last();
        assert forall|k: int| 0 <= k < d0.len() implies #[trigger] line_of(lots, a0[k], d0[k]) by {
            assert(line_of(lots, a[k], d[k]));
        }
        assert(line_of(lots, a[a.len() - 1], d[d.len() - 1]));
        lemma_allocated_sum(lots, a0, d0);
    }
}

/// The quantities of the allocation lines add up to the fulfilled quantity,
/// and the fulfilled and missing quantities add up to the requested one, with
/// nothing missing below zero.
pub proof fn lemma_allocation_totals(req: FifoRequest, dates: Seq<Option<Date>>, today: Date, r: Result<FifoResult, String>)
    requires
        fifo_post_dated(req, dates, today, r),
        r is Ok,
    ensures
        allocated_sum(r->Ok_0.allocations@) == r->Ok_0.fulfilled_qty,
        r->Ok_0.fulfilled_qty + r->Ok_0.missing_qty == req.requested_qty,
        r->Ok_0.missing_qty >= 0,
{
    let d = draws(req.lots@, fifo_pool(req, dates, today), req.requested_qty as int);
    lemma_allocated_sum(req.lots@, r->Ok_0.allocations@, d);
}

/// Allocating the same request twice on the same date gives the same result:
/// the same error, or the same lines, quantities, flag and warnings.
pub proof fn lemma_allocation_deterministic(
    req: FifoRequest,
    dates: Seq<Option<Date>>,
    today: Date,
    r1: Result<FifoResult, String>,
    r2: Result<FifoResult, String>,
)
    requires
        fifo_post_dated(req, dates, today, r1),
        fifo_post_dated(req, dates, today, r2),
    ensures
        r1 is Ok <==> r2 is Ok,
        r1 is Err ==> r1->Err_0@ == r2->Err_0@,
        r1 is Ok ==> {
            let a = r1->Ok_0;
            let b = r2->Ok_0;
            &&& a.allocations@ == b.allocations@
            &&& a.fulfilled_qty == b.fulfilled_qty
            &&& a.missing_qty == b.missing_qty
            &&& a.used_expired == b.used_expired
            &&& a.warnings@.len() == b.warnings@.len()
            &&& forall|k: int| 0 <= k < a.warnings@.len() ==> #[trigger] a.warnings@[k]@ == b.warnings@[k]@
        },
{
    if r1 is Ok {
        let a = r1->Ok_0;
        let b = r2->Ok_0;
        let d = draws(req.lots@, fifo_pool(req, dates, today), req.requested_qty as int);
        assert forall|k: int| 0 <= k < d.len() implies a.allocations@[k] == b.allocations@[k] by {
            assert(line_of(req.lots@, a.allocations@[k], d[k]));
            assert(line_of(req.lots@, b.allocations@[k], d[k]));
        }
        assert(a.allocations@ =~= b.allocations@);
        assert forall|k: int| 0 <= k < a.warnings@.len() implies #[trigger] a.warnings@[k]@ == b.warnings@[k]@ by {
            assert(a.warnings@[k]@ == fifo_warnings(req, dates, today)[k]);
            assert(b.warnings@[k]@ == fifo_warnings(req, dates, today)[k]);
        }
    }
}

/// A request for nothing, or for less than nothing, is always refused.
pub proof fn lemma_non_positive_request_refused(
    req: FifoRequest,
    dates: Seq<Option<Date>>,
    today: Date,
    r: Result<FifoResult, String>,
)
    requires
        fifo_post_dated(req, dates, today, r),
        req.requested_qty <= 0,
    ensures
        r is Err,
{
}

/// The lots of `q` never go against FIFO order.
pub open spec fn fifo_sorted(lots: Seq<FifoLot>, dates: Seq<Option<Date>>, q: Seq<usize>) -> bool {
    forall|i: int, j: int|
        0 <= i < j < q.len() ==> !lot_before(lots, dates, (#[trigger] q[j]) as int, (#[trigger] q[i]) as int)
}

/// Lot `x` of the request: eligible, and marked expired exactly when its expiry
/// date is before `today`.
pub open spec fn entry_ok(req: FifoRequest, dates: Seq<Option<Date>>, today: Date, x: (usize, bool)) -> bool {
    &&& x.0 < req.lots@.len()
    &&& eligible(req, req.lots@[x.0 as int])
    &&& lot_expired(dates, x.0 as int, today) == x.1
}

pub open spec fn distinct(q: Seq<usize>) -> bool {
    forall|i: int, j: int| 0 <= i < q.len() && 0 <= j < q.len() && i != j ==> q[i] != q[j]
}

/// Lot `y` may be drawn after lot `x`: another lot, lots that are not expired come first,
/// and within each group the order is FIFO.
pub open spec fn drawn_in_order(lots: Seq<FifoLot>, dates: Seq<Option<Date>>, x: (usize, bool), y: (usize, bool)) -> bool {
    &&& x.0 != y.0
    &&& !(x.1 && !y.1)
    &&& x.1 == y.1 ==> !lot_before(lots, dates, y.0 as int, x.0 as int)
}

pub open spec fn pool_in_order(lots: Seq<FifoLot>, dates: Seq<Option<Date>>, pool: Seq<(usize, bool)>) -> bool {
    forall|i: int, j: int|
        0 <= i < j < pool.len() ==> #[trigger] drawn_in_order(lots, dates, pool[i], pool[j])
}

pub open spec fn draw_key(d: (usize, int, bool)) -> (usize, bool) {
    (d.0, d.2)
}

proof fn lemma_lot_before_transitive(lots: Seq<FifoLot>, dates: Seq<Option<Date>>, a: int, b: int, c: int)
    requires
        lot_before(lots, dates, a, b),
        lot_before(lots, dates, b, c),
    ensures
        lot_before(lots, dates, a, c),
{
    if lot_date(dates, a) == lot_date(dates, b) && lot_date(dates, b) == lot_date(dates, c) {
        crate::text::lemma_text_lt_transitive(lots[a].lot_id@, lots[b].lot_id@, lots[c].lot_id@);
    }
}

proof fn lemma_insert_fifo(lots: Seq<FifoLot>, dates: Seq<Option<Date>>, q: Seq<usize>, j: usize)
    requires
        fifo_sorted(lots, dates, q),
        distinct(q),
        !q.contains(j),
    ensures
        distinct(insert_fifo(lots, dates, q, j)),
        insert_fifo(lots, dates, q, j).len() == q.len() + 1,
        forall|k: int|
            0 <= k < q.len() + 1 ==> #[trigger] insert_fifo(lots, dates, q, j)[k] == j || q.contains(
                insert_fifo(lots, dates, q, j)[k],
            ),
        fifo_sorted(lots, dates, insert_fifo(lots, dates, q, j)),
    decreases q.len(),
{
    let r = insert_fifo(lots, dates, q, j);
    if q.len() == 0 {
    } else if lot_before(lots, dates, j as int, q[0] as int) {
        assert forall|a: int, b: int| 0 <= a < r.len() && 0 <= b < r.len() && a != b implies r[a]
            != r[b] by {
            if a > 0 && b > 0 {
                assert(r[a] == q[a - 1] && r[b] == q[b - 1]);
            } else if a == 0 {
                assert(r[b] == q[b - 1]);
            } else {
                assert(r[a] == q[a - 1]);
            }
        }
        assert forall|k: int| 0 <= k < q.len() + 1 implies #[trigger] r[k] == j || q.contains(r[k]) by {
            if k > 0 {
                assert(r[k] == q[k - 1]);
            }
        }
        assert forall|a: int, b: int| 0 <= a < b < r.len() implies !lot_before(lots, dates, (#[trigger] r[b]) as int, (#[trigger] r[a]) as int) by {
            assert(r[b] == q[b - 1]);
            if a > 0 {
                assert(r[a] == q[a - 1]);
            } else {
                assert(r[a] == j);
                if lot_before(lots, dates, r[b] as int, j as int) {
                    if b - 1 > 0 {
                        assert(!lot_before(lots, dates, q[b - 1] as int, q[0] as int));
                    } else {
                        crate::text::lemma_text_lt_total(lots[q[0] as int].lot_id@, lots[q[0] as int].lot_id@);
                    }
                    lemma_lot_before_transitive(lots, dates, r[b] as int, j as int, q[0] as int);
                }
            }
        }
    } else {
        let rest = q.drop_first();
        assert forall|a: int, b: int| 0 <= a < b < rest.len() implies !lot_before(lots, dates, (#[trigger] rest[b]) as int, (#[trigger] rest[a]) as int) by {
            assert(rest[a] == q[a + 1] && rest[b] == q[b + 1]);
        }
        assert forall|a: int, b: int| 0 <= a < rest.len() && 0 <= b < rest.len() && a != b implies rest[a]
            != rest[b] by {
            assert(rest[a] == q[a + 1] && rest[b] == q[b + 1]);
        }
        assert(!rest.contains(j)) by {
            if rest.contains(j) {
                let m = choose|m: int| 0 <= m < rest.len() && rest[m] == j;
                assert(q[m + 1] == j);
            }
        }
        lemma_insert_fifo(lots, dates, rest, j);
        let ins = insert_fifo(lots, dates, rest, j);
        assert(r == seq![q[0]] + ins);
        assert forall|a: int, b: int| 0 <= a < r.len() && 0 <= b < r.len() && a != b implies r[a]
            != r[b] by {
            if a > 0 && b > 0 {
                assert(r[a] == ins[a - 1] && r[b] == ins[b - 1]);
            } else {
                let k = if a == 0 { b } else { a };
                assert(r[k] == ins[k - 1]);
                assert(r[k] == j || q.contains(r[k])) by {
                    if ins[k - 1] != j {
                        assert(rest.contains(ins[k - 1]));
                        let m = choose|m: int| 0 <= m < rest.len() && rest[m] == ins[k - 1];
                        assert(q[m + 1] == ins[k - 1]);
                    }
                }
                if r[k] != j {
                    assert(rest.contains(ins[k - 1]));
                    let m = choose|m: int| 0 <= m < rest.len() && rest[m] == ins[k - 1];
                    assert(q[m + 1] == ins[k - 1]);
                    assert(q[0] != q[m + 1]);
                }
            }
        }
        assert forall|k: int| 0 <= k < q.len() + 1 implies #[trigger] r[k] == j || q.contains(r[k]) by {
            if k > 0 {
                assert(r[k] == ins[k - 1]);
                if ins[k - 1] != j {
                    assert(rest.contains(ins[k - 1]));
                    let m = choose|m: int| 0 <= m < rest.len() && rest[m] == ins[k - 1];
                    assert(q[m + 1] == ins[k - 1]);
                }
            } else {
                assert(q[0] == r[0]);
            }
        }
        assert forall|a: int, b: int| 0 <= a < b < r.len() implies !lot_before(lots, dates, (#[trigger] r[b]) as int, (#[trigger] r[a]) as int) by {
            assert(r[b] == ins[b - 1]);
            if a > 0 {
                assert(r[a] == ins[a - 1]);
            } else {
                assert(r[a] == q[0]);
                if ins[b - 1] != j {
                    assert(ins[b - 1] == j || rest.contains(ins[b - 1]));
                    let m = choose|m: int| 0 <= m < rest.len() && rest[m] == ins[b - 1];
                    assert(q[m + 1] == ins[b - 1]);
                }
            }
        }
    }
}

proof fn lemma_queue_sorted(req: FifoRequest, dates: Seq<Option<Date>>, today: Date, expired: bool, n: int)
    requires
        n <= req.lots@.len() <= usize::MAX,
    ensures
        fifo_sorted(req.lots@, dates, fifo_queue(req, dates, today, expired, n)),
        distinct(fifo_queue(req, dates, today, expired, n)),
        forall|k: int|
            0 <= k < fifo_queue(req, dates, today, expired, n).len() ==> {
                &&& (#[trigger] fifo_queue(req, dates, today, expired, n)[k]) < n
                &&& entry_ok(req, dates, today, (fifo_queue(req, dates, today, expired, n)[k], expired))
            },
    decreases n,
{
    if n > 0 {
        let prev = fifo_queue(req, dates, today, expired, n - 1);
        lemma_queue_sorted(req, dates, today, expired, n - 1);
        let l = req.lots@[n - 1];
        if eligible(req, l) && lot_expired(dates, n - 1, today) == expired {
            let j = (n - 1) as usize;
            assert(!prev.contains(j)) by {
                if prev.contains(j) {
                    let m = choose|m: int| 0 <= m < prev.len() && prev[m] == j;
                    assert(prev[m] < n - 1);
                }
            }
            lemma_insert_fifo(req.lots@, dates, prev, j);
            let q = fifo_queue(req, dates, today, expired, n);
            assert forall|k: int| 0 <= k < q.len() implies {
                &&& (#[trigger] q[k]) < n
                &&& entry_ok(req, dates, today, (q[k], expired))
            } by {
                if q[k] != j {
                    assert(prev.contains(q[k]));
                    let m = choose|m: int| 0 <= m < prev.len() && prev[m] == q[k];
                    assert(prev[m] < n - 1);
                }
            }
        }
    }
}

proof fn lemma_pool_in_order(req: FifoRequest, dates: Seq<Option<Date>>, today: Date)
    requires
        req.lots@.len() <= usize::MAX,
    ensures
        pool_in_order(req.lots@, dates, fifo_pool(req, dates, today)),
        forall|k: int|
            0 <= k < fifo_pool(req, dates, today).len() ==> #[trigger] entry_ok(req, dates, today,
                fifo_pool(req, dates, today)[k],
            ),
{
    let lots = req.lots@;
    let fresh = fresh_queue(req, dates, today);
    let old = expired_queue(req, dates, today);
    lemma_queue_sorted(req, dates, today, false, lots.len() as int);
    lemma_queue_sorted(req, dates, today, true, lots.len() as int);
    let f = tagged(fresh, false);
    let o = tagged(old, true);
    let pool = fifo_pool(req, dates, today);
    assert forall|k: int| 0 <= k < pool.len() implies #[trigger] entry_ok(req, dates, today, pool[k]) by {
        if fresh.len() == 0 {
            assert(pool[k] == o[k]);
            assert(old[k] < lots.len());
        } else if short_of_fresh(req, dates, today) {
            if k < f.len() {
                assert(pool[k] == f[k]);
                assert(fresh[k] < lots.len());
            } else {
                assert(pool[k] == o[k - f.len()]);
                assert(old[k - f.len()] < lots.len());
            }
        } else {
            assert(pool[k] == f[k]);
            assert(fresh[k] < lots.len());
        }
    }
    assert forall|i: int, j: int| 0 <= i < j < pool.len() implies #[trigger] drawn_in_order(lots, dates,
        pool[i],
        pool[j],
    ) by {
        assert(entry_ok(req, dates, today, pool[i]));
        assert(entry_ok(req, dates, today, pool[j]));
        if fresh.len() == 0 {
            assert(pool[i] == o[i] && pool[j] == o[j]);
            assert(!lot_before(lots, dates, old[j] as int, old[i] as int));
        } else if short_of_fresh(req, dates, today) {
            if j < f.len() {
                assert(pool[i] == f[i] && pool[j] == f[j]);
                assert(!lot_before(lots, dates, fresh[j] as int, fresh[i] as int));
            } else if i >= f.len() {
                assert(pool[i] == o[i - f.len()] && pool[j] == o[j - f.len()]);
                assert(!lot_before(lots, dates, old[j - f.len()] as int, old[i - f.len()] as int));
            } else {
                assert(pool[i] == f[i] && pool[j] == o[j - f.len()]);
            }
        } else {
            assert(pool[i] == f[i] && pool[j] == f[j]);
            assert(!lot_before(lots, dates, fresh[j] as int, fresh[i] as int));
        }
    }
}

proof fn lemma_draws_after(
    lots: Seq<FifoLot>,
    dates: Seq<Option<Date>>,
    pool: Seq<(usize, bool)>,
    remaining: int,
    x: (usize, bool),
)
    requires
        forall|m: int| 0 <= m < pool.len() ==> #[trigger] drawn_in_order(lots, dates, x, pool[m]),
    ensures
        forall|k: int|
            0 <= k < draws(lots, pool, remaining).len() ==> #[trigger] drawn_in_order(lots, dates,
                x,
                draw_key(draws(lots, pool, remaining)[k]),
            ),
    decreases pool.len(),
{
    if pool.len() > 0 && remaining > 0 {
        let rest = pool.drop_first();
        assert forall|m: int| 0 <= m < rest.len() implies #[trigger] drawn_in_order(lots, dates, x, rest[m]) by {
            assert(drawn_in_order(lots, dates, x, pool[m + 1]));
        }
        let take = min(remaining, lots[pool[0].0 as int].available_qty as int);
        let r2 = if take <= 0 { remaining } else { remaining - take };
        lemma_draws_after(lots, dates, rest, r2, x);
        let tail = draws(lots, rest, r2);
        let d = draws(lots, pool, remaining);
        assert forall|k: int| 0 <= k < d.len() implies #[trigger] drawn_in_order(lots, dates, x, draw_key(d[k])) by {
            if take > 0 {
                if k == 0 {
                    assert(drawn_in_order(lots, dates, x, pool[0]));
                } else {
                    assert(d[k] == tail[k - 1]);
                }
            } else {
                assert(d[k] == tail[k]);
            }
        }
    }
}

proof fn lemma_draws_in_order(
    req: FifoRequest,
    dates: Seq<Option<Date>>,
    today: Date,
    lots: Seq<FifoLot>,
    pool: Seq<(usize, bool)>,
    remaining: int,
)
    requires
        lots == req.lots@,
        pool_in_order(lots, dates, pool),
        forall|k: int| 0 <= k < pool.len() ==> #[trigger] entry_ok(req, dates, today, pool[k]),
    ensures
        ({
            let d = draws(lots, pool, remaining);
            &&& forall|i: int, j: int|
                0 <= i < j < d.len() ==> #[trigger] drawn_in_order(lots, dates, draw_key(d[i]), draw_key(d[j]))
            &&& forall|k: int|
                0 <= k < d.len() ==> #[trigger] d[k].0 < lots.len() && 0 < d[k].1 <= lots[d[k].0 as int].available_qty
                    && entry_ok(req, dates, today, draw_key(d[k]))
        }),
    decreases pool.len(),
{
    if pool.len() > 0 && remaining > 0 {
        let rest = pool.drop_first();
        assert forall|i: int, j: int| 0 <= i < j < rest.len() implies #[trigger] drawn_in_order(lots, dates,
            rest[i],
            rest[j],
        ) by {
            assert(drawn_in_order(lots, dates, pool[i + 1], pool[j + 1]));
        }
        assert forall|k: int| 0 <= k < rest.len() implies #[trigger] entry_ok(req, dates, today, rest[k]) by {
            assert(entry_ok(req, dates, today, pool[k + 1]));
        }
        assert(entry_ok(req, dates, today, pool[0]));
        let take = min(remaining, lots[pool[0].0 as int].available_qty as int);
        let r2 = if take <= 0 { remaining } else { remaining - take };
        lemma_draws_in_order(req, dates, today, lots, rest, r2);
        let tail = draws(lots, rest, r2);
        let d = draws(lots, pool, remaining);
        if take > 0 {
            assert forall|m: int| 0 <= m < rest.len() implies #[trigger] drawn_in_order(lots, dates,
                pool[0],
                rest[m],
            ) by {
                assert(drawn_in_order(lots, dates, pool[0], pool[m + 1]));
            }
            lemma_draws_after(lots, dates, rest, r2, pool[0]);
            assert(draw_key(d[0]) == pool[0]);
            assert forall|i: int, j: int| 0 <= i < j < d.len() implies #[trigger] drawn_in_order(lots, dates,
                draw_key(d[i]),
                draw_key(d[j]),
            ) by {
                assert(d[j] == tail[j - 1]);
                if i > 0 {
                    assert(d[i] == tail[i - 1]);
                }
            }
            assert forall|k: int| 0 <= k < d.len() implies #[trigger] d[k].0 < lots.len() && 0 < d[k].1
                <= lots[d[k].0 as int].available_qty by {
                if k > 0 {
                    assert(d[k] == tail[k - 1]);
                }
            }
        }
    }
}

/// Each allocation line draws from its own lot of the request, one of the
/// requested item at the requested location, more than nothing and no more
/// than the lot had, and is marked expired exactly when the lot's expiry date
/// is before `today`. Lots that are not expired are drawn from before expired
/// ones, and within each group in FIFO order: earlier expiry first, then lower
/// lot identifier.
pub proof fn lemma_allocation_order(req: FifoRequest, dates: Seq<Option<Date>>, today: Date, r: Result<FifoResult, String>)
    requires
        req.lots@.len() <= usize::MAX,
        dates.len() == req.lots@.len(),
        fifo_post_dated(req, dates, today, r),
        r is Ok,
    ensures
        ({
            let a = r->Ok_0.allocations@;
            let lots = req.lots@;
            let d = draws(lots, fifo_pool(req, dates, today), req.requested_qty as int);
            &&& a.len() == d.len()
            &&& forall|k: int|
                0 <= k < a.len() ==> {
                    &&& d[k].0 < lots.len()
                    &&& #[trigger] a[k].lot_id == lots[d[k].0 as int].lot_id
                    &&& a[k].expires_at == lots[d[k].0 as int].expires_at
                    &&& lots[d[k].0 as int].item_id@ == req.item_id@
                    &&& lots[d[k].0 as int].location_id@ == req.location_id@
                    &&& 0 < a[k].qty <= lots[d[k].0 as int].available_qty
                    &&& a[k].is_expired == lot_expired(dates, d[k].0 as int, today)
                }
            &&& forall|i: int, j: int|
                #![trigger d[i], d[j]]
                0 <= i < j < d.len() ==> d[i].0 != d[j].0
            &&& forall|i: int, j: int|
                #![trigger a[i], a[j]]
                0 <= i < j < a.len() ==> {
                    &&& !(a[i].is_expired && !a[j].is_expired)
                    &&& a[i].is_expired == a[j].is_expired ==> !lot_before(lots, dates, d[j].0 as int, d[i].0 as int)
                }
        }),
{
    let a = r->Ok_0.allocations@;
    let lots = req.lots@;
    let d = draws(lots, fifo_pool(req, dates, today), req.requested_qty as int);
    lemma_pool_in_order(req, dates, today);
    lemma_draws_in_order(req, dates, today, lots, fifo_pool(req, dates, today), req.requested_qty as int);
    assert forall|k: int| 0 <= k < a.len() implies {
        &&& d[k].0 < lots.len()
        &&& #[trigger] a[k].lot_id == lots[d[k].0 as int].lot_id
        &&& a[k].expires_at == lots[d[k].0 as int].expires_at
        &&& lots[d[k].0 as int].item_id@ == req.item_id@
        &&& lots[d[k].0 as int].location_id@ == req.location_id@
        &&& 0 < a[k].qty <= lots[d[k].0 as int].available_qty
        &&& a[k].is_expired == lot_expired(dates, d[k].0 as int, today)
    } by {
        assert(line_of(lots, a[k], d[k]));
        assert(entry_ok(req, dates, today, draw_key(d[k])));
    }
    assert forall|i: int, j: int|
        #![trigger a[i], a[j]]
        0 <= i < j < a.len() implies {
        &&& !(a[i].is_expired && !a[j].is_expired)
        &&& a[i].is_expired == a[j].is_expired ==> !lot_before(lots, dates, d[j].0 as int, d[i].0 as int)
    } by {
        assert(line_of(lots, a[i], d[i]));
        assert(line_of(lots, a[j], d[j]));
        assert(drawn_in_order(lots, dates, draw_key(d[i]), draw_key(d[j])));
        assert(draw_key(d[i]).0 == d[i].0 && draw_key(d[j]).0 == d[j].0);
    }
    assert forall|i: int, j: int| #![trigger d[i], d[j]] 0 <= i < j < d.len() implies d[i].0
        != d[j].0 by {
        assert(drawn_in_order(lots, dates, draw_key(d[i]), draw_key(d[j])));
        assert(draw_key(d[i]).0 == d[i].0 && draw_key(d[j]).0 == d[j].0);
    }
}

} // verus!
