//! The aggregation engine: freshness filtering, quorum gating and exact
//! median computation over the surviving report set.

use vstd::prelude::*;
use vstd::relations::{sorted_by, total_ordering};
use crate::arith::spec_sat_sub;
use crate::types::{Price, PriceReport, ReportV, report_view, reports_view};

verus! {

/// The order the multipliers are sorted by.
pub open spec fn le_u128() -> spec_fn(u128, u128) -> bool {
    |x: u128, y: u128| x <= y
}

pub proof fn lemma_le_u128_total()
    ensures
        total_ordering(le_u128()),
{
}

/// Two sorted sequences holding the same values in the same quantities are
/// equal, so "the sorted form" of a report set is well defined.
pub proof fn lemma_sorted_unique(a: Seq<u128>, b: Seq<u128>)
    requires
        sorted_by(a, le_u128()),
        sorted_by(b, le_u128()),
        a.to_multiset() == b.to_multiset(),
    ensures
        a =~= b,
    decreases a.len(),
{
    broadcast use vstd::seq_lib::group_to_multiset_ensures;

    if a.len() == 0 {
        assert(b.to_multiset().len() == 0);
    } else {
        assert(a.to_multiset().len() == a.len());
        assert(b.to_multiset().len() == b.len());
        assert(b.len() > 0);
        assert(a.contains(a[0])) by {
            assert(0 <= 0 < a.len() && a[0] == a[0]);
        }
        assert(b.contains(b[0])) by {
            assert(0 <= 0 < b.len() && b[0] == b[0]);
        }
        assert(a.to_multiset().count(a[0]) > 0);
        assert(b.to_multiset().count(a[0]) > 0);
        assert(b.contains(a[0]));
        assert(b.to_multiset().count(b[0]) > 0);
        assert(a.to_multiset().count(b[0]) > 0);
        assert(a.contains(b[0]));
        let ia = choose|i: int| 0 <= i < a.len() && a[i] == b[0];
        let ib = choose|i: int| 0 <= i < b.len() && b[i] == a[0];
        if ia > 0 {
            assert(le_u128()(a[0], a[ia]));
        }
        if ib > 0 {
            assert(le_u128()(b[0], b[ib]));
        }
        assert(a[0] <= b[0] && b[0] <= a[0]);
        assert(a[0] == b[0]);
        let a1 = a.drop_first();
        let b1 = b.drop_first();
        assert(a1 =~= a.remove(0));
        assert(b1 =~= b.remove(0));
        assert(a1.to_multiset() =~= a.to_multiset().remove(a[0]));
        assert(b1.to_multiset() =~= b.to_multiset().remove(b[0]));
        assert(forall|i: int, j: int|
            0 <= i < j < a1.len() ==> le_u128()(a1[i], a1[j]));
        lemma_sorted_unique(a1, b1);
        assert(a =~= seq![a[0]] + a1);
        assert(b =~= seq![b[0]] + b1);
    }
}

/// Sorts by repeatedly extracting the minimum.
pub fn sort_u128(v: &Vec<u128>) -> (r: Vec<u128>)
    ensures
        sorted_by(r@, le_u128()),
        r@.to_multiset() == v@.to_multiset(),
        r@ == v@.sort_by(le_u128()),
{
    broadcast use vstd::seq_lib::group_to_multiset_ensures;

    let mut work: Vec<u128> = Vec::new();
    let n = v.len();
    let mut i: usize = 0;
    while i < n
        invariant
            n == v@.len(),
            i <= n,
            work@ =~= v@.subrange(0, i as int),
        decreases n - i,
    {
        work.push(v[i]);
        proof {
            assert(work@ =~= v@.subrange(0, i + 1 as int));
        }
        i += 1;
    }
    proof {
        assert(work@ =~= v@);
    }

    let mut r: Vec<u128> = Vec::new();
    while work.len() > 0
        invariant
            r@.to_multiset().add(work@.to_multiset()) == v@.to_multiset(),
            sorted_by(r@, le_u128()),
            forall|p: int, q: int|
                0 <= p < r@.len() && 0 <= q < work@.len() ==> r@[p] <= work@[q],
        decreases work.len(),
    {
        let ghost old_r = r@;
        let ghost old_w = work@;
        let mut m: usize = 0;
        let mut j: usize = 1;
        while j < work.len()
            invariant
                work@.len() > 0,
                m < j <= work@.len() || (j <= work@.len() && m < work@.len()),
                m < work@.len(),
                forall|q: int| 0 <= q < j ==> work@[m as int] <= work@[q],
            decreases work.len() - j,
        {
            if work[j] < work[m] {
                m = j;
            }
            j += 1;
        }
        let x = work.remove(m);
        r.push(x);
        proof {
            broadcast use vstd::seq_lib::group_to_multiset_ensures;

            assert(old_w[m as int] == x);
            assert(work@ =~= old_w.remove(m as int));
            assert(old_w.remove(m as int).to_multiset() =~= old_w.to_multiset().remove(x));
            assert(r@ =~= old_r.push(x));
            assert(old_r.push(x).to_multiset() =~= old_r.to_multiset().insert(x));
            assert(old_w.to_multiset().contains(x));
            assert(r@.to_multiset().add(work@.to_multiset()) =~= old_r.to_multiset().add(
                old_w.to_multiset(),
            ));
            assert forall|p: int| 0 <= p < old_r.len() implies old_r[p] <= x by {
                assert(r@[p] == old_r[p]);
            }
            assert(sorted_by(r@, le_u128()));
            assert forall|p: int, q: int|
                0 <= p < r@.len() && 0 <= q < work@.len() implies r@[p] <= work@[q] by {
                let q0 = if q < m { q } else { q + 1 };
                assert(work@[q] == old_w[q0]);
                if p < old_r.len() {
                    assert(r@[p] == old_r[p]);
                } else {
                    assert(r@[p] == x);
                    assert(x <= old_w[q0]);
                }
            }
        }
    }
    proof {
        assert(work@.to_multiset().len() == 0);
        assert(r@.to_multiset() =~= v@.to_multiset());
        lemma_le_u128_total();
        v@.lemma_sort_by_ensures(le_u128());
        lemma_sorted_unique(r@, v@.sort_by(le_u128()));
    }
    r
}

/// The multipliers of a report set, in report order.
pub open spec fn multipliers_of(rs: Seq<ReportV>) -> Seq<u128> {
    rs.map_values(|r: ReportV| r.price.multiplier)
}

/// The exact integer median of a non-empty value set: the middle element of
/// the sorted form for odd counts, the truncating average of the two middle
/// elements for even counts.
pub open spec fn median_of(vals: Seq<u128>) -> u128 {
    let s = vals.sort_by(le_u128());
    if vals.len() % 2 == 1 {
        s[vals.len() as int / 2]
    } else {
        (((s[vals.len() as int / 2 - 1] + s[vals.len() as int / 2]) as int) / 2) as u128
    }
}

/// The greatest `timestamp` among the reports (0 when there are none).
pub open spec fn max_ts_of(rs: Seq<ReportV>) -> u64
    decreases rs.len(),
{
    if rs.len() == 0 {
        0
    } else if rs.last().timestamp >= max_ts_of(rs.drop_last()) {
        rs.last().timestamp
    } else {
        max_ts_of(rs.drop_last())
    }
}

/// Holds of the reports that recency filtering keeps.
pub open spec fn fresh_pred(threshold: u64, now: u64) -> spec_fn(ReportV) -> bool {
    |r: ReportV| r.timestamp >= spec_sat_sub(now, threshold)
}

/// The reports that survive recency filtering: those no older than
/// `now - threshold`. A threshold of 0 disables filtering.
pub open spec fn fresh_of(rs: Seq<ReportV>, threshold: u64, now: u64) -> Seq<ReportV> {
    if threshold > 0 {
        rs.filter(fresh_pred(threshold, now))
    } else {
        rs
    }
}

/// How many distinct sources an asset needs before a price is published.
pub open spec fn spec_required_sources(global_min: u8, asset_min: u8) -> int {
    let m = if global_min >= asset_min {
        global_min as int
    } else {
        asset_min as int
    };
    if m >= 1 {
        m
    } else {
        1
    }
}

/// The price published for a non-empty surviving report set: the median
/// multiplier, the first report's decimals, the maximum report timestamp.
pub open spec fn agg_price_of(rs: Seq<ReportV>) -> Price {
    Price {
        multiplier: median_of(multipliers_of(rs)),
        decimals: rs[0].price.decimals,
        timestamp: max_ts_of(rs),
    }
}

pub fn required_sources(global_min: u8, asset_min: u8) -> (r: usize)
    ensures
        r == spec_required_sources(global_min, asset_min),
{
    let m = if global_min >= asset_min {
        global_min
    } else {
        asset_min
    };
    if m >= 1 {
        m as usize
    } else {
        1
    }
}

/// A copy of a report carrying the same view.
pub fn clone_report(r: &PriceReport) -> (c: PriceReport)
    ensures
        report_view(c) == report_view(*r),
{
    PriceReport { oracle_id: r.oracle_id.clone(), price: r.price, timestamp: r.timestamp }
}

/// The reports that survive recency filtering, in order.
pub fn filter_fresh(rs: &Vec<PriceReport>, threshold: u64, now: u64) -> (r: Vec<PriceReport>)
    ensures
        reports_view(r@) == fresh_of(reports_view(rs@), threshold, now),
{
    if threshold == 0 {
        let mut r: Vec<PriceReport> = Vec::new();
        let n = rs.len();
        let mut i: usize = 0;
        while i < n
            invariant
                n == rs@.len(),
                i <= n,
                reports_view(r@) =~= reports_view(rs@.subrange(0, i as int)),
            decreases n - i,
        {
            r.push(clone_report(&rs[i]));
            proof {
                assert(rs@.subrange(0, i + 1 as int).drop_last() =~= rs@.subrange(0, i as int));
                assert(reports_view(rs@.subrange(0, i + 1 as int)) =~= reports_view(
                    rs@.subrange(0, i as int),
                ).push(report_view(rs@[i as int])));
                assert(reports_view(r@) =~= reports_view(rs@.subrange(0, i as int)).push(
                    report_view(rs@[i as int]),
                ));
            }
            i += 1;
        }
        proof {
            assert(rs@.subrange(0, n as int) =~= rs@);
            assert(reports_view(r@) =~= fresh_of(reports_view(rs@), threshold, now));
        }
        r
    } else {
        let min_ts = crate::arith::saturating_sub_u64(now, threshold);
        let ghost pred = fresh_pred(threshold, now);
        let mut r: Vec<PriceReport> = Vec::new();
        let n = rs.len();
        proof {
            reveal(Seq::filter);
            assert(reports_view(rs@.subrange(0, 0)).len() == 0);
            assert(reports_view(r@) =~= reports_view(rs@.subrange(0, 0)).filter(pred));
        }
        let mut i: usize = 0;
        while i < n
            invariant
                n == rs@.len(),
                i <= n,
                min_ts == spec_sat_sub(now, threshold),
                pred == fresh_pred(threshold, now),
                reports_view(r@) =~= reports_view(rs@.subrange(0, i as int)).filter(pred),
            decreases n - i,
        {
            proof {
                reveal(Seq::filter);
                let s1 = reports_view(rs@.subrange(0, i + 1 as int));
                assert(s1.len() == i + 1);
                assert(s1.last() == report_view(rs@[i as int]));
                assert(s1.drop_last() =~= reports_view(rs@.subrange(0, i as int)));
            }
            if rs[i].timestamp >= min_ts {
                r.push(clone_report(&rs[i]));
                proof {
                    reveal(Seq::filter);
                    assert(pred(report_view(rs@[i as int])));
                    assert(reports_view(rs@.subrange(0, i + 1 as int)).filter(pred)
                        =~= reports_view(rs@.subrange(0, i as int)).filter(pred).push(
                        report_view(rs@[i as int]),
                    ));
                }
            } else {
                proof {
                    reveal(Seq::filter);
                    assert(!pred(report_view(rs@[i as int])));
                    assert(reports_view(rs@.subrange(0, i + 1 as int)).filter(pred)
                        =~= reports_view(rs@.subrange(0, i as int)).filter(pred));
                }
            }
            i += 1;
        }
        proof {
            assert(rs@.subrange(0, n as int) =~= rs@);
        }
        r
    }
}

/// The aggregated price of a non-empty report set.
pub fn aggregate_price(rs: &Vec<PriceReport>) -> (p: Price)
    requires
        rs@.len() > 0,
    ensures
        p == agg_price_of(reports_view(rs@)),
{
    let n = rs.len();

    // multipliers, in report order
    let mut vals: Vec<u128> = Vec::new();
    let mut i: usize = 0;
    while i < n
        invariant
            n == rs@.len(),
            i <= n,
            vals@.len() == i,
            forall|j: int| 0 <= j < i ==> vals@[j] == rs@[j].price.multiplier,
        decreases n - i,
    {
        vals.push(rs[i].price.multiplier);
        i += 1;
    }
    proof {
        assert(vals@ =~= multipliers_of(reports_view(rs@)));
    }

    let sorted = sort_u128(&vals);
    let len = sorted.len();
    proof {
        broadcast use vstd::seq_lib::group_to_multiset_ensures;

        assert(sorted@.to_multiset().len() == vals@.to_multiset().len());
        assert(len == vals@.len());
    }
    let median: u128 = if len % 2 == 1 {
        sorted[len / 2]
    } else {
        let a = sorted[len / 2 - 1];
        let b = sorted[len / 2];
        proof {
            assert(le_u128()(a, b));
        }
        let half = (b - a) / 2;
        proof {
            assert(a + (b - a) / 2 == ((a + b) as int) / 2) by (nonlinear_arith)
                requires
                    a <= b,
            ;
        }
        a + half
    };

    // greatest timestamp
    let mut max_ts: u64 = 0;
    let mut i: usize = 0;
    while i < n
        invariant
            n == rs@.len(),
            i <= n,
            max_ts == max_ts_of(reports_view(rs@).subrange(0, i as int)),
        decreases n - i,
    {
        proof {
            assert(reports_view(rs@).subrange(0, i + 1 as int).drop_last() =~= reports_view(
                rs@,
            ).subrange(0, i as int));
        }
        if rs[i].timestamp > max_ts {
            max_ts = rs[i].timestamp;
        }
        i += 1;
    }
    proof {
        assert(reports_view(rs@).subrange(0, n as int) =~= reports_view(rs@));
    }

    Price { multiplier: median, decimals: rs[0].price.decimals, timestamp: max_ts }
}

} // verus!
