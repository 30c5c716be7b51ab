//! The library's laws, each proved once and for all inputs: what the
//! published price is, when it exists, that approvals are idempotent, that
//! rebinding or removal fully detaches a demoted node and scrubs its
//! reports everywhere, and that the operator-node binding stays a
//! bidirectional one-to-one map.

use vstd::prelude::*;
use crate::aggregate::{
    agg_price_of, fresh_of, max_ts_of, median_of, multipliers_of, spec_required_sources,
};
use crate::oracle::{
    Oracle, approvals_after, cascade_at, finalize_rel, prune_pred, remove_operator_post,
    report_price_post, same_assets, same_prices, set_node_post,
};
use crate::types::ReportV;

verus! {

/// The greatest report timestamp really is one of the report timestamps,
/// and no report is younger.
pub proof fn lemma_max_ts_is_max(rs: Seq<ReportV>)
    requires
        rs.len() > 0,
    ensures
        forall|i: int| 0 <= i < rs.len() ==> rs[i].timestamp <= max_ts_of(rs),
        exists|i: int| 0 <= i < rs.len() && rs[i].timestamp == max_ts_of(rs),
    decreases rs.len(),
{
    if rs.len() == 1 {
        assert(rs.drop_last().len() == 0);
        assert(max_ts_of(rs.drop_last()) == 0);
        assert(rs[0] == rs.last());
        assert(rs[0].timestamp == max_ts_of(rs));
    } else {
        lemma_max_ts_is_max(rs.drop_last());
        let sub = rs.drop_last();
        assert(forall|i: int| 0 <= i < sub.len() ==> rs[i] == sub[i]);
        if rs.last().timestamp >= max_ts_of(sub) {
            assert(rs[rs.len() - 1] == rs.last());
            assert(rs[rs.len() - 1].timestamp == max_ts_of(rs));
        } else {
            let j = choose|i: int| 0 <= i < sub.len() && #[trigger] sub[i].timestamp == max_ts_of(
                sub,
            );
            assert(rs[j] == sub[j]);
            assert(rs[j].timestamp == max_ts_of(rs));
        }
    }
}

/// Law: the price published for a surviving report set carries the exact
/// integer median of the surviving multipliers and the greatest surviving
/// timestamp.
pub proof fn lemma_published_price_is_median_and_max(rs: Seq<ReportV>)
    requires
        rs.len() > 0,
    ensures
        agg_price_of(rs).multiplier == median_of(multipliers_of(rs)),
        agg_price_of(rs).timestamp == max_ts_of(rs),
        forall|i: int| 0 <= i < rs.len() ==> rs[i].timestamp <= agg_price_of(rs).timestamp,
        exists|i: int| 0 <= i < rs.len() && rs[i].timestamp == agg_price_of(rs).timestamp,
{
    lemma_max_ts_is_max(rs);
}

/// Law: after the finalize step, an aggregated price exists exactly when
/// enough reports survived recency filtering; with too few survivors the
/// reports are retained but the asset is unpriced, and the published price,
/// when there is one, is the median-and-maximum aggregate of the survivors.
pub proof fn lemma_quorum_gates_publication(
    o: Oracle,
    f: Oracle,
    id: Seq<char>,
    rs: Seq<ReportV>,
    min_sources: u8,
    now: u64,
)
    requires
        finalize_rel(o, f, id, rs, min_sources, now),
    ensures
        ({
            let fresh = fresh_of(rs, o.recency_threshold, now);
            let req = spec_required_sources(o.min_report_count, min_sources);
            &&& (fresh.len() >= req && fresh.len() > 0 ==> f.agg_for(id) == Some(
                agg_price_of(fresh),
            ) && f.reports_for(id) == Some(fresh))
            &&& (0 < fresh.len() < req ==> f.agg_for(id) is None && f.reports_for(id) == Some(
                fresh,
            ))
            &&& (fresh.len() == 0 ==> f.agg_for(id) is None && f.reports_for(id) is None)
        }),
{
}

/// Law: approving twice is the same as approving once — a duplicate
/// approval by the same voter never changes the approval list, so never its
/// count.
pub proof fn lemma_approve_idempotent(a: Seq<Seq<char>>, v: Seq<char>)
    ensures
        approvals_after(approvals_after(a, v), v) == approvals_after(a, v),
        approvals_after(approvals_after(a, v), v).len() == approvals_after(a, v).len(),
{
    if !a.contains(v) {
        assert(a.push(v)[a.len() as int] == v);
        assert(a.push(v).contains(v));
    }
}

/// Law: binding a node and then rebinding the same operator to a different
/// node leaves the operator bound to the second node alone; the first node
/// is fully deauthorized: no longer bound, authorized, or recorded, and no
/// stored report anywhere names it. (The reports-keyed-by-assets hypothesis
/// holds of every reachable state; see the preservation lemmas below.)
pub proof fn lemma_rebind_detaches_first(
    o: Oracle,
    m: Oracle,
    f: Oracle,
    op: Seq<char>,
    n1: Seq<char>,
    n2: Seq<char>,
    now1: u64,
    now2: u64,
)
    requires
        set_node_post(o, m, op, n1, now1),
        set_node_post(m, f, op, n2, now2),
        reports_keyed_by_assets(m),
        n1 != n2,
    ensures
        f.op_node_of(op) == Some(n2),
        f.node_op_of(n2) == Some(op),
        f.node_op_of(n1) is None,
        !f.spec_is_authorized(n1),
        f.node_rec_of(n1) is None,
        forall|k: Seq<char>, i: int|
            #![trigger f.reports_for(k)->Some_0[i]]
            f.reports_for(k) is Some && 0 <= i < f.reports_for(k)->Some_0.len()
                ==> f.reports_for(k)->Some_0[i].oracle_id != n1,
{
    assert(m.op_node_of(op) == Some(n1));
    lemma_cascade_scrubs(m, f, n1, now2);
}

/// Every element that a filter keeps satisfies any property all the
/// original elements had.
proof fn lemma_filter_preserves_all(
    s: Seq<ReportV>,
    q: spec_fn(ReportV) -> bool,
    p: spec_fn(ReportV) -> bool,
)
    requires
        forall|i: int| 0 <= i < s.len() ==> p(#[trigger] s[i]),
    ensures
        forall|i: int| 0 <= i < s.filter(q).len() ==> p(#[trigger] s.filter(q)[i]),
    decreases s.len(),
{
    reveal(Seq::filter);
    if s.len() > 0 {
        let sub = s.drop_last();
        assert(forall|i: int| 0 <= i < sub.len() ==> p(#[trigger] sub[i]));
        lemma_filter_preserves_all(sub, q, p);
        assert(p(s.last()));
        let fs = s.filter(q);
        assert forall|i: int| 0 <= i < fs.len() implies p(#[trigger] fs[i]) by {
            if q(s.last()) {
                assert(fs == sub.filter(q).push(s.last()));
                if i < sub.filter(q).len() {
                    assert(fs[i] == sub.filter(q)[i]);
                } else {
                    assert(fs[i] == s.last());
                }
            } else {
                assert(fs == sub.filter(q));
                assert(fs[i] == sub.filter(q)[i]);
            }
        }
    }
}

/// A cascade that pruned `node` from every asset leaves no stored report
/// anywhere naming `node`, provided reports are keyed by existing assets.
pub proof fn lemma_cascade_scrubs(o: Oracle, f: Oracle, node: Seq<char>, now: u64)
    requires
        forall|k: Seq<char>| #[trigger] cascade_at(o, f, k, node, now),
        reports_keyed_by_assets(o),
    ensures
        forall|k: Seq<char>, i: int|
            #![trigger f.reports_for(k)->Some_0[i]]
            f.reports_for(k) is Some && 0 <= i < f.reports_for(k)->Some_0.len()
                ==> f.reports_for(k)->Some_0[i].oracle_id != node,
{
    assert forall|k: Seq<char>, i: int|
        f.reports_for(k) is Some && 0 <= i < f.reports_for(k)->Some_0.len() implies #[trigger] f
        .reports_for(k)->Some_0[i].oracle_id != node by {
        assert(cascade_at(o, f, k, node, now));
        if o.asset_of(k) is Some && o.reports_for(k) is Some {
            broadcast use vstd::seq_lib::group_filter_ensures;

            let rs0 = o.reports_for(k)->Some_0;
            let pruned = rs0.filter(prune_pred(node));
            assert(forall|j: int|
                0 <= j < pruned.len() ==> prune_pred(node)(#[trigger] pruned[j]));
            let fresh = fresh_of(pruned, o.recency_threshold, now);
            if o.recency_threshold > 0 {
                lemma_filter_preserves_all(
                    pruned,
                    crate::aggregate::fresh_pred(o.recency_threshold, now),
                    prune_pred(node),
                );
            }
            assert(forall|j: int| 0 <= j < fresh.len() ==> prune_pred(node)(#[trigger] fresh[j]));
            assert(f.reports_for(k) == Some(fresh));
        } else {
            assert(f.reports_for(k) == o.reports_for(k));
            assert(o.reports_for(k) is Some ==> o.asset_of(k) is Some);
            assert(false);
        }
    }
}

/// Law: removing an operator with a bound node removes that node's
/// contribution from every asset's surviving report set — afterwards no
/// stored report anywhere names the removed node.
pub proof fn lemma_removal_scrubs_node(o: Oracle, f: Oracle, op: Seq<char>, now: u64)
    requires
        remove_operator_post(o, f, op, now),
        o.op_node_of(op) is Some,
        reports_keyed_by_assets(o),
    ensures
        ({
            let node = o.op_node_of(op)->Some_0;
            forall|k: Seq<char>, i: int|
                #![trigger f.reports_for(k)->Some_0[i]]
                f.reports_for(k) is Some && 0 <= i < f.reports_for(k)->Some_0.len()
                    ==> f.reports_for(k)->Some_0[i].oracle_id != node
        }),
{
    let node = o.op_node_of(op)->Some_0;
    lemma_cascade_scrubs(o, f, node, now);
}

} // verus!

verus! {

/// Reports are stored only under existing asset ids. This holds of the
/// fresh state and is preserved by every operation, which discharges the
/// hypothesis of `lemma_removal_scrubs_node` for every reachable state.
pub open spec fn reports_keyed_by_assets(o: Oracle) -> bool {
    forall|k: Seq<char>| #[trigger] o.reports_for(k) is Some ==> o.asset_of(k) is Some
}

/// A state with no stored reports satisfies the invariant; in particular a
/// fresh oracle does.
pub proof fn lemma_empty_reports_inv(o: Oracle)
    requires
        o.price_reports.pairs@.len() == 0,
    ensures
        reports_keyed_by_assets(o),
{
}

/// Operations that touch neither the report tables nor the asset table
/// preserve the invariant.
pub proof fn lemma_untouched_preserves_inv(o: Oracle, f: Oracle)
    requires
        reports_keyed_by_assets(o),
        same_prices(o, f),
        same_assets(o, f),
    ensures
        reports_keyed_by_assets(f),
{
    assert forall|k: Seq<char>| #[trigger] f.reports_for(k) is Some implies f.asset_of(k)
        is Some by {
        assert(f.reports_for(k) == o.reports_for(k));
        assert(f.asset_of(k) == o.asset_of(k));
    }
}

/// Creating or replacing an asset record preserves the invariant: the asset
/// domain only grows.
pub proof fn lemma_add_asset_preserves_inv(o: Oracle, f: Oracle, id: Seq<char>, a: crate::types::Asset)
    requires
        reports_keyed_by_assets(o),
        o.wf(),
        crate::kv::upserted(o.assets.pairs@, f.assets.pairs@, id, a),
        same_prices(o, f),
    ensures
        reports_keyed_by_assets(f),
{
    crate::kv::lemma_upserted(o.assets.pairs@, f.assets.pairs@, id, a);
    assert forall|k: Seq<char>| #[trigger] f.reports_for(k) is Some implies f.asset_of(k)
        is Some by {
        assert(f.reports_for(k) == o.reports_for(k));
        if k != id {
            assert(crate::kv::has_key(f.assets.pairs@, k) == crate::kv::has_key(
                o.assets.pairs@,
                k,
            ));
        }
    }
}

/// A successful price report preserves the invariant: it only stores
/// reports under the asset it was made for, which exists.
pub proof fn lemma_report_preserves_inv(
    o: Oracle,
    f: Oracle,
    node: Seq<char>,
    id: Seq<char>,
    multiplier: u128,
    decimals: u8,
    now: u64,
)
    requires
        reports_keyed_by_assets(o),
        o.asset_of(id) is Some,
        report_price_post(o, f, node, id, multiplier, decimals, now),
    ensures
        reports_keyed_by_assets(f),
{
    assert forall|k: Seq<char>| #[trigger] f.reports_for(k) is Some implies f.asset_of(k)
        is Some by {
        assert(f.asset_of(k) == o.asset_of(k));
        if k != id {
            assert(f.reports_for(k) == o.reports_for(k));
        }
    }
}

/// Rebinding a node preserves the invariant: the demoted node's cascade
/// re-finalizes only existing assets, and other keys are untouched.
pub proof fn lemma_rebind_preserves_inv(
    o: Oracle,
    f: Oracle,
    op: Seq<char>,
    node: Seq<char>,
    now: u64,
)
    requires
        reports_keyed_by_assets(o),
        set_node_post(o, f, op, node, now),
        same_assets(o, f),
    ensures
        reports_keyed_by_assets(f),
{
    assert forall|k: Seq<char>| #[trigger] f.reports_for(k) is Some implies f.asset_of(k)
        is Some by {
        assert(f.asset_of(k) == o.asset_of(k));
        match o.op_node_of(op) {
            Some(prev) => {
                assert(cascade_at(o, f, k, prev, now));
                if !(o.asset_of(k) is Some && o.reports_for(k) is Some) {
                    assert(f.reports_for(k) == o.reports_for(k));
                }
            },
            None => {
                assert(f.reports_for(k) == o.reports_for(k));
            },
        }
    }
}

/// Removing an operator preserves the invariant: re-finalizing an asset's
/// reports stores them only under that asset, and other keys are untouched.
pub proof fn lemma_removal_preserves_inv(o: Oracle, f: Oracle, op: Seq<char>, now: u64)
    requires
        reports_keyed_by_assets(o),
        remove_operator_post(o, f, op, now),
    ensures
        reports_keyed_by_assets(f),
{
    assert forall|k: Seq<char>| #[trigger] f.reports_for(k) is Some implies f.asset_of(k)
        is Some by {
        assert(f.asset_of(k) == o.asset_of(k));
        match o.op_node_of(op) {
            Some(node) => {
                assert(cascade_at(o, f, k, node, now));
                if !(o.asset_of(k) is Some && o.reports_for(k) is Some) {
                    assert(f.reports_for(k) == o.reports_for(k));
                }
            },
            None => {
                assert(f.reports_for(k) == o.reports_for(k));
            },
        }
    }
}

} // verus!

verus! {

/// The operator-node binding tables form a bidirectional one-to-one map:
/// each direction is the inverse of the other.
pub open spec fn bindings_mutually_inverse(o: Oracle) -> bool {
    &&& forall|op: Seq<char>|
        #[trigger] o.op_node_of(op) is Some ==> o.node_op_of(o.op_node_of(op)->Some_0) == Some(
            op,
        )
    &&& forall|n: Seq<char>|
        #[trigger] o.node_op_of(n) is Some ==> o.op_node_of(o.node_op_of(n)->Some_0) == Some(n)
}

/// A state with empty binding tables satisfies the invariant; in particular
/// a fresh oracle does.
pub proof fn lemma_empty_bindings_inverse(o: Oracle)
    requires
        o.operator_to_node.pairs@.len() == 0,
        o.node_to_operator.pairs@.len() == 0,
    ensures
        bindings_mutually_inverse(o),
{
}

/// Operations that do not touch the binding tables preserve the invariant.
pub proof fn lemma_untouched_preserves_1to1(o: Oracle, f: Oracle)
    requires
        bindings_mutually_inverse(o),
        f.operator_to_node.pairs@ == o.operator_to_node.pairs@,
        f.node_to_operator.pairs@ == o.node_to_operator.pairs@,
    ensures
        bindings_mutually_inverse(f),
{
    assert forall|op: Seq<char>| #[trigger] f.op_node_of(op) is Some implies f.node_op_of(
        f.op_node_of(op)->Some_0,
    ) == Some(op) by {
        assert(f.op_node_of(op) == o.op_node_of(op));
        assert(f.node_op_of(o.op_node_of(op)->Some_0) == o.node_op_of(o.op_node_of(op)->Some_0));
    }
    assert forall|n: Seq<char>| #[trigger] f.node_op_of(n) is Some implies f.op_node_of(
        f.node_op_of(n)->Some_0,
    ) == Some(n) by {
        assert(f.node_op_of(n) == o.node_op_of(n));
        assert(f.op_node_of(o.node_op_of(n)->Some_0) == o.op_node_of(o.node_op_of(n)->Some_0));
    }
}

/// Law: binding a node account preserves the one-to-one map. The guard is
/// exactly what `set_node_account` enforces by rejecting a node account
/// bound to a different operator.
pub proof fn lemma_bind_preserves_1to1(
    o: Oracle,
    f: Oracle,
    op: Seq<char>,
    node: Seq<char>,
    now: u64,
)
    requires
        bindings_mutually_inverse(o),
        set_node_post(o, f, op, node, now),
        o.node_op_of(node) is None || o.node_op_of(node) == Some(op),
    ensures
        bindings_mutually_inverse(f),
{
    assert forall|op2: Seq<char>| #[trigger] f.op_node_of(op2) is Some implies f.node_op_of(
        f.op_node_of(op2)->Some_0,
    ) == Some(op2) by {
        if op2 == op {
            assert(f.op_node_of(op) == Some(node));
            assert(f.node_op_of(node) == Some(op));
        } else {
            assert(f.op_node_of(op2) == o.op_node_of(op2));
            let m = o.op_node_of(op2)->Some_0;
            assert(o.node_op_of(m) == Some(op2));
            assert(m != node);
            match o.op_node_of(op) {
                Some(prev) => {
                    assert(o.node_op_of(prev) == Some(op));
                    assert(m != prev);
                    assert(f.node_op_of(m) == o.node_op_of(m));
                },
                None => {
                    assert(f.node_op_of(m) == o.node_op_of(m));
                },
            }
        }
    }
    assert forall|n: Seq<char>| #[trigger] f.node_op_of(n) is Some implies f.op_node_of(
        f.node_op_of(n)->Some_0,
    ) == Some(n) by {
        if n == node {
            assert(f.node_op_of(node) == Some(op));
            assert(f.op_node_of(op) == Some(node));
        } else {
            match o.op_node_of(op) {
                Some(prev) => {
                    if n == prev {
                        assert(f.node_op_of(prev) is None);
                        assert(false);
                    }
                    assert(f.node_op_of(n) == o.node_op_of(n));
                    let op3 = o.node_op_of(n)->Some_0;
                    assert(o.op_node_of(op3) == Some(n));
                    if op3 == op {
                        assert(o.op_node_of(op) == Some(n));
                        assert(false);
                    }
                    assert(f.op_node_of(op3) == o.op_node_of(op3));
                },
                None => {
                    assert(f.node_op_of(n) == o.node_op_of(n));
                    let op3 = o.node_op_of(n)->Some_0;
                    assert(o.op_node_of(op3) == Some(n));
                    if op3 == op {
                        assert(false);
                    }
                    assert(f.op_node_of(op3) == o.op_node_of(op3));
                },
            }
        }
    }
}

/// Law: removing an operator preserves the one-to-one map: both directions
/// of its binding are severed together.
pub proof fn lemma_removal_preserves_1to1(o: Oracle, f: Oracle, op: Seq<char>, now: u64)
    requires
        bindings_mutually_inverse(o),
        remove_operator_post(o, f, op, now),
    ensures
        bindings_mutually_inverse(f),
{
    match o.op_node_of(op) {
        Some(node) => {
            assert(o.node_op_of(node) == Some(op));
            assert forall|op2: Seq<char>| #[trigger] f.op_node_of(op2) is Some implies f
                .node_op_of(f.op_node_of(op2)->Some_0) == Some(op2) by {
                assert(op2 != op);
                assert(f.op_node_of(op2) == o.op_node_of(op2));
                let m = o.op_node_of(op2)->Some_0;
                assert(o.node_op_of(m) == Some(op2));
                assert(m != node);
                assert(f.node_op_of(m) == o.node_op_of(m));
            }
            assert forall|n: Seq<char>| #[trigger] f.node_op_of(n) is Some implies f.op_node_of(
                f.node_op_of(n)->Some_0,
            ) == Some(n) by {
                assert(n != node);
                assert(f.node_op_of(n) == o.node_op_of(n));
                let op3 = o.node_op_of(n)->Some_0;
                assert(o.op_node_of(op3) == Some(n));
                assert(op3 != op);
                assert(f.op_node_of(op3) == o.op_node_of(op3));
            }
        },
        None => {
            assert forall|op2: Seq<char>| #[trigger] f.op_node_of(op2) is Some implies f
                .node_op_of(f.op_node_of(op2)->Some_0) == Some(op2) by {
                if op2 == op {
                    assert(f.op_node_of(op) == o.op_node_of(op));
                    assert(false);
                }
                assert(f.op_node_of(op2) == o.op_node_of(op2));
                let m = o.op_node_of(op2)->Some_0;
                assert(f.node_op_of(m) == o.node_op_of(m));
            }
            assert forall|n: Seq<char>| #[trigger] f.node_op_of(n) is Some implies f.op_node_of(
                f.node_op_of(n)->Some_0,
            ) == Some(n) by {
                assert(f.node_op_of(n) == o.node_op_of(n));
                let op3 = o.node_op_of(n)->Some_0;
                assert(o.op_node_of(op3) == Some(n));
                if op3 == op {
                    assert(o.op_node_of(op) is None);
                    assert(false);
                }
                assert(f.op_node_of(op3) == o.op_node_of(op3));
            }
        },
    }
}

} // verus!
