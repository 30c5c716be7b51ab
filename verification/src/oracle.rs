//! The oracle state aggregate and every operation on it: identity and
//! attestation gating, price-report aggregation, and timelocked multi-party
//! governance. Callers supply their identity and the current time; every
//! rejection leaves the state unchanged.

use vstd::prelude::*;
use crate::aggregate::{
    agg_price_of, aggregate_price, filter_fresh, fresh_of, required_sources,
    spec_required_sources,
};
use crate::arith::{saturating_add_u64, saturating_sub_u64, spec_sat_add, spec_sat_sub};
use crate::kv::{
    KvMap, StringSet, has_key, has_str, key_removed, lemma_key_removed, lemma_str_inserted,
    lemma_str_removed, lemma_upserted, str_inserted, str_removed, upserted, val_of,
};
use crate::proposals::{ProposalList, has_pid, p_removed, p_upserted, pval_of};
use crate::types::{
    ActionV, AdminAction, AdminProposal, AdminRoleView, Asset, AssetV, AttestationData, NodeV,
    OracleError, OracleNode, Price, PriceData, PriceReport, ProposalV, PythPrice, ReportV,
    asset_view, action_view, node_view, proposal_view, report_view, reports_view,
};

verus! {

/// The whole persisted oracle state: one repository per entity table.
pub struct Oracle {
    pub owner: String,
    pub paused: bool,
    pub assets: KvMap<Asset>,
    pub price_reports: KvMap<Vec<PriceReport>>,
    pub aggregated_prices: KvMap<Price>,
    pub authorized_nodes: StringSet,
    pub node_details: KvMap<OracleNode>,
    pub whitelisted_operators: StringSet,
    pub approved_code_hashes: StringSet,
    pub approved_enclaves: KvMap<String>,
    pub operator_to_node: KvMap<String>,
    pub node_to_operator: KvMap<String>,
    pub recency_threshold: u64,
    pub min_report_count: u8,
    pub attestation_max_age: u64,
    pub admin_proposers: StringSet,
    pub admin_voters: StringSet,
    pub admin_timelock_delay: u64,
    pub admin_quorum_bps: u16,
    pub proposals: ProposalList,
    pub proposal_counter: u64,
}

impl Oracle {
    /// Every repository keeps its key distinctness, the quorum is within
    /// `[1, 10000]`, and at least one source is always required.
    pub open spec fn wf(self) -> bool {
        &&& self.assets.wf()
        &&& self.price_reports.wf()
        &&& self.aggregated_prices.wf()
        &&& self.authorized_nodes.wf()
        &&& self.node_details.wf()
        &&& self.whitelisted_operators.wf()
        &&& self.approved_code_hashes.wf()
        &&& self.approved_enclaves.wf()
        &&& self.operator_to_node.wf()
        &&& self.node_to_operator.wf()
        &&& self.admin_proposers.wf()
        &&& self.admin_voters.wf()
        &&& self.proposals.wf()
        &&& 1 <= self.admin_quorum_bps <= 10000
        &&& self.min_report_count >= 1
    }

    pub open spec fn is_whitelisted(self, op: Seq<char>) -> bool {
        self.whitelisted_operators.spec_has(op)
    }

    pub open spec fn spec_is_authorized(self, node: Seq<char>) -> bool {
        self.authorized_nodes.spec_has(node)
    }

    pub open spec fn hash_approved(self, h: Seq<char>) -> bool {
        self.approved_code_hashes.spec_has(h)
    }

    pub open spec fn enclave_of(self, h: Seq<char>) -> Option<Seq<char>> {
        if self.approved_enclaves.spec_has(h) {
            Some(self.approved_enclaves.spec_get(h)@)
        } else {
            None
        }
    }

    pub open spec fn op_node_of(self, op: Seq<char>) -> Option<Seq<char>> {
        if self.operator_to_node.spec_has(op) {
            Some(self.operator_to_node.spec_get(op)@)
        } else {
            None
        }
    }

    pub open spec fn node_op_of(self, node: Seq<char>) -> Option<Seq<char>> {
        if self.node_to_operator.spec_has(node) {
            Some(self.node_to_operator.spec_get(node)@)
        } else {
            None
        }
    }

    pub open spec fn asset_of(self, id: Seq<char>) -> Option<AssetV> {
        if self.assets.spec_has(id) {
            Some(asset_view(self.assets.spec_get(id)))
        } else {
            None
        }
    }

    pub open spec fn node_rec_of(self, node: Seq<char>) -> Option<NodeV> {
        if self.node_details.spec_has(node) {
            Some(node_view(self.node_details.spec_get(node)))
        } else {
            None
        }
    }

    pub open spec fn reports_for(self, id: Seq<char>) -> Option<Seq<ReportV>> {
        if self.price_reports.spec_has(id) {
            Some(reports_view(self.price_reports.spec_get(id)@))
        } else {
            None
        }
    }

    pub open spec fn agg_for(self, id: Seq<char>) -> Option<Price> {
        if self.aggregated_prices.spec_has(id) {
            Some(self.aggregated_prices.spec_get(id))
        } else {
            None
        }
    }

    pub open spec fn is_proposer(self, x: Seq<char>) -> bool {
        self.admin_proposers.spec_has(x)
    }

    pub open spec fn is_voter(self, x: Seq<char>) -> bool {
        self.admin_voters.spec_has(x)
    }

    pub open spec fn voter_count(self) -> int {
        self.admin_voters.items@.len() as int
    }

    pub open spec fn proposal_of(self, id: u64) -> Option<ProposalV> {
        if has_pid(self.proposals.view_seq(), id) {
            Some(pval_of(self.proposals.view_seq(), id))
        } else {
            None
        }
    }

    /// The ordered ghost views of all asset records.
    pub open spec fn assets_v(self) -> Seq<AssetV> {
        self.assets.pairs@.map_values(|p: (String, Asset)| asset_view(p.1))
    }

    /// `ceil(voter_count * quorum_bps / 10000)`, floored at 1 whenever any
    /// voter is configured.
    pub open spec fn spec_required_approvals(self) -> int {
        if self.voter_count() == 0 {
            0
        } else {
            let r = (self.voter_count() * self.admin_quorum_bps + 9999) / 10000;
            if r == 0 {
                1
            } else {
                r
            }
        }
    }
}


/// The price tables are untouched.
pub open spec fn same_prices(a: Oracle, b: Oracle) -> bool {
    &&& b.price_reports.pairs@ == a.price_reports.pairs@
    &&& b.aggregated_prices.pairs@ == a.aggregated_prices.pairs@
}

/// The asset table is untouched.
pub open spec fn same_assets(a: Oracle, b: Oracle) -> bool {
    b.assets.pairs@ == a.assets.pairs@
}

/// The node identity tables are untouched.
pub open spec fn same_identity(a: Oracle, b: Oracle) -> bool {
    &&& b.authorized_nodes.items@ == a.authorized_nodes.items@
    &&& b.node_details.pairs@ == a.node_details.pairs@
    &&& b.operator_to_node.pairs@ == a.operator_to_node.pairs@
    &&& b.node_to_operator.pairs@ == a.node_to_operator.pairs@
}

/// The operator whitelist is untouched.
pub open spec fn same_operators(a: Oracle, b: Oracle) -> bool {
    b.whitelisted_operators.items@ == a.whitelisted_operators.items@
}

/// The code-hash and enclave registries are untouched.
pub open spec fn same_attest(a: Oracle, b: Oracle) -> bool {
    &&& b.approved_code_hashes.items@ == a.approved_code_hashes.items@
    &&& b.approved_enclaves.pairs@ == a.approved_enclaves.pairs@
}

/// The aggregation policy knobs are untouched.
pub open spec fn same_policy(a: Oracle, b: Oracle) -> bool {
    &&& b.recency_threshold == a.recency_threshold
    &&& b.min_report_count == a.min_report_count
    &&& b.attestation_max_age == a.attestation_max_age
}

/// The governance role configuration is untouched.
pub open spec fn same_gov(a: Oracle, b: Oracle) -> bool {
    &&& b.admin_proposers.items@ == a.admin_proposers.items@
    &&& b.admin_voters.items@ == a.admin_voters.items@
    &&& b.admin_timelock_delay == a.admin_timelock_delay
    &&& b.admin_quorum_bps == a.admin_quorum_bps
}

/// The proposal table and its counter are untouched.
pub open spec fn same_proposals(a: Oracle, b: Oracle) -> bool {
    &&& b.proposals.view_seq() == a.proposals.view_seq()
    &&& b.proposal_counter == a.proposal_counter
}

/// The owner and pause flag are untouched.
pub open spec fn same_flags(a: Oracle, b: Oracle) -> bool {
    &&& b.owner == a.owner
    &&& b.paused == a.paused
}

/// Nothing changed at all.
pub open spec fn unchanged(a: Oracle, b: Oracle) -> bool {
    &&& same_prices(a, b)
    &&& same_assets(a, b)
    &&& same_identity(a, b)
    &&& same_operators(a, b)
    &&& same_attest(a, b)
    &&& same_policy(a, b)
    &&& same_gov(a, b)
    &&& same_proposals(a, b)
    &&& same_flags(a, b)
}

impl Oracle {
    /// A fresh oracle: unpaused, empty tables, a ten-minute attestation age
    /// bound, no timelock, and a 50% quorum default.
    pub fn new(owner: String, recency_threshold: u64, min_report_count: u8) -> (r: Oracle)
        ensures
            r.wf(),
            r.owner@ == owner@,
            !r.paused,
            r.recency_threshold == recency_threshold,
            r.min_report_count == (if min_report_count >= 1 {
                min_report_count
            } else {
                1
            }),
            r.attestation_max_age == 600_000_000_000u64,
            r.admin_timelock_delay == 0,
            r.admin_quorum_bps == 5000,
            r.proposal_counter == 0,
            r.assets.pairs@.len() == 0,
            r.price_reports.pairs@.len() == 0,
            r.aggregated_prices.pairs@.len() == 0,
            r.authorized_nodes.items@.len() == 0,
            r.node_details.pairs@.len() == 0,
            r.whitelisted_operators.items@.len() == 0,
            r.approved_code_hashes.items@.len() == 0,
            r.approved_enclaves.pairs@.len() == 0,
            r.operator_to_node.pairs@.len() == 0,
            r.node_to_operator.pairs@.len() == 0,
            r.admin_proposers.items@.len() == 0,
            r.admin_voters.items@.len() == 0,
            r.proposals.view_seq().len() == 0,
    {
        Oracle {
            owner,
            paused: false,
            assets: KvMap::new(),
            price_reports: KvMap::new(),
            aggregated_prices: KvMap::new(),
            authorized_nodes: StringSet::new(),
            node_details: KvMap::new(),
            whitelisted_operators: StringSet::new(),
            approved_code_hashes: StringSet::new(),
            approved_enclaves: KvMap::new(),
            operator_to_node: KvMap::new(),
            node_to_operator: KvMap::new(),
            recency_threshold,
            min_report_count: if min_report_count >= 1 {
                min_report_count
            } else {
                1
            },
            attestation_max_age: 600_000_000_000,
            admin_proposers: StringSet::new(),
            admin_voters: StringSet::new(),
            admin_timelock_delay: 0,
            admin_quorum_bps: 5000,
            proposals: ProposalList::new(),
            proposal_counter: 0,
        }
    }

    fn is_owner(&self, caller: &String) -> (r: bool)
        ensures
            r == (caller@ == self.owner@),
    {
        *caller == self.owner
    }

    /// Creates an asset record, or replaces the record already stored under
    /// its id.
    pub fn add_asset(&mut self, caller: &String, asset: Asset) -> (r: Result<(), OracleError>)
        requires
            old(self).wf(),
        ensures
            final(self).wf(),
            match r {
                Ok(()) => caller@ == old(self).owner@ && upserted(
                    old(self).assets.pairs@,
                    final(self).assets.pairs@,
                    asset.id@,
                    asset,
                ) && same_prices(*old(self), *final(self)) && same_identity(
                    *old(self),
                    *final(self),
                ) && same_operators(*old(self), *final(self)) && same_attest(
                    *old(self),
                    *final(self),
                ) && same_policy(*old(self), *final(self)) && same_gov(*old(self), *final(self))
                    && same_proposals(*old(self), *final(self)) && same_flags(
                    *old(self),
                    *final(self),
                ),
                Err(e) => e == OracleError::NotOwner && caller@ != old(self).owner@ && unchanged(
                    *old(self),
                    *final(self),
                ),
            },
    {
        if !self.is_owner(caller) {
            return Err(OracleError::NotOwner);
        }
        let id = asset.id.clone();
        self.assets.insert(id, asset);
        Ok(())
    }

    fn internal_add_node_operator(&mut self, operator_account: String)
        requires
            old(self).wf(),
        ensures
            final(self).wf(),
            str_inserted(
                old(self).whitelisted_operators.items@,
                final(self).whitelisted_operators.items@,
                operator_account@,
            ),
            same_prices(*old(self), *final(self)),
            same_assets(*old(self), *final(self)),
            same_identity(*old(self), *final(self)),
            same_attest(*old(self), *final(self)),
            same_policy(*old(self), *final(self)),
            same_gov(*old(self), *final(self)),
            same_proposals(*old(self), *final(self)),
            same_flags(*old(self), *final(self)),
    {
        self.whitelisted_operators.insert(operator_account);
    }

    /// Whitelists an operator (owner fast path).
    pub fn add_node_operator(&mut self, caller: &String, operator_account: String) -> (r: Result<
        (),
        OracleError,
    >)
        requires
            old(self).wf(),
        ensures
            final(self).wf(),
            match r {
                Ok(()) => caller@ == old(self).owner@ && str_inserted(
                    old(self).whitelisted_operators.items@,
                    final(self).whitelisted_operators.items@,
                    operator_account@,
                ) && same_prices(*old(self), *final(self)) && same_assets(
                    *old(self),
                    *final(self),
                ) && same_identity(*old(self), *final(self)) && same_attest(
                    *old(self),
                    *final(self),
                ) && same_policy(*old(self), *final(self)) && same_gov(*old(self), *final(self))
                    && same_proposals(*old(self), *final(self)) && same_flags(
                    *old(self),
                    *final(self),
                ),
                Err(e) => e == OracleError::NotOwner && caller@ != old(self).owner@ && unchanged(
                    *old(self),
                    *final(self),
                ),
            },
    {
        if !self.is_owner(caller) {
            return Err(OracleError::NotOwner);
        }
        self.internal_add_node_operator(operator_account);
        Ok(())
    }

    fn internal_approve_code_hash(&mut self, code_hash: String)
        requires
            old(self).wf(),
        ensures
            final(self).wf(),
            str_inserted(
                old(self).approved_code_hashes.items@,
                final(self).approved_code_hashes.items@,
                code_hash@,
            ),
            final(self).approved_enclaves.pairs@ == old(self).approved_enclaves.pairs@,
            same_prices(*old(self), *final(self)),
            same_assets(*old(self), *final(self)),
            same_identity(*old(self), *final(self)),
            same_operators(*old(self), *final(self)),
            same_policy(*old(self), *final(self)),
            same_gov(*old(self), *final(self)),
            same_proposals(*old(self), *final(self)),
            same_flags(*old(self), *final(self)),
    {
        self.approved_code_hashes.insert(code_hash);
    }

    /// Approves a code hash (owner fast path).
    pub fn approve_code_hash(&mut self, caller: &String, code_hash: String) -> (r: Result<
        (),
        OracleError,
    >)
        requires
            old(self).wf(),
        ensures
            final(self).wf(),
            match r {
                Ok(()) => caller@ == old(self).owner@ && str_inserted(
                    old(self).approved_code_hashes.items@,
                    final(self).approved_code_hashes.items@,
                    code_hash@,
                ) && final(self).approved_enclaves.pairs@ == old(self).approved_enclaves.pairs@
                    && same_prices(*old(self), *final(self)) && same_assets(
                    *old(self),
                    *final(self),
                ) && same_identity(*old(self), *final(self)) && same_operators(
                    *old(self),
                    *final(self),
                ) && same_policy(*old(self), *final(self)) && same_gov(*old(self), *final(self))
                    && same_proposals(*old(self), *final(self)) && same_flags(
                    *old(self),
                    *final(self),
                ),
                Err(e) => e == OracleError::NotOwner && caller@ != old(self).owner@ && unchanged(
                    *old(self),
                    *final(self),
                ),
            },
    {
        if !self.is_owner(caller) {
            return Err(OracleError::NotOwner);
        }
        self.internal_approve_code_hash(code_hash);
        Ok(())
    }

    fn internal_remove_code_hash(&mut self, code_hash: &String)
        requires
            old(self).wf(),
        ensures
            final(self).wf(),
            str_removed(
                old(self).approved_code_hashes.items@,
                final(self).approved_code_hashes.items@,
                code_hash@,
            ),
            key_removed(
                old(self).approved_enclaves.pairs@,
                final(self).approved_enclaves.pairs@,
                code_hash@,
            ),
            same_prices(*old(self), *final(self)),
            same_assets(*old(self), *final(self)),
            same_identity(*old(self), *final(self)),
            same_operators(*old(self), *final(self)),
            same_policy(*old(self), *final(self)),
            same_gov(*old(self), *final(self)),
            same_proposals(*old(self), *final(self)),
            same_flags(*old(self), *final(self)),
    {
        self.approved_code_hashes.remove(code_hash);
        self.approved_enclaves.remove(code_hash);
    }

    /// Removes a code hash and its enclave-measurement mapping (owner fast
    /// path).
    pub fn remove_code_hash(&mut self, caller: &String, code_hash: String) -> (r: Result<
        (),
        OracleError,
    >)
        requires
            old(self).wf(),
        ensures
            final(self).wf(),
            match r {
                Ok(()) => caller@ == old(self).owner@ && str_removed(
                    old(self).approved_code_hashes.items@,
                    final(self).approved_code_hashes.items@,
                    code_hash@,
                ) && key_removed(
                    old(self).approved_enclaves.pairs@,
                    final(self).approved_enclaves.pairs@,
                    code_hash@,
                ) && same_prices(*old(self), *final(self)) && same_assets(
                    *old(self),
                    *final(self),
                ) && same_identity(*old(self), *final(self)) && same_operators(
                    *old(self),
                    *final(self),
                ) && same_policy(*old(self), *final(self)) && same_gov(*old(self), *final(self))
                    && same_proposals(*old(self), *final(self)) && same_flags(
                    *old(self),
                    *final(self),
                ),
                Err(e) => e == OracleError::NotOwner && caller@ != old(self).owner@ && unchanged(
                    *old(self),
                    *final(self),
                ),
            },
    {
        if !self.is_owner(caller) {
            return Err(OracleError::NotOwner);
        }
        self.internal_remove_code_hash(&code_hash);
        Ok(())
    }

    /// The checked two-tier primitive behind attestation approval: a code
    /// hash must already be approved before a measurement is attached to it.
    /// Both the owner fast path and governance dispatch go through here.
    fn internal_approve_attestation(&mut self, code_hash: String, mr_enclave: String) -> (r:
        Result<(), OracleError>)
        requires
            old(self).wf(),
        ensures
            final(self).wf(),
            match r {
                Ok(()) => old(self).hash_approved(code_hash@) && final(self).enclave_of(code_hash@)
                    == Some(mr_enclave@) && (forall|h: Seq<char>|
                    h != code_hash@ ==> #[trigger] final(self).enclave_of(h) == old(
                        self,
                    ).enclave_of(h)) && final(self).approved_code_hashes.items@ == old(
                    self,
                ).approved_code_hashes.items@ && same_prices(*old(self), *final(self))
                    && same_assets(*old(self), *final(self)) && same_identity(
                    *old(self),
                    *final(self),
                ) && same_operators(*old(self), *final(self)) && same_policy(
                    *old(self),
                    *final(self),
                ) && same_gov(*old(self), *final(self)) && same_proposals(*old(self), *final(self))
                    && same_flags(*old(self), *final(self)),
                Err(e) => e == OracleError::CodeHashNotApprovedFirst && !old(self).hash_approved(
                    code_hash@,
                ) && unchanged(*old(self), *final(self)),
            },
    {
        if !self.approved_code_hashes.contains(&code_hash) {
            return Err(OracleError::CodeHashNotApprovedFirst);
        }
        let ghost o_enc = self.approved_enclaves.pairs@;
        let ghost hv = code_hash@;
        self.approved_enclaves.insert(code_hash, mr_enclave);
        proof {
            lemma_upserted(o_enc, self.approved_enclaves.pairs@, hv, mr_enclave);
            assert forall|h: Seq<char>| h != hv implies #[trigger] self.enclave_of(h) == old(
                self,
            ).enclave_of(h) by {
                assert(has_key(self.approved_enclaves.pairs@, h) == has_key(o_enc, h));
                if has_key(o_enc, h) {
                    assert(val_of(self.approved_enclaves.pairs@, h) == val_of(o_enc, h));
                }
            }
        }
        Ok(())
    }

    /// Attaches the approved enclave measurement to an already-approved code
    /// hash (owner fast path).
    pub fn approve_attestation(&mut self, caller: &String, code_hash: String, mr_enclave: String)
        -> (r: Result<(), OracleError>)
        requires
            old(self).wf(),
        ensures
            final(self).wf(),
            match r {
                Ok(()) => caller@ == old(self).owner@ && old(self).hash_approved(code_hash@)
                    && final(self).enclave_of(code_hash@) == Some(mr_enclave@) && (forall|
                    h: Seq<char>,
                |
                    h != code_hash@ ==> #[trigger] final(self).enclave_of(h) == old(
                        self,
                    ).enclave_of(h)) && final(self).approved_code_hashes.items@ == old(
                    self,
                ).approved_code_hashes.items@ && same_prices(*old(self), *final(self))
                    && same_assets(*old(self), *final(self)) && same_identity(
                    *old(self),
                    *final(self),
                ) && same_operators(*old(self), *final(self)) && same_policy(
                    *old(self),
                    *final(self),
                ) && same_gov(*old(self), *final(self)) && same_proposals(*old(self), *final(self))
                    && same_flags(*old(self), *final(self)),
                Err(e) => unchanged(*old(self), *final(self)) && if caller@ != old(self).owner@ {
                    e == OracleError::NotOwner
                } else {
                    e == OracleError::CodeHashNotApprovedFirst && !old(self).hash_approved(
                        code_hash@,
                    )
                },
            },
    {
        if !self.is_owner(caller) {
            return Err(OracleError::NotOwner);
        }
        self.internal_approve_attestation(code_hash, mr_enclave)
    }

    /// Detaches the enclave measurement from a code hash (owner fast path).
    pub fn remove_attestation(&mut self, caller: &String, code_hash: String) -> (r: Result<
        (),
        OracleError,
    >)
        requires
            old(self).wf(),
        ensures
            final(self).wf(),
            match r {
                Ok(()) => caller@ == old(self).owner@ && key_removed(
                    old(self).approved_enclaves.pairs@,
                    final(self).approved_enclaves.pairs@,
                    code_hash@,
                ) && final(self).approved_code_hashes.items@ == old(self).approved_code_hashes.items@ && same_prices(*old(self), *final(self))
                    && same_assets(*old(self), *final(self)) && same_identity(
                    *old(self),
                    *final(self),
                ) && same_operators(*old(self), *final(self)) && same_policy(
                    *old(self),
                    *final(self),
                ) && same_gov(*old(self), *final(self)) && same_proposals(*old(self), *final(self))
                    && same_flags(*old(self), *final(self)),
                Err(e) => e == OracleError::NotOwner && caller@ != old(self).owner@ && unchanged(
                    *old(self),
                    *final(self),
                ),
            },
    {
        if !self.is_owner(caller) {
            return Err(OracleError::NotOwner);
        }
        self.approved_enclaves.remove(&code_hash);
        Ok(())
    }

    fn internal_pause(&mut self)
        requires
            old(self).wf(),
        ensures
            final(self).wf(),
            final(self).paused,
            final(self).owner == old(self).owner,
            same_prices(*old(self), *final(self)),
            same_assets(*old(self), *final(self)),
            same_identity(*old(self), *final(self)),
            same_operators(*old(self), *final(self)),
            same_attest(*old(self), *final(self)),
            same_policy(*old(self), *final(self)),
            same_gov(*old(self), *final(self)),
            same_proposals(*old(self), *final(self)),
    {
        self.paused = true;
    }

    fn internal_resume(&mut self)
        requires
            old(self).wf(),
        ensures
            final(self).wf(),
            !final(self).paused,
            final(self).owner == old(self).owner,
            same_prices(*old(self), *final(self)),
            same_assets(*old(self), *final(self)),
            same_identity(*old(self), *final(self)),
            same_operators(*old(self), *final(self)),
            same_attest(*old(self), *final(self)),
            same_policy(*old(self), *final(self)),
            same_gov(*old(self), *final(self)),
            same_proposals(*old(self), *final(self)),
    {
        self.paused = false;
    }

    /// Halts price reporting (owner fast path).
    pub fn pause(&mut self, caller: &String) -> (r: Result<(), OracleError>)
        requires
            old(self).wf(),
        ensures
            final(self).wf(),
            match r {
                Ok(()) => caller@ == old(self).owner@ && final(self).paused && final(self).owner
                    == old(self).owner && same_prices(*old(self), *final(self)) && same_assets(
                    *old(self),
                    *final(self),
                ) && same_identity(*old(self), *final(self)) && same_operators(
                    *old(self),
                    *final(self),
                ) && same_attest(*old(self), *final(self)) && same_policy(*old(self), *final(self))
                    && same_gov(*old(self), *final(self)) && same_proposals(
                    *old(self),
                    *final(self),
                ),
                Err(e) => e == OracleError::NotOwner && caller@ != old(self).owner@ && unchanged(
                    *old(self),
                    *final(self),
                ),
            },
    {
        if !self.is_owner(caller) {
            return Err(OracleError::NotOwner);
        }
        self.internal_pause();
        Ok(())
    }

    /// Resumes price reporting (owner fast path).
    pub fn resume(&mut self, caller: &String) -> (r: Result<(), OracleError>)
        requires
            old(self).wf(),
        ensures
            final(self).wf(),
            match r {
                Ok(()) => caller@ == old(self).owner@ && !final(self).paused && final(self).owner
                    == old(self).owner && same_prices(*old(self), *final(self)) && same_assets(
                    *old(self),
                    *final(self),
                ) && same_identity(*old(self), *final(self)) && same_operators(
                    *old(self),
                    *final(self),
                ) && same_attest(*old(self), *final(self)) && same_policy(*old(self), *final(self))
                    && same_gov(*old(self), *final(self)) && same_proposals(
                    *old(self),
                    *final(self),
                ),
                Err(e) => e == OracleError::NotOwner && caller@ != old(self).owner@ && unchanged(
                    *old(self),
                    *final(self),
                ),
            },
    {
        if !self.is_owner(caller) {
            return Err(OracleError::NotOwner);
        }
        self.internal_resume();
        Ok(())
    }

    fn internal_update_config(
        &mut self,
        recency_threshold: Option<u64>,
        min_report_count: Option<u8>,
    )
        requires
            old(self).wf(),
        ensures
            final(self).wf(),
            final(self).recency_threshold == (match recency_threshold {
                Some(t) => t,
                None => old(self).recency_threshold,
            }),
            final(self).min_report_count == (match min_report_count {
                Some(c) => if c >= 1 {
                    c
                } else {
                    1
                },
                None => old(self).min_report_count,
            }),
            final(self).attestation_max_age == old(self).attestation_max_age,
            same_prices(*old(self), *final(self)),
            same_assets(*old(self), *final(self)),
            same_identity(*old(self), *final(self)),
            same_operators(*old(self), *final(self)),
            same_attest(*old(self), *final(self)),
            same_gov(*old(self), *final(self)),
            same_proposals(*old(self), *final(self)),
            same_flags(*old(self), *final(self)),
    {
        if let Some(threshold) = recency_threshold {
            self.recency_threshold = threshold;
        }
        if let Some(count) = min_report_count {
            self.min_report_count = if count >= 1 {
                count
            } else {
                1
            };
        }
    }

    /// Updates the recency threshold and/or global minimum report count
    /// (owner fast path).
    pub fn update_config(
        &mut self,
        caller: &String,
        recency_threshold: Option<u64>,
        min_report_count: Option<u8>,
    ) -> (r: Result<(), OracleError>)
        requires
            old(self).wf(),
        ensures
            final(self).wf(),
            match r {
                Ok(()) => caller@ == old(self).owner@ && final(self).recency_threshold == (
                match recency_threshold {
                    Some(t) => t,
                    None => old(self).recency_threshold,
                }) && final(self).min_report_count == (match min_report_count {
                    Some(c) => if c >= 1 {
                        c
                    } else {
                        1
                    },
                    None => old(self).min_report_count,
                }) && final(self).attestation_max_age == old(self).attestation_max_age
                    && same_prices(*old(self), *final(self)) && same_assets(
                    *old(self),
                    *final(self),
                ) && same_identity(*old(self), *final(self)) && same_operators(
                    *old(self),
                    *final(self),
                ) && same_attest(*old(self), *final(self)) && same_gov(*old(self), *final(self))
                    && same_proposals(*old(self), *final(self)) && same_flags(
                    *old(self),
                    *final(self),
                ),
                Err(e) => e == OracleError::NotOwner && caller@ != old(self).owner@ && unchanged(
                    *old(self),
                    *final(self),
                ),
            },
    {
        if !self.is_owner(caller) {
            return Err(OracleError::NotOwner);
        }
        self.internal_update_config(recency_threshold, min_report_count);
        Ok(())
    }

    /// Bounds how old a registration attestation may be (owner fast path).
    pub fn set_attestation_max_age(&mut self, caller: &String, max_age: u64) -> (r: Result<
        (),
        OracleError,
    >)
        requires
            old(self).wf(),
        ensures
            final(self).wf(),
            match r {
                Ok(()) => caller@ == old(self).owner@ && max_age > 0 && final(self).attestation_max_age == max_age && final(self).recency_threshold == old(self).recency_threshold && final(self).min_report_count == old(self).min_report_count
                    && same_prices(*old(self), *final(self)) && same_assets(
                    *old(self),
                    *final(self),
                ) && same_identity(*old(self), *final(self)) && same_operators(
                    *old(self),
                    *final(self),
                ) && same_attest(*old(self), *final(self)) && same_gov(*old(self), *final(self))
                    && same_proposals(*old(self), *final(self)) && same_flags(
                    *old(self),
                    *final(self),
                ),
                Err(e) => unchanged(*old(self), *final(self)) && if caller@ != old(self).owner@ {
                    e == OracleError::NotOwner
                } else {
                    e == OracleError::MaxAgeNotPositive && max_age == 0
                },
            },
    {
        if !self.is_owner(caller) {
            return Err(OracleError::NotOwner);
        }
        if max_age == 0 {
            return Err(OracleError::MaxAgeNotPositive);
        }
        self.attestation_max_age = max_age;
        Ok(())
    }

    /// Whether an account is an authorized reporter node.
    pub fn is_authorized(&self, account_id: &String) -> (r: bool)
        requires
            self.wf(),
        ensures
            r == self.spec_is_authorized(account_id@),
    {
        self.authorized_nodes.contains(account_id)
    }

    /// The registration record of a node, if any.
    pub fn get_node_details(&self, account_id: &String) -> (r: Option<OracleNode>)
        requires
            self.wf(),
        ensures
            match r {
                Some(n) => self.node_rec_of(account_id@) == Some(node_view(n)),
                None => self.node_rec_of(account_id@) is None,
            },
    {
        match self.node_details.get(account_id) {
            Some(n) => Some(
                OracleNode {
                    account_id: n.account_id.clone(),
                    operator_id: n.operator_id.clone(),
                    registered_at: n.registered_at,
                    code_hash: n.code_hash.clone(),
                    last_report: n.last_report,
                    active: n.active,
                },
            ),
            None => None,
        }
    }

    /// All authorized node accounts, in authorization order.
    pub fn get_authorized_nodes(&self) -> (r: Vec<String>)
        ensures
            r@.map_values(|s: String| s@) == self.authorized_nodes.items@.map_values(
                |s: String| s@,
            ),
    {
        self.authorized_nodes.to_vec()
    }

    /// The configured governance roles.
    pub fn get_admin_role(&self) -> (r: AdminRoleView)
        ensures
            r.proposers@.map_values(|s: String| s@) == self.admin_proposers.items@.map_values(
                |s: String| s@,
            ),
            r.voters@.map_values(|s: String| s@) == self.admin_voters.items@.map_values(
                |s: String| s@,
            ),
            r.timelock_delay == self.admin_timelock_delay,
            r.quorum_bps == self.admin_quorum_bps,
    {
        AdminRoleView {
            proposers: self.admin_proposers.to_vec(),
            voters: self.admin_voters.to_vec(),
            timelock_delay: self.admin_timelock_delay,
            quorum_bps: self.admin_quorum_bps,
        }
    }
}

} // verus!

verus! {

/// Holds of the reports not submitted by `node`.
pub open spec fn prune_pred(node: Seq<char>) -> spec_fn(ReportV) -> bool {
    |r: ReportV| r.oracle_id != node
}

/// What the finalize step leaves for one asset, given the report set handed
/// to it: stale reports are dropped; an empty survivor set clears both
/// tables; a survivor set below the required source count is kept but
/// unpriced; otherwise the aggregated price is republished.
pub open spec fn finalize_rel(
    o: Oracle,
    f: Oracle,
    id: Seq<char>,
    rs: Seq<ReportV>,
    min_sources: u8,
    now: u64,
) -> bool {
    let fresh = fresh_of(rs, o.recency_threshold, now);
    let req = spec_required_sources(o.min_report_count, min_sources);
    if fresh.len() == 0 {
        f.reports_for(id) is None && f.agg_for(id) is None
    } else if fresh.len() < req {
        f.reports_for(id) == Some(fresh) && f.agg_for(id) is None
    } else {
        f.reports_for(id) == Some(fresh) && f.agg_for(id) == Some(agg_price_of(fresh))
    }
}

/// A copy of the reports not submitted by `node`, in order.
fn prune_reports(rs: &Vec<PriceReport>, node: &String) -> (r: Vec<PriceReport>)
    ensures
        reports_view(r@) == reports_view(rs@).filter(prune_pred(node@)),
{
    let ghost pred = prune_pred(node@);
    let mut r: Vec<PriceReport> = Vec::new();
    let n = rs.len();
    proof {
        reveal(Seq::filter);
        assert(reports_view(rs@.subrange(0, 0)).len() == 0);
        assert(reports_view(r@) =~= reports_view(rs@.subrange(0, 0)).filter(pred));
    }
    let mut i: usize = 0;
    while i < n
        invariant
            n == rs@.len(),
            i <= n,
            pred == prune_pred(node@),
            reports_view(r@) =~= reports_view(rs@.subrange(0, i as int)).filter(pred),
        decreases n - i,
    {
        proof {
            reveal(Seq::filter);
            let s1 = reports_view(rs@.subrange(0, i + 1 as int));
            assert(s1.len() == i + 1);
            assert(s1.last() == report_view(rs@[i as int]));
            assert(s1.drop_last() =~= reports_view(rs@.subrange(0, i as int)));
        }
        if !(rs[i].oracle_id == *node) {
            r.push(crate::aggregate::clone_report(&rs[i]));
            proof {
                reveal(Seq::filter);
                assert(pred(report_view(rs@[i as int])));
                assert(reports_view(rs@.subrange(0, i + 1 as int)).filter(pred) =~= reports_view(
                    rs@.subrange(0, i as int),
                ).filter(pred).push(report_view(rs@[i as int])));
            }
        } else {
            proof {
                reveal(Seq::filter);
                assert(!pred(report_view(rs@[i as int])));
                assert(reports_view(rs@.subrange(0, i + 1 as int)).filter(pred) =~= reports_view(
                    rs@.subrange(0, i as int),
                ).filter(pred));
            }
        }
        i += 1;
    }
    proof {
        assert(rs@.subrange(0, n as int) =~= rs@);
    }
    r
}

impl Oracle {
    /// Applies recency filtering, quorum gating and re-aggregation for one
    /// asset, given the updated report set.
    fn finalize_reports(
        &mut self,
        asset_id: &String,
        min_sources: u8,
        reports: Vec<PriceReport>,
        now: u64,
    )
        requires
            old(self).wf(),
        ensures
            final(self).wf(),
            finalize_rel(
                *old(self),
                *final(self),
                asset_id@,
                reports_view(reports@),
                min_sources,
                now,
            ),
            forall|k: Seq<char>|
                k != asset_id@ ==> #[trigger] final(self).reports_for(k) == old(self).reports_for(
                    k,
                ),
            forall|k: Seq<char>|
                k != asset_id@ ==> #[trigger] final(self).agg_for(k) == old(self).agg_for(k),
            same_assets(*old(self), *final(self)),
            same_identity(*old(self), *final(self)),
            same_operators(*old(self), *final(self)),
            same_attest(*old(self), *final(self)),
            same_policy(*old(self), *final(self)),
            same_gov(*old(self), *final(self)),
            same_proposals(*old(self), *final(self)),
            same_flags(*old(self), *final(self)),
    {
        let ghost o_rep = self.price_reports.pairs@;
        let ghost o_agg = self.aggregated_prices.pairs@;
        let ghost fresh = fresh_of(reports_view(reports@), self.recency_threshold, now);
        let fresh_vec = filter_fresh(&reports, self.recency_threshold, now);
        proof {
            assert(reports_view(fresh_vec@) == fresh);
            assert(fresh_vec@.len() == fresh.len()) by {
                assert(reports_view(fresh_vec@).len() == fresh_vec@.len());
            }
        }
        if fresh_vec.len() == 0 {
            self.price_reports.remove(asset_id);
            let ghost m_rep = self.price_reports.pairs@;
            self.aggregated_prices.remove(asset_id);
            proof {
                lemma_key_removed(o_rep, m_rep, asset_id@);
                lemma_key_removed(o_agg, self.aggregated_prices.pairs@, asset_id@);
                assert forall|k: Seq<char>| k != asset_id@ implies #[trigger] final(self).reports_for(k) == old(self).reports_for(k) by {
                    assert(has_key(m_rep, k) == has_key(o_rep, k));
                    if has_key(o_rep, k) {
                        assert(val_of(m_rep, k) == val_of(o_rep, k));
                    }
                }
                assert forall|k: Seq<char>| k != asset_id@ implies #[trigger] final(self).agg_for(
                    k,
                ) == old(self).agg_for(k) by {
                    assert(has_key(self.aggregated_prices.pairs@, k) == has_key(o_agg, k));
                    if has_key(o_agg, k) {
                        assert(val_of(self.aggregated_prices.pairs@, k) == val_of(o_agg, k));
                    }
                }
            }
        } else {
            let req = required_sources(self.min_report_count, min_sources);
            if fresh_vec.len() < req {
                self.price_reports.insert(asset_id.clone(), fresh_vec);
                let ghost m_rep = self.price_reports.pairs@;
                self.aggregated_prices.remove(asset_id);
                proof {
                    lemma_upserted(o_rep, m_rep, asset_id@, val_of(m_rep, asset_id@));
                    lemma_key_removed(o_agg, self.aggregated_prices.pairs@, asset_id@);
                    assert(final(self).reports_for(asset_id@) == Some(fresh));
                    assert forall|k: Seq<char>| k != asset_id@ implies #[trigger] final(self).reports_for(k) == old(self).reports_for(k) by {
                        assert(has_key(m_rep, k) == has_key(o_rep, k));
                        if has_key(o_rep, k) {
                            assert(val_of(m_rep, k) == val_of(o_rep, k));
                        }
                    }
                    assert forall|k: Seq<char>| k != asset_id@ implies #[trigger] final(self).agg_for(k) == old(self).agg_for(k) by {
                        assert(has_key(self.aggregated_prices.pairs@, k) == has_key(o_agg, k));
                        if has_key(o_agg, k) {
                            assert(val_of(self.aggregated_prices.pairs@, k) == val_of(o_agg, k));
                        }
                    }
                }
            } else {
                let p = aggregate_price(&fresh_vec);
                self.price_reports.insert(asset_id.clone(), fresh_vec);
                let ghost m_rep = self.price_reports.pairs@;
                self.aggregated_prices.insert(asset_id.clone(), p);
                proof {
                    lemma_upserted(o_rep, m_rep, asset_id@, val_of(m_rep, asset_id@));
                    lemma_upserted(o_agg, self.aggregated_prices.pairs@, asset_id@, p);
                    assert(final(self).reports_for(asset_id@) == Some(fresh));
                    assert(final(self).agg_for(asset_id@) == Some(agg_price_of(fresh)));
                    assert forall|k: Seq<char>| k != asset_id@ implies #[trigger] final(self).reports_for(k) == old(self).reports_for(k) by {
                        assert(has_key(m_rep, k) == has_key(o_rep, k));
                        if has_key(o_rep, k) {
                            assert(val_of(m_rep, k) == val_of(o_rep, k));
                        }
                    }
                    assert forall|k: Seq<char>| k != asset_id@ implies #[trigger] final(self).agg_for(k) == old(self).agg_for(k) by {
                        assert(has_key(self.aggregated_prices.pairs@, k) == has_key(o_agg, k));
                        if has_key(o_agg, k) {
                            assert(val_of(self.aggregated_prices.pairs@, k) == val_of(o_agg, k));
                        }
                    }
                }
            }
        }
    }
}

} // verus!

verus! {

/// What a successful price report leaves behind: the caller's previous
/// report for the asset replaced by the new one, the finalize step applied,
/// and the caller's `last_report` stamped.
pub open spec fn report_price_post(
    o: Oracle,
    f: Oracle,
    node: Seq<char>,
    id: Seq<char>,
    multiplier: u128,
    decimals: u8,
    now: u64,
) -> bool {
    let prev = match o.reports_for(id) {
        Some(rs) => rs,
        None => Seq::<ReportV>::empty(),
    };
    let nr = ReportV {
        oracle_id: node,
        price: Price { multiplier, decimals, timestamp: now },
        timestamp: now,
    };
    let merged = prev.filter(prune_pred(node)).push(nr);
    &&& finalize_rel(o, f, id, merged, o.asset_of(id)->Some_0.min_sources, now)
    &&& forall|k: Seq<char>| k != id ==> #[trigger] f.reports_for(k) == o.reports_for(k)
    &&& forall|k: Seq<char>| k != id ==> #[trigger] f.agg_for(k) == o.agg_for(k)
    &&& match o.node_rec_of(node) {
        Some(nv) => {
            &&& f.node_rec_of(node) == Some(NodeV { last_report: now, ..nv })
            &&& forall|x: Seq<char>| x != node ==> #[trigger] f.node_rec_of(x) == o.node_rec_of(x)
        },
        None => f.node_details.pairs@ == o.node_details.pairs@,
    }
    &&& f.authorized_nodes.items@ == o.authorized_nodes.items@
    &&& f.operator_to_node.pairs@ == o.operator_to_node.pairs@
    &&& f.node_to_operator.pairs@ == o.node_to_operator.pairs@
    &&& same_assets(o, f)
    &&& same_operators(o, f)
    &&& same_attest(o, f)
    &&& same_policy(o, f)
    &&& same_gov(o, f)
    &&& same_proposals(o, f)
    &&& same_flags(o, f)
}

impl Oracle {
    /// Accepts a price observation from an authorized node and republishes
    /// the asset's aggregated price under the freshness and quorum policy.
    pub fn report_price(
        &mut self,
        caller: &String,
        asset_id: String,
        multiplier: u128,
        decimals: u8,
        now: u64,
    ) -> (r: Result<(), OracleError>)
        requires
            old(self).wf(),
        ensures
            final(self).wf(),
            match r {
                Ok(()) => !old(self).paused && old(self).spec_is_authorized(caller@) && old(self).asset_of(asset_id@) is Some && old(self).asset_of(asset_id@)->Some_0.decimals
                    == decimals && report_price_post(
                    *old(self),
                    *final(self),
                    caller@,
                    asset_id@,
                    multiplier,
                    decimals,
                    now,
                ),
                Err(e) => unchanged(*old(self), *final(self)) && if old(self).paused {
                    e == OracleError::Paused
                } else if !old(self).spec_is_authorized(caller@) {
                    e == OracleError::NotAuthorizedNode
                } else if old(self).asset_of(asset_id@) is None {
                    e == OracleError::AssetNotFound
                } else {
                    e == OracleError::DecimalsMismatch && old(self).asset_of(
                        asset_id@,
                    )->Some_0.decimals != decimals
                },
            },
    {
        if self.paused {
            return Err(OracleError::Paused);
        }
        if !self.authorized_nodes.contains(caller) {
            return Err(OracleError::NotAuthorizedNode);
        }
        let (a_dec, a_min) = match self.assets.get(&asset_id) {
            Some(a) => (a.decimals, a.min_sources),
            None => {
                return Err(OracleError::AssetNotFound);
            },
        };
        if a_dec != decimals {
            return Err(OracleError::DecimalsMismatch);
        }

        let mut merged: Vec<PriceReport> = match self.price_reports.get(&asset_id) {
            Some(v) => prune_reports(v, caller),
            None => Vec::new(),
        };
        proof {
            reveal(Seq::filter);
            let prev = match old(self).reports_for(asset_id@) {
                Some(rs) => rs,
                None => Seq::<ReportV>::empty(),
            };
            assert(reports_view(merged@) =~= prev.filter(prune_pred(caller@)));
        }
        merged.push(
            PriceReport {
                oracle_id: caller.clone(),
                price: Price { multiplier, decimals, timestamp: now },
                timestamp: now,
            },
        );
        let ghost merged_v = reports_view(merged@);
        proof {
            let prev = match old(self).reports_for(asset_id@) {
                Some(rs) => rs,
                None => Seq::<ReportV>::empty(),
            };
            let nr = ReportV {
                oracle_id: caller@,
                price: Price { multiplier, decimals, timestamp: now },
                timestamp: now,
            };
            assert(merged_v =~= prev.filter(prune_pred(caller@)).push(nr));
        }
        self.finalize_reports(&asset_id, a_min, merged, now);

        let ghost mid = *self;
        let upd = match self.node_details.get(caller) {
            Some(n) => Some(
                OracleNode {
                    account_id: n.account_id.clone(),
                    operator_id: n.operator_id.clone(),
                    registered_at: n.registered_at,
                    code_hash: n.code_hash.clone(),
                    last_report: now,
                    active: n.active,
                },
            ),
            None => None,
        };
        match upd {
            Some(n2) => {
                let ghost o_nd = self.node_details.pairs@;
                let ghost nv_old = mid.node_rec_of(caller@)->Some_0;
                self.node_details.insert(caller.clone(), n2);
                proof {
                    lemma_upserted(o_nd, self.node_details.pairs@, caller@, n2);
                    assert(node_view(n2) == NodeV { last_report: now, ..nv_old });
                    assert(final(self).node_rec_of(caller@) == Some(
                        NodeV { last_report: now, ..nv_old },
                    ));
                    assert forall|x: Seq<char>| x != caller@ implies #[trigger] final(self).node_rec_of(x) == mid.node_rec_of(x) by {
                        assert(has_key(self.node_details.pairs@, x) == has_key(o_nd, x));
                        if has_key(o_nd, x) {
                            assert(val_of(self.node_details.pairs@, x) == val_of(o_nd, x));
                        }
                    }
                    assert(old(self).node_rec_of(caller@) == mid.node_rec_of(caller@));
                }
            },
            None => {
            },
        }
        proof {
            assert(self.price_reports == mid.price_reports);
            assert(self.aggregated_prices == mid.aggregated_prices);
            assert forall|k: Seq<char>| k != asset_id@ implies #[trigger] self.reports_for(k)
                == old(self).reports_for(k) by {
                assert(mid.reports_for(k) == old(self).reports_for(k));
            }
            assert forall|k: Seq<char>| k != asset_id@ implies #[trigger] self.agg_for(k) == old(self).agg_for(k) by {
                assert(mid.agg_for(k) == old(self).agg_for(k));
            }
            assert(self.reports_for(asset_id@) == mid.reports_for(asset_id@));
            assert(self.agg_for(asset_id@) == mid.agg_for(asset_id@));
            assert(finalize_rel(*old(self), mid, asset_id@, merged_v, a_min, now));
            assert(finalize_rel(*old(self), *self, asset_id@, merged_v, a_min, now));
        }
        Ok(())
    }
}

} // verus!

verus! {

/// What binding a node account for an operator leaves behind: the operator
/// maps to the new node, and the previously bound node, if any, is fully
/// detached: unbound, deauthorized, its record deleted, and its reports
/// pruned from every asset with re-finalization.
pub open spec fn set_node_post(o: Oracle, f: Oracle, op: Seq<char>, node: Seq<char>, now: u64) -> bool {
    &&& f.op_node_of(op) == Some(node)
    &&& forall|x: Seq<char>| x != op ==> #[trigger] f.op_node_of(x) == o.op_node_of(x)
    &&& f.node_op_of(node) == Some(op)
    &&& match o.op_node_of(op) {
        Some(prev) => {
            &&& prev != node ==> f.node_op_of(prev) is None
            &&& forall|x: Seq<char>|
                x != node && x != prev ==> #[trigger] f.node_op_of(x) == o.node_op_of(x)
            &&& !f.spec_is_authorized(prev)
            &&& forall|x: Seq<char>|
                x != prev ==> #[trigger] f.spec_is_authorized(x) == o.spec_is_authorized(x)
            &&& f.node_rec_of(prev) is None
            &&& forall|x: Seq<char>| x != prev ==> #[trigger] f.node_rec_of(x) == o.node_rec_of(x)
            &&& forall|k: Seq<char>| #[trigger] cascade_at(o, f, k, prev, now)
        },
        None => {
            &&& forall|x: Seq<char>| x != node ==> #[trigger] f.node_op_of(x) == o.node_op_of(x)
            &&& f.authorized_nodes.items@ == o.authorized_nodes.items@
            &&& f.node_details.pairs@ == o.node_details.pairs@
            &&& same_prices(o, f)
        },
    }
}

impl Oracle {
    /// Binds a node account to the calling whitelisted operator, atomically
    /// demoting the operator's previously bound node: the demoted node is
    /// unbound, deauthorized, and its reports are pruned from every asset.
    /// A node account bound to a different operator is refused, which keeps
    /// the operator-node binding a bidirectional one-to-one map.
    pub fn set_node_account(&mut self, caller: &String, node_account: String, now: u64) -> (r:
        Result<(), OracleError>)
        requires
            old(self).wf(),
        ensures
            final(self).wf(),
            match r {
                Ok(()) => old(self).is_whitelisted(caller@) && (old(self).node_op_of(
                    node_account@,
                ) is None || old(self).node_op_of(node_account@) == Some(caller@))
                    && set_node_post(*old(self), *final(self), caller@, node_account@, now)
                    && same_assets(*old(self), *final(self)) && same_operators(
                    *old(self),
                    *final(self),
                ) && same_attest(*old(self), *final(self)) && same_policy(*old(self), *final(self))
                    && same_gov(*old(self), *final(self)) && same_proposals(
                    *old(self),
                    *final(self),
                ) && same_flags(*old(self), *final(self)),
                Err(e) => unchanged(*old(self), *final(self)) && if !old(self).is_whitelisted(
                    caller@,
                ) {
                    e == OracleError::NotWhitelistedOperator
                } else {
                    e == OracleError::NodeAlreadyBound && old(self).node_op_of(node_account@)
                        is Some && old(self).node_op_of(node_account@) != Some(caller@)
                },
            },
    {
        if !self.whitelisted_operators.contains(caller) {
            return Err(OracleError::NotWhitelistedOperator);
        }
        let foreign: bool = match self.node_to_operator.get(&node_account) {
            Some(other) => !(*other == *caller),
            None => false,
        };
        if foreign {
            return Err(OracleError::NodeAlreadyBound);
        }
        let prev_opt: Option<String> = match self.operator_to_node.get(caller) {
            Some(p) => Some(p.clone()),
            None => None,
        };
        if let Some(prev) = &prev_opt {
            self.demote_node(prev, now);
        }
        let ghost s1 = *self;
        let ghost o_o2n = self.operator_to_node.pairs@;
        let new_node_for_map = node_account.clone();
        self.operator_to_node.insert(caller.clone(), new_node_for_map);
        proof {
            lemma_upserted(o_o2n, self.operator_to_node.pairs@, caller@, new_node_for_map);
        }
        let ghost o_n2o2 = self.node_to_operator.pairs@;
        let op_for_map = caller.clone();
        self.node_to_operator.insert(node_account, op_for_map);
        proof {
            lemma_upserted(o_n2o2, self.node_to_operator.pairs@, node_account@, op_for_map);

            assert(self.op_node_of(caller@) == Some(node_account@));
            assert forall|x: Seq<char>| x != caller@ implies #[trigger] self.op_node_of(x) == old(
                self,
            ).op_node_of(x) by {
                assert(has_key(self.operator_to_node.pairs@, x) == has_key(o_o2n, x));
                if has_key(o_o2n, x) {
                    assert(val_of(self.operator_to_node.pairs@, x) == val_of(o_o2n, x));
                }
            }
            assert(self.node_op_of(node_account@) == Some(caller@));
            match prev_opt {
                Some(prev) => {
                    assert(old(self).op_node_of(caller@) == Some(prev@));
                    lemma_key_removed(
                        old(self).node_to_operator.pairs@,
                        s1.node_to_operator.pairs@,
                        prev@,
                    );
                    lemma_str_removed(
                        old(self).authorized_nodes.items@,
                        s1.authorized_nodes.items@,
                        prev@,
                    );
                    lemma_key_removed(
                        old(self).node_details.pairs@,
                        s1.node_details.pairs@,
                        prev@,
                    );
                    if prev@ != node_account@ {
                        assert(!has_key(s1.node_to_operator.pairs@, prev@));
                        assert(has_key(self.node_to_operator.pairs@, prev@) == has_key(
                            o_n2o2,
                            prev@,
                        ));
                        assert(self.node_op_of(prev@) is None);
                    }
                    assert forall|x: Seq<char>| x != node_account@ && x != prev@ implies
                        #[trigger] self.node_op_of(x) == old(self).node_op_of(x) by {
                        assert(has_key(self.node_to_operator.pairs@, x) == has_key(o_n2o2, x));
                        if has_key(o_n2o2, x) {
                            assert(val_of(self.node_to_operator.pairs@, x) == val_of(o_n2o2, x));
                        }
                        assert(has_key(s1.node_to_operator.pairs@, x) == has_key(
                            old(self).node_to_operator.pairs@,
                            x,
                        ));
                        if has_key(old(self).node_to_operator.pairs@, x) {
                            assert(val_of(s1.node_to_operator.pairs@, x) == val_of(
                                old(self).node_to_operator.pairs@,
                                x,
                            ));
                        }
                    }
                    assert(!self.spec_is_authorized(prev@));
                    assert forall|x: Seq<char>| x != prev@ implies #[trigger] self
                        .spec_is_authorized(x) == old(self).spec_is_authorized(x) by {
                        assert(has_str(s1.authorized_nodes.items@, x) == has_str(
                            old(self).authorized_nodes.items@,
                            x,
                        ));
                    }
                    assert(self.node_rec_of(prev@) is None);
                    assert forall|x: Seq<char>| x != prev@ implies #[trigger] self.node_rec_of(x)
                        == old(self).node_rec_of(x) by {
                        assert(has_key(s1.node_details.pairs@, x) == has_key(
                            old(self).node_details.pairs@,
                            x,
                        ));
                        if has_key(old(self).node_details.pairs@, x) {
                            assert(val_of(s1.node_details.pairs@, x) == val_of(
                                old(self).node_details.pairs@,
                                x,
                            ));
                        }
                    }
                    assert forall|k: Seq<char>| #[trigger] cascade_at(
                        *old(self),
                        *self,
                        k,
                        prev@,
                        now,
                    ) by {
                        assert(cascade_at(*old(self), s1, k, prev@, now));
                        assert(self.reports_for(k) == s1.reports_for(k));
                        assert(self.agg_for(k) == s1.agg_for(k));
                    }
                },
                None => {
                    assert(old(self).op_node_of(caller@) is None);
                    assert forall|x: Seq<char>| x != node_account@ implies #[trigger] self
                        .node_op_of(x) == old(self).node_op_of(x) by {
                        assert(has_key(self.node_to_operator.pairs@, x) == has_key(o_n2o2, x));
                        if has_key(o_n2o2, x) {
                            assert(val_of(self.node_to_operator.pairs@, x) == val_of(o_n2o2, x));
                        }
                    }
                },
            }
        }
        Ok(())
    }
}

} // verus!

verus! {

/// The published price with live source count, as `get_price` computes it.
pub open spec fn price_data_spec(o: Oracle, id: Seq<char>, now: u64) -> Option<
    crate::types::PriceDataV,
> {
    match o.agg_for(id) {
        None => None,
        Some(p) => if o.recency_threshold > 0 && spec_sat_sub(now, p.timestamp)
            > o.recency_threshold {
            None
        } else {
            let count = match o.reports_for(id) {
                Some(rs) => rs.len() as int,
                None => 0,
            };
            Some(
                crate::types::PriceDataV { asset_id: id, price: p, num_sources: count as u8 },
            )
        },
    }
}

/// The externally-schema-compatible form of a stored price.
pub open spec fn pyth_of(p: Price) -> PythPrice {
    PythPrice {
        price: p.multiplier as i64,
        conf: 0,
        expo: (-(p.decimals as int)) as i32,
        publish_time: (p.timestamp / 1_000_000_000) as i64,
    }
}

impl Oracle {
    /// Registers the calling bound node as an authorized reporter, gated by
    /// the operator whitelist, the code-hash registry, the approved enclave
    /// measurement, and the attestation age bound.
    pub fn register_node(
        &mut self,
        caller: &String,
        code_hash: String,
        attestation: AttestationData,
        now: u64,
    ) -> (r: Result<(), OracleError>)
        requires
            old(self).wf(),
        ensures
            final(self).wf(),
            match r {
                Ok(()) => {
                    let op = old(self).node_op_of(caller@)->Some_0;
                    &&& old(self).node_op_of(caller@) is Some
                    &&& old(self).is_whitelisted(op)
                    &&& old(self).hash_approved(code_hash@)
                    &&& old(self).enclave_of(code_hash@) == Some(attestation.mr_enclave@)
                    &&& spec_sat_sub(now, attestation.issued_at) <= old(self).attestation_max_age
                    &&& final(self).spec_is_authorized(caller@)
                    &&& forall|x: Seq<char>|
                        x != caller@ ==> #[trigger] final(self).spec_is_authorized(x) == old(
                            self,
                        ).spec_is_authorized(x)
                    &&& final(self).node_rec_of(caller@) == Some(
                        NodeV {
                            account_id: caller@,
                            operator_id: op,
                            registered_at: now,
                            code_hash: code_hash@,
                            last_report: 0,
                            active: true,
                        },
                    )
                    &&& forall|x: Seq<char>|
                        x != caller@ ==> #[trigger] final(self).node_rec_of(x) == old(
                            self,
                        ).node_rec_of(x)
                    &&& final(self).operator_to_node.pairs@ == old(self).operator_to_node.pairs@
                    &&& final(self).node_to_operator.pairs@ == old(self).node_to_operator.pairs@
                    &&& same_prices(*old(self), *final(self))
                    &&& same_assets(*old(self), *final(self))
                    &&& same_operators(*old(self), *final(self))
                    &&& same_attest(*old(self), *final(self))
                    &&& same_policy(*old(self), *final(self))
                    &&& same_gov(*old(self), *final(self))
                    &&& same_proposals(*old(self), *final(self))
                    &&& same_flags(*old(self), *final(self))
                },
                Err(e) => unchanged(*old(self), *final(self)) && if old(self).node_op_of(caller@)
                    is None {
                    e == OracleError::NodeNotBound
                } else if !old(self).is_whitelisted(old(self).node_op_of(caller@)->Some_0) {
                    e == OracleError::OperatorNotWhitelisted
                } else if !old(self).hash_approved(code_hash@) {
                    e == OracleError::CodeHashNotApproved
                } else if old(self).enclave_of(code_hash@) is None {
                    e == OracleError::AttestationNotApproved
                } else if old(self).enclave_of(code_hash@) != Some(attestation.mr_enclave@) {
                    e == OracleError::MeasurementMismatch
                } else {
                    e == OracleError::AttestationExpired && spec_sat_sub(
                        now,
                        attestation.issued_at,
                    ) > old(self).attestation_max_age
                },
            },
    {
        let operator: String = match self.node_to_operator.get(caller) {
            Some(op) => op.clone(),
            None => {
                return Err(OracleError::NodeNotBound);
            },
        };
        if !self.whitelisted_operators.contains(&operator) {
            return Err(OracleError::OperatorNotWhitelisted);
        }
        if !self.approved_code_hashes.contains(&code_hash) {
            return Err(OracleError::CodeHashNotApproved);
        }
        let expected: String = match self.approved_enclaves.get(&code_hash) {
            Some(m) => m.clone(),
            None => {
                return Err(OracleError::AttestationNotApproved);
            },
        };
        if !(expected == attestation.mr_enclave) {
            return Err(OracleError::MeasurementMismatch);
        }
        if saturating_sub_u64(now, attestation.issued_at) > self.attestation_max_age {
            return Err(OracleError::AttestationExpired);
        }

        let node = OracleNode {
            account_id: caller.clone(),
            operator_id: operator,
            registered_at: now,
            code_hash,
            last_report: 0,
            active: true,
        };
        let ghost o_auth = self.authorized_nodes.items@;
        self.authorized_nodes.insert(caller.clone());
        proof {
            lemma_str_inserted(o_auth, self.authorized_nodes.items@, caller@);
        }
        let ghost o_nd = self.node_details.pairs@;
        self.node_details.insert(caller.clone(), node);
        proof {
            lemma_upserted(o_nd, self.node_details.pairs@, caller@, node);
            assert forall|x: Seq<char>| x != caller@ implies #[trigger] self.node_rec_of(x) == old(
                self,
            ).node_rec_of(x) by {
                assert(has_key(self.node_details.pairs@, x) == has_key(o_nd, x));
                if has_key(o_nd, x) {
                    assert(val_of(self.node_details.pairs@, x) == val_of(o_nd, x));
                }
            }
        }
        Ok(())
    }

    /// The published price for an asset with its live source count, or
    /// nothing when absent or stale at `now`.
    pub fn get_price(&self, asset_id: String, now: u64) -> (r: Option<PriceData>)
        requires
            self.wf(),
        ensures
            match r {
                Some(pd) => price_data_spec(*self, asset_id@, now) == Some(
                    crate::types::price_data_view(pd),
                ),
                None => price_data_spec(*self, asset_id@, now) is None,
            },
    {
        let price: Price = match self.aggregated_prices.get(&asset_id) {
            Some(p) => *p,
            None => {
                return None;
            },
        };
        if self.recency_threshold > 0 {
            if saturating_sub_u64(now, price.timestamp) > self.recency_threshold {
                return None;
            }
        }
        let count: usize = match self.price_reports.get(&asset_id) {
            Some(v) => v.len(),
            None => 0,
        };
        let num_sources: u8 = #[verifier::truncate] (count as u8);
        Some(PriceData { asset_id, price, num_sources })
    }

    /// The stored price in the external schema, unless older than `max_age`
    /// at `now`.
    pub fn get_price_no_older_than(&self, asset_id: String, max_age: u64, now: u64) -> (r: Option<
        PythPrice,
    >)
        requires
            self.wf(),
        ensures
            r == (match self.agg_for(asset_id@) {
                None => None::<PythPrice>,
                Some(p) => if spec_sat_sub(now, p.timestamp) > max_age {
                    None
                } else {
                    Some(pyth_of(p))
                },
            }),
    {
        let price: Price = match self.aggregated_prices.get(&asset_id) {
            Some(p) => *p,
            None => {
                return None;
            },
        };
        if saturating_sub_u64(now, price.timestamp) > max_age {
            return None;
        }
        Some(
            PythPrice {
                price: #[verifier::truncate] (price.multiplier as i64),
                conf: 0,
                expo: -(price.decimals as i32),
                publish_time: (price.timestamp / 1_000_000_000) as i64,
            },
        )
    }

    /// The stored price in the external schema, regardless of its age.
    pub fn get_price_unsafe(&self, asset_id: String) -> (r: Option<PythPrice>)
        requires
            self.wf(),
        ensures
            r == (match self.agg_for(asset_id@) {
                None => None::<PythPrice>,
                Some(p) => Some(pyth_of(p)),
            }),
    {
        let price: Price = match self.aggregated_prices.get(&asset_id) {
            Some(p) => *p,
            None => {
                return None;
            },
        };
        Some(
            PythPrice {
                price: #[verifier::truncate] (price.multiplier as i64),
                conf: 0,
                expo: -(price.decimals as i32),
                publish_time: (price.timestamp / 1_000_000_000) as i64,
            },
        )
    }

    /// Copies of all asset records, in creation order.
    pub fn get_assets(&self) -> (r: Vec<Asset>)
        requires
            self.wf(),
        ensures
            r@.map_values(|a: Asset| asset_view(a)) == self.assets_v(),
    {
        let n = self.assets.len();
        let mut r: Vec<Asset> = Vec::new();
        let mut i: usize = 0;
        while i < n
            invariant
                n == self.assets.pairs@.len(),
                i <= n,
                r@.len() == i,
                forall|j: int| 0 <= j < i ==> #[trigger] asset_view(r@[j]) == self.assets_v()[j],
            decreases n - i,
        {
            let a = &self.assets.pairs[i].1;
            r.push(
                Asset {
                    id: a.id.clone(),
                    symbol: a.symbol.clone(),
                    name: a.name.clone(),
                    decimals: a.decimals,
                    active: a.active,
                    min_sources: a.min_sources,
                },
            );
            i += 1;
        }
        proof {
            assert(r@.map_values(|a: Asset| asset_view(a)) =~= self.assets_v());
        }
        r
    }
}

} // verus!

verus! {

/// The approval list after one vote: unchanged for a duplicate voter,
/// extended otherwise.
pub open spec fn approvals_after(a: Seq<Seq<char>>, v: Seq<char>) -> Seq<Seq<char>> {
    if a.contains(v) {
        a
    } else {
        a.push(v)
    }
}

/// Whether some element of `v` reads `s`.
fn contains_string(v: &Vec<String>, s: &String) -> (r: bool)
    ensures
        r == v@.map_values(|x: String| x@).contains(s@),
{
    let n = v.len();
    let mut i: usize = 0;
    while i < n
        invariant
            n == v@.len(),
            i <= n,
            forall|j: int| 0 <= j < i ==> v@[j]@ != s@,
        decreases n - i,
    {
        if v[i] == *s {
            proof {
                assert(v@.map_values(|x: String| x@)[i as int] == s@);
            }
            return true;
        }
        i += 1;
    }
    proof {
        if v@.map_values(|x: String| x@).contains(s@) {
            let m = v@.map_values(|x: String| x@);
            let j = choose|j: int| 0 <= j < m.len() && #[trigger] m[j] == s@;
            assert(v@[j]@ == s@);
        }
    }
    false
}

/// A copy of a string vector carrying the same views.
fn clone_strings(v: &Vec<String>) -> (r: Vec<String>)
    ensures
        r@.map_values(|x: String| x@) == v@.map_values(|x: String| x@),
{
    let n = v.len();
    let mut r: Vec<String> = Vec::new();
    let mut i: usize = 0;
    while i < n
        invariant
            n == v@.len(),
            i <= n,
            r@.len() == i,
            forall|j: int| 0 <= j < i ==> #[trigger] r@[j]@ == v@[j]@,
        decreases n - i,
    {
        r.push(v[i].clone());
        i += 1;
    }
    proof {
        assert(r@.map_values(|x: String| x@) =~= v@.map_values(|x: String| x@));
    }
    r
}

/// A copy of an action carrying the same view.
fn clone_action(a: &AdminAction) -> (r: AdminAction)
    ensures
        action_view(r) == action_view(*a),
{
    match a {
        AdminAction::AddNodeOperator { account_id } => AdminAction::AddNodeOperator {
            account_id: account_id.clone(),
        },
        AdminAction::RemoveNodeOperator { account_id } => AdminAction::RemoveNodeOperator {
            account_id: account_id.clone(),
        },
        AdminAction::ApproveCodeHash { code_hash } => AdminAction::ApproveCodeHash {
            code_hash: code_hash.clone(),
        },
        AdminAction::RemoveCodeHash { code_hash } => AdminAction::RemoveCodeHash {
            code_hash: code_hash.clone(),
        },
        AdminAction::ApproveAttestation { code_hash, mr_enclave } => AdminAction::ApproveAttestation {
            code_hash: code_hash.clone(),
            mr_enclave: mr_enclave.clone(),
        },
        AdminAction::RemoveAttestation { code_hash } => AdminAction::RemoveAttestation {
            code_hash: code_hash.clone(),
        },
        AdminAction::Pause => AdminAction::Pause,
        AdminAction::Resume => AdminAction::Resume,
        AdminAction::UpdateConfig { recency_threshold, min_report_count } => AdminAction::UpdateConfig {
            recency_threshold: *recency_threshold,
            min_report_count: *min_report_count,
        },
    }
}

/// A copy of a proposal carrying the same view.
fn clone_proposal(p: &AdminProposal) -> (r: AdminProposal)
    ensures
        proposal_view(r) == proposal_view(*p),
{
    let r = AdminProposal {
        id: p.id,
        proposer: p.proposer.clone(),
        action: clone_action(&p.action),
        scheduled_for: p.scheduled_for,
        approvals: clone_strings(&p.approvals),
        executed: p.executed,
    };
    proof {
        assert(proposal_view(r) == proposal_view(*p));
    }
    r
}

/// What a successful proposal creation leaves behind.
pub open spec fn propose_post(
    o: Oracle,
    f: Oracle,
    caller: Seq<char>,
    av: ActionV,
    now: u64,
) -> bool {
    let pid = spec_sat_add(o.proposal_counter, 1);
    let pv = ProposalV {
        id: pid,
        proposer: caller,
        action: av,
        scheduled_for: spec_sat_add(now, o.admin_timelock_delay),
        approvals: if o.is_voter(caller) {
            seq![caller]
        } else {
            Seq::<Seq<char>>::empty()
        },
        executed: false,
    };
    &&& f.proposal_counter == pid
    &&& p_upserted(o.proposals.view_seq(), f.proposals.view_seq(), pv)
    &&& same_prices(o, f)
    &&& same_assets(o, f)
    &&& same_identity(o, f)
    &&& same_operators(o, f)
    &&& same_attest(o, f)
    &&& same_policy(o, f)
    &&& same_gov(o, f)
    &&& same_flags(o, f)
}

impl Oracle {
    /// `ceil(voter_count * quorum_bps / 10000)` with a floor of 1 whenever
    /// any voter is configured, computed without floating point.
    pub fn required_approvals(&self) -> (r: usize)
        requires
            self.wf(),
        ensures
            r == self.spec_required_approvals(),
    {
        let voter_count: u128 = self.admin_voters.len() as u128;
        if voter_count == 0 {
            return 0;
        }
        let quorum_bps: u128 = self.admin_quorum_bps as u128;
        proof {
            assert(voter_count * quorum_bps + 9999 <= u128::MAX) by (nonlinear_arith)
                requires
                    voter_count <= u64::MAX,
                    quorum_bps <= 10000,
            ;
        }
        let mut required: u128 = (voter_count * quorum_bps + 9999) / 10000;
        proof {
            assert((voter_count * quorum_bps + 9999) / 10000 <= voter_count) by (nonlinear_arith)
                requires
                    voter_count >= 1,
                    quorum_bps <= 10000,
            ;
        }
        if required == 0 {
            required = 1;
        }
        required as usize
    }

    fn has_quorum(&self, approvals_len: usize) -> (r: bool)
        requires
            self.wf(),
        ensures
            r == (approvals_len >= self.spec_required_approvals()),
    {
        approvals_len >= self.required_approvals()
    }

    /// Creates a timelocked proposal; a proposer who is also a voter
    /// approves it immediately.
    pub fn propose_action(&mut self, caller: &String, action: AdminAction, now: u64) -> (r: Result<
        (),
        OracleError,
    >)
        requires
            old(self).wf(),
        ensures
            final(self).wf(),
            match r {
                Ok(()) => old(self).is_proposer(caller@) && propose_post(
                    *old(self),
                    *final(self),
                    caller@,
                    action_view(action),
                    now,
                ),
                Err(e) => e == OracleError::NotProposer && !old(self).is_proposer(caller@)
                    && unchanged(*old(self), *final(self)),
            },
    {
        if !self.admin_proposers.contains(caller) {
            return Err(OracleError::NotProposer);
        }
        let scheduled_for = saturating_add_u64(now, self.admin_timelock_delay);
        let mut approvals: Vec<String> = Vec::new();
        if self.admin_voters.contains(caller) {
            approvals.push(caller.clone());
        }
        let proposal_id = saturating_add_u64(self.proposal_counter, 1);
        self.proposal_counter = proposal_id;
        let ghost av = approvals@.map_values(|x: String| x@);
        proof {
            if old(self).is_voter(caller@) {
                assert(av =~= seq![caller@]);
            } else {
                assert(av =~= Seq::<Seq<char>>::empty());
            }
        }
        let proposal = AdminProposal {
            id: proposal_id,
            proposer: caller.clone(),
            action,
            scheduled_for,
            approvals,
            executed: false,
        };
        self.proposals.upsert(proposal);
        Ok(())
    }

    /// Records a voter's approval; a duplicate approval is a silent no-op.
    pub fn approve_proposal(&mut self, caller: &String, proposal_id: u64) -> (r: Result<
        (),
        OracleError,
    >)
        requires
            old(self).wf(),
        ensures
            final(self).wf(),
            match r {
                Ok(()) => {
                    let pv = old(self).proposal_of(proposal_id)->Some_0;
                    let pv2 = ProposalV {
                        approvals: approvals_after(pv.approvals, caller@),
                        ..pv
                    };
                    &&& old(self).is_voter(caller@)
                    &&& old(self).proposal_of(proposal_id) is Some
                    &&& !pv.executed
                    &&& final(self).proposals.view_seq() == old(self).proposals.view_seq().update(
                        crate::proposals::pidx_of(old(self).proposals.view_seq(), proposal_id),
                        pv2,
                    )
                    &&& final(self).proposal_counter == old(self).proposal_counter
                    &&& same_prices(*old(self), *final(self))
                    &&& same_assets(*old(self), *final(self))
                    &&& same_identity(*old(self), *final(self))
                    &&& same_operators(*old(self), *final(self))
                    &&& same_attest(*old(self), *final(self))
                    &&& same_policy(*old(self), *final(self))
                    &&& same_gov(*old(self), *final(self))
                    &&& same_flags(*old(self), *final(self))
                },
                Err(e) => unchanged(*old(self), *final(self)) && if !old(self).is_voter(caller@) {
                    e == OracleError::NotVoter
                } else if old(self).proposal_of(proposal_id) is None {
                    e == OracleError::ProposalNotFound
                } else {
                    e == OracleError::AlreadyExecuted && old(self).proposal_of(
                        proposal_id,
                    )->Some_0.executed
                },
            },
    {
        if !self.admin_voters.contains(caller) {
            return Err(OracleError::NotVoter);
        }
        let i = match self.proposals.index_of(proposal_id) {
            Some(i) => i,
            None => {
                return Err(OracleError::ProposalNotFound);
            },
        };
        proof {
            assert(self.proposals.view_seq()[i as int] == proposal_view(self.proposals.items@[
                i as int
            ]));
        }
        if self.proposals.items[i].executed {
            return Err(OracleError::AlreadyExecuted);
        }
        let already = contains_string(&self.proposals.items[i].approvals, caller);
        let ghost pv = pval_of(self.proposals.view_seq(), proposal_id);
        proof {
            assert(pv.approvals == self.proposals.items@[i as int].approvals@.map_values(
                |x: String| x@,
            ));
        }
        if already {
            proof {
                assert(approvals_after(pv.approvals, caller@) == pv.approvals);
                assert(ProposalV { approvals: approvals_after(pv.approvals, caller@), ..pv }
                    == pv);
                assert(self.proposals.view_seq().update(i as int, pv) =~= self.proposals
                    .view_seq());
            }
            return Ok(());
        }
        let mut p2 = clone_proposal(&self.proposals.items[i]);
        p2.approvals.push(caller.clone());
        proof {
            assert(p2.approvals@.map_values(|x: String| x@) =~= pv.approvals.push(caller@));
            assert(proposal_view(p2) == ProposalV {
                approvals: approvals_after(pv.approvals, caller@),
                ..pv
            });
        }
        self.proposals.set_at(i, p2);
        Ok(())
    }

    /// Unconditionally discards a proposal (owner fast path).
    pub fn cancel_proposal(&mut self, caller: &String, proposal_id: u64) -> (r: Result<
        (),
        OracleError,
    >)
        requires
            old(self).wf(),
        ensures
            final(self).wf(),
            match r {
                Ok(()) => caller@ == old(self).owner@ && old(self).proposal_of(proposal_id)
                    is Some && p_removed(
                    old(self).proposals.view_seq(),
                    final(self).proposals.view_seq(),
                    proposal_id,
                ) && final(self).proposal_counter == old(self).proposal_counter && same_prices(
                    *old(self),
                    *final(self),
                ) && same_assets(*old(self), *final(self)) && same_identity(*old(self), *final(self))
                    && same_operators(*old(self), *final(self)) && same_attest(
                    *old(self),
                    *final(self),
                ) && same_policy(*old(self), *final(self)) && same_gov(*old(self), *final(self))
                    && same_flags(*old(self), *final(self)),
                Err(e) => unchanged(*old(self), *final(self)) && if caller@ != old(self).owner@ {
                    e == OracleError::NotOwner
                } else {
                    e == OracleError::ProposalNotFound && old(self).proposal_of(proposal_id)
                        is None
                },
            },
    {
        if !self.is_owner(caller) {
            return Err(OracleError::NotOwner);
        }
        match self.proposals.remove_id(proposal_id) {
            Some(_) => Ok(()),
            None => Err(OracleError::ProposalNotFound),
        }
    }

    /// Copies of all pending proposals, in creation order.
    pub fn list_proposals(&self) -> (r: Vec<AdminProposal>)
        requires
            self.wf(),
        ensures
            r@.map_values(|p: AdminProposal| proposal_view(p)) == self.proposals.view_seq(),
    {
        let n = self.proposals.len();
        let mut r: Vec<AdminProposal> = Vec::new();
        let mut i: usize = 0;
        while i < n
            invariant
                n == self.proposals.items@.len(),
                i <= n,
                r@.len() == i,
                forall|j: int|
                    0 <= j < i ==> #[trigger] proposal_view(r@[j]) == self.proposals.view_seq()[j],
            decreases n - i,
        {
            r.push(clone_proposal(&self.proposals.items[i]));
            i += 1;
        }
        proof {
            assert(r@.map_values(|p: AdminProposal| proposal_view(p)) =~= self.proposals
                .view_seq());
        }
        r
    }
}

} // verus!

verus! {

/// The price tables for key `k` after an operator removal that detached
/// `node`: assets holding reports get those reports pruned of `node` and
/// re-finalized; everything else is untouched.
pub open spec fn cascade_at(o: Oracle, f: Oracle, k: Seq<char>, node: Seq<char>, now: u64) -> bool {
    if o.asset_of(k) is Some && o.reports_for(k) is Some {
        finalize_rel(
            o,
            f,
            k,
            o.reports_for(k)->Some_0.filter(prune_pred(node)),
            o.asset_of(k)->Some_0.min_sources,
            now,
        )
    } else {
        f.reports_for(k) == o.reports_for(k) && f.agg_for(k) == o.agg_for(k)
    }
}

/// What removing an operator leaves behind: the operator is un-whitelisted,
/// its bound node (if any) is fully detached and deauthorized, and every
/// asset's report set and published price are re-finalized without that
/// node's reports.
pub open spec fn remove_operator_post(o: Oracle, f: Oracle, op: Seq<char>, now: u64) -> bool {
    &&& str_removed(o.whitelisted_operators.items@, f.whitelisted_operators.items@, op)
    &&& same_assets(o, f)
    &&& same_attest(o, f)
    &&& same_policy(o, f)
    &&& same_gov(o, f)
    &&& same_flags(o, f)
    &&& match o.op_node_of(op) {
        None => {
            &&& f.operator_to_node.pairs@ == o.operator_to_node.pairs@
            &&& f.node_to_operator.pairs@ == o.node_to_operator.pairs@
            &&& f.authorized_nodes.items@ == o.authorized_nodes.items@
            &&& f.node_details.pairs@ == o.node_details.pairs@
            &&& same_prices(o, f)
        },
        Some(node) => {
            &&& f.op_node_of(op) is None
            &&& forall|x: Seq<char>| x != op ==> #[trigger] f.op_node_of(x) == o.op_node_of(x)
            &&& f.node_op_of(node) is None
            &&& forall|x: Seq<char>| x != node ==> #[trigger] f.node_op_of(x) == o.node_op_of(x)
            &&& !f.spec_is_authorized(node)
            &&& forall|x: Seq<char>|
                x != node ==> #[trigger] f.spec_is_authorized(x) == o.spec_is_authorized(x)
            &&& f.node_rec_of(node) is None
            &&& forall|x: Seq<char>| x != node ==> #[trigger] f.node_rec_of(x) == o.node_rec_of(x)
            &&& forall|k: Seq<char>| #[trigger] cascade_at(o, f, k, node, now)
        },
    }
}

impl Oracle {
    /// Prunes `node`'s reports from every asset's live report set and
    /// re-runs the finalize step for each affected asset.
    fn prune_node_reports(&mut self, node: &String, now: u64)
        requires
            old(self).wf(),
        ensures
            final(self).wf(),
            forall|k: Seq<char>| #[trigger] cascade_at(*old(self), *final(self), k, node@, now),
            same_assets(*old(self), *final(self)),
            same_identity(*old(self), *final(self)),
            same_operators(*old(self), *final(self)),
            same_attest(*old(self), *final(self)),
            same_policy(*old(self), *final(self)),
            same_gov(*old(self), *final(self)),
            same_proposals(*old(self), *final(self)),
            same_flags(*old(self), *final(self)),
    {
        let ghost o0 = *old(self);
        let n_assets = self.assets.len();
        let mut i: usize = 0;
        while i < n_assets
            invariant
                self.wf(),
                n_assets == self.assets.pairs@.len(),
                i <= n_assets,
                self.assets.pairs@ == o0.assets.pairs@,
                self.recency_threshold == o0.recency_threshold,
                self.min_report_count == o0.min_report_count,
                self.attestation_max_age == o0.attestation_max_age,
                self.whitelisted_operators.items@ == o0.whitelisted_operators.items@,
                self.authorized_nodes.items@ == o0.authorized_nodes.items@,
                self.node_details.pairs@ == o0.node_details.pairs@,
                self.operator_to_node.pairs@ == o0.operator_to_node.pairs@,
                self.node_to_operator.pairs@ == o0.node_to_operator.pairs@,
                self.approved_code_hashes.items@ == o0.approved_code_hashes.items@,
                self.approved_enclaves.pairs@ == o0.approved_enclaves.pairs@,
                self.admin_proposers.items@ == o0.admin_proposers.items@,
                self.admin_voters.items@ == o0.admin_voters.items@,
                self.admin_timelock_delay == o0.admin_timelock_delay,
                self.admin_quorum_bps == o0.admin_quorum_bps,
                self.proposals.view_seq() == o0.proposals.view_seq(),
                self.proposal_counter == o0.proposal_counter,
                self.owner == o0.owner,
                self.paused == o0.paused,
                forall|j: int|
                    0 <= j < i ==> #[trigger] cascade_at(
                        o0,
                        *self,
                        o0.assets.pairs@[j].0@,
                        node@,
                        now,
                    ),
                forall|k: Seq<char>|
                    (forall|j: int| 0 <= j < i ==> o0.assets.pairs@[j].0@ != k) ==> #[trigger] self
                        .reports_for(k) == o0.reports_for(k) && self.agg_for(k) == o0.agg_for(k),
            decreases n_assets - i,
        {
            let ghost pre = *self;
            let asset_id = self.assets.pairs[i].0.clone();
            let a_min = self.assets.pairs[i].1.min_sources;
            proof {
                crate::kv::lemma_idx_unique(self.assets.pairs@, asset_id@, i as int);
            }
            let pruned_opt: Option<Vec<PriceReport>> = match self.price_reports.get(&asset_id) {
                Some(v) => Some(prune_reports(v, node)),
                None => None,
            };
            match pruned_opt {
                Some(pruned) => {
                    proof {
                        assert(pre.reports_for(asset_id@) == o0.reports_for(asset_id@));
                        assert(reports_view(pruned@) == o0.reports_for(asset_id@)->Some_0.filter(
                            prune_pred(node@),
                        ));
                    }
                    self.finalize_reports(&asset_id, a_min, pruned, now);
                    proof {
                        assert(cascade_at(o0, *self, asset_id@, node@, now));
                    }
                },
                None => {
                    proof {
                        assert(pre.reports_for(asset_id@) == o0.reports_for(asset_id@));
                        assert(o0.reports_for(asset_id@) is None);
                        assert(cascade_at(o0, *self, asset_id@, node@, now));
                    }
                },
            }
            proof {
                assert forall|j: int| 0 <= j < i + 1 implies #[trigger] cascade_at(
                    o0,
                    *self,
                    o0.assets.pairs@[j].0@,
                    node@,
                    now,
                ) by {
                    let k = o0.assets.pairs@[j].0@;
                    if j < i {
                        assert(cascade_at(o0, pre, k, node@, now));
                        if k != asset_id@ {
                            assert(self.reports_for(k) == pre.reports_for(k));
                            assert(self.agg_for(k) == pre.agg_for(k));
                        } else {
                            assert(j < i && o0.assets.pairs@[j].0@ == o0.assets.pairs@[
                                i as int
                            ].0@);
                            assert(false);
                        }
                    }
                }
                assert forall|k: Seq<char>|
                    (forall|j: int| 0 <= j < i + 1 ==> o0.assets.pairs@[j].0@ != k) implies
                    #[trigger] self.reports_for(k) == o0.reports_for(k) && self.agg_for(k)
                    == o0.agg_for(k) by {
                    assert(k != asset_id@);
                    assert(pre.reports_for(k) == o0.reports_for(k));
                    assert(self.reports_for(k) == pre.reports_for(k));
                    assert(pre.agg_for(k) == o0.agg_for(k));
                    assert(self.agg_for(k) == pre.agg_for(k));
                }
            }
            i += 1;
        }
        proof {
            assert forall|k: Seq<char>| #[trigger] cascade_at(o0, *self, k, node@, now) by {
                if o0.assets.spec_has(k) {
                    let j = crate::kv::idx_of(o0.assets.pairs@, k);
                    assert(o0.assets.pairs@[j].0@ == k);
                    assert(cascade_at(o0, *self, o0.assets.pairs@[j].0@, node@, now));
                } else {
                    assert(o0.asset_of(k) is None);
                    assert(forall|j: int| 0 <= j < n_assets ==> o0.assets.pairs@[j].0@ != k);
                    assert(self.reports_for(k) == o0.reports_for(k) && self.agg_for(k)
                        == o0.agg_for(k));
                }
            }
        }
    }

    /// Fully detaches a demoted node: unbinds it, revokes its
    /// authorization, deletes its record, and prunes its reports from every
    /// asset with re-finalization.
    fn demote_node(&mut self, prev: &String, now: u64)
        requires
            old(self).wf(),
        ensures
            final(self).wf(),
            key_removed(
                old(self).node_to_operator.pairs@,
                final(self).node_to_operator.pairs@,
                prev@,
            ),
            str_removed(
                old(self).authorized_nodes.items@,
                final(self).authorized_nodes.items@,
                prev@,
            ),
            key_removed(old(self).node_details.pairs@, final(self).node_details.pairs@, prev@),
            final(self).operator_to_node.pairs@ == old(self).operator_to_node.pairs@,
            forall|k: Seq<char>| #[trigger] cascade_at(*old(self), *final(self), k, prev@, now),
            same_assets(*old(self), *final(self)),
            same_operators(*old(self), *final(self)),
            same_attest(*old(self), *final(self)),
            same_policy(*old(self), *final(self)),
            same_gov(*old(self), *final(self)),
            same_proposals(*old(self), *final(self)),
            same_flags(*old(self), *final(self)),
    {
        let ghost o0 = *old(self);
        let ghost o_n2o = self.node_to_operator.pairs@;
        self.node_to_operator.remove(prev);
        proof {
            lemma_key_removed(o_n2o, self.node_to_operator.pairs@, prev@);
        }
        let ghost o_auth = self.authorized_nodes.items@;
        self.authorized_nodes.remove(prev);
        proof {
            lemma_str_removed(o_auth, self.authorized_nodes.items@, prev@);
        }
        let ghost o_nd = self.node_details.pairs@;
        self.node_details.remove(prev);
        proof {
            lemma_key_removed(o_nd, self.node_details.pairs@, prev@);
        }
        let ghost mid = *self;
        self.prune_node_reports(prev, now);
        proof {
            assert forall|k: Seq<char>| #[trigger] cascade_at(o0, *self, k, prev@, now) by {
                assert(cascade_at(mid, *self, k, prev@, now));
                assert(mid.reports_for(k) == o0.reports_for(k));
                assert(mid.asset_of(k) == o0.asset_of(k));
            }
        }
    }

    fn internal_remove_node_operator(&mut self, operator_account: &String, now: u64)
        requires
            old(self).wf(),
        ensures
            final(self).wf(),
            remove_operator_post(*old(self), *final(self), operator_account@, now),
            same_proposals(*old(self), *final(self)),
    {
        let ghost o0 = *old(self);
        let ghost o_wl = self.whitelisted_operators.items@;
        self.whitelisted_operators.remove(operator_account);
        proof {
            lemma_str_removed(o_wl, self.whitelisted_operators.items@, operator_account@);
        }
        let node: String = match self.operator_to_node.get(operator_account) {
            Some(n) => n.clone(),
            None => {
                return ;
            },
        };
        let ghost o_o2n = self.operator_to_node.pairs@;
        self.operator_to_node.remove(operator_account);
        proof {
            lemma_key_removed(o_o2n, self.operator_to_node.pairs@, operator_account@);
        }
        let ghost mid = *self;
        self.demote_node(&node, now);
        proof {
            assert(o0.op_node_of(operator_account@) == Some(node@));

            assert(self.op_node_of(operator_account@) is None);
            assert forall|x: Seq<char>| x != operator_account@ implies #[trigger] self.op_node_of(
                x,
            ) == o0.op_node_of(x) by {
                assert(has_key(self.operator_to_node.pairs@, x) == has_key(o_o2n, x));
                if has_key(o_o2n, x) {
                    assert(val_of(self.operator_to_node.pairs@, x) == val_of(o_o2n, x));
                }
            }
            lemma_key_removed(mid.node_to_operator.pairs@, self.node_to_operator.pairs@, node@);
            assert(self.node_op_of(node@) is None);
            assert forall|x: Seq<char>| x != node@ implies #[trigger] self.node_op_of(x)
                == o0.node_op_of(x) by {
                assert(has_key(self.node_to_operator.pairs@, x) == has_key(
                    mid.node_to_operator.pairs@,
                    x,
                ));
                if has_key(mid.node_to_operator.pairs@, x) {
                    assert(val_of(self.node_to_operator.pairs@, x) == val_of(
                        mid.node_to_operator.pairs@,
                        x,
                    ));
                }
            }
            lemma_str_removed(mid.authorized_nodes.items@, self.authorized_nodes.items@, node@);
            assert(!self.spec_is_authorized(node@));
            assert forall|x: Seq<char>| x != node@ implies #[trigger] self.spec_is_authorized(x)
                == o0.spec_is_authorized(x) by {
                assert(has_str(self.authorized_nodes.items@, x) == has_str(
                    mid.authorized_nodes.items@,
                    x,
                ));
            }
            lemma_key_removed(mid.node_details.pairs@, self.node_details.pairs@, node@);
            assert(self.node_rec_of(node@) is None);
            assert forall|x: Seq<char>| x != node@ implies #[trigger] self.node_rec_of(x)
                == o0.node_rec_of(x) by {
                assert(has_key(self.node_details.pairs@, x) == has_key(
                    mid.node_details.pairs@,
                    x,
                ));
                if has_key(mid.node_details.pairs@, x) {
                    assert(val_of(self.node_details.pairs@, x) == val_of(
                        mid.node_details.pairs@,
                        x,
                    ));
                }
            }
            assert forall|k: Seq<char>| #[trigger] cascade_at(o0, *self, k, node@, now) by {
                assert(cascade_at(mid, *self, k, node@, now));
                assert(mid.reports_for(k) == o0.reports_for(k));
                assert(mid.asset_of(k) == o0.asset_of(k));
            }
        }
    }

    /// Removes an operator and cascades: unbinds its node, deauthorizes it,
    /// prunes its reports from every asset and re-aggregates each (owner
    /// fast path).
    pub fn remove_node_operator(&mut self, caller: &String, operator_account: &String, now: u64)
        -> (r: Result<(), OracleError>)
        requires
            old(self).wf(),
        ensures
            final(self).wf(),
            match r {
                Ok(()) => caller@ == old(self).owner@ && remove_operator_post(
                    *old(self),
                    *final(self),
                    operator_account@,
                    now,
                ) && same_proposals(*old(self), *final(self)),
                Err(e) => e == OracleError::NotOwner && caller@ != old(self).owner@ && unchanged(
                    *old(self),
                    *final(self),
                ),
            },
    {
        if !self.is_owner(caller) {
            return Err(OracleError::NotOwner);
        }
        self.internal_remove_node_operator(operator_account, now);
        Ok(())
    }
}

} // verus!

verus! {

/// Whether a governance action passes the same validation the owner fast
/// path enforces: an enclave measurement needs its code hash approved
/// first; every other action is unconditional.
pub open spec fn action_admissible(o: Oracle, av: ActionV) -> bool {
    match av {
        ActionV::ApproveAttestation { code_hash, .. } => o.hash_approved(code_hash),
        _ => true,
    }
}

/// The effect of one dispatched governance action on everything but the
/// proposal table.
pub open spec fn action_post(o: Oracle, f: Oracle, av: ActionV, now: u64) -> bool {
    match av {
        ActionV::AddNodeOperator { account_id } => {
            &&& str_inserted(
                o.whitelisted_operators.items@,
                f.whitelisted_operators.items@,
                account_id,
            )
            &&& same_prices(o, f)
            &&& same_assets(o, f)
            &&& same_identity(o, f)
            &&& same_attest(o, f)
            &&& same_policy(o, f)
            &&& same_gov(o, f)
            &&& same_flags(o, f)
        },
        ActionV::RemoveNodeOperator { account_id } => remove_operator_post(o, f, account_id, now),
        ActionV::ApproveCodeHash { code_hash } => {
            &&& str_inserted(
                o.approved_code_hashes.items@,
                f.approved_code_hashes.items@,
                code_hash,
            )
            &&& f.approved_enclaves.pairs@ == o.approved_enclaves.pairs@
            &&& same_prices(o, f)
            &&& same_assets(o, f)
            &&& same_identity(o, f)
            &&& same_operators(o, f)
            &&& same_policy(o, f)
            &&& same_gov(o, f)
            &&& same_flags(o, f)
        },
        ActionV::RemoveCodeHash { code_hash } => {
            &&& str_removed(
                o.approved_code_hashes.items@,
                f.approved_code_hashes.items@,
                code_hash,
            )
            &&& key_removed(o.approved_enclaves.pairs@, f.approved_enclaves.pairs@, code_hash)
            &&& same_prices(o, f)
            &&& same_assets(o, f)
            &&& same_identity(o, f)
            &&& same_operators(o, f)
            &&& same_policy(o, f)
            &&& same_gov(o, f)
            &&& same_flags(o, f)
        },
        ActionV::ApproveAttestation { code_hash, mr_enclave } => {
            &&& o.hash_approved(code_hash)
            &&& f.enclave_of(code_hash) == Some(mr_enclave)
            &&& forall|h: Seq<char>| h != code_hash ==> #[trigger] f.enclave_of(h) == o.enclave_of(h)
            &&& f.approved_code_hashes.items@ == o.approved_code_hashes.items@
            &&& same_prices(o, f)
            &&& same_assets(o, f)
            &&& same_identity(o, f)
            &&& same_operators(o, f)
            &&& same_policy(o, f)
            &&& same_gov(o, f)
            &&& same_flags(o, f)
        },
        ActionV::RemoveAttestation { code_hash } => {
            &&& key_removed(o.approved_enclaves.pairs@, f.approved_enclaves.pairs@, code_hash)
            &&& f.approved_code_hashes.items@ == o.approved_code_hashes.items@
            &&& same_prices(o, f)
            &&& same_assets(o, f)
            &&& same_identity(o, f)
            &&& same_operators(o, f)
            &&& same_policy(o, f)
            &&& same_gov(o, f)
            &&& same_flags(o, f)
        },
        ActionV::Pause => {
            &&& f.paused
            &&& f.owner == o.owner
            &&& same_prices(o, f)
            &&& same_assets(o, f)
            &&& same_identity(o, f)
            &&& same_operators(o, f)
            &&& same_attest(o, f)
            &&& same_policy(o, f)
            &&& same_gov(o, f)
        },
        ActionV::Resume => {
            &&& !f.paused
            &&& f.owner == o.owner
            &&& same_prices(o, f)
            &&& same_assets(o, f)
            &&& same_identity(o, f)
            &&& same_operators(o, f)
            &&& same_attest(o, f)
            &&& same_policy(o, f)
            &&& same_gov(o, f)
        },
        ActionV::UpdateConfig { recency_threshold, min_report_count } => {
            &&& f.recency_threshold == (match recency_threshold {
                Some(t) => t,
                None => o.recency_threshold,
            })
            &&& f.min_report_count == (match min_report_count {
                Some(c) => if c >= 1 {
                    c
                } else {
                    1
                },
                None => o.min_report_count,
            })
            &&& f.attestation_max_age == o.attestation_max_age
            &&& same_prices(o, f)
            &&& same_assets(o, f)
            &&& same_identity(o, f)
            &&& same_operators(o, f)
            &&& same_attest(o, f)
            &&& same_gov(o, f)
            &&& same_flags(o, f)
        },
    }
}

impl Oracle {
    fn execute_admin_action(&mut self, action: &AdminAction, now: u64) -> (r: Result<
        (),
        OracleError,
    >)
        requires
            old(self).wf(),
        ensures
            final(self).wf(),
            final(self).proposals.view_seq() == old(self).proposals.view_seq(),
            final(self).proposal_counter == old(self).proposal_counter,
            match r {
                Ok(()) => action_admissible(*old(self), action_view(*action)) && action_post(
                    *old(self),
                    *final(self),
                    action_view(*action),
                    now,
                ),
                Err(e) => e == OracleError::CodeHashNotApprovedFirst && !action_admissible(
                    *old(self),
                    action_view(*action),
                ) && unchanged(*old(self), *final(self)),
            },
    {
        match action {
            AdminAction::AddNodeOperator { account_id } => {
                self.internal_add_node_operator(account_id.clone());
            },
            AdminAction::RemoveNodeOperator { account_id } => {
                self.internal_remove_node_operator(account_id, now);
            },
            AdminAction::ApproveCodeHash { code_hash } => {
                self.internal_approve_code_hash(code_hash.clone());
            },
            AdminAction::RemoveCodeHash { code_hash } => {
                self.internal_remove_code_hash(code_hash);
            },
            AdminAction::ApproveAttestation { code_hash, mr_enclave } => {
                let ch = code_hash.clone();
                let m = mr_enclave.clone();
                return self.internal_approve_attestation(ch, m);
            },
            AdminAction::RemoveAttestation { code_hash } => {
                self.approved_enclaves.remove(code_hash);
            },
            AdminAction::Pause => {
                self.internal_pause();
            },
            AdminAction::Resume => {
                self.internal_resume();
            },
            AdminAction::UpdateConfig { recency_threshold, min_report_count } => {
                self.internal_update_config(*recency_threshold, *min_report_count);
            },
        }
        Ok(())
    }

    /// Executes a proposal once its timelock elapsed and quorum is met, then
    /// discards it.
    pub fn execute_proposal(&mut self, caller: &String, proposal_id: u64, now: u64) -> (r: Result<
        (),
        OracleError,
    >)
        requires
            old(self).wf(),
        ensures
            final(self).wf(),
            match r {
                Ok(()) => {
                    let pv = old(self).proposal_of(proposal_id)->Some_0;
                    &&& old(self).is_proposer(caller@)
                    &&& old(self).proposal_of(proposal_id) is Some
                    &&& !pv.executed
                    &&& now >= pv.scheduled_for
                    &&& pv.approvals.len() >= old(self).spec_required_approvals()
                    &&& action_admissible(*old(self), pv.action)
                    &&& action_post(*old(self), *final(self), pv.action, now)
                    &&& p_removed(
                        old(self).proposals.view_seq(),
                        final(self).proposals.view_seq(),
                        proposal_id,
                    )
                    &&& final(self).proposal_counter == old(self).proposal_counter
                },
                Err(e) => unchanged(*old(self), *final(self)) && if !old(self).is_proposer(
                    caller@,
                ) {
                    e == OracleError::NotExecutor
                } else if old(self).proposal_of(proposal_id) is None {
                    e == OracleError::ProposalNotFound
                } else if old(self).proposal_of(proposal_id)->Some_0.executed {
                    e == OracleError::AlreadyExecuted
                } else if now < old(self).proposal_of(proposal_id)->Some_0.scheduled_for {
                    e == OracleError::TimelockNotElapsed
                } else if old(self).proposal_of(proposal_id)->Some_0.approvals.len() < old(
                    self,
                ).spec_required_approvals() {
                    e == OracleError::QuorumNotMet
                } else {
                    e == OracleError::CodeHashNotApprovedFirst && !action_admissible(
                        *old(self),
                        old(self).proposal_of(proposal_id)->Some_0.action,
                    )
                },
            },
    {
        if !self.admin_proposers.contains(caller) {
            return Err(OracleError::NotExecutor);
        }
        let i = match self.proposals.index_of(proposal_id) {
            Some(i) => i,
            None => {
                return Err(OracleError::ProposalNotFound);
            },
        };
        proof {
            assert(self.proposals.view_seq()[i as int] == proposal_view(self.proposals.items@[
                i as int
            ]));
        }
        if self.proposals.items[i].executed {
            return Err(OracleError::AlreadyExecuted);
        }
        if now < self.proposals.items[i].scheduled_for {
            return Err(OracleError::TimelockNotElapsed);
        }
        if !self.has_quorum(self.proposals.items[i].approvals.len()) {
            proof {
                assert(old(self).proposal_of(proposal_id)->Some_0.approvals.len() == self
                    .proposals.items@[i as int].approvals@.len());
            }
            return Err(OracleError::QuorumNotMet);
        }
        proof {
            assert(old(self).proposal_of(proposal_id)->Some_0.approvals.len() == self.proposals
                .items@[i as int].approvals@.len());
        }
        let action = clone_action(&self.proposals.items[i].action);
        proof {
            assert(action_view(action) == old(self).proposal_of(proposal_id)->Some_0.action);
        }
        match self.execute_admin_action(&action, now) {
            Ok(()) => {
            },
            Err(e) => {
                return Err(e);
            },
        }
        let ghost mid = *self;
        self.proposals.remove_id(proposal_id);
        proof {
            let o0 = *old(self);
            let av = action_view(action);
            assert(mid.proposals.view_seq() == o0.proposals.view_seq());
            assert(action_post(o0, mid, av, now));
            match av {
                ActionV::RemoveNodeOperator { account_id } => {
                    assert(remove_operator_post(o0, mid, account_id, now));
                    match o0.op_node_of(account_id) {
                        Some(node) => {
                            assert forall|x: Seq<char>| x != account_id implies #[trigger] self
                                .op_node_of(x) == o0.op_node_of(x) by {
                                assert(mid.op_node_of(x) == o0.op_node_of(x));
                            }
                            assert forall|x: Seq<char>| x != node implies #[trigger] self
                                .node_op_of(x) == o0.node_op_of(x) by {
                                assert(mid.node_op_of(x) == o0.node_op_of(x));
                            }
                            assert forall|x: Seq<char>| x != node implies #[trigger] self
                                .spec_is_authorized(x) == o0.spec_is_authorized(x) by {
                                assert(mid.spec_is_authorized(x) == o0.spec_is_authorized(x));
                            }
                            assert forall|x: Seq<char>| x != node implies #[trigger] self
                                .node_rec_of(x) == o0.node_rec_of(x) by {
                                assert(mid.node_rec_of(x) == o0.node_rec_of(x));
                            }
                            assert forall|k: Seq<char>| #[trigger] cascade_at(
                                o0,
                                *self,
                                k,
                                node,
                                now,
                            ) by {
                                assert(cascade_at(o0, mid, k, node, now));
                                assert(self.reports_for(k) == mid.reports_for(k));
                                assert(self.agg_for(k) == mid.agg_for(k));
                            }
                            assert(remove_operator_post(o0, *self, account_id, now));
                        },
                        None => {
                            assert(remove_operator_post(o0, *self, account_id, now));
                        },
                    }
                },
                ActionV::ApproveAttestation { code_hash, mr_enclave } => {
                    assert forall|h: Seq<char>| h != code_hash implies #[trigger] self.enclave_of(
                        h,
                    ) == o0.enclave_of(h) by {
                        assert(mid.enclave_of(h) == o0.enclave_of(h));
                    }
                    assert(action_post(o0, *self, av, now));
                },
                _ => {
                    assert(action_post(o0, *self, av, now));
                },
            }
        }
        Ok(())
    }
}

} // verus!

verus! {

/// `get_price` for each asset in creation order, keeping the priced ones.
pub open spec fn collect_price_data(o: Oracle, ids: Seq<Seq<char>>, now: u64) -> Seq<
    crate::types::PriceDataV,
>
    decreases ids.len(),
{
    if ids.len() == 0 {
        Seq::<crate::types::PriceDataV>::empty()
    } else {
        let rest = collect_price_data(o, ids.drop_last(), now);
        match price_data_spec(o, ids.last(), now) {
            Some(pd) => rest.push(pd),
            None => rest,
        }
    }
}

/// The asset ids of a table, in order.
pub open spec fn asset_ids_of(o: Oracle) -> Seq<Seq<char>> {
    o.assets.pairs@.map_values(|p: (String, Asset)| p.0@)
}

impl Oracle {
    /// The published price of every asset that currently has one, in asset
    /// creation order.
    pub fn get_price_data(&self, now: u64) -> (r: Vec<PriceData>)
        requires
            self.wf(),
        ensures
            r@.map_values(|pd: PriceData| crate::types::price_data_view(pd))
                == collect_price_data(*self, asset_ids_of(*self), now),
    {
        let n = self.assets.len();
        let mut r: Vec<PriceData> = Vec::new();
        let mut i: usize = 0;
        while i < n
            invariant
                self.wf(),
                n == self.assets.pairs@.len(),
                i <= n,
                r@.map_values(|pd: PriceData| crate::types::price_data_view(pd))
                    =~= collect_price_data(*self, asset_ids_of(*self).subrange(0, i as int), now),
            decreases n - i,
        {
            let asset_id = self.assets.pairs[i].0.clone();
            proof {
                let ids1 = asset_ids_of(*self).subrange(0, i + 1 as int);
                assert(ids1.drop_last() =~= asset_ids_of(*self).subrange(0, i as int));
                assert(ids1.last() == asset_id@);
            }
            match self.get_price(asset_id, now) {
                Some(pd) => {
                    r.push(pd);
                },
                None => {
                },
            }
            proof {
                assert(r@.map_values(|pd: PriceData| crate::types::price_data_view(pd))
                    =~= collect_price_data(
                    *self,
                    asset_ids_of(*self).subrange(0, i + 1 as int),
                    now,
                ));
            }
            i += 1;
        }
        proof {
            assert(asset_ids_of(*self).subrange(0, n as int) =~= asset_ids_of(*self));
        }
        r
    }

    /// Replaces the governance roles wholesale and discards every pending
    /// proposal (owner fast path).
    pub fn configure_admin_role(
        &mut self,
        caller: &String,
        proposers: Vec<String>,
        voters: Vec<String>,
        timelock_delay: u64,
        quorum_bps: u16,
    ) -> (r: Result<(), OracleError>)
        requires
            old(self).wf(),
        ensures
            final(self).wf(),
            match r {
                Ok(()) => {
                    &&& caller@ == old(self).owner@
                    &&& voters@.len() > 0
                    &&& quorum_bps <= 10000
                    &&& forall|x: Seq<char>|
                        #[trigger] final(self).is_proposer(x) == has_str(proposers@, x)
                    &&& forall|x: Seq<char>|
                        #[trigger] final(self).is_voter(x) == has_str(voters@, x)
                    &&& final(self).admin_timelock_delay == timelock_delay
                    &&& final(self).admin_quorum_bps == (if quorum_bps == 0 {
                        1u16
                    } else {
                        quorum_bps
                    })
                    &&& final(self).proposals.view_seq().len() == 0
                    &&& final(self).proposal_counter == old(self).proposal_counter
                    &&& same_prices(*old(self), *final(self))
                    &&& same_assets(*old(self), *final(self))
                    &&& same_identity(*old(self), *final(self))
                    &&& same_operators(*old(self), *final(self))
                    &&& same_attest(*old(self), *final(self))
                    &&& same_policy(*old(self), *final(self))
                    &&& same_flags(*old(self), *final(self))
                },
                Err(e) => unchanged(*old(self), *final(self)) && if caller@ != old(self).owner@ {
                    e == OracleError::NotOwner
                } else if voters@.len() == 0 {
                    e == OracleError::EmptyVoterSet
                } else {
                    e == OracleError::QuorumOutOfRange && quorum_bps > 10000
                },
            },
    {
        if !self.is_owner(caller) {
            return Err(OracleError::NotOwner);
        }
        if voters.len() == 0 {
            return Err(OracleError::EmptyVoterSet);
        }
        if quorum_bps > 10000 {
            return Err(OracleError::QuorumOutOfRange);
        }

        self.admin_proposers.clear();
        let np = proposers.len();
        let mut i: usize = 0;
        while i < np
            invariant
                self.wf(),
                np == proposers@.len(),
                i <= np,
                forall|x: Seq<char>|
                    #[trigger] self.admin_proposers.spec_has(x) == has_str(
                        proposers@.subrange(0, i as int),
                        x,
                    ),
                self.admin_voters.items@ == old(self).admin_voters.items@,
                self.proposals.view_seq() == old(self).proposals.view_seq(),
                self.proposal_counter == old(self).proposal_counter,
                self.admin_timelock_delay == old(self).admin_timelock_delay,
                self.admin_quorum_bps == old(self).admin_quorum_bps,
                same_prices(*old(self), *self),
                same_assets(*old(self), *self),
                same_identity(*old(self), *self),
                same_operators(*old(self), *self),
                same_attest(*old(self), *self),
                same_policy(*old(self), *self),
                same_flags(*old(self), *self),
            decreases np - i,
        {
            let ghost pre = *self;
            let ghost o_set = self.admin_proposers.items@;
            self.admin_proposers.insert(proposers[i].clone());
            proof {
                lemma_str_inserted(o_set, self.admin_proposers.items@, proposers@[i as int]@);
                assert forall|x: Seq<char>| #[trigger] self.admin_proposers.spec_has(x) == has_str(
                    proposers@.subrange(0, i + 1 as int),
                    x,
                ) by {
                    let sub1 = proposers@.subrange(0, i + 1 as int);
                    let sub0 = proposers@.subrange(0, i as int);
                    assert(pre.admin_proposers.spec_has(x) == has_str(sub0, x));
                    assert(has_str(o_set, x) == has_str(sub0, x));
                    if self.admin_proposers.spec_has(x) {
                        if x == proposers@[i as int]@ {
                            assert(sub1[i as int]@ == x);
                        } else {
                            assert(has_str(self.admin_proposers.items@, x) == has_str(o_set, x));
                            assert(has_str(sub0, x));
                            let j = crate::kv::str_idx_of(sub0, x);
                            assert(sub1[j]@ == x);
                        }
                    }
                    if has_str(sub1, x) {
                        let j = crate::kv::str_idx_of(sub1, x);
                        if j < i {
                            assert(sub0[j]@ == x);
                            assert(has_str(o_set, x));
                            if x != proposers@[i as int]@ {
                                assert(has_str(self.admin_proposers.items@, x) == has_str(o_set, x));
                            }
                        } else {
                            assert(x == proposers@[i as int]@);
                        }
                    }
                }
            }
            i += 1;
        }
        proof {
            assert(proposers@.subrange(0, np as int) =~= proposers@);
        }

        self.admin_voters.clear();
        let nv = voters.len();
        let mut i2: usize = 0;
        while i2 < nv
            invariant
                self.wf(),
                nv == voters@.len(),
                i2 <= nv,
                forall|x: Seq<char>|
                    #[trigger] self.admin_voters.spec_has(x) == has_str(
                        voters@.subrange(0, i2 as int),
                        x,
                    ),
                forall|x: Seq<char>|
                    #[trigger] self.admin_proposers.spec_has(x) == has_str(proposers@, x),
                self.proposals.view_seq() == old(self).proposals.view_seq(),
                self.proposal_counter == old(self).proposal_counter,
                self.admin_timelock_delay == old(self).admin_timelock_delay,
                self.admin_quorum_bps == old(self).admin_quorum_bps,
                same_prices(*old(self), *self),
                same_assets(*old(self), *self),
                same_identity(*old(self), *self),
                same_operators(*old(self), *self),
                same_attest(*old(self), *self),
                same_policy(*old(self), *self),
                same_flags(*old(self), *self),
            decreases nv - i2,
        {
            let ghost pre = *self;
            let ghost o_set = self.admin_voters.items@;
            self.admin_voters.insert(voters[i2].clone());
            proof {
                lemma_str_inserted(o_set, self.admin_voters.items@, voters@[i2 as int]@);
                assert forall|x: Seq<char>| #[trigger] self.admin_voters.spec_has(x) == has_str(
                    voters@.subrange(0, i2 + 1 as int),
                    x,
                ) by {
                    let sub1 = voters@.subrange(0, i2 + 1 as int);
                    let sub0 = voters@.subrange(0, i2 as int);
                    assert(pre.admin_voters.spec_has(x) == has_str(sub0, x));
                    assert(has_str(o_set, x) == has_str(sub0, x));
                    if self.admin_voters.spec_has(x) {
                        if x == voters@[i2 as int]@ {
                            assert(sub1[i2 as int]@ == x);
                        } else {
                            assert(has_str(self.admin_voters.items@, x) == has_str(o_set, x));
                            assert(has_str(sub0, x));
                            let j = crate::kv::str_idx_of(sub0, x);
                            assert(sub1[j]@ == x);
                        }
                    }
                    if has_str(sub1, x) {
                        let j = crate::kv::str_idx_of(sub1, x);
                        if j < i2 {
                            assert(sub0[j]@ == x);
                            assert(has_str(o_set, x));
                            if x != voters@[i2 as int]@ {
                                assert(has_str(self.admin_voters.items@, x) == has_str(o_set, x));
                            }
                        } else {
                            assert(x == voters@[i2 as int]@);
                        }
                    }
                }
            }
            i2 += 1;
        }
        proof {
            assert(voters@.subrange(0, nv as int) =~= voters@);
        }

        self.proposals.clear();
        self.admin_timelock_delay = timelock_delay;
        self.admin_quorum_bps = if quorum_bps == 0 {
            1
        } else {
            quorum_bps
        };
        Ok(())
    }
}

} // verus!
