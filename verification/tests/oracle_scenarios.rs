use price_oracle::oracle::Oracle;
use price_oracle::types::{AdminAction, Asset, AttestationData, OracleError};

fn acct(name: &str) -> String {
    name.to_string()
}

fn asset(id: &str, decimals: u8, min_sources: u8) -> Asset {
    Asset {
        id: id.to_string(),
        symbol: id.to_uppercase(),
        name: id.to_string(),
        decimals,
        active: true,
        min_sources,
    }
}

/// Sets up an oracle with one authorized node per listed operator/node pair.
fn with_nodes(min_report_count: u8, pairs: &[(&str, &str)]) -> Oracle {
    let owner = acct("alice");
    let mut contract = Oracle::new(owner.clone(), 0, min_report_count);
    contract.approve_code_hash(&owner, "hash1".to_string()).unwrap();
    contract
        .approve_attestation(&owner, "hash1".to_string(), "mr1".to_string())
        .unwrap();
    for (operator, node) in pairs {
        contract.add_node_operator(&owner, acct(operator)).unwrap();
        contract.set_node_account(&acct(operator), acct(node), 0).unwrap();
        contract
            .register_node(
                &acct(node),
                "hash1".to_string(),
                AttestationData { mr_enclave: "mr1".to_string(), issued_at: 0 },
                0,
            )
            .unwrap();
    }
    contract
}

#[test]
fn stale_price_still_served_by_unsafe_read() {
    let owner = acct("alice");
    let mut contract = Oracle::new(owner.clone(), 100, 1);
    contract.add_asset(&owner, asset("x", 4, 1)).unwrap();
    contract.approve_code_hash(&owner, "hash1".to_string()).unwrap();
    contract
        .approve_attestation(&owner, "hash1".to_string(), "mr1".to_string())
        .unwrap();
    contract.add_node_operator(&owner, acct("bob")).unwrap();
    contract.set_node_account(&acct("bob"), acct("node1"), 0).unwrap();
    contract
        .register_node(
            &acct("node1"),
            "hash1".to_string(),
            AttestationData { mr_enclave: "mr1".to_string(), issued_at: 1000 },
            1000,
        )
        .unwrap();
    contract
        .report_price(&acct("node1"), "x".to_string(), 35000, 4, 1000)
        .unwrap();

    // within the threshold the price is served
    assert!(contract.get_price("x".to_string(), 1050).is_some());
    // at t=1200 the 100ns threshold is exceeded: gated read refuses ...
    assert!(contract.get_price("x".to_string(), 1200).is_none());
    assert!(contract
        .get_price_no_older_than("x".to_string(), 100, 1200)
        .is_none());
    // ... while the ungated read still serves the stored value
    let p = contract.get_price_unsafe("x".to_string()).unwrap();
    assert_eq!(p.price, 35000);
    assert_eq!(p.conf, 0);
    assert_eq!(p.expo, -4);
    assert_eq!(p.publish_time, 0); // 1000 ns is second 0
}

#[test]
fn timelock_blocks_early_execution() {
    let owner = acct("alice");
    let mut contract = Oracle::new(owner.clone(), 0, 1);
    contract
        .configure_admin_role(&owner, vec![acct("bob")], vec![acct("bob")], 50, 5000)
        .unwrap();
    contract
        .propose_action(&acct("bob"), AdminAction::Pause, 0)
        .unwrap();
    let pid = contract.proposal_counter;
    assert_eq!(contract.list_proposals()[0].scheduled_for, 50);

    let early = contract.execute_proposal(&acct("bob"), pid, 40);
    assert_eq!(early, Err(OracleError::TimelockNotElapsed));
    assert_eq!(contract.list_proposals().len(), 1);

    contract.execute_proposal(&acct("bob"), pid, 60).unwrap();
    assert!(contract.paused);
    assert!(contract.list_proposals().is_empty());
}

#[test]
fn quorum_of_half_of_two_voters_is_one() {
    let owner = acct("alice");
    let mut contract = Oracle::new(owner.clone(), 0, 1);
    contract
        .configure_admin_role(
            &owner,
            vec![acct("bob")],
            vec![acct("charlie"), acct("danny")],
            0,
            5000,
        )
        .unwrap();
    // ceil(2 * 5000 / 10000) = 1
    assert_eq!(contract.required_approvals(), 1);

    contract
        .propose_action(&acct("bob"), AdminAction::Resume, 0)
        .unwrap();
    let pid = contract.proposal_counter;
    // the proposer is not a voter, so no approval yet
    assert_eq!(contract.list_proposals()[0].approvals.len(), 0);
    assert_eq!(
        contract.execute_proposal(&acct("bob"), pid, 0),
        Err(OracleError::QuorumNotMet)
    );

    contract.approve_proposal(&acct("charlie"), pid).unwrap();
    contract.execute_proposal(&acct("bob"), pid, 0).unwrap();
}

#[test]
fn duplicate_approval_is_a_silent_no_op() {
    let owner = acct("alice");
    let mut contract = Oracle::new(owner.clone(), 0, 1);
    contract
        .configure_admin_role(
            &owner,
            vec![acct("bob")],
            vec![acct("charlie"), acct("danny")],
            0,
            10000,
        )
        .unwrap();
    contract
        .propose_action(&acct("bob"), AdminAction::Pause, 0)
        .unwrap();
    let pid = contract.proposal_counter;

    contract.approve_proposal(&acct("charlie"), pid).unwrap();
    assert_eq!(contract.list_proposals()[0].approvals.len(), 1);
    contract.approve_proposal(&acct("charlie"), pid).unwrap();
    assert_eq!(contract.list_proposals()[0].approvals.len(), 1);
    contract.approve_proposal(&acct("danny"), pid).unwrap();
    assert_eq!(contract.list_proposals()[0].approvals.len(), 2);
}

#[test]
fn rebinding_deauthorizes_the_first_node() {
    let owner = acct("alice");
    let mut contract = with_nodes(1, &[("bob", "node1")]);
    contract.add_asset(&owner, asset("x", 4, 1)).unwrap();
    assert!(contract.is_authorized(&acct("node1")));
    contract
        .report_price(&acct("node1"), "x".to_string(), 35000, 4, 0)
        .unwrap();
    assert!(contract.get_price("x".to_string(), 0).is_some());

    // the operator rebinds to a second node account
    contract.set_node_account(&acct("bob"), acct("node2"), 0).unwrap();
    assert!(!contract.is_authorized(&acct("node1")));
    assert!(contract.get_node_details(&acct("node1")).is_none());
    // the demoted node's report entries are gone, and with them the price
    assert!(contract.price_reports.get(&"x".to_string()).is_none());
    assert!(contract.get_price("x".to_string(), 0).is_none());
    // the new node is bound but not yet authorized
    assert!(!contract.is_authorized(&acct("node2")));

    contract
        .register_node(
            &acct("node2"),
            "hash1".to_string(),
            AttestationData { mr_enclave: "mr1".to_string(), issued_at: 0 },
            0,
        )
        .unwrap();
    let authorized = contract.get_authorized_nodes();
    assert_eq!(authorized, vec![acct("node2")]);
}

#[test]
fn rebinding_recomputes_surviving_prices() {
    let owner = acct("alice");
    let mut contract = with_nodes(1, &[("bob", "node1"), ("charlie", "node2")]);
    contract.add_asset(&owner, asset("x", 4, 1)).unwrap();
    contract
        .report_price(&acct("node1"), "x".to_string(), 35000, 4, 0)
        .unwrap();
    contract
        .report_price(&acct("node2"), "x".to_string(), 36000, 4, 0)
        .unwrap();
    assert_eq!(
        contract.get_price("x".to_string(), 0).unwrap().price.multiplier,
        35500
    );

    // bob rebinds: node1's report drops out, the median is re-published
    // from node2's report alone
    contract.set_node_account(&acct("bob"), acct("node3"), 0).unwrap();
    let pd = contract.get_price("x".to_string(), 0).unwrap();
    assert_eq!(pd.price.multiplier, 36000);
    assert_eq!(pd.num_sources, 1);
}

#[test]
fn binding_a_foreign_bound_node_is_rejected() {
    let owner = acct("alice");
    let mut contract = Oracle::new(owner.clone(), 0, 1);
    contract.add_node_operator(&owner, acct("bob")).unwrap();
    contract.add_node_operator(&owner, acct("charlie")).unwrap();
    contract.set_node_account(&acct("bob"), acct("node1"), 0).unwrap();

    // another operator may not take over a bound node account
    assert_eq!(
        contract.set_node_account(&acct("charlie"), acct("node1"), 0),
        Err(OracleError::NodeAlreadyBound)
    );
    // the binding is untouched in both directions
    assert_eq!(
        contract.operator_to_node.get(&acct("bob")),
        Some(&acct("node1"))
    );
    assert!(contract.operator_to_node.get(&acct("charlie")).is_none());

    // re-binding one's own node account is still allowed
    contract.set_node_account(&acct("bob"), acct("node1"), 0).unwrap();
    contract.set_node_account(&acct("charlie"), acct("node2"), 0).unwrap();
}

#[test]
fn governance_attestation_approval_enforces_the_two_tier_rule() {
    let owner = acct("alice");
    let mut contract = Oracle::new(owner.clone(), 0, 1);
    contract
        .configure_admin_role(&owner, vec![acct("bob")], vec![acct("bob")], 0, 5000)
        .unwrap();
    contract
        .propose_action(
            &acct("bob"),
            AdminAction::ApproveAttestation {
                code_hash: "h".to_string(),
                mr_enclave: "m".to_string(),
            },
            0,
        )
        .unwrap();
    let pid = contract.proposal_counter;

    // the code hash is not approved: execution is rejected, nothing stored,
    // and the proposal stays pending
    assert_eq!(
        contract.execute_proposal(&acct("bob"), pid, 0),
        Err(OracleError::CodeHashNotApprovedFirst)
    );
    assert!(contract.approved_enclaves.get(&"h".to_string()).is_none());
    assert_eq!(contract.list_proposals().len(), 1);

    // once the owner approves the hash, the same proposal executes
    contract.approve_code_hash(&owner, "h".to_string()).unwrap();
    contract.execute_proposal(&acct("bob"), pid, 0).unwrap();
    assert_eq!(
        contract.approved_enclaves.get(&"h".to_string()),
        Some(&"m".to_string())
    );
    assert!(contract.list_proposals().is_empty());
}

#[test]
fn operator_removal_prunes_reports_and_clears_price() {
    let owner = acct("alice");
    let mut contract = with_nodes(2, &[("bob", "node1"), ("charlie", "node2")]);
    contract.add_asset(&owner, asset("x", 4, 2)).unwrap();

    contract
        .report_price(&acct("node1"), "x".to_string(), 35000, 4, 10)
        .unwrap();
    contract
        .report_price(&acct("node2"), "x".to_string(), 36000, 4, 10)
        .unwrap();
    assert_eq!(
        contract.get_price("x".to_string(), 10).unwrap().price.multiplier,
        35500
    );

    // removing node2's operator cascades: its report goes, quorum is lost
    contract
        .remove_node_operator(&owner, &acct("charlie"), 10)
        .unwrap();
    assert!(contract.get_price("x".to_string(), 10).is_none());
    assert!(!contract.is_authorized(&acct("node2")));

    // node1's report is retained, so one more source re-publishes a price
    let stored = contract.price_reports.get(&"x".to_string()).unwrap();
    assert_eq!(stored.len(), 1);
    assert_eq!(stored[0].oracle_id, acct("node1"));
}

#[test]
fn median_of_even_count_truncates() {
    let owner = acct("alice");
    let mut contract = with_nodes(1, &[("bob", "node1"), ("charlie", "node2")]);
    contract.add_asset(&owner, asset("x", 4, 1)).unwrap();
    contract
        .report_price(&acct("node1"), "x".to_string(), 35000, 4, 0)
        .unwrap();
    contract
        .report_price(&acct("node2"), "x".to_string(), 36001, 4, 0)
        .unwrap();
    // (35000 + 36001) / 2 = 35500 with the fractional half dropped
    assert_eq!(
        contract.get_price("x".to_string(), 0).unwrap().price.multiplier,
        35500
    );
}

#[test]
fn median_of_odd_count_is_middle_element() {
    let owner = acct("alice");
    let mut contract = with_nodes(
        1,
        &[("bob", "node1"), ("charlie", "node2"), ("danny", "node3")],
    );
    contract.add_asset(&owner, asset("x", 4, 1)).unwrap();
    contract
        .report_price(&acct("node1"), "x".to_string(), 90000, 4, 7)
        .unwrap();
    contract
        .report_price(&acct("node2"), "x".to_string(), 10000, 4, 8)
        .unwrap();
    contract
        .report_price(&acct("node3"), "x".to_string(), 35000, 4, 9)
        .unwrap();
    let pd = contract.get_price("x".to_string(), 9).unwrap();
    assert_eq!(pd.price.multiplier, 35000);
    assert_eq!(pd.num_sources, 3);
    // the published timestamp is the maximum over the surviving reports
    assert_eq!(pd.price.timestamp, 9);
}

#[test]
fn replacing_own_report_keeps_one_per_node() {
    let owner = acct("alice");
    let mut contract = with_nodes(1, &[("bob", "node1")]);
    contract.add_asset(&owner, asset("x", 4, 1)).unwrap();
    contract
        .report_price(&acct("node1"), "x".to_string(), 35000, 4, 0)
        .unwrap();
    contract
        .report_price(&acct("node1"), "x".to_string(), 40000, 4, 1)
        .unwrap();
    let pd = contract.get_price("x".to_string(), 1).unwrap();
    assert_eq!(pd.num_sources, 1);
    assert_eq!(pd.price.multiplier, 40000);
}

#[test]
fn owner_checks_reject_strangers() {
    let owner = acct("alice");
    let mallory = acct("mallory");
    let mut contract = Oracle::new(owner.clone(), 0, 1);
    assert_eq!(
        contract.add_asset(&mallory, asset("x", 4, 1)),
        Err(OracleError::NotOwner)
    );
    assert_eq!(
        contract.add_node_operator(&mallory, acct("bob")),
        Err(OracleError::NotOwner)
    );
    assert_eq!(contract.pause(&mallory), Err(OracleError::NotOwner));
    assert_eq!(
        contract.cancel_proposal(&mallory, 1),
        Err(OracleError::NotOwner)
    );
    assert_eq!(
        OracleError::NotOwner.message(),
        "Only owner can call this"
    );
}

#[test]
fn validation_errors_on_configuration() {
    let owner = acct("alice");
    let mut contract = Oracle::new(owner.clone(), 0, 1);
    assert_eq!(
        contract.set_attestation_max_age(&owner, 0),
        Err(OracleError::MaxAgeNotPositive)
    );
    assert_eq!(
        contract.configure_admin_role(&owner, vec![], vec![], 0, 5000),
        Err(OracleError::EmptyVoterSet)
    );
    assert_eq!(
        contract.configure_admin_role(&owner, vec![], vec![acct("bob")], 0, 10001),
        Err(OracleError::QuorumOutOfRange)
    );
    assert_eq!(
        contract.approve_attestation(&owner, "h".to_string(), "m".to_string()),
        Err(OracleError::CodeHashNotApprovedFirst)
    );
}

#[test]
fn governance_role_errors() {
    let owner = acct("alice");
    let mut contract = Oracle::new(owner.clone(), 0, 1);
    contract
        .configure_admin_role(&owner, vec![acct("bob")], vec![acct("charlie")], 0, 5000)
        .unwrap();
    assert_eq!(
        contract.propose_action(&acct("charlie"), AdminAction::Pause, 0),
        Err(OracleError::NotProposer)
    );
    assert_eq!(
        contract.approve_proposal(&acct("bob"), 1),
        Err(OracleError::NotVoter)
    );
    assert_eq!(
        contract.approve_proposal(&acct("charlie"), 77),
        Err(OracleError::ProposalNotFound)
    );
    assert_eq!(
        contract.execute_proposal(&acct("charlie"), 1, 0),
        Err(OracleError::NotExecutor)
    );
    contract
        .propose_action(&acct("bob"), AdminAction::Pause, 0)
        .unwrap();
    assert_eq!(
        contract.execute_proposal(&acct("bob"), 99, 0),
        Err(OracleError::ProposalNotFound)
    );
    assert_eq!(
        contract.cancel_proposal(&owner, 99),
        Err(OracleError::ProposalNotFound)
    );
}

#[test]
fn binding_and_registration_errors() {
    let owner = acct("alice");
    let mut contract = Oracle::new(owner.clone(), 0, 1);
    assert_eq!(
        contract.set_node_account(&acct("bob"), acct("node1"), 0),
        Err(OracleError::NotWhitelistedOperator)
    );

    contract.add_node_operator(&owner, acct("bob")).unwrap();
    // an unbound account cannot register
    assert_eq!(
        contract.register_node(
            &acct("node1"),
            "hash1".to_string(),
            AttestationData { mr_enclave: "mr1".to_string(), issued_at: 0 },
            0,
        ),
        Err(OracleError::NodeNotBound)
    );

    contract.set_node_account(&acct("bob"), acct("node1"), 0).unwrap();
    // bound, but the code hash is not approved
    assert_eq!(
        contract.register_node(
            &acct("node1"),
            "hash1".to_string(),
            AttestationData { mr_enclave: "mr1".to_string(), issued_at: 0 },
            0,
        ),
        Err(OracleError::CodeHashNotApproved)
    );

    contract.approve_code_hash(&owner, "hash1".to_string()).unwrap();
    // approved hash without an approved measurement
    assert_eq!(
        contract.register_node(
            &acct("node1"),
            "hash1".to_string(),
            AttestationData { mr_enclave: "mr1".to_string(), issued_at: 0 },
            0,
        ),
        Err(OracleError::AttestationNotApproved)
    );
}

#[test]
fn reporting_errors() {
    let owner = acct("alice");
    let mut contract = with_nodes(1, &[("bob", "node1")]);
    contract.add_asset(&owner, asset("x", 4, 1)).unwrap();

    assert_eq!(
        contract.report_price(&acct("node1"), "y".to_string(), 1, 4, 0),
        Err(OracleError::AssetNotFound)
    );
    contract.pause(&owner).unwrap();
    assert_eq!(
        contract.report_price(&acct("node1"), "x".to_string(), 1, 4, 0),
        Err(OracleError::Paused)
    );
    contract.resume(&owner).unwrap();
    contract
        .report_price(&acct("node1"), "x".to_string(), 1, 4, 0)
        .unwrap();
}

#[test]
fn minimum_report_count_is_coerced_to_one() {
    let owner = acct("alice");
    let mut contract = Oracle::new(owner.clone(), 0, 0);
    assert_eq!(contract.min_report_count, 1);
    contract.update_config(&owner, Some(42), Some(0)).unwrap();
    assert_eq!(contract.recency_threshold, 42);
    assert_eq!(contract.min_report_count, 1);
}

#[test]
fn zero_quorum_is_coerced_to_one_basis_point() {
    let owner = acct("alice");
    let mut contract = Oracle::new(owner.clone(), 0, 1);
    contract
        .configure_admin_role(&owner, vec![acct("bob")], vec![acct("bob")], 0, 0)
        .unwrap();
    assert_eq!(contract.admin_quorum_bps, 1);
    // ceil(1 * 1 / 10000) rounds up to 1
    assert_eq!(contract.required_approvals(), 1);
}

#[test]
fn reconfiguring_roles_discards_pending_proposals() {
    let owner = acct("alice");
    let mut contract = Oracle::new(owner.clone(), 0, 1);
    contract
        .configure_admin_role(&owner, vec![acct("bob")], vec![acct("bob")], 0, 5000)
        .unwrap();
    contract
        .propose_action(&acct("bob"), AdminAction::Pause, 0)
        .unwrap();
    assert_eq!(contract.list_proposals().len(), 1);
    let counter_before = contract.proposal_counter;

    contract
        .configure_admin_role(&owner, vec![acct("charlie")], vec![acct("charlie")], 0, 5000)
        .unwrap();
    assert!(contract.list_proposals().is_empty());
    // proposal ids are never reused, even across reconfiguration
    assert_eq!(contract.proposal_counter, counter_before);
    contract
        .propose_action(&acct("charlie"), AdminAction::Pause, 0)
        .unwrap();
    assert_eq!(contract.proposal_counter, counter_before + 1);
}

#[test]
fn governance_executes_the_same_primitives_as_the_owner() {
    let owner = acct("alice");
    let mut contract = Oracle::new(owner.clone(), 7, 1);
    contract
        .configure_admin_role(&owner, vec![acct("bob")], vec![acct("bob")], 0, 5000)
        .unwrap();

    contract
        .propose_action(
            &acct("bob"),
            AdminAction::UpdateConfig { recency_threshold: Some(99), min_report_count: Some(3) },
            0,
        )
        .unwrap();
    let pid = contract.proposal_counter;
    contract.execute_proposal(&acct("bob"), pid, 0).unwrap();
    assert_eq!(contract.recency_threshold, 99);
    assert_eq!(contract.min_report_count, 3);

    contract
        .propose_action(
            &acct("bob"),
            AdminAction::AddNodeOperator { account_id: acct("carol") },
            0,
        )
        .unwrap();
    let pid = contract.proposal_counter;
    contract.execute_proposal(&acct("bob"), pid, 0).unwrap();
    contract.set_node_account(&acct("carol"), acct("node9"), 0).unwrap();

    contract
        .propose_action(
            &acct("bob"),
            AdminAction::RemoveCodeHash { code_hash: "h".to_string() },
            0,
        )
        .unwrap();
    let pid = contract.proposal_counter;
    contract.execute_proposal(&acct("bob"), pid, 0).unwrap();
}

#[test]
fn get_price_data_lists_only_priced_assets() {
    let owner = acct("alice");
    let mut contract = with_nodes(1, &[("bob", "node1")]);
    contract.add_asset(&owner, asset("x", 4, 1)).unwrap();
    contract.add_asset(&owner, asset("y", 2, 1)).unwrap();
    contract
        .report_price(&acct("node1"), "x".to_string(), 123, 4, 0)
        .unwrap();

    let all = contract.get_price_data(0);
    assert_eq!(all.len(), 1);
    assert_eq!(all[0].asset_id, "x");
    assert_eq!(all[0].price.multiplier, 123);

    let role = contract.get_admin_role();
    assert!(role.proposers.is_empty());
    assert!(role.voters.is_empty());
    assert_eq!(role.quorum_bps, 5000);
}

#[test]
fn approving_an_executed_proposal_is_rejected() {
    let owner = acct("alice");
    let mut contract = Oracle::new(owner.clone(), 0, 1);
    contract
        .configure_admin_role(&owner, vec![acct("bob")], vec![acct("bob")], 0, 5000)
        .unwrap();
    contract
        .propose_action(&acct("bob"), AdminAction::Pause, 0)
        .unwrap();
    // mark the stored proposal as executed by hand; no public operation
    // leaves such a record behind, since execution deletes the proposal
    contract.proposals.items[0].executed = true;
    let pid = contract.proposal_counter;
    assert_eq!(
        contract.approve_proposal(&acct("bob"), pid),
        Err(OracleError::AlreadyExecuted)
    );
    assert_eq!(
        contract.execute_proposal(&acct("bob"), pid, 0),
        Err(OracleError::AlreadyExecuted)
    );
}

#[test]
fn registration_rejects_a_node_of_a_delisted_operator() {
    let owner = acct("alice");
    let mut contract = Oracle::new(owner.clone(), 0, 1);
    contract.add_node_operator(&owner, acct("bob")).unwrap();
    contract.approve_code_hash(&owner, "hash1".to_string()).unwrap();
    contract
        .approve_attestation(&owner, "hash1".to_string(), "mr1".to_string())
        .unwrap();
    contract.set_node_account(&acct("bob"), acct("node1"), 0).unwrap();
    // drop the operator from the whitelist by hand, keeping the binding;
    // the removal operation would have severed the binding as well
    contract.whitelisted_operators.items.clear();
    assert_eq!(
        contract.register_node(
            &acct("node1"),
            "hash1".to_string(),
            AttestationData { mr_enclave: "mr1".to_string(), issued_at: 0 },
            0,
        ),
        Err(OracleError::OperatorNotWhitelisted)
    );
}
