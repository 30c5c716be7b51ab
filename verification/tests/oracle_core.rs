use price_oracle::oracle::Oracle;
use price_oracle::types::{AdminAction, Asset, AttestationData};

fn acct(name: &str) -> String {
    name.to_string()
}

fn near_asset(min_sources: u8) -> Asset {
    Asset {
        id: "near".to_string(),
        symbol: "NEAR".to_string(),
        name: "NEAR Protocol".to_string(),
        decimals: 4,
        active: true,
        min_sources,
    }
}

#[test]
fn test_initialization() {
    let contract = Oracle::new(acct("alice"), 300_000_000_000, 3);
    assert_eq!(contract.owner, acct("alice"));
    assert_eq!(contract.recency_threshold, 300_000_000_000);
    assert_eq!(contract.min_report_count, 3);
    assert_eq!(contract.attestation_max_age, 600_000_000_000);
    assert_eq!(contract.admin_timelock_delay, 0);
    assert_eq!(contract.admin_quorum_bps, 5000);
    assert_eq!(contract.proposal_counter, 0);
}

#[test]
fn test_add_asset() {
    let owner = acct("alice");
    let mut contract = Oracle::new(owner.clone(), 300_000_000_000, 3);

    contract.add_asset(&owner, near_asset(3)).unwrap();

    let assets = contract.get_assets();
    assert_eq!(assets.len(), 1);
    assert_eq!(assets[0].id, "near");
}

#[test]
fn test_node_registration_flow() {
    let owner = acct("alice");
    let mut contract = Oracle::new(owner.clone(), 300_000_000_000, 3);

    // Add operator
    contract.add_node_operator(&owner, acct("bob")).unwrap();

    // Approve code hash
    let code_hash = "test_hash_123".to_string();
    contract.approve_code_hash(&owner, code_hash.clone()).unwrap();
    contract
        .approve_attestation(&owner, code_hash.clone(), "mr_hash".to_string())
        .unwrap();

    // Operator sets node account
    contract.set_node_account(&acct("bob"), acct("charlie"), 0).unwrap();

    // Node registers
    contract
        .register_node(
            &acct("charlie"),
            code_hash,
            AttestationData { mr_enclave: "mr_hash".to_string(), issued_at: 0 },
            0,
        )
        .unwrap();

    // Verify node is authorized
    assert!(contract.is_authorized(&acct("charlie")));
}

#[test]
fn test_price_reporting_and_aggregation() {
    let owner = acct("alice");
    let mut contract = Oracle::new(owner.clone(), 300_000_000_000, 1);

    contract.add_asset(&owner, near_asset(1)).unwrap();

    contract.add_node_operator(&owner, acct("bob")).unwrap();
    contract.approve_code_hash(&owner, "hash1".to_string()).unwrap();
    contract
        .approve_attestation(&owner, "hash1".to_string(), "mr_hash1".to_string())
        .unwrap();

    contract.set_node_account(&acct("bob"), acct("charlie"), 0).unwrap();
    contract
        .register_node(
            &acct("charlie"),
            "hash1".to_string(),
            AttestationData { mr_enclave: "mr_hash1".to_string(), issued_at: 0 },
            0,
        )
        .unwrap();

    // Report price from node 1: $3.5000
    contract
        .report_price(&acct("charlie"), "near".to_string(), 35000, 4, 0)
        .unwrap();

    // Check price
    let price_data = contract.get_price("near".to_string(), 0);
    assert!(price_data.is_some());
    let price = price_data.unwrap();
    assert_eq!(price.price.multiplier, 35000);
    assert_eq!(price.price.decimals, 4);
}

#[test]
fn test_price_requires_minimum_sources() {
    let owner = acct("alice");
    let mut contract = Oracle::new(owner.clone(), 300_000_000_000, 2);

    contract.add_asset(&owner, near_asset(2)).unwrap();

    contract.add_node_operator(&owner, acct("bob")).unwrap();
    contract.add_node_operator(&owner, acct("charlie")).unwrap();
    contract.approve_code_hash(&owner, "hash1".to_string()).unwrap();
    contract
        .approve_attestation(&owner, "hash1".to_string(), "mr_hash1".to_string())
        .unwrap();

    contract.set_node_account(&acct("bob"), acct("danny"), 0).unwrap();
    contract.set_node_account(&acct("charlie"), acct("eugene"), 0).unwrap();

    contract
        .register_node(
            &acct("danny"),
            "hash1".to_string(),
            AttestationData { mr_enclave: "mr_hash1".to_string(), issued_at: 0 },
            0,
        )
        .unwrap();
    contract
        .register_node(
            &acct("eugene"),
            "hash1".to_string(),
            AttestationData { mr_enclave: "mr_hash1".to_string(), issued_at: 0 },
            0,
        )
        .unwrap();

    // Only one report -> should not set aggregated price
    contract
        .report_price(&acct("danny"), "near".to_string(), 35000, 4, 0)
        .unwrap();
    assert!(contract.get_price("near".to_string(), 0).is_none());

    // Second node reports -> aggregation allowed
    contract
        .report_price(&acct("eugene"), "near".to_string(), 36000, 4, 0)
        .unwrap();
    let price = contract.get_price("near".to_string(), 0).expect("price available");
    assert_eq!(price.num_sources, 2);
    assert_eq!(price.price.multiplier, 35500); // median of 35000 and 36000
}

#[test]
fn test_price_becomes_stale_after_threshold() {
    let owner = acct("alice");
    let mut contract = Oracle::new(owner.clone(), 100, 1);

    contract.add_asset(&owner, near_asset(1)).unwrap();

    contract.add_node_operator(&owner, acct("bob")).unwrap();
    contract.approve_code_hash(&owner, "hash1".to_string()).unwrap();
    contract
        .approve_attestation(&owner, "hash1".to_string(), "mr_hash1".to_string())
        .unwrap();

    contract.set_node_account(&acct("bob"), acct("charlie"), 0).unwrap();

    contract
        .register_node(
            &acct("charlie"),
            "hash1".to_string(),
            AttestationData { mr_enclave: "mr_hash1".to_string(), issued_at: 1_000_000_000 },
            1_000_000_050,
        )
        .unwrap();
    contract
        .report_price(&acct("charlie"), "near".to_string(), 35000, 4, 1_000_000_050)
        .unwrap();

    // Advance time beyond recency threshold
    assert!(contract.get_price("near".to_string(), 1_000_000_200).is_none());
}

#[test]
#[should_panic(expected = "Attestation measurement mismatch")]
fn test_register_node_rejects_wrong_attestation() {
    let owner = acct("alice");
    let mut contract = Oracle::new(owner.clone(), 300_000_000_000, 1);
    contract.add_node_operator(&owner, acct("bob")).unwrap();
    contract.approve_code_hash(&owner, "hash1".to_string()).unwrap();
    contract
        .approve_attestation(&owner, "hash1".to_string(), "mr_hash1".to_string())
        .unwrap();

    contract.set_node_account(&acct("bob"), acct("charlie"), 0).unwrap();

    let r = contract.register_node(
        &acct("charlie"),
        "hash1".to_string(),
        AttestationData { mr_enclave: "wrong_hash".to_string(), issued_at: 0 },
        0,
    );
    if let Err(e) = r {
        panic!("{}", e.message());
    }
}

#[test]
#[should_panic(expected = "Attestation expired")]
fn test_register_node_rejects_expired_attestation() {
    let owner = acct("alice");
    let mut contract = Oracle::new(owner.clone(), 300_000_000_000, 1);
    contract.attestation_max_age = 100;
    contract.add_node_operator(&owner, acct("bob")).unwrap();
    contract.approve_code_hash(&owner, "hash1".to_string()).unwrap();
    contract
        .approve_attestation(&owner, "hash1".to_string(), "mr_hash1".to_string())
        .unwrap();

    contract.set_node_account(&acct("bob"), acct("charlie"), 0).unwrap();

    let r = contract.register_node(
        &acct("charlie"),
        "hash1".to_string(),
        AttestationData { mr_enclave: "mr_hash1".to_string(), issued_at: 0 },
        1_000,
    );
    if let Err(e) = r {
        panic!("{}", e.message());
    }
}

#[test]
#[should_panic(expected = "Decimals mismatch with asset definition")]
fn test_report_price_rejects_decimal_mismatch() {
    let owner = acct("alice");
    let mut contract = Oracle::new(owner.clone(), 300_000_000_000, 1);

    contract.add_asset(&owner, near_asset(1)).unwrap();

    contract.add_node_operator(&owner, acct("bob")).unwrap();
    contract.approve_code_hash(&owner, "hash1".to_string()).unwrap();
    contract
        .approve_attestation(&owner, "hash1".to_string(), "mr_hash1".to_string())
        .unwrap();

    contract.set_node_account(&acct("bob"), acct("charlie"), 0).unwrap();
    contract
        .register_node(
            &acct("charlie"),
            "hash1".to_string(),
            AttestationData { mr_enclave: "mr_hash1".to_string(), issued_at: 0 },
            0,
        )
        .unwrap();

    let r = contract.report_price(&acct("charlie"), "near".to_string(), 35000, 2, 0);
    if let Err(e) = r {
        panic!("{}", e.message());
    }
}

#[test]
fn test_admin_proposal_flow() {
    let owner = acct("alice");
    let mut contract = Oracle::new(owner.clone(), 300_000_000_000, 1);
    contract
        .configure_admin_role(&owner, vec![acct("bob")], vec![acct("bob"), acct("charlie")], 0, 5000)
        .unwrap();

    // Proposer creates action
    contract
        .propose_action(
            &acct("bob"),
            AdminAction::ApproveCodeHash { code_hash: "governance_hash".to_string() },
            0,
        )
        .unwrap();
    let proposal_id = contract.proposal_counter;

    // Second voter approves
    contract.approve_proposal(&acct("charlie"), proposal_id).unwrap();

    // Execute proposal
    contract.execute_proposal(&acct("bob"), proposal_id, 0).unwrap();

    assert!(contract.approved_code_hashes.contains(&"governance_hash".to_string()));
    assert!(contract.list_proposals().is_empty());
}

#[test]
#[should_panic(expected = "Not an authorized node")]
fn test_unauthorized_price_report() {
    let owner = acct("alice");
    let mut contract = Oracle::new(owner.clone(), 300_000_000_000, 3);

    contract.add_asset(&owner, near_asset(3)).unwrap();

    // Try to report without being authorized
    let r = contract.report_price(&acct("alice"), "near".to_string(), 35000, 4, 0);
    if let Err(e) = r {
        panic!("{}", e.message());
    }
}

#[test]
fn test_pause_functionality() {
    let owner = acct("alice");
    let mut contract = Oracle::new(owner.clone(), 300_000_000_000, 3);

    contract.pause(&owner).unwrap();
    assert!(contract.paused);

    contract.resume(&owner).unwrap();
    assert!(!contract.paused);
}
