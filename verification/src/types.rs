//! Data model: assets, price reports, oracle nodes, governance proposals,
//! and the error taxonomy. Each executable type that carries strings has a
//! ghost view used by the contracts.

use vstd::prelude::*;

verus! {

/// A fixed-point price: `multiplier` scaled by `10^decimals`, observed at
/// `timestamp` (nanoseconds).
#[derive(PartialEq, Eq, Structural, Clone, Copy, Debug)]
pub struct Price {
    pub multiplier: u128,
    pub decimals: u8,
    pub timestamp: u64,
}

/// One node's live price observation for an asset.
pub struct PriceReport {
    pub oracle_id: String,
    pub price: Price,
    pub timestamp: u64,
}

/// Ghost view of a `PriceReport`.
pub ghost struct ReportV {
    pub oracle_id: Seq<char>,
    pub price: Price,
    pub timestamp: u64,
}

pub open spec fn report_view(r: PriceReport) -> ReportV {
    ReportV { oracle_id: r.oracle_id@, price: r.price, timestamp: r.timestamp }
}

pub open spec fn reports_view(rs: Seq<PriceReport>) -> Seq<ReportV> {
    rs.map_values(|r: PriceReport| report_view(r))
}

/// A priced instrument with fixed decimal precision and a per-asset
/// minimum-source policy.
pub struct Asset {
    pub id: String,
    pub symbol: String,
    pub name: String,
    pub decimals: u8,
    pub active: bool,
    pub min_sources: u8,
}

/// Ghost view of an `Asset`.
pub ghost struct AssetV {
    pub id: Seq<char>,
    pub symbol: Seq<char>,
    pub name: Seq<char>,
    pub decimals: u8,
    pub active: bool,
    pub min_sources: u8,
}

pub open spec fn asset_view(a: Asset) -> AssetV {
    AssetV {
        id: a.id@,
        symbol: a.symbol@,
        name: a.name@,
        decimals: a.decimals,
        active: a.active,
        min_sources: a.min_sources,
    }
}

/// An authorized reporter node's registration record.
pub struct OracleNode {
    pub account_id: String,
    pub operator_id: String,
    pub registered_at: u64,
    pub code_hash: String,
    pub last_report: u64,
    pub active: bool,
}

/// Ghost view of an `OracleNode`.
pub ghost struct NodeV {
    pub account_id: Seq<char>,
    pub operator_id: Seq<char>,
    pub registered_at: u64,
    pub code_hash: Seq<char>,
    pub last_report: u64,
    pub active: bool,
}

pub open spec fn node_view(n: OracleNode) -> NodeV {
    NodeV {
        account_id: n.account_id@,
        operator_id: n.operator_id@,
        registered_at: n.registered_at,
        code_hash: n.code_hash@,
        last_report: n.last_report,
        active: n.active,
    }
}

/// A published price together with its asset id and live source count.
pub struct PriceData {
    pub asset_id: String,
    pub price: Price,
    pub num_sources: u8,
}

/// Ghost view of a `PriceData`.
pub ghost struct PriceDataV {
    pub asset_id: Seq<char>,
    pub price: Price,
    pub num_sources: u8,
}

pub open spec fn price_data_view(p: PriceData) -> PriceDataV {
    PriceDataV { asset_id: p.asset_id@, price: p.price, num_sources: p.num_sources }
}

/// A published price in the externally-schema-compatible form: signed price,
/// fixed confidence of zero, negative exponent, publish time in seconds.
#[derive(PartialEq, Eq, Structural, Clone, Copy, Debug)]
pub struct PythPrice {
    pub price: i64,
    pub conf: u64,
    pub expo: i32,
    pub publish_time: i64,
}

/// A pre-verified enclave measurement claim supplied by a registering node.
pub struct AttestationData {
    pub mr_enclave: String,
    pub issued_at: u64,
}

/// An administrative action that governance (or the owner fast path) may
/// dispatch.
pub enum AdminAction {
    AddNodeOperator { account_id: String },
    RemoveNodeOperator { account_id: String },
    ApproveCodeHash { code_hash: String },
    RemoveCodeHash { code_hash: String },
    ApproveAttestation { code_hash: String, mr_enclave: String },
    RemoveAttestation { code_hash: String },
    Pause,
    Resume,
    UpdateConfig { recency_threshold: Option<u64>, min_report_count: Option<u8> },
}

/// Ghost view of an `AdminAction`.
pub ghost enum ActionV {
    AddNodeOperator { account_id: Seq<char> },
    RemoveNodeOperator { account_id: Seq<char> },
    ApproveCodeHash { code_hash: Seq<char> },
    RemoveCodeHash { code_hash: Seq<char> },
    ApproveAttestation { code_hash: Seq<char>, mr_enclave: Seq<char> },
    RemoveAttestation { code_hash: Seq<char> },
    Pause,
    Resume,
    UpdateConfig { recency_threshold: Option<u64>, min_report_count: Option<u8> },
}

pub open spec fn action_view(a: AdminAction) -> ActionV {
    match a {
        AdminAction::AddNodeOperator { account_id } => ActionV::AddNodeOperator {
            account_id: account_id@,
        },
        AdminAction::RemoveNodeOperator { account_id } => ActionV::RemoveNodeOperator {
            account_id: account_id@,
        },
        AdminAction::ApproveCodeHash { code_hash } => ActionV::ApproveCodeHash {
            code_hash: code_hash@,
        },
        AdminAction::RemoveCodeHash { code_hash } => ActionV::RemoveCodeHash {
            code_hash: code_hash@,
        },
        AdminAction::ApproveAttestation { code_hash, mr_enclave } => ActionV::ApproveAttestation {
            code_hash: code_hash@,
            mr_enclave: mr_enclave@,
        },
        AdminAction::RemoveAttestation { code_hash } => ActionV::RemoveAttestation {
            code_hash: code_hash@,
        },
        AdminAction::Pause => ActionV::Pause,
        AdminAction::Resume => ActionV::Resume,
        AdminAction::UpdateConfig { recency_threshold, min_report_count } => ActionV::UpdateConfig {
            recency_threshold,
            min_report_count,
        },
    }
}

/// A governance proposal: who proposed which action, when it becomes
/// executable, and which distinct voters have approved it.
pub struct AdminProposal {
    pub id: u64,
    pub proposer: String,
    pub action: AdminAction,
    pub scheduled_for: u64,
    pub approvals: Vec<String>,
    pub executed: bool,
}

/// Ghost view of an `AdminProposal`.
pub ghost struct ProposalV {
    pub id: u64,
    pub proposer: Seq<char>,
    pub action: ActionV,
    pub scheduled_for: u64,
    pub approvals: Seq<Seq<char>>,
    pub executed: bool,
}

pub open spec fn proposal_view(p: AdminProposal) -> ProposalV {
    ProposalV {
        id: p.id,
        proposer: p.proposer@,
        action: action_view(p.action),
        scheduled_for: p.scheduled_for,
        approvals: p.approvals@.map_values(|s: String| s@),
        executed: p.executed,
    }
}

/// A snapshot of the configured governance roles.
pub struct AdminRoleView {
    pub proposers: Vec<String>,
    pub voters: Vec<String>,
    pub timelock_delay: u64,
    pub quorum_bps: u16,
}

/// Why a call was rejected. Every rejection is synchronous and leaves the
/// state unchanged.
#[derive(PartialEq, Eq, Structural, Clone, Copy, Debug)]
pub enum OracleError {
    /// A non-owner called an owner-only operation.
    NotOwner,
    /// The caller is not a whitelisted node operator.
    NotWhitelistedOperator,
    /// The node account is already bound to a different operator.
    NodeAlreadyBound,
    /// The calling node account was never bound by any operator.
    NodeNotBound,
    /// The binding operator is no longer whitelisted.
    OperatorNotWhitelisted,
    /// The submitted code hash is not on the approved list.
    CodeHashNotApproved,
    /// No enclave measurement has been approved for the code hash.
    AttestationNotApproved,
    /// The claimed enclave measurement differs from the approved one.
    MeasurementMismatch,
    /// The attestation is older than the configured maximum age.
    AttestationExpired,
    /// The system is paused.
    Paused,
    /// The caller is not an authorized reporter node.
    NotAuthorizedNode,
    /// The named asset does not exist.
    AssetNotFound,
    /// The reported decimals differ from the asset's fixed decimals.
    DecimalsMismatch,
    /// An enclave measurement needs its code hash approved first.
    CodeHashNotApprovedFirst,
    /// The attestation maximum age must be positive.
    MaxAgeNotPositive,
    /// The voter set may not be empty.
    EmptyVoterSet,
    /// Quorum is expressed in parts-per-10000 and may not exceed 10000.
    QuorumOutOfRange,
    /// The caller is not an admin proposer.
    NotProposer,
    /// The caller is not an admin voter.
    NotVoter,
    /// The caller may not execute proposals.
    NotExecutor,
    /// No proposal exists under the given id.
    ProposalNotFound,
    /// The proposal was already executed.
    AlreadyExecuted,
    /// The timelock delay has not elapsed yet.
    TimelockNotElapsed,
    /// The proposal does not meet quorum.
    QuorumNotMet,
}

impl OracleError {
    /// The human-readable rejection reason handed to callers.
    pub fn message(&self) -> &'static str {
        match *self {
            OracleError::NotOwner => "Only owner can call this",
            OracleError::NotWhitelistedOperator => "Not a whitelisted operator",
            OracleError::NodeAlreadyBound => "Node account already bound to another operator",
            OracleError::NodeNotBound => "Node account not set by any operator",
            OracleError::OperatorNotWhitelisted => "Operator not whitelisted",
            OracleError::CodeHashNotApproved => "Code hash not approved",
            OracleError::AttestationNotApproved => "Attestation not approved for code hash",
            OracleError::MeasurementMismatch => "Attestation measurement mismatch",
            OracleError::AttestationExpired => "Attestation expired",
            OracleError::Paused => "Oracle is paused",
            OracleError::NotAuthorizedNode => "Not an authorized node",
            OracleError::AssetNotFound => "Asset not found",
            OracleError::DecimalsMismatch => "Decimals mismatch with asset definition",
            OracleError::CodeHashNotApprovedFirst => "Code hash must be approved first",
            OracleError::MaxAgeNotPositive => "Max age must be positive",
            OracleError::EmptyVoterSet => "Voter set cannot be empty",
            OracleError::QuorumOutOfRange => "Quorum must be <= 10000 basis points",
            OracleError::NotProposer => "Caller is not an admin proposer",
            OracleError::NotVoter => "Caller is not an admin voter",
            OracleError::NotExecutor => "Caller is not authorized to execute proposals",
            OracleError::ProposalNotFound => "Proposal not found",
            OracleError::AlreadyExecuted => "Proposal already executed",
            OracleError::TimelockNotElapsed => "Timelock delay has not elapsed",
            OracleError::QuorumNotMet => "Proposal does not meet quorum",
        }
    }
}

} // verus!
