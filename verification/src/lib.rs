//! A trust-minimized price oracle: attestation-gated reporter nodes submit
//! asset price observations, which are aggregated into a single published
//! price per asset under freshness and quorum policy, governed by a
//! timelocked multi-party proposal scheme with an owner fast path.

pub mod aggregate;
pub mod arith;
pub mod kv;
pub mod laws;
pub mod oracle;
pub mod proposals;
pub mod types;
