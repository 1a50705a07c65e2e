//! Identity, capability, policy and signed-ledger primitives for an AI-native IDE,
//! with the runtime that routes agent actions through policy and human approval.
pub mod app;
pub mod capability;
pub mod crypto;
pub mod domain;
pub mod laws;
pub mod ledger;
pub mod text;
pub mod trust;
pub mod workspace;
