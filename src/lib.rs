//! Permissioned access to per-account records: a role registry, profile
//! registration, and a consent ledger that moves each (owner, requester) pair
//! between absent, pending and approved.

pub mod access;
pub mod correlation;
pub mod doctor;
pub mod ledger;
pub mod origin;
pub mod patient;
