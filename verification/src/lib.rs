//! Verified core of a makerspace check-in service.
//!
//! The library models the check-in pipeline: classifying the upstream
//! membership portal's responses, managing the authenticated session's
//! expiry-and-retry lifecycle, extracting the visitor's identity from an
//! HTML fragment, deciding admission from upstream eligibility plus local
//! overrides, and keeping an attendance ledger with exactly-once semantics
//! per `(member, workshop)` pair.

pub mod checkin;
pub mod extract;
pub mod ledger;
pub mod policy;
pub mod session;
