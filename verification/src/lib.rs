//! Art-competition lifecycle: submission and voting windows, one vote per
//! voter, stable ranking with ties, and the tie-aware split of a prize pot.
//!
//! Everything here works on plain owned values. Storage, authorization, the
//! token service and the clock are the caller's business: their answers come
//! in as arguments, and what has to be sent out is returned.

pub mod types;
pub mod ranking;
pub mod prize;
pub mod contract;
pub mod voting;
pub mod payout;
pub mod submission;
pub mod directory;
