//! Verified core of a sharded social backend: per-identity role management,
//! a globally unique username claim protocol, and a bounded score ranking
//! index with fan-out of its top entries.
pub mod identity;
pub mod keyed;
pub mod access_control;
pub mod username;
pub mod score_ranking;
