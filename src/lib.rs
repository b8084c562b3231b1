//! Solver registry: one attested worker per liquidity pool, and the
//! share accounting of each pool.
pub mod account;
pub mod admin;
pub mod attestation;
pub mod book;
pub mod codec;
pub mod liquidity;
pub mod math;
pub mod multi_token;
pub mod naming;
pub mod pool;
pub mod registry;
pub mod types;
pub mod view;
