//! Debt-share ledger and collateralization engine of a synthetic-asset pool.
//!
//! Amounts, prices and ratios are fixed-point decimals with eighteen decimal
//! places, stored as their count of attos (`u128`). Resources, users and
//! accounts are identified by `u64` addresses.
pub mod decimal;
pub mod error;
pub mod laws;
pub mod ledger;
pub mod pool;
pub mod token;
pub mod user;

pub use decimal::ONE;
pub use error::PoolError;
pub use ledger::BOOTSTRAP_SHARES;
pub use pool::{global_debt_of, issue_shares, lookup_price, retire_shares, SyntheticPool, UserSummary};
pub use token::SyntheticToken;
pub use user::User;
