//! A verified staking ledger: per-pool reward budgets funded by an
//! administrator, one active stake position per user and pool, a time-based
//! fixed-point reward formula, and redemption rules that hold under
//! adversarial inputs (double staking, early redemption, reward exhaustion,
//! arithmetic overflow).
//!
//! The ledger itself never moves value: each successful operation returns the
//! transfer it requires, and the surrounding host executes it against an
//! external balance store with all-or-nothing semantics.

pub mod errors;
pub mod reward;
pub mod state;
pub mod transitions;
pub mod ledger;
