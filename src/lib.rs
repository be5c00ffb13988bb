//! A minimal proof-of-work ledger and a simulation of a majority-hash-power
//! attack: two chains mined from a common ancestor, the longest one chosen
//! as canonical, and the honest blocks it leaves behind reported.
pub mod attack;
pub mod block;
pub mod blockchain;
pub mod transaction;
