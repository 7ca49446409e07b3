//! Time keeping behind roles: a registry of roles and their members, and a
//! ledger that turns checked-in time into withdrawable credit.

pub mod types;
pub mod members;
mod table;
pub mod access;
pub mod currency;
pub mod timekeeper;
