//! A three-party conditional-transfer (escrow) protocol.
//!
//! A sender deposits a fixed amount of a fungible asset into a custody
//! holding owned by a program-derived authority; the held amount is later
//! either released to the designated receiver or refunded to the sender,
//! with every transition guarded by identity and balance checks and allowed
//! to succeed at most once.

pub mod custody;
pub mod laws;
pub mod keys;
pub mod ledger;
pub mod machine;
pub mod state;
