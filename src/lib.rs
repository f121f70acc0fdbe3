//! A shared group-savings ledger: members contribute funds, the ledger keeps
//! each member's running balance and the ordered log of contributions, and
//! authorised withdrawals debit a member's balance.

pub mod member;
pub mod model;
pub mod lemmas;
pub mod laws;
pub mod ledger;

pub use ledger::ChamaSavings;
pub use member::{LedgerError, Member};
