//! Continuous per-second payment streams over a ledger of account balances.
//!
//! A subscription lets a source account pay a destination account at a fixed
//! number of units per second. What is owed accrues with time and moves
//! only when the subscription is settled: when its flow changes or when it
//! is removed. Between settlements the balance that an account would have
//! is worked out on demand, without changing anything.

pub mod accrual;
pub mod contract;
pub mod error;
pub mod keyed_map;
pub mod laws;
pub mod ledger;
pub mod ledger_view;
pub mod projection;
pub mod subscription;

pub use crate::contract::Paystream;
pub use crate::contract::PaystreamParts;
pub use crate::contract::WrapRequest;
pub use crate::error::SubscriptionError;
pub use crate::keyed_map::KeyedMap;
pub use crate::ledger::LedgerParts;
pub use crate::ledger::Subscriptions;
pub use crate::subscription::Subscription;
