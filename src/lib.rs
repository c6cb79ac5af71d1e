//! Behavioural classification of blockchain accounts from their transaction
//! history: explorer replies, transaction records, the feature signature and
//! the class decision.

pub mod decimal;
pub mod text;
pub mod json;
pub mod transaction;
pub mod explorer;
pub mod registry;
pub mod features;
pub mod stats;
pub mod classifier;
