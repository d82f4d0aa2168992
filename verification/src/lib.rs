//! A verified transaction-processing engine for client accounts.
//!
//! The engine consumes an ordered log of transaction records (deposits,
//! withdrawals, disputes, resolves, chargebacks) and produces one final
//! account snapshot per client: available funds, held funds, total funds,
//! and a locked flag. Monetary amounts are fixed-point integers counting
//! ten-thousandths of a currency unit, so four fractional digits are exact.

pub mod entities;
pub mod engine;
pub mod utils;
