//! A payment-processing hub: invoice lifecycle and payment verification,
//! fixed-point decimal arithmetic on arbitrary-precision magnitudes, and
//! exchange-rate snapshot management.

pub mod api;
pub mod assoc;
pub mod bignat;
pub mod history;
pub mod decimal;
pub mod error;
pub mod exchange_rates;
pub mod invoices;
pub mod laws;
pub mod txn;
pub mod withdrawal;
pub mod hashing;
pub mod icrc3;
pub mod ids;
pub mod shops;
pub mod state;
pub mod tokens;
