//! Fee model of a relay-chain test network: currency units, storage deposits,
//! time constants, and the conversion of execution weight into a fee by a
//! polynomial with fixed-point coefficients, evaluated with saturating
//! integer arithmetic.

pub mod currency;
pub mod fee;
pub mod time;
pub mod lemmas;
