//! Galois-field types and the utilities built on them: binary polynomials,
//! finite fields, CRCs, LFSRs, RAID parity, Shamir's secret sharing and
//! Reed-Solomon error correction, with their behaviour stated and proved
//! over a mathematical model of binary polynomials.

pub mod poly;
pub mod bits;
pub mod xmul;
pub mod arith;
pub mod p;
pub mod gf;
pub mod crc;
pub mod traits;
pub mod lfsr_core;
pub mod lfsr;
pub mod field;
pub mod groups;
pub mod raid;
pub mod shamir;
pub mod rs;
pub mod cyclic;
pub mod order;
pub mod logtab;
