//! Integer exponentiation with an overflow flag for arithmetic circuits,
//! the bookkeeping of the prover's polynomial oracles, and the checks that
//! a process runs when it executes and verifies program transitions.
pub mod field;
pub mod integer;
pub mod oracles;
pub mod pow_flagged;
pub mod process;
