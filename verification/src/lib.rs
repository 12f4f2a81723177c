//! Conformance checker core for a stream of SCRU128-style identifiers.
//!
//! The library decodes fixed-width base-36 tokens into structured
//! identifiers, validates the monotonicity invariants the generator must
//! uphold, aggregates online statistics over the accepted records, and
//! renders the statistics report. Reading lines and printing belong to the
//! surrounding binary; everything here is pure computation with proofs.

pub mod codec;
pub mod driver;
pub mod order;
pub mod report;
pub mod stats;
pub mod validate;
