//! Composition and binary encoding of extrinsics — self-contained, versioned
//! transaction payloads for a modular ledger runtime whose calls are addressed
//! by a (module index, call index) pair.
//!
//! The crate resolves human-readable (module name, call name) pairs to numeric
//! indices, encodes heterogeneous typed arguments into the canonical compact
//! binary form, and assembles the result into a well-formed (optionally
//! signed) transaction envelope. Every encoder is verified against a
//! byte-exact specification of the wire format, and the decoders are proved
//! to be exact inverses.

pub mod call;
pub mod contracts;
pub mod compact;
pub mod envelope;
pub mod errors;
pub mod resolver;
