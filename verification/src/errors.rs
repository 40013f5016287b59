//! Error taxonomy of the composition and decoding layers.
//!
//! Composition errors are surfaced to the immediate caller as typed failures;
//! none is swallowed or retried. Decode errors arise only in the inverse
//! direction, when parsing externally received bytes.

use vstd::prelude::*;

verus! {

/// A failure while composing an extrinsic.
#[derive(Clone, Copy, Debug, PartialEq, Eq, Structural)]
pub enum ComposeError {
    /// The (module name, call name) pair is absent from the metadata
    /// snapshot (unsupported runtime version, disabled pallet, or typo).
    UnknownCall,
    /// An argument does not fit the shape its call declares (for example a
    /// hash or address of the wrong width); indicates a programming error in
    /// the calling builder.
    MalformedArgument,
    /// The signing context is structurally malformed (address or signature
    /// length does not match the declared scheme); the envelope is not
    /// constructed.
    InvalidSignatureFormat,
}

/// A failure while parsing externally received bytes.
#[derive(Clone, Copy, Debug, PartialEq, Eq, Structural)]
pub enum DecodeError {
    /// The input ends before the encoding it announces is complete.
    Truncated,
    /// A compact integer is not in its unique minimal-length form.
    NonMinimal,
    /// A value lies outside the range its destination can hold.
    ValueTooLarge,
    /// An envelope's leading length prefix does not match the number of
    /// bytes that follow it.
    LengthMismatch,
    /// An envelope carries a version byte of an unsupported protocol
    /// revision.
    UnsupportedVersion,
}

} // verus!
