use vstd::prelude::*;

verus! {

/// The two terminal failure kinds of the codec.
///
/// Failures propagate unchanged through composing decoders: a sub-decoder's
/// error is the error the outer decoder reports, never wrapped or re-kinded.
#[derive(Debug, Clone, PartialEq, Eq, Structural)]
pub enum BitcoinError {
    /// The buffer ends before a required field, length-prefixed payload, or
    /// fixed-size structure is fully present.
    InsufficientBytes,
    /// Content that is structurally present but semantically malformed, such
    /// as a text form of an identifier with the wrong length or bad digits.
    InvalidFormat,
}

} // verus!
