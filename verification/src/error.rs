use vstd::prelude::*;

verus! {

/// The failure kinds of the codec.
///
/// `InsufficientBytes` is raised by binary decoding whenever the buffer is
/// shorter than the structure being decoded requires, at any depth.
/// `InvalidFormat` is reserved for the textual interchange layer (an
/// identifier whose hex form does not decode to exactly 32 bytes); binary
/// decoding never produces it.
#[derive(Debug, PartialEq, Eq, Clone, Structural)]
pub enum BitcoinError {
    InsufficientBytes,
    InvalidFormat,
}

} // verus!
