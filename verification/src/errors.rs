//! Error classes shared by the enclave commands and the host driver.

use vstd::prelude::*;

verus! {

/// Why an enclave command or a cryptographic operation was refused.
#[derive(Clone, Copy, Debug, PartialEq, Eq, Structural)]
pub enum TeeError {
    /// Malformed input size, alignment, or length-prefix inconsistency.
    BadParameters,
    /// A key or a model was absent when one was required.
    ItemNotFound,
    /// A caller-provided output buffer was too small.
    ShortBuffer,
    /// A resident object was expected but absent.
    CorruptObject,
    /// An operation ran before the state it needs was initialised.
    BadState,
}

impl TeeError {
    /// A short human-readable name for the error.
    pub fn describe(&self) -> (r: &'static str)
        ensures
            r@ == self.describe_spec(),
    {
        match self {
            TeeError::BadParameters => "bad parameters",
            TeeError::ItemNotFound => "item not found",
            TeeError::ShortBuffer => "short buffer",
            TeeError::CorruptObject => "corrupt object",
            TeeError::BadState => "bad state",
        }
    }

    /// What `describe` returns for each variant.
    pub open spec fn describe_spec(&self) -> Seq<char> {
        match self {
            TeeError::BadParameters => "bad parameters"@,
            TeeError::ItemNotFound => "item not found"@,
            TeeError::ShortBuffer => "short buffer"@,
            TeeError::CorruptObject => "corrupt object"@,
            TeeError::BadState => "bad state"@,
        }
    }
}

} // verus!
