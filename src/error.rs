use vstd::prelude::*;

verus! {

/// The failures that the encoding layer reports to its callers.
#[derive(Clone, Copy, Debug, PartialEq, Eq, Structural)]
pub enum Error {
    /// An identifier or type name failed validation.
    Validation,
    /// A component cannot be written under the byte layout (a value outside
    /// its supported range, a length that does not fit its prefix byte).
    Encoding,
    /// A buffer does not match the header or length-prefix layout.
    Decoding,
    /// The underlying store failed to commit.
    Transaction,
    /// The requested edge or property is absent.
    NotFound,
}

} // verus!
