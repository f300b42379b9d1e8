use vstd::prelude::*;

verus! {

/// Why an operation of the scheme was refused.
#[derive(Clone, Copy, PartialEq, Eq, Debug, Structural)]
pub enum Error {
    /// The field has no evaluation domain of the requested size.
    Domain,
    /// The polynomial and the reference string do not fit each other.
    SetupSize,
    /// A claimed evaluation is not the polynomial's value at the point.
    InvalidOpening,
    /// An external encoding is malformed.
    Parse,
}

} // verus!
