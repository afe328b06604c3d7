use vstd::prelude::*;

verus! {

/// Why a positional operation on a list was refused.
#[derive(Clone, Copy, Debug, PartialEq, Eq)]
pub enum ListError {
    /// The list holds no element, so there is nothing to read or remove.
    EmptyContainer,
    /// The position lies past the last element and the operation does not clamp.
    IndexOutOfRange,
}

} // verus!
