use vstd::prelude::*;

verus! {

/// Failures of the register codec and of lookups in a catalog.
#[derive(Debug, Clone, Copy, PartialEq, Eq, Structural)]
pub enum S7Error {
    /// The address kind does not fit the data type, or a byte buffer has the
    /// wrong length for it.
    MismatchedRegisterLengthError,
    /// No register of the catalog carries the requested name.
    RegisterDoesNotExistsError,
    /// A value does not fit the data type of the register it is meant for.
    InvalidRegisterValue,
}

/// A register definition whose address text does not follow the grammar of
/// its data type.
#[derive(Debug, Clone)]
pub struct AddressParseError {
    pub name: String,
    pub id: String,
}

} // verus!
