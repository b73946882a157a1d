use vstd::prelude::*;

use crate::errors::S7Error;

verus! {

/// The scalar kind a register holds. It decides both which address grammar a
/// definition must follow and how many bytes the codec reads and writes.
#[allow(non_camel_case_types)]
#[derive(Debug, Clone, Copy, PartialEq, Eq, Structural)]
pub enum DataType {
    BOOL,
    FLOAT,
    INT32,
    INT16,
}

/// The data type that a definition names: `BOOL` (or its alias `BIT`),
/// `FLOAT`, `INT32` or `INT16`; any other name names none.
pub open spec fn data_type_of_name(name: Seq<char>) -> Option<DataType> {
    if name == "BOOL"@ || name == "BIT"@ {
        Some(DataType::BOOL)
    } else if name == "FLOAT"@ {
        Some(DataType::FLOAT)
    } else if name == "INT32"@ {
        Some(DataType::INT32)
    } else if name == "INT16"@ {
        Some(DataType::INT16)
    } else {
        None
    }
}

impl DataType {
    /// Reads the name of a data type as it stands in a definition file.
    pub fn from_name(name: &str) -> (r: Option<DataType>)
        ensures
            r == data_type_of_name(name@),
    {
        let s = name.to_owned();
        if s == "BOOL".to_owned() || s == "BIT".to_owned() {
            Some(DataType::BOOL)
        } else if s == "FLOAT".to_owned() {
            Some(DataType::FLOAT)
        } else if s == "INT32".to_owned() {
            Some(DataType::INT32)
        } else if s == "INT16".to_owned() {
            Some(DataType::INT16)
        } else {
            None
        }
    }
}

/// `BIT` names the same data type as `BOOL`.
pub proof fn lemma_bit_alias()
    ensures
        data_type_of_name("BIT"@) == data_type_of_name("BOOL"@),
        data_type_of_name("BOOL"@) == Some(DataType::BOOL),
{
}

/// A value as it is read from or written to a register. A `Float32` is held
/// as the bit pattern of its IEEE-754 single-precision encoding.
#[derive(Debug, Clone, Copy, PartialEq, Eq, Structural)]
pub enum RegisterValue {
    S16(i16),
    S32(i32),
    Float32(u32),
    Boolean(bool),
}

/// Whether `v` is the variant that a register of type `t` holds.
pub open spec fn value_fits(t: DataType, v: RegisterValue) -> bool {
    match (t, v) {
        (DataType::BOOL, RegisterValue::Boolean(_)) => true,
        (DataType::FLOAT, RegisterValue::Float32(_)) => true,
        (DataType::INT32, RegisterValue::S32(_)) => true,
        (DataType::INT16, RegisterValue::S16(_)) => true,
        _ => false,
    }
}

/// A bit of a byte of a data block (`DB<db>.DBX<byte>.<bit>`).
#[derive(Debug, Clone, Copy, PartialEq, Eq, Structural)]
pub struct BitAddress {
    pub db: u16,
    pub byte: u16,
    pub bit: u8,
}

/// A byte-aligned place of a data block (`DB<db>.DBD<byte>`, `DB<db>.DBW<byte>`).
#[derive(Debug, Clone, Copy, PartialEq, Eq, Structural)]
pub struct ByteAddress {
    pub db: u16,
    pub byte: u16,
}

/// Where a register lives: a whole byte range or a single bit.
#[derive(Debug, Clone, Copy, PartialEq, Eq, Structural)]
pub enum RegAddress {
    Byte(ByteAddress),
    Bit(BitAddress),
}

impl RegAddress {
    /// A bit address names one of the eight bits of its byte.
    pub open spec fn bit_in_range(self) -> bool {
        match self {
            RegAddress::Bit(a) => a.bit <= 7,
            RegAddress::Byte(_) => true,
        }
    }

    /// Tells whether a bit address names one of the eight bits of its byte.
    pub fn has_valid_bit(&self) -> (r: bool)
        ensures
            r == self.bit_in_range(),
    {
        match self {
            RegAddress::Bit(a) => a.bit <= 7,
            RegAddress::Byte(_) => true,
        }
    }

    /// The bit address this is, or a mismatch when it is a byte address.
    pub fn as_bit(&self) -> (r: Result<BitAddress, S7Error>)
        ensures
            r == (match *self {
                RegAddress::Bit(a) => Ok(a),
                RegAddress::Byte(_) => Err(S7Error::MismatchedRegisterLengthError),
            }),
    {
        match self {
            RegAddress::Bit(a) => Ok(*a),
            RegAddress::Byte(_) => Err(S7Error::MismatchedRegisterLengthError),
        }
    }

    /// The byte address this is, or a mismatch when it is a bit address.
    pub fn as_byte(&self) -> (r: Result<ByteAddress, S7Error>)
        ensures
            r == (match *self {
                RegAddress::Byte(a) => Ok(a),
                RegAddress::Bit(_) => Err(S7Error::MismatchedRegisterLengthError),
            }),
    {
        match self {
            RegAddress::Byte(a) => Ok(*a),
            RegAddress::Bit(_) => Err(S7Error::MismatchedRegisterLengthError),
        }
    }
}

impl From<ByteAddress> for RegAddress {
    fn from(a: ByteAddress) -> (r: RegAddress) {
        RegAddress::Byte(a)
    }
}

impl vstd::std_specs::convert::FromSpecImpl<ByteAddress> for RegAddress {
    open spec fn obeys_from_spec() -> bool {
        true
    }

    open spec fn from_spec(a: ByteAddress) -> RegAddress {
        RegAddress::Byte(a)
    }
}

impl From<BitAddress> for RegAddress {
    fn from(a: BitAddress) -> (r: RegAddress) {
        RegAddress::Bit(a)
    }
}

impl vstd::std_specs::convert::FromSpecImpl<BitAddress> for RegAddress {
    open spec fn obeys_from_spec() -> bool {
        true
    }

    open spec fn from_spec(a: BitAddress) -> RegAddress {
        RegAddress::Bit(a)
    }
}

/// Whether the kind of `addr` is the one that data type `t` is addressed by:
/// a bit for `BOOL`, a byte for the others.
pub open spec fn kind_fits(t: DataType, addr: RegAddress) -> bool {
    match t {
        DataType::BOOL => addr is Bit,
        _ => addr is Byte,
    }
}

/// A named, typed binding of a symbolic name to a place in a data block.
#[derive(Debug, Clone)]
pub struct Register {
    pub data_type: DataType,
    pub name: String,
    pub addr: RegAddress,
}

impl Register {
    /// The address kind fits the data type, and a bit address is in range.
    pub open spec fn is_consistent(&self) -> bool {
        kind_fits(self.data_type, self.addr) && self.addr.bit_in_range()
    }
}

} // verus!
