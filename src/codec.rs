use vstd::prelude::*;

use crate::errors::S7Error;
use crate::types::{
    kind_fits, value_fits, BitAddress, DataType, RegAddress, Register, RegisterValue,
};

verus! {

/// A 16-bit two's-complement integer from its big-endian bytes.
pub open spec fn i16_from_be(b0: u8, b1: u8) -> i16 {
    (((b0 as u16) << 8u16) | (b1 as u16)) as i16
}

/// A 32-bit word from its big-endian bytes.
pub open spec fn u32_from_be(b0: u8, b1: u8, b2: u8, b3: u8) -> u32 {
    ((b0 as u32) << 24u32) | ((b1 as u32) << 16u32) | ((b2 as u32) << 8u32) | (b3 as u32)
}

/// The big-endian bytes of a 16-bit word.
pub open spec fn be_bytes_u16(u: u16) -> Seq<u8> {
    seq![(u >> 8u16) as u8, u as u8]
}

/// The big-endian bytes of a 32-bit word.
pub open spec fn be_bytes_u32(u: u32) -> Seq<u8> {
    seq![(u >> 24u32) as u8, (u >> 16u32) as u8, (u >> 8u32) as u8, u as u8]
}

/// The bytes that stand for a numeric value on the wire: big-endian two's
/// complement for integers, the big-endian IEEE-754 encoding for a float.
/// A boolean has none.
pub open spec fn value_bytes(v: RegisterValue) -> Option<Seq<u8>> {
    match v {
        RegisterValue::S16(x) => Some(be_bytes_u16(x as u16)),
        RegisterValue::S32(x) => Some(be_bytes_u32(x as u32)),
        RegisterValue::Float32(bits) => Some(be_bytes_u32(bits)),
        RegisterValue::Boolean(_) => None,
    }
}

/// What the bytes `raw` read from register of type `t` at `addr` hold. A
/// boolean is the addressed bit of the first byte; a number needs exactly its
/// width in bytes. A wrong address kind or length is a mismatch.
pub open spec fn decode_spec(raw: Seq<u8>, t: DataType, addr: RegAddress) -> Result<
    RegisterValue,
    S7Error,
> {
    if !kind_fits(t, addr) {
        Err(S7Error::MismatchedRegisterLengthError)
    } else {
        match t {
            DataType::BOOL => if raw.len() >= 1 {
                Ok(RegisterValue::Boolean(raw[0] & (1u8 << addr->Bit_0.bit) != 0))
            } else {
                Err(S7Error::MismatchedRegisterLengthError)
            },
            DataType::FLOAT => if raw.len() == 4 {
                Ok(RegisterValue::Float32(u32_from_be(raw[0], raw[1], raw[2], raw[3])))
            } else {
                Err(S7Error::MismatchedRegisterLengthError)
            },
            DataType::INT32 => if raw.len() == 4 {
                Ok(RegisterValue::S32(u32_from_be(raw[0], raw[1], raw[2], raw[3]) as i32))
            } else {
                Err(S7Error::MismatchedRegisterLengthError)
            },
            DataType::INT16 => if raw.len() == 2 {
                Ok(RegisterValue::S16(i16_from_be(raw[0], raw[1])))
            } else {
                Err(S7Error::MismatchedRegisterLengthError)
            },
        }
    }
}

/// Turns the bytes read from a register into its value.
pub fn decode(raw: &[u8], reg: &Register) -> (r: Result<RegisterValue, S7Error>)
    requires
        reg.addr.bit_in_range(),
    ensures
        r == decode_spec(raw@, reg.data_type, reg.addr),
{
    match reg.data_type {
        DataType::BOOL => {
            let a = match reg.addr {
                RegAddress::Bit(a) => a,
                RegAddress::Byte(_) => return Err(S7Error::MismatchedRegisterLengthError),
            };
            if raw.len() < 1 {
                return Err(S7Error::MismatchedRegisterLengthError);
            }
            let mask: u8 = 1u8 << a.bit;
            Ok(RegisterValue::Boolean(raw[0] & mask != 0))
        },
        _ => {
            if let RegAddress::Bit(_) = reg.addr {
                return Err(S7Error::MismatchedRegisterLengthError);
            }
            match reg.data_type {
                DataType::INT16 => {
                    if raw.len() != 2 {
                        return Err(S7Error::MismatchedRegisterLengthError);
                    }
                    let u: u16 = ((raw[0] as u16) << 8u16) | (raw[1] as u16);
                    Ok(RegisterValue::S16(u as i16))
                },
                _ => {
                    if raw.len() != 4 {
                        return Err(S7Error::MismatchedRegisterLengthError);
                    }
                    let u: u32 = ((raw[0] as u32) << 24u32) | ((raw[1] as u32) << 16u32) | ((
                    raw[2] as u32) << 8u32) | (raw[3] as u32);
                    if let DataType::FLOAT = reg.data_type {
                        Ok(RegisterValue::Float32(u))
                    } else {
                        Ok(RegisterValue::S32(u as i32))
                    }
                },
            }
        },
    }
}

impl RegisterValue {
    /// The boolean this value holds, if it is one.
    pub fn as_bool(&self) -> (r: Result<bool, S7Error>)
        ensures
            r == (match *self {
                RegisterValue::Boolean(b) => Ok(b),
                _ => Err(S7Error::InvalidRegisterValue),
            }),
    {
        match self {
            RegisterValue::Boolean(b) => Ok(*b),
            _ => Err(S7Error::InvalidRegisterValue),
        }
    }

    /// The 16-bit integer this value holds, if it is one.
    pub fn as_i16(&self) -> (r: Result<i16, S7Error>)
        ensures
            r == (match *self {
                RegisterValue::S16(x) => Ok(x),
                _ => Err(S7Error::InvalidRegisterValue),
            }),
    {
        match self {
            RegisterValue::S16(x) => Ok(*x),
            _ => Err(S7Error::InvalidRegisterValue),
        }
    }

    /// The big-endian bytes of a numeric value; a boolean has none.
    pub fn to_be_bytes(&self) -> (r: Result<Vec<u8>, S7Error>)
        ensures
            match value_bytes(*self) {
                Some(b) => r matches Ok(v) && v@ == b,
                None => r matches Err(e) && e == S7Error::InvalidRegisterValue,
            },
    {
        match self {
            RegisterValue::S16(x) => {
                let u = *x as u16;
                Ok(vec![(u >> 8u16) as u8, u as u8])
            },
            RegisterValue::S32(x) => {
                let u = *x as u32;
                Ok(vec![(u >> 24u32) as u8, (u >> 16u32) as u8, (u >> 8u32) as u8, u as u8])
            },
            RegisterValue::Float32(bits) => {
                let u = *bits;
                Ok(vec![(u >> 24u32) as u8, (u >> 16u32) as u8, (u >> 8u32) as u8, u as u8])
            },
            RegisterValue::Boolean(_) => Err(S7Error::InvalidRegisterValue),
        }
    }
}

/// What a write sends to the controller, as plain values.
pub enum WriteModel {
    Bytes { db: u16, byte: u16, data: Seq<u8> },
    Bit { db: u16, byte: u16, bit: u8, value: bool },
}

/// The parameters of a write: bytes at a byte address, or one bit.
#[derive(Debug, Clone, PartialEq, Eq)]
pub enum WriteParams {
    Bytes { db: u16, byte: u16, data: Vec<u8> },
    Bit { db: u16, byte: u16, bit: u8, value: bool },
}

impl View for WriteParams {
    type V = WriteModel;

    open spec fn view(&self) -> WriteModel {
        match self {
            WriteParams::Bytes { db, byte, data } => WriteModel::Bytes {
                db: *db,
                byte: *byte,
                data: data@,
            },
            WriteParams::Bit { db, byte, bit, value } => WriteModel::Bit {
                db: *db,
                byte: *byte,
                bit: *bit,
                value: *value,
            },
        }
    }
}

/// How value `v` is written to a register of type `t` at `addr`: a boolean
/// as a single bit, a number as its big-endian bytes. A wrong address kind is
/// a mismatch; a value of another type than the register's is invalid.
pub open spec fn encode_spec(t: DataType, addr: RegAddress, v: RegisterValue) -> Result<
    WriteModel,
    S7Error,
> {
    if !kind_fits(t, addr) {
        Err(S7Error::MismatchedRegisterLengthError)
    } else if !value_fits(t, v) {
        Err(S7Error::InvalidRegisterValue)
    } else {
        match addr {
            RegAddress::Bit(a) => Ok(
                WriteModel::Bit { db: a.db, byte: a.byte, bit: a.bit, value: v->Boolean_0 },
            ),
            RegAddress::Byte(a) => Ok(
                WriteModel::Bytes { db: a.db, byte: a.byte, data: value_bytes(v).unwrap() },
            ),
        }
    }
}

/// The parameters that write `val` to `reg`.
pub fn encode_for_write(reg: &Register, val: &RegisterValue) -> (r: Result<WriteParams, S7Error>)
    ensures
        match encode_spec(reg.data_type, reg.addr, *val) {
            Ok(m) => r matches Ok(w) && w@ == m,
            Err(e) => r matches Err(f) && f == e,
        },
{
    match reg.data_type {
        DataType::BOOL => {
            let a = reg.addr.as_bit()?;
            let value = val.as_bool()?;
            Ok(WriteParams::Bit { db: a.db, byte: a.byte, bit: a.bit, value })
        },
        _ => {
            let a = reg.addr.as_byte()?;
            let fits = match (reg.data_type, val) {
                (DataType::FLOAT, RegisterValue::Float32(_)) => true,
                (DataType::INT32, RegisterValue::S32(_)) => true,
                (DataType::INT16, RegisterValue::S16(_)) => true,
                _ => false,
            };
            if !fits {
                return Err(S7Error::InvalidRegisterValue);
            }
            let data = val.to_be_bytes()?;
            Ok(WriteParams::Bytes { db: a.db, byte: a.byte, data })
        },
    }
}

/// The part of a data block that a read of a register covers.
#[derive(Debug, Clone, Copy, PartialEq, Eq, Structural)]
pub struct ReadArea {
    pub db: u16,
    pub byte: u16,
    pub len: u16,
}

/// How many bytes a register of type `t` spans; a boolean reads the byte
/// that holds its bit.
pub open spec fn byte_len(t: DataType) -> u16 {
    match t {
        DataType::BOOL => 1,
        DataType::FLOAT => 4,
        DataType::INT32 => 4,
        DataType::INT16 => 2,
    }
}

/// The area to read for a register of type `t` at `addr`.
pub open spec fn read_area_spec(t: DataType, addr: RegAddress) -> Result<ReadArea, S7Error> {
    if !kind_fits(t, addr) {
        Err(S7Error::MismatchedRegisterLengthError)
    } else {
        match addr {
            RegAddress::Bit(a) => Ok(ReadArea { db: a.db, byte: a.byte, len: byte_len(t) }),
            RegAddress::Byte(a) => Ok(ReadArea { db: a.db, byte: a.byte, len: byte_len(t) }),
        }
    }
}

/// The area of the controller's memory that holds `reg`.
pub fn read_area(reg: &Register) -> (r: Result<ReadArea, S7Error>)
    ensures
        r == read_area_spec(reg.data_type, reg.addr),
{
    match reg.data_type {
        DataType::BOOL => {
            let a = reg.addr.as_bit()?;
            Ok(ReadArea { db: a.db, byte: a.byte, len: 1 })
        },
        DataType::FLOAT => {
            let a = reg.addr.as_byte()?;
            Ok(ReadArea { db: a.db, byte: a.byte, len: 4 })
        },
        DataType::INT32 => {
            let a = reg.addr.as_byte()?;
            Ok(ReadArea { db: a.db, byte: a.byte, len: 4 })
        },
        DataType::INT16 => {
            let a = reg.addr.as_byte()?;
            Ok(ReadArea { db: a.db, byte: a.byte, len: 2 })
        },
    }
}

/// Writing a number to a register and reading back the bytes written gives
/// the number again.
pub proof fn lemma_round_trip(t: DataType, addr: RegAddress, v: RegisterValue)
    requires
        t != DataType::BOOL,
        kind_fits(t, addr),
        value_fits(t, v),
    ensures
        encode_spec(t, addr, v) matches Ok(WriteModel::Bytes { data, .. }) && decode_spec(
            data,
            t,
            addr,
        ) == Ok::<RegisterValue, S7Error>(v),
{
    match v {
        RegisterValue::S16(x) => {
            assert(((((x as u16) >> 8u16) as u8 as u16) << 8u16 | ((x as u16) as u8 as u16))
                as i16 == x) by (bit_vector);
        },
        RegisterValue::S32(x) => {
            let u = x as u32;
            assert(((((u >> 24u32) as u8 as u32) << 24u32) | (((u >> 16u32) as u8 as u32)
                << 16u32) | (((u >> 8u32) as u8 as u32) << 8u32) | (u as u8 as u32)) == u)
                by (bit_vector);
            assert(u as i32 == x) by (bit_vector)
                requires
                    u == x as u32,
            ;
        },
        RegisterValue::Float32(u) => {
            assert(((((u >> 24u32) as u8 as u32) << 24u32) | (((u >> 16u32) as u8 as u32)
                << 16u32) | (((u >> 8u32) as u8 as u32) << 8u32) | (u as u8 as u32)) == u)
                by (bit_vector);
        },
        RegisterValue::Boolean(_) => {},
    }
}

/// The byte that holds bit `bit` once a single-bit write has set it to
/// `value`, the other bits being whatever they were.
pub open spec fn byte_after_bit_write(before: u8, bit: u8, value: bool) -> u8 {
    if value {
        before | (1u8 << bit)
    } else {
        before & !(1u8 << bit)
    }
}

/// A boolean is written as its bit alone, and reading the byte that holds
/// the bit gives the boolean back, whatever the other bits of that byte are.
pub proof fn lemma_bit_isolation(addr: BitAddress, value: bool, before: u8)
    requires
        addr.bit <= 7,
    ensures
        encode_spec(DataType::BOOL, RegAddress::Bit(addr), RegisterValue::Boolean(value)) == Ok::<
            WriteModel,
            S7Error,
        >(WriteModel::Bit { db: addr.db, byte: addr.byte, bit: addr.bit, value }),
        decode_spec(
            seq![byte_after_bit_write(before, addr.bit, value)],
            DataType::BOOL,
            RegAddress::Bit(addr),
        ) == Ok::<RegisterValue, S7Error>(RegisterValue::Boolean(value)),
{
    let b = addr.bit;
    assert((before | (1u8 << b)) & (1u8 << b) != 0) by (bit_vector)
        requires
            b <= 7,
    ;
    assert((before & !(1u8 << b)) & (1u8 << b) == 0) by (bit_vector)
        requires
            b <= 7,
    ;
}

} // verus!
