use s7_device::codec::{decode, encode_for_write, read_area, ReadArea, WriteParams};
use s7_device::errors::S7Error;
use s7_device::types::{BitAddress, ByteAddress, DataType, RegAddress, Register, RegisterValue};

fn reg(data_type: DataType, addr: RegAddress) -> Register {
    Register { data_type, name: "R".to_string(), addr }
}

fn byte_reg(data_type: DataType) -> Register {
    reg(data_type, RegAddress::Byte(ByteAddress { db: 1, byte: 8 }))
}

fn bit_reg(bit: u8) -> Register {
    reg(DataType::BOOL, RegAddress::Bit(BitAddress { db: 1, byte: 10, bit }))
}

fn written_bytes(r: &Register, v: RegisterValue) -> Vec<u8> {
    match encode_for_write(r, &v).unwrap() {
        WriteParams::Bytes { data, .. } => data,
        other => panic!("expected a byte write, got {:?}", other),
    }
}

#[test]
fn int32_with_two_bytes_is_a_length_mismatch() {
    assert_eq!(
        decode(&[0x00, 0x01], &byte_reg(DataType::INT32)),
        Err(S7Error::MismatchedRegisterLengthError)
    );
}

#[test]
fn numeric_lengths_must_be_exact() {
    assert_eq!(decode(&[1, 2, 3], &byte_reg(DataType::INT16)), Err(S7Error::MismatchedRegisterLengthError));
    assert_eq!(decode(&[1], &byte_reg(DataType::INT16)), Err(S7Error::MismatchedRegisterLengthError));
    assert_eq!(decode(&[], &byte_reg(DataType::FLOAT)), Err(S7Error::MismatchedRegisterLengthError));
    assert_eq!(decode(&[1, 2, 3, 4, 5], &byte_reg(DataType::INT32)), Err(S7Error::MismatchedRegisterLengthError));
}

#[test]
fn decodes_big_endian_integers() {
    assert_eq!(decode(&[0x00, 0x45], &byte_reg(DataType::INT16)), Ok(RegisterValue::S16(69)));
    assert_eq!(decode(&[0xFF, 0xFE], &byte_reg(DataType::INT16)), Ok(RegisterValue::S16(-2)));
    assert_eq!(decode(&[0x80, 0x00], &byte_reg(DataType::INT16)), Ok(RegisterValue::S16(i16::MIN)));
    assert_eq!(
        decode(&[0x12, 0x34, 0x56, 0x78], &byte_reg(DataType::INT32)),
        Ok(RegisterValue::S32(0x12345678))
    );
    assert_eq!(
        decode(&[0x80, 0x00, 0x00, 0x00], &byte_reg(DataType::INT32)),
        Ok(RegisterValue::S32(i32::MIN))
    );
    assert_eq!(decode(&[0xFF, 0xFF, 0xFF, 0xFF], &byte_reg(DataType::INT32)), Ok(RegisterValue::S32(-1)));
}

#[test]
fn decodes_big_endian_float() {
    assert_eq!(
        decode(&[0x3F, 0x80, 0x00, 0x00], &byte_reg(DataType::FLOAT)),
        Ok(RegisterValue::Float32(1.0f32.to_bits()))
    );
    assert_eq!(
        decode(&[0xC0, 0x60, 0x00, 0x00], &byte_reg(DataType::FLOAT)),
        Ok(RegisterValue::Float32((-3.5f32).to_bits()))
    );
}

#[test]
fn bool_reads_only_its_bit() {
    assert_eq!(decode(&[0b0000_1000], &bit_reg(3)), Ok(RegisterValue::Boolean(true)));
    assert_eq!(decode(&[0b1111_0111], &bit_reg(3)), Ok(RegisterValue::Boolean(false)));
    assert_eq!(decode(&[0xFF], &bit_reg(3)), Ok(RegisterValue::Boolean(true)));
    assert_eq!(decode(&[0x00], &bit_reg(3)), Ok(RegisterValue::Boolean(false)));
    assert_eq!(decode(&[0x80], &bit_reg(7)), Ok(RegisterValue::Boolean(true)));
    assert_eq!(decode(&[0x01], &bit_reg(0)), Ok(RegisterValue::Boolean(true)));
    assert_eq!(decode(&[0x01], &bit_reg(1)), Ok(RegisterValue::Boolean(false)));
}

#[test]
fn bool_needs_a_byte() {
    assert_eq!(decode(&[], &bit_reg(3)), Err(S7Error::MismatchedRegisterLengthError));
    assert_eq!(decode(&[0x08, 0x00], &bit_reg(3)), Ok(RegisterValue::Boolean(true)));
}

#[test]
fn address_kind_mismatch_is_an_error() {
    assert_eq!(decode(&[0xFF], &byte_reg(DataType::BOOL)), Err(S7Error::MismatchedRegisterLengthError));
    let bit_addr = RegAddress::Bit(BitAddress { db: 1, byte: 8, bit: 0 });
    assert_eq!(
        decode(&[0, 0, 0, 0], &reg(DataType::FLOAT, bit_addr)),
        Err(S7Error::MismatchedRegisterLengthError)
    );
    assert_eq!(
        encode_for_write(&byte_reg(DataType::BOOL), &RegisterValue::Boolean(true)),
        Err(S7Error::MismatchedRegisterLengthError)
    );
    assert_eq!(
        encode_for_write(&reg(DataType::INT16, bit_addr), &RegisterValue::S16(1)),
        Err(S7Error::MismatchedRegisterLengthError)
    );
    assert_eq!(read_area(&byte_reg(DataType::BOOL)), Err(S7Error::MismatchedRegisterLengthError));
    assert_eq!(read_area(&reg(DataType::INT32, bit_addr)), Err(S7Error::MismatchedRegisterLengthError));
}

#[test]
fn encodes_int16_big_endian() {
    assert_eq!(
        encode_for_write(&byte_reg(DataType::INT16), &RegisterValue::S16(69)),
        Ok(WriteParams::Bytes { db: 1, byte: 8, data: vec![0x00, 0x45] })
    );
    assert_eq!(written_bytes(&byte_reg(DataType::INT16), RegisterValue::S16(-2)), vec![0xFF, 0xFE]);
}

#[test]
fn encodes_int32_and_float_big_endian() {
    assert_eq!(
        written_bytes(&byte_reg(DataType::INT32), RegisterValue::S32(0x12345678)),
        vec![0x12, 0x34, 0x56, 0x78]
    );
    assert_eq!(
        written_bytes(&byte_reg(DataType::FLOAT), RegisterValue::Float32(1.0f32.to_bits())),
        vec![0x3F, 0x80, 0x00, 0x00]
    );
}

#[test]
fn encodes_bool_as_a_bit_write() {
    assert_eq!(
        encode_for_write(&bit_reg(3), &RegisterValue::Boolean(true)),
        Ok(WriteParams::Bit { db: 1, byte: 10, bit: 3, value: true })
    );
    assert_eq!(
        encode_for_write(&bit_reg(5), &RegisterValue::Boolean(false)),
        Ok(WriteParams::Bit { db: 1, byte: 10, bit: 5, value: false })
    );
}

#[test]
fn value_of_another_type_is_invalid() {
    assert_eq!(
        encode_for_write(&byte_reg(DataType::INT16), &RegisterValue::Boolean(true)),
        Err(S7Error::InvalidRegisterValue)
    );
    assert_eq!(
        encode_for_write(&byte_reg(DataType::INT16), &RegisterValue::S32(69)),
        Err(S7Error::InvalidRegisterValue)
    );
    assert_eq!(
        encode_for_write(&byte_reg(DataType::INT32), &RegisterValue::Float32(0)),
        Err(S7Error::InvalidRegisterValue)
    );
    assert_eq!(
        encode_for_write(&byte_reg(DataType::FLOAT), &RegisterValue::S32(0)),
        Err(S7Error::InvalidRegisterValue)
    );
    assert_eq!(encode_for_write(&bit_reg(1), &RegisterValue::S16(1)), Err(S7Error::InvalidRegisterValue));
}

#[test]
fn numeric_round_trip() {
    for v in [0i16, 1, -1, 69, i16::MIN, i16::MAX] {
        let r = byte_reg(DataType::INT16);
        let data = written_bytes(&r, RegisterValue::S16(v));
        assert_eq!(decode(&data, &r), Ok(RegisterValue::S16(v)));
    }
    for v in [0i32, 1, -1, 0x12345678, i32::MIN, i32::MAX] {
        let r = byte_reg(DataType::INT32);
        let data = written_bytes(&r, RegisterValue::S32(v));
        assert_eq!(decode(&data, &r), Ok(RegisterValue::S32(v)));
    }
    for v in [0.0f32, -0.0, 1.5, -3.25, f32::MAX, f32::MIN_POSITIVE, f32::INFINITY] {
        let r = byte_reg(DataType::FLOAT);
        let data = written_bytes(&r, RegisterValue::Float32(v.to_bits()));
        match decode(&data, &r) {
            Ok(RegisterValue::Float32(bits)) => assert_eq!(f32::from_bits(bits), v),
            other => panic!("unexpected {:?}", other),
        }
    }
}

#[test]
fn bit_write_then_read_ignores_other_bits() {
    for b in 0u8..8 {
        let r = bit_reg(b);
        for value in [true, false] {
            let (bit, v) = match encode_for_write(&r, &RegisterValue::Boolean(value)).unwrap() {
                WriteParams::Bit { bit, value, .. } => (bit, value),
                other => panic!("expected a bit write, got {:?}", other),
            };
            for before in [0x00u8, 0xFF, 0xA5, 0x5A] {
                let after = if v { before | (1 << bit) } else { before & !(1 << bit) };
                assert_eq!(decode(&[after], &r), Ok(RegisterValue::Boolean(value)));
            }
        }
    }
}

#[test]
fn read_areas_span_the_type_width() {
    assert_eq!(read_area(&bit_reg(3)), Ok(ReadArea { db: 1, byte: 10, len: 1 }));
    assert_eq!(read_area(&byte_reg(DataType::FLOAT)), Ok(ReadArea { db: 1, byte: 8, len: 4 }));
    assert_eq!(read_area(&byte_reg(DataType::INT32)), Ok(ReadArea { db: 1, byte: 8, len: 4 }));
    assert_eq!(read_area(&byte_reg(DataType::INT16)), Ok(ReadArea { db: 1, byte: 8, len: 2 }));
}

#[test]
fn value_accessors() {
    assert_eq!(RegisterValue::Boolean(true).as_bool(), Ok(true));
    assert_eq!(RegisterValue::S16(3).as_bool(), Err(S7Error::InvalidRegisterValue));
    assert_eq!(RegisterValue::S16(69).as_i16(), Ok(69));
    assert_eq!(RegisterValue::S32(69).as_i16(), Err(S7Error::InvalidRegisterValue));
    assert_eq!(RegisterValue::S16(-2).to_be_bytes(), Ok(vec![0xFF, 0xFE]));
    assert_eq!(RegisterValue::S32(-2).to_be_bytes(), Ok(vec![0xFF, 0xFF, 0xFF, 0xFE]));
    assert_eq!(RegisterValue::Boolean(false).to_be_bytes(), Err(S7Error::InvalidRegisterValue));
}

#[test]
fn address_conversions() {
    let bit = BitAddress { db: 2, byte: 3, bit: 4 };
    let byte = ByteAddress { db: 2, byte: 3 };
    assert_eq!(RegAddress::from(bit), RegAddress::Bit(bit));
    assert_eq!(RegAddress::from(byte), RegAddress::Byte(byte));
    assert_eq!(RegAddress::Bit(bit).as_bit(), Ok(bit));
    assert_eq!(RegAddress::Bit(bit).as_byte(), Err(S7Error::MismatchedRegisterLengthError));
    assert_eq!(RegAddress::Byte(byte).as_byte(), Ok(byte));
    assert_eq!(RegAddress::Byte(byte).as_bit(), Err(S7Error::MismatchedRegisterLengthError));
    assert!(RegAddress::Bit(bit).has_valid_bit());
    assert!(!RegAddress::Bit(BitAddress { db: 2, byte: 3, bit: 8 }).has_valid_bit());
    assert!(RegAddress::Byte(byte).has_valid_bit());
}
