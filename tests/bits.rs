use imgcore::bits::{BitReader, BitWriter, BitsReadError, LittleEndianReader, LittleEndianWriter};

fn assert_result_eq<T: std::fmt::Debug + PartialEq>(result: Result<T, BitsReadError>, expected: T) {
    match result {
        Ok(value) => {
            assert_eq!(value, expected, "Expected value: {:?}, but got: {:?}", expected, value);
        }
        Err(e) => {
            panic!("Expected Ok({:?}), but got Err({:?})", expected, e);
        }
    }
}

#[test]
fn test_little_endian_read_n_u8() {
    let data = vec![0b0000_0110u8, 0b00000111];
    let mut bit_reader = LittleEndianReader::new(data);

    assert_result_eq(bit_reader.read_n::<u8>(1), 0u8);
    assert_result_eq(bit_reader.read_n::<u8>(1), 1u8);
    assert_result_eq(bit_reader.read_n::<u8>(2), 1u8);
    assert_result_eq(bit_reader.read_n::<u8>(4), 0u8);

    assert_result_eq(bit_reader.read_n::<u8>(4), 0b0111u8);
    assert_result_eq(bit_reader.read_n::<u8>(4), 0u8);
}

#[test]
fn test_little_endian_read_n_u32() {
    let data_pre = 2848593921u32;
    let data = data_pre.to_le_bytes().to_vec();
    let mut bit_reader = LittleEndianReader::new(data);

    assert_result_eq(bit_reader.read_n::<u32>(u32::BITS as u8), data_pre);
}

#[test]
fn test_little_endian_read_n_u64() {
    let data_pre = 28485939212312u64;
    let data = data_pre.to_le_bytes().to_vec();
    let mut bit_reader = LittleEndianReader::new(data);

    assert_result_eq(bit_reader.read_n::<u64>(u64::BITS as u8), data_pre);
}

#[test]
fn test_little_endian_read_eof() {
    let data = vec![0b0000_0110u8];
    let mut bit_reader = LittleEndianReader::new(data);

    assert_result_eq(bit_reader.read_n::<u8>(1), 0u8);
    assert_result_eq(bit_reader.read_n::<u8>(1), 1u8);
    assert_result_eq(bit_reader.read_n::<u8>(2), 1u8);
    assert_result_eq(bit_reader.read_n::<u8>(4), 0u8);

    assert!(bit_reader.read_n::<u8>(8).is_err())
}

#[test]
fn read_n_zero_bits_touches_nothing() {
    let mut bit_reader = LittleEndianReader::new(vec![]);
    assert_result_eq(bit_reader.read_n::<u8>(0), 0u8);
    assert_eq!(bit_reader.read_bit(), Err(BitsReadError::UnexpectedEOF));
}

#[test]
fn read_n_too_wide_for_type() {
    let mut bit_reader = LittleEndianReader::new(vec![0xFF, 0xFF]);
    assert_eq!(bit_reader.read_n::<u8>(9), Err(BitsReadError::InsufficientTypeSize));
    // nothing was consumed
    assert_result_eq(bit_reader.read_n::<u16>(9), 0x1FFu16);
}

#[test]
fn reads_across_byte_boundaries_match_one_read() {
    let bytes = vec![0xA5u8, 0x3C, 0x7E, 0x81, 0x42];
    let mut whole = LittleEndianReader::new(bytes.clone());
    let all = whole.read_n::<u64>(40).unwrap();
    let mut parts = LittleEndianReader::new(bytes);
    let a = parts.read_n::<u64>(3).unwrap();
    let b = parts.read_n::<u64>(13).unwrap();
    let c = parts.read_n::<u64>(24).unwrap();
    assert_eq!(all, a | (b << 3) | (c << 16));
    assert_eq!(all, 0x42_81_7E_3C_A5);
}

#[test]
fn read_bit_goes_lsb_first() {
    let mut bit_reader = LittleEndianReader::new(vec![0b1000_0001]);
    let bits: Vec<bool> = (0..8).map(|_| bit_reader.read_bit().unwrap()).collect();
    assert_eq!(bits, vec![true, false, false, false, false, false, false, true]);
    assert!(bit_reader.read_bit().is_err());
}

#[test]
fn skip_moves_the_cursor() {
    let mut bit_reader = LittleEndianReader::new(vec![0xF0, 0x0F]);
    assert_eq!(bit_reader.skip(4), Ok(()));
    assert_result_eq(bit_reader.read_n::<u8>(8), 0xFFu8);
    assert_eq!(bit_reader.skip(5), Err(BitsReadError::UnexpectedEOF));
}

#[test]
fn into_reader_returns_unpulled_bytes() {
    let mut bit_reader = LittleEndianReader::new(vec![1, 2, 3]);
    assert_result_eq(bit_reader.read_n::<u8>(3), 1u8);
    assert_eq!(bit_reader.into_reader(), vec![2, 3]);
}

#[test]
fn test_little_endian_writer_write_internal() {
    let mut bit_writer = LittleEndianWriter::new(Vec::new());

    bit_writer.write_internal(0b0000_1011, 4);
    bit_writer.write_internal(0b1100_1101, 8);
    bit_writer.flush();

    assert_eq!(bit_writer.into_inner(), [0b1101_1011, 0b0000_1100]);
}

#[test]
fn test_little_endian_writer_write_internal_temp() {
    let mut bit_writer = LittleEndianWriter::new(Vec::new());

    bit_writer.write_internal(0b0000_1100, 4);
    bit_writer.write_internal(0b0000_1111, 4);
    bit_writer.flush();

    assert_eq!(bit_writer.into_inner(), [0b1111_1100]);
}

#[test]
fn test_little_endian_writer_write() {
    let mut bit_writer = LittleEndianWriter::new(Vec::new());

    bit_writer.write(&[0b0000_1011], 4);
    bit_writer.write(&[0b1100_1101, 0b0000_1111], 4);
    bit_writer.flush();

    assert_eq!(bit_writer.into_inner(), [0b1101_1011, 0b1111_1100]);
}

#[test]
fn writer_bits_and_values_round_trip() {
    let mut bit_writer = LittleEndianWriter::new(Vec::new());
    bit_writer.write_bit(true);
    bit_writer.write_n(0x1234u16, 13);
    bit_writer.write_n(0xABCDEF01u32, 32);
    bit_writer.write_internal(0xFF, 2);
    bit_writer.flush();
    let bytes = bit_writer.into_inner();

    let mut reader = LittleEndianReader::new(bytes);
    assert_eq!(reader.read_bit(), Ok(true));
    assert_result_eq(reader.read_n::<u16>(13), 0x1234u16);
    assert_result_eq(reader.read_n::<u32>(32), 0xABCDEF01u32);
    assert_result_eq(reader.read_n::<u8>(2), 3u8);
}
