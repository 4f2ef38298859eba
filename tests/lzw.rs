use imgcore::lzw::{LZWDecodeError, LZWDecoder, LZW};
use std::collections::HashMap;

/// Packs `(code, width)` pairs into a little-endian bit stream.
fn pack(codes: &[(u16, u8)]) -> Vec<u8> {
    let mut out = Vec::new();
    let mut acc: u32 = 0;
    let mut n: u32 = 0;
    for &(code, width) in codes {
        acc |= (code as u32) << n;
        n += width as u32;
        while n >= 8 {
            out.push((acc & 0xFF) as u8);
            acc >>= 8;
            n -= 8;
        }
    }
    if n > 0 {
        out.push(acc as u8);
    }
    out
}

/// A GIF LZW encoder whose code widths follow the decoder: a code is one bit
/// wider once the entry defined while reading the code before it fills the
/// current width.
fn encode(data: &[u8], mcs: u8) -> Vec<u8> {
    let clear: u16 = 1 << mcs;
    let eoi = clear + 1;
    let mut codes: Vec<(u16, u8)> = Vec::new();
    let mut width: u8 = mcs + 1;
    let mut dict: HashMap<Vec<u8>, u16> = HashMap::new();
    let mut next: u16 = clear + 2;
    let mut last_added: Option<u16> = None;
    codes.push((clear, width));
    let mut prefix: Vec<u8> = Vec::new();
    for &byte in data {
        let mut candidate = prefix.clone();
        candidate.push(byte);
        if prefix.is_empty() || dict.contains_key(&candidate) {
            prefix = candidate;
            continue;
        }
        let code = if prefix.len() == 1 { prefix[0] as u16 } else { dict[&prefix] };
        codes.push((code, width));
        if let Some(added) = last_added {
            if added + 1 == (1u16 << width) && width < 12 {
                width += 1;
            }
        }
        dict.insert(candidate, next);
        last_added = Some(next);
        next += 1;
        prefix = vec![byte];
        if next >= 4000 {
            codes.push((clear, width));
            width = mcs + 1;
            dict.clear();
            next = clear + 2;
            last_added = None;
        }
    }
    if !prefix.is_empty() {
        let code = if prefix.len() == 1 { prefix[0] as u16 } else { dict[&prefix] };
        codes.push((code, width));
        if let Some(added) = last_added {
            if added + 1 == (1u16 << width) && width < 12 {
                width += 1;
            }
        }
    }
    codes.push((eoi, width));
    pack(&codes)
}

#[test]
fn test_decode() {
    // 000 000 001 0010 0011 0110, end 0101; minimum code size 2
    #[allow(clippy::unusual_byte_groupings)]
    let data = vec![0b01_000_000u8, 0b011_0010_0, 0b101_0110_0, 0b0000000_0];
    let expected = [0b00, 0b00, 0b01, 0b10, 0b11, 0b00, 0b00];

    let res = LZWDecoder::decode(data, 2);
    let unwrapped = res.unwrap();
    for (i, _) in unwrapped.iter().enumerate() {
        assert_eq!(unwrapped[i], expected[i], "elements at index {} should be equal", i);
    }
}

#[test]
fn decode_4color_data() {
    let data = vec![0x8C, 0x2D, 0x99, 0x87, 0x2A, 0x1C, 0xDC, 0x33, 0xA0, 0x2, 0x55, 0x0];

    let res = LZWDecoder::decode(data, 2);
    if res.is_err() {
        panic!("failed to decode {:?}", res.unwrap_err())
    }

    assert_eq!(
        res.unwrap(),
        [
            1, 1, 1, 1, 1, 2, 2, 2, 2, 2, 1, 1, 1, 1, 1, 2, 2, 2, 2, 2, 1, 1, 1, 1, 1, 2, 2, 2, 2,
            2, 1, 1, 1, 0, 0, 0, 0, 2, 2, 2,
        ]
    );
}

const LOREM: &str = "Lorem ipsum dolor sit amet, consectetur adipiscing elit, sed do eiusmod \
tempor incididunt ut labore et dolore magna aliqua. Ut enim ad minim veniam, quis nostrud \
exercitation ullamco laboris nisi ut aliquip ex ea commodo consequat. Duis aute irure dolor in \
reprehenderit in voluptate velit esse cillum dolore eu fugiat nulla pariatur. Excepteur sint \
occaecat cupidatat non proident, sunt in culpa qui officia deserunt mollit anim id est laborum.";

#[test]
fn decode_lorem_ipsum() {
    let expected: Vec<u8> = LOREM.repeat(40).into_bytes();
    let data = encode(&expected, 7);

    let res = LZWDecoder::decode(data, 7);
    if res.is_err() {
        panic!("failed to decode {:?}", res.unwrap_err())
    }

    assert_eq!(res.unwrap(), expected);
}

#[test]
fn kwkwk_code_repeats_the_last_word() {
    // clear, 1, then 6: the code being defined, i.e. [1] + [1]
    assert_eq!(pack(&[(4, 3), (1, 3), (6, 3), (5, 3)]), vec![0x8C, 0x0B]);
    assert_eq!(LZWDecoder::decode(vec![0x8C, 0x0B], 2), Ok(vec![1, 1, 1]));
}

#[test]
fn end_right_after_clear_is_empty() {
    assert_eq!(LZWDecoder::decode(pack(&[(4, 3), (5, 3)]), 2), Ok(vec![]));
}

#[test]
fn clear_in_the_middle_resets_the_codebook() {
    let data = pack(&[(4, 3), (1, 3), (6, 3), (4, 3), (2, 3), (2, 3), (6, 3), (5, 4)]);
    assert_eq!(LZWDecoder::decode(data, 2), Ok(vec![1, 1, 1, 2, 2, 2, 2]));
}

#[test]
fn smallest_and_largest_minimum_code_size() {
    let text: Vec<u8> = (0..2000u32).map(|i| (i % 4) as u8).collect();
    assert_eq!(LZWDecoder::decode(encode(&text, 2), 2), Ok(text));
    let wide: Vec<u8> = (0..20000u32).map(|i| ((i * 7 + i / 13) % 256) as u8).collect();
    assert_eq!(LZWDecoder::decode(encode(&wide, 10), 10), Ok(wide));
}

#[test]
fn codes_reach_twelve_bits() {
    // enough distinct words to fill the codebook past 2048 entries
    let data: Vec<u8> = (0..60000u32).map(|i| ((i * 31 + i / 7 + i / 97) % 251) as u8).collect();
    assert_eq!(LZWDecoder::decode(encode(&data, 8), 8), Ok(data));
}

#[test]
fn invalid_minimum_code_size() {
    assert_eq!(LZWDecoder::decode(vec![0], 1), Err(LZWDecodeError::InvalidMinimumCodeSize));
    assert_eq!(LZWDecoder::decode(vec![0], 11), Err(LZWDecodeError::InvalidMinimumCodeSize));
}

#[test]
fn first_code_after_clear_must_be_predefined() {
    assert_eq!(
        LZWDecoder::decode(pack(&[(4, 3), (6, 3)]), 2),
        Err(LZWDecodeError::TooLargeCode { found: 6, table_size: 0 })
    );
}

#[test]
fn code_beyond_next_index_is_rejected() {
    assert_eq!(
        LZWDecoder::decode(pack(&[(4, 3), (1, 3), (7, 3)]), 2),
        Err(LZWDecodeError::TooLargeCode { found: 7, table_size: 6 })
    );
}

#[test]
fn stream_without_end_code_fails() {
    assert_eq!(LZWDecoder::decode(pack(&[(4, 3), (1, 3)]), 2), Err(LZWDecodeError::UnexpectedEOF));
}
