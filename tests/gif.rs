use imgcore::categories::{GraphicRenderingBlocks, SpecialPurposeBlocks};
use imgcore::blocks::{
    ApplicationExtension, ColorTable, ColorTableLookup, ColorTableParseError, CommentExtension,
    GraphicControlExtension, GraphicControlExtensionParseError, Header, HeaderParseError,
    ImageDescriptor, LogicalScreenDescriptor, PlainTextExtension, TableBasedImage,
    TableBasedImageParseError,
};
use imgcore::colors::RGB;
use imgcore::decoder::{GIFDecode, GIFDecoder};
use imgcore::errors::GIFParseError;
use imgcore::generic_image::GenericImage;
use imgcore::gif::{DisposalMethod, GIFImage, Version};
use imgcore::stream::{read_subblock, skip_subblock, ByteReader, IoError};

const HEADER: [u8; 6] = [0x47, 0x49, 0x46, 0x38, 0x39, 0x61];
const SCREEN_1X1: [u8; 7] = [0x01, 0x00, 0x01, 0x00, 0x00, 0x00, 0x00];

fn stream(parts: &[&[u8]]) -> Vec<u8> {
    parts.iter().flat_map(|p| p.iter().copied()).collect()
}

fn decode(bytes: Vec<u8>) -> Result<GIFImage, GIFParseError> {
    GIFDecoder::new(bytes).decode()
}

/// A 1x1 image at the origin whose data is the LZW codes clear, 1, end.
const IMAGE_1X1: [u8; 15] = [
    0x2C, 0x00, 0x00, 0x00, 0x00, 0x01, 0x00, 0x01, 0x00, 0x00, 0x02, 0x02, 0x4C, 0x01, 0x00,
];

#[test]
fn decode_gif() {
    // a 2x1 screen with a global table of four colours and one 2x1 image
    let global = [0u8, 0, 0, 255, 0, 0, 0, 255, 0, 0, 0, 255];
    let lsd = [0x02, 0x00, 0x01, 0x00, 0x81, 0x00, 0x00];
    // codes: clear(4), 1, 2, end(5), all three bits wide
    let image = [
        0x2C, 0x00, 0x00, 0x00, 0x00, 0x02, 0x00, 0x01, 0x00, 0x00, 0x02, 0x02, 0x8C, 0x0A, 0x00,
    ];
    let gif_data = stream(&[&HEADER, &lsd, &global, &image, &[0x3B]]);

    let res = decode(gif_data);
    if let Err(err) = res {
        panic!("Decode err {:?}", err)
    }
    match res.unwrap() {
        GIFImage::Single(image_buffer) => {
            assert_eq!(image_buffer.dimensions(), (2, 1));
            assert_eq!(image_buffer.into_vec(), vec![255, 0, 0, 0, 255, 0]);
        }
        _ => panic!("expected a single image"),
    }
}

#[test]
fn minimal_stream_gives_one_black_pixel() {
    let res = decode(stream(&[&HEADER, &SCREEN_1X1, &[0x3B]]));
    match res {
        Ok(GIFImage::Single(image)) => {
            assert_eq!(image.dimensions(), (1, 1));
            assert_eq!(image.get_pixel(0, 0).0, [0, 0, 0]);
        }
        _ => panic!("expected a single image"),
    }
}

#[test]
fn graphic_control_then_image_is_accepted() {
    let gce = [0x21, 0xF9, 0x04, 0x00, 0x00, 0x00, 0x00, 0x00];
    let res = decode(stream(&[&HEADER, &SCREEN_1X1, &gce, &IMAGE_1X1, &[0x3B]]));
    assert!(matches!(res, Ok(GIFImage::Single(_))));
}

#[test]
fn graphic_control_then_trailer_is_rejected() {
    let gce = [0x21, 0xF9, 0x04, 0x00, 0x00, 0x00, 0x00, 0x00];
    let res = decode(stream(&[&HEADER, &SCREEN_1X1, &gce, &[0x3B]]));
    assert!(matches!(res, Err(GIFParseError::UnexpectedBlockDiscriminant(0x3B))));
}

#[test]
fn graphic_control_then_comment_is_rejected() {
    let gce = [0x21, 0xF9, 0x04, 0x00, 0x00, 0x00, 0x00, 0x00];
    let comment = [0x21, 0xFE, 0x01, 0x41, 0x00];
    let res = decode(stream(&[&HEADER, &SCREEN_1X1, &gce, &comment, &[0x3B]]));
    assert!(matches!(res, Err(GIFParseError::UnexpectedExtensionLabel(0xFE))));
}

#[test]
fn truncated_header_is_an_io_error() {
    assert!(matches!(decode(b"GI".to_vec()), Err(GIFParseError::Io { .. })));
}

#[test]
fn unknown_version_is_reported() {
    match decode(b"GIF90a".to_vec()) {
        Err(GIFParseError::UnknownVersion(v)) => assert_eq!(v, "90a"),
        _ => panic!("expected an unknown version"),
    }
}

#[test]
fn unknown_signature_is_reported() {
    match decode(b"PNG89a".to_vec()) {
        Err(GIFParseError::UnknownSignature(v)) => assert_eq!(v, "PNG"),
        _ => panic!("expected an unknown signature"),
    }
}

#[test]
fn unknown_block_discriminant_is_rejected() {
    let res = decode(stream(&[&HEADER, &SCREEN_1X1, &[0x00]]));
    assert!(matches!(res, Err(GIFParseError::UnexpectedBlockDiscriminant(0x00))));
}

#[test]
fn trailer_as_extension_label_is_rejected() {
    let res = decode(stream(&[&HEADER, &SCREEN_1X1, &[0x21, 0x3B]]));
    assert!(matches!(res, Err(GIFParseError::UnexpectedExtensionLabel(0x3B))));
}

#[test]
fn extensions_are_read_or_skipped() {
    let comment = [0x21, 0xFE, 0x02, b'h', b'i', 0x00];
    let app = [
        0x21, 0xFF, 0x0B, b'N', b'E', b'T', b'S', b'C', b'A', b'P', b'E', b'2', b'.', b'0', 0x03,
        0x01, 0x00, 0x00, 0x00,
    ];
    let unknown_control = [0x21, 0x90, 0x01, 0x07, 0x00];
    let res = decode(stream(&[&HEADER, &SCREEN_1X1, &comment, &app, &unknown_control, &IMAGE_1X1, &[0x3B]]));
    assert!(matches!(res, Ok(GIFImage::Single(_))));
}

#[test]
fn truncated_global_color_table_is_invalid() {
    let lsd = [0x01, 0x00, 0x01, 0x00, 0x80, 0x00, 0x00];
    let res = decode(stream(&[&HEADER, &lsd, &[1, 2, 3]]));
    assert!(matches!(res, Err(GIFParseError::InvalidColorTable(_))));
}

#[test]
fn image_with_too_few_indices_is_an_error() {
    // a 2x1 image whose data holds one index only
    let image = [
        0x2C, 0x00, 0x00, 0x00, 0x00, 0x02, 0x00, 0x01, 0x00, 0x00, 0x02, 0x02, 0x4C, 0x01, 0x00,
    ];
    let res = decode(stream(&[&HEADER, &SCREEN_1X1, &image, &[0x3B]]));
    assert!(matches!(res, Err(GIFParseError::ImageDataError)));
}

#[test]
fn bad_lzw_data_is_reported() {
    let image = [
        0x2C, 0x00, 0x00, 0x00, 0x00, 0x01, 0x00, 0x01, 0x00, 0x00, 0x01, 0x01, 0x00, 0x00,
    ];
    let res = decode(stream(&[&HEADER, &SCREEN_1X1, &image, &[0x3B]]));
    assert!(matches!(res, Err(GIFParseError::InvalidLZWCode(_))));
}

#[test]
fn header_of_exactly_six_bytes() {
    let mut reader = ByteReader::new(HEADER.to_vec());
    let header = Header::parse(&mut reader).ok().unwrap();
    assert_eq!(header.version, Version::Version89a);
    assert_eq!(header.version.as_bytes(), *b"89a");
    let mut short = ByteReader::new(HEADER[..5].to_vec());
    assert!(matches!(Header::parse(&mut short), Err(HeaderParseError::Io(IoError::UnexpectedEof))));
}

#[test]
fn header_87a() {
    let mut reader = ByteReader::new(b"GIF87a".to_vec());
    assert_eq!(Header::parse(&mut reader).ok().unwrap().version, Version::Version87a);
}

#[test]
fn logical_screen_descriptor_fields() {
    let mut reader = ByteReader::new(vec![0x34, 0x12, 0x02, 0x01, 0b1101_1010, 7, 9]);
    let d = LogicalScreenDescriptor::parse(&mut reader).ok().unwrap();
    assert_eq!(d.logical_screen_width, 0x1234);
    assert_eq!(d.logical_screen_height, 0x0102);
    assert!(d.global_color_table_flag());
    assert_eq!(d.color_resolution(), 0b101);
    assert!(d.sort_flag());
    assert_eq!(d.global_color_table_size(), 0b010);
    assert_eq!(d.background_color_index, 7);
    assert_eq!(d.pixel_aspect_ratio, 9);
    let mut short = ByteReader::new(vec![1, 2, 3]);
    assert!(LogicalScreenDescriptor::parse(&mut short).is_err());
}

#[test]
fn color_table_smallest_and_largest() {
    // size flag 0: 2^(0 + 1) entries
    let bytes: Vec<u8> = (0..6u8).collect();
    let mut reader = ByteReader::new(bytes);
    let table = ColorTable::try_from_reader(&mut reader, 0, false).unwrap();
    assert_eq!(table.size, 2);
    assert_eq!(ColorTable::calculate_size(0), 6);
    assert_eq!(ColorTable::calculate_size(1), 12);
    assert_eq!(table.lookup(1).unwrap().0, [3, 4, 5]);
    assert!(table.lookup(2).is_none());
    assert_eq!(table.lookup_fallback(200).0, [0, 0, 0]);
    assert_eq!(table.lookup_or(200, RGB([1, 2, 3])).0, [1, 2, 3]);
    assert_eq!(table.lookup_or(1, RGB([1, 2, 3])).0, [3, 4, 5]);

    let big: Vec<u8> = (0..768u32).map(|i| (i % 256) as u8).collect();
    let mut reader = ByteReader::new(big);
    let table = ColorTable::try_from_reader(&mut reader, 7, true).unwrap();
    assert_eq!(table.size, 256);
    assert_eq!(ColorTable::calculate_size(7), 768);
    assert!(table.sorted);
    assert_eq!(table.lookup(255).unwrap().0, [253, 254, 255]);
}

#[test]
fn color_table_truncated_or_too_large() {
    let mut reader = ByteReader::new(vec![0; 5]);
    assert_eq!(
        ColorTable::try_from_reader(&mut reader, 0, false).unwrap_err(),
        ColorTableParseError::NotEnoughData
    );
    let mut reader = ByteReader::new(vec![0; 11]);
    assert_eq!(
        ColorTable::try_from_reader(&mut reader, 8, false).unwrap_err(),
        ColorTableParseError::TooLarge
    );
    let table = ColorTable::default();
    assert_eq!(table.size, 256);
    assert_eq!(table.lookup(17).unwrap().0, [0, 0, 0]);
}

#[test]
fn local_color_table_without_bytes_is_an_error() {
    let descriptor = [0x00, 0x00, 0x00, 0x00, 0x01, 0x00, 0x01, 0x00, 0x80];
    let mut reader = ByteReader::new(descriptor.to_vec());
    assert_eq!(
        TableBasedImage::parse(&mut reader).unwrap_err(),
        TableBasedImageParseError::InvalidColorTable(ColorTableParseError::NotEnoughData)
    );
}

#[test]
fn table_based_image_with_local_table() {
    let bytes = [
        0x01, 0x00, 0x02, 0x00, 0x01, 0x00, 0x01, 0x00, 0b1100_0000, 1, 2, 3, 4, 5, 6, 0x02, 0x02, 0x4C, 0x01, 0x00,
    ];
    let mut reader = ByteReader::new(bytes.to_vec());
    let image = TableBasedImage::parse(&mut reader).unwrap();
    let d: ImageDescriptor = image.descriptor();
    assert_eq!(d.image_position().left, 1);
    assert_eq!(d.image_position().top, 2);
    assert_eq!(d.image_dim(), (1, 1));
    assert!(d.local_color_table_flag());
    assert!(d.interlace_flag());
    assert!(!d.sort_flag());
    assert_eq!(d.local_color_table_size_flag(), 0);
    assert_eq!(image.data(), &vec![1]);
    assert_eq!(image.local_color_table().unwrap().lookup(1).unwrap().0, [4, 5, 6]);
    assert!(image.local_color_table_ref().is_some());
}

#[test]
fn graphic_control_extension_fields_and_errors() {
    let mut reader = ByteReader::new(vec![0x04, 0b0000_1011, 0x10, 0x00, 0x07, 0x00]);
    let gce = GraphicControlExtension::parse(&mut reader).unwrap();
    assert_eq!(gce.delay_time(), 16);
    assert_eq!(gce.disposal_method(), DisposalMethod::RestoreBackground);
    assert!(gce.user_input_flag());
    assert!(gce.has_transparent_color());
    assert_eq!(gce.transparent_color_index(), Some(7));

    let mut reader = ByteReader::new(vec![0x05, 0, 0, 0, 0, 0]);
    assert_eq!(
        GraphicControlExtension::parse(&mut reader).unwrap_err(),
        GraphicControlExtensionParseError::InvalidBlockSize(5)
    );
    let mut reader = ByteReader::new(vec![0x04, 0, 0, 0, 0, 1]);
    assert_eq!(
        GraphicControlExtension::parse(&mut reader).unwrap_err(),
        GraphicControlExtensionParseError::InvalidBlockTerminator
    );
    let default = GraphicControlExtension::default();
    assert_eq!(default.disposal_method(), DisposalMethod::DoNotDispose);
    assert_eq!(default.transparent_color_index(), None);
}

#[test]
fn extensions_parse() {
    let mut reader = ByteReader::new(vec![0x03, b'a', b'b', b'c', 0x01, b'd', 0x00]);
    assert_eq!(CommentExtension::parse(&mut reader).unwrap().comment_data, "abcd");

    let mut bytes = vec![0x0B];
    bytes.extend_from_slice(b"NETSCAPE2.0");
    bytes.extend_from_slice(&[0x03, 0x01, 0x05, 0x00, 0x00]);
    let mut reader = ByteReader::new(bytes);
    let app = ApplicationExtension::parse(&mut reader).unwrap();
    assert_eq!(&app.application_identifier, b"NETSCAPE");
    assert_eq!(&app.application_code, b"2.0");
    assert_eq!(app.application_data, vec![0x01, 0x05, 0x00]);

    let mut text = vec![0x0C, 1, 0, 2, 0, 3, 0, 4, 0, 5, 6, 7, 8];
    text.extend_from_slice(&[0x02, 0xC3, 0xA9, 0x00]);
    let mut reader = ByteReader::new(text.clone());
    let plain = PlainTextExtension::parse(&mut reader).unwrap();
    assert_eq!(plain.plain_text_data, "\u{e9}");
    assert_eq!(plain.text_grid_width, 3);
    let mut reader = ByteReader::new(text);
    assert!(PlainTextExtension::parse_strict(&mut reader).is_err());
}

#[test]
fn sub_block_chains() {
    let mut reader = ByteReader::new(vec![0x02, 1, 2, 0x01, 3, 0x00, 9]);
    assert_eq!(read_subblock(&mut reader), Ok(vec![1, 2, 3]));
    assert_eq!(reader.read_byte(), Ok(9));
    let mut reader = ByteReader::new(vec![0x02, 1]);
    assert_eq!(read_subblock(&mut reader), Err(IoError::UnexpectedEof));
    let mut reader = ByteReader::new(vec![0x01, 1, 0x00]);
    assert_eq!(skip_subblock(&mut reader), Ok(()));
}

#[test]
fn rgb_from_table_lookup() {
    let rgb = RGB::new(1, 2, 3);
    assert_eq!(rgb.0, [1, 2, 3]);
}

#[test]
fn graphic_control_errors_reach_the_decoder() {
    let bad_size = [0x21, 0xF9, 0x05, 0x00, 0x00, 0x00, 0x00, 0x00];
    let res = decode(stream(&[&HEADER, &SCREEN_1X1, &bad_size, &IMAGE_1X1, &[0x3B]]));
    assert!(matches!(res, Err(GIFParseError::UnexpectedBlockSize { got: 5, expected: 4 })));
    let bad_end = [0x21, 0xF9, 0x04, 0x00, 0x00, 0x00, 0x00, 0x01];
    let res = decode(stream(&[&HEADER, &SCREEN_1X1, &bad_end, &IMAGE_1X1, &[0x3B]]));
    assert!(matches!(res, Err(GIFParseError::InvalidBlockTerminator)));
}

#[test]
fn comment_that_is_not_utf8_is_invalid_text() {
    let comment = [0x21, 0xFE, 0x01, 0xFF, 0x00];
    let res = decode(stream(&[&HEADER, &SCREEN_1X1, &comment, &[0x3B]]));
    assert!(matches!(res, Err(GIFParseError::InvalidText)));
}

#[test]
fn strict_ascii_rejects_other_plain_text() {
    let mut text = vec![0x21, 0x01, 0x0C, 0, 0, 0, 0, 1, 0, 1, 0, 1, 1, 0, 0];
    text.extend_from_slice(&[0x02, 0xC3, 0xA9, 0x00]);
    let bytes = stream(&[&HEADER, &SCREEN_1X1, &text, &[0x3B]]);
    assert!(matches!(GIFDecoder::new(bytes.clone()).decode(), Ok(GIFImage::Single(_))));
    let strict = GIFDecoder::with_options(bytes, None, true).decode();
    assert!(matches!(strict, Err(GIFParseError::InvalidText)));
}

#[test]
fn default_color_table_is_used_without_others() {
    let mut bytes = vec![0u8; 6];
    bytes[3] = 10;
    bytes[4] = 20;
    bytes[5] = 30;
    let mut reader = ByteReader::new(bytes);
    let table = ColorTable::try_from_reader(&mut reader, 0, false).unwrap();
    let gif = stream(&[&HEADER, &SCREEN_1X1, &IMAGE_1X1, &[0x3B]]);
    match GIFDecoder::with_options(gif, Some(table), false).decode() {
        Ok(GIFImage::Single(image)) => assert_eq!(image.get_pixel(0, 0).0, [10, 20, 30]),
        _ => panic!("expected a single image"),
    }
}

#[test]
fn block_size_errors_of_extensions() {
    let mut reader = ByteReader::new(vec![0x0A, 0, 0, 0, 0, 0, 0, 0, 0, 0, 0, 0, 0x00]);
    assert_eq!(
        ApplicationExtension::parse(&mut reader).unwrap_err(),
        imgcore::blocks::ApplicationExtensionParseError::InvalidBlockSize(0x0A)
    );
    let mut reader = ByteReader::new(vec![0x0B, 0, 0, 0, 0, 0, 0, 0, 0, 0, 0, 0, 0, 0x00]);
    assert_eq!(
        PlainTextExtension::parse(&mut reader).unwrap_err(),
        imgcore::blocks::PlainTextExtensionParseError::InvalidBlockSize { expected: 12, found: 11 }
    );
    let mut reader = ByteReader::new(vec![0x01, 0xFF, 0x00]);
    assert_eq!(
        CommentExtension::parse(&mut reader).unwrap_err(),
        imgcore::blocks::CommentExtensionParseError::InvalidASCII
    );
}

#[test]
fn image_separator_as_extension_label_is_skipped() {
    let odd = [0x21, 0x2C, 0x02, 0x00, 0x00, 0x00];
    let res = decode(stream(&[&HEADER, &SCREEN_1X1, &odd, &IMAGE_1X1, &[0x3B]]));
    assert!(matches!(res, Ok(GIFImage::Single(_))));
}

#[test]
fn graphic_control_then_image_through_global_table() {
    // size flag 1: a global table of 2^(1 + 1) = 4 entries
    let lsd = [0x01, 0x00, 0x01, 0x00, 0x81, 0x00, 0x00];
    let global = [0xFF, 0x00, 0x00, 0x00, 0xFF, 0x00, 0x00, 0x00, 0xFF, 0xFF, 0xFF, 0xFF];
    let gce = [0x21, 0xF9, 0x04, 0x00, 0x00, 0x00, 0x00, 0x00];
    let image = [
        0x2C, 0x00, 0x00, 0x00, 0x00, 0x01, 0x00, 0x01, 0x00, 0x00, 0x02, 0x02, 0x44, 0x01, 0x00,
    ];
    match decode(stream(&[&HEADER, &lsd, &global, &gce, &image, &[0x3B]])) {
        Ok(GIFImage::Single(img)) => {
            assert_eq!(img.dimensions(), (1, 1));
            assert_eq!(img.get_pixel(0, 0).0, [0xFF, 0, 0]);
            assert_eq!(img.as_container().len(), 3);
        }
        _ => panic!("expected a single image"),
    }
}

#[test]
fn block_kinds_introduced_by_extensions() {
    assert!(GraphicRenderingBlocks::PlainTextExtension.is_extension());
    assert!(GraphicRenderingBlocks::UnknownBlock.is_extension());
    assert!(!GraphicRenderingBlocks::TableBasedImage.is_extension());
    assert!(SpecialPurposeBlocks::CommentExtension.is_extension());
    assert!(SpecialPurposeBlocks::UnknownBlock.is_extension());
}
