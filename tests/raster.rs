use imgcore::categories::{BlockLabel, BlockLabelType, BlockSeparator, ExtensionType};
use imgcore::colors::{ColorType, Luma, RGB};
use imgcore::generic_image::{GenericImage, GenericImageMut};
use imgcore::image_buffer::ImageBuffer;
use imgcore::pixel::{EuclidianDistance, Pixel};
use imgcore::quantization::{dist_euclidian, nearest_color, nearest_color_filter};
use imgcore::ringbuf::RingBuffer;

#[test]
fn test_ring_buffer() {
    let mut buffer: RingBuffer<i32, 2> = RingBuffer::default();

    *buffer.current_mut() = 1;
    buffer.next();
    *buffer.current_mut() = 2;
    buffer.next();
    *buffer.current_mut() = 3;

    assert_eq!(*buffer.current(), 3);
    assert_eq!(*buffer.last(), 2);

    buffer.next();
    *buffer.current_mut() = 4;

    assert_eq!(*buffer.current(), 4);
    assert_eq!(*buffer.last(), 3);
}

#[test]
fn ring_buffer_from_slots() {
    let mut buffer: RingBuffer<u8, 3> = RingBuffer::new_from([7, 8, 9], 0);
    assert_eq!(*buffer.last(), 9);
    *buffer.last_mut() = 1;
    buffer.next();
    buffer.next();
    assert_eq!(buffer.index(), 2);
    assert_eq!(*buffer.current(), 1);
}

#[test]
fn zero_width_zero_height() {
    let image: ImageBuffer<RGB> = ImageBuffer::new(0, 0);
    assert_eq!(image.dimensions(), (0, 0));
    assert!(image.get_pixel_checked(0, 0).is_none());
}

#[test]
fn put_rect_clips_to_the_canvas() {
    let mut image: ImageBuffer<Luma> = ImageBuffer::new(2, 2);
    let data = [Luma([1]), Luma([2]), Luma([3]), Luma([4])];
    assert_eq!(image.put_rect(1, 1, 2, 2, &data), Ok(()));
    assert_eq!(image.into_vec(), vec![0, 0, 0, 1]);
}

#[test]
fn put_rect_far_off_the_canvas_drops_everything() {
    let mut image: ImageBuffer<Luma> = ImageBuffer::new(2, 2);
    let data = [Luma([9]); 4];
    assert_eq!(image.put_rect(u32::MAX, u32::MAX, 2, 2, &data), Ok(()));
    assert_eq!(image.into_vec(), vec![0, 0, 0, 0]);
}

#[test]
fn put_rect_needs_enough_pixels() {
    let mut image: ImageBuffer<Luma> = ImageBuffer::new(2, 2);
    assert_eq!(image.put_rect(0, 0, 2, 2, &[Luma([1]); 3]), Err(()));
    assert_eq!(image.into_vec(), vec![0, 0, 0, 0]);
}

#[test]
fn put_rect_inside_writes_rows() {
    let mut image: ImageBuffer<RGB> = ImageBuffer::new(3, 2);
    let data = [RGB([1, 1, 1]), RGB([2, 2, 2]), RGB([3, 3, 3]), RGB([4, 4, 4])];
    assert_eq!(image.put_rect(1, 0, 2, 2, &data), Ok(()));
    assert_eq!(image.get_pixel(1, 0).0, [1, 1, 1]);
    assert_eq!(image.get_pixel(2, 0).0, [2, 2, 2]);
    assert_eq!(image.get_pixel(1, 1).0, [3, 3, 3]);
    assert_eq!(image.get_pixel(2, 1).0, [4, 4, 4]);
    assert_eq!(image.get_pixel(0, 1).0, [0, 0, 0]);
}

#[test]
fn containers_round_trip() {
    assert!(ImageBuffer::<RGB>::from_vec(2, 1, vec![1, 2, 3, 4, 5]).is_none());
    let image = ImageBuffer::<RGB>::from_container(2, 1, vec![1, 2, 3, 4, 5, 6, 7]).unwrap();
    assert_eq!(image.as_container(), &vec![1, 2, 3, 4, 5, 6]);
    assert_eq!(image.get_pixel(1, 0).0, [4, 5, 6]);
    let mut image = image;
    image.put_pixel(0, 0, RGB([9, 9, 9]));
    assert_eq!(image.into_container(), vec![9, 9, 9, 4, 5, 6]);
}

#[test]
fn pixels_and_color_types() {
    assert_eq!(ColorType::Rgb8.bytes_per_pixel(), 3);
    assert_eq!(ColorType::L8.channel_count(), 1);
    assert!(!ColorType::Rgb8.has_alpha());
    assert_eq!(RGB::channel_count(), 3);
    assert_eq!(RGB([1, 2, 3]).channels(), vec![1, 2, 3]);
    assert_eq!(RGB::from_slice(&[4, 5, 6]).0, [4, 5, 6]);
    assert_eq!(RGB([0, 0, 0]).dist_euclidian(&RGB([255, 255, 255])), 3 * 255 * 255);
    assert_eq!(Luma([10]).dist_euclidian(&Luma([7])), 9);
}

#[test]
fn block_categories() {
    assert_eq!(BlockSeparator::try_from_u8(0x2C), Some(BlockSeparator::Image));
    assert_eq!(BlockSeparator::try_from_u8(0x00), None);
    assert!(!BlockSeparator::Trailer.can_be_type(BlockLabelType::Graphic));
    assert!(BlockSeparator::Extension.can_be_type(BlockLabelType::Graphic));
    assert_eq!(BlockLabelType::from(0x01), BlockLabelType::Graphic);
    assert_eq!(BlockLabelType::from(0xF9), BlockLabelType::Control);
    assert_eq!(BlockLabelType::from(0xFE), BlockLabelType::SpecialPurpose);
    assert_eq!(BlockLabelType::from(0x3B), BlockLabelType::Trailer);
    assert_eq!(BlockLabel::try_from_u8(0xFF), Some(BlockLabel::ApplicationExtension));
    assert!(BlockLabel::CommentExtension.is_extension());
    assert!(!BlockLabel::ImageDescriptor.is_extension());
    assert!(BlockLabel::GraphicControlExtension.is_of_type(BlockLabelType::Control));
    assert!(BlockLabel::Trailer.is_of_seperator_type(BlockSeparator::Trailer));
    assert_eq!(ExtensionType::from_u8(0xF9), Some(ExtensionType::GraphicControlExtension));
    assert_eq!(ExtensionType::from_u8(0x02), None);
}

#[test]
fn nearest_color_picks_the_first_closest() {
    let palette = [RGB([0, 0, 0]), RGB([255, 255, 255]), RGB([250, 250, 250]), RGB([250, 250, 250])];
    assert_eq!(nearest_color(RGB([240, 240, 240]), &palette).0, [250, 250, 250]);
    assert_eq!(nearest_color(RGB([10, 0, 0]), &palette).0, [0, 0, 0]);
    let gray = [Luma([0]), Luma([100]), Luma([200])];
    assert_eq!(nearest_color(Luma([150]), &gray).0, [100]);
    let out = nearest_color_filter(vec![Luma([10]), Luma([190])], &gray);
    assert_eq!(out[0].0, [0]);
    assert_eq!(out[1].0, [200]);
    assert_eq!(dist_euclidian(RGB([1, 2, 3]), RGB([4, 6, 3])), 25);
}

#[test]
fn pixel_arithmetic_is_channelwise() {
    let a = RGB([250, 10, 7]);
    let b = RGB([10, 20, 2]);
    assert_eq!((a + b).0, [4, 30, 9]);
    assert_eq!((a - b).0, [240, 246, 5]);
    assert_eq!((a * b).0, [196, 200, 14]);
    assert_eq!((a / b).0, [25, 0, 3]);
    assert_eq!((a % b).0, [0, 10, 1]);
    assert_eq!((Luma([3]) - Luma([5])).0, [254]);
    assert_eq!((Luma([200]) + Luma([100])).0, [44]);
}
