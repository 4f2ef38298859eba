//! Still-image decoding core: a little-endian bit reader, a GIF-flavoured LZW
//! decompressor, GIF block parsers, the GIF89a grammar driver and a raster canvas.

pub mod bits;
pub mod blocks;
pub mod categories;
pub mod colors;
pub mod decoder;
pub mod errors;
pub mod generic_image;
pub mod gif;
pub mod image_buffer;
pub mod lzw;
pub mod pixel;
pub mod quantization;
pub mod ringbuf;
pub mod stream;
