//! Packing and unpacking of indexed-colour pixel data.
//!
//! An image whose pixels are drawn from a small colour table can be stored with
//! 1, 4 or 8 bits per pixel. Each pixel is then an index into the table, several
//! indices share one byte (most significant bits first), and every image row is
//! padded to a multiple of four bytes. This crate converts between a flat,
//! row-major buffer of [`Rgba`] pixels and that packed byte layout, in both
//! directions, and proves that the two directions are inverse to each other.

pub mod bit_data;
pub mod bit_depth;
pub mod error;
pub mod file_header;
pub mod image;
pub mod info_header;
pub mod packer;
pub mod palette;
pub mod rgb_quad;
pub mod rgba;
pub mod round_trip;
pub mod row_layout;
pub mod unpacker;

pub use bit_data::BitData;
pub use bit_depth::BitDepth;
pub use error::BitDataError;
pub use file_header::FileHeader;
pub use image::BitMap;
pub use info_header::InfoHeader;
pub use rgb_quad::RgbQuad;
pub use rgba::Rgba;
