//! Hiding a byte payload in the least significant bits of an image's
//! colour channels, and reading it back from the image alone.
//!
//! The payload goes in behind a length prefix of sixteen bytes, so that the
//! image itself says how much is hidden in it.

pub mod bit_width;
pub mod bits;
pub mod codec;
pub mod combinator;
pub mod config;
pub mod framing;
pub mod image;
pub mod laws;
pub mod random;
pub mod separator;
pub mod sizing;

pub use bit_width::{CountOfLeastSignificantBits, TryFromBitCountError};
pub use codec::{ImageFormat, LoadFromMemoryError, LoadFromMemoryWithFormatError, SaveToMemoryError};
pub use combinator::{PixelChannelCombinator, PixelChannelCombinatorIteratorExt};
pub use config::{
    ExtractConfig, ExtractConfigBuilder, InsertConfig, InsertConfigBuilder, RemainingBitsAction,
};
pub use image::{ExtractDataError, Image, InsertDataError, Rgb8Image, Rgba8Image};
pub use separator::{PixelChannelSeparator, PixelChannelSeparatorIteratorExt};
