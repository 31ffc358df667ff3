//! Images as WebP files in memory. The codec itself is the `webp` crate;
//! what it decodes and encodes is taken on trust and only given a name.

use crate::image::Image;
use vstd::prelude::*;

verus! {

/// The file formats that images are loaded from and saved to.
#[derive(Copy, Clone, PartialEq, Eq, Structural, PartialOrd, Ord, Hash, Debug)]
#[non_exhaustive]
pub enum ImageFormat {
    WebP,
}

/// Why a buffer could not be loaded as an image of any known format.
#[derive(Copy, Clone, PartialEq, Eq, Structural, PartialOrd, Ord, Hash, Debug)]
pub enum LoadFromMemoryError {
    UnknownFormat,
}

/// Why a buffer could not be loaded as an image of a given format.
#[derive(Copy, Clone, PartialEq, Eq, Structural, PartialOrd, Ord, Hash, Debug)]
pub enum LoadFromMemoryWithFormatError {
    DecodeWebP,
}

/// Why an image could not be saved.
#[derive(Copy, Clone, PartialEq, Eq, Structural, PartialOrd, Ord, Hash, Debug)]
pub enum SaveToMemoryError {
    /// The format cannot hold an image of this width and height.
    UnsupportedDimensions { width: u32, height: u32 },
}

/// The largest width and height that a WebP file can hold.
pub const WEBP_MAX_DIMENSION: u32 = 16383;

/// What `webp::Decoder::decode` makes of a buffer: nothing, or whether
/// the image has alpha, its width, its height and its channel bytes.
pub uninterp spec fn webp_decoding(buffer: Seq<u8>) -> Option<(bool, u32, u32, Seq<u8>)>;

/// What `webp::Encoder::encode_lossless` makes of channel bytes of the
/// given layout, width and height.
pub uninterp spec fn webp_lossless_encoding(
    has_alpha: bool,
    width: u32,
    height: u32,
    pixel_data: Seq<u8>,
) -> Seq<u8>;

/// A decoder's outcome with the channel bytes as a sequence.
pub open spec fn decoded_parts(decoded: Option<(bool, u32, u32, Vec<u8>)>) -> Option<
    (bool, u32, u32, Seq<u8>),
> {
    match decoded {
        Some(parts) => Some((parts.0, parts.1, parts.2, parts.3@)),
        None => None,
    }
}

/// Calls `webp::Decoder::new` and `decode`, and reads the layout, the
/// width, the height and the bytes of the `WebPImage` that comes back.
/// The contract claims only that the outcome is a function of the buffer:
/// it is `webp_decoding` of it.
#[verifier::external_body]
fn decode_webp(buffer: &[u8]) -> (decoded: Option<(bool, u32, u32, Vec<u8>)>)
    ensures
        decoded_parts(decoded) == webp_decoding(buffer@),
{
    let image = webp::Decoder::new(buffer).decode()?;
    Some((image.is_alpha(), image.width(), image.height(), image.to_vec()))
}

/// Calls `webp::Encoder::from_rgb` and `encode_lossless`. Both panic on
/// some inputs, which `requires` leaves out: a buffer shorter than three
/// bytes per pixel, and a width or height that is zero or above 16383.
/// The contract claims only that the bytes are a function of the
/// arguments: they are `webp_lossless_encoding` of them.
#[verifier::external_body]
fn encode_rgb_lossless(pixel_data: &[u8], width: u32, height: u32) -> (encoded: Vec<u8>)
    requires
        1 <= width <= WEBP_MAX_DIMENSION,
        1 <= height <= WEBP_MAX_DIMENSION,
        pixel_data@.len() >= width * height * 3,
    ensures
        encoded@ == webp_lossless_encoding(false, width, height, pixel_data@),
{
    webp::Encoder::from_rgb(pixel_data, width, height).encode_lossless().to_vec()
}

/// Calls `webp::Encoder::from_rgba` and `encode_lossless`. Both panic on
/// some inputs, which `requires` leaves out: a buffer shorter than four
/// bytes per pixel, and a width or height that is zero or above 16383.
/// The contract claims only that the bytes are a function of the
/// arguments: they are `webp_lossless_encoding` of them.
#[verifier::external_body]
fn encode_rgba_lossless(pixel_data: &[u8], width: u32, height: u32) -> (encoded: Vec<u8>)
    requires
        1 <= width <= WEBP_MAX_DIMENSION,
        1 <= height <= WEBP_MAX_DIMENSION,
        pixel_data@.len() >= width * height * 4,
    ensures
        encoded@ == webp_lossless_encoding(true, width, height, pixel_data@),
{
    webp::Encoder::from_rgba(pixel_data, width, height).encode_lossless().to_vec()
}

/// Whether a decoding holds an image: there is one, and it has one byte
/// for each channel of each pixel.
pub open spec fn holds_image(decoding: Option<(bool, u32, u32, Seq<u8>)>) -> bool {
    &&& decoding is Some
    &&& decoding.unwrap().3.len() == decoding.unwrap().1 * decoding.unwrap().2 * (if decoding.unwrap().0 {
        4int
    } else {
        3int
    })
}

/// Whether `image` is the image that a decoding holds.
pub open spec fn is_image_of(image: Image, decoding: Option<(bool, u32, u32, Seq<u8>)>) -> bool {
    &&& decoding is Some
    &&& image.wf()
    &&& image.has_alpha() == decoding.unwrap().0
    &&& image.spec_width() == decoding.unwrap().1
    &&& image.spec_height() == decoding.unwrap().2
    &&& image.pixels() == decoding.unwrap().3
}

/// The image that a decoder's outcome holds, where it holds one.
pub fn image_from_decoded(decoded: Option<(bool, u32, u32, Vec<u8>)>) -> (result: Result<
    Image,
    LoadFromMemoryWithFormatError,
>)
    ensures
        result is Ok <==> holds_image(decoded_parts(decoded)),
        result matches Ok(image) ==> is_image_of(image, decoded_parts(decoded)),
        result matches Err(error) ==> error == LoadFromMemoryWithFormatError::DecodeWebP,
{
    match decoded {
        Some((has_alpha, width, height, pixel_data)) => {
            match Image::from_pixel_data(has_alpha, width, height, pixel_data) {
                Some(image) => Ok(image),
                None => Err(LoadFromMemoryWithFormatError::DecodeWebP),
            }
        },
        None => Err(LoadFromMemoryWithFormatError::DecodeWebP),
    }
}

impl Image {
    /// Whether the image can be saved as WebP: its width and height are
    /// at least one and at most 16383.
    pub open spec fn fits_webp(&self) -> bool {
        &&& 1 <= self.spec_width() <= WEBP_MAX_DIMENSION
        &&& 1 <= self.spec_height() <= WEBP_MAX_DIMENSION
    }

    /// Whether the image can be saved as WebP.
    pub fn can_save_as_webp(&self) -> (fits: bool)
        ensures
            fits == self.fits_webp(),
    {
        1 <= self.width() && self.width() <= WEBP_MAX_DIMENSION && 1 <= self.height()
            && self.height() <= WEBP_MAX_DIMENSION
    }

    /// Loads an image from a buffer that holds a file of the given format.
    pub fn load_from_memory_with_format(buffer: &[u8], format: ImageFormat) -> (result: Result<
        Self,
        LoadFromMemoryWithFormatError,
    >)
        ensures
            result is Ok <==> holds_image(webp_decoding(buffer@)),
            result matches Ok(image) ==> is_image_of(image, webp_decoding(buffer@)),
            result matches Err(error) ==> error == LoadFromMemoryWithFormatError::DecodeWebP,
    {
        match format {
            ImageFormat::WebP => image_from_decoded(decode_webp(buffer)),
        }
    }

    /// Loads an image from a buffer that holds a file of a known format.
    pub fn load_from_memory(buffer: &[u8]) -> (result: Result<Self, LoadFromMemoryError>)
        ensures
            result is Ok <==> holds_image(webp_decoding(buffer@)),
            result matches Ok(image) ==> is_image_of(image, webp_decoding(buffer@)),
            result matches Err(error) ==> error == LoadFromMemoryError::UnknownFormat,
    {
        match Self::load_from_memory_with_format(buffer, ImageFormat::WebP) {
            Ok(image) => Ok(image),
            Err(LoadFromMemoryWithFormatError::DecodeWebP) => Err(
                LoadFromMemoryError::UnknownFormat,
            ),
        }
    }

    /// The image as a file of the given format, encoded without loss.
    /// An image that the format cannot hold, because its width or height
    /// is zero or above 16383, is refused.
    pub fn save_to_memory(&self, format: ImageFormat) -> (result: Result<
        Vec<u8>,
        SaveToMemoryError,
    >)
        requires
            self.wf(),
        ensures
            self.fits_webp() ==> result is Ok && result.unwrap()@ == webp_lossless_encoding(
                self.has_alpha(),
                self.spec_width(),
                self.spec_height(),
                self.pixels(),
            ),
            !self.fits_webp() ==> result == Err::<Vec<u8>, SaveToMemoryError>(
                SaveToMemoryError::UnsupportedDimensions {
                    width: self.spec_width(),
                    height: self.spec_height(),
                },
            ),
    {
        if !self.can_save_as_webp() {
            return Err(
                SaveToMemoryError::UnsupportedDimensions {
                    width: self.width(),
                    height: self.height(),
                },
            );
        }
        match format {
            ImageFormat::WebP => match self {
                Image::Rgb8(rgb8_image) => Ok(
                    encode_rgb_lossless(
                        rgb8_image.pixel_data(),
                        rgb8_image.width(),
                        rgb8_image.height(),
                    ),
                ),
                Image::Rgba8(rgba8_image) => Ok(
                    encode_rgba_lossless(
                        rgba8_image.pixel_data(),
                        rgba8_image.width(),
                        rgba8_image.height(),
                    ),
                ),
            },
        }
    }
}

} // verus!
