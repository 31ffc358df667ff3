//! Images as flat buffers of interleaved channel bytes, and the insertion
//! and extraction of a framed payload.

use crate::bits::{
    bits_per_pixel, combined, lemma_data_slot_count, lemma_slot_start_at_most_bytes,
    lemma_slot_start_monotone, low_mask, separated_pair, slot_in_data, slot_width, valid_widths,
};
use crate::combinator::{PixelChannelCombinator, PixelChannelCombinatorIteratorExt};
use crate::config::{ExtractConfig, InsertConfig, RemainingBitsAction};
use crate::framing::{
    be_limit, be_value, frame, framed, lemma_be_limit_monotone, lemma_be_limit_sixteen,
    lemma_be_value_bounded,
};
use crate::laws::lemma_insertion_keeps_high_bits;
use crate::separator::{
    fills_slot, is_padding_pair, lemma_rgb_widths, lemma_rgba_widths, PixelChannelSeparator,
    PixelChannelSeparatorIteratorExt,
};
use vstd::prelude::*;

verus! {

/// An image of three channels per pixel: red, green, blue.
#[derive(Clone, PartialEq, Eq, PartialOrd, Ord, Hash, Debug)]
pub struct Rgb8Image {
    width: u32,
    height: u32,
    pixel_data: Vec<u8>,
}

/// An image of four channels per pixel: red, green, blue, alpha.
#[derive(Clone, PartialEq, Eq, PartialOrd, Ord, Hash, Debug)]
pub struct Rgba8Image {
    width: u32,
    height: u32,
    pixel_data: Vec<u8>,
}

/// An image of eight-bit channels, with or without alpha.
#[derive(Clone, PartialEq, Eq, PartialOrd, Ord, Hash, Debug)]
pub enum Image {
    Rgb8(Rgb8Image),
    Rgba8(Rgba8Image),
}

/// Why a payload could not be inserted.
#[derive(Copy, Clone, PartialEq, Eq, Structural, PartialOrd, Ord, Hash, Debug)]
pub enum InsertDataError {
    /// No channel of the image carries a bit.
    InvalidConfiguration,
    /// The payload of `data` bytes is larger than the `capacity` of the
    /// image.
    DataExceedsCapacity { data: usize, capacity: usize },
}

/// Why no payload could be extracted.
#[derive(Copy, Clone, PartialEq, Eq, Structural, PartialOrd, Ord, Hash, Debug)]
pub enum ExtractDataError {
    /// No channel of the image carries a bit.
    InvalidConfiguration,
    /// The image holds only `index` bytes of the sixteen of the length.
    MissingByteForLength { index: usize },
    /// The image holds only `index` of the `length` payload bytes that the
    /// length prefix announces. A length that does not fit is shown as the
    /// largest one that does.
    MissingDataBytes { index: usize, length: usize },
}

/// The number of payload bytes that fit into `pixel_count` pixels of
/// `bits` payload bits each, after the 128 bits of the length prefix.
pub open spec fn data_capacity(pixel_count: nat, bits: nat) -> nat {
    if pixel_count * bits < 128 {
        0
    } else {
        ((pixel_count * bits - 128) / 8) as nat
    }
}

/// The least number of pixels of `bits` payload bits each that hold a
/// payload of `data_size` bytes and its length prefix.
pub open spec fn pixels_needed(data_size: nat, bits: nat) -> nat
    recommends
        bits > 0,
{
    ((data_size * 8 + 128 + bits - 1) / (bits as int)) as nat
}

/// The number of pixels of an image of the given width and height.
pub fn count_pixels(width: u32, height: u32) -> (pixels: u64)
    ensures
        pixels == width * height,
{
    assert(width * height <= 0xFFFF_FFFF * 0xFFFF_FFFF) by (nonlinear_arith)
        requires
            0 <= width <= 0xFFFF_FFFF,
            0 <= height <= 0xFFFF_FFFF,
    ;
    (width as u64) * (height as u64)
}

/// What an insertion does to the channel byte of slot `k`: while the slot
/// begins inside the stream, its low bits become the slot's bits of the
/// stream; after the stream they are left alone, cleared, or replaced by
/// any bits, as the policy says. The bits above the slot's width stay.
pub open spec fn slot_after_insertion(
    before: u8,
    after: u8,
    stream: Seq<u8>,
    widths: Seq<nat>,
    action: RemainingBitsAction,
    k: nat,
) -> bool {
    let mask = low_mask(slot_width(widths, k as int));
    if slot_in_data(widths, stream.len(), k) {
        after == (before & !mask) | separated_pair(stream, widths, k).0
    } else {
        match action {
            RemainingBitsAction::Nothing => after == before,
            RemainingBitsAction::Zero => after == before & !mask,
            RemainingBitsAction::Randomize { .. } => after & !mask == before & !mask,
        }
    }
}

/// What an insertion of `stream` does to a run of channel bytes.
pub open spec fn stream_inserted(
    before: Seq<u8>,
    after: Seq<u8>,
    stream: Seq<u8>,
    widths: Seq<nat>,
    action: RemainingBitsAction,
) -> bool {
    &&& after.len() == before.len()
    &&& forall|k: int|
        0 <= k < before.len() ==> slot_after_insertion(
            before[k],
            #[trigger] after[k],
            stream,
            widths,
            action,
            k as nat,
        )
}

/// What an insertion of `payload` does to a run of channel bytes: the
/// payload goes in behind its length prefix.
pub open spec fn inserted(
    before: Seq<u8>,
    after: Seq<u8>,
    payload: Seq<u8>,
    widths: Seq<nat>,
    action: RemainingBitsAction,
) -> bool {
    stream_inserted(before, after, framed(payload), widths, action)
}

/// How an insertion of `payload_len` bytes ends: it is refused where no
/// channel carries a bit, and where the payload is larger than the
/// capacity.
pub open spec fn insertion_outcome(pixel_count: nat, payload_len: nat, widths: Seq<nat>) -> Result<
    (),
    InsertDataError,
> {
    let capacity = data_capacity(pixel_count, bits_per_pixel(widths));
    if bits_per_pixel(widths) == 0 {
        Err(InsertDataError::InvalidConfiguration)
    } else if payload_len > capacity {
        Err(
            InsertDataError::DataExceedsCapacity {
                data: payload_len as usize,
                capacity: capacity as usize,
            },
        )
    } else {
        Ok(())
    }
}

/// The largest length that an error can show.
pub open spec fn shown_length(length: nat) -> usize {
    if length > usize::MAX {
        usize::MAX
    } else {
        length as usize
    }
}

/// What an extraction reads from a run of channel bytes: the rebuilt
/// stream begins with sixteen bytes of length, and that many bytes of
/// payload follow.
pub open spec fn extraction(channel_bytes: Seq<u8>, widths: Seq<nat>) -> Result<
    Seq<u8>,
    ExtractDataError,
> {
    let stream = combined(channel_bytes, widths);
    if bits_per_pixel(widths) == 0 {
        Err(ExtractDataError::InvalidConfiguration)
    } else if stream.len() < 16 {
        Err(ExtractDataError::MissingByteForLength { index: stream.len() as usize })
    } else {
        let length = be_value(stream.subrange(0, 16));
        let available = stream.len() - 16;
        if length > available {
            Err(
                ExtractDataError::MissingDataBytes {
                    index: available as usize,
                    length: shown_length(length),
                },
            )
        } else {
            Ok(stream.subrange(16, 16 + length as int))
        }
    }
}

/// Whether an extraction's result is the one that is owed.
pub open spec fn is_extraction(
    result: Result<Vec<u8>, ExtractDataError>,
    owed: Result<Seq<u8>, ExtractDataError>,
) -> bool {
    match (result, owed) {
        (Ok(payload), Ok(owed_payload)) => payload@ == owed_payload,
        (Err(error), Err(owed_error)) => error == owed_error,
        _ => false,
    }
}

/// Writes the pairs of a separator into the channel bytes, one pair per
/// byte: the bits under the mask are replaced, the others kept.
fn write_pairs<const CHANNELS: usize>(
    separator: PixelChannelSeparator<'_, CHANNELS>,
    pixel_data: &mut Vec<u8>,
)
    requires
        separator.wf(),
        separator.returned() == 0,
        valid_widths(separator.widths()),
        separator.expected() is Some,
        separator.widths().len() * separator.expected().unwrap() == old(pixel_data)@.len(),
    ensures
        stream_inserted(
            old(pixel_data)@,
            final(pixel_data)@,
            separator.source(),
            separator.widths(),
            separator.action(),
        ),
{
    let ghost source = separator.source();
    let ghost widths = separator.widths();
    let ghost expected = separator.expected();
    let ghost action = separator.action();
    let ghost before = pixel_data@;
    let mut separator = separator;
    let mut index: usize = 0;
    let len = pixel_data.len();
    proof {
        lemma_data_slot_count(widths, source.len());
    }
    while index < len
        invariant_except_break
            separator.wf(),
            separator.source() == source,
            separator.widths() == widths,
            separator.expected() == expected,
            separator.action() == action,
            separator.returned() == index,
        invariant
            index <= len,
            len == before.len(),
            pixel_data@.len() == len,
            valid_widths(widths),
            expected is Some,
            widths.len() * expected.unwrap() == len,
            forall|k: int|
                0 <= k < index ==> slot_after_insertion(
                    before[k],
                    #[trigger] pixel_data@[k],
                    source,
                    widths,
                    action,
                    k as nat,
                ),
            forall|k: int| index <= k < len ==> pixel_data@[k] == before[k],
        ensures
            index < len ==> !slot_in_data(widths, source.len(), index as nat) && action
                == RemainingBitsAction::Nothing,
        decreases len - index,
    {
        let ghost k = index as nat;
        match separator.next() {
            Some((bits, bit_mask)) => {
                let pixel_channel_data = pixel_data[index];
                let written = (pixel_channel_data & !bit_mask) | bits;
                proof {
                    if !slot_in_data(widths, source.len(), k) {
                        assert(fills_slot(action, expected, widths.len(), k));
                        assert(is_padding_pair(
                            action,
                            slot_width(widths, k as int),
                            (bits, bit_mask),
                        ));
                        assert(bits & !bit_mask == 0 ==> written & !bit_mask == pixel_channel_data
                            & !bit_mask) by (bit_vector)
                            requires
                                written == (pixel_channel_data & !bit_mask) | bits,
                        ;
                        assert(bits == 0 ==> written == pixel_channel_data & !bit_mask)
                            by (bit_vector)
                            requires
                                written == (pixel_channel_data & !bit_mask) | bits,
                        ;
                    }
                }
                pixel_data.set(index, written);
            },
            None => {
                assert(!fills_slot(action, expected, widths.len(), k));
                break ;
            },
        }
        index = index + 1;
    }
    proof {
        assert forall|k: int| 0 <= k < before.len() implies slot_after_insertion(
            before[k],
            #[trigger] pixel_data@[k],
            source,
            widths,
            action,
            k as nat,
        ) by {
            if k >= index {
                lemma_slot_start_monotone(widths, index as nat, k as nat);
            }
        }
    }
}

/// Reads a framed payload from a combinator: sixteen bytes of length, then
/// as many bytes as the length says.
fn read_framed<const CHANNELS: usize>(combinator: PixelChannelCombinator<'_, CHANNELS>) -> (result:
    Result<Vec<u8>, ExtractDataError>)
    requires
        combinator.wf(),
        combinator.returned() == 0,
        valid_widths(combinator.widths()),
        combinator.source().len() <= usize::MAX,
    ensures
        is_extraction(result, extraction(combinator.source(), combinator.widths())),
{
    let ghost source = combinator.source();
    let ghost widths = combinator.widths();
    let ghost stream = combined(source, widths);
    proof {
        lemma_slot_start_at_most_bytes(widths, source.len());
        lemma_be_limit_sixteen();
    }
    let mut extract_data = combinator;
    let mut length: u128 = 0;
    let mut index: usize = 0;
    while index < 16
        invariant
            extract_data.wf(),
            source == combinator.source(),
            widths == combinator.widths(),
            extract_data.source() == source,
            extract_data.widths() == widths,
            stream == combined(source, widths),
            extract_data.returned() == index,
            index <= 16,
            index <= stream.len(),
            length == be_value(stream.subrange(0, index as int)),
            be_limit(15) == 0x100_0000_0000_0000_0000_0000_0000_0000,
            bits_per_pixel(widths) > 0,
        decreases 16 - index,
    {
        proof {
            lemma_be_value_bounded(stream.subrange(0, index as int));
            lemma_be_limit_monotone(index as nat, 15);
        }
        match extract_data.next() {
            Some(byte) => {
                length = length * 256 + byte as u128;
            },
            None => {
                return Err(ExtractDataError::MissingByteForLength { index });
            },
        }
        index = index + 1;
        assert(stream.subrange(0, index as int).drop_last() =~= stream.subrange(
            0,
            index - 1,
        ));
    }
    let shown: usize = if length > usize::MAX as u128 {
        usize::MAX
    } else {
        length as usize
    };
    let mut output: Vec<u8> = Vec::new();
    let mut index: usize = 0;
    while (index as u128) < length
        invariant
            extract_data.wf(),
            source == combinator.source(),
            widths == combinator.widths(),
            extract_data.source() == source,
            extract_data.widths() == widths,
            stream == combined(source, widths),
            stream.len() <= usize::MAX,
            extract_data.returned() == 16 + index,
            16 + index <= stream.len(),
            index <= length,
            length == be_value(stream.subrange(0, 16)),
            shown == shown_length(length as nat),
            output@ == stream.subrange(16, 16 + index),
            bits_per_pixel(widths) > 0,
        decreases length - index,
    {
        match extract_data.next() {
            Some(byte) => {
                output.push(byte);
            },
            None => {
                return Err(ExtractDataError::MissingDataBytes { index, length: shown });
            },
        }
        index = index + 1;
        assert(output@ =~= stream.subrange(16, 16 + index));
    }
    Ok(output)
}

impl Rgb8Image {
    /// The width in pixels.
    pub closed spec fn spec_width(&self) -> u32 {
        self.width
    }

    /// The height in pixels.
    pub closed spec fn spec_height(&self) -> u32 {
        self.height
    }

    /// The channel bytes, row by row, three per pixel.
    pub closed spec fn pixels(&self) -> Seq<u8> {
        self.pixel_data@
    }

    /// The buffer holds three bytes for each pixel.
    pub open spec fn wf(&self) -> bool {
        self.pixels().len() == self.spec_width() * self.spec_height() * 3
    }

    /// An image over `pixel_data`, where that holds three bytes for each of
    /// the `width * height` pixels.
    pub fn new(width: u32, height: u32, pixel_data: Vec<u8>) -> (image: Option<Self>)
        ensures
            image is Some <==> pixel_data@.len() == width * height * 3,
            image matches Some(image) ==> image.wf() && image.spec_width() == width
                && image.spec_height() == height && image.pixels() == pixel_data@,
    {
        let expected: u128 = (count_pixels(width, height) as u128) * 3;
        if pixel_data.len() as u128 == expected {
            Some(Rgb8Image { width, height, pixel_data })
        } else {
            None
        }
    }

    /// The width in pixels.
    pub fn width(&self) -> (width: u32)
        ensures
            width == self.spec_width(),
    {
        self.width
    }

    /// The height in pixels.
    pub fn height(&self) -> (height: u32)
        ensures
            height == self.spec_height(),
    {
        self.height
    }

    /// The channel bytes, row by row, three per pixel.
    pub fn pixel_data(&self) -> (pixel_data: &[u8])
        ensures
            pixel_data@ == self.pixels(),
    {
        self.pixel_data.as_slice()
    }
}

impl Rgba8Image {
    /// The width in pixels.
    pub closed spec fn spec_width(&self) -> u32 {
        self.width
    }

    /// The height in pixels.
    pub closed spec fn spec_height(&self) -> u32 {
        self.height
    }

    /// The channel bytes, row by row, four per pixel.
    pub closed spec fn pixels(&self) -> Seq<u8> {
        self.pixel_data@
    }

    /// The buffer holds four bytes for each pixel.
    pub open spec fn wf(&self) -> bool {
        self.pixels().len() == self.spec_width() * self.spec_height() * 4
    }

    /// An image over `pixel_data`, where that holds four bytes for each of
    /// the `width * height` pixels.
    pub fn new(width: u32, height: u32, pixel_data: Vec<u8>) -> (image: Option<Self>)
        ensures
            image is Some <==> pixel_data@.len() == width * height * 4,
            image matches Some(image) ==> image.wf() && image.spec_width() == width
                && image.spec_height() == height && image.pixels() == pixel_data@,
    {
        let expected: u128 = (count_pixels(width, height) as u128) * 4;
        if pixel_data.len() as u128 == expected {
            Some(Rgba8Image { width, height, pixel_data })
        } else {
            None
        }
    }

    /// The width in pixels.
    pub fn width(&self) -> (width: u32)
        ensures
            width == self.spec_width(),
    {
        self.width
    }

    /// The height in pixels.
    pub fn height(&self) -> (height: u32)
        ensures
            height == self.spec_height(),
    {
        self.height
    }

    /// The channel bytes, row by row, four per pixel.
    pub fn pixel_data(&self) -> (pixel_data: &[u8])
        ensures
            pixel_data@ == self.pixels(),
    {
        self.pixel_data.as_slice()
    }
}

impl Image {
    /// Whether a pixel has an alpha channel.
    pub open spec fn has_alpha(&self) -> bool {
        self is Rgba8
    }

    /// The number of channels of a pixel: three, or four with alpha.
    pub open spec fn channels(&self) -> nat {
        if self.has_alpha() {
            4
        } else {
            3
        }
    }

    /// The width in pixels.
    pub open spec fn spec_width(&self) -> u32 {
        match self {
            Image::Rgb8(image) => image.spec_width(),
            Image::Rgba8(image) => image.spec_width(),
        }
    }

    /// The height in pixels.
    pub open spec fn spec_height(&self) -> u32 {
        match self {
            Image::Rgb8(image) => image.spec_height(),
            Image::Rgba8(image) => image.spec_height(),
        }
    }

    /// The number of pixels.
    pub open spec fn pixel_count(&self) -> nat {
        (self.spec_width() * self.spec_height()) as nat
    }

    /// The channel bytes, row by row, pixel by pixel.
    pub open spec fn pixels(&self) -> Seq<u8> {
        match self {
            Image::Rgb8(image) => image.pixels(),
            Image::Rgba8(image) => image.pixels(),
        }
    }

    /// The buffer holds one byte for each channel of each pixel.
    pub open spec fn wf(&self) -> bool {
        self.pixels().len() == self.pixel_count() * self.channels()
    }

    /// An image over `pixel_data`, with or without alpha, where that holds
    /// one byte for each channel of each of the `width * height` pixels.
    pub fn from_pixel_data(
        has_alpha_channel: bool,
        width: u32,
        height: u32,
        pixel_data: Vec<u8>,
    ) -> (image: Option<Self>)
        ensures
            image is Some <==> pixel_data@.len() == width * height * (if has_alpha_channel {
                4int
            } else {
                3int
            }),
            image matches Some(image) ==> image.wf() && image.has_alpha() == has_alpha_channel
                && image.spec_width() == width && image.spec_height() == height && image.pixels()
                == pixel_data@,
    {
        if has_alpha_channel {
            match Rgba8Image::new(width, height, pixel_data) {
                Some(image) => Some(Image::Rgba8(image)),
                None => None,
            }
        } else {
            match Rgb8Image::new(width, height, pixel_data) {
                Some(image) => Some(Image::Rgb8(image)),
                None => None,
            }
        }
    }

    /// A buffer in memory is never longer than the machine can count.
    pub proof fn lemma_pixels_fit(&self)
        ensures
            self.pixels().len() <= usize::MAX,
    {
        match self {
            Image::Rgb8(image) => {
                assert(image.pixel_data@.len() == image.pixel_data.len());
            },
            Image::Rgba8(image) => {
                assert(image.pixel_data@.len() == image.pixel_data.len());
            },
        }
    }

    /// Whether a pixel has an alpha channel.
    pub fn has_alpha_channel(&self) -> (has_alpha: bool)
        ensures
            has_alpha == self.has_alpha(),
    {
        match self {
            Image::Rgb8(_) => false,
            Image::Rgba8(_) => true,
        }
    }

    /// The width in pixels.
    pub fn width(&self) -> (width: u32)
        ensures
            width == self.spec_width(),
    {
        match self {
            Image::Rgb8(image) => image.width(),
            Image::Rgba8(image) => image.width(),
        }
    }

    /// The height in pixels.
    pub fn height(&self) -> (height: u32)
        ensures
            height == self.spec_height(),
    {
        match self {
            Image::Rgb8(image) => image.height(),
            Image::Rgba8(image) => image.height(),
        }
    }

    /// The channel bytes, row by row, pixel by pixel.
    pub fn pixel_data(&self) -> (pixel_data: &[u8])
        ensures
            pixel_data@ == self.pixels(),
    {
        match self {
            Image::Rgb8(image) => image.pixel_data(),
            Image::Rgba8(image) => image.pixel_data(),
        }
    }

    /// The number of payload bytes that the image can hold with the given
    /// settings: the payload bits of all pixels, less the 128 bits of the
    /// length prefix, in whole bytes. An image that cannot even hold the
    /// length prefix has capacity zero.
    pub fn max_data_capacity_with_config(&self, config: &InsertConfig) -> (capacity: usize)
        requires
            self.wf(),
        ensures
            capacity == data_capacity(
                self.pixel_count(),
                bits_per_pixel(config.widths(self.has_alpha())),
            ),
            capacity > 0 ==> capacity + 16 <= self.pixels().len(),
    {
        let has_alpha = self.has_alpha_channel();
        let usable_bits_per_pixel = config.usable_bits_per_pixel(has_alpha);
        let pixels: u128 = count_pixels(self.width(), self.height()) as u128;
        let needed_space_for_length_meta_information: u128 = 128;
        proof {
            self.lemma_pixels_fit();
        }
        assert(usable_bits_per_pixel * pixels <= 8 * self.pixels().len()) by (nonlinear_arith)
            requires
                self.pixels().len() == pixels * self.channels(),
                usable_bits_per_pixel <= 8 * self.channels(),
                pixels >= 0,
        ;
        let usable_bits: u128 = (usable_bits_per_pixel as u128) * pixels;
        if usable_bits < needed_space_for_length_meta_information {
            0
        } else {
            ((usable_bits - needed_space_for_length_meta_information) / 8) as usize
        }
    }

    /// The least number of pixels that hold `data_size` payload bytes and
    /// the length prefix with the given settings. Where no number of
    /// pixels does, because no channel carries a bit, or where the number
    /// does not fit, the result is `usize::MAX`.
    pub fn min_pixels_needed_with_config(
        data_size: usize,
        config: &InsertConfig,
        has_alpha_channel: bool,
    ) -> (pixels: usize)
        ensures
            pixels == if bits_per_pixel(config.widths(has_alpha_channel)) == 0 || pixels_needed(
                data_size as nat,
                bits_per_pixel(config.widths(has_alpha_channel)),
            ) > usize::MAX {
                usize::MAX as nat
            } else {
                pixels_needed(data_size as nat, bits_per_pixel(config.widths(has_alpha_channel)))
            },
    {
        let usable_bits_per_pixel = config.usable_bits_per_pixel(has_alpha_channel);
        if usable_bits_per_pixel == 0 {
            return usize::MAX;
        }
        let needed_space_for_length_meta_information: u128 = 128;
        let needed_bits: u128 = (data_size as u128) * 8 + needed_space_for_length_meta_information;
        let needed_pixels: u128 = (needed_bits + (usable_bits_per_pixel as u128 - 1)) / (
        usable_bits_per_pixel as u128);
        if needed_pixels > usize::MAX as u128 {
            usize::MAX
        } else {
            needed_pixels as usize
        }
    }

    /// Hides `data` in the image: its length as sixteen big-endian bytes,
    /// then the payload, spread over the low bits of the channel bytes in
    /// their order. The slots after the payload are treated as
    /// `config.remaining_bits_action` says.
    ///
    /// Nothing is written where the insertion is refused. Of every channel
    /// byte only the low bits that the settings give to its channel can
    /// change. An empty payload is accepted by every image, also by one
    /// that is too small for the length prefix: from such an image nothing
    /// can be read back.
    pub fn insert_data(&mut self, data: &[u8], config: &InsertConfig) -> (result: Result<
        (),
        InsertDataError,
    >)
        requires
            old(self).wf(),
        ensures
            final(self).wf(),
            final(self).has_alpha() == old(self).has_alpha(),
            final(self).spec_width() == old(self).spec_width(),
            final(self).spec_height() == old(self).spec_height(),
            result == insertion_outcome(
                old(self).pixel_count(),
                data@.len(),
                config.widths(old(self).has_alpha()),
            ),
            result is Err ==> final(self).pixels() == old(self).pixels(),
            result is Ok ==> inserted(
                old(self).pixels(),
                final(self).pixels(),
                data@,
                config.widths(old(self).has_alpha()),
                config.remaining_bits_action,
            ),
            forall|k: int|
                0 <= k < old(self).pixels().len() ==> #[trigger] final(self).pixels()[k] & !low_mask(
                    slot_width(config.widths(old(self).has_alpha()), k),
                ) == old(self).pixels()[k] & !low_mask(
                    slot_width(config.widths(old(self).has_alpha()), k),
                ),
    {
        let has_alpha = self.has_alpha_channel();
        if config.usable_bits_per_pixel(has_alpha) == 0 {
            return Err(InsertDataError::InvalidConfiguration);
        }
        let max_capacity = self.max_data_capacity_with_config(config);
        if data.len() > max_capacity {
            return Err(
                InsertDataError::DataExceedsCapacity { data: data.len(), capacity: max_capacity },
            );
        }
        proof {
            self.lemma_pixels_fit();
        }
        let stream = frame(data);
        let pixels: u64 = count_pixels(self.width(), self.height());
        assert(pixels <= self.pixels().len()) by (nonlinear_arith)
            requires
                self.pixels().len() == pixels * self.channels(),
                self.channels() >= 3,
        ;
        let expected_pixels = pixels as usize;
        proof {
            lemma_rgb_widths(
                config.count_of_least_significant_bits_in_red,
                config.count_of_least_significant_bits_in_green,
                config.count_of_least_significant_bits_in_blue,
            );
            lemma_rgba_widths(
                config.count_of_least_significant_bits_in_red,
                config.count_of_least_significant_bits_in_green,
                config.count_of_least_significant_bits_in_blue,
                config.count_of_least_significant_bits_in_alpha,
            );
        }
        match self {
            Image::Rgb8(rgb8_image) => {
                let separator = stream.as_slice().separate_pixel_channel_rgb(
                    config.count_of_least_significant_bits_in_red,
                    config.count_of_least_significant_bits_in_green,
                    config.count_of_least_significant_bits_in_blue,
                    Some(expected_pixels),
                    config.remaining_bits_action,
                );
                assert(separator.widths().len() * separator.expected().unwrap()
                    == rgb8_image.pixel_data@.len()) by (nonlinear_arith)
                    requires
                        separator.widths().len() == 3,
                        separator.expected().unwrap() == pixels,
                        rgb8_image.pixel_data@.len() == pixels * 3,
                ;
                write_pairs(separator, &mut rgb8_image.pixel_data);
            },
            Image::Rgba8(rgba8_image) => {
                let separator = stream.as_slice().separate_pixel_channel_rgba(
                    config.count_of_least_significant_bits_in_red,
                    config.count_of_least_significant_bits_in_green,
                    config.count_of_least_significant_bits_in_blue,
                    config.count_of_least_significant_bits_in_alpha,
                    Some(expected_pixels),
                    config.remaining_bits_action,
                );
                assert(separator.widths().len() * separator.expected().unwrap()
                    == rgba8_image.pixel_data@.len()) by (nonlinear_arith)
                    requires
                        separator.widths().len() == 4,
                        separator.expected().unwrap() == pixels,
                        rgba8_image.pixel_data@.len() == pixels * 4,
                ;
                write_pairs(separator, &mut rgba8_image.pixel_data);
            },
        }
        proof {
            let widths = config.widths(old(self).has_alpha());
            assert forall|k: int| 0 <= k < old(self).pixels().len() implies #[trigger] self.pixels()[k]
                & !low_mask(slot_width(widths, k)) == old(self).pixels()[k] & !low_mask(
                slot_width(widths, k),
            ) by {
                lemma_insertion_keeps_high_bits(
                    old(self).pixels(),
                    self.pixels(),
                    data@,
                    widths,
                    config.remaining_bits_action,
                    k,
                );
            }
        }
        Ok(())
    }

    /// Reads the payload that is hidden in the image: the low bits of the
    /// channel bytes, put together, begin with the payload's length as
    /// sixteen big-endian bytes, and the payload follows.
    pub fn extract_data(&self, config: &ExtractConfig) -> (result: Result<
        Vec<u8>,
        ExtractDataError,
    >)
        requires
            self.wf(),
        ensures
            is_extraction(result, extraction(self.pixels(), config.widths(self.has_alpha()))),
    {
        let has_alpha = self.has_alpha_channel();
        if config.usable_bits_per_pixel(has_alpha) == 0 {
            return Err(ExtractDataError::InvalidConfiguration);
        }
        proof {
            self.lemma_pixels_fit();
            lemma_rgb_widths(
                config.count_of_least_significant_bits_in_red,
                config.count_of_least_significant_bits_in_green,
                config.count_of_least_significant_bits_in_blue,
            );
            lemma_rgba_widths(
                config.count_of_least_significant_bits_in_red,
                config.count_of_least_significant_bits_in_green,
                config.count_of_least_significant_bits_in_blue,
                config.count_of_least_significant_bits_in_alpha,
            );
        }
        match self {
            Image::Rgb8(rgb8_image) => {
                let extract_data = rgb8_image.pixel_data().combine_pixel_channel_rgb(
                    config.count_of_least_significant_bits_in_red,
                    config.count_of_least_significant_bits_in_green,
                    config.count_of_least_significant_bits_in_blue,
                );
                read_framed(extract_data)
            },
            Image::Rgba8(rgba8_image) => {
                let extract_data = rgba8_image.pixel_data().combine_pixel_channel_rgba(
                    config.count_of_least_significant_bits_in_red,
                    config.count_of_least_significant_bits_in_green,
                    config.count_of_least_significant_bits_in_blue,
                    config.count_of_least_significant_bits_in_alpha,
                );
                read_framed(extract_data)
            },
        }
    }
}

} // verus!
