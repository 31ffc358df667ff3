//! The channel bit separator: a byte stream, cut into one bit group per
//! channel slot.

use crate::bit_width::CountOfLeastSignificantBits;
use crate::bits::{
    bits_per_pixel, data_slot_count, group_bit, lemma_data_slot_count, lemma_extract_bits,
    lemma_group_within_mask, lemma_is_group, lemma_pixel_of_slot_bounded, lemma_slot_index,
    lemma_slot_start_monotone, lemma_slot_start_step, lemma_straddle_bits, lemma_stream_bit,
    low_mask, mask_of_width, msb_bit, separated_pair, slot_in_data, slot_start, slot_width,
    stream_bits, valid_widths,
};
use vstd::arithmetic::div_mod::lemma_fundamental_div_mod;
use crate::config::RemainingBitsAction;
use crate::random::{draw_byte, seeded_generator};
use rand::rngs::StdRng;
use vstd::prelude::*;

verus! {

/// The widths, in bits, that a list of channel settings stands for.
pub open spec fn channel_widths(counts: Seq<CountOfLeastSignificantBits>) -> Seq<nat> {
    Seq::new(counts.len(), |c: int| counts[c].bits())
}

/// The widths of the three channels of a pixel without alpha.
pub open spec fn rgb_widths(
    red: CountOfLeastSignificantBits,
    green: CountOfLeastSignificantBits,
    blue: CountOfLeastSignificantBits,
) -> Seq<nat> {
    seq![red.bits(), green.bits(), blue.bits()]
}

/// The widths of the four channels of a pixel with alpha.
pub open spec fn rgba_widths(
    red: CountOfLeastSignificantBits,
    green: CountOfLeastSignificantBits,
    blue: CountOfLeastSignificantBits,
    alpha: CountOfLeastSignificantBits,
) -> Seq<nat> {
    seq![red.bits(), green.bits(), blue.bits(), alpha.bits()]
}

/// Three channels carry the sum of their widths, none above eight.
pub proof fn lemma_rgb_widths(
    red: CountOfLeastSignificantBits,
    green: CountOfLeastSignificantBits,
    blue: CountOfLeastSignificantBits,
)
    ensures
        rgb_widths(red, green, blue).len() == 3,
        bits_per_pixel(rgb_widths(red, green, blue)) == red.bits() + green.bits() + blue.bits(),
        bits_per_pixel(rgb_widths(red, green, blue)) <= 24,
        forall|c: int| 0 <= c < 3 ==> #[trigger] rgb_widths(red, green, blue)[c] <= 8,
        channel_widths(seq![red, green, blue]) == rgb_widths(red, green, blue),
{
    let widths = rgb_widths(red, green, blue);
    reveal_with_fuel(slot_start, 4);
    assert(slot_width(widths, 0) == red.bits());
    assert(slot_width(widths, 1) == green.bits());
    assert(slot_width(widths, 2) == blue.bits());
    assert(channel_widths(seq![red, green, blue]) =~= widths);
}

/// Four channels carry the sum of their widths, none above eight.
pub proof fn lemma_rgba_widths(
    red: CountOfLeastSignificantBits,
    green: CountOfLeastSignificantBits,
    blue: CountOfLeastSignificantBits,
    alpha: CountOfLeastSignificantBits,
)
    ensures
        rgba_widths(red, green, blue, alpha).len() == 4,
        bits_per_pixel(rgba_widths(red, green, blue, alpha)) == red.bits() + green.bits()
            + blue.bits() + alpha.bits(),
        bits_per_pixel(rgba_widths(red, green, blue, alpha)) <= 32,
        forall|c: int| 0 <= c < 4 ==> #[trigger] rgba_widths(red, green, blue, alpha)[c] <= 8,
        channel_widths(seq![red, green, blue, alpha]) == rgba_widths(red, green, blue, alpha),
{
    let widths = rgba_widths(red, green, blue, alpha);
    reveal_with_fuel(slot_start, 5);
    assert(slot_width(widths, 0) == red.bits());
    assert(slot_width(widths, 1) == green.bits());
    assert(slot_width(widths, 2) == blue.bits());
    assert(slot_width(widths, 3) == alpha.bits());
    assert(channel_widths(seq![red, green, blue, alpha]) =~= widths);
}

/// The number of pairs that the separator yields in all: the slots that
/// begin inside the payload, and after them the slots that are filled.
pub open spec fn yielded_count(
    widths: Seq<nat>,
    byte_count: nat,
    expected: Option<usize>,
    action: RemainingBitsAction,
) -> nat {
    let in_data = data_slot_count(widths, byte_count);
    if fills_slot(action, expected, widths.len(), in_data) {
        widths.len() * (expected.unwrap() as nat)
    } else {
        in_data
    }
}

/// Whether slot `k`, which lies after the payload, is still filled: there
/// is a policy that fills, and the expected pixels are not used up.
pub open spec fn fills_slot(
    action: RemainingBitsAction,
    expected: Option<usize>,
    channels: nat,
    k: nat,
) -> bool {
    &&& action != RemainingBitsAction::Nothing
    &&& expected matches Some(pixels) && k < channels * pixels
}

/// What holds of a pair that fills a slot of `width` bits after the
/// payload: the mask is that of the slot, the bits stay inside the mask,
/// and they are zero where the policy says so.
pub open spec fn is_padding_pair(action: RemainingBitsAction, width: nat, pair: (u8, u8)) -> bool {
    &&& pair.1 == low_mask(width)
    &&& pair.0 & !pair.1 == 0
    &&& action == RemainingBitsAction::Zero ==> pair.0 == 0
}

/// What the separator yields for slot `k`: the slot's bits of the payload
/// while the slot begins inside it, then padding as long as slots are
/// filled, then nothing.
pub open spec fn yields(
    source: Seq<u8>,
    widths: Seq<nat>,
    expected: Option<usize>,
    action: RemainingBitsAction,
    k: nat,
    result: Option<(u8, u8)>,
) -> bool {
    if slot_in_data(widths, source.len(), k) {
        result == Some(separated_pair(source, widths, k))
    } else if fills_slot(action, expected, widths.len(), k) {
        result matches Some(pair) && is_padding_pair(action, slot_width(widths, k as int), pair)
    } else {
        result is None
    }
}

/// The pair that fills a slot with a drawn byte: the byte cut down to the
/// slot's mask, and the mask.
pub fn random_padding_pair(random_byte: u8, width: CountOfLeastSignificantBits) -> (pair: (u8, u8))
    ensures
        pair == (random_byte & low_mask(width.bits()), low_mask(width.bits())),
        is_padding_pair(RemainingBitsAction::Randomize { seed: None }, width.bits(), pair),
{
    let mask = mask_of_width(width.bit_count() as u8);
    let value = random_byte & mask;
    assert((random_byte & mask) & !mask == 0) by (bit_vector);
    (value, mask)
}

/// A separator over a borrowed byte stream and `CHANNELS` channel widths.
///
/// It keeps a cursor into the stream (a byte position and a bit offset in
/// that byte) and the channel whose turn it is, and yields one pair per
/// call of [`PixelChannelSeparator::next`].
pub struct PixelChannelSeparator<'a, const CHANNELS: usize> {
    inner: &'a [u8],
    position: usize,
    current_byte_offset: u8,
    count_of_least_significant_bits: [CountOfLeastSignificantBits; CHANNELS],
    expected_pixels: Option<usize>,
    pixels_returned_so_far: u128,
    channel_index: usize,
    remaining_bits_action: RemainingBitsAction,
    rng: Option<StdRng>,
}

impl<'a, const CHANNELS: usize> PixelChannelSeparator<'a, CHANNELS> {
    /// The byte stream that is being separated.
    pub closed spec fn source(&self) -> Seq<u8> {
        self.inner@
    }

    /// The channel widths, in bits.
    pub closed spec fn widths(&self) -> Seq<nat> {
        channel_widths(self.count_of_least_significant_bits@)
    }

    /// The number of pairs yielded so far, which is the number of the slot
    /// whose turn it is.
    pub closed spec fn returned(&self) -> nat {
        (self.pixels_returned_so_far * CHANNELS + self.channel_index) as nat
    }

    /// The number of pixels that the destination holds, where it is known.
    pub closed spec fn expected(&self) -> Option<usize> {
        self.expected_pixels
    }

    /// What is yielded for the slots after the payload.
    pub closed spec fn action(&self) -> RemainingBitsAction {
        self.remaining_bits_action
    }

    /// The separator's invariant: the cursor stands where the slots yielded
    /// so far end, or at the end of the stream.
    pub closed spec fn wf(&self) -> bool {
        &&& valid_widths(self.widths())
        &&& self.widths().len() == CHANNELS
        &&& self.position <= self.inner@.len()
        &&& self.current_byte_offset < 8
        &&& self.position == self.inner@.len() ==> self.current_byte_offset == 0
        &&& self.channel_index < CHANNELS
        &&& 8 * self.position + self.current_byte_offset == if slot_start(
            self.widths(),
            self.returned(),
        ) < 8 * self.inner@.len() {
            slot_start(self.widths(), self.returned()) as int
        } else {
            8 * (self.inner@.len() as int)
        }
        &&& self.pixels_returned_so_far <= 8 * self.inner@.len() + match self.expected_pixels {
            Some(pixels) => pixels as int,
            None => 0,
        }
    }

    /// A separator at the start of `inner`, with no generator made yet.
    /// A pixel must carry at least one bit: with all widths zero there is
    /// nothing to separate.
    pub fn new(
        inner: &'a [u8],
        count_of_least_significant_bits: [CountOfLeastSignificantBits; CHANNELS],
        expected_pixels: Option<usize>,
        remaining_bits_action: RemainingBitsAction,
    ) -> (separator: Self)
        requires
            bits_per_pixel(channel_widths(count_of_least_significant_bits@)) > 0,
        ensures
            separator.wf(),
            separator.source() == inner@,
            separator.widths() == channel_widths(count_of_least_significant_bits@),
            separator.returned() == 0,
            separator.expected() == expected_pixels,
            separator.action() == remaining_bits_action,
            !separator.has_generator(),
    {
        let separator = Self {
            inner,
            position: 0,
            current_byte_offset: 0,
            count_of_least_significant_bits,
            expected_pixels,
            pixels_returned_so_far: 0,
            channel_index: 0,
            remaining_bits_action,
            rng: None,
        };
        proof {
            let widths = channel_widths(count_of_least_significant_bits@);
            assert(widths.len() == CHANNELS);
            assert(CHANNELS > 0) by {
                if CHANNELS == 0 {
                    assert(slot_start(widths, 0) == 0);
                }
            }
            assert(slot_start(widths, 0) == 0);
            assert(0 * CHANNELS + 0 == 0);
        }
        separator
    }

    /// Moves on to the next channel, and to the next pixel after the last
    /// channel.
    fn advance_channel(&mut self)
        requires
            old(self).channel_index < CHANNELS,
            old(self).pixels_returned_so_far < u128::MAX,
        ensures
            final(self).returned() == old(self).returned() + 1,
            final(self).channel_index < CHANNELS,
            final(self).pixels_returned_so_far <= old(self).pixels_returned_so_far + 1,
            final(self).inner == old(self).inner,
            final(self).position == old(self).position,
            final(self).current_byte_offset == old(self).current_byte_offset,
            final(self).count_of_least_significant_bits == old(
                self,
            ).count_of_least_significant_bits,
            final(self).expected_pixels == old(self).expected_pixels,
            final(self).remaining_bits_action == old(self).remaining_bits_action,
            final(self).rng == old(self).rng,
    {
        if self.channel_index + 1 == CHANNELS {
            proof {
                let p = self.pixels_returned_so_far as int;
                let n = CHANNELS as int;
                assert((p + 1) * n + 0 == p * n + (n - 1) + 1) by (nonlinear_arith);
            }
            self.channel_index = 0;
            self.pixels_returned_so_far = self.pixels_returned_so_far + 1;
        } else {
            self.channel_index = self.channel_index + 1;
        }
    }

    /// Draws one byte from the generator, which is seeded at its first use.
    fn draw(&mut self, seed: Option<u64>) -> (random_byte: u8)
        ensures
            final(self).rng is Some,
            final(self).inner == old(self).inner,
            final(self).position == old(self).position,
            final(self).current_byte_offset == old(self).current_byte_offset,
            final(self).count_of_least_significant_bits == old(
                self,
            ).count_of_least_significant_bits,
            final(self).expected_pixels == old(self).expected_pixels,
            final(self).remaining_bits_action == old(self).remaining_bits_action,
            final(self).pixels_returned_so_far == old(self).pixels_returned_so_far,
            final(self).channel_index == old(self).channel_index,
    {
        let mut generator = match self.rng.take() {
            Some(generator) => generator,
            None => seeded_generator(
                match seed {
                    Some(seed) => seed,
                    None => 0,
                },
            ),
        };
        let random_byte = draw_byte(&mut generator);
        self.rng = Some(generator);
        random_byte
    }

    /// Whether the pseudo-random generator has been made. It is made when
    /// the first slot is filled with random bits, not before, and then
    /// kept.
    pub closed spec fn has_generator(&self) -> bool {
        self.rng is Some
    }

    /// The pair for the slot whose turn it is, or `None` when the sequence
    /// has ended.
    ///
    /// While the slot begins inside the stream, the pair holds the slot's
    /// bits: those left in the current byte, followed where they do not
    /// suffice by the top bits of the next byte, and by zeros where there
    /// is no next byte. After the stream, slots are filled as the policy
    /// says until the expected pixels are used up.
    pub fn next(&mut self) -> (result: Option<(u8, u8)>)
        requires
            old(self).wf(),
        ensures
            final(self).wf(),
            final(self).source() == old(self).source(),
            final(self).widths() == old(self).widths(),
            final(self).expected() == old(self).expected(),
            final(self).action() == old(self).action(),
            result is None ==> final(self).returned() == old(self).returned(),
            result is Some ==> final(self).returned() == old(self).returned() + 1,
            final(self).has_generator() <==> old(self).has_generator() || (!slot_in_data(
                old(self).widths(),
                old(self).source().len(),
                old(self).returned(),
            ) && fills_slot(
                old(self).action(),
                old(self).expected(),
                old(self).widths().len(),
                old(self).returned(),
            ) && old(self).action() is Randomize),
            yields(
                old(self).source(),
                old(self).widths(),
                old(self).expected(),
                old(self).action(),
                old(self).returned(),
                result,
            ),
    {
        let ghost source = self.inner@;
        let ghost widths = self.widths();
        let ghost k = self.returned();
        let count = self.count_of_least_significant_bits[self.channel_index];
        let width: u8 = count.bit_count() as u8;
        let bit_mask = mask_of_width(width);
        proof {
            lemma_slot_index(
                CHANNELS as int,
                self.pixels_returned_so_far as int,
                self.channel_index as int,
            );
            assert(slot_width(widths, k as int) == width);
            lemma_slot_start_step(widths, k);
            lemma_slot_start_monotone(widths, k, k + 1);
        }
        if self.position >= self.inner.len() {
            return match self.expected_pixels {
                Some(expected) => {
                    proof {
                        let p = self.pixels_returned_so_far as int;
                        let c = self.channel_index as int;
                        let n = CHANNELS as int;
                        let e = expected as int;
                        assert(p < e <==> p * n + c < n * e) by (nonlinear_arith)
                            requires
                                0 <= c < n,
                                0 <= p,
                                0 <= e,
                        ;
                    }
                    if self.pixels_returned_so_far >= expected as u128 {
                        None
                    } else {
                        match self.remaining_bits_action {
                            RemainingBitsAction::Nothing => None,
                            RemainingBitsAction::Zero => {
                                self.advance_channel();
                                assert(0u8 & !bit_mask == 0) by (bit_vector);
                                Some((0, bit_mask))
                            },
                            RemainingBitsAction::Randomize { seed } => {
                                self.advance_channel();
                                let random_byte = self.draw(seed);
                                Some(random_padding_pair(random_byte, count))
                            },
                        }
                    }
                },
                None => None,
            };
        }
        let current: u8 = self.inner[self.position];
        let offset: u8 = self.current_byte_offset;
        let usable: u8 = 8 - offset;
        let ghost index = self.position as int;
        let ghost start = 8 * index + offset;
        let ghost bits_of_source = stream_bits(source);
        assert(start == slot_start(widths, k));
        proof {
            lemma_pixel_of_slot_bounded(
                widths,
                self.pixels_returned_so_far as nat,
                self.channel_index as nat,
                8 * source.len(),
            );
        }
        let mut bits: u8 = 0;
        if width == 0 {
            proof {
                lemma_group_within_mask(bits_of_source, start, 0);
            }
        } else if width <= usable {
            let shift: u8 = usable - width;
            bits = (current >> shift) & bit_mask;
            self.current_byte_offset = offset + width;
            if self.current_byte_offset >= 8 {
                self.position = self.position + 1;
                self.current_byte_offset = 0;
            }
            proof {
                lemma_extract_bits(current, shift, width);
                assert forall|i: u8| i < 8 implies #[trigger] msb_bit(bits, i) == group_bit(
                    bits_of_source,
                    start,
                    width as int,
                    i as int,
                ) by {
                    if i >= 8 - width {
                        lemma_stream_bit(source, index, i - shift);
                    }
                }
                lemma_is_group(bits, bits_of_source, start, width as int);
            }
        } else {
            let from_next: u8 = width - usable;
            let high: u8 = (current & mask_of_width(usable)) << from_next;
            self.position = self.position + 1;
            let mut next: u8 = 0;
            if self.position < self.inner.len() {
                next = self.inner[self.position];
                self.current_byte_offset = from_next;
            } else {
                self.current_byte_offset = 0;
            }
            bits = high | (next >> (8 - from_next));
            proof {
                lemma_straddle_bits(current, next, usable, from_next);
                assert(forall|j: u8| !#[trigger] msb_bit(0u8, j)) by (bit_vector);
                assert forall|i: u8| i < 8 implies #[trigger] msb_bit(bits, i) == group_bit(
                    bits_of_source,
                    start,
                    width as int,
                    i as int,
                ) by {
                    if i >= 8 - width {
                        if i < 8 - from_next {
                            lemma_stream_bit(source, index, i + from_next);
                        } else if index + 1 < source.len() {
                            lemma_stream_bit(source, index + 1, i - (8 - from_next));
                        }
                    }
                }
                lemma_is_group(bits, bits_of_source, start, width as int);
            }
        }
        self.advance_channel();
        Some((bits, bit_mask))
    }

    /// All pairs that are still to come, in order.
    pub fn collect(self) -> (pairs: Vec<(u8, u8)>)
        requires
            self.wf(),
        ensures
            self.returned() + pairs@.len() == if self.returned() <= yielded_count(
                self.widths(),
                self.source().len(),
                self.expected(),
                self.action(),
            ) {
                yielded_count(self.widths(), self.source().len(), self.expected(), self.action())
            } else {
                self.returned()
            },
            forall|i: int|
                0 <= i < pairs@.len() ==> yields(
                    self.source(),
                    self.widths(),
                    self.expected(),
                    self.action(),
                    (self.returned() + i) as nat,
                    Some(#[trigger] pairs@[i]),
                ),
    {
        let ghost source = self.source();
        let ghost widths = self.widths();
        let ghost expected = self.expected();
        let ghost action = self.action();
        let ghost first = self.returned();
        let ghost channels = widths.len();
        let ghost bound = channels * (8 * source.len()) + match expected {
            Some(pixels) => channels * (pixels as nat),
            None => 0,
        };
        let mut separator = self;
        let mut pairs: Vec<(u8, u8)> = Vec::new();
        proof {
            lemma_data_slot_count(widths, source.len());
        }
        loop
            invariant
                separator.wf(),
                separator.source() == source,
                separator.widths() == widths,
                separator.expected() == expected,
                separator.action() == action,
                separator.returned() == first + pairs@.len(),
                channels == widths.len(),
                channels > 0,
                valid_widths(widths),
                bound == channels * (8 * source.len()) + match expected {
                    Some(pixels) => channels * (pixels as nat),
                    None => 0,
                },
                forall|i: int|
                    0 <= i < pairs@.len() ==> yields(
                        source,
                        widths,
                        expected,
                        action,
                        (first + i) as nat,
                        Some(#[trigger] pairs@[i]),
                    ),
            ensures
                yields(source, widths, expected, action, separator.returned(), None),
            decreases bound - separator.returned(),
        {
            let ghost k = separator.returned();
            proof {
                let p = (k as int) / (channels as int);
                let c = (k as int) % (channels as int);
                lemma_fundamental_div_mod(k as int, channels as int);
                assert(0 <= c < channels) by (nonlinear_arith)
                    requires
                        c == (k as int) % (channels as int),
                        channels > 0,
                ;
                assert(p >= 0) by (nonlinear_arith)
                    requires
                        p == (k as int) / (channels as int),
                        channels > 0,
                        k >= 0,
                ;
                assert(k == p * channels + c) by (nonlinear_arith)
                    requires
                        k == channels * p + c,
                ;
                if slot_in_data(widths, source.len(), k) {
                    lemma_pixel_of_slot_bounded(widths, p as nat, c as nat, 8 * source.len());
                    assert(k < channels * (8 * source.len())) by (nonlinear_arith)
                        requires
                            k == p * channels + c,
                            0 <= c < channels,
                            0 <= p < 8 * source.len(),
                    ;
                }
            }
            match separator.next() {
                Some(pair) => {
                    pairs.push(pair);
                },
                None => {
                    break ;
                },
            }
        }
        proof {
            let last = separator.returned();
            let in_data = data_slot_count(widths, source.len());
            let total = yielded_count(widths, source.len(), expected, action);
            assert(!slot_in_data(widths, source.len(), last));
            assert(last >= in_data);
            if pairs@.len() > 0 {
                let i = pairs@.len() - 1;
                assert(yields(source, widths, expected, action, (first + i) as nat, Some(pairs@[i])));
                assert(last - 1 == first + i);
            }
        }
        pairs
    }
}

/// Separating a byte stream into per-channel bit groups, for pixels of
/// three channels and of four.
pub trait PixelChannelSeparatorIteratorExt<'a>: Sized {
    /// The bytes that are separated.
    spec fn source_bytes(self) -> Seq<u8>;

    /// A separator over the stream for the channels red, green and blue.
    fn separate_pixel_channel_rgb(
        self,
        count_of_least_significant_bits_in_red: CountOfLeastSignificantBits,
        count_of_least_significant_bits_in_green: CountOfLeastSignificantBits,
        count_of_least_significant_bits_in_blue: CountOfLeastSignificantBits,
        expected_pixels: Option<usize>,
        remaining_bits_action: RemainingBitsAction,
    ) -> (separator: PixelChannelSeparator<'a, 3>)
        requires
            count_of_least_significant_bits_in_red.bits()
                + count_of_least_significant_bits_in_green.bits()
                + count_of_least_significant_bits_in_blue.bits() > 0,
        ensures
            separator.wf(),
            separator.source() == self.source_bytes(),
            separator.widths() == rgb_widths(
                count_of_least_significant_bits_in_red,
                count_of_least_significant_bits_in_green,
                count_of_least_significant_bits_in_blue,
            ),
            separator.returned() == 0,
            separator.expected() == expected_pixels,
            separator.action() == remaining_bits_action,
    ;

    /// A separator over the stream for the channels red, green, blue and
    /// alpha.
    fn separate_pixel_channel_rgba(
        self,
        count_of_least_significant_bits_in_red: CountOfLeastSignificantBits,
        count_of_least_significant_bits_in_green: CountOfLeastSignificantBits,
        count_of_least_significant_bits_in_blue: CountOfLeastSignificantBits,
        count_of_least_significant_bits_in_alpha: CountOfLeastSignificantBits,
        expected_pixels: Option<usize>,
        remaining_bits_action: RemainingBitsAction,
    ) -> (separator: PixelChannelSeparator<'a, 4>)
        requires
            count_of_least_significant_bits_in_red.bits()
                + count_of_least_significant_bits_in_green.bits()
                + count_of_least_significant_bits_in_blue.bits()
                + count_of_least_significant_bits_in_alpha.bits() > 0,
        ensures
            separator.wf(),
            separator.source() == self.source_bytes(),
            separator.widths() == rgba_widths(
                count_of_least_significant_bits_in_red,
                count_of_least_significant_bits_in_green,
                count_of_least_significant_bits_in_blue,
                count_of_least_significant_bits_in_alpha,
            ),
            separator.returned() == 0,
            separator.expected() == expected_pixels,
            separator.action() == remaining_bits_action,
    ;
}

impl<'a> PixelChannelSeparatorIteratorExt<'a> for &'a [u8] {
    open spec fn source_bytes(self) -> Seq<u8> {
        self@
    }

    fn separate_pixel_channel_rgb(
        self,
        count_of_least_significant_bits_in_red: CountOfLeastSignificantBits,
        count_of_least_significant_bits_in_green: CountOfLeastSignificantBits,
        count_of_least_significant_bits_in_blue: CountOfLeastSignificantBits,
        expected_pixels: Option<usize>,
        remaining_bits_action: RemainingBitsAction,
    ) -> (separator: PixelChannelSeparator<'a, 3>) {
        let counts = [
            count_of_least_significant_bits_in_red,
            count_of_least_significant_bits_in_green,
            count_of_least_significant_bits_in_blue,
        ];
        proof {
            lemma_rgb_widths(
                count_of_least_significant_bits_in_red,
                count_of_least_significant_bits_in_green,
                count_of_least_significant_bits_in_blue,
            );
            assert(counts@ =~= seq![
                count_of_least_significant_bits_in_red,
                count_of_least_significant_bits_in_green,
                count_of_least_significant_bits_in_blue,
            ]);
        }
        PixelChannelSeparator::new(self, counts, expected_pixels, remaining_bits_action)
    }

    fn separate_pixel_channel_rgba(
        self,
        count_of_least_significant_bits_in_red: CountOfLeastSignificantBits,
        count_of_least_significant_bits_in_green: CountOfLeastSignificantBits,
        count_of_least_significant_bits_in_blue: CountOfLeastSignificantBits,
        count_of_least_significant_bits_in_alpha: CountOfLeastSignificantBits,
        expected_pixels: Option<usize>,
        remaining_bits_action: RemainingBitsAction,
    ) -> (separator: PixelChannelSeparator<'a, 4>) {
        let counts = [
            count_of_least_significant_bits_in_red,
            count_of_least_significant_bits_in_green,
            count_of_least_significant_bits_in_blue,
            count_of_least_significant_bits_in_alpha,
        ];
        proof {
            lemma_rgba_widths(
                count_of_least_significant_bits_in_red,
                count_of_least_significant_bits_in_green,
                count_of_least_significant_bits_in_blue,
                count_of_least_significant_bits_in_alpha,
            );
            assert(counts@ =~= seq![
                count_of_least_significant_bits_in_red,
                count_of_least_significant_bits_in_green,
                count_of_least_significant_bits_in_blue,
                count_of_least_significant_bits_in_alpha,
            ]);
        }
        PixelChannelSeparator::new(self, counts, expected_pixels, remaining_bits_action)
    }
}

} // verus!
