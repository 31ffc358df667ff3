//! The channel bit combinator: the low bits of a run of channel bytes, put
//! back together into a byte stream.

use crate::bit_width::CountOfLeastSignificantBits;
use crate::bits::{
    bits_per_pixel, combined_byte, combined_len, gathered_bits, group_bit, lemma_extract_bits,
    lemma_gathered_bit, lemma_is_group, lemma_or_bits, lemma_shift_left_bits,
    lemma_slot_start_monotone, lemma_slot_start_step, mask_of_width, msb_bit, slot_start,
    slot_width,
};
use crate::bits::combined;
use crate::separator::{channel_widths, lemma_rgb_widths, lemma_rgba_widths, rgb_widths, rgba_widths};
use vstd::prelude::*;

verus! {

/// A combinator over a borrowed run of channel bytes and `CHANNELS` channel
/// widths.
///
/// It keeps a cursor into the run (a byte position and the number of that
/// byte's payload bits already taken) and the channel whose turn it is, and
/// yields one rebuilt byte per call of [`PixelChannelCombinator::next`].
pub struct PixelChannelCombinator<'a, const CHANNELS: usize> {
    inner: &'a [u8],
    position: usize,
    channel_index: usize,
    current_byte_offset: u8,
    count_of_least_significant_bits: [CountOfLeastSignificantBits; CHANNELS],
}

impl<'a, const CHANNELS: usize> PixelChannelCombinator<'a, CHANNELS> {
    /// The channel bytes that are being read.
    pub closed spec fn source(&self) -> Seq<u8> {
        self.inner@
    }

    /// The channel widths, in bits.
    pub closed spec fn widths(&self) -> Seq<nat> {
        channel_widths(self.count_of_least_significant_bits@)
    }

    /// The number of payload bits taken so far.
    pub closed spec fn consumed(&self) -> nat {
        slot_start(self.widths(), self.position as nat) + self.current_byte_offset as nat
    }

    /// The number of bytes yielded so far, which is the index of the byte
    /// that comes next.
    pub closed spec fn returned(&self) -> nat {
        (self.consumed() + 7) / 8
    }

    /// The combinator's invariant: the cursor stands at a byte boundary of
    /// the rebuilt stream, or at the end of the channel bytes.
    pub closed spec fn wf(&self) -> bool {
        &&& CHANNELS > 0
        &&& self.widths().len() == CHANNELS
        &&& self.position <= self.inner@.len()
        &&& self.channel_index == self.position % CHANNELS
        &&& self.position == self.inner@.len() ==> self.current_byte_offset == 0
        &&& self.current_byte_offset == 0 || self.current_byte_offset < slot_width(
            self.widths(),
            self.position as int,
        )
        &&& self.consumed() % 8 == 0 || self.position == self.inner@.len()
    }

    /// A combinator at the start of `inner`.
    ///
    /// A pixel must carry at least one bit: with all widths zero there is
    /// nothing to read.
    pub fn new(
        inner: &'a [u8],
        count_of_least_significant_bits: [CountOfLeastSignificantBits; CHANNELS],
    ) -> (combinator: Self)
        requires
            bits_per_pixel(channel_widths(count_of_least_significant_bits@)) > 0,
        ensures
            combinator.wf(),
            combinator.source() == inner@,
            combinator.widths() == channel_widths(count_of_least_significant_bits@),
            combinator.returned() == 0,
    {
        let combinator = Self {
            inner,
            position: 0,
            channel_index: 0,
            current_byte_offset: 0,
            count_of_least_significant_bits,
        };
        proof {
            let widths = channel_widths(count_of_least_significant_bits@);
            assert(widths.len() == CHANNELS);
            assert(CHANNELS > 0) by {
                if CHANNELS == 0 {
                    assert(slot_start(widths, 0) == 0);
                }
            }
            assert(slot_start(widths, 0) == 0);
        }
        combinator
    }

    /// Moves on to the next channel byte.
    fn advance_byte(&mut self)
        requires
            CHANNELS > 0,
            old(self).position < old(self).inner@.len(),
            old(self).position < usize::MAX,
            old(self).channel_index == old(self).position % CHANNELS,
        ensures
            final(self).position == old(self).position + 1,
            final(self).channel_index == final(self).position % CHANNELS,
            final(self).current_byte_offset == 0,
            final(self).inner == old(self).inner,
            final(self).count_of_least_significant_bits == old(
                self,
            ).count_of_least_significant_bits,
    {
        proof {
            let p = self.position as int;
            let n = CHANNELS as int;
            if p % n + 1 == n {
                assert((p + 1) % n == 0) by (nonlinear_arith)
                    requires
                        n > 0,
                        p >= 0,
                        p % n + 1 == n,
                ;
            } else {
                assert((p + 1) % n == p % n + 1) by (nonlinear_arith)
                    requires
                        n > 0,
                        p >= 0,
                        p % n + 1 < n,
                ;
            }
        }
        self.position = self.position + 1;
        self.current_byte_offset = 0;
        if self.channel_index + 1 == CHANNELS {
            self.channel_index = 0;
        } else {
            self.channel_index = self.channel_index + 1;
        }
    }

    /// The next rebuilt byte, or `None` when the sequence has ended.
    ///
    /// The byte is filled from its most significant bit down with the
    /// payload bits of the channel bytes, in order. Where the channel bytes
    /// run out inside a byte, that byte is yielded with zeros in its
    /// remaining bits; where they run out at a byte boundary, the sequence
    /// ends.
    pub fn next(&mut self) -> (result: Option<u8>)
        requires
            old(self).wf(),
        ensures
            final(self).wf(),
            final(self).source() == old(self).source(),
            final(self).widths() == old(self).widths(),
            old(self).returned() < combined_len(old(self).source(), old(self).widths()) ==> result
                == Some(combined_byte(old(self).source(), old(self).widths(), old(self).returned()))
                && final(self).returned() == old(self).returned() + 1,
            old(self).returned() >= combined_len(old(self).source(), old(self).widths())
                ==> result is None && final(self).returned() == old(self).returned(),
    {
        let ghost source = self.inner@;
        let ghost widths = self.widths();
        let ghost m = self.returned() as int;
        let ghost gathered = gathered_bits(source, widths);
        let ghost total = slot_start(widths, source.len());
        proof {
            lemma_slot_start_monotone(widths, self.position as nat, source.len());
            crate::bits::lemma_gathered_prefix_len(source, widths, source.len());
        }
        if self.position >= self.inner.len() {
            return None;
        }
        proof {
            lemma_slot_start_step(widths, self.position as nat);
            lemma_slot_start_monotone(widths, (self.position + 1) as nat, source.len());
        }
        let mut output_byte: u8 = 0;
        let mut collected: u8 = 0;
        assert(forall|i: u8| !#[trigger] msb_bit(0u8, i)) by (bit_vector);
        while collected < 8
            invariant
                CHANNELS > 0,
                source == old(self).source(),
                widths == old(self).widths(),
                m == old(self).returned(),
                old(self).consumed() % 8 == 0,
                m < combined_len(source, widths) || collected == 0,
                widths == self.widths(),
                widths.len() == CHANNELS,
                source == self.inner@,
                gathered == gathered_bits(source, widths),
                gathered.len() == total,
                total == slot_start(widths, source.len()),
                self.position <= source.len(),
                self.channel_index == self.position % CHANNELS,
                self.position == source.len() ==> self.current_byte_offset == 0,
                self.current_byte_offset == 0 || self.current_byte_offset < slot_width(
                    widths,
                    self.position as int,
                ),
                collected <= 8,
                8 * m + collected == self.consumed(),
                self.consumed() <= total,
                forall|c: int| 0 <= c < widths.len() ==> #[trigger] widths[c] <= 8,
                forall|i: u8|
                    i < 8 ==> #[trigger] msb_bit(output_byte, i) == (i < collected && gathered[8 * m
                        + i]),
            decreases source.len() - self.position, 8 - collected,
        {
            if self.position >= self.inner.len() {
                if collected == 0 {
                    return None;
                } else {
                    proof {
                        assert forall|i: u8| i < 8 implies #[trigger] msb_bit(output_byte, i)
                            == group_bit(gathered, 8 * m, 8, i as int) by {}
                        lemma_is_group(output_byte, gathered, 8 * m, 8);
                    }
                    return Some(output_byte);
                }
            }
            let current: u8 = self.inner[self.position];
            let providing: u8 = self.count_of_least_significant_bits[self.channel_index].bit_count() as u8;
            let offset: u8 = self.current_byte_offset;
            let remaining: u8 = providing - offset;
            let needed: u8 = 8 - collected;
            let ghost j = self.position as nat;
            let ghost before = output_byte;
            proof {
                assert(slot_width(widths, j as int) == providing);
                lemma_slot_start_step(widths, j);
                lemma_slot_start_monotone(widths, j + 1, source.len());
            }
            if remaining > needed {
                let shift: u8 = remaining - needed;
                let piece: u8 = (current >> shift) & mask_of_width(needed);
                output_byte = output_byte | piece;
                proof {
                    lemma_extract_bits(current, shift, needed);
                    lemma_or_bits(before, piece);
                    assert forall|i: u8| i < 8 implies #[trigger] msb_bit(output_byte, i)
                        == gathered[8 * m + i] by {
                        if i >= collected {
                            lemma_gathered_bit(
                                source,
                                widths,
                                source.len(),
                                j,
                                (offset + i - collected) as nat,
                            );
                        }
                    }
                }
                collected = 8;
                self.current_byte_offset = offset + needed;
            } else if remaining > 0 {
                let shift: u8 = needed - remaining;
                let piece: u8 = current & mask_of_width(remaining);
                let shifted: u8 = piece << shift;
                output_byte = output_byte | shifted;
                proof {
                    assert(current >> 0u8 == current) by (bit_vector);
                    lemma_extract_bits(current, 0, remaining);
                    lemma_shift_left_bits(piece, shift);
                    lemma_or_bits(before, shifted);
                    assert forall|i: u8| i < 8 implies #[trigger] msb_bit(output_byte, i) == (i
                        < collected + remaining && gathered[8 * m + i]) by {
                        if collected <= i && i < collected + remaining {
                            lemma_gathered_bit(
                                source,
                                widths,
                                source.len(),
                                j,
                                (offset + i - collected) as nat,
                            );
                            assert(msb_bit(shifted, i) == msb_bit(piece, (i + shift) as u8));
                        }
                    }
                }
                collected = collected + remaining;
                self.advance_byte();
            } else {
                self.advance_byte();
            }
        }
        proof {
            assert forall|i: u8| i < 8 implies #[trigger] msb_bit(output_byte, i) == group_bit(
                gathered,
                8 * m,
                8,
                i as int,
            ) by {}
            lemma_is_group(output_byte, gathered, 8 * m, 8);
        }
        Some(output_byte)
    }

    /// All bytes that are still to come, in order.
    pub fn collect(self) -> (bytes: Vec<u8>)
        requires
            self.wf(),
        ensures
            bytes@ == combined(self.source(), self.widths()).skip(self.returned() as int),
    {
        let ghost source = self.source();
        let ghost widths = self.widths();
        let ghost first = self.returned();
        let ghost all = combined(source, widths);
        proof {
            let position = self.position as nat;
            if position < source.len() {
                lemma_slot_start_step(widths, position);
                lemma_slot_start_monotone(widths, position + 1, source.len());
            }
            assert(first <= all.len());
        }
        let mut combinator = self;
        let mut bytes: Vec<u8> = Vec::new();
        loop
            invariant
                first <= all.len(),
                combinator.wf(),
                combinator.source() == source,
                combinator.widths() == widths,
                all == combined(source, widths),
                combinator.returned() == first + bytes@.len(),
                first + bytes@.len() <= all.len() || bytes@.len() == 0,
                forall|i: int| 0 <= i < bytes@.len() ==> #[trigger] bytes@[i] == all[first + i],
            ensures
                combinator.returned() >= all.len(),
            decreases all.len() - combinator.returned(),
        {
            match combinator.next() {
                Some(byte) => {
                    bytes.push(byte);
                },
                None => {
                    break ;
                },
            }
        }
        assert(bytes@ =~= all.skip(first as int));
        bytes
    }
}

/// Putting the low bits of channel bytes back together, for pixels of
/// three channels and of four.
pub trait PixelChannelCombinatorIteratorExt<'a>: Sized {
    /// The channel bytes that are read.
    spec fn channel_bytes(self) -> Seq<u8>;

    /// A combinator over the bytes for the channels red, green and blue.
    fn combine_pixel_channel_rgb(
        self,
        count_of_least_significant_bits_in_red: CountOfLeastSignificantBits,
        count_of_least_significant_bits_in_green: CountOfLeastSignificantBits,
        count_of_least_significant_bits_in_blue: CountOfLeastSignificantBits,
    ) -> (combinator: PixelChannelCombinator<'a, 3>)
        requires
            count_of_least_significant_bits_in_red.bits()
                + count_of_least_significant_bits_in_green.bits()
                + count_of_least_significant_bits_in_blue.bits() > 0,
        ensures
            combinator.wf(),
            combinator.source() == self.channel_bytes(),
            combinator.widths() == rgb_widths(
                count_of_least_significant_bits_in_red,
                count_of_least_significant_bits_in_green,
                count_of_least_significant_bits_in_blue,
            ),
            combinator.returned() == 0,
    ;

    /// A combinator over the bytes for the channels red, green, blue and
    /// alpha.
    fn combine_pixel_channel_rgba(
        self,
        count_of_least_significant_bits_in_red: CountOfLeastSignificantBits,
        count_of_least_significant_bits_in_green: CountOfLeastSignificantBits,
        count_of_least_significant_bits_in_blue: CountOfLeastSignificantBits,
        count_of_least_significant_bits_in_alpha: CountOfLeastSignificantBits,
    ) -> (combinator: PixelChannelCombinator<'a, 4>)
        requires
            count_of_least_significant_bits_in_red.bits()
                + count_of_least_significant_bits_in_green.bits()
                + count_of_least_significant_bits_in_blue.bits()
                + count_of_least_significant_bits_in_alpha.bits() > 0,
        ensures
            combinator.wf(),
            combinator.source() == self.channel_bytes(),
            combinator.widths() == rgba_widths(
                count_of_least_significant_bits_in_red,
                count_of_least_significant_bits_in_green,
                count_of_least_significant_bits_in_blue,
                count_of_least_significant_bits_in_alpha,
            ),
            combinator.returned() == 0,
    ;
}

impl<'a> PixelChannelCombinatorIteratorExt<'a> for &'a [u8] {
    open spec fn channel_bytes(self) -> Seq<u8> {
        self@
    }

    fn combine_pixel_channel_rgb(
        self,
        count_of_least_significant_bits_in_red: CountOfLeastSignificantBits,
        count_of_least_significant_bits_in_green: CountOfLeastSignificantBits,
        count_of_least_significant_bits_in_blue: CountOfLeastSignificantBits,
    ) -> (combinator: PixelChannelCombinator<'a, 3>) {
        let counts = [
            count_of_least_significant_bits_in_red,
            count_of_least_significant_bits_in_green,
            count_of_least_significant_bits_in_blue,
        ];
        proof {
            lemma_rgb_widths(
                count_of_least_significant_bits_in_red,
                count_of_least_significant_bits_in_green,
                count_of_least_significant_bits_in_blue,
            );
            assert(counts@ =~= seq![
                count_of_least_significant_bits_in_red,
                count_of_least_significant_bits_in_green,
                count_of_least_significant_bits_in_blue,
            ]);
        }
        PixelChannelCombinator::new(self, counts)
    }

    fn combine_pixel_channel_rgba(
        self,
        count_of_least_significant_bits_in_red: CountOfLeastSignificantBits,
        count_of_least_significant_bits_in_green: CountOfLeastSignificantBits,
        count_of_least_significant_bits_in_blue: CountOfLeastSignificantBits,
        count_of_least_significant_bits_in_alpha: CountOfLeastSignificantBits,
    ) -> (combinator: PixelChannelCombinator<'a, 4>) {
        let counts = [
            count_of_least_significant_bits_in_red,
            count_of_least_significant_bits_in_green,
            count_of_least_significant_bits_in_blue,
            count_of_least_significant_bits_in_alpha,
        ];
        proof {
            lemma_rgba_widths(
                count_of_least_significant_bits_in_red,
                count_of_least_significant_bits_in_green,
                count_of_least_significant_bits_in_blue,
                count_of_least_significant_bits_in_alpha,
            );
            assert(counts@ =~= seq![
                count_of_least_significant_bits_in_red,
                count_of_least_significant_bits_in_green,
                count_of_least_significant_bits_in_blue,
                count_of_least_significant_bits_in_alpha,
            ]);
        }
        PixelChannelCombinator::new(self, counts)
    }
}

} // verus!
