//! What holds of insertion, extraction and capacity, whatever the image,
//! the payload and the settings.

use crate::bit_width::CountOfLeastSignificantBits;
use crate::bits::{
    bits_per_pixel, combined, data_slot_count, is_data_slot_count, lemma_data_slot_count, combined_byte, combined_len, gathered_bits, group, group_bit,
    lemma_gathered_bit, lemma_group_bits, lemma_group_within_mask, lemma_is_group,
    lemma_overwrite_bits, lemma_slot_of_bit, lemma_slot_start_at_most_bytes,
    lemma_slot_start_monotone, lemma_slot_start_of_pixel, lemma_stream_bit, low_mask,
    low_mask_u8, msb_bit, slot_in_data, slot_start, slot_width, stream_bits, valid_widths,
};
use crate::config::{ExtractConfig, InsertConfig, RemainingBitsAction};
use crate::framing::{framed, length_prefix, lemma_length_prefix_round_trip};
use crate::image::{
    data_capacity, extraction, inserted, insertion_outcome, pixels_needed, slot_after_insertion,
    stream_inserted, ExtractDataError, Image, InsertDataError,
};
use crate::separator::{lemma_rgb_widths, lemma_rgba_widths, yielded_count};
use vstd::arithmetic::div_mod::{lemma_fundamental_div_mod, lemma_fundamental_div_mod_converse};
use vstd::prelude::*;

verus! {

/// An insertion leaves the bits above a slot's width as they were: of
/// every channel byte, only the low bits that the settings give to its
/// channel can change.
pub proof fn lemma_insertion_keeps_high_bits(
    before: Seq<u8>,
    after: Seq<u8>,
    payload: Seq<u8>,
    widths: Seq<nat>,
    action: RemainingBitsAction,
    k: int,
)
    requires
        widths.len() > 0,
        forall|c: int| 0 <= c < widths.len() ==> #[trigger] widths[c] <= 8,
        inserted(before, after, payload, widths, action),
        0 <= k < before.len(),
    ensures
        after[k] & !low_mask(slot_width(widths, k)) == before[k] & !low_mask(slot_width(widths, k)),
{
    let width = slot_width(widths, k);
    assert(width == widths[k % (widths.len() as int)]);
    let mask = low_mask(width);
    let stream = framed(payload);
    let old_byte = before[k];
    let new_byte = after[k];
    assert(slot_after_insertion(old_byte, new_byte, stream, widths, action, k as nat));
    if slot_in_data(widths, stream.len(), k as nat) {
        let value = group(
            stream_bits(stream),
            slot_start(widths, k as nat) as int,
            width as int,
        );
        lemma_group_within_mask(stream_bits(stream), slot_start(widths, k as nat) as int, width);
        assert(((old_byte & !mask) | value) & !mask == old_byte & !mask) by (bit_vector)
            requires
                value & !mask == 0,
        ;
    } else {
        assert((old_byte & !mask) & !mask == old_byte & !mask) by (bit_vector);
    }
}

/// More pixels, or more payload bits in a pixel, never give less
/// capacity.
pub proof fn lemma_capacity_monotone(pixels: nat, bits: nat, more_pixels: nat, more_bits: nat)
    requires
        pixels <= more_pixels,
        bits <= more_bits,
    ensures
        data_capacity(pixels, bits) <= data_capacity(more_pixels, more_bits),
{
    assert(pixels * bits <= more_pixels * more_bits) by (nonlinear_arith)
        requires
            pixels <= more_pixels,
            bits <= more_bits,
    ;
}

/// Wider channels never give a pixel fewer payload bits.
pub proof fn lemma_slot_start_monotone_in_widths(widths: Seq<nat>, wider: Seq<nat>, k: nat)
    requires
        widths.len() == wider.len(),
        widths.len() > 0,
        forall|c: int| 0 <= c < widths.len() ==> #[trigger] widths[c] <= wider[c],
    ensures
        slot_start(widths, k) <= slot_start(wider, k),
    decreases k,
{
    if k > 0 {
        lemma_slot_start_monotone_in_widths(widths, wider, (k - 1) as nat);
        let c = (k - 1) % (widths.len() as int);
        assert(widths[c] <= wider[c]);
    }
}

/// Raising the width of any channel, and taking an image of at least as
/// many pixels, never lowers the capacity.
pub proof fn lemma_capacity_monotone_in_config(
    pixels: nat,
    config: InsertConfig,
    more_pixels: nat,
    wider: InsertConfig,
    has_alpha: bool,
)
    requires
        pixels <= more_pixels,
        config.count_of_least_significant_bits_in_red.bits()
            <= wider.count_of_least_significant_bits_in_red.bits(),
        config.count_of_least_significant_bits_in_green.bits()
            <= wider.count_of_least_significant_bits_in_green.bits(),
        config.count_of_least_significant_bits_in_blue.bits()
            <= wider.count_of_least_significant_bits_in_blue.bits(),
        config.count_of_least_significant_bits_in_alpha.bits()
            <= wider.count_of_least_significant_bits_in_alpha.bits(),
    ensures
        data_capacity(pixels, bits_per_pixel(config.widths(has_alpha))) <= data_capacity(
            more_pixels,
            bits_per_pixel(wider.widths(has_alpha)),
        ),
{
    lemma_rgb_widths(
        config.count_of_least_significant_bits_in_red,
        config.count_of_least_significant_bits_in_green,
        config.count_of_least_significant_bits_in_blue,
    );
    lemma_rgb_widths(
        wider.count_of_least_significant_bits_in_red,
        wider.count_of_least_significant_bits_in_green,
        wider.count_of_least_significant_bits_in_blue,
    );
    lemma_rgba_widths(
        config.count_of_least_significant_bits_in_red,
        config.count_of_least_significant_bits_in_green,
        config.count_of_least_significant_bits_in_blue,
        config.count_of_least_significant_bits_in_alpha,
    );
    lemma_rgba_widths(
        wider.count_of_least_significant_bits_in_red,
        wider.count_of_least_significant_bits_in_green,
        wider.count_of_least_significant_bits_in_blue,
        wider.count_of_least_significant_bits_in_alpha,
    );
    lemma_capacity_monotone(
        pixels,
        bits_per_pixel(config.widths(has_alpha)),
        more_pixels,
        bits_per_pixel(wider.widths(has_alpha)),
    );
}

/// Settings that give no channel a bit are refused, by insertion and by
/// extraction, whatever the image and the payload.
pub proof fn lemma_no_bits_rejected(
    pixel_count: nat,
    payload_len: nat,
    channel_bytes: Seq<u8>,
    insert_config: InsertConfig,
    extract_config: ExtractConfig,
    has_alpha: bool,
)
    requires
        insert_config.count_of_least_significant_bits_in_red == CountOfLeastSignificantBits::Zero,
        insert_config.count_of_least_significant_bits_in_green == CountOfLeastSignificantBits::Zero,
        insert_config.count_of_least_significant_bits_in_blue == CountOfLeastSignificantBits::Zero,
        insert_config.count_of_least_significant_bits_in_alpha == CountOfLeastSignificantBits::Zero,
        extract_config.count_of_least_significant_bits_in_red == CountOfLeastSignificantBits::Zero,
        extract_config.count_of_least_significant_bits_in_green
            == CountOfLeastSignificantBits::Zero,
        extract_config.count_of_least_significant_bits_in_blue == CountOfLeastSignificantBits::Zero,
        extract_config.count_of_least_significant_bits_in_alpha
            == CountOfLeastSignificantBits::Zero,
    ensures
        insertion_outcome(pixel_count, payload_len, insert_config.widths(has_alpha)) == Err::<
            (),
            InsertDataError,
        >(InsertDataError::InvalidConfiguration),
        extraction(channel_bytes, extract_config.widths(has_alpha)) == Err::<
            Seq<u8>,
            ExtractDataError,
        >(ExtractDataError::InvalidConfiguration),
{
    let zero = CountOfLeastSignificantBits::Zero;
    lemma_rgb_widths(zero, zero, zero);
    lemma_rgba_widths(zero, zero, zero, zero);
}

/// After an insertion the payload bits that the channel bytes carry begin
/// with the bits of the inserted stream.
pub proof fn lemma_inserted_bits_are_gathered(
    before: Seq<u8>,
    after: Seq<u8>,
    stream: Seq<u8>,
    widths: Seq<nat>,
    action: RemainingBitsAction,
    i: nat,
)
    requires
        widths.len() > 0,
        forall|c: int| 0 <= c < widths.len() ==> #[trigger] widths[c] <= 8,
        stream_inserted(before, after, stream, widths, action),
        8 * stream.len() <= slot_start(widths, before.len()),
        i < 8 * stream.len(),
    ensures
        gathered_bits(after, widths).len() == slot_start(widths, before.len()),
        gathered_bits(after, widths)[i as int] == stream_bits(stream)[i as int],
{
    let place = lemma_slot_of_bit(widths, after.len(), i);
    let j = place.0;
    let t = place.1;
    let width = slot_width(widths, j as int);
    assert(width == widths[(j as int) % (widths.len() as int)]);
    let start = slot_start(widths, j) as int;
    let bits = stream_bits(stream);
    let value = group(bits, start, width as int);
    let index = (8 - width + t) as u8;
    lemma_gathered_bit(after, widths, after.len(), j, t);
    assert(slot_in_data(widths, stream.len(), j));
    assert(slot_after_insertion(before[j as int], after[j as int], stream, widths, action, j));
    assert(low_mask(width) == low_mask_u8(width as u8));
    lemma_overwrite_bits(before[j as int], value, width as u8);
    lemma_group_bits(bits, start, width as int);
    assert(msb_bit(after[j as int], index) == msb_bit(value, index));
    assert(msb_bit(value, index) == group_bit(bits, start, width as int, index as int));
}

/// After an insertion the combinator rebuilds the inserted stream, byte
/// by byte.
pub proof fn lemma_inserted_stream_is_combined(
    before: Seq<u8>,
    after: Seq<u8>,
    stream: Seq<u8>,
    widths: Seq<nat>,
    action: RemainingBitsAction,
    m: nat,
)
    requires
        widths.len() > 0,
        forall|c: int| 0 <= c < widths.len() ==> #[trigger] widths[c] <= 8,
        stream_inserted(before, after, stream, widths, action),
        8 * stream.len() <= slot_start(widths, before.len()),
        m < stream.len(),
    ensures
        m < combined_len(after, widths),
        combined(after, widths)[m as int] == stream[m as int],
{
    let gathered = gathered_bits(after, widths);
    let byte = stream[m as int];
    assert forall|i: u8| i < 8 implies #[trigger] msb_bit(byte, i) == group_bit(
        gathered,
        8 * (m as int),
        8,
        i as int,
    ) by {
        lemma_inserted_bits_are_gathered(before, after, stream, widths, action, (8 * m + i) as nat);
        lemma_stream_bit(stream, m as int, i as int);
    }
    lemma_inserted_bits_are_gathered(before, after, stream, widths, action, 8 * m);
    lemma_is_group(byte, gathered, 8 * (m as int), 8);
}

/// What was inserted is extracted again: where the payload and its length
/// prefix fit into the payload bits of the channel bytes, an extraction
/// with the widths of the insertion gives the payload, whatever the policy
/// for the remaining slots.
pub proof fn lemma_round_trip(
    before: Seq<u8>,
    after: Seq<u8>,
    payload: Seq<u8>,
    widths: Seq<nat>,
    action: RemainingBitsAction,
)
    requires
        valid_widths(widths),
        before.len() <= usize::MAX,
        payload.len() * 8 + 128 <= slot_start(widths, before.len()),
        inserted(before, after, payload, widths, action),
    ensures
        extraction(after, widths) == Ok::<Seq<u8>, ExtractDataError>(payload),
{
    let stream = framed(payload);
    let rebuilt = combined(after, widths);
    lemma_slot_start_at_most_bytes(widths, before.len());
    lemma_length_prefix_round_trip(payload.len());
    assert(stream.len() == 16 + payload.len());
    assert forall|m: int| 0 <= m < stream.len() implies m < rebuilt.len() && rebuilt[m]
        == stream[m] by {
        lemma_inserted_stream_is_combined(before, after, stream, widths, action, m as nat);
    }
    assert(rebuilt.len() >= stream.len()) by {
        if stream.len() > 0 {
            lemma_inserted_stream_is_combined(
                before,
                after,
                stream,
                widths,
                action,
                (stream.len() - 1) as nat,
            );
        }
    }
    assert(rebuilt.subrange(0, 16) =~= length_prefix(payload.len()));
    assert(rebuilt.subrange(16, 16 + payload.len() as int) =~= payload);
}

/// What `insert_data` has hidden, `extract_data` finds: for every image,
/// every payload with `len * 8 + 128` at most the payload bits of the
/// image, and equal channel widths on both sides, the insertion is
/// accepted and the extraction from the image that it leaves gives the
/// payload.
pub proof fn lemma_extract_after_insert(
    before: Image,
    after: Image,
    payload: Seq<u8>,
    insert_config: InsertConfig,
    extract_config: ExtractConfig,
)
    requires
        before.wf(),
        after.has_alpha() == before.has_alpha(),
        extract_config.widths(after.has_alpha()) == insert_config.widths(before.has_alpha()),
        payload.len() * 8 + 128 <= before.pixel_count() * bits_per_pixel(
            insert_config.widths(before.has_alpha()),
        ),
        inserted(
            before.pixels(),
            after.pixels(),
            payload,
            insert_config.widths(before.has_alpha()),
            insert_config.remaining_bits_action,
        ),
    ensures
        insertion_outcome(
            before.pixel_count(),
            payload.len(),
            insert_config.widths(before.has_alpha()),
        ) == Ok::<(), InsertDataError>(()),
        extraction(after.pixels(), extract_config.widths(after.has_alpha())) == Ok::<
            Seq<u8>,
            ExtractDataError,
        >(payload),
{
    let widths = insert_config.widths(before.has_alpha());
    let pixel_count = before.pixel_count();
    before.lemma_pixels_fit();
    lemma_rgb_widths(
        insert_config.count_of_least_significant_bits_in_red,
        insert_config.count_of_least_significant_bits_in_green,
        insert_config.count_of_least_significant_bits_in_blue,
    );
    lemma_rgba_widths(
        insert_config.count_of_least_significant_bits_in_red,
        insert_config.count_of_least_significant_bits_in_green,
        insert_config.count_of_least_significant_bits_in_blue,
        insert_config.count_of_least_significant_bits_in_alpha,
    );
    assert(bits_per_pixel(widths) > 0) by (nonlinear_arith)
        requires
            128 <= pixel_count * bits_per_pixel(widths),
    ;
    lemma_slot_start_of_pixel(widths, pixel_count, 0);
    assert(slot_start(widths, 0) == 0);
    assert(pixel_count * widths.len() == before.pixels().len());
    lemma_round_trip(
        before.pixels(),
        after.pixels(),
        payload,
        widths,
        insert_config.remaining_bits_action,
    );
}

/// Without expected pixels, or without a policy that fills, the separator
/// yields the slots that begin inside the stream and then ends.
pub proof fn lemma_yields_data_slots_only(
    widths: Seq<nat>,
    byte_count: nat,
    expected: Option<usize>,
    action: RemainingBitsAction,
)
    requires
        expected is None || action == RemainingBitsAction::Nothing,
    ensures
        yielded_count(widths, byte_count, expected, action) == data_slot_count(widths, byte_count),
{
}

/// The pairs of a stream reach into exactly as many pixels as the bits of
/// the stream need: `len * 8` over the payload bits of a pixel, rounded
/// up.
pub proof fn lemma_separated_pixel_count(widths: Seq<nat>, byte_count: nat)
    requires
        valid_widths(widths),
    ensures
        (data_slot_count(widths, byte_count) + widths.len() - 1) / (widths.len() as int) == (8
            * byte_count + bits_per_pixel(widths) - 1) / (bits_per_pixel(widths) as int),
{
    let pairs = data_slot_count(widths, byte_count) as int;
    let channels = widths.len() as int;
    let per_pixel = bits_per_pixel(widths) as int;
    let bit_count = 8 * byte_count as int;
    let pixels = (pairs + channels - 1) / channels;
    lemma_data_slot_count(widths, byte_count);
    assert(is_data_slot_count(widths, byte_count, pairs as nat));
    lemma_fundamental_div_mod(pairs + channels - 1, channels);
    let rest = (pairs + channels - 1) % channels;
    assert(0 <= rest < channels);
    assert(pairs + channels - 1 == channels * pixels + rest);
    assert(pixels >= 0) by (nonlinear_arith)
        requires
            channels * pixels + rest >= 0,
            rest < channels,
            channels > 0,
    ;
    assert(pixels * channels == channels * pixels) by (nonlinear_arith);
    assert(slot_start(widths, 0) == 0);
    lemma_slot_start_of_pixel(widths, pixels as nat, 0);
    lemma_slot_start_monotone(widths, pairs as nat, (pixels * channels) as nat);
    assert(bit_count <= pixels * per_pixel);
    if pairs > 0 {
        assert(pixels >= 1) by (nonlinear_arith)
            requires
                pairs + channels - 1 == channels * pixels + rest,
                pairs > 0,
                rest < channels,
                channels > 0,
        ;
        assert((pixels - 1) * channels == channels * pixels - channels) by (nonlinear_arith);
        lemma_slot_start_of_pixel(widths, (pixels - 1) as nat, 0);
        lemma_slot_start_monotone(widths, ((pixels - 1) * channels) as nat, (pairs - 1) as nat);
        assert((pixels - 1) * per_pixel < bit_count);
        assert((pixels - 1) * per_pixel == pixels * per_pixel - per_pixel) by (nonlinear_arith);
        lemma_fundamental_div_mod_converse(
            bit_count + per_pixel - 1,
            per_pixel,
            pixels,
            bit_count + per_pixel - 1 - pixels * per_pixel,
        );
    } else {
        assert(pixels == 0) by (nonlinear_arith)
            requires
                channels - 1 == channels * pixels + rest,
                0 <= rest,
                pixels >= 0,
                channels > 0,
        ;
        assert(pixels * per_pixel == 0) by (nonlinear_arith)
            requires
                pixels == 0,
        ;
        assert(bit_count == 0);
        lemma_fundamental_div_mod_converse(per_pixel - 1, per_pixel, 0, per_pixel - 1);
    }
}

/// The number of pairs itself is `len * 8` over the payload bits of a
/// pixel, rounded up, in these cases and in no others: a pixel has one
/// channel only, or the stream is empty, or it is a single byte that the
/// first channel takes whole.
pub proof fn lemma_pair_count_is_pixel_count(widths: Seq<nat>, byte_count: nat)
    requires
        valid_widths(widths),
    ensures
        data_slot_count(widths, byte_count) == (8 * byte_count + bits_per_pixel(widths) - 1) / (
        bits_per_pixel(widths) as int) <==> (widths.len() == 1 || byte_count == 0 || (byte_count
            == 1 && widths[0] == 8)),
{
    let pairs = data_slot_count(widths, byte_count) as int;
    let channels = widths.len() as int;
    let pixels = (pairs + channels - 1) / channels;
    lemma_data_slot_count(widths, byte_count);
    lemma_separated_pixel_count(widths, byte_count);
    lemma_fundamental_div_mod(pairs + channels - 1, channels);
    let rest = (pairs + channels - 1) % channels;
    assert(pairs + channels - 1 == channels * pixels + rest);
    assert(slot_start(widths, 0) == 0);
    assert(slot_start(widths, 1) == widths[0]) by {
        assert(slot_width(widths, 0) == widths[0]);
    }
    assert(widths[0] <= 8);
    if channels == 1 {
        assert(pixels == pairs) by (nonlinear_arith)
            requires
                pairs + channels - 1 == channels * pixels + rest,
                channels == 1,
                0 <= rest < channels,
        ;
    } else if byte_count == 0 {
        assert(is_data_slot_count(widths, byte_count, 0));
        assert(pixels == 0) by (nonlinear_arith)
            requires
                channels - 1 == channels * pixels + rest,
                0 <= rest < channels,
                channels > 0,
        ;
    } else if byte_count == 1 && widths[0] == 8 {
        assert(is_data_slot_count(widths, byte_count, 1));
        assert(pixels == 1) by (nonlinear_arith)
            requires
                channels == channels * pixels + rest,
                0 <= rest < channels,
                channels > 0,
        ;
    } else {
        assert(!is_data_slot_count(widths, byte_count, 0));
        assert(!is_data_slot_count(widths, byte_count, 1));
        assert(pairs >= 2);
        assert(pixels != pairs) by (nonlinear_arith)
            requires
                pairs + channels - 1 == channels * pixels + rest,
                0 <= rest < channels,
                channels >= 2,
                pairs >= 2,
        ;
    }
}

/// With the policy that fills with zeros, every slot after the inserted
/// stream has its low bits cleared.
pub proof fn lemma_zero_fill_clears_low_bits(
    before: Seq<u8>,
    after: Seq<u8>,
    payload: Seq<u8>,
    widths: Seq<nat>,
    k: int,
)
    requires
        inserted(before, after, payload, widths, RemainingBitsAction::Zero),
        0 <= k < before.len(),
        !slot_in_data(widths, framed(payload).len(), k as nat),
    ensures
        after[k] & low_mask(slot_width(widths, k)) == 0,
{
    let mask = low_mask(slot_width(widths, k));
    let old_byte = before[k];
    assert(slot_after_insertion(
        old_byte,
        after[k],
        framed(payload),
        widths,
        RemainingBitsAction::Zero,
        k as nat,
    ));
    assert((old_byte & !mask) & mask == 0) by (bit_vector);
}

/// The pixels that a payload needs are the fewest that hold it: with
/// them the payload and its length prefix fit, and the payload is within
/// the capacity; with fewer they do not fit.
pub proof fn lemma_pixels_needed_is_least(data_size: nat, bits: nat, fewer: nat)
    requires
        bits > 0,
        fewer < pixels_needed(data_size, bits),
    ensures
        data_size * 8 + 128 <= pixels_needed(data_size, bits) * bits,
        data_size <= data_capacity(pixels_needed(data_size, bits), bits),
        fewer * bits < data_size * 8 + 128,
{
    let needed_bits = (data_size * 8 + 128) as int;
    let per_pixel = bits as int;
    let pixels = pixels_needed(data_size, bits) as int;
    lemma_fundamental_div_mod(needed_bits + per_pixel - 1, per_pixel);
    let rest = (needed_bits + per_pixel - 1) % per_pixel;
    assert(0 <= rest < per_pixel);
    assert(needed_bits + per_pixel - 1 == per_pixel * pixels + rest);
    assert(per_pixel * pixels == pixels * per_pixel) by (nonlinear_arith);
    assert(fewer * per_pixel <= (pixels - 1) * per_pixel) by (nonlinear_arith)
        requires
            fewer <= pixels - 1,
            per_pixel > 0,
    ;
    assert((pixels - 1) * per_pixel == pixels * per_pixel - per_pixel) by (nonlinear_arith);
}

} // verus!
