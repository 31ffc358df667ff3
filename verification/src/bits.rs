//! The mathematical model of the bit engine.
//!
//! A byte stream is one continuous string of bits, each byte read from its
//! most significant bit down. Channel slots are numbered from zero and cycle
//! through the configured widths; slot `k` covers the bits from
//! `slot_start(widths, k)` on, as many as `slot_width(widths, k)` says.

use vstd::arithmetic::div_mod::lemma_fundamental_div_mod_converse;
use vstd::prelude::*;

verus! {

/// Bit `index` of `byte`, where index 0 is the most significant bit and
/// index 7 the least significant one.
pub open spec fn msb_bit(byte: u8, index: u8) -> bool {
    (byte >> ((7 - index) as u8)) & 1u8 == 1u8
}

/// The byte with the eight given bits, most significant first.
pub open spec fn pack_bits(
    b0: bool,
    b1: bool,
    b2: bool,
    b3: bool,
    b4: bool,
    b5: bool,
    b6: bool,
    b7: bool,
) -> u8 {
    (if b0 { 128u8 } else { 0u8 }) | (if b1 { 64u8 } else { 0u8 }) | (if b2 { 32u8 } else { 0u8 })
        | (if b3 { 16u8 } else { 0u8 }) | (if b4 { 8u8 } else { 0u8 }) | (if b5 { 4u8 } else { 0u8 })
        | (if b6 { 2u8 } else { 0u8 }) | (if b7 { 1u8 } else { 0u8 })
}

/// The byte whose low `width` bits are all set: `2^width - 1`.
pub open spec fn low_mask(width: nat) -> u8 {
    if width == 0 {
        0
    } else if width == 1 {
        1
    } else if width == 2 {
        3
    } else if width == 3 {
        7
    } else if width == 4 {
        15
    } else if width == 5 {
        31
    } else if width == 6 {
        63
    } else if width == 7 {
        127
    } else {
        255
    }
}

/// `low_mask` on a machine integer, for statements about shifts and masks.
pub open spec fn low_mask_u8(width: u8) -> u8 {
    if width == 0 {
        0
    } else if width == 1 {
        1
    } else if width == 2 {
        3
    } else if width == 3 {
        7
    } else if width == 4 {
        15
    } else if width == 5 {
        31
    } else if width == 6 {
        63
    } else if width == 7 {
        127
    } else {
        255
    }
}

/// The bits of a byte stream: eight per byte, most significant first.
pub open spec fn stream_bits(bytes: Seq<u8>) -> Seq<bool> {
    Seq::new((8 * bytes.len()) as nat, |i: int| msb_bit(bytes[i / 8], (i % 8) as u8))
}

/// Bit `i` of a bit string, and zero past its end.
pub open spec fn bit_or_zero(bits: Seq<bool>, i: int) -> bool {
    0 <= i < bits.len() && bits[i]
}

/// Bit `index` (most significant first) of the byte that holds, right
/// aligned, the `width` bits of `bits` that begin at `start`.
pub open spec fn group_bit(bits: Seq<bool>, start: int, width: int, index: int) -> bool {
    index >= 8 - width && bit_or_zero(bits, start + index - (8 - width))
}

/// The `width` bits of `bits` from `start` on, as a number: the first of
/// them is the most significant. Bits past the end of `bits` count as zero.
pub open spec fn group(bits: Seq<bool>, start: int, width: int) -> u8 {
    pack_bits(
        group_bit(bits, start, width, 0),
        group_bit(bits, start, width, 1),
        group_bit(bits, start, width, 2),
        group_bit(bits, start, width, 3),
        group_bit(bits, start, width, 4),
        group_bit(bits, start, width, 5),
        group_bit(bits, start, width, 6),
        group_bit(bits, start, width, 7),
    )
}

/// The width of channel slot `k`: the widths repeat pixel after pixel.
pub open spec fn slot_width(widths: Seq<nat>, k: int) -> nat {
    widths[k % (widths.len() as int)]
}

/// The number of bits that the slots before slot `k` cover.
pub open spec fn slot_start(widths: Seq<nat>, k: nat) -> nat
    decreases k,
{
    if k == 0 {
        0
    } else {
        slot_start(widths, (k - 1) as nat) + slot_width(widths, k - 1)
    }
}

/// The number of bits that one pixel carries: the sum of its channel widths.
pub open spec fn bits_per_pixel(widths: Seq<nat>) -> nat {
    slot_start(widths, widths.len())
}

/// Channel widths are valid when there is a channel, none is wider than a
/// byte, and a pixel carries at least one bit.
pub open spec fn valid_widths(widths: Seq<nat>) -> bool {
    &&& widths.len() > 0
    &&& forall|c: int| 0 <= c < widths.len() ==> #[trigger] widths[c] <= 8
    &&& bits_per_pixel(widths) > 0
}

/// The low `width` bits of a channel byte, most significant first.
pub open spec fn low_bits(byte: u8, width: nat) -> Seq<bool> {
    Seq::new(width, |t: int| msb_bit(byte, (8 - width + t) as u8))
}

/// The payload bits that the first `count` channel bytes carry, in order.
pub open spec fn gathered_prefix(channel_bytes: Seq<u8>, widths: Seq<nat>, count: nat) -> Seq<bool>
    decreases count,
{
    if count == 0 {
        Seq::empty()
    } else {
        gathered_prefix(channel_bytes, widths, (count - 1) as nat) + low_bits(
            channel_bytes[count - 1],
            slot_width(widths, count - 1),
        )
    }
}

/// The payload bits that a run of channel bytes carries.
pub open spec fn gathered_bits(channel_bytes: Seq<u8>, widths: Seq<nat>) -> Seq<bool> {
    gathered_prefix(channel_bytes, widths, channel_bytes.len())
}

/// What the separator yields for slot `k` of a byte stream: the slot's bits,
/// right aligned, and the mask of the bits that it covers.
pub open spec fn separated_pair(data: Seq<u8>, widths: Seq<nat>, k: nat) -> (u8, u8) {
    (
        group(stream_bits(data), slot_start(widths, k) as int, slot_width(widths, k as int) as int),
        low_mask(slot_width(widths, k as int)),
    )
}

/// Whether slot `k` begins inside a stream of `byte_count` bytes.
pub open spec fn slot_in_data(widths: Seq<nat>, byte_count: nat, k: nat) -> bool {
    slot_start(widths, k) < 8 * byte_count
}

/// Whether `count` is the number of slots that begin inside a stream of
/// `byte_count` bytes.
pub open spec fn is_data_slot_count(widths: Seq<nat>, byte_count: nat, count: nat) -> bool {
    &&& slot_start(widths, count) >= 8 * byte_count
    &&& count > 0 ==> slot_start(widths, (count - 1) as nat) < 8 * byte_count
}

/// The number of slots that begin inside a stream of `byte_count` bytes.
pub open spec fn data_slot_count(widths: Seq<nat>, byte_count: nat) -> nat {
    choose|count: nat| is_data_slot_count(widths, byte_count, count)
}

/// The pairs that the separator yields for a byte stream when nothing is
/// added after it.
pub open spec fn separated(data: Seq<u8>, widths: Seq<nat>) -> Seq<(u8, u8)> {
    Seq::new(data_slot_count(widths, data.len()), |k: int| separated_pair(data, widths, k as nat))
}

/// The number of bytes that the combinator yields for a run of channel
/// bytes: a last byte that is only partly filled counts.
pub open spec fn combined_len(channel_bytes: Seq<u8>, widths: Seq<nat>) -> nat {
    ((slot_start(widths, channel_bytes.len()) + 7) / 8) as nat
}

/// Byte `index` of what the combinator yields: the gathered bits from
/// `8 * index` on, with zeros after the last of them.
pub open spec fn combined_byte(channel_bytes: Seq<u8>, widths: Seq<nat>, index: nat) -> u8 {
    group(gathered_bits(channel_bytes, widths), 8 * (index as int), 8)
}

/// The byte stream that the combinator rebuilds from a run of channel bytes.
pub open spec fn combined(channel_bytes: Seq<u8>, widths: Seq<nat>) -> Seq<u8> {
    Seq::new(
        combined_len(channel_bytes, widths),
        |index: int| combined_byte(channel_bytes, widths, index as nat),
    )
}

/// A byte is the eight bits it is made of.
pub proof fn lemma_byte_is_its_bits(byte: u8)
    by (bit_vector)
    ensures
        byte == pack_bits(
            msb_bit(byte, 0),
            msb_bit(byte, 1),
            msb_bit(byte, 2),
            msb_bit(byte, 3),
            msb_bit(byte, 4),
            msb_bit(byte, 5),
            msb_bit(byte, 6),
            msb_bit(byte, 7),
        ),
{
}

/// Packing eight bits and reading them back gives the same bits.
pub proof fn lemma_bits_of_packed(
    b0: bool,
    b1: bool,
    b2: bool,
    b3: bool,
    b4: bool,
    b5: bool,
    b6: bool,
    b7: bool,
)
    by (bit_vector)
    ensures
        msb_bit(pack_bits(b0, b1, b2, b3, b4, b5, b6, b7), 0) == b0,
        msb_bit(pack_bits(b0, b1, b2, b3, b4, b5, b6, b7), 1) == b1,
        msb_bit(pack_bits(b0, b1, b2, b3, b4, b5, b6, b7), 2) == b2,
        msb_bit(pack_bits(b0, b1, b2, b3, b4, b5, b6, b7), 3) == b3,
        msb_bit(pack_bits(b0, b1, b2, b3, b4, b5, b6, b7), 4) == b4,
        msb_bit(pack_bits(b0, b1, b2, b3, b4, b5, b6, b7), 5) == b5,
        msb_bit(pack_bits(b0, b1, b2, b3, b4, b5, b6, b7), 6) == b6,
        msb_bit(pack_bits(b0, b1, b2, b3, b4, b5, b6, b7), 7) == b7,
{
}

/// Shifting right by `shift` and keeping the low `count` bits moves the
/// bits of `byte` down and clears the rest.
pub proof fn lemma_extract_bits(byte: u8, shift: u8, count: u8)
    by (bit_vector)
    requires
        shift + count <= 8,
    ensures
        forall|i: u8|
            i < 8 ==> (#[trigger] msb_bit((byte >> shift) & low_mask_u8(count), i) == (i >= 8
                - count && msb_bit(byte, (i - shift) as u8))),
{
}

/// Shifting left by `shift` moves the bits of `byte` up and fills with
/// zeros.
pub proof fn lemma_shift_left_bits(byte: u8, shift: u8)
    by (bit_vector)
    requires
        shift < 8,
    ensures
        forall|i: u8|
            i < 8 ==> (#[trigger] msb_bit(byte << shift, i) == (i + shift < 8 && msb_bit(
                byte,
                (i + shift) as u8,
            ))),
{
}

/// A bit of `a | b` is set when it is set in `a` or in `b`.
pub proof fn lemma_or_bits(a: u8, b: u8)
    by (bit_vector)
    ensures
        forall|i: u8| i < 8 ==> (#[trigger] msb_bit(a | b, i) == (msb_bit(a, i) || msb_bit(b, i))),
{
}

/// Overwriting the low `width` bits of `old_byte` with `value` keeps the
/// other bits of `old_byte` and takes the low bits of `value`.
pub proof fn lemma_overwrite_bits(old_byte: u8, value: u8, width: u8)
    by (bit_vector)
    requires
        width <= 8,
    ensures
        forall|i: u8|
            i < 8 ==> (#[trigger] msb_bit((old_byte & !low_mask_u8(width)) | value, i) == (if i < 8
                - width {
                msb_bit(old_byte, i) || msb_bit(value, i)
            } else {
                msb_bit(value, i)
            })),
{
}

/// The bits of a group are the bits it was cut from.
pub proof fn lemma_group_bits(bits: Seq<bool>, start: int, width: int)
    ensures
        forall|i: u8|
            i < 8 ==> #[trigger] msb_bit(group(bits, start, width), i) == group_bit(
                bits,
                start,
                width,
                i as int,
            ),
{
    lemma_bits_of_packed(
        group_bit(bits, start, width, 0),
        group_bit(bits, start, width, 1),
        group_bit(bits, start, width, 2),
        group_bit(bits, start, width, 3),
        group_bit(bits, start, width, 4),
        group_bit(bits, start, width, 5),
        group_bit(bits, start, width, 6),
        group_bit(bits, start, width, 7),
    );
}

/// A byte whose bits are those of a group is that group.
pub proof fn lemma_is_group(byte: u8, bits: Seq<bool>, start: int, width: int)
    requires
        forall|i: u8| i < 8 ==> #[trigger] msb_bit(byte, i) == group_bit(bits, start, width, i as int),
    ensures
        byte == group(bits, start, width),
{
    assert(msb_bit(byte, 0u8) == group_bit(bits, start, width, 0));
    assert(msb_bit(byte, 1u8) == group_bit(bits, start, width, 1));
    assert(msb_bit(byte, 2u8) == group_bit(bits, start, width, 2));
    assert(msb_bit(byte, 3u8) == group_bit(bits, start, width, 3));
    assert(msb_bit(byte, 4u8) == group_bit(bits, start, width, 4));
    assert(msb_bit(byte, 5u8) == group_bit(bits, start, width, 5));
    assert(msb_bit(byte, 6u8) == group_bit(bits, start, width, 6));
    assert(msb_bit(byte, 7u8) == group_bit(bits, start, width, 7));
    lemma_byte_is_its_bits(byte);
}

/// A group of no bits is zero, and a group never reaches above its mask.
pub proof fn lemma_group_within_mask(bits: Seq<bool>, start: int, width: nat)
    requires
        width <= 8,
    ensures
        group(bits, start, 0) == 0,
        group(bits, start, width as int) & !low_mask(width) == 0,
        group(bits, start, width as int) & low_mask(width) == group(bits, start, width as int),
        group(bits, start, width as int) <= low_mask(width),
{
    let g = group(bits, start, width as int);
    let w = width as u8;
    lemma_group_bits(bits, start, width as int);
    assert(low_mask(width) == low_mask_u8(w));
    lemma_high_bits_clear(g, w);
    assert(pack_bits(false, false, false, false, false, false, false, false) == 0u8)
        by (bit_vector);
}

/// A byte whose bits above the low `width` are clear lies within the mask.
pub proof fn lemma_high_bits_clear(byte: u8, width: u8)
    by (bit_vector)
    requires
        width <= 8,
        0 < 8 - width ==> !msb_bit(byte, 0),
        1 < 8 - width ==> !msb_bit(byte, 1),
        2 < 8 - width ==> !msb_bit(byte, 2),
        3 < 8 - width ==> !msb_bit(byte, 3),
        4 < 8 - width ==> !msb_bit(byte, 4),
        5 < 8 - width ==> !msb_bit(byte, 5),
        6 < 8 - width ==> !msb_bit(byte, 6),
        7 < 8 - width ==> !msb_bit(byte, 7),
    ensures
        byte & !low_mask_u8(width) == 0,
        byte & low_mask_u8(width) == byte,
        byte <= low_mask_u8(width),
{
}

/// One slot further, the start moves on by the slot's width.
pub proof fn lemma_slot_start_step(widths: Seq<nat>, k: nat)
    ensures
        slot_start(widths, k + 1) == slot_start(widths, k) + slot_width(widths, k as int),
{
}

/// Slot starts never go down.
pub proof fn lemma_slot_start_monotone(widths: Seq<nat>, j: nat, k: nat)
    requires
        j <= k,
    ensures
        slot_start(widths, j) <= slot_start(widths, k),
    decreases k - j,
{
    if j < k {
        lemma_slot_start_monotone(widths, j, (k - 1) as nat);
    }
}

/// A group that lies across two bytes: the low `from_current` bits of the
/// first byte, followed by the top `from_next` bits of the second.
pub proof fn lemma_straddle_bits(current: u8, next: u8, from_current: u8, from_next: u8)
    by (bit_vector)
    requires
        1 <= from_current,
        1 <= from_next,
        from_current + from_next <= 8,
    ensures
        forall|i: u8|
            i < 8 ==> (#[trigger] msb_bit(
                ((current & low_mask_u8(from_current)) << from_next) | (next >> ((8
                    - from_next) as u8)),
                i,
            ) == (i >= 8 - from_current - from_next && (if i < 8 - from_next {
                msb_bit(current, (i + from_next) as u8)
            } else {
                msb_bit(next, (i - (8 - from_next)) as u8)
            }))),
{
}

/// The bits of byte `index` of a stream stand at `8 * index` and after.
pub proof fn lemma_stream_bit(bytes: Seq<u8>, index: int, bit: int)
    requires
        0 <= index < bytes.len(),
        0 <= bit < 8,
    ensures
        stream_bits(bytes).len() == 8 * bytes.len(),
        stream_bits(bytes)[8 * index + bit] == msb_bit(bytes[index], bit as u8),
        bit_or_zero(stream_bits(bytes), 8 * index + bit) == msb_bit(bytes[index], bit as u8),
{
    let i = 8 * index + bit;
    assert(i / 8 == index);
    assert(i % 8 == bit);
}

/// Slot `pixel * channels + channel` is channel `channel` of pixel `pixel`.
pub proof fn lemma_slot_index(channels: int, pixel: int, channel: int)
    requires
        channels > 0,
        0 <= channel < channels,
    ensures
        (pixel * channels + channel) % channels == channel,
        (pixel * channels + channel) / channels == pixel,
{
    lemma_fundamental_div_mod_converse(pixel * channels + channel, channels, pixel, channel);
}

/// The slots of whole pixels cover a whole number of pixel widths.
pub proof fn lemma_slot_start_of_pixel(widths: Seq<nat>, pixel: nat, channel: nat)
    requires
        widths.len() > 0,
        channel <= widths.len(),
    ensures
        slot_start(widths, pixel * widths.len() + channel) == pixel * bits_per_pixel(widths)
            + slot_start(widths, channel),
    decreases pixel, channel,
{
    let n = widths.len();
    if channel > 0 {
        let c = (channel - 1) as nat;
        lemma_slot_start_of_pixel(widths, pixel, c);
        lemma_slot_index(n as int, pixel as int, c as int);
        lemma_slot_index(n as int, 0, c as int);
        assert(pixel * n + channel - 1 == pixel * n + c);
        assert(slot_width(widths, (pixel * n + c) as int) == widths[c as int]);
        assert(slot_width(widths, c as int) == widths[c as int]);
    } else if pixel > 0 {
        let q = (pixel - 1) as nat;
        lemma_slot_start_of_pixel(widths, q, n);
        assert(q * n + n == pixel * n) by (nonlinear_arith)
            requires
                q + 1 == pixel,
        ;
        assert(q * bits_per_pixel(widths) + bits_per_pixel(widths) == pixel * bits_per_pixel(
            widths,
        )) by (nonlinear_arith)
            requires
                q + 1 == pixel,
        ;
    } else {
        assert(pixel * n + channel == 0) by (nonlinear_arith)
            requires
                pixel == 0,
                channel == 0,
        ;
        assert(pixel * bits_per_pixel(widths) == 0) by (nonlinear_arith)
            requires
                pixel == 0,
        ;
    }
}

/// A slot that begins inside a stream lies in one of its first pixels:
/// every pixel before it has taken at least one bit.
pub proof fn lemma_pixel_of_slot_bounded(widths: Seq<nat>, pixel: nat, channel: nat, bit_count: nat)
    requires
        widths.len() > 0,
        bits_per_pixel(widths) > 0,
        channel < widths.len(),
        slot_start(widths, pixel * widths.len() + channel) < bit_count,
    ensures
        pixel < bit_count,
{
    lemma_slot_start_of_pixel(widths, pixel, channel);
    assert(pixel * bits_per_pixel(widths) >= pixel) by (nonlinear_arith)
        requires
            bits_per_pixel(widths) >= 1,
    ;
}

/// The first `count` channel bytes carry as many bits as their slots are
/// wide.
pub proof fn lemma_gathered_prefix_len(channel_bytes: Seq<u8>, widths: Seq<nat>, count: nat)
    ensures
        gathered_prefix(channel_bytes, widths, count).len() == slot_start(widths, count),
    decreases count,
{
    if count > 0 {
        lemma_gathered_prefix_len(channel_bytes, widths, (count - 1) as nat);
    }
}

/// Bit `t` of slot `j` among the gathered bits is bit `t` of the low bits
/// of channel byte `j`.
pub proof fn lemma_gathered_bit(
    channel_bytes: Seq<u8>,
    widths: Seq<nat>,
    count: nat,
    j: nat,
    t: nat,
)
    requires
        j < count,
        t < slot_width(widths, j as int),
    ensures
        slot_start(widths, j) + t < slot_start(widths, count),
        gathered_prefix(channel_bytes, widths, count).len() == slot_start(widths, count),
        gathered_prefix(channel_bytes, widths, count)[(slot_start(widths, j) + t) as int] == msb_bit(
            channel_bytes[j as int],
            (8 - slot_width(widths, j as int) + t) as u8,
        ),
    decreases count,
{
    let before = (count - 1) as nat;
    lemma_gathered_prefix_len(channel_bytes, widths, before);
    lemma_gathered_prefix_len(channel_bytes, widths, count);
    if j < before {
        lemma_gathered_bit(channel_bytes, widths, before, j, t);
    } else {
        assert(j == before);
    }
}

/// A slot count at or below `upper` that is the number of slots beginning
/// inside a stream of `byte_count` bytes.
pub proof fn lemma_find_data_slot_count(widths: Seq<nat>, byte_count: nat, upper: nat) -> (count:
    nat)
    requires
        slot_start(widths, upper) >= 8 * byte_count,
    ensures
        count <= upper,
        is_data_slot_count(widths, byte_count, count),
    decreases upper,
{
    if upper == 0 {
        0
    } else if slot_start(widths, (upper - 1) as nat) < 8 * byte_count {
        upper
    } else {
        lemma_find_data_slot_count(widths, byte_count, (upper - 1) as nat)
    }
}

/// With valid widths the slots that begin inside a stream are the first
/// `data_slot_count` slots, and no others.
pub proof fn lemma_data_slot_count(widths: Seq<nat>, byte_count: nat)
    requires
        valid_widths(widths),
    ensures
        is_data_slot_count(widths, byte_count, data_slot_count(widths, byte_count)),
        forall|k: nat|
            #[trigger] slot_in_data(widths, byte_count, k) <==> k < data_slot_count(
                widths,
                byte_count,
            ),
        forall|count: nat| #[trigger]
            is_data_slot_count(widths, byte_count, count) ==> count == data_slot_count(
                widths,
                byte_count,
            ),
{
    let upper = (8 * byte_count) * widths.len();
    lemma_slot_start_of_pixel(widths, 8 * byte_count, 0);
    assert(slot_start(widths, 0) == 0);
    assert((8 * byte_count) * bits_per_pixel(widths) >= 8 * byte_count) by (nonlinear_arith)
        requires
            bits_per_pixel(widths) >= 1,
    ;
    let witness = lemma_find_data_slot_count(widths, byte_count, upper);
    let count = data_slot_count(widths, byte_count);
    assert(is_data_slot_count(widths, byte_count, count));
    assert forall|k: nat| #[trigger]
        slot_in_data(widths, byte_count, k) <==> k < count by {
        if k < count {
            lemma_slot_start_monotone(widths, k, (count - 1) as nat);
        } else {
            lemma_slot_start_monotone(widths, count, k);
        }
    }
    assert forall|other: nat| #[trigger]
        is_data_slot_count(widths, byte_count, other) implies other == count by {
        if other < count {
            assert(slot_in_data(widths, byte_count, other));
        } else if other > count {
            assert(slot_in_data(widths, byte_count, (other - 1) as nat));
        }
    }
}

/// A slot never starts later than if all slots before it were full bytes.
pub proof fn lemma_slot_start_at_most_bytes(widths: Seq<nat>, k: nat)
    requires
        widths.len() > 0,
        forall|c: int| 0 <= c < widths.len() ==> #[trigger] widths[c] <= 8,
    ensures
        slot_start(widths, k) <= 8 * k,
    decreases k,
{
    if k > 0 {
        lemma_slot_start_at_most_bytes(widths, (k - 1) as nat);
        let c = (k - 1) % (widths.len() as int);
        assert(0 <= c < widths.len());
        assert(slot_width(widths, k - 1) == widths[c]);
    }
}

/// Every bit before the start of slot `count` lies in one of the slots
/// before it: the result is that slot and the bit's place in it.
pub proof fn lemma_slot_of_bit(widths: Seq<nat>, count: nat, i: nat) -> (place: (nat, nat))
    requires
        i < slot_start(widths, count),
    ensures
        place.0 < count,
        slot_start(widths, place.0) + place.1 == i,
        place.1 < slot_width(widths, place.0 as int),
    decreases count,
{
    let before = (count - 1) as nat;
    if i >= slot_start(widths, before) {
        (before, (i - slot_start(widths, before)) as nat)
    } else {
        lemma_slot_of_bit(widths, before, i)
    }
}

/// The mask of the low `width` bits.
pub fn mask_of_width(width: u8) -> (mask: u8)
    requires
        width <= 8,
    ensures
        mask == low_mask_u8(width),
        mask == low_mask(width as nat),
{
    if width == 0 {
        0
    } else if width == 1 {
        1
    } else if width == 2 {
        3
    } else if width == 3 {
        7
    } else if width == 4 {
        15
    } else if width == 5 {
        31
    } else if width == 6 {
        63
    } else if width == 7 {
        127
    } else {
        255
    }
}

} // verus!
