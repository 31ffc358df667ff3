use blind_image_steganography::separator::random_padding_pair;
use blind_image_steganography::{
    CountOfLeastSignificantBits, PixelChannelSeparator, PixelChannelSeparatorIteratorExt,
    RemainingBitsAction,
};

#[test]
fn test_pixel_channel_separator_one_one_one_and_no_remaining() {
    // Arrange
    let bytes = [0b0_1_0_1_1_0_1_0u8];

    // Act
    let output = bytes
        .as_slice()
        .separate_pixel_channel_rgb(
            CountOfLeastSignificantBits::One,
            CountOfLeastSignificantBits::One,
            CountOfLeastSignificantBits::One,
            None,
            RemainingBitsAction::Nothing,
        )
        .collect();

    // Assert
    assert_eq!(
        output,
        [
            (0b0000000_0u8, 0b0000000_1u8),
            (0b0000000_1u8, 0b0000000_1u8),
            (0b0000000_0u8, 0b0000000_1u8),
            (0b0000000_1u8, 0b0000000_1u8),
            (0b0000000_1u8, 0b0000000_1u8),
            (0b0000000_0u8, 0b0000000_1u8),
            (0b0000000_1u8, 0b0000000_1u8),
            (0b0000000_0u8, 0b0000000_1u8),
        ]
    );
}

#[test]
fn test_pixel_channel_separator_one_one_one_and_remaining_none() {
    // Arrange
    let bytes = [0b0_1_0_1_1_0_1_0u8];

    // Act
    let output = bytes
        .as_slice()
        .separate_pixel_channel_rgb(
            CountOfLeastSignificantBits::One,
            CountOfLeastSignificantBits::One,
            CountOfLeastSignificantBits::One,
            Some(16),
            RemainingBitsAction::Nothing,
        )
        .collect();

    // Assert
    assert_eq!(
        output,
        [
            (0b0000000_0u8, 0b0000000_1u8),
            (0b0000000_1u8, 0b0000000_1u8),
            (0b0000000_0u8, 0b0000000_1u8),
            (0b0000000_1u8, 0b0000000_1u8),
            (0b0000000_1u8, 0b0000000_1u8),
            (0b0000000_0u8, 0b0000000_1u8),
            (0b0000000_1u8, 0b0000000_1u8),
            (0b0000000_0u8, 0b0000000_1u8),
        ]
    );
}

#[test]
fn test_pixel_channel_separator_one_one_one_and_remaining_zero() {
    // Arrange
    let bytes = [0b0_1_0_1_1_0_1_0u8];

    // Act
    let output = bytes
        .as_slice()
        .separate_pixel_channel_rgb(
            CountOfLeastSignificantBits::One,
            CountOfLeastSignificantBits::One,
            CountOfLeastSignificantBits::One,
            Some(4),
            RemainingBitsAction::Zero,
        )
        .collect();

    // Assert
    assert_eq!(
        output,
        [
            (0b0000000_0u8, 0b0000000_1u8),
            (0b0000000_1u8, 0b0000000_1u8),
            (0b0000000_0u8, 0b0000000_1u8),
            (0b0000000_1u8, 0b0000000_1u8),
            (0b0000000_1u8, 0b0000000_1u8),
            (0b0000000_0u8, 0b0000000_1u8),
            (0b0000000_1u8, 0b0000000_1u8),
            (0b0000000_0u8, 0b0000000_1u8),
            (0b0000000_0u8, 0b0000000_1u8),
            (0b0000000_0u8, 0b0000000_1u8),
            (0b0000000_0u8, 0b0000000_1u8),
            (0b0000000_0u8, 0b0000000_1u8),
        ]
    );
}

#[test]
fn test_pixel_channel_separator_one_one_one_one_and_no_remaining() {
    // Arrange
    let bytes = [0b0_1_0_1_1_0_1_0u8];

    // Act
    let output = bytes
        .as_slice()
        .separate_pixel_channel_rgba(
            CountOfLeastSignificantBits::One,
            CountOfLeastSignificantBits::One,
            CountOfLeastSignificantBits::One,
            CountOfLeastSignificantBits::One,
            None,
            RemainingBitsAction::Nothing,
        )
        .collect();

    // Assert
    assert_eq!(
        output,
        [
            (0b0000000_0u8, 0b0000000_1u8),
            (0b0000000_1u8, 0b0000000_1u8),
            (0b0000000_0u8, 0b0000000_1u8),
            (0b0000000_1u8, 0b0000000_1u8),
            (0b0000000_1u8, 0b0000000_1u8),
            (0b0000000_0u8, 0b0000000_1u8),
            (0b0000000_1u8, 0b0000000_1u8),
            (0b0000000_0u8, 0b0000000_1u8),
        ]
    );
}

#[test]
fn test_pixel_channel_separator_one_two_three_and_no_remaining() {
    // Arrange
    let bytes = [0b0_10_110_1_0u8];

    // Act
    let output = bytes
        .as_slice()
        .separate_pixel_channel_rgb(
            CountOfLeastSignificantBits::One,
            CountOfLeastSignificantBits::Two,
            CountOfLeastSignificantBits::Three,
            None,
            RemainingBitsAction::Nothing,
        )
        .collect();

    // Assert
    assert_eq!(
        output,
        [
            (0b0000000_0u8, 0b0000000_1u8),
            (0b000000_10u8, 0b000000_11u8),
            (0b00000_110u8, 0b00000_111u8),
            (0b0000000_1u8, 0b0000000_1u8),
            (0b000000_00u8, 0b000000_11u8),
        ]
    );
}

#[test]
fn test_pixel_channel_separator_one_two_three_four_and_no_remaining() {
    // Arrange
    let bytes = [0b0_10_110_10u8];

    // Act
    let output = bytes
        .as_slice()
        .separate_pixel_channel_rgba(
            CountOfLeastSignificantBits::One,
            CountOfLeastSignificantBits::Two,
            CountOfLeastSignificantBits::Three,
            CountOfLeastSignificantBits::Four,
            None,
            RemainingBitsAction::Nothing,
        )
        .collect();

    // Assert
    assert_eq!(
        output,
        [
            (0b0000000_0u8, 0b0000000_1u8),
            (0b000000_10u8, 0b000000_11u8),
            (0b00000_110u8, 0b00000_111u8),
            (0b0000_1000u8, 0b0000_1111u8),
        ]
    );
}

#[test]
fn separator_carries_a_group_across_two_bytes() {
    // The second pixel's green slot takes the last bit of the first byte
    // and the first bit of the second.
    let bytes = [0b0_10_110_1_1u8, 0b1_010_0_00_0u8];
    let output = bytes
        .as_slice()
        .separate_pixel_channel_rgb(
            CountOfLeastSignificantBits::One,
            CountOfLeastSignificantBits::Two,
            CountOfLeastSignificantBits::Three,
            None,
            RemainingBitsAction::Nothing,
        )
        .collect();
    assert_eq!(
        output,
        [
            (0b0, 0b1),
            (0b10, 0b11),
            (0b110, 0b111),
            (0b1, 0b1),
            (0b11, 0b11),
            (0b010, 0b111),
            (0b0, 0b1),
            (0b00, 0b11),
            (0b000, 0b111),
        ]
    );
}

#[test]
fn separator_with_eight_bits_per_channel_hands_the_bytes_over() {
    let bytes = [0x12u8, 0xABu8, 0xFFu8, 0x00u8];
    let output = bytes
        .as_slice()
        .separate_pixel_channel_rgb(
            CountOfLeastSignificantBits::Eight,
            CountOfLeastSignificantBits::Eight,
            CountOfLeastSignificantBits::Eight,
            None,
            RemainingBitsAction::Nothing,
        )
        .collect();
    assert_eq!(output, [(0x12, 0xFF), (0xAB, 0xFF), (0xFF, 0xFF), (0x00, 0xFF)]);
}

#[test]
fn separator_yields_empty_pairs_for_channels_without_bits() {
    let bytes = [0b1010_0101u8];
    let output = bytes
        .as_slice()
        .separate_pixel_channel_rgba(
            CountOfLeastSignificantBits::Four,
            CountOfLeastSignificantBits::Zero,
            CountOfLeastSignificantBits::Four,
            CountOfLeastSignificantBits::Zero,
            None,
            RemainingBitsAction::Nothing,
        )
        .collect();
    // The alpha slot of the first pixel begins at the end of the stream,
    // so the sequence ends before it.
    assert_eq!(output, [(0b1010, 0b1111), (0, 0), (0b0101, 0b1111)]);
}

#[test]
fn separator_of_nothing_yields_nothing() {
    let bytes: [u8; 0] = [];
    let output = bytes
        .as_slice()
        .separate_pixel_channel_rgb(
            CountOfLeastSignificantBits::One,
            CountOfLeastSignificantBits::Two,
            CountOfLeastSignificantBits::Three,
            None,
            RemainingBitsAction::Zero,
        )
        .collect();
    assert!(output.is_empty());
}

#[test]
fn separator_without_policy_yields_one_pair_per_slot_that_begins_in_the_data() {
    // 3 bytes are 24 bits; a pixel takes 1 + 2 + 3 = 6 bits, so 4 pixels
    // of 3 pairs each.
    let bytes = [0xDEu8, 0xADu8, 0xBEu8];
    let output = bytes
        .as_slice()
        .separate_pixel_channel_rgb(
            CountOfLeastSignificantBits::One,
            CountOfLeastSignificantBits::Two,
            CountOfLeastSignificantBits::Three,
            None,
            RemainingBitsAction::Nothing,
        )
        .collect();
    assert_eq!(output.len(), 12);
    assert_eq!((output.len() + 2) / 3, (3 * 8 + 5) / 6);
    for (index, (bits, mask)) in output.iter().enumerate() {
        let expected_mask = [0b1u8, 0b11u8, 0b111u8][index % 3];
        assert_eq!(*mask, expected_mask);
        assert_eq!(*bits & !*mask, 0);
    }
}

#[test]
fn separator_next_ends_and_stays_ended() {
    let bytes = [0xFFu8];
    let mut separator = PixelChannelSeparator::<3>::new(
        &bytes,
        [
            CountOfLeastSignificantBits::Four,
            CountOfLeastSignificantBits::Four,
            CountOfLeastSignificantBits::Four,
        ],
        Some(1),
        RemainingBitsAction::Zero,
    );
    assert_eq!(separator.next(), Some((0b1111, 0b1111)));
    assert_eq!(separator.next(), Some((0b1111, 0b1111)));
    assert_eq!(separator.next(), Some((0, 0b1111)));
    assert_eq!(separator.next(), None);
    assert_eq!(separator.next(), None);
}

#[test]
fn separator_randomize_is_reproducible_for_a_seed() {
    let bytes = [0b0101_1010u8];
    let run = |seed: Option<u64>| {
        bytes
            .as_slice()
            .separate_pixel_channel_rgb(
                CountOfLeastSignificantBits::Three,
                CountOfLeastSignificantBits::Three,
                CountOfLeastSignificantBits::Three,
                Some(64),
                RemainingBitsAction::Randomize { seed },
            )
            .collect()
    };
    let first = run(Some(4));
    let second = run(Some(4));
    let other = run(Some(5));
    let unseeded = run(None);
    let zero_seeded = run(Some(0));
    assert_eq!(first.len(), 3 * 64);
    assert_eq!(first, second);
    assert_ne!(first, other);
    assert_eq!(unseeded, zero_seeded);
    assert_eq!(&first[..3], &[(0b010, 0b111), (0b110, 0b111), (0b100, 0b111)]);
    assert_eq!(&other[..3], &first[..3]);
    for (bits, mask) in &first {
        assert_eq!(*mask, 0b111);
        assert_eq!(*bits & !*mask, 0);
    }
    assert!(first[3..].iter().any(|(bits, _)| *bits != 0));
}

#[test]
fn random_padding_pair_cuts_the_byte_to_the_mask() {
    assert_eq!(
        random_padding_pair(0b1011_0110, CountOfLeastSignificantBits::Three),
        (0b110, 0b111)
    );
    assert_eq!(random_padding_pair(0xFF, CountOfLeastSignificantBits::Zero), (0, 0));
    assert_eq!(random_padding_pair(0xA5, CountOfLeastSignificantBits::Eight), (0xA5, 0xFF));
}
