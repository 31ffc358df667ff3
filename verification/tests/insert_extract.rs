use blind_image_steganography::{
    CountOfLeastSignificantBits, ExtractConfig, ExtractDataError, Image, ImageFormat, InsertConfig,
    InsertDataError, RemainingBitsAction,
};

/// An image whose channel bytes all have their lowest bit set.
fn test_image(has_alpha: bool, width: u32, height: u32) -> Image {
    let channels = if has_alpha { 4 } else { 3 };
    let mut pixel_data = Vec::new();
    for index in 0..(width as usize * height as usize * channels) {
        let shade = ((index * 7) % 120) as u8;
        pixel_data.push(if has_alpha && index % 4 == 3 { 0xFD } else { (shade << 1) | 1 });
    }
    Image::from_pixel_data(has_alpha, width, height, pixel_data).unwrap()
}

fn pixel(image: &Image, x: u32, y: u32) -> Vec<u8> {
    let channels = if image.has_alpha_channel() { 4 } else { 3 };
    let start = (y as usize * image.width() as usize + x as usize) * channels;
    image.pixel_data()[start..start + channels].to_vec()
}

fn through_a_file_in_memory(image: &Image) -> Image {
    let file = image.save_to_memory(ImageFormat::WebP).unwrap();
    Image::load_from_memory(&file).unwrap()
}

#[test]
fn happy_path() {
    // Arrange
    let insert_data = "Hello steganography!";
    let mut image = test_image(false, 64, 48);

    // Act
    image.insert_data(insert_data.as_bytes(), &InsertConfig::builder().build()).unwrap();
    let image = through_a_file_in_memory(&image);
    let extracted_data = image.extract_data(&ExtractConfig::builder().build());

    // Assert
    assert_eq!(Ok(insert_data.as_bytes().to_vec()), extracted_data);
}

#[test]
fn zeroize_works() {
    // Arrange
    let mut image = test_image(true, 40, 30);
    let (test_pixel_x, test_pixel_y) = (image.width() - 6, image.height() - 6);
    let test_pixel_value_initial = pixel(&image, test_pixel_x, test_pixel_y);
    assert_eq!(test_pixel_value_initial[0] & 1, 1);
    assert_eq!(test_pixel_value_initial[1] & 1, 1);
    assert_eq!(test_pixel_value_initial[2] & 1, 1);
    assert_eq!(test_pixel_value_initial[3] & 1, 1);

    // Act
    image
        .insert_data(
            "Hallo".as_bytes(),
            &InsertConfig::builder().remaining_bits_action(RemainingBitsAction::Zero).build(),
        )
        .unwrap();

    // Assert
    let image = through_a_file_in_memory(&image);
    let test_pixel_value = pixel(&image, test_pixel_x, test_pixel_y);
    assert_eq!(test_pixel_value[0] & 1, 0);
    assert_eq!(test_pixel_value[1] & 1, 0);
    assert_eq!(test_pixel_value[2] & 1, 0);
    assert_eq!(test_pixel_value[3] & 1, 1);
}

#[test]
fn randomize_works() {
    // Arrange
    let mut image = test_image(true, 40, 30);
    let (test_pixel_x, test_pixel_y) = (image.width() - 1, image.height() - 1);
    let test_pixel_value_initial = pixel(&image, test_pixel_x, test_pixel_y);

    // Act
    image
        .insert_data(
            "Hallo".as_bytes(),
            &InsertConfig::builder()
                .remaining_bits_action(RemainingBitsAction::Randomize { seed: Some(4) })
                .build(),
        )
        .unwrap();

    // Assert
    let image = through_a_file_in_memory(&image);
    let test_pixel_value = pixel(&image, test_pixel_x, test_pixel_y);
    assert_ne!(test_pixel_value_initial, test_pixel_value);
}

#[test]
fn zero_fill_clears_every_slot_after_the_payload() {
    let mut image = test_image(false, 20, 20);
    let before = image.pixel_data().to_vec();
    let config = InsertConfig::builder()
        .count_of_least_significant_bits_in_red(CountOfLeastSignificantBits::One)
        .count_of_least_significant_bits_in_green(CountOfLeastSignificantBits::Two)
        .count_of_least_significant_bits_in_blue(CountOfLeastSignificantBits::Three)
        .remaining_bits_action(RemainingBitsAction::Zero)
        .build();
    image.insert_data(&[1, 2, 3, 4, 5], &config).unwrap();
    let after = image.pixel_data();
    let masks = [0b1u8, 0b11u8, 0b111u8];
    // The stream has (16 + 5) * 8 = 168 bits, a pixel takes 6: the first
    // 28 pixels hold it.
    for (index, (old, new)) in before.iter().zip(after.iter()).enumerate() {
        let mask = masks[index % 3];
        assert_eq!(old & !mask, new & !mask);
        if index >= 28 * 3 {
            assert_eq!(new & mask, 0);
        }
    }
    assert_eq!(image.extract_data(&ExtractConfig::builder()
        .count_of_least_significant_bits_in_red(CountOfLeastSignificantBits::One)
        .count_of_least_significant_bits_in_green(CountOfLeastSignificantBits::Two)
        .count_of_least_significant_bits_in_blue(CountOfLeastSignificantBits::Three)
        .build()), Ok(vec![1, 2, 3, 4, 5]));
}

#[test]
fn randomize_is_reproducible_for_a_seed() {
    let insert = |seed: Option<u64>| {
        let mut image = test_image(false, 32, 32);
        let config = InsertConfig::builder()
            .count_of_least_significant_bits_in_red(CountOfLeastSignificantBits::Two)
            .count_of_least_significant_bits_in_green(CountOfLeastSignificantBits::Two)
            .count_of_least_significant_bits_in_blue(CountOfLeastSignificantBits::Two)
            .remaining_bits_action(RemainingBitsAction::Randomize { seed })
            .build();
        image.insert_data("Hallo".as_bytes(), &config).unwrap();
        image
    };
    let first = insert(Some(4));
    let second = insert(Some(4));
    let other = insert(Some(5));
    assert_eq!(first, second);
    assert_eq!(first.pixel_data(), second.pixel_data());
    assert_ne!(first.pixel_data(), other.pixel_data());
    // The stream has 168 bits, a pixel takes 6: the first 28 pixels hold
    // it and are the same whatever the seed.
    assert_eq!(&first.pixel_data()[..28 * 3], &other.pixel_data()[..28 * 3]);
    let untouched = test_image(false, 32, 32);
    for (old, new) in untouched.pixel_data().iter().zip(first.pixel_data()) {
        assert_eq!(old & 0b1111_1100, new & 0b1111_1100);
    }
    let config = ExtractConfig::builder()
        .count_of_least_significant_bits_in_red(CountOfLeastSignificantBits::Two)
        .count_of_least_significant_bits_in_green(CountOfLeastSignificantBits::Two)
        .count_of_least_significant_bits_in_blue(CountOfLeastSignificantBits::Two)
        .build();
    assert_eq!(first.extract_data(&config), Ok("Hallo".as_bytes().to_vec()));
    assert_eq!(other.extract_data(&config), Ok("Hallo".as_bytes().to_vec()));
}

#[test]
fn nothing_leaves_the_slots_after_the_payload_alone() {
    let mut image = test_image(true, 16, 16);
    let before = image.pixel_data().to_vec();
    image.insert_data(&[0xFF; 3], &InsertConfig::builder().build()).unwrap();
    let after = image.pixel_data();
    // (16 + 3) * 8 = 152 bits at 3 bits a pixel: the stream ends inside
    // pixel 50, at its blue channel.
    assert_eq!(&before[51 * 4..], &after[51 * 4..]);
    assert_ne!(&before[..51 * 4], &after[..51 * 4]);
    for (index, (old, new)) in before.iter().zip(after.iter()).enumerate() {
        if index % 4 == 3 {
            assert_eq!(old, new);
        } else {
            assert_eq!(old & 0xFE, new & 0xFE);
        }
    }
}

#[test]
fn round_trip_for_many_widths_and_both_layouts() {
    let widths = [
        CountOfLeastSignificantBits::Zero,
        CountOfLeastSignificantBits::One,
        CountOfLeastSignificantBits::Three,
        CountOfLeastSignificantBits::Five,
        CountOfLeastSignificantBits::Eight,
    ];
    let actions = [
        RemainingBitsAction::Nothing,
        RemainingBitsAction::Zero,
        RemainingBitsAction::Randomize { seed: None },
    ];
    let payload: Vec<u8> = (0..200u32).map(|index| (index * 37 % 256) as u8).collect();
    for has_alpha in [false, true] {
        for red in widths {
            for green in widths {
                for blue in widths {
                    for alpha in widths {
                        for action in actions {
                            let mut image = test_image(has_alpha, 50, 40);
                            let insert_config = InsertConfig::builder()
                                .count_of_least_significant_bits_in_red(red)
                                .count_of_least_significant_bits_in_green(green)
                                .count_of_least_significant_bits_in_blue(blue)
                                .count_of_least_significant_bits_in_alpha(alpha)
                                .remaining_bits_action(action)
                                .build();
                            let extract_config = ExtractConfig::builder()
                                .count_of_least_significant_bits_in_red(red)
                                .count_of_least_significant_bits_in_green(green)
                                .count_of_least_significant_bits_in_blue(blue)
                                .count_of_least_significant_bits_in_alpha(alpha)
                                .build();
                            let capacity = image.max_data_capacity_with_config(&insert_config);
                            let inserted = image.insert_data(&payload, &insert_config);
                            if inserted.is_ok() {
                                assert!(payload.len() <= capacity);
                                assert_eq!(image.extract_data(&extract_config), Ok(payload.clone()));
                            } else {
                                assert!(payload.len() > capacity || capacity == 0);
                            }
                        }
                    }
                }
            }
        }
    }
}

#[test]
fn payload_that_fills_the_image_exactly_comes_back() {
    // 8 x 8 pixels at 8 + 8 + 8 bits hold 192 bytes: 16 of length and 176
    // of payload.
    let mut image = test_image(false, 8, 8);
    let config = InsertConfig::builder()
        .count_of_least_significant_bits_in_red(CountOfLeastSignificantBits::Eight)
        .count_of_least_significant_bits_in_green(CountOfLeastSignificantBits::Eight)
        .count_of_least_significant_bits_in_blue(CountOfLeastSignificantBits::Eight)
        .build();
    assert_eq!(image.max_data_capacity_with_config(&config), 176);
    let payload: Vec<u8> = (0..176u32).map(|index| (255 - index) as u8).collect();
    assert_eq!(image.insert_data(&payload, &config), Ok(()));
    let mut expected = vec![0u8; 15];
    expected.push(176);
    expected.extend_from_slice(&payload);
    assert_eq!(image.pixel_data(), expected.as_slice());
    let extract_config = ExtractConfig::builder()
        .count_of_least_significant_bits_in_red(CountOfLeastSignificantBits::Eight)
        .count_of_least_significant_bits_in_green(CountOfLeastSignificantBits::Eight)
        .count_of_least_significant_bits_in_blue(CountOfLeastSignificantBits::Eight)
        .build();
    assert_eq!(image.extract_data(&extract_config), Ok(payload));
}

#[test]
fn empty_payload_comes_back() {
    let mut image = test_image(false, 8, 8);
    assert_eq!(image.insert_data(&[], &InsertConfig::builder().build()), Ok(()));
    assert_eq!(image.extract_data(&ExtractConfig::builder().build()), Ok(Vec::new()));
}

#[test]
fn insert_rejects_a_payload_above_the_capacity_and_writes_nothing() {
    let mut image = test_image(false, 10, 10);
    let before = image.clone();
    let config = InsertConfig::builder().build();
    // 100 pixels at 3 bits are 300 bits: (300 - 128) / 8 = 21 bytes.
    assert_eq!(image.max_data_capacity_with_config(&config), 21);
    assert_eq!(
        image.insert_data(&[7; 22], &config),
        Err(InsertDataError::DataExceedsCapacity { data: 22, capacity: 21 })
    );
    assert_eq!(image, before);
    assert_eq!(image.insert_data(&[7; 21], &config), Ok(()));
    assert_eq!(image.extract_data(&ExtractConfig::builder().build()), Ok(vec![7; 21]));
}

#[test]
fn configuration_without_bits_is_rejected() {
    let mut image = test_image(true, 10, 10);
    let before = image.clone();
    let insert_config = InsertConfig::builder()
        .count_of_least_significant_bits_in_red(CountOfLeastSignificantBits::Zero)
        .count_of_least_significant_bits_in_green(CountOfLeastSignificantBits::Zero)
        .count_of_least_significant_bits_in_blue(CountOfLeastSignificantBits::Zero)
        .count_of_least_significant_bits_in_alpha(CountOfLeastSignificantBits::Zero)
        .remaining_bits_action(RemainingBitsAction::Zero)
        .build();
    let extract_config = ExtractConfig::builder()
        .count_of_least_significant_bits_in_red(CountOfLeastSignificantBits::Zero)
        .count_of_least_significant_bits_in_green(CountOfLeastSignificantBits::Zero)
        .count_of_least_significant_bits_in_blue(CountOfLeastSignificantBits::Zero)
        .count_of_least_significant_bits_in_alpha(CountOfLeastSignificantBits::Zero)
        .build();
    assert_eq!(image.insert_data(&[], &insert_config), Err(InsertDataError::InvalidConfiguration));
    assert_eq!(
        image.insert_data(&[1, 2, 3], &insert_config),
        Err(InsertDataError::InvalidConfiguration)
    );
    assert_eq!(image.extract_data(&extract_config), Err(ExtractDataError::InvalidConfiguration));
    assert_eq!(image, before);
    assert_eq!(image.max_data_capacity_with_config(&insert_config), 0);
}

#[test]
fn alpha_width_is_ignored_without_an_alpha_channel() {
    let mut image = test_image(false, 10, 10);
    let config = InsertConfig::builder()
        .count_of_least_significant_bits_in_red(CountOfLeastSignificantBits::Zero)
        .count_of_least_significant_bits_in_green(CountOfLeastSignificantBits::Zero)
        .count_of_least_significant_bits_in_blue(CountOfLeastSignificantBits::Zero)
        .count_of_least_significant_bits_in_alpha(CountOfLeastSignificantBits::Eight)
        .build();
    assert_eq!(image.insert_data(&[], &config), Err(InsertDataError::InvalidConfiguration));
    let mut with_alpha = test_image(true, 10, 10);
    // 100 pixels at 8 bits are 800 bits: (800 - 128) / 8 = 84 bytes.
    assert_eq!(with_alpha.max_data_capacity_with_config(&config), 84);
    assert_eq!(with_alpha.insert_data(&[9; 84], &config), Ok(()));
}

#[test]
fn extract_reports_a_missing_byte_of_the_length() {
    // 5 x 5 pixels at 3 bits are 75 bits: nine whole bytes and one that
    // is partly filled, fewer than the sixteen of the length.
    let image = test_image(false, 5, 5);
    assert_eq!(
        image.extract_data(&ExtractConfig::builder().build()),
        Err(ExtractDataError::MissingByteForLength { index: 10 })
    );
    let empty = Image::from_pixel_data(false, 0, 0, Vec::new()).unwrap();
    assert_eq!(
        empty.extract_data(&ExtractConfig::builder().build()),
        Err(ExtractDataError::MissingByteForLength { index: 0 })
    );
}

#[test]
fn extract_reports_missing_payload_bytes() {
    let config = ExtractConfig::builder()
        .count_of_least_significant_bits_in_red(CountOfLeastSignificantBits::Eight)
        .count_of_least_significant_bits_in_green(CountOfLeastSignificantBits::Eight)
        .count_of_least_significant_bits_in_blue(CountOfLeastSignificantBits::Eight)
        .build();
    // The length says 5, and 2 bytes follow.
    let mut pixel_data = vec![0u8; 15];
    pixel_data.extend_from_slice(&[5, 0xAA, 0xBB]);
    let image = Image::from_pixel_data(false, 6, 1, pixel_data).unwrap();
    assert_eq!(
        image.extract_data(&config),
        Err(ExtractDataError::MissingDataBytes { index: 2, length: 5 })
    );
    // A length that no buffer can hold.
    let mut pixel_data = vec![0xFFu8; 16];
    pixel_data.extend_from_slice(&[1, 2]);
    let image = Image::from_pixel_data(false, 6, 1, pixel_data).unwrap();
    assert_eq!(
        image.extract_data(&config),
        Err(ExtractDataError::MissingDataBytes { index: 2, length: usize::MAX })
    );
    // The length says 2, and 2 bytes follow.
    let mut pixel_data = vec![0u8; 15];
    pixel_data.extend_from_slice(&[2, 0xAA, 0xBB]);
    let image = Image::from_pixel_data(false, 6, 1, pixel_data).unwrap();
    assert_eq!(image.extract_data(&config), Ok(vec![0xAA, 0xBB]));
}

#[test]
fn capacity_follows_the_formula() {
    let one = InsertConfig::builder().build();
    // 100 x 100 pixels at 3 bits: (30000 - 128) / 8.
    assert_eq!(test_image(false, 100, 100).max_data_capacity_with_config(&one), 3734);
    assert_eq!(test_image(true, 100, 100).max_data_capacity_with_config(&one), 3734);
    // 42 pixels at 3 bits are 126 bits, 43 are 129: neither holds a byte
    // after the length prefix; 46 pixels are 138 bits and hold one.
    assert_eq!(test_image(false, 42, 1).max_data_capacity_with_config(&one), 0);
    assert_eq!(test_image(false, 43, 1).max_data_capacity_with_config(&one), 0);
    assert_eq!(test_image(false, 46, 1).max_data_capacity_with_config(&one), 1);
    assert_eq!(test_image(false, 0, 7).max_data_capacity_with_config(&one), 0);
    let all = InsertConfig::builder()
        .count_of_least_significant_bits_in_red(CountOfLeastSignificantBits::Eight)
        .count_of_least_significant_bits_in_green(CountOfLeastSignificantBits::Eight)
        .count_of_least_significant_bits_in_blue(CountOfLeastSignificantBits::Eight)
        .count_of_least_significant_bits_in_alpha(CountOfLeastSignificantBits::Eight)
        .build();
    assert_eq!(test_image(false, 100, 100).max_data_capacity_with_config(&all), 29984);
    assert_eq!(test_image(true, 100, 100).max_data_capacity_with_config(&all), 39984);
}

#[test]
fn capacity_never_falls_with_more_bits_or_more_pixels() {
    let widths = [
        CountOfLeastSignificantBits::Zero,
        CountOfLeastSignificantBits::One,
        CountOfLeastSignificantBits::Two,
        CountOfLeastSignificantBits::Four,
        CountOfLeastSignificantBits::Eight,
    ];
    let small = test_image(true, 9, 9);
    let large = test_image(true, 10, 9);
    let mut last = 0;
    for width in widths {
        let config = InsertConfig::builder()
            .count_of_least_significant_bits_in_red(width)
            .count_of_least_significant_bits_in_alpha(width)
            .build();
        let capacity = small.max_data_capacity_with_config(&config);
        assert!(capacity >= last);
        assert!(large.max_data_capacity_with_config(&config) >= capacity);
        last = capacity;
    }
    assert_eq!(last, (81 * 18 - 128) / 8);
}

#[test]
fn min_pixels_needed_follows_the_formula() {
    let one = InsertConfig::builder().build();
    // (5 * 8 + 128) / 3 = 56.
    assert_eq!(Image::min_pixels_needed_with_config(5, &one, false), 56);
    assert_eq!(Image::min_pixels_needed_with_config(5, &one, true), 56);
    // (6 * 8 + 128) / 3 = 58.67, rounded up.
    assert_eq!(Image::min_pixels_needed_with_config(6, &one, false), 59);
    assert_eq!(Image::min_pixels_needed_with_config(0, &one, false), 43);
    let with_alpha = InsertConfig::builder()
        .count_of_least_significant_bits_in_alpha(CountOfLeastSignificantBits::Five)
        .build();
    assert_eq!(Image::min_pixels_needed_with_config(100, &with_alpha, true), 116);
    assert_eq!(Image::min_pixels_needed_with_config(100, &with_alpha, false), 310);
    let none = InsertConfig::builder()
        .count_of_least_significant_bits_in_red(CountOfLeastSignificantBits::Zero)
        .count_of_least_significant_bits_in_green(CountOfLeastSignificantBits::Zero)
        .count_of_least_significant_bits_in_blue(CountOfLeastSignificantBits::Zero)
        .build();
    assert_eq!(Image::min_pixels_needed_with_config(100, &none, false), usize::MAX);
    assert_eq!(Image::min_pixels_needed_with_config(usize::MAX, &one, false), usize::MAX);
}

#[test]
fn min_pixels_needed_is_the_least_image_that_holds_the_payload() {
    let config = InsertConfig::builder()
        .count_of_least_significant_bits_in_red(CountOfLeastSignificantBits::Two)
        .count_of_least_significant_bits_in_green(CountOfLeastSignificantBits::One)
        .count_of_least_significant_bits_in_blue(CountOfLeastSignificantBits::Two)
        .build();
    for data_size in [0usize, 1, 2, 17, 100] {
        let pixels = Image::min_pixels_needed_with_config(data_size, &config, false) as u32;
        let payload = vec![0x5Au8; data_size];
        let mut enough = test_image(false, pixels, 1);
        assert_eq!(enough.insert_data(&payload, &config), Ok(()));
        let mut too_small = test_image(false, pixels - 1, 1);
        assert!(too_small.insert_data(&payload, &config).is_err() || data_size == 0);
    }
}

#[test]
fn builders_start_from_one_bit_per_colour() {
    let insert_config = InsertConfig::builder().build();
    assert_eq!(insert_config.count_of_least_significant_bits_in_red, CountOfLeastSignificantBits::One);
    assert_eq!(insert_config.count_of_least_significant_bits_in_green, CountOfLeastSignificantBits::One);
    assert_eq!(insert_config.count_of_least_significant_bits_in_blue, CountOfLeastSignificantBits::One);
    assert_eq!(insert_config.count_of_least_significant_bits_in_alpha, CountOfLeastSignificantBits::Zero);
    assert_eq!(insert_config.remaining_bits_action, RemainingBitsAction::Nothing);
    assert_eq!(RemainingBitsAction::default(), RemainingBitsAction::Nothing);
    let extract_config = ExtractConfig::builder()
        .count_of_least_significant_bits_in_green(CountOfLeastSignificantBits::Seven)
        .build();
    assert_eq!(extract_config.count_of_least_significant_bits_in_red, CountOfLeastSignificantBits::One);
    assert_eq!(extract_config.count_of_least_significant_bits_in_green, CountOfLeastSignificantBits::Seven);
    assert_eq!(extract_config.count_of_least_significant_bits_in_blue, CountOfLeastSignificantBits::One);
    assert_eq!(extract_config.count_of_least_significant_bits_in_alpha, CountOfLeastSignificantBits::Zero);
    assert_eq!(insert_config.usable_bits_per_pixel(false), 3);
    assert_eq!(extract_config.usable_bits_per_pixel(true), 9);
}

#[test]
fn image_wants_one_byte_for_each_channel_of_each_pixel() {
    assert!(Image::from_pixel_data(false, 2, 3, vec![0; 18]).is_some());
    assert!(Image::from_pixel_data(false, 2, 3, vec![0; 17]).is_none());
    assert!(Image::from_pixel_data(false, 2, 3, vec![0; 24]).is_none());
    assert!(Image::from_pixel_data(true, 2, 3, vec![0; 24]).is_some());
    assert!(Image::from_pixel_data(true, 2, 3, vec![0; 18]).is_none());
    let image = Image::from_pixel_data(true, 2, 3, (0..24).collect()).unwrap();
    assert!(image.has_alpha_channel());
    assert_eq!(image.width(), 2);
    assert_eq!(image.height(), 3);
    assert_eq!(image.pixel_data(), (0..24).collect::<Vec<u8>>().as_slice());
    assert!(matches!(image, Image::Rgba8(_)));
}
