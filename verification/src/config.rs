//! The settings of one insertion or extraction.

use crate::bit_width::CountOfLeastSignificantBits;
use crate::bits::bits_per_pixel;
use crate::separator::{lemma_rgb_widths, lemma_rgba_widths, rgb_widths, rgba_widths};
use vstd::prelude::*;

verus! {

/// What the separator yields for the channel slots that remain once the
/// payload has run out.
#[derive(Copy, Clone, PartialEq, Eq, Structural, PartialOrd, Ord, Hash, Debug)]
pub enum RemainingBitsAction {
    /// Nothing: the separator ends with the payload, and the remaining
    /// slots keep what they hold.
    Nothing,
    /// Zero bits.
    Zero,
    /// Bits drawn from a pseudo-random generator, seeded with `seed`, or
    /// with zero where there is none.
    Randomize { seed: Option<u64> },
}

impl Default for RemainingBitsAction {
    fn default() -> (action: Self)
        ensures
            action == RemainingBitsAction::Nothing,
    {
        RemainingBitsAction::Nothing
    }
}

} // verus!

verus! {

/// The settings of an insertion: how many low bits of each channel carry
/// payload, and what happens to the slots after the payload.
///
/// The alpha width is ignored for images without an alpha channel.
#[derive(Copy, Clone, PartialEq, Eq, Structural, PartialOrd, Ord, Hash, Debug)]
pub struct InsertConfig {
    pub count_of_least_significant_bits_in_red: CountOfLeastSignificantBits,
    pub count_of_least_significant_bits_in_green: CountOfLeastSignificantBits,
    pub count_of_least_significant_bits_in_blue: CountOfLeastSignificantBits,
    pub count_of_least_significant_bits_in_alpha: CountOfLeastSignificantBits,
    pub remaining_bits_action: RemainingBitsAction,
}

/// The settings of an extraction: how many low bits of each channel carry
/// payload.
///
/// The alpha width is ignored for images without an alpha channel.
#[derive(Copy, Clone, PartialEq, Eq, Structural, PartialOrd, Ord, Hash, Debug)]
pub struct ExtractConfig {
    pub count_of_least_significant_bits_in_red: CountOfLeastSignificantBits,
    pub count_of_least_significant_bits_in_green: CountOfLeastSignificantBits,
    pub count_of_least_significant_bits_in_blue: CountOfLeastSignificantBits,
    pub count_of_least_significant_bits_in_alpha: CountOfLeastSignificantBits,
}

impl InsertConfig {
    /// The channel widths that these settings give a pixel with or
    /// without alpha.
    pub open spec fn widths(&self, has_alpha: bool) -> Seq<nat> {
        if has_alpha {
            rgba_widths(
                self.count_of_least_significant_bits_in_red,
                self.count_of_least_significant_bits_in_green,
                self.count_of_least_significant_bits_in_blue,
                self.count_of_least_significant_bits_in_alpha,
            )
        } else {
            rgb_widths(
                self.count_of_least_significant_bits_in_red,
                self.count_of_least_significant_bits_in_green,
                self.count_of_least_significant_bits_in_blue,
            )
        }
    }

    /// The settings that apply where nothing is chosen: one bit each in
    /// red, green and blue, none in alpha, and no filling.
    pub open spec fn initial() -> Self {
        InsertConfig {
            count_of_least_significant_bits_in_red: CountOfLeastSignificantBits::One,
            count_of_least_significant_bits_in_green: CountOfLeastSignificantBits::One,
            count_of_least_significant_bits_in_blue: CountOfLeastSignificantBits::One,
            count_of_least_significant_bits_in_alpha: CountOfLeastSignificantBits::Zero,
            remaining_bits_action: RemainingBitsAction::Nothing,
        }
    }

    /// The number of payload bits that one pixel carries.
    pub fn usable_bits_per_pixel(&self, has_alpha: bool) -> (bits: usize)
        ensures
            bits == bits_per_pixel(self.widths(has_alpha)),
            bits <= 32,
            !has_alpha ==> bits <= 24,
    {
        proof {
            lemma_rgb_widths(
                self.count_of_least_significant_bits_in_red,
                self.count_of_least_significant_bits_in_green,
                self.count_of_least_significant_bits_in_blue,
            );
            lemma_rgba_widths(
                self.count_of_least_significant_bits_in_red,
                self.count_of_least_significant_bits_in_green,
                self.count_of_least_significant_bits_in_blue,
                self.count_of_least_significant_bits_in_alpha,
            );
        }
        let colours = self.count_of_least_significant_bits_in_red.bit_count()
            + self.count_of_least_significant_bits_in_green.bit_count()
            + self.count_of_least_significant_bits_in_blue.bit_count();
        if has_alpha {
            colours + self.count_of_least_significant_bits_in_alpha.bit_count()
        } else {
            colours
        }
    }
}

impl ExtractConfig {
    /// The channel widths that these settings give a pixel with or
    /// without alpha.
    pub open spec fn widths(&self, has_alpha: bool) -> Seq<nat> {
        if has_alpha {
            rgba_widths(
                self.count_of_least_significant_bits_in_red,
                self.count_of_least_significant_bits_in_green,
                self.count_of_least_significant_bits_in_blue,
                self.count_of_least_significant_bits_in_alpha,
            )
        } else {
            rgb_widths(
                self.count_of_least_significant_bits_in_red,
                self.count_of_least_significant_bits_in_green,
                self.count_of_least_significant_bits_in_blue,
            )
        }
    }

    /// The settings that apply where nothing is chosen: one bit each in
    /// red, green and blue, none in alpha.
    pub open spec fn initial() -> Self {
        ExtractConfig {
            count_of_least_significant_bits_in_red: CountOfLeastSignificantBits::One,
            count_of_least_significant_bits_in_green: CountOfLeastSignificantBits::One,
            count_of_least_significant_bits_in_blue: CountOfLeastSignificantBits::One,
            count_of_least_significant_bits_in_alpha: CountOfLeastSignificantBits::Zero,
        }
    }

    /// The number of payload bits that one pixel carries.
    pub fn usable_bits_per_pixel(&self, has_alpha: bool) -> (bits: usize)
        ensures
            bits == bits_per_pixel(self.widths(has_alpha)),
            bits <= 32,
            !has_alpha ==> bits <= 24,
    {
        proof {
            lemma_rgb_widths(
                self.count_of_least_significant_bits_in_red,
                self.count_of_least_significant_bits_in_green,
                self.count_of_least_significant_bits_in_blue,
            );
            lemma_rgba_widths(
                self.count_of_least_significant_bits_in_red,
                self.count_of_least_significant_bits_in_green,
                self.count_of_least_significant_bits_in_blue,
                self.count_of_least_significant_bits_in_alpha,
            );
        }
        let colours = self.count_of_least_significant_bits_in_red.bit_count()
            + self.count_of_least_significant_bits_in_green.bit_count()
            + self.count_of_least_significant_bits_in_blue.bit_count();
        if has_alpha {
            colours + self.count_of_least_significant_bits_in_alpha.bit_count()
        } else {
            colours
        }
    }
}

/// Builds an [`InsertConfig`] step by step, from the settings that apply where
/// nothing is chosen.
#[derive(Copy, Clone, Debug)]
pub struct InsertConfigBuilder {
    config: InsertConfig,
}

impl InsertConfig {
    /// A builder that holds the initial settings.
    pub fn builder() -> (builder: InsertConfigBuilder)
        ensures
            builder.pending() == InsertConfig::initial(),
    {
        InsertConfigBuilder {
            config: InsertConfig {
                count_of_least_significant_bits_in_red: CountOfLeastSignificantBits::One,
                count_of_least_significant_bits_in_green: CountOfLeastSignificantBits::One,
                count_of_least_significant_bits_in_blue: CountOfLeastSignificantBits::One,
                count_of_least_significant_bits_in_alpha: CountOfLeastSignificantBits::Zero,
                remaining_bits_action: RemainingBitsAction::Nothing,
            },
        }
    }
}

impl InsertConfigBuilder {
    /// The settings chosen so far.
    pub closed spec fn pending(&self) -> InsertConfig {
        self.config
    }

    /// Sets the number of low bits used in the red channel.
    pub fn count_of_least_significant_bits_in_red(self, value: CountOfLeastSignificantBits) -> (builder: Self)
        ensures
            builder.pending().count_of_least_significant_bits_in_red == value,
            builder.pending().count_of_least_significant_bits_in_green == self.pending().count_of_least_significant_bits_in_green,
            builder.pending().count_of_least_significant_bits_in_blue == self.pending().count_of_least_significant_bits_in_blue,
            builder.pending().count_of_least_significant_bits_in_alpha == self.pending().count_of_least_significant_bits_in_alpha,
            builder.pending().remaining_bits_action == self.pending().remaining_bits_action,
    {
        let mut config = self.config;
        config.count_of_least_significant_bits_in_red = value;
        InsertConfigBuilder { config }
    }

    /// Sets the number of low bits used in the green channel.
    pub fn count_of_least_significant_bits_in_green(self, value: CountOfLeastSignificantBits) -> (builder: Self)
        ensures
            builder.pending().count_of_least_significant_bits_in_green == value,
            builder.pending().count_of_least_significant_bits_in_red == self.pending().count_of_least_significant_bits_in_red,
            builder.pending().count_of_least_significant_bits_in_blue == self.pending().count_of_least_significant_bits_in_blue,
            builder.pending().count_of_least_significant_bits_in_alpha == self.pending().count_of_least_significant_bits_in_alpha,
            builder.pending().remaining_bits_action == self.pending().remaining_bits_action,
    {
        let mut config = self.config;
        config.count_of_least_significant_bits_in_green = value;
        InsertConfigBuilder { config }
    }

    /// Sets the number of low bits used in the blue channel.
    pub fn count_of_least_significant_bits_in_blue(self, value: CountOfLeastSignificantBits) -> (builder: Self)
        ensures
            builder.pending().count_of_least_significant_bits_in_blue == value,
            builder.pending().count_of_least_significant_bits_in_red == self.pending().count_of_least_significant_bits_in_red,
            builder.pending().count_of_least_significant_bits_in_green == self.pending().count_of_least_significant_bits_in_green,
            builder.pending().count_of_least_significant_bits_in_alpha == self.pending().count_of_least_significant_bits_in_alpha,
            builder.pending().remaining_bits_action == self.pending().remaining_bits_action,
    {
        let mut config = self.config;
        config.count_of_least_significant_bits_in_blue = value;
        InsertConfigBuilder { config }
    }

    /// Sets the number of low bits used in the alpha channel.
    pub fn count_of_least_significant_bits_in_alpha(self, value: CountOfLeastSignificantBits) -> (builder: Self)
        ensures
            builder.pending().count_of_least_significant_bits_in_alpha == value,
            builder.pending().count_of_least_significant_bits_in_red == self.pending().count_of_least_significant_bits_in_red,
            builder.pending().count_of_least_significant_bits_in_green == self.pending().count_of_least_significant_bits_in_green,
            builder.pending().count_of_least_significant_bits_in_blue == self.pending().count_of_least_significant_bits_in_blue,
            builder.pending().remaining_bits_action == self.pending().remaining_bits_action,
    {
        let mut config = self.config;
        config.count_of_least_significant_bits_in_alpha = value;
        InsertConfigBuilder { config }
    }

    /// Sets what happens to the slots after the payload.
    pub fn remaining_bits_action(self, value: RemainingBitsAction) -> (builder: Self)
        ensures
            builder.pending().remaining_bits_action == value,
            builder.pending().count_of_least_significant_bits_in_red == self.pending().count_of_least_significant_bits_in_red,
            builder.pending().count_of_least_significant_bits_in_green == self.pending().count_of_least_significant_bits_in_green,
            builder.pending().count_of_least_significant_bits_in_blue == self.pending().count_of_least_significant_bits_in_blue,
            builder.pending().count_of_least_significant_bits_in_alpha == self.pending().count_of_least_significant_bits_in_alpha,
    {
        let mut config = self.config;
        config.remaining_bits_action = value;
        InsertConfigBuilder { config }
    }

    /// The settings as chosen.
    pub fn build(self) -> (config: InsertConfig)
        ensures
            config == self.pending(),
    {
        self.config
    }
}

/// Builds an [`ExtractConfig`] step by step, from the settings that apply where
/// nothing is chosen.
#[derive(Copy, Clone, Debug)]
pub struct ExtractConfigBuilder {
    config: ExtractConfig,
}

impl ExtractConfig {
    /// A builder that holds the initial settings.
    pub fn builder() -> (builder: ExtractConfigBuilder)
        ensures
            builder.pending() == ExtractConfig::initial(),
    {
        ExtractConfigBuilder {
            config: ExtractConfig {
                count_of_least_significant_bits_in_red: CountOfLeastSignificantBits::One,
                count_of_least_significant_bits_in_green: CountOfLeastSignificantBits::One,
                count_of_least_significant_bits_in_blue: CountOfLeastSignificantBits::One,
                count_of_least_significant_bits_in_alpha: CountOfLeastSignificantBits::Zero,
            },
        }
    }
}

impl ExtractConfigBuilder {
    /// The settings chosen so far.
    pub closed spec fn pending(&self) -> ExtractConfig {
        self.config
    }

    /// Sets the number of low bits used in the red channel.
    pub fn count_of_least_significant_bits_in_red(self, value: CountOfLeastSignificantBits) -> (builder: Self)
        ensures
            builder.pending().count_of_least_significant_bits_in_red == value,
            builder.pending().count_of_least_significant_bits_in_green == self.pending().count_of_least_significant_bits_in_green,
            builder.pending().count_of_least_significant_bits_in_blue == self.pending().count_of_least_significant_bits_in_blue,
            builder.pending().count_of_least_significant_bits_in_alpha == self.pending().count_of_least_significant_bits_in_alpha,
    {
        let mut config = self.config;
        config.count_of_least_significant_bits_in_red = value;
        ExtractConfigBuilder { config }
    }

    /// Sets the number of low bits used in the green channel.
    pub fn count_of_least_significant_bits_in_green(self, value: CountOfLeastSignificantBits) -> (builder: Self)
        ensures
            builder.pending().count_of_least_significant_bits_in_green == value,
            builder.pending().count_of_least_significant_bits_in_red == self.pending().count_of_least_significant_bits_in_red,
            builder.pending().count_of_least_significant_bits_in_blue == self.pending().count_of_least_significant_bits_in_blue,
            builder.pending().count_of_least_significant_bits_in_alpha == self.pending().count_of_least_significant_bits_in_alpha,
    {
        let mut config = self.config;
        config.count_of_least_significant_bits_in_green = value;
        ExtractConfigBuilder { config }
    }

    /// Sets the number of low bits used in the blue channel.
    pub fn count_of_least_significant_bits_in_blue(self, value: CountOfLeastSignificantBits) -> (builder: Self)
        ensures
            builder.pending().count_of_least_significant_bits_in_blue == value,
            builder.pending().count_of_least_significant_bits_in_red == self.pending().count_of_least_significant_bits_in_red,
            builder.pending().count_of_least_significant_bits_in_green == self.pending().count_of_least_significant_bits_in_green,
            builder.pending().count_of_least_significant_bits_in_alpha == self.pending().count_of_least_significant_bits_in_alpha,
    {
        let mut config = self.config;
        config.count_of_least_significant_bits_in_blue = value;
        ExtractConfigBuilder { config }
    }

    /// Sets the number of low bits used in the alpha channel.
    pub fn count_of_least_significant_bits_in_alpha(self, value: CountOfLeastSignificantBits) -> (builder: Self)
        ensures
            builder.pending().count_of_least_significant_bits_in_alpha == value,
            builder.pending().count_of_least_significant_bits_in_red == self.pending().count_of_least_significant_bits_in_red,
            builder.pending().count_of_least_significant_bits_in_green == self.pending().count_of_least_significant_bits_in_green,
            builder.pending().count_of_least_significant_bits_in_blue == self.pending().count_of_least_significant_bits_in_blue,
    {
        let mut config = self.config;
        config.count_of_least_significant_bits_in_alpha = value;
        ExtractConfigBuilder { config }
    }

    /// The settings as chosen.
    pub fn build(self) -> (config: ExtractConfig)
        ensures
            config == self.pending(),
    {
        self.config
    }
}

} // verus!
