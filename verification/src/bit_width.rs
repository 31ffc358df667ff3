//! The per-channel budget of least significant bits.

use vstd::prelude::*;

verus! {

/// How many low-order bits of one channel byte carry payload: zero to eight.
#[derive(Copy, Clone, PartialEq, Eq, Structural, PartialOrd, Ord, Hash, Debug)]
pub enum CountOfLeastSignificantBits {
    Zero,
    One,
    Two,
    Three,
    Four,
    Five,
    Six,
    Seven,
    Eight,
}

/// Why a number could not be turned into a [`CountOfLeastSignificantBits`].
#[derive(Copy, Clone, PartialEq, Eq, Structural, PartialOrd, Ord, Hash, Debug)]
pub enum TryFromBitCountError {
    /// The number is larger than eight; it is carried along.
    Unknown(usize),
}

impl CountOfLeastSignificantBits {
    /// The number of bits this value stands for.
    pub open spec fn bits(self) -> nat {
        match self {
            CountOfLeastSignificantBits::Zero => 0,
            CountOfLeastSignificantBits::One => 1,
            CountOfLeastSignificantBits::Two => 2,
            CountOfLeastSignificantBits::Three => 3,
            CountOfLeastSignificantBits::Four => 4,
            CountOfLeastSignificantBits::Five => 5,
            CountOfLeastSignificantBits::Six => 6,
            CountOfLeastSignificantBits::Seven => 7,
            CountOfLeastSignificantBits::Eight => 8,
        }
    }

    /// The value that stands for `bit_count` bits, where there is one.
    pub open spec fn of_bits(bit_count: nat) -> Option<Self> {
        if bit_count == 0 {
            Some(CountOfLeastSignificantBits::Zero)
        } else if bit_count == 1 {
            Some(CountOfLeastSignificantBits::One)
        } else if bit_count == 2 {
            Some(CountOfLeastSignificantBits::Two)
        } else if bit_count == 3 {
            Some(CountOfLeastSignificantBits::Three)
        } else if bit_count == 4 {
            Some(CountOfLeastSignificantBits::Four)
        } else if bit_count == 5 {
            Some(CountOfLeastSignificantBits::Five)
        } else if bit_count == 6 {
            Some(CountOfLeastSignificantBits::Six)
        } else if bit_count == 7 {
            Some(CountOfLeastSignificantBits::Seven)
        } else if bit_count == 8 {
            Some(CountOfLeastSignificantBits::Eight)
        } else {
            None
        }
    }

    /// The number of usable bits, between 0 and 8.
    pub fn bit_count(self) -> (count: usize)
        ensures
            count == self.bits(),
            count <= 8,
    {
        match self {
            CountOfLeastSignificantBits::Zero => 0,
            CountOfLeastSignificantBits::One => 1,
            CountOfLeastSignificantBits::Two => 2,
            CountOfLeastSignificantBits::Three => 3,
            CountOfLeastSignificantBits::Four => 4,
            CountOfLeastSignificantBits::Five => 5,
            CountOfLeastSignificantBits::Six => 6,
            CountOfLeastSignificantBits::Seven => 7,
            CountOfLeastSignificantBits::Eight => 8,
        }
    }

    /// Turns a number of bits into the value that stands for it. Numbers
    /// above eight are handed back inside the error.
    pub fn try_from_bit_count(bit_count: usize) -> (result: Result<Self, TryFromBitCountError>)
        ensures
            bit_count <= 8 ==> result == Ok::<Self, TryFromBitCountError>(
                Self::of_bits(bit_count as nat).unwrap(),
            ),
            bit_count <= 8 ==> result.unwrap().bits() == bit_count,
            bit_count > 8 ==> result == Err::<Self, TryFromBitCountError>(
                TryFromBitCountError::Unknown(bit_count),
            ),
    {
        match bit_count {
            0 => Ok(Self::Zero),
            1 => Ok(Self::One),
            2 => Ok(Self::Two),
            3 => Ok(Self::Three),
            4 => Ok(Self::Four),
            5 => Ok(Self::Five),
            6 => Ok(Self::Six),
            7 => Ok(Self::Seven),
            8 => Ok(Self::Eight),
            _ => Err(TryFromBitCountError::Unknown(bit_count)),
        }
    }
}

/// Turning a value into its number of bits and back gives the value again.
pub proof fn lemma_bit_count_round_trip(width: CountOfLeastSignificantBits)
    ensures
        width.bits() <= 8,
        CountOfLeastSignificantBits::of_bits(width.bits()) == Some(width),
{
}

} // verus!
