//! The 24-bit load-cell converter: the frame that one conversion clocks
//! out, and the pulses that select channel and gain for the next one.

use crate::sensor::bits::{lemma_unsigned_value_bound, unsigned_value};
use vstd::arithmetic::power2::{lemma2_to64, lemma_pow2_strictly_increases, pow2};
use vstd::prelude::*;

verus! {

/// The number of data bits of one conversion.
pub const DATA_BITS: usize = 24;

/// The input channel and gain of the next conversion.
#[derive(Debug, Clone, Copy, PartialEq, Eq)]
pub enum Gain {
    /// Channel A with a gain of 128.
    ChannelA128,
    /// Channel B with a gain of 32.
    ChannelB32,
    /// Channel A with a gain of 64.
    ChannelA64,
}

impl Gain {
    /// The number of clock pulses that follow the data bits to make this
    /// selection.
    pub open spec fn pulse_count(self) -> nat {
        match self {
            Gain::ChannelA128 => 1,
            Gain::ChannelB32 => 2,
            Gain::ChannelA64 => 3,
        }
    }

    /// The number of clock pulses that follow the data bits to make this
    /// selection.
    pub fn pulses(&self) -> (n: u8)
        ensures
            n == self.pulse_count(),
    {
        match self {
            Gain::ChannelA128 => 1,
            Gain::ChannelB32 => 2,
            Gain::ChannelA64 => 3,
        }
    }
}

/// The number that 24 bits spell in two's complement.
pub open spec fn signed_value(bits: Seq<bool>) -> int {
    if unsigned_value(bits) >= 0x80_0000 {
        unsigned_value(bits) - 0x100_0000
    } else {
        unsigned_value(bits) as int
    }
}

/// Puts the data bits of one conversion together, most significant bit
/// first, and extends the sign of the 24-bit number.
pub fn assemble_sample(bits: &[bool; 24]) -> (sample: i32)
    ensures
        sample == signed_value(bits@),
        -0x80_0000 <= sample < 0x80_0000,
{
    let mut raw_data: u32 = 0;
    let mut i: usize = 0;
    proof {
        lemma2_to64();
    }
    while i < 24
        invariant
            i <= 24,
            raw_data == unsigned_value(bits@.subrange(0, i as int)),
            raw_data < pow2(i as nat),
        decreases 24 - i,
    {
        proof {
            lemma2_to64();
            assert(bits@.subrange(0, i + 1).drop_last() == bits@.subrange(0, i as int));
            lemma_unsigned_value_bound(bits@.subrange(0, i + 1));
            lemma_unsigned_value_bound(bits@.subrange(0, i as int));
            lemma_pow2_strictly_increases(i as nat, 24);
            let r = raw_data;
            assert((r << 1) | 1 == 2 * r + 1 && r << 1 == 2 * r) by (bit_vector)
                requires
                    r < 0x100_0000,
            ;
        }
        if bits[i] {
            raw_data = (raw_data << 1) | 1;
        } else {
            raw_data = raw_data << 1;
        }
        i = i + 1;
    }
    assert(bits@.subrange(0, 24) == bits@);
    let ghost u = raw_data;
    raw_data = raw_data & 0x00FF_FFFF;
    if (raw_data & 0x0080_0000) != 0 {
        raw_data = raw_data | 0xFF00_0000;
    }
    proof {
        lemma2_to64();
        assert(u & 0x00FF_FFFF == u) by (bit_vector)
            requires
                u < 0x100_0000,
        ;
        assert((u & 0x0080_0000 != 0) == (u >= 0x80_0000)) by (bit_vector)
            requires
                u < 0x100_0000,
        ;
        assert(u >= 0x80_0000 ==> (u | 0xFF00_0000) as i32 == u - 0x100_0000) by (bit_vector)
            requires
                u < 0x100_0000,
        ;
        assert(u < 0x80_0000 ==> u as i32 == u) by (bit_vector)
            requires
                u < 0x100_0000,
        ;
    }
    #[verifier::truncate]
    (raw_data as i32)
}

} // verus!
