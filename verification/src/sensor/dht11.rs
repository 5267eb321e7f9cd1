//! The one-wire temperature and humidity sensor: the frame of 40 bits that
//! it sends as pulses, long for a one and short for a zero.

use crate::sensor::bits::{lemma_unsigned_value_bound, unsigned_value};
use vstd::arithmetic::power2::{lemma2_to64, lemma_pow2_strictly_increases, pow2};
use vstd::prelude::*;

verus! {

/// A pulse that stays high for longer than this many nanoseconds is a one.
pub const BIT_THRESHOLD_NS: u64 = 40_000;

/// The longest wait for an edge of the signal, in microseconds.
pub const EDGE_TIMEOUT_US: u64 = 1000;

/// The number of bits in a frame.
pub const FRAME_BITS: usize = 40;

/// Why a frame could not be used.
#[derive(Debug, Clone, Copy, PartialEq, Eq)]
pub enum Dht11Error {
    /// The checksum of the frame does not match its content.
    Checksum,
}

/// The bit that a pulse of the given length stands for.
pub open spec fn bit_of(high_time_ns: u64) -> bool {
    high_time_ns > BIT_THRESHOLD_NS
}

/// The bits that the pulses of a frame stand for.
pub open spec fn frame_bits(high_times_ns: Seq<u64>) -> Seq<bool> {
    Seq::new(high_times_ns.len(), |i: int| bit_of(high_times_ns[i]))
}

/// Byte `k` of a frame of bits.
pub open spec fn frame_byte(bits: Seq<bool>, k: int) -> nat {
    unsigned_value(bits.subrange(8 * k, 8 * k + 8))
}

/// The first four bytes of a frame add up, modulo 256, to the fifth.
pub open spec fn checksum_matches(data: Seq<u8>) -> bool {
    (data[0] + data[1] + data[2] + data[3]) % 256 == data[4] as int
}

/// What a frame gives: the temperature and the relative humidity, both in
/// whole units, unless the checksum is wrong.
pub open spec fn reading(data: Seq<u8>) -> Result<(u8, u8), Dht11Error> {
    if checksum_matches(data) {
        Ok((data[2], data[0]))
    } else {
        Err(Dht11Error::Checksum)
    }
}

/// Turns the lengths of the 40 pulses of a frame into its five bytes.
pub fn assemble_frame(high_times_ns: &[u64; 40]) -> (data: [u8; 5])
    ensures
        forall|k: int| 0 <= k < 5 ==> #[trigger] data@[k] == frame_byte(frame_bits(high_times_ns@), k),
{
    let mut data: [u8; 5] = [0u8; 5];
    let ghost bits = frame_bits(high_times_ns@);
    let mut byte: usize = 0;
    while byte < 5
        invariant
            byte <= 5,
            bits == frame_bits(high_times_ns@),
            forall|k: int| 0 <= k < byte ==> #[trigger] data@[k] == frame_byte(bits, k),
        decreases 5 - byte,
    {
        let mut value: u8 = 0;
        let mut bit: usize = 0;
        let ghost group = bits.subrange(8 * byte, 8 * byte + 8);
        while bit < 8
            invariant
                bit <= 8,
                byte < 5,
                bits == frame_bits(high_times_ns@),
                group == bits.subrange(8 * byte, 8 * byte + 8),
                value == unsigned_value(group.subrange(0, bit as int)),
            decreases 8 - bit,
        {
            proof {
                lemma2_to64();
                assert(group.subrange(0, bit + 1).drop_last() == group.subrange(0, bit as int));
                lemma_unsigned_value_bound(group.subrange(0, bit as int));
                if bit < 7 {
                    lemma_pow2_strictly_increases(bit as nat, 7);
                }
            }
            let one = high_times_ns[byte * 8 + bit] > BIT_THRESHOLD_NS;
            value = value * 2 + if one {
                1
            } else {
                0
            };
            bit = bit + 1;
        }
        assert(group.subrange(0, 8) == group);
        data[byte] = value;
        byte = byte + 1;
    }
    data
}

/// Checks the five bytes of a frame and takes the temperature and the
/// relative humidity out of them, in this order.
pub fn decode_frame(data: &[u8; 5]) -> (r: Result<(u8, u8), Dht11Error>)
    ensures
        r == reading(data@),
{
    let checksum = data[0].wrapping_add(data[1]).wrapping_add(data[2]).wrapping_add(data[3]);
    if checksum != data[4] {
        return Err(Dht11Error::Checksum);
    }
    Ok((data[2], data[0]))
}

} // verus!
