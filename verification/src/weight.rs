//! The weighing pipeline: raw readings of a load cell are smoothed in a
//! window, turned into a weight with the tare offset and the calibration
//! factor, and classified as stable, unstable, underloaded or overloaded.
//!
//! The calibration factor is the 32-bit encoding of a single-precision
//! number, as it is kept for atomic storage; all arithmetic on it is done in
//! integers and gives, bit for bit, what the hardware division gives.

use crate::single::{
    decode,
    divide,
    encode,
    encode_bits,
    from_nat,
    is_finite,
    is_zero,
    lemma_bit_length_at_most,
    magnitude,
    nearest_integer,
    normalized,
    quotient,
    round_to_i32,
    round_to_single,
    saturate,
    sign_bit,
    with_sign,
};
use crate::window::{keep_last, lemma_pushes_keep_newest, mean, push_all, BoundedWindow};
use std::collections::VecDeque;
use vstd::arithmetic::power2::{lemma2_to64, lemma2_to64_rest};
use vstd::prelude::*;

verus! {

/// The largest weight that the scale is rated for.
pub const MAX_WEIGHT: i32 = 5000;

/// The number of reads that warm the pipeline up.
pub const WARM_UP_READS: usize = 10;

/// The pause that the converter needs between two reads, in milliseconds.
pub const READ_INTERVAL_MS: u64 = 100;

/// The state of a weight that was measured.
#[derive(Debug, Clone, Copy, PartialEq, Eq)]
pub enum WeightStatus {
    /// The last readings do not agree.
    Unstable,
    /// The last readings all give the same weight.
    Stable,
    /// The weight is negative.
    Underload,
    /// The weight is above `MAX_WEIGHT`.
    Overload,
    /// No weight could be determined.
    Error,
}

/// Why an operation of the pipeline failed.
#[derive(Debug, Clone, Copy, PartialEq, Eq)]
pub enum WeightError {
    /// The calibration factor is zero, so no weight can be computed.
    Calibration,
    /// The reference weight of a calibration is zero.
    InvalidReference,
}

/// A press of the control button that lasts longer than this many
/// nanoseconds asks for a calibration.
pub const LONG_PRESS_NS: u128 = 3_000_000_000;

/// The weight of the reference that is on the scale during a calibration.
pub const REFERENCE_WEIGHT: i32 = 100;

/// What a press of the control button asks for.
#[derive(Debug, Clone, Copy, PartialEq, Eq)]
pub enum ControlAction {
    /// Take the present load as zero.
    Tare,
    /// Take the present load as the reference weight.
    Calibrate,
}

/// What a press that lasted `held_ns` nanoseconds asks for: a short press
/// tares, a press of more than three seconds calibrates.
pub fn action_for_press(held_ns: u128) -> (action: ControlAction)
    ensures
        action == if held_ns > LONG_PRESS_NS {
            ControlAction::Calibrate
        } else {
            ControlAction::Tare
        },
{
    if held_ns > LONG_PRESS_NS {
        ControlAction::Calibrate
    } else {
        ControlAction::Tare
    }
}

/// The absolute value of `x`.
pub open spec fn abs(x: int) -> nat {
    if x < 0 {
        (-x) as nat
    } else {
        x as nat
    }
}

/// The weight that a zero-adjusted reading `valid` stands for under the
/// calibration factor encoded in `factor`: the reading, rounded to single
/// precision, divided by the factor in single precision, then rounded to the
/// nearest integer with ties away from zero and limited to the range of
/// `i32`.  A factor that is an infinity or a NaN gives 0.  Meant for a
/// factor that is not zero.
pub open spec fn weight_of(valid: int, factor: u32) -> int {
    if valid == 0 || !is_finite(factor) {
        0
    } else {
        let q = quotient(from_nat(abs(valid)), normalized(magnitude(factor)));
        saturate(with_sign((valid < 0) != sign_bit(factor), nearest_integer(q)))
    }
}

/// The weight for the reading `adc_data` with tare offset `zero_offset`,
/// or the calibration error if the factor is zero.
pub open spec fn transform(adc_data: i32, zero_offset: i32, factor: u32) -> Result<
    i32,
    WeightError,
> {
    if is_zero(factor) {
        Err(WeightError::Calibration)
    } else {
        Ok(weight_of(adc_data - zero_offset, factor) as i32)
    }
}

/// A stability window is stable when it is filled to its capacity and every
/// entry gives a weight, the same for all.
pub open spec fn stable(window: Seq<i32>, cap: nat, zero_offset: i32, factor: u32) -> bool {
    &&& window.len() >= cap
    &&& forall|i: int|
        0 <= i < window.len() ==> {
            &&& #[trigger] transform(window[i], zero_offset, factor) is Ok
            &&& transform(window[i], zero_offset, factor) == transform(
                window[0],
                zero_offset,
                factor,
            )
        }
}

/// The status of a weight: underload and overload come before stability.
pub open spec fn status_of(weight: int, stable: bool) -> WeightStatus {
    if weight < 0 {
        WeightStatus::Underload
    } else if weight > MAX_WEIGHT {
        WeightStatus::Overload
    } else if stable {
        WeightStatus::Stable
    } else {
        WeightStatus::Unstable
    }
}

/// The encoding of the calibration factor `valid / reference`, both rounded
/// to single precision and divided in single precision.  Meant for a
/// reference that is not zero.
pub open spec fn scale_factor(valid: int, reference: int) -> u32 {
    let negative = (valid < 0) != (reference < 0);
    if valid == 0 {
        if negative {
            0x8000_0000
        } else {
            0
        }
    } else {
        encode(negative, quotient(from_nat(abs(valid)), from_nat(abs(reference))))
    }
}

/// A weight below zero is an underload and a weight above the maximum an
/// overload, whatever the stability window holds; a weight in range is
/// stable exactly if the window is.
pub proof fn lemma_status_priority(weight: int, stable: bool)
    ensures
        weight < 0 ==> status_of(weight, stable) == WeightStatus::Underload,
        weight > MAX_WEIGHT ==> status_of(weight, stable) == WeightStatus::Overload,
        0 <= weight <= MAX_WEIGHT ==> (status_of(weight, stable) == WeightStatus::Stable
            <==> stable),
        0 <= weight <= MAX_WEIGHT ==> (status_of(weight, stable) == WeightStatus::Unstable
            <==> !stable),
{
}

/// A window with fewer entries than its capacity is never stable.  A
/// window filled to its capacity is stable if the factor is not zero and
/// all entries give the same weight, and not stable as soon as two entries
/// give different weights.
pub proof fn lemma_stability(window: Seq<i32>, cap: nat, zero_offset: i32, factor: u32)
    ensures
        window.len() < cap ==> !stable(window, cap, zero_offset, factor),
        window.len() >= cap && !is_zero(factor) && (forall|i: int, j: int|
            0 <= i < window.len() && 0 <= j < window.len() ==> weight_of(
                window[i] - zero_offset,
                factor,
            ) == weight_of(window[j] - zero_offset, factor)) ==> stable(
            window,
            cap,
            zero_offset,
            factor,
        ),
        (exists|i: int, j: int|
            0 <= i < window.len() && 0 <= j < window.len() && transform(
                window[i],
                zero_offset,
                factor,
            ) != transform(window[j], zero_offset, factor)) ==> !stable(
            window,
            cap,
            zero_offset,
            factor,
        ),
        window.len() > 0 && is_zero(factor) ==> !stable(window, cap, zero_offset, factor),
{
    if window.len() > 0 && is_zero(factor) {
        assert(transform(window[0], zero_offset, factor) is Err);
    }
    if exists|i: int, j: int|
        0 <= i < window.len() && 0 <= j < window.len() && transform(window[i], zero_offset, factor)
            != transform(window[j], zero_offset, factor) {
        let (i, j) = choose|i: int, j: int|
            0 <= i < window.len() && 0 <= j < window.len() && transform(
                window[i],
                zero_offset,
                factor,
            ) != transform(window[j], zero_offset, factor);
        if stable(window, cap, zero_offset, factor) {
            assert(transform(window[i], zero_offset, factor) == transform(
                window[0],
                zero_offset,
                factor,
            ));
            assert(transform(window[j], zero_offset, factor) == transform(
                window[0],
                zero_offset,
                factor,
            ));
        }
    }
}

/// With a zero factor the transform fails for every reading and offset.
pub proof fn lemma_transform_fails_without_factor(adc_data: i32, zero_offset: i32, factor: u32)
    ensures
        is_zero(factor) <==> transform(adc_data, zero_offset, factor) == Err::<
            i32,
            WeightError,
        >(WeightError::Calibration),
        !is_zero(factor) <==> transform(adc_data, zero_offset, factor) is Ok,
{
}

impl WeightStatus {
    /// The number that stands for the status on the wire.
    pub fn code(&self) -> (c: i32)
        ensures
            c == match *self {
                WeightStatus::Unstable => 0i32,
                WeightStatus::Stable => 1i32,
                WeightStatus::Underload => 2i32,
                WeightStatus::Overload => 3i32,
                WeightStatus::Error => 4i32,
            },
    {
        match self {
            WeightStatus::Unstable => 0,
            WeightStatus::Stable => 1,
            WeightStatus::Underload => 2,
            WeightStatus::Overload => 3,
            WeightStatus::Error => 4,
        }
    }
}

/// The magnitude of `x`.
fn magnitude_of(x: i64) -> (m: u64)
    requires
        x != i64::MIN,
    ensures
        m == abs(x as int),
{
    if x < 0 {
        (-x) as u64
    } else {
        x as u64
    }
}

/// Converts a raw reading into a weight.
///
/// Fails with `WeightError::Calibration` exactly if the factor encodes
/// zero, of either sign.
pub fn adc_data_transform(adc_data: i32, zero_offset: i32, transform_factor: u32) -> (r: Result<
    i32,
    WeightError,
>)
    ensures
        r == transform(adc_data, zero_offset, transform_factor),
{
    if transform_factor == 0 || transform_factor == 0x8000_0000 {
        return Err(WeightError::Calibration);
    }
    let valid: i64 = adc_data as i64 - zero_offset as i64;
    let field = (transform_factor / 0x80_0000) % 0x100;
    if valid == 0 || field == 0xff {
        return Ok(0);
    }
    let (factor_negative, factor) = decode(transform_factor);
    let reading = round_to_single(magnitude_of(valid));
    let q = divide(reading, factor);
    Ok(round_to_i32((valid < 0) != factor_negative, q))
}

/// Whether the stability window is filled and all its entries give the
/// same weight.
pub fn is_stable(
    adc_data_stable_queue: &VecDeque<i32>,
    sq_cap: usize,
    zero_offset: i32,
    transform_factor: u32,
) -> (b: bool)
    ensures
        b == stable(adc_data_stable_queue@, sq_cap as nat, zero_offset, transform_factor),
{
    let n = adc_data_stable_queue.len();
    if n < sq_cap {
        return false;
    }
    let mut first: Option<i32> = None;
    let mut i: usize = 0;
    while i < n
        invariant
            n == adc_data_stable_queue@.len(),
            n >= sq_cap,
            i <= n,
            i == 0 <==> first is None,
            forall|j: int|
                0 <= j < i ==> #[trigger] transform(
                    adc_data_stable_queue@[j],
                    zero_offset,
                    transform_factor,
                ) == Ok::<i32, WeightError>(first->0),
        decreases n - i,
    {
        match adc_data_transform(adc_data_stable_queue[i], zero_offset, transform_factor) {
            Ok(weight) => {
                match first {
                    Some(w) => {
                        if weight != w {
                            assert(transform(adc_data_stable_queue@[0], zero_offset, transform_factor)
                                == Ok::<i32, WeightError>(w));
                            return false;
                        }
                    },
                    None => {
                        first = Some(weight);
                    },
                }
            },
            Err(_) => {
                return false;
            },
        }
        i = i + 1;
    }
    true
}

/// The status of a weight that was computed from the newest entry of the
/// stability window.
pub fn weight_status(
    weight: i32,
    adc_data_stable_queue: &VecDeque<i32>,
    sq_cap: usize,
    zero_offset: i32,
    transform_factor: u32,
) -> (status: WeightStatus)
    ensures
        status == status_of(
            weight as int,
            stable(adc_data_stable_queue@, sq_cap as nat, zero_offset, transform_factor),
        ),
{
    if weight < 0 {
        WeightStatus::Underload
    } else if weight > MAX_WEIGHT {
        WeightStatus::Overload
    } else if is_stable(adc_data_stable_queue, sq_cap, zero_offset, transform_factor) {
        WeightStatus::Stable
    } else {
        WeightStatus::Unstable
    }
}

/// The readings among `attempts` that succeeded, in their order.
pub open spec fn successes(attempts: Seq<Option<i32>>) -> Seq<i32>
    decreases attempts.len(),
{
    if attempts.len() == 0 {
        Seq::<i32>::empty()
    } else {
        match attempts.last() {
            Some(value) => successes(attempts.drop_last()).push(value),
            None => successes(attempts.drop_last()),
        }
    }
}

/// What one cycle publishes for the smoothed reading `average`: the weight
/// with its status, or 0 with `Error` where no weight can be computed.
pub open spec fn cycle_result(
    average: i32,
    stability: Seq<i32>,
    cap: nat,
    zero_offset: i32,
    factor: u32,
) -> (i32, WeightStatus) {
    match transform(average, zero_offset, factor) {
        Ok(weight) => (weight, status_of(weight as int, stable(stability, cap, zero_offset, factor))),
        Err(_) => (0i32, WeightStatus::Error),
    }
}

/// The calibration state that the sampling side and the control side
/// share: the newest smoothed reading, the tare offset and the encoded
/// calibration factor.  No invariant ties the three together.
#[derive(Debug, Clone, Copy, PartialEq, Eq)]
pub struct WeightProcessor {
    /// The newest smoothed reading.
    pub adc_data_latest_average: i32,
    /// The reading that stands for an empty scale.
    pub adc_data_zero_offset: i32,
    /// The calibration factor, as the bits of a single-precision number.
    pub adc_data_transform_factor: u32,
}

/// The windows that the sampling side owns.
pub struct Sampler {
    /// The last raw readings, for smoothing.
    pub buffer: BoundedWindow,
    /// The last smoothed readings, for the stability check.
    pub stability: BoundedWindow,
}

impl WeightProcessor {
    /// The state after a tare: the newest smoothed reading is the zero
    /// offset.
    pub open spec fn tared(self) -> WeightProcessor {
        WeightProcessor {
            adc_data_latest_average: self.adc_data_latest_average,
            adc_data_zero_offset: self.adc_data_latest_average,
            adc_data_transform_factor: self.adc_data_transform_factor,
        }
    }

    /// A second tare with no new reading in between changes nothing: the
    /// zero offset is the same after both.
    pub proof fn lemma_tare_idempotent(self)
        ensures
            self.tared().tared() == self.tared(),
            self.tared().tared().adc_data_zero_offset == self.tared().adc_data_zero_offset,
    {
    }

    /// Warms the pipeline up with the outcomes of the first reads, `None`
    /// standing for a read that failed.  The readings that succeeded fill
    /// the smoothing window; their mean becomes both the tare offset and the
    /// newest smoothed reading, and the first entry of the stability window.
    pub fn new(bq_cap: usize, sq_cap: usize, transform_factor: u32, warm_up: &Vec<Option<i32>>) -> (r:
        (WeightProcessor, Sampler))
        ensures
            r.1.buffer.cap() == bq_cap,
            r.1.stability.cap() == sq_cap,
            r.1.buffer@ == keep_last(successes(warm_up@), bq_cap as nat),
            r.1.stability@ == keep_last(seq![r.0.adc_data_latest_average], sq_cap as nat),
            r.0.adc_data_latest_average == mean(r.1.buffer@),
            r.0.adc_data_zero_offset == mean(r.1.buffer@),
            r.0.adc_data_transform_factor == transform_factor,
    {
        let mut buffer = BoundedWindow::new(bq_cap);
        let mut stability = BoundedWindow::new(sq_cap);
        let mut i: usize = 0;
        while i < warm_up.len()
            invariant
                i <= warm_up@.len(),
                buffer.cap() == bq_cap,
                buffer@ == push_all(
                    Seq::<i32>::empty(),
                    bq_cap as nat,
                    successes(warm_up@.subrange(0, i as int)),
                ),
            decreases warm_up@.len() - i,
        {
            proof {
                assert(warm_up@.subrange(0, i + 1).drop_last() == warm_up@.subrange(0, i as int));
                let done = successes(warm_up@.subrange(0, i as int));
                if warm_up@[i as int] is Some {
                    assert(done.push(warm_up@[i as int]->0).drop_last() == done);
                }
            }
            if let Some(data) = warm_up[i] {
                buffer.push(data);
            }
            i = i + 1;
        }
        proof {
            assert(warm_up@.subrange(0, i as int) == warm_up@);
            lemma_pushes_keep_newest(bq_cap as nat, successes(warm_up@));
        }
        let init_adc_data_average = buffer.average();
        stability.push(init_adc_data_average);
        assert(Seq::<i32>::empty().push(init_adc_data_average) == seq![init_adc_data_average]);
        (
            WeightProcessor {
                adc_data_latest_average: init_adc_data_average,
                adc_data_zero_offset: init_adc_data_average,
                adc_data_transform_factor: transform_factor,
            },
            Sampler { buffer, stability },
        )
    }

    /// Tares the scale: the newest smoothed reading becomes the zero offset.
    pub fn set_tare_weight(&mut self)
        ensures
            *final(self) == old(self).tared(),
    {
        self.adc_data_zero_offset = self.adc_data_latest_average;
    }

    /// Calibrates the scale with a reference of known weight on it: the
    /// factor becomes the zero-adjusted newest reading divided by
    /// `actual_weight`, and is returned in its encoding.
    ///
    /// Fails with `WeightError::InvalidReference` exactly if `actual_weight`
    /// is 0; the state is then left as it was.
    pub fn set_transform_factor(&mut self, actual_weight: i32) -> (r: Result<u32, WeightError>)
        ensures
            final(self).adc_data_latest_average == old(self).adc_data_latest_average,
            final(self).adc_data_zero_offset == old(self).adc_data_zero_offset,
            actual_weight == 0 ==> r == Err::<u32, WeightError>(WeightError::InvalidReference)
                && *final(self) == *old(self),
            actual_weight != 0 ==> r == Ok::<u32, WeightError>(
                scale_factor(
                    old(self).adc_data_latest_average - old(self).adc_data_zero_offset,
                    actual_weight as int,
                ),
            ) && final(self).adc_data_transform_factor == r->Ok_0,
    {
        if actual_weight == 0 {
            return Err(WeightError::InvalidReference);
        }
        let valid: i64 = self.adc_data_latest_average as i64 - self.adc_data_zero_offset as i64;
        let negative = (valid < 0) != (actual_weight < 0);
        let bits: u32 = if valid == 0 {
            if negative {
                0x8000_0000
            } else {
                0
            }
        } else {
            let reading = magnitude_of(valid);
            let reference = magnitude_of(actual_weight as i64);
            proof {
                lemma2_to64();
                lemma2_to64_rest();
                lemma_bit_length_at_most(reading as nat, 33);
                lemma_bit_length_at_most(reference as nat, 33);
            }
            let q = divide(round_to_single(reading), round_to_single(reference));
            encode_bits(negative, q)
        };
        self.adc_data_transform_factor = bits;
        Ok(bits)
    }
}

impl Sampler {
    /// One cycle of the sampling loop.
    ///
    /// A read that failed (`None`) publishes 0 with `Error` and leaves the
    /// windows and the shared state alone.  A reading enters the smoothing
    /// window; the mean of that window becomes the newest smoothed reading
    /// and enters the stability window; the mean is then converted with the
    /// shared tare offset and factor, and classified.
    pub fn cycle(&mut self, shared: &mut WeightProcessor, reading: Option<i32>) -> (result: (
        i32,
        WeightStatus,
    ))
        ensures
            final(self).buffer.cap() == old(self).buffer.cap(),
            final(self).stability.cap() == old(self).stability.cap(),
            final(shared).adc_data_zero_offset == old(shared).adc_data_zero_offset,
            final(shared).adc_data_transform_factor == old(shared).adc_data_transform_factor,
            reading is None ==> {
                &&& result == (0i32, WeightStatus::Error)
                &&& final(self).buffer@ == old(self).buffer@
                &&& final(self).stability@ == old(self).stability@
                &&& *final(shared) == *old(shared)
            },
            reading matches Some(data) ==> {
                &&& final(self).buffer@ == keep_last(
                    old(self).buffer@.push(data),
                    old(self).buffer.cap(),
                )
                &&& final(shared).adc_data_latest_average == mean(final(self).buffer@)
                &&& final(self).stability@ == keep_last(
                    old(self).stability@.push(final(shared).adc_data_latest_average),
                    old(self).stability.cap(),
                )
                &&& result == cycle_result(
                    final(shared).adc_data_latest_average,
                    final(self).stability@,
                    old(self).stability.cap(),
                    old(shared).adc_data_zero_offset,
                    old(shared).adc_data_transform_factor,
                )
            },
    {
        match reading {
            None => (0, WeightStatus::Error),
            Some(data) => {
                self.buffer.push(data);
                let adc_data_average = self.buffer.average();
                shared.adc_data_latest_average = adc_data_average;
                self.stability.push(adc_data_average);
                let zero_offset = shared.adc_data_zero_offset;
                let transform_factor = shared.adc_data_transform_factor;
                match adc_data_transform(adc_data_average, zero_offset, transform_factor) {
                    Ok(weight) => {
                        let status = weight_status(
                            weight,
                            self.stability.items(),
                            self.stability.capacity(),
                            zero_offset,
                            transform_factor,
                        );
                        (weight, status)
                    },
                    Err(_) => (0, WeightStatus::Error),
                }
            },
        }
    }
}

} // verus!
