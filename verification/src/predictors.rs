//! Pixel predictors of the single-channel Modular coding (C.9.3.1).
//!
//! | id | name      | formula                                  |
//! |----|-----------|------------------------------------------|
//! | 0  | Zero      | `ch_zero` (constant per-channel zero)    |
//! | 1  | Average   | `(left + top) Idiv 2`                    |
//! | 2  | Gradient  | `median(left + top - topleft, left, top)`|
//! | 3  | Left      | `left`                                   |
//! | 4  | Top       | `top`                                    |
//!
//! `ch_zero` is `max(channel.min, min(channel.max, 0))`.
use vstd::prelude::*;

verus! {

/// Whether an integer is representable as an `i32`.
pub open spec fn fits_i32(v: int) -> bool {
    i32::MIN <= v <= i32::MAX
}

/// The five modular predictors, declared in the order of their ids.
#[derive(Debug, Clone, Copy, PartialEq, Eq, Structural)]
pub enum Predictor {
    Zero,
    Average,
    Gradient,
    Left,
    Top,
}

/// The id under which a predictor is signalled.
pub open spec fn spec_predictor_id(p: Predictor) -> u32 {
    match p {
        Predictor::Zero => 0,
        Predictor::Average => 1,
        Predictor::Gradient => 2,
        Predictor::Left => 3,
        Predictor::Top => 4,
    }
}

/// The predictor signalled by `id`, if any.
pub open spec fn spec_from_id(id: u32) -> Option<Predictor> {
    if id == 0 {
        Some(Predictor::Zero)
    } else if id == 1 {
        Some(Predictor::Average)
    } else if id == 2 {
        Some(Predictor::Gradient)
    } else if id == 3 {
        Some(Predictor::Left)
    } else if id == 4 {
        Some(Predictor::Top)
    } else {
        None
    }
}

/// Smaller of two integers.
pub open spec fn spec_min(a: int, b: int) -> int {
    if a <= b { a } else { b }
}

/// Larger of two integers.
pub open spec fn spec_max(a: int, b: int) -> int {
    if a <= b { b } else { a }
}

/// Median of three integers: `max(min(a, b), min(max(a, b), c))`.
pub open spec fn spec_median3(a: int, b: int, c: int) -> int {
    spec_max(spec_min(a, b), spec_min(spec_max(a, b), c))
}

/// `ch_zero = max(min, min(max, 0))`.
pub open spec fn spec_ch_zero(channel_min: int, channel_max: int) -> int {
    spec_max(channel_min, spec_min(channel_max, 0))
}

/// The predictor formulas over mathematical integers (`/` is the
/// flooring division).
pub open spec fn spec_predict(p: Predictor, left: int, top: int, topleft: int, ch_zero: int) -> int {
    match p {
        Predictor::Zero => ch_zero,
        Predictor::Average => (left + top) / 2,
        Predictor::Gradient => spec_median3(left + top - topleft, left, top),
        Predictor::Left => left,
        Predictor::Top => top,
    }
}

/// The predictor's 32-bit arithmetic does not overflow on these
/// neighbours (`left + top` and `left + top - topleft` are evaluated
/// in `i32`).
pub open spec fn predict_defined(p: Predictor, left: int, top: int, topleft: int) -> bool {
    match p {
        Predictor::Average => fits_i32(left + top),
        Predictor::Gradient => fits_i32(left + top) && fits_i32(left + top - topleft),
        _ => true,
    }
}

impl Predictor {
    /// Map a predictor id (0..=4) to the corresponding predictor;
    /// `None` for any other id.
    pub fn from_id(id: u32) -> (r: Option<Self>)
        ensures
            r == spec_from_id(id),
    {
        match id {
            0 => Some(Predictor::Zero),
            1 => Some(Predictor::Average),
            2 => Some(Predictor::Gradient),
            3 => Some(Predictor::Left),
            4 => Some(Predictor::Top),
            _ => None,
        }
    }

    /// Evaluate this predictor on in-bounds `left` / `top` / `topleft`
    /// neighbours and the channel's `ch_zero`. Border replacement is the
    /// caller's responsibility.
    pub fn predict(self, left: i32, top: i32, topleft: i32, ch_zero: i32) -> (r: i32)
        requires
            predict_defined(self, left as int, top as int, topleft as int),
        ensures
            r == spec_predict(self, left as int, top as int, topleft as int, ch_zero as int),
    {
        match self {
            Predictor::Zero => ch_zero,
            Predictor::Average => {
                let s = left + top;
                match s.checked_div_euclid(2) {
                    Some(q) => q,
                    None => 0,
                }
            },
            Predictor::Gradient => median3(left + top - topleft, left, top),
            Predictor::Left => left,
            Predictor::Top => top,
        }
    }
}

/// The channel's `ch_zero` value: `max(min, min(max, 0))`.
pub fn ch_zero(channel_min: i32, channel_max: i32) -> (r: i32)
    ensures
        r == spec_ch_zero(channel_min as int, channel_max as int),
{
    let m = if channel_max <= 0 { channel_max } else { 0 };
    if channel_min <= m { m } else { channel_min }
}

/// Three-element median, used by the Gradient predictor.
pub fn median3(a: i32, b: i32, c: i32) -> (r: i32)
    ensures
        r == spec_median3(a as int, b as int, c as int),
{
    let lo = if a <= b { a } else { b };
    let hi = if a <= b { b } else { a };
    let m = if hi <= c { hi } else { c };
    if lo <= m { m } else { lo }
}

/// The median of three values is one of them and is no smaller than the
/// smallest nor larger than the largest; it does not depend on the order
/// of its first two arguments.
pub proof fn law_median3(a: int, b: int, c: int)
    ensures
        spec_median3(a, b, c) == a || spec_median3(a, b, c) == b || spec_median3(a, b, c) == c,
        spec_min(spec_min(a, b), c) <= spec_median3(a, b, c) <= spec_max(spec_max(a, b), c),
        spec_median3(a, b, c) == spec_median3(b, a, c),
{
}

/// The Gradient predictor's result always lies between `left` and `top`.
pub proof fn law_gradient_between_neighbours(left: int, top: int, topleft: int, z: int)
    ensures
        spec_min(left, top) <= spec_predict(Predictor::Gradient, left, top, topleft, z)
            <= spec_max(left, top),
{
}

/// For a channel with `min <= max`, `ch_zero` lies in `[min, max]`, and is
/// 0 exactly when the range contains 0.
pub proof fn law_ch_zero_in_range(channel_min: int, channel_max: int)
    requires
        channel_min <= channel_max,
    ensures
        channel_min <= spec_ch_zero(channel_min, channel_max) <= channel_max,
        (spec_ch_zero(channel_min, channel_max) == 0) == (channel_min <= 0 <= channel_max),
{
}

/// `from_id` accepts exactly the ids 0..=4 and gives back the predictor
/// whose id is the argument; every predictor is reached from its id.
pub proof fn law_from_id_round_trip(id: u32, p: Predictor)
    ensures
        spec_from_id(id) is Some <==> id < 5,
        spec_from_id(id) is Some ==> spec_predictor_id(spec_from_id(id)->0) == id,
        spec_from_id(spec_predictor_id(p)) == Some(p),
{
}

} // verus!
