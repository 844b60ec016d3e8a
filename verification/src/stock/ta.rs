//! Technical-analysis indicators.
//!
//! Each indicator reads one or more series of equal step and yields a
//! series that is shorter by a fixed number of values: it needs a minimum of
//! inputs for its first value and yields one more value for each input
//! beyond them. Value `k` of the output belongs to input `k + required - 1`.

use vstd::prelude::*;
use crate::error::TaError;
use crate::number::Level;

pub mod bollinger_band;
pub mod ema;
pub mod macd;
pub mod obv;
pub mod rsi;
pub mod sma;
pub mod stochastic_oscillator;

verus! {

/// The number of values that an indicator yields from `received` inputs
/// when its first value takes `required` of them.
pub open spec fn yielded(received: int, required: int) -> int {
    received - required + 1
}

/// Checks that a series is long enough and says how many values come of it.
///
/// Refused with `InsufficientData` exactly where `received < required`.
pub fn yield_len(received: usize, required: usize) -> (r: Result<usize, TaError>)
    requires
        required > 0 || received < usize::MAX,
    ensures
        match r {
            Ok(n) => received >= required && n == yielded(received as int, required as int),
            Err(e) => received < required && e == (TaError::InsufficientData {
                received,
                required,
            }),
        },
{
    if received < required {
        Err(TaError::InsufficientData { received, required })
    } else {
        Ok(received - required + 1)
    }
}

/// A copy of the stretch of `v` from `from` up to `to`.
pub fn stretch_of<T: Copy>(v: &Vec<T>, from: usize, to: usize) -> (r: Vec<T>)
    requires
        from <= to <= v.len(),
    ensures
        r@ == v@.subrange(from as int, to as int),
{
    let mut r: Vec<T> = Vec::new();
    let mut j: usize = from;
    while j < to
        invariant
            from <= j <= to <= v.len(),
            r@ == v@.subrange(from as int, j as int),
        decreases to - j,
    {
        r.push(v[j]);
        assert(r@ =~= v@.subrange(from as int, j + 1));
        j = j + 1;
    }
    r
}

/// How a price stands to the price one step before it.
#[derive(Clone, Copy, Debug, PartialEq, Eq, Structural)]
pub enum Move {
    /// The price is above the one before.
    Up,
    /// The price is below the one before.
    Down,
    /// Neither is above the other: they are equal, or they do not compare.
    Flat,
}

/// The move from `before` to `now`.
pub open spec fn move_between<T: Level>(before: T, now: T) -> Move {
    if before.under(now) {
        Move::Up
    } else if now.under(before) {
        Move::Down
    } else {
        Move::Flat
    }
}

/// The move from `before` to `now`.
pub fn move_to<T: Level>(before: T, now: T) -> (m: Move)
    ensures
        m == move_between(before, now),
{
    if before.below(now) {
        Move::Up
    } else if now.below(before) {
        Move::Down
    } else {
        Move::Flat
    }
}

} // verus!
