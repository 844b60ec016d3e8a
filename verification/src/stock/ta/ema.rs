//! Exponential moving average: a mean that weighs each new price with
//! `2 / (periods + 1)` against the mean so far.
//!
//! The first `periods` prices seed the mean with their simple average, which
//! is not itself part of the output; each price after them yields one value.

use vstd::prelude::*;
use crate::error::TaError;
use crate::number::{mean, mean_of, Number};
use crate::stock::ta::yield_len;

verus! {

/// The weight of the newest price: `2 / (periods + 1)`.
pub open spec fn smoothing<T: Number>(periods: usize) -> T {
    T::of_count(2).quotient(T::of_count(periods).sum(T::of_count(1)))
}

/// The new mean: `price * s + prev * (1 - s)`.
pub open spec fn blend<T: Number>(price: T, prev: T, s: T) -> T {
    price.product(s).sum(prev.product(T::of_count(1).difference(s)))
}

/// Value `k` of the exponential moving average; value -1 is the seed, the
/// simple average of the first `periods` prices. Value `k` blends the price
/// `periods + k` into the value before it.
pub open spec fn ema_at<T: Number>(prices: Seq<T>, periods: usize, k: int) -> T
    decreases k + 1,
{
    if k < 0 {
        mean(prices.subrange(0, periods as int))
    } else {
        blend(prices[periods + k], ema_at(prices, periods, k - 1), smoothing::<T>(periods))
    }
}

/// The exponential moving averages of a series of prices.
///
/// Yields one value for each price after the first `periods`, `len -
/// periods` in all; the seed is not among them.
///
/// Refused with `InsufficientData` exactly where there are fewer than
/// `periods + 1` prices.
pub fn run<T: Number>(prices: Vec<T>, periods: usize) -> (r: Result<Vec<T>, TaError>)
    requires
        periods < usize::MAX,
    ensures
        match r {
            Ok(emas) => {
                &&& prices.len() >= periods + 1
                &&& emas.len() == prices.len() - periods
                &&& forall|k: int|
                    0 <= k < emas.len() ==> #[trigger] emas[k] == ema_at(prices@, periods, k)
            },
            Err(e) => prices.len() < periods + 1 && e == (TaError::InsufficientData {
                received: prices.len(),
                required: (periods + 1) as usize,
            }),
        },
{
    let count = match yield_len(prices.len(), periods + 1) {
        Ok(count) => count,
        Err(e) => {
            return Err(e);
        },
    };
    let smoothing = T::count(2).over(T::count(periods).plus(T::count(1)));
    let mut emas: Vec<T> = Vec::new();
    let mut ema_prev = mean_of(&prices, 0, periods);
    let mut k: usize = 0;
    while k < count
        invariant
            k <= count,
            count == prices.len() - periods,
            emas.len() == k,
            smoothing == self::smoothing::<T>(periods),
            ema_prev == ema_at(prices@, periods, k - 1),
            forall|m: int| 0 <= m < emas.len() ==> #[trigger] emas[m] == ema_at(prices@, periods, m),
        decreases count - k,
    {
        let ema = prices[periods + k].times(smoothing).plus(
            ema_prev.times(T::count(1).minus(smoothing)),
        );
        ema_prev = ema;
        emas.push(ema);
        k = k + 1;
    }
    Ok(emas)
}

} // verus!
