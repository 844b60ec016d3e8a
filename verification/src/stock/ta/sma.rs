//! Simple moving average: the unweighted mean of each window of `periods`
//! successive prices.

use vstd::prelude::*;
use crate::error::TaError;
use crate::number::{mean, mean_of, Number};
use crate::stock::ta::yield_len;

verus! {

/// The simple moving averages of a series of prices, over windows of
/// `periods` prices.
///
/// Yields one mean for each window, the earliest first: value `k` is the
/// mean of the prices `k` to `k + periods - 1`, so that the series yields
/// `len - periods + 1` values.
///
/// Refused with `InsufficientData` exactly where there are fewer than
/// `periods` prices.
pub fn run<T: Number>(prices: Vec<T>, periods: usize) -> (r: Result<Vec<T>, TaError>)
    requires
        periods > 0 || prices.len() < usize::MAX,
    ensures
        match r {
            Ok(smas) => {
                &&& prices.len() >= periods
                &&& smas.len() == prices.len() - periods + 1
                &&& forall|k: int|
                    0 <= k < smas.len() ==> #[trigger] smas[k] == mean(
                        prices@.subrange(k, k + periods),
                    )
            },
            Err(e) => prices.len() < periods && e == (TaError::InsufficientData {
                received: prices.len(),
                required: periods,
            }),
        },
{
    let count = match yield_len(prices.len(), periods) {
        Ok(count) => count,
        Err(e) => {
            return Err(e);
        },
    };
    let mut smas: Vec<T> = Vec::new();
    let mut k: usize = 0;
    while k < count
        invariant
            k <= count,
            count == prices.len() - periods + 1,
            periods <= prices.len(),
            smas.len() == k,
            forall|m: int|
                0 <= m < smas.len() ==> #[trigger] smas[m] == mean(
                    prices@.subrange(m, m + periods),
                ),
        decreases count - k,
    {
        smas.push(mean_of(&prices, k, k + periods));
        k = k + 1;
    }
    Ok(smas)
}

} // verus!
