//! Moving average convergence divergence: the 12-period exponential moving
//! average less the 26-period one, and a 9-period signal line over that.
//!
//! Each value of the line is computed afresh from a window of 27 prices:
//! both averages are seeded within the window and run to its end.

use vstd::prelude::*;
use crate::error::TaError;
use crate::number::Number;
use crate::stock::ta::ema::{ema_at, run as ema};
use crate::stock::ta::{stretch_of, yield_len};

verus! {

/// The periods of the fast average.
pub const LOW_PERIOD: usize = 12;

/// The periods of the slow average.
pub const HIGH_PERIOD: usize = 26;

/// The periods of the signal line.
pub const SIGNAL_PERIOD: usize = 9;

/// The prices in the window of one value: enough for the slow average.
pub const WINDOW: usize = 27;

/// Value `k` of the line: over the window of the prices `k` to `k + 26`,
/// the last value of the fast average less the last (and only) value of the
/// slow one.
pub open spec fn macd_at<T: Number>(prices: Seq<T>, k: int) -> T {
    let window = prices.subrange(k, k + WINDOW);
    ema_at(window, LOW_PERIOD, WINDOW - LOW_PERIOD - 1).difference(
        ema_at(window, HIGH_PERIOD, WINDOW - HIGH_PERIOD - 1),
    )
}

/// The two lines of the indicator over a series of prices: the line itself
/// and its signal line.
///
/// The line has one value for each window of 27 prices, `len - 26` in all.
/// The signal line is the 9-period exponential moving average of the line
/// where the line has more than 9 values, and is empty otherwise.
///
/// Refused with `InsufficientData` exactly where there are fewer than 27
/// prices.
pub fn run<T: Number>(prices: Vec<T>) -> (r: Result<(Vec<T>, Vec<T>), TaError>)
    ensures
        match r {
            Ok((macd, signal)) => {
                &&& prices.len() >= WINDOW
                &&& macd.len() == prices.len() - HIGH_PERIOD
                &&& forall|k: int| 0 <= k < macd.len() ==> #[trigger] macd[k] == macd_at(prices@, k)
                &&& macd.len() <= SIGNAL_PERIOD ==> signal.len() == 0
                &&& macd.len() > SIGNAL_PERIOD ==> signal.len() == macd.len() - SIGNAL_PERIOD
                &&& forall|j: int|
                    0 <= j < signal.len() ==> #[trigger] signal[j] == ema_at(
                        macd@,
                        SIGNAL_PERIOD,
                        j,
                    )
            },
            Err(e) => prices.len() < WINDOW && e == (TaError::InsufficientData {
                received: prices.len(),
                required: WINDOW,
            }),
        },
{
    let count = match yield_len(prices.len(), WINDOW) {
        Ok(count) => count,
        Err(e) => {
            return Err(e);
        },
    };
    let mut macd: Vec<T> = Vec::new();
    let mut k: usize = 0;
    while k < count
        invariant
            k <= count,
            count == prices.len() - HIGH_PERIOD,
            prices.len() >= WINDOW,
            macd.len() == k,
            forall|m: int| 0 <= m < macd.len() ==> #[trigger] macd[m] == macd_at(prices@, m),
        decreases count - k,
    {
        let emas12 = match ema(stretch_of(&prices, k, k + WINDOW), LOW_PERIOD) {
            Ok(emas) => emas,
            Err(e) => {
                return Err(e);
            },
        };
        let emas26 = match ema(stretch_of(&prices, k, k + WINDOW), HIGH_PERIOD) {
            Ok(emas) => emas,
            Err(e) => {
                return Err(e);
            },
        };
        macd.push(emas12[emas12.len() - 1].minus(emas26[emas26.len() - 1]));
        k = k + 1;
    }
    let mut signal: Vec<T> = Vec::new();
    if macd.len() > SIGNAL_PERIOD {
        let line = stretch_of(&macd, 0, macd.len());
        assert(line@ =~= macd@);
        signal = match ema(line, SIGNAL_PERIOD) {
            Ok(emas) => emas,
            Err(e) => {
                return Err(e);
            },
        };
    }
    Ok((macd, signal))
}

} // verus!
