//! Bollinger bands: the 20-period simple moving average, and a band of two
//! standard deviations on either side of it.
//!
//! The deviation is that of the whole series, not of the window: every
//! band of one series has the same width.

use vstd::prelude::*;
use crate::error::TaError;
use crate::number::{mean, mean_of, Number};
use crate::stock::ta::yield_len;

verus! {

/// The number of prices in the window of each band.
pub const PERIOD: usize = 20;

/// The sum of the squares of what the first `n` numbers of `s` lack to `m`,
/// added one by one to nothing, in their order.
pub open spec fn squares_total<T: Number>(s: Seq<T>, m: T, n: int) -> T
    decreases n,
{
    if n <= 0 {
        T::of_count(0)
    } else {
        squares_total(s, m, n - 1).sum(m.difference(s[n - 1]).product(m.difference(s[n - 1])))
    }
}

/// The standard deviation of the numbers of `s`, as of a whole population:
/// the square root of the mean of the squares of what they lack to their
/// mean.
pub open spec fn std_dev<T: Number>(s: Seq<T>) -> T {
    squares_total(s, mean(s), s.len() as int).quotient(
        T::of_count(s.len() as usize),
    ).square_root()
}

/// Band `k` of a series, as (lower, middle, upper): the middle is the mean
/// of the prices `k` to `k + 19`, and the two others stand two standard
/// deviations of the whole series below and above it.
pub open spec fn band_at<T: Number>(prices: Seq<T>, k: int) -> (T, T, T) {
    let middle = mean(prices.subrange(k, k + PERIOD));
    let spread = T::of_count(2).product(std_dev(prices));
    (middle.difference(spread), middle, middle.sum(spread))
}

/// The standard deviation of a series.
pub fn deviation<T: Number>(data: &Vec<T>) -> (r: T)
    ensures
        r == std_dev(data@),
{
    let n = data.len();
    assert(data@.subrange(0, n as int) =~= data@);
    let m = mean_of(data, 0, n);
    let mut acc = T::count(0);
    let mut j: usize = 0;
    while j < n
        invariant
            j <= n,
            n == data.len(),
            acc == squares_total(data@, m, j as int),
        decreases n - j,
    {
        let diff = m.minus(data[j]);
        acc = acc.plus(diff.times(diff));
        j = j + 1;
    }
    acc.over(T::count(n)).root()
}

/// The Bollinger bands of a series of prices, each as (lower, middle,
/// upper): one band for each window of 20 prices, `len - 19` in all, the
/// earliest first.
///
/// Refused with `InsufficientData` exactly where there are fewer than 20
/// prices.
pub fn run<T: Number>(prices: Vec<T>) -> (r: Result<Vec<(T, T, T)>, TaError>)
    ensures
        match r {
            Ok(bbs) => {
                &&& prices.len() >= PERIOD
                &&& bbs.len() == prices.len() - PERIOD + 1
                &&& forall|k: int| 0 <= k < bbs.len() ==> #[trigger] bbs[k] == band_at(prices@, k)
            },
            Err(e) => prices.len() < PERIOD && e == (TaError::InsufficientData {
                received: prices.len(),
                required: PERIOD,
            }),
        },
{
    let count = match yield_len(prices.len(), PERIOD) {
        Ok(count) => count,
        Err(e) => {
            return Err(e);
        },
    };
    let spread = T::count(2).times(deviation(&prices));
    let mut bbs: Vec<(T, T, T)> = Vec::new();
    let mut k: usize = 0;
    while k < count
        invariant
            k <= count,
            count == prices.len() - PERIOD + 1,
            prices.len() >= PERIOD,
            bbs.len() == k,
            spread == T::of_count(2).product(std_dev(prices@)),
            forall|m: int| 0 <= m < bbs.len() ==> #[trigger] bbs[m] == band_at(prices@, m),
        decreases count - k,
    {
        let ma = mean_of(&prices, k, k + PERIOD);
        let bolu = ma.plus(spread);
        let bold = ma.minus(spread);
        bbs.push((bold, ma, bolu));
        k = k + 1;
    }
    Ok(bbs)
}

} // verus!
