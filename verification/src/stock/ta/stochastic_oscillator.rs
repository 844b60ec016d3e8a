//! Stochastic oscillator over 14 periods: where the latest close stands
//! between the lowest low and the highest high of the last 14 bars.
//!
//! The search for the levels needs no more of the prices than that they
//! compare; the oscillator itself, `(close - low14) / (high14 - low14) *
//! 100`, is computed in numbers of any kind.

use vstd::prelude::*;
use crate::error::TaError;
use crate::number::{Level, Number};
use crate::stock::price::{is_nan, Price};
use crate::stock::ta::yield_len;

verus! {

/// The number of bars in each window.
pub const PERIOD: usize = 14;

/// The three prices of a bar that the oscillator reads: close, low, high.
pub type Quote<T> = (T, T, T);

/// The levels that one value of the oscillator is computed from.
#[derive(Debug)]
pub struct Levels<T> {
    /// The close of the window's last bar.
    pub close: T,
    /// The lowest low of the window.
    pub low14: T,
    /// The highest high of the window.
    pub high14: T,
}

/// The lowest low met when `least` is held first and the bars from `from`
/// up to `upto` are then looked at in turn: a bar's low takes the place of
/// the one held where it is below it.
pub open spec fn lowest<T: Level>(bars: Seq<Quote<T>>, from: int, upto: int, least: T) -> T
    decreases upto - from,
{
    if from >= upto {
        least
    } else {
        let held = lowest(bars, from, upto - 1, least);
        if bars[upto - 1].1.under(held) {
            bars[upto - 1].1
        } else {
            held
        }
    }
}

/// The highest high met when `most` is held first and the bars from `from`
/// up to `upto` are then looked at in turn: a bar's high takes the place of
/// the one held where the one held is below it.
pub open spec fn highest<T: Level>(bars: Seq<Quote<T>>, from: int, upto: int, most: T) -> T
    decreases upto - from,
{
    if from >= upto {
        most
    } else {
        let held = highest(bars, from, upto - 1, most);
        if held.under(bars[upto - 1].2) {
            bars[upto - 1].2
        } else {
            held
        }
    }
}

/// The levels of value `k`: those of the window of 14 bars that starts at
/// bar `k`. The search holds the low and the high of the window's last bar
/// first and then looks at the 13 bars before it.
pub open spec fn levels_at<T: Level>(bars: Seq<Quote<T>>, k: int) -> Levels<T> {
    let last = bars[k + PERIOD - 1];
    Levels {
        close: last.0,
        low14: lowest(bars, k, k + PERIOD - 1, last.1),
        high14: highest(bars, k, k + PERIOD - 1, last.2),
    }
}

/// The levels of each window of 14 bars, the earliest window first.
///
/// Refused with `InsufficientData` exactly where there are fewer than 14
/// bars.
pub fn levels<T: Level>(prices: &Vec<Quote<T>>) -> (r: Result<Vec<Levels<T>>, TaError>)
    ensures
        match r {
            Ok(found) => {
                &&& prices.len() >= PERIOD
                &&& found.len() == prices.len() - PERIOD + 1
                &&& forall|k: int|
                    0 <= k < found.len() ==> #[trigger] found[k] == levels_at(prices@, k)
            },
            Err(e) => prices.len() < PERIOD && e == (TaError::InsufficientData {
                received: prices.len(),
                required: PERIOD,
            }),
        },
{
    let count = match yield_len(prices.len(), PERIOD) {
        Ok(count) => count,
        Err(e) => {
            return Err(e);
        },
    };
    let mut found: Vec<Levels<T>> = Vec::new();
    let mut k: usize = 0;
    while k < count
        invariant
            k <= count,
            count == prices.len() - PERIOD + 1,
            prices.len() >= PERIOD,
            found.len() == k,
            forall|m: int| 0 <= m < found.len() ==> #[trigger] found[m] == levels_at(prices@, m),
        decreases count - k,
    {
        let i: usize = k + PERIOD - 1;
        let cur = prices[i];
        let mut low14 = cur.1;
        let mut high14 = cur.2;
        let mut j: usize = k;
        while j < i
            invariant
                k <= j <= i,
                i == k + PERIOD - 1,
                i < prices.len(),
                cur == prices@[i as int],
                low14 == lowest(prices@, k as int, j as int, cur.1),
                high14 == highest(prices@, k as int, j as int, cur.2),
            decreases i - j,
        {
            let prev = prices[j];
            if prev.1.below(low14) {
                low14 = prev.1;
            }
            if high14.below(prev.2) {
                high14 = prev.2;
            }
            j = j + 1;
        }
        found.push(Levels { close: cur.0, low14, high14 });
        k = k + 1;
    }
    Ok(found)
}

/// Where the close stands between the two other levels, in hundredths of
/// their distance.
pub open spec fn oscillation<T: Number>(l: Levels<T>) -> T {
    l.close.difference(l.low14).quotient(l.high14.difference(l.low14)).product(T::of_count(100))
}

/// The stochastic oscillator of a series of bars, each given as close, low
/// and high: one value for each window of 14 bars, the earliest first.
///
/// Refused with `InsufficientData` exactly where there are fewer than 14
/// bars.
pub fn run<T: Number>(prices: Vec<Quote<T>>) -> (r: Result<Vec<T>, TaError>)
    ensures
        match r {
            Ok(oscs) => {
                &&& prices.len() >= PERIOD
                &&& oscs.len() == prices.len() - PERIOD + 1
                &&& forall|k: int|
                    0 <= k < oscs.len() ==> #[trigger] oscs[k] == oscillation(
                        levels_at(prices@, k),
                    )
            },
            Err(e) => prices.len() < PERIOD && e == (TaError::InsufficientData {
                received: prices.len(),
                required: PERIOD,
            }),
        },
{
    let found = match levels(&prices) {
        Ok(found) => found,
        Err(e) => {
            return Err(e);
        },
    };
    let hundred = T::count(100);
    let mut oscs: Vec<T> = Vec::new();
    let mut k: usize = 0;
    while k < found.len()
        invariant
            k <= found.len(),
            oscs.len() == k,
            hundred == T::of_count(100),
            forall|m: int| 0 <= m < found.len() ==> #[trigger] found[m] == levels_at(prices@, m),
            forall|m: int|
                0 <= m < oscs.len() ==> #[trigger] oscs[m] == oscillation(levels_at(prices@, m)),
        decreases found.len() - k,
    {
        let l = &found[k];
        oscs.push(l.close.minus(l.low14).over(l.high14.minus(l.low14)).times(hundred));
        k = k + 1;
    }
    Ok(oscs)
}

/// Every low of the stretch and the low held first are numbers.
pub open spec fn lows_are_numbers(
    bars: Seq<Quote<Price>>,
    from: int,
    upto: int,
    least: Price,
) -> bool {
    !is_nan(least.bits) && forall|j: int| from <= j < upto ==> !is_nan((#[trigger] bars[j]).1.bits)
}

/// Every high of the stretch and the high held first are numbers.
pub open spec fn highs_are_numbers(
    bars: Seq<Quote<Price>>,
    from: int,
    upto: int,
    most: Price,
) -> bool {
    !is_nan(most.bits) && forall|j: int| from <= j < upto ==> !is_nan((#[trigger] bars[j]).2.bits)
}

/// Among prices that are numbers the lowest low is a minimum: it is the low held first or a
/// low of the stretch, and neither of these is below it.
pub proof fn lemma_lowest_is_least(bars: Seq<Quote<Price>>, from: int, upto: int, least: Price)
    requires
        0 <= from <= upto <= bars.len(),
        lows_are_numbers(bars, from, upto, least),
    ensures
        ({
            let low = lowest(bars, from, upto, least);
            &&& !is_nan(low.bits)
            &&& !least.under(low)
            &&& forall|j: int| from <= j < upto ==> !(#[trigger] bars[j]).1.under(low)
            &&& low == least || exists|j: int| from <= j < upto && (#[trigger] bars[j]).1 == low
        }),
    decreases upto - from,
{
    if from < upto {
        lemma_lowest_is_least(bars, from, upto - 1, least);
        let held = lowest(bars, from, upto - 1, least);
        let low = lowest(bars, from, upto, least);
        assert(!is_nan(bars[upto - 1].1.bits));
        if held != least {
            let w = choose|j: int| from <= j < upto - 1 && (#[trigger] bars[j]).1 == held;
            assert(from <= w < upto && bars[w].1 == held);
        }
        if low != held {
            assert(bars[upto - 1].1 == low);
        }
    }
}

/// Among prices that are numbers the highest high is a maximum: it is the high held first
/// or a high of the stretch, and it is below neither of these.
pub proof fn lemma_highest_is_most(bars: Seq<Quote<Price>>, from: int, upto: int, most: Price)
    requires
        0 <= from <= upto <= bars.len(),
        highs_are_numbers(bars, from, upto, most),
    ensures
        ({
            let high = highest(bars, from, upto, most);
            &&& !is_nan(high.bits)
            &&& !high.under(most)
            &&& forall|j: int| from <= j < upto ==> !high.under((#[trigger] bars[j]).2)
            &&& high == most || exists|j: int| from <= j < upto && (#[trigger] bars[j]).2 == high
        }),
    decreases upto - from,
{
    if from < upto {
        lemma_highest_is_most(bars, from, upto - 1, most);
        let held = highest(bars, from, upto - 1, most);
        let high = highest(bars, from, upto, most);
        assert(!is_nan(bars[upto - 1].2.bits));
        if held != most {
            let w = choose|j: int| from <= j < upto - 1 && (#[trigger] bars[j]).2 == held;
            assert(from <= w < upto && bars[w].2 == held);
        }
        if high != held {
            assert(bars[upto - 1].2 == high);
        }
    }
}

} // verus!
