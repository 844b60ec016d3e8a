//! Relative strength index after Wilder, over 14 periods.
//!
//! The index weighs the average gain of the price against its average
//! loss: `100 - 100 / (1 + gain / loss)`. The first averages are those of
//! the moves into the steps 1 to 14; at each later step the averages are
//! smoothed, 13 parts of the old average to one part of the new move.
//!
//! Where there is no loss to divide by, the index is 100 if there is a
//! gain: that is its limit as the loss goes to nothing. Where there is
//! neither gain nor loss the index has no value, and the series is refused.

use vstd::prelude::*;
use crate::error::TaError;
use crate::fixed::{magnitude, Fixed, SCALE};
use crate::number::{Level, Number};
use crate::stock::ta::{move_between, move_to, yield_len, Move};

verus! {

/// The number of moves that are averaged.
pub const PERIOD: usize = 14;

/// The fewest prices that hold `PERIOD` moves.
pub const REQUIRED: usize = 15;

/// The average gain and the average loss of a price, neither below zero.
#[derive(Debug)]
pub struct Averages<T> {
    pub gain: T,
    pub loss: T,
}

/// The gains and the losses of the moves into the steps 1 to `n`, each
/// summed up: a rise is added to the gains, a fall to the losses.
pub open spec fn sums<T: Number>(prices: Seq<T>, n: int) -> Averages<T>
    decreases n,
{
    if n <= 0 {
        Averages { gain: T::of_count(0), loss: T::of_count(0) }
    } else {
        let before = sums(prices, n - 1);
        match move_between(prices[n - 1], prices[n]) {
            Move::Up => Averages {
                gain: before.gain.sum(prices[n].difference(prices[n - 1])),
                loss: before.loss,
            },
            Move::Down => Averages {
                gain: before.gain,
                loss: before.loss.sum(prices[n - 1].difference(prices[n])),
            },
            Move::Flat => before,
        }
    }
}

/// An average after one more move, `(average * 13 + change) / 14`.
pub open spec fn wilder<T: Number>(average: T, change: T) -> T {
    average.product(T::of_count(13)).sum(change).quotient(T::of_count(14))
}

/// The averages after the move from `before` to `now`: a rise is smoothed
/// into the gain and nothing into the loss, a fall the other way round, and
/// a price that has not moved leaves both as they are.
pub open spec fn smoothed<T: Number>(a: Averages<T>, before: T, now: T) -> Averages<T> {
    match move_between(before, now) {
        Move::Up => Averages {
            gain: wilder(a.gain, now.difference(before)),
            loss: wilder(a.loss, T::of_count(0)),
        },
        Move::Down => Averages {
            gain: wilder(a.gain, T::of_count(0)),
            loss: wilder(a.loss, before.difference(now)),
        },
        Move::Flat => a,
    }
}

/// The averages at step `i`: at step 14 the sums of the first 14 moves,
/// each divided by 14; at each later step the averages of the step before,
/// smoothed with the move into the step.
pub open spec fn averages_at<T: Number>(prices: Seq<T>, i: int) -> Averages<T>
    decreases i,
{
    if i <= PERIOD {
        Averages {
            gain: sums(prices, PERIOD as int).gain.quotient(T::of_count(14)),
            loss: sums(prices, PERIOD as int).loss.quotient(T::of_count(14)),
        }
    } else {
        smoothed(averages_at(prices, i - 1), prices[i - 1], prices[i])
    }
}

/// There is neither gain nor loss: neither average is above zero.
pub open spec fn degenerate<T: Number>(a: Averages<T>) -> bool {
    !T::of_count(0).under(a.loss) && !T::of_count(0).under(a.gain)
}

/// The index of the averages: `100 - 100 / (1 + gain / loss)` where there
/// is a loss, and 100 where there is none.
pub open spec fn index<T: Number>(a: Averages<T>) -> T {
    if T::of_count(0).under(a.loss) {
        T::of_count(100).difference(
            T::of_count(100).quotient(T::of_count(1).sum(a.gain.quotient(a.loss))),
        )
    } else {
        T::of_count(100)
    }
}

/// The index of the averages, if it has a value.
pub fn index_of<T: Number>(a: &Averages<T>) -> (r: Option<T>)
    ensures
        r is None <==> degenerate(*a),
        r is Some ==> r->0 == index(*a),
{
    let zero = T::count(0);
    if zero.below(a.loss) {
        let rs = a.gain.over(a.loss);
        Some(T::count(100).minus(T::count(100).over(T::count(1).plus(rs))))
    } else if zero.below(a.gain) {
        Some(T::count(100))
    } else {
        None
    }
}

/// The averages after one more move.
pub fn smooth<T: Number>(a: &Averages<T>, before: T, now: T) -> (r: Averages<T>)
    ensures
        r == smoothed(*a, before, now),
{
    let thirteen = T::count(13);
    let fourteen = T::count(14);
    match move_to(before, now) {
        Move::Up => Averages {
            gain: a.gain.times(thirteen).plus(now.minus(before)).over(fourteen),
            loss: a.loss.times(thirteen).plus(T::count(0)).over(fourteen),
        },
        Move::Down => Averages {
            gain: a.gain.times(thirteen).plus(T::count(0)).over(fourteen),
            loss: a.loss.times(thirteen).plus(before.minus(now)).over(fourteen),
        },
        Move::Flat => Averages { gain: a.gain, loss: a.loss },
    }
}

/// The relative strength index of a series of prices.
///
/// Yields one value for each step from step 14 on, `len - 14` in all:
/// value `k` is the index of the averages at step `14 + k`.
///
/// Refused with `InsufficientData` exactly where there are fewer than 15
/// prices, and otherwise with `DegenerateComputation` exactly where at some
/// step there is neither gain nor loss.
pub fn run<T: Number>(prices: Vec<T>) -> (r: Result<Vec<T>, TaError>)
    ensures
        match r {
            Ok(rsis) => {
                &&& prices.len() >= REQUIRED
                &&& rsis.len() == prices.len() - PERIOD
                &&& forall|k: int|
                    0 <= k < rsis.len() ==> !degenerate(
                        #[trigger] averages_at(prices@, PERIOD + k),
                    )
                &&& forall|k: int|
                    0 <= k < rsis.len() ==> #[trigger] rsis[k] == index(
                        averages_at(prices@, PERIOD + k),
                    )
            },
            Err(e) => if prices.len() < REQUIRED {
                e == (TaError::InsufficientData { received: prices.len(), required: REQUIRED })
            } else {
                e == TaError::DegenerateComputation && exists|k: int|
                    0 <= k < prices.len() - PERIOD && degenerate(
                        #[trigger] averages_at(prices@, PERIOD + k),
                    )
            },
        },
{
    let count = match yield_len(prices.len(), REQUIRED) {
        Ok(count) => count,
        Err(e) => {
            return Err(e);
        },
    };
    let mut gain = T::count(0);
    let mut loss = T::count(0);
    let mut i: usize = 1;
    while i <= PERIOD
        invariant
            1 <= i <= PERIOD + 1,
            prices.len() >= REQUIRED,
            (Averages { gain, loss }) == sums(prices@, i - 1),
        decreases PERIOD + 1 - i,
    {
        match move_to(prices[i - 1], prices[i]) {
            Move::Up => {
                gain = gain.plus(prices[i].minus(prices[i - 1]));
            },
            Move::Down => {
                loss = loss.plus(prices[i - 1].minus(prices[i]));
            },
            Move::Flat => {},
        }
        i = i + 1;
    }
    let mut a = Averages { gain: gain.over(T::count(14)), loss: loss.over(T::count(14)) };
    let mut rsis: Vec<T> = Vec::new();
    let mut k: usize = 0;
    while k < count
        invariant
            k <= count,
            count == prices.len() - PERIOD,
            prices.len() >= REQUIRED,
            rsis.len() == k,
            k < count ==> a == averages_at(prices@, PERIOD + k),
            forall|m: int|
                0 <= m < rsis.len() ==> !degenerate(#[trigger] averages_at(prices@, PERIOD + m)),
            forall|m: int|
                0 <= m < rsis.len() ==> #[trigger] rsis[m] == index(
                    averages_at(prices@, PERIOD + m),
                ),
        decreases count - k,
    {
        match index_of(&a) {
            Some(rsi) => {
                rsis.push(rsi);
            },
            None => {
                assert(degenerate(averages_at(prices@, PERIOD + k)));
                return Err(TaError::DegenerateComputation);
            },
        }
        k = k + 1;
        if k < count {
            a = smooth(&a, prices[PERIOD + k - 1], prices[PERIOD + k]);
        }
    }
    Ok(rsis)
}

/// Neither average is below zero.
pub open spec fn is_average(a: Averages<Fixed>) -> bool {
    a.gain.units >= 0 && a.loss.units >= 0
}

/// A quotient of fixed-point numbers that are not below zero is not below
/// zero, and not above the dividend where the divisor is one or more.
proof fn lemma_quotient_of_positives(n: Fixed, d: Fixed)
    requires
        n.units >= 0,
        d.units >= 0,
    ensures
        n.quotient(d).units >= 0,
        d.units >= SCALE ==> n.quotient(d).units <= n.units,
{
    let a = n.units as int;
    let b = d.units as int;
    if b > 0 {
        assert(magnitude(a * SCALE) == a * SCALE) by (nonlinear_arith)
            requires
                a >= 0,
        ;
        assert(0 <= (a * 10000) / b) by (nonlinear_arith)
            requires
                a >= 0,
                b > 0,
        ;
        if b >= SCALE {
            assert((a * 10000) / b <= a) by (nonlinear_arith)
                requires
                    a >= 0,
                    b >= 10000,
            ;
        }
    }
}

/// A product of fixed-point numbers that are not below zero is not below
/// zero.
proof fn lemma_product_of_positives(x: Fixed, y: Fixed)
    requires
        x.units >= 0,
        y.units >= 0,
    ensures
        x.product(y).units >= 0,
{
    let a = x.units as int;
    let b = y.units as int;
    assert(a * b >= 0) by (nonlinear_arith)
        requires
            a >= 0,
            b >= 0,
    ;
    assert(0 <= (a * b) / 10000) by (nonlinear_arith)
        requires
            a * b >= 0,
    ;
}

/// The sums of gains and of losses are not below zero.
proof fn lemma_sums_are_averages(prices: Seq<Fixed>, n: int)
    ensures
        is_average(sums(prices, n)),
    decreases n,
{
    if n > 0 {
        lemma_sums_are_averages(prices, n - 1);
    }
}

/// Smoothing keeps an average from falling below zero.
proof fn lemma_wilder_of_positives(average: Fixed, change: Fixed)
    requires
        average.units >= 0,
        change.units >= 0,
    ensures
        wilder(average, change).units >= 0,
{
    lemma_product_of_positives(average, Fixed::of_count(13));
    let grown = average.product(Fixed::of_count(13)).sum(change);
    lemma_quotient_of_positives(grown, Fixed::of_count(14));
}

/// The averages at no step are below zero.
proof fn lemma_averages_are_averages(prices: Seq<Fixed>, i: int)
    ensures
        is_average(averages_at(prices, i)),
    decreases i,
{
    if i <= PERIOD {
        lemma_sums_are_averages(prices, PERIOD as int);
        lemma_quotient_of_positives(sums(prices, PERIOD as int).gain, Fixed::of_count(14));
        lemma_quotient_of_positives(sums(prices, PERIOD as int).loss, Fixed::of_count(14));
    } else {
        lemma_averages_are_averages(prices, i - 1);
        let a = averages_at(prices, i - 1);
        let before = prices[i - 1];
        let now = prices[i];
        let zero = Fixed::of_count(0);
        match move_between(before, now) {
            Move::Up => {
                lemma_wilder_of_positives(a.gain, now.difference(before));
                lemma_wilder_of_positives(a.loss, zero);
            },
            Move::Down => {
                lemma_wilder_of_positives(a.gain, zero);
                lemma_wilder_of_positives(a.loss, before.difference(now));
            },
            Move::Flat => {},
        }
    }
}

/// The index of fixed-point averages lies between 0 and 100.
pub proof fn lemma_index_in_range(a: Averages<Fixed>)
    requires
        is_average(a),
    ensures
        0 <= index(a).units <= 100 * SCALE,
{
    let zero = Fixed::of_count(0);
    let hundred = Fixed::of_count(100);
    if zero.under(a.loss) {
        lemma_quotient_of_positives(a.gain, a.loss);
        let whole = Fixed::of_count(1).sum(a.gain.quotient(a.loss));
        assert(whole.units >= SCALE);
        lemma_quotient_of_positives(hundred, whole);
    }
}

/// The relative strength index of fixed-point prices lies between 0 and
/// 100, at every step of every series.
pub proof fn lemma_rsi_in_range(prices: Seq<Fixed>, k: int)
    ensures
        0 <= index(averages_at(prices, PERIOD + k)).units <= 100 * SCALE,
{
    lemma_averages_are_averages(prices, PERIOD + k);
    lemma_index_in_range(averages_at(prices, PERIOD + k));
}

} // verus!
