//! On-balance volume: the running total of the volumes, each counted up
//! where the price rose, down where it fell, and not at all where it stayed.

use vstd::prelude::*;
use crate::error::TaError;
use crate::number::Level;
use crate::stock::ta::{move_between, move_to, Move};

verus! {

/// The fewest prices from which a balance can be told.
pub const REQUIRED: usize = 2;

/// The volume of step `i` with the sign of the price's move into it:
/// counted up where the price rose from step `i - 1`, down where it fell,
/// and 0 where neither price is above the other.
pub open spec fn signed_volume<T: Level>(prices: Seq<T>, volume: Seq<u32>, i: int) -> int {
    match move_between(prices[i - 1], prices[i]) {
        Move::Up => volume[i] as int,
        Move::Down => -(volume[i] as int),
        Move::Flat => 0,
    }
}

/// The balance after step `i`: the sum of the signed volumes of the steps 1
/// to `i`. The balance starts at 0, and step 0 has no move into it.
pub open spec fn balance<T: Level>(prices: Seq<T>, volume: Seq<u32>, i: int) -> int
    decreases i,
{
    if i <= 0 {
        0
    } else {
        balance(prices, volume, i - 1) + signed_volume(prices, volume, i)
    }
}

/// No balance is further from 0 than all volumes together could bring it.
proof fn lemma_balance_bounded<T: Level>(prices: Seq<T>, volume: Seq<u32>, i: int)
    requires
        0 <= i,
    ensures
        -i * 0xffff_ffff <= balance(prices, volume, i) <= i * 0xffff_ffff,
    decreases i,
{
    if i > 0 {
        lemma_balance_bounded(prices, volume, i - 1);
        assert((i - 1) * 0xffff_ffff + 0xffff_ffff == i * 0xffff_ffff) by (nonlinear_arith);
    }
}

/// The on-balance volume of a series of prices and their volumes.
///
/// Yields one balance for each step but the first: value `k` is the balance
/// after step `k + 1`. The totals are exact: they are held in 128 bits,
/// which no series that fits in memory can fill.
///
/// Refused with `LengthMismatch` where the two series differ in length, and
/// otherwise with `InsufficientData` where they hold fewer than two steps.
pub fn run<T: Level>(prices: Vec<T>, volume: Vec<u32>) -> (r: Result<Vec<i128>, TaError>)
    ensures
        match r {
            Ok(obvs) => {
                &&& prices.len() == volume.len()
                &&& prices.len() >= REQUIRED
                &&& obvs.len() == prices.len() - 1
                &&& forall|k: int|
                    0 <= k < obvs.len() ==> #[trigger] obvs[k] as int == balance(
                        prices@,
                        volume@,
                        k + 1,
                    )
            },
            Err(e) => if prices.len() != volume.len() {
                e == (TaError::LengthMismatch { prices: prices.len(), volumes: volume.len() })
            } else {
                prices.len() < REQUIRED && e == (TaError::InsufficientData {
                    received: prices.len(),
                    required: REQUIRED,
                })
            },
        },
{
    if prices.len() != volume.len() {
        return Err(TaError::LengthMismatch { prices: prices.len(), volumes: volume.len() });
    }
    if prices.len() < REQUIRED {
        return Err(TaError::InsufficientData { received: prices.len(), required: REQUIRED });
    }
    let n = prices.len();
    let mut obvs: Vec<i128> = Vec::new();
    let mut obv_prev: i128 = 0;
    let mut i: usize = 1;
    while i < n
        invariant
            1 <= i <= n,
            n == prices.len(),
            n == volume.len(),
            obvs.len() == i - 1,
            obv_prev as int == balance(prices@, volume@, i - 1),
            forall|k: int|
                0 <= k < obvs.len() ==> #[trigger] obvs[k] as int == balance(
                    prices@,
                    volume@,
                    k + 1,
                ),
        decreases n - i,
    {
        let v: i128 = volume[i] as i128;
        let signed: i128 = match move_to(prices[i - 1], prices[i]) {
            Move::Up => v,
            Move::Down => -v,
            Move::Flat => 0,
        };
        proof {
            lemma_balance_bounded(prices@, volume@, i - 1);
            assert((i - 1) * 0xffff_ffff <= 0xffff_ffff_ffff_ffff * 0xffff_ffff) by (nonlinear_arith)
                requires
                    0 <= i - 1 <= 0xffff_ffff_ffff_ffff,
            ;
        }
        let obv: i128 = obv_prev + signed;
        obvs.push(obv);
        obv_prev = obv;
        i = i + 1;
    }
    Ok(obvs)
}

} // verus!
