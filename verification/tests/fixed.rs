use stock_analysis::error::TaError;
use stock_analysis::fixed::{Fixed, SCALE};
use stock_analysis::number::{mean_of, total_of, Level, Number};
use stock_analysis::stock::ta::{bollinger_band, ema, macd, rsi, sma, stochastic_oscillator};

fn fx(units: i64) -> Fixed {
    Fixed::from_units(units)
}

fn whole(values: &[i64]) -> Vec<Fixed> {
    values.iter().map(|v| fx(v * SCALE)).collect()
}

fn units(values: Vec<Fixed>) -> Vec<i64> {
    values.into_iter().map(|v| v.to_units()).collect()
}

#[test]
fn fixed_counts_in_ten_thousandths() {
    assert_eq!(SCALE, 10_000);
    assert_eq!(Fixed::count(0), fx(0));
    assert_eq!(Fixed::count(1), fx(10_000));
    assert_eq!(Fixed::count(100), fx(1_000_000));
    assert_eq!(Fixed::count(usize::MAX), fx(i64::MAX));
}

#[test]
fn fixed_adds_and_subtracts() {
    assert_eq!(fx(1_824_800).plus(fx(15_900)), fx(1_840_700));
    assert_eq!(fx(1_824_800).minus(fx(1_840_700)), fx(-15_900));
    assert_eq!(fx(i64::MAX).plus(fx(1)), fx(i64::MAX));
    assert_eq!(fx(i64::MIN).plus(fx(-1)), fx(i64::MIN));
    assert_eq!(fx(i64::MIN).minus(fx(1)), fx(i64::MIN));
    assert_eq!(fx(0).minus(fx(i64::MIN)), fx(i64::MAX));
}

#[test]
fn fixed_multiplies_and_cuts_off_towards_zero() {
    assert_eq!(fx(25_000).times(fx(40_000)), fx(100_000));
    assert_eq!(fx(3_333).times(fx(100_000)), fx(33_330));
    assert_eq!(fx(1).times(fx(5_000)), fx(0));
    assert_eq!(fx(-1).times(fx(5_000)), fx(0));
    assert_eq!(fx(-3).times(fx(5_000)), fx(-1));
    assert_eq!(fx(-25_000).times(fx(-40_000)), fx(100_000));
    assert_eq!(fx(i64::MAX).times(fx(20_000)), fx(i64::MAX));
    assert_eq!(fx(i64::MAX).times(fx(-20_000)), fx(i64::MIN));
    assert_eq!(fx(i64::MIN).times(fx(i64::MIN)), fx(i64::MAX));
}

#[test]
fn fixed_divides_and_cuts_off_towards_zero() {
    assert_eq!(fx(750_000).over(fx(50_000)), fx(150_000));
    assert_eq!(fx(20_000).over(fx(60_000)), fx(3_333));
    assert_eq!(fx(-10_000).over(fx(30_000)), fx(-3_333));
    assert_eq!(fx(10_000).over(fx(-30_000)), fx(-3_333));
    assert_eq!(fx(-70_000).over(fx(-20_000)), fx(35_000));
    assert_eq!(fx(i64::MAX).over(fx(1)), fx(i64::MAX));
    assert_eq!(fx(i64::MIN).over(fx(-10_000)), fx(i64::MAX));
}

#[test]
fn fixed_division_by_zero_is_an_end_of_the_range() {
    assert_eq!(fx(1).over(fx(0)), fx(i64::MAX));
    assert_eq!(fx(-1).over(fx(0)), fx(i64::MIN));
    assert_eq!(fx(0).over(fx(0)), fx(0));
}

#[test]
fn fixed_square_roots_are_cut_off_downwards() {
    assert_eq!(fx(0).root(), fx(0));
    assert_eq!(fx(-40_000).root(), fx(0));
    assert_eq!(fx(40_000).root(), fx(20_000));
    assert_eq!(fx(20_000).root(), fx(14_142));
    assert_eq!(fx(1).root(), fx(100));
    assert_eq!(fx(1_824_800).root(), fx(135_085));
    let r = fx(i64::MAX).root().to_units() as i128;
    let x = i64::MAX as i128 * SCALE as i128;
    assert!(r * r <= x && x < (r + 1) * (r + 1));
}

#[test]
fn fixed_compares_by_units() {
    assert!(fx(-1).below(fx(0)));
    assert!(!fx(0).below(fx(0)));
    assert!(!fx(1).below(fx(0)));
    assert!(fx(i64::MIN).below(fx(i64::MAX)));
}

#[test]
fn totals_and_means_of_a_stretch() {
    let v = whole(&[10, 10, 15, 20, 20, 10]);
    assert_eq!(total_of(&v, 0, 6), fx(85 * SCALE));
    assert_eq!(total_of(&v, 2, 5), fx(55 * SCALE));
    assert_eq!(total_of(&v, 3, 3), fx(0));
    assert_eq!(mean_of(&v, 0, 5), fx(15 * SCALE));
    assert_eq!(mean_of(&v, 1, 4), fx(15 * SCALE));
    assert_eq!(mean_of(&v, 0, 6), fx(141_666));
}

#[test]
fn sma_in_fixed_point() {
    assert_eq!(sma::run(whole(&[10, 10, 15, 20, 20]), 5), Ok(whole(&[15])));
    assert_eq!(
        sma::run(whole(&[10, 10, 15, 20, 20, 10, 10, 10]), 5),
        Ok(whole(&[15, 15, 15, 14]))
    );
    assert_eq!(
        sma::run(whole(&[10]), 5),
        Err(TaError::InsufficientData { received: 1, required: 5 })
    );
}

#[test]
fn sma_over_no_period_divides_nothing_by_nothing() {
    // a window of no prices ends before each price and behind the last
    assert_eq!(sma::run(whole(&[7, 8]), 0), Ok(whole(&[0, 0, 0])));
}

#[test]
fn ema_in_fixed_point() {
    assert_eq!(units(ema::run(whole(&[10, 10, 15, 20, 20, 10]), 5).unwrap()), vec![133_335]);
    assert_eq!(
        units(ema::run(whole(&[10, 10, 15, 20, 20, 10, 10, 10]), 5).unwrap()),
        vec![133_335, 122_224, 114_816]
    );
}

#[test]
fn rsi_in_fixed_point() {
    let mut prices = vec![100_000i64];
    for i in 0..14 {
        let last = *prices.last().unwrap();
        prices.push(if i % 2 == 0 { last + 20_000 } else { last - 10_000 });
    }
    let last = *prices.last().unwrap();
    prices.extend([last + 30_000, last + 30_000, last + 10_000]);
    let prices: Vec<Fixed> = prices.into_iter().map(fx).collect();
    assert_eq!(units(rsi::run(prices).unwrap()), vec![666_667, 711_133, 711_133, 648_988]);
}

#[test]
fn rsi_in_fixed_point_stays_between_0_and_100() {
    let prices: Vec<Fixed> =
        (0..300i64).map(|i| fx(500_000 + ((i * 7919) % 30_011) - 2_500 * (i % 9))).collect();
    let values = units(rsi::run(prices).unwrap());
    assert_eq!(values.len(), 286);
    for v in values {
        assert!((0..=100 * SCALE).contains(&v), "{}", v);
    }
    let wild: Vec<Fixed> =
        (0..40i64).map(|i| fx(if i % 3 == 0 { i64::MAX } else if i % 3 == 1 { i64::MIN } else { i })).collect();
    for v in units(rsi::run(wild).unwrap()) {
        assert!((0..=100 * SCALE).contains(&v), "{}", v);
    }
}

#[test]
fn rsi_in_fixed_point_without_moves_has_no_value() {
    assert_eq!(rsi::run(whole(&[5; 20])), Err(TaError::DegenerateComputation));
    assert_eq!(units(rsi::run(whole(&[1, 2, 3, 4, 5, 6, 7, 8, 9, 10, 11, 12, 13, 14, 15])).unwrap()), vec![1_000_000]);
}

#[test]
fn bollinger_in_fixed_point() {
    // 10 prices of 10 and 10 of 20: mean 15, deviation 5
    let mut prices = vec![10i64; 10];
    prices.extend(vec![20i64; 10]);
    let bands = bollinger_band::run(whole(&prices)).unwrap();
    assert_eq!(bands, vec![(fx(5 * SCALE), fx(15 * SCALE), fx(25 * SCALE))]);
    assert_eq!(bollinger_band::deviation(&whole(&prices)), fx(5 * SCALE));
}

#[test]
fn macd_in_fixed_point_of_a_flat_series_is_flat() {
    let (line, signal) = macd::run(whole(&[10; 40])).unwrap();
    assert_eq!(line.len(), 14);
    assert_eq!(signal.len(), 5);
    // the two weights, cut off, do not quite add up to one: each average
    // loses a little at each step, the fast one over more steps
    assert!(line.iter().all(|v| *v == line[0]));
    assert!(signal.iter().all(|v| v.to_units().abs() <= line[0].to_units().abs()));
}

#[test]
fn stochastic_in_fixed_point() {
    let mut q: Vec<stochastic_oscillator::Quote<Fixed>> =
        (0..14).map(|_| (fx(50_000), fx(40_000), fx(60_000))).collect();
    q[3].1 = fx(15_000);
    q[9].2 = fx(95_000);
    q[13] = (fx(75_000), fx(65_000), fx(75_000));
    assert_eq!(stochastic_oscillator::run(q), Ok(vec![fx(75 * SCALE)]));
}
