use stock_analysis::error::TaError;
use stock_analysis::number::{Level, Number};
use stock_analysis::stock::ta::{bollinger_band, ema, macd, rsi, sma, stochastic_oscillator};

/// Single-precision numbers, computed with as the machine computes.
#[derive(Clone, Copy, Debug, PartialEq)]
struct F(f32);

impl Level for F {
    fn under(self, other: F) -> bool {
        self.0 < other.0
    }

    fn below(self, other: F) -> bool {
        self.0 < other.0
    }
}

impl Number for F {
    fn of_count(n: usize) -> F {
        F(n as f32)
    }

    fn sum(self, other: F) -> F {
        F(self.0 + other.0)
    }

    fn difference(self, other: F) -> F {
        F(self.0 - other.0)
    }

    fn product(self, other: F) -> F {
        F(self.0 * other.0)
    }

    fn quotient(self, other: F) -> F {
        F(self.0 / other.0)
    }

    fn square_root(self) -> F {
        F(self.0.sqrt())
    }

    fn count(n: usize) -> F {
        F(n as f32)
    }

    fn plus(self, other: F) -> F {
        F(self.0 + other.0)
    }

    fn minus(self, other: F) -> F {
        F(self.0 - other.0)
    }

    fn times(self, other: F) -> F {
        F(self.0 * other.0)
    }

    fn over(self, other: F) -> F {
        F(self.0 / other.0)
    }

    fn root(self) -> F {
        F(self.0.sqrt())
    }
}

fn wrap(values: Vec<f32>) -> Vec<F> {
    values.into_iter().map(F).collect()
}

fn bare(values: Vec<F>) -> Vec<f32> {
    values.into_iter().map(|v| v.0).collect()
}

fn short(received: usize, required: usize) -> TaError {
    TaError::InsufficientData { received, required }
}

fn sma_run(prices: Vec<f32>, periods: usize) -> Vec<f32> {
    bare(sma::run(wrap(prices), periods).unwrap())
}

fn ema_run(prices: Vec<f32>, periods: usize) -> Vec<f32> {
    bare(ema::run(wrap(prices), periods).unwrap())
}

fn macd_run(prices: Vec<f32>) -> (Vec<f32>, Vec<f32>) {
    let (line, signal) = macd::run(wrap(prices)).unwrap();
    (bare(line), bare(signal))
}

fn bollinger_run(prices: Vec<f32>) -> Vec<(f32, f32, f32)> {
    bollinger_band::run(wrap(prices)).unwrap().into_iter().map(|b| (b.0 .0, b.1 .0, b.2 .0)).collect()
}

#[test]
fn sma_test_run_simple() {
    let prices = vec![10.0, 10.0, 15.0, 20.0, 20.0];
    assert_eq!(sma_run(prices, 5), vec![15.0]);
}

#[test]
fn sma_test_run_complex() {
    let prices = vec![10.0, 10.0, 15.0, 20.0, 20.0, 10.0, 10.0, 10.0];
    assert_eq!(sma_run(prices, 5), vec![15.0, 15.0, 15.0, 14.0]);
}

#[test]
fn sma_refuses_too_few_prices() {
    assert_eq!(sma::run(wrap(vec![10.0]), 5), Err(short(1, 5)));
    assert_eq!(sma::run(wrap(vec![1.0, 2.0, 3.0, 4.0]), 5), Err(short(4, 5)));
    assert!(sma::run(wrap(vec![1.0, 2.0, 3.0, 4.0, 5.0]), 5).is_ok());
    assert_eq!(sma::run(wrap(vec![]), 1), Err(short(0, 1)));
}

#[test]
fn sma_yields_one_value_for_each_window() {
    for len in 0..30usize {
        let prices: Vec<f32> = (0..len).map(|i| i as f32).collect();
        for periods in 1..=len {
            let smas = sma_run(prices.clone(), periods);
            assert_eq!(smas.len(), len - periods + 1);
            for (k, v) in smas.iter().enumerate() {
                let sum: f32 = prices[k..k + periods].iter().fold(0.0, |a, b| a + b);
                assert_eq!(*v, sum / periods as f32);
            }
        }
    }
}

#[test]
fn sma_of_one_period_is_the_series() {
    assert_eq!(sma_run(vec![3.5, 1.25, 8.0], 1), vec![3.5, 1.25, 8.0]);
}

#[test]
fn ema_test_run_simple() {
    let prices = vec![10.0, 10.0, 15.0, 20.0, 20.0, 10.0];
    assert_eq!(ema_run(prices, 5), vec![13.333332]);
}

#[test]
fn ema_test_run_complex() {
    let prices = vec![10.0, 10.0, 15.0, 20.0, 20.0, 10.0, 10.0, 10.0];
    assert_eq!(ema_run(prices, 5), vec![13.333332, 12.222221, 11.48148]);
}

#[test]
fn test_run_random() {
    let prices = vec![5.0, 10.0, 11.0, 6.0, 5.0, 42.0, 33.0, 1.0];
    assert_eq!(ema_run(prices, 5), vec![18.933332, 23.622221, 16.08148]);
}

#[test]
fn ema_refuses_too_few_prices() {
    let prices = vec![10.0, 10.0, 15.0, 20.0, 20.0];
    assert_eq!(ema::run(wrap(prices), 5), Err(short(5, 6)));
    assert_eq!(ema::run(wrap(vec![]), 0), Err(short(0, 1)));
    assert!(ema::run(wrap(vec![1.0, 2.0]), 1).is_ok());
}

#[test]
fn ema_seeds_with_the_simple_average() {
    // seed (2 + 4) / 2 = 3, weight 2 / 3
    let emas = ema_run(vec![2.0, 4.0, 9.0], 2);
    let s: f32 = 2.0 / 3.0;
    assert_eq!(emas, vec![9.0 * s + 3.0 * (1.0 - s)]);
}

#[test]
fn macd_test_run_simple() {
    let prices = vec![
        10.0, 10.0, 15.0, 20.0, 20.0, 10.0, 10.0, 15.0, 20.0, 20.0, 10.0, 10.0, 15.0, 20.0, 20.0,
        10.0, 10.0, 15.0, 20.0, 20.0, 10.0, 10.0, 15.0, 20.0, 20.0, 10.0, 10.0,
    ];
    assert_eq!(macd_run(prices), (vec![-0.17376137], vec![]));
}

#[test]
fn macd_test_run_complex() {
    let prices = vec![
        10.0, 10.0, 15.0, 20.0, 20.0, 12.0, 8.0, 20.0, 42.0, 36.0, 11.0, 19.0, 3.0, 4.0, 7.0, 10.0,
        10.0, 15.0, 20.0, 20.0, 12.0, 8.0, 20.0, 42.0, 36.0, 11.0, 19.0, 3.0, 4.0, 7.0, 10.0, 10.0,
        15.0, 20.0, 20.0, 12.0, 8.0, 20.0, 42.0, 36.0, 11.0, 19.0, 3.0, 4.0, 7.0, 10.0, 10.0, 15.0,
        20.0, 20.0, 12.0, 8.0, 20.0, 42.0, 36.0, 11.0, 19.0, 3.0, 4.0, 7.0,
    ];
    assert_eq!(
        macd_run(prices),
        (
            vec![
                2.4991398, 0.9562206, -0.7649956, -1.7961569, -2.1694717, -2.3433933, -2.3066406,
                -1.871275, -1.0476179, -0.308959, -0.28025723, -0.09412098, 2.2728977, 3.9846954,
                3.26997, 2.4991398, 0.9562206, -0.7649956, -1.7961569, -2.1694717, -2.3433933,
                -2.3066406, -1.871275, -1.0476179, -0.308959, -0.28025723, -0.09412098, 2.2728977,
                3.9846954, 3.26997, 2.4991398, 0.9562206, -0.7649956, -1.7961569
            ],
            vec![
                -0.84794205, -0.7344051, -0.60634834, -0.0304991, 0.7725398, 1.2720258, 1.5174487,
                1.4052031, 0.97116345, 0.41769937, -0.09973487, -0.54846656, -0.90010136, -1.094336,
                -1.0849924, -0.9297857, -0.79988, -0.65872824, -0.07240304, 0.73901665, 1.2452073,
                1.4959939, 1.3880392, 0.9574323, 0.40671447
            ]
        )
    );
}

#[test]
fn macd_refuses_too_few_prices() {
    assert_eq!(macd::run(wrap(vec![10.0, 10.0, 15.0, 20.0, 20.0])), Err(short(5, 27)));
    assert_eq!(macd::run(wrap(vec![1.0; 26])), Err(short(26, 27)));
    assert!(macd::run(wrap(vec![1.0; 27])).is_ok());
}

#[test]
fn macd_signal_needs_more_than_nine_values() {
    let (line, signal) = macd_run((0..35).map(|i| i as f32).collect());
    assert_eq!((line.len(), signal.len()), (9, 0));
    let (line, signal) = macd_run((0..36).map(|i| i as f32).collect());
    assert_eq!((line.len(), signal.len()), (10, 1));
    let (line, signal) = macd_run((0..60).map(|i| i as f32).collect());
    assert_eq!((line.len(), signal.len()), (34, 25));
    assert_eq!(signal, ema_run(line, 9));
}

#[test]
fn bollinger_band_test_run_simple() {
    let prices = vec![
        10.0, 10.0, 15.0, 20.0, 20.0, 10.0, 10.0, 15.0, 20.0, 20.0, 10.0, 10.0, 15.0, 20.0, 20.0,
        10.0, 10.0, 15.0, 20.0, 20.0,
    ];
    assert_eq!(bollinger_run(prices), vec![(6.055728, 15.0, 23.944271)]);
}

#[test]
fn bollinger_band_test_run_complex() {
    let prices = vec![
        10.0, 10.0, 15.0, 20.0, 20.0, 12.0, 8.0, 20.0, 42.0, 36.0, 11.0, 19.0, 3.0, 4.0, 7.0, 10.0,
        10.0, 15.0, 20.0, 20.0, 12.0, 8.0, 20.0, 42.0, 36.0, 11.0, 19.0, 3.0, 4.0, 7.0,
    ];
    assert_eq!(
        bollinger_run(prices),
        vec![
            (-5.719162, 15.6, 36.919163),
            (-5.6191626, 15.7, 37.01916),
            (-5.719162, 15.6, 36.919163),
            (-5.469162, 15.85, 37.169163),
            (-4.3691616, 16.95, 38.269165),
            (-3.5691624, 17.75, 39.06916),
            (-3.6191616, 17.7, 39.019165),
            (-3.0691624, 18.25, 39.56916),
            (-3.9191628, 17.4, 38.719162),
            (-5.8191624, 15.5, 36.81916),
            (-7.269162, 14.05, 35.369164)
        ]
    );
}

#[test]
fn bollinger_refuses_too_few_prices() {
    assert_eq!(bollinger_band::run(wrap(vec![10.0])), Err(short(1, 20)));
    assert_eq!(bollinger_band::run(wrap(vec![1.0; 19])), Err(short(19, 20)));
    assert_eq!(bollinger_band::run(wrap(vec![1.0; 20])).unwrap().len(), 1);
}

#[test]
fn bollinger_deviation_is_that_of_the_whole_series() {
    // 20 equal prices, then one far off: the first window is flat, and its
    // band is as wide as every other.
    let mut prices = vec![10.0; 20];
    prices.push(31.0);
    let bands = bollinger_run(prices.clone());
    assert_eq!(bands.len(), 2);
    let std = bollinger_band::deviation(&wrap(prices)).0;
    assert!(std > 0.0);
    assert_eq!(bands[0], (10.0 - 2.0 * std, 10.0, 10.0 + 2.0 * std));
    let middle: f32 = (19.0 * 10.0 + 31.0) / 20.0;
    assert_eq!(bands[1], (middle - 2.0 * std, middle, middle + 2.0 * std));
}

#[test]
fn deviation_of_a_population() {
    // mean 5, squares 9 + 1 + 1 + 9 = 20, variance 5
    let std = bollinger_band::deviation(&wrap(vec![2.0, 4.0, 6.0, 8.0])).0;
    assert_eq!(std, 5.0f32.sqrt());
}

fn rsi_run(prices: Vec<f32>) -> Vec<f32> {
    bare(rsi::run(wrap(prices)).unwrap())
}

#[test]
fn rsi_refuses_too_few_prices() {
    assert_eq!(rsi::run(wrap((0..14).map(|i| i as f32).collect())), Err(short(14, 15)));
    assert_eq!(rsi::run(wrap(vec![])), Err(short(0, 15)));
    assert_eq!(rsi_run((0..15).map(|i| i as f32).collect()).len(), 1);
    assert_eq!(rsi_run((0..40).map(|i| ((i * 7) % 5) as f32).collect()).len(), 26);
}

#[test]
fn rsi_first_value_averages_14_moves() {
    // 7 rises of 2 and 7 falls of 1: gain 14 / 14 = 1, loss 7 / 14 = 0.5
    let mut prices = vec![10.0];
    for i in 0..14 {
        let last = *prices.last().unwrap();
        prices.push(if i % 2 == 0 { last + 2.0 } else { last - 1.0 });
    }
    let expected: f32 = 100.0 - 100.0 / (1.0 + 1.0 / 0.5);
    assert_eq!(rsi_run(prices), vec![expected]);
}

#[test]
fn rsi_smooths_later_moves() {
    let mut prices = vec![10.0];
    for i in 0..14 {
        let last = *prices.last().unwrap();
        prices.push(if i % 2 == 0 { last + 2.0 } else { last - 1.0 });
    }
    let last = *prices.last().unwrap();
    prices.push(last + 3.0); // a rise
    prices.push(last + 3.0); // no move
    prices.push(last + 1.0); // a fall
    let (mut ag, mut al): (f32, f32) = (1.0, 0.5);
    let first = 100.0 - 100.0 / (1.0 + ag / al);
    ag = (ag * 13.0 + 3.0) / 14.0;
    al = (al * 13.0 + 0.0) / 14.0;
    let second = 100.0 - 100.0 / (1.0 + ag / al);
    let third = second;
    ag = (ag * 13.0 + 0.0) / 14.0;
    al = (al * 13.0 + 2.0) / 14.0;
    let fourth = 100.0 - 100.0 / (1.0 + ag / al);
    assert_eq!(rsi_run(prices), vec![first, second, third, fourth]);
}

#[test]
fn rsi_stays_between_0_and_100() {
    let prices: Vec<f32> = (0..200).map(|i| 50.0 + (((i * 37) % 23) as f32) - 0.5 * (i % 7) as f32).collect();
    let values = rsi_run(prices);
    assert_eq!(values.len(), 186);
    for v in values {
        assert!((0.0..=100.0).contains(&v), "{}", v);
    }
}

#[test]
fn rsi_without_losses_is_100() {
    let values = rsi_run((0..20).map(|i| i as f32).collect());
    assert_eq!(values, vec![100.0; 6]);
}

#[test]
fn rsi_without_gains_is_0() {
    let values = rsi_run((0..20).map(|i| 100.0 - i as f32).collect());
    assert_eq!(values, vec![0.0; 6]);
}

#[test]
fn rsi_of_a_price_that_never_moves_has_no_value() {
    assert_eq!(rsi::run(wrap(vec![5.0; 15])), Err(TaError::DegenerateComputation));
    assert_eq!(rsi::run(wrap(vec![5.0; 40])), Err(TaError::DegenerateComputation));
    // one move among the first 14 is enough
    let mut prices = vec![5.0; 40];
    prices[3] = 6.0;
    assert_eq!(rsi_run(prices).len(), 26);
}

fn quotes(n: usize) -> Vec<stochastic_oscillator::Quote<F>> {
    // close, low, high: a zigzag
    (0..n)
        .map(|i| {
            let base = ((i * 7) % 11) as f32;
            (F(base + 0.5), F(base), F(base + 1.0))
        })
        .collect()
}

#[test]
fn stochastic_needs_14_bars() {
    assert_eq!(stochastic_oscillator::run(quotes(13)), Err(short(13, 14)));
    assert_eq!(stochastic_oscillator::run(quotes(0)), Err(short(0, 14)));
    assert_eq!(stochastic_oscillator::run(quotes(14)).unwrap().len(), 1);
    assert_eq!(stochastic_oscillator::run(quotes(20)).unwrap().len(), 7);
}

#[test]
fn stochastic_finds_the_levels_of_each_window() {
    let q = quotes(30);
    let found = stochastic_oscillator::levels(&q).unwrap();
    assert_eq!(found.len(), 17);
    for (k, l) in found.iter().enumerate() {
        let window = &q[k..k + 14];
        let low = window.iter().map(|b| b.1 .0).fold(f32::INFINITY, f32::min);
        let high = window.iter().map(|b| b.2 .0).fold(f32::NEG_INFINITY, f32::max);
        assert_eq!(l.close, q[k + 13].0);
        assert_eq!(l.low14.0, low);
        assert_eq!(l.high14.0, high);
    }
}

#[test]
fn stochastic_of_one_window() {
    let mut q: Vec<stochastic_oscillator::Quote<F>> =
        (0..14).map(|_| (F(5.0), F(4.0), F(6.0))).collect();
    q[3] = (F(5.0), F(1.5), F(6.0));
    q[9] = (F(5.0), F(4.0), F(9.5));
    q[13] = (F(7.5), F(6.5), F(7.5));
    let found = stochastic_oscillator::levels(&q).unwrap();
    assert_eq!(found.len(), 1);
    assert_eq!((found[0].close, found[0].low14, found[0].high14), (F(7.5), F(1.5), F(9.5)));
    // (7.5 - 1.5) / (9.5 - 1.5) * 100
    assert_eq!(bare(stochastic_oscillator::run(q).unwrap()), vec![75.0]);
}

#[test]
fn stochastic_follows_each_window() {
    let q = quotes(20);
    let values = bare(stochastic_oscillator::run(q.clone()).unwrap());
    for (k, v) in values.iter().enumerate() {
        let window = &q[k..k + 14];
        let low = window.iter().map(|b| b.1 .0).fold(f32::INFINITY, f32::min);
        let high = window.iter().map(|b| b.2 .0).fold(f32::NEG_INFINITY, f32::max);
        assert_eq!(*v, ((q[k + 13].0 .0 - low) / (high - low)) * 100.0);
    }
}
