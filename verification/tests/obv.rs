use stock_analysis::error::TaError;
use stock_analysis::stock::price::Price;
use stock_analysis::stock::ta::{move_to, obv, stretch_of, yield_len, Move};

fn price(value: f32) -> Price {
    Price::from_bits(value.to_bits())
}

fn prices(values: &[f32]) -> Vec<Price> {
    values.iter().map(|v| price(*v)).collect()
}

fn short(received: usize, required: usize) -> TaError {
    TaError::InsufficientData { received, required }
}

#[test]
fn prices_compare_as_numbers() {
    let values = [
        f32::NEG_INFINITY,
        f32::MIN,
        -182.48,
        -1.0,
        -f32::MIN_POSITIVE,
        -1.0e-45,
        -0.0,
        0.0,
        1.0e-45,
        f32::MIN_POSITIVE,
        0.5,
        1.0,
        13.333332,
        182.48,
        184.07,
        f32::MAX,
        f32::INFINITY,
        f32::NAN,
        -f32::NAN,
    ];
    for a in values {
        for b in values {
            assert_eq!(price(a).lt(price(b)), a < b, "{} < {}", a, b);
            assert_eq!(price(a).gt(price(b)), a > b, "{} > {}", a, b);
        }
        assert_eq!(price(a).is_nan(), a.is_nan());
    }
}

#[test]
fn a_price_keeps_its_bits() {
    assert_eq!(Price::from_bits(0x4336_7ae1).to_bits(), 0x4336_7ae1);
    assert_eq!(f32::from_bits(price(182.48).to_bits()), 182.48);
    assert_eq!(price(1.0), Price { bits: 0x3f80_0000 });
}

#[test]
fn moves_between_prices() {
    assert_eq!(move_to(price(1.0), price(2.0)), Move::Up);
    assert_eq!(move_to(price(2.0), price(1.5)), Move::Down);
    assert_eq!(move_to(price(2.0), price(2.0)), Move::Flat);
    assert_eq!(move_to(price(1.5), price(f32::NAN)), Move::Flat);
    assert_eq!(move_to(price(f32::NAN), price(3.0)), Move::Flat);
    assert_eq!(move_to(price(-0.0), price(0.0)), Move::Flat);
    assert_eq!(move_to(price(-1.0), price(-2.0)), Move::Down);
}

#[test]
fn a_stretch_is_copied() {
    let v = vec![1u8, 2, 3, 4, 5];
    assert_eq!(stretch_of(&v, 1, 4), vec![2, 3, 4]);
    assert_eq!(stretch_of(&v, 0, 5), v);
    assert_eq!(stretch_of(&v, 5, 5), Vec::<u8>::new());
}

#[test]
fn obv_adds_and_takes_volume_with_the_price() {
    let p = prices(&[10.0, 11.0, 11.0, 9.0, 9.5, 8.0]);
    let v = vec![1000, 200, 300, 400, 50, 5];
    assert_eq!(obv::run(p, v), Ok(vec![200, 200, -200, -150, -155]));
}

#[test]
fn obv_of_two_steps() {
    assert_eq!(obv::run(prices(&[1.0, 2.0]), vec![7, 9]), Ok(vec![9]));
    assert_eq!(obv::run(prices(&[2.0, 1.0]), vec![7, 9]), Ok(vec![-9]));
    assert_eq!(obv::run(prices(&[2.0, 2.0]), vec![7, 9]), Ok(vec![0]));
}

#[test]
fn obv_totals_do_not_wrap() {
    let p = prices(&[1.0, 2.0, 3.0, 4.0, 3.0, 2.0, 1.0, 0.0, -1.0]);
    let v = vec![u32::MAX; 9];
    let m = u32::MAX as i128;
    assert_eq!(obv::run(p, v), Ok(vec![m, 2 * m, 3 * m, 2 * m, m, 0, -m, -2 * m]));
}

#[test]
fn obv_counts_no_move_to_or_from_what_is_no_number() {
    let p = prices(&[1.0, f32::NAN, 2.0, 3.0]);
    assert_eq!(obv::run(p, vec![1, 10, 100, 1000]), Ok(vec![0, 0, 1000]));
}

#[test]
fn obv_refuses_series_of_different_length() {
    assert_eq!(
        obv::run(prices(&[1.0, 2.0, 3.0]), vec![1, 2]),
        Err(TaError::LengthMismatch { prices: 3, volumes: 2 })
    );
    // the lengths are compared first
    assert_eq!(
        obv::run(prices(&[1.0]), vec![]),
        Err(TaError::LengthMismatch { prices: 1, volumes: 0 })
    );
}

#[test]
fn obv_needs_two_steps() {
    assert_eq!(obv::run(prices(&[1.0]), vec![1]), Err(short(1, 2)));
    assert_eq!(obv::run(prices(&[]), vec![]), Err(short(0, 2)));
    assert!(obv::run(prices(&[1.0, 1.0]), vec![1, 1]).is_ok());
}

#[test]
fn yield_len_at_the_boundary() {
    assert_eq!(yield_len(0, 1), Err(short(0, 1)));
    assert_eq!(yield_len(1, 1), Ok(1));
    assert_eq!(yield_len(0, 0), Ok(1));
    assert_eq!(yield_len(usize::MAX, 1), Ok(usize::MAX));
    assert_eq!(yield_len(usize::MAX - 1, usize::MAX), Err(short(usize::MAX - 1, usize::MAX)));
}
