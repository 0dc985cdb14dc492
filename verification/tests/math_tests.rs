use earn_vault::curve::ExchangeRate;
use earn_vault::errors::VaultError;
use earn_vault::fixed::FixedDecimal;
use earn_vault::math::two_power_n;

#[test]
fn test_a_terra_exchange_rate() {
    assert_eq!(
        "1",
        ExchangeRate::a_terra_exchange_rate(FixedDecimal::zero())
            .unwrap()
            .to_string_repr()
    );
    assert_eq!(
        "1.20000000000",
        ExchangeRate::a_terra_exchange_rate(FixedDecimal::from_ratio(365, 1))
            .unwrap()
            .to_string_repr()
            .get(0..13)
            .unwrap()
    );
    assert_eq!(
        "1.44000000000",
        ExchangeRate::a_terra_exchange_rate(FixedDecimal::from_ratio(2 * 365, 1))
            .unwrap()
            .to_string_repr()
            .get(0..13)
            .unwrap()
    );
    assert_eq!(
        "1.57744096561",
        ExchangeRate::a_terra_exchange_rate(FixedDecimal::from_ratio(5 * 365, 2))
            .unwrap()
            .to_string_repr()
            .get(0..13)
            .unwrap()
    );
}

#[test]
fn test_invert_a_terra_exchange_rate() {
    assert_eq!(
        FixedDecimal::zero(),
        ExchangeRate::invert_a_terra_exchange_rate(
            ExchangeRate::a_terra_exchange_rate(FixedDecimal::zero()).unwrap()
        )
        .unwrap()
    );
    assert_eq!(
        "365.0000000000",
        ExchangeRate::invert_a_terra_exchange_rate(
            ExchangeRate::a_terra_exchange_rate(FixedDecimal::from_ratio(365, 1)).unwrap()
        )
        .unwrap()
        .to_string_repr()
        .get(0..14)
        .unwrap()
    );
    assert_eq!(
        "1.00000000000",
        ExchangeRate::invert_a_terra_exchange_rate(
            ExchangeRate::a_terra_exchange_rate(FixedDecimal::one()).unwrap()
        )
        .unwrap()
        .to_string_repr()
        .get(0..13)
        .unwrap()
    );
    assert_eq!(
        "1.50000000000",
        ExchangeRate::invert_a_terra_exchange_rate(
            ExchangeRate::a_terra_exchange_rate(FixedDecimal::from_ratio(3, 2)).unwrap()
        )
        .unwrap()
        .to_string_repr()
        .get(0..13)
        .unwrap()
    );
}

#[test]
fn test_floor() {
    assert_eq!("0", FixedDecimal::zero().floor().to_string_repr());
    assert_eq!("1", FixedDecimal::one().floor().to_string_repr());
    assert_eq!("0", FixedDecimal::from_ratio(1, 2).floor().to_string_repr());
    assert_eq!("1", FixedDecimal::from_ratio(3, 2).floor().to_string_repr());
}

#[test]
fn test_two_power_n() {
    assert_eq!("1", two_power_n(FixedDecimal::zero()).unwrap().to_string_repr());
    assert_eq!("2", two_power_n(FixedDecimal::one()).unwrap().to_string_repr());
    assert_eq!(
        "4",
        two_power_n(FixedDecimal::from_ratio(2, 1)).unwrap().to_string_repr()
    );
    assert_eq!(
        "8",
        two_power_n(FixedDecimal::from_ratio(3, 1)).unwrap().to_string_repr()
    );
    assert_eq!(
        "1024",
        two_power_n(FixedDecimal::from_ratio(10, 1)).unwrap().to_string_repr()
    );
}

#[test]
fn test_exp_fixedpoint() {
    assert_eq!("1", FixedDecimal::exp(FixedDecimal::zero()).unwrap().to_string_repr());
    assert_eq!(
        "2.71828182845904",
        FixedDecimal::exp(FixedDecimal::one())
            .unwrap()
            .to_string_repr()
            .get(0..16)
            .unwrap()
    );
    assert_eq!(
        "90.0171313005218",
        FixedDecimal::exp(FixedDecimal::from_ratio(9, 2))
            .unwrap()
            .to_string_repr()
            .get(0..16)
            .unwrap()
    );
    assert_eq!(
        "7.38905609893065",
        FixedDecimal::exp(FixedDecimal::from_ratio(2, 1))
            .unwrap()
            .to_string_repr()
            .get(0..16)
            .unwrap()
    );
    assert_eq!(
        "3.79366789468317",
        FixedDecimal::exp(FixedDecimal::from_ratio(4, 3))
            .unwrap()
            .to_string_repr()
            .get(0..16)
            .unwrap()
    );
}

#[test]
fn test_ln_fixedpoint() {
    assert_eq!("0", FixedDecimal::ln(FixedDecimal::one()).unwrap().to_string_repr());
    assert_eq!(
        "0.51082562376599",
        FixedDecimal::ln(FixedDecimal::from_ratio(5, 3))
            .unwrap()
            .to_string_repr()
            .get(0..16)
            .unwrap()
    );
    assert_eq!(
        "0.69314718055994",
        FixedDecimal::ln(FixedDecimal::from_ratio(2, 1))
            .unwrap()
            .to_string_repr()
            .get(0..16)
            .unwrap()
    );
    assert_eq!(
        "1.09861228866811",
        FixedDecimal::ln(FixedDecimal::from_ratio(3, 1))
            .unwrap()
            .to_string_repr()
            .get(0..16)
            .unwrap()
    );
    assert_eq!(
        "2.56494935746153",
        FixedDecimal::ln(FixedDecimal::from_ratio(13, 1))
            .unwrap()
            .to_string_repr()
            .get(0..16)
            .unwrap()
    );
}

#[test]
fn test_a_terra_exchange_rate_fixedpoint() {
    assert_eq!(
        "1",
        ExchangeRate::a_terra_exchange_rate(FixedDecimal::zero())
            .unwrap()
            .to_string_repr()
    );
    assert_eq!(
        "1.20000000000",
        ExchangeRate::a_terra_exchange_rate(FixedDecimal::from_ratio(365, 1))
            .unwrap()
            .to_string_repr()
            .get(0..13)
            .unwrap()
    );
    assert_eq!(
        "1.44000000000",
        ExchangeRate::a_terra_exchange_rate(FixedDecimal::from_ratio(2 * 365, 1))
            .unwrap()
            .to_string_repr()
            .get(0..13)
            .unwrap()
    );
    assert_eq!(
        "1.57744096561",
        ExchangeRate::a_terra_exchange_rate(FixedDecimal::from_ratio(5 * 365, 2))
            .unwrap()
            .to_string_repr()
            .get(0..13)
            .unwrap()
    );
}

#[test]
fn exp_rejects_arguments_above_domain() {
    let too_big = FixedDecimal::from_ratio(710, 1);
    assert_eq!(
        FixedDecimal::exp(too_big).unwrap_err(),
        VaultError::ArithmeticDomain
    );
}

#[test]
fn ln_rejects_arguments_below_one() {
    let half = FixedDecimal::from_ratio(1, 2);
    assert_eq!(FixedDecimal::ln(half).unwrap_err(), VaultError::ArithmeticDomain);
    assert_eq!(
        FixedDecimal::ln(FixedDecimal::zero()).unwrap_err(),
        VaultError::ArithmeticDomain
    );
}

#[test]
fn ln_of_exp_is_close_to_identity() {
    // the refinement converges to one atomic unit in its own metric; end to
    // end the round trip lands within about 10^-14
    for (num, den) in [(1u128, 1u128), (1, 2), (3, 2), (5, 1), (9, 2)] {
        let x = FixedDecimal::from_ratio(num, den);
        let e = FixedDecimal::exp(x).unwrap();
        let back = FixedDecimal::ln(e).unwrap();
        let err = FixedDecimal::error(x, back);
        assert!(err.raw <= 10_000, "ln(exp({num}/{den})) off by {}", err.raw);
    }
}

#[test]
fn rate_day_round_trip_is_close() {
    // day_to_base_rate(base_rate_to_day(r)) stays within a tight tolerance
    for (num, den) in [(12u128, 10u128), (144, 100), (101, 100), (2, 1)] {
        let r = FixedDecimal::from_ratio(num, den);
        let day = ExchangeRate::invert_a_terra_exchange_rate(r).unwrap();
        let back = ExchangeRate::a_terra_exchange_rate(day).unwrap();
        let err = FixedDecimal::error(r, back);
        assert!(err.raw <= 10_000_000, "round trip of {num}/{den} off by {}", err.raw);
    }
}

#[test]
fn curve_is_monotone_at_sample_points() {
    let r1 = ExchangeRate::a_terra_exchange_rate(FixedDecimal::from_ratio(100, 1)).unwrap();
    let r2 = ExchangeRate::a_terra_exchange_rate(FixedDecimal::from_ratio(200, 1)).unwrap();
    let r3 = ExchangeRate::a_terra_exchange_rate(FixedDecimal::from_ratio(400, 1)).unwrap();
    assert!(r1.raw < r2.raw && r2.raw < r3.raw);
    let v1 = ExchangeRate::capapult_exchange_rate(FixedDecimal::from_ratio(11, 10)).unwrap();
    let v2 = ExchangeRate::capapult_exchange_rate(FixedDecimal::from_ratio(12, 10)).unwrap();
    let v3 = ExchangeRate::capapult_exchange_rate(FixedDecimal::from_ratio(15, 10)).unwrap();
    assert!(v1.raw <= v2.raw && v2.raw <= v3.raw);
    assert!(v1.raw >= FixedDecimal::one().raw);
}

#[test]
fn two_power_n_overflows_to_none() {
    assert!(two_power_n(FixedDecimal::from_ratio(200, 1)).is_none());
}

#[test]
fn decimal_rendering_trims_trailing_zeros() {
    assert_eq!(FixedDecimal::from_ratio(3, 2).to_string_repr(), "1.5");
    assert_eq!(FixedDecimal::from_ratio(1, 8).to_string_repr(), "0.125");
    assert_eq!(FixedDecimal::one().to_string_repr(), "1");
    assert_eq!(
        FixedDecimal::from_raw(1).to_string_repr(),
        "0.000000000000000001"
    );
    assert_eq!(FixedDecimal::from_ratio(1024, 1).to_string_repr(), "1024");
}
