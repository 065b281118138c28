use invoice_ledger::amount::{Amount, MODERATE, NANOS_PER_UNIT, PER_MILLE};
use invoice_ledger::invoice::Invoice;

fn nanos(n: i128) -> Amount {
    Amount { nanos: n }
}

#[test]
fn a_unit_is_a_billion_nanos() {
    assert_eq!(NANOS_PER_UNIT, 1_000_000_000);
    assert_eq!(PER_MILLE, 1_000);
    assert_eq!(Amount::zero(), nanos(0));
    assert_eq!(Amount::from_units(1), nanos(1_000_000_000));
    assert_eq!(Amount::from_units(-3), nanos(-3_000_000_000));
    assert_eq!(Amount::from_units(i64::MAX), nanos(i64::MAX as i128 * 1_000_000_000));
    assert_eq!(Amount::from_units(i64::MIN), nanos(i64::MIN as i128 * 1_000_000_000));
}

#[test]
fn sums_and_differences_are_exact() {
    assert_eq!(nanos(7).plus(nanos(-9)), Some(nanos(-2)));
    assert_eq!(nanos(7).minus(nanos(-9)), Some(nanos(16)));
    assert_eq!(nanos(i128::MAX).plus(nanos(0)), Some(nanos(i128::MAX)));
    assert_eq!(nanos(i128::MIN).minus(nanos(0)), Some(nanos(i128::MIN)));
    assert_eq!(nanos(-1).minus(nanos(i128::MAX)), Some(nanos(i128::MIN)));
}

#[test]
fn sums_and_differences_that_cannot_be_held() {
    assert_eq!(nanos(i128::MAX).plus(nanos(1)), None);
    assert_eq!(nanos(i128::MIN).plus(nanos(-1)), None);
    assert_eq!(nanos(i128::MIN).minus(nanos(1)), None);
    assert_eq!(nanos(0).minus(nanos(i128::MIN)), None);
}

#[test]
fn an_amount_taken_several_times() {
    assert_eq!(Amount::from_units(500).times(5), Some(Amount::from_units(2_500)));
    assert_eq!(nanos(-3).times(255), Some(nanos(-765)));
    assert_eq!(nanos(i128::MAX).times(0), Some(nanos(0)));
    assert_eq!(nanos(i128::MAX).times(1), Some(nanos(i128::MAX)));
    assert_eq!(nanos(i128::MAX).times(2), None);
    assert_eq!(nanos(i128::MIN / 2 - 1).times(2), None);
}

#[test]
fn a_share_is_rounded_down() {
    assert_eq!(Amount::from_units(2_500).share(250), Some(Amount::from_units(625)));
    assert_eq!(nanos(1_000).share(205), Some(nanos(205)));
    assert_eq!(nanos(999).share(500), Some(nanos(499)));
    assert_eq!(nanos(-999).share(500), Some(nanos(-500)));
    assert_eq!(nanos(-1).share(1), Some(nanos(-1)));
    assert_eq!(nanos(1).share(999), Some(nanos(0)));
    assert_eq!(nanos(123).share(0), Some(nanos(0)));
    assert_eq!(nanos(123).share(1_000), Some(nanos(123)));
    assert_eq!(nanos(1_000).share(2_000), Some(nanos(2_000)));
}

#[test]
fn a_share_that_cannot_be_held() {
    assert_eq!(nanos(i128::MAX).share(2), None);
    assert_eq!(nanos(i128::MAX / 1_000 + 1).share(1_000), None);
    assert_eq!(nanos(i128::MAX / 1_000).share(1_000), Some(nanos(i128::MAX / 1_000)));
}

#[test]
fn amounts_as_text() {
    assert_eq!(Amount::from_units(500).to_text(), "500");
    assert_eq!(nanos(1_490_625_000_000).to_text(), "1490.625");
    assert_eq!(nanos(-500_000_000).to_text(), "-0.5");
    assert_eq!(Amount::parse("500.0"), Some(Amount::from_units(500)));
    assert_eq!(Amount::parse("-0.5"), Some(nanos(-500_000_000)));
    assert_eq!(Amount::parse("1490.625"), Some(nanos(1_490_625_000_000)));
    assert_eq!(Amount::parse("five"), None);
    assert_eq!(Amount::parse("170141183460469231731687303715.884105728"), None);
}

#[test]
fn moderate_amounts_give_an_invoice() {
    assert_eq!(MODERATE, 10i128.pow(30));
    let prior = Invoice {
        name: "before".to_string(),
        date: 0,
        days_worked: 1,
        daily_rate: nanos(MODERATE),
        currency: "EUR".to_string(),
        gross_profit: nanos(MODERATE),
        net_profit: nanos(0),
        government_tax: nanos(0),
        social_contribution_tax: nanos(0),
        total_tax: nanos(0),
    };
    for rate in [MODERATE, -MODERATE, 1, -1] {
        let invoice =
            Invoice::new("now".to_string(), 255, Some(nanos(rate)), None, &vec![prior.clone()], 1)
                .unwrap();
        assert_eq!(invoice.gross_profit, nanos(255 * rate));
        assert_eq!(
            invoice.total_tax.nanos,
            invoice.government_tax.nanos + invoice.social_contribution_tax.nanos
        );
    }
}
