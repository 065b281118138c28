use invoice_ledger::amount::Amount;
use invoice_ledger::invoice::{
    Column, Invoice, InvoiceError, PreconditionViolation, Totals, total_of, DEFAULT_DAILY_RATE,
};

fn units(n: i64) -> Amount {
    Amount::from_units(n)
}

fn milli(n: i128) -> Amount {
    Amount { nanos: n * 1_000_000 }
}

fn first() -> Invoice {
    Invoice::new(
        "test_invoice_1".to_string(),
        5,
        Some(units(500)),
        Some("EUR".to_string()),
        &vec![],
        1_700_000_000_000,
    )
    .unwrap()
}

#[test]
fn first_invoice_end_to_end() {
    let invoice = first();
    assert_eq!(
        invoice,
        Invoice {
            name: "test_invoice_1".to_string(),
            date: 1_700_000_000_000,
            days_worked: 5,
            daily_rate: units(500),
            currency: "EUR".to_string(),
            gross_profit: units(2_500),
            net_profit: milli(1_490_625),
            government_tax: units(625),
            social_contribution_tax: milli(384_375),
            total_tax: milli(1_009_375),
        }
    );
}

#[test]
fn rate_and_currency_have_defaults() {
    let invoice = Invoice::new("a".to_string(), 5, None, None, &vec![], 7).unwrap();
    assert_eq!(DEFAULT_DAILY_RATE, 500_000_000_000);
    assert_eq!(invoice.daily_rate, units(500));
    assert_eq!(invoice.currency, "EUR");
    assert_eq!(invoice.gross_profit, units(2_500));
    assert_eq!(invoice.date, 7);
}

#[test]
fn currency_is_put_in_upper_case() {
    let invoice =
        Invoice::new("a".to_string(), 1, None, Some("usd".to_string()), &vec![], 0).unwrap();
    assert_eq!(invoice.currency, "USD");
}

#[test]
fn second_invoice_builds_on_the_first() {
    let invoices = vec![first()];
    let invoice = Invoice::new("b".to_string(), 20, Some(units(600)), None, &invoices, 9).unwrap();
    // 2 500 before, 12 000 new: the upper edge, 14 500, lies past the first bound.
    assert_eq!(invoice.gross_profit, units(12_000));
    // Portions: 13 870 - 14 500 = -630 at 0.25, then 12 630 at 0.40.
    // Tax: -157.5, then -157.5 + 5052 = 4894.5.
    assert_eq!(invoice.government_tax, milli(4_894_500));
    // Left: (-630 + 157.5) + (12 630 - 4894.5) = 7263.
    assert_eq!(invoice.social_contribution_tax, milli(1_488_915));
    assert_eq!(invoice.net_profit, milli(5_774_085));
    assert_eq!(invoice.total_tax, milli(6_383_415));
}

#[test]
fn name_already_present_is_refused() {
    let invoices = vec![first()];
    let got = Invoice::new(
        "test_invoice_1".to_string(),
        5,
        Some(units(500)),
        Some("EUR".to_string()),
        &invoices,
        1,
    );
    assert_eq!(got, Err(InvoiceError::Precondition(PreconditionViolation::DuplicateName)));
    assert_eq!(invoices.len(), 1);
}

#[test]
fn names_differ_by_case() {
    let invoices = vec![first()];
    assert!(!Invoice::is_name_taken(&invoices, &"Test_invoice_1".to_string()));
    assert!(Invoice::is_name_taken(&invoices, &"test_invoice_1".to_string()));
    assert!(!Invoice::is_name_taken(&vec![], &"test_invoice_1".to_string()));
}

#[test]
fn zero_days_worked_is_refused() {
    let got = Invoice::new("a".to_string(), 0, Some(units(500)), None, &vec![], 1);
    assert_eq!(got, Err(InvoiceError::Precondition(PreconditionViolation::ZeroDaysWorked)));
    assert_eq!(
        Invoice::check_request(0, Some(units(500))),
        Err(PreconditionViolation::ZeroDaysWorked)
    );
}

#[test]
fn zero_daily_rate_is_refused() {
    let got = Invoice::new("a".to_string(), 5, Some(units(0)), None, &vec![], 1);
    assert_eq!(got, Err(InvoiceError::Precondition(PreconditionViolation::ZeroDailyRate)));
    assert_eq!(Invoice::check_request(5, Some(units(0))), Err(PreconditionViolation::ZeroDailyRate));
}

#[test]
fn days_are_looked_at_before_rate_and_name() {
    let invoices = vec![first()];
    let got = Invoice::new("test_invoice_1".to_string(), 0, Some(units(0)), None, &invoices, 1);
    assert_eq!(got, Err(InvoiceError::Precondition(PreconditionViolation::ZeroDaysWorked)));
    let got = Invoice::new("test_invoice_1".to_string(), 1, Some(units(0)), None, &invoices, 1);
    assert_eq!(got, Err(InvoiceError::Precondition(PreconditionViolation::ZeroDailyRate)));
}

#[test]
fn request_in_order_passes_the_check() {
    assert_eq!(Invoice::check_request(5, Some(units(500))), Ok(()));
    assert_eq!(Invoice::check_request(1, None), Ok(()));
    assert_eq!(Invoice::check_request(255, Some(Amount { nanos: -1 })), Ok(()));
}

#[test]
fn invoice_that_cannot_be_held_is_refused() {
    let got = Invoice::new("a".to_string(), 2, Some(Amount { nanos: i128::MAX }), None, &vec![], 1);
    assert_eq!(got, Err(InvoiceError::AmountOutOfRange));
}

#[test]
fn totals_over_no_invoice() {
    let zero = units(0);
    assert_eq!(
        Invoice::accountant_info(&vec![]),
        Some(Totals {
            gross_profit: zero,
            net_profit: zero,
            government_tax: zero,
            social_contribution_tax: zero,
            total_tax: zero,
        })
    );
}

#[test]
fn totals_over_two_invoices() {
    let a = first();
    let b = Invoice::new("b".to_string(), 20, Some(units(600)), None, &vec![a.clone()], 9).unwrap();
    let totals = Invoice::accountant_info(&vec![a, b]).unwrap();
    assert_eq!(
        totals,
        Totals {
            gross_profit: units(14_500),
            net_profit: milli(1_490_625 + 5_774_085),
            government_tax: milli(625_000 + 4_894_500),
            social_contribution_tax: milli(384_375 + 1_488_915),
            total_tax: milli(1_009_375 + 6_383_415),
        }
    );
}

#[test]
fn totals_that_cannot_be_held() {
    let mut a = first();
    a.net_profit = Amount { nanos: i128::MAX };
    let b = first();
    assert_eq!(Invoice::accountant_info(&vec![a.clone(), b.clone()]), None);
    assert_eq!(total_of(&vec![a.clone(), b.clone()], Column::NetProfit), None);
    assert_eq!(total_of(&vec![a, b], Column::GrossProfit), Some(units(5_000)));
}

#[test]
fn running_total_that_cannot_be_held() {
    let mut a = first();
    a.total_tax = Amount { nanos: i128::MAX };
    let mut b = first();
    b.total_tax = Amount { nanos: 1 };
    let mut c = first();
    c.total_tax = Amount { nanos: -2 };
    assert_eq!(total_of(&vec![a.clone(), b.clone(), c.clone()], Column::TotalTax), None);
    assert_eq!(
        total_of(&vec![a, c, b], Column::TotalTax),
        Some(Amount { nanos: i128::MAX - 1 })
    );
}

#[test]
fn report_of_the_first_invoice() {
    let totals = Invoice::accountant_info(&vec![first()]).unwrap();
    assert_eq!(
        totals.report(),
        vec![
            "Total gross profit: 2500",
            "Total net profit: 1490.625",
            "Total government tax: 625",
            "Total social contribution: 384.375",
            "Total taxes: 1009.375",
        ]
    );
}

#[test]
fn violations_say_what_is_wrong() {
    assert_eq!(
        PreconditionViolation::DuplicateName.message(),
        "`name` needs to be unique from other invoices"
    );
    assert_eq!(PreconditionViolation::ZeroDaysWorked.message(), "`days_worked` can not be 0");
    assert_eq!(PreconditionViolation::ZeroDailyRate.message(), "`daily_rate` can not be 0.0");
    assert_eq!(
        InvoiceError::Precondition(PreconditionViolation::ZeroDaysWorked).message(),
        "`days_worked` can not be 0"
    );
    assert_eq!(
        InvoiceError::AmountOutOfRange.message(),
        "the amounts of the invoice are out of range"
    );
}

#[test]
fn columns_pick_their_amount() {
    let invoice = first();
    assert_eq!(Column::GrossProfit.get(&invoice), units(2_500));
    assert_eq!(Column::NetProfit.get(&invoice), milli(1_490_625));
    assert_eq!(Column::GovernmentTax.get(&invoice), units(625));
    assert_eq!(Column::SocialContributionTax.get(&invoice), milli(384_375));
    assert_eq!(Column::TotalTax.get(&invoice), milli(1_009_375));
}

#[test]
fn net_profit_is_not_gross_profit_less_taxes_after_a_split() {
    // With one portion the figures balance; once a bound is passed, the tax on the first
    // portion is taken off twice and they do not.
    let a = first();
    assert_eq!(a.net_profit.nanos, a.gross_profit.nanos - a.total_tax.nanos);
    let b = Invoice::new("b".to_string(), 20, Some(units(600)), None, &vec![a], 9).unwrap();
    assert_ne!(b.net_profit.nanos, b.gross_profit.nanos - b.total_tax.nanos);
}
