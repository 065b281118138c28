use invoice_ledger::amount::Amount;
use invoice_ledger::brackets::{appliable_tax_buckets, BracketAllocation};
use invoice_ledger::invoice::Invoice;
use invoice_ledger::taxes::{
    calc_government_tax, calc_social_contribution, calc_taxes, TaxFigures,
    SOCIAL_CONTRIBUTION_PER_MILLE,
};

fn units(n: i64) -> Amount {
    Amount::from_units(n)
}

fn milli(n: i128) -> Amount {
    Amount { nanos: n * 1_000_000 }
}

fn prior_invoice(name: &str, gross_profit: Amount) -> Invoice {
    Invoice {
        name: name.to_string(),
        date: 0,
        days_worked: 1,
        daily_rate: gross_profit,
        currency: "EUR".to_string(),
        gross_profit,
        net_profit: units(0),
        government_tax: units(0),
        social_contribution_tax: units(0),
        total_tax: units(0),
    }
}

#[test]
fn social_contribution_on_a_thousand() {
    let (net_profit, contribution) = calc_social_contribution(units(1_000)).unwrap();
    assert_eq!(contribution, units(205));
    assert_eq!(net_profit, units(795));
}

#[test]
fn social_contribution_rate_is_205_per_mille() {
    assert_eq!(SOCIAL_CONTRIBUTION_PER_MILLE, 205);
}

#[test]
fn social_contribution_on_nothing() {
    assert_eq!(calc_social_contribution(units(0)), Some((units(0), units(0))));
}

#[test]
fn social_contribution_rounds_down() {
    // 0.205 of 7 nanos is 1.435 nanos; of -7 nanos, -1.435 nanos.
    assert_eq!(
        calc_social_contribution(Amount { nanos: 7 }),
        Some((Amount { nanos: 6 }, Amount { nanos: 1 }))
    );
    assert_eq!(
        calc_social_contribution(Amount { nanos: -7 }),
        Some((Amount { nanos: -5 }, Amount { nanos: -2 }))
    );
}

#[test]
fn social_contribution_that_cannot_be_held() {
    assert_eq!(calc_social_contribution(Amount { nanos: i128::MAX / 100 }), None);
    assert_eq!(calc_social_contribution(Amount { nanos: i128::MIN }), None);
}

#[test]
fn government_tax_on_one_allocation() {
    let allocations = vec![BracketAllocation { amount: units(2_500), per_mille: 250 }];
    assert_eq!(calc_government_tax(&allocations), Some((units(1_875), units(625))));
}

#[test]
fn government_tax_on_no_allocation() {
    assert_eq!(calc_government_tax(&vec![]), Some((units(0), units(0))));
}

#[test]
fn government_tax_takes_the_running_tax_off_each_allocation() {
    // Tax: 1000 * 0.25 = 250, then 250 + 2000 * 0.40 = 1050.
    // Left: (1000 - 250) + (2000 - 1050) = 1700, not 3000 - 1050 = 1950.
    let allocations = vec![
        BracketAllocation { amount: units(1_000), per_mille: 250 },
        BracketAllocation { amount: units(2_000), per_mille: 400 },
    ];
    assert_eq!(calc_government_tax(&allocations), Some((units(1_700), units(1_050))));
}

#[test]
fn government_tax_on_the_known_anomaly() {
    let allocations = appliable_tax_buckets(units(0), units(20_000)).unwrap();
    // Tax: -6130 * 0.25 = -1532.5, then -1532.5 + 26130 * 0.40 = 8919.5.
    // Left: (-6130 + 1532.5) + (26130 - 8919.5) = 12613.
    assert_eq!(calc_government_tax(&allocations), Some((units(12_613), milli(8_919_500))));
}

#[test]
fn government_tax_that_cannot_be_held() {
    let allocations = vec![BracketAllocation { amount: Amount { nanos: i128::MAX }, per_mille: 2 }];
    assert_eq!(calc_government_tax(&allocations), None);
    let allocations = vec![
        BracketAllocation { amount: Amount { nanos: i128::MAX }, per_mille: 1 },
        BracketAllocation { amount: Amount { nanos: i128::MAX }, per_mille: 0 },
    ];
    assert_eq!(calc_government_tax(&allocations), None);
}

#[test]
fn first_invoice_of_the_year() {
    let figures = calc_taxes(5, units(500), &vec![]).unwrap();
    assert_eq!(
        figures,
        TaxFigures {
            gross_profit: units(2_500),
            net_profit: milli(1_490_625),
            government_tax: units(625),
            social_contribution_tax: milli(384_375),
        }
    );
}

#[test]
fn taxes_count_the_prior_gross_profit() {
    let invoices = vec![prior_invoice("a", units(10_000)), prior_invoice("b", units(5_000))];
    // On top of 15 000 the profit of 2 500 lies wholly in the second bucket.
    let figures = calc_taxes(5, units(500), &invoices).unwrap();
    assert_eq!(figures.gross_profit, units(2_500));
    assert_eq!(figures.government_tax, units(1_000));
    assert_eq!(figures.social_contribution_tax, milli(307_500));
    assert_eq!(figures.net_profit, milli(1_192_500));
}

#[test]
fn taxes_that_cannot_be_held() {
    assert_eq!(calc_taxes(2, Amount { nanos: i128::MAX }, &vec![]), None);
    let invoices = vec![
        prior_invoice("a", Amount { nanos: i128::MAX }),
        prior_invoice("b", Amount { nanos: 1 }),
    ];
    assert_eq!(calc_taxes(5, units(500), &invoices), None);
}
