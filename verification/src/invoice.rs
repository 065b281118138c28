//! Invoices: what one holds, when one may be made, and the totals over a year's invoices.

use vstd::prelude::*;
use crate::amount::{Amount, MODERATE, fits, magnitude};
use crate::decimal::billionths_text;
use crate::taxes::{calc_taxes, lemma_moderate_taxes_fit, taxes, taxes_fit};

verus! {

/// One invoicing event with the taxes that fell on it.
#[derive(Clone, Debug, PartialEq, Eq)]
pub struct Invoice {
    pub name: String,
    pub date: u128,
    pub days_worked: u8,
    pub daily_rate: Amount,
    pub currency: String,
    pub gross_profit: Amount,
    pub net_profit: Amount,
    pub government_tax: Amount,
    pub social_contribution_tax: Amount,
    pub total_tax: Amount,
}

/// What an `Invoice` stands for: its texts as sequences of characters, its date in
/// milliseconds, its money in nanos.
pub struct InvoiceView {
    pub name: Seq<char>,
    pub date: nat,
    pub days_worked: nat,
    pub daily_rate: int,
    pub currency: Seq<char>,
    pub gross_profit: int,
    pub net_profit: int,
    pub government_tax: int,
    pub social_contribution_tax: int,
    pub total_tax: int,
}

impl InvoiceView {
    /// Whether an `Invoice` can stand for this: whether its numbers can be held.
    pub open spec fn can_be_held(self) -> bool {
        &&& self.date <= u128::MAX
        &&& self.days_worked <= u8::MAX
        &&& fits(self.daily_rate)
        &&& fits(self.gross_profit)
        &&& fits(self.net_profit)
        &&& fits(self.government_tax)
        &&& fits(self.social_contribution_tax)
        &&& fits(self.total_tax)
    }
}

impl View for Invoice {
    type V = InvoiceView;

    open spec fn view(&self) -> InvoiceView {
        InvoiceView {
            name: self.name@,
            date: self.date as nat,
            days_worked: self.days_worked as nat,
            daily_rate: self.daily_rate@,
            currency: self.currency@,
            gross_profit: self.gross_profit@,
            net_profit: self.net_profit@,
            government_tax: self.government_tax@,
            social_contribution_tax: self.social_contribution_tax@,
            total_tax: self.total_tax@,
        }
    }
}

impl DeepView for Invoice {
    type V = InvoiceView;

    open spec fn deep_view(&self) -> InvoiceView {
        self@
    }
}

/// Why an invoice may not be made.
#[derive(Clone, Copy, Debug, PartialEq, Eq)]
pub enum PreconditionViolation {
    /// An invoice of the year bears the name already.
    DuplicateName,
    /// No days were worked.
    ZeroDaysWorked,
    /// The daily rate is zero.
    ZeroDailyRate,
}

/// Why no invoice was made.
#[derive(Clone, Copy, Debug, PartialEq, Eq)]
pub enum InvoiceError {
    /// The request is not in order.
    Precondition(PreconditionViolation),
    /// A figure of the invoice, or the year's gross profit so far, cannot be held.
    AmountOutOfRange,
}

impl PreconditionViolation {
    /// What is said of the violation.
    pub open spec fn text(self) -> Seq<char> {
        match self {
            PreconditionViolation::DuplicateName => "`name` needs to be unique from other invoices"@,
            PreconditionViolation::ZeroDaysWorked => "`days_worked` can not be 0"@,
            PreconditionViolation::ZeroDailyRate => "`daily_rate` can not be 0.0"@,
        }
    }

    /// What is said of the violation.
    pub fn message(self) -> (r: &'static str)
        ensures
            r@ == self.text(),
    {
        match self {
            PreconditionViolation::DuplicateName => "`name` needs to be unique from other invoices",
            PreconditionViolation::ZeroDaysWorked => "`days_worked` can not be 0",
            PreconditionViolation::ZeroDailyRate => "`daily_rate` can not be 0.0",
        }
    }
}

impl InvoiceError {
    /// What is said of the error.
    pub open spec fn text(self) -> Seq<char> {
        match self {
            InvoiceError::Precondition(violation) => violation.text(),
            InvoiceError::AmountOutOfRange => "the amounts of the invoice are out of range"@,
        }
    }

    /// What is said of the error.
    pub fn message(self) -> (r: &'static str)
        ensures
            r@ == self.text(),
    {
        match self {
            InvoiceError::Precondition(violation) => violation.message(),
            InvoiceError::AmountOutOfRange => "the amounts of the invoice are out of range",
        }
    }
}

/// The upper-case form of a text: what `str::to_uppercase` gives for it.
pub uninterp spec fn uppercase(text: Seq<char>) -> Seq<char>;

/// `str::to_uppercase` of the standard library: the result is a text of its own that
/// depends on the characters of `text` alone.
pub assume_specification[ str::to_uppercase ](text: &str) -> (r: String)
    ensures
        r@ == uppercase(text@),
;

/// The daily rate of an invoice that names none: five hundred currency units, in nanos.
pub const DEFAULT_DAILY_RATE: i128 = 500_000_000_000;

/// The currency of an invoice that names none.
pub open spec fn default_currency() -> Seq<char> {
    seq!['E', 'U', 'R']
}

/// Whether an invoice among `invoices` bears `name`.
pub open spec fn name_taken(invoices: Seq<InvoiceView>, name: Seq<char>) -> bool {
    exists|i: int| 0 <= i < invoices.len() && (#[trigger] invoices[i]).name == name
}

/// What is wrong with the days and the rate of a request, the days looked at first.
pub open spec fn request_violation(days_worked: int, daily_rate: Option<int>) -> Option<
    PreconditionViolation,
> {
    if days_worked == 0 {
        Some(PreconditionViolation::ZeroDaysWorked)
    } else if daily_rate == Some(0int) {
        Some(PreconditionViolation::ZeroDailyRate)
    } else {
        None
    }
}

/// What is wrong with a request for an invoice after `invoices`: its days and its rate
/// first, then its name.
pub open spec fn violation(
    name: Seq<char>,
    days_worked: int,
    daily_rate: Option<int>,
    invoices: Seq<InvoiceView>,
) -> Option<PreconditionViolation> {
    if request_violation(days_worked, daily_rate) is Some {
        request_violation(days_worked, daily_rate)
    } else if name_taken(invoices, name) {
        Some(PreconditionViolation::DuplicateName)
    } else {
        None
    }
}

/// The nanos of a daily rate that may be left out.
pub open spec fn rate_nanos(daily_rate: Option<Amount>) -> Option<int> {
    match daily_rate {
        Some(rate) => Some(rate@),
        None => None,
    }
}

/// The invoice that a request in order makes: the rate and the currency filled in where
/// they were left out, the currency in upper case, the figures worked out on top of the
/// gross profit of `invoices`, and the two taxes added up.
pub open spec fn invoice_made(
    name: Seq<char>,
    days_worked: int,
    daily_rate: Option<int>,
    currency: Option<Seq<char>>,
    invoices: Seq<InvoiceView>,
    date: nat,
) -> InvoiceView {
    let rate = match daily_rate {
        Some(rate) => rate,
        None => DEFAULT_DAILY_RATE as int,
    };
    let figures = taxes(days_worked, rate, column_total(invoices, Column::GrossProfit));
    InvoiceView {
        name,
        date,
        days_worked: days_worked as nat,
        daily_rate: rate,
        currency: uppercase(
            match currency {
                Some(currency) => currency,
                None => default_currency(),
            },
        ),
        gross_profit: figures.gross_profit,
        net_profit: figures.net_profit,
        government_tax: figures.government_tax,
        social_contribution_tax: figures.social_contribution_tax,
        total_tax: figures.government_tax + figures.social_contribution_tax,
    }
}

/// Whether the invoice that a request makes can be held, with all that is worked out on the
/// way to it.
pub open spec fn invoice_fits(
    days_worked: int,
    daily_rate: Option<int>,
    invoices: Seq<InvoiceView>,
) -> bool {
    let rate = match daily_rate {
        Some(rate) => rate,
        None => DEFAULT_DAILY_RATE as int,
    };
    let prior = column_total(invoices, Column::GrossProfit);
    &&& column_total_fits(invoices, Column::GrossProfit)
    &&& taxes_fit(days_worked, rate, prior)
    &&& fits(
        taxes(days_worked, rate, prior).government_tax + taxes(
            days_worked,
            rate,
            prior,
        ).social_contribution_tax,
    )
}

/// A request with a moderate rate, or with none, can be held as an invoice after invoices
/// whose gross profits can be added up to a moderate sum.
pub proof fn lemma_moderate_invoice_fits(
    days_worked: int,
    daily_rate: Option<int>,
    invoices: Seq<InvoiceView>,
)
    requires
        0 <= days_worked <= u8::MAX,
        daily_rate matches Some(rate) ==> magnitude(rate) <= MODERATE,
        column_total_fits(invoices, Column::GrossProfit),
        magnitude(column_total(invoices, Column::GrossProfit)) <= MODERATE,
    ensures
        invoice_fits(days_worked, daily_rate, invoices),
{
    let rate = match daily_rate {
        Some(rate) => rate,
        None => DEFAULT_DAILY_RATE as int,
    };
    lemma_moderate_taxes_fit(days_worked, rate, column_total(invoices, Column::GrossProfit));
}

/// The invoice that a request in order makes is for some days at some rate, has their
/// product as its gross profit, and has the two taxes added up as its total tax.
pub proof fn lemma_invoice_made_balances(
    name: Seq<char>,
    days_worked: int,
    daily_rate: Option<int>,
    currency: Option<Seq<char>>,
    invoices: Seq<InvoiceView>,
    date: nat,
)
    requires
        0 <= days_worked,
        violation(name, days_worked, daily_rate, invoices) is None,
    ensures
        ({
            let invoice = invoice_made(name, days_worked, daily_rate, currency, invoices, date);
            &&& invoice.days_worked > 0
            &&& invoice.daily_rate != 0
            &&& invoice.gross_profit == invoice.days_worked * invoice.daily_rate
            &&& invoice.total_tax == invoice.government_tax + invoice.social_contribution_tax
            &&& !name_taken(invoices, invoice.name)
        }),
{
}

impl Invoice {
    /// Looks at the days and the rate of a request, which can be done before the year's
    /// invoices are at hand.
    pub fn check_request(days_worked: u8, daily_rate: Option<Amount>) -> (r: Result<
        (),
        PreconditionViolation,
    >)
        ensures
            r == match request_violation(days_worked as int, rate_nanos(daily_rate)) {
                Some(violation) => Err::<(), PreconditionViolation>(violation),
                None => Ok(()),
            },
    {
        if days_worked == 0 {
            return Err(PreconditionViolation::ZeroDaysWorked);
        }
        match daily_rate {
            Some(rate) => {
                if rate.nanos == 0 {
                    return Err(PreconditionViolation::ZeroDailyRate);
                }
            },
            None => {},
        }
        Ok(())
    }

    /// Whether an invoice among `invoices` bears `name`.
    pub fn is_name_taken(invoices: &Vec<Invoice>, name: &String) -> (r: bool)
        ensures
            r == name_taken(invoices.deep_view(), name@),
    {
        let mut i: usize = 0;
        while i < invoices.len()
            invariant
                i <= invoices.len(),
                forall|j: int| 0 <= j < i ==> (#[trigger] invoices.deep_view()[j]).name != name@,
            decreases invoices.len() - i,
        {
            if invoices[i].name == *name {
                assert(invoices.deep_view()[i as int].name == name@);
                return true;
            }
            i += 1;
        }
        false
    }

    /// Makes the invoice `name` for `days_worked` days, dated `date` milliseconds, after
    /// `invoices` of the same year.
    ///
    /// A request that is not in order is refused, for its days and its rate before its
    /// name. One in order gives the invoice, or `AmountOutOfRange` where that cannot be
    /// held.
    pub fn new(
        name: String,
        days_worked: u8,
        daily_rate: Option<Amount>,
        currency: Option<String>,
        invoices: &Vec<Invoice>,
        date: u128,
    ) -> (r: Result<Invoice, InvoiceError>)
        ensures
            days_worked == 0 || rate_nanos(daily_rate) == Some(0int) || name_taken(
                invoices.deep_view(),
                name@,
            ) ==> r matches Err(InvoiceError::Precondition(_)),
            match violation(
                name@,
                days_worked as int,
                rate_nanos(daily_rate),
                invoices.deep_view(),
            ) {
                Some(violation) => r == Err::<Invoice, InvoiceError>(
                    InvoiceError::Precondition(violation),
                ),
                None => if invoice_fits(
                    days_worked as int,
                    rate_nanos(daily_rate),
                    invoices.deep_view(),
                ) {
                    r matches Ok(invoice) && invoice@ == invoice_made(
                        name@,
                        days_worked as int,
                        rate_nanos(daily_rate),
                        match currency {
                            Some(currency) => Some(currency@),
                            None => None,
                        },
                        invoices.deep_view(),
                        date as nat,
                    )
                } else {
                    r == Err::<Invoice, InvoiceError>(InvoiceError::AmountOutOfRange)
                },
            },
    {
        match Invoice::check_request(days_worked, daily_rate) {
            Err(violation) => {
                return Err(InvoiceError::Precondition(violation));
            },
            Ok(()) => {},
        }
        if Invoice::is_name_taken(invoices, &name) {
            return Err(InvoiceError::Precondition(PreconditionViolation::DuplicateName));
        }
        let daily_rate = match daily_rate {
            Some(rate) => rate,
            None => Amount { nanos: DEFAULT_DAILY_RATE },
        };
        let currency = match currency {
            Some(currency) => currency.as_str().to_uppercase(),
            None => {
                proof {
                    reveal_strlit("EUR");
                }
                assert("EUR"@ =~= default_currency());
                "EUR".to_uppercase()
            },
        };
        let figures = match calc_taxes(days_worked, daily_rate, invoices) {
            Some(figures) => figures,
            None => {
                return Err(InvoiceError::AmountOutOfRange);
            },
        };
        let total_tax = match figures.government_tax.plus(figures.social_contribution_tax) {
            Some(total_tax) => total_tax,
            None => {
                return Err(InvoiceError::AmountOutOfRange);
            },
        };
        Ok(
            Invoice {
                name,
                date,
                days_worked,
                daily_rate,
                currency,
                gross_profit: figures.gross_profit,
                net_profit: figures.net_profit,
                government_tax: figures.government_tax,
                social_contribution_tax: figures.social_contribution_tax,
                total_tax,
            },
        )
    }
}

/// The money columns of an invoice that are added up over a year.
#[derive(Clone, Copy, Debug, PartialEq, Eq)]
pub enum Column {
    GrossProfit,
    NetProfit,
    GovernmentTax,
    SocialContributionTax,
    TotalTax,
}

impl Column {
    /// What `invoice` holds in this column.
    pub open spec fn of(self, invoice: InvoiceView) -> int {
        match self {
            Column::GrossProfit => invoice.gross_profit,
            Column::NetProfit => invoice.net_profit,
            Column::GovernmentTax => invoice.government_tax,
            Column::SocialContributionTax => invoice.social_contribution_tax,
            Column::TotalTax => invoice.total_tax,
        }
    }

    /// What `invoice` holds in this column.
    pub fn get(self, invoice: &Invoice) -> (r: Amount)
        ensures
            r@ == self.of(invoice@),
    {
        match self {
            Column::GrossProfit => invoice.gross_profit,
            Column::NetProfit => invoice.net_profit,
            Column::GovernmentTax => invoice.government_tax,
            Column::SocialContributionTax => invoice.social_contribution_tax,
            Column::TotalTax => invoice.total_tax,
        }
    }
}

/// The sum of `column` over `invoices`.
pub open spec fn column_total(invoices: Seq<InvoiceView>, column: Column) -> int
    decreases invoices.len(),
{
    if invoices.len() == 0 {
        0
    } else {
        column_total(invoices.drop_last(), column) + column.of(invoices.last())
    }
}

/// Whether `column` can be added up over `invoices` from the first on: the sum over the
/// first invoice, over the first two, and so on to the sum over all.
pub open spec fn column_total_fits(invoices: Seq<InvoiceView>, column: Column) -> bool {
    forall|k: int|
        0 <= k <= invoices.len() ==> fits(#[trigger] column_total(invoices.take(k), column))
}

/// Adds up `column` over `invoices`.
///
/// The result is `None` exactly when the sum, or the sum over some of the first invoices,
/// cannot be held.
pub fn total_of(invoices: &Vec<Invoice>, column: Column) -> (r: Option<Amount>)
    ensures
        r.is_some() <==> column_total_fits(invoices.deep_view(), column),
        r matches Some(total) ==> total@ == column_total(invoices.deep_view(), column),
{
    let ghost all = invoices.deep_view();
    let mut total = Amount::zero();
    let mut k: usize = 0;
    while k < invoices.len()
        invariant
            k <= invoices.len(),
            all == invoices.deep_view(),
            total@ == column_total(all.take(k as int), column),
            forall|j: int| 0 <= j <= k ==> fits(#[trigger] column_total(all.take(j), column)),
        decreases invoices.len() - k,
    {
        let amount = column.get(&invoices[k]);
        proof {
            assert(all.take(k + 1).drop_last() =~= all.take(k as int));
            assert(all.take(k + 1).last() == invoices[k as int]@);
        }
        total = match total.plus(amount) {
            Some(total) => total,
            None => {
                assert(!fits(column_total(all.take(k + 1), column)));
                return None;
            },
        };
        k += 1;
    }
    assert(all.take(k as int) =~= all);
    Some(total)
}

/// The sums of the money columns over a year's invoices.
#[derive(Clone, Copy, Debug, PartialEq, Eq)]
pub struct Totals {
    pub gross_profit: Amount,
    pub net_profit: Amount,
    pub government_tax: Amount,
    pub social_contribution_tax: Amount,
    pub total_tax: Amount,
}

/// What `Totals` stand for, in nanos.
pub struct TotalsView {
    pub gross_profit: int,
    pub net_profit: int,
    pub government_tax: int,
    pub social_contribution_tax: int,
    pub total_tax: int,
}

impl View for Totals {
    type V = TotalsView;

    open spec fn view(&self) -> TotalsView {
        TotalsView {
            gross_profit: self.gross_profit@,
            net_profit: self.net_profit@,
            government_tax: self.government_tax@,
            social_contribution_tax: self.social_contribution_tax@,
            total_tax: self.total_tax@,
        }
    }
}

/// The sums of the five money columns over `invoices`.
pub open spec fn totals(invoices: Seq<InvoiceView>) -> TotalsView {
    TotalsView {
        gross_profit: column_total(invoices, Column::GrossProfit),
        net_profit: column_total(invoices, Column::NetProfit),
        government_tax: column_total(invoices, Column::GovernmentTax),
        social_contribution_tax: column_total(invoices, Column::SocialContributionTax),
        total_tax: column_total(invoices, Column::TotalTax),
    }
}

/// Whether all five money columns can be added up over `invoices`.
pub open spec fn totals_fit(invoices: Seq<InvoiceView>) -> bool {
    &&& column_total_fits(invoices, Column::GrossProfit)
    &&& column_total_fits(invoices, Column::NetProfit)
    &&& column_total_fits(invoices, Column::GovernmentTax)
    &&& column_total_fits(invoices, Column::SocialContributionTax)
    &&& column_total_fits(invoices, Column::TotalTax)
}

/// The lines that report `totals`, one for each column.
pub open spec fn report_lines(totals: TotalsView) -> Seq<Seq<char>> {
    seq![
        "Total gross profit: "@ + billionths_text(totals.gross_profit),
        "Total net profit: "@ + billionths_text(totals.net_profit),
        "Total government tax: "@ + billionths_text(totals.government_tax),
        "Total social contribution: "@ + billionths_text(totals.social_contribution_tax),
        "Total taxes: "@ + billionths_text(totals.total_tax),
    ]
}

impl Invoice {
    /// Adds up the money columns over `invoices`.
    ///
    /// The result is `None` exactly when a column cannot be added up.
    pub fn accountant_info(invoices: &Vec<Invoice>) -> (r: Option<Totals>)
        ensures
            r.is_some() <==> totals_fit(invoices.deep_view()),
            r matches Some(sums) ==> sums@ == totals(invoices.deep_view()),
    {
        let gross_profit = match total_of(invoices, Column::GrossProfit) {
            Some(total) => total,
            None => {
                return None;
            },
        };
        let net_profit = match total_of(invoices, Column::NetProfit) {
            Some(total) => total,
            None => {
                return None;
            },
        };
        let government_tax = match total_of(invoices, Column::GovernmentTax) {
            Some(total) => total,
            None => {
                return None;
            },
        };
        let social_contribution_tax = match total_of(invoices, Column::SocialContributionTax) {
            Some(total) => total,
            None => {
                return None;
            },
        };
        let total_tax = match total_of(invoices, Column::TotalTax) {
            Some(total) => total,
            None => {
                return None;
            },
        };
        Some(Totals { gross_profit, net_profit, government_tax, social_contribution_tax, total_tax })
    }
}

/// A line of a report: `label`, then the text of `amount`.
fn report_line(label: &str, amount: Amount) -> (r: String)
    ensures
        r@ == label@ + billionths_text(amount@),
{
    let mut line = String::new();
    line.append(label);
    let text = amount.to_text();
    line.append(text.as_str());
    assert(line@ =~= label@ + billionths_text(amount@));
    line
}

impl Totals {
    /// The lines that report these totals, in the order of the columns.
    pub fn report(&self) -> (r: Vec<String>)
        ensures
            r.deep_view() == report_lines(self@),
    {
        let mut lines: Vec<String> = Vec::new();
        lines.push(report_line("Total gross profit: ", self.gross_profit));
        lines.push(report_line("Total net profit: ", self.net_profit));
        lines.push(report_line("Total government tax: ", self.government_tax));
        lines.push(report_line("Total social contribution: ", self.social_contribution_tax));
        lines.push(report_line("Total taxes: ", self.total_tax));
        assert(lines.deep_view() =~= report_lines(self@));
        lines
    }
}

} // verus!
