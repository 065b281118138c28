//! The ledger of a year: its invoices as records of text, and the records as bytes.

use vstd::prelude::*;
use crate::amount::{Amount, amount_value, lemma_amount_text_reads_back};
use crate::decimal::{
    billionths_text,
    digits_of,
    integer_text,
    integer_to_text,
    lemma_digits_of,
    parse_u128,
    push_digits,
    unsigned_to_text,
    unsigned_value,
};
use crate::invoice::{Invoice, InvoiceView};

verus! {

/// The fields of a record, in their order.
#[derive(Clone, Copy, Debug, PartialEq, Eq)]
pub enum Field {
    Name,
    Date,
    DaysWorked,
    DailyRate,
    Currency,
    GrossProfit,
    NetProfit,
    GovernmentTax,
    SocialContributionTax,
    TotalTax,
}

/// How many fields a record has.
pub const FIELDS: usize = 10;

impl Field {
    /// The place of the field in a record, counted from zero.
    pub open spec fn index(self) -> int {
        match self {
            Field::Name => 0,
            Field::Date => 1,
            Field::DaysWorked => 2,
            Field::DailyRate => 3,
            Field::Currency => 4,
            Field::GrossProfit => 5,
            Field::NetProfit => 6,
            Field::GovernmentTax => 7,
            Field::SocialContributionTax => 8,
            Field::TotalTax => 9,
        }
    }

    /// The field at place `index`.
    pub open spec fn at(index: int) -> Field {
        if index == 0 {
            Field::Name
        } else if index == 1 {
            Field::Date
        } else if index == 2 {
            Field::DaysWorked
        } else if index == 3 {
            Field::DailyRate
        } else if index == 4 {
            Field::Currency
        } else if index == 5 {
            Field::GrossProfit
        } else if index == 6 {
            Field::NetProfit
        } else if index == 7 {
            Field::GovernmentTax
        } else if index == 8 {
            Field::SocialContributionTax
        } else {
            Field::TotalTax
        }
    }

    /// The name of the field, as the head of the ledger has it.
    pub open spec fn title(self) -> Seq<char> {
        match self {
            Field::Name => "name"@,
            Field::Date => "date"@,
            Field::DaysWorked => "days_worked"@,
            Field::DailyRate => "daily_rate"@,
            Field::Currency => "currency"@,
            Field::GrossProfit => "gross_profit"@,
            Field::NetProfit => "net_profit"@,
            Field::GovernmentTax => "government_tax"@,
            Field::SocialContributionTax => "social_contribution_tax"@,
            Field::TotalTax => "total_tax"@,
        }
    }

    /// The place of the field in a record, counted from zero.
    pub fn position(self) -> (r: usize)
        ensures
            r == self.index(),
            r < FIELDS,
            Field::at(r as int) == self,
    {
        match self {
            Field::Name => 0,
            Field::Date => 1,
            Field::DaysWorked => 2,
            Field::DailyRate => 3,
            Field::Currency => 4,
            Field::GrossProfit => 5,
            Field::NetProfit => 6,
            Field::GovernmentTax => 7,
            Field::SocialContributionTax => 8,
            Field::TotalTax => 9,
        }
    }

    /// The name of the field, as the head of the ledger has it.
    pub fn name(self) -> (r: &'static str)
        ensures
            r@ == self.title(),
    {
        match self {
            Field::Name => "name",
            Field::Date => "date",
            Field::DaysWorked => "days_worked",
            Field::DailyRate => "daily_rate",
            Field::Currency => "currency",
            Field::GrossProfit => "gross_profit",
            Field::NetProfit => "net_profit",
            Field::GovernmentTax => "government_tax",
            Field::SocialContributionTax => "social_contribution_tax",
            Field::TotalTax => "total_tax",
        }
    }
}

/// Why a ledger could not be read.
#[derive(Clone, Debug, PartialEq, Eq)]
pub enum LedgerError {
    /// The bytes are no table of records.
    Unreadable,
    /// The record at `row` is too short to have `field`.
    MissingField { row: usize, field: Field },
    /// In the record at `row`, `value` is no text for `field`.
    MalformedField { row: usize, field: Field, value: String },
}

/// What a `LedgerError` stands for.
pub enum LedgerFault {
    Unreadable,
    MissingField { row: nat, field: Field },
    MalformedField { row: nat, field: Field, value: Seq<char> },
}

impl View for LedgerError {
    type V = LedgerFault;

    open spec fn view(&self) -> LedgerFault {
        match self {
            LedgerError::Unreadable => LedgerFault::Unreadable,
            LedgerError::MissingField { row, field } => LedgerFault::MissingField {
                row: *row as nat,
                field: *field,
            },
            LedgerError::MalformedField { row, field, value } => LedgerFault::MalformedField {
                row: *row as nat,
                field: *field,
                value: value@,
            },
        }
    }
}

impl LedgerFault {
    /// What is said of the fault: the row, the field and, where there is one, the text
    /// that could not be read.
    pub open spec fn text(self) -> Seq<char> {
        match self {
            LedgerFault::Unreadable => "the ledger is no table of records"@,
            LedgerFault::MissingField { row, field } => "row "@ + digits_of(row) + ": `"@
                + field.title() + "` is missing"@,
            LedgerFault::MalformedField { row, field, value } => "row "@ + digits_of(row) + ": `"@
                + field.title() + "` can not be `"@ + value + "`"@,
        }
    }
}

impl LedgerError {
    /// What is said of the error.
    pub fn message(&self) -> (r: String)
        ensures
            r@ == self@.text(),
    {
        match self {
            LedgerError::Unreadable => String::from_str("the ledger is no table of records"),
            LedgerError::MissingField { row, field } => {
                let mut text = String::from_str("row ");
                push_digits(&mut text, *row as u128);
                text.append(": `");
                text.append(field.name());
                text.append("` is missing");
                assert(text@ =~= self@.text());
                text
            },
            LedgerError::MalformedField { row, field, value } => {
                let mut text = String::from_str("row ");
                push_digits(&mut text, *row as u128);
                text.append(": `");
                text.append(field.name());
                text.append("` can not be `");
                text.append(value.as_str());
                text.append("`");
                assert(text@ =~= self@.text());
                text
            },
        }
    }
}

/// The whole number up to `most` that `text` stands for, where it stands for one.
pub open spec fn count_value(text: Seq<char>, most: nat) -> Option<nat> {
    match unsigned_value(text) {
        Some(count) => if count <= most {
            Some(count)
        } else {
            None
        },
        None => None,
    }
}

/// Whether `text` can be read as `field`: any text is a name or a currency, a date is a
/// whole number of up to 128 bits, the days worked are one of up to 8 bits, and the others
/// are amounts.
pub open spec fn field_readable(field: Field, text: Seq<char>) -> bool {
    match field {
        Field::Name | Field::Currency => true,
        Field::Date => count_value(text, u128::MAX as nat) is Some,
        Field::DaysWorked => count_value(text, u8::MAX as nat) is Some,
        _ => amount_value(text) is Some,
    }
}

/// Whether `record` lacks the field at place `k` or has a text there that cannot be read.
pub open spec fn field_faulty(record: Seq<Seq<char>>, k: int) -> bool {
    k >= record.len() || !field_readable(Field::at(k), record[k])
}

/// The place of the first faulty field of `record` from place `k` on, if there is one.
pub open spec fn first_fault(record: Seq<Seq<char>>, k: int) -> Option<int>
    decreases FIELDS - k,
{
    if k < 0 || k >= FIELDS {
        None
    } else if field_faulty(record, k) {
        Some(k)
    } else {
        first_fault(record, k + 1)
    }
}

/// What is wrong with the field at place `k` of the record at `row`.
pub open spec fn fault_at(record: Seq<Seq<char>>, row: nat, k: int) -> LedgerFault {
    if k >= record.len() {
        LedgerFault::MissingField { row, field: Field::at(k) }
    } else {
        LedgerFault::MalformedField { row, field: Field::at(k), value: record[k] }
    }
}

/// The invoice that the record at `row` stands for, or what is wrong with the first of its
/// fields that is faulty. Fields beyond the tenth are not looked at.
pub open spec fn read_record(record: Seq<Seq<char>>, row: nat) -> Result<InvoiceView, LedgerFault> {
    match first_fault(record, 0) {
        Some(k) => Err(fault_at(record, row, k)),
        None => Ok(
            InvoiceView {
                name: record[0],
                date: count_value(record[1], u128::MAX as nat)->0,
                days_worked: count_value(record[2], u8::MAX as nat)->0,
                daily_rate: amount_value(record[3])->0,
                currency: record[4],
                gross_profit: amount_value(record[5])->0,
                net_profit: amount_value(record[6])->0,
                government_tax: amount_value(record[7])->0,
                social_contribution_tax: amount_value(record[8])->0,
                total_tax: amount_value(record[9])->0,
            },
        ),
    }
}

/// The invoices that `rows` stand for, or what is wrong with the first record that has a
/// faulty field.
pub open spec fn read_records(rows: Seq<Seq<Seq<char>>>) -> Result<Seq<InvoiceView>, LedgerFault>
    decreases rows.len(),
{
    if rows.len() == 0 {
        Ok(Seq::empty())
    } else {
        match read_records(rows.drop_last()) {
            Err(fault) => Err(fault),
            Ok(invoices) => match read_record(rows.last(), (rows.len() - 1) as nat) {
                Err(fault) => Err(fault),
                Ok(invoice) => Ok(invoices.push(invoice)),
            },
        }
    }
}

/// The record of `invoice`: its texts as they are, its numbers as decimal text.
pub open spec fn record_of(invoice: InvoiceView) -> Seq<Seq<char>> {
    seq![
        invoice.name,
        digits_of(invoice.date),
        digits_of(invoice.days_worked),
        billionths_text(invoice.daily_rate),
        invoice.currency,
        billionths_text(invoice.gross_profit),
        billionths_text(invoice.net_profit),
        billionths_text(invoice.government_tax),
        billionths_text(invoice.social_contribution_tax),
        billionths_text(invoice.total_tax),
    ]
}

/// The head of a ledger: the names of the fields.
pub open spec fn header_record() -> Seq<Seq<char>> {
    Seq::new(FIELDS as nat, |k: int| Field::at(k).title())
}

/// The text of `field` in the record at `row`, where the record has it.
fn text_of<'a>(record: &'a Vec<String>, row: usize, field: Field) -> (r: Result<
    &'a String,
    LedgerError,
>)
    ensures
        match r {
            Ok(text) => field.index() < record.len() && text@ == record.deep_view()[field.index()],
            Err(error) => field.index() >= record.len() && error@ == fault_at(
                record.deep_view(),
                row as nat,
                field.index(),
            ),
        },
{
    let k = field.position();
    if k < record.len() {
        Ok(&record[k])
    } else {
        Err(LedgerError::MissingField { row, field })
    }
}

/// The whole number up to `most` in `field` of the record at `row`.
fn count_of(record: &Vec<String>, row: usize, field: Field, most: u128) -> (r: Result<
    u128,
    LedgerError,
>)
    ensures
        match r {
            Ok(count) => field.index() < record.len() && count_value(
                record.deep_view()[field.index()],
                most as nat,
            ) == Some(count as nat),
            Err(error) => {
                &&& field.index() >= record.len() || count_value(
                    record.deep_view()[field.index()],
                    most as nat,
                ) is None
                &&& error@ == fault_at(record.deep_view(), row as nat, field.index())
            },
        },
{
    let text = text_of(record, row, field)?;
    match parse_u128(text.as_str()) {
        Some(count) => {
            if count <= most {
                return Ok(count);
            }
        },
        None => {},
    }
    Err(LedgerError::MalformedField { row, field, value: text.clone() })
}

/// The amount in `field` of the record at `row`.
fn amount_of(record: &Vec<String>, row: usize, field: Field) -> (r: Result<Amount, LedgerError>)
    ensures
        match r {
            Ok(amount) => field.index() < record.len() && amount_value(
                record.deep_view()[field.index()],
            ) == Some(amount@),
            Err(error) => {
                &&& field.index() >= record.len() || amount_value(
                    record.deep_view()[field.index()],
                ) is None
                &&& error@ == fault_at(record.deep_view(), row as nat, field.index())
            },
        },
{
    let text = text_of(record, row, field)?;
    match Amount::parse(text.as_str()) {
        Some(amount) => Ok(amount),
        None => Err(LedgerError::MalformedField { row, field, value: text.clone() }),
    }
}

impl Invoice {
    /// Reads the invoice that the record at `row` stands for.
    pub fn from_record(record: &Vec<String>, row: usize) -> (r: Result<Invoice, LedgerError>)
        ensures
            match r {
                Ok(invoice) => read_record(record.deep_view(), row as nat) == Ok::<
                    InvoiceView,
                    LedgerFault,
                >(invoice@),
                Err(error) => read_record(record.deep_view(), row as nat) == Err::<
                    InvoiceView,
                    LedgerFault,
                >(error@),
            },
    {
        proof {
            reveal_with_fuel(first_fault, 11);
        }
        let name = text_of(record, row, Field::Name)?.clone();
        let date = count_of(record, row, Field::Date, u128::MAX)?;
        let days_worked = count_of(record, row, Field::DaysWorked, 255)? as u8;
        let daily_rate = amount_of(record, row, Field::DailyRate)?;
        let currency = text_of(record, row, Field::Currency)?.clone();
        let gross_profit = amount_of(record, row, Field::GrossProfit)?;
        let net_profit = amount_of(record, row, Field::NetProfit)?;
        let government_tax = amount_of(record, row, Field::GovernmentTax)?;
        let social_contribution_tax = amount_of(record, row, Field::SocialContributionTax)?;
        let total_tax = amount_of(record, row, Field::TotalTax)?;
        Ok(
            Invoice {
                name,
                date,
                days_worked,
                daily_rate,
                currency,
                gross_profit,
                net_profit,
                government_tax,
                social_contribution_tax,
                total_tax,
            },
        )
    }

    /// The record of this invoice.
    pub fn to_record(&self) -> (r: Vec<String>)
        ensures
            r.deep_view() == record_of(self@),
    {
        let mut record: Vec<String> = Vec::new();
        record.push(self.name.clone());
        record.push(unsigned_to_text(self.date));
        record.push(unsigned_to_text(self.days_worked as u128));
        record.push(self.daily_rate.to_text());
        record.push(self.currency.clone());
        record.push(self.gross_profit.to_text());
        record.push(self.net_profit.to_text());
        record.push(self.government_tax.to_text());
        record.push(self.social_contribution_tax.to_text());
        record.push(self.total_tax.to_text());
        assert(record.deep_view() =~= record_of(self@));
        record
    }
}

/// The error type of the `csv` crate, carried from its reader to where it is answered.
#[verifier::external_type_specification]
#[verifier::external_body]
pub struct ExCsvError(csv::Error);

/// The records that the `csv` crate reads from `data` with a reader as `ReaderBuilder::new`
/// sets it up: the fields of each record but the first, which is the head; `None` where the
/// reader reports an error.
pub uninterp spec fn csv_rows(data: Seq<u8>) -> Option<Seq<Seq<Seq<char>>>>;

/// The bytes that the `csv` crate writes for one record with a writer as
/// `WriterBuilder::new` sets it up; `None` where the writer reports an error.
pub uninterp spec fn csv_line(record: Seq<Seq<char>>) -> Option<Seq<u8>>;

/// Reads `data` with `csv::Reader::records`, on a reader that `csv::ReaderBuilder::new`
/// made over the bytes. The records come as the reader gives them, a text for each field,
/// up to its first error, which is handed on. What comes depends on `data` alone.
#[verifier::external_body]
fn read_csv(data: &[u8]) -> (r: Result<Vec<Vec<String>>, csv::Error>)
    ensures
        match r {
            Ok(rows) => csv_rows(data@) == Some(rows.deep_view()),
            Err(_) => csv_rows(data@) is None,
        },
{
    let mut reader = csv::ReaderBuilder::new().from_reader(data);
    let mut rows = Vec::new();
    for row in reader.records() {
        rows.push(row?.iter().map(String::from).collect());
    }
    Ok(rows)
}

/// Writes `record` with `csv::Writer::write_record`, on a writer that
/// `csv::WriterBuilder::new` made over an empty vector, and takes the vector back with
/// `csv::Writer::into_inner`. What is written depends on the fields of `record` alone.
#[verifier::external_body]
fn write_csv(record: &Vec<String>) -> (r: Option<Vec<u8>>)
    ensures
        match r {
            Some(bytes) => csv_line(record.deep_view()) == Some(bytes@),
            None => csv_line(record.deep_view()) is None,
        },
{
    let mut writer = csv::WriterBuilder::new().from_writer(Vec::new());
    writer.write_record(record).ok()?;
    writer.into_inner().ok()
}

/// The invoices that the bytes of a ledger stand for, or why there are none.
pub open spec fn ledger_of(data: Seq<u8>) -> Result<Seq<InvoiceView>, LedgerFault> {
    match csv_rows(data) {
        Some(rows) => read_records(rows),
        None => Err(LedgerFault::Unreadable),
    }
}

/// Reads the invoices that `rows` stand for, the first record being at row zero.
pub fn invoices_from_records(rows: &Vec<Vec<String>>) -> (r: Result<Vec<Invoice>, LedgerError>)
    ensures
        match r {
            Ok(invoices) => read_records(rows.deep_view()) == Ok::<Seq<InvoiceView>, LedgerFault>(
                invoices.deep_view(),
            ),
            Err(error) => read_records(rows.deep_view()) == Err::<Seq<InvoiceView>, LedgerFault>(
                error@,
            ),
        },
{
    let ghost all = rows.deep_view();
    let mut invoices: Vec<Invoice> = Vec::new();
    let mut row: usize = 0;
    assert(all.take(0) =~= Seq::<Seq<Seq<char>>>::empty());
    assert(invoices.deep_view() =~= Seq::<InvoiceView>::empty());
    while row < rows.len()
        invariant
            row <= rows.len(),
            all == rows.deep_view(),
            read_records(all.take(row as int)) == Ok::<Seq<InvoiceView>, LedgerFault>(
                invoices.deep_view(),
            ),
        decreases rows.len() - row,
    {
        let ghost before = invoices.deep_view();
        proof {
            assert(all.take(row + 1).drop_last() =~= all.take(row as int));
            assert(all.take(row + 1).last() == rows[row as int].deep_view());
        }
        match Invoice::from_record(&rows[row], row) {
            Ok(invoice) => {
                invoices.push(invoice);
                assert(invoices.deep_view() =~= before.push(invoice@));
            },
            Err(error) => {
                proof {
                    lemma_fault_stays(all, row + 1);
                }
                return Err(error);
            },
        }
        row += 1;
    }
    assert(all.take(row as int) =~= all);
    Ok(invoices)
}

/// Reads the invoices of a ledger from its bytes.
///
/// Bytes that the `csv` crate cannot read give `Unreadable`; else the records after the
/// head are read in their order, and the first faulty one gives its error.
pub fn fetch_invoices(data: &[u8]) -> (r: Result<Vec<Invoice>, LedgerError>)
    ensures
        match r {
            Ok(invoices) => ledger_of(data@) == Ok::<Seq<InvoiceView>, LedgerFault>(
                invoices.deep_view(),
            ),
            Err(error) => ledger_of(data@) == Err::<Seq<InvoiceView>, LedgerFault>(error@),
        },
{
    match read_csv(data) {
        Ok(rows) => invoices_from_records(&rows),
        Err(_) => Err(LedgerError::Unreadable),
    }
}

/// The bytes that `invoice` adds to the end of a ledger: its record as the `csv` crate
/// writes it.
pub fn write_invoice_to_csv(invoice: &Invoice) -> (r: Option<Vec<u8>>)
    ensures
        match r {
            Some(bytes) => csv_line(record_of(invoice@)) == Some(bytes@),
            None => csv_line(record_of(invoice@)) is None,
        },
{
    let record = invoice.to_record();
    write_csv(&record)
}

/// The head of a ledger: the names of the fields in their order.
pub fn ledger_header() -> (r: Vec<String>)
    ensures
        r.deep_view() == header_record(),
{
    let mut header: Vec<String> = Vec::new();
    header.push(String::from_str(Field::Name.name()));
    header.push(String::from_str(Field::Date.name()));
    header.push(String::from_str(Field::DaysWorked.name()));
    header.push(String::from_str(Field::DailyRate.name()));
    header.push(String::from_str(Field::Currency.name()));
    header.push(String::from_str(Field::GrossProfit.name()));
    header.push(String::from_str(Field::NetProfit.name()));
    header.push(String::from_str(Field::GovernmentTax.name()));
    header.push(String::from_str(Field::SocialContributionTax.name()));
    header.push(String::from_str(Field::TotalTax.name()));
    assert(header.deep_view() =~= header_record());
    header
}

/// The bytes of a ledger that has no invoice yet: its head as the `csv` crate writes it.
pub fn new_ledger() -> (r: Option<Vec<u8>>)
    ensures
        match r {
            Some(bytes) => csv_line(header_record()) == Some(bytes@),
            None => csv_line(header_record()) is None,
        },
{
    let header = ledger_header();
    write_csv(&header)
}

/// The path of the ledger of `year`: the year's number between a fixed head and tail.
pub open spec fn ledger_path(year: int) -> Seq<char> {
    "src/invoices_"@ + integer_text(year) + ".csv"@
}

/// The path of the ledger of `year`.
pub fn file_path(year: i32) -> (r: String)
    ensures
        r@ == ledger_path(year as int),
{
    let mut path = String::from_str("src/invoices_");
    let number = integer_to_text(year as i64);
    path.append(number.as_str());
    path.append(".csv");
    assert(path@ =~= ledger_path(year as int));
    path
}

/// The first faulty field of a record is faulty and no field before it is; a record without
/// one has ten fields that can all be read.
pub proof fn lemma_first_fault_is_first(record: Seq<Seq<char>>)
    ensures
        match first_fault(record, 0) {
            Some(k) => {
                &&& 0 <= k < FIELDS
                &&& field_faulty(record, k)
                &&& forall|j: int| 0 <= j < k ==> !field_faulty(record, j)
            },
            None => forall|j: int| 0 <= j < FIELDS ==> !field_faulty(record, j),
        },
{
    reveal_with_fuel(first_fault, 11);
}

/// Records that all stand for an invoice are read as those invoices, in their order; else
/// what is wrong is what is wrong with the first record that stands for none.
pub proof fn lemma_read_records_is_row_by_row(rows: Seq<Seq<Seq<char>>>)
    ensures
        match read_records(rows) {
            Ok(invoices) => {
                &&& invoices.len() == rows.len()
                &&& forall|i: int|
                    0 <= i < rows.len() ==> read_record(#[trigger] rows[i], i as nat) == Ok::<
                        InvoiceView,
                        LedgerFault,
                    >(invoices[i])
            },
            Err(fault) => exists|i: int|
                {
                    &&& 0 <= i < rows.len()
                    &&& read_record(#[trigger] rows[i], i as nat) == Err::<
                        InvoiceView,
                        LedgerFault,
                    >(fault)
                    &&& forall|j: int| 0 <= j < i ==> read_record(#[trigger] rows[j], j as nat) is Ok
                },
        },
    decreases rows.len(),
{
    if rows.len() > 0 {
        let before = rows.drop_last();
        let last = rows.len() - 1;
        lemma_read_records_is_row_by_row(before);
        assert(forall|i: int| 0 <= i < before.len() ==> before[i] == rows[i]);
        match read_records(before) {
            Ok(invoices) => {
                match read_record(rows.last(), last as nat) {
                    Ok(invoice) => {},
                    Err(fault) => {
                        assert(read_record(rows[last], last as nat) == Err::<
                            InvoiceView,
                            LedgerFault,
                        >(fault));
                    },
                }
            },
            Err(fault) => {
                let i = choose|i: int|
                    {
                        &&& 0 <= i < before.len()
                        &&& read_record(#[trigger] before[i], i as nat) == Err::<
                            InvoiceView,
                            LedgerFault,
                        >(fault)
                        &&& forall|j: int|
                            0 <= j < i ==> read_record(#[trigger] before[j], j as nat) is Ok
                    };
                assert(read_record(rows[i], i as nat) == Err::<InvoiceView, LedgerFault>(fault));
                assert forall|j: int| 0 <= j < i implies read_record(
                    #[trigger] rows[j],
                    j as nat,
                ) is Ok by {
                    assert(before[j] == rows[j]);
                }
            },
        }
    }
}

/// Once a record is faulty, the records after it do not change what is wrong.
pub proof fn lemma_fault_stays(rows: Seq<Seq<Seq<char>>>, n: int)
    requires
        0 <= n <= rows.len(),
        read_records(rows.take(n)) is Err,
    ensures
        read_records(rows) == read_records(rows.take(n)),
    decreases rows.len(),
{
    if n < rows.len() {
        assert(rows.drop_last().take(n) =~= rows.take(n));
        lemma_fault_stays(rows.drop_last(), n);
    } else {
        assert(rows.take(n) =~= rows);
    }
}

/// The record of an invoice reads back as that invoice, at whichever row it stands.
pub proof fn lemma_record_reads_back(invoice: InvoiceView, row: nat)
    requires
        invoice.can_be_held(),
    ensures
        read_record(record_of(invoice), row) == Ok::<InvoiceView, LedgerFault>(invoice),
{
    reveal_with_fuel(first_fault, 11);
    lemma_digits_of(invoice.date);
    lemma_digits_of(invoice.days_worked);
    lemma_amount_text_reads_back(invoice.daily_rate);
    lemma_amount_text_reads_back(invoice.gross_profit);
    lemma_amount_text_reads_back(invoice.net_profit);
    lemma_amount_text_reads_back(invoice.government_tax);
    lemma_amount_text_reads_back(invoice.social_contribution_tax);
    lemma_amount_text_reads_back(invoice.total_tax);
}

/// The records of a year's invoices read back as those invoices, in their order.
pub proof fn lemma_records_read_back(invoices: Seq<InvoiceView>)
    requires
        forall|i: int| 0 <= i < invoices.len() ==> (#[trigger] invoices[i]).can_be_held(),
    ensures
        read_records(invoices.map_values(|invoice: InvoiceView| record_of(invoice))) == Ok::<
            Seq<InvoiceView>,
            LedgerFault,
        >(invoices),
    decreases invoices.len(),
{
    let rows = invoices.map_values(|invoice: InvoiceView| record_of(invoice));
    if invoices.len() > 0 {
        let before = invoices.drop_last();
        assert(rows.drop_last() =~= before.map_values(|invoice: InvoiceView| record_of(invoice)));
        assert forall|i: int| 0 <= i < before.len() implies (#[trigger] before[i]).can_be_held() by {
            assert(before[i] == invoices[i]);
        }
        lemma_records_read_back(before);
        lemma_record_reads_back(invoices.last(), (rows.len() - 1) as nat);
        assert(before.push(invoices.last()) =~= invoices);
    } else {
        assert(invoices =~= Seq::<InvoiceView>::empty());
    }
}

} // verus!
