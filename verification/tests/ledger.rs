use invoice_ledger::amount::Amount;
use invoice_ledger::invoice::Invoice;
use invoice_ledger::ledger::{
    fetch_invoices, file_path, invoices_from_records, ledger_header, new_ledger,
    write_invoice_to_csv, Field, LedgerError, FIELDS,
};

fn units(n: i64) -> Amount {
    Amount::from_units(n)
}

fn first() -> Invoice {
    Invoice::new(
        "test_invoice_1".to_string(),
        5,
        Some(units(500)),
        Some("EUR".to_string()),
        &vec![],
        1_700_000_000_000,
    )
    .unwrap()
}

fn record(fields: &[&str]) -> Vec<String> {
    fields.iter().map(|f| f.to_string()).collect()
}

const FIRST: [&str; 10] = [
    "test_invoice_1",
    "1700000000000",
    "5",
    "500",
    "EUR",
    "2500",
    "1490.625",
    "625",
    "384.375",
    "1009.375",
];

#[test]
fn header_names_the_ten_fields() {
    assert_eq!(FIELDS, 10);
    assert_eq!(
        ledger_header(),
        vec![
            "name",
            "date",
            "days_worked",
            "daily_rate",
            "currency",
            "gross_profit",
            "net_profit",
            "government_tax",
            "social_contribution_tax",
            "total_tax",
        ]
    );
    assert_eq!(Field::SocialContributionTax.name(), "social_contribution_tax");
    assert_eq!(Field::SocialContributionTax.position(), 8);
}

#[test]
fn new_ledger_is_the_header_row() {
    assert_eq!(
        new_ledger().unwrap(),
        b"name,date,days_worked,daily_rate,currency,gross_profit,net_profit,government_tax,social_contribution_tax,total_tax\n"
    );
}

#[test]
fn ledger_with_header_only_has_no_invoices() {
    let data = new_ledger().unwrap();
    assert_eq!(fetch_invoices(&data), Ok(vec![]));
}

#[test]
fn empty_ledger_has_no_invoices() {
    assert_eq!(fetch_invoices(b""), Ok(vec![]));
}

#[test]
fn invoice_as_record() {
    assert_eq!(first().to_record(), record(&FIRST));
}

#[test]
fn invoice_as_bytes() {
    assert_eq!(
        write_invoice_to_csv(&first()).unwrap(),
        b"test_invoice_1,1700000000000,5,500,EUR,2500,1490.625,625,384.375,1009.375\n"
    );
}

#[test]
fn name_with_a_comma_is_quoted() {
    let mut invoice = first();
    invoice.name = "a,\"b\"".to_string();
    let line = write_invoice_to_csv(&invoice).unwrap();
    assert!(line.starts_with(b"\"a,\"\"b\"\"\",1700000000000,"));
    let mut data = new_ledger().unwrap();
    data.extend(line);
    assert_eq!(fetch_invoices(&data), Ok(vec![invoice]));
}

#[test]
fn written_ledger_reads_back() {
    let a = first();
    let b = Invoice::new("b".to_string(), 20, Some(units(600)), None, &vec![a.clone()], 9).unwrap();
    let mut data = new_ledger().unwrap();
    data.extend(write_invoice_to_csv(&a).unwrap());
    data.extend(write_invoice_to_csv(&b).unwrap());
    assert_eq!(fetch_invoices(&data), Ok(vec![a, b]));
}

#[test]
fn blank_rows_between_records_are_passed_over() {
    let mut data = new_ledger().unwrap();
    data.extend(write_invoice_to_csv(&first()).unwrap());
    data.extend(b"\n\n");
    data.extend(write_invoice_to_csv(&first()).unwrap());
    assert_eq!(fetch_invoices(&data), Ok(vec![first(), first()]));
}

#[test]
fn record_as_invoice() {
    assert_eq!(Invoice::from_record(&record(&FIRST), 0), Ok(first()));
}

#[test]
fn fields_beyond_the_tenth_are_not_looked_at() {
    let mut fields = FIRST.to_vec();
    fields.push("more");
    assert_eq!(Invoice::from_record(&record(&fields), 0), Ok(first()));
}

#[test]
fn short_record_lacks_a_field() {
    assert_eq!(
        Invoice::from_record(&record(&FIRST[..9]), 3),
        Err(LedgerError::MissingField { row: 3, field: Field::TotalTax })
    );
    assert_eq!(
        Invoice::from_record(&vec![], 0),
        Err(LedgerError::MissingField { row: 0, field: Field::Name })
    );
}

#[test]
fn each_number_field_can_be_malformed() {
    let cases = [
        (1, Field::Date, "yesterday"),
        (1, Field::Date, "-1"),
        (2, Field::DaysWorked, "256"),
        (2, Field::DaysWorked, "5.0"),
        (3, Field::DailyRate, "five hundred"),
        (5, Field::GrossProfit, "2500,0"),
        (6, Field::NetProfit, ""),
        (7, Field::GovernmentTax, "NaN"),
        (8, Field::SocialContributionTax, "384.3750000001"),
        (9, Field::TotalTax, "1e3"),
    ];
    for (k, field, value) in cases {
        let mut fields = FIRST.to_vec();
        fields[k] = value;
        assert_eq!(
            Invoice::from_record(&record(&fields), 2),
            Err(LedgerError::MalformedField { row: 2, field, value: value.to_string() })
        );
    }
}

#[test]
fn first_faulty_field_is_reported() {
    let mut fields = FIRST.to_vec();
    fields[7] = "x";
    fields[3] = "y";
    assert_eq!(
        Invoice::from_record(&record(&fields), 0),
        Err(LedgerError::MalformedField {
            row: 0,
            field: Field::DailyRate,
            value: "y".to_string()
        })
    );
    assert_eq!(
        Invoice::from_record(&record(&fields[..2]), 0),
        Err(LedgerError::MissingField { row: 0, field: Field::DaysWorked })
    );
}

#[test]
fn any_text_is_a_name_or_a_currency() {
    let mut fields = FIRST.to_vec();
    fields[0] = "";
    fields[4] = "złoty";
    let invoice = Invoice::from_record(&record(&fields), 0).unwrap();
    assert_eq!(invoice.name, "");
    assert_eq!(invoice.currency, "złoty");
}

#[test]
fn first_faulty_record_is_reported() {
    let mut bad = FIRST.to_vec();
    bad[2] = "0x5";
    let rows = vec![record(&FIRST), record(&bad), record(&FIRST[..1])];
    assert_eq!(
        invoices_from_records(&rows),
        Err(LedgerError::MalformedField {
            row: 1,
            field: Field::DaysWorked,
            value: "0x5".to_string()
        })
    );
    assert_eq!(invoices_from_records(&rows[..1].to_vec()), Ok(vec![first()]));
    assert_eq!(invoices_from_records(&vec![]), Ok(vec![]));
}

#[test]
fn malformed_row_fails_the_whole_read() {
    let mut data = new_ledger().unwrap();
    data.extend(write_invoice_to_csv(&first()).unwrap());
    data.extend(b"b,9,20,600,EUR,twelve thousand,1,2,3,4\n");
    assert_eq!(
        fetch_invoices(&data),
        Err(LedgerError::MalformedField {
            row: 1,
            field: Field::GrossProfit,
            value: "twelve thousand".to_string()
        })
    );
}

#[test]
fn rows_of_unequal_length_are_unreadable() {
    let mut data = new_ledger().unwrap();
    data.extend(b"a,1,2\n");
    assert_eq!(fetch_invoices(&data), Err(LedgerError::Unreadable));
}

#[test]
fn bytes_that_are_no_text_are_unreadable() {
    let mut data = new_ledger().unwrap();
    data.extend(b"\xff\xfe,1,5,500,EUR,2500,1490.625,625,384.375,1009.375\n");
    assert_eq!(fetch_invoices(&data), Err(LedgerError::Unreadable));
}

#[test]
fn first_row_is_taken_as_the_header() {
    // Without a header row the first invoice is passed over.
    let mut data = write_invoice_to_csv(&first()).unwrap();
    data.extend(write_invoice_to_csv(&first()).unwrap());
    assert_eq!(fetch_invoices(&data), Ok(vec![first()]));
}

#[test]
fn path_names_the_year() {
    assert_eq!(file_path(2024), "src/invoices_2024.csv");
    assert_eq!(file_path(0), "src/invoices_0.csv");
    assert_eq!(file_path(-1), "src/invoices_-1.csv");
    assert_eq!(file_path(i32::MAX), "src/invoices_2147483647.csv");
    assert_eq!(file_path(i32::MIN), "src/invoices_-2147483648.csv");
}

#[test]
fn ledger_errors_say_what_is_wrong() {
    assert_eq!(LedgerError::Unreadable.message(), "the ledger is no table of records");
    assert_eq!(
        LedgerError::MissingField { row: 12, field: Field::TotalTax }.message(),
        "row 12: `total_tax` is missing"
    );
    assert_eq!(
        LedgerError::MalformedField {
            row: 0,
            field: Field::DaysWorked,
            value: "five".to_string()
        }
        .message(),
        "row 0: `days_worked` can not be `five`"
    );
}

#[test]
fn fields_have_their_place_and_name() {
    let fields = [
        Field::Name,
        Field::Date,
        Field::DaysWorked,
        Field::DailyRate,
        Field::Currency,
        Field::GrossProfit,
        Field::NetProfit,
        Field::GovernmentTax,
        Field::SocialContributionTax,
        Field::TotalTax,
    ];
    let header = ledger_header();
    for (place, field) in fields.iter().enumerate() {
        assert_eq!(field.position(), place);
        assert_eq!(field.name(), header[place]);
    }
}
