use invoice_parser::{
    classify_row, normalize, parse_date, parse_invoice, parse_numeral, render, Date, Field,
    Invoice, ParseError, RowClass, StructuralFault, ValidationFault,
};

fn chars(s: &str) -> Vec<char> {
    s.chars().collect()
}

fn text(v: &[char]) -> String {
    v.iter().collect()
}

const HEAD: &str = "<html><head><title>\u{7d0d}\u{54c1}\u{66f8}</title></head><body>\n\
<h1>\u{7d0d}\u{54c1}\u{66f8}</h1>\n\
<table class=\"header\">\n\
<tr><th>\u{8ca9}\u{58f2}\u{5143}</th><td>\u{79cb}\u{6708}\u{96fb}\u{5b50}\u{901a}\u{5546}</td></tr>\n\
<tr><th>\u{6ce8}\u{6587}\u{756a}\u{53f7}</th><td>E240315-012345</td></tr>\n\
<tr><th>\u{767a}\u{884c}\u{65e5}</th><td>2024\u{5e74}3\u{6708}15\u{65e5}</td></tr>\n\
</table>\n";

const ITEM_HEADING: &str = "<tr><th>\u{901a}\u{8ca9}\u{30b3}\u{30fc}\u{30c9}</th><th>\u{5546}\u{54c1}\u{540d}</th><th>\u{6570}\u{91cf}</th><th>\u{5358}\u{4fa1}</th><th>\u{91d1}\u{984d}</th></tr>\n";

const ITEMS: &str = "<tr><td>I-00001</td><td>\u{62b5}\u{6297} 1k\u{3a9}</td><td>100</td><td>\u{a5}1</td><td>\u{a5}100</td></tr>\n\
<tr><td>P-02001</td><td>\u{30de}\u{30a4}\u{30b3}\u{30f3}</td><td>2</td><td>\u{ffe5}1,250</td><td>2,500\u{5186}</td></tr>\n\
<tr><td>C-00123</td><td>\u{30b3}\u{30f3}\u{30c7}\u{30f3}\u{30b5}</td><td>10</td><td>15</td><td>150</td></tr>\n";

fn totals(sub: &str, tax: &str, total: &str) -> String {
    format!(
        "<tr><td colspan=\"3\"></td><td>\u{5c0f}\u{8a08}</td><td>{}</td></tr>\n\
<tr><td colspan=\"3\"></td><td>\u{6d88}\u{8cbb}\u{7a0e}</td><td>{}</td></tr>\n\
<tr><td colspan=\"3\"></td><td>\u{5408}\u{8a08}</td><td>{}</td></tr>\n",
        sub, tax, total
    )
}

fn document(items: &str, sub: &str, tax: &str, total: &str) -> String {
    format!(
        "{}<table class=\"items\">\n{}{}{}</table>\n</body></html>\n",
        HEAD,
        ITEM_HEADING,
        items,
        totals(sub, tax, total)
    )
}

fn fixture() -> String {
    document(ITEMS, "\u{a5}2,750", "\u{a5}275", "\u{a5}3,025")
}

fn parsed(html: &str) -> Invoice {
    match parse_invoice(html) {
        Ok(inv) => inv,
        Err(e) => panic!("unexpected error {:?}", e),
    }
}

#[test]
fn end_to_end_fixture() {
    let inv = parsed(&fixture());
    assert_eq!(text(&inv.issuer), "\u{79cb}\u{6708}\u{96fb}\u{5b50}\u{901a}\u{5546}");
    assert_eq!(text(&inv.number), "E240315-012345");
    assert_eq!(inv.issued, Date { year: 2024, month: 3, day: 15 });
    assert_eq!(inv.due, None);
    assert_eq!(inv.items.len(), 3);
    assert_eq!(inv.subtotal, 2750);
    assert_eq!(inv.tax, 275);
    assert_eq!(inv.total, 3025);
    let q: Vec<u64> = inv.items.iter().map(|i| i.quantity).collect();
    let u: Vec<u64> = inv.items.iter().map(|i| i.unit_price).collect();
    let a: Vec<u64> = inv.items.iter().map(|i| i.amount).collect();
    assert_eq!(q, vec![100, 2, 10]);
    assert_eq!(u, vec![1, 1250, 15]);
    assert_eq!(a, vec![100, 2500, 150]);
    assert_eq!(text(&inv.items[1].name), "\u{30de}\u{30a4}\u{30b3}\u{30f3}");
}

#[test]
fn items_keep_document_order() {
    let inv = parsed(&fixture());
    let codes: Vec<String> = inv.items.iter().map(|i| text(&i.code)).collect();
    assert_eq!(codes, vec!["I-00001", "P-02001", "C-00123"]);
    let swapped = "<tr><td>C-00123</td><td>x</td><td>1</td><td>1</td><td>1</td></tr>\n\
<tr><td>I-00001</td><td>y</td><td>1</td><td>1</td><td>1</td></tr>\n";
    let inv2 = parsed(&document(swapped, "2", "0", "2"));
    let codes2: Vec<String> = inv2.items.iter().map(|i| text(&i.code)).collect();
    assert_eq!(codes2, vec!["C-00123", "I-00001"]);
}

#[test]
fn parsing_twice_gives_equal_invoices() {
    let html = fixture();
    let a = parsed(&html);
    let b = parsed(&html);
    assert_eq!(render(&a), render(&b));
    assert_eq!(a.issued, b.issued);
    assert_eq!(a.items.len(), b.items.len());
}

#[test]
fn render_is_exact() {
    let inv = parsed(&fixture());
    let expected = "issuer\t\u{79cb}\u{6708}\u{96fb}\u{5b50}\u{901a}\u{5546}\n\
number\tE240315-012345\n\
issued\t2024-03-15\n\
item\tI-00001\t\u{62b5}\u{6297} 1k\u{3a9}\t100\t1\t100\t\n\
item\tP-02001\t\u{30de}\u{30a4}\u{30b3}\u{30f3}\t2\t1250\t2500\t\n\
item\tC-00123\t\u{30b3}\u{30f3}\u{30c7}\u{30f3}\u{30b5}\t10\t15\t150\t\n\
subtotal\t2750\n\
tax\t275\n\
total\t3025\n";
    assert_eq!(text(&render(&inv)), expected);
}

#[test]
fn rendered_values_read_back() {
    let inv = parsed(&fixture());
    let out = text(&render(&inv));
    for line in out.lines() {
        let parts: Vec<&str> = line.split('\t').collect();
        match parts[0] {
            "total" => assert_eq!(parse_numeral(&chars(parts[1])).unwrap().value, inv.total),
            "subtotal" => {
                assert_eq!(parse_numeral(&chars(parts[1])).unwrap().value, inv.subtotal)
            }
            "issued" => assert_eq!(parse_date(&chars(parts[1])), Some(inv.issued)),
            _ => {}
        }
    }
    let big = u64::MAX;
    assert_eq!(parse_numeral(&chars(&big.to_string())).unwrap().value, big);
}

#[test]
fn numeral_with_separators() {
    let n = parse_numeral(&chars("1,234")).unwrap();
    assert_eq!(n.value, 1234);
    assert_eq!(n.symbol, None);
}

#[test]
fn numeral_with_currency_mark() {
    let n = parse_numeral(&chars("\u{a5}1,234")).unwrap();
    assert_eq!(n.value, 1234);
    assert_eq!(n.symbol, Some('\u{a5}'));
    let m = parse_numeral(&chars("\u{ffe5}1,234,567\u{5186}")).unwrap();
    assert_eq!(m.value, 1234567);
    assert_eq!(m.symbol, Some('\u{ffe5}'));
}

#[test]
fn malformed_numerals_are_refused() {
    assert_eq!(parse_numeral(&chars("12a34")), None);
    assert_eq!(parse_numeral(&chars("")), None);
    assert_eq!(parse_numeral(&chars("1,23")), None);
    assert_eq!(parse_numeral(&chars("1234,567")), None);
    assert_eq!(parse_numeral(&chars(",123")), None);
    assert_eq!(parse_numeral(&chars("18446744073709551616")), None);
    assert_eq!(parse_numeral(&chars("12345")).unwrap().value, 12345);
}

#[test]
fn malformed_amount_is_a_normalization_error() {
    let items = "<tr><td>A</td><td>x</td><td>1</td><td>12a34</td><td>1</td></tr>\n";
    match parse_invoice(&document(items, "1", "0", "1")) {
        Err(ParseError::NormalizationError(Field::UnitPrice, raw)) => {
            assert_eq!(text(&raw), "12a34")
        }
        other => panic!("unexpected {:?}", other),
    }
}

#[test]
fn currency_mark_on_quantity_is_refused() {
    let items = "<tr><td>A</td><td>x</td><td>\u{a5}3</td><td>1</td><td>3</td></tr>\n";
    let r = parse_invoice(&document(items, "3", "0", "3"));
    assert!(matches!(r, Err(ParseError::NormalizationError(Field::Quantity, _))));
}

#[test]
fn missing_item_table_is_structural() {
    let html = format!("{}</body></html>", HEAD);
    let r = parse_invoice(&html);
    assert!(matches!(
        r,
        Err(ParseError::StructuralError(StructuralFault::MissingItemTable))
    ));
    let r2 = parse_invoice("");
    assert!(matches!(
        r2,
        Err(ParseError::StructuralError(StructuralFault::MissingItemTable))
    ));
}

#[test]
fn empty_item_table_with_zero_total_is_valid() {
    let inv = parsed(&document("", "0", "0", "\u{a5}0"));
    assert_eq!(inv.items.len(), 0);
    assert_eq!(inv.total, 0);
}

#[test]
fn empty_item_table_with_nonzero_total_fails() {
    let r = parse_invoice(&document("", "100", "10", "110"));
    assert!(matches!(
        r,
        Err(ParseError::ValidationError(ValidationFault::NoItems))
    ));
}

#[test]
fn full_width_space_around_labels() {
    let html = fixture()
        .replace(
            "<th>\u{8ca9}\u{58f2}\u{5143}</th>",
            "<th>\u{3000} \u{8ca9}\u{58f2}\u{5143}\u{3000}\n\t</th>",
        )
        .replace(
            "<td>\u{5408}\u{8a08}</td>",
            "<td>\n\u{3000}\u{5408}\u{8a08}\u{ff1a}\u{a0}</td>",
        );
    let inv = parsed(&html);
    assert_eq!(text(&inv.issuer), "\u{79cb}\u{6708}\u{96fb}\u{5b50}\u{901a}\u{5546}");
    assert_eq!(inv.total, 3025);
}

#[test]
fn whitespace_is_collapsed() {
    let n = normalize(&chars("\u{3000} a \t\n b\u{3000}c  "));
    assert_eq!(text(&n), "a b\u{3000}c".replace('\u{3000}', " "));
    assert_eq!(text(&normalize(&chars(" \u{3000}\t"))), "");
}

#[test]
fn dates_in_each_form() {
    let d = Date { year: 2024, month: 3, day: 5 };
    assert_eq!(parse_date(&chars("2024/3/5")), Some(d));
    assert_eq!(parse_date(&chars("2024-03-05")), Some(d));
    assert_eq!(parse_date(&chars("2024.03.5")), Some(d));
    assert_eq!(parse_date(&chars("2024\u{5e74}03\u{6708}05\u{65e5}")), Some(d));
    assert_eq!(
        parse_date(&chars("2024/02/29")),
        Some(Date { year: 2024, month: 2, day: 29 })
    );
}

#[test]
fn invalid_dates_are_refused() {
    assert_eq!(parse_date(&chars("2023/02/29")), None);
    assert_eq!(parse_date(&chars("1900/02/29")), None);
    assert_eq!(parse_date(&chars("2024/13/01")), None);
    assert_eq!(parse_date(&chars("2024/04/31")), None);
    assert_eq!(parse_date(&chars("2024/3-5")), None);
    assert_eq!(parse_date(&chars("24/3/5")), None);
    assert_eq!(parse_date(&chars("2024\u{5e74}3\u{6708}5")), None);
    assert_eq!(parse_date(&chars("0000/01/01")), None);
}

#[test]
fn bad_issue_date_is_a_normalization_error() {
    let html = fixture().replace("2024\u{5e74}3\u{6708}15\u{65e5}", "2024/02/30");
    match parse_invoice(&html) {
        Err(ParseError::NormalizationError(Field::IssueDate, raw)) => {
            assert_eq!(text(&raw), "2024/02/30")
        }
        other => panic!("unexpected {:?}", other),
    }
}

#[test]
fn due_date_is_read_when_present() {
    let html = fixture().replace(
        "</table>\n<table class=\"items\">",
        "<tr><th>\u{652f}\u{6255}\u{671f}\u{9650}</th><td>2024-04-30</td></tr></table>\n<table class=\"items\">",
    );
    let inv = parsed(&html);
    assert_eq!(inv.due, Some(Date { year: 2024, month: 4, day: 30 }));
    assert!(text(&render(&inv)).contains("due\t2024-04-30\n"));
}

#[test]
fn missing_issuer_is_a_field_error() {
    let html = fixture().replace("\u{8ca9}\u{58f2}\u{5143}", "\u{767a}\u{884c}\u{8005}");
    let r = parse_invoice(&html);
    assert!(matches!(r, Err(ParseError::FieldExtractionError(Field::Issuer))));
}

#[test]
fn missing_total_is_a_field_error() {
    let html = fixture().replace(
        "<tr><td colspan=\"3\"></td><td>\u{5408}\u{8a08}</td><td>\u{a5}3,025</td></tr>\n",
        "",
    );
    let r = parse_invoice(&html);
    assert!(matches!(r, Err(ParseError::FieldExtractionError(Field::Total))));
    let renamed = fixture().replace("<td>\u{5408}\u{8a08}</td>", "<td>Total</td>");
    let r2 = parse_invoice(&renamed);
    assert!(matches!(
        r2,
        Err(ParseError::StructuralError(StructuralFault::MalformedRow(_)))
    ));
}

#[test]
fn unclassified_row_is_structural() {
    let items = "<tr><td>A</td><td>x</td><td>1</td></tr>\n";
    let r = parse_invoice(&document(items, "1", "0", "1"));
    assert!(matches!(
        r,
        Err(ParseError::StructuralError(StructuralFault::MalformedRow(_)))
    ));
}

#[test]
fn blank_rows_are_skipped() {
    let items = "<tr><td> </td><td></td></tr>\n<tr><td>A</td><td>x</td><td>1</td><td>5</td><td>5</td></tr>\n";
    let inv = parsed(&document(items, "5", "0", "5"));
    assert_eq!(inv.items.len(), 1);
    assert_eq!(inv.items[0].amount, 5);
}

#[test]
fn stated_item_count_is_checked() {
    let with_count = fixture().replace(
        "</table>\n<table class=\"items\">",
        "<tr><th>\u{70b9}\u{6570}</th><td>4</td></tr></table>\n<table class=\"items\">",
    );
    let r = parse_invoice(&with_count);
    assert!(matches!(
        r,
        Err(ParseError::ValidationError(ValidationFault::ItemCountMismatch {
            stated: 4,
            counted: 3
        }))
    ));
    let good = with_count.replace("<td>4</td>", "<td>3</td>");
    assert_eq!(parsed(&good).items.len(), 3);
}

#[test]
fn loose_markup_is_tolerated() {
    let html = "<HTML><BODY><TABLE>\
<TR><TH>\u{8ca9}\u{58f2}\u{5143}<TD>Shop\
<TR><TH>\u{6ce8}\u{6587}\u{756a}\u{53f7}<TD>N-1\
<TR><TH>\u{767a}\u{884c}\u{65e5}<TD>2024/1/2\
<TR><TH>\u{901a}\u{8ca9}\u{30b3}\u{30fc}\u{30c9}<TH>\u{5546}\u{54c1}\u{540d}<TH>\u{6570}\u{91cf}<TH>\u{5358}\u{4fa1}<TH>\u{91d1}\u{984d}\
<TR><TD>X-1<TD>Part<br>A<TD>3<TD>7<TD>21\
<TR><TD>\u{5c0f}\u{8a08}<TD>21\
<TR><TD>\u{6d88}\u{8cbb}\u{7a0e}<TD>2\
<TR><TD>\u{5408}\u{8a08}<TD>23";
    let inv = parsed(html);
    assert_eq!(text(&inv.issuer), "Shop");
    assert_eq!(inv.items.len(), 1);
    assert_eq!(text(&inv.items[0].name), "Part A");
    assert_eq!(inv.items[0].amount, 21);
    assert_eq!(inv.total, 23);
}

#[test]
fn row_classes() {
    let blank = vec![chars(""), chars("")];
    let summary = vec![chars(""), chars("\u{5c0f}\u{8a08}"), chars("1")];
    let data = vec![chars("a"), chars("b"), chars("1"), chars("2"), chars("2")];
    let other = vec![chars("a"), chars("b")];
    assert_eq!(classify_row(&blank, 5), RowClass::Skip);
    assert_eq!(classify_row(&summary, 5), RowClass::Skip);
    assert_eq!(classify_row(&data, 5), RowClass::Data);
    assert_eq!(classify_row(&data, 6), RowClass::Bad);
    assert_eq!(classify_row(&other, 5), RowClass::Bad);
}

#[test]
fn tax_rate_column_is_optional_per_item() {
    let heading = "<tr><th>\u{901a}\u{8ca9}\u{30b3}\u{30fc}\u{30c9}</th><th>\u{5546}\u{54c1}\u{540d}</th><th>\u{6570}\u{91cf}</th><th>\u{5358}\u{4fa1}</th><th>\u{91d1}\u{984d}</th><th>\u{7a0e}\u{7387}</th></tr>\n";
    let items = "<tr><td>A</td><td>x</td><td>1</td><td>100</td><td>100</td><td>10%</td></tr>\n\
<tr><td>B</td><td>y</td><td>2</td><td>50</td><td>100</td><td>8\u{ff05}</td></tr>\n\
<tr><td>C</td><td>z</td><td>1</td><td>0</td><td>0</td><td></td></tr>\n";
    let html = format!(
        "{}<table>{}{}{}</table>",
        HEAD,
        heading,
        items,
        totals("200", "18", "218")
    );
    let inv = parsed(&html);
    let rates: Vec<Option<u64>> = inv.items.iter().map(|i| i.tax_rate).collect();
    assert_eq!(rates, vec![Some(10), Some(8), None]);
    let out = text(&render(&inv));
    assert!(out.contains("item\tA\tx\t1\t100\t100\t10\n"));
    assert!(out.contains("item\tC\tz\t1\t0\t0\t\n"));
    let bad = html.replace("<td>10%</td>", "<td>\u{a5}10</td>");
    assert!(matches!(
        parse_invoice(&bad),
        Err(ParseError::NormalizationError(Field::TaxRate, _))
    ));
    let short = html.replace("<td>8\u{ff05}</td>", "");
    assert!(matches!(
        parse_invoice(&short),
        Err(ParseError::StructuralError(StructuralFault::MalformedRow(_)))
    ));
}

#[test]
fn character_references_are_decoded() {
    let html = fixture()
        .replace("<td>\u{a5}2,750</td>", "<td>&yen;2,750</td>")
        .replace(
            "<th>\u{8ca9}\u{58f2}\u{5143}</th>",
            "<th>&nbsp;\u{8ca9}\u{58f2}\u{5143}&nbsp;</th>",
        )
        .replace("<td>E240315-012345</td>", "<td>E&amp;1 &lt;x&gt; &bogus;</td>");
    let inv = parsed(&html);
    assert_eq!(inv.subtotal, 2750);
    assert_eq!(text(&inv.number), "E&1 <x> &bogus;");
    assert_eq!(text(&inv.issuer), "\u{79cb}\u{6708}\u{96fb}\u{5b50}\u{901a}\u{5546}");
}
