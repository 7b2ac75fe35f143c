//! The invoice model, label lookup, the item table and the parse itself.

use vstd::prelude::*;
use crate::text::{copy_chars, same_text};
use crate::markup::{Row, RowM, rows_view, cells_view, doc_rows, document_rows};
use crate::numeral::{Numeral, numeral_of, parse_numeral};
use crate::date::{Date, date_of, parse_date};
use crate::text::chars_of;

verus! {

/// The invoice fields that the parser reads, by label or by item column.
#[derive(Clone, Copy, Debug, PartialEq, Eq, Structural)]
pub enum Field {
    Issuer,
    Number,
    IssueDate,
    DueDate,
    ItemCount,
    Subtotal,
    Tax,
    Total,
    Code,
    Name,
    Quantity,
    UnitPrice,
    Amount,
    TaxRate,
}

/// The label that introduces a field in the document (for item columns, the
/// heading of the column).
pub open spec fn label_of(f: Field) -> Seq<char> {
    match f {
        Field::Issuer => "\u{8ca9}\u{58f2}\u{5143}"@,
        Field::Number => "\u{6ce8}\u{6587}\u{756a}\u{53f7}"@,
        Field::IssueDate => "\u{767a}\u{884c}\u{65e5}"@,
        Field::DueDate => "\u{652f}\u{6255}\u{671f}\u{9650}"@,
        Field::ItemCount => "\u{70b9}\u{6570}"@,
        Field::Subtotal => "\u{5c0f}\u{8a08}"@,
        Field::Tax => "\u{6d88}\u{8cbb}\u{7a0e}"@,
        Field::Total => "\u{5408}\u{8a08}"@,
        Field::Code => "\u{901a}\u{8ca9}\u{30b3}\u{30fc}\u{30c9}"@,
        Field::Name => "\u{5546}\u{54c1}\u{540d}"@,
        Field::Quantity => "\u{6570}\u{91cf}"@,
        Field::UnitPrice => "\u{5358}\u{4fa1}"@,
        Field::Amount => "\u{91d1}\u{984d}"@,
        Field::TaxRate => "\u{7a0e}\u{7387}"@,
    }
}

pub fn label_text(f: Field) -> (r: &'static str)
    ensures
        r@ == label_of(f),
{
    match f {
        Field::Issuer => "\u{8ca9}\u{58f2}\u{5143}",
        Field::Number => "\u{6ce8}\u{6587}\u{756a}\u{53f7}",
        Field::IssueDate => "\u{767a}\u{884c}\u{65e5}",
        Field::DueDate => "\u{652f}\u{6255}\u{671f}\u{9650}",
        Field::ItemCount => "\u{70b9}\u{6570}",
        Field::Subtotal => "\u{5c0f}\u{8a08}",
        Field::Tax => "\u{6d88}\u{8cbb}\u{7a0e}",
        Field::Total => "\u{5408}\u{8a08}",
        Field::Code => "\u{901a}\u{8ca9}\u{30b3}\u{30fc}\u{30c9}",
        Field::Name => "\u{5546}\u{54c1}\u{540d}",
        Field::Quantity => "\u{6570}\u{91cf}",
        Field::UnitPrice => "\u{5358}\u{4fa1}",
        Field::Amount => "\u{91d1}\u{984d}",
        Field::TaxRate => "\u{7a0e}\u{7387}",
    }
}

/// A cell text names label `l`, possibly followed by a half or full-width colon.
pub open spec fn is_label(c: Seq<char>, l: Seq<char>) -> bool {
    c == l || c == l.push(':') || c == l.push('\u{ff1a}')
}

/// The cell after the first cell at or after `j` that names label `l`.
pub open spec fn find_in_cells(cells: Seq<Seq<char>>, l: Seq<char>, j: int) -> Option<Seq<char>>
    decreases cells.len() - j,
{
    if j < 0 || j + 1 >= cells.len() {
        None
    } else if is_label(cells[j], l) {
        Some(cells[j + 1])
    } else {
        find_in_cells(cells, l, j + 1)
    }
}

pub open spec fn lookup_from(rows: Seq<RowM>, l: Seq<char>, i: int) -> Option<Seq<char>>
    decreases rows.len() - i,
{
    if i < 0 || i >= rows.len() {
        None
    } else {
        match find_in_cells(rows[i].cells, l, 0) {
            Some(v) => Some(v),
            None => lookup_from(rows, l, i + 1),
        }
    }
}

/// The value of label `l`: the cell right after the first cell, in document
/// order, whose text names the label.
pub open spec fn lookup(rows: Seq<RowM>, l: Seq<char>) -> Option<Seq<char>> {
    lookup_from(rows, l, 0)
}

pub fn is_label_cell(c: &[char], l: &str) -> (r: bool)
    ensures
        r == is_label(c@, l@),
{
    let n = l.unicode_len();
    if c.len() == n {
        return same_text(c, l);
    }
    if c.len() == 0 {
        return false;
    }
    if c.len() - 1 != n {
        assert(c@ != l@ && c@ != l@.push(':'));
        return false;
    }
    let last = c[n];
    if last != ':' && last != '\u{ff1a}' {
        assert(c@ != l@.push(':') && c@ != l@.push('\u{ff1a}') && c@.len() != l@.len());
        return false;
    }
    let mut i: usize = 0;
    while i < n
        invariant
            i <= n == l@.len(),
            c@.len() == n + 1,
            forall|k: int| 0 <= k < i ==> c@[k] == l@[k],
        decreases n - i,
    {
        if c[i] != l.get_char(i) {
            assert(c@[i as int] != l@.push(':')[i as int]);
            assert(c@[i as int] != l@.push('\u{ff1a}')[i as int]);
            return false;
        }
        i = i + 1;
    }
    assert(c@ =~= l@.push(last));
    true
}

/// Position of the value cell for label `l` in one row.
fn find_in_row(cells: &Vec<Vec<char>>, l: &str) -> (r: Option<usize>)
    ensures
        match r {
            Some(j) => j + 1 < cells@.len() && find_in_cells(cells_view(cells@), l@, 0) == Some(
                cells@[j + 1]@,
            ),
            None => find_in_cells(cells_view(cells@), l@, 0) is None,
        },
{
    let ghost cv = cells_view(cells@);
    let mut j: usize = 0;
    while j < cells.len() && j + 1 < cells.len()
        invariant
            cv == cells_view(cells@),
            j <= cells@.len(),
            find_in_cells(cv, l@, 0) == find_in_cells(cv, l@, j as int),
        decreases cells@.len() - j,
    {
        if is_label_cell(cells[j].as_slice(), l) {
            return Some(j);
        }
        j = j + 1;
    }
    None
}

/// The value of label `l` in the rows, copied out.
pub fn lookup_label(rows: &[Row], l: &str) -> (r: Option<Vec<char>>)
    ensures
        match r {
            Some(v) => lookup(rows_view(rows@), l@) == Some(v@),
            None => lookup(rows_view(rows@), l@) is None,
        },
{
    let ghost rv = rows_view(rows@);
    let mut i: usize = 0;
    while i < rows.len()
        invariant
            rv == rows_view(rows@),
            i <= rows@.len(),
            lookup(rv, l@) == lookup_from(rv, l@, i as int),
        decreases rows@.len() - i,
    {
        assert(rv[i as int].cells == cells_view(rows@[i as int].cells@));
        let cells = &rows[i].cells;
        match find_in_row(cells, l) {
            Some(j) => {
                let n = cells.len();
                assert(j + 1 < n);
                let k = j + 1;
                return Some(copy_chars(cells[k].as_slice()));
            },
            None => {},
        }
        i = i + 1;
    }
    None
}

/// Why a document is not recognised as an invoice.
#[derive(Clone, Copy, Debug, PartialEq, Eq, Structural)]
pub enum StructuralFault {
    /// No row has the item table's column headings.
    MissingItemTable,
    /// A row of the item table is neither an item, a summary row nor blank;
    /// the index is the row's position among all rows of the document.
    MalformedRow(usize),
}

/// A cross-field rule that a document breaks.
#[derive(Clone, Copy, Debug, PartialEq, Eq, Structural)]
pub enum ValidationFault {
    /// The stated item count differs from the number of item rows.
    ItemCountMismatch { stated: u64, counted: usize },
    /// No item rows, while the stated grand total is not zero.
    NoItems,
}

#[derive(Clone, Debug)]
pub enum ParseError {
    StructuralError(StructuralFault),
    FieldExtractionError(Field),
    NormalizationError(Field, Vec<char>),
    ValidationError(ValidationFault),
}

pub enum ErrM {
    StructuralError(StructuralFault),
    FieldExtractionError(Field),
    NormalizationError(Field, Seq<char>),
    ValidationError(ValidationFault),
}

impl View for ParseError {
    type V = ErrM;

    open spec fn view(&self) -> ErrM {
        match self {
            ParseError::StructuralError(x) => ErrM::StructuralError(*x),
            ParseError::FieldExtractionError(f) => ErrM::FieldExtractionError(*f),
            ParseError::NormalizationError(f, raw) => ErrM::NormalizationError(*f, raw@),
            ParseError::ValidationError(v) => ErrM::ValidationError(*v),
        }
    }
}

/// One purchased product. Prices are whole yen.
#[derive(Clone, Debug)]
pub struct LineItem {
    pub code: Vec<char>,
    pub name: Vec<char>,
    pub quantity: u64,
    pub unit_price: u64,
    pub amount: u64,
    /// Tax rate in percent, where the item table has a tax rate column and
    /// the item's cell there is not empty.
    pub tax_rate: Option<u64>,
}

pub struct LineItemM {
    pub code: Seq<char>,
    pub name: Seq<char>,
    pub quantity: nat,
    pub unit_price: nat,
    pub amount: nat,
    pub tax_rate: Option<nat>,
}

impl View for LineItem {
    type V = LineItemM;

    open spec fn view(&self) -> LineItemM {
        LineItemM {
            code: self.code@,
            name: self.name@,
            quantity: self.quantity as nat,
            unit_price: self.unit_price as nat,
            amount: self.amount as nat,
            tax_rate: match self.tax_rate {
                Some(t) => Some(t as nat),
                None => None,
            },
        }
    }
}

pub open spec fn items_view(v: Seq<LineItem>) -> Seq<LineItemM> {
    v.map_values(|x: LineItem| x@)
}

/// An invoice as the document states it: header, items in document order and
/// the stated totals (not recomputed). Amounts are whole yen.
#[derive(Clone, Debug)]
pub struct Invoice {
    pub issuer: Vec<char>,
    pub number: Vec<char>,
    pub issued: Date,
    pub due: Option<Date>,
    pub items: Vec<LineItem>,
    pub subtotal: u64,
    pub tax: u64,
    pub total: u64,
}

pub struct InvoiceM {
    pub issuer: Seq<char>,
    pub number: Seq<char>,
    pub issued: Date,
    pub due: Option<Date>,
    pub items: Seq<LineItemM>,
    pub subtotal: nat,
    pub tax: nat,
    pub total: nat,
}

impl View for Invoice {
    type V = InvoiceM;

    open spec fn view(&self) -> InvoiceM {
        InvoiceM {
            issuer: self.issuer@,
            number: self.number@,
            issued: self.issued,
            due: self.due,
            items: items_view(self.items@),
            subtotal: self.subtotal as nat,
            tax: self.tax as nat,
            total: self.total as nat,
        }
    }
}

pub open spec fn result_view(r: Result<Invoice, ParseError>) -> Result<InvoiceM, ErrM> {
    match r {
        Ok(i) => Ok(i@),
        Err(e) => Err(e@),
    }
}

/// A non-negative count or amount read from a cell; a currency mark is
/// accepted only where `money` holds.
pub open spec fn number_field(f: Field, raw: Seq<char>, money: bool) -> Result<nat, ErrM> {
    match numeral_of(raw) {
        Some(p) => if money || p.1 is None {
            Ok(p.0)
        } else {
            Err(ErrM::NormalizationError(f, raw))
        },
        None => Err(ErrM::NormalizationError(f, raw)),
    }
}

pub open spec fn date_field(f: Field, raw: Seq<char>) -> Result<Date, ErrM> {
    match date_of(raw) {
        Some(t) => Ok(Date { year: t.0 as u16, month: t.1 as u8, day: t.2 as u8 }),
        None => Err(ErrM::NormalizationError(f, raw)),
    }
}

pub open spec fn is_percent(c: char) -> bool {
    c == '%' || c == '\u{ff05}'
}

/// The tax rate cell of an item: empty for no rate, else a plain number
/// with an optional percent sign.
pub open spec fn rate_field(raw: Seq<char>) -> Result<Option<nat>, ErrM> {
    if raw.len() == 0 {
        Ok(None)
    } else {
        let b = if is_percent(raw.last()) {
            raw.drop_last()
        } else {
            raw
        };
        match numeral_of(b) {
            Some(p) => if p.1 is None {
                Ok(Some(p.0))
            } else {
                Err(ErrM::NormalizationError(Field::TaxRate, raw))
            },
            None => Err(ErrM::NormalizationError(Field::TaxRate, raw)),
        }
    }
}

/// The tax rate of a data row: its sixth cell, where the table has one.
pub open spec fn row_rate(c: Seq<Seq<char>>) -> Result<Option<nat>, ErrM> {
    if c.len() > 5 {
        rate_field(c[5])
    } else {
        Ok(None)
    }
}

/// The line item of a data row (cells: code, name, quantity, unit price,
/// amount, and in a table with that column, tax rate).
pub open spec fn item_of(c: Seq<Seq<char>>) -> Result<LineItemM, ErrM> {
    match number_field(Field::Quantity, c[2], false) {
        Err(e) => Err(e),
        Ok(q) => match number_field(Field::UnitPrice, c[3], true) {
            Err(e) => Err(e),
            Ok(u) => match number_field(Field::Amount, c[4], true) {
                Err(e) => Err(e),
                Ok(a) => match row_rate(c) {
                    Err(e) => Err(e),
                    Ok(r) => Ok(
                        LineItemM {
                            code: c[0],
                            name: c[1],
                            quantity: q,
                            unit_price: u,
                            amount: a,
                            tax_rate: r,
                        },
                    ),
                },
            },
        },
    }
}

pub open spec fn is_summary(c: Seq<char>) -> bool {
    is_label(c, label_of(Field::Subtotal)) || is_label(c, label_of(Field::Tax)) || is_label(
        c,
        label_of(Field::Total),
    ) || is_label(c, label_of(Field::ItemCount))
}

#[derive(Clone, Copy, Debug, PartialEq, Eq, Structural)]
pub enum RowClass {
    /// A blank row or a summary row (subtotal, tax, total, item count).
    Skip,
    /// A row with one cell per column of the table: one line item.
    Data,
    /// Any other row shape.
    Bad,
}

/// How a row of an item table with `w` columns is treated: blank and
/// summary rows are skipped, rows of `w` cells are items, and any other shape
/// is an error.
pub open spec fn row_class(c: Seq<Seq<char>>, w: nat) -> RowClass {
    if forall|j: int| 0 <= j < c.len() ==> (#[trigger] c[j]).len() == 0 {
        RowClass::Skip
    } else if exists|j: int| 0 <= j < c.len() && is_summary(#[trigger] c[j]) {
        RowClass::Skip
    } else if c.len() == w {
        RowClass::Data
    } else {
        RowClass::Bad
    }
}

/// The column headings that mark the item table; a sixth, tax rate column
/// may follow them.
pub open spec fn header_cells() -> Seq<Seq<char>> {
    seq![
        label_of(Field::Code),
        label_of(Field::Name),
        label_of(Field::Quantity),
        label_of(Field::UnitPrice),
        label_of(Field::Amount),
    ]
}

pub open spec fn is_heading(c: Seq<Seq<char>>) -> bool {
    c == header_cells() || c == header_cells().push(label_of(Field::TaxRate))
}

pub open spec fn anchor_from(rows: Seq<RowM>, i: int) -> Option<int>
    decreases rows.len() - i,
{
    if i < 0 || i >= rows.len() {
        None
    } else if is_heading(rows[i].cells) {
        Some(i)
    } else {
        anchor_from(rows, i + 1)
    }
}

/// The index of the item table's heading row: the first row whose cells
/// are the column headings.
pub open spec fn anchor(rows: Seq<RowM>) -> Option<int> {
    anchor_from(rows, 0)
}

/// The items of the rows from `i` on that belong to table `t` of `w`
/// columns, in order; the first row that fails decides the error.
pub open spec fn items_from(rows: Seq<RowM>, t: nat, w: nat, i: int) -> Result<Seq<LineItemM>, ErrM>
    decreases rows.len() - i,
{
    if i < 0 || i >= rows.len() {
        Ok(Seq::empty())
    } else if rows[i].table != t {
        items_from(rows, t, w, i + 1)
    } else {
        match row_class(rows[i].cells, w) {
            RowClass::Skip => items_from(rows, t, w, i + 1),
            RowClass::Bad => Err(ErrM::StructuralError(StructuralFault::MalformedRow(i as usize))),
            RowClass::Data => match item_of(rows[i].cells) {
                Err(e) => Err(e),
                Ok(it) => match items_from(rows, t, w, i + 1) {
                    Err(e) => Err(e),
                    Ok(rest) => Ok(seq![it] + rest),
                },
            },
        }
    }
}

pub open spec fn required(rows: Seq<RowM>, f: Field) -> Result<Seq<char>, ErrM> {
    match lookup(rows, label_of(f)) {
        Some(v) => Ok(v),
        None => Err(ErrM::FieldExtractionError(f)),
    }
}

pub open spec fn stated(rows: Seq<RowM>, f: Field) -> Result<nat, ErrM> {
    match required(rows, f) {
        Ok(raw) => number_field(f, raw, true),
        Err(e) => Err(e),
    }
}

pub open spec fn due_of(rows: Seq<RowM>) -> Result<Option<Date>, ErrM> {
    match lookup(rows, label_of(Field::DueDate)) {
        None => Ok(None),
        Some(raw) => match date_field(Field::DueDate, raw) {
            Ok(d) => Ok(Some(d)),
            Err(e) => Err(e),
        },
    }
}

/// The stated item count, where the document has one, against the counted items.
pub open spec fn count_check(rows: Seq<RowM>, n: nat) -> Result<(), ErrM> {
    match lookup(rows, label_of(Field::ItemCount)) {
        None => Ok(()),
        Some(raw) => match number_field(Field::ItemCount, raw, false) {
            Err(e) => Err(e),
            Ok(k) => if k == n {
                Ok(())
            } else {
                Err(
                    ErrM::ValidationError(
                        ValidationFault::ItemCountMismatch { stated: k as u64, counted: n as usize },
                    ),
                )
            },
        },
    }
}

/// The invoice that a document's rows state, or the first failure, checked
/// in this order: item table, item rows, issuer, number, issue date, due
/// date, subtotal, tax, total, item count, and last the empty-invoice rule.
pub open spec fn invoice_of(rows: Seq<RowM>) -> Result<InvoiceM, ErrM> {
    match anchor(rows) {
        None => Err(ErrM::StructuralError(StructuralFault::MissingItemTable)),
        Some(k) => match items_from(rows, rows[k].table, rows[k].cells.len(), k + 1) {
            Err(e) => Err(e),
            Ok(items) => match required(rows, Field::Issuer) {
                Err(e) => Err(e),
                Ok(issuer) => match required(rows, Field::Number) {
                    Err(e) => Err(e),
                    Ok(number) => match required(rows, Field::IssueDate) {
                        Err(e) => Err(e),
                        Ok(raw) => match date_field(Field::IssueDate, raw) {
                            Err(e) => Err(e),
                            Ok(issued) => match due_of(rows) {
                                Err(e) => Err(e),
                                Ok(due) => match stated(rows, Field::Subtotal) {
                                    Err(e) => Err(e),
                                    Ok(subtotal) => match stated(rows, Field::Tax) {
                                        Err(e) => Err(e),
                                        Ok(tax) => match stated(rows, Field::Total) {
                                            Err(e) => Err(e),
                                            Ok(total) => match count_check(rows, items.len()) {
                                                Err(e) => Err(e),
                                                Ok(_) => if items.len() == 0 && total != 0 {
                                                    Err(ErrM::ValidationError(ValidationFault::NoItems))
                                                } else {
                                                    Ok(
                                                        InvoiceM {
                                                            issuer,
                                                            number,
                                                            issued,
                                                            due,
                                                            items,
                                                            subtotal,
                                                            tax,
                                                            total,
                                                        },
                                                    )
                                                },
                                            },
                                        },
                                    },
                                },
                            },
                        },
                    },
                },
            },
        },
    }
}

/// The invoice a document states.
pub open spec fn parse_spec(html: Seq<char>) -> Result<InvoiceM, ErrM> {
    invoice_of(doc_rows(html))
}

fn read_number(f: Field, raw: Vec<char>, money: bool) -> (r: Result<u64, ParseError>)
    ensures
        match r {
            Ok(v) => number_field(f, raw@, money) == Ok::<nat, ErrM>(v as nat),
            Err(e) => number_field(f, raw@, money) == Err::<nat, ErrM>(e@),
        },
{
    match parse_numeral(raw.as_slice()) {
        Some(n) => {
            if money || n.symbol.is_none() {
                Ok(n.value)
            } else {
                Err(ParseError::NormalizationError(f, raw))
            }
        },
        None => Err(ParseError::NormalizationError(f, raw)),
    }
}

fn read_date(f: Field, raw: Vec<char>) -> (r: Result<Date, ParseError>)
    ensures
        match r {
            Ok(d) => date_field(f, raw@) == Ok::<Date, ErrM>(d) && d.wf(),
            Err(e) => date_field(f, raw@) == Err::<Date, ErrM>(e@),
        },
{
    match parse_date(raw.as_slice()) {
        Some(d) => Ok(d),
        None => Err(ParseError::NormalizationError(f, raw)),
    }
}

fn is_summary_cell(c: &[char]) -> (r: bool)
    ensures
        r == is_summary(c@),
{
    is_label_cell(c, label_text(Field::Subtotal)) || is_label_cell(c, label_text(Field::Tax))
        || is_label_cell(c, label_text(Field::Total)) || is_label_cell(
        c,
        label_text(Field::ItemCount),
    )
}

fn read_rate(raw: Vec<char>) -> (r: Result<Option<u64>, ParseError>)
    ensures
        match r {
            Ok(t) => rate_field(raw@) == Ok::<Option<nat>, ErrM>(
                match t {
                    Some(v) => Some(v as nat),
                    None => None,
                },
            ),
            Err(e) => rate_field(raw@) == Err::<Option<nat>, ErrM>(e@),
        },
{
    let n = raw.len();
    if n == 0 {
        return Ok(None);
    }
    let end = if raw[n - 1] == '%' || raw[n - 1] == '\u{ff05}' {
        n - 1
    } else {
        n
    };
    let mut b: Vec<char> = Vec::new();
    let mut i: usize = 0;
    while i < end
        invariant
            i <= end <= n == raw@.len(),
            b@ == raw@.take(i as int),
        decreases end - i,
    {
        b.push(raw[i]);
        i = i + 1;
        assert(b@ =~= raw@.take(i as int));
    }
    assert(b@ =~= if is_percent(raw@.last()) {
        raw@.drop_last()
    } else {
        raw@
    });
    match parse_numeral(b.as_slice()) {
        Some(v) => {
            if v.symbol.is_none() {
                Ok(Some(v.value))
            } else {
                Err(ParseError::NormalizationError(Field::TaxRate, raw))
            }
        },
        None => Err(ParseError::NormalizationError(Field::TaxRate, raw)),
    }
}

/// Classifies a row of an item table with `width` columns (see `row_class`).
pub fn classify_row(cells: &Vec<Vec<char>>, width: usize) -> (r: RowClass)
    ensures
        r == row_class(cells_view(cells@), width as nat),
{
    let ghost cv = cells_view(cells@);
    let mut blank = true;
    let mut summary = false;
    let mut j: usize = 0;
    while j < cells.len()
        invariant
            cv == cells_view(cells@),
            j <= cells@.len(),
            blank == forall|k: int| 0 <= k < j ==> (#[trigger] cv[k]).len() == 0,
            summary == exists|k: int| 0 <= k < j && is_summary(#[trigger] cv[k]),
        decreases cells@.len() - j,
    {
        assert(cv[j as int] == cells@[j as int]@);
        if cells[j].len() != 0 {
            blank = false;
        }
        if is_summary_cell(cells[j].as_slice()) {
            summary = true;
        }
        j = j + 1;
    }
    if blank {
        RowClass::Skip
    } else if summary {
        RowClass::Skip
    } else if cells.len() == width {
        RowClass::Data
    } else {
        RowClass::Bad
    }
}

fn is_header_row(cells: &Vec<Vec<char>>) -> (r: bool)
    ensures
        r == is_heading(cells_view(cells@)),
{
    let ghost cv = cells_view(cells@);
    let ghost taxed = header_cells().push(label_of(Field::TaxRate));
    assert(header_cells().len() == 5);
    assert(forall|q: int| 0 <= q < 5 ==> taxed[q] == header_cells()[q]);
    let n = cells.len();
    if n != 5 && n != 6 {
        assert(cv.len() != header_cells().len() && cv.len() != taxed.len());
        return false;
    }
    if n == 6 {
        assert(cv[5] == cells@[5]@);
        if !same_text(cells[5].as_slice(), label_text(Field::TaxRate)) {
            assert(cv != taxed);
            return false;
        }
    }
    let fields = [Field::Code, Field::Name, Field::Quantity, Field::UnitPrice, Field::Amount];
    let mut j: usize = 0;
    while j < 5
        invariant
            cv == cells_view(cells@),
            n == cells@.len(),
            n == 6 ==> cv[5] == label_of(Field::TaxRate),
            taxed == header_cells().push(label_of(Field::TaxRate)),
            header_cells().len() == 5,
            n == 5 || n == 6,
            j <= 5,
            fields@ == seq![Field::Code, Field::Name, Field::Quantity, Field::UnitPrice, Field::Amount],
            forall|k: int| 0 <= k < j ==> cv[k] == header_cells()[k],
        decreases 5 - j,
    {
        assert(header_cells()[j as int] == label_of(fields@[j as int]));
        if !same_text(cells[j].as_slice(), label_text(fields[j])) {
            assert(cv[j as int] != header_cells()[j as int]);
            assert(cv[j as int] != taxed[j as int]);
            return false;
        }
        j = j + 1;
    }
    if n == 5 {
        assert(cv =~= header_cells());
    } else {
        assert(cv =~= taxed);
    }
    true
}

/// Reads the line item of a data row of five or six cells.
pub fn read_item(cells: &Vec<Vec<char>>) -> (r: Result<LineItem, ParseError>)
    requires
        cells@.len() == 5 || cells@.len() == 6,
    ensures
        match r {
            Ok(it) => item_of(cells_view(cells@)) == Ok::<LineItemM, ErrM>(it@),
            Err(e) => item_of(cells_view(cells@)) == Err::<LineItemM, ErrM>(e@),
        },
{
    let ghost cv = cells_view(cells@);
    assert(cv[2] == cells@[2]@ && cv[3] == cells@[3]@ && cv[4] == cells@[4]@);
    assert(cv[0] == cells@[0]@ && cv[1] == cells@[1]@);
    let quantity = match read_number(Field::Quantity, copy_chars(cells[2].as_slice()), false) {
        Ok(v) => v,
        Err(e) => return Err(e),
    };
    let unit_price = match read_number(Field::UnitPrice, copy_chars(cells[3].as_slice()), true) {
        Ok(v) => v,
        Err(e) => return Err(e),
    };
    let amount = match read_number(Field::Amount, copy_chars(cells[4].as_slice()), true) {
        Ok(v) => v,
        Err(e) => return Err(e),
    };
    let tax_rate = if cells.len() > 5 {
        assert(cv[5] == cells@[5]@);
        match read_rate(copy_chars(cells[5].as_slice())) {
            Ok(t) => t,
            Err(e) => return Err(e),
        }
    } else {
        None
    };
    Ok(
        LineItem {
            code: copy_chars(cells[0].as_slice()),
            name: copy_chars(cells[1].as_slice()),
            quantity,
            unit_price,
            amount,
            tax_rate,
        },
    )
}

/// Index of the item table's heading row.
pub fn find_anchor(rows: &[Row]) -> (r: Option<usize>)
    ensures
        match r {
            Some(k) => anchor(rows_view(rows@)) == Some(k as int) && k < rows@.len() && (
            rows@[k as int].cells@.len() == 5 || rows@[k as int].cells@.len() == 6),
            None => anchor(rows_view(rows@)) is None,
        },
{
    let ghost rv = rows_view(rows@);
    let mut i: usize = 0;
    while i < rows.len()
        invariant
            rv == rows_view(rows@),
            i <= rows@.len(),
            anchor(rv) == anchor_from(rv, i as int),
        decreases rows@.len() - i,
    {
        assert(rv[i as int].cells == cells_view(rows@[i as int].cells@));
        if is_header_row(&rows[i].cells) {
            assert(cells_view(rows@[i as int].cells@).len() == rows@[i as int].cells@.len());
            return Some(i);
        }
        i = i + 1;
    }
    None
}

/// The line items of table `t`, of `w` columns, from row `start` on, in
/// document order.
pub fn collect_items(rows: &[Row], t: usize, w: usize, start: usize) -> (r: Result<
    Vec<LineItem>,
    ParseError,
>)
    requires
        start <= rows@.len(),
        w == 5 || w == 6,
    ensures
        match r {
            Ok(v) => items_from(rows_view(rows@), t as nat, w as nat, start as int) == Ok::<
                Seq<LineItemM>,
                ErrM,
            >(items_view(v@)),
            Err(e) => items_from(rows_view(rows@), t as nat, w as nat, start as int) == Err::<
                Seq<LineItemM>,
                ErrM,
            >(e@),
        },
{
    let ghost rv = rows_view(rows@);
    let mut out: Vec<LineItem> = Vec::new();
    let mut i = start;
    while i < rows.len()
        invariant
            rv == rows_view(rows@),
            start <= i <= rows@.len(),
            w == 5 || w == 6,
            items_from(rv, t as nat, w as nat, start as int) == match items_from(rv, t as nat, w as nat, i as int) {
                Ok(rest) => Ok(items_view(out@) + rest),
                Err(e) => Err::<Seq<LineItemM>, ErrM>(e),
            },
        decreases rows@.len() - i,
    {
        assert(rv[i as int].cells == cells_view(rows@[i as int].cells@));
        assert(rv[i as int].table == rows@[i as int].table as nat);
        if rows[i].table == t {
            match classify_row(&rows[i].cells, w) {
                RowClass::Skip => {},
                RowClass::Bad => {
                    return Err(ParseError::StructuralError(StructuralFault::MalformedRow(i)));
                },
                RowClass::Data => {
                    assert(cells_view(rows@[i as int].cells@).len() == rows@[i as int].cells@.len());
                    assert(rows@[i as int].cells@.len() == w);
                    match read_item(&rows[i].cells) {
                        Ok(it) => {
                            let ghost before = out@;
                            out.push(it);
                            assert(items_view(out@) =~= items_view(before) + seq![it@]);
                            proof {
                                match items_from(rv, t as nat, w as nat, i + 1) {
                                    Ok(rest) => {
                                        assert(items_view(out@) + rest =~= items_view(before) + (
                                        seq![it@] + rest));
                                    },
                                    Err(e) => {},
                                }
                            }
                        },
                        Err(e) => return Err(e),
                    }
                },
            }
        }
        i = i + 1;
    }
    assert(items_view(out@) + Seq::<LineItemM>::empty() =~= items_view(out@));
    Ok(out)
}

fn read_required(rows: &[Row], f: Field) -> (r: Result<Vec<char>, ParseError>)
    ensures
        match r {
            Ok(v) => required(rows_view(rows@), f) == Ok::<Seq<char>, ErrM>(v@),
            Err(e) => required(rows_view(rows@), f) == Err::<Seq<char>, ErrM>(e@),
        },
{
    match lookup_label(rows, label_text(f)) {
        Some(v) => Ok(v),
        None => Err(ParseError::FieldExtractionError(f)),
    }
}

fn read_stated(rows: &[Row], f: Field) -> (r: Result<u64, ParseError>)
    ensures
        match r {
            Ok(v) => stated(rows_view(rows@), f) == Ok::<nat, ErrM>(v as nat),
            Err(e) => stated(rows_view(rows@), f) == Err::<nat, ErrM>(e@),
        },
{
    match read_required(rows, f) {
        Ok(raw) => read_number(f, raw, true),
        Err(e) => Err(e),
    }
}

fn read_due(rows: &[Row]) -> (r: Result<Option<Date>, ParseError>)
    ensures
        match r {
            Ok(d) => due_of(rows_view(rows@)) == Ok::<Option<Date>, ErrM>(d),
            Err(e) => due_of(rows_view(rows@)) == Err::<Option<Date>, ErrM>(e@),
        },
{
    match lookup_label(rows, label_text(Field::DueDate)) {
        None => Ok(None),
        Some(raw) => match read_date(Field::DueDate, raw) {
            Ok(d) => Ok(Some(d)),
            Err(e) => Err(e),
        },
    }
}

fn check_count(rows: &[Row], n: usize) -> (r: Result<(), ParseError>)
    ensures
        match r {
            Ok(_) => count_check(rows_view(rows@), n as nat) == Ok::<(), ErrM>(()),
            Err(e) => count_check(rows_view(rows@), n as nat) == Err::<(), ErrM>(e@),
        },
{
    match lookup_label(rows, label_text(Field::ItemCount)) {
        None => Ok(()),
        Some(raw) => match read_number(Field::ItemCount, raw, false) {
            Err(e) => Err(e),
            Ok(k) => if k as u128 == n as u128 {
                Ok(())
            } else {
                Err(
                    ParseError::ValidationError(
                        ValidationFault::ItemCountMismatch { stated: k, counted: n },
                    ),
                )
            },
        },
    }
}

/// Extracts the invoice from a document's table rows (see `invoice_of`).
pub fn parse_rows(rows: &[Row]) -> (r: Result<Invoice, ParseError>)
    ensures
        result_view(r) == invoice_of(rows_view(rows@)),
{
    let ghost rv = rows_view(rows@);
    let k = match find_anchor(rows) {
        Some(k) => k,
        None => return Err(ParseError::StructuralError(StructuralFault::MissingItemTable)),
    };
    assert(rv[k as int].table == rows@[k as int].table as nat);
    assert(rv[k as int].cells.len() == rows@[k as int].cells@.len());
    let items = match collect_items(rows, rows[k].table, rows[k].cells.len(), k + 1) {
        Ok(v) => v,
        Err(e) => return Err(e),
    };
    let issuer = match read_required(rows, Field::Issuer) {
        Ok(v) => v,
        Err(e) => return Err(e),
    };
    let number = match read_required(rows, Field::Number) {
        Ok(v) => v,
        Err(e) => return Err(e),
    };
    let raw = match read_required(rows, Field::IssueDate) {
        Ok(v) => v,
        Err(e) => return Err(e),
    };
    let issued = match read_date(Field::IssueDate, raw) {
        Ok(d) => d,
        Err(e) => return Err(e),
    };
    let due = match read_due(rows) {
        Ok(d) => d,
        Err(e) => return Err(e),
    };
    let subtotal = match read_stated(rows, Field::Subtotal) {
        Ok(v) => v,
        Err(e) => return Err(e),
    };
    let tax = match read_stated(rows, Field::Tax) {
        Ok(v) => v,
        Err(e) => return Err(e),
    };
    let total = match read_stated(rows, Field::Total) {
        Ok(v) => v,
        Err(e) => return Err(e),
    };
    assert(items_view(items@).len() == items@.len());
    match check_count(rows, items.len()) {
        Ok(_) => {},
        Err(e) => return Err(e),
    }
    if items.len() == 0 && total != 0 {
        return Err(ParseError::ValidationError(ValidationFault::NoItems));
    }
    let inv = Invoice { issuer, number, issued, due, items, subtotal, tax, total };
    assert(inv@ == InvoiceM {
        issuer: issuer@,
        number: number@,
        issued,
        due,
        items: items_view(items@),
        subtotal: subtotal as nat,
        tax: tax as nat,
        total: total as nat,
    });
    Ok(inv)
}

/// Extracts the invoice that an HTML document states. The document may be
/// loosely formed; the result is the whole invoice or the first failure.
pub fn parse_invoice(html: &str) -> (r: Result<Invoice, ParseError>)
    ensures
        result_view(r) == parse_spec(html@),
{
    let chars = chars_of(html);
    let rows = document_rows(chars.as_slice());
    parse_rows(rows.as_slice())
}

} // verus!
