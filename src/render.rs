//! The text form of an invoice: one tab-separated line per field.

use vstd::prelude::*;
use crate::date::Date;
use crate::invoice::{Invoice, InvoiceM, LineItem, LineItemM, items_view};

verus! {

pub open spec fn digit_char(n: nat) -> char {
    if n == 0 {
        '0'
    } else if n == 1 {
        '1'
    } else if n == 2 {
        '2'
    } else if n == 3 {
        '3'
    } else if n == 4 {
        '4'
    } else if n == 5 {
        '5'
    } else if n == 6 {
        '6'
    } else if n == 7 {
        '7'
    } else if n == 8 {
        '8'
    } else {
        '9'
    }
}

/// Decimal digits of `n`, without separators or leading zeros.
pub open spec fn dec(n: nat) -> Seq<char>
    decreases n,
{
    if n < 10 {
        seq![digit_char(n)]
    } else {
        dec(n / 10).push(digit_char(n % 10))
    }
}

/// A date as `YYYY-MM-DD`.
pub open spec fn date_text(d: Date) -> Seq<char> {
    let y = d.year as nat;
    let m = d.month as nat;
    let n = d.day as nat;
    seq![
        digit_char(y / 1000 % 10),
        digit_char(y / 100 % 10),
        digit_char(y / 10 % 10),
        digit_char(y % 10),
        '-',
        digit_char(m / 10 % 10),
        digit_char(m % 10),
        '-',
        digit_char(n / 10 % 10),
        digit_char(n % 10),
    ]
}

/// One line: a key, a tab, the value and a line feed.
pub open spec fn line(key: Seq<char>, val: Seq<char>) -> Seq<char> {
    key + seq!['\t'] + val + seq!['\n']
}

pub open spec fn item_line(it: LineItemM) -> Seq<char> {
    line(
        "item"@,
        it.code + seq!['\t'] + it.name + seq!['\t'] + dec(it.quantity) + seq!['\t'] + dec(
            it.unit_price,
        ) + seq!['\t'] + dec(it.amount) + seq!['\t'] + rate_text(it.tax_rate),
    )
}

/// A tax rate as digits; nothing where the item has none.
pub open spec fn rate_text(r: Option<nat>) -> Seq<char> {
    match r {
        Some(v) => dec(v),
        None => Seq::empty(),
    }
}

pub open spec fn items_text(items: Seq<LineItemM>) -> Seq<char>
    decreases items.len(),
{
    if items.len() == 0 {
        Seq::empty()
    } else {
        items_text(items.drop_last()) + item_line(items.last())
    }
}

/// The text form of an invoice: one tab-separated line per header field, per
/// item (in order, the tax rate last and empty where there is none) and per
/// total. Field texts are in normal form, so they
/// hold no tab or line feed, and numbers are plain decimal digits.
pub open spec fn render_of(inv: InvoiceM) -> Seq<char> {
    line("issuer"@, inv.issuer) + line("number"@, inv.number) + line(
        "issued"@,
        date_text(inv.issued),
    ) + match inv.due {
        Some(d) => line("due"@, date_text(d)),
        None => Seq::empty(),
    } + items_text(inv.items) + line("subtotal"@, dec(inv.subtotal)) + line("tax"@, dec(inv.tax))
        + line("total"@, dec(inv.total))
}

fn digit(n: u64) -> (r: char)
    requires
        n < 10,
    ensures
        r == digit_char(n as nat),
{
    if n == 0 {
        '0'
    } else if n == 1 {
        '1'
    } else if n == 2 {
        '2'
    } else if n == 3 {
        '3'
    } else if n == 4 {
        '4'
    } else if n == 5 {
        '5'
    } else if n == 6 {
        '6'
    } else if n == 7 {
        '7'
    } else if n == 8 {
        '8'
    } else {
        '9'
    }
}

fn push_dec(out: &mut Vec<char>, n: u64)
    ensures
        final(out)@ == old(out)@ + dec(n as nat),
    decreases n,
{
    if n >= 10 {
        push_dec(out, n / 10);
    }
    out.push(digit(n % 10));
    assert(final(out)@ =~= old(out)@ + dec(n as nat));
}

fn push_str(out: &mut Vec<char>, s: &str)
    ensures
        final(out)@ == old(out)@ + s@,
{
    let n = s.unicode_len();
    let mut i: usize = 0;
    while i < n
        invariant
            i <= n == s@.len(),
            out@ == old(out)@ + s@.take(i as int),
        decreases n - i,
    {
        out.push(s.get_char(i));
        i = i + 1;
        assert(out@ =~= old(out)@ + s@.take(i as int));
    }
    assert(s@.take(n as int) =~= s@);
}

fn push_chars(out: &mut Vec<char>, s: &[char])
    ensures
        final(out)@ == old(out)@ + s@,
{
    let mut i: usize = 0;
    while i < s.len()
        invariant
            i <= s@.len(),
            out@ == old(out)@ + s@.take(i as int),
        decreases s@.len() - i,
    {
        out.push(s[i]);
        i = i + 1;
        assert(out@ =~= old(out)@ + s@.take(i as int));
    }
    assert(s@.take(s@.len() as int) =~= s@);
}

fn push_date(out: &mut Vec<char>, d: Date)
    ensures
        final(out)@ == old(out)@ + date_text(d),
{
    let y = d.year as u64;
    let m = d.month as u64;
    let n = d.day as u64;
    out.push(digit(y / 1000 % 10));
    out.push(digit(y / 100 % 10));
    out.push(digit(y / 10 % 10));
    out.push(digit(y % 10));
    out.push('-');
    out.push(digit(m / 10 % 10));
    out.push(digit(m % 10));
    out.push('-');
    out.push(digit(n / 10 % 10));
    out.push(digit(n % 10));
    assert(final(out)@ =~= old(out)@ + date_text(d));
}

fn push_line_start(out: &mut Vec<char>, key: &str)
    ensures
        final(out)@ == old(out)@ + key@ + seq!['\t'],
{
    push_str(out, key);
    out.push('\t');
}

fn push_item(out: &mut Vec<char>, it: &LineItem)
    ensures
        final(out)@ == old(out)@ + item_line(it@),
{
    let ghost start = out@;
    push_line_start(out, "item");
    push_chars(out, it.code.as_slice());
    out.push('\t');
    push_chars(out, it.name.as_slice());
    out.push('\t');
    push_dec(out, it.quantity);
    out.push('\t');
    push_dec(out, it.unit_price);
    out.push('\t');
    push_dec(out, it.amount);
    out.push('\t');
    match it.tax_rate {
        Some(v) => push_dec(out, v),
        None => {},
    }
    out.push('\n');
    assert(out@ =~= start + item_line(it@));
}

/// Writes an invoice in its text form (see `render_of`).
pub fn render(inv: &Invoice) -> (r: Vec<char>)
    ensures
        r@ == render_of(inv@),
{
    let mut out: Vec<char> = Vec::new();
    push_line_start(&mut out, "issuer");
    push_chars(&mut out, inv.issuer.as_slice());
    out.push('\n');
    push_line_start(&mut out, "number");
    push_chars(&mut out, inv.number.as_slice());
    out.push('\n');
    push_line_start(&mut out, "issued");
    push_date(&mut out, inv.issued);
    out.push('\n');
    let ghost head = line("issuer"@, inv@.issuer) + line("number"@, inv@.number) + line(
        "issued"@,
        date_text(inv@.issued),
    );
    assert(out@ =~= head);
    match inv.due {
        Some(d) => {
            push_line_start(&mut out, "due");
            push_date(&mut out, d);
            out.push('\n');
        },
        None => {},
    }
    let ghost head2 = head + match inv@.due {
        Some(d) => line("due"@, date_text(d)),
        None => Seq::empty(),
    };
    assert(out@ =~= head2);
    let mut i: usize = 0;
    while i < inv.items.len()
        invariant
            i <= inv.items@.len(),
            out@ == head2 + items_text(items_view(inv.items@).take(i as int)),
        decreases inv.items@.len() - i,
    {
        let ghost before = out@;
        push_item(&mut out, &inv.items[i]);
        i = i + 1;
        let ghost t = items_view(inv.items@).take(i as int);
        assert(t.drop_last() =~= items_view(inv.items@).take(i - 1));
        assert(out@ =~= head2 + items_text(t));
    }
    assert(items_view(inv.items@).take(inv.items@.len() as int) =~= items_view(inv.items@));
    let ghost head3 = out@;
    push_line_start(&mut out, "subtotal");
    push_dec(&mut out, inv.subtotal);
    out.push('\n');
    push_line_start(&mut out, "tax");
    push_dec(&mut out, inv.tax);
    out.push('\n');
    push_line_start(&mut out, "total");
    push_dec(&mut out, inv.total);
    out.push('\n');
    assert(out@ =~= head3 + line("subtotal"@, dec(inv@.subtotal)) + line("tax"@, dec(inv@.tax))
        + line("total"@, dec(inv@.total)));
    out
}

} // verus!
