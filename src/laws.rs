//! Properties of the parser that hold of every document.

use vstd::prelude::*;
use crate::text::{is_ws, norm, squash, lemma_squash_concat, lemma_run_equiv, lemma_run_blank};
use crate::invoice::{
    is_label, parse_spec, items_from, anchor, anchor_from, is_heading, row_class,
    item_of, RowClass, ErrM, LineItemM, StructuralFault, InvoiceM,
};
use crate::markup::{RowM, doc_rows};
use crate::numeral::{numeral_of, digits_value, is_digit, digit_val, well_grouped, symbol_of, body_of};
use crate::date::{Date, date_of, digit_run_end, second_sep, valid_date};
use crate::render::{dec, digit_char, date_text};

verus! {

/// White space around a text, full-width spaces included, does not change
/// its normal form.
pub proof fn lemma_padding_ignored(w1: Seq<char>, s: Seq<char>, w2: Seq<char>)
    requires
        forall|i: int| 0 <= i < w1.len() ==> is_ws(#[trigger] w1[i]),
        forall|i: int| 0 <= i < w2.len() ==> is_ws(#[trigger] w2[i]),
    ensures
        norm(w1 + s + w2) == norm(s),
{
    lemma_squash_concat(w1 + s, w2);
    lemma_run_blank(squash(w1 + s), w2);
    lemma_squash_concat(w1, s);
    lemma_squash_concat(Seq::empty(), w1);
    assert(Seq::<char>::empty() + w1 =~= w1);
    lemma_run_blank(squash(Seq::empty()), w1);
    lemma_run_equiv(squash(w1), squash(Seq::empty()), s);
    lemma_squash_concat(Seq::empty(), s);
    assert(Seq::<char>::empty() + s =~= s);
}

/// A label cell padded with any white space still names its label.
pub proof fn lemma_padded_label(w1: Seq<char>, l: Seq<char>, w2: Seq<char>)
    requires
        norm(l) == l,
        forall|i: int| 0 <= i < w1.len() ==> is_ws(#[trigger] w1[i]),
        forall|i: int| 0 <= i < w2.len() ==> is_ws(#[trigger] w2[i]),
    ensures
        is_label(norm(w1 + l + w2), l),
{
    lemma_padding_ignored(w1, l, w2);
}

/// Parsing depends on the text alone: the same text gives the same invoice
/// or the same error on every call.
pub proof fn lemma_parse_deterministic(a: Seq<char>, b: Seq<char>)
    requires
        a == b,
    ensures
        parse_spec(a) == parse_spec(b),
{
}

proof fn lemma_anchor_in_range(rows: Seq<RowM>, i: int)
    requires
        0 <= i,
        anchor_from(rows, i) is Some,
    ensures
        i <= anchor_from(rows, i)->Some_0 < rows.len(),
        is_heading(rows[anchor_from(rows, i)->Some_0].cells),
    decreases rows.len() - i,
{
    if i < rows.len() && !is_heading(rows[i].cells) {
        lemma_anchor_in_range(rows, i + 1);
    }
}

/// The rows that the items of `items_from(rows, t, w, i)` come from: one data
/// row of table `t` per item, in increasing order, and every such row.
pub proof fn lemma_item_rows(rows: Seq<RowM>, t: nat, w: nat, i: int) -> (idx: Seq<int>)
    requires
        0 <= i,
        items_from(rows, t, w, i) is Ok,
    ensures
        idx.len() == items_from(rows, t, w, i)->Ok_0.len(),
        forall|p: int|
            0 <= p < idx.len() ==> i <= #[trigger] idx[p] < rows.len() && rows[idx[p]].table == t
                && row_class(rows[idx[p]].cells, w) == RowClass::Data && item_of(rows[idx[p]].cells)
                == Ok::<LineItemM, ErrM>(items_from(rows, t, w, i)->Ok_0[p]),
        forall|p: int, q: int| 0 <= p < q < idx.len() ==> idx[p] < idx[q],
        forall|r: int|
            i <= r < rows.len() && rows[r].table == t && row_class(rows[r].cells, w) == RowClass::Data
                ==> exists|p: int| 0 <= p < idx.len() && idx[p] == r,
    decreases rows.len() - i,
{
    if i >= rows.len() {
        Seq::empty()
    } else if rows[i].table != t || row_class(rows[i].cells, w) == RowClass::Skip {
        let idx = lemma_item_rows(rows, t, w, i + 1);
        assert forall|r: int|
            i <= r < rows.len() && rows[r].table == t && row_class(rows[r].cells, w)
                == RowClass::Data implies exists|p: int| 0 <= p < idx.len() && idx[p] == r by {
            if r > i {
            }
        }
        idx
    } else {
        let rest = lemma_item_rows(rows, t, w, i + 1);
        let idx = seq![i] + rest;
        let items = items_from(rows, t, w, i)->Ok_0;
        assert(items == seq![item_of(rows[i].cells)->Ok_0] + items_from(rows, t, w, i + 1)->Ok_0);
        assert forall|p: int|
            0 <= p < idx.len() implies i <= #[trigger] idx[p] < rows.len() && rows[idx[p]].table
                == t && row_class(rows[idx[p]].cells, w) == RowClass::Data && item_of(
                rows[idx[p]].cells,
            ) == Ok::<LineItemM, ErrM>(items[p]) by {
            if p > 0 {
                assert(idx[p] == rest[p - 1]);
            }
        }
        assert forall|p: int, q: int| 0 <= p < q < idx.len() implies idx[p] < idx[q] by {
            if p > 0 {
                assert(idx[p] == rest[p - 1]);
            }
            assert(idx[q] == rest[q - 1]);
        }
        assert forall|r: int|
            i <= r < rows.len() && rows[r].table == t && row_class(rows[r].cells, w)
                == RowClass::Data implies exists|p: int| 0 <= p < idx.len() && idx[p] == r by {
            if r > i {
                let p = choose|p: int| 0 <= p < rest.len() && rest[p] == r;
                assert(idx[p + 1] == r);
            } else {
                assert(idx[0] == r);
            }
        }
        idx
    }
}

/// Items keep document order: the items of a parsed invoice are exactly the
/// data rows of the item table (the table of the heading row, below it), one
/// item per row, in the order the rows stand in the document.
pub proof fn lemma_items_in_document_order(html: Seq<char>) -> (idx: Seq<int>)
    requires
        parse_spec(html) is Ok,
    ensures
        ({
            let rows = doc_rows(html);
            let items = parse_spec(html)->Ok_0.items;
            let k = anchor(rows)->Some_0;
            &&& anchor(rows) is Some
            &&& idx.len() == items.len()
            &&& forall|p: int|
                0 <= p < idx.len() ==> k < #[trigger] idx[p] < rows.len() && rows[idx[p]].table
                    == rows[k].table && item_of(rows[idx[p]].cells) == Ok::<LineItemM, ErrM>(
                    items[p],
                )
            &&& forall|p: int, q: int| 0 <= p < q < idx.len() ==> idx[p] < idx[q]
            &&& forall|r: int|
                k < r < rows.len() && rows[r].table == rows[k].table && row_class(
                    rows[r].cells,
                    rows[k].cells.len(),
                )
                    == RowClass::Data ==> exists|p: int| 0 <= p < idx.len() && idx[p] == r
        }),
{
    let rows = doc_rows(html);
    let k = anchor(rows)->Some_0;
    lemma_anchor_in_range(rows, 0);
    lemma_item_rows(rows, rows[k].table, rows[k].cells.len(), k + 1)
}

/// A document without the item table's heading row is refused as not being
/// an invoice, never read as an empty one.
pub proof fn lemma_missing_table(html: Seq<char>)
    requires
        anchor(doc_rows(html)) is None,
    ensures
        parse_spec(html) == Err::<InvoiceM, ErrM>(
            ErrM::StructuralError(StructuralFault::MissingItemTable),
        ),
{
}

/// An invoice with no items is accepted only when its stated total is zero.
pub proof fn lemma_empty_invoice(html: Seq<char>)
    requires
        parse_spec(html) is Ok,
        parse_spec(html)->Ok_0.items.len() == 0,
    ensures
        parse_spec(html)->Ok_0.total == 0,
{
}

proof fn lemma_digit_char(n: nat)
    requires
        n < 10,
    ensures
        is_digit(digit_char(n)),
        digit_val(digit_char(n)) == n,
{
}

proof fn lemma_dec(v: nat)
    ensures
        dec(v).len() > 0,
        forall|i: int| 0 <= i < dec(v).len() ==> is_digit(#[trigger] dec(v)[i]),
        digits_value(dec(v)) == v,
    decreases v,
{
    if v < 10 {
        lemma_digit_char(v);
        assert(dec(v).drop_last() =~= Seq::<char>::empty());
        assert(dec(v).last() == digit_char(v));
        assert(digits_value(Seq::<char>::empty()) == 0);
    } else {
        lemma_dec(v / 10);
        lemma_digit_char(v % 10);
        assert(dec(v).drop_last() == dec(v / 10));
        assert(dec(v).last() == digit_char(v % 10));
        assert(v == (v / 10) * 10 + v % 10);
    }
}

/// Amounts survive the text form: the digits that `render` writes for an
/// amount read back, through the numeral reader, as the same amount.
pub proof fn lemma_amount_round_trip(v: nat)
    requires
        v <= u64::MAX,
    ensures
        numeral_of(dec(v)) == Some((v, None::<char>)),
{
    lemma_dec(v);
    let s = dec(v);
    assert(is_digit(s[0]));
    assert(is_digit(s[s.len() - 1]));
    assert(symbol_of(s) is None);
    assert(body_of(s) == s);
    assert(well_grouped(s));
}

/// Dates survive the text form: the `YYYY-MM-DD` text that `render` writes for
/// a valid date reads back, through the date reader, as the same date.
pub proof fn lemma_date_round_trip(d: Date)
    requires
        d.wf(),
    ensures
        date_of(date_text(d)) == Some((d.year as int, d.month as int, d.day as int)),
{
    let s = date_text(d);
    let y = d.year as nat;
    let m = d.month as nat;
    let n = d.day as nat;
    lemma_digit_char(y / 1000 % 10);
    lemma_digit_char(y / 100 % 10);
    lemma_digit_char(y / 10 % 10);
    lemma_digit_char(y % 10);
    lemma_digit_char(m / 10 % 10);
    lemma_digit_char(m % 10);
    lemma_digit_char(n / 10 % 10);
    lemma_digit_char(n % 10);
    assert(forall|k: int| 0 <= k < 4 ==> is_digit(#[trigger] s[k]));
    assert(second_sep(s[4]) == Some(('-', false)));
    assert(digit_run_end(s, 7) == 7);
    assert(digit_run_end(s, 6) == 7);
    assert(digit_run_end(s, 5) == 7);
    assert(digit_run_end(s, 10) == 10);
    assert(digit_run_end(s, 9) == 10);
    assert(digit_run_end(s, 8) == 10);
    reveal_with_fuel(digits_value, 5);
    assert(s.subrange(0, 4).drop_last() =~= s.subrange(0, 3));
    assert(s.subrange(0, 3).drop_last() =~= s.subrange(0, 2));
    assert(s.subrange(0, 2).drop_last() =~= s.subrange(0, 1));
    assert(s.subrange(0, 1).drop_last() =~= s.subrange(0, 0));
    assert(s.subrange(5, 7).drop_last() =~= s.subrange(5, 6));
    assert(s.subrange(5, 6).drop_last() =~= s.subrange(5, 5));
    assert(s.subrange(8, 10).drop_last() =~= s.subrange(8, 9));
    assert(s.subrange(8, 9).drop_last() =~= s.subrange(8, 8));
    assert(y == ((y / 1000 % 10 * 10 + y / 100 % 10) * 10 + y / 10 % 10) * 10 + y % 10) by (
    nonlinear_arith)
        requires
            y <= 9999,
    ;
    assert(m == m / 10 % 10 * 10 + m % 10) by (nonlinear_arith)
        requires
            m <= 12,
    ;
    assert(n == n / 10 % 10 * 10 + n % 10) by (nonlinear_arith)
        requires
            n <= 31,
    ;
}

/// Every date of a parsed invoice is a valid calendar date.
pub proof fn lemma_parsed_dates_valid(html: Seq<char>)
    requires
        parse_spec(html) is Ok,
    ensures
        parse_spec(html)->Ok_0.issued.wf(),
        parse_spec(html)->Ok_0.due matches Some(d) ==> d.wf(),
{
    assert(forall|s: Seq<char>| #[trigger] date_of(s) matches Some(t) ==> valid_date(t.0, t.1, t.2));
}

} // verus!
