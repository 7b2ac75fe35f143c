//! Locale-formatted integers: thousands separators, currency marks and the
//! yen unit sign.

use vstd::prelude::*;

verus! {

pub open spec fn is_digit(c: char) -> bool {
    '0' <= c && c <= '9'
}

pub open spec fn digit_val(c: char) -> nat {
    (c as u32 - '0' as u32) as nat
}

/// The currency marks accepted in front of an amount: half and full-width yen.
pub open spec fn is_yen(c: char) -> bool {
    c == '\u{a5}' || c == '\u{ffe5}'
}

/// Decimal value of a digit string, thousands separators skipped.
pub open spec fn digits_value(d: Seq<char>) -> nat
    decreases d.len(),
{
    if d.len() == 0 {
        0
    } else if d.last() == ',' {
        digits_value(d.drop_last())
    } else {
        digits_value(d.drop_last()) * 10 + digit_val(d.last())
    }
}

/// Position `i` of a body of length `n` carries a separator when grouped by three.
pub open spec fn sep_at(n: int, i: int) -> bool {
    i > 0 && (n - i) % 4 == 0
}

/// A non-empty digit string, either plain or with a comma before every
/// group of three digits counted from the right (and nowhere else).
pub open spec fn well_grouped(d: Seq<char>) -> bool {
    d.len() > 0 && ((forall|i: int| 0 <= i < d.len() ==> is_digit(#[trigger] d[i])) || (d.len()
        % 4 != 0 && forall|i: int|
        0 <= i < d.len() ==> if sep_at(d.len() as int, i) {
            #[trigger] d[i] == ','
        } else {
            is_digit(d[i])
        }))
}

pub open spec fn symbol_of(s: Seq<char>) -> Option<char> {
    if s.len() > 0 && is_yen(s[0]) {
        Some(s[0])
    } else {
        None
    }
}

/// What is left of a numeral once a leading currency mark and a trailing
/// yen unit sign are taken off.
pub open spec fn body_of(s: Seq<char>) -> Seq<char> {
    let t = if symbol_of(s) is Some {
        s.drop_first()
    } else {
        s
    };
    if t.len() > 0 && t.last() == '\u{5186}' {
        t.drop_last()
    } else {
        t
    }
}

/// The value and currency mark of a numeral text, or `None` when it is
/// malformed or does not fit in 64 bits.
pub open spec fn numeral_of(s: Seq<char>) -> Option<(nat, Option<char>)> {
    let b = body_of(s);
    if well_grouped(b) && digits_value(b) <= u64::MAX {
        Some((digits_value(b), symbol_of(s)))
    } else {
        None
    }
}

/// A non-negative integer read from locale-formatted text, with the currency
/// mark that stood in front of it, if any.
#[derive(Clone, Copy, Debug, PartialEq, Eq, Structural)]
pub struct Numeral {
    pub value: u64,
    pub symbol: Option<char>,
}

proof fn lemma_digits_value_grows(d: Seq<char>, i: int, j: int)
    requires
        0 <= i <= j <= d.len(),
    ensures
        digits_value(d.take(i)) <= digits_value(d.take(j)),
    decreases j - i,
{
    if i < j {
        lemma_digits_value_grows(d, i, j - 1);
        assert(d.take(j).drop_last() == d.take(j - 1));
    }
}

fn copy_range(s: &[char], a: usize, b: usize) -> (r: Vec<char>)
    requires
        a <= b <= s@.len(),
    ensures
        r@ == s@.subrange(a as int, b as int),
{
    let mut out: Vec<char> = Vec::new();
    let mut i = a;
    while i < b
        invariant
            a <= i <= b <= s@.len(),
            out@ == s@.subrange(a as int, i as int),
        decreases b - i,
    {
        out.push(s[i]);
        i = i + 1;
        assert(out@ =~= s@.subrange(a as int, i as int));
    }
    out
}

fn check_grouping(d: &[char]) -> (r: bool)
    ensures
        r == well_grouped(d@),
{
    let n = d.len();
    if n == 0 {
        return false;
    }
    let mut plain = true;
    let mut grouped = n % 4 != 0;
    let mut i: usize = 0;
    while i < n
        invariant
            n == d@.len(),
            i <= n,
            plain == forall|k: int| 0 <= k < i ==> is_digit(#[trigger] d@[k]),
            grouped == (n % 4 != 0 && forall|k: int|
                0 <= k < i ==> if sep_at(n as int, k) {
                    #[trigger] d@[k] == ','
                } else {
                    is_digit(d@[k])
                }),
        decreases n - i,
    {
        let c = d[i];
        let digit = '0' <= c && c <= '9';
        if !digit {
            plain = false;
        }
        let sep = i > 0 && (n - i) % 4 == 0;
        let ok = if sep {
            c == ','
        } else {
            digit
        };
        if !ok {
            grouped = false;
        }
        i = i + 1;
    }
    plain || grouped
}

/// Reads a numeral such as `1,234`, `\u{a5}1,234` or `1,234\u{5186}`.
pub fn parse_numeral(s: &[char]) -> (r: Option<Numeral>)
    ensures
        match r {
            Some(n) => numeral_of(s@) == Some((n.value as nat, n.symbol)),
            None => numeral_of(s@) is None,
        },
{
    let n = s.len();
    let mut start: usize = 0;
    let mut symbol: Option<char> = None;
    if n > 0 && (s[0] == '\u{a5}' || s[0] == '\u{ffe5}') {
        start = 1;
        symbol = Some(s[0]);
    }
    let mut end = n;
    if end > start && s[end - 1] == '\u{5186}' {
        end = end - 1;
    }
    let body = copy_range(s, start, end);
    proof {
        let t = if symbol_of(s@) is Some {
            s@.drop_first()
        } else {
            s@
        };
        assert(t == s@.subrange(start as int, n as int));
        assert(body_of(s@) =~= body@);
    }
    if !check_grouping(body.as_slice()) {
        return None;
    }
    proof {
        lemma_grouped_chars(body@);
    }
    match digits_to_u64(body.as_slice()) {
        Some(v) => Some(Numeral { value: v, symbol }),
        None => None,
    }
}

/// Every character of a well grouped body is a digit or a separator.
proof fn lemma_grouped_chars(d: Seq<char>)
    requires
        well_grouped(d),
    ensures
        forall|i: int| 0 <= i < d.len() ==> is_digit(#[trigger] d[i]) || d[i] == ',',
{
    assert forall|i: int| 0 <= i < d.len() implies is_digit(#[trigger] d[i]) || d[i] == ',' by {
        if !(forall|k: int| 0 <= k < d.len() ==> is_digit(#[trigger] d[k])) {
            if sep_at(d.len() as int, i) {
            } else {
            }
        }
    }
}

/// The value of a body of digits and separators, if it fits in 64 bits.
fn digits_to_u64(body: &[char]) -> (r: Option<u64>)
    requires
        forall|i: int| 0 <= i < body@.len() ==> is_digit(#[trigger] body@[i]) || body@[i] == ',',
    ensures
        match r {
            Some(v) => v as nat == digits_value(body@),
            None => digits_value(body@) > u64::MAX,
        },
{
    let mut v: u64 = 0;
    let mut i: usize = 0;
    while i < body.len()
        invariant
            i <= body@.len(),
            forall|i: int| 0 <= i < body@.len() ==> is_digit(#[trigger] body@[i]) || body@[i] == ',',
            v as nat == digits_value(body@.take(i as int)),
        decreases body@.len() - i,
    {
        assert(body@.take(i as int + 1).drop_last() == body@.take(i as int));
        let c = body[i];
        assert(body@.take(i as int + 1).last() == c);
        if c != ',' {
            assert(is_digit(c));
            let dv = (c as u32 - '0' as u32) as u64;
            assert(digits_value(body@.take(i as int + 1)) == v * 10 + dv);
            if v > (u64::MAX - dv) / 10 {
                proof {
                    assert(v * 10 + dv > u64::MAX) by (nonlinear_arith)
                        requires
                            v > (u64::MAX - dv) / 10,
                            dv <= 9,
                    ;
                    lemma_digits_value_grows(body@, i as int + 1, body@.len() as int);
                    assert(body@.take(body@.len() as int) == body@);
                }
                return None;
            }
            assert(v * 10 + dv <= u64::MAX) by (nonlinear_arith)
                requires
                    v <= (u64::MAX - dv) / 10,
                    dv <= 9,
            ;
            v = v * 10 + dv;
        }
        i = i + 1;
    }
    assert(body@.take(body@.len() as int) == body@);
    Some(v)
}

} // verus!
