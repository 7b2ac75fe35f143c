//! Calendar dates in the numeric and the year-month-day forms.

use vstd::prelude::*;
use crate::numeral::{is_digit, digits_value, digit_val};

verus! {

/// A calendar date of the proleptic Gregorian calendar, years 1 to 9999.
#[derive(Clone, Copy, Debug, PartialEq, Eq, Structural)]
pub struct Date {
    pub year: u16,
    pub month: u8,
    pub day: u8,
}

pub open spec fn is_leap(y: int) -> bool {
    (y % 4 == 0 && y % 100 != 0) || y % 400 == 0
}

pub open spec fn days_in_month(y: int, m: int) -> int {
    if m == 2 {
        if is_leap(y) {
            29
        } else {
            28
        }
    } else if m == 4 || m == 6 || m == 9 || m == 11 {
        30
    } else {
        31
    }
}

pub open spec fn valid_date(y: int, m: int, d: int) -> bool {
    1 <= y <= 9999 && 1 <= m <= 12 && 1 <= d <= days_in_month(y, m)
}

impl Date {
    pub open spec fn wf(self) -> bool {
        valid_date(self.year as int, self.month as int, self.day as int)
    }
}

/// First position at or after `i` that does not hold a digit.
pub open spec fn digit_run_end(s: Seq<char>, i: int) -> int
    recommends
        0 <= i <= s.len(),
    decreases s.len() - i,
{
    if 0 <= i < s.len() && is_digit(s[i]) {
        digit_run_end(s, i + 1)
    } else {
        i
    }
}

/// The separator that follows the month for a given separator after the year,
/// and whether a closing day sign must end the text.
pub open spec fn second_sep(c: char) -> Option<(char, bool)> {
    if c == '/' || c == '-' || c == '.' {
        Some((c, false))
    } else if c == '\u{5e74}' {
        Some(('\u{6708}', true))
    } else {
        None
    }
}

/// The date a text states, in one of the forms `2024/3/5`, `2024-03-05`,
/// `2024.3.5` or `2024\u{5e74}3\u{6708}5\u{65e5}`: a year of four digits, a month and
/// a day of one or two digits. `None` when the text has another shape or
/// names no valid calendar day.
pub open spec fn date_of(s: Seq<char>) -> Option<(int, int, int)> {
    if s.len() < 8 || !(forall|k: int| 0 <= k < 4 ==> is_digit(#[trigger] s[k])) || second_sep(
        s[4],
    ) is None {
        None
    } else {
        let (month_sep, kanji) = second_sep(s[4]).unwrap();
        let i2 = digit_run_end(s, 5);
        let i3 = digit_run_end(s, i2 + 1);
        let end = if kanji {
            i3 + 1
        } else {
            i3
        };
        let y = digits_value(s.subrange(0, 4)) as int;
        let m = digits_value(s.subrange(5, i2)) as int;
        let d = digits_value(s.subrange(i2 + 1, i3)) as int;
        if 1 <= i2 - 5 <= 2 && i2 < s.len() && s[i2] == month_sep && 1 <= i3 - (i2 + 1) <= 2 && end
            == s.len() && (kanji ==> s[i3] == '\u{65e5}') && valid_date(y, m, d) {
            Some((y, m, d))
        } else {
            None
        }
    }
}

fn run_end(s: &[char], i: usize) -> (r: usize)
    requires
        i <= s@.len(),
    ensures
        r as int == digit_run_end(s@, i as int),
        i <= r <= s@.len(),
{
    let mut j = i;
    while j < s.len() && '0' <= s[j] && s[j] <= '9'
        invariant
            i <= j <= s@.len(),
            digit_run_end(s@, i as int) == digit_run_end(s@, j as int),
        decreases s@.len() - j,
    {
        j = j + 1;
    }
    j
}

/// Value of the digits `s[a..b]`, at most four of them.
fn small_value(s: &[char], a: usize, b: usize) -> (r: u16)
    requires
        a <= b <= s@.len(),
        b - a <= 4,
        forall|k: int| a <= k < b ==> is_digit(#[trigger] s@[k]),
    ensures
        r as nat == digits_value(s@.subrange(a as int, b as int)),
        r <= 9999,
{
    let mut v: u16 = 0;
    let mut j = a;
    while j < b
        invariant
            a <= j <= b <= s@.len(),
            b - a <= 4,
            forall|k: int| a <= k < b ==> is_digit(#[trigger] s@[k]),
            v as nat == digits_value(s@.subrange(a as int, j as int)),
            v < pow10((j - a) as nat),
        decreases b - j,
    {
        assert(s@.subrange(a as int, j + 1).drop_last() == s@.subrange(a as int, j as int));
        assert(is_digit(s@[j as int]));
        let dv = (s[j] as u32 - '0' as u32) as u16;
        assert(digit_val(s@[j as int]) == dv);
        assert(pow10((j + 1 - a) as nat) == 10 * pow10((j - a) as nat));
        assert(v * 10 + dv < 10 * pow10((j - a) as nat)) by (nonlinear_arith)
            requires
                v < pow10((j - a) as nat),
                dv <= 9,
        ;
        proof {
            lemma_pow10_small((j + 1 - a) as nat);
        }
        v = v * 10 + dv;
        j = j + 1;
    }
    proof {
        lemma_pow10_small((b - a) as nat);
    }
    v
}

pub open spec fn pow10(n: nat) -> nat
    decreases n,
{
    if n == 0 {
        1
    } else {
        10 * pow10((n - 1) as nat)
    }
}

proof fn lemma_pow10_small(n: nat)
    requires
        n <= 4,
    ensures
        pow10(n) <= 10000,
{
    reveal_with_fuel(pow10, 5);
}

fn days_in(y: u16, m: u16) -> (r: u16)
    ensures
        r as int == days_in_month(y as int, m as int),
{
    if m == 2 {
        if (y % 4 == 0 && y % 100 != 0) || y % 400 == 0 {
            29
        } else {
            28
        }
    } else if m == 4 || m == 6 || m == 9 || m == 11 {
        30
    } else {
        31
    }
}

/// Reads a date in one of the accepted forms (see `date_of`).
pub fn parse_date(s: &[char]) -> (r: Option<Date>)
    ensures
        match r {
            Some(d) => date_of(s@) == Some((d.year as int, d.month as int, d.day as int))
                && d.wf(),
            None => date_of(s@) is None,
        },
{
    let n = s.len();
    if n < 8 {
        return None;
    }
    let mut k: usize = 0;
    while k < 4
        invariant
            k <= 4 <= n == s@.len(),
            forall|q: int| 0 <= q < k ==> is_digit(#[trigger] s@[q]),
        decreases 4 - k,
    {
        if !('0' <= s[k] && s[k] <= '9') {
            return None;
        }
        k = k + 1;
    }
    let c = s[4];
    let (month_sep, kanji) = if c == '/' || c == '-' || c == '.' {
        (c, false)
    } else if c == '\u{5e74}' {
        ('\u{6708}', true)
    } else {
        return None;
    };
    let i2 = run_end(s, 5);
    if i2 - 5 < 1 || i2 - 5 > 2 || i2 >= n || s[i2] != month_sep {
        return None;
    }
    let i3 = run_end(s, i2 + 1);
    if i3 - (i2 + 1) < 1 || i3 - (i2 + 1) > 2 {
        return None;
    }
    if kanji {
        if i3 + 1 != n || s[i3] != '\u{65e5}' {
            return None;
        }
    } else if i3 != n {
        return None;
    }
    proof {
        assert forall|q: int| 5 <= q < i2 implies is_digit(#[trigger] s@[q]) by {
            lemma_run_digits(s@, 5, q);
        }
        assert forall|q: int| i2 + 1 <= q < i3 implies is_digit(#[trigger] s@[q]) by {
            lemma_run_digits(s@, i2 as int + 1, q);
        }
    }
    let y = small_value(s, 0, 4);
    let m = small_value(s, 5, i2);
    let d = small_value(s, i2 + 1, i3);
    if y < 1 || m < 1 || m > 12 || d < 1 || d > days_in(y, m) {
        return None;
    }
    Some(Date { year: y, month: m as u8, day: d as u8 })
}

proof fn lemma_run_digits(s: Seq<char>, i: int, q: int)
    requires
        0 <= i <= q < digit_run_end(s, i),
    ensures
        is_digit(s[q]),
    decreases q - i,
{
    if i < q {
        lemma_run_digits(s, i + 1, q);
    }
}

} // verus!
