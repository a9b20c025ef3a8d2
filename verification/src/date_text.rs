//! Dates as text: the form `YYYY-MM-DD` in which a store keeps them, how it
//! is written and read, and why comparing the texts compares the dates.

use vstd::prelude::*;
use vstd::arithmetic::div_mod::lemma_fundamental_div_mod_converse;
use vstd::string::StringExecFns;
use vstd::utf8::{encode_utf8, is_ascii_chars, is_ascii_chars_encode_utf8};
use crate::date::Date;
use crate::error::BudgetError;
use crate::text::{
    bytes_precede, differs_first_below, lemma_bytes_order_by_position, text_precedes,
};

verus! {

/// The character of decimal digit `d`.
pub open spec fn digit_char(d: int) -> char {
    (48 + d) as char
}

/// The decimal digits of `n`, most significant first, without leading zeros.
pub open spec fn decimal(n: nat) -> Seq<char>
    decreases n,
{
    if n < 10 {
        seq![digit_char(n as int)]
    } else {
        decimal(n / 10).push(digit_char((n % 10) as int))
    }
}

/// The decimal digits of `n`, with zeros in front up to `width` characters.
pub open spec fn zero_padded(n: nat, width: nat) -> Seq<char> {
    let digits = decimal(n);
    if digits.len() >= width {
        digits
    } else {
        Seq::new((width - digits.len()) as nat, |i: int| '0') + digits
    }
}

/// The year as text: at least four characters, a minus sign included.
pub open spec fn year_text(year: int) -> Seq<char> {
    if year >= 0 {
        zero_padded(year as nat, 4)
    } else {
        seq!['-'] + zero_padded((-year) as nat, 3)
    }
}

/// The date as text: year, month and day separated by hyphens, the year
/// padded to four characters, month and day to two. For the years 0 to 9999
/// this is the form `YYYY-MM-DD`.
pub open spec fn date_text(d: Date) -> Seq<char> {
    year_text(d.year as int) + seq!['-'] + zero_padded(d.month as nat, 2) + seq!['-']
        + zero_padded(d.day as nat, 2)
}

/// Whether `c` is a decimal digit.
pub open spec fn is_digit(c: char) -> bool {
    '0' <= c <= '9'
}

/// The value of decimal digit `c`.
pub open spec fn digit_value(c: char) -> int {
    c as int - 48
}

/// Whether `text` has the form `YYYY-MM-DD`: ten characters, digits but for
/// the two hyphens.
pub open spec fn is_date_form(text: Seq<char>) -> bool {
    &&& text.len() == 10
    &&& is_digit(text[0])
    &&& is_digit(text[1])
    &&& is_digit(text[2])
    &&& is_digit(text[3])
    &&& text[4] == '-'
    &&& is_digit(text[5])
    &&& is_digit(text[6])
    &&& text[7] == '-'
    &&& is_digit(text[8])
    &&& is_digit(text[9])
}

/// The date that `text` writes down: it must have the form `YYYY-MM-DD`,
/// with a month from 01 to 12 and a day from 01 to 31.
pub open spec fn date_of_text(text: Seq<char>) -> Option<Date> {
    if is_date_form(text) {
        let year = digit_value(text[0]) * 1000 + digit_value(text[1]) * 100 + digit_value(text[2])
            * 10 + digit_value(text[3]);
        let month = digit_value(text[5]) * 10 + digit_value(text[6]);
        let day = digit_value(text[8]) * 10 + digit_value(text[9]);
        if 1 <= month <= 12 && 1 <= day <= 31 {
            Some(Date { year: year as i64, month: month as u32, day: day as u32 })
        } else {
            None
        }
    } else {
        None
    }
}

/// A number below a hundred, padded to two characters, is its two digits.
proof fn lemma_two_digits(n: nat)
    requires
        n < 100,
    ensures
        zero_padded(n, 2) == seq![digit_char((n / 10) as int), digit_char((n % 10) as int)],
{
    reveal_with_fuel(decimal, 3);
    assert(zero_padded(n, 2) =~= seq![digit_char((n / 10) as int), digit_char((n % 10) as int)]);
}

/// A number below ten thousand, padded to four characters, is its four
/// digits.
proof fn lemma_four_digits(n: nat)
    requires
        n < 10000,
    ensures
        zero_padded(n, 4) == seq![
            digit_char((n / 1000) as int),
            digit_char((n / 100 % 10) as int),
            digit_char((n / 10 % 10) as int),
            digit_char((n % 10) as int),
        ],
{
    reveal_with_fuel(decimal, 5);
    assert(zero_padded(n, 4) =~= seq![
        digit_char((n / 1000) as int),
        digit_char((n / 100 % 10) as int),
        digit_char((n / 10 % 10) as int),
        digit_char((n % 10) as int),
    ]);
}

/// The ten characters of a date: four digits of the year, two of the month
/// and two of the day, with hyphens between.
spec fn ten_characters(year: int, month: int, day: int) -> Seq<char> {
    seq![
        digit_char(year / 1000),
        digit_char(year / 100 % 10),
        digit_char(year / 10 % 10),
        digit_char(year % 10),
        '-',
        digit_char(month / 10),
        digit_char(month % 10),
        '-',
        digit_char(day / 10),
        digit_char(day % 10),
    ]
}

/// The text of a date of the years 0 to 9999, with month and day below a
/// hundred, is its ten characters.
proof fn lemma_date_text_is_ten_characters(d: Date)
    requires
        0 <= d.year <= 9999,
        d.month < 100,
        d.day < 100,
    ensures
        date_text(d) == ten_characters(d.year as int, d.month as int, d.day as int),
{
    lemma_four_digits(d.year as nat);
    lemma_two_digits(d.month as nat);
    lemma_two_digits(d.day as nat);
    let y = zero_padded(d.year as nat, 4);
    let m = zero_padded(d.month as nat, 2);
    let dd = zero_padded(d.day as nat, 2);
    assert(y + seq!['-'] + m + seq!['-'] + dd =~= ten_characters(
        d.year as int,
        d.month as int,
        d.day as int,
    ));
}

/// A digit character is a digit, and its value is the digit.
proof fn lemma_digit_char(k: int)
    requires
        0 <= k <= 9,
    ensures
        is_digit(digit_char(k)),
        digit_value(digit_char(k)) == k,
        digit_char(k) != '-',
{
}

/// A digit is the character of its value.
proof fn lemma_digit_value(c: char)
    requires
        is_digit(c),
    ensures
        0 <= digit_value(c) <= 9,
        digit_char(digit_value(c)) == c,
{
}

/// The decimal digits of a number below ten thousand make up the number.
proof fn lemma_four_digits_value(n: int)
    requires
        0 <= n <= 9999,
    ensures
        0 <= n / 1000 <= 9,
        0 <= n / 100 % 10 <= 9,
        0 <= n / 10 % 10 <= 9,
        0 <= n % 10 <= 9,
        n / 1000 * 1000 + n / 100 % 10 * 100 + n / 10 % 10 * 10 + n % 10 == n,
{
    let tens = n / 10;
    let hundreds = n / 100;
    assert(hundreds == tens / 10) by (nonlinear_arith)
        requires
            0 <= n,
            tens == n / 10,
            hundreds == n / 100,
    ;
    assert(n / 1000 == hundreds / 10) by (nonlinear_arith)
        requires
            0 <= n,
            hundreds == n / 100,
    ;
}

/// Four digits are the decimal digits of the number they make up.
proof fn lemma_four_digits_of_value(a: int, b: int, c: int, e: int)
    requires
        0 <= a <= 9,
        0 <= b <= 9,
        0 <= c <= 9,
        0 <= e <= 9,
    ensures
        ({
            let n = a * 1000 + b * 100 + c * 10 + e;
            &&& 0 <= n <= 9999
            &&& n / 1000 == a
            &&& n / 100 % 10 == b
            &&& n / 10 % 10 == c
            &&& n % 10 == e
        }),
{
    let n = a * 1000 + b * 100 + c * 10 + e;
    lemma_fundamental_div_mod_converse(n, 1000, a, b * 100 + c * 10 + e);
    lemma_fundamental_div_mod_converse(n, 100, a * 10 + b, c * 10 + e);
    lemma_fundamental_div_mod_converse(a * 10 + b, 10, a, b);
    lemma_fundamental_div_mod_converse(n, 10, a * 100 + b * 10 + c, e);
    lemma_fundamental_div_mod_converse(a * 100 + b * 10 + c, 10, a * 10 + b, c);
}

/// The ten characters of a calendar date have the form `YYYY-MM-DD` and
/// read as that date.
proof fn lemma_ten_characters_read_back(year: int, month: int, day: int)
    requires
        0 <= year <= 9999,
        1 <= month <= 12,
        1 <= day <= 31,
    ensures
        is_date_form(ten_characters(year, month, day)),
        date_of_text(ten_characters(year, month, day)) == Some(
            Date { year: year as i64, month: month as u32, day: day as u32 },
        ),
{
    lemma_four_digits_value(year);
    lemma_digit_char(year / 1000);
    lemma_digit_char(year / 100 % 10);
    lemma_digit_char(year / 10 % 10);
    lemma_digit_char(year % 10);
    lemma_digit_char(month / 10);
    lemma_digit_char(month % 10);
    lemma_digit_char(day / 10);
    lemma_digit_char(day % 10);
}

/// A text of the form `YYYY-MM-DD` is made of the ten characters of the
/// numbers it writes down.
proof fn lemma_date_form_is_ten_characters(text: Seq<char>)
    requires
        is_date_form(text),
    ensures
        ({
            let year = digit_value(text[0]) * 1000 + digit_value(text[1]) * 100 + digit_value(
                text[2],
            ) * 10 + digit_value(text[3]);
            let month = digit_value(text[5]) * 10 + digit_value(text[6]);
            let day = digit_value(text[8]) * 10 + digit_value(text[9]);
            &&& 0 <= year <= 9999
            &&& 0 <= month <= 99
            &&& 0 <= day <= 99
            &&& text == ten_characters(year, month, day)
        }),
{
    lemma_digit_value(text[0]);
    lemma_digit_value(text[1]);
    lemma_digit_value(text[2]);
    lemma_digit_value(text[3]);
    lemma_digit_value(text[5]);
    lemma_digit_value(text[6]);
    lemma_digit_value(text[8]);
    lemma_digit_value(text[9]);
    lemma_four_digits_of_value(
        digit_value(text[0]),
        digit_value(text[1]),
        digit_value(text[2]),
        digit_value(text[3]),
    );
    let year = digit_value(text[0]) * 1000 + digit_value(text[1]) * 100 + digit_value(text[2])
        * 10 + digit_value(text[3]);
    let month = digit_value(text[5]) * 10 + digit_value(text[6]);
    let day = digit_value(text[8]) * 10 + digit_value(text[9]);
    assert(text =~= ten_characters(year, month, day));
}

/// The text of a calendar date of the years 0 to 9999 has the form
/// `YYYY-MM-DD`, and reading it gives the date back.
pub proof fn lemma_date_text_reads_back(d: Date)
    requires
        0 <= d.year <= 9999,
        d.is_calendar(),
    ensures
        is_date_form(date_text(d)),
        date_of_text(date_text(d)) == Some(d),
{
    lemma_date_text_is_ten_characters(d);
    lemma_ten_characters_read_back(d.year as int, d.month as int, d.day as int);
}

/// A text that reads as a date is the text of that date, a calendar date of
/// the years 0 to 9999.
pub proof fn lemma_date_text_writes_back(text: Seq<char>)
    requires
        date_of_text(text) is Some,
    ensures
        date_text(date_of_text(text)->0) == text,
        0 <= date_of_text(text)->0.year <= 9999,
        date_of_text(text)->0.is_calendar(),
{
    lemma_date_form_is_ten_characters(text);
    lemma_date_text_is_ten_characters(date_of_text(text)->0);
}

/// The UTF-8 bytes of the ten characters of a date.
spec fn ten_bytes(year: int, month: int, day: int) -> Seq<u8> {
    seq![
        (48 + year / 1000) as u8,
        (48 + year / 100 % 10) as u8,
        (48 + year / 10 % 10) as u8,
        (48 + year % 10) as u8,
        45u8,
        (48 + month / 10) as u8,
        (48 + month % 10) as u8,
        45u8,
        (48 + day / 10) as u8,
        (48 + day % 10) as u8,
    ]
}

/// The ten characters of a date are encoded by its ten bytes.
proof fn lemma_ten_characters_encoded(year: int, month: int, day: int)
    requires
        0 <= year <= 9999,
        0 <= month <= 99,
        0 <= day <= 99,
    ensures
        encode_utf8(ten_characters(year, month, day)) == ten_bytes(year, month, day),
{
    let t = ten_characters(year, month, day);
    lemma_four_digits_value(year);
    lemma_digit_char(year / 1000);
    lemma_digit_char(year / 100 % 10);
    lemma_digit_char(year / 10 % 10);
    lemma_digit_char(year % 10);
    lemma_digit_char(month / 10);
    lemma_digit_char(month % 10);
    lemma_digit_char(day / 10);
    lemma_digit_char(day % 10);
    assert(is_ascii_chars(t));
    is_ascii_chars_encode_utf8(t);
    assert(encode_utf8(t) =~= ten_bytes(year, month, day));
}

/// The ten bytes of two dates are ordered as the dates are.
proof fn lemma_ten_bytes_order(a: Date, b: Date)
    requires
        0 <= a.year <= 9999,
        a.month <= 99,
        a.day <= 99,
        0 <= b.year <= 9999,
        b.month <= 99,
        b.day <= 99,
    ensures
        bytes_precede(
            ten_bytes(a.year as int, a.month as int, a.day as int),
            ten_bytes(b.year as int, b.month as int, b.day as int),
        ) == a.earlier_than(b),
{
    let x = ten_bytes(a.year as int, a.month as int, a.day as int);
    let y = ten_bytes(b.year as int, b.month as int, b.day as int);
    lemma_bytes_order_by_position(x, y, 0);
    assert(x.skip(0) =~= x);
    assert(y.skip(0) =~= y);
    reveal_with_fuel(differs_first_below, 11);
    lemma_four_digits_value(a.year as int);
    lemma_four_digits_value(b.year as int);
    let year_decides = x[0] < y[0] || (x[0] == y[0] && (x[1] < y[1] || (x[1] == y[1] && (x[2]
        < y[2] || (x[2] == y[2] && x[3] < y[3])))));
    let year_same = x[0] == y[0] && x[1] == y[1] && x[2] == y[2] && x[3] == y[3];
    let month_decides = x[5] < y[5] || (x[5] == y[5] && x[6] < y[6]);
    let month_same = x[5] == y[5] && x[6] == y[6];
    let day_decides = x[8] < y[8] || (x[8] == y[8] && x[9] < y[9]);
    assert(differs_first_below(x, y, 0) == (year_decides || (year_same && (month_decides || (
    month_same && day_decides)))));
    assert(year_decides == (a.year < b.year));
    assert(year_same == (a.year == b.year));
    assert(month_decides == (a.month < b.month));
    assert(month_same == (a.month == b.month));
    assert(day_decides == (a.day < b.day));
}

/// The texts of two dates of the years 0 to 9999 are ordered, byte by byte,
/// as the dates are: a store that compares dates as texts compares them
/// rightly.
pub proof fn lemma_date_texts_sort_like_dates(a: Date, b: Date)
    requires
        0 <= a.year <= 9999,
        a.month <= 99,
        a.day <= 99,
        0 <= b.year <= 9999,
        b.month <= 99,
        b.day <= 99,
    ensures
        text_precedes(date_text(a), date_text(b)) == a.earlier_than(b),
{
    lemma_date_text_is_ten_characters(a);
    lemma_date_text_is_ten_characters(b);
    lemma_ten_characters_encoded(a.year as int, a.month as int, a.day as int);
    lemma_ten_characters_encoded(b.year as int, b.month as int, b.day as int);
    lemma_ten_bytes_order(a, b);
}

/// The text of one decimal digit.
fn digit_str(d: u32) -> (r: &'static str)
    requires
        d < 10,
    ensures
        r@ == seq![digit_char(d as int)],
{
    proof {
        reveal_strlit("0");
        reveal_strlit("1");
        reveal_strlit("2");
        reveal_strlit("3");
        reveal_strlit("4");
        reveal_strlit("5");
        reveal_strlit("6");
        reveal_strlit("7");
        reveal_strlit("8");
        reveal_strlit("9");
    }
    let r = if d == 0 {
        "0"
    } else if d == 1 {
        "1"
    } else if d == 2 {
        "2"
    } else if d == 3 {
        "3"
    } else if d == 4 {
        "4"
    } else if d == 5 {
        "5"
    } else if d == 6 {
        "6"
    } else if d == 7 {
        "7"
    } else if d == 8 {
        "8"
    } else {
        "9"
    };
    assert(r@ =~= seq![digit_char(d as int)]);
    r
}

/// Appends the decimal digits of `n`.
fn append_decimal(out: &mut String, n: u64)
    ensures
        final(out)@ == old(out)@ + decimal(n as nat),
    decreases n,
{
    if n >= 10 {
        append_decimal(out, n / 10);
    }
    out.append(digit_str((n % 10) as u32));
    proof {
        if n >= 10 {
            assert(final(out)@ =~= old(out)@ + decimal(n as nat));
        }
    }
}

/// The number of decimal digits of `n`.
fn decimal_len(n: u64) -> (r: usize)
    ensures
        r == decimal(n as nat).len(),
        1 <= r <= 20,
    decreases n,
{
    if n >= 10 {
        let r = decimal_len(n / 10);
        proof {
            lemma_decimal_len(n as nat);
        }
        r + 1
    } else {
        1
    }
}

/// A number that fits 64 bits has at most twenty decimal digits.
proof fn lemma_decimal_len(n: nat)
    requires
        n <= u64::MAX,
    ensures
        1 <= decimal(n).len() <= 20,
{
    reveal_with_fuel(decimal, 21);
}

/// Appends `n` in decimal, with zeros in front up to `width` characters.
fn append_zero_padded(out: &mut String, n: u64, width: usize)
    ensures
        final(out)@ == old(out)@ + zero_padded(n as nat, width as nat),
{
    let len = decimal_len(n);
    let mut k: usize = len;
    let ghost start = out@;
    while k < width
        invariant
            len <= k,
            k <= width || k == len,
            len == decimal(n as nat).len(),
            out@ == start + Seq::new((k - len) as nat, |i: int| '0'),
        decreases width - k,
    {
        proof {
            reveal_strlit("0");
        }
        let ghost before = out@;
        out.append("0");
        proof {
            assert(before + "0"@ =~= start + Seq::new((k + 1 - len) as nat, |i: int| '0'));
        }
        k = k + 1;
    }
    let ghost padded = out@;
    append_decimal(out, n);
    proof {
        if len >= width {
            assert(padded =~= start);
        } else {
            assert(padded + decimal(n as nat) =~= start + (Seq::new(
                (width - len) as nat,
                |i: int| '0',
            ) + decimal(n as nat)));
        }
    }
}

impl Date {
    /// The date as text, `YYYY-MM-DD` for the years 0 to 9999.
    pub fn to_text(&self) -> (r: String)
        ensures
            r@ == date_text(*self),
    {
        let mut out = String::new();
        proof {
            reveal_strlit("-");
        }
        if self.year >= 0 {
            append_zero_padded(&mut out, self.year as u64, 4);
        } else {
            out.append("-");
            append_zero_padded(&mut out, (-(self.year as i128)) as u64, 3);
        }
        let ghost y = out@;
        assert(y =~= year_text(self.year as int));
        out.append("-");
        append_zero_padded(&mut out, self.month as u64, 2);
        out.append("-");
        append_zero_padded(&mut out, self.day as u64, 2);
        assert(out@ =~= date_text(*self));
        out
    }

    /// Reads a date written as `YYYY-MM-DD`. Any other text, a month outside
    /// 01 to 12 or a day outside 01 to 31 is refused with `InvalidArgument`.
    pub fn parse(text: &str) -> (r: Result<Date, BudgetError>)
        ensures
            r is Ok <==> date_of_text(text@) is Some,
            r is Ok ==> Some(r->Ok_0) == date_of_text(text@),
            r is Err ==> r->Err_0 == BudgetError::InvalidArgument,
    {
        if !text.is_ascii() {
            proof {
                if is_date_form(text@) {
                    assert(is_ascii_chars(text@));
                }
            }
            return Err(BudgetError::InvalidArgument);
        }
        let bytes = text.as_bytes();
        proof {
            is_ascii_chars_encode_utf8(text@);
        }
        if bytes.len() != 10 {
            return Err(BudgetError::InvalidArgument);
        }
        let b0 = bytes[0];
        let b1 = bytes[1];
        let b2 = bytes[2];
        let b3 = bytes[3];
        let b4 = bytes[4];
        let b5 = bytes[5];
        let b6 = bytes[6];
        let b7 = bytes[7];
        let b8 = bytes[8];
        let b9 = bytes[9];
        proof {
            let t = text@;
            assert(t[0] as int == b0 && t[1] as int == b1 && t[2] as int == b2 && t[3] as int == b3
                && t[4] as int == b4);
            assert(t[5] as int == b5 && t[6] as int == b6 && t[7] as int == b7 && t[8] as int == b8
                && t[9] as int == b9);
        }
        if !(is_digit_byte(b0) && is_digit_byte(b1) && is_digit_byte(b2) && is_digit_byte(b3) && b4
            == 45 && is_digit_byte(b5) && is_digit_byte(b6) && b7 == 45 && is_digit_byte(b8)
            && is_digit_byte(b9)) {
            return Err(BudgetError::InvalidArgument);
        }
        let year: i64 = (b0 - 48) as i64 * 1000 + (b1 - 48) as i64 * 100 + (b2 - 48) as i64 * 10 + (
        b3 - 48) as i64;
        let month: u32 = (b5 - 48) as u32 * 10 + (b6 - 48) as u32;
        let day: u32 = (b8 - 48) as u32 * 10 + (b9 - 48) as u32;
        Date::new(year, month, day)
    }
}

/// Whether byte `b` is the code of a decimal digit.
fn is_digit_byte(b: u8) -> (r: bool)
    ensures
        r == (48 <= b <= 57),
{
    48 <= b && b <= 57
}

} // verus!
