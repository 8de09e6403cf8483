//! Dates as text: four or more digits of year, two of month and two of day,
//! joined by hyphens, as in `2023-08-28`.

use vstd::prelude::*;
use vstd::string::*;
use vstd::utf8::is_ascii_chars;
use crate::calendar::{is_valid_date, spec_is_valid_date};
use crate::decimal::{
    all_digits, amount_to_text, decimal_text, decimal_value, digit_char, digit_text, digit_value,
    is_digit, lemma_decimal_text_long, lemma_decimal_text_value, lemma_decimal_value_prefix,
};

verus! {

/// The two digits of a number below one hundred.
pub open spec fn two_digits(n: int) -> Seq<char> {
    seq![digit_char((n / 10) as nat), digit_char((n % 10) as nat)]
}

/// The year in decimal notation, filled up with zeros to four digits.
pub open spec fn year_text(year: int) -> Seq<char> {
    if year <= 9999 {
        seq![
            digit_char((year / 1000) as nat),
            digit_char((year / 100 % 10) as nat),
            digit_char((year / 10 % 10) as nat),
            digit_char((year % 10) as nat),
        ]
    } else {
        decimal_text(year as nat)
    }
}

/// The text of a date, for a year from 0 and a month and day up to 99.
pub open spec fn date_text(year: int, month: int, day: int) -> Seq<char> {
    year_text(year) + seq!['-'] + two_digits(month) + seq!['-'] + two_digits(day)
}

/// The numbers that a text denotes as a date: digits of a year that fits in
/// 32 bits, four or more of them, then a hyphen, two digits of month, a
/// hyphen and two digits of day. Any other text denotes none.
pub open spec fn parse_date_text(s: Seq<char>) -> Option<(int, int, int)> {
    let n = s.len() as int;
    let year = s.subrange(0, n - 6);
    if n >= 10 && s[n - 6] == '-' && s[n - 3] == '-' && is_digit(s[n - 5]) && is_digit(s[n - 4])
        && is_digit(s[n - 2]) && is_digit(s[n - 1]) && all_digits(year) && decimal_value(year)
        <= i32::MAX {
        Some(
            (
                decimal_value(year) as int,
                (digit_value(s[n - 5]) * 10 + digit_value(s[n - 4])) as int,
                (digit_value(s[n - 2]) * 10 + digit_value(s[n - 1])) as int,
            ),
        )
    } else {
        None
    }
}

/// A text of exactly the form `YYYY-MM-DD` that names a calendar day with a
/// year in `2000..=9999`.
pub open spec fn spec_is_valid_date_format(s: Seq<char>) -> bool {
    s.len() == 10 && match parse_date_text(s) {
        Some((year, month, day)) => spec_is_valid_date(year, month, day),
        None => false,
    }
}

/// The year's text consists of four or more digits and reads back as the year.
pub proof fn lemma_year_text_value(year: int)
    requires
        0 <= year,
    ensures
        year_text(year).len() >= 4,
        year <= 9999 ==> year_text(year).len() == 4,
        all_digits(year_text(year)),
        decimal_value(year_text(year)) == year,
{
    if year <= 9999 {
        let s = year_text(year);
        let s3 = s.drop_last();
        let s2 = s3.drop_last();
        let s1 = s2.drop_last();
        assert(s1.drop_last() =~= Seq::<char>::empty());
        assert(decimal_value(s1.drop_last()) == 0);
        assert(decimal_value(s1) == year / 1000);
        assert(decimal_value(s2) == year / 100);
        assert(decimal_value(s3) == year / 10);
    } else {
        lemma_decimal_text_value(year as nat);
        lemma_decimal_text_long(year as nat);
    }
}

/// A date written as text is read back unchanged.
pub proof fn lemma_parse_date_of_date_text(year: int, month: int, day: int)
    requires
        0 <= year <= i32::MAX,
        0 <= month <= 99,
        0 <= day <= 99,
    ensures
        parse_date_text(date_text(year, month, day)) == Some((year, month, day)),
        year <= 9999 ==> date_text(year, month, day).len() == 10,
{
    lemma_year_text_value(year);
    let s = date_text(year, month, day);
    let n = s.len() as int;
    assert(n == year_text(year).len() + 6);
    assert(s.subrange(0, n - 6) =~= year_text(year));
}

/// A digit is the digit that stands for its value.
pub proof fn lemma_digit_char_of_value(c: char)
    requires
        is_digit(c),
    ensures
        digit_value(c) <= 9,
        digit_char(digit_value(c)) == c,
{
}

/// Four digits are the year text of the number they write.
proof fn lemma_four_digits(a: nat, b: nat, c: nat, d: nat)
    requires
        a <= 9,
        b <= 9,
        c <= 9,
        d <= 9,
    ensures
        ({
            let year = ((a * 10 + b) * 10 + c) * 10 + d;
            &&& year <= 9999
            &&& year / 1000 == a
            &&& year / 100 % 10 == b
            &&& year / 10 % 10 == c
            &&& year % 10 == d
        }),
{
}

/// A text of ten characters that denotes a date is the text of that date.
pub proof fn lemma_date_text_of_parse(s: Seq<char>)
    requires
        s.len() == 10,
        parse_date_text(s) is Some,
    ensures
        s == date_text(
            parse_date_text(s).unwrap().0,
            parse_date_text(s).unwrap().1,
            parse_date_text(s).unwrap().2,
        ),
        0 <= parse_date_text(s).unwrap().0 <= 9999,
        0 <= parse_date_text(s).unwrap().1 <= 99,
        0 <= parse_date_text(s).unwrap().2 <= 99,
{
    let y = s.subrange(0, 4);
    let y3 = y.drop_last();
    let y2 = y3.drop_last();
    let y1 = y2.drop_last();
    assert(y1.drop_last() =~= Seq::<char>::empty());
    assert(decimal_value(y1.drop_last()) == 0);
    assert(is_digit(y[0]) && is_digit(y[1]) && is_digit(y[2]) && is_digit(y[3]));
    let a = digit_value(s[0]);
    let b = digit_value(s[1]);
    let c = digit_value(s[2]);
    let d = digit_value(s[3]);
    assert(decimal_value(y1) == a);
    assert(decimal_value(y2) == a * 10 + b);
    assert(decimal_value(y3) == (a * 10 + b) * 10 + c);
    assert(decimal_value(y) == ((a * 10 + b) * 10 + c) * 10 + d);
    lemma_four_digits(a, b, c, d);
    lemma_digit_char_of_value(s[0]);
    lemma_digit_char_of_value(s[1]);
    lemma_digit_char_of_value(s[2]);
    lemma_digit_char_of_value(s[3]);
    lemma_digit_char_of_value(s[5]);
    lemma_digit_char_of_value(s[6]);
    lemma_digit_char_of_value(s[8]);
    lemma_digit_char_of_value(s[9]);
    let date = parse_date_text(s).unwrap();
    let year = date.0;
    assert(year_text(year) =~= seq![s[0], s[1], s[2], s[3]]);
    assert(two_digits(date.1) =~= seq![s[5], s[6]]);
    assert(two_digits(date.2) =~= seq![s[8], s[9]]);
    assert(s =~= date_text(date.0, date.1, date.2));
}

/// Writes a date as text.
pub fn format_date(year: i32, month: u32, day: u32) -> (text: String)
    requires
        0 <= year,
        month <= 99,
        day <= 99,
    ensures
        text@ == date_text(year as int, month as int, day as int),
{
    let mut text = if year <= 9999 {
        let mut four = String::from_str(digit_text((year / 1000) as u8));
        four.append(digit_text((year / 100 % 10) as u8));
        four.append(digit_text((year / 10 % 10) as u8));
        four.append(digit_text((year % 10) as u8));
        assert(four@ =~= year_text(year as int));
        four
    } else {
        amount_to_text(year as u128)
    };
    text.append("-");
    text.append(digit_text((month / 10) as u8));
    text.append(digit_text((month % 10) as u8));
    text.append("-");
    text.append(digit_text((day / 10) as u8));
    text.append(digit_text((day % 10) as u8));
    proof {
        reveal_strlit("-");
        assert("-"@ =~= seq!['-']);
        assert(text@ =~= date_text(year as int, month as int, day as int));
    }
    text
}

/// Reads a date from text: `Some` exactly for the texts that denote one.
pub fn parse_date(text: &str) -> (date: Option<(i32, u32, u32)>)
    ensures
        match date {
            Some((year, month, day)) => parse_date_text(text@) == Some(
                (year as int, month as int, day as int),
            ),
            None => parse_date_text(text@) is None,
        },
{
    broadcast use is_ascii_spec_bytes;

    if !text.is_ascii() {
        proof {
            lemma_not_ascii_not_date(text@);
        }
        return None;
    }
    let bytes = text.as_bytes();
    let n = bytes.len();
    if n < 10 {
        return None;
    }
    if bytes[n - 6] != 45 || bytes[n - 3] != 45 {
        return None;
    }
    if !byte_is_digit(bytes[n - 5]) || !byte_is_digit(bytes[n - 4]) || !byte_is_digit(bytes[n - 2])
        || !byte_is_digit(bytes[n - 1]) {
        return None;
    }
    let month: u32 = ((bytes[n - 5] - 48) as u32) * 10 + (bytes[n - 4] - 48) as u32;
    let day: u32 = ((bytes[n - 2] - 48) as u32) * 10 + (bytes[n - 1] - 48) as u32;
    let ghost digits = text@.subrange(0, n - 6);
    let mut year: u64 = 0;
    let mut i: usize = 0;
    while i < n - 6
        invariant
            10 <= n == text@.len(),
            bytes@.len() == n,
            forall|j: int| 0 <= j < n ==> bytes@[j] == text@[j] as u8,
            is_ascii_chars(text@),
            digits == text@.subrange(0, n - 6),
            0 <= i <= n - 6,
            all_digits(digits.subrange(0, i as int)),
            year == decimal_value(digits.subrange(0, i as int)),
            year <= i32::MAX,
        decreases n - i,
    {
        let b = bytes[i];
        let ghost next = digits.subrange(0, i + 1);
        assert(next.drop_last() =~= digits.subrange(0, i as int));
        assert(next.last() == text@[i as int]);
        if !byte_is_digit(b) {
            assert(!is_digit(digits[i as int]));
            return None;
        }
        year = year * 10 + (b - 48) as u64;
        if year > 2147483647 {
            proof {
                lemma_decimal_value_prefix(digits, i + 1);
            }
            return None;
        }
        i = i + 1;
    }
    assert(digits.subrange(0, i as int) =~= digits);
    Some((year as i32, month, day))
}

/// Whether a byte is the code of a decimal digit.
fn byte_is_digit(b: u8) -> (digit: bool)
    ensures
        digit == (48 <= b <= 57),
{
    48 <= b && b <= 57
}

/// Whether `date` has exactly the form `YYYY-MM-DD` and names a calendar day
/// with a year in `2000..=9999`.
pub fn is_valid_date_format(date: &str) -> (valid: bool)
    ensures
        valid == spec_is_valid_date_format(date@),
{
    match parse_date(date) {
        Some((year, month, day)) => {
            let ten = date.unicode_len() == 10;
            ten && is_valid_date(year, month, day)
        },
        None => false,
    }
}

/// A text with a character outside ASCII denotes no date.
proof fn lemma_not_ascii_not_date(s: Seq<char>)
    requires
        !is_ascii_chars(s),
    ensures
        parse_date_text(s) is None,
{
    let i = choose|i: int| 0 <= i < s.len() && !('\0' <= #[trigger] s[i] <= '\u{7f}');
    let n = s.len() as int;
    if n >= 10 && i < n - 6 {
        let year = s.subrange(0, n - 6);
        assert(!is_digit(year[i]));
    }
}

} // verus!
