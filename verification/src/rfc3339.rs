use vstd::prelude::*;
use vstd::string::*;

use crate::timestamp::Timestamp;
use crate::timestamp::ts_valid;

verus! {

// The canonical text form of a `Timestamp` is the RFC-3339 string
// `YYYY-MM-DDTHH:MM:SS.mmmZ`: millisecond fraction, explicit UTC offset `Z`,
// 24 characters. Parsing accepts exactly this grammar and nothing else, so
// that formatting and parsing round-trip.
pub open spec fn digit_char(d: int) -> char {
    if d == 0 {
        '0'
    } else if d == 1 {
        '1'
    } else if d == 2 {
        '2'
    } else if d == 3 {
        '3'
    } else if d == 4 {
        '4'
    } else if d == 5 {
        '5'
    } else if d == 6 {
        '6'
    } else if d == 7 {
        '7'
    } else if d == 8 {
        '8'
    } else {
        '9'
    }
}

/// The value of a decimal digit character; 10 for anything that is not one.
pub open spec fn digit_val(c: char) -> int {
    if c == '0' {
        0
    } else if c == '1' {
        1
    } else if c == '2' {
        2
    } else if c == '3' {
        3
    } else if c == '4' {
        4
    } else if c == '5' {
        5
    } else if c == '6' {
        6
    } else if c == '7' {
        7
    } else if c == '8' {
        8
    } else if c == '9' {
        9
    } else {
        10
    }
}

pub open spec fn is_digit(c: char) -> bool {
    digit_val(c) <= 9
}

pub open spec fn spec_format_ts(t: Timestamp) -> Seq<char> {
    seq![
        digit_char(t.year as int / 1000),
        digit_char((t.year as int / 100) % 10),
        digit_char((t.year as int / 10) % 10),
        digit_char(t.year as int % 10),
        '-',
        digit_char(t.month as int / 10),
        digit_char(t.month as int % 10),
        '-',
        digit_char(t.day as int / 10),
        digit_char(t.day as int % 10),
        'T',
        digit_char(t.hour as int / 10),
        digit_char(t.hour as int % 10),
        ':',
        digit_char(t.minute as int / 10),
        digit_char(t.minute as int % 10),
        ':',
        digit_char(t.second as int / 10),
        digit_char(t.second as int % 10),
        '.',
        digit_char(t.millis as int / 100),
        digit_char((t.millis as int / 10) % 10),
        digit_char(t.millis as int % 10),
        'Z',
    ]
}

/// The strict parse: `Some` exactly on the canonical text of a valid
/// timestamp, and then the parsed fields.
pub open spec fn spec_parse_ts(s: Seq<char>) -> Option<Timestamp> {
    if s.len() != 24 {
        None
    } else if !(s[4] == '-' && s[7] == '-' && s[10] == 'T' && s[13] == ':' && s[16] == ':' && s[19]
        == '.' && s[23] == 'Z') {
        None
    } else if !(is_digit(s[0]) && is_digit(s[1]) && is_digit(s[2]) && is_digit(s[3]) && is_digit(
        s[5],
    ) && is_digit(s[6]) && is_digit(s[8]) && is_digit(s[9]) && is_digit(s[11]) && is_digit(s[12])
        && is_digit(s[14]) && is_digit(s[15]) && is_digit(s[17]) && is_digit(s[18]) && is_digit(
        s[20],
    ) && is_digit(s[21]) && is_digit(s[22])) {
        None
    } else {
        let t = Timestamp {
            year: (digit_val(s[0]) * 1000 + digit_val(s[1]) * 100 + digit_val(s[2]) * 10
                + digit_val(s[3])) as u16,
            month: (digit_val(s[5]) * 10 + digit_val(s[6])) as u8,
            day: (digit_val(s[8]) * 10 + digit_val(s[9])) as u8,
            hour: (digit_val(s[11]) * 10 + digit_val(s[12])) as u8,
            minute: (digit_val(s[14]) * 10 + digit_val(s[15])) as u8,
            second: (digit_val(s[17]) * 10 + digit_val(s[18])) as u8,
            millis: (digit_val(s[20]) * 100 + digit_val(s[21]) * 10 + digit_val(s[22])) as u16,
        };
        if ts_valid(t) {
            Some(t)
        } else {
            None
        }
    }
}

pub(crate) fn digit_str(d: u8) -> (r: &'static str)
    requires
        d <= 9,
    ensures
        r@.len() == 1,
        r@[0] == digit_char(d as int),
{
    proof {
        reveal_strlit("0");
        reveal_strlit("1");
        reveal_strlit("2");
        reveal_strlit("3");
        reveal_strlit("4");
        reveal_strlit("5");
        reveal_strlit("6");
        reveal_strlit("7");
        reveal_strlit("8");
        reveal_strlit("9");
    }
    if d == 0 {
        "0"
    } else if d == 1 {
        "1"
    } else if d == 2 {
        "2"
    } else if d == 3 {
        "3"
    } else if d == 4 {
        "4"
    } else if d == 5 {
        "5"
    } else if d == 6 {
        "6"
    } else if d == 7 {
        "7"
    } else if d == 8 {
        "8"
    } else {
        "9"
    }
}

fn char_digit(c: char) -> (r: Option<u8>)
    ensures
        is_digit(c) ==> r == Some(digit_val(c) as u8),
        !is_digit(c) ==> r is None,
{
    if c == '0' {
        Some(0)
    } else if c == '1' {
        Some(1)
    } else if c == '2' {
        Some(2)
    } else if c == '3' {
        Some(3)
    } else if c == '4' {
        Some(4)
    } else if c == '5' {
        Some(5)
    } else if c == '6' {
        Some(6)
    } else if c == '7' {
        Some(7)
    } else if c == '8' {
        Some(8)
    } else if c == '9' {
        Some(9)
    } else {
        None
    }
}

/// Formats `t` in the canonical RFC-3339 form, `YYYY-MM-DDTHH:MM:SS.mmmZ`.
pub fn format_ts(t: &Timestamp) -> (r: String)
    requires
        ts_valid(*t),
    ensures
        r@ == spec_format_ts(*t),
{
    let mut s = String::new();
    s.append(digit_str((t.year / 1000) as u8));
    s.append(digit_str(((t.year / 100) % 10) as u8));
    s.append(digit_str(((t.year / 10) % 10) as u8));
    s.append(digit_str((t.year % 10) as u8));
    s.append("-");
    s.append(digit_str(t.month / 10));
    s.append(digit_str(t.month % 10));
    s.append("-");
    s.append(digit_str(t.day / 10));
    s.append(digit_str(t.day % 10));
    s.append("T");
    s.append(digit_str(t.hour / 10));
    s.append(digit_str(t.hour % 10));
    s.append(":");
    s.append(digit_str(t.minute / 10));
    s.append(digit_str(t.minute % 10));
    s.append(":");
    s.append(digit_str(t.second / 10));
    s.append(digit_str(t.second % 10));
    s.append(".");
    s.append(digit_str((t.millis / 100) as u8));
    s.append(digit_str(((t.millis / 10) % 10) as u8));
    s.append(digit_str((t.millis % 10) as u8));
    s.append("Z");
    proof {
        reveal_strlit("-");
        reveal_strlit("T");
        reveal_strlit(":");
        reveal_strlit(".");
        reveal_strlit("Z");
        assert(s@ =~= spec_format_ts(*t));
    }
    s
}

/// Parses exactly the canonical RFC-3339 form; anything else is `None`.
pub fn parse_ts(s: &str) -> (r: Option<Timestamp>)
    ensures
        r == spec_parse_ts(s@),
        r matches Some(t) ==> ts_valid(t),
{
    let n: usize = s.unicode_len();
    if n != 24 {
        return None;
    }
    if !(s.get_char(4) == '-' && s.get_char(7) == '-' && s.get_char(10) == 'T' && s.get_char(13)
        == ':' && s.get_char(16) == ':' && s.get_char(19) == '.' && s.get_char(23) == 'Z') {
        return None;
    }
    let d0 = char_digit(s.get_char(0));
    let d1 = char_digit(s.get_char(1));
    let d2 = char_digit(s.get_char(2));
    let d3 = char_digit(s.get_char(3));
    let d5 = char_digit(s.get_char(5));
    let d6 = char_digit(s.get_char(6));
    let d8 = char_digit(s.get_char(8));
    let d9 = char_digit(s.get_char(9));
    let d11 = char_digit(s.get_char(11));
    let d12 = char_digit(s.get_char(12));
    let d14 = char_digit(s.get_char(14));
    let d15 = char_digit(s.get_char(15));
    let d17 = char_digit(s.get_char(17));
    let d18 = char_digit(s.get_char(18));
    let d20 = char_digit(s.get_char(20));
    let d21 = char_digit(s.get_char(21));
    let d22 = char_digit(s.get_char(22));
    match (d0, d1, d2, d3, d5, d6, d8, d9, d11, d12, d14, d15, d17, d18, d20, d21, d22) {
        (
            Some(d0),
            Some(d1),
            Some(d2),
            Some(d3),
            Some(d5),
            Some(d6),
            Some(d8),
            Some(d9),
            Some(d11),
            Some(d12),
            Some(d14),
            Some(d15),
            Some(d17),
            Some(d18),
            Some(d20),
            Some(d21),
            Some(d22),
        ) => {
            let t = Timestamp {
                year: (d0 as u16) * 1000 + (d1 as u16) * 100 + (d2 as u16) * 10 + (d3 as u16),
                month: d5 * 10 + d6,
                day: d8 * 10 + d9,
                hour: d11 * 10 + d12,
                minute: d14 * 10 + d15,
                second: d17 * 10 + d18,
                millis: (d20 as u16) * 100 + (d21 as u16) * 10 + (d22 as u16),
            };
            if t.is_valid() {
                Some(t)
            } else {
                None
            }
        },
        _ => None,
    }
}

proof fn lemma_digit_round_trip(d: int)
    requires
        0 <= d <= 9,
    ensures
        digit_val(digit_char(d)) == d,
        is_digit(digit_char(d)),
{
}

/// Parsing the canonical text of a valid timestamp gives that timestamp back.
pub proof fn lemma_parse_format_ts(t: Timestamp)
    requires
        ts_valid(t),
    ensures
        spec_parse_ts(spec_format_ts(t)) == Some(t),
{
    let s = spec_format_ts(t);
    assert(s.len() == 24);
    assert(t.year / 1000 <= 9) by (nonlinear_arith)
        requires
            t.year <= 9999,
    ;
    assert(t.month / 10 <= 9 && t.day / 10 <= 9 && t.hour / 10 <= 9 && t.minute / 10 <= 9
        && t.second / 10 <= 9) by (nonlinear_arith)
        requires
            t.month <= 12 && t.day <= 31 && t.hour <= 23 && t.minute <= 59 && t.second <= 59,
    ;
    assert(t.millis / 100 <= 9) by (nonlinear_arith)
        requires
            t.millis <= 999,
    ;
    lemma_digit_round_trip(t.year as int / 1000);
    lemma_digit_round_trip((t.year as int / 100) % 10);
    lemma_digit_round_trip((t.year as int / 10) % 10);
    lemma_digit_round_trip(t.year as int % 10);
    lemma_digit_round_trip(t.month as int / 10);
    lemma_digit_round_trip(t.month as int % 10);
    lemma_digit_round_trip(t.day as int / 10);
    lemma_digit_round_trip(t.day as int % 10);
    lemma_digit_round_trip(t.hour as int / 10);
    lemma_digit_round_trip(t.hour as int % 10);
    lemma_digit_round_trip(t.minute as int / 10);
    lemma_digit_round_trip(t.minute as int % 10);
    lemma_digit_round_trip(t.second as int / 10);
    lemma_digit_round_trip(t.second as int % 10);
    lemma_digit_round_trip(t.millis as int / 100);
    lemma_digit_round_trip((t.millis as int / 10) % 10);
    lemma_digit_round_trip(t.millis as int % 10);
    lemma_recompose_4(t.year as int);
    lemma_recompose_2(t.month as int);
    lemma_recompose_2(t.day as int);
    lemma_recompose_2(t.hour as int);
    lemma_recompose_2(t.minute as int);
    lemma_recompose_2(t.second as int);
    lemma_recompose_3(t.millis as int);
    assert(spec_parse_ts(s) == Some(t));
}

proof fn lemma_recompose_2(n: int)
    requires
        0 <= n <= 99,
    ensures
        (n / 10) * 10 + n % 10 == n,
{
    assert((n / 10) * 10 + n % 10 == n) by (nonlinear_arith)
        requires
            0 <= n,
    ;
}

proof fn lemma_recompose_3(n: int)
    requires
        0 <= n <= 999,
    ensures
        (n / 100) * 100 + ((n / 10) % 10) * 10 + n % 10 == n,
{
    assert((n / 100) * 100 + ((n / 10) % 10) * 10 + n % 10 == n) by (nonlinear_arith)
        requires
            0 <= n <= 999,
    ;
}

proof fn lemma_recompose_4(n: int)
    requires
        0 <= n <= 9999,
    ensures
        (n / 1000) * 1000 + ((n / 100) % 10) * 100 + ((n / 10) % 10) * 10 + n % 10 == n,
{
    assert((n / 1000) * 1000 + ((n / 100) % 10) * 100 + ((n / 10) % 10) * 10 + n % 10 == n)
        by (nonlinear_arith)
        requires
            0 <= n <= 9999,
    ;
}

proof fn lemma_decompose_2(a: int, b: int)
    requires
        0 <= a <= 9,
        0 <= b <= 9,
    ensures
        (a * 10 + b) / 10 == a,
        (a * 10 + b) % 10 == b,
{
    assert((a * 10 + b) / 10 == a && (a * 10 + b) % 10 == b) by (nonlinear_arith)
        requires
            0 <= a <= 9 && 0 <= b <= 9,
    ;
}

proof fn lemma_decompose_3(a: int, b: int, c: int)
    requires
        0 <= a <= 9,
        0 <= b <= 9,
        0 <= c <= 9,
    ensures
        (a * 100 + b * 10 + c) / 100 == a,
        ((a * 100 + b * 10 + c) / 10) % 10 == b,
        (a * 100 + b * 10 + c) % 10 == c,
{
    assert((a * 100 + b * 10 + c) / 100 == a && ((a * 100 + b * 10 + c) / 10) % 10 == b && (a * 100
        + b * 10 + c) % 10 == c) by (nonlinear_arith)
        requires
            0 <= a <= 9 && 0 <= b <= 9 && 0 <= c <= 9,
    ;
}

proof fn lemma_decompose_4(a: int, b: int, c: int, d: int)
    requires
        0 <= a <= 9,
        0 <= b <= 9,
        0 <= c <= 9,
        0 <= d <= 9,
    ensures
        (a * 1000 + b * 100 + c * 10 + d) / 1000 == a,
        ((a * 1000 + b * 100 + c * 10 + d) / 100) % 10 == b,
        ((a * 1000 + b * 100 + c * 10 + d) / 10) % 10 == c,
        (a * 1000 + b * 100 + c * 10 + d) % 10 == d,
{
    assert((a * 1000 + b * 100 + c * 10 + d) / 1000 == a && ((a * 1000 + b * 100 + c * 10 + d)
        / 100) % 10 == b && ((a * 1000 + b * 100 + c * 10 + d) / 10) % 10 == c && (a * 1000 + b
        * 100 + c * 10 + d) % 10 == d) by (nonlinear_arith)
        requires
            0 <= a <= 9 && 0 <= b <= 9 && 0 <= c <= 9 && 0 <= d <= 9,
    ;
}

/// The strict parse is sound: it accepts only the canonical text of the
/// timestamp it returns.
#[verifier::rlimit(60)]
pub proof fn lemma_format_parse_ts(s: Seq<char>, t: Timestamp)
    requires
        spec_parse_ts(s) == Some(t),
    ensures
        ts_valid(t),
        s == spec_format_ts(t),
{
    lemma_decompose_4(digit_val(s[0]), digit_val(s[1]), digit_val(s[2]), digit_val(s[3]));
    lemma_decompose_2(digit_val(s[5]), digit_val(s[6]));
    lemma_decompose_2(digit_val(s[8]), digit_val(s[9]));
    lemma_decompose_2(digit_val(s[11]), digit_val(s[12]));
    lemma_decompose_2(digit_val(s[14]), digit_val(s[15]));
    lemma_decompose_2(digit_val(s[17]), digit_val(s[18]));
    lemma_decompose_3(digit_val(s[20]), digit_val(s[21]), digit_val(s[22]));
    assert(t.year as int / 1000 == digit_val(s[0]) && (t.year as int / 100) % 10 == digit_val(
        s[1],
    ) && (t.year as int / 10) % 10 == digit_val(s[2]) && t.year as int % 10 == digit_val(s[3]));
    assert(t.month as int / 10 == digit_val(s[5]) && t.month as int % 10 == digit_val(s[6]));
    assert(t.day as int / 10 == digit_val(s[8]) && t.day as int % 10 == digit_val(s[9]));
    assert(t.hour as int / 10 == digit_val(s[11]) && t.hour as int % 10 == digit_val(s[12]));
    assert(t.minute as int / 10 == digit_val(s[14]) && t.minute as int % 10 == digit_val(s[15]));
    assert(t.second as int / 10 == digit_val(s[17]) && t.second as int % 10 == digit_val(s[18]));
    assert(t.millis as int / 100 == digit_val(s[20]) && (t.millis as int / 10) % 10 == digit_val(
        s[21],
    ) && t.millis as int % 10 == digit_val(s[22]));
    assert(digit_char(digit_val(s[0])) == s[0] && digit_char(digit_val(s[1])) == s[1]
        && digit_char(digit_val(s[2])) == s[2] && digit_char(digit_val(s[3])) == s[3]);
    assert(digit_char(digit_val(s[5])) == s[5] && digit_char(digit_val(s[6])) == s[6]);
    assert(digit_char(digit_val(s[8])) == s[8] && digit_char(digit_val(s[9])) == s[9]);
    assert(digit_char(digit_val(s[11])) == s[11] && digit_char(digit_val(s[12])) == s[12]);
    assert(digit_char(digit_val(s[14])) == s[14] && digit_char(digit_val(s[15])) == s[15]);
    assert(digit_char(digit_val(s[17])) == s[17] && digit_char(digit_val(s[18])) == s[18]);
    assert(digit_char(digit_val(s[20])) == s[20] && digit_char(digit_val(s[21])) == s[21]
        && digit_char(digit_val(s[22])) == s[22]);
    assert(s =~= spec_format_ts(t));
}

} // verus!
