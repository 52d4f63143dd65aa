use vstd::prelude::*;
use vstd::string::*;

use crate::rfc3339::is_digit;

verus! {

// A scanner for the JSON value grammar, used by the record decoder to walk
// an arbitrary JSON object: whitespace, strings with escapes, numbers, and
// nested values it only needs to step over. Each function returns the
// position after the construct, or `None` where the text is not JSON.
//
// The `step_past` / `step_from` guards below only clamp positions so that
// every recursion is visibly well founded; a successful sub-parse always
// moves past the clamp, so they change nothing on any reachable path (see
// `lemma_ws_end_bounds`).
pub open spec fn is_ws(c: char) -> bool {
    c == ' ' || c == '\t' || c == '\n' || c == '\r'
}

/// The position of the first non-whitespace character at or after `at`.
pub open spec fn spec_ws_end(s: Seq<char>, at: int) -> int
    decreases s.len() - at,
{
    if 0 <= at < s.len() && is_ws(s[at]) {
        spec_ws_end(s, at + 1)
    } else {
        at
    }
}

pub open spec fn is_simple_escape(c: char) -> bool {
    c == '"' || c == '\\' || c == '/' || c == 'b' || c == 'f' || c == 'n' || c == 'r' || c == 't'
}

pub open spec fn is_hex_digit(c: char) -> bool {
    is_digit(c) || c == 'a' || c == 'b' || c == 'c' || c == 'd' || c == 'e' || c == 'f' || c == 'A'
        || c == 'B' || c == 'C' || c == 'D' || c == 'E' || c == 'F'
}

/// Scans the body of a string, `at` standing just after the opening quote;
/// yields the position after the closing quote.
pub open spec fn spec_string_rest(s: Seq<char>, at: int) -> Option<int>
    decreases s.len() - at,
{
    if !(0 <= at < s.len()) {
        None
    } else if s[at] == '"' {
        Some(at + 1)
    } else if s[at] == '\\' {
        if at + 2 <= s.len() && is_simple_escape(s[at + 1]) {
            spec_string_rest(s, at + 2)
        } else if at + 6 <= s.len() && s[at + 1] == 'u' && is_hex_digit(s[at + 2]) && is_hex_digit(
            s[at + 3],
        ) && is_hex_digit(s[at + 4]) && is_hex_digit(s[at + 5]) {
            spec_string_rest(s, at + 6)
        } else {
            None
        }
    } else {
        spec_string_rest(s, at + 1)
    }
}

/// The position after the run of decimal digits starting at `at`.
pub open spec fn spec_digits_end(s: Seq<char>, at: int) -> int
    decreases s.len() - at,
{
    if 0 <= at < s.len() && is_digit(s[at]) {
        spec_digits_end(s, at + 1)
    } else {
        at
    }
}

/// The optional exponent part of a number.
pub open spec fn spec_number_exp(s: Seq<char>, at: int) -> Option<int> {
    if 0 <= at < s.len() && (s[at] == 'e' || s[at] == 'E') {
        let a1: int = if at + 1 < s.len() && (s[at + 1] == '+' || s[at + 1] == '-') {
            at + 2
        } else {
            at + 1
        };
        if 0 <= a1 < s.len() && is_digit(s[a1]) {
            Some(spec_digits_end(s, a1))
        } else {
            None
        }
    } else {
        Some(at)
    }
}

/// A JSON number: optional minus, an integer part without leading zeros,
/// optional fraction, optional exponent.
pub open spec fn spec_number_end(s: Seq<char>, at: int) -> Option<int> {
    let ai: int = if 0 <= at < s.len() && s[at] == '-' {
        at + 1
    } else {
        at
    };
    if !(0 <= ai < s.len() && is_digit(s[ai])) {
        None
    } else {
        let a_int: int = if s[ai] == '0' {
            ai + 1
        } else {
            spec_digits_end(s, ai)
        };
        if a_int < s.len() && s[a_int] == '.' {
            if a_int + 1 < s.len() && is_digit(s[a_int + 1]) {
                spec_number_exp(s, spec_digits_end(s, a_int + 1))
            } else {
                None
            }
        } else {
            spec_number_exp(s, a_int)
        }
    }
}

/// `pos` if it lies strictly past `at` and within the text, else the next
/// position: keeps the recursions below well founded and is inert on every
/// reachable path.
pub open spec fn step_past(s: Seq<char>, at: int, pos: int) -> int {
    if at < pos <= s.len() {
        pos
    } else {
        at + 1
    }
}

/// `pos` if it lies at or past `at` and within the text, else `at`.
pub open spec fn step_from(s: Seq<char>, at: int, pos: int) -> int {
    if at <= pos <= s.len() {
        pos
    } else {
        at
    }
}

/// The position after one JSON value starting at `at`.
pub open spec fn spec_value_end(s: Seq<char>, at: int) -> Option<int>
    decreases s.len() - at, 0int,
{
    if !(0 <= at < s.len()) {
        None
    } else if s[at] == '"' {
        spec_string_rest(s, at + 1)
    } else if s[at] == '{' {
        spec_object_rest(s, step_past(s, at, spec_ws_end(s, at + 1)))
    } else if s[at] == '[' {
        spec_array_rest(s, step_past(s, at, spec_ws_end(s, at + 1)))
    } else if at + 4 <= s.len() && s.subrange(at, at + 4) == "null"@ {
        Some(at + 4)
    } else if at + 4 <= s.len() && s.subrange(at, at + 4) == "true"@ {
        Some(at + 4)
    } else if at + 5 <= s.len() && s.subrange(at, at + 5) == "false"@ {
        Some(at + 5)
    } else {
        spec_number_end(s, at)
    }
}

/// The position after the members of an object, `at` standing at the first
/// member's key or at the closing brace.
pub open spec fn spec_object_rest(s: Seq<char>, at: int) -> Option<int>
    decreases s.len() - at, 1int,
{
    if !(0 <= at < s.len()) {
        None
    } else if s[at] == '}' {
        Some(at + 1)
    } else if s[at] != '"' {
        None
    } else {
        match spec_string_rest(s, at + 1) {
            None => None,
            Some(k) => {
                let c: int = spec_ws_end(s, step_from(s, at, k));
                if !(0 <= c < s.len() && s[c] == ':') {
                    None
                } else {
                    match spec_value_end(s, step_from(s, at, spec_ws_end(s, c + 1))) {
                        None => None,
                        Some(ve) => {
                            let e: int = spec_ws_end(s, step_from(s, at, ve));
                            if 0 <= e < s.len() && s[e] == ',' {
                                let m2: int = spec_ws_end(s, e + 1);
                                if 0 <= m2 < s.len() && s[m2] != '}' {
                                    spec_object_rest(s, step_past(s, at, m2))
                                } else {
                                    None
                                }
                            } else if 0 <= e < s.len() && s[e] == '}' {
                                Some(e + 1)
                            } else {
                                None
                            }
                        },
                    }
                }
            },
        }
    }
}

/// The position after the elements of an array, `at` standing at the first
/// element or at the closing bracket.
pub open spec fn spec_array_rest(s: Seq<char>, at: int) -> Option<int>
    decreases s.len() - at, 1int,
{
    if !(0 <= at < s.len()) {
        None
    } else if s[at] == ']' {
        Some(at + 1)
    } else {
        match spec_value_end(s, at) {
            None => None,
            Some(ve) => {
                let e: int = spec_ws_end(s, step_from(s, at, ve));
                if 0 <= e < s.len() && s[e] == ',' {
                    let m2: int = spec_ws_end(s, e + 1);
                    if 0 <= m2 < s.len() && s[m2] != ']' {
                        spec_array_rest(s, step_past(s, at, m2))
                    } else {
                        None
                    }
                } else if 0 <= e < s.len() && s[e] == ']' {
                    Some(e + 1)
                } else {
                    None
                }
            },
        }
    }
}

/// Whitespace scanning never moves backwards and stays within the text.
pub proof fn lemma_ws_end_bounds(s: Seq<char>, at: int)
    requires
        0 <= at <= s.len(),
    ensures
        at <= spec_ws_end(s, at) <= s.len(),
    decreases s.len() - at,
{
    if at < s.len() && is_ws(s[at]) {
        lemma_ws_end_bounds(s, at + 1);
    }
}

pub(crate) fn is_ws_char(c: char) -> (r: bool)
    ensures
        r == is_ws(c),
{
    c == ' ' || c == '\t' || c == '\n' || c == '\r'
}

fn is_simple_escape_char(c: char) -> (r: bool)
    ensures
        r == is_simple_escape(c),
{
    c == '"' || c == '\\' || c == '/' || c == 'b' || c == 'f' || c == 'n' || c == 'r' || c == 't'
}

fn is_digit_char(c: char) -> (r: bool)
    ensures
        r == is_digit(c),
{
    c == '0' || c == '1' || c == '2' || c == '3' || c == '4' || c == '5' || c == '6' || c == '7'
        || c == '8' || c == '9'
}

fn is_hex_digit_char(c: char) -> (r: bool)
    ensures
        r == is_hex_digit(c),
{
    is_digit_char(c) || c == 'a' || c == 'b' || c == 'c' || c == 'd' || c == 'e' || c == 'f' || c
        == 'A' || c == 'B' || c == 'C' || c == 'D' || c == 'E' || c == 'F'
}

pub(crate) fn ws_end(s: &str, n: usize, at: usize) -> (r: usize)
    requires
        n == s@.len(),
        at <= n,
    ensures
        r == spec_ws_end(s@, at as int),
        at <= r <= n,
    decreases n - at,
{
    if at < n && is_ws_char(s.get_char(at)) {
        ws_end(s, n, at + 1)
    } else {
        at
    }
}

pub(crate) fn string_rest(s: &str, n: usize, at: usize) -> (r: Option<usize>)
    requires
        n == s@.len(),
        at <= n,
    ensures
        match r {
            Some(k) => spec_string_rest(s@, at as int) == Some(k as int) && k <= n,
            None => spec_string_rest(s@, at as int) is None,
        },
    decreases n - at,
{
    if at >= n {
        return None;
    }
    let c = s.get_char(at);
    if c == '"' {
        Some(at + 1)
    } else if c == '\\' {
        if n - at >= 2 && is_simple_escape_char(s.get_char(at + 1)) {
            string_rest(s, n, at + 2)
        } else if n - at >= 6 && s.get_char(at + 1) == 'u' && is_hex_digit_char(s.get_char(at + 2))
            && is_hex_digit_char(s.get_char(at + 3)) && is_hex_digit_char(s.get_char(at + 4))
            && is_hex_digit_char(s.get_char(at + 5)) {
            string_rest(s, n, at + 6)
        } else {
            None
        }
    } else {
        string_rest(s, n, at + 1)
    }
}

pub(crate) fn digits_end(s: &str, n: usize, at: usize) -> (r: usize)
    requires
        n == s@.len(),
        at <= n,
    ensures
        r == spec_digits_end(s@, at as int),
        at <= r <= n,
    decreases n - at,
{
    if at < n && is_digit_char(s.get_char(at)) {
        digits_end(s, n, at + 1)
    } else {
        at
    }
}

fn number_exp(s: &str, n: usize, at: usize) -> (r: Option<usize>)
    requires
        n == s@.len(),
        at <= n,
    ensures
        match r {
            Some(k) => spec_number_exp(s@, at as int) == Some(k as int) && k <= n,
            None => spec_number_exp(s@, at as int) is None,
        },
{
    if at < n && (s.get_char(at) == 'e' || s.get_char(at) == 'E') {
        let a1: usize = if at + 1 < n && (s.get_char(at + 1) == '+' || s.get_char(at + 1) == '-') {
            at + 2
        } else {
            at + 1
        };
        if a1 < n && is_digit_char(s.get_char(a1)) {
            Some(digits_end(s, n, a1))
        } else {
            None
        }
    } else {
        Some(at)
    }
}

pub(crate) fn number_end(s: &str, n: usize, at: usize) -> (r: Option<usize>)
    requires
        n == s@.len(),
        at <= n,
    ensures
        match r {
            Some(k) => spec_number_end(s@, at as int) == Some(k as int) && k <= n,
            None => spec_number_end(s@, at as int) is None,
        },
{
    let ai: usize = if at < n && s.get_char(at) == '-' {
        at + 1
    } else {
        at
    };
    if !(ai < n && is_digit_char(s.get_char(ai))) {
        None
    } else {
        let a_int: usize = if s.get_char(ai) == '0' {
            ai + 1
        } else {
            digits_end(s, n, ai)
        };
        if a_int < n && s.get_char(a_int) == '.' {
            if a_int + 1 < n && is_digit_char(s.get_char(a_int + 1)) {
                number_exp(s, n, digits_end(s, n, a_int + 1))
            } else {
                None
            }
        } else {
            number_exp(s, n, a_int)
        }
    }
}

pub(crate) fn value_end(s: &str, n: usize, at: usize) -> (r: Option<usize>)
    requires
        n == s@.len(),
        at <= n,
    ensures
        match r {
            Some(k) => spec_value_end(s@, at as int) == Some(k as int) && k <= n,
            None => spec_value_end(s@, at as int) is None,
        },
    decreases n - at, 0int,
{
    if at >= n {
        return None;
    }
    let c = s.get_char(at);
    if c == '"' {
        string_rest(s, n, at + 1)
    } else if c == '{' {
        let w: usize = ws_end(s, n, at + 1);
        let next: usize = if w > at {
            w
        } else {
            at + 1
        };
        object_rest(s, n, next)
    } else if c == '[' {
        let w: usize = ws_end(s, n, at + 1);
        let next: usize = if w > at {
            w
        } else {
            at + 1
        };
        array_rest(s, n, next)
    } else {
        proof {
            reveal_strlit("null");
            reveal_strlit("true");
            reveal_strlit("false");
        }
        if n - at >= 4 && crate::codec::has_at(s, n, at, "null", 4) {
            Some(at + 4)
        } else if n - at >= 4 && crate::codec::has_at(s, n, at, "true", 4) {
            Some(at + 4)
        } else if n - at >= 5 && crate::codec::has_at(s, n, at, "false", 5) {
            Some(at + 5)
        } else {
            number_end(s, n, at)
        }
    }
}

pub(crate) fn object_rest(s: &str, n: usize, at: usize) -> (r: Option<usize>)
    requires
        n == s@.len(),
        at <= n,
    ensures
        match r {
            Some(k) => spec_object_rest(s@, at as int) == Some(k as int) && k <= n,
            None => spec_object_rest(s@, at as int) is None,
        },
    decreases n - at, 1int,
{
    if at >= n {
        return None;
    }
    if s.get_char(at) == '}' {
        return Some(at + 1);
    }
    if s.get_char(at) != '"' {
        return None;
    }
    match string_rest(s, n, at + 1) {
        None => None,
        Some(k) => {
            let kk: usize = if k >= at {
                k
            } else {
                at
            };
            let c: usize = ws_end(s, n, kk);
            if !(c < n && s.get_char(c) == ':') {
                return None;
            }
            let w: usize = ws_end(s, n, c + 1);
            let v: usize = if w >= at {
                w
            } else {
                at
            };
            match value_end(s, n, v) {
                None => None,
                Some(ve) => {
                    let vv: usize = if ve >= at {
                        ve
                    } else {
                        at
                    };
                    let e: usize = ws_end(s, n, vv);
                    if e < n && s.get_char(e) == ',' {
                        let w2: usize = ws_end(s, n, e + 1);
                        if !(w2 < n && s.get_char(w2) != '}') {
                            return None;
                        }
                        let next: usize = if w2 > at {
                            w2
                        } else {
                            at + 1
                        };
                        object_rest(s, n, next)
                    } else if e < n && s.get_char(e) == '}' {
                        Some(e + 1)
                    } else {
                        None
                    }
                },
            }
        },
    }
}

pub(crate) fn array_rest(s: &str, n: usize, at: usize) -> (r: Option<usize>)
    requires
        n == s@.len(),
        at <= n,
    ensures
        match r {
            Some(k) => spec_array_rest(s@, at as int) == Some(k as int) && k <= n,
            None => spec_array_rest(s@, at as int) is None,
        },
    decreases n - at, 1int,
{
    if at >= n {
        return None;
    }
    if s.get_char(at) == ']' {
        return Some(at + 1);
    }
    match value_end(s, n, at) {
        None => None,
        Some(ve) => {
            let vv: usize = if ve >= at {
                ve
            } else {
                at
            };
            let e: usize = ws_end(s, n, vv);
            if e < n && s.get_char(e) == ',' {
                let w2: usize = ws_end(s, n, e + 1);
                if !(w2 < n && s.get_char(w2) != ']') {
                    return None;
                }
                let next: usize = if w2 > at {
                    w2
                } else {
                    at + 1
                };
                array_rest(s, n, next)
            } else if e < n && s.get_char(e) == ']' {
                Some(e + 1)
            } else {
                None
            }
        },
    }
}

} // verus!
