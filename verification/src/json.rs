//! The serialized card format: a UTF-8 JSON array of card objects.
//!
//! Each object holds `prompt` and `response` strings and the four counts;
//! `reverse_hits` and `reverse_misses` may be absent or `null`, which both
//! mean 0, and unknown members are ignored. The grammar is written out as
//! spec functions over character sequences; the executable parser is proved
//! to return exactly what the grammar says, so a malformed text is rejected
//! as a whole and can never half-apply.

use vstd::prelude::*;
use vstd::string::StringExecFns;

use crate::card::Card;

verus! {

/// JSON insignificant whitespace.
pub open spec fn is_ws(c: char) -> bool {
    c == ' ' || c == '\t' || c == '\n' || c == '\r'
}

/// The first position at or after `i` that holds no whitespace.
pub open spec fn skip_ws(s: Seq<char>, i: int) -> int
    decreases s.len() - i,
{
    if 0 <= i < s.len() && is_ws(s[i]) {
        skip_ws(s, i + 1)
    } else {
        i
    }
}

pub proof fn lemma_skip_ws_bounds(s: Seq<char>, i: int)
    requires
        0 <= i <= s.len(),
    ensures
        i <= skip_ws(s, i) <= s.len(),
    decreases s.len() - i,
{
    if i < s.len() && is_ws(s[i]) {
        lemma_skip_ws_bounds(s, i + 1);
    }
}

/// Advances past whitespace.
pub fn ws_to(s: &Vec<char>, i: usize) -> (j: usize)
    requires
        i <= s@.len(),
    ensures
        j == skip_ws(s@, i as int),
        i <= j <= s@.len(),
{
    let mut j = i;
    while j < s.len() && (s[j] == ' ' || s[j] == '\t' || s[j] == '\n' || s[j]
        == '\r')
        invariant
            i <= j <= s@.len(),
            skip_ws(s@, i as int) == skip_ws(s@, j as int),
        decreases s@.len() - j,
    {
        j = j + 1;
    }
    j
}

/// A decimal digit's value, or 10 for any other character.
pub open spec fn digit_val(c: char) -> int {
    if 0x30 <= c as u32 <= 0x39 {
        c as u32 - 0x30
    } else {
        10
    }
}

pub open spec fn is_digit(c: char) -> bool {
    digit_val(c) < 10
}

/// The end of the digit run starting at `i`.
pub open spec fn digits_end(s: Seq<char>, i: int) -> int
    decreases s.len() - i,
{
    if 0 <= i < s.len() && is_digit(s[i]) {
        digits_end(s, i + 1)
    } else {
        i
    }
}

pub proof fn lemma_digits_end_bounds(s: Seq<char>, i: int)
    requires
        0 <= i <= s.len(),
    ensures
        i <= digits_end(s, i) <= s.len(),
    decreases s.len() - i,
{
    if i < s.len() && is_digit(s[i]) {
        lemma_digits_end_bounds(s, i + 1);
    }
}

/// The value of the digit run `s[i..j)`, folded from the left.
pub open spec fn digits_value(s: Seq<char>, i: int, j: int) -> int
    decreases j - i,
{
    if i >= j {
        0
    } else {
        digits_value(s, i, j - 1) * 10 + digit_val(s[j - 1])
    }
}

/// An unsigned count: JSON integer syntax (no leading zero), at most ten
/// digits, value at most the count type's ceiling.
pub open spec fn spec_parse_count(s: Seq<char>, i: int) -> Option<(u32, int)> {
    if 0 <= i < s.len() && is_digit(s[i]) {
        let e = digits_end(s, i);
        if s[i] == '0' && e > i + 1 {
            None
        } else if e - i > 10 {
            None
        } else {
            let v = digits_value(s, i, e);
            if v > 0xFFFF_FFFF {
                None
            } else {
                Some((v as u32, e))
            }
        }
    } else {
        None
    }
}

/// The value of a digit run is non-negative and below `10^(its length)`;
/// in particular ten digits stay below `10^10`, which fits the word the
/// parser accumulates in.
pub proof fn lemma_digits_value_bound(s: Seq<char>, i: int, j: int)
    requires
        i <= j,
        forall|k: int| i <= k < j ==> is_digit(#[trigger] s[k]),
    ensures
        0 <= digits_value(s, i, j) < pow10((j - i) as nat),
    decreases j - i,
{
    if i < j {
        lemma_digits_value_bound(s, i, j - 1);
        assert(digits_value(s, i, j - 1) * 10 + 10 <= pow10((j - i - 1) as nat) * 10) by (nonlinear_arith)
            requires
                digits_value(s, i, j - 1) < pow10((j - i - 1) as nat),
        ;
    }
}

/// Powers of ten.
pub open spec fn pow10(k: nat) -> int
    decreases k,
{
    if k == 0 {
        1
    } else {
        10 * pow10((k - 1) as nat)
    }
}

/// Reads an unsigned count at `i`.
pub fn parse_count_at(s: &Vec<char>, i: usize) -> (r: Option<(u32, usize)>)
    requires
        i <= s@.len(),
    ensures
        match spec_parse_count(s@, i as int) {
            Some((v, e)) => r == Some((v, e as usize)),
            None => r is None,
        },
{
    if i >= s.len() || (s[i] as u32) < 0x30 || (s[i] as u32) > 0x39 {
        return None;
    }
    let mut j = i;
    let mut acc: u64 = 0;
    let mut overlong = false;
    while j < s.len() && (s[j] as u32) >= 0x30 && (s[j] as u32) <= 0x39
        invariant
            i <= j <= s@.len(),
            digits_end(s@, i as int) == digits_end(s@, j as int),
            forall|k: int| i <= k < j ==> is_digit(#[trigger] s@[k]),
            !overlong ==> j - i <= 10 && acc == digits_value(s@, i as int, j as int),
            overlong ==> j - i > 10,
            acc <= 0x2_540B_E3FF,
        decreases s@.len() - j,
    {
        if j - i >= 10 {
            overlong = true;
        }
        if !overlong {
            proof {
                lemma_digits_value_bound(s@, i as int, j as int + 1);
                lemma_pow10_mono((j + 1 - i) as nat, 10);
                assert(pow10(10) == 10_000_000_000) by {
                    reveal_with_fuel(pow10, 11);
                }
            }
            acc = acc * 10 + ((s[j] as u32) as u64 - 0x30);
        }
        j = j + 1;
    }
    proof {
        lemma_digits_end_bounds(s@, j as int);
        assert(digits_end(s@, j as int) == j);
    }
    if overlong {
        return None;
    }
    if s[i] == '0' && j > i + 1 {
        return None;
    }
    if acc > 0xFFFF_FFFF {
        return None;
    }
    Some((acc as u32, j))
}

/// A hexadecimal digit's value, or 16 for any other character.
pub open spec fn hex_val(c: char) -> int {
    if 0x30 <= c as u32 <= 0x39 {
        c as u32 - 0x30
    } else if 0x41 <= c as u32 <= 0x46 {
        c as u32 - 0x41 + 10
    } else if 0x61 <= c as u32 <= 0x66 {
        c as u32 - 0x61 + 10
    } else {
        16
    }
}

pub open spec fn is_hex(c: char) -> bool {
    hex_val(c) < 16
}

/// The value of the four hexadecimal digits at `i`, if they are there.
pub open spec fn spec_hex4(s: Seq<char>, i: int) -> Option<u32> {
    if 0 <= i && i + 4 <= s.len() && is_hex(s[i]) && is_hex(s[i + 1]) && is_hex(s[i + 2]) && is_hex(
        s[i + 3],
    ) {
        Some(
            (hex_val(s[i]) * 0x1000 + hex_val(s[i + 1]) * 0x100 + hex_val(s[i + 2]) * 0x10
                + hex_val(s[i + 3])) as u32,
        )
    } else {
        None
    }
}

/// One hexadecimal digit's value, if it is one.
fn hex_digit_at(s: &Vec<char>, i: usize) -> (r: Option<u32>)
    requires
        i < s@.len(),
    ensures
        is_hex(s@[i as int]) ==> r == Some(hex_val(s@[i as int]) as u32),
        !is_hex(s@[i as int]) ==> r is None,
{
    let u = s[i] as u32;
    if 0x30 <= u && u <= 0x39 {
        Some(u - 0x30)
    } else if 0x41 <= u && u <= 0x46 {
        Some(u - 0x41 + 10)
    } else if 0x61 <= u && u <= 0x66 {
        Some(u - 0x61 + 10)
    } else {
        None
    }
}

/// Reads four hexadecimal digits at `i`.
fn hex4_at(s: &Vec<char>, i: usize) -> (r: Option<u32>)
    requires
        i <= s@.len(),
    ensures
        r == spec_hex4(s@, i as int),
{
    if s.len() - i < 4 {
        return None;
    }
    let d0 = hex_digit_at(s, i);
    let d1 = hex_digit_at(s, i + 1);
    let d2 = hex_digit_at(s, i + 2);
    let d3 = hex_digit_at(s, i + 3);
    match (d0, d1, d2, d3) {
        (Some(a), Some(b), Some(c), Some(d)) => Some(a * 0x1000 + b * 0x100 + c * 0x10 + d),
        _ => None,
    }
}

/// A string escape at `i` (which holds the backslash): the character it
/// denotes and the position after it. A high surrogate must be followed by
/// a low-surrogate escape; the pair denotes one supplementary character.
pub open spec fn spec_parse_escape(s: Seq<char>, i: int) -> Option<(char, int)> {
    if i < 0 || i + 2 > s.len() {
        None
    } else {
        let e = s[i + 1];
        if e == '"' {
            Some(('"', i + 2))
        } else if e == '\\' {
            Some(('\\', i + 2))
        } else if e == '/' {
            Some(('/', i + 2))
        } else if e == 'b' {
            Some(('\u{8}', i + 2))
        } else if e == 'f' {
            Some(('\u{c}', i + 2))
        } else if e == 'n' {
            Some(('\n', i + 2))
        } else if e == 'r' {
            Some(('\r', i + 2))
        } else if e == 't' {
            Some(('\t', i + 2))
        } else if e == 'u' {
            match spec_hex4(s, i + 2) {
                None => None,
                Some(v1) => if 0xD800 <= v1 < 0xDC00 {
                    if i + 12 <= s.len() && s[i + 6] == '\\' && s[i + 7] == 'u' {
                        match spec_hex4(s, i + 8) {
                            None => None,
                            Some(v2) => if 0xDC00 <= v2 < 0xE000 {
                                Some(
                                    (
                                        ((0x10000 + (v1 - 0xD800) * 0x400 + (v2
                                            - 0xDC00)) as u32) as char,
                                        i + 12,
                                    ),
                                )
                            } else {
                                None
                            },
                        }
                    } else {
                        None
                    }
                } else if 0xDC00 <= v1 < 0xE000 {
                    None
                } else {
                    Some(((v1 as u32) as char, i + 6))
                },
            }
        } else {
            None
        }
    }
}

pub proof fn lemma_escape_bounds(s: Seq<char>, i: int)
    requires
        0 <= i,
        spec_parse_escape(s, i) is Some,
    ensures
        i + 2 <= spec_parse_escape(s, i)->Some_0.1 <= s.len(),
{
}

/// Reads the escape at `i`.
fn parse_escape_at(s: &Vec<char>, i: usize) -> (r: Option<(char, usize)>)
    requires
        i <= s@.len(),
    ensures
        match spec_parse_escape(s@, i as int) {
            Some((c, j)) => r == Some((c, j as usize)),
            None => r is None,
        },
{
    if s.len() - i < 2 {
        return None;
    }
    let e = s[i + 1];
    if e == '"' {
        Some(('"', i + 2))
    } else if e == '\\' {
        Some(('\\', i + 2))
    } else if e == '/' {
        Some(('/', i + 2))
    } else if e == 'b' {
        Some(('\u{8}', i + 2))
    } else if e == 'f' {
        Some(('\u{c}', i + 2))
    } else if e == 'n' {
        Some(('\n', i + 2))
    } else if e == 'r' {
        Some(('\r', i + 2))
    } else if e == 't' {
        Some(('\t', i + 2))
    } else if e == 'u' {
        match hex4_at(s, i + 2) {
            None => None,
            Some(v1) => {
                if 0xD800 <= v1 && v1 < 0xDC00 {
                    if s.len() - i >= 12 && s[i + 6] == '\\' && s[i + 7] == 'u' {
                        match hex4_at(s, i + 8) {
                            None => None,
                            Some(v2) => {
                                if 0xDC00 <= v2 && v2 < 0xE000 {
                                    let scalar: u32 = 0x10000 + (v1 - 0xD800) * 0x400 + (v2
                                        - 0xDC00);
                                    match crate::text::char_from_u32(scalar) {
                                        Some(c) => Some((c, i + 12)),
                                        None => {
                                            proof {
                                                assert(false);
                                            }
                                            None
                                        },
                                    }
                                } else {
                                    None
                                }
                            },
                        }
                    } else {
                        None
                    }
                } else if 0xDC00 <= v1 && v1 < 0xE000 {
                    None
                } else {
                    match crate::text::char_from_u32(v1) {
                        Some(c) => Some((c, i + 6)),
                        None => {
                            proof {
                                assert(false);
                            }
                            None
                        },
                    }
                }
            },
        }
    } else {
        None
    }
}

/// The body of a string from position `i` (just after the opening quote):
/// its decoded content and the position after the closing quote. Raw
/// control characters are not allowed.
pub open spec fn spec_parse_string_rest(s: Seq<char>, i: int) -> Option<(Seq<char>, int)>
    decreases s.len() - i,
{
    if i < 0 || i >= s.len() {
        None
    } else {
        let c = s[i];
        if c == '"' {
            Some((Seq::<char>::empty(), i + 1))
        } else if c == '\\' {
            match spec_parse_escape(s, i) {
                None => None,
                Some((ec, j)) => if j <= i || j > s.len() {
                    None
                } else {
                    match spec_parse_string_rest(s, j) {
                        None => None,
                        Some((rest, e)) => Some((seq![ec] + rest, e)),
                    }
                },
            }
        } else if (c as u32) < 0x20 {
            None
        } else {
            match spec_parse_string_rest(s, i + 1) {
                None => None,
                Some((rest, e)) => Some((seq![c] + rest, e)),
            }
        }
    }
}

pub proof fn lemma_string_rest_bounds(s: Seq<char>, i: int)
    requires
        0 <= i,
        spec_parse_string_rest(s, i) is Some,
    ensures
        i < spec_parse_string_rest(s, i)->Some_0.1 <= s.len(),
    decreases s.len() - i,
{
    if i < s.len() {
        let c = s[i];
        if c == '\\' {
            match spec_parse_escape(s, i) {
                None => {},
                Some((ec, j)) => {
                    if i < j <= s.len() {
                        lemma_string_rest_bounds(s, j);
                    }
                },
            }
        } else if c != '"' && (c as u32) >= 0x20 {
            lemma_string_rest_bounds(s, i + 1);
        }
    }
}

/// Reads a string body at `i` (just after the opening quote), decoding
/// escapes.
pub fn parse_string_at(s: &Vec<char>, i: usize) -> (r: Option<(Vec<char>, usize)>)
    requires
        i <= s@.len(),
    ensures
        match spec_parse_string_rest(s@, i as int) {
            Some((content, e)) => r matches Some(p) && p.0@ == content && p.1 == e,
            None => r is None,
        },
{
    let mut acc: Vec<char> = Vec::new();
    let mut j = i;
    loop
        invariant
            i <= j <= s@.len(),
            match spec_parse_string_rest(s@, j as int) {
                Some((rest, e)) => spec_parse_string_rest(s@, i as int) == Some(
                    (acc@ + rest, e),
                ),
                None => spec_parse_string_rest(s@, i as int) is None,
            },
        decreases s@.len() - j,
    {
        if j >= s.len() {
            return None;
        }
        let c = s[j];
        if c == '"' {
            proof {
                assert(acc@ + Seq::<char>::empty() =~= acc@);
            }
            return Some((acc, j + 1));
        } else if c == '\\' {
            match parse_escape_at(s, j) {
                None => {
                    return None;
                },
                Some((ec, j2)) => {
                    proof {
                        lemma_escape_bounds(s@, j as int);
                        match spec_parse_string_rest(s@, j2 as int) {
                            Some((rest2, e2)) => {
                                assert(acc@ + (seq![ec] + rest2) =~= (acc@ + seq![ec]) + rest2);
                            },
                            None => {},
                        }
                    }
                    acc.push(ec);
                    j = j2;
                },
            }
        } else if (c as u32) < 0x20 {
            return None;
        } else {
            proof {
                match spec_parse_string_rest(s@, j as int + 1) {
                    Some((rest2, e2)) => {
                        assert(acc@ + (seq![c] + rest2) =~= (acc@ + seq![c]) + rest2);
                    },
                    None => {},
                }
            }
            acc.push(c);
            j = j + 1;
        }
    }
}

proof fn lemma_pow10_mono(a: nat, b: nat)
    requires
        a <= b,
    ensures
        pow10(a) <= pow10(b),
        pow10(a) >= 1,
    decreases b,
{
    if a < b {
        lemma_pow10_mono(a, (b - 1) as nat);
        assert(pow10(b) == 10 * pow10((b - 1) as nat));
    } else if b > 0 {
        lemma_pow10_mono((a - 1) as nat, (b - 1) as nat);
    }
}

/// The end of a fraction part at `i`, if a well-formed one starts there;
/// `i` itself when none does.
pub open spec fn skip_frac(s: Seq<char>, i: int) -> Option<int> {
    if 0 <= i < s.len() && s[i] == '.' {
        if i + 1 < s.len() && is_digit(s[i + 1]) {
            Some(digits_end(s, i + 1))
        } else {
            None
        }
    } else {
        Some(i)
    }
}

/// The end of an exponent part at `i`, if a well-formed one starts there;
/// `i` itself when none does.
pub open spec fn skip_exp(s: Seq<char>, i: int) -> Option<int> {
    if 0 <= i < s.len() && (s[i] == 'e' || s[i] == 'E') {
        let j = if i + 1 < s.len() && (s[i + 1] == '+' || s[i + 1] == '-') {
            i + 2
        } else {
            i + 1
        };
        if j < s.len() && is_digit(s[j]) {
            Some(digits_end(s, j))
        } else {
            None
        }
    } else {
        Some(i)
    }
}

/// The end of a JSON number at `i`: optional minus, integer part with no
/// leading zero, optional fraction and exponent.
pub open spec fn spec_skip_number(s: Seq<char>, i: int) -> Option<int> {
    if i < 0 || i >= s.len() {
        None
    } else {
        let j = if s[i] == '-' {
            i + 1
        } else {
            i
        };
        if j < s.len() && is_digit(s[j]) {
            let e1 = if s[j] == '0' {
                j + 1
            } else {
                digits_end(s, j)
            };
            match skip_frac(s, e1) {
                None => None,
                Some(e2) => skip_exp(s, e2),
            }
        } else {
            None
        }
    }
}

/// Advances past a digit run.
fn digits_to(s: &Vec<char>, i: usize) -> (j: usize)
    requires
        i <= s@.len(),
    ensures
        j == digits_end(s@, i as int),
        i <= j <= s@.len(),
{
    let mut j = i;
    while j < s.len() && (s[j] as u32) >= 0x30 && (s[j] as u32) <= 0x39
        invariant
            i <= j <= s@.len(),
            digits_end(s@, i as int) == digits_end(s@, j as int),
        decreases s@.len() - j,
    {
        j = j + 1;
    }
    j
}

/// Advances past a JSON number at `i`.
fn skip_number_at(s: &Vec<char>, i: usize) -> (r: Option<usize>)
    requires
        i <= s@.len(),
    ensures
        match spec_skip_number(s@, i as int) {
            Some(e) => r == Some(e as usize),
            None => r is None,
        },
{
    if i >= s.len() {
        return None;
    }
    let j = if s[i] == '-' {
        i + 1
    } else {
        i
    };
    if !(j < s.len() && (s[j] as u32) >= 0x30 && (s[j] as u32) <= 0x39) {
        return None;
    }
    let e1 = if s[j] == '0' {
        j + 1
    } else {
        digits_to(s, j)
    };
    let e2: usize;
    if e1 < s.len() && s[e1] == '.' {
        if e1 + 1 < s.len() && (s[e1 + 1] as u32) >= 0x30 && (s[e1 + 1] as u32) <= 0x39 {
            e2 = digits_to(s, e1 + 1);
        } else {
            return None;
        }
    } else {
        e2 = e1;
    }
    if e2 < s.len() && (s[e2] == 'e' || s[e2] == 'E') {
        let k = if e2 + 1 < s.len() && (s[e2 + 1] == '+' || s[e2 + 1] == '-') {
            e2 + 2
        } else {
            e2 + 1
        };
        if k < s.len() && (s[k] as u32) >= 0x30 && (s[k] as u32) <= 0x39 {
            Some(digits_to(s, k))
        } else {
            None
        }
    } else {
        Some(e2)
    }
}

/// The end of any JSON value at `i` (no leading whitespace). The range
/// guards below always hold; they make the descent's progress plain.
pub open spec fn spec_skip_value(s: Seq<char>, i: int) -> Option<int>
    decreases s.len() - i, 1int,
{
    if i < 0 || i >= s.len() {
        None
    } else {
        let c = s[i];
        if c == '"' {
            match spec_parse_string_rest(s, i + 1) {
                None => None,
                Some((content, e)) => Some(e),
            }
        } else if c == '-' || is_digit(c) {
            spec_skip_number(s, i)
        } else if c == 't' {
            if i + 4 <= s.len() && s[i + 1] == 'r' && s[i + 2] == 'u' && s[i + 3] == 'e' {
                Some(i + 4)
            } else {
                None
            }
        } else if c == 'f' {
            if i + 5 <= s.len() && s[i + 1] == 'a' && s[i + 2] == 'l' && s[i + 3] == 's' && s[i
                + 4] == 'e' {
                Some(i + 5)
            } else {
                None
            }
        } else if c == 'n' {
            if i + 4 <= s.len() && s[i + 1] == 'u' && s[i + 2] == 'l' && s[i + 3] == 'l' {
                Some(i + 4)
            } else {
                None
            }
        } else if c == '[' {
            let j = skip_ws(s, i + 1);
            if j < s.len() && s[j] == ']' {
                Some(j + 1)
            } else if i + 1 <= j <= s.len() {
                spec_skip_array_tail(s, j)
            } else {
                None
            }
        } else if c == '{' {
            let j = skip_ws(s, i + 1);
            if j < s.len() && s[j] == '}' {
                Some(j + 1)
            } else if i + 1 <= j <= s.len() {
                spec_skip_object_tail(s, j)
            } else {
                None
            }
        } else {
            None
        }
    }
}

/// The end of a non-empty array's elements and closing bracket, starting at
/// the first element.
pub open spec fn spec_skip_array_tail(s: Seq<char>, i: int) -> Option<int>
    decreases s.len() - i, 2int,
{
    if i < 0 || i >= s.len() {
        None
    } else {
        match spec_skip_value(s, i) {
            None => None,
            Some(e) => if i < e <= s.len() {
                let j = skip_ws(s, e);
                if e <= j <= s.len() {
                    if j < s.len() && s[j] == ']' {
                        Some(j + 1)
                    } else if j < s.len() && s[j] == ',' {
                        let k = skip_ws(s, j + 1);
                        if j + 1 <= k <= s.len() {
                            spec_skip_array_tail(s, k)
                        } else {
                            None
                        }
                    } else {
                        None
                    }
                } else {
                    None
                }
            } else {
                None
            },
        }
    }
}

/// The end of a non-empty object's members and closing brace, starting at
/// the quote of the first key.
pub open spec fn spec_skip_object_tail(s: Seq<char>, i: int) -> Option<int>
    decreases s.len() - i, 2int,
{
    if i < 0 || i >= s.len() || s[i] != '"' {
        None
    } else {
        match spec_parse_string_rest(s, i + 1) {
            None => None,
            Some((key, e)) => if i < e <= s.len() {
                let j = skip_ws(s, e);
                if e <= j <= s.len() && j < s.len() && s[j] == ':' {
                    let k = skip_ws(s, j + 1);
                    if j + 1 <= k <= s.len() {
                        match spec_skip_value(s, k) {
                            None => None,
                            Some(e2) => if k < e2 <= s.len() {
                                let w = skip_ws(s, e2);
                                if e2 <= w <= s.len() {
                                    if w < s.len() && s[w] == '}' {
                                        Some(w + 1)
                                    } else if w < s.len() && s[w] == ',' {
                                        let k2 = skip_ws(s, w + 1);
                                        if w + 1 <= k2 <= s.len() {
                                            spec_skip_object_tail(s, k2)
                                        } else {
                                            None
                                        }
                                    } else {
                                        None
                                    }
                                } else {
                                    None
                                }
                            } else {
                                None
                            },
                        }
                    } else {
                        None
                    }
                } else {
                    None
                }
            } else {
                None
            },
        }
    }
}

pub proof fn lemma_skip_number_bounds(s: Seq<char>, i: int)
    requires
        0 <= i,
        spec_skip_number(s, i) is Some,
    ensures
        i < spec_skip_number(s, i)->Some_0 <= s.len(),
{
    let j = if s[i] == '-' {
        i + 1
    } else {
        i
    };
    lemma_digits_end_bounds(s, j);
    if s[j] != '0' {
        lemma_digits_end_bounds(s, j + 1);
    }
    let e1 = if s[j] == '0' {
        j + 1
    } else {
        digits_end(s, j)
    };
    if 0 <= e1 < s.len() && s[e1] == '.' {
        lemma_digits_end_bounds(s, e1 + 1);
    }
    let e2 = skip_frac(s, e1)->Some_0;
    if 0 <= e2 < s.len() && (s[e2] == 'e' || s[e2] == 'E') {
        if e2 + 1 < s.len() && (s[e2 + 1] == '+' || s[e2 + 1] == '-') {
            lemma_digits_end_bounds(s, e2 + 2);
        } else {
            lemma_digits_end_bounds(s, e2 + 1);
        }
    }
}

/// A skipped value always ends after where it began and within the text.
pub proof fn lemma_skip_value_bounds(s: Seq<char>, i: int)
    requires
        0 <= i,
        spec_skip_value(s, i) is Some,
    ensures
        i < spec_skip_value(s, i)->Some_0 <= s.len(),
    decreases s.len() - i, 1int,
{
    let c = s[i];
    if c == '"' {
        lemma_string_rest_bounds(s, i + 1);
    } else if c == '-' || is_digit(c) {
        lemma_skip_number_bounds(s, i);
    } else if c == '[' || c == '{' {
        lemma_skip_ws_bounds(s, i + 1);
        let j = skip_ws(s, i + 1);
        if c == '[' && !(j < s.len() && s[j] == ']') {
            lemma_skip_array_tail_bounds(s, j);
        }
        if c == '{' && !(j < s.len() && s[j] == '}') {
            lemma_skip_object_tail_bounds(s, j);
        }
    }
}

pub proof fn lemma_skip_array_tail_bounds(s: Seq<char>, i: int)
    requires
        0 <= i,
        spec_skip_array_tail(s, i) is Some,
    ensures
        i < spec_skip_array_tail(s, i)->Some_0 <= s.len(),
    decreases s.len() - i, 2int,
{
    lemma_skip_value_bounds(s, i);
    let e = spec_skip_value(s, i)->Some_0;
    lemma_skip_ws_bounds(s, e);
    let j = skip_ws(s, e);
    if j < s.len() && s[j] == ',' {
        lemma_skip_ws_bounds(s, j + 1);
        lemma_skip_array_tail_bounds(s, skip_ws(s, j + 1));
    }
}

pub proof fn lemma_skip_object_tail_bounds(s: Seq<char>, i: int)
    requires
        0 <= i,
        spec_skip_object_tail(s, i) is Some,
    ensures
        i < spec_skip_object_tail(s, i)->Some_0 <= s.len(),
    decreases s.len() - i, 2int,
{
    lemma_string_rest_bounds(s, i + 1);
    let e = spec_parse_string_rest(s, i + 1)->Some_0.1;
    lemma_skip_ws_bounds(s, e);
    let j = skip_ws(s, e);
    let k = skip_ws(s, j + 1);
    lemma_skip_ws_bounds(s, j + 1);
    lemma_skip_value_bounds(s, k);
    let e2 = spec_skip_value(s, k)->Some_0;
    lemma_skip_ws_bounds(s, e2);
    let w = skip_ws(s, e2);
    if w < s.len() && s[w] == ',' {
        lemma_skip_ws_bounds(s, w + 1);
        lemma_skip_object_tail_bounds(s, skip_ws(s, w + 1));
    }
}

/// Advances past any JSON value at `i`.
fn skip_value_at(s: &Vec<char>, i: usize) -> (r: Option<usize>)
    requires
        i <= s@.len(),
    ensures
        match spec_skip_value(s@, i as int) {
            Some(e) => r == Some(e as usize),
            None => r is None,
        },
    decreases s@.len() - i, 1int,
{
    if i >= s.len() {
        return None;
    }
    let c = s[i];
    if c == '"' {
        match parse_string_at(s, i + 1) {
            None => None,
            Some((_, e)) => Some(e),
        }
    } else if c == '-' || ((c as u32) >= 0x30 && (c as u32) <= 0x39) {
        skip_number_at(s, i)
    } else if c == 't' {
        if s.len() - i >= 4 && s[i + 1] == 'r' && s[i + 2] == 'u' && s[i + 3] == 'e' {
            Some(i + 4)
        } else {
            None
        }
    } else if c == 'f' {
        if s.len() - i >= 5 && s[i + 1] == 'a' && s[i + 2] == 'l' && s[i + 3] == 's' && s[i + 4]
            == 'e' {
            Some(i + 5)
        } else {
            None
        }
    } else if c == 'n' {
        if s.len() - i >= 4 && s[i + 1] == 'u' && s[i + 2] == 'l' && s[i + 3] == 'l' {
            Some(i + 4)
        } else {
            None
        }
    } else if c == '[' {
        let j = ws_to(s, i + 1);
        if j < s.len() && s[j] == ']' {
            Some(j + 1)
        } else {
            skip_array_tail_at(s, j)
        }
    } else if c == '{' {
        let j = ws_to(s, i + 1);
        if j < s.len() && s[j] == '}' {
            Some(j + 1)
        } else {
            skip_object_tail_at(s, j)
        }
    } else {
        None
    }
}

/// Advances past a non-empty array's elements and closing bracket.
fn skip_array_tail_at(s: &Vec<char>, i: usize) -> (r: Option<usize>)
    requires
        i <= s@.len(),
    ensures
        match spec_skip_array_tail(s@, i as int) {
            Some(e) => r == Some(e as usize),
            None => r is None,
        },
    decreases s@.len() - i, 2int,
{
    if i >= s.len() {
        return None;
    }
    match skip_value_at(s, i) {
        None => None,
        Some(e) => {
            proof {
                lemma_skip_value_bounds(s@, i as int);
            }
            if !(i < e && e <= s.len()) {
                return None;
            }
            let j = ws_to(s, e);
            if j < s.len() && s[j] == ']' {
                Some(j + 1)
            } else if j < s.len() && s[j] == ',' {
                let k = ws_to(s, j + 1);
                skip_array_tail_at(s, k)
            } else {
                None
            }
        },
    }
}

/// Advances past a non-empty object's members and closing brace.
fn skip_object_tail_at(s: &Vec<char>, i: usize) -> (r: Option<usize>)
    requires
        i <= s@.len(),
    ensures
        match spec_skip_object_tail(s@, i as int) {
            Some(e) => r == Some(e as usize),
            None => r is None,
        },
    decreases s@.len() - i, 2int,
{
    if i >= s.len() || s[i] != '"' {
        return None;
    }
    match parse_string_at(s, i + 1) {
        None => None,
        Some((_, e)) => {
            if !(i < e && e <= s.len()) {
                return None;
            }
            let j = ws_to(s, e);
            if !(j < s.len() && s[j] == ':') {
                return None;
            }
            let k = ws_to(s, j + 1);
            match skip_value_at(s, k) {
                None => None,
                Some(e2) => {
                    proof {
                        lemma_skip_value_bounds(s@, k as int);
                    }
                    if !(k < e2 && e2 <= s.len()) {
                        return None;
                    }
                    let w = ws_to(s, e2);
                    if w < s.len() && s[w] == '}' {
                        Some(w + 1)
                    } else if w < s.len() && s[w] == ',' {
                        let k2 = ws_to(s, w + 1);
                        skip_object_tail_at(s, k2)
                    } else {
                        None
                    }
                },
            }
        },
    }
}

/// The card object members: the fixed field names, and anything else,
/// which is read over and ignored.
#[derive(Clone, Copy, PartialEq, Eq, Structural)]
pub enum FieldKey {
    Prompt,
    Response,
    Hits,
    Misses,
    ReverseHits,
    ReverseMisses,
    Other,
}

/// Which member a key names.
pub open spec fn spec_key_kind(key: Seq<char>) -> FieldKey {
    if key == seq!['p', 'r', 'o', 'm', 'p', 't'] {
        FieldKey::Prompt
    } else if key == seq!['r', 'e', 's', 'p', 'o', 'n', 's', 'e'] {
        FieldKey::Response
    } else if key == seq!['h', 'i', 't', 's'] {
        FieldKey::Hits
    } else if key == seq!['m', 'i', 's', 's', 'e', 's'] {
        FieldKey::Misses
    } else if key == seq!['r', 'e', 'v', 'e', 'r', 's', 'e', '_', 'h', 'i', 't', 's'] {
        FieldKey::ReverseHits
    } else if key == seq!['r', 'e', 'v', 'e', 'r', 's', 'e', '_', 'm', 'i', 's', 's', 'e', 's'] {
        FieldKey::ReverseMisses
    } else {
        FieldKey::Other
    }
}

/// What has been read of one card object so far: each known member at most
/// once, so a duplicate is detected.
pub ghost struct CardAcc {
    pub prompt: Option<Seq<char>>,
    pub response: Option<Seq<char>>,
    pub hits: Option<u32>,
    pub misses: Option<u32>,
    pub reverse_hits: Option<u32>,
    pub reverse_misses: Option<u32>,
}

pub open spec fn empty_acc() -> CardAcc {
    CardAcc {
        prompt: None,
        response: None,
        hits: None,
        misses: None,
        reverse_hits: None,
        reverse_misses: None,
    }
}

/// Whether the required members have all been seen.
pub open spec fn acc_complete(a: CardAcc) -> bool {
    a.prompt is Some && a.response is Some && a.hits is Some && a.misses is Some
}

/// The card a complete accumulator denotes; an absent reverse count is 0.
pub open spec fn acc_view(a: CardAcc) -> crate::card::CardView {
    crate::card::CardView {
        prompt: a.prompt->Some_0,
        response: a.response->Some_0,
        hits: a.hits->Some_0,
        misses: a.misses->Some_0,
        reverse_hits: match a.reverse_hits {
            Some(v) => v,
            None => 0,
        },
        reverse_misses: match a.reverse_misses {
            Some(v) => v,
            None => 0,
        },
    }
}

/// One member's value at `k`, folded into the accumulator: strings for the
/// texts, counts for the four counters — `null` is also accepted for the
/// reverse counters and means 0 — and any value at all for an unknown
/// member. A member seen twice is an error.
pub open spec fn spec_member_value(s: Seq<char>, k: int, acc: CardAcc, kind: FieldKey) -> Option<
    (CardAcc, int),
> {
    match kind {
        FieldKey::Prompt => if acc.prompt is Some {
            None
        } else if 0 <= k < s.len() && s[k] == '"' {
            match spec_parse_string_rest(s, k + 1) {
                None => None,
                Some((v, e)) => Some((CardAcc { prompt: Some(v), ..acc }, e)),
            }
        } else {
            None
        },
        FieldKey::Response => if acc.response is Some {
            None
        } else if 0 <= k < s.len() && s[k] == '"' {
            match spec_parse_string_rest(s, k + 1) {
                None => None,
                Some((v, e)) => Some((CardAcc { response: Some(v), ..acc }, e)),
            }
        } else {
            None
        },
        FieldKey::Hits => if acc.hits is Some {
            None
        } else {
            match spec_parse_count(s, k) {
                None => None,
                Some((v, e)) => Some((CardAcc { hits: Some(v), ..acc }, e)),
            }
        },
        FieldKey::Misses => if acc.misses is Some {
            None
        } else {
            match spec_parse_count(s, k) {
                None => None,
                Some((v, e)) => Some((CardAcc { misses: Some(v), ..acc }, e)),
            }
        },
        FieldKey::ReverseHits => if acc.reverse_hits is Some {
            None
        } else if k + 4 <= s.len() && 0 <= k && s[k] == 'n' && s[k + 1] == 'u' && s[k + 2] == 'l'
            && s[k + 3] == 'l' {
            Some((CardAcc { reverse_hits: Some(0), ..acc }, k + 4))
        } else {
            match spec_parse_count(s, k) {
                None => None,
                Some((v, e)) => Some((CardAcc { reverse_hits: Some(v), ..acc }, e)),
            }
        },
        FieldKey::ReverseMisses => if acc.reverse_misses is Some {
            None
        } else if k + 4 <= s.len() && 0 <= k && s[k] == 'n' && s[k + 1] == 'u' && s[k + 2] == 'l'
            && s[k + 3] == 'l' {
            Some((CardAcc { reverse_misses: Some(0), ..acc }, k + 4))
        } else {
            match spec_parse_count(s, k) {
                None => None,
                Some((v, e)) => Some((CardAcc { reverse_misses: Some(v), ..acc }, e)),
            }
        },
        FieldKey::Other => match spec_skip_value(s, k) {
            None => None,
            Some(e) => Some((acc, e)),
        },
    }
}

/// A card object's members from the quote of the first key through the
/// closing brace. The range guards always hold; they make progress plain.
pub open spec fn spec_parse_members(s: Seq<char>, i: int, acc: CardAcc) -> Option<(CardAcc, int)>
    decreases s.len() - i,
{
    if i < 0 || i >= s.len() || s[i] != '"' {
        None
    } else {
        match spec_parse_string_rest(s, i + 1) {
            None => None,
            Some((key, e)) => if i < e <= s.len() {
                let j = skip_ws(s, e);
                if e <= j <= s.len() && j < s.len() && s[j] == ':' {
                    let k = skip_ws(s, j + 1);
                    if j + 1 <= k <= s.len() {
                        match spec_member_value(s, k, acc, spec_key_kind(key)) {
                            None => None,
                            Some((acc2, e2)) => if k < e2 <= s.len() {
                                let w = skip_ws(s, e2);
                                if e2 <= w <= s.len() {
                                    if w < s.len() && s[w] == '}' {
                                        Some((acc2, w + 1))
                                    } else if w < s.len() && s[w] == ',' {
                                        let k2 = skip_ws(s, w + 1);
                                        if w + 1 <= k2 <= s.len() {
                                            spec_parse_members(s, k2, acc2)
                                        } else {
                                            None
                                        }
                                    } else {
                                        None
                                    }
                                } else {
                                    None
                                }
                            } else {
                                None
                            },
                        }
                    } else {
                        None
                    }
                } else {
                    None
                }
            } else {
                None
            },
        }
    }
}

pub proof fn lemma_parse_members_bounds(s: Seq<char>, i: int, acc: CardAcc)
    requires
        0 <= i,
        spec_parse_members(s, i, acc) is Some,
    ensures
        i < spec_parse_members(s, i, acc)->Some_0.1 <= s.len(),
    decreases s.len() - i,
{
    match spec_parse_string_rest(s, i + 1) {
        None => {},
        Some((key, e)) => {
            if i < e <= s.len() {
                let j = skip_ws(s, e);
                let k = skip_ws(s, j + 1);
                match spec_member_value(s, k, acc, spec_key_kind(key)) {
                    None => {},
                    Some((acc2, e2)) => {
                        if k < e2 <= s.len() {
                            let w = skip_ws(s, e2);
                            if e2 <= w <= s.len() && w < s.len() && s[w] == ',' {
                                let k2 = skip_ws(s, w + 1);
                                if w + 1 <= k2 <= s.len() {
                                    lemma_parse_members_bounds(s, k2, acc2);
                                }
                            }
                        }
                    },
                }
            }
        },
    }
}

/// One card object at `i` (which holds the brace): its value and the
/// position after the closing brace. All four required members must be
/// there.
pub open spec fn spec_parse_card(s: Seq<char>, i: int) -> Option<(crate::card::CardView, int)> {
    if 0 <= i < s.len() && s[i] == '{' {
        let j = skip_ws(s, i + 1);
        if i + 1 <= j <= s.len() {
            if j < s.len() && s[j] == '}' {
                None
            } else {
                match spec_parse_members(s, j, empty_acc()) {
                    None => None,
                    Some((acc, e)) => if acc_complete(acc) {
                        Some((acc_view(acc), e))
                    } else {
                        None
                    },
                }
            }
        } else {
            None
        }
    } else {
        None
    }
}

pub proof fn lemma_parse_card_bounds(s: Seq<char>, i: int)
    requires
        0 <= i,
        spec_parse_card(s, i) is Some,
    ensures
        i < spec_parse_card(s, i)->Some_0.1 <= s.len(),
{
    let j = skip_ws(s, i + 1);
    if i + 1 <= j <= s.len() {
        lemma_parse_members_bounds(s, j, empty_acc());
    }
}

/// A non-empty card array from the brace of the first card through the
/// closing bracket: the cards and the position after the bracket.
pub open spec fn spec_parse_card_list(s: Seq<char>, i: int) -> Option<
    (Seq<crate::card::CardView>, int),
>
    decreases s.len() - i,
{
    if i < 0 || i >= s.len() {
        None
    } else {
        match spec_parse_card(s, i) {
            None => None,
            Some((cv, e)) => if i < e <= s.len() {
                let j = skip_ws(s, e);
                if e <= j <= s.len() {
                    if j < s.len() && s[j] == ']' {
                        Some((seq![cv], j + 1))
                    } else if j < s.len() && s[j] == ',' {
                        let k = skip_ws(s, j + 1);
                        if j + 1 <= k <= s.len() {
                            match spec_parse_card_list(s, k) {
                                None => None,
                                Some((rest, e2)) => Some((seq![cv] + rest, e2)),
                            }
                        } else {
                            None
                        }
                    } else {
                        None
                    }
                } else {
                    None
                }
            } else {
                None
            },
        }
    }
}

pub proof fn lemma_parse_card_list_bounds(s: Seq<char>, i: int)
    requires
        0 <= i,
        spec_parse_card_list(s, i) is Some,
    ensures
        i < spec_parse_card_list(s, i)->Some_0.1 <= s.len(),
    decreases s.len() - i,
{
    match spec_parse_card(s, i) {
        None => {},
        Some((cv, e)) => {
            if i < e <= s.len() {
                let j = skip_ws(s, e);
                if e <= j <= s.len() && j < s.len() && s[j] == ',' {
                    let k = skip_ws(s, j + 1);
                    if j + 1 <= k <= s.len() {
                        if spec_parse_card_list(s, k) is Some {
                            lemma_parse_card_list_bounds(s, k);
                        }
                    }
                }
            }
        },
    }
}

/// A whole serialized collection: optional whitespace, an array of card
/// objects, optional whitespace, and nothing else.
pub open spec fn spec_parse_cards(text: Seq<char>) -> Option<Seq<crate::card::CardView>> {
    let i = skip_ws(text, 0);
    if 0 <= i < text.len() && text[i] == '[' {
        let j = skip_ws(text, i + 1);
        if i + 1 <= j <= text.len() {
            if j < text.len() && text[j] == ']' {
                if skip_ws(text, j + 1) == text.len() {
                    Some(Seq::<crate::card::CardView>::empty())
                } else {
                    None
                }
            } else {
                match spec_parse_card_list(text, j) {
                    None => None,
                    Some((cards, e)) => if 0 <= e <= text.len() && skip_ws(text, e)
                        == text.len() {
                        Some(cards)
                    } else {
                        None
                    },
                }
            }
        } else {
            None
        }
    } else {
        None
    }
}

/// Which member a key names.
fn key_kind(key: &Vec<char>) -> (k: FieldKey)
    ensures
        k == spec_key_kind(key@),
{
    let n = key.len();
    if n == 6 && key[0] == 'p' && key[1] == 'r' && key[2] == 'o' && key[3] == 'm' && key[4] == 'p'
        && key[5] == 't' {
        proof {
            assert(key@ =~= seq!['p', 'r', 'o', 'm', 'p', 't']);
        }
        FieldKey::Prompt
    } else if n == 8 && key[0] == 'r' && key[1] == 'e' && key[2] == 's' && key[3] == 'p' && key[4]
        == 'o' && key[5] == 'n' && key[6] == 's' && key[7] == 'e' {
        proof {
            assert(key@ =~= seq!['r', 'e', 's', 'p', 'o', 'n', 's', 'e']);
        }
        FieldKey::Response
    } else if n == 4 && key[0] == 'h' && key[1] == 'i' && key[2] == 't' && key[3] == 's' {
        proof {
            assert(key@ =~= seq!['h', 'i', 't', 's']);
        }
        FieldKey::Hits
    } else if n == 6 && key[0] == 'm' && key[1] == 'i' && key[2] == 's' && key[3] == 's' && key[4]
        == 'e' && key[5] == 's' {
        proof {
            assert(key@ =~= seq!['m', 'i', 's', 's', 'e', 's']);
        }
        FieldKey::Misses
    } else if n == 12 && key[0] == 'r' && key[1] == 'e' && key[2] == 'v' && key[3] == 'e' && key[4]
        == 'r' && key[5] == 's' && key[6] == 'e' && key[7] == '_' && key[8] == 'h' && key[9] == 'i'
        && key[10] == 't' && key[11] == 's' {
        proof {
            assert(key@ =~= seq!['r', 'e', 'v', 'e', 'r', 's', 'e', '_', 'h', 'i', 't', 's']);
        }
        FieldKey::ReverseHits
    } else if n == 14 && key[0] == 'r' && key[1] == 'e' && key[2] == 'v' && key[3] == 'e' && key[4]
        == 'r' && key[5] == 's' && key[6] == 'e' && key[7] == '_' && key[8] == 'm' && key[9] == 'i'
        && key[10] == 's' && key[11] == 's' && key[12] == 'e' && key[13] == 's' {
        proof {
            assert(key@ =~= seq![
                'r',
                'e',
                'v',
                'e',
                'r',
                's',
                'e',
                '_',
                'm',
                'i',
                's',
                's',
                'e',
                's',
            ]);
        }
        FieldKey::ReverseMisses
    } else {
        FieldKey::Other
    }
}

/// The executable accumulator behind `CardAcc`.
struct AccExec {
    prompt: Option<Vec<char>>,
    response: Option<Vec<char>>,
    hits: Option<u32>,
    misses: Option<u32>,
    reverse_hits: Option<u32>,
    reverse_misses: Option<u32>,
}

spec fn acc_of(a: AccExec) -> CardAcc {
    CardAcc {
        prompt: match a.prompt {
            Some(v) => Some(v@),
            None => None,
        },
        response: match a.response {
            Some(v) => Some(v@),
            None => None,
        },
        hits: a.hits,
        misses: a.misses,
        reverse_hits: a.reverse_hits,
        reverse_misses: a.reverse_misses,
    }
}

/// Reads one member value at `k` into the accumulator.
fn member_value_at(s: &Vec<char>, k: usize, acc: AccExec, kind: FieldKey) -> (r: Option<
    (AccExec, usize),
>)
    requires
        k <= s@.len(),
    ensures
        match spec_member_value(s@, k as int, acc_of(acc), kind) {
            Some((a2, e)) => r matches Some(p) && acc_of(p.0) == a2 && p.1 == e,
            None => r is None,
        },
{
    match kind {
        FieldKey::Prompt => {
            if acc.prompt.is_some() {
                return None;
            }
            if !(k < s.len() && s[k] == '"') {
                return None;
            }
            match parse_string_at(s, k + 1) {
                None => None,
                Some((v, e)) => Some((AccExec { prompt: Some(v), ..acc }, e)),
            }
        },
        FieldKey::Response => {
            if acc.response.is_some() {
                return None;
            }
            if !(k < s.len() && s[k] == '"') {
                return None;
            }
            match parse_string_at(s, k + 1) {
                None => None,
                Some((v, e)) => Some((AccExec { response: Some(v), ..acc }, e)),
            }
        },
        FieldKey::Hits => {
            if acc.hits.is_some() {
                return None;
            }
            match parse_count_at(s, k) {
                None => None,
                Some((v, e)) => {
                    proof {
                        vstd::std_specs::vec::axiom_spec_len(s);
                        lemma_digits_end_bounds(s@, k as int);
                    }
                    Some((AccExec { hits: Some(v), ..acc }, e))
                },
            }
        },
        FieldKey::Misses => {
            if acc.misses.is_some() {
                return None;
            }
            match parse_count_at(s, k) {
                None => None,
                Some((v, e)) => {
                    proof {
                        vstd::std_specs::vec::axiom_spec_len(s);
                        lemma_digits_end_bounds(s@, k as int);
                    }
                    Some((AccExec { misses: Some(v), ..acc }, e))
                },
            }
        },
        FieldKey::ReverseHits => {
            if acc.reverse_hits.is_some() {
                return None;
            }
            if s.len() - k >= 4 && s[k] == 'n' && s[k + 1] == 'u' && s[k + 2] == 'l' && s[k + 3]
                == 'l' {
                return Some((AccExec { reverse_hits: Some(0), ..acc }, k + 4));
            }
            match parse_count_at(s, k) {
                None => None,
                Some((v, e)) => {
                    proof {
                        vstd::std_specs::vec::axiom_spec_len(s);
                        lemma_digits_end_bounds(s@, k as int);
                    }
                    Some((AccExec { reverse_hits: Some(v), ..acc }, e))
                },
            }
        },
        FieldKey::ReverseMisses => {
            if acc.reverse_misses.is_some() {
                return None;
            }
            if s.len() - k >= 4 && s[k] == 'n' && s[k + 1] == 'u' && s[k + 2] == 'l' && s[k + 3]
                == 'l' {
                return Some((AccExec { reverse_misses: Some(0), ..acc }, k + 4));
            }
            match parse_count_at(s, k) {
                None => None,
                Some((v, e)) => {
                    proof {
                        vstd::std_specs::vec::axiom_spec_len(s);
                        lemma_digits_end_bounds(s@, k as int);
                    }
                    Some((AccExec { reverse_misses: Some(v), ..acc }, e))
                },
            }
        },
        FieldKey::Other => {
            match skip_value_at(s, k) {
                None => None,
                Some(e) => {
                    proof {
                        vstd::std_specs::vec::axiom_spec_len(s);
                        lemma_skip_value_bounds(s@, k as int);
                    }
                    Some((acc, e))
                },
            }
        },
    }
}

/// Reads a card object's members from the quote of the first key through
/// the closing brace.
fn parse_members_at(s: &Vec<char>, i: usize, acc: AccExec) -> (r: Option<(AccExec, usize)>)
    requires
        i <= s@.len(),
    ensures
        match spec_parse_members(s@, i as int, acc_of(acc)) {
            Some((a2, e)) => r matches Some(p) && acc_of(p.0) == a2 && p.1 == e,
            None => r is None,
        },
{
    let mut j = i;
    let mut cur = acc;
    loop
        invariant
            j <= s@.len(),
            match spec_parse_members(s@, j as int, acc_of(cur)) {
                Some((a2, e)) => spec_parse_members(s@, i as int, acc_of(acc)) == Some((a2, e)),
                None => spec_parse_members(s@, i as int, acc_of(acc)) is None,
            },
        decreases s@.len() - j,
    {
        if j >= s.len() || s[j] != '"' {
            return None;
        }
        match parse_string_at(s, j + 1) {
            None => {
                return None;
            },
            Some((key, e)) => {
                proof {
                    lemma_string_rest_bounds(s@, j as int + 1);
                }
                let w1 = ws_to(s, e);
                if !(w1 < s.len() && s[w1] == ':') {
                    return None;
                }
                let k = ws_to(s, w1 + 1);
                let kind = key_kind(&key);
                match member_value_at(s, k, cur, kind) {
                    None => {
                        return None;
                    },
                    Some((c2, e2)) => {
                        if !(k < e2 && e2 <= s.len()) {
                            return None;
                        }
                        let w = ws_to(s, e2);
                        if w < s.len() && s[w] == '}' {
                            return Some((c2, w + 1));
                        } else if w < s.len() && s[w] == ',' {
                            let k2 = ws_to(s, w + 1);
                            cur = c2;
                            j = k2;
                        } else {
                            return None;
                        }
                    },
                }
            },
        }
    }
}

/// Reads one card object at `i`.
fn parse_card_at(s: &Vec<char>, i: usize) -> (r: Option<(Card, usize)>)
    requires
        i <= s@.len(),
    ensures
        match spec_parse_card(s@, i as int) {
            Some((cv, e)) => r matches Some(p) && p.0@ == cv && p.1 == e,
            None => r is None,
        },
{
    if !(i < s.len() && s[i] == '{') {
        return None;
    }
    let j = ws_to(s, i + 1);
    if j < s.len() && s[j] == '}' {
        return None;
    }
    let acc0 = AccExec {
        prompt: None,
        response: None,
        hits: None,
        misses: None,
        reverse_hits: None,
        reverse_misses: None,
    };
    match parse_members_at(s, j, acc0) {
        None => None,
        Some((a, e)) => {
            match (a.prompt, a.response, a.hits, a.misses) {
                (Some(pv), Some(rv), Some(h), Some(m)) => {
                    let rh: u32 = match a.reverse_hits {
                        Some(v) => v,
                        None => 0,
                    };
                    let rm: u32 = match a.reverse_misses {
                        Some(v) => v,
                        None => 0,
                    };
                    let c = Card {
                        prompt: crate::text::chars_to_string(&pv),
                        response: crate::text::chars_to_string(&rv),
                        hits: h,
                        misses: m,
                        reverse_hits: rh,
                        reverse_misses: rm,
                    };
                    Some((c, e))
                },
                _ => None,
            }
        },
    }
}

/// The card values of a sequence of cards.
pub open spec fn views_of(cards: Seq<Card>) -> Seq<crate::card::CardView> {
    cards.map_values(|c: Card| c@)
}

/// Reads a non-empty card array from the first card's brace through the
/// closing bracket.
fn parse_card_list_at(s: &Vec<char>, i: usize) -> (r: Option<(Vec<Card>, usize)>)
    requires
        i <= s@.len(),
    ensures
        match spec_parse_card_list(s@, i as int) {
            Some((views, e)) => r matches Some(p) && views_of(p.0@) == views && p.1 == e,
            None => r is None,
        },
{
    let mut out: Vec<Card> = Vec::new();
    let mut j = i;
    loop
        invariant
            j <= s@.len(),
            match spec_parse_card_list(s@, j as int) {
                Some((views, e)) => spec_parse_card_list(s@, i as int) == Some(
                    (views_of(out@) + views, e),
                ),
                None => spec_parse_card_list(s@, i as int) is None,
            },
        decreases s@.len() - j,
    {
        match parse_card_at(s, j) {
            None => {
                return None;
            },
            Some((c, e)) => {
                proof {
                    lemma_parse_card_bounds(s@, j as int);
                }
                let w = ws_to(s, e);
                let ghost prev = out@;
                if w < s.len() && s[w] == ']' {
                    out.push(c);
                    proof {
                        assert(views_of(out@) =~= views_of(prev) + seq![c@]);
                        match spec_parse_card_list(s@, j as int) {
                            Some((views, e3)) => {
                                assert(views_of(prev) + seq![c@] =~= views_of(prev) + views);
                            },
                            None => {},
                        }
                    }
                    return Some((out, w + 1));
                } else if w < s.len() && s[w] == ',' {
                    let k = ws_to(s, w + 1);
                    out.push(c);
                    proof {
                        assert(views_of(out@) =~= views_of(prev) + seq![c@]);
                        match spec_parse_card_list(s@, k as int) {
                            Some((rest, e3)) => {
                                assert((views_of(prev) + seq![c@]) + rest =~= views_of(prev) + (
                                seq![c@] + rest));
                            },
                            None => {},
                        }
                    }
                    j = k;
                } else {
                    return None;
                }
            },
        }
    }
}

/// Reads a whole serialized collection.
fn parse_cards_chars(s: &Vec<char>) -> (r: Option<Vec<Card>>)
    ensures
        match spec_parse_cards(s@) {
            Some(views) => r matches Some(v) && views_of(v@) == views,
            None => r is None,
        },
{
    let i = ws_to(s, 0);
    if !(i < s.len() && s[i] == '[') {
        return None;
    }
    let j = ws_to(s, i + 1);
    if j < s.len() && s[j] == ']' {
        let t = ws_to(s, j + 1);
        if t == s.len() {
            let out: Vec<Card> = Vec::new();
            proof {
                assert(views_of(out@) =~= Seq::<crate::card::CardView>::empty());
            }
            return Some(out);
        } else {
            return None;
        }
    }
    match parse_card_list_at(s, j) {
        None => None,
        Some((v, e)) => {
            proof {
                lemma_parse_card_list_bounds(s@, j as int);
            }
            let t = ws_to(s, e);
            if t == s.len() {
                Some(v)
            } else {
                None
            }
        },
    }
}

/// An uploaded text that is not a well-formed card collection; the
/// collection in memory is left untouched when this is reported.
#[derive(Debug)]
pub struct ImportError {
    pub message: String,
}

/// Parses a serialized card collection. Returns the cards exactly when the
/// text matches the card-array grammar; any malformed text is rejected
/// whole, with a message to show the user.
pub fn parse_cards(text: &str) -> (r: Result<Vec<Card>, ImportError>)
    ensures
        match spec_parse_cards(text@) {
            Some(views) => r matches Ok(cards) && views_of(cards@) == views,
            None => r is Err,
        },
{
    let chars = crate::text::str_to_chars(text);
    match parse_cards_chars(&chars) {
        Some(v) => Ok(v),
        None => Err(
            ImportError {
                message: String::from_str(
                    "malformed upload: expected a JSON array of card objects",
                ),
            },
        ),
    }
}

} // verus!
