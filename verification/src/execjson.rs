//! The exec-session configuration line and result line.
//!
//! An exec substream opens with one newline-terminated JSON object
//! `{"command":"<shell-cmd>","tty":<bool>,"rows":<u16?>,"cols":<u16?>}`, at
//! most 8 KiB long, and ends with the agent writing one line
//! `{"exit_code":N}` before closing its write side. The parser here reads
//! exactly that object: the four fields in any order, each at most once,
//! with JSON string escapes, whitespace, and `null` for the optional sizes.

use vstd::prelude::*;
use crate::text::{push_dec_i64, spec_dec_int};
use crate::trusted::str_to_chars;
use vstd::string::StringSliceAdditionalSpecFns;

verus! {

/// JSON insignificant whitespace.
pub open spec fn spec_jws(c: char) -> bool {
    c == ' ' || c == '\t' || c == '\n' || c == '\r'
}

/// First index at or after `i` holding no whitespace.
pub open spec fn spec_skip_ws(s: Seq<char>, i: int) -> int
    decreases s.len() - i,
{
    if 0 <= i < s.len() && spec_jws(s[i]) {
        spec_skip_ws(s, i + 1)
    } else {
        i
    }
}

/// Skipping whitespace stays within the text.
pub proof fn lemma_skip_ws_bounds(s: Seq<char>, i: int)
    requires
        0 <= i <= s.len(),
    ensures
        i <= spec_skip_ws(s, i) <= s.len(),
    decreases s.len() - i,
{
    if i < s.len() && spec_jws(s[i]) {
        lemma_skip_ws_bounds(s, i + 1);
    }
}

/// The character a short escape stands for.
pub open spec fn spec_escape_char(c: char) -> Option<char> {
    if c == '"' {
        Some('"')
    } else if c == '\\' {
        Some('\\')
    } else if c == '/' {
        Some('/')
    } else if c == 'b' {
        Some('\u{8}')
    } else if c == 'f' {
        Some('\u{c}')
    } else if c == 'n' {
        Some('\n')
    } else if c == 'r' {
        Some('\r')
    } else if c == 't' {
        Some('\t')
    } else {
        None
    }
}

/// Value of one hex digit character.
pub open spec fn spec_hex_char_val(c: char) -> Option<u32> {
    if '0' <= c && c <= '9' {
        Some((c as u32 - '0' as u32) as u32)
    } else if 'a' <= c && c <= 'f' {
        Some((c as u32 - 'a' as u32 + 10) as u32)
    } else if 'A' <= c && c <= 'F' {
        Some((c as u32 - 'A' as u32 + 10) as u32)
    } else {
        None
    }
}

/// Value of the four hex digits at `i`, if they are there.
pub open spec fn spec_hex4(s: Seq<char>, i: int) -> Option<u32> {
    if i + 4 <= s.len() {
        match (
            spec_hex_char_val(s[i]),
            spec_hex_char_val(s[i + 1]),
            spec_hex_char_val(s[i + 2]),
            spec_hex_char_val(s[i + 3]),
        ) {
            (Some(a), Some(b), Some(c), Some(d)) => Some(
                ((a * 4096 + b * 256 + c * 16 + d) as u32),
            ),
            _ => None,
        }
    } else {
        None
    }
}

/// The content of a JSON string from position `i` (just after the opening
/// quote) to its closing quote: the unescaped characters and the position
/// after the quote.
pub open spec fn spec_str_body(s: Seq<char>, i: int) -> Option<(Seq<char>, int)>
    decreases s.len() - i,
{
    if i < 0 || i >= s.len() {
        None
    } else if s[i] == '"' {
        Some((Seq::empty(), i + 1))
    } else if s[i] == '\\' {
        if i + 1 >= s.len() {
            None
        } else if s[i + 1] == 'u' {
            match spec_hex4(s, i + 2) {
                None => None,
                Some(hi) => if 0xD800 <= hi < 0xDC00 {
                    // a high surrogate must pair with a low one
                    if i + 12 <= s.len() && s[i + 6] == '\\' && s[i + 7] == 'u' {
                        match spec_hex4(s, i + 8) {
                            Some(lo) => if 0xDC00 <= lo < 0xE000 {
                                let scalar = (0x10000 + (hi - 0xD800) * 0x400 + (lo
                                    - 0xDC00)) as u32;
                                match spec_str_body(s, i + 12) {
                                    Some(rest) => Some(
                                        (seq![scalar as char] + rest.0, rest.1),
                                    ),
                                    None => None,
                                }
                            } else {
                                None
                            },
                            None => None,
                        }
                    } else {
                        None
                    }
                } else if 0xDC00 <= hi < 0xE000 {
                    None
                } else {
                    match spec_str_body(s, i + 6) {
                        Some(rest) => Some((seq![hi as char] + rest.0, rest.1)),
                        None => None,
                    }
                },
            }
        } else {
            match spec_escape_char(s[i + 1]) {
                None => None,
                Some(c) => match spec_str_body(s, i + 2) {
                    Some(rest) => Some((seq![c] + rest.0, rest.1)),
                    None => None,
                },
            }
        }
    } else if (s[i] as u32) < 0x20 {
        // raw control characters are not allowed inside a JSON string
        None
    } else {
        match spec_str_body(s, i + 1) {
            Some(rest) => Some((seq![s[i]] + rest.0, rest.1)),
            None => None,
        }
    }
}

/// A string body ends after where it started, within the text.
pub proof fn lemma_str_body_bounds(s: Seq<char>, i: int)
    requires
        0 <= i <= s.len(),
    ensures
        spec_str_body(s, i) matches Some(r) ==> i < r.1 <= s.len(),
    decreases s.len() - i,
{
    if i < s.len() && s[i] != '"' {
        if s[i] == '\\' && i + 1 < s.len() && s[i + 1] == 'u' {
            if i + 6 <= s.len() {
                lemma_str_body_bounds(s, i + 6);
            }
            if i + 12 <= s.len() {
                lemma_str_body_bounds(s, i + 12);
            }
        } else if s[i] == '\\' && i + 1 < s.len() {
            if i + 2 <= s.len() {
                lemma_str_body_bounds(s, i + 2);
            }
        } else {
            lemma_str_body_bounds(s, i + 1);
        }
    }
}

/// A JSON string at `i`: an opening quote, a body, a closing quote.
pub open spec fn spec_parse_string(s: Seq<char>, i: int) -> Option<(Seq<char>, int)> {
    if 0 <= i < s.len() && s[i] == '"' {
        spec_str_body(s, i + 1)
    } else {
        None
    }
}

/// First index at or after `i` holding no decimal digit.
pub open spec fn spec_digits_end(s: Seq<char>, i: int) -> int
    decreases s.len() - i,
{
    if 0 <= i < s.len() && '0' <= s[i] && s[i] <= '9' {
        spec_digits_end(s, i + 1)
    } else {
        i
    }
}

/// A digit run stays within the text.
pub proof fn lemma_digits_end_bounds(s: Seq<char>, i: int)
    requires
        0 <= i <= s.len(),
    ensures
        i <= spec_digits_end(s, i) <= s.len(),
    decreases s.len() - i,
{
    if i < s.len() && '0' <= s[i] && s[i] <= '9' {
        lemma_digits_end_bounds(s, i + 1);
    }
}

/// Value of the digit run `s[i..end]`, read left to right.
pub open spec fn spec_char_digits_value(s: Seq<char>, i: int, end: int) -> int
    decreases end - i,
{
    if i >= end {
        0
    } else {
        spec_char_digits_value(s, i, end - 1) * 10 + (s[end - 1] as u32 - '0' as u32)
    }
}

/// A JSON number at `i` that fits a `u16`: a digit run without a leading
/// zero, at most five digits, value at most 65535, not followed by a
/// fraction or exponent.
pub open spec fn spec_parse_u16(s: Seq<char>, i: int) -> Option<(u16, int)> {
    if 0 <= i < s.len() && '0' <= s[i] && s[i] <= '9' {
        let end = spec_digits_end(s, i);
        if end < s.len() && (s[end] == '.' || s[end] == 'e' || s[end] == 'E') {
            None
        } else if s[i] == '0' && end > i + 1 {
            None
        } else if end - i > 5 {
            None
        } else {
            let v = spec_char_digits_value(s, i, end);
            if v <= 65535 {
                Some((v as u16, end))
            } else {
                None
            }
        }
    } else {
        None
    }
}

/// The keyword `lit` stands at `i`.
pub open spec fn spec_match_lit(s: Seq<char>, i: int, lit: Seq<char>) -> bool {
    0 <= i && i + lit.len() <= s.len() && s.subrange(i, i + lit.len()) == lit
}


/// The skip fuel for a value starting at `v`: more than any call chain a
/// text of the remaining length can force.
pub open spec fn spec_skip_fuel(s: Seq<char>, v: int) -> nat {
    (2 * (s.len() - v) + 4) as nat
}

/// End of the full JSON number at `i`: an optional minus, an integer part
/// without a leading zero, an optional fraction, an optional exponent.
pub open spec fn spec_skip_number(s: Seq<char>, i: int) -> Option<int> {
    let d0 = if 0 <= i < s.len() && s[i] == '-' {
        i + 1
    } else {
        i
    };
    if !(0 <= d0 < s.len() && '0' <= s[d0] && s[d0] <= '9') {
        None
    } else {
        let ie = spec_digits_end(s, d0);
        if s[d0] == '0' && ie > d0 + 1 {
            None
        } else {
            let f = if ie < s.len() && s[ie] == '.' {
                if ie + 1 < s.len() && '0' <= s[ie + 1] && s[ie + 1] <= '9' {
                    spec_digits_end(s, ie + 1)
                } else {
                    -1
                }
            } else {
                ie
            };
            if f < 0 {
                None
            } else {
                let e = if f < s.len() && (s[f] == 'e' || s[f] == 'E') {
                    let es = if f + 1 < s.len() && (s[f + 1] == '+' || s[f + 1] == '-') {
                        f + 2
                    } else {
                        f + 1
                    };
                    if es < s.len() && '0' <= s[es] && s[es] <= '9' {
                        spec_digits_end(s, es)
                    } else {
                        -1
                    }
                } else {
                    f
                };
                if e < 0 {
                    None
                } else {
                    Some(e)
                }
            }
        }
    }
}

/// A skipped number ends after where it started, within the text.
pub proof fn lemma_skip_number_bounds(s: Seq<char>, i: int)
    requires
        0 <= i,
    ensures
        spec_skip_number(s, i) matches Some(e) ==> i < e <= s.len(),
{
    if spec_skip_number(s, i) is Some {
        let d0 = if 0 <= i < s.len() && s[i] == '-' {
            i + 1
        } else {
            i
        };
        lemma_digits_end_bounds(s, d0);
        let ie = spec_digits_end(s, d0);
        assert(ie == spec_digits_end(s, d0 + 1));
        lemma_digits_end_bounds(s, d0 + 1);
        if ie < s.len() && s[ie] == '.' {
            if ie + 1 < s.len() && '0' <= s[ie + 1] && s[ie + 1] <= '9' {
                lemma_digits_end_bounds(s, ie + 1);
                assert(spec_digits_end(s, ie + 1) == spec_digits_end(s, ie + 2));
                lemma_digits_end_bounds(s, ie + 2);
            }
        }
        let f = if ie < s.len() && s[ie] == '.' {
            if ie + 1 < s.len() && '0' <= s[ie + 1] && s[ie + 1] <= '9' {
                spec_digits_end(s, ie + 1)
            } else {
                -1
            }
        } else {
            ie
        };
        if 0 <= f && f < s.len() && (s[f] == 'e' || s[f] == 'E') {
            let es = if f + 1 < s.len() && (s[f + 1] == '+' || s[f + 1] == '-') {
                f + 2
            } else {
                f + 1
            };
            if es < s.len() && '0' <= s[es] && s[es] <= '9' {
                lemma_digits_end_bounds(s, es);
                assert(spec_digits_end(s, es) == spec_digits_end(s, es + 1));
                lemma_digits_end_bounds(s, es + 1);
            }
        }
    }
}

/// End of the JSON value at `i`, whatever its kind: a string, number,
/// literal, object or array. `depth` caps container nesting; `fuel` only
/// bounds the recursion and is chosen larger than any call chain a text
/// of the given length can force.
pub open spec fn spec_skip_value(s: Seq<char>, i: int, fuel: nat, depth: int) -> Option<int>
    decreases fuel,
{
    if fuel == 0 {
        None
    } else if i < 0 || i >= s.len() {
        None
    } else if s[i] == '"' {
        match spec_str_body(s, i + 1) {
            Some(t) => Some(t.1),
            None => None,
        }
    } else if spec_match_lit(s, i, spec_lit_true()) {
        Some(i + 4)
    } else if spec_match_lit(s, i, spec_lit_false()) {
        Some(i + 5)
    } else if spec_match_lit(s, i, spec_lit_null()) {
        Some(i + 4)
    } else if s[i] == '{' {
        if depth <= 0 {
            None
        } else {
            let j = spec_skip_ws(s, i + 1);
            if j < s.len() && s[j] == '}' {
                Some(j + 1)
            } else {
                spec_skip_members(s, i + 1, (fuel - 1) as nat, depth - 1)
            }
        }
    } else if s[i] == '[' {
        if depth <= 0 {
            None
        } else {
            let j = spec_skip_ws(s, i + 1);
            if j < s.len() && s[j] == ']' {
                Some(j + 1)
            } else {
                spec_skip_elems(s, i + 1, (fuel - 1) as nat, depth - 1)
            }
        }
    } else {
        spec_skip_number(s, i)
    }
}

/// End of the object members from `i` on, up to and past the closing
/// brace: `"key": value` pairs separated by commas.
pub open spec fn spec_skip_members(s: Seq<char>, i: int, fuel: nat, depth: int) -> Option<int>
    decreases fuel,
{
    if fuel == 0 {
        None
    } else {
        let j = spec_skip_ws(s, i);
        match spec_parse_string(s, j) {
            None => None,
            Some((key, after_key)) => {
                let colon = spec_skip_ws(s, after_key);
                if !(colon < s.len() && s[colon] == ':') {
                    None
                } else {
                    let v = spec_skip_ws(s, colon + 1);
                    match spec_skip_value(s, v, (fuel - 1) as nat, depth) {
                        None => None,
                        Some(e) => {
                            let j2 = spec_skip_ws(s, e);
                            if j2 < s.len() && s[j2] == ',' {
                                spec_skip_members(s, j2 + 1, (fuel - 1) as nat, depth)
                            } else if j2 < s.len() && s[j2] == '}' {
                                Some(j2 + 1)
                            } else {
                                None
                            }
                        },
                    }
                }
            },
        }
    }
}

/// End of the array elements from `i` on, up to and past the closing
/// bracket: values separated by commas.
pub open spec fn spec_skip_elems(s: Seq<char>, i: int, fuel: nat, depth: int) -> Option<int>
    decreases fuel,
{
    if fuel == 0 {
        None
    } else {
        let v = spec_skip_ws(s, i);
        match spec_skip_value(s, v, (fuel - 1) as nat, depth) {
            None => None,
            Some(e) => {
                let j2 = spec_skip_ws(s, e);
                if j2 < s.len() && s[j2] == ',' {
                    spec_skip_elems(s, j2 + 1, (fuel - 1) as nat, depth)
                } else if j2 < s.len() && s[j2] == ']' {
                    Some(j2 + 1)
                } else {
                    None
                }
            },
        }
    }
}

/// A skipped value ends after where it started, within the text.
pub proof fn lemma_skip_value_bounds(s: Seq<char>, i: int, fuel: nat, depth: int)
    ensures
        spec_skip_value(s, i, fuel, depth) matches Some(e) ==> i < e <= s.len(),
        spec_skip_members(s, i, fuel, depth) matches Some(e) ==> i < e <= s.len(),
        spec_skip_elems(s, i, fuel, depth) matches Some(e) ==> i < e <= s.len(),
    decreases fuel,
{
    if fuel > 0 {
        if 0 <= i < s.len() {
            lemma_str_body_bounds(s, i + 1);
            lemma_skip_ws_bounds_any(s, i + 1);
            lemma_skip_number_bounds(s, i);
            if spec_skip_value(s, i, fuel, depth) is Some {
                if s[i] == '{' || s[i] == '[' {
                    lemma_skip_value_bounds(s, i + 1, (fuel - 1) as nat, depth - 1);
                }
            }
        }
        // the member and element chains
        let j = spec_skip_ws(s, i);
        lemma_skip_ws_bounds_any(s, i);
        if spec_parse_string(s, j) is Some {
            let (key, after_key) = spec_parse_string(s, j)->Some_0;
            lemma_str_body_bounds(s, j + 1);
            let colon = spec_skip_ws(s, after_key);
            lemma_skip_ws_bounds_any(s, after_key);
            if colon < s.len() && s[colon] == ':' {
                let v = spec_skip_ws(s, colon + 1);
                lemma_skip_ws_bounds_any(s, colon + 1);
                lemma_skip_value_bounds(s, v, (fuel - 1) as nat, depth);
                if spec_skip_value(s, v, (fuel - 1) as nat, depth) is Some {
                    let e = spec_skip_value(s, v, (fuel - 1) as nat, depth)->Some_0;
                    let j2 = spec_skip_ws(s, e);
                    lemma_skip_ws_bounds_any(s, e);
                    if j2 < s.len() && s[j2] == ',' {
                        lemma_skip_value_bounds(s, j2 + 1, (fuel - 1) as nat, depth);
                    }
                }
            }
        }
        let v0 = spec_skip_ws(s, i);
        lemma_skip_value_bounds(s, v0, (fuel - 1) as nat, depth);
        if spec_skip_value(s, v0, (fuel - 1) as nat, depth) is Some {
            let e = spec_skip_value(s, v0, (fuel - 1) as nat, depth)->Some_0;
            let j2 = spec_skip_ws(s, e);
            lemma_skip_ws_bounds_any(s, e);
            if j2 < s.len() && s[j2] == ',' {
                lemma_skip_value_bounds(s, j2 + 1, (fuel - 1) as nat, depth);
            }
        }
    }
}

/// Skipping whitespace never moves backwards, from any position.
pub proof fn lemma_skip_ws_bounds_any(s: Seq<char>, i: int)
    ensures
        spec_skip_ws(s, i) >= i,
        spec_skip_ws(s, i) <= s.len() || spec_skip_ws(s, i) == i,
    decreases s.len() - i,
{
    if 0 <= i < s.len() && spec_jws(s[i]) {
        lemma_skip_ws_bounds_any(s, i + 1);
    }
}

/// Skip the number at `i`.
fn skip_number_at(s: &Vec<char>, i: usize) -> (r: Option<usize>)
    requires
        i <= s@.len(),
    ensures
        match r {
            Some(e) => spec_skip_number(s@, i as int) == Some(e as int) && i < e <= s@.len(),
            None => spec_skip_number(s@, i as int) is None,
        },
{
    let n = s.len();
    let d0 = if i < n && s[i] == '-' {
        i + 1
    } else {
        i
    };
    if !(d0 < n && '0' <= s[d0] && s[d0] <= '9') {
        return None;
    }
    let ie = digits_end_at(s, d0);
    if s[d0] == '0' && ie > d0 + 1 {
        return None;
    }
    let f = if ie < n && s[ie] == '.' {
        if ie + 1 < n && '0' <= s[ie + 1] && s[ie + 1] <= '9' {
            digits_end_at(s, ie + 1)
        } else {
            return None;
        }
    } else {
        ie
    };
    let e = if f < n && (s[f] == 'e' || s[f] == 'E') {
        let es = if f + 1 < n && (s[f + 1] == '+' || s[f + 1] == '-') {
            f + 2
        } else {
            f + 1
        };
        if es < n && '0' <= s[es] && s[es] <= '9' {
            digits_end_at(s, es)
        } else {
            return None;
        }
    } else {
        f
    };
    proof {
        lemma_skip_number_bounds(s@, i as int);
    }
    Some(e)
}

/// First index at or after `i` holding no digit.
fn digits_end_at(s: &Vec<char>, i: usize) -> (r: usize)
    requires
        i <= s@.len(),
    ensures
        r as int == spec_digits_end(s@, i as int),
        i <= r <= s@.len(),
{
    let n = s.len();
    let mut j = i;
    while j < n && '0' <= s[j] && s[j] <= '9'
        invariant
            i <= j <= n,
            n == s@.len(),
            spec_digits_end(s@, i as int) == spec_digits_end(s@, j as int),
        decreases n - j,
    {
        j = j + 1;
    }
    j
}

/// Skip the value at `i`.
fn skip_value_at(s: &Vec<char>, i: usize, fuel: usize, depth: usize) -> (r: Option<usize>)
    requires
        i <= s@.len(),
    ensures
        match r {
            Some(e) => spec_skip_value(s@, i as int, fuel as nat, depth as int) == Some(
                e as int,
            ) && i < e <= s@.len(),
            None => spec_skip_value(s@, i as int, fuel as nat, depth as int) is None,
        },
    decreases fuel,
{
    let n = s.len();
    if fuel == 0 {
        return None;
    }
    if i >= n {
        return None;
    }
    let kw_true: [char; 4] = ['t', 'r', 'u', 'e'];
    let kw_false: [char; 5] = ['f', 'a', 'l', 's', 'e'];
    let kw_null: [char; 4] = ['n', 'u', 'l', 'l'];
    proof {
        assert(kw_true@ =~= spec_lit_true());
        assert(kw_false@ =~= spec_lit_false());
        assert(kw_null@ =~= spec_lit_null());
    }
    let c = s[i];
    if c == '"' {
        match parse_string_at(s, i) {
            Some(p) => Some(p.1),
            None => None,
        }
    } else if match_lit_at(s, i, kw_true.as_slice()) {
        Some(i + 4)
    } else if match_lit_at(s, i, kw_false.as_slice()) {
        Some(i + 5)
    } else if match_lit_at(s, i, kw_null.as_slice()) {
        Some(i + 4)
    } else if c == '{' {
        if depth == 0 {
            return None;
        }
        let j = skip_ws_at(s, i + 1);
        if j < n && s[j] == '}' {
            Some(j + 1)
        } else {
            skip_members_at(s, i + 1, fuel - 1, depth - 1)
        }
    } else if c == '[' {
        if depth == 0 {
            return None;
        }
        let j = skip_ws_at(s, i + 1);
        if j < n && s[j] == ']' {
            Some(j + 1)
        } else {
            skip_elems_at(s, i + 1, fuel - 1, depth - 1)
        }
    } else {
        skip_number_at(s, i)
    }
}

/// Skip the object members from `i` on, past the closing brace.
fn skip_members_at(s: &Vec<char>, i: usize, fuel: usize, depth: usize) -> (r: Option<usize>)
    requires
        i <= s@.len(),
    ensures
        match r {
            Some(e) => spec_skip_members(s@, i as int, fuel as nat, depth as int) == Some(
                e as int,
            ) && i < e <= s@.len(),
            None => spec_skip_members(s@, i as int, fuel as nat, depth as int) is None,
        },
    decreases fuel,
{
    let n = s.len();
    if fuel == 0 {
        return None;
    }
    let j = skip_ws_at(s, i);
    let (_key, after_key) = match parse_string_at(s, j) {
        Some(p) => p,
        None => {
            return None;
        },
    };
    let colon = skip_ws_at(s, after_key);
    if !(colon < n && s[colon] == ':') {
        return None;
    }
    let v = skip_ws_at(s, colon + 1);
    let e = match skip_value_at(s, v, fuel - 1, depth) {
        Some(e) => e,
        None => {
            return None;
        },
    };
    let j2 = skip_ws_at(s, e);
    if j2 < n && s[j2] == ',' {
        skip_members_at(s, j2 + 1, fuel - 1, depth)
    } else if j2 < n && s[j2] == '}' {
        Some(j2 + 1)
    } else {
        None
    }
}

/// Skip the array elements from `i` on, past the closing bracket.
fn skip_elems_at(s: &Vec<char>, i: usize, fuel: usize, depth: usize) -> (r: Option<usize>)
    requires
        i <= s@.len(),
    ensures
        match r {
            Some(e) => spec_skip_elems(s@, i as int, fuel as nat, depth as int) == Some(
                e as int,
            ) && i < e <= s@.len(),
            None => spec_skip_elems(s@, i as int, fuel as nat, depth as int) is None,
        },
    decreases fuel,
{
    let n = s.len();
    if fuel == 0 {
        return None;
    }
    let v = skip_ws_at(s, i);
    let e = match skip_value_at(s, v, fuel - 1, depth) {
        Some(e) => e,
        None => {
            return None;
        },
    };
    let j2 = skip_ws_at(s, e);
    if j2 < n && s[j2] == ',' {
        skip_elems_at(s, j2 + 1, fuel - 1, depth)
    } else if j2 < n && s[j2] == ']' {
        Some(j2 + 1)
    } else {
        None
    }
}

/// What has been read of the config object so far.
pub struct SpecPartial {
    pub has_command: bool,
    pub command: Seq<char>,
    pub has_tty: bool,
    pub tty: bool,
    pub has_rows: bool,
    pub rows: Option<u16>,
    pub has_cols: bool,
    pub cols: Option<u16>,
}

impl SpecPartial {
    /// Nothing read yet.
    pub open spec fn empty() -> SpecPartial {
        SpecPartial {
            has_command: false,
            command: Seq::empty(),
            has_tty: false,
            tty: false,
            has_rows: false,
            rows: None,
            has_cols: false,
            cols: None,
        }
    }
}

/// The key name `command`.
pub open spec fn spec_key_command() -> Seq<char> {
    seq!['c', 'o', 'm', 'm', 'a', 'n', 'd']
}

/// The key name `tty`.
pub open spec fn spec_key_tty() -> Seq<char> {
    seq!['t', 't', 'y']
}

/// The key name `rows`.
pub open spec fn spec_key_rows() -> Seq<char> {
    seq!['r', 'o', 'w', 's']
}

/// The key name `cols`.
pub open spec fn spec_key_cols() -> Seq<char> {
    seq!['c', 'o', 'l', 's']
}

/// The literal `true`.
pub open spec fn spec_lit_true() -> Seq<char> {
    seq!['t', 'r', 'u', 'e']
}

/// The literal `false`.
pub open spec fn spec_lit_false() -> Seq<char> {
    seq!['f', 'a', 'l', 's', 'e']
}

/// The literal `null`.
pub open spec fn spec_lit_null() -> Seq<char> {
    seq!['n', 'u', 'l', 'l']
}

/// One `"key": value` member applied to the partial config: the updated
/// partial and the position after the value. A repeated key, an unknown
/// key, or a value of the wrong shape rejects the whole object.
pub open spec fn spec_parse_member(s: Seq<char>, i: int, acc: SpecPartial) -> Option<
    (SpecPartial, int),
> {
    match spec_parse_string(s, i) {
        None => None,
        Some((key, after_key)) => {
            let colon = spec_skip_ws(s, after_key);
            if !(colon < s.len() && s[colon] == ':') {
                None
            } else {
                let v = spec_skip_ws(s, colon + 1);
                if key == spec_key_command() {
                    if acc.has_command {
                        None
                    } else {
                        match spec_parse_string(s, v) {
                            Some((cmd, e)) => Some(
                                (SpecPartial { has_command: true, command: cmd, ..acc }, e),
                            ),
                            None => None,
                        }
                    }
                } else if key == spec_key_tty() {
                    if acc.has_tty {
                        None
                    } else if spec_match_lit(s, v, spec_lit_true()) {
                        Some(
                            (
                                SpecPartial { has_tty: true, tty: true, ..acc },
                                v + spec_lit_true().len(),
                            ),
                        )
                    } else if spec_match_lit(s, v, spec_lit_false()) {
                        Some(
                            (
                                SpecPartial { has_tty: true, tty: false, ..acc },
                                v + spec_lit_false().len(),
                            ),
                        )
                    } else {
                        None
                    }
                } else if key == spec_key_rows() {
                    if acc.has_rows {
                        None
                    } else if spec_match_lit(s, v, spec_lit_null()) {
                        Some(
                            (
                                SpecPartial { has_rows: true, rows: None, ..acc },
                                v + spec_lit_null().len(),
                            ),
                        )
                    } else {
                        match spec_parse_u16(s, v) {
                            Some((num, e)) => Some(
                                (SpecPartial { has_rows: true, rows: Some(num), ..acc }, e),
                            ),
                            None => None,
                        }
                    }
                } else if key == spec_key_cols() {
                    if acc.has_cols {
                        None
                    } else if spec_match_lit(s, v, spec_lit_null()) {
                        Some(
                            (
                                SpecPartial { has_cols: true, cols: None, ..acc },
                                v + spec_lit_null().len(),
                            ),
                        )
                    } else {
                        match spec_parse_u16(s, v) {
                            Some((num, e)) => Some(
                                (SpecPartial { has_cols: true, cols: Some(num), ..acc }, e),
                            ),
                            None => None,
                        }
                    }
                } else {
                    // an unknown member: its value is skipped, whatever it is
                    match spec_skip_value(s, v, spec_skip_fuel(s, v), 128) {
                        Some(e) => Some((acc, e)),
                        None => None,
                    }
                }
            }
        },
    }
}

/// A member ends after its key's opening quote.
pub proof fn lemma_member_bounds(s: Seq<char>, i: int, acc: SpecPartial)
    requires
        0 <= i <= s.len(),
    ensures
        spec_parse_member(s, i, acc) matches Some(r) ==> i < r.1 <= s.len(),
{
    if spec_parse_member(s, i, acc) is Some {
        let (key, after_key) = spec_parse_string(s, i)->Some_0;
        lemma_str_body_bounds(s, i + 1);
        lemma_skip_ws_bounds(s, after_key);
        let colon = spec_skip_ws(s, after_key);
        let v = spec_skip_ws(s, colon + 1);
        lemma_skip_ws_bounds(s, colon + 1);
        if 0 <= v <= s.len() {
            lemma_str_body_bounds(s, v + 1);
            lemma_digits_end_bounds(s, v);
            lemma_skip_value_bounds(s, v, spec_skip_fuel(s, v), 128);
        }
    }
}

/// The members of the object from position `i` on, applied in order to
/// `acc`, up to and including the closing brace.
pub open spec fn spec_parse_members(s: Seq<char>, i: int, acc: SpecPartial) -> Option<
    (SpecPartial, int),
>
    decreases s.len() - i,
{
    if i < 0 || i > s.len() {
        None
    } else {
        let j = spec_skip_ws(s, i);
        match spec_parse_member(s, j, acc) {
            None => None,
            Some((acc2, e)) => {
                let j2 = spec_skip_ws(s, e);
                if j2 < s.len() && s[j2] == ',' {
                    proof {
                        lemma_skip_ws_bounds(s, i);
                        lemma_member_bounds(s, j, acc);
                        lemma_skip_ws_bounds(s, e);
                    }
                    spec_parse_members(s, j2 + 1, acc2)
                } else if j2 < s.len() && s[j2] == '}' {
                    Some((acc2, j2 + 1))
                } else {
                    None
                }
            },
        }
    }
}

/// The parsed form of an exec-session configuration.
pub struct SpecExecConfig {
    pub command: Seq<char>,
    pub tty: bool,
    pub rows: Option<u16>,
    pub cols: Option<u16>,
}

/// The whole config text: one object with a `command` and optionally
/// `tty`, `rows` and `cols`, and nothing but whitespace around it.
pub open spec fn spec_parse_exec_config(s: Seq<char>) -> Option<SpecExecConfig> {
    let i = spec_skip_ws(s, 0);
    if !(i < s.len() && s[i] == '{') {
        None
    } else {
        let j = spec_skip_ws(s, i + 1);
        if j < s.len() && s[j] == '}' {
            // an empty object has no `command`
            None
        } else {
            match spec_parse_members(s, i + 1, SpecPartial::empty()) {
                None => None,
                Some((acc, e)) => {
                    let t = spec_skip_ws(s, e);
                    if t == s.len() && acc.has_command {
                        Some(
                            SpecExecConfig {
                                command: acc.command,
                                tty: acc.has_tty && acc.tty,
                                rows: if acc.has_rows {
                                    acc.rows
                                } else {
                                    None
                                },
                                cols: if acc.has_cols {
                                    acc.cols
                                } else {
                                    None
                                },
                            },
                        )
                    } else {
                        None
                    }
                },
            }
        }
    }
}

/// An exec-session request: the command to run and how to run it.
pub struct ExecRequest {
    pub command: String,
    pub tty: bool,
    pub rows: Option<u16>,
    pub cols: Option<u16>,
}

impl View for ExecRequest {
    type V = SpecExecConfig;

    open spec fn view(&self) -> SpecExecConfig {
        SpecExecConfig { command: self.command@, tty: self.tty, rows: self.rows, cols: self.cols }
    }
}

/// The exit-code record the agent writes before closing: one line
/// `{"exit_code":N}`.
pub struct ExecResult {
    pub exit_code: i32,
}

/// The text of the exit-code record for a code: `{"exit_code":` then the
/// decimal code then `}`.
pub open spec fn spec_exec_result_json(code: int) -> Seq<u8> {
    seq![
        0x7Bu8, 0x22u8, 0x65u8, 0x78u8, 0x69u8, 0x74u8, 0x5Fu8, 0x63u8, 0x6Fu8, 0x64u8,
        0x65u8, 0x22u8, 0x3Au8,
    ] + spec_dec_int(code) + seq![0x7Du8]
}

/// Skip insignificant whitespace from `i` on.
fn skip_ws_at(s: &Vec<char>, i: usize) -> (r: usize)
    requires
        i <= s@.len(),
    ensures
        r as int == spec_skip_ws(s@, i as int),
        i <= r <= s@.len(),
{
    let n = s.len();
    let mut j = i;
    while j < n && is_jws(s[j])
        invariant
            i <= j <= n,
            n == s@.len(),
            spec_skip_ws(s@, i as int) == spec_skip_ws(s@, j as int),
        decreases n - j,
    {
        j = j + 1;
    }
    j
}

/// Whitespace test on one character.
fn is_jws(c: char) -> (r: bool)
    ensures
        r == spec_jws(c),
{
    c == ' ' || c == '\t' || c == '\n' || c == '\r'
}

/// The character a short escape stands for.
fn escape_char(c: char) -> (r: Option<char>)
    ensures
        r == spec_escape_char(c),
{
    if c == '"' {
        Some('"')
    } else if c == '\\' {
        Some('\\')
    } else if c == '/' {
        Some('/')
    } else if c == 'b' {
        Some('\u{8}')
    } else if c == 'f' {
        Some('\u{c}')
    } else if c == 'n' {
        Some('\n')
    } else if c == 'r' {
        Some('\r')
    } else if c == 't' {
        Some('\t')
    } else {
        None
    }
}

/// Value of one hex digit character.
fn hex_char_val(c: char) -> (r: Option<u32>)
    ensures
        r == spec_hex_char_val(c),
{
    if '0' <= c && c <= '9' {
        Some(c as u32 - '0' as u32)
    } else if 'a' <= c && c <= 'f' {
        Some(c as u32 - 'a' as u32 + 10)
    } else if 'A' <= c && c <= 'F' {
        Some(c as u32 - 'A' as u32 + 10)
    } else {
        None
    }
}

/// The four hex digits at `i`, as a value.
fn hex4_at(s: &Vec<char>, i: usize) -> (r: Option<u32>)
    requires
        i <= s@.len(),
    ensures
        r == spec_hex4(s@, i as int),
{
    if s.len() - i < 4 {
        return None;
    }
    let a = hex_char_val(s[i]);
    let b = hex_char_val(s[i + 1]);
    let c = hex_char_val(s[i + 2]);
    let d = hex_char_val(s[i + 3]);
    match (a, b, c, d) {
        (Some(a), Some(b), Some(c), Some(d)) => Some(a * 4096 + b * 256 + c * 16 + d),
        _ => None,
    }
}

/// Parse the JSON string starting at `i` with its opening quote.
#[verifier::rlimit(100)]
#[verifier::spinoff_prover]
fn parse_string_at(s: &Vec<char>, i: usize) -> (r: Option<(String, usize)>)
    requires
        i <= s@.len(),
    ensures
        match r {
            Some(p) => spec_parse_string(s@, i as int) matches Some(q) && p.0@ == q.0 && p.1
                as int == q.1 && i < p.1 <= s@.len(),
            None => spec_parse_string(s@, i as int) is None,
        },
{
    let n = s.len();
    if !(i < n && s[i] == '"') {
        return None;
    }
    proof {
        lemma_str_body_bounds(s@, i + 1);
    }
    let mut j = i + 1;
    let mut acc: Vec<char> = Vec::new();
    loop
        invariant
            i + 1 <= j <= n,
            n == s@.len(),
            i < n && s@[i as int] == '"',
            (match spec_str_body(s@, j as int) {
                Some(t) => spec_str_body(s@, i + 1) == Some((acc@ + t.0, t.1)),
                None => spec_str_body(s@, i + 1) is None,
            }),
        decreases n - j,
    {
        if j >= n {
            return None;
        }
        let c = s[j];
        if c == '"' {
            proof {
                assert(spec_str_body(s@, j as int) == Some((Seq::<char>::empty(), j + 1)));
                assert(acc@ + Seq::<char>::empty() =~= acc@);
                lemma_str_body_bounds(s@, i + 1);
            }
            return Some((crate::trusted::chars_to_string(&acc), j + 1));
        }
        if c == '\\' {
            if j + 1 >= n {
                return None;
            }
            let c2 = s[j + 1];
            if c2 == 'u' {
                let hi = match hex4_at(s, j + 2) {
                    Some(h) => h,
                    None => {
                        return None;
                    },
                };
                if 0xD800 <= hi && hi < 0xDC00 {
                    if !(n - j >= 12 && s[j + 6] == '\\' && s[j + 7] == 'u') {
                        return None;
                    }
                    let lo = match hex4_at(s, j + 8) {
                        Some(h) => h,
                        None => {
                            return None;
                        },
                    };
                    if !(0xDC00 <= lo && lo < 0xE000) {
                        return None;
                    }
                    let scalar: u32 = 0x10000 + (hi - 0xD800) * 0x400 + (lo - 0xDC00);
                    let ch = match char::from_u32(scalar) {
                        Some(ch) => ch,
                        None => {
                            proof {
                                assert(false);
                            }
                            return None;
                        },
                    };
                    proof {
                        vstd::utf8::char_u32_cast(ch, scalar);
                    }
                    let ghost prev = acc@;
                    acc.push(ch);
                    proof {
                        if spec_str_body(s@, j + 12) is Some {
                            let t = spec_str_body(s@, j + 12)->Some_0;
                            assert(spec_str_body(s@, j as int) == Some(
                                (seq![ch] + t.0, t.1),
                            ));
                            assert(acc@ + t.0 =~= prev + (seq![ch] + t.0));
                        }
                    }
                    j = j + 12;
                } else if 0xDC00 <= hi && hi < 0xE000 {
                    return None;
                } else {
                    let ch = match char::from_u32(hi) {
                        Some(ch) => ch,
                        None => {
                            proof {
                                assert(false);
                            }
                            return None;
                        },
                    };
                    proof {
                        vstd::utf8::char_u32_cast(ch, hi);
                    }
                    let ghost prev = acc@;
                    acc.push(ch);
                    proof {
                        if spec_str_body(s@, j + 6) is Some {
                            let t = spec_str_body(s@, j + 6)->Some_0;
                            assert(spec_str_body(s@, j as int) == Some(
                                (seq![ch] + t.0, t.1),
                            ));
                            assert(acc@ + t.0 =~= prev + (seq![ch] + t.0));
                        }
                    }
                    j = j + 6;
                }
            } else {
                let ch = match escape_char(c2) {
                    Some(ch) => ch,
                    None => {
                        return None;
                    },
                };
                let ghost prev = acc@;
                acc.push(ch);
                proof {
                    if spec_str_body(s@, j + 2) is Some {
                        let t = spec_str_body(s@, j + 2)->Some_0;
                        assert(spec_str_body(s@, j as int) == Some((seq![ch] + t.0, t.1)));
                        assert(acc@ + t.0 =~= prev + (seq![ch] + t.0));
                    }
                }
                j = j + 2;
            }
        } else if (c as u32) < 0x20 {
            return None;
        } else {
            let ghost prev = acc@;
            acc.push(c);
            proof {
                if spec_str_body(s@, j + 1) is Some {
                    let t = spec_str_body(s@, j + 1)->Some_0;
                    assert(spec_str_body(s@, j as int) == Some((seq![c] + t.0, t.1)));
                    assert(acc@ + t.0 =~= prev + (seq![c] + t.0));
                }
            }
            j = j + 1;
        }
    }
}

/// Ten to the `n`.
pub open spec fn spec_pow10(n: nat) -> int
    decreases n,
{
    if n == 0 {
        1
    } else {
        10 * spec_pow10((n - 1) as nat)
    }
}

/// The powers of ten up to five digits.
proof fn lemma_pow10_small()
    ensures
        spec_pow10(0) == 1,
        spec_pow10(1) == 10,
        spec_pow10(2) == 100,
        spec_pow10(3) == 1000,
        spec_pow10(4) == 10000,
        spec_pow10(5) == 100000,
{
    assert(spec_pow10(0) == 1);
    assert(spec_pow10(1) == 10);
    assert(spec_pow10(2) == 100);
    assert(spec_pow10(3) == 1000);
    assert(spec_pow10(4) == 10000);
    assert(spec_pow10(5) == 100000);
}

/// Bounds of a digit run's value, given digits in range.
proof fn lemma_digits_value_range(s: Seq<char>, i: int, end: int)
    requires
        i <= end <= s.len(),
        forall|k: int| i <= k < end ==> '0' <= #[trigger] s[k] && s[k] <= '9',
    ensures
        0 <= spec_char_digits_value(s, i, end) < spec_pow10((end - i) as nat),
    decreases end - i,
{
    if i < end {
        lemma_digits_value_range(s, i, end - 1);
    }
}

/// Parse the `u16` number starting at `i`.
fn parse_u16_at(s: &Vec<char>, i: usize) -> (r: Option<(u16, usize)>)
    requires
        i <= s@.len(),
    ensures
        match r {
            Some(p) => spec_parse_u16(s@, i as int) == Some((p.0, p.1 as int)) && i < p.1
                <= s@.len(),
            None => spec_parse_u16(s@, i as int) is None,
        },
{
    let n = s.len();
    if !(i < n && '0' <= s[i] && s[i] <= '9') {
        return None;
    }
    let mut end = i + 1;
    while end < n && '0' <= s[end] && s[end] <= '9'
        invariant
            i < end <= n,
            n == s@.len(),
            spec_digits_end(s@, i as int) == spec_digits_end(s@, end as int),
            forall|k: int| i <= k < end ==> '0' <= #[trigger] s@[k] && s@[k] <= '9',
        decreases n - end,
    {
        end = end + 1;
    }
    proof {
        assert(spec_digits_end(s@, i as int) == end);
    }
    if end < n && (s[end] == '.' || s[end] == 'e' || s[end] == 'E') {
        return None;
    }
    if s[i] == '0' && end > i + 1 {
        return None;
    }
    if end - i > 5 {
        return None;
    }
    let mut v: u32 = 0;
    let mut k = i;
    proof {
        lemma_digits_value_range(s@, i as int, end as int);
    }
    while k < end
        invariant
            i <= k <= end <= n,
            n == s@.len(),
            end - i <= 5,
            forall|j: int| i <= j < end ==> '0' <= #[trigger] s@[j] && s@[j] <= '9',
            v as int == spec_char_digits_value(s@, i as int, k as int),
            v <= 99999,
        decreases end - k,
    {
        proof {
            lemma_digits_value_range(s@, i as int, k + 1);
            lemma_pow10_small();
            assert(k + 1 - i <= 5);
            assert(spec_pow10((k + 1 - i) as nat) <= 100000) by {
                if k + 1 - i == 1 {
                } else if k + 1 - i == 2 {
                } else if k + 1 - i == 3 {
                } else if k + 1 - i == 4 {
                } else {
                    assert(k + 1 - i == 5);
                }
            }
        }
        v = v * 10 + (s[k] as u32 - '0' as u32);
        k = k + 1;
    }
    if v <= 65535 {
        Some((v as u16, end))
    } else {
        None
    }
}

/// Whether the keyword stands at `i`.
fn match_lit_at(s: &Vec<char>, i: usize, lit: &[char]) -> (r: bool)
    requires
        i <= s@.len(),
    ensures
        r == spec_match_lit(s@, i as int, lit@),
{
    let m = lit.len();
    let nn = s.len();
    if nn - i < m {
        return false;
    }
    let mut t: usize = 0;
    while t < m
        invariant
            t <= m,
            m == lit@.len(),
            nn == s@.len(),
            i + m <= nn,
            forall|j: int| 0 <= j < t ==> s@[i + j] == lit@[j],
        decreases m - t,
    {
        if s[i + t] != lit[t] {
            proof {
                assert(s@.subrange(i as int, i + lit@.len())[t as int] == s@[i + t]);
            }
            return false;
        }
        t = t + 1;
    }
    proof {
        assert(s@.subrange(i as int, i + lit@.len()) =~= lit@);
    }
    true
}

/// What has been read of the config object, in executable form.
struct PartialConfig {
    has_command: bool,
    command: String,
    has_tty: bool,
    tty: bool,
    has_rows: bool,
    rows: Option<u16>,
    has_cols: bool,
    cols: Option<u16>,
}

impl View for PartialConfig {
    type V = SpecPartial;

    closed spec fn view(&self) -> SpecPartial {
        SpecPartial {
            has_command: self.has_command,
            command: self.command@,
            has_tty: self.has_tty,
            tty: self.tty,
            has_rows: self.has_rows,
            rows: self.rows,
            has_cols: self.has_cols,
            cols: self.cols,
        }
    }
}

/// Parse an exec-session configuration line. A line longer than 8 KiB is
/// rejected before parsing.
#[verifier::rlimit(100)]
#[verifier::spinoff_prover]
pub fn parse_exec_config(line: &str) -> (r: Option<ExecRequest>)
    ensures
        line.spec_bytes().len() as usize > 8192 ==> r is None,
        line@.len() > 8192 ==> r is None,
        line.spec_bytes().len() as usize <= 8192 && line@.len() <= 8192 ==> match r {
            Some(req) => spec_parse_exec_config(line@) == Some(req@),
            None => spec_parse_exec_config(line@) is None,
        },
{
    if line.len() > 8192 {
        return None;
    }
    let s = str_to_chars(line);
    let n = s.len();
    if n > 8192 {
        // a character is at least one byte, so this never fires past the
        // byte check; it keeps the skip fuel arithmetic in range
        return None;
    }
    let i0 = skip_ws_at(&s, 0);
    if !(i0 < n && s[i0] == '{') {
        return None;
    }
    let j0 = skip_ws_at(&s, i0 + 1);
    if j0 < n && s[j0] == '}' {
        return None;
    }
    let ghost start = i0 as int + 1;
    let mut acc = PartialConfig {
        has_command: false,
        command: String::new(),
        has_tty: false,
        tty: false,
        has_rows: false,
        rows: None,
        has_cols: false,
        cols: None,
    };
    let mut i = i0 + 1;
    proof {
        assert(acc@ == SpecPartial::empty());
    }
    let kw_true: [char; 4] = ['t', 'r', 'u', 'e'];
    let kw_false: [char; 5] = ['f', 'a', 'l', 's', 'e'];
    let kw_null: [char; 4] = ['n', 'u', 'l', 'l'];
    proof {
        assert(kw_true@ =~= spec_lit_true());
        assert(kw_false@ =~= spec_lit_false());
        assert(kw_null@ =~= spec_lit_null());
    }
    loop
        invariant
            i <= n,
            n == s@.len(),
            s@ == line@,
            start == spec_skip_ws(line@, 0) + 1,
            spec_skip_ws(line@, 0) < line@.len() && line@[spec_skip_ws(line@, 0)] == '{',
            !(spec_skip_ws(line@, start) < line@.len() && line@[spec_skip_ws(line@, start)]
                == '}'),
            spec_parse_members(s@, start, SpecPartial::empty()) == spec_parse_members(
                s@,
                i as int,
                acc@,
            ),
            kw_true@ == spec_lit_true(),
            kw_false@ == spec_lit_false(),
            kw_null@ == spec_lit_null(),
            line.spec_bytes().len() as usize <= 8192,
            n <= 8192,
        decreases n - i,
    {
        let j = skip_ws_at(&s, i);
        let (key, after_key) = match parse_string_at(&s, j) {
            Some(p) => p,
            None => {
                return None;
            },
        };
        let colon = skip_ws_at(&s, after_key);
        if !(colon < n && s[colon] == ':') {
            return None;
        }
        let v = skip_ws_at(&s, colon + 1);
        let ghost acc_before = acc@;
        let e: usize;
        proof {
            reveal_strlit("command");
            reveal_strlit("tty");
            reveal_strlit("rows");
            reveal_strlit("cols");
            assert("command"@ =~= spec_key_command());
            assert("tty"@ =~= spec_key_tty());
            assert("rows"@ =~= spec_key_rows());
            assert("cols"@ =~= spec_key_cols());
        }
        if crate::text::str_eq(key.as_str(), "command") {
            if acc.has_command {
                return None;
            }
            let (cmd, ce) = match parse_string_at(&s, v) {
                Some(p) => p,
                None => {
                    return None;
                },
            };
            acc.has_command = true;
            acc.command = cmd;
            e = ce;
        } else if crate::text::str_eq(key.as_str(), "tty") {
            if acc.has_tty {
                return None;
            }
            if match_lit_at(&s, v, kw_true.as_slice()) {
                acc.has_tty = true;
                acc.tty = true;
                e = v + 4;
            } else if match_lit_at(&s, v, kw_false.as_slice()) {
                acc.has_tty = true;
                acc.tty = false;
                e = v + 5;
            } else {
                return None;
            }
        } else if crate::text::str_eq(key.as_str(), "rows") {
            if acc.has_rows {
                return None;
            }
            if match_lit_at(&s, v, kw_null.as_slice()) {
                acc.has_rows = true;
                acc.rows = None;
                e = v + 4;
            } else {
                let (num, ne) = match parse_u16_at(&s, v) {
                    Some(p) => p,
                    None => {
                        return None;
                    },
                };
                acc.has_rows = true;
                acc.rows = Some(num);
                e = ne;
            }
        } else if crate::text::str_eq(key.as_str(), "cols") {
            if acc.has_cols {
                return None;
            }
            if match_lit_at(&s, v, kw_null.as_slice()) {
                acc.has_cols = true;
                acc.cols = None;
                e = v + 4;
            } else {
                let (num, ne) = match parse_u16_at(&s, v) {
                    Some(p) => p,
                    None => {
                        return None;
                    },
                };
                acc.has_cols = true;
                acc.cols = Some(num);
                e = ne;
            }
        } else {
            // an unknown member: skip its value, leave the config untouched
            let fuel = 2 * (n - v) + 4;
            let ve = match skip_value_at(&s, v, fuel, 128) {
                Some(ve) => ve,
                None => {
                    return None;
                },
            };
            e = ve;
        }
        proof {
            assert(spec_parse_member(s@, j as int, acc_before) == Some((acc@, e as int)));
        }
        let j2 = skip_ws_at(&s, e);
        if j2 < n && s[j2] == ',' {
            i = j2 + 1;
        } else if j2 < n && s[j2] == '}' {
            let t = skip_ws_at(&s, j2 + 1);
            if t != n {
                return None;
            }
            if !acc.has_command {
                return None;
            }
            proof {
                assert(spec_parse_members(s@, i as int, acc_before) == Some(
                    (acc@, j2 + 1 as int),
                ));
            }
            return Some(
                ExecRequest {
                    command: acc.command,
                    tty: acc.has_tty && acc.tty,
                    rows: if acc.has_rows {
                        acc.rows
                    } else {
                        None
                    },
                    cols: if acc.has_cols {
                        acc.cols
                    } else {
                        None
                    },
                },
            );
        } else {
            return None;
        }
    }
}

/// The bytes of the exit-code record, without the newline.
pub fn exec_result_json(code: i32) -> (r: Vec<u8>)
    ensures
        r@ == spec_exec_result_json(code as int),
{
    let mut out: Vec<u8> = Vec::new();
    out.push(0x7Bu8);
    out.push(0x22u8);
    out.push(0x65u8);
    out.push(0x78u8);
    out.push(0x69u8);
    out.push(0x74u8);
    out.push(0x5Fu8);
    out.push(0x63u8);
    out.push(0x6Fu8);
    out.push(0x64u8);
    out.push(0x65u8);
    out.push(0x22u8);
    out.push(0x3Au8);
    push_dec_i64(code as i64, &mut out);
    out.push(0x7Du8);
    proof {
        assert(out@ =~= spec_exec_result_json(code as int));
    }
    out
}

/// The exit-code line the agent writes before closing: record and newline.
pub fn exec_result_line(code: i32) -> (r: Vec<u8>)
    ensures
        r@ == spec_exec_result_json(code as int) + seq![0x0Au8],
{
    let mut out = exec_result_json(code);
    out.push(0x0Au8);
    out
}

/// The exit-code record as text, for consumers that compare it to strings.
pub fn exec_result_json_string(code: i32) -> (r: String)
    ensures
        r@ == spec_exec_result_json(code as int).map_values(|b: u8| b as char),
{
    let bytes = exec_result_json(code);
    let mut cs: Vec<char> = Vec::new();
    let mut i: usize = 0;
    while i < bytes.len()
        invariant
            i <= bytes@.len(),
            cs@ == bytes@.subrange(0, i as int).map_values(|b: u8| b as char),
        decreases bytes@.len() - i,
    {
        cs.push(bytes[i] as char);
        proof {
            assert(bytes@.subrange(0, i + 1).map_values(|b: u8| b as char) =~= bytes@.subrange(
                0,
                i as int,
            ).map_values(|b: u8| b as char).push(bytes@[i as int] as char));
        }
        i = i + 1;
    }
    proof {
        assert(bytes@.subrange(0, bytes@.len() as int) =~= bytes@);
    }
    crate::trusted::chars_to_string(&cs)
}

/// The PTY size an exec request asks for, with the `24x80` fallback.
pub fn exec_pty_size(req: &ExecRequest) -> (r: (u16, u16))
    ensures
        r.0 == (match req.rows {
            Some(v) => v,
            None => 24u16,
        }),
        r.1 == (match req.cols {
            Some(v) => v,
            None => 80u16,
        }),
{
    let rows = match req.rows {
        Some(v) => v,
        None => 24,
    };
    let cols = match req.cols {
        Some(v) => v,
        None => 80,
    };
    (rows, cols)
}


/// The key name `exit_code`.
pub open spec fn spec_key_exit_code() -> Seq<char> {
    seq!['e', 'x', 'i', 't', '_', 'c', 'o', 'd', 'e']
}

/// A signed JSON integer at `i`: an optional minus, a digit run without a
/// leading zero, no fraction or exponent.
pub open spec fn spec_parse_int_at(s: Seq<char>, i: int) -> Option<(int, int)> {
    let neg = 0 <= i < s.len() && s[i] == '-';
    let d = if neg {
        i + 1
    } else {
        i
    };
    if 0 <= d < s.len() && '0' <= s[d] && s[d] <= '9' {
        let end = spec_digits_end(s, d);
        if end < s.len() && (s[end] == '.' || s[end] == 'e' || s[end] == 'E') {
            None
        } else if s[d] == '0' && end > d + 1 {
            None
        } else if end - d > 10 {
            None
        } else {
            let v = spec_char_digits_value(s, d, end);
            if neg {
                Some((-v, end))
            } else {
                Some((v, end))
            }
        }
    } else {
        None
    }
}

/// What an exit-code line means: one object with the single member
/// `exit_code`, its value an integer that fits an `i32`.
pub open spec fn spec_parse_exec_result(s: Seq<char>) -> Option<int> {
    let i = spec_skip_ws(s, 0);
    if !(i < s.len() && s[i] == '{') {
        None
    } else {
        let j = spec_skip_ws(s, i + 1);
        match spec_parse_string(s, j) {
            None => None,
            Some((key, after_key)) => if key != spec_key_exit_code() {
                None
            } else {
                let colon = spec_skip_ws(s, after_key);
                if !(colon < s.len() && s[colon] == ':') {
                    None
                } else {
                    let v = spec_skip_ws(s, colon + 1);
                    match spec_parse_int_at(s, v) {
                        None => None,
                        Some((code, e)) => {
                            let close = spec_skip_ws(s, e);
                            if close < s.len() && s[close] == '}' && spec_skip_ws(
                                s,
                                close + 1,
                            ) == s.len() && i32::MIN <= code <= i32::MAX {
                                Some(code)
                            } else {
                                None
                            }
                        },
                    }
                }
            },
        }
    }
}

/// Parse the signed integer at `i`.
fn parse_int_at(s: &Vec<char>, i: usize) -> (r: Option<(i64, usize)>)
    requires
        i <= s@.len(),
    ensures
        match r {
            Some(p) => spec_parse_int_at(s@, i as int) == Some((p.0 as int, p.1 as int))
                && i < p.1 <= s@.len(),
            None => spec_parse_int_at(s@, i as int) is None,
        },
{
    let n = s.len();
    let neg = i < n && s[i] == '-';
    let d = if neg {
        i + 1
    } else {
        i
    };
    if !(d < n && '0' <= s[d] && s[d] <= '9') {
        return None;
    }
    let mut end = d + 1;
    while end < n && '0' <= s[end] && s[end] <= '9'
        invariant
            d < end <= n,
            n == s@.len(),
            spec_digits_end(s@, d as int) == spec_digits_end(s@, end as int),
            forall|k: int| d <= k < end ==> '0' <= #[trigger] s@[k] && s@[k] <= '9',
        decreases n - end,
    {
        end = end + 1;
    }
    proof {
        assert(spec_digits_end(s@, d as int) == end);
    }
    if end < n && (s[end] == '.' || s[end] == 'e' || s[end] == 'E') {
        return None;
    }
    if s[d] == '0' && end > d + 1 {
        return None;
    }
    if end - d > 10 {
        return None;
    }
    let mut v: u64 = 0;
    let mut k = d;
    proof {
        lemma_digits_value_range(s@, d as int, end as int);
    }
    while k < end
        invariant
            d <= k <= end <= n,
            n == s@.len(),
            end - d <= 10,
            forall|j: int| d <= j < end ==> '0' <= #[trigger] s@[j] && s@[j] <= '9',
            v as int == spec_char_digits_value(s@, d as int, k as int),
            v <= 9_999_999_999u64,
        decreases end - k,
    {
        proof {
            lemma_digits_value_range(s@, d as int, k + 1);
            lemma_pow10_small();
            lemma_pow10_ten();
            assert(k + 1 - d <= 10);
            assert(spec_pow10((k + 1 - d) as nat) <= 10_000_000_000int) by {
                lemma_pow10_mono((k + 1 - d) as nat);
            }
        }
        v = v * 10 + (s[k] as u64 - '0' as u64);
        k = k + 1;
    }
    if neg {
        Some((-(v as i64), end))
    } else {
        Some((v as i64, end))
    }
}

/// The powers of ten up to ten digits.
proof fn lemma_pow10_ten()
    ensures
        spec_pow10(10) == 10_000_000_000int,
{
    lemma_pow10_small();
    assert(spec_pow10(6) == 1000000);
    assert(spec_pow10(7) == 10000000);
    assert(spec_pow10(8) == 100000000);
    assert(spec_pow10(9) == 1000000000);
    assert(spec_pow10(10) == 10_000_000_000int);
}

/// Ten to a small power is at most ten to the tenth.
proof fn lemma_pow10_mono(m: nat)
    requires
        m <= 10,
    ensures
        spec_pow10(m) <= 10_000_000_000int,
    decreases m,
{
    lemma_pow10_ten();
    if m < 10 {
        lemma_pow10_mono_aux(m, 10);
    }
}

/// Ten to a smaller power is no larger.
proof fn lemma_pow10_mono_aux(m: nat, top: nat)
    requires
        m <= top,
    ensures
        spec_pow10(m) <= spec_pow10(top),
    decreases top,
{
    if m < top {
        lemma_pow10_mono_aux(m, (top - 1) as nat);
        lemma_pow10_pos((top - 1) as nat);
    }
}

/// Powers of ten are positive.
proof fn lemma_pow10_pos(m: nat)
    ensures
        spec_pow10(m) >= 1,
    decreases m,
{
    if m > 0 {
        lemma_pow10_pos((m - 1) as nat);
    }
}

/// Parse an exit-code line, as the session consumer reads it: `None` for
/// anything but a single `exit_code` member with a fitting integer.
pub fn parse_exec_result(line: &str) -> (r: Option<i32>)
    ensures
        match r {
            Some(code) => spec_parse_exec_result(line@) == Some(code as int),
            None => spec_parse_exec_result(line@) is None,
        },
{
    let s = str_to_chars(line);
    let n = s.len();
    let i = skip_ws_at(&s, 0);
    if !(i < n && s[i] == '{') {
        return None;
    }
    let j = skip_ws_at(&s, i + 1);
    let (key, after_key) = match parse_string_at(&s, j) {
        Some(p) => p,
        None => {
            return None;
        },
    };
    proof {
        reveal_strlit("exit_code");
        assert("exit_code"@ =~= spec_key_exit_code());
    }
    if !crate::text::str_eq(key.as_str(), "exit_code") {
        return None;
    }
    let colon = skip_ws_at(&s, after_key);
    if !(colon < n && s[colon] == ':') {
        return None;
    }
    let v = skip_ws_at(&s, colon + 1);
    let (code, e) = match parse_int_at(&s, v) {
        Some(p) => p,
        None => {
            return None;
        },
    };
    let close = skip_ws_at(&s, e);
    if !(close < n && s[close] == '}') {
        return None;
    }
    let t = skip_ws_at(&s, close + 1);
    if t != n {
        return None;
    }
    if code < i32::MIN as i64 || code > i32::MAX as i64 {
        return None;
    }
    Some(code as i32)
}

} // verus!
