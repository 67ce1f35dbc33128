//! A scanner for one-line JSON objects, the shape of a CLEF record.
//!
//! A line is accepted when it is a single JSON object — optionally surrounded
//! by blanks — whose keys are strings and whose values are strings, numbers,
//! `true`, `false`, `null`, or balanced nested objects and arrays. Scalar
//! values are checked against the JSON grammar; a nested composite value is
//! checked for string integrity and balanced nesting only and kept as one
//! opaque span, since the viewer never looks inside it.
//!
//! Each member is extracted as its key (the bytes between the key's quotes,
//! escape sequences kept verbatim) and its value's exact textual form (a
//! string value keeps its surrounding quotes), in source order.

use vstd::prelude::*;
use crate::AppError;

verus! {

/// True of a blank byte that may surround tokens on a line: space, tab, or
/// carriage return.
pub open spec fn is_ws(b: u8) -> bool {
    b == ' ' as u8 || b == '\t' as u8 || b == '\r' as u8
}

/// The first position at or after `i` that holds a non-blank byte, or the end
/// of `s`.
pub open spec fn skip_ws(s: Seq<u8>, i: int) -> int
    decreases s.len() - i,
{
    if i < 0 || i >= s.len() {
        i
    } else if is_ws(s[i]) {
        skip_ws(s, i + 1)
    } else {
        i
    }
}

pub proof fn lemma_skip_ws_bounds(s: Seq<u8>, i: int)
    requires
        0 <= i <= s.len(),
    ensures
        i <= skip_ws(s, i) <= s.len(),
    decreases s.len() - i,
{
    if i < s.len() && is_ws(s[i]) {
        lemma_skip_ws_bounds(s, i + 1);
    }
}

/// Given the first content position `i` after an opening quote, the position
/// just after the string's closing quote; a backslash escapes the byte after
/// it. `None` when the string never closes.
pub open spec fn str_end(s: Seq<u8>, i: int) -> Option<int>
    decreases s.len() - i,
{
    if i < 0 || i >= s.len() {
        None
    } else if s[i] == '"' as u8 {
        Some(i + 1)
    } else if s[i] == '\\' as u8 {
        if i + 1 < s.len() {
            str_end(s, i + 2)
        } else {
            None
        }
    } else {
        str_end(s, i + 1)
    }
}

pub proof fn lemma_str_end_bounds(s: Seq<u8>, i: int)
    requires
        0 <= i,
    ensures
        str_end(s, i) matches Some(j) ==> i < j <= s.len(),
    decreases s.len() - i,
{
    if 0 <= i < s.len() {
        if s[i] == '\\' as u8 {
            if i + 1 < s.len() {
                lemma_str_end_bounds(s, i + 2);
            }
        } else if s[i] != '"' as u8 {
            lemma_str_end_bounds(s, i + 1);
        }
    }
}

/// True of an ASCII decimal digit.
pub open spec fn is_digit(b: u8) -> bool {
    '0' as u8 <= b && b <= '9' as u8
}

/// The first position at or after `i` that holds a non-digit byte, or the end
/// of `s`.
pub open spec fn digits_end(s: Seq<u8>, i: int) -> int
    decreases s.len() - i,
{
    if i < 0 || i >= s.len() {
        i
    } else if is_digit(s[i]) {
        digits_end(s, i + 1)
    } else {
        i
    }
}

pub proof fn lemma_digits_end_bounds(s: Seq<u8>, i: int)
    requires
        0 <= i <= s.len(),
    ensures
        i <= digits_end(s, i) <= s.len(),
    decreases s.len() - i,
{
    if i < s.len() && is_digit(s[i]) {
        lemma_digits_end_bounds(s, i + 1);
    }
}

/// True of a byte that a scalar token may consist of: anything but blanks,
/// structural punctuation and quotes.
pub open spec fn is_prim_byte(b: u8) -> bool {
    !is_ws(b) && b != ',' as u8 && b != ':' as u8 && b != '"' as u8 && b != '{' as u8 && b != '}'
        as u8 && b != '[' as u8 && b != ']' as u8
}

/// The first position at or after `i` where the scalar token ends.
pub open spec fn prim_end(s: Seq<u8>, i: int) -> int
    decreases s.len() - i,
{
    if i < 0 || i >= s.len() {
        i
    } else if is_prim_byte(s[i]) {
        prim_end(s, i + 1)
    } else {
        i
    }
}

pub proof fn lemma_prim_end_bounds(s: Seq<u8>, i: int)
    requires
        0 <= i <= s.len(),
    ensures
        i <= prim_end(s, i) <= s.len(),
    decreases s.len() - i,
{
    if i < s.len() && is_prim_byte(s[i]) {
        lemma_prim_end_bounds(s, i + 1);
    }
}

/// True of a token that is a JSON number: an optional minus sign, an integer
/// part without a superfluous leading zero, an optional fraction, and an
/// optional exponent with an optional sign.
pub open spec fn is_number(t: Seq<u8>) -> bool {
    let i0: int = if t.len() > 0 && t[0] == '-' as u8 {
        1
    } else {
        0
    };
    let i1 = digits_end(t, i0);
    let int_ok = i1 > i0 && (t[i0] != '0' as u8 || i1 == i0 + 1);
    let i2: int = if i1 < t.len() && t[i1] == '.' as u8 {
        digits_end(t, i1 + 1)
    } else {
        i1
    };
    let frac_ok = !(i1 < t.len() && t[i1] == '.' as u8) || i2 > i1 + 1;
    let e0: int = if i2 < t.len() && (t[i2] == 'e' as u8 || t[i2] == 'E' as u8) {
        if i2 + 1 < t.len() && (t[i2 + 1] == '+' as u8 || t[i2 + 1] == '-' as u8) {
            i2 + 2
        } else {
            i2 + 1
        }
    } else {
        i2
    };
    let i3: int = if i2 < t.len() && (t[i2] == 'e' as u8 || t[i2] == 'E' as u8) {
        digits_end(t, e0)
    } else {
        i2
    };
    let exp_ok = !(i2 < t.len() && (t[i2] == 'e' as u8 || t[i2] == 'E' as u8)) || i3 > e0;
    int_ok && frac_ok && exp_ok && i3 == t.len()
}

/// The bytes of `"true"`.
pub open spec fn lit_true() -> Seq<u8> {
    seq!['t' as u8, 'r' as u8, 'u' as u8, 'e' as u8]
}

/// The bytes of `"false"`.
pub open spec fn lit_false() -> Seq<u8> {
    seq!['f' as u8, 'a' as u8, 'l' as u8, 's' as u8, 'e' as u8]
}

/// The bytes of `"null"`.
pub open spec fn lit_null() -> Seq<u8> {
    seq!['n' as u8, 'u' as u8, 'l' as u8, 'l' as u8]
}

/// True of a scalar token that is valid JSON: one of the three literal words,
/// or a number.
pub open spec fn is_valid_prim(t: Seq<u8>) -> bool {
    t == lit_true() || t == lit_false() || t == lit_null() || is_number(t)
}

/// Given the position `i` just after an opening bracket, the position just
/// after the bracket that closes it, skipping over strings; `depth` counts
/// the brackets still open and `in_str` tells whether the scan stands inside
/// a string. `None` when the brackets never balance.
pub open spec fn bracket_end(s: Seq<u8>, i: int, depth: int, in_str: bool) -> Option<int>
    decreases s.len() - i,
{
    if i < 0 || i >= s.len() {
        None
    } else if in_str {
        if s[i] == '\\' as u8 {
            if i + 1 < s.len() {
                bracket_end(s, i + 2, depth, true)
            } else {
                None
            }
        } else if s[i] == '"' as u8 {
            bracket_end(s, i + 1, depth, false)
        } else {
            bracket_end(s, i + 1, depth, true)
        }
    } else if s[i] == '"' as u8 {
        bracket_end(s, i + 1, depth, true)
    } else if s[i] == '{' as u8 || s[i] == '[' as u8 {
        bracket_end(s, i + 1, depth + 1, false)
    } else if s[i] == '}' as u8 || s[i] == ']' as u8 {
        if depth == 1 {
            Some(i + 1)
        } else {
            bracket_end(s, i + 1, depth - 1, false)
        }
    } else {
        bracket_end(s, i + 1, depth, false)
    }
}

pub proof fn lemma_bracket_end_bounds(s: Seq<u8>, i: int, depth: int, in_str: bool)
    requires
        0 <= i,
    ensures
        bracket_end(s, i, depth, in_str) matches Some(j) ==> i < j <= s.len(),
    decreases s.len() - i,
{
    if 0 <= i < s.len() {
        if in_str && s[i] == '\\' as u8 {
            if i + 1 < s.len() {
                lemma_bracket_end_bounds(s, i + 2, depth, in_str);
            }
        } else {
            lemma_bracket_end_bounds(s, i + 1, depth, in_str);
            lemma_bracket_end_bounds(s, i + 1, depth, !in_str);
            lemma_bracket_end_bounds(s, i + 1, depth + 1, false);
            lemma_bracket_end_bounds(s, i + 1, depth - 1, false);
        }
    }
}

/// Given the position `i` of the first byte of a JSON value, the position
/// just after that value; `None` when no valid value starts at `i`.
pub open spec fn value_end(s: Seq<u8>, i: int) -> Option<int> {
    if i < 0 || i >= s.len() {
        None
    } else if s[i] == '"' as u8 {
        str_end(s, i + 1)
    } else if s[i] == '{' as u8 || s[i] == '[' as u8 {
        bracket_end(s, i + 1, 1, false)
    } else {
        let j = prim_end(s, i);
        if j > i && is_valid_prim(s.subrange(i, j)) {
            Some(j)
        } else {
            None
        }
    }
}

pub proof fn lemma_value_end_bounds(s: Seq<u8>, i: int)
    requires
        0 <= i,
    ensures
        value_end(s, i) matches Some(j) ==> i < j <= s.len(),
{
    if i < s.len() {
        lemma_str_end_bounds(s, i + 1);
        lemma_bracket_end_bounds(s, i + 1, 1, false);
        lemma_prim_end_bounds(s, i);
    }
}

/// The members of an object read from position `i`, which stands just after
/// the opening brace or just after a separating comma: a key string, a
/// colon, a value, and then either a comma and further members or the
/// closing brace. Yields the members in source order together with the
/// position just after the closing brace; `None` when the shape is broken.
pub open spec fn members_from(s: Seq<u8>, i: int) -> Option<(Seq<(Seq<u8>, Seq<u8>)>, int)>
    decreases s.len() - i,
{
    if i < 0 || i > s.len() {
        None
    } else {
        let j = skip_ws(s, i);
        if j >= s.len() || s[j] != '"' as u8 {
            None
        } else {
            match str_end(s, j + 1) {
                None => None,
                Some(k) => {
                    let key = s.subrange(j + 1, k - 1);
                    let m = skip_ws(s, k);
                    if m >= s.len() || s[m] != ':' as u8 {
                        None
                    } else {
                        let v0 = skip_ws(s, m + 1);
                        match value_end(s, v0) {
                            None => None,
                            Some(ve) => {
                                let value = s.subrange(v0, ve);
                                let w = skip_ws(s, ve);
                                if w < s.len() && s[w] == ',' as u8 {
                                    proof {
                                        lemma_skip_ws_bounds(s, i);
                                        lemma_str_end_bounds(s, j + 1);
                                        lemma_skip_ws_bounds(s, k);
                                        lemma_skip_ws_bounds(s, m + 1);
                                        lemma_value_end_bounds(s, v0);
                                        lemma_skip_ws_bounds(s, ve);
                                    }
                                    match members_from(s, w + 1) {
                                        None => None,
                                        Some(rest) => Some(
                                            (seq![(key, value)] + rest.0, rest.1),
                                        ),
                                    }
                                } else if w < s.len() && s[w] == '}' as u8 {
                                    Some((seq![(key, value)], w + 1))
                                } else {
                                    None
                                }
                            },
                        }
                    }
                },
            }
        }
    }
}

pub proof fn lemma_members_from_bounds(s: Seq<u8>, i: int)
    requires
        0 <= i <= s.len(),
    ensures
        members_from(s, i) matches Some(r) ==> i < r.1 <= s.len(),
    decreases s.len() - i,
{
    let j = skip_ws(s, i);
    lemma_skip_ws_bounds(s, i);
    if j < s.len() && s[j] == '"' as u8 {
        lemma_str_end_bounds(s, j + 1);
        if str_end(s, j + 1) is Some {
            let k = str_end(s, j + 1).unwrap();
            let m = skip_ws(s, k);
            lemma_skip_ws_bounds(s, k);
            if m < s.len() && s[m] == ':' as u8 {
                let v0 = skip_ws(s, m + 1);
                lemma_skip_ws_bounds(s, m + 1);
                if value_end(s, v0) is Some {
                    let ve = value_end(s, v0).unwrap();
                    lemma_value_end_bounds(s, v0);
                    let w = skip_ws(s, ve);
                    lemma_skip_ws_bounds(s, ve);
                    if w < s.len() && s[w] == ',' as u8 {
                        lemma_members_from_bounds(s, w + 1);
                    }
                }
            }
        }
    }
}

/// The members of the JSON object a whole line holds: blanks, an object from
/// its opening to its closing brace, blanks, and nothing else. `None` when
/// the line is not such an object.
pub open spec fn spec_parse_members(s: Seq<u8>) -> Option<Seq<(Seq<u8>, Seq<u8>)>> {
    let a = skip_ws(s, 0);
    if a >= s.len() || s[a] != '{' as u8 {
        None
    } else {
        let b = skip_ws(s, a + 1);
        if b < s.len() && s[b] == '}' as u8 {
            if skip_ws(s, b + 1) == s.len() {
                Some(Seq::empty())
            } else {
                None
            }
        } else {
            match members_from(s, a + 1) {
                None => None,
                Some(r) => if skip_ws(s, r.1) == s.len() {
                    Some(r.0)
                } else {
                    None
                },
            }
        }
    }
}

/// One member of a JSON object: the key's bytes and the value's exact
/// textual form.
#[derive(Debug)]
pub struct Member {
    pub key: Vec<u8>,
    pub value: Vec<u8>,
}

impl Member {
    /// The member as the pair of byte strings it stands for.
    pub open spec fn model(self) -> (Seq<u8>, Seq<u8>) {
        (self.key@, self.value@)
    }
}

/// The byte-string pairs a sequence of members stands for.
pub open spec fn members_model(v: Seq<Member>) -> Seq<(Seq<u8>, Seq<u8>)> {
    v.map_values(|m: Member| m.model())
}

/// `skip_ws`, computed.
fn skip_ws_x(s: &[u8], i: usize) -> (r: usize)
    requires
        i <= s@.len(),
    ensures
        r == skip_ws(s@, i as int),
        i <= r <= s@.len(),
{
    let mut j = i;
    while j < s.len() && (s[j] == ' ' as u8 || s[j] == '\t' as u8 || s[j] == '\r' as u8)
        invariant
            i <= j <= s@.len(),
            skip_ws(s@, i as int) == skip_ws(s@, j as int),
        decreases s@.len() - j,
    {
        j = j + 1;
    }
    j
}

/// `str_end`, computed.
fn str_end_x(s: &[u8], i: usize) -> (r: Option<usize>)
    requires
        i <= s@.len(),
    ensures
        r is Some <==> str_end(s@, i as int) is Some,
        r matches Some(j) ==> str_end(s@, i as int) == Some(j as int) && i < j <= s@.len(),
{
    let mut j = i;
    while j < s.len()
        invariant
            i <= j <= s@.len(),
            str_end(s@, i as int) == str_end(s@, j as int),
        decreases s@.len() - j,
    {
        if s[j] == '"' as u8 {
            return Some(j + 1);
        } else if s[j] == '\\' as u8 {
            if j + 1 < s.len() {
                j = j + 2;
            } else {
                return None;
            }
        } else {
            j = j + 1;
        }
    }
    None
}

/// `digits_end`, computed.
fn digits_end_x(s: &[u8], i: usize) -> (r: usize)
    requires
        i <= s@.len(),
    ensures
        r == digits_end(s@, i as int),
        i <= r <= s@.len(),
{
    let mut j = i;
    while j < s.len() && '0' as u8 <= s[j] && s[j] <= '9' as u8
        invariant
            i <= j <= s@.len(),
            digits_end(s@, i as int) == digits_end(s@, j as int),
        decreases s@.len() - j,
    {
        j = j + 1;
    }
    j
}

/// `prim_end`, computed.
fn prim_end_x(s: &[u8], i: usize) -> (r: usize)
    requires
        i <= s@.len(),
    ensures
        r == prim_end(s@, i as int),
        i <= r <= s@.len(),
{
    let mut j = i;
    while j < s.len() && !(s[j] == ' ' as u8 || s[j] == '\t' as u8 || s[j] == '\r' as u8 || s[j]
        == ',' as u8 || s[j] == ':' as u8 || s[j] == '"' as u8 || s[j] == '{' as u8 || s[j] == '}'
        as u8 || s[j] == '[' as u8 || s[j] == ']' as u8)
        invariant
            i <= j <= s@.len(),
            prim_end(s@, i as int) == prim_end(s@, j as int),
        decreases s@.len() - j,
    {
        j = j + 1;
    }
    j
}

/// `is_number`, computed.
fn is_number_x(t: &[u8]) -> (r: bool)
    ensures
        r == is_number(t@),
{
    let n = t.len();
    let i0: usize = if n > 0 && t[0] == '-' as u8 {
        1
    } else {
        0
    };
    let i1 = digits_end_x(t, i0);
    let int_ok = i1 > i0 && (t[i0] != '0' as u8 || i1 == i0 + 1);
    let has_frac = i1 < n && t[i1] == '.' as u8;
    let i2: usize = if has_frac {
        digits_end_x(t, i1 + 1)
    } else {
        i1
    };
    let frac_ok = !has_frac || i2 > i1 + 1;
    let has_exp = i2 < n && (t[i2] == 'e' as u8 || t[i2] == 'E' as u8);
    let e0: usize = if has_exp {
        if i2 + 1 < n && (t[i2 + 1] == '+' as u8 || t[i2 + 1] == '-' as u8) {
            i2 + 2
        } else {
            i2 + 1
        }
    } else {
        i2
    };
    let i3: usize = if has_exp {
        digits_end_x(t, e0)
    } else {
        i2
    };
    let exp_ok = !has_exp || i3 > e0;
    int_ok && frac_ok && exp_ok && i3 == n
}

/// `is_valid_prim`, computed.
fn is_valid_prim_x(t: &[u8]) -> (r: bool)
    ensures
        r == is_valid_prim(t@),
{
    let lt: Vec<u8> = vec!['t' as u8, 'r' as u8, 'u' as u8, 'e' as u8];
    let lf: Vec<u8> = vec!['f' as u8, 'a' as u8, 'l' as u8, 's' as u8, 'e' as u8];
    let ln: Vec<u8> = vec!['n' as u8, 'u' as u8, 'l' as u8, 'l' as u8];
    proof {
        assert(lt@ =~= lit_true());
        assert(lf@ =~= lit_false());
        assert(ln@ =~= lit_null());
    }
    crate::text::bytes_eq(t, lt.as_slice()) || crate::text::bytes_eq(t, lf.as_slice())
        || crate::text::bytes_eq(t, ln.as_slice()) || is_number_x(t)
}

/// `bracket_end` from just after an opening bracket, computed.
fn bracket_end_x(s: &[u8], i: usize) -> (r: Option<usize>)
    requires
        1 <= i <= s@.len(),
    ensures
        r is Some <==> bracket_end(s@, i as int, 1, false) is Some,
        r matches Some(j) ==> bracket_end(s@, i as int, 1, false) == Some(j as int) && i < j
            <= s@.len(),
{
    let mut j = i;
    let mut depth: usize = 1;
    let mut in_str = false;
    while j < s.len()
        invariant
            i <= j,
            j <= s@.len(),
            1 <= depth <= j,
            bracket_end(s@, i as int, 1, false) == bracket_end(
                s@,
                j as int,
                depth as int,
                in_str,
            ),
        decreases s@.len() - j,
    {
        let b = s[j];
        if in_str {
            if b == '\\' as u8 {
                if j + 1 < s.len() {
                    j = j + 2;
                } else {
                    return None;
                }
            } else {
                if b == '"' as u8 {
                    in_str = false;
                }
                j = j + 1;
            }
        } else if b == '"' as u8 {
            in_str = true;
            j = j + 1;
        } else if b == '{' as u8 || b == '[' as u8 {
            depth = depth + 1;
            j = j + 1;
        } else if b == '}' as u8 || b == ']' as u8 {
            if depth == 1 {
                return Some(j + 1);
            }
            depth = depth - 1;
            j = j + 1;
        } else {
            j = j + 1;
        }
    }
    None
}

/// `value_end`, computed.
fn value_end_x(s: &[u8], i: usize) -> (r: Option<usize>)
    requires
        i <= s@.len(),
    ensures
        r is Some <==> value_end(s@, i as int) is Some,
        r matches Some(j) ==> value_end(s@, i as int) == Some(j as int) && i < j <= s@.len(),
{
    if i >= s.len() {
        return None;
    }
    let b = s[i];
    if b == '"' as u8 {
        str_end_x(s, i + 1)
    } else if b == '{' as u8 || b == '[' as u8 {
        bracket_end_x(s, i + 1)
    } else {
        let j = prim_end_x(s, i);
        if j > i {
            let token = crate::text::copy_range(s, i, j);
            if is_valid_prim_x(token.as_slice()) {
                Some(j)
            } else {
                None
            }
        } else {
            None
        }
    }
}

/// `members_from`, computed: the members from a position just after the
/// opening brace or a separating comma, with the position just after the
/// closing brace.
fn members_from_x(s: &[u8], i: usize) -> (r: Option<(Vec<Member>, usize)>)
    requires
        i <= s@.len(),
    ensures
        r is Some <==> members_from(s@, i as int) is Some,
        r matches Some(rv) ==> (members_from(s@, i as int) matches Some(sm) && members_model(
            rv.0@,
        ) == sm.0 && rv.1 == sm.1 && i < rv.1 <= s@.len()),
    decreases s@.len() - i,
{
    let j = skip_ws_x(s, i);
    if j >= s.len() || s[j] != '"' as u8 {
        return None;
    }
    let k = match str_end_x(s, j + 1) {
        None => {
            return None;
        },
        Some(k) => k,
    };
    let key = crate::text::copy_range(s, j + 1, k - 1);
    let m = skip_ws_x(s, k);
    if m >= s.len() || s[m] != ':' as u8 {
        return None;
    }
    let v0 = skip_ws_x(s, m + 1);
    let ve = match value_end_x(s, v0) {
        None => {
            return None;
        },
        Some(ve) => ve,
    };
    let value = crate::text::copy_range(s, v0, ve);
    let w = skip_ws_x(s, ve);
    if w < s.len() && s[w] == ',' as u8 {
        match members_from_x(s, w + 1) {
            None => None,
            Some((mut rest, p)) => {
                rest.insert(0, Member { key, value });
                proof {
                    let sm = members_from(s@, i as int).unwrap();
                    assert(members_model(rest@) =~= sm.0);
                }
                Some((rest, p))
            },
        }
    } else if w < s.len() && s[w] == '}' as u8 {
        let one = vec![Member { key, value }];
        proof {
            let sm = members_from(s@, i as int).unwrap();
            assert(members_model(one@) =~= sm.0);
        }
        Some((one, w + 1))
    } else {
        None
    }
}

/// Scans one line as a JSON object and yields its members in source order:
/// each key with the exact textual form of its value. Fails with
/// `MalformedEvent` when the line is not a single JSON object.
pub fn parse_json_object(line: &[u8]) -> (r: Result<Vec<Member>, AppError>)
    ensures
        r is Ok <==> spec_parse_members(line@) is Some,
        r matches Ok(v) ==> (spec_parse_members(line@) matches Some(ms) && members_model(v@)
            == ms),
        r matches Err(e) ==> e == AppError::MalformedEvent,
{
    let a = skip_ws_x(line, 0);
    if a >= line.len() || line[a] != '{' as u8 {
        return Err(AppError::MalformedEvent);
    }
    let b = skip_ws_x(line, a + 1);
    if b < line.len() && line[b] == '}' as u8 {
        if skip_ws_x(line, b + 1) == line.len() {
            let none: Vec<Member> = Vec::new();
            proof {
                assert(members_model(none@) =~= Seq::<(Seq<u8>, Seq<u8>)>::empty());
            }
            return Ok(none);
        } else {
            return Err(AppError::MalformedEvent);
        }
    }
    match members_from_x(line, a + 1) {
        None => Err(AppError::MalformedEvent),
        Some((ms, p)) => {
            if skip_ws_x(line, p) == line.len() {
                Ok(ms)
            } else {
                Err(AppError::MalformedEvent)
            }
        },
    }
}

} // verus!
