//! Byte-level JSON for the wire protocol.
//!
//! The wire format is line-oriented JSON, so the grammar itself is part of
//! this library's contract. Every parsing function exists twice: a spec
//! function that defines the grammar mathematically over byte sequences,
//! and an executable mirror proved to return exactly what the spec
//! function says. String contents are returned with their escapes
//! resolved, as UTF-8 bytes.

use vstd::prelude::*;
use vstd::utf8::encode_scalar;

verus! {

/// JSON insignificant whitespace.
pub open spec fn is_json_ws(b: u8) -> bool {
    b == 0x20 || b == 0x09 || b == 0x0A || b == 0x0D
}

/// Index of the first non-whitespace byte at or after `i`.
pub open spec fn spec_skip_ws(s: Seq<u8>, i: int) -> int
    decreases s.len() - i,
{
    if i < 0 || i >= s.len() {
        i
    } else if is_json_ws(s[i]) {
        spec_skip_ws(s, i + 1)
    } else {
        i
    }
}

pub(crate) fn skip_ws(s: &[u8], i: usize) -> (j: usize)
    requires
        i <= s@.len(),
    ensures
        j as int == spec_skip_ws(s@, i as int),
        i <= j <= s@.len(),
{
    let mut k = i;
    while k < s.len() && (s[k] == 0x20 || s[k] == 0x09 || s[k] == 0x0A || s[k] == 0x0D)
        invariant
            i <= k <= s@.len(),
            spec_skip_ws(s@, i as int) == spec_skip_ws(s@, k as int),
        decreases s@.len() - k,
    {
        k = k + 1;
    }
    k
}

/// Value of one hex digit, or `None` for any other byte.
pub open spec fn hex_val(b: u8) -> Option<u8> {
    if 0x30 <= b <= 0x39 {
        Some((b - 0x30) as u8)
    } else if 0x61 <= b <= 0x66 {
        Some((b - 0x61 + 10) as u8)
    } else if 0x41 <= b <= 0x46 {
        Some((b - 0x41 + 10) as u8)
    } else {
        None
    }
}

/// Value of the four hex digits at `i`, or `None` if any byte is not hex
/// or the input is too short.
pub open spec fn hex4(s: Seq<u8>, i: int) -> Option<u32> {
    if i < 0 || i + 4 > s.len() {
        None
    } else {
        match (hex_val(s[i]), hex_val(s[i + 1]), hex_val(s[i + 2]), hex_val(s[i + 3])) {
            (Some(a), Some(b), Some(c), Some(d)) => Some(
                (a * 0x1000 + b * 0x100 + c * 0x10 + d) as u32,
            ),
            _ => None,
        }
    }
}

fn hex_val_x(b: u8) -> (r: Option<u8>)
    ensures
        r == hex_val(b),
{
    if 0x30 <= b && b <= 0x39 {
        Some(b - 0x30)
    } else if 0x61 <= b && b <= 0x66 {
        Some(b - 0x61 + 10)
    } else if 0x41 <= b && b <= 0x46 {
        Some(b - 0x41 + 10)
    } else {
        None
    }
}

fn hex4_x(s: &[u8], i: usize) -> (r: Option<u32>)
    requires
        i <= s@.len(),
    ensures
        r == hex4(s@, i as int),
{
    if s.len() - i < 4 {
        return None;
    }
    match (hex_val_x(s[i]), hex_val_x(s[i + 1]), hex_val_x(s[i + 2]), hex_val_x(s[i + 3])) {
        (Some(a), Some(b), Some(c), Some(d)) => Some(
            (a as u32) * 0x1000 + (b as u32) * 0x100 + (c as u32) * 0x10 + (d as u32),
        ),
        _ => None,
    }
}

/// The byte that a one-character escape stands for, or `None` if the
/// character cannot follow a backslash.
pub open spec fn unescape_simple(e: u8) -> Option<u8> {
    if e == 0x22 {
        Some(0x22u8)
    } else if e == 0x5C {
        Some(0x5Cu8)
    } else if e == 0x2F {
        Some(0x2Fu8)
    } else if e == 0x62 {
        Some(0x08u8)
    } else if e == 0x66 {
        Some(0x0Cu8)
    } else if e == 0x6E {
        Some(0x0Au8)
    } else if e == 0x72 {
        Some(0x0Du8)
    } else if e == 0x74 {
        Some(0x09u8)
    } else {
        None
    }
}

/// Parse of a string body starting just after the opening quote: the
/// unescaped content bytes and the index just past the closing quote.
/// Escapes are resolved; `\uXXXX` covers the basic plane except
/// surrogates; unescaped control bytes are rejected.
pub open spec fn spec_parse_string_body(s: Seq<u8>, i: int) -> Option<(Seq<u8>, int)>
    decreases s.len() - i,
{
    if i < 0 || i >= s.len() {
        None
    } else {
        let c = s[i];
        if c == 0x22 {
            Some((Seq::empty(), i + 1))
        } else if c == 0x5C {
            if i + 1 >= s.len() {
                None
            } else {
                let e = s[i + 1];
                if e == 0x75 {
                    match hex4(s, i + 2) {
                        None => None,
                        Some(cp) => if 0xD800 <= cp <= 0xDFFF {
                            None
                        } else {
                            match spec_parse_string_body(s, i + 6) {
                                None => None,
                                Some((rest, j)) => Some((encode_scalar(cp) + rest, j)),
                            }
                        },
                    }
                } else {
                    match unescape_simple(e) {
                        None => None,
                        Some(v) => match spec_parse_string_body(s, i + 2) {
                            None => None,
                            Some((rest, j)) => Some((seq![v] + rest, j)),
                        },
                    }
                }
            }
        } else if c < 0x20 {
            None
        } else {
            match spec_parse_string_body(s, i + 1) {
                None => None,
                Some((rest, j)) => Some((seq![c] + rest, j)),
            }
        }
    }
}

/// The parse that results from putting `prefix` in front of the content
/// of `r`.
pub open spec fn prepend_parse(prefix: Seq<u8>, r: Option<(Seq<u8>, int)>) -> Option<
    (Seq<u8>, int),
> {
    match r {
        None => None,
        Some((rest, j)) => Some((prefix + rest, j)),
    }
}

proof fn lemma_prepend_assoc(a: Seq<u8>, b: Seq<u8>, r: Option<(Seq<u8>, int)>)
    ensures
        prepend_parse(a, prepend_parse(b, r)) == prepend_parse(a + b, r),
{
    match r {
        None => {},
        Some((rest, j)) => {
            assert(a + (b + rest) =~= (a + b) + rest);
        },
    }
}

pub(crate) fn parse_string_body(s: &[u8], i: usize) -> (r: Option<(Vec<u8>, usize)>)
    requires
        i <= s@.len(),
    ensures
        match r {
            Some((v, j)) => spec_parse_string_body(s@, i as int) == Some((v@, j as int)) && i < j
                <= s@.len(),
            None => spec_parse_string_body(s@, i as int) is None,
        },
{
    let mut out: Vec<u8> = Vec::new();
    let mut k = i;
    proof {
        match spec_parse_string_body(s@, i as int) {
            Some((rest, j)) => {
                assert(Seq::<u8>::empty() + rest =~= rest);
            },
            None => {},
        }
    }
    loop
        invariant
            i <= k <= s@.len(),
            spec_parse_string_body(s@, i as int) == prepend_parse(
                out@,
                spec_parse_string_body(s@, k as int),
            ),
        decreases s@.len() - k,
    {
        if k >= s.len() {
            return None;
        }
        let c = s[k];
        if c == 0x22 {
            proof {
                assert(out@ + Seq::<u8>::empty() =~= out@);
            }
            return Some((out, k + 1));
        } else if c == 0x5C {
            if s.len() - k < 2 {
                return None;
            }
            let e = s[k + 1];
            if e == 0x75 {
                match hex4_x(s, k + 2) {
                    None => {
                        return None;
                    },
                    Some(cp) => {
                        if 0xD800 <= cp && cp <= 0xDFFF {
                            return None;
                        }
                        let ghost out_before = out@;
                        if cp < 0x80 {
                            out.push(cp as u8);
                            proof {
                                assert(cp & 0x7F == cp) by (bit_vector)
                                    requires
                                        cp < 0x80,
                                ;
                                assert(out@ =~= out_before + encode_scalar(cp));
                            }
                        } else if cp < 0x800 {
                            out.push(0xC0u8 | ((cp >> 6u32) & 0x1F) as u8);
                            out.push(0x80u8 | (cp & 0x3F) as u8);
                            proof {
                                assert(out@ =~= out_before + encode_scalar(cp));
                            }
                        } else {
                            out.push(0xE0u8 | ((cp >> 12u32) & 0x0F) as u8);
                            out.push(0x80u8 | ((cp >> 6u32) & 0x3F) as u8);
                            out.push(0x80u8 | (cp & 0x3F) as u8);
                            proof {
                                assert(out@ =~= out_before + encode_scalar(cp));
                            }
                        }
                        proof {
                            lemma_prepend_assoc(
                                out_before,
                                encode_scalar(cp),
                                spec_parse_string_body(s@, k + 6),
                            );
                        }
                        k = k + 6;
                    },
                }
            } else {
                match simple_unescape(e) {
                    None => {
                        return None;
                    },
                    Some(v) => {
                        let ghost out_before = out@;
                        out.push(v);
                        proof {
                            assert(out@ =~= out_before + seq![v]);
                            lemma_prepend_assoc(
                                out_before,
                                seq![v],
                                spec_parse_string_body(s@, k + 2),
                            );
                        }
                        k = k + 2;
                    },
                }
            }
        } else if c < 0x20 {
            return None;
        } else {
            let ghost out_before = out@;
            out.push(c);
            proof {
                assert(out@ =~= out_before + seq![c]);
                lemma_prepend_assoc(out_before, seq![c], spec_parse_string_body(s@, k + 1));
            }
            k = k + 1;
        }
    }
}

fn simple_unescape(e: u8) -> (r: Option<u8>)
    ensures
        r == unescape_simple(e),
{
    if e == 0x22 {
        Some(0x22)
    } else if e == 0x5C {
        Some(0x5C)
    } else if e == 0x2F {
        Some(0x2F)
    } else if e == 0x62 {
        Some(0x08)
    } else if e == 0x66 {
        Some(0x0C)
    } else if e == 0x6E {
        Some(0x0A)
    } else if e == 0x72 {
        Some(0x0D)
    } else if e == 0x74 {
        Some(0x09)
    } else {
        None
    }
}

pub open spec fn is_digit(b: u8) -> bool {
    0x30 <= b <= 0x39
}

/// Index of the first non-digit byte at or after `i`.
pub open spec fn digits_end(s: Seq<u8>, i: int) -> int
    decreases s.len() - i,
{
    if i < 0 || i >= s.len() {
        i
    } else if is_digit(s[i]) {
        digits_end(s, i + 1)
    } else {
        i
    }
}

fn digits_end_x(s: &[u8], i: usize) -> (j: usize)
    requires
        i <= s@.len(),
    ensures
        j as int == digits_end(s@, i as int),
        i <= j <= s@.len(),
{
    let mut k = i;
    while k < s.len() && 0x30 <= s[k] && s[k] <= 0x39
        invariant
            i <= k <= s@.len(),
            digits_end(s@, i as int) == digits_end(s@, k as int),
        decreases s@.len() - k,
    {
        k = k + 1;
    }
    k
}

/// End of the optional exponent part at `i`, or `None` if an exponent
/// starts but is malformed.
pub open spec fn spec_number_exp(s: Seq<u8>, i: int) -> Option<int> {
    if 0 <= i < s.len() && (s[i] == 0x65 || s[i] == 0x45) {
        let j = if i + 1 < s.len() && (s[i + 1] == 0x2B || s[i + 1] == 0x2D) {
            i + 2
        } else {
            i + 1
        };
        let d = digits_end(s, j);
        if d == j {
            None
        } else {
            Some(d)
        }
    } else {
        Some(i)
    }
}

/// End of the optional fraction part at `i` followed by an optional
/// exponent, or `None` if either is malformed.
pub open spec fn spec_number_frac(s: Seq<u8>, i: int) -> Option<int> {
    if 0 <= i < s.len() && s[i] == 0x2E {
        let d = digits_end(s, i + 1);
        if d == i + 1 {
            None
        } else {
            spec_number_exp(s, d)
        }
    } else {
        spec_number_exp(s, i)
    }
}

/// End of a JSON number starting at `i`, or `None` if no well-formed
/// number starts there.
pub open spec fn spec_parse_number(s: Seq<u8>, i: int) -> Option<int> {
    if i < 0 || i >= s.len() {
        None
    } else {
        let j = if s[i] == 0x2D {
            i + 1
        } else {
            i
        };
        if j >= s.len() {
            None
        } else if s[j] == 0x30 {
            spec_number_frac(s, j + 1)
        } else if 0x31 <= s[j] <= 0x39 {
            spec_number_frac(s, digits_end(s, j + 1))
        } else {
            None
        }
    }
}

fn number_exp_x(s: &[u8], i: usize) -> (r: Option<usize>)
    requires
        i <= s@.len(),
    ensures
        match r {
            Some(j) => spec_number_exp(s@, i as int) == Some(j as int) && i <= j <= s@.len(),
            None => spec_number_exp(s@, i as int) is None,
        },
{
    if i < s.len() && (s[i] == 0x65 || s[i] == 0x45) {
        let j = if i + 1 < s.len() && (s[i + 1] == 0x2B || s[i + 1] == 0x2D) {
            i + 2
        } else {
            i + 1
        };
        let d = digits_end_x(s, j);
        if d == j {
            None
        } else {
            Some(d)
        }
    } else {
        Some(i)
    }
}

fn number_frac_x(s: &[u8], i: usize) -> (r: Option<usize>)
    requires
        i <= s@.len(),
    ensures
        match r {
            Some(j) => spec_number_frac(s@, i as int) == Some(j as int) && i <= j <= s@.len(),
            None => spec_number_frac(s@, i as int) is None,
        },
{
    if i < s.len() && s[i] == 0x2E {
        let d = digits_end_x(s, i + 1);
        if d == i + 1 {
            None
        } else {
            number_exp_x(s, d)
        }
    } else {
        number_exp_x(s, i)
    }
}

pub(crate) fn parse_number(s: &[u8], i: usize) -> (r: Option<usize>)
    requires
        i <= s@.len(),
    ensures
        match r {
            Some(j) => spec_parse_number(s@, i as int) == Some(j as int) && i < j <= s@.len(),
            None => spec_parse_number(s@, i as int) is None,
        },
{
    if i >= s.len() {
        return None;
    }
    let j = if s[i] == 0x2D {
        i + 1
    } else {
        i
    };
    if j >= s.len() {
        None
    } else if s[j] == 0x30 {
        number_frac_x(s, j + 1)
    } else if 0x31 <= s[j] && s[j] <= 0x39 {
        let d = digits_end_x(s, j + 1);
        number_frac_x(s, d)
    } else {
        None
    }
}

/// True when the bytes of `lit` occur in `s` starting at `i`.
pub open spec fn lit_at(s: Seq<u8>, i: int, lit: Seq<u8>) -> bool {
    0 <= i && i + lit.len() <= s.len() && s.subrange(i, i + lit.len()) == lit
}

pub open spec fn lit_true() -> Seq<u8> {
    seq![0x74u8, 0x72u8, 0x75u8, 0x65u8]
}

pub open spec fn lit_false() -> Seq<u8> {
    seq![0x66u8, 0x61u8, 0x6Cu8, 0x73u8, 0x65u8]
}

pub open spec fn lit_null() -> Seq<u8> {
    seq![0x6Eu8, 0x75u8, 0x6Cu8, 0x6Cu8]
}

pub(crate) fn lit_true_at(s: &[u8], i: usize) -> (b: bool)
    requires
        i <= s@.len(),
    ensures
        b == lit_at(s@, i as int, lit_true()),
{
    if s.len() - i >= 4 && s[i] == 0x74 && s[i + 1] == 0x72 && s[i + 2] == 0x75 && s[i + 3]
        == 0x65 {
        proof {
            assert(s@.subrange(i as int, i + 4) =~= lit_true());
        }
        true
    } else {
        proof {
            if i + 4 <= s@.len() && s@.subrange(i as int, i + 4) == lit_true() {
                assert(s@[i as int] == 0x74 && s@[i + 1] == 0x72 && s@[i + 2] == 0x75 && s@[i + 3]
                    == 0x65);
            }
        }
        false
    }
}

pub(crate) fn lit_false_at(s: &[u8], i: usize) -> (b: bool)
    requires
        i <= s@.len(),
    ensures
        b == lit_at(s@, i as int, lit_false()),
{
    if s.len() - i >= 5 && s[i] == 0x66 && s[i + 1] == 0x61 && s[i + 2] == 0x6C && s[i + 3] == 0x73
        && s[i + 4] == 0x65 {
        proof {
            assert(s@.subrange(i as int, i + 5) =~= lit_false());
        }
        true
    } else {
        proof {
            if i + 5 <= s@.len() && s@.subrange(i as int, i + 5) == lit_false() {
                assert(s@[i as int] == 0x66 && s@[i + 1] == 0x61 && s@[i + 2] == 0x6C && s@[i + 3]
                    == 0x73 && s@[i + 4] == 0x65);
            }
        }
        false
    }
}

pub(crate) fn lit_null_at(s: &[u8], i: usize) -> (b: bool)
    requires
        i <= s@.len(),
    ensures
        b == lit_at(s@, i as int, lit_null()),
{
    if s.len() - i >= 4 && s[i] == 0x6E && s[i + 1] == 0x75 && s[i + 2] == 0x6C && s[i + 3]
        == 0x6C {
        proof {
            assert(s@.subrange(i as int, i + 4) =~= lit_null());
        }
        true
    } else {
        proof {
            if i + 4 <= s@.len() && s@.subrange(i as int, i + 4) == lit_null() {
                assert(s@[i as int] == 0x6E && s@[i + 1] == 0x75 && s@[i + 2] == 0x6C && s@[i + 3]
                    == 0x6C);
            }
        }
        false
    }
}

/// End of any JSON value starting at `i`, or `None` where no well-formed
/// value starts there. Used to pass over members this layer does not
/// recognize.
pub open spec fn spec_skip_value(s: Seq<u8>, i: int) -> Option<int>
    decreases s.len() - i, 0int,
{
    if i < 0 || i >= s.len() {
        None
    } else {
        let c = s[i];
        if c == 0x22 {
            match spec_parse_string_body(s, i + 1) {
                None => None,
                Some((content, j)) => Some(j),
            }
        } else if c == 0x7B {
            let j = spec_skip_ws(s, i + 1);
            if j <= i || j > s.len() {
                None
            } else {
                spec_skip_members(s, j, true)
            }
        } else if c == 0x5B {
            let j = spec_skip_ws(s, i + 1);
            if j <= i || j > s.len() {
                None
            } else {
                spec_skip_elements(s, j, true)
            }
        } else if c == 0x74 {
            if lit_at(s, i, lit_true()) {
                Some(i + 4)
            } else {
                None
            }
        } else if c == 0x66 {
            if lit_at(s, i, lit_false()) {
                Some(i + 5)
            } else {
                None
            }
        } else if c == 0x6E {
            if lit_at(s, i, lit_null()) {
                Some(i + 4)
            } else {
                None
            }
        } else if c == 0x2D || is_digit(c) {
            spec_parse_number(s, i)
        } else {
            None
        }
    }
}

/// End of an object's member list, entered just past `{` and any
/// whitespace; `first` tells whether a closing brace may come directly.
pub open spec fn spec_skip_members(s: Seq<u8>, i: int, first: bool) -> Option<int>
    decreases s.len() - i, 2int,
{
    if i < 0 || i >= s.len() {
        None
    } else if first && s[i] == 0x7D {
        Some(i + 1)
    } else if s[i] != 0x22 {
        None
    } else {
        match spec_parse_string_body(s, i + 1) {
            None => None,
            Some((key, j)) => {
                let k = spec_skip_ws(s, j);
                if k < j || k >= s.len() {
                    None
                } else if s[k] != 0x3A {
                    None
                } else {
                    let m = spec_skip_ws(s, k + 1);
                    if m <= i || m > s.len() {
                        None
                    } else {
                        match spec_skip_value(s, m) {
                            None => None,
                            Some(p) => {
                                if p < m || p > s.len() {
                                    None
                                } else {
                                    let q = spec_skip_ws(s, p);
                                    if q < p || q >= s.len() {
                                        None
                                    } else if s[q] == 0x7D {
                                        Some(q + 1)
                                    } else if s[q] == 0x2C {
                                        let n = spec_skip_ws(s, q + 1);
                                        if n <= i || n > s.len() {
                                            None
                                        } else {
                                            spec_skip_members(s, n, false)
                                        }
                                    } else {
                                        None
                                    }
                                }
                            },
                        }
                    }
                }
            },
        }
    }
}

/// End of an array's element list, entered just past `[` and any
/// whitespace; `first` tells whether a closing bracket may come directly.
pub open spec fn spec_skip_elements(s: Seq<u8>, i: int, first: bool) -> Option<int>
    decreases s.len() - i, 2int,
{
    if i < 0 || i >= s.len() {
        None
    } else if first && s[i] == 0x5D {
        Some(i + 1)
    } else {
        match spec_skip_value(s, i) {
            None => None,
            Some(j) => {
                if j <= i || j > s.len() {
                    None
                } else {
                    let k = spec_skip_ws(s, j);
                    if k < j || k >= s.len() {
                        None
                    } else if s[k] == 0x5D {
                        Some(k + 1)
                    } else if s[k] == 0x2C {
                        let n = spec_skip_ws(s, k + 1);
                        if n <= i || n > s.len() {
                            None
                        } else {
                            spec_skip_elements(s, n, false)
                        }
                    } else {
                        None
                    }
                }
            },
        }
    }
}

pub(crate) fn skip_value(s: &[u8], i: usize) -> (r: Option<usize>)
    requires
        i <= s@.len(),
    ensures
        match r {
            Some(j) => spec_skip_value(s@, i as int) == Some(j as int) && i < j <= s@.len(),
            None => spec_skip_value(s@, i as int) is None,
        },
    decreases s@.len() - i, 0int,
{
    if i >= s.len() {
        return None;
    }
    let c = s[i];
    if c == 0x22 {
        match parse_string_body(s, i + 1) {
            None => None,
            Some((_content, j)) => Some(j),
        }
    } else if c == 0x7B {
        let j = skip_ws(s, i + 1);
        skip_members(s, j, true)
    } else if c == 0x5B {
        let j = skip_ws(s, i + 1);
        skip_elements(s, j, true)
    } else if c == 0x74 {
        if lit_true_at(s, i) {
            Some(i + 4)
        } else {
            None
        }
    } else if c == 0x66 {
        if lit_false_at(s, i) {
            Some(i + 5)
        } else {
            None
        }
    } else if c == 0x6E {
        if lit_null_at(s, i) {
            Some(i + 4)
        } else {
            None
        }
    } else if c == 0x2D || (0x30 <= c && c <= 0x39) {
        parse_number(s, i)
    } else {
        None
    }
}

pub(crate) fn skip_members(s: &[u8], i: usize, first: bool) -> (r: Option<usize>)
    requires
        i <= s@.len(),
    ensures
        match r {
            Some(j) => spec_skip_members(s@, i as int, first) == Some(j as int) && i < j
                <= s@.len(),
            None => spec_skip_members(s@, i as int, first) is None,
        },
    decreases s@.len() - i, 2int,
{
    if i >= s.len() {
        return None;
    }
    if first && s[i] == 0x7D {
        return Some(i + 1);
    }
    if s[i] != 0x22 {
        return None;
    }
    match parse_string_body(s, i + 1) {
        None => None,
        Some((_key, j)) => {
            let k = skip_ws(s, j);
            if k >= s.len() {
                return None;
            }
            if s[k] != 0x3A {
                return None;
            }
            let m = skip_ws(s, k + 1);
            match skip_value(s, m) {
                None => None,
                Some(p) => {
                    let q = skip_ws(s, p);
                    if q >= s.len() {
                        return None;
                    }
                    if s[q] == 0x7D {
                        Some(q + 1)
                    } else if s[q] == 0x2C {
                        let n = skip_ws(s, q + 1);
                        skip_members(s, n, false)
                    } else {
                        None
                    }
                },
            }
        },
    }
}

pub(crate) fn skip_elements(s: &[u8], i: usize, first: bool) -> (r: Option<usize>)
    requires
        i <= s@.len(),
    ensures
        match r {
            Some(j) => spec_skip_elements(s@, i as int, first) == Some(j as int) && i < j
                <= s@.len(),
            None => spec_skip_elements(s@, i as int, first) is None,
        },
    decreases s@.len() - i, 2int,
{
    if i >= s.len() {
        return None;
    }
    if first && s[i] == 0x5D {
        return Some(i + 1);
    }
    match skip_value(s, i) {
        None => None,
        Some(j) => {
            let k = skip_ws(s, j);
            if k >= s.len() {
                return None;
            }
            if s[k] == 0x5D {
                Some(k + 1)
            } else if s[k] == 0x2C {
                let n = skip_ws(s, k + 1);
                skip_elements(s, n, false)
            } else {
                None
            }
        },
    }
}

/// One hex digit, lower case.
pub open spec fn hex_digit(n: u8) -> u8 {
    if n < 10 {
        (0x30 + n) as u8
    } else {
        (0x57 + n) as u8
    }
}

/// The escaped form of one byte inside a JSON string: quote, backslash
/// and the named control characters get their short escapes, any other
/// control byte a `\u00XX` escape, and everything else stands for itself.
pub open spec fn esc_byte(b: u8) -> Seq<u8> {
    if b == 0x22 {
        seq![0x5Cu8, 0x22u8]
    } else if b == 0x5C {
        seq![0x5Cu8, 0x5Cu8]
    } else if b == 0x08 {
        seq![0x5Cu8, 0x62u8]
    } else if b == 0x0C {
        seq![0x5Cu8, 0x66u8]
    } else if b == 0x0A {
        seq![0x5Cu8, 0x6Eu8]
    } else if b == 0x0D {
        seq![0x5Cu8, 0x72u8]
    } else if b == 0x09 {
        seq![0x5Cu8, 0x74u8]
    } else if b < 0x20 {
        seq![0x5Cu8, 0x75u8, 0x30u8, 0x30u8, hex_digit(b >> 4u8), hex_digit(b & 0x0Fu8)]
    } else {
        seq![b]
    }
}

/// A whole string content, escaped byte by byte.
pub open spec fn escape_bytes(s: Seq<u8>) -> Seq<u8>
    decreases s.len(),
{
    if s.len() == 0 {
        Seq::empty()
    } else {
        esc_byte(s[0]) + escape_bytes(s.drop_first())
    }
}

/// A whole JSON string: the escaped content between its two quotes.
pub open spec fn quote_bytes(s: Seq<u8>) -> Seq<u8> {
    seq![0x22u8] + escape_bytes(s) + seq![0x22u8]
}

pub proof fn lemma_escape_snoc(s: Seq<u8>, b: u8)
    ensures
        escape_bytes(s.push(b)) == escape_bytes(s) + esc_byte(b),
    decreases s.len(),
{
    if s.len() == 0 {
        assert(s.push(b)[0] == b);
        assert(s.push(b).drop_first() =~= Seq::<u8>::empty());
        assert(esc_byte(b) + escape_bytes(s.push(b).drop_first()) =~= esc_byte(b));
        assert(escape_bytes(s) + esc_byte(b) =~= esc_byte(b));
    } else {
        lemma_escape_snoc(s.drop_first(), b);
        assert(s.push(b).drop_first() =~= s.drop_first().push(b));
        assert(esc_byte(s[0]) + (escape_bytes(s.drop_first()) + esc_byte(b)) =~= (esc_byte(s[0])
            + escape_bytes(s.drop_first())) + esc_byte(b));
    }
}

} // verus!
