//! Byte-level JSON primitives: whitespace, strings with escape sequences,
//! number tokens, and a validating skipper for values of unknown fields.
//!
//! Every executable parser mirrors a specification function over `Seq<u8>`;
//! its contract states that the two agree exactly. String contents are kept
//! as raw UTF-8 bytes here; decoding to `char`s happens where a field value
//! is assembled.

use vstd::prelude::*;
use vstd::utf8::encode_scalar;

verus! {

pub const QUOTE: u8 = 34;

pub const BACKSLASH: u8 = 92;

pub const LBRACE: u8 = 123;

pub const RBRACE: u8 = 125;

pub const LBRACKET: u8 = 91;

pub const RBRACKET: u8 = 93;

pub const COMMA: u8 = 44;

pub const COLON: u8 = 58;

pub const MINUS: u8 = 45;

pub const PLUS: u8 = 43;

pub const DOT: u8 = 46;

pub const LOWER_E: u8 = 101;

pub const UPPER_E: u8 = 69;

pub const LOWER_U: u8 = 117;

pub const LOWER_T: u8 = 116;

pub const LOWER_F: u8 = 102;

pub const LOWER_N: u8 = 110;

/// Nesting allowance for values of unknown fields, matching the recursion
/// limit a JSON deserializer customarily enforces.
pub const SKIP_DEPTH_LIMIT: u32 = 128;

pub open spec fn is_ws_byte(b: u8) -> bool {
    b == 32 || b == 9 || b == 10 || b == 13
}

pub open spec fn is_digit_byte(b: u8) -> bool {
    48 <= b <= 57
}

/// Position of the first non-whitespace byte at or after `i`.
pub open spec fn spec_ws(s: Seq<u8>, i: int) -> int
    decreases s.len() - i,
{
    if 0 <= i < s.len() && is_ws_byte(s[i]) {
        spec_ws(s, i + 1)
    } else {
        i
    }
}

pub fn skip_ws(s: &[u8], i: usize) -> (r: usize)
    requires
        i <= s@.len(),
    ensures
        r as int == spec_ws(s@, i as int),
        i <= r <= s@.len(),
{
    let ghost i0 = i as int;
    let n = s.len();
    let mut cur = i;
    while cur < n
        invariant_except_break
            i <= cur <= n,
            n == s@.len(),
            spec_ws(s@, i0) == spec_ws(s@, cur as int),
        ensures
            i <= cur <= n,
            n == s@.len(),
            spec_ws(s@, i0) == spec_ws(s@, cur as int),
            cur == n || !is_ws_byte(s@[cur as int]),
        decreases n - cur,
    {
        let b = *vstd::slice::slice_index_get(s, cur);
        if !(b == 32 || b == 9 || b == 10 || b == 13) {
            break ;
        }
        cur += 1;
    }
    cur
}

/// Collect a run of decimal digits starting at `i`, as digit values.
pub open spec fn spec_digits(s: Seq<u8>, i: int, acc: Seq<u8>) -> (Seq<u8>, int)
    decreases s.len() - i,
{
    if 0 <= i < s.len() && is_digit_byte(s[i]) {
        spec_digits(s, i + 1, acc.push((s[i] - 48) as u8))
    } else {
        (acc, i)
    }
}

pub proof fn lemma_digits_bounds(s: Seq<u8>, i: int, acc: Seq<u8>)
    requires
        0 <= i <= s.len(),
    ensures
        i <= spec_digits(s, i, acc).1 <= s.len(),
        spec_digits(s, i, acc).0.len() == acc.len() + spec_digits(s, i, acc).1 - i,
    decreases s.len() - i,
{
    if i < s.len() && is_digit_byte(s[i]) {
        lemma_digits_bounds(s, i + 1, acc.push((s[i] - 48) as u8));
    }
}

fn parse_digits(s: &[u8], i: usize, acc: Vec<u8>) -> (r: (Vec<u8>, usize))
    requires
        i <= s@.len(),
    ensures
        (r.0@, r.1 as int) == spec_digits(s@, i as int, acc@),
        i <= r.1 <= s@.len(),
{
    let ghost i0 = i as int;
    let ghost acc0 = acc@;
    let n = s.len();
    let mut cur = i;
    let mut buf = acc;
    while cur < n
        invariant_except_break
            i <= cur <= n,
            n == s@.len(),
            spec_digits(s@, i0, acc0) == spec_digits(s@, cur as int, buf@),
        ensures
            i <= cur <= n,
            n == s@.len(),
            spec_digits(s@, i0, acc0) == spec_digits(s@, cur as int, buf@),
            cur == n || !is_digit_byte(s@[cur as int]),
        decreases n - cur,
    {
        let b = *vstd::slice::slice_index_get(s, cur);
        if !(48 <= b && b <= 57) {
            break ;
        }
        buf.push(b - 48);
        cur += 1;
    }
    (buf, cur)
}

/// Value of one hexadecimal digit byte.
pub open spec fn hex_val(b: u8) -> Option<u8> {
    if 48 <= b <= 57 {
        Some((b - 48) as u8)
    } else if 97 <= b <= 102 {
        Some((b - 87) as u8)
    } else if 65 <= b <= 70 {
        Some((b - 55) as u8)
    } else {
        None
    }
}

fn hex_digit(b: u8) -> (r: Option<u8>)
    ensures
        r == hex_val(b),
{
    if 48 <= b && b <= 57 {
        Some(b - 48)
    } else if 97 <= b && b <= 102 {
        Some(b - 87)
    } else if 65 <= b && b <= 70 {
        Some(b - 55)
    } else {
        None
    }
}

/// Four hexadecimal digits at `i`, as one code unit.
pub open spec fn spec_hex4(s: Seq<u8>, i: int) -> Option<u32> {
    if 0 <= i && i + 4 <= s.len() {
        match (hex_val(s[i]), hex_val(s[i + 1]), hex_val(s[i + 2]), hex_val(s[i + 3])) {
            (Some(a), Some(b), Some(c), Some(d)) => Some(
                ((a as u32) << 12) | ((b as u32) << 8) | ((c as u32) << 4) | (d as u32),
            ),
            _ => None,
        }
    } else {
        None
    }
}

fn parse_hex4(s: &[u8], i: usize) -> (r: Option<u32>)
    requires
        i <= s@.len(),
    ensures
        r == spec_hex4(s@, i as int),
        match r {
            Some(v) => v <= 0xFFFF,
            None => true,
        },
{
    let n = s.len();
    if n < 4 || i > n - 4 {
        return None;
    }
    let a = hex_digit(*vstd::slice::slice_index_get(s, i));
    let b = hex_digit(*vstd::slice::slice_index_get(s, i + 1));
    let c = hex_digit(*vstd::slice::slice_index_get(s, i + 2));
    let d = hex_digit(*vstd::slice::slice_index_get(s, i + 3));
    match (a, b, c, d) {
        (Some(a), Some(b), Some(c), Some(d)) => {
            let v = ((a as u32) << 12) | ((b as u32) << 8) | ((c as u32) << 4) | (d as u32);
            proof {
                assert(v <= 0xFFFF) by (bit_vector)
                    requires
                        v == ((a as u32) << 12) | ((b as u32) << 8) | ((c as u32) << 4) | (
                        d as u32),
                        a <= 15,
                        b <= 15,
                        c <= 15,
                        d <= 15,
                ;
            }
            Some(v)
        },
        _ => None,
    }
}

/// The byte that one simple escape character stands for.
pub open spec fn escape_byte(e: u8) -> Option<u8> {
    if e == QUOTE {
        Some(QUOTE)
    } else if e == BACKSLASH {
        Some(BACKSLASH)
    } else if e == 47 {
        Some(47u8)
    } else if e == 98 {
        Some(8u8)
    } else if e == 102 {
        Some(12u8)
    } else if e == 110 {
        Some(10u8)
    } else if e == 114 {
        Some(13u8)
    } else if e == 116 {
        Some(9u8)
    } else {
        None
    }
}

/// The scalar value of a UTF-16 surrogate pair.
pub open spec fn combine_surrogates(hi: u32, lo: u32) -> u32
    recommends
        0xD800 <= hi < 0xDC00,
        0xDC00 <= lo < 0xE000,
{
    (0x10000 + (hi - 0xD800) * 0x400 + (lo - 0xDC00)) as u32
}

/// Content and end position of a string literal body, read from just after
/// the opening quote. The content accumulates the unescaped UTF-8 bytes.
pub open spec fn spec_string_tail(s: Seq<u8>, i: int, acc: Seq<u8>) -> Option<(Seq<u8>, int)>
    decreases s.len() - i,
{
    if !(0 <= i < s.len()) {
        None
    } else if s[i] == QUOTE {
        Some((acc, i + 1))
    } else if s[i] == BACKSLASH {
        if i + 1 < s.len() {
            let e = s[i + 1];
            if e == LOWER_U {
                if i + 6 <= s.len() {
                    match spec_hex4(s, i + 2) {
                        Some(cp) => if 0xD800 <= cp < 0xDC00 {
                            if i + 12 <= s.len() && s[i + 6] == BACKSLASH && s[i + 7] == LOWER_U {
                                match spec_hex4(s, i + 8) {
                                    Some(lo) => if 0xDC00 <= lo < 0xE000 {
                                        spec_string_tail(
                                            s,
                                            i + 12,
                                            acc + encode_scalar(combine_surrogates(cp, lo)),
                                        )
                                    } else {
                                        None
                                    },
                                    None => None,
                                }
                            } else {
                                None
                            }
                        } else if 0xDC00 <= cp < 0xE000 {
                            None
                        } else {
                            spec_string_tail(s, i + 6, acc + encode_scalar(cp))
                        },
                        None => None,
                    }
                } else {
                    None
                }
            } else {
                match escape_byte(e) {
                    Some(b) => spec_string_tail(s, i + 2, acc.push(b)),
                    None => None,
                }
            }
        } else {
            None
        }
    } else if s[i] < 32 {
        None
    } else {
        spec_string_tail(s, i + 1, acc.push(s[i]))
    }
}

/// Append the UTF-8 encoding of a scalar value to `acc`.
fn push_scalar_utf8(acc: &mut Vec<u8>, cp: u32)
    requires
        vstd::utf8::is_scalar(cp),
    ensures
        final(acc)@ == old(acc)@ + encode_scalar(cp),
{
    if cp < 0x80 {
        acc.push((cp & 0x7F) as u8);
        assert(acc@ =~= old(acc)@ + encode_scalar(cp));
    } else if cp < 0x800 {
        acc.push(0xC0u8 | (((cp >> 6) & 0x1F) as u8));
        acc.push(0x80u8 | ((cp & 0x3F) as u8));
        assert(acc@ =~= old(acc)@ + encode_scalar(cp));
    } else if cp < 0x10000 {
        acc.push(0xE0u8 | (((cp >> 12) & 0x0F) as u8));
        acc.push(0x80u8 | (((cp >> 6) & 0x3F) as u8));
        acc.push(0x80u8 | ((cp & 0x3F) as u8));
        assert(acc@ =~= old(acc)@ + encode_scalar(cp));
    } else {
        acc.push(0xF0u8 | (((cp >> 18) & 0x7) as u8));
        acc.push(0x80u8 | (((cp >> 12) & 0x3F) as u8));
        acc.push(0x80u8 | (((cp >> 6) & 0x3F) as u8));
        acc.push(0x80u8 | ((cp & 0x3F) as u8));
        assert(acc@ =~= old(acc)@ + encode_scalar(cp));
    }
}

/// Read a string literal body from just after the opening quote; the result
/// holds the unescaped content bytes and the position after the closing
/// quote.
pub fn parse_string_tail(s: &[u8], i: usize, acc: Vec<u8>) -> (r: Option<(Vec<u8>, usize)>)
    requires
        i <= s@.len(),
    ensures
        match r {
            Some(p) => {
                &&& spec_string_tail(s@, i as int, acc@) == Some((p.0@, p.1 as int))
                &&& i < p.1 <= s@.len()
            },
            None => spec_string_tail(s@, i as int, acc@) is None,
        },
{
    let ghost i0 = i as int;
    let ghost acc0 = acc@;
    let n = s.len();
    let mut cur = i;
    let mut buf = acc;
    loop
        invariant
            i0 == i as int,
            acc0 == acc@,
            i <= cur <= n,
            n == s@.len(),
            spec_string_tail(s@, i0, acc0) == spec_string_tail(s@, cur as int, buf@),
        decreases n - cur,
    {
        if cur >= n {
            return None;
        }
        let b = *vstd::slice::slice_index_get(s, cur);
        if b == QUOTE {
            return Some((buf, cur + 1));
        } else if b == BACKSLASH {
            if cur + 1 >= n {
                return None;
            }
            let e = *vstd::slice::slice_index_get(s, cur + 1);
            if e == LOWER_U {
                if n - cur < 6 {
                    return None;
                }
                match parse_hex4(s, cur + 2) {
                    Some(cp) => {
                        if 0xD800 <= cp && cp < 0xDC00 {
                            if n - cur >= 12 && *vstd::slice::slice_index_get(s, cur + 6)
                                == BACKSLASH && *vstd::slice::slice_index_get(s, cur + 7)
                                == LOWER_U {
                                match parse_hex4(s, cur + 8) {
                                    Some(lo) => {
                                        if 0xDC00 <= lo && lo < 0xE000 {
                                            let scalar: u32 = 0x10000 + (cp - 0xD800) * 0x400 + (lo
                                                - 0xDC00);
                                            assert(scalar == combine_surrogates(cp, lo));
                                            push_scalar_utf8(&mut buf, scalar);
                                            cur = cur + 12;
                                        } else {
                                            return None;
                                        }
                                    },
                                    None => {
                                        return None;
                                    },
                                }
                            } else {
                                return None;
                            }
                        } else if 0xDC00 <= cp && cp < 0xE000 {
                            return None;
                        } else {
                            push_scalar_utf8(&mut buf, cp);
                            cur = cur + 6;
                        }
                    },
                    None => {
                        return None;
                    },
                }
            } else {
                match escape_byte_exec(e) {
                    Some(mapped) => {
                        buf.push(mapped);
                        cur = cur + 2;
                    },
                    None => {
                        return None;
                    },
                }
            }
        } else if b < 32 {
            return None;
        } else {
            buf.push(b);
            cur = cur + 1;
        }
    }
}

/// A parsed JSON number token, kept in exact decimal form: sign, integer
/// digits, fraction digits, and exponent, each digit as its value.
pub ghost struct NumberView {
    pub negative: bool,
    pub int_digits: Seq<u8>,
    pub frac_digits: Seq<u8>,
    pub exp_negative: bool,
    pub exp_digits: Seq<u8>,
}

/// Executable form of a JSON number token.
#[derive(Debug, Clone)]
pub struct JsonNumber {
    pub negative: bool,
    pub int_digits: Vec<u8>,
    pub frac_digits: Vec<u8>,
    pub exp_negative: bool,
    pub exp_digits: Vec<u8>,
}

impl View for JsonNumber {
    type V = NumberView;

    open spec fn view(&self) -> NumberView {
        NumberView {
            negative: self.negative,
            int_digits: self.int_digits@,
            frac_digits: self.frac_digits@,
            exp_negative: self.exp_negative,
            exp_digits: self.exp_digits@,
        }
    }
}

pub open spec fn digits_ok(ds: Seq<u8>) -> bool {
    forall|k: int| 0 <= k < ds.len() ==> ds[k] <= 9
}

pub open spec fn number_wf(n: NumberView) -> bool {
    &&& digits_ok(n.int_digits)
    &&& digits_ok(n.frac_digits)
    &&& digits_ok(n.exp_digits)
    &&& n.int_digits.len() >= 1
}

pub proof fn lemma_digits_run_ok(s: Seq<u8>, i: int, acc: Seq<u8>)
    requires
        digits_ok(acc),
    ensures
        digits_ok(spec_digits(s, i, acc).0),
    decreases s.len() - i,
{
    if 0 <= i < s.len() && is_digit_byte(s[i]) {
        let acc2 = acc.push((s[i] - 48) as u8);
        assert(digits_ok(acc2));
        lemma_digits_run_ok(s, i + 1, acc2);
    }
}

/// A JSON number token starting at `i`: optional minus, integer part with no
/// leading zero, optional fraction, optional exponent.
pub open spec fn spec_number(s: Seq<u8>, i: int) -> Option<(NumberView, int)> {
    if !(0 <= i < s.len()) {
        None
    } else {
        let neg = s[i] == MINUS;
        let i1 = if neg {
            i + 1
        } else {
            i
        };
        if !(i1 < s.len() && is_digit_byte(s[i1])) {
            None
        } else {
            let ip = if s[i1] == 48 {
                (seq![0u8], i1 + 1)
            } else {
                spec_digits(s, i1, Seq::empty())
            };
            let had_dot = ip.1 < s.len() && s[ip.1] == DOT;
            let fp = if had_dot {
                spec_digits(s, ip.1 + 1, Seq::empty())
            } else {
                (Seq::<u8>::empty(), ip.1)
            };
            if had_dot && fp.0.len() == 0 {
                None
            } else {
                let i3 = fp.1;
                if i3 < s.len() && (s[i3] == LOWER_E || s[i3] == UPPER_E) {
                    let en = i3 + 1 < s.len() && s[i3 + 1] == MINUS;
                    let i4 = if i3 + 1 < s.len() && (s[i3 + 1] == MINUS || s[i3 + 1] == PLUS) {
                        i3 + 2
                    } else {
                        i3 + 1
                    };
                    let ep = spec_digits(s, i4, Seq::empty());
                    if ep.0.len() == 0 {
                        None
                    } else {
                        Some(
                            (
                                NumberView {
                                    negative: neg,
                                    int_digits: ip.0,
                                    frac_digits: fp.0,
                                    exp_negative: en,
                                    exp_digits: ep.0,
                                },
                                ep.1,
                            ),
                        )
                    }
                } else {
                    Some(
                        (
                            NumberView {
                                negative: neg,
                                int_digits: ip.0,
                                frac_digits: fp.0,
                                exp_negative: false,
                                exp_digits: Seq::empty(),
                            },
                            i3,
                        ),
                    )
                }
            }
        }
    }
}

pub fn parse_number(s: &[u8], i: usize) -> (r: Option<(JsonNumber, usize)>)
    requires
        i <= s@.len(),
    ensures
        match r {
            Some(p) => {
                &&& spec_number(s@, i as int) == Some((p.0@, p.1 as int))
                &&& number_wf(p.0@)
                &&& i < p.1 <= s@.len()
            },
            None => spec_number(s@, i as int) is None,
        },
{
    let n = s.len();
    if !(i < n) {
        return None;
    }
    let neg = *vstd::slice::slice_index_get(s, i) == MINUS;
    let i1 = if neg {
        i + 1
    } else {
        i
    };
    if !(i1 < n) {
        return None;
    }
    let b1 = *vstd::slice::slice_index_get(s, i1);
    if !(48 <= b1 && b1 <= 57) {
        return None;
    }
    let (ints, i2) = if b1 == 48 {
        let mut z: Vec<u8> = Vec::new();
        z.push(0);
        proof {
            assert(z@ =~= seq![0u8]);
        }
        (z, i1 + 1)
    } else {
        let p = parse_digits(s, i1, Vec::new());
        proof {
            lemma_digits_run_ok(s@, i1 as int, Seq::empty());
            lemma_digits_bounds(s@, i1 + 1, seq![(s@[i1 as int] - 48) as u8]);
        }
        p
    };
    proof {
        assert(digits_ok(ints@));
        assert(ints@.len() >= 1);
        assert(i1 < i2);
    }
    let had_dot = i2 < n && *vstd::slice::slice_index_get(s, i2) == DOT;
    let (fracs, i3) = if had_dot {
        let p = parse_digits(s, i2 + 1, Vec::new());
        proof {
            lemma_digits_run_ok(s@, i2 + 1, Seq::empty());
        }
        p
    } else {
        (Vec::new(), i2)
    };
    if had_dot && fracs.len() == 0 {
        return None;
    }
    if i3 < n {
        let b3 = *vstd::slice::slice_index_get(s, i3);
        if b3 == LOWER_E || b3 == UPPER_E {
            let has_sign = i3 + 1 < n && (*vstd::slice::slice_index_get(s, i3 + 1) == MINUS
                || *vstd::slice::slice_index_get(s, i3 + 1) == PLUS);
            let en = i3 + 1 < n && *vstd::slice::slice_index_get(s, i3 + 1) == MINUS;
            let i4 = if has_sign {
                i3 + 2
            } else {
                i3 + 1
            };
            let (exps, i5) = parse_digits(s, i4, Vec::new());
            proof {
                lemma_digits_run_ok(s@, i4 as int, Seq::empty());
            }
            if exps.len() == 0 {
                return None;
            }
            return Some(
                (
                    JsonNumber {
                        negative: neg,
                        int_digits: ints,
                        frac_digits: fracs,
                        exp_negative: en,
                        exp_digits: exps,
                    },
                    i5,
                ),
            );
        }
    }
    let no_exp: Vec<u8> = Vec::new();
    proof {
        assert(no_exp@ =~= Seq::<u8>::empty());
    }
    Some(
        (
            JsonNumber {
                negative: neg,
                int_digits: ints,
                frac_digits: fracs,
                exp_negative: false,
                exp_digits: no_exp,
            },
            i3,
        ),
    )
}

/// Position after a complete JSON value starting at `i`, with a nesting
/// allowance for containers. The value is validated, not interpreted; this
/// is how an unknown field's value is consumed.
pub open spec fn spec_skip_value(s: Seq<u8>, i: int, depth: u32) -> Option<int>
    decreases s.len() - i, 0int,
{
    if !(0 <= i < s.len()) {
        None
    } else {
        let b = s[i];
        if b == LBRACE {
            if depth == 0 {
                None
            } else {
                spec_skip_object(s, i + 1, (depth - 1) as u32)
            }
        } else if b == LBRACKET {
            if depth == 0 {
                None
            } else {
                spec_skip_array(s, i + 1, (depth - 1) as u32)
            }
        } else if b == QUOTE {
            match spec_string_tail(s, i + 1, Seq::empty()) {
                Some(p) => Some(p.1),
                None => None,
            }
        } else if b == LOWER_T {
            if i + 4 <= s.len() && s[i + 1] == 114 && s[i + 2] == 117 && s[i + 3] == 101 {
                Some(i + 4)
            } else {
                None
            }
        } else if b == LOWER_F {
            if i + 5 <= s.len() && s[i + 1] == 97 && s[i + 2] == 108 && s[i + 3] == 115 && s[i + 4]
                == 101 {
                Some(i + 5)
            } else {
                None
            }
        } else if b == LOWER_N {
            if i + 4 <= s.len() && s[i + 1] == 117 && s[i + 2] == 108 && s[i + 3] == 108 {
                Some(i + 4)
            } else {
                None
            }
        } else if b == MINUS || is_digit_byte(b) {
            match spec_number(s, i) {
                Some(p) => Some(p.1),
                None => None,
            }
        } else {
            None
        }
    }
}

pub open spec fn spec_skip_object(s: Seq<u8>, i: int, depth: u32) -> Option<int>
    decreases s.len() - i, 2int,
{
    if !(0 <= i <= s.len()) {
        None
    } else {
        let j = spec_ws(s, i);
        if j < s.len() && s[j] == RBRACE {
            Some(j + 1)
        } else if j < i || j > s.len() {
            None
        } else {
            spec_skip_members(s, j, depth)
        }
    }
}

pub open spec fn spec_skip_members(s: Seq<u8>, i: int, depth: u32) -> Option<int>
    decreases s.len() - i, 1int,
{
    if !(0 <= i < s.len() && s[i] == QUOTE) {
        None
    } else {
        match spec_string_tail(s, i + 1, Seq::empty()) {
            Some(kp) => {
                let m = spec_ws(s, kp.1);
                if m < s.len() && s[m] == COLON {
                    let v = spec_ws(s, m + 1);
                    if v < i || v > s.len() {
                        None
                    } else {
                        match spec_skip_value(s, v, depth) {
                            Some(k2) => {
                                let c = spec_ws(s, k2);
                                if c < s.len() && s[c] == COMMA {
                                    let nx = spec_ws(s, c + 1);
                                    if nx <= i || nx > s.len() {
                                        None
                                    } else {
                                        spec_skip_members(s, nx, depth)
                                    }
                                } else if c < s.len() && s[c] == RBRACE {
                                    Some(c + 1)
                                } else {
                                    None
                                }
                            },
                            None => None,
                        }
                    }
                } else {
                    None
                }
            },
            None => None,
        }
    }
}

pub open spec fn spec_skip_array(s: Seq<u8>, i: int, depth: u32) -> Option<int>
    decreases s.len() - i, 2int,
{
    if !(0 <= i <= s.len()) {
        None
    } else {
        let j = spec_ws(s, i);
        if j < s.len() && s[j] == RBRACKET {
            Some(j + 1)
        } else if j < i || j > s.len() {
            None
        } else {
            spec_skip_elements(s, j, depth)
        }
    }
}

pub open spec fn spec_skip_elements(s: Seq<u8>, i: int, depth: u32) -> Option<int>
    decreases s.len() - i, 1int,
{
    if !(0 <= i <= s.len()) {
        None
    } else {
        match spec_skip_value(s, i, depth) {
            Some(k) => {
                let c = spec_ws(s, k);
                if c < s.len() && s[c] == COMMA {
                    let nx = spec_ws(s, c + 1);
                    if nx <= i || nx > s.len() {
                        None
                    } else {
                        spec_skip_elements(s, nx, depth)
                    }
                } else if c < s.len() && s[c] == RBRACKET {
                    Some(c + 1)
                } else {
                    None
                }
            },
            None => None,
        }
    }
}

pub fn skip_value(s: &[u8], i: usize, depth: u32) -> (r: Option<usize>)
    requires
        i <= s@.len(),
    ensures
        match r {
            Some(j) => {
                &&& spec_skip_value(s@, i as int, depth) == Some(j as int)
                &&& i < j <= s@.len()
            },
            None => spec_skip_value(s@, i as int, depth) is None,
        },
    decreases depth, 0int,
{
    let n = s.len();
    if !(i < n) {
        return None;
    }
    let b = *vstd::slice::slice_index_get(s, i);
    if b == LBRACE {
        if depth == 0 {
            None
        } else {
            skip_object(s, i + 1, depth - 1)
        }
    } else if b == LBRACKET {
        if depth == 0 {
            None
        } else {
            skip_array(s, i + 1, depth - 1)
        }
    } else if b == QUOTE {
        match parse_string_tail(s, i + 1, Vec::new()) {
            Some(p) => Some(p.1),
            None => None,
        }
    } else if b == LOWER_T {
        if n - i >= 4 && *vstd::slice::slice_index_get(s, i + 1) == 114
            && *vstd::slice::slice_index_get(s, i + 2) == 117 && *vstd::slice::slice_index_get(
            s,
            i + 3,
        ) == 101 {
            Some(i + 4)
        } else {
            None
        }
    } else if b == LOWER_F {
        if n - i >= 5 && *vstd::slice::slice_index_get(s, i + 1) == 97
            && *vstd::slice::slice_index_get(s, i + 2) == 108 && *vstd::slice::slice_index_get(
            s,
            i + 3,
        ) == 115 && *vstd::slice::slice_index_get(s, i + 4) == 101 {
            Some(i + 5)
        } else {
            None
        }
    } else if b == LOWER_N {
        if n - i >= 4 && *vstd::slice::slice_index_get(s, i + 1) == 117
            && *vstd::slice::slice_index_get(s, i + 2) == 108 && *vstd::slice::slice_index_get(
            s,
            i + 3,
        ) == 108 {
            Some(i + 4)
        } else {
            None
        }
    } else if b == MINUS || (48 <= b && b <= 57) {
        match parse_number(s, i) {
            Some(p) => Some(p.1),
            None => None,
        }
    } else {
        None
    }
}

pub fn skip_object(s: &[u8], i: usize, depth: u32) -> (r: Option<usize>)
    requires
        i <= s@.len(),
    ensures
        match r {
            Some(j) => {
                &&& spec_skip_object(s@, i as int, depth) == Some(j as int)
                &&& i < j <= s@.len()
            },
            None => spec_skip_object(s@, i as int, depth) is None,
        },
    decreases depth, 2int,
{
    let j = skip_ws(s, i);
    if j < s.len() {
        let b = *vstd::slice::slice_index_get(s, j);
        if b == RBRACE {
            return Some(j + 1);
        }
    }
    skip_members(s, j, depth)
}

pub fn skip_members(s: &[u8], i: usize, depth: u32) -> (r: Option<usize>)
    requires
        i <= s@.len(),
    ensures
        match r {
            Some(j) => {
                &&& spec_skip_members(s@, i as int, depth) == Some(j as int)
                &&& i < j <= s@.len()
            },
            None => spec_skip_members(s@, i as int, depth) is None,
        },
    decreases depth, 1int,
{
    let ghost i0 = i as int;
    let n = s.len();
    let mut cur = i;
    loop
        invariant
            i0 == i as int,
            i <= cur <= n,
            n == s@.len(),
            spec_skip_members(s@, i0, depth) == spec_skip_members(s@, cur as int, depth),
        decreases n - cur,
    {
        if !(cur < n) {
            return None;
        }
        if *vstd::slice::slice_index_get(s, cur) != QUOTE {
            return None;
        }
        match parse_string_tail(s, cur + 1, Vec::new()) {
            Some(kp) => {
                let m = skip_ws(s, kp.1);
                if !(m < n) {
                    return None;
                }
                if *vstd::slice::slice_index_get(s, m) != COLON {
                    return None;
                }
                let v = skip_ws(s, m + 1);
                match skip_value(s, v, depth) {
                    Some(k2) => {
                        let c = skip_ws(s, k2);
                        if c < n {
                            let cb = *vstd::slice::slice_index_get(s, c);
                            if cb == COMMA {
                                let nx = skip_ws(s, c + 1);
                                cur = nx;
                            } else if cb == RBRACE {
                                return Some(c + 1);
                            } else {
                                return None;
                            }
                        } else {
                            return None;
                        }
                    },
                    None => {
                        return None;
                    },
                }
            },
            None => {
                return None;
            },
        }
    }
}

pub fn skip_array(s: &[u8], i: usize, depth: u32) -> (r: Option<usize>)
    requires
        i <= s@.len(),
    ensures
        match r {
            Some(j) => {
                &&& spec_skip_array(s@, i as int, depth) == Some(j as int)
                &&& i < j <= s@.len()
            },
            None => spec_skip_array(s@, i as int, depth) is None,
        },
    decreases depth, 2int,
{
    let j = skip_ws(s, i);
    if j < s.len() {
        let b = *vstd::slice::slice_index_get(s, j);
        if b == RBRACKET {
            return Some(j + 1);
        }
    }
    skip_elements(s, j, depth)
}

pub fn skip_elements(s: &[u8], i: usize, depth: u32) -> (r: Option<usize>)
    requires
        i <= s@.len(),
    ensures
        match r {
            Some(j) => {
                &&& spec_skip_elements(s@, i as int, depth) == Some(j as int)
                &&& i < j <= s@.len()
            },
            None => spec_skip_elements(s@, i as int, depth) is None,
        },
    decreases depth, 1int,
{
    let ghost i0 = i as int;
    let n = s.len();
    let mut cur = i;
    loop
        invariant
            i0 == i as int,
            i <= cur <= n,
            n == s@.len(),
            spec_skip_elements(s@, i0, depth) == spec_skip_elements(s@, cur as int, depth),
        decreases n - cur,
    {
        match skip_value(s, cur, depth) {
            Some(k) => {
                let c = skip_ws(s, k);
                if c < n {
                    let cb = *vstd::slice::slice_index_get(s, c);
                    if cb == COMMA {
                        let nx = skip_ws(s, c + 1);
                        cur = nx;
                    } else if cb == RBRACKET {
                        return Some(c + 1);
                    } else {
                        return None;
                    }
                } else {
                    return None;
                }
            },
            None => {
                return None;
            },
        }
    }
}

fn escape_byte_exec(e: u8) -> (r: Option<u8>)
    ensures
        r == escape_byte(e),
{
    if e == QUOTE {
        Some(QUOTE)
    } else if e == BACKSLASH {
        Some(BACKSLASH)
    } else if e == 47 {
        Some(47)
    } else if e == 98 {
        Some(8)
    } else if e == 102 {
        Some(12)
    } else if e == 110 {
        Some(10)
    } else if e == 114 {
        Some(13)
    } else if e == 116 {
        Some(9)
    } else {
        None
    }
}

} // verus!
