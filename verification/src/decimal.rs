//! Exact evaluation of parsed JSON number tokens.
//!
//! A number token keeps its decimal digits verbatim, so scaling it by a
//! power of ten and rounding half-up to an integer can be specified and
//! computed exactly, with no binary floating point involved. This is how a
//! fractional epoch-seconds timestamp becomes milliseconds and a duration
//! becomes microseconds, saturating at `u64::MAX` and clamping negative
//! values to zero, as a saturating cast from a wider value would.

use vstd::arithmetic::div_mod::{
    lemma_basic_div, lemma_div_by_multiple, lemma_div_is_ordered, lemma_fundamental_div_mod_converse,
    lemma_small_mod,
};
use vstd::prelude::*;

use crate::json::{digits_ok, number_wf, JsonNumber, NumberView};

verus! {

pub open spec fn pow10(n: nat) -> nat
    decreases n,
{
    if n == 0 {
        1
    } else {
        10 * pow10((n - 1) as nat)
    }
}

/// The value of a digit sequence read as a decimal numeral.
pub open spec fn digits_val(ds: Seq<u8>) -> nat
    decreases ds.len(),
{
    if ds.len() == 0 {
        0
    } else {
        digits_val(ds.drop_last()) * 10 + ds.last() as nat
    }
}

pub proof fn lemma_pow10_pos(n: nat)
    ensures
        pow10(n) >= 1,
    decreases n,
{
    if n > 0 {
        lemma_pow10_pos((n - 1) as nat);
    }
}

pub proof fn lemma_pow10_add(a: nat, b: nat)
    ensures
        pow10(a + b) == pow10(a) * pow10(b),
    decreases b,
{
    if b == 0 {
        assert(pow10(a + 0) == pow10(a) * 1) by (nonlinear_arith)
            requires
                pow10(a + 0) == pow10(a),
        ;
    } else {
        lemma_pow10_add(a, (b - 1) as nat);
        assert(pow10(a + b) == 10 * pow10((a + b - 1) as nat));
        assert(pow10(a) * pow10(b) == pow10(a) * (10 * pow10((b - 1) as nat)));
        assert(pow10(a) * (10 * pow10((b - 1) as nat)) == 10 * (pow10(a) * pow10(
            (b - 1) as nat,
        ))) by (nonlinear_arith);
    }
}

pub proof fn lemma_pow10_mono(a: nat, b: nat)
    requires
        a <= b,
    ensures
        pow10(a) <= pow10(b),
{
    lemma_pow10_add(a, (b - a) as nat);
    lemma_pow10_pos((b - a) as nat);
    assert(pow10(a) * 1 <= pow10(a) * pow10((b - a) as nat)) by (nonlinear_arith)
        requires
            pow10((b - a) as nat) >= 1,
            pow10(a) >= 0,
    ;
}

/// Positional split: a numeral is its head scaled by the tail's width, plus
/// its tail.
pub proof fn lemma_digits_val_append(a: Seq<u8>, b: Seq<u8>)
    ensures
        digits_val(a + b) == digits_val(a) * pow10(b.len()) + digits_val(b),
    decreases b.len(),
{
    if b.len() == 0 {
        assert(a + b =~= a);
        assert(digits_val(a) * 1 == digits_val(a)) by (nonlinear_arith);
    } else {
        let b1 = b.drop_last();
        assert((a + b).drop_last() =~= a + b1);
        lemma_digits_val_append(a, b1);
        assert(digits_val(a + b) == (digits_val(a) * pow10(b1.len()) + digits_val(b1)) * 10
            + b.last());
        assert(pow10(b.len()) == 10 * pow10(b1.len()));
        assert((digits_val(a) * pow10(b1.len()) + digits_val(b1)) * 10 + b.last() == digits_val(a)
            * (10 * pow10(b1.len())) + (digits_val(b1) * 10 + b.last())) by (nonlinear_arith);
    }
}

pub proof fn lemma_digits_val_bound(ds: Seq<u8>)
    requires
        digits_ok(ds),
    ensures
        digits_val(ds) < pow10(ds.len()),
    decreases ds.len(),
{
    if ds.len() == 0 {
    } else {
        let d1 = ds.drop_last();
        assert(digits_ok(d1));
        lemma_digits_val_bound(d1);
        assert(ds.last() <= 9);
        assert(digits_val(d1) * 10 + ds.last() < 10 * pow10(d1.len())) by (nonlinear_arith)
            requires
                digits_val(d1) < pow10(d1.len()),
                ds.last() <= 9,
        ;
    }
}

pub proof fn lemma_digits_val_zero(ds: Seq<u8>)
    requires
        forall|k: int| 0 <= k < ds.len() ==> ds[k] == 0,
    ensures
        digits_val(ds) == 0,
    decreases ds.len(),
{
    if ds.len() > 0 {
        lemma_digits_val_zero(ds.drop_last());
    }
}

proof fn lemma_digits_val_single(d: u8)
    ensures
        digits_val(seq![d]) == d,
{
    let s = seq![d];
    assert(s.drop_last() =~= Seq::<u8>::empty());
    assert(digits_val(s.drop_last()) == 0);
    assert(digits_val(s) == digits_val(s.drop_last()) * 10 + s.last() as nat);
    assert(s.last() == d);
}

/// A numeral whose first digit is nonzero is at least the power of ten of
/// its remaining width.
pub proof fn lemma_digits_val_first(ds: Seq<u8>)
    requires
        digits_ok(ds),
        ds.len() >= 1,
        ds[0] >= 1,
    ensures
        digits_val(ds) >= pow10((ds.len() - 1) as nat),
{
    let rest = ds.skip(1);
    assert(ds =~= seq![ds[0]] + rest);
    lemma_digits_val_append(seq![ds[0]], rest);
    lemma_digits_val_single(ds[0]);
    assert(ds[0] * pow10(rest.len()) >= pow10(rest.len())) by (nonlinear_arith)
        requires
            ds[0] >= 1,
            pow10(rest.len()) >= 0,
    ;
}

/// `dval` scaled by `10^e` and rounded half-up to an integer.
pub open spec fn spec_scaled(dval: nat, e: int) -> nat {
    if e >= 0 {
        dval * pow10(e as nat)
    } else {
        let k = pow10((-e) as nat);
        dval / k + if 2 * (dval % k) >= k {
            1nat
        } else {
            0nat
        }
    }
}

/// The signed exponent of a number token.
pub open spec fn exp_value(n: NumberView) -> int {
    if n.exp_negative {
        -(digits_val(n.exp_digits) as int)
    } else {
        digits_val(n.exp_digits) as int
    }
}

/// The token's value scaled by `10^shift`, rounded half-up, clamped to zero
/// for negative tokens and saturated at `u64::MAX`.
pub open spec fn spec_number_scaled(n: NumberView, shift: nat) -> u64 {
    if n.negative {
        0
    } else {
        let dval = digits_val(n.int_digits + n.frac_digits);
        let e = exp_value(n) - n.frac_digits.len() + shift;
        let v = spec_scaled(dval, e);
        if v > u64::MAX {
            u64::MAX
        } else {
            v as u64
        }
    }
}

/// The token's value as an exact `u64`: an integer token in range, with no
/// fraction and no exponent (a negative sign is allowed only on zero).
pub open spec fn spec_number_as_u64(n: NumberView) -> Option<u64> {
    if n.frac_digits.len() > 0 || n.exp_digits.len() > 0 {
        None
    } else if n.negative && digits_val(n.int_digits) != 0 {
        None
    } else if digits_val(n.int_digits) > u64::MAX {
        None
    } else {
        Some(digits_val(n.int_digits) as u64)
    }
}

/// A numeral is at least the value of any of its prefixes.
proof fn lemma_digits_val_prefix(ds: Seq<u8>, j: int)
    requires
        0 <= j <= ds.len(),
    ensures
        digits_val(ds) >= digits_val(ds.take(j)),
{
    assert(ds =~= ds.take(j) + ds.skip(j));
    lemma_digits_val_append(ds.take(j), ds.skip(j));
    lemma_pow10_pos(ds.skip(j).len());
    assert(digits_val(ds.take(j)) * pow10(ds.skip(j).len()) >= digits_val(ds.take(j)))
        by (nonlinear_arith)
        requires
            pow10(ds.skip(j).len()) >= 1,
            digits_val(ds.take(j)) >= 0,
    ;
}

/// The numeral value of `count` digits of `ds` starting at `start`.
fn digits_range_val(ds: &[u8], start: usize, count: usize) -> (r: u128)
    requires
        digits_ok(ds@),
        start + count <= ds@.len(),
        count <= 21,
    ensures
        r == digits_val(ds@.subrange(start as int, (start + count) as int)),
{
    let ghost sub = ds@.subrange(start as int, (start + count) as int);
    proof {
        assert(digits_ok(sub));
    }
    let n = ds.len();
    let mut acc: u128 = 0;
    let mut j: usize = 0;
    while j < count
        invariant
            0 <= j <= count,
            count <= 21,
            n == ds@.len(),
            start + count <= n,
            digits_ok(ds@),
            sub == ds@.subrange(start as int, (start + count) as int),
            acc == digits_val(sub.take(j as int)),
        decreases count - j,
    {
        proof {
            assert(digits_ok(sub.take(j as int)));
            lemma_digits_val_bound(sub.take(j as int));
            lemma_pow10_mono(j as nat, 21);
            assert(pow10(21) == 0x3635C9ADC5DEA00000) by {
                reveal_with_fuel(pow10, 22);
            }
        }
        let d = *vstd::slice::slice_index_get(ds, start + j);
        acc = acc * 10 + d as u128;
        proof {
            assert(sub.take(j + 1).drop_last() =~= sub.take(j as int));
            assert(sub.take(j + 1).last() == sub[j as int]);
        }
        j += 1;
    }
    proof {
        assert(sub.take(count as int) =~= sub);
    }
    acc
}

/// The token's exponent numeral, saturated: a result above `EXP_CAP` stands
/// for any exponent at least that large.
const EXP_CAP: u128 = 999_999_999_999_999_999_999_999_999;

fn exp_magnitude(ds: &[u8]) -> (r: u128)
    requires
        digits_ok(ds@),
    ensures
        r <= EXP_CAP ==> r == digits_val(ds@),
        r > EXP_CAP ==> digits_val(ds@) > EXP_CAP,
{
    proof {
        assert(EXP_CAP == pow10(27) - 1) by {
            reveal_with_fuel(pow10, 28);
        }
    }
    let n = ds.len();
    let mut acc: u128 = 0;
    let mut j: usize = 0;
    while j < n
        invariant
            0 <= j <= n,
            n == ds@.len(),
            digits_ok(ds@),
            acc == digits_val(ds@.take(j as int)),
            acc <= EXP_CAP,
        decreases n - j,
    {
        proof {
            assert(digits_ok(ds@.take(j as int)));
        }
        let d = *vstd::slice::slice_index_get(ds, j);
        acc = acc * 10 + d as u128;
        proof {
            assert(ds@.take(j + 1).drop_last() =~= ds@.take(j as int));
            assert(ds@.take(j + 1).last() == ds@[j as int]);
        }
        j += 1;
        if acc > EXP_CAP {
            proof {
                lemma_digits_val_prefix(ds@, j as int);
            }
            return acc;
        }
    }
    proof {
        assert(ds@.take(n as int) =~= ds@);
    }
    acc
}

/// Rounding by the leading tail digit agrees with rounding by the tail's
/// halfness: the tail of a split numeral is at least half its width's power
/// of ten exactly when its first digit is five or more.
proof fn lemma_round_digit(tail: Seq<u8>)
    requires
        digits_ok(tail),
        tail.len() >= 1,
    ensures
        2 * digits_val(tail) >= pow10(tail.len()) <==> tail[0] >= 5,
{
    let rest = tail.skip(1);
    assert(tail =~= seq![tail[0]] + rest);
    lemma_digits_val_append(seq![tail[0]], rest);
    lemma_digits_val_single(tail[0]);
    assert(digits_ok(rest));
    lemma_digits_val_bound(rest);
    let l = rest.len();
    assert(pow10(tail.len()) == 10 * pow10(l));
    let d = tail[0] as nat;
    let rv = digits_val(rest);
    assert(digits_val(tail) == d * pow10(l) + rv);
    if tail[0] >= 5 {
        assert(2 * (d * pow10(l) + rv) >= 10 * pow10(l)) by (nonlinear_arith)
            requires
                d >= 5,
                rv >= 0,
                pow10(l) >= 0,
        ;
    } else {
        assert(2 * (d * pow10(l) + rv) < 10 * pow10(l)) by (nonlinear_arith)
            requires
                d <= 4,
                rv < pow10(l),
                pow10(l) >= 1,
        ;
        lemma_pow10_pos(l);
    }
}

/// Scaling a nonzero numeral by at least twenty-one decimal places
/// overflows `u64`.
proof fn lemma_scaled_huge(dval: nat, e: int)
    requires
        dval >= 1,
        e >= 21,
    ensures
        spec_scaled(dval, e) > u64::MAX,
{
    lemma_pow10_mono(21, e as nat);
    assert(pow10(21) == 0x3635C9ADC5DEA00000) by {
        reveal_with_fuel(pow10, 22);
    }
    assert(dval * pow10(e as nat) >= pow10(e as nat)) by (nonlinear_arith)
        requires
            dval >= 1,
            pow10(e as nat) >= 0,
    ;
}

/// Scaling a numeral down past its whole width rounds to zero.
proof fn lemma_scaled_tiny(ds: Seq<u8>, e: int)
    requires
        digits_ok(ds),
        e < 0,
        -e > ds.len(),
    ensures
        spec_scaled(digits_val(ds), e) == 0,
{
    let dval = digits_val(ds);
    let k = pow10((-e) as nat);
    lemma_digits_val_bound(ds);
    lemma_pow10_mono((ds.len() + 1) as nat, (-e) as nat);
    assert(pow10((ds.len() + 1) as nat) == 10 * pow10(ds.len()));
    assert(2 * dval < 10 * pow10(ds.len())) by (nonlinear_arith)
        requires
            dval < pow10(ds.len()),
            pow10(ds.len()) >= 0,
    ;
    assert(dval < k);
    vstd::arithmetic::div_mod::lemma_basic_div(dval as int, k as int);
    vstd::arithmetic::div_mod::lemma_small_mod(dval, k as nat);
}

/// A numeral with a nonzero leading digit, scaled to more than twenty
/// integer digits, overflows `u64`.
proof fn lemma_scaled_overflow(sig: Seq<u8>, e: int)
    requires
        digits_ok(sig),
        sig.len() >= 1,
        sig[0] >= 1,
        sig.len() + e > 20,
    ensures
        spec_scaled(digits_val(sig), e) > u64::MAX,
{
    let dval = digits_val(sig);
    let q1 = (sig.len() + e - 1) as nat;
    lemma_digits_val_first(sig);
    assert(pow10(20) == 0x56BC75E2D63100000) by {
        reveal_with_fuel(pow10, 21);
    }
    lemma_pow10_mono(20, q1);
    if e >= 0 {
        lemma_pow10_add((sig.len() - 1) as nat, e as nat);
        assert(dval * pow10(e as nat) >= pow10((sig.len() - 1) as nat) * pow10(e as nat))
            by (nonlinear_arith)
            requires
                dval >= pow10((sig.len() - 1) as nat),
                pow10(e as nat) >= 0,
        ;
    } else {
        let k = pow10((-e) as nat);
        lemma_pow10_pos((-e) as nat);
        lemma_pow10_add(q1, (-e) as nat);
        assert(dval >= pow10(q1) * k);
        lemma_div_is_ordered((pow10(q1) * k) as int, dval as int, k as int);
        lemma_div_by_multiple(pow10(q1) as int, k as int);
        assert(dval / k >= pow10(q1));
    }
}

impl JsonNumber {
    /// The token's value as an exact `u64`, or `None` where a JSON
    /// deserializer of an unsigned integer field rejects the token.
    pub fn as_u64(&self) -> (r: Option<u64>)
        requires
            number_wf(self@),
        ensures
            r == spec_number_as_u64(self@),
    {
        if self.frac_digits.len() > 0 || self.exp_digits.len() > 0 {
            return None;
        }
        let ds = self.int_digits.as_slice();
        let n = ds.len();
        let mut acc: u128 = 0;
        let mut j: usize = 0;
        while j < n
            invariant
                0 <= j <= n,
                n == ds@.len(),
                ds@ == self.int_digits@,
                digits_ok(ds@),
                acc == digits_val(ds@.take(j as int)),
                acc <= u64::MAX,
            decreases n - j,
        {
            let d = *vstd::slice::slice_index_get(ds, j);
            acc = acc * 10 + d as u128;
            proof {
                assert(ds@.take(j + 1).drop_last() =~= ds@.take(j as int));
                assert(ds@.take(j + 1).last() == ds@[j as int]);
            }
            j += 1;
            if acc > u64::MAX as u128 {
                proof {
                    lemma_digits_val_prefix(ds@, j as int);
                }
                return None;
            }
        }
        proof {
            assert(ds@.take(n as int) =~= ds@);
        }
        if self.negative && acc != 0 {
            return None;
        }
        Some(acc as u64)
    }

    /// The token's value scaled by `10^shift` and rounded half-up to an
    /// integer, clamped to zero for a negative token and saturated at
    /// `u64::MAX`.
    #[verifier::rlimit(100)]
    pub fn scaled_u64(&self, shift: usize) -> (r: u64)
        requires
            number_wf(self@),
            shift <= 6,
        ensures
            r == spec_number_scaled(self@, shift as nat),
    {
        if self.negative {
            return 0;
        }
        let mut ds: Vec<u8> = Vec::new();
        ds.extend_from_slice(self.int_digits.as_slice());
        ds.extend_from_slice(self.frac_digits.as_slice());
        let ghost dsv = self.int_digits@ + self.frac_digits@;
        proof {
            assert(ds@ =~= dsv);
            assert(digits_ok(dsv));
        }
        let ghost dval = digits_val(dsv);
        let ghost e = exp_value(self@) - self@.frac_digits.len() + shift;
        let dn = ds.len();
        let mut z: usize = 0;
        while z < dn
            invariant_except_break
                0 <= z <= dn,
                dn == ds@.len(),
                forall|k: int| 0 <= k < z ==> ds@[k] == 0,
            ensures
                0 <= z <= dn,
                dn == ds@.len(),
                forall|k: int| 0 <= k < z ==> ds@[k] == 0,
                z == dn || ds@[z as int] != 0,
            decreases dn - z,
        {
            if ds[z] != 0 {
                break ;
            }
            z += 1;
        }
        if z == dn {
            proof {
                lemma_digits_val_zero(dsv);
                if e < 0 {
                    lemma_pow10_pos((-e) as nat);
                    lemma_basic_div(0int, pow10((-e) as nat) as int);
                    lemma_small_mod(0nat, pow10((-e) as nat));
                } else {
                    assert((0nat) * pow10(e as nat) == 0) by (nonlinear_arith);
                }
            }
            return 0;
        }
        let ghost sig = dsv.skip(z as int);
        let sig_len = dn - z;
        proof {
            assert(dsv =~= dsv.take(z as int) + sig);
            lemma_digits_val_append(dsv.take(z as int), sig);
            lemma_digits_val_zero(dsv.take(z as int));
            assert(digits_val(dsv.take(z as int)) * pow10(sig.len()) == 0) by (nonlinear_arith)
                requires
                    digits_val(dsv.take(z as int)) == 0,
            ;
            assert(dval == digits_val(sig));
            assert(digits_ok(sig));
            assert(sig[0] >= 1);
            assert(sig.len() == sig_len);
            lemma_digits_val_first(sig);
            lemma_pow10_pos((sig.len() - 1) as nat);
        }
        let em = exp_magnitude(self.exp_digits.as_slice());
        if em > EXP_CAP {
            if self.exp_negative {
                proof {
                    assert(-e > dsv.len());
                    lemma_scaled_tiny(dsv, e);
                }
                return 0;
            } else {
                proof {
                    assert(e >= 21);
                    lemma_scaled_huge(dval, e);
                }
                return u64::MAX;
            }
        }
        let ev: i128 = if self.exp_negative {
            -(em as i128)
        } else {
            em as i128
        };
        let e3: i128 = ev - self.frac_digits.len() as i128 + shift as i128;
        proof {
            assert(e3 as int == e);
        }
        let q: i128 = sig_len as i128 + e3;
        if q > 20 {
            proof {
                lemma_scaled_overflow(sig, e);
            }
            return u64::MAX;
        }
        if q <= 0 {
            let first = ds[z];
            proof {
                assert(first == sig[0]);
            }
            if q == 0 && first >= 5 {
                proof {
                    assert((-e) as nat == sig.len());
                    lemma_digits_val_bound(sig);
                    lemma_pow10_pos(sig.len());
                    lemma_basic_div(dval as int, pow10(sig.len()) as int);
                    lemma_small_mod(dval, pow10(sig.len()));
                    lemma_round_digit(sig);
                }
                return 1;
            } else if q == 0 {
                proof {
                    assert((-e) as nat == sig.len());
                    lemma_digits_val_bound(sig);
                    lemma_pow10_pos(sig.len());
                    lemma_basic_div(dval as int, pow10(sig.len()) as int);
                    lemma_small_mod(dval, pow10(sig.len()));
                    lemma_round_digit(sig);
                }
                return 0;
            } else {
                proof {
                    assert(-e > sig.len());
                    lemma_scaled_tiny(sig, e);
                }
                return 0;
            }
        }
        let t = q as usize;
        if e3 >= 0 {
            let mut acc = digits_range_val(ds.as_slice(), z, sig_len);
            proof {
                assert(ds@.subrange(z as int, (z + sig_len) as int) =~= sig);
                assert(acc == dval);
                assert(acc * 1 == acc) by (nonlinear_arith);
            }
            let esteps = e3 as usize;
            let mut st: usize = 0;
            while st < esteps
                invariant
                    0 <= st <= esteps,
                    esteps == t - sig_len,
                    1 <= sig_len <= t <= 20,
                    acc == dval * pow10(st as nat),
                    dval == digits_val(sig),
                    digits_ok(sig),
                    sig.len() == sig_len,
                decreases esteps - st,
            {
                proof {
                    lemma_digits_val_bound(sig);
                    lemma_pow10_add(sig_len as nat, st as nat);
                    lemma_pow10_pos(st as nat);
                    assert(dval * pow10(st as nat) < pow10(sig_len as nat) * pow10(st as nat))
                        by (nonlinear_arith)
                        requires
                            dval < pow10(sig_len as nat),
                            pow10(st as nat) >= 1,
                    ;
                    lemma_pow10_mono((sig_len + st) as nat, 20);
                    assert(pow10(20) == 0x56BC75E2D63100000) by {
                        reveal_with_fuel(pow10, 21);
                    }
                    assert(dval * pow10(st as nat) * 10 == dval * pow10((st + 1) as nat))
                        by (nonlinear_arith)
                        requires
                            pow10((st + 1) as nat) == 10 * pow10(st as nat),
                    ;
                }
                acc = acc * 10;
                st += 1;
            }
            proof {
                assert(acc == dval * pow10(e as nat));
            }
            if acc > 0xFFFF_FFFF_FFFF_FFFF {
                return u64::MAX;
            }
            return acc as u64;
        } else {
            let m0 = digits_range_val(ds.as_slice(), z, t);
            let d = ds[z + t];
            let ghost head = sig.take(t as int);
            let ghost tail = sig.skip(t as int);
            proof {
                assert(ds@.subrange(z as int, (z + t) as int) =~= head);
                assert(m0 == digits_val(head));
                assert(sig =~= head + tail);
                lemma_digits_val_append(head, tail);
                assert(digits_ok(tail));
                assert(digits_ok(head));
                lemma_digits_val_bound(tail);
                lemma_digits_val_bound(head);
                lemma_pow10_pos(tail.len());
                lemma_fundamental_div_mod_converse(
                    dval as int,
                    pow10(tail.len()) as int,
                    digits_val(head) as int,
                    digits_val(tail) as int,
                );
                lemma_round_digit(tail);
                assert(tail[0] == sig[t as int]);
                assert(d == sig[t as int]);
                assert((-e) as nat == tail.len());
                lemma_pow10_mono(t as nat, 20);
                assert(pow10(20) == 0x56BC75E2D63100000) by {
                    reveal_with_fuel(pow10, 21);
                }
            }
            let rounded: u128 = if d >= 5 {
                m0 + 1
            } else {
                m0
            };
            if rounded > 0xFFFF_FFFF_FFFF_FFFF {
                return u64::MAX;
            }
            return rounded as u64;
        }
    }
}

} // verus!
