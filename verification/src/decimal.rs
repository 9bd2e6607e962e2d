//! Numbers in the finite forms `str::parse::<f64>` reads (`"-12.5"`,
//! `"195"`, `".75"`, `"1e3"`), read as exact fractions and scaled to
//! integers with rounding half away from zero, saturating as a float
//! cast saturates.
use crate::text::{all_digits, ascii_lower, digits_value, is_digit, push_all, slice_chars};
use vstd::prelude::*;

verus! {

/// A bound on every value [`decimal_scaled`] returns.
pub const DEC_BOUND: i128 = 100_000_000_000_000_000_000_000_000_000_000_000;

pub open spec fn pow10(n: nat) -> nat
    decreases n,
{
    if n == 0 {
        1
    } else {
        10 * pow10((n - 1) as nat)
    }
}

/// `a / b` rounded half up.
pub open spec fn round_div(a: nat, b: nat) -> nat {
    ((2 * a + b) / (2 * b)) as nat
}

/// A leading `-` or `+` peeled off.
pub open spec fn sign_split(s: Seq<char>) -> (bool, Seq<char>) {
    if s.len() > 0 && s[0] == '-' {
        (true, s.drop_first())
    } else if s.len() > 0 && s[0] == '+' {
        (false, s.drop_first())
    } else {
        (false, s)
    }
}

/// Index of the first `.` of `b` at or after `i` (`b.len()` if none).
pub open spec fn first_dot(b: Seq<char>, i: int) -> int
    decreases b.len() - i,
{
    if i < 0 || i >= b.len() {
        b.len() as int
    } else if b[i] == '.' {
        i
    } else {
        first_dot(b, i + 1)
    }
}

/// Sign, text before the first `.` and text after it.
pub open spec fn raw_split(s: Seq<char>) -> (bool, Seq<char>, Seq<char>) {
    let (neg, b) = sign_split(s);
    let d = first_dot(b, 0);
    let fp = if d < b.len() {
        b.skip(d + 1)
    } else {
        Seq::empty()
    };
    (neg, b.take(d), fp)
}

/// Sign, integer digits and fraction digits of a plain decimal: an
/// optional sign, digits, optionally a `.` and digits, with at least one
/// digit in all.
pub open spec fn dec_parts(s: Seq<char>) -> Option<(bool, Seq<char>, Seq<char>)> {
    let (neg, ip, fp) = raw_split(s);
    if all_digits(ip) && all_digits(fp) && ip.len() + fp.len() > 0 {
        Some((neg, ip, fp))
    } else {
        None
    }
}

/// The number `s` times `mult / 10^shift` as a float cast reads it (see
/// [`float_scaled`]), rounded half away from zero and saturated at plus
/// or minus [`NUM_BOUND`]; `None` unless `s` reads as a float.
pub open spec fn dec_scaled(s: Seq<char>, mult: nat, shift: nat) -> Option<int> {
    match float_scaled(s, mult, shift) {
        Some(x) => Some(clamp_num(x)),
        None => None,
    }
}

proof fn lemma_pow10_bounds(n: nat)
    ensures
        pow10(n) >= 1,
        n <= 24 ==> pow10(n) <= 1_000_000_000_000_000_000_000_000,
{
    lemma_pow10_pos(n);
    if n <= 24 {
        lemma_pow10_mono(n, 24);
        assert(pow10(24) == 1_000_000_000_000_000_000_000_000) by {
            reveal_with_fuel(pow10, 25);
        }
    }
}

proof fn lemma_pow10_pos(n: nat)
    ensures
        pow10(n) >= 1,
    decreases n,
{
    if n > 0 {
        lemma_pow10_pos((n - 1) as nat);
    }
}

fn pow10_exec(n: u32) -> (r: u128)
    requires
        n <= 24,
    ensures
        r == pow10(n as nat),
{
    let mut r: u128 = 1;
    let mut i: u32 = 0;
    while i < n
        invariant
            0 <= i <= n <= 24,
            r == pow10(i as nat),
        decreases n - i,
    {
        proof {
            lemma_pow10_bounds(i as nat);
            lemma_pow10_bounds((i + 1) as nat);
        }
        r = r * 10;
        i = i + 1;
    }
    r
}

pub proof fn lemma_digits_below(s: Seq<char>)
    requires
        all_digits(s),
    ensures
        digits_value(s) < pow10(s.len()),
    decreases s.len(),
{
    if s.len() > 0 {
        let t = s.drop_last();
        assert(all_digits(t)) by {
            assert forall|k: int| 0 <= k < t.len() implies #[trigger] is_digit(t[k]) by {
                assert(is_digit(s[k]));
            }
        }
        lemma_digits_below(t);
        assert(is_digit(s[s.len() - 1]));
        assert(pow10(s.len()) == 10 * pow10(t.len()));
    }
}

fn all_digits_exec(v: &Vec<char>) -> (r: bool)
    ensures
        r == all_digits(v@),
{
    let mut i: usize = 0;
    while i < v.len()
        invariant
            0 <= i <= v@.len(),
            forall|k: int| 0 <= k < i ==> #[trigger] is_digit(v@[k]),
        decreases v.len() - i,
    {
        if !(48 <= v[i] as u32 && v[i] as u32 <= 57) {
            assert(!is_digit(v@[i as int]));
            return false;
        }
        i = i + 1;
    }
    true
}

pub proof fn lemma_pow10_mono(a: nat, b: nat)
    requires
        a <= b,
    ensures
        pow10(a) <= pow10(b),
    decreases b,
{
    if a < b {
        lemma_pow10_mono(a, (b - 1) as nat);
        lemma_pow10_pos((b - 1) as nat);
    }
}

fn split_decimal(v: &Vec<char>) -> (r: (bool, Vec<char>, Vec<char>))
    ensures
        (r.0, r.1@, r.2@) == raw_split(v@),
{
    let n = v.len();
    let mut start: usize = 0;
    let mut neg = false;
    if n > 0 && v[0] == '-' {
        neg = true;
        start = 1;
    } else if n > 0 && v[0] == '+' {
        start = 1;
    }
    let body = slice_chars(v, start, n);
    let ghost b = body@;
    proof {
        assert(b =~= sign_split(v@).1);
    }
    let mut d: usize = 0;
    while d < body.len() && body[d] != '.'
        invariant
            0 <= d <= body@.len(),
            b == body@,
            first_dot(b, 0) == first_dot(b, d as int),
        decreases body.len() - d,
    {
        d = d + 1;
    }
    let ip = slice_chars(&body, 0, d);
    let fp = if d < body.len() {
        slice_chars(&body, d + 1, body.len())
    } else {
        Vec::new()
    };
    proof {
        assert(ip@ =~= b.take(d as int));
        if d < body.len() {
            assert(fp@ =~= b.skip(d + 1));
        } else {
            assert(fp@ =~= Seq::<char>::empty());
        }
    }
    (neg, ip, fp)
}

/// The number `v` times `mult / 10^shift`, rounded half away from zero
/// and saturated (see [`dec_scaled`]).
pub fn decimal_scaled(v: &Vec<char>, mult: u64, shift: u32) -> (r: Option<i128>)
    requires
        1 <= mult <= 10_000_000_000,
        shift <= 9,
    ensures
        match r {
            Some(x) => dec_scaled(v@, mult as nat, shift as nat) == Some(x as int) && -DEC_BOUND
                <= x <= DEC_BOUND,
            None => dec_scaled(v@, mult as nat, shift as nat) is None,
        },
{
    match number_scaled_exec(v, mult, shift) {
        Some(x) => Some(x),
        None => match special_number_exec(v) {
            Some((_, true)) => Some(0),
            Some((neg, false)) => Some(
                if neg {
                    -NUM_BOUND
                } else {
                    NUM_BOUND
                },
            ),
            None => None,
        },
    }
}

/// Whether `v` reads as a float below `bound` (see [`float_below`]).
pub fn float_below_exec(v: &Vec<char>, bound: u64) -> (r: bool)
    requires
        1 <= bound <= 1_000_000_000,
    ensures
        r == float_below(v@, bound as nat),
{
    if number_scaled_exec(v, 1, 0).is_some() {
        number_below_exec(v, bound)
    } else {
        special_number_exec(v) == Some((true, false))
    }
}

// ---- numbers in the forms `str::parse::<f64>` reads ------------------------

/// Index of the first `e` or `E` of `s` at or after `i` (`s.len()` if none).
pub open spec fn first_exp(s: Seq<char>, i: int) -> int
    decreases s.len() - i,
{
    if i < 0 || i >= s.len() {
        s.len() as int
    } else if s[i] == 'e' || s[i] == 'E' {
        i
    } else {
        first_exp(s, i + 1)
    }
}

/// The exponent of a number whose mantissa ends at `x`: 0 when there is
/// none, else `e`/`E`, an optional sign and at least one digit.
pub open spec fn exp_value(s: Seq<char>, x: int) -> Option<int> {
    if x >= s.len() {
        Some(0)
    } else {
        let (eneg, ed) = sign_split(s.skip(x + 1));
        if ed.len() > 0 && all_digits(ed) {
            Some(
                if eneg {
                    -(digits_value(ed) as int)
                } else {
                    digits_value(ed) as int
                },
            )
        } else {
            None
        }
    }
}

/// A finite number as `str::parse::<f64>` writes one: a plain decimal
/// (see [`dec_parts`]) and an optional exponent. Gives the sign, the
/// digits with the point taken out, and the power of ten they are scaled
/// by.
pub open spec fn number_parts(s: Seq<char>) -> Option<(bool, Seq<char>, int)> {
    let x = first_exp(s, 0);
    match (dec_parts(s.take(x)), exp_value(s, x)) {
        (Some((neg, ip, fp)), Some(e)) => Some((neg, ip + fp, e - fp.len())),
        _ => None,
    }
}

/// Index of the first char of `s` at or after `i` that is not `0`.
pub open spec fn lead_zeros(s: Seq<char>, i: int) -> int
    decreases s.len() - i,
{
    if i < 0 || i >= s.len() {
        s.len() as int
    } else if s[i] != '0' {
        i
    } else {
        lead_zeros(s, i + 1)
    }
}

/// `n * 10^k`, rounded half up where `k` is negative.
pub open spec fn scaled_round(n: nat, k: int) -> nat {
    if k >= 0 {
        n * pow10(k as nat)
    } else {
        round_div(n, pow10((-k) as nat))
    }
}

/// The number `s` as its sign, its first 28 significant digits (an
/// `f64` holds about 17) as a whole number `d`, and the power of ten `k`
/// that scales `d` to the value; `None` unless `s` is a number.
pub open spec fn number_kept(s: Seq<char>) -> Option<(bool, nat, int)> {
    match number_parts(s) {
        Some((neg, ds, e)) => {
            let sd = ds.skip(lead_zeros(ds, 0));
            let kept = if sd.len() > 28 {
                sd.take(28)
            } else {
                sd
            };
            Some((neg, digits_value(kept), e + (sd.len() - kept.len())))
        },
        None => None,
    }
}

/// The number `s` times `mult / 10^shift`, rounded half away from zero;
/// `None` unless `s` is a number (see [`number_kept`]).
pub open spec fn number_scaled(s: Seq<char>, mult: nat, shift: nat) -> Option<int> {
    match number_kept(s) {
        Some((neg, d, k)) => Some(signed(neg, scaled_round(d * mult, k - shift))),
        None => None,
    }
}

/// Whether the number `s` is below `bound`: negative (`-0` included),
/// or with a value below it; `false` when `s` is not a number.
pub open spec fn number_below(s: Seq<char>, bound: nat) -> bool {
    match number_kept(s) {
        Some((neg, d, k)) => neg || (if k >= 0 {
            d * pow10(k as nat) < bound
        } else {
            d < bound * pow10((-k) as nat)
        }),
        None => false,
    }
}

/// `s` is `lit` (lowercase) in any ASCII case.
pub open spec fn eq_any_case(s: Seq<char>, lit: Seq<char>) -> bool {
    s.len() == lit.len() && forall|i: int| 0 <= i < s.len() ==> ascii_lower(#[trigger] s[i]) == lit[i]
}

/// The non-finite forms `str::parse::<f64>` reads: an optional sign, then
/// `inf`, `infinity` or `nan` in any case. Gives the sign and whether it
/// is a NaN.
pub open spec fn special_number(s: Seq<char>) -> Option<(bool, bool)> {
    let (neg, b) = sign_split(s);
    if eq_any_case(b, "inf"@) || eq_any_case(b, "infinity"@) {
        Some((neg, false))
    } else if eq_any_case(b, "nan"@) {
        Some((neg, true))
    } else {
        None
    }
}

/// The number `s` times `mult / 10^shift` as a float cast would see it:
/// a finite number exactly (see [`number_scaled`]); an infinity past
/// every bound, with its sign; a NaN as 0, as a float-to-integer cast
/// gives for it. `None` when `s` does not read as a float.
pub open spec fn float_scaled(s: Seq<char>, mult: nat, shift: nat) -> Option<int> {
    match number_scaled(s, mult, shift) {
        Some(x) => Some(x),
        None => match special_number(s) {
            Some((_, true)) => Some(0),
            Some((neg, false)) => Some(signed(neg, (NUM_BOUND + 1) as nat)),
            None => None,
        },
    }
}

/// Whether `s` reads as a float below `bound`: a finite number (see
/// [`number_below`]) or negative infinity; a NaN compares below nothing.
pub open spec fn float_below(s: Seq<char>, bound: nat) -> bool {
    match number_kept(s) {
        Some(_) => number_below(s, bound),
        None => special_number(s) == Some((true, false)),
    }
}

/// Whether `s` reads as a float, finite or not.
pub open spec fn reads_as_float(s: Seq<char>) -> bool {
    number_parts(s) is Some || special_number(s) is Some
}

fn eq_any_case_exec(v: &Vec<char>, lo: usize, lit: &str) -> (r: bool)
    requires
        lo <= v.len(),
    ensures
        r == eq_any_case(v@.skip(lo as int), lit@),
{
    let n = lit.unicode_len();
    if v.len() - lo != n {
        return false;
    }
    let mut i: usize = 0;
    while i < n
        invariant
            0 <= i <= n,
            n == lit@.len(),
            v.len() - lo == n,
            forall|k: int| 0 <= k < i ==> ascii_lower(#[trigger] v@.skip(lo as int)[k]) == lit@[k],
        decreases n - i,
    {
        let c = v[lo + i];
        let low = if 'A' <= c && c <= 'Z' {
            ((c as u32) + 32) as u8 as char
        } else {
            c
        };
        assert(v@.skip(lo as int)[i as int] == c);
        if low != lit.get_char(i) {
            return false;
        }
        i = i + 1;
    }
    true
}

/// The sign and NaN-ness of a non-finite form (see [`special_number`]).
fn special_number_exec(v: &Vec<char>) -> (r: Option<(bool, bool)>)
    ensures
        r == special_number(v@),
{
    let start: usize = if v.len() > 0 && (v[0] == '-' || v[0] == '+') {
        1
    } else {
        0
    };
    let neg = v.len() > 0 && v[0] == '-';
    proof {
        if start == 1 {
            assert(v@.skip(1) =~= v@.drop_first());
        } else {
            assert(v@.skip(0) =~= v@);
        }
        assert(sign_split(v@) == (neg, v@.skip(start as int)));
    }
    if eq_any_case_exec(v, start, "inf") || eq_any_case_exec(v, start, "infinity") {
        Some((neg, false))
    } else if eq_any_case_exec(v, start, "nan") {
        Some((neg, true))
    } else {
        None
    }
}

/// Whether `v` reads as a float (see [`reads_as_float`]).
pub fn is_number(v: &Vec<char>) -> (r: bool)
    ensures
        r == reads_as_float(v@),
{
    number_scaled_exec(v, 1, 0).is_some() || special_number_exec(v).is_some()
}

/// Where [`number_scaled_exec`] saturates, as a float cast saturates.
pub const NUM_BOUND: i128 = 10_000_000_000_000_000_000;

/// `x` saturated at plus or minus [`NUM_BOUND`].
pub open spec fn clamp_num(x: int) -> int {
    if x > NUM_BOUND {
        NUM_BOUND as int
    } else if x < -NUM_BOUND {
        -NUM_BOUND
    } else {
        x
    }
}

pub open spec fn signed(neg: bool, m: nat) -> int {
    if neg {
        -(m as int)
    } else {
        m as int
    }
}

/// Exponents are read up to this magnitude: a number past it is far
/// beyond [`NUM_BOUND`], or rounds to zero.
const EXP_CAP: u128 = 1_180_591_620_717_411_303_424;

proof fn lemma_pow10_values()
    ensures
        pow10(20) == 100_000_000_000_000_000_000,
        pow10(21) == 1_000_000_000_000_000_000_000,
        pow10(27) == 1_000_000_000_000_000_000_000_000_000,
        pow10(28) == 10_000_000_000_000_000_000_000_000_000,
        pow10(38) == 100_000_000_000_000_000_000_000_000_000_000_000_000,
        pow10(39) == 1_000_000_000_000_000_000_000_000_000_000_000_000_000,
{
    reveal_with_fuel(pow10, 40);
}

proof fn lemma_scaled_round_zero(k: int)
    ensures
        scaled_round(0, k) == 0,
{
    if k < 0 {
        let p = pow10((-k) as nat);
        lemma_pow10_pos((-k) as nat);
        assert((2 * 0 + p) / (2 * p) == 0) by (nonlinear_arith)
            requires
                p >= 1,
        ;
    }
}

proof fn lemma_scaled_round_large(n: nat, k: int)
    requires
        n >= 1,
        k > 20,
    ensures
        scaled_round(n, k) >= 1_000_000_000_000_000_000_000,
{
    lemma_pow10_mono(21, k as nat);
    lemma_pow10_values();
    let p = pow10(k as nat);
    assert(n * p >= p) by (nonlinear_arith)
        requires
            n >= 1,
            p >= 1,
    ;
}

proof fn lemma_scaled_round_tiny(n: nat, k: int)
    requires
        n < 100_000_000_000_000_000_000_000_000_000_000_000_000,
        k < -38,
    ensures
        scaled_round(n, k) == 0,
{
    lemma_pow10_mono(39, (-k) as nat);
    lemma_pow10_values();
    let p = pow10((-k) as nat);
    assert((2 * n + p) / (2 * p) == 0) by (nonlinear_arith)
        requires
            2 * n < p,
            p >= 1,
    ;
}

proof fn lemma_far_k(n: nat, k1: int, k2: int, neg: bool)
    requires
        n < 100_000_000_000_000_000_000_000_000_000_000_000_000,
        (k1 > 20 && k2 > 20) || (k1 < -38 && k2 < -38),
    ensures
        clamp_num(signed(neg, scaled_round(n, k1))) == clamp_num(signed(neg, scaled_round(n, k2))),
{
    if n == 0 {
        lemma_scaled_round_zero(k1);
        lemma_scaled_round_zero(k2);
    } else if k1 > 20 {
        lemma_scaled_round_large(n, k1);
        lemma_scaled_round_large(n, k2);
    } else {
        lemma_scaled_round_tiny(n, k1);
        lemma_scaled_round_tiny(n, k2);
    }
}

/// `n * 10^k` rounded, signed and saturated.
fn scale_clamp(neg: bool, n: u128, k: i128) -> (r: i128)
    requires
        n < 100_000_000_000_000_000_000_000_000_000_000_000_000,
    ensures
        r as int == clamp_num(signed(neg, scaled_round(n as nat, k as int))),
{
    proof {
        lemma_pow10_values();
    }
    if n == 0 {
        proof {
            lemma_scaled_round_zero(k as int);
        }
        return 0;
    }
    let m: u128 = if k > 20 {
        proof {
            lemma_scaled_round_large(n as nat, k as int);
        }
        return if neg {
            -NUM_BOUND
        } else {
            NUM_BOUND
        };
    } else if k >= 0 {
        let p = pow10_exec(k as u32);
        proof {
            lemma_pow10_pos(k as nat);
        }
        let b: u128 = NUM_BOUND as u128;
        if n > b / p {
            proof {
                assert((n as int) * (p as int) > b) by (nonlinear_arith)
                    requires
                        n > b / p,
                        p >= 1,
                ;
            }
            return if neg {
                -NUM_BOUND
            } else {
                NUM_BOUND
            };
        }
        proof {
            assert((n as int) * (p as int) <= b) by (nonlinear_arith)
                requires
                    n <= b / p,
                    p >= 1,
            ;
        }
        n * p
    } else if k < -38 {
        proof {
            lemma_scaled_round_tiny(n as nat, k as int);
        }
        return 0;
    } else {
        let p = pow10_u128((-k) as u32);
        proof {
            lemma_pow10_mono((-k) as nat, 38);
            lemma_pow10_pos((-k) as nat);
        }
        let q: u128 = (2 * n + p) / (2 * p);
        proof {
            assert(q <= 2 * n + p) by (nonlinear_arith)
                requires
                    p >= 1,
                    q == (2 * n + p) / (2 * p),
            ;
        }
        q
    };
    if m > NUM_BOUND as u128 {
        if neg {
            -NUM_BOUND
        } else {
            NUM_BOUND
        }
    } else if neg {
        -(m as i128)
    } else {
        m as i128
    }
}

fn pow10_u128(n: u32) -> (r: u128)
    requires
        n <= 38,
    ensures
        r == pow10(n as nat),
{
    let mut r: u128 = 1;
    let mut i: u32 = 0;
    while i < n
        invariant
            0 <= i <= n <= 38,
            r == pow10(i as nat),
        decreases n - i,
    {
        proof {
            lemma_pow10_mono(i as nat, 37);
            lemma_pow10_values();
            assert(pow10(37) * 10 == pow10(38)) by {
                reveal_with_fuel(pow10, 2);
            }
        }
        r = r * 10;
        i = i + 1;
    }
    r
}

fn first_exp_exec(v: &Vec<char>) -> (x: usize)
    ensures
        x as int == first_exp(v@, 0),
        x <= v@.len(),
{
    let mut i: usize = 0;
    while i < v.len() && v[i] != 'e' && v[i] != 'E'
        invariant
            0 <= i <= v@.len(),
            first_exp(v@, 0) == first_exp(v@, i as int),
        decreases v.len() - i,
    {
        i = i + 1;
    }
    i
}

fn lead_zeros_exec(v: &Vec<char>) -> (z: usize)
    ensures
        z as int == lead_zeros(v@, 0),
        z <= v@.len(),
{
    let mut i: usize = 0;
    while i < v.len() && v[i] == '0'
        invariant
            0 <= i <= v@.len(),
            lead_zeros(v@, 0) == lead_zeros(v@, i as int),
        decreases v.len() - i,
    {
        i = i + 1;
    }
    i
}

/// The digits `v` as a number, saturated at [`EXP_CAP`].
fn digits_sat(v: &Vec<char>) -> (r: u128)
    requires
        all_digits(v@),
    ensures
        r == if digits_value(v@) < EXP_CAP {
            digits_value(v@)
        } else {
            EXP_CAP as nat
        },
{
    let mut acc: u128 = 0;
    let mut i: usize = 0;
    while i < v.len()
        invariant
            0 <= i <= v@.len(),
            all_digits(v@),
            acc == if digits_value(v@.take(i as int)) < EXP_CAP {
                digits_value(v@.take(i as int))
            } else {
                EXP_CAP as nat
            },
        decreases v.len() - i,
    {
        proof {
            assert(v@.take(i + 1).drop_last() =~= v@.take(i as int));
            assert(is_digit(v@[i as int]));
        }
        let d = (v[i] as u32 - 48) as u128;
        if acc < EXP_CAP {
            let t = acc * 10 + d;
            acc = if t < EXP_CAP {
                t
            } else {
                EXP_CAP
            };
        }
        i = i + 1;
    }
    assert(v@.take(v@.len() as int) =~= v@);
    acc
}

/// At most 28 digits as a number.
fn digits_small(v: &Vec<char>) -> (r: u128)
    requires
        all_digits(v@),
        v@.len() <= 28,
    ensures
        r == digits_value(v@),
        r < 10_000_000_000_000_000_000_000_000_000,
{
    let mut acc: u128 = 0;
    let mut i: usize = 0;
    while i < v.len()
        invariant
            0 <= i <= v@.len() <= 28,
            all_digits(v@),
            acc == digits_value(v@.take(i as int)),
        decreases v.len() - i,
    {
        proof {
            assert(v@.take(i + 1).drop_last() =~= v@.take(i as int));
            assert(is_digit(v@[i as int]));
            assert(all_digits(v@.take(i as int)));
            lemma_digits_below(v@.take(i as int));
            lemma_pow10_mono(i as nat, 27);
            lemma_pow10_values();
        }
        let d = (v[i] as u32 - 48) as u128;
        acc = acc * 10 + d;
        i = i + 1;
    }
    assert(v@.take(v@.len() as int) =~= v@);
    proof {
        lemma_digits_below(v@);
        lemma_pow10_mono(v@.len(), 28);
        lemma_pow10_values();
    }
    acc
}

/// The sign, kept digits and scale of the number `v` (see
/// [`number_kept`]); the scale is exact, or past the same side of every
/// threshold the callers test (exponents are read up to [`EXP_CAP`]).
#[verifier::rlimit(40)]
fn number_kept_exec(v: &Vec<char>) -> (r: Option<(bool, u128, i128)>)
    ensures
        match (r, number_kept(v@)) {
            (Some((neg, d, k)), Some((sneg, sd, sk))) => neg == sneg && d == sd
                && d < 10_000_000_000_000_000_000_000_000_000 && -10_000_000_000_000_000_000_000 <= k
                <= 10_000_000_000_000_000_000_000 && (k == sk || (k > 100 && sk > 100) || (k < -100
                && sk < -100)),
            (None, None) => true,
            _ => false,
        },
{
    let x = first_exp_exec(v);
    let mant = slice_chars(v, 0, x);
    let (neg, ip, fp) = split_decimal(&mant);
    proof {
        assert(mant@ =~= v@.take(x as int));
    }
    if ip.len() == 0 && fp.len() == 0 {
        return None;
    }
    if !all_digits_exec(&ip) || !all_digits_exec(&fp) {
        return None;
    }
    assert(dec_parts(v@.take(x as int)) == Some((neg, ip@, fp@)));
    let ghost mut ev: int = 0;
    let ghost mut capped = false;
    let mut eneg = false;
    let mut emag: u128 = 0;
    if x < v.len() {
        let es = slice_chars(v, x + 1, v.len());
        let start: usize = if es.len() > 0 && (es[0] == '-' || es[0] == '+') {
            1
        } else {
            0
        };
        eneg = es.len() > 0 && es[0] == '-';
        let ed = slice_chars(&es, start, es.len());
        proof {
            assert(es@ =~= v@.skip(x + 1));
            if start == 1 {
                assert(ed@ =~= es@.drop_first());
            } else {
                assert(ed@ =~= es@);
            }
            assert(sign_split(es@) == (eneg, ed@));
        }
        if ed.len() == 0 || !all_digits_exec(&ed) {
            return None;
        }
        emag = digits_sat(&ed);
        proof {
            capped = digits_value(ed@) >= EXP_CAP;
            ev = if eneg {
                -(digits_value(ed@) as int)
            } else {
                digits_value(ed@) as int
            };
        }
    }
    assert(exp_value(v@, x as int) == Some(ev));
    assert(number_parts(v@) == Some((neg, ip@ + fp@, ev - fp@.len())));
    let mut ds = slice_chars(&ip, 0, ip.len());
    assert(ds@ =~= ip@);
    push_all(&mut ds, &fp);
    let z = lead_zeros_exec(&ds);
    let n_sig = ds.len() - z;
    let kept_len: usize = if n_sig > 28 {
        28
    } else {
        n_sig
    };
    let kept = slice_chars(&ds, z, z + kept_len);
    let ghost sd = ds@.skip(z as int);
    proof {
        if n_sig > 28 {
            assert(kept@ =~= sd.take(28));
        } else {
            assert(kept@ =~= sd);
        }
        assert(all_digits(ds@)) by {
            assert forall|i: int| 0 <= i < ds@.len() implies #[trigger] is_digit(ds@[i]) by {
                if i < ip@.len() {
                    assert(is_digit(ip@[i]));
                } else {
                    assert(is_digit(fp@[i - ip@.len()]));
                }
            }
        }
        assert forall|i: int| 0 <= i < kept@.len() implies #[trigger] is_digit(kept@[i]) by {
            assert(kept@[i] == ds@[z + i]);
        }
    }
    let d = digits_small(&kept);
    let dropped = (n_sig - kept_len) as i128;
    let e_part: i128 = if eneg {
        -(emag as i128)
    } else {
        emag as i128
    };
    let k: i128 = e_part + dropped - fp.len() as i128;
    let ghost kt = ev + (sd.len() - kept@.len()) - fp@.len();
    proof {
        assert(sd.len() == n_sig);
        assert(number_kept(v@) == Some((neg, digits_value(kept@), ev - fp@.len() + (sd.len() - kept@.len()))));
        if capped {
            if eneg {
                assert(k < -100 && kt <= k);
            } else {
                assert(k > 100 && kt >= k);
            }
        } else {
            assert(k == kt);
        }
    }
    Some((neg, d, k))
}

/// The number `v` times `mult / 10^shift`, rounded half away from zero
/// and saturated at plus or minus [`NUM_BOUND`] (see [`number_scaled`]).
pub fn number_scaled_exec(v: &Vec<char>, mult: u64, shift: u32) -> (r: Option<i128>)
    requires
        1 <= mult <= 10_000_000_000,
        shift <= 9,
    ensures
        r == match number_scaled(v@, mult as nat, shift as nat) {
            Some(x) => Some(clamp_num(x) as i128),
            None => None,
        },
{
    let (neg, d, k) = match number_kept_exec(v) {
        Some(t) => t,
        None => return None,
    };
    let ghost sk = match number_kept(v@) {
        Some((_, _, x)) => x,
        None => 0,
    };
    let m128: u128 = mult as u128;
    proof {
        assert((d as int) * (m128 as int) < 100_000_000_000_000_000_000_000_000_000_000_000_000)
            by (nonlinear_arith)
            requires
                d < 10_000_000_000_000_000_000_000_000_000,
                m128 <= 10_000_000_000,
        ;
    }
    let n: u128 = d * m128;
    let ks: i128 = k - shift as i128;
    let r = scale_clamp(neg, n, ks);
    proof {
        if ks != sk - shift {
            lemma_far_k(n as nat, ks as int, sk - shift, neg);
        }
    }
    Some(r)
}

/// Whether the number `v` is below `bound` (see [`number_below`]).
pub fn number_below_exec(v: &Vec<char>, bound: u64) -> (r: bool)
    requires
        1 <= bound <= 1_000_000_000,
    ensures
        r == number_below(v@, bound as nat),
{
    let (neg, d, k) = match number_kept_exec(v) {
        Some(t) => t,
        None => return false,
    };
    let ghost sk = match number_kept(v@) {
        Some((_, _, x)) => x,
        None => 0,
    };
    if neg {
        return true;
    }
    proof {
        lemma_pow10_values();
    }
    if d == 0 {
        proof {
            lemma_pow10_pos(if sk >= 0 { sk as nat } else { (-sk) as nat });
            assert(0 * pow10(if sk >= 0 { sk as nat } else { (-sk) as nat }) == 0);
            assert(bound * pow10(if sk >= 0 { sk as nat } else { (-sk) as nat }) >= 1) by (nonlinear_arith)
                requires
                    bound >= 1,
                    pow10(if sk >= 0 { sk as nat } else { (-sk) as nat }) >= 1,
            ;
        }
        return true;
    }
    if k > 20 {
        proof {
            lemma_below_large(d as nat, sk, bound as nat);
        }
        return false;
    }
    if k < -38 {
        proof {
            lemma_below_tiny(d as nat, sk, bound as nat);
        }
        return true;
    }
    if k >= 0 {
        let p = pow10_exec(k as u32);
        proof {
            lemma_pow10_mono(k as nat, 20);
            lemma_pow10_pos(k as nat);
        }
        if d >= bound as u128 {
            proof {
                assert((d as int) * (p as int) >= d) by (nonlinear_arith)
                    requires
                        p >= 1,
                        d >= 0,
                ;
            }
            return false;
        }
        proof {
            assert((d as int) * (p as int) < 1_000_000_000 * 100_000_000_000_000_000_000)
                by (nonlinear_arith)
                requires
                    d < 1_000_000_000,
                    p <= 100_000_000_000_000_000_000,
            ;
        }
        d * p < bound as u128
    } else {
        let p = pow10_u128((-k) as u32);
        proof {
            lemma_pow10_mono((-k) as nat, 38);
        }
        if (-k) > 28 {
            proof {
                lemma_pow10_mono(29, (-k) as nat);
                reveal_with_fuel(pow10, 30);
                assert((bound as int) * (p as int) >= p) by (nonlinear_arith)
                    requires
                        bound >= 1,
                        p >= 1,
                ;
            }
            return true;
        }
        proof {
            lemma_pow10_mono((-k) as nat, 28);
            assert((bound as int) * (p as int) <= 1_000_000_000 * 10_000_000_000_000_000_000_000_000_000)
                by (nonlinear_arith)
                requires
                    bound <= 1_000_000_000,
                    p <= 10_000_000_000_000_000_000_000_000_000,
            ;
        }
        d < (bound as u128) * p
    }
}

proof fn lemma_below_large(d: nat, k: int, bound: nat)
    requires
        d >= 1,
        k > 20,
        bound <= 1_000_000_000,
    ensures
        !(d * pow10(k as nat) < bound),
{
    lemma_scaled_round_large(d, k);
}

proof fn lemma_below_tiny(d: nat, k: int, bound: nat)
    requires
        d < 10_000_000_000_000_000_000_000_000_000,
        k < -38,
        bound >= 1,
    ensures
        d < bound * pow10((-k) as nat),
{
    lemma_pow10_mono(39, (-k) as nat);
    lemma_pow10_values();
    let p = pow10((-k) as nat);
    assert(bound * p >= p) by (nonlinear_arith)
        requires
            bound >= 1,
            p >= 1,
    ;
}

} // verus!
