//! AIXM 4.5 geographical coordinates.
//!
//! The SIA export writes `geoLat`/`geoLong` as degrees-minutes-seconds
//! with a hemisphere suffix: latitude `DDMMSS.ss{N|S}` (`490042.00N`),
//! longitude `DDDMMSS.ss{E|W}` (`0023259.00E`). A plain (possibly
//! signed) decimal-degree value is read too, so an unexpected decimal
//! row degrades to a best-effort reading rather than being dropped.
//! Results are milliarcseconds, north and east positive.
use crate::decimal::{
    dec_scaled, decimal_scaled, first_dot, lemma_digits_below, lemma_pow10_mono, pow10, DEC_BOUND,
};
use crate::text::{
    all_digits, concat, digits_value, is_digit, parse_digit_run, slice_chars, trim, trim_bounds,
    trimmed_chars,
};
use vstd::prelude::*;

verus! {

pub open spec fn is_hemisphere(c: char) -> bool {
    c == 'N' || c == 'S' || c == 'E' || c == 'W' || c == 'n' || c == 's' || c == 'e' || c == 'w'
}

pub open spec fn is_negative_hemisphere(c: char) -> bool {
    c == 'S' || c == 'W' || c == 's' || c == 'w'
}

/// The number part of a trimmed coordinate and whether its hemisphere
/// suffix makes it negative.
pub open spec fn coord_body(s: Seq<char>) -> (Seq<char>, bool) {
    if s.len() > 0 && is_hemisphere(s.last()) {
        (trim(s.drop_last()), is_negative_hemisphere(s.last()))
    } else {
        (s, false)
    }
}

/// The value of a coordinate's number part in milliarcseconds: DMS when
/// the part before the first `.` is exactly `deg_digits + 4` digits
/// (the seconds keep their fraction), else decimal degrees.
pub open spec fn coord_value(body: Seq<char>, deg_digits: nat) -> Option<int> {
    let d = first_dot(body, 0);
    let ip = body.take(d);
    let fp = if d < body.len() {
        body.skip(d + 1)
    } else {
        Seq::empty()
    };
    if ip.len() == deg_digits + 4 && all_digits(ip) {
        let deg = digits_value(ip.take(deg_digits as int));
        let min = digits_value(ip.subrange(deg_digits as int, deg_digits + 2int));
        let sec_text = if fp.len() == 0 {
            ip.skip(deg_digits + 2int)
        } else {
            ip.skip(deg_digits + 2int) + seq!['.'] + fp
        };
        match dec_scaled(sec_text, 1000, 0) {
            Some(sec_ms) => Some(deg * 3_600_000 + min * 60_000 + sec_ms),
            None => None,
        }
    } else {
        dec_scaled(body, 3_600_000, 0)
    }
}

/// A coordinate in milliarcseconds; `None` for an empty field or a value
/// that does not read.
pub open spec fn coord_spec(raw: Seq<char>, deg_digits: nat) -> Option<i64> {
    let s = trim(raw);
    if s.len() == 0 {
        None
    } else {
        let (body, neg) = coord_body(s);
        match coord_value(body, deg_digits) {
            Some(v) => {
                let x = if neg {
                    -v
                } else {
                    v
                };
                if i64::MIN <= x <= i64::MAX {
                    Some(x as i64)
                } else {
                    None
                }
            },
            None => None,
        }
    }
}

proof fn lemma_all_digits_sub(s: Seq<char>, a: int, b: int)
    requires
        all_digits(s),
        0 <= a <= b <= s.len(),
    ensures
        all_digits(s.subrange(a, b)),
{
    assert forall|k: int| 0 <= k < b - a implies #[trigger] is_digit(s.subrange(a, b)[k]) by {
        assert(is_digit(s[a + k]));
    }
}

fn all_digit_chars(v: &Vec<char>) -> (r: bool)
    ensures
        r == all_digits(v@),
{
    let mut i: usize = 0;
    while i < v.len()
        invariant
            0 <= i <= v@.len(),
            forall|k: int| 0 <= k < i ==> #[trigger] is_digit(v@[k]),
        decreases v.len() - i,
    {
        if !(48 <= v[i] as u32 && v[i] as u32 <= 57) {
            assert(!is_digit(v@[i as int]));
            return false;
        }
        i = i + 1;
    }
    true
}

fn coord_value_exec(body: &Vec<char>, deg_digits: usize) -> (r: Option<i128>)
    requires
        deg_digits <= 3,
    ensures
        match r {
            Some(x) => coord_value(body@, deg_digits as nat) == Some(x as int) && -DEC_BOUND * 2 <= x
                <= DEC_BOUND * 2,
            None => coord_value(body@, deg_digits as nat) is None,
        },
{
    let mut d: usize = 0;
    while d < body.len() && body[d] != '.'
        invariant
            0 <= d <= body@.len(),
            first_dot(body@, 0) == first_dot(body@, d as int),
        decreases body.len() - d,
    {
        d = d + 1;
    }
    let ip = slice_chars(body, 0, d);
    let fp = if d < body.len() {
        slice_chars(body, d + 1, body.len())
    } else {
        Vec::new()
    };
    assert(ip@ =~= body@.take(d as int));
    if d < body.len() {
        assert(fp@ =~= body@.skip(d + 1));
    } else {
        assert(fp@ =~= Seq::<char>::empty());
    }
    if ip.len() == deg_digits + 4 && all_digit_chars(&ip) {
        proof {
            lemma_all_digits_sub(ip@, 0, deg_digits as int);
            lemma_all_digits_sub(ip@, deg_digits as int, deg_digits + 2);
        }
        let dv = slice_chars(&ip, 0, deg_digits);
        let mv = slice_chars(&ip, deg_digits, deg_digits + 2);
        assert(dv@ =~= ip@.take(deg_digits as int));
        proof {
            assert(dv@.subrange(0, dv@.len() as int) =~= dv@);
            assert(mv@.subrange(0, mv@.len() as int) =~= mv@);
            assert(mv@ =~= ip@.subrange(deg_digits as int, deg_digits + 2));
            lemma_digits_below(dv@);
            lemma_digits_below(mv@);
            lemma_pow10_mono(dv@.len(), 3);
            assert(pow10(3) == 1000) by {
                reveal_with_fuel(pow10, 4);
            }
            assert(pow10(2) == 100) by {
                reveal_with_fuel(pow10, 3);
            }
            if deg_digits == 0 {
                assert(dv@ =~= Seq::<char>::empty());
            }
        }
        let deg: u64 = if deg_digits == 0 {
            0
        } else {
            match parse_digit_run(&dv, 0, 999) {
                Some(x) => x,
                None => return None,
            }
        };
        let min: u64 = match parse_digit_run(&mv, 0, 99) {
            Some(x) => x,
            None => return None,
        };
        let sv = slice_chars(&ip, deg_digits + 2, ip.len());
        assert(sv@ =~= ip@.skip(deg_digits + 2));
        let sec_text = if fp.len() == 0 {
            sv
        } else {
            let mut t = sv;
            t.push('.');
            concat(&t, &fp)
        };
        proof {
            assert(sec_text@ =~= (if fp@.len() == 0 {
                ip@.skip(deg_digits + 2)
            } else {
                ip@.skip(deg_digits + 2) + seq!['.'] + fp@
            }));
        }
        let sec = match decimal_scaled(&sec_text, 1000, 0) {
            Some(x) => x,
            None => return None,
        };
        Some((deg as i128) * 3_600_000 + (min as i128) * 60_000 + sec)
    } else {
        decimal_scaled(body, 3_600_000, 0)
    }
}

/// `deg_digits` is 2 for latitude (`DDMMSS`) and 3 for longitude
/// (`DDDMMSS`): the width of the degrees field.
pub fn parse_coord(raw: &str, deg_digits: usize) -> (r: Option<i64>)
    requires
        deg_digits <= 3,
    ensures
        r == coord_spec(raw@, deg_digits as nat),
{
    let s = trimmed_chars(raw);
    if s.len() == 0 {
        return None;
    }
    let last = s[s.len() - 1];
    let hemi = last == 'N' || last == 'S' || last == 'E' || last == 'W' || last == 'n' || last
        == 's' || last == 'e' || last == 'w';
    let neg = hemi && (last == 'S' || last == 'W' || last == 's' || last == 'w');
    let body = if hemi {
        let (lo, hi) = trim_bounds(&s, 0, s.len() - 1);
        proof {
            assert(s@.subrange(0, s@.len() - 1) =~= s@.drop_last());
        }
        slice_chars(&s, lo, hi)
    } else {
        s
    };
    let v = match coord_value_exec(&body, deg_digits) {
        Some(v) => v,
        None => return None,
    };
    let x = if neg {
        -v
    } else {
        v
    };
    if x < -0x8000_0000_0000_0000 || x > 0x7FFF_FFFF_FFFF_FFFF {
        return None;
    }
    Some(x as i64)
}

/// An AIXM `geoLat` in milliarcseconds (south negative).
pub fn parse_lat(s: &str) -> (r: Option<i64>)
    ensures
        r == coord_spec(s@, 2),
{
    parse_coord(s, 2)
}

/// An AIXM `geoLong` in milliarcseconds (west negative).
pub fn parse_lon(s: &str) -> (r: Option<i64>)
    ensures
        r == coord_spec(s@, 3),
{
    parse_coord(s, 3)
}

} // verus!
