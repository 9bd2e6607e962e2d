//! Decoders for individual ARINC 424 field encodings, used by
//! [`crate::cifp::extract`]. Every decoder trims the field first.
use crate::decimal::{dec_scaled, decimal_scaled, DEC_BOUND};
use crate::domain::{PathAndTerm, TurnDirection};
use crate::text::{
    chars_eq, lemma_trim_idempotent, parse_i32, parse_i32_spec, parse_u32, parse_u32_spec, slice_chars, string_from, trim,
    trimmed_chars,
};
use vstd::prelude::*;

verus! {

/// `x` clamped into `i64`, as a float-to-`i64` cast saturates.
pub open spec fn sat_i64(x: int) -> i64 {
    if x < i64::MIN {
        i64::MIN
    } else if x > i64::MAX {
        i64::MAX
    } else {
        x as i64
    }
}

fn sat_i64_exec(x: i128) -> (r: i64)
    ensures
        r == sat_i64(x as int),
{
    if x < -0x8000_0000_0000_0000 {
        -0x8000_0000_0000_0000
    } else if x > 0x7FFF_FFFF_FFFF_FFFF {
        0x7FFF_FFFF_FFFF_FFFF
    } else {
        x as i64
    }
}

/// The subfield `t[i..i+n]` read as a number (any form
/// `str::parse::<f64>` reads as finite) times `mult`.
pub open spec fn part_value(t: Seq<char>, i: int, n: int, mult: nat) -> Option<int> {
    dec_scaled(t.subrange(i, i + n), mult, 0)
}

/// Latitude or longitude in milliarcseconds from a hemisphere letter
/// and subfields of `deg_digits` chars of degrees, then 2 of minutes, 2
/// of seconds and 2 of hundredths of a second, each read as a number;
/// `None` for any other shape or a subfield that is not a number.
pub open spec fn dms_spec(t: Seq<char>, pos: char, neg: char, deg_digits: int) -> Option<i64> {
    if t.len() == deg_digits + 7 && (t[0] == pos || t[0] == neg) {
        match (
            part_value(t, 1, deg_digits, 3_600_000),
            part_value(t, 1 + deg_digits, 2, 60_000),
            part_value(t, 3 + deg_digits, 2, 1000),
            part_value(t, 5 + deg_digits, 2, 10),
        ) {
            (Some(d), Some(m), Some(s), Some(h)) => Some(
                sat_i64(
                    if t[0] == pos {
                        d + m + s + h
                    } else {
                        -(d + m + s + h)
                    },
                ),
            ),
            _ => None,
        }
    } else {
        None
    }
}

fn part(t: &Vec<char>, i: usize, n: usize, mult: u64) -> (r: Option<i128>)
    requires
        i + n <= t.len(),
        1 <= mult <= 10_000_000,
    ensures
        match r {
            Some(x) => part_value(t@, i as int, n as int, mult as nat) == Some(x as int) && -DEC_BOUND
                <= x <= DEC_BOUND,
            None => part_value(t@, i as int, n as int, mult as nat) is None,
        },
{
    decimal_scaled(&slice_chars(t, i, i + n), mult, 0)
}

fn dms(t: &Vec<char>, pos: char, neg: char, deg_digits: usize) -> (r: Option<i64>)
    requires
        deg_digits == 2 || deg_digits == 3,
    ensures
        r == dms_spec(t@, pos, neg, deg_digits as int),
{
    if t.len() != deg_digits + 7 || !(t[0] == pos || t[0] == neg) {
        return None;
    }
    let d = match part(t, 1, deg_digits, 3_600_000) {
        Some(x) => x,
        None => return None,
    };
    let m = match part(t, 1 + deg_digits, 2, 60_000) {
        Some(x) => x,
        None => return None,
    };
    let s = match part(t, 3 + deg_digits, 2, 1000) {
        Some(x) => x,
        None => return None,
    };
    let h = match part(t, 5 + deg_digits, 2, 10) {
        Some(x) => x,
        None => return None,
    };
    let sum = d + m + s + h;
    if t[0] == pos {
        Some(sat_i64_exec(sum))
    } else {
        Some(sat_i64_exec(-sum))
    }
}

/// ARINC 424 latitude in milliarcseconds: after trimming, `N`/`S` + 2
/// chars of degrees, 2 of minutes, 2 of seconds and 2 of hundredths of
/// a second, each a number (normally digits).
pub fn latitude(raw: &str) -> (r: Option<i64>)
    ensures
        r == dms_spec(trim(raw@), 'N', 'S', 2),
{
    let t = trimmed_chars(raw);
    dms(&t, 'N', 'S', 2)
}

/// ARINC 424 longitude in milliarcseconds: after trimming, `E`/`W` + 3
/// chars of degrees, 2 of minutes, 2 of seconds and 2 of hundredths,
/// each a number (normally digits).
pub fn longitude(raw: &str) -> (r: Option<i64>)
    ensures
        r == dms_spec(trim(raw@), 'E', 'W', 3),
{
    let t = trimmed_chars(raw);
    dms(&t, 'E', 'W', 3)
}

/// A course/bearing field in tenths of a degree with an optional
/// trailing `T` (true rather than magnetic), read as a number (any form
/// `str::parse::<f64>` reads as finite), as thousandths of a degree,
/// rounded and saturated into `i64`.
pub open spec fn tenths_spec(t: Seq<char>) -> Option<i64> {
    let body = if t.len() > 0 && t.last() == 'T' {
        t.drop_last()
    } else {
        t
    };
    if t.len() == 0 {
        None
    } else {
        match dec_scaled(body, 100, 0) {
            Some(x) => Some(sat_i64(x)),
            None => None,
        }
    }
}

/// Course/bearing fields are tenths of a degree (`"1055"` is 105.5°),
/// with an optional trailing `T`; returned in thousandths of a degree.
pub fn tenths_of_degree(raw: &str) -> (r: Option<i64>)
    ensures
        r == tenths_spec(trim(raw@)),
{
    let t = trimmed_chars(raw);
    if t.len() == 0 {
        return None;
    }
    let body = if t[t.len() - 1] == 'T' {
        slice_chars(&t, 0, t.len() - 1)
    } else {
        slice_chars(&t, 0, t.len())
    };
    proof {
        if t@.last() == 'T' {
            assert(body@ =~= t@.drop_last());
        } else {
            assert(body@ =~= t@);
        }
    }
    match decimal_scaled(&body, 100, 0) {
        Some(x) => Some(sat_i64_exec(x)),
        None => None,
    }
}

pub fn uint(raw: &str) -> (r: Option<u32>)
    ensures
        r == parse_u32_spec(trim(raw@)),
{
    let t = trimmed_chars(raw);
    parse_u32(&t)
}

pub fn signed_int(raw: &str) -> (r: Option<i32>)
    ensures
        r == parse_i32_spec(trim(raw@)),
{
    let t = trimmed_chars(raw);
    parse_i32(&t)
}

/// `non_empty` is idempotent: what it keeps is already trimmed, so
/// applying it again to its result gives that result back.
pub proof fn lemma_non_empty_idempotent(raw: Seq<char>)
    ensures
        trim(trim(raw)) == trim(raw),
{
    lemma_trim_idempotent(raw);
}

/// The trimmed field, or `None` when nothing is left.
pub fn non_empty(raw: &str) -> (r: Option<String>)
    ensures
        match r {
            None => trim(raw@).len() == 0,
            Some(s) => trim(raw@).len() > 0 && s@ == trim(raw@),
        },
{
    let t = trimmed_chars(raw);
    if t.len() == 0 {
        None
    } else {
        Some(string_from(&t))
    }
}

/// VHF navaid frequency: the field counts 10 kHz units (`"11350"` is
/// 113.50 MHz), returned in kHz.
pub fn vor_frequency_khz(raw: &str) -> (r: Option<u32>)
    ensures
        r == match parse_u32_spec(trim(raw@)) {
            Some(x) => if x * 10 <= u32::MAX {
                Some((x * 10) as u32)
            } else {
                None
            },
            None => None,
        },
{
    match uint(raw) {
        Some(x) => x.checked_mul(10),
        None => None,
    }
}

/// NDB frequency: the field counts tenths of a kHz (`"03650"` is 365.0
/// kHz), returned in whole kHz.
pub fn ndb_frequency_khz(raw: &str) -> (r: Option<u32>)
    ensures
        r == match parse_u32_spec(trim(raw@)) {
            Some(x) => Some((x / 10) as u32),
            None => None,
        },
{
    match uint(raw) {
        Some(x) => Some(x / 10),
        None => None,
    }
}

/// The leg type a trimmed Path and Termination code denotes.
pub open spec fn path_and_term_spec(t: Seq<char>) -> PathAndTerm {
    if t == "IF"@ {
        PathAndTerm::IF
    } else if t == "TF"@ {
        PathAndTerm::TF
    } else if t == "CF"@ {
        PathAndTerm::CF
    } else if t == "DF"@ {
        PathAndTerm::DF
    } else if t == "CA"@ {
        PathAndTerm::CA
    } else if t == "CD"@ {
        PathAndTerm::CD
    } else if t == "VA"@ {
        PathAndTerm::VA
    } else if t == "VI"@ {
        PathAndTerm::VI
    } else if t == "VD"@ {
        PathAndTerm::VD
    } else if t == "VM"@ {
        PathAndTerm::VM
    } else if t == "RF"@ {
        PathAndTerm::RF
    } else if t == "CI"@ {
        PathAndTerm::CI
    } else if t == "HA"@ || t == "HF"@ || t == "HM"@ {
        PathAndTerm::HoldingPattern
    } else {
        PathAndTerm::Unsupported
    }
}

/// Path and Termination: a 2-letter ARINC 424 leg type code. Codes not
/// decoded here map to `Unsupported` rather than being invented.
pub fn path_and_term(raw: &str) -> (r: PathAndTerm)
    ensures
        r == path_and_term_spec(trim(raw@)),
{
    let t = trimmed_chars(raw);
    if chars_eq(&t, "IF") {
        PathAndTerm::IF
    } else if chars_eq(&t, "TF") {
        PathAndTerm::TF
    } else if chars_eq(&t, "CF") {
        PathAndTerm::CF
    } else if chars_eq(&t, "DF") {
        PathAndTerm::DF
    } else if chars_eq(&t, "CA") {
        PathAndTerm::CA
    } else if chars_eq(&t, "CD") {
        PathAndTerm::CD
    } else if chars_eq(&t, "VA") {
        PathAndTerm::VA
    } else if chars_eq(&t, "VI") {
        PathAndTerm::VI
    } else if chars_eq(&t, "VD") {
        PathAndTerm::VD
    } else if chars_eq(&t, "VM") {
        PathAndTerm::VM
    } else if chars_eq(&t, "RF") {
        PathAndTerm::RF
    } else if chars_eq(&t, "CI") {
        PathAndTerm::CI
    } else if chars_eq(&t, "HA") || chars_eq(&t, "HF") || chars_eq(&t, "HM") {
        PathAndTerm::HoldingPattern
    } else {
        PathAndTerm::Unsupported
    }
}

pub open spec fn turn_direction_spec(t: Seq<char>) -> Option<TurnDirection> {
    if t == "L"@ {
        Some(TurnDirection::Left)
    } else if t == "R"@ {
        Some(TurnDirection::Right)
    } else if t == "E"@ {
        Some(TurnDirection::Either)
    } else {
        None
    }
}

/// The letter a turn direction is coded with.
pub open spec fn direction_letter(d: TurnDirection) -> char {
    match d {
        TurnDirection::Left => 'L',
        TurnDirection::Right => 'R',
        TurnDirection::Either => 'E',
    }
}

/// A turn direction field decodes to the direction coded by exactly that
/// letter: `L` left, `R` right, `E` either, and nothing else decodes; so
/// two different fields never give the same direction.
pub proof fn lemma_turn_direction_is_its_letter(t: Seq<char>)
    ensures
        turn_direction_spec(t) matches Some(d) ==> t == seq![direction_letter(d)],
        (t == seq!['L'] || t == seq!['R'] || t == seq!['E']) ==> turn_direction_spec(t) is Some,
{
    reveal_strlit("L");
    reveal_strlit("R");
    reveal_strlit("E");
    assert("L"@ =~= seq!['L']);
    assert("R"@ =~= seq!['R']);
    assert("E"@ =~= seq!['E']);
}

/// Turn Direction: `L`/`R`/`E`(ither); anything else (blank included)
/// means the field does not apply, `None`.
pub fn turn_direction(raw: &str) -> (r: Option<TurnDirection>)
    ensures
        r == turn_direction_spec(trim(raw@)),
{
    let t = trimmed_chars(raw);
    if chars_eq(&t, "L") {
        Some(TurnDirection::Left)
    } else if chars_eq(&t, "R") {
        Some(TurnDirection::Right)
    } else if chars_eq(&t, "E") {
        Some(TurnDirection::Either)
    } else {
        None
    }
}

} // verus!
