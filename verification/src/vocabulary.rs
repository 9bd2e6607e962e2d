//! How charts are *named and ordered* for a pilot: the one copy both
//! clients read (the web client through the generated TypeScript module
//! [`to_typescript`]).
use crate::text::{
    all_digits, concat, decimal, digits_value, format_padded, format_u64, is_ascii_digit,
    is_digit, lit_chars, parse_u32, parse_u32_spec, push_all, push_lit, slice_chars,
    starts_with_lit, string_from, to_chars, zero_padded, chars_eq, ascii_upper, digit_char,
    ascii_lower, is_ascii_text,
};
use crate::sorting::text_lt;
use vstd::prelude::*;

verus! {

/// Short label for a `chart_catalog.kind`, as a pilot reads it; an
/// unknown kind is its own label.
pub open spec fn kind_label_spec(kind: Seq<char>) -> Seq<char> {
    if kind == "Sectional"@ {
        "Sectional"@
    } else if kind == "TerminalAreaChart"@ {
        "TAC"@
    } else if kind == "VfrFlyway"@ {
        "Flyway"@
    } else if kind == "HelicopterRoute"@ {
        "Heli"@
    } else if kind == "IfrEnrouteLow"@ {
        "IFR Low"@
    } else if kind == "IfrEnrouteHigh"@ {
        "IFR High"@
    } else if kind == "WorldAeronauticalChart"@ {
        "WAC"@
    } else {
        kind
    }
}

/// Short label for a `chart_catalog.kind`. Terse on purpose; anything
/// unrecognised falls back to the raw string rather than vanishing.
pub fn chart_kind_label(kind: &str) -> (r: &str)
    ensures
        r@ == kind_label_spec(kind@),
{
    let k = to_chars(kind);
    if chars_eq(&k, "Sectional") {
        "Sectional"
    } else if chars_eq(&k, "TerminalAreaChart") {
        "TAC"
    } else if chars_eq(&k, "VfrFlyway") {
        "Flyway"
    } else if chars_eq(&k, "HelicopterRoute") {
        "Heli"
    } else if chars_eq(&k, "IfrEnrouteLow") {
        "IFR Low"
    } else if chars_eq(&k, "IfrEnrouteHigh") {
        "IFR High"
    } else if chars_eq(&k, "WorldAeronauticalChart") {
        "WAC"
    } else {
        kind
    }
}

/// Where a kind sits in a chart selector: VFR broad to terminal, then
/// IFR, then the specialty charts; unknown kinds last.
pub open spec fn kind_order_spec(kind: Seq<char>) -> u32 {
    if kind == "Sectional"@ {
        0
    } else if kind == "TerminalAreaChart"@ {
        1
    } else if kind == "VfrFlyway"@ {
        2
    } else if kind == "IfrEnrouteLow"@ {
        3
    } else if kind == "IfrEnrouteHigh"@ {
        4
    } else if kind == "HelicopterRoute"@ {
        5
    } else if kind == "WorldAeronauticalChart"@ {
        6
    } else {
        99
    }
}

pub fn chart_kind_order(kind: &str) -> (r: u32)
    ensures
        r == kind_order_spec(kind@),
{
    let k = to_chars(kind);
    if chars_eq(&k, "Sectional") {
        0
    } else if chars_eq(&k, "TerminalAreaChart") {
        1
    } else if chars_eq(&k, "VfrFlyway") {
        2
    } else if chars_eq(&k, "IfrEnrouteLow") {
        3
    } else if chars_eq(&k, "IfrEnrouteHigh") {
        4
    } else if chars_eq(&k, "HelicopterRoute") {
        5
    } else if chars_eq(&k, "WorldAeronauticalChart") {
        6
    } else {
        99
    }
}

/// The kind a fresh install draws when it has one.
pub const DEFAULT_CHART_KIND: &'static str = "Sectional";

/// Every kind the tables know, in selector order.
pub open spec fn known_kinds_spec() -> Seq<Seq<char>> {
    seq![
        "Sectional"@,
        "TerminalAreaChart"@,
        "VfrFlyway"@,
        "IfrEnrouteLow"@,
        "IfrEnrouteHigh"@,
        "HelicopterRoute"@,
        "WorldAeronauticalChart"@,
    ]
}

/// The known kinds are listed in selector order, and every other kind
/// sorts after all of them.
pub proof fn lemma_known_kinds_in_selector_order()
    ensures
        forall|i: int| 0 <= i < 7 ==> kind_order_spec(#[trigger] known_kinds_spec()[i]) == i,
        forall|k: Seq<char>|
            !known_kinds_spec().contains(k) ==> #[trigger] kind_order_spec(k) == 99,
        forall|k: Seq<char>| known_kinds_spec().contains(k) ==> #[trigger] kind_order_spec(k) < 7,
{
    reveal_strlit("Sectional");
    reveal_strlit("TerminalAreaChart");
    reveal_strlit("VfrFlyway");
    reveal_strlit("IfrEnrouteLow");
    reveal_strlit("IfrEnrouteHigh");
    reveal_strlit("HelicopterRoute");
    reveal_strlit("WorldAeronauticalChart");
    let ks = known_kinds_spec();
    assert("Sectional"@[0] == 'S');
    assert("TerminalAreaChart"@[0] == 'T');
    assert("VfrFlyway"@[0] == 'V');
    assert("IfrEnrouteLow"@[0] == 'I' && "IfrEnrouteLow"@[10] == 'L');
    assert("IfrEnrouteHigh"@[0] == 'I' && "IfrEnrouteHigh"@[10] == 'H');
    assert("HelicopterRoute"@[0] == 'H');
    assert("WorldAeronauticalChart"@[0] == 'W');
    assert(kind_order_spec(ks[0]) == 0);
    assert(kind_order_spec(ks[1]) == 1);
    assert(kind_order_spec(ks[2]) == 2);
    assert(kind_order_spec(ks[3]) == 3);
    assert(kind_order_spec(ks[4]) == 4);
    assert(kind_order_spec(ks[5]) == 5);
    assert(kind_order_spec(ks[6]) == 6);
    assert forall|k: Seq<char>| !ks.contains(k) implies #[trigger] kind_order_spec(k) == 99 by {
        if k == "Sectional"@ {
            assert(ks[0] == k);
        } else if k == "TerminalAreaChart"@ {
            assert(ks[1] == k);
        } else if k == "VfrFlyway"@ {
            assert(ks[2] == k);
        } else if k == "IfrEnrouteLow"@ {
            assert(ks[3] == k);
        } else if k == "IfrEnrouteHigh"@ {
            assert(ks[4] == k);
        } else if k == "HelicopterRoute"@ {
            assert(ks[5] == k);
        } else if k == "WorldAeronauticalChart"@ {
            assert(ks[6] == k);
        }
    }
    assert forall|k: Seq<char>| ks.contains(k) implies #[trigger] kind_order_spec(k) < 7 by {
        let i = choose|i: int| 0 <= i < ks.len() && ks[i] == k;
        assert(kind_order_spec(ks[i]) == i);
    }
}

pub fn known_kinds() -> (r: Vec<&'static str>)
    ensures
        r@.len() == 7,
        forall|i: int| 0 <= i < 7 ==> #[trigger] r@[i]@ == known_kinds_spec()[i],
{
    let mut r: Vec<&'static str> = Vec::new();
    r.push("Sectional");
    r.push("TerminalAreaChart");
    r.push("VfrFlyway");
    r.push("IfrEnrouteLow");
    r.push("IfrEnrouteHigh");
    r.push("HelicopterRoute");
    r.push("WorldAeronauticalChart");
    r
}

// ---- individual sheets --------------------------------------------------

/// A parsed IFR enroute panel: series letter, panel number, which half
/// of a split panel, and the inset place token.
pub struct IfrSheet {
    pub series: char,
    pub number: u32,
    pub half: Option<char>,
    pub inset: Option<Vec<char>>,
}

/// Number of leading decimal digits of `s`.
pub open spec fn lead_digits(s: Seq<char>) -> nat
    decreases s.len(),
{
    if s.len() > 0 && is_digit(s[0]) {
        1 + lead_digits(s.drop_first())
    } else {
        0
    }
}

proof fn lemma_lead_digits_at(s: Seq<char>, m: int)
    requires
        0 <= m <= s.len(),
        forall|k: int| 0 <= k < m ==> is_digit(s[k]),
        m < s.len() ==> !is_digit(s[m]),
    ensures
        lead_digits(s) == m,
    decreases m,
{
    if m > 0 {
        lemma_lead_digits_at(s.drop_first(), m - 1);
    }
}

/// The inset part of an IFR slug's tail: `None` for an empty tail,
/// `Some(Some(token))` for `_<token>_inset`, `Some(None)` for anything
/// else (which makes the slug not an IFR slug at all).
pub open spec fn inset_spec(tail: Seq<char>) -> Option<Option<Seq<char>>> {
    if tail.len() == 0 {
        None
    } else if tail.len() >= 7 && tail[0] == '_' && tail.skip(tail.len() - 6) == "_inset"@ {
        Some(Some(tail.subrange(1, tail.len() - 6)))
    } else {
        Some(None)
    }
}

/// The IFR sheet an `ff-etl` chart slug names: `enr_` + series `l`/`h`
/// + panel number + optional `n`/`s` half + optional `_<place>_inset`.
pub open spec fn ifr_slug_spec(slug: Seq<char>) -> Option<(char, u32, Option<char>, Option<Seq<char>>)> {
    if slug.len() >= 5 && slug.take(4) == "enr_"@ && (slug[4] == 'l' || slug[4] == 'h') {
        let rest = slug.skip(5);
        let d = lead_digits(rest) as int;
        match parse_u32_spec(rest.take(d)) {
            None => None,
            Some(number) => {
                let t = rest.skip(d);
                let half = if t.len() > 0 && (t[0] == 'n' || t[0] == 's') {
                    Some(t[0])
                } else {
                    None
                };
                let tail = if half is Some {
                    t.drop_first()
                } else {
                    t
                };
                match inset_spec(tail) {
                    None => Some((slug[4], number, half, None)),
                    Some(None) => None,
                    Some(Some(tok)) => Some((slug[4], number, half, Some(tok))),
                }
            },
        }
    } else {
        None
    }
}

pub open spec fn sheet_view(s: IfrSheet) -> (char, u32, Option<char>, Option<Seq<char>>) {
    (
        s.series,
        s.number,
        s.half,
        match s.inset {
            Some(v) => Some(v@),
            None => None,
        },
    )
}

fn parse_ifr_slug(slug: &Vec<char>) -> (r: Option<IfrSheet>)
    ensures
        match r {
            None => ifr_slug_spec(slug@) is None,
            Some(s) => ifr_slug_spec(slug@) == Some(sheet_view(s)),
        },
{
    proof {
        reveal_strlit("enr_");
        reveal_strlit("_inset");
    }
    if !(slug.len() >= 5 && starts_with_lit(slug, "enr_") && (slug[4] == 'l' || slug[4] == 'h')) {
        return None;
    }
    let series = slug[4];
    let rest = slice_chars(slug, 5, slug.len());
    assert(rest@ =~= slug@.skip(5));
    let mut d: usize = 0;
    while d < rest.len() && is_ascii_digit(rest[d])
        invariant
            0 <= d <= rest.len(),
            forall|k: int| 0 <= k < d ==> is_digit(rest@[k]),
        decreases rest.len() - d,
    {
        d = d + 1;
    }
    proof {
        lemma_lead_digits_at(rest@, d as int);
    }
    let digits = slice_chars(&rest, 0, d);
    assert(digits@ =~= rest@.take(d as int));
    let number = match parse_u32(&digits) {
        Some(n) => n,
        None => return None,
    };
    let t = slice_chars(&rest, d, rest.len());
    assert(t@ =~= rest@.skip(d as int));
    let (half, tail) = if t.len() > 0 && (t[0] == 'n' || t[0] == 's') {
        let tl = slice_chars(&t, 1, t.len());
        assert(tl@ =~= t@.drop_first());
        (Some(t[0]), tl)
    } else {
        (None, t)
    };
    if tail.len() == 0 {
        return Some(IfrSheet { series, number, half, inset: None });
    }
    let n = tail.len();
    if n >= 7 && tail[0] == '_' {
        let end = slice_chars(&tail, n - 6, n);
        assert(end@ =~= tail@.skip(n - 6));
        if chars_eq(&end, "_inset") {
            let tok = slice_chars(&tail, 1, n - 6);
            return Some(IfrSheet { series, number, half, inset: Some(tok) });
        }
    }
    None
}

/// Uppercase mapping of one char (std `char::to_uppercase`, which may
/// yield several chars, e.g. `'ß'` → `"SS"`).
pub uninterp spec fn char_uppercase(c: char) -> Seq<char>;

/// Lowercase mapping of a string (std `str::to_lowercase`).
pub uninterp spec fn str_lowercase(s: Seq<char>) -> Seq<char>;

/// Trusted: std `char::to_uppercase`, collected. Its result is a function
/// of `c` alone (Unicode case tables); an ASCII char maps to the one char
/// `char::to_ascii_uppercase` gives, as std documents for the ASCII range.
#[verifier::external_body]
fn upper_char(c: char) -> (r: Vec<char>)
    ensures
        r@ == char_uppercase(c),
        (c as u32) < 128 ==> r@ == seq![ascii_upper(c)],
{
    c.to_uppercase().collect()
}

/// Trusted: std `str::to_lowercase`. Its result is a function of `s`
/// alone (Unicode case tables); on ASCII text it is
/// `str::to_ascii_lowercase`, `A`..`Z` moved to `a`..`z` and every other
/// ASCII char kept, as std documents for the ASCII range.
#[verifier::external_body]
fn lower_str(s: &str) -> (r: String)
    ensures
        r@ == str_lowercase(s@),
        is_ascii_text(s@) ==> r@ == s@.map_values(|c: char| ascii_lower(c)),
{
    s.to_lowercase()
}

/// The place an inset token names: the FAA abbreviations the IFR series
/// uses, else the token with its first char uppercased.
pub open spec fn inset_place_spec(token: Seq<char>) -> Seq<char> {
    if token == "wilm"@ {
        "Wilmington"@
    } else if token == "bost"@ {
        "Boston"@
    } else if token.len() == 0 {
        seq![]
    } else {
        char_uppercase(token[0]) + token.drop_first()
    }
}

fn inset_place(token: &Vec<char>) -> (r: Vec<char>)
    ensures
        r@ == inset_place_spec(token@),
        ascii_inset(token@) ==> char_uppercase(token@[0]) == seq![ascii_upper(token@[0])],
{
    if chars_eq(token, "wilm") {
        lit_chars("Wilmington")
    } else if chars_eq(token, "bost") {
        lit_chars("Boston")
    } else if token.len() == 0 {
        Vec::new()
    } else {
        let first = upper_char(token[0]);
        let rest = slice_chars(token, 1, token.len());
        assert(rest@ =~= token@.drop_first());
        concat(&first, &rest)
    }
}

/// An inset token other than the named abbreviations, starting with an
/// ASCII char: its place is that char uppercased as ASCII, then the rest.
pub open spec fn ascii_inset(token: Seq<char>) -> bool {
    token != "wilm"@ && token != "bost"@ && token.len() > 0 && (token[0] as u32) < 128
}

/// The designator a pilot says for an IFR panel: `L-6 North`,
/// `L-23 inset (Wilmington)`, `H-12`.
pub open spec fn sheet_label_spec(s: (char, u32, Option<char>, Option<Seq<char>>)) -> Seq<char> {
    let base = seq![ascii_upper(s.0), '-'] + decimal(s.1 as nat);
    let with_half = if s.2 == Some('n') {
        base + " North"@
    } else if s.2 == Some('s') {
        base + " South"@
    } else {
        base
    };
    match s.3 {
        Some(tok) => with_half + " inset ("@ + inset_place_spec(tok) + ")"@,
        None => with_half,
    }
}

/// What one chart sheet is called in a list a pilot chooses from: the
/// catalogue name, except for IFR enroute panels, which are named by
/// their designator (derived from the slug, which is unique per part).
pub fn chart_sheet_label(slug: &str, catalogue_name: &str) -> (r: String)
    ensures
        r@ == match ifr_slug_spec(slug@) {
            Some(s) => sheet_label_spec(s),
            None => catalogue_name@,
        },
        match ifr_slug_spec(slug@) {
            Some((_, _, _, Some(tok))) => ascii_inset(tok) ==> char_uppercase(tok[0]) == seq![
                ascii_upper(tok[0]),
            ],
            _ => true,
        },
{
    let sv = to_chars(slug);
    let sheet = match parse_ifr_slug(&sv) {
        Some(s) => s,
        None => return string_from(&to_chars(catalogue_name)),
    };
    let up = if 97 <= (sheet.series as u32) && (sheet.series as u32) <= 122 {
        ((sheet.series as u32) - 32) as u8 as char
    } else {
        sheet.series
    };
    let mut out: Vec<char> = Vec::new();
    out.push(up);
    out.push('-');
    let num = format_u64(sheet.number as u64);
    push_all(&mut out, &num);
    assert(out@ =~= seq![ascii_upper(sheet.series), '-'] + decimal(sheet.number as nat));
    match sheet.half {
        Some('n') => push_lit(&mut out, " North"),
        Some('s') => push_lit(&mut out, " South"),
        _ => {},
    }
    match &sheet.inset {
        Some(token) => {
            push_lit(&mut out, " inset (");
            let place = inset_place(token);
            push_all(&mut out, &place);
            push_lit(&mut out, ")");
        },
        None => {},
    }
    string_from(&out)
}

/// Sort key within one kind: IFR panels by zero-padded number, then
/// half, then inset token; everything else by lowercased name.
pub open spec fn sheet_key_spec(s: (char, u32, Option<char>, Option<Seq<char>>)) -> Seq<char> {
    let base = zero_padded(s.1 as nat, 3);
    let with_half = match s.2 {
        Some(h) => base.push(h),
        None => base,
    };
    match s.3 {
        Some(tok) => with_half + tok,
        None => with_half,
    }
}

/// The sort key of a sheet: [`sheet_key_spec`] for an IFR slug, else the
/// lowercased catalogue name.
pub open spec fn sort_key_spec(slug: Seq<char>, catalogue_name: Seq<char>) -> Seq<char> {
    match ifr_slug_spec(slug) {
        Some(s) => sheet_key_spec(s),
        None => str_lowercase(catalogue_name),
    }
}

proof fn lemma_padded3(n: nat)
    requires
        n <= 999,
    ensures
        zero_padded(n, 3) =~= seq![digit_char(n / 100), digit_char((n / 10) % 10), digit_char(n % 10)],
{
    reveal_with_fuel(decimal, 3);
    if n < 10 {
        assert(decimal(n) =~= seq![digit_char(n)]);
    } else if n < 100 {
        assert(decimal(n / 10) =~= seq![digit_char(n / 10)]);
    } else {
        assert(decimal(n / 100) =~= seq![digit_char(n / 100)]);
        assert(decimal(n / 10) =~= seq![digit_char(n / 100), digit_char((n / 10) % 10)]);
    }
}

proof fn lemma_text_lt_prefix(p: Seq<char>, q: Seq<char>, x: Seq<char>, y: Seq<char>)
    requires
        p.len() == q.len(),
        text_lt(p, q),
    ensures
        text_lt(p + x, q + y),
    decreases p.len(),
{
    if p.len() > 0 {
        assert((p + x)[0] == p[0] && (q + y)[0] == q[0]);
        if p[0] == q[0] {
            assert((p + x).drop_first() =~= p.drop_first() + x);
            assert((q + y).drop_first() =~= q.drop_first() + y);
            lemma_text_lt_prefix(p.drop_first(), q.drop_first(), x, y);
        }
    }
}

proof fn lemma_digit_lt(x: nat, y: nat)
    requires
        x < y < 10,
    ensures
        (digit_char(x) as u32) < (digit_char(y) as u32),
{
}

proof fn lemma_text_lt_step(p: Seq<char>, q: Seq<char>)
    requires
        p.len() > 0,
        q.len() > 0,
    ensures
        text_lt(p, q) == if p[0] != q[0] {
            (p[0] as u32) < (q[0] as u32)
        } else {
            text_lt(p.drop_first(), q.drop_first())
        },
{
}

#[verifier::spinoff_prover]
proof fn lemma_padded_lt(a: nat, b: nat)
    requires
        a < b <= 999,
    ensures
        text_lt(zero_padded(a, 3), zero_padded(b, 3)),
{
    lemma_padded3(a);
    lemma_padded3(b);
    let (p, q) = (zero_padded(a, 3), zero_padded(b, 3));
    let (a0, a1, a2) = (a / 100, (a / 10) % 10, a % 10);
    let (b0, b1, b2) = (b / 100, (b / 10) % 10, b % 10);
    assert(a == 100 * a0 + 10 * a1 + a2);
    assert(b == 100 * b0 + 10 * b1 + b2);
    lemma_text_lt_step(p, q);
    if a0 != b0 {
        assert(a0 < b0);
        lemma_digit_lt(a0, b0);
    } else {
        let (p1, q1) = (p.drop_first(), q.drop_first());
        assert(p1 =~= seq![digit_char(a1), digit_char(a2)]);
        assert(q1 =~= seq![digit_char(b1), digit_char(b2)]);
        lemma_text_lt_step(p1, q1);
        if a1 != b1 {
            assert(a1 < b1);
            lemma_digit_lt(a1, b1);
        } else {
            let (p2, q2) = (p1.drop_first(), q1.drop_first());
            assert(p2 =~= seq![digit_char(a2)]);
            assert(q2 =~= seq![digit_char(b2)]);
            lemma_text_lt_step(p2, q2);
            assert(a2 < b2);
            lemma_digit_lt(a2, b2);
        }
    }
}

/// The panel number an IFR slug names; `None` for any other slug.
pub open spec fn panel_number(slug: Seq<char>) -> Option<u32> {
    match ifr_slug_spec(slug) {
        Some((_, number, _, _)) => Some(number),
        None => None,
    }
}

/// IFR panels sort by panel number, whatever their half or inset and
/// whatever the catalogue names: with numbers up to 999, the zero-padded
/// key of the lower panel is lower as text (`L-2` before `L-10`).
pub proof fn lemma_panels_sort_by_number(a: Seq<char>, b: Seq<char>, name_a: Seq<char>, name_b: Seq<char>)
    requires
        panel_number(a) is Some,
        panel_number(b) is Some,
        panel_number(a)->0 < panel_number(b)->0 <= 999,
    ensures
        text_lt(sort_key_spec(a, name_a), sort_key_spec(b, name_b)),
{
    let (sa, sb) = (ifr_slug_spec(a)->0, ifr_slug_spec(b)->0);
    assert(panel_number(a) == Some(sa.1) && panel_number(b) == Some(sb.1));
    lemma_padded_lt(sa.1 as nat, sb.1 as nat);
    let rest = |s: (char, u32, Option<char>, Option<Seq<char>>)| {
        let h = match s.2 {
            Some(c) => seq![c],
            None => Seq::empty(),
        };
        match s.3 {
            Some(tok) => h + tok,
            None => h,
        }
    };
    assert(sheet_key_spec(sa) =~= zero_padded(sa.1 as nat, 3) + rest(sa));
    assert(sheet_key_spec(sb) =~= zero_padded(sb.1 as nat, 3) + rest(sb));
    lemma_padded3(sa.1 as nat);
    lemma_padded3(sb.1 as nat);
    lemma_text_lt_prefix(zero_padded(sa.1 as nat, 3), zero_padded(sb.1 as nat, 3), rest(sa), rest(sb));
}

/// Sort key for sheets within one kind, so that L-2 precedes L-10 under
/// plain string comparison.
pub fn chart_sheet_sort_key(slug: &str, catalogue_name: &str) -> (r: String)
    ensures
        r@ == sort_key_spec(slug@, catalogue_name@),
        ifr_slug_spec(slug@) is None && is_ascii_text(catalogue_name@) ==> r@
            == catalogue_name@.map_values(|c: char| ascii_lower(c)),
{
    let sv = to_chars(slug);
    let sheet = match parse_ifr_slug(&sv) {
        Some(s) => s,
        None => return lower_str(catalogue_name),
    };
    let mut key = format_padded(sheet.number as u64, 3);
    match sheet.half {
        Some(h) => key.push(h),
        None => {},
    }
    match &sheet.inset {
        Some(token) => push_all(&mut key, token),
        None => {},
    }
    string_from(&key)
}

/// An `ff-etl` chart id is `<YYYY>-<MM>-<DD>-<slug>`; this is the slug,
/// or the whole id when it does not have that shape.
pub open spec fn slug_spec(id: Seq<char>) -> Seq<char> {
    if id.len() >= 11 && all_digits(id.subrange(0, 4)) && id[4] == '-' && all_digits(
        id.subrange(5, 7),
    ) && id[7] == '-' && all_digits(id.subrange(8, 10)) && id[10] == '-' {
        id.skip(11)
    } else {
        id
    }
}

fn digits_between(v: &Vec<char>, lo: usize, hi: usize) -> (r: bool)
    requires
        lo <= hi <= v.len(),
    ensures
        r == all_digits(v@.subrange(lo as int, hi as int)),
{
    let mut i = lo;
    while i < hi
        invariant
            lo <= i <= hi <= v.len(),
            forall|k: int| lo <= k < i ==> is_digit(v@[k]),
        decreases hi - i,
    {
        if !is_ascii_digit(v[i]) {
            assert(!is_digit(v@.subrange(lo as int, hi as int)[i - lo]));
            return false;
        }
        i = i + 1;
    }
    assert forall|k: int| 0 <= k < hi - lo implies #[trigger] is_digit(
        v@.subrange(lo as int, hi as int)[k],
    ) by {
        assert(v@.subrange(lo as int, hi as int)[k] == v@[lo + k]);
    }
    true
}

/// The slug part of an `ff-etl` chart id (`2026-10-01-enr_l06n` →
/// `enr_l06n`); an id not of that shape is handed back untouched.
pub fn chart_slug(chart_id: &str) -> (r: &str)
    ensures
        r@ == slug_spec(chart_id@),
{
    let v = to_chars(chart_id);
    if v.len() >= 11 && digits_between(&v, 0, 4) && v[4] == '-' && digits_between(&v, 5, 7)
        && v[7] == '-' && digits_between(&v, 8, 10) && v[10] == '-' {
        chart_id.substring_char(11, v.len())
    } else {
        chart_id
    }
}

// ---- web codegen --------------------------------------------------------

pub open spec fn ts_header() -> Seq<char> {
    "// GENERATED — do not edit.\n//\n// Source of truth: crates/ff-charts/src/vocabulary.rs\n// Regenerate:     cargo run -p ff-core --bin gen-web-vocabulary\n//\n// Chart naming and airport display thresholds live in Rust so the web\n// and Android clients cannot drift apart on them. Generated rather than\n// called through wasm because the map path loads no wasm today, and a\n// label is not worth an async init on that screen.\n\n"@
}

/// The label table's lines for `kinds`, `  Kind: "Label",` each.
pub open spec fn label_lines(kinds: Seq<Seq<char>>) -> Seq<char>
    decreases kinds.len(),
{
    if kinds.len() == 0 {
        seq![]
    } else {
        label_lines(kinds.drop_last()) + "  "@ + kinds.last() + ": \""@ + kind_label_spec(
            kinds.last(),
        ) + "\",\n"@
    }
}

/// The order table's lines for `kinds`, `  Kind: n,` each.
pub open spec fn order_lines(kinds: Seq<Seq<char>>) -> Seq<char>
    decreases kinds.len(),
{
    if kinds.len() == 0 {
        seq![]
    } else {
        order_lines(kinds.drop_last()) + "  "@ + kinds.last() + ": "@ + decimal(
            kind_order_spec(kinds.last()) as nat,
        ) + ",\n"@
    }
}

pub open spec fn typescript_spec() -> Seq<char> {
    ts_header() + "export const CHART_KIND_LABELS: Record<string, string> = {\n"@ + label_lines(
        known_kinds_spec(),
    ) + "};\n\n"@ + "export const CHART_KIND_ORDER: Record<string, number> = {\n"@ + order_lines(
        known_kinds_spec(),
    ) + "};\n\n"@ + "export const DEFAULT_CHART_KIND = \""@ + "Sectional"@ + "\";\n"@
}

/// One line of the label table: `  Kind: "Label",`.
pub open spec fn label_line(kind: Seq<char>) -> Seq<char> {
    "  "@ + kind + ": \""@ + kind_label_spec(kind) + "\",\n"@
}

/// One line of the order table: `  Kind: n,`.
pub open spec fn order_line(kind: Seq<char>) -> Seq<char> {
    "  "@ + kind + ": "@ + decimal(kind_order_spec(kind) as nat) + ",\n"@
}

/// `part` stands in `whole` at `at`.
pub open spec fn stands_at(whole: Seq<char>, part: Seq<char>, at: int) -> bool {
    0 <= at && at + part.len() <= whole.len() && whole.subrange(at, at + part.len()) == part
}

proof fn lemma_label_lines_prefix(ks: Seq<Seq<char>>, j: int)
    requires
        0 <= j <= ks.len(),
    ensures
        stands_at(label_lines(ks), label_lines(ks.take(j)), 0),
    decreases ks.len() - j,
{
    if j == ks.len() {
        assert(ks.take(j) =~= ks);
        assert(label_lines(ks).subrange(0, label_lines(ks).len() as int) =~= label_lines(ks));
    } else {
        lemma_label_lines_prefix(ks, j + 1);
        assert(ks.take(j + 1).drop_last() =~= ks.take(j));
        assert(ks.take(j + 1).last() == ks[j]);
        let (a, b) = (label_lines(ks.take(j)), label_lines(ks.take(j + 1)));
        assert(b =~= a + label_line(ks[j]));
        assert(b.subrange(0, a.len() as int) =~= a);
        lemma_stands_within(label_lines(ks), b, 0, a, 0);
    }
}

proof fn lemma_order_lines_prefix(ks: Seq<Seq<char>>, j: int)
    requires
        0 <= j <= ks.len(),
    ensures
        stands_at(order_lines(ks), order_lines(ks.take(j)), 0),
    decreases ks.len() - j,
{
    if j == ks.len() {
        assert(ks.take(j) =~= ks);
        assert(order_lines(ks).subrange(0, order_lines(ks).len() as int) =~= order_lines(ks));
    } else {
        lemma_order_lines_prefix(ks, j + 1);
        assert(ks.take(j + 1).drop_last() =~= ks.take(j));
        assert(ks.take(j + 1).last() == ks[j]);
        let (a, b) = (order_lines(ks.take(j)), order_lines(ks.take(j + 1)));
        assert(b =~= a + order_line(ks[j]));
        assert(b.subrange(0, a.len() as int) =~= a);
        lemma_stands_within(order_lines(ks), b, 0, a, 0);
    }
}

/// The `i`-th line of a table stands right after the lines before it.
proof fn lemma_line_stands(ks: Seq<Seq<char>>, i: int)
    requires
        0 <= i < ks.len(),
    ensures
        stands_at(label_lines(ks), label_line(ks[i]), label_lines(ks.take(i)).len() as int),
        stands_at(order_lines(ks), order_line(ks[i]), order_lines(ks.take(i)).len() as int),
{
    lemma_label_lines_prefix(ks, i + 1);
    lemma_order_lines_prefix(ks, i + 1);
    assert(ks.take(i + 1).drop_last() =~= ks.take(i));
    assert(ks.take(i + 1).last() == ks[i]);
    let (a, b) = (label_lines(ks.take(i)), label_lines(ks.take(i + 1)));
    assert(b =~= a + label_line(ks[i]));
    assert(b.subrange(a.len() as int, (a.len() + label_line(ks[i]).len()) as int) =~= label_line(ks[i]));
    lemma_stands_within(label_lines(ks), b, 0, label_line(ks[i]), a.len() as int);
    let (c, d) = (order_lines(ks.take(i)), order_lines(ks.take(i + 1)));
    assert(d =~= c + order_line(ks[i]));
    assert(d.subrange(c.len() as int, (c.len() + order_line(ks[i]).len()) as int) =~= order_line(ks[i]));
    lemma_stands_within(order_lines(ks), d, 0, order_line(ks[i]), c.len() as int);
}

proof fn lemma_stands_within(outer: Seq<char>, mid: Seq<char>, at: int, part: Seq<char>, pos: int)
    requires
        stands_at(outer, mid, at),
        stands_at(mid, part, pos),
    ensures
        stands_at(outer, part, at + pos),
{
    assert(outer.subrange(at + pos, at + pos + part.len()) =~= mid.subrange(pos, pos + part.len()));
}

/// The generated module opens with the generated-file header, names every
/// known kind with its label in the label table and its rank in the order
/// table, and closes by naming the default kind.
pub proof fn lemma_typescript_lists_every_kind(i: int)
    requires
        0 <= i < known_kinds_spec().len(),
    ensures
        stands_at(typescript_spec(), ts_header(), 0),
        stands_at(
            typescript_spec(),
            "export const DEFAULT_CHART_KIND = \""@ + "Sectional"@ + "\";\n"@,
            typescript_spec().len() - ("export const DEFAULT_CHART_KIND = \""@ + "Sectional"@ + "\";\n"@).len(),
        ),
        exists|at: int| stands_at(typescript_spec(), label_line(known_kinds_spec()[i]), at),
        exists|at: int| stands_at(typescript_spec(), order_line(known_kinds_spec()[i]), at),
{
    let ks = known_kinds_spec();
    let h1 = ts_header() + "export const CHART_KIND_LABELS: Record<string, string> = {\n"@;
    let ll = label_lines(ks);
    let mid = "};\n\n"@ + "export const CHART_KIND_ORDER: Record<string, number> = {\n"@;
    let ol = order_lines(ks);
    let foot = "};\n\n"@ + "export const DEFAULT_CHART_KIND = \""@ + "Sectional"@ + "\";\n"@;
    let last = "export const DEFAULT_CHART_KIND = \""@ + "Sectional"@ + "\";\n"@;
    let t = typescript_spec();
    assert(t =~= h1 + ll + mid + ol + foot);
    assert(t.subrange(0, ts_header().len() as int) =~= ts_header());
    assert(t.subrange(t.len() - last.len(), t.len() as int) =~= last);
    lemma_line_stands(ks, i);
    let p1 = h1.len() as int;
    assert(t.subrange(p1, p1 + ll.len()) =~= ll);
    lemma_stands_within(t, ll, p1, label_line(ks[i]), label_lines(ks.take(i)).len() as int);
    let p2 = (h1 + ll + mid).len() as int;
    assert(t.subrange(p2, p2 + ol.len()) =~= ol);
    lemma_stands_within(t, ol, p2, order_line(ks[i]), order_lines(ks.take(i)).len() as int);
}

/// The TypeScript module the web client reads, generated from the tables
/// above. The labels are plain ASCII, so they are quoted verbatim.
pub fn to_typescript() -> (r: String)
    ensures
        r@ == typescript_spec(),
{
    let kinds = known_kinds();
    let mut out: Vec<char> = Vec::new();
    push_lit(
        &mut out,
        "// GENERATED — do not edit.\n//\n// Source of truth: crates/ff-charts/src/vocabulary.rs\n// Regenerate:     cargo run -p ff-core --bin gen-web-vocabulary\n//\n// Chart naming and airport display thresholds live in Rust so the web\n// and Android clients cannot drift apart on them. Generated rather than\n// called through wasm because the map path loads no wasm today, and a\n// label is not worth an async init on that screen.\n\n",
    );
    push_lit(&mut out, "export const CHART_KIND_LABELS: Record<string, string> = {\n");
    let ghost start = out@;
    let mut i: usize = 0;
    while i < kinds.len()
        invariant
            kinds@.len() == 7,
            forall|k: int| 0 <= k < 7 ==> #[trigger] kinds@[k]@ == known_kinds_spec()[k],
            0 <= i <= 7,
            out@ == start + label_lines(known_kinds_spec().take(i as int)),
        decreases 7 - i,
    {
        let kind = kinds[i];
        let ghost before = out@;
        push_lit(&mut out, "  ");
        push_lit(&mut out, kind);
        push_lit(&mut out, ": \"");
        push_lit(&mut out, chart_kind_label(kind));
        push_lit(&mut out, "\",\n");
        proof {
            let ks = known_kinds_spec().take(i + 1);
            assert(ks.drop_last() =~= known_kinds_spec().take(i as int));
            assert(ks.last() == kind@);
        }
        i = i + 1;
    }
    assert(known_kinds_spec().take(7) =~= known_kinds_spec());
    push_lit(&mut out, "};\n\n");
    push_lit(&mut out, "export const CHART_KIND_ORDER: Record<string, number> = {\n");
    let ghost start2 = out@;
    i = 0;
    while i < kinds.len()
        invariant
            kinds@.len() == 7,
            forall|k: int| 0 <= k < 7 ==> #[trigger] kinds@[k]@ == known_kinds_spec()[k],
            0 <= i <= 7,
            out@ == start2 + order_lines(known_kinds_spec().take(i as int)),
        decreases 7 - i,
    {
        let kind = kinds[i];
        push_lit(&mut out, "  ");
        push_lit(&mut out, kind);
        push_lit(&mut out, ": ");
        let n = format_u64(chart_kind_order(kind) as u64);
        push_all(&mut out, &n);
        push_lit(&mut out, ",\n");
        proof {
            let ks = known_kinds_spec().take(i + 1);
            assert(ks.drop_last() =~= known_kinds_spec().take(i as int));
            assert(ks.last() == kind@);
        }
        i = i + 1;
    }
    push_lit(&mut out, "};\n\n");
    push_lit(&mut out, "export const DEFAULT_CHART_KIND = \"");
    push_lit(&mut out, DEFAULT_CHART_KIND);
    push_lit(&mut out, "\";\n");
    proof {
        assert(out@ =~= typescript_spec());
    }
    string_from(&out)
}

} // verus!
