//! Pairing single-ended CIFP runway records into runways.
use crate::cifp::extract::CifpRunwayEnd;
use crate::domain::{Runway, RunwayEnd, RunwaySurface};
use crate::text::{all_digits, digits_value, is_ascii_digit, is_digit, parse_u32_spec, push_lit, string_from, to_chars, concat};
use vstd::prelude::*;

verus! {

/// Number of leading decimal digits of `s`.
pub open spec fn digit_prefix_len(s: Seq<char>) -> nat
    decreases s.len(),
{
    if s.len() > 0 && is_digit(s[0]) {
        1 + digit_prefix_len(s.drop_first())
    } else {
        0
    }
}

proof fn lemma_digit_prefix_at(s: Seq<char>, m: int)
    requires
        0 <= m <= s.len(),
        forall|k: int| #![auto] 0 <= k < m ==> is_digit(s[k]),
        m < s.len() ==> !is_digit(s[m]),
    ensures
        digit_prefix_len(s) == m,
    decreases m,
{
    if m > 0 {
        lemma_digit_prefix_at(s.drop_first(), m - 1);
    }
}

/// A runway identifier's leading number and the char after it: `"28L"`
/// is `(28, Some('L'))`, `"01"` is `(1, None)`; `None` when it does not
/// start with a number that fits in `u32`.
pub open spec fn number_suffix_spec(s: Seq<char>) -> Option<(u32, Option<char>)> {
    let d = digit_prefix_len(s) as int;
    match parse_u32_spec(s.take(d)) {
        Some(n) => Some((n, if d < s.len() { Some(s[d]) } else { None })),
        None => None,
    }
}

/// The reciprocal end: the number 18 apart (a runway's two ends differ
/// by 180°), L and R swapped, any other suffix kept.
pub open spec fn reciprocal_spec(ns: (u32, Option<char>)) -> (u32, Option<char>) {
    (
        if ns.0 > 18 {
            (ns.0 - 18) as u32
        } else {
            (ns.0 + 18) as u32
        },
        if ns.1 == Some('L') {
            Some('R')
        } else if ns.1 == Some('R') {
            Some('L')
        } else {
            ns.1
        },
    )
}

/// A runway's two ends are 180° apart: for a runway number 1 to 36 the
/// reciprocal number is the one 18 away that is again 1 to 36 (18 gives
/// 36, 36 gives 18), never the number itself; `L` and `R` swap, any other
/// suffix stays; and taking the reciprocal twice gives the end back.
pub proof fn lemma_reciprocal_is_opposite_end(n: u32, s: Option<char>)
    requires
        1 <= n <= 36,
    ensures
        1 <= reciprocal_spec((n, s)).0 <= 36,
        reciprocal_spec((n, s)).0 != n,
        reciprocal_spec((n, s)).0 == n + 18 || reciprocal_spec((n, s)).0 + 18 == n,
        s == Some('L') ==> reciprocal_spec((n, s)).1 == Some('R'),
        s == Some('R') ==> reciprocal_spec((n, s)).1 == Some('L'),
        s != Some('L') && s != Some('R') ==> reciprocal_spec((n, s)).1 == s,
        reciprocal_spec(reciprocal_spec((n, s))) == (n, s),
{
}

fn parse_runway_number_suffix(ident: &str) -> (r: Option<(u32, Option<char>)>)
    ensures
        r == number_suffix_spec(ident@),
{
    let v = to_chars(ident);
    let mut d: usize = 0;
    while d < v.len() && is_ascii_digit(v[d])
        invariant
            0 <= d <= v.len(),
            forall|k: int| #![auto] 0 <= k < d ==> is_digit(v@[k]),
        decreases v.len() - d,
    {
        d = d + 1;
    }
    proof {
        lemma_digit_prefix_at(v@, d as int);
    }
    let digits = crate::text::slice_chars(&v, 0, d);
    assert(digits@ =~= v@.take(d as int));
    match crate::text::parse_u32(&digits) {
        Some(n) => Some((n, if d < v.len() { Some(v[d]) } else { None })),
        None => None,
    }
}

fn reciprocal_number_suffix(number: u32, suffix: Option<char>) -> (r: (u32, Option<char>))
    ensures
        r == reciprocal_spec((number, suffix)),
{
    let recip_number = if number > 18 {
        number - 18
    } else {
        number + 18
    };
    let recip_suffix = match suffix {
        Some('L') => Some('R'),
        Some('R') => Some('L'),
        other => other,
    };
    (recip_number, recip_suffix)
}

fn same_num(x: Option<(u32, Option<char>)>, rn: u32, rs: Option<char>) -> (r: bool)
    ensures
        r == (x == Some((rn, rs))),
{
    match x {
        Some((a, b)) => a == rn && match (b, rs) {
            (Some(c), Some(d)) => c == d,
            (None, None) => true,
            _ => false,
        },
        None => false,
    }
}

pub open spec fn num_of(e: CifpRunwayEnd) -> Option<(u32, Option<char>)> {
    number_suffix_spec(e.ident@)
}

/// End `b` (after `a`) is the reciprocal of end `a` at the same airport.
pub open spec fn partners(e: Seq<CifpRunwayEnd>, a: int, b: int) -> bool {
    &&& a < b
    &&& e[b].airport_icao@ == e[a].airport_icao@
    &&& num_of(e[a]) is Some
    &&& num_of(e[b]) == Some(reciprocal_spec(num_of(e[a])->0))
}

/// Some pair among the first `upto` takes index `x` as its partner.
pub open spec fn taken_as_partner(p: Seq<(usize, usize)>, upto: int, x: int) -> bool {
    exists|k: int| #![trigger p[k]] 0 <= k < upto && p[k].0 < p[k].1 && p[k].1 == x
}

pub open spec fn used_in(p: Seq<(usize, usize)>, x: int) -> bool {
    exists|k: int| #![trigger p[k]] 0 <= k < p.len() && (p[k].0 == x || p[k].1 == x)
}

/// How the ends are grouped: pairs `(a, b)` in order of `a`, where
/// `a == b` is an end left on its own; each end with a runway number is
/// in exactly one pair and the others in none; `b` is the first later
/// end that is `a`'s reciprocal and not already taken, and an end stays
/// on its own only when every later reciprocal was already taken.
pub open spec fn valid_pairing(e: Seq<CifpRunwayEnd>, p: Seq<(usize, usize)>) -> bool {
    &&& forall|k: int| #![trigger p[k]] 0 <= k < p.len() ==> p[k].0 <= p[k].1 < e.len()
    &&& forall|k1: int, k2: int| #![trigger p[k1], p[k2]] 0 <= k1 < k2 < p.len() ==> p[k1].0 < p[k2].0
    &&& forall|k: int| #![trigger p[k]]
        0 <= k < p.len() ==> num_of(e[p[k].0 as int]) is Some && (p[k].0 == p[k].1 || partners(
            e,
            p[k].0 as int,
            p[k].1 as int,
        ))
    &&& forall|k1: int, k2: int| #![trigger p[k1], p[k2]]
        0 <= k1 < p.len() && 0 <= k2 < p.len() && k1 != k2 ==> p[k1].1 != p[k2].1 && p[k1].0
            != p[k2].1
    &&& forall|x: int| #![auto] 0 <= x < e.len() ==> (used_in(p, x) <==> num_of(e[x]) is Some)
    &&& forall|k: int, y: int| #![trigger p[k], partners(e, p[k].0 as int, y)]
        0 <= k < p.len() && p[k].0 < y && (p[k].0 == p[k].1 ==> y < e.len()) && (p[k].0 < p[k].1
            ==> y < p[k].1) && partners(e, p[k].0 as int, y) ==> taken_as_partner(p, k, y)
}

/// Greedy reciprocal matching of runway ends (see [`valid_pairing`]).
fn pair_indices(ends: &[CifpRunwayEnd]) -> (p: Vec<(usize, usize)>)
    ensures
        valid_pairing(ends@, p@),
{
    let n = ends.len();
    let mut nums: Vec<Option<(u32, Option<char>)>> = Vec::new();
    let mut q: usize = 0;
    while q < n
        invariant
            n == ends@.len(),
            0 <= q <= n,
            nums@.len() == q,
            forall|x: int| #![auto] 0 <= x < q ==> nums@[x] == num_of(ends@[x]),
        decreases n - q,
    {
        nums.push(parse_runway_number_suffix(ends[q].ident.as_str()));
        q = q + 1;
    }
    let mut used: Vec<bool> = Vec::new();
    q = 0;
    while q < n
        invariant
            0 <= q <= n,
            used@.len() == q,
            forall|x: int| #![auto] 0 <= x < q ==> !used@[x],
        decreases n - q,
    {
        used.push(false);
        q = q + 1;
    }
    let mut pairs: Vec<(usize, usize)> = Vec::new();
    let ghost e = ends@;
    let mut i: usize = 0;
    while i < n
        invariant
            e == ends@,
            n == e.len(),
            nums@.len() == n,
            forall|x: int| #![auto] 0 <= x < n ==> nums@[x] == num_of(e[x]),
            used@.len() == n,
            0 <= i <= n,
            forall|x: int| #![auto] 0 <= x < i ==> used@[x],
            forall|x: int| #![auto] i <= x < n ==> (used@[x] <==> taken_as_partner(pairs@, pairs@.len() as int, x)),
            forall|k: int| #![trigger pairs@[k]] 0 <= k < pairs@.len() ==> pairs@[k].0 < i,
            forall|k: int| #![trigger pairs@[k]] 0 <= k < pairs@.len() ==> pairs@[k].0 <= pairs@[k].1 < n,
            forall|k1: int, k2: int| #![trigger pairs@[k1], pairs@[k2]] 0 <= k1 < k2 < pairs@.len() ==> pairs@[k1].0 < pairs@[k2].0,
            forall|k: int| #![trigger pairs@[k]]
                0 <= k < pairs@.len() ==> num_of(e[pairs@[k].0 as int]) is Some && (pairs@[k].0
                    == pairs@[k].1 || partners(e, pairs@[k].0 as int, pairs@[k].1 as int)),
            forall|k1: int, k2: int| #![trigger pairs@[k1], pairs@[k2]]
                0 <= k1 < pairs@.len() && 0 <= k2 < pairs@.len() && k1 != k2 ==> pairs@[k1].1
                    != pairs@[k2].1 && pairs@[k1].0 != pairs@[k2].1,
            forall|x: int| #![auto] 0 <= x < i ==> (used_in(pairs@, x) <==> num_of(e[x]) is Some),
            forall|x: int| #![auto] i <= x < n ==> (used_in(pairs@, x) <==> taken_as_partner(pairs@, pairs@.len() as int, x)),
            forall|k: int, y: int| #![trigger pairs@[k], partners(e, pairs@[k].0 as int, y)]
                0 <= k < pairs@.len() && pairs@[k].0 < y && (pairs@[k].0 == pairs@[k].1 ==> y < n)
                    && (pairs@[k].0 < pairs@[k].1 ==> y < pairs@[k].1) && partners(
                    e,
                    pairs@[k].0 as int,
                    y,
                ) ==> taken_as_partner(pairs@, k, y),
        decreases n - i,
    {
        if used[i] {
            i = i + 1;
            proof {
                // i - 1 was a partner, so it is used and has a number
                let x = (i - 1) as int;
                let k = choose|k: int| #![trigger pairs@[k]] 0 <= k < pairs@.len() && pairs@[k].0 < pairs@[k].1 && pairs@[k].1 == x;
                assert(used_in(pairs@, x));
                assert(partners(e, pairs@[k].0 as int, x));
            }
            continue;
        }
        let ni = nums[i];
        match ni {
            None => {
                used.set(i, true);
                i = i + 1;
                proof {
                    let x = (i - 1) as int;
                    assert(!taken_as_partner(pairs@, pairs@.len() as int, x));
                    assert(!used_in(pairs@, x));
                }
                continue;
            },
            Some((number, suffix)) => {
                let (rn, rs) = reciprocal_number_suffix(number, suffix);
                let mut j: usize = i + 1;
                let mut found: Option<usize> = None;
                while j < n && found.is_none()
                    invariant
                        e == ends@,
                        n == e.len(),
                        nums@.len() == n,
                        used@.len() == n,
                        forall|x: int| #![auto] 0 <= x < n ==> nums@[x] == num_of(e[x]),
                        i < j <= n,
                        num_of(e[i as int]) == Some((number, suffix)),
                        (rn, rs) == reciprocal_spec((number, suffix)),
                        found is None ==> forall|y: int| #![auto] i < y < j ==> !(partners(e, i as int, y) && !used@[y]),
                        found matches Some(f) ==> i < f < n && partners(e, i as int, f as int) && !used@[f as int]
                            && forall|y: int| #![auto] i < y < f ==> !(partners(e, i as int, y) && !used@[y]),
                    decreases n - j,
                {
                    if !used[j] && ends[j].airport_icao == ends[i].airport_icao && same_num(nums[j], rn, rs) {
                        found = Some(j);
                    }
                    j = j + 1;
                }
                let ghost before = pairs@;
                used.set(i, true);
                match found {
                    Some(f) => {
                        used.set(f, true);
                        pairs.push((i, f));
                    },
                    None => {
                        pairs.push((i, i));
                    },
                }
                i = i + 1;
                proof {
                    let k_new = before.len() as int;
                    assert(pairs@.drop_last() =~= before);
                    assert forall|x: int| #![auto] 0 <= x < i implies (used_in(pairs@, x) <==> num_of(e[x]) is Some) by {
                        if x < i - 1 {
                            if used_in(before, x) {
                                let k = choose|k: int| #![trigger before[k]] 0 <= k < before.len() && (before[k].0 == x || before[k].1 == x);
                                assert(pairs@[k] == before[k]);
                            }
                            if used_in(pairs@, x) {
                                let k = choose|k: int| #![trigger pairs@[k]] 0 <= k < pairs@.len() && (pairs@[k].0 == x || pairs@[k].1 == x);
                                if k < k_new {
                                    assert(before[k] == pairs@[k]);
                                }
                            }
                        } else {
                            assert(pairs@[k_new].0 == x);
                        }
                    }
                    assert forall|x: int| #![auto] i <= x < n implies (used_in(pairs@, x) <==> taken_as_partner(pairs@, pairs@.len() as int, x)) by {
                        if used_in(pairs@, x) {
                            let k = choose|k: int| #![trigger pairs@[k]] 0 <= k < pairs@.len() && (pairs@[k].0 == x || pairs@[k].1 == x);
                            assert(pairs@[k].0 < i);
                            if k < k_new {
                                assert(pairs@[k] == before[k]);
                            }
                        }
                    }
                    assert forall|x: int| #![auto] i <= x < n implies (used@[x] <==> taken_as_partner(pairs@, pairs@.len() as int, x)) by {
                        if taken_as_partner(pairs@, pairs@.len() as int, x) {
                            let k = choose|k: int| #![trigger pairs@[k]] 0 <= k < pairs@.len() && pairs@[k].0 < pairs@[k].1 && pairs@[k].1 == x;
                            if k < k_new {
                                assert(pairs@[k] == before[k]);
                                assert(taken_as_partner(before, before.len() as int, x));
                            }
                        }
                        if used@[x] {
                            if found == Some(x as usize) {
                                assert(pairs@[k_new].1 == x);
                            } else {
                                let k = choose|k: int| #![trigger before[k]] 0 <= k < before.len() && before[k].0 < before[k].1 && before[k].1 == x;
                                assert(pairs@[k] == before[k]);
                            }
                        }
                    }
                    assert forall|k1: int, k2: int| #![trigger pairs@[k1], pairs@[k2]]
                        0 <= k1 < pairs@.len() && 0 <= k2 < pairs@.len() && k1 != k2 implies pairs@[k1].1
                            != pairs@[k2].1 && pairs@[k1].0 != pairs@[k2].1 by {
                        if k1 == k_new && k2 < k_new {
                            assert(pairs@[k2] == before[k2]);
                            if found is Some {
                                assert(!used@[pairs@[k1].1 as int] || true);
                            }
                        } else if k2 == k_new && k1 < k_new {
                            assert(pairs@[k1] == before[k1]);
                        } else if k1 < k_new && k2 < k_new {
                            assert(pairs@[k1] == before[k1]);
                            assert(pairs@[k2] == before[k2]);
                        }
                    }
                    assert forall|k: int, y: int| #![trigger pairs@[k], partners(e, pairs@[k].0 as int, y)]
                        0 <= k < pairs@.len() && pairs@[k].0 < y && (pairs@[k].0 == pairs@[k].1 ==> y < n)
                            && (pairs@[k].0 < pairs@[k].1 ==> y < pairs@[k].1) && partners(
                            e,
                            pairs@[k].0 as int,
                            y,
                        ) implies taken_as_partner(pairs@, k, y) by {
                        if k < k_new {
                            assert(pairs@[k] == before[k]);
                            assert(taken_as_partner(before, k, y));
                            let k2 = choose|k2: int| #![trigger before[k2]] 0 <= k2 < k && before[k2].0 < before[k2].1 && before[k2].1 == y;
                            assert(pairs@[k2] == before[k2]);
                        } else {
                            // y was used when i was processed: a partner of an earlier pair
                            assert(used@[y] || true);
                            assert(taken_as_partner(before, before.len() as int, y));
                            let k2 = choose|k2: int| #![trigger before[k2]] 0 <= k2 < before.len() && before[k2].0 < before[k2].1 && before[k2].1 == y;
                            assert(pairs@[k2] == before[k2]);
                        }
                    }
                }
            },
        }
    }
    pairs
}


pub open spec fn max_u32(a: u32, b: u32) -> u32 {
    if a >= b {
        a
    } else {
        b
    }
}

pub open spec fn end_from(x: RunwayEnd, e: CifpRunwayEnd) -> bool {
    &&& x.ident@ == e.ident@
    &&& x.lat == e.lat
    &&& x.lon == e.lon
    &&& x.heading_mdeg == match e.magnetic_bearing_mdeg {
        Some(b) => b,
        None => 0,
    }
}

/// The runway a low end and a high end make: `"low/high"`, the longer
/// length and the wider width of the two records, surface unknown (the
/// CIFP does not code it).
pub open spec fn runway_from(r: Runway, lo: CifpRunwayEnd, hi: CifpRunwayEnd) -> bool {
    &&& r.airport_icao@ == lo.airport_icao@
    &&& r.ident@ == lo.ident@ + "/"@ + hi.ident@
    &&& r.length_ft == max_u32(lo.length_ft, hi.length_ft)
    &&& r.width_ft == max_u32(lo.width_ft, hi.width_ft)
    &&& r.surface == RunwaySurface::Other
    &&& end_from(r.low_end, lo)
    &&& end_from(r.high_end, hi)
}

/// Of a pair, which end is low: the one with the smaller runway number.
pub open spec fn low_high(e: Seq<CifpRunwayEnd>, a: int, b: int) -> (int, int) {
    if a != b && (num_of(e[a])->0).0 > reciprocal_spec(num_of(e[a])->0).0 {
        (b, a)
    } else {
        (a, b)
    }
}

fn make_end(e: &CifpRunwayEnd) -> (x: RunwayEnd)
    ensures
        end_from(x, *e),
{
    RunwayEnd {
        ident: e.ident.clone(),
        lat: e.lat,
        lon: e.lon,
        heading_mdeg: match e.magnetic_bearing_mdeg {
            Some(b) => b,
            None => 0,
        },
    }
}

/// Pairs single-ended CIFP runway records into runways by matching each
/// end's number (`"28L"`) to its reciprocal (`"10R"`) at the same
/// airport. An end with no reciprocal left still makes a runway, with
/// both ends set to that one record; an end whose identifier does not
/// start with a number makes none.
pub fn pair_runway_ends(ends: &[CifpRunwayEnd]) -> (r: Vec<Runway>)
    ensures
        exists|p: Seq<(usize, usize)>|
            {
                &&& valid_pairing(ends@, p)
                &&& r@.len() == p.len()
                &&& forall|k: int|
                    #![trigger r@[k]]
                    0 <= k < p.len() ==> runway_from(
                        r@[k],
                        ends@[low_high(ends@, p[k].0 as int, p[k].1 as int).0],
                        ends@[low_high(ends@, p[k].0 as int, p[k].1 as int).1],
                    )
            },
{
    let pairs = pair_indices(ends);
    let mut runways: Vec<Runway> = Vec::new();
    let mut k: usize = 0;
    while k < pairs.len()
        invariant
            valid_pairing(ends@, pairs@),
            0 <= k <= pairs.len(),
            runways@.len() == k,
            forall|m: int|
                #![trigger runways@[m]]
                0 <= m < k ==> runway_from(
                    runways@[m],
                    ends@[low_high(ends@, pairs@[m].0 as int, pairs@[m].1 as int).0],
                    ends@[low_high(ends@, pairs@[m].0 as int, pairs@[m].1 as int).1],
                ),
        decreases pairs.len() - k,
    {
        let (a, b) = pairs[k];
        assert(a <= b < ends.len());
        let (lo, hi) = if a != b {
            let (number, suffix) = match parse_runway_number_suffix(ends[a].ident.as_str()) {
                Some(ns) => ns,
                None => (0, None),
            };
            let (rn, _) = reciprocal_number_suffix(number, suffix);
            if number <= rn {
                (a, b)
            } else {
                (b, a)
            }
        } else {
            (a, a)
        };
        let low = &ends[lo];
        let high = &ends[hi];
        let mut ident = to_chars(low.ident.as_str());
        push_lit(&mut ident, "/");
        let hi_chars = to_chars(high.ident.as_str());
        crate::text::push_all(&mut ident, &hi_chars);
        let rw = Runway {
            airport_icao: low.airport_icao.clone(),
            ident: string_from(&ident),
            length_ft: if low.length_ft >= high.length_ft {
                low.length_ft
            } else {
                high.length_ft
            },
            width_ft: if low.width_ft >= high.width_ft {
                low.width_ft
            } else {
                high.width_ft
            },
            surface: RunwaySurface::Other,
            low_end: make_end(low),
            high_end: make_end(high),
        };
        runways.push(rw);
        k = k + 1;
    }
    runways
}

/// Two ends at one airport whose runway numbers are 18 apart (within 1
/// to 36) and whose `L`/`R` suffixes are swapped make one runway: the only
/// pairing of them is the pair itself, so neither is left on its own.
/// (Ends 18 and 36 pair into runway 18/36.)
pub proof fn lemma_opposite_ends_pair(
    e: Seq<CifpRunwayEnd>,
    p: Seq<(usize, usize)>,
    n: u32,
    s: Option<char>,
    m: u32,
    t: Option<char>,
)
    requires
        e.len() == 2,
        e[0].airport_icao@ == e[1].airport_icao@,
        num_of(e[0]) == Some((n, s)),
        num_of(e[1]) == Some((m, t)),
        1 <= n <= 36,
        m == n + 18 || m + 18 == n,
        1 <= m <= 36,
        t == (if s == Some('L') {
            Some('R')
        } else if s == Some('R') {
            Some('L')
        } else {
            s
        }),
        valid_pairing(e, p),
    ensures
        p =~= seq![(0usize, 1usize)],
{
    lemma_reciprocal_is_opposite_end(n, s);
    assert(partners(e, 0, 1));
    assert(used_in(p, 0));
    assert(used_in(p, 1));
    assert(p.len() >= 1);
    if p.len() >= 2 {
        assert(p[0].0 < p[1].0);
        if p.len() >= 3 {
            assert(p[1].0 < p[2].0);
            assert(false);
        }
        assert(p[0].0 == 0 && p[1].0 == 1 && p[1].1 == 1);
        if p[0].1 == 1 {
            assert(p[0].1 == p[1].1);
        } else {
            assert(p[0].0 == p[0].1);
            assert(partners(e, p[0].0 as int, 1));
            assert(taken_as_partner(p, 0, 1));
        }
        assert(false);
    }
    let k0 = choose|k: int| #![trigger p[k]] 0 <= k < p.len() && (p[k].0 == 0 || p[k].1 == 0);
    let k1 = choose|k: int| #![trigger p[k]] 0 <= k < p.len() && (p[k].0 == 1 || p[k].1 == 1);
    assert(k0 == 0 && k1 == 0);
    assert(p[0] == (0usize, 1usize));
}

} // verus!
