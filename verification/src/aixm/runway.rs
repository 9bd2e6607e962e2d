//! Runways from AIXM 4.5 `Rwy` (physical runway) and `Rdn` (runway
//! direction) features.
use crate::aixm::airspace::{sat_u32, FEET_PER_METRE_E9};
use crate::aixm::convert::{field_coord, FieldsView};
use crate::aixm::coord::{parse_lat, parse_lon};
use crate::aixm::fields::{fields_view, get, get_spec, Fields};
use crate::decimal::{dec_scaled, decimal_scaled, DEC_BOUND};
use crate::domain::{Runway, RunwayEnd, RunwaySurface};
use crate::nasr::{first_part, second_part};
use crate::text::{
    ascii_upper, ascii_uppercase, opt_view, slice_chars, starts_with_lit, str_eq, string_from,
    to_chars, trim, trim_bounds, vec_eq,
};
use vstd::prelude::*;

verus! {

pub open spec fn has_prefix(s: Seq<char>, p: Seq<char>) -> bool {
    p.len() <= s.len() && s.subrange(0, p.len() as int) == p
}

/// `codeComposition` → surface. Compound codes (`CONC+ASPH`) take their
/// first-listed material; `MACADAM` and unknown codes are `Other`.
pub open spec fn surface_spec(code: Option<Seq<char>>) -> RunwaySurface {
    match code {
        None => RunwaySurface::Other,
        Some(c0) => {
            let c = c0.map_values(|ch: char| ascii_upper(ch));
            if has_prefix(c, "ASPH"@) || has_prefix(c, "BITUM"@) || has_prefix(c, "TARMAC"@) {
                RunwaySurface::Asphalt
            } else if has_prefix(c, "CONC"@) {
                RunwaySurface::Concrete
            } else if has_prefix(c, "GRAS"@) {
                RunwaySurface::Turf
            } else if has_prefix(c, "GRAV"@) || has_prefix(c, "GVL"@) {
                RunwaySurface::Gravel
            } else if has_prefix(c, "WATER"@) {
                RunwaySurface::Water
            } else {
                RunwaySurface::Other
            }
        },
    }
}

pub fn surface(code: Option<&str>) -> (r: RunwaySurface)
    ensures
        r == surface_spec(
            match code {
                Some(s) => Some(s@),
                None => None,
            },
        ),
{
    let code = match code {
        Some(c) => c,
        None => return RunwaySurface::Other,
    };
    let c = ascii_uppercase(code);
    if starts_with_lit(&c, "ASPH") || starts_with_lit(&c, "BITUM") || starts_with_lit(&c, "TARMAC") {
        RunwaySurface::Asphalt
    } else if starts_with_lit(&c, "CONC") {
        RunwaySurface::Concrete
    } else if starts_with_lit(&c, "GRAS") {
        RunwaySurface::Turf
    } else if starts_with_lit(&c, "GRAV") || starts_with_lit(&c, "GVL") {
        RunwaySurface::Gravel
    } else if starts_with_lit(&c, "WATER") {
        RunwaySurface::Water
    } else {
        RunwaySurface::Other
    }
}

/// One physical runway from an `Rwy` feature.
pub struct RwyRaw {
    pub airport_icao: String,
    /// Both-ends designator as published (`"10/28"`).
    pub designator: String,
    pub length_ft: u32,
    pub width_ft: u32,
    pub surface: RunwaySurface,
}

/// One runway direction from an `Rdn` feature.
pub struct RdnRaw {
    pub airport_icao: String,
    /// The parent runway's designator (`"10/28"`): the join key.
    pub rwy_designator: String,
    /// This direction's designator (`"10"`).
    pub dir_designator: String,
    pub lat: i64,
    pub lon: i64,
    pub heading_mdeg: i64,
    /// False when the `Rdn` had no readable position.
    pub has_position: bool,
}

/// A number field times `mult / 10^shift`, rounded; missing or
/// unreadable counts as zero.
pub open spec fn field_scaled_or_zero(f: FieldsView, key: Seq<char>, mult: nat, shift: nat) -> int {
    match get_spec(f, key) {
        Some(t) => match dec_scaled(t, mult, shift) {
            Some(x) => x,
            None => 0,
        },
        None => 0,
    }
}

fn field_scaled(f: &Fields, key: &str, mult: u64, shift: u32) -> (r: i128)
    requires
        1 <= mult <= 10_000_000_000,
        shift <= 9,
    ensures
        r == field_scaled_or_zero(fields_view(f@), key@, mult as nat, shift as nat),
        -DEC_BOUND <= r <= DEC_BOUND,
{
    match get(f, key) {
        Some(t) => match decimal_scaled(&to_chars(t.as_str()), mult, shift) {
            Some(x) => x,
            None => 0,
        },
        None => 0,
    }
}

/// A length or width in whole feet, in the unit `uomDimRwy` (`FT`, else
/// metres).
pub open spec fn dim_spec(f: FieldsView, key: Seq<char>) -> u32 {
    if get_spec(f, "uomDimRwy"@) == Some("FT"@) {
        sat_u32(field_scaled_or_zero(f, key, 1, 0))
    } else {
        sat_u32(field_scaled_or_zero(f, key, FEET_PER_METRE_E9 as nat, 9))
    }
}

fn sat_u32_exec(x: i128) -> (r: u32)
    ensures
        r == sat_u32(x as int),
{
    if x < 0 {
        0
    } else if x > 0xFFFF_FFFF {
        0xFFFF_FFFF
    } else {
        x as u32
    }
}

fn dim_ft(f: &Fields, key: &str) -> (r: u32)
    ensures
        r == dim_spec(fields_view(f@), key@),
{
    let feet = match get(f, "uomDimRwy") {
        Some(u) => str_eq(u.as_str(), "FT"),
        None => false,
    };
    if feet {
        sat_u32_exec(field_scaled(f, key, 1, 0))
    } else {
        sat_u32_exec(field_scaled(f, key, FEET_PER_METRE_E9, 9))
    }
}

pub open spec fn opt_str(o: Option<&str>) -> Option<Seq<char>> {
    match o {
        Some(s) => Some(s@),
        None => None,
    }
}

pub open spec fn rwy_outcome(f: FieldsView, r: Option<RwyRaw>) -> bool {
    match (get_spec(f, "RwyUid/AhpUid/codeId"@), get_spec(f, "RwyUid/txtDesig"@)) {
        (Some(icao), Some(desig)) => r matches Some(x) && x.airport_icao@ == icao && x.designator@
            == desig && x.length_ft == dim_spec(f, "valLen"@) && x.width_ft == dim_spec(
            f,
            "valWid"@,
        ) && x.surface == surface_spec(get_spec(f, "codeComposition"@)),
        _ => r is None,
    }
}

/// An `Rwy` feature read by path: the airport ICAO nests at
/// `RwyUid/AhpUid/codeId`.
pub fn rwy_raw_from_paths(f: &Fields) -> (r: Option<RwyRaw>)
    ensures
        rwy_outcome(fields_view(f@), r),
{
    let airport_icao = match get(f, "RwyUid/AhpUid/codeId") {
        Some(x) => x,
        None => return None,
    };
    let designator = match get(f, "RwyUid/txtDesig") {
        Some(x) => x,
        None => return None,
    };
    let comp = get(f, "codeComposition");
    let surface = match &comp {
        Some(c) => surface(Some(c.as_str())),
        None => surface(None),
    };
    Some(
        RwyRaw {
            airport_icao,
            designator,
            length_ft: dim_ft(f, "valLen"),
            width_ft: dim_ft(f, "valWid"),
            surface,
        },
    )
}

/// `x` clamped into `i64`.
pub open spec fn clamp_i64_spec(x: int) -> i64 {
    if x < i64::MIN {
        i64::MIN
    } else if x > i64::MAX {
        i64::MAX
    } else {
        x as i64
    }
}

fn clamp_i64(x: i128) -> (r: i64)
    ensures
        r == clamp_i64_spec(x as int),
{
    if x < -0x8000_0000_0000_0000 {
        -0x8000_0000_0000_0000
    } else if x > 0x7FFF_FFFF_FFFF_FFFF {
        0x7FFF_FFFF_FFFF_FFFF
    } else {
        x as i64
    }
}

pub open spec fn rdn_outcome(f: FieldsView, r: Option<RdnRaw>) -> bool {
    let lat = field_coord(f, "geoLat"@, 2);
    let lon = field_coord(f, "geoLong"@, 3);
    match (
        get_spec(f, "RdnUid/RwyUid/AhpUid/codeId"@),
        get_spec(f, "RdnUid/RwyUid/txtDesig"@),
        get_spec(f, "RdnUid/txtDesig"@),
    ) {
        (Some(icao), Some(rwy), Some(dir)) => r matches Some(x) && x.airport_icao@ == icao
            && x.rwy_designator@ == rwy && x.dir_designator@ == dir && x.lat == (match lat {
            Some(v) => v,
            None => 0,
        }) && x.lon == (match lon {
            Some(v) => v,
            None => 0,
        }) && x.heading_mdeg == clamp_i64_spec(field_scaled_or_zero(f, "valTrueBrg"@, 1000, 0))
            && x.has_position
            == (lat is Some && lon is Some),
        _ => r is None,
    }
}

/// An `Rdn` feature read by path. A direction without a readable
/// position keeps its ident and heading, with zero coordinates.
pub fn rdn_raw_from_paths(f: &Fields) -> (r: Option<RdnRaw>)
    ensures
        rdn_outcome(fields_view(f@), r),
{
    let lat = match get(f, "geoLat") {
        Some(t) => parse_lat(t.as_str()),
        None => None,
    };
    let lon = match get(f, "geoLong") {
        Some(t) => parse_lon(t.as_str()),
        None => None,
    };
    let airport_icao = match get(f, "RdnUid/RwyUid/AhpUid/codeId") {
        Some(x) => x,
        None => return None,
    };
    let rwy_designator = match get(f, "RdnUid/RwyUid/txtDesig") {
        Some(x) => x,
        None => return None,
    };
    let dir_designator = match get(f, "RdnUid/txtDesig") {
        Some(x) => x,
        None => return None,
    };
    let heading = clamp_i64(field_scaled(f, "valTrueBrg", 1000, 0));
    Some(
        RdnRaw {
            airport_icao,
            rwy_designator,
            dir_designator,
            lat: match lat {
                Some(v) => v,
                None => 0,
            },
            lon: match lon {
                Some(v) => v,
                None => 0,
            },
            heading_mdeg: heading,
            has_position: lat.is_some() && lon.is_some(),
        },
    )
}

/// The first direction of the runway `(icao, designator)` named `dir`.
pub open spec fn find_dir(rdns: Seq<RdnRaw>, icao: Seq<char>, designator: Seq<char>, dir: Seq<char>, i: int) -> Option<int>
    decreases rdns.len() - i,
{
    if i < 0 || i >= rdns.len() {
        None
    } else if rdns[i].airport_icao@ == icao && rdns[i].rwy_designator@ == designator
        && rdns[i].dir_designator@ == dir {
        Some(i)
    } else {
        find_dir(rdns, icao, designator, dir, i + 1)
    }
}

/// A runway end from its direction when there is one, else just the
/// ident from the designator with no position or heading.
pub open spec fn end_from(e: RunwayEnd, rdns: Seq<RdnRaw>, found: Option<int>, fallback: Seq<char>) -> bool {
    match found {
        Some(i) => e.ident@ == rdns[i].dir_designator@ && e.lat == (if rdns[i].has_position {
            rdns[i].lat
        } else {
            0
        }) && e.lon == (if rdns[i].has_position {
            rdns[i].lon
        } else {
            0
        }) && e.heading_mdeg == rdns[i].heading_mdeg,
        None => e.ident@ == fallback && e.lat == 0 && e.lon == 0 && e.heading_mdeg == 0,
    }
}

/// The runway assembled from `rwy` and its directions: the designator's
/// halves (`"10/28"`) fix the low and high end and name any end whose
/// direction is missing.
pub open spec fn runway_assembled(r: Runway, rwy: RwyRaw, rdns: Seq<RdnRaw>) -> bool {
    let low = trim(first_part(rwy.designator@));
    let high = trim(second_part(rwy.designator@));
    &&& r.airport_icao@ == rwy.airport_icao@
    &&& r.ident@ == rwy.designator@
    &&& r.length_ft == rwy.length_ft
    &&& r.width_ft == rwy.width_ft
    &&& r.surface == rwy.surface
    &&& end_from(r.low_end, rdns, find_dir(rdns, rwy.airport_icao@, rwy.designator@, low, 0), low)
    &&& end_from(r.high_end, rdns, find_dir(rdns, rwy.airport_icao@, rwy.designator@, high, 0), high)
}

fn find_dir_exec(rdns: &[RdnRaw], icao: &Vec<char>, designator: &Vec<char>, dir: &Vec<char>) -> (r: Option<usize>)
    ensures
        match r {
            Some(i) => find_dir(rdns@, icao@, designator@, dir@, 0) == Some(i as int) && i < rdns@.len(),
            None => find_dir(rdns@, icao@, designator@, dir@, 0) is None,
        },
{
    let mut i: usize = 0;
    while i < rdns.len()
        invariant
            0 <= i <= rdns@.len(),
            find_dir(rdns@, icao@, designator@, dir@, 0) == find_dir(rdns@, icao@, designator@, dir@, i as int),
        decreases rdns.len() - i,
    {
        let r = &rdns[i];
        if vec_eq(&to_chars(r.airport_icao.as_str()), icao) && vec_eq(
            &to_chars(r.rwy_designator.as_str()),
            designator,
        ) && vec_eq(&to_chars(r.dir_designator.as_str()), dir) {
            return Some(i);
        }
        i = i + 1;
    }
    None
}

fn make_end(rdns: &[RdnRaw], found: Option<usize>, fallback: &Vec<char>) -> (e: RunwayEnd)
    requires
        found matches Some(i) ==> i < rdns@.len(),
    ensures
        end_from(
            e,
            rdns@,
            match found {
                Some(i) => Some(i as int),
                None => None,
            },
            fallback@,
        ),
{
    match found {
        Some(i) => {
            let r = &rdns[i];
            RunwayEnd {
                ident: r.dir_designator.clone(),
                lat: if r.has_position {
                    r.lat
                } else {
                    0
                },
                lon: if r.has_position {
                    r.lon
                } else {
                    0
                },
                heading_mdeg: r.heading_mdeg,
            }
        },
        None => RunwayEnd { ident: string_from(fallback), lat: 0, lon: 0, heading_mdeg: 0 },
    }
}

fn next_slash_exec(v: &Vec<char>, from: usize) -> (r: usize)
    requires
        from <= v@.len(),
    ensures
        r as int == crate::nasr::next_slash(v@, from as int),
        from <= r <= v@.len(),
{
    let mut i = from;
    while i < v.len() && v[i] != '/'
        invariant
            from <= i <= v@.len(),
            crate::nasr::next_slash(v@, from as int) == crate::nasr::next_slash(v@, i as int),
        decreases v.len() - i,
    {
        i = i + 1;
    }
    i
}

fn trimmed(v: &Vec<char>) -> (r: Vec<char>)
    ensures
        r@ == trim(v@),
{
    let (lo, hi) = trim_bounds(v, 0, v.len());
    assert(v@.subrange(0, v@.len() as int) =~= v@);
    slice_chars(v, lo, hi)
}

/// One runway per `Rwy`, in order, each assembled from its directions.
pub open spec fn runways_assembled(rwys: Seq<RwyRaw>, rdns: Seq<RdnRaw>, out: Seq<Runway>) -> bool {
    &&& out.len() == rwys.len()
    &&& forall|k: int| 0 <= k < rwys.len() ==> runway_assembled(#[trigger] out[k], rwys[k], rdns)
}

/// Joins physical runways to their directions, matched on
/// `(airport, runway designator)`; one runway per `Rwy`, in order.
pub fn assemble_runways(rwys: &[RwyRaw], rdns: &[RdnRaw]) -> (r: Vec<Runway>)
    ensures
        runways_assembled(rwys@, rdns@, r@),
{
    let mut out: Vec<Runway> = Vec::new();
    let mut k: usize = 0;
    while k < rwys.len()
        invariant
            0 <= k <= rwys@.len(),
            out@.len() == k,
            forall|q: int| 0 <= q < k ==> runway_assembled(#[trigger] out@[q], rwys@[q], rdns@),
        decreases rwys.len() - k,
    {
        let rwy = &rwys[k];
        let icao = to_chars(rwy.airport_icao.as_str());
        let desig = to_chars(rwy.designator.as_str());
        let a = next_slash_exec(&desig, 0);
        let low = trimmed(&slice_chars(&desig, 0, a));
        let high_raw = if a < desig.len() {
            let b = next_slash_exec(&desig, a + 1);
            slice_chars(&desig, a + 1, b)
        } else {
            Vec::new()
        };
        let high = trimmed(&high_raw);
        proof {
            assert(slice_chars_view(desig@, a as int) =~= first_part(desig@));
            assert(high_raw@ =~= second_part(desig@));
        }
        let low_found = find_dir_exec(rdns, &icao, &desig, &low);
        let high_found = find_dir_exec(rdns, &icao, &desig, &high);
        let runway = Runway {
            airport_icao: rwy.airport_icao.clone(),
            ident: rwy.designator.clone(),
            length_ft: rwy.length_ft,
            width_ft: rwy.width_ft,
            surface: rwy.surface,
            low_end: make_end(rdns, low_found, &low),
            high_end: make_end(rdns, high_found, &high),
        };
        out.push(runway);
        k = k + 1;
    }
    out
}

/// Two directions name the same end of the same runway.
pub open spec fn same_direction(x: RdnRaw, y: RdnRaw) -> bool {
    &&& x.airport_icao@ == y.airport_icao@
    &&& x.rwy_designator@ == y.rwy_designator@
    &&& x.dir_designator@ == y.dir_designator@
}

/// No runway end is named by two directions.
pub open spec fn directions_distinct(rdns: Seq<RdnRaw>) -> bool {
    forall|a: int, b: int| 0 <= a < b < rdns.len() ==> !same_direction(#[trigger] rdns[a], #[trigger] rdns[b])
}

spec fn names_end(r: RdnRaw, icao: Seq<char>, designator: Seq<char>, dir: Seq<char>) -> bool {
    r.airport_icao@ == icao && r.rwy_designator@ == designator && r.dir_designator@ == dir
}

proof fn lemma_find_dir(rdns: Seq<RdnRaw>, icao: Seq<char>, designator: Seq<char>, dir: Seq<char>, i: int)
    requires
        0 <= i,
    ensures
        match find_dir(rdns, icao, designator, dir, i) {
            Some(j) => i <= j < rdns.len() && names_end(rdns[j], icao, designator, dir),
            None => forall|m: int| i <= m < rdns.len() ==> !names_end(#[trigger] rdns[m], icao, designator, dir),
        },
    decreases rdns.len() - i,
{
    if i < rdns.len() && !names_end(rdns[i], icao, designator, dir) {
        lemma_find_dir(rdns, icao, designator, dir, i + 1);
    }
}

/// In two orderings of the same distinct directions, the lookup of one
/// runway end finds the same direction, or none in both.
proof fn lemma_find_dir_reordered(
    rdns1: Seq<RdnRaw>,
    rdns2: Seq<RdnRaw>,
    icao: Seq<char>,
    designator: Seq<char>,
    dir: Seq<char>,
)
    requires
        rdns1.to_multiset() == rdns2.to_multiset(),
        directions_distinct(rdns2),
    ensures
        match (find_dir(rdns1, icao, designator, dir, 0), find_dir(rdns2, icao, designator, dir, 0)) {
            (Some(i), Some(j)) => rdns1[i] == rdns2[j],
            (None, None) => true,
            _ => false,
        },
{
    broadcast use vstd::seq_lib::group_to_multiset_ensures;

    lemma_find_dir(rdns1, icao, designator, dir, 0);
    lemma_find_dir(rdns2, icao, designator, dir, 0);
    match find_dir(rdns1, icao, designator, dir, 0) {
        Some(i) => {
            let r = rdns1[i];
            assert(rdns1.contains(r));
            assert(rdns1.to_multiset().count(r) > 0);
            assert(rdns2.contains(r));
            let j = choose|j: int| 0 <= j < rdns2.len() && rdns2[j] == r;
            assert(names_end(rdns2[j], icao, designator, dir));
            let k = find_dir(rdns2, icao, designator, dir, 0)->0;
            if k != j {
                if k < j {
                    assert(same_direction(rdns2[k], rdns2[j]));
                } else {
                    assert(same_direction(rdns2[j], rdns2[k]));
                }
            }
        },
        None => {
            if let Some(j) = find_dir(rdns2, icao, designator, dir, 0) {
                let r = rdns2[j];
                assert(rdns2.contains(r));
                assert(rdns2.to_multiset().count(r) > 0);
                assert(rdns1.contains(r));
                let i = choose|i: int| 0 <= i < rdns1.len() && rdns1[i] == r;
                assert(!names_end(rdns1[i], icao, designator, dir));
            }
        },
    }
}

/// The runways assembled from one list of directions are the runways
/// assembled from any reordering of it, as long as no runway end is
/// named twice: each end is found by what it names, not by where it
/// stands in the list.
pub proof fn lemma_runways_ignore_direction_order(
    rwys: Seq<RwyRaw>,
    rdns1: Seq<RdnRaw>,
    rdns2: Seq<RdnRaw>,
    out: Seq<Runway>,
)
    requires
        rdns1.to_multiset() == rdns2.to_multiset(),
        directions_distinct(rdns2),
        runways_assembled(rwys, rdns1, out),
    ensures
        runways_assembled(rwys, rdns2, out),
{
    assert forall|k: int| 0 <= k < rwys.len() implies runway_assembled(#[trigger] out[k], rwys[k], rdns2) by {
        let rwy = rwys[k];
        let low = trim(first_part(rwy.designator@));
        let high = trim(second_part(rwy.designator@));
        assert(runway_assembled(out[k], rwys[k], rdns1));
        lemma_find_dir_reordered(rdns1, rdns2, rwy.airport_icao@, rwy.designator@, low);
        lemma_find_dir_reordered(rdns1, rdns2, rwy.airport_icao@, rwy.designator@, high);
    }
}

spec fn slice_chars_view(s: Seq<char>, a: int) -> Seq<char> {
    s.subrange(0, a)
}

} // verus!
