//! openAIP data: the conversion of the records its REST API returns
//! ([`model`]) into domain types, with the decoding of openAIP's numeric
//! codes.
//!
//! openAIP publishes no schema for its enums; every mapping here was
//! derived by correlating live data with independently known facts (a
//! German CTR is class D, an NDB transmits in kHz). Unknown codes are
//! never guessed: they become the conservative value, or the feature is
//! skipped.
//!
//! Positions are milliarcseconds. A measure's value is kept as the text
//! the API sent (numbers as written, frequencies quoted) and read as a
//! float cast would read it.
use crate::aixm::airspace::{sat_u32, FEET_PER_METRE_E9};
use crate::decimal::clamp_num;
use crate::domain::{
    Airport, AirportType, AirspaceClass, AirspaceVolume, AltitudeLimit, Navaid, NavaidType, Polygon,
    SpecialUseKind,
};
use crate::text::{
    decimal, format_u64, opt_view, push_lit, str_uppercase, string_from, to_chars, trim,
    trimmed_chars, upper_str,
};
use crate::openaip::model::{measure_scaled, swapped, Geometry, Measure};
use vstd::prelude::*;

pub mod model;

verus! {

/// Page size asked of the API: the most it accepts, so few round trips.
pub const PAGE_LIMIT: u32 = 1000;

/// No collection is fetched past this page, so a paging bug cannot turn
/// into an unbounded fetch loop against the API.
pub const MAX_PAGES: u32 = 100;

/// The page to fetch after `page` (pages count from 1), or `None` when
/// `page` was the last the API reported or the last allowed.
pub open spec fn next_page_spec(page: u32, total_pages: u32) -> Option<u32> {
    if page >= total_pages || page >= MAX_PAGES {
        None
    } else {
        Some((page + 1) as u32)
    }
}

/// The page to fetch after `page` (see [`next_page_spec`]).
pub fn next_page(page: u32, total_pages: u32) -> (r: Option<u32>)
    ensures
        r == next_page_spec(page, total_pages),
{
    if page >= total_pages || page >= MAX_PAGES {
        None
    } else {
        Some(page + 1)
    }
}

/// The pages a fetch requests from `page` on, each step taken by
/// [`next_page_spec`], when every page reports `total_pages`.
pub open spec fn pages_from(page: u32, total_pages: u32) -> Seq<u32>
    decreases MAX_PAGES - page,
{
    match next_page_spec(page, total_pages) {
        Some(next) => seq![page] + pages_from(next, total_pages),
        None => seq![page],
    }
}

/// The pages from `p` up to and including `last`.
pub open spec fn page_run(p: u32, last: int) -> Seq<u32> {
    Seq::new((last - p + 1) as nat, |i: int| (p + i) as u32)
}

proof fn lemma_pages_from(p: u32, t: u32)
    requires
        1 <= p <= MAX_PAGES,
    ensures
        pages_from(p, t) =~= page_run(p, if p >= t || p >= MAX_PAGES { p as int } else if t < MAX_PAGES { t as int } else { MAX_PAGES as int }),
    decreases MAX_PAGES - p,
{
    if !(p >= t || p >= MAX_PAGES) {
        lemma_pages_from((p + 1) as u32, t);
    }
}

/// A fetch whose every page reports `total_pages` requests pages 1 to
/// `max(1, min(total_pages, 100))`, in order, each once: all pages the
/// API has, but never past [`MAX_PAGES`].
pub proof fn lemma_fetch_requests_every_page_once(total_pages: u32)
    ensures
        pages_from(1, total_pages) =~= page_run(
            1,
            if total_pages <= 1 {
                1
            } else if total_pages < MAX_PAGES {
                total_pages as int
            } else {
                MAX_PAGES as int
            },
        ),
{
    lemma_pages_from(1, total_pages);
}

/// The start of an error response's body kept for a report: its first
/// 200 characters.
pub fn error_excerpt(body: &str) -> (r: String)
    ensures
        r@ == if body@.len() <= 200 {
            body@
        } else {
            body@.take(200)
        },
{
    let v = to_chars(body);
    if v.len() <= 200 {
        return string_from(&v);
    }
    let mut out: Vec<char> = Vec::new();
    let mut i: usize = 0;
    while i < 200
        invariant
            0 <= i <= 200,
            v@.len() > 200,
            out@ == v@.take(i as int),
        decreases 200 - i,
    {
        out.push(v[i]);
        assert(out@ =~= v@.take(i + 1));
        i = i + 1;
    }
    string_from(&out)
}

/// Unit codes of `Measure.unit`.
pub struct UnitCode;

impl UnitCode {
    pub const METRES: i32 = 0;
    pub const FEET: i32 = 1;
    /// Frequencies: `2` = MHz (VHF, "115.800"), `1` = kHz (NDB).
    pub const MHZ: i32 = 2;
    pub const KHZ: i32 = 1;
    pub const FLIGHT_LEVEL: i32 = 6;
}

/// `Measure.referenceDatum`: ground, mean sea level, standard pressure.
pub struct DatumCode;

impl DatumCode {
    pub const GND: i32 = 0;
    pub const MSL: i32 = 1;
    pub const STD: i32 = 2;
}

/// Airspace `type` codes, for volumes that carry no ICAO class.
pub struct AirspaceTypeCode;

impl AirspaceTypeCode {
    pub const RESTRICTED: i32 = 1;
    pub const DANGER: i32 = 2;
    pub const PROHIBITED: i32 = 3;
    pub const CTR: i32 = 4;
    pub const TMZ: i32 = 5;
    pub const RMZ: i32 = 6;
    pub const TMA: i32 = 7;
    /// FIR/UIR boundaries: country-sized, deliberately not imported.
    pub const FIR: i32 = 10;
    pub const ATZ: i32 = 13;
    pub const GLIDER_SECTOR: i32 = 21;
    pub const LOW_FLYING: i32 = 25;
    pub const PARACHUTE: i32 = 28;
}

/// A length in whole feet, converted from metres when that is the unit,
/// saturated at plus or minus `NUM_BOUND`; `None` for an unknown unit or
/// a value that is not a number.
pub open spec fn length_ft_spec(m: Measure) -> Option<int> {
    let v = if m.unit == Some(UnitCode::METRES) {
        measure_scaled(m, FEET_PER_METRE_E9 as nat, 9)
    } else if m.unit == Some(UnitCode::FEET) {
        measure_scaled(m, 1, 0)
    } else {
        None
    };
    match v {
        Some(x) => Some(clamp_num(x)),
        None => None,
    }
}

pub fn length_ft(m: &Measure) -> (r: Option<i128>)
    ensures
        match r {
            Some(x) => length_ft_spec(*m) == Some(x as int),
            None => length_ft_spec(*m) is None,
        },
{
    match m.unit {
        Some(u) => if u == UnitCode::METRES {
            m.scaled(FEET_PER_METRE_E9, 9)
        } else if u == UnitCode::FEET {
            m.scaled(1, 0)
        } else {
            None
        },
        None => None,
    }
}

/// `x` clamped into `i32`, as a float-to-`i32` cast saturates.
pub open spec fn sat_i32(x: int) -> i32 {
    if x < i32::MIN {
        i32::MIN
    } else if x > i32::MAX {
        i32::MAX
    } else {
        x as i32
    }
}

fn sat_i32_exec(x: i128) -> (r: i32)
    ensures
        r == sat_i32(x as int),
{
    if x < -0x8000_0000 {
        -0x8000_0000
    } else if x > 0x7FFF_FFFF {
        0x7FFF_FFFF
    } else {
        x as i32
    }
}

fn sat_u32_exec(x: i128) -> (r: u32)
    ensures
        r == sat_u32(x as int),
{
    if x < 0 {
        0
    } else if x > 0xFFFF_FFFF {
        0xFFFF_FFFF
    } else {
        x as u32
    }
}

/// Elevation in whole feet.
pub open spec fn elevation_spec(m: Option<Measure>) -> Option<i32> {
    match m {
        Some(m) => match length_ft_spec(m) {
            Some(ft) => Some(sat_i32(ft)),
            None => None,
        },
        None => None,
    }
}

fn elevation(m: &Option<Measure>) -> (r: Option<i32>)
    ensures
        r == elevation_spec(*m),
{
    match m {
        Some(m) => match length_ft(m) {
            Some(ft) => Some(sat_i32_exec(ft)),
            None => None,
        },
        None => None,
    }
}

/// Airport `type`: every code is an airport (the finer codes are not
/// pinned down, and a coarse type never misrepresents a field).
pub fn airport_type(code: Option<i32>) -> (r: AirportType)
    ensures
        r == AirportType::Airport,
{
    AirportType::Airport
}

/// The trimmed text, when it is not empty.
pub open spec fn trimmed_some(o: Option<String>) -> Option<Seq<char>> {
    match o {
        Some(s) => if trim(s@).len() > 0 {
            Some(trim(s@))
        } else {
            None
        },
        None => None,
    }
}

fn trimmed_nonempty(o: &Option<String>) -> (r: Option<Vec<char>>)
    ensures
        match r {
            Some(v) => trimmed_some(*o) == Some(v@),
            None => trimmed_some(*o) is None,
        },
{
    match o {
        Some(s) => {
            let t = trimmed_chars(s.as_str());
            if t.len() > 0 {
                Some(t)
            } else {
                None
            }
        },
        None => None,
    }
}

/// The key of an airport: its ICAO code uppercased, else the fallback id
/// marked `OAIP:` so it is never mistaken for an ICAO code.
pub open spec fn airport_key(a: model::Airport, fallback_id: Seq<char>) -> Option<Seq<char>> {
    match trimmed_some(a.icao_code) {
        Some(code) => Some(str_uppercase(code)),
        None => if fallback_id.len() == 0 {
            None
        } else {
            Some("OAIP:"@ + fallback_id)
        },
    }
}

/// The airport converted from `a`: `None` without a position or a key.
pub open spec fn airport_outcome(a: model::Airport, fallback_id: Seq<char>, r: Option<Airport>) -> bool {
    match (a.geometry, airport_key(a, fallback_id)) {
        (Geometry::Point { lon, lat }, Some(key)) => r matches Some(x) && x.icao@ == key
            && x.faa_id is None && opt_view(x.iata) == (match trimmed_some(a.iata_code) {
            Some(t) => Some(str_uppercase(t)),
            None => None,
        }) && x.name@ == trim(a.name@) && x.lat == lat && x.lon == lon
            && x.elevation_ft == (match elevation_spec(a.elevation) {
            Some(e) => e,
            None => 0,
        }) && x.airport_type == AirportType::Airport && x.fuel_types@.len() == 0,
        _ => r is None,
    }
}

/// Converts an airport; one with no ICAO code is kept under its fallback
/// id rather than dropped.
pub fn airport(a: &model::Airport, fallback_id: &str) -> (r: Option<Airport>)
    ensures
        airport_outcome(*a, fallback_id@, r),
{
    let (lat, lon) = match a.geometry.point() {
        Some(p) => p,
        None => return None,
    };
    let icao = match trimmed_nonempty(&a.icao_code) {
        Some(code) => upper_str(&string_from(&code)),
        None => {
            let fb = to_chars(fallback_id);
            if fb.len() == 0 {
                return None;
            }
            let mut k = to_chars("OAIP:");
            push_lit(&mut k, fallback_id);
            string_from(&k)
        },
    };
    let iata = match trimmed_nonempty(&a.iata_code) {
        Some(t) => Some(upper_str(&string_from(&t))),
        None => None,
    };
    let elevation_ft = match elevation(&a.elevation) {
        Some(e) => e,
        None => 0,
    };
    Some(
        Airport {
            icao,
            faa_id: None,
            iata,
            name: string_from(&trimmed_chars(a.name.as_str())),
            lat,
            lon,
            elevation_ft,
            airport_type: airport_type(a.kind),
            fuel_types: Vec::new(),
        },
    )
}

/// Navaid `type`, as far as the evidence goes: kHz is an NDB; MHz with a
/// TACAN channel a VOR-DME, without one a VOR; anything else unknown.
pub open spec fn navaid_type_spec(n: model::Navaid) -> Option<NavaidType> {
    let unit = match n.frequency {
        Some(f) => f.unit,
        None => None,
    };
    if unit == Some(UnitCode::KHZ) {
        Some(NavaidType::Ndb)
    } else if unit != Some(UnitCode::MHZ) {
        None
    } else if trimmed_some(n.channel) is Some {
        Some(NavaidType::VorDme)
    } else {
        Some(NavaidType::Vor)
    }
}

pub fn navaid_type(n: &model::Navaid) -> (r: Option<NavaidType>)
    ensures
        r == navaid_type_spec(*n),
{
    let unit = match &n.frequency {
        Some(f) => f.unit,
        None => None,
    };
    if unit == Some(UnitCode::KHZ) {
        return Some(NavaidType::Ndb);
    }
    if unit != Some(UnitCode::MHZ) {
        return None;
    }
    match trimmed_nonempty(&n.channel) {
        Some(_) => Some(NavaidType::VorDme),
        None => Some(NavaidType::Vor),
    }
}

/// Frequency in kHz: kHz values as sent, MHz values times 1000, rounded.
pub open spec fn freq_khz_spec(m: Option<Measure>) -> Option<u32> {
    match m {
        Some(f) => if f.unit == Some(UnitCode::KHZ) {
            match measure_scaled(f, 1, 0) {
                Some(v) => Some(sat_u32(v)),
                None => None,
            }
        } else if f.unit == Some(UnitCode::MHZ) {
            match measure_scaled(f, 1000, 0) {
                Some(v) => Some(sat_u32(v)),
                None => None,
            }
        } else {
            None
        },
        None => None,
    }
}

fn freq_khz(m: &Option<Measure>) -> (r: Option<u32>)
    ensures
        r == freq_khz_spec(*m),
{
    match m {
        Some(f) => {
            let mult: u64 = if f.unit == Some(UnitCode::KHZ) {
                1
            } else if f.unit == Some(UnitCode::MHZ) {
                1000
            } else {
                return None;
            };
            match f.scaled(mult, 0) {
                Some(v) => Some(sat_u32_exec(v)),
                None => None,
            }
        },
        None => None,
    }
}

pub open spec fn navaid_outcome(n: model::Navaid, region: Seq<char>, r: Option<Navaid>) -> bool {
    match (n.geometry, trimmed_some(n.identifier), navaid_type_spec(n)) {
        (Geometry::Point { lon, lat }, Some(ident), Some(t)) => r matches Some(x) && x.ident@
            == str_uppercase(ident) && x.navaid_type == t && x.lat == lat && x.lon == lon && x.elevation_ft == elevation_spec(n.elevation) && x.freq_khz
            == freq_khz_spec(n.frequency) && x.region@ == region,
        _ => r is None,
    }
}

/// Converts a navaid; `region` is the ICAO region of the dataset.
pub fn navaid(n: &model::Navaid, region: &str) -> (r: Option<Navaid>)
    ensures
        navaid_outcome(*n, region@, r),
{
    let (lat, lon) = match n.geometry.point() {
        Some(p) => p,
        None => return None,
    };
    let ident = match trimmed_nonempty(&n.identifier) {
        Some(i) => i,
        None => return None,
    };
    let navaid_type = match navaid_type(n) {
        Some(t) => t,
        None => return None,
    };
    Some(
        Navaid {
            ident: upper_str(&string_from(&ident)),
            navaid_type,
            lat,
            lon,
            elevation_ft: elevation(&n.elevation),
            freq_khz: freq_khz(&n.frequency),
            region: string_from(&to_chars(region)),
        },
    )
}

/// `icaoClass` → class: `0=A, 1=B, … 6=G`; `8` (no ICAO class) and any
/// unknown code give `None`, never a class the data did not claim.
pub open spec fn airspace_class_spec(icao_class: Option<i32>) -> Option<AirspaceClass> {
    match icao_class {
        Some(0) => Some(AirspaceClass::A),
        Some(1) => Some(AirspaceClass::B),
        Some(2) => Some(AirspaceClass::C),
        Some(3) => Some(AirspaceClass::D),
        Some(4) => Some(AirspaceClass::E),
        Some(5) => Some(AirspaceClass::F),
        Some(6) => Some(AirspaceClass::G),
        _ => None,
    }
}

pub fn airspace_class(icao_class: Option<i32>) -> (r: Option<AirspaceClass>)
    ensures
        r == airspace_class_spec(icao_class),
{
    match icao_class {
        Some(0) => Some(AirspaceClass::A),
        Some(1) => Some(AirspaceClass::B),
        Some(2) => Some(AirspaceClass::C),
        Some(3) => Some(AirspaceClass::D),
        Some(4) => Some(AirspaceClass::E),
        Some(5) => Some(AirspaceClass::F),
        Some(6) => Some(AirspaceClass::G),
        _ => None,
    }
}

/// An altitude limit from its `(unit, referenceDatum)` pair: flight
/// levels (unit or datum), feet above ground (zero is the surface) or
/// above MSL, metres converted likewise; anything else, or no readable
/// value, is unlimited.
pub open spec fn altitude_limit_spec(m: Option<Measure>) -> AltitudeLimit {
    match m {
        None => AltitudeLimit::Unlimited,
        Some(m) => match measure_scaled(m, 1, 0) {
            None => AltitudeLimit::Unlimited,
            Some(v) => {
                let rounded = sat_u32(v);
                if m.unit == Some(UnitCode::FLIGHT_LEVEL) || m.reference_datum == Some(
                    DatumCode::STD,
                ) {
                    AltitudeLimit::FlightLevel(rounded)
                } else if m.unit == Some(UnitCode::FEET) && m.reference_datum == Some(
                    DatumCode::GND,
                ) {
                    if rounded == 0 {
                        AltitudeLimit::Surface
                    } else {
                        AltitudeLimit::Agl(rounded)
                    }
                } else if m.unit == Some(UnitCode::FEET) && m.reference_datum == Some(
                    DatumCode::MSL,
                ) {
                    AltitudeLimit::Msl(rounded)
                } else if m.unit == Some(UnitCode::METRES) {
                    let ft = sat_u32(measure_scaled(m, FEET_PER_METRE_E9 as nat, 9)->0);
                    if m.reference_datum == Some(DatumCode::GND) {
                        if ft == 0 {
                            AltitudeLimit::Surface
                        } else {
                            AltitudeLimit::Agl(ft)
                        }
                    } else {
                        AltitudeLimit::Msl(ft)
                    }
                } else {
                    AltitudeLimit::Unlimited
                }
            },
        },
    }
}

pub fn altitude_limit(m: Option<&Measure>) -> (r: AltitudeLimit)
    ensures
        r == altitude_limit_spec(
            match m {
                Some(x) => Some(*x),
                None => None,
            },
        ),
{
    let m = match m {
        Some(m) => m,
        None => return AltitudeLimit::Unlimited,
    };
    let value = match m.scaled(1, 0) {
        Some(v) => v,
        None => return AltitudeLimit::Unlimited,
    };
    let rounded = sat_u32_exec(value);
    if m.unit == Some(UnitCode::FLIGHT_LEVEL) || m.reference_datum == Some(DatumCode::STD) {
        AltitudeLimit::FlightLevel(rounded)
    } else if m.unit == Some(UnitCode::FEET) && m.reference_datum == Some(DatumCode::GND) {
        if rounded == 0 {
            AltitudeLimit::Surface
        } else {
            AltitudeLimit::Agl(rounded)
        }
    } else if m.unit == Some(UnitCode::FEET) && m.reference_datum == Some(DatumCode::MSL) {
        AltitudeLimit::Msl(rounded)
    } else if m.unit == Some(UnitCode::METRES) {
        let ft_val = match m.scaled(FEET_PER_METRE_E9, 9) {
            Some(x) => x,
            None => 0,
        };
        let ft = sat_u32_exec(ft_val);
        if m.reference_datum == Some(DatumCode::GND) {
            if ft == 0 {
                AltitudeLimit::Surface
            } else {
                AltitudeLimit::Agl(ft)
            }
        } else {
            AltitudeLimit::Msl(ft)
        }
    } else {
        AltitudeLimit::Unlimited
    }
}

/// Special-use kind for volumes with no ICAO class, keyed on the type
/// code (not the name); danger areas are warnings. FIR boundaries and
/// unknown codes give `None`.
pub open spec fn special_use_spec(kind: Option<i32>) -> Option<AirspaceClass> {
    match kind {
        Some(k) => if k == AirspaceTypeCode::RESTRICTED {
            Some(AirspaceClass::SpecialUse(SpecialUseKind::Restricted))
        } else if k == AirspaceTypeCode::DANGER {
            Some(AirspaceClass::SpecialUse(SpecialUseKind::Warning))
        } else if k == AirspaceTypeCode::PROHIBITED {
            Some(AirspaceClass::SpecialUse(SpecialUseKind::Prohibited))
        } else if k == AirspaceTypeCode::RMZ {
            Some(AirspaceClass::SpecialUse(SpecialUseKind::Rmz))
        } else if k == AirspaceTypeCode::TMZ {
            Some(AirspaceClass::SpecialUse(SpecialUseKind::Tmz))
        } else if k == AirspaceTypeCode::ATZ {
            Some(AirspaceClass::SpecialUse(SpecialUseKind::Atz))
        } else if k == AirspaceTypeCode::GLIDER_SECTOR {
            Some(AirspaceClass::SpecialUse(SpecialUseKind::Glider))
        } else if k == AirspaceTypeCode::PARACHUTE {
            Some(AirspaceClass::SpecialUse(SpecialUseKind::Parachute))
        } else if k == AirspaceTypeCode::LOW_FLYING {
            Some(AirspaceClass::SpecialUse(SpecialUseKind::LowFlying))
        } else {
            None
        },
        None => None,
    }
}

pub fn special_use_from_type(kind: Option<i32>) -> (r: Option<AirspaceClass>)
    ensures
        r == special_use_spec(kind),
{
    let k = match kind {
        Some(k) => k,
        None => return None,
    };
    let s = if k == AirspaceTypeCode::RESTRICTED {
        SpecialUseKind::Restricted
    } else if k == AirspaceTypeCode::DANGER {
        SpecialUseKind::Warning
    } else if k == AirspaceTypeCode::PROHIBITED {
        SpecialUseKind::Prohibited
    } else if k == AirspaceTypeCode::RMZ {
        SpecialUseKind::Rmz
    } else if k == AirspaceTypeCode::TMZ {
        SpecialUseKind::Tmz
    } else if k == AirspaceTypeCode::ATZ {
        SpecialUseKind::Atz
    } else if k == AirspaceTypeCode::GLIDER_SECTOR {
        SpecialUseKind::Glider
    } else if k == AirspaceTypeCode::PARACHUTE {
        SpecialUseKind::Parachute
    } else if k == AirspaceTypeCode::LOW_FLYING {
        SpecialUseKind::LowFlying
    } else {
        return None;
    };
    Some(AirspaceClass::SpecialUse(s))
}

/// The class of an airspace: its ICAO class, else the special-use kind
/// of its type code.
pub open spec fn volume_class_spec(a: model::Airspace) -> Option<AirspaceClass> {
    match airspace_class_spec(a.icao_class) {
        Some(c) => Some(c),
        None => special_use_spec(a.kind),
    }
}

pub open spec fn airspace_outcome(a: model::Airspace, r: Option<AirspaceVolume>) -> bool {
    match a.geometry {
        Geometry::Polygon { coordinates } => if coordinates@.len() > 0 && coordinates@[0]@.len()
            >= 3 && volume_class_spec(a) is Some {
            r matches Some(v) && v.id@ == "OAIP:"@ + a.id@ && v.name@ == trim(a.name@) && Some(
                v.class,
            ) == volume_class_spec(a) && v.floor == altitude_limit_spec(a.lower_limit)
                && v.ceiling == altitude_limit_spec(a.upper_limit) && v.boundary.points@ == swapped(
                coordinates@[0]@,
            )
        } else {
            r is None
        },
        _ => r is None,
    }
}

/// Converts an airspace volume: `None` without a polygon of at least
/// three points, or when its class cannot be established.
pub fn airspace(a: &model::Airspace) -> (r: Option<AirspaceVolume>)
    ensures
        airspace_outcome(*a, r),
{
    let points = match a.geometry.outer_ring() {
        Some(p) => p,
        None => return None,
    };
    if points.len() < 3 {
        return None;
    }
    let class = match airspace_class(a.icao_class) {
        Some(c) => c,
        None => match special_use_from_type(a.kind) {
            Some(c) => c,
            None => return None,
        },
    };
    let mut id = to_chars("OAIP:");
    push_lit(&mut id, a.id.as_str());
    Some(
        AirspaceVolume {
            id: string_from(&id),
            name: string_from(&trimmed_chars(a.name.as_str())),
            class,
            floor: altitude_limit(a.lower_limit.as_ref()),
            ceiling: altitude_limit(a.upper_limit.as_ref()),
            boundary: Polygon { points },
        },
    )
}

/// Features that arrived but could not be converted.
#[derive(Debug, Clone, Copy, Default, PartialEq, Eq)]
pub struct Skipped {
    pub airports: usize,
    pub navaids: usize,
    pub airspaces: usize,
}

/// Everything read for one country, converted to domain types.
#[derive(Debug, Clone)]
pub struct OpenAipData {
    pub airports: Vec<Airport>,
    pub navaids: Vec<Navaid>,
    pub airspaces: Vec<AirspaceVolume>,
    pub skipped: Skipped,
}

/// The fallback key of the `index`th airport: `"{country}-{index}"`.
pub open spec fn fallback_id(a: model::Airport, index: int) -> Seq<char> {
    a.country@ + seq!['-'] + decimal(index as nat)
}

/// Each input is either converted (in order) or counted as skipped.
pub open spec fn converted_in_order<A, B>(
    inputs: Seq<A>,
    outputs: Seq<B>,
    skipped: int,
    outcome: spec_fn(A, int, Option<B>) -> bool,
) -> bool {
    exists|results: Seq<Option<B>>|
        #![trigger results.len()]
        results.len() == inputs.len() && (forall|i: int|
            0 <= i < inputs.len() ==> outcome(inputs[i], i, #[trigger] results[i])) && outputs
            == somes(results) && skipped == nones(results)
}

/// The `Some` values of `s`, in order.
pub open spec fn somes<B>(s: Seq<Option<B>>) -> Seq<B>
    decreases s.len(),
{
    if s.len() == 0 {
        Seq::empty()
    } else {
        match s.last() {
            Some(x) => somes(s.drop_last()).push(x),
            None => somes(s.drop_last()),
        }
    }
}

/// How many of `s` are `None`.
pub open spec fn nones<B>(s: Seq<Option<B>>) -> int
    decreases s.len(),
{
    if s.len() == 0 {
        0
    } else {
        nones(s.drop_last()) + if s.last() is None {
            1int
        } else {
            0
        }
    }
}

proof fn lemma_nones_bound<B>(s: Seq<Option<B>>)
    ensures
        0 <= nones(s) <= s.len(),
    decreases s.len(),
{
    if s.len() > 0 {
        lemma_nones_bound(s.drop_last());
    }
}

proof fn lemma_somes_nones_len<B>(s: Seq<Option<B>>)
    ensures
        somes(s).len() + nones(s) == s.len(),
    decreases s.len(),
{
    if s.len() > 0 {
        lemma_somes_nones_len(s.drop_last());
    }
}

/// Every feature handed in is accounted for: converted, or counted as
/// skipped.
pub proof fn lemma_every_feature_accounted_for<A, B>(
    inputs: Seq<A>,
    outputs: Seq<B>,
    skipped: int,
    outcome: spec_fn(A, int, Option<B>) -> bool,
)
    requires
        converted_in_order(inputs, outputs, skipped, outcome),
    ensures
        outputs.len() + skipped == inputs.len(),
{
    let results = choose|results: Seq<Option<B>>|
        #![trigger results.len()]
        results.len() == inputs.len() && (forall|i: int|
            0 <= i < inputs.len() ==> outcome(inputs[i], i, #[trigger] results[i])) && outputs
            == somes(results) && skipped == nones(results);
    lemma_somes_nones_len(results);
}

/// How many of `airports` have no point position.
pub open spec fn unplaced(airports: Seq<model::Airport>) -> int
    decreases airports.len(),
{
    if airports.len() == 0 {
        0
    } else {
        unplaced(airports.drop_last()) + if airports.last().geometry is Point {
            0int
        } else {
            1int
        }
    }
}

proof fn lemma_unplaced_nones(airports: Seq<model::Airport>, results: Seq<Option<Airport>>)
    requires
        results.len() == airports.len(),
        forall|i: int|
            0 <= i < airports.len() ==> (#[trigger] results[i] is None <==> !(airports[i].geometry is Point)),
    ensures
        nones(results) == unplaced(airports),
    decreases airports.len(),
{
    if airports.len() > 0 {
        let (a, r) = (airports.drop_last(), results.drop_last());
        assert forall|i: int| 0 <= i < a.len() implies (#[trigger] r[i] is None <==> !(a[i].geometry is Point)) by {
            assert(r[i] == results[i]);
            assert(a[i] == airports[i]);
        }
        lemma_unplaced_nones(a, r);
        assert(results[results.len() - 1] is None <==> !(airports[airports.len() - 1].geometry is Point));
    }
}

proof fn lemma_somes_satisfy<B>(s: Seq<Option<B>>, p: spec_fn(B) -> bool)
    requires
        forall|i: int| 0 <= i < s.len() ==> (#[trigger] s[i] matches Some(x) ==> p(x)),
    ensures
        forall|j: int| 0 <= j < somes(s).len() ==> p(#[trigger] somes(s)[j]),
    decreases s.len(),
{
    if s.len() > 0 {
        let t = s.drop_last();
        assert forall|i: int| 0 <= i < t.len() implies (#[trigger] t[i] matches Some(x) ==> p(x)) by {
            assert(t[i] == s[i]);
        }
        lemma_somes_satisfy(t, p);
        assert(s[s.len() - 1] matches Some(x) ==> p(x));
        match s.last() {
            Some(x) => {
                assert(somes(s) == somes(t).push(x));
                assert forall|j: int| 0 <= j < somes(s).len() implies p(#[trigger] somes(s)[j]) by {
                    if j < somes(t).len() {
                        assert(somes(s)[j] == somes(t)[j]);
                    }
                }
            },
            None => {
                assert(somes(s) == somes(t));
            },
        }
    }
}

/// What a country's conversion keeps: every feature is converted or
/// counted as skipped; an airport is skipped exactly when it has no point
/// position (one without an ICAO code is kept under its fallback key);
/// and every navaid carries the region it was converted under.
pub proof fn lemma_country_conversion(
    airports: Seq<model::Airport>,
    navaids: Seq<model::Navaid>,
    airspaces: Seq<model::Airspace>,
    region: Seq<char>,
    r: OpenAipData,
)
    requires
        converted_in_order(
            airports,
            r.airports@,
            r.skipped.airports as int,
            |a: model::Airport, i: int, o: Option<Airport>| airport_outcome(a, fallback_id(a, i), o),
        ),
        converted_in_order(
            navaids,
            r.navaids@,
            r.skipped.navaids as int,
            |n: model::Navaid, i: int, o: Option<Navaid>| navaid_outcome(n, region, o),
        ),
        converted_in_order(
            airspaces,
            r.airspaces@,
            r.skipped.airspaces as int,
            |a: model::Airspace, i: int, o: Option<AirspaceVolume>| airspace_outcome(a, o),
        ),
    ensures
        r.airports@.len() + r.skipped.airports == airports.len(),
        r.navaids@.len() + r.skipped.navaids == navaids.len(),
        r.airspaces@.len() + r.skipped.airspaces == airspaces.len(),
        r.skipped.airports == unplaced(airports),
        forall|j: int| 0 <= j < r.navaids@.len() ==> (#[trigger] r.navaids@[j]).region@ == region,
{
    lemma_every_feature_accounted_for(
        airports,
        r.airports@,
        r.skipped.airports as int,
        |a: model::Airport, i: int, o: Option<Airport>| airport_outcome(a, fallback_id(a, i), o),
    );
    lemma_every_feature_accounted_for(
        navaids,
        r.navaids@,
        r.skipped.navaids as int,
        |n: model::Navaid, i: int, o: Option<Navaid>| navaid_outcome(n, region, o),
    );
    lemma_every_feature_accounted_for(
        airspaces,
        r.airspaces@,
        r.skipped.airspaces as int,
        |a: model::Airspace, i: int, o: Option<AirspaceVolume>| airspace_outcome(a, o),
    );
    let ra = choose|results: Seq<Option<Airport>>|
        #![trigger results.len()]
        results.len() == airports.len() && (forall|i: int|
            0 <= i < airports.len() ==> airport_outcome(airports[i], fallback_id(airports[i], i), #[trigger] results[i]))
            && r.airports@ == somes(results) && r.skipped.airports as int == nones(results);
    assert forall|i: int| 0 <= i < airports.len() implies (#[trigger] ra[i] is None <==> !(airports[i].geometry is Point)) by {
        assert(fallback_id(airports[i], i).len() > 0);
        assert(airport_outcome(airports[i], fallback_id(airports[i], i), ra[i]));
    }
    lemma_unplaced_nones(airports, ra);
    let rn = choose|results: Seq<Option<Navaid>>|
        #![trigger results.len()]
        results.len() == navaids.len() && (forall|i: int|
            0 <= i < navaids.len() ==> navaid_outcome(navaids[i], region, #[trigger] results[i]))
            && r.navaids@ == somes(results) && r.skipped.navaids as int == nones(results);
    let p = |x: Navaid| x.region@ == region;
    assert forall|i: int| 0 <= i < rn.len() implies (#[trigger] rn[i] matches Some(x) ==> p(x)) by {
        assert(navaid_outcome(navaids[i], region, rn[i]));
    }
    lemma_somes_satisfy(rn, p);
}

/// Converts a fetched country's records. Airports without an ICAO code
/// are keyed `"{country}-{index}"`; `region` is stamped on navaids.
pub fn convert_country(
    airports: &[model::Airport],
    navaids: &[model::Navaid],
    airspaces: &[model::Airspace],
    region: &str,
) -> (r: OpenAipData)
    ensures
        converted_in_order(
            airports@,
            r.airports@,
            r.skipped.airports as int,
            |a: model::Airport, i: int, o: Option<Airport>| airport_outcome(a, fallback_id(a, i), o),
        ),
        converted_in_order(
            navaids@,
            r.navaids@,
            r.skipped.navaids as int,
            |n: model::Navaid, i: int, o: Option<Navaid>| navaid_outcome(n, region@, o),
        ),
        converted_in_order(
            airspaces@,
            r.airspaces@,
            r.skipped.airspaces as int,
            |a: model::Airspace, i: int, o: Option<AirspaceVolume>| airspace_outcome(a, o),
        ),
{
    let mut out_airports: Vec<Airport> = Vec::new();
    let mut skipped_airports: usize = 0;
    let ghost mut results: Seq<Option<Airport>> = Seq::empty();
    let mut i: usize = 0;
    while i < airports.len()
        invariant
            0 <= i <= airports@.len(),
            results.len() == i,
            forall|k: int|
                0 <= k < i ==> airport_outcome(
                    airports@[k],
                    fallback_id(airports@[k], k),
                    #[trigger] results[k],
                ),
            out_airports@ == somes(results),
            skipped_airports == nones(results),
        decreases airports.len() - i,
    {
        let mut key = to_chars(airports[i].country.as_str());
        key.push('-');
        let digits = format_u64(i as u64);
        let mut k2 = key;
        crate::text::push_all(&mut k2, &digits);
        assert(k2@ =~= fallback_id(airports@[i as int], i as int));
        let converted = airport(&airports[i], &string_from(&k2));
        let ghost before = results;
        proof {
            results = results.push(converted);
            lemma_nones_bound(before);
            assert(results.drop_last() =~= before);
        }
        match converted {
            Some(c) => out_airports.push(c),
            None => skipped_airports = skipped_airports + 1,
        }
        i = i + 1;
    }
    let mut out_navaids: Vec<Navaid> = Vec::new();
    let mut skipped_navaids: usize = 0;
    let ghost mut nres: Seq<Option<Navaid>> = Seq::empty();
    let mut j: usize = 0;
    while j < navaids.len()
        invariant
            0 <= j <= navaids@.len(),
            nres.len() == j,
            forall|k: int| 0 <= k < j ==> navaid_outcome(navaids@[k], region@, #[trigger] nres[k]),
            out_navaids@ == somes(nres),
            skipped_navaids == nones(nres),
        decreases navaids.len() - j,
    {
        let converted = navaid(&navaids[j], region);
        let ghost before = nres;
        proof {
            nres = nres.push(converted);
            lemma_nones_bound(before);
            assert(nres.drop_last() =~= before);
        }
        match converted {
            Some(c) => out_navaids.push(c),
            None => skipped_navaids = skipped_navaids + 1,
        }
        j = j + 1;
    }
    let mut out_airspaces: Vec<AirspaceVolume> = Vec::new();
    let mut skipped_airspaces: usize = 0;
    let ghost mut sres: Seq<Option<AirspaceVolume>> = Seq::empty();
    let mut m: usize = 0;
    while m < airspaces.len()
        invariant
            0 <= m <= airspaces@.len(),
            sres.len() == m,
            forall|k: int| 0 <= k < m ==> airspace_outcome(airspaces@[k], #[trigger] sres[k]),
            out_airspaces@ == somes(sres),
            skipped_airspaces == nones(sres),
        decreases airspaces.len() - m,
    {
        let converted = airspace(&airspaces[m]);
        let ghost before = sres;
        proof {
            sres = sres.push(converted);
            lemma_nones_bound(before);
            assert(sres.drop_last() =~= before);
        }
        match converted {
            Some(c) => out_airspaces.push(c),
            None => skipped_airspaces = skipped_airspaces + 1,
        }
        m = m + 1;
    }
    let r = OpenAipData {
        airports: out_airports,
        navaids: out_navaids,
        airspaces: out_airspaces,
        skipped: Skipped {
            airports: skipped_airports,
            navaids: skipped_navaids,
            airspaces: skipped_airspaces,
        },
    };
    assert(results.len() == airports@.len());
    assert(nres.len() == navaids@.len());
    assert(sres.len() == airspaces@.len());
    r
}

/// A class is never promoted: whatever the ICAO class code, the result
/// is a class only for the codes 0 to 6, and then exactly the matching
/// one of A to G.
pub proof fn lemma_class_never_promoted(icao_class: Option<i32>)
    ensures
        airspace_class_spec(icao_class) is Some <==> (icao_class matches Some(c) && 0 <= c <= 6),
{
}

} // verus!
