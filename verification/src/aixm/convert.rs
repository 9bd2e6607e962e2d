//! AIXM 4.5 feature field maps → airports, navaids and waypoints.
use crate::aixm::airspace::FEET_PER_METRE_E9;
use crate::aixm::coord::{coord_spec, parse_lat, parse_lon};
use crate::aixm::fields::{fields_view, get, get_spec, Fields};
use crate::decimal::{dec_scaled, decimal_scaled, float_below, float_below_exec};
use crate::domain::{Airport, AirportType, Navaid, NavaidType, Waypoint};
use crate::openaip::sat_i32;
use crate::aixm::airspace::sat_u32;
use crate::text::{opt_view, str_eq, string_from, to_chars};
use vstd::prelude::*;

verus! {

pub type FieldsView = Seq<(Seq<char>, Seq<char>)>;

/// Field elevation in whole feet: `valElev` in the unit `uomDistVer`
/// (`M` converted, anything else feet).
pub open spec fn elevation_spec(f: FieldsView) -> Option<i32> {
    match get_spec(f, "valElev"@) {
        Some(t) => {
            let v = if get_spec(f, "uomDistVer"@) == Some("M"@) {
                dec_scaled(t, FEET_PER_METRE_E9 as nat, 9)
            } else {
                dec_scaled(t, 1, 0)
            };
            match v {
                Some(x) => Some(sat_i32(x)),
                None => None,
            }
        },
        None => None,
    }
}

fn is_value(o: &Option<String>, lit: &str) -> (r: bool)
    ensures
        r == (opt_view(*o) == Some(lit@)),
{
    match o {
        Some(s) => str_eq(s.as_str(), lit),
        None => false,
    }
}

fn sat_i32_exec(x: i128) -> (r: i32)
    ensures
        r == sat_i32(x as int),
{
    if x < -0x8000_0000 {
        -0x8000_0000
    } else if x > 0x7FFF_FFFF {
        0x7FFF_FFFF
    } else {
        x as i32
    }
}

fn sat_u32_exec(x: i128) -> (r: u32)
    ensures
        r == sat_u32(x as int),
{
    if x < 0 {
        0
    } else if x > 0xFFFF_FFFF {
        0xFFFF_FFFF
    } else {
        x as u32
    }
}

pub fn elevation_ft(f: &Fields) -> (r: Option<i32>)
    ensures
        r == elevation_spec(fields_view(f@)),
{
    let t = match get(f, "valElev") {
        Some(t) => to_chars(t.as_str()),
        None => return None,
    };
    let v = if is_value(&get(f, "uomDistVer"), "M") {
        decimal_scaled(&t, FEET_PER_METRE_E9, 9)
    } else {
        decimal_scaled(&t, 1, 0)
    };
    match v {
        Some(x) => Some(sat_i32_exec(x)),
        None => None,
    }
}

/// `Ahp` `codeType`: `HP` is a heliport; everything else (`AD`, `AH`)
/// an airport.
pub fn airport_type(code: Option<&str>) -> (r: AirportType)
    ensures
        r == match code {
            Some(c) => if c@ == "HP"@ {
                AirportType::Heliport
            } else {
                AirportType::Airport
            },
            None => AirportType::Airport,
        },
{
    match code {
        Some(c) => if str_eq(c, "HP") {
            AirportType::Heliport
        } else {
            AirportType::Airport
        },
        None => AirportType::Airport,
    }
}

/// The coordinate in a field, when the field is there and reads.
pub open spec fn field_coord(f: FieldsView, key: Seq<char>, deg_digits: nat) -> Option<i64> {
    match get_spec(f, key) {
        Some(t) => coord_spec(t, deg_digits),
        None => None,
    }
}

fn field_lat(f: &Fields, key: &str) -> (r: Option<i64>)
    ensures
        r == field_coord(fields_view(f@), key@, 2),
{
    match get(f, key) {
        Some(t) => parse_lat(t.as_str()),
        None => None,
    }
}

fn field_lon(f: &Fields, key: &str) -> (r: Option<i64>)
    ensures
        r == field_coord(fields_view(f@), key@, 3),
{
    match get(f, key) {
        Some(t) => parse_lon(t.as_str()),
        None => None,
    }
}

/// The airport's ICAO id: the `AhpUid` `codeId`, else the top-level
/// `codeIcao` copy.
pub open spec fn icao_spec(f: FieldsView) -> Option<Seq<char>> {
    match get_spec(f, "codeId"@) {
        Some(c) => Some(c),
        None => get_spec(f, "codeIcao"@),
    }
}

pub open spec fn airport_fields_outcome(f: FieldsView, r: Option<Airport>) -> bool {
    match (icao_spec(f), field_coord(f, "geoLat"@, 2), field_coord(f, "geoLong"@, 3)) {
        (Some(icao), Some(lat), Some(lon)) => r matches Some(a) && a.icao@ == icao && a.faa_id is None
            && opt_view(a.iata) == get_spec(f, "codeIata"@) && a.name@ == (match get_spec(
            f,
            "txtName"@,
        ) {
            Some(n) => n,
            None => Seq::empty(),
        }) && a.lat == lat && a.lon == lon && a.elevation_ft == (match elevation_spec(f) {
            Some(e) => e,
            None => 0,
        }) && a.airport_type == (if get_spec(f, "codeType"@) == Some("HP"@) {
            AirportType::Heliport
        } else {
            AirportType::Airport
        }) && a.fuel_types@.len() == 0,
        _ => r is None,
    }
}

/// An airport from an `Ahp` field map; `None` without an ICAO id or a
/// position.
pub fn airport_from_fields(f: &Fields) -> (r: Option<Airport>)
    ensures
        airport_fields_outcome(fields_view(f@), r),
{
    let icao = match get(f, "codeId") {
        Some(c) => c,
        None => match get(f, "codeIcao") {
            Some(c) => c,
            None => return None,
        },
    };
    let lat = match field_lat(f, "geoLat") {
        Some(x) => x,
        None => return None,
    };
    let lon = match field_lon(f, "geoLong") {
        Some(x) => x,
        None => return None,
    };
    let name = match get(f, "txtName") {
        Some(n) => n,
        None => string_from(&Vec::new()),
    };
    let elevation_ft = match elevation_ft(f) {
        Some(e) => e,
        None => 0,
    };
    let code_type = get(f, "codeType");
    let airport_type = match &code_type {
        Some(c) => airport_type(Some(c.as_str())),
        None => airport_type(None),
    };
    Some(
        Airport {
            icao,
            faa_id: None,
            iata: get(f, "codeIata"),
            name,
            lat,
            lon,
            elevation_ft,
            airport_type,
            fuel_types: Vec::new(),
        },
    )
}

pub open spec fn navaid_type_spec(tag: Seq<char>) -> Option<NavaidType> {
    if tag == "Vor"@ {
        Some(NavaidType::Vor)
    } else if tag == "Ndb"@ {
        Some(NavaidType::Ndb)
    } else if tag == "Dme"@ {
        Some(NavaidType::Dme)
    } else if tag == "Tcn"@ {
        Some(NavaidType::Tacan)
    } else {
        None
    }
}

/// A navaid feature tag → type. Co-located VOR/DME pairs are separate
/// features in AIXM 4.5, so each maps to its own base type.
pub fn navaid_type(tag: &str) -> (r: Option<NavaidType>)
    ensures
        r == navaid_type_spec(tag@),
{
    if str_eq(tag, "Vor") {
        Some(NavaidType::Vor)
    } else if str_eq(tag, "Ndb") {
        Some(NavaidType::Ndb)
    } else if str_eq(tag, "Dme") {
        Some(NavaidType::Dme)
    } else if str_eq(tag, "Tcn") {
        Some(NavaidType::Tacan)
    } else {
        None
    }
}

/// Frequency in kHz from `valFreq` and `uomFreq`: `KHZ` as is, `MHZ`
/// times 1000, and without a unit a value below 100 is taken for MHz.
pub open spec fn freq_khz_spec(f: FieldsView) -> Option<u32> {
    match get_spec(f, "valFreq"@) {
        Some(t) => {
            let uom = get_spec(f, "uomFreq"@);
            let v = if uom == Some("KHZ"@) {
                dec_scaled(t, 1, 0)
            } else if uom == Some("MHZ"@) {
                dec_scaled(t, 1000, 0)
            } else if float_below(t, 100) {
                dec_scaled(t, 1000, 0)
            } else {
                dec_scaled(t, 1, 0)
            };
            match v {
                Some(x) => Some(sat_u32(x)),
                None => None,
            }
        },
        None => None,
    }
}

pub fn freq_khz(f: &Fields) -> (r: Option<u32>)
    ensures
        r == freq_khz_spec(fields_view(f@)),
{
    let t = match get(f, "valFreq") {
        Some(t) => to_chars(t.as_str()),
        None => return None,
    };
    let uom = get(f, "uomFreq");
    let v = if is_value(&uom, "KHZ") {
        decimal_scaled(&t, 1, 0)
    } else if is_value(&uom, "MHZ") {
        decimal_scaled(&t, 1000, 0)
    } else if float_below_exec(&t, 100) {
        decimal_scaled(&t, 1000, 0)
    } else {
        decimal_scaled(&t, 1, 0)
    };
    match v {
        Some(x) => Some(sat_u32_exec(x)),
        None => None,
    }
}

pub open spec fn navaid_fields_outcome(
    tag: Seq<char>,
    f: FieldsView,
    region: Seq<char>,
    r: Option<Navaid>,
) -> bool {
    match (
        navaid_type_spec(tag),
        get_spec(f, "codeId"@),
        field_coord(f, "geoLat"@, 2),
        field_coord(f, "geoLong"@, 3),
    ) {
        (Some(t), Some(ident), Some(lat), Some(lon)) => r matches Some(n) && n.ident@ == ident
            && n.navaid_type == t && n.lat == lat && n.lon == lon && n.elevation_ft
            == elevation_spec(f) && n.freq_khz == freq_khz_spec(f) && n.region@ == region,
        _ => r is None,
    }
}

/// A navaid from a `Vor`/`Ndb`/`Dme`/`Tcn` feature; `region` is the
/// dataset's ICAO region (AIXM carries none per feature).
pub fn navaid_from_fields(tag: &str, f: &Fields, region: &str) -> (r: Option<Navaid>)
    ensures
        navaid_fields_outcome(tag@, fields_view(f@), region@, r),
{
    let navaid_type = match navaid_type(tag) {
        Some(t) => t,
        None => return None,
    };
    let ident = match get(f, "codeId") {
        Some(i) => i,
        None => return None,
    };
    let lat = match field_lat(f, "geoLat") {
        Some(x) => x,
        None => return None,
    };
    let lon = match field_lon(f, "geoLong") {
        Some(x) => x,
        None => return None,
    };
    Some(
        Navaid {
            ident,
            navaid_type,
            lat,
            lon,
            elevation_ft: elevation_ft(f),
            freq_khz: freq_khz(f),
            region: string_from(&to_chars(region)),
        },
    )
}

pub open spec fn waypoint_fields_outcome(f: FieldsView, region: Seq<char>, r: Option<Waypoint>) -> bool {
    match (get_spec(f, "codeId"@), field_coord(f, "geoLat"@, 2), field_coord(f, "geoLong"@, 3)) {
        (Some(ident), Some(lat), Some(lon)) => r matches Some(w) && w.ident@ == ident && w.lat == lat
            && w.lon == lon && w.region@ == region,
        _ => r is None,
    }
}

/// A waypoint from a `Dpn` (designated point) feature.
pub fn waypoint_from_fields(f: &Fields, region: &str) -> (r: Option<Waypoint>)
    ensures
        waypoint_fields_outcome(fields_view(f@), region@, r),
{
    let ident = match get(f, "codeId") {
        Some(i) => i,
        None => return None,
    };
    let lat = match field_lat(f, "geoLat") {
        Some(x) => x,
        None => return None,
    };
    let lon = match field_lon(f, "geoLong") {
        Some(x) => x,
        None => return None,
    };
    Some(Waypoint { ident, lat, lon, region: string_from(&to_chars(region)) })
}

} // verus!
