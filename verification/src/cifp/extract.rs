//! Field extraction: [`RawRecord`] → typed rows → domain types.
//!
//! Fields are fixed byte ranges of the 132-byte record. A record must be
//! at least that long, and the byte offsets an extractor slices at must
//! fall on character boundaries (they always do for ASCII records).
use crate::cifp::decode::{
    dms_spec, latitude, longitude, ndb_frequency_khz, non_empty, path_and_term,
    path_and_term_spec, signed_int, tenths_of_degree, tenths_spec, turn_direction,
    turn_direction_spec, uint, vor_frequency_khz,
};
use crate::cifp::parser::CifpError;
use crate::cifp::record::{RawRecord, RecordCategory, RECORD_LENGTH};
use crate::domain::{
    Airport, AirportType, Navaid, NavaidType, PathAndTerm, ProcedureKind, TurnDirection, Waypoint,
};
use crate::text::{
    lit_chars, opt_view, parse_i32_spec, parse_u32_spec, slice_chars, starts_with_lit, string_from, to_chars,
    trim, trim_bounds, trimmed_chars,
};
use vstd::prelude::*;
use vstd::string::*;
use vstd::utf8::{
    decode_utf8, encode_utf8, encode_utf8_decode_utf8, encode_utf8_valid_utf8, is_char_boundary,
    is_char_boundary_iff_not_is_continuation_byte, is_char_boundary_start_end_of_seq,
};

verus! {

/// The chars whose UTF-8 encoding is bytes `start..end` of `raw`'s.
pub open spec fn fld(raw: Seq<char>, start: int, end: int) -> Seq<char> {
    decode_utf8(encode_utf8(raw).subrange(start, end))
}

/// The trimmed field.
pub open spec fn tf(raw: Seq<char>, start: int, end: int) -> Seq<char> {
    trim(fld(raw, start, end))
}

/// The record holds at least the fixed record length in bytes.
pub open spec fn long_enough(raw: Seq<char>) -> bool {
    encode_utf8(raw).len() >= 132
}

/// Every byte offset in `cuts` is a character boundary of `raw`.
pub open spec fn cuts_ok(raw: Seq<char>, cuts: Seq<int>) -> bool {
    forall|i: int| 0 <= i < cuts.len() ==> is_char_boundary(encode_utf8(raw), #[trigger] cuts[i])
}

/// `Some(t)` for a non-empty trimmed field, else `None`.
pub open spec fn nonempty_spec(t: Seq<char>) -> Option<Seq<char>> {
    if t.len() > 0 {
        Some(t)
    } else {
        None
    }
}

/// The error is `MissingField` naming `name`.
pub open spec fn missing(r: CifpError, name: &str) -> bool {
    r matches CifpError::MissingField(n) && n@ == name@
}

/// The error is `InvalidField` naming `name`.
pub open spec fn invalid(r: CifpError, name: &str) -> bool {
    r matches CifpError::InvalidField(n) && n@ == name@
}

/// The first char of a one-byte field, or a blank when there is none.
pub open spec fn first_or_blank(t: Seq<char>) -> char {
    if t.len() > 0 {
        t[0]
    } else {
        ' '
    }
}

fn record_length(line: &str) -> (n: usize)
    ensures
        n == encode_utf8(line@).len(),
{
    let b = line.as_bytes();
    proof {
        assert(line.spec_bytes() == encode_utf8(line@));
    }
    b.len()
}

/// Bytes `start..end` of `line` as a `str`.
fn field(line: &str, start: usize, end: usize) -> (r: &str)
    requires
        start <= end <= encode_utf8(line@).len(),
        is_char_boundary(encode_utf8(line@), start as int),
        is_char_boundary(encode_utf8(line@), end as int),
    ensures
        r@ == fld(line@, start as int, end as int),
{
    let ghost b = encode_utf8(line@);
    proof {
        encode_utf8_valid_utf8(line@);
        assert(line.spec_bytes() == b);
    }
    let (pre, _) = line.split_at(end);
    let ghost pb = encode_utf8(pre@);
    proof {
        encode_utf8_valid_utf8(pre@);
        assert(pre.spec_bytes() == pb);
        assert(pb =~= b.subrange(0, end as int));
        if start == 0 {
        } else if start == end {
            is_char_boundary_start_end_of_seq(pb);
        } else {
            is_char_boundary_iff_not_is_continuation_byte(b, start as int);
            is_char_boundary_iff_not_is_continuation_byte(pb, start as int);
            assert(pb[start as int] == b[start as int]);
        }
    }
    let (_, r) = pre.split_at(start);
    proof {
        assert(r.spec_bytes() == encode_utf8(r@));
        assert(encode_utf8(r@) =~= b.subrange(start as int, end as int));
        encode_utf8_decode_utf8(r@);
    }
    r
}

/// The first char of `f`, or a blank.
fn first_char(f: &str) -> (c: char)
    ensures
        c == first_or_blank(f@),
{
    let v = to_chars(f);
    if v.len() > 0 {
        v[0]
    } else {
        ' '
    }
}

/// The airport record's byte offsets.
pub open spec fn airport_cuts() -> Seq<int> {
    seq![6, 10, 13, 16, 32, 41, 51, 56, 61, 93, 123]
}

/// What an Airport Primary Record (PA) of at least the record length
/// yields: the first missing or undecodable field in field order, else
/// the airport.
pub open spec fn airport_outcome(raw: Seq<char>, r: Result<Airport, CifpError>) -> bool {
    let icao = tf(raw, 6, 10);
    let lat = dms_spec(tf(raw, 32, 41), 'N', 'S', 2);
    let lon = dms_spec(tf(raw, 41, 51), 'E', 'W', 3);
    let elev = parse_i32_spec(tf(raw, 56, 61));
    let name = tf(raw, 93, 123);
    if icao.len() == 0 {
        r matches Err(e) && missing(e, "Airport ICAO Identifier")
    } else if lat is None {
        r matches Err(e) && invalid(e, "Airport Reference Pt. Latitude")
    } else if lon is None {
        r matches Err(e) && invalid(e, "Airport Reference Pt. Longitude")
    } else if elev is None {
        r matches Err(e) && invalid(e, "Airport Elevation")
    } else if name.len() == 0 {
        r matches Err(e) && missing(e, "Airport Name")
    } else {
        r matches Ok(a) && a.icao@ == icao && a.faa_id is None && opt_view(a.iata)
            == nonempty_spec(tf(raw, 13, 16)) && a.name@ == name && lat == Some(a.lat) && lon
            == Some(a.lon) && elev == Some(a.elevation_ft) && a.airport_type
            == AirportType::Airport && a.fuel_types@.len() == 0
    }
}

/// Airport Primary Records (PA). `faa_id` and `fuel_types` are
/// not in the CIFP and are left empty.
pub fn extract_airport(record: &RawRecord) -> (r: Result<Airport, CifpError>)
    requires
        record.category == RecordCategory::Airport && long_enough(record.raw@) ==> cuts_ok(
            record.raw@,
            airport_cuts(),
        ),
    ensures
        record.category != RecordCategory::Airport ==> r matches Err(CifpError::WrongCategory),
        record.category == RecordCategory::Airport && !long_enough(record.raw@) ==> r matches Err(
            CifpError::LineTooShort,
        ),
        record.category == RecordCategory::Airport && long_enough(record.raw@) ==> airport_outcome(
            record.raw@,
            r,
        ),
{
    if record.category != RecordCategory::Airport {
        return Err(CifpError::WrongCategory);
    }
    let line = record.raw.as_str();
    if record_length(line) < RECORD_LENGTH {
        return Err(CifpError::LineTooShort);
    }
    proof {
        let c = airport_cuts();
        assert(c[0] == 6 && c[1] == 10 && c[2] == 13 && c[3] == 16 && c[4] == 32 && c[5] == 41
            && c[6] == 51 && c[7] == 56 && c[8] == 61 && c[9] == 93 && c[10] == 123);
    }
    let icao = match non_empty(field(line, 6, 10)) {
        Some(s) => s,
        None => return Err(CifpError::MissingField("Airport ICAO Identifier")),
    };
    let iata = non_empty(field(line, 13, 16));
    let lat = match latitude(field(line, 32, 41)) {
        Some(x) => x,
        None => return Err(CifpError::InvalidField("Airport Reference Pt. Latitude")),
    };
    let lon = match longitude(field(line, 41, 51)) {
        Some(x) => x,
        None => return Err(CifpError::InvalidField("Airport Reference Pt. Longitude")),
    };
    let elevation_ft = match signed_int(field(line, 56, 61)) {
        Some(x) => x,
        None => return Err(CifpError::InvalidField("Airport Elevation")),
    };
    let name = match non_empty(field(line, 93, 123)) {
        Some(s) => s,
        None => return Err(CifpError::MissingField("Airport Name")),
    };
    Ok(
        Airport {
            icao,
            faa_id: None,
            iata,
            name,
            lat,
            lon,
            elevation_ft,
            airport_type: AirportType::Airport,
            fuel_types: Vec::new(),
        },
    )
}


/// One runway *end* as coded by a single CIFP PG record; pair them with
/// [`crate::cifp::runways::pair_runway_ends`] to build runways.
#[derive(Debug, Clone, PartialEq)]
pub struct CifpRunwayEnd {
    pub airport_icao: String,
    /// Runway number + optional L/C/R suffix, e.g. `"28L"` (the `"RW"`
    /// prefix stripped).
    pub ident: String,
    pub lat: i64,
    pub lon: i64,
    pub length_ft: u32,
    pub width_ft: u32,
    /// Thousandths of a degree.
    pub magnetic_bearing_mdeg: Option<i64>,
}

pub open spec fn runway_cuts() -> Seq<int> {
    seq![6, 10, 13, 18, 22, 27, 31, 32, 41, 51, 77, 80]
}

/// A runway identifier field: trimmed, a leading `"RW"` dropped, trimmed
/// again.
pub open spec fn runway_ident_spec(t: Seq<char>) -> Seq<char> {
    if t.len() >= 2 && t.subrange(0, 2) == "RW"@ {
        trim(t.skip(2))
    } else {
        trim(t)
    }
}

pub open spec fn runway_outcome(raw: Seq<char>, r: Result<CifpRunwayEnd, CifpError>) -> bool {
    let icao = tf(raw, 6, 10);
    let ident = runway_ident_spec(tf(raw, 13, 18));
    let length = parse_u32_spec(tf(raw, 22, 27));
    let lat = dms_spec(tf(raw, 32, 41), 'N', 'S', 2);
    let lon = dms_spec(tf(raw, 41, 51), 'E', 'W', 3);
    if icao.len() == 0 {
        r matches Err(e) && missing(e, "Airport ICAO Identifier")
    } else if ident.len() == 0 {
        r matches Err(e) && missing(e, "Runway Identifier")
    } else if length is None {
        r matches Err(e) && invalid(e, "Runway Length")
    } else if lat is None {
        r matches Err(e) && invalid(e, "Runway Latitude")
    } else if lon is None {
        r matches Err(e) && invalid(e, "Runway Longitude")
    } else {
        r matches Ok(x) && x.airport_icao@ == icao && x.ident@ == ident && length == Some(
            x.length_ft,
        ) && x.magnetic_bearing_mdeg == tenths_spec(tf(raw, 27, 31)) && lat == Some(x.lat)
            && lon == Some(x.lon) && x.width_ft == match parse_u32_spec(tf(raw, 77, 80)) {
            Some(w) => w,
            None => 0,
        }
    }
}

/// Runway Primary Records (PG). The width defaults to 0 when
/// blank or undecodable; the bearing is optional.
pub fn extract_runway_end(record: &RawRecord) -> (r: Result<CifpRunwayEnd, CifpError>)
    requires
        record.category == RecordCategory::Runway && long_enough(record.raw@) ==> cuts_ok(
            record.raw@,
            runway_cuts(),
        ),
    ensures
        record.category != RecordCategory::Runway ==> r matches Err(CifpError::WrongCategory),
        record.category == RecordCategory::Runway && !long_enough(record.raw@) ==> r matches Err(
            CifpError::LineTooShort,
        ),
        record.category == RecordCategory::Runway && long_enough(record.raw@) ==> runway_outcome(
            record.raw@,
            r,
        ),
{
    if record.category != RecordCategory::Runway {
        return Err(CifpError::WrongCategory);
    }
    let line = record.raw.as_str();
    if record_length(line) < RECORD_LENGTH {
        return Err(CifpError::LineTooShort);
    }
    proof {
        let c = runway_cuts();
        assert(c[0] == 6 && c[1] == 10 && c[2] == 13 && c[3] == 18 && c[4] == 22 && c[5] == 27
            && c[6] == 31 && c[7] == 32 && c[8] == 41 && c[9] == 51 && c[10] == 77 && c[11]
            == 80);
    }
    let airport_icao = match non_empty(field(line, 6, 10)) {
        Some(s) => s,
        None => return Err(CifpError::MissingField("Airport ICAO Identifier")),
    };
    let raw_ident = trimmed_chars(field(line, 13, 18));
    let ident_chars = if starts_with_lit(&raw_ident, "RW") {
        proof {
            reveal_strlit("RW");
        }
        let rest = slice_chars(&raw_ident, 2, raw_ident.len());
        let (lo, hi) = trim_bounds(&rest, 0, rest.len());
        proof {
            assert(rest@ =~= raw_ident@.skip(2));
            assert(rest@.subrange(0, rest@.len() as int) =~= rest@);
        }
        slice_chars(&rest, lo, hi)
    } else {
        proof {
            reveal_strlit("RW");
        }
        let (lo, hi) = trim_bounds(&raw_ident, 0, raw_ident.len());
        proof {
            assert(raw_ident@.subrange(0, raw_ident@.len() as int) =~= raw_ident@);
        }
        slice_chars(&raw_ident, lo, hi)
    };
    if ident_chars.len() == 0 {
        return Err(CifpError::MissingField("Runway Identifier"));
    }
    let ident = string_from(&ident_chars);
    let length_ft = match uint(field(line, 22, 27)) {
        Some(x) => x,
        None => return Err(CifpError::InvalidField("Runway Length")),
    };
    let magnetic_bearing_mdeg = tenths_of_degree(field(line, 27, 31));
    let lat = match latitude(field(line, 32, 41)) {
        Some(x) => x,
        None => return Err(CifpError::InvalidField("Runway Latitude")),
    };
    let lon = match longitude(field(line, 41, 51)) {
        Some(x) => x,
        None => return Err(CifpError::InvalidField("Runway Longitude")),
    };
    let width_ft = match uint(field(line, 77, 80)) {
        Some(w) => w,
        None => 0,
    };
    Ok(
        CifpRunwayEnd {
            airport_icao,
            ident,
            lat,
            lon,
            length_ft,
            width_ft,
            magnetic_bearing_mdeg,
        },
    )
}

pub open spec fn vhf_cuts() -> Seq<int> {
    seq![10, 12, 13, 17, 22, 27, 32, 41, 51, 55, 79, 84]
}

pub open spec fn vhf_outcome(raw: Seq<char>, r: Result<Navaid, CifpError>) -> bool {
    let ident = tf(raw, 13, 17);
    let region = tf(raw, 10, 12);
    let lat = dms_spec(tf(raw, 32, 41), 'N', 'S', 2);
    let lon = dms_spec(tf(raw, 41, 51), 'E', 'W', 3);
    if ident.len() == 0 {
        r matches Err(e) && missing(e, "VOR Identifier")
    } else if region.len() == 0 {
        r matches Err(e) && missing(e, "ICAO Region Code")
    } else if lat is None {
        r matches Err(e) && invalid(e, "VOR Latitude")
    } else if lon is None {
        r matches Err(e) && invalid(e, "VOR Longitude")
    } else {
        r matches Ok(n) && n.ident@ == ident && n.region@ == region && lat == Some(n.lat) && lon
            == Some(n.lon) && n.elevation_ft == parse_i32_spec(tf(raw, 79, 84)) && n.freq_khz
            == match parse_u32_spec(tf(raw, 22, 27)) {
            Some(x) => if x * 10 <= u32::MAX {
                Some((x * 10) as u32)
            } else {
                None
            },
            None => None,
        } && n.navaid_type == if tf(raw, 51, 55).len() > 0 {
            NavaidType::VorDme
        } else {
            NavaidType::Vor
        }
    }
}

/// VHF NAVAID Primary Records (Section `D` except `B`). The type
/// is inferred from whether the DME Ident sub-field is populated, which
/// collapses VOR/DME and VORTAC together under `VorDme`.
pub fn extract_vhf_navaid(record: &RawRecord) -> (r: Result<Navaid, CifpError>)
    requires
        record.category == RecordCategory::VhfNavaid && long_enough(record.raw@) ==> cuts_ok(
            record.raw@,
            vhf_cuts(),
        ),
    ensures
        record.category != RecordCategory::VhfNavaid ==> r matches Err(CifpError::WrongCategory),
        record.category == RecordCategory::VhfNavaid && !long_enough(record.raw@) ==> r matches Err(
            CifpError::LineTooShort,
        ),
        record.category == RecordCategory::VhfNavaid && long_enough(record.raw@) ==> vhf_outcome(
            record.raw@,
            r,
        ),
{
    if record.category != RecordCategory::VhfNavaid {
        return Err(CifpError::WrongCategory);
    }
    let line = record.raw.as_str();
    if record_length(line) < RECORD_LENGTH {
        return Err(CifpError::LineTooShort);
    }
    proof {
        let c = vhf_cuts();
        assert(c[0] == 10 && c[1] == 12 && c[2] == 13 && c[3] == 17 && c[4] == 22 && c[5] == 27
            && c[6] == 32 && c[7] == 41 && c[8] == 51 && c[9] == 55 && c[10] == 79 && c[11]
            == 84);
    }
    let ident = match non_empty(field(line, 13, 17)) {
        Some(s) => s,
        None => return Err(CifpError::MissingField("VOR Identifier")),
    };
    let region = match non_empty(field(line, 10, 12)) {
        Some(s) => s,
        None => return Err(CifpError::MissingField("ICAO Region Code")),
    };
    let freq_khz = vor_frequency_khz(field(line, 22, 27));
    let lat = match latitude(field(line, 32, 41)) {
        Some(x) => x,
        None => return Err(CifpError::InvalidField("VOR Latitude")),
    };
    let lon = match longitude(field(line, 41, 51)) {
        Some(x) => x,
        None => return Err(CifpError::InvalidField("VOR Longitude")),
    };
    let has_dme = non_empty(field(line, 51, 55)).is_some();
    let elevation_ft = signed_int(field(line, 79, 84));
    Ok(
        Navaid {
            ident,
            navaid_type: if has_dme {
                NavaidType::VorDme
            } else {
                NavaidType::Vor
            },
            lat,
            lon,
            elevation_ft,
            freq_khz,
            region,
        },
    )
}

pub open spec fn ndb_cuts() -> Seq<int> {
    seq![10, 12, 13, 17, 22, 27, 32, 41, 51]
}

pub open spec fn ndb_outcome(raw: Seq<char>, r: Result<Navaid, CifpError>) -> bool {
    let ident = tf(raw, 13, 17);
    let region = tf(raw, 10, 12);
    let lat = dms_spec(tf(raw, 32, 41), 'N', 'S', 2);
    let lon = dms_spec(tf(raw, 41, 51), 'E', 'W', 3);
    if ident.len() == 0 {
        r matches Err(e) && missing(e, "NDB Identifier")
    } else if region.len() == 0 {
        r matches Err(e) && missing(e, "ICAO Region Code")
    } else if lat is None {
        r matches Err(e) && invalid(e, "NDB Latitude")
    } else if lon is None {
        r matches Err(e) && invalid(e, "NDB Longitude")
    } else {
        r matches Ok(n) && n.ident@ == ident && n.region@ == region && lat == Some(n.lat) && lon
            == Some(n.lon) && n.elevation_ft is None && n.navaid_type == NavaidType::Ndb
            && n.freq_khz == match parse_u32_spec(tf(raw, 22, 27)) {
            Some(x) => Some((x / 10) as u32),
            None => None,
        }
    }
}

/// NDB NAVAID Primary Records (airport `PN` or enroute `DB`,
/// which share this layout).
pub fn extract_ndb_navaid(record: &RawRecord) -> (r: Result<Navaid, CifpError>)
    requires
        record.category == RecordCategory::NdbNavaid && long_enough(record.raw@) ==> cuts_ok(
            record.raw@,
            ndb_cuts(),
        ),
    ensures
        record.category != RecordCategory::NdbNavaid ==> r matches Err(CifpError::WrongCategory),
        record.category == RecordCategory::NdbNavaid && !long_enough(record.raw@) ==> r matches Err(
            CifpError::LineTooShort,
        ),
        record.category == RecordCategory::NdbNavaid && long_enough(record.raw@) ==> ndb_outcome(
            record.raw@,
            r,
        ),
{
    if record.category != RecordCategory::NdbNavaid {
        return Err(CifpError::WrongCategory);
    }
    let line = record.raw.as_str();
    if record_length(line) < RECORD_LENGTH {
        return Err(CifpError::LineTooShort);
    }
    proof {
        let c = ndb_cuts();
        assert(c[0] == 10 && c[1] == 12 && c[2] == 13 && c[3] == 17 && c[4] == 22 && c[5] == 27
            && c[6] == 32 && c[7] == 41 && c[8] == 51);
    }
    let ident = match non_empty(field(line, 13, 17)) {
        Some(s) => s,
        None => return Err(CifpError::MissingField("NDB Identifier")),
    };
    let region = match non_empty(field(line, 10, 12)) {
        Some(s) => s,
        None => return Err(CifpError::MissingField("ICAO Region Code")),
    };
    let freq_khz = ndb_frequency_khz(field(line, 22, 27));
    let lat = match latitude(field(line, 32, 41)) {
        Some(x) => x,
        None => return Err(CifpError::InvalidField("NDB Latitude")),
    };
    let lon = match longitude(field(line, 41, 51)) {
        Some(x) => x,
        None => return Err(CifpError::InvalidField("NDB Longitude")),
    };
    Ok(
        Navaid {
            ident,
            navaid_type: NavaidType::Ndb,
            lat,
            lon,
            elevation_ft: None,
            freq_khz,
            region,
        },
    )
}

pub open spec fn waypoint_cuts() -> Seq<int> {
    seq![10, 12, 13, 18, 32, 41, 51]
}

pub open spec fn waypoint_outcome(raw: Seq<char>, r: Result<Waypoint, CifpError>) -> bool {
    let ident = tf(raw, 13, 18);
    let region = tf(raw, 10, 12);
    let lat = dms_spec(tf(raw, 32, 41), 'N', 'S', 2);
    let lon = dms_spec(tf(raw, 41, 51), 'E', 'W', 3);
    if ident.len() == 0 {
        r matches Err(e) && missing(e, "Waypoint Identifier")
    } else if region.len() == 0 {
        r matches Err(e) && missing(e, "ICAO Region Code")
    } else if lat is None {
        r matches Err(e) && invalid(e, "Waypoint Latitude")
    } else if lon is None {
        r matches Err(e) && invalid(e, "Waypoint Longitude")
    } else {
        r matches Ok(w) && w.ident@ == ident && w.region@ == region && lat == Some(w.lat) && lon
            == Some(w.lon)
    }
}

/// Waypoint Primary Records (enroute `EA` and terminal `PC`,
/// which share this layout).
pub fn extract_waypoint(record: &RawRecord) -> (r: Result<Waypoint, CifpError>)
    requires
        record.category == RecordCategory::Waypoint && long_enough(record.raw@) ==> cuts_ok(
            record.raw@,
            waypoint_cuts(),
        ),
    ensures
        record.category != RecordCategory::Waypoint ==> r matches Err(CifpError::WrongCategory),
        record.category == RecordCategory::Waypoint && !long_enough(record.raw@) ==> r matches Err(
            CifpError::LineTooShort,
        ),
        record.category == RecordCategory::Waypoint && long_enough(record.raw@) ==> waypoint_outcome(
            record.raw@,
            r,
        ),
{
    if record.category != RecordCategory::Waypoint {
        return Err(CifpError::WrongCategory);
    }
    let line = record.raw.as_str();
    if record_length(line) < RECORD_LENGTH {
        return Err(CifpError::LineTooShort);
    }
    proof {
        let c = waypoint_cuts();
        assert(c[0] == 10 && c[1] == 12 && c[2] == 13 && c[3] == 18 && c[4] == 32 && c[5] == 41
            && c[6] == 51);
    }
    let ident = match non_empty(field(line, 13, 18)) {
        Some(s) => s,
        None => return Err(CifpError::MissingField("Waypoint Identifier")),
    };
    let region = match non_empty(field(line, 10, 12)) {
        Some(s) => s,
        None => return Err(CifpError::MissingField("ICAO Region Code")),
    };
    let lat = match latitude(field(line, 32, 41)) {
        Some(x) => x,
        None => return Err(CifpError::InvalidField("Waypoint Latitude")),
    };
    let lon = match longitude(field(line, 41, 51)) {
        Some(x) => x,
        None => return Err(CifpError::InvalidField("Waypoint Longitude")),
    };
    Ok(Waypoint { ident, lat, lon, region })
}

/// One SID/STAR/Approach leg record (PD/PE/PF primary), extracted but
/// not yet grouped into procedures.
#[derive(Debug, Clone, PartialEq)]
pub struct ProcedureLegRow {
    pub airport_icao: String,
    pub kind: ProcedureKind,
    pub procedure_ident: String,
    /// Route Type code: distinguishes runway/enroute transitions, the
    /// common route, approach transition (`'A'`) and missed approach
    /// (`'Z'`).
    pub route_type: char,
    /// Blank for legs on the common/missed-approach segment.
    pub transition_ident: String,
    pub seq: u32,
    pub fix_ident: String,
    pub path_and_term: PathAndTerm,
    pub turn_direction: Option<TurnDirection>,
    /// Thousandths of a degree.
    pub magnetic_course_mdeg: Option<i64>,
    pub altitude_desc: char,
    pub altitude1_ft: Option<u32>,
    pub altitude2_ft: Option<u32>,
    pub speed_limit_kt: Option<u32>,
}

pub open spec fn leg_cuts() -> Seq<int> {
    seq![6, 10, 13, 19, 20, 25, 26, 29, 34, 43, 44, 47, 49, 70, 74, 82, 83, 84, 89, 94, 99, 102]
}

pub open spec fn leg_outcome(raw: Seq<char>, kind: ProcedureKind, r: Result<ProcedureLegRow, CifpError>) -> bool {
    let icao = tf(raw, 6, 10);
    let ident = tf(raw, 13, 19);
    let seq_no = parse_u32_spec(tf(raw, 26, 29));
    if icao.len() == 0 {
        r matches Err(e) && missing(e, "Airport Identifier")
    } else if ident.len() == 0 {
        r matches Err(e) && missing(e, "SID/STAR/Approach Identifier")
    } else if seq_no is None {
        r matches Err(e) && invalid(e, "Sequence Number")
    } else {
        r matches Ok(x) && x.airport_icao@ == icao && x.kind == kind && x.procedure_ident@ == ident
            && x.route_type == first_or_blank(fld(raw, 19, 20)) && x.transition_ident@ == tf(
            raw,
            20,
            25,
        ) && seq_no == Some(x.seq) && x.fix_ident@ == tf(raw, 29, 34) && x.path_and_term
            == path_and_term_spec(tf(raw, 47, 49)) && x.turn_direction == turn_direction_spec(
            tf(raw, 43, 44),
        ) && x.magnetic_course_mdeg == tenths_spec(tf(raw, 70, 74)) && x.altitude_desc
            == first_or_blank(fld(raw, 82, 83)) && x.altitude1_ft == parse_u32_spec(
            tf(raw, 84, 89),
        ) && x.altitude2_ft == parse_u32_spec(tf(raw, 89, 94)) && x.speed_limit_kt
            == parse_u32_spec(tf(raw, 99, 102))
    }
}

/// Airport SID/STAR/Approach Primary Records (PD/PE/PF).
pub fn extract_procedure_leg_row(record: &RawRecord) -> (r: Result<ProcedureLegRow, CifpError>)
    requires
        record.category is Procedure && long_enough(record.raw@) ==> cuts_ok(
            record.raw@,
            leg_cuts(),
        ),
    ensures
        !(record.category is Procedure) ==> r matches Err(CifpError::WrongCategory),
        record.category is Procedure && !long_enough(record.raw@) ==> r matches Err(
            CifpError::LineTooShort,
        ),
        record.category is Procedure && long_enough(record.raw@) ==> leg_outcome(
            record.raw@,
            record.category->Procedure_0,
            r,
        ),
{
    let kind = match record.category {
        RecordCategory::Procedure(kind) => kind,
        _ => return Err(CifpError::WrongCategory),
    };
    let line = record.raw.as_str();
    if record_length(line) < RECORD_LENGTH {
        return Err(CifpError::LineTooShort);
    }
    proof {
        let c = leg_cuts();
        assert(c[0] == 6 && c[1] == 10 && c[2] == 13 && c[3] == 19 && c[4] == 20 && c[5] == 25
            && c[6] == 26 && c[7] == 29 && c[8] == 34 && c[9] == 43 && c[10] == 44 && c[11] == 47
            && c[12] == 49 && c[13] == 70 && c[14] == 74 && c[15] == 82 && c[16] == 83 && c[17]
            == 84 && c[18] == 89 && c[19] == 94 && c[20] == 99 && c[21] == 102);
    }
    let airport_icao = match non_empty(field(line, 6, 10)) {
        Some(s) => s,
        None => return Err(CifpError::MissingField("Airport Identifier")),
    };
    let procedure_ident = match non_empty(field(line, 13, 19)) {
        Some(s) => s,
        None => return Err(CifpError::MissingField("SID/STAR/Approach Identifier")),
    };
    let route_type = first_char(field(line, 19, 20));
    let transition_ident = string_from(&trimmed_chars(field(line, 20, 25)));
    let seq = match uint(field(line, 26, 29)) {
        Some(x) => x,
        None => return Err(CifpError::InvalidField("Sequence Number")),
    };
    let fix_ident = string_from(&trimmed_chars(field(line, 29, 34)));
    let path_and_term = path_and_term(field(line, 47, 49));
    let turn_direction = turn_direction(field(line, 43, 44));
    let magnetic_course_mdeg = tenths_of_degree(field(line, 70, 74));
    let altitude_desc = first_char(field(line, 82, 83));
    let altitude1_ft = uint(field(line, 84, 89));
    let altitude2_ft = uint(field(line, 89, 94));
    let speed_limit_kt = uint(field(line, 99, 102));
    Ok(
        ProcedureLegRow {
            airport_icao,
            kind,
            procedure_ident,
            route_type,
            transition_ident,
            seq,
            fix_ident,
            path_and_term,
            turn_direction,
            magnetic_course_mdeg,
            altitude_desc,
            altitude1_ft,
            altitude2_ft,
            speed_limit_kt,
        },
    )
}

} // verus!
