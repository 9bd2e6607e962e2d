//! FAA NASR 28-day subscription CSV rows converted into domain types.
//!
//! Positions are milliarcseconds; frequencies kHz.
use crate::decimal::{dec_scaled, decimal_scaled};
use crate::domain::{
    Airport, AirportType, Frequency, FrequencyKind, Runway, RunwayEnd, RunwaySurface,
};
use crate::text::{opt_view, slice_chars, str_eq, string_from, to_chars};
use vstd::prelude::*;

verus! {

/// An `APT_BASE` row: one airport.
#[derive(Debug, Clone)]
pub struct AptBaseRow {
    pub site_no: String,
    pub arpt_id: String,
    pub icao_id: Option<String>,
    pub arpt_name: String,
    pub lat: i64,
    pub lon: i64,
    /// Field elevation, rounded to whole feet.
    pub elevation_ft: i32,
    pub site_type_code: String,
    pub fuel_types: String,
}

/// An `APT_RWY` row: one runway.
#[derive(Debug, Clone)]
pub struct AptRunwayRow {
    pub arpt_id: String,
    pub rwy_id: String,
    pub rwy_len_ft: u32,
    pub rwy_width_ft: u32,
    pub surface_type_code: String,
}

/// An `FRQ` row: one frequency of a facility.
#[derive(Debug, Clone)]
pub struct FrqRow {
    pub facility: String,
    pub facility_type: String,
    pub serviced_facility: String,
    pub serviced_site_type: String,
    pub freq: String,
    pub freq_use: String,
    pub remark: Option<String>,
}

pub open spec fn site_type_spec(code: Seq<char>) -> AirportType {
    if code == "H"@ {
        AirportType::Heliport
    } else if code == "S"@ {
        AirportType::Seaplane
    } else if code == "U"@ {
        AirportType::Ultralight
    } else {
        AirportType::Airport
    }
}

/// `SITE_TYPE_CODE`: `H` heliport, `S` seaplane base, `U` ultralight
/// park, anything else (`A`) an airport.
pub fn site_type(code: &str) -> (r: AirportType)
    ensures
        r == site_type_spec(code@),
{
    if str_eq(code, "H") {
        AirportType::Heliport
    } else if str_eq(code, "S") {
        AirportType::Seaplane
    } else if str_eq(code, "U") {
        AirportType::Ultralight
    } else {
        AirportType::Airport
    }
}

pub open spec fn surface_type_spec(code: Seq<char>) -> RunwaySurface {
    if code.len() == 0 {
        RunwaySurface::Other
    } else if code[0] == 'A' {
        RunwaySurface::Asphalt
    } else if code[0] == 'C' {
        RunwaySurface::Concrete
    } else if code[0] == 'T' {
        RunwaySurface::Turf
    } else if code[0] == 'G' {
        RunwaySurface::Gravel
    } else if code[0] == 'W' {
        RunwaySurface::Water
    } else {
        RunwaySurface::Other
    }
}

/// `SURFACE_TYPE_CODE`, by its first letter (a compound code such as
/// `ASPH-CONC` takes its first material).
pub fn surface_type(code: &str) -> (r: RunwaySurface)
    ensures
        r == surface_type_spec(code@),
{
    let v = to_chars(code);
    if v.len() == 0 {
        RunwaySurface::Other
    } else if v[0] == 'A' {
        RunwaySurface::Asphalt
    } else if v[0] == 'C' {
        RunwaySurface::Concrete
    } else if v[0] == 'T' {
        RunwaySurface::Turf
    } else if v[0] == 'G' {
        RunwaySurface::Gravel
    } else if v[0] == 'W' {
        RunwaySurface::Water
    } else {
        RunwaySurface::Other
    }
}

pub open spec fn comm_type_spec(code: Seq<char>) -> FrequencyKind {
    if code == "CTAF"@ {
        FrequencyKind::Ctaf
    } else if code == "UNICOM"@ {
        FrequencyKind::Unicom
    } else if code == "TWR"@ {
        FrequencyKind::Tower
    } else if code == "GND"@ {
        FrequencyKind::Ground
    } else if code == "APP"@ {
        FrequencyKind::Approach
    } else if code == "DEP"@ {
        FrequencyKind::Departure
    } else if code == "ATIS"@ {
        FrequencyKind::Atis
    } else if code == "AWOS"@ || code == "ASOS"@ {
        FrequencyKind::Awos
    } else if code == "CLNC DEL"@ {
        FrequencyKind::Clearance
    } else {
        FrequencyKind::Other
    }
}

/// The NASR frequency-use code a kind is written with (`AWOS` for the
/// weather kinds); empty for `Other`.
pub open spec fn use_code(k: FrequencyKind) -> Seq<char> {
    match k {
        FrequencyKind::Ctaf => "CTAF"@,
        FrequencyKind::Unicom => "UNICOM"@,
        FrequencyKind::Tower => "TWR"@,
        FrequencyKind::Ground => "GND"@,
        FrequencyKind::Approach => "APP"@,
        FrequencyKind::Departure => "DEP"@,
        FrequencyKind::Atis => "ATIS"@,
        FrequencyKind::Awos => "AWOS"@,
        FrequencyKind::Clearance => "CLNC DEL"@,
        FrequencyKind::Other => Seq::empty(),
    }
}

/// Each listed frequency-use code gets the kind written with that code,
/// so distinct codes give distinct kinds (`TWR` a tower, `GND` ground);
/// `ASOS` is read as the same weather kind as `AWOS`.
pub proof fn lemma_use_codes_keep_their_kind(code: Seq<char>)
    ensures
        (code == "CTAF"@ || code == "UNICOM"@ || code == "TWR"@ || code == "GND"@ || code == "APP"@
            || code == "DEP"@ || code == "ATIS"@ || code == "AWOS"@ || code == "CLNC DEL"@) ==> use_code(
            comm_type_spec(code),
        ) == code,
        code == "ASOS"@ ==> comm_type_spec(code) == FrequencyKind::Awos,
        comm_type_spec(code) != FrequencyKind::Other ==> (code == use_code(comm_type_spec(code))
            || code == "ASOS"@),
{
    reveal_strlit("CTAF");
    reveal_strlit("UNICOM");
    reveal_strlit("TWR");
    reveal_strlit("GND");
    reveal_strlit("APP");
    reveal_strlit("DEP");
    reveal_strlit("ATIS");
    reveal_strlit("AWOS");
    reveal_strlit("ASOS");
    reveal_strlit("CLNC DEL");
    assert("CTAF"@.len() != "UNICOM"@.len());
    assert("CTAF"@.len() != "TWR"@.len());
    assert("CTAF"@.len() != "GND"@.len());
    assert("CTAF"@.len() != "APP"@.len());
    assert("CTAF"@.len() != "DEP"@.len());
    assert("CTAF"@[0] != "ATIS"@[0]);
    assert("CTAF"@[0] != "AWOS"@[0]);
    assert("CTAF"@[0] != "ASOS"@[0]);
    assert("CTAF"@.len() != "CLNC DEL"@.len());
    assert("UNICOM"@.len() != "TWR"@.len());
    assert("UNICOM"@.len() != "GND"@.len());
    assert("UNICOM"@.len() != "APP"@.len());
    assert("UNICOM"@.len() != "DEP"@.len());
    assert("UNICOM"@.len() != "ATIS"@.len());
    assert("UNICOM"@.len() != "AWOS"@.len());
    assert("UNICOM"@.len() != "ASOS"@.len());
    assert("UNICOM"@.len() != "CLNC DEL"@.len());
    assert("TWR"@[0] != "GND"@[0]);
    assert("TWR"@[0] != "APP"@[0]);
    assert("TWR"@[0] != "DEP"@[0]);
    assert("TWR"@.len() != "ATIS"@.len());
    assert("TWR"@.len() != "AWOS"@.len());
    assert("TWR"@.len() != "ASOS"@.len());
    assert("TWR"@.len() != "CLNC DEL"@.len());
    assert("GND"@[0] != "APP"@[0]);
    assert("GND"@[0] != "DEP"@[0]);
    assert("GND"@.len() != "ATIS"@.len());
    assert("GND"@.len() != "AWOS"@.len());
    assert("GND"@.len() != "ASOS"@.len());
    assert("GND"@.len() != "CLNC DEL"@.len());
    assert("APP"@[0] != "DEP"@[0]);
    assert("APP"@.len() != "ATIS"@.len());
    assert("APP"@.len() != "AWOS"@.len());
    assert("APP"@.len() != "ASOS"@.len());
    assert("APP"@.len() != "CLNC DEL"@.len());
    assert("DEP"@.len() != "ATIS"@.len());
    assert("DEP"@.len() != "AWOS"@.len());
    assert("DEP"@.len() != "ASOS"@.len());
    assert("DEP"@.len() != "CLNC DEL"@.len());
    assert("ATIS"@[1] != "AWOS"@[1]);
    assert("ATIS"@[1] != "ASOS"@[1]);
    assert("ATIS"@.len() != "CLNC DEL"@.len());
    assert("AWOS"@[1] != "ASOS"@[1]);
    assert("AWOS"@.len() != "CLNC DEL"@.len());
    assert("ASOS"@.len() != "CLNC DEL"@.len());
}

/// Frequency use code → kind.
pub fn comm_type(code: &str) -> (r: FrequencyKind)
    ensures
        r == comm_type_spec(code@),
{
    if str_eq(code, "CTAF") {
        FrequencyKind::Ctaf
    } else if str_eq(code, "UNICOM") {
        FrequencyKind::Unicom
    } else if str_eq(code, "TWR") {
        FrequencyKind::Tower
    } else if str_eq(code, "GND") {
        FrequencyKind::Ground
    } else if str_eq(code, "APP") {
        FrequencyKind::Approach
    } else if str_eq(code, "DEP") {
        FrequencyKind::Departure
    } else if str_eq(code, "ATIS") {
        FrequencyKind::Atis
    } else if str_eq(code, "AWOS") || str_eq(code, "ASOS") {
        FrequencyKind::Awos
    } else if str_eq(code, "CLNC DEL") {
        FrequencyKind::Clearance
    } else {
        FrequencyKind::Other
    }
}

/// The airport's key: its ICAO id, else its FAA location id.
pub open spec fn airport_key_spec(row: AptBaseRow) -> Seq<char> {
    match row.icao_id {
        Some(id) => id@,
        None => row.arpt_id@,
    }
}

pub fn airport_from_row(row: &AptBaseRow) -> (r: Airport)
    ensures
        r.icao@ == airport_key_spec(*row),
        opt_view(r.faa_id) == Some(row.arpt_id@),
        r.iata is None,
        r.name@ == row.arpt_name@,
        r.lat == row.lat,
        r.lon == row.lon,
        r.elevation_ft == row.elevation_ft,
        r.airport_type == site_type_spec(row.site_type_code@),
        r.fuel_types@.len() == 0,
{
    let icao = match &row.icao_id {
        Some(id) => id.clone(),
        None => row.arpt_id.clone(),
    };
    Airport {
        icao,
        faa_id: Some(row.arpt_id.clone()),
        iata: None,
        name: row.arpt_name.clone(),
        lat: row.lat,
        lon: row.lon,
        elevation_ft: row.elevation_ft,
        airport_type: site_type(row.site_type_code.as_str()),
        fuel_types: Vec::new(),
    }
}

/// Index of the first `/` of `s` at or after `i` (`s.len()` if none).
pub open spec fn next_slash(s: Seq<char>, i: int) -> int
    decreases s.len() - i,
{
    if i < 0 || i >= s.len() {
        s.len() as int
    } else if s[i] == '/' {
        i
    } else {
        next_slash(s, i + 1)
    }
}

/// The first `/`-separated part of `s`.
pub open spec fn first_part(s: Seq<char>) -> Seq<char> {
    s.take(next_slash(s, 0))
}

/// The second `/`-separated part of `s` (empty when there is none).
pub open spec fn second_part(s: Seq<char>) -> Seq<char> {
    let a = next_slash(s, 0);
    if a >= s.len() {
        Seq::empty()
    } else {
        s.subrange(a + 1, next_slash(s, a + 1))
    }
}

proof fn lemma_next_slash_bounds(s: Seq<char>, i: int)
    requires
        0 <= i <= s.len(),
    ensures
        i <= next_slash(s, i) <= s.len(),
    decreases s.len() - i,
{
    if i < s.len() && s[i] != '/' {
        lemma_next_slash_bounds(s, i + 1);
    }
}

fn find_slash(v: &Vec<char>, from: usize) -> (r: usize)
    requires
        from <= v@.len(),
    ensures
        r == next_slash(v@, from as int),
        from <= r <= v@.len(),
{
    proof {
        lemma_next_slash_bounds(v@, from as int);
    }
    let mut i = from;
    while i < v.len() && v[i] != '/'
        invariant
            from <= i <= v@.len(),
            next_slash(v@, from as int) == next_slash(v@, i as int),
        decreases v.len() - i,
    {
        i = i + 1;
    }
    i
}

fn blank_end(ident: Vec<char>) -> (e: RunwayEnd)
    ensures
        e.ident@ == ident@,
        e.lat == 0,
        e.lon == 0,
        e.heading_mdeg == 0,
{
    RunwayEnd { ident: string_from(&ident), lat: 0, lon: 0, heading_mdeg: 0 }
}

/// A runway from its row: the end idents are the two halves of the
/// runway id (`"13/31"`), the ends carry no position or heading.
pub fn runway_from_row(row: &AptRunwayRow, airport_icao: &str) -> (r: Runway)
    ensures
        r.airport_icao@ == airport_icao@,
        r.ident@ == row.rwy_id@,
        r.length_ft == row.rwy_len_ft,
        r.width_ft == row.rwy_width_ft,
        r.surface == surface_type_spec(row.surface_type_code@),
        r.low_end.ident@ == first_part(row.rwy_id@),
        r.high_end.ident@ == second_part(row.rwy_id@),
        r.low_end.lat == 0 && r.low_end.lon == 0 && r.low_end.heading_mdeg == 0,
        r.high_end.lat == 0 && r.high_end.lon == 0 && r.high_end.heading_mdeg == 0,
{
    let v = to_chars(row.rwy_id.as_str());
    let a = find_slash(&v, 0);
    let low = slice_chars(&v, 0, a);
    let high = if a < v.len() {
        let b = find_slash(&v, a + 1);
        slice_chars(&v, a + 1, b)
    } else {
        Vec::new()
    };
    assert(low@ =~= first_part(v@));
    assert(high@ =~= second_part(v@));
    Runway {
        airport_icao: string_from(&to_chars(airport_icao)),
        ident: row.rwy_id.clone(),
        length_ft: row.rwy_len_ft,
        width_ft: row.rwy_width_ft,
        surface: surface_type(row.surface_type_code.as_str()),
        low_end: blank_end(low),
        high_end: blank_end(high),
    }
}

/// A frequency from its row (`FREQ` in MHz, as kHz); `None` when the
/// frequency is not a number, or does not fit.
pub open spec fn frequency_khz_spec(row: FrqRow) -> Option<u32> {
    match dec_scaled(row.freq@, 1000, 0) {
        Some(k) => if 0 <= k <= u32::MAX {
            Some(k as u32)
        } else {
            None
        },
        None => None,
    }
}

pub fn frequency_from_row(row: &FrqRow, airport_icao: &str) -> (r: Option<Frequency>)
    ensures
        match r {
            Some(f) => frequency_khz_spec(*row) == Some(f.freq_khz) && f.airport_icao@
                == airport_icao@ && f.kind == comm_type_spec(row.freq_use@) && opt_view(f.remarks)
                == opt_view(row.remark),
            None => frequency_khz_spec(*row) is None,
        },
{
    let khz = match decimal_scaled(&to_chars(row.freq.as_str()), 1000, 0) {
        Some(k) => k,
        None => return None,
    };
    if khz < 0 || khz > 0xFFFF_FFFF {
        return None;
    }
    let remarks = match &row.remark {
        Some(s) => Some(s.clone()),
        None => None,
    };
    Some(
        Frequency {
            airport_icao: string_from(&to_chars(airport_icao)),
            kind: comm_type(row.freq_use.as_str()),
            freq_khz: khz as u32,
            remarks,
        },
    )
}

} // verus!
