//! Shared domain types: what an airport, runway, navaid, airway,
//! airspace volume and procedure are, whichever source they came from.
//!
//! Positions are integers: latitude/longitude in milliarcseconds
//! (1/3 600 000 of a degree, north and east positive), headings and
//! courses in thousandths of a degree, frequencies in kHz. Every source
//! this library reads fits exactly or rounds at that resolution.
use vstd::prelude::*;

verus! {

/// Milliarcseconds per degree.
pub const MAS_PER_DEGREE: i64 = 3_600_000;

// ---- airports -----------------------------------------------------------

#[derive(Debug, Clone, PartialEq)]
pub struct Airport {
    /// ICAO identifier, e.g. "KSFO". Primary key.
    pub icao: String,
    /// FAA-local identifier, e.g. "SFO".
    pub faa_id: Option<String>,
    pub iata: Option<String>,
    pub name: String,
    /// Milliarcseconds, north positive.
    pub lat: i64,
    /// Milliarcseconds, east positive.
    pub lon: i64,
    pub elevation_ft: i32,
    pub airport_type: AirportType,
    /// Fuel types available, e.g. ["100LL", "JET-A"].
    pub fuel_types: Vec<String>,
}

#[derive(Debug, Clone, Copy, PartialEq, Eq, Structural)]
pub enum AirportType {
    Airport,
    Heliport,
    Seaplane,
    Ultralight,
}

#[derive(Debug, Clone, PartialEq)]
pub struct Runway {
    pub airport_icao: String,
    /// e.g. "10/28".
    pub ident: String,
    pub length_ft: u32,
    pub width_ft: u32,
    pub surface: RunwaySurface,
    pub low_end: RunwayEnd,
    pub high_end: RunwayEnd,
}

#[derive(Debug, Clone, PartialEq)]
pub struct RunwayEnd {
    /// e.g. "10L".
    pub ident: String,
    pub lat: i64,
    pub lon: i64,
    /// Thousandths of a degree.
    pub heading_mdeg: i64,
}

#[derive(Debug, Clone, Copy, PartialEq, Eq, Structural)]
pub enum RunwaySurface {
    Asphalt,
    Concrete,
    Turf,
    Gravel,
    Water,
    Other,
}

#[derive(Debug, Clone, PartialEq)]
pub struct Frequency {
    pub airport_icao: String,
    pub kind: FrequencyKind,
    pub freq_khz: u32,
    pub remarks: Option<String>,
}

#[derive(Debug, Clone, Copy, PartialEq, Eq, Structural)]
pub enum FrequencyKind {
    Ctaf,
    Unicom,
    Tower,
    Ground,
    Approach,
    Departure,
    Atis,
    Awos,
    Clearance,
    Other,
}

// ---- airspace -----------------------------------------------------------

#[derive(Debug, Clone, Copy, PartialEq, Eq, Structural)]
pub enum AirspaceClass {
    /// IFR only: VFR traffic may not enter.
    A,
    B,
    C,
    D,
    E,
    /// Advisory, not separated.
    F,
    G,
    /// Special use airspace and the other non-class volumes.
    SpecialUse(SpecialUseKind),
}

/// Everything that is not an ICAO airspace class but still has to be
/// shown to a pilot.
#[derive(Debug, Clone, Copy, PartialEq, Eq, Structural)]
pub enum SpecialUseKind {
    Moa,
    Restricted,
    Prohibited,
    Warning,
    Alert,
    /// Radio mandatory zone.
    Rmz,
    /// Transponder mandatory zone.
    Tmz,
    /// Aerodrome traffic zone.
    Atz,
    /// Glider/soaring sector.
    Glider,
    /// Parachute jumping area.
    Parachute,
    /// Military low flying area.
    LowFlying,
}

#[derive(Debug, Clone, Copy, PartialEq, Eq, Structural)]
pub enum AltitudeLimit {
    Msl(u32),
    Agl(u32),
    /// Flight level (hundreds of feet at standard pressure).
    FlightLevel(u32),
    Surface,
    Unlimited,
}

/// A closed boundary of `(lat, lon)` points in milliarcseconds; the
/// last point implicitly joins the first.
#[derive(Debug, Clone, PartialEq)]
pub struct Polygon {
    pub points: Vec<(i64, i64)>,
}

#[derive(Debug, Clone, PartialEq)]
pub struct AirspaceVolume {
    pub id: String,
    pub name: String,
    pub class: AirspaceClass,
    pub floor: AltitudeLimit,
    pub ceiling: AltitudeLimit,
    pub boundary: Polygon,
}

// ---- airways ------------------------------------------------------------

#[derive(Debug, Clone, Copy, PartialEq, Eq, Structural)]
pub enum AirwayKind {
    /// Low-altitude victor airway.
    Victor,
    /// High-altitude jet route.
    Jet,
    /// RNAV T-route.
    RnavLow,
    /// RNAV Q-route.
    RnavHigh,
    /// Anything else.
    Other,
}

#[derive(Debug, Clone, PartialEq)]
pub struct Airway {
    /// Airway identifier, e.g. "V27".
    pub ident: String,
    pub kind: AirwayKind,
}

#[derive(Debug, Clone, PartialEq)]
pub struct AirwayLeg {
    pub airway_ident: String,
    /// 1-based position along the airway.
    pub seq: u32,
    pub fix_ident: String,
    pub min_altitude_ft: Option<u32>,
    pub max_altitude_ft: Option<u32>,
}

// ---- planning -----------------------------------------------------------

/// Where a planning figure came from: the aircraft's performance table,
/// or the profile's single scalar field.
#[derive(Debug, Clone, Copy, PartialEq, Eq, Structural)]
pub enum ValueSource {
    Table,
    Scalar,
}

// ---- cycles -------------------------------------------------------------

/// Where a data cycle sits relative to a given day.
#[derive(Debug, Clone, Copy, PartialEq, Eq, Structural)]
pub enum CycleCurrency {
    /// Published but not yet in force.
    NotYetEffective,
    /// In force today.
    Current,
    /// Superseded by a newer cycle.
    Expired,
}

// ---- navaids ------------------------------------------------------------

#[derive(Debug, Clone, Copy, PartialEq, Eq, Structural)]
pub enum NavaidType {
    Vor,
    VorDme,
    Vortac,
    Ndb,
    Dme,
    Tacan,
}

#[derive(Debug, Clone, PartialEq)]
pub struct Navaid {
    pub ident: String,
    pub navaid_type: NavaidType,
    pub lat: i64,
    pub lon: i64,
    pub elevation_ft: Option<i32>,
    pub freq_khz: Option<u32>,
    pub region: String,
}

/// A named fix that is not a navaid transmitter.
#[derive(Debug, Clone, PartialEq)]
pub struct Waypoint {
    pub ident: String,
    pub lat: i64,
    pub lon: i64,
    pub region: String,
}

// ---- procedures ---------------------------------------------------------

#[derive(Debug, Clone, Copy, PartialEq, Eq, Structural)]
pub enum ProcedureKind {
    Sid,
    Star,
    Approach,
}

#[derive(Debug, Clone, PartialEq)]
pub struct Procedure {
    pub id: String,
    pub airport_icao: String,
    pub kind: ProcedureKind,
    /// e.g. "SHORE2", "ILS 28L".
    pub ident: String,
    /// Runway this procedure serves, if runway-specific.
    pub runway_ident: Option<String>,
}

#[derive(Debug, Clone, Copy, PartialEq, Eq, Structural)]
pub enum TransitionKind {
    Enroute,
    Common,
    Approach,
    Missed,
}

#[derive(Debug, Clone, PartialEq)]
pub struct ProcedureTransition {
    pub id: String,
    pub procedure_id: String,
    pub ident: String,
    pub kind: TransitionKind,
}

/// ARINC 424 path-and-terminator leg types.
#[derive(Debug, Clone, Copy, PartialEq, Eq, Structural)]
pub enum PathAndTerm {
    IF,
    TF,
    CF,
    DF,
    FA,
    FC,
    FD,
    FM,
    CA,
    CD,
    CR,
    RF,
    AF,
    VA,
    VD,
    VI,
    VM,
    VR,
    CI,
    PI,
    /// Holding pattern, all termination flavours.
    HoldingPattern,
    /// Any leg type not modeled explicitly.
    Unsupported,
}

#[derive(Debug, Clone, Copy, PartialEq, Eq, Structural)]
pub enum TurnDirection {
    Left,
    Right,
    Either,
}

#[derive(Debug, Clone, Copy, PartialEq, Eq, Structural)]
pub enum AltitudeConstraint {
    At(u32),
    AtOrAbove(u32),
    AtOrBelow(u32),
    Between { lower: u32, upper: u32 },
}

#[derive(Debug, Clone, Copy, PartialEq, Eq, Structural)]
pub enum SpeedConstraint {
    AtOrBelow(u32),
    At(u32),
}

#[derive(Debug, Clone, PartialEq)]
pub struct ProcedureLeg {
    pub transition_id: String,
    /// Position within the transition (the CIFP sequence number).
    pub seq: u32,
    pub path_and_term: PathAndTerm,
    pub fix_ident: Option<String>,
    /// Magnetic course in thousandths of a degree.
    pub course_mdeg: Option<i64>,
    pub altitude: Option<AltitudeConstraint>,
    pub speed: Option<SpeedConstraint>,
    pub turn_direction: Option<TurnDirection>,
}

} // verus!
