//! Airspaces from AIXM 4.5 `Ase` (airspace) and `Abd` (airspace border)
//! features: class mapping and vertical limits.
//!
//! The domain's airspace classes are US-shaped; European airspace has
//! classes A–G and many types (TMA/CTR/FIR/…). The special-use types and
//! the B/C/D/E/G-classed control areas are mapped; what does not fit
//! (class A/F, FIR/UIR/OCA/UTA, ATC sectors) is skipped rather than
//! mislabelled.
use crate::aixm::convert::{field_coord, FieldsView};
use crate::aixm::coord::{parse_lat, parse_lon};
use crate::aixm::fields::{fields_view, get, get_spec, Fields};
use crate::decimal::{dec_scaled, decimal_scaled, is_number, reads_as_float};
use crate::domain::{AirspaceClass, AltitudeLimit, SpecialUseKind};
use crate::openaip::somes;
use crate::text::{opt_view, str_eq, string_from, to_chars, vec_eq};
use vstd::prelude::*;

verus! {

pub open spec fn is_lit(o: Option<Seq<char>>, lit: Seq<char>) -> bool {
    o == Some(lit)
}

fn opt_is(o: Option<&str>, lit: &str) -> (r: bool)
    ensures
        r == match o {
            Some(s) => s@ == lit@,
            None => false,
        },
{
    match o {
        Some(s) => str_eq(s, lit),
        None => false,
    }
}

/// AIXM airspace type and ICAO class → the domain's class; `None` for
/// what the domain cannot represent.
pub open spec fn airspace_class_spec(code_type: Seq<char>, code_class: Option<Seq<char>>) -> Option<
    AirspaceClass,
> {
    if code_type == "R"@ || code_type == "TRA"@ {
        Some(AirspaceClass::SpecialUse(SpecialUseKind::Restricted))
    } else if code_type == "P"@ || code_type == "UIR-P"@ {
        Some(AirspaceClass::SpecialUse(SpecialUseKind::Prohibited))
    } else if code_type == "D"@ || code_type == "D-OTHER"@ {
        Some(AirspaceClass::SpecialUse(SpecialUseKind::Warning))
    } else if code_type == "TMA"@ || code_type == "CTR"@ || code_type == "CTA"@ {
        if is_lit(code_class, "B"@) {
            Some(AirspaceClass::B)
        } else if is_lit(code_class, "C"@) {
            Some(AirspaceClass::C)
        } else if is_lit(code_class, "D"@) {
            Some(AirspaceClass::D)
        } else if is_lit(code_class, "E"@) {
            Some(AirspaceClass::E)
        } else if is_lit(code_class, "G"@) {
            Some(AirspaceClass::G)
        } else {
            None
        }
    } else {
        None
    }
}

/// The ICAO letter of a class, `None` for special use.
pub open spec fn class_letter(c: AirspaceClass) -> Option<char> {
    match c {
        AirspaceClass::A => Some('A'),
        AirspaceClass::B => Some('B'),
        AirspaceClass::C => Some('C'),
        AirspaceClass::D => Some('D'),
        AirspaceClass::E => Some('E'),
        AirspaceClass::F => Some('F'),
        AirspaceClass::G => Some('G'),
        AirspaceClass::SpecialUse(_) => None,
    }
}

/// A terminal or control area (`TMA`, `CTR`, `CTA`) whose ICAO class is
/// one the domain holds (`B`, `C`, `D`, `E`, `G`) gets the class with that
/// same letter, so no two of these letters give one class.
pub proof fn lemma_controlled_class_keeps_its_letter(code_type: Seq<char>, c: char)
    requires
        code_type == "TMA"@ || code_type == "CTR"@ || code_type == "CTA"@,
        c == 'B' || c == 'C' || c == 'D' || c == 'E' || c == 'G',
    ensures
        airspace_class_spec(code_type, Some(seq![c])) matches Some(k) && class_letter(k) == Some(c),
{
    reveal_strlit("TMA");
    reveal_strlit("CTR");
    reveal_strlit("CTA");
    reveal_strlit("R");
    reveal_strlit("TRA");
    reveal_strlit("P");
    reveal_strlit("UIR-P");
    reveal_strlit("D");
    reveal_strlit("D-OTHER");
    reveal_strlit("B");
    reveal_strlit("C");
    reveal_strlit("E");
    reveal_strlit("G");
    assert(code_type.len() == 3);
    assert(code_type != "R"@ && code_type != "P"@ && code_type != "D"@);
    assert(code_type != "UIR-P"@ && code_type != "D-OTHER"@);
    assert(code_type != "TRA"@) by {
        assert(code_type[1] != "TRA"@[1]);
    }
    assert("B"@ =~= seq!['B'] && "C"@ =~= seq!['C'] && "D"@ =~= seq!['D']);
    assert("E"@ =~= seq!['E'] && "G"@ =~= seq!['G']);
    assert(seq![c][0] == c);
    assert forall|l: char| #[trigger] is_lit(Some(seq![c]), seq![l]) == (c == l) by {
        if c == l {
            assert(seq![c] =~= seq![l]);
        } else {
            assert(seq![l][0] == l);
        }
    }
    assert(is_lit(Some(seq![c]), seq!['B']) == (c == 'B'));
    assert(is_lit(Some(seq![c]), seq!['C']) == (c == 'C'));
    assert(is_lit(Some(seq![c]), seq!['D']) == (c == 'D'));
    assert(is_lit(Some(seq![c]), seq!['E']) == (c == 'E'));
    assert(is_lit(Some(seq![c]), seq!['G']) == (c == 'G'));
}

/// Special-use types keep their meaning whatever class is coded:
/// restricted (`R`, `TRA`), prohibited (`P`, `UIR-P`), danger as a warning
/// (`D`, `D-OTHER`); and a type that is none of these nor a terminal or
/// control area is not drawn.
pub proof fn lemma_special_use_types(code_type: Seq<char>, code_class: Option<Seq<char>>)
    ensures
        (code_type == "R"@ || code_type == "TRA"@) ==> airspace_class_spec(code_type, code_class)
            == Some(AirspaceClass::SpecialUse(SpecialUseKind::Restricted)),
        (code_type == "P"@ || code_type == "UIR-P"@) ==> airspace_class_spec(code_type, code_class)
            == Some(AirspaceClass::SpecialUse(SpecialUseKind::Prohibited)),
        (code_type == "D"@ || code_type == "D-OTHER"@) ==> airspace_class_spec(code_type, code_class)
            == Some(AirspaceClass::SpecialUse(SpecialUseKind::Warning)),
        !(code_type == "R"@ || code_type == "TRA"@ || code_type == "P"@ || code_type == "UIR-P"@
            || code_type == "D"@ || code_type == "D-OTHER"@ || code_type == "TMA"@ || code_type
            == "CTR"@ || code_type == "CTA"@) ==> airspace_class_spec(code_type, code_class) is None,
{
    reveal_strlit("R");
    reveal_strlit("TRA");
    reveal_strlit("P");
    reveal_strlit("UIR-P");
    reveal_strlit("D");
    reveal_strlit("D-OTHER");
    assert("R"@.len() != "TRA"@.len());
    assert("R"@[0] != "P"@[0]);
    assert("R"@.len() != "UIR-P"@.len());
    assert("R"@[0] != "D"@[0]);
    assert("R"@.len() != "D-OTHER"@.len());
    assert("TRA"@.len() != "P"@.len());
    assert("TRA"@.len() != "UIR-P"@.len());
    assert("TRA"@.len() != "D"@.len());
    assert("TRA"@.len() != "D-OTHER"@.len());
    assert("P"@.len() != "UIR-P"@.len());
    assert("P"@[0] != "D"@[0]);
    assert("P"@.len() != "D-OTHER"@.len());
    assert("UIR-P"@.len() != "D"@.len());
    assert("UIR-P"@.len() != "D-OTHER"@.len());
    assert("D"@.len() != "D-OTHER"@.len());
}

pub open spec fn opt_str(o: Option<&str>) -> Option<Seq<char>> {
    match o {
        Some(s) => Some(s@),
        None => None,
    }
}

pub fn airspace_class(code_type: &str, code_class: Option<&str>) -> (r: Option<AirspaceClass>)
    ensures
        r == airspace_class_spec(code_type@, opt_str(code_class)),
{
    if str_eq(code_type, "R") || str_eq(code_type, "TRA") {
        Some(AirspaceClass::SpecialUse(SpecialUseKind::Restricted))
    } else if str_eq(code_type, "P") || str_eq(code_type, "UIR-P") {
        Some(AirspaceClass::SpecialUse(SpecialUseKind::Prohibited))
    } else if str_eq(code_type, "D") || str_eq(code_type, "D-OTHER") {
        Some(AirspaceClass::SpecialUse(SpecialUseKind::Warning))
    } else if str_eq(code_type, "TMA") || str_eq(code_type, "CTR") || str_eq(code_type, "CTA") {
        if opt_is(code_class, "B") {
            Some(AirspaceClass::B)
        } else if opt_is(code_class, "C") {
            Some(AirspaceClass::C)
        } else if opt_is(code_class, "D") {
            Some(AirspaceClass::D)
        } else if opt_is(code_class, "E") {
            Some(AirspaceClass::E)
        } else if opt_is(code_class, "G") {
            Some(AirspaceClass::G)
        } else {
            None
        }
    } else {
        None
    }
}

/// `x` clamped into `u32`, as a float-to-`u32` cast saturates.
pub open spec fn sat_u32(x: int) -> u32 {
    if x < 0 {
        0
    } else if x > u32::MAX {
        u32::MAX
    } else {
        x as u32
    }
}

fn sat_u32_exec(x: i128) -> (r: u32)
    ensures
        r == sat_u32(x as int),
{
    if x < 0 {
        0
    } else if x > 0xFFFF_FFFF {
        0xFFFF_FFFF
    } else {
        x as u32
    }
}

/// A number field times `mult / 10^shift`, rounded; an absent or
/// unreadable value counts as zero.
pub open spec fn scaled_or_zero(val: Option<Seq<char>>, mult: nat, shift: nat) -> int {
    match val {
        Some(s) => match dec_scaled(s, mult, shift) {
            Some(x) => x,
            None => 0,
        },
        None => 0,
    }
}

fn scaled_or_zero_exec(val: &Option<String>, mult: u64, shift: u32) -> (r: i128)
    requires
        1 <= mult <= 10_000_000_000,
        shift <= 9,
    ensures
        r == scaled_or_zero(opt_view(*val), mult as nat, shift as nat),
{
    match val {
        Some(s) => match decimal_scaled(&to_chars(s.as_str()), mult, shift) {
            Some(x) => x,
            None => 0,
        },
        None => 0,
    }
}

/// Feet per metre, as 3.280839895 = `FEET_PER_METRE_E9 / 10^9`.
pub const FEET_PER_METRE_E9: u64 = 3_280_839_895;

/// A height in the unit `uom` (`M` metres, otherwise feet) as whole feet.
pub open spec fn feet_spec(val: Option<Seq<char>>, uom: Option<Seq<char>>) -> u32 {
    if is_lit(uom, "M"@) {
        sat_u32(scaled_or_zero(val, FEET_PER_METRE_E9 as nat, 9))
    } else {
        sat_u32(scaled_or_zero(val, 1, 0))
    }
}

/// Vertical limit from an AIXM `codeDistVer`/`valDistVer`/`uomDistVer`
/// triple: `SFC` and `UNL` as such, `STD` a flight level, `HEI` above
/// ground, anything else (`ALT`) above mean sea level.
pub open spec fn altitude_limit_spec(
    code: Option<Seq<char>>,
    val: Option<Seq<char>>,
    uom: Option<Seq<char>>,
) -> AltitudeLimit {
    if is_lit(code, "SFC"@) {
        AltitudeLimit::Surface
    } else if is_lit(code, "UNL"@) {
        AltitudeLimit::Unlimited
    } else if is_lit(code, "STD"@) {
        AltitudeLimit::FlightLevel(sat_u32(scaled_or_zero(val, 1, 0)))
    } else if is_lit(code, "HEI"@) {
        AltitudeLimit::Agl(feet_spec(val, uom))
    } else {
        AltitudeLimit::Msl(feet_spec(val, uom))
    }
}

fn opt_string_is(o: &Option<String>, lit: &str) -> (r: bool)
    ensures
        r == is_lit(opt_view(*o), lit@),
{
    match o {
        Some(s) => str_eq(s.as_str(), lit),
        None => false,
    }
}

fn feet(val: &Option<String>, uom: &Option<String>) -> (r: u32)
    ensures
        r == feet_spec(opt_view(*val), opt_view(*uom)),
{
    if opt_string_is(uom, "M") {
        sat_u32_exec(scaled_or_zero_exec(val, FEET_PER_METRE_E9, 9))
    } else {
        sat_u32_exec(scaled_or_zero_exec(val, 1, 0))
    }
}

pub fn altitude_limit(triple: &(Option<String>, Option<String>, Option<String>)) -> (r: AltitudeLimit)
    ensures
        r == altitude_limit_spec(opt_view(triple.0), opt_view(triple.1), opt_view(triple.2)),
{
    let (code, val, uom) = triple;
    if opt_string_is(code, "SFC") {
        AltitudeLimit::Surface
    } else if opt_string_is(code, "UNL") {
        AltitudeLimit::Unlimited
    } else if opt_string_is(code, "STD") {
        AltitudeLimit::FlightLevel(sat_u32_exec(scaled_or_zero_exec(val, 1, 0)))
    } else if opt_string_is(code, "HEI") {
        AltitudeLimit::Agl(feet(val, uom))
    } else {
        AltitudeLimit::Msl(feet(val, uom))
    }
}

// ---- features -----------------------------------------------------------------

/// An `Ase` feature. `id` is the feature's `mid`, unique per airspace
/// and shared with its border; the designator (`LFR92`) is reused by
/// multi-part airspaces and names the volume instead.
pub struct AseRaw {
    pub id: String,
    pub code_type: String,
    pub name: String,
    pub code_class: Option<String>,
    pub upper: (Option<String>, Option<String>, Option<String>),
    pub lower: (Option<String>, Option<String>, Option<String>),
}

/// An `Abd` feature: the border of the airspace `airspace_id`, a list of
/// vertices or a circle.
pub struct AbdRaw {
    pub airspace_id: String,
    pub vertices: Vec<Fields>,
    pub circle: Option<Fields>,
}

pub open spec fn triple_view(t: (Option<String>, Option<String>, Option<String>)) -> (
    Option<Seq<char>>,
    Option<Seq<char>>,
    Option<Seq<char>>,
) {
    (opt_view(t.0), opt_view(t.1), opt_view(t.2))
}

pub open spec fn ase_outcome(f: FieldsView, r: Option<AseRaw>) -> bool {
    match (get_spec(f, "AseUid@mid"@), get_spec(f, "AseUid/codeType"@)) {
        (Some(id), Some(ct)) => r matches Some(a) && a.id@ == id && a.code_type@ == ct && a.name@
            == (match get_spec(f, "AseUid/codeId"@) {
            Some(d) => d,
            None => match get_spec(f, "txtName"@) {
                Some(n) => n,
                None => Seq::empty(),
            },
        }) && opt_view(a.code_class) == get_spec(f, "codeClass"@) && triple_view(a.upper) == (
            get_spec(f, "codeDistVerUpper"@),
            get_spec(f, "valDistVerUpper"@),
            get_spec(f, "uomDistVerUpper"@),
        ) && triple_view(a.lower) == (
            get_spec(f, "codeDistVerLower"@),
            get_spec(f, "valDistVerLower"@),
            get_spec(f, "uomDistVerLower"@),
        ),
        _ => r is None,
    }
}

/// An `Ase` feature read by path.
pub fn ase_from_paths(f: &Fields) -> (r: Option<AseRaw>)
    ensures
        ase_outcome(fields_view(f@), r),
{
    let designation = get(f, "AseUid/codeId");
    let id = match get(f, "AseUid@mid") {
        Some(x) => x,
        None => return None,
    };
    let code_type = match get(f, "AseUid/codeType") {
        Some(x) => x,
        None => return None,
    };
    let name = match designation {
        Some(d) => d,
        None => match get(f, "txtName") {
            Some(n) => n,
            None => string_from(&Vec::new()),
        },
    };
    Some(
        AseRaw {
            id,
            code_type,
            name,
            code_class: get(f, "codeClass"),
            upper: (get(f, "codeDistVerUpper"), get(f, "valDistVerUpper"), get(f, "uomDistVerUpper")),
            lower: (get(f, "codeDistVerLower"), get(f, "valDistVerLower"), get(f, "uomDistVerLower")),
        },
    )
}

/// One point of a border: a vertex reached along a straight line, or
/// along an arc around a centre (clockwise or not).
#[derive(Debug, Clone, Copy, PartialEq, Eq, Structural)]
pub enum BorderPoint {
    Straight { lat: i64, lon: i64 },
    Arc { lat: i64, lon: i64, center_lat: i64, center_lon: i64, clockwise: bool },
}

/// An airspace border, before arcs and circles are expanded into points.
#[derive(Debug, Clone)]
pub enum Border {
    Circle { lat: i64, lon: i64, radius: String, radius_uom: Option<String> },
    Points { points: Vec<BorderPoint> },
}

/// An airspace with its class, limits and border.
#[derive(Debug, Clone)]
pub struct AixmAirspace {
    pub id: String,
    pub name: String,
    pub class: AirspaceClass,
    pub floor: AltitudeLimit,
    pub ceiling: AltitudeLimit,
    pub border: Border,
}

pub open spec fn vertex_views(vs: Seq<Fields>) -> Seq<FieldsView> {
    vs.map_values(|f: Fields| fields_view(f@))
}

/// The arc centre of a vertex, when both its coordinates read.
pub open spec fn arc_center(v: FieldsView) -> Option<(i64, i64)> {
    match (field_coord(v, "geoLatArc"@, 2), field_coord(v, "geoLongArc"@, 3)) {
        (Some(a), Some(b)) => Some((a, b)),
        _ => None,
    }
}

/// The border point a vertex gives after the point `prev`: `CWA`/`CCA`
/// vertices with a previous point and a centre are arcs, all others
/// (`GRC`, `RHL`, `FNT`, no code) straight.
pub open spec fn vertex_point(v: FieldsView, lat: i64, lon: i64, prev: Option<(i64, i64)>) -> BorderPoint {
    let ct = match get_spec(v, "codeType"@) {
        Some(c) => c,
        None => "GRC"@,
    };
    match arc_center(v) {
        Some(c) => if ct == "CWA"@ && prev is Some {
            BorderPoint::Arc { lat, lon, center_lat: c.0, center_lon: c.1, clockwise: true }
        } else if ct == "CCA"@ && prev is Some {
            BorderPoint::Arc { lat, lon, center_lat: c.0, center_lon: c.1, clockwise: false }
        } else {
            BorderPoint::Straight { lat, lon }
        },
        None => BorderPoint::Straight { lat, lon },
    }
}

/// The points of a vertex list and the last position read; vertices
/// whose position does not read are skipped.
pub open spec fn border_points(vs: Seq<FieldsView>) -> (Seq<BorderPoint>, Option<(i64, i64)>)
    decreases vs.len(),
{
    if vs.len() == 0 {
        (Seq::empty(), None)
    } else {
        let (pts, prev) = border_points(vs.drop_last());
        let v = vs.last();
        match (field_coord(v, "geoLat"@, 2), field_coord(v, "geoLong"@, 3)) {
            (Some(lat), Some(lon)) => (pts.push(vertex_point(v, lat, lon, prev)), Some((lat, lon))),
            _ => (pts, prev),
        }
    }
}

/// A border is drawable when it gives at least three points: every arc
/// adds at least two after its starting point, so any arc suffices.
pub open spec fn drawable(pts: Seq<BorderPoint>) -> bool {
    pts.len() >= 3 || exists|i: int| 0 <= i < pts.len() && #[trigger] pts[i] is Arc
}

/// The border an `Abd` gives: its circle when it has one (centre and
/// radius must read), else its vertices when they are drawable.
pub open spec fn border_outcome(abd: AbdRaw, r: Option<Border>) -> bool {
    match abd.circle {
        Some(c) => {
            let cv = fields_view(c@);
            match (
                field_coord(cv, "geoLatCen"@, 2),
                field_coord(cv, "geoLongCen"@, 3),
                get_spec(cv, "valRadius"@),
            ) {
                (Some(lat), Some(lon), Some(rad)) => if reads_as_float(rad) {
                    r matches Some(Border::Circle { lat: a, lon: b, radius, radius_uom }) && a == lat
                        && b == lon && radius@ == rad && opt_view(radius_uom) == get_spec(
                        cv,
                        "uomRadius"@,
                    )
                } else {
                    r is None
                },
                _ => r is None,
            }
        },
        None => {
            let pts = border_points(vertex_views(abd.vertices@)).0;
            if drawable(pts) {
                r matches Some(Border::Points { points }) && points@ == pts
            } else {
                r is None
            }
        },
    }
}

fn field_lat(f: &Fields, key: &str) -> (r: Option<i64>)
    ensures
        r == field_coord(fields_view(f@), key@, 2),
{
    match get(f, key) {
        Some(t) => parse_lat(t.as_str()),
        None => None,
    }
}

fn field_lon(f: &Fields, key: &str) -> (r: Option<i64>)
    ensures
        r == field_coord(fields_view(f@), key@, 3),
{
    match get(f, key) {
        Some(t) => parse_lon(t.as_str()),
        None => None,
    }
}

/// The border of an `Abd` (see [`border_outcome`]).
pub fn border_from(abd: &AbdRaw) -> (r: Option<Border>)
    ensures
        border_outcome(*abd, r),
{
    match &abd.circle {
        Some(c) => {
            let lat = match field_lat(c, "geoLatCen") {
                Some(x) => x,
                None => return None,
            };
            let lon = match field_lon(c, "geoLongCen") {
                Some(x) => x,
                None => return None,
            };
            let radius = match get(c, "valRadius") {
                Some(x) => x,
                None => return None,
            };
            if !is_number(&to_chars(radius.as_str())) {
                return None;
            }
            return Some(Border::Circle { lat, lon, radius, radius_uom: get(c, "uomRadius") });
        },
        None => {},
    }
    let ghost vs = vertex_views(abd.vertices@);
    let mut points: Vec<BorderPoint> = Vec::new();
    let mut prev: Option<(i64, i64)> = None;
    let mut any_arc = false;
    let mut i: usize = 0;
    while i < abd.vertices.len()
        invariant
            0 <= i <= abd.vertices@.len(),
            vs == vertex_views(abd.vertices@),
            (points@, prev) == border_points(vs.take(i as int)),
            any_arc == exists|k: int| 0 <= k < points@.len() && #[trigger] points@[k] is Arc,
        decreases abd.vertices.len() - i,
    {
        let v = &abd.vertices[i];
        proof {
            assert(vs.take(i + 1).drop_last() =~= vs.take(i as int));
            assert(vs.take(i + 1).last() == fields_view(v@));
        }
        let lat = field_lat(v, "geoLat");
        let lon = field_lon(v, "geoLong");
        match (lat, lon) {
            (Some(lat), Some(lon)) => {
                let ct_cwa = match get(v, "codeType") {
                    Some(c) => str_eq(c.as_str(), "CWA"),
                    None => false,
                };
                let ct_cca = match get(v, "codeType") {
                    Some(c) => str_eq(c.as_str(), "CCA"),
                    None => false,
                };
                proof {
                    reveal_strlit("GRC");
                    reveal_strlit("CWA");
                    reveal_strlit("CCA");
                    assert("GRC"@ != "CWA"@ && "GRC"@ != "CCA"@) by {
                        assert("GRC"@[0] != "CWA"@[0]);
                        assert("GRC"@[0] != "CCA"@[0]);
                    }
                }
                let center = match (field_lat(v, "geoLatArc"), field_lon(v, "geoLongArc")) {
                    (Some(a), Some(b)) => Some((a, b)),
                    _ => None,
                };
                let p = match center {
                    Some((a, b)) => if ct_cwa && prev.is_some() {
                        BorderPoint::Arc { lat, lon, center_lat: a, center_lon: b, clockwise: true }
                    } else if ct_cca && prev.is_some() {
                        BorderPoint::Arc { lat, lon, center_lat: a, center_lon: b, clockwise: false }
                    } else {
                        BorderPoint::Straight { lat, lon }
                    },
                    None => BorderPoint::Straight { lat, lon },
                };
                let ghost old_points = points@;
                points.push(p);
                if p.is_arc() {
                    any_arc = true;
                }
                proof {
                    if !(p is Arc) {
                        assert forall|k: int| 0 <= k < points@.len() && #[trigger] points@[k] is Arc
                            implies exists|q: int| 0 <= q < old_points.len() && #[trigger] old_points[q] is Arc by {
                            assert(old_points[k] == points@[k]);
                        }
                    } else {
                        assert(points@[old_points.len() as int] is Arc);
                    }
                    if any_arc && !(p is Arc) {
                        let q = choose|q: int| 0 <= q < old_points.len() && #[trigger] old_points[q] is Arc;
                        assert(points@[q] == old_points[q]);
                    }
                }
                prev = Some((lat, lon));
            },
            _ => {},
        }
        i = i + 1;
    }
    proof {
        assert(vs.take(abd.vertices@.len() as int) =~= vs);
    }
    if points.len() >= 3 || any_arc {
        Some(Border::Points { points })
    } else {
        None
    }
}

impl BorderPoint {
    pub fn is_arc(&self) -> (r: bool)
        ensures
            r == (*self is Arc),
    {
        match self {
            BorderPoint::Arc { .. } => true,
            BorderPoint::Straight { .. } => false,
        }
    }
}

/// The airspace assembled from `ase` and its first border: `None` when
/// its class cannot be represented, it has no border, or its border is
/// not drawable.
pub open spec fn airspace_outcome(ase: AseRaw, abds: Seq<AbdRaw>, r: Option<AixmAirspace>) -> bool {
    match airspace_class_spec(ase.code_type@, opt_view(ase.code_class)) {
        None => r is None,
        Some(class) => match first_border(abds, ase.id@, 0) {
            None => r is None,
            Some(i) => match r {
                None => border_outcome(abds[i], None),
                Some(a) => border_outcome(abds[i], Some(a.border)) && a.id@ == ase.id@ && a.name@
                    == ase.name@ && a.class == class && a.floor == altitude_limit_spec(
                    opt_view(ase.lower.0),
                    opt_view(ase.lower.1),
                    opt_view(ase.lower.2),
                ) && a.ceiling == altitude_limit_spec(
                    opt_view(ase.upper.0),
                    opt_view(ase.upper.1),
                    opt_view(ase.upper.2),
                ),
            },
        },
    }
}

/// The first border, from index `i` on, of the airspace `id`.
pub open spec fn first_border(abds: Seq<AbdRaw>, id: Seq<char>, i: int) -> Option<int>
    decreases abds.len() - i,
{
    if i < 0 || i >= abds.len() {
        None
    } else if abds[i].airspace_id@ == id {
        Some(i)
    } else {
        first_border(abds, id, i + 1)
    }
}

fn first_border_exec(abds: &[AbdRaw], id: &Vec<char>) -> (r: Option<usize>)
    ensures
        match r {
            Some(i) => first_border(abds@, id@, 0) == Some(i as int) && i < abds@.len(),
            None => first_border(abds@, id@, 0) is None,
        },
{
    let mut i: usize = 0;
    while i < abds.len()
        invariant
            0 <= i <= abds@.len(),
            first_border(abds@, id@, 0) == first_border(abds@, id@, i as int),
        decreases abds.len() - i,
    {
        if vec_eq(&to_chars(abds[i].airspace_id.as_str()), id) {
            return Some(i);
        }
        i = i + 1;
    }
    None
}

fn convert_ase(ase: &AseRaw, abds: &[AbdRaw]) -> (r: Option<AixmAirspace>)
    ensures
        airspace_outcome(*ase, abds@, r),
{
    let class = match &ase.code_class {
        Some(c) => airspace_class(ase.code_type.as_str(), Some(c.as_str())),
        None => airspace_class(ase.code_type.as_str(), None),
    };
    let class = match class {
        Some(c) => c,
        None => return None,
    };
    let i = match first_border_exec(abds, &to_chars(ase.id.as_str())) {
        Some(i) => i,
        None => return None,
    };
    let b = border_from(&abds[i]);
    let ghost gb = b;
    assert(border_outcome(abds@[i as int], gb));
    let r = match b {
        Some(border) => Some(
            AixmAirspace {
                id: ase.id.clone(),
                name: ase.name.clone(),
                class,
                floor: altitude_limit(&ase.lower),
                ceiling: altitude_limit(&ase.upper),
                border,
            },
        ),
        None => None,
    };
    r
}

/// `results` holds, for each airspace, what it converts to.
pub open spec fn airspace_results(ases: Seq<AseRaw>, abds: Seq<AbdRaw>, results: Seq<Option<AixmAirspace>>) -> bool {
    &&& results.len() == ases.len()
    &&& forall|i: int| 0 <= i < ases.len() ==> airspace_outcome(ases[i], abds, #[trigger] results[i])
}

/// The airspaces that convert, in order.
pub open spec fn airspaces_assembled(ases: Seq<AseRaw>, abds: Seq<AbdRaw>, out: Seq<AixmAirspace>) -> bool {
    exists|results: Seq<Option<AixmAirspace>>|
        #[trigger] airspace_results(ases, abds, results) && out == somes(results)
}

/// Joins airspaces to their borders (by `mid`), keeping those with a
/// representable class and a drawable border, in order.
pub fn assemble_airspaces(ases: &[AseRaw], abds: &[AbdRaw]) -> (r: Vec<AixmAirspace>)
    ensures
        airspaces_assembled(ases@, abds@, r@),
{
    let mut out: Vec<AixmAirspace> = Vec::new();
    let ghost mut results: Seq<Option<AixmAirspace>> = Seq::empty();
    let mut k: usize = 0;
    while k < ases.len()
        invariant
            0 <= k <= ases@.len(),
            results.len() == k,
            forall|i: int| 0 <= i < k ==> airspace_outcome(ases@[i], abds@, #[trigger] results[i]),
            out@ == somes(results),
        decreases ases.len() - k,
    {
        let converted = convert_ase(&ases[k], abds);
        let ghost before = results;
        proof {
            results = results.push(converted);
            assert(results.drop_last() =~= before);
        }
        match converted {
            Some(a) => out.push(a),
            None => {},
        }
        k = k + 1;
    }
    assert(airspace_results(ases@, abds@, results));
    out
}

} // verus!