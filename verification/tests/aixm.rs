use freeflight::aixm::airspace::{
    airspace_class, altitude_limit, assemble_airspaces, border_from, AbdRaw, AseRaw, Border,
    BorderPoint,
};
use freeflight::aixm::airway::{assemble_airways, RsgRaw, RteRaw};
use freeflight::aixm::convert::{airport_from_fields, navaid_from_fields, waypoint_from_fields};
use freeflight::aixm::coord::{parse_lat, parse_lon};
use freeflight::aixm::fields::Fields;
use freeflight::aixm::parser::{parse_events, parse_snapshot, XmlEvent};
use freeflight::aixm::runway::{assemble_runways, surface, RdnRaw, RwyRaw};
use freeflight::domain::{
    AirportType, AirspaceClass, AirwayKind, AltitudeLimit, NavaidType, RunwaySurface,
    SpecialUseKind,
};

fn fields(pairs: &[(&str, &str)]) -> Fields {
    pairs.iter().map(|(k, v)| (k.to_string(), v.to_string())).collect()
}

fn triple(code: &str, val: &str, uom: &str) -> (Option<String>, Option<String>, Option<String>) {
    (Some(code.into()), Some(val.into()), Some(uom.into()))
}

// ---- airspace -------------------------------------------------------------

#[test]
fn class_mapping_covers_sua_and_classed_control_skips_the_rest() {
    assert_eq!(airspace_class("R", None), Some(AirspaceClass::SpecialUse(SpecialUseKind::Restricted)));
    assert_eq!(airspace_class("P", None), Some(AirspaceClass::SpecialUse(SpecialUseKind::Prohibited)));
    assert_eq!(airspace_class("D-OTHER", None), Some(AirspaceClass::SpecialUse(SpecialUseKind::Warning)));
    assert_eq!(airspace_class("TMA", Some("D")), Some(AirspaceClass::D));
    assert_eq!(airspace_class("CTR", Some("C")), Some(AirspaceClass::C));
    assert_eq!(airspace_class("TMA", Some("A")), None);
    assert_eq!(airspace_class("FIR", Some("A")), None);
    assert_eq!(airspace_class("SECTOR", Some("D")), None);
}

#[test]
fn altitude_limits_map_the_aixm_codes() {
    assert_eq!(altitude_limit(&triple("STD", "195", "FL")), AltitudeLimit::FlightLevel(195));
    assert_eq!(altitude_limit(&triple("ALT", "1100", "FT")), AltitudeLimit::Msl(1100));
    assert_eq!(altitude_limit(&triple("HEI", "0", "FT")), AltitudeLimit::Agl(0));
    assert_eq!(altitude_limit(&triple("ALT", "300", "M")), AltitudeLimit::Msl(984));
    assert_eq!(altitude_limit(&(Some("SFC".into()), None, None)), AltitudeLimit::Surface);
}

#[test]
fn straight_polygon_keeps_its_vertices() {
    let v = |lat: &str, lon: &str| fields(&[("codeType", "GRC"), ("geoLat", lat), ("geoLong", lon)]);
    let abd = AbdRaw {
        airspace_id: "LFR92".into(),
        vertices: vec![
            v("483533.00N", "0054448.00E"),
            v("483140.00N", "0054830.00E"),
            v("482900.00N", "0054530.00E"),
            v("483215.00N", "0054005.00E"),
        ],
        circle: None,
    };
    match border_from(&abd).unwrap() {
        Border::Points { points } => {
            assert_eq!(points.len(), 4);
            // 48°35'33"N, 5°44'48"E in milliarcseconds
            assert_eq!(points[0], BorderPoint::Straight { lat: 174_933_000, lon: 20_688_000 });
        }
        other => panic!("expected a point border, got {other:?}"),
    }
}

#[test]
fn a_circle_border_keeps_its_center_and_radius() {
    let c = fields(&[
        ("geoLatCen", "483241.00N"),
        ("geoLongCen", "0023444.00E"),
        ("valRadius", "1"),
        ("uomRadius", "NM"),
    ]);
    let abd = AbdRaw { airspace_id: "LFP46".into(), vertices: vec![], circle: Some(c) };
    match border_from(&abd).unwrap() {
        Border::Circle { lat, lon, radius, radius_uom } => {
            assert_eq!(lat, 48 * 3_600_000 + 32 * 60_000 + 41_000);
            assert_eq!(lon, 2 * 3_600_000 + 34 * 60_000 + 44_000);
            assert_eq!(radius, "1");
            assert_eq!(radius_uom.as_deref(), Some("NM"));
        }
        other => panic!("expected a circle, got {other:?}"),
    }
}

#[test]
fn arc_vertices_carry_their_center() {
    let abd = AbdRaw {
        airspace_id: "X".into(),
        vertices: vec![
            fields(&[("codeType", "GRC"), ("geoLat", "480000.00N"), ("geoLong", "0020000.00E")]),
            fields(&[("codeType", "CWA"), ("geoLat", "482000.00N"), ("geoLong", "0022000.00E"),
                ("geoLatArc", "481000.00N"), ("geoLongArc", "0021000.00E")]),
            fields(&[("codeType", "GRC"), ("geoLat", "483000.00N"), ("geoLong", "0020000.00E")]),
        ],
        circle: None,
    };
    match border_from(&abd).unwrap() {
        Border::Points { points } => {
            assert_eq!(points.len(), 3);
            assert_eq!(points[0], BorderPoint::Straight { lat: 48 * 3_600_000, lon: 2 * 3_600_000 });
            assert_eq!(
                points[1],
                BorderPoint::Arc {
                    lat: 48 * 3_600_000 + 20 * 60_000,
                    lon: 2 * 3_600_000 + 20 * 60_000,
                    center_lat: 48 * 3_600_000 + 10 * 60_000,
                    center_lon: 2 * 3_600_000 + 10 * 60_000,
                    clockwise: true,
                }
            );
        }
        other => panic!("expected a point border, got {other:?}"),
    }
}

fn ase(id: &str, ct: &str) -> AseRaw {
    AseRaw {
        id: id.into(),
        code_type: ct.into(),
        name: "x".into(),
        code_class: None,
        upper: triple("HEI", "1000", "FT"),
        lower: triple("HEI", "0", "FT"),
    }
}

#[test]
fn assemble_skips_unmapped_class_and_missing_geometry() {
    let abd = AbdRaw {
        airspace_id: "R1".into(),
        vertices: vec![
            fields(&[("codeType", "GRC"), ("geoLat", "480000.00N"), ("geoLong", "0020000.00E")]),
            fields(&[("codeType", "GRC"), ("geoLat", "481000.00N"), ("geoLong", "0020000.00E")]),
            fields(&[("codeType", "GRC"), ("geoLat", "480000.00N"), ("geoLong", "0021000.00E")]),
        ],
        circle: None,
    };
    let out = assemble_airspaces(&[ase("R1", "R"), ase("FIR1", "FIR"), ase("R2", "R")], &[abd]);
    assert_eq!(out.len(), 1);
    assert_eq!(out[0].id, "R1");
    assert_eq!(out[0].ceiling, AltitudeLimit::Agl(1000));
}

#[test]
fn a_border_with_too_few_points_is_not_drawn() {
    let abd = AbdRaw {
        airspace_id: "R1".into(),
        vertices: vec![
            fields(&[("codeType", "GRC"), ("geoLat", "480000.00N"), ("geoLong", "0020000.00E")]),
            fields(&[("codeType", "GRC"), ("geoLat", "481000.00N"), ("geoLong", "0020000.00E")]),
        ],
        circle: None,
    };
    assert!(border_from(&abd).is_none());
    assert!(assemble_airspaces(&[ase("R1", "R")], &[abd]).is_empty());
}

// ---- airways --------------------------------------------------------------

fn seg(awy: &str, sta: &str, end: &str, min: Option<u32>, max: Option<u32>, lvl: &str) -> RsgRaw {
    RsgRaw {
        airway_ident: awy.into(),
        start_fix: sta.into(),
        end_fix: end.into(),
        min_ft: min,
        max_ft: max,
        code_lvl: Some(lvl.into()),
        code_type: Some("RNAV".into()),
    }
}

#[test]
fn chains_segments_into_order_regardless_of_input_order() {
    let rtes = [RteRaw { ident: "L615".into() }];
    let rsgs = [
        seg("L615", "LUREN", "BRY", Some(6500), Some(11500), "L"),
        seg("L615", "DJL", "LUREN", Some(6500), Some(34500), "B"),
    ];
    let (airways, legs) = assemble_airways(&rtes, &rsgs);

    assert_eq!(airways.len(), 1);
    assert_eq!(airways[0].ident, "L615");
    assert_eq!(airways[0].kind, AirwayKind::RnavLow);

    let l: Vec<_> = legs.iter().map(|l| l.fix_ident.as_str()).collect();
    assert_eq!(l, vec!["DJL", "LUREN", "BRY"]);
    assert_eq!(legs[0].seq, 1);
    assert_eq!(legs[0].min_altitude_ft, None);
    assert_eq!(legs[1].max_altitude_ft, Some(34500));
    assert_eq!(legs[2].max_altitude_ft, Some(11500));
}

#[test]
fn upper_level_airway_is_classified_high() {
    let rtes = [RteRaw { ident: "UN491".into() }];
    let rsgs = [seg("UN491", "A", "B", Some(19500), Some(46000), "U")];
    let (airways, _) = assemble_airways(&rtes, &rsgs);
    assert_eq!(airways[0].kind, AirwayKind::RnavHigh);
}

#[test]
fn route_without_segments_yields_airway_with_no_legs() {
    let rtes = [RteRaw { ident: "EMPTY1".into() }];
    let (airways, legs) = assemble_airways(&rtes, &[]);
    assert_eq!(airways.len(), 1);
    assert_eq!(airways[0].kind, AirwayKind::Other);
    assert!(legs.is_empty());
}

#[test]
fn segment_only_airway_is_still_emitted() {
    let rsgs = [seg("Z999", "P", "Q", None, None, "L")];
    let (airways, legs) = assemble_airways(&[], &rsgs);
    assert_eq!(airways.len(), 1);
    assert_eq!(airways[0].ident, "Z999");
    assert_eq!(legs.len(), 2);
}

#[test]
fn a_cycle_stops_at_the_repeat_and_duplicate_routes_collapse() {
    let rtes = [RteRaw { ident: "C1".into() }, RteRaw { ident: "C1".into() }];
    let rsgs = [seg("C1", "A", "B", None, None, "L"), seg("C1", "B", "A", None, None, "L")];
    let (airways, legs) = assemble_airways(&rtes, &rsgs);
    assert_eq!(airways.len(), 1);
    let l: Vec<_> = legs.iter().map(|l| l.fix_ident.as_str()).collect();
    assert_eq!(l, vec!["A", "B"]);
}

// ---- runways --------------------------------------------------------------

fn rwy(icao: &str, desig: &str) -> RwyRaw {
    RwyRaw {
        airport_icao: icao.into(),
        designator: desig.into(),
        length_ft: 8005,
        width_ft: 148,
        surface: RunwaySurface::Concrete,
    }
}

fn rdn(icao: &str, rwy_d: &str, dir: &str, lat: i64, lon: i64, hdg_mdeg: i64, pos: bool) -> RdnRaw {
    RdnRaw {
        airport_icao: icao.into(),
        rwy_designator: rwy_d.into(),
        dir_designator: dir.into(),
        lat,
        lon,
        heading_mdeg: hdg_mdeg,
        has_position: pos,
    }
}

#[test]
fn surface_maps_real_composition_codes() {
    assert_eq!(surface(Some("GRASS")), RunwaySurface::Turf);
    assert_eq!(surface(Some("ASPH")), RunwaySurface::Asphalt);
    assert_eq!(surface(Some("BITUM")), RunwaySurface::Asphalt);
    assert_eq!(surface(Some("CONC")), RunwaySurface::Concrete);
    assert_eq!(surface(Some("CONC+ASPH")), RunwaySurface::Concrete);
    assert_eq!(surface(Some("MACADAM")), RunwaySurface::Other);
    assert_eq!(surface(Some("WATER")), RunwaySurface::Water);
    assert_eq!(surface(None), RunwaySurface::Other);
}

#[test]
fn assembles_two_directions_in_low_high_order() {
    let rwys = [rwy("LFRC", "10/28")];
    let rdns = [
        rdn("LFRC", "10/28", "28", 178_732_800, -5_232_960, 280_774, true),
        rdn("LFRC", "10/28", "10", 178_747_200, -5_352_840, 100_749, true),
    ];
    let out = assemble_runways(&rwys, &rdns);
    assert_eq!(out.len(), 1);
    let r = &out[0];
    assert_eq!(r.ident, "10/28");
    assert_eq!(r.low_end.ident, "10");
    assert_eq!(r.low_end.heading_mdeg, 100_749);
    assert_eq!(r.low_end.lon, -5_352_840);
    assert_eq!(r.high_end.ident, "28");
    assert_eq!(r.high_end.heading_mdeg, 280_774);
}

#[test]
fn the_order_of_directions_does_not_change_the_runways() {
    let rwys = [rwy("LFRC", "10/28"), rwy("LFXX", "05/23")];
    let a = || rdn("LFRC", "10/28", "28", 178_732_800, -5_232_960, 280_774, true);
    let b = || rdn("LFRC", "10/28", "10", 178_747_200, -5_352_840, 100_749, true);
    let c = || rdn("LFXX", "05/23", "23", 144_000_000, 7_200_000, 230_000, false);
    let one = assemble_runways(&rwys, &[a(), b(), c()]);
    let other = assemble_runways(&rwys, &[c(), b(), a()]);
    assert_eq!(one, other);
    assert_eq!(one[1].high_end.heading_mdeg, 230_000);
    assert_eq!(one[1].high_end.lat, 0);
}

#[test]
fn missing_direction_falls_back_to_designator_half() {
    let rwys = [rwy("LFXX", "05/23")];
    let rdns = [rdn("LFXX", "05/23", "05", 144_000_000, 7_200_000, 50_000, true)];
    let out = assemble_runways(&rwys, &rdns);
    let r = &out[0];
    assert_eq!(r.low_end.ident, "05");
    assert_eq!(r.high_end.ident, "23");
    assert_eq!(r.high_end.lat, 0);
}

#[test]
fn direction_without_coordinates_keeps_ident_and_heading() {
    let rwys = [rwy("LFYY", "18/36")];
    let rdns = [rdn("LFYY", "18/36", "18", 0, 0, 180_000, false)];
    let out = assemble_runways(&rwys, &rdns);
    let r = &out[0];
    assert_eq!(r.low_end.ident, "18");
    assert_eq!(r.low_end.heading_mdeg, 180_000);
    assert_eq!(r.low_end.lat, 0);
}

// ---- field maps -----------------------------------------------------------

#[test]
fn airport_from_fields_maps_identity_name_coords_elev() {
    let f = fields(&[
        ("codeId", "LFPG"),
        ("txtName", "PARIS CHARLES DE GAULLE"),
        ("codeIcao", "LFPG"),
        ("codeIata", "CDG"),
        ("codeType", "AD"),
        ("geoLat", "490042.00N"),
        ("geoLong", "0023259.00E"),
        ("valElev", "119"),
        ("uomDistVer", "FT"),
    ]);
    let a = airport_from_fields(&f).unwrap();
    assert_eq!(a.icao, "LFPG");
    assert_eq!(a.iata.as_deref(), Some("CDG"));
    assert_eq!(a.airport_type, AirportType::Airport);
    assert_eq!(a.elevation_ft, 119);
    assert_eq!(a.lat, 176_442_000);
}

#[test]
fn airport_elevation_in_meters_is_converted() {
    let f = fields(&[
        ("codeId", "LFXX"),
        ("geoLat", "490000.00N"),
        ("geoLong", "0020000.00E"),
        ("valElev", "100"),
        ("uomDistVer", "M"),
    ]);
    let a = airport_from_fields(&f).unwrap();
    assert_eq!(a.elevation_ft, 328);
}

#[test]
fn airport_without_coords_or_id_is_skipped() {
    assert!(airport_from_fields(&fields(&[("codeId", "LFXX")])).is_none());
    assert!(airport_from_fields(&fields(&[("geoLat", "490000.00N"), ("geoLong", "0020000.00E")])).is_none());
}

#[test]
fn heliport_code_type_maps_to_heliport() {
    let f = fields(&[
        ("codeId", "LFPH"),
        ("codeType", "HP"),
        ("geoLat", "485000.00N"),
        ("geoLong", "0022000.00E"),
    ]);
    assert_eq!(airport_from_fields(&f).unwrap().airport_type, AirportType::Heliport);
}

#[test]
fn vor_freq_mhz_to_khz_ndb_stays_khz() {
    let vor = fields(&[
        ("codeId", "PON"),
        ("geoLat", "490900.00N"),
        ("geoLong", "0020200.00E"),
        ("valFreq", "111.6"),
        ("uomFreq", "MHZ"),
    ]);
    let n = navaid_from_fields("Vor", &vor, "LF").unwrap();
    assert_eq!(n.navaid_type, NavaidType::Vor);
    assert_eq!(n.region, "LF");
    assert_eq!(n.freq_khz, Some(111_600));

    let ndb = fields(&[
        ("codeId", "AB"),
        ("geoLat", "490900.00N"),
        ("geoLong", "0020200.00E"),
        ("valFreq", "380"),
        ("uomFreq", "KHZ"),
    ]);
    let n = navaid_from_fields("Ndb", &ndb, "LF").unwrap();
    assert_eq!(n.navaid_type, NavaidType::Ndb);
    assert_eq!(n.freq_khz, Some(380));
}

#[test]
fn unmodeled_navaid_tag_is_skipped() {
    let f = fields(&[("codeId", "X"), ("geoLat", "490000.00N"), ("geoLong", "0020000.00E")]);
    assert!(navaid_from_fields("Marker", &f, "LF").is_none());
}

#[test]
fn waypoint_from_dpn_fields() {
    let f = fields(&[("codeId", "ABABA"), ("geoLat", "483000.00N"), ("geoLong", "0020600.00E")]);
    let w = waypoint_from_fields(&f, "LF").unwrap();
    assert_eq!(w.ident, "ABABA");
    assert_eq!(w.region, "LF");
}

// ---- coordinates ----------------------------------------------------------

#[test]
fn parses_dms_latitude_and_longitude() {
    assert_eq!(parse_lat("490042.00N"), Some(176_442_000));
    assert_eq!(parse_lon("0023259.00E"), Some(9_179_000));
}

#[test]
fn southern_and_western_hemispheres_are_negative() {
    assert!(parse_lat("233000.00S").unwrap() < 0);
    assert!(parse_lon("0450000.00W").unwrap() < 0);
    assert_eq!(parse_lat("233000.00S"), Some(-84_600_000));
}

#[test]
fn tolerates_decimal_degree_fallback() {
    assert_eq!(parse_lat("49.0128N"), Some(176_446_080));
    assert_eq!(parse_lon("-2.55"), Some(-9_180_000));
}

#[test]
fn empty_is_none() {
    assert!(parse_lat("").is_none());
    assert!(parse_lat("   ").is_none());
}

// ---- whole snapshots ------------------------------------------------------

const SAMPLE: &[u8] = br#"<?xml version="1.0" encoding="ISO-8859-1"?>
<AIXM-Snapshot version="4.5" origin="SIA" effective="2026-07-09">
  <Ahp>
    <AhpUid mid="1"><codeId>LFPG</codeId></AhpUid>
    <OrgUid mid="9"><txtName>FRANCE</txtName></OrgUid>
    <txtName>PARIS CHARLES DE GAULLE</txtName>
    <codeIcao>LFPG</codeIcao>
    <codeIata>CDG</codeIata>
    <codeType>AD</codeType>
    <geoLat>490042.00N</geoLat>
    <geoLong>0023259.00E</geoLong>
    <valElev>392</valElev>
    <uomDistVer>FT</uomDistVer>
  </Ahp>
  <Vor>
    <VorUid mid="2">
      <codeId>PON</codeId>
      <geoLat>490900.00N</geoLat>
      <geoLong>0020200.00E</geoLong>
    </VorUid>
    <txtName>PONTOISE</txtName>
    <valFreq>111.6</valFreq>
    <uomFreq>MHZ</uomFreq>
  </Vor>
  <Dpn>
    <DpnUid mid="3">
      <codeId>ABABA</codeId>
      <geoLat>483000.00N</geoLat>
      <geoLong>0020600.00E</geoLong>
    </DpnUid>
    <codeType>ICAO</codeType>
  </Dpn>
  <Uni><UniUid mid="4"><txtName>IGNORED FEATURE</txtName></UniUid></Uni>
</AIXM-Snapshot>"#;

#[test]
fn parses_snapshot_into_ff_core_types() {
    let data = parse_snapshot(SAMPLE, "LF").unwrap();

    assert_eq!(data.airports.len(), 1);
    let a = &data.airports[0];
    assert_eq!(a.icao, "LFPG");
    assert_eq!(a.iata.as_deref(), Some("CDG"));
    assert_eq!(a.name, "PARIS CHARLES DE GAULLE");
    assert_eq!(a.elevation_ft, 392);
    assert_eq!(a.lat, 176_442_000);
    assert_eq!(a.lon, 9_179_000);

    assert_eq!(data.navaids.len(), 1);
    let n = &data.navaids[0];
    assert_eq!(n.ident, "PON");
    assert_eq!(n.navaid_type, NavaidType::Vor);
    assert_eq!(n.freq_khz, Some(111_600));
    assert_eq!(n.region, "LF");
    assert_eq!(n.lat, 49 * 3_600_000 + 9 * 60_000);

    assert_eq!(data.waypoints.len(), 1);
    assert_eq!(data.waypoints[0].ident, "ABABA");
    assert_eq!(data.waypoints[0].region, "LF");
    assert_eq!(data.effective.as_deref(), Some("2026-07-09"));
}

#[test]
fn ignores_unhandled_features_without_confusing_field_scope() {
    let data = parse_snapshot(SAMPLE, "LF").unwrap();
    assert!(data.airports.iter().all(|a| a.name != "IGNORED FEATURE"));
}

#[test]
fn a_mismatched_end_tag_is_an_xml_error() {
    assert!(parse_snapshot(b"<AIXM-Snapshot><Ahp></Rwy></AIXM-Snapshot>", "LF").is_err());
}

const JOINS: &[u8] = br#"<AIXM-Snapshot effective="2026-07-09T00:00:00">
  <Rwy>
    <RwyUid mid="10"><AhpUid mid="1"><codeId>LFRC</codeId></AhpUid><txtDesig>10/28</txtDesig></RwyUid>
    <valLen>2440</valLen><valWid>45</valWid><uomDimRwy>M</uomDimRwy><codeComposition>ASPH</codeComposition>
  </Rwy>
  <Rdn>
    <RdnUid mid="11"><RwyUid mid="10"><AhpUid mid="1"><codeId>LFRC</codeId></AhpUid><txtDesig>10/28</txtDesig></RwyUid><txtDesig>10</txtDesig></RdnUid>
    <geoLat>493900.00N</geoLat><geoLong>0012900.00W</geoLong><valTrueBrg>100.749</valTrueBrg>
  </Rdn>
  <Rte><RteUid mid="20"><txtDesig>L615</txtDesig></RteUid></Rte>
  <Rsg>
    <RsgUid mid="21"><RteUid mid="20"><txtDesig>L615</txtDesig></RteUid>
      <DpnUidSta mid="3"><codeId>DJL</codeId></DpnUidSta><VorUidEnd mid="2"><codeId>LUREN</codeId></VorUidEnd></RsgUid>
    <valDistVerLower>65</valDistVerLower><uomDistVerLower>FL</uomDistVerLower><codeLvl>B</codeLvl><codeType>RNAV</codeType>
  </Rsg>
  <Ase>
    <AseUid mid="30"><codeType>R</codeType><codeId>LFR92</codeId></AseUid>
    <txtName>R 92</txtName><codeDistVerUpper>ALT</codeDistVerUpper><valDistVerUpper>1100</valDistVerUpper><uomDistVerUpper>FT</uomDistVerUpper>
    <codeDistVerLower>HEI</codeDistVerLower><valDistVerLower>0</valDistVerLower><uomDistVerLower>FT</uomDistVerLower>
  </Ase>
  <Abd>
    <AbdUid mid="31"><AseUid mid="30"><codeType>R</codeType><codeId>LFR92</codeId></AseUid></AbdUid>
    <Avx><codeType>GRC</codeType><geoLat>483533.00N</geoLat><geoLong>0054448.00E</geoLong></Avx>
    <Avx><codeType>GRC</codeType><geoLat>483140.00N</geoLat><geoLong>0054830.00E</geoLong></Avx>
    <Avx><codeType>GRC</codeType><geoLat>482900.00N</geoLat><geoLong>0054530.00E</geoLong></Avx>
  </Abd>
</AIXM-Snapshot>"#;

#[test]
fn joins_runways_airways_and_airspaces_across_features() {
    let data = parse_snapshot(JOINS, "LF").unwrap();
    assert_eq!(data.effective.as_deref(), Some("2026-07-09"));

    assert_eq!(data.runways.len(), 1);
    let r = &data.runways[0];
    assert_eq!(r.airport_icao, "LFRC");
    assert_eq!(r.ident, "10/28");
    assert_eq!(r.surface, RunwaySurface::Asphalt);
    assert_eq!(r.low_end.ident, "10");
    assert_eq!(r.low_end.heading_mdeg, 100_749);
    assert_eq!(r.low_end.lat, 49 * 3_600_000 + 39 * 60_000);
    assert_eq!(r.high_end.ident, "28");

    assert_eq!(data.airways.len(), 1);
    assert_eq!(data.airways[0].ident, "L615");
    let fixes: Vec<_> = data.airway_legs.iter().map(|l| l.fix_ident.as_str()).collect();
    assert_eq!(fixes, vec!["DJL", "LUREN"]);
    assert_eq!(data.airway_legs[1].min_altitude_ft, Some(6500));

    assert_eq!(data.airspaces.len(), 1);
    let a = &data.airspaces[0];
    assert_eq!(a.id, "30");
    assert_eq!(a.name, "LFR92");
    assert_eq!(a.class, AirspaceClass::SpecialUse(SpecialUseKind::Restricted));
    assert_eq!(a.ceiling, AltitudeLimit::Msl(1100));
    assert_eq!(a.floor, AltitudeLimit::Agl(0));
    match &a.border {
        Border::Points { points } => assert_eq!(points.len(), 3),
        other => panic!("expected a point border, got {other:?}"),
    }
}

#[test]
fn parse_events_reads_scoped_fields_from_plain_events() {
    let start = |n: &str| XmlEvent::Start { name: n.into(), attrs: vec![] };
    let end = |n: &str| XmlEvent::End { name: n.into() };
    let text = |t: &str| XmlEvent::Text { text: Some(t.into()) };
    let events = vec![
        start("Dpn"),
        start("DpnUid"),
        start("codeId"), text(" ABABA "), end("codeId"),
        start("geoLat"), text("483000.00N"), end("geoLat"),
        start("geoLong"), text("0020600.00E"), end("geoLong"),
        end("DpnUid"),
        start("OrgUid"), start("codeId"), text("WRONG"), end("codeId"), end("OrgUid"),
        end("Dpn"),
        XmlEvent::Eof,
    ];
    let data = parse_events(&events, "LF");
    assert_eq!(data.waypoints.len(), 1);
    assert_eq!(data.waypoints[0].ident, "ABABA");
    assert_eq!(data.waypoints[0].lat, 174_600_000);
    assert!(data.effective.is_none());
}


// Records from the French SIA AIXM 4.5 export, wrapped in a snapshot root.
const REAL_EXCERPT: &[u8] = br#"<?xml version="1.0" encoding="UTF-8"?>
<AIXM-Snapshot version="4.5" origin="Sia-France" effective="2026-07-09T00:00:00.000+02:00">
    <Ahp>
        <AhpUid mid="1521876"><codeId>NW01</codeId></AhpUid>
        <OrgUid mid="1520816"><txtName>NOUVELLE CALEDONIE</txtName></OrgUid>
        <txtName>POUM MALABOU (CLOSED)</txtName>
        <codeType>LS</codeType>
        <geoLat>201721.00S</geoLat>
        <geoLong>1640558.00E</geoLong>
        <codeDatum>WGE</codeDatum>
        <valCrc>34D2880A</valCrc>
        <txtRmk>AD CLOSED</txtRmk>
    </Ahp>
    <Vor>
        <VorUid mid="1526850">
            <codeId>PPR</codeId>
            <geoLat>161554.70N</geoLat>
            <geoLong>0613224.50W</geoLong>
        </VorUid>
        <OrgUid mid="1520788"><txtName>ANTILLES FRANCAISES</txtName></OrgUid>
        <txtName>GUADELOUPE MARYSE CONDE</txtName>
        <codeType>VOR</codeType>
        <valFreq>112.9</valFreq>
        <uomFreq>MHZ</uomFreq>
        <codeDatum>WGE</codeDatum>
        <valElev>44</valElev>
        <uomDistVer>FT</uomDistVer>
        <Vtt><codeWorkHr>H24</codeWorkHr></Vtt>
    </Vor>
    <Ndb>
        <NdbUid mid="1523956">
            <codeId>SN</codeId>
            <geoLat>461739.74N</geoLat>
            <geoLong>0040716.98E</geoLong>
        </NdbUid>
        <OrgUid mid="1520800"><txtName>FRANCE</txtName></OrgUid>
        <txtName>SAINT YAN</txtName>
        <valFreq>430</valFreq>
        <uomFreq>KHZ</uomFreq>
        <codeClass>B</codeClass>
        <codeDatum>WGE</codeDatum>
        <valElev>1431</valElev>
        <uomDistVer>FT</uomDistVer>
        <Ntt><codeWorkHr>H24</codeWorkHr></Ntt>
    </Ndb>
    <Dpn>
        <DpnUid mid="1538188">
            <codeId>UTELA</codeId>
            <geoLat>485421.20N</geoLat>
            <geoLong>0025737.60E</geoLong>
        </DpnUid>
        <codeDatum>WGE</codeDatum>
        <codeType>ICAO</codeType>
        <txtName>UTELA</txtName>
    </Dpn>
    <Rwy>
        <RwyUid mid="1527957">
            <AhpUid mid="1520886"><codeId>LFRC</codeId></AhpUid>
            <txtDesig>10/28</txtDesig>
        </RwyUid>
        <valLen>2440</valLen>
        <valWid>45</valWid>
        <uomDimRwy>M</uomDimRwy>
        <codeComposition>CONC</codeComposition>
        <txtPcnNote>40 R/B/W/T</txtPcnNote>
    </Rwy>
    <Rdn>
        <RdnUid mid="1534979">
            <RwyUid mid="1527957">
                <AhpUid mid="1520886"><codeId>LFRC</codeId></AhpUid>
                <txtDesig>10/28</txtDesig>
            </RwyUid>
            <txtDesig>10</txtDesig>
        </RdnUid>
        <geoLat>493907.92N</geoLat>
        <geoLong>0012912.71W</geoLong>
        <valTrueBrg>100.749</valTrueBrg>
        <valMagBrg>100.1</valMagBrg>
    </Rdn>
    <Rdn>
        <RdnUid mid="1535037">
            <RwyUid mid="1527957">
                <AhpUid mid="1520886"><codeId>LFRC</codeId></AhpUid>
                <txtDesig>10/28</txtDesig>
            </RwyUid>
            <txtDesig>28</txtDesig>
        </RdnUid>
        <geoLat>493853.17N</geoLat>
        <geoLong>0012713.19W</geoLong>
        <valTrueBrg>280.774</valTrueBrg>
        <valMagBrg>280.11</valMagBrg>
    </Rdn>
    <Rte>
        <RteUid mid="1543698"><txtDesig>L615</txtDesig><txtLocDesig>EUR</txtLocDesig></RteUid>
    </Rte>
    <Rsg>
        <RsgUid mid="1545074">
            <RteUid mid="1543698"><txtDesig>L615</txtDesig><txtLocDesig>EUR</txtLocDesig></RteUid>
            <DpnUidSta mid="1537228"><codeId>LUREN</codeId><geoLat>480133.00N</geoLat><geoLong>0035450.00E</geoLong></DpnUidSta>
            <DmeUidEnd mid="1527375"><codeId>BRY</codeId><geoLat>482425.18N</geoLat><geoLong>0031741.23E</geoLong></DmeUidEnd>
        </RsgUid>
        <codeType>RNAV</codeType>
        <codeLvl>L</codeLvl>
        <valDistVerUpper>115</valDistVerUpper>
        <uomDistVerUpper>FL</uomDistVerUpper>
        <valDistVerLower>065</valDistVerLower>
        <uomDistVerLower>FL</uomDistVerLower>
    </Rsg>
    <Rsg>
        <RsgUid mid="23717169">
            <RteUid mid="1543698"><txtDesig>L615</txtDesig><txtLocDesig>EUR</txtLocDesig></RteUid>
            <VorUidSta mid="1526958"><codeId>DJL</codeId><geoLat>471614.82N</geoLat><geoLong>0050550.38E</geoLong></VorUidSta>
            <DpnUidEnd mid="1537228"><codeId>LUREN</codeId><geoLat>480133.00N</geoLat><geoLong>0035450.00E</geoLong></DpnUidEnd>
        </RsgUid>
        <codeType>RNAV</codeType>
        <codeLvl>B</codeLvl>
        <valDistVerUpper>345</valDistVerUpper>
        <uomDistVerUpper>FL</uomDistVerUpper>
        <valDistVerLower>065</valDistVerLower>
        <uomDistVerLower>FL</uomDistVerLower>
    </Rsg>
    <Ase>
        <AseUid mid="1561293"><codeType>R</codeType><codeId>LFR92</codeId></AseUid>
        <txtName>92</txtName>
        <codeDistVerUpper>HEI</codeDistVerUpper>
        <valDistVerUpper>1000</valDistVerUpper>
        <uomDistVerUpper>FT</uomDistVerUpper>
        <codeDistVerLower>HEI</codeDistVerLower>
        <valDistVerLower>0</valDistVerLower>
        <uomDistVerLower>FT</uomDistVerLower>
    </Ase>
    <Abd>
        <AbdUid mid="1568438"><AseUid mid="1561293"><codeType>R</codeType><codeId>LFR92</codeId></AseUid></AbdUid>
        <Avx><codeType>GRC</codeType><geoLat>483533.00N</geoLat><geoLong>0054448.00E</geoLong></Avx>
        <Avx><codeType>GRC</codeType><geoLat>483140.00N</geoLat><geoLong>0054830.00E</geoLong></Avx>
        <Avx><codeType>GRC</codeType><geoLat>482900.00N</geoLat><geoLong>0054530.00E</geoLong></Avx>
        <Avx><codeType>GRC</codeType><geoLat>483215.00N</geoLat><geoLong>0054005.00E</geoLong></Avx>
    </Abd>
</AIXM-Snapshot>"#;

#[test]
fn parses_real_sia_records() {
    let data = parse_snapshot(REAL_EXCERPT, "LF").unwrap();

    assert_eq!(data.effective.as_deref(), Some("2026-07-09"));

    assert_eq!(data.airports.len(), 1);
    let a = &data.airports[0];
    assert_eq!(a.icao, "NW01");
    // The airport's own name, not the region name of its OrgUid block.
    assert_eq!(a.name, "POUM MALABOU (CLOSED)");
    // 20°17'21"S, 164°05'58"E in milliarcseconds; south is negative.
    assert_eq!(a.lat, -73_041_000);
    assert_eq!(a.lon, 590_758_000);

    let vor = data.navaids.iter().find(|n| n.ident == "PPR").expect("PPR VOR");
    assert_eq!(vor.navaid_type, NavaidType::Vor);
    assert_eq!(vor.freq_khz, Some(112_900));
    assert_eq!(vor.elevation_ft, Some(44));
    assert_eq!(vor.region, "LF");
    // 61°32'24.50"W
    assert_eq!(vor.lon, -221_544_500);

    let ndb = data.navaids.iter().find(|n| n.ident == "SN").expect("SN NDB");
    assert_eq!(ndb.navaid_type, NavaidType::Ndb);
    assert_eq!(ndb.freq_khz, Some(430));
    assert_eq!(ndb.elevation_ft, Some(1431));

    assert_eq!(data.waypoints.len(), 1);
    let w = &data.waypoints[0];
    assert_eq!(w.ident, "UTELA");
    // 48°54'21.20"N
    assert_eq!(w.lat, 176_061_200);

    assert_eq!(data.runways.len(), 1);
    let r = &data.runways[0];
    assert_eq!(r.airport_icao, "LFRC");
    assert_eq!(r.ident, "10/28");
    assert_eq!(r.length_ft, 8005); // 2440 m
    assert_eq!(r.width_ft, 148); // 45 m
    assert_eq!(r.surface, RunwaySurface::Concrete);
    assert_eq!(r.low_end.ident, "10");
    assert_eq!(r.low_end.heading_mdeg, 100_749);
    // 49°39'07.92"N, 1°29'12.71"W
    assert_eq!(r.low_end.lat, 178_747_920);
    assert_eq!(r.low_end.lon, -5_352_710);
    assert_eq!(r.high_end.ident, "28");
    assert_eq!(r.high_end.heading_mdeg, 280_774);

    assert_eq!(data.airways.len(), 1);
    let awy = &data.airways[0];
    assert_eq!(awy.ident, "L615");
    assert_eq!(awy.kind, AirwayKind::RnavLow);

    // Segments LUREN->BRY and DJL->LUREN chain into DJL -> LUREN -> BRY.
    let l615: Vec<_> = data.airway_legs.iter().filter(|l| l.airway_ident == "L615").collect();
    assert_eq!(l615.len(), 3);
    assert_eq!(l615[0].fix_ident, "DJL");
    assert_eq!(l615[0].seq, 1);
    assert_eq!(l615[1].fix_ident, "LUREN");
    assert_eq!(l615[1].max_altitude_ft, Some(34_500));
    assert_eq!(l615[2].fix_ident, "BRY");
    assert_eq!(l615[2].min_altitude_ft, Some(6_500));
    assert_eq!(l615[2].max_altitude_ft, Some(11_500));

    assert_eq!(data.airspaces.len(), 1);
    let a = &data.airspaces[0];
    assert_eq!(a.id, "1561293");
    assert_eq!(a.name, "LFR92");
    assert_eq!(a.class, AirspaceClass::SpecialUse(SpecialUseKind::Restricted));
    assert_eq!(a.ceiling, AltitudeLimit::Agl(1000));
    assert_eq!(a.floor, AltitudeLimit::Agl(0));
    match &a.border {
        Border::Points { points } => {
            assert_eq!(points.len(), 4);
            // 48°35'33"N, 5°44'48"E
            assert_eq!(points[0], BorderPoint::Straight { lat: 174_933_000, lon: 20_688_000 });
        }
        other => panic!("expected a point border, got {other:?}"),
    }
}

#[test]
fn a_frequency_without_unit_is_read_by_its_magnitude() {
    let with = |freq: &str| {
        fields(&[("codeId", "XY"), ("geoLat", "490900.00N"), ("geoLong", "0020200.00E"), ("valFreq", freq)])
    };
    // Below 100: MHz.
    assert_eq!(navaid_from_fields("Vor", &with("9.95e1"), "LF").unwrap().freq_khz, Some(99_500));
    assert_eq!(navaid_from_fields("Vor", &with("99.99999"), "LF").unwrap().freq_khz, Some(100_000));
    // 100 and above: kHz.
    assert_eq!(navaid_from_fields("Ndb", &with("1e2"), "LF").unwrap().freq_khz, Some(100));
    assert_eq!(navaid_from_fields("Ndb", &with("380"), "LF").unwrap().freq_khz, Some(380));
    // Not a number: no frequency.
    assert_eq!(navaid_from_fields("Ndb", &with("38O"), "LF").unwrap().freq_khz, None);
}
