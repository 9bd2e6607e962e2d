use freeflight::domain::{AirspaceClass, AltitudeLimit, NavaidType, SpecialUseKind};
use freeflight::openaip::model::{Airport, Airspace, Geometry, Measure, Navaid};
use freeflight::openaip::{
    airport, airspace, airspace_class, altitude_limit, convert_country, length_ft, navaid,
    navaid_type, special_use_from_type, AirspaceTypeCode, DatumCode, UnitCode,
};

fn measure(value: &str, unit: i32, datum: Option<i32>) -> Measure {
    Measure { value: Some(value.to_string()), unit: Some(unit), reference_datum: datum }
}

const MAS: i64 = 3_600_000;

#[test]
fn metres_become_feet_and_unknown_units_are_refused() {
    // 3999 m is about 13,120.08 ft; feet are whole here.
    assert_eq!(length_ft(&measure("3999.0", UnitCode::METRES, None)), Some(13_120));
    assert_eq!(length_ft(&measure("4500.0", UnitCode::FEET, None)), Some(4500));
    assert_eq!(length_ft(&measure("100.0", 99, None)), None);
}

#[test]
fn a_quoted_frequency_reads_as_a_number() {
    let m = Measure { value: Some("115.800".into()), unit: Some(UnitCode::MHZ), reference_datum: None };
    // 115.8 in thousandths
    assert_eq!(m.scaled(1000, 0), Some(115_800));
    let blank = Measure { value: None, unit: Some(UnitCode::MHZ), reference_datum: None };
    assert_eq!(blank.scaled(1000, 0), None);
}

#[test]
fn icao_class_matches_known_real_world_airspace() {
    assert_eq!(airspace_class(Some(3)), Some(AirspaceClass::D));
    assert_eq!(airspace_class(Some(2)), Some(AirspaceClass::C));
    assert_eq!(airspace_class(Some(4)), Some(AirspaceClass::E));
    assert_eq!(airspace_class(Some(6)), Some(AirspaceClass::G));
    assert_eq!(airspace_class(Some(0)), Some(AirspaceClass::A));
    assert_eq!(airspace_class(Some(1)), Some(AirspaceClass::B));
    assert_eq!(airspace_class(Some(5)), Some(AirspaceClass::F));
    assert_eq!(airspace_class(Some(8)), None);
    assert_eq!(airspace_class(Some(42)), None);
    assert_eq!(airspace_class(None), None);
}

fn restricted_area(name: &str) -> Airspace {
    Airspace {
        id: "x".into(),
        name: name.into(),
        country: "DE".into(),
        kind: Some(AirspaceTypeCode::RESTRICTED),
        icao_class: Some(8),
        upper_limit: None,
        lower_limit: None,
        geometry: Geometry::Polygon {
            coordinates: vec![vec![
                (10 * MAS, 48 * MAS),
                (10 * MAS + MAS / 10, 48 * MAS),
                (10 * MAS + MAS / 10, 48 * MAS + MAS / 10),
                (10 * MAS, 48 * MAS),
            ]],
        },
    }
}

#[test]
fn special_use_comes_from_the_type_code_not_the_name() {
    assert_eq!(
        special_use_from_type(Some(AirspaceTypeCode::RESTRICTED)),
        Some(AirspaceClass::SpecialUse(SpecialUseKind::Restricted))
    );
    assert_eq!(
        special_use_from_type(Some(AirspaceTypeCode::DANGER)),
        Some(AirspaceClass::SpecialUse(SpecialUseKind::Warning))
    );
    let converted = airspace(&restricted_area("EDR1 GARCHING H24")).expect("restricted area converts");
    assert_eq!(converted.class, AirspaceClass::SpecialUse(SpecialUseKind::Restricted));
    assert_eq!(
        special_use_from_type(Some(AirspaceTypeCode::PROHIBITED)),
        Some(AirspaceClass::SpecialUse(SpecialUseKind::Prohibited))
    );
    for (code, expected) in [
        (AirspaceTypeCode::RMZ, SpecialUseKind::Rmz),
        (AirspaceTypeCode::TMZ, SpecialUseKind::Tmz),
        (AirspaceTypeCode::ATZ, SpecialUseKind::Atz),
        (AirspaceTypeCode::GLIDER_SECTOR, SpecialUseKind::Glider),
        (AirspaceTypeCode::PARACHUTE, SpecialUseKind::Parachute),
        (AirspaceTypeCode::LOW_FLYING, SpecialUseKind::LowFlying),
    ] {
        assert_eq!(
            special_use_from_type(Some(code)),
            Some(AirspaceClass::SpecialUse(expected)),
            "code {code}"
        );
    }
    assert_eq!(special_use_from_type(Some(AirspaceTypeCode::FIR)), None);
    assert_eq!(special_use_from_type(Some(18)), None);
}

#[test]
fn altitude_limits_cover_the_three_real_combinations() {
    assert_eq!(
        altitude_limit(Some(&measure("4500", UnitCode::FEET, Some(DatumCode::MSL)))),
        AltitudeLimit::Msl(4500)
    );
    assert_eq!(
        altitude_limit(Some(&measure("2500", UnitCode::FEET, Some(DatumCode::GND)))),
        AltitudeLimit::Agl(2500)
    );
    assert_eq!(
        altitude_limit(Some(&measure("0", UnitCode::FEET, Some(DatumCode::GND)))),
        AltitudeLimit::Surface
    );
    assert_eq!(
        altitude_limit(Some(&measure("100", UnitCode::FLIGHT_LEVEL, Some(DatumCode::STD)))),
        AltitudeLimit::FlightLevel(100)
    );
    assert_eq!(altitude_limit(None), AltitudeLimit::Unlimited);
}

fn test_navaid(unit: i32, channel: Option<&str>) -> Navaid {
    Navaid {
        name: "TEST".into(),
        identifier: Some("TST".into()),
        kind: Some(0),
        country: "DE".into(),
        frequency: Some(Measure { value: Some("341.000".into()), unit: Some(unit), reference_datum: None }),
        elevation: None,
        geometry: Geometry::Point { lon: 10 * MAS, lat: 48 * MAS },
        channel: channel.map(str::to_string),
    }
}

#[test]
fn navaids_are_typed_from_frequency_band_and_channel() {
    assert_eq!(navaid_type(&test_navaid(UnitCode::KHZ, None)), Some(NavaidType::Ndb));
    assert_eq!(navaid_type(&test_navaid(UnitCode::MHZ, None)), Some(NavaidType::Vor));
    assert_eq!(navaid_type(&test_navaid(UnitCode::MHZ, Some("88X"))), Some(NavaidType::VorDme));
    assert_eq!(navaid_type(&test_navaid(42, None)), None);
}

#[test]
fn navaid_frequency_normalises_to_khz() {
    let vhf = Navaid {
        name: "BERLIN".into(),
        identifier: Some("bbi".into()),
        kind: Some(7),
        country: "DE".into(),
        frequency: Some(Measure { value: Some("114.100".into()), unit: Some(UnitCode::MHZ), reference_datum: None }),
        elevation: Some(measure("100", UnitCode::METRES, Some(DatumCode::MSL))),
        geometry: Geometry::Point { lon: 13 * MAS + MAS / 2, lat: 52 * MAS + 2 * MAS / 5 },
        channel: Some("88X".into()),
    };
    let n = navaid(&vhf, "ED").expect("converts");
    assert_eq!(n.ident, "BBI", "identifiers are upper-cased");
    assert_eq!(n.freq_khz, Some(114_100));
    assert_eq!(n.region, "ED");
    assert_eq!(n.elevation_ft, Some(328));
    assert_eq!(n.lat, 52 * MAS + 2 * MAS / 5);
}

fn frankfurt() -> Airport {
    Airport {
        name: "FRANKFURT BGU".into(),
        icao_code: None,
        iata_code: None,
        country: "DE".into(),
        kind: Some(7),
        geometry: Geometry::Point { lon: 8 * MAS + MAS / 2, lat: 50 * MAS + MAS / 10 },
        elevation: Some(measure("207", UnitCode::METRES, Some(DatumCode::MSL))),
        runways: Vec::new(),
        frequencies: Vec::new(),
    }
}

#[test]
fn airports_without_an_icao_code_are_kept_under_a_marked_synthetic_key() {
    let mut a = frankfurt();
    let converted = airport(&a, "62614a341eacded7b7bbdc95").expect("converts");
    assert!(converted.icao.starts_with("OAIP:"), "got {}", converted.icao);
    assert_eq!(converted.elevation_ft, 679, "207 m ≈ 679 ft");
    a.icao_code = Some("eddf".into());
    assert_eq!(airport(&a, "x").expect("converts").icao, "EDDF");
    a.icao_code = None;
    assert!(airport(&a, "").is_none());
}

#[test]
fn a_country_converts_in_order_and_counts_what_it_skips() {
    let mut no_point = frankfurt();
    no_point.geometry = Geometry::Other;
    let class_less = Airspace { kind: Some(AirspaceTypeCode::FIR), ..restricted_area("FIR") };
    let data = convert_country(
        &[frankfurt(), no_point],
        &[test_navaid(UnitCode::KHZ, None), test_navaid(42, None)],
        &[restricted_area("ED-R 1"), class_less],
        "ED",
    );
    assert_eq!(data.airports.len(), 1);
    assert_eq!(data.navaids.len(), 1);
    assert_eq!(data.airspaces.len(), 1);
    assert_eq!(data.skipped.airports, 1);
    assert_eq!(data.skipped.navaids, 1);
    assert_eq!(data.skipped.airspaces, 1);
    assert!(data.airports[0].icao.starts_with("OAIP:"));
    assert_eq!(data.airspaces[0].boundary.points.len(), 4);
    assert_eq!(data.airspaces[0].boundary.points[0], (48 * MAS, 10 * MAS));
}

#[test]
fn numbers_with_an_exponent_or_beyond_the_usual_range_still_read() {
    assert_eq!(
        altitude_limit(Some(&measure("1e3", UnitCode::FEET, Some(DatumCode::MSL)))),
        AltitudeLimit::Msl(1000)
    );
    assert_eq!(
        altitude_limit(Some(&measure("2.5E+3", UnitCode::FEET, Some(DatumCode::GND)))),
        AltitudeLimit::Agl(2500)
    );
    // Far beyond u32: the cast saturates.
    assert_eq!(
        altitude_limit(Some(&measure("12345678901234567890", UnitCode::FEET, Some(DatumCode::MSL)))),
        AltitudeLimit::Msl(u32::MAX)
    );
    assert_eq!(
        altitude_limit(Some(&measure("1e300", UnitCode::FLIGHT_LEVEL, None))),
        AltitudeLimit::FlightLevel(u32::MAX)
    );
    // Negative and tiny values round to zero.
    assert_eq!(
        altitude_limit(Some(&measure("-5", UnitCode::FEET, Some(DatumCode::GND)))),
        AltitudeLimit::Surface
    );
    assert_eq!(
        altitude_limit(Some(&measure("1e-300", UnitCode::FEET, Some(DatumCode::MSL)))),
        AltitudeLimit::Msl(0)
    );
    // Metres, written with an exponent: 3e2 m is 984.25 ft.
    assert_eq!(
        altitude_limit(Some(&measure("3e2", UnitCode::METRES, Some(DatumCode::MSL)))),
        AltitudeLimit::Msl(984)
    );
    assert_eq!(
        altitude_limit(Some(&measure("100.0", UnitCode::METRES, Some(DatumCode::GND)))),
        AltitudeLimit::Agl(328)
    );
    // Not a number at all.
    assert_eq!(altitude_limit(Some(&measure("1e", UnitCode::FEET, None))), AltitudeLimit::Unlimited);
    assert_eq!(altitude_limit(Some(&measure("e3", UnitCode::FEET, None))), AltitudeLimit::Unlimited);
    assert_eq!(length_ft(&measure("1.2e1", UnitCode::FEET, None)), Some(12));
    assert_eq!(length_ft(&measure(" 5. ", UnitCode::FEET, None)), Some(5));
}

#[test]
fn non_finite_values_read_as_a_float_cast_reads_them() {
    // A quoted infinity saturates; a NaN casts to 0.
    assert_eq!(
        altitude_limit(Some(&measure("Infinity", UnitCode::FEET, Some(DatumCode::MSL)))),
        AltitudeLimit::Msl(u32::MAX)
    );
    assert_eq!(
        altitude_limit(Some(&measure("-inf", UnitCode::FEET, Some(DatumCode::MSL)))),
        AltitudeLimit::Msl(0)
    );
    assert_eq!(
        altitude_limit(Some(&measure("NaN", UnitCode::FEET, Some(DatumCode::GND)))),
        AltitudeLimit::Surface
    );
    assert_eq!(
        altitude_limit(Some(&measure("infinit", UnitCode::FEET, Some(DatumCode::MSL)))),
        AltitudeLimit::Unlimited
    );
}
