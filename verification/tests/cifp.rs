use freeflight::cifp::decode::{latitude, longitude, path_and_term, tenths_of_degree, uint, signed_int, non_empty, turn_direction};
use freeflight::cifp::extract::{
    extract_airport, extract_ndb_navaid, extract_procedure_leg_row, extract_runway_end,
    extract_vhf_navaid, extract_waypoint, ProcedureLegRow,
};
use freeflight::cifp::parser::{classify_bytes, classify_file, CifpError};
use freeflight::cifp::procedures::{
    altitude_constraint, build_procedures, derive_approach_runway_ident,
    derive_sid_star_runway_ident, procedure_id_for, runway_transition_number,
};
use freeflight::cifp::record::{classify_line, RecordCategory, RECORD_LENGTH};
use freeflight::cifp::runways::pair_runway_ends;
use freeflight::domain::{
    AltitudeConstraint, NavaidType, PathAndTerm, ProcedureKind, ProcedureTransition,
    TransitionKind, TurnDirection,
};

fn line_with(fields: &[(usize, &str)]) -> String {
    let mut chars = vec![b' '; RECORD_LENGTH];
    for (start, value) in fields {
        for (i, b) in value.bytes().enumerate() {
            chars[start + i] = b;
        }
    }
    String::from_utf8(chars).unwrap()
}

// ---- record classification ------------------------------------------------

#[test]
fn short_lines_are_ignored() {
    assert!(classify_line("SUSP").is_none());
}

#[test]
fn classifies_airport_records_via_the_column_13_subsection() {
    let line = line_with(&[(0, "SUSAP"), (6, "KSFO"), (10, "K2"), (12, "A")]);
    let record = classify_line(&line).unwrap();
    assert_eq!(record.category, RecordCategory::Airport);
}

#[test]
fn classifies_runway_records() {
    let line = line_with(&[(0, "SUSAP"), (6, "KSFO"), (10, "K2"), (12, "G")]);
    let record = classify_line(&line).unwrap();
    assert_eq!(record.category, RecordCategory::Runway);
}

#[test]
fn classifies_sid_star_approach_records() {
    let sid = line_with(&[(0, "SUSAP"), (6, "KSFO"), (10, "K2"), (12, "D")]);
    let star = line_with(&[(0, "SUSAP"), (6, "KSFO"), (10, "K2"), (12, "E")]);
    let approach = line_with(&[(0, "SUSAP"), (6, "KSFO"), (10, "K2"), (12, "F")]);
    assert_eq!(
        classify_line(&sid).unwrap().category,
        RecordCategory::Procedure(ProcedureKind::Sid)
    );
    assert_eq!(
        classify_line(&star).unwrap().category,
        RecordCategory::Procedure(ProcedureKind::Star)
    );
    assert_eq!(
        classify_line(&approach).unwrap().category,
        RecordCategory::Procedure(ProcedureKind::Approach)
    );
}

#[test]
fn classifies_enroute_waypoint_and_airway_records_via_the_column_6_subsection() {
    let waypoint = line_with(&[(0, "SUSA"), (4, "EA")]);
    assert_eq!(classify_line(&waypoint).unwrap().category, RecordCategory::Waypoint);
    let airway = line_with(&[(0, "SUSA"), (4, "ER")]);
    assert_eq!(classify_line(&airway).unwrap().category, RecordCategory::Airway);
}

#[test]
fn classifies_terminal_waypoint_records_via_the_column_13_subsection() {
    let line = "SUSAP KSFOK2CDOTNE K20    W     N37430718W122365136                       E0129     NAR           DOTNE                    138992605";
    assert_eq!(classify_line(line).unwrap().category, RecordCategory::Waypoint);
}

#[test]
fn classify_file_keeps_known_records_in_order() {
    let a = line_with(&[(0, "SUSAP"), (6, "KSFO"), (10, "K2"), (12, "A")]);
    let g = line_with(&[(0, "SUSAP"), (6, "KSFO"), (10, "K2"), (12, "G")]);
    let contents = format!("{a}\nHDR01\n{g}\n");
    let records = classify_file(&contents);
    assert_eq!(records.len(), 2);
    assert_eq!(records[0].category, RecordCategory::Airport);
    assert_eq!(records[1].category, RecordCategory::Runway);
    assert_eq!(records[0].raw, a);
}

#[test]
fn classify_bytes_refuses_invalid_utf8() {
    assert!(matches!(classify_bytes(&[0x53, 0xff, 0xfe]), Err(CifpError::Encoding(_))));
    let a = line_with(&[(0, "SUSAP"), (6, "KSFO"), (10, "K2"), (12, "A")]);
    assert_eq!(classify_bytes(a.as_bytes()).unwrap().len(), 1);
}

// ---- field decoders -------------------------------------------------------

#[test]
fn decodes_a_northern_eastern_hemisphere_coordinate() {
    // 39 deg 14 min 29.17 sec, in milliarcseconds
    assert_eq!(latitude("N39142917"), Some(141_269_170));
    assert_eq!(longitude("W094142917"), Some(-339_269_170));
}

#[test]
fn rejects_malformed_coordinates() {
    assert_eq!(latitude("N391429"), None);
    assert_eq!(latitude("X39142917"), None);
    assert_eq!(longitude(""), None);
}

#[test]
fn decodes_tenths_of_a_degree_course() {
    assert_eq!(tenths_of_degree("1055"), Some(105_500));
    assert_eq!(tenths_of_degree("0900T"), Some(90_000));
    assert_eq!(tenths_of_degree("    "), None);
}

#[test]
fn maps_known_leg_types_and_falls_back_to_unsupported() {
    assert_eq!(path_and_term("TF"), PathAndTerm::TF);
    assert_eq!(path_and_term("RF"), PathAndTerm::RF);
    assert_eq!(path_and_term("HM"), PathAndTerm::HoldingPattern);
    assert_eq!(path_and_term("PI"), PathAndTerm::Unsupported);
    assert_eq!(path_and_term("  "), PathAndTerm::Unsupported);
}

#[test]
fn integer_and_text_fields_trim_and_refuse_blanks() {
    assert_eq!(uint(" 0042 "), Some(42));
    assert_eq!(uint("    "), None);
    assert_eq!(uint("12a"), None);
    assert_eq!(signed_int("-0150"), Some(-150));
    assert_eq!(signed_int("+0150"), Some(150));
    assert_eq!(non_empty("  SFO  "), Some("SFO".to_string()));
    assert_eq!(non_empty("   "), None);
    assert_eq!(turn_direction("L"), Some(TurnDirection::Left));
    assert_eq!(turn_direction("E"), Some(TurnDirection::Either));
    assert_eq!(turn_direction(" "), None);
}

// ---- extraction -----------------------------------------------------------

#[test]
fn extracts_a_real_airport_record() {
    let line = line_with(&[
        (0, "S"),
        (1, "USA"),
        (4, "P"),
        (6, "KSFO"),
        (10, "K2"),
        (12, "A"),
        (13, "SFO"),
        (32, "N37370800"),
        (41, "W122223800"),
        (56, "00013"),
        (93, "SAN FRANCISCO INTL"),
    ]);
    let record = classify_line(&line).unwrap();
    assert_eq!(record.category, RecordCategory::Airport);

    let airport = extract_airport(&record).unwrap();
    assert_eq!(airport.icao, "KSFO");
    assert_eq!(airport.iata.as_deref(), Some("SFO"));
    assert_eq!(airport.elevation_ft, 13);
    assert_eq!(airport.name, "SAN FRANCISCO INTL");
    assert_eq!(airport.lat, 135_428_000);
    assert_eq!(airport.lon, -440_558_000);
}

#[test]
fn extract_airport_rejects_the_wrong_record_category() {
    let line = line_with(&[(0, "S"), (4, "P"), (6, "KSFO"), (12, "G")]);
    let record = classify_line(&line).unwrap();
    assert_eq!(record.category, RecordCategory::Runway);
    assert!(matches!(extract_airport(&record), Err(CifpError::WrongCategory)));
}

#[test]
fn extract_airport_names_the_missing_or_invalid_field() {
    let no_icao = line_with(&[(0, "S"), (4, "P"), (12, "A"), (32, "N37370800"), (41, "W122223800")]);
    let record = classify_line(&no_icao).unwrap();
    assert!(matches!(extract_airport(&record), Err(CifpError::MissingField(_))));
    let bad_lat = line_with(&[(0, "S"), (4, "P"), (6, "KSFO"), (12, "A"), (32, "X37370800"), (41, "W122223800")]);
    let record = classify_line(&bad_lat).unwrap();
    assert!(matches!(extract_airport(&record), Err(CifpError::InvalidField(_))));
}

fn runway_end_line(
    airport: &str,
    ident: &str,
    length_ft: &str,
    bearing_tenths: &str,
    lat: &str,
    lon: &str,
) -> String {
    line_with(&[
        (0, "S"),
        (4, "P"),
        (6, airport),
        (12, "G"),
        (13, ident),
        (22, length_ft),
        (27, bearing_tenths),
        (32, lat),
        (41, lon),
        (77, "200"),
    ])
}

#[test]
fn extracts_and_pairs_runway_ends() {
    let low = runway_end_line("KSFO", "RW10L", "11870", "1050", "N37370000", "W122230000");
    let high = runway_end_line("KSFO", "RW28R", "11870", "2850", "N37373000", "W122210000");

    let low_record = classify_line(&low).unwrap();
    let high_record = classify_line(&high).unwrap();
    let low_end = extract_runway_end(&low_record).unwrap();
    let high_end = extract_runway_end(&high_record).unwrap();
    assert_eq!(low_end.ident, "10L");
    assert_eq!(high_end.ident, "28R");
    assert_eq!(low_end.width_ft, 200);
    assert_eq!(low_end.magnetic_bearing_mdeg, Some(105_000));

    let runways = pair_runway_ends(&[low_end, high_end]);
    assert_eq!(runways.len(), 1);
    let runway = &runways[0];
    assert_eq!(runway.ident, "10L/28R");
    assert_eq!(runway.length_ft, 11870);
    assert_eq!(runway.low_end.ident, "10L");
    assert_eq!(runway.high_end.ident, "28R");
}

#[test]
fn unpaired_runway_end_still_produces_a_runway() {
    let only_end = runway_end_line("KKKK", "RW01", "05000", "0100", "N10000000", "W100000000");
    let record = classify_line(&only_end).unwrap();
    let end = extract_runway_end(&record).unwrap();
    let runways = pair_runway_ends(&[end]);
    assert_eq!(runways.len(), 1);
    assert_eq!(runways[0].ident, "01/01");
}

#[allow(clippy::too_many_arguments)]
fn vhf_navaid_line(
    ident: &str,
    region: &str,
    freq: &str,
    lat: &str,
    lon: &str,
    dme_ident: &str,
    elevation: &str,
) -> String {
    line_with(&[
        (0, "S"),
        (4, "D"),
        (10, region),
        (13, ident),
        (22, freq),
        (32, lat),
        (41, lon),
        (51, dme_ident),
        (79, elevation),
    ])
}

#[test]
fn extracts_a_vor_dme_record() {
    let line = vhf_navaid_line("OSI", "K2", "11350", "N37370000", "W122230000", "OSI", "00100");
    let record = classify_line(&line).unwrap();
    assert_eq!(record.category, RecordCategory::VhfNavaid);

    let navaid = extract_vhf_navaid(&record).unwrap();
    assert_eq!(navaid.ident, "OSI");
    assert_eq!(navaid.region, "K2");
    assert_eq!(navaid.navaid_type, NavaidType::VorDme);
    assert_eq!(navaid.freq_khz, Some(113_500));
    assert_eq!(navaid.elevation_ft, Some(100));
    assert_eq!(navaid.lat, 135_420_000);
}

#[test]
fn extracts_a_vor_only_record_with_no_dme() {
    let line = vhf_navaid_line("SGD", "K2", "11550", "N38300000", "W121490000", "", "");
    let record = classify_line(&line).unwrap();
    let navaid = extract_vhf_navaid(&record).unwrap();
    assert_eq!(navaid.navaid_type, NavaidType::Vor);
    assert_eq!(navaid.elevation_ft, None);
}

fn ndb_navaid_line(ident: &str, region: &str, freq: &str, lat: &str, lon: &str) -> String {
    line_with(&[
        (0, "S"),
        (4, "D"),
        (5, "B"),
        (10, region),
        (13, ident),
        (22, freq),
        (32, lat),
        (41, lon),
    ])
}

#[test]
fn extracts_an_ndb_navaid_record() {
    let line = ndb_navaid_line("OAK", "K2", "03650", "N37430000", "W122120000");
    let record = classify_line(&line).unwrap();
    assert_eq!(record.category, RecordCategory::NdbNavaid);

    let navaid = extract_ndb_navaid(&record).unwrap();
    assert_eq!(navaid.ident, "OAK");
    assert_eq!(navaid.navaid_type, NavaidType::Ndb);
    assert_eq!(navaid.freq_khz, Some(365));
    assert_eq!(navaid.elevation_ft, None);
}

fn waypoint_line(ident: &str, region: &str, lat: &str, lon: &str) -> String {
    line_with(&[(0, "S"), (4, "E"), (5, "A"), (10, region), (13, ident), (32, lat), (41, lon)])
}

#[test]
fn extracts_an_enroute_waypoint_record() {
    let line = waypoint_line("FIXAB", "K2", "N38000000", "W122000000");
    let record = classify_line(&line).unwrap();
    assert_eq!(record.category, RecordCategory::Waypoint);

    let waypoint = extract_waypoint(&record).unwrap();
    assert_eq!(waypoint.ident, "FIXAB");
    assert_eq!(waypoint.region, "K2");
    assert_eq!(waypoint.lat, 38 * 3_600_000);
    assert_eq!(waypoint.lon, -122 * 3_600_000);
}

#[allow(clippy::too_many_arguments)]
fn procedure_leg_line(
    airport: &str,
    subsection: &str,
    procedure_ident: &str,
    route_type: &str,
    transition_ident: &str,
    seq: &str,
    fix_ident: &str,
    path_and_term: &str,
    altitude_desc: &str,
    altitude1: &str,
) -> String {
    line_with(&[
        (0, "S"),
        (4, "P"),
        (6, airport),
        (12, subsection),
        (13, procedure_ident),
        (19, route_type),
        (20, transition_ident),
        (26, seq),
        (29, fix_ident),
        (47, path_and_term),
        (70, "0900"),
        (82, altitude_desc),
        (84, altitude1),
    ])
}

#[test]
fn extracts_a_real_sid_leg_record() {
    let line = procedure_leg_line(
        "KSFO", "D", "TEST1 ", "2", "     ", "010", "FIXA ", "TF", "+", "03000",
    );
    let record = classify_line(&line).unwrap();
    assert_eq!(record.category, RecordCategory::Procedure(ProcedureKind::Sid));

    let row = extract_procedure_leg_row(&record).unwrap();
    assert_eq!(row.airport_icao, "KSFO");
    assert_eq!(row.procedure_ident, "TEST1");
    assert_eq!(row.route_type, '2');
    assert_eq!(row.transition_ident, "");
    assert_eq!(row.seq, 10);
    assert_eq!(row.fix_ident, "FIXA");
    assert_eq!(row.path_and_term, PathAndTerm::TF);
    assert_eq!(row.magnetic_course_mdeg, Some(90_000));
    assert_eq!(row.altitude_desc, '+');
    assert_eq!(row.altitude1_ft, Some(3000));
}

fn leg_row(
    kind: ProcedureKind,
    procedure_ident: &str,
    route_type: char,
    transition_ident: &str,
    seq: u32,
    fix_ident: &str,
) -> ProcedureLegRow {
    ProcedureLegRow {
        airport_icao: "KSFO".to_string(),
        kind,
        procedure_ident: procedure_ident.to_string(),
        route_type,
        transition_ident: transition_ident.to_string(),
        seq,
        fix_ident: fix_ident.to_string(),
        path_and_term: PathAndTerm::TF,
        turn_direction: None,
        magnetic_course_mdeg: None,
        altitude_desc: ' ',
        altitude1_ft: None,
        altitude2_ft: None,
        speed_limit_kt: None,
    }
}

#[test]
fn build_procedures_groups_sid_transitions_and_orders_legs_by_sequence() {
    let rows = vec![
        leg_row(ProcedureKind::Sid, "TEST1", '2', "", 20, "FIXB"),
        leg_row(ProcedureKind::Sid, "TEST1", '2', "", 10, "FIXA"),
        leg_row(ProcedureKind::Sid, "TEST1", '3', "TRANA", 10, "FIXC"),
    ];
    let parsed = build_procedures(&rows);

    assert_eq!(parsed.procedures.len(), 1);
    assert_eq!(parsed.procedures[0].kind, ProcedureKind::Sid);
    assert_eq!(parsed.procedures[0].ident, "TEST1");

    assert_eq!(parsed.transitions.len(), 2);
    let common = parsed.transitions.iter().find(|t| t.kind == TransitionKind::Common).unwrap();
    assert_eq!(common.ident, "");
    let enroute = parsed.transitions.iter().find(|t| t.kind == TransitionKind::Enroute).unwrap();
    assert_eq!(enroute.ident, "TRANA");

    let common_legs: Vec<_> = parsed.legs.iter().filter(|l| l.transition_id == common.id).collect();
    assert_eq!(common_legs.len(), 2);
    assert_eq!(common_legs[0].fix_ident.as_deref(), Some("FIXA"));
    assert_eq!(common_legs[1].fix_ident.as_deref(), Some("FIXB"));
}

#[test]
fn build_procedures_classifies_approach_transition_and_missed_approach() {
    let rows = vec![
        leg_row(ProcedureKind::Approach, "ILS28L", 'A', "IAF1", 10, "IAF1"),
        leg_row(ProcedureKind::Approach, "ILS28L", 'I', "", 20, "FAF"),
        leg_row(ProcedureKind::Approach, "ILS28L", 'Z', "", 30, "MISFIX"),
    ];
    let parsed = build_procedures(&rows);

    assert_eq!(parsed.transitions.len(), 3);
    let has_kind = |kind: TransitionKind| parsed.transitions.iter().any(|t| t.kind == kind);
    assert!(has_kind(TransitionKind::Approach));
    assert!(has_kind(TransitionKind::Common));
    assert!(has_kind(TransitionKind::Missed));
    assert_eq!(parsed.procedures[0].runway_ident.as_deref(), Some("28L"));
}

#[test]
fn derives_approach_runway_ident_from_common_faa_naming_conventions() {
    assert_eq!(derive_approach_runway_ident("I28L"), Some("28L".to_string()));
    assert_eq!(derive_approach_runway_ident("R31"), Some("31".to_string()));
    assert_eq!(derive_approach_runway_ident("H10RZ"), Some("10R".to_string()));
    assert_eq!(derive_approach_runway_ident("L19L"), Some("19L".to_string()));
    assert_eq!(derive_approach_runway_ident("VOR-A"), None);
}

fn transition(id: &str, ident: &str) -> ProcedureTransition {
    ProcedureTransition {
        id: id.into(),
        procedure_id: "p1".into(),
        ident: ident.into(),
        kind: TransitionKind::Enroute,
    }
}

#[test]
fn derives_sid_star_runway_ident_only_when_transitions_agree() {
    let one_runway = [transition("t1", "RW28L"), transition("t2", "OSI")];
    let refs: Vec<&ProcedureTransition> = one_runway.iter().collect();
    assert_eq!(derive_sid_star_runway_ident(&refs), Some("28L".to_string()));

    let two_runways = [transition("t1", "RW28L"), transition("t2", "RW10R")];
    let refs: Vec<&ProcedureTransition> = two_runways.iter().collect();
    assert_eq!(derive_sid_star_runway_ident(&refs), None);
}

#[test]
fn build_procedures_derives_sid_runway_ident_from_a_single_runway_transition() {
    let rows = vec![
        leg_row(ProcedureKind::Sid, "TEST1", '2', "", 10, "FIXA"),
        leg_row(ProcedureKind::Sid, "TEST1", '1', "RW28L", 10, "RW28L"),
    ];
    let parsed = build_procedures(&rows);
    assert_eq!(parsed.procedures[0].runway_ident.as_deref(), Some("28L"));
}

#[test]
fn altitude_constraint_decodes_all_description_codes() {
    assert_eq!(altitude_constraint('+', Some(3000), None), Some(AltitudeConstraint::AtOrAbove(3000)));
    assert_eq!(altitude_constraint('-', Some(3000), None), Some(AltitudeConstraint::AtOrBelow(3000)));
    assert_eq!(altitude_constraint('@', Some(3000), None), Some(AltitudeConstraint::At(3000)));
    assert_eq!(
        altitude_constraint('B', Some(4000), Some(2000)),
        Some(AltitudeConstraint::Between { lower: 2000, upper: 4000 })
    );
}

#[test]
fn build_procedures_keeps_one_procedure_per_identity_and_unique_ids() {
    let rows = vec![
        leg_row(ProcedureKind::Star, "ARRV2", '2', "", 10, "FIXA"),
        leg_row(ProcedureKind::Star, "ARRV2", '2', "", 20, "FIXB"),
        leg_row(ProcedureKind::Sid, "ARRV2", '2', "", 30, "FIXC"),
    ];
    let parsed = build_procedures(&rows);
    assert_eq!(parsed.procedures.len(), 2);
    assert_ne!(parsed.procedures[0].id, parsed.procedures[1].id);
    assert_eq!(parsed.legs.len(), 3);
}

#[test]
fn runway_transitions_name_their_runway_and_others_name_none() {
    assert_eq!(runway_transition_number("RW28L").as_deref(), Some("28L"));
    assert_eq!(runway_transition_number("RW04").as_deref(), Some("04"));
    assert_eq!(runway_transition_number("RW10RZ").as_deref(), Some("10R"));
    assert_eq!(runway_transition_number("ALL"), None);
    assert_eq!(runway_transition_number("RWY"), None);
    assert_eq!(runway_transition_number("SAU28"), None);
}

#[test]
fn procedure_ids_join_airport_kind_and_ident() {
    assert_eq!(procedure_id_for("KSFO", ProcedureKind::Sid, "SSTIK5"), "KSFO:SID:SSTIK5");
    assert_eq!(procedure_id_for("KSFO", ProcedureKind::Star, "BDEGA3"), "KSFO:STAR:BDEGA3");
    assert_eq!(procedure_id_for("KSFO", ProcedureKind::Approach, "I28L"), "KSFO:APPROACH:I28L");
}

#[test]
fn an_enroute_record_with_blank_subsections_is_unknown() {
    let blank = line_with(&[(0, "S"), (4, "E"), (13, "FIXAB")]);
    assert_eq!(classify_line(&blank).unwrap().category, RecordCategory::Unknown);
    let airway_at_column_13 = line_with(&[(0, "S"), (4, "E"), (12, "R")]);
    assert_eq!(classify_line(&airway_at_column_13).unwrap().category, RecordCategory::Airway);
}

#[test]
fn coordinate_and_course_subfields_read_as_numbers() {
    // "+9" degrees: 9 deg 14 min 29.17 sec.
    assert_eq!(latitude("N+9142917"), Some(9 * 3_600_000 + 14 * 60_000 + 29_170));
    // ".5" degrees is 30 minutes.
    assert_eq!(latitude("N.5000000"), Some(1_800_000));
    assert_eq!(latitude("N3914 917"), None);
    // 12.5 tenths is 1.25 degrees.
    assert_eq!(tenths_of_degree("12.5"), Some(1_250));
    assert_eq!(tenths_of_degree("1e3T"), Some(100_000));
    assert_eq!(tenths_of_degree("-25"), Some(-2_500));
    assert_eq!(tenths_of_degree("T"), None);
}

#[test]
fn classifying_joined_texts_classifies_each_in_turn() {
    let a = format!("{}\r\n{}", line_with(&[(0, "S"), (4, "P"), (12, "A")]), "short");
    let b = format!("{}\n\n{}", line_with(&[(0, "S"), (4, "E"), (5, "R")]), line_with(&[(0, "S"), (4, "D")]));
    let joined = classify_file(&format!("{a}\n{b}"));
    let mut apart = classify_file(&a);
    apart.extend(classify_file(&b));
    assert_eq!(joined, apart);
    assert_eq!(joined.len(), 3);
}

#[test]
fn integer_fields_read_as_std_parses_them() {
    assert_eq!(uint("   "), None);
    assert_eq!(uint("-1"), None);
    assert_eq!(uint("4294967296"), None);
    assert_eq!(uint("12A"), None);
    assert_eq!(uint(" 00100 "), Some(100));
    assert_eq!(uint("+7"), Some(7));
    assert_eq!(signed_int("00013"), Some(13));
    assert_eq!(signed_int("-0050"), Some(-50));
    assert_eq!(signed_int("2147483648"), None);
    assert_eq!(signed_int("-2147483648"), Some(i32::MIN));
    assert_eq!(signed_int(""), None);
}

#[test]
fn a_kept_field_is_already_trimmed() {
    let once = non_empty("  RW28L ").unwrap();
    assert_eq!(once, "RW28L");
    assert_eq!(non_empty(&once), Some(once.clone()));
    assert_eq!(non_empty(" \t "), None);
}
