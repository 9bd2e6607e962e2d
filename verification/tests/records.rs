use freeflight::accounts::{token_hash, Phase};
use freeflight::charts::{BoundingBox, ChartCatalog, ChartCatalogEntry, ChartKind};
use freeflight::cycle::{currency_from_days, cycle_currency, days_until_effective, AIRAC_PERIOD_DAYS};
use freeflight::domain::{AirportType, CycleCurrency, FrequencyKind, RunwaySurface};
use freeflight::nasr::{
    airport_from_row, comm_type, frequency_from_row, runway_from_row, site_type, surface_type,
    AptBaseRow, AptRunwayRow, FrqRow,
};
use freeflight::notam::{expires_in_from_text, notams_url, TokenCache};
use freeflight::postflight::{escape_xml, landing_counts,
    classify, segment_phases, summarize, LandingKind, PhaseKind, PhaseSample, PhaseSegment,
};

// ---- cycles ---------------------------------------------------------------

#[test]
fn a_cycle_published_ahead_of_its_date_is_not_yet_effective() {
    assert_eq!(cycle_currency("2026-10-01", "2026-09-17"), Some(CycleCurrency::NotYetEffective));
    assert_eq!(days_until_effective("2026-10-01", "2026-09-17"), Some(14));
}

#[test]
fn a_cycle_is_current_on_its_effective_day_and_through_its_period() {
    assert_eq!(cycle_currency("2026-09-03", "2026-09-03"), Some(CycleCurrency::Current));
    assert_eq!(cycle_currency("2026-09-03", "2026-09-30"), Some(CycleCurrency::Current));
}

#[test]
fn a_cycle_expires_when_the_next_one_takes_effect() {
    assert_eq!(cycle_currency("2026-09-03", "2026-10-01"), Some(CycleCurrency::Expired));
}

#[test]
fn there_is_no_gap_between_current_and_expired() {
    assert_eq!(cycle_currency("2026-09-03", "2026-09-30"), Some(CycleCurrency::Current));
    assert_eq!(cycle_currency("2026-09-03", "2026-10-01"), Some(CycleCurrency::Expired));
}

#[test]
fn days_until_is_none_once_the_cycle_is_in_force() {
    assert_eq!(days_until_effective("2026-09-03", "2026-09-03"), None);
    assert_eq!(days_until_effective("2026-09-03", "2026-09-10"), None);
}

#[test]
fn an_unparseable_date_is_not_guessed_at() {
    assert_eq!(cycle_currency("", "2026-09-17"), None);
    assert_eq!(cycle_currency("2026-10-01", "not a date"), None);
    assert_eq!(days_until_effective("nonsense", "2026-09-17"), None);
}

#[test]
fn dates_are_trimmed_and_calendar_days_are_counted_across_months_and_leap_days() {
    assert_eq!(days_until_effective(" 2028-03-01 ", "2028-02-28"), Some(2));
    assert_eq!(days_until_effective("2027-03-01", "2027-02-28"), Some(1));
    assert_eq!(cycle_currency("2026-02-30", "2026-03-01"), None);
}

#[test]
fn currency_partitions_the_days_around_a_cycle() {
    assert_eq!(currency_from_days(100, 99), CycleCurrency::NotYetEffective);
    assert_eq!(currency_from_days(100, 100), CycleCurrency::Current);
    assert_eq!(currency_from_days(100, 100 + AIRAC_PERIOD_DAYS - 1), CycleCurrency::Current);
    assert_eq!(currency_from_days(100, 100 + AIRAC_PERIOD_DAYS), CycleCurrency::Expired);
}

// ---- post-flight phases ---------------------------------------------------

const T0: i64 = 1_700_000_000_000;

fn t(minute: i64) -> i64 {
    T0 + minute * 60_000
}

fn seg(kind: PhaseKind, start_min: i64, end_min: i64) -> PhaseSegment {
    PhaseSegment { kind, start_ms: t(start_min), end_ms: t(end_min) }
}

#[test]
fn counts_a_touch_and_go_then_a_full_stop() {
    let segments = vec![
        seg(PhaseKind::Ground, 0, 2),
        seg(PhaseKind::Taxi, 2, 5),
        seg(PhaseKind::Airborne, 5, 20),
        seg(PhaseKind::Ground, 20, 21),
        seg(PhaseKind::Airborne, 21, 40),
        seg(PhaseKind::Taxi, 40, 45),
        seg(PhaseKind::Ground, 45, 46),
    ];
    let summary = summarize(&segments);
    assert_eq!(summary.landings, vec![LandingKind::TouchAndGo, LandingKind::FullStop]);
    assert_eq!(summary.airborne_ms, (15 + 19) * 60_000);
    assert_eq!(summary.taxi_ms, (3 + 5) * 60_000);
    assert_eq!(summary.total_ms, 46 * 60_000);
}

#[test]
fn classifies_ground_taxi_and_airborne_by_speed() {
    let mk = |min: i64, gs_kt: i64| PhaseSample { ts_ms: t(min), ground_speed_mkt: gs_kt * 1000 };
    let points = vec![mk(0, 0), mk(1, 3), mk(2, 20), mk(3, 90), mk(4, 95)];
    let segments = segment_phases(&points);
    assert_eq!(segments.len(), 3);
    assert_eq!(segments[0].kind, PhaseKind::Ground);
    assert_eq!(segments[1].kind, PhaseKind::Taxi);
    assert_eq!(segments[2].kind, PhaseKind::Airborne);
    assert_eq!(segments[0].start_ms, t(0));
    assert_eq!(segments[2].end_ms, t(4));
}

#[test]
fn speed_thresholds_are_exclusive_upper_bounds() {
    assert_eq!(classify(4_999), PhaseKind::Ground);
    assert_eq!(classify(5_000), PhaseKind::Taxi);
    assert_eq!(classify(39_999), PhaseKind::Taxi);
    assert_eq!(classify(40_000), PhaseKind::Airborne);
}

#[test]
fn a_long_ground_stop_between_flights_is_a_full_stop() {
    let segments = vec![
        seg(PhaseKind::Airborne, 0, 10),
        seg(PhaseKind::Ground, 10, 13),
        seg(PhaseKind::Airborne, 13, 20),
        seg(PhaseKind::Ground, 20, 21),
    ];
    let summary = summarize(&segments);
    assert_eq!(summary.landings, vec![LandingKind::FullStop, LandingKind::FullStop]);
    assert!(summarize(&[]).landings.is_empty());
    assert_eq!(summarize(&[]).total_ms, 0);
}

#[test]
fn segments_alternate_and_cover_the_samples() {
    let mk = |min: i64, gs_kt: i64| PhaseSample { ts_ms: t(min), ground_speed_mkt: gs_kt * 1000 };
    let points = vec![mk(0, 0), mk(1, 0), mk(2, 60), mk(3, 70), mk(4, 0)];
    let segments = segment_phases(&points);
    assert_eq!(segments.len(), 3);
    for w in segments.windows(2) {
        assert_ne!(w[0].kind, w[1].kind);
    }
    assert!(segment_phases(&[]).is_empty());
}

// ---- chart catalogue ------------------------------------------------------

const MAS: i64 = 3_600_000;

fn sample_entry() -> ChartCatalogEntry {
    ChartCatalogEntry {
        id: "sfo-sectional".into(),
        name: "San Francisco Sectional".into(),
        kind: ChartKind::Sectional,
        cycle_id: "2026-07".into(),
        bbox: BoundingBox { min_lat: 35 * MAS, min_lon: -124 * MAS, max_lat: 39 * MAS, max_lon: -120 * MAS },
        tile_url: "https://cdn.example/charts/sfo-sectional.pmtiles".into(),
    }
}

#[test]
fn finds_chart_covering_a_point() {
    let catalog = ChartCatalog { entries: vec![sample_entry()] };
    assert_eq!(catalog.covering(37 * MAS + 6 * MAS / 10, -122 * MAS - 4 * MAS / 10).len(), 1);
    assert_eq!(catalog.covering(0, 0).len(), 0);
}

#[test]
fn charts_of_a_kind_keep_catalogue_order() {
    let mut tac = sample_entry();
    tac.id = "sfo-tac".into();
    tac.kind = ChartKind::TerminalAreaChart;
    let mut second = sample_entry();
    second.id = "la-sectional".into();
    let catalog = ChartCatalog { entries: vec![sample_entry(), tac, second] };
    let ids: Vec<_> = catalog.of_kind(ChartKind::Sectional).iter().map(|e| e.id.as_str()).collect();
    assert_eq!(ids, ["sfo-sectional", "la-sectional"]);
}

#[test]
fn boxes_that_share_a_point_intersect_both_ways() {
    let a = BoundingBox { min_lat: 0, min_lon: 0, max_lat: 10, max_lon: 10 };
    let b = BoundingBox { min_lat: 10, min_lon: 10, max_lat: 20, max_lon: 20 };
    let c = BoundingBox { min_lat: 11, min_lon: 0, max_lat: 20, max_lon: 10 };
    assert!(a.intersects(&b) && b.intersects(&a));
    assert!(!a.intersects(&c) && !c.intersects(&a));
    assert!(a.contains(10, 10) && !a.contains(11, 10));
}

// ---- accounts -------------------------------------------------------------

#[test]
fn phases_round_trip_through_their_stored_names() {
    for p in [Phase::Climb, Phase::Cruise, Phase::Descent] {
        assert_eq!(Phase::parse(p.as_str()), Some(p));
    }
    assert_eq!(Phase::Cruise.as_str(), "cruise");
    assert_eq!(Phase::parse("CRUISE"), None);
}

#[test]
fn token_hash_is_the_sha256_of_the_token() {
    let h = token_hash("abc");
    assert_eq!(h.len(), 32);
    let hex: String = h.iter().map(|b| format!("{b:02x}")).collect();
    assert_eq!(hex, "ba7816bf8f01cfea414140de5dae2223b00361a396177a9cb410ff61f20015ad");
    assert_ne!(token_hash("abd"), h);
}

// ---- NASR rows ------------------------------------------------------------

#[test]
fn nasr_codes_map_to_domain_kinds() {
    assert_eq!(site_type("H"), AirportType::Heliport);
    assert_eq!(site_type("A"), AirportType::Airport);
    assert_eq!(surface_type("ASPH-G"), RunwaySurface::Asphalt);
    assert_eq!(surface_type("CONC"), RunwaySurface::Concrete);
    assert_eq!(comm_type("CTAF"), FrequencyKind::Ctaf);
    assert_eq!(comm_type("ATIS"), FrequencyKind::Atis);
}

#[test]
fn nasr_rows_convert_to_domain_types() {
    let base = AptBaseRow {
        site_no: "01818.*A".into(),
        arpt_id: "SFO".into(),
        icao_id: Some("KSFO".into()),
        arpt_name: "SAN FRANCISCO INTL".into(),
        lat: 135_428_000,
        lon: -440_558_000,
        elevation_ft: 13,
        site_type_code: "A".into(),
        fuel_types: "A".into(),
    };
    let a = airport_from_row(&base);
    assert_eq!(a.icao, "KSFO");
    assert_eq!(a.faa_id.as_deref(), Some("SFO"));
    assert_eq!(a.lat, 135_428_000);

    let rwy = AptRunwayRow {
        arpt_id: "SFO".into(),
        rwy_id: "10L/28R".into(),
        rwy_len_ft: 11870,
        rwy_width_ft: 200,
        surface_type_code: "ASPH".into(),
    };
    let r = runway_from_row(&rwy, "KSFO");
    assert_eq!(r.ident, "10L/28R");
    assert_eq!(r.low_end.ident, "10L");
    assert_eq!(r.high_end.ident, "28R");
    assert_eq!(r.surface, RunwaySurface::Asphalt);

    let frq = FrqRow {
        facility: "SFO".into(),
        facility_type: "AIRPORT".into(),
        serviced_facility: "SFO".into(),
        serviced_site_type: "A".into(),
        freq: "118.85".into(),
        freq_use: "ATIS".into(),
        remark: None,
    };
    let f = frequency_from_row(&frq, "KSFO").unwrap();
    assert_eq!(f.freq_khz, 118_850);
    assert_eq!(f.kind, FrequencyKind::Atis);
    let bad = FrqRow { freq: "n/a".into(), ..frq };
    assert!(frequency_from_row(&bad, "KSFO").is_none());
}

// ---- export and NOTAM helpers ---------------------------------------------

#[test]
fn reserved_xml_characters_are_escaped() {
    assert_eq!(escape_xml(r#"Tom's <"fast"> & loud"#), "Tom&apos;s &lt;&quot;fast&quot;&gt; &amp; loud");
    assert_eq!(escape_xml("plain"), "plain");
    assert_eq!(escape_xml("&amp;"), "&amp;amp;");
}

#[test]
fn a_quoted_expires_in_reads_as_a_number() {
    assert_eq!(expires_in_from_text("1799"), Some(1799));
    assert_eq!(expires_in_from_text("+1799"), Some(1799));
    assert_eq!(expires_in_from_text("18446744073709551615"), Some(u64::MAX));
    assert_eq!(expires_in_from_text("18446744073709551616"), None);
    assert_eq!(expires_in_from_text(" 1799"), None);
    assert_eq!(expires_in_from_text(""), None);
}

#[test]
fn a_cached_token_is_used_until_a_minute_before_it_expires() {
    let mut cache = TokenCache::new();
    assert_eq!(cache.current(0), None);
    cache.store("abc".into(), 1799, 10_000);
    assert_eq!(cache.current(10_000).as_deref(), Some("abc"));
    assert_eq!(cache.current(10_000 + 1_738_999).as_deref(), Some("abc"));
    assert_eq!(cache.current(10_000 + 1_739_000), None);
    cache.store("short".into(), 30, 5);
    assert_eq!(cache.current(5), None);
}

#[test]
fn an_empty_location_makes_no_request() {
    assert_eq!(notams_url("https://nms.example/nmsapi", ""), None);
    assert_eq!(
        notams_url("https://nms.example/nmsapi", "KSFO").as_deref(),
        Some("https://nms.example/nmsapi/v1/notams")
    );
}

#[test]
fn landings_are_counted_by_kind() {
    let l = [LandingKind::TouchAndGo, LandingKind::FullStop, LandingKind::TouchAndGo];
    assert_eq!(landing_counts(&l), (2, 1));
    assert_eq!(landing_counts(&[]), (0, 0));
}
