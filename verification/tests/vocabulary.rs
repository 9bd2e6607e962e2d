use freeflight::vocabulary::{
    chart_kind_label, chart_kind_order, chart_sheet_label, chart_sheet_sort_key, chart_slug,
    to_typescript, DEFAULT_CHART_KIND,
};

#[test]
fn known_kinds_get_the_short_labels_both_clients_show() {
    assert_eq!(chart_kind_label("TerminalAreaChart"), "TAC");
    assert_eq!(chart_kind_label("IfrEnrouteLow"), "IFR Low");
    assert_eq!(chart_kind_label("Sectional"), "Sectional");
}

#[test]
fn an_unknown_kind_keeps_its_raw_name_and_sorts_last() {
    assert_eq!(chart_kind_label("GrandCanyonVfr"), "GrandCanyonVfr");
    assert_eq!(chart_kind_order("GrandCanyonVfr"), 99);
}

#[test]
fn kinds_order_vfr_broad_to_terminal_then_ifr_then_specialty() {
    let mut kinds = vec![
        "HelicopterRoute",
        "IfrEnrouteHigh",
        "TerminalAreaChart",
        "Sectional",
        "IfrEnrouteLow",
        "VfrFlyway",
    ];
    kinds.sort_by_key(|k| chart_kind_order(k));
    assert_eq!(
        kinds,
        [
            "Sectional",
            "TerminalAreaChart",
            "VfrFlyway",
            "IfrEnrouteLow",
            "IfrEnrouteHigh",
            "HelicopterRoute"
        ]
    );
}

#[test]
fn the_default_kind_is_one_the_table_can_label() {
    assert_eq!(chart_kind_label(DEFAULT_CHART_KIND), "Sectional");
}

#[test]
fn an_ifr_panel_is_named_by_its_faa_designator() {
    assert_eq!(chart_sheet_label("enr_l01", "IFR Low ... enr_l01"), "L-1");
    assert_eq!(chart_sheet_label("enr_h12", "IFR High ... enr_h12"), "H-12");
}

#[test]
fn the_parts_of_a_split_panel_are_told_apart() {
    assert_eq!(chart_sheet_label("enr_l06n", "same name"), "L-6 North");
    assert_eq!(chart_sheet_label("enr_l06s", "same name"), "L-6 South");
    assert_eq!(chart_sheet_label("enr_l34", "same name"), "L-34");
    assert_eq!(
        chart_sheet_label("enr_l34_bost_inset", "same name"),
        "L-34 inset (Boston)"
    );
    assert_eq!(
        chart_sheet_label("enr_l23_wilm_inset", "same name"),
        "L-23 inset (Wilmington)"
    );
}

#[test]
fn an_unrecognised_inset_abbreviation_is_still_distinguishable() {
    assert_eq!(chart_sheet_label("enr_l09_xyz_inset", "n"), "L-9 inset (Xyz)");
}

#[test]
fn every_other_kind_keeps_the_catalogue_name() {
    assert_eq!(
        chart_sheet_label("albuquerque", "Albuquerque Sectional"),
        "Albuquerque Sectional"
    );
    assert_eq!(chart_sheet_label("boston-tac", "Boston TAC"), "Boston TAC");
}

#[test]
fn ifr_sheets_order_by_panel_number_not_as_text() {
    let mut slugs = vec!["enr_l10", "enr_l2", "enr_l1", "enr_l21"];
    slugs.sort_by_key(|s| chart_sheet_sort_key(s, s));
    let labels: Vec<String> = slugs.iter().map(|s| chart_sheet_label(s, s)).collect();
    assert_eq!(labels, ["L-1", "L-2", "L-10", "L-21"]);
}

#[test]
fn a_panels_parts_sort_with_the_panel() {
    let mut slugs = vec!["enr_l07", "enr_l06s", "enr_l06", "enr_l06n"];
    slugs.sort_by_key(|s| chart_sheet_sort_key(s, s));
    let labels: Vec<String> = slugs.iter().map(|s| chart_sheet_label(s, s)).collect();
    assert_eq!(labels, ["L-6", "L-6 North", "L-6 South", "L-7"]);
}

#[test]
fn a_chart_id_yields_its_slug() {
    assert_eq!(chart_slug("2026-10-01-enr_l06n"), "enr_l06n");
    assert_eq!(chart_slug("2026-08-06-albuquerque"), "albuquerque");
    assert_eq!(chart_slug("enr_l06n"), "enr_l06n");
}

const CHECKED_IN_TYPESCRIPT: &str = "// GENERATED — do not edit.
//
// Source of truth: crates/ff-charts/src/vocabulary.rs
// Regenerate:     cargo run -p ff-core --bin gen-web-vocabulary
//
// Chart naming and airport display thresholds live in Rust so the web
// and Android clients cannot drift apart on them. Generated rather than
// called through wasm because the map path loads no wasm today, and a
// label is not worth an async init on that screen.

export const CHART_KIND_LABELS: Record<string, string> = {
  Sectional: \"Sectional\",
  TerminalAreaChart: \"TAC\",
  VfrFlyway: \"Flyway\",
  IfrEnrouteLow: \"IFR Low\",
  IfrEnrouteHigh: \"IFR High\",
  HelicopterRoute: \"Heli\",
  WorldAeronauticalChart: \"WAC\",
};

export const CHART_KIND_ORDER: Record<string, number> = {
  Sectional: 0,
  TerminalAreaChart: 1,
  VfrFlyway: 2,
  IfrEnrouteLow: 3,
  IfrEnrouteHigh: 4,
  HelicopterRoute: 5,
  WorldAeronauticalChart: 6,
};

export const DEFAULT_CHART_KIND = \"Sectional\";
";

#[test]
fn generated_typescript_is_current() {
    assert_eq!(
        CHECKED_IN_TYPESCRIPT.replace("\r\n", "\n"),
        to_typescript(),
        "the web vocabulary module is out of date"
    );
}

#[test]
fn every_known_kind_sorts_before_an_unknown_one() {
    for k in [
        "Sectional",
        "TerminalAreaChart",
        "VfrFlyway",
        "IfrEnrouteLow",
        "IfrEnrouteHigh",
        "HelicopterRoute",
        "WorldAeronauticalChart",
    ] {
        assert!(chart_kind_order(k) < chart_kind_order("Unknown"));
    }
}
