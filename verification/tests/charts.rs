use freeflight::charts::BoundingBox;
use freeflight::mbtiles::{archive_tile_id, check_format, parse_bounds, read_header, required_u8, MetadataError};
use freeflight::planning::cruise_power_settings;

#[test]
fn a_non_png_tile_set_is_refused() {
    assert_eq!(check_format(Some("jpg".into())), Err(MetadataError::UnsupportedFormat("jpg".into())));
    assert_eq!(check_format(Some("png".into())), Ok(()));
    assert_eq!(check_format(None), Ok(()));
    let r = read_header(Some("jpg".into()), None, None, None);
    assert_eq!(r, Err(MetadataError::UnsupportedFormat("jpg".into())));
}

#[test]
fn missing_bounds_and_zooms_are_reported() {
    let r = read_header(Some("png".into()), None, Some("1".into()), Some("1".into()));
    assert_eq!(r, Err(MetadataError::MissingMetadata("bounds")));
    let r = read_header(None, Some("-122.6,37.3,-121.8,37.9".into()), Some("1".into()), None);
    assert_eq!(r, Err(MetadataError::MissingMetadata("maxzoom")));
}

#[test]
fn bounds_read_as_four_degree_values() {
    let b = parse_bounds("-122.6,37.3,-121.8,37.9").unwrap();
    assert_eq!(
        b,
        BoundingBox {
            min_lat: 134_280_000,
            min_lon: -441_360_000,
            max_lat: 136_440_000,
            max_lon: -438_480_000,
        }
    );
    assert_eq!(parse_bounds(" 1 , 2 ,3,4 ").unwrap().max_lat, 4 * 3_600_000);
    assert_eq!(parse_bounds("1,2,3"), Err(MetadataError::InvalidBounds("1,2,3".into())));
    assert_eq!(parse_bounds("a,b,c,d"), Err(MetadataError::InvalidBounds("a,b,c,d".into())));
    assert_eq!(parse_bounds("1,2,3,4,"), Err(MetadataError::InvalidBounds("1,2,3,4,".into())));
}

#[test]
fn zoom_levels_read_as_u8() {
    assert_eq!(required_u8("minzoom", Some("+7".into())), Ok(7));
    assert_eq!(required_u8("minzoom", Some("255".into())), Ok(255));
    assert_eq!(
        required_u8("maxzoom", Some("256".into())),
        Err(MetadataError::InvalidMetadataNumber { key: "maxzoom", value: "256".into() })
    );
    assert_eq!(required_u8("maxzoom", None), Err(MetadataError::MissingMetadata("maxzoom")));
    let h = read_header(Some("png".into()), Some("0,0,1,1".into()), Some("2".into()), Some("9".into())).unwrap();
    assert_eq!((h.min_zoom, h.max_zoom), (2, 9));
}

#[test]
fn tms_rows_flip_to_xyz_rows_in_the_archive() {
    // Zoom 1: the four tiles take ids 1 to 4 along the Hilbert curve,
    // (0,0), (0,1), (1,1), (1,0) in XYZ terms; TMS row 0 is XYZ row 1.
    assert_eq!(archive_tile_id(1, 0, 1), 1);
    assert_eq!(archive_tile_id(1, 0, 0), 2);
    assert_eq!(archive_tile_id(1, 1, 0), 3);
    assert_eq!(archive_tile_id(1, 1, 1), 4);
    assert_eq!(archive_tile_id(0, 0, 0), 0);
}

#[test]
fn power_settings_are_listed_once_each_in_order() {
    let recorded: Vec<String> = ["65%", "55%", "65%", "75%", "2400 RPM", "55%"].iter().map(|s| s.to_string()).collect();
    assert_eq!(cruise_power_settings(&recorded), ["2400 RPM", "55%", "65%", "75%"]);
    assert!(cruise_power_settings(&[]).is_empty());
}
