//! The decisions in turning an MBTiles chart (the SQLite tile store GDAL
//! writes) into a PMTiles archive: which metadata a tile set must carry
//! and how it reads, and where each tile lands in the archive. Reading the
//! SQLite file and writing the archive are left to the caller.
use crate::charts::BoundingBox;
use crate::decimal::{dec_scaled, decimal_scaled};
use crate::text::{str_eq, string_from, to_chars, trim, trimmed_chars, parse_u32, parse_u32_spec};
use vstd::prelude::*;

verus! {

/// What is wrong with a tile set's metadata.
#[derive(Debug, Clone, PartialEq, Eq)]
pub enum MetadataError {
    /// A required metadata key is absent.
    MissingMetadata(&'static str),
    /// A numeric metadata key holds something else.
    InvalidMetadataNumber { key: &'static str, value: String },
    /// `bounds` is not four comma-separated numbers.
    InvalidBounds(String),
    /// Tiles in a format other than PNG.
    UnsupportedFormat(String),
}

/// The tile format, `png` when the metadata names none, must be `png`.
pub fn check_format(format: Option<String>) -> (r: Result<(), MetadataError>)
    ensures
        match format {
            None => r is Ok,
            Some(f) => if f@ == "png"@ {
                r is Ok
            } else {
                r matches Err(MetadataError::UnsupportedFormat(g)) && g@ == f@
            },
        },
{
    match format {
        None => Ok(()),
        Some(f) => if str_eq(f.as_str(), "png") {
            Ok(())
        } else {
            Err(MetadataError::UnsupportedFormat(f))
        },
    }
}

/// `u8::from_str` (std): an optional `+`, then decimal digits whose value
/// is at most 255.
pub open spec fn parse_u8_spec(s: Seq<char>) -> Option<u8> {
    match parse_u32_spec(s) {
        Some(v) => if v <= 255 {
            Some(v as u8)
        } else {
            None
        },
        None => None,
    }
}

/// A required zoom level: absent is `MissingMetadata`, not a `u8` is
/// `InvalidMetadataNumber` carrying the text.
pub fn required_u8(key: &'static str, value: Option<String>) -> (r: Result<u8, MetadataError>)
    ensures
        match value {
            None => r == Err::<u8, MetadataError>(MetadataError::MissingMetadata(key)),
            Some(v) => match parse_u8_spec(v@) {
                Some(z) => r == Ok::<u8, MetadataError>(z),
                None => r matches Err(MetadataError::InvalidMetadataNumber { key: k, value: w })
                    && k == key && w@ == v@,
            },
        },
{
    match value {
        None => Err(MetadataError::MissingMetadata(key)),
        Some(v) => match parse_u32(&to_chars(v.as_str())) {
            Some(z) => if z <= 255 {
                Ok(z as u8)
            } else {
                Err(MetadataError::InvalidMetadataNumber { key, value: v })
            },
            None => Err(MetadataError::InvalidMetadataNumber { key, value: v }),
        },
    }
}

/// The comma-separated parts of `s` from position `k`, `cur` being the
/// part read so far and `parts` those before it.
pub open spec fn split_commas(s: Seq<char>, k: int, cur: Seq<char>, parts: Seq<Seq<char>>) -> Seq<
    Seq<char>,
>
    decreases s.len() - k,
{
    if k < 0 || k >= s.len() {
        parts.push(cur)
    } else if s[k] == ',' {
        split_commas(s, k + 1, Seq::empty(), parts.push(cur))
    } else {
        split_commas(s, k + 1, cur.push(s[k]), parts)
    }
}

/// The parts of `s` between commas (`"a,,b"` has three).
pub open spec fn comma_parts(s: Seq<char>) -> Seq<Seq<char>> {
    split_commas(s, 0, Seq::empty(), Seq::empty())
}

fn comma_parts_exec(s: &str) -> (r: Vec<Vec<char>>)
    ensures
        r@.map_values(|p: Vec<char>| p@) == comma_parts(s@),
{
    let v = to_chars(s);
    let mut parts: Vec<Vec<char>> = Vec::new();
    let mut cur: Vec<char> = Vec::new();
    let mut k: usize = 0;
    assert(parts@.map_values(|p: Vec<char>| p@) =~= Seq::<Seq<char>>::empty());
    while k < v.len()
        invariant
            0 <= k <= v@.len(),
            v@ == s@,
            split_commas(v@, k as int, cur@, parts@.map_values(|p: Vec<char>| p@)) == comma_parts(
                s@,
            ),
        decreases v.len() - k,
    {
        if v[k] == ',' {
            let ghost before = parts@.map_values(|p: Vec<char>| p@);
            let done = cur;
            cur = Vec::new();
            parts.push(done);
            assert(parts@.map_values(|p: Vec<char>| p@) =~= before.push(done@));
        } else {
            cur.push(v[k]);
        }
        k = k + 1;
    }
    let ghost before = parts@.map_values(|p: Vec<char>| p@);
    let last = cur;
    parts.push(last);
    assert(parts@.map_values(|p: Vec<char>| p@) =~= before.push(last@));
    parts
}

/// One bound in milliarcseconds: the trimmed part as a number of degrees
/// (any finite form `str::parse::<f64>` reads), when it reads and fits.
pub open spec fn bound_spec(part: Seq<char>) -> Option<i64> {
    match dec_scaled(trim(part), 3_600_000, 0) {
        Some(x) => if i64::MIN <= x <= i64::MAX {
            Some(x as i64)
        } else {
            None
        },
        None => None,
    }
}

fn bound_of(part: &Vec<char>) -> (r: Option<i64>)
    ensures
        r == bound_spec(part@),
{
    let t = string_from(part);
    match decimal_scaled(&trimmed_chars(t.as_str()), 3_600_000, 0) {
        Some(x) => if -0x8000_0000_0000_0000i128 <= x && x <= 0x7fff_ffff_ffff_ffffi128 {
            Some(x as i64)
        } else {
            None
        },
        None => None,
    }
}

/// The `bounds` metadata, `min_lon,min_lat,max_lon,max_lat` in degrees:
/// exactly four parts, each a number.
pub open spec fn bounds_spec(raw: Seq<char>) -> Option<BoundingBox> {
    let p = comma_parts(raw);
    if p.len() != 4 {
        None
    } else {
        match (bound_spec(p[0]), bound_spec(p[1]), bound_spec(p[2]), bound_spec(p[3])) {
            (Some(min_lon), Some(min_lat), Some(max_lon), Some(max_lat)) => Some(
                BoundingBox { min_lat, min_lon, max_lat, max_lon },
            ),
            _ => None,
        }
    }
}

/// Reads the `bounds` metadata value; `InvalidBounds` carries the text
/// when it is not four comma-separated numbers.
pub fn parse_bounds(raw: &str) -> (r: Result<BoundingBox, MetadataError>)
    ensures
        match bounds_spec(raw@) {
            Some(b) => r == Ok::<BoundingBox, MetadataError>(b),
            None => r matches Err(MetadataError::InvalidBounds(t)) && t@ == raw@,
        },
{
    let parts = comma_parts_exec(raw);
    let ghost pv = parts@.map_values(|p: Vec<char>| p@);
    if parts.len() != 4 {
        return Err(MetadataError::InvalidBounds(string_from(&to_chars(raw))));
    }
    assert(pv[0] == parts@[0]@ && pv[1] == parts@[1]@ && pv[2] == parts@[2]@ && pv[3] == parts@[3]@);
    let a = bound_of(&parts[0]);
    let b = bound_of(&parts[1]);
    let c = bound_of(&parts[2]);
    let d = bound_of(&parts[3]);
    match (a, b, c, d) {
        (Some(min_lon), Some(min_lat), Some(max_lon), Some(max_lat)) => Ok(
            BoundingBox { min_lat, min_lon, max_lat, max_lon },
        ),
        _ => Err(MetadataError::InvalidBounds(string_from(&to_chars(raw)))),
    }
}

/// What a tile set's metadata says of it.
#[derive(Debug, Clone, Copy, PartialEq, Eq)]
pub struct TilesetHeader {
    pub bounds: BoundingBox,
    pub min_zoom: u8,
    pub max_zoom: u8,
}

/// Checks and reads a tile set's metadata, in this order: the format
/// (`png` by default), the required `bounds`, `minzoom` and `maxzoom`.
/// The first problem found is the error.
pub fn read_header(
    format: Option<String>,
    bounds: Option<String>,
    minzoom: Option<String>,
    maxzoom: Option<String>,
) -> (r: Result<TilesetHeader, MetadataError>)
    ensures
        match format {
            Some(f) if f@ != "png"@ => r matches Err(MetadataError::UnsupportedFormat(g)) && g@ == f@,
            _ => match bounds {
                None => r == Err::<TilesetHeader, MetadataError>(MetadataError::MissingMetadata("bounds")),
                Some(bv) => match bounds_spec(bv@) {
                    None => r matches Err(MetadataError::InvalidBounds(t)) && t@ == bv@,
                    Some(bb) => match minzoom {
                        None => r == Err::<TilesetHeader, MetadataError>(MetadataError::MissingMetadata("minzoom")),
                        Some(lo) => match parse_u8_spec(lo@) {
                            None => r matches Err(MetadataError::InvalidMetadataNumber { key: k, value: w })
                                && k == "minzoom" && w@ == lo@,
                            Some(min_zoom) => match maxzoom {
                                None => r == Err::<TilesetHeader, MetadataError>(MetadataError::MissingMetadata("maxzoom")),
                                Some(hi) => match parse_u8_spec(hi@) {
                                    None => r matches Err(
                                        MetadataError::InvalidMetadataNumber { key: k, value: w },
                                    ) && k == "maxzoom" && w@ == hi@,
                                    Some(max_zoom) => r == Ok::<TilesetHeader, MetadataError>(
                                        TilesetHeader { bounds: bb, min_zoom, max_zoom },
                                    ),
                                },
                            },
                        },
                    },
                },
            },
        },
{
    check_format(format)?;
    let bounds = match bounds {
        Some(b) => parse_bounds(b.as_str())?,
        None => return Err(MetadataError::MissingMetadata("bounds")),
    };
    let min_zoom = required_u8("minzoom", minzoom)?;
    let max_zoom = required_u8("maxzoom", maxzoom)?;
    Ok(TilesetHeader { bounds, min_zoom, max_zoom })
}

/// The archive's tile id for zoom `z` and column/row `x`, `y`, as
/// `pmtiles2::util::tile_id` computes it (its Hilbert-curve numbering).
pub uninterp spec fn tile_id_of(z: u8, x: u64, y: u64) -> u64;

/// `pmtiles2::util::tile_id`: the result is named, not stated; zoom 0 is
/// tile 0. Zooms above 31 overflow its arithmetic, so they are left out.
#[verifier::external_body]
fn pmtiles_tile_id(z: u8, x: u64, y: u64) -> (r: u64)
    requires
        z <= 31,
    ensures
        r == tile_id_of(z, x, y),
        z == 0 ==> r == 0,
{
    pmtiles2::util::tile_id(z, x, y)
}

/// The XYZ row of TMS row `tms_y` at `zoom`: rows count from the top in
/// one and from the bottom in the other.
pub open spec fn xyz_row(zoom: u8, tms_y: i64) -> int {
    vstd::arithmetic::power2::pow2(zoom as nat) - 1 - tms_y
}

/// Flipping a row twice gives it back: TMS and XYZ rows are each other's
/// flip at every zoom.
pub proof fn lemma_row_flip_involution(zoom: u8, y: int)
    ensures
        vstd::arithmetic::power2::pow2(zoom as nat) - 1 - (vstd::arithmetic::power2::pow2(zoom as nat) - 1 - y) == y,
{
}

/// Where an MBTiles tile (column `x`, TMS row `tms_y`) lands in the
/// archive: its id at `zoom` once the row is flipped to the XYZ
/// convention. Coordinates are handed over as the store holds them, a
/// negative one wrapping as `as u64` does.
pub fn archive_tile_id(zoom: u8, x: i64, tms_y: i64) -> (r: u64)
    requires
        zoom <= 31,
        tms_y >= 0 || xyz_row(zoom, tms_y) <= i64::MAX,
    ensures
        r == tile_id_of(zoom, x as u64, xyz_row(zoom, tms_y) as i64 as u64),
{
    let z: u64 = zoom as u64;
    proof {
        vstd::arithmetic::power2::lemma2_to64();
        vstd::bits::lemma_u64_pow2_no_overflow(z as nat);
        vstd::arithmetic::power2::lemma_pow2_strictly_increases(z as nat, 32);
        vstd::bits::lemma_u64_shl_is_mul(1, z);
    }
    let span: u64 = 1u64 << z;
    let y: i64 = span as i64 - 1 - tms_y;
    pmtiles_tile_id(zoom, x as u64, y as u64)
}

} // verus!
