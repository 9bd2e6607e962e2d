//! The records openAIP's REST API returns, reduced to what the
//! conversion reads. What their numeric codes mean is decoded in
//! [`crate::openaip`].
use crate::decimal::{clamp_num, decimal_scaled, float_scaled};
use crate::text::{trim, trimmed_chars};
use vstd::prelude::*;

verus! {

/// Every list endpoint returns this envelope.
#[derive(Debug, Clone)]
pub struct Page<T> {
    pub limit: u32,
    pub total_count: u32,
    pub total_pages: u32,
    pub page: u32,
    pub items: Vec<T>,
}

/// A quantity and the code of the unit it is in. `value` is the text of
/// the number or string sent (`None` when the API sent neither).
#[derive(Debug, Clone)]
pub struct Measure {
    pub value: Option<String>,
    pub unit: Option<i32>,
    pub reference_datum: Option<i32>,
}

/// GeoJSON geometry; coordinates are `(lon, lat)` pairs as in GeoJSON.
#[derive(Debug, Clone)]
pub enum Geometry {
    Point { lon: i64, lat: i64 },
    Polygon { coordinates: Vec<Vec<(i64, i64)>> },
    Other,
}

impl Geometry {
    /// The point as `(lat, lon)`.
    pub fn point(&self) -> (r: Option<(i64, i64)>)
        ensures
            r == match *self {
                Geometry::Point { lon, lat } => Some((lat, lon)),
                _ => None,
            },
    {
        match self {
            Geometry::Point { lon, lat } => Some((*lat, *lon)),
            _ => None,
        }
    }

    /// The outer (first) ring, as `(lat, lon)` pairs.
    pub fn outer_ring(&self) -> (r: Option<Vec<(i64, i64)>>)
        ensures
            match *self {
                Geometry::Polygon { coordinates } => if coordinates@.len() > 0 {
                    r matches Some(ring) && ring@ == swapped(coordinates@[0]@)
                } else {
                    r is None
                },
                _ => r is None,
            },
    {
        match self {
            Geometry::Polygon { coordinates } => {
                if coordinates.len() == 0 {
                    return None;
                }
                let first = &coordinates[0];
                let mut ring: Vec<(i64, i64)> = Vec::new();
                let mut i: usize = 0;
                while i < first.len()
                    invariant
                        0 <= i <= first@.len(),
                        ring@ == swapped(first@.take(i as int)),
                    decreases first.len() - i,
                {
                    let (lon, lat) = first[i];
                    ring.push((lat, lon));
                    assert(ring@ =~= swapped(first@.take(i + 1)));
                    i = i + 1;
                }
                assert(first@.take(first@.len() as int) =~= first@);
                Some(ring)
            },
            _ => None,
        }
    }
}

/// `(lon, lat)` pairs turned into `(lat, lon)` pairs.
pub open spec fn swapped(ring: Seq<(i64, i64)>) -> Seq<(i64, i64)> {
    ring.map_values(|c: (i64, i64)| (c.1, c.0))
}

#[derive(Debug, Clone)]
pub struct RunwayDimension {
    pub length: Option<Measure>,
    pub width: Option<Measure>,
}

/// One runway direction ("18", "07L"); a two-way runway appears twice.
#[derive(Debug, Clone)]
pub struct Runway {
    pub designator: String,
    /// Thousandths of a degree.
    pub true_heading_mdeg: Option<i64>,
    pub dimension: Option<RunwayDimension>,
}

#[derive(Debug, Clone)]
pub struct Frequency {
    pub value: String,
    pub unit: Option<i32>,
    pub name: Option<String>,
    pub primary: bool,
}

#[derive(Debug, Clone)]
pub struct Airport {
    pub name: String,
    pub icao_code: Option<String>,
    pub iata_code: Option<String>,
    pub country: String,
    pub kind: Option<i32>,
    pub geometry: Geometry,
    pub elevation: Option<Measure>,
    pub runways: Vec<Runway>,
    pub frequencies: Vec<Frequency>,
}

#[derive(Debug, Clone)]
pub struct Navaid {
    pub name: String,
    pub identifier: Option<String>,
    pub kind: Option<i32>,
    pub country: String,
    pub frequency: Option<Measure>,
    pub elevation: Option<Measure>,
    pub geometry: Geometry,
    /// TACAN channel (`"105X"`); its presence tells a VOR with a
    /// co-located DME/TACAN from a plain VOR.
    pub channel: Option<String>,
}

#[derive(Debug, Clone)]
pub struct Airspace {
    pub id: String,
    pub name: String,
    pub country: String,
    pub kind: Option<i32>,
    pub icao_class: Option<i32>,
    pub upper_limit: Option<Measure>,
    pub lower_limit: Option<Measure>,
    pub geometry: Geometry,
}

/// The measure's value times `mult / 10^shift`, as a float cast reads it
/// (see [`float_scaled`]); `None` when the value does not read as a
/// float.
pub open spec fn measure_scaled(m: Measure, mult: nat, shift: nat) -> Option<int> {
    match m.value {
        Some(v) => float_scaled(trim(v@), mult, shift),
        None => None,
    }
}

impl Measure {
    /// The value times `mult / 10^shift`, rounded half away from zero and
    /// saturated at plus or minus `NUM_BOUND`, as a float cast saturates.
    pub fn scaled(&self, mult: u64, shift: u32) -> (r: Option<i128>)
        requires
            1 <= mult <= 10_000_000_000,
            shift <= 9,
        ensures
            r == match measure_scaled(*self, mult as nat, shift as nat) {
                Some(x) => Some(clamp_num(x) as i128),
                None => None,
            },
    {
        match &self.value {
            Some(v) => decimal_scaled(&trimmed_chars(v.as_str()), mult, shift),
            None => None,
        }
    }
}

} // verus!
