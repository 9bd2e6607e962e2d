//! The chart catalogue: which charts exist and where they cover.
//!
//! Bounding boxes are in milliarcseconds.
use vstd::prelude::*;

verus! {

#[derive(Debug, Clone, Copy, PartialEq, Eq, Structural)]
pub enum ChartKind {
    Sectional,
    TerminalAreaChart,
    VfrFlyway,
    WorldAeronauticalChart,
    IfrEnrouteLow,
    IfrEnrouteHigh,
    HelicopterRoute,
    TerminalProcedurePlate,
}

#[derive(Debug, Clone, Copy, PartialEq, Eq, Structural)]
pub struct BoundingBox {
    pub min_lat: i64,
    pub min_lon: i64,
    pub max_lat: i64,
    pub max_lon: i64,
}

pub open spec fn contains_spec(b: BoundingBox, lat: i64, lon: i64) -> bool {
    b.min_lat <= lat <= b.max_lat && b.min_lon <= lon <= b.max_lon
}

pub open spec fn intersects_spec(a: BoundingBox, b: BoundingBox) -> bool {
    a.min_lat <= b.max_lat && a.max_lat >= b.min_lat && a.min_lon <= b.max_lon && a.max_lon
        >= b.min_lon
}

impl BoundingBox {
    /// Whether the point lies in the box, edges included.
    pub fn contains(&self, lat: i64, lon: i64) -> (r: bool)
        ensures
            r == contains_spec(*self, lat, lon),
    {
        lat >= self.min_lat && lat <= self.max_lat && lon >= self.min_lon && lon <= self.max_lon
    }

    /// Whether the two boxes share a point.
    pub fn intersects(&self, other: &BoundingBox) -> (r: bool)
        ensures
            r == intersects_spec(*self, *other),
    {
        self.min_lat <= other.max_lat && self.max_lat >= other.min_lat && self.min_lon
            <= other.max_lon && self.max_lon >= other.min_lon
    }
}

/// Boxes that share a point intersect either way round, and a box that
/// contains a point intersects every box containing it.
pub proof fn lemma_intersects_symmetric(a: BoundingBox, b: BoundingBox, lat: i64, lon: i64)
    ensures
        intersects_spec(a, b) == intersects_spec(b, a),
        contains_spec(a, lat, lon) && contains_spec(b, lat, lon) ==> intersects_spec(a, b),
{
}

#[derive(Debug, Clone, PartialEq)]
pub struct ChartCatalogEntry {
    pub id: String,
    pub name: String,
    pub kind: ChartKind,
    pub cycle_id: String,
    pub bbox: BoundingBox,
    pub tile_url: String,
}

#[derive(Debug, Clone)]
pub struct ChartCatalog {
    pub entries: Vec<ChartCatalogEntry>,
}

/// The entries of `s` that satisfy `keep`, in order.
pub open spec fn kept<T>(s: Seq<T>, keep: spec_fn(T) -> bool) -> Seq<T>
    decreases s.len(),
{
    if s.len() == 0 {
        Seq::empty()
    } else if keep(s.last()) {
        kept(s.drop_last(), keep).push(s.last())
    } else {
        kept(s.drop_last(), keep)
    }
}

pub open spec fn derefs(s: Seq<&ChartCatalogEntry>) -> Seq<ChartCatalogEntry> {
    s.map_values(|e: &ChartCatalogEntry| *e)
}

impl ChartCatalog {
    /// The charts whose box contains the point, in catalogue order.
    pub fn covering(&self, lat: i64, lon: i64) -> (r: Vec<&ChartCatalogEntry>)
        ensures
            derefs(r@) == kept(
                self.entries@,
                |e: ChartCatalogEntry| contains_spec(e.bbox, lat, lon),
            ),
    {
        let mut r: Vec<&ChartCatalogEntry> = Vec::new();
        let mut i: usize = 0;
        while i < self.entries.len()
            invariant
                0 <= i <= self.entries@.len(),
                derefs(r@) == kept(
                    self.entries@.take(i as int),
                    |e: ChartCatalogEntry| contains_spec(e.bbox, lat, lon),
                ),
            decreases self.entries.len() - i,
        {
            proof {
                assert(self.entries@.take(i + 1).drop_last() =~= self.entries@.take(i as int));
            }
            let e = &self.entries[i];
            if e.bbox.contains(lat, lon) {
                r.push(e);
            }
            assert(derefs(r@) =~= kept(
                self.entries@.take(i + 1),
                |e: ChartCatalogEntry| contains_spec(e.bbox, lat, lon),
            ));
            i = i + 1;
        }
        assert(self.entries@.take(self.entries@.len() as int) =~= self.entries@);
        r
    }

    /// The charts of one kind, in catalogue order.
    pub fn of_kind(&self, kind: ChartKind) -> (r: Vec<&ChartCatalogEntry>)
        ensures
            derefs(r@) == kept(self.entries@, |e: ChartCatalogEntry| e.kind == kind),
    {
        let mut r: Vec<&ChartCatalogEntry> = Vec::new();
        let mut i: usize = 0;
        while i < self.entries.len()
            invariant
                0 <= i <= self.entries@.len(),
                derefs(r@) == kept(
                    self.entries@.take(i as int),
                    |e: ChartCatalogEntry| e.kind == kind,
                ),
            decreases self.entries.len() - i,
        {
            proof {
                assert(self.entries@.take(i + 1).drop_last() =~= self.entries@.take(i as int));
            }
            let e = &self.entries[i];
            if e.kind == kind {
                r.push(e);
            }
            assert(derefs(r@) =~= kept(
                self.entries@.take(i + 1),
                |e: ChartCatalogEntry| e.kind == kind,
            ));
            i = i + 1;
        }
        assert(self.entries@.take(self.entries@.len() as int) =~= self.entries@);
        r
    }
}

#[verifier::external_type_specification]
#[verifier::external_body]
pub struct ExPathBuf(std::path::PathBuf);

/// A GeoTIFF chart to tile.
#[derive(Debug)]
pub struct GeoTiffSource {
    pub path: std::path::PathBuf,
    pub kind: ChartKind,
    pub cycle_id: String,
}

} // verus!
