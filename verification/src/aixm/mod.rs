//! AIXM 4.5 snapshots (the ICAO/EUROCONTROL XML exchange format published
//! by national AIS providers, France's SIA export first): feature field
//! maps, coordinates, and the joins that assemble runways, airways and
//! airspaces from their parts.
pub mod airway;
pub mod airspace;
pub mod runway;
pub mod fields;
pub mod coord;
pub mod convert;
pub mod parser;
