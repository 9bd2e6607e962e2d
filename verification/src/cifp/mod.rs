//! FAA CIFP (Coded Instrument Flight Procedures), coded in ARINC 424:
//! line classification, field decoding and extraction into domain types.
pub mod decode;
pub mod extract;
pub mod parser;
pub mod procedures;
pub mod record;
pub mod runways;
