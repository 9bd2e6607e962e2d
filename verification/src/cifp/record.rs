//! ARINC 424 record classification.
//!
//! Every CIFP record is a fixed-width (132 column) line. Byte 4 always
//! carries the Section Code. Sections keyed to an airport identifier
//! (Airport, Runway, SID/STAR/Approach, all Section `P`) push their
//! subsection code out to byte 12; other sections (navaids, enroute)
//! keep it at byte 5. Both positions are tried, byte 5 first.
use crate::domain::ProcedureKind;
use vstd::prelude::*;
use vstd::string::*;
use vstd::utf8::encode_utf8;

verus! {

pub const RECORD_LENGTH: usize = 132;

#[derive(Debug, Clone, Copy, PartialEq, Eq, Structural)]
pub enum RecordCategory {
    Airport,
    Runway,
    VhfNavaid,
    NdbNavaid,
    Waypoint,
    Airway,
    EnrouteCommunication,
    Procedure(ProcedureKind),
    Unknown,
}

/// A single fixed-width CIFP line plus its classification.
#[derive(Debug, Clone, PartialEq, Eq)]
pub struct RawRecord {
    pub raw: String,
    pub category: RecordCategory,
}

/// The category a (section, subsection) code pair denotes, if any.
pub open spec fn category_spec(section: char, subsection: char) -> Option<RecordCategory> {
    if section == 'P' {
        if subsection == 'A' {
            Some(RecordCategory::Airport)
        } else if subsection == 'G' {
            Some(RecordCategory::Runway)
        } else if subsection == 'D' {
            Some(RecordCategory::Procedure(ProcedureKind::Sid))
        } else if subsection == 'E' {
            Some(RecordCategory::Procedure(ProcedureKind::Star))
        } else if subsection == 'F' {
            Some(RecordCategory::Procedure(ProcedureKind::Approach))
        } else if subsection == 'N' {
            Some(RecordCategory::NdbNavaid)
        } else if subsection == 'C' {
            // terminal (airport-area) waypoint
            Some(RecordCategory::Waypoint)
        } else {
            None
        }
    } else if section == 'D' {
        if subsection == 'B' {
            Some(RecordCategory::NdbNavaid)
        } else {
            Some(RecordCategory::VhfNavaid)
        }
    } else if section == 'E' {
        if subsection == 'A' {
            Some(RecordCategory::Waypoint)
        } else if subsection == 'R' {
            Some(RecordCategory::Airway)
        } else if subsection == 'U' {
            Some(RecordCategory::EnrouteCommunication)
        } else {
            None
        }
    } else {
        None
    }
}

/// Classification of one line: `None` when its UTF-8 encoding is under
/// 13 bytes, else the category of bytes 4/5, falling back to bytes
/// 4/12, falling back to `Unknown`.
pub open spec fn classify_spec(line: Seq<char>) -> Option<RecordCategory> {
    let b = encode_utf8(line);
    if b.len() < 13 {
        None
    } else {
        let section = b[4] as char;
        Some(
            match category_spec(section, b[5] as char) {
                Some(c) => c,
                None => match category_spec(section, b[12] as char) {
                    Some(c) => c,
                    None => RecordCategory::Unknown,
                },
            },
        )
    }
}

fn category_for(section: char, subsection: char) -> (r: Option<RecordCategory>)
    ensures
        r == category_spec(section, subsection),
{
    if section == 'P' {
        if subsection == 'A' {
            Some(RecordCategory::Airport)
        } else if subsection == 'G' {
            Some(RecordCategory::Runway)
        } else if subsection == 'D' {
            Some(RecordCategory::Procedure(ProcedureKind::Sid))
        } else if subsection == 'E' {
            Some(RecordCategory::Procedure(ProcedureKind::Star))
        } else if subsection == 'F' {
            Some(RecordCategory::Procedure(ProcedureKind::Approach))
        } else if subsection == 'N' {
            Some(RecordCategory::NdbNavaid)
        } else if subsection == 'C' {
            Some(RecordCategory::Waypoint)
        } else {
            None
        }
    } else if section == 'D' {
        if subsection == 'B' {
            Some(RecordCategory::NdbNavaid)
        } else {
            Some(RecordCategory::VhfNavaid)
        }
    } else if section == 'E' {
        if subsection == 'A' {
            Some(RecordCategory::Waypoint)
        } else if subsection == 'R' {
            Some(RecordCategory::Airway)
        } else if subsection == 'U' {
            Some(RecordCategory::EnrouteCommunication)
        } else {
            None
        }
    } else {
        None
    }
}

/// Classifies a single CIFP line by its section/subsection code.
///
/// Returns `None` if the line is too short to hold a section code and
/// both candidate subsection positions, rather than guessing at a
/// partial record.
pub fn classify_line(line: &str) -> (r: Option<RawRecord>)
    ensures
        match r {
            None => classify_spec(line@) is None,
            Some(rec) => classify_spec(line@) == Some(rec.category) && rec.raw@ == line@,
        },
{
    proof {
        assert(line.spec_bytes() == encode_utf8(line@));
    }
    let bytes = line.as_bytes();
    if bytes.len() < 13 {
        return None;
    }
    let section = bytes[4] as char;
    let subsection_col6 = bytes[5] as char;
    let subsection_col13 = bytes[12] as char;
    let category = match category_for(section, subsection_col6) {
        Some(c) => c,
        None => match category_for(section, subsection_col13) {
            Some(c) => c,
            None => RecordCategory::Unknown,
        },
    };
    Some(RawRecord { raw: line.to_owned(), category })
}

} // verus!
