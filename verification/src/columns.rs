//! Classification of a token's x-coordinate into a table column.
//!
//! Coordinates are fixed-point numbers in thousandths of a PDF unit (see
//! [`crate::tokens`]). Each column owns a closed interval relative to the
//! table's left edge; a page-wide horizontal offset shifts the whole table,
//! so a token is classified by `x + offset`. Tokens whose y-coordinate lies
//! outside the table band carry page metadata instead.

use vstd::prelude::*;

verus! {

/// One thousandth of a PDF length unit: the resolution of all coordinates.
pub const COORD_SCALE: i64 = 1000;

/// Magnitude bound on parsed coordinates; keeps every sum well inside
/// `i64`.
pub const COORD_LIMIT: i64 = 2_000_000_000_000;

/// The semantic columns of the shift table, and the out-of-band metadata
/// class.
#[derive(Debug, Clone, Copy, PartialEq, Eq, Structural)]
pub enum TableColumn {
    LineOrDuty,
    Cycle,
    Trip,
    StartTime,
    FromLocation,
    ToLocation,
    EndTime,
    Metadata,
}

/// Column intervals in thousandths, relative to the table's left edge.
pub const LINE_LOW: i64 = 0;

pub const LINE_HIGH: i64 = 67_000;

pub const CYCLE_LOW: i64 = 67_100;

pub const CYCLE_HIGH: i64 = 207_000;

pub const TRIP_LOW: i64 = 217_000;

pub const TRIP_HIGH: i64 = 267_000;

pub const START_LOW: i64 = 267_000;

pub const START_HIGH: i64 = 307_000;

pub const FROM_LOW: i64 = 317_000;

pub const FROM_HIGH: i64 = 337_000;

pub const TO_LOW: i64 = 367_000;

pub const TO_HIGH: i64 = 397_000;

pub const END_LOW: i64 = 407_000;

/// The vertical band holding table rows; outside it a token is metadata.
pub const BAND_LOW: i64 = 50_000;

pub const BAND_HIGH: i64 = 735_000;

/// Whether a y-coordinate lies within the table band.
pub open spec fn spec_in_table_band(y: int) -> bool {
    BAND_LOW <= y <= BAND_HIGH
}

/// The column owning the relative position `x + offset`, tested in the
/// fixed priority order; `None` when no interval claims it.
pub open spec fn spec_classify_x(x: int, offset: int) -> Option<TableColumn> {
    let rel = x + offset;
    if LINE_LOW <= rel <= LINE_HIGH {
        Some(TableColumn::LineOrDuty)
    } else if CYCLE_LOW <= rel <= CYCLE_HIGH {
        Some(TableColumn::Cycle)
    } else if TRIP_LOW <= rel <= TRIP_HIGH {
        Some(TableColumn::Trip)
    } else if START_LOW <= rel <= START_HIGH {
        Some(TableColumn::StartTime)
    } else if FROM_LOW <= rel <= FROM_HIGH {
        Some(TableColumn::FromLocation)
    } else if TO_LOW <= rel <= TO_HIGH {
        Some(TableColumn::ToLocation)
    } else if rel >= END_LOW {
        Some(TableColumn::EndTime)
    } else {
        None
    }
}

/// Where a token belongs: the metadata class when its y-coordinate is
/// outside the table band, otherwise the column owning its x-coordinate.
pub open spec fn spec_classify(x: int, y: int, offset: int) -> Option<TableColumn> {
    if !spec_in_table_band(y) {
        Some(TableColumn::Metadata)
    } else {
        spec_classify_x(x, offset)
    }
}

/// Classifies a token by its coordinates and the page's horizontal offset.
pub fn classify(x: i64, y: i64, offset: i64) -> (r: Option<TableColumn>)
    requires
        -COORD_LIMIT <= x <= COORD_LIMIT,
        -COORD_LIMIT <= offset <= COORD_LIMIT,
    ensures
        r == spec_classify(x as int, y as int, offset as int),
{
    if y < BAND_LOW || y > BAND_HIGH {
        return Some(TableColumn::Metadata);
    }
    let rel = x + offset;
    if LINE_LOW <= rel && rel <= LINE_HIGH {
        Some(TableColumn::LineOrDuty)
    } else if CYCLE_LOW <= rel && rel <= CYCLE_HIGH {
        Some(TableColumn::Cycle)
    } else if TRIP_LOW <= rel && rel <= TRIP_HIGH {
        Some(TableColumn::Trip)
    } else if START_LOW <= rel && rel <= START_HIGH {
        Some(TableColumn::StartTime)
    } else if FROM_LOW <= rel && rel <= FROM_HIGH {
        Some(TableColumn::FromLocation)
    } else if TO_LOW <= rel && rel <= TO_HIGH {
        Some(TableColumn::ToLocation)
    } else if rel >= END_LOW {
        Some(TableColumn::EndTime)
    } else {
        None
    }
}

/// Column classification is offset-invariant: moving every token of a page
/// and the page's offset against each other by the same amount — as the
/// twin-column print layout does between odd and even pages — classifies
/// every x-coordinate into the same column.
pub proof fn lemma_classify_offset_invariant(x: int, offset: int, d: int)
    ensures
        spec_classify_x(x + d, offset - d) == spec_classify_x(x, offset),
{
}

/// The same invariance for the full classification: the table band depends
/// only on the y-coordinate, which the horizontal shift leaves alone.
pub proof fn lemma_classify_token_offset_invariant(x: int, y: int, offset: int, d: int)
    ensures
        spec_classify(x + d, y, offset - d) == spec_classify(x, y, offset),
{
}

} // verus!
