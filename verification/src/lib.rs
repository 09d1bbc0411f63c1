//! Verified extraction of work-schedule records ("shifts") from the text
//! layer of PDF duty books, and resolution of which dated timetable
//! collection is authoritative for a given lookup date and shift identifier.
//!
//! The library is organised in two layers:
//!
//! * the content-stream parser: positioned text tokens are recovered from a
//!   page's drawing program, classified into table columns by x-coordinate,
//!   grouped into rows by y-coordinate, and turned into typed job records;
//! * the timetable resolver: parsed shifts are grouped into collections by
//!   effective date, and a lookup walks the active collections newest-first
//!   until one lists the requested shift number.
//!
//! All I/O (reading PDF files, serving HTTP, persisting JSON) lives outside
//! this crate; the functions here work on plain values and carry contracts.

pub mod collection;
pub mod columns;
pub mod dates;
pub mod error;
pub mod index;
pub mod indexing;
pub mod jobs;
pub mod kvmap;
pub mod metadata;
pub mod parser;
pub mod resolver;
pub mod rows;
pub mod shift_structs;
pub mod statistics;
pub mod text;
pub mod tokens;
