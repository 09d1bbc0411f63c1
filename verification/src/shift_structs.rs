//! The parsed shift data model: per-row job records, the typed job
//! variants, the per-shift metadata, and the parse-error taxonomy.
//!
//! Types whose fields hold owned strings get an explicit view type over
//! `Seq<char>` so that contracts can speak of their contents.

use vstd::prelude::*;
use crate::dates::Date;

verus! {

/// A clock time of day with minute precision.
#[derive(Debug, Clone, Copy, PartialEq, Eq, Structural, Hash)]
pub struct Time {
    pub hour: u8,
    pub minute: u8,
}

/// A real time of day.
pub open spec fn time_valid(t: Time) -> bool {
    t.hour < 24 && t.minute < 60
}

/// A recoverable failure met while parsing one page of a duty book.
///
/// Each value is recorded into the owning shift's error list; none of them
/// aborts the page.
#[derive(Debug, Clone, PartialEq)]
pub enum ShiftParseError {
    /// A positioned text literal had no preceding coordinate line.
    TokenCoordinateMissing,
    /// The coordinate line before a text literal did not hold two numbers.
    TokenCoordinateUnparsable,
    /// A page produced no positioned text tokens at all.
    EmptyPage { page_number: u32 },
    /// A header or footer token matched a metadata rule but its payload
    /// could not be read.
    MetadataFailure { page_number: u32 },
    /// A time cell held no minute component.
    TimeFieldMissing { job: String },
    /// A time cell's hour or minute was not a number.
    TimeFieldUnparsable { job: String },
}

/// View of [`ShiftParseError`] over character sequences.
pub enum ShiftParseErrorView {
    TokenCoordinateMissing,
    TokenCoordinateUnparsable,
    EmptyPage { page_number: u32 },
    MetadataFailure { page_number: u32 },
    TimeFieldMissing { job: Seq<char> },
    TimeFieldUnparsable { job: Seq<char> },
}

impl View for ShiftParseError {
    type V = ShiftParseErrorView;

    open spec fn view(&self) -> ShiftParseErrorView {
        match self {
            ShiftParseError::TokenCoordinateMissing => ShiftParseErrorView::TokenCoordinateMissing,
            ShiftParseError::TokenCoordinateUnparsable => ShiftParseErrorView::TokenCoordinateUnparsable,
            ShiftParseError::EmptyPage { page_number } => ShiftParseErrorView::EmptyPage {
                page_number: *page_number,
            },
            ShiftParseError::MetadataFailure { page_number } => ShiftParseErrorView::MetadataFailure {
                page_number: *page_number,
            },
            ShiftParseError::TimeFieldMissing { job } => ShiftParseErrorView::TimeFieldMissing {
                job: job@,
            },
            ShiftParseError::TimeFieldUnparsable { job } => ShiftParseErrorView::TimeFieldUnparsable {
                job: job@,
            },
        }
    }
}

/// The days of the week a shift operates.
#[derive(Debug, Clone, Copy, PartialEq, Eq, Structural)]
pub enum ShiftValid {
    Weekdays,
    WeekdaysExceptWednesday,
    Wednesday,
    Saturday,
    Sunday,
    Unknown,
}

/// Coarse classification of a whole shift by its place in the day.
#[derive(Debug, Clone, PartialEq)]
pub enum ShiftType {
    Vroeg,
    Tussen,
    Dag,
    /// If one bound is absent, the value describes half of a broken shift.
    Gebroken { start_break: Option<Time>, end_break: Option<Time> },
    Laat,
}

/// What a driving job drives: a numbered line, or empty material.
#[derive(Debug, Clone, Copy, PartialEq, Eq, Structural)]
pub enum JobDrivingType {
    Lijn(u32),
    Mat,
}

/// A free-text instruction cell, classified by its leading word.
#[derive(Debug, Clone, PartialEq)]
pub enum JobMessageType {
    Meenemen { dienstnummers: Vec<u32> },
    Passagieren { dienstnummer: u32, omloop: String },
    BusOp { lijn: u32 },
    NeemBus { bustype: String },
    Other(String),
}

/// View of [`JobMessageType`] over character sequences.
pub enum JobMessageTypeView {
    Meenemen { dienstnummers: Seq<u32> },
    Passagieren { dienstnummer: u32, omloop: Seq<char> },
    BusOp { lijn: u32 },
    NeemBus { bustype: Seq<char> },
    Other(Seq<char>),
}

impl View for JobMessageType {
    type V = JobMessageTypeView;

    open spec fn view(&self) -> JobMessageTypeView {
        match self {
            JobMessageType::Meenemen { dienstnummers } => JobMessageTypeView::Meenemen {
                dienstnummers: dienstnummers@,
            },
            JobMessageType::Passagieren { dienstnummer, omloop } => JobMessageTypeView::Passagieren {
                dienstnummer: *dienstnummer,
                omloop: omloop@,
            },
            JobMessageType::BusOp { lijn } => JobMessageTypeView::BusOp { lijn: *lijn },
            JobMessageType::NeemBus { bustype } => JobMessageTypeView::NeemBus {
                bustype: bustype@,
            },
            JobMessageType::Other(s) => JobMessageTypeView::Other(s@),
        }
    }
}

/// What one row of the shift table says the employee does.
#[derive(Debug, Clone, PartialEq)]
pub enum JobType {
    Rijden { drive_type: JobDrivingType },
    Pauze,
    Onderbreking,
    OpAfstap,
    RijklaarMaken,
    StallenAfmelden,
    Melding { message: JobMessageType },
    LoopReis,
    Reserve,
    Unknown,
}

/// View of [`JobType`] over character sequences.
pub enum JobTypeView {
    Rijden { drive_type: JobDrivingType },
    Pauze,
    Onderbreking,
    OpAfstap,
    RijklaarMaken,
    StallenAfmelden,
    Melding { message: JobMessageTypeView },
    LoopReis,
    Reserve,
    Unknown,
}

impl View for JobType {
    type V = JobTypeView;

    open spec fn view(&self) -> JobTypeView {
        match self {
            JobType::Rijden { drive_type } => JobTypeView::Rijden { drive_type: *drive_type },
            JobType::Pauze => JobTypeView::Pauze,
            JobType::Onderbreking => JobTypeView::Onderbreking,
            JobType::OpAfstap => JobTypeView::OpAfstap,
            JobType::RijklaarMaken => JobTypeView::RijklaarMaken,
            JobType::StallenAfmelden => JobTypeView::StallenAfmelden,
            JobType::Melding { message } => JobTypeView::Melding { message: message@ },
            JobType::LoopReis => JobTypeView::LoopReis,
            JobType::Reserve => JobTypeView::Reserve,
            JobType::Unknown => JobTypeView::Unknown,
        }
    }
}

/// One finalized row of the shift table.
#[derive(Debug, Clone, PartialEq)]
pub struct ShiftJob {
    pub job_type: JobType,
    pub start: Option<Time>,
    pub end: Option<Time>,
    pub start_location: Option<String>,
    /// If absent, the job ends where it started.
    pub end_location: Option<String>,
    pub omloop: Option<usize>,
    pub rit: Option<usize>,
}

/// View of [`ShiftJob`] over character sequences.
pub struct ShiftJobView {
    pub job_type: JobTypeView,
    pub start: Option<Time>,
    pub end: Option<Time>,
    pub start_location: Option<Seq<char>>,
    pub end_location: Option<Seq<char>>,
    pub omloop: Option<usize>,
    pub rit: Option<usize>,
}

impl View for ShiftJob {
    type V = ShiftJobView;

    open spec fn view(&self) -> ShiftJobView {
        ShiftJobView {
            job_type: self.job_type@,
            start: self.start,
            end: self.end,
            start_location: match &self.start_location {
                Some(s) => Some(s@),
                None => None,
            },
            end_location: match &self.end_location {
                Some(s) => Some(s@),
                None => None,
            },
            omloop: self.omloop,
            rit: self.rit,
        }
    }
}

/// A job carrying no information at all: unknown type and every optional
/// field absent. Such rows are discarded instead of appended.
pub open spec fn job_is_empty(j: ShiftJobView) -> bool {
    &&& j.job_type is Unknown
    &&& j.start is None
    &&& j.end is None
    &&& j.start_location is None
    &&& j.end_location is None
    &&& j.omloop is None
    &&& j.rit is None
}

impl ShiftJob {
    /// Whether this job would carry no information: unknown type and
    /// every optional field absent. Mirrors the discard test applied at
    /// row finalization.
    pub fn empty(&self) -> (r: bool)
        ensures
            r == job_is_empty(self@),
    {
        match self.job_type {
            JobType::Unknown => self.start.is_none() && self.end.is_none()
                && self.start_location.is_none() && self.end_location.is_none()
                && self.omloop.is_none() && self.rit.is_none(),
            _ => false,
        }
    }
}

/// One employee's parsed schedule for a service day: the ordered jobs and
/// the page metadata, with any errors met while parsing.
#[derive(Debug, Clone, PartialEq)]
pub struct Shift {
    pub shift_nr: String,
    pub valid_on: ShiftValid,
    pub location: String,
    pub shift_type: Option<ShiftType>,
    pub job: Vec<ShiftJob>,
    pub starting_date: Date,
    pub parse_error: Option<Vec<ShiftParseError>>,
}

/// View of [`Shift`] over character sequences.
pub struct ShiftView {
    pub shift_nr: Seq<char>,
    pub valid_on: ShiftValid,
    pub location: Seq<char>,
    pub job: Seq<ShiftJobView>,
    pub starting_date: Date,
    pub parse_error: Option<Seq<ShiftParseErrorView>>,
}

impl View for Shift {
    type V = ShiftView;

    open spec fn view(&self) -> ShiftView {
        ShiftView {
            shift_nr: self.shift_nr@,
            valid_on: self.valid_on,
            location: self.location@,
            job: self.job.deep_view(),
            starting_date: self.starting_date,
            parse_error: match &self.parse_error {
                Some(v) => Some(v.deep_view()),
                None => None,
            },
        }
    }
}

impl DeepView for ShiftJob {
    type V = ShiftJobView;

    open spec fn deep_view(&self) -> ShiftJobView {
        self.view()
    }
}

impl DeepView for ShiftParseError {
    type V = ShiftParseErrorView;

    open spec fn deep_view(&self) -> ShiftParseErrorView {
        self.view()
    }
}

impl Shift {
    /// Whether any parse error was recorded for this shift.
    pub fn has_parse_errors(&self) -> (r: bool)
        ensures
            r == match self@.parse_error {
                Some(errs) => errs.len() > 0,
                None => false,
            },
    {
        match &self.parse_error {
            Some(errs) => errs.len() > 0,
            None => false,
        }
    }
}

} // verus!
