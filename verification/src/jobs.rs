//! Classification of a finalized table row into a typed job record: the
//! line/duty cell, the cycle cell, the trip number and the start and end
//! times.

use vstd::prelude::*;
use crate::shift_structs::{
    JobDrivingType, JobMessageType, JobMessageTypeView, JobType, JobTypeView, ShiftJob,
    ShiftJobView, ShiftParseError, ShiftParseErrorView, Time,
};
use crate::text::{
    find_char_from, lower_seq, remove_all, spec_first_word, spec_parse_uint, find_char, first_word,
    lower_eq, parse_u8_str, parse_u32_str, parse_usize_str, remove_all_str, str_eq,
};

verus! {

/// What parsing a `hour:minute` cell yields. An hour of twenty-four or
/// more rolls over into the next service day's clock time; a value that
/// still is no clock time after the rollover is dropped without error, a
/// missing or non-numeric component is a recorded error.
pub open spec fn spec_to_iso(s: Seq<char>, job: Seq<char>) -> Result<
    Option<Time>,
    ShiftParseErrorView,
> {
    let hpart = match find_char_from(s, 0, ':') {
        Some(p) => s.take(p),
        None => s,
    };
    match spec_parse_uint(hpart, u8::MAX as int) {
        None => Err(ShiftParseErrorView::TimeFieldUnparsable { job }),
        Some(h) => match find_char_from(s, 0, ':') {
            None => Err(ShiftParseErrorView::TimeFieldMissing { job }),
            Some(p) => {
                let mpart = match find_char_from(s, p + 1, ':') {
                    Some(q) => s.subrange(p + 1, q),
                    None => s.subrange(p + 1, s.len() as int),
                };
                match spec_parse_uint(mpart, u8::MAX as int) {
                    None => Err(ShiftParseErrorView::TimeFieldUnparsable { job }),
                    Some(m) => {
                        let h2 = if h >= 24 {
                            h - 24
                        } else {
                            h
                        };
                        if h2 < 24 && m < 60 {
                            Ok(Some(Time { hour: h2 as u8, minute: m as u8 }))
                        } else {
                            Ok(None)
                        }
                    },
                }
            },
        },
    }
}

/// Parses a `hour:minute` cell into a clock time, rolling hours of
/// twenty-four or more over into the next day's clock.
pub fn to_iso8601(time_string: &str, job_name: &str) -> (r: Result<Option<Time>, ShiftParseError>)
    ensures
        match r {
            Ok(t) => spec_to_iso(time_string@, job_name@) == Ok::<_, ShiftParseErrorView>(t),
            Err(e) => spec_to_iso(time_string@, job_name@) == Err::<Option<Time>, _>(e@),
        },
        r matches Ok(Some(t)) ==> crate::shift_structs::time_valid(t),
{
    let len = time_string.unicode_len();
    let colon = find_char(time_string, 0, ':');
    let hour_str = match colon {
        Some(p) => time_string.substring_char(0, p),
        None => time_string,
    };
    let hour = match parse_u8_str(hour_str) {
        Some(h) => h,
        None => {
            return Err(ShiftParseError::TimeFieldUnparsable { job: job_name.to_owned() });
        },
    };
    let p = match colon {
        Some(p) => p,
        None => {
            return Err(ShiftParseError::TimeFieldMissing { job: job_name.to_owned() });
        },
    };
    let minute_str = match find_char(time_string, p + 1, ':') {
        Some(q) => time_string.substring_char(p + 1, q),
        None => time_string.substring_char(p + 1, len),
    };
    let minute = match parse_u8_str(minute_str) {
        Some(m) => m,
        None => {
            return Err(ShiftParseError::TimeFieldUnparsable { job: job_name.to_owned() });
        },
    };
    let hour_iso = if hour >= 24 {
        hour - 24
    } else {
        hour
    };
    if hour_iso < 24 && minute < 60 {
        Ok(Some(Time { hour: hour_iso, minute }))
    } else {
        Ok(None)
    }
}

/// How a free-text instruction cell is classified: by its first word,
/// compared in lowercase. `None` stands for a cell whose recognised form
/// could not be completed and falls back to the plain-text variant.
pub open spec fn spec_message_type(s: Seq<char>) -> Option<JobMessageTypeView> {
    match spec_first_word(s) {
        None => None,
        Some(w) => {
            let lw = lower_seq(w);
            if lw == "neem"@ {
                Some(JobMessageTypeView::NeemBus { bustype: remove_all(s, "neem "@) })
            } else if lw == "bus"@ {
                match spec_parse_uint(remove_all(s, "Bus op lijn "@), u32::MAX as int) {
                    Some(n) => Some(JobMessageTypeView::BusOp { lijn: n as u32 }),
                    None => None,
                }
            } else if lw == "pod"@ {
                Some(JobMessageTypeView::NeemBus { bustype: s })
            } else if lw == "pass"@ {
                spec_passenger_message(s)
            } else {
                Some(JobMessageTypeView::Other(s))
            }
        },
    }
}

/// The `Pass met duty/cycle` form: the first word after stripping the
/// prefix is split on `/` into a duty number and a cycle name.
pub open spec fn spec_passenger_message(s: Seq<char>) -> Option<JobMessageTypeView> {
    let t = remove_all(s, "Pass met "@);
    match spec_first_word(t) {
        None => None,
        Some(w) => {
            let first = match find_char_from(w, 0, '/') {
                Some(q) => w.take(q),
                None => w,
            };
            match spec_parse_uint(first, u32::MAX as int) {
                None => None,
                Some(dn) => match find_char_from(w, 0, '/') {
                    None => None,
                    Some(q) => {
                        let second = match find_char_from(w, q + 1, '/') {
                            Some(q2) => w.subrange(q + 1, q2),
                            None => w.subrange(q + 1, w.len() as int),
                        };
                        Some(
                            JobMessageTypeView::Passagieren {
                                dienstnummer: dn as u32,
                                omloop: second,
                            },
                        )
                    },
                },
            }
        },
    }
}

/// Classifies a free-text instruction cell by its first word.
pub fn message_type_finder(lijn_string: String) -> (r: Option<JobMessageType>)
    ensures
        match r {
            Some(m) => spec_message_type(lijn_string@) == Some(m@),
            None => spec_message_type(lijn_string@) is None,
        },
{
    let word = match first_word(lijn_string.as_str()) {
        Some(w) => w,
        None => {
            return None;
        },
    };
    if lower_eq(word.as_str(), "neem") {
        proof {
            reveal_strlit("neem ");
        }
        let bustype = remove_all_str(lijn_string.as_str(), "neem ");
        Some(JobMessageType::NeemBus { bustype })
    } else if lower_eq(word.as_str(), "bus") {
        proof {
            reveal_strlit("Bus op lijn ");
        }
        let stripped = remove_all_str(lijn_string.as_str(), "Bus op lijn ");
        match parse_u32_str(stripped.as_str()) {
            Some(n) => Some(JobMessageType::BusOp { lijn: n }),
            None => None,
        }
    } else if lower_eq(word.as_str(), "pod") {
        Some(JobMessageType::NeemBus { bustype: lijn_string })
    } else if lower_eq(word.as_str(), "pass") {
        proof {
            reveal_strlit("Pass met ");
        }
        let t = remove_all_str(lijn_string.as_str(), "Pass met ");
        let w = match first_word(t.as_str()) {
            Some(w) => w,
            None => {
                return None;
            },
        };
        let wlen = w.as_str().unicode_len();
        let slash = find_char(w.as_str(), 0, '/');
        let first = match slash {
            Some(q) => w.as_str().substring_char(0, q),
            None => w.as_str(),
        };
        let dn = match parse_u32_str(first) {
            Some(dn) => dn,
            None => {
                return None;
            },
        };
        match slash {
            None => None,
            Some(q) => {
                let second = match find_char(w.as_str(), q + 1, '/') {
                    Some(q2) => w.as_str().substring_char(q + 1, q2),
                    None => w.as_str().substring_char(q + 1, wlen),
                };
                Some(
                    JobMessageType::Passagieren { dienstnummer: dn, omloop: second.to_owned() },
                )
            },
        }
    } else {
        Some(JobMessageType::Other(lijn_string))
    }
}

/// How the line/duty cell is classified: the material marker, the break
/// marker, a numbered line, the board/alight marker, or a free-text
/// instruction.
pub open spec fn spec_line_job_type(l: Seq<char>) -> JobTypeView {
    if l == "MAT"@ {
        JobTypeView::Rijden { drive_type: JobDrivingType::Mat }
    } else if l == "Pauze"@ {
        JobTypeView::Pauze
    } else if spec_parse_uint(l, u32::MAX as int) is Some {
        JobTypeView::Rijden {
            drive_type: JobDrivingType::Lijn(spec_parse_uint(l, u32::MAX as int)->Some_0 as u32),
        }
    } else if l == "Op/Afstaptijd"@ {
        JobTypeView::OpAfstap
    } else {
        match spec_message_type(l) {
            Some(m) => JobTypeView::Melding { message: m },
            None => JobTypeView::Melding { message: JobMessageTypeView::Other(l) },
        }
    }
}

/// What classifying one finalized row yields, mirrored over views.
///
/// The cycle cell is read last: its literal markers override whatever the
/// line/duty cell said, and any other cycle text is kept only as a number.
/// A failing time cell is the one hard error; the start cell is read
/// before the end cell.
pub open spec fn spec_job_creator(
    lijn: Option<Seq<char>>,
    omloop: Option<Seq<char>>,
    rit: Option<Seq<char>>,
    start: Option<Seq<char>>,
    eind: Option<Seq<char>>,
    van: Option<Seq<char>>,
    naar: Option<Seq<char>>,
) -> Result<ShiftJobView, ShiftParseErrorView> {
    let line_type = match lijn {
        Some(l) => spec_line_job_type(l),
        None => JobTypeView::Unknown,
    };
    let rit_number = match rit {
        Some(r) => match spec_parse_uint(r, usize::MAX as int) {
            Some(n) => Some(n as usize),
            None => None,
        },
        None => None,
    };
    let start_res = match start {
        Some(ss) => spec_to_iso(ss, "Start time"@),
        None => Ok(None),
    };
    match start_res {
        Err(e) => Err(e),
        Ok(start_time) => {
            let end_res = match eind {
                Some(es) => spec_to_iso(es, "End time"@),
                None => Ok(None),
            };
            match end_res {
                Err(e) => Err(e),
                Ok(end_time) => {
                    let (job_type, omloop_number) = match omloop {
                        Some(os) => {
                            if os == "Onderbreking"@ {
                                (JobTypeView::Onderbreking, None)
                            } else if os == "Loop/Reis"@ {
                                (JobTypeView::LoopReis, None)
                            } else if os == "Rijklaar maken"@ {
                                (JobTypeView::RijklaarMaken, None)
                            } else if os == "Bus stallen/afm"@ {
                                (JobTypeView::StallenAfmelden, None)
                            } else if os == "Reserve"@ {
                                (JobTypeView::Reserve, None)
                            } else {
                                (
                                    line_type,
                                    match spec_parse_uint(os, usize::MAX as int) {
                                        Some(n) => Some(n as usize),
                                        None => None,
                                    },
                                )
                            }
                        },
                        None => (line_type, None),
                    };
                    Ok(
                        ShiftJobView {
                            job_type,
                            start: start_time,
                            end: end_time,
                            start_location: van,
                            end_location: naar,
                            omloop: omloop_number,
                            rit: rit_number,
                        },
                    )
                },
            }
        },
    }
}

/// Builds the typed job record for one finalized row of the shift table.
pub fn job_creator(
    lijn: Option<String>,
    omloop: Option<String>,
    rit: Option<String>,
    start: Option<String>,
    eind: Option<String>,
    van: Option<String>,
    naar: Option<String>,
) -> (r: Result<ShiftJob, ShiftParseError>)
    ensures
        match r {
            Ok(j) => spec_job_creator(
                lijn.deep_view(),
                omloop.deep_view(),
                rit.deep_view(),
                start.deep_view(),
                eind.deep_view(),
                van.deep_view(),
                naar.deep_view(),
            ) == Ok::<_, ShiftParseErrorView>(j@),
            Err(e) => spec_job_creator(
                lijn.deep_view(),
                omloop.deep_view(),
                rit.deep_view(),
                start.deep_view(),
                eind.deep_view(),
                van.deep_view(),
                naar.deep_view(),
            ) == Err::<ShiftJobView, _>(e@),
        },
{
    let mut job_type = JobType::Unknown;
    if let Some(lijn_string) = lijn {
        if str_eq(lijn_string.as_str(), "MAT") {
            job_type = JobType::Rijden { drive_type: JobDrivingType::Mat };
        } else if str_eq(lijn_string.as_str(), "Pauze") {
            job_type = JobType::Pauze;
        } else if let Some(lijn_parse) = parse_u32_str(lijn_string.as_str()) {
            job_type = JobType::Rijden { drive_type: JobDrivingType::Lijn(lijn_parse) };
        } else if str_eq(lijn_string.as_str(), "Op/Afstaptijd") {
            job_type = JobType::OpAfstap;
        } else {
            let message = match message_type_finder(lijn_string.clone()) {
                Some(message) => message,
                None => JobMessageType::Other(lijn_string),
            };
            job_type = JobType::Melding { message };
        }
    }
    let mut rit_number: Option<usize> = None;
    if let Some(rit_string) = rit {
        rit_number = parse_usize_str(rit_string.as_str());
    }
    let mut start_time: Option<Time> = None;
    if let Some(start_string) = start {
        start_time = match to_iso8601(start_string.as_str(), "Start time") {
            Ok(t) => t,
            Err(e) => {
                return Err(e);
            },
        };
    }
    let mut end_time: Option<Time> = None;
    if let Some(end_string) = eind {
        end_time = match to_iso8601(end_string.as_str(), "End time") {
            Ok(t) => t,
            Err(e) => {
                return Err(e);
            },
        };
    }
    let mut omloop_number: Option<usize> = None;
    if let Some(omloop_string) = omloop {
        if str_eq(omloop_string.as_str(), "Onderbreking") {
            job_type = JobType::Onderbreking;
        } else if str_eq(omloop_string.as_str(), "Loop/Reis") {
            job_type = JobType::LoopReis;
        } else if str_eq(omloop_string.as_str(), "Rijklaar maken") {
            job_type = JobType::RijklaarMaken;
        } else if str_eq(omloop_string.as_str(), "Bus stallen/afm") {
            job_type = JobType::StallenAfmelden;
        } else if str_eq(omloop_string.as_str(), "Reserve") {
            job_type = JobType::Reserve;
        } else {
            omloop_number = parse_usize_str(omloop_string.as_str());
        }
    }
    Ok(
        ShiftJob {
            job_type,
            start: start_time,
            end: end_time,
            start_location: van,
            end_location: naar,
            omloop: omloop_number,
            rit: rit_number,
        },
    )
}

} // verus!
