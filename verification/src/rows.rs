//! The row assembler: in-band tokens are grouped into rows by
//! y-coordinate and a row is finalized into a job whenever their
//! y-coordinate changes; tokens outside the table band feed the metadata
//! extractor and do not participate in row boundaries.
//!
//! A trailing row that no further y-change follows is dropped, as the
//! row-boundary-triggered design has it; [`lemma_empty_row_finalize`]
//! shows that finalizing an all-absent row never appends a job.

use vstd::prelude::*;
use crate::columns::{
    spec_classify, spec_in_table_band, classify, TableColumn, BAND_HIGH, BAND_LOW, COORD_LIMIT,
};
use crate::dates::Date;
use crate::jobs::{spec_job_creator, job_creator};
use crate::metadata::{spec_identify_metadata, identify_metadata, ShiftMeta, ShiftMetaView};
use crate::shift_structs::{
    job_is_empty, Shift, ShiftJobView, ShiftParseError, ShiftParseErrorView, ShiftValid, ShiftView,
};
use crate::tokens::{ContentToken, ContentTokenView};

verus! {

/// The transient accumulator of one table row: at most one raw string per
/// column.
#[derive(Debug, Clone, PartialEq)]
pub struct RawRow {
    pub lijn: Option<String>,
    pub omloop: Option<String>,
    pub rit: Option<String>,
    pub start: Option<String>,
    pub van: Option<String>,
    pub naar: Option<String>,
    pub eind: Option<String>,
}

/// View of [`RawRow`] over character sequences.
#[verifier::ext_equal]
pub struct RawRowView {
    pub lijn: Option<Seq<char>>,
    pub omloop: Option<Seq<char>>,
    pub rit: Option<Seq<char>>,
    pub start: Option<Seq<char>>,
    pub van: Option<Seq<char>>,
    pub naar: Option<Seq<char>>,
    pub eind: Option<Seq<char>>,
}

impl View for RawRow {
    type V = RawRowView;

    open spec fn view(&self) -> RawRowView {
        RawRowView {
            lijn: self.lijn.deep_view(),
            omloop: self.omloop.deep_view(),
            rit: self.rit.deep_view(),
            start: self.start.deep_view(),
            van: self.van.deep_view(),
            naar: self.naar.deep_view(),
            eind: self.eind.deep_view(),
        }
    }
}

/// A row with every cell absent.
pub open spec fn empty_row() -> RawRowView {
    RawRowView {
        lijn: None,
        omloop: None,
        rit: None,
        start: None,
        van: None,
        naar: None,
        eind: None,
    }
}

impl RawRow {
    /// A fresh row with every cell absent.
    pub fn new() -> (r: RawRow)
        ensures
            r@ == empty_row(),
    {
        RawRow {
            lijn: None,
            omloop: None,
            rit: None,
            start: None,
            van: None,
            naar: None,
            eind: None,
        }
    }
}

/// The whole state the assembler folds over the token stream: the open
/// row, the y-coordinate it sits at, the page metadata, the finished jobs
/// and the recorded errors.
#[verifier::ext_equal]
pub struct AssemblyView {
    pub row: RawRowView,
    pub last_y: int,
    pub meta: ShiftMetaView,
    pub jobs: Seq<ShiftJobView>,
    pub errors: Seq<ShiftParseErrorView>,
}

/// Feeds one token to the metadata extractor: the accumulated metadata
/// is updated, or a metadata failure is recorded. Nothing else of the
/// state — in particular neither the open row nor its y-coordinate — is
/// touched.
pub open spec fn spec_apply_metadata(
    st: AssemblyView,
    text: Seq<char>,
    x: int,
    y: int,
    page_number: u32,
) -> AssemblyView {
    match spec_identify_metadata(text, y, x, st.meta) {
        Some(m) => AssemblyView { meta: m, ..st },
        None => AssemblyView {
            errors: st.errors.push(ShiftParseErrorView::MetadataFailure { page_number }),
            ..st
        },
    }
}

/// Routes one token into the state: metadata tokens feed the metadata
/// extractor, in-band tokens fill their column's cell, unclaimed tokens
/// are ignored.
pub open spec fn spec_route(
    st: AssemblyView,
    text: Seq<char>,
    x: int,
    y: int,
    offset: int,
    page_number: u32,
) -> AssemblyView {
    match spec_classify(x, y, offset) {
        Some(TableColumn::Metadata) => spec_apply_metadata(st, text, x, y, page_number),
        Some(TableColumn::LineOrDuty) => AssemblyView {
            row: RawRowView { lijn: Some(text), ..st.row },
            ..st
        },
        Some(TableColumn::Cycle) => AssemblyView {
            row: RawRowView { omloop: Some(text), ..st.row },
            ..st
        },
        Some(TableColumn::Trip) => AssemblyView {
            row: RawRowView { rit: Some(text), ..st.row },
            ..st
        },
        Some(TableColumn::StartTime) => AssemblyView {
            row: RawRowView { start: Some(text), ..st.row },
            ..st
        },
        Some(TableColumn::FromLocation) => AssemblyView {
            row: RawRowView { van: Some(text), ..st.row },
            ..st
        },
        Some(TableColumn::ToLocation) => AssemblyView {
            row: RawRowView { naar: Some(text), ..st.row },
            ..st
        },
        Some(TableColumn::EndTime) => AssemblyView {
            row: RawRowView { eind: Some(text), ..st.row },
            ..st
        },
        None => st,
    }
}

/// One step of the assembler. A token outside the table band carries
/// metadata: it is handed to the metadata extractor and does not
/// participate in row boundaries — the open row and its y-coordinate
/// stay as they are. An in-band token whose y-coordinate differs from
/// the open row's finalizes that row first: the built job is appended
/// unless it is empty, and the row is reset at the new y. If building
/// the job fails, the error is recorded, the row is kept as it was, and
/// the failing boundary token itself is dropped. Then the token is
/// routed into its column.
pub open spec fn spec_step(
    st: AssemblyView,
    text: Seq<char>,
    x: int,
    y: int,
    offset: int,
    page_number: u32,
) -> AssemblyView {
    if !spec_in_table_band(y) {
        spec_apply_metadata(st, text, x, y, page_number)
    } else if y != st.last_y {
        match spec_job_creator(
            st.row.lijn,
            st.row.omloop,
            st.row.rit,
            st.row.start,
            st.row.eind,
            st.row.van,
            st.row.naar,
        ) {
            Err(e) => AssemblyView { last_y: y, errors: st.errors.push(e), ..st },
            Ok(j) => {
                let jobs2 = if !job_is_empty(j) {
                    st.jobs.push(j)
                } else {
                    st.jobs
                };
                let st2 = AssemblyView { row: empty_row(), last_y: y, jobs: jobs2, ..st };
                spec_route(st2, text, x, y, offset, page_number)
            },
        }
    } else {
        spec_route(st, text, x, y, offset, page_number)
    }
}

/// The assembler folded over the tokens from index `i` on.
pub open spec fn spec_assemble_from(
    tokens: Seq<ContentTokenView>,
    i: int,
    st: AssemblyView,
    offset: int,
    page_number: u32,
) -> AssemblyView
    decreases tokens.len() - i,
{
    if i < 0 || i >= tokens.len() {
        st
    } else {
        spec_assemble_from(
            tokens,
            i + 1,
            spec_step(st, tokens[i].text, tokens[i].x, tokens[i].y, offset, page_number),
            offset,
            page_number,
        )
    }
}

/// The assembler's starting state: an empty row seeded at the first
/// token's y, a placeholder effective date, an unknown validity pattern,
/// the shift number handed in by the caller, and any errors already
/// collected while the tokens were extracted.
pub open spec fn init_assembly(
    first_y: int,
    shift_number: Seq<char>,
    initial_errors: Seq<ShiftParseErrorView>,
) -> AssemblyView {
    AssemblyView {
        row: empty_row(),
        last_y: first_y,
        meta: ShiftMetaView {
            starting_date: Date { year: 2025, month: 6, day: 29 },
            valid_on: ShiftValid::Unknown,
            shift_number: shift_number,
            location: Seq::empty(),
        },
        jobs: Seq::empty(),
        errors: initial_errors,
    }
}

/// The shift a non-empty token stream assembles into.
pub open spec fn spec_assemble(
    tokens: Seq<ContentTokenView>,
    offset: int,
    page_number: u32,
    shift_number: Seq<char>,
    initial_errors: Seq<ShiftParseErrorView>,
) -> ShiftView {
    let st = spec_assemble_from(
        tokens,
        0,
        init_assembly(tokens[0].y, shift_number, initial_errors),
        offset,
        page_number,
    );
    ShiftView {
        shift_nr: st.meta.shift_number,
        valid_on: st.meta.valid_on,
        location: st.meta.location,
        job: st.jobs,
        starting_date: st.meta.starting_date,
        parse_error: if st.errors.len() > 0 {
            Some(st.errors)
        } else {
            None
        },
    }
}

/// Finalizing an all-absent row appends no job: the job built from seven
/// absent cells is empty and is discarded, so a y-change over an empty
/// row changes nothing that routing the token alone would not. Only an
/// in-band token reaches a row boundary at all; a metadata token never
/// finalizes a row by construction.
pub proof fn lemma_empty_row_finalize(
    st: AssemblyView,
    text: Seq<char>,
    x: int,
    y: int,
    offset: int,
    page_number: u32,
)
    requires
        st.row == empty_row(),
        spec_in_table_band(y),
    ensures
        spec_step(st, text, x, y, offset, page_number) == spec_route(
            AssemblyView { last_y: y, ..st },
            text,
            x,
            y,
            offset,
            page_number,
        ),
{
    if y != st.last_y {
        let j = spec_job_creator(None, None, None, None, None, None, None);
        assert(j matches Ok(job) && job_is_empty(job));
        assert(AssemblyView { row: empty_row(), last_y: y, jobs: st.jobs, ..st } =~= AssemblyView {
            last_y: y,
            ..st
        });
    } else {
        assert(AssemblyView { last_y: y, ..st } =~= st);
    }
}

/// Clones an optional cell.
fn clone_opt(o: &Option<String>) -> (r: Option<String>)
    ensures
        r.deep_view() == o.deep_view(),
{
    match o {
        Some(s) => Some(s.clone()),
        None => None,
    }
}

/// Assembles one page's tokens into a shift. The only hard failure is a
/// page without any positioned token; every recoverable failure is
/// recorded in the shift's error list.
pub fn assemble_shift(
    tokens: &Vec<ContentToken>,
    offset: i64,
    page_number: u32,
    shift_number: String,
    initial_errors: Vec<ShiftParseError>,
) -> (r: Result<Shift, ShiftParseError>)
    requires
        -COORD_LIMIT <= offset <= COORD_LIMIT,
        forall|i: int|
            0 <= i < tokens@.len() ==> -COORD_LIMIT <= (#[trigger] tokens@[i])@.x <= COORD_LIMIT,
    ensures
        match r {
            Ok(s) => tokens@.len() > 0 && s@ == spec_assemble(
                tokens.deep_view(),
                offset as int,
                page_number,
                shift_number@,
                initial_errors.deep_view(),
            ),
            Err(e) => tokens@.len() == 0 && e@ == (ShiftParseErrorView::EmptyPage { page_number }),
        },
{
    let n = tokens.len();
    if n == 0 {
        return Err(ShiftParseError::EmptyPage { page_number });
    }
    let ghost tv = tokens.deep_view();
    let mut row = RawRow::new();
    let mut last_y: i64 = tokens[0].y;
    let mut meta = ShiftMeta {
        starting_date: Date { year: 2025, month: 6, day: 29 },
        valid_on: ShiftValid::Unknown,
        shift_number,
        location: String::new(),
    };
    let mut jobs: Vec<crate::shift_structs::ShiftJob> = Vec::new();
    let mut errors: Vec<ShiftParseError> = initial_errors;
    let ghost st0 = init_assembly(tv[0].y, meta.shift_number@, errors.deep_view());
    let ghost goal = spec_assemble_from(tv, 0, st0, offset as int, page_number);
    proof {
        assert(AssemblyView {
            row: row@,
            last_y: last_y as int,
            meta: meta@,
            jobs: jobs.deep_view(),
            errors: errors.deep_view(),
        } =~= st0);
    }
    let mut i: usize = 0;
    while i < n
        invariant
            0 <= i <= n,
            n == tokens@.len(),
            tv == tokens.deep_view(),
            -COORD_LIMIT <= offset <= COORD_LIMIT,
            forall|k: int|
                0 <= k < tokens@.len() ==> -COORD_LIMIT <= (#[trigger] tokens@[k])@.x
                    <= COORD_LIMIT,
            goal == spec_assemble_from(
                tv,
                i as int,
                AssemblyView {
                    row: row@,
                    last_y: last_y as int,
                    meta: meta@,
                    jobs: jobs.deep_view(),
                    errors: errors.deep_view(),
                },
                offset as int,
                page_number,
            ),
        decreases n - i,
    {
        let ghost cur = AssemblyView {
            row: row@,
            last_y: last_y as int,
            meta: meta@,
            jobs: jobs.deep_view(),
            errors: errors.deep_view(),
        };
        let t = &tokens[i];
        proof {
            assert(tv[i as int] == t@);
        }
        if t.y < BAND_LOW || t.y > BAND_HIGH {
            // A metadata token: it does not participate in row
            // boundaries, so neither the open row nor its y-coordinate
            // moves.
            let ghost errors_before = errors.deep_view();
            match identify_metadata(&mut meta, t.text.clone(), t.y, t.x) {
                Some(_) => {},
                None => {
                    errors.push(ShiftParseError::MetadataFailure { page_number });
                    proof {
                        assert(errors.deep_view() =~= errors_before.push(
                            ShiftParseErrorView::MetadataFailure { page_number },
                        ));
                    }
                },
            }
            proof {
                let next = AssemblyView {
                    row: row@,
                    last_y: last_y as int,
                    meta: meta@,
                    jobs: jobs.deep_view(),
                    errors: errors.deep_view(),
                };
                assert(next =~= spec_step(cur, t@.text, t@.x, t@.y, offset as int, page_number));
            }
            i = i + 1;
            continue ;
        }
        let mut skip_route = false;
        if t.y != last_y {
            match job_creator(
                clone_opt(&row.lijn),
                clone_opt(&row.omloop),
                clone_opt(&row.rit),
                clone_opt(&row.start),
                clone_opt(&row.eind),
                clone_opt(&row.van),
                clone_opt(&row.naar),
            ) {
                Ok(job) => {
                    if !job.empty() {
                        let ghost jobs_before = jobs.deep_view();
                        let ghost jv = job@;
                        jobs.push(job);
                        proof {
                            assert(jobs.deep_view() =~= jobs_before.push(jv));
                        }
                    }
                    row = RawRow::new();
                },
                Err(e) => {
                    let ghost errors_before = errors.deep_view();
                    let ghost ev = e@;
                    errors.push(e);
                    proof {
                        assert(errors.deep_view() =~= errors_before.push(ev));
                    }
                    skip_route = true;
                },
            }
        }
        let ghost mid = if t@.y != cur.last_y {
            match spec_job_creator(
                cur.row.lijn,
                cur.row.omloop,
                cur.row.rit,
                cur.row.start,
                cur.row.eind,
                cur.row.van,
                cur.row.naar,
            ) {
                Err(e) => AssemblyView { last_y: t@.y, errors: cur.errors.push(e), ..cur },
                Ok(j) => AssemblyView {
                    row: empty_row(),
                    last_y: t@.y,
                    jobs: if !job_is_empty(j) {
                        cur.jobs.push(j)
                    } else {
                        cur.jobs
                    },
                    ..cur
                },
            }
        } else {
            cur
        };
        if !skip_route {
            match classify(t.x, t.y, offset) {
                Some(TableColumn::Metadata) => {
                    let ghost errors_before = errors.deep_view();
                    match identify_metadata(&mut meta, t.text.clone(), t.y, t.x) {
                        Some(_) => {},
                        None => {
                            errors.push(ShiftParseError::MetadataFailure { page_number });
                            proof {
                                assert(errors.deep_view() =~= errors_before.push(
                                    ShiftParseErrorView::MetadataFailure { page_number },
                                ));
                            }
                        },
                    }
                },
                Some(TableColumn::LineOrDuty) => {
                    row.lijn = Some(t.text.clone());
                },
                Some(TableColumn::Cycle) => {
                    row.omloop = Some(t.text.clone());
                },
                Some(TableColumn::Trip) => {
                    row.rit = Some(t.text.clone());
                },
                Some(TableColumn::StartTime) => {
                    row.start = Some(t.text.clone());
                },
                Some(TableColumn::FromLocation) => {
                    row.van = Some(t.text.clone());
                },
                Some(TableColumn::ToLocation) => {
                    row.naar = Some(t.text.clone());
                },
                Some(TableColumn::EndTime) => {
                    row.eind = Some(t.text.clone());
                },
                None => {},
            }
        }
        last_y = t.y;
        proof {
            let next = AssemblyView {
                row: row@,
                last_y: last_y as int,
                meta: meta@,
                jobs: jobs.deep_view(),
                errors: errors.deep_view(),
            };
            if skip_route {
                assert(next =~= spec_step(
                    cur,
                    t@.text,
                    t@.x,
                    t@.y,
                    offset as int,
                    page_number,
                ));
            } else {
                assert(next =~= spec_route(
                    mid,
                    t@.text,
                    t@.x,
                    t@.y,
                    offset as int,
                    page_number,
                ));
                assert(spec_step(cur, t@.text, t@.x, t@.y, offset as int, page_number)
                    == spec_route(mid, t@.text, t@.x, t@.y, offset as int, page_number));
            }
        }
        i = i + 1;
    }
    let shift = Shift {
        shift_nr: meta.shift_number,
        valid_on: meta.valid_on,
        location: meta.location,
        shift_type: None,
        job: jobs,
        starting_date: meta.starting_date,
        parse_error: if errors.len() > 0 {
            Some(errors)
        } else {
            None
        },
    };
    Ok(shift)
}

} // verus!
