//! The timetable resolver: which collections are active for a lookup
//! date, when the next change comes, and which collection serves a
//! requested shift number.
//!
//! The fallback rule lives in [`find_shift`]: the active collections are
//! tried newest-first, so a shift not reissued in the newest schedule
//! generation stays reachable under the most recent generation that still
//! lists it.

use vstd::prelude::*;
use crate::collection::{CollectionView, PdfTimetableCollection, ShiftData, ShiftDataView};
use crate::dates::{date_le, date_valid, spec_format_date, Date, format_date};
use crate::text::{
    filter_alpha, filter_digits, find_char_from, upper_seq, find_char, keep_alpha, keep_digits,
    str_eq, to_upper,
};

verus! {

/// The collections active for a date: those effective on or before it,
/// in their stored order.
pub open spec fn spec_active(s: Seq<CollectionView>, date: Date) -> Seq<CollectionView> {
    s.filter(|c: CollectionView| date_le(c.valid_from, date))
}

/// The first stored collection effective after the date, if any; with
/// the store sorted ascending this is the next change date.
pub open spec fn spec_next_change(s: Seq<CollectionView>, date: Date) -> Option<Date>
    decreases s.len(),
{
    if s.len() == 0 {
        None
    } else if !date_le(s[0].valid_from, date) {
        Some(s[0].valid_from)
    } else {
        spec_next_change(s.skip(1), date)
    }
}

/// Splits the loaded collections for a lookup date: the active ones, in
/// stored order, and the date of the next timetable change.
pub fn get_valid_timetables(collections: &Vec<PdfTimetableCollection>, current_date: Date) -> (r: (
    Vec<PdfTimetableCollection>,
    Option<Date>,
))
    ensures
        r.0.deep_view() == spec_active(collections.deep_view(), current_date),
        r.1 == spec_next_change(collections.deep_view(), current_date),
{
    let ghost cv = collections.deep_view();
    let mut active: Vec<PdfTimetableCollection> = Vec::new();
    let mut upcoming: Vec<Date> = Vec::new();
    let n = collections.len();
    let mut i: usize = 0;
    proof {
        assert(cv.take(0) =~= Seq::<CollectionView>::empty());
        reveal(Seq::filter);
        assert(active.deep_view() =~= spec_active(cv.take(0), current_date));
        assert(cv.skip(0) =~= cv);
    }
    while i < n
        invariant
            0 <= i <= n,
            n == collections@.len(),
            cv == collections.deep_view(),
            active.deep_view() == spec_active(cv.take(i as int), current_date),
            upcoming@.len() == 0 ==> spec_next_change(cv, current_date) == spec_next_change(
                cv.skip(i as int),
                current_date,
            ),
            upcoming@.len() > 0 ==> spec_next_change(cv, current_date) == Some(upcoming@[0]),
        decreases n - i,
    {
        let c = &collections[i];
        proof {
            assert(c.deep_view() == cv[i as int]);
            assert(cv.skip(i as int)[0] == cv[i as int]);
            assert(cv.skip(i as int).skip(1) =~= cv.skip(i + 1));
        }
        if c.valid_from.is_after(&current_date) {
            upcoming.push(c.valid_from);
        }
        if c.valid_from.is_on_or_before(&current_date) {
            let ghost a0 = active.deep_view();
            active.push(c.clone());
            proof {
                assert(active.deep_view() =~= a0.push(cv[i as int]));
            }
        }
        proof {
            reveal(Seq::filter);
            assert(cv.take(i + 1).drop_last() =~= cv.take(i as int));
            assert(cv.take(i + 1).last() == cv[i as int]);
        }
        i = i + 1;
    }
    proof {
        assert(cv.take(n as int) =~= cv);
        if upcoming@.len() == 0 {
            assert(cv.skip(n as int) =~= Seq::<CollectionView>::empty());
        }
    }
    let next_timetable: Option<Date> = if upcoming.len() > 0 {
        Some(upcoming[0])
    } else {
        None
    };
    (active, next_timetable)
}

/// Where the cascading lookup lands: the newest active collection whose
/// page table lists the number, together with that entry.
pub open spec fn spec_find_shift(s: Seq<CollectionView>, nr: Seq<char>) -> Option<
    (CollectionView, ShiftDataView),
>
    decreases s.len(),
{
    if s.len() == 0 {
        None
    } else if s.last().pages_map().contains_key(nr) {
        Some((s.last(), s.last().pages_map()[nr]))
    } else {
        spec_find_shift(s.drop_last(), nr)
    }
}

/// What the lookup leaves on the stack: the collections older than the
/// one that answered, or nothing when none answered.
pub open spec fn spec_find_rest(s: Seq<CollectionView>, nr: Seq<char>) -> Seq<CollectionView>
    decreases s.len(),
{
    if s.len() == 0 {
        s
    } else if s.last().pages_map().contains_key(nr) {
        s.drop_last()
    } else {
        spec_find_rest(s.drop_last(), nr)
    }
}

/// Pops active collections newest-first until one lists the shift
/// number; a shift dropped from a newer generation is still found in the
/// most recent generation that lists it. Returns the collection that
/// answered and its entry, or `None` once the list is exhausted.
pub fn find_shift(shift_number: &str, valid_timetables: &mut Vec<PdfTimetableCollection>) -> (r:
    Option<(PdfTimetableCollection, ShiftData)>)
    requires
        forall|i: int| 0 <= i < old(valid_timetables)@.len() ==> (#[trigger] old(
            valid_timetables,
        )@[i]).wf(),
    ensures
        match r {
            Some((c, d)) => spec_find_shift(old(valid_timetables).deep_view(), shift_number@)
                == Some((c@, d@)),
            None => spec_find_shift(old(valid_timetables).deep_view(), shift_number@) is None,
        },
        final(valid_timetables).deep_view() == spec_find_rest(
            old(valid_timetables).deep_view(),
            shift_number@,
        ),
{
    let ghost s0 = valid_timetables.deep_view();
    let mut result: Option<(PdfTimetableCollection, ShiftData)> = None;
    loop
        invariant_except_break
            forall|i: int|
                0 <= i < valid_timetables@.len() ==> (#[trigger] valid_timetables@[i]).wf(),
            result is None,
            spec_find_shift(s0, shift_number@) == spec_find_shift(
                valid_timetables.deep_view(),
                shift_number@,
            ),
            spec_find_rest(s0, shift_number@) == spec_find_rest(
                valid_timetables.deep_view(),
                shift_number@,
            ),
        ensures
            match result {
                Some((c, d)) => spec_find_shift(s0, shift_number@) == Some((c@, d@)),
                None => spec_find_shift(s0, shift_number@) is None,
            },
            valid_timetables.deep_view() == spec_find_rest(s0, shift_number@),
        decreases valid_timetables@.len(),
    {
        let ghost pre = valid_timetables.deep_view();
        let popped = valid_timetables.pop();
        let current = match popped {
            Some(c) => c,
            None => {
                proof {
                    assert(pre =~= Seq::<CollectionView>::empty());
                    assert(valid_timetables.deep_view() =~= pre);
                }
                break;
            },
        };
        proof {
            assert(valid_timetables.deep_view() =~= pre.drop_last());
            assert(current.deep_view() == pre.last());
        }
        let key = shift_number.to_owned();
        let found = match current.pages.get(&key) {
            Some(data) => Some(data.clone()),
            None => None,
        };
        match found {
            Some(d) => {
                proof {
                    assert(pre.last().pages_map().contains_key(shift_number@));
                    assert(d@ == pre.last().pages_map()[shift_number@]);
                }
                result = Some((current, d));
                break;
            },
            None => {},
        }
    }
    result
}

/// A requested alphabetic prefix is accepted against a stored one when
/// it is absent, identical, or one of the documented alias pair `GM`/`G`
/// in either order.
pub open spec fn spec_prefix_ok(requested: Seq<char>, stored: Seq<char>) -> bool {
    ||| requested.len() == 0
    ||| requested == stored
    ||| (requested == "GM"@ && stored == "G"@)
    ||| (requested == "G"@ && stored == "GM"@)
}

/// Whether the requested duty-type prefix is acceptable for the stored
/// one.
pub fn check_shift_prefix(requested: &str, stored: &str) -> (r: bool)
    ensures
        r == spec_prefix_ok(requested@, stored@),
{
    if requested.unicode_len() == 0 {
        return true;
    }
    if str_eq(requested, stored) {
        return true;
    }
    if str_eq(requested, "GM") && str_eq(stored, "G") {
        return true;
    }
    if str_eq(requested, "G") && str_eq(stored, "GM") {
        return true;
    }
    false
}

/// A parsed shift request: the uppercased identifier before any `.`, the
/// extension after it, and the identifier's alphabetic and numeric
/// parts.
#[derive(Debug, PartialEq)]
pub struct ShiftRequest {
    pub shift: String,
    pub extension: Option<String>,
    pub shift_prefix: String,
    pub numeric_shift_number: String,
}

/// The uppercased request text before the first `.`.
pub open spec fn spec_request_shift(request: Seq<char>) -> Seq<char> {
    let up = upper_seq(request);
    match find_char_from(up, 0, '.') {
        Some(p) => up.take(p),
        None => up,
    }
}

/// The request's extension: the piece between the first `.` and the
/// second, or the end.
pub open spec fn spec_request_extension(request: Seq<char>) -> Option<Seq<char>> {
    let up = upper_seq(request);
    match find_char_from(up, 0, '.') {
        None => None,
        Some(p) => match find_char_from(up, p + 1, '.') {
            Some(q) => Some(up.subrange(p + 1, q)),
            None => Some(up.subrange(p + 1, up.len() as int)),
        },
    }
}

/// Parses a request: uppercases it, splits the identifier from the
/// extension at the first `.`, and splits the identifier into its
/// alphabetic prefix and its numeric part.
pub fn parse_shift_request(request: &str) -> (r: ShiftRequest)
    ensures
        r.shift@ == spec_request_shift(request@),
        r.extension.deep_view() == spec_request_extension(request@),
        r.shift_prefix@ == filter_alpha(spec_request_shift(request@)),
        r.numeric_shift_number@ == filter_digits(spec_request_shift(request@)),
{
    let up = to_upper(request);
    let uplen = up.as_str().unicode_len();
    let dot = find_char(up.as_str(), 0, '.');
    let shift = match dot {
        Some(p) => up.as_str().substring_char(0, p).to_owned(),
        None => up.clone(),
    };
    let extension = match dot {
        None => None,
        Some(p) => match find_char(up.as_str(), p + 1, '.') {
            Some(q) => Some(up.as_str().substring_char(p + 1, q).to_owned()),
            None => Some(up.as_str().substring_char(p + 1, uplen).to_owned()),
        },
    };
    let shift_prefix = keep_alpha(shift.as_str());
    let numeric_shift_number = keep_digits(shift.as_str());
    ShiftRequest { shift, extension, shift_prefix, numeric_shift_number }
}

/// How a lookup over the active collections ends.
pub enum ShiftLookupOutcome {
    /// The newest active collection listing the number, with its entry.
    Found { collection: PdfTimetableCollection, data: ShiftData },
    /// No active collection lists the number.
    ShiftNotFound,
    /// A collection lists the number, but under another duty-type
    /// prefix than the request named, and no alias applies.
    PrefixMismatch { stored_prefix: String },
}

/// Resolves a request against the active collections: the cascading
/// lookup by numeric shift number, then the prefix check with its
/// documented alias pair.
pub fn lookup_shift(
    numeric_shift_number: &str,
    shift_prefix: &str,
    valid_timetables: &mut Vec<PdfTimetableCollection>,
) -> (r: ShiftLookupOutcome)
    requires
        forall|i: int| 0 <= i < old(valid_timetables)@.len() ==> (#[trigger] old(
            valid_timetables,
        )@[i]).wf(),
    ensures
        match spec_find_shift(old(valid_timetables).deep_view(), numeric_shift_number@) {
            None => r is ShiftNotFound,
            Some((c, d)) => {
                if spec_prefix_ok(shift_prefix@, d.shift_prefix) {
                    r matches ShiftLookupOutcome::Found { collection, data } && collection@ == c
                        && data@ == d
                } else {
                    r matches ShiftLookupOutcome::PrefixMismatch { stored_prefix }
                        && stored_prefix@ == d.shift_prefix
                }
            },
        },
        final(valid_timetables).deep_view() == spec_find_rest(
            old(valid_timetables).deep_view(),
            numeric_shift_number@,
        ),
{
    let (collection, data) = match find_shift(numeric_shift_number, valid_timetables) {
        Some(found) => found,
        None => {
            return ShiftLookupOutcome::ShiftNotFound;
        },
    };
    if !check_shift_prefix(shift_prefix, data.shift_prefix.as_str()) {
        return ShiftLookupOutcome::PrefixMismatch { stored_prefix: data.shift_prefix };
    }
    ShiftLookupOutcome::Found { collection, data }
}

/// What serving a found shift as PDF needs: the source file's path and
/// the shift's page numbers, as the page-copy collaborator takes them.
pub fn shift_pdf_source(
    shift_timetable_collection: &PdfTimetableCollection,
    shift_data: ShiftData,
) -> (r: Option<(String, Vec<u32>)>)
    requires
        shift_timetable_collection.wf(),
    ensures
        match r {
            Some((path, pages)) => shift_timetable_collection@.files_map().contains_key(
                shift_data@.file_id,
            ) && path@ == shift_timetable_collection@.files_map()[shift_data@.file_id]
                && pages@ == shift_data@.pages,
            None => !shift_timetable_collection@.files_map().contains_key(shift_data@.file_id),
        },
{
    let path = match shift_timetable_collection.files.get(&shift_data.file_id) {
        Some(p) => p.clone(),
        None => {
            return None;
        },
    };
    Some((path, shift_data.pages))
}

/// The path of a shift's persisted JSON body:
/// `pdf_collection/<dd-mm-yyyy>/<shift_number>.json`.
pub open spec fn spec_shift_json_path(date: Date, nr: Seq<char>) -> Seq<char> {
    "pdf_collection/"@ + spec_format_date(date) + "/"@ + nr + ".json"@
}

/// Builds the path of a shift's persisted JSON body.
pub fn find_json_shift_path(shift_number: &str, shift_timetable_date: &Date) -> (r: String)
    requires
        date_valid(*shift_timetable_date),
    ensures
        r@ == spec_shift_json_path(*shift_timetable_date, shift_number@),
{
    let mut path = String::new();
    path.append("pdf_collection/");
    let date_str = format_date(shift_timetable_date);
    path.append(date_str.as_str());
    path.append("/");
    path.append(shift_number);
    path.append(".json");
    proof {
        assert(path@ =~= spec_shift_json_path(*shift_timetable_date, shift_number@));
    }
    path
}

/// Whether the cached snapshot is stale: a next-change date is known and
/// today lies strictly after it.
pub fn needs_refresh(today: &Date, upcoming_timetable_date: &Option<Date>) -> (r: bool)
    ensures
        r == match *upcoming_timetable_date {
            Some(d) => !date_le(*today, d),
            None => false,
        },
{
    match upcoming_timetable_date {
        Some(d) => today.is_after(d),
        None => false,
    }
}

/// With the store sorted ascending by effective date, the next change
/// date is the least effective date still ahead of the lookup date, and
/// it is absent exactly when no collection lies ahead.
pub proof fn lemma_next_change_is_minimum(s: Seq<CollectionView>, date: Date)
    requires
        forall|i: int, j: int|
            0 <= i < j < s.len() ==> date_le(
                (#[trigger] s[i]).valid_from,
                (#[trigger] s[j]).valid_from,
            ),
    ensures
        match spec_next_change(s, date) {
            Some(d) => {
                &&& !date_le(d, date)
                &&& exists|i: int| 0 <= i < s.len() && (#[trigger] s[i]).valid_from == d
                &&& forall|i: int|
                    0 <= i < s.len() && !date_le((#[trigger] s[i]).valid_from, date) ==> date_le(
                        d,
                        s[i].valid_from,
                    )
            },
            None => forall|i: int| 0 <= i < s.len() ==> date_le((#[trigger] s[i]).valid_from, date),
        },
    decreases s.len(),
{
    if s.len() > 0 {
        if !date_le(s[0].valid_from, date) {
            assert(s[0].valid_from == spec_next_change(s, date)->Some_0);
        } else {
            let t = s.skip(1);
            assert(forall|i: int, j: int|
                0 <= i < j < t.len() ==> date_le(
                    (#[trigger] t[i]).valid_from,
                    (#[trigger] t[j]).valid_from,
                )) by {
                assert(forall|i: int| 0 <= i < t.len() ==> #[trigger] t[i] == s[i + 1]);
            }
            lemma_next_change_is_minimum(t, date);
            match spec_next_change(s, date) {
                Some(d) => {
                    let wi = choose|i: int| 0 <= i < t.len() && (#[trigger] t[i]).valid_from == d;
                    assert(s[wi + 1].valid_from == d);
                    assert(forall|i: int|
                        0 <= i < s.len() && !date_le((#[trigger] s[i]).valid_from, date)
                            ==> date_le(d, s[i].valid_from)) by {
                        assert(forall|i: int| 1 <= i < s.len() ==> s[i] == t[i - 1]);
                    }
                },
                None => {
                    assert(forall|i: int| 1 <= i < s.len() ==> s[i] == t[i - 1]);
                },
            }
        }
    }
}

/// Collection activation boundary: membership in the active set is
/// decided by the calendar order alone, so a collection effective from
/// day `d` is active for `d` itself, stays active for every later
/// lookup date, and is inactive for any date before `d`.
pub proof fn lemma_activation_boundary(s: Seq<CollectionView>, i: int, date: Date, later: Date)
    requires
        0 <= i < s.len(),
    ensures
        date_le(s[i].valid_from, date) ==> spec_active(s, date).contains(s[i]),
        spec_active(s, date) =~= s ==> forall|j: int|
            0 <= j < s.len() ==> date_le((#[trigger] s[j]).valid_from, date),
        date_le(s[i].valid_from, s[i].valid_from),
        date_le(s[i].valid_from, date) && date_le(date, later) ==> date_le(
            s[i].valid_from,
            later,
        ),
        !date_le(s[i].valid_from, date) ==> !spec_active(s, date).contains(s[i]),
{
    if date_le(s[i].valid_from, date) {
        s.lemma_filter_contains(|c: CollectionView| date_le(c.valid_from, date), i);
    }
    if !date_le(s[i].valid_from, date) {
        if spec_active(s, date).contains(s[i]) {
            let k = choose|k: int|
                0 <= k < spec_active(s, date).len() && spec_active(s, date)[k] == s[i];
            s.lemma_filter_pred(|c: CollectionView| date_le(c.valid_from, date), k);
        }
    }
}

} // verus!
