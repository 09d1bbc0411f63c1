//! Summary statistics over the collection store: how many shifts and
//! timetables are loaded, how many are active for a date, and which
//! generations frame the date.

use vstd::prelude::*;
use crate::collection::{CollectionView, PdfTimetableCollection};
use crate::dates::{date_valid, spec_format_date, Date, format_date};

verus! {

/// A snapshot of the store's size and currency.
#[derive(Debug, PartialEq)]
pub struct Statistics {
    pub shifts: u64,
    pub valid_shifts: u64,
    pub active_shifts: u64,
    pub inactive_shifts: u64,
    pub timetables: u64,
    pub active_timetables: u64,
    pub future_timetables: u64,
    pub recent_timetable: Option<String>,
    pub next_timetable: Option<String>,
    pub errored_shifts: Vec<String>,
}

/// The number of shifts the collections hold, summed over their page
/// tables.
pub open spec fn spec_sum_shifts(s: Seq<CollectionView>) -> int
    decreases s.len(),
{
    if s.len() == 0 {
        0int
    } else {
        spec_sum_shifts(s.drop_last()) + s.last().pages_entries.len()
    }
}

/// Partial sums never exceed the whole.
pub proof fn lemma_sum_shifts_prefix(s: Seq<CollectionView>, k: int)
    requires
        0 <= k <= s.len(),
    ensures
        0 <= spec_sum_shifts(s.take(k)) <= spec_sum_shifts(s),
    decreases s.len() - k,
{
    if k == s.len() {
        assert(s.take(k) =~= s);
        lemma_sum_shifts_nonneg(s);
    } else {
        assert(s.take(k + 1).drop_last() =~= s.take(k));
        assert(s.take(k + 1).last() == s[k]);
        lemma_sum_shifts_nonneg(s.take(k));
        lemma_sum_shifts_prefix(s, k + 1);
    }
}

proof fn lemma_sum_shifts_nonneg(s: Seq<CollectionView>)
    ensures
        spec_sum_shifts(s) >= 0,
    decreases s.len(),
{
    if s.len() > 0 {
        lemma_sum_shifts_nonneg(s.drop_last());
    }
}

/// Sums the shifts of the given collections.
fn sum_shifts(s: &Vec<PdfTimetableCollection>) -> (r: u64)
    requires
        spec_sum_shifts(s.deep_view()) <= u64::MAX,
    ensures
        r == spec_sum_shifts(s.deep_view()),
{
    let ghost sv = s.deep_view();
    let n = s.len();
    let mut acc: u64 = 0;
    let mut i: usize = 0;
    proof {
        assert(sv.take(0) =~= Seq::<CollectionView>::empty());
    }
    while i < n
        invariant
            0 <= i <= n,
            n == sv.len(),
            sv == s.deep_view(),
            acc == spec_sum_shifts(sv.take(i as int)),
            spec_sum_shifts(sv) <= u64::MAX,
        decreases n - i,
    {
        let c = &s[i];
        proof {
            assert(c.deep_view() == sv[i as int]);
            assert(sv.take(i + 1).drop_last() =~= sv.take(i as int));
            assert(sv.take(i + 1).last() == sv[i as int]);
            lemma_sum_shifts_prefix(sv, i + 1);
            lemma_sum_shifts_prefix(sv.take(i + 1), i as int);
            assert(sv.take(i + 1).take(i as int) =~= sv.take(i as int));
        }
        acc = acc + c.pages.len() as u64;
        i = i + 1;
    }
    proof {
        assert(sv.take(n as int) =~= sv);
    }
    acc
}

impl Statistics {
    /// Builds the snapshot from the loaded collections, the ones active
    /// for the lookup date, the next change date, the count of
    /// reachable shift identifiers, and the audit list of shifts whose
    /// parse recorded errors.
    pub fn create_statistics(
        timetables: &Vec<PdfTimetableCollection>,
        active: &Vec<PdfTimetableCollection>,
        next_timetable_date: Option<Date>,
        valid_shifts: u64,
        errored_shifts: Vec<String>,
    ) -> (r: Statistics)
        requires
            spec_sum_shifts(timetables.deep_view()) <= u64::MAX,
            spec_sum_shifts(active.deep_view()) <= spec_sum_shifts(timetables.deep_view()),
            active@.len() <= timetables@.len(),
            timetables@.len() <= u64::MAX,
            active@.len() > 0 ==> date_valid(active.deep_view()[0].valid_from),
            next_timetable_date matches Some(d) ==> date_valid(d),
        ensures
            r.shifts == spec_sum_shifts(timetables.deep_view()),
            r.active_shifts == spec_sum_shifts(active.deep_view()),
            r.inactive_shifts == r.shifts - r.active_shifts,
            r.timetables == timetables@.len(),
            r.active_timetables == active@.len(),
            r.future_timetables == timetables@.len() - active@.len(),
            r.valid_shifts == valid_shifts,
            match r.recent_timetable {
                Some(s) => active@.len() > 0 && s@ == spec_format_date(
                    active.deep_view()[0].valid_from,
                ),
                None => active@.len() == 0,
            },
            match r.next_timetable {
                Some(s) => next_timetable_date matches Some(d) && s@ == spec_format_date(d),
                None => next_timetable_date is None,
            },
            r.errored_shifts == errored_shifts,
    {
        let active_count = active.len();
        let total_count = timetables.len();
        let active_shifts = sum_shifts(active);
        let shifts = sum_shifts(timetables);
        proof {
            lemma_sum_shifts_nonneg(active.deep_view());
        }
        let inactive_shifts = shifts - active_shifts;
        let recent_timetable: Option<String> = if active_count > 0 {
            let first = &active[0];
            proof {
                assert(first.deep_view() == active.deep_view()[0]);
            }
            Some(format_date(&first.valid_from))
        } else {
            None
        };
        let next_timetable: Option<String> = match next_timetable_date {
            Some(d) => Some(format_date(&d)),
            None => None,
        };
        Statistics {
            shifts,
            valid_shifts,
            active_shifts,
            inactive_shifts,
            timetables: total_count as u64,
            active_timetables: active_count as u64,
            future_timetables: (total_count - active_count) as u64,
            recent_timetable,
            next_timetable,
            errored_shifts,
        }
    }
}

} // verus!
