//! The shift index: which shift identifiers are reachable for a lookup
//! date, each under the collection that would serve it.

use vstd::prelude::*;
use crate::collection::{CollectionView, PdfTimetableCollection, ShiftDataView};
use crate::dates::Date;
use crate::kvmap::{entries_map, AssocMap};

verus! {

/// One reachable shift: its full identifier — prefix then number — and
/// the effective date of the collection that lists it.
#[derive(Debug, PartialEq)]
pub struct IndexShift {
    pub shift_number: String,
    pub valid_from: Date,
}

/// View of [`IndexShift`] over character sequences.
#[verifier::ext_equal]
pub struct IndexShiftView {
    pub shift_number: Seq<char>,
    pub valid_from: Date,
}

impl View for IndexShift {
    type V = IndexShiftView;

    open spec fn view(&self) -> IndexShiftView {
        IndexShiftView { shift_number: self.shift_number@, valid_from: self.valid_from }
    }
}

impl DeepView for IndexShift {
    type V = IndexShiftView;

    open spec fn deep_view(&self) -> IndexShiftView {
        self.view()
    }
}

/// One collection's shifts folded into the availability map: each shift
/// number mapped to the collection's effective date and the stored
/// prefix, a later collection overriding an earlier one.
pub open spec fn spec_add_shifts(
    m: Map<Seq<char>, (Date, Seq<char>)>,
    entries: Seq<(Seq<char>, ShiftDataView)>,
    vf: Date,
) -> Map<Seq<char>, (Date, Seq<char>)>
    decreases entries.len(),
{
    if entries.len() == 0 {
        m
    } else {
        spec_add_shifts(
            m.insert(entries[0].0, (vf, entries[0].1.shift_prefix)),
            entries.skip(1),
            vf,
        )
    }
}

/// The availability map of the active collections, oldest first, so
/// that the newest collection's binding wins for a shared number.
pub open spec fn spec_available_from(
    ts: Seq<CollectionView>,
    i: int,
    m: Map<Seq<char>, (Date, Seq<char>)>,
) -> Map<Seq<char>, (Date, Seq<char>)>
    decreases ts.len() - i,
{
    if i < 0 || i >= ts.len() {
        m
    } else {
        spec_available_from(ts, i + 1, spec_add_shifts(m, ts[i].pages_entries, ts[i].valid_from))
    }
}

/// Builds the availability map of the active collections.
pub fn available_shifts(valid_timetables: &Vec<PdfTimetableCollection>) -> (r: AssocMap<
    String,
    (Date, String),
>)
    ensures
        r.wf(),
        r.as_map() == spec_available_from(
            valid_timetables.deep_view(),
            0,
            Map::<Seq<char>, (Date, Seq<char>)>::empty(),
        ),
{
    let ghost tv = valid_timetables.deep_view();
    let ghost goal = spec_available_from(tv, 0, Map::<Seq<char>, (Date, Seq<char>)>::empty());
    let mut avail: AssocMap<String, (Date, String)> = AssocMap::new();
    let n = valid_timetables.len();
    let mut i: usize = 0;
    while i < n
        invariant
            0 <= i <= n,
            n == tv.len(),
            tv == valid_timetables.deep_view(),
            avail.wf(),
            goal == spec_available_from(tv, i as int, avail.as_map()),
        decreases n - i,
    {
        let current = &valid_timetables[i];
        let ghost entries = tv[i as int].pages_entries;
        let ghost vf = tv[i as int].valid_from;
        proof {
            assert(current.deep_view() == tv[i as int]);
        }
        let pn = current.pages.entries.len();
        let mut j: usize = 0;
        proof {
            assert(entries.skip(0) =~= entries);
        }
        while j < pn
            invariant
                0 <= j <= pn,
                pn == entries.len(),
                current.pages.spec_entries() == entries,
                current.valid_from == vf,
                avail.wf(),
                goal == spec_available_from(
                    tv,
                    i + 1,
                    spec_add_shifts(avail.as_map(), entries.skip(j as int), vf),
                ),
                tv == valid_timetables.deep_view(),
                n == tv.len(),
                i < n,
            decreases pn - j,
        {
            let e = &current.pages.entries[j];
            proof {
                assert(e.deep_view() == entries[j as int]);
                assert(entries.skip(j as int)[0] == entries[j as int]);
                assert(entries.skip(j as int).skip(1) =~= entries.skip(j + 1));
            }
            avail.insert(e.0.clone(), (current.valid_from, e.1.shift_prefix.clone()));
            j = j + 1;
        }
        proof {
            assert(entries.skip(pn as int) =~= Seq::<(Seq<char>, ShiftDataView)>::empty());
        }
        i = i + 1;
    }
    avail
}

/// Lists every shift reachable through the given active collections:
/// one entry per shift number, under the newest collection listing it,
/// the identifier rebuilt as prefix followed by number. The entries come
/// in some enumeration of the availability map.
pub fn get_valid_shifts(valid_timetables: &Vec<PdfTimetableCollection>) -> (r: Vec<IndexShift>)
    ensures
        exists|entries: Seq<(Seq<char>, (Date, Seq<char>))>|
            {
                &&& entries_map(entries) == spec_available_from(
                    valid_timetables.deep_view(),
                    0,
                    Map::<Seq<char>, (Date, Seq<char>)>::empty(),
                )
                &&& (forall|a: int, b: int|
                    0 <= a < b < entries.len() ==> (#[trigger] entries[a]).0 != (
                    #[trigger] entries[b]).0)
                &&& r.deep_view().len() == entries.len()
                &&& (forall|k: int|
                    0 <= k < entries.len() ==> (#[trigger] r.deep_view()[k]) == (IndexShiftView {
                        shift_number: (#[trigger] entries[k]).1.1 + entries[k].0,
                        valid_from: entries[k].1.0,
                    }))
            },
{
    let avail = available_shifts(valid_timetables);
    let ghost entries = avail.spec_entries();
    let mut out: Vec<IndexShift> = Vec::new();
    let n = avail.entries.len();
    let mut i: usize = 0;
    while i < n
        invariant
            0 <= i <= n,
            n == entries.len(),
            entries == avail.spec_entries(),
            out.deep_view().len() == i,
            forall|k: int|
                0 <= k < i ==> (#[trigger] out.deep_view()[k]) == (IndexShiftView {
                    shift_number: entries[k].1.1 + entries[k].0,
                    valid_from: entries[k].1.0,
                }),
        decreases n - i,
    {
        let e = &avail.entries[i];
        proof {
            assert(e.deep_view() == entries[i as int]);
        }
        let mut full = e.1.1.clone();
        full.append(e.0.as_str());
        let ghost o0 = out.deep_view();
        out.push(IndexShift { shift_number: full, valid_from: e.1.0 });
        proof {
            assert(out.deep_view() =~= o0.push(
                IndexShiftView {
                    shift_number: entries[i as int].1.1 + entries[i as int].0,
                    valid_from: entries[i as int].1.0,
                },
            ));
        }
        i = i + 1;
    }
    proof {
        assert(avail.wf());
    }
    out
}

} // verus!
