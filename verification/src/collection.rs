//! Dated timetable collections: the shifts sourced from one or more duty
//! books that share an effective start date, keyed by shift number, and
//! the file table that maps source-file ids back to paths.

use vstd::prelude::*;
use crate::dates::{date_le, Date};
use crate::kvmap::AssocMap;

verus! {

/// Where one shift's pages live: the page numbers inside the source
/// file, the file's id, and the alphabetic duty-type prefix of the
/// shift's identifier.
#[derive(Debug, PartialEq)]
pub struct ShiftData {
    pub pages: Vec<u32>,
    pub file_id: usize,
    pub shift_prefix: String,
}

/// View of [`ShiftData`] over plain sequences.
#[verifier::ext_equal]
pub struct ShiftDataView {
    pub pages: Seq<u32>,
    pub file_id: usize,
    pub shift_prefix: Seq<char>,
}

impl View for ShiftData {
    type V = ShiftDataView;

    open spec fn view(&self) -> ShiftDataView {
        ShiftDataView {
            pages: self.pages.deep_view(),
            file_id: self.file_id,
            shift_prefix: self.shift_prefix@,
        }
    }
}

impl DeepView for ShiftData {
    type V = ShiftDataView;

    open spec fn deep_view(&self) -> ShiftDataView {
        self.view()
    }
}

/// The shifts of a collection, keyed by the numeric part of the shift
/// identifier.
pub type PageTable = AssocMap<String, ShiftData>;

/// The source files of a collection, keyed by file id.
pub type FileTable = AssocMap<usize, String>;

/// All shifts sourced from the documents sharing one effective date.
pub struct PdfTimetableCollection {
    pub valid_from: Date,
    pub files: FileTable,
    pub pages: PageTable,
}

/// View of [`PdfTimetableCollection`]: the effective date and both
/// tables' entries in insertion order.
#[verifier::ext_equal]
pub struct CollectionView {
    pub valid_from: Date,
    pub files_entries: Seq<(usize, Seq<char>)>,
    pub pages_entries: Seq<(Seq<char>, ShiftDataView)>,
}

impl CollectionView {
    /// The file table this view denotes.
    pub open spec fn files_map(self) -> Map<usize, Seq<char>> {
        crate::kvmap::entries_map(self.files_entries)
    }

    /// The page table this view denotes.
    pub open spec fn pages_map(self) -> Map<Seq<char>, ShiftDataView> {
        crate::kvmap::entries_map(self.pages_entries)
    }
}

impl View for PdfTimetableCollection {
    type V = CollectionView;

    open spec fn view(&self) -> CollectionView {
        CollectionView {
            valid_from: self.valid_from,
            files_entries: self.files.spec_entries(),
            pages_entries: self.pages.spec_entries(),
        }
    }
}

impl DeepView for PdfTimetableCollection {
    type V = CollectionView;

    open spec fn deep_view(&self) -> CollectionView {
        self.view()
    }
}

impl Clone for ShiftData {
    fn clone(&self) -> (r: Self)
        ensures
            r@ == self@,
    {
        ShiftData {
            pages: clone_pages(&self.pages),
            file_id: self.file_id,
            shift_prefix: self.shift_prefix.clone(),
        }
    }
}

/// Clones a page-number list.
fn clone_pages(v: &Vec<u32>) -> (r: Vec<u32>)
    ensures
        r@ == v@,
{
    let r = v.clone();
    proof {
        assert(r@ =~= v@);
    }
    r
}

impl Clone for PdfTimetableCollection {
    fn clone(&self) -> (r: Self)
        ensures
            r@ == self@,
    {
        PdfTimetableCollection {
            valid_from: self.valid_from,
            files: AssocMap { entries: clone_file_entries(&self.files.entries) },
            pages: AssocMap { entries: clone_page_entries(&self.pages.entries) },
        }
    }
}

/// Clones a file table's entries.
fn clone_file_entries(v: &Vec<(usize, String)>) -> (r: Vec<(usize, String)>)
    ensures
        r.deep_view() == v.deep_view(),
{
    let mut r: Vec<(usize, String)> = Vec::new();
    let n = v.len();
    let mut i: usize = 0;
    while i < n
        invariant
            0 <= i <= n,
            n == v@.len(),
            r.deep_view() == v.deep_view().take(i as int),
        decreases n - i,
    {
        let e = &v[i];
        let ghost r0 = r.deep_view();
        r.push((e.0, e.1.clone()));
        proof {
            assert(r.deep_view() =~= r0.push(v.deep_view()[i as int]));
            assert(r.deep_view() =~= v.deep_view().take(i + 1));
        }
        i = i + 1;
    }
    proof {
        assert(v.deep_view().take(n as int) =~= v.deep_view());
    }
    r
}

/// Clones a page table's entries.
fn clone_page_entries(v: &Vec<(String, ShiftData)>) -> (r: Vec<(String, ShiftData)>)
    ensures
        r.deep_view() == v.deep_view(),
{
    let mut r: Vec<(String, ShiftData)> = Vec::new();
    let n = v.len();
    let mut i: usize = 0;
    while i < n
        invariant
            0 <= i <= n,
            n == v@.len(),
            r.deep_view() == v.deep_view().take(i as int),
        decreases n - i,
    {
        let e = &v[i];
        let cloned_pages = e.1.pages.clone();
        proof {
            assert(cloned_pages@ =~= e.1.pages@);
            assert(cloned_pages.deep_view() =~= e.1.pages.deep_view());
        }
        let d = ShiftData {
            pages: cloned_pages,
            file_id: e.1.file_id,
            shift_prefix: e.1.shift_prefix.clone(),
        };
        let ghost r0 = r.deep_view();
        r.push((e.0.clone(), d));
        proof {
            assert(r.deep_view() =~= r0.push(v.deep_view()[i as int]));
            assert(r.deep_view() =~= v.deep_view().take(i + 1));
        }
        i = i + 1;
    }
    proof {
        assert(v.deep_view().take(n as int) =~= v.deep_view());
    }
    r
}

impl PdfTimetableCollection {
    /// Both tables are well-keyed.
    pub open spec fn wf(&self) -> bool {
        self.files.wf() && self.pages.wf()
    }

    /// An empty collection, dated by a fixed placeholder.
    pub fn new() -> (r: Self)
        ensures
            r.wf(),
            r.valid_from == (Date { year: 2000, month: 5, day: 15 }),
            r.files.as_map() == Map::<usize, Seq<char>>::empty(),
            r.pages.as_map() == Map::<Seq<char>, ShiftDataView>::empty(),
    {
        PdfTimetableCollection {
            valid_from: Date { year: 2000, month: 5, day: 15 },
            files: AssocMap::new(),
            pages: AssocMap::new(),
        }
    }

    /// The collection holding exactly one freshly indexed source file.
    pub fn from_indexed_file(
        valid_from: Date,
        file_id: usize,
        file_path: String,
        shift_data: PageTable,
    ) -> (r: Self)
        requires
            shift_data.wf(),
        ensures
            r.wf(),
            r.valid_from == valid_from,
            r.files.as_map() == Map::<usize, Seq<char>>::empty().insert(file_id, file_path@),
            r.pages.as_map() == shift_data.as_map(),
    {
        let mut files: FileTable = AssocMap::new();
        files.insert(file_id, file_path);
        PdfTimetableCollection { valid_from, files, pages: shift_data }
    }

    /// Extends this collection with one more indexed source file: the
    /// file table gains the file, and the page table is unioned with the
    /// file's shifts, the new file winning on a shared shift number.
    /// A shared key is no error: the later writer simply wins.
    pub fn merge_indexed_file(
        &mut self,
        file_id: usize,
        file_path: String,
        shift_data: PageTable,
    )
        requires
            old(self).wf(),
        ensures
            final(self).wf(),
            final(self).valid_from == old(self).valid_from,
            final(self).files.as_map() == old(self).files.as_map().insert(file_id, file_path@),
            final(self).pages.as_map() == old(self).pages.as_map().union_prefer_right(
                shift_data.as_map(),
            ),
    {
        self.files.insert(file_id, file_path);
        self.pages.extend(shift_data);
    }
}

/// Re-indexing the same source file twice into an empty collection store
/// yields identical file and page tables both times: merging a file's
/// index into the collection just built from that file changes neither
/// table.
pub proof fn lemma_merge_idempotent(
    files: Map<usize, Seq<char>>,
    pages: Map<Seq<char>, ShiftDataView>,
    file_id: usize,
    file_path: Seq<char>,
    shift_data: Map<Seq<char>, ShiftDataView>,
)
    requires
        files == Map::<usize, Seq<char>>::empty().insert(file_id, file_path),
        pages == shift_data,
    ensures
        files.insert(file_id, file_path) == files,
        pages.union_prefer_right(shift_data) == pages,
{
    assert(files.insert(file_id, file_path) =~= files);
    assert(pages.union_prefer_right(shift_data) =~= pages);
}

/// The collections stand in ascending order of effective date.
pub open spec fn sorted_by_valid_from(s: Seq<PdfTimetableCollection>) -> bool {
    forall|i: int, j: int|
        0 <= i < j < s.len() ==> date_le((#[trigger] s[i]).valid_from, (#[trigger] s[j]).valid_from)
}

/// Sorts the loaded collections ascending by effective date, keeping
/// exactly the same collections.
pub fn sort_collections(v: &mut Vec<PdfTimetableCollection>)
    ensures
        sorted_by_valid_from(final(v)@),
        final(v)@.to_multiset() == old(v)@.to_multiset(),
{
    broadcast use vstd::seq_lib::group_to_multiset_ensures;
    broadcast use vstd::multiset::group_multiset_axioms;

    let ghost m0 = v@.to_multiset();
    let mut out: Vec<PdfTimetableCollection> = Vec::new();
    proof {
        assert(out@.to_multiset().add(v@.to_multiset()) =~= m0);
    }
    while v.len() > 0
        invariant
            out@.to_multiset().add(v@.to_multiset()) == m0,
            sorted_by_valid_from(out@),
            forall|i: int, j: int|
                0 <= i < out@.len() && 0 <= j < v@.len() ==> date_le(
                    (#[trigger] out@[i]).valid_from,
                    (#[trigger] v@[j]).valid_from,
                ),
        decreases v.len(),
    {
        let n = v.len();
        let mut min_i: usize = 0;
        let mut k: usize = 1;
        while k < n
            invariant
                0 <= min_i < k <= n,
                n == v@.len(),
                forall|l: int| 0 <= l < k ==> date_le(v@[min_i as int].valid_from, (#[trigger] v@[l]).valid_from),
            decreases n - k,
        {
            if v[min_i].valid_from.is_after(&v[k].valid_from) {
                min_i = k;
            }
            k = k + 1;
        }
        let ghost vpre = v@;
        let ghost out_pre = out@;
        let x = v.remove(min_i);
        let ghost xv = x;
        out.push(x);
        proof {
            broadcast use vstd::seq_lib::group_to_multiset_ensures;
            broadcast use vstd::multiset::group_multiset_axioms;

            assert(v@ =~= vpre.remove(min_i as int));
            assert(out@ =~= out_pre.push(xv));
            assert(vpre[min_i as int] == xv);
            assert(vpre.contains(xv));
            assert(vpre.remove(min_i as int).to_multiset() == vpre.to_multiset().remove(xv));
            assert(v@.to_multiset() == vpre.to_multiset().remove(xv));
            assert(out_pre.push(xv).to_multiset() == out_pre.to_multiset().insert(xv));
            assert(out@.to_multiset() == out_pre.to_multiset().insert(xv));
            assert(out@.to_multiset().add(v@.to_multiset()) =~= m0);
            assert forall|i: int, j: int|
                0 <= i < out@.len() && 0 <= j < v@.len() implies date_le(
                (#[trigger] out@[i]).valid_from,
                (#[trigger] v@[j]).valid_from,
            ) by {
                if j < min_i {
                    assert(v@[j] == vpre[j]);
                } else {
                    assert(v@[j] == vpre[j + 1]);
                }
            }
        }
    }
    let empty_rest: Vec<PdfTimetableCollection> = Vec::new();
    proof {
        assert(v@.to_multiset().len() == 0);
        assert(out@.to_multiset().add(v@.to_multiset()) =~= out@.to_multiset());
    }
    *v = out;
}

} // verus!
