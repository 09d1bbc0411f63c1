//! The per-page parsing pipeline: strip the drawing-operator noise,
//! extract the positioned tokens, derive the page's horizontal offset
//! from its leftmost token, and assemble the shift.

use vstd::prelude::*;
use crate::columns::COORD_LIMIT;
use crate::kvmap::AssocMap;
use crate::collection::{PageTable, ShiftDataView};
use crate::rows::{spec_assemble, assemble_shift};
use crate::shift_structs::{Shift, ShiftParseError, ShiftParseErrorView};
use crate::text::remove_all;
use crate::tokens::{
    coord_state, spec_coord_of_line, spec_extract, spec_extract_upto, spec_lines, spec_line_tokens,
    ContentToken, ContentTokenView, extract_tokens,
};

verus! {

/// A page stream with the begin/end-text, positioning, show and
/// font-select operator names removed, in that order.
pub open spec fn spec_strip_noise(s: Seq<char>) -> Seq<char> {
    remove_all(
        remove_all(remove_all(remove_all(remove_all(s, "ET\n"@), "BT\n"@), "Td"@), "Tj"@),
        "Tf"@,
    )
}

/// Removes the drawing-operator noise from a raw page stream.
pub fn strip_operator_noise(s: &str) -> (r: String)
    ensures
        r@ == spec_strip_noise(s@),
{
    proof {
        reveal_strlit("ET\n");
        reveal_strlit("BT\n");
        reveal_strlit("Td");
        reveal_strlit("Tj");
        reveal_strlit("Tf");
    }
    let a = crate::text::remove_all_str(s, "ET\n");
    let b = crate::text::remove_all_str(a.as_str(), "BT\n");
    let c = crate::text::remove_all_str(b.as_str(), "Td");
    let d = crate::text::remove_all_str(c.as_str(), "Tj");
    crate::text::remove_all_str(d.as_str(), "Tf")
}

/// The smallest x-coordinate among the tokens, or zero where there is
/// none.
pub open spec fn spec_min_x(toks: Seq<ContentTokenView>) -> int
    decreases toks.len(),
{
    if toks.len() == 0 {
        0
    } else if toks.len() == 1 {
        toks[0].x
    } else {
        let m = spec_min_x(toks.drop_last());
        if toks.last().x < m {
            toks.last().x
        } else {
            m
        }
    }
}

/// Every token an extraction yields has bounded coordinates.
pub proof fn lemma_extract_coords_bounded(lines: Seq<Seq<char>>, n: int)
    ensures
        forall|j: int|
            0 <= j < spec_extract_upto(lines, n).0.len() ==> {
                let t = #[trigger] spec_extract_upto(lines, n).0[j];
                -COORD_LIMIT <= t.x <= COORD_LIMIT && -COORD_LIMIT <= t.y <= COORD_LIMIT
            },
    decreases n,
{
    if n > 0 {
        lemma_extract_coords_bounded(lines, n - 1);
        let prev = spec_extract_upto(lines, n - 1);
        let cur = spec_line_tokens(lines[n - 1], coord_state(lines, n - 1));
        assert forall|j: int|
            0 <= j < cur.0.len() implies {
            let t = #[trigger] cur.0[j];
            -COORD_LIMIT <= t.x <= COORD_LIMIT && -COORD_LIMIT <= t.y <= COORD_LIMIT
        } by {
            match coord_state(lines, n - 1) {
                Some(Some(xy)) => {
                    lemma_coord_of_line_bounded(lines[crate::tokens::prev_nonempty(
                        lines,
                        n - 1,
                    )->Some_0]);
                    assert(cur.0[j].x == xy.0 && cur.0[j].y == xy.1);
                },
                _ => {},
            }
        }
        assert forall|j: int|
            0 <= j < spec_extract_upto(lines, n).0.len() implies {
            let t = #[trigger] spec_extract_upto(lines, n).0[j];
            -COORD_LIMIT <= t.x <= COORD_LIMIT && -COORD_LIMIT <= t.y <= COORD_LIMIT
        } by {
            if j < prev.0.len() {
                assert(spec_extract_upto(lines, n).0[j] == prev.0[j]);
            } else {
                assert(spec_extract_upto(lines, n).0[j] == cur.0[j - prev.0.len()]);
            }
        }
    }
}

/// A parsed coordinate pair is bounded.
proof fn lemma_coord_of_line_bounded(l: Seq<char>)
    ensures
        spec_coord_of_line(l) matches Some(xy) ==> -COORD_LIMIT <= xy.0 <= COORD_LIMIT
            && -COORD_LIMIT <= xy.1 <= COORD_LIMIT,
{
    match crate::text::spec_word_from(l, 0) {
        None => {},
        Some((a, b)) => {
            crate::tokens::lemma_parse_coord_bound(l.subrange(a, b));
            match crate::text::spec_word_from(l, b) {
                None => {},
                Some((c, d)) => {
                    crate::tokens::lemma_parse_coord_bound(l.subrange(c, d));
                },
            }
        },
    }
}

/// Parses one page's stripped drawing program into a shift: tokens are
/// extracted, the page offset is the negated smallest x-coordinate, and
/// the row assembler folds the tokens in stream order. Collected token
/// errors are carried into the shift's error list.
pub fn parse_page(page_stream: String, page_number: u32, shift_number: String) -> (r: Result<
    Shift,
    ShiftParseError,
>)
    ensures
        match r {
            Ok(s) => spec_extract(page_stream@).0.len() > 0 && s@ == spec_assemble(
                spec_extract(page_stream@).0,
                -spec_min_x(spec_extract(page_stream@).0),
                page_number,
                shift_number@,
                spec_extract(page_stream@).1,
            ),
            Err(e) => spec_extract(page_stream@).0.len() == 0 && e@ == (
            ShiftParseErrorView::EmptyPage { page_number }),
        },
{
    let (tokens, token_errors) = extract_tokens(page_stream.as_str());
    proof {
        lemma_extract_coords_bounded(
            spec_lines(page_stream@),
            spec_lines(page_stream@).len() as int,
        );
        assert(forall|j: int|
            0 <= j < tokens@.len() ==> (#[trigger] tokens@[j])@ == tokens.deep_view()[j]);
    }
    let n = tokens.len();
    let mut offset: i64 = 0;
    if n > 0 {
        let mut minimal: i64 = tokens[0].x;
        let mut i: usize = 1;
        proof {
            assert(tokens.deep_view().take(1) =~= seq![tokens.deep_view()[0]]);
        }
        while i < n
            invariant
                1 <= i <= n,
                n == tokens@.len(),
                forall|j: int|
                    0 <= j < tokens@.len() ==> (#[trigger] tokens@[j])@ == tokens.deep_view()[j],
                forall|j: int|
                    0 <= j < tokens.deep_view().len() ==> -COORD_LIMIT <= (
                    #[trigger] tokens.deep_view()[j]).x <= COORD_LIMIT,
                minimal as int == spec_min_x(tokens.deep_view().take(i as int)),
                -COORD_LIMIT <= minimal <= COORD_LIMIT,
            decreases n - i,
        {
            if tokens[i].x < minimal {
                minimal = tokens[i].x;
            }
            proof {
                assert(tokens.deep_view().take(i + 1).drop_last() =~= tokens.deep_view().take(
                    i as int,
                ));
                assert(tokens.deep_view().take(i + 1).last() == tokens.deep_view()[i as int]);
            }
            i = i + 1;
        }
        proof {
            assert(tokens.deep_view().take(n as int) =~= tokens.deep_view());
        }
        offset = -minimal;
    }
    assemble_shift(&tokens, offset, page_number, shift_number, token_errors)
}

/// What inverting a page table yields: each shift's page numbers mapped
/// back to the shift number, entries folded in insertion order, a later
/// binding of a page winning.
pub open spec fn spec_add_pages(m: Map<u32, Seq<char>>, pages: Seq<u32>, nr: Seq<char>) -> Map<
    u32,
    Seq<char>,
>
    decreases pages.len(),
{
    if pages.len() == 0 {
        m
    } else {
        spec_add_pages(m.insert(pages[0], nr), pages.skip(1), nr)
    }
}

/// The page-to-shift map a page table's entries denote.
pub open spec fn spec_reverse_from(
    entries: Seq<(Seq<char>, ShiftDataView)>,
    i: int,
    m: Map<u32, Seq<char>>,
) -> Map<u32, Seq<char>>
    decreases entries.len() - i,
{
    if i < 0 || i >= entries.len() {
        m
    } else {
        spec_reverse_from(entries, i + 1, spec_add_pages(m, entries[i].1.pages, entries[i].0))
    }
}

/// Inverts a page table: maps every page number of every shift back to
/// the shift's number.
pub fn reverse_pagenr_hashmap(hashmap: &PageTable) -> (r: AssocMap<u32, String>)
    ensures
        r.wf(),
        r.as_map() == spec_reverse_from(
            hashmap.spec_entries(),
            0,
            Map::<u32, Seq<char>>::empty(),
        ),
{
    let ghost entries = hashmap.spec_entries();
    let ghost goal = spec_reverse_from(entries, 0, Map::<u32, Seq<char>>::empty());
    let mut out: AssocMap<u32, String> = AssocMap::new();
    let n = hashmap.entries.len();
    let mut i: usize = 0;
    while i < n
        invariant
            0 <= i <= n,
            n == entries.len(),
            entries == hashmap.spec_entries(),
            out.wf(),
            goal == spec_reverse_from(entries, i as int, out.as_map()),
        decreases n - i,
    {
        let e = &hashmap.entries[i];
        let ghost pages_v = entries[i as int].1.pages;
        let ghost nr_v = entries[i as int].0;
        proof {
            assert(e.deep_view() == entries[i as int]);
        }
        let pn = e.1.pages.len();
        let mut j: usize = 0;
        proof {
            assert(pages_v.skip(0) =~= pages_v);
        }
        while j < pn
            invariant
                0 <= j <= pn,
                pn == pages_v.len(),
                e.1.pages.deep_view() == pages_v,
                e.0@ == nr_v,
                out.wf(),
                goal == spec_reverse_from(
                    entries,
                    i + 1,
                    spec_add_pages(out.as_map(), pages_v.skip(j as int), nr_v),
                ),
                entries == hashmap.spec_entries(),
                n == entries.len(),
                i < n,
            decreases pn - j,
        {
            let page: u32 = e.1.pages[j];
            proof {
                assert(page == pages_v[j as int]);
                assert(pages_v.skip(j as int)[0] == pages_v[j as int]);
                assert(pages_v.skip(j as int).skip(1) =~= pages_v.skip(j + 1));
            }
            out.insert(page, e.0.clone());
            j = j + 1;
        }
        proof {
            assert(pages_v.skip(pn as int) =~= Seq::<u32>::empty());
        }
        i = i + 1;
    }
    out
}

} // verus!
