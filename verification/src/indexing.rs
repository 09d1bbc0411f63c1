//! Indexing a duty book's pages: each page's extracted text is scanned
//! for shift headings of the form `Dienst`, whitespace, one or two
//! capital letters, a space and four digits; every heading files the
//! page under the heading's numeric part.
//!
//! The scan takes the leftmost match first and resumes after it, and a
//! heading must stand free: at least one whitespace character before the
//! letters and no word character after the digits. Whitespace here is
//! the ASCII set (see [`crate::text::is_space`]); duty-book text is
//! ASCII, so a Unicode space never carries a heading.

use vstd::prelude::*;
use crate::collection::{PageTable, ShiftData, ShiftDataView};
use crate::text::{
    filter_alpha, filter_digits, first_nonspace_from, is_digit, is_alpha, matches_at, digit_of,
    is_match_at, keep_alpha, keep_digits, word_from,
};

verus! {

/// A capital letter.
pub open spec fn is_upper(c: char) -> bool {
    'A' <= c && c <= 'Z'
}

/// A word character, as the scan's boundary test has it.
pub open spec fn is_word_char(c: char) -> bool {
    is_alpha(c) || is_digit(c) || c == '_'
}

/// Four digits at `p`, with no word character directly after them.
pub open spec fn four_digits_at(s: Seq<char>, p: int) -> bool {
    &&& p + 4 <= s.len()
    &&& is_digit(s[p])
    &&& is_digit(s[p + 1])
    &&& is_digit(s[p + 2])
    &&& is_digit(s[p + 3])
    &&& (p + 4 == s.len() || !is_word_char(s[p + 4]))
}

/// A shift heading starting at `i`: the literal `Dienst`, at least one
/// whitespace character, then one or two capital letters, a space and
/// four digits, the longer letter form preferred. Yields the heading's
/// name — letters, space and digits — and the scan position after it.
pub open spec fn spec_dienst_at(s: Seq<char>, i: int) -> Option<(Seq<char>, int)> {
    if !matches_at(s, "Dienst"@, i) {
        None
    } else {
        match first_nonspace_from(s, i + 6) {
            None => None,
            Some(w) => {
                if w == i + 6 {
                    None
                } else if w + 2 < s.len() && is_upper(s[w]) && is_upper(s[w + 1]) && s[w + 2] == ' '
                    && four_digits_at(s, w + 3) {
                    Some((s.subrange(w, w + 7), w + 7))
                } else if w + 1 < s.len() && is_upper(s[w]) && s[w + 1] == ' ' && four_digits_at(
                    s,
                    w + 2,
                ) {
                    Some((s.subrange(w, w + 6), w + 6))
                } else {
                    None
                }
            },
        }
    }
}

/// All shift headings of a page's text, leftmost first, each scan
/// resuming after the previous heading.
pub open spec fn spec_dienst_matches(s: Seq<char>, i: int) -> Seq<Seq<char>>
    decreases s.len() - i,
{
    if i < 0 || i >= s.len() {
        Seq::empty()
    } else {
        match spec_dienst_at(s, i) {
            Some((name, end)) => {
                if i < end <= s.len() {
                    seq![name] + spec_dienst_matches(s, end)
                } else {
                    Seq::empty()
                }
            },
            None => spec_dienst_matches(s, i + 1),
        }
    }
}

/// Whether `c` is a word character.
fn is_word_char_exec(c: char) -> (r: bool)
    ensures
        r == is_word_char(c),
{
    ('A' <= c && c <= 'Z') || ('a' <= c && c <= 'z') || ('0' <= c && c <= '9') || c == '_'
}

/// Checks for four free-standing digits at `p`.
fn four_digits_at_exec(s: &str, p: usize) -> (r: bool)
    requires
        p <= s@.len(),
    ensures
        r == four_digits_at(s@, p as int),
{
    let len = s.unicode_len();
    if len - p < 4 {
        return false;
    }
    let d0 = digit_of(s.get_char(p)).is_some();
    let d1 = digit_of(s.get_char(p + 1)).is_some();
    let d2 = digit_of(s.get_char(p + 2)).is_some();
    let d3 = digit_of(s.get_char(p + 3)).is_some();
    if !(d0 && d1 && d2 && d3) {
        return false;
    }
    if p + 4 == len {
        true
    } else {
        !is_word_char_exec(s.get_char(p + 4))
    }
}

/// Scans for a shift heading at position `i`.
fn dienst_at(s: &str, i: usize) -> (r: Option<(String, usize)>)
    requires
        i <= s@.len(),
    ensures
        match r {
            Some((name, end)) => spec_dienst_at(s@, i as int) == Some((name@, end as int)) && i
                < end <= s@.len(),
            None => spec_dienst_at(s@, i as int) is None,
        },
{
    let len = s.unicode_len();
    proof {
        reveal_strlit("Dienst");
    }
    if len - i < 6 {
        proof {
            assert(!matches_at(s@, "Dienst"@, i as int));
        }
        return None;
    }
    if !is_match_at(s, "Dienst", i) {
        return None;
    }
    let w = match word_from(s, i + 6) {
        None => {
            return None;
        },
        Some((a, _b)) => a,
    };
    if w == i + 6 {
        return None;
    }
    if len - w > 2 {
        let c0 = s.get_char(w);
        let c1 = s.get_char(w + 1);
        let c2 = s.get_char(w + 2);
        if 'A' <= c0 && c0 <= 'Z' && 'A' <= c1 && c1 <= 'Z' && c2 == ' ' && four_digits_at_exec(
            s,
            w + 3,
        ) {
            let name = s.substring_char(w, w + 7).to_owned();
            return Some((name, w + 7));
        }
    }
    if len - w > 1 {
        let c0 = s.get_char(w);
        let c1 = s.get_char(w + 1);
        if 'A' <= c0 && c0 <= 'Z' && c1 == ' ' && four_digits_at_exec(s, w + 2) {
            let name = s.substring_char(w, w + 6).to_owned();
            return Some((name, w + 6));
        }
    }
    None
}

/// What filing one heading does to the page table: the heading's digits
/// key the entry; a known shift gains the page, a new shift starts its
/// entry with the page, the heading's letters and the source file's id.
pub open spec fn spec_index_one(
    m: Map<Seq<char>, ShiftDataView>,
    name: Seq<char>,
    page: u32,
    file_id: usize,
) -> Map<Seq<char>, ShiftDataView> {
    let nr = filter_digits(name);
    let prefix = filter_alpha(name);
    if nr.len() > 0 {
        if m.contains_key(nr) {
            m.insert(nr, ShiftDataView { pages: m[nr].pages.push(page), ..m[nr] })
        } else {
            m.insert(nr, ShiftDataView { pages: seq![page], file_id, shift_prefix: prefix })
        }
    } else {
        m
    }
}

/// The headings of one page folded into the table in scan order.
pub open spec fn spec_index_names(
    m: Map<Seq<char>, ShiftDataView>,
    names: Seq<Seq<char>>,
    page: u32,
    file_id: usize,
) -> Map<Seq<char>, ShiftDataView>
    decreases names.len(),
{
    if names.len() == 0 {
        m
    } else {
        spec_index_names(spec_index_one(m, names[0], page, file_id), names.skip(1), page, file_id)
    }
}

/// Files every shift heading of one page's text into the table.
pub fn index_page_text(index: &mut PageTable, text: &str, page_num: u32, file_id: usize)
    requires
        old(index).wf(),
    ensures
        final(index).wf(),
        final(index).as_map() == spec_index_names(
            old(index).as_map(),
            spec_dienst_matches(text@, 0),
            page_num,
            file_id,
        ),
{
    let len = text.unicode_len();
    let ghost goal = spec_index_names(
        index.as_map(),
        spec_dienst_matches(text@, 0),
        page_num,
        file_id,
    );
    let mut i: usize = 0;
    while i < len
        invariant
            0 <= i <= len,
            len == text@.len(),
            index.wf(),
            goal == spec_index_names(
                index.as_map(),
                spec_dienst_matches(text@, i as int),
                page_num,
                file_id,
            ),
        decreases len - i,
    {
        match dienst_at(text, i) {
            None => {
                i = i + 1;
            },
            Some((name, end)) => {
                let ghost names = spec_dienst_matches(text@, i as int);
                proof {
                    assert(names == seq![name@] + spec_dienst_matches(text@, end as int));
                    assert(names[0] == name@);
                    assert(names.skip(1) =~= spec_dienst_matches(text@, end as int));
                }
                let nr = keep_digits(name.as_str());
                let prefix = keep_alpha(name.as_str());
                if nr.as_str().unicode_len() > 0 {
                    let ghost m0 = index.as_map();
                    let existing = match index.get(&nr) {
                        Some(d) => Some(d.clone()),
                        None => None,
                    };
                    match existing {
                        Some(d) => {
                            let mut d2 = d;
                            d2.pages.push(page_num);
                            proof {
                                assert(d2@ =~= (ShiftDataView {
                                    pages: m0[nr@].pages.push(page_num),
                                    ..m0[nr@]
                                }));
                            }
                            index.insert(nr, d2);
                        },
                        None => {
                            let fresh = ShiftData {
                                pages: vec![page_num],
                                file_id,
                                shift_prefix: prefix,
                            };
                            proof {
                                assert(fresh@.pages =~= seq![page_num]);
                                assert(fresh@ =~= (ShiftDataView {
                                    pages: seq![page_num],
                                    file_id,
                                    shift_prefix: filter_alpha(name@),
                                }));
                            }
                            index.insert(nr, fresh);
                        },
                    }
                    proof {
                        assert(index.as_map() == spec_index_one(m0, name@, page_num, file_id));
                    }
                }
                i = end;
            },
        }
    }
    proof {
        assert(spec_dienst_matches(text@, len as int) =~= Seq::<Seq<char>>::empty());
    }
}

} // verus!
