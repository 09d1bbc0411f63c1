//! Character and string helpers shared by the parser modules.
//!
//! All specifications are stated over `Seq<char>`, the view of `&str` and
//! `String`. The executable functions mirror the handful of `str` operations
//! the schedule parser needs: decimal parsing, substring search, removal of
//! every occurrence of a pattern, word splitting and ASCII case mapping.

use vstd::prelude::*;

verus! {

/// A decimal digit.
pub open spec fn is_digit(c: char) -> bool {
    '0' <= c && c <= '9'
}

/// Numeric value of a decimal digit.
pub open spec fn digit_val(c: char) -> int {
    c as int - '0' as int
}

/// Every character of `s` is a decimal digit.
pub open spec fn all_digits(s: Seq<char>) -> bool {
    forall|i: int| 0 <= i < s.len() ==> is_digit(#[trigger] s[i])
}

/// Value of a digit string read in base ten.
pub open spec fn dec_val(s: Seq<char>) -> int
    decreases s.len(),
{
    if s.len() == 0 {
        0
    } else {
        dec_val(s.drop_last()) * 10 + digit_val(s.last())
    }
}

pub proof fn lemma_dec_val_nonneg(s: Seq<char>)
    requires
        all_digits(s),
    ensures
        dec_val(s) >= 0,
    decreases s.len(),
{
    if s.len() > 0 {
        assert(all_digits(s.drop_last()));
        lemma_dec_val_nonneg(s.drop_last());
    }
}

/// Appending a digit multiplies the value by ten and adds the digit.
pub proof fn lemma_dec_val_push(s: Seq<char>, c: char)
    ensures
        dec_val(s.push(c)) == dec_val(s) * 10 + digit_val(c),
{
    assert(s.push(c).drop_last() =~= s);
    assert(s.push(c).last() == c);
}

/// The digit portion of a decimal integer literal: an optional leading `+`
/// sign, then the digits themselves.
pub open spec fn sign_stripped(s: Seq<char>) -> Seq<char> {
    if s.len() > 0 && s[0] == '+' {
        s.skip(1)
    } else {
        s
    }
}

/// What `str::parse` returns for an unsigned integer type whose maximum
/// value is `max`: the base-ten value of the digits when the whole string is
/// an optional `+` sign followed by at least one digit and the value fits,
/// and nothing otherwise.
pub open spec fn spec_parse_uint(s: Seq<char>, max: int) -> Option<int> {
    let digits = sign_stripped(s);
    if digits.len() > 0 && all_digits(digits) && dec_val(digits) <= max {
        Some(dec_val(digits))
    } else {
        None
    }
}

/// Numeric value of a digit character, or `None` for any other character.
pub fn digit_of(c: char) -> (r: Option<u64>)
    ensures
        is_digit(c) ==> r == Some((digit_val(c)) as u64),
        !is_digit(c) ==> r is None,
{
    if '0' <= c && c <= '9' {
        Some((c as u64) - ('0' as u64))
    } else {
        None
    }
}

/// Parses `s` as an unsigned decimal integer no greater than `max`,
/// accepting an optional leading `+` sign, as `str::parse` does for the
/// unsigned integer types.
pub fn parse_uint(s: &str, max: u64) -> (r: Option<u64>)
    ensures
        match r {
            Some(v) => spec_parse_uint(s@, max as int) == Some(v as int),
            None => spec_parse_uint(s@, max as int) is None,
        },
{
    let len = s.unicode_len();
    let start: usize = if len > 0 && s.get_char(0) == '+' {
        1
    } else {
        0
    };
    proof {
        assert(sign_stripped(s@) =~= s@.skip(start as int));
    }
    if start == len {
        return None;
    }
    let ghost digits = s@.skip(start as int);
    let mut i: usize = start;
    let mut acc: u64 = 0;
    while i < len
        invariant
            start <= i <= len,
            len == s@.len(),
            digits == s@.skip(start as int),
            digits == sign_stripped(s@),
            all_digits(digits.take(i - start)),
            acc == dec_val(digits.take(i - start)),
            acc <= max,
            max <= u64::MAX,
        decreases len - i,
    {
        let c = s.get_char(i);
        proof {
            assert(digits.take(i + 1 - start) =~= digits.take(i - start).push(s@[i as int]));
            lemma_dec_val_push(digits.take(i - start), s@[i as int]);
        }
        match digit_of(c) {
            None => {
                proof {
                    assert(!is_digit(digits[i - start]));
                    assert(!all_digits(digits));
                }
                return None;
            },
            Some(d) => {
                if d > max || acc > (max - d) / 10 {
                    // The running value would exceed `max`; any further
                    // digits only increase it.
                    proof {
                        assert(acc * 10 + d > max) by (nonlinear_arith)
                            requires
                                0 <= d,
                                0 <= max,
                                0 <= acc,
                                d > max || acc > (max - d) / 10,
                        ;
                        lemma_uint_overflow(digits, (i + 1 - start) as int, max as int);
                    }
                    return None;
                }
                proof {
                    assert(acc * 10 + d <= max) by (nonlinear_arith)
                        requires
                            0 <= d <= max,
                            0 <= acc <= (max - d) / 10,
                    ;
                }
                acc = acc * 10 + d;
            },
        }
        i = i + 1;
    }
    proof {
        assert(digits.take(len - start) =~= digits);
    }
    Some(acc)
}

/// Once a digit prefix exceeds `max`, the whole digit string does too.
proof fn lemma_uint_overflow(digits: Seq<char>, k: int, max: int)
    requires
        0 < k <= digits.len(),
        all_digits(digits.take(k)),
        dec_val(digits.take(k)) > max,
    ensures
        spec_parse_uint_digits(digits, max) is None,
{
    if all_digits(digits) {
        lemma_dec_val_prefix(digits, k);
    }
}

/// `spec_parse_uint` on a string already stripped of its sign.
pub open spec fn spec_parse_uint_digits(digits: Seq<char>, max: int) -> Option<int> {
    if digits.len() > 0 && all_digits(digits) && dec_val(digits) <= max {
        Some(dec_val(digits))
    } else {
        None
    }
}

/// A digit string is worth at least as much as any of its prefixes.
pub proof fn lemma_dec_val_prefix(s: Seq<char>, k: int)
    requires
        0 <= k <= s.len(),
        all_digits(s),
    ensures
        dec_val(s.take(k)) <= dec_val(s),
    decreases s.len() - k,
{
    if k < s.len() {
        assert(s.take(k + 1).drop_last() =~= s.take(k));
        assert(s.take(k + 1).last() == s[k]);
        assert(all_digits(s.take(k)));
        lemma_dec_val_nonneg(s.take(k));
        assert(dec_val(s.take(k + 1)) == dec_val(s.take(k)) * 10 + digit_val(s[k]));
        lemma_dec_val_prefix(s, k + 1);
    } else {
        assert(s.take(k) =~= s);
    }
}

/// Parses `s` as `str::parse::<usize>` does.
pub fn parse_usize_str(s: &str) -> (r: Option<usize>)
    ensures
        match r {
            Some(v) => spec_parse_uint(s@, usize::MAX as int) == Some(v as int),
            None => spec_parse_uint(s@, usize::MAX as int) is None,
        },
{
    match parse_uint(s, usize::MAX as u64) {
        Some(v) => Some(v as usize),
        None => None,
    }
}

/// Parses `s` as `str::parse::<u32>` does.
pub fn parse_u32_str(s: &str) -> (r: Option<u32>)
    ensures
        match r {
            Some(v) => spec_parse_uint(s@, u32::MAX as int) == Some(v as int),
            None => spec_parse_uint(s@, u32::MAX as int) is None,
        },
{
    match parse_uint(s, u32::MAX as u64) {
        Some(v) => Some(v as u32),
        None => None,
    }
}

/// Parses `s` as `str::parse::<u8>` does.
pub fn parse_u8_str(s: &str) -> (r: Option<u8>)
    ensures
        match r {
            Some(v) => spec_parse_uint(s@, u8::MAX as int) == Some(v as int),
            None => spec_parse_uint(s@, u8::MAX as int) is None,
        },
{
    match parse_uint(s, u8::MAX as u64) {
        Some(v) => Some(v as u8),
        None => None,
    }
}

/// Index of the first occurrence of the character `c` at or after `i`.
pub open spec fn find_char_from(s: Seq<char>, i: int, c: char) -> Option<int>
    decreases s.len() - i,
{
    if i < 0 || i >= s.len() {
        None
    } else if s[i] == c {
        Some(i)
    } else {
        find_char_from(s, i + 1, c)
    }
}

/// `find_char_from` finds the first occurrence and nothing earlier.
pub proof fn lemma_find_char_from_props(s: Seq<char>, i: int, c: char)
    requires
        0 <= i,
    ensures
        match find_char_from(s, i, c) {
            Some(p) => i <= p < s.len() && s[p] == c && forall|j: int| i <= j < p ==> s[j] != c,
            None => forall|j: int| i <= j < s.len() ==> s[j] != c,
        },
    decreases s.len() - i,
{
    if i < s.len() && s[i] != c {
        lemma_find_char_from_props(s, i + 1, c);
    }
}

/// Finds the first occurrence of `c` in `s` at or after `from`.
pub fn find_char(s: &str, from: usize, c: char) -> (r: Option<usize>)
    requires
        from <= s@.len(),
    ensures
        match r {
            Some(i) => find_char_from(s@, from as int, c) == Some(i as int) && from <= i
                < s@.len() && s@[i as int] == c,
            None => find_char_from(s@, from as int, c) is None,
        },
{
    let len = s.unicode_len();
    let mut i: usize = from;
    while i < len
        invariant
            from <= i <= len,
            len == s@.len(),
            find_char_from(s@, from as int, c) == find_char_from(s@, i as int, c),
        decreases len - i,
    {
        if s.get_char(i) == c {
            return Some(i);
        }
        i = i + 1;
    }
    None
}

/// Whether two strings hold the same characters.
pub fn str_eq(a: &str, b: &str) -> (r: bool)
    ensures
        r == (a@ == b@),
{
    let alen = a.unicode_len();
    let blen = b.unicode_len();
    if alen != blen {
        return false;
    }
    let mut i: usize = 0;
    while i < alen
        invariant
            0 <= i <= alen,
            alen == a@.len() == b@.len(),
            forall|k: int| 0 <= k < i ==> a@[k] == b@[k],
        decreases alen - i,
    {
        if a.get_char(i) != b.get_char(i) {
            return false;
        }
        i = i + 1;
    }
    proof {
        assert(a@ =~= b@);
    }
    true
}

/// Relies on std's `String::push`: appends one character at the end.
pub assume_specification[ String::push ](s: &mut String, c: char)
    ensures
        final(s)@ == old(s)@.push(c),
;

/// The pattern `pat` occurs in `s` starting at position `i`.
pub open spec fn matches_at(s: Seq<char>, pat: Seq<char>, i: int) -> bool {
    0 <= i && i + pat.len() <= s.len() && s.subrange(i, i + pat.len()) == pat
}

/// The pattern occurs somewhere in `s`, as `str::contains` tests.
pub open spec fn spec_contains(s: Seq<char>, pat: Seq<char>) -> bool {
    exists|i: int| matches_at(s, pat, i)
}

/// Whether `pat` occurs in `s` at position `i`.
pub fn is_match_at(s: &str, pat: &str, i: usize) -> (r: bool)
    requires
        i + pat@.len() <= s@.len(),
    ensures
        r == matches_at(s@, pat@, i as int),
{
    let slen = s.unicode_len();
    let plen = pat.unicode_len();
    let mut j: usize = 0;
    while j < plen
        invariant
            0 <= j <= plen,
            plen == pat@.len(),
            slen == s@.len(),
            i + plen <= s@.len(),
            forall|k: int| 0 <= k < j ==> s@[i + k] == pat@[k],
        decreases plen - j,
    {
        if s.get_char(i + j) != pat.get_char(j) {
            proof {
                assert(s@.subrange(i as int, i + plen)[j as int] != pat@[j as int]);
            }
            return false;
        }
        j = j + 1;
    }
    proof {
        assert(s@.subrange(i as int, i + plen) =~= pat@);
    }
    true
}

/// Whether `pat` occurs anywhere in `s`, as `str::contains` does.
pub fn str_contains(s: &str, pat: &str) -> (r: bool)
    ensures
        r == spec_contains(s@, pat@),
{
    let len = s.unicode_len();
    let plen = pat.unicode_len();
    if plen > len {
        proof {
            assert(forall|i: int| !matches_at(s@, pat@, i));
        }
        return false;
    }
    if plen == 0 {
        proof {
            assert(s@.subrange(0, 0) =~= pat@);
            assert(matches_at(s@, pat@, 0));
        }
        return true;
    }
    let mut i: usize = 0;
    while i <= len - plen
        invariant
            0 <= i <= len - plen + 1,
            1 <= plen <= len,
            len == s@.len(),
            plen == pat@.len(),
            forall|k: int| 0 <= k < i ==> !matches_at(s@, pat@, k),
        decreases len - plen - i + 1,
    {
        if is_match_at(s, pat, i) {
            return true;
        }
        i = i + 1;
    }
    proof {
        assert(forall|k: int| k > len - plen ==> !matches_at(s@, pat@, k));
    }
    false
}

/// Position of the last occurrence of `pat` at or below position `i`.
pub open spec fn last_match_from(s: Seq<char>, pat: Seq<char>, i: int) -> Option<int>
    decreases i + 1
{
    if i < 0 {
        None
    } else if matches_at(s, pat, i) {
        Some(i)
    } else {
        last_match_from(s, pat, i - 1)
    }
}

/// Position of the last occurrence of `pat` in `s`, if any.
pub open spec fn last_match(s: Seq<char>, pat: Seq<char>) -> Option<int> {
    last_match_from(s, pat, s.len() - pat.len())
}

/// There is a last occurrence exactly when there is an occurrence at all.
pub proof fn lemma_last_match_contains(s: Seq<char>, pat: Seq<char>)
    ensures
        last_match(s, pat) is Some <==> spec_contains(s, pat),
        last_match(s, pat) matches Some(i) ==> matches_at(s, pat, i),
{
    lemma_last_match_from(s, pat, s.len() - pat.len());
    if spec_contains(s, pat) {
        let i = choose|i: int| matches_at(s, pat, i);
        assert(i <= s.len() - pat.len());
    }
}

proof fn lemma_last_match_from(s: Seq<char>, pat: Seq<char>, i: int)
    ensures
        last_match_from(s, pat, i) matches Some(j) ==> matches_at(s, pat, j) && j <= i,
        last_match_from(s, pat, i) is None ==> forall|k: int| k <= i ==> !matches_at(s, pat, k),
    decreases i + 1,
{
    if i >= 0 && !matches_at(s, pat, i) {
        lemma_last_match_from(s, pat, i - 1);
    }
}

/// Position of the last occurrence of `pat` in `s`, scanning from the end.
pub fn find_last(s: &str, pat: &str) -> (r: Option<usize>)
    ensures
        match r {
            Some(i) => last_match(s@, pat@) == Some(i as int),
            None => last_match(s@, pat@) is None,
        },
{
    let len = s.unicode_len();
    let plen = pat.unicode_len();
    if plen > len {
        proof {
            lemma_last_match_from_none(s@, pat@, len - plen);
        }
        return None;
    }
    let mut i: usize = len - plen;
    loop
        invariant
            0 <= i <= len - plen,
            plen <= len,
            len == s@.len(),
            plen == pat@.len(),
            last_match(s@, pat@) == last_match_from(s@, pat@, i as int),
        decreases i,
    {
        if is_match_at(s, pat, i) {
            return Some(i);
        }
        if i == 0 {
            proof {
                lemma_last_match_from_none(s@, pat@, -1);
            }
            return None;
        }
        i = i - 1;
    }
}

proof fn lemma_last_match_from_none(s: Seq<char>, pat: Seq<char>, i: int)
    requires
        i < 0 || pat.len() > s.len(),
    ensures
        last_match_from(s, pat, i) is None,
    decreases i + 1,
{
    if i >= 0 {
        lemma_last_match_from_none(s, pat, i - 1);
    }
}

/// The suffix of `s` after the last occurrence of `pat`, which is what
/// `s.split(pat).last()` yields; the whole of `s` when `pat` never occurs.
pub open spec fn tail_after_last(s: Seq<char>, pat: Seq<char>) -> Seq<char> {
    match last_match(s, pat) {
        Some(i) => s.subrange(i + pat.len(), s.len() as int),
        None => s,
    }
}

/// Returns the suffix of `s` after the last occurrence of `pat`.
pub fn split_tail_after_last(s: &str, pat: &str) -> (r: String)
    ensures
        r@ == tail_after_last(s@, pat@),
{
    match find_last(s, pat) {
        Some(i) => {
            proof {
                lemma_last_match_contains(s@, pat@);
            }
            let slen = s.unicode_len();
            let t = s.substring_char(i + pat.unicode_len(), slen);
            t.to_owned()
        },
        None => s.to_owned(),
    }
}

/// `s` with every occurrence of `pat` removed, scanning left to right over
/// non-overlapping matches, as `str::replace(pat, "")` does.
pub open spec fn remove_all(s: Seq<char>, pat: Seq<char>) -> Seq<char>
    decreases s.len() when pat.len() > 0
{
    if s.len() == 0 {
        Seq::empty()
    } else if matches_at(s, pat, 0) {
        remove_all(s.skip(pat.len() as int), pat)
    } else {
        seq![s[0]] + remove_all(s.skip(1), pat)
    }
}

/// Removes every occurrence of `pat` from `s`, as `str::replace(pat, "")`.
pub fn remove_all_str(s: &str, pat: &str) -> (r: String)
    requires
        pat@.len() > 0,
    ensures
        r@ == remove_all(s@, pat@),
{
    let len = s.unicode_len();
    let plen = pat.unicode_len();
    let mut res = String::new();
    let mut i: usize = 0;
    proof {
        assert(s@.skip(0) =~= s@);
        assert(Seq::<char>::empty() + remove_all(s@, pat@) =~= remove_all(s@, pat@));
    }
    while i < len
        invariant
            0 <= i <= len,
            len == s@.len(),
            plen == pat@.len(),
            plen > 0,
            remove_all(s@, pat@) == res@ + remove_all(s@.skip(i as int), pat@),
        decreases len - i,
    {
        let is_m = if plen <= len - i {
            is_match_at(s, pat, i)
        } else {
            false
        };
        proof {
            lemma_matches_at_skip(s@, pat@, i as int);
        }
        if is_m {
            proof {
                assert(s@.skip(i as int).skip(plen as int) =~= s@.skip(i + plen));
            }
            i = i + plen;
        } else {
            proof {
                assert(s@.skip(i as int).skip(1) =~= s@.skip(i + 1));
                assert(s@.skip(i as int)[0] == s@[i as int]);
            }
            let c = s.get_char(i);
            res.push(c);
            i = i + 1;
        }
    }
    proof {
        assert(s@.skip(len as int) =~= Seq::<char>::empty());
        assert(res@ + Seq::<char>::empty() =~= res@);
    }
    res
}

/// Matching at position `i` of `s` is matching at the front of the suffix.
proof fn lemma_matches_at_skip(s: Seq<char>, pat: Seq<char>, i: int)
    requires
        0 <= i <= s.len(),
    ensures
        matches_at(s, pat, i) == matches_at(s.skip(i), pat, 0),
{
    if i + pat.len() <= s.len() {
        assert(s.skip(i).subrange(0, pat.len() as int) =~= s.subrange(i, i + pat.len()));
    }
}

/// The whitespace characters that `str::split_ascii_whitespace` splits on.
pub open spec fn is_space(c: char) -> bool {
    c == ' ' || c == '\t' || c == '\n' || c == '\r' || c == '\u{000b}' || c == '\u{000c}'
}

/// Whether `c` is one of the ASCII whitespace characters.
pub fn is_space_char(c: char) -> (r: bool)
    ensures
        r == is_space(c),
{
    c == ' ' || c == '\t' || c == '\n' || c == '\r' || c == '\u{000b}' || c == '\u{000c}'
}

/// Index of the first non-whitespace character at or after `i`.
pub open spec fn first_nonspace_from(s: Seq<char>, i: int) -> Option<int>
    decreases s.len() - i
{
    if i >= s.len() {
        None
    } else if !is_space(s[i]) {
        Some(i)
    } else {
        first_nonspace_from(s, i + 1)
    }
}

/// Index of the first whitespace character at or after `i`.
pub open spec fn first_space_from(s: Seq<char>, i: int) -> Option<int>
    decreases s.len() - i
{
    if i >= s.len() {
        None
    } else if is_space(s[i]) {
        Some(i)
    } else {
        first_space_from(s, i + 1)
    }
}

/// The first whitespace-separated word at or after position `i`, as a
/// half-open index range.
pub open spec fn spec_word_from(s: Seq<char>, i: int) -> Option<(int, int)> {
    match first_nonspace_from(s, i) {
        None => None,
        Some(a) => {
            let b = match first_space_from(s, a) {
                Some(b) => b,
                None => s.len() as int,
            };
            Some((a, b))
        },
    }
}

/// Finds the first whitespace-separated word at or after position `i`,
/// returning its index range.
pub fn word_from(s: &str, from: usize) -> (r: Option<(usize, usize)>)
    requires
        from <= s@.len(),
    ensures
        match r {
            Some((a, b)) => {
                &&& spec_word_from(s@, from as int) == Some((a as int, b as int))
                &&& from <= a < b <= s@.len()
            },
            None => spec_word_from(s@, from as int) is None,
        },
{
    let len = s.unicode_len();
    let mut a: usize = from;
    while a < len && is_space_char(s.get_char(a))
        invariant
            from <= a <= len,
            len == s@.len(),
            first_nonspace_from(s@, from as int) == first_nonspace_from(s@, a as int),
        decreases len - a,
    {
        a = a + 1;
    }
    if a == len {
        return None;
    }
    let mut b: usize = a;
    while b < len && !is_space_char(s.get_char(b))
        invariant
            a <= b <= len,
            len == s@.len(),
            !is_space(s@[a as int]),
            first_space_from(s@, a as int) == first_space_from(s@, b as int),
        decreases len - b,
    {
        b = b + 1;
    }
    Some((a, b))
}

/// The first whitespace-separated word of `s`, as
/// `s.split_whitespace().next()` yields it.
pub open spec fn spec_first_word(s: Seq<char>) -> Option<Seq<char>> {
    match spec_word_from(s, 0) {
        None => None,
        Some((a, b)) => Some(s.subrange(a, b)),
    }
}

/// Returns the first whitespace-separated word of `s`.
pub fn first_word(s: &str) -> (r: Option<String>)
    ensures
        match r {
            Some(w) => spec_first_word(s@) == Some(w@),
            None => spec_first_word(s@) is None,
        },
{
    match word_from(s, 0) {
        None => None,
        Some((a, b)) => Some(s.substring_char(a, b).to_owned()),
    }
}

/// The ASCII lowercase form of a character: letters `A`-`Z` are mapped to
/// `a`-`z`, all else is unchanged.
pub open spec fn lower_char(c: char) -> char {
    if 'A' <= c && c <= 'Z' {
        (((c as u8) + 0x20u8) as char)
    } else {
        c
    }
}

/// The ASCII uppercase form of a character: letters `a`-`z` are mapped to
/// `A`-`Z`, all else is unchanged.
pub open spec fn upper_char(c: char) -> char {
    if 'a' <= c && c <= 'z' {
        (((c as u8) - 0x20u8) as char)
    } else {
        c
    }
}

/// `s` mapped to ASCII lowercase character by character.
pub open spec fn lower_seq(s: Seq<char>) -> Seq<char> {
    s.map_values(|c: char| lower_char(c))
}

/// `s` mapped to ASCII uppercase character by character.
pub open spec fn upper_seq(s: Seq<char>) -> Seq<char> {
    s.map_values(|c: char| upper_char(c))
}

/// Maps `s` to ASCII uppercase, leaving other characters unchanged.
pub fn to_upper(s: &str) -> (r: String)
    ensures
        r@ == upper_seq(s@),
{
    let len = s.unicode_len();
    let mut res = String::new();
    let mut i: usize = 0;
    while i < len
        invariant
            0 <= i <= len,
            len == s@.len(),
            res@ == upper_seq(s@).take(i as int),
        decreases len - i,
    {
        let c = s.get_char(i);
        let u = if 'a' <= c && c <= 'z' {
            ((c as u8) - 0x20u8) as char
        } else {
            c
        };
        res.push(u);
        proof {
            assert(upper_seq(s@).take(i + 1) =~= upper_seq(s@).take(i as int).push(u));
        }
        i = i + 1;
    }
    proof {
        assert(upper_seq(s@).take(len as int) =~= upper_seq(s@));
    }
    res
}

/// Whether `s` equals `pat` once `s` is mapped to ASCII lowercase.
pub fn lower_eq(s: &str, pat: &str) -> (r: bool)
    ensures
        r == (lower_seq(s@) == pat@),
{
    let len = s.unicode_len();
    let plen = pat.unicode_len();
    if len != plen {
        proof {
            assert(lower_seq(s@).len() == s@.len());
        }
        return false;
    }
    let mut i: usize = 0;
    while i < len
        invariant
            0 <= i <= len,
            len == s@.len() == pat@.len(),
            forall|k: int| 0 <= k < i ==> lower_seq(s@)[k] == pat@[k],
        decreases len - i,
    {
        let c = s.get_char(i);
        let l = if 'A' <= c && c <= 'Z' {
            ((c as u8) + 0x20u8) as char
        } else {
            c
        };
        if l != pat.get_char(i) {
            proof {
                assert(lower_seq(s@)[i as int] != pat@[i as int]);
            }
            return false;
        }
        i = i + 1;
    }
    proof {
        assert(lower_seq(s@) =~= pat@);
    }
    true
}

/// An ASCII letter, as `char::is_alphabetic` classifies the ASCII range.
pub open spec fn is_alpha(c: char) -> bool {
    ('A' <= c && c <= 'Z') || ('a' <= c && c <= 'z')
}

/// Whether `c` is an ASCII letter.
pub fn is_alpha_char(c: char) -> (r: bool)
    ensures
        r == is_alpha(c),
{
    ('A' <= c && c <= 'Z') || ('a' <= c && c <= 'z')
}

/// The characters of `s` that satisfy keeping by `is_alpha`.
pub open spec fn filter_alpha(s: Seq<char>) -> Seq<char> {
    s.filter(|c: char| is_alpha(c))
}

/// The characters of `s` that are decimal digits.
pub open spec fn filter_digits(s: Seq<char>) -> Seq<char> {
    s.filter(|c: char| is_digit(c))
}

/// Keeps only the ASCII letters of `s`, as filtering by
/// `char::is_alphabetic` does on ASCII text.
pub fn keep_alpha(s: &str) -> (r: String)
    ensures
        r@ == filter_alpha(s@),
{
    let len = s.unicode_len();
    let mut res = String::new();
    let mut i: usize = 0;
    while i < len
        invariant
            0 <= i <= len,
            len == s@.len(),
            res@ == filter_alpha(s@.take(i as int)),
        decreases len - i,
    {
        let c = s.get_char(i);
        proof {
            assert(s@.take(i + 1).drop_last() =~= s@.take(i as int));
            reveal(Seq::filter);
        }
        if is_alpha_char(c) {
            res.push(c);
        }
        i = i + 1;
    }
    proof {
        assert(s@.take(len as int) =~= s@);
    }
    res
}

/// Keeps only the decimal digits of `s`, as filtering by
/// `char::is_numeric` does on ASCII text.
pub fn keep_digits(s: &str) -> (r: String)
    ensures
        r@ == filter_digits(s@),
{
    let len = s.unicode_len();
    let mut res = String::new();
    let mut i: usize = 0;
    while i < len
        invariant
            0 <= i <= len,
            len == s@.len(),
            res@ == filter_digits(s@.take(i as int)),
        decreases len - i,
    {
        let c = s.get_char(i);
        proof {
            assert(s@.take(i + 1).drop_last() =~= s@.take(i as int));
            reveal(Seq::filter);
        }
        if '0' <= c && c <= '9' {
            res.push(c);
        }
        i = i + 1;
    }
    proof {
        assert(s@.take(len as int) =~= s@);
    }
    res
}

} // verus!
