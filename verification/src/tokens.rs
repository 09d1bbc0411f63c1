//! Recovery of positioned text tokens from a page's decoded drawing
//! program.
//!
//! The input is a line-oriented string in which every parenthesized
//! literal is a drawn text, and the non-empty line before it carries the
//! drawing position as two decimal numbers, x then y. Coordinates are held
//! as fixed-point numbers in thousandths of a PDF unit; a coordinate with
//! more than three decimals is truncated, and one with more than nine
//! integer digits is rejected as unparsable.

use vstd::prelude::*;
use crate::columns::COORD_LIMIT;
use crate::shift_structs::{ShiftParseError, ShiftParseErrorView};
use crate::text::{
    all_digits, dec_val, find_char_from, is_digit, spec_word_from, digit_of, find_char, word_from,
};

verus! {

/// One drawn text with its position, in stream order.
#[derive(Debug, Clone, PartialEq)]
pub struct ContentToken {
    pub text: String,
    /// Thousandths of a PDF unit.
    pub x: i64,
    /// Thousandths of a PDF unit.
    pub y: i64,
}

/// View of [`ContentToken`] over character sequences.
pub struct ContentTokenView {
    pub text: Seq<char>,
    pub x: int,
    pub y: int,
}

impl View for ContentToken {
    type V = ContentTokenView;

    open spec fn view(&self) -> ContentTokenView {
        ContentTokenView { text: self.text@, x: self.x as int, y: self.y as int }
    }
}

impl DeepView for ContentToken {
    type V = ContentTokenView;

    open spec fn deep_view(&self) -> ContentTokenView {
        self.view()
    }
}

/// Ten to the power of `n`, for the small exponents the parser needs.
pub open spec fn pow10(n: int) -> int
    decreases n,
{
    if n <= 0 {
        1
    } else {
        10 * pow10(n - 1)
    }
}

proof fn lemma_pow10_pos(n: int)
    ensures
        pow10(n) >= 1,
    decreases n,
{
    if n > 0 {
        lemma_pow10_pos(n - 1);
    }
}

proof fn lemma_pow10_mono(a: int, b: int)
    requires
        a <= b,
    ensures
        pow10(a) <= pow10(b),
    decreases b - a,
{
    if a < b {
        lemma_pow10_mono(a, b - 1);
        lemma_pow10_pos(b - 1);
    }
}

/// A digit string's value is below ten to the power of its length.
pub proof fn lemma_dec_val_len(s: Seq<char>)
    requires
        all_digits(s),
    ensures
        0 <= dec_val(s) < pow10(s.len() as int),
    decreases s.len(),
{
    if s.len() > 0 {
        let p = s.drop_last();
        assert(all_digits(p));
        lemma_dec_val_len(p);
    }
}

/// A digit string of at most nine digits is below one billion.
pub proof fn lemma_dec_val_bound(s: Seq<char>)
    requires
        all_digits(s),
        s.len() <= 9,
    ensures
        0 <= dec_val(s) < 1000_000_000,
{
    lemma_dec_val_len(s);
    lemma_pow10_mono(s.len() as int, 9);
    assert(pow10(9) == 1000_000_000) by {
        reveal_with_fuel(pow10, 11);
    }
}

/// The fixed-point value, in thousandths, of a fraction-digit string: the
/// first three digits are kept, any further digits are truncated.
pub open spec fn frac_val(fp: Seq<char>) -> int {
    let f3 = if fp.len() >= 3 {
        fp.take(3)
    } else {
        fp
    };
    dec_val(f3) * pow10(3 - f3.len())
}

/// What parsing a coordinate number yields, in thousandths: an optional
/// sign, integer digits, and an optional `.` with fraction digits; at
/// least one digit in all, no more than nine before the point.
pub open spec fn spec_parse_coord(s: Seq<char>) -> Option<int> {
    if s.len() == 0 {
        None
    } else {
        let neg = s[0] == '-';
        let body = if s[0] == '-' || s[0] == '+' {
            s.skip(1)
        } else {
            s
        };
        match find_char_from(body, 0, '.') {
            None => {
                if 1 <= body.len() <= 9 && all_digits(body) {
                    let v = dec_val(body) * 1000;
                    Some(
                        if neg {
                            -v
                        } else {
                            v
                        },
                    )
                } else {
                    None
                }
            },
            Some(p) => {
                let ip = body.take(p);
                let fp = body.skip(p + 1);
                if ip.len() + fp.len() > 0 && ip.len() <= 9 && all_digits(ip) && all_digits(fp) {
                    let v = dec_val(ip) * 1000 + frac_val(fp);
                    Some(
                        if neg {
                            -v
                        } else {
                            v
                        },
                    )
                } else {
                    None
                }
            },
        }
    }
}

/// Every parsed coordinate is well inside the coordinate bound.
pub proof fn lemma_parse_coord_bound(s: Seq<char>)
    ensures
        spec_parse_coord(s) matches Some(v) ==> -COORD_LIMIT <= v <= COORD_LIMIT,
{
    if s.len() > 0 {
        let body = if s[0] == '-' || s[0] == '+' {
            s.skip(1)
        } else {
            s
        };
        match find_char_from(body, 0, '.') {
            None => {
                if 1 <= body.len() <= 9 && all_digits(body) {
                    lemma_dec_val_bound(body);
                }
            },
            Some(p) => {
                let ip = body.take(p);
                let fp = body.skip(p + 1);
                if ip.len() + fp.len() > 0 && ip.len() <= 9 && all_digits(ip) && all_digits(fp) {
                    lemma_dec_val_bound(ip);
                    lemma_frac_val_range(fp);
                }
            },
        }
    }
}

/// The fraction part contributes between zero and one unit.
proof fn lemma_frac_val_range(fp: Seq<char>)
    requires
        all_digits(fp),
    ensures
        0 <= frac_val(fp) < 1000,
{
    let f3 = if fp.len() >= 3 {
        fp.take(3)
    } else {
        fp
    };
    assert(all_digits(f3));
    lemma_dec_val_len(f3);
    assert(pow10(0) == 1 && pow10(1) == 10 && pow10(2) == 100 && pow10(3) == 1000) by {
        reveal_with_fuel(pow10, 5);
    }
}

/// The value of a digit string of at most nine characters.
fn small_digits_val(s: &str) -> (r: Option<u64>)
    requires
        s@.len() <= 9,
    ensures
        match r {
            Some(v) => all_digits(s@) && v == dec_val(s@) && v < 1000_000_000,
            None => !all_digits(s@),
        },
{
    let len = s.unicode_len();
    let mut i: usize = 0;
    let mut acc: u64 = 0;
    while i < len
        invariant
            0 <= i <= len,
            len == s@.len() <= 9,
            all_digits(s@.take(i as int)),
            acc == dec_val(s@.take(i as int)),
            acc < 1000_000_000,
        decreases len - i,
    {
        let c = s.get_char(i);
        proof {
            assert(s@.take(i + 1) =~= s@.take(i as int).push(s@[i as int]));
            crate::text::lemma_dec_val_push(s@.take(i as int), s@[i as int]);
        }
        match digit_of(c) {
            None => {
                proof {
                    assert(!is_digit(s@[i as int]));
                }
                return None;
            },
            Some(d) => {
                proof {
                    lemma_dec_val_bound(s@.take(i + 1));
                }
                acc = acc * 10 + d;
            },
        }
        i = i + 1;
    }
    proof {
        assert(s@.take(len as int) =~= s@);
    }
    Some(acc)
}

/// Parses one coordinate number into thousandths of a unit.
pub fn parse_coord(s: &str) -> (r: Option<i64>)
    ensures
        match r {
            Some(v) => spec_parse_coord(s@) == Some(v as int) && -COORD_LIMIT <= v <= COORD_LIMIT,
            None => spec_parse_coord(s@) is None,
        },
{
    let len = s.unicode_len();
    if len == 0 {
        return None;
    }
    let c0 = s.get_char(0);
    let neg = c0 == '-';
    let start: usize = if c0 == '-' || c0 == '+' {
        1
    } else {
        0
    };
    let body = s.substring_char(start, len);
    let blen = body.unicode_len();
    proof {
        lemma_parse_coord_bound(s@);
        assert(body@ =~= if s@[0] == '-' || s@[0] == '+' {
            s@.skip(1)
        } else {
            s@
        });
    }
    match find_char(body, 0, '.') {
        None => {
            if blen < 1 || blen > 9 {
                return None;
            }
            match small_digits_val(body) {
                None => None,
                Some(v) => {
                    let signed: i64 = if neg {
                        -((v * 1000) as i64)
                    } else {
                        (v * 1000) as i64
                    };
                    Some(signed)
                },
            }
        },
        Some(p) => {
            let ip = body.substring_char(0, p);
            let fp = body.substring_char(p + 1, blen);
            proof {
                assert(ip@ =~= body@.take(p as int));
                assert(fp@ =~= body@.skip(p + 1));
            }
            if p > 9 {
                return None;
            }
            if p == 0 && blen == p + 1 {
                // a bare point with no digit on either side
                return None;
            }
            let iv = match small_digits_val(ip) {
                None => {
                    return None;
                },
                Some(v) => v,
            };
            let flen = blen - (p + 1);
            let f3 = if flen >= 3 {
                fp.substring_char(0, 3)
            } else {
                fp
            };
            proof {
                assert(flen >= 3 ==> f3@ =~= fp@.take(3));
                assert(flen < 3 ==> f3@ == fp@);
            }
            let fv3 = match small_digits_val(f3) {
                None => {
                    proof {
                        let j = choose|j: int| 0 <= j < f3@.len() && !is_digit(f3@[j]);
                        assert(fp@[j] == f3@[j]);
                        assert(!all_digits(fp@));
                    }
                    return None;
                },
                Some(v) => v,
            };
            // The remaining fraction digits are truncated but must still
            // be digits for the number to parse.
            if flen > 3 {
                proof {
                    assert forall|j: int| 0 <= j < 3 implies is_digit(#[trigger] fp@[j]) by {
                        assert(fp@[j] == f3@[j]);
                        assert(is_digit(f3@[j]));
                    }
                }
                let mut k: usize = 3;
                let mut bad = false;
                while k < flen
                    invariant
                        3 <= k <= flen,
                        flen == fp@.len(),
                        !bad ==> forall|j: int| 0 <= j < k ==> is_digit(#[trigger] fp@[j]),
                        bad ==> !all_digits(fp@),
                    decreases flen - k,
                {
                    match digit_of(fp.get_char(k)) {
                        None => {
                            proof {
                                assert(!is_digit(fp@[k as int]));
                            }
                            bad = true;
                        },
                        Some(_) => {},
                    }
                    k = k + 1;
                }
                if bad {
                    return None;
                }
            }
            proof {
                assert forall|j: int| 0 <= j < fp@.len() implies is_digit(#[trigger] fp@[j]) by {
                    if j < 3 {
                        assert(fp@[j] == f3@[j]);
                        assert(is_digit(f3@[j]));
                    }
                }
            }
            let scale: u64 = if flen == 0 {
                1000
            } else if flen == 1 {
                100
            } else if flen == 2 {
                10
            } else {
                1
            };
            proof {
                lemma_frac_val_range(fp@);
                lemma_dec_val_len(f3@);
                assert(pow10(0) == 1 && pow10(1) == 10 && pow10(2) == 100 && pow10(3) == 1000) by {
                    reveal_with_fuel(pow10, 5);
                }
                assert(fv3 * scale == frac_val(fp@));
            }
            let v = iv * 1000 + fv3 * scale;
            let signed: i64 = if neg {
                -(v as i64)
            } else {
                v as i64
            };
            Some(signed)
        },
    }
}

/// `l` with one trailing carriage return removed, as `str::lines` yields
/// its lines.
pub open spec fn strip_cr(l: Seq<char>) -> Seq<char> {
    if l.len() > 0 && l.last() == '\r' {
        l.drop_last()
    } else {
        l
    }
}

/// The lines of `s` from position `i` on: split at every newline, one
/// trailing carriage return per line removed, a final empty piece after a
/// trailing newline dropped — the lines `str::lines` yields.
pub open spec fn spec_lines_from(s: Seq<char>, i: int) -> Seq<Seq<char>>
    decreases s.len() - i,
{
    if i < 0 || i >= s.len() {
        Seq::empty()
    } else {
        match find_char_from(s, i, '\n') {
            None => seq![strip_cr(s.subrange(i, s.len() as int))],
            Some(p) => {
                if i <= p < s.len() {
                    seq![strip_cr(s.subrange(i, p))] + spec_lines_from(s, p + 1)
                } else {
                    Seq::empty()
                }
            },
        }
    }
}

/// The lines of `s`, as `str::lines` yields them.
pub open spec fn spec_lines(s: Seq<char>) -> Seq<Seq<char>> {
    spec_lines_from(s, 0)
}

/// Splits `s` into its lines.
pub fn split_lines(s: &str) -> (r: Vec<String>)
    ensures
        r.deep_view() == spec_lines(s@),
{
    let len = s.unicode_len();
    let mut out: Vec<String> = Vec::new();
    let mut i: usize = 0;
    proof {
        assert(out.deep_view() =~= Seq::<Seq<char>>::empty());
        assert(spec_lines(s@) =~= out.deep_view() + spec_lines_from(s@, 0));
    }
    while i < len
        invariant
            0 <= i <= len,
            len == s@.len(),
            spec_lines(s@) == out.deep_view() + spec_lines_from(s@, i as int),
        decreases len - i,
    {
        let ghost out0 = out.deep_view();
        match find_char(s, i, '\n') {
            None => {
                let line = if s.get_char(len - 1) == '\r' {
                    s.substring_char(i, len - 1)
                } else {
                    s.substring_char(i, len)
                };
                proof {
                    if s@[len - 1] == '\r' {
                        assert(s@.subrange(i as int, len as int).last() == s@[len - 1]);
                        assert(s@.subrange(i as int, len - 1) =~= strip_cr(
                            s@.subrange(i as int, len as int),
                        ));
                    } else {
                        assert(s@.subrange(i as int, len as int) =~= strip_cr(
                            s@.subrange(i as int, len as int),
                        ));
                    }
                }
                out.push(line.to_owned());
                proof {
                    assert(out.deep_view() =~= out0 + spec_lines_from(s@, i as int));
                    assert(spec_lines(s@) =~= out.deep_view() + spec_lines_from(s@, len as int));
                }
                i = len;
            },
            Some(p) => {
                let line = if p > i && s.get_char(p - 1) == '\r' {
                    s.substring_char(i, p - 1)
                } else {
                    s.substring_char(i, p)
                };
                proof {
                    if p > i && s@[p - 1] == '\r' {
                        assert(s@.subrange(i as int, p as int).last() == s@[p - 1]);
                        assert(s@.subrange(i as int, p - 1) =~= strip_cr(
                            s@.subrange(i as int, p as int),
                        ));
                    } else {
                        assert(s@.subrange(i as int, p as int) =~= strip_cr(
                            s@.subrange(i as int, p as int),
                        ));
                    }
                }
                out.push(line.to_owned());
                proof {
                    assert(out.deep_view() =~= out0.push(strip_cr(s@.subrange(i as int, p as int))));
                    assert(out0 + spec_lines_from(s@, i as int) =~= out.deep_view()
                        + spec_lines_from(s@, p + 1));
                }
                i = p + 1;
            },
        }
    }
    proof {
        assert(spec_lines_from(s@, len as int) =~= Seq::<Seq<char>>::empty());
        assert(out.deep_view() + Seq::<Seq<char>>::empty() =~= out.deep_view());
    }
    out
}

/// The parenthesized captures of one line from position `i` on: at each
/// step the next `(` opens a capture and the nearest following `)` closes
/// it, the shortest match first, scanning resumes after the `)`.
pub open spec fn spec_captures_from(l: Seq<char>, i: int) -> Seq<Seq<char>>
    decreases l.len() - i,
{
    if i < 0 || i >= l.len() {
        Seq::empty()
    } else {
        match find_char_from(l, i, '(') {
            None => Seq::empty(),
            Some(a) => {
                if i <= a < l.len() {
                    match find_char_from(l, a + 1, ')') {
                        None => Seq::empty(),
                        Some(b) => {
                            if a < b < l.len() {
                                seq![l.subrange(a + 1, b)] + spec_captures_from(l, b + 1)
                            } else {
                                Seq::empty()
                            }
                        },
                    }
                } else {
                    Seq::empty()
                }
            },
        }
    }
}

/// The parenthesized captures of one line.
pub open spec fn spec_captures(l: Seq<char>) -> Seq<Seq<char>> {
    spec_captures_from(l, 0)
}

/// What reading a coordinate line yields: its first two
/// whitespace-separated words as coordinate numbers, x then y.
pub open spec fn spec_coord_of_line(l: Seq<char>) -> Option<(int, int)> {
    match spec_word_from(l, 0) {
        None => None,
        Some((a, b)) => match spec_parse_coord(l.subrange(a, b)) {
            None => None,
            Some(x) => match spec_word_from(l, b) {
                None => None,
                Some((c, d)) => match spec_parse_coord(l.subrange(c, d)) {
                    None => None,
                    Some(y) => Some((x, y)),
                },
            },
        },
    }
}

/// Reads a coordinate line: two whitespace-separated numbers, x then y.
pub fn parse_line_coord(l: &str) -> (r: Option<(i64, i64)>)
    ensures
        match r {
            Some((x, y)) => spec_coord_of_line(l@) == Some((x as int, y as int)) && -COORD_LIMIT
                <= x <= COORD_LIMIT && -COORD_LIMIT <= y <= COORD_LIMIT,
            None => spec_coord_of_line(l@) is None,
        },
{
    let (a, b) = match word_from(l, 0) {
        Some(ab) => ab,
        None => {
            return None;
        },
    };
    let x = match parse_coord(l.substring_char(a, b)) {
        Some(x) => x,
        None => {
            return None;
        },
    };
    let (c, d) = match word_from(l, b) {
        Some(cd) => cd,
        None => {
            return None;
        },
    };
    let y = match parse_coord(l.substring_char(c, d)) {
        Some(y) => y,
        None => {
            return None;
        },
    };
    Some((x, y))
}

/// Where a line's tokens get their coordinate from: no preceding
/// non-empty line at all, a preceding line that holds no two numbers, or
/// a parsed position.
pub enum CoordSource {
    Missing,
    Unparsable,
    At(i64, i64),
}

impl View for CoordSource {
    type V = Option<Option<(int, int)>>;

    open spec fn view(&self) -> Option<Option<(int, int)>> {
        match self {
            CoordSource::Missing => None,
            CoordSource::Unparsable => Some(None),
            CoordSource::At(x, y) => Some(Some((*x as int, *y as int))),
        }
    }
}

/// The index of the nearest non-empty line before line `ln`.
pub open spec fn prev_nonempty(lines: Seq<Seq<char>>, ln: int) -> Option<int>
    decreases ln,
{
    if ln <= 0 {
        None
    } else if lines[ln - 1].len() > 0 {
        Some(ln - 1)
    } else {
        prev_nonempty(lines, ln - 1)
    }
}

/// The coordinate available to line `ln`'s tokens: read from the nearest
/// preceding non-empty line.
pub open spec fn coord_state(lines: Seq<Seq<char>>, ln: int) -> Option<Option<(int, int)>> {
    match prev_nonempty(lines, ln) {
        None => None,
        Some(k) => Some(spec_coord_of_line(lines[k])),
    }
}

/// The tokens of a capture list, all at one position.
pub open spec fn map_tokens(caps: Seq<Seq<char>>, x: int, y: int) -> Seq<ContentTokenView> {
    Seq::new(caps.len(), |j: int| ContentTokenView { text: caps[j], x: x, y: y })
}

/// One missing-coordinate error per capture.
pub open spec fn map_missing(caps: Seq<Seq<char>>) -> Seq<ShiftParseErrorView> {
    Seq::new(caps.len(), |j: int| ShiftParseErrorView::TokenCoordinateMissing)
}

/// One unparsable-coordinate error per capture.
pub open spec fn map_unparsable(caps: Seq<Seq<char>>) -> Seq<ShiftParseErrorView> {
    Seq::new(caps.len(), |j: int| ShiftParseErrorView::TokenCoordinateUnparsable)
}

/// What one line contributes: a token per capture when a coordinate is at
/// hand, and one structured error per capture when none is.
pub open spec fn spec_line_tokens(l: Seq<char>, coord: Option<Option<(int, int)>>) -> (
    Seq<ContentTokenView>,
    Seq<ShiftParseErrorView>,
) {
    let caps = spec_captures(l);
    match coord {
        None => (Seq::empty(), map_missing(caps)),
        Some(None) => (Seq::empty(), map_unparsable(caps)),
        Some(Some(xy)) => (map_tokens(caps, xy.0, xy.1), Seq::empty()),
    }
}

/// Appends one line's tokens and errors.
fn extract_line(
    line: &str,
    coord: &CoordSource,
    tokens: &mut Vec<ContentToken>,
    errors: &mut Vec<ShiftParseError>,
)
    ensures
        final(tokens).deep_view() == old(tokens).deep_view() + spec_line_tokens(line@, coord@).0,
        final(errors).deep_view() == old(errors).deep_view() + spec_line_tokens(line@, coord@).1,
{
    let len = line.unicode_len();
    let mut i: usize = 0;
    let ghost mut done: Seq<Seq<char>> = Seq::empty();
    let ghost tokens0 = tokens.deep_view();
    let ghost errors0 = errors.deep_view();
    proof {
        assert(spec_captures(line@) =~= done + spec_captures_from(line@, 0));
    }
    loop
        invariant_except_break
            0 <= i <= len,
            len == line@.len(),
            spec_captures(line@) == done + spec_captures_from(line@, i as int),
            tokens.deep_view() == tokens0 + (match coord@ {
                Some(Some(xy)) => map_tokens(done, xy.0, xy.1),
                _ => Seq::empty(),
            }),
            errors.deep_view() == errors0 + (match coord@ {
                None => map_missing(done),
                Some(None) => map_unparsable(done),
                Some(Some(xy)) => Seq::empty(),
            }),
        ensures
            tokens.deep_view() == tokens0 + spec_line_tokens(line@, coord@).0,
            errors.deep_view() == errors0 + spec_line_tokens(line@, coord@).1,
        decreases len - i,
    {
        let a = match find_char(line, i, '(') {
            Some(a) => a,
            None => {
                proof {
                    assert(spec_captures_from(line@, i as int) =~= Seq::<Seq<char>>::empty());
                    lemma_line_tokens_done(line@, coord@, done);
                }
                break;
            },
        };
        let b = match find_char(line, a + 1, ')') {
            Some(b) => b,
            None => {
                proof {
                    assert(spec_captures_from(line@, i as int) =~= Seq::<Seq<char>>::empty());
                    lemma_line_tokens_done(line@, coord@, done);
                }
                break;
            },
        };
        let cap = line.substring_char(a + 1, b);
        proof {
            assert(spec_captures_from(line@, i as int) =~= seq![line@.subrange(a + 1, b as int)]
                + spec_captures_from(line@, b + 1));
        }
        match coord {
            CoordSource::Missing => {
                errors.push(ShiftParseError::TokenCoordinateMissing);
            },
            CoordSource::Unparsable => {
                errors.push(ShiftParseError::TokenCoordinateUnparsable);
            },
            CoordSource::At(x, y) => {
                tokens.push(ContentToken { text: cap.to_owned(), x: *x, y: *y });
            },
        }
        proof {
            let done2 = done.push(cap@);
            assert(done + spec_captures_from(line@, i as int) =~= done2 + spec_captures_from(
                line@,
                b + 1,
            ));
            match coord@ {
                Some(Some(xy)) => {
                    let tok = ContentTokenView { text: cap@, x: xy.0, y: xy.1 };
                    assert(map_tokens(done2, xy.0, xy.1) =~= map_tokens(done, xy.0, xy.1).push(
                        tok,
                    ));
                    assert(tokens.deep_view() =~= (tokens0 + map_tokens(done, xy.0, xy.1)).push(
                        tok,
                    ));
                    assert(tokens.deep_view() =~= tokens0 + map_tokens(done2, xy.0, xy.1));
                },
                Some(None) => {
                    let e = ShiftParseErrorView::TokenCoordinateUnparsable;
                    assert(map_unparsable(done2) =~= map_unparsable(done).push(e));
                    assert(errors.deep_view() =~= (errors0 + map_unparsable(done)).push(e));
                    assert(errors.deep_view() =~= errors0 + map_unparsable(done2));
                },
                None => {
                    let e = ShiftParseErrorView::TokenCoordinateMissing;
                    assert(map_missing(done2) =~= map_missing(done).push(e));
                    assert(errors.deep_view() =~= (errors0 + map_missing(done)).push(e));
                    assert(errors.deep_view() =~= errors0 + map_missing(done2));
                },
            }
            done = done2;
        }
        i = b + 1;
    }
}

/// Once the capture scan is done, the accumulated captures are all of
/// them, and the per-line contribution is their mapping.
proof fn lemma_line_tokens_done(
    l: Seq<char>,
    coord: Option<Option<(int, int)>>,
    done: Seq<Seq<char>>,
)
    requires
        spec_captures(l) == done,
    ensures
        spec_line_tokens(l, coord).0 == (match coord {
            Some(Some(xy)) => map_tokens(done, xy.0, xy.1),
            _ => Seq::<ContentTokenView>::empty(),
        }),
        spec_line_tokens(l, coord).1 == (match coord {
            None => map_missing(done),
            Some(None) => map_unparsable(done),
            Some(Some(xy)) => Seq::<ShiftParseErrorView>::empty(),
        }),
{
}


/// The tokens and errors of the first `n` lines, in line order.
pub open spec fn spec_extract_upto(lines: Seq<Seq<char>>, n: int) -> (
    Seq<ContentTokenView>,
    Seq<ShiftParseErrorView>,
) decreases n,
{
    if n <= 0 {
        (Seq::empty(), Seq::empty())
    } else {
        let prev = spec_extract_upto(lines, n - 1);
        let cur = spec_line_tokens(lines[n - 1], coord_state(lines, n - 1));
        (prev.0 + cur.0, prev.1 + cur.1)
    }
}

/// What token extraction yields on a whole page stream: for every
/// parenthesized literal, in stream order, a token positioned by the
/// nearest preceding non-empty line, or a structured error where that
/// line is absent or holds no two numbers.
pub open spec fn spec_extract(s: Seq<char>) -> (Seq<ContentTokenView>, Seq<ShiftParseErrorView>) {
    spec_extract_upto(spec_lines(s), spec_lines(s).len() as int)
}

/// A usable coordinate line: non-empty, free of line breaks and of
/// opening parentheses.
pub open spec fn clean_coord_line(l: Seq<char>) -> bool {
    l.len() > 0 && forall|j: int|
        0 <= j < l.len() ==> #[trigger] l[j] != '\n' && l[j] != '\r' && l[j] != '('
}

/// A drawable text: free of parentheses and of newlines.
pub open spec fn clean_text(t: Seq<char>) -> bool {
    forall|j: int| 0 <= j < t.len() ==> #[trigger] t[j] != '(' && t[j] != ')' && t[j] != '\n'
}

/// One authored token block: the coordinate line, then the parenthesized
/// text on its own line.
pub open spec fn spec_render_block(coord_line: Seq<char>, text: Seq<char>) -> Seq<char> {
    coord_line + seq!['\n', '('] + text + seq![')', '\n']
}

/// A whole page authored from a list of (coordinate line, text) blocks.
pub open spec fn spec_render(blocks: Seq<(Seq<char>, Seq<char>)>) -> Seq<char>
    decreases blocks.len(),
{
    if blocks.len() == 0 {
        Seq::empty()
    } else {
        spec_render_block(blocks[0].0, blocks[0].1) + spec_render(blocks.skip(1))
    }
}

/// Finding a character beyond an appended prefix is finding it in the
/// suffix.
proof fn lemma_find_char_shift(a: Seq<char>, b: Seq<char>, i: int, c: char)
    requires
        0 <= i,
    ensures
        find_char_from(a + b, a.len() + i, c) == match find_char_from(b, i, c) {
            Some(p) => Some(a.len() + p),
            None => None::<int>,
        },
    decreases b.len() - i,
{
    let s = a + b;
    if i >= b.len() {
    } else {
        assert(s[a.len() + i] == b[i]);
        if b[i] != c {
            lemma_find_char_shift(a, b, i + 1, c);
        }
    }
}

/// Splitting into lines beyond an appended prefix splits the suffix.
proof fn lemma_lines_from_shift(a: Seq<char>, b: Seq<char>, i: int)
    requires
        0 <= i,
    ensures
        spec_lines_from(a + b, a.len() + i) == spec_lines_from(b, i),
    decreases b.len() - i,
{
    let s = a + b;
    lemma_find_char_shift(a, b, i, '\n');
    if i >= b.len() {
    } else {
        match find_char_from(b, i, '\n') {
            None => {
                assert(s.subrange(a.len() + i, s.len() as int) =~= b.subrange(i, b.len() as int));
            },
            Some(p) => {
                crate::text::lemma_find_char_from_props(b, i, '\n');
                assert(s.subrange(a.len() + i, a.len() + p) =~= b.subrange(i, p));
                lemma_lines_from_shift(a, b, p + 1);
            },
        }
    }
}

/// The text line an authored block draws.
pub open spec fn paren_line(text: Seq<char>) -> Seq<char> {
    seq!['('] + text + seq![')']
}

/// One block contributes its two lines, and the rest of the stream its
/// own lines.
proof fn lemma_render_block_lines(cl: Seq<char>, t: Seq<char>, rest: Seq<char>)
    requires
        clean_coord_line(cl),
        clean_text(t),
    ensures
        spec_lines(spec_render_block(cl, t) + rest) == seq![cl, paren_line(t)] + spec_lines(rest),
{
    let blk = spec_render_block(cl, t);
    let s = blk + rest;
    let nl = cl.len() as int;
    let tlen = t.len() as int;
    assert(blk.len() == nl + tlen + 4);
    assert(forall|j: int| 0 <= j < nl ==> s[j] == cl[j]);
    assert(s[nl] == '\n');
    assert(s[nl + 1] == '(');
    assert(forall|j: int| 0 <= j < tlen ==> s[nl + 2 + j] == t[j]);
    assert(s[nl + 2 + tlen] == ')');
    assert(s[nl + 3 + tlen] == '\n');

    crate::text::lemma_find_char_from_props(s, 0, '\n');
    assert(find_char_from(s, 0, '\n') == Some(nl)) by {
        match find_char_from(s, 0, '\n') {
            Some(p) => {
                if p < nl {
                    assert(s[p] == cl[p]);
                }
                if p > nl {
                    assert(s[nl] != '\n');
                }
            },
            None => {
                assert(s[nl] != '\n');
            },
        }
    }
    assert(s.subrange(0, nl) =~= cl);
    assert(strip_cr(cl) == cl);

    crate::text::lemma_find_char_from_props(s, nl + 1, '\n');
    assert(find_char_from(s, nl + 1, '\n') == Some(nl + 3 + tlen)) by {
        match find_char_from(s, nl + 1, '\n') {
            Some(p) => {
                if p < nl + 3 + tlen {
                    if p == nl + 1 {
                        assert(s[p] == '(');
                    } else if p < nl + 2 + tlen {
                        assert(s[p] == t[p - (nl + 2)]);
                    } else {
                        assert(s[p] == ')');
                    }
                }
                if p > nl + 3 + tlen {
                    assert(s[nl + 3 + tlen] != '\n');
                }
            },
            None => {
                assert(s[nl + 3 + tlen] != '\n');
            },
        }
    }
    assert(s.subrange(nl + 1, nl + 3 + tlen) =~= paren_line(t));
    assert(strip_cr(paren_line(t)) == paren_line(t)) by {
        assert(paren_line(t).last() == ')');
    }
    lemma_lines_from_shift(blk, rest, 0);
    assert(spec_lines_from(s, nl + 3 + tlen + 1) == spec_lines(rest)) by {
        assert(nl + 3 + tlen + 1 == blk.len());
    }
    assert(spec_lines_from(s, nl + 1) =~= seq![paren_line(t)] + spec_lines(rest));
    assert(spec_lines_from(s, 0) =~= seq![cl] + spec_lines_from(s, nl + 1));
    assert(spec_lines(s) =~= seq![cl, paren_line(t)] + spec_lines(rest));
}

/// The lines of a rendered page: each block's coordinate line and text
/// line, interleaved in block order.
pub open spec fn interleaved_lines(blocks: Seq<(Seq<char>, Seq<char>)>) -> Seq<Seq<char>> {
    Seq::new(
        2 * blocks.len(),
        |i: int|
            if i % 2 == 0 {
                blocks[i / 2].0
            } else {
                paren_line(blocks[i / 2].1)
            },
    )
}

/// A rendered page splits into the blocks' lines.
proof fn lemma_render_lines(blocks: Seq<(Seq<char>, Seq<char>)>)
    requires
        forall|k: int|
            0 <= k < blocks.len() ==> clean_coord_line((#[trigger] blocks[k]).0) && clean_text(
                blocks[k].1,
            ),
    ensures
        spec_lines(spec_render(blocks)) == interleaved_lines(blocks),
    decreases blocks.len(),
{
    if blocks.len() == 0 {
        assert(spec_lines(spec_render(blocks)) =~= interleaved_lines(blocks));
    } else {
        let rest = blocks.skip(1);
        assert(forall|k: int|
            0 <= k < rest.len() ==> clean_coord_line((#[trigger] rest[k]).0) && clean_text(
                rest[k].1,
            )) by {
            assert(forall|k: int| 0 <= k < rest.len() ==> rest[k] == blocks[k + 1]);
        }
        lemma_render_lines(rest);
        lemma_render_block_lines(blocks[0].0, blocks[0].1, spec_render(rest));
        assert(interleaved_lines(blocks) =~= seq![blocks[0].0, paren_line(blocks[0].1)]
            + interleaved_lines(rest)) by {
            assert(forall|i: int|
                0 <= i < interleaved_lines(rest).len() ==> #[trigger] interleaved_lines(rest)[i]
                    == interleaved_lines(blocks)[i + 2]);
        }
    }
}

/// The tokens a rendered page authors.
pub open spec fn rendered_tokens(blocks: Seq<(Seq<char>, Seq<char>)>) -> Seq<ContentTokenView> {
    Seq::new(
        blocks.len(),
        |k: int|
            ContentTokenView {
                text: blocks[k].1,
                x: spec_coord_of_line(blocks[k].0)->Some_0.0,
                y: spec_coord_of_line(blocks[k].0)->Some_0.1,
            },
    )
}

/// Extracting the first `n` blocks' lines yields their tokens and no
/// error.
#[verifier::rlimit(50)]
#[verifier::spinoff_prover]
proof fn lemma_rendered_extract_upto(blocks: Seq<(Seq<char>, Seq<char>)>, n: int)
    requires
        forall|k: int|
            0 <= k < blocks.len() ==> clean_coord_line((#[trigger] blocks[k]).0) && clean_text(
                blocks[k].1,
            ) && spec_coord_of_line(blocks[k].0) is Some,
        0 <= n <= blocks.len(),
    ensures
        spec_extract_upto(interleaved_lines(blocks), 2 * n).0 == rendered_tokens(blocks).take(n),
        spec_extract_upto(interleaved_lines(blocks), 2 * n).1 =~= Seq::<
            ShiftParseErrorView,
        >::empty(),
    decreases n,
{
    let ls = interleaved_lines(blocks);
    if n == 0 {
        assert(spec_extract_upto(ls, 0).0 =~= rendered_tokens(blocks).take(0));
    } else {
        lemma_rendered_extract_upto(blocks, n - 1);
        let cl = blocks[n - 1].0;
        let t = blocks[n - 1].1;
        assert(ls[2 * n - 2] == cl);
        assert(ls[2 * n - 1] == paren_line(t));

        // The coordinate line holds no captures.
        crate::text::lemma_find_char_from_props(cl, 0, '(');
        assert(find_char_from(cl, 0, '(') is None);
        assert(spec_captures(cl) =~= Seq::<Seq<char>>::empty());
        let c_contrib = spec_line_tokens(ls[2 * n - 2], coord_state(ls, 2 * n - 2));
        assert(c_contrib.0 =~= Seq::<ContentTokenView>::empty());
        assert(c_contrib.1 =~= Seq::<ShiftParseErrorView>::empty());

        // The text line holds one capture, positioned by its coordinate
        // line.
        let pl = paren_line(t);
        let tlen = t.len() as int;
        assert(pl[0] == '(');
        assert(forall|j: int| 0 <= j < tlen ==> pl[j + 1] == t[j]);
        assert(pl[1 + tlen] == ')');
        crate::text::lemma_find_char_from_props(pl, 0, '(');
        assert(find_char_from(pl, 0, '(') == Some(0int));
        crate::text::lemma_find_char_from_props(pl, 1, ')');
        assert(find_char_from(pl, 1, ')') == Some(1 + tlen)) by {
            match find_char_from(pl, 1, ')') {
                Some(q) => {
                    if q < 1 + tlen {
                        assert(pl[q] == t[q - 1]);
                    }
                },
                None => {},
            }
        }
        assert(pl.subrange(1, 1 + tlen) =~= t);
        assert(spec_captures_from(pl, 2 + tlen) =~= Seq::<Seq<char>>::empty());
        assert(spec_captures(pl) =~= seq![t]);
        assert(prev_nonempty(ls, 2 * n - 1) == Some(2 * n - 2)) by {
            assert(ls[2 * n - 2].len() > 0);
        }
        let xy = spec_coord_of_line(cl)->Some_0;
        assert(coord_state(ls, 2 * n - 1) == Some(Some(xy)));
        let p_contrib = spec_line_tokens(ls[2 * n - 1], coord_state(ls, 2 * n - 1));
        assert(p_contrib.0 =~= seq![ContentTokenView { text: t, x: xy.0, y: xy.1 }]) by {
            assert(map_tokens(seq![t], xy.0, xy.1).len() == 1);
            assert(map_tokens(seq![t], xy.0, xy.1)[0] == (ContentTokenView {
                text: t,
                x: xy.0,
                y: xy.1,
            }));
        }
        assert(p_contrib.1 =~= Seq::<ShiftParseErrorView>::empty());

        assert(spec_extract_upto(ls, 2 * n - 1).0 == spec_extract_upto(ls, 2 * n - 2).0
            + c_contrib.0);
        assert(spec_extract_upto(ls, 2 * n).0 == spec_extract_upto(ls, 2 * n - 1).0 + p_contrib.0);
        assert(spec_extract_upto(ls, 2 * n).0 =~= rendered_tokens(blocks).take(n)) by {
            assert(rendered_tokens(blocks).take(n) =~= rendered_tokens(blocks).take(n - 1).push(
                ContentTokenView { text: t, x: xy.0, y: xy.1 },
            ));
        }
        assert(spec_extract_upto(ls, 2 * n).1 =~= Seq::<ShiftParseErrorView>::empty());
    }
}

/// Extraction round-trips over a whole authored page: for every list of
/// tokens, each authored as a coordinate line followed by its
/// parenthesized text on the next line, extraction recovers exactly
/// those tokens in order — text and position as authored — and reports
/// no error. Coordinate lines must be usable ([`clean_coord_line`]) and
/// parse to the authored position; texts must be drawable
/// ([`clean_text`]).
pub proof fn lemma_extraction_round_trip_page(blocks: Seq<(Seq<char>, Seq<char>)>)
    requires
        forall|k: int|
            0 <= k < blocks.len() ==> clean_coord_line((#[trigger] blocks[k]).0) && clean_text(
                blocks[k].1,
            ) && spec_coord_of_line(blocks[k].0) is Some,
    ensures
        spec_extract(spec_render(blocks)).0 == rendered_tokens(blocks),
        spec_extract(spec_render(blocks)).1 =~= Seq::<ShiftParseErrorView>::empty(),
{
    lemma_render_lines(blocks);
    lemma_rendered_extract_upto(blocks, blocks.len() as int);
    assert(interleaved_lines(blocks).len() == 2 * blocks.len());
    assert(rendered_tokens(blocks).take(blocks.len() as int) =~= rendered_tokens(blocks));
}

/// Extracts every positioned text token of one page's drawing program. A
/// malformed token is reported in the error list and never aborts the
/// page.
pub fn extract_tokens(page_stream: &str) -> (r: (Vec<ContentToken>, Vec<ShiftParseError>))
    ensures
        r.0.deep_view() == spec_extract(page_stream@).0,
        r.1.deep_view() == spec_extract(page_stream@).1,
{
    let lines = split_lines(page_stream);
    let nlines = lines.len();
    let mut tokens: Vec<ContentToken> = Vec::new();
    let mut errors: Vec<ShiftParseError> = Vec::new();
    let mut last_nonempty: Option<usize> = None;
    let ghost lv = lines.deep_view();
    let mut ln: usize = 0;
    proof {
        assert(tokens.deep_view() =~= spec_extract_upto(lv, 0).0);
        assert(errors.deep_view() =~= spec_extract_upto(lv, 0).1);
    }
    while ln < nlines
        invariant
            0 <= ln <= nlines,
            nlines == lines.len(),
            lv == lines.deep_view(),
            tokens.deep_view() == spec_extract_upto(lv, ln as int).0,
            errors.deep_view() == spec_extract_upto(lv, ln as int).1,
            match last_nonempty {
                Some(k) => prev_nonempty(lv, ln as int) == Some(k as int) && k < nlines,
                None => prev_nonempty(lv, ln as int) is None,
            },
        decreases nlines - ln,
    {
        let line: &String = &lines[ln];
        let coord = match last_nonempty {
            None => CoordSource::Missing,
            Some(k) => {
                let prev_line: &String = &lines[k];
                match parse_line_coord(prev_line.as_str()) {
                    None => CoordSource::Unparsable,
                    Some((x, y)) => CoordSource::At(x, y),
                }
            },
        };
        proof {
            assert(coord@ == coord_state(lv, ln as int));
        }
        extract_line(line.as_str(), &coord, &mut tokens, &mut errors);
        if line.as_str().unicode_len() > 0 {
            last_nonempty = Some(ln);
        }
        ln = ln + 1;
    }
    (tokens, errors)
}

} // verus!
