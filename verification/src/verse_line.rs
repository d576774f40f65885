//! The grammar of a verse line in a Bible text file:
//! a book name, a chapter number, `:`, a section number, optional
//! whitespace, and the verse text, e.g. `Ge1:1 In the beginning...`
//! (compact layout) or `1 John 3:16 For God so loved...` (spaced layout).
//! As a search for the pattern within the line, the verse starts at the
//! first place where one can start. Digits are Unicode decimal digits
//! (general category `Nd`, Unicode 16.0), letters ASCII letters, whitespace
//! Unicode `White_Space`; a line holds no line feed. A chapter or section
//! number is read only when all its digits are ASCII digits.
use vstd::prelude::*;
use crate::strings::{chars_of, decimal, digit_char, is_white_space, is_white_space_char, string_of_range};

verus! {

/// How the book name and chapter of a verse line are laid out.
#[derive(Clone, Copy, Debug)]
pub enum Layout {
    /// An optional digit, letters, then the chapter at once: `1Jo3:16`.
    Compact,
    /// An optional digit and space, letters, a space, then the chapter:
    /// `1 John 3:16`.
    Spaced,
}

/// An ASCII decimal digit.
pub open spec fn is_digit(c: char) -> bool {
    '0' <= c <= '9'
}

/// A Unicode decimal digit: general category `Nd` (Unicode 16.0), the
/// characters that `\\d` matches in a verse pattern.
pub open spec fn is_decimal_digit(c: char) -> bool {
    ||| '\u{30}' <= c <= '\u{39}'
    ||| '\u{660}' <= c <= '\u{669}'
    ||| '\u{6f0}' <= c <= '\u{6f9}'
    ||| '\u{7c0}' <= c <= '\u{7c9}'
    ||| '\u{966}' <= c <= '\u{96f}'
    ||| '\u{9e6}' <= c <= '\u{9ef}'
    ||| '\u{a66}' <= c <= '\u{a6f}'
    ||| '\u{ae6}' <= c <= '\u{aef}'
    ||| '\u{b66}' <= c <= '\u{b6f}'
    ||| '\u{be6}' <= c <= '\u{bef}'
    ||| '\u{c66}' <= c <= '\u{c6f}'
    ||| '\u{ce6}' <= c <= '\u{cef}'
    ||| '\u{d66}' <= c <= '\u{d6f}'
    ||| '\u{de6}' <= c <= '\u{def}'
    ||| '\u{e50}' <= c <= '\u{e59}'
    ||| '\u{ed0}' <= c <= '\u{ed9}'
    ||| '\u{f20}' <= c <= '\u{f29}'
    ||| '\u{1040}' <= c <= '\u{1049}'
    ||| '\u{1090}' <= c <= '\u{1099}'
    ||| '\u{17e0}' <= c <= '\u{17e9}'
    ||| '\u{1810}' <= c <= '\u{1819}'
    ||| '\u{1946}' <= c <= '\u{194f}'
    ||| '\u{19d0}' <= c <= '\u{19d9}'
    ||| '\u{1a80}' <= c <= '\u{1a89}'
    ||| '\u{1a90}' <= c <= '\u{1a99}'
    ||| '\u{1b50}' <= c <= '\u{1b59}'
    ||| '\u{1bb0}' <= c <= '\u{1bb9}'
    ||| '\u{1c40}' <= c <= '\u{1c49}'
    ||| '\u{1c50}' <= c <= '\u{1c59}'
    ||| '\u{a620}' <= c <= '\u{a629}'
    ||| '\u{a8d0}' <= c <= '\u{a8d9}'
    ||| '\u{a900}' <= c <= '\u{a909}'
    ||| '\u{a9d0}' <= c <= '\u{a9d9}'
    ||| '\u{a9f0}' <= c <= '\u{a9f9}'
    ||| '\u{aa50}' <= c <= '\u{aa59}'
    ||| '\u{abf0}' <= c <= '\u{abf9}'
    ||| '\u{ff10}' <= c <= '\u{ff19}'
    ||| '\u{104a0}' <= c <= '\u{104a9}'
    ||| '\u{10d30}' <= c <= '\u{10d39}'
    ||| '\u{10d40}' <= c <= '\u{10d49}'
    ||| '\u{11066}' <= c <= '\u{1106f}'
    ||| '\u{110f0}' <= c <= '\u{110f9}'
    ||| '\u{11136}' <= c <= '\u{1113f}'
    ||| '\u{111d0}' <= c <= '\u{111d9}'
    ||| '\u{112f0}' <= c <= '\u{112f9}'
    ||| '\u{11450}' <= c <= '\u{11459}'
    ||| '\u{114d0}' <= c <= '\u{114d9}'
    ||| '\u{11650}' <= c <= '\u{11659}'
    ||| '\u{116c0}' <= c <= '\u{116c9}'
    ||| '\u{116d0}' <= c <= '\u{116e3}'
    ||| '\u{11730}' <= c <= '\u{11739}'
    ||| '\u{118e0}' <= c <= '\u{118e9}'
    ||| '\u{11950}' <= c <= '\u{11959}'
    ||| '\u{11bf0}' <= c <= '\u{11bf9}'
    ||| '\u{11c50}' <= c <= '\u{11c59}'
    ||| '\u{11d50}' <= c <= '\u{11d59}'
    ||| '\u{11da0}' <= c <= '\u{11da9}'
    ||| '\u{11f50}' <= c <= '\u{11f59}'
    ||| '\u{16130}' <= c <= '\u{16139}'
    ||| '\u{16a60}' <= c <= '\u{16a69}'
    ||| '\u{16ac0}' <= c <= '\u{16ac9}'
    ||| '\u{16b50}' <= c <= '\u{16b59}'
    ||| '\u{16d70}' <= c <= '\u{16d79}'
    ||| '\u{1ccf0}' <= c <= '\u{1ccf9}'
    ||| '\u{1d7ce}' <= c <= '\u{1d7ff}'
    ||| '\u{1e140}' <= c <= '\u{1e149}'
    ||| '\u{1e2f0}' <= c <= '\u{1e2f9}'
    ||| '\u{1e4f0}' <= c <= '\u{1e4f9}'
    ||| '\u{1e5f1}' <= c <= '\u{1e5fa}'
    ||| '\u{1e950}' <= c <= '\u{1e959}'
    ||| '\u{1fbf0}' <= c <= '\u{1fbf9}'
}

/// An ASCII letter.
pub open spec fn is_letter(c: char) -> bool {
    ('a' <= c <= 'z') || ('A' <= c <= 'Z')
}

/// The end of the run of decimal digits of `l` that starts at `i`.
pub open spec fn digits_end(l: Seq<char>, i: int) -> int
    decreases l.len() - i,
{
    if 0 <= i < l.len() && is_decimal_digit(l[i]) {
        digits_end(l, i + 1)
    } else {
        i
    }
}

/// The end of the run of letters of `l` that starts at `i`.
pub open spec fn letters_end(l: Seq<char>, i: int) -> int
    decreases l.len() - i,
{
    if 0 <= i < l.len() && is_letter(l[i]) {
        letters_end(l, i + 1)
    } else {
        i
    }
}

/// The end of the run of whitespace of `l` that starts at `i`.
pub open spec fn white_end(l: Seq<char>, i: int) -> int
    decreases l.len() - i,
{
    if 0 <= i < l.len() && is_white_space(l[i]) {
        white_end(l, i + 1)
    } else {
        i
    }
}

/// Where the parts of a verse stand in its line: the book name is
/// `[book_start, book_end)`, and so on; the text runs to the end of the line.
pub struct SpanModel {
    pub book_start: int,
    pub book_end: int,
    pub chapter_start: int,
    pub chapter_end: int,
    pub section_start: int,
    pub section_end: int,
    pub text_start: int,
}

/// Where the letters of a book name start, when a verse starts at `p`.
pub open spec fn letters_start(l: Seq<char>, p: int, layout: Layout) -> Option<int> {
    if !(0 <= p < l.len()) {
        None
    } else if is_letter(l[p]) {
        Some(p)
    } else if is_decimal_digit(l[p]) {
        match layout {
            Layout::Compact => if p + 1 < l.len() && is_letter(l[p + 1]) {
                Some(p + 1)
            } else {
                None
            },
            Layout::Spaced => if p + 2 < l.len() && l[p + 1] == ' ' && is_letter(l[p + 2]) {
                Some(p + 2)
            } else {
                None
            },
        }
    } else {
        None
    }
}

/// The parts of a verse that starts at `p` of line `l`, if one does:
/// every run is as long as it can be, except that when nothing is left
/// for the text, the text takes the last character of the whitespace
/// run, or else the last digit of a section number of two or more digits.
pub open spec fn spans_at(l: Seq<char>, p: int, layout: Layout) -> Option<SpanModel> {
    match letters_start(l, p, layout) {
        None => None,
        Some(q) => {
            let e1 = letters_end(l, q);
            let c0 = match layout {
                Layout::Compact => e1,
                Layout::Spaced => e1 + 1,
            };
            let sep_ok = match layout {
                Layout::Compact => true,
                Layout::Spaced => e1 < l.len() && l[e1] == ' ',
            };
            let e2 = digits_end(l, c0);
            if !sep_ok || e2 == c0 || !(e2 < l.len() && l[e2] == ':') {
                None
            } else {
                let s0 = e2 + 1;
                let e3 = digits_end(l, s0);
                let e4 = white_end(l, e3);
                if e3 == s0 {
                    None
                } else if e4 < l.len() {
                    Some(SpanModel { book_start: p, book_end: e1, chapter_start: c0, chapter_end: e2,
                        section_start: s0, section_end: e3, text_start: e4 })
                } else if e4 > e3 {
                    Some(SpanModel { book_start: p, book_end: e1, chapter_start: c0, chapter_end: e2,
                        section_start: s0, section_end: e3, text_start: l.len() - 1 })
                } else if e3 - s0 >= 2 {
                    Some(SpanModel { book_start: p, book_end: e1, chapter_start: c0, chapter_end: e2,
                        section_start: s0, section_end: e3 - 1, text_start: e3 - 1 })
                } else {
                    None
                }
            }
        },
    }
}

/// The parts of the first verse that starts at or after `p` in line `l`.
pub open spec fn first_spans(l: Seq<char>, p: int, layout: Layout) -> Option<SpanModel>
    decreases l.len() - p,
{
    if !(0 <= p < l.len()) {
        None
    } else {
        match spans_at(l, p, layout) {
            Some(s) => Some(s),
            None => first_spans(l, p + 1, layout),
        }
    }
}

/// The value of a string of decimal digits.
pub open spec fn digits_value(s: Seq<char>) -> nat
    decreases s.len(),
{
    if s.len() == 0 {
        0
    } else {
        digits_value(s.drop_last()) * 10 + ((s.last() as int - '0' as int) as nat)
    }
}

/// A decimal digit character has the value of its digit.
pub proof fn lemma_digit_char_value(d: nat)
    requires
        d < 10,
    ensures
        is_digit(digit_char(d)),
        (digit_char(d) as int - '0' as int) == d,
{
}

/// What `decimal` writes for a number is a digit string that reads back as
/// that number: a chapter or section number written out is read back the
/// same by the verse grammar.
pub proof fn law_decimal_reads_back(n: nat)
    ensures
        digits_value(decimal(n)) == n,
        forall|i: int| 0 <= i < decimal(n).len() ==> is_digit(#[trigger] decimal(n)[i]),
    decreases n,
{
    lemma_digit_char_value(n % 10);
    if n >= 10 {
        law_decimal_reads_back(n / 10);
        assert(decimal(n).drop_last() == decimal(n / 10));
        assert(decimal(n).last() == digit_char(n % 10));
        assert(n == (n / 10) * 10 + n % 10);
        assert(digits_value(decimal(n)) == digits_value(decimal(n / 10)) * 10 + ((decimal(n).last() as int
            - '0' as int) as nat));
        assert(digits_value(decimal(n)) == n);
        assert forall|i: int| 0 <= i < decimal(n).len() implies is_digit(#[trigger] decimal(n)[i]) by {
            if i < decimal(n).len() - 1 {
                assert(decimal(n)[i] == decimal(n / 10)[i]);
            }
        }
    } else {
        assert(decimal(n).drop_last() =~= Seq::<char>::empty());
        assert(decimal(n).last() == digit_char(n));
        assert(digits_value(decimal(n)) == digits_value(decimal(n).drop_last()) * 10 + ((
        decimal(n).last() as int - '0' as int) as nat));
        assert(digits_value(decimal(n).drop_last()) == 0);
    }
}

/// The parts of a verse line: book name, chapter and section numbers, text.
pub struct LineFields {
    pub book: String,
    pub chapter: usize,
    pub section: usize,
    pub text: String,
}

/// The number that a run of decimal digits reads as a `usize`, as
/// `str::parse::<usize>` reads it: only ASCII digits, and only a value that
/// fits.
pub open spec fn number_of(s: Seq<char>) -> Option<nat> {
    if (forall|i: int| 0 <= i < s.len() ==> is_digit(#[trigger] s[i])) && digits_value(s)
        <= usize::MAX {
        Some(digits_value(s))
    } else {
        None
    }
}

/// The parts of the verse in line `l`, when there is one and both of its
/// numbers read as a `usize`.
pub open spec fn line_fields(l: Seq<char>, layout: Layout) -> Option<(Seq<char>, nat, nat, Seq<char>)> {
    match first_spans(l, 0, layout) {
        None => None,
        Some(s) => {
            match (
                number_of(l.subrange(s.chapter_start, s.chapter_end)),
                number_of(l.subrange(s.section_start, s.section_end)),
            ) {
                (Some(chapter), Some(section)) => Some(
                    (
                        l.subrange(s.book_start, s.book_end),
                        chapter,
                        section,
                        l.subrange(s.text_start, l.len() as int),
                    ),
                ),
                _ => None,
            }
        },
    }
}


fn is_digit_char(c: char) -> (b: bool)
    ensures
        b == is_digit(c),
{
    '0' <= c && c <= '9'
}

fn is_decimal_digit_char(c: char) -> (b: bool)
    ensures
        b == is_decimal_digit(c),
{
    ('\u{30}' <= c && c <= '\u{39}')
        || ('\u{660}' <= c && c <= '\u{669}')
        || ('\u{6f0}' <= c && c <= '\u{6f9}')
        || ('\u{7c0}' <= c && c <= '\u{7c9}')
        || ('\u{966}' <= c && c <= '\u{96f}')
        || ('\u{9e6}' <= c && c <= '\u{9ef}')
        || ('\u{a66}' <= c && c <= '\u{a6f}')
        || ('\u{ae6}' <= c && c <= '\u{aef}')
        || ('\u{b66}' <= c && c <= '\u{b6f}')
        || ('\u{be6}' <= c && c <= '\u{bef}')
        || ('\u{c66}' <= c && c <= '\u{c6f}')
        || ('\u{ce6}' <= c && c <= '\u{cef}')
        || ('\u{d66}' <= c && c <= '\u{d6f}')
        || ('\u{de6}' <= c && c <= '\u{def}')
        || ('\u{e50}' <= c && c <= '\u{e59}')
        || ('\u{ed0}' <= c && c <= '\u{ed9}')
        || ('\u{f20}' <= c && c <= '\u{f29}')
        || ('\u{1040}' <= c && c <= '\u{1049}')
        || ('\u{1090}' <= c && c <= '\u{1099}')
        || ('\u{17e0}' <= c && c <= '\u{17e9}')
        || ('\u{1810}' <= c && c <= '\u{1819}')
        || ('\u{1946}' <= c && c <= '\u{194f}')
        || ('\u{19d0}' <= c && c <= '\u{19d9}')
        || ('\u{1a80}' <= c && c <= '\u{1a89}')
        || ('\u{1a90}' <= c && c <= '\u{1a99}')
        || ('\u{1b50}' <= c && c <= '\u{1b59}')
        || ('\u{1bb0}' <= c && c <= '\u{1bb9}')
        || ('\u{1c40}' <= c && c <= '\u{1c49}')
        || ('\u{1c50}' <= c && c <= '\u{1c59}')
        || ('\u{a620}' <= c && c <= '\u{a629}')
        || ('\u{a8d0}' <= c && c <= '\u{a8d9}')
        || ('\u{a900}' <= c && c <= '\u{a909}')
        || ('\u{a9d0}' <= c && c <= '\u{a9d9}')
        || ('\u{a9f0}' <= c && c <= '\u{a9f9}')
        || ('\u{aa50}' <= c && c <= '\u{aa59}')
        || ('\u{abf0}' <= c && c <= '\u{abf9}')
        || ('\u{ff10}' <= c && c <= '\u{ff19}')
        || ('\u{104a0}' <= c && c <= '\u{104a9}')
        || ('\u{10d30}' <= c && c <= '\u{10d39}')
        || ('\u{10d40}' <= c && c <= '\u{10d49}')
        || ('\u{11066}' <= c && c <= '\u{1106f}')
        || ('\u{110f0}' <= c && c <= '\u{110f9}')
        || ('\u{11136}' <= c && c <= '\u{1113f}')
        || ('\u{111d0}' <= c && c <= '\u{111d9}')
        || ('\u{112f0}' <= c && c <= '\u{112f9}')
        || ('\u{11450}' <= c && c <= '\u{11459}')
        || ('\u{114d0}' <= c && c <= '\u{114d9}')
        || ('\u{11650}' <= c && c <= '\u{11659}')
        || ('\u{116c0}' <= c && c <= '\u{116c9}')
        || ('\u{116d0}' <= c && c <= '\u{116e3}')
        || ('\u{11730}' <= c && c <= '\u{11739}')
        || ('\u{118e0}' <= c && c <= '\u{118e9}')
        || ('\u{11950}' <= c && c <= '\u{11959}')
        || ('\u{11bf0}' <= c && c <= '\u{11bf9}')
        || ('\u{11c50}' <= c && c <= '\u{11c59}')
        || ('\u{11d50}' <= c && c <= '\u{11d59}')
        || ('\u{11da0}' <= c && c <= '\u{11da9}')
        || ('\u{11f50}' <= c && c <= '\u{11f59}')
        || ('\u{16130}' <= c && c <= '\u{16139}')
        || ('\u{16a60}' <= c && c <= '\u{16a69}')
        || ('\u{16ac0}' <= c && c <= '\u{16ac9}')
        || ('\u{16b50}' <= c && c <= '\u{16b59}')
        || ('\u{16d70}' <= c && c <= '\u{16d79}')
        || ('\u{1ccf0}' <= c && c <= '\u{1ccf9}')
        || ('\u{1d7ce}' <= c && c <= '\u{1d7ff}')
        || ('\u{1e140}' <= c && c <= '\u{1e149}')
        || ('\u{1e2f0}' <= c && c <= '\u{1e2f9}')
        || ('\u{1e4f0}' <= c && c <= '\u{1e4f9}')
        || ('\u{1e5f1}' <= c && c <= '\u{1e5fa}')
        || ('\u{1e950}' <= c && c <= '\u{1e959}')
        || ('\u{1fbf0}' <= c && c <= '\u{1fbf9}')
}

fn is_letter_char(c: char) -> (b: bool)
    ensures
        b == is_letter(c),
{
    ('a' <= c && c <= 'z') || ('A' <= c && c <= 'Z')
}

fn digits_end_at(l: &Vec<char>, i: usize) -> (e: usize)
    requires
        i <= l.len(),
    ensures
        e == digits_end(l@, i as int),
        i <= e <= l.len(),
        forall|k: int| i <= k < e ==> is_decimal_digit(#[trigger] l@[k]),
{
    let mut j = i;
    while j < l.len() && is_decimal_digit_char(l[j])
        invariant
            i <= j <= l.len(),
            forall|k: int| i <= k < j ==> is_decimal_digit(#[trigger] l@[k]),
            digits_end(l@, j as int) == digits_end(l@, i as int),
        decreases l.len() - j,
    {
        j += 1;
    }
    j
}

fn letters_end_at(l: &Vec<char>, i: usize) -> (e: usize)
    requires
        i <= l.len(),
    ensures
        e == letters_end(l@, i as int),
        i <= e <= l.len(),
{
    let mut j = i;
    while j < l.len() && is_letter_char(l[j])
        invariant
            i <= j <= l.len(),
            letters_end(l@, j as int) == letters_end(l@, i as int),
        decreases l.len() - j,
    {
        j += 1;
    }
    j
}

fn white_end_at(l: &Vec<char>, i: usize) -> (e: usize)
    requires
        i <= l.len(),
    ensures
        e == white_end(l@, i as int),
        i <= e <= l.len(),
{
    let mut j = i;
    while j < l.len() && is_white_space_char(l[j])
        invariant
            i <= j <= l.len(),
            white_end(l@, j as int) == white_end(l@, i as int),
        decreases l.len() - j,
    {
        j += 1;
    }
    j
}

/// Where the parts of a verse stand in its line.
pub struct LineSpans {
    pub book_start: usize,
    pub book_end: usize,
    pub chapter_start: usize,
    pub chapter_end: usize,
    pub section_start: usize,
    pub section_end: usize,
    pub text_start: usize,
}

impl View for LineSpans {
    type V = SpanModel;

    open spec fn view(&self) -> SpanModel {
        SpanModel {
            book_start: self.book_start as int,
            book_end: self.book_end as int,
            chapter_start: self.chapter_start as int,
            chapter_end: self.chapter_end as int,
            section_start: self.section_start as int,
            section_end: self.section_end as int,
            text_start: self.text_start as int,
        }
    }
}

/// What holds of the spans of a verse in a line of `n` characters.
pub open spec fn spans_fit(s: SpanModel, l: Seq<char>) -> bool {
    &&& 0 <= s.book_start <= s.book_end <= s.chapter_start <= s.chapter_end
    &&& s.chapter_end < s.section_start <= s.section_end <= s.text_start < l.len()
    &&& forall|k: int| s.chapter_start <= k < s.chapter_end ==> is_decimal_digit(#[trigger] l[k])
    &&& forall|k: int| s.section_start <= k < s.section_end ==> is_decimal_digit(#[trigger] l[k])
}

/// The spans of a verse that starts at `p` of `l`, if one does.
fn spans_at_exec(l: &Vec<char>, p: usize, layout: Layout) -> (r: Option<LineSpans>)
    requires
        p < l.len(),
    ensures
        match r {
            Some(s) => spans_at(l@, p as int, layout) == Some(s@) && spans_fit(s@, l@),
            None => spans_at(l@, p as int, layout) is None,
        },
{
    let n = l.len();
    let q: usize;
    if is_letter_char(l[p]) {
        q = p;
    } else if is_decimal_digit_char(l[p]) {
        match layout {
            Layout::Compact => {
                if n - p > 1 && is_letter_char(l[p + 1]) {
                    q = p + 1;
                } else {
                    return None;
                }
            },
            Layout::Spaced => {
                if n - p > 2 && l[p + 1] == ' ' && is_letter_char(l[p + 2]) {
                    q = p + 2;
                } else {
                    return None;
                }
            },
        }
    } else {
        return None;
    }
    let e1 = letters_end_at(l, q);
    let c0: usize;
    match layout {
        Layout::Compact => {
            c0 = e1;
        },
        Layout::Spaced => {
            if e1 < n && l[e1] == ' ' {
                c0 = e1 + 1;
            } else {
                return None;
            }
        },
    }
    let e2 = digits_end_at(l, c0);
    if e2 == c0 || !(e2 < n && l[e2] == ':') {
        return None;
    }
    let s0 = e2 + 1;
    let e3 = digits_end_at(l, s0);
    let e4 = white_end_at(l, e3);
    if e3 == s0 {
        None
    } else if e4 < n {
        Some(LineSpans { book_start: p, book_end: e1, chapter_start: c0, chapter_end: e2,
            section_start: s0, section_end: e3, text_start: e4 })
    } else if e4 > e3 {
        Some(LineSpans { book_start: p, book_end: e1, chapter_start: c0, chapter_end: e2,
            section_start: s0, section_end: e3, text_start: n - 1 })
    } else if e3 - s0 >= 2 {
        Some(LineSpans { book_start: p, book_end: e1, chapter_start: c0, chapter_end: e2,
            section_start: s0, section_end: e3 - 1, text_start: e3 - 1 })
    } else {
        None
    }
}

/// The spans of the first verse that starts in `l`.
fn first_spans_exec(l: &Vec<char>, layout: Layout) -> (r: Option<LineSpans>)
    ensures
        match r {
            Some(s) => first_spans(l@, 0, layout) == Some(s@) && spans_fit(s@, l@),
            None => first_spans(l@, 0, layout) is None,
        },
{
    let mut p: usize = 0;
    while p < l.len()
        invariant
            p <= l.len(),
            first_spans(l@, p as int, layout) == first_spans(l@, 0, layout),
        decreases l.len() - p,
    {
        match spans_at_exec(l, p, layout) {
            Some(s) => {
                return Some(s);
            },
            None => {},
        }
        p += 1;
    }
    None
}


/// A prefix of a digit string has no greater value than the whole.
pub proof fn lemma_digits_value_prefix(s: Seq<char>, k: int)
    requires
        0 <= k <= s.len(),
    ensures
        digits_value(s.take(k)) <= digits_value(s),
    decreases s.len() - k,
{
    if k < s.len() {
        lemma_digits_value_prefix(s.drop_last(), k);
        assert(s.drop_last().take(k) == s.take(k));
    } else {
        assert(s.take(k) == s);
    }
}

/// The value of the digits `l[lo..hi]`, when it fits in a `usize`.
fn digits_to_usize(l: &Vec<char>, lo: usize, hi: usize) -> (r: Option<usize>)
    requires
        lo <= hi <= l.len(),
        forall|i: int| lo <= i < hi ==> is_digit(#[trigger] l@[i]),
    ensures
        match r {
            Some(v) => v == digits_value(l@.subrange(lo as int, hi as int)),
            None => digits_value(l@.subrange(lo as int, hi as int)) > usize::MAX,
        },
{
    let ghost whole = l@.subrange(lo as int, hi as int);
    let mut v: usize = 0;
    let mut i: usize = lo;
    proof {
        assert(l@.subrange(lo as int, lo as int) =~= Seq::<char>::empty());
    }
    while i < hi
        invariant
            lo <= i <= hi <= l.len(),
            whole == l@.subrange(lo as int, hi as int),
            forall|k: int| lo <= k < hi ==> is_digit(#[trigger] l@[k]),
            v == digits_value(l@.subrange(lo as int, i as int)),
        decreases hi - i,
    {
        let c = l[i];
        assert(is_digit(l@[i as int]));
        let d = (c as u32 - 48) as usize;
        let ghost next = l@.subrange(lo as int, i + 1);
        proof {
            assert(next.drop_last() =~= l@.subrange(lo as int, i as int));
            assert(next.last() == c);
            assert(whole.take(i + 1 - lo) =~= next);
        }
        match v.checked_mul(10) {
            Some(m) => match m.checked_add(d) {
                Some(w) => {
                    v = w;
                },
                None => {
                    proof {
                        lemma_digits_value_prefix(whole, i + 1 - lo);
                    }
                    return None;
                },
            },
            None => {
                proof {
                    lemma_digits_value_prefix(whole, i + 1 - lo);
                }
                return None;
            },
        }
        i += 1;
    }
    Some(v)
}


/// The number that the digits `l[lo..hi]` read as a `usize`, if any.
fn parse_number(l: &Vec<char>, lo: usize, hi: usize) -> (r: Option<usize>)
    requires
        lo <= hi <= l.len(),
    ensures
        match r {
            Some(v) => number_of(l@.subrange(lo as int, hi as int)) == Some(v as nat),
            None => number_of(l@.subrange(lo as int, hi as int)) is None,
        },
{
    let ghost sub = l@.subrange(lo as int, hi as int);
    let mut i = lo;
    while i < hi
        invariant
            lo <= i <= hi <= l.len(),
            sub == l@.subrange(lo as int, hi as int),
            forall|k: int| lo <= k < i ==> is_digit(#[trigger] l@[k]),
        decreases hi - i,
    {
        if !is_digit_char(l[i]) {
            proof {
                assert(sub[i - lo] == l@[i as int]);
            }
            return None;
        }
        i += 1;
    }
    proof {
        assert forall|k: int| 0 <= k < sub.len() implies is_digit(#[trigger] sub[k]) by {
            assert(sub[k] == l@[k + lo]);
        }
    }
    digits_to_usize(l, lo, hi)
}

/// The parts of the verse in line `l`, when there is one and both of its
/// numbers read as a `usize`.
pub(crate) fn fields_of_chars(l: &Vec<char>, layout: Layout) -> (r: Option<LineFields>)
    ensures
        match r {
            Some(f) => line_fields(l@, layout) == Some(
                (f.book@, f.chapter as nat, f.section as nat, f.text@),
            ),
            None => line_fields(l@, layout) is None,
        },
{
    match first_spans_exec(l, layout) {
        None => None,
        Some(s) => {
            let chapter = parse_number(l, s.chapter_start, s.chapter_end);
            let section = parse_number(l, s.section_start, s.section_end);
            match (chapter, section) {
                (Some(c), Some(v)) => Some(
                    LineFields {
                        book: string_of_range(l, s.book_start, s.book_end),
                        chapter: c,
                        section: v,
                        text: string_of_range(l, s.text_start, l.len()),
                    },
                ),
                _ => None,
            }
        },
    }
}

/// The parts of the verse in `line`, when there is one and both of its
/// numbers read as a `usize`.
pub fn parse_verse_line(line: &str, layout: Layout) -> (r: Option<LineFields>)
    ensures
        match r {
            Some(f) => line_fields(line@, layout) == Some(
                (f.book@, f.chapter as nat, f.section as nat, f.text@),
            ),
            None => line_fields(line@, layout) is None,
        },
{
    let l = chars_of(line);
    fields_of_chars(&l, layout)
}


/// A run of digits from `i` that stops at `j` ends at `j`.
proof fn lemma_digits_run(l: Seq<char>, i: int, j: int)
    requires
        0 <= i <= j <= l.len(),
        forall|k: int| i <= k < j ==> is_decimal_digit(#[trigger] l[k]),
        j == l.len() || !is_decimal_digit(l[j]),
    ensures
        digits_end(l, i) == j,
    decreases j - i,
{
    if i < j {
        lemma_digits_run(l, i + 1, j);
    }
}

/// A run of letters from `i` that stops at `j` ends at `j`.
proof fn lemma_letters_run(l: Seq<char>, i: int, j: int)
    requires
        0 <= i <= j <= l.len(),
        forall|k: int| i <= k < j ==> is_letter(#[trigger] l[k]),
        j == l.len() || !is_letter(l[j]),
    ensures
        letters_end(l, i) == j,
    decreases j - i,
{
    if i < j {
        lemma_letters_run(l, i + 1, j);
    }
}

/// A run of whitespace from `i` that stops at `j` ends at `j`.
proof fn lemma_white_run(l: Seq<char>, i: int, j: int)
    requires
        0 <= i <= j <= l.len(),
        forall|k: int| i <= k < j ==> is_white_space(#[trigger] l[k]),
        j == l.len() || !is_white_space(l[j]),
    ensures
        white_end(l, i) == j,
    decreases j - i,
{
    if i < j {
        lemma_white_run(l, i + 1, j);
    }
}

/// The verse line that writes book name `book`, chapter, section, the
/// whitespace `gap` and `text` in the given layout.
pub open spec fn written_line_gap(
    book: Seq<char>,
    chapter: nat,
    section: nat,
    gap: Seq<char>,
    text: Seq<char>,
    layout: Layout,
) -> Seq<char> {
    let head = match layout {
        Layout::Compact => book,
        Layout::Spaced => book + seq![' '],
    };
    head + decimal(chapter) + seq![':'] + decimal(section) + gap + text
}

/// The verse line that writes book name `book`, chapter, section and
/// `text` in the given layout, one space before the text.
pub open spec fn written_line(
    book: Seq<char>,
    chapter: nat,
    section: nat,
    text: Seq<char>,
    layout: Layout,
) -> Seq<char> {
    written_line_gap(book, chapter, section, seq![' '], text, layout)
}

/// Every character of `book` is an ASCII letter, `a` to `z` or `A` to `Z`.
pub open spec fn ascii_alphabetic(book: Seq<char>) -> bool {
    forall|i: int| 0 <= i < book.len() ==> ('a' <= #[trigger] book[i] <= 'z') || ('A' <= book[i] <= 'Z')
}

/// A verse line written from a book name of ASCII letters (any of `a` to
/// `z` and `A` to `Z`), two numbers, any non-empty run of whitespace and a
/// text that does not start with whitespace reads back as the whole book
/// name, the two numbers in their places, and the text after the whole
/// whitespace run.
pub proof fn law_line_reads_back(
    book: Seq<char>,
    chapter: usize,
    section: usize,
    gap: Seq<char>,
    text: Seq<char>,
    layout: Layout,
)
    requires
        book.len() > 0,
        ascii_alphabetic(book),
        gap.len() > 0,
        forall|i: int| 0 <= i < gap.len() ==> is_white_space(#[trigger] gap[i]),
        text.len() > 0,
        !is_white_space(text[0]),
    ensures
        line_fields(written_line_gap(book, chapter as nat, section as nat, gap, text, layout), layout)
            == Some((book, chapter as nat, section as nat, text)),
{
    let dc = decimal(chapter as nat);
    let ds = decimal(section as nat);
    law_decimal_reads_back(chapter as nat);
    law_decimal_reads_back(section as nat);
    let head = match layout {
        Layout::Compact => book,
        Layout::Spaced => book + seq![' '],
    };
    let l = written_line_gap(book, chapter as nat, section as nat, gap, text, layout);
    let b = book.len() as int;
    let c0 = head.len() as int;
    let e2 = c0 + dc.len();
    let s0 = e2 + 1;
    let e3 = s0 + ds.len();
    let e4 = e3 + gap.len();
    assert(l =~= head + dc + seq![':'] + ds + gap + text);
    assert forall|k: int| 0 <= k < b implies l[k] == book[k] by {}
    assert forall|k: int| c0 <= k < e2 implies l[k] == dc[k - c0] by {}
    assert forall|k: int| s0 <= k < e3 implies l[k] == ds[k - s0] by {}
    assert forall|k: int| e3 <= k < e4 implies l[k] == gap[k - e3] by {}
    assert(l[e2] == ':');
    assert(l[e4] == text[0]);
    assert(l.len() == e4 + text.len());
    assert(is_digit(dc[0]));
    assert(is_decimal_digit(dc[0]));
    assert(l[c0] == dc[0]);
    assert forall|k: int| 0 <= k < b implies is_letter(#[trigger] l[k]) by {
        assert(l[k] == book[k]);
    }
    match layout {
        Layout::Compact => {
            assert(!is_letter(l[b]));
        },
        Layout::Spaced => {
            assert(l[b] == ' ');
        },
    }
    lemma_letters_run(l, 0, b);
    assert forall|k: int| c0 <= k < e2 implies is_decimal_digit(#[trigger] l[k]) by {
        assert(l[k] == dc[k - c0]);
        assert(is_digit(dc[k - c0]));
    }
    lemma_digits_run(l, c0, e2);
    assert forall|k: int| s0 <= k < e3 implies is_decimal_digit(#[trigger] l[k]) by {
        assert(l[k] == ds[k - s0]);
        assert(is_digit(ds[k - s0]));
    }
    assert(is_white_space(l[e3]));
    assert(!is_decimal_digit(l[e3]));
    lemma_digits_run(l, s0, e3);
    assert forall|k: int| e3 <= k < e4 implies is_white_space(#[trigger] l[k]) by {
        assert(l[k] == gap[k - e3]);
    }
    lemma_white_run(l, e3, e4);
    assert(l[0] == book[0]);
    assert(is_letter(l[0]));
    assert(spans_at(l, 0, layout) == Some(SpanModel { book_start: 0, book_end: b, chapter_start: c0,
        chapter_end: e2, section_start: s0, section_end: e3, text_start: e4 }));
    assert(l.subrange(0, b) =~= book);
    assert(l.subrange(c0, e2) =~= dc);
    assert(l.subrange(s0, e3) =~= ds);
    assert(l.subrange(e4, l.len() as int) =~= text);
}

/// A verse line written from a book name of ASCII letters, two numbers and
/// a text that does not start with whitespace, one space between, reads
/// back as those same parts.
pub proof fn law_written_line_reads_back(
    book: Seq<char>,
    chapter: usize,
    section: usize,
    text: Seq<char>,
    layout: Layout,
)
    requires
        book.len() > 0,
        ascii_alphabetic(book),
        text.len() > 0,
        !is_white_space(text[0]),
    ensures
        line_fields(written_line(book, chapter as nat, section as nat, text, layout), layout)
            == Some((book, chapter as nat, section as nat, text)),
{
    law_line_reads_back(book, chapter, section, seq![' '], text, layout);
}

} // verus!
