//! Board dimensions: the `BoardSize` value and its `WIDTHxHEIGHT` parser.
use vstd::prelude::*;

use crate::text::{
    all_digits, char_is_digit, chars_of, decimal_digits, decimal_in_range, decimal_string,
    decimal_value, is_digit, push_char, push_chars, trim, trim_range,
};

verus! {

pub const DEFAULT_BOARD_WIDTH: usize = 5;

pub const DEFAULT_BOARD_HEIGHT: usize = 5;

/// Width and height of a board; both positive, with a cell count that fits
/// in `usize`.
#[derive(Debug, Clone, Copy, PartialEq, Eq, Structural)]
pub struct BoardSize {
    pub width: usize,
    pub height: usize,
}

#[derive(Debug, Clone, PartialEq, Eq)]
pub enum BoardSizeParseError {
    MissingSeparator { value: String },
    MissingDimension { value: String, dimension: &'static str },
    ExtraDimensions { value: String },
    UnsupportedSeparator { value: String },
    NegativeDimension { value: String, dimension: &'static str, component: String },
    NonIntegerDimension { value: String, dimension: &'static str, component: String },
    ZeroDimension { dimension: &'static str },
    DimensionTooLarge { value: String, dimension: &'static str, component: String },
    BoardTooLarge { width: usize, height: usize },
}

/// What `BoardSize::new(width, height)` returns.
pub open spec fn size_outcome(r: Result<BoardSize, BoardSizeParseError>, width: int, height: int) -> bool {
    if width == 0 {
        r matches Err(BoardSizeParseError::ZeroDimension { dimension: d }) && d@ == "width"@
    } else if height == 0 {
        r matches Err(BoardSizeParseError::ZeroDimension { dimension: d }) && d@ == "height"@
    } else if width * height > usize::MAX {
        r matches Err(BoardSizeParseError::BoardTooLarge { width: w, height: h }) && w == width
            && h == height
    } else {
        r matches Ok(s) && s.width == width && s.height == height
    }
}

/// ASCII white space (what `char::is_ascii_whitespace` accepts).
pub open spec fn is_ascii_ws(c: char) -> bool {
    c == ' ' || c == '\t' || c == '\n' || c == '\x0C' || c == '\r'
}

pub open spec fn is_dimension_separator(c: char) -> bool {
    c == 'x' || c == 'X'
}

/// Number of `x`/`X` separators in `s`.
pub open spec fn separator_count(s: Seq<char>) -> nat
    decreases s.len(),
{
    if s.len() == 0 {
        0
    } else {
        separator_count(s.drop_last()) + if is_dimension_separator(s.last()) {
            1nat
        } else {
            0nat
        }
    }
}

/// Index of the first separator in `s`, or `s.len()` if there is none.
pub open spec fn first_separator(s: Seq<char>) -> int
    decreases s.len(),
{
    if s.len() == 0 {
        0
    } else if is_dimension_separator(s[0]) {
        0
    } else {
        1 + first_separator(s.drop_first())
    }
}

/// The value of a dimension component, if it is a valid one: trimmed, not
/// empty, not negative, all digits, and at most `usize::MAX`.
pub open spec fn dimension_value(component: Seq<char>) -> Option<nat> {
    let t = trim(component);
    if t.len() > 0 && t[0] != '-' && all_digits(t) && decimal_value(t) <= usize::MAX {
        Some(decimal_value(t))
    } else {
        None
    }
}

/// The error reported for an invalid dimension component.
pub open spec fn dimension_error_is(
    e: BoardSizeParseError,
    value: Seq<char>,
    dimension: Seq<char>,
    component: Seq<char>,
) -> bool {
    let t = trim(component);
    if t.len() == 0 {
        e matches BoardSizeParseError::MissingDimension { value: v, dimension: d } && v@ == value
            && d@ == dimension
    } else if t[0] == '-' {
        e matches BoardSizeParseError::NegativeDimension { value: v, dimension: d, component: c }
            && v@ == value && d@ == dimension && c@ == component
    } else if !all_digits(t) {
        e matches BoardSizeParseError::NonIntegerDimension { value: v, dimension: d, component: c }
            && v@ == value && d@ == dimension && c@ == component
    } else {
        e matches BoardSizeParseError::DimensionTooLarge { value: v, dimension: d, component: c }
            && v@ == value && d@ == dimension && c@ == component
    }
}

/// What `BoardSize::parse(value)` returns.
pub open spec fn board_size_result(r: Result<BoardSize, BoardSizeParseError>, value: Seq<char>) -> bool {
    let t = trim(value);
    let k = first_separator(t);
    if separator_count(t) == 0 {
        if exists|i: int| 0 <= i < t.len() && !is_digit(#[trigger] t[i]) && !is_ascii_ws(t[i]) {
            r matches Err(BoardSizeParseError::UnsupportedSeparator { value: v }) && v@ == value
        } else {
            r matches Err(BoardSizeParseError::MissingSeparator { value: v }) && v@ == value
        }
    } else if separator_count(t) > 1 {
        r matches Err(BoardSizeParseError::ExtraDimensions { value: v }) && v@ == value
    } else {
        match (dimension_value(t.take(k)), dimension_value(t.skip(k + 1))) {
            (None, _) => r matches Err(e) && dimension_error_is(e, value, "width"@, t.take(k)),
            (Some(_), None) => r matches Err(e) && dimension_error_is(e, value, "height"@, t.skip(k + 1)),
            (Some(w), Some(h)) => size_outcome(r, w as int, h as int),
        }
    }
}

/// The size `value` names, if `BoardSize::parse` accepts it.
pub open spec fn board_size_value(value: Seq<char>) -> Option<BoardSize> {
    let t = trim(value);
    let k = first_separator(t);
    if separator_count(t) == 1 {
        match (dimension_value(t.take(k)), dimension_value(t.skip(k + 1))) {
            (Some(w), Some(h)) => if w > 0 && h > 0 && w * h <= usize::MAX {
                Some(BoardSize { width: w as usize, height: h as usize })
            } else {
                None
            },
            _ => None,
        }
    } else {
        None
    }
}

/// A parse result agrees with `board_size_value`.
pub proof fn lemma_board_size_result_value(r: Result<BoardSize, BoardSizeParseError>, value: Seq<char>)
    requires
        board_size_result(r, value),
    ensures
        match board_size_value(value) {
            Some(b) => r == Ok::<BoardSize, BoardSizeParseError>(b),
            None => r is Err,
        },
{
}

/// `WxH` in decimal.
pub open spec fn size_text(width: nat, height: nat) -> Seq<char> {
    decimal_digits(width) + seq!['x'] + decimal_digits(height)
}

impl BoardSize {
    pub fn new(width: usize, height: usize) -> (r: Result<Self, BoardSizeParseError>)
        ensures
            size_outcome(r, width as int, height as int),
    {
        if width == 0 {
            return Err(BoardSizeParseError::ZeroDimension { dimension: "width" });
        }
        if height == 0 {
            return Err(BoardSizeParseError::ZeroDimension { dimension: "height" });
        }
        if width.checked_mul(height).is_none() {
            return Err(BoardSizeParseError::BoardTooLarge { width, height });
        }
        Ok(BoardSize { width, height })
    }

    /// Parses `WIDTHxHEIGHT` (either case of `x`, white space around the
    /// parts ignored).
    pub fn parse(value: &str) -> (r: Result<Self, BoardSizeParseError>)
        ensures
            board_size_result(r, value@),
    {
        let cs = chars_of(value);
        let (a, b) = trim_range(cs.as_slice(), 0, cs.len());
        proof {
            assert(cs@.subrange(0, cs@.len() as int) =~= value@);
        }
        let ghost t = cs@.subrange(a as int, b as int);
        let (count, first) = scan_separators(cs.as_slice(), a, b);
        if count == 0 {
            let mut i = a;
            while i < b
                invariant
                    a <= i <= b <= cs@.len(),
                    t == cs@.subrange(a as int, b as int),
                    t == trim(value@),
                    separator_count(t) == 0,
                    forall|j: int| a <= j < i ==> is_digit(#[trigger] cs@[j]) || is_ascii_ws(cs@[j]),
                decreases b - i,
            {
                let c = cs[i];
                if !char_is_digit(c) && !(c == ' ' || c == '\t' || c == '\n' || c == '\x0C' || c
                    == '\r') {
                    proof {
                        assert(t[i - a] == c);
                        assert(!is_digit(t[i - a]) && !is_ascii_ws(t[i - a]));
                    }
                    return Err(BoardSizeParseError::UnsupportedSeparator { value: value.to_owned() });
                }
                i += 1;
            }
            proof {
                assert forall|j: int| 0 <= j < t.len() implies is_digit(#[trigger] t[j]) || is_ascii_ws(
                    t[j],
                ) by {
                    assert(t[j] == cs@[a + j]);
                }
            }
            return Err(BoardSizeParseError::MissingSeparator { value: value.to_owned() });
        }
        if count > 1 {
            return Err(BoardSizeParseError::ExtraDimensions { value: value.to_owned() });
        }
        proof {
            assert(t.take(first - a) =~= cs@.subrange(a as int, first as int));
            assert(t.skip(first - a + 1) =~= cs@.subrange(first + 1, b as int));
        }
        let width = parse_dimension_in(value, "width", cs.as_slice(), a, first)?;
        let height = parse_dimension_in(value, "height", cs.as_slice(), first + 1, b)?;
        Self::new(width, height)
    }

    /// `WxH` text of this size.
    pub fn to_text(&self) -> (r: String)
        ensures
            r@ == size_text(self.width as nat, self.height as nat),
    {
        let mut s = String::new();
        push_chars(&mut s, decimal_string(self.width as u64).as_slice());
        push_char(&mut s, 'x');
        push_chars(&mut s, decimal_string(self.height as u64).as_slice());
        proof {
            assert(s@ =~= size_text(self.width as nat, self.height as nat));
        }
        s
    }
}

impl Default for BoardSize {
    fn default() -> (r: Self)
        ensures
            r.width == DEFAULT_BOARD_WIDTH,
            r.height == DEFAULT_BOARD_HEIGHT,
    {
        BoardSize { width: DEFAULT_BOARD_WIDTH, height: DEFAULT_BOARD_HEIGHT }
    }
}

/// Counts the separators in `cs[from..to]` and finds the first one.
pub fn scan_separators(cs: &[char], from: usize, to: usize) -> (r: (usize, usize))
    requires
        from <= to <= cs@.len(),
    ensures
        r.0 == separator_count(cs@.subrange(from as int, to as int)),
        from <= r.1 <= to,
        r.1 == from + first_separator(cs@.subrange(from as int, to as int)),
        r.0 > 0 ==> r.1 < to,
{
    let mut count: usize = 0;
    let mut first = to;
    let mut i = from;
    proof {
        assert(cs@.subrange(from as int, from as int) =~= Seq::<char>::empty());
    }
    while i < to
        invariant
            from <= i <= to <= cs@.len(),
            count == separator_count(cs@.subrange(from as int, i as int)),
            count <= i - from,
            (count == 0) == (first == to),
            first == to ==> forall|j: int| from <= j < i ==> !is_dimension_separator(#[trigger] cs@[j]),
            first != to ==> from <= first < i && is_dimension_separator(cs@[first as int]) && forall|
                j: int,
            |
                from <= j < first ==> !is_dimension_separator(#[trigger] cs@[j]),
        decreases to - i,
    {
        let c = cs[i];
        proof {
            assert(cs@.subrange(from as int, i + 1).drop_last() =~= cs@.subrange(from as int, i as int));
        }
        if c == 'x' || c == 'X' {
            count += 1;
            if first == to {
                first = i;
            }
        }
        i += 1;
    }
    proof {
        lemma_first_separator(cs@.subrange(from as int, to as int), first - from);
    }
    (count, first)
}

proof fn lemma_first_separator(s: Seq<char>, k: int)
    requires
        0 <= k <= s.len(),
        forall|j: int| 0 <= j < k ==> !is_dimension_separator(#[trigger] s[j]),
        k < s.len() ==> is_dimension_separator(s[k]),
    ensures
        first_separator(s) == k,
    decreases s.len(),
{
    if s.len() > 0 && k > 0 {
        assert(!is_dimension_separator(s[0]));
        lemma_first_separator(s.drop_first(), k - 1);
    }
}

/// Parses one dimension component `cs[from..to]` of `value`.
fn parse_dimension_in(
    value: &str,
    dimension: &'static str,
    cs: &[char],
    from: usize,
    to: usize,
) -> (r: Result<usize, BoardSizeParseError>)
    requires
        from <= to <= cs@.len(),
    ensures
        match dimension_value(cs@.subrange(from as int, to as int)) {
            Some(n) => r == Ok::<usize, BoardSizeParseError>(n as usize),
            None => r matches Err(e) && dimension_error_is(
                e,
                value@,
                dimension@,
                cs@.subrange(from as int, to as int),
            ),
        },
{
    let component = string_of_range(cs, from, to);
    let (a, b) = trim_range(cs, from, to);
    if a == b {
        return Err(BoardSizeParseError::MissingDimension { value: value.to_owned(), dimension });
    }
    if cs[a] == '-' {
        return Err(
            BoardSizeParseError::NegativeDimension { value: value.to_owned(), dimension, component },
        );
    }
    if !crate::text::all_digits_in(cs, a, b) {
        return Err(
            BoardSizeParseError::NonIntegerDimension { value: value.to_owned(), dimension, component },
        );
    }
    match decimal_in_range(cs, a, b, usize::MAX as u128) {
        Some(n) => Ok(n as usize),
        None => Err(
            BoardSizeParseError::DimensionTooLarge { value: value.to_owned(), dimension, component },
        ),
    }
}

/// The characters `cs[from..to]` as a `String`.
pub fn string_of_range(cs: &[char], from: usize, to: usize) -> (r: String)
    requires
        from <= to <= cs@.len(),
    ensures
        r@ == cs@.subrange(from as int, to as int),
{
    let mut s = String::new();
    let mut i = from;
    while i < to
        invariant
            from <= i <= to <= cs@.len(),
            s@ == cs@.subrange(from as int, i as int),
        decreases to - i,
    {
        push_char(&mut s, cs[i]);
        proof {
            assert(cs@.subrange(from as int, i + 1) =~= cs@.subrange(from as int, i as int).push(cs@[i as int]));
        }
        i += 1;
    }
    s
}

} // verus!
