//! Parsers for the values of command-line options: iteration counts,
//! memory sizes, initial-board sources and `--load-from` choices.
use vstd::prelude::*;

use crate::text::{
    all_digits, all_digits_in, char_is_digit, chars_of, decimal_in_range, decimal_value, is_digit,
    str_eq, trim, trim_range, trim_str,
};

verus! {

pub const DEFAULT_MAX_ITERATIONS: usize = 10;

pub const DEFAULT_MAX_BOARD_MEMORY_BYTES: usize = 64 * 1024 * 1024;

#[derive(Debug, Clone, PartialEq, Eq)]
pub enum IterationParseError {
    Empty,
    Negative { value: String },
    NonInteger { value: String },
    TooLarge { value: String },
}

#[derive(Debug, Clone, PartialEq, Eq)]
pub enum MemorySizeParseError {
    Empty,
    Negative { value: String },
    NonInteger { value: String },
    Zero { value: String },
    UnknownUnit { value: String, unit: String },
    TooLarge { value: String },
}

/// The iteration count `value` names, if it is a valid one.
pub open spec fn iterations_value(value: Seq<char>) -> Option<nat> {
    let t = trim(value);
    if t.len() > 0 && t[0] != '-' && all_digits(t) && decimal_value(t) <= usize::MAX {
        Some(decimal_value(t))
    } else {
        None
    }
}

/// The error reported for an invalid iteration count.
pub open spec fn iterations_error(e: IterationParseError, value: Seq<char>) -> bool {
    let t = trim(value);
    if t.len() == 0 {
        e is Empty
    } else if t[0] == '-' {
        e matches IterationParseError::Negative { value: v } && v@ == value
    } else if !all_digits(t) {
        e matches IterationParseError::NonInteger { value: v } && v@ == value
    } else {
        e matches IterationParseError::TooLarge { value: v } && v@ == value
    }
}

/// Parses a non-negative iteration count.
pub fn parse_max_iterations(value: &str) -> (r: Result<usize, IterationParseError>)
    ensures
        match iterations_value(value@) {
            Some(n) => r == Ok::<usize, IterationParseError>(n as usize),
            None => r matches Err(e) && iterations_error(e, value@),
        },
{
    let cs = chars_of(value);
    let (a, b) = trim_range(cs.as_slice(), 0, cs.len());
    proof {
        assert(cs@.subrange(0, cs@.len() as int) =~= value@);
    }
    if a == b {
        return Err(IterationParseError::Empty);
    }
    if cs[a] == '-' {
        return Err(IterationParseError::Negative { value: value.to_owned() });
    }
    if !all_digits_in(cs.as_slice(), a, b) {
        return Err(IterationParseError::NonInteger { value: value.to_owned() });
    }
    match decimal_in_range(cs.as_slice(), a, b, usize::MAX as u128) {
        Some(n) => Ok(n as usize),
        None => Err(IterationParseError::TooLarge { value: value.to_owned() }),
    }
}

/// Length of the run of ASCII digits at the start of `s`.
pub open spec fn leading_digits(s: Seq<char>) -> nat
    decreases s.len(),
{
    if s.len() > 0 && is_digit(s[0]) {
        1 + leading_digits(s.drop_first())
    } else {
        0
    }
}

/// The multiplier of a memory unit, compared without regard to ASCII case.
pub open spec fn unit_multiplier(u: Seq<char>) -> Option<nat> {
    let b = |c: char| c == 'b' || c == 'B';
    if u.len() == 0 || (u.len() == 1 && b(u[0])) {
        Some(1)
    } else if u.len() == 2 && b(u[1]) && (u[0] == 'k' || u[0] == 'K') {
        Some(1024)
    } else if u.len() == 2 && b(u[1]) && (u[0] == 'm' || u[0] == 'M') {
        Some(1024 * 1024)
    } else if u.len() == 2 && b(u[1]) && (u[0] == 'g' || u[0] == 'G') {
        Some(1024 * 1024 * 1024)
    } else {
        None
    }
}

/// The byte count `value` names, if it is a valid memory size: digits, then
/// an optional unit (B, KB, MB, GB in any case), positive and at most
/// `usize::MAX` bytes.
pub open spec fn memory_value(value: Seq<char>) -> Option<nat> {
    let t = trim(value);
    let n = leading_digits(t);
    let unit = trim(t.skip(n as int));
    let number = decimal_value(t.take(n as int));
    if t.len() > 0 && t[0] != '-' && n > 0 && !(unit.len() > 0 && unit[0] == '.') && number
        <= u128::MAX && number != 0 && unit_multiplier(unit) is Some && number * unit_multiplier(
        unit,
    )->0 <= usize::MAX {
        Some(number * unit_multiplier(unit)->0)
    } else {
        None
    }
}

/// A number followed by a unit (or by nothing) is read as the number times
/// the unit's multiplier.
proof fn lemma_memory_with_unit(d: Seq<char>, u: Seq<char>, m: nat)
    requires
        d.len() > 0,
        all_digits(d),
        decimal_value(d) > 0,
        u.len() == 0 || (!crate::text::is_ws(u[0]) && !is_digit(u[0]) && u[0] != '.' && !crate::text::is_ws(
            u.last(),
        )),
        unit_multiplier(u) == Some(m),
        decimal_value(d) * m <= usize::MAX,
    ensures
        memory_value(d + u) == Some(decimal_value(d) * m),
{
    let t = d + u;
    assert(is_digit(d[0]));
    assert(!crate::text::is_ws(t[0]));
    assert(!crate::text::is_ws(t.last())) by {
        if u.len() == 0 {
            assert(is_digit(d.last()));
        }
    }
    crate::text::lemma_trim_padded(Seq::empty(), t, Seq::empty());
    assert(Seq::<char>::empty() + t + Seq::<char>::empty() =~= t);
    assert(trim(t) == t);
    lemma_leading_digits(t, d.len() as int);
    assert(t.skip(d.len() as int) =~= u);
    assert(t.take(d.len() as int) =~= d);
    if u.len() > 0 {
        crate::text::lemma_trim_padded(Seq::empty(), u, Seq::empty());
        assert(Seq::<char>::empty() + u + Seq::<char>::empty() =~= u);
    }
    assert(decimal_value(d) * m >= decimal_value(d)) by (nonlinear_arith)
        requires
            m >= 1,
    ;
}

/// Memory sizes count bytes, each unit 1024 times the one below: digits
/// naming a positive number `n` read as `n` bytes alone or with `B`, as
/// `1024 n` with `KB`, `1024² n` with `MB` and `1024³ n` with `GB`, in
/// either case, whenever the bytes fit in `usize`.
pub proof fn lemma_memory_units(d: Seq<char>)
    requires
        d.len() > 0,
        all_digits(d),
        decimal_value(d) > 0,
        decimal_value(d) * 1024 * 1024 * 1024 <= usize::MAX,
    ensures
        memory_value(d) == Some(decimal_value(d)),
        memory_value(d + "B"@) == Some(decimal_value(d)),
        memory_value(d + "b"@) == Some(decimal_value(d)),
        memory_value(d + "KB"@) == Some(1024 * decimal_value(d)),
        memory_value(d + "kb"@) == Some(1024 * decimal_value(d)),
        memory_value(d + "MB"@) == Some(1024 * 1024 * decimal_value(d)),
        memory_value(d + "mb"@) == Some(1024 * 1024 * decimal_value(d)),
        memory_value(d + "GB"@) == Some(1024 * 1024 * 1024 * decimal_value(d)),
        memory_value(d + "gb"@) == Some(1024 * 1024 * 1024 * decimal_value(d)),
{
    reveal_strlit("B");
    reveal_strlit("b");
    reveal_strlit("KB");
    reveal_strlit("kb");
    reveal_strlit("MB");
    reveal_strlit("mb");
    reveal_strlit("GB");
    reveal_strlit("gb");
    let n = decimal_value(d);
    assert(n * 1 <= usize::MAX && n * 1024 <= usize::MAX && n * (1024 * 1024) <= usize::MAX && n * (1024
        * 1024 * 1024) <= usize::MAX) by (nonlinear_arith)
        requires
            n * 1024 * 1024 * 1024 <= usize::MAX,
            n > 0,
    ;
    lemma_memory_with_unit(d, Seq::empty(), 1);
    assert(d + Seq::<char>::empty() =~= d);
    lemma_memory_with_unit(d, "B"@, 1);
    lemma_memory_with_unit(d, "b"@, 1);
    lemma_memory_with_unit(d, "KB"@, 1024);
    lemma_memory_with_unit(d, "kb"@, 1024);
    lemma_memory_with_unit(d, "MB"@, 1024 * 1024);
    lemma_memory_with_unit(d, "mb"@, 1024 * 1024);
    lemma_memory_with_unit(d, "GB"@, 1024 * 1024 * 1024);
    lemma_memory_with_unit(d, "gb"@, 1024 * 1024 * 1024);
    assert(n * (1024 * 1024) == 1024 * 1024 * n && n * (1024 * 1024 * 1024) == 1024 * 1024 * 1024 * n)
        by (nonlinear_arith);
}

/// The error reported for an invalid memory size.
pub open spec fn memory_error(e: MemorySizeParseError, value: Seq<char>) -> bool {
    let t = trim(value);
    let n = leading_digits(t);
    let unit = trim(t.skip(n as int));
    let number = decimal_value(t.take(n as int));
    if t.len() == 0 {
        e is Empty
    } else if t[0] == '-' {
        e matches MemorySizeParseError::Negative { value: v } && v@ == value
    } else if n == 0 || (unit.len() > 0 && unit[0] == '.') {
        e matches MemorySizeParseError::NonInteger { value: v } && v@ == value
    } else if number > u128::MAX {
        e matches MemorySizeParseError::TooLarge { value: v } && v@ == value
    } else if number == 0 {
        e matches MemorySizeParseError::Zero { value: v } && v@ == value
    } else if unit_multiplier(unit) is None {
        e matches MemorySizeParseError::UnknownUnit { value: v, unit: u } && v@ == value && u@
            == unit
    } else {
        e matches MemorySizeParseError::TooLarge { value: v } && v@ == value
    }
}

/// Number of ASCII digits at the start of `cs[from..to]`.
fn count_leading_digits(cs: &[char], from: usize, to: usize) -> (r: usize)
    requires
        from <= to <= cs@.len(),
    ensures
        from + r <= to,
        r == leading_digits(cs@.subrange(from as int, to as int)),
        all_digits(cs@.subrange(from as int, from + r)),
{
    let mut i = from;
    while i < to && char_is_digit(cs[i])
        invariant
            from <= i <= to <= cs@.len(),
            forall|j: int| from <= j < i ==> is_digit(#[trigger] cs@[j]),
        decreases to - i,
    {
        i += 1;
    }
    proof {
        lemma_leading_digits(cs@.subrange(from as int, to as int), i - from);
        assert forall|j: int| 0 <= j < i - from implies is_digit(
            #[trigger] cs@.subrange(from as int, i as int)[j],
        ) by {
            assert(cs@.subrange(from as int, i as int)[j] == cs@[from + j]);
        }
    }
    i - from
}

proof fn lemma_leading_digits(s: Seq<char>, k: int)
    requires
        0 <= k <= s.len(),
        forall|j: int| 0 <= j < k ==> is_digit(#[trigger] s[j]),
        k < s.len() ==> !is_digit(s[k]),
    ensures
        leading_digits(s) == k,
    decreases s.len(),
{
    if k > 0 {
        assert(is_digit(s[0]));
        assert forall|j: int| 0 <= j < k - 1 implies is_digit(#[trigger] s.drop_first()[j]) by {
            assert(s.drop_first()[j] == s[j + 1]);
        }
        lemma_leading_digits(s.drop_first(), k - 1);
    }
}

/// The multiplier of the unit `cs[from..to]`.
fn unit_of(cs: &[char], from: usize, to: usize) -> (r: Option<u128>)
    requires
        from <= to <= cs@.len(),
    ensures
        match unit_multiplier(cs@.subrange(from as int, to as int)) {
            Some(m) => r == Some(m as u128),
            None => r is None,
        },
{
    let n = to - from;
    if n == 0 {
        return Some(1);
    }
    let last = cs[to - 1];
    let ends_in_b = last == 'b' || last == 'B';
    if n == 1 {
        return if ends_in_b {
            Some(1)
        } else {
            None
        };
    }
    if n != 2 || !ends_in_b {
        return None;
    }
    let c = cs[from];
    if c == 'k' || c == 'K' {
        Some(1024)
    } else if c == 'm' || c == 'M' {
        Some(1024 * 1024)
    } else if c == 'g' || c == 'G' {
        Some(1024 * 1024 * 1024)
    } else {
        None
    }
}

/// Parses a memory size such as `64MB`, `512kb` or `1048576`.
pub fn parse_memory_size(value: &str) -> (r: Result<usize, MemorySizeParseError>)
    ensures
        match memory_value(value@) {
            Some(n) => r == Ok::<usize, MemorySizeParseError>(n as usize),
            None => r matches Err(e) && memory_error(e, value@),
        },
{
    let cs = chars_of(value);
    let (a, b) = trim_range(cs.as_slice(), 0, cs.len());
    proof {
        assert(cs@.subrange(0, cs@.len() as int) =~= value@);
    }
    let ghost t = cs@.subrange(a as int, b as int);
    if a == b {
        return Err(MemorySizeParseError::Empty);
    }
    if cs[a] == '-' {
        return Err(MemorySizeParseError::Negative { value: value.to_owned() });
    }
    let n = count_leading_digits(cs.as_slice(), a, b);
    let (ua, ub) = trim_range(cs.as_slice(), a + n, b);
    proof {
        assert(t.skip(n as int) =~= cs@.subrange(a + n, b as int));
        assert(t.take(n as int) =~= cs@.subrange(a as int, a + n));
    }
    if n == 0 || (ua < ub && cs[ua] == '.') {
        return Err(MemorySizeParseError::NonInteger { value: value.to_owned() });
    }
    let number = match decimal_in_range(cs.as_slice(), a, a + n, u128::MAX) {
        Some(v) => v,
        None => {
            return Err(MemorySizeParseError::TooLarge { value: value.to_owned() });
        },
    };
    if number == 0 {
        return Err(MemorySizeParseError::Zero { value: value.to_owned() });
    }
    let multiplier = match unit_of(cs.as_slice(), ua, ub) {
        Some(m) => m,
        None => {
            let unit = crate::board::board_size::string_of_range(cs.as_slice(), ua, ub);
            return Err(MemorySizeParseError::UnknownUnit { value: value.to_owned(), unit });
        },
    };
    match number.checked_mul(multiplier) {
        Some(bytes) => {
            if bytes > usize::MAX as u128 {
                Err(MemorySizeParseError::TooLarge { value: value.to_owned() })
            } else {
                Ok(bytes as usize)
            }
        },
        None => Err(MemorySizeParseError::TooLarge { value: value.to_owned() }),
    }
}

/// Which board of a run record to load.
#[derive(Debug, Clone, Copy, PartialEq, Eq, Structural)]
pub enum LoadFrom {
    Initial,
    Final,
}

#[derive(Debug, Clone, PartialEq, Eq)]
pub enum LoadFromParseError {
    Unsupported { value: String },
}

/// The `--load-from` choice `value` names.
pub open spec fn load_from_value(value: Seq<char>) -> Option<LoadFrom> {
    if trim(value) == "initial"@ {
        Some(LoadFrom::Initial)
    } else if trim(value) == "final"@ {
        Some(LoadFrom::Final)
    } else {
        None
    }
}

impl LoadFrom {
    /// Parses `initial` or `final` (white space around it ignored).
    pub fn parse(value: &str) -> (r: Result<Self, LoadFromParseError>)
        ensures
            match load_from_value(value@) {
                Some(l) => r == Ok::<LoadFrom, LoadFromParseError>(l),
                None => r matches Err(LoadFromParseError::Unsupported { value: v }) && v@ == trim(
                    value@,
                ),
            },
    {
        let t = trim_str(value);
        if str_eq(t, "initial") {
            Ok(LoadFrom::Initial)
        } else if str_eq(t, "final") {
            Ok(LoadFrom::Final)
        } else {
            Err(LoadFromParseError::Unsupported { value: t.to_owned() })
        }
    }

    /// The name of the choice.
    pub fn as_str(&self) -> (r: &'static str)
        ensures
            r@ == (match self {
                LoadFrom::Initial => "initial"@,
                LoadFrom::Final => "final"@,
            }),
    {
        match self {
            LoadFrom::Initial => "initial",
            LoadFrom::Final => "final",
        }
    }
}

impl Default for LoadFrom {
    fn default() -> (r: Self)
        ensures
            r == LoadFrom::Initial,
    {
        LoadFrom::Initial
    }
}

/// A built-in initial board.
#[derive(Debug, Clone, Copy, PartialEq, Eq, Structural)]
pub enum InitialBoardSource {
    Demo,
    Alive,
    Blinker,
    Random,
}

#[derive(Debug, Clone, PartialEq, Eq)]
pub enum InitialBoardSourceParseError {
    Unsupported { value: String },
}

pub const SUPPORTED_INITIAL_BOARD_VALUES: &'static str = "demo, alive, blinker, random";

/// The source that `value` names.
pub open spec fn initial_board_value(value: Seq<char>) -> Option<InitialBoardSource> {
    let t = trim(value);
    if t == "demo"@ {
        Some(InitialBoardSource::Demo)
    } else if t == "alive"@ {
        Some(InitialBoardSource::Alive)
    } else if t == "blinker"@ {
        Some(InitialBoardSource::Blinker)
    } else if t == "random"@ {
        Some(InitialBoardSource::Random)
    } else {
        None
    }
}

/// The name of a source.
pub open spec fn source_name(s: InitialBoardSource) -> Seq<char> {
    match s {
        InitialBoardSource::Demo => "demo"@,
        InitialBoardSource::Alive => "alive"@,
        InitialBoardSource::Blinker => "blinker"@,
        InitialBoardSource::Random => "random"@,
    }
}

/// Every source is read back from its name, with any white space around it.
pub proof fn lemma_source_name_parses(s: InitialBoardSource, pre: Seq<char>, post: Seq<char>)
    requires
        forall|i: int| 0 <= i < pre.len() ==> crate::text::is_ws(#[trigger] pre[i]),
        forall|i: int| 0 <= i < post.len() ==> crate::text::is_ws(#[trigger] post[i]),
    ensures
        initial_board_value(pre + source_name(s) + post) == Some(s),
{
    reveal_strlit("demo");
    reveal_strlit("alive");
    reveal_strlit("blinker");
    reveal_strlit("random");
    let n = source_name(s);
    crate::text::lemma_trim_padded(pre, n, post);
    assert("demo"@.len() == 4 && "alive"@.len() == 5 && "blinker"@.len() == 7 && "random"@.len() == 6);
}

impl InitialBoardSource {
    /// Parses `demo`, `alive`, `blinker` or `random` (white space around it
    /// ignored).
    pub fn parse(value: &str) -> (r: Result<Self, InitialBoardSourceParseError>)
        ensures
            match initial_board_value(value@) {
                Some(s) => r == Ok::<InitialBoardSource, InitialBoardSourceParseError>(s),
                None => r matches Err(InitialBoardSourceParseError::Unsupported { value: v }) && v@
                    == value@,
            },
    {
        let t = trim_str(value);
        if str_eq(t, "demo") {
            Ok(InitialBoardSource::Demo)
        } else if str_eq(t, "alive") {
            Ok(InitialBoardSource::Alive)
        } else if str_eq(t, "blinker") {
            Ok(InitialBoardSource::Blinker)
        } else if str_eq(t, "random") {
            Ok(InitialBoardSource::Random)
        } else {
            Err(InitialBoardSourceParseError::Unsupported { value: value.to_owned() })
        }
    }

    /// The name of the source.
    pub fn as_str(&self) -> (r: &'static str)
        ensures
            r@ == source_name(*self),
    {
        match self {
            InitialBoardSource::Demo => "demo",
            InitialBoardSource::Alive => "alive",
            InitialBoardSource::Blinker => "blinker",
            InitialBoardSource::Random => "random",
        }
    }
}

impl Default for InitialBoardSource {
    fn default() -> (r: Self)
        ensures
            r == InitialBoardSource::Demo,
    {
        InitialBoardSource::Demo
    }
}

/// Whether a run record's content hash is checked when it is read.
#[derive(Debug, Clone, Copy, PartialEq, Eq, Structural)]
pub enum IntegrityMode {
    Enforce,
    Ignore,
}

impl IntegrityMode {
    /// The run record reader's mode for this setting.
    pub fn to_content_hash_mode(self) -> (r: crate::persistence::run_record::ContentHashMode)
        ensures
            self == IntegrityMode::Enforce ==> r == crate::persistence::run_record::ContentHashMode::Enforce,
            self == IntegrityMode::Ignore ==> r == crate::persistence::run_record::ContentHashMode::Ignore,
    {
        match self {
            IntegrityMode::Enforce => crate::persistence::run_record::ContentHashMode::Enforce,
            IntegrityMode::Ignore => crate::persistence::run_record::ContentHashMode::Ignore,
        }
    }
}

impl Default for IntegrityMode {
    fn default() -> (r: Self)
        ensures
            r == IntegrityMode::Enforce,
    {
        IntegrityMode::Enforce
    }
}

} // verus!
