//! The messages shown for the persistence errors.
use vstd::prelude::*;

use super::board_snapshot::{
    BoardSnapshotReadError, BoardSnapshotWriteError, LoadedBoardSizeError, SuggestedMemoryOverride,
};
use super::errors::PersistenceIoError;
use super::hash::{format_hash, hash_text, HashParseError};
use super::magic::{FileKind, MagicError};
use super::parser::{ParseError, ParseLocation};
use super::run_id::{format_run_id, run_id_text, RunIdParseError};
use super::run_record::{ExtractBoardError, RunRecordReadError, RunRecordWriteError};
use super::timestamps::TimestampParseError;
use crate::config::messages::push_decimal;
use crate::text::{decimal_digits, push_char, push_str};

verus! {

fn push_usize(s: &mut String, n: usize)
    ensures
        final(s)@ == old(s)@ + decimal_digits(n as nat),
{
    push_decimal(s, n as u64);
}

/// The shortest decimal digits of a 128-bit number.
fn decimal_wide(n: u128) -> (r: Vec<char>)
    ensures
        r@ == decimal_digits(n as nat),
    decreases n,
{
    if n < 10 {
        let c = ((n as u8) + 48u8) as char;
        let mut v = Vec::new();
        v.push(c);
        proof {
            assert(v@ =~= seq![crate::text::digit_char(n as nat)]);
        }
        v
    } else {
        let mut v = decimal_wide(n / 10);
        let c = (((n % 10) as u8) + 48u8) as char;
        v.push(c);
        v
    }
}

/// The hexadecimal digit for `d`, upper case.
pub open spec fn upper_hex_char(d: nat) -> char {
    if d < 10 {
        (('0' as int) + d) as char
    } else {
        (('A' as int) + d - 10) as char
    }
}

/// The hexadecimal digit for `d`, lower case.
pub open spec fn lower_hex_char(d: nat) -> char {
    crate::text::hex_char(d)
}

/// The hexadecimal digits of `n`, at least `min` of them (zeros in front).
pub open spec fn hex_text(n: nat, min: nat, upper: bool) -> Seq<char>
    decreases n, min,
{
    let last = if upper {
        upper_hex_char(n % 16)
    } else {
        lower_hex_char(n % 16)
    };
    if n < 16 && min <= 1 {
        seq![last]
    } else {
        hex_text(n / 16, if min > 0 { (min - 1) as nat } else { 0 }, upper).push(last)
    }
}

fn hex_chars(n: u32, min: u32, upper: bool) -> (r: Vec<char>)
    ensures
        r@ == hex_text(n as nat, min as nat, upper),
    decreases n, min,
{
    let d = (n % 16) as u8;
    let last = if d < 10 {
        (d + 48u8) as char
    } else if upper {
        (d - 10 + 65u8) as char
    } else {
        (d - 10 + 97u8) as char
    };
    proof {
        assert(last == if upper {
            upper_hex_char(n as nat % 16)
        } else {
            lower_hex_char(n as nat % 16)
        });
    }
    if n < 16 && min <= 1 {
        let mut v = Vec::new();
        v.push(last);
        proof {
            assert(v@ =~= seq![last]);
        }
        v
    } else {
        let mut v = hex_chars(
            n / 16,
            if min > 0 {
                min - 1
            } else {
                0
            },
            upper,
        );
        v.push(last);
        v
    }
}

/// How `char::escape_default` writes a character: the usual backslash
/// escapes, printable ASCII as it is, anything else as `\u{..}`.
pub open spec fn escaped(c: char) -> Seq<char> {
    if c == '\t' {
        seq!['\\', 't']
    } else if c == '\r' {
        seq!['\\', 'r']
    } else if c == '\n' {
        seq!['\\', 'n']
    } else if c == '\\' || c == '\'' || c == '"' {
        seq!['\\', c]
    } else if ' ' <= c <= '~' {
        seq![c]
    } else {
        seq!['\\', 'u', '{'] + hex_text(c as nat, 1, false) + seq!['}']
    }
}

fn push_escaped(s: &mut String, c: char)
    ensures
        final(s)@ == old(s)@ + escaped(c),
{
    let ghost start = s@;
    if c == '\t' {
        push_str(s, "\\t");
    } else if c == '\r' {
        push_str(s, "\\r");
    } else if c == '\n' {
        push_str(s, "\\n");
    } else if c == '\\' || c == '\'' || c == '"' {
        push_char(s, '\\');
        push_char(s, c);
    } else if ' ' <= c && c <= '~' {
        push_char(s, c);
    } else {
        push_str(s, "\\u{");
        crate::text::push_chars(s, hex_chars(c as u32, 1, false).as_slice());
        push_char(s, '}');
    }
    proof {
        reveal_strlit("\\t");
        reveal_strlit("\\r");
        reveal_strlit("\\n");
        reveal_strlit("\\u{");
        assert(s@ =~= start + escaped(c));
    }
}

pub open spec fn location_text(l: ParseLocation) -> Seq<char> {
    l.path@ + ":"@ + decimal_digits(l.line_number as nat)
}

impl ParseLocation {
    /// `path:line`.
    pub fn to_text(&self) -> (r: String)
        ensures
            r@ == location_text(*self),
    {
        let mut s = String::new();
        push_str(&mut s, self.path.as_str());
        push_str(&mut s, ":");
        push_usize(&mut s, self.line_number);
        s
    }
}

fn push_location(s: &mut String, l: &ParseLocation)
    ensures
        final(s)@ == old(s)@ + location_text(*l),
{
    push_str(s, l.path.as_str());
    push_str(s, ":");
    push_usize(s, l.line_number);
    proof {
        assert(final(s)@ =~= old(s)@ + location_text(*l));
    }
}

pub open spec fn parse_error_text(e: ParseError) -> Seq<char> {
    match e {
        ParseError::UnexpectedEnd { location, expected } => "Unexpected end of file at "@ + location_text(
            location,
        ) + "; expected "@ + expected@ + "."@,
        ParseError::MalformedFieldLine { location, line } => "Malformed field line at "@ + location_text(
            location,
        ) + ": '"@ + line@ + "'. Expected 'key: value'."@,
        ParseError::DuplicateField { location, field } => "Duplicate field '"@ + field@ + "' at "@
            + location_text(location) + "."@,
        ParseError::MissingRequiredField { section, field } => "Section ["@ + section@
            + "] is missing required field '"@ + field@ + "'."@,
        ParseError::MalformedSectionHeader { location, line } => "Malformed section header at "@
            + location_text(location) + ": '"@ + line@ + "'. Expected '[name]'."@,
        ParseError::UnexpectedSection { location, section } => "Unexpected section ["@ + section@
            + "] at "@ + location_text(location) + "."@,
        ParseError::MalformedFence { location, line } => "Malformed fence line at "@ + location_text(
            location,
        ) + ": '"@ + line@
            + "'. Expected '----- BEGIN <LABEL> -----' or '----- END <LABEL> -----'."@,
        ParseError::UnexpectedFenceLabel { location, expected, actual } => "Fence label mismatch at "@
            + location_text(location) + ": expected '"@ + expected@ + "', found '"@ + actual@ + "'."@,
        ParseError::UnclosedFence { location, expected_end_label } => "Unclosed fence at "@
            + location_text(location) + "; expected '----- END "@ + expected_end_label@ + " -----'."@,
        ParseError::NonAsciiBoardCharacter { location, character } => "Board grid at "@ + location_text(
            location,
        ) + " contains non-ASCII character '"@ + escaped(character) + "' (U+"@ + hex_text(
            character as nat,
            4,
            true,
        ) + ")."@,
        ParseError::UnknownBoardCharacter { location, character } => "Board grid at "@ + location_text(
            location,
        ) + " contains unknown character '"@ + escaped(character)
            + "'; allowed characters are '.' (dead) and '#' (alive)."@,
        ParseError::RaggedBoardRow { location, expected_width, actual_width } => "Board row at "@
            + location_text(location) + " has width "@ + decimal_digits(actual_width as nat)
            + "; expected "@ + decimal_digits(expected_width as nat) + " based on the first row."@,
        ParseError::BoardSizeMismatch { location, header_size, grid_size } => "Board size mismatch at "@
            + location_text(location) + ": header declared "@ + decimal_digits(header_size[0] as nat)
            + "x"@ + decimal_digits(header_size[1] as nat) + " but grid is "@ + decimal_digits(
            grid_size[0] as nat,
        ) + "x"@ + decimal_digits(grid_size[1] as nat) + "."@,
        ParseError::BoardCountMismatch { location, field, header_value, grid_value } => "Board "@ + field@
            + " mismatch at "@ + location_text(location) + ": header declared "@ + decimal_digits(
            header_value as nat,
        ) + " but grid contains "@ + decimal_digits(grid_value as nat) + "."@,
        ParseError::UnknownEncoding { location, encoding } => "Unknown board encoding '"@ + encoding@
            + "' at "@ + location_text(location) + "; supported encodings: ascii."@,
        ParseError::UnsupportedSchemaVersion { location, version } => "Unsupported schema version "@
            + decimal_digits(version as nat) + " at "@ + location_text(location)
            + "; this tool supports schema version 1."@,
    }
}

impl ParseError {
    #[verifier::rlimit(40)]
    pub fn message(&self) -> (r: String)
        ensures
            r@ == parse_error_text(*self),
    {
        let mut s = String::new();
        match self {
            ParseError::UnexpectedEnd { location, expected } => {
                push_str(&mut s, "Unexpected end of file at ");
                push_location(&mut s, location);
                push_str(&mut s, "; expected ");
                push_str(&mut s, expected.as_str());
                push_str(&mut s, ".");
            },
            ParseError::MalformedFieldLine { location, line } => {
                push_str(&mut s, "Malformed field line at ");
                push_location(&mut s, location);
                push_str(&mut s, ": '");
                push_str(&mut s, line.as_str());
                push_str(&mut s, "'. Expected 'key: value'.");
            },
            ParseError::DuplicateField { location, field } => {
                push_str(&mut s, "Duplicate field '");
                push_str(&mut s, field.as_str());
                push_str(&mut s, "' at ");
                push_location(&mut s, location);
                push_str(&mut s, ".");
            },
            ParseError::MissingRequiredField { section, field } => {
                push_str(&mut s, "Section [");
                push_str(&mut s, section.as_str());
                push_str(&mut s, "] is missing required field '");
                push_str(&mut s, field.as_str());
                push_str(&mut s, "'.");
            },
            ParseError::MalformedSectionHeader { location, line } => {
                push_str(&mut s, "Malformed section header at ");
                push_location(&mut s, location);
                push_str(&mut s, ": '");
                push_str(&mut s, line.as_str());
                push_str(&mut s, "'. Expected '[name]'.");
            },
            ParseError::UnexpectedSection { location, section } => {
                push_str(&mut s, "Unexpected section [");
                push_str(&mut s, section.as_str());
                push_str(&mut s, "] at ");
                push_location(&mut s, location);
                push_str(&mut s, ".");
            },
            ParseError::MalformedFence { location, line } => {
                push_str(&mut s, "Malformed fence line at ");
                push_location(&mut s, location);
                push_str(&mut s, ": '");
                push_str(&mut s, line.as_str());
                push_str(
                    &mut s,
                    "'. Expected '----- BEGIN <LABEL> -----' or '----- END <LABEL> -----'.",
                );
            },
            ParseError::UnexpectedFenceLabel { location, expected, actual } => {
                push_str(&mut s, "Fence label mismatch at ");
                push_location(&mut s, location);
                push_str(&mut s, ": expected '");
                push_str(&mut s, expected.as_str());
                push_str(&mut s, "', found '");
                push_str(&mut s, actual.as_str());
                push_str(&mut s, "'.");
            },
            ParseError::UnclosedFence { location, expected_end_label } => {
                push_str(&mut s, "Unclosed fence at ");
                push_location(&mut s, location);
                push_str(&mut s, "; expected '----- END ");
                push_str(&mut s, expected_end_label.as_str());
                push_str(&mut s, " -----'.");
            },
            ParseError::NonAsciiBoardCharacter { location, character } => {
                push_str(&mut s, "Board grid at ");
                push_location(&mut s, location);
                push_str(&mut s, " contains non-ASCII character '");
                push_escaped(&mut s, *character);
                push_str(&mut s, "' (U+");
                crate::text::push_chars(&mut s, hex_chars(*character as u32, 4, true).as_slice());
                push_str(&mut s, ").");
            },
            ParseError::UnknownBoardCharacter { location, character } => {
                push_str(&mut s, "Board grid at ");
                push_location(&mut s, location);
                push_str(&mut s, " contains unknown character '");
                push_escaped(&mut s, *character);
                push_str(&mut s, "'; allowed characters are '.' (dead) and '#' (alive).");
            },
            ParseError::RaggedBoardRow { location, expected_width, actual_width } => {
                push_str(&mut s, "Board row at ");
                push_location(&mut s, location);
                push_str(&mut s, " has width ");
                push_usize(&mut s, *actual_width);
                push_str(&mut s, "; expected ");
                push_usize(&mut s, *expected_width);
                push_str(&mut s, " based on the first row.");
            },
            ParseError::BoardSizeMismatch { location, header_size, grid_size } => {
                push_str(&mut s, "Board size mismatch at ");
                push_location(&mut s, location);
                push_str(&mut s, ": header declared ");
                push_usize(&mut s, header_size[0]);
                push_str(&mut s, "x");
                push_usize(&mut s, header_size[1]);
                push_str(&mut s, " but grid is ");
                push_usize(&mut s, grid_size[0]);
                push_str(&mut s, "x");
                push_usize(&mut s, grid_size[1]);
                push_str(&mut s, ".");
            },
            ParseError::BoardCountMismatch { location, field, header_value, grid_value } => {
                push_str(&mut s, "Board ");
                push_str(&mut s, field);
                push_str(&mut s, " mismatch at ");
                push_location(&mut s, location);
                push_str(&mut s, ": header declared ");
                push_usize(&mut s, *header_value);
                push_str(&mut s, " but grid contains ");
                push_usize(&mut s, *grid_value);
                push_str(&mut s, ".");
            },
            ParseError::UnknownEncoding { location, encoding } => {
                push_str(&mut s, "Unknown board encoding '");
                push_str(&mut s, encoding.as_str());
                push_str(&mut s, "' at ");
                push_location(&mut s, location);
                push_str(&mut s, "; supported encodings: ascii.");
            },
            ParseError::UnsupportedSchemaVersion { location, version } => {
                push_str(&mut s, "Unsupported schema version ");
                push_decimal(&mut s, *version as u64);
                push_str(&mut s, " at ");
                push_location(&mut s, location);
                push_str(&mut s, "; this tool supports schema version 1.");
            },
        }
        proof {
            assert(s@ =~= parse_error_text(*self));
        }
        s
    }
}

/// The text of an I/O error, as its `Display` writes it
/// (`std::io::Error::to_string`).
///
/// Nothing is promised of the text: it comes from the operating system.
#[verifier::external_body]
pub(crate) fn io_error_text(e: &std::io::Error) -> String {
    e.to_string()
}

/// Whether `r` is `text`, or, when `exact` is false, starts with it (the
/// rest being the operating system's description of an I/O error).
pub open spec fn describes(r: Seq<char>, text: Seq<char>, exact: bool) -> bool {
    if exact {
        r == text
    } else {
        text.len() <= r.len() && r.take(text.len() as int) == text
    }
}

pub open spec fn io_error_prefix(e: PersistenceIoError) -> Seq<char> {
    "I/O error while "@ + e.operation@ + " '"@ + e.path@ + "': "@
}

impl PersistenceIoError {
    /// `I/O error while <operation> '<path>': ` and the system's description.
    pub fn message(&self) -> (r: String)
        ensures
            describes(r@, io_error_prefix(*self), false),
    {
        let mut s = String::new();
        push_str(&mut s, "I/O error while ");
        push_str(&mut s, self.operation);
        push_str(&mut s, " '");
        push_str(&mut s, self.path.as_str());
        push_str(&mut s, "': ");
        let ghost prefix = s@;
        push_str(&mut s, io_error_text(&self.source).as_str());
        proof {
            assert(s@.take(prefix.len() as int) =~= prefix);
        }
        s
    }
}

fn push_io(s: &mut String, e: &PersistenceIoError)
    ensures
        describes(final(s)@, old(s)@ + io_error_prefix(*e), false),
{
    let ghost start = s@;
    let m = e.message();
    push_str(s, m.as_str());
    proof {
        let p = io_error_prefix(*e);
        assert((start + m@).take((start + p).len() as int) =~= start + p) by {
            assert(m@.take(p.len() as int) == p);
            assert forall|i: int| 0 <= i < (start + p).len() implies (start + m@).take((start + p).len() as int)[i] == (start + p)[i] by {
                if i >= start.len() {
                    assert(m@[i - start.len()] == m@.take(p.len() as int)[i - start.len()]);
                }
            }
        }
    }
}

pub const ACCEPTED_MAGIC_DISPLAY: &'static str = "`GOL-RUN-RECORD v1`, `GOL-RUN-RECORD v2`, or `GOL-BOARD-SNAPSHOT v1`";

/// A found first line as shown: at most 64 characters, then an ellipsis.
pub open spec fn truncated(s: Seq<char>) -> Seq<char> {
    if s.len() <= 64 {
        s
    } else {
        s.take(64).push('\u{2026}')
    }
}

fn push_truncated(s: &mut String, t: &str)
    ensures
        final(s)@ == old(s)@ + truncated(t@),
{
    let cs = crate::text::chars_of(t);
    if cs.len() <= 64 {
        push_str(s, t);
    } else {
        let ghost start = s@;
        let mut i: usize = 0;
        while i < 64
            invariant
                cs@ == t@,
                cs@.len() > 64,
                i <= 64,
                s@ == start + cs@.take(i as int),
            decreases 64 - i,
        {
            push_char(s, cs[i]);
            i += 1;
            proof {
                assert(s@ =~= start + cs@.take(i as int));
            }
        }
        push_char(s, '\u{2026}');
    }
}

pub open spec fn magic_error_text(e: MagicError) -> Seq<char> {
    match e {
        MagicError::Io(x) => io_error_prefix(x),
        MagicError::EmptyFile { path } => "File '"@ + path@
            + "' is empty; not a Game of Life file (expected first line "@ + ACCEPTED_MAGIC_DISPLAY@ + ")."@,
        MagicError::UnknownMagic { path, found } => "File '"@ + path@
            + "' is not a Game of Life file: first line was `"@ + truncated(found@) + "`, expected "@
            + ACCEPTED_MAGIC_DISPLAY@ + "."@,
        MagicError::OversizedFirstLine { path, scanned_bytes } => "File '"@ + path@
            + "' is not a Game of Life file: no newline found in the first "@ + decimal_digits(
            scanned_bytes as nat,
        ) + " bytes; expected first line "@ + ACCEPTED_MAGIC_DISPLAY@ + "."@,
    }
}

impl MagicError {
    pub fn message(&self) -> (r: String)
        ensures
            describes(r@, magic_error_text(*self), !(self is Io)),
    {
        let mut s = String::new();
        match self {
            MagicError::Io(e) => {
                push_io(&mut s, e);
                proof {
                    assert(Seq::<char>::empty() + io_error_prefix(*e) =~= io_error_prefix(*e));
                }
            },
            MagicError::EmptyFile { path } => {
                push_str(&mut s, "File '");
                push_str(&mut s, path.as_str());
                push_str(&mut s, "' is empty; not a Game of Life file (expected first line ");
                push_str(&mut s, ACCEPTED_MAGIC_DISPLAY);
                push_str(&mut s, ").");
            },
            MagicError::UnknownMagic { path, found } => {
                push_str(&mut s, "File '");
                push_str(&mut s, path.as_str());
                push_str(&mut s, "' is not a Game of Life file: first line was `");
                push_truncated(&mut s, found.as_str());
                push_str(&mut s, "`, expected ");
                push_str(&mut s, ACCEPTED_MAGIC_DISPLAY);
                push_str(&mut s, ".");
            },
            MagicError::OversizedFirstLine { path, scanned_bytes } => {
                push_str(&mut s, "File '");
                push_str(&mut s, path.as_str());
                push_str(&mut s, "' is not a Game of Life file: no newline found in the first ");
                push_usize(&mut s, *scanned_bytes);
                push_str(&mut s, " bytes; expected first line ");
                push_str(&mut s, ACCEPTED_MAGIC_DISPLAY);
                push_str(&mut s, ".");
            },
        }
        s
    }
}

pub open spec fn timestamp_error_text(e: TimestampParseError) -> Seq<char> {
    match e {
        TimestampParseError::WrongLength { value, actual } => "timestamp '"@ + value@ + "' has "@
            + decimal_digits(actual as nat) + " characters; expected 20 in the form YYYY-MM-DDTHH:MM:SSZ"@,
        TimestampParseError::MissingDateSeparator { value } => "timestamp '"@ + value@
            + "' is missing a '-' between date parts (expected YYYY-MM-DDTHH:MM:SSZ)"@,
        TimestampParseError::MissingDateTimeSeparator { value } => "timestamp '"@ + value@
            + "' is missing the 'T' between date and time (expected YYYY-MM-DDTHH:MM:SSZ)"@,
        TimestampParseError::MissingTimeSeparator { value } => "timestamp '"@ + value@
            + "' is missing a ':' between time parts (expected YYYY-MM-DDTHH:MM:SSZ)"@,
        TimestampParseError::MissingZuluSuffix { value } => "timestamp '"@ + value@
            + "' is missing the trailing 'Z'; UTC-only timestamps are required (YYYY-MM-DDTHH:MM:SSZ)"@,
        TimestampParseError::NonNumericField { value, field } => "timestamp '"@ + value@
            + "' has non-numeric "@ + field@,
        TimestampParseError::FieldOutOfRange { value, field } => "timestamp '"@ + value@
            + "' has out-of-range "@ + field@,
        TimestampParseError::BeforeUnixEpoch { value } => "timestamp '"@ + value@
            + "' is before the Unix epoch (1970-01-01T00:00:00Z); not supported"@,
    }
}

impl TimestampParseError {
    pub fn message(&self) -> (r: String)
        ensures
            r@ == timestamp_error_text(*self),
    {
        let mut s = String::new();
        push_str(&mut s, "timestamp '");
        match self {
            TimestampParseError::WrongLength { value, actual } => {
                push_str(&mut s, value.as_str());
                push_str(&mut s, "' has ");
                push_usize(&mut s, *actual);
                push_str(&mut s, " characters; expected 20 in the form YYYY-MM-DDTHH:MM:SSZ");
            },
            TimestampParseError::MissingDateSeparator { value } => {
                push_str(&mut s, value.as_str());
                push_str(&mut s, "' is missing a '-' between date parts (expected YYYY-MM-DDTHH:MM:SSZ)");
            },
            TimestampParseError::MissingDateTimeSeparator { value } => {
                push_str(&mut s, value.as_str());
                push_str(
                    &mut s,
                    "' is missing the 'T' between date and time (expected YYYY-MM-DDTHH:MM:SSZ)",
                );
            },
            TimestampParseError::MissingTimeSeparator { value } => {
                push_str(&mut s, value.as_str());
                push_str(&mut s, "' is missing a ':' between time parts (expected YYYY-MM-DDTHH:MM:SSZ)");
            },
            TimestampParseError::MissingZuluSuffix { value } => {
                push_str(&mut s, value.as_str());
                push_str(
                    &mut s,
                    "' is missing the trailing 'Z'; UTC-only timestamps are required (YYYY-MM-DDTHH:MM:SSZ)",
                );
            },
            TimestampParseError::NonNumericField { value, field } => {
                push_str(&mut s, value.as_str());
                push_str(&mut s, "' has non-numeric ");
                push_str(&mut s, field);
            },
            TimestampParseError::FieldOutOfRange { value, field } => {
                push_str(&mut s, value.as_str());
                push_str(&mut s, "' has out-of-range ");
                push_str(&mut s, field);
            },
            TimestampParseError::BeforeUnixEpoch { value } => {
                push_str(&mut s, value.as_str());
                push_str(&mut s, "' is before the Unix epoch (1970-01-01T00:00:00Z); not supported");
            },
        }
        proof {
            assert(s@ =~= timestamp_error_text(*self));
        }
        s
    }
}

pub open spec fn run_id_error_text(e: RunIdParseError) -> Seq<char> {
    match e {
        RunIdParseError::Empty => "run id is empty"@,
        RunIdParseError::WrongLength { value, actual } => "run id '"@ + value@ + "' has "@ + decimal_digits(
            actual as nat,
        ) + " characters; expected 36 in the form xxxxxxxx-xxxx-xxxx-xxxx-xxxxxxxxxxxx"@,
        RunIdParseError::MissingHyphen { value, position } => "run id '"@ + value@
            + "' is missing a hyphen at position "@ + decimal_digits(position as nat),
        RunIdParseError::NonHex { value, position } => "run id '"@ + value@
            + "' has a non-hex character at position "@ + decimal_digits(position as nat),
    }
}

impl RunIdParseError {
    pub fn message(&self) -> (r: String)
        ensures
            r@ == run_id_error_text(*self),
    {
        let mut s = String::new();
        match self {
            RunIdParseError::Empty => push_str(&mut s, "run id is empty"),
            RunIdParseError::WrongLength { value, actual } => {
                push_str(&mut s, "run id '");
                push_str(&mut s, value.as_str());
                push_str(&mut s, "' has ");
                push_usize(&mut s, *actual);
                push_str(&mut s, " characters; expected 36 in the form xxxxxxxx-xxxx-xxxx-xxxx-xxxxxxxxxxxx");
            },
            RunIdParseError::MissingHyphen { value, position } => {
                push_str(&mut s, "run id '");
                push_str(&mut s, value.as_str());
                push_str(&mut s, "' is missing a hyphen at position ");
                push_usize(&mut s, *position);
            },
            RunIdParseError::NonHex { value, position } => {
                push_str(&mut s, "run id '");
                push_str(&mut s, value.as_str());
                push_str(&mut s, "' has a non-hex character at position ");
                push_usize(&mut s, *position);
            },
        }
        s
    }
}

pub open spec fn hash_error_text(e: HashParseError) -> Seq<char> {
    match e {
        HashParseError::Empty => "hash value is empty"@,
        HashParseError::TooLong { value } => "hash value '"@ + value@
            + "' is too long; expected up to 16 hex digits"@,
        HashParseError::NonHex { value } => "hash value '"@ + value@
            + "' contains non-hex characters; use 16 hex digits, optionally prefixed with 0x"@,
    }
}

impl HashParseError {
    pub fn message(&self) -> (r: String)
        ensures
            r@ == hash_error_text(*self),
    {
        let mut s = String::new();
        match self {
            HashParseError::Empty => push_str(&mut s, "hash value is empty"),
            HashParseError::TooLong { value } => {
                push_str(&mut s, "hash value '");
                push_str(&mut s, value.as_str());
                push_str(&mut s, "' is too long; expected up to 16 hex digits");
            },
            HashParseError::NonHex { value } => {
                push_str(&mut s, "hash value '");
                push_str(&mut s, value.as_str());
                push_str(
                    &mut s,
                    "' contains non-hex characters; use 16 hex digits, optionally prefixed with 0x",
                );
            },
        }
        s
    }
}

pub open spec fn override_text(o: SuggestedMemoryOverride) -> Seq<char> {
    decimal_digits(o.display.amount as nat) + o.display.suffix@
}

pub open spec fn loaded_size_error_text(e: LoadedBoardSizeError) -> Seq<char> {
    match e {
        LoadedBoardSizeError::ExceedsMemoryBudget {
            width,
            height,
            required_bytes,
            max_budget_bytes,
            suggested_override,
        } => "Loaded board '"@ + decimal_digits(width as nat) + "x"@ + decimal_digits(height as nat)
            + "' needs "@ + decimal_digits(required_bytes as nat)
            + " bytes, which exceeds the configured --max-board-memory of "@ + decimal_digits(
            max_budget_bytes as nat,
        ) + " bytes. Try --max-board-memory "@ + override_text(suggested_override)
            + " (supported suffixes: B, KB, MB, GB)."@,
        LoadedBoardSizeError::ExceedsAddressableMemory {
            width,
            height,
            required_bytes,
            max_addressable_bytes,
        } => "Loaded board '"@ + decimal_digits(width as nat) + "x"@ + decimal_digits(height as nat)
            + "' needs "@ + decimal_digits(required_bytes as nat)
            + " bytes, which cannot fit in memory on this platform (max addressable allocation is "@
            + decimal_digits(max_addressable_bytes as nat) + " bytes; pointer width is "@ + decimal_digits(
            usize::BITS as nat,
        ) + "-bit). A streaming board impl is planned; see docs/design.md \u{2192} Deferred work."@,
    }
}

impl LoadedBoardSizeError {
    pub fn message(&self) -> (r: String)
        ensures
            r@ == loaded_size_error_text(*self),
    {
        let mut s = String::new();
        push_str(&mut s, "Loaded board '");
        match self {
            LoadedBoardSizeError::ExceedsMemoryBudget {
                width,
                height,
                required_bytes,
                max_budget_bytes,
                suggested_override,
            } => {
                push_usize(&mut s, *width);
                push_str(&mut s, "x");
                push_usize(&mut s, *height);
                push_str(&mut s, "' needs ");
                push_usize(&mut s, *required_bytes);
                push_str(&mut s, " bytes, which exceeds the configured --max-board-memory of ");
                push_usize(&mut s, *max_budget_bytes);
                push_str(&mut s, " bytes. Try --max-board-memory ");
                push_usize(&mut s, suggested_override.display.amount);
                push_str(&mut s, suggested_override.display.suffix);
                push_str(&mut s, " (supported suffixes: B, KB, MB, GB).");
            },
            LoadedBoardSizeError::ExceedsAddressableMemory {
                width,
                height,
                required_bytes,
                max_addressable_bytes,
            } => {
                push_usize(&mut s, *width);
                push_str(&mut s, "x");
                push_usize(&mut s, *height);
                push_str(&mut s, "' needs ");
                crate::text::push_chars(&mut s, decimal_wide(*required_bytes).as_slice());
                push_str(
                    &mut s,
                    " bytes, which cannot fit in memory on this platform (max addressable allocation is ",
                );
                push_usize(&mut s, *max_addressable_bytes);
                push_str(&mut s, " bytes; pointer width is ");
                push_decimal(&mut s, usize::BITS as u64);
                push_str(
                    &mut s,
                    "-bit). A streaming board impl is planned; see docs/design.md \u{2192} Deferred work.",
                );
            },
        }
        proof {
            assert(s@ =~= loaded_size_error_text(*self));
        }
        s
    }
}

pub open spec fn file_kind_name(k: FileKind) -> Seq<char> {
    match k {
        FileKind::RunRecord => "run record"@,
        FileKind::BoardSnapshot => "board snapshot"@,
    }
}

pub open spec fn too_large_text(path: Seq<char>, actual: u64, limit: usize) -> Seq<char> {
    "File '"@ + path + "' is "@ + decimal_digits(actual as nat) + " bytes which exceeds the "@
        + decimal_digits(limit as nat)
        + "-byte input file limit. Raise the limit with --max-input-file-bytes if the file is trustworthy."@
}

fn push_too_large(s: &mut String, path: &str, actual: u64, limit: usize)
    ensures
        final(s)@ == old(s)@ + too_large_text(path@, actual, limit),
{
    push_str(s, "File '");
    push_str(s, path);
    push_str(s, "' is ");
    push_decimal(s, actual);
    push_str(s, " bytes which exceeds the ");
    push_usize(s, limit);
    push_str(
        s,
        "-byte input file limit. Raise the limit with --max-input-file-bytes if the file is trustworthy.",
    );
    proof {
        assert(final(s)@ =~= old(s)@ + too_large_text(path@, actual, limit));
    }
}

pub open spec fn kind_mismatch_text(path: Seq<char>, expected: FileKind, actual: FileKind) -> Seq<char> {
    "File '"@ + path + "' is a "@ + file_kind_name(actual) + ", but expected a "@ + file_kind_name(expected)
        + "."@
}

fn push_kind_mismatch(s: &mut String, path: &str, expected: FileKind, actual: FileKind)
    ensures
        final(s)@ == old(s)@ + kind_mismatch_text(path@, expected, actual),
{
    push_str(s, "File '");
    push_str(s, path);
    push_str(s, "' is a ");
    push_str(s, actual.display_name());
    push_str(s, ", but expected a ");
    push_str(s, expected.display_name());
    push_str(s, ".");
    proof {
        assert(final(s)@ =~= old(s)@ + kind_mismatch_text(path@, expected, actual));
    }
}

pub open spec fn size_header_text(location: ParseLocation, value: Seq<char>) -> Seq<char> {
    "Malformed board 'size' header at "@ + location_text(location) + ": '"@ + value
        + "'. Expected WIDTHxHEIGHT, for example 10x10."@
}

fn push_size_header(s: &mut String, location: &ParseLocation, value: &str)
    ensures
        final(s)@ == old(s)@ + size_header_text(*location, value@),
{
    push_str(s, "Malformed board 'size' header at ");
    push_location(s, location);
    push_str(s, ": '");
    push_str(s, value);
    push_str(s, "'. Expected WIDTHxHEIGHT, for example 10x10.");
    proof {
        assert(final(s)@ =~= old(s)@ + size_header_text(*location, value@));
    }
}

pub open spec fn snapshot_read_error_text(e: BoardSnapshotReadError) -> Seq<char> {
    match e {
        BoardSnapshotReadError::Io(x) => io_error_prefix(x),
        BoardSnapshotReadError::Magic(x) => magic_error_text(x),
        BoardSnapshotReadError::UnexpectedFileKind { path, expected, actual } => kind_mismatch_text(
            path@,
            expected,
            actual,
        ),
        BoardSnapshotReadError::InvalidTimestamp(x) => timestamp_error_text(x),
        BoardSnapshotReadError::Parse(x) => parse_error_text(x),
        BoardSnapshotReadError::LoadedBoardSize(x) => loaded_size_error_text(x),
        BoardSnapshotReadError::FileTooLarge { path, actual_bytes, limit_bytes } => too_large_text(
            path@,
            actual_bytes,
            limit_bytes,
        ),
        BoardSnapshotReadError::MalformedSizeHeader { location, value } => size_header_text(location, value@),
    }
}

/// Whether the message of a snapshot read error comes from an I/O error.
pub open spec fn snapshot_read_error_from_io(e: BoardSnapshotReadError) -> bool {
    e is Io || (e matches BoardSnapshotReadError::Magic(m) && m is Io)
}

impl BoardSnapshotReadError {
    pub fn message(&self) -> (r: String)
        ensures
            describes(r@, snapshot_read_error_text(*self), !snapshot_read_error_from_io(*self)),
    {
        match self {
            BoardSnapshotReadError::Magic(e) => return e.message(),
            BoardSnapshotReadError::InvalidTimestamp(e) => return e.message(),
            BoardSnapshotReadError::Parse(e) => return e.message(),
            BoardSnapshotReadError::LoadedBoardSize(e) => return e.message(),
            _ => {},
        }
        let mut s = String::new();
        match self {
            BoardSnapshotReadError::Io(e) => {
                push_io(&mut s, e);
                proof {
                    assert(Seq::<char>::empty() + io_error_prefix(*e) =~= io_error_prefix(*e));
                }
            },
            BoardSnapshotReadError::UnexpectedFileKind { path, expected, actual } => {
                push_kind_mismatch(&mut s, path.as_str(), *expected, *actual);
                proof {
                    assert(s@ =~= kind_mismatch_text(path@, *expected, *actual));
                }
            },
            BoardSnapshotReadError::FileTooLarge { path, actual_bytes, limit_bytes } => {
                push_too_large(&mut s, path.as_str(), *actual_bytes, *limit_bytes);
                proof {
                    assert(s@ =~= too_large_text(path@, *actual_bytes, *limit_bytes));
                }
            },
            BoardSnapshotReadError::MalformedSizeHeader { location, value } => {
                push_size_header(&mut s, location, value.as_str());
                proof {
                    assert(s@ =~= size_header_text(*location, value@));
                }
            },
            _ => {},
        }
        s
    }
}

pub open spec fn overwrite_text(path: Seq<char>) -> Seq<char> {
    "Refusing to overwrite existing file '"@ + path + "'."@
}

impl BoardSnapshotWriteError {
    pub fn message(&self) -> (r: String)
        ensures
            match self {
                BoardSnapshotWriteError::Io(e) => describes(r@, io_error_prefix(*e), false),
                BoardSnapshotWriteError::OutputExists { path } => r@ == overwrite_text(path@),
            },
    {
        match self {
            BoardSnapshotWriteError::Io(e) => e.message(),
            BoardSnapshotWriteError::OutputExists { path } => {
                let mut s = String::new();
                push_str(&mut s, "Refusing to overwrite existing file '");
                push_str(&mut s, path.as_str());
                push_str(&mut s, "'.");
                s
            },
        }
    }
}

impl RunRecordWriteError {
    pub fn message(&self) -> (r: String)
        ensures
            match self {
                RunRecordWriteError::Io(e) => describes(r@, io_error_prefix(*e), false),
                RunRecordWriteError::OutputExists { path } => r@ == overwrite_text(path@),
            },
    {
        match self {
            RunRecordWriteError::Io(e) => e.message(),
            RunRecordWriteError::OutputExists { path } => {
                let mut s = String::new();
                push_str(&mut s, "Refusing to overwrite existing file '");
                push_str(&mut s, path.as_str());
                push_str(&mut s, "'.");
                s
            },
        }
    }
}

pub const RECOGNIZED_STATUS_LIST: &'static str = "extinct, max_iterations, stable, cyclic";

pub open spec fn record_read_error_text(e: RunRecordReadError) -> Seq<char> {
    match e {
        RunRecordReadError::Io(x) => io_error_prefix(x),
        RunRecordReadError::Magic(x) => magic_error_text(x),
        RunRecordReadError::UnexpectedFileKind { path, expected, actual } => kind_mismatch_text(
            path@,
            expected,
            actual,
        ),
        RunRecordReadError::InvalidTimestamp(x) => timestamp_error_text(x),
        RunRecordReadError::Parse(x) => parse_error_text(x),
        RunRecordReadError::LoadedBoardSize(x) => loaded_size_error_text(x),
        RunRecordReadError::BoardBlockTooLarge { block, run_id, source } => "While loading the "@ + block@
            + " board of run "@ + run_id_text(run_id.0@) + ": "@ + loaded_size_error_text(source),
        RunRecordReadError::FileTooLarge { path, actual_bytes, limit_bytes } => too_large_text(
            path@,
            actual_bytes,
            limit_bytes,
        ),
        RunRecordReadError::MalformedSizeHeader { location, value } => size_header_text(location, value@),
        RunRecordReadError::Corrupted { path, expected_hash, actual_hash } => "Run record '"@ + path@
            + "' failed integrity check: expected content_hash "@ + hash_text(expected_hash)
            + ", computed "@ + hash_text(actual_hash)
            + ". If you intentionally edited this file, re-run with --ignore-integrity to bypass this check (the loaded data will be used as-is). To craft a new board from this run, use --extract-board <path> --load-from initial|final --output snapshot.gol instead -- board snapshots have no integrity hash and are freely editable."@,
        RunRecordReadError::MissingContentHash { path } => "Run record '"@ + path@
            + "' is missing the integrity trailer 'content_hash:' line. Regenerate the file or pass --ignore-integrity to bypass this check."@,
        RunRecordReadError::UnrecognizedStatus { location, value } => "Unknown run status '"@ + value@
            + "' at "@ + location_text(location) + "; recognized statuses: "@ + RECOGNIZED_STATUS_LIST@ + "."@,
        RunRecordReadError::MalformedRunId { location, value } => "Malformed run id '"@ + value@ + "' at "@
            + location_text(location) + "; expected xxxxxxxx-xxxx-xxxx-xxxx-xxxxxxxxxxxx."@,
        RunRecordReadError::MalformedField { location, field, value } => "Malformed value '"@ + value@
            + "' for field '"@ + field@ + "' at "@ + location_text(location) + "."@,
        RunRecordReadError::MissingField { section, field } => "Section ["@ + section@
            + "] is missing required field '"@ + field@ + "'."@,
    }
}

/// Whether the message of a run record read error comes from an I/O error.
pub open spec fn record_read_error_from_io(e: RunRecordReadError) -> bool {
    e is Io || (e matches RunRecordReadError::Magic(m) && m is Io)
}

impl RunRecordReadError {
    #[verifier::rlimit(40)]
    pub fn message(&self) -> (r: String)
        ensures
            describes(r@, record_read_error_text(*self), !record_read_error_from_io(*self)),
    {
        match self {
            RunRecordReadError::Magic(e) => return e.message(),
            RunRecordReadError::InvalidTimestamp(e) => return e.message(),
            RunRecordReadError::Parse(e) => return e.message(),
            RunRecordReadError::LoadedBoardSize(e) => return e.message(),
            _ => {},
        }
        let mut s = String::new();
        match self {
            RunRecordReadError::Io(e) => {
                push_io(&mut s, e);
                proof {
                    assert(Seq::<char>::empty() + io_error_prefix(*e) =~= io_error_prefix(*e));
                }
            },
            RunRecordReadError::UnexpectedFileKind { path, expected, actual } => {
                push_kind_mismatch(&mut s, path.as_str(), *expected, *actual);
            },
            RunRecordReadError::BoardBlockTooLarge { block, run_id, source } => {
                push_str(&mut s, "While loading the ");
                push_str(&mut s, block);
                push_str(&mut s, " board of run ");
                push_str(&mut s, format_run_id(run_id).as_str());
                push_str(&mut s, ": ");
                push_str(&mut s, source.message().as_str());
            },
            RunRecordReadError::FileTooLarge { path, actual_bytes, limit_bytes } => {
                push_too_large(&mut s, path.as_str(), *actual_bytes, *limit_bytes);
            },
            RunRecordReadError::MalformedSizeHeader { location, value } => {
                push_size_header(&mut s, location, value.as_str());
            },
            RunRecordReadError::Corrupted { path, expected_hash, actual_hash } => {
                push_str(&mut s, "Run record '");
                push_str(&mut s, path.as_str());
                push_str(&mut s, "' failed integrity check: expected content_hash ");
                push_str(&mut s, format_hash(*expected_hash).as_str());
                push_str(&mut s, ", computed ");
                push_str(&mut s, format_hash(*actual_hash).as_str());
                push_str(
                    &mut s,
                    ". If you intentionally edited this file, re-run with --ignore-integrity to bypass this check (the loaded data will be used as-is). To craft a new board from this run, use --extract-board <path> --load-from initial|final --output snapshot.gol instead -- board snapshots have no integrity hash and are freely editable.",
                );
            },
            RunRecordReadError::MissingContentHash { path } => {
                push_str(&mut s, "Run record '");
                push_str(&mut s, path.as_str());
                push_str(
                    &mut s,
                    "' is missing the integrity trailer 'content_hash:' line. Regenerate the file or pass --ignore-integrity to bypass this check.",
                );
            },
            RunRecordReadError::UnrecognizedStatus { location, value } => {
                push_str(&mut s, "Unknown run status '");
                push_str(&mut s, value.as_str());
                push_str(&mut s, "' at ");
                push_location(&mut s, location);
                push_str(&mut s, "; recognized statuses: ");
                push_str(&mut s, RECOGNIZED_STATUS_LIST);
                push_str(&mut s, ".");
            },
            RunRecordReadError::MalformedRunId { location, value } => {
                push_str(&mut s, "Malformed run id '");
                push_str(&mut s, value.as_str());
                push_str(&mut s, "' at ");
                push_location(&mut s, location);
                push_str(&mut s, "; expected xxxxxxxx-xxxx-xxxx-xxxx-xxxxxxxxxxxx.");
            },
            RunRecordReadError::MalformedField { location, field, value } => {
                push_str(&mut s, "Malformed value '");
                push_str(&mut s, value.as_str());
                push_str(&mut s, "' for field '");
                push_str(&mut s, field.as_str());
                push_str(&mut s, "' at ");
                push_location(&mut s, location);
                push_str(&mut s, ".");
            },
            RunRecordReadError::MissingField { section, field } => {
                push_str(&mut s, "Section [");
                push_str(&mut s, section.as_str());
                push_str(&mut s, "] is missing required field '");
                push_str(&mut s, field.as_str());
                push_str(&mut s, "'.");
            },
            _ => {},
        }
        proof {
            if !(self is Io) {
                assert(s@ =~= record_read_error_text(*self));
            }
        }
        s
    }
}

impl ExtractBoardError {
    pub fn message(&self) -> (r: String)
        ensures
            match self {
                ExtractBoardError::Read(e) => describes(r@, record_read_error_text(*e), !record_read_error_from_io(*e)),
                ExtractBoardError::Write(w) => match w {
                    BoardSnapshotWriteError::Io(x) => describes(r@, io_error_prefix(*x), false),
                    BoardSnapshotWriteError::OutputExists { path } => r@ == overwrite_text(path@),
                },
            },
    {
        match self {
            ExtractBoardError::Read(e) => e.message(),
            ExtractBoardError::Write(e) => e.message(),
        }
    }
}

} // verus!
