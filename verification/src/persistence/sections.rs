//! The `key: value` sections of a run record (its header, `[config]` and
//! `[result]`), read by one scanner that each section configures with its
//! keys, the kind of value each key holds, and where the section ends.
use vstd::prelude::*;

use crate::persistence::board_block::{location_is, parse_size_value, size_value};
use crate::persistence::hash::{parse_hash, parse_hash_spec};
use crate::persistence::lines::{lemma_next_nonblank, next_nonblank, one_based, LineCursor};
use crate::persistence::magic::SCHEMA_VERSION;
use crate::persistence::parser::{
    begin_keyword, fence_label, field_line_parts, parse_begin_fence, parse_field_line,
    parse_section_header, section_header_name, ParseError, ParseLocation,
};
use crate::persistence::run_id::{parse_run_id, parsed_run_id, RunId};
use crate::persistence::run_record::{is_recognized_status, recognized_status, RunRecordReadError};
use crate::persistence::timestamps::{parse_utc, parsed_utc, utc_result};
use crate::text::{parse_u32_str, parse_u64_str, parse_unsigned, parse_usize_str, str_eq, trim, trim_str};

verus! {

/// What a section key holds.
#[derive(Debug, Clone, Copy, PartialEq, Eq, Structural)]
pub enum FieldKind {
    /// A run id.
    Identifier,
    /// The schema version, which must be the supported one.
    Version,
    /// A UTC timestamp.
    Timestamp,
    /// Any text.
    Text,
    /// A `WxH` board size.
    Size,
    /// A `usize` count.
    Count,
    /// A `u64` count.
    WideCount,
    /// A run id, or nothing.
    OptionalIdentifier,
    /// A recognized run status.
    Status,
    /// A 64-bit hash.
    Hash,
}

/// A value read from a section.
#[derive(Debug)]
pub enum FieldValue {
    Id(RunId),
    NoId,
    Number(u64),
    Size(usize, usize),
    Text(String),
}

/// The mathematical form of a section value.
pub enum FieldSpec {
    Id(Seq<u8>),
    NoId,
    Number(nat),
    Size(nat, nat),
    Text(Seq<char>),
}

impl FieldValue {
    pub open spec fn spec_of(&self) -> FieldSpec {
        match self {
            FieldValue::Id(id) => FieldSpec::Id(id.0@),
            FieldValue::NoId => FieldSpec::NoId,
            FieldValue::Number(n) => FieldSpec::Number(*n as nat),
            FieldValue::Size(w, h) => FieldSpec::Size(*w as nat, *h as nat),
            FieldValue::Text(s) => FieldSpec::Text(s@),
        }
    }
}

pub open spec fn state_view(st: Seq<Option<FieldValue>>) -> Seq<Option<FieldSpec>> {
    st.map_values(
        |o: Option<FieldValue>|
            match o {
                Some(v) => Some(v.spec_of()),
                None => None,
            },
    )
}

/// The value a key of kind `kind` takes from the text `v`, if `v` is valid.
pub open spec fn field_spec(kind: FieldKind, v: Seq<char>) -> Option<FieldSpec> {
    match kind {
        FieldKind::Identifier => match parsed_run_id(v) {
            Some(b) => Some(FieldSpec::Id(b)),
            None => None,
        },
        FieldKind::Version => match parse_unsigned(v, u32::MAX as nat) {
            Some(n) => if n == SCHEMA_VERSION {
                Some(FieldSpec::Number(n))
            } else {
                None
            },
            None => None,
        },
        FieldKind::Timestamp => match parsed_utc(v) {
            Some(t) => Some(FieldSpec::Number(t)),
            None => None,
        },
        FieldKind::Text => Some(FieldSpec::Text(v)),
        FieldKind::Size => match size_value(v) {
            Some((w, h)) => Some(FieldSpec::Size(w, h)),
            None => None,
        },
        FieldKind::Count => match parse_unsigned(trim(v), usize::MAX as nat) {
            Some(n) => Some(FieldSpec::Number(n)),
            None => None,
        },
        FieldKind::WideCount => match parse_unsigned(trim(v), u64::MAX as nat) {
            Some(n) => Some(FieldSpec::Number(n)),
            None => None,
        },
        FieldKind::OptionalIdentifier => if v.len() == 0 {
            Some(FieldSpec::NoId)
        } else {
            match parsed_run_id(v) {
                Some(b) => Some(FieldSpec::Id(b)),
                None => None,
            }
        },
        FieldKind::Status => if recognized_status(v) {
            Some(FieldSpec::Text(v))
        } else {
            None
        },
        FieldKind::Hash => match parse_hash_spec(v) {
            Some(h) => Some(FieldSpec::Number(h as nat)),
            None => None,
        },
    }
}

/// The error raised for an invalid value `value` of key `key` at `location`.
pub open spec fn value_error(
    e: RunRecordReadError,
    kind: FieldKind,
    key: Seq<char>,
    value: Seq<char>,
    path: Seq<char>,
    line: usize,
) -> bool {
    match kind {
        FieldKind::Identifier | FieldKind::OptionalIdentifier => e matches RunRecordReadError::MalformedRunId {
            location,
            value: v,
        } && location_is(location, path, line) && v@ == value,
        FieldKind::Version => match parse_unsigned(value, u32::MAX as nat) {
            None => e matches RunRecordReadError::MalformedField { location, field, value: v }
                && location_is(location, path, line) && field@ == key && v@ == value,
            Some(n) => e matches RunRecordReadError::Parse(
                ParseError::UnsupportedSchemaVersion { location, version },
            ) && location_is(location, path, line) && version == n,
        },
        FieldKind::Timestamp => e matches RunRecordReadError::InvalidTimestamp(te) && utc_result(
            Err(te),
            value,
        ),
        FieldKind::Status => e matches RunRecordReadError::UnrecognizedStatus { location, value: v }
            && location_is(location, path, line) && v@ == value,
        FieldKind::Text => false,
        _ => e matches RunRecordReadError::MalformedField { location, field, value: v }
            && location_is(location, path, line) && field@ == key && v@ == value,
    }
}

/// The keys of a section, the kinds of their values, and where it ends.
pub struct SectionLayout {
    pub keys: Seq<Seq<char>>,
    pub kinds: Seq<FieldKind>,
    pub check_duplicates: bool,
    pub ends_at_section: bool,
    pub ends_at_fence: bool,
}

/// Index of the first key equal to `key`.
pub open spec fn key_index(keys: Seq<Seq<char>>, key: Seq<char>) -> Option<int>
    decreases keys.len(),
{
    if keys.len() == 0 {
        None
    } else if keys.last() == key && key_index(keys.drop_last(), key) is None {
        Some(keys.len() - 1)
    } else {
        key_index(keys.drop_last(), key)
    }
}

/// Where reading a section stopped; numbers are indices into the lines.
pub enum SectionStop {
    /// The section ended before line `k` (or at the end of the text).
    Done(usize),
    BadLine(usize),
    UnknownKey(usize),
    Duplicate(usize),
    /// Line `k` holds an invalid value for key number `i`.
    BadValue(usize, usize),
}

/// Whether a line ends the section.
pub open spec fn ends_section(layout: SectionLayout, line: Seq<char>) -> bool {
    (layout.ends_at_section && section_header_name(line) is Some) || (layout.ends_at_fence
        && fence_label(line, begin_keyword()) is Some)
}

/// Reads the lines of a section from line `k` on, skipping blank ones, with
/// the values read so far in `st`.
pub open spec fn section_scan(
    lines: Seq<Seq<char>>,
    k: nat,
    layout: SectionLayout,
    st: Seq<Option<FieldSpec>>,
) -> (SectionStop, Seq<Option<FieldSpec>>)
    decreases lines.len() - k,
{
    if k >= lines.len() {
        (SectionStop::Done(k as usize), st)
    } else if next_nonblank(lines, k) >= lines.len() {
        (SectionStop::Done(lines.len() as usize), st)
    } else {
        let n = next_nonblank(lines, k);
        proof {
            lemma_next_nonblank(lines, k);
        }
        let line = lines[n as int];
        if ends_section(layout, line) {
            (SectionStop::Done(n as usize), st)
        } else {
            match field_line_parts(line) {
                None => (SectionStop::BadLine(n as usize), st),
                Some((key, value)) => match key_index(layout.keys, key) {
                    None => (SectionStop::UnknownKey(n as usize), st),
                    Some(i) => if layout.check_duplicates && st[i] is Some {
                        (SectionStop::Duplicate(n as usize), st)
                    } else {
                        match field_spec(layout.kinds[i], value) {
                            None => (SectionStop::BadValue(n as usize, i as usize), st),
                            Some(v) => section_scan(lines, n + 1, layout, st.update(i, Some(v))),
                        }
                    },
                },
            }
        }
    }
}

pub open spec fn line_key(line: Seq<char>) -> Seq<char> {
    match field_line_parts(line) {
        Some((k, _)) => k,
        None => Seq::empty(),
    }
}

pub open spec fn line_value(line: Seq<char>) -> Seq<char> {
    match field_line_parts(line) {
        Some((_, v)) => v,
        None => Seq::empty(),
    }
}

/// The error for a section read that stopped before its end.
pub open spec fn section_error(
    e: RunRecordReadError,
    path: Seq<char>,
    lines: Seq<Seq<char>>,
    layout: SectionLayout,
    stop: SectionStop,
) -> bool {
    match stop {
        SectionStop::Done(_) => false,
        SectionStop::BadLine(n) | SectionStop::UnknownKey(n) => e matches RunRecordReadError::Parse(
            ParseError::MalformedFieldLine { location, line },
        ) && location_is(location, path, one_based(n as nat)) && line@ == lines[n as int],
        SectionStop::Duplicate(n) => e matches RunRecordReadError::Parse(
            ParseError::DuplicateField { location, field },
        ) && location_is(location, path, one_based(n as nat)) && field@ == line_key(lines[n as int]),
        SectionStop::BadValue(n, i) => value_error(
            e,
            layout.kinds[i as int],
            line_key(lines[n as int]),
            line_value(lines[n as int]),
            path,
            one_based(n as nat),
        ),
    }
}

/// Index of the first key without a value.
pub open spec fn first_missing(st: Seq<Option<FieldSpec>>) -> Option<int>
    decreases st.len(),
{
    if st.len() == 0 {
        None
    } else {
        match first_missing(st.drop_last()) {
            Some(i) => Some(i),
            None => if st.last() is None {
                Some(st.len() - 1)
            } else {
                None
            },
        }
    }
}

/// Whether `v` is a value that a key of kind `kind` can take.
pub open spec fn fits(kind: FieldKind, v: FieldSpec) -> bool {
    match kind {
        FieldKind::Identifier => v is Id,
        FieldKind::OptionalIdentifier => v is Id || v is NoId,
        FieldKind::Text | FieldKind::Status => v is Text,
        FieldKind::Size => v is Size,
        FieldKind::Count => v matches FieldSpec::Number(n) && n <= usize::MAX,
        FieldKind::Version => v matches FieldSpec::Number(n) && n <= u32::MAX,
        _ => v is Number,
    }
}

pub open spec fn all_fit(kinds: Seq<FieldKind>, st: Seq<Option<FieldSpec>>) -> bool {
    forall|i: int| 0 <= i < st.len() && #[trigger] st[i] is Some ==> fits(kinds[i], st[i]->0)
}

/// Every value that `field_spec` gives fits its kind.
pub proof fn lemma_field_spec_fits(kind: FieldKind, v: Seq<char>)
    ensures
        field_spec(kind, v) matches Some(f) ==> fits(kind, f),
{
}

proof fn lemma_key_index(keys: Seq<Seq<char>>, key: Seq<char>)
    ensures
        match key_index(keys, key) {
            Some(i) => 0 <= i < keys.len() && keys[i] == key && forall|j: int|
                0 <= j < i ==> keys[j] != key,
            None => forall|j: int| 0 <= j < keys.len() ==> keys[j] != key,
        },
    decreases keys.len(),
{
    if keys.len() > 0 {
        let d = keys.drop_last();
        lemma_key_index(d, key);
        assert forall|j: int| 0 <= j < d.len() implies d[j] == keys[j] by {}
    }
}

fn find_key(keys: &[&'static str], key: &str) -> (r: Option<usize>)
    ensures
        match key_index(key_texts(keys@), key@) {
            Some(i) => r == Some(i as usize),
            None => r is None,
        },
        r matches Some(i) ==> i < keys@.len() && key_index(key_texts(keys@), key@) == Some(i as int),
        r is None ==> key_index(key_texts(keys@), key@) is None,
{
    let ghost ks = key_texts(keys@);
    proof {
        lemma_key_index(ks, key@);
    }
    let mut i: usize = 0;
    while i < keys.len()
        invariant
            i <= keys@.len(),
            ks == key_texts(keys@),
            forall|j: int| 0 <= j < i ==> ks[j] != key@,
        decreases keys@.len() - i,
    {
        if str_eq(keys[i], key) {
            proof {
                lemma_key_index(ks, key@);
                assert(ks[i as int] == key@);
            }
            return Some(i);
        }
        i += 1;
    }
    None
}

/// Reads the value of key `key` of kind `kind` from `value`.
fn parse_value(kind: FieldKind, key: &str, value: &str, location: ParseLocation) -> (r: Result<
    FieldValue,
    RunRecordReadError,
>)
    ensures
        match field_spec(kind, value@) {
            Some(f) => r matches Ok(v) && v.spec_of() == f,
            None => r matches Err(e) && value_error(
                e,
                kind,
                key@,
                value@,
                location.path@,
                location.line_number,
            ),
        },
{
    match kind {
        FieldKind::Identifier => match parse_run_id(value) {
            Ok(id) => Ok(FieldValue::Id(id)),
            Err(_) => Err(RunRecordReadError::MalformedRunId { location, value: value.to_owned() }),
        },
        FieldKind::OptionalIdentifier => {
            if value.unicode_len() == 0 {
                Ok(FieldValue::NoId)
            } else {
                match parse_run_id(value) {
                    Ok(id) => Ok(FieldValue::Id(id)),
                    Err(_) => Err(
                        RunRecordReadError::MalformedRunId { location, value: value.to_owned() },
                    ),
                }
            }
        },
        FieldKind::Version => match parse_u32_str(value) {
            None => Err(
                RunRecordReadError::MalformedField {
                    location,
                    field: key.to_owned(),
                    value: value.to_owned(),
                },
            ),
            Some(v) => {
                if v != SCHEMA_VERSION {
                    Err(
                        RunRecordReadError::Parse(
                            ParseError::UnsupportedSchemaVersion { location, version: v },
                        ),
                    )
                } else {
                    Ok(FieldValue::Number(v as u64))
                }
            },
        },
        FieldKind::Timestamp => match parse_utc(value) {
            Ok(t) => Ok(FieldValue::Number(t)),
            Err(e) => Err(RunRecordReadError::InvalidTimestamp(e)),
        },
        FieldKind::Text => Ok(FieldValue::Text(value.to_owned())),
        FieldKind::Size => match parse_size_value(value) {
            Some((w, h)) => Ok(FieldValue::Size(w, h)),
            None => Err(
                RunRecordReadError::MalformedField {
                    location,
                    field: key.to_owned(),
                    value: value.to_owned(),
                },
            ),
        },
        FieldKind::Count => match parse_usize_str(trim_str(value)) {
            Some(n) => Ok(FieldValue::Number(n as u64)),
            None => Err(
                RunRecordReadError::MalformedField {
                    location,
                    field: key.to_owned(),
                    value: value.to_owned(),
                },
            ),
        },
        FieldKind::WideCount => match parse_u64_str(trim_str(value)) {
            Some(n) => Ok(FieldValue::Number(n)),
            None => Err(
                RunRecordReadError::MalformedField {
                    location,
                    field: key.to_owned(),
                    value: value.to_owned(),
                },
            ),
        },
        FieldKind::Status => {
            if is_recognized_status(value) {
                Ok(FieldValue::Text(value.to_owned()))
            } else {
                Err(RunRecordReadError::UnrecognizedStatus { location, value: value.to_owned() })
            }
        },
        FieldKind::Hash => match parse_hash(value) {
            Ok(h) => Ok(FieldValue::Number(h)),
            Err(_) => Err(
                RunRecordReadError::MalformedField {
                    location,
                    field: key.to_owned(),
                    value: value.to_owned(),
                },
            ),
        },
    }
}

pub open spec fn key_texts(keys: Seq<&'static str>) -> Seq<Seq<char>> {
    keys.map_values(|s: &str| s@)
}

/// The layout given by exec key and kind tables.
pub open spec fn layout_of(
    keys: Seq<&'static str>,
    kinds: Seq<FieldKind>,
    check_duplicates: bool,
    ends_at_section: bool,
    ends_at_fence: bool,
) -> SectionLayout {
    SectionLayout {
        keys: key_texts(keys),
        kinds,
        check_duplicates,
        ends_at_section,
        ends_at_fence,
    }
}

/// Reads one line of a section: `Ok(false)` at its end (not read),
/// `Ok(true)` after a line whose value was stored in `st`.
#[verifier::rlimit(60)]
fn section_step(
    cursor: &mut LineCursor,
    keys: &[&'static str],
    kinds: &[FieldKind],
    check_duplicates: bool,
    ends_at_section: bool,
    ends_at_fence: bool,
    st: &mut Vec<Option<FieldValue>>,
) -> (r: Result<bool, RunRecordReadError>)
    requires
        old(cursor).pos() <= old(cursor).lines_view().len(),
        keys@.len() == kinds@.len() == old(st)@.len(),
    ensures
        final(cursor).lines_view() == old(cursor).lines_view(),
        final(cursor).path_view() == old(cursor).path_view(),
        final(cursor).pos() <= final(cursor).lines_view().len(),
        final(st)@.len() == old(st)@.len(),
        ({
            let lines = old(cursor).lines_view();
            let layout = layout_of(keys@, kinds@, check_duplicates, ends_at_section, ends_at_fence);
            let stop = section_scan(lines, old(cursor).pos(), layout, state_view(old(st)@));
            match r {
                Ok(false) => stop == (SectionStop::Done(final(cursor).pos() as usize), state_view(
                    old(st)@,
                )) && state_view(final(st)@) == state_view(old(st)@),
                Ok(true) => final(cursor).pos() > old(cursor).pos() && stop == section_scan(
                    lines,
                    final(cursor).pos(),
                    layout,
                    state_view(final(st)@),
                ) && (all_fit(kinds@, state_view(old(st)@)) ==> all_fit(kinds@, state_view(final(st)@))),
                Err(e) => section_error(e, old(cursor).path_view(), lines, layout, stop.0),
            }
        }),
{
    let ghost lines = cursor.lines_view();
    let ghost layout = layout_of(keys@, kinds@, check_duplicates, ends_at_section, ends_at_fence);
    let ghost st0 = state_view(st@);
    let _ = cursor.line_count();
    proof {
        lemma_next_nonblank(lines, cursor.pos());
    }
    let line = match cursor.peek_logical() {
        Some(l) => l,
        None => {
            return Ok(false);
        },
    };
    if (ends_at_section && parse_section_header(line.as_str()).is_some()) || (ends_at_fence
        && parse_begin_fence(line.as_str()).is_some()) {
        return Ok(false);
    }
    let ghost n = cursor.pos();
    proof {
        assert(!ends_section(layout, line@));
        assert(section_scan(lines, old(cursor).pos(), layout, st0) == (match field_line_parts(line@) {
            None => (SectionStop::BadLine(n as usize), st0),
            Some((key, value)) => match key_index(layout.keys, key) {
                None => (SectionStop::UnknownKey(n as usize), st0),
                Some(i) => if layout.check_duplicates && st0[i] is Some {
                    (SectionStop::Duplicate(n as usize), st0)
                } else {
                    match field_spec(layout.kinds[i], value) {
                        None => (SectionStop::BadValue(n as usize, i as usize), st0),
                        Some(v) => section_scan(lines, n + 1, layout, st0.update(i, Some(v))),
                    }
                },
            },
        }));
    }
    let location = cursor.current_location();
    cursor.consume();
    let (key, value) = match parse_field_line(location.duplicate(), line.as_str()) {
        Ok(kv) => kv,
        Err(e) => {
            return Err(RunRecordReadError::Parse(e));
        },
    };
    proof {
        assert(line_key(lines[n as int]) == key@);
        assert(line_value(lines[n as int]) == value@);
    }
    let i = match find_key(keys, key) {
        Some(i) => i,
        None => {
            return Err(
                RunRecordReadError::Parse(ParseError::MalformedFieldLine { location, line: line.clone() }),
            );
        },
    };
    proof {
        assert(layout.keys == key_texts(keys@));
        assert(key_index(layout.keys, key@) == Some(i as int));
        assert(layout.kinds[i as int] == kinds@[i as int]);
        assert(st0[i as int] == match st@[i as int] {
            Some(v) => Some(v.spec_of()),
            None => None::<FieldSpec>,
        });
    }
    if check_duplicates && st[i].is_some() {
        proof {
            assert(section_scan(lines, old(cursor).pos(), layout, st0).0 == SectionStop::Duplicate(n as usize));
        }
        return Err(
            RunRecordReadError::Parse(ParseError::DuplicateField { location, field: key.to_owned() }),
        );
    }
    let v = match parse_value(kinds[i], key, value, location) {
        Ok(v) => v,
        Err(e) => {
            proof {
                assert(section_scan(lines, old(cursor).pos(), layout, st0).0 == SectionStop::BadValue(n as usize, i));
            }
            return Err(e);
        },
    };
    proof {
        lemma_field_spec_fits(kinds@[i as int], value@);
    }
    st.set(i, Some(v));
    proof {
        assert(state_view(st@) =~= st0.update(i as int, Some(v.spec_of())));
    }
    Ok(true)
}

/// Reads a whole section, leaving the cursor at the line that ends it.
pub fn scan_section(
    cursor: &mut LineCursor,
    keys: &[&'static str],
    kinds: &[FieldKind],
    check_duplicates: bool,
    ends_at_section: bool,
    ends_at_fence: bool,
) -> (r: Result<Vec<Option<FieldValue>>, RunRecordReadError>)
    requires
        old(cursor).pos() <= old(cursor).lines_view().len(),
        keys@.len() == kinds@.len(),
    ensures
        final(cursor).lines_view() == old(cursor).lines_view(),
        final(cursor).path_view() == old(cursor).path_view(),
        ({
            let layout = layout_of(keys@, kinds@, check_duplicates, ends_at_section, ends_at_fence);
            let stop = section_scan(
                old(cursor).lines_view(),
                old(cursor).pos(),
                layout,
                Seq::new(keys@.len(), |i: int| None::<FieldSpec>),
            );
            match r {
                Ok(st) => stop == (SectionStop::Done(final(cursor).pos() as usize), state_view(st@))
                    && st@.len() == keys@.len() && all_fit(kinds@, state_view(st@))
                    && final(cursor).pos() <= final(cursor).lines_view().len(),
                Err(e) => section_error(e, old(cursor).path_view(), old(cursor).lines_view(), layout, stop.0),
            }
        }),
{
    let ghost lines = cursor.lines_view();
    let ghost path = cursor.path_view();
    let ghost q0 = cursor.pos();
    let ghost layout = layout_of(keys@, kinds@, check_duplicates, ends_at_section, ends_at_fence);
    let mut st: Vec<Option<FieldValue>> = Vec::new();
    let mut k: usize = 0;
    while k < keys.len()
        invariant
            k <= keys@.len(),
            st@.len() == k,
            forall|j: int| 0 <= j < k ==> st@[j] is None,
        decreases keys@.len() - k,
    {
        st.push(None);
        k += 1;
    }
    proof {
        assert(state_view(st@) =~= Seq::new(keys@.len(), |i: int| None::<FieldSpec>));
    }
    let ghost start_st = state_view(st@);
    let _ = cursor.line_count();
    loop
        invariant_except_break
            section_scan(lines, q0, layout, start_st) == section_scan(
                lines,
                cursor.pos(),
                layout,
                state_view(st@),
            ),
        invariant
            lines == old(cursor).lines_view(),
            path == old(cursor).path_view(),
            q0 == old(cursor).pos(),
            layout == layout_of(keys@, kinds@, check_duplicates, ends_at_section, ends_at_fence),
            start_st == Seq::new(keys@.len(), |i: int| None::<FieldSpec>),
            cursor.lines_view() == lines,
            cursor.path_view() == path,
            cursor.pos() <= lines.len(),
            keys@.len() == kinds@.len() == st@.len(),
            all_fit(kinds@, state_view(st@)),
        ensures
            section_scan(lines, q0, layout, start_st) == (
                SectionStop::Done(cursor.pos() as usize),
                state_view(st@),
            ),
        decreases lines.len() - cursor.pos(),
    {
        match section_step(
            cursor,
            keys,
            kinds,
            check_duplicates,
            ends_at_section,
            ends_at_fence,
            &mut st,
        ) {
            Ok(true) => {},
            Ok(false) => {
                break;
            },
            Err(e) => {
                return Err(e);
            },
        }
    }
    Ok(st)
}

} // verus!
