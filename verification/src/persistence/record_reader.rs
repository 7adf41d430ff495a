//! Reading a run record: the magic line, the header, the `[config]` and
//! `[result]` sections, and the initial and final board blocks.
use vstd::prelude::*;

use crate::board::InMemoryBoard;
use crate::persistence::board_block::{
    block_end_pos, block_result, eof_line, location_is, quoted, read_board_block,
};
use crate::persistence::board_snapshot::BoardSnapshotReadError;
use crate::persistence::lines::{body_lines, lemma_next_nonblank, next_nonblank, one_based, LineCursor};
use crate::persistence::magic::RUN_RECORD_MAGIC;
use crate::persistence::parser::{parse_section_header, section_header_name, ParseError};
use crate::persistence::run_id::RunId;
use crate::persistence::run_record::{
    read_error_from_snapshot, snapshot_error_carried, RunRecord, RunRecordConfig,
    RunRecordReadError, RunRecordResult, FINAL_BOARD_LABEL, INITIAL_BOARD_LABEL,
};
use crate::persistence::sections::{
    first_missing, key_texts, layout_of, scan_section, section_error, section_scan, state_view,
    FieldKind, FieldSpec, FieldValue, SectionLayout, SectionStop,
};
use crate::text::{push_str, str_eq, trim, trim_str};
use crate::persistence::canonical::{canonical_text, canonicalize_body, split_off_trailer, trailer_split};
use crate::persistence::hash::{fnv1a, fnv1a_64, format_hash, hash_text};
use crate::persistence::magic::{
    magic_line_error, magic_text, sniff_from_reader, version_of_magic, FileKind, MagicError,
    BOARD_SNAPSHOT_MAGIC,
};
use crate::persistence::run_record::{
    board_grid_hash, grid_bytes, ContentHashMode, ExtractBoardError, ExtractWhich, LoadedRunRecord,
};
use crate::persistence::board_snapshot::BoardSnapshot;

verus! {

pub open spec fn header_layout() -> SectionLayout {
    SectionLayout {
        keys: seq!["run_id"@, "schema_version"@, "created_at"@, "tool_version"@],
        kinds: seq![
            FieldKind::Identifier,
            FieldKind::Version,
            FieldKind::Timestamp,
            FieldKind::Text,
        ],
        check_duplicates: true,
        ends_at_section: true,
        ends_at_fence: false,
    }
}

pub open spec fn config_layout() -> SectionLayout {
    SectionLayout {
        keys: seq![
            "board_size"@,
            "max_iterations"@,
            "max_board_memory_bytes"@,
            "initial_board_source"@,
            "random_seed"@,
            "updater"@,
            "continued_from"@,
        ],
        kinds: seq![
            FieldKind::Size,
            FieldKind::Count,
            FieldKind::Count,
            FieldKind::Text,
            FieldKind::WideCount,
            FieldKind::Text,
            FieldKind::OptionalIdentifier,
        ],
        check_duplicates: false,
        ends_at_section: true,
        ends_at_fence: true,
    }
}

pub open spec fn result_layout() -> SectionLayout {
    SectionLayout {
        keys: seq![
            "status"@,
            "iterations_run"@,
            "wall_time_ms"@,
            "initial_alive_count"@,
            "final_alive_count"@,
            "peak_alive_count"@,
            "peak_alive_generation"@,
            "min_alive_count"@,
            "min_alive_generation"@,
            "total_births"@,
            "total_deaths"@,
            "initial_board_hash"@,
            "final_board_hash"@,
        ],
        kinds: seq![
            FieldKind::Status,
            FieldKind::WideCount,
            FieldKind::WideCount,
            FieldKind::WideCount,
            FieldKind::WideCount,
            FieldKind::WideCount,
            FieldKind::WideCount,
            FieldKind::WideCount,
            FieldKind::WideCount,
            FieldKind::WideCount,
            FieldKind::WideCount,
            FieldKind::Hash,
            FieldKind::Hash,
        ],
        check_duplicates: false,
        ends_at_section: false,
        ends_at_fence: true,
    }
}

pub open spec fn nones(n: nat) -> Seq<Option<FieldSpec>> {
    Seq::new(n, |i: int| None::<FieldSpec>)
}

/// The error for a section with a key left without a value.
pub open spec fn missing_error(
    e: RunRecordReadError,
    section: Seq<char>,
    layout: SectionLayout,
    st: Seq<Option<FieldSpec>>,
) -> bool {
    e matches RunRecordReadError::MissingField { section: s, field } && s@ == section && field@
        == layout.keys[first_missing(st)->0]
}

/// Whether the first non-blank line from `p` is the `[name]` header.
pub open spec fn section_header_at(lines: Seq<Seq<char>>, p: nat, name: Seq<char>) -> bool {
    let n = next_nonblank(lines, p);
    n < lines.len() && section_header_name(lines[n as int]) == Some(name)
}

/// The error when the first non-blank line from `p` is not `[name]`.
pub open spec fn section_header_error(
    e: RunRecordReadError,
    path: Seq<char>,
    lines: Seq<Seq<char>>,
    p: nat,
    name: Seq<char>,
) -> bool {
    let n = next_nonblank(lines, p);
    if n >= lines.len() {
        e matches RunRecordReadError::Parse(ParseError::UnexpectedEnd { location, expected })
            && location_is(location, path, eof_line(lines)) && expected@ == "["@ + name + "]"@
    } else {
        match section_header_name(lines[n as int]) {
            None => e matches RunRecordReadError::Parse(
                ParseError::MalformedSectionHeader { location, line },
            ) && location_is(location, path, one_based(n)) && line@ == lines[n as int],
            Some(a) => e matches RunRecordReadError::Parse(
                ParseError::UnexpectedSection { location, section },
            ) && location_is(location, path, one_based(n)) && section@ == a,
        }
    }
}

/// Whether the first non-blank line is the run record magic.
pub open spec fn magic_line_ok(lines: Seq<Seq<char>>) -> bool {
    let m = next_nonblank(lines, 0);
    m < lines.len() && trim(lines[m as int]) == RUN_RECORD_MAGIC@
}

pub open spec fn magic_line_failure(e: RunRecordReadError, path: Seq<char>, lines: Seq<Seq<char>>) -> bool {
    let m = next_nonblank(lines, 0);
    if m >= lines.len() {
        e matches RunRecordReadError::Parse(ParseError::UnexpectedEnd { location, expected })
            && location_is(location, path, eof_line(lines)) && expected@ == quoted(
            RUN_RECORD_MAGIC@,
        )
    } else {
        e matches RunRecordReadError::Parse(ParseError::MalformedFieldLine { location, line })
            && location_is(location, path, one_based(m)) && line@ == lines[m as int]
    }
}

/// The record's header fields are the values read.
pub open spec fn header_matches(rec: RunRecord, hs: Seq<Option<FieldSpec>>) -> bool {
    &&& hs[0] == Some(FieldSpec::Id(rec.run_id.0@))
    &&& hs[1] == Some(FieldSpec::Number(rec.schema_version as nat))
    &&& hs[2] == Some(FieldSpec::Number(rec.created_at as nat))
    &&& hs[3] == Some(FieldSpec::Text(rec.tool_version@))
}

pub open spec fn config_matches(c: RunRecordConfig, cs: Seq<Option<FieldSpec>>) -> bool {
    &&& cs[0] == Some(FieldSpec::Size(c.board_size.0 as nat, c.board_size.1 as nat))
    &&& cs[1] == Some(FieldSpec::Number(c.max_iterations as nat))
    &&& cs[2] == Some(FieldSpec::Number(c.max_board_memory_bytes as nat))
    &&& cs[3] == Some(FieldSpec::Text(c.initial_board_source@))
    &&& cs[4] == Some(FieldSpec::Number(c.random_seed as nat))
    &&& cs[5] == Some(FieldSpec::Text(c.updater@))
    &&& cs[6] == Some(
        match c.continued_from {
            Some(id) => FieldSpec::Id(id.0@),
            None => FieldSpec::NoId,
        },
    )
}

pub open spec fn result_matches(r: RunRecordResult, rs: Seq<Option<FieldSpec>>) -> bool {
    &&& rs[0] == Some(FieldSpec::Text(r.status@))
    &&& rs[1] == Some(FieldSpec::Number(r.iterations_run as nat))
    &&& rs[2] == Some(FieldSpec::Number(r.wall_time_ms as nat))
    &&& rs[3] == Some(FieldSpec::Number(r.initial_alive_count as nat))
    &&& rs[4] == Some(FieldSpec::Number(r.final_alive_count as nat))
    &&& rs[5] == Some(FieldSpec::Number(r.peak_alive_count as nat))
    &&& rs[6] == Some(FieldSpec::Number(r.peak_alive_generation as nat))
    &&& rs[7] == Some(FieldSpec::Number(r.min_alive_count as nat))
    &&& rs[8] == Some(FieldSpec::Number(r.min_alive_generation as nat))
    &&& rs[9] == Some(FieldSpec::Number(r.total_births as nat))
    &&& rs[10] == Some(FieldSpec::Number(r.total_deaths as nat))
    &&& rs[11] == Some(FieldSpec::Number(r.initial_board_hash as nat))
    &&& rs[12] == Some(FieldSpec::Number(r.final_board_hash as nat))
}

/// The board block error that a run record error stands for, when it comes
/// from reading the block tagged `tag` of run `id`.
pub open spec fn block_error_source(e: RunRecordReadError, tag: Seq<char>, id: Seq<u8>) -> Option<
    BoardSnapshotReadError,
> {
    match e {
        RunRecordReadError::BoardBlockTooLarge { block, run_id, source } => if block@ == tag
            && run_id.0@ == id {
            Some(BoardSnapshotReadError::LoadedBoardSize(source))
        } else {
            None
        },
        RunRecordReadError::Io(x) => Some(BoardSnapshotReadError::Io(x)),
        RunRecordReadError::Magic(x) => Some(BoardSnapshotReadError::Magic(x)),
        RunRecordReadError::UnexpectedFileKind { path, expected, actual } => Some(
            BoardSnapshotReadError::UnexpectedFileKind { path, expected, actual },
        ),
        RunRecordReadError::InvalidTimestamp(x) => Some(BoardSnapshotReadError::InvalidTimestamp(x)),
        RunRecordReadError::Parse(x) => Some(BoardSnapshotReadError::Parse(x)),
        RunRecordReadError::FileTooLarge { path, actual_bytes, limit_bytes } => Some(
            BoardSnapshotReadError::FileTooLarge { path, actual_bytes, limit_bytes },
        ),
        RunRecordReadError::MalformedSizeHeader { location, value } => Some(
            BoardSnapshotReadError::MalformedSizeHeader { location, value },
        ),
        _ => None,
    }
}

/// A run record error raised while reading a board block from `p`.
pub open spec fn block_failure(
    e: RunRecordReadError,
    path: Seq<char>,
    lines: Seq<Seq<char>>,
    p: nat,
    label: Seq<char>,
    tag: Seq<char>,
    id: Seq<u8>,
    max_mem: usize,
) -> bool {
    match block_error_source(e, tag, id) {
        Some(be) => block_result(Err(be), path, lines, p, label, max_mem),
        None => false,
    }
}

/// What reading the two board blocks from line `p` gives, with the sections
/// already read.
pub open spec fn blocks_outcome(
    r: Result<RunRecord, RunRecordReadError>,
    path: Seq<char>,
    lines: Seq<Seq<char>>,
    p: nat,
    max_mem: usize,
    hs: Seq<Option<FieldSpec>>,
    cs: Seq<Option<FieldSpec>>,
    rs: Seq<Option<FieldSpec>>,
) -> bool {
    let id = hs[0]->0->Id_0;
    match r {
        Ok(rec) => {
            &&& header_matches(rec, hs)
            &&& config_matches(rec.config, cs)
            &&& result_matches(rec.result, rs)
            &&& block_result(Ok(rec.initial_board), path, lines, p, INITIAL_BOARD_LABEL@, max_mem)
            &&& block_result(
                Ok(rec.final_board),
                path,
                lines,
                block_end_pos(lines, p),
                FINAL_BOARD_LABEL@,
                max_mem,
            )
        },
        Err(e) => block_failure(e, path, lines, p, INITIAL_BOARD_LABEL@, "INITIAL"@, id, max_mem) || (
        exists|b: InMemoryBoard|
            #[trigger] block_result(Ok(b), path, lines, p, INITIAL_BOARD_LABEL@, max_mem))
            && block_failure(
            e,
            path,
            lines,
            block_end_pos(lines, p),
            FINAL_BOARD_LABEL@,
            "FINAL"@,
            id,
            max_mem,
        ),
    }
}

/// What parsing the lines of a canonical run record (trailer removed) gives.
#[verifier::opaque]
pub open spec fn record_outcome(
    r: Result<RunRecord, RunRecordReadError>,
    path: Seq<char>,
    lines: Seq<Seq<char>>,
    max_mem: usize,
) -> bool {
    if !magic_line_ok(lines) {
        r matches Err(e) && magic_line_failure(e, path, lines)
    } else {
        let m = next_nonblank(lines, 0);
        let (hstop, hs) = section_scan(lines, m + 1, header_layout(), nones(4));
        match hstop {
            SectionStop::Done(p1) => if first_missing(hs) is Some {
                r matches Err(e) && missing_error(e, "header"@, header_layout(), hs)
            } else if !section_header_at(lines, p1 as nat, "config"@) {
                r matches Err(e) && section_header_error(e, path, lines, p1 as nat, "config"@)
            } else {
                let (cstop, cs) = section_scan(
                    lines,
                    next_nonblank(lines, p1 as nat) + 1,
                    config_layout(),
                    nones(7),
                );
                match cstop {
                    SectionStop::Done(p2) => if first_missing(cs) is Some {
                        r matches Err(e) && missing_error(e, "config"@, config_layout(), cs)
                    } else if !section_header_at(lines, p2 as nat, "result"@) {
                        r matches Err(e) && section_header_error(e, path, lines, p2 as nat, "result"@)
                    } else {
                        let (rstop, rs) = section_scan(
                            lines,
                            next_nonblank(lines, p2 as nat) + 1,
                            result_layout(),
                            nones(13),
                        );
                        match rstop {
                            SectionStop::Done(p3) => if first_missing(rs) is Some {
                                r matches Err(e) && missing_error(e, "result"@, result_layout(), rs)
                            } else {
                                blocks_outcome(r, path, lines, p3 as nat, max_mem, hs, cs, rs)
                            },
                            stop => r matches Err(e) && section_error(e, path, lines, result_layout(), stop),
                        }
                    },
                    stop => r matches Err(e) && section_error(e, path, lines, config_layout(), stop),
                }
            },
            stop => r matches Err(e) && section_error(e, path, lines, header_layout(), stop),
        }
    }
}

fn skip_magic(cursor: &mut LineCursor) -> (r: Result<(), RunRecordReadError>)
    requires
        old(cursor).pos() == 0,
    ensures
        final(cursor).lines_view() == old(cursor).lines_view(),
        final(cursor).path_view() == old(cursor).path_view(),
        r is Ok <==> magic_line_ok(old(cursor).lines_view()),
        r is Ok ==> final(cursor).pos() == next_nonblank(old(cursor).lines_view(), 0) + 1,
        r matches Err(e) ==> magic_line_failure(e, old(cursor).path_view(), old(cursor).lines_view()),
{
    let line = match cursor.next_logical() {
        Some(l) => l,
        None => {
            let mut e = "'".to_owned();
            push_str(&mut e, RUN_RECORD_MAGIC);
            push_str(&mut e, "'");
            proof {
                reveal_strlit("'");
                assert(e@ =~= quoted(RUN_RECORD_MAGIC@));
            }
            return Err(
                RunRecordReadError::Parse(
                    ParseError::UnexpectedEnd { location: cursor.eof_location(), expected: e },
                ),
            );
        },
    };
    if !str_eq(trim_str(line.as_str()), RUN_RECORD_MAGIC) {
        return Err(
            RunRecordReadError::Parse(
                ParseError::MalformedFieldLine { location: cursor.last_consumed_location(), line },
            ),
        );
    }
    Ok(())
}

/// Reads the `[name]` line that opens a section.
fn expect_section_header(cursor: &mut LineCursor, expected: &str) -> (r: Result<(), RunRecordReadError>)
    requires
        old(cursor).pos() <= old(cursor).lines_view().len(),
    ensures
        final(cursor).lines_view() == old(cursor).lines_view(),
        final(cursor).path_view() == old(cursor).path_view(),
        r is Ok <==> section_header_at(old(cursor).lines_view(), old(cursor).pos(), expected@),
        r is Ok ==> final(cursor).pos() == next_nonblank(old(cursor).lines_view(), old(cursor).pos()) + 1,
        r matches Err(e) ==> section_header_error(
            e,
            old(cursor).path_view(),
            old(cursor).lines_view(),
            old(cursor).pos(),
            expected@,
        ),
{
    let line = match cursor.next_logical() {
        Some(l) => l,
        None => {
            let mut e = "[".to_owned();
            push_str(&mut e, expected);
            push_str(&mut e, "]");
            proof {
                reveal_strlit("[");
            }
            return Err(
                RunRecordReadError::Parse(
                    ParseError::UnexpectedEnd { location: cursor.eof_location(), expected: e },
                ),
            );
        },
    };
    let location = cursor.last_consumed_location();
    let actual = match parse_section_header(line.as_str()) {
        Some(a) => a,
        None => {
            return Err(
                RunRecordReadError::Parse(
                    ParseError::MalformedSectionHeader { location, line: line.clone() },
                ),
            );
        },
    };
    if !str_eq(actual, expected) {
        return Err(
            RunRecordReadError::Parse(
                ParseError::UnexpectedSection { location, section: actual.to_owned() },
            ),
        );
    }
    Ok(())
}

/// Fails with `MissingField` on the first key of the section without a value.
fn require_all(st: &Vec<Option<FieldValue>>, keys: &[&'static str], section: &str) -> (r: Result<
    (),
    RunRecordReadError,
>)
    requires
        st@.len() == keys@.len(),
    ensures
        r is Ok <==> first_missing(state_view(st@)) is None,
        r matches Err(e) ==> e matches RunRecordReadError::MissingField { section: s, field } && s@
            == section@ && field@ == key_texts(keys@)[first_missing(state_view(st@))->0],
{
    let ghost sv = state_view(st@);
    let mut i: usize = 0;
    while i < st.len()
        invariant
            i <= st@.len() == keys@.len(),
            sv == state_view(st@),
            first_missing(sv.take(i as int)) is None,
        decreases st@.len() - i,
    {
        proof {
            assert(sv.take(i + 1).drop_last() =~= sv.take(i as int));
            assert(sv[i as int] == match st@[i as int] {
                Some(v) => Some(v.spec_of()),
                None => None::<FieldSpec>,
            });
        }
        if st[i].is_none() {
            proof {
                lemma_first_missing_prefix(sv, i as int);
            }
            return Err(
                RunRecordReadError::MissingField {
                    section: section.to_owned(),
                    field: keys[i].to_owned(),
                },
            );
        }
        i += 1;
    }
    proof {
        assert(sv.take(i as int) =~= sv);
    }
    Ok(())
}

/// With no key missing, every key has a value.
proof fn lemma_none_missing(s: Seq<Option<FieldSpec>>)
    requires
        first_missing(s) is None,
    ensures
        forall|i: int| 0 <= i < s.len() ==> #[trigger] s[i] is Some,
    decreases s.len(),
{
    if s.len() > 0 {
        let d = s.drop_last();
        lemma_none_missing(d);
        assert forall|i: int| 0 <= i < s.len() implies #[trigger] s[i] is Some by {
            if i < s.len() - 1 {
                assert(s[i] == d[i]);
            }
        }
    }
}

/// A missing value at `i` after none before it is the first one missing.
proof fn lemma_first_missing_prefix(s: Seq<Option<FieldSpec>>, i: int)
    requires
        0 <= i < s.len(),
        first_missing(s.take(i)) is None,
        s[i] is None,
    ensures
        first_missing(s) == Some(i),
    decreases s.len(),
{
    if i < s.len() - 1 {
        let d = s.drop_last();
        assert(d.take(i) =~= s.take(i));
        lemma_first_missing_prefix(d, i);
    } else {
        assert(s.drop_last() =~= s.take(i));
    }
}

fn number_at(st: &Vec<Option<FieldValue>>, i: usize) -> (r: u64)
    requires
        i < st@.len(),
        state_view(st@)[i as int] matches Some(FieldSpec::Number(_)),
    ensures
        state_view(st@)[i as int] == Some(FieldSpec::Number(r as nat)),
{
    proof {
        assert(state_view(st@)[i as int] == match st@[i as int] {
            Some(v) => Some(v.spec_of()),
            None => None::<FieldSpec>,
        });
    }
    match &st[i] {
        Some(FieldValue::Number(n)) => *n,
        _ => {
            proof {
                assert(false);
            }
            0
        },
    }
}

fn text_at(st: &Vec<Option<FieldValue>>, i: usize) -> (r: String)
    requires
        i < st@.len(),
        state_view(st@)[i as int] matches Some(FieldSpec::Text(_)),
    ensures
        state_view(st@)[i as int] == Some(FieldSpec::Text(r@)),
{
    proof {
        assert(state_view(st@)[i as int] == match st@[i as int] {
            Some(v) => Some(v.spec_of()),
            None => None::<FieldSpec>,
        });
    }
    match &st[i] {
        Some(FieldValue::Text(t)) => t.clone(),
        _ => {
            proof {
                assert(false);
            }
            String::new()
        },
    }
}

fn id_at(st: &Vec<Option<FieldValue>>, i: usize) -> (r: Option<RunId>)
    requires
        i < st@.len(),
        state_view(st@)[i as int] matches Some(f) && (f is Id || f is NoId),
    ensures
        state_view(st@)[i as int] == Some(
            match r {
                Some(id) => FieldSpec::Id(id.0@),
                None => FieldSpec::NoId,
            },
        ),
{
    proof {
        assert(state_view(st@)[i as int] == match st@[i as int] {
            Some(v) => Some(v.spec_of()),
            None => None::<FieldSpec>,
        });
    }
    match &st[i] {
        Some(FieldValue::Id(id)) => Some(*id),
        _ => None,
    }
}

fn size_at(st: &Vec<Option<FieldValue>>, i: usize) -> (r: (usize, usize))
    requires
        i < st@.len(),
        state_view(st@)[i as int] matches Some(FieldSpec::Size(_, _)),
    ensures
        state_view(st@)[i as int] == Some(FieldSpec::Size(r.0 as nat, r.1 as nat)),
{
    proof {
        assert(state_view(st@)[i as int] == match st@[i as int] {
            Some(v) => Some(v.spec_of()),
            None => None::<FieldSpec>,
        });
    }
    match &st[i] {
        Some(FieldValue::Size(w, h)) => (*w, *h),
        _ => {
            proof {
                assert(false);
            }
            (0, 0)
        },
    }
}

/// Reads an embedded board block, tagging a budget error with the block and
/// the run it belongs to.
fn read_embedded_board_block(
    cursor: &mut LineCursor,
    expected_label: &str,
    max_board_memory_bytes: usize,
    run_id: RunId,
    block_tag: &'static str,
) -> (r: Result<InMemoryBoard, RunRecordReadError>)
    ensures
        final(cursor).lines_view() == old(cursor).lines_view(),
        final(cursor).path_view() == old(cursor).path_view(),
        match r {
            Ok(b) => block_result(
                Ok(b),
                old(cursor).path_view(),
                old(cursor).lines_view(),
                old(cursor).pos(),
                expected_label@,
                max_board_memory_bytes,
            ) && final(cursor).pos() == block_end_pos(old(cursor).lines_view(), old(cursor).pos()),
            Err(e) => block_failure(
                e,
                old(cursor).path_view(),
                old(cursor).lines_view(),
                old(cursor).pos(),
                expected_label@,
                block_tag@,
                run_id.0@,
                max_board_memory_bytes,
            ),
        },
{
    match read_board_block(cursor, expected_label, max_board_memory_bytes) {
        Ok(board) => Ok(board),
        Err(BoardSnapshotReadError::LoadedBoardSize(source)) => Err(
            RunRecordReadError::BoardBlockTooLarge { block: block_tag, run_id, source },
        ),
        Err(other) => Err(read_error_from_snapshot(other)),
    }
}

proof fn lemma_layouts(
    hk: Seq<&'static str>,
    hkinds: Seq<FieldKind>,
    ck: Seq<&'static str>,
    ckinds: Seq<FieldKind>,
    rk: Seq<&'static str>,
    rkinds: Seq<FieldKind>,
)
    requires
        hk == seq!["run_id", "schema_version", "created_at", "tool_version"],
        hkinds == header_layout().kinds,
        ck == seq![
            "board_size",
            "max_iterations",
            "max_board_memory_bytes",
            "initial_board_source",
            "random_seed",
            "updater",
            "continued_from",
        ],
        ckinds == config_layout().kinds,
        rk == seq![
            "status",
            "iterations_run",
            "wall_time_ms",
            "initial_alive_count",
            "final_alive_count",
            "peak_alive_count",
            "peak_alive_generation",
            "min_alive_count",
            "min_alive_generation",
            "total_births",
            "total_deaths",
            "initial_board_hash",
            "final_board_hash",
        ],
        rkinds == result_layout().kinds,
    ensures
        layout_of(hk, hkinds, true, true, false) == header_layout(),
        layout_of(ck, ckinds, false, true, true) == config_layout(),
        layout_of(rk, rkinds, false, false, true) == result_layout(),
{
    assert(key_texts(hk) =~= header_layout().keys);
    assert(key_texts(ck) =~= config_layout().keys);
    assert(key_texts(rk) =~= result_layout().keys);
}

/// Parses the canonical text of a run record, trailer removed, read from
/// the file at `path`.
#[verifier::rlimit(100)]
pub fn parse_record_text(path: &str, text: &str, max_board_memory_bytes: usize) -> (r: Result<
    RunRecord,
    RunRecordReadError,
>)
    ensures
        record_outcome(r, path@, body_lines(text@), max_board_memory_bytes),
{
    proof {
        reveal(record_outcome);
    }
    let mut cursor = LineCursor::new(path, text);
    let ghost lines = cursor.lines_view();
    let ghost pv = path@;
    let _ = cursor.line_count();
    if let Err(e) = skip_magic(&mut cursor) {
        return Err(e);
    }
    let hk: Vec<&'static str> = vec!["run_id", "schema_version", "created_at", "tool_version"];
    let hkinds: Vec<FieldKind> = vec![
        FieldKind::Identifier,
        FieldKind::Version,
        FieldKind::Timestamp,
        FieldKind::Text,
    ];
    let ck: Vec<&'static str> = vec![
        "board_size",
        "max_iterations",
        "max_board_memory_bytes",
        "initial_board_source",
        "random_seed",
        "updater",
        "continued_from",
    ];
    let ckinds: Vec<FieldKind> = vec![
        FieldKind::Size,
        FieldKind::Count,
        FieldKind::Count,
        FieldKind::Text,
        FieldKind::WideCount,
        FieldKind::Text,
        FieldKind::OptionalIdentifier,
    ];
    let rk: Vec<&'static str> = vec![
        "status",
        "iterations_run",
        "wall_time_ms",
        "initial_alive_count",
        "final_alive_count",
        "peak_alive_count",
        "peak_alive_generation",
        "min_alive_count",
        "min_alive_generation",
        "total_births",
        "total_deaths",
        "initial_board_hash",
        "final_board_hash",
    ];
    let rkinds: Vec<FieldKind> = vec![
        FieldKind::Status,
        FieldKind::WideCount,
        FieldKind::WideCount,
        FieldKind::WideCount,
        FieldKind::WideCount,
        FieldKind::WideCount,
        FieldKind::WideCount,
        FieldKind::WideCount,
        FieldKind::WideCount,
        FieldKind::WideCount,
        FieldKind::WideCount,
        FieldKind::Hash,
        FieldKind::Hash,
    ];
    proof {
        lemma_layouts(hk@, hkinds@, ck@, ckinds@, rk@, rkinds@);
        lemma_next_nonblank(lines, 0);
        assert(nones(4) =~= Seq::new(hk@.len(), |i: int| None::<FieldSpec>));
        assert(nones(7) =~= Seq::new(ck@.len(), |i: int| None::<FieldSpec>));
        assert(nones(13) =~= Seq::new(rk@.len(), |i: int| None::<FieldSpec>));
    }
    let hs = match scan_section(&mut cursor, hk.as_slice(), hkinds.as_slice(), true, true, false) {
        Ok(st) => st,
        Err(e) => {
            return Err(e);
        },
    };
    if let Err(e) = require_all(&hs, hk.as_slice(), "header") {
        return Err(e);
    }
    if let Err(e) = expect_section_header(&mut cursor, "config") {
        return Err(e);
    }
    let cs = match scan_section(&mut cursor, ck.as_slice(), ckinds.as_slice(), false, true, true) {
        Ok(st) => st,
        Err(e) => {
            return Err(e);
        },
    };
    if let Err(e) = require_all(&cs, ck.as_slice(), "config") {
        return Err(e);
    }
    if let Err(e) = expect_section_header(&mut cursor, "result") {
        return Err(e);
    }
    let rs = match scan_section(&mut cursor, rk.as_slice(), rkinds.as_slice(), false, false, true) {
        Ok(st) => st,
        Err(e) => {
            return Err(e);
        },
    };
    if let Err(e) = require_all(&rs, rk.as_slice(), "result") {
        return Err(e);
    }
    let ghost hsv = state_view(hs@);
    let ghost csv = state_view(cs@);
    let ghost rsv = state_view(rs@);
    proof {
        lemma_none_missing(hsv);
        lemma_none_missing(csv);
        lemma_none_missing(rsv);
        assert(hsv[0] is Some && hsv[1] is Some && hsv[2] is Some && hsv[3] is Some);
        assert(csv[0] is Some && csv[1] is Some && csv[2] is Some && csv[3] is Some && csv[4] is Some
            && csv[5] is Some && csv[6] is Some);
        assert(rsv[0] is Some && rsv[1] is Some && rsv[2] is Some && rsv[3] is Some && rsv[4] is Some
            && rsv[5] is Some && rsv[6] is Some && rsv[7] is Some && rsv[8] is Some && rsv[9] is Some
            && rsv[10] is Some && rsv[11] is Some && rsv[12] is Some);
    }
    let run_id = match id_at(&hs, 0) {
        Some(id) => id,
        None => {
            proof {
                assert(false);
            }
            return Err(
                RunRecordReadError::MissingField {
                    section: "header".to_owned(),
                    field: "run_id".to_owned(),
                },
            );
        },
    };
    let schema_version = number_at(&hs, 1) as u32;
    let created_at = number_at(&hs, 2);
    let tool_version = text_at(&hs, 3);
    let config = RunRecordConfig {
        board_size: size_at(&cs, 0),
        max_iterations: number_at(&cs, 1) as usize,
        max_board_memory_bytes: number_at(&cs, 2) as usize,
        initial_board_source: text_at(&cs, 3),
        random_seed: number_at(&cs, 4),
        updater: text_at(&cs, 5),
        continued_from: id_at(&cs, 6),
    };
    let result = RunRecordResult {
        status: text_at(&rs, 0),
        iterations_run: number_at(&rs, 1),
        wall_time_ms: number_at(&rs, 2),
        initial_alive_count: number_at(&rs, 3),
        final_alive_count: number_at(&rs, 4),
        peak_alive_count: number_at(&rs, 5),
        peak_alive_generation: number_at(&rs, 6),
        min_alive_count: number_at(&rs, 7),
        min_alive_generation: number_at(&rs, 8),
        total_births: number_at(&rs, 9),
        total_deaths: number_at(&rs, 10),
        initial_board_hash: number_at(&rs, 11),
        final_board_hash: number_at(&rs, 12),
    };
    let ghost p3 = cursor.pos();
    let initial_board = match read_embedded_board_block(
        &mut cursor,
        INITIAL_BOARD_LABEL,
        max_board_memory_bytes,
        run_id,
        "INITIAL",
    ) {
        Ok(b) => b,
        Err(e) => {
            return Err(e);
        },
    };
    let final_board = match read_embedded_board_block(
        &mut cursor,
        FINAL_BOARD_LABEL,
        max_board_memory_bytes,
        run_id,
        "FINAL",
    ) {
        Ok(b) => b,
        Err(e) => {
            return Err(e);
        },
    };
    Ok(
        RunRecord {
            run_id,
            schema_version,
            created_at,
            tool_version,
            config,
            result,
            initial_board,
            final_board,
        },
    )
}

pub open spec fn mismatch_warning(path: Seq<char>, expected: u64, computed: u64) -> Seq<char> {
    "Warning: integrity check bypassed for '"@ + path + "': expected content_hash "@ + hash_text(
        expected,
    ) + ", computed "@ + hash_text(computed) + "; data may have been edited."@
}

pub open spec fn missing_trailer_warning(path: Seq<char>) -> Seq<char> {
    "Warning: integrity check bypassed for '"@ + path + "': no content_hash trailer found."@
}

pub open spec fn board_hash_warning(which: Seq<char>, expected: u64, computed: u64) -> Seq<char> {
    "Warning: "@ + which + "_board_hash mismatch: expected "@ + hash_text(expected) + ", computed "@
        + hash_text(computed)
}

/// The hash of a board's grid as the writer encodes it.
pub open spec fn grid_hash(b: InMemoryBoard) -> u64 {
    fnv1a(grid_bytes(b, b.spec_height()))
}

/// Warnings for board hashes that do not match the boards read.
pub open spec fn board_warnings(rec: RunRecord) -> Seq<Seq<char>> {
    let ih = grid_hash(rec.initial_board);
    let fh = grid_hash(rec.final_board);
    (if ih != rec.result.initial_board_hash {
        seq![board_hash_warning("initial"@, rec.result.initial_board_hash, ih)]
    } else {
        Seq::<Seq<char>>::empty()
    }) + (if fh != rec.result.final_board_hash {
        seq![board_hash_warning("final"@, rec.result.final_board_hash, fh)]
    } else {
        Seq::<Seq<char>>::empty()
    })
}

/// The error for the first board hash that does not match its board.
pub open spec fn board_corruption(e: RunRecordReadError, path: Seq<char>, rec: RunRecord) -> bool {
    let ih = grid_hash(rec.initial_board);
    let fh = grid_hash(rec.final_board);
    if ih != rec.result.initial_board_hash {
        e matches RunRecordReadError::Corrupted { path: p, expected_hash, actual_hash } && p@ == path
            && expected_hash == rec.result.initial_board_hash && actual_hash == ih
    } else {
        &&& fh != rec.result.final_board_hash
        &&& e matches RunRecordReadError::Corrupted { path: p, expected_hash, actual_hash }
            && p@ == path && expected_hash == rec.result.final_board_hash && actual_hash == fh
    }
}

pub open spec fn texts_of(ws: Seq<String>) -> Seq<Seq<char>> {
    ws.map_values(|s: String| s@)
}

/// What reading the lines of a record whose trailer check passed gives,
/// `w0` being the warnings of that check.
#[verifier::opaque]
pub open spec fn loaded_outcome(
    r: Result<LoadedRunRecord, RunRecordReadError>,
    path: Seq<char>,
    lines: Seq<Seq<char>>,
    max_mem: usize,
    mode: ContentHashMode,
    w0: Seq<Seq<char>>,
) -> bool {
    match r {
        Ok(l) => {
            &&& record_outcome(Ok(l.record), path, lines, max_mem)
            &&& mode == ContentHashMode::Enforce ==> board_warnings(l.record).len() == 0
            &&& texts_of(l.warnings@) == w0 + board_warnings(l.record)
        },
        Err(e) => record_outcome(Err(e), path, lines, max_mem) || (mode == ContentHashMode::Enforce
            && exists|rec: RunRecord|
            #[trigger] record_outcome(Ok(rec), path, lines, max_mem) && board_corruption(e, path, rec)),
    }
}

/// What reading a run record whose file is `path` and text `body` gives.
pub open spec fn run_record_read_result(
    r: Result<LoadedRunRecord, RunRecordReadError>,
    path: Seq<char>,
    body: Seq<char>,
    max_mem: usize,
    mode: ContentHashMode,
) -> bool {
    let bytes = vstd::utf8::encode_utf8(body);
    match magic_text(bytes) {
        None => r matches Err(RunRecordReadError::Magic(e)) && magic_line_error(e, path, bytes),
        Some(first) => {
            let t = trim(first);
            if version_of_magic(t) is None {
                if t == BOARD_SNAPSHOT_MAGIC@ {
                    r matches Err(RunRecordReadError::UnexpectedFileKind { path: p, expected, actual })
                        && p@ == path && expected == FileKind::RunRecord && actual
                        == FileKind::BoardSnapshot
                } else if t.len() == 0 {
                    r matches Err(RunRecordReadError::Magic(MagicError::EmptyFile { path: p })) && p@
                        == path
                } else {
                    r matches Err(RunRecordReadError::Magic(MagicError::UnknownMagic { path: p, found }))
                        && p@ == path && found@ == t
                }
            } else {
                let split = trailer_split(canonical_text(body));
                let computed = fnv1a(vstd::utf8::encode_utf8(split.0));
                let lines = body_lines(split.0);
                match split.1 {
                    None => if mode == ContentHashMode::Enforce {
                        r matches Err(RunRecordReadError::MissingContentHash { path: p }) && p@ == path
                    } else {
                        loaded_outcome(r, path, lines, max_mem, mode, seq![missing_trailer_warning(path)])
                    },
                    Some(h) => if h != computed {
                        if mode == ContentHashMode::Enforce {
                            r matches Err(RunRecordReadError::Corrupted { path: p, expected_hash, actual_hash })
                                && p@ == path && expected_hash == h && actual_hash == computed
                        } else {
                            loaded_outcome(
                                r,
                                path,
                                lines,
                                max_mem,
                                mode,
                                seq![mismatch_warning(path, h, computed)],
                            )
                        }
                    } else {
                        loaded_outcome(r, path, lines, max_mem, mode, Seq::empty())
                    },
                }
            }
        },
    }
}

fn mismatch_warning_text(path: &str, expected: u64, computed: u64) -> (r: String)
    ensures
        r@ == mismatch_warning(path@, expected, computed),
{
    let mut w = "Warning: integrity check bypassed for '".to_owned();
    push_str(&mut w, path);
    push_str(&mut w, "': expected content_hash ");
    push_str(&mut w, format_hash(expected).as_str());
    push_str(&mut w, ", computed ");
    push_str(&mut w, format_hash(computed).as_str());
    push_str(&mut w, "; data may have been edited.");
    w
}

fn missing_trailer_warning_text(path: &str) -> (r: String)
    ensures
        r@ == missing_trailer_warning(path@),
{
    let mut w = "Warning: integrity check bypassed for '".to_owned();
    push_str(&mut w, path);
    push_str(&mut w, "': no content_hash trailer found.");
    w
}

fn board_hash_warning_text(which: &str, expected: u64, computed: u64) -> (r: String)
    ensures
        r@ == board_hash_warning(which@, expected, computed),
{
    let mut w = "Warning: ".to_owned();
    push_str(&mut w, which);
    push_str(&mut w, "_board_hash mismatch: expected ");
    push_str(&mut w, format_hash(expected).as_str());
    push_str(&mut w, ", computed ");
    push_str(&mut w, format_hash(computed).as_str());
    w
}

/// Checks the two board hashes of a parsed record: an error under
/// `Enforce`, warnings under `Ignore`.
fn check_board_hashes(
    path: &str,
    record: &RunRecord,
    mode: ContentHashMode,
    warnings: &mut Vec<String>,
) -> (r: Result<(), RunRecordReadError>)
    ensures
        match r {
            Ok(()) => (mode == ContentHashMode::Enforce ==> board_warnings(*record).len() == 0)
                && texts_of(final(warnings)@) == texts_of(old(warnings)@) + board_warnings(*record),
            Err(e) => mode == ContentHashMode::Enforce && board_corruption(e, path@, *record),
        },
{
    let ghost w0 = texts_of(warnings@);
    let initial_actual = board_grid_hash(&record.initial_board);
    let final_actual = board_grid_hash(&record.final_board);
    if initial_actual != record.result.initial_board_hash {
        match mode {
            ContentHashMode::Enforce => {
                return Err(
                    RunRecordReadError::Corrupted {
                        path: path.to_owned(),
                        expected_hash: record.result.initial_board_hash,
                        actual_hash: initial_actual,
                    },
                );
            },
            ContentHashMode::Ignore => {
                warnings.push(
                    board_hash_warning_text("initial", record.result.initial_board_hash, initial_actual),
                );
            },
        }
    }
    let ghost w1 = texts_of(warnings@);
    if final_actual != record.result.final_board_hash {
        match mode {
            ContentHashMode::Enforce => {
                return Err(
                    RunRecordReadError::Corrupted {
                        path: path.to_owned(),
                        expected_hash: record.result.final_board_hash,
                        actual_hash: final_actual,
                    },
                );
            },
            ContentHashMode::Ignore => {
                warnings.push(
                    board_hash_warning_text("final", record.result.final_board_hash, final_actual),
                );
            },
        }
    }
    proof {
        assert(texts_of(warnings@) =~= w0 + board_warnings(*record));
    }
    Ok(())
}

/// Reads a run record from the text `body` of the file at `path`, checking
/// its `content_hash` trailer and its board hashes as `content_hash_mode`
/// says.
#[verifier::rlimit(80)]
pub fn read_run_record_with_warnings(
    path: &str,
    body: &str,
    max_board_memory_bytes: usize,
    content_hash_mode: ContentHashMode,
) -> (r: Result<LoadedRunRecord, RunRecordReadError>)
    ensures
        run_record_read_result(r, path@, body@, max_board_memory_bytes, content_hash_mode),
{
    let kind = match sniff_from_reader(path, body.as_bytes()) {
        Ok(k) => k,
        Err(e) => {
            return Err(RunRecordReadError::Magic(e));
        },
    };
    if kind != FileKind::RunRecord {
        return Err(
            RunRecordReadError::UnexpectedFileKind {
                path: path.to_owned(),
                expected: FileKind::RunRecord,
                actual: kind,
            },
        );
    }
    let canonical = canonicalize_body(body);
    let (without_trailer, found) = split_off_trailer(canonical.as_str());
    let computed = fnv1a_64(without_trailer.as_str().as_bytes());
    let mut warnings: Vec<String> = Vec::new();
    match found {
        Some(expected_hash) => {
            if expected_hash != computed {
                match content_hash_mode {
                    ContentHashMode::Enforce => {
                        return Err(
                            RunRecordReadError::Corrupted {
                                path: path.to_owned(),
                                expected_hash,
                                actual_hash: computed,
                            },
                        );
                    },
                    ContentHashMode::Ignore => {
                        warnings.push(mismatch_warning_text(path, expected_hash, computed));
                        proof {
                            assert(texts_of(warnings@) =~= seq![
                                mismatch_warning(path@, expected_hash, computed),
                            ]);
                        }
                    },
                }
            }
        },
        None => match content_hash_mode {
            ContentHashMode::Enforce => {
                return Err(RunRecordReadError::MissingContentHash { path: path.to_owned() });
            },
            ContentHashMode::Ignore => {
                warnings.push(missing_trailer_warning_text(path));
                proof {
                    assert(texts_of(warnings@) =~= seq![missing_trailer_warning(path@)]);
                }
            },
        },
    }
    proof {
        if found is Some && found->0 == computed {
            assert(texts_of(warnings@) =~= Seq::<Seq<char>>::empty());
        }
    }
    finish_loading(path, without_trailer.as_str(), max_board_memory_bytes, content_hash_mode, warnings)
}

/// Parses the text left once the trailer check passed with the warnings
/// `warnings`, and checks the board hashes.
fn finish_loading(
    path: &str,
    text: &str,
    max_board_memory_bytes: usize,
    content_hash_mode: ContentHashMode,
    warnings: Vec<String>,
) -> (r: Result<LoadedRunRecord, RunRecordReadError>)
    ensures
        loaded_outcome(
            r,
            path@,
            body_lines(text@),
            max_board_memory_bytes,
            content_hash_mode,
            texts_of(warnings@),
        ),
{
    proof {
        reveal(loaded_outcome);
    }
    let mut warnings = warnings;
    let ghost lines = body_lines(text@);
    let record = match parse_record_text(path, text, max_board_memory_bytes) {
        Ok(rec) => rec,
        Err(e) => {
            return Err(e);
        },
    };
    match check_board_hashes(path, &record, content_hash_mode, &mut warnings) {
        Ok(()) => {},
        Err(e) => {
            proof {
                assert(record_outcome(Ok(record), path@, lines, max_board_memory_bytes));
            }
            return Err(e);
        },
    }
    Ok(LoadedRunRecord { record, warnings })
}

/// What reading a run record gives, its warnings set aside.
pub open spec fn record_read_result(
    r: Result<RunRecord, RunRecordReadError>,
    path: Seq<char>,
    body: Seq<char>,
    max_mem: usize,
    mode: ContentHashMode,
) -> bool {
    match r {
        Ok(rec) => exists|w: Vec<String>|
            #[trigger] run_record_read_result(
                Ok(LoadedRunRecord { record: rec, warnings: w }),
                path,
                body,
                max_mem,
                mode,
            ),
        Err(e) => run_record_read_result(Err(e), path, body, max_mem, mode),
    }
}

/// Reads a run record, dropping the warnings.
pub fn read_run_record(
    path: &str,
    body: &str,
    max_board_memory_bytes: usize,
    content_hash_mode: ContentHashMode,
) -> (r: Result<RunRecord, RunRecordReadError>)
    ensures
        record_read_result(r, path@, body@, max_board_memory_bytes, content_hash_mode),
{
    match read_run_record_with_warnings(path, body, max_board_memory_bytes, content_hash_mode) {
        Ok(loaded) => {
            let ghost w = loaded.warnings;
            proof {
                assert(loaded == LoadedRunRecord { record: loaded.record, warnings: w });
            }
            Ok(loaded.record)
        },
        Err(e) => Err(e),
    }
}

/// Reads a run record; the default input-size limit applies where the
/// body is read.
pub fn read_run_record_default(
    path: &str,
    body: &str,
    max_board_memory_bytes: usize,
    content_hash_mode: ContentHashMode,
) -> (r: Result<RunRecord, RunRecordReadError>)
    ensures
        record_read_result(r, path@, body@, max_board_memory_bytes, content_hash_mode),
{
    read_run_record(path, body, max_board_memory_bytes, content_hash_mode)
}

/// A snapshot of the initial or final board of a run record, created now.
pub fn extract_board_from_run(
    path: &str,
    body: &str,
    which: ExtractWhich,
    max_board_memory_bytes: usize,
    content_hash_mode: ContentHashMode,
) -> (r: Result<BoardSnapshot, ExtractBoardError>)
    ensures
        match r {
            Ok(s) => s.schema_version == crate::persistence::magic::SCHEMA_VERSION && exists|
                rec: RunRecord,
            |
                #[trigger] record_read_result(
                    Ok(rec),
                    path@,
                    body@,
                    max_board_memory_bytes,
                    content_hash_mode,
                ) && s.board == match which {
                    ExtractWhich::Initial => rec.initial_board,
                    ExtractWhich::Final => rec.final_board,
                },
            Err(ExtractBoardError::Read(e)) => run_record_read_result(
                Err(e),
                path@,
                body@,
                max_board_memory_bytes,
                content_hash_mode,
            ),
            Err(ExtractBoardError::Write(_)) => false,
        },
{
    let record = match read_run_record(path, body, max_board_memory_bytes, content_hash_mode) {
        Ok(rec) => rec,
        Err(e) => {
            return Err(ExtractBoardError::Read(e));
        },
    };
    let ghost rec = record;
    let board = match which {
        ExtractWhich::Initial => record.initial_board,
        ExtractWhich::Final => record.final_board,
    };
    let snapshot = BoardSnapshot::for_board(board);
    proof {
        assert(record_read_result(Ok(rec), path@, body@, max_board_memory_bytes, content_hash_mode));
    }
    Ok(snapshot)
}

} // verus!
