//! A written run record reads back as the record that was written.
use vstd::prelude::*;

use crate::board::board_size::size_text;
use crate::board::InMemoryBoard;
use crate::persistence::board_snapshot::block_text;
use crate::persistence::hash::{fnv1a, hash_text};
use crate::persistence::magic::RUN_RECORD_MAGIC;
use crate::persistence::round_trip::{block_lines, lemma_block_text_join};
use crate::persistence::run_id::run_id_text;
use crate::persistence::run_record::{
    config_text, field_text, header_text, number_text, result_text, run_record_body_text,
    RunRecord, RunRecordConfig, RunRecordResult, FINAL_BOARD_LABEL, INITIAL_BOARD_LABEL,
};
use crate::persistence::text_lines::{join_lines, lemma_join_lines_append, lemma_join_lines_one};
use crate::persistence::timestamps::timestamp_text;
use crate::persistence::canonical::{
    canonical_line, canonical_text, joined, kept, lemma_pieces_last, lemma_pieces_step, pieces,
    squeeze_end, trailer_hash, trailer_split,
};
use crate::persistence::hash::{lemma_format_then_parse_hash, parse_hash_spec};
use crate::persistence::parser::without_trailing_cr;
use crate::text::{is_ws, trim, trim_end, trim_start};
use crate::persistence::round_trip::{lemma_trim_end_keep, lemma_trim_keep, lemma_trim_start_keep};
use crate::persistence::lines::{is_blank, next_nonblank};
use crate::persistence::parser::{begin_keyword, dashes, fence_label, field_line_parts, section_header_name};
use crate::persistence::record_reader::{config_layout, header_layout, nones, result_layout, grid_hash};
use crate::persistence::run_record::recognized_status;
use crate::persistence::run_id::{lemma_format_then_parse_run_id, lemma_run_id_text_chars, is_lower_hex_char};
use crate::persistence::round_trip::writable_board;
use crate::persistence::sections::{
    ends_section, field_spec, first_missing, key_index, section_scan, FieldKind, FieldSpec, SectionLayout,
    SectionStop,
};

verus! {

/// The line `key: value`.
pub open spec fn kv(key: Seq<char>, value: Seq<char>) -> Seq<char> {
    key + seq![':', ' '] + value
}

pub open spec fn record_header_lines(r: RunRecord) -> Seq<Seq<char>> {
    seq![
        RUN_RECORD_MAGIC@,
        kv("run_id"@, run_id_text(r.run_id.0@)),
        kv("schema_version"@, number_text(r.schema_version as nat)),
        kv("created_at"@, timestamp_text(r.created_at as nat)),
        kv("tool_version"@, r.tool_version@),
    ]
}

pub open spec fn continued_line(c: RunRecordConfig) -> Seq<char> {
    match c.continued_from {
        Some(id) => kv("continued_from"@, run_id_text(id.0@)),
        None => "continued_from:"@,
    }
}

pub open spec fn record_config_lines(c: RunRecordConfig) -> Seq<Seq<char>> {
    seq![
        "[config]"@,
        kv("board_size"@, size_text(c.board_size.0 as nat, c.board_size.1 as nat)),
        kv("max_iterations"@, number_text(c.max_iterations as nat)),
        kv("max_board_memory_bytes"@, number_text(c.max_board_memory_bytes as nat)),
        kv("initial_board_source"@, c.initial_board_source@),
        kv("random_seed"@, number_text(c.random_seed as nat)),
        kv("updater"@, c.updater@),
        continued_line(c),
    ]
}

pub open spec fn record_result_lines(r: RunRecordResult) -> Seq<Seq<char>> {
    seq![
        "[result]"@,
        kv("status"@, r.status@),
        kv("iterations_run"@, number_text(r.iterations_run as nat)),
        kv("wall_time_ms"@, number_text(r.wall_time_ms as nat)),
        kv("initial_alive_count"@, number_text(r.initial_alive_count as nat)),
        kv("final_alive_count"@, number_text(r.final_alive_count as nat)),
        kv("peak_alive_count"@, number_text(r.peak_alive_count as nat)),
        kv("peak_alive_generation"@, number_text(r.peak_alive_generation as nat)),
        kv("min_alive_count"@, number_text(r.min_alive_count as nat)),
        kv("min_alive_generation"@, number_text(r.min_alive_generation as nat)),
        kv("total_births"@, number_text(r.total_births as nat)),
        kv("total_deaths"@, number_text(r.total_deaths as nat)),
        kv("initial_board_hash"@, hash_text(r.initial_board_hash)),
        kv("final_board_hash"@, hash_text(r.final_board_hash)),
    ]
}

/// The lines of a written run record body.
pub open spec fn record_lines(r: RunRecord) -> Seq<Seq<char>> {
    record_header_lines(r) + seq![Seq::<char>::empty()] + record_config_lines(r.config) + seq![
        Seq::<char>::empty(),
    ] + record_result_lines(r.result) + seq![Seq::<char>::empty()] + block_lines(
        INITIAL_BOARD_LABEL@,
        r.initial_board,
    ) + seq![Seq::<char>::empty()] + block_lines(FINAL_BOARD_LABEL@, r.final_board)
}

proof fn lemma_join_push(s: Seq<Seq<char>>, l: Seq<char>)
    ensures
        join_lines(s.push(l)) == join_lines(s) + l + seq!['\n'],
{
    assert(s.push(l) =~= s + seq![l]);
    lemma_join_lines_append(s, seq![l]);
    lemma_join_lines_one(l);
    assert(join_lines(s) + (l + seq!['\n']) =~= join_lines(s) + l + seq!['\n']);
}

proof fn lemma_field_text(key: Seq<char>, value: Seq<char>)
    ensures
        field_text(key, value) == kv(key, value) + seq!['\n'],
{
    reveal_strlit(": ");
    assert(field_text(key, value) =~= kv(key, value) + seq!['\n']);
}

proof fn lemma_header_join(r: RunRecord)
    ensures
        header_text(r) == join_lines(record_header_lines(r)),
{
    let ls = record_header_lines(r);
    let s0 = Seq::<Seq<char>>::empty();
    assert(join_lines(s0) == Seq::<char>::empty());
    lemma_join_push(s0, ls[0]);
    let s1 = s0.push(ls[0]);
    lemma_join_push(s1, ls[1]);
    let s2 = s1.push(ls[1]);
    lemma_join_push(s2, ls[2]);
    let s3 = s2.push(ls[2]);
    lemma_join_push(s3, ls[3]);
    let s4 = s3.push(ls[3]);
    lemma_join_push(s4, ls[4]);
    let s5 = s4.push(ls[4]);
    assert(s5 =~= ls);
    lemma_field_text("run_id"@, run_id_text(r.run_id.0@));
    lemma_field_text("schema_version"@, number_text(r.schema_version as nat));
    lemma_field_text("created_at"@, timestamp_text(r.created_at as nat));
    lemma_field_text("tool_version"@, r.tool_version@);
    assert(header_text(r) =~= join_lines(s5));
}

proof fn lemma_config_join(c: RunRecordConfig)
    ensures
        config_text(c) == join_lines(record_config_lines(c)),
{
    let ls = record_config_lines(c);
    let s0 = Seq::<Seq<char>>::empty();
    assert(join_lines(s0) == Seq::<char>::empty());
    lemma_join_push(s0, ls[0]);
    let s1 = s0.push(ls[0]);
    lemma_join_push(s1, ls[1]);
    let s2 = s1.push(ls[1]);
    lemma_join_push(s2, ls[2]);
    let s3 = s2.push(ls[2]);
    lemma_join_push(s3, ls[3]);
    let s4 = s3.push(ls[3]);
    lemma_join_push(s4, ls[4]);
    let s5 = s4.push(ls[4]);
    lemma_join_push(s5, ls[5]);
    let s6 = s5.push(ls[5]);
    lemma_join_push(s6, ls[6]);
    let s7 = s6.push(ls[6]);
    lemma_join_push(s7, ls[7]);
    let s8 = s7.push(ls[7]);
    assert(s8 =~= ls);
    reveal_strlit("[config]");
    lemma_field_text("board_size"@, size_text(c.board_size.0 as nat, c.board_size.1 as nat));
    lemma_field_text("max_iterations"@, number_text(c.max_iterations as nat));
    lemma_field_text("max_board_memory_bytes"@, number_text(c.max_board_memory_bytes as nat));
    lemma_field_text("initial_board_source"@, c.initial_board_source@);
    lemma_field_text("random_seed"@, number_text(c.random_seed as nat));
    lemma_field_text("updater"@, c.updater@);
    match c.continued_from {
        Some(id) => {
            lemma_field_text("continued_from"@, run_id_text(id.0@));
        },
        None => {},
    }
    assert(config_text(c) =~= join_lines(s8));
}

#[verifier::spinoff_prover]
#[verifier::rlimit(100)]
proof fn lemma_result_join(r: RunRecordResult)
    ensures
        result_text(r) == join_lines(record_result_lines(r)),
{
    let ls = record_result_lines(r);
    let s0 = Seq::<Seq<char>>::empty();
    assert(join_lines(s0) == Seq::<char>::empty());
    lemma_join_push(s0, ls[0]);
    let s1 = s0.push(ls[0]);
    lemma_join_push(s1, ls[1]);
    let s2 = s1.push(ls[1]);
    lemma_join_push(s2, ls[2]);
    let s3 = s2.push(ls[2]);
    lemma_join_push(s3, ls[3]);
    let s4 = s3.push(ls[3]);
    lemma_join_push(s4, ls[4]);
    let s5 = s4.push(ls[4]);
    lemma_join_push(s5, ls[5]);
    let s6 = s5.push(ls[5]);
    lemma_join_push(s6, ls[6]);
    let s7 = s6.push(ls[6]);
    lemma_join_push(s7, ls[7]);
    let s8 = s7.push(ls[7]);
    lemma_join_push(s8, ls[8]);
    let s9 = s8.push(ls[8]);
    lemma_join_push(s9, ls[9]);
    let s10 = s9.push(ls[9]);
    lemma_join_push(s10, ls[10]);
    let s11 = s10.push(ls[10]);
    lemma_join_push(s11, ls[11]);
    let s12 = s11.push(ls[11]);
    lemma_join_push(s12, ls[12]);
    let s13 = s12.push(ls[12]);
    lemma_join_push(s13, ls[13]);
    let s14 = s13.push(ls[13]);
    assert(s14 =~= ls);
    reveal_strlit("[result]");
    lemma_field_text("status"@, r.status@);
    lemma_field_text("iterations_run"@, number_text(r.iterations_run as nat));
    lemma_field_text("wall_time_ms"@, number_text(r.wall_time_ms as nat));
    lemma_field_text("initial_alive_count"@, number_text(r.initial_alive_count as nat));
    lemma_field_text("final_alive_count"@, number_text(r.final_alive_count as nat));
    lemma_field_text("peak_alive_count"@, number_text(r.peak_alive_count as nat));
    lemma_field_text("peak_alive_generation"@, number_text(r.peak_alive_generation as nat));
    lemma_field_text("min_alive_count"@, number_text(r.min_alive_count as nat));
    lemma_field_text("min_alive_generation"@, number_text(r.min_alive_generation as nat));
    lemma_field_text("total_births"@, number_text(r.total_births as nat));
    lemma_field_text("total_deaths"@, number_text(r.total_deaths as nat));
    lemma_field_text("initial_board_hash"@, hash_text(r.initial_board_hash));
    lemma_field_text("final_board_hash"@, hash_text(r.final_board_hash));
    assert(join_lines(s7) =~= "[result]"@ + seq!['\n'] + field_text("status"@, r.status@) + field_text(
        "iterations_run"@,
        number_text(r.iterations_run as nat),
    ) + field_text("wall_time_ms"@, number_text(r.wall_time_ms as nat)) + field_text(
        "initial_alive_count"@,
        number_text(r.initial_alive_count as nat),
    ) + field_text("final_alive_count"@, number_text(r.final_alive_count as nat)) + field_text(
        "peak_alive_count"@,
        number_text(r.peak_alive_count as nat),
    ));
    assert(result_text(r) =~= join_lines(s14));
}

/// The body of a written record is its lines, each ended by a newline.
pub proof fn lemma_record_body_join(r: RunRecord)
    ensures
        run_record_body_text(r) == join_lines(record_lines(r)),
{
    let e = seq![Seq::<char>::empty()];
    let h = record_header_lines(r);
    let c = record_config_lines(r.config);
    let res = record_result_lines(r.result);
    let bi = block_lines(INITIAL_BOARD_LABEL@, r.initial_board);
    let bf = block_lines(FINAL_BOARD_LABEL@, r.final_board);
    lemma_header_join(r);
    lemma_config_join(r.config);
    lemma_result_join(r.result);
    lemma_block_text_join(INITIAL_BOARD_LABEL@, r.initial_board);
    lemma_block_text_join(FINAL_BOARD_LABEL@, r.final_board);
    lemma_join_lines_one(Seq::<char>::empty());
    let a1 = h + e;
    let a2 = a1 + c;
    let a3 = a2 + e;
    let a4 = a3 + res;
    let a5 = a4 + e;
    let a6 = a5 + bi;
    let a7 = a6 + e;
    let a8 = a7 + bf;
    lemma_join_lines_append(h, e);
    lemma_join_lines_append(a1, c);
    lemma_join_lines_append(a2, e);
    lemma_join_lines_append(a3, res);
    lemma_join_lines_append(a4, e);
    lemma_join_lines_append(a5, bi);
    lemma_join_lines_append(a6, e);
    lemma_join_lines_append(a7, bf);
    assert(a8 == record_lines(r));
    assert(Seq::<char>::empty() + seq!['\n'] =~= seq!['\n']);
    assert(run_record_body_text(r) =~= join_lines(a8));
}

/// A line with no newline and no trailing white space (which also rules
/// out a trailing carriage return).
pub open spec fn clean_line(l: Seq<char>) -> bool {
    &&& forall|i: int| 0 <= i < l.len() ==> l[i] != '\n'
    &&& (l.len() == 0 || !is_ws(l.last()))
}

pub open spec fn all_clean(ls: Seq<Seq<char>>) -> bool {
    forall|k: int| 0 <= k < ls.len() ==> clean_line(#[trigger] ls[k])
}

proof fn lemma_clean_canonical(l: Seq<char>)
    requires
        clean_line(l),
    ensures
        canonical_line(l) == l,
{
    if l.len() > 0 {
        assert(l.last() != '\r');
        assert(without_trailing_cr(l) == l);
        lemma_trim_end_keep(l);
    } else {
        assert(without_trailing_cr(l) == l);
    }
}

/// Text made of lines without newlines splits at `\n` into those lines and
/// an empty last piece.
proof fn lemma_pieces_join(ls: Seq<Seq<char>>)
    requires
        all_clean(ls),
    ensures
        pieces(join_lines(ls)) == ls + seq![Seq::<char>::empty()],
    decreases ls.len(),
{
    if ls.len() == 0 {
        lemma_pieces_last(Seq::<char>::empty());
        assert(ls + seq![Seq::<char>::empty()] =~= seq![Seq::<char>::empty()]);
    } else {
        let a = ls[0];
        let rest = ls.drop_first();
        assert(clean_line(a));
        assert forall|k: int| 0 <= k < rest.len() implies clean_line(#[trigger] rest[k]) by {
            assert(rest[k] == ls[k + 1]);
        }
        lemma_pieces_join(rest);
        let t = join_lines(ls);
        assert(t =~= a + seq!['\n'] + join_lines(rest));
        assert forall|j: int| 0 <= j < a.len() implies t[j] != '\n' by {
            assert(t[j] == a[j]);
        }
        assert(t[a.len() as int] == '\n');
        lemma_pieces_step(t, a.len() as int);
        assert(t.take(a.len() as int) =~= a);
        assert(t.skip(a.len() + 1int) =~= join_lines(rest));
        assert(ls + seq![Seq::<char>::empty()] =~= seq![a] + (rest + seq![Seq::<char>::empty()]));
    }
}

/// Clean lines and an empty last piece, canonicalized and joined with
/// newlines, give the lines each ended by a newline.
proof fn lemma_joined_clean(ls: Seq<Seq<char>>)
    requires
        all_clean(ls),
    ensures
        joined((ls + seq![Seq::<char>::empty()]).map_values(|p: Seq<char>| canonical_line(p))) == join_lines(ls),
    decreases ls.len(),
{
    let e = seq![Seq::<char>::empty()];
    let f = |p: Seq<char>| canonical_line(p);
    assert(canonical_line(Seq::<char>::empty()) == Seq::<char>::empty()) by {
        lemma_clean_canonical(Seq::<char>::empty());
    }
    if ls.len() == 0 {
        assert((ls + e).map_values(f) =~= e);
    } else {
        let a = ls[0];
        let rest = ls.drop_first();
        assert(clean_line(a));
        lemma_clean_canonical(a);
        assert forall|k: int| 0 <= k < rest.len() implies clean_line(#[trigger] rest[k]) by {
            assert(rest[k] == ls[k + 1]);
        }
        lemma_joined_clean(rest);
        let m = (ls + e).map_values(f);
        assert(m.len() >= 2);
        assert(m.drop_first() =~= (rest + e).map_values(f));
        assert(m[0] == a);
        assert(join_lines(ls) == a + seq!['\n'] + join_lines(rest));
    }
}

/// Text whose last line is not empty has no run of newlines at its end.
proof fn lemma_squeeze_join(ls: Seq<Seq<char>>)
    requires
        ls.len() > 0,
        ls.last().len() > 0,
        clean_line(ls.last()),
    ensures
        squeeze_end(join_lines(ls)) == join_lines(ls),
        join_lines(ls).len() > 0,
        join_lines(ls).last() == '\n',
{
    let t = join_lines(ls);
    let init = ls.drop_last();
    assert(ls =~= init.push(ls.last()));
    lemma_join_push(init, ls.last());
    let l = ls.last();
    assert(t[t.len() - 2] == l.last());
}

/// Canonical text is left as it is by canonicalization.
proof fn lemma_canonical_clean(ls: Seq<Seq<char>>)
    requires
        all_clean(ls),
        ls.len() > 0,
        ls.last().len() > 0,
    ensures
        canonical_text(join_lines(ls)) == join_lines(ls),
        pieces(join_lines(ls)) == ls + seq![Seq::<char>::empty()],
{
    lemma_pieces_join(ls);
    lemma_joined_clean(ls);
    assert(clean_line(ls.last()));
    lemma_squeeze_join(ls);
}

/// The `content_hash` trailer line for `h`.
pub open spec fn trailer_line(h: u64) -> Seq<char> {
    kv("content_hash"@, hash_text(h))
}

proof fn lemma_hash_text_clean(h: u64)
    ensures
        hash_text(h).len() == 18,
        hash_text(h)[0] == '0',
        !is_ws(hash_text(h).last()),
        clean_line(hash_text(h)),
        forall|i: int| 0 <= i < hash_text(h).len() ==> #[trigger] hash_text(h)[i] != ':',
{
    let d = crate::text::hex_digits(h as nat, 16);
    crate::persistence::hash::lemma_hex_digits_round_trip(h as nat, 16);
    let t = hash_text(h);
    assert forall|i: int| 0 <= i < t.len() implies t[i] != '\n' && t[i] != ':' && (i >= 2 ==> !is_ws(t[i])) by {
        if i >= 2 {
            assert(t[i] == d[i - 2]);
            assert(crate::text::is_hex_digit(d[i - 2]));
        }
    }
}

proof fn lemma_trailer_hash(h: u64)
    ensures
        trailer_hash(trailer_line(h)) == Some(h),
        clean_line(trailer_line(h)),
        trailer_line(h).len() > 0,
{
    let name = "content_hash"@;
    reveal_strlit("content_hash");
    let t = hash_text(h);
    lemma_hash_text_clean(h);
    let l = trailer_line(h);
    assert(l.take(12) =~= name);
    let rest = l.skip(12);
    assert(rest =~= seq![':', ' '] + t);
    lemma_trim_start_keep(rest);
    assert(rest.drop_first() =~= seq![' '] + t);
    crate::persistence::round_trip::lemma_trim_spaces(t);
    lemma_trim_keep(t);
    lemma_format_then_parse_hash(h);
    assert forall|i: int| 0 <= i < l.len() implies l[i] != '\n' by {
        if i >= 14 {
            assert(l[i] == t[i - 14]);
        }
    }
    assert(l.last() == t.last());
}

#[verifier::spinoff_prover]
proof fn lemma_kept_clean_end(ls: Seq<Seq<char>>)
    requires
        ls.len() > 0,
        ls.last().len() > 0,
    ensures
        kept(ls) == ls.len(),
        kept(ls + seq![Seq::<char>::empty()]) == ls.len(),
{
    let e = ls + seq![Seq::<char>::empty()];
    assert(e.drop_last() =~= ls);
}

/// The text of a written record, trailer included, is canonical, and
/// splitting off its trailer gives back the body and the body's hash.
pub proof fn lemma_record_trailer_split(ls: Seq<Seq<char>>, h: u64)
    requires
        all_clean(ls),
        ls.len() > 0,
        ls.last().len() > 0,
    ensures
        canonical_text(join_lines(ls + seq![Seq::<char>::empty(), trailer_line(h)])) == join_lines(
            ls + seq![Seq::<char>::empty(), trailer_line(h)],
        ),
        trailer_split(join_lines(ls + seq![Seq::<char>::empty(), trailer_line(h)])) == (
            join_lines(ls),
            Some(h),
        ),
{
    let e = Seq::<char>::empty();
    let all = ls + seq![e, trailer_line(h)];
    lemma_trailer_hash(h);
    assert(all_clean(all)) by {
        assert forall|k: int| 0 <= k < all.len() implies clean_line(#[trigger] all[k]) by {
            if k < ls.len() {
                assert(all[k] == ls[k]);
            }
        }
    }
    assert(all.last() == trailer_line(h));
    lemma_canonical_clean(all);
    let ps = pieces(join_lines(all));
    assert(ps == all + seq![e]);
    lemma_kept_clean_end(all);
    assert(ps.len() == ls.len() + 3);
    assert(ps[ls.len() + 1int] == trailer_line(h));
    let body = ps.take(ls.len() + 1int);
    assert(body =~= ls + seq![e]);
    lemma_kept_clean_end(ls);
    assert(body.take(ls.len() as int) =~= ls);
}

/// A value that a `key: value` line carries and gives back.
pub open spec fn text_ok(v: Seq<char>) -> bool {
    &&& v.len() > 0
    &&& !is_ws(v[0])
    &&& !is_ws(v.last())
    &&& forall|i: int| 0 <= i < v.len() ==> v[i] != '\n'
}

/// A key made of lower-case letters and underscores.
pub open spec fn key_ok(k: Seq<char>) -> bool {
    &&& k.len() > 0
    &&& forall|i: int| 0 <= i < k.len() ==> ('a' <= #[trigger] k[i] <= 'z' || k[i] == '_')
}

/// A `key: value` line is clean, reads back as its key and value, and is
/// neither blank, a section header nor a fence.
pub proof fn lemma_kv_line(key: Seq<char>, v: Seq<char>)
    requires
        key_ok(key),
        text_ok(v),
    ensures
        clean_line(kv(key, v)),
        field_line_parts(kv(key, v)) == Some((key, v)),
        !is_blank(kv(key, v)),
        section_header_name(kv(key, v)) is None,
        fence_label(kv(key, v), begin_keyword()) is None,
{
    let l = kv(key, v);
    assert('a' <= key[0] <= 'z' || key[0] == '_');
    assert('a' <= key[key.len() - 1] <= 'z' || key[key.len() - 1] == '_');
    assert(!is_ws(key[0]) && !is_ws(key.last()));
    assert forall|i: int| 0 <= i < key.len() implies key[i] != ':' by {
        assert('a' <= key[i] <= 'z' || key[i] == '_');
    }
    crate::persistence::round_trip::lemma_key_value_line(key, v);
    assert(l[0] == key[0]);
    assert(l.last() == v.last());
    lemma_trim_keep(l);
    assert forall|i: int| 0 <= i < l.len() implies l[i] != '\n' by {
        if i < key.len() {
            assert('a' <= key[i] <= 'z' || key[i] == '_');
        } else if i >= key.len() + 2 {
            assert(l[i] == v[i - key.len() - 2]);
        }
    }
    assert(trim(l).len() > 0);
    assert(trim(l)[0] != '[');
    assert(trim(l) == l);
    assert(l[0] != '-');
    if l.len() >= 10 {
        assert(l.take(5)[0] == l[0]);
        assert(l.take(5) != dashes());
    }
}

/// The value facts that a digit string gives.
pub proof fn lemma_digits_wide(n: nat)
    requires
        n <= u64::MAX,
    ensures
        text_ok(number_text(n)),
        crate::text::parse_unsigned(trim(number_text(n)), u64::MAX as nat) == Some(n),
        n <= usize::MAX ==> crate::text::parse_unsigned(trim(number_text(n)), usize::MAX as nat) == Some(n),
        crate::text::parse_unsigned(number_text(n), u32::MAX as nat) == if n <= u32::MAX {
            Some(n)
        } else {
            None::<nat>
        },
{
    assert(crate::text::pow10(20) == 100_000_000_000_000_000_000) by {
        reveal_with_fuel(crate::text::pow10, 21);
    }
    crate::text::lemma_decimal_digits(n, 20);
    let d = crate::text::decimal_digits(n);
    assert(crate::text::is_digit(d[0]));
    assert(crate::text::is_digit(d.last()));
    assert forall|i: int| 0 <= i < d.len() implies d[i] != '\n' by {
        assert(crate::text::is_digit(d[i]));
    }
    lemma_trim_keep(d);
}

/// The values of keys `j..j + n` set, in order, from their texts.
pub open spec fn fill(
    st: Seq<Option<FieldSpec>>,
    kinds: Seq<FieldKind>,
    texts: Seq<Seq<char>>,
    j: nat,
    n: nat,
) -> Seq<Option<FieldSpec>>
    decreases n,
{
    if n == 0 {
        st
    } else {
        fill(st.update(j as int, field_spec(kinds[j as int], texts[j as int])), kinds, texts, j + 1, (n - 1) as nat)
    }
}

/// Whether line `k + i` is the line of key `j + i` with its text, for
/// `i < n`.
pub open spec fn field_lines_at(
    lines: Seq<Seq<char>>,
    k: nat,
    layout: SectionLayout,
    texts: Seq<Seq<char>>,
    j: nat,
    n: nat,
) -> bool {
    forall|i: int|
        0 <= i < n ==> {
            let l = #[trigger] lines[k + i];
            &&& field_line_parts(l) == Some((layout.keys[j + i], texts[j + i]))
            &&& !is_blank(l)
            &&& !ends_section(layout, l)
            &&& field_spec(layout.kinds[j + i], texts[j + i]) is Some
            &&& key_index(layout.keys, layout.keys[j + i]) == Some(j + i)
        }
}

/// Reading `n` consecutive field lines stores their values in order.
pub proof fn lemma_scan_fields(
    lines: Seq<Seq<char>>,
    k: nat,
    layout: SectionLayout,
    st: Seq<Option<FieldSpec>>,
    texts: Seq<Seq<char>>,
    j: nat,
    n: nat,
)
    requires
        k + n <= lines.len(),
        j + n <= st.len(),
        field_lines_at(lines, k, layout, texts, j, n),
        forall|i: int| j <= i < j + n ==> #[trigger] st[i] is None,
    ensures
        section_scan(lines, k, layout, st) == section_scan(lines, k + n, layout, fill(st, layout.kinds, texts, j, n)),
    decreases n,
{
    if n > 0 {
        let l = lines[k as int];
        assert(lines[k + 0int] == l);
        assert(next_nonblank(lines, k) == k);
        let st1 = st.update(j as int, field_spec(layout.kinds[j as int], texts[j as int]));
        assert(section_scan(lines, k, layout, st) == section_scan(lines, k + 1, layout, st1));
        assert(field_lines_at(lines, k + 1, layout, texts, j + 1, (n - 1) as nat)) by {
            assert forall|i: int| 0 <= i < n - 1 implies {
                let l = #[trigger] lines[(k + 1) + i];
                &&& field_line_parts(l) == Some((layout.keys[(j + 1) + i], texts[(j + 1) + i]))
                &&& !is_blank(l)
                &&& !ends_section(layout, l)
                &&& field_spec(layout.kinds[(j + 1) + i], texts[(j + 1) + i]) is Some
                &&& key_index(layout.keys, layout.keys[(j + 1) + i]) == Some((j + 1) + i)
            } by {
                assert(lines[k + (i + 1)] == lines[(k + 1) + i]);
            }
        }
        assert forall|i: int| j + 1 <= i < j + 1 + (n - 1) implies #[trigger] st1[i] is None by {
            assert(st[i] is None);
        }
        lemma_scan_fields(lines, k + 1, layout, st1, texts, j + 1, (n - 1) as nat);
    }
}

/// Distinct keys are found at their own index.
pub proof fn lemma_key_index_distinct(keys: Seq<Seq<char>>, i: int)
    requires
        0 <= i < keys.len(),
        forall|a: int, b: int| 0 <= a < b < keys.len() ==> keys[a] != keys[b],
    ensures
        key_index(keys, keys[i]) == Some(i),
    decreases keys.len(),
{
    if i < keys.len() - 1 {
        let d = keys.drop_last();
        lemma_key_index_distinct(d, i);
        assert(d[i] == keys[i]);
        assert(keys.last() != keys[i]);
    } else {
        lemma_key_index_absent(keys.drop_last(), keys[i]);
    }
}

proof fn lemma_key_index_absent(keys: Seq<Seq<char>>, key: Seq<char>)
    requires
        forall|a: int| 0 <= a < keys.len() ==> keys[a] != key,
    ensures
        key_index(keys, key) is None,
    decreases keys.len(),
{
    if keys.len() > 0 {
        lemma_key_index_absent(keys.drop_last(), key);
    }
}

/// A record whose written text reads back as the record: its texts are
/// single-line and free of surrounding white space, its status is known,
/// its boards can be written, its board hashes are those of its boards,
/// and its schema version and time of creation are the readable ones.
pub open spec fn writable_record(r: RunRecord) -> bool {
    &&& r.schema_version == crate::persistence::magic::SCHEMA_VERSION
    &&& r.created_at < 253_402_300_800
    &&& text_ok(r.tool_version@)
    &&& text_ok(r.config.initial_board_source@)
    &&& text_ok(r.config.updater@)
    &&& recognized_status(r.result.status@)
    &&& writable_board(r.initial_board)
    &&& writable_board(r.final_board)
    &&& r.result.initial_board_hash == grid_hash(r.initial_board)
    &&& r.result.final_board_hash == grid_hash(r.final_board)
}

proof fn lemma_run_id_text_ok(b: Seq<u8>)
    requires
        b.len() == 16,
    ensures
        text_ok(run_id_text(b)),
{
    lemma_run_id_text_chars(b);
    let t = run_id_text(b);
    assert(is_lower_hex_char(t[0]));
    assert(is_lower_hex_char(t[35]));
    assert forall|i: int| 0 <= i < t.len() implies t[i] != '\n' by {
        if i != 8 && i != 13 && i != 18 && i != 23 {
            assert(is_lower_hex_char(t[i]));
        }
    }
}

proof fn lemma_timestamp_text_ok(t: nat)
    requires
        t < 253_402_300_800,
    ensures
        text_ok(timestamp_text(t)),
        crate::persistence::timestamps::parsed_utc(timestamp_text(t)) == Some(t),
{
    crate::persistence::timestamps::lemma_format_then_parse_utc(t);
    let s = timestamp_text(t);
    assert(s[0] != '\n' && !is_ws(s[0]));
    assert(!is_ws(s[19]));
}

proof fn lemma_header_keys()
    ensures
        forall|i: int| 0 <= i < 4 ==> key_ok(#[trigger] header_layout().keys[i]),
        forall|a: int, b: int| 0 <= a < b < 4 ==> header_layout().keys[a] != header_layout().keys[b],
{
    reveal_strlit("run_id");
    reveal_strlit("schema_version");
    reveal_strlit("created_at");
    reveal_strlit("tool_version");
    let k = header_layout().keys;
    assert(key_ok(k[0]) && key_ok(k[1]) && key_ok(k[2]) && key_ok(k[3]));
}

/// The header of a written record reads as its run id, schema version,
/// time of creation and tool version, ending before the `[config]` line.
#[verifier::spinoff_prover]
#[verifier::rlimit(60)]
pub proof fn lemma_record_header_scan(r: RunRecord)
    requires
        writable_record(r),
    ensures
        section_scan(record_lines(r), 1, header_layout(), nones(4)) == (
            SectionStop::Done(6),
            seq![
                Some(FieldSpec::Id(r.run_id.0@)),
                Some(FieldSpec::Number(r.schema_version as nat)),
                Some(FieldSpec::Number(r.created_at as nat)),
                Some(FieldSpec::Text(r.tool_version@)),
            ],
        ),
{
    let lines = record_lines(r);
    let layout = header_layout();
    let texts = seq![
        run_id_text(r.run_id.0@),
        number_text(r.schema_version as nat),
        timestamp_text(r.created_at as nat),
        r.tool_version@,
    ];
    lemma_header_keys();
    lemma_run_id_text_ok(r.run_id.0@);
    lemma_format_then_parse_run_id(r.run_id);
    lemma_digits_wide(r.schema_version as nat);
    lemma_timestamp_text_ok(r.created_at as nat);
    assert forall|i: int| 0 <= i < 4 implies key_index(layout.keys, layout.keys[i]) == Some(i) by {
        lemma_key_index_distinct(layout.keys, i);
    }
    assert forall|i: int| 0 <= i < 4 implies text_ok(#[trigger] texts[i]) by {}
    assert forall|i: int| 0 <= i < 4 implies lines[1 + i] == kv(#[trigger] layout.keys[i], texts[i]) by {}
    assert forall|i: int| 0 <= i < 4 implies field_spec(#[trigger] layout.kinds[i], texts[i]) is Some by {}
    assert(field_lines_at(lines, 1, layout, texts, 0, 4)) by {
        assert forall|i: int| 0 <= i < 4 implies {
            let l = #[trigger] lines[1 + i];
            &&& field_line_parts(l) == Some((layout.keys[0 + i], texts[0 + i]))
            &&& !is_blank(l)
            &&& !ends_section(layout, l)
            &&& field_spec(layout.kinds[0 + i], texts[0 + i]) is Some
            &&& key_index(layout.keys, layout.keys[0 + i]) == Some(0 + i)
        } by {
            lemma_kv_line(layout.keys[i], texts[i]);
        }
    }
    lemma_scan_fields(lines, 1, layout, nones(4), texts, 0, 4);
    let st4 = fill(nones(4), layout.kinds, texts, 0, 4);
    reveal_with_fuel(fill, 5);
    assert(st4 =~= seq![
        Some(FieldSpec::Id(r.run_id.0@)),
        Some(FieldSpec::Number(r.schema_version as nat)),
        Some(FieldSpec::Number(r.created_at as nat)),
        Some(FieldSpec::Text(r.tool_version@)),
    ]);
    assert(lines[5] == Seq::<char>::empty());
    assert(is_blank(lines[5]));
    lemma_config_header_line();
    assert(lines[6] == "[config]"@);
    assert(next_nonblank(lines, 6) == 6);
    assert(next_nonblank(lines, 5) == 6);
}

proof fn lemma_config_header_line()
    ensures
        section_header_name("[config]"@) == Some("config"@),
        section_header_name("[result]"@) == Some("result"@),
        !is_blank("[config]"@),
        !is_blank("[result]"@),
        clean_line("[config]"@),
        clean_line("[result]"@),
        fence_label("[config]"@, begin_keyword()) is None,
        fence_label("[result]"@, begin_keyword()) is None,
{
    reveal_strlit("[config]");
    reveal_strlit("[result]");
    reveal_strlit("config");
    reveal_strlit("result");
    let c = "[config]"@;
    let r = "[result]"@;
    lemma_trim_keep(c);
    lemma_trim_keep(r);
    let ci = c.subrange(1, 7);
    let ri = r.subrange(1, 7);
    lemma_trim_keep(ci);
    lemma_trim_keep(ri);
    assert(ci =~= "config"@);
    assert(ri =~= "result"@);
}

proof fn lemma_config_keys()
    ensures
        forall|i: int| 0 <= i < 7 ==> key_ok(#[trigger] config_layout().keys[i]),
        forall|a: int, b: int| 0 <= a < b < 7 ==> config_layout().keys[a] != config_layout().keys[b],
{
    reveal_strlit("board_size");
    reveal_strlit("max_iterations");
    reveal_strlit("max_board_memory_bytes");
    reveal_strlit("initial_board_source");
    reveal_strlit("random_seed");
    reveal_strlit("updater");
    reveal_strlit("continued_from");
    let k = config_layout().keys;
    assert(key_ok(k[0]) && key_ok(k[1]) && key_ok(k[2]) && key_ok(k[3]) && key_ok(k[4]) && key_ok(k[5])
        && key_ok(k[6]));
    let lens = seq![10int, 14, 22, 20, 11, 7, 14];
    assert forall|i: int| 0 <= i < 7 implies #[trigger] k[i].len() == lens[i] by {}
    assert forall|a: int, b: int| 0 <= a < b < 7 implies k[a] != k[b] by {
        assert(k[a].len() == lens[a] && k[b].len() == lens[b]);
        if a == 1 && b == 6 {
            assert(k[1][0] != k[6][0]);
        }
    }
}

proof fn lemma_result_keys()
    ensures
        forall|i: int| 0 <= i < 13 ==> key_ok(#[trigger] result_layout().keys[i]),
        forall|a: int, b: int| 0 <= a < b < 13 ==> result_layout().keys[a] != result_layout().keys[b],
{
    reveal_strlit("status");
    reveal_strlit("iterations_run");
    reveal_strlit("wall_time_ms");
    reveal_strlit("initial_alive_count");
    reveal_strlit("final_alive_count");
    reveal_strlit("peak_alive_count");
    reveal_strlit("peak_alive_generation");
    reveal_strlit("min_alive_count");
    reveal_strlit("min_alive_generation");
    reveal_strlit("total_births");
    reveal_strlit("total_deaths");
    reveal_strlit("initial_board_hash");
    reveal_strlit("final_board_hash");
    let k = result_layout().keys;
    assert(key_ok(k[0]) && key_ok(k[1]) && key_ok(k[2]) && key_ok(k[3]) && key_ok(k[4]) && key_ok(k[5])
        && key_ok(k[6]) && key_ok(k[7]) && key_ok(k[8]) && key_ok(k[9]) && key_ok(k[10]) && key_ok(k[11])
        && key_ok(k[12]));
    let lens = seq![6int, 14, 12, 19, 17, 16, 21, 15, 20, 12, 12, 18, 16];
    assert forall|i: int| 0 <= i < 13 implies #[trigger] k[i].len() == lens[i] by {}
    assert forall|a: int, b: int| 0 <= a < b < 13 implies k[a] != k[b] by {
        assert(k[a].len() == lens[a] && k[b].len() == lens[b]);
        if a == 2 && (b == 9 || b == 10) {
            assert(k[a][0] != k[b][0]);
        }
        if a == 9 && b == 10 {
            assert(k[9][6] != k[10][6]);
        }
        if a == 5 && b == 12 {
            assert(k[5][0] != k[12][0]);
        }
    }
}

/// The `continued_from:` line of a run that continues none.
proof fn lemma_no_continuation_line()
    ensures
        field_line_parts("continued_from:"@) == Some(("continued_from"@, Seq::<char>::empty())),
        clean_line("continued_from:"@),
        !is_blank("continued_from:"@),
        section_header_name("continued_from:"@) is None,
        fence_label("continued_from:"@, begin_keyword()) is None,
{
    reveal_strlit("continued_from:");
    reveal_strlit("continued_from");
    let l = "continued_from:"@;
    crate::persistence::parser::lemma_index_of(l, ':');
    assert(crate::persistence::parser::index_of(l, ':') == Some(14int)) by {
        assert(l[14] == ':');
        assert forall|j: int| 0 <= j < 14 implies l[j] != ':' by {}
        crate::persistence::text_lines::lemma_index_of_after(l.take(14), ':', Seq::<char>::empty());
        assert(l =~= l.take(14) + seq![':'] + Seq::<char>::empty());
    }
    let key = l.take(14);
    lemma_trim_keep(key);
    assert(key =~= "continued_from"@);
    assert(l.skip(15) =~= Seq::<char>::empty());
    lemma_trim_keep(l);
}

/// Clean text joined to the body splits at `\n` back into its lines.
pub proof fn lemma_config_field_specs(c: RunRecordConfig)
    ensures
        field_spec(FieldKind::Size, size_text(c.board_size.0 as nat, c.board_size.1 as nat)) == Some(
            FieldSpec::Size(c.board_size.0 as nat, c.board_size.1 as nat),
        ),
        text_ok(size_text(c.board_size.0 as nat, c.board_size.1 as nat)),
{
    crate::persistence::round_trip::lemma_size_value(c.board_size.0 as nat, c.board_size.1 as nat);
}

pub open spec fn continued_text(c: RunRecordConfig) -> Seq<char> {
    match c.continued_from {
        Some(id) => run_id_text(id.0@),
        None => Seq::<char>::empty(),
    }
}

pub open spec fn continued_spec(c: RunRecordConfig) -> FieldSpec {
    match c.continued_from {
        Some(id) => FieldSpec::Id(id.0@),
        None => FieldSpec::NoId,
    }
}

pub open spec fn config_texts(c: RunRecordConfig) -> Seq<Seq<char>> {
    seq![
        size_text(c.board_size.0 as nat, c.board_size.1 as nat),
        number_text(c.max_iterations as nat),
        number_text(c.max_board_memory_bytes as nat),
        c.initial_board_source@,
        number_text(c.random_seed as nat),
        c.updater@,
        continued_text(c),
    ]
}

#[verifier::spinoff_prover]
#[verifier::rlimit(100)]
proof fn lemma_config_field_lines(r: RunRecord)
    requires
        writable_record(r),
    ensures
        field_lines_at(record_lines(r), 7, config_layout(), config_texts(r.config), 0, 7),
{
    let c = r.config;
    let lines = record_lines(r);
    let layout = config_layout();
    let texts = config_texts(c);
    lemma_config_keys();
    lemma_config_field_specs(c);
    lemma_digits_wide(c.max_iterations as nat);
    lemma_digits_wide(c.max_board_memory_bytes as nat);
    lemma_digits_wide(c.random_seed as nat);
    lemma_no_continuation_line();
    match c.continued_from {
        Some(id) => {
            lemma_run_id_text_ok(id.0@);
            lemma_format_then_parse_run_id(id);
        },
        None => {},
    }
    assert forall|i: int| 0 <= i < 7 implies key_index(layout.keys, layout.keys[i]) == Some(i) by {
        lemma_key_index_distinct(layout.keys, i);
    }
    let cl = record_config_lines(c);
    assert forall|i: int| 0 <= i < 7 implies #[trigger] lines[7 + i] == cl[1 + i] by {}
    assert forall|i: int| 0 <= i < 7 implies {
        let l = #[trigger] lines[7 + i];
        &&& field_line_parts(l) == Some((layout.keys[0 + i], texts[0 + i]))
        &&& !is_blank(l)
        &&& !ends_section(layout, l)
        &&& field_spec(layout.kinds[0 + i], texts[0 + i]) is Some
        &&& key_index(layout.keys, layout.keys[0 + i]) == Some(0 + i)
    } by {
        if i < 6 {
            assert(cl[1 + i] == kv(layout.keys[i], texts[i]));
            lemma_kv_line(layout.keys[i], texts[i]);
        } else {
            match c.continued_from {
                Some(id) => {
                    assert(cl[1 + i] == kv(layout.keys[i], texts[i]));
                    lemma_kv_line(layout.keys[i], texts[i]);
                },
                None => {
                    assert(cl[1 + i] == "continued_from:"@);
                },
            }
        }
    }
}

/// The `[config]` section of a written record reads as its configuration,
/// ending before the `[result]` line.
#[verifier::spinoff_prover]
#[verifier::rlimit(80)]
pub proof fn lemma_record_config_scan(r: RunRecord)
    requires
        writable_record(r),
    ensures
        section_scan(record_lines(r), 7, config_layout(), nones(7)) == (
            SectionStop::Done(15),
            seq![
                Some(FieldSpec::Size(r.config.board_size.0 as nat, r.config.board_size.1 as nat)),
                Some(FieldSpec::Number(r.config.max_iterations as nat)),
                Some(FieldSpec::Number(r.config.max_board_memory_bytes as nat)),
                Some(FieldSpec::Text(r.config.initial_board_source@)),
                Some(FieldSpec::Number(r.config.random_seed as nat)),
                Some(FieldSpec::Text(r.config.updater@)),
                Some(continued_spec(r.config)),
            ],
        ),
{
    let c = r.config;
    let lines = record_lines(r);
    let layout = config_layout();
    let texts = config_texts(c);
    lemma_config_field_lines(r);
    lemma_scan_fields(lines, 7, layout, nones(7), texts, 0, 7);
    let st = fill(nones(7), layout.kinds, texts, 0, 7);
    lemma_config_field_specs(c);
    lemma_digits_wide(c.max_iterations as nat);
    lemma_digits_wide(c.max_board_memory_bytes as nat);
    lemma_digits_wide(c.random_seed as nat);
    match c.continued_from {
        Some(id) => {
            lemma_format_then_parse_run_id(id);
        },
        None => {},
    }
    reveal_with_fuel(fill, 8);
    assert(st =~= seq![
        Some(FieldSpec::Size(r.config.board_size.0 as nat, r.config.board_size.1 as nat)),
        Some(FieldSpec::Number(r.config.max_iterations as nat)),
        Some(FieldSpec::Number(r.config.max_board_memory_bytes as nat)),
        Some(FieldSpec::Text(r.config.initial_board_source@)),
        Some(FieldSpec::Number(r.config.random_seed as nat)),
        Some(FieldSpec::Text(r.config.updater@)),
        Some(continued_spec(r.config)),
    ]);
    assert(lines[14] == Seq::<char>::empty());
    assert(is_blank(lines[14]));
    lemma_config_header_line();
    assert(lines[15] == "[result]"@);
    assert(next_nonblank(lines, 15) == 15);
    assert(next_nonblank(lines, 14) == 15);
}

proof fn lemma_status_text_ok(s: Seq<char>)
    requires
        recognized_status(s),
    ensures
        text_ok(s),
{
    reveal_strlit("extinct");
    reveal_strlit("max_iterations");
    reveal_strlit("stable");
    reveal_strlit("cyclic");
}

/// The labels of the two board blocks of a record.
proof fn lemma_record_labels()
    ensures
        crate::persistence::round_trip::label_ok(INITIAL_BOARD_LABEL@),
        crate::persistence::round_trip::label_ok(FINAL_BOARD_LABEL@),
{
    reveal_strlit("INITIAL BOARD");
    reveal_strlit("FINAL BOARD");
}

pub open spec fn result_texts(r: RunRecordResult) -> Seq<Seq<char>> {
    seq![
        r.status@,
        number_text(r.iterations_run as nat),
        number_text(r.wall_time_ms as nat),
        number_text(r.initial_alive_count as nat),
        number_text(r.final_alive_count as nat),
        number_text(r.peak_alive_count as nat),
        number_text(r.peak_alive_generation as nat),
        number_text(r.min_alive_count as nat),
        number_text(r.min_alive_generation as nat),
        number_text(r.total_births as nat),
        number_text(r.total_deaths as nat),
        hash_text(r.initial_board_hash),
        hash_text(r.final_board_hash),
    ]
}

/// Filling keys `j..j + n` sets each of them from its text and leaves the
/// others as they were.
proof fn lemma_fill_index(
    st: Seq<Option<FieldSpec>>,
    kinds: Seq<FieldKind>,
    texts: Seq<Seq<char>>,
    j: nat,
    n: nat,
)
    requires
        j + n <= st.len(),
    ensures
        fill(st, kinds, texts, j, n).len() == st.len(),
        forall|i: int|
            0 <= i < st.len() ==> #[trigger] fill(st, kinds, texts, j, n)[i] == if j <= i < j + n {
                field_spec(kinds[i], texts[i])
            } else {
                st[i]
            },
    decreases n,
{
    if n > 0 {
        let st1 = st.update(j as int, field_spec(kinds[j as int], texts[j as int]));
        lemma_fill_index(st1, kinds, texts, j + 1, (n - 1) as nat);
    }
}

proof fn lemma_result_texts_ok(r: RunRecordResult)
    requires
        recognized_status(r.status@),
    ensures
        forall|i: int| 0 <= i < 13 ==> text_ok(#[trigger] result_texts(r)[i]),
        forall|i: int| 0 <= i < 13 ==> field_spec(#[trigger] result_layout().kinds[i], result_texts(r)[i]) is Some,
{
    lemma_status_text_ok(r.status@);
    lemma_digits_wide(r.iterations_run as nat);
    lemma_digits_wide(r.wall_time_ms as nat);
    lemma_digits_wide(r.initial_alive_count as nat);
    lemma_digits_wide(r.final_alive_count as nat);
    lemma_digits_wide(r.peak_alive_count as nat);
    lemma_digits_wide(r.peak_alive_generation as nat);
    lemma_digits_wide(r.min_alive_count as nat);
    lemma_digits_wide(r.min_alive_generation as nat);
    lemma_digits_wide(r.total_births as nat);
    lemma_digits_wide(r.total_deaths as nat);
    lemma_hash_text_clean(r.initial_board_hash);
    lemma_hash_text_clean(r.final_board_hash);
    lemma_format_then_parse_hash(r.initial_board_hash);
    lemma_format_then_parse_hash(r.final_board_hash);
    assert(!is_ws(hash_text(r.initial_board_hash)[0]));
    assert(!is_ws(hash_text(r.final_board_hash)[0]));
}

#[verifier::spinoff_prover]
#[verifier::rlimit(60)]
proof fn lemma_result_values(r: RunRecordResult)
    requires
        recognized_status(r.status@),
    ensures
        fill(nones(13), result_layout().kinds, result_texts(r), 0, 13) == seq![
            Some(FieldSpec::Text(r.status@)),
            Some(FieldSpec::Number(r.iterations_run as nat)),
            Some(FieldSpec::Number(r.wall_time_ms as nat)),
            Some(FieldSpec::Number(r.initial_alive_count as nat)),
            Some(FieldSpec::Number(r.final_alive_count as nat)),
            Some(FieldSpec::Number(r.peak_alive_count as nat)),
            Some(FieldSpec::Number(r.peak_alive_generation as nat)),
            Some(FieldSpec::Number(r.min_alive_count as nat)),
            Some(FieldSpec::Number(r.min_alive_generation as nat)),
            Some(FieldSpec::Number(r.total_births as nat)),
            Some(FieldSpec::Number(r.total_deaths as nat)),
            Some(FieldSpec::Number(r.initial_board_hash as nat)),
            Some(FieldSpec::Number(r.final_board_hash as nat)),
        ],
{
    let t = result_texts(r);
    let kinds = result_layout().kinds;
    let f = fill(nones(13), kinds, t, 0, 13);
    lemma_fill_index(nones(13), kinds, t, 0, 13);
    lemma_result_texts_ok(r);
    let want = seq![
        Some(FieldSpec::Text(r.status@)),
        Some(FieldSpec::Number(r.iterations_run as nat)),
        Some(FieldSpec::Number(r.wall_time_ms as nat)),
        Some(FieldSpec::Number(r.initial_alive_count as nat)),
        Some(FieldSpec::Number(r.final_alive_count as nat)),
        Some(FieldSpec::Number(r.peak_alive_count as nat)),
        Some(FieldSpec::Number(r.peak_alive_generation as nat)),
        Some(FieldSpec::Number(r.min_alive_count as nat)),
        Some(FieldSpec::Number(r.min_alive_generation as nat)),
        Some(FieldSpec::Number(r.total_births as nat)),
        Some(FieldSpec::Number(r.total_deaths as nat)),
        Some(FieldSpec::Number(r.initial_board_hash as nat)),
        Some(FieldSpec::Number(r.final_board_hash as nat)),
    ];
    lemma_digits_wide(r.iterations_run as nat);
    lemma_digits_wide(r.wall_time_ms as nat);
    lemma_digits_wide(r.initial_alive_count as nat);
    lemma_digits_wide(r.final_alive_count as nat);
    lemma_digits_wide(r.peak_alive_count as nat);
    lemma_digits_wide(r.peak_alive_generation as nat);
    lemma_digits_wide(r.min_alive_count as nat);
    lemma_digits_wide(r.min_alive_generation as nat);
    lemma_digits_wide(r.total_births as nat);
    lemma_digits_wide(r.total_deaths as nat);
    lemma_format_then_parse_hash(r.initial_board_hash);
    lemma_format_then_parse_hash(r.final_board_hash);
    assert forall|i: int| 0 <= i < 13 implies #[trigger] f[i] == want[i] by {
        assert(f[i] == field_spec(kinds[i], t[i]));
    }
    assert(f =~= want);
}

#[verifier::spinoff_prover]
#[verifier::rlimit(100)]
proof fn lemma_result_field_lines(r: RunRecord)
    requires
        writable_record(r),
    ensures
        field_lines_at(record_lines(r), 16, result_layout(), result_texts(r.result), 0, 13),
{
    let lines = record_lines(r);
    let layout = result_layout();
    let texts = result_texts(r.result);
    lemma_result_keys();
    lemma_result_texts_ok(r.result);
    assert forall|i: int| 0 <= i < 13 implies key_index(layout.keys, layout.keys[i]) == Some(i) by {
        lemma_key_index_distinct(layout.keys, i);
    }
    let rl = record_result_lines(r.result);
    assert forall|i: int| 0 <= i < 13 implies #[trigger] lines[16 + i] == rl[1 + i] by {}
    assert forall|i: int| 0 <= i < 13 implies {
        let l = #[trigger] lines[16 + i];
        &&& field_line_parts(l) == Some((layout.keys[0 + i], texts[0 + i]))
        &&& !is_blank(l)
        &&& !ends_section(layout, l)
        &&& field_spec(layout.kinds[0 + i], texts[0 + i]) is Some
        &&& key_index(layout.keys, layout.keys[0 + i]) == Some(0 + i)
    } by {
        assert(rl[1 + i] == kv(layout.keys[i], texts[i]));
        assert(text_ok(texts[i]));
        lemma_kv_line(layout.keys[i], texts[i]);
    }
}

/// The `[result]` section of a written record reads as its result, ending
/// at the BEGIN fence of the initial board.
#[verifier::spinoff_prover]
#[verifier::rlimit(80)]
pub proof fn lemma_record_result_scan(r: RunRecord)
    requires
        writable_record(r),
    ensures
        section_scan(record_lines(r), 16, result_layout(), nones(13)) == (
            SectionStop::Done(30),
            fill(nones(13), result_layout().kinds, result_texts(r.result), 0, 13),
        ),
{
    let lines = record_lines(r);
    let layout = result_layout();
    let texts = result_texts(r.result);
    lemma_result_field_lines(r);
    lemma_scan_fields(lines, 16, layout, nones(13), texts, 0, 13);
    assert(lines[29] == Seq::<char>::empty());
    assert(is_blank(lines[29]));
    lemma_record_labels();
    crate::persistence::round_trip::lemma_fence_round_trip(begin_keyword(), INITIAL_BOARD_LABEL@);
    let bi = block_lines(INITIAL_BOARD_LABEL@, r.initial_board);
    assert(lines[30] == bi[0]);
    assert(!is_blank(lines[30]));
    assert(ends_section(layout, lines[30]));
    assert(next_nonblank(lines, 30) == 30);
    assert(next_nonblank(lines, 29) == 30);
}

proof fn lemma_all_present(st: Seq<Option<FieldSpec>>)
    requires
        forall|i: int| 0 <= i < st.len() ==> #[trigger] st[i] is Some,
    ensures
        first_missing(st) is None,
    decreases st.len(),
{
    if st.len() > 0 {
        let d = st.drop_last();
        assert forall|i: int| 0 <= i < d.len() implies #[trigger] d[i] is Some by {
            assert(d[i] == st[i]);
        }
        lemma_all_present(d);
    }
}

pub open spec fn header_values(r: RunRecord) -> Seq<Option<FieldSpec>> {
    seq![
        Some(FieldSpec::Id(r.run_id.0@)),
        Some(FieldSpec::Number(r.schema_version as nat)),
        Some(FieldSpec::Number(r.created_at as nat)),
        Some(FieldSpec::Text(r.tool_version@)),
    ]
}

pub open spec fn config_values(c: RunRecordConfig) -> Seq<Option<FieldSpec>> {
    seq![
        Some(FieldSpec::Size(c.board_size.0 as nat, c.board_size.1 as nat)),
        Some(FieldSpec::Number(c.max_iterations as nat)),
        Some(FieldSpec::Number(c.max_board_memory_bytes as nat)),
        Some(FieldSpec::Text(c.initial_board_source@)),
        Some(FieldSpec::Number(c.random_seed as nat)),
        Some(FieldSpec::Text(c.updater@)),
        Some(continued_spec(c)),
    ]
}

pub open spec fn result_values(r: RunRecordResult) -> Seq<Option<FieldSpec>> {
    seq![
        Some(FieldSpec::Text(r.status@)),
        Some(FieldSpec::Number(r.iterations_run as nat)),
        Some(FieldSpec::Number(r.wall_time_ms as nat)),
        Some(FieldSpec::Number(r.initial_alive_count as nat)),
        Some(FieldSpec::Number(r.final_alive_count as nat)),
        Some(FieldSpec::Number(r.peak_alive_count as nat)),
        Some(FieldSpec::Number(r.peak_alive_generation as nat)),
        Some(FieldSpec::Number(r.min_alive_count as nat)),
        Some(FieldSpec::Number(r.min_alive_generation as nat)),
        Some(FieldSpec::Number(r.total_births as nat)),
        Some(FieldSpec::Number(r.total_deaths as nat)),
        Some(FieldSpec::Number(r.initial_board_hash as nat)),
        Some(FieldSpec::Number(r.final_board_hash as nat)),
    ]
}

proof fn lemma_record_magic_line()
    ensures
        !is_blank(RUN_RECORD_MAGIC@),
        trim(RUN_RECORD_MAGIC@) == RUN_RECORD_MAGIC@,
        clean_line(RUN_RECORD_MAGIC@),
        RUN_RECORD_MAGIC@.len() == 17,
        vstd::utf8::is_ascii_chars(RUN_RECORD_MAGIC@),
        RUN_RECORD_MAGIC@.last() == '2',
{
    reveal_strlit("GOL-RUN-RECORD v2");
    lemma_trim_keep(RUN_RECORD_MAGIC@);
}

/// The sections of a written record read as its fields, leaving the board
/// blocks to be read from line 30.
#[verifier::spinoff_prover]
#[verifier::rlimit(100)]
proof fn lemma_record_sections(
    res: Result<RunRecord, crate::persistence::run_record::RunRecordReadError>,
    path: Seq<char>,
    r: RunRecord,
    max_mem: usize,
)
    requires
        writable_record(r),
        crate::persistence::record_reader::record_outcome(res, path, record_lines(r), max_mem),
    ensures
        crate::persistence::record_reader::blocks_outcome(
            res,
            path,
            record_lines(r),
            30,
            max_mem,
            header_values(r),
            config_values(r.config),
            result_values(r.result),
        ),
{
    reveal(crate::persistence::record_reader::record_outcome);
    let lines = record_lines(r);
    lemma_record_magic_line();
    assert(lines[0] == RUN_RECORD_MAGIC@);
    assert(next_nonblank(lines, 0) == 0);
    lemma_record_header_scan(r);
    lemma_all_present(header_values(r));
    lemma_config_header_line();
    assert(lines[6] == "[config]"@);
    assert(next_nonblank(lines, 6) == 6);
    lemma_record_config_scan(r);
    lemma_all_present(config_values(r.config));
    assert(lines[15] == "[result]"@);
    assert(next_nonblank(lines, 15) == 15);
    lemma_record_result_scan(r);
    lemma_result_values(r.result);
    assert(fill(nones(13), result_layout().kinds, result_texts(r.result), 0, 13) == result_values(r.result));
    lemma_all_present(result_values(r.result));
}

/// A board read back from a written block: the same dimensions, and every
/// cell read as the character it was written as.
pub open spec fn read_back_board(b2: InMemoryBoard, b: InMemoryBoard) -> bool {
    &&& b2.spec_width() == b.spec_width()
    &&& b2.spec_height() == b.spec_height()
    &&& forall|x: int, y: int|
        crate::board::grid::in_bounds(b.spec_width() as int, b.spec_height() as int, x, y)
            ==> #[trigger] b2.cell(x, y) == crate::persistence::board_block::cell_of_char(
            crate::persistence::board_snapshot::cell_char(b.cell(x, y)),
        )
}

/// Both boards of a record fit the memory budget they are read with.
pub open spec fn boards_fit(r: RunRecord, max_mem: usize) -> bool {
    &&& crate::persistence::board_block::validate_size_ok(
        r.initial_board.spec_width() as usize,
        r.initial_board.spec_height() as usize,
        max_mem,
    )
    &&& crate::persistence::board_block::validate_size_ok(
        r.final_board.spec_width() as usize,
        r.final_board.spec_height() as usize,
        max_mem,
    )
}

/// The two board blocks of a written record stand at line 30 and just after
/// the blank line that follows the first.
#[verifier::spinoff_prover]
#[verifier::rlimit(60)]
proof fn lemma_record_block_positions(r: RunRecord)
    requires
        writable_record(r),
    ensures
        crate::persistence::round_trip::holds_block(record_lines(r), 30, INITIAL_BOARD_LABEL@, r.initial_board),
        crate::persistence::round_trip::holds_block(
            record_lines(r),
            31 + block_lines(INITIAL_BOARD_LABEL@, r.initial_board).len(),
            FINAL_BOARD_LABEL@,
            r.final_board,
        ),
        crate::persistence::board_block::block_end_pos(record_lines(r), 30) == 30 + block_lines(
            INITIAL_BOARD_LABEL@,
            r.initial_board,
        ).len(),
        record_lines(r)[30 + block_lines(INITIAL_BOARD_LABEL@, r.initial_board).len() as int] == Seq::<char>::empty(),
{
    let lines = record_lines(r);
    let bi = block_lines(INITIAL_BOARD_LABEL@, r.initial_board);
    let bf = block_lines(FINAL_BOARD_LABEL@, r.final_board);
    let n = bi.len();
    assert(lines.len() == 31 + n + bf.len());
    assert forall|i: int| 0 <= i < n implies lines[30 + i] == #[trigger] bi[i] by {}
    assert forall|i: int| 0 <= i < bf.len() implies lines[31 + n + i] == #[trigger] bf[i] by {}
    assert(lines[30 + n as int] == Seq::<char>::empty());
    lemma_record_labels();
    crate::persistence::round_trip::lemma_block_lines_plain(INITIAL_BOARD_LABEL@, r.initial_board);
    assert(next_nonblank(lines, 30) == 30);
    crate::persistence::round_trip::lemma_block_header_scan(lines, 30, INITIAL_BOARD_LABEL@, r.initial_board);
    crate::persistence::round_trip::lemma_counts(r.initial_board);
    let wh = crate::persistence::round_trip::written_header(r.initial_board);
    assert(wh.height as nat == r.initial_board.spec_height());
    assert(n == 6 + r.initial_board.spec_height());
}

/// Reading the board blocks of a written record succeeds with its fields
/// and its boards read back.
#[verifier::spinoff_prover]
#[verifier::rlimit(60)]
proof fn lemma_record_blocks(
    res: Result<RunRecord, crate::persistence::run_record::RunRecordReadError>,
    path: Seq<char>,
    r: RunRecord,
    max_mem: usize,
)
    requires
        writable_record(r),
        boards_fit(r, max_mem),
        record_lines(r).len() <= usize::MAX,
        crate::persistence::record_reader::blocks_outcome(
            res,
            path,
            record_lines(r),
            30,
            max_mem,
            header_values(r),
            config_values(r.config),
            result_values(r.result),
        ),
    ensures
        res matches Ok(rec) && crate::persistence::record_reader::header_matches(rec, header_values(r))
            && crate::persistence::record_reader::config_matches(rec.config, config_values(r.config))
            && crate::persistence::record_reader::result_matches(rec.result, result_values(r.result))
            && read_back_board(rec.initial_board, r.initial_board) && read_back_board(
            rec.final_board,
            r.final_board,
        ),
{
    let lines = record_lines(r);
    let n = block_lines(INITIAL_BOARD_LABEL@, r.initial_board).len();
    let pf = 31 + n;
    lemma_record_labels();
    lemma_record_block_positions(r);
    assert(is_blank(lines[30 + n as int]));
    assert(next_nonblank(lines, (30 + n) as nat) == next_nonblank(lines, pf as nat));
    assert forall|x: Result<InMemoryBoard, crate::persistence::board_snapshot::BoardSnapshotReadError>|
        crate::persistence::board_block::block_result(x, path, lines, (30 + n) as nat, FINAL_BOARD_LABEL@, max_mem)
            implies #[trigger] crate::persistence::board_block::block_result(x, path, lines, pf as nat, FINAL_BOARD_LABEL@, max_mem) by {}
    match res {
        Ok(rec) => {
            crate::persistence::round_trip::lemma_block_round_trip(
                Ok(rec.initial_board), path, lines, 30, INITIAL_BOARD_LABEL@, r.initial_board, max_mem);
            crate::persistence::round_trip::lemma_block_round_trip(
                Ok(rec.final_board), path, lines, pf as nat, FINAL_BOARD_LABEL@, r.final_board, max_mem);
        },
        Err(e) => {
            let id = header_values(r)[0]->0->Id_0;
            match crate::persistence::record_reader::block_error_source(e, "INITIAL"@, id) {
                Some(be) => {
                    if crate::persistence::board_block::block_result(Err(be), path, lines, 30, INITIAL_BOARD_LABEL@, max_mem) {
                        crate::persistence::round_trip::lemma_block_round_trip(
                            Err(be), path, lines, 30, INITIAL_BOARD_LABEL@, r.initial_board, max_mem);
                    }
                },
                None => {},
            }
            match crate::persistence::record_reader::block_error_source(e, "FINAL"@, id) {
                Some(be) => {
                    if crate::persistence::board_block::block_result(Err(be), path, lines, (30 + n) as nat, FINAL_BOARD_LABEL@, max_mem) {
                        crate::persistence::round_trip::lemma_block_round_trip(
                            Err(be), path, lines, pf as nat, FINAL_BOARD_LABEL@, r.final_board, max_mem);
                    }
                },
                None => {},
            }
        },
    }
}

/// A board read back from a written block has the grid bytes, and so the
/// grid hash, of the board written.
proof fn lemma_read_back_grid(b2: InMemoryBoard, b: InMemoryBoard, n: nat)
    requires
        read_back_board(b2, b),
        n <= b.spec_height(),
    ensures
        crate::persistence::run_record::grid_bytes(b2, n) == crate::persistence::run_record::grid_bytes(b, n),
    decreases n,
{
    if n > 0 {
        lemma_read_back_grid(b2, b, (n - 1) as nat);
        let y = n - 1;
        let r2 = Seq::new(
            b2.spec_width(),
            |x: int| if b2.cell(x, y) == crate::board::CellState::Alive { 35u8 } else { 46u8 },
        );
        let r1 = Seq::new(
            b.spec_width(),
            |x: int| if b.cell(x, y) == crate::board::CellState::Alive { 35u8 } else { 46u8 },
        );
        assert forall|x: int| 0 <= x < r1.len() implies r2[x] == r1[x] by {
            assert(crate::board::grid::in_bounds(b.spec_width() as int, b.spec_height() as int, x, y));
            assert(b2.cell(x, y) == crate::persistence::board_block::cell_of_char(
                crate::persistence::board_snapshot::cell_char(b.cell(x, y)),
            ));
        }
        assert(r2 =~= r1);
    }
}

/// The magic line of a written record identifies the current run record
/// version.
proof fn lemma_record_magic(rest: Seq<char>)
    ensures
        crate::persistence::magic::magic_text(
            vstd::utf8::encode_utf8(RUN_RECORD_MAGIC@ + seq!['\n'] + rest),
        ) == Some(RUN_RECORD_MAGIC@),
        crate::persistence::magic::version_of_magic(trim(RUN_RECORD_MAGIC@)) is Some,
{
    let m = RUN_RECORD_MAGIC@;
    lemma_record_magic_line();
    reveal_strlit("GOL-RUN-RECORD v1");
    vstd::utf8::is_ascii_chars_encode_utf8(m);
    let em = vstd::utf8::encode_utf8(m);
    crate::persistence::text_lines::lemma_encode_utf8_append(m, seq!['\n']);
    crate::persistence::text_lines::lemma_encode_utf8_append(m + seq!['\n'], rest);
    assert(vstd::utf8::encode_utf8(seq!['\n']) =~= seq![10u8]) by {
        assert(vstd::utf8::is_ascii_chars(seq!['\n']));
        vstd::utf8::is_ascii_chars_encode_utf8(seq!['\n']);
    }
    let bytes = vstd::utf8::encode_utf8(m + seq!['\n'] + rest);
    let pk = crate::persistence::magic::peek_of(bytes);
    assert(bytes =~= em + seq![10u8] + vstd::utf8::encode_utf8(rest));
    assert(pk.len() >= 18);
    assert(pk[17] == 10u8);
    assert forall|j: int| 0 <= j < 17 implies pk[j] != 10u8 by {
        assert(pk[j] == em[j]);
        assert(em[j] == m[j] as u8);
        assert(m[j] != '\n');
    }
    crate::persistence::magic::lemma_byte_index_of(pk, 10);
    assert(pk.take(17) =~= em);
    assert(em.last() == 50u8);
    vstd::utf8::encode_utf8_valid_utf8(m);
    vstd::utf8::encode_utf8_decode_utf8(m);
}

/// Every line of a written block is clean.
proof fn lemma_block_lines_clean(label: Seq<char>, b: InMemoryBoard)
    requires
        crate::persistence::round_trip::label_ok(label),
        writable_board(b),
    ensures
        all_clean(block_lines(label, b)),
        block_lines(label, b).last().len() > 0,
{
    let w = b.spec_width();
    let h = b.spec_height();
    let ls = block_lines(label, b);
    let a = crate::persistence::board_snapshot::alive_cells(b);
    crate::persistence::round_trip::lemma_block_lines_plain(label, b);
    crate::persistence::round_trip::lemma_counts(b);
    crate::persistence::round_trip::lemma_size_value(w, h);
    crate::persistence::round_trip::lemma_digits(a);
    crate::persistence::round_trip::lemma_digits((w * h - a) as nat);
    reveal_strlit("ascii");
    assert forall|k: int| 0 <= k < ls.len() implies clean_line(#[trigger] ls[k]) by {
        assert(crate::persistence::text_lines::plain_line(ls[k]));
        if k == 0 || k == ls.len() - 1 {
            assert(ls[k].last() == '-');
        } else if 5 <= k < 5 + h {
            let row = crate::persistence::board_snapshot::row_text(b, k - 5);
            assert(ls[k] == row);
            assert(row.len() == w);
            assert(row.last() == crate::persistence::board_snapshot::cell_char(b.cell(w - 1, k - 5)));
        } else if k == 1 {
            assert(ls[1].last() == size_text(w, h).last());
        } else if k == 2 {
            let e = crate::persistence::board_snapshot::ENCODING_ASCII@;
            assert(e.len() == 5 && e[4] == 'i');
            assert(ls[2].last() == e.last());
        } else if k == 3 {
            assert(ls[3].last() == crate::text::decimal_digits(a).last());
        } else {
            assert(ls[4].last() == crate::text::decimal_digits((w * h - a) as nat).last());
        }
    }
    assert(ls.last() == ls[ls.len() - 1]);
}

proof fn lemma_header_lines_clean(r: RunRecord)
    requires
        writable_record(r),
    ensures
        all_clean(record_header_lines(r)),
{
    let ls = record_header_lines(r);
    let k = header_layout().keys;
    lemma_header_keys();
    lemma_record_magic_line();
    lemma_run_id_text_ok(r.run_id.0@);
    lemma_digits_wide(r.schema_version as nat);
    lemma_timestamp_text_ok(r.created_at as nat);
    lemma_kv_line(k[0], run_id_text(r.run_id.0@));
    lemma_kv_line(k[1], number_text(r.schema_version as nat));
    lemma_kv_line(k[2], timestamp_text(r.created_at as nat));
    lemma_kv_line(k[3], r.tool_version@);
    assert forall|j: int| 0 <= j < ls.len() implies clean_line(#[trigger] ls[j]) by {}
}

#[verifier::spinoff_prover]
#[verifier::rlimit(60)]
proof fn lemma_config_lines_clean(r: RunRecord)
    requires
        writable_record(r),
    ensures
        all_clean(record_config_lines(r.config)),
{
    let c = r.config;
    let ls = record_config_lines(c);
    let k = config_layout().keys;
    let t = config_texts(c);
    lemma_config_keys();
    lemma_config_header_line();
    lemma_no_continuation_line();
    lemma_config_field_specs(c);
    lemma_digits_wide(c.max_iterations as nat);
    lemma_digits_wide(c.max_board_memory_bytes as nat);
    lemma_digits_wide(c.random_seed as nat);
    match c.continued_from {
        Some(id) => {
            lemma_run_id_text_ok(id.0@);
            lemma_kv_line(k[6], run_id_text(id.0@));
        },
        None => {},
    }
    assert forall|j: int| 0 <= j < ls.len() implies clean_line(#[trigger] ls[j]) by {
        if 1 <= j < 7 {
            assert(ls[j] == kv(k[j - 1], t[j - 1]));
            lemma_kv_line(k[j - 1], t[j - 1]);
        }
    }
}

#[verifier::spinoff_prover]
#[verifier::rlimit(80)]
proof fn lemma_result_lines_clean(r: RunRecord)
    requires
        writable_record(r),
    ensures
        all_clean(record_result_lines(r.result)),
{
    let ls = record_result_lines(r.result);
    let k = result_layout().keys;
    let t = result_texts(r.result);
    lemma_result_keys();
    lemma_config_header_line();
    lemma_result_texts_ok(r.result);
    assert forall|j: int| 0 <= j < ls.len() implies clean_line(#[trigger] ls[j]) by {
        if 1 <= j < 14 {
            assert(ls[j] == kv(k[j - 1], t[j - 1]));
            assert(text_ok(t[j - 1]));
            lemma_kv_line(k[j - 1], t[j - 1]);
        }
    }
}

/// Every line of a written record is clean, the last one not empty.
#[verifier::spinoff_prover]
#[verifier::rlimit(60)]
proof fn lemma_record_lines_clean(r: RunRecord)
    requires
        writable_record(r),
    ensures
        all_clean(record_lines(r)),
        record_lines(r).last().len() > 0,
{
    let e = seq![Seq::<char>::empty()];
    let h = record_header_lines(r);
    let c = record_config_lines(r.config);
    let res = record_result_lines(r.result);
    let bi = block_lines(INITIAL_BOARD_LABEL@, r.initial_board);
    let bf = block_lines(FINAL_BOARD_LABEL@, r.final_board);
    lemma_header_lines_clean(r);
    lemma_config_lines_clean(r);
    lemma_result_lines_clean(r);
    lemma_record_labels();
    lemma_block_lines_clean(INITIAL_BOARD_LABEL@, r.initial_board);
    lemma_block_lines_clean(FINAL_BOARD_LABEL@, r.final_board);
    assert(all_clean(e));
    let parts = seq![h, e, c, e, res, e, bi, e, bf];
    let a1 = h + e;
    let a2 = a1 + c;
    let a3 = a2 + e;
    let a4 = a3 + res;
    let a5 = a4 + e;
    let a6 = a5 + bi;
    let a7 = a6 + e;
    let a8 = a7 + bf;
    lemma_all_clean_append(h, e);
    lemma_all_clean_append(a1, c);
    lemma_all_clean_append(a2, e);
    lemma_all_clean_append(a3, res);
    lemma_all_clean_append(a4, e);
    lemma_all_clean_append(a5, bi);
    lemma_all_clean_append(a6, e);
    lemma_all_clean_append(a7, bf);
    assert(a8 == record_lines(r));
    assert(a8.last() == bf.last());
}

proof fn lemma_all_clean_append(a: Seq<Seq<char>>, b: Seq<Seq<char>>)
    requires
        all_clean(a),
        all_clean(b),
    ensures
        all_clean(a + b),
{
    assert forall|k: int| 0 <= k < (a + b).len() implies clean_line(#[trigger] (a + b)[k]) by {
        if k < a.len() {
            assert((a + b)[k] == a[k]);
        } else {
            assert((a + b)[k] == b[k - a.len()]);
        }
    }
}

/// The fields of `a` are those of `r`, and its boards are `r`'s boards
/// read back.
pub open spec fn record_read_back(a: RunRecord, r: RunRecord) -> bool {
    &&& a.run_id.0@ == r.run_id.0@
    &&& a.schema_version == r.schema_version
    &&& a.created_at == r.created_at
    &&& a.tool_version@ == r.tool_version@
    &&& a.config.board_size == r.config.board_size
    &&& a.config.max_iterations == r.config.max_iterations
    &&& a.config.max_board_memory_bytes == r.config.max_board_memory_bytes
    &&& a.config.initial_board_source@ == r.config.initial_board_source@
    &&& a.config.random_seed == r.config.random_seed
    &&& a.config.updater@ == r.config.updater@
    &&& match (a.config.continued_from, r.config.continued_from) {
        (Some(x), Some(y)) => x.0@ == y.0@,
        (None, None) => true,
        _ => false,
    }
    &&& a.result.status@ == r.result.status@
    &&& a.result.iterations_run == r.result.iterations_run
    &&& a.result.wall_time_ms == r.result.wall_time_ms
    &&& a.result.initial_alive_count == r.result.initial_alive_count
    &&& a.result.final_alive_count == r.result.final_alive_count
    &&& a.result.peak_alive_count == r.result.peak_alive_count
    &&& a.result.peak_alive_generation == r.result.peak_alive_generation
    &&& a.result.min_alive_count == r.result.min_alive_count
    &&& a.result.min_alive_generation == r.result.min_alive_generation
    &&& a.result.total_births == r.result.total_births
    &&& a.result.total_deaths == r.result.total_deaths
    &&& a.result.initial_board_hash == r.result.initial_board_hash
    &&& a.result.final_board_hash == r.result.final_board_hash
    &&& read_back_board(a.initial_board, r.initial_board)
    &&& read_back_board(a.final_board, r.final_board)
}

/// Any result of parsing the lines of a written record is that record read
/// back, with board hashes that match its boards.
#[verifier::spinoff_prover]
#[verifier::rlimit(60)]
proof fn lemma_record_lines_read(
    res: Result<RunRecord, crate::persistence::run_record::RunRecordReadError>,
    path: Seq<char>,
    r: RunRecord,
    max_mem: usize,
)
    requires
        writable_record(r),
        boards_fit(r, max_mem),
        record_lines(r).len() <= usize::MAX,
        crate::persistence::record_reader::record_outcome(res, path, record_lines(r), max_mem),
    ensures
        res matches Ok(a) && record_read_back(a, r)
            && crate::persistence::record_reader::board_warnings(a).len() == 0,
{
    lemma_record_sections(res, path, r, max_mem);
    lemma_record_blocks(res, path, r, max_mem);
    let a = res->Ok_0;
    lemma_read_back_grid(a.initial_board, r.initial_board, r.initial_board.spec_height());
    lemma_read_back_grid(a.final_board, r.final_board, r.final_board.spec_height());
    assert(grid_hash(a.initial_board) == grid_hash(r.initial_board));
    assert(grid_hash(a.final_board) == grid_hash(r.final_board));
    assert(crate::persistence::record_reader::board_warnings(a) =~= Seq::<Seq<char>>::empty());
}

/// The `content_hash` trailer after a body: a blank line and the trailer
/// line, each ended by a newline.
proof fn lemma_trailer_text(body: Seq<char>, h: u64)
    ensures
        body + seq!['\n'] + field_text(crate::persistence::run_record::CONTENT_HASH_FIELD@, hash_text(h))
            == body + join_lines(seq![Seq::<char>::empty(), trailer_line(h)]),
{
    let t = trailer_line(h);
    let e = Seq::<char>::empty();
    let tail = seq![e, t];
    assert(tail =~= seq![e] + seq![t]);
    crate::persistence::round_trip::lemma_join_cons(e, seq![t]);
    lemma_join_lines_one(t);
    assert(join_lines(tail) =~= seq!['\n'] + (t + seq!['\n']));
    reveal_strlit("content_hash");
    reveal_strlit(": ");
    let ft = field_text(crate::persistence::run_record::CONTENT_HASH_FIELD@, hash_text(h));
    assert(ft =~= t + seq!['\n']);
    assert(body + seq!['\n'] + ft =~= body + join_lines(tail));
}

/// The text of a written record is its lines, a blank line and the
/// `content_hash` trailer, each ended by a newline.
#[verifier::spinoff_prover]
proof fn lemma_record_text_join(r: RunRecord)
    ensures
        crate::persistence::run_record::run_record_text(r) == join_lines(
            record_lines(r) + seq![
                Seq::<char>::empty(),
                trailer_line(fnv1a(vstd::utf8::encode_utf8(run_record_body_text(r)))),
            ],
        ),
{
    let body = run_record_body_text(r);
    let h = fnv1a(vstd::utf8::encode_utf8(body));
    let tail = seq![Seq::<char>::empty(), trailer_line(h)];
    lemma_record_body_join(r);
    lemma_join_lines_append(record_lines(r), tail);
    lemma_trailer_text(body, h);
}

/// Reading a written run record gives back, without warnings, its fields
/// and its boards, every cell that is not alive read as dead, whatever the
/// content hash mode.
#[verifier::spinoff_prover]
#[verifier::rlimit(80)]
pub proof fn lemma_run_record_round_trip(
    res: Result<crate::persistence::run_record::LoadedRunRecord, crate::persistence::run_record::RunRecordReadError>,
    path: Seq<char>,
    r: RunRecord,
    max_mem: usize,
    mode: crate::persistence::run_record::ContentHashMode,
)
    requires
        writable_record(r),
        boards_fit(r, max_mem),
        record_lines(r).len() <= usize::MAX,
        crate::persistence::record_reader::run_record_read_result(
            res,
            path,
            crate::persistence::run_record::run_record_text(r),
            max_mem,
            mode,
        ),
    ensures
        res matches Ok(l) && l.warnings@.len() == 0 && record_read_back(l.record, r),
{
    let body = run_record_body_text(r);
    let h = fnv1a(vstd::utf8::encode_utf8(body));
    let ls = record_lines(r);
    let all = ls + seq![Seq::<char>::empty(), trailer_line(h)];
    let text = crate::persistence::run_record::run_record_text(r);
    lemma_record_text_join(r);
    lemma_record_body_join(r);
    lemma_record_lines_clean(r);
    lemma_record_trailer_split(ls, h);
    assert(text == join_lines(all));
    assert(all =~= seq![RUN_RECORD_MAGIC@] + all.drop_first());
    crate::persistence::round_trip::lemma_join_cons(RUN_RECORD_MAGIC@, all.drop_first());
    lemma_record_magic(join_lines(all.drop_first()));
    assert(trailer_split(canonical_text(text)) == (body, Some(h)));
    assert forall|k: int| 0 <= k < ls.len() implies crate::persistence::text_lines::plain_line(#[trigger] ls[k]) by {
        assert(clean_line(ls[k]));
    }
    crate::persistence::text_lines::lemma_body_lines_join(ls, Seq::<char>::empty());
    assert(body + Seq::<char>::empty() =~= body);
    assert(crate::persistence::lines::body_lines(Seq::<char>::empty()) =~= Seq::<Seq<char>>::empty()) by {
        assert(crate::persistence::lines::split_lines(Seq::<char>::empty()) =~= Seq::<Seq<char>>::empty());
    }
    assert(ls + Seq::<Seq<char>>::empty() =~= ls);
    assert(crate::persistence::lines::body_lines(body) == ls);
    reveal(crate::persistence::record_reader::loaded_outcome);
    match res {
        Ok(l) => {
            lemma_record_lines_read(Ok(l.record), path, r, max_mem);
            assert(crate::persistence::record_reader::texts_of(l.warnings@).len() == 0);
        },
        Err(e) => {
            if crate::persistence::record_reader::record_outcome(Err(e), path, ls, max_mem) {
                lemma_record_lines_read(Err(e), path, r, max_mem);
            } else {
                let a = choose|a: RunRecord|
                    #[trigger] crate::persistence::record_reader::record_outcome(Ok(a), path, ls, max_mem)
                        && crate::persistence::record_reader::board_corruption(e, path, a);
                lemma_record_lines_read(Ok(a), path, r, max_mem);
            }
        },
    }
}

/// `s` with every `\n` written as `\r\n`.
pub open spec fn crlf_text(s: Seq<char>) -> Seq<char>
    decreases s.len(),
{
    if s.len() == 0 {
        Seq::empty()
    } else {
        (if s[0] == '\n' {
            seq!['\r', '\n']
        } else {
            seq![s[0]]
        }) + crlf_text(s.drop_first())
    }
}

proof fn lemma_crlf_append(a: Seq<char>, b: Seq<char>)
    ensures
        crlf_text(a + b) == crlf_text(a) + crlf_text(b),
    decreases a.len(),
{
    if a.len() == 0 {
        assert(a + b =~= b);
        assert(crlf_text(a) + crlf_text(b) =~= crlf_text(b));
    } else {
        assert((a + b).drop_first() =~= a.drop_first() + b);
        assert((a + b)[0] == a[0]);
        lemma_crlf_append(a.drop_first(), b);
        let head = if a[0] == '\n' {
            seq!['\r', '\n']
        } else {
            seq![a[0]]
        };
        assert(crlf_text(a) + crlf_text(b) =~= head + (crlf_text(a.drop_first()) + crlf_text(b)));
    }
}

proof fn lemma_crlf_plain(l: Seq<char>)
    requires
        forall|i: int| 0 <= i < l.len() ==> l[i] != '\n',
    ensures
        crlf_text(l) == l,
    decreases l.len(),
{
    if l.len() > 0 {
        lemma_crlf_plain(l.drop_first());
        assert(seq![l[0]] + l.drop_first() =~= l);
    }
}

/// The lines `ls`, each with a carriage return added at its end.
pub open spec fn with_cr(ls: Seq<Seq<char>>) -> Seq<Seq<char>> {
    ls.map_values(|l: Seq<char>| l.push('\r'))
}

proof fn lemma_all_clean_rest(ls: Seq<Seq<char>>)
    requires
        all_clean(ls),
        ls.len() > 0,
    ensures
        all_clean(ls.drop_first()),
        clean_line(ls[0]),
{
    assert forall|k: int| 0 <= k < ls.drop_first().len() implies clean_line(
        #[trigger] ls.drop_first()[k],
    ) by {
        assert(ls.drop_first()[k] == ls[k + 1]);
    }
}

/// Clean lines joined with `\n`, each `\n` then written as `\r\n`, are the
/// lines each ended by a carriage return, joined with `\n`.
proof fn lemma_crlf_join(ls: Seq<Seq<char>>)
    requires
        all_clean(ls),
    ensures
        crlf_text(join_lines(ls)) == join_lines(with_cr(ls)),
    decreases ls.len(),
{
    if ls.len() == 0 {
        assert(with_cr(ls) =~= Seq::<Seq<char>>::empty());
    } else {
        let a = ls[0];
        let rest = ls.drop_first();
        lemma_all_clean_rest(ls);
        lemma_crlf_join(rest);
        lemma_crlf_append(a, seq!['\n'] + join_lines(rest));
        lemma_crlf_append(seq!['\n'], join_lines(rest));
        lemma_crlf_plain(a);
        assert(crlf_text(seq!['\n']) =~= seq!['\r', '\n']) by {
            let one = seq!['\n'];
            assert(one[0] == '\n');
            assert(one.drop_first() =~= Seq::<char>::empty());
            assert(crlf_text(one.drop_first()) == Seq::<char>::empty());
            assert(crlf_text(one) == seq!['\r', '\n'] + crlf_text(one.drop_first()));
        }
        assert(with_cr(ls).drop_first() =~= with_cr(rest));
        assert(with_cr(ls)[0] == a.push('\r'));
        assert(join_lines(ls) =~= a + (seq!['\n'] + join_lines(rest)));
        assert(join_lines(with_cr(ls)) =~= a.push('\r') + seq!['\n'] + join_lines(with_cr(rest)));
    }
}

/// Clean lines, each ended by a carriage return and joined with newlines,
/// split at `\n` into those lines and an empty last piece.
proof fn lemma_pieces_join_cr(ls: Seq<Seq<char>>)
    requires
        all_clean(ls),
    ensures
        pieces(join_lines(with_cr(ls))) == with_cr(ls) + seq![Seq::<char>::empty()],
    decreases ls.len(),
{
    if ls.len() == 0 {
        lemma_pieces_last(Seq::<char>::empty());
        assert(with_cr(ls) =~= Seq::<Seq<char>>::empty());
        assert(with_cr(ls) + seq![Seq::<char>::empty()] =~= seq![Seq::<char>::empty()]);
    } else {
        let a = ls[0].push('\r');
        let rest = ls.drop_first();
        lemma_all_clean_rest(ls);
        lemma_pieces_join_cr(rest);
        assert(with_cr(ls) =~= seq![a] + with_cr(rest));
        crate::persistence::round_trip::lemma_join_cons(a, with_cr(rest));
        let t = join_lines(with_cr(ls));
        assert(t =~= a + seq!['\n'] + join_lines(with_cr(rest)));
        assert forall|j: int| 0 <= j < a.len() implies t[j] != '\n' by {
            assert(t[j] == a[j]);
        }
        assert(t[a.len() as int] == '\n');
        lemma_pieces_step(t, a.len() as int);
        assert(t.take(a.len() as int) =~= a);
        assert(t.skip(a.len() + 1int) =~= join_lines(with_cr(rest)));
        assert(with_cr(ls) + seq![Seq::<char>::empty()] =~= seq![a] + (with_cr(rest) + seq![
            Seq::<char>::empty(),
        ]));
    }
}

/// Clean lines ended by `\r\n` have the same canonical text as when they
/// are ended by `\n`.
proof fn lemma_canonical_cr(ls: Seq<Seq<char>>)
    requires
        all_clean(ls),
    ensures
        canonical_text(join_lines(with_cr(ls))) == canonical_text(join_lines(ls)),
{
    let e = seq![Seq::<char>::empty()];
    let f = |p: Seq<char>| canonical_line(p);
    lemma_pieces_join_cr(ls);
    lemma_pieces_join(ls);
    assert forall|k: int| 0 <= k < ls.len() implies canonical_line(#[trigger] ls[k].push('\r'))
        == canonical_line(ls[k]) by {
        assert(clean_line(ls[k]));
        lemma_clean_canonical(ls[k]);
        assert(ls[k].push('\r').drop_last() =~= ls[k]);
        assert(without_trailing_cr(ls[k]) == ls[k]);
    }
    assert((with_cr(ls) + e).map_values(f) =~= (ls + e).map_values(f)) by {
        assert forall|k: int| 0 <= k < ls.len() + 1 implies (with_cr(ls) + e).map_values(f)[k] == (ls
            + e).map_values(f)[k] by {
            if k < ls.len() {
                assert((with_cr(ls) + e)[k] == ls[k].push('\r'));
            }
        }
    }
}

/// The magic line of a written record still names its version when it is
/// ended by `\r\n`.
proof fn lemma_record_magic_cr(rest: Seq<char>)
    ensures
        crate::persistence::magic::magic_text(
            vstd::utf8::encode_utf8(RUN_RECORD_MAGIC@.push('\r') + seq!['\n'] + rest),
        ) == Some(RUN_RECORD_MAGIC@),
{
    let m = RUN_RECORD_MAGIC@;
    let mc = m.push('\r');
    lemma_record_magic_line();
    assert(vstd::utf8::is_ascii_chars(mc));
    vstd::utf8::is_ascii_chars_encode_utf8(m);
    vstd::utf8::is_ascii_chars_encode_utf8(mc);
    let em = vstd::utf8::encode_utf8(m);
    let emc = vstd::utf8::encode_utf8(mc);
    assert(emc =~= em.push(13u8));
    crate::persistence::text_lines::lemma_encode_utf8_append(mc, seq!['\n']);
    crate::persistence::text_lines::lemma_encode_utf8_append(mc + seq!['\n'], rest);
    assert(vstd::utf8::encode_utf8(seq!['\n']) =~= seq![10u8]) by {
        assert(vstd::utf8::is_ascii_chars(seq!['\n']));
        vstd::utf8::is_ascii_chars_encode_utf8(seq!['\n']);
    }
    let bytes = vstd::utf8::encode_utf8(mc + seq!['\n'] + rest);
    let pk = crate::persistence::magic::peek_of(bytes);
    assert(bytes =~= emc + seq![10u8] + vstd::utf8::encode_utf8(rest));
    assert(pk.len() >= 19);
    assert(pk[18] == 10u8);
    assert forall|j: int| 0 <= j < 18 implies pk[j] != 10u8 by {
        assert(pk[j] == emc[j]);
        assert(emc[j] == mc[j] as u8);
        assert(mc[j] != '\n');
    }
    crate::persistence::magic::lemma_byte_index_of(pk, 10);
    assert(pk.take(18) =~= emc);
    assert(emc.drop_last() =~= em);
    vstd::utf8::encode_utf8_valid_utf8(m);
    vstd::utf8::encode_utf8_decode_utf8(m);
}

/// Reading a written run record in which every `\n` was written as `\r\n`
/// gives back, without warnings, its fields and its boards, every cell that
/// is not alive read as dead, whatever the content hash mode.
#[verifier::spinoff_prover]
#[verifier::rlimit(80)]
pub proof fn lemma_run_record_crlf_round_trip(
    res: Result<crate::persistence::run_record::LoadedRunRecord, crate::persistence::run_record::RunRecordReadError>,
    path: Seq<char>,
    r: RunRecord,
    max_mem: usize,
    mode: crate::persistence::run_record::ContentHashMode,
)
    requires
        writable_record(r),
        boards_fit(r, max_mem),
        record_lines(r).len() <= usize::MAX,
        crate::persistence::record_reader::run_record_read_result(
            res,
            path,
            crlf_text(crate::persistence::run_record::run_record_text(r)),
            max_mem,
            mode,
        ),
    ensures
        res matches Ok(l) && l.warnings@.len() == 0 && record_read_back(l.record, r),
{
    let body = run_record_body_text(r);
    let h = fnv1a(vstd::utf8::encode_utf8(body));
    let ls = record_lines(r);
    let all = ls + seq![Seq::<char>::empty(), trailer_line(h)];
    let text = crate::persistence::run_record::run_record_text(r);
    let crlf = crlf_text(text);
    lemma_record_text_join(r);
    lemma_record_lines_clean(r);
    lemma_trailer_hash(h);
    assert(all_clean(all)) by {
        assert forall|k: int| 0 <= k < all.len() implies clean_line(#[trigger] all[k]) by {
            if k < ls.len() {
                assert(all[k] == ls[k]);
            }
        }
    }
    lemma_crlf_join(all);
    lemma_canonical_cr(all);
    assert(crlf == join_lines(with_cr(all)));
    assert(canonical_text(crlf) == canonical_text(text));
    assert(all =~= seq![RUN_RECORD_MAGIC@] + all.drop_first());
    assert(with_cr(all) =~= seq![RUN_RECORD_MAGIC@.push('\r')] + with_cr(all.drop_first()));
    crate::persistence::round_trip::lemma_join_cons(RUN_RECORD_MAGIC@, all.drop_first());
    crate::persistence::round_trip::lemma_join_cons(
        RUN_RECORD_MAGIC@.push('\r'),
        with_cr(all.drop_first()),
    );
    lemma_record_magic(join_lines(all.drop_first()));
    lemma_record_magic_cr(join_lines(with_cr(all.drop_first())));
    assert(crate::persistence::magic::magic_text(vstd::utf8::encode_utf8(crlf))
        == crate::persistence::magic::magic_text(vstd::utf8::encode_utf8(text)));
    assert(crate::persistence::record_reader::run_record_read_result(res, path, text, max_mem, mode));
    lemma_run_record_round_trip(res, path, r, max_mem, mode);
}

} // verus!
