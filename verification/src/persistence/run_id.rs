//! Run identifiers: 128-bit values written as UUID v4 text
//! (`xxxxxxxx-xxxx-xxxx-xxxx-xxxxxxxxxxxx`, lowercase hex).
use vstd::prelude::*;

use std::hash::BuildHasher;

use crate::text::{hex_char, hex_digits, hex_string, push_chars, trim, trim_str};

verus! {

/// A 128-bit run identifier, formatted as a UUID.
#[derive(Debug, Clone, Copy, PartialEq, Eq, Hash)]
pub struct RunId(pub [u8; 16]);

/// Sets the RFC 4122 version (4) and variant (10xx) bits of `bytes`.
pub open spec fn with_v4_bits(bytes: Seq<u8>) -> Seq<u8> {
    bytes.update(6, (bytes[6] & 0x0f) | 0x40).update(8, (bytes[8] & 0x3f) | 0x80)
}

impl RunId {
    /// Generates a fresh UUID v4 from process-local entropy.
    pub fn generate() -> (r: Self)
        ensures
            r.0[6] >> 4 == 4,
            r.0[8] & 0xc0 == 0x80,
    {
        let raw = random_bytes();
        Self::from_random_bytes(raw)
    }

    /// The identifier with the version and variant bits set on `bytes`.
    pub fn from_random_bytes(bytes: [u8; 16]) -> (r: Self)
        ensures
            r.0@ == with_v4_bits(bytes@),
            r.0[6] >> 4 == 4,
            r.0[8] & 0xc0 == 0x80,
    {
        let mut b = bytes;
        let b6 = b[6];
        let b8 = b[8];
        b[6] = (b6 & 0x0f) | 0x40;
        b[8] = (b8 & 0x3f) | 0x80;
        proof {
            assert(((b6 & 0x0f) | 0x40) >> 4 == 4) by (bit_vector);
            assert(((b8 & 0x3f) | 0x80) & 0xc0 == 0x80) by (bit_vector);
            assert(b@ =~= with_v4_bits(bytes@));
        }
        Self(b)
    }

    pub fn from_bytes(bytes: [u8; 16]) -> (r: Self)
        ensures
            r.0@ == bytes@,
    {
        Self(bytes)
    }

    pub fn as_bytes(&self) -> (r: &[u8; 16])
        ensures
            r@ == self.0@,
    {
        &self.0
    }

    /// The first 8 hex characters of the canonical form.
    pub fn short(&self) -> (r: String)
        ensures
            r@ == run_id_text(self.0@).take(8),
    {
        short_run_id(self)
    }
}

/// `RandomState::new()`: a hash builder whose keys are drawn from the
/// operating system's randomness. Nothing is promised of it.
#[verifier::external_body]
fn fresh_random_state() -> std::collections::hash_map::RandomState {
    std::collections::hash_map::RandomState::new()
}

/// `BuildHasher::hash_one` of `state` on `counter`. The result depends on
/// the random keys of `state`, so nothing is promised of it.
#[verifier::external_body]
fn hash_with(state: &std::collections::hash_map::RandomState, counter: u64) -> u64 {
    state.hash_one(counter)
}

/// A 64-bit word hashed from `counter` with a freshly keyed `RandomState`.
fn random_word(counter: u64) -> u64 {
    let state = fresh_random_state();
    hash_with(&state, counter)
}

/// Sixteen bytes of entropy: two random words, little-endian.
fn random_bytes() -> [u8; 16] {
    let mut out = [0u8; 16];
    let mut w: usize = 0;
    while w < 2
        invariant
            w <= 2,
        decreases 2 - w,
    {
        let word = random_word(w as u64);
        let mut i: usize = 0;
        while i < 8
            invariant
                i <= 8,
                w < 2,
            decreases 8 - i,
        {
            out[w * 8 + i] = ((word >> ((i * 8) as u64)) & 0xff) as u8;
            i += 1;
        }
        w += 1;
    }
    out
}

/// Two lowercase hex digits per byte of `b`.
pub open spec fn hex_bytes(b: Seq<u8>) -> Seq<char>
    decreases b.len(),
{
    if b.len() == 0 {
        Seq::empty()
    } else {
        hex_bytes(b.drop_last()) + hex_digits(b.last() as nat, 2)
    }
}

/// Canonical 8-4-4-4-12 text of the 16 bytes `b`.
pub open spec fn run_id_text(b: Seq<u8>) -> Seq<char> {
    hex_bytes(b.subrange(0, 4)) + seq!['-'] + hex_bytes(b.subrange(4, 6)) + seq!['-'] + hex_bytes(
        b.subrange(6, 8),
    ) + seq!['-'] + hex_bytes(b.subrange(8, 10)) + seq!['-'] + hex_bytes(b.subrange(10, 16))
}

fn push_hex_bytes(s: &mut String, b: &[u8; 16], from: usize, to: usize)
    requires
        from <= to <= 16,
    ensures
        final(s)@ == old(s)@ + hex_bytes(b@.subrange(from as int, to as int)),
{
    let mut i = from;
    while i < to
        invariant
            from <= i <= to <= 16,
            s@ == old(s)@ + hex_bytes(b@.subrange(from as int, i as int)),
        decreases to - i,
    {
        let d = hex_string(b[i] as u64, 2);
        push_chars(s, d.as_slice());
        proof {
            let p = b@.subrange(from as int, i + 1);
            assert(p.drop_last() =~= b@.subrange(from as int, i as int));
        }
        i += 1;
    }
}

/// Formats a `RunId` as canonical lowercase 8-4-4-4-12 hex.
pub fn format_run_id(id: &RunId) -> (r: String)
    ensures
        r@ == run_id_text(id.0@),
{
    let mut s = String::new();
    let b = &id.0;
    push_hex_bytes(&mut s, b, 0, 4);
    crate::text::push_char(&mut s, '-');
    push_hex_bytes(&mut s, b, 4, 6);
    crate::text::push_char(&mut s, '-');
    push_hex_bytes(&mut s, b, 6, 8);
    crate::text::push_char(&mut s, '-');
    push_hex_bytes(&mut s, b, 8, 10);
    crate::text::push_char(&mut s, '-');
    push_hex_bytes(&mut s, b, 10, 16);
    proof {
        assert(s@ =~= run_id_text(id.0@));
    }
    s
}

pub proof fn lemma_hex_bytes_len(b: Seq<u8>)
    ensures
        hex_bytes(b).len() == 2 * b.len(),
    decreases b.len(),
{
    if b.len() > 0 {
        lemma_hex_bytes_len(b.drop_last());
        crate::persistence::hash::lemma_hex_digits_round_trip(b.last() as nat, 2);
    }
}

/// Returns the first 8 hex characters of the canonical form.
pub fn short_run_id(id: &RunId) -> (r: String)
    ensures
        r@ == run_id_text(id.0@).take(8),
{
    let s = format_run_id(id);
    proof {
        lemma_hex_bytes_len(id.0@.subrange(0, 4));
    }
    s.as_str().substring_char(0, 8).to_owned()
}

#[derive(Debug, Clone, PartialEq, Eq)]
pub enum RunIdParseError {
    Empty,
    WrongLength { value: String, actual: usize },
    MissingHyphen { value: String, position: usize },
    NonHex { value: String, position: usize },
}

/// Value of an ASCII hex digit byte.
pub open spec fn nibble(b: u8) -> Option<u8> {
    if 48 <= b <= 57 {
        Some((b - 48) as u8)
    } else if 97 <= b <= 102 {
        Some((b - 97 + 10) as u8)
    } else if 65 <= b <= 70 {
        Some((b - 65 + 10) as u8)
    } else {
        None
    }
}

/// Position in the 36-byte text of the high digit of byte `k`.
pub open spec fn byte_position(k: int) -> int {
    if k < 4 {
        2 * k
    } else if k < 6 {
        2 * k + 1
    } else if k < 8 {
        2 * k + 2
    } else if k < 10 {
        2 * k + 3
    } else {
        2 * k + 4
    }
}

/// The first of the hyphen positions 8, 13, 18, 23 that does not hold `-`.
pub open spec fn first_missing_hyphen(t: Seq<u8>) -> Option<int> {
    if t[8] != 45 {
        Some(8)
    } else if t[13] != 45 {
        Some(13)
    } else if t[18] != 45 {
        Some(18)
    } else if t[23] != 45 {
        Some(23)
    } else {
        None
    }
}

/// Decodes bytes `0..k` of the 36-byte text `t`: the decoded bytes, or the
/// first position that is not a hex digit.
pub open spec fn decode_prefix(t: Seq<u8>, k: nat) -> Result<Seq<u8>, int>
    decreases k,
{
    if k == 0 {
        Ok(Seq::empty())
    } else {
        match decode_prefix(t, (k - 1) as nat) {
            Err(p) => Err(p),
            Ok(done) => {
                let p = byte_position(k - 1);
                match (nibble(t[p]), nibble(t[p + 1])) {
                    (None, _) => Err(p),
                    (Some(_), None) => Err(p + 1),
                    (Some(hi), Some(lo)) => Ok(done.push((hi * 16 + lo) as u8)),
                }
            },
        }
    }
}

/// Once decoding fails, decoding more bytes fails at the same position.
pub proof fn lemma_decode_error_sticks(t: Seq<u8>, k: nat, m: nat)
    requires
        k <= m,
        decode_prefix(t, k) is Err,
    ensures
        decode_prefix(t, m) == decode_prefix(t, k),
    decreases m,
{
    if k < m {
        lemma_decode_error_sticks(t, k, (m - 1) as nat);
    }
}

fn decode_hex_nibble(byte: u8) -> (r: Option<u8>)
    ensures
        r == nibble(byte),
{
    if 48 <= byte && byte <= 57 {
        Some(byte - 48)
    } else if 97 <= byte && byte <= 102 {
        Some(byte - 97 + 10)
    } else if 65 <= byte && byte <= 70 {
        Some(byte - 65 + 10)
    } else {
        None
    }
}

/// The bytes that `parse_run_id` accepts `value` as, if it accepts it.
pub open spec fn parsed_run_id(value: Seq<char>) -> Option<Seq<u8>> {
    let t = trim(value);
    let tb = vstd::utf8::encode_utf8(t);
    if t.len() != 0 && tb.len() == 36 && first_missing_hyphen(tb) is None {
        match decode_prefix(tb, 16) {
            Ok(b) => Some(b),
            Err(_) => None,
        }
    } else {
        None
    }
}

/// Parses an 8-4-4-4-12 hex UUID (either case) into a `RunId`. The version
/// and variant bits are not checked.
pub fn parse_run_id(value: &str) -> (r: Result<RunId, RunIdParseError>)
    ensures
        ({
            let t = trim(value@);
            let tb = vstd::utf8::encode_utf8(t);
            if t.len() == 0 {
                r == Err::<RunId, RunIdParseError>(RunIdParseError::Empty)
            } else if tb.len() != 36 {
                r matches Err(RunIdParseError::WrongLength { value: v, actual }) && v@ == value@
                    && actual == tb.len()
            } else if first_missing_hyphen(tb) is Some {
                r matches Err(RunIdParseError::MissingHyphen { value: v, position }) && v@ == value@
                    && position == first_missing_hyphen(tb)->0
            } else {
                match decode_prefix(tb, 16) {
                    Err(p) => r matches Err(RunIdParseError::NonHex { value: v, position }) && v@
                        == value@ && position == p,
                    Ok(bytes) => r matches Ok(id) && id.0@ == bytes,
                }
            }
        }),
        r is Ok <==> parsed_run_id(value@) is Some,
        r matches Ok(id) ==> id.0@ == parsed_run_id(value@)->0,
{
    let trimmed = trim_str(value);
    if trimmed.is_empty() {
        return Err(RunIdParseError::Empty);
    }
    let bytes = trimmed.as_bytes();
    proof {
        assert(bytes@ == vstd::utf8::encode_utf8(trim(value@)));
    }
    if bytes.len() != 36 {
        return Err(RunIdParseError::WrongLength { value: value.to_owned(), actual: bytes.len() });
    }
    if bytes[8] != 45 {
        return Err(RunIdParseError::MissingHyphen { value: value.to_owned(), position: 8 });
    }
    if bytes[13] != 45 {
        return Err(RunIdParseError::MissingHyphen { value: value.to_owned(), position: 13 });
    }
    if bytes[18] != 45 {
        return Err(RunIdParseError::MissingHyphen { value: value.to_owned(), position: 18 });
    }
    if bytes[23] != 45 {
        return Err(RunIdParseError::MissingHyphen { value: value.to_owned(), position: 23 });
    }
    let mut out = [0u8; 16];
    let mut k: usize = 0;
    proof {
        assert(out@.take(0) =~= Seq::<u8>::empty());
    }
    while k < 16
        invariant
            k <= 16,
            bytes@.len() == 36,
            bytes@ == vstd::utf8::encode_utf8(trim(value@)),
            trim(value@).len() != 0,
            first_missing_hyphen(bytes@) is None,
            decode_prefix(bytes@, k as nat) == Ok::<Seq<u8>, int>(out@.take(k as int)),
            out@.len() == 16,
        decreases 16 - k,
    {
        let p: usize = if k < 4 {
            2 * k
        } else if k < 6 {
            2 * k + 1
        } else if k < 8 {
            2 * k + 2
        } else if k < 10 {
            2 * k + 3
        } else {
            2 * k + 4
        };
        proof {
            assert(p == byte_position(k as int));
        }
        let hi = match decode_hex_nibble(bytes[p]) {
            Some(h) => h,
            None => {
                proof {
                    assert(decode_prefix(bytes@, (k + 1) as nat) == Err::<Seq<u8>, int>(p as int));
                    lemma_decode_error_sticks(bytes@, (k + 1) as nat, 16);
                }
                return Err(RunIdParseError::NonHex { value: value.to_owned(), position: p });
            },
        };
        let lo = match decode_hex_nibble(bytes[p + 1]) {
            Some(l) => l,
            None => {
                proof {
                    assert(decode_prefix(bytes@, (k + 1) as nat) == Err::<Seq<u8>, int>(p + 1));
                    lemma_decode_error_sticks(bytes@, (k + 1) as nat, 16);
                }
                return Err(RunIdParseError::NonHex { value: value.to_owned(), position: p + 1 });
            },
        };
        proof {
            assert(hi * 16 + lo < 256);
        }
        let ghost prev = out@;
        out[k] = hi * 16 + lo;
        proof {
            assert(prev.take(k as int) =~= out@.take(k as int));
            assert(out@.take(k + 1) =~= out@.take(k as int).push((hi * 16 + lo) as u8));
            assert(decode_prefix(bytes@, (k + 1) as nat) == Ok::<Seq<u8>, int>(
                out@.take(k as int).push((hi * 16 + lo) as u8),
            ));
        }
        k += 1;
    }
    proof {
        assert(out@.take(16) =~= out@);
    }
    Ok(RunId(out))
}

/// Lowercase hexadecimal digit characters.
pub open spec fn is_lower_hex_char(c: char) -> bool {
    ('0' <= c && c <= '9') || ('a' <= c && c <= 'f')
}

proof fn lemma_hex_bytes_index(s: Seq<u8>, j: int)
    requires
        0 <= j < s.len(),
    ensures
        hex_bytes(s).len() == 2 * s.len(),
        hex_bytes(s)[2 * j] == hex_char((s[j] / 16) as nat),
        hex_bytes(s)[2 * j + 1] == hex_char((s[j] % 16) as nat),
    decreases s.len(),
{
    lemma_hex_bytes_len(s);
    lemma_hex_bytes_len(s.drop_last());
    let n = s.last() as nat;
    reveal_with_fuel(hex_digits, 3);
    assert((n / 16) % 16 == n / 16);
    if j < s.len() - 1 {
        lemma_hex_bytes_index(s.drop_last(), j);
    }
}

proof fn lemma_hex_bytes_chars(s: Seq<u8>)
    ensures
        forall|i: int| 0 <= i < hex_bytes(s).len() ==> is_lower_hex_char(#[trigger] hex_bytes(s)[i]),
{
    lemma_hex_bytes_len(s);
    assert forall|i: int| 0 <= i < hex_bytes(s).len() implies is_lower_hex_char(
        #[trigger] hex_bytes(s)[i],
    ) by {
        let j = i / 2;
        lemma_hex_bytes_index(s, j);
        assert(i == 2 * j || i == 2 * j + 1);
    }
}

/// Where the two digits of byte `k` stand in the canonical text.
proof fn lemma_run_id_text_at(b: Seq<u8>, k: int)
    requires
        b.len() == 16,
        0 <= k < 16,
    ensures
        run_id_text(b).len() == 36,
        run_id_text(b)[byte_position(k)] == hex_char((b[k] / 16) as nat),
        run_id_text(b)[byte_position(k) + 1] == hex_char((b[k] % 16) as nat),
{
    let s0 = b.subrange(0, 4);
    let s1 = b.subrange(4, 6);
    let s2 = b.subrange(6, 8);
    let s3 = b.subrange(8, 10);
    let s4 = b.subrange(10, 16);
    lemma_hex_bytes_len(s0);
    lemma_hex_bytes_len(s1);
    lemma_hex_bytes_len(s2);
    lemma_hex_bytes_len(s3);
    lemma_hex_bytes_len(s4);
    if k < 4 {
        lemma_hex_bytes_index(s0, k);
    } else if k < 6 {
        lemma_hex_bytes_index(s1, k - 4);
    } else if k < 8 {
        lemma_hex_bytes_index(s2, k - 6);
    } else if k < 10 {
        lemma_hex_bytes_index(s3, k - 8);
    } else {
        lemma_hex_bytes_index(s4, k - 10);
    }
}

/// The canonical text holds lowercase hex digits, with hyphens at 8, 13, 18, 23.
pub proof fn lemma_run_id_text_chars(b: Seq<u8>)
    requires
        b.len() == 16,
    ensures
        run_id_text(b).len() == 36,
        forall|i: int|
            0 <= i < 36 && i != 8 && i != 13 && i != 18 && i != 23 ==> is_lower_hex_char(
                #[trigger] run_id_text(b)[i],
            ),
        run_id_text(b)[8] == '-',
        run_id_text(b)[13] == '-',
        run_id_text(b)[18] == '-',
        run_id_text(b)[23] == '-',
{
    let s0 = b.subrange(0, 4);
    let s1 = b.subrange(4, 6);
    let s2 = b.subrange(6, 8);
    let s3 = b.subrange(8, 10);
    let s4 = b.subrange(10, 16);
    lemma_hex_bytes_chars(s0);
    lemma_hex_bytes_chars(s1);
    lemma_hex_bytes_chars(s2);
    lemma_hex_bytes_chars(s3);
    lemma_hex_bytes_chars(s4);
    lemma_hex_bytes_len(s0);
    lemma_hex_bytes_len(s1);
    lemma_hex_bytes_len(s2);
    lemma_hex_bytes_len(s3);
    lemma_hex_bytes_len(s4);
    let t = run_id_text(b);
    assert forall|i: int|
        0 <= i < 36 && i != 8 && i != 13 && i != 18 && i != 23 implies is_lower_hex_char(
        #[trigger] t[i],
    ) by {
        if i < 8 {
            assert(t[i] == hex_bytes(s0)[i]);
        } else if i < 13 {
            assert(t[i] == hex_bytes(s1)[i - 9]);
        } else if i < 18 {
            assert(t[i] == hex_bytes(s2)[i - 14]);
        } else if i < 23 {
            assert(t[i] == hex_bytes(s3)[i - 19]);
        } else {
            assert(t[i] == hex_bytes(s4)[i - 24]);
        }
    }
}

proof fn lemma_nibble_hex_char(d: nat)
    requires
        d < 16,
    ensures
        nibble(hex_char(d) as u8) == Some(d as u8),
{
}

/// Decoding a text whose digit pairs hold the nibbles of `b` gives `b`.
proof fn lemma_decode_spelled(tb: Seq<u8>, b: Seq<u8>, k: nat)
    requires
        b.len() == 16,
        tb.len() == 36,
        k <= 16,
        forall|j: int|
            0 <= j < 16 ==> nibble(#[trigger] tb[byte_position(j)]) == Some((b[j] / 16) as u8)
                && nibble(tb[byte_position(j) + 1]) == Some((b[j] % 16) as u8),
    ensures
        decode_prefix(tb, k) == Ok::<Seq<u8>, int>(b.take(k as int)),
    decreases k,
{
    if k > 0 {
        lemma_decode_spelled(tb, b, (k - 1) as nat);
        let j = k - 1;
        let p = byte_position(j);
        assert(nibble(tb[p]) == Some((b[j] / 16) as u8));
        assert(nibble(tb[p + 1]) == Some((b[j] % 16) as u8));
        assert(((b[j] / 16) as u8 * 16 + (b[j] % 16) as u8) as u8 == b[j]);
        assert(b.take(j).push(b[j]) =~= b.take(k as int));
    } else {
        assert(b.take(0) =~= Seq::<u8>::empty());
    }
}

/// ASCII upper case of `c`; other characters are unchanged.
pub open spec fn ascii_upper(c: char) -> char {
    if 'a' <= c && c <= 'z' {
        ((c as int) - 32) as char
    } else {
        c
    }
}

/// `s` in ASCII upper case.
pub open spec fn ascii_upper_text(s: Seq<char>) -> Seq<char> {
    s.map_values(|c: char| ascii_upper(c))
}

/// `t` spells the canonical text of `b`, each letter in either case.
pub open spec fn spells_run_id(t: Seq<char>, b: Seq<u8>) -> bool {
    &&& t.len() == 36
    &&& forall|i: int|
        0 <= i < 36 ==> (#[trigger] t[i] == run_id_text(b)[i] || t[i] == ascii_upper(
            run_id_text(b)[i],
        ))
}

/// Every character of `s` is white space.
pub open spec fn all_ws(s: Seq<char>) -> bool {
    forall|i: int| 0 <= i < s.len() ==> crate::text::is_ws(#[trigger] s[i])
}

proof fn lemma_nibble_upper_hex_char(d: nat)
    requires
        d < 16,
    ensures
        nibble(ascii_upper(hex_char(d)) as u8) == Some(d as u8),
{
}

/// `parse_run_id` accepts the canonical text of an identifier written in
/// lower, upper or mixed case and with white space around it, and gives the
/// identifier back.
pub proof fn lemma_parse_run_id_spelled(id: RunId, t: Seq<char>, pre: Seq<char>, post: Seq<char>)
    requires
        spells_run_id(t, id.0@),
        all_ws(pre),
        all_ws(post),
    ensures
        parsed_run_id(pre + t + post) == Some(id.0@),
{
    let b = id.0@;
    let c = run_id_text(b);
    lemma_run_id_text_chars(b);
    assert forall|i: int| 0 <= i < 36 implies #[trigger] t[i] <= 'f' && !crate::text::is_ws(
        t[i],
    ) && (c[i] == '-' ==> t[i] == '-') by {
        if i != 8 && i != 13 && i != 18 && i != 23 {
            assert(is_lower_hex_char(c[i]));
        }
    }
    assert(vstd::utf8::is_ascii_chars(t));
    vstd::utf8::is_ascii_chars_encode_utf8(t);
    let s = pre + t + post;
    let end = pre.len() as int + 36;
    crate::text::lemma_trim_end_prefix(s, end);
    let head = s.subrange(0, end);
    assert(head[pre.len() as int] == t[0]);
    crate::text::lemma_trim_start_suffix(head, pre.len() as int);
    assert(head.subrange(pre.len() as int, end) =~= t);
    assert(trim(s) == t);
    let tb = vstd::utf8::encode_utf8(t);
    assert(tb[8] == 45 && tb[13] == 45 && tb[18] == 45 && tb[23] == 45);
    assert forall|j: int| 0 <= j < 16 implies nibble(#[trigger] tb[byte_position(j)]) == Some(
        (b[j] / 16) as u8,
    ) && nibble(tb[byte_position(j) + 1]) == Some((b[j] % 16) as u8) by {
        lemma_run_id_text_at(b, j);
        lemma_nibble_hex_char((b[j] / 16) as nat);
        lemma_nibble_hex_char((b[j] % 16) as nat);
        lemma_nibble_upper_hex_char((b[j] / 16) as nat);
        lemma_nibble_upper_hex_char((b[j] % 16) as nat);
        assert(tb[byte_position(j)] == t[byte_position(j)] as u8);
        assert(tb[byte_position(j) + 1] == t[byte_position(j) + 1] as u8);
    }
    lemma_decode_spelled(tb, b, 16);
    assert(b.take(16) =~= b);
}

/// Parsing the canonical text of an identifier gives the identifier back.
pub proof fn lemma_format_then_parse_run_id(id: RunId)
    ensures
        parsed_run_id(run_id_text(id.0@)) == Some(id.0@),
{
    let t = run_id_text(id.0@);
    lemma_run_id_text_chars(id.0@);
    lemma_parse_run_id_spelled(id, t, Seq::empty(), Seq::empty());
    assert(Seq::<char>::empty() + t + Seq::<char>::empty() =~= t);
}

/// `parse_run_id` gives an identifier back from its canonical text in upper
/// case, and from that text with a space on either side.
pub proof fn lemma_parse_run_id_upper_and_padded(id: RunId)
    ensures
        parsed_run_id(ascii_upper_text(run_id_text(id.0@))) == Some(id.0@),
        parsed_run_id(seq![' '] + run_id_text(id.0@) + seq![' ']) == Some(id.0@),
{
    let t = run_id_text(id.0@);
    lemma_run_id_text_chars(id.0@);
    lemma_parse_run_id_spelled(id, ascii_upper_text(t), Seq::empty(), Seq::empty());
    assert(Seq::<char>::empty() + ascii_upper_text(t) + Seq::<char>::empty() =~= ascii_upper_text(
        t,
    ));
    lemma_parse_run_id_spelled(id, t, seq![' '], seq![' ']);
}

} // verus!
