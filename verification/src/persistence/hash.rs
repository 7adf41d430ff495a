//! FNV-1a 64-bit hash used to detect accidental edits of run records, and
//! its `0x`-prefixed hexadecimal text form.
use vstd::prelude::*;

use crate::text::{
    char_is_hex_digit, chars_of, hex_char, hex_digits, hex_number, hex_string, hex_value, is_hex_digit,
    push_chars, trim, trim_range,
};

verus! {

pub const FNV1A_64_OFFSET_BASIS: u64 = 0xcbf2_9ce4_8422_2325;

pub const FNV1A_64_PRIME: u64 = 0x100_0000_01b3;

/// FNV-1a 64-bit hash of `bytes`: starting from the offset basis, each byte
/// is xored in and the state multiplied by the FNV prime modulo 2^64.
pub open spec fn fnv1a(bytes: Seq<u8>) -> u64
    decreases bytes.len(),
{
    if bytes.len() == 0 {
        FNV1A_64_OFFSET_BASIS
    } else {
        vstd::wrapping::u64_specs::wrapping_mul(
            fnv1a(bytes.drop_last()) ^ (bytes.last() as u64),
            FNV1A_64_PRIME,
        )
    }
}

/// Computes the FNV-1a 64-bit hash of the given bytes.
pub fn fnv1a_64(bytes: &[u8]) -> (r: u64)
    ensures
        r == fnv1a(bytes@),
{
    let mut hash = FNV1A_64_OFFSET_BASIS;
    let mut i: usize = 0;
    while i < bytes.len()
        invariant
            i <= bytes@.len(),
            hash == fnv1a(bytes@.take(i as int)),
        decreases bytes@.len() - i,
    {
        proof {
            assert(bytes@.take(i + 1).drop_last() =~= bytes@.take(i as int));
        }
        hash = hash ^ (bytes[i] as u64);
        hash = hash.wrapping_mul(FNV1A_64_PRIME);
        i += 1;
    }
    proof {
        assert(bytes@.take(i as int) =~= bytes@);
    }
    hash
}

/// The canonical text of a hash: `0x` and sixteen lowercase hex digits.
pub open spec fn hash_text(hash: u64) -> Seq<char> {
    seq!['0', 'x'] + hex_digits(hash as nat, 16)
}

/// Formats a 64-bit hash as `0x{16 hex digits}`.
pub fn format_hash(hash: u64) -> (r: String)
    ensures
        r@ == hash_text(hash),
{
    let mut s = String::new();
    let digits = hex_string(hash, 16);
    let prefix = ['0', 'x'];
    push_chars(&mut s, &prefix);
    push_chars(&mut s, digits.as_slice());
    proof {
        assert(prefix@ =~= seq!['0', 'x']);
        assert(s@ =~= hash_text(hash));
    }
    s
}

#[derive(Debug, Clone, PartialEq, Eq)]
pub enum HashParseError {
    Empty,
    TooLong { value: String },
    NonHex { value: String },
}

/// The digits of a trimmed hash value after an optional `0x`/`0X` prefix.
pub open spec fn hex_part(t: Seq<char>) -> Seq<char> {
    if t.len() >= 2 && t[0] == '0' && (t[1] == 'x' || t[1] == 'X') {
        t.skip(2)
    } else {
        t
    }
}

pub open spec fn all_hex(s: Seq<char>) -> bool {
    forall|i: int| 0 <= i < s.len() ==> is_hex_digit(#[trigger] s[i])
}

/// The result of reading `value` as a hash; `Ok(n)` carries the number and
/// the error variants are told apart by `hash_error_kind`.
pub open spec fn parse_hash_spec(value: Seq<char>) -> Option<u64> {
    let t = trim(value);
    let h = hex_part(t);
    if t.len() == 0 || h.len() == 0 || h.len() > 16 || !all_hex(h) {
        None
    } else {
        Some(hex_number(h) as u64)
    }
}

/// Parses a hash in either `0x...` or bare-hex form of at most 16 digits.
pub fn parse_hash(value: &str) -> (r: Result<u64, HashParseError>)
    ensures
        ({
            let t = trim(value@);
            let h = hex_part(t);
            if t.len() == 0 || h.len() == 0 {
                r == Err::<u64, HashParseError>(HashParseError::Empty)
            } else if h.len() > 16 {
                r matches Err(HashParseError::TooLong { value: v }) && v@ == value@
            } else if !all_hex(h) {
                r matches Err(HashParseError::NonHex { value: v }) && v@ == value@
            } else {
                r == Ok::<u64, HashParseError>(hex_number(h) as u64)
            }
        }),
        r matches Ok(n) ==> parse_hash_spec(value@) == Some(n),
{
    let cs = chars_of(value);
    let (a, b) = trim_range(cs.as_slice(), 0, cs.len());
    proof {
        assert(cs@.subrange(0, cs@.len() as int) =~= cs@);
    }
    let ghost t = cs@.subrange(a as int, b as int);
    if a == b {
        return Err(HashParseError::Empty);
    }
    let mut start = a;
    if b - a >= 2 && cs[a] == '0' && (cs[a + 1] == 'x' || cs[a + 1] == 'X') {
        start = a + 2;
        proof {
            assert(t.skip(2) =~= cs@.subrange(start as int, b as int));
        }
    }
    proof {
        assert(hex_part(t) =~= cs@.subrange(start as int, b as int));
    }
    if start == b {
        return Err(HashParseError::Empty);
    }
    if b - start > 16 {
        return Err(HashParseError::TooLong { value: value.to_owned() });
    }
    match hex_in_range(cs.as_slice(), start, b) {
        Some(n) => Ok(n),
        None => Err(HashParseError::NonHex { value: value.to_owned() }),
    }
}

/// The value of the hex digits `cs[from..to]` (at most 16 of them), or `None`
/// when one of them is not a hex digit.
fn hex_in_range(cs: &[char], from: usize, to: usize) -> (r: Option<u64>)
    requires
        from <= to <= cs@.len(),
        to - from <= 16,
    ensures
        r == if all_hex(cs@.subrange(from as int, to as int)) {
            Some(hex_number(cs@.subrange(from as int, to as int)) as u64)
        } else {
            None::<u64>
        },
        r is Some ==> hex_number(cs@.subrange(from as int, to as int)) <= u64::MAX,
{
    let mut i = from;
    let mut n: u64 = 0;
    while i < to
        invariant
            from <= i <= to <= cs@.len(),
            to - from <= 16,
            forall|k: int| from <= k < i ==> is_hex_digit(#[trigger] cs@[k]),
            n == hex_number(cs@.subrange(from as int, i as int)),
            hex_number(cs@.subrange(from as int, i as int)) < pow16((i - from) as nat),
        decreases to - i,
    {
        let c = cs[i];
        if !char_is_hex_digit(c) {
            proof {
                assert(!is_hex_digit(cs@.subrange(from as int, to as int)[i - from]));
            }
            return None;
        }
        let d: u64 = if '0' <= c && c <= '9' {
            (c as u32 - '0' as u32) as u64
        } else if 'a' <= c && c <= 'f' {
            (c as u32 - 'a' as u32 + 10) as u64
        } else {
            (c as u32 - 'A' as u32 + 10) as u64
        };
        proof {
            let p = cs@.subrange(from as int, i as int);
            assert(cs@.subrange(from as int, i + 1) =~= p.push(c));
            assert(p.push(c).drop_last() =~= p);
            assert(d == hex_value(c));
            lemma_pow16_bound((i - from) as nat);
            assert(hex_number(p) * 16 + d < pow16((i - from) as nat) * 16) by (nonlinear_arith)
                requires
                    hex_number(p) < pow16((i - from) as nat),
                    d < 16,
            ;
            lemma_pow16_mono((i + 1 - from) as nat, 16);
            lemma_pow16_16();
            assert(pow16((i + 1 - from) as nat) == pow16((i - from) as nat) * 16);
        }
        n = n * 16 + d;
        i += 1;
    }
    proof {
        assert forall|k: int| 0 <= k < to - from implies is_hex_digit(#[trigger] cs@.subrange(from as int, to as int)[k]) by {
            assert(cs@.subrange(from as int, to as int)[k] == cs@[from + k]);
        }
    }
    Some(n)
}

/// `16^k`.
pub open spec fn pow16(k: nat) -> nat
    decreases k,
{
    if k == 0 {
        1
    } else {
        16 * pow16((k - 1) as nat)
    }
}

pub proof fn lemma_pow16_bound(k: nat)
    ensures
        pow16(k) >= 1,
    decreases k,
{
    if k > 0 {
        lemma_pow16_bound((k - 1) as nat);
    }
}

pub proof fn lemma_pow16_mono(k: nat, m: nat)
    requires
        k <= m,
    ensures
        pow16(k) <= pow16(m),
    decreases m,
{
    if k < m {
        lemma_pow16_mono(k, (m - 1) as nat);
        lemma_pow16_bound((m - 1) as nat);
    }
}

proof fn lemma_pow16_16()
    ensures
        pow16(16) == 0x1_0000_0000_0000_0000,
{
    reveal_with_fuel(pow16, 17);
}

/// The hex digits of `n` read back give `n` modulo `16^width`.
pub proof fn lemma_hex_digits_round_trip(n: nat, width: nat)
    ensures
        hex_digits(n, width).len() == width,
        hex_number(hex_digits(n, width)) == n % pow16(width),
        forall|i: int| 0 <= i < width ==> is_hex_digit(#[trigger] hex_digits(n, width)[i]),
    decreases width,
{
    if width > 0 {
        lemma_hex_digits_round_trip(n / 16, (width - 1) as nat);
        let s = hex_digits(n / 16, (width - 1) as nat);
        let c = hex_char(n % 16);
        assert(s.push(c).drop_last() =~= s);
        assert(hex_value(c) == n % 16);
        lemma_pow16_bound((width - 1) as nat);
        let p = pow16((width - 1) as nat);
        assert((n / 16) % p * 16 + n % 16 == n % (16 * p)) by (nonlinear_arith)
            requires
                p >= 1,
        {
            vstd::arithmetic::div_mod::lemma_breakdown(n as int, 16, p as int);
        }
        assert forall|i: int| 0 <= i < width implies is_hex_digit(#[trigger] hex_digits(n, width)[i]) by {
            if i < width - 1 {
                assert(hex_digits(n, width)[i] == s[i]);
            }
        }
    } else {
        assert(n % 1 == 0);
    }
}

/// Parsing the formatted form of a hash gives the hash back.
pub proof fn lemma_format_then_parse_hash(hash: u64)
    ensures
        parse_hash_spec(hash_text(hash)) == Some(hash),
{
    let s = hash_text(hash);
    let d = hex_digits(hash as nat, 16);
    lemma_hex_digits_round_trip(hash as nat, 16);
    lemma_pow16_16();
    assert(!crate::text::is_ws(s.last()));
    assert(crate::text::trim_end(s) == s);
    assert(crate::text::trim_start(s) == s);
    assert(s.skip(2) =~= d);
}

} // verus!
