//! Character classification, trimming, number parsing and formatting over
//! the character sequences of strings.
use vstd::prelude::*;
use vstd::std_specs::iter::IteratorSpec;

verus! {

broadcast use vstd::string::axiom_spec_iter, vstd::string::next_postcondition;

/// The Unicode `White_Space` characters (what `char::is_whitespace` accepts).
pub open spec fn is_ws(c: char) -> bool {
    ||| c == ' '
    ||| ('\t' <= c && c <= '\r')
    ||| c == '\u{85}'
    ||| c == '\u{A0}'
    ||| c == '\u{1680}'
    ||| ('\u{2000}' <= c && c <= '\u{200A}')
    ||| c == '\u{2028}'
    ||| c == '\u{2029}'
    ||| c == '\u{202F}'
    ||| c == '\u{205F}'
    ||| c == '\u{3000}'
}

pub open spec fn is_digit(c: char) -> bool {
    '0' <= c && c <= '9'
}

pub open spec fn digit_value(c: char) -> nat {
    (c as int - '0' as int) as nat
}

pub open spec fn is_hex_digit(c: char) -> bool {
    is_digit(c) || ('a' <= c && c <= 'f') || ('A' <= c && c <= 'F')
}

pub open spec fn hex_value(c: char) -> nat {
    if is_digit(c) {
        digit_value(c)
    } else if 'a' <= c && c <= 'f' {
        (c as int - 'a' as int + 10) as nat
    } else {
        (c as int - 'A' as int + 10) as nat
    }
}

/// `s` without its leading white space.
pub open spec fn trim_start(s: Seq<char>) -> Seq<char>
    decreases s.len(),
{
    if s.len() > 0 && is_ws(s[0]) {
        trim_start(s.drop_first())
    } else {
        s
    }
}

/// `s` without its trailing white space.
pub open spec fn trim_end(s: Seq<char>) -> Seq<char>
    decreases s.len(),
{
    if s.len() > 0 && is_ws(s.last()) {
        trim_end(s.drop_last())
    } else {
        s
    }
}

/// `s` without leading and trailing white space (what `str::trim` returns).
pub open spec fn trim(s: Seq<char>) -> Seq<char> {
    trim_start(trim_end(s))
}

/// All characters of `s` are ASCII digits.
pub open spec fn all_digits(s: Seq<char>) -> bool {
    forall|i: int| 0 <= i < s.len() ==> is_digit(#[trigger] s[i])
}

/// The number written in decimal by the digits `s`.
pub open spec fn decimal_value(s: Seq<char>) -> nat
    decreases s.len(),
{
    if s.len() == 0 {
        0
    } else {
        decimal_value(s.drop_last()) * 10 + digit_value(s.last())
    }
}

/// The number written in hexadecimal by the digits `s`.
pub open spec fn hex_number(s: Seq<char>) -> nat
    decreases s.len(),
{
    if s.len() == 0 {
        0
    } else {
        hex_number(s.drop_last()) * 16 + hex_value(s.last())
    }
}

/// What `str::parse` gives for an unsigned integer type whose largest value
/// is `max`: an optional `+` followed by at least one digit, with a value of
/// at most `max`.
pub open spec fn parse_unsigned(s: Seq<char>, max: nat) -> Option<nat> {
    let digits = if s.len() > 0 && s[0] == '+' {
        s.drop_first()
    } else {
        s
    };
    if digits.len() > 0 && all_digits(digits) && decimal_value(digits) <= max {
        Some(decimal_value(digits))
    } else {
        None
    }
}

/// The shortest decimal digits of `n`.
pub open spec fn decimal_digits(n: nat) -> Seq<char>
    decreases n,
{
    if n < 10 {
        seq![digit_char(n)]
    } else {
        decimal_digits(n / 10).push(digit_char(n % 10))
    }
}

pub open spec fn digit_char(d: nat) -> char {
    (('0' as int) + d) as char
}

pub open spec fn hex_char(d: nat) -> char {
    if d < 10 {
        (('0' as int) + d) as char
    } else {
        (('a' as int) + d - 10) as char
    }
}

/// The lowest `width` hexadecimal digits of `n`, most significant first.
pub open spec fn hex_digits(n: nat, width: nat) -> Seq<char>
    decreases width,
{
    if width == 0 {
        Seq::empty()
    } else {
        hex_digits(n / 16, (width - 1) as nat).push(hex_char(n % 16))
    }
}

/// `decimal_digits(n)` padded on the left with zeros to at least `width`.
pub open spec fn zero_padded(n: nat, width: nat) -> Seq<char> {
    let d = decimal_digits(n);
    if d.len() >= width {
        d
    } else {
        Seq::new((width - d.len()) as nat, |i: int| '0') + d
    }
}

pub open spec fn pow10(n: nat) -> nat
    decreases n,
{
    if n == 0 {
        1
    } else {
        10 * pow10((n - 1) as nat)
    }
}

/// The decimal digits of `n` are digits, read back as `n`, and number at
/// most `w` when `n < 10^w`.
pub proof fn lemma_decimal_digits(n: nat, w: nat)
    requires
        1 <= w,
        n < pow10(w),
    ensures
        all_digits(decimal_digits(n)),
        decimal_value(decimal_digits(n)) == n,
        1 <= decimal_digits(n).len() <= w,
    decreases n,
{
    if n >= 10 {
        if w == 1 {
            assert(pow10(1) == 10) by {
                reveal_with_fuel(pow10, 2);
            }
        }
        assert(n / 10 < pow10((w - 1) as nat));
        lemma_decimal_digits(n / 10, (w - 1) as nat);
        let p = decimal_digits(n / 10);
        lemma_decimal_value_push(p, digit_char(n % 10));
        assert forall|i: int| 0 <= i < decimal_digits(n).len() implies is_digit(
            #[trigger] decimal_digits(n)[i],
        ) by {
            if i < p.len() {
                assert(decimal_digits(n)[i] == p[i]);
            }
        }
    } else {
        assert(decimal_value(seq![digit_char(n)]) == n) by {
            assert(seq![digit_char(n)].drop_last() =~= Seq::<char>::empty());
            assert(digit_value(digit_char(n)) == n);
            assert(decimal_value(Seq::<char>::empty()) == 0);
        }
    }
}

/// Leading zeros do not change the value of a digit string.
pub proof fn lemma_leading_zeros(k: nat, s: Seq<char>)
    ensures
        decimal_value(Seq::new(k, |i: int| '0') + s) == decimal_value(s),
    decreases s.len(), k,
{
    let z = Seq::new(k, |i: int| '0');
    if s.len() > 0 {
        assert((z + s).drop_last() =~= z + s.drop_last());
        lemma_leading_zeros(k, s.drop_last());
    } else if k > 0 {
        assert(z + s =~= z);
        let z1 = Seq::new((k - 1) as nat, |i: int| '0');
        assert(z.drop_last() =~= z1 + Seq::<char>::empty());
        lemma_leading_zeros((k - 1) as nat, Seq::<char>::empty());
    } else {
        assert(z + s =~= s);
    }
}

/// `n < 10^w` written with `w` digits reads back as `n`.
pub proof fn lemma_zero_padded(n: nat, w: nat)
    requires
        1 <= w,
        n < pow10(w),
    ensures
        zero_padded(n, w).len() == w,
        all_digits(zero_padded(n, w)),
        decimal_value(zero_padded(n, w)) == n,
{
    lemma_decimal_digits(n, w);
    let d = decimal_digits(n);
    if d.len() < w {
        let k = (w - d.len()) as nat;
        lemma_leading_zeros(k, d);
        let z = Seq::new(k, |i: int| '0');
        assert forall|i: int| 0 <= i < w implies is_digit(#[trigger] zero_padded(n, w)[i]) by {
            if i >= k {
                assert(zero_padded(n, w)[i] == d[i - k]);
            }
        }
    }
}

/// The characters of `s`, in order.
pub fn chars_of(s: &str) -> (r: Vec<char>)
    ensures
        r@ == s@,
{
    let mut out: Vec<char> = Vec::new();
    for c in iter: s.chars()
        invariant
            out@ == iter.seq().take(iter.index() as int),
    {
        out.push(c);
    }
    out
}

/// `String::push`: appends one character to a string.
#[verifier::external_body]
pub(crate) fn push_char(s: &mut String, c: char)
    ensures
        final(s)@ == old(s)@.push(c),
{
    s.push(c);
}

/// Appends the characters `cs` to `s`.
pub fn push_chars(s: &mut String, cs: &[char])
    ensures
        final(s)@ == old(s)@ + cs@,
{
    let mut i: usize = 0;
    while i < cs.len()
        invariant
            i <= cs@.len(),
            s@ == old(s)@ + cs@.take(i as int),
        decreases cs@.len() - i,
    {
        push_char(s, cs[i]);
        proof {
            assert(cs@.take(i + 1) =~= cs@.take(i as int).push(cs@[i as int]));
        }
        i += 1;
    }
    proof {
        assert(cs@.take(i as int) =~= cs@);
    }
}

/// A new string holding the characters `cs`.
pub fn string_of(cs: &[char]) -> (r: String)
    ensures
        r@ == cs@,
{
    let mut s = String::new();
    push_chars(&mut s, cs);
    proof {
        assert(s@ =~= cs@);
    }
    s
}

/// Appends the characters of `t` to `s`.
pub fn push_str(s: &mut String, t: &str)
    ensures
        final(s)@ == old(s)@ + t@,
{
    let cs = chars_of(t);
    push_chars(s, cs.as_slice());
}

/// Whether `c` is white space.
pub fn char_is_ws(c: char) -> (r: bool)
    ensures
        r == is_ws(c),
{
    c == ' ' || ('\t' <= c && c <= '\r') || c == '\u{85}' || c == '\u{A0}' || c == '\u{1680}' || ('\u{2000}'
        <= c && c <= '\u{200A}') || c == '\u{2028}' || c == '\u{2029}' || c == '\u{202F}' || c
        == '\u{205F}' || c == '\u{3000}'
}

pub fn char_is_digit(c: char) -> (r: bool)
    ensures
        r == is_digit(c),
{
    '0' <= c && c <= '9'
}

pub fn char_is_hex_digit(c: char) -> (r: bool)
    ensures
        r == is_hex_digit(c),
{
    ('0' <= c && c <= '9') || ('a' <= c && c <= 'f') || ('A' <= c && c <= 'F')
}

/// The range `[start, end)` of `s` that remains after trimming.
pub open spec fn trim_bounds_ok(s: Seq<char>, start: int, end: int) -> bool {
    0 <= start <= end <= s.len() && s.subrange(start, end) == trim(s)
}

/// Dropping trailing white space from `s` leaves `s[..end]` when all after
/// `end` is white space and the character before it is not.
pub proof fn lemma_trim_end_prefix(s: Seq<char>, end: int)
    requires
        0 <= end <= s.len(),
        forall|i: int| end <= i < s.len() ==> is_ws(#[trigger] s[i]),
        end == 0 || !is_ws(s[end - 1]),
    ensures
        trim_end(s) == s.subrange(0, end),
    decreases s.len(),
{
    if s.len() > end {
        assert(s.drop_last().subrange(0, end) =~= s.subrange(0, end));
        lemma_trim_end_prefix(s.drop_last(), end);
    } else {
        assert(s.subrange(0, end) =~= s);
    }
}

/// Dropping leading white space from `s` leaves `s[start..]` when all before
/// `start` is white space and the character at it is not.
pub proof fn lemma_trim_start_suffix(s: Seq<char>, start: int)
    requires
        0 <= start <= s.len(),
        forall|i: int| 0 <= i < start ==> is_ws(#[trigger] s[i]),
        start == s.len() || !is_ws(s[start]),
    ensures
        trim_start(s) == s.subrange(start, s.len() as int),
    decreases s.len(),
{
    if start > 0 {
        assert(s.drop_first().subrange(start - 1, s.len() - 1) =~= s.subrange(start, s.len() as int));
        lemma_trim_start_suffix(s.drop_first(), start - 1);
    } else {
        assert(s.subrange(0, s.len() as int) =~= s);
    }
}

/// White space around a text with none at either end is what trimming
/// removes.
pub proof fn lemma_trim_padded(pre: Seq<char>, t: Seq<char>, post: Seq<char>)
    requires
        forall|i: int| 0 <= i < pre.len() ==> is_ws(#[trigger] pre[i]),
        forall|i: int| 0 <= i < post.len() ==> is_ws(#[trigger] post[i]),
        t.len() > 0,
        !is_ws(t[0]),
        !is_ws(t.last()),
    ensures
        trim(pre + t + post) == t,
{
    let s = pre + t + post;
    let end = pre.len() as int + t.len();
    assert forall|i: int| end <= i < s.len() implies is_ws(#[trigger] s[i]) by {
        assert(s[i] == post[i - end]);
    }
    assert(s[end - 1] == t.last());
    lemma_trim_end_prefix(s, end);
    let head = s.subrange(0, end);
    assert(head[pre.len() as int] == t[0]);
    assert forall|i: int| 0 <= i < pre.len() implies is_ws(#[trigger] head[i]) by {
        assert(head[i] == pre[i]);
    }
    lemma_trim_start_suffix(head, pre.len() as int);
    assert(head.subrange(pre.len() as int, end) =~= t);
}

/// Index bounds of the trimmed part of `cs[from..to]`.
pub fn trim_range(cs: &[char], from: usize, to: usize) -> (r: (usize, usize))
    requires
        from <= to <= cs@.len(),
    ensures
        from <= r.0 <= r.1 <= to,
        cs@.subrange(r.0 as int, r.1 as int) == trim(cs@.subrange(from as int, to as int)),
        cs@.subrange(from as int, r.1 as int) == trim_end(cs@.subrange(from as int, to as int)),
{
    let ghost s = cs@.subrange(from as int, to as int);
    let mut end = to;
    while end > from && char_is_ws(cs[end - 1])
        invariant
            from <= end <= to <= cs@.len(),
            forall|i: int| end <= i < to ==> is_ws(#[trigger] cs@[i]),
        decreases end,
    {
        end -= 1;
    }
    proof {
        lemma_trim_end_prefix(s, end - from);
        assert(s.subrange(0, end - from) =~= cs@.subrange(from as int, end as int));
    }
    let mut start = from;
    while start < end && char_is_ws(cs[start])
        invariant
            from <= start <= end,
            end <= cs@.len(),
            forall|i: int| from <= i < start ==> is_ws(#[trigger] cs@[i]),
        decreases end - start,
    {
        start += 1;
    }
    proof {
        let t = cs@.subrange(from as int, end as int);
        lemma_trim_start_suffix(t, start - from);
        assert(t.subrange(start - from, t.len() as int) =~= cs@.subrange(start as int, end as int));
    }
    (start, end)
}

/// `s` without leading and trailing white space.
pub fn trim_str(s: &str) -> (r: &str)
    ensures
        r@ == trim(s@),
{
    let cs = chars_of(s);
    let (a, b) = trim_range(cs.as_slice(), 0, cs.len());
    proof {
        assert(cs@.subrange(0, cs@.len() as int) =~= cs@);
    }
    s.substring_char(a, b)
}

/// `s` without trailing white space.
pub fn trim_end_str(s: &str) -> (r: &str)
    ensures
        r@ == trim_end(s@),
{
    let cs = chars_of(s);
    let (a, b) = trim_range(cs.as_slice(), 0, cs.len());
    proof {
        assert(cs@.subrange(0, cs@.len() as int) =~= cs@);
    }
    s.substring_char(0, b)
}

/// Whether two character sequences are equal.
pub fn chars_eq(a: &[char], b: &[char]) -> (r: bool)
    ensures
        r == (a@ == b@),
{
    if a.len() != b.len() {
        return false;
    }
    let mut i: usize = 0;
    while i < a.len()
        invariant
            a@.len() == b@.len(),
            i <= a@.len(),
            forall|k: int| 0 <= k < i ==> a@[k] == b@[k],
        decreases a@.len() - i,
    {
        if a[i] != b[i] {
            return false;
        }
        i += 1;
    }
    proof {
        assert(a@ =~= b@);
    }
    true
}

/// Whether two strings hold the same characters.
pub fn str_eq(a: &str, b: &str) -> (r: bool)
    ensures
        r == (a@ == b@),
{
    let ca = chars_of(a);
    let cb = chars_of(b);
    chars_eq(ca.as_slice(), cb.as_slice())
}

pub proof fn lemma_decimal_value_push(s: Seq<char>, c: char)
    ensures
        decimal_value(s.push(c)) == decimal_value(s) * 10 + digit_value(c),
{
    assert(s.push(c).drop_last() =~= s);
}

/// The decimal value of the digits `cs[from..to]`, or `None` above `max`.
pub fn decimal_in_range(cs: &[char], from: usize, to: usize, max: u128) -> (r: Option<u128>)
    requires
        from <= to <= cs@.len(),
        all_digits(cs@.subrange(from as int, to as int)),
    ensures
        r == if decimal_value(cs@.subrange(from as int, to as int)) <= max {
            Some(decimal_value(cs@.subrange(from as int, to as int)) as u128)
        } else {
            None::<u128>
        },
{
    let mut value: u128 = 0;
    let mut i = from;
    while i < to
        invariant
            from <= i <= to <= cs@.len(),
            all_digits(cs@.subrange(from as int, to as int)),
            value == decimal_value(cs@.subrange(from as int, i as int)),
            value <= max,
        decreases to - i,
    {
        let c = cs[i];
        proof {
            assert(cs@.subrange(from as int, to as int)[i - from] == c);
            assert(cs@.subrange(from as int, i + 1) =~= cs@.subrange(from as int, i as int).push(c));
            lemma_decimal_value_push(cs@.subrange(from as int, i as int), c);
        }
        let d = (c as u32 - '0' as u32) as u128;
        if d > max || value > (max - d) / 10 {
            proof {
                lemma_decimal_monotone(cs@.subrange(from as int, to as int), i + 1 - from);
                assert(cs@.subrange(from as int, to as int).subrange(0, i + 1 - from) =~= cs@.subrange(
                    from as int,
                    i + 1,
                ));
                assert(value * 10 + d > max) by (nonlinear_arith)
                    requires
                        d > max || value > (max - d) / 10,
                        d <= 9,
                ;
            }
            return None;
        }
        proof {
            assert(value * 10 + d <= max) by (nonlinear_arith)
                requires
                    value <= (max - d) / 10,
                    d <= max,
            ;
        }
        value = value * 10 + d;
        i += 1;
    }
    Some(value)
}

/// A prefix of a digit string never has a larger value than the whole.
pub proof fn lemma_decimal_monotone(s: Seq<char>, k: int)
    requires
        0 <= k <= s.len(),
        all_digits(s),
    ensures
        decimal_value(s.subrange(0, k)) <= decimal_value(s),
    decreases s.len() - k,
{
    if k < s.len() {
        let t = s.subrange(0, k + 1);
        assert(t.drop_last() =~= s.subrange(0, k));
        lemma_decimal_monotone(s, k + 1);
        assert(decimal_value(t) == decimal_value(s.subrange(0, k)) * 10 + digit_value(t.last()));
    } else {
        assert(s.subrange(0, k) =~= s);
    }
}

/// Whether all characters of `cs[from..to]` are digits.
pub fn all_digits_in(cs: &[char], from: usize, to: usize) -> (r: bool)
    requires
        from <= to <= cs@.len(),
    ensures
        r == all_digits(cs@.subrange(from as int, to as int)),
{
    let mut i = from;
    while i < to
        invariant
            from <= i <= to <= cs@.len(),
            forall|k: int| from <= k < i ==> is_digit(#[trigger] cs@[k]),
        decreases to - i,
    {
        if !char_is_digit(cs[i]) {
            proof {
                assert(!is_digit(cs@.subrange(from as int, to as int)[i - from]));
            }
            return false;
        }
        i += 1;
    }
    proof {
        assert forall|k: int| 0 <= k < to - from implies is_digit(
            #[trigger] cs@.subrange(from as int, to as int)[k],
        ) by {
            assert(cs@.subrange(from as int, to as int)[k] == cs@[from + k]);
        }
    }
    true
}

/// `str::parse` for an unsigned integer whose largest value is `max`, over
/// the characters `cs[from..to]`.
pub fn parse_unsigned_in(cs: &[char], from: usize, to: usize, max: u128) -> (r: Option<u128>)
    requires
        from <= to <= cs@.len(),
    ensures
        r == match parse_unsigned(cs@.subrange(from as int, to as int), max as nat) {
            Some(v) => Some(v as u128),
            None => None::<u128>,
        },
{
    let ghost s = cs@.subrange(from as int, to as int);
    let mut start = from;
    if start < to && cs[start] == '+' {
        start += 1;
        proof {
            assert(s.drop_first() =~= cs@.subrange(start as int, to as int));
        }
    } else {
        proof {
            assert(s =~= cs@.subrange(start as int, to as int));
        }
    }
    if start == to {
        return None;
    }
    if !all_digits_in(cs, start, to) {
        return None;
    }
    decimal_in_range(cs, start, to, max)
}

/// `str::parse::<usize>` over a whole string.
pub fn parse_usize_str(s: &str) -> (r: Option<usize>)
    ensures
        r == match parse_unsigned(s@, usize::MAX as nat) {
            Some(v) => Some(v as usize),
            None => None::<usize>,
        },
{
    let cs = chars_of(s);
    proof {
        assert(cs@.subrange(0, cs@.len() as int) =~= cs@);
    }
    match parse_unsigned_in(cs.as_slice(), 0, cs.len(), usize::MAX as u128) {
        Some(v) => Some(v as usize),
        None => None,
    }
}

/// `str::parse::<u64>` over a whole string.
pub fn parse_u64_str(s: &str) -> (r: Option<u64>)
    ensures
        r == match parse_unsigned(s@, u64::MAX as nat) {
            Some(v) => Some(v as u64),
            None => None::<u64>,
        },
{
    let cs = chars_of(s);
    proof {
        assert(cs@.subrange(0, cs@.len() as int) =~= cs@);
    }
    match parse_unsigned_in(cs.as_slice(), 0, cs.len(), u64::MAX as u128) {
        Some(v) => Some(v as u64),
        None => None,
    }
}

/// `str::parse::<u32>` over a whole string.
pub fn parse_u32_str(s: &str) -> (r: Option<u32>)
    ensures
        r == match parse_unsigned(s@, u32::MAX as nat) {
            Some(v) => Some(v as u32),
            None => None::<u32>,
        },
{
    let cs = chars_of(s);
    proof {
        assert(cs@.subrange(0, cs@.len() as int) =~= cs@);
    }
    match parse_unsigned_in(cs.as_slice(), 0, cs.len(), u32::MAX as u128) {
        Some(v) => Some(v as u32),
        None => None,
    }
}

/// The decimal digits of `n`.
pub fn decimal_string(n: u64) -> (r: Vec<char>)
    ensures
        r@ == decimal_digits(n as nat),
    decreases n,
{
    if n < 10 {
        let c = ((n as u8) + 48u8) as char;
        let mut v = Vec::new();
        v.push(c);
        proof {
            assert(v@ =~= seq![digit_char(n as nat)]);
        }
        v
    } else {
        let mut v = decimal_string(n / 10);
        let c = (((n % 10) as u8) + 48u8) as char;
        v.push(c);
        v
    }
}

/// `n` in decimal, left-padded with zeros to `width` digits.
pub fn zero_padded_string(n: u64, width: usize) -> (r: Vec<char>)
    ensures
        r@ == zero_padded(n as nat, width as nat),
{
    let d = decimal_string(n);
    if d.len() >= width {
        return d;
    }
    let mut out: Vec<char> = Vec::new();
    let pad = width - d.len();
    let mut i: usize = 0;
    while i < pad
        invariant
            i <= pad,
            out@ == Seq::new(i as nat, |k: int| '0'),
        decreases pad - i,
    {
        out.push('0');
        proof {
            assert(out@ =~= Seq::new((i + 1) as nat, |k: int| '0'));
        }
        i += 1;
    }
    let mut j: usize = 0;
    while j < d.len()
        invariant
            j <= d@.len(),
            out@ == Seq::new(pad as nat, |k: int| '0') + d@.take(j as int),
        decreases d@.len() - j,
    {
        out.push(d[j]);
        proof {
            assert(d@.take(j + 1) =~= d@.take(j as int).push(d@[j as int]));
        }
        j += 1;
    }
    proof {
        assert(d@.take(j as int) =~= d@);
    }
    out
}

/// The lowest `width` hexadecimal digits of `n`, lowercase.
pub fn hex_string(n: u64, width: usize) -> (r: Vec<char>)
    ensures
        r@ == hex_digits(n as nat, width as nat),
    decreases width,
{
    if width == 0 {
        Vec::new()
    } else {
        let mut v = hex_string(n / 16, width - 1);
        let d = (n % 16) as u8;
        let c = if d < 10 {
            (d + 48u8) as char
        } else {
            (d - 10 + 97u8) as char
        };
        v.push(c);
        v
    }
}

} // verus!
