//! The scratch file that backs a streaming board: its fixed binary header
//! and the two-bits-per-cell row packing.
//!
//! The file is a 64-byte header (the magic `GOL-SCRATCH v1\n\0`, the schema
//! version as a little-endian `u32`, then the creation time, width, height
//! and row stride as little-endian `u64`s, then 12 zero bytes) followed by
//! `height` rows of `row_bytes` bytes each. A row holds 4 cells per byte,
//! the leftmost cell of a quad in the low bit pair, coded 0 dead, 1 alive,
//! 2 dying, 3 resurrecting.
//!
//! Opening, seeking, reading and writing the file is left to the caller;
//! this module says which bytes to read or write and what they mean.
use vstd::prelude::*;
use super::errors::PersistenceIoError;
use crate::board::CellState;
use crate::config::messages::push_decimal;
use crate::text::{decimal_digits, push_str};

verus! {

/// Errors raised while creating, opening or accessing a scratch file.
#[derive(Debug)]
pub enum ScratchFileError {
    Io(PersistenceIoError),
    AlreadyExists { path: String },
    BadMagic { path: String },
    UnsupportedSchemaVersion { path: String, version: u32 },
    InvalidHeader { path: String, detail: String },
    OutOfBounds { detail: String },
}

/// Schema version of the scratch layout.
pub const SCRATCH_SCHEMA_VERSION: u32 = 1;

/// Size of the fixed header, in bytes.
pub const HEADER_SIZE: u64 = 64;

/// `GOL-SCRATCH v1\n\0`, the first 16 bytes of every scratch file.
pub open spec fn magic_bytes() -> Seq<u8> {
    seq![71u8, 79, 76, 45, 83, 67, 82, 65, 84, 67, 72, 32, 118, 49, 10, 0]
}

/// The scratch magic, as bytes.
pub fn scratch_magic() -> (r: Vec<u8>)
    ensures
        r@ == magic_bytes(),
{
    let r: Vec<u8> = vec![71u8, 79, 76, 45, 83, 67, 82, 65, 84, 67, 72, 32, 118, 49, 10, 0];
    proof {
        assert(r@ =~= magic_bytes());
    }
    r
}

/// `n` as `k` little-endian bytes (higher bytes dropped).
pub open spec fn le_bytes(n: nat, k: nat) -> Seq<u8>
    decreases k,
{
    if k == 0 {
        Seq::empty()
    } else {
        seq![(n % 256) as u8] + le_bytes(n / 256, (k - 1) as nat)
    }
}

/// The number that little-endian bytes `s` stand for.
pub open spec fn le_value(s: Seq<u8>) -> nat
    decreases s.len(),
{
    if s.len() == 0 {
        0
    } else {
        s[0] as nat + 256 * le_value(s.drop_first())
    }
}

/// `256` to the power `k`.
pub open spec fn byte_power(k: nat) -> nat
    decreases k,
{
    if k == 0 {
        1
    } else {
        256 * byte_power((k - 1) as nat)
    }
}

/// Reading back `k` little-endian bytes gives the number they were made
/// from, when it has no more than `k` bytes.
pub proof fn lemma_le_round_trip(n: nat, k: nat)
    requires
        n < byte_power(k),
    ensures
        le_bytes(n, k).len() == k,
        le_value(le_bytes(n, k)) == n,
    decreases k,
{
    if k > 0 {
        let p = byte_power((k - 1) as nat);
        assert(n / 256 < p) by (nonlinear_arith)
            requires
                n < 256 * p,
        ;
        lemma_le_round_trip(n / 256, (k - 1) as nat);
        let s = le_bytes(n, k);
        assert(s.drop_first() =~= le_bytes(n / 256, (k - 1) as nat));
        assert(n == n % 256 + 256 * (n / 256)) by (nonlinear_arith);
    }
}

proof fn lemma_le_value_bound(s: Seq<u8>)
    ensures
        le_value(s) < byte_power(s.len()),
    decreases s.len(),
{
    if s.len() > 0 {
        lemma_le_value_bound(s.drop_first());
        let v = le_value(s.drop_first());
        let p = byte_power((s.len() - 1) as nat);
        assert(s[0] as nat + 256 * v < 256 * p) by (nonlinear_arith)
            requires
                v < p,
                s[0] < 256,
        ;
    }
}

proof fn lemma_byte_power_7()
    ensures
        byte_power(7) == 0x100_0000_0000_0000,
{
    reveal_with_fuel(byte_power, 8);
}

fn push_le(out: &mut Vec<u8>, n: u64, k: usize)
    ensures
        final(out)@ == old(out)@ + le_bytes(n as nat, k as nat),
    decreases k,
{
    if k > 0 {
        let ghost start = out@;
        out.push((n % 256) as u8);
        push_le(out, n / 256, k - 1);
        proof {
            assert(out@ =~= start + le_bytes(n as nat, k as nat));
        }
    }
}

fn read_le(s: &[u8], from: usize, k: usize) -> (r: u64)
    requires
        from + k <= s.len(),
        k <= 8,
    ensures
        r == le_value(s@.subrange(from as int, from + k)),
    decreases k,
{
    if k == 0 {
        0
    } else {
        let rest = read_le(s, from + 1, k - 1);
        proof {
            let tail = s@.subrange(from + 1, from + k);
            lemma_le_value_bound(tail);
            lemma_byte_power_7();
            if k - 1 < 7 {
                lemma_byte_power_monotone((k - 1) as nat, 7);
            }
            assert(s@.subrange(from as int, from + k).drop_first() =~= tail);
        }
        s[from] as u64 + 256 * rest
    }
}

proof fn lemma_byte_power_monotone(a: nat, b: nat)
    requires
        a <= b,
    ensures
        byte_power(a) <= byte_power(b),
    decreases b,
{
    if a < b {
        lemma_byte_power_monotone(a, (b - 1) as nat);
    }
}

/// Bytes per row for a board `width` cells wide: `ceil(width / 4)`.
pub open spec fn row_bytes_for(width: nat) -> nat {
    (width + 3) / 4
}

/// The header of a scratch file made at `created_at` for a `width` x
/// `height` board.
pub open spec fn header_spec(created_at: u64, width: u64, height: u64) -> Seq<u8> {
    magic_bytes() + le_bytes(SCRATCH_SCHEMA_VERSION as nat, 4) + le_bytes(created_at as nat, 8)
        + le_bytes(width as nat, 8) + le_bytes(height as nat, 8) + le_bytes(
        row_bytes_for(width as nat),
        8,
    ) + Seq::new(12, |i: int| 0u8)
}

/// What the header of a scratch file says about its board.
#[derive(Debug, Clone, Copy, PartialEq, Eq, Structural)]
pub struct ScratchLayout {
    pub width: u64,
    pub height: u64,
    pub row_bytes: u64,
}

impl ScratchLayout {
    /// A layout the file can hold: a non-empty board, the stride its width
    /// needs, and a size that fits in a `u64`.
    pub open spec fn wf(&self) -> bool {
        &&& self.width > 0
        &&& self.height > 0
        &&& self.row_bytes == row_bytes_for(self.width as nat)
        &&& HEADER_SIZE + self.height * self.row_bytes <= u64::MAX
    }

    /// The stride of a row: the bytes that hold `width` cells at two bits
    /// each.
    pub fn row_bytes_for_width(width: u64) -> (r: u64)
        ensures
            r == row_bytes_for(width as nat),
    {
        width / 4 + if width % 4 == 0 {
            0
        } else {
            1
        }
    }

    /// The size of a scratch file for a `width` x `height` board: the
    /// header and `height` rows.
    pub fn file_size_for(width: u64, height: u64) -> (r: u64)
        requires
            HEADER_SIZE + height * row_bytes_for(width as nat) <= u64::MAX,
        ensures
            r == HEADER_SIZE + height * row_bytes_for(width as nat),
    {
        let rb = Self::row_bytes_for_width(width);
        proof {
            assert(height * rb <= u64::MAX - HEADER_SIZE);
        }
        HEADER_SIZE + height * rb
    }

    /// The layout of a fresh scratch file for a `width` x `height` board.
    pub fn new(width: u64, height: u64) -> (r: Self)
        ensures
            r.width == width,
            r.height == height,
            r.row_bytes == row_bytes_for(width as nat),
    {
        ScratchLayout { width, height, row_bytes: Self::row_bytes_for_width(width) }
    }

    /// The header to write at the start of the file.
    pub fn header(&self, created_at: u64) -> (r: Vec<u8>)
        requires
            self.row_bytes == row_bytes_for(self.width as nat),
        ensures
            r@ == header_spec(created_at, self.width, self.height),
            r@.len() == HEADER_SIZE,
    {
        let mut out = scratch_magic();
        push_le(&mut out, SCRATCH_SCHEMA_VERSION as u64, 4);
        push_le(&mut out, created_at, 8);
        push_le(&mut out, self.width, 8);
        push_le(&mut out, self.height, 8);
        push_le(&mut out, self.row_bytes, 8);
        let mut i: usize = 0;
        while i < 12
            invariant
                i <= 12,
                out@ == magic_bytes() + le_bytes(SCRATCH_SCHEMA_VERSION as nat, 4) + le_bytes(
                    created_at as nat,
                    8,
                ) + le_bytes(self.width as nat, 8) + le_bytes(self.height as nat, 8) + le_bytes(
                    self.row_bytes as nat,
                    8,
                ) + Seq::new(i as nat, |j: int| 0u8),
            decreases 12 - i,
        {
            let ghost before = out@;
            out.push(0);
            i = i + 1;
            proof {
                assert(out@ =~= magic_bytes() + le_bytes(SCRATCH_SCHEMA_VERSION as nat, 4) + le_bytes(
                    created_at as nat,
                    8,
                ) + le_bytes(self.width as nat, 8) + le_bytes(self.height as nat, 8) + le_bytes(
                    self.row_bytes as nat,
                    8,
                ) + Seq::new(i as nat, |j: int| 0u8));
            }
        }
        proof {
            lemma_le_length(SCRATCH_SCHEMA_VERSION as nat, 4);
            lemma_le_length(created_at as nat, 8);
            lemma_le_length(self.width as nat, 8);
            lemma_le_length(self.height as nat, 8);
            lemma_le_length(self.row_bytes as nat, 8);
        }
        out
    }
}

proof fn lemma_le_length(n: nat, k: nat)
    ensures
        le_bytes(n, k).len() == k,
    decreases k,
{
    if k > 0 {
        lemma_le_length(n / 256, (k - 1) as nat);
    }
}

/// The message of a header whose width or height is zero.
pub open spec fn empty_board_detail(width: u64, height: u64) -> Seq<char> {
    "width "@ + decimal_digits(width as nat) + " and height "@ + decimal_digits(height as nat)
        + " must both be positive"@
}

/// The message of a header whose stride does not match its width.
pub open spec fn stride_detail(row_bytes: u64, expected: nat, width: u64) -> Seq<char> {
    "row_bytes "@ + decimal_digits(row_bytes as nat) + " does not match expected ceil(width*2/8) = "@
        + decimal_digits(expected) + " for width "@ + decimal_digits(width as nat)
}

/// The outcome of checking the first 16 bytes read from a file at `path`.
pub open spec fn magic_checked(r: Result<(), ScratchFileError>, magic: Seq<u8>, path: Seq<char>) -> bool {
    if magic == magic_bytes() {
        r is Ok
    } else {
        r matches Err(ScratchFileError::BadMagic { path: p }) && p@ == path
    }
}

/// Checks the first 16 bytes of a scratch file (fewer if the file is
/// shorter).
pub fn check_scratch_magic(magic: &[u8], path: &str) -> (r: Result<(), ScratchFileError>)
    ensures
        magic_checked(r, magic@, path@),
{
    let expected = scratch_magic();
    if magic.len() != 16 {
        return Err(ScratchFileError::BadMagic { path: path.to_string() });
    }
    let mut i: usize = 0;
    while i < 16
        invariant
            i <= 16,
            magic@.len() == 16,
            expected@ == magic_bytes(),
            forall|j: int| 0 <= j < i ==> magic@[j] == magic_bytes()[j],
        decreases 16 - i,
    {
        if magic[i] != expected[i] {
            return Err(ScratchFileError::BadMagic { path: path.to_string() });
        }
        i = i + 1;
    }
    proof {
        assert(magic@ =~= magic_bytes());
    }
    Ok(())
}

/// The layout that the 48 header bytes after the magic describe, or why
/// they describe none.
pub open spec fn header_rest_result(r: Result<ScratchLayout, ScratchFileError>, rest: Seq<u8>, path: Seq<char>) -> bool {
    let version = le_value(rest.subrange(0, 4));
    let width = le_value(rest.subrange(12, 20));
    let height = le_value(rest.subrange(20, 28));
    let row_bytes = le_value(rest.subrange(28, 36));
    if version != SCRATCH_SCHEMA_VERSION {
        r matches Err(ScratchFileError::UnsupportedSchemaVersion { path: p, version: v }) && p@ == path
            && v == version
    } else if width == 0 || height == 0 {
        r matches Err(ScratchFileError::InvalidHeader { path: p, detail }) && p@ == path && detail@
            == empty_board_detail(width as u64, height as u64)
    } else if row_bytes != row_bytes_for(width) {
        r matches Err(ScratchFileError::InvalidHeader { path: p, detail }) && p@ == path && detail@
            == stride_detail(row_bytes as u64, row_bytes_for(width), width as u64)
    } else {
        r == Ok::<ScratchLayout, ScratchFileError>(
            ScratchLayout { width: width as u64, height: height as u64, row_bytes: row_bytes as u64 },
        )
    }
}

fn push_u64(s: &mut String, n: u64)
    ensures
        final(s)@ == old(s)@ + decimal_digits(n as nat),
{
    push_decimal(s, n);
}

/// Reads the 48 header bytes that follow the magic of a file at `path`.
pub fn parse_scratch_header_rest(rest: &[u8], path: &str) -> (r: Result<ScratchLayout, ScratchFileError>)
    requires
        rest@.len() == 48,
    ensures
        header_rest_result(r, rest@, path@),
{
    let version = read_le(rest, 0, 4);
    let width = read_le(rest, 12, 8);
    let height = read_le(rest, 20, 8);
    let row_bytes = read_le(rest, 28, 8);
    proof {
        lemma_le_value_bound(rest@.subrange(0, 4));
        reveal_with_fuel(byte_power, 5);
    }
    if version != SCRATCH_SCHEMA_VERSION as u64 {
        return Err(ScratchFileError::UnsupportedSchemaVersion { path: path.to_string(), version: version as u32 });
    }
    if width == 0 || height == 0 {
        let mut detail = String::new();
        push_str(&mut detail, "width ");
        push_u64(&mut detail, width);
        push_str(&mut detail, " and height ");
        push_u64(&mut detail, height);
        push_str(&mut detail, " must both be positive");
        proof {
            assert(detail@ =~= empty_board_detail(width, height));
        }
        return Err(ScratchFileError::InvalidHeader { path: path.to_string(), detail });
    }
    let expected = ScratchLayout::row_bytes_for_width(width);
    if row_bytes != expected {
        let mut detail = String::new();
        push_str(&mut detail, "row_bytes ");
        push_u64(&mut detail, row_bytes);
        push_str(&mut detail, " does not match expected ceil(width*2/8) = ");
        push_u64(&mut detail, expected);
        push_str(&mut detail, " for width ");
        push_u64(&mut detail, width);
        proof {
            assert(detail@ =~= stride_detail(row_bytes, row_bytes_for(width as nat), width));
        }
        return Err(ScratchFileError::InvalidHeader { path: path.to_string(), detail });
    }
    Ok(ScratchLayout { width, height, row_bytes })
}

/// A header written for a board reads back as that board's layout: its
/// magic is accepted and the rest gives the width, height and stride it
/// was written with.
pub proof fn lemma_header_round_trip(
    created_at: u64,
    width: u64,
    height: u64,
    path: Seq<char>,
    r: Result<ScratchLayout, ScratchFileError>,
)
    requires
        width > 0,
        height > 0,
        header_rest_result(r, header_spec(created_at, width, height).subrange(16, 64), path),
    ensures
        header_spec(created_at, width, height).len() == HEADER_SIZE,
        header_spec(created_at, width, height).subrange(0, 16) == magic_bytes(),
        r == Ok::<ScratchLayout, ScratchFileError>(
            ScratchLayout { width, height, row_bytes: row_bytes_for(width as nat) as u64 },
        ),
{
    let v = le_bytes(SCRATCH_SCHEMA_VERSION as nat, 4);
    let t = le_bytes(created_at as nat, 8);
    let w = le_bytes(width as nat, 8);
    let h = le_bytes(height as nat, 8);
    let rb = row_bytes_for(width as nat);
    let b = le_bytes(rb, 8);
    lemma_le_length(SCRATCH_SCHEMA_VERSION as nat, 4);
    lemma_le_length(created_at as nat, 8);
    lemma_le_length(width as nat, 8);
    lemma_le_length(height as nat, 8);
    lemma_le_length(rb, 8);
    reveal_with_fuel(byte_power, 9);
    assert(byte_power(8) == 0x1_0000_0000_0000_0000);
    lemma_le_round_trip(SCRATCH_SCHEMA_VERSION as nat, 4);
    lemma_le_round_trip(width as nat, 8);
    lemma_le_round_trip(height as nat, 8);
    lemma_le_round_trip(rb, 8);
    let hs = header_spec(created_at, width, height);
    let rest = hs.subrange(16, 64);
    assert(hs.subrange(0, 16) =~= magic_bytes());
    assert(rest.subrange(0, 4) =~= v);
    assert(rest.subrange(12, 20) =~= w);
    assert(rest.subrange(20, 28) =~= h);
    assert(rest.subrange(28, 36) =~= b);
}

/// The first byte of a row, and the byte past its last, that hold any
/// bit of the cells `cstart..cend`.
pub open spec fn byte_range_spec(cstart: nat, cend: nat) -> (nat, nat) {
    (cstart / 4, (cend + 3) / 4)
}

pub fn byte_range_for_cells(cstart: u64, cend: u64) -> (r: (u64, u64))
    ensures
        r.0 == byte_range_spec(cstart as nat, cend as nat).0,
        r.1 == byte_range_spec(cstart as nat, cend as nat).1,
{
    (cstart / 4, cend / 4 + if cend % 4 == 0 {
        0
    } else {
        1
    })
}

/// Why the cells `cstart..cend` of row `y` are not all in a `width` x
/// `height` file, if they are not.
pub open spec fn row_range_refusal(width: u64, height: u64, y: u64, cstart: u64, cend: u64) -> Option<Seq<char>> {
    if y >= height {
        Some("row "@ + decimal_digits(y as nat) + " >= height "@ + decimal_digits(height as nat))
    } else if cend > width {
        Some("cend "@ + decimal_digits(cend as nat) + " > width "@ + decimal_digits(width as nat))
    } else if cstart > cend {
        Some("cstart "@ + decimal_digits(cstart as nat) + " > cend "@ + decimal_digits(cend as nat))
    } else {
        None
    }
}

impl ScratchLayout {
    /// Checks that the cells `cstart..cend` of row `y` lie in the file.
    pub fn validate_row_range(&self, y: u64, cstart: u64, cend: u64) -> (r: Result<(), ScratchFileError>)
        ensures
            match row_range_refusal(self.width, self.height, y, cstart, cend) {
                None => r is Ok,
                Some(d) => r matches Err(ScratchFileError::OutOfBounds { detail }) && detail@ == d,
            },
    {
        let mut detail = String::new();
        if y >= self.height {
            push_str(&mut detail, "row ");
            push_u64(&mut detail, y);
            push_str(&mut detail, " >= height ");
            push_u64(&mut detail, self.height);
        } else if cend > self.width {
            push_str(&mut detail, "cend ");
            push_u64(&mut detail, cend);
            push_str(&mut detail, " > width ");
            push_u64(&mut detail, self.width);
        } else if cstart > cend {
            push_str(&mut detail, "cstart ");
            push_u64(&mut detail, cstart);
            push_str(&mut detail, " > cend ");
            push_u64(&mut detail, cend);
        } else {
            return Ok(());
        }
        proof {
            assert(detail@ =~= row_range_refusal(self.width, self.height, y, cstart, cend).unwrap());
        }
        Err(ScratchFileError::OutOfBounds { detail })
    }

    /// Where the bytes holding the cells `cstart..cend` of row `y` lie:
    /// their offset in the file, how many there are, and the position of
    /// cell `cstart` among the cells those bytes hold.
    pub fn row_span(&self, y: u64, cstart: u64, cend: u64) -> (r: (u64, u64, u64))
        requires
            self.wf(),
            row_range_refusal(self.width, self.height, y, cstart, cend) is None,
        ensures
            r.0 == HEADER_SIZE + y * self.row_bytes + byte_range_spec(cstart as nat, cend as nat).0,
            r.1 == byte_range_spec(cstart as nat, cend as nat).1 - byte_range_spec(
                cstart as nat,
                cend as nat,
            ).0,
            r.2 == cstart % 4,
            r.0 + r.1 <= HEADER_SIZE + self.height * self.row_bytes,
    {
        let (start, end) = byte_range_for_cells(cstart, cend);
        proof {
            assert(end <= self.row_bytes);
            assert(y * self.row_bytes + self.row_bytes <= self.height * self.row_bytes) by (nonlinear_arith)
                requires
                    y < self.height,
            ;
        }
        let row_offset = HEADER_SIZE + y * self.row_bytes;
        (row_offset + start, end - start, cstart % 4)
    }
}

/// The two-bit code of a cell.
pub open spec fn cell_code(c: CellState) -> u8 {
    match c {
        CellState::Dead => 0,
        CellState::Alive => 1,
        CellState::Dying => 2,
        CellState::Resurrecting => 3,
    }
}

/// The cell a two-bit code stands for (only the low two bits count).
pub open spec fn code_cell(bits: u8) -> CellState {
    let b = bits & 3;
    if b == 0 {
        CellState::Dead
    } else if b == 1 {
        CellState::Alive
    } else if b == 2 {
        CellState::Dying
    } else {
        CellState::Resurrecting
    }
}

pub fn encode_cell(state: CellState) -> (r: u8)
    ensures
        r == cell_code(state),
        r < 4,
{
    match state {
        CellState::Dead => 0,
        CellState::Alive => 1,
        CellState::Dying => 2,
        CellState::Resurrecting => 3,
    }
}

pub fn decode_cell(bits: u8) -> (r: CellState)
    ensures
        r == code_cell(bits),
{
    let b = bits & 3;
    if b == 0 {
        CellState::Dead
    } else if b == 1 {
        CellState::Alive
    } else if b == 2 {
        CellState::Dying
    } else {
        CellState::Resurrecting
    }
}

/// A cell reads back as itself through its code.
pub proof fn lemma_code_round_trip(c: CellState)
    ensures
        code_cell(cell_code(c)) == c,
{
    assert(0u8 & 3 == 0) by (bit_vector);
    assert(1u8 & 3 == 1) by (bit_vector);
    assert(2u8 & 3 == 2) by (bit_vector);
    assert(3u8 & 3 == 3) by (bit_vector);
}

/// The two bits of cell `k` of packed bytes `buf`.
pub open spec fn bits_at(buf: Seq<u8>, k: int) -> u8 {
    (buf[k / 4] >> (2 * (k % 4)) as u8) & 3
}

/// The cell `k` of packed bytes `buf`.
pub open spec fn packed_cell(buf: Seq<u8>, k: int) -> CellState {
    code_cell(bits_at(buf, k))
}

/// The `count` cells held in `buf` from position `first` on, as a
/// scratch row read gives them.
pub fn unpack_cells(buf: &[u8], first: usize, count: usize) -> (r: Vec<CellState>)
    requires
        first + count <= 4 * buf@.len(),
        first + count <= usize::MAX,
    ensures
        r@.len() == count,
        forall|i: int| 0 <= i < count ==> r@[i] == packed_cell(buf@, first + i),
{
    let mut out: Vec<CellState> = Vec::new();
    let mut i: usize = 0;
    while i < count
        invariant
            i <= count,
            first + count <= 4 * buf@.len(),
            first + count <= usize::MAX,
            out@.len() == i,
            forall|j: int| 0 <= j < i ==> out@[j] == packed_cell(buf@, first + j),
        decreases count - i,
    {
        let k = first + i;
        let byte = buf[k / 4];
        let shift = ((k % 4) * 2) as u8;
        out.push(decode_cell((byte >> shift) & 3));
        i = i + 1;
    }
    out
}

proof fn lemma_replace_pair(b: u8, c: u8, s: u8, t: u8)
    requires
        c < 4,
        s == 0 || s == 2 || s == 4 || s == 6,
        t == 0 || t == 2 || t == 4 || t == 6,
    ensures
        (((b & !(3u8 << s)) | (c << s)) >> t) & 3 == if t == s {
            c
        } else {
            (b >> t) & 3
        },
{
    assert((((b & !(3u8 << s)) | (c << s)) >> t) & 3 == if t == s {
        c
    } else {
        (b >> t) & 3
    }) by (bit_vector)
        requires
            c < 4,
            s == 0 || s == 2 || s == 4 || s == 6,
            t == 0 || t == 2 || t == 4 || t == 6,
    ;
}

/// Writes `cells` into packed bytes `buf` from position `first` on,
/// keeping the bits of every other cell: the read-modify-write of a
/// scratch row write.
pub fn pack_cells(buf: &mut Vec<u8>, first: usize, cells: &[CellState])
    requires
        first + cells@.len() <= 4 * old(buf)@.len(),
        first + cells@.len() <= usize::MAX,
    ensures
        final(buf)@.len() == old(buf)@.len(),
        forall|k: int|
            0 <= k < 4 * old(buf)@.len() ==> #[trigger] bits_at(final(buf)@, k) == if first <= k < first
                + cells@.len() {
                cell_code(cells@[k - first])
            } else {
                bits_at(old(buf)@, k)
            },
{
    let ghost start = buf@;
    let mut i: usize = 0;
    while i < cells.len()
        invariant
            i <= cells@.len(),
            first + cells@.len() <= 4 * start.len(),
            first + cells@.len() <= usize::MAX,
            buf@.len() == start.len(),
            forall|k: int|
                0 <= k < 4 * start.len() ==> #[trigger] bits_at(buf@, k) == if first <= k < first + i {
                    cell_code(cells@[k - first])
                } else {
                    bits_at(start, k)
                },
        decreases cells@.len() - i,
    {
        let k = first + i;
        let byte_idx = k / 4;
        let shift = ((k % 4) * 2) as u8;
        let code = encode_cell(cells[i]);
        let ghost before = buf@;
        let old_byte = buf[byte_idx];
        let mask: u8 = !(3u8 << shift);
        let new_byte = (old_byte & mask) | (code << shift);
        buf.set(byte_idx, new_byte);
        proof {
            assert forall|m: int| 0 <= m < 4 * start.len() implies #[trigger] bits_at(buf@, m) == if first
                <= m < first + i + 1 {
                cell_code(cells@[m - first])
            } else {
                bits_at(start, m)
            } by {
                let prev = bits_at(before, m);
                if m / 4 == byte_idx {
                    let t = (2 * (m % 4)) as u8;
                    lemma_replace_pair(old_byte, code, shift, t);
                    if m == k {
                    } else {
                        assert(t != shift);
                    }
                } else {
                    assert(buf@[m / 4] == before[m / 4]);
                }
            }
        }
        i = i + 1;
    }
}

/// What a row write puts into the bytes is what a row read takes out of
/// them: unpacking the written range gives the written cells.
pub proof fn lemma_pack_unpack(before: Seq<u8>, after: Seq<u8>, first: int, cells: Seq<CellState>)
    requires
        0 <= first,
        first + cells.len() <= 4 * before.len(),
        after.len() == before.len(),
        forall|k: int|
            0 <= k < 4 * before.len() ==> #[trigger] bits_at(after, k) == if first <= k < first + cells.len() {
                cell_code(cells[k - first])
            } else {
                bits_at(before, k)
            },
    ensures
        forall|i: int| 0 <= i < cells.len() ==> #[trigger] packed_cell(after, first + i) == cells[i],
{
    assert forall|i: int| 0 <= i < cells.len() implies #[trigger] packed_cell(after, first + i) == cells[i] by {
        assert(bits_at(after, first + i) == cell_code(cells[i]));
        lemma_code_round_trip(cells[i]);
    }
}

pub open spec fn scratch_error_text(e: ScratchFileError) -> Seq<char> {
    match e {
        ScratchFileError::Io(x) => crate::persistence::messages::io_error_prefix(x),
        ScratchFileError::AlreadyExists { path } => "Refusing to overwrite existing scratch file '"@ + path@
            + "'."@,
        ScratchFileError::BadMagic { path } => "Scratch file '"@ + path@
            + "' does not begin with the expected magic header."@,
        ScratchFileError::UnsupportedSchemaVersion { path, version } => "Scratch file '"@ + path@
            + "' has unsupported schema version "@ + decimal_digits(version as nat)
            + "; this tool supports version "@ + decimal_digits(SCRATCH_SCHEMA_VERSION as nat) + "."@,
        ScratchFileError::InvalidHeader { path, detail } => "Scratch file '"@ + path@
            + "' has an invalid header: "@ + detail@ + "."@,
        ScratchFileError::OutOfBounds { detail } => "Scratch file row-range access out of bounds: "@
            + detail@ + "."@,
    }
}

impl ScratchFileError {
    /// The error as the user sees it; an I/O error is followed by the
    /// system's description.
    pub fn message(&self) -> (r: String)
        ensures
            crate::persistence::messages::describes(
                r@,
                scratch_error_text(*self),
                !(self is Io),
            ),
    {
        let mut s = String::new();
        match self {
            ScratchFileError::Io(e) => {
                return e.message();
            },
            ScratchFileError::AlreadyExists { path } => {
                push_str(&mut s, "Refusing to overwrite existing scratch file '");
                push_str(&mut s, path.as_str());
                push_str(&mut s, "'.");
            },
            ScratchFileError::BadMagic { path } => {
                push_str(&mut s, "Scratch file '");
                push_str(&mut s, path.as_str());
                push_str(&mut s, "' does not begin with the expected magic header.");
            },
            ScratchFileError::UnsupportedSchemaVersion { path, version } => {
                push_str(&mut s, "Scratch file '");
                push_str(&mut s, path.as_str());
                push_str(&mut s, "' has unsupported schema version ");
                push_u64(&mut s, *version as u64);
                push_str(&mut s, "; this tool supports version ");
                push_u64(&mut s, SCRATCH_SCHEMA_VERSION as u64);
                push_str(&mut s, ".");
            },
            ScratchFileError::InvalidHeader { path, detail } => {
                push_str(&mut s, "Scratch file '");
                push_str(&mut s, path.as_str());
                push_str(&mut s, "' has an invalid header: ");
                push_str(&mut s, detail.as_str());
                push_str(&mut s, ".");
            },
            ScratchFileError::OutOfBounds { detail } => {
                push_str(&mut s, "Scratch file row-range access out of bounds: ");
                push_str(&mut s, detail.as_str());
                push_str(&mut s, ".");
            },
        }
        proof {
            assert(s@ =~= scratch_error_text(*self));
        }
        s
    }
}

} // verus!
