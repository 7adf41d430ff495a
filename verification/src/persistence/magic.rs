//! File-type identification by the magic text on a file's first line:
//! `GOL-RUN-RECORD v1|v2` for a run record, `GOL-BOARD-SNAPSHOT v1` for a
//! board snapshot. Only the first `MAX_MAGIC_PEEK_BYTES` bytes are looked at.
use vstd::prelude::*;

use vstd::utf8::{decode_utf8, valid_utf8};

use crate::persistence::errors::PersistenceIoError;
use crate::persistence::limits::MAX_MAGIC_PEEK_BYTES;
use crate::text::{decimal_digits, decimal_string, push_chars, push_str, str_eq, trim, trim_str};

verus! {

pub const RUN_RECORD_SCHEMA_VERSION: u32 = 2;

pub const BOARD_SNAPSHOT_SCHEMA_VERSION: u32 = 1;

pub const RUN_RECORD_MAGIC_V1: &'static str = "GOL-RUN-RECORD v1";

pub const RUN_RECORD_MAGIC_V2: &'static str = "GOL-RUN-RECORD v2";

pub const RUN_RECORD_MAGIC: &'static str = "GOL-RUN-RECORD v2";

pub const BOARD_SNAPSHOT_MAGIC: &'static str = "GOL-BOARD-SNAPSHOT v1";

/// The schema version of the current formats.
pub const SCHEMA_VERSION: u32 = 1;

#[derive(Debug, Clone, Copy, PartialEq, Eq, Structural)]
pub enum RunRecordVersion {
    V1,
    V2,
}

impl RunRecordVersion {
    pub fn magic(self) -> (r: &'static str)
        ensures
            r@ == (match self {
                RunRecordVersion::V1 => RUN_RECORD_MAGIC_V1@,
                RunRecordVersion::V2 => RUN_RECORD_MAGIC_V2@,
            }),
    {
        match self {
            RunRecordVersion::V1 => RUN_RECORD_MAGIC_V1,
            RunRecordVersion::V2 => RUN_RECORD_MAGIC_V2,
        }
    }

    pub fn schema_version(self) -> (r: u32)
        ensures
            r == (match self {
                RunRecordVersion::V1 => 1u32,
                RunRecordVersion::V2 => RUN_RECORD_SCHEMA_VERSION,
            }),
    {
        match self {
            RunRecordVersion::V1 => 1,
            RunRecordVersion::V2 => RUN_RECORD_SCHEMA_VERSION,
        }
    }
}

/// The two kinds of persistence file.
#[derive(Debug, Clone, Copy, PartialEq, Eq, Structural)]
pub enum FileKind {
    RunRecord,
    BoardSnapshot,
}

impl FileKind {
    pub fn magic(self) -> (r: &'static str)
        ensures
            r@ == (match self {
                FileKind::RunRecord => RUN_RECORD_MAGIC@,
                FileKind::BoardSnapshot => BOARD_SNAPSHOT_MAGIC@,
            }),
    {
        match self {
            FileKind::RunRecord => RUN_RECORD_MAGIC,
            FileKind::BoardSnapshot => BOARD_SNAPSHOT_MAGIC,
        }
    }

    pub fn display_name(self) -> (r: &'static str)
        ensures
            r@ == (match self {
                FileKind::RunRecord => "run record"@,
                FileKind::BoardSnapshot => "board snapshot"@,
            }),
    {
        match self {
            FileKind::RunRecord => "run record",
            FileKind::BoardSnapshot => "board snapshot",
        }
    }
}

/// Why a file's kind could not be identified.
#[derive(Debug)]
pub enum MagicError {
    Io(PersistenceIoError),
    EmptyFile { path: String },
    UnknownMagic { path: String, found: String },
    /// No newline within the first `MAX_MAGIC_PEEK_BYTES` bytes.
    OversizedFirstLine { path: String, scanned_bytes: usize },
}

impl MagicError {
    /// The path of the file the error is about.
    pub fn path(&self) -> (r: &str)
        ensures
            r@ == (match self {
                MagicError::Io(e) => e.path@,
                MagicError::EmptyFile { path } => path@,
                MagicError::UnknownMagic { path, .. } => path@,
                MagicError::OversizedFirstLine { path, .. } => path@,
            }),
    {
        match self {
            MagicError::Io(e) => e.path.as_str(),
            MagicError::EmptyFile { path } => path.as_str(),
            MagicError::UnknownMagic { path, .. } => path.as_str(),
            MagicError::OversizedFirstLine { path, .. } => path.as_str(),
        }
    }
}

/// `std::str::from_utf8`: the text of `bytes` if they are valid UTF-8.
#[verifier::external_body]
fn utf8_text(bytes: &[u8]) -> (r: Option<&str>)
    ensures
        match r {
            Some(s) => valid_utf8(bytes@) && s@ == decode_utf8(bytes@),
            None => !valid_utf8(bytes@),
        },
{
    std::str::from_utf8(bytes).ok()
}

/// The bytes looked at: at most the first `MAX_MAGIC_PEEK_BYTES`.
pub open spec fn peek_of(b: Seq<u8>) -> Seq<u8> {
    if b.len() <= MAX_MAGIC_PEEK_BYTES {
        b
    } else {
        b.take(MAX_MAGIC_PEEK_BYTES as int)
    }
}

/// Index of the first byte `x` in `b`.
pub open spec fn byte_index_of(b: Seq<u8>, x: u8) -> Option<int>
    decreases b.len(),
{
    if b.len() == 0 {
        None
    } else if b[0] == x {
        Some(0)
    } else {
        match byte_index_of(b.drop_first(), x) {
            Some(i) => Some(i + 1),
            None => None,
        }
    }
}

pub open spec fn strip_cr_bytes(b: Seq<u8>) -> Seq<u8> {
    if b.len() > 0 && b.last() == 13 {
        b.drop_last()
    } else {
        b
    }
}

/// The first line of the peeked bytes without its line ending, or `None`
/// when all of them were looked at without finding a newline.
pub open spec fn magic_line(b: Seq<u8>) -> Option<Seq<u8>> {
    let p = peek_of(b);
    match byte_index_of(p, 10) {
        Some(e) => Some(strip_cr_bytes(p.take(e))),
        None => if p.len() < MAX_MAGIC_PEEK_BYTES {
            Some(strip_cr_bytes(p))
        } else {
            None
        },
    }
}

/// The text reported for a first line that is not UTF-8.
pub open spec fn non_utf8_text(n: nat) -> Seq<char> {
    seq!['<'] + decimal_digits(n) + " non-UTF-8 bytes>"@
}

/// The text of the magic line of a file whose first bytes are `b`, if it
/// can be read.
pub open spec fn magic_text(b: Seq<u8>) -> Option<Seq<char>> {
    if peek_of(b).len() == 0 {
        None
    } else {
        match magic_line(b) {
            Some(l) => if valid_utf8(l) {
                Some(decode_utf8(l))
            } else {
                None
            },
            None => None,
        }
    }
}

/// The error reported when the magic line cannot be read.
pub open spec fn magic_line_error(e: MagicError, path: Seq<char>, b: Seq<u8>) -> bool {
    if peek_of(b).len() == 0 {
        e matches MagicError::EmptyFile { path: p } && p@ == path
    } else {
        match magic_line(b) {
            None => e matches MagicError::OversizedFirstLine { path: p, scanned_bytes } && p@ == path
                && scanned_bytes == MAX_MAGIC_PEEK_BYTES,
            Some(l) => e matches MagicError::UnknownMagic { path: p, found } && p@ == path && found@
                == non_utf8_text(l.len()),
        }
    }
}

/// The run-record version a magic line names.
pub open spec fn version_of_magic(t: Seq<char>) -> Option<RunRecordVersion> {
    if t == RUN_RECORD_MAGIC_V1@ {
        Some(RunRecordVersion::V1)
    } else if t == RUN_RECORD_MAGIC_V2@ {
        Some(RunRecordVersion::V2)
    } else {
        None
    }
}

pub proof fn lemma_byte_index_of(b: Seq<u8>, x: u8)
    ensures
        match byte_index_of(b, x) {
            Some(i) => 0 <= i < b.len() && b[i] == x && forall|j: int| 0 <= j < i ==> b[j] != x,
            None => forall|j: int| 0 <= j < b.len() ==> b[j] != x,
        },
    decreases b.len(),
{
    if b.len() > 0 {
        lemma_byte_index_of(b.drop_first(), x);
        if b[0] != x {
            assert forall|j: int| 0 < j < b.len() implies b[j] == b.drop_first()[j - 1] by {}
        }
    }
}

fn first_newline(p: &[u8], n: usize) -> (r: Option<usize>)
    requires
        n <= p@.len(),
    ensures
        match byte_index_of(p@.take(n as int), 10) {
            Some(e) => r == Some(e as usize),
            None => r is None,
        },
        r matches Some(e) ==> e < n,
{
    proof {
        lemma_byte_index_of(p@.take(n as int), 10);
        assert forall|j: int| 0 <= j < n implies p@.take(n as int)[j] == p@[j] by {}
    }
    let mut i: usize = 0;
    while i < n
        invariant
            i <= n <= p@.len(),
            forall|j: int| 0 <= j < i ==> p@[j] != 10,
            match byte_index_of(p@.take(n as int), 10) {
                Some(e) => 0 <= e < n && p@[e] == 10 && forall|j: int| 0 <= j < e ==> p@[j] != 10,
                None => forall|j: int| 0 <= j < n ==> p@[j] != 10,
            },
        decreases n - i,
    {
        if p[i] == 10 {
            return Some(i);
        }
        i += 1;
    }
    None
}

/// Reads the first line of a file whose first bytes are `bytes`.
pub fn read_magic_line(path: &str, bytes: &[u8]) -> (r: Result<String, MagicError>)
    ensures
        match magic_text(bytes@) {
            Some(t) => r matches Ok(s) && s@ == t,
            None => r matches Err(e) && magic_line_error(e, path@, bytes@),
        },
{
    let filled = if bytes.len() <= MAX_MAGIC_PEEK_BYTES {
        bytes.len()
    } else {
        MAX_MAGIC_PEEK_BYTES
    };
    proof {
        assert(peek_of(bytes@) =~= bytes@.take(filled as int));
    }
    if filled == 0 {
        return Err(MagicError::EmptyFile { path: path.to_owned() });
    }
    let nl = first_newline(bytes, filled);
    let mut end = match nl {
        Some(e) => e,
        None => {
            if filled < MAX_MAGIC_PEEK_BYTES {
                filled
            } else {
                return Err(
                    MagicError::OversizedFirstLine {
                        path: path.to_owned(),
                        scanned_bytes: MAX_MAGIC_PEEK_BYTES,
                    },
                );
            }
        },
    };
    let ghost unstripped = bytes@.take(end as int);
    proof {
        assert(peek_of(bytes@).take(end as int) =~= unstripped);
    }
    proof {
        let pk = peek_of(bytes@);
        assert(pk == bytes@.take(filled as int));
        lemma_byte_index_of(pk, 10);
        match nl {
            Some(e) => {
                assert(byte_index_of(pk, 10) == Some(e as int));
                assert(pk.take(e as int) =~= unstripped);
            },
            None => {
                assert(byte_index_of(pk, 10) is None);
                assert(pk =~= unstripped);
            },
        }
        assert(magic_line(bytes@) == Some(strip_cr_bytes(unstripped)));
    }
    if end > 0 && bytes[end - 1] == 13 {
        end = end - 1;
        proof {
            assert(strip_cr_bytes(unstripped) =~= bytes@.take(end as int));
        }
    } else {
        proof {
            assert(strip_cr_bytes(unstripped) =~= bytes@.take(end as int));
        }
    }
    let line = slice_prefix(bytes, end);
    match utf8_text(line.as_slice()) {
        Some(s) => Ok(s.to_owned()),
        None => {
            let mut found = String::new();
            push_str(&mut found, "<");
            push_chars(&mut found, decimal_string(end as u64).as_slice());
            push_str(&mut found, " non-UTF-8 bytes>");
            proof {
                reveal_strlit("<");
                assert(found@ =~= non_utf8_text(end as nat));
            }
            Err(MagicError::UnknownMagic { path: path.to_owned(), found })
        },
    }
}

/// The first `n` bytes of `b`.
fn slice_prefix(b: &[u8], n: usize) -> (r: Vec<u8>)
    requires
        n <= b@.len(),
    ensures
        r@ == b@.take(n as int),
{
    let mut out: Vec<u8> = Vec::new();
    let mut i: usize = 0;
    while i < n
        invariant
            i <= n <= b@.len(),
            out@ == b@.take(i as int),
        decreases n - i,
    {
        out.push(b[i]);
        proof {
            assert(b@.take(i + 1) =~= b@.take(i as int).push(b@[i as int]));
        }
        i += 1;
    }
    out
}

/// The run-record version named by a (trimmed) magic line.
pub fn run_record_version_from_magic(line: &str) -> (r: Option<RunRecordVersion>)
    ensures
        r == version_of_magic(line@),
{
    if str_eq(line, RUN_RECORD_MAGIC_V1) {
        Some(RunRecordVersion::V1)
    } else if str_eq(line, RUN_RECORD_MAGIC_V2) {
        Some(RunRecordVersion::V2)
    } else {
        None
    }
}

/// The kind of file whose first bytes are `bytes`.
pub fn sniff_from_reader(path: &str, bytes: &[u8]) -> (r: Result<FileKind, MagicError>)
    ensures
        match magic_text(bytes@) {
            Some(line) => {
                let t = trim(line);
                if version_of_magic(t) is Some {
                    r == Ok::<FileKind, MagicError>(FileKind::RunRecord)
                } else if t == BOARD_SNAPSHOT_MAGIC@ {
                    r == Ok::<FileKind, MagicError>(FileKind::BoardSnapshot)
                } else if t.len() == 0 {
                    r matches Err(MagicError::EmptyFile { path: p }) && p@ == path@
                } else {
                    r matches Err(MagicError::UnknownMagic { path: p, found }) && p@ == path@
                        && found@ == t
                }
            },
            None => r matches Err(e) && magic_line_error(e, path@, bytes@),
        },
{
    let line = read_magic_line(path, bytes)?;
    let t = trim_str(line.as_str());
    if run_record_version_from_magic(t).is_some() {
        Ok(FileKind::RunRecord)
    } else if str_eq(t, BOARD_SNAPSHOT_MAGIC) {
        Ok(FileKind::BoardSnapshot)
    } else if t.unicode_len() == 0 {
        Err(MagicError::EmptyFile { path: path.to_owned() })
    } else {
        Err(MagicError::UnknownMagic { path: path.to_owned(), found: t.to_owned() })
    }
}

/// The run-record version of a file whose first bytes are `bytes`.
pub fn sniff_run_record_version_from_reader(path: &str, bytes: &[u8]) -> (r: Result<
    RunRecordVersion,
    MagicError,
>)
    ensures
        match magic_text(bytes@) {
            Some(line) => {
                let t = trim(line);
                if version_of_magic(t) is Some {
                    r == Ok::<RunRecordVersion, MagicError>(version_of_magic(t)->0)
                } else if t.len() == 0 {
                    r matches Err(MagicError::EmptyFile { path: p }) && p@ == path@
                } else {
                    r matches Err(MagicError::UnknownMagic { path: p, found }) && p@ == path@
                        && found@ == t
                }
            },
            None => r matches Err(e) && magic_line_error(e, path@, bytes@),
        },
{
    let line = read_magic_line(path, bytes)?;
    let t = trim_str(line.as_str());
    match run_record_version_from_magic(t) {
        Some(v) => Ok(v),
        None => {
            if t.unicode_len() == 0 {
                Err(MagicError::EmptyFile { path: path.to_owned() })
            } else {
                Err(MagicError::UnknownMagic { path: path.to_owned(), found: t.to_owned() })
            }
        },
    }
}

} // verus!
