//! Size limits for reading persistence files.
use vstd::prelude::*;

verus! {

/// Most bytes read from a file before deciding what kind of file it is.
pub const MAX_MAGIC_PEEK_BYTES: usize = 128;

/// Default ceiling on the size of an input file read into memory.
pub const DEFAULT_MAX_INPUT_FILE_BYTES: usize = 256 * 1024 * 1024;

} // verus!
