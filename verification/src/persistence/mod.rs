//! Persistence formats: run records, board snapshots and their building blocks.

pub mod hash;

pub use hash::{fnv1a_64, format_hash, parse_hash, HashParseError};
pub mod run_id;
pub use run_id::{format_run_id, parse_run_id, short_run_id, RunId, RunIdParseError};
pub mod timestamps;
pub use timestamps::{format_utc, parse_utc, TimestampParseError};
pub mod parser;
pub use parser::{ParseError, ParseLocation};
pub mod limits;
pub use limits::{DEFAULT_MAX_INPUT_FILE_BYTES, MAX_MAGIC_PEEK_BYTES};
pub mod errors;
pub use errors::PersistenceIoError;
pub mod magic;
pub use magic::{
    sniff_from_reader, FileKind, MagicError, BOARD_SNAPSHOT_MAGIC, RUN_RECORD_MAGIC, SCHEMA_VERSION,
};
pub mod board_snapshot;
pub use board_snapshot::{
    read_board_snapshot, read_board_snapshot_default, suggest_memory_override,
    validate_loaded_board_size, write_board_snapshot_to, BoardSnapshot, BoardSnapshotReadError,
    BoardSnapshotWriteError, LoadedBoardSizeError, SuggestedMemoryDisplay, SuggestedMemoryOverride,
    BOARD_BLOCK_LABEL, SUGGESTED_MEMORY_OVERRIDE_FLOOR_BYTES,
};
pub mod lines;
pub mod board_block;
pub mod text_lines;
pub mod round_trip;
pub mod scratch;
pub mod run_record;
pub mod canonical;
pub mod sections;
pub mod record_reader;
pub mod record_round_trip;
pub mod messages;
pub use run_record::{
    board_grid_hash, encode_run_record, write_run_record_body, ContentHashMode, ExtractBoardError,
    ExtractWhich, LoadedRunRecord, RunRecord, RunRecordConfig, RunRecordReadError, RunRecordResult,
    RunRecordWriteError, FINAL_BOARD_LABEL, INITIAL_BOARD_LABEL, TOOL_VERSION,
};
pub use record_reader::{
    extract_board_from_run, read_run_record, read_run_record_default, read_run_record_with_warnings,
};
pub use scratch::ScratchFileError;
