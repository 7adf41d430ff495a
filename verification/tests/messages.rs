use game_of_life::board::{BoardSizeParseError, InMemoryBoardCreationError};
use game_of_life::config::{ConfigError, IterationParseError, MemorySizeParseError};
use game_of_life::persistence::{
    MagicError, ParseError, ParseLocation, RunId, RunRecordReadError, TimestampParseError,
};

fn at(line: usize) -> ParseLocation {
    ParseLocation::new("run.gol", line)
}

#[test]
fn config_error_messages() {
    assert_eq!(
        ConfigError::UnknownOption { option: "--frob".to_string() }.message(),
        "Unknown option '--frob'. Use --help to see supported options."
    );
    assert_eq!(
        ConfigError::InvalidMaxIterations(IterationParseError::Negative { value: "-3".to_string() })
            .message(),
        "Max iterations '-3' is negative; use 0 or a positive whole number."
    );
    assert_eq!(
        ConfigError::InvalidMaxInputFileBytes(MemorySizeParseError::Zero { value: "0".to_string() })
            .message(),
        "Option '--max-input-file-bytes' rejected the supplied value: value '0' is zero; use a size greater than 0 bytes."
    );
    assert_eq!(
        MemorySizeParseError::NonInteger { value: "1.5MB".to_string() }.message(),
        "Max board memory '1.5MB' is not a whole-number size; use values like 64KB, 64MB, 1GB, or raw bytes."
    );
    assert_eq!(
        ConfigError::MissingRequiredOption { option: "--output", context: "required with --extract-board" }
            .message(),
        "Option '--output' is required with --extract-board."
    );
}

#[test]
fn board_size_messages() {
    assert_eq!(
        BoardSizeParseError::NegativeDimension {
            value: "-5x5".to_string(),
            dimension: "width",
            component: " -5 ".to_string(),
        }
        .message(),
        "Board size '-5x5' has a negative width ('-5'); dimensions must be positive whole numbers."
    );
    assert_eq!(
        BoardSizeParseError::ZeroDimension { dimension: "height" }.message(),
        "Board size has zero height; height must be greater than 0."
    );
    assert_eq!(
        InMemoryBoardCreationError::MemoryBudgetExceeded {
            width: 100,
            height: 100,
            requested_memory_bytes: 10000,
            max_memory_bytes: 1000,
        }
        .message(),
        "Board size '100x100' requires 10000 bytes, which exceeds the configured max board memory of 1000 bytes."
    );
}

#[test]
fn parse_error_messages() {
    assert_eq!(at(12).to_text(), "run.gol:12");
    assert_eq!(
        ParseError::RaggedBoardRow { location: at(9), expected_width: 5, actual_width: 4 }.message(),
        "Board row at run.gol:9 has width 4; expected 5 based on the first row."
    );
    assert_eq!(
        ParseError::NonAsciiBoardCharacter { location: at(7), character: 'é' }.message(),
        "Board grid at run.gol:7 contains non-ASCII character '\\u{e9}' (U+00E9)."
    );
    assert_eq!(
        ParseError::UnknownBoardCharacter { location: at(7), character: 'x' }.message(),
        "Board grid at run.gol:7 contains unknown character 'x'; allowed characters are '.' (dead) and '#' (alive)."
    );
    assert_eq!(
        ParseError::UnknownBoardCharacter { location: at(7), character: '\t' }.message(),
        "Board grid at run.gol:7 contains unknown character '\\t'; allowed characters are '.' (dead) and '#' (alive)."
    );
    assert_eq!(
        ParseError::BoardSizeMismatch { location: at(3), header_size: [5, 5], grid_size: [4, 5] }.message(),
        "Board size mismatch at run.gol:3: header declared 5x5 but grid is 4x5."
    );
}

#[test]
fn run_record_read_error_messages() {
    assert_eq!(
        RunRecordReadError::Corrupted { path: "a.gol".to_string(), expected_hash: 1, actual_hash: 255 }
            .message(),
        "Run record 'a.gol' failed integrity check: expected content_hash 0x0000000000000001, computed 0x00000000000000ff. If you intentionally edited this file, re-run with --ignore-integrity to bypass this check (the loaded data will be used as-is). To craft a new board from this run, use --extract-board <path> --load-from initial|final --output snapshot.gol instead -- board snapshots have no integrity hash and are freely editable."
    );
    assert_eq!(
        RunRecordReadError::UnrecognizedStatus { location: at(20), value: "done".to_string() }.message(),
        "Unknown run status 'done' at run.gol:20; recognized statuses: extinct, max_iterations, stable, cyclic."
    );
    assert_eq!(
        RunRecordReadError::FileTooLarge { path: "big.gol".to_string(), actual_bytes: 300, limit_bytes: 200 }
            .message(),
        "File 'big.gol' is 300 bytes which exceeds the 200-byte input file limit. Raise the limit with --max-input-file-bytes if the file is trustworthy."
    );
    assert_eq!(
        RunRecordReadError::InvalidTimestamp(TimestampParseError::NonNumericField {
            value: "20x6-01-01T00:00:00Z".to_string(),
            field: "year",
        })
        .message(),
        "timestamp '20x6-01-01T00:00:00Z' has non-numeric year"
    );
    let long = "x".repeat(70);
    assert_eq!(
        RunRecordReadError::Magic(MagicError::UnknownMagic { path: "f".to_string(), found: long }).message(),
        format!(
            "File 'f' is not a Game of Life file: first line was `{}\u{2026}`, expected `GOL-RUN-RECORD v1`, `GOL-RUN-RECORD v2`, or `GOL-BOARD-SNAPSHOT v1`.",
            "x".repeat(64)
        )
    );
    let _ = RunId::from_bytes([0; 16]);
}
