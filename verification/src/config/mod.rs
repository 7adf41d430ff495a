//! Run configuration and the command-line parser that builds it.

pub mod values;

pub use values::{
    parse_max_iterations, parse_memory_size, InitialBoardSource, InitialBoardSourceParseError,
    IntegrityMode, IterationParseError, LoadFrom, LoadFromParseError, MemorySizeParseError,
    DEFAULT_MAX_BOARD_MEMORY_BYTES, DEFAULT_MAX_ITERATIONS,
};

pub mod cli;

pub use cli::{
    CliCommand, ConfigError, ContinuationBudget, ExtractBoardConfig, InitialBoardSpec, ReplayConfig,
    SaveSettings, SimulationConfig, DEFAULT_RUNS_DIR,
};
pub mod messages;
