//! The messages the command line shows for its errors.
use vstd::prelude::*;

use super::cli::ConfigError;
use super::values::{
    InitialBoardSourceParseError, IterationParseError, LoadFromParseError, MemorySizeParseError,
    SUPPORTED_INITIAL_BOARD_VALUES,
};
use crate::board::board_size::BoardSizeParseError;
use crate::board::in_memory_board::InMemoryBoardCreationError;
use crate::text::{decimal_digits, decimal_string, push_chars, push_str, trim, trim_str};

verus! {

/// Appends `n` in decimal.
pub fn push_decimal(s: &mut String, n: u64)
    ensures
        final(s)@ == old(s)@ + decimal_digits(n as nat),
{
    push_chars(s, decimal_string(n).as_slice());
}

fn push_usize(s: &mut String, n: usize)
    ensures
        final(s)@ == old(s)@ + decimal_digits(n as nat),
{
    push_decimal(s, n as u64);
}

pub open spec fn iteration_error_text(e: IterationParseError) -> Seq<char> {
    match e {
        IterationParseError::Empty => "Max iterations is empty; use a non-negative integer like 10."@,
        IterationParseError::Negative { value } => "Max iterations '"@ + value@
            + "' is negative; use 0 or a positive whole number."@,
        IterationParseError::NonInteger { value } => "Max iterations '"@ + value@
            + "' is not an integer; use a non-negative whole number like 10."@,
        IterationParseError::TooLarge { value } => "Max iterations '"@ + value@
            + "' is too large for this platform."@,
    }
}

impl IterationParseError {
    pub fn message(&self) -> (r: String)
        ensures
            r@ == iteration_error_text(*self),
    {
        let mut s = String::new();
        match self {
            IterationParseError::Empty => {
                push_str(&mut s, "Max iterations is empty; use a non-negative integer like 10.");
            },
            IterationParseError::Negative { value } => {
                push_str(&mut s, "Max iterations '");
                push_str(&mut s, value.as_str());
                push_str(&mut s, "' is negative; use 0 or a positive whole number.");
            },
            IterationParseError::NonInteger { value } => {
                push_str(&mut s, "Max iterations '");
                push_str(&mut s, value.as_str());
                push_str(&mut s, "' is not an integer; use a non-negative whole number like 10.");
            },
            IterationParseError::TooLarge { value } => {
                push_str(&mut s, "Max iterations '");
                push_str(&mut s, value.as_str());
                push_str(&mut s, "' is too large for this platform.");
            },
        }
        s
    }
}

/// The reason a memory size was refused, after `subject` (the option or
/// the value it names) and `example` (a size to suggest).
pub open spec fn memory_reason_text(e: MemorySizeParseError, subject: Seq<char>, example: Seq<char>) -> Seq<char> {
    match e {
        MemorySizeParseError::Empty => subject + " is empty; use a positive memory size like "@ + example
            + "."@,
        MemorySizeParseError::Negative { value } => subject + " '"@ + value@
            + "' is negative; use a positive memory size like "@ + example + "."@,
        MemorySizeParseError::NonInteger { value } => subject + " '"@ + value@
            + "' is not a whole-number size; use values like 64KB, "@ + example
            + ", 1GB, or raw bytes."@,
        MemorySizeParseError::Zero { value } => subject + " '"@ + value@
            + "' is zero; use a size greater than 0 bytes."@,
        MemorySizeParseError::UnknownUnit { value, unit } => subject + " '"@ + value@
            + "' uses unsupported unit '"@ + unit@ + "'; supported units are B, KB, MB, and GB."@,
        MemorySizeParseError::TooLarge { value } => subject + " '"@ + value@
            + "' is too large for this platform."@,
    }
}

fn push_memory_reason(s: &mut String, e: &MemorySizeParseError, subject: &str, example: &str)
    ensures
        final(s)@ == old(s)@ + memory_reason_text(*e, subject@, example@),
{
    let ghost start = s@;
    push_str(s, subject);
    match e {
        MemorySizeParseError::Empty => {
            push_str(s, " is empty; use a positive memory size like ");
            push_str(s, example);
            push_str(s, ".");
        },
        MemorySizeParseError::Negative { value } => {
            push_str(s, " '");
            push_str(s, value.as_str());
            push_str(s, "' is negative; use a positive memory size like ");
            push_str(s, example);
            push_str(s, ".");
        },
        MemorySizeParseError::NonInteger { value } => {
            push_str(s, " '");
            push_str(s, value.as_str());
            push_str(s, "' is not a whole-number size; use values like 64KB, ");
            push_str(s, example);
            push_str(s, ", 1GB, or raw bytes.");
        },
        MemorySizeParseError::Zero { value } => {
            push_str(s, " '");
            push_str(s, value.as_str());
            push_str(s, "' is zero; use a size greater than 0 bytes.");
        },
        MemorySizeParseError::UnknownUnit { value, unit } => {
            push_str(s, " '");
            push_str(s, value.as_str());
            push_str(s, "' uses unsupported unit '");
            push_str(s, unit.as_str());
            push_str(s, "'; supported units are B, KB, MB, and GB.");
        },
        MemorySizeParseError::TooLarge { value } => {
            push_str(s, " '");
            push_str(s, value.as_str());
            push_str(s, "' is too large for this platform.");
        },
    }
    proof {
        assert(s@ =~= start + memory_reason_text(*e, subject@, example@));
    }
}

pub open spec fn memory_error_text(e: MemorySizeParseError) -> Seq<char> {
    memory_reason_text(e, "Max board memory"@, "64MB"@)
}

impl MemorySizeParseError {
    pub fn message(&self) -> (r: String)
        ensures
            r@ == memory_error_text(*self),
    {
        let mut s = String::new();
        push_memory_reason(&mut s, self, "Max board memory", "64MB");
        proof {
            assert(s@ =~= memory_error_text(*self));
        }
        s
    }
}

pub open spec fn initial_board_error_text(e: InitialBoardSourceParseError) -> Seq<char> {
    match e {
        InitialBoardSourceParseError::Unsupported { value } => "Initial board source '"@ + value@
            + "' is not supported; use one of: "@ + SUPPORTED_INITIAL_BOARD_VALUES@
            + ". File-based initial boards are planned but not supported yet."@,
    }
}

impl InitialBoardSourceParseError {
    pub fn message(&self) -> (r: String)
        ensures
            r@ == initial_board_error_text(*self),
    {
        let mut s = String::new();
        match self {
            InitialBoardSourceParseError::Unsupported { value } => {
                push_str(&mut s, "Initial board source '");
                push_str(&mut s, value.as_str());
                push_str(&mut s, "' is not supported; use one of: ");
                push_str(&mut s, SUPPORTED_INITIAL_BOARD_VALUES);
                push_str(&mut s, ". File-based initial boards are planned but not supported yet.");
            },
        }
        s
    }
}

pub open spec fn load_from_error_text(e: LoadFromParseError) -> Seq<char> {
    match e {
        LoadFromParseError::Unsupported { value } => "--load-from value '"@ + value@
            + "' is not supported; use 'initial' or 'final'."@,
    }
}

impl LoadFromParseError {
    pub fn message(&self) -> (r: String)
        ensures
            r@ == load_from_error_text(*self),
    {
        let mut s = String::new();
        match self {
            LoadFromParseError::Unsupported { value } => {
                push_str(&mut s, "--load-from value '");
                push_str(&mut s, value.as_str());
                push_str(&mut s, "' is not supported; use 'initial' or 'final'.");
            },
        }
        s
    }
}

pub open spec fn board_size_error_text(e: BoardSizeParseError) -> Seq<char> {
    match e {
        BoardSizeParseError::MissingSeparator { value } => "Board size '"@ + value@
            + "' is missing the 'x' separator; use WIDTHxHEIGHT, for example 5x5."@,
        BoardSizeParseError::MissingDimension { value, dimension } => "Board size '"@ + value@
            + "' is missing a "@ + dimension@ + "; use WIDTHxHEIGHT, for example 5x5."@,
        BoardSizeParseError::ExtraDimensions { value } => "Board size '"@ + value@
            + "' has too many dimensions; only 2D boards are supported right now. Use WIDTHxHEIGHT, for example 5x5."@,
        BoardSizeParseError::UnsupportedSeparator { value } => "Board size '"@ + value@
            + "' uses an unsupported separator; use 'x' as in 5x5."@,
        BoardSizeParseError::NegativeDimension { value, dimension, component } => "Board size '"@ + value@
            + "' has a negative "@ + dimension@ + " ('"@ + trim(component@)
            + "'); dimensions must be positive whole numbers."@,
        BoardSizeParseError::NonIntegerDimension { value, dimension, component } => "Board size '"@
            + value@ + "' has a non-integer "@ + dimension@ + " ('"@ + trim(component@)
            + "'); use positive whole numbers like 5x5."@,
        BoardSizeParseError::ZeroDimension { dimension } => "Board size has zero "@ + dimension@ + "; "@
            + dimension@ + " must be greater than 0."@,
        BoardSizeParseError::DimensionTooLarge { value, dimension, component } => "Board size '"@
            + value@ + "' has a "@ + dimension@ + " ('"@ + trim(component@)
            + "') that is too large for this platform."@,
        BoardSizeParseError::BoardTooLarge { width, height } => "Board size '"@ + decimal_digits(
            width as nat,
        ) + "x"@ + decimal_digits(height as nat)
            + "' is too large; width times height exceeds the supported board capacity."@,
    }
}

impl BoardSizeParseError {
    pub fn message(&self) -> (r: String)
        ensures
            r@ == board_size_error_text(*self),
    {
        let mut s = String::new();
        match self {
            BoardSizeParseError::MissingSeparator { value } => {
                push_str(&mut s, "Board size '");
                push_str(&mut s, value.as_str());
                push_str(&mut s, "' is missing the 'x' separator; use WIDTHxHEIGHT, for example 5x5.");
            },
            BoardSizeParseError::MissingDimension { value, dimension } => {
                push_str(&mut s, "Board size '");
                push_str(&mut s, value.as_str());
                push_str(&mut s, "' is missing a ");
                push_str(&mut s, dimension);
                push_str(&mut s, "; use WIDTHxHEIGHT, for example 5x5.");
            },
            BoardSizeParseError::ExtraDimensions { value } => {
                push_str(&mut s, "Board size '");
                push_str(&mut s, value.as_str());
                push_str(
                    &mut s,
                    "' has too many dimensions; only 2D boards are supported right now. Use WIDTHxHEIGHT, for example 5x5.",
                );
            },
            BoardSizeParseError::UnsupportedSeparator { value } => {
                push_str(&mut s, "Board size '");
                push_str(&mut s, value.as_str());
                push_str(&mut s, "' uses an unsupported separator; use 'x' as in 5x5.");
            },
            BoardSizeParseError::NegativeDimension { value, dimension, component } => {
                push_str(&mut s, "Board size '");
                push_str(&mut s, value.as_str());
                push_str(&mut s, "' has a negative ");
                push_str(&mut s, dimension);
                push_str(&mut s, " ('");
                push_str(&mut s, trim_str(component.as_str()));
                push_str(&mut s, "'); dimensions must be positive whole numbers.");
            },
            BoardSizeParseError::NonIntegerDimension { value, dimension, component } => {
                push_str(&mut s, "Board size '");
                push_str(&mut s, value.as_str());
                push_str(&mut s, "' has a non-integer ");
                push_str(&mut s, dimension);
                push_str(&mut s, " ('");
                push_str(&mut s, trim_str(component.as_str()));
                push_str(&mut s, "'); use positive whole numbers like 5x5.");
            },
            BoardSizeParseError::ZeroDimension { dimension } => {
                push_str(&mut s, "Board size has zero ");
                push_str(&mut s, dimension);
                push_str(&mut s, "; ");
                push_str(&mut s, dimension);
                push_str(&mut s, " must be greater than 0.");
            },
            BoardSizeParseError::DimensionTooLarge { value, dimension, component } => {
                push_str(&mut s, "Board size '");
                push_str(&mut s, value.as_str());
                push_str(&mut s, "' has a ");
                push_str(&mut s, dimension);
                push_str(&mut s, " ('");
                push_str(&mut s, trim_str(component.as_str()));
                push_str(&mut s, "') that is too large for this platform.");
            },
            BoardSizeParseError::BoardTooLarge { width, height } => {
                push_str(&mut s, "Board size '");
                push_usize(&mut s, *width);
                push_str(&mut s, "x");
                push_usize(&mut s, *height);
                push_str(
                    &mut s,
                    "' is too large; width times height exceeds the supported board capacity.",
                );
            },
        }
        s
    }
}

pub open spec fn creation_error_text(e: InMemoryBoardCreationError) -> Seq<char> {
    match e {
        InMemoryBoardCreationError::CellCountOverflow { width, height } => "Board size '"@ + decimal_digits(
            width as nat,
        ) + "x"@ + decimal_digits(height as nat)
            + "' is too large; width times height exceeds the supported cell capacity."@,
        InMemoryBoardCreationError::AllocationSizeOverflow { width, height, cell_count, cell_size } =>
            "Board size '"@ + decimal_digits(width as nat) + "x"@ + decimal_digits(height as nat)
            + "' is too large; "@ + decimal_digits(cell_count as nat) + " cells at "@ + decimal_digits(
            cell_size as nat,
        ) + " bytes per cell exceed the supported allocation size."@,
        InMemoryBoardCreationError::AllocationAddressSpaceExceeded {
            width,
            height,
            requested_memory_bytes,
            max_addressable_bytes,
        } => "Board size '"@ + decimal_digits(width as nat) + "x"@ + decimal_digits(height as nat)
            + "' requires "@ + decimal_digits(requested_memory_bytes as nat)
            + " bytes, which exceeds the addressable allocation limit of "@ + decimal_digits(
            max_addressable_bytes as nat,
        ) + " bytes."@,
        InMemoryBoardCreationError::MemoryBudgetExceeded {
            width,
            height,
            requested_memory_bytes,
            max_memory_bytes,
        } => "Board size '"@ + decimal_digits(width as nat) + "x"@ + decimal_digits(height as nat)
            + "' requires "@ + decimal_digits(requested_memory_bytes as nat)
            + " bytes, which exceeds the configured max board memory of "@ + decimal_digits(
            max_memory_bytes as nat,
        ) + " bytes."@,
    }
}

impl InMemoryBoardCreationError {
    pub fn message(&self) -> (r: String)
        ensures
            r@ == creation_error_text(*self),
    {
        let mut s = String::new();
        push_str(&mut s, "Board size '");
        match self {
            InMemoryBoardCreationError::CellCountOverflow { width, height } => {
                push_usize(&mut s, *width);
                push_str(&mut s, "x");
                push_usize(&mut s, *height);
                push_str(&mut s, "' is too large; width times height exceeds the supported cell capacity.");
            },
            InMemoryBoardCreationError::AllocationSizeOverflow { width, height, cell_count, cell_size } => {
                push_usize(&mut s, *width);
                push_str(&mut s, "x");
                push_usize(&mut s, *height);
                push_str(&mut s, "' is too large; ");
                push_usize(&mut s, *cell_count);
                push_str(&mut s, " cells at ");
                push_usize(&mut s, *cell_size);
                push_str(&mut s, " bytes per cell exceed the supported allocation size.");
            },
            InMemoryBoardCreationError::AllocationAddressSpaceExceeded {
                width,
                height,
                requested_memory_bytes,
                max_addressable_bytes,
            } => {
                push_usize(&mut s, *width);
                push_str(&mut s, "x");
                push_usize(&mut s, *height);
                push_str(&mut s, "' requires ");
                push_usize(&mut s, *requested_memory_bytes);
                push_str(&mut s, " bytes, which exceeds the addressable allocation limit of ");
                push_usize(&mut s, *max_addressable_bytes);
                push_str(&mut s, " bytes.");
            },
            InMemoryBoardCreationError::MemoryBudgetExceeded {
                width,
                height,
                requested_memory_bytes,
                max_memory_bytes,
            } => {
                push_usize(&mut s, *width);
                push_str(&mut s, "x");
                push_usize(&mut s, *height);
                push_str(&mut s, "' requires ");
                push_usize(&mut s, *requested_memory_bytes);
                push_str(&mut s, " bytes, which exceeds the configured max board memory of ");
                push_usize(&mut s, *max_memory_bytes);
                push_str(&mut s, " bytes.");
            },
        }
        proof {
            assert(s@ =~= creation_error_text(*self));
        }
        s
    }
}

pub open spec fn config_error_text(e: ConfigError) -> Seq<char> {
    match e {
        ConfigError::MissingOptionValue { option, expected } => "Option '"@ + option@ + "' requires "@
            + expected@ + "."@,
        ConfigError::UnknownOption { option } => "Unknown option '"@ + option@
            + "'. Use --help to see supported options."@,
        ConfigError::UnexpectedArgument { argument } => "Unexpected argument '"@ + argument@
            + "'. Use named options like --board-size 5x5."@,
        ConfigError::InvalidBoardSize(error) => board_size_error_text(error),
        ConfigError::InvalidMaxIterations(error) => iteration_error_text(error),
        ConfigError::InvalidMaxBoardMemory(error) => memory_error_text(error),
        ConfigError::InvalidMaxInputFileBytes(error) =>
            "Option '--max-input-file-bytes' rejected the supplied value: "@ + memory_reason_text(
            error,
            "value"@,
            "256MB"@,
        ),
        ConfigError::InvalidInitialBoard(error) => initial_board_error_text(error),
        ConfigError::InvalidLoadFrom(error) => load_from_error_text(error),
        ConfigError::ConflictingInitialBoardOptions { details } => "Conflicting options: "@ + details@ + "."@,
        ConfigError::ConflictingSaveOptions { details } => "Conflicting options: "@ + details@ + "."@,
        ConfigError::ConflictingCommands { details } => "Conflicting options: "@ + details@ + "."@,
        ConfigError::MissingRequiredOption { option, context } => "Option '"@ + option@ + "' is "@
            + context@ + "."@,
    }
}

impl ConfigError {
    pub fn message(&self) -> (r: String)
        ensures
            r@ == config_error_text(*self),
    {
        match self {
            ConfigError::InvalidBoardSize(error) => return error.message(),
            ConfigError::InvalidMaxIterations(error) => return error.message(),
            ConfigError::InvalidMaxBoardMemory(error) => return error.message(),
            ConfigError::InvalidInitialBoard(error) => return error.message(),
            ConfigError::InvalidLoadFrom(error) => return error.message(),
            _ => {},
        }
        let mut s = String::new();
        match self {
            ConfigError::MissingOptionValue { option, expected } => {
                push_str(&mut s, "Option '");
                push_str(&mut s, option.as_str());
                push_str(&mut s, "' requires ");
                push_str(&mut s, expected);
                push_str(&mut s, ".");
            },
            ConfigError::UnknownOption { option } => {
                push_str(&mut s, "Unknown option '");
                push_str(&mut s, option.as_str());
                push_str(&mut s, "'. Use --help to see supported options.");
            },
            ConfigError::UnexpectedArgument { argument } => {
                push_str(&mut s, "Unexpected argument '");
                push_str(&mut s, argument.as_str());
                push_str(&mut s, "'. Use named options like --board-size 5x5.");
            },
            ConfigError::InvalidMaxInputFileBytes(error) => {
                push_str(&mut s, "Option '--max-input-file-bytes' rejected the supplied value: ");
                push_memory_reason(&mut s, error, "value", "256MB");
            },
            ConfigError::ConflictingInitialBoardOptions { details }
            | ConfigError::ConflictingSaveOptions { details }
            | ConfigError::ConflictingCommands { details } => {
                push_str(&mut s, "Conflicting options: ");
                push_str(&mut s, details);
                push_str(&mut s, ".");
            },
            ConfigError::MissingRequiredOption { option, context } => {
                push_str(&mut s, "Option '");
                push_str(&mut s, option);
                push_str(&mut s, "' is ");
                push_str(&mut s, context);
                push_str(&mut s, ".");
            },
            _ => {},
        }
        proof {
            assert(s@ =~= config_error_text(*self));
        }
        s
    }
}

} // verus!
