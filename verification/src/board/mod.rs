//! Board model, board interfaces, and concrete board implementations.

pub mod cell_state;
pub mod coordinate;
pub mod editor;
pub mod grid;
pub mod view;

pub use cell_state::CellState;
pub use coordinate::CellCoordinate;
pub use editor::{default_advance_with_rule, BoardEditor};
pub use view::BoardView;
pub mod in_memory_board;
pub use in_memory_board::{InMemoryBoard, InMemoryBoardCreationError};
pub mod board_size;
pub use board_size::{BoardSize, BoardSizeParseError, DEFAULT_BOARD_HEIGHT, DEFAULT_BOARD_WIDTH};
pub mod streaming_board;
pub mod streaming_chunk;
pub mod chunk_sweep;
pub use chunk_sweep::ChunkSweep;
pub use streaming_chunk::StreamingBoard;
pub use streaming_board::{derive_chunk_dimensions, ram_cost_for, StreamingBoardCreationError, StreamingBoardParams};
pub mod signature;
pub use signature::{BoardSignature, BoardSignatureAccumulator, BoardSignatureSource, GenerationSummary};
pub mod legacy_board;
pub use legacy_board::{board_text, Board};
