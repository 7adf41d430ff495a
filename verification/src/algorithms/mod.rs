//! Board initialization and update algorithms.

pub mod board_initializer;
pub mod board_updater;
pub mod cell_rule;
pub mod centered_blinker_initializer;
pub mod demo_board_initializer;
pub mod fully_alive_initializer;
pub mod in_place_transitional_updater;
pub mod random_board_initializer;

pub use board_initializer::BoardInitializer;
pub use board_updater::BoardUpdater;
pub use cell_rule::CellRule;
pub use centered_blinker_initializer::CenteredBlinkerInitializer;
pub use demo_board_initializer::DemoBoardInitializer;
pub use fully_alive_initializer::FullyAliveInitializer;
pub use in_place_transitional_updater::InPlaceTransitionalUpdater;
pub use random_board_initializer::{
    RandomBoardInitializer, RandomBoardInitializerError, DEFAULT_ALIVE_CELLS_PER_THOUSAND,
    MAX_ALIVE_CELLS_PER_THOUSAND,
};
