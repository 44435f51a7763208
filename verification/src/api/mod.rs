pub mod game_manager;
pub mod state;
