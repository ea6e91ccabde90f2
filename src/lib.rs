pub mod a_star;
pub mod bot;
pub mod commands;
pub mod data_model;
pub mod game_logic;
pub mod render_board;
pub mod square_outline_iterator;
