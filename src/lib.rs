pub mod board;
pub mod bot;
pub mod game;
pub mod laws;
pub mod rules;
