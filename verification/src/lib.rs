//! Rules, prompts and turn-keeping for a game of Go played against a language
//! model on a 19x19 board.

pub mod agent;
pub mod board;
pub mod bot;
pub mod conduct;
pub mod coords;
pub mod geometry;
pub mod goban;
pub mod json;
pub mod laws;
pub mod messages;
pub mod options;
pub mod order;
pub mod prompt;
pub mod protocol;
pub mod record;
pub mod render;
pub mod report;
pub mod rules;
pub mod session;
pub mod settings;
pub mod stats;
pub mod summary;
pub mod survey;
pub mod text;
pub mod tools;
pub mod wording;
