pub mod types;
pub mod board;
pub mod clock;
pub mod rating;
pub mod game;
pub mod rules;
pub mod tournament;
pub mod results;
pub mod play;
pub mod ai;
pub mod queue;
pub mod messages;
