//! Scores and schedules of NBA games: the logic of the `nba` command, verified.
//!
//! `text` holds verified string helpers, `date` the calendar day type and the calls into
//! chrono, `model` the data as the NBA feeds give it and the unified `Game`, `schedule`
//! the queries over a season's schedule, and `render` the text that the command prints.
pub mod text;
pub mod date;
pub mod model;
pub mod schedule;
pub mod render;
pub mod command;
