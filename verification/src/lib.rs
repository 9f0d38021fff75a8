//! Session records for a pomodoro timer: the on-disk record text, the
//! queries over a directory of records, and the one-line status view.

pub mod config;
pub mod date_time;
pub mod display;
pub mod error;
pub mod record;
pub mod service;
pub mod session;
pub mod text;
