//! Where the sessions and the status line are kept.

use vstd::prelude::*;

verus! {

/// The two places that the timer writes to.
#[derive(Clone, Debug, PartialEq, Eq)]
pub struct PomodoroConfig {
    /// The directory with one file for each session.
    pub pomodoro_session_dir: String,
    /// The file that holds the status line.
    pub pomodoro_status_path: String,
}

/// The configuration file as a whole.
#[derive(Clone, Debug, PartialEq, Eq)]
pub struct Config {
    pub pomodoro_config: PomodoroConfig,
}

} // verus!
