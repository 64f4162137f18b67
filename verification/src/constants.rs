//! Names shared by every component.

use vstd::prelude::*;

verus! {

/// Directory, below a project root, that holds the authoritative rule files.
pub const RULES_DIR: &'static str = ".rules";

/// First component of the path of the first mirror directory, below a project root.
pub const CURSOR_DIR: &'static str = ".cursor";

/// First component of the path of the second mirror directory, below a project root.
pub const WINDSURF_DIR: &'static str = ".windsurf";

/// Last component of the path of either mirror directory.
pub const MIRROR_RULES_DIR: &'static str = "rules";

/// Name of the lock file that records the running daemon.
pub const PID_FILE_NAME: &'static str = "known_daemon.pid";

/// Name of the file that persists the watched directories.
pub const CONFIG_FILE_NAME: &'static str = "config.json";

/// Name under which the daemon is registered to start at login.
pub const APP_NAME: &'static str = "known-daemon";

/// Name of the application, used for its directories.
pub const APPLICATION: &'static str = "known";

/// Directory below the home directory that holds per-application configuration.
pub const HOME_CONFIG_DIR: &'static str = ".config";

/// Name of the instruction file of a project.
pub const AGENTS_FILENAME: &'static str = "AGENTS.md";

} // verus!
