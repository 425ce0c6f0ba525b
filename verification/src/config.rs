//! The settings of the supervisor.

use vstd::prelude::*;
use crate::paths::{join_path, joined_path};
use crate::text::{parent_path, path_ends_with, path_has_suffix, path_parent};

verus! {

/// Where the supervisor listens, where it keeps its files, and how it treats
/// crashed services.
#[derive(Debug)]
pub struct Config {
    pub port: u16,
    pub host: String,
    pub project_root: String,
    pub logs_dir: String,
    pub state_file: String,
    pub data_dir: String,
    pub auto_restart: bool,
    pub max_restart_attempts: u32,
}

/// The root of the project for a supervisor started in `current_dir`: the
/// directory above, where the supervisor was started in its own directory
/// `panel`, else `current_dir` itself.
pub open spec fn project_root_of(current_dir: Seq<char>) -> Seq<char> {
    if path_has_suffix(current_dir, "panel"@) {
        match parent_path(current_dir) {
            Some(p) => p,
            None => current_dir,
        }
    } else {
        current_dir
    }
}

impl Default for Config {
    /// Port 9000 on all interfaces, files relative to the current directory,
    /// crashed services restarted up to five times.
    fn default() -> (c: Self)
        ensures
            c.port == 9000,
            c.host@ == "0.0.0.0"@,
            c.project_root@ == "."@,
            c.logs_dir@ == "logs"@,
            c.state_file@ == "panel/state.json"@,
            c.data_dir@ == "panel/data"@,
            c.auto_restart,
            c.max_restart_attempts == 5,
    {
        Config {
            port: 9000,
            host: "0.0.0.0".to_owned(),
            project_root: ".".to_owned(),
            logs_dir: "logs".to_owned(),
            state_file: "panel/state.json".to_owned(),
            data_dir: "panel/data".to_owned(),
            auto_restart: true,
            max_restart_attempts: 5,
        }
    }
}

impl Config {
    /// The settings of a supervisor started in `current_dir`: the defaults,
    /// with the files under `panel` in the project root.
    pub fn new(current_dir: String) -> (c: Self)
        ensures
            c.port == 9000,
            c.host@ == "0.0.0.0"@,
            c.auto_restart,
            c.max_restart_attempts == 5,
            c.project_root@ == project_root_of(current_dir@),
            c.logs_dir@ == joined_path(joined_path(c.project_root@, "panel"@), "logs"@),
            c.state_file@ == joined_path(joined_path(c.project_root@, "panel"@), "state.json"@),
            c.data_dir@ == joined_path(joined_path(c.project_root@, "panel"@), "data"@),
    {
        let project_root = if path_ends_with(current_dir.as_str(), "panel") {
            match path_parent(current_dir.as_str()) {
                Some(p) => p,
                None => current_dir,
            }
        } else {
            current_dir
        };
        let own = join_path(project_root.as_str(), "panel");
        let logs_dir = join_path(own.as_str(), "logs");
        let state_file = join_path(own.as_str(), "state.json");
        let data_dir = join_path(own.as_str(), "data");
        Config {
            port: 9000,
            host: "0.0.0.0".to_owned(),
            project_root,
            logs_dir,
            state_file,
            data_dir,
            auto_restart: true,
            max_restart_attempts: 5,
        }
    }
}

} // verus!
