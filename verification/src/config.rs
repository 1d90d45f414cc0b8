//! Where the store's file lives. The surrounding program discovers the
//! paths (a per-user settings directory); the library only carries them.

use vstd::prelude::*;

verus! {

/// The two paths the program works with: the task file and the settings
/// directory it sits in.
pub struct Config {
    pub tasks_path: String,
    pub app_config_path: String,
}

impl Config {
    pub fn new(tasks_path: String, app_config_path: String) -> (r: Config)
        ensures
            r.tasks_path@ == tasks_path@,
            r.app_config_path@ == app_config_path@,
    {
        Config { tasks_path, app_config_path }
    }
}

} // verus!
