//! A self-contained layout that keeps plugins, configuration, runtime files
//! and logs under a single root directory.
use vstd::prelude::*;
use vstd::string::*;

use crate::layout::{log_name, path_join2};
use crate::path::{join_path, path_join};

verus! {

/// The paths of a self-contained kernel root.
#[derive(Debug, Clone)]
pub struct Layout {
    pub root: String,
    pub plugins_dir: String,
    pub config_dir: String,
    pub kernel_config_file: String,
    pub run_dir: String,
    pub socket_file: String,
    pub pid_file: String,
    pub runtime_plugins_dir: String,
    pub logs_dir: String,
}

impl Layout {
    /// The layout under `root`: `plugins/`, `config/kernel.json`, `run/`
    /// with the socket, the PID file and per-plugin runtime files, and `logs/`.
    pub fn new(root: String) -> (l: Layout)
        ensures
            l.root@ == root@,
            l.plugins_dir@ == path_join(root@, "plugins"@),
            l.config_dir@ == path_join(root@, "config"@),
            l.run_dir@ == path_join(root@, "run"@),
            l.kernel_config_file@ == path_join(l.config_dir@, "kernel.json"@),
            l.socket_file@ == path_join(l.run_dir@, "kernel.sock"@),
            l.pid_file@ == path_join(l.run_dir@, "kernel.pid"@),
            l.runtime_plugins_dir@ == path_join(l.run_dir@, "plugins"@),
            l.logs_dir@ == path_join(root@, "logs"@),
    {
        let plugins_dir = join_path(root.as_str(), "plugins");
        let config_dir = join_path(root.as_str(), "config");
        let run_dir = join_path(root.as_str(), "run");
        let kernel_config_file = join_path(config_dir.as_str(), "kernel.json");
        let socket_file = join_path(run_dir.as_str(), "kernel.sock");
        let pid_file = join_path(run_dir.as_str(), "kernel.pid");
        let runtime_plugins_dir = join_path(run_dir.as_str(), "plugins");
        let logs_dir = join_path(root.as_str(), "logs");
        Layout {
            root,
            plugins_dir,
            config_dir,
            kernel_config_file,
            run_dir,
            socket_file,
            pid_file,
            runtime_plugins_dir,
            logs_dir,
        }
    }

    /// The directory of an installed plugin.
    pub fn plugin_dir(&self, id: &str) -> (r: String)
        ensures
            r@ == path_join(self.plugins_dir@, id@),
    {
        join_path(self.plugins_dir.as_str(), id)
    }

    /// The runtime configuration written for a running plugin.
    pub fn plugin_runtime_config(&self, id: &str) -> (r: String)
        ensures
            r@ == path_join2(self.runtime_plugins_dir@, id@, "config.json"@),
    {
        let dir = join_path(self.runtime_plugins_dir.as_str(), id);
        join_path(dir.as_str(), "config.json")
    }

    /// The log file of a plugin's process.
    pub fn plugin_log(&self, id: &str) -> (r: String)
        ensures
            r@ == path_join(self.logs_dir@, log_name(id@)),
    {
        let mut name = id.to_owned();
        name.append(".log");
        join_path(self.logs_dir.as_str(), name.as_str())
    }
}

} // verus!
