//! Where things live: the EasOS workspace, whose first-level directories are
//! the plugins, and the runtime directory with the socket, PID file and logs.
use vstd::prelude::*;
use vstd::string::*;

use crate::error::{failure_of, ErrorView, KernelError};
use crate::model::{
    is_absolute_path, kernel_id, manifest_failure, KernelState, PluginManifest, PluginSettings,
    KERNEL_PLUGIN_ID,
};
use crate::path::{join_path, lemma_join_keeps_absolute, path_join};
use crate::text::text_eq;

verus! {

/// The paths of a workspace and of its runtime directory. The workspace
/// root and the runtime directory are absolute, so every path handed to a
/// plugin is absolute too.
#[derive(Debug)]
pub struct Layout {
    root: String,
    runtime_root: String,
    kernel_dir: String,
    kernel_state_file: String,
    socket_file: String,
    pid_file: String,
    logs_dir: String,
}

/// The paths of a layout as text.
pub struct LayoutView {
    pub root: Seq<char>,
    pub runtime_root: Seq<char>,
    pub kernel_dir: Seq<char>,
    pub kernel_state_file: Seq<char>,
    pub socket_file: Seq<char>,
    pub pid_file: Seq<char>,
    pub logs_dir: Seq<char>,
}

impl View for Layout {
    type V = LayoutView;

    closed spec fn view(&self) -> LayoutView {
        LayoutView {
            root: self.root@,
            runtime_root: self.runtime_root@,
            kernel_dir: self.kernel_dir@,
            kernel_state_file: self.kernel_state_file@,
            socket_file: self.socket_file@,
            pid_file: self.pid_file@,
            logs_dir: self.logs_dir@,
        }
    }
}

/// `a/b/c`, each step joined as `Path::join` does.
pub open spec fn path_join2(a: Seq<char>, b: Seq<char>, c: Seq<char>) -> Seq<char> {
    path_join(path_join(a, b), c)
}

/// The file name of a plugin's log.
pub open spec fn log_name(id: Seq<char>) -> Seq<char> {
    id + ".log"@
}

/// What opening the workspace reports about the kernel's own manifest.
pub open spec fn kernel_manifest_failure(m: &PluginManifest) -> Option<ErrorView> {
    if manifest_failure(m) is Some {
        manifest_failure(m)
    } else if m.id@ != kernel_id() {
        Some(ErrorView::InvalidData("kernel manifest id must be \"kernel\""@))
    } else {
        None
    }
}

/// `l` lays out the workspace `root` with runtime files under
/// `runtime_root`.
pub open spec fn laid_out(l: Layout, root: Seq<char>, runtime_root: Seq<char>) -> bool {
    &&& l@.root == root
    &&& l@.runtime_root == runtime_root
    &&& l@.kernel_dir == path_join(root, kernel_id())
    &&& l@.kernel_state_file == path_join2(l@.kernel_dir, "config"@, "state.json"@)
    &&& l@.socket_file == path_join(runtime_root, "kernel.sock"@)
    &&& l@.pid_file == path_join(runtime_root, "kernel.pid"@)
    &&& l@.logs_dir == path_join(runtime_root, "logs"@)
}

impl Layout {
    /// The workspace root, the runtime directory and the logs directory are
    /// absolute.
    #[verifier::type_invariant]
    pub closed spec fn absolute(&self) -> bool {
        &&& is_absolute_path(self.root@)
        &&& is_absolute_path(self.runtime_root@)
        &&& is_absolute_path(self.logs_dir@)
    }

    /// The workspace root.
    pub fn root(&self) -> (r: &String)
        ensures
            r@ == self@.root,
            is_absolute_path(r@),
    {
        proof {
            use_type_invariant(self);
        }
        &self.root
    }

    /// The runtime directory.
    pub fn runtime_root(&self) -> (r: &String)
        ensures
            r@ == self@.runtime_root,
            is_absolute_path(r@),
    {
        proof {
            use_type_invariant(self);
        }
        &self.runtime_root
    }

    /// The kernel plugin's directory.
    pub fn kernel_dir(&self) -> (r: &String)
        ensures
            r@ == self@.kernel_dir,
    {
        &self.kernel_dir
    }

    /// The kernel state file.
    pub fn kernel_state_file(&self) -> (r: &String)
        ensures
            r@ == self@.kernel_state_file,
    {
        &self.kernel_state_file
    }

    /// The control socket.
    pub fn socket_file(&self) -> (r: &String)
        ensures
            r@ == self@.socket_file,
    {
        &self.socket_file
    }

    /// The daemon's PID file.
    pub fn pid_file(&self) -> (r: &String)
        ensures
            r@ == self@.pid_file,
    {
        &self.pid_file
    }

    /// The directory of the plugins' logs.
    pub fn logs_dir(&self) -> (r: &String)
        ensures
            r@ == self@.logs_dir,
            is_absolute_path(r@),
    {
        proof {
            use_type_invariant(self);
        }
        &self.logs_dir
    }

    /// The layout of the workspace `root` with runtime files under
    /// `runtime_root`, both absolute paths.
    pub fn new(root: String, runtime_root: String) -> (l: Layout)
        requires
            is_absolute_path(root@),
            is_absolute_path(runtime_root@),
        ensures
            laid_out(l, root@, runtime_root@),
    {
        proof {
            lemma_join_keeps_absolute(runtime_root@, "logs"@);
        }
        let kernel_dir = join_path(root.as_str(), KERNEL_PLUGIN_ID);
        let config_dir = join_path(kernel_dir.as_str(), "config");
        let kernel_state_file = join_path(config_dir.as_str(), "state.json");
        let socket_file = join_path(runtime_root.as_str(), "kernel.sock");
        let pid_file = join_path(runtime_root.as_str(), "kernel.pid");
        let logs_dir = join_path(runtime_root.as_str(), "logs");
        Layout { root, runtime_root, kernel_dir, kernel_state_file, socket_file, pid_file, logs_dir }
    }

    /// The layout of the workspace `root` with runtime files under
    /// `runtime_root`, each taken from the directory `cwd` when relative, so
    /// that every path of the layout is absolute.
    pub fn in_directory(cwd: &str, root: &str, runtime_root: &str) -> (l: Layout)
        requires
            is_absolute_path(cwd@),
        ensures
            laid_out(l, path_join(cwd@, root@), path_join(cwd@, runtime_root@)),
            is_absolute_path(l@.root),
            is_absolute_path(l@.runtime_root),
            is_absolute_path(l@.logs_dir),
    {
        proof {
            lemma_join_keeps_absolute(cwd@, root@);
            lemma_join_keeps_absolute(cwd@, runtime_root@);
            lemma_join_keeps_absolute(path_join(cwd@, runtime_root@), "logs"@);
        }
        Layout::new(join_path(cwd, root), join_path(cwd, runtime_root))
    }

    /// The directory of a plugin: a first-level directory of the workspace.
    pub fn plugin_dir(&self, id: &str) -> (r: String)
        ensures
            r@ == path_join(self@.root, id@),
    {
        join_path(self.root.as_str(), id)
    }

    /// The plugin's own settings file, `<plugin>/config/main.json`.
    pub fn plugin_config_file(&self, id: &str) -> (r: String)
        ensures
            r@ == path_join2(path_join(self@.root, id@), "config"@, "main.json"@),
    {
        let dir = self.plugin_dir(id);
        let config = join_path(dir.as_str(), "config");
        join_path(config.as_str(), "main.json")
    }

    /// The log file of a plugin's process, `<logs>/<id>.log`.
    pub fn plugin_log(&self, id: &str) -> (r: String)
        ensures
            r@ == path_join(self@.logs_dir, log_name(id@)),
    {
        let mut name = id.to_owned();
        name.append(".log");
        join_path(self.logs_dir.as_str(), name.as_str())
    }

    /// Checks a kernel state before it is written and names the file it
    /// goes to; only a valid state is written.
    pub fn write_kernel_state(&self, state: &KernelState) -> (r: Result<String, KernelError>)
        ensures
            match r {
                Ok(path) => state.failure() is None && path@ == self@.kernel_state_file,
                Err(e) => state.failure() == Some(e@),
            },
    {
        match state.validate() {
            Ok(()) => Ok(self.kernel_state_file.clone()),
            Err(e) => Err(e),
        }
    }

    /// Checks a plugin's settings before they are written and names the file
    /// they go to; only valid settings are written.
    pub fn write_plugin_settings(&self, id: &str, settings: &PluginSettings) -> (r: Result<
        String,
        KernelError,
    >)
        ensures
            match r {
                Ok(path) => settings.failure() is None && path@ == path_join2(
                    path_join(self@.root, id@),
                    "config"@,
                    "main.json"@,
                ),
                Err(e) => settings.failure() == Some(e@),
            },
    {
        match settings.validate() {
            Ok(()) => Ok(self.plugin_config_file(id)),
            Err(e) => Err(e),
        }
    }

    /// Opening the workspace needs its root to be a directory.
    pub fn check_root(&self, is_dir: bool) -> (r: Result<(), KernelError>)
        ensures
            failure_of(r) == (if is_dir {
                None
            } else {
                Some(ErrorView::InvalidData("EasOS workspace does not exist: "@ + self@.root))
            }),
    {
        if is_dir {
            Ok(())
        } else {
            let mut m = "EasOS workspace does not exist: ".to_owned();
            m.append(self.root.as_str());
            Err(KernelError::InvalidData(m))
        }
    }

    /// What to do with a socket file found when the daemon opens its socket:
    /// nothing when there is none; when a daemon answers on it, refuse to
    /// start; otherwise remove it as stale (`Ok(true)`).
    pub fn check_socket(&self, exists: bool, answers: bool) -> (r: Result<bool, KernelError>)
        ensures
            !exists ==> r == Ok::<bool, KernelError>(false),
            exists && !answers ==> r == Ok::<bool, KernelError>(true),
            exists && answers ==> (r matches Err(e) && e@ == ErrorView::Unavailable(
                "another daemon is already listening on "@ + self@.socket_file,
            )),
    {
        if !exists {
            return Ok(false);
        }
        if answers {
            let mut m = "another daemon is already listening on ".to_owned();
            m.append(self.socket_file.as_str());
            return Err(KernelError::Unavailable(m));
        }
        Ok(true)
    }

    /// Opening the workspace needs the kernel plugin's `bin/` directory.
    pub fn check_kernel_bin(&self, is_dir: bool) -> (r: Result<(), KernelError>)
        ensures
            failure_of(r) == (if is_dir {
                None
            } else {
                Some(ErrorView::InvalidData("kernel plugin is missing bin/"@))
            }),
    {
        if is_dir {
            Ok(())
        } else {
            Err(KernelError::InvalidData("kernel plugin is missing bin/".to_owned()))
        }
    }

    /// Checks the manifest found in the kernel's own directory when the
    /// workspace is opened: it must be valid and carry the kernel's id.
    pub fn check_kernel_manifest(&self, manifest: &PluginManifest) -> (r: Result<(), KernelError>)
        ensures
            failure_of(r) == kernel_manifest_failure(manifest),
    {
        if let Err(e) = manifest.validate() {
            return Err(e);
        }
        if !text_eq(manifest.id.as_str(), KERNEL_PLUGIN_ID) {
            return Err(KernelError::InvalidData("kernel manifest id must be \"kernel\"".to_owned()));
        }
        Ok(())
    }
}

} // verus!
