//! A control command as a sequence of steps. The library decides each step;
//! the daemon performs the outside work a step asks for (reading and writing
//! files, spawning and signalling processes) and hands back what came of it.
use vstd::prelude::*;
use vstd::string::*;

use crate::error::{ErrorView, KernelError};
use crate::kernel::{
    check_stop, check_uninstall, dependents_among, ensure_mutable, inventory, is_config_key, listed,
    plugin_view, plugins_to_start, require_manifest, required_by_error, running_among,
    running_dependents_error, running_error, set_autostart, start_sequence, validate_config_key,
    viewed,
};
use crate::layout::Layout;
use crate::model::{copy_json, kernel_id, manifest_failure, KernelState, PluginManifest, PluginSettings};
use crate::textmap::copy_text_map;
use crate::process::{exit_code, plan_for, LaunchPlan, ManagedProcess, ProcessManager};
use crate::protocol::{ControlCommand, ControlData};
use crate::registry::{
    admit_install, check_install_destination, check_install_source, loaded, manifest_path,
    uninstall_target, RegistrySnapshot,
};
use crate::text::texts;

verus! {

/// A change to one setting of a plugin.
pub enum Edit {
    Put { key: String, value: serde_json::Value },
    Delete { key: String },
}

/// Where a command stands: what it waits for and what it has learnt so far.
pub enum Session {
    /// Reporting on plugin `id`: waits for the workspace scan.
    PluginScan { id: String },
    /// Reporting on plugin `id`: waits for the kernel state.
    PluginState { id: String, snapshot: RegistrySnapshot },
    /// Reporting on plugin `id`: waits for its settings.
    PluginSettings { id: String, snapshot: RegistrySnapshot, state: KernelState },
    /// Listing the plugins: waits for the workspace scan.
    ListScan,
    /// Listing the plugins: waits for the kernel state.
    ListState { snapshot: RegistrySnapshot },
    /// Listing the plugins: waits for the settings of every plugin.
    ListSettings { snapshot: RegistrySnapshot, state: KernelState },
    /// Installing from `source`: waits to learn whether it is a directory.
    InstallSource { source: String },
    /// Installing from `source`: waits for the package's manifest.
    InstallManifest { source: String },
    /// Installing plugin `id` from `source`: waits to learn whether its
    /// directory already exists.
    InstallTarget { source: String, id: String },
    /// Installing plugin `id`: waits for the package to be copied into place.
    Copying { id: String },
    /// Uninstalling `id`: waits for the workspace scan.
    UninstallScan { id: String },
    /// Uninstalling `id`: waits for its directory to be removed.
    Removing { id: String },
    /// Uninstalling `id`: waits for the kernel state.
    UninstallState { id: String },
    /// Uninstalling `id`: waits for the kernel state to be written.
    UninstallWrite { id: String },
    /// Starting `id`: waits for the workspace scan.
    StartScan { id: String },
    /// Starting `id`: waits for the process of `plan_id` to be spawned;
    /// `pending` are the plugins still to start after it, in order.
    Launching { id: String, snapshot: RegistrySnapshot, pending: Vec<String>, plan_id: String, stop_timeout_ms: u64 },
    /// Stopping `id`: waits for the workspace scan.
    StopScan { id: String },
    /// Stopping `id`: waits for its process to end.
    Stopping { id: String },
    /// Turning autostart of `id` on or off: waits for the workspace scan.
    AutostartScan { id: String, enabled: bool },
    /// Turning autostart of `id` on or off: waits for the kernel state.
    AutostartState { id: String, enabled: bool },
    /// Turning autostart of `id` on or off: waits for the state to be written.
    AutostartWrite { id: String },
    /// Reading the settings of `id`: waits for the workspace scan.
    ConfigScan { id: String },
    /// Reading the settings of `id`: waits for them.
    ConfigRead { id: String },
    /// Changing a setting of `id`: waits for the workspace scan.
    EditScan { id: String, edit: Edit },
    /// Changing a setting of `id`: waits for its settings.
    EditRead { id: String, edit: Edit },
    /// Changing a setting: waits for the edited settings to be written; a
    /// copy of them is kept to answer with.
    EditWrite { settings: PluginSettings },
    /// The command has been answered.
    Finished,
}

/// The outside work a step asks for, or the answer to the command.
pub enum Action {
    /// Scan the workspace.
    Scan,
    /// Read the kernel state file.
    ReadState,
    /// Read the settings file of each of these plugins, in order.
    ReadSettings(Vec<String>),
    /// Write this kernel state to this file.
    WriteState(String, KernelState),
    /// Write these settings to this file.
    WriteSettings(String, PluginSettings),
    /// Tell whether this path is a directory.
    IsDirectory(String),
    /// Tell whether this path exists.
    Exists(String),
    /// Read and parse the manifest file at this path.
    ReadManifest(String),
    /// Copy the package at `source` into the workspace as the directory of
    /// plugin `id`, at `destination`.
    CopyPackage { source: String, id: String, destination: String },
    /// Remove the directory of a plugin: the plugin's id, then the path.
    Remove(String, String),
    /// Spawn the process this plan describes.
    Launch(LaunchPlan),
    /// Ask this process to end, and wait for it.
    Terminate(ManagedProcess),
    /// The command is answered.
    Done(Result<ControlData, KernelError>),
}

/// What came of the outside work.
pub enum Event {
    Scanned(Result<RegistrySnapshot, KernelError>),
    StateRead(Result<KernelState, KernelError>),
    SettingsRead(Vec<Result<PluginSettings, KernelError>>),
    StateWritten(Result<(), KernelError>),
    SettingsWritten(Result<(), KernelError>),
    /// Whether the path asked about is a directory, or exists.
    Checked(bool),
    ManifestRead(Result<PluginManifest, KernelError>),
    Copied(Result<(), KernelError>),
    Removed(Result<(), KernelError>),
    Launched(Result<tokio::process::Child, KernelError>),
    /// The exit code of the process that was asked to end, `None` where a
    /// signal ended it.
    Terminated(Result<Option<i32>, KernelError>),
}

/// The command is answered with the error `e`.
pub open spec fn fails_with(next: Session, act: Action, e: ErrorView) -> bool {
    &&& next is Finished
    &&& act matches Action::Done(Err(x))
    &&& x@ == e
}

/// The command is answered with the error `e` as it was handed in.
pub open spec fn passes_on(next: Session, act: Action, e: KernelError) -> bool {
    &&& next is Finished
    &&& act == Action::Done(Err::<ControlData, KernelError>(e))
}

/// The error of an event that does not fit the step.
pub open spec fn unexpected_error() -> ErrorView {
    ErrorView::Internal("unexpected event for the command's step"@)
}

/// The id that a command changes, for the commands that change a plugin.
pub open spec fn changed_plugin(c: ControlCommand) -> Option<Seq<char>> {
    match c {
        ControlCommand::Uninstall { id } => Some(id@),
        ControlCommand::Start { id } => Some(id@),
        ControlCommand::Stop { id } => Some(id@),
        ControlCommand::SetAutostart { id, .. } => Some(id@),
        ControlCommand::SetConfig { id, .. } => Some(id@),
        ControlCommand::UnsetConfig { id, .. } => Some(id@),
        _ => None,
    }
}

/// The first step of a command: what it waits for, or its answer when the
/// command is refused outright.
pub open spec fn opening(c: ControlCommand, next: Session, act: Action) -> bool {
    if changed_plugin(c) == Some(kernel_id()) {
        fails_with(next, act, ErrorView::Protected(kernel_id()))
    } else {
        match c {
            ControlCommand::List => next is ListScan && act is Scan,
            ControlCommand::Status { id } => next == Session::PluginScan { id } && act is Scan,
            ControlCommand::Install { source } => {
                &&& next == Session::InstallSource { source }
                &&& act matches Action::IsDirectory(path)
                &&& path@ == source@
            },
            ControlCommand::Uninstall { id } => next == Session::UninstallScan { id } && act is Scan,
            ControlCommand::Start { id } => next == Session::StartScan { id } && act is Scan,
            ControlCommand::Stop { id } => next == Session::StopScan { id } && act is Scan,
            ControlCommand::SetAutostart { id, enabled } => next == Session::AutostartScan { id, enabled }
                && act is Scan,
            ControlCommand::GetConfig { id } => next == Session::ConfigScan { id } && act is Scan,
            ControlCommand::SetConfig { id, key, value } => if is_config_key(key@) {
                next == Session::EditScan { id, edit: Edit::Put { key, value } } && act is Scan
            } else {
                fails_with(next, act, ErrorView::InvalidData("config key must be 1-128 non-whitespace characters"@))
            },
            ControlCommand::UnsetConfig { id, key } => if is_config_key(key@) {
                next == Session::EditScan { id, edit: Edit::Delete { key } } && act is Scan
            } else {
                fails_with(next, act, ErrorView::InvalidData("config key must be 1-128 non-whitespace characters"@))
            },
        }
    }
}

fn refuse(e: KernelError) -> (r: (Session, Action))
    ensures
        passes_on(r.0, r.1, e),
{
    (Session::Finished, Action::Done(Err(e)))
}

/// Starts a command. A command that would change the kernel plugin is
/// refused before anything else happens, and so is a setting change with an
/// invalid key.
pub fn begin(command: ControlCommand) -> (r: (Session, Action))
    ensures
        opening(command, r.0, r.1),
{
    proof {
        reveal_strlit("kernel");
    }
    match command {
        ControlCommand::List => (Session::ListScan, Action::Scan),
        ControlCommand::Status { id } => (Session::PluginScan { id }, Action::Scan),
        ControlCommand::Install { source } => {
            let path = source.clone();
            (Session::InstallSource { source }, Action::IsDirectory(path))
        },
        ControlCommand::Uninstall { id } => match ensure_mutable(id.as_str()) {
            Err(e) => refuse(e),
            Ok(()) => (Session::UninstallScan { id }, Action::Scan),
        },
        ControlCommand::Start { id } => match ensure_mutable(id.as_str()) {
            Err(e) => refuse(e),
            Ok(()) => (Session::StartScan { id }, Action::Scan),
        },
        ControlCommand::Stop { id } => match ensure_mutable(id.as_str()) {
            Err(e) => refuse(e),
            Ok(()) => (Session::StopScan { id }, Action::Scan),
        },
        ControlCommand::SetAutostart { id, enabled } => match ensure_mutable(id.as_str()) {
            Err(e) => refuse(e),
            Ok(()) => (Session::AutostartScan { id, enabled }, Action::Scan),
        },
        ControlCommand::GetConfig { id } => (Session::ConfigScan { id }, Action::Scan),
        ControlCommand::SetConfig { id, key, value } => {
            if let Err(e) = ensure_mutable(id.as_str()) {
                return refuse(e);
            }
            if let Err(e) = validate_config_key(key.as_str()) {
                return refuse(e);
            }
            (Session::EditScan { id, edit: Edit::Put { key, value } }, Action::Scan)
        },
        ControlCommand::UnsetConfig { id, key } => {
            if let Err(e) = ensure_mutable(id.as_str()) {
                return refuse(e);
            }
            if let Err(e) = validate_config_key(key.as_str()) {
                return refuse(e);
            }
            (Session::EditScan { id, edit: Edit::Delete { key } }, Action::Scan)
        },
    }
}

// ---------------------------------------------------------------------------
// Reports

/// The error of a settings read that did not bring one result per plugin.
pub open spec fn unread_settings_error() -> ErrorView {
    ErrorView::Internal("settings were not read for every plugin"@)
}

/// The command is answered with the report on one plugin.
pub open spec fn answers_view(
    act: Action,
    layout: &Layout,
    m: &PluginManifest,
    state: &KernelState,
    processes: &ProcessManager,
    settings: Result<PluginSettings, KernelError>,
) -> bool {
    act matches Action::Done(r) && match r {
        Ok(d) => d matches ControlData::Plugin(v) && viewed(Ok(v), layout, m, state, processes, settings),
        Err(e) => viewed(Err(e), layout, m, state, processes, settings),
    }
}

/// The command is answered with the report on every plugin.
pub open spec fn answers_list(
    act: Action,
    layout: &Layout,
    snapshot: RegistrySnapshot,
    state: &KernelState,
    processes: &ProcessManager,
    settings: Seq<Result<PluginSettings, KernelError>>,
) -> bool {
    act matches Action::Done(r) && match r {
        Ok(d) => d matches ControlData::Inventory(inv) && listed(Ok(inv), layout, snapshot, state, processes, settings),
        Err(e) => listed(Err(e), layout, snapshot, state, processes, settings),
    }
}

/// The kernel state has been read and ended processes collected: a failed
/// collection answers the command with its I/O error, otherwise the
/// command goes on to `next` with `act`.
pub open spec fn refreshed_then(
    next: Session,
    act: Action,
    p0: ProcessManager,
    p1: ProcessManager,
    then_next: Session,
    then_act: spec_fn(Action) -> bool,
) -> bool {
    ||| {
        &&& p1.same_table(p0)
        &&& next is Finished
        &&& act matches Action::Done(Err(x))
        &&& x is Io
    }
    ||| {
        &&& p1.refreshed_from(p0)
        &&& next == then_next
        &&& then_act(act)
    }
}

/// Reporting on `id`, the scan has come.
pub open spec fn plugin_scan_step(id: String, ev: Event, next: Session, act: Action) -> bool {
    match ev {
        Event::Scanned(Err(e)) => passes_on(next, act, e),
        Event::Scanned(Ok(s)) => if s.manifests@.contains_key(id@) {
            next == Session::PluginState { id, snapshot: s } && act is ReadState
        } else {
            fails_with(next, act, ErrorView::NotFound(id@))
        },
        _ => fails_with(next, act, unexpected_error()),
    }
}

/// Reporting on `id`, the kernel state has come.
pub open spec fn plugin_state_step(
    id: String,
    snapshot: RegistrySnapshot,
    ev: Event,
    next: Session,
    act: Action,
    p0: ProcessManager,
    p1: ProcessManager,
) -> bool {
    match ev {
        Event::StateRead(Err(e)) => passes_on(next, act, e) && p1 == p0,
        Event::StateRead(Ok(st)) => refreshed_then(
            next,
            act,
            p0,
            p1,
            Session::PluginSettings { id, snapshot, state: st },
            |a: Action| a matches Action::ReadSettings(ids) && texts(ids@) == seq![id@],
        ),
        _ => fails_with(next, act, unexpected_error()) && p1 == p0,
    }
}

/// Reporting on `id`, its settings have come.
pub open spec fn plugin_settings_step(
    id: String,
    snapshot: RegistrySnapshot,
    state: KernelState,
    ev: Event,
    next: Session,
    act: Action,
    layout: &Layout,
    p: ProcessManager,
) -> bool {
    match ev {
        Event::SettingsRead(v) => if v@.len() != 1 {
            fails_with(next, act, unread_settings_error())
        } else if !snapshot.manifests@.contains_key(id@) {
            fails_with(next, act, ErrorView::NotFound(id@))
        } else {
            next is Finished && answers_view(act, layout, &snapshot.manifests@[id@], &state, &p, v@[0])
        },
        _ => fails_with(next, act, unexpected_error()),
    }
}

/// Listing, the scan has come.
pub open spec fn list_scan_step(ev: Event, next: Session, act: Action) -> bool {
    match ev {
        Event::Scanned(Err(e)) => passes_on(next, act, e),
        Event::Scanned(Ok(s)) => next == Session::ListState { snapshot: s } && act is ReadState,
        _ => fails_with(next, act, unexpected_error()),
    }
}

/// Listing, the kernel state has come.
pub open spec fn list_state_step(
    snapshot: RegistrySnapshot,
    ev: Event,
    next: Session,
    act: Action,
    p0: ProcessManager,
    p1: ProcessManager,
) -> bool {
    match ev {
        Event::StateRead(Err(e)) => passes_on(next, act, e) && p1 == p0,
        Event::StateRead(Ok(st)) => refreshed_then(
            next,
            act,
            p0,
            p1,
            Session::ListSettings { snapshot, state: st },
            |a: Action| a matches Action::ReadSettings(ids) && texts(ids@) == snapshot.manifests.keys(),
        ),
        _ => fails_with(next, act, unexpected_error()) && p1 == p0,
    }
}

/// Listing, the settings of every plugin have come.
pub open spec fn list_settings_step(
    snapshot: RegistrySnapshot,
    state: KernelState,
    ev: Event,
    next: Session,
    act: Action,
    layout: &Layout,
    p: ProcessManager,
) -> bool {
    match ev {
        Event::SettingsRead(v) => if v@.len() != snapshot.manifests.keys().len() {
            fails_with(next, act, unread_settings_error())
        } else {
            next is Finished && answers_list(act, layout, snapshot, &state, &p, v@)
        },
        _ => fails_with(next, act, unexpected_error()),
    }
}

fn unexpected() -> (r: (Session, Action))
    ensures
        fails_with(r.0, r.1, unexpected_error()),
{
    (Session::Finished, Action::Done(Err(KernelError::Internal("unexpected event for the command's step".to_owned()))))
}

fn unread_settings() -> (r: (Session, Action))
    ensures
        fails_with(r.0, r.1, unread_settings_error()),
{
    (Session::Finished, Action::Done(Err(KernelError::Internal("settings were not read for every plugin".to_owned()))))
}

/// The ids of the installed plugins, in order.
fn manifest_ids(snapshot: &RegistrySnapshot) -> (r: Vec<String>)
    ensures
        texts(r@) == snapshot.manifests.keys(),
{
    let n: usize = snapshot.manifests.len();
    let mut r: Vec<String> = Vec::new();
    let mut i: usize = 0;
    while i < n
        invariant
            n == snapshot.manifests.keys().len(),
            i <= n,
            texts(r@) == snapshot.manifests.keys().take(i as int),
        decreases n - i,
    {
        let ghost before = texts(r@);
        r.push(snapshot.manifests.key_at(i).clone());
        assert(texts(r@) =~= before.push(snapshot.manifests.keys()[i as int]));
        assert(snapshot.manifests.keys().take(i + 1) =~= snapshot.manifests.keys().take(i as int).push(
            snapshot.manifests.keys()[i as int],
        ));
        i = i + 1;
    }
    assert(snapshot.manifests.keys().take(n as int) =~= snapshot.manifests.keys());
    r
}

fn on_plugin_scan(id: String, ev: Event) -> (r: (Session, Action))
    ensures
        plugin_scan_step(id, ev, r.0, r.1),
{
    match ev {
        Event::Scanned(Err(e)) => refuse(e),
        Event::Scanned(Ok(s)) => {
            if let Err(e) = require_manifest(&s, id.as_str()) {
                return refuse(e);
            }
            (Session::PluginState { id, snapshot: s }, Action::ReadState)
        },
        _ => unexpected(),
    }
}

fn on_plugin_state(id: String, snapshot: RegistrySnapshot, ev: Event, processes: &mut ProcessManager) -> (r: (Session, Action))
    ensures
        plugin_state_step(id, snapshot, ev, r.0, r.1, *old(processes), *final(processes)),
{
    match ev {
        Event::StateRead(Err(e)) => refuse(e),
        Event::StateRead(Ok(st)) => {
            if let Err(e) = processes.refresh() {
                return refuse(e);
            }
            let ids = vec![id.clone()];
            assert(texts(ids@) =~= seq![id@]);
            (Session::PluginSettings { id, snapshot, state: st }, Action::ReadSettings(ids))
        },
        _ => unexpected(),
    }
}

fn on_plugin_settings(
    id: String,
    snapshot: RegistrySnapshot,
    state: KernelState,
    ev: Event,
    processes: &ProcessManager,
    layout: &Layout,
) -> (r: (Session, Action))
    ensures
        plugin_settings_step(id, snapshot, state, ev, r.0, r.1, layout, *processes),
{
    match ev {
        Event::SettingsRead(mut v) => {
            if v.len() != 1 {
                return unread_settings();
            }
            let settings = v.remove(0);
            let m = match require_manifest(&snapshot, id.as_str()) {
                Ok(m) => m,
                Err(e) => return refuse(e),
            };
            match plugin_view(layout, m, &state, processes, settings) {
                Ok(view) => (Session::Finished, Action::Done(Ok(ControlData::Plugin(view)))),
                Err(e) => refuse(e),
            }
        },
        _ => unexpected(),
    }
}

fn on_list_scan(ev: Event) -> (r: (Session, Action))
    ensures
        list_scan_step(ev, r.0, r.1),
{
    match ev {
        Event::Scanned(Err(e)) => refuse(e),
        Event::Scanned(Ok(s)) => (Session::ListState { snapshot: s }, Action::ReadState),
        _ => unexpected(),
    }
}

fn on_list_state(snapshot: RegistrySnapshot, ev: Event, processes: &mut ProcessManager) -> (r: (Session, Action))
    ensures
        list_state_step(snapshot, ev, r.0, r.1, *old(processes), *final(processes)),
{
    match ev {
        Event::StateRead(Err(e)) => refuse(e),
        Event::StateRead(Ok(st)) => {
            if let Err(e) = processes.refresh() {
                return refuse(e);
            }
            let ids = manifest_ids(&snapshot);
            (Session::ListSettings { snapshot, state: st }, Action::ReadSettings(ids))
        },
        _ => unexpected(),
    }
}

fn on_list_settings(
    snapshot: RegistrySnapshot,
    state: KernelState,
    ev: Event,
    processes: &ProcessManager,
    layout: &Layout,
) -> (r: (Session, Action))
    ensures
        list_settings_step(snapshot, state, ev, r.0, r.1, layout, *processes),
{
    match ev {
        Event::SettingsRead(v) => {
            if v.len() != snapshot.manifests.len() {
                return unread_settings();
            }
            proof {
                use_type_invariant(&snapshot.manifests);
                snapshot.manifests.lemma_view();
            }
            match inventory(layout, snapshot, &state, processes, v) {
                Ok(inv) => (Session::Finished, Action::Done(Ok(ControlData::Inventory(inv)))),
                Err(e) => refuse(e),
            }
        },
        _ => unexpected(),
    }
}

// ---------------------------------------------------------------------------
// Installing and uninstalling

/// `p1` is `p0` with the last exit of `id` forgotten.
pub open spec fn forgot(p0: ProcessManager, p1: ProcessManager, id: Seq<char>) -> bool {
    &&& p1.exits() == p0.exits().remove(id)
    &&& p1.running_ids() == p0.running_ids()
    &&& p1.stop_timeouts() == p0.stop_timeouts()
}

/// Installing from `source`: a package must be a directory; then its
/// manifest is read.
pub open spec fn install_source_step(source: String, ev: Event, next: Session, act: Action) -> bool {
    match ev {
        Event::Checked(is_dir) => if is_dir {
            &&& next == Session::InstallManifest { source }
            &&& act matches Action::ReadManifest(path)
            &&& path@ == crate::layout::path_join2(source@, "manifest"@, "main.json"@)
        } else {
            fails_with(next, act, ErrorView::InvalidData("plugin source is not a directory: "@ + source@))
        },
        _ => fails_with(next, act, unexpected_error()),
    }
}

/// Installing from `source`, the manifest has come: it must load and must
/// not claim the kernel's id; then the plugin's directory is looked for.
pub open spec fn install_manifest_step(source: String, ev: Event, next: Session, act: Action, layout: &Layout) -> bool {
    match ev {
        Event::ManifestRead(parsed) => match loaded(parsed) {
            Err(e) => fails_with(next, act, e),
            Ok(m) => if m.id@ == kernel_id() {
                fails_with(next, act, ErrorView::Protected(kernel_id()))
            } else {
                &&& next matches Session::InstallTarget { source: s2, id }
                &&& s2 == source
                &&& id@ == m.id@
                &&& act matches Action::Exists(path)
                &&& path@ == crate::path::path_join(layout@.root, m.id@)
            },
        },
        _ => fails_with(next, act, unexpected_error()),
    }
}

/// Installing plugin `id` from `source`: an installed plugin is never
/// replaced; otherwise the package is copied into place.
pub open spec fn install_target_step(source: String, id: String, ev: Event, next: Session, act: Action, layout: &Layout) -> bool {
    match ev {
        Event::Checked(exists) => if exists {
            fails_with(next, act, ErrorView::AlreadyExists(id@))
        } else {
            &&& next matches Session::Copying { id: cid }
            &&& cid == id
            &&& act matches Action::CopyPackage { source: src, id: pid, destination }
            &&& src == source
            &&& pid@ == id@
            &&& destination@ == crate::path::path_join(layout@.root, id@)
        },
        _ => fails_with(next, act, unexpected_error()),
    }
}

/// Installing plugin `id`, the package has been copied: a new plugin starts
/// with no exit on record, and the answer reports on it.
pub open spec fn copying_step(id: String, ev: Event, next: Session, act: Action, p0: ProcessManager, p1: ProcessManager) -> bool {
    match ev {
        Event::Copied(Err(e)) => passes_on(next, act, e) && p1 == p0,
        Event::Copied(Ok(())) => {
            &&& forgot(p0, p1, id@)
            &&& next == Session::PluginScan { id }
            &&& act is Scan
        },
        _ => fails_with(next, act, unexpected_error()) && p1 == p0,
    }
}

/// Uninstalling `id`, the scan has come: the plugin must be installed, not
/// running once ended processes are collected, and required by no plugin;
/// then its directory is removed.
pub open spec fn uninstall_scan_step(
    id: String,
    ev: Event,
    next: Session,
    act: Action,
    p0: ProcessManager,
    p1: ProcessManager,
    layout: &Layout,
) -> bool {
    match ev {
        Event::Scanned(Err(e)) => passes_on(next, act, e) && p1 == p0,
        Event::Scanned(Ok(s)) => if !s.manifests@.contains_key(id@) {
            fails_with(next, act, ErrorView::NotFound(id@)) && p1.same_table(p0)
        } else {
            let dependents = dependents_among(s.manifests.values(), id@);
            ||| {
                &&& p1.same_table(p0)
                &&& next is Finished
                &&& act matches Action::Done(Err(x))
                &&& x is Io
            }
            ||| {
                &&& p1.refreshed_from(p0)
                &&& if p1.running_ids().contains(id@) {
                    fails_with(next, act, running_error(id@))
                } else if dependents.len() > 0 {
                    fails_with(next, act, required_by_error(id@, dependents))
                } else if id@ == kernel_id() {
                    fails_with(next, act, ErrorView::Protected(id@))
                } else {
                    &&& next == Session::Removing { id }
                    &&& act matches Action::Remove(rid, path)
                    &&& rid@ == id@
                    &&& path@ == crate::path::path_join(layout@.root, id@)
                }
            }
        },
        _ => fails_with(next, act, unexpected_error()) && p1 == p0,
    }
}

/// Uninstalling `id`, its directory has been removed.
pub open spec fn removing_step(id: String, ev: Event, next: Session, act: Action) -> bool {
    match ev {
        Event::Removed(Err(e)) => passes_on(next, act, e),
        Event::Removed(Ok(())) => next == Session::UninstallState { id } && act is ReadState,
        _ => fails_with(next, act, unexpected_error()),
    }
}

/// `w` is the kernel state `st` with autostart of `id` turned on or off.
pub open spec fn with_autostart(w: KernelState, st: KernelState, id: Seq<char>, enabled: bool) -> bool {
    &&& w.schema_version == st.schema_version
    &&& w.autostart@ == if enabled {
        st.autostart@.insert(id)
    } else {
        st.autostart@.remove(id)
    }
}

/// The kernel state `st` has been read; autostart of `id` is turned on or
/// off, and the state is written to the kernel state file if it is valid.
pub open spec fn writes_autostart(
    id: Seq<char>,
    enabled: bool,
    st: KernelState,
    then_next: Session,
    next: Session,
    act: Action,
    layout: &Layout,
) -> bool {
    ||| {
        &&& next == then_next
        &&& act matches Action::WriteState(path, w)
        &&& path@ == layout@.kernel_state_file
        &&& with_autostart(w, st, id, enabled)
        &&& w.failure() is None
    }
    ||| {
        &&& next is Finished
        &&& act matches Action::Done(Err(x))
        &&& exists|w: KernelState| #[trigger] with_autostart(w, st, id, enabled) && w.failure() == Some(x@)
    }
}

/// Uninstalling `id`, the kernel state has come: `id` leaves the autostart
/// list.
pub open spec fn uninstall_state_step(id: String, ev: Event, next: Session, act: Action, layout: &Layout) -> bool {
    match ev {
        Event::StateRead(Err(e)) => passes_on(next, act, e),
        Event::StateRead(Ok(st)) => writes_autostart(id@, false, st, Session::UninstallWrite { id }, next, act, layout),
        _ => fails_with(next, act, unexpected_error()),
    }
}

/// Uninstalling `id`, the kernel state has been written: its last exit is
/// forgotten and the answer lists the plugins.
pub open spec fn uninstall_write_step(
    id: String,
    ev: Event,
    next: Session,
    act: Action,
    p0: ProcessManager,
    p1: ProcessManager,
) -> bool {
    match ev {
        Event::StateWritten(Err(e)) => passes_on(next, act, e) && p1 == p0,
        Event::StateWritten(Ok(())) => forgot(p0, p1, id@) && next is ListScan && act is Scan,
        _ => fails_with(next, act, unexpected_error()) && p1 == p0,
    }
}

fn on_install_source(source: String, ev: Event) -> (r: (Session, Action))
    ensures
        install_source_step(source, ev, r.0, r.1),
{
    match ev {
        Event::Checked(is_dir) => match check_install_source(source.as_str(), is_dir) {
            Err(e) => refuse(e),
            Ok(()) => {
                let path = manifest_path(source.as_str());
                (Session::InstallManifest { source }, Action::ReadManifest(path))
            },
        },
        _ => unexpected(),
    }
}

fn on_install_manifest(source: String, ev: Event, layout: &Layout) -> (r: (Session, Action))
    ensures
        install_manifest_step(source, ev, r.0, r.1, layout),
{
    match ev {
        Event::ManifestRead(parsed) => match admit_install(parsed) {
            Err(e) => refuse(e),
            Ok(m) => {
                let path = layout.plugin_dir(m.id.as_str());
                (Session::InstallTarget { source, id: m.id }, Action::Exists(path))
            },
        },
        _ => unexpected(),
    }
}

fn on_install_target(source: String, id: String, ev: Event, layout: &Layout) -> (r: (Session, Action))
    ensures
        install_target_step(source, id, ev, r.0, r.1, layout),
{
    match ev {
        Event::Checked(exists) => match check_install_destination(id.as_str(), exists) {
            Err(e) => refuse(e),
            Ok(()) => {
                let destination = layout.plugin_dir(id.as_str());
                let package = id.clone();
                (Session::Copying { id }, Action::CopyPackage { source, id: package, destination })
            },
        },
        _ => unexpected(),
    }
}

fn on_copying(id: String, ev: Event, processes: &mut ProcessManager) -> (r: (Session, Action))
    ensures
        copying_step(id, ev, r.0, r.1, *old(processes), *final(processes)),
{
    match ev {
        Event::Copied(Err(e)) => refuse(e),
        Event::Copied(Ok(())) => {
            processes.forget(id.as_str());
            (Session::PluginScan { id }, Action::Scan)
        },
        _ => unexpected(),
    }
}

fn on_uninstall_scan(id: String, ev: Event, processes: &mut ProcessManager, layout: &Layout) -> (r: (Session, Action))
    ensures
        uninstall_scan_step(id, ev, r.0, r.1, *old(processes), *final(processes), layout),
{
    match ev {
        Event::Scanned(Err(e)) => refuse(e),
        Event::Scanned(Ok(s)) => {
            if let Err(e) = check_uninstall(processes, &s, id.as_str()) {
                return refuse(e);
            }
            match uninstall_target(layout, id.as_str()) {
                Err(e) => refuse(e),
                Ok(path) => {
                    let rid = id.clone();
                    (Session::Removing { id }, Action::Remove(rid, path))
                },
            }
        },
        _ => unexpected(),
    }
}

fn on_removing(id: String, ev: Event) -> (r: (Session, Action))
    ensures
        removing_step(id, ev, r.0, r.1),
{
    match ev {
        Event::Removed(Err(e)) => refuse(e),
        Event::Removed(Ok(())) => (Session::UninstallState { id }, Action::ReadState),
        _ => unexpected(),
    }
}

/// Turns autostart of `id` on or off in `st` and asks for the state to be
/// written, if it is valid.
fn write_autostart(id: &String, enabled: bool, st: KernelState, then_next: Session, layout: &Layout) -> (r: (Session, Action))
    ensures
        writes_autostart(id@, enabled, st, then_next, r.0, r.1, layout),
{
    let mut w = st;
    set_autostart(&mut w, id.clone(), enabled);
    assert(with_autostart(w, st, id@, enabled));
    match layout.write_kernel_state(&w) {
        Err(e) => refuse(e),
        Ok(path) => (then_next, Action::WriteState(path, w)),
    }
}

fn on_uninstall_state(id: String, ev: Event, layout: &Layout) -> (r: (Session, Action))
    ensures
        uninstall_state_step(id, ev, r.0, r.1, layout),
{
    match ev {
        Event::StateRead(Err(e)) => refuse(e),
        Event::StateRead(Ok(st)) => {
            let key = id.clone();
            write_autostart(&key, false, st, Session::UninstallWrite { id }, layout)
        },
        _ => unexpected(),
    }
}

fn on_uninstall_write(id: String, ev: Event, processes: &mut ProcessManager) -> (r: (Session, Action))
    ensures
        uninstall_write_step(id, ev, r.0, r.1, *old(processes), *final(processes)),
{
    match ev {
        Event::StateWritten(Err(e)) => refuse(e),
        Event::StateWritten(Ok(())) => {
            processes.forget(id.as_str());
            (Session::ListScan, Action::Scan)
        },
        _ => unexpected(),
    }
}

// ---------------------------------------------------------------------------
// Starting and stopping

/// Starting `id`, the process of `pending[k]` is to be spawned as `plan`
/// says; the plugins after it are still to start.
pub open spec fn launches_at(
    id: String,
    snapshot: RegistrySnapshot,
    pending: Seq<Seq<char>>,
    k: int,
    next: Session,
    plan: LaunchPlan,
    p1: ProcessManager,
    layout: &Layout,
) -> bool {
    &&& next matches Session::Launching { id: nid, snapshot: s2, pending: rest, plan_id, stop_timeout_ms }
    &&& nid == id
    &&& s2 == snapshot
    &&& texts(rest@) == pending.skip(k + 1)
    &&& plan_id@ == plan.id@
    &&& stop_timeout_ms == plan.stop_timeout_ms
    &&& snapshot.manifests@.contains_key(pending[k])
    &&& plan_for(layout, &snapshot.manifests@[pending[k]], &plan)
    &&& !p1.running_ids().contains(snapshot.manifests@[pending[k]].id@)
}

/// Starting `id`, with the plugins `pending` still to start in order: the
/// first of them must be installed; ended processes are collected, and then
/// it is passed over if its process runs, or spawned otherwise. Once none is
/// left the answer reports on `id`. A plugin that is not installed or has no
/// process runtime, or a failed collection, answers the command.
pub open spec fn start_steps(
    id: String,
    snapshot: RegistrySnapshot,
    pending: Seq<Seq<char>>,
    next: Session,
    act: Action,
    p0: ProcessManager,
    p1: ProcessManager,
    layout: &Layout,
) -> bool
    decreases pending.len(), 1int,
{
    if pending.len() == 0 {
        next == Session::PluginScan { id } && act is Scan && p1 == p0
    } else if !snapshot.manifests@.contains_key(pending[0]) {
        fails_with(next, act, ErrorView::NotFound(pending[0])) && p1 == p0
    } else {
        ||| {
            &&& p1.same_table(p0)
            &&& next is Finished
            &&& act matches Action::Done(Err(x))
            &&& x is Io
        }
        ||| exists|pm: ProcessManager|
            #[trigger] pm.refreshed_from(p0) && start_after_collecting(id, snapshot, pending, next, act, pm, p1, layout)
    }
}

/// Starting `id`, the first plugin of `pending` is installed and ended
/// processes have been collected into `pm`: a running plugin is passed over
/// and the rest follow; one without a process runtime answers the command;
/// any other is spawned, and the plugins after it wait for it.
pub open spec fn start_after_collecting(
    id: String,
    snapshot: RegistrySnapshot,
    pending: Seq<Seq<char>>,
    next: Session,
    act: Action,
    pm: ProcessManager,
    p1: ProcessManager,
    layout: &Layout,
) -> bool
    decreases pending.len(), 0int,
{
    if pending.len() == 0 {
        false
    } else {
        let m = snapshot.manifests@[pending[0]];
        if pm.running_ids().contains(m.id@) {
            start_steps(id, snapshot, pending.drop_first(), next, act, pm, p1, layout)
        } else if m.runtime is None {
            p1 == pm && fails_with(next, act, ErrorView::InvalidData("plugin "@ + m.id@ + " has no process runtime"@))
        } else {
            &&& p1 == pm
            &&& act matches Action::Launch(plan)
            &&& launches_at(id, snapshot, pending, 0, next, plan, p1, layout)
        }
    }
}

/// Starting `id`, the scan has come: the plugins to start are `id` after
/// its dependencies, without the kernel.
pub open spec fn start_scan_step(
    id: String,
    ev: Event,
    next: Session,
    act: Action,
    p0: ProcessManager,
    p1: ProcessManager,
    layout: &Layout,
) -> bool {
    match ev {
        Event::Scanned(Err(e)) => passes_on(next, act, e) && p1 == p0,
        Event::Scanned(Ok(s)) => match start_sequence(s.manifests@, id@) {
            Err(e) => fails_with(next, act, e) && p1 == p0,
            Ok(order) => start_steps(id, s, order, next, act, p0, p1, layout),
        },
        _ => fails_with(next, act, unexpected_error()) && p1 == p0,
    }
}

/// `p1` is `p0` with the process of `id` recorded as started.
pub open spec fn recorded_start(p0: ProcessManager, p1: ProcessManager, id: Seq<char>, stop_timeout_ms: u64) -> bool {
    &&& p1.running_ids() == p0.running_ids().insert(id)
    &&& p1.stop_timeouts() == p0.stop_timeouts().insert(id, stop_timeout_ms)
    &&& p1.exits() == p0.exits().remove(id)
}

/// Starting `id`, the process of `plan_id` has been spawned, or could not be.
pub open spec fn launching_step(
    id: String,
    snapshot: RegistrySnapshot,
    pending: Vec<String>,
    plan_id: String,
    stop_timeout_ms: u64,
    ev: Event,
    next: Session,
    act: Action,
    p0: ProcessManager,
    p1: ProcessManager,
    layout: &Layout,
) -> bool {
    match ev {
        Event::Launched(Err(e)) => passes_on(next, act, e) && p1 == p0,
        Event::Launched(Ok(_)) => exists|pm: ProcessManager|
            #[trigger] recorded_start(p0, pm, plan_id@, stop_timeout_ms)
                && start_steps(id, snapshot, texts(pending@), next, act, pm, p1, layout),
        _ => fails_with(next, act, unexpected_error()) && p1 == p0,
    }
}

/// Stopping `id` once no running plugin requires it: ended processes are
/// collected once more, and the process of `id`, if it still runs, is taken
/// out of the table and asked to end.
pub open spec fn stops_after_check(
    id: String,
    pm: ProcessManager,
    next: Session,
    act: Action,
    p1: ProcessManager,
) -> bool {
    ||| {
        &&& p1.same_table(pm)
        &&& next is Finished
        &&& act matches Action::Done(Err(x))
        &&& x is Io
    }
    ||| {
        &&& next == Session::Stopping { id }
        &&& act matches Action::Terminate(process)
        &&& p1.took_for_stop(pm, id@, Some(process))
    }
    ||| {
        &&& next == Session::PluginScan { id }
        &&& act is Scan
        &&& p1.took_for_stop(pm, id@, None)
    }
}

/// Stopping `id`, the scan has come: the plugin must be installed and no
/// running plugin may require it.
pub open spec fn stop_scan_step(
    id: String,
    ev: Event,
    next: Session,
    act: Action,
    p0: ProcessManager,
    p1: ProcessManager,
) -> bool {
    match ev {
        Event::Scanned(Err(e)) => passes_on(next, act, e) && p1 == p0,
        Event::Scanned(Ok(s)) => if !s.manifests@.contains_key(id@) {
            fails_with(next, act, ErrorView::NotFound(id@)) && p1.same_table(p0)
        } else {
            let dependents = dependents_among(s.manifests.values(), id@);
            ||| {
                &&& p1.same_table(p0)
                &&& next is Finished
                &&& act matches Action::Done(Err(x))
                &&& x is Io
            }
            ||| {
                &&& p1.refreshed_from(p0)
                &&& running_among(dependents, p1.running_ids()).len() > 0
                &&& fails_with(next, act, running_dependents_error(id@, running_among(dependents, p1.running_ids())))
            }
            ||| exists|pm: ProcessManager| {
                &&& #[trigger] pm.refreshed_from(p0)
                &&& running_among(dependents, pm.running_ids()).len() == 0
                &&& stops_after_check(id, pm, next, act, p1)
            }
        },
        _ => fails_with(next, act, unexpected_error()) && p1 == p0,
    }
}

/// Stopping `id`, its process has ended: its exit code is recorded.
pub open spec fn stopping_step(
    id: String,
    ev: Event,
    next: Session,
    act: Action,
    p0: ProcessManager,
    p1: ProcessManager,
) -> bool {
    match ev {
        Event::Terminated(Err(e)) => passes_on(next, act, e) && p1 == p0,
        Event::Terminated(Ok(status)) => {
            &&& p1.exits() == p0.exits().insert(id@, exit_code(status))
            &&& p1.running_ids() == p0.running_ids()
            &&& p1.stop_timeouts() == p0.stop_timeouts()
            &&& next == Session::PluginScan { id }
            &&& act is Scan
        },
        _ => fails_with(next, act, unexpected_error()) && p1 == p0,
    }
}

fn start_next(
    id: String,
    snapshot: RegistrySnapshot,
    pending: Vec<String>,
    processes: &mut ProcessManager,
    layout: &Layout,
) -> (r: (Session, Action))
    ensures
        start_steps(id, snapshot, texts(pending@), r.0, r.1, *old(processes), *final(processes), layout),
    decreases pending.len(),
{
    if pending.len() == 0 {
        assert(texts(pending@).len() == 0);
        return (Session::PluginScan { id }, Action::Scan);
    }
    let ghost all = texts(pending@);
    let mut rest = pending;
    let p = rest.remove(0);
    proof {
        assert(all[0] == p@);
        assert(texts(rest@) =~= all.drop_first());
        assert(all.drop_first() =~= all.skip(1));
    }
    let m = match require_manifest(&snapshot, p.as_str()) {
        Ok(m) => m,
        Err(e) => return refuse(e),
    };
    let ghost p0 = *processes;
    match processes.prepare_start(layout, m) {
        Err(e) => {
            let ghost pm = *processes;
            let r = refuse(e);
            proof {
                if !(e is Io) {
                    assert(start_after_collecting(id, snapshot, all, r.0, r.1, pm, pm, layout));
                    assert(pm.refreshed_from(p0));
                }
            }
            r
        },
        Ok(None) => {
            let ghost pm = *processes;
            let r = start_next(id, snapshot, rest, processes, layout);
            proof {
                assert(start_after_collecting(id, snapshot, all, r.0, r.1, pm, *processes, layout));
                assert(pm.refreshed_from(p0));
            }
            r
        },
        Ok(Some(plan)) => {
            let ghost pm = *processes;
            let plan_id = plan.id.clone();
            let stop_timeout_ms = plan.stop_timeout_ms;
            let next = Session::Launching { id, snapshot, pending: rest, plan_id, stop_timeout_ms };
            assert(launches_at(id, snapshot, all, 0, next, plan, pm, layout));
            let r = (next, Action::Launch(plan));
            proof {
                assert(r.1 matches Action::Launch(q) && q == plan);
                assert(start_after_collecting(id, snapshot, all, r.0, r.1, pm, pm, layout));
                assert(pm.refreshed_from(p0));
            }
            r
        },
    }
}

fn on_start_scan(id: String, ev: Event, processes: &mut ProcessManager, layout: &Layout) -> (r: (Session, Action))
    ensures
        start_scan_step(id, ev, r.0, r.1, *old(processes), *final(processes), layout),
{
    match ev {
        Event::Scanned(Err(e)) => refuse(e),
        Event::Scanned(Ok(s)) => match plugins_to_start(&s, id.as_str()) {
            Err(e) => refuse(e),
            Ok(order) => start_next(id, s, order, processes, layout),
        },
        _ => unexpected(),
    }
}

fn on_launching(
    id: String,
    snapshot: RegistrySnapshot,
    pending: Vec<String>,
    plan_id: String,
    stop_timeout_ms: u64,
    ev: Event,
    processes: &mut ProcessManager,
    layout: &Layout,
) -> (r: (Session, Action))
    ensures
        launching_step(id, snapshot, pending, plan_id, stop_timeout_ms, ev, r.0, r.1, *old(processes), *final(processes), layout),
{
    match ev {
        Event::Launched(Err(e)) => refuse(e),
        Event::Launched(Ok(child)) => {
            let ghost pid = plan_id@;
            processes.record_started(plan_id, child, stop_timeout_ms);
            let ghost pm = *processes;
            assert(recorded_start(*old(processes), pm, pid, stop_timeout_ms));
            start_next(id, snapshot, pending, processes, layout)
        },
        _ => unexpected(),
    }
}

fn on_stop_scan(id: String, ev: Event, processes: &mut ProcessManager) -> (r: (Session, Action))
    ensures
        stop_scan_step(id, ev, r.0, r.1, *old(processes), *final(processes)),
{
    match ev {
        Event::Scanned(Err(e)) => refuse(e),
        Event::Scanned(Ok(s)) => {
            if let Err(e) = check_stop(processes, &s, id.as_str()) {
                return refuse(e);
            }
            match processes.take_for_stop(id.as_str()) {
                Err(e) => refuse(e),
                Ok(None) => (Session::PluginScan { id }, Action::Scan),
                Ok(Some(process)) => (Session::Stopping { id }, Action::Terminate(process)),
            }
        },
        _ => unexpected(),
    }
}

fn on_stopping(id: String, ev: Event, processes: &mut ProcessManager) -> (r: (Session, Action))
    ensures
        stopping_step(id, ev, r.0, r.1, *old(processes), *final(processes)),
{
    match ev {
        Event::Terminated(Err(e)) => refuse(e),
        Event::Terminated(Ok(status)) => {
            let code: i32 = match status {
                Some(c) => c,
                None => -1,
            };
            processes.record_exit(id.clone(), code);
            (Session::PluginScan { id }, Action::Scan)
        },
        _ => unexpected(),
    }
}

// ---------------------------------------------------------------------------
// Autostart and settings

/// A plugin must be installed; then the command goes on to `then_next`.
pub open spec fn needs_plugin(id: Seq<char>, ev: Event, next: Session, act: Action, then_next: Session, then_act: spec_fn(Action) -> bool) -> bool {
    match ev {
        Event::Scanned(Err(e)) => passes_on(next, act, e),
        Event::Scanned(Ok(s)) => if s.manifests@.contains_key(id) {
            next == then_next && then_act(act)
        } else {
            fails_with(next, act, ErrorView::NotFound(id))
        },
        _ => fails_with(next, act, unexpected_error()),
    }
}

/// Turning autostart of `id` on or off, the kernel state has come.
pub open spec fn autostart_state_step(id: String, enabled: bool, ev: Event, next: Session, act: Action, layout: &Layout) -> bool {
    match ev {
        Event::StateRead(Err(e)) => passes_on(next, act, e),
        Event::StateRead(Ok(st)) => writes_autostart(id@, enabled, st, Session::AutostartWrite { id }, next, act, layout),
        _ => fails_with(next, act, unexpected_error()),
    }
}

/// Turning autostart of `id` on or off, the state has been written: the
/// answer reports on `id`.
pub open spec fn autostart_write_step(id: String, ev: Event, next: Session, act: Action) -> bool {
    match ev {
        Event::StateWritten(Err(e)) => passes_on(next, act, e),
        Event::StateWritten(Ok(())) => next == Session::PluginScan { id } && act is Scan,
        _ => fails_with(next, act, unexpected_error()),
    }
}

/// Reading the settings of `id`, they have come: valid settings are the
/// answer.
pub open spec fn config_read_step(ev: Event, next: Session, act: Action) -> bool {
    match ev {
        Event::SettingsRead(v) => if v@.len() != 1 {
            fails_with(next, act, unread_settings_error())
        } else {
            match v@[0] {
                Err(e) => passes_on(next, act, e),
                Ok(x) => match x.failure() {
                    Some(f) => fails_with(next, act, f),
                    None => next is Finished && act == Action::Done(Ok::<ControlData, KernelError>(ControlData::Config(x))),
                },
            }
        },
        _ => fails_with(next, act, unexpected_error()),
    }
}

/// The settings after an edit.
pub open spec fn edited(settings: Map<Seq<char>, serde_json::Value>, edit: Edit) -> Map<Seq<char>, serde_json::Value> {
    match edit {
        Edit::Put { key, value } => settings.insert(key@, value),
        Edit::Delete { key } => settings.remove(key@),
    }
}

/// Changing a setting of `id`, its settings have come: valid settings are
/// edited and written back to the plugin's settings file.
pub open spec fn edit_read_step(id: String, edit: Edit, ev: Event, next: Session, act: Action, layout: &Layout) -> bool {
    match ev {
        Event::SettingsRead(v) => if v@.len() != 1 {
            fails_with(next, act, unread_settings_error())
        } else {
            match v@[0] {
                Err(e) => passes_on(next, act, e),
                Ok(x) => match x.failure() {
                    Some(f) => fails_with(next, act, f),
                    None => {
                        &&& next matches Session::EditWrite { settings: kept }
                        &&& kept.schema_version == x.schema_version
                        &&& kept.settings@ == edited(x.settings@, edit)
                        &&& act matches Action::WriteSettings(path, w)
                        &&& path@ == crate::layout::path_join2(crate::path::path_join(layout@.root, id@), "config"@, "main.json"@)
                        &&& w.schema_version == x.schema_version
                        &&& w.settings@ == edited(x.settings@, edit)
                    },
                },
            }
        },
        _ => fails_with(next, act, unexpected_error()),
    }
}

/// Changing a setting, the edited settings have been written: they are the
/// answer.
pub open spec fn edit_write_step(settings: PluginSettings, ev: Event, next: Session, act: Action) -> bool {
    match ev {
        Event::SettingsWritten(Err(e)) => passes_on(next, act, e),
        Event::SettingsWritten(Ok(())) => next is Finished && act == Action::Done(
            Ok::<ControlData, KernelError>(ControlData::Config(settings)),
        ),
        _ => fails_with(next, act, unexpected_error()),
    }
}

fn on_needs_plugin(id: &String, ev: Event, then_next: Session, then_act: Action) -> (r: (Session, Action))
    ensures
        needs_plugin(id@, ev, r.0, r.1, then_next, |a: Action| a == then_act),
{
    match ev {
        Event::Scanned(Err(e)) => refuse(e),
        Event::Scanned(Ok(s)) => match require_manifest(&s, id.as_str()) {
            Err(e) => refuse(e),
            Ok(_) => (then_next, then_act),
        },
        _ => unexpected(),
    }
}

fn on_autostart_state(id: String, enabled: bool, ev: Event, layout: &Layout) -> (r: (Session, Action))
    ensures
        autostart_state_step(id, enabled, ev, r.0, r.1, layout),
{
    match ev {
        Event::StateRead(Err(e)) => refuse(e),
        Event::StateRead(Ok(st)) => {
            let key = id.clone();
            write_autostart(&key, enabled, st, Session::AutostartWrite { id }, layout)
        },
        _ => unexpected(),
    }
}

fn on_autostart_write(id: String, ev: Event) -> (r: (Session, Action))
    ensures
        autostart_write_step(id, ev, r.0, r.1),
{
    match ev {
        Event::StateWritten(Err(e)) => refuse(e),
        Event::StateWritten(Ok(())) => (Session::PluginScan { id }, Action::Scan),
        _ => unexpected(),
    }
}

fn on_config_read(ev: Event) -> (r: (Session, Action))
    ensures
        config_read_step(ev, r.0, r.1),
{
    match ev {
        Event::SettingsRead(mut v) => {
            if v.len() != 1 {
                return unread_settings();
            }
            match v.remove(0) {
                Err(e) => refuse(e),
                Ok(x) => match x.validate() {
                    Err(e) => refuse(e),
                    Ok(()) => (Session::Finished, Action::Done(Ok(ControlData::Config(x)))),
                },
            }
        },
        _ => unexpected(),
    }
}

fn on_edit_read(id: String, edit: Edit, ev: Event, layout: &Layout) -> (r: (Session, Action))
    ensures
        edit_read_step(id, edit, ev, r.0, r.1, layout),
{
    match ev {
        Event::SettingsRead(mut v) => {
            if v.len() != 1 {
                return unread_settings();
            }
            match v.remove(0) {
                Err(e) => refuse(e),
                Ok(x) => {
                    if let Err(e) = x.validate() {
                        return refuse(e);
                    }
                    let mut w = x;
                    match edit {
                        Edit::Put { key, value } => w.set(key, value),
                        Edit::Delete { key } => w.unset(key.as_str()),
                    }
                    match layout.write_plugin_settings(id.as_str(), &w) {
                        Err(e) => refuse(e),
                        Ok(path) => {
                            let kept = PluginSettings {
                                schema_version: w.schema_version,
                                settings: copy_text_map(&w.settings, copy_json),
                            };
                            (Session::EditWrite { settings: kept }, Action::WriteSettings(path, w))
                        },
                    }
                },
            }
        },
        _ => unexpected(),
    }
}

fn on_edit_write(settings: PluginSettings, ev: Event) -> (r: (Session, Action))
    ensures
        edit_write_step(settings, ev, r.0, r.1),
{
    match ev {
        Event::SettingsWritten(Err(e)) => refuse(e),
        Event::SettingsWritten(Ok(())) => (Session::Finished, Action::Done(Ok(ControlData::Config(settings)))),
        _ => unexpected(),
    }
}

fn read_one(id: &String) -> (r: Action)
    ensures
        r matches Action::ReadSettings(ids) && texts(ids@) == seq![id@],
{
    let ids = vec![id.clone()];
    assert(texts(ids@) =~= seq![id@]);
    Action::ReadSettings(ids)
}

// ---------------------------------------------------------------------------
// The steps

/// One step of a command in `session`, given what came of the work the
/// previous step asked for: the next session and what to do next, and how
/// the process table changes from `p0` to `p1`.
pub open spec fn stepped(
    session: Session,
    ev: Event,
    next: Session,
    act: Action,
    p0: ProcessManager,
    p1: ProcessManager,
    layout: &Layout,
) -> bool {
    match session {
        Session::PluginScan { id } => plugin_scan_step(id, ev, next, act) && p1 == p0,
        Session::PluginState { id, snapshot } => plugin_state_step(id, snapshot, ev, next, act, p0, p1),
        Session::PluginSettings { id, snapshot, state } => plugin_settings_step(id, snapshot, state, ev, next, act, layout, p0)
            && p1 == p0,
        Session::ListScan => list_scan_step(ev, next, act) && p1 == p0,
        Session::ListState { snapshot } => list_state_step(snapshot, ev, next, act, p0, p1),
        Session::ListSettings { snapshot, state } => list_settings_step(snapshot, state, ev, next, act, layout, p0) && p1 == p0,
        Session::InstallSource { source } => install_source_step(source, ev, next, act) && p1 == p0,
        Session::InstallManifest { source } => install_manifest_step(source, ev, next, act, layout) && p1 == p0,
        Session::InstallTarget { source, id } => install_target_step(source, id, ev, next, act, layout) && p1 == p0,
        Session::Copying { id } => copying_step(id, ev, next, act, p0, p1),
        Session::UninstallScan { id } => uninstall_scan_step(id, ev, next, act, p0, p1, layout),
        Session::Removing { id } => removing_step(id, ev, next, act) && p1 == p0,
        Session::UninstallState { id } => uninstall_state_step(id, ev, next, act, layout) && p1 == p0,
        Session::UninstallWrite { id } => uninstall_write_step(id, ev, next, act, p0, p1),
        Session::StartScan { id } => start_scan_step(id, ev, next, act, p0, p1, layout),
        Session::Launching { id, snapshot, pending, plan_id, stop_timeout_ms } => launching_step(
            id,
            snapshot,
            pending,
            plan_id,
            stop_timeout_ms,
            ev,
            next,
            act,
            p0,
            p1,
            layout,
        ),
        Session::StopScan { id } => stop_scan_step(id, ev, next, act, p0, p1),
        Session::Stopping { id } => stopping_step(id, ev, next, act, p0, p1),
        Session::AutostartScan { id, enabled } => needs_plugin(
            id@,
            ev,
            next,
            act,
            Session::AutostartState { id, enabled },
            |a: Action| a is ReadState,
        ) && p1 == p0,
        Session::AutostartState { id, enabled } => autostart_state_step(id, enabled, ev, next, act, layout) && p1 == p0,
        Session::AutostartWrite { id } => autostart_write_step(id, ev, next, act) && p1 == p0,
        Session::ConfigScan { id } => needs_plugin(
            id@,
            ev,
            next,
            act,
            Session::ConfigRead { id },
            |a: Action| a matches Action::ReadSettings(ids) && texts(ids@) == seq![id@],
        ) && p1 == p0,
        Session::ConfigRead { id } => config_read_step(ev, next, act) && p1 == p0,
        Session::EditScan { id, edit } => needs_plugin(
            id@,
            ev,
            next,
            act,
            Session::EditRead { id, edit },
            |a: Action| a matches Action::ReadSettings(ids) && texts(ids@) == seq![id@],
        ) && p1 == p0,
        Session::EditRead { id, edit } => edit_read_step(id, edit, ev, next, act, layout) && p1 == p0,
        Session::EditWrite { settings } => edit_write_step(settings, ev, next, act) && p1 == p0,
        Session::Finished => fails_with(next, act, unexpected_error()) && p1 == p0,
    }
}

/// Takes a command one step further, given what came of the work that the
/// previous step asked for.
pub fn advance(session: Session, event: Event, processes: &mut ProcessManager, layout: &Layout) -> (r: (Session, Action))
    ensures
        stepped(session, event, r.0, r.1, *old(processes), *final(processes), layout),
{
    match session {
        Session::PluginScan { id } => on_plugin_scan(id, event),
        Session::PluginState { id, snapshot } => on_plugin_state(id, snapshot, event, processes),
        Session::PluginSettings { id, snapshot, state } => on_plugin_settings(id, snapshot, state, event, processes, layout),
        Session::ListScan => on_list_scan(event),
        Session::ListState { snapshot } => on_list_state(snapshot, event, processes),
        Session::ListSettings { snapshot, state } => on_list_settings(snapshot, state, event, processes, layout),
        Session::InstallSource { source } => on_install_source(source, event),
        Session::InstallManifest { source } => on_install_manifest(source, event, layout),
        Session::InstallTarget { source, id } => on_install_target(source, id, event, layout),
        Session::Copying { id } => on_copying(id, event, processes),
        Session::UninstallScan { id } => on_uninstall_scan(id, event, processes, layout),
        Session::Removing { id } => on_removing(id, event),
        Session::UninstallState { id } => on_uninstall_state(id, event, layout),
        Session::UninstallWrite { id } => on_uninstall_write(id, event, processes),
        Session::StartScan { id } => on_start_scan(id, event, processes, layout),
        Session::Launching { id, snapshot, pending, plan_id, stop_timeout_ms } => on_launching(
            id,
            snapshot,
            pending,
            plan_id,
            stop_timeout_ms,
            event,
            processes,
            layout,
        ),
        Session::StopScan { id } => on_stop_scan(id, event, processes),
        Session::Stopping { id } => on_stopping(id, event, processes),
        Session::AutostartScan { id, enabled } => {
            let key = id.clone();
            on_needs_plugin(&key, event, Session::AutostartState { id, enabled }, Action::ReadState)
        },
        Session::AutostartState { id, enabled } => on_autostart_state(id, enabled, event, layout),
        Session::AutostartWrite { id } => on_autostart_write(id, event),
        Session::ConfigScan { id } => {
            let read = read_one(&id);
            let key = id.clone();
            on_needs_plugin(&key, event, Session::ConfigRead { id }, read)
        },
        Session::ConfigRead { id } => on_config_read(event),
        Session::EditScan { id, edit } => {
            let read = read_one(&id);
            let key = id.clone();
            on_needs_plugin(&key, event, Session::EditRead { id, edit }, read)
        },
        Session::EditRead { id, edit } => on_edit_read(id, edit, event, layout),
        Session::EditWrite { settings } => on_edit_write(settings, event),
        Session::Finished => unexpected(),
    }
}

// ---------------------------------------------------------------------------
// Laws

/// Law: a command that would change the kernel plugin is refused as
/// protected before any work is done.
pub proof fn lemma_kernel_is_protected(c: ControlCommand, next: Session, act: Action)
    requires
        changed_plugin(c) == Some(kernel_id()),
        opening(c, next, act),
    ensures
        next is Finished,
        act matches Action::Done(Err(e)) && e@ == ErrorView::Protected(kernel_id()),
{
}

/// Law: installing a plugin only copies it into the workspace: no step of
/// an install spawns a process or changes which processes run.
pub proof fn lemma_install_starts_nothing(
    session: Session,
    ev: Event,
    next: Session,
    act: Action,
    p0: ProcessManager,
    p1: ProcessManager,
    layout: &Layout,
)
    requires
        session is InstallSource || session is InstallManifest || session is InstallTarget || session is Copying,
        stepped(session, ev, next, act, p0, p1, layout),
    ensures
        !(act is Launch),
        p1.running_ids() == p0.running_ids(),
{
}

/// Law: an install never replaces an installed plugin, nor the kernel: a
/// package claiming the kernel's id is refused as protected, and one whose
/// directory exists already is refused.
pub proof fn lemma_install_replaces_nothing(
    source: String,
    id: String,
    m: PluginManifest,
    next: Session,
    act: Action,
    layout: &Layout,
)
    requires
        manifest_failure(&m) is None,
        m.id@ == kernel_id() ==> install_manifest_step(source, Event::ManifestRead(Ok(m)), next, act, layout),
        m.id@ != kernel_id() ==> install_target_step(source, id, Event::Checked(true), next, act, layout),
    ensures
        act matches Action::Done(Err(e)) && (e@ == ErrorView::Protected(kernel_id()) || e@
            == ErrorView::AlreadyExists(id@)),
{
}

/// Law: a plugin directory is removed only for an installed plugin that is
/// not running and that no installed plugin requires.
pub proof fn lemma_removes_only_unused_plugins(
    id: String,
    ev: Event,
    next: Session,
    act: Action,
    p0: ProcessManager,
    p1: ProcessManager,
    layout: &Layout,
)
    requires
        uninstall_scan_step(id, ev, next, act, p0, p1, layout),
        act is Remove,
    ensures
        ev matches Event::Scanned(Ok(s)) && s.manifests@.contains_key(id@)
            && dependents_among(s.manifests.values(), id@).len() == 0,
        !p1.running_ids().contains(id@),
        id@ != kernel_id(),
{
}

/// Law: uninstalling a plugin takes it off the autostart list and keeps
/// every other entry.
pub proof fn lemma_uninstall_clears_autostart(
    id: String,
    st: KernelState,
    next: Session,
    act: Action,
    layout: &Layout,
)
    requires
        uninstall_state_step(id, Event::StateRead(Ok(st)), next, act, layout),
        act is WriteState,
    ensures
        act matches Action::WriteState(_, w) && !w.autostart@.contains(id@)
            && w.autostart@ == st.autostart@.remove(id@),
{
}

/// Law: turning autostart of a plugin on, or off, a second time leaves the
/// kernel state as the first time left it.
pub proof fn lemma_autostart_twice(st: KernelState, w1: KernelState, w2: KernelState, id: Seq<char>, enabled: bool)
    requires
        with_autostart(w1, st, id, enabled),
        with_autostart(w2, w1, id, enabled),
    ensures
        w2.schema_version == w1.schema_version,
        w2.autostart@ == w1.autostart@,
{
    if enabled {
        assert(w1.autostart@.insert(id) =~= w1.autostart@);
    } else {
        assert(w1.autostart@.remove(id) =~= w1.autostart@);
    }
}

/// Law: turning autostart of a plugin on or off through the control
/// protocol writes the kernel state it read with the plugin added or
/// removed, to the kernel state file; run a second time on what the first
/// run wrote, it writes the same entries again.
pub proof fn lemma_set_autostart_is_idempotent(
    id: String,
    enabled: bool,
    st: KernelState,
    next1: Session,
    act1: Action,
    st2: KernelState,
    next2: Session,
    act2: Action,
    layout: &Layout,
)
    requires
        autostart_state_step(id, enabled, Event::StateRead(Ok(st)), next1, act1, layout),
        act1 matches Action::WriteState(_, w1) && st2.schema_version == w1.schema_version && st2.autostart@
            == w1.autostart@,
        autostart_state_step(id, enabled, Event::StateRead(Ok(st2)), next2, act2, layout),
    ensures
        act1 matches Action::WriteState(path, w1) && path@ == layout@.kernel_state_file && w1.autostart@ == (if enabled {
            st.autostart@.insert(id@)
        } else {
            st.autostart@.remove(id@)
        }),
        act2 matches Action::WriteState(path, w2) && path@ == layout@.kernel_state_file,
        act1 matches Action::WriteState(_, w1) && act2 matches Action::WriteState(_, w2) && w2.autostart@
            == w1.autostart@,
{
    let w1 = act1->WriteState_1;
    crate::model::lemma_kernel_state_valid(w1);
    if !(act2 is WriteState) {
        let x = act2->Done_0->Err_0;
        let w = choose|w: KernelState| #[trigger] with_autostart(w, st2, id@, enabled) && w.failure() == Some(x@);
        lemma_autostart_twice(st, w1, w, id@, enabled);
        crate::model::lemma_kernel_state_valid(w);
        assert(w.autostart@ =~= w1.autostart@);
        assert(false);
    }
    let w2 = act2->WriteState_1;
    lemma_autostart_twice(st, w1, w2, id@, enabled);
}

/// Law: changing a setting writes, and answers with, the plugin's valid
/// settings as read with that one key changed: a set key maps to the new
/// value and an unset key is gone, every other key keeps its value, and the
/// schema version stays; the settings go to the plugin's `config/main.json`.
pub proof fn lemma_edit_changes_one_key(
    id: String,
    edit: Edit,
    read: Vec<Result<PluginSettings, KernelError>>,
    x: PluginSettings,
    next: Session,
    act: Action,
    layout: &Layout,
)
    requires
        read@ == seq![Ok::<PluginSettings, KernelError>(x)],
        x.schema_version == 1,
        edit_read_step(id, edit, Event::SettingsRead(read), next, act, layout),
    ensures
        act matches Action::WriteSettings(path, w) && {
            &&& path@ == crate::layout::path_join2(crate::path::path_join(layout@.root, id@), "config"@, "main.json"@)
            &&& w.schema_version == x.schema_version
            &&& (edit matches Edit::Put { key, value } ==> w.settings@.contains_key(key@) && w.settings@[key@] == value)
            &&& (edit matches Edit::Delete { key } ==> !w.settings@.contains_key(key@))
            &&& forall|k: Seq<char>|
                k != edit_key(edit) ==> (#[trigger] w.settings@.contains_key(k) == x.settings@.contains_key(k)
                    && (x.settings@.contains_key(k) ==> w.settings@[k] == x.settings@[k]))
        },
        next matches Session::EditWrite { settings: kept } && act matches Action::WriteSettings(_, w)
            && kept.schema_version == w.schema_version && kept.settings@ == w.settings@,
{
    assert(read@.len() == 1);
    assert(read@[0] == Ok::<PluginSettings, KernelError>(x));
}

/// The key an edit changes.
pub open spec fn edit_key(edit: Edit) -> Seq<char> {
    match edit {
        Edit::Put { key, .. } => key@,
        Edit::Delete { key } => key@,
    }
}

/// Law: a plugin's process is asked to end only when no plugin that
/// requires it is running.
pub proof fn lemma_stops_only_without_running_dependents(
    id: String,
    ev: Event,
    next: Session,
    act: Action,
    p0: ProcessManager,
    p1: ProcessManager,
)
    requires
        stop_scan_step(id, ev, next, act, p0, p1),
        act is Terminate,
    ensures
        ev matches Event::Scanned(Ok(s)) && exists|pm: ProcessManager|
            #[trigger] pm.refreshed_from(p0) && running_among(
                dependents_among(s.manifests.values(), id@),
                pm.running_ids(),
            ).len() == 0,
{
}

proof fn lemma_launch_within(
    id: String,
    snapshot: RegistrySnapshot,
    pending: Seq<Seq<char>>,
    next: Session,
    plan: LaunchPlan,
    p0: ProcessManager,
    p1: ProcessManager,
    layout: &Layout,
)
    requires
        start_steps(id, snapshot, pending, next, Action::Launch(plan), p0, p1, layout),
    ensures
        exists|k: int| 0 <= k < pending.len() && #[trigger] launches_at(id, snapshot, pending, k, next, plan, p1, layout),
    decreases pending.len(),
{
    let act = Action::Launch(plan);
    let pm = choose|pm: ProcessManager|
        #[trigger] pm.refreshed_from(p0) && start_after_collecting(id, snapshot, pending, next, act, pm, p1, layout);
    let m = snapshot.manifests@[pending[0]];
    if pm.running_ids().contains(m.id@) {
        let rest = pending.drop_first();
        lemma_launch_within(id, snapshot, rest, next, plan, pm, p1, layout);
        let k = choose|k: int| 0 <= k < rest.len() && #[trigger] launches_at(id, snapshot, rest, k, next, plan, p1, layout);
        assert(rest.skip(k + 1) =~= pending.skip(k + 2));
        assert(rest[k] == pending[k + 1]);
        assert(launches_at(id, snapshot, pending, k + 1, next, plan, p1, layout));
    } else {
        assert(launches_at(id, snapshot, pending, 0, next, plan, p1, layout));
    }
}

/// Law: the processes a start spawns are those of its start order, in that
/// order: plugins whose process was found running when their turn came are
/// passed over, the first one found not running is the one spawned, and the
/// ones after it wait for it; the report comes only once none is left.
pub proof fn lemma_launches_follow_start_order(
    id: String,
    s: RegistrySnapshot,
    next: Session,
    plan: LaunchPlan,
    p0: ProcessManager,
    p1: ProcessManager,
    layout: &Layout,
)
    requires
        start_scan_step(id, Event::Scanned(Ok(s)), next, Action::Launch(plan), p0, p1, layout),
    ensures
        start_sequence(s.manifests@, id@) matches Ok(order) && start_steps(
            id,
            s,
            order,
            next,
            Action::Launch(plan),
            p0,
            p1,
            layout,
        ) && exists|k: int| 0 <= k < order.len() && #[trigger] launches_at(id, s, order, k, next, plan, p1, layout),
{
    let order = start_sequence(s.manifests@, id@)->Ok_0;
    lemma_launch_within(id, s, order, next, plan, p0, p1, layout);
}

} // verus!
