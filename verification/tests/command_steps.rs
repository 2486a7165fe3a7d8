use easos_kernel::command::{advance, begin, Action, Event, Session};
use easos_kernel::error::KernelError;
use easos_kernel::layout::Layout;
use easos_kernel::model::{KernelState, PluginKind, PluginManifest, PluginSettings, RuntimeSpec};
use easos_kernel::process::ProcessManager;
use easos_kernel::protocol::{ControlCommand, ControlData};
use easos_kernel::registry::RegistrySnapshot;
use easos_kernel::textmap::TextMap;
use serde_json::Value;

fn layout() -> Layout {
    Layout::new("/easos".to_owned(), "/run/easos".to_owned())
}

fn process(id: &str, requires: &[&str]) -> PluginManifest {
    let mut value = PluginManifest::kernel_builtin();
    value.id = id.to_owned();
    value.name = format!("Plugin {id}");
    value.provides = Vec::new();
    value.requires = requires.iter().map(|item| (*item).to_owned()).collect();
    value.kind = PluginKind::Process;
    value.runtime = Some(RuntimeSpec {
        entrypoint: "bin/service".to_owned(),
        args: vec!["--quiet".to_owned()],
        environment: TextMap::new(),
        stop_timeout_ms: 2_000,
    });
    value
}

fn snapshot_of(manifests: Vec<PluginManifest>) -> RegistrySnapshot {
    let mut snapshot = RegistrySnapshot::default();
    for m in manifests {
        snapshot.manifests.insert(m.id.clone(), m);
    }
    snapshot
}

fn state_with(ids: &[&str]) -> KernelState {
    let mut state = KernelState::default();
    for id in ids {
        state.autostart.insert((*id).to_owned());
    }
    state
}

fn error_of(action: Action) -> KernelError {
    match action {
        Action::Done(Err(error)) => error,
        _ => panic!("the command was not answered with an error"),
    }
}

fn protected() -> KernelError {
    KernelError::Protected("kernel".to_owned())
}

#[test]
fn commands_that_change_the_kernel_are_refused_first() {
    let kernel = || "kernel".to_owned();
    let commands = vec![
        ControlCommand::Uninstall { id: kernel() },
        ControlCommand::Start { id: kernel() },
        ControlCommand::Stop { id: kernel() },
        ControlCommand::SetAutostart { id: kernel(), enabled: true },
        ControlCommand::SetConfig { id: kernel(), key: "level".to_owned(), value: Value::Bool(true) },
        ControlCommand::UnsetConfig { id: kernel(), key: "level".to_owned() },
    ];
    for command in commands {
        let (session, action) = begin(command);
        assert!(matches!(session, Session::Finished));
        assert_eq!(error_of(action), protected());
    }
}

#[test]
fn reading_the_kernel_is_allowed() {
    let (session, action) = begin(ControlCommand::Status { id: "kernel".to_owned() });
    assert!(matches!(session, Session::PluginScan { ref id } if id == "kernel"));
    assert!(matches!(action, Action::Scan));
    let (session, action) = begin(ControlCommand::GetConfig { id: "kernel".to_owned() });
    assert!(matches!(session, Session::ConfigScan { .. }));
    assert!(matches!(action, Action::Scan));
}

#[test]
fn setting_changes_need_a_valid_key() {
    let (_, action) = begin(ControlCommand::SetConfig {
        id: "clock".to_owned(),
        key: "time zone".to_owned(),
        value: Value::Null,
    });
    assert_eq!(
        error_of(action),
        KernelError::InvalidData("config key must be 1-128 non-whitespace characters".to_owned())
    );
    let (_, action) = begin(ControlCommand::UnsetConfig { id: "clock".to_owned(), key: String::new() });
    assert!(matches!(error_of(action), KernelError::InvalidData(_)));
}

#[test]
fn install_copies_then_reports_the_new_plugin() {
    let mut processes = ProcessManager::default();
    processes.record_exit("clock".to_owned(), 4);
    let (session, action) = begin(ControlCommand::Install { source: "/tmp/clock".to_owned() });
    assert!(matches!(action, Action::IsDirectory(ref path) if path == "/tmp/clock"));
    let (session, action) = advance(session, Event::Checked(true), &mut processes, &layout());
    assert!(matches!(action, Action::ReadManifest(ref path) if path == "/tmp/clock/manifest/main.json"));
    let (session, action) = advance(
        session,
        Event::ManifestRead(Ok(process("clock", &[]))),
        &mut processes,
        &layout(),
    );
    assert!(matches!(action, Action::Exists(ref path) if path == "/easos/clock"));
    let (session, action) = advance(session, Event::Checked(false), &mut processes, &layout());
    match &action {
        Action::CopyPackage { source, id, destination } => {
            assert_eq!(source, "/tmp/clock");
            assert_eq!(id, "clock");
            assert_eq!(destination, "/easos/clock");
        }
        _ => panic!("the package was not copied"),
    }
    let (session, action) = advance(session, Event::Copied(Ok(())), &mut processes, &layout());
    assert!(matches!(session, Session::PluginScan { ref id } if id == "clock"));
    assert!(matches!(action, Action::Scan));
    assert!(!processes.is_running("clock"));
    assert_eq!(processes.last_exit("clock"), None);
}

#[test]
fn install_needs_a_directory() {
    let mut processes = ProcessManager::default();
    let (session, _) = begin(ControlCommand::Install { source: "/tmp/clock.tar".to_owned() });
    let (_, action) = advance(session, Event::Checked(false), &mut processes, &layout());
    assert_eq!(
        error_of(action),
        KernelError::InvalidData("plugin source is not a directory: /tmp/clock.tar".to_owned())
    );
}

#[test]
fn install_never_replaces_the_kernel_or_an_installed_plugin() {
    let mut processes = ProcessManager::default();
    let (session, _) = begin(ControlCommand::Install { source: "/tmp/kernel".to_owned() });
    let (session, _) = advance(session, Event::Checked(true), &mut processes, &layout());
    let (_, action) = advance(
        session,
        Event::ManifestRead(Ok(PluginManifest::kernel_builtin())),
        &mut processes,
        &layout(),
    );
    assert_eq!(error_of(action), protected());

    let (session, _) = begin(ControlCommand::Install { source: "/tmp/clock".to_owned() });
    let (session, _) = advance(session, Event::Checked(true), &mut processes, &layout());
    let (session, _) = advance(
        session,
        Event::ManifestRead(Ok(process("clock", &[]))),
        &mut processes,
        &layout(),
    );
    let (_, action) = advance(session, Event::Checked(true), &mut processes, &layout());
    assert_eq!(error_of(action), KernelError::AlreadyExists("clock".to_owned()));
}

#[test]
fn install_of_an_invalid_manifest_is_refused() {
    let mut processes = ProcessManager::default();
    let (session, _) = begin(ControlCommand::Install { source: "/tmp/clock".to_owned() });
    let (session, _) = advance(session, Event::Checked(true), &mut processes, &layout());
    let mut manifest = process("clock", &[]);
    manifest.requires = vec!["clock".to_owned()];
    let (_, action) = advance(session, Event::ManifestRead(Ok(manifest)), &mut processes, &layout());
    assert_eq!(
        error_of(action),
        KernelError::InvalidData("plugin clock depends on itself".to_owned())
    );
}

#[test]
fn status_of_a_missing_plugin_is_not_found() {
    let mut processes = ProcessManager::default();
    let (session, _) = begin(ControlCommand::Status { id: "clock".to_owned() });
    let (session, action) = advance(session, Event::Scanned(Ok(snapshot_of(vec![]))), &mut processes, &layout());
    assert!(matches!(session, Session::Finished));
    assert_eq!(error_of(action), KernelError::NotFound("clock".to_owned()));
}

#[test]
fn status_reports_the_plugin_with_its_settings() {
    let mut processes = ProcessManager::default();
    let (session, _) = begin(ControlCommand::Status { id: "clock".to_owned() });
    let (session, action) = advance(
        session,
        Event::Scanned(Ok(snapshot_of(vec![process("clock", &[])]))),
        &mut processes,
        &layout(),
    );
    assert!(matches!(action, Action::ReadState));
    let (session, action) = advance(session, Event::StateRead(Ok(state_with(&["clock"]))), &mut processes, &layout());
    match &action {
        Action::ReadSettings(ids) => assert_eq!(ids, &vec!["clock".to_owned()]),
        _ => panic!("settings were not asked for"),
    }
    let mut settings = PluginSettings::default();
    settings.set("timezone".to_owned(), Value::String("Asia/Tokyo".to_owned()));
    let (session, action) = advance(session, Event::SettingsRead(vec![Ok(settings)]), &mut processes, &layout());
    assert!(matches!(session, Session::Finished));
    match action {
        Action::Done(Ok(ControlData::Plugin(view))) => {
            assert_eq!(view.id, "clock");
            assert!(view.autostart);
            assert_eq!(view.path, "/easos/clock");
            assert_eq!(view.last_exit, None);
            assert_eq!(
                view.settings.get("timezone"),
                Some(&Value::String("Asia/Tokyo".to_owned()))
            );
        }
        _ => panic!("the plugin was not reported"),
    }
}

#[test]
fn list_reads_the_settings_of_every_plugin_in_id_order() {
    let mut processes = ProcessManager::default();
    let (session, _) = begin(ControlCommand::List);
    let snapshot = snapshot_of(vec![process("weather", &[]), process("clock", &[])]);
    let (session, action) = advance(session, Event::Scanned(Ok(snapshot)), &mut processes, &layout());
    assert!(matches!(action, Action::ReadState));
    let (session, action) = advance(session, Event::StateRead(Ok(KernelState::default())), &mut processes, &layout());
    match &action {
        Action::ReadSettings(ids) => assert_eq!(ids, &vec!["clock".to_owned(), "weather".to_owned()]),
        _ => panic!("settings were not asked for"),
    }
    let (_, action) = advance(
        session,
        Event::SettingsRead(vec![Ok(PluginSettings::default()), Ok(PluginSettings::default())]),
        &mut processes,
        &layout(),
    );
    match action {
        Action::Done(Ok(ControlData::Inventory(inventory))) => {
            let ids: Vec<&str> = inventory.plugins.iter().map(|view| view.id.as_str()).collect();
            assert_eq!(ids, ["clock", "weather"]);
        }
        _ => panic!("the plugins were not listed"),
    }
}

#[test]
fn list_needs_one_settings_read_per_plugin() {
    let mut processes = ProcessManager::default();
    let (session, _) = begin(ControlCommand::List);
    let snapshot = snapshot_of(vec![process("clock", &[])]);
    let (session, _) = advance(session, Event::Scanned(Ok(snapshot)), &mut processes, &layout());
    let (session, _) = advance(session, Event::StateRead(Ok(KernelState::default())), &mut processes, &layout());
    let (_, action) = advance(session, Event::SettingsRead(vec![]), &mut processes, &layout());
    assert_eq!(
        error_of(action),
        KernelError::Internal("settings were not read for every plugin".to_owned())
    );
}

#[test]
fn uninstall_removes_the_directory_then_the_autostart_entry() {
    let mut processes = ProcessManager::default();
    let (session, action) = begin(ControlCommand::Uninstall { id: "clock".to_owned() });
    assert!(matches!(action, Action::Scan));
    let snapshot = snapshot_of(vec![process("clock", &[]), process("weather", &[])]);
    let (session, action) = advance(session, Event::Scanned(Ok(snapshot)), &mut processes, &layout());
    match &action {
        Action::Remove(id, path) => {
            assert_eq!(id, "clock");
            assert_eq!(path, "/easos/clock");
        }
        _ => panic!("the directory was not removed"),
    }
    let (session, action) = advance(session, Event::Removed(Ok(())), &mut processes, &layout());
    assert!(matches!(action, Action::ReadState));
    let (session, action) = advance(
        session,
        Event::StateRead(Ok(state_with(&["clock", "weather"]))),
        &mut processes,
        &layout(),
    );
    match &action {
        Action::WriteState(path, state) => {
            assert_eq!(path, "/easos/kernel/config/state.json");
            assert!(!state.autostart.contains("clock"));
            assert!(state.autostart.contains("weather"));
            assert_eq!(state.autostart.len(), 1);
        }
        _ => panic!("the kernel state was not written"),
    }
    let (session, action) = advance(session, Event::StateWritten(Ok(())), &mut processes, &layout());
    assert!(matches!(session, Session::ListScan));
    assert!(matches!(action, Action::Scan));
}

#[test]
fn uninstall_of_a_required_plugin_is_refused() {
    let mut processes = ProcessManager::default();
    let (session, _) = begin(ControlCommand::Uninstall { id: "base".to_owned() });
    let snapshot = snapshot_of(vec![process("base", &[]), process("app", &["base"])]);
    let (session, action) = advance(session, Event::Scanned(Ok(snapshot)), &mut processes, &layout());
    assert!(matches!(session, Session::Finished));
    assert_eq!(
        error_of(action),
        KernelError::Dependency("plugin base is required by: app".to_owned())
    );
}

#[test]
fn uninstall_of_a_missing_plugin_is_not_found() {
    let mut processes = ProcessManager::default();
    let (session, _) = begin(ControlCommand::Uninstall { id: "clock".to_owned() });
    let (_, action) = advance(session, Event::Scanned(Ok(snapshot_of(vec![]))), &mut processes, &layout());
    assert_eq!(error_of(action), KernelError::NotFound("clock".to_owned()));
}

#[test]
fn start_launches_dependencies_first() {
    let mut processes = ProcessManager::default();
    let (session, _) = begin(ControlCommand::Start { id: "app".to_owned() });
    let snapshot = snapshot_of(vec![
        process("app", &["base", "kernel"]),
        process("base", &[]),
        PluginManifest::kernel_builtin(),
    ]);
    let (session, action) = advance(session, Event::Scanned(Ok(snapshot)), &mut processes, &layout());
    match &action {
        Action::Launch(plan) => {
            assert_eq!(plan.id, "base");
            assert_eq!(plan.executable, "/easos/base/bin/service");
            assert_eq!(plan.args, vec!["--quiet".to_owned()]);
            assert_eq!(plan.log_file, "/run/easos/logs/base.log");
            assert_eq!(plan.stop_timeout_ms, 2_000);
        }
        _ => panic!("nothing was launched"),
    }
    assert!(matches!(session, Session::Launching { ref plan_id, .. } if plan_id == "base"));
    let failure = KernelError::Io("failed to start plugin base: denied".to_owned());
    let (session, action) = advance(session, Event::Launched(Err(failure.clone())), &mut processes, &layout());
    assert!(matches!(session, Session::Finished));
    assert_eq!(error_of(action), failure);
}

#[test]
fn start_of_a_plugin_without_runtime_is_refused() {
    let mut processes = ProcessManager::default();
    let (session, _) = begin(ControlCommand::Start { id: "tool".to_owned() });
    let mut tool = process("tool", &[]);
    tool.runtime = None;
    let (_, action) = advance(session, Event::Scanned(Ok(snapshot_of(vec![tool]))), &mut processes, &layout());
    assert_eq!(
        error_of(action),
        KernelError::InvalidData("plugin tool has no process runtime".to_owned())
    );
}

#[test]
fn start_with_a_missing_dependency_is_refused() {
    let mut processes = ProcessManager::default();
    let (session, _) = begin(ControlCommand::Start { id: "app".to_owned() });
    let snapshot = snapshot_of(vec![process("app", &["base"])]);
    let (_, action) = advance(session, Event::Scanned(Ok(snapshot)), &mut processes, &layout());
    assert_eq!(
        error_of(action),
        KernelError::Dependency("required plugin base is missing".to_owned())
    );
}

#[test]
fn stop_of_a_plugin_that_is_not_running_reports_it() {
    let mut processes = ProcessManager::default();
    let (session, _) = begin(ControlCommand::Stop { id: "clock".to_owned() });
    let snapshot = snapshot_of(vec![process("clock", &[])]);
    let (session, action) = advance(session, Event::Scanned(Ok(snapshot)), &mut processes, &layout());
    assert!(matches!(session, Session::PluginScan { ref id } if id == "clock"));
    assert!(matches!(action, Action::Scan));
}

#[test]
fn autostart_writes_the_kernel_state() {
    let mut processes = ProcessManager::default();
    let (session, _) = begin(ControlCommand::SetAutostart { id: "clock".to_owned(), enabled: true });
    let snapshot = snapshot_of(vec![process("clock", &[])]);
    let (session, action) = advance(session, Event::Scanned(Ok(snapshot)), &mut processes, &layout());
    assert!(matches!(action, Action::ReadState));
    let (session, action) = advance(session, Event::StateRead(Ok(state_with(&["weather"]))), &mut processes, &layout());
    match &action {
        Action::WriteState(_, state) => {
            assert!(state.autostart.contains("clock"));
            assert!(state.autostart.contains("weather"));
        }
        _ => panic!("the kernel state was not written"),
    }
    let (session, action) = advance(session, Event::StateWritten(Ok(())), &mut processes, &layout());
    assert!(matches!(session, Session::PluginScan { ref id } if id == "clock"));
    assert!(matches!(action, Action::Scan));
}

#[test]
fn autostart_of_a_missing_plugin_is_not_found() {
    let mut processes = ProcessManager::default();
    let (session, _) = begin(ControlCommand::SetAutostart { id: "clock".to_owned(), enabled: false });
    let (_, action) = advance(session, Event::Scanned(Ok(snapshot_of(vec![]))), &mut processes, &layout());
    assert_eq!(error_of(action), KernelError::NotFound("clock".to_owned()));
}

#[test]
fn set_config_writes_the_edited_settings_and_answers_with_them() {
    let mut processes = ProcessManager::default();
    let (session, _) = begin(ControlCommand::SetConfig {
        id: "clock".to_owned(),
        key: "timezone".to_owned(),
        value: Value::String("Asia/Tokyo".to_owned()),
    });
    let snapshot = snapshot_of(vec![process("clock", &[])]);
    let (session, action) = advance(session, Event::Scanned(Ok(snapshot)), &mut processes, &layout());
    assert!(matches!(action, Action::ReadSettings(ref ids) if ids == &vec!["clock".to_owned()]));
    let mut old = PluginSettings::default();
    old.set("format".to_owned(), Value::String("24h".to_owned()));
    let (session, action) = advance(session, Event::SettingsRead(vec![Ok(old)]), &mut processes, &layout());
    let (path, written) = match action {
        Action::WriteSettings(path, settings) => (path, settings),
        _ => panic!("the settings were not written"),
    };
    assert_eq!(path, "/easos/clock/config/main.json");
    assert_eq!(written.settings.len(), 2);
    assert_eq!(written.settings.get("timezone"), Some(&Value::String("Asia/Tokyo".to_owned())));
    drop(written);
    let (session, action) = advance(session, Event::SettingsWritten(Ok(())), &mut processes, &layout());
    assert!(matches!(session, Session::Finished));
    match action {
        Action::Done(Ok(ControlData::Config(settings))) => {
            assert_eq!(settings.schema_version, 1);
            assert_eq!(settings.settings.len(), 2);
            assert_eq!(settings.settings.get("format"), Some(&Value::String("24h".to_owned())));
            assert_eq!(settings.settings.get("timezone"), Some(&Value::String("Asia/Tokyo".to_owned())));
        }
        _ => panic!("the settings were not the answer"),
    }
}

#[test]
fn unset_config_removes_the_key() {
    let mut processes = ProcessManager::default();
    let (session, _) = begin(ControlCommand::UnsetConfig { id: "clock".to_owned(), key: "format".to_owned() });
    let snapshot = snapshot_of(vec![process("clock", &[])]);
    let (session, _) = advance(session, Event::Scanned(Ok(snapshot)), &mut processes, &layout());
    let mut old = PluginSettings::default();
    old.set("format".to_owned(), Value::String("24h".to_owned()));
    let (_, action) = advance(session, Event::SettingsRead(vec![Ok(old)]), &mut processes, &layout());
    match action {
        Action::WriteSettings(_, settings) => assert_eq!(settings.settings.len(), 0),
        _ => panic!("the settings were not written"),
    }
}

#[test]
fn get_config_refuses_settings_of_another_schema() {
    let mut processes = ProcessManager::default();
    let (session, _) = begin(ControlCommand::GetConfig { id: "clock".to_owned() });
    let snapshot = snapshot_of(vec![process("clock", &[])]);
    let (session, _) = advance(session, Event::Scanned(Ok(snapshot)), &mut processes, &layout());
    let mut settings = PluginSettings::default();
    settings.schema_version = 2;
    let (_, action) = advance(session, Event::SettingsRead(vec![Ok(settings)]), &mut processes, &layout());
    assert_eq!(
        error_of(action),
        KernelError::InvalidData("plugin config uses schema_version 2, expected 1".to_owned())
    );
}

#[test]
fn a_read_error_answers_the_command() {
    let mut processes = ProcessManager::default();
    let (session, _) = begin(ControlCommand::List);
    let failure = KernelError::Io("permission denied".to_owned());
    let (session, action) = advance(session, Event::Scanned(Err(failure.clone())), &mut processes, &layout());
    assert!(matches!(session, Session::Finished));
    assert_eq!(error_of(action), failure);
}

#[test]
fn an_event_that_does_not_fit_the_step_is_an_internal_error() {
    let mut processes = ProcessManager::default();
    let (session, _) = begin(ControlCommand::List);
    let (_, action) = advance(session, Event::Removed(Ok(())), &mut processes, &layout());
    assert_eq!(
        error_of(action),
        KernelError::Internal("unexpected event for the command's step".to_owned())
    );
    let (_, action) = advance(Session::Finished, Event::StateWritten(Ok(())), &mut processes, &layout());
    assert!(matches!(error_of(action), KernelError::Internal(_)));
}

#[test]
fn start_records_the_spawned_process_then_reports() {
    let runtime = tokio::runtime::Runtime::new().unwrap();
    let _guard = runtime.enter();
    let mut processes = ProcessManager::default();
    processes.record_exit("clock".to_owned(), 1);
    let (session, _) = begin(ControlCommand::Start { id: "clock".to_owned() });
    let snapshot = snapshot_of(vec![process("clock", &[])]);
    let (session, action) = advance(session, Event::Scanned(Ok(snapshot)), &mut processes, &layout());
    assert!(matches!(action, Action::Launch(ref plan) if plan.id == "clock"));
    let child = tokio::process::Command::new("sleep").arg("5").kill_on_drop(true).spawn().unwrap();
    let (session, action) = advance(session, Event::Launched(Ok(child)), &mut processes, &layout());
    assert!(matches!(session, Session::PluginScan { ref id } if id == "clock"));
    assert!(matches!(action, Action::Scan));
    assert!(processes.is_running("clock"));
    assert_eq!(processes.last_exit("clock"), None);
}

#[test]
fn stop_asks_the_process_to_end_and_records_its_exit() {
    let runtime = tokio::runtime::Runtime::new().unwrap();
    let _guard = runtime.enter();
    let mut processes = ProcessManager::default();
    let child = tokio::process::Command::new("sleep").arg("5").kill_on_drop(true).spawn().unwrap();
    processes.record_started("clock".to_owned(), child, 2_000);
    let (session, _) = begin(ControlCommand::Stop { id: "clock".to_owned() });
    let snapshot = snapshot_of(vec![process("clock", &[])]);
    let (session, action) = advance(session, Event::Scanned(Ok(snapshot)), &mut processes, &layout());
    assert!(matches!(session, Session::Stopping { ref id } if id == "clock"));
    match &action {
        Action::Terminate(managed) => assert_eq!(managed.stop_timeout_ms, 2_000),
        _ => panic!("the process was not asked to end"),
    }
    assert!(!processes.is_running("clock"));
    let (session, action) = advance(session, Event::Terminated(Ok(Some(0))), &mut processes, &layout());
    assert!(matches!(session, Session::PluginScan { ref id } if id == "clock"));
    assert!(matches!(action, Action::Scan));
    assert_eq!(processes.last_exit("clock"), Some(0));
}

#[test]
fn stop_is_refused_while_a_dependent_runs() {
    let runtime = tokio::runtime::Runtime::new().unwrap();
    let _guard = runtime.enter();
    let mut processes = ProcessManager::default();
    let child = tokio::process::Command::new("sleep").arg("5").kill_on_drop(true).spawn().unwrap();
    processes.record_started("app".to_owned(), child, 2_000);
    let (session, _) = begin(ControlCommand::Stop { id: "base".to_owned() });
    let snapshot = snapshot_of(vec![process("base", &[]), process("app", &["base"])]);
    let (session, action) = advance(session, Event::Scanned(Ok(snapshot)), &mut processes, &layout());
    assert!(matches!(session, Session::Finished));
    assert_eq!(
        error_of(action),
        KernelError::Dependency("plugin base has running dependents: app".to_owned())
    );
}

#[test]
fn uninstall_of_a_running_plugin_is_refused() {
    let runtime = tokio::runtime::Runtime::new().unwrap();
    let _guard = runtime.enter();
    let mut processes = ProcessManager::default();
    let child = tokio::process::Command::new("sleep").arg("5").kill_on_drop(true).spawn().unwrap();
    processes.record_started("clock".to_owned(), child, 2_000);
    let (session, _) = begin(ControlCommand::Uninstall { id: "clock".to_owned() });
    let snapshot = snapshot_of(vec![process("clock", &[])]);
    let (_, action) = advance(session, Event::Scanned(Ok(snapshot)), &mut processes, &layout());
    assert_eq!(
        error_of(action),
        KernelError::Conflict("plugin clock is running; stop it before uninstalling".to_owned())
    );
}

#[test]
fn start_passes_over_running_plugins_and_launches_the_next() {
    let runtime = tokio::runtime::Runtime::new().unwrap();
    let _guard = runtime.enter();
    let mut processes = ProcessManager::default();
    let child = tokio::process::Command::new("sleep").arg("5").kill_on_drop(true).spawn().unwrap();
    processes.record_started("base".to_owned(), child, 2_000);
    let (session, _) = begin(ControlCommand::Start { id: "app".to_owned() });
    let snapshot = snapshot_of(vec![process("app", &["base"]), process("base", &[])]);
    let (session, action) = advance(session, Event::Scanned(Ok(snapshot)), &mut processes, &layout());
    assert!(matches!(action, Action::Launch(ref plan) if plan.id == "app"));
    assert!(matches!(session, Session::Launching { ref pending, .. } if pending.is_empty()));
}

#[test]
fn enabling_autostart_twice_writes_the_same_state() {
    let mut processes = ProcessManager::default();
    let mut written = Vec::new();
    let mut state = state_with(&["weather"]);
    for _ in 0..2 {
        let (session, _) = begin(ControlCommand::SetAutostart { id: "clock".to_owned(), enabled: true });
        let snapshot = snapshot_of(vec![process("clock", &[])]);
        let (session, _) = advance(session, Event::Scanned(Ok(snapshot)), &mut processes, &layout());
        let (_, action) = advance(session, Event::StateRead(Ok(state)), &mut processes, &layout());
        state = match action {
            Action::WriteState(_, next) => next,
            _ => panic!("the kernel state was not written"),
        };
        written.push((0..state.autostart.len()).map(|i| state.autostart.at(i).clone()).collect::<Vec<_>>());
    }
    assert_eq!(written[0], vec!["clock".to_owned(), "weather".to_owned()]);
    assert_eq!(written[0], written[1]);
}

#[test]
fn a_failed_settings_write_answers_its_error() {
    let mut processes = ProcessManager::default();
    let (session, _) = begin(ControlCommand::UnsetConfig { id: "clock".to_owned(), key: "format".to_owned() });
    let snapshot = snapshot_of(vec![process("clock", &[])]);
    let (session, _) = advance(session, Event::Scanned(Ok(snapshot)), &mut processes, &layout());
    let (session, _) = advance(session, Event::SettingsRead(vec![Ok(PluginSettings::default())]), &mut processes, &layout());
    let failure = KernelError::Io("disk full".to_owned());
    let (_, action) = advance(session, Event::SettingsWritten(Err(failure.clone())), &mut processes, &layout());
    assert_eq!(error_of(action), failure);
}

#[test]
fn a_process_a_signal_ended_is_recorded_with_minus_one() {
    let runtime = tokio::runtime::Runtime::new().unwrap();
    let _guard = runtime.enter();
    let mut processes = ProcessManager::default();
    let child = tokio::process::Command::new("sleep").arg("5").kill_on_drop(true).spawn().unwrap();
    processes.record_started("clock".to_owned(), child, 2_000);
    let (session, _) = begin(ControlCommand::Stop { id: "clock".to_owned() });
    let snapshot = snapshot_of(vec![process("clock", &[])]);
    let (session, _) = advance(session, Event::Scanned(Ok(snapshot)), &mut processes, &layout());
    let (_, action) = advance(session, Event::Terminated(Ok(None)), &mut processes, &layout());
    assert!(matches!(action, Action::Scan));
    assert_eq!(processes.last_exit("clock"), Some(-1));
}
