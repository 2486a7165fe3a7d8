use easos_kernel::error::KernelError;
use easos_kernel::kernel::{
    check_stop, check_uninstall, dependency_order, ensure_mutable, installed_dependents,
    inventory, plugin_view, plugins_to_start, require_manifest, set_autostart,
    validate_config_key,
};
use easos_kernel::layout::Layout;
use easos_kernel::model::{
    KernelState, PluginKind, PluginManifest, PluginSettings, PluginState, RuntimeSpec,
};
use easos_kernel::process::ProcessManager;
use easos_kernel::registry::RegistrySnapshot;
use easos_kernel::textmap::TextMap;

fn manifest(id: &str, requires: &[&str]) -> PluginManifest {
    let mut value = PluginManifest::kernel_builtin();
    value.id = id.to_owned();
    value.requires = requires.iter().map(|item| (*item).to_owned()).collect();
    value
}

fn process(id: &str, requires: &[&str]) -> PluginManifest {
    let mut value = manifest(id, requires);
    value.kind = PluginKind::Process;
    value.runtime = Some(RuntimeSpec {
        entrypoint: "bin/service".to_owned(),
        args: Vec::new(),
        environment: TextMap::new(),
        stop_timeout_ms: 2_000,
    });
    value
}

fn snapshot_of(manifests: Vec<PluginManifest>) -> RegistrySnapshot {
    let mut snapshot = RegistrySnapshot::default();
    for m in manifests {
        snapshot.manifests.insert(m.id.clone(), m);
    }
    snapshot
}

#[test]
fn dependencies_are_ordered_before_the_requesting_plugin() {
    let mut snapshot = RegistrySnapshot::default();
    snapshot
        .manifests
        .insert("base".to_owned(), manifest("base", &[]));
    snapshot
        .manifests
        .insert("app".to_owned(), manifest("app", &["base"]));
    assert_eq!(dependency_order(&snapshot, "app").unwrap(), ["base", "app"]);
}

#[test]
fn dependency_cycles_are_rejected() {
    let mut snapshot = RegistrySnapshot::default();
    snapshot
        .manifests
        .insert("a".to_owned(), manifest("a", &["b"]));
    snapshot
        .manifests
        .insert("b".to_owned(), manifest("b", &["a"]));
    assert!(dependency_order(&snapshot, "a").is_err());
}

#[test]
fn dependency_order_reports_cycles_and_missing_plugins() {
    let snapshot = snapshot_of(vec![manifest("a", &["b"]), manifest("b", &["a"])]);
    assert_eq!(
        dependency_order(&snapshot, "a"),
        Err(KernelError::Dependency("dependency cycle detected at plugin a".to_owned()))
    );
    let snapshot = snapshot_of(vec![manifest("app", &["base", "gone"]), manifest("base", &[])]);
    assert_eq!(
        dependency_order(&snapshot, "app"),
        Err(KernelError::Dependency("required plugin gone is missing".to_owned()))
    );
    assert_eq!(
        dependency_order(&snapshot, "nothing"),
        Err(KernelError::Dependency("required plugin nothing is missing".to_owned()))
    );
}

#[test]
fn shared_dependencies_start_once() {
    let snapshot = snapshot_of(vec![
        manifest("app", &["left", "right"]),
        manifest("left", &["base"]),
        manifest("right", &["base"]),
        manifest("base", &[]),
    ]);
    assert_eq!(
        dependency_order(&snapshot, "app").unwrap(),
        ["base", "left", "right", "app"]
    );
}

#[test]
fn the_kernel_is_not_started_again() {
    let snapshot = snapshot_of(vec![
        PluginManifest::kernel_builtin(),
        process("clock", &["kernel"]),
    ]);
    assert_eq!(dependency_order(&snapshot, "clock").unwrap(), ["kernel", "clock"]);
    assert_eq!(plugins_to_start(&snapshot, "clock").unwrap(), ["clock"]);
}

#[test]
fn kernel_is_protected() {
    assert_eq!(
        ensure_mutable("kernel"),
        Err(KernelError::Protected("kernel".to_owned()))
    );
    assert_eq!(ensure_mutable("clock"), Ok(()));
}

#[test]
fn config_keys_are_checked() {
    let error = Err(KernelError::InvalidData(
        "config key must be 1-128 non-whitespace characters".to_owned(),
    ));
    assert_eq!(validate_config_key("timezone"), Ok(()));
    assert_eq!(validate_config_key(&"k".repeat(128)), Ok(()));
    assert_eq!(validate_config_key(&"é".repeat(64)), Ok(()));
    assert_eq!(validate_config_key(&"é".repeat(65)), error);
    assert_eq!(validate_config_key(""), error);
    assert_eq!(validate_config_key("time zone"), error);
    assert_eq!(validate_config_key("a\u{3000}b"), error);
}

#[test]
fn manifests_are_required() {
    let snapshot = snapshot_of(vec![manifest("base", &[])]);
    assert_eq!(require_manifest(&snapshot, "base").unwrap().id, "base");
    assert_eq!(
        require_manifest(&snapshot, "clock").err(),
        Some(KernelError::NotFound("clock".to_owned()))
    );
}

#[test]
fn dependents_are_listed_in_id_order() {
    let snapshot = snapshot_of(vec![
        manifest("zeta", &["base"]),
        manifest("alpha", &["base", "other"]),
        manifest("base", &[]),
        manifest("other", &[]),
    ]);
    assert_eq!(installed_dependents(&snapshot, "base"), ["alpha", "zeta"]);
    assert_eq!(installed_dependents(&snapshot, "other"), ["alpha"]);
    assert!(installed_dependents(&snapshot, "alpha").is_empty());
}

#[test]
fn uninstall_is_refused_while_required() {
    let snapshot = snapshot_of(vec![
        process("app", &["base"]),
        process("tool", &["base"]),
        process("base", &[]),
    ]);
    let mut processes = ProcessManager::default();
    assert_eq!(
        check_uninstall(&mut processes, &snapshot, "base"),
        Err(KernelError::Dependency("plugin base is required by: app, tool".to_owned()))
    );
    assert_eq!(check_uninstall(&mut processes, &snapshot, "app"), Ok(()));
    assert_eq!(
        check_uninstall(&mut processes, &snapshot, "ghost"),
        Err(KernelError::NotFound("ghost".to_owned()))
    );
}

#[test]
fn stop_is_allowed_without_running_dependents() {
    let snapshot = snapshot_of(vec![process("app", &["base"]), process("base", &[])]);
    let mut processes = ProcessManager::default();
    assert_eq!(check_stop(&mut processes, &snapshot, "base"), Ok(()));
    assert_eq!(
        check_stop(&mut processes, &snapshot, "ghost"),
        Err(KernelError::NotFound("ghost".to_owned()))
    );
}

#[test]
fn views_report_state_autostart_and_exit() {
    let layout = Layout::new("/easos".to_owned(), "/run/easos".to_owned());
    let mut state = KernelState::default();
    set_autostart(&mut state, "clock".to_owned(), true);
    let mut processes = ProcessManager::default();
    let clock = process("clock", &[]);

    let view = plugin_view(&layout, &clock, &state, &processes, Ok(PluginSettings::default())).unwrap();
    assert_eq!(view.id, "clock");
    assert_eq!(view.state, PluginState::Installed);
    assert!(view.autostart);
    assert_eq!(view.path, "/easos/clock");
    assert_eq!(view.last_exit, None);

    processes.record_exit("clock".to_owned(), 4);
    let view = plugin_view(&layout, &clock, &state, &processes, Ok(PluginSettings::default())).unwrap();
    assert_eq!(view.state, PluginState::Exited);
    assert_eq!(view.last_exit, Some(4));

    set_autostart(&mut state, "clock".to_owned(), false);
    let kernel = PluginManifest::kernel_builtin();
    let view = plugin_view(&layout, &kernel, &state, &processes, Ok(PluginSettings::default())).unwrap();
    assert_eq!(view.state, PluginState::Builtin);
    assert!(!view.autostart);

    let mut bad = PluginSettings::default();
    bad.schema_version = 2;
    assert_eq!(
        plugin_view(&layout, &clock, &state, &processes, Ok(bad)).err(),
        Some(KernelError::InvalidData(
            "plugin config uses schema_version 2, expected 1".to_owned()
        ))
    );
    assert_eq!(
        plugin_view(&layout, &clock, &state, &processes, Err(KernelError::Io("gone".to_owned()))).err(),
        Some(KernelError::Io("gone".to_owned()))
    );
}

#[test]
fn inventory_lists_plugins_in_id_order() {
    let layout = Layout::new("/easos".to_owned(), "/run/easos".to_owned());
    let state = KernelState::default();
    let processes = ProcessManager::default();
    let snapshot = snapshot_of(vec![process("zeta", &[]), PluginManifest::kernel_builtin()]);
    let inv = inventory(
        &layout,
        snapshot,
        &state,
        &processes,
        vec![Ok(PluginSettings::default()), Ok(PluginSettings::default())],
    )
    .unwrap();
    let ids: Vec<&str> = inv.plugins.iter().map(|p| p.id.as_str()).collect();
    assert_eq!(ids, ["kernel", "zeta"]);
    assert!(inv.invalid_directories.is_empty());

    let snapshot = snapshot_of(vec![process("zeta", &[]), PluginManifest::kernel_builtin()]);
    let result = inventory(
        &layout,
        snapshot,
        &state,
        &processes,
        vec![Ok(PluginSettings::default()), Err(KernelError::Json("bad".to_owned()))],
    );
    assert_eq!(result.err(), Some(KernelError::Json("bad".to_owned())));
}

#[test]
fn autostart_round_trip() {
    let mut state = KernelState::default();
    set_autostart(&mut state, "clock".to_owned(), true);
    assert!(state.autostart.contains("clock"));
    assert_eq!(state.validate(), Ok(()));
    set_autostart(&mut state, "clock".to_owned(), false);
    assert!(!state.autostart.contains("clock"));
    assert_eq!(state.autostart.len(), 0);
}
