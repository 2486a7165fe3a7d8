use std::time::Duration;

use easos_kernel::layout::Layout;
use easos_kernel::model::{PluginKind, PluginManifest, RuntimeSpec};
use easos_kernel::process::ProcessManager;
use easos_kernel::error::KernelError;
use easos_kernel::model::{validate_identifier, validate_symbol};
use easos_kernel::text::{decimal_text, join_texts, text_eq, text_order, TextOrder};
use easos_kernel::textmap::{TextMap, TextSet};

#[test]
fn forget_clears_exit_state_for_reinstall() {
    let mut processes = ProcessManager::default();
    processes.record_exit("clock".to_owned(), 0);
    processes.forget("clock");
    assert_eq!(processes.last_exit("clock"), None);
}

#[test]
fn numbers_render_in_decimal() {
    assert_eq!(decimal_text(0), "0");
    assert_eq!(decimal_text(7), "7");
    assert_eq!(decimal_text(1234567), "1234567");
    assert_eq!(decimal_text(u64::MAX), u64::MAX.to_string());
}

#[test]
fn texts_order_by_code_point() {
    assert!(matches!(text_order("a", "b"), TextOrder::Before));
    assert!(matches!(text_order("ab", "a"), TextOrder::After));
    assert!(matches!(text_order("", ""), TextOrder::Same));
    assert!(matches!(text_order("Z", "a"), TextOrder::Before));
    assert!(matches!(text_order("é", "z"), TextOrder::After));
    assert!(text_eq("same", "same"));
    assert!(!text_eq("same", "Same"));
}

#[test]
fn lists_join_with_separator() {
    assert_eq!(join_texts(&vec![], ", "), "");
    assert_eq!(join_texts(&vec!["a".to_owned()], ", "), "a");
    assert_eq!(join_texts(&vec!["a".to_owned(), "b".to_owned(), "c".to_owned()], ", "), "a, b, c");
}

#[test]
fn debug_rendering_quotes_and_escapes() {
    assert_eq!(
        validate_symbol("a\"b\n", "provided service"),
        Err(KernelError::InvalidData(
            "provided service \"a\\\"b\\n\" contains unsupported characters".to_owned()
        ))
    );
    assert_eq!(
        validate_identifier("-clock", "plugin id"),
        Err(KernelError::InvalidData(
            "plugin id \"-clock\" must be 1-64 ASCII letters, digits, '.', '-' or '_' and must not contain '..'"
                .to_owned()
        ))
    );
}

#[test]
fn text_maps_keep_keys_in_order() {
    let mut map: TextMap<u32> = TextMap::new();
    map.insert("b".to_owned(), 2);
    map.insert("a".to_owned(), 1);
    map.insert("c".to_owned(), 3);
    map.insert("b".to_owned(), 20);
    assert_eq!(map.len(), 3);
    assert_eq!((map.key_at(0).as_str(), *map.value_at(0)), ("a", 1));
    assert_eq!((map.key_at(1).as_str(), *map.value_at(1)), ("b", 20));
    assert_eq!(map.remove("a"), Some(1));
    assert_eq!(map.remove("a"), None);
    assert_eq!(map.get("c"), Some(&3));
    let mut set = TextSet::new();
    set.insert("y".to_owned());
    set.insert("x".to_owned());
    set.insert("y".to_owned());
    assert_eq!(set.len(), 2);
    assert_eq!(set.at(0), "x");
    set.remove("x");
    assert!(!set.contains("x"));
}

fn clock_manifest() -> PluginManifest {
    let mut environment = TextMap::new();
    environment.insert("TZ".to_owned(), "UTC".to_owned());
    environment.insert("EASOS_HOME".to_owned(), "/elsewhere".to_owned());
    let mut m = PluginManifest::kernel_builtin();
    m.id = "clock".to_owned();
    m.kind = PluginKind::Process;
    m.runtime = Some(RuntimeSpec {
        entrypoint: "bin/clock".to_owned(),
        args: vec!["--fast".to_owned()],
        environment,
        stop_timeout_ms: 2500,
    });
    m
}

#[test]
fn launch_plans_name_paths_and_environment() {
    let layout = Layout::new("/easos".to_owned(), "/run/easos".to_owned());
    let processes = ProcessManager::default();
    let plan = processes.launch_plan(&layout, &clock_manifest()).unwrap().unwrap();
    assert_eq!(plan.plugin_dir, "/easos/clock");
    assert_eq!(plan.executable, "/easos/clock/bin/clock");
    assert_eq!(plan.args, vec!["--fast".to_owned()]);
    assert_eq!(plan.config_file, "/easos/clock/config/main.json");
    assert_eq!(plan.log_file, "/run/easos/logs/clock.log");
    assert_eq!(plan.stop_timeout_ms, 2500);
    assert_eq!(plan.environment.get("TZ").map(String::as_str), Some("UTC"));
    assert_eq!(plan.environment.get("EASOS_HOME").map(String::as_str), Some("/easos"));
    assert_eq!(plan.environment.get("EASOS_PLUGIN_ID").map(String::as_str), Some("clock"));
    assert_eq!(plan.environment.get("EASOS_PLUGIN_HOME").map(String::as_str), Some("/easos/clock"));
    assert_eq!(
        plan.environment.get("EASOS_PLUGIN_CONFIG_PATH").map(String::as_str),
        Some("/easos/clock/config/main.json")
    );
    assert_eq!(
        plan.environment.get("EASOS_RUNTIME_HOME").map(String::as_str),
        Some("/run/easos")
    );
    assert_eq!(plan.environment.len(), 6);
    assert_eq!(
        plan.missing_entrypoint().message(),
        "invalid data: plugin clock entrypoint does not exist: /easos/clock/bin/clock"
    );

    let mut builtin = clock_manifest();
    builtin.runtime = None;
    assert_eq!(
        processes.launch_plan(&layout, &builtin).err().map(|e| e.message()),
        Some("invalid data: plugin clock has no process runtime".to_owned())
    );
}

#[test]
fn ended_processes_are_collected_with_their_exit_code() {
    let runtime = tokio::runtime::Runtime::new().unwrap();
    let _guard = runtime.enter();
    let layout = Layout::new("/easos".to_owned(), "/run/easos".to_owned());
    let mut processes = ProcessManager::default();
    let child = tokio::process::Command::new("sh")
        .arg("-c")
        .arg("exit 3")
        .spawn()
        .unwrap();
    processes.record_exit("clock".to_owned(), 9);
    processes.record_started("clock".to_owned(), child, 1000);
    assert!(processes.is_running("clock"));
    assert_eq!(processes.last_exit("clock"), None);
    assert!(matches!(processes.launch_plan(&layout, &clock_manifest()), Ok(None)));
    let mut waited = 0;
    while processes.is_running("clock") && waited < 100 {
        runtime.block_on(tokio::time::sleep(Duration::from_millis(50)));
        processes.refresh().unwrap();
        waited += 1;
    }
    assert!(!processes.is_running("clock"));
    assert_eq!(processes.last_exit("clock"), Some(3));
}

#[test]
fn shutdown_goes_in_reverse_id_order() {
    let runtime = tokio::runtime::Runtime::new().unwrap();
    let _guard = runtime.enter();
    let mut processes = ProcessManager::default();
    for id in ["b", "c", "a"] {
        let child = tokio::process::Command::new("sleep").arg("5").kill_on_drop(true).spawn().unwrap();
        processes.record_started(id.to_owned(), child, 100);
    }
    assert_eq!(processes.shutdown_order(), ["c", "b", "a"]);
    let taken = processes.take_running("b").unwrap();
    assert_eq!(taken.stop_timeout_ms, 100);
    assert!(processes.take_running("b").is_none());
    assert_eq!(processes.shutdown_order(), ["c", "a"]);
}

#[test]
fn a_process_is_taken_for_stopping_only_while_it_runs() {
    let runtime = tokio::runtime::Runtime::new().unwrap();
    let _guard = runtime.enter();
    let mut processes = ProcessManager::default();
    let child = tokio::process::Command::new("sleep").arg("5").kill_on_drop(true).spawn().unwrap();
    processes.record_started("clock".to_owned(), child, 750);
    let taken = processes.take_for_stop("clock").unwrap().unwrap();
    assert_eq!(taken.stop_timeout_ms, 750);
    assert!(!processes.is_running("clock"));
    assert!(processes.take_for_stop("clock").unwrap().is_none());
    assert!(processes.take_for_stop("weather").unwrap().is_none());
}

#[test]
fn collecting_with_nothing_running_succeeds_and_keeps_the_exits() {
    let mut processes = ProcessManager::default();
    processes.record_exit("clock".to_owned(), 2);
    assert_eq!(processes.refresh(), Ok(()));
    assert_eq!(processes.last_exit("clock"), Some(2));
    assert!(!processes.is_running("clock"));
}

#[test]
fn a_workspace_given_relatively_is_laid_out_with_absolute_paths() {
    let layout = Layout::in_directory("/srv", "easos", "/run/easos");
    assert_eq!(layout.root(), "/srv/easos");
    assert_eq!(layout.runtime_root(), "/run/easos");
    let processes = ProcessManager::default();
    let plan = processes.launch_plan(&layout, &clock_manifest()).unwrap().unwrap();
    assert_eq!(
        plan.environment.get("EASOS_PLUGIN_CONFIG_PATH").map(String::as_str),
        Some("/srv/easos/clock/config/main.json")
    );
    let layout = Layout::in_directory("/srv", "/easos", "run");
    assert_eq!(layout.root(), "/easos");
    assert_eq!(layout.logs_dir(), "/srv/run/logs");
}

#[test]
fn collected_exits_remove_ended_plugins_and_record_their_codes() {
    let runtime = tokio::runtime::Runtime::new().unwrap();
    let _guard = runtime.enter();
    let mut processes = ProcessManager::default();
    for id in ["a", "b", "c"] {
        let child = tokio::process::Command::new("sleep").arg("5").kill_on_drop(true).spawn().unwrap();
        processes.record_started(id.to_owned(), child, 100);
    }
    processes.record_exit("d".to_owned(), 7);
    processes.collect_exits(vec![
        ("a".to_owned(), Some(Some(3))),
        ("b".to_owned(), None),
        ("c".to_owned(), Some(None)),
    ]);
    assert!(!processes.is_running("a"));
    assert!(processes.is_running("b"));
    assert!(!processes.is_running("c"));
    assert_eq!(processes.last_exit("a"), Some(3));
    assert_eq!(processes.last_exit("b"), None);
    assert_eq!(processes.last_exit("c"), Some(-1));
    assert_eq!(processes.last_exit("d"), Some(7));
}
