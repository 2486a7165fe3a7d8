use easos_kernel::error::KernelError;
use easos_kernel::layout::Layout;
use easos_kernel::model::{KernelState, PluginManifest, PluginSettings};
use easos_kernel::path::join_path;
use easos_kernel::rooted_layout;

#[test]
fn workspace_layout_paths() {
    let layout = Layout::new("/easos".to_owned(), "/run/easos".to_owned());
    assert_eq!(layout.root(), "/easos");
    assert_eq!(layout.kernel_dir(), "/easos/kernel");
    assert_eq!(layout.kernel_state_file(), "/easos/kernel/config/state.json");
    assert_eq!(layout.socket_file(), "/run/easos/kernel.sock");
    assert_eq!(layout.pid_file(), "/run/easos/kernel.pid");
    assert_eq!(layout.logs_dir(), "/run/easos/logs");
    assert_eq!(layout.plugin_dir("clock"), "/easos/clock");
    assert_eq!(layout.plugin_config_file("clock"), "/easos/clock/config/main.json");
    assert_eq!(layout.plugin_log("clock"), "/run/easos/logs/clock.log");
}

#[test]
fn writes_are_checked_first() {
    let layout = Layout::new("/easos".to_owned(), "/run/easos".to_owned());
    let mut state = KernelState::default();
    assert_eq!(
        layout.write_kernel_state(&state),
        Ok("/easos/kernel/config/state.json".to_owned())
    );
    state.autostart.insert("kernel".to_owned());
    assert_eq!(
        layout.write_kernel_state(&state),
        Err(KernelError::InvalidData("kernel must not appear in the autostart list".to_owned()))
    );
    let mut settings = PluginSettings::default();
    assert_eq!(
        layout.write_plugin_settings("clock", &settings),
        Ok("/easos/clock/config/main.json".to_owned())
    );
    settings.schema_version = 0;
    assert_eq!(
        layout.write_plugin_settings("clock", &settings),
        Err(KernelError::InvalidData(
            "plugin config uses schema_version 0, expected 1".to_owned()
        ))
    );
}

#[test]
fn kernel_manifest_is_checked_on_open() {
    let layout = Layout::new("/easos".to_owned(), "/run/easos".to_owned());
    assert_eq!(layout.check_kernel_manifest(&PluginManifest::kernel_builtin()), Ok(()));
    let mut other = PluginManifest::kernel_builtin();
    other.id = "core".to_owned();
    assert_eq!(
        layout.check_kernel_manifest(&other),
        Err(KernelError::InvalidData("plugin core cannot use reserved kind builtin".to_owned()))
    );
}

#[test]
fn paths_join_like_std() {
    assert_eq!(join_path("/a", "b"), "/a/b");
    assert_eq!(join_path("/a/", "b"), "/a/b");
    assert_eq!(join_path("", "b"), "b");
    assert_eq!(join_path("/a", "/etc"), "/etc");
    for (base, part) in [("/a", "b"), ("/a/", "b/c"), ("", "x"), ("rel", "/abs"), ("a", "")] {
        let expected = std::path::Path::new(base).join(part).display().to_string();
        assert_eq!(join_path(base, part), expected);
    }
}

#[test]
fn rooted_layout_paths() {
    let layout = rooted_layout::Layout::new("/srv/easos".to_owned());
    assert_eq!(layout.plugins_dir, "/srv/easos/plugins");
    assert_eq!(layout.config_dir, "/srv/easos/config");
    assert_eq!(layout.kernel_config_file, "/srv/easos/config/kernel.json");
    assert_eq!(layout.run_dir, "/srv/easos/run");
    assert_eq!(layout.socket_file, "/srv/easos/run/kernel.sock");
    assert_eq!(layout.pid_file, "/srv/easos/run/kernel.pid");
    assert_eq!(layout.runtime_plugins_dir, "/srv/easos/run/plugins");
    assert_eq!(layout.logs_dir, "/srv/easos/logs");
    assert_eq!(layout.plugin_dir("clock"), "/srv/easos/plugins/clock");
    assert_eq!(layout.plugin_runtime_config("clock"), "/srv/easos/run/plugins/clock/config.json");
    assert_eq!(layout.plugin_log("clock"), "/srv/easos/logs/clock.log");
}

#[test]
fn opening_a_workspace_needs_its_root_and_the_kernel_bin_directory() {
    let layout = Layout::new("/srv/easos".to_owned(), "/run/easos".to_owned());
    assert_eq!(layout.check_root(true), Ok(()));
    assert_eq!(
        layout.check_root(false),
        Err(KernelError::InvalidData("EasOS workspace does not exist: /srv/easos".to_owned()))
    );
    assert_eq!(layout.check_kernel_bin(true), Ok(()));
    assert_eq!(
        layout.check_kernel_bin(false),
        Err(KernelError::InvalidData("kernel plugin is missing bin/".to_owned()))
    );
}

#[test]
fn a_stale_socket_is_removed_and_a_live_one_refused() {
    let layout = Layout::new("/easos".to_owned(), "/run/easos".to_owned());
    assert_eq!(layout.check_socket(false, false), Ok(false));
    assert_eq!(layout.check_socket(true, false), Ok(true));
    assert_eq!(
        layout.check_socket(true, true),
        Err(KernelError::Unavailable(
            "another daemon is already listening on /run/easos/kernel.sock".to_owned()
        ))
    );
}
