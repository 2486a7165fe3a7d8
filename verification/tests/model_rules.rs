use easos_kernel::error::KernelError;
use easos_kernel::model::{
    default_stop_timeout_ms, validate_identifier, validate_symbol, KernelState, PluginKind,
    PluginManifest, PluginSettings, PluginVersion, RuntimeSpec, DATA_SCHEMA_VERSION,
    KERNEL_PLUGIN_ID,
};
use easos_kernel::textmap::TextMap;

fn runtime(entrypoint: &str, stop_timeout_ms: u64) -> RuntimeSpec {
    RuntimeSpec {
        entrypoint: entrypoint.to_owned(),
        args: Vec::new(),
        environment: TextMap::new(),
        stop_timeout_ms,
    }
}

fn process_manifest(id: &str) -> PluginManifest {
    let mut manifest = PluginManifest::kernel_builtin();
    manifest.id = id.to_owned();
    manifest.kind = PluginKind::Process;
    manifest.runtime = Some(runtime("bin/service", 3000));
    manifest
}

fn invalid(message: &str) -> Result<(), KernelError> {
    Err(KernelError::InvalidData(message.to_owned()))
}

#[test]
fn process_plugins_require_runtime() {
    let mut manifest = PluginManifest::kernel_builtin();
    manifest.id = "demo".to_owned();
    manifest.kind = PluginKind::Process;
    assert!(manifest.validate().is_err());
}

#[test]
fn entrypoint_cannot_escape_plugin_directory() {
    let runtime = RuntimeSpec {
        entrypoint: "../service".to_owned(),
        args: Vec::new(),
        environment: TextMap::new(),
        stop_timeout_ms: 1_000,
    };
    assert!(runtime.validate().is_err());
}

#[test]
fn entrypoint_must_be_inside_bin_directory() {
    let runtime = RuntimeSpec {
        entrypoint: "source/service".to_owned(),
        args: Vec::new(),
        environment: TextMap::new(),
        stop_timeout_ms: 1_000,
    };
    assert!(runtime.validate().is_err());
}

#[test]
fn process_plugin_without_runtime_is_reported() {
    let mut manifest = PluginManifest::kernel_builtin();
    manifest.id = "demo".to_owned();
    manifest.kind = PluginKind::Process;
    assert_eq!(manifest.validate(), invalid("process plugin demo must define runtime"));
}

#[test]
fn kernel_builtin_is_valid_and_recognised() {
    let manifest = PluginManifest::kernel_builtin();
    assert_eq!(manifest.validate(), Ok(()));
    assert!(manifest.is_kernel_builtin());
    assert_eq!(manifest.id, KERNEL_PLUGIN_ID);
    assert_eq!(manifest.name, "EasOS Kernel");
    assert_eq!(manifest.version.major, 0);
    assert_eq!(manifest.version.minor, 1);
    assert_eq!(manifest.version.patch, 0);
    assert_eq!(manifest.provides, vec!["kernel.lifecycle.v1".to_owned()]);
    let mut renamed = PluginManifest::kernel_builtin();
    renamed.name = "Other Kernel".to_owned();
    assert!(!renamed.is_kernel_builtin());
}

#[test]
fn valid_process_manifest_passes() {
    assert_eq!(process_manifest("clock").validate(), Ok(()));
}

#[test]
fn manifest_checks_come_in_order() {
    let mut m = process_manifest("demo");
    m.schema_version = 2;
    assert_eq!(m.validate(), invalid("plugin demo uses schema_version 2, expected 1"));

    let mut m = process_manifest("demo");
    m.name = " \t".to_owned();
    assert_eq!(m.validate(), invalid("plugin demo has an empty name"));

    let mut m = process_manifest("demo");
    m.provides = vec!["ok.service/v1".to_owned(), "bad service".to_owned()];
    assert_eq!(
        m.validate(),
        invalid("provided service \"bad service\" contains unsupported characters")
    );

    let mut m = process_manifest("demo");
    m.requires = vec!["base".to_owned(), "demo".to_owned()];
    assert_eq!(m.validate(), invalid("plugin demo depends on itself"));

    let mut m = process_manifest("demo");
    m.requires = vec!["bad..id".to_owned()];
    assert_eq!(
        m.validate(),
        invalid("plugin dependency \"bad..id\" must be 1-64 ASCII letters, digits, '.', '-' or '_' and must not contain '..'")
    );

    let mut m = process_manifest("demo");
    m.kind = PluginKind::Builtin;
    assert_eq!(m.validate(), invalid("builtin plugin demo must not define runtime"));

    let mut m = process_manifest("demo");
    m.kind = PluginKind::Builtin;
    m.runtime = None;
    assert_eq!(m.validate(), invalid("plugin demo cannot use reserved kind builtin"));
}

#[test]
fn identifiers_follow_the_rules() {
    assert_eq!(validate_identifier("clock", "plugin id"), Ok(()));
    assert_eq!(validate_identifier("a.b-c_9", "plugin id"), Ok(()));
    assert_eq!(validate_identifier(&"a".repeat(64), "plugin id"), Ok(()));
    let message = |value: &str| {
        invalid(&format!(
            "plugin id {:?} must be 1-64 ASCII letters, digits, '.', '-' or '_' and must not contain '..'",
            value
        ))
    };
    assert_eq!(validate_identifier("", "plugin id"), message(""));
    assert_eq!(validate_identifier(&"a".repeat(65), "plugin id"), message(&"a".repeat(65)));
    assert_eq!(validate_identifier(".hidden", "plugin id"), message(".hidden"));
    assert_eq!(validate_identifier("a..b", "plugin id"), message("a..b"));
    assert_eq!(validate_identifier("a b", "plugin id"), message("a b"));
    assert_eq!(validate_identifier("é", "plugin id"), message("é"));
    assert_eq!(
        validate_identifier("a\"b", "plugin id"),
        invalid("plugin id \"a\\\"b\" must be 1-64 ASCII letters, digits, '.', '-' or '_' and must not contain '..'")
    );
}

#[test]
fn symbols_follow_the_rules() {
    assert_eq!(validate_symbol("example.clock.v1/x", "provided service"), Ok(()));
    assert_eq!(validate_symbol(&"s".repeat(128), "provided service"), Ok(()));
    assert_eq!(
        validate_symbol(&"s".repeat(129), "provided service"),
        invalid(&format!("provided service {:?} contains unsupported characters", "s".repeat(129)))
    );
    assert_eq!(
        validate_symbol("", "provided service"),
        invalid("provided service \"\" contains unsupported characters")
    );
}

#[test]
fn entrypoints_are_checked() {
    assert_eq!(runtime("bin/service", 1).validate(), Ok(()));
    assert_eq!(runtime("bin", 60_000).validate(), Ok(()));
    assert_eq!(runtime("bin//service", 5).validate(), Ok(()));
    let relative = invalid("runtime.entrypoint must be a non-empty relative path");
    let inside = invalid("runtime.entrypoint must stay inside the plugin directory");
    let under_bin = invalid("runtime.entrypoint must be located under bin/");
    assert_eq!(runtime("", 1).validate(), relative);
    assert_eq!(runtime("  ", 1).validate(), relative);
    assert_eq!(runtime("/bin/service", 1).validate(), relative);
    assert_eq!(runtime("bin/../service", 1).validate(), inside);
    assert_eq!(runtime("bin/x/..", 1).validate(), inside);
    assert_eq!(runtime("./bin/service", 1).validate(), under_bin);
    assert_eq!(runtime("binary/service", 1).validate(), under_bin);
    assert_eq!(runtime("bin/..x", 1).validate(), Ok(()));
    let timeout = invalid("runtime.stop_timeout_ms must be between 1 and 60000");
    assert_eq!(runtime("bin/service", 0).validate(), timeout);
    assert_eq!(runtime("bin/service", 60_001).validate(), timeout);
}

#[test]
fn default_stop_timeout_is_five_seconds() {
    assert_eq!(default_stop_timeout_ms(), 5_000);
    assert_eq!(DATA_SCHEMA_VERSION, 1);
}

#[test]
fn settings_defaults_and_schema() {
    let mut settings = PluginSettings::default();
    assert_eq!(settings.schema_version, 1);
    assert_eq!(settings.settings.len(), 0);
    assert_eq!(settings.validate(), Ok(()));
    settings.set("timezone".to_owned(), serde_json::Value::from("Asia/Tokyo"));
    settings.set("a".to_owned(), serde_json::Value::from(1));
    assert_eq!(settings.settings.len(), 2);
    assert_eq!(settings.settings.key_at(0), "a");
    assert_eq!(settings.settings.get("timezone"), Some(&serde_json::Value::from("Asia/Tokyo")));
    settings.unset("timezone");
    assert!(!settings.settings.contains_key("timezone"));
    settings.unset("timezone");
    assert_eq!(settings.settings.len(), 1);
    settings.schema_version = 7;
    assert_eq!(settings.validate(), invalid("plugin config uses schema_version 7, expected 1"));
}

#[test]
fn kernel_state_rules() {
    let mut state = KernelState::default();
    assert_eq!(state.schema_version, 1);
    assert_eq!(state.validate(), Ok(()));
    state.autostart.insert("clock".to_owned());
    assert_eq!(state.validate(), Ok(()));
    state.autostart.insert("kernel".to_owned());
    assert_eq!(state.validate(), invalid("kernel must not appear in the autostart list"));
    state.autostart.remove("kernel");
    state.autostart.insert("Bad Id".to_owned());
    assert_eq!(
        state.validate(),
        invalid("autostart plugin id \"Bad Id\" must be 1-64 ASCII letters, digits, '.', '-' or '_' and must not contain '..'")
    );
    state.schema_version = 3;
    assert_eq!(state.validate(), invalid("kernel state uses schema_version 3, expected 1"));
}

#[test]
fn versions_start_without_suffixes() {
    let v = PluginVersion::new(1, 2, 3);
    assert_eq!((v.major, v.minor, v.patch), (1, 2, 3));
    assert_eq!(v.pre, "");
    assert_eq!(v.build, "");
}
