use easos_kernel::error::KernelError;
use easos_kernel::layout::Layout;
use easos_kernel::model::{PluginKind, PluginManifest, RuntimeSpec};
use easos_kernel::registry::{
    admit_install, check_install_destination, check_install_source, check_uninstall_present,
    copy_step, install_staging_dir, load_manifest, manifest_path, scan, sort_entries,
    uninstall_target, CopyStep, ScannedEntry,
};
use easos_kernel::textmap::TextMap;

fn process(id: &str) -> PluginManifest {
    let mut value = PluginManifest::kernel_builtin();
    value.id = id.to_owned();
    value.kind = PluginKind::Process;
    value.runtime = Some(RuntimeSpec {
        entrypoint: "bin/service".to_owned(),
        args: Vec::new(),
        environment: TextMap::new(),
        stop_timeout_ms: 2_000,
    });
    value
}

fn entry(name: &str, is_dir: bool, manifest: Option<Result<PluginManifest, KernelError>>) -> ScannedEntry {
    ScannedEntry { name: name.to_owned(), is_dir, manifest }
}

#[test]
fn manifest_lives_in_the_manifest_directory() {
    assert_eq!(manifest_path("/easos/clock"), "/easos/clock/manifest/main.json");
    assert_eq!(manifest_path("/easos/clock/"), "/easos/clock/manifest/main.json");
}

#[test]
fn loading_validates() {
    assert!(load_manifest(Ok(process("clock"))).is_ok());
    let mut broken = process("clock");
    broken.runtime = None;
    assert_eq!(
        load_manifest(Ok(broken)).err(),
        Some(KernelError::InvalidData("process plugin clock must define runtime".to_owned()))
    );
    assert_eq!(
        load_manifest(Err(KernelError::Json("eof".to_owned()))).err(),
        Some(KernelError::Json("eof".to_owned()))
    );
}

#[test]
fn entries_are_sorted_by_name() {
    let sorted = sort_entries(vec![
        entry("zeta", true, None),
        entry("Alpha", true, None),
        entry("beta", false, None),
        entry("alpha", true, None),
    ]);
    let names: Vec<&str> = sorted.iter().map(|e| e.name.as_str()).collect();
    assert_eq!(names, ["Alpha", "alpha", "beta", "zeta"]);
}

#[test]
fn scan_files_valid_plugins_and_reports_the_rest() {
    let mut wrong_kernel = PluginManifest::kernel_builtin();
    wrong_kernel.name = "Impostor".to_owned();
    let snapshot = scan(vec![
        entry("weather", true, Some(Ok(process("clock")))),
        entry("clock", true, Some(Ok(process("clock")))),
        entry("notes.txt", false, None),
        entry("empty", true, None),
        entry("kernel", true, Some(Ok(wrong_kernel))),
        entry("broken", true, Some(Err(KernelError::Json("expected value".to_owned())))),
    ]);
    assert_eq!(snapshot.manifests.len(), 1);
    assert_eq!(snapshot.manifests.key_at(0), "clock");
    let invalid: Vec<(&str, &str)> = snapshot
        .invalid_directories
        .iter()
        .map(|p| (p.directory.as_str(), p.error.as_str()))
        .collect();
    assert_eq!(
        invalid,
        [
            ("broken", "JSON error: expected value"),
            ("kernel", "kernel manifest is reserved and cannot be replaced"),
            ("weather", "manifest id \"clock\" must match directory name \"weather\""),
        ]
    );
}

#[test]
fn scan_accepts_the_builtin_kernel() {
    let snapshot = scan(vec![entry("kernel", true, Some(Ok(PluginManifest::kernel_builtin())))]);
    assert!(snapshot.manifests.contains_key("kernel"));
    assert!(snapshot.invalid_directories.is_empty());
}

#[test]
fn install_rules() {
    assert_eq!(check_install_source("/tmp/pkg", true), Ok(()));
    assert_eq!(
        check_install_source("/tmp/pkg", false),
        Err(KernelError::InvalidData("plugin source is not a directory: /tmp/pkg".to_owned()))
    );
    assert!(admit_install(Ok(process("clock"))).is_ok());
    assert_eq!(
        admit_install(Ok(PluginManifest::kernel_builtin())).err(),
        Some(KernelError::Protected("kernel".to_owned()))
    );
    assert_eq!(
        check_install_destination("clock", true),
        Err(KernelError::AlreadyExists("clock".to_owned()))
    );
    assert_eq!(check_install_destination("clock", false), Ok(()));
    let layout = Layout::new("/easos".to_owned(), "/run/easos".to_owned());
    assert_eq!(install_staging_dir(&layout, "clock", 4242), "/easos/.install-clock-4242");
}

#[test]
fn uninstall_rules() {
    let layout = Layout::new("/easos".to_owned(), "/run/easos".to_owned());
    assert_eq!(uninstall_target(&layout, "clock"), Ok("/easos/clock".to_owned()));
    assert_eq!(
        uninstall_target(&layout, "kernel"),
        Err(KernelError::Protected("kernel".to_owned()))
    );
    assert_eq!(check_uninstall_present("clock", true), Ok(()));
    assert_eq!(
        check_uninstall_present("clock", false),
        Err(KernelError::NotFound("clock".to_owned()))
    );
}

#[test]
fn packages_hold_only_files_and_directories() {
    assert_eq!(
        copy_step(true, false, false, "/p/link"),
        Err(KernelError::InvalidData(
            "plugin packages must not contain symbolic links: /p/link".to_owned()
        ))
    );
    assert_eq!(copy_step(false, true, false, "/p/dir"), Ok(CopyStep::Descend));
    assert_eq!(copy_step(false, false, true, "/p/file"), Ok(CopyStep::CopyFile));
    assert_eq!(
        copy_step(false, false, false, "/p/fifo"),
        Err(KernelError::InvalidData(
            "plugin packages may only contain files and directories: /p/fifo".to_owned()
        ))
    );
}
