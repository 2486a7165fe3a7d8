//! The plugin registry: which workspace directories hold a loadable plugin,
//! and the rules for installing and removing plugin directories.
use vstd::prelude::*;
use vstd::string::*;
use vstd::multiset::Multiset;

use crate::error::{failure_of, ErrorView, KernelError};
use crate::layout::{path_join2, Layout};
use crate::model::{
    is_kernel_builtin, kernel_id, manifest_failure, InvalidPlugin, PluginManifest, KERNEL_PLUGIN_ID,
};
use crate::path::{join_path, path_join};
use crate::text::{
    debug_quoted, debug_text, decimal, decimal_text, lemma_text_less_asymmetric,
    lemma_text_less_irreflexive, lemma_text_less_total, lemma_text_less_transitive, text_eq,
    text_less, text_order, TextOrder,
};
use crate::textmap::TextMap;

verus! {

/// The plugins found in the workspace, keyed by id, and the directories that
/// look like plugins but could not be loaded, in directory order.
pub struct RegistrySnapshot {
    pub manifests: TextMap<PluginManifest>,
    pub invalid_directories: Vec<InvalidPlugin>,
}

/// The directory and message of each rejected directory.
pub open spec fn rejections_of(v: Seq<InvalidPlugin>) -> Seq<(Seq<char>, Seq<char>)> {
    v.map_values(|p: InvalidPlugin| (p.directory@, p.error@))
}

impl RegistrySnapshot {
    /// Every manifest is filed under its own id.
    pub open spec fn wf(&self) -> bool {
        forall|k: Seq<char>| #[trigger]
            self.manifests@.contains_key(k) ==> self.manifests@[k].id@ == k
    }
}

impl Default for RegistrySnapshot {
    fn default() -> (s: RegistrySnapshot)
        ensures
            s.wf(),
            s.manifests@ == Map::<Seq<char>, PluginManifest>::empty(),
            s.invalid_directories@.len() == 0,
    {
        RegistrySnapshot { manifests: TextMap::new(), invalid_directories: Vec::new() }
    }
}

/// The main manifest of a plugin directory, `<dir>/manifest/main.json`.
pub fn manifest_path(plugin_dir: &str) -> (r: String)
    ensures
        r@ == path_join2(plugin_dir@, "manifest"@, "main.json"@),
{
    let dir = join_path(plugin_dir, "manifest");
    join_path(dir.as_str(), "main.json")
}

/// A manifest as read from disk becomes a loaded manifest once it passes
/// validation; a read or parse failure stays as it is.
pub open spec fn loaded(parsed: Result<PluginManifest, KernelError>) -> Result<PluginManifest, ErrorView> {
    match parsed {
        Err(e) => Err(e@),
        Ok(m) => match manifest_failure(&m) {
            Some(e) => Err(e),
            None => Ok(m),
        },
    }
}

pub open spec fn loaded_view(r: Result<PluginManifest, KernelError>) -> Result<PluginManifest, ErrorView> {
    match r {
        Err(e) => Err(e@),
        Ok(m) => Ok(m),
    }
}

/// Validates a manifest that has been read from a plugin directory.
pub fn load_manifest(parsed: Result<PluginManifest, KernelError>) -> (r: Result<PluginManifest, KernelError>)
    ensures
        loaded_view(r) == loaded(parsed),
{
    match parsed {
        Err(e) => Err(e),
        Ok(m) => match m.validate() {
            Ok(()) => Ok(m),
            Err(e) => Err(e),
        },
    }
}

/// One first-level entry of the workspace: its name, whether it is a
/// directory, and, for a directory that has a manifest file, that file as
/// read and parsed.
pub struct ScannedEntry {
    pub name: String,
    pub is_dir: bool,
    pub manifest: Option<Result<PluginManifest, KernelError>>,
}

/// `a` does not come after `b` in name order.
pub open spec fn name_le(a: Seq<char>, b: Seq<char>) -> bool {
    !text_less(b, a)
}

pub proof fn lemma_name_le_transitive(a: Seq<char>, b: Seq<char>, c: Seq<char>)
    requires
        name_le(a, b),
        name_le(b, c),
    ensures
        name_le(a, c),
{
    if text_less(c, a) {
        if a != b {
            lemma_text_less_total(a, b);
            lemma_text_less_transitive(c, a, b);
        } else {
        }
    }
}

/// The names of a list of entries.
pub open spec fn entry_names(s: Seq<ScannedEntry>) -> Seq<Seq<char>> {
    s.map_values(|e: ScannedEntry| e.name@)
}

/// Entries ordered by name, as a sorted directory listing is.
pub open spec fn sorted_by_name(s: Seq<ScannedEntry>) -> bool {
    forall|i: int, j: int| 0 <= i < j < s.len() ==> name_le(#[trigger] s[i].name@, #[trigger] s[j].name@)
}

/// Orders directory entries by name (the names of a directory listing
/// are distinct).
pub fn sort_entries(entries: Vec<ScannedEntry>) -> (r: Vec<ScannedEntry>)
    ensures
        r@.to_multiset() == entries@.to_multiset(),
        sorted_by_name(r@),
{
    broadcast use vstd::seq_lib::group_to_multiset_ensures, vstd::multiset::group_multiset_axioms;

    let mut input = entries;
    let mut out: Vec<ScannedEntry> = Vec::new();
    let ghost all = input@.to_multiset();
    proof {
        assert(out@.to_multiset() =~= Multiset::<ScannedEntry>::empty());
    }
    while input.len() > 0
        invariant
            out@.to_multiset().add(input@.to_multiset()) == all,
            sorted_by_name(out@),
        decreases input.len(),
    {
        let ghost before_in = input@;
        let e = input.remove(0);
        proof {
            assert(input@ == before_in.remove(0));
            vstd::seq_lib::to_multiset_remove(before_in, 0);
            assert(input@.to_multiset() == before_in.to_multiset().remove(e));
            assert(before_in[0] == e);
            vstd::seq_lib::to_multiset_contains(before_in, e);
            assert(before_in.contains(e));
            assert(before_in.to_multiset().contains(e));
        }
        let n: usize = out.len();
        let mut p: usize = 0;
        let mut found: bool = false;
        while p < n && !found
            invariant
                n == out@.len(),
                p <= n,
                forall|j: int| 0 <= j < p ==> name_le(#[trigger] out@[j].name@, e.name@),
                found ==> p < n && text_less(e.name@, out@[p as int].name@),
            decreases n - p, (if found { 0int } else { 1int }),
        {
            match text_order(e.name.as_str(), out[p].name.as_str()) {
                TextOrder::Before => {
                    found = true;
                },
                _ => {
                    p = p + 1;
                },
            }
        }
        let ghost old_out = out@;
        assert(p < n ==> !name_le(old_out[p as int].name@, e.name@));
        out.insert(p, e);
        proof {
            let no = out@;
            assert(no == old_out.insert(p as int, e));
            assert forall|i: int, j: int| 0 <= i < j < no.len() implies name_le(
                #[trigger] no[i].name@,
                #[trigger] no[j].name@,
            ) by {
                if j < p {
                    assert(no[i] == old_out[i] && no[j] == old_out[j]);
                } else if j == p {
                    assert(no[i] == old_out[i]);
                } else if i < p {
                    assert(no[i] == old_out[i] && no[j] == old_out[j - 1]);
                    // old_out[p] > e, and old_out[j-1] >= old_out[p]
                    assert(!name_le(old_out[p as int].name@, e.name@));
                    lemma_text_less_asymmetric(e.name@, old_out[p as int].name@);
                    assert(name_le(e.name@, old_out[p as int].name@));
                    if j - 1 > p {
                        assert(name_le(old_out[p as int].name@, old_out[j - 1].name@));
                        lemma_name_le_transitive(e.name@, old_out[p as int].name@, old_out[j - 1].name@);
                    }
                    lemma_name_le_transitive(old_out[i].name@, e.name@, old_out[j - 1].name@);
                } else if i == p {
                    assert(no[j] == old_out[j - 1]);
                    assert(!name_le(old_out[p as int].name@, e.name@));
                    lemma_text_less_asymmetric(e.name@, old_out[p as int].name@);
                    if j - 1 > p {
                        assert(name_le(old_out[p as int].name@, old_out[j - 1].name@));
                        lemma_name_le_transitive(e.name@, old_out[p as int].name@, old_out[j - 1].name@);
                    }
                } else {
                    assert(no[i] == old_out[i - 1] && no[j] == old_out[j - 1]);
                }
            }
            vstd::seq_lib::to_multiset_insert(old_out, p as int, e);
            assert(out@.to_multiset() == old_out.to_multiset().insert(e));
            assert(out@.to_multiset().add(input@.to_multiset()) =~= all);
        }
    }
    proof {
        assert(input@.to_multiset() =~= Multiset::<ScannedEntry>::empty());
        assert(out@.to_multiset().add(input@.to_multiset()) =~= out@.to_multiset());
    }
    out
}

/// What scanning makes of one entry: nothing, when it is no directory or has
/// no manifest file; a manifest, when the manifest is valid, carries the
/// directory's name as its id and does not replace the kernel; otherwise a
/// rejection with its reason.
pub enum EntryOutcome {
    Ignored,
    Accepted(PluginManifest),
    Rejected(Seq<char>),
}

pub open spec fn entry_outcome(e: ScannedEntry) -> EntryOutcome {
    if !e.is_dir || e.manifest is None {
        EntryOutcome::Ignored
    } else {
        match loaded(e.manifest->0) {
            Err(err) => EntryOutcome::Rejected(err.message()),
            Ok(m) => if m.id@ == e.name@ {
                if m.id@ == kernel_id() && !is_kernel_builtin(&m) {
                    EntryOutcome::Rejected("kernel manifest is reserved and cannot be replaced"@)
                } else {
                    EntryOutcome::Accepted(m)
                }
            } else {
                EntryOutcome::Rejected(
                    "manifest id "@ + debug_text(m.id@) + " must match directory name "@
                        + debug_text(e.name@),
                )
            },
        }
    }
}

/// The manifests that scanning the entries in this order files, later
/// entries replacing earlier ones with the same id.
pub open spec fn scanned_manifests(s: Seq<ScannedEntry>) -> Map<Seq<char>, PluginManifest>
    decreases s.len(),
{
    if s.len() == 0 {
        Map::empty()
    } else {
        let m = scanned_manifests(s.drop_last());
        match entry_outcome(s.last()) {
            EntryOutcome::Accepted(pm) => m.insert(pm.id@, pm),
            _ => m,
        }
    }
}

/// The rejections that scanning the entries in this order reports.
pub open spec fn scanned_rejections(s: Seq<ScannedEntry>) -> Seq<(Seq<char>, Seq<char>)>
    decreases s.len(),
{
    if s.len() == 0 {
        Seq::empty()
    } else {
        let r = scanned_rejections(s.drop_last());
        match entry_outcome(s.last()) {
            EntryOutcome::Rejected(msg) => r.push((s.last().name@, msg)),
            _ => r,
        }
    }
}

/// Files the entries of a sorted directory listing into a snapshot.
pub fn classify_entries(entries: Vec<ScannedEntry>) -> (snapshot: RegistrySnapshot)
    ensures
        snapshot.wf(),
        snapshot.manifests@ == scanned_manifests(entries@),
        rejections_of(snapshot.invalid_directories@) == scanned_rejections(entries@),
{
    let mut snapshot = RegistrySnapshot { manifests: TextMap::new(), invalid_directories: Vec::new() };
    let ghost all = entries@;
    let mut input = entries;
    proof {
        assert(rejections_of(snapshot.invalid_directories@) =~= Seq::<(Seq<char>, Seq<char>)>::empty());
        assert(snapshot.manifests@ =~= Map::<Seq<char>, PluginManifest>::empty());
    }
    let mut i: usize = 0;
    let n: usize = input.len();
    assert(all.skip(0) =~= all);
    while input.len() > 0
        invariant
            n == all.len(),
            input@.len() + i == n,
            input@ == all.skip(i as int),
            snapshot.wf(),
            snapshot.manifests@ == scanned_manifests(all.take(i as int)),
            rejections_of(snapshot.invalid_directories@) == scanned_rejections(all.take(i as int)),
        decreases input@.len(),
    {
        let ghost before = input@;
        let entry = input.remove(0);
        proof {
            assert(entry == all[i as int]);
            assert(all.take(i + 1).drop_last() =~= all.take(i as int));
            assert(all.take(i + 1).last() == entry);
            assert(input@ =~= all.skip(i + 1));
        }
        let ghost outcome = entry_outcome(entry);
        let ScannedEntry { name, is_dir, manifest } = entry;
        if is_dir {
            if let Some(parsed) = manifest {
                match load_manifest(parsed) {
                    Ok(m) => {
                        if text_eq(m.id.as_str(), name.as_str()) {
                            if text_eq(m.id.as_str(), KERNEL_PLUGIN_ID) && !m.is_kernel_builtin() {
                                let ghost old_inv = snapshot.invalid_directories@;
                                snapshot.invalid_directories.push(
                                    InvalidPlugin {
                                        directory: name,
                                        error: "kernel manifest is reserved and cannot be replaced".to_owned(),
                                    },
                                );
                                proof {
                                    assert(rejections_of(snapshot.invalid_directories@) =~= rejections_of(old_inv).push(
                                        (entry.name@, "kernel manifest is reserved and cannot be replaced"@),
                                    ));
                                }
                            } else {
                                let key = m.id.clone();
                                let ghost old_map = snapshot.manifests@;
                                snapshot.manifests.insert(key, m);
                                proof {
                                    assert forall|k: Seq<char>| #[trigger]
                                        snapshot.manifests@.contains_key(k) implies snapshot.manifests@[k].id@ == k by {
                                        if k != m.id@ {
                                            assert(old_map.contains_key(k));
                                        }
                                    }
                                }
                            }
                        } else {
                            let mut message = "manifest id ".to_owned();
                            message.append(debug_quoted(m.id.as_str()).as_str());
                            message.append(" must match directory name ");
                            message.append(debug_quoted(name.as_str()).as_str());
                            let ghost old_inv = snapshot.invalid_directories@;
                            snapshot.invalid_directories.push(InvalidPlugin { directory: name, error: message });
                            proof {
                                assert(rejections_of(snapshot.invalid_directories@) =~= rejections_of(old_inv).push(
                                    (entry.name@, message@),
                                ));
                            }
                        }
                    },
                    Err(e) => {
                        let ghost old_inv = snapshot.invalid_directories@;
                        let message = e.message();
                        snapshot.invalid_directories.push(InvalidPlugin { directory: name, error: message });
                        proof {
                            assert(rejections_of(snapshot.invalid_directories@) =~= rejections_of(old_inv).push(
                                (entry.name@, message@),
                            ));
                        }
                    },
                }
            }
        }
        i = i + 1;
    }
    proof {
        assert(all.take(n as int) =~= all);
    }
    snapshot
}

/// Builds the registry snapshot from the workspace's first-level entries,
/// taken in name order.
pub fn scan(entries: Vec<ScannedEntry>) -> (snapshot: RegistrySnapshot)
    ensures
        snapshot.wf(),
        exists|sorted: Seq<ScannedEntry>|
            #![trigger scanned_manifests(sorted)]
            sorted.to_multiset() == entries@.to_multiset() && sorted_by_name(sorted)
                && snapshot.manifests@ == scanned_manifests(sorted) && rejections_of(
                snapshot.invalid_directories@,
            ) == scanned_rejections(sorted),
{
    let sorted = sort_entries(entries);
    let ghost s = sorted@;
    let snapshot = classify_entries(sorted);
    assert(s.to_multiset() == entries@.to_multiset() && sorted_by_name(s)
        && snapshot.manifests@ == scanned_manifests(s) && rejections_of(snapshot.invalid_directories@)
        == scanned_rejections(s));
    snapshot
}

/// Law: every manifest that a scan files is valid, is filed under its own
/// id, which is the name of the directory it was found in, and is the
/// built-in kernel manifest when that id is the kernel's.
pub proof fn lemma_scanned_manifests_sound(s: Seq<ScannedEntry>)
    ensures
        forall|k: Seq<char>| #[trigger]
            scanned_manifests(s).contains_key(k) ==> {
                let m = scanned_manifests(s)[k];
                &&& manifest_failure(&m) is None
                &&& m.id@ == k
                &&& (k == kernel_id() ==> is_kernel_builtin(&m))
                &&& exists|i: int| 0 <= i < s.len() && (#[trigger] s[i]).is_dir && s[i].name@ == k
            },
    decreases s.len(),
{
    if s.len() > 0 {
        let init = s.drop_last();
        lemma_scanned_manifests_sound(init);
        assert forall|k: Seq<char>| #[trigger] scanned_manifests(s).contains_key(k) implies {
            let m = scanned_manifests(s)[k];
            &&& manifest_failure(&m) is None
            &&& m.id@ == k
            &&& (k == kernel_id() ==> is_kernel_builtin(&m))
            &&& exists|i: int| 0 <= i < s.len() && (#[trigger] s[i]).is_dir && s[i].name@ == k
        } by {
            match entry_outcome(s.last()) {
                EntryOutcome::Accepted(pm) => {
                    if k == pm.id@ {
                        assert(s[s.len() - 1].is_dir && s[s.len() - 1].name@ == k);
                    } else {
                        assert(scanned_manifests(init).contains_key(k));
                        let i = choose|i: int| 0 <= i < init.len() && (#[trigger] init[i]).is_dir && init[i].name@ == k;
                        assert(s[i] == init[i]);
                    }
                },
                _ => {
                    assert(scanned_manifests(init).contains_key(k));
                    let i = choose|i: int| 0 <= i < init.len() && (#[trigger] init[i]).is_dir && init[i].name@ == k;
                    assert(s[i] == init[i]);
                },
            }
        }
    }
}

// ---------------------------------------------------------------------------
// Installing and removing plugin directories

/// An install source must be a directory.
pub fn check_install_source(source: &str, is_dir: bool) -> (r: Result<(), KernelError>)
    ensures
        failure_of(r) == (if is_dir {
            None
        } else {
            Some(ErrorView::InvalidData("plugin source is not a directory: "@ + source@))
        }),
{
    if is_dir {
        Ok(())
    } else {
        let mut m = "plugin source is not a directory: ".to_owned();
        m.append(source);
        Err(KernelError::InvalidData(m))
    }
}

/// The manifest of a package to install: it must load and must not claim
/// the kernel's id.
pub fn admit_install(parsed: Result<PluginManifest, KernelError>) -> (r: Result<PluginManifest, KernelError>)
    ensures
        loaded_view(r) == match loaded(parsed) {
            Err(e) => Err(e),
            Ok(m) => if m.id@ == kernel_id() {
                Err(ErrorView::Protected(kernel_id()))
            } else {
                Ok(m)
            },
        },
{
    let m = match load_manifest(parsed) {
        Ok(m) => m,
        Err(e) => return Err(e),
    };
    if text_eq(m.id.as_str(), KERNEL_PLUGIN_ID) {
        return Err(KernelError::Protected(KERNEL_PLUGIN_ID.to_owned()));
    }
    Ok(m)
}

/// An install must not overwrite an existing plugin directory.
pub fn check_install_destination(id: &str, destination_exists: bool) -> (r: Result<(), KernelError>)
    ensures
        failure_of(r) == (if destination_exists {
            Some(ErrorView::AlreadyExists(id@))
        } else {
            None
        }),
{
    if destination_exists {
        Err(KernelError::AlreadyExists(id.to_owned()))
    } else {
        Ok(())
    }
}

/// The hidden directory a package is copied into before it is moved in
/// place: `.install-<id>-<pid>` in the workspace.
pub fn install_staging_dir(layout: &Layout, id: &str, pid: u32) -> (r: String)
    ensures
        r@ == path_join(layout@.root, ".install-"@ + id@ + "-"@ + decimal(pid as nat)),
{
    let mut name = ".install-".to_owned();
    name.append(id);
    name.append("-");
    name.append(decimal_text(pid as u64).as_str());
    join_path(layout.root().as_str(), name.as_str())
}

/// The directory to remove when uninstalling; the kernel cannot be removed.
pub fn uninstall_target(layout: &Layout, id: &str) -> (r: Result<String, KernelError>)
    ensures
        match r {
            Ok(path) => id@ != kernel_id() && path@ == path_join(layout@.root, id@),
            Err(e) => id@ == kernel_id() && e@ == ErrorView::Protected(id@),
        },
{
    if text_eq(id, KERNEL_PLUGIN_ID) {
        return Err(KernelError::Protected(id.to_owned()));
    }
    Ok(layout.plugin_dir(id))
}

/// Removing a plugin needs its directory to exist.
pub fn check_uninstall_present(id: &str, exists: bool) -> (r: Result<(), KernelError>)
    ensures
        failure_of(r) == (if exists {
            None
        } else {
            Some(ErrorView::NotFound(id@))
        }),
{
    if exists {
        Ok(())
    } else {
        Err(KernelError::NotFound(id.to_owned()))
    }
}

/// What copying a package does with one of its entries.
#[derive(Debug, Clone, Copy, PartialEq, Eq, Structural)]
pub enum CopyStep {
    Descend,
    CopyFile,
}

/// Packages may hold only directories and regular files, and no symbolic
/// links; `path` names the entry in the error.
pub fn copy_step(is_symlink: bool, is_dir: bool, is_file: bool, path: &str) -> (r: Result<CopyStep, KernelError>)
    ensures
        is_symlink ==> (r matches Err(e) && e@ == ErrorView::InvalidData(
            "plugin packages must not contain symbolic links: "@ + path@,
        )),
        !is_symlink && is_dir ==> r == Ok::<CopyStep, KernelError>(CopyStep::Descend),
        !is_symlink && !is_dir && is_file ==> r == Ok::<CopyStep, KernelError>(CopyStep::CopyFile),
        !is_symlink && !is_dir && !is_file ==> (r matches Err(e) && e@ == ErrorView::InvalidData(
            "plugin packages may only contain files and directories: "@ + path@,
        )),
{
    if is_symlink {
        let mut m = "plugin packages must not contain symbolic links: ".to_owned();
        m.append(path);
        return Err(KernelError::InvalidData(m));
    }
    if is_dir {
        Ok(CopyStep::Descend)
    } else if is_file {
        Ok(CopyStep::CopyFile)
    } else {
        let mut m = "plugin packages may only contain files and directories: ".to_owned();
        m.append(path);
        Err(KernelError::InvalidData(m))
    }
}

} // verus!
