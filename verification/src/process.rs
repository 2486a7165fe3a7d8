//! Bookkeeping of plugin processes: which are running, with what stop
//! timeout, and how the ones that ended last exited.
use vstd::prelude::*;
use vstd::string::*;

use crate::error::{ErrorView, KernelError};
use crate::layout::{path_join2, Layout};
use crate::model::PluginManifest;
use crate::path::{join_path, lemma_join_keeps_absolute, path_join};
use crate::textmap::{copy_text_map, TextMap};

verus! {

/// A child process of the kernel.
#[verifier::external_type_specification]
#[verifier::external_body]
pub struct ExChild(tokio::process::Child);

/// A running plugin process and how long it gets to stop.
pub struct ManagedProcess {
    pub child: tokio::process::Child,
    pub stop_timeout_ms: u64,
}

/// Asks whether a child process has ended, without waiting: `Ok(None)`
/// while it runs, `Ok(Some(code))` once it has exited, where `code` is
/// `None` when a signal ended it, and the error's message when the check
/// failed.
///
/// Trusted: calls `tokio::process::Child::try_wait` on the process's child,
/// and converts the status it gives into its exit code. Whether the child has
/// ended is up to the operating system, so nothing is claimed of the result;
/// the claim is that the stop timeout is not touched.
#[verifier::external_body]
fn poll_exit(process: &mut ManagedProcess) -> (r: Result<Option<Option<i32>>, String>)
    ensures
        final(process).stop_timeout_ms == old(process).stop_timeout_ms,
{
    match process.child.try_wait() {
        Ok(Some(status)) => Ok(Some(status.code())),
        Ok(None) => Ok(None),
        Err(error) => Err(error.to_string()),
    }
}

/// The running plugin processes and the exit codes of those that ended.
pub struct ProcessManager {
    running: TextMap<ManagedProcess>,
    last_exit: TextMap<i32>,
}

impl ProcessManager {
    /// The plugins whose process is running.
    pub closed spec fn running_ids(&self) -> Set<Seq<char>> {
        self.running@.dom()
    }

    /// The running plugins in id order.
    pub closed spec fn running_order(&self) -> Seq<Seq<char>> {
        self.running.keys()
    }

    /// The stop timeout of each running plugin.
    pub closed spec fn stop_timeouts(&self) -> Map<Seq<char>, u64> {
        self.running@.map_values(|p: ManagedProcess| p.stop_timeout_ms)
    }

    /// The last exit code of each plugin whose process ended.
    pub closed spec fn exits(&self) -> Map<Seq<char>, i32> {
        self.last_exit@
    }

    proof fn lemma_running_order(&self)
        requires
            self.running.wf(),
        ensures
            self.running_order().to_set() == self.running_ids(),
            self.running_order().no_duplicates(),
    {
        self.running.lemma_dom();
        self.running.lemma_keys_increasing();
    }

    /// The table after collecting ended processes from `before`: some
    /// running plugins, and only those, left it with an exit code recorded;
    /// everything else stayed.
    pub open spec fn refreshed_from(self, before: ProcessManager) -> bool {
        &&& self.running_ids().subset_of(before.running_ids())
        &&& forall|k: Seq<char>| #[trigger]
            self.running_ids().contains(k) ==> self.stop_timeouts()[k] == before.stop_timeouts()[k]
        &&& forall|k: Seq<char>|
            before.running_ids().contains(k) && !self.running_ids().contains(k)
                ==> #[trigger] self.exits().contains_key(k)
        &&& forall|k: Seq<char>|
            !(before.running_ids().contains(k) && !self.running_ids().contains(k))
                ==> (#[trigger] self.exits().contains_key(k) == before.exits().contains_key(k))
                && (before.exits().contains_key(k) ==> self.exits()[k] == before.exits()[k])
    }

    /// The same running plugins, stop timeouts and exit codes.
    pub open spec fn same_table(self, before: ProcessManager) -> bool {
        &&& self.running_ids() == before.running_ids()
        &&& self.stop_timeouts() == before.stop_timeouts()
        &&& self.exits() == before.exits()
    }

    /// Collecting ended processes twice, or once and then leaving the table
    /// as it is, collects them once.
    pub proof fn lemma_refreshed_chain(p0: ProcessManager, p1: ProcessManager, p2: ProcessManager)
        requires
            p1.refreshed_from(p0),
            p2.refreshed_from(p1) || p2.same_table(p1),
        ensures
            p2.refreshed_from(p0),
    {
        assert forall|k: Seq<char>|
            p0.running_ids().contains(k) && !p2.running_ids().contains(k) implies #[trigger] p2.exits().contains_key(k) by {
            if p1.running_ids().contains(k) {
            } else {
                assert(p1.exits().contains_key(k));
            }
        }
    }

    /// A table that is left as it is counts as collected.
    pub proof fn lemma_same_table_refreshed(p0: ProcessManager, p1: ProcessManager)
        requires
            p1.same_table(p0),
        ensures
            p1.refreshed_from(p0),
    {
    }

    /// Whether a plugin's process is running.
    pub fn is_running(&self, id: &str) -> (r: bool)
        ensures
            r == self.running_ids().contains(id@),
    {
        self.running.contains_key(id)
    }

    /// How a plugin's process last exited, if it has.
    pub fn last_exit(&self, id: &str) -> (r: Option<i32>)
        ensures
            r == (if self.exits().contains_key(id@) {
                Some(self.exits()[id@])
            } else {
                None
            }),
    {
        match self.last_exit.get(id) {
            Some(code) => Some(*code),
            None => None,
        }
    }

    /// Forgets how a plugin last exited, as after a reinstall.
    pub fn forget(&mut self, id: &str)
        ensures
            final(self).exits() == old(self).exits().remove(id@),
            final(self).running_ids() == old(self).running_ids(),
            final(self).running_order() == old(self).running_order(),
            final(self).stop_timeouts() == old(self).stop_timeouts(),
    {
        let _ = self.last_exit.remove(id);
    }

    /// Records how a plugin's process exited.
    pub fn record_exit(&mut self, id: String, code: i32)
        ensures
            final(self).exits() == old(self).exits().insert(id@, code),
            final(self).running_ids() == old(self).running_ids(),
            final(self).running_order() == old(self).running_order(),
            final(self).stop_timeouts() == old(self).stop_timeouts(),
    {
        self.last_exit.insert(id, code);
    }

    /// Records a plugin process that has just been started; an earlier exit
    /// of the plugin is forgotten.
    pub fn record_started(&mut self, id: String, child: tokio::process::Child, stop_timeout_ms: u64)
        ensures
            final(self).running_ids() == old(self).running_ids().insert(id@),
            final(self).stop_timeouts() == old(self).stop_timeouts().insert(id@, stop_timeout_ms),
            final(self).exits() == old(self).exits().remove(id@),
    {
        let _ = self.last_exit.remove(id.as_str());
        let ghost before = self.running@;
        self.running.insert(id, ManagedProcess { child, stop_timeout_ms });
        proof {
            assert(self.running@.dom() =~= before.dom().insert(id@));
            assert(self.stop_timeouts() =~= old(self).stop_timeouts().insert(id@, stop_timeout_ms));
        }
    }

    /// Takes a running plugin's process out of the table, to stop it.
    pub fn take_running(&mut self, id: &str) -> (r: Option<ManagedProcess>)
        ensures
            r is Some <==> old(self).running_ids().contains(id@),
            r is Some ==> r->0.stop_timeout_ms == old(self).stop_timeouts()[id@],
            final(self).running_ids() == old(self).running_ids().remove(id@),
            final(self).stop_timeouts() == old(self).stop_timeouts().remove(id@),
            final(self).exits() == old(self).exits(),
    {
        let ghost before = self.running@;
        let r = self.running.remove(id);
        proof {
            assert(self.running@.dom() =~= before.dom().remove(id@));
            assert(self.stop_timeouts() =~= old(self).stop_timeouts().remove(id@));
        }
        r
    }

    /// `self` is `before` with ended processes collected and then the
    /// process of `id`, if it still ran, taken out as `taken`.
    pub open spec fn took_for_stop(self, before: ProcessManager, id: Seq<char>, taken: Option<ManagedProcess>) -> bool {
        exists|pr: ProcessManager|
            {
                &&& #[trigger] pr.refreshed_from(before)
                &&& self.running_ids() == pr.running_ids().remove(id)
                &&& self.stop_timeouts() == pr.stop_timeouts().remove(id)
                &&& self.exits() == pr.exits()
                &&& (taken is Some <==> pr.running_ids().contains(id))
                &&& (taken matches Some(p) ==> p.stop_timeout_ms == pr.stop_timeouts()[id])
            }
    }

    /// Collects ended processes, then takes the process of `id` out of the
    /// table to be stopped, if it still runs; a failed collection leaves the
    /// table as it was.
    pub fn take_for_stop(&mut self, id: &str) -> (r: Result<Option<ManagedProcess>, KernelError>)
        ensures
            match r {
                Err(e) => e is Io && final(self).same_table(*old(self)),
                Ok(taken) => final(self).took_for_stop(*old(self), id@, taken),
            },
    {
        if let Err(e) = self.refresh() {
            return Err(e);
        }
        let ghost pr = *self;
        let taken = self.take_running(id);
        assert(pr.refreshed_from(*old(self)));
        Ok(taken)
    }

    /// The running plugins in the order they are stopped at shutdown: by
    /// id, last first.
    pub fn shutdown_order(&self) -> (r: Vec<String>)
        ensures
            crate::text::texts(r@) == self.running_order().reverse(),
    {
        let n: usize = self.running.len();
        let mut r: Vec<String> = Vec::new();
        let mut i: usize = n;
        while i > 0
            invariant
                n == self.running_order().len(),
                i <= n,
                crate::text::texts(r@) == self.running_order().subrange(i as int, n as int).reverse(),
            decreases i,
        {
            i = i - 1;
            let ghost before = crate::text::texts(r@);
            r.push(self.running.key_at(i).clone());
            proof {
                let ks = self.running_order();
                assert(crate::text::texts(r@) =~= before.push(ks[i as int]));
                assert(ks.subrange(i as int, n as int).reverse() =~= ks.subrange(i + 1, n as int).reverse().push(
                    ks[i as int],
                ));
            }
        }
        proof {
            assert(self.running_order().subrange(0, n as int) =~= self.running_order());
        }
        r
    }

    /// `self` is `before` after collecting what polling reported: every
    /// plugin polled as ended leaves the running table, and its exit code,
    /// `-1` for a process that a signal ended, is recorded.
    pub open spec fn collected_from(self, before: ProcessManager, polled: Seq<(String, Option<Option<i32>>)>) -> bool {
        let ended = ended_exits(polled);
        &&& self.running_ids() == before.running_ids().difference(ended.dom())
        &&& self.stop_timeouts() == before.stop_timeouts().remove_keys(ended.dom())
        &&& self.exits() == before.exits().union_prefer_right(ended)
    }

    /// Polls the process of every running plugin once, in id order, and
    /// hands back what each poll returned; the table is left as it was.
    fn poll_running(&mut self) -> (r: Result<Vec<(String, Option<Option<i32>>)>, String>)
        ensures
            final(self).same_table(*old(self)),
            r matches Ok(v) ==> polled_ids(v@) == old(self).running_order(),
            old(self).running_ids() == Set::<Seq<char>>::empty() ==> r is Ok,
    {
        proof {
            use_type_invariant(&self.running);
            self.running.lemma_dom();
            if self.running_ids() == Set::<Seq<char>>::empty() && self.running.keys().len() > 0 {
                assert(self.running.keys().to_set().contains(self.running.keys()[0]));
            }
        }
        let n: usize = self.running.len();
        let mut ids: Vec<String> = Vec::new();
        let mut k: usize = 0;
        let ghost keys0 = self.running.keys();
        while k < n
            invariant
                n == keys0.len(),
                keys0 == self.running.keys(),
                k <= n,
                crate::text::texts(ids@) == keys0.take(k as int),
            decreases n - k,
        {
            let ghost before = crate::text::texts(ids@);
            ids.push(self.running.key_at(k).clone());
            assert(crate::text::texts(ids@) =~= before.push(keys0[k as int]));
            assert(keys0.take(k + 1) =~= keys0.take(k as int).push(keys0[k as int]));
            k = k + 1;
        }
        assert(keys0.take(n as int) =~= keys0);
        let mut polled: Vec<(String, Option<Option<i32>>)> = Vec::new();
        let mut i: usize = 0;
        let ghost timeouts0 = self.stop_timeouts();
        let ghost exits0 = self.exits();
        let ghost dom0 = self.running@.dom();
        let ghost running0 = self.running;
        while i < n
            invariant
                n == keys0.len(),
                crate::text::texts(ids@) == keys0,
                keys0.to_set() == dom0,
                keys0 == old(self).running_order(),
                dom0 == old(self).running_ids(),
                timeouts0 == old(self).stop_timeouts(),
                exits0 == old(self).exits(),
                i <= n,
                self.running@.dom() == dom0,
                self.stop_timeouts() == timeouts0,
                self.exits() == exits0,
                polled_ids(polled@) == keys0.take(i as int),
            decreases n - i,
        {
            let id = &ids[i];
            proof {
                assert(crate::text::texts(ids@)[i as int] == id@);
                assert(keys0.to_set().contains(keys0[i as int]));
            }
            let ghost before_run = self.running@;
            let mut process = self.running.remove(id.as_str()).unwrap();
            let outcome = poll_exit(&mut process);
            self.running.insert(id.clone(), process);
            proof {
                assert(self.running@.dom() =~= dom0);
                assert(self.stop_timeouts() =~= timeouts0) by {
                    assert forall|x: Seq<char>| #[trigger] self.running@.contains_key(x) implies self.running@[x].stop_timeout_ms
                        == before_run[x].stop_timeout_ms by {}
                }
            }
            let answer = match outcome {
                Err(message) => {
                    return Err(message);
                },
                Ok(o) => o,
            };
            let ghost before_p = polled_ids(polled@);
            polled.push((id.clone(), answer));
            proof {
                assert(polled_ids(polled@) =~= before_p.push(keys0[i as int]));
                assert(keys0.take(i + 1) =~= keys0.take(i as int).push(keys0[i as int]));
            }
            i = i + 1;
        }
        assert(keys0.take(n as int) =~= keys0);
        Ok(polled)
    }

    /// Collects what polling reported: each plugin polled as ended leaves
    /// the running table and its exit code is recorded, `-1` for a process
    /// that a signal ended; a plugin polled as running stays.
    pub fn collect_exits(&mut self, polled: Vec<(String, Option<Option<i32>>)>)
        ensures
            final(self).collected_from(*old(self), polled@),
    {
        let n: usize = polled.len();
        let mut i: usize = 0;
        let ghost all = polled@;
        proof {
            assert(all.take(0) =~= Seq::<(String, Option<Option<i32>>)>::empty());
            let e = ended_exits(all.take(0));
            assert(self.running_ids() =~= old(self).running_ids().difference(e.dom()));
            assert(self.stop_timeouts() =~= old(self).stop_timeouts().remove_keys(e.dom()));
            assert(self.exits() =~= old(self).exits().union_prefer_right(e));
        }
        while i < n
            invariant
                n == all.len(),
                all == polled@,
                i <= n,
                self.collected_from(*old(self), all.take(i as int)),
            decreases n - i,
        {
            let ghost e0 = ended_exits(all.take(i as int));
            proof {
                assert(all.take(i + 1).drop_last() =~= all.take(i as int));
                assert(all.take(i + 1).last() == all[i as int]);
            }
            let ghost ts = self.stop_timeouts();
            let ghost ex = self.exits();
            let ghost run = self.running@;
            match &polled[i].1 {
                None => {},
                Some(status) => {
                    let code: i32 = match status {
                        Some(c) => *c,
                        None => -1,
                    };
                    let id = &polled[i].0;
                    let _ = self.running.remove(id.as_str());
                    self.last_exit.insert(id.clone(), code);
                    proof {
                        let k = id@;
                        let e1 = e0.insert(k, code);
                        assert(ended_exits(all.take(i + 1)) == e1);
                        assert(self.running@.dom() =~= run.dom().remove(k));
                        assert(self.running_ids() =~= old(self).running_ids().difference(e1.dom()));
                        assert(self.stop_timeouts() =~= ts.remove(k));
                        assert(self.stop_timeouts() =~= old(self).stop_timeouts().remove_keys(e1.dom()));
                        assert(self.exits() =~= ex.insert(k, code));
                        assert(self.exits() =~= old(self).exits().union_prefer_right(e1));
                    }
                },
            }
            i = i + 1;
        }
        assert(all.take(n as int) =~= all);
    }

    /// Collects the plugins whose process has ended: the process of every
    /// running plugin is polled once, in id order, and what came back is
    /// collected as `collect_exits` says. Which processes have ended is up
    /// to the operating system; a failed poll leaves the table as it was.
    /// With no process running nothing is polled, and the collection
    /// succeeds.
    pub fn refresh(&mut self) -> (r: Result<(), KernelError>)
        ensures
            r is Ok ==> exists|polled: Seq<(String, Option<Option<i32>>)>|
                polled_ids(polled) == old(self).running_order() && #[trigger] final(self).collected_from(
                    *old(self),
                    polled,
                ),
            r is Ok ==> final(self).refreshed_from(*old(self)),
            r matches Err(e) ==> e is Io && final(self).same_table(*old(self)),
            old(self).running_ids() == Set::<Seq<char>>::empty() ==> r is Ok && final(self).same_table(*old(self)),
    {
        proof {
            use_type_invariant(&self.running);
            self.lemma_running_order();
        }
        let polled = match self.poll_running() {
            Ok(v) => v,
            Err(message) => return Err(KernelError::Io(message)),
        };
        let ghost p = polled@;
        let ghost mid = *self;
        self.collect_exits(polled);
        proof {
            assert(polled_ids(p).to_set() == mid.running_ids());
            assert(self.collected_from(*old(self), p));
            lemma_collected_refreshed(mid, *self, p);
            ProcessManager::lemma_same_table_refreshed(*old(self), mid);
            ProcessManager::lemma_refreshed_chain(*old(self), mid, *self);
            if old(self).running_ids() == Set::<Seq<char>>::empty() {
                lemma_ended_within(p);
                assert(old(self).running_order().len() == 0) by {
                    if old(self).running_order().len() > 0 {
                        assert(old(self).running_order().to_set().contains(old(self).running_order()[0]));
                    }
                }
                assert(ended_exits(p).dom() =~= Set::<Seq<char>>::empty()) by {
                    assert forall|k: Seq<char>| !ended_exits(p).dom().contains(k) by {
                        if ended_exits(p).dom().contains(k) {
                            assert(polled_ids(p).contains(k));
                        }
                    }
                }
                assert(self.running_ids() =~= old(self).running_ids());
                assert(self.stop_timeouts() =~= old(self).stop_timeouts());
                assert(self.exits() =~= old(self).exits());
            }
        }
        Ok(())
    }
}

/// The ids of a list of poll results, in order.
pub open spec fn polled_ids(polled: Seq<(String, Option<Option<i32>>)>) -> Seq<Seq<char>> {
    polled.map_values(|p: (String, Option<Option<i32>>)| p.0@)
}

/// The exit code recorded for a process that has ended: its code, or `-1`
/// when a signal ended it.
pub open spec fn exit_code(status: Option<i32>) -> i32 {
    match status {
        Some(c) => c,
        None => -1i32,
    }
}

/// The exit codes of the plugins that polling reported as ended, later
/// reports of an id replacing earlier ones.
pub open spec fn ended_exits(polled: Seq<(String, Option<Option<i32>>)>) -> Map<Seq<char>, i32>
    decreases polled.len(),
{
    if polled.len() == 0 {
        Map::empty()
    } else {
        let e = ended_exits(polled.drop_last());
        match polled.last().1 {
            Some(status) => e.insert(polled.last().0@, exit_code(status)),
            None => e,
        }
    }
}

proof fn lemma_ended_within(polled: Seq<(String, Option<Option<i32>>)>)
    ensures
        forall|k: Seq<char>| #[trigger] ended_exits(polled).dom().contains(k) ==> polled_ids(polled).contains(k),
    decreases polled.len(),
{
    if polled.len() > 0 {
        let init = polled.drop_last();
        lemma_ended_within(init);
        assert forall|k: Seq<char>| #[trigger] ended_exits(polled).dom().contains(k) implies polled_ids(polled).contains(k) by {
            if ended_exits(init).dom().contains(k) {
                let j = choose|j: int| 0 <= j < polled_ids(init).len() && polled_ids(init)[j] == k;
                assert(polled_ids(polled)[j] == k);
            } else {
                assert(polled_ids(polled)[polled.len() - 1] == k);
            }
        }
    }
}

/// Collecting what polling the running plugins reported is a collection of
/// ended processes.
proof fn lemma_collected_refreshed(before: ProcessManager, after: ProcessManager, polled: Seq<(String, Option<Option<i32>>)>)
    requires
        polled_ids(polled).to_set() == before.running_ids(),
        after.collected_from(before, polled),
    ensures
        after.refreshed_from(before),
{
    lemma_ended_within(polled);
    let d = ended_exits(polled).dom();
    assert forall|k: Seq<char>| d.contains(k) implies before.running_ids().contains(k) by {
        assert(polled_ids(polled).contains(k));
        assert(polled_ids(polled).to_set().contains(k));
    }
    assert forall|k: Seq<char>| #[trigger] after.running_ids().contains(k) implies after.stop_timeouts()[k]
        == before.stop_timeouts()[k] by {}
}

/// How a plugin process is launched: its executable, arguments, working
/// directory and environment, where its output goes and how long it gets to
/// stop.
pub struct LaunchPlan {
    pub id: String,
    pub plugin_dir: String,
    pub executable: String,
    pub args: Vec<String>,
    pub environment: TextMap<String>,
    pub config_file: String,
    pub log_file: String,
    pub stop_timeout_ms: u64,
}

/// The characters of each value of a map of texts.
pub open spec fn text_values(m: Map<Seq<char>, String>) -> Map<Seq<char>, Seq<char>> {
    m.map_values(|s: String| s@)
}

/// The environment of a plugin process: the runtime's own variables, then
/// the plugin's id, home and settings file, the workspace root and the
/// runtime directory, which take precedence.
pub open spec fn plugin_environment(
    base: Map<Seq<char>, String>,
    id: Seq<char>,
    home: Seq<char>,
    config: Seq<char>,
    root: Seq<char>,
    runtime_root: Seq<char>,
) -> Map<Seq<char>, Seq<char>> {
    text_values(base).insert("EASOS_PLUGIN_ID"@, id).insert("EASOS_PLUGIN_HOME"@, home).insert(
        "EASOS_PLUGIN_CONFIG_PATH"@,
        config,
    ).insert("EASOS_HOME"@, root).insert("EASOS_RUNTIME_HOME"@, runtime_root)
}

/// The paths a plan hands to a plugin are absolute: its directory, its
/// executable, its settings file, which `EASOS_PLUGIN_CONFIG_PATH` names,
/// and its log file.
pub open spec fn absolute_plan(plan: &LaunchPlan) -> bool {
    &&& crate::model::is_absolute_path(plan.plugin_dir@)
    &&& crate::model::is_absolute_path(plan.executable@)
    &&& crate::model::is_absolute_path(plan.config_file@)
    &&& crate::model::is_absolute_path(plan.log_file@)
    &&& text_values(plan.environment@)["EASOS_PLUGIN_CONFIG_PATH"@] == plan.config_file@
}

/// What `launch_plan` decides for a plugin that is not running.
pub open spec fn plan_for(layout: &Layout, m: &PluginManifest, plan: &LaunchPlan) -> bool {
    plan_paths(layout, m, plan) && absolute_plan(plan)
}

/// The plan's executable, arguments, environment and files, from the
/// layout and the manifest.
pub open spec fn plan_paths(layout: &Layout, m: &PluginManifest, plan: &LaunchPlan) -> bool {
    let rt = m.runtime->0;
    let home = path_join(layout@.root, m.id@);
    let config = path_join2(home, "config"@, "main.json"@);
    &&& m.runtime is Some
    &&& plan.id@ == m.id@
    &&& plan.plugin_dir@ == home
    &&& plan.executable@ == path_join(home, rt.entrypoint@)
    &&& crate::text::texts(plan.args@) == crate::text::texts(rt.args@)
    &&& text_values(plan.environment@) == plugin_environment(
        rt.environment@,
        m.id@,
        home,
        config,
        layout@.root,
        layout@.runtime_root,
    )
    &&& plan.config_file@ == config
    &&& plan.log_file@ == path_join(layout@.logs_dir, crate::layout::log_name(m.id@))
    &&& plan.stop_timeout_ms == rt.stop_timeout_ms
}

/// Law: in a workspace with an absolute root and logs directory, which
/// every layout has, a plugin is launched with absolute paths, and
/// `EASOS_PLUGIN_CONFIG_PATH` names its settings file.
pub proof fn lemma_launch_paths_are_absolute(layout: &Layout, m: &PluginManifest, plan: &LaunchPlan)
    requires
        plan_paths(layout, m, plan),
        crate::model::is_absolute_path(layout@.root),
        crate::model::is_absolute_path(layout@.logs_dir),
    ensures
        absolute_plan(plan),
{
    reveal_strlit("EASOS_PLUGIN_CONFIG_PATH");
    reveal_strlit("EASOS_HOME");
    reveal_strlit("EASOS_RUNTIME_HOME");
    assert("EASOS_PLUGIN_CONFIG_PATH"@.len() != "EASOS_HOME"@.len());
    assert("EASOS_PLUGIN_CONFIG_PATH"@.len() != "EASOS_RUNTIME_HOME"@.len());
    let home = path_join(layout@.root, m.id@);
    lemma_join_keeps_absolute(layout@.root, m.id@);
    lemma_join_keeps_absolute(home, m.runtime->0.entrypoint@);
    lemma_join_keeps_absolute(home, "config"@);
    lemma_join_keeps_absolute(path_join(home, "config"@), "main.json"@);
    lemma_join_keeps_absolute(layout@.logs_dir, crate::layout::log_name(m.id@));
}

/// Law: a plugin process gets the runtime's own variables, and on top of
/// them its id in `EASOS_PLUGIN_ID`, its directory in `EASOS_PLUGIN_HOME`,
/// its settings file in `EASOS_PLUGIN_CONFIG_PATH`, the workspace root in
/// `EASOS_HOME` and the runtime directory in `EASOS_RUNTIME_HOME`.
pub proof fn lemma_plan_environment(layout: &Layout, m: &PluginManifest, plan: &LaunchPlan)
    requires
        plan_for(layout, m, plan),
    ensures
        ({
            let env = text_values(plan.environment@);
            &&& env["EASOS_PLUGIN_ID"@] == m.id@
            &&& env["EASOS_PLUGIN_HOME"@] == plan.plugin_dir@
            &&& env["EASOS_PLUGIN_CONFIG_PATH"@] == plan.config_file@
            &&& env["EASOS_HOME"@] == layout@.root
            &&& env["EASOS_RUNTIME_HOME"@] == layout@.runtime_root
            &&& forall|k: Seq<char>|
                #[trigger] m.runtime->0.environment@.contains_key(k) && k != "EASOS_PLUGIN_ID"@ && k
                    != "EASOS_PLUGIN_HOME"@ && k != "EASOS_PLUGIN_CONFIG_PATH"@ && k != "EASOS_HOME"@ && k
                    != "EASOS_RUNTIME_HOME"@ ==> env.contains_key(k) && env[k] == m.runtime->0.environment@[k]@
        }),
{
    reveal_strlit("EASOS_PLUGIN_ID");
    reveal_strlit("EASOS_PLUGIN_HOME");
    reveal_strlit("EASOS_PLUGIN_CONFIG_PATH");
    reveal_strlit("EASOS_HOME");
    reveal_strlit("EASOS_RUNTIME_HOME");
    assert("EASOS_PLUGIN_ID"@.len() == 15);
    assert("EASOS_PLUGIN_HOME"@.len() == 17);
    assert("EASOS_PLUGIN_CONFIG_PATH"@.len() == 24);
    assert("EASOS_HOME"@.len() == 10);
    assert("EASOS_RUNTIME_HOME"@.len() == 18);
}

/// Law: collecting what polling reported takes every plugin polled as
/// ended out of the running table and records its exit code, `-1` when a
/// signal ended it; a plugin polled as still running stays, with its last
/// exit as before.
pub proof fn lemma_collect_records_exits(
    before: ProcessManager,
    after: ProcessManager,
    polled: Seq<(String, Option<Option<i32>>)>,
    i: int,
)
    requires
        after.collected_from(before, polled),
        polled_ids(polled).no_duplicates(),
        0 <= i < polled.len(),
    ensures
        polled[i].1 matches Some(status) ==> !after.running_ids().contains(polled[i].0@)
            && after.exits().contains_key(polled[i].0@) && after.exits()[polled[i].0@] == match status {
            Some(c) => c,
            None => -1i32,
        },
        polled[i].1 is None ==> (after.running_ids().contains(polled[i].0@) == before.running_ids().contains(
            polled[i].0@,
        )) && after.exits().contains_key(polled[i].0@) == before.exits().contains_key(polled[i].0@)
            && (before.exits().contains_key(polled[i].0@) ==> after.exits()[polled[i].0@]
            == before.exits()[polled[i].0@]),
{
    lemma_ended_exits_at(polled, i);
}

proof fn lemma_ended_exits_at(polled: Seq<(String, Option<Option<i32>>)>, i: int)
    requires
        polled_ids(polled).no_duplicates(),
        0 <= i < polled.len(),
    ensures
        polled[i].1 matches Some(status) ==> ended_exits(polled).contains_key(polled[i].0@)
            && ended_exits(polled)[polled[i].0@] == exit_code(status),
        polled[i].1 is None ==> !ended_exits(polled).contains_key(polled[i].0@),
    decreases polled.len(),
{
    let n = polled.len();
    let init = polled.drop_last();
    assert(polled_ids(init) =~= polled_ids(polled).drop_last());
    if i < n - 1 {
        assert(polled_ids(init).no_duplicates()) by {
            assert forall|a: int, b: int| 0 <= a < polled_ids(init).len() && 0 <= b < polled_ids(init).len() && a != b implies polled_ids(init)[a] != polled_ids(init)[b] by {
                assert(polled_ids(init)[a] == polled_ids(polled)[a]);
                assert(polled_ids(init)[b] == polled_ids(polled)[b]);
            }
        }
        lemma_ended_exits_at(init, i);
        assert(init[i] == polled[i]);
        assert(polled.last().0@ != polled[i].0@) by {
            assert(polled_ids(polled)[n - 1] == polled.last().0@);
            assert(polled_ids(polled)[i] == polled[i].0@);
        }
    } else {
        lemma_ended_within(init);
        if ended_exits(init).contains_key(polled[i].0@) {
            assert(polled_ids(init).contains(polled[i].0@));
            let j = choose|j: int| 0 <= j < polled_ids(init).len() && polled_ids(init)[j] == polled[i].0@;
            assert(polled_ids(polled)[j] == polled_ids(polled)[n - 1]);
        }
    }
}

fn copy_text(value: &String) -> (c: String)
    ensures
        c == *value,
{
    value.clone()
}

fn copy_strings(v: &Vec<String>) -> (r: Vec<String>)
    ensures
        r@ == v@,
{
    let mut r: Vec<String> = Vec::new();
    let n: usize = v.len();
    let mut i: usize = 0;
    while i < n
        invariant
            n == v@.len(),
            i <= n,
            r@ == v@.take(i as int),
        decreases n - i,
    {
        r.push(v[i].clone());
        assert(r@ =~= v@.take(i + 1));
        i = i + 1;
    }
    assert(v@.take(n as int) =~= v@);
    r
}

impl LaunchPlan {
    /// The error for a plan whose executable is not a file.
    pub fn missing_entrypoint(&self) -> (e: KernelError)
        ensures
            e@ == ErrorView::InvalidData(
                "plugin "@ + self.id@ + " entrypoint does not exist: "@ + self.executable@,
            ),
    {
        let mut m = "plugin ".to_owned();
        m.append(self.id.as_str());
        m.append(" entrypoint does not exist: ");
        m.append(self.executable.as_str());
        KernelError::InvalidData(m)
    }
}

impl ProcessManager {
    /// Decides how to start a plugin: nothing when it is already running, a
    /// launch plan when it has a process runtime, an error otherwise.
    pub fn launch_plan(&self, layout: &Layout, manifest: &PluginManifest) -> (r: Result<Option<LaunchPlan>, KernelError>)
        ensures
            self.running_ids().contains(manifest.id@) ==> r matches Ok(None),
            !self.running_ids().contains(manifest.id@) && manifest.runtime is None ==> (r matches Err(e)
                && e@ == ErrorView::InvalidData("plugin "@ + manifest.id@ + " has no process runtime"@)),
            !self.running_ids().contains(manifest.id@) && manifest.runtime is Some ==> (r matches Ok(Some(plan))
                && plan_for(layout, manifest, &plan)),
    {
        if self.is_running(manifest.id.as_str()) {
            return Ok(None);
        }
        let runtime = match &manifest.runtime {
            Some(rt) => rt,
            None => {
                let mut m = "plugin ".to_owned();
                m.append(manifest.id.as_str());
                m.append(" has no process runtime");
                return Err(KernelError::InvalidData(m));
            },
        };
        let plugin_dir = layout.plugin_dir(manifest.id.as_str());
        let executable = join_path(plugin_dir.as_str(), runtime.entrypoint.as_str());
        let config_file = layout.plugin_config_file(manifest.id.as_str());
        let log_file = layout.plugin_log(manifest.id.as_str());
        let mut environment = copy_text_map(&runtime.environment, copy_text);
        environment.insert("EASOS_PLUGIN_ID".to_owned(), manifest.id.clone());
        environment.insert("EASOS_PLUGIN_HOME".to_owned(), plugin_dir.clone());
        environment.insert("EASOS_PLUGIN_CONFIG_PATH".to_owned(), config_file.clone());
        environment.insert("EASOS_HOME".to_owned(), layout.root().clone());
        environment.insert("EASOS_RUNTIME_HOME".to_owned(), layout.runtime_root().clone());
        let plan = LaunchPlan {
            id: manifest.id.clone(),
            plugin_dir,
            executable,
            args: copy_strings(&runtime.args),
            environment,
            config_file,
            log_file,
            stop_timeout_ms: runtime.stop_timeout_ms,
        };
        proof {
            assert(text_values(plan.environment@) =~= plugin_environment(
                runtime.environment@,
                manifest.id@,
                plan.plugin_dir@,
                plan.config_file@,
                layout@.root,
                layout@.runtime_root,
            ));
        }
        let _ = layout.logs_dir();
        proof {
            lemma_launch_paths_are_absolute(layout, manifest, &plan);
        }
        Ok(Some(plan))
    }

    /// Collects ended processes, then decides how to start a plugin.
    pub fn prepare_start(&mut self, layout: &Layout, manifest: &PluginManifest) -> (r: Result<Option<LaunchPlan>, KernelError>)
        ensures
            match r {
                Err(e) => (e is Io && final(self).same_table(*old(self))) || (final(self).refreshed_from(*old(self))
                    && !final(self).running_ids().contains(manifest.id@) && manifest.runtime is None
                    && e@ == ErrorView::InvalidData("plugin "@ + manifest.id@ + " has no process runtime"@)),
                Ok(None) => final(self).refreshed_from(*old(self)) && final(self).running_ids().contains(manifest.id@),
                Ok(Some(plan)) => final(self).refreshed_from(*old(self)) && !final(self).running_ids().contains(manifest.id@)
                    && plan_for(layout, manifest, &plan),
            },
    {
        if let Err(e) = self.refresh() {
            return Err(e);
        }
        self.launch_plan(layout, manifest)
    }
}

impl Default for ProcessManager {
    fn default() -> (m: ProcessManager)
        ensures
            m.running_ids() == Set::<Seq<char>>::empty(),
            m.exits() == Map::<Seq<char>, i32>::empty(),
    {
        let m = ProcessManager { running: TextMap::new(), last_exit: TextMap::new() };
        proof {
            assert(m.running@.dom() =~= Set::<Seq<char>>::empty());
        }
        m
    }
}

} // verus!
