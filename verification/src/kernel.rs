//! The kernel's decisions on control commands: which plugins may change,
//! in what order plugins start, when a plugin may stop or be removed, and
//! what clients are told about plugins.
use vstd::prelude::*;
use vstd::string::*;

use crate::error::{failure_of, ErrorView, KernelError};
use crate::layout::Layout;
use crate::model::{
    kernel_id, Inventory, InvalidPlugin, KernelState, PluginKind, PluginManifest, PluginSettings,
    PluginState, PluginVersion, PluginView, KERNEL_PLUGIN_ID,
};
use crate::path::path_join;
use crate::process::ProcessManager;
use crate::registry::RegistrySnapshot;
use crate::text::{contains_white_space, has_white_space, join_texts, joined, text_eq, texts};
use crate::textmap::TextMap;

verus! {

// ---------------------------------------------------------------------------
// Dependency order

/// The plugins that `id` requires.
pub open spec fn requires_of(g: Map<Seq<char>, PluginManifest>, id: Seq<char>) -> Seq<Seq<char>> {
    texts(g[id].requires@)
}

pub open spec fn cycle_error(id: Seq<char>) -> ErrorView {
    ErrorView::Dependency("dependency cycle detected at plugin "@ + id)
}

pub open spec fn missing_error(id: Seq<char>) -> ErrorView {
    ErrorView::Dependency("required plugin "@ + id + " is missing"@)
}

/// Depth-first visit of `id`: plugins already in `out` are done; a plugin on
/// the current path `stack` closes a cycle; a plugin that is not installed is
/// missing; otherwise its dependencies are visited in their listed order and
/// the plugin follows them in the output. `fuel` bounds the depth.
pub open spec fn visit(
    g: Map<Seq<char>, PluginManifest>,
    fuel: nat,
    id: Seq<char>,
    stack: Seq<Seq<char>>,
    out: Seq<Seq<char>>,
) -> Result<Seq<Seq<char>>, ErrorView>
    decreases fuel, 0int, 0int,
{
    if out.contains(id) {
        Ok(out)
    } else if stack.contains(id) {
        Err(cycle_error(id))
    } else if !g.contains_key(id) {
        Err(missing_error(id))
    } else if fuel == 0 {
        Err(cycle_error(id))
    } else {
        match visit_each(g, (fuel - 1) as nat, requires_of(g, id), 0, stack.push(id), out) {
            Ok(o) => Ok(o.push(id)),
            Err(e) => Err(e),
        }
    }
}

/// Visits `deps[i..]` in order, threading the output through.
pub open spec fn visit_each(
    g: Map<Seq<char>, PluginManifest>,
    fuel: nat,
    deps: Seq<Seq<char>>,
    i: int,
    stack: Seq<Seq<char>>,
    out: Seq<Seq<char>>,
) -> Result<Seq<Seq<char>>, ErrorView>
    decreases fuel, 1int, deps.len() - i,
{
    if i < 0 || i >= deps.len() {
        Ok(out)
    } else {
        match visit(g, fuel, deps[i], stack, out) {
            Ok(o) => visit_each(g, fuel, deps, i + 1, stack, o),
            Err(e) => Err(e),
        }
    }
}

/// The start order of `root`: its dependencies, transitively and each before
/// the plugins that need it, then `root` itself.
pub open spec fn start_order(g: Map<Seq<char>, PluginManifest>, root: Seq<char>) -> Result<
    Seq<Seq<char>>,
    ErrorView,
> {
    visit(g, g.dom().len(), root, Seq::empty(), Seq::empty())
}

/// Every plugin of the order is installed and comes after all of its
/// dependencies.
pub open spec fn dependencies_first(g: Map<Seq<char>, PluginManifest>, o: Seq<Seq<char>>) -> bool {
    forall|i: int|
        #![trigger o[i]]
        0 <= i < o.len() ==> g.contains_key(o[i]) && forall|d: Seq<char>|
            #[trigger] requires_of(g, o[i]).contains(d) ==> o.take(i).contains(d)
}

/// `o` extends `out`, adds nothing that is on `stack`, and keeps the order
/// free of repetitions and of plugins before their dependencies.
pub open spec fn extends_well(
    g: Map<Seq<char>, PluginManifest>,
    stack: Seq<Seq<char>>,
    out: Seq<Seq<char>>,
    o: Seq<Seq<char>>,
) -> bool {
    &&& out.len() <= o.len()
    &&& o.take(out.len() as int) == out
    &&& dependencies_first(g, o)
    &&& o.no_duplicates()
    &&& forall|x: Seq<char>| #[trigger] o.contains(x) && !out.contains(x) ==> !stack.contains(x)
}

proof fn lemma_extends_trans(
    g: Map<Seq<char>, PluginManifest>,
    stack: Seq<Seq<char>>,
    a: Seq<Seq<char>>,
    b: Seq<Seq<char>>,
    c: Seq<Seq<char>>,
)
    requires
        extends_well(g, stack, a, b),
        extends_well(g, stack, b, c),
    ensures
        extends_well(g, stack, a, c),
        forall|x: Seq<char>| #[trigger] b.contains(x) ==> c.contains(x),
{
    assert(c.take(a.len() as int) =~= b.take(a.len() as int)) by {
        assert forall|k: int| 0 <= k < a.len() implies c.take(a.len() as int)[k] == b.take(a.len() as int)[k] by {
            assert(c[k] == c.take(b.len() as int)[k]);
        }
    }
    assert forall|x: Seq<char>| #[trigger] b.contains(x) implies c.contains(x) by {
        let k = choose|k: int| 0 <= k < b.len() && b[k] == x;
        assert(c.take(b.len() as int)[k] == x);
    }
    assert forall|x: Seq<char>| #[trigger] c.contains(x) && !a.contains(x) implies !stack.contains(x) by {
        if b.contains(x) {
        } else {
        }
    }
}

proof fn lemma_visit_order(
    g: Map<Seq<char>, PluginManifest>,
    fuel: nat,
    id: Seq<char>,
    stack: Seq<Seq<char>>,
    out: Seq<Seq<char>>,
)
    requires
        visit(g, fuel, id, stack, out) is Ok,
        dependencies_first(g, out),
        out.no_duplicates(),
    ensures
        extends_well(g, stack, out, visit(g, fuel, id, stack, out)->Ok_0),
        visit(g, fuel, id, stack, out)->Ok_0.contains(id),
        !out.contains(id) ==> visit(g, fuel, id, stack, out)->Ok_0.last() == id,
    decreases fuel, 0int, 0int,
{
    let o = visit(g, fuel, id, stack, out)->Ok_0;
    if out.contains(id) {
        assert(o.take(out.len() as int) =~= out);
    } else {
        let deps = requires_of(g, id);
        let st = stack.push(id);
        let o1 = visit_each(g, (fuel - 1) as nat, deps, 0, st, out)->Ok_0;
        lemma_visit_each_order(g, (fuel - 1) as nat, deps, 0, st, out);
        assert(o == o1.push(id));
        assert(!o1.contains(id)) by {
            if o1.contains(id) {
                assert(st.contains(id)) by {
                    assert(st[stack.len() as int] == id);
                }
            }
        }
        assert(o.take(out.len() as int) =~= o1.take(out.len() as int));
        assert(o.take(o1.len() as int) =~= o1);
        assert forall|i: int| #![trigger o[i]] 0 <= i < o.len() implies g.contains_key(o[i]) && forall|d: Seq<char>|
            #[trigger] requires_of(g, o[i]).contains(d) ==> o.take(i).contains(d) by {
            if i < o1.len() {
                assert(o[i] == o1[i]);
                assert(o.take(i) =~= o1.take(i));
            } else {
                assert(o[i] == id);
                assert(o.take(i) =~= o1);
            }
        }
        assert(o.no_duplicates()) by {
            assert forall|a: int, b: int| 0 <= a < o.len() && 0 <= b < o.len() && a != b implies o[a] != o[b] by {
                if a < o1.len() && b < o1.len() {
                    assert(o[a] == o1[a] && o[b] == o1[b]);
                } else if a == o1.len() {
                    assert(o1.contains(o[b]) || b == a);
                } else {
                    assert(o1.contains(o[a]));
                }
            }
        }
        assert forall|x: Seq<char>| #[trigger] o.contains(x) && !out.contains(x) implies !stack.contains(x) by {
            if x != id {
                let k = choose|k: int| 0 <= k < o.len() && o[k] == x;
                assert(o1[k] == x);
                assert(o1.contains(x));
                if stack.contains(x) {
                    let j = choose|j: int| 0 <= j < stack.len() && stack[j] == x;
                    assert(st[j] == x);
                }
            }
        }
        assert(o[o.len() - 1] == id);
    }
}

proof fn lemma_visit_each_order(
    g: Map<Seq<char>, PluginManifest>,
    fuel: nat,
    deps: Seq<Seq<char>>,
    i: int,
    stack: Seq<Seq<char>>,
    out: Seq<Seq<char>>,
)
    requires
        visit_each(g, fuel, deps, i, stack, out) is Ok,
        dependencies_first(g, out),
        out.no_duplicates(),
        0 <= i,
    ensures
        extends_well(g, stack, out, visit_each(g, fuel, deps, i, stack, out)->Ok_0),
        forall|k: int|
            i <= k < deps.len() ==> visit_each(g, fuel, deps, i, stack, out)->Ok_0.contains(
                #[trigger] deps[k],
            ),
    decreases fuel, 1int, deps.len() - i,
{
    let o = visit_each(g, fuel, deps, i, stack, out)->Ok_0;
    if i >= deps.len() {
        assert(o.take(out.len() as int) =~= out);
    } else {
        let o1 = visit(g, fuel, deps[i], stack, out)->Ok_0;
        lemma_visit_order(g, fuel, deps[i], stack, out);
        lemma_visit_each_order(g, fuel, deps, i + 1, stack, o1);
        lemma_extends_trans(g, stack, out, o1, o);
    }
}

/// Law: a start order has no plugin twice, ends with the requested plugin,
/// and lists every plugin after the plugins it requires, all of them
/// installed.
pub proof fn lemma_start_order_well_formed(g: Map<Seq<char>, PluginManifest>, root: Seq<char>)
    requires
        start_order(g, root) is Ok,
    ensures
        start_order(g, root)->Ok_0.no_duplicates(),
        start_order(g, root)->Ok_0.len() > 0,
        start_order(g, root)->Ok_0.last() == root,
        dependencies_first(g, start_order(g, root)->Ok_0),
{
    lemma_visit_order(g, g.dom().len(), root, Seq::empty(), Seq::empty());
}

proof fn lemma_visit_fails_on_dependencies(
    g: Map<Seq<char>, PluginManifest>,
    fuel: nat,
    id: Seq<char>,
    stack: Seq<Seq<char>>,
    out: Seq<Seq<char>>,
)
    requires
        visit(g, fuel, id, stack, out) is Err,
    ensures
        visit(g, fuel, id, stack, out)->Err_0 is Dependency,
    decreases fuel, 0int, 0int,
{
    if !out.contains(id) && !stack.contains(id) && g.contains_key(id) && fuel > 0 {
        lemma_visit_each_fails_on_dependencies(
            g,
            (fuel - 1) as nat,
            requires_of(g, id),
            0,
            stack.push(id),
            out,
        );
    }
}

proof fn lemma_visit_each_fails_on_dependencies(
    g: Map<Seq<char>, PluginManifest>,
    fuel: nat,
    deps: Seq<Seq<char>>,
    i: int,
    stack: Seq<Seq<char>>,
    out: Seq<Seq<char>>,
)
    requires
        visit_each(g, fuel, deps, i, stack, out) is Err,
    ensures
        visit_each(g, fuel, deps, i, stack, out)->Err_0 is Dependency,
    decreases fuel, 1int, deps.len() - i,
{
    if 0 <= i < deps.len() {
        match visit(g, fuel, deps[i], stack, out) {
            Ok(o) => lemma_visit_each_fails_on_dependencies(g, fuel, deps, i + 1, stack, o),
            Err(_) => lemma_visit_fails_on_dependencies(g, fuel, deps[i], stack, out),
        }
    }
}

/// Law: ordering plugins for a start fails only with a dependency error.
pub proof fn lemma_start_order_fails_on_dependencies(g: Map<Seq<char>, PluginManifest>, root: Seq<char>)
    requires
        start_order(g, root) is Err,
    ensures
        start_order(g, root)->Err_0 is Dependency,
{
    lemma_visit_fails_on_dependencies(g, g.dom().len(), root, Seq::empty(), Seq::empty());
}

/// `p` is a chain of requirements: each plugin of it but the last is
/// installed and requires the next.
pub open spec fn requirement_chain(g: Map<Seq<char>, PluginManifest>, p: Seq<Seq<char>>) -> bool {
    forall|i: int|
        #![trigger requires_of(g, p[i])]
        #![trigger g.dom().contains(p[i])]
        0 <= i < p.len() - 1 ==> g.contains_key(p[i]) && requires_of(g, p[i]).contains(p[i + 1])
}

/// `x` is reached from `root` by following requirements.
pub open spec fn reaches(g: Map<Seq<char>, PluginManifest>, root: Seq<char>, x: Seq<char>) -> bool {
    exists|p: Seq<Seq<char>>| #[trigger] requirement_chain(g, p) && p.len() >= 1 && p[0] == root && p.last() == x
}

/// `x` lies on a cycle of requirements.
pub open spec fn on_cycle(g: Map<Seq<char>, PluginManifest>, x: Seq<char>) -> bool {
    exists|p: Seq<Seq<char>>| #[trigger] requirement_chain(g, p) && p.len() >= 2 && p[0] == x && p.last() == x
}

/// Some plugin reached from `root` is not installed.
pub open spec fn reaches_missing(g: Map<Seq<char>, PluginManifest>, root: Seq<char>) -> bool {
    exists|x: Seq<char>| #[trigger] reaches(g, root, x) && !g.contains_key(x)
}

/// Some plugin reached from `root` lies on a cycle of requirements.
pub open spec fn reaches_cycle(g: Map<Seq<char>, PluginManifest>, root: Seq<char>) -> bool {
    exists|x: Seq<char>| #[trigger] reaches(g, root, x) && on_cycle(g, x)
}

/// A part of a chain is a chain.
proof fn lemma_chain_part(g: Map<Seq<char>, PluginManifest>, p: Seq<Seq<char>>, a: int, b: int)
    requires
        requirement_chain(g, p),
        0 <= a <= b <= p.len(),
    ensures
        requirement_chain(g, p.subrange(a, b)),
{
    let q = p.subrange(a, b);
    assert forall|i: int| #![trigger requires_of(g, q[i])] #![trigger g.dom().contains(q[i])] 0 <= i < q.len() - 1 implies g.contains_key(q[i])
        && requires_of(g, q[i]).contains(q[i + 1]) by {
        assert(q[i] == p[a + i]);
        assert(q[i + 1] == p[a + i + 1]);
        assert(requires_of(g, p[a + i]).contains(p[a + i + 1]));
        assert(g.contains_key(p[a + i]));
    }
}

/// Every plugin of a chain that starts at `root` is reached from `root`.
proof fn lemma_chain_reaches(g: Map<Seq<char>, PluginManifest>, root: Seq<char>, p: Seq<Seq<char>>, k: int)
    requires
        requirement_chain(g, p),
        p.len() >= 1,
        p[0] == root,
        0 <= k < p.len(),
    ensures
        reaches(g, root, p[k]),
{
    lemma_chain_part(g, p, 0, k + 1);
    let q = p.subrange(0, k + 1);
    assert(q[0] == root && q.last() == p[k]);
}

/// A plugin that requires the start of a chain extends it.
proof fn lemma_chain_prepend(g: Map<Seq<char>, PluginManifest>, id: Seq<char>, p: Seq<Seq<char>>)
    requires
        requirement_chain(g, p),
        p.len() >= 1,
        g.contains_key(id),
        requires_of(g, id).contains(p[0]),
    ensures
        requirement_chain(g, seq![id] + p),
{
    let q = seq![id] + p;
    assert forall|i: int| #![trigger requires_of(g, q[i])] #![trigger g.dom().contains(q[i])] 0 <= i < q.len() - 1 implies g.contains_key(q[i])
        && requires_of(g, q[i]).contains(q[i + 1]) by {
        if i > 0 {
            assert(q[i] == p[i - 1]);
            assert(q[i + 1] == p[i]);
            assert(requires_of(g, p[i - 1]).contains(p[i]));
            assert(g.contains_key(p[i - 1]));
        } else {
            assert(q[0] == id);
            assert(q[1] == p[0]);
        }
    }
}

/// Every plugin that a successful visit of `id` adds is reached from `id`.
proof fn lemma_visit_reaches(
    g: Map<Seq<char>, PluginManifest>,
    fuel: nat,
    id: Seq<char>,
    stack: Seq<Seq<char>>,
    out: Seq<Seq<char>>,
)
    requires
        visit(g, fuel, id, stack, out) is Ok,
        dependencies_first(g, out),
        out.no_duplicates(),
    ensures
        forall|x: Seq<char>| #[trigger] visit(g, fuel, id, stack, out)->Ok_0.contains(x) ==> out.contains(x) || reaches(g, id, x),
    decreases fuel, 0int, 0int,
{
    if !out.contains(id) {
        let deps = requires_of(g, id);
        let st = stack.push(id);
        let o1 = visit_each(g, (fuel - 1) as nat, deps, 0, st, out)->Ok_0;
        let o = o1.push(id);
        lemma_visit_each_reaches(g, (fuel - 1) as nat, deps, 0, st, out);
        assert forall|x: Seq<char>| #[trigger] o.contains(x) implies out.contains(x) || reaches(g, id, x) by {
            if x == id {
                assert(requirement_chain(g, seq![id]));
                assert(seq![id].last() == id);
            } else {
                let j = choose|j: int| 0 <= j < o.len() && o[j] == x;
                assert(o1[j] == x);
                assert(o1.contains(x));
                if !out.contains(x) {
                    let k = choose|k: int| 0 <= k < deps.len() && #[trigger] reaches(g, deps[k], x);
                    let p = choose|p: Seq<Seq<char>>| #[trigger] requirement_chain(g, p) && p.len() >= 1 && p[0] == deps[k] && p.last() == x;
                    lemma_chain_prepend(g, id, p);
                    let q = seq![id] + p;
                    assert(q[0] == id && q.last() == x);
                }
            }
        }
    }
}

proof fn lemma_visit_each_reaches(
    g: Map<Seq<char>, PluginManifest>,
    fuel: nat,
    deps: Seq<Seq<char>>,
    i: int,
    stack: Seq<Seq<char>>,
    out: Seq<Seq<char>>,
)
    requires
        visit_each(g, fuel, deps, i, stack, out) is Ok,
        dependencies_first(g, out),
        out.no_duplicates(),
        0 <= i,
    ensures
        forall|x: Seq<char>| #[trigger] visit_each(g, fuel, deps, i, stack, out)->Ok_0.contains(x) ==> out.contains(x)
            || exists|k: int| i <= k < deps.len() && #[trigger] reaches(g, deps[k], x),
    decreases fuel, 1int, deps.len() - i,
{
    if i < deps.len() {
        let o = visit(g, fuel, deps[i], stack, out)->Ok_0;
        lemma_visit_reaches(g, fuel, deps[i], stack, out);
        lemma_visit_order(g, fuel, deps[i], stack, out);
        lemma_visit_each_reaches(g, fuel, deps, i + 1, stack, o);
        let r = visit_each(g, fuel, deps, i, stack, out)->Ok_0;
        assert forall|x: Seq<char>| #[trigger] r.contains(x) implies out.contains(x) || exists|k: int|
            i <= k < deps.len() && #[trigger] reaches(g, deps[k], x) by {
            if o.contains(x) && !out.contains(x) {
                assert(reaches(g, deps[i], x));
            } else if !o.contains(x) {
                let k = choose|k: int| i + 1 <= k < deps.len() && #[trigger] reaches(g, deps[k], x);
                assert(reaches(g, deps[k], x));
            } else {
            }
        }
    }
}

/// The path being visited: a chain from `root` ending at `id`, with no
/// plugin twice, whose length and the fuel left make up the installed plugins.
pub open spec fn visiting(
    g: Map<Seq<char>, PluginManifest>,
    root: Seq<char>,
    fuel: nat,
    id: Seq<char>,
    stack: Seq<Seq<char>>,
) -> bool {
    &&& requirement_chain(g, stack.push(id))
    &&& stack.push(id)[0] == root
    &&& stack.no_duplicates()
    &&& fuel + stack.len() == g.dom().len()
    &&& g.dom().finite()
}

/// A failed visit has met a missing plugin or a cycle reached from `root`.
proof fn lemma_visit_fails(
    g: Map<Seq<char>, PluginManifest>,
    root: Seq<char>,
    fuel: nat,
    id: Seq<char>,
    stack: Seq<Seq<char>>,
    out: Seq<Seq<char>>,
)
    requires
        visit(g, fuel, id, stack, out) is Err,
        visiting(g, root, fuel, id, stack),
    ensures
        reaches_missing(g, root) || reaches_cycle(g, root),
    decreases fuel, 0int, 0int,
{
    let c = stack.push(id);
    let n = stack.len() as int;
    assert(c[n] == id);
    if stack.contains(id) {
        let k = choose|k: int| 0 <= k < stack.len() && stack[k] == id;
        lemma_chain_reaches(g, root, c, k);
        lemma_chain_part(g, c, k, n + 1);
        let q = c.subrange(k, n + 1);
        assert(q[0] == id && q.last() == id && q.len() >= 2);
        assert(on_cycle(g, id));
        assert(reaches(g, root, id) && on_cycle(g, id));
    } else if !g.contains_key(id) {
        lemma_chain_reaches(g, root, c, n);
        assert(reaches(g, root, id) && !g.contains_key(id));
    } else if fuel == 0 {
        assert forall|x: Seq<char>| stack.to_set().contains(x) implies g.dom().contains(x) by {
            let j = choose|j: int| 0 <= j < stack.len() && stack[j] == x;
            assert(c[j] == x);
            assert(requires_of(g, c[j]).contains(c[j + 1]));
        }
        stack.unique_seq_to_set();
        let s2 = stack.to_set().insert(id);
        assert(s2.subset_of(g.dom()));
        vstd::set_lib::lemma_len_subset(s2, g.dom());
        assert(false);
    } else {
        let deps = requires_of(g, id);
        let st = stack.push(id);
        lemma_visit_each_fails(g, root, (fuel - 1) as nat, deps, 0, st, out);
    }
}

proof fn lemma_visit_each_fails(
    g: Map<Seq<char>, PluginManifest>,
    root: Seq<char>,
    fuel: nat,
    deps: Seq<Seq<char>>,
    i: int,
    stack: Seq<Seq<char>>,
    out: Seq<Seq<char>>,
)
    requires
        visit_each(g, fuel, deps, i, stack, out) is Err,
        stack.len() >= 1,
        requirement_chain(g, stack),
        g.contains_key(stack.last()),
        deps == requires_of(g, stack.last()),
        stack[0] == root,
        stack.no_duplicates(),
        fuel + stack.len() == g.dom().len(),
        g.dom().finite(),
        0 <= i,
    ensures
        reaches_missing(g, root) || reaches_cycle(g, root),
    decreases fuel, 1int, deps.len() - i,
{
    if i < deps.len() {
        let d = deps[i];
        match visit(g, fuel, d, stack, out) {
            Ok(o) => lemma_visit_each_fails(g, root, fuel, deps, i + 1, stack, o),
            Err(_) => {
                let c = stack.push(d);
                assert forall|j: int| #![trigger requires_of(g, c[j])] #![trigger g.dom().contains(c[j])] 0 <= j < c.len() - 1 implies g.contains_key(c[j])
                    && requires_of(g, c[j]).contains(c[j + 1]) by {
                    assert(c[j] == stack[j]);
                    if j < stack.len() - 1 {
                        assert(c[j + 1] == stack[j + 1]);
                        assert(requires_of(g, stack[j]).contains(stack[j + 1]));
                    } else {
                        assert(c[j + 1] == d);
                    }
                }
                assert(c[0] == root);
                lemma_visit_fails(g, root, fuel, d, stack, out);
            },
        }
    }
}

/// Law: ordering `root` for a start succeeds exactly when no plugin reached
/// from it by requirements is missing or lies on a cycle, and then the order
/// holds exactly the plugins so reached (each once, after its dependencies,
/// `root` last).
pub proof fn lemma_start_order_exact(g: Map<Seq<char>, PluginManifest>, root: Seq<char>)
    requires
        g.dom().finite(),
    ensures
        (start_order(g, root) is Ok) <==> (!reaches_missing(g, root) && !reaches_cycle(g, root)),
        start_order(g, root) is Ok ==> forall|x: Seq<char>|
            #[trigger] start_order(g, root)->Ok_0.contains(x) <==> reaches(g, root, x),
{
    let e = Seq::<Seq<char>>::empty();
    if start_order(g, root) is Ok {
        let o = start_order(g, root)->Ok_0;
        lemma_start_order_well_formed(g, root);
        lemma_visit_reaches(g, g.dom().len(), root, e, e);
        assert(o[o.len() - 1] == root);
        assert forall|x: Seq<char>| reaches(g, root, x) implies #[trigger] o.contains(x) by {
            let p = choose|p: Seq<Seq<char>>| #[trigger] requirement_chain(g, p) && p.len() >= 1 && p[0] == root && p.last() == x;
            lemma_chain_in_order(g, o, p, p.len() - 1);
        }
        assert forall|x: Seq<char>| #[trigger] o.contains(x) implies reaches(g, root, x) by {}
        assert forall|x: Seq<char>| #[trigger] reaches(g, root, x) implies g.contains_key(x) && !on_cycle(g, x) by {
            assert(o.contains(x));
            let i0 = choose|i0: int| 0 <= i0 < o.len() && o[i0] == x;
            assert(g.contains_key(o[i0]));
            if on_cycle(g, x) {
                let p = choose|p: Seq<Seq<char>>| #[trigger] requirement_chain(g, p) && p.len() >= 2 && p[0] == x && p.last() == x;
                lemma_chain_descends(g, o, p, i0, p.len() - 1);
                let j = choose|j: int| 0 <= j <= i0 - (p.len() - 1) && o[j] == p[p.len() - 1];
                assert(o[j] == o[i0]);
            }
        }
    } else {
        assert(requirement_chain(g, e.push(root))) by {
            assert(e.push(root).len() == 1);
        }
        assert(e.push(root)[0] == root);
        lemma_visit_fails(g, root, g.dom().len(), root, e, e);
    }
}

/// Every plugin of a chain whose start is in an order with dependencies
/// first is in that order.
proof fn lemma_chain_in_order(g: Map<Seq<char>, PluginManifest>, o: Seq<Seq<char>>, p: Seq<Seq<char>>, k: int)
    requires
        dependencies_first(g, o),
        requirement_chain(g, p),
        p.len() >= 1,
        o.contains(p[0]),
        0 <= k < p.len(),
    ensures
        o.contains(p[k]),
    decreases k,
{
    if k > 0 {
        lemma_chain_in_order(g, o, p, k - 1);
        let j = choose|j: int| 0 <= j < o.len() && o[j] == p[k - 1];
        assert(requires_of(g, p[k - 1]).contains(p[k]));
        assert(requires_of(g, o[j]).contains(p[k]));
        assert(o.take(j).contains(p[k]));
        let j2 = choose|j2: int| 0 <= j2 < o.take(j).len() && o.take(j)[j2] == p[k];
        assert(o[j2] == p[k]);
    }
}

proof fn lemma_chain_descends(
    g: Map<Seq<char>, PluginManifest>,
    o: Seq<Seq<char>>,
    p: Seq<Seq<char>>,
    i0: int,
    k: int,
)
    requires
        dependencies_first(g, o),
        requirement_chain(g, p),
        0 <= i0 < o.len(),
        p.len() > 0,
        o[i0] == p[0],
        0 <= k < p.len(),
    ensures
        exists|j: int| 0 <= j <= i0 - k && o[j] == p[k],
    decreases k,
{
    if k == 0 {
        assert(o[i0] == p[0]);
    } else {
        lemma_chain_descends(g, o, p, i0, k - 1);
        let j = choose|j: int| 0 <= j <= i0 - (k - 1) && o[j] == p[k - 1];
        assert(requires_of(g, p[k - 1]).contains(p[k]));
        assert(requires_of(g, o[j]).contains(p[k]));
        assert(o.take(j).contains(p[k]));
        let j2 = choose|j2: int| 0 <= j2 < o.take(j).len() && o.take(j)[j2] == p[k];
        assert(o[j2] == p[k]);
    }
}

/// Law: dependency cycles are rejected. When a chain of requirements leads
/// from a plugin back to it, ordering that plugin for a start fails with a
/// dependency error.
pub proof fn lemma_cycles_are_rejected(g: Map<Seq<char>, PluginManifest>, root: Seq<char>, p: Seq<Seq<char>>)
    requires
        requirement_chain(g, p),
        p.len() >= 2,
        p[0] == root,
        p.last() == root,
    ensures
        start_order(g, root) is Err,
        start_order(g, root)->Err_0 is Dependency,
{
    if start_order(g, root) is Ok {
        let o = start_order(g, root)->Ok_0;
        lemma_start_order_well_formed(g, root);
        let i0 = o.len() - 1;
        lemma_chain_descends(g, o, p, i0, p.len() - 1);
        let j = choose|j: int| 0 <= j <= i0 - (p.len() - 1) && o[j] == p[p.len() - 1];
        assert(o[j] == o[i0]);
    }
    lemma_start_order_fails_on_dependencies(g, root);
}

/// Whether a text is one of a list of strings.
fn list_has(v: &Vec<String>, s: &str) -> (r: bool)
    ensures
        r == texts(v@).contains(s@),
{
    let n: usize = v.len();
    let mut i: usize = 0;
    while i < n
        invariant
            n == v@.len(),
            i <= n,
            forall|j: int| 0 <= j < i ==> texts(v@)[j] != s@,
        decreases n - i,
    {
        if text_eq(v[i].as_str(), s) {
            assert(texts(v@)[i as int] == s@);
            return true;
        }
        i = i + 1;
    }
    false
}

proof fn lemma_stack_room(dom: Set<Seq<char>>, stack: Seq<Seq<char>>, id: Seq<char>)
    requires
        dom.finite(),
        stack.no_duplicates(),
        forall|i: int| 0 <= i < stack.len() ==> dom.contains(#[trigger] stack[i]),
        dom.contains(id),
        !stack.contains(id),
    ensures
        stack.len() + 1 <= dom.len(),
{
    let s2 = stack.push(id);
    assert(s2.no_duplicates()) by {
        assert forall|i: int, j: int| 0 <= i < s2.len() && 0 <= j < s2.len() && i != j implies s2[i]
            != s2[j] by {
            if i < stack.len() && j < stack.len() {
            } else if i == stack.len() {
                assert(s2[i] == id);
                assert(s2[j] == stack[j]);
            } else {
                assert(s2[j] == id);
                assert(s2[i] == stack[i]);
            }
        }
    }
    s2.unique_seq_to_set();
    assert(s2.to_set().subset_of(dom)) by {
        assert forall|x: Seq<char>| s2.to_set().contains(x) implies dom.contains(x) by {
            let k = choose|k: int| 0 <= k < s2.len() && s2[k] == x;
            if k < stack.len() {
                assert(stack[k] == x);
            }
        }
    }
    vstd::set_lib::lemma_len_subset(s2.to_set(), dom);
}

/// The executable depth-first visit; `visiting` is the current path and
/// `output` the finished plugins.
fn visit_plugin(
    snapshot: &RegistrySnapshot,
    id: &str,
    visiting: &mut Vec<String>,
    output: &mut Vec<String>,
    Ghost(fuel): Ghost<nat>,
) -> (r: Result<(), KernelError>)
    requires
        snapshot.manifests@.dom().finite(),
        fuel + old(visiting)@.len() == snapshot.manifests@.dom().len(),
        texts(old(visiting)@).no_duplicates(),
        forall|i: int| 0 <= i < old(visiting)@.len() ==> snapshot.manifests@.contains_key(#[trigger] texts(old(visiting)@)[i]),
    ensures
        match visit(snapshot.manifests@, fuel, id@, texts(old(visiting)@), texts(old(output)@)) {
            Ok(o) => r is Ok && texts(final(output)@) == o && final(visiting)@ == old(visiting)@,
            Err(e) => r matches Err(x) && x@ == e,
        },
    decreases fuel,
{
    let ghost g = snapshot.manifests@;
    let ghost stack = texts(visiting@);
    if list_has(output, id) {
        return Ok(());
    }
    if list_has(visiting, id) {
        let mut m = "dependency cycle detected at plugin ".to_owned();
        m.append(id);
        return Err(KernelError::Dependency(m));
    }
    let manifest = match snapshot.manifests.get(id) {
        Some(m) => m,
        None => {
            let mut m = "required plugin ".to_owned();
            m.append(id);
            m.append(" is missing");
            return Err(KernelError::Dependency(m));
        },
    };
    proof {
        lemma_stack_room(g.dom(), stack, id@);
        assert(fuel > 0);
    }
    visiting.push(id.to_owned());
    let ghost stack2 = texts(visiting@);
    let ghost pushed = visiting@;
    proof {
        assert(stack2 =~= stack.push(id@));
        assert(stack2.no_duplicates()) by {
            assert forall|i: int, j: int| 0 <= i < stack2.len() && 0 <= j < stack2.len() && i != j implies stack2[i]
                != stack2[j] by {
                if i < stack.len() && j < stack.len() {
                } else if i == stack.len() {
                    assert(stack2[j] == stack[j]);
                } else {
                    assert(stack2[i] == stack[i]);
                }
            }
        }
    }
    let ghost deps = texts(manifest.requires@);
    let ghost out0 = texts(output@);
    let n: usize = manifest.requires.len();
    let mut i: usize = 0;
    assert(deps == requires_of(g, id@));
    assert(pushed == old(visiting)@.push(pushed.last()));
    assert(!out0.contains(id@) && !stack.contains(id@) && g.contains_key(id@));
    while i < n
        invariant
            g == snapshot.manifests@,
            g.dom().finite(),
            fuel > 0,
            (fuel - 1) as nat + visiting@.len() == g.dom().len(),
            n == deps.len(),
            deps == texts(manifest.requires@),
            i <= n,
            texts(visiting@) == stack2,
            visiting@ == pushed,
            pushed == old(visiting)@.push(pushed.last()),
            stack == texts(old(visiting)@),
            out0 == texts(old(output)@),
            visit(g, fuel, id@, stack, out0) == match visit_each(g, (fuel - 1) as nat, deps, 0, stack2, out0) {
                Ok(o) => Ok(o.push(id@)),
                Err(e) => Err(e),
            },
            stack2.no_duplicates(),
            forall|k: int| 0 <= k < visiting@.len() ==> g.contains_key(#[trigger] texts(visiting@)[k]),
            visit_each(g, (fuel - 1) as nat, deps, 0, stack2, out0) == visit_each(
                g,
                (fuel - 1) as nat,
                deps,
                i as int,
                stack2,
                texts(output@),
            ),
        decreases n - i,
    {
        let ghost before = texts(output@);
        let dep = manifest.requires[i].as_str();
        assert(deps[i as int] == dep@);
        let res = visit_plugin(snapshot, dep, visiting, output, Ghost((fuel - 1) as nat));
        match res {
            Ok(()) => {},
            Err(e) => {
                return Err(e);
            },
        }
        i = i + 1;
    }
    visiting.pop();
    proof {
        assert(visiting@ =~= old(visiting)@);
    }
    output.push(id.to_owned());
    proof {
        assert(texts(output@) =~= texts(output@).drop_last().push(id@));
    }
    Ok(())
}

/// Orders `root` after everything it depends on, transitively, so that
/// every plugin comes after its dependencies. Fails with a dependency error
/// on a cycle or a dependency that is not installed.
pub fn dependency_order(snapshot: &RegistrySnapshot, root: &str) -> (r: Result<Vec<String>, KernelError>)
    ensures
        match start_order(snapshot.manifests@, root@) {
            Ok(o) => r matches Ok(v) && texts(v@) == o,
            Err(e) => r matches Err(x) && x@ == e,
        },
{
    proof {
        use_type_invariant(&snapshot.manifests);
        snapshot.manifests.lemma_dom();
    }
    let mut visiting: Vec<String> = Vec::new();
    let mut output: Vec<String> = Vec::new();
    proof {
        assert(texts(visiting@) =~= Seq::<Seq<char>>::empty());
        assert(texts(output@) =~= Seq::<Seq<char>>::empty());
    }
    let ghost fuel = snapshot.manifests@.dom().len();
    match visit_plugin(snapshot, root, &mut visiting, &mut output, Ghost(fuel)) {
        Ok(()) => Ok(output),
        Err(e) => Err(e),
    }
}

// ---------------------------------------------------------------------------
// Guards

/// The kernel plugin itself cannot be changed through the control protocol.
pub fn ensure_mutable(id: &str) -> (r: Result<(), KernelError>)
    ensures
        failure_of(r) == (if id@ == kernel_id() {
            Some(ErrorView::Protected(id@))
        } else {
            None
        }),
{
    if text_eq(id, KERNEL_PLUGIN_ID) {
        Err(KernelError::Protected(id.to_owned()))
    } else {
        Ok(())
    }
}

/// A settings key: 1 to 128 bytes of UTF-8 with no white space.
pub open spec fn is_config_key(key: Seq<char>) -> bool {
    key.len() > 0 && vstd::utf8::encode_utf8(key).len() <= 128 && !has_white_space(key)
}

/// Checks a settings key.
pub fn validate_config_key(key: &str) -> (r: Result<(), KernelError>)
    ensures
        failure_of(r) == (if is_config_key(key@) {
            None
        } else {
            Some(ErrorView::InvalidData("config key must be 1-128 non-whitespace characters"@))
        }),
{
    if !key.is_empty() && key.as_bytes().len() <= 128 && !contains_white_space(key) {
        Ok(())
    } else {
        Err(KernelError::InvalidData("config key must be 1-128 non-whitespace characters".to_owned()))
    }
}

/// The manifest of an installed plugin.
pub fn require_manifest<'a>(snapshot: &'a RegistrySnapshot, id: &str) -> (r: Result<&'a PluginManifest, KernelError>)
    ensures
        match r {
            Ok(m) => snapshot.manifests@.contains_key(id@) && *m == snapshot.manifests@[id@],
            Err(e) => !snapshot.manifests@.contains_key(id@) && e@ == ErrorView::NotFound(id@),
        },
{
    match snapshot.manifests.get(id) {
        Some(m) => Ok(m),
        None => Err(KernelError::NotFound(id.to_owned())),
    }
}

/// The ids, in order, of the plugins among `ms` that require `id`.
pub open spec fn dependents_among(ms: Seq<PluginManifest>, id: Seq<char>) -> Seq<Seq<char>>
    decreases ms.len(),
{
    if ms.len() == 0 {
        Seq::empty()
    } else {
        let rest = dependents_among(ms.drop_last(), id);
        if texts(ms.last().requires@).contains(id) {
            rest.push(ms.last().id@)
        } else {
            rest
        }
    }
}

/// The installed plugins that require `id`, in id order.
pub fn installed_dependents(snapshot: &RegistrySnapshot, id: &str) -> (r: Vec<String>)
    ensures
        texts(r@) == dependents_among(snapshot.manifests.values(), id@),
{
    let n: usize = snapshot.manifests.len();
    let mut r: Vec<String> = Vec::new();
    let mut i: usize = 0;
    let ghost ms = snapshot.manifests.values();
    proof {
        assert(ms.len() == n);
        assert(ms.take(0) =~= Seq::<PluginManifest>::empty());
    }
    while i < n
        invariant
            ms == snapshot.manifests.values(),
            n == ms.len(),
            i <= n,
            texts(r@) == dependents_among(ms.take(i as int), id@),
        decreases n - i,
    {
        let m = snapshot.manifests.value_at(i);
        let ghost before = texts(r@);
        proof {
            assert(ms.take(i + 1).drop_last() =~= ms.take(i as int));
            assert(ms.take(i + 1).last() == *m);
        }
        if list_has(&m.requires, id) {
            r.push(m.id.clone());
            assert(texts(r@) =~= before.push(m.id@));
        }
        i = i + 1;
    }
    assert(ms.take(n as int) =~= ms);
    r
}

/// Among `ids`, those whose process is running, in order.
pub open spec fn running_among(ids: Seq<Seq<char>>, running: Set<Seq<char>>) -> Seq<Seq<char>> {
    ids.filter(|x: Seq<char>| running.contains(x))
}

pub open spec fn running_error(id: Seq<char>) -> ErrorView {
    ErrorView::Conflict("plugin "@ + id + " is running; stop it before uninstalling"@)
}

pub open spec fn required_by_error(id: Seq<char>, dependents: Seq<Seq<char>>) -> ErrorView {
    ErrorView::Dependency("plugin "@ + id + " is required by: "@ + joined(dependents, ", "@))
}

pub open spec fn running_dependents_error(id: Seq<char>, dependents: Seq<Seq<char>>) -> ErrorView {
    ErrorView::Dependency("plugin "@ + id + " has running dependents: "@ + joined(dependents, ", "@))
}

/// Decides whether an installed plugin may be removed: it must be
/// installed, not running once ended processes are collected, and required
/// by no installed plugin.
pub fn check_uninstall(processes: &mut ProcessManager, snapshot: &RegistrySnapshot, id: &str) -> (r: Result<(), KernelError>)
    ensures
        !snapshot.manifests@.contains_key(id@) ==> (r matches Err(e) && e@ == ErrorView::NotFound(id@)
            && final(processes).same_table(*old(processes))),
        snapshot.manifests@.contains_key(id@) ==> match r {
            Ok(()) => final(processes).refreshed_from(*old(processes))
                && !final(processes).running_ids().contains(id@)
                && dependents_among(snapshot.manifests.values(), id@).len() == 0,
            Err(e) => (e is Io && final(processes).same_table(*old(processes)))
                || (final(processes).refreshed_from(*old(processes)) && (
                if final(processes).running_ids().contains(id@) {
                    e@ == running_error(id@)
                } else {
                    dependents_among(snapshot.manifests.values(), id@).len() > 0
                        && e@ == required_by_error(id@, dependents_among(snapshot.manifests.values(), id@))
                })),
        },
{
    if let Err(e) = require_manifest(snapshot, id) {
        return Err(e);
    }
    if let Err(e) = processes.refresh() {
        return Err(e);
    }
    if processes.is_running(id) {
        let mut m = "plugin ".to_owned();
        m.append(id);
        m.append(" is running; stop it before uninstalling");
        return Err(KernelError::Conflict(m));
    }
    let dependents = installed_dependents(snapshot, id);
    if dependents.len() > 0 {
        let mut m = "plugin ".to_owned();
        m.append(id);
        m.append(" is required by: ");
        m.append(join_texts(&dependents, ", ").as_str());
        return Err(KernelError::Dependency(m));
    }
    Ok(())
}

/// Decides whether a plugin's process may be stopped: the plugin must be
/// installed and no plugin that requires it may be running once ended
/// processes are collected.
pub fn check_stop(processes: &mut ProcessManager, snapshot: &RegistrySnapshot, id: &str) -> (r: Result<(), KernelError>)
    ensures
        !snapshot.manifests@.contains_key(id@) ==> (r matches Err(e) && e@ == ErrorView::NotFound(id@)
            && final(processes).same_table(*old(processes))),
        snapshot.manifests@.contains_key(id@) ==> ({
            let running = running_among(dependents_among(snapshot.manifests.values(), id@), final(processes).running_ids());
            match r {
                Ok(()) => final(processes).refreshed_from(*old(processes)) && running.len() == 0,
                Err(e) => (e is Io && final(processes).same_table(*old(processes)))
                    || (final(processes).refreshed_from(*old(processes)) && running.len() > 0
                        && e@ == running_dependents_error(id@, running)),
            }
        }),
{
    if let Err(e) = require_manifest(snapshot, id) {
        return Err(e);
    }
    if let Err(e) = processes.refresh() {
        return Err(e);
    }
    let dependents = installed_dependents(snapshot, id);
    let ghost all = texts(dependents@);
    let ghost pred = |x: Seq<char>| processes.running_ids().contains(x);
    let mut running: Vec<String> = Vec::new();
    let n: usize = dependents.len();
    let mut i: usize = 0;
    proof {
        assert(all.take(0) =~= Seq::<Seq<char>>::empty());
        reveal(Seq::filter);
        assert(all.take(0).filter(pred) =~= Seq::<Seq<char>>::empty());
    }
    while i < n
        invariant
            all == texts(dependents@),
            n == all.len(),
            i <= n,
            pred == (|x: Seq<char>| processes.running_ids().contains(x)),
            texts(running@) == all.take(i as int).filter(pred),
        decreases n - i,
    {
        let ghost before = texts(running@);
        proof {
            reveal(Seq::filter);
            assert(all.take(i + 1).drop_last() =~= all.take(i as int));
            assert(all.take(i + 1).last() == all[i as int]);
        }
        if processes.is_running(dependents[i].as_str()) {
            running.push(dependents[i].clone());
            assert(texts(running@) =~= before.push(all[i as int]));
        }
        i = i + 1;
    }
    proof {
        assert(all.take(n as int) =~= all);
    }
    if running.len() > 0 {
        let mut m = "plugin ".to_owned();
        m.append(id);
        m.append(" has running dependents: ");
        m.append(join_texts(&running, ", ").as_str());
        return Err(KernelError::Dependency(m));
    }
    Ok(())
}

/// The plugins to start, in order, for a start of `id`: its start order
/// without the kernel, which is always running.
pub open spec fn start_sequence(g: Map<Seq<char>, PluginManifest>, id: Seq<char>) -> Result<Seq<Seq<char>>, ErrorView> {
    match start_order(g, id) {
        Ok(o) => Ok(o.filter(|x: Seq<char>| x != kernel_id())),
        Err(e) => Err(e),
    }
}

/// Orders the plugins that a start of `id` launches.
pub fn plugins_to_start(snapshot: &RegistrySnapshot, id: &str) -> (r: Result<Vec<String>, KernelError>)
    ensures
        match start_sequence(snapshot.manifests@, id@) {
            Ok(o) => r matches Ok(v) && texts(v@) == o,
            Err(e) => r matches Err(x) && x@ == e,
        },
{
    let order = match dependency_order(snapshot, id) {
        Ok(o) => o,
        Err(e) => return Err(e),
    };
    let ghost all = texts(order@);
    let ghost pred = |x: Seq<char>| x != kernel_id();
    let mut out: Vec<String> = Vec::new();
    let n: usize = order.len();
    let mut i: usize = 0;
    proof {
        reveal(Seq::filter);
        assert(all.take(0).filter(pred) =~= Seq::<Seq<char>>::empty());
        assert(texts(out@) =~= Seq::<Seq<char>>::empty());
    }
    while i < n
        invariant
            all == texts(order@),
            n == all.len(),
            i <= n,
            pred == (|x: Seq<char>| x != kernel_id()),
            texts(out@) == all.take(i as int).filter(pred),
        decreases n - i,
    {
        let ghost before = texts(out@);
        proof {
            reveal(Seq::filter);
            assert(all.take(i + 1).drop_last() =~= all.take(i as int));
            assert(all.take(i + 1).last() == all[i as int]);
        }
        if !text_eq(order[i].as_str(), KERNEL_PLUGIN_ID) {
            out.push(order[i].clone());
            assert(texts(out@) =~= before.push(all[i as int]));
        }
        i = i + 1;
    }
    proof {
        assert(all.take(n as int) =~= all);
    }
    Ok(out)
}

// ---------------------------------------------------------------------------
// What clients see

/// The state reported for a plugin.
pub open spec fn plugin_state_of(kind: PluginKind, running: bool, exited: bool) -> PluginState {
    match kind {
        PluginKind::Builtin => PluginState::Builtin,
        PluginKind::Process => if running {
            PluginState::Running
        } else if exited {
            PluginState::Exited
        } else {
            PluginState::Installed
        },
    }
}

/// `v` is what the kernel reports about the plugin of manifest `m`, with
/// settings `s`.
pub open spec fn is_view_of(
    v: &PluginView,
    layout: &Layout,
    m: &PluginManifest,
    state: &KernelState,
    processes: &ProcessManager,
    s: &PluginSettings,
) -> bool {
    &&& v.id@ == m.id@
    &&& v.name@ == m.name@
    &&& v.version.major == m.version.major && v.version.minor == m.version.minor
    &&& v.version.patch == m.version.patch && v.version.pre@ == m.version.pre@
    &&& v.version.build@ == m.version.build@
    &&& v.kind == m.kind
    &&& v.state == plugin_state_of(m.kind, processes.running_ids().contains(m.id@), processes.exits().contains_key(m.id@))
    &&& v.autostart == state.autostart@.contains(m.id@)
    &&& v.path@ == path_join(layout@.root, m.id@)
    &&& v.last_exit == (if processes.exits().contains_key(m.id@) {
        Some(processes.exits()[m.id@])
    } else {
        None
    })
    &&& v.settings == s.settings
}

fn copy_version(v: &PluginVersion) -> (r: PluginVersion)
    ensures
        r.major == v.major && r.minor == v.minor && r.patch == v.patch && r.pre@ == v.pre@
            && r.build@ == v.build@,
{
    PluginVersion {
        major: v.major,
        minor: v.minor,
        patch: v.patch,
        pre: v.pre.clone(),
        build: v.build.clone(),
    }
}

/// The report on one plugin, given its settings as read from its settings
/// file: the read's error, the settings' validation error, or the view.
pub open spec fn viewed(
    r: Result<PluginView, KernelError>,
    layout: &Layout,
    manifest: &PluginManifest,
    state: &KernelState,
    processes: &ProcessManager,
    settings: Result<PluginSettings, KernelError>,
) -> bool {
    match settings {
        Err(e) => r matches Err(x) && x@ == e@,
        Ok(s) => match s.failure() {
            Some(f) => r matches Err(x) && x@ == f,
            None => r matches Ok(v) && is_view_of(&v, layout, manifest, state, processes, &s),
        },
    }
}

/// Reports on one plugin, given its settings as read from its settings
/// file; settings that fail validation fail the report.
pub fn plugin_view(
    layout: &Layout,
    manifest: &PluginManifest,
    state: &KernelState,
    processes: &ProcessManager,
    settings: Result<PluginSettings, KernelError>,
) -> (r: Result<PluginView, KernelError>)
    ensures
        viewed(r, layout, manifest, state, processes, settings),
{
    let settings = match settings {
        Ok(s) => s,
        Err(e) => return Err(e),
    };
    if let Err(e) = settings.validate() {
        return Err(e);
    }
    let last_exit = processes.last_exit(manifest.id.as_str());
    let plugin_state = match manifest.kind {
        PluginKind::Builtin => PluginState::Builtin,
        PluginKind::Process => if processes.is_running(manifest.id.as_str()) {
            PluginState::Running
        } else if last_exit.is_some() {
            PluginState::Exited
        } else {
            PluginState::Installed
        },
    };
    Ok(
        PluginView {
            id: manifest.id.clone(),
            name: manifest.name.clone(),
            version: copy_version(&manifest.version),
            kind: manifest.kind,
            state: plugin_state,
            autostart: state.autostart.contains(manifest.id.as_str()),
            path: layout.plugin_dir(manifest.id.as_str()),
            last_exit,
            settings: settings.settings,
        },
    )
}

/// The first settings that fail, in plugin order, reported.
pub open spec fn settings_failure(settings: Seq<Result<PluginSettings, KernelError>>) -> Option<ErrorView>
    decreases settings.len(),
{
    if settings.len() == 0 {
        None
    } else {
        match settings[0] {
            Err(e) => Some(e@),
            Ok(s) => if s.failure() is Some {
                s.failure()
            } else {
                settings_failure(settings.drop_first())
            },
        }
    }
}

/// The report on every installed plugin, given each plugin's settings as
/// read in id order: the first failure among the settings, or a view of
/// each plugin in id order with the directories that could not be loaded.
pub open spec fn listed(
    r: Result<Inventory, KernelError>,
    layout: &Layout,
    snapshot: RegistrySnapshot,
    state: &KernelState,
    processes: &ProcessManager,
    settings: Seq<Result<PluginSettings, KernelError>>,
) -> bool {
    match settings_failure(settings) {
        Some(f) => r matches Err(x) && x@ == f,
        None => r matches Ok(inv) && inv.plugins@.len() == settings.len()
            && inv.invalid_directories@ == snapshot.invalid_directories@
            && forall|i: int|
                0 <= i < settings.len() ==> is_view_of(
                    &#[trigger] inv.plugins@[i],
                    layout,
                    &snapshot.manifests.values()[i],
                    state,
                    processes,
                    &settings[i]->Ok_0,
                ),
    }
}

/// Reports on every installed plugin, in id order, given each plugin's
/// settings as read in that order, together with the directories that
/// could not be loaded.
pub fn inventory(
    layout: &Layout,
    snapshot: RegistrySnapshot,
    state: &KernelState,
    processes: &ProcessManager,
    settings: Vec<Result<PluginSettings, KernelError>>,
) -> (r: Result<Inventory, KernelError>)
    requires
        settings@.len() == snapshot.manifests.values().len(),
    ensures
        listed(r, layout, snapshot, state, processes, settings@),
{
    let ghost all = settings@;
    let ghost ms = snapshot.manifests.values();
    let n: usize = snapshot.manifests.len();
    let mut plugins: Vec<PluginView> = Vec::new();
    let mut rest = settings;
    let mut i: usize = 0;
    assert(all.skip(0) =~= all);
    #[verifier::loop_isolation(false)]
    while i < n
        invariant
            ms == snapshot.manifests.values(),
            n == ms.len(),
            n == all.len(),
            i <= n,
            rest@ == all.skip(i as int),
            plugins@.len() == i,
            settings_failure(all) == settings_failure(all.skip(i as int)),
            forall|j: int| 0 <= j < i ==> all[j] is Ok && (#[trigger] all[j])->Ok_0.failure() is None,
            forall|j: int|
                0 <= j < i ==> is_view_of(&#[trigger] plugins@[j], layout, &ms[j], state, processes, &all[j]->Ok_0),
        decreases n - i,
    {
        let s = rest.remove(0);
        proof {
            assert(s == all[i as int]);
            assert(rest@ =~= all.skip(i + 1));
            assert(all.skip(i as int).drop_first() =~= all.skip(i + 1));
            assert(all.skip(i as int)[0] == s);
        }
        let ghost sg = s;
        proof {
            assert(settings_failure(all.skip(i as int)) == match sg {
                Err(e) => Some(e@),
                Ok(x) => if x.failure() is Some {
                    x.failure()
                } else {
                    settings_failure(all.skip(i + 1))
                },
            });
        }
        let view = match plugin_view(layout, snapshot.manifests.value_at(i), state, processes, s) {
            Ok(v) => v,
            Err(e) => {
                assert(settings_failure(all) == Some(e@));
                return Err(e);
            },
        };
        plugins.push(view);
        i = i + 1;
    }
    proof {
        assert(all.skip(n as int) =~= Seq::<Result<PluginSettings, KernelError>>::empty());
    }
    let RegistrySnapshot { manifests: _, invalid_directories } = snapshot;
    Ok(Inventory { plugins, invalid_directories })
}

/// Law: the report on a plugin whose settings were read and are valid
/// gives the plugin's kind, name and id, and its state: the kernel is built
/// in; a process plugin is running while its process is in the running
/// table, whether or not an earlier exit is on record, exited when it is
/// not running and an exit is on record, and installed otherwise. Autostart,
/// path, last exit and settings are reported as recorded. Settings that
/// cannot be read, or that are invalid, fail the report with their error.
pub proof fn lemma_view_reports_state(
    r: Result<PluginView, KernelError>,
    layout: &Layout,
    m: &PluginManifest,
    state: &KernelState,
    processes: &ProcessManager,
    settings: Result<PluginSettings, KernelError>,
)
    requires
        viewed(r, layout, m, state, processes, settings),
    ensures
        settings matches Err(e) ==> (r matches Err(x) && x@ == e@),
        settings is Ok && settings->Ok_0.schema_version != 1 ==> r is Err,
        settings is Ok && settings->Ok_0.schema_version == 1 ==> (r matches Ok(v) && {
            let running = processes.running_ids().contains(m.id@);
            let exited = processes.exits().contains_key(m.id@);
            &&& v.id@ == m.id@
            &&& v.name@ == m.name@
            &&& v.kind == m.kind
            &&& (m.kind == PluginKind::Builtin ==> v.state == PluginState::Builtin)
            &&& (m.kind == PluginKind::Process && running ==> v.state == PluginState::Running)
            &&& (m.kind == PluginKind::Process && !running && exited ==> v.state == PluginState::Exited)
            &&& (m.kind == PluginKind::Process && !running && !exited ==> v.state == PluginState::Installed)
            &&& v.autostart == state.autostart@.contains(m.id@)
            &&& v.path@ == path_join(layout@.root, m.id@)
            &&& (exited ==> v.last_exit == Some(processes.exits()[m.id@]))
            &&& (!exited ==> v.last_exit is None)
            &&& v.settings@ == settings->Ok_0.settings@
        }),
{
}

/// Settings that read and are valid, one by one, are what make the whole
/// list of settings free of failure.
proof fn lemma_settings_failure_elementwise(settings: Seq<Result<PluginSettings, KernelError>>)
    ensures
        settings_failure(settings) is None <==> forall|i: int|
            0 <= i < settings.len() ==> (#[trigger] settings[i] matches Ok(s) && s.schema_version == 1),
    decreases settings.len(),
{
    if settings.len() > 0 {
        let rest = settings.drop_first();
        lemma_settings_failure_elementwise(rest);
        if settings_failure(settings) is None {
            assert forall|i: int| 0 <= i < settings.len() implies (#[trigger] settings[i] matches Ok(s)
                && s.schema_version == 1) by {
                if i > 0 {
                    assert(settings[i] == rest[i - 1]);
                }
            }
        }
        if forall|i: int| 0 <= i < settings.len() ==> (#[trigger] settings[i] matches Ok(s) && s.schema_version == 1) {
            assert(settings[0] matches Ok(s) && s.schema_version == 1);
            assert forall|i: int| 0 <= i < rest.len() implies (#[trigger] rest[i] matches Ok(s) && s.schema_version
                == 1) by {
                assert(rest[i] == settings[i + 1]);
            }
        }
    }
}

/// Law: the list of plugins succeeds exactly when every plugin's settings
/// were read and are valid; it then reports every installed plugin once, in
/// id order, each as its own report says, together with every directory
/// that the scan could not load, as the scan reported it.
pub proof fn lemma_inventory_lists_everything(
    r: Result<Inventory, KernelError>,
    layout: &Layout,
    snapshot: RegistrySnapshot,
    state: &KernelState,
    processes: &ProcessManager,
    settings: Seq<Result<PluginSettings, KernelError>>,
)
    requires
        listed(r, layout, snapshot, state, processes, settings),
        settings.len() == snapshot.manifests.values().len(),
    ensures
        (r is Ok) <==> forall|i: int|
            0 <= i < settings.len() ==> (#[trigger] settings[i] matches Ok(s) && s.schema_version == 1),
        r matches Ok(inv) ==> {
            &&& inv.invalid_directories@ == snapshot.invalid_directories@
            &&& inv.plugins@.len() == snapshot.manifests.values().len()
            &&& forall|i: int|
                0 <= i < inv.plugins@.len() ==> viewed(
                    Ok(#[trigger] inv.plugins@[i]),
                    layout,
                    &snapshot.manifests.values()[i],
                    state,
                    processes,
                    settings[i],
                )
        },
{
    lemma_settings_failure_elementwise(settings);
    if r is Ok {
        let inv = r->Ok_0;
        assert forall|i: int| 0 <= i < inv.plugins@.len() implies viewed(
            Ok(#[trigger] inv.plugins@[i]),
            layout,
            &snapshot.manifests.values()[i],
            state,
            processes,
            settings[i],
        ) by {
            assert(settings[i] matches Ok(s) && s.schema_version == 1);
        }
    }
}

// ---------------------------------------------------------------------------
// Lifecycle state

/// Turns autostart of a plugin on or off.
pub fn set_autostart(state: &mut KernelState, id: String, enabled: bool)
    ensures
        final(state).schema_version == old(state).schema_version,
        final(state).autostart@ == (if enabled {
            old(state).autostart@.insert(id@)
        } else {
            old(state).autostart@.remove(id@)
        }),
{
    if enabled {
        state.autostart.insert(id);
    } else {
        state.autostart.remove(id.as_str());
    }
}

} // verus!
