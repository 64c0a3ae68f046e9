use vstd::prelude::*;

verus! {

use crate::coordinator::Coordinator;
use crate::coordinator::no_dup;

/// Stable module identifier; the key of the registry and of the coordinator.
pub type Id = u32;

/// The kind of a typed edge from one module to another.  `Module` edges emit
/// an import statement, `Export` edges a re-export statement; `Style` and
/// `Script` edges are accepted by the data model but emit nothing.
#[derive(Debug, Clone, Copy, PartialEq, Eq, Structural)]
pub enum Reference {
    Style,
    Module,
    Script,
    Export,
}

/// Terminal answer of a load request.
#[derive(Debug, Clone, Copy, PartialEq, Eq, Structural)]
pub enum ModuleStatus {
    /// The load ran to completion during this request.
    Loaded,
    /// The module had already been loaded before this request.
    Exists,
    /// The load failed.
    Error,
}

/// Runtime state of one module.  `NotLoaded` is initial; a load moves it to
/// `LoadingDependencies`, then to `Injected` once its composed content has
/// been handed out for materialization and injection, and finally to `Loaded`
/// or `Failed` when the completion signal arrives.
#[derive(Debug, Clone, Copy, PartialEq, Eq, Structural)]
pub enum LoadState {
    NotLoaded,
    LoadingDependencies,
    Injected,
    Loaded,
    Failed,
}

pub open spec fn terminal(s: LoadState) -> bool {
    s is Loaded || s is Failed
}

/// A declared module: immutable identifier, label, static content and
/// reference list, plus the mutable runtime fields `resolved_url` (set when
/// the composed content is materialized) and `state`.
pub struct Module {
    pub id: Id,
    pub ident: String,
    pub content: String,
    pub references: Vec<(Reference, Option<String>, Id)>,
    pub resolved_url: Option<String>,
    pub state: LoadState,
}

/// A reference kind whose target is itself loaded as a dependency.
pub open spec fn loadable(k: Reference) -> bool {
    k is Module || k is Script || k is Export
}

/// Every `Export` reference carries a symbol to re-export.
pub open spec fn export_refs_named(refs: Seq<(Reference, Option<String>, Id)>) -> bool {
    forall|j: int| 0 <= j < refs.len() && #[trigger] refs[j].0 is Export ==> refs[j].1 is Some
}

pub open spec fn unique_ids(ms: Seq<Module>) -> bool {
    forall|i: int, j: int| 0 <= i < j < ms.len() ==> ms[i].id != ms[j].id
}

/// Some registered module carries `id`.
pub open spec fn has_module(ms: Seq<Module>, id: Id) -> bool {
    exists|i: int| 0 <= i < ms.len() && ms[i].id == id
}

/// The registered module carrying `id` (unique when `unique_ids` holds).
pub open spec fn module_at(ms: Seq<Module>, id: Id) -> Module {
    ms[choose|i: int| 0 <= i < ms.len() && ms[i].id == id]
}

/// The declarations of two registry snapshots agree: same modules in the same
/// order, each with the same identifier, label, static content and references
/// (only the runtime fields `resolved_url` and `state` may differ).
pub open spec fn same_decls(a: Seq<Module>, b: Seq<Module>) -> bool {
    &&& a.len() == b.len()
    &&& forall|i: int|
        0 <= i < a.len() ==> (#[trigger] b[i]).id == a[i].id && b[i].ident == a[i].ident
            && b[i].content == a[i].content && b[i].references == a[i].references
}

/// Between two registry snapshots, only module `id`'s runtime fields changed.
pub open spec fn others_unchanged(a: Seq<Module>, b: Seq<Module>, id: Id) -> bool {
    same_decls(a, b) && forall|i: int| 0 <= i < a.len() && a[i].id != id ==> #[trigger] b[i] == a[i]
}

/// Every loadable reference whose target is registered has reached a terminal
/// state (loaded or failed).
pub open spec fn deps_settled(
    ms: Seq<Module>,
    refs: Seq<(Reference, Option<String>, Id)>,
) -> bool {
    forall|j: int|
        0 <= j < refs.len() && loadable((#[trigger] refs[j]).0) && has_module(ms, refs[j].2)
            ==> terminal(module_at(ms, refs[j].2).state)
}

/// In a registry with unique identifiers, `module_at` of the identifier at
/// index `i` is exactly the module at index `i`.
pub proof fn lemma_module_at_index(ms: Seq<Module>, i: int)
    requires
        unique_ids(ms),
        0 <= i < ms.len(),
    ensures
        has_module(ms, ms[i].id),
        module_at(ms, ms[i].id) == ms[i],
{
    assert(has_module(ms, ms[i].id));
    let k = choose|k: int| 0 <= k < ms.len() && ms[k].id == ms[i].id;
    if k < i {
        assert(ms[k].id != ms[i].id);
    } else if i < k {
        assert(ms[i].id != ms[k].id);
    }
}

/// Replacing the module at index `i` by one with the same identifier keeps
/// identifiers unique and leaves every other identifier's lookup unchanged.
pub proof fn lemma_module_at_update(ms: Seq<Module>, i: int, m: Module)
    requires
        unique_ids(ms),
        0 <= i < ms.len(),
        m.id == ms[i].id,
    ensures
        unique_ids(ms.update(i, m)),
        has_module(ms.update(i, m), m.id),
        module_at(ms.update(i, m), m.id) == m,
        forall|x: Id| x != m.id ==> (has_module(ms.update(i, m), x) <==> has_module(ms, x)),
        forall|x: Id|
            x != m.id && has_module(ms, x) ==> module_at(ms.update(i, m), x) == module_at(ms, x),
{
    let b = ms.update(i, m);
    assert(forall|j: int| 0 <= j < ms.len() ==> (#[trigger] b[j]).id == ms[j].id);
    lemma_module_at_index(b, i);
    assert forall|x: Id| x != m.id implies (has_module(b, x) <==> has_module(ms, x)) by {
        if has_module(b, x) {
            let k = choose|k: int| 0 <= k < b.len() && b[k].id == x;
            assert(ms[k].id == x);
        }
        if has_module(ms, x) {
            let k = choose|k: int| 0 <= k < ms.len() && ms[k].id == x;
            assert(b[k].id == x);
        }
    }
    assert forall|x: Id| x != m.id && has_module(ms, x) implies module_at(b, x) == module_at(
        ms,
        x,
    ) by {
        let k = choose|k: int| 0 <= k < ms.len() && ms[k].id == x;
        lemma_module_at_index(ms, k);
        assert(b[k].id == x);
        lemma_module_at_index(b, k);
        assert(k != i);
        assert(b[k] == ms[k]);
    }
}

impl Module {
    pub fn new(id: Id, ident: String, content: String, references: Vec<(Reference, Option<String>, Id)>) -> (m: Module)
        ensures
            m.id == id,
            m.ident == ident,
            m.content == content,
            m.references == references,
            m.resolved_url is None,
            m.state is NotLoaded,
    {
        Module { id, ident, content, references, resolved_url: None, state: LoadState::NotLoaded }
    }

    /// The URL the module's composed content was materialized at, if any.
    pub fn url(&self) -> (r: Option<String>)
        ensures
            r == self.resolved_url,
    {
        match &self.resolved_url {
            Some(u) => Some(u.clone()),
            None => None,
        }
    }

    pub fn is_loaded(&self) -> (r: bool)
        ensures
            r == (self.state is Loaded),
    {
        match self.state {
            LoadState::Loaded => true,
            _ => false,
        }
    }
}

/// The loader: an immutable registry of modules (their declarations never
/// change after construction; only `resolved_url` and `state` do) and the
/// single-flight coordinator.
pub struct Context {
    pub modules: Vec<Module>,
    pub coordinator: Coordinator,
}

impl Context {
    /// Well-formedness: identifiers are unique, export references are named,
    /// the in-flight set is duplicate-free and holds exactly the identifiers
    /// of registered modules that are `LoadingDependencies` or `Injected`,
    /// and `resolved_url` tracks the lifecycle — absent until an attempt's
    /// content is handed out, and always present on a `Loaded` module.
    pub open spec fn wf(&self) -> bool {
        &&& unique_ids(self.modules@)
        &&& no_dup(self.coordinator.inflight@)
        &&& forall|i: int|
            0 <= i < self.modules@.len() && (#[trigger] self.modules@[i]).state is Loaded
                ==> self.modules@[i].resolved_url is Some
        &&& forall|i: int|
            0 <= i < self.modules@.len() && ((#[trigger] self.modules@[i]).state is NotLoaded
                || self.modules@[i].state is LoadingDependencies)
                ==> self.modules@[i].resolved_url is None
        &&& forall|i: int|
            0 <= i < self.modules@.len() && (self.modules@[i].state is LoadingDependencies
                || self.modules@[i].state is Injected)
                ==> #[trigger] self.coordinator.inflight@.contains(self.modules@[i].id)
        &&& forall|k: int|
            0 <= k < self.coordinator.inflight@.len() ==> has_module(
                self.modules@,
                #[trigger] self.coordinator.inflight@[k],
            ) && (module_at(self.modules@, self.coordinator.inflight@[k]).state
                is LoadingDependencies || module_at(
                self.modules@,
                self.coordinator.inflight@[k],
            ).state is Injected)
        &&& forall|i: int|
            0 <= i < self.modules@.len() ==> export_refs_named(
                #[trigger] self.modules@[i].references@,
            )
    }

    /// Build a context over a freshly declared registry.
    pub fn new(modules: Vec<Module>) -> (ctx: Context)
        requires
            unique_ids(modules@),
            forall|i: int| 0 <= i < modules@.len() ==> (#[trigger] modules@[i].state) is NotLoaded,
            forall|i: int|
                0 <= i < modules@.len() ==> (#[trigger] modules@[i].resolved_url) is None,
            forall|i: int|
                0 <= i < modules@.len() ==> export_refs_named(#[trigger] modules@[i].references@),
        ensures
            ctx.modules == modules,
            ctx.coordinator.inflight@ == Seq::<Id>::empty(),
            ctx.wf(),
    {
        Context { modules, coordinator: Coordinator::new() }
    }

    /// Index of the module carrying `id`, if registered.
    pub fn index_of(&self, id: Id) -> (r: Option<usize>)
        requires
            unique_ids(self.modules@),
        ensures
            match r {
                Some(i) => i < self.modules@.len() && self.modules@[i as int].id == id
                    && has_module(self.modules@, id) && module_at(self.modules@, id)
                    == self.modules@[i as int],
                None => !has_module(self.modules@, id),
            },
    {
        let mut i: usize = 0;
        while i < self.modules.len()
            invariant
                unique_ids(self.modules@),
                i <= self.modules@.len(),
                forall|j: int| 0 <= j < i ==> self.modules@[j].id != id,
            decreases self.modules@.len() - i,
        {
            if self.modules[i].id == id {
                proof {
                    assert(has_module(self.modules@, id));
                    let k = choose|k: int| 0 <= k < self.modules@.len() && self.modules@[k].id
                        == id;
                    if k < i {
                        assert(self.modules@[k].id != self.modules@[i as int].id);
                    } else if i < k {
                        assert(self.modules@[i as int].id != self.modules@[k].id);
                    }
                    assert(k == i);
                }
                return Some(i);
            }
            i += 1;
        }
        None
    }

    /// Registry read: the module registered under `id`, total.
    pub fn get(&self, id: Id) -> (r: Option<&Module>)
        requires
            unique_ids(self.modules@),
        ensures
            match r {
                Some(m) => has_module(self.modules@, id) && *m == module_at(self.modules@, id),
                None => !has_module(self.modules@, id),
            },
    {
        match self.index_of(id) {
            Some(i) => Some(&self.modules[i]),
            None => None,
        }
    }
}

} // verus!
