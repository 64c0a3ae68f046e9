use vstd::prelude::*;

verus! {

use crate::compose::compose_spec;
use crate::error::Error;
use crate::loader::{
    deps_settled, has_module, loadable, module_at, others_unchanged, same_decls, terminal,
    unique_ids, Context, Id, LoadState, Module, ModuleStatus,
};

/// Answer to a load request for an identifier: the authoritative short-circuit
/// for already-loaded modules, then the single-flight decision.
#[derive(Debug, Clone, Copy, PartialEq, Eq, Structural)]
pub enum LoadStart {
    /// The identifier is not registered.
    NotFound,
    /// The module is already loaded; nothing runs again.
    Exists,
    /// This caller is the first for the identifier and must drive the load.
    New,
    /// A load for the identifier is already in flight; only await its outcome.
    Pending,
}

/// The externally delivered completion signal of an injection.
#[derive(Debug, Clone, Copy, PartialEq, Eq, Structural)]
pub enum InjectSignal {
    /// The injected content finished activating.
    Completed,
    /// The materialize/inject collaborator reported a failure.
    Failure,
    /// The completion channel was dropped without delivering an event.
    Closed,
}

/// What the driver of a load must do next.
#[derive(Debug)]
pub enum NextJob {
    /// This module's loadable dependencies have all settled and its content
    /// composed: materialize and inject the text, then report `materialized`
    /// and, on the completion signal, `injection_completed`.
    Inject(Id, String),
    /// This module's content is already out for injection (here or with a
    /// concurrent driver): await its completion signal.
    Wait(Id),
    /// The requested module is already terminal: `Exists` when loaded,
    /// `Error` when failed.
    Settled(ModuleStatus),
    /// This module's composition failed; it is now `Failed` and its flight,
    /// if any, is complete.  If it was a dependency, ask again: the requester
    /// may still compose around it.
    Failed(Id, Error),
    /// A dependency chain longer than the registry: a declared cycle.  No
    /// progress is possible.
    Stalled(Id),
    /// The requested identifier is not registered.
    NotFound(Id),
}

impl Context {
    /// Entry point of a load: an already-loaded module is answered `Exists`
    /// at once, without consulting the coordinator; otherwise the caller
    /// either joins an in-flight load (`Pending`) or becomes the initiator
    /// (`New`) and drives the load with `next_job`.
    pub fn load_module(&mut self, id: Id) -> (r: LoadStart)
        requires
            old(self).wf(),
        ensures
            final(self).wf(),
            same_decls(old(self).modules@, final(self).modules@),
            match r {
                LoadStart::NotFound => !has_module(old(self).modules@, id) && *final(self) == *old(
                    self,
                ),
                LoadStart::Exists => has_module(old(self).modules@, id) && module_at(
                    old(self).modules@,
                    id,
                ).state is Loaded && *final(self) == *old(self),
                LoadStart::Pending => has_module(old(self).modules@, id) && !(module_at(
                    old(self).modules@,
                    id,
                ).state is Loaded) && old(self).coordinator.inflight@.contains(id) && *final(self)
                    == *old(self),
                LoadStart::New => ({
                    &&& has_module(old(self).modules@, id)
                    &&& !(module_at(old(self).modules@, id).state is Loaded)
                    &&& !old(self).coordinator.inflight@.contains(id)
                    &&& final(self).coordinator.inflight@ == old(self).coordinator.inflight@.push(
                        id,
                    )
                    &&& module_at(final(self).modules@, id).state is LoadingDependencies
                    &&& module_at(final(self).modules@, id).resolved_url is None
                    &&& others_unchanged(old(self).modules@, final(self).modules@, id)
                }),
            },
    {
        let ghost ms0 = self.modules@;
        let idx = self.index_of(id);
        match idx {
            None => LoadStart::NotFound,
            Some(i) => {
                proof {
                    crate::loader::lemma_module_at_index(ms0, i as int);
                }
                match self.modules[i].state {
                    LoadState::Loaded => LoadStart::Exists,
                    _ => {
                        if self.coordinator.is_inflight(id) {
                            LoadStart::Pending
                        } else {
                            let _ = self.coordinator.enqueue(id);
                            let m = &mut self.modules[i];
                            m.state = LoadState::LoadingDependencies;
                            // A fresh attempt: the URL of any earlier, failed
                            // attempt is discarded, so each attempt's
                            // materialization writes `resolved_url` once.
                            m.resolved_url = None;
                            proof {
                                crate::loader::lemma_module_at_update(
                                    ms0,
                                    i as int,
                                    self.modules@[i as int],
                                );
                                assert(self.modules@ == ms0.update(
                                    i as int,
                                    self.modules@[i as int],
                                ));
                                let s = old(self).coordinator.inflight@;
                                assert(s.push(id)[s.len() as int] == id);
                                assert forall|x: Id| x != id implies (
                                self.coordinator.inflight@.contains(x)
                                    <==> s.contains(x)) by {
                                    if self.coordinator.inflight@.contains(x) {
                                        let k = choose|k: int|
                                            0 <= k < s.push(id).len() && s.push(id)[k] == x;
                                        assert(s[k] == x);
                                    }
                                    if s.contains(x) {
                                        let k = choose|k: int| 0 <= k < s.len() && s[k] == x;
                                        assert(s.push(id)[k] == x);
                                    }
                                }
                                lemma_wf_after(old(self), self, i as int, id);
                            }
                            LoadStart::New
                        }
                    },
                }
            },
        }
    }

    /// Record that this module's composed content has been materialized at
    /// `url`: the single write of `resolved_url` in this load attempt — the
    /// URL must still be unset, so it is written exactly once between the
    /// hand-out of the content and the completion signal (a fresh attempt
    /// after a failure starts with the URL cleared again).
    pub fn materialized(&mut self, id: Id, url: String)
        requires
            old(self).wf(),
            has_module(old(self).modules@, id),
            module_at(old(self).modules@, id).state is Injected,
            module_at(old(self).modules@, id).resolved_url is None,
        ensures
            final(self).wf(),
            others_unchanged(old(self).modules@, final(self).modules@, id),
            module_at(final(self).modules@, id).state == module_at(old(self).modules@, id).state,
            module_at(final(self).modules@, id).resolved_url == Some(url),
            final(self).coordinator == old(self).coordinator,
    {
        let ghost ms0 = self.modules@;
        let idx = self.index_of(id);
        match idx {
            Some(i) => {
                proof {
                    crate::loader::lemma_module_at_index(ms0, i as int);
                }
                let m = &mut self.modules[i];
                m.resolved_url = Some(url);
                proof {
                    crate::loader::lemma_module_at_update(ms0, i as int, self.modules@[i as int]);
                    assert(self.modules@ == ms0.update(i as int, self.modules@[i as int]));
                    lemma_wf_after(old(self), self, i as int, id);
                }
            },
            None => {
                proof {
                    assert(false);
                }
            },
        }
    }

    /// Deliver the completion signal for an injected module: the module
    /// becomes `Loaded` on completion and `Failed` otherwise, and its flight
    /// completes.  Every waiter then observes this one outcome — the module's
    /// single terminal state and URL — whichever way it asks.  A module only
    /// completes successfully after its content was materialized, so `Loaded`
    /// always carries a resolved URL.
    pub fn injection_completed(&mut self, id: Id, signal: InjectSignal) -> (r: Result<
        ModuleStatus,
        Error,
    >)
        requires
            old(self).wf(),
            has_module(old(self).modules@, id),
            module_at(old(self).modules@, id).state is Injected,
            signal is Completed ==> module_at(old(self).modules@, id).resolved_url is Some,
        ensures
            final(self).wf(),
            others_unchanged(old(self).modules@, final(self).modules@, id),
            module_at(final(self).modules@, id).resolved_url == module_at(
                old(self).modules@,
                id,
            ).resolved_url,
            !final(self).coordinator.inflight@.contains(id),
            forall|x: Id|
                x != id ==> (final(self).coordinator.inflight@.contains(x) <==> old(
                    self,
                ).coordinator.inflight@.contains(x)),
            signal is Completed ==> module_at(final(self).modules@, id).state is Loaded && r
                == Ok::<ModuleStatus, Error>(ModuleStatus::Loaded),
            signal is Failure ==> module_at(final(self).modules@, id).state is Failed && r
                == Err::<ModuleStatus, Error>(Error::InjectionFailure(id)),
            signal is Closed ==> module_at(final(self).modules@, id).state is Failed && r
                == Err::<ModuleStatus, Error>(Error::ChannelClosed(id)),
    {
        let ghost ms0 = self.modules@;
        let idx = self.index_of(id);
        match idx {
            Some(i) => {
                proof {
                    crate::loader::lemma_module_at_index(ms0, i as int);
                    assert(self.coordinator.inflight@.contains(self.modules@[i as int].id));
                }
                self.coordinator.complete(id);
                let m = &mut self.modules[i];
                let result = match signal {
                    InjectSignal::Completed => {
                        m.state = LoadState::Loaded;
                        Ok(ModuleStatus::Loaded)
                    },
                    InjectSignal::Failure => {
                        m.state = LoadState::Failed;
                        Err(Error::InjectionFailure(id))
                    },
                    InjectSignal::Closed => {
                        m.state = LoadState::Failed;
                        Err(Error::ChannelClosed(id))
                    },
                };
                proof {
                    crate::loader::lemma_module_at_update(ms0, i as int, self.modules@[i as int]);
                    assert(self.modules@ == ms0.update(i as int, self.modules@[i as int]));
                    lemma_wf_after(old(self), self, i as int, id);
                }
                result
            },
            None => {
                proof {
                    assert(false);
                }
                Err(Error::ChannelClosed(id))
            },
        }
    }

    /// The decision half of a bulk preload: of the requested identifiers,
    /// the registered ones, in order — each to be loaded best-effort, its
    /// individual failure never surfacing to the bulk caller.  Unregistered
    /// identifiers are skipped.
    pub fn load_ids(&self, list: &Vec<Id>) -> (r: Vec<Id>)
        requires
            unique_ids(self.modules@),
        ensures
            r@ == list@.filter(|x: Id| has_module(self.modules@, x)),
    {
        let mut r: Vec<Id> = Vec::new();
        let mut i: usize = 0;
        proof {
            reveal(Seq::filter);
            assert(r@ =~= list@.take(0).filter(|x: Id| has_module(self.modules@, x)));
        }
        while i < list.len()
            invariant
                unique_ids(self.modules@),
                i <= list@.len(),
                r@ == list@.take(i as int).filter(|x: Id| has_module(self.modules@, x)),
            decreases list@.len() - i,
        {
            let id = list[i];
            match self.index_of(id) {
                Some(_) => {
                    r.push(id);
                },
                None => {},
            }
            proof {
                reveal(Seq::filter);
                assert(list@.take(i + 1).drop_last() =~= list@.take(i as int));
                assert(list@.take(i + 1).last() == list@[i as int]);
                assert(r@ =~= list@.take(i + 1).filter(|x: Id| has_module(self.modules@, x)));
            }
            i += 1;
        }
        proof {
            assert(list@.take(list@.len() as int) =~= list@);
        }
        r
    }
}

/// Module at index `i` holds a loadable reference to the module at index
/// `t`, whose load has not settled.
pub open spec fn pending_edge(ms: Seq<Module>, i: int, t: int) -> bool {
    &&& 0 <= i < ms.len()
    &&& 0 <= t < ms.len()
    &&& !terminal(ms[t].state)
    &&& exists|j: int|
        0 <= j < ms[i].references@.len() && loadable((#[trigger] ms[i].references@[j]).0)
            && ms[i].references@[j].2 == ms[t].id
}

/// A walk along pending loadable references: every step is a `pending_edge`
/// and every visited module's load is unsettled.
pub open spec fn is_pending_chain(ms: Seq<Module>, chain: Seq<int>) -> bool {
    &&& chain.len() > 0
    &&& 0 <= chain[0] < ms.len()
    &&& !terminal(ms[chain[0]].state)
    &&& forall|k: int| 0 <= k < chain.len() - 1 ==> #[trigger] pending_edge(ms, chain[k], chain[k + 1])
}

/// The registry holds a chain of pending loadable dependence longer than the
/// registry itself.  A repeat-free chain cannot exceed the module count, so
/// such a chain revisits a module: a declared dependency cycle among modules
/// whose loads have not settled.
pub open spec fn has_pending_cycle(ms: Seq<Module>) -> bool {
    exists|chain: Seq<int>| #[trigger] is_pending_chain(ms, chain) && chain.len() > ms.len()
}

/// A pending chain longer than the registry indeed revisits some module.
pub proof fn lemma_long_chain_revisits(ms: Seq<Module>, chain: Seq<int>)
    requires
        is_pending_chain(ms, chain),
        chain.len() > ms.len(),
    ensures
        exists|p: int, q: int| 0 <= p < q < chain.len() && chain[p] == chain[q],
{
    assert forall|k: int| 0 <= k < chain.len() implies 0 <= #[trigger] chain[k] < ms.len() by {
        if k > 0 {
            let kk = k - 1;
            assert(pending_edge(ms, chain[kk], chain[kk + 1]));
        }
    }
    lemma_pigeonhole(chain, ms.len() as int);
}

/// A sequence longer than `n` whose values lie in `[0, n)` repeats a value.
proof fn lemma_pigeonhole(chain: Seq<int>, n: int)
    requires
        n >= 0,
        forall|k: int| 0 <= k < chain.len() ==> 0 <= #[trigger] chain[k] < n,
        chain.len() > n,
    ensures
        exists|p: int, q: int| 0 <= p < q < chain.len() && chain[p] == chain[q],
    decreases n,
{
    if n == 0 {
        assert(0 <= chain[0] < n);
        assert(false);
    } else if exists|p: int, q: int| 0 <= p < q < chain.len() && chain[p] == n - 1 && chain[q]
        == n - 1 {
        let (p, q) = choose|p: int, q: int|
            0 <= p < q < chain.len() && chain[p] == n - 1 && chain[q] == n - 1;
        assert(0 <= p < q < chain.len() && chain[p] == chain[q]);
    } else if exists|r: int| 0 <= r < chain.len() && chain[r] == n - 1 {
        let r = choose|r: int| 0 <= r < chain.len() && chain[r] == n - 1;
        let rest = chain.remove(r);
        assert forall|k: int| 0 <= k < rest.len() implies 0 <= #[trigger] rest[k] < n - 1 by {
            if k < r {
                assert(rest[k] == chain[k]);
                assert(!(0 <= k < r && chain[k] == n - 1 && chain[r] == n - 1));
            } else {
                assert(rest[k] == chain[k + 1]);
                assert(!(0 <= r < k + 1 && chain[r] == n - 1 && chain[k + 1] == n - 1));
            }
        }
        lemma_pigeonhole(rest, n - 1);
        let (p, q) = choose|p: int, q: int| 0 <= p < q < rest.len() && rest[p] == rest[q];
        let p2: int = if p < r { p } else { p + 1 };
        let q2: int = if q < r { q } else { q + 1 };
        assert(chain[p2] == rest[p]);
        assert(chain[q2] == rest[q]);
        assert(0 <= p2 < q2 < chain.len() && chain[p2] == chain[q2]);
    } else {
        assert forall|k: int| 0 <= k < chain.len() implies 0 <= #[trigger] chain[k] < n - 1 by {
            assert(!(0 <= k < chain.len() && chain[k] == n - 1));
        }
        lemma_pigeonhole(chain, n - 1);
    }
}

enum WalkResult {
    Ready(usize),
    Busy(usize),
    Stalled(usize),
}

impl Context {
    /// Index of the first loadable reference target of module `i` that is
    /// registered and has not reached a terminal state, if any.
    fn first_pending_dep(&self, i: usize) -> (r: Option<usize>)
        requires
            unique_ids(self.modules@),
            i < self.modules@.len(),
        ensures
            match r {
                Some(t) => t < self.modules@.len() && !terminal(self.modules@[t as int].state)
                    && pending_edge(self.modules@, i as int, t as int),
                None => deps_settled(self.modules@, self.modules@[i as int].references@),
            },
    {
        let ghost ms = self.modules@;
        let m = &self.modules[i];
        let ghost refs = m.references@;
        let mut j: usize = 0;
        while j < m.references.len()
            invariant
                ms == self.modules@,
                unique_ids(ms),
                i < ms.len(),
                *m == ms[i as int],
                refs == ms[i as int].references@,
                j <= refs.len(),
                forall|k: int|
                    0 <= k < j && loadable((#[trigger] refs[k]).0) && has_module(ms, refs[k].2)
                        ==> terminal(module_at(ms, refs[k].2).state),
            decreases refs.len() - j,
        {
            let r = &m.references[j];
            let is_loadable = match r.0 {
                crate::loader::Reference::Style => false,
                _ => true,
            };
            if is_loadable {
                match self.index_of(r.2) {
                    Some(t) => {
                        match self.modules[t].state {
                            LoadState::Loaded => {},
                            LoadState::Failed => {},
                            _ => {
                                proof {
                                    assert(refs[j as int] == *r);
                                    assert(loadable(refs[j as int].0));
                                    assert(ms[t as int].id == r.2);
                                }
                                return Some(t);
                            },
                        }
                    },
                    None => {},
                }
            }
            j += 1;
        }
        None
    }

    /// Descend from `start` along not-yet-settled loadable dependencies to a
    /// module whose own loadable dependencies have all settled (ready to
    /// compose), to one whose content is already out for injection (busy), or
    /// — after more descents than the registry has modules, which only a
    /// declared cycle produces — to no progress at all.
    fn find_ready(&self, start: usize) -> (r: WalkResult)
        requires
            self.wf(),
            start < self.modules@.len(),
            self.modules@[start as int].state is NotLoaded || self.modules@[start as int].state
                is LoadingDependencies,
        ensures
            match r {
                WalkResult::Ready(i) => i < self.modules@.len() && (self.modules@[i as int].state
                    is NotLoaded || self.modules@[i as int].state is LoadingDependencies)
                    && deps_settled(self.modules@, self.modules@[i as int].references@),
                WalkResult::Busy(t) => t < self.modules@.len() && self.modules@[t as int].state
                    is Injected,
                WalkResult::Stalled(c) => c < self.modules@.len() && has_pending_cycle(
                    self.modules@,
                ),
            },
    {
        let mut cur: usize = start;
        let mut fuel: usize = self.modules.len();
        let ghost mut chain: Seq<int> = seq![start as int];
        loop
            invariant
                self.wf(),
                cur < self.modules@.len(),
                self.modules@[cur as int].state is NotLoaded || self.modules@[cur as int].state
                    is LoadingDependencies,
                fuel <= self.modules@.len(),
                is_pending_chain(self.modules@, chain),
                chain.len() == self.modules@.len() - fuel + 1,
                chain.last() == cur as int,
            decreases fuel,
        {
            match self.first_pending_dep(cur) {
                None => {
                    return WalkResult::Ready(cur);
                },
                Some(t) => {
                    match self.modules[t].state {
                        LoadState::Injected => {
                            return WalkResult::Busy(t);
                        },
                        _ => {
                            if fuel == 0 {
                                proof {
                                    assert(chain.len() > self.modules@.len());
                                    assert(has_pending_cycle(self.modules@));
                                }
                                return WalkResult::Stalled(cur);
                            }
                            fuel -= 1;
                            proof {
                                let c2 = chain.push(t as int);
                                assert(pending_edge(self.modules@, cur as int, t as int));
                                assert forall|k: int| 0 <= k < c2.len() - 1 implies #[trigger] pending_edge(
                                    self.modules@,
                                    c2[k],
                                    c2[k + 1],
                                ) by {
                                    if k < chain.len() - 1 {
                                        assert(c2[k] == chain[k]);
                                        assert(c2[k + 1] == chain[k + 1]);
                                    } else {
                                        assert(c2[k] == chain.last());
                                        assert(c2[k + 1] == t as int);
                                    }
                                }
                                chain = c2;
                            }
                            cur = t;
                        },
                    }
                },
            }
        }
    }

    /// One step of driving a load toward `target`: descend to a module all of
    /// whose loadable registered dependencies have settled, compose its
    /// content and hand it out for injection.  The `Injected` state guards the
    /// hand-out, so each module's content goes out at most once per flight,
    /// however many drivers step concurrently.
    pub fn next_job(&mut self, target: Id) -> (r: NextJob)
        requires
            old(self).wf(),
        ensures
            final(self).wf(),
            same_decls(old(self).modules@, final(self).modules@),
            // The answer class is forced by the target's standing:
            !has_module(old(self).modules@, target) ==> r is NotFound,
            has_module(old(self).modules@, target) && terminal(
                module_at(old(self).modules@, target).state,
            ) ==> r is Settled,
            has_module(old(self).modules@, target) && module_at(
                old(self).modules@,
                target,
            ).state is Injected ==> r is Wait,
            match r {
                NextJob::NotFound(x) => x == target && !has_module(old(self).modules@, target)
                    && *final(self) == *old(self),
                NextJob::Settled(st) => has_module(old(self).modules@, target) && terminal(
                    module_at(old(self).modules@, target).state,
                ) && *final(self) == *old(self) && (st is Exists <==> module_at(
                    old(self).modules@,
                    target,
                ).state is Loaded),
                NextJob::Wait(x) => has_module(old(self).modules@, x) && module_at(
                    old(self).modules@,
                    x,
                ).state is Injected && *final(self) == *old(self),
                NextJob::Stalled(x) => has_module(old(self).modules@, x) && has_pending_cycle(
                    old(self).modules@,
                ) && *final(self) == *old(self),
                NextJob::Inject(x, text) => ({
                    &&& has_module(old(self).modules@, x)
                    &&& !terminal(module_at(old(self).modules@, x).state)
                    &&& !(module_at(old(self).modules@, x).state is Injected)
                    &&& deps_settled(old(self).modules@, module_at(old(self).modules@, x).references@)
                    &&& compose_spec(old(self).modules@, module_at(old(self).modules@, x))
                        == Ok::<Seq<char>, Error>(text@)
                    &&& module_at(final(self).modules@, x).state is Injected
                    &&& module_at(final(self).modules@, x).resolved_url is None
                    &&& others_unchanged(old(self).modules@, final(self).modules@, x)
                    &&& final(self).coordinator.inflight@.contains(x)
                    &&& forall|y: Id|
                        y != x ==> (final(self).coordinator.inflight@.contains(y) <==> old(
                            self,
                        ).coordinator.inflight@.contains(y))
                }),
                NextJob::Failed(x, e) => ({
                    &&& has_module(old(self).modules@, x)
                    &&& !terminal(module_at(old(self).modules@, x).state)
                    &&& !(module_at(old(self).modules@, x).state is Injected)
                    &&& deps_settled(old(self).modules@, module_at(old(self).modules@, x).references@)
                    &&& compose_spec(old(self).modules@, module_at(old(self).modules@, x))
                        == Err::<Seq<char>, Error>(e)
                    &&& module_at(final(self).modules@, x).state is Failed
                    &&& module_at(final(self).modules@, x).resolved_url is None
                    &&& others_unchanged(old(self).modules@, final(self).modules@, x)
                    &&& !final(self).coordinator.inflight@.contains(x)
                    &&& forall|y: Id|
                        y != x ==> (final(self).coordinator.inflight@.contains(y) <==> old(
                            self,
                        ).coordinator.inflight@.contains(y))
                }),
            },
    {
        let ghost ms0 = self.modules@;
        let idx = match self.index_of(target) {
            Some(i) => i,
            None => {
                return NextJob::NotFound(target);
            },
        };
        proof {
            crate::loader::lemma_module_at_index(ms0, idx as int);
        }
        match self.modules[idx].state {
            LoadState::Loaded => {
                return NextJob::Settled(ModuleStatus::Exists);
            },
            LoadState::Failed => {
                return NextJob::Settled(ModuleStatus::Error);
            },
            LoadState::Injected => {
                return NextJob::Wait(target);
            },
            _ => {},
        }
        match self.find_ready(idx) {
            WalkResult::Busy(t) => {
                let x = self.modules[t].id;
                proof {
                    crate::loader::lemma_module_at_index(ms0, t as int);
                }
                NextJob::Wait(x)
            },
            WalkResult::Stalled(c) => {
                let x = self.modules[c].id;
                proof {
                    crate::loader::lemma_module_at_index(ms0, c as int);
                }
                NextJob::Stalled(x)
            },
            WalkResult::Ready(i) => {
                let mid = self.modules[i].id;
                proof {
                    crate::loader::lemma_module_at_index(ms0, i as int);
                    assert(crate::loader::export_refs_named(self.modules@[i as int].references@));
                }
                let composed = self.modules[i].content(self);
                match composed {
                    Ok(text) => {
                        let already = self.coordinator.is_inflight(mid);
                        if !already {
                            let _ = self.coordinator.enqueue(mid);
                        }
                        proof {
                            let s = old(self).coordinator.inflight@;
                            if !already {
                                assert(s.push(mid)[s.len() as int] == mid);
                            }
                            assert(self.coordinator.inflight@.contains(mid));
                            assert forall|y: Id| y != mid implies (
                            self.coordinator.inflight@.contains(y) <==> s.contains(y)) by {
                                if !already {
                                    if self.coordinator.inflight@.contains(y) {
                                        let k = choose|k: int|
                                            0 <= k < s.push(mid).len() && s.push(mid)[k] == y;
                                        assert(s[k] == y);
                                    }
                                    if s.contains(y) {
                                        let k = choose|k: int| 0 <= k < s.len() && s[k] == y;
                                        assert(s.push(mid)[k] == y);
                                    }
                                }
                            }
                        }
                        let m = &mut self.modules[i];
                        m.state = LoadState::Injected;
                        proof {
                            crate::loader::lemma_module_at_update(
                                ms0,
                                i as int,
                                self.modules@[i as int],
                            );
                            assert(self.modules@ == ms0.update(i as int, self.modules@[i as int]));
                            lemma_wf_after(old(self), self, i as int, mid);
                        }
                        NextJob::Inject(mid, text)
                    },
                    Err(e) => {
                        let already = self.coordinator.is_inflight(mid);
                        if already {
                            self.coordinator.complete(mid);
                        }
                        proof {
                            assert(!self.coordinator.inflight@.contains(mid));
                        }
                        let m = &mut self.modules[i];
                        m.state = LoadState::Failed;
                        proof {
                            crate::loader::lemma_module_at_update(
                                ms0,
                                i as int,
                                self.modules@[i as int],
                            );
                            assert(self.modules@ == ms0.update(i as int, self.modules@[i as int]));
                            lemma_wf_after(old(self), self, i as int, mid);
                        }
                        NextJob::Failed(mid, e)
                    },
                }
            },
        }
    }
}

impl Module {
    /// Ask `ctx` to load the module registered under `id`; delegates to the
    /// context's `load_module`, which performs the single-flight check.
    pub fn load(ctx: &mut Context, id: Id) -> (r: LoadStart)
        requires
            old(ctx).wf(),
        ensures
            final(ctx).wf(),
            same_decls(old(ctx).modules@, final(ctx).modules@),
            match r {
                LoadStart::NotFound => !has_module(old(ctx).modules@, id) && *final(ctx) == *old(
                    ctx,
                ),
                LoadStart::Exists => has_module(old(ctx).modules@, id) && module_at(
                    old(ctx).modules@,
                    id,
                ).state is Loaded && *final(ctx) == *old(ctx),
                LoadStart::Pending => has_module(old(ctx).modules@, id) && !(module_at(
                    old(ctx).modules@,
                    id,
                ).state is Loaded) && old(ctx).coordinator.inflight@.contains(id) && *final(ctx)
                    == *old(ctx),
                LoadStart::New => ({
                    &&& has_module(old(ctx).modules@, id)
                    &&& !(module_at(old(ctx).modules@, id).state is Loaded)
                    &&& !old(ctx).coordinator.inflight@.contains(id)
                    &&& final(ctx).coordinator.inflight@ == old(ctx).coordinator.inflight@.push(id)
                    &&& module_at(final(ctx).modules@, id).state is LoadingDependencies
                    &&& module_at(final(ctx).modules@, id).resolved_url is None
                    &&& others_unchanged(old(ctx).modules@, final(ctx).modules@, id)
                }),
            },
    {
        ctx.load_module(id)
    }
}

/// Re-establish context well-formedness after one module's runtime fields and
/// the in-flight set changed together in one of the sanctioned transitions.
proof fn lemma_wf_after(a: &Context, b: &Context, i: int, id: Id)
    requires
        a.wf(),
        0 <= i < a.modules@.len(),
        a.modules@[i].id == id,
        b.modules@ == a.modules@.update(i, b.modules@[i]),
        b.modules@[i].id == id,
        b.modules@[i].references == a.modules@[i].references,
        crate::coordinator::no_dup(b.coordinator.inflight@),
        // the in-flight set changed for `id` alone:
        forall|x: Id|
            x != id ==> (b.coordinator.inflight@.contains(x) <==> a.coordinator.inflight@.contains(
                x,
            )),
        // and agrees with the module's new state:
        (b.modules@[i].state is LoadingDependencies || b.modules@[i].state is Injected)
            <==> b.coordinator.inflight@.contains(id),
        // the module's new runtime fields respect the URL lifecycle:
        b.modules@[i].state is Loaded ==> b.modules@[i].resolved_url is Some,
        (b.modules@[i].state is NotLoaded || b.modules@[i].state is LoadingDependencies)
            ==> b.modules@[i].resolved_url is None,
    ensures
        b.wf(),
{
    assert forall|j: int|
        0 <= j < b.modules@.len() && (#[trigger] b.modules@[j]).state is Loaded implies b.modules@[j].resolved_url is Some by {
        if j != i {
            assert(b.modules@[j] == a.modules@[j]);
        }
    }
    assert forall|j: int|
        0 <= j < b.modules@.len() && ((#[trigger] b.modules@[j]).state is NotLoaded
            || b.modules@[j].state is LoadingDependencies) implies b.modules@[j].resolved_url
        is None by {
        if j != i {
            assert(b.modules@[j] == a.modules@[j]);
        }
    }
    assert(forall|j: int| 0 <= j < a.modules@.len() ==> (#[trigger] b.modules@[j]).id
        == a.modules@[j].id);
    crate::loader::lemma_module_at_update(a.modules@, i, b.modules@[i]);
    assert forall|j: int|
        0 <= j < b.modules@.len() && (b.modules@[j].state is LoadingDependencies
            || b.modules@[j].state is Injected) implies #[trigger] b.coordinator.inflight@.contains(
        b.modules@[j].id,
    ) by {
        if j != i {
            assert(b.modules@[j] == a.modules@[j]);
            assert(a.coordinator.inflight@.contains(a.modules@[j].id));
            if a.modules@[j].id != id {
                assert(b.coordinator.inflight@.contains(b.modules@[j].id));
            } else {
                assert(a.modules@[j].id != a.modules@[i].id);
                assert(false);
            }
        }
    }
    assert forall|k: int| 0 <= k < b.coordinator.inflight@.len() implies has_module(
        b.modules@,
        #[trigger] b.coordinator.inflight@[k],
    ) && (module_at(b.modules@, b.coordinator.inflight@[k]).state is LoadingDependencies
        || module_at(b.modules@, b.coordinator.inflight@[k]).state is Injected) by {
        let x = b.coordinator.inflight@[k];
        assert(b.coordinator.inflight@.contains(x));
        if x == id {
            assert(module_at(b.modules@, id) == b.modules@[i]);
        } else {
            assert(a.coordinator.inflight@.contains(x));
            let k0 = choose|k0: int|
                0 <= k0 < a.coordinator.inflight@.len() && a.coordinator.inflight@[k0] == x;
            assert(has_module(a.modules@, x));
            assert(module_at(b.modules@, x) == module_at(a.modules@, x));
        }
    }
    assert forall|j: int| 0 <= j < b.modules@.len() implies crate::loader::export_refs_named(
        (#[trigger] b.modules@[j]).references@,
    ) by {
        if j == i {
            assert(crate::loader::export_refs_named(a.modules@[i].references@));
        } else {
            assert(b.modules@[j] == a.modules@[j]);
        }
    }
}

} // verus!
