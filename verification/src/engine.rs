//! The fetch engine: a fixed number of workers drain the work queue, each
//! comparing what the registry reports with what the manifest declares.
//!
//! The engine makes every decision of a run and performs no lookup itself.
//! A worker asks it for the next lookup, queries the registry, and hands the
//! outcome back; the engine is shared between the workers under a lock that
//! is never held across a request.

use crate::lookup::{build_lookups, declared_views, lookups, well_declared, Declared};
use crate::queue::WorkQueue;
use crate::registry::RegistryError;
use crate::version::{change_of, change_views, ChangeView, Pkg, PkgChange, PkgView};
use vstd::prelude::*;

verus! {

/// Why a run gave no change-set.
#[derive(Debug, Clone, Copy, PartialEq, Eq, Structural)]
pub enum FetchError {
    /// The number of workers asked for was zero.
    InvalidConcurrency,
    /// An entry of the mapping declared an empty version string.
    InvalidVersionString,
    /// The lookup of some worker failed.
    FetchFailed,
    /// Lookups are still pending or under way.
    StillRunning,
}

/// The state of one worker, as a mathematical value.
pub struct WorkerState {
    /// The lookup that the worker took and has not answered yet.
    pub busy: Option<PkgView>,
    /// Whether a lookup of this worker failed.
    pub failed: bool,
    /// The changes that the worker found so far.
    pub changes: Seq<ChangeView>,
}

/// The state of a run, as a mathematical value.
pub struct EngineState {
    pub queue: Seq<PkgView>,
    pub workers: Seq<WorkerState>,
}

/// What the registry answered to one lookup, as a mathematical value.
pub type Outcome = Result<Seq<char>, RegistryError>;

impl WorkerState {
    /// A worker that has done nothing yet.
    pub open spec fn fresh() -> WorkerState {
        WorkerState { busy: None, failed: false, changes: Seq::empty() }
    }

    /// The worker after it took the lookup `pkg`.
    pub open spec fn take(self, pkg: PkgView) -> WorkerState {
        WorkerState { busy: Some(pkg), ..self }
    }

    /// The worker after the registry answered its lookup. A failure ends the
    /// worker and discards what it had found.
    pub open spec fn answer(self, outcome: Outcome) -> WorkerState
        recommends
            self.busy is Some,
    {
        match outcome {
            Ok(latest) => WorkerState {
                busy: None,
                failed: self.failed,
                changes: match change_of(self.busy->0, latest) {
                    Some(c) => self.changes.push(c),
                    None => self.changes,
                },
            },
            Err(_) => WorkerState { busy: None, failed: true, changes: Seq::empty() },
        }
    }
}

impl EngineState {
    /// The state in which a run starts.
    pub open spec fn start(lookups: Seq<PkgView>, workers: nat) -> EngineState {
        EngineState {
            queue: lookups,
            workers: Seq::new(workers, |i: int| WorkerState::fresh()),
        }
    }

    /// Whether `worker` may take a lookup: it exists, has not failed, holds
    /// no lookup, and the queue is not empty.
    pub open spec fn can_pop(self, worker: int) -> bool {
        &&& 0 <= worker < self.workers.len()
        &&& !self.workers[worker].failed
        &&& self.workers[worker].busy is None
        &&& self.queue.len() > 0
    }

    /// The state after `worker` asked for a lookup.
    pub open spec fn pop(self, worker: int) -> EngineState {
        if self.can_pop(worker) {
            EngineState {
                queue: self.queue.drop_last(),
                workers: self.workers.update(
                    worker,
                    self.workers[worker].take(self.queue.last()),
                ),
            }
        } else {
            self
        }
    }

    /// Whether `worker` holds a lookup that waits for its answer.
    pub open spec fn awaits(self, worker: int) -> bool {
        0 <= worker < self.workers.len() && self.workers[worker].busy is Some
    }

    /// The state after the registry answered the lookup of `worker`.
    pub open spec fn record(self, worker: int, outcome: Outcome) -> EngineState {
        if self.awaits(worker) {
            EngineState {
                queue: self.queue,
                workers: self.workers.update(worker, self.workers[worker].answer(outcome)),
            }
        } else {
            self
        }
    }

    /// Whether the lookup of some worker failed.
    pub open spec fn failed(self) -> bool {
        exists|w: int| 0 <= w < self.workers.len() && (#[trigger] self.workers[w]).failed
    }

    /// Whether nothing is pending and nothing under way.
    pub open spec fn settled(self) -> bool {
        &&& self.queue.len() == 0
        &&& forall|w: int| 0 <= w < self.workers.len() ==> (#[trigger] self.workers[w]).busy is None
    }

    /// The changes of all workers, those of the first worker first.
    pub open spec fn collected(self) -> Seq<ChangeView> {
        self.workers.map_values(|w: WorkerState| w.changes).flatten()
    }
}

/// One worker of a run.
#[derive(Debug)]
pub struct Worker {
    busy: Option<Pkg>,
    failed: bool,
    changes: Vec<PkgChange>,
}

impl View for Worker {
    type V = WorkerState;

    closed spec fn view(&self) -> WorkerState {
        WorkerState {
            busy: match self.busy {
                Some(p) => Some(p@),
                None => None,
            },
            failed: self.failed,
            changes: change_views(self.changes@),
        }
    }
}

/// One run of the fetch engine over one mapping.
#[derive(Debug)]
pub struct FetchEngine {
    queue: WorkQueue,
    workers: Vec<Worker>,
}

impl View for FetchEngine {
    type V = EngineState;

    closed spec fn view(&self) -> EngineState {
        EngineState { queue: self.queue@, workers: self.workers@.map_values(|w: Worker| w@) }
    }
}

/// The value of an outcome.
pub open spec fn outcome_view(outcome: Result<String, RegistryError>) -> Outcome {
    match outcome {
        Ok(latest) => Ok(latest@),
        Err(e) => Err(e),
    }
}

impl FetchEngine {
    /// Starts a run over `deps` with `concurrency` workers.
    pub fn new(deps: &Vec<Declared>, concurrency: usize) -> (r: Result<FetchEngine, FetchError>)
        ensures
            concurrency == 0 ==> r == Err::<FetchEngine, FetchError>(
                FetchError::InvalidConcurrency,
            ),
            concurrency > 0 && !well_declared(declared_views(deps@)) ==> r == Err::<
                FetchEngine,
                FetchError,
            >(FetchError::InvalidVersionString),
            concurrency > 0 && well_declared(declared_views(deps@)) ==> r is Ok,
            r matches Ok(engine) ==> engine@ == EngineState::start(
                lookups(declared_views(deps@)),
                concurrency as nat,
            ),
    {
        if concurrency == 0 {
            return Err(FetchError::InvalidConcurrency);
        }
        let pending = match build_lookups(deps) {
            Ok(pending) => pending,
            Err(_) => {
                return Err(FetchError::InvalidVersionString);
            },
        };
        let mut workers: Vec<Worker> = Vec::new();
        let mut i: usize = 0;
        while i < concurrency
            invariant
                0 <= i <= concurrency,
                workers@.len() == i,
                forall|k: int| 0 <= k < i ==> (#[trigger] workers@[k])@ == WorkerState::fresh(),
            decreases concurrency - i,
        {
            let fresh = Worker { busy: None, failed: false, changes: Vec::new() };
            assert(fresh@.changes =~= Seq::empty());
            workers.push(fresh);
            i += 1;
        }
        let engine = FetchEngine { queue: WorkQueue::new(pending), workers };
        proof {
            assert(engine@.workers =~= EngineState::start(
                lookups(declared_views(deps@)),
                concurrency as nat,
            ).workers);
        }
        Ok(engine)
    }

    /// The number of workers of this run.
    pub fn concurrency(&self) -> (r: usize)
        ensures
            r == self@.workers.len(),
    {
        self.workers.len()
    }

    /// Whether no lookup is left in the queue.
    pub fn is_empty(&self) -> (r: bool)
        ensures
            r == (self@.queue.len() == 0),
    {
        self.queue.is_empty()
    }

    /// Hands `worker` the next lookup. Returns `None`, and changes nothing,
    /// when the queue is empty, when the worker still owes the answer to its
    /// last lookup, when it has failed, or when there is no such worker.
    pub fn next_lookup(&mut self, worker: usize) -> (r: Option<Pkg>)
        ensures
            final(self)@ == old(self)@.pop(worker as int),
            r is Some <==> old(self)@.can_pop(worker as int),
            r matches Some(p) ==> p@ == old(self)@.queue.last(),
    {
        if worker >= self.workers.len() {
            return None;
        }
        if self.workers[worker].failed || self.workers[worker].busy.is_some() {
            return None;
        }
        match self.queue.try_pop() {
            None => None,
            Some(pkg) => {
                let handed = pkg.clone();
                self.workers[worker].busy = Some(pkg);
                proof {
                    assert(self@.workers =~= old(self)@.pop(worker as int).workers);
                }
                Some(handed)
            },
        }
    }

    /// Takes the registry's answer to the lookup that `worker` holds. Returns
    /// whether the worker goes on: `false` after a failure, and when the
    /// worker holds no lookup, in which case nothing changes.
    pub fn record(&mut self, worker: usize, outcome: Result<String, RegistryError>) -> (r: bool)
        ensures
            final(self)@ == old(self)@.record(worker as int, outcome_view(outcome)),
            r == (old(self)@.awaits(worker as int) && outcome is Ok),
    {
        if worker >= self.workers.len() {
            return false;
        }
        let pkg = match self.workers[worker].busy.take() {
            None => {
                proof {
                    assert(self@.workers =~= old(self)@.workers);
                }
                return false;
            },
            Some(pkg) => pkg,
        };
        match outcome {
            Ok(latest) => {
                if latest != pkg.version {
                    let ghost before = self.workers[worker as int].changes@;
                    self.workers[worker].changes.push(PkgChange { to: latest, pkg });
                    proof {
                        assert(change_views(self.workers[worker as int].changes@)
                            =~= change_views(before).push(
                            change_of(pkg@, latest@)->0,
                        ));
                    }
                }
                proof {
                    assert(self@.workers =~= old(self)@.record(
                        worker as int,
                        outcome_view(outcome),
                    ).workers);
                }
                true
            },
            Err(_) => {
                self.workers[worker].failed = true;
                self.workers[worker].changes = Vec::new();
                proof {
                    assert(self@.workers[worker as int].changes =~= Seq::empty());
                    assert(self@.workers =~= old(self)@.record(
                        worker as int,
                        outcome_view(outcome),
                    ).workers);
                }
                false
            },
        }
    }

    /// Whether the lookup of some worker failed.
    pub fn has_failed(&self) -> (r: bool)
        ensures
            r == self@.failed(),
    {
        let mut i: usize = 0;
        while i < self.workers.len()
            invariant
                0 <= i <= self.workers.len(),
                forall|w: int| 0 <= w < i ==> !(#[trigger] self@.workers[w]).failed,
            decreases self.workers.len() - i,
        {
            if self.workers[i].failed {
                assert(self@.workers[i as int].failed);
                return true;
            }
            i += 1;
        }
        false
    }

    /// Whether nothing is pending and nothing under way.
    pub fn is_settled(&self) -> (r: bool)
        ensures
            r == self@.settled(),
    {
        if !self.queue.is_empty() {
            return false;
        }
        let mut i: usize = 0;
        while i < self.workers.len()
            invariant
                0 <= i <= self.workers.len(),
                forall|w: int| 0 <= w < i ==> (#[trigger] self@.workers[w]).busy is None,
            decreases self.workers.len() - i,
        {
            if self.workers[i].busy.is_some() {
                assert(self@.workers[i as int].busy is Some);
                return false;
            }
            i += 1;
        }
        true
    }

    /// The change-set of the run: the changes of all workers, once every
    /// lookup has been answered. A run in which a lookup failed gives
    /// `FetchFailed` and no changes at all.
    pub fn finish(&self) -> (r: Result<Vec<PkgChange>, FetchError>)
        ensures
            self@.failed() ==> r == Err::<Vec<PkgChange>, FetchError>(FetchError::FetchFailed),
            !self@.failed() && !self@.settled() ==> r == Err::<Vec<PkgChange>, FetchError>(
                FetchError::StillRunning,
            ),
            !self@.failed() && self@.settled() ==> r is Ok,
            r matches Ok(changes) ==> change_views(changes@) == self@.collected(),
    {
        if self.has_failed() {
            return Err(FetchError::FetchFailed);
        }
        if !self.is_settled() {
            return Err(FetchError::StillRunning);
        }
        let ghost parts = self@.workers.map_values(|w: WorkerState| w.changes);
        let mut out: Vec<PkgChange> = Vec::new();
        let mut i: usize = 0;
        while i < self.workers.len()
            invariant
                0 <= i <= self.workers.len(),
                parts == self@.workers.map_values(|w: WorkerState| w.changes),
                change_views(out@) == parts.take(i as int).flatten(),
            decreases self.workers.len() - i,
        {
            let found = &self.workers[i].changes;
            let ghost before = change_views(out@);
            let mut j: usize = 0;
            while j < found.len()
                invariant
                    0 <= j <= found.len(),
                    change_views(out@) == before + change_views(found@).take(j as int),
                decreases found.len() - j,
            {
                let ghost so_far = change_views(out@);
                out.push(found[j].clone());
                proof {
                    assert(change_views(out@) =~= so_far.push(found@[j as int]@));
                    assert(change_views(found@).take(j + 1) =~= change_views(found@).take(
                        j as int,
                    ).push(found@[j as int]@));
                }
                j += 1;
            }
            proof {
                assert(change_views(found@).take(j as int) =~= change_views(found@));
                assert(parts[i as int] == change_views(found@));
                assert(parts.take(i + 1) =~= parts.take(i as int).push(parts[i as int]));
                parts.take(i as int).lemma_flatten_push(parts[i as int]);
            }
            i += 1;
        }
        proof {
            assert(parts.take(i as int) =~= parts);
        }
        Ok(out)
    }
}

} // verus!
