//! Runs of the fetch engine as sequences of events, and what holds of every
//! run whatever the order in which the workers are served.

use crate::engine::{EngineState, Outcome, WorkerState};
use crate::lookup::{lookup_of, lookups, DeclaredView};
use crate::seqs::{
    lemma_empty_multiset, lemma_filter_map_has, lemma_filter_map_multiset,
    lemma_flatten_contains, lemma_flatten_empty_parts, lemma_flatten_map, lemma_flatten_update,
    lemma_single_multiset, lemma_twice,
};
use crate::version::{change_of, resolvable, ChangeView, PkgView};
use vstd::multiset::Multiset;
use vstd::prelude::*;
use vstd::seq_lib::{to_multiset_build, to_multiset_contains};

verus! {

/// What can happen to an engine.
pub enum Event {
    /// A worker asks for the next lookup.
    Pop { worker: int },
    /// The registry's answer to the lookup of a worker arrives.
    Reply { worker: int, outcome: Outcome },
}

/// The state after one event.
pub open spec fn step(s: EngineState, e: Event) -> EngineState {
    match e {
        Event::Pop { worker } => s.pop(worker),
        Event::Reply { worker, outcome } => s.record(worker, outcome),
    }
}

/// The state after a sequence of events.
pub open spec fn run(start: EngineState, events: Seq<Event>) -> EngineState
    decreases events.len(),
{
    if events.len() == 0 {
        start
    } else {
        step(run(start, events.drop_last()), events.last())
    }
}

/// A registry that answers every request for one package name in one way.
pub type Registry = spec_fn(Seq<char>) -> Outcome;

/// Whether the event `e`, arriving in state `s`, is what `registry` answers.
pub open spec fn obeys(s: EngineState, e: Event, registry: Registry) -> bool {
    e matches Event::Reply { worker, outcome } ==> (s.awaits(worker) ==> outcome == registry(
        s.workers[worker].busy->0.name,
    ))
}

/// Whether every answer in a run is what `registry` answers.
pub open spec fn run_obeys(start: EngineState, events: Seq<Event>, registry: Registry) -> bool
    decreases events.len(),
{
    events.len() > 0 ==> run_obeys(start, events.drop_last(), registry) && obeys(
        run(start, events.drop_last()),
        events.last(),
        registry,
    )
}

/// The change that `registry` gives for one lookup.
pub open spec fn change_by(registry: Registry, pkg: PkgView) -> Option<ChangeView> {
    match registry(pkg.name) {
        Ok(latest) => change_of(pkg, latest),
        Err(_) => None,
    }
}

/// The changes that `registry` gives for `lookups`, in their order.
pub open spec fn expected(lookups: Seq<PkgView>, registry: Registry) -> Seq<ChangeView> {
    lookups.filter_map(|p: PkgView| change_by(registry, p))
}

/// The lookup that one worker holds, as a sequence of one element or none.
pub open spec fn busy_part(w: WorkerState) -> Seq<PkgView> {
    match w.busy {
        Some(p) => seq![p],
        None => Seq::empty(),
    }
}

/// The lookups that the workers hold, those of the first worker first.
pub open spec fn held(s: EngineState) -> Seq<PkgView> {
    s.workers.map_values(|w: WorkerState| busy_part(w)).flatten()
}

/// Every lookup is in the queue, with a worker, or answered; and the changes
/// found are those that the registry gives for the answered ones.
pub open spec fn accounted(
    s: EngineState,
    lookups: Seq<PkgView>,
    answered: Seq<PkgView>,
    registry: Registry,
) -> bool {
    &&& s.queue.to_multiset().add(held(s).to_multiset()).add(answered.to_multiset())
        == lookups.to_multiset()
    &&& s.collected().to_multiset() == expected(answered, registry).to_multiset()
    &&& forall|i: int| 0 <= i < answered.len() ==> registry((#[trigger] answered[i]).name) is Ok
}

/// A failure stays: no event takes it back.
pub proof fn lemma_failure_stays(s: EngineState, e: Event)
    requires
        s.failed(),
    ensures
        step(s, e).failed(),
{
    let w = choose|w: int| 0 <= w < s.workers.len() && (#[trigger] s.workers[w]).failed;
    assert(step(s, e).workers[w].failed);
}

/// What replacing the state of one worker does to the lookups held and to
/// the changes collected, counted element by element.
proof fn lemma_worker_update(s: EngineState, worker: int, next: WorkerState)
    requires
        0 <= worker < s.workers.len(),
    ensures
        ({
            let after = EngineState { queue: s.queue, workers: s.workers.update(worker, next) };
            &&& forall|p: PkgView| #[trigger]
                held(after).to_multiset().count(p) + busy_part(
                    s.workers[worker],
                ).to_multiset().count(p) == held(s).to_multiset().count(p) + busy_part(
                    next,
                ).to_multiset().count(p)
            &&& forall|c: ChangeView| #[trigger]
                after.collected().to_multiset().count(c)
                    + s.workers[worker].changes.to_multiset().count(c)
                    == s.collected().to_multiset().count(c) + next.changes.to_multiset().count(c)
        }),
{
    broadcast use vstd::multiset::group_multiset_axioms;

    let busy = |w: WorkerState| busy_part(w);
    let found = |w: WorkerState| w.changes;
    let after = EngineState { queue: s.queue, workers: s.workers.update(worker, next) };
    assert(after.workers.map_values(busy) =~= s.workers.map_values(busy).update(
        worker,
        busy(next),
    ));
    assert(after.workers.map_values(found) =~= s.workers.map_values(found).update(
        worker,
        found(next),
    ));
    lemma_flatten_update(s.workers.map_values(busy), worker, busy(next));
    lemma_flatten_update(s.workers.map_values(found), worker, found(next));
    assert forall|p: PkgView| #[trigger]
        held(after).to_multiset().count(p) + busy_part(s.workers[worker]).to_multiset().count(p)
            == held(s).to_multiset().count(p) + busy_part(next).to_multiset().count(p) by {
        assert(held(after).to_multiset().add(busy_part(s.workers[worker]).to_multiset()).count(p)
            == held(s).to_multiset().add(busy_part(next).to_multiset()).count(p));
    }
    assert forall|c: ChangeView| #[trigger]
        after.collected().to_multiset().count(c) + s.workers[worker].changes.to_multiset().count(c)
            == s.collected().to_multiset().count(c) + next.changes.to_multiset().count(c) by {
        assert(after.collected().to_multiset().add(
            s.workers[worker].changes.to_multiset(),
        ).count(c) == s.collected().to_multiset().add(next.changes.to_multiset()).count(c));
    }
}

/// In every run whose answers come from `registry`, as long as no lookup has
/// failed, every lookup is accounted for. Returns the answered lookups.
pub proof fn lemma_accounted(
    lookups: Seq<PkgView>,
    workers: nat,
    events: Seq<Event>,
    registry: Registry,
) -> (answered: Seq<PkgView>)
    requires
        run_obeys(EngineState::start(lookups, workers), events, registry),
    ensures
        !run(EngineState::start(lookups, workers), events).failed() ==> accounted(
            run(EngineState::start(lookups, workers), events),
            lookups,
            answered,
            registry,
        ),
    decreases events.len(),
{
    broadcast use vstd::multiset::group_multiset_axioms;

    let start = EngineState::start(lookups, workers);
    if events.len() == 0 {
        let none = Seq::<PkgView>::empty();
        lemma_flatten_empty_parts(start.workers.map_values(|w: WorkerState| busy_part(w)));
        lemma_flatten_empty_parts(start.workers.map_values(|w: WorkerState| w.changes));
        lemma_empty_multiset(held(start));
        lemma_empty_multiset(none);
        assert(expected(none, registry) =~= Seq::<ChangeView>::empty());
        assert(start.queue.to_multiset().add(held(start).to_multiset()).add(none.to_multiset())
            =~= lookups.to_multiset());
        return none;
    }
    let before = run(start, events.drop_last());
    let e = events.last();
    let after = step(before, e);
    let earlier = lemma_accounted(lookups, workers, events.drop_last(), registry);
    if after.failed() {
        return earlier;
    }
    if before.failed() {
        lemma_failure_stays(before, e);
    }
    match e {
        Event::Pop { worker } => {
            if before.can_pop(worker) {
                let pkg = before.queue.last();
                let next = before.workers[worker].take(pkg);
                lemma_worker_update(before, worker, next);
                let mid = EngineState { queue: before.queue, workers: after.workers };
                assert(held(mid) == held(after));
                assert(mid.collected() == after.collected());
                assert(before.queue =~= after.queue.push(pkg));
                to_multiset_build(after.queue, pkg);
                lemma_single_multiset(pkg);
                lemma_empty_multiset(Seq::<PkgView>::empty());
                assert forall|p: PkgView|
                    after.queue.to_multiset().add(held(after).to_multiset()).add(
                        earlier.to_multiset(),
                    ).count(p) == lookups.to_multiset().count(p) by {
                    let _ = held(mid).to_multiset().count(p);
                    assert(before.queue.to_multiset().add(held(before).to_multiset()).add(
                        earlier.to_multiset(),
                    ).count(p) == lookups.to_multiset().count(p));
                }
                assert(after.queue.to_multiset().add(held(after).to_multiset()).add(
                    earlier.to_multiset(),
                ) =~= lookups.to_multiset());
                assert forall|c: ChangeView|
                    after.collected().to_multiset().count(c) == before.collected().to_multiset().count(
                        c,
                    ) by {
                    let _ = mid.collected().to_multiset().count(c);
                }
                assert(after.collected().to_multiset() =~= before.collected().to_multiset());
            }
            earlier
        },
        Event::Reply { worker, outcome } => {
            if before.awaits(worker) {
                let pkg = before.workers[worker].busy->0;
                let next = before.workers[worker].answer(outcome);
                assert(after.workers[worker] == next);
                assert(!next.failed);
                let latest = outcome->Ok_0;
                assert(registry(pkg.name) == outcome);
                lemma_worker_update(before, worker, next);
                let answered = earlier.push(pkg);
                to_multiset_build(earlier, pkg);
                lemma_single_multiset(pkg);
                lemma_empty_multiset(Seq::<PkgView>::empty());
                assert forall|p: PkgView|
                    after.queue.to_multiset().add(held(after).to_multiset()).add(
                        answered.to_multiset(),
                    ).count(p) == lookups.to_multiset().count(p) by {
                    let _ = held(after).to_multiset().count(p);
                    assert(before.queue.to_multiset().add(held(before).to_multiset()).add(
                        earlier.to_multiset(),
                    ).count(p) == lookups.to_multiset().count(p));
                }
                assert(after.queue.to_multiset().add(held(after).to_multiset()).add(
                    answered.to_multiset(),
                ) =~= lookups.to_multiset());
                assert(answered.drop_last() =~= earlier);
                let had = before.workers[worker].changes;
                match change_of(pkg, latest) {
                    Some(c) => {
                        assert(next.changes == had.push(c));
                        to_multiset_build(had, c);
                        assert(expected(answered, registry) =~= expected(earlier, registry).push(
                            c,
                        ));
                        to_multiset_build(expected(earlier, registry), c);
                    },
                    None => {
                        assert(expected(answered, registry) =~= expected(earlier, registry));
                    },
                }
                assert forall|c: ChangeView|
                    after.collected().to_multiset().count(c) == expected(
                        answered,
                        registry,
                    ).to_multiset().count(c) by {
                    let _ = after.collected().to_multiset().count(c);
                    assert(before.collected().to_multiset().count(c) == expected(
                        earlier,
                        registry,
                    ).to_multiset().count(c));
                }
                assert(after.collected().to_multiset() =~= expected(
                    answered,
                    registry,
                ).to_multiset());
                answered
            } else {
                earlier
            }
        },
    }
}

/// A finished run found exactly the changes that the registry gives for the
/// lookups it started with, each as often as its lookup occurs: whatever the
/// number of workers, and whatever the order in which they were served. A
/// run can only finish without failure when the registry answers every
/// lookup.
pub proof fn lemma_finished_run(
    lookups: Seq<PkgView>,
    workers: nat,
    events: Seq<Event>,
    registry: Registry,
)
    requires
        run_obeys(EngineState::start(lookups, workers), events, registry),
        run(EngineState::start(lookups, workers), events).settled(),
        !run(EngineState::start(lookups, workers), events).failed(),
    ensures
        run(EngineState::start(lookups, workers), events).collected().to_multiset() == expected(
            lookups,
            registry,
        ).to_multiset(),
        forall|i: int| 0 <= i < lookups.len() ==> registry((#[trigger] lookups[i]).name) is Ok,
{
    broadcast use vstd::multiset::group_multiset_axioms;

    let end = run(EngineState::start(lookups, workers), events);
    let answered = lemma_accounted(lookups, workers, events, registry);
    lemma_flatten_empty_parts(end.workers.map_values(|w: WorkerState| busy_part(w)));
    lemma_empty_multiset(held(end));
    lemma_empty_multiset(end.queue);
    assert(answered.to_multiset() =~= lookups.to_multiset());
    lemma_filter_map_multiset(answered, lookups, |p: PkgView| change_by(registry, p));
    assert forall|i: int| 0 <= i < lookups.len() implies registry(
        (#[trigger] lookups[i]).name,
    ) is Ok by {
        let p = lookups[i];
        assert(lookups.contains(p));
        to_multiset_contains(lookups, p);
        to_multiset_contains(answered, p);
        let k = choose|k: int| 0 <= k < answered.len() && answered[k] == p;
        assert(registry(answered[k].name) is Ok);
    }
}

/// Two finished runs over the same lookups against the same registry found
/// the same changes, each as often in one as in the other: with one worker
/// or with ten, and in whatever order the workers were served.
pub proof fn lemma_schedule_independent(
    lookups: Seq<PkgView>,
    registry: Registry,
    workers_a: nat,
    events_a: Seq<Event>,
    workers_b: nat,
    events_b: Seq<Event>,
)
    requires
        run_obeys(EngineState::start(lookups, workers_a), events_a, registry),
        run(EngineState::start(lookups, workers_a), events_a).settled(),
        !run(EngineState::start(lookups, workers_a), events_a).failed(),
        run_obeys(EngineState::start(lookups, workers_b), events_b, registry),
        run(EngineState::start(lookups, workers_b), events_b).settled(),
        !run(EngineState::start(lookups, workers_b), events_b).failed(),
    ensures
        run(EngineState::start(lookups, workers_a), events_a).collected().to_multiset() == run(
            EngineState::start(lookups, workers_b),
            events_b,
        ).collected().to_multiset(),
        run(EngineState::start(lookups, workers_a), events_a).collected().to_set() == run(
            EngineState::start(lookups, workers_b),
            events_b,
        ).collected().to_set(),
{
    lemma_finished_run(lookups, workers_a, events_a, registry);
    lemma_finished_run(lookups, workers_b, events_b, registry);
    let a = run(EngineState::start(lookups, workers_a), events_a).collected();
    let b = run(EngineState::start(lookups, workers_b), events_b).collected();
    assert forall|c: ChangeView| a.contains(c) <==> b.contains(c) by {
        to_multiset_contains(a, c);
        to_multiset_contains(b, c);
    }
    assert(a.to_set() =~= b.to_set());
}

/// The change that carries what `registry` reports for the lookup `pkg`.
pub open spec fn reported(pkg: PkgView, registry: Registry) -> ChangeView {
    ChangeView { to: registry(pkg.name)->Ok_0, pkg }
}

/// In a finished run, a lookup has a change exactly when the version that
/// the registry reports differs from the declared numeric version, and that
/// change carries the reported version. No change is about anything else.
pub proof fn lemma_change_iff_differs(
    lookups: Seq<PkgView>,
    workers: nat,
    events: Seq<Event>,
    registry: Registry,
)
    requires
        run_obeys(EngineState::start(lookups, workers), events, registry),
        run(EngineState::start(lookups, workers), events).settled(),
        !run(EngineState::start(lookups, workers), events).failed(),
    ensures
        forall|p: PkgView| #[trigger]
            lookups.contains(p) ==> registry(p.name) is Ok && (run(
                EngineState::start(lookups, workers),
                events,
            ).collected().contains(reported(p, registry)) <==> registry(p.name)->Ok_0
                != p.version),
        forall|c: ChangeView| #[trigger]
            run(EngineState::start(lookups, workers), events).collected().contains(c)
                ==> lookups.contains(c.pkg) && c == reported(c.pkg, registry) && c.to
                != c.pkg.version,
{
    let found = run(EngineState::start(lookups, workers), events).collected();
    let g = |p: PkgView| change_by(registry, p);
    lemma_finished_run(lookups, workers, events, registry);
    assert forall|c: ChangeView| #[trigger] found.contains(c) implies lookups.contains(c.pkg)
        && c == reported(c.pkg, registry) && c.to != c.pkg.version by {
        to_multiset_contains(found, c);
        to_multiset_contains(expected(lookups, registry), c);
        lookups.lemma_filter_map_contains(g, c);
        let p = choose|p: PkgView| #[trigger] lookups.contains(p) && g(p) == Some(c);
        assert(c.pkg == p);
    }
    assert forall|p: PkgView| #[trigger] lookups.contains(p) implies registry(p.name) is Ok && (
    found.contains(reported(p, registry)) <==> registry(p.name)->Ok_0 != p.version) by {
        let k = choose|k: int| 0 <= k < lookups.len() && lookups[k] == p;
        assert(registry(lookups[k].name) is Ok);
        let latest = registry(p.name)->Ok_0;
        let c = ChangeView { to: latest, pkg: p };
        to_multiset_contains(found, c);
        to_multiset_contains(expected(lookups, registry), c);
        if latest != p.version {
            assert(g(p) == Some(c));
            lemma_filter_map_has(lookups, g, k);
        }
    }
}

/// Whether every lookup in the queue, with a worker or in a change is one of
/// `lookups`, and every change carries a version that differs from the
/// declared one.
pub open spec fn within(s: EngineState, lookups: Seq<PkgView>) -> bool {
    &&& forall|i: int| 0 <= i < s.queue.len() ==> lookups.contains(#[trigger] s.queue[i])
    &&& forall|w: int|
        0 <= w < s.workers.len() ==> ((#[trigger] s.workers[w]).busy matches Some(p)
            ==> lookups.contains(p))
    &&& forall|w: int, j: int|
        0 <= w < s.workers.len() && 0 <= j < s.workers[w].changes.len() ==> lookups.contains(
            (#[trigger] s.workers[w].changes[j]).pkg,
        ) && s.workers[w].changes[j].to != s.workers[w].changes[j].pkg.version
}

/// Whether the state holds, anywhere, a lookup or a change for the package `name`.
pub open spec fn mentions(s: EngineState, name: Seq<char>) -> bool {
    ||| exists|i: int| 0 <= i < s.queue.len() && (#[trigger] s.queue[i]).name == name
    ||| exists|w: int|
        0 <= w < s.workers.len() && (#[trigger] s.workers[w]).busy is Some
            && s.workers[w].busy->0.name == name
    ||| exists|j: int|
        0 <= j < s.collected().len() && (#[trigger] s.collected()[j]).pkg.name == name
}

/// No run, finished or not, failed or not, ever holds a lookup or a change
/// for anything but the lookups it started with, nor a change to the version
/// that was declared.
pub proof fn lemma_run_within(lookups: Seq<PkgView>, workers: nat, events: Seq<Event>)
    ensures
        within(run(EngineState::start(lookups, workers), events), lookups),
    decreases events.len(),
{
    let start = EngineState::start(lookups, workers);
    if events.len() > 0 {
        let before = run(start, events.drop_last());
        lemma_run_within(lookups, workers, events.drop_last());
        let after = run(start, events);
        match events.last() {
            Event::Pop { worker } => {
                if before.can_pop(worker) {
                    assert(lookups.contains(before.queue[before.queue.len() - 1]));
                    assert forall|i: int| 0 <= i < after.queue.len() implies lookups.contains(
                        #[trigger] after.queue[i],
                    ) by {
                        assert(after.queue[i] == before.queue[i]);
                    }
                }
            },
            Event::Reply { worker, outcome } => {
                if before.awaits(worker) {
                    assert forall|w: int, j: int|
                        0 <= w < after.workers.len() && 0 <= j
                            < after.workers[w].changes.len() implies lookups.contains(
                        (#[trigger] after.workers[w].changes[j]).pkg,
                    ) && after.workers[w].changes[j].to
                        != after.workers[w].changes[j].pkg.version by {
                        if w == worker {
                            if j < before.workers[w].changes.len() {
                                assert(after.workers[w].changes[j]
                                    == before.workers[w].changes[j]);
                            }
                        } else {
                            assert(after.workers[w].changes[j] == before.workers[w].changes[j]);
                        }
                    }
                }
            },
        }
    }
}

/// Every lookup is for an entry of the mapping whose numeric part starts
/// with a digit.
pub proof fn lemma_lookups_resolvable(deps: Seq<DeclaredView>)
    ensures
        forall|p: PkgView| #[trigger]
            lookups(deps).contains(p) ==> resolvable(p.version) && exists|i: int|
                0 <= i < deps.len() && lookup_of(#[trigger] deps[i]) == Some(p),
{
    let f = |d: DeclaredView| lookup_of(d);
    assert forall|p: PkgView| #[trigger] lookups(deps).contains(p) implies resolvable(p.version)
        && exists|i: int| 0 <= i < deps.len() && lookup_of(#[trigger] deps[i]) == Some(p) by {
        deps.lemma_filter_map_contains(f, p);
        let d = choose|d: DeclaredView| #[trigger] deps.contains(d) && f(d) == Some(p);
        let i = choose|i: int| 0 <= i < deps.len() && deps[i] == d;
        assert(lookup_of(deps[i]) == Some(p));
    }
}

/// An entry that is filtered out, such as one that declares `workspace:*`,
/// is never looked up and never changed: in a run over a mapping, no state
/// holds a lookup or a change for its package.
pub proof fn lemma_filtered_out_untouched(
    deps: Seq<DeclaredView>,
    skipped: int,
    workers: nat,
    events: Seq<Event>,
)
    requires
        0 <= skipped < deps.len(),
        lookup_of(deps[skipped]) is None,
        forall|i: int| 0 <= i < deps.len() && i != skipped ==> (#[trigger] deps[i]).name
            != deps[skipped].name,
    ensures
        !mentions(
            run(EngineState::start(lookups(deps), workers), events),
            deps[skipped].name,
        ),
{
    let name = deps[skipped].name;
    let s = run(EngineState::start(lookups(deps), workers), events);
    lemma_run_within(lookups(deps), workers, events);
    lemma_lookups_resolvable(deps);
    assert forall|p: PkgView| lookups(deps).contains(p) implies p.name != name by {
        let i = choose|i: int| 0 <= i < deps.len() && lookup_of(#[trigger] deps[i]) == Some(p);
        assert(i != skipped);
        assert(deps[i].name != name);
    }
    assert forall|j: int| 0 <= j < s.collected().len() implies (#[trigger] s.collected()[j]).pkg.name
        != name by {
        let c = s.collected()[j];
        let parts = s.workers.map_values(|w: WorkerState| w.changes);
        assert(parts.flatten().contains(c));
        lemma_flatten_contains(parts, c);
        let w = choose|w: int| 0 <= w < parts.len() && (#[trigger] parts[w]).contains(c);
        let k = choose|k: int| 0 <= k < parts[w].len() && parts[w][k] == c;
        assert(s.workers[w].changes[k] == c);
        assert(lookups(deps).contains(c.pkg));
    }
}

/// Every change that a run has collected, at whatever point, is for one of
/// the lookups it started with and carries a version that differs from the
/// declared one.
pub proof fn lemma_collected_sound(lookups: Seq<PkgView>, workers: nat, events: Seq<Event>)
    ensures
        forall|j: int|
            0 <= j < run(EngineState::start(lookups, workers), events).collected().len() ==> {
                let c = #[trigger] run(
                    EngineState::start(lookups, workers),
                    events,
                ).collected()[j];
                lookups.contains(c.pkg) && c.to != c.pkg.version
            },
{
    let s = run(EngineState::start(lookups, workers), events);
    lemma_run_within(lookups, workers, events);
    assert forall|j: int| 0 <= j < s.collected().len() implies {
        let c = #[trigger] s.collected()[j];
        lookups.contains(c.pkg) && c.to != c.pkg.version
    } by {
        let c = s.collected()[j];
        let parts = s.workers.map_values(|w: WorkerState| w.changes);
        assert(parts.flatten().contains(c));
        lemma_flatten_contains(parts, c);
        let w = choose|w: int| 0 <= w < parts.len() && (#[trigger] parts[w]).contains(c);
        let k = choose|k: int| 0 <= k < parts[w].len() && parts[w][k] == c;
        assert(s.workers[w].changes[k] == c);
    }
}

/// Whether no two packages share a name.
pub open spec fn distinct_names(pkgs: Seq<PkgView>) -> bool {
    forall|i: int, j: int|
        0 <= i < j < pkgs.len() ==> (#[trigger] pkgs[i]).name != (#[trigger] pkgs[j]).name
}

/// The lookups of a mapping, which names no package twice, name no package
/// twice.
pub proof fn lemma_lookups_distinct(deps: Seq<DeclaredView>)
    requires
        forall|i: int, j: int|
            0 <= i < j < deps.len() ==> (#[trigger] deps[i]).name != (#[trigger] deps[j]).name,
    ensures
        distinct_names(lookups(deps)),
    decreases deps.len(),
{
    if deps.len() > 0 {
        let rest = deps.drop_last();
        let f = |d: DeclaredView| lookup_of(d);
        assert forall|i: int, j: int| 0 <= i < j < rest.len() implies (#[trigger] rest[i]).name != (
        #[trigger] rest[j]).name by {
            assert(rest[i] == deps[i] && rest[j] == deps[j]);
        }
        lemma_lookups_distinct(rest);
        lemma_lookups_resolvable(rest);
        let all = lookups(deps);
        let before = lookups(rest);
        assert forall|i: int, j: int| 0 <= i < j < all.len() implies (#[trigger] all[i]).name != (
        #[trigger] all[j]).name by {
            if j < before.len() {
                assert(all[i] == before[i] && all[j] == before[j]);
            } else {
                assert(all[i] == before[i]);
                assert(before.contains(before[i]));
                let k = choose|k: int|
                    0 <= k < rest.len() && lookup_of(#[trigger] rest[k]) == Some(before[i]);
                assert(rest[k] == deps[k]);
                assert(deps[k].name != deps[deps.len() - 1].name);
            }
        }
    }
}

/// The packages of the changes of one worker.
pub open spec fn found_part(w: WorkerState) -> Seq<PkgView> {
    w.changes.map_values(|c: ChangeView| c.pkg)
}

/// The packages of the changes collected, those of the first worker first.
pub open spec fn found(s: EngineState) -> Seq<PkgView> {
    s.workers.map_values(|w: WorkerState| found_part(w)).flatten()
}

/// A lookup is never in two places: in every run, each lookup is in the
/// queue, with the workers and among the changes no more often, all in all,
/// than among the lookups that the run started with.
pub proof fn lemma_never_twice(
    lookups: Seq<PkgView>,
    workers: nat,
    events: Seq<Event>,
    p: PkgView,
)
    ensures
        ({
            let s = run(EngineState::start(lookups, workers), events);
            s.queue.to_multiset().count(p) + held(s).to_multiset().count(p) + found(
                s,
            ).to_multiset().count(p) <= lookups.to_multiset().count(p)
        }),
    decreases events.len(),
{
    broadcast use vstd::multiset::group_multiset_axioms;

    let start = EngineState::start(lookups, workers);
    let parts = |w: WorkerState| found_part(w);
    if events.len() == 0 {
        lemma_flatten_empty_parts(start.workers.map_values(|w: WorkerState| busy_part(w)));
        lemma_flatten_empty_parts(start.workers.map_values(parts));
        lemma_empty_multiset(held(start));
        lemma_empty_multiset(found(start));
    } else {
        let before = run(start, events.drop_last());
        let after = run(start, events);
        lemma_never_twice(lookups, workers, events.drop_last(), p);
        match events.last() {
            Event::Pop { worker } => {
                if before.can_pop(worker) {
                    let pkg = before.queue.last();
                    let next = before.workers[worker].take(pkg);
                    lemma_worker_update(before, worker, next);
                    let mid = EngineState { queue: before.queue, workers: after.workers };
                    let _ = held(mid).to_multiset().count(p);
                    assert(before.queue =~= after.queue.push(pkg));
                    to_multiset_build(after.queue, pkg);
                    lemma_single_multiset(pkg);
                    lemma_empty_multiset(Seq::<PkgView>::empty());
                    assert(after.workers.map_values(parts) =~= before.workers.map_values(parts));
                }
            },
            Event::Reply { worker, outcome } => {
                if before.awaits(worker) {
                    let pkg = before.workers[worker].busy->0;
                    let next = before.workers[worker].answer(outcome);
                    lemma_worker_update(before, worker, next);
                    let _ = held(after).to_multiset().count(p);
                    lemma_single_multiset(pkg);
                    lemma_empty_multiset(Seq::<PkgView>::empty());
                    assert(after.workers.map_values(parts) =~= before.workers.map_values(
                        parts,
                    ).update(worker, found_part(next)));
                    lemma_flatten_update(
                        before.workers.map_values(parts),
                        worker,
                        found_part(next),
                    );
                    assert(found(after).to_multiset().add(
                        found_part(before.workers[worker]).to_multiset(),
                    ).count(p) == found(before).to_multiset().add(
                        found_part(next).to_multiset(),
                    ).count(p));
                    let had = found_part(before.workers[worker]);
                    match outcome {
                        Ok(latest) => match change_of(pkg, latest) {
                            Some(c) => {
                                assert(found_part(next) =~= had.push(pkg));
                                to_multiset_build(had, pkg);
                            },
                            None => {
                                assert(found_part(next) =~= had);
                            },
                        },
                        Err(_) => {
                            lemma_empty_multiset(found_part(next));
                        },
                    }
                }
            },
        }
    }
}

/// Where the lookups name no package twice, neither do the changes: in
/// every run, at whatever point, each package has one change at most.
pub proof fn lemma_one_change_each(lookups: Seq<PkgView>, workers: nat, events: Seq<Event>)
    requires
        distinct_names(lookups),
    ensures
        forall|i: int, j: int|
            0 <= i < j < run(EngineState::start(lookups, workers), events).collected().len() ==> (
            #[trigger] run(EngineState::start(lookups, workers), events).collected()[i]).pkg.name
                != (#[trigger] run(
                EngineState::start(lookups, workers),
                events,
            ).collected()[j]).pkg.name,
{
    let s = run(EngineState::start(lookups, workers), events);
    let all = s.collected();
    lemma_collected_sound(lookups, workers, events);
    lemma_flatten_map(s.workers.map_values(|w: WorkerState| w.changes), |c: ChangeView| c.pkg);
    assert(s.workers.map_values(|w: WorkerState| found_part(w)) =~= s.workers.map_values(
        |w: WorkerState| w.changes,
    ).map_values(|part: Seq<ChangeView>| part.map_values(|c: ChangeView| c.pkg)));
    assert(found(s) == all.map_values(|c: ChangeView| c.pkg));
    assert forall|i: int, j: int| 0 <= i < j < all.len() implies (#[trigger] all[i]).pkg.name != (
    #[trigger] all[j]).pkg.name by {
        if all[i].pkg.name == all[j].pkg.name {
            let p = all[i].pkg;
            let q = all[j].pkg;
            assert(lookups.contains(p) && lookups.contains(q));
            let a = choose|a: int| 0 <= a < lookups.len() && lookups[a] == p;
            let b = choose|b: int| 0 <= b < lookups.len() && lookups[b] == q;
            assert(a == b);
            assert(found(s)[i] == p && found(s)[j] == p);
            lemma_twice(found(s), i, j);
            lemma_never_twice(lookups, workers, events, p);
            assert(lookups.no_duplicates()) by {
                assert forall|x: int, y: int|
                    0 <= x < lookups.len() && 0 <= y < lookups.len() && x != y implies lookups[x]
                    != lookups[y] by {
                    if x < y {
                        assert(lookups[x].name != lookups[y].name);
                    } else {
                        assert(lookups[y].name != lookups[x].name);
                    }
                }
            }
            lookups.lemma_multiset_has_no_duplicates();
            to_multiset_contains(lookups, p);
            assert(false);
        }
    }
}

} // verus!
