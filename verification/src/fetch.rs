//! A whole run of the fetch engine against a registry client that answers
//! when called: the workers are served in turn until nothing is left.

use crate::engine::{outcome_view, EngineState, FetchEngine, FetchError};
use crate::lookup::{declared_views, lookups, well_declared, Declared};
use crate::registry::RegistryError;
use crate::runs::{
    expected, lemma_finished_run, lemma_run_within, run, run_obeys, Event, Registry,
};
use crate::version::{change_views, Pkg, PkgChange, PkgView};
use vstd::prelude::*;

verus! {

/// Whether the client `registry` may have given the answer that the event
/// `e` brings in state `s`.
pub open spec fn answer_from<F: Fn(&Pkg) -> Result<String, RegistryError>>(
    s: EngineState,
    e: Event,
    registry: F,
) -> bool {
    e matches Event::Reply { worker, outcome } ==> (s.awaits(worker) ==> exists|
        pkg: Pkg,
        answer: Result<String, RegistryError>,
    |
        pkg@ == s.workers[worker].busy->0 && outcome_view(answer) == outcome
            && #[trigger] registry.ensures((&pkg,), answer))
}

/// Whether the client `registry` may have given every answer of a run.
pub open spec fn answered_by<F: Fn(&Pkg) -> Result<String, RegistryError>>(
    start: EngineState,
    events: Seq<Event>,
    registry: F,
) -> bool
    decreases events.len(),
{
    events.len() > 0 ==> answered_by(start, events.drop_last(), registry) && answer_from(
        run(start, events.drop_last()),
        events.last(),
        registry,
    )
}

/// Whether the client `registry` answers as `model` says: whatever it
/// returns for a package is what `model` gives for the package's name.
pub open spec fn speaks_for<F: Fn(&Pkg) -> Result<String, RegistryError>>(
    model: Registry,
    registry: F,
) -> bool {
    forall|pkg: Pkg, answer: Result<String, RegistryError>| #[trigger]
        registry.ensures((&pkg,), answer) ==> outcome_view(answer) == model(pkg@.name)
}

/// What a whole run gives, as far as the events of the run decide it.
pub open spec fn run_result(
    start: EngineState,
    events: Seq<Event>,
    r: Result<Vec<PkgChange>, FetchError>,
) -> bool {
    let end = run(start, events);
    &&& end.failed() ==> r == Err::<Vec<PkgChange>, FetchError>(FetchError::FetchFailed)
    &&& !end.failed() ==> end.settled() && r is Ok && change_views(r->Ok_0@) == end.collected()
}

/// What a whole run gives against a registry that answers as `model` says:
/// it succeeds exactly when the model answers every lookup, it fails with
/// `FetchFailed` otherwise, and the changes of a run that succeeds are those
/// that the model gives for the lookups, in some order.
pub open spec fn fetched(
    lookups: Seq<PkgView>,
    model: Registry,
    r: Result<Vec<PkgChange>, FetchError>,
) -> bool {
    &&& r is Ok <==> forall|i: int|
        0 <= i < lookups.len() ==> model((#[trigger] lookups[i]).name) is Ok
    &&& r is Err ==> r == Err::<Vec<PkgChange>, FetchError>(FetchError::FetchFailed)
    &&& r matches Ok(changes) ==> change_views(changes@).to_multiset() == expected(
        lookups,
        model,
    ).to_multiset()
}

/// A client that speaks for a model gives runs that obey the model.
pub proof fn lemma_answers_obey<F: Fn(&Pkg) -> Result<String, RegistryError>>(
    start: EngineState,
    events: Seq<Event>,
    registry: F,
    model: Registry,
)
    requires
        answered_by(start, events, registry),
        speaks_for(model, registry),
    ensures
        run_obeys(start, events, model),
    decreases events.len(),
{
    if events.len() > 0 {
        lemma_answers_obey(start, events.drop_last(), registry, model);
        let s = run(start, events.drop_last());
        match events.last() {
            Event::Reply { worker, outcome } => {
                if s.awaits(worker) {
                    let (pkg, answer) = choose|pkg: Pkg, answer: Result<String, RegistryError>|
                        pkg@ == s.workers[worker].busy->0 && outcome_view(answer) == outcome
                            && #[trigger] registry.ensures((&pkg,), answer);
                    assert(outcome_view(answer) == model(pkg@.name));
                }
            },
            _ => {},
        }
    }
}

/// A run that obeys a registry fails only over a lookup that the registry
/// answers with an error.
pub proof fn lemma_failure_has_cause(
    lookups: Seq<PkgView>,
    workers: nat,
    events: Seq<Event>,
    registry: Registry,
)
    requires
        run_obeys(EngineState::start(lookups, workers), events, registry),
        run(EngineState::start(lookups, workers), events).failed(),
    ensures
        exists|i: int| 0 <= i < lookups.len() && registry((#[trigger] lookups[i]).name) is Err,
    decreases events.len(),
{
    let start = EngineState::start(lookups, workers);
    if events.len() == 0 {
        let w = choose|w: int| 0 <= w < start.workers.len() && (#[trigger] start.workers[w]).failed;
        assert(false);
    } else {
        let before = run(start, events.drop_last());
        let after = run(start, events);
        if before.failed() {
            lemma_failure_has_cause(lookups, workers, events.drop_last(), registry);
        } else {
            let w = choose|w: int|
                0 <= w < after.workers.len() && (#[trigger] after.workers[w]).failed;
            match events.last() {
                Event::Pop { worker } => {
                    assert(before.workers[w].failed);
                    assert(false);
                },
                Event::Reply { worker, outcome } => {
                    if before.awaits(worker) && w == worker {
                        lemma_run_within(lookups, workers, events.drop_last());
                        let pkg = before.workers[worker].busy->0;
                        assert(lookups.contains(pkg));
                        let i = choose|i: int| 0 <= i < lookups.len() && lookups[i] == pkg;
                        assert(registry(lookups[i].name) is Err);
                    } else {
                        assert(before.workers[w].failed);
                        assert(false);
                    }
                },
            }
        }
    }
}

/// Runs the fetch engine over `deps` with `concurrency` workers, asking
/// `registry` for the latest version of each lookup. The workers are served
/// in turn, one lookup each, until none of them gets a lookup any more.
///
/// Whatever `registry` answers, the result is that of some run of the engine
/// in which every answer came from `registry`. Where `registry` answers as a
/// model says, the run succeeds exactly when the model answers every lookup,
/// and the changes are those that the model gives, in some order.
pub fn fetch_changes<F: Fn(&Pkg) -> Result<String, RegistryError>>(
    deps: &Vec<Declared>,
    concurrency: usize,
    registry: F,
) -> (r: Result<Vec<PkgChange>, FetchError>)
    requires
        forall|pkg: Pkg| #[trigger]
            lookups(declared_views(deps@)).contains(pkg@) ==> registry.requires((&pkg,)),
    ensures
        concurrency == 0 ==> r == Err::<Vec<PkgChange>, FetchError>(
            FetchError::InvalidConcurrency,
        ),
        concurrency > 0 && !well_declared(declared_views(deps@)) ==> r == Err::<
            Vec<PkgChange>,
            FetchError,
        >(FetchError::InvalidVersionString),
        concurrency > 0 && well_declared(declared_views(deps@)) ==> exists|events: Seq<Event>|
            answered_by(
                EngineState::start(lookups(declared_views(deps@)), concurrency as nat),
                events,
                registry,
            ) && #[trigger] run_result(
                EngineState::start(lookups(declared_views(deps@)), concurrency as nat),
                events,
                r,
            ),
        forall|model: Registry|
            concurrency > 0 && well_declared(declared_views(deps@)) && #[trigger] speaks_for(
                model,
                registry,
            ) ==> fetched(lookups(declared_views(deps@)), model, r),
{
    let mut engine = match FetchEngine::new(deps, concurrency) {
        Ok(engine) => engine,
        Err(e) => {
            return Err(e);
        },
    };
    let ghost all = lookups(declared_views(deps@));
    let ghost start = engine@;
    let ghost mut events: Seq<Event> = Seq::empty();
    loop
        invariant
            concurrency > 0,
            well_declared(declared_views(deps@)),
            all == lookups(declared_views(deps@)),
            start == EngineState::start(all, concurrency as nat),
            engine@ == run(start, events),
            engine@.workers.len() == concurrency,
            answered_by(start, events, registry),
            forall|w: int| 0 <= w < concurrency ==> (#[trigger] engine@.workers[w]).busy is None,
            forall|pkg: Pkg| #[trigger] all.contains(pkg@) ==> registry.requires((&pkg,)),
        ensures
            !engine@.failed() ==> engine@.settled(),
        decreases engine@.queue.len(),
    {
        let ghost round = engine@;
        let mut served = false;
        let mut w: usize = 0;
        while w < concurrency
            invariant
                0 <= w <= concurrency,
                all == lookups(declared_views(deps@)),
                start == EngineState::start(all, concurrency as nat),
                engine@ == run(start, events),
                engine@.workers.len() == concurrency,
                answered_by(start, events, registry),
                forall|k: int|
                    0 <= k < concurrency ==> (#[trigger] engine@.workers[k]).busy is None,
                forall|pkg: Pkg| #[trigger] all.contains(pkg@) ==> registry.requires((&pkg,)),
                engine@.queue.len() <= round.queue.len(),
                served ==> engine@.queue.len() < round.queue.len(),
                !served ==> engine@ == round && forall|k: int|
                    0 <= k < w ==> !#[trigger] round.can_pop(k),
            decreases concurrency - w,
        {
            let ghost before = engine@;
            match engine.next_lookup(w) {
                Some(pkg) => {
                    let ghost popped = engine@;
                    proof {
                        lemma_run_within(all, concurrency as nat, events);
                        assert(all.contains(before.queue[before.queue.len() - 1]));
                    }
                    let answer = registry(&pkg);
                    let ghost outcome = outcome_view(answer);
                    engine.record(w, answer);
                    proof {
                        let pop = Event::Pop { worker: w as int };
                        let reply = Event::Reply { worker: w as int, outcome };
                        let longer = events.push(pop).push(reply);
                        assert(longer.drop_last() =~= events.push(pop));
                        assert(events.push(pop).drop_last() =~= events);
                        assert(run(start, events.push(pop)) == popped);
                        assert(run(start, longer) == engine@);
                        assert(answer_from(before, pop, registry));
                        assert(answered_by(start, events.push(pop), registry));
                        assert(answer_from(popped, reply, registry));
                        assert(answered_by(start, longer, registry));
                        events = longer;
                    }
                    served = true;
                },
                None => {},
            }
            w += 1;
        }
        if !served {
            proof {
                if !engine@.failed() {
                    assert(!round.can_pop(0));
                    assert(!engine@.workers[0].failed);
                    assert(engine@.settled());
                }
            }
            break;
        }
    }
    let r = engine.finish();
    proof {
        assert(run_result(start, events, r));
        assert forall|model: Registry| #[trigger] speaks_for(model, registry) implies fetched(
            all,
            model,
            r,
        ) by {
            lemma_answers_obey(start, events, registry, model);
            if engine@.failed() {
                lemma_failure_has_cause(all, concurrency as nat, events, model);
            } else {
                lemma_finished_run(all, concurrency as nat, events, model);
            }
        }
    }
    r
}

} // verus!
