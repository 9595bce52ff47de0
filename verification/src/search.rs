//! Best-first search over the states that a visitor generates.
//!
//! The frontier is expanded cheapest state first (lower accumulated cost, then lower identifier).
//! Every generated transition is recorded together with the index of the transition that led to
//! its source state, so the path to any state can be rebuilt by following these back links.
use vstd::prelude::*;

verus! {

/// A state of the search: the visitor's state with its identifier, the cost accumulated on the
/// way to it, its score, and the index of the recorded transition that produced it (`None` for
/// the initial state).
pub struct State<S> {
    pub id: i32,
    pub cost: i32,
    pub score: i32,
    pub state: S,
    pub transition: Option<usize>,
}

/// What the search asks of the problem it explores. Whether a state is final, and its score,
/// are properties of the state alone; what the other methods return, and how they change the
/// visitor, are functions of the visitor and their arguments.
pub trait Visitor<S, T>: Sized {
    /// Whether `state` ends a path of the search.
    spec fn spec_is_final(state: S) -> bool;

    /// The score of `state`; higher is better.
    spec fn spec_score(state: S) -> i32;

    /// The transitions that `visitor` offers from `state`, and the visitor afterwards.
    spec fn spec_transitions(visitor: Self, state: S) -> (Self, Vec<T>);

    /// The state that `transition` leads to from `state` at `iteration`, and the visitor
    /// afterwards.
    spec fn spec_apply(visitor: Self, iteration: usize, state: S, transition: T) -> (Self, S);

    /// The cost of going from `source` to `destination` by `transition`, and the visitor
    /// afterwards.
    spec fn spec_transition_cost(visitor: Self, source: S, destination: S, transition: T) -> (
        Self,
        i32,
    );

    fn is_final(&self, state: &S) -> (r: bool)
        ensures
            r == Self::spec_is_final(*state),
    ;

    fn get_transitions(&mut self, state: &S) -> (r: Vec<T>)
        ensures
            *final(self) == Self::spec_transitions(*old(self), *state).0,
            r@ == Self::spec_transitions(*old(self), *state).1@,
    ;

    fn apply(&mut self, iteration: usize, state: &S, transition: &T) -> (r: S)
        ensures
            (*final(self), r) == Self::spec_apply(*old(self), iteration, *state, *transition),
    ;

    fn get_transition_cost(&mut self, source_state: &S, destination_state: &S, transition: &T) -> (r:
        i32)
        ensures
            (*final(self), r) == Self::spec_transition_cost(
                *old(self),
                *source_state,
                *destination_state,
                *transition,
            ),
    ;

    fn get_score(&self, state: &S) -> (r: i32)
        ensures
            r == Self::spec_score(*state),
    ;
}

/// A value with an identifier.
pub trait Identifiable {
    /// The identifier.
    spec fn spec_id(&self) -> i32;

    fn id(&self) -> (r: i32)
        ensures
            r == self.spec_id(),
    ;
}

/// Whether `a` is expanded before `b`: lower cost first, then lower identifier.
pub open spec fn precedes<S>(a: State<S>, b: State<S>) -> bool {
    a.cost < b.cost || (a.cost == b.cost && a.id < b.id)
}

/// The transitions on the path that ends with the recorded transition `k`, in the order in which
/// they were taken.
pub open spec fn chain<T>(ts: Seq<(Option<usize>, T)>, k: int) -> Seq<T>
    decreases k,
{
    if 0 <= k < ts.len() {
        match ts[k].0 {
            Some(p) => if p < k {
                chain(ts, p as int).push(ts[k].1)
            } else {
                seq![ts[k].1]
            },
            None => seq![ts[k].1],
        }
    } else {
        Seq::empty()
    }
}

/// Every back link points to an earlier record.
pub open spec fn links_backward<T>(ts: Seq<(Option<usize>, T)>) -> bool {
    forall|k: int|
        0 <= k < ts.len() ==> match (#[trigger] ts[k]).0 {
            Some(p) => p < k,
            None => true,
        }
}

/// The transitions that lead to `state`: none for a state without a recorded transition.
pub open spec fn path_to<S, T>(ts: Seq<(Option<usize>, T)>, state: Option<State<S>>) -> Seq<T> {
    match state {
        Some(s) => match s.transition {
            Some(k) => chain(ts, k as int),
            None => Seq::empty(),
        },
        None => Seq::empty(),
    }
}

/// The position of the frontier entry that is expanded next: the first entry whose (cost,
/// identifier) pair is least.
pub open spec fn cheapest<S>(frontier: Seq<State<S>>) -> int
    decreases frontier.len(),
{
    if frontier.len() <= 1 {
        0
    } else {
        let k = cheapest(frontier.drop_last());
        if precedes(frontier.last(), frontier[k]) {
            frontier.len() - 1
        } else {
            k
        }
    }
}

/// The entry that `cheapest` picks is in the frontier, no entry precedes it, and every entry
/// before it comes strictly after it.
pub proof fn lemma_cheapest<S>(frontier: Seq<State<S>>)
    requires
        frontier.len() > 0,
    ensures
        0 <= cheapest(frontier) < frontier.len(),
        forall|j: int|
            0 <= j < frontier.len() ==> !precedes(#[trigger] frontier[j], frontier[cheapest(frontier)]),
        forall|j: int|
            0 <= j < cheapest(frontier) ==> precedes(frontier[cheapest(frontier)], #[trigger] frontier[j]),
    decreases frontier.len(),
{
    if frontier.len() > 1 {
        let init = frontier.drop_last();
        lemma_cheapest(init);
        assert forall|j: int| 0 <= j < init.len() implies init[j] == frontier[j] by {}
    }
}

/// The entry expanded next has the least cost in the frontier, and among entries of that cost
/// the least identifier.
pub proof fn lemma_cheapest_least_cost<S>(frontier: Seq<State<S>>)
    requires
        frontier.len() > 0,
    ensures
        0 <= cheapest(frontier) < frontier.len(),
        forall|j: int|
            0 <= j < frontier.len() ==> frontier[cheapest(frontier)].cost < (#[trigger] frontier[j]).cost
                || (frontier[cheapest(frontier)].cost == frontier[j].cost && frontier[cheapest(
                frontier,
            )].id <= frontier[j].id),
{
    lemma_cheapest(frontier);
}

/// The search part-way through: the visitor, the frontier, the record of transitions (each
/// with the position of the record that led to its source state), the states taken from the
/// frontier so far in the order they were taken, the number of states expanded, and whether
/// the search has stopped.
#[verifier::ext_equal]
pub struct SearchRun<V, S, T> {
    pub visitor: V,
    pub frontier: Seq<State<S>>,
    pub record: Seq<(Option<usize>, T)>,
    pub examined: Seq<State<S>>,
    pub iterations: usize,
    pub stopped: bool,
}

/// The search before its first step: only the initial state, at no cost, in the frontier.
pub open spec fn initial_run<S: Identifiable, T, V: Visitor<S, T>>(visitor: V, initial: S) -> SearchRun<
    V,
    S,
    T,
> {
    SearchRun {
        visitor,
        frontier: seq![
            State {
                id: initial.spec_id(),
                cost: 0,
                score: V::spec_score(initial),
                state: initial,
                transition: None,
            },
        ],
        record: Seq::empty(),
        examined: Seq::empty(),
        iterations: 0,
        stopped: false,
    }
}

/// Expanding `parent` by the transitions `ts`, in order: each one is applied, its cost taken,
/// the state reached joins the frontier at the parent's cost plus that cost (with wrapping),
/// and the transition is recorded with the parent's record position.
pub open spec fn expand<S: Identifiable, T, V: Visitor<S, T>>(
    run: SearchRun<V, S, T>,
    parent: State<S>,
    ts: Seq<T>,
) -> SearchRun<V, S, T>
    decreases ts.len(),
{
    if ts.len() == 0 {
        run
    } else {
        let t = ts[0];
        let (v1, next) = V::spec_apply(run.visitor, run.iterations, parent.state, t);
        let (v2, c) = V::spec_transition_cost(v1, parent.state, next, t);
        let entry = State {
            id: next.spec_id(),
            cost: parent.cost.wrapping_add(c),
            score: V::spec_score(next),
            state: next,
            transition: Some(run.record.len() as usize),
        };
        expand(
            SearchRun {
                visitor: v2,
                frontier: run.frontier.push(entry),
                record: run.record.push((parent.transition, t)),
                examined: run.examined,
                iterations: run.iterations,
                stopped: run.stopped,
            },
            parent,
            ts.drop_first(),
        )
    }
}

/// One step of the search: stop on an empty frontier; else take the cheapest entry out and
/// examine it; stop there if `max_iterations` states were already expanded, else expand it by
/// the transitions that the visitor offers.
pub open spec fn search_step<S: Identifiable, T, V: Visitor<S, T>>(
    run: SearchRun<V, S, T>,
    max_iterations: usize,
) -> SearchRun<V, S, T> {
    if run.stopped {
        run
    } else if run.frontier.len() == 0 {
        SearchRun { stopped: true, ..run }
    } else {
        let k = cheapest(run.frontier);
        let taken = run.frontier[k];
        let rest = run.frontier.remove(k);
        let examined = run.examined.push(taken);
        if run.iterations >= max_iterations {
            SearchRun { frontier: rest, examined, stopped: true, ..run }
        } else {
            let (v1, ts) = V::spec_transitions(run.visitor, taken.state);
            expand(
                SearchRun {
                    visitor: v1,
                    frontier: rest,
                    record: run.record,
                    examined,
                    iterations: (run.iterations + 1) as usize,
                    stopped: false,
                },
                taken,
                ts@,
            )
        }
    }
}

/// `fuel` steps of the search.
pub open spec fn search_run<S: Identifiable, T, V: Visitor<S, T>>(
    run: SearchRun<V, S, T>,
    max_iterations: usize,
    fuel: nat,
) -> SearchRun<V, S, T>
    decreases fuel,
{
    if fuel == 0 {
        run
    } else {
        search_run(search_step(run, max_iterations), max_iterations, (fuel - 1) as nat)
    }
}

/// The whole search from `initial`: at most `max_iterations` expansions and one more step to
/// stop, so `max_iterations + 1` steps.
pub open spec fn search_from<S: Identifiable, T, V: Visitor<S, T>>(
    visitor: V,
    initial: S,
    max_iterations: usize,
) -> SearchRun<V, S, T> {
    search_run(initial_run(visitor, initial), max_iterations, (max_iterations + 1) as nat)
}

/// Among the examined states that are final, the first one with the highest score; `None`
/// when none is final.
pub open spec fn best_final<S, T, V: Visitor<S, T>>(examined: Seq<State<S>>) -> Option<State<S>>
    decreases examined.len(),
{
    if examined.len() == 0 {
        None
    } else {
        let best = best_final::<S, T, V>(examined.drop_last());
        let e = examined.last();
        if V::spec_is_final(e.state) && (best matches Some(b) ==> b.score < e.score) {
            Some(e)
        } else {
            best
        }
    }
}

/// `best_final` is `None` exactly when no examined state is final; otherwise it is an examined
/// final state, no final state scores more, and every final state examined before it scores
/// less.
pub proof fn lemma_best_final<S, T, V: Visitor<S, T>>(examined: Seq<State<S>>)
    ensures
        best_final::<S, T, V>(examined) is None <==> forall|j: int|
            0 <= j < examined.len() ==> !V::spec_is_final(#[trigger] examined[j].state),
        best_final::<S, T, V>(examined) matches Some(b) ==> exists|i: int|
            {
                &&& 0 <= i < examined.len()
                &&& #[trigger] examined[i] == b
                &&& V::spec_is_final(b.state)
                &&& forall|j: int|
                    0 <= j < examined.len() && V::spec_is_final(#[trigger] examined[j].state)
                        ==> examined[j].score <= b.score
                &&& forall|j: int|
                    0 <= j < i && V::spec_is_final(#[trigger] examined[j].state) ==> examined[j].score
                        < b.score
            },
    decreases examined.len(),
{
    if examined.len() > 0 {
        let init = examined.drop_last();
        lemma_best_final::<S, T, V>(init);
        assert forall|j: int| 0 <= j < init.len() implies init[j] == examined[j] by {}
        let best = best_final::<S, T, V>(init);
        let e = examined.last();
        if V::spec_is_final(e.state) && (best matches Some(b) ==> b.score < e.score) {
            let i = examined.len() - 1;
            assert(examined[i] == e);
            if best is Some {
                let b = best->0;
                let i0 = choose|i0: int|
                    {
                        &&& 0 <= i0 < init.len()
                        &&& #[trigger] init[i0] == b
                        &&& V::spec_is_final(b.state)
                        &&& forall|j: int|
                            0 <= j < init.len() && V::spec_is_final(#[trigger] init[j].state)
                                ==> init[j].score <= b.score
                        &&& forall|j: int|
                            0 <= j < i0 && V::spec_is_final(#[trigger] init[j].state)
                                ==> init[j].score < b.score
                    };
                assert forall|j: int|
                    0 <= j < i && V::spec_is_final(#[trigger] examined[j].state) implies examined[j].score
                    < e.score by {
                    assert(init[j] == examined[j]);
                }
            } else {
                assert forall|j: int|
                    0 <= j < i && V::spec_is_final(#[trigger] examined[j].state) implies examined[j].score
                    < e.score by {
                    assert(init[j] == examined[j]);
                }
            }
        } else if best is Some {
            let b = best->0;
            let i0 = choose|i0: int|
                {
                    &&& 0 <= i0 < init.len()
                    &&& #[trigger] init[i0] == b
                    &&& V::spec_is_final(b.state)
                    &&& forall|j: int|
                        0 <= j < init.len() && V::spec_is_final(#[trigger] init[j].state)
                            ==> init[j].score <= b.score
                    &&& forall|j: int|
                        0 <= j < i0 && V::spec_is_final(#[trigger] init[j].state) ==> init[j].score
                            < b.score
                };
            assert(examined[i0] == b);
            assert forall|j: int|
                0 <= j < examined.len() && V::spec_is_final(#[trigger] examined[j].state) implies examined[j].score
                <= b.score by {
                if j < init.len() {
                    assert(init[j] == examined[j]);
                }
            }
            assert forall|j: int|
                0 <= j < i0 && V::spec_is_final(#[trigger] examined[j].state) implies examined[j].score
                < b.score by {
                assert(init[j] == examined[j]);
            }
        } else {
            assert forall|j: int| 0 <= j < examined.len() implies !V::spec_is_final(
                #[trigger] examined[j].state,
            ) by {
                if j < init.len() {
                    assert(init[j] == examined[j]);
                }
            }
        }
    }
}

/// Each step of a running search with entries left takes out and examines an entry of the
/// least cost in the frontier, and of the least identifier among those of that cost; the other
/// entries stay in the frontier.
pub proof fn lemma_step_takes_cheapest<S: Identifiable, T, V: Visitor<S, T>>(
    run: SearchRun<V, S, T>,
    max_iterations: usize,
)
    requires
        !run.stopped,
        run.frontier.len() > 0,
    ensures
        ({
            let next = search_step(run, max_iterations);
            let taken = next.examined.last();
            &&& next.examined.len() == run.examined.len() + 1
            &&& next.examined.drop_last() == run.examined
            &&& run.frontier.contains(taken)
            &&& forall|j: int|
                0 <= j < run.frontier.len() ==> taken.cost < (#[trigger] run.frontier[j]).cost || (
                taken.cost == run.frontier[j].cost && taken.id <= run.frontier[j].id)
        }),
{
    lemma_cheapest(run.frontier);
    let k = cheapest(run.frontier);
    let taken = run.frontier[k];
    let examined = run.examined.push(taken);
    assert(examined.drop_last() =~= run.examined);
    if run.iterations < max_iterations {
        let (v1, ts) = V::spec_transitions(run.visitor, taken.state);
        let mid = SearchRun {
            visitor: v1,
            frontier: run.frontier.remove(k),
            record: run.record,
            examined,
            iterations: (run.iterations + 1) as usize,
            stopped: false,
        };
        lemma_expand_keeps_examined(mid, taken, ts@);
    }
}

/// Expanding a state leaves the examined states as they are.
proof fn lemma_expand_keeps_examined<S: Identifiable, T, V: Visitor<S, T>>(
    run: SearchRun<V, S, T>,
    parent: State<S>,
    ts: Seq<T>,
)
    ensures
        expand(run, parent, ts).examined == run.examined,
    decreases ts.len(),
{
    if ts.len() > 0 {
        let t = ts[0];
        let (v1, next) = V::spec_apply(run.visitor, run.iterations, parent.state, t);
        let (v2, c) = V::spec_transition_cost(v1, parent.state, next, t);
        let entry = State {
            id: next.spec_id(),
            cost: parent.cost.wrapping_add(c),
            score: V::spec_score(next),
            state: next,
            transition: Some(run.record.len() as usize),
        };
        lemma_expand_keeps_examined(
            SearchRun {
                visitor: v2,
                frontier: run.frontier.push(entry),
                record: run.record.push((parent.transition, t)),
                examined: run.examined,
                iterations: run.iterations,
                stopped: run.stopped,
            },
            parent,
            ts.drop_first(),
        );
    }
}

/// A search that has stopped stays as it is.
proof fn lemma_stopped_run<S: Identifiable, T, V: Visitor<S, T>>(
    run: SearchRun<V, S, T>,
    max_iterations: usize,
    fuel: nat,
)
    requires
        run.stopped,
    ensures
        search_run(run, max_iterations, fuel) == run,
    decreases fuel,
{
    if fuel > 0 {
        lemma_stopped_run(search_step(run, max_iterations), max_iterations, (fuel - 1) as nat);
    }
}

/// The position of the frontier entry to expand next: the first entry of least (cost,
/// identifier).
fn first_index<S>(frontier: &Vec<State<S>>) -> (k: usize)
    requires
        frontier@.len() > 0,
    ensures
        k == cheapest(frontier@),
        k < frontier@.len(),
        forall|j: int|
            0 <= j < frontier@.len() ==> frontier@[k as int].cost < (#[trigger] frontier@[j]).cost || (
            frontier@[k as int].cost == frontier@[j].cost && frontier@[k as int].id <= frontier@[j].id),
        forall|j: int| 0 <= j < frontier@.len() ==> !precedes(#[trigger] frontier@[j], frontier@[k as int]),
{
    let mut best: usize = 0;
    let mut i: usize = 1;
    while i < frontier.len()
        invariant
            0 < i <= frontier@.len(),
            best < i,
            best == cheapest(frontier@.take(i as int)),
            forall|j: int| 0 <= j < i ==> !precedes(#[trigger] frontier@[j], frontier@[best as int]),
        decreases frontier@.len() - i,
    {
        proof {
            let t = frontier@.take(i + 1);
            assert(t.drop_last() =~= frontier@.take(i as int));
            assert(t.last() == frontier@[i as int]);
            assert(t[best as int] == frontier@[best as int]);
        }
        let a = &frontier[i];
        let b = &frontier[best];
        if a.cost < b.cost || (a.cost == b.cost && a.id < b.id) {
            best = i;
        }
        i = i + 1;
    }
    proof {
        assert(frontier@.take(i as int) =~= frontier@);
    }
    best
}

/// The transitions on the path to `final_state`, cloned, first one first; none when there is no
/// final state or it is the initial state.
pub fn reconstruct_sequence<S, T: Clone>(
    transitions: &Vec<(Option<usize>, T)>,
    final_state: &Option<State<S>>,
) -> (r: Vec<T>)
    requires
        links_backward(transitions@),
        final_state matches Some(s) ==> (s.transition matches Some(k) ==> k < transitions@.len()),
    ensures
        r@.len() == path_to(transitions@, *final_state).len(),
        forall|i: int|
            0 <= i < r@.len() ==> cloned(path_to(transitions@, *final_state)[i], #[trigger] r@[i]),
{
    let start = match final_state {
        None => {
            return Vec::new();
        },
        Some(s) => match s.transition {
            None => {
                return Vec::new();
            },
            Some(k) => k,
        },
    };
    let ghost ts = transitions@;
    let ghost whole = chain(ts, start as int);
    let mut current = start;
    let mut backwards: Vec<T> = Vec::new();
    loop
        invariant_except_break
            whole.len() == chain(ts, current as int).len() + backwards@.len(),
            forall|i: int|
                0 <= i < chain(ts, current as int).len() ==> whole[i] == #[trigger] chain(
                    ts,
                    current as int,
                )[i],
        invariant
            ts == transitions@,
            links_backward(ts),
            current < ts.len(),
            whole == chain(ts, start as int),
            forall|i: int|
                0 <= i < backwards@.len() ==> cloned(
                    whole[whole.len() - 1 - i],
                    #[trigger] backwards@[i],
                ),
        ensures
            whole.len() == backwards@.len(),
        decreases current,
    {
        let entry = &transitions[current];
        let prev = entry.0;
        let t = entry.1.clone();
        let ghost here = chain(ts, current as int);
        proof {
            assert(ts[current as int] == *entry);
            assert(here.len() > 0);
            assert(here[here.len() - 1] == entry.1);
            assert(whole[here.len() - 1] == entry.1);
        }
        backwards.push(t);
        match prev {
            Some(p) => {
                proof {
                    assert(p < current);
                    assert(here == chain(ts, p as int).push(entry.1));
                    assert forall|i: int| 0 <= i < chain(ts, p as int).len() implies whole[i]
                        == #[trigger] chain(ts, p as int)[i] by {
                        assert(here[i] == chain(ts, p as int)[i]);
                    }
                }
                current = p;
            },
            None => {
                proof {
                    assert(here == seq![entry.1]);
                }
                break ;
            },
        }
    }
    let mut result: Vec<T> = Vec::new();
    let ghost n = backwards@.len();
    while backwards.len() > 0
        invariant
            n == whole.len(),
            backwards@.len() + result@.len() == n,
            forall|i: int|
                0 <= i < backwards@.len() ==> cloned(
                    whole[whole.len() - 1 - i],
                    #[trigger] backwards@[i],
                ),
            forall|i: int| 0 <= i < result@.len() ==> cloned(whole[i], #[trigger] result@[i]),
        decreases backwards@.len(),
    {
        let ghost last = backwards@.len() - 1;
        let t = backwards.pop().unwrap();
        proof {
            assert(cloned(whole[whole.len() - 1 - last], t));
        }
        result.push(t);
    }
    result
}

/// The number of transitions on the path that ends with the optional record `t`.
pub open spec fn path_len(t: Option<usize>, depth: Seq<nat>) -> nat {
    match t {
        Some(k) => depth[k as int],
        None => 0,
    }
}

/// `depth` gives, for each record, the number of transitions on the path that it ends.
pub open spec fn depths_ok<T>(ts: Seq<(Option<usize>, T)>, depth: Seq<nat>) -> bool {
    &&& depth.len() == ts.len()
    &&& links_backward(ts)
    &&& forall|k: int|
        0 <= k < ts.len() ==> #[trigger] depth[k] == match ts[k].0 {
            Some(p) => depth[p as int] + 1,
            None => 1,
        }
}

/// A state whose record exists and whose path is no longer than `bound`.
pub open spec fn state_ok<S>(s: State<S>, tlen: nat, depth: Seq<nat>, bound: nat) -> bool {
    &&& s.transition matches Some(k) ==> k < tlen
    &&& path_len(s.transition, depth) <= bound
}

proof fn lemma_chain_len<T>(ts: Seq<(Option<usize>, T)>, depth: Seq<nat>, k: int)
    requires
        depths_ok(ts, depth),
        0 <= k < ts.len(),
    ensures
        chain(ts, k).len() == depth[k],
    decreases k,
{
    assert(depth[k] == match ts[k].0 {
        Some(p) => depth[p as int] + 1,
        None => 1,
    });
    match ts[k].0 {
        Some(p) => {
            assert(p < k);
            lemma_chain_len(ts, depth, p as int);
        },
        None => {},
    }
}

/// Searches from `initial`: states are expanded cheapest first, at most `max_iterations` of them;
/// among the states taken from the frontier that the visitor calls final, the first one with the
/// highest score is the answer.
pub struct Search {
    pub max_iterations: usize,
}

impl Search {
    /// The search of `search_from`: the transitions that lead to the best final state among
    /// those examined (cloned, first one first), that state, and the number of states expanded;
    /// the visitor ends as the search leaves it.
    pub fn perform<S: Identifiable, T: Clone, V: Visitor<S, T>>(&self, initial: S, visitor: &mut V) -> (r: (
        Vec<T>,
        Option<S>,
        usize,
    ))
        ensures
            ({
                let run = search_from::<S, T, V>(*old(visitor), initial, self.max_iterations);
                let best = best_final::<S, T, V>(run.examined);
                &&& run.stopped
                &&& *final(visitor) == run.visitor
                &&& r.2 == run.iterations
                &&& r.1 == (match best {
                    Some(b) => Some(b.state),
                    None => None,
                })
                &&& r.0@.len() == path_to(run.record, best).len()
                &&& forall|i: int|
                    0 <= i < r.0@.len() ==> cloned(path_to(run.record, best)[i], #[trigger] r.0@[i])
            }),
            self.max_iterations == 0 ==> *final(visitor) == *old(visitor),
            r.2 <= self.max_iterations,
            r.1 is None ==> r.0@.len() == 0,
            r.0@.len() <= r.2,
    {
        let ghost v0 = *visitor;
        let ghost init = initial;
        let ghost goal = search_from::<S, T, V>(v0, init, self.max_iterations);
        let mut iterations: usize = 0;
        let mut transitions: Vec<(Option<usize>, T)> = Vec::new();
        let mut frontier: Vec<State<S>> = Vec::new();
        let initial_id = initial.id();
        let initial_score = visitor.get_score(&initial);
        frontier.push(State { id: initial_id, cost: 0, score: initial_score, state: initial, transition: None });
        let mut optimal_final_state: Option<State<S>> = None;
        let ghost mut depth: Seq<nat> = Seq::empty();
        let ghost mut examined: Seq<State<S>> = Seq::empty();
        proof {
            let start = initial_run::<S, T, V>(v0, init);
            assert(frontier@ =~= start.frontier);
            assert(transitions@ =~= start.record);
            assert(examined =~= start.examined);
        }
        loop
            invariant_except_break
                search_run(
                    SearchRun {
                        visitor: *visitor,
                        frontier: frontier@,
                        record: transitions@,
                        examined,
                        iterations,
                        stopped: false,
                    },
                    self.max_iterations,
                    (self.max_iterations + 1 - iterations) as nat,
                ) == goal,
            invariant
                goal == search_from::<S, T, V>(v0, init, self.max_iterations),
                iterations <= self.max_iterations,
                iterations == 0 ==> *visitor == v0,
                optimal_final_state == best_final::<S, T, V>(examined),
                depths_ok(transitions@, depth),
                forall|i: int|
                    0 <= i < frontier@.len() ==> state_ok(
                        #[trigger] frontier@[i],
                        transitions@.len(),
                        depth,
                        iterations as nat,
                    ),
                optimal_final_state matches Some(o) ==> state_ok(
                    o,
                    transitions@.len(),
                    depth,
                    iterations as nat,
                ),
            ensures
                goal == (SearchRun {
                    visitor: *visitor,
                    frontier: frontier@,
                    record: transitions@,
                    examined,
                    iterations,
                    stopped: true,
                }),
            decreases self.max_iterations - iterations,
        {
            let ghost cur = SearchRun {
                visitor: *visitor,
                frontier: frontier@,
                record: transitions@,
                examined,
                iterations,
                stopped: false,
            };
            let ghost fuel = (self.max_iterations + 1 - iterations) as nat;
            proof {
                assert(search_run(cur, self.max_iterations, fuel) == search_run(
                    search_step(cur, self.max_iterations),
                    self.max_iterations,
                    (fuel - 1) as nat,
                ));
            }
            if frontier.len() == 0 {
                proof {
                    let stop = search_step(cur, self.max_iterations);
                    lemma_stopped_run(stop, self.max_iterations, (fuel - 1) as nat);
                    assert(stop == (SearchRun { stopped: true, ..cur }));
                }
                break ;
            }
            let k = first_index(&frontier);
            let ghost before = frontier@;
            let state = frontier.remove(k);
            proof {
                assert(state == before[k as int]);
                assert(state_ok(state, transitions@.len(), depth, iterations as nat));
                assert forall|i: int| 0 <= i < frontier@.len() implies state_ok(
                    #[trigger] frontier@[i],
                    transitions@.len(),
                    depth,
                    iterations as nat,
                ) by {
                    if i < k {
                        assert(frontier@[i] == before[i]);
                    } else {
                        assert(frontier@[i] == before[i + 1]);
                    }
                }
                examined = examined.push(state);
                assert(examined.drop_last() =~= cur.examined);
            }
            let better_score = match &optimal_final_state {
                None => true,
                Some(o) => o.score < state.score,
            };
            let better = better_score && visitor.is_final(&state.state);
            let ghost new_best = best_final::<S, T, V>(examined);
            proof {
                assert(new_best == (if better {
                    Some(state)
                } else {
                    optimal_final_state
                }));
            }
            if iterations >= self.max_iterations {
                if better {
                    optimal_final_state = Some(state);
                }
                proof {
                    let stop = search_step(cur, self.max_iterations);
                    lemma_stopped_run(stop, self.max_iterations, (fuel - 1) as nat);
                    assert(stop == (SearchRun {
                        visitor: *visitor,
                        frontier: frontier@,
                        record: transitions@,
                        examined,
                        iterations,
                        stopped: true,
                    }));
                }
                break ;
            }
            iterations = iterations + 1;
            let ghost v_before = *visitor;
            let mut next = visitor.get_transitions(&state.state);
            let ghost ts_all = next@;
            let ghost mid = SearchRun {
                visitor: *visitor,
                frontier: frontier@,
                record: transitions@,
                examined,
                iterations,
                stopped: false,
            };
            proof {
                assert(ts_all == V::spec_transitions(v_before, state.state).1@);
                assert(search_step(cur, self.max_iterations) == expand(mid, state, ts_all));
            }
            let ghost examined_now = examined;
            while next.len() > 0
                invariant
                    1 <= iterations <= self.max_iterations,
                    examined == examined_now,
                    new_best == best_final::<S, T, V>(examined),
                    new_best == (if better {
                        Some(state)
                    } else {
                        optimal_final_state
                    }),
                    expand(
                        SearchRun {
                            visitor: *visitor,
                            frontier: frontier@,
                            record: transitions@,
                            examined,
                            iterations,
                            stopped: false,
                        },
                        state,
                        next@,
                    ) == expand(mid, state, ts_all),
                    depths_ok(transitions@, depth),
                    state_ok(state, transitions@.len(), depth, (iterations - 1) as nat),
                    forall|i: int|
                        0 <= i < frontier@.len() ==> state_ok(
                            #[trigger] frontier@[i],
                            transitions@.len(),
                            depth,
                            iterations as nat,
                        ),
                    optimal_final_state matches Some(o) ==> state_ok(
                        o,
                        transitions@.len(),
                        depth,
                        iterations as nat,
                    ),
                decreases next@.len(),
            {
                let ghost here = SearchRun {
                    visitor: *visitor,
                    frontier: frontier@,
                    record: transitions@,
                    examined,
                    iterations,
                    stopped: false,
                };
                let ghost ts_here = next@;
                let transition = next.remove(0);
                let ghost v1 = *visitor;
                let next_state = visitor.apply(iterations, &state.state, &transition);
                let next_id = next_state.id();
                let step_cost = visitor.get_transition_cost(&state.state, &next_state, &transition);
                let next_score = visitor.get_score(&next_state);
                let index = transitions.len();
                let ghost d = path_len(state.transition, depth) + 1;
                let ghost old_frontier = frontier@;
                let ghost old_record = transitions@;
                frontier.push(
                    State {
                        id: next_id,
                        cost: state.cost.wrapping_add(step_cost),
                        score: next_score,
                        state: next_state,
                        transition: Some(index),
                    },
                );
                transitions.push((state.transition, transition));
                proof {
                    assert(transition == ts_here[0]);
                    assert(next@ =~= ts_here.drop_first());
                    let t = ts_here[0];
                    let (va, ns) = V::spec_apply(v1, iterations, state.state, t);
                    let (vb, c) = V::spec_transition_cost(va, state.state, ns, t);
                    let entry = State {
                        id: ns.spec_id(),
                        cost: state.cost.wrapping_add(c),
                        score: V::spec_score(ns),
                        state: ns,
                        transition: Some(here.record.len() as usize),
                    };
                    assert(frontier@ =~= old_frontier.push(entry));
                    assert(transitions@ =~= old_record.push((state.transition, t)));
                    assert(expand(here, state, ts_here) == expand(
                        SearchRun {
                            visitor: vb,
                            frontier: old_frontier.push(entry),
                            record: old_record.push((state.transition, t)),
                            examined,
                            iterations,
                            stopped: false,
                        },
                        state,
                        ts_here.drop_first(),
                    ));
                }
                proof {
                    let old_depth = depth;
                    depth = depth.push(d);
                    let ts = transitions@;
                    assert forall|j: int| 0 <= j < ts.len() implies match (#[trigger] ts[j]).0 {
                        Some(p) => p < j,
                        None => true,
                    } by {
                        if j < index {
                            assert(ts[j] == ts.drop_last()[j]);
                        }
                    }
                    assert forall|j: int| 0 <= j < ts.len() implies #[trigger] depth[j] == match ts[j].0 {
                        Some(p) => depth[p as int] + 1,
                        None => 1,
                    } by {
                        if j < index {
                            assert(ts[j] == ts.drop_last()[j]);
                            assert(depth[j] == old_depth[j]);
                            match ts[j].0 {
                                Some(p) => {
                                    assert(p < j);
                                    assert(depth[p as int] == old_depth[p as int]);
                                },
                                None => {},
                            }
                        }
                    }
                    assert forall|i: int| 0 <= i < frontier@.len() implies state_ok(
                        #[trigger] frontier@[i],
                        transitions@.len(),
                        depth,
                        iterations as nat,
                    ) by {
                        let f = frontier@[i];
                        if i == frontier@.len() - 1 {
                            assert(f.transition == Some(index));
                            assert(depth[index as int] == d);
                        } else {
                            assert(f == old_frontier[i]);
                            assert(state_ok(old_frontier[i], index as nat, old_depth, iterations as nat));
                            match f.transition {
                                Some(m) => {
                                    assert(depth[m as int] == old_depth[m as int]);
                                },
                                None => {},
                            }
                        }
                    }
                    if optimal_final_state is Some && optimal_final_state->0.transition is Some {
                        let m = optimal_final_state->0.transition->0;
                        assert(depth[m as int] == old_depth[m as int]);
                    }
                    if state.transition is Some {
                        let m = state.transition->0;
                        assert(depth[m as int] == old_depth[m as int]);
                    }
                }
            }
            proof {
                assert(expand(
                    SearchRun {
                        visitor: *visitor,
                        frontier: frontier@,
                        record: transitions@,
                        examined,
                        iterations,
                        stopped: false,
                    },
                    state,
                    next@,
                ) == SearchRun {
                    visitor: *visitor,
                    frontier: frontier@,
                    record: transitions@,
                    examined,
                    iterations,
                    stopped: false,
                });
            }
            if better {
                optimal_final_state = Some(state);
            }
        }
        let sequence = reconstruct_sequence(&transitions, &optimal_final_state);
        proof {
            if optimal_final_state is Some && optimal_final_state->0.transition is Some {
                lemma_chain_len(transitions@, depth, optimal_final_state->0.transition->0 as int);
            }
        }
        let result_state = match optimal_final_state {
            Some(v) => Some(v.state),
            None => None,
        };
        (sequence, result_state, iterations)
    }
}

} // verus!
