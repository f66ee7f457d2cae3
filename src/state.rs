//! The per-node state of a graph: built once by the backend's initializers,
//! then moved by the gradients of each training step.
use crate::accumulate::{plus_all, AccumulateTensors};
use crate::backend::{Backend, Error, TensorData};
use crate::graph::{Graph, Op};
use crate::tape::shaped;
use vstd::prelude::*;

verus! {

/// The state of the random source after the initializers of `ops` drew
/// from it in turn, starting in state `rng`.
pub open spec fn rng_through<B: Backend>(b: B, ops: Seq<Op>, rng: B::Rng) -> B::Rng
    decreases ops.len(),
{
    if ops.len() == 0 {
        rng
    } else {
        b.rng_after(ops.last(), rng_through(b, ops.drop_last(), rng))
    }
}

/// The states that the initializers give `ops`, in order, drawing in turn
/// from a random source that starts in state `rng`.
pub open spec fn initial_states<B: Backend>(b: B, ops: Seq<Op>, rng: B::Rng) -> Seq<
    Seq<B::Tensor>,
>
    decreases ops.len(),
{
    if ops.len() == 0 {
        Seq::empty()
    } else {
        initial_states(b, ops.drop_last(), rng).push(
            b.initial_value(ops.last(), rng_through(b, ops.drop_last(), rng)),
        )
    }
}

/// There is one initial state per node.
proof fn lemma_initial_states_len<B: Backend>(b: B, ops: Seq<Op>, rng: B::Rng)
    ensures
        initial_states(b, ops, rng).len() == ops.len(),
    decreases ops.len(),
{
    if ops.len() > 0 {
        lemma_initial_states_len(b, ops.drop_last(), rng);
    }
}

/// Builds the state of every node, in node order, drawing from `rng`.
/// Fails at the first node whose kind has no initializer.
pub fn generate_state<B: Backend>(backend: &B, graph: &Graph, rng: &mut B::Rng) -> (r: Result<
    Vec<Vec<B::Tensor>>,
    Error,
>)
    ensures
        match r {
            Ok(s) => {
                &&& s@.len() == graph.ops@.len()
                &&& forall|i: int|
                    0 <= i < graph.ops@.len() ==> backend.handles(#[trigger] graph.ops@[i].kind())
                &&& forall|i: int|
                    0 <= i < s@.len() ==> #[trigger] s@[i]@ == initial_states(
                        *backend,
                        graph.ops@,
                        *old(rng),
                    )[i]
                &&& *final(rng) == rng_through(*backend, graph.ops@, *old(rng))
            },
            Err(e) => exists|i: int|
                0 <= i < graph.ops@.len() && !backend.handles(#[trigger] graph.ops@[i].kind()) && e
                    == Error::OpHasNoHandler { ty: graph.ops@[i].kind() } && forall|j: int|
                    0 <= j < i ==> backend.handles(#[trigger] graph.ops@[j].kind()),
        },
{
    let ghost rng0 = *rng;
    let mut states: Vec<Vec<B::Tensor>> = Vec::new();
    let mut i: usize = 0;
    while i < graph.ops.len()
        invariant
            i <= graph.ops@.len(),
            states@.len() == i,
            forall|j: int| 0 <= j < i ==> backend.handles(#[trigger] graph.ops@[j].kind()),
            *rng == rng_through(*backend, graph.ops@.subrange(0, i as int), rng0),
            forall|j: int|
                0 <= j < i ==> #[trigger] states@[j]@ == initial_states(
                    *backend,
                    graph.ops@.subrange(0, i as int),
                    rng0,
                )[j],
        decreases graph.ops@.len() - i,
    {
        let ghost prefix = graph.ops@.subrange(0, i as int);
        let ghost next = graph.ops@.subrange(0, i + 1);
        assert(next.drop_last() =~= prefix);
        assert(next.last() == graph.ops@[i as int]);
        proof {
            lemma_initial_states_len(*backend, prefix, rng0);
        }
        let ghost done = states@;
        match backend.init_state(&graph.ops[i], rng) {
            Some(s) => {
                states.push(s);
                assert forall|j: int| 0 <= j < i + 1 implies #[trigger] states@[j]@
                    == initial_states(*backend, next, rng0)[j] by {
                    if j < i {
                        assert(states@[j] == done[j]);
                    }
                }
            },
            None => {
                return Err(Error::OpHasNoHandler { ty: graph.ops[i].ty() });
            },
        }
        i = i + 1;
    }
    assert(graph.ops@.subrange(0, i as int) =~= graph.ops@);
    Ok(states)
}

/// Adds `grads` to `slots`, slot by slot.
fn add_slots<T: TensorData>(slots: &mut Vec<T>, grads: &Vec<T>)
    requires
        old(slots)@.len() == grads@.len(),
    ensures
        final(slots)@ == plus_all(old(slots)@, grads@),
{
    let ghost start = slots@;
    let mut i: usize = 0;
    while i < slots.len()
        invariant
            slots@.len() == grads@.len(),
            start.len() == grads@.len(),
            0 <= i <= slots@.len(),
            forall|j: int| 0 <= j < i ==> slots@[j] == start[j].plus(grads@[j]),
            forall|j: int| i <= j < slots@.len() ==> slots@[j] == start[j],
        decreases slots@.len() - i,
    {
        slots[i].accumulate(&grads[i]);
        i = i + 1;
    }
    assert(slots@ =~= plus_all(start, grads@));
}

/// Applies one step's gradients: each node that gathered some has them
/// added to its state, slot by slot.
pub fn train<T: TensorData>(state: &mut Vec<Vec<T>>, delta: &AccumulateTensors<T>)
    requires
        shaped(delta@, old(state)@),
    ensures
        final(state)@.len() == old(state)@.len(),
        forall|n: int|
            0 <= n < old(state)@.len() ==> #[trigger] final(state)@[n]@ == if delta@.contains_key(
                n as usize,
            ) {
                plus_all(old(state)@[n]@, delta@[n as usize])
            } else {
                old(state)@[n]@
            },
{
    let ghost start = state@;
    let mut n: usize = 0;
    while n < state.len()
        invariant
            state@.len() == start.len(),
            0 <= n <= state@.len(),
            shaped(delta@, start),
            forall|k: int|
                0 <= k < n ==> #[trigger] state@[k]@ == if delta@.contains_key(k as usize) {
                    plus_all(start[k]@, delta@[k as usize])
                } else {
                    start[k]@
                },
            forall|k: int| n <= k < state@.len() ==> #[trigger] state@[k] == start[k],
        decreases state@.len() - n,
    {
        match delta.get(n) {
            Some(grads) => {
                assert(delta@.contains_key(n));
                add_slots(&mut state[n], grads);
            },
            None => {},
        }
        n = n + 1;
    }
}

} // verus!
