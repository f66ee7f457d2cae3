//! Building graphs by composing symbolic tensors, and running them.
use crate::accumulate::{plus_all, AccumulateTensors};
use crate::backend::{same_kernels, Backend, Error, Inputs};
use crate::graph::{lemma_merge_wf, ops_wf, Graph, Input, Internal, Op, OpTy};
use crate::state::{generate_state, initial_states, rng_through, train};
use crate::tape::{backprop_value, backward, consistent, forward, reached, value, Tape};
use vstd::prelude::*;

verus! {

/// A symbolic tensor: a graph together with the input of it that this
/// tensor stands for.
pub struct Tensor {
    graph: Graph,
    input: Input,
}

impl View for Tensor {
    type V = (Graph, Input);

    closed spec fn view(&self) -> (Graph, Input) {
        (self.graph, self.input)
    }
}

impl Tensor {
    /// The graph is well formed and the tensor's input is one of its
    /// outputs or a feed.
    pub open spec fn wf(self) -> bool {
        self@.0.wf() && self@.0.holds(self@.1)
    }

    /// A tensor read from the feed `name`, over an empty graph.
    pub fn from_name(name: &str) -> (r: Tensor)
        ensures
            r.wf(),
            r@.0.ops@ == Seq::<Op>::empty(),
            r@.1 matches Input::Feed(s) && s@ == name@,
    {
        Tensor { graph: Graph::new(), input: Input::feed(name) }
    }

    /// A trainable constant of the given shape whose elements all start at
    /// the `f64` whose bits are `value_bits`.
    pub fn train_const(shape: Vec<usize>, value_bits: u64) -> (r: Tensor)
        ensures
            r.wf(),
            r@.0.ops@ == seq![Op::TrainConst(shape, value_bits)],
            r@.1 == Input::Internal(Internal { node: 0, output: 0 }),
    {
        let mut graph = Graph::new();
        graph.append(Op::TrainConst(shape, value_bits));
        let r = Tensor { graph, input: Input::Internal(Internal { node: 0, output: 0 }) };
        assert(r@.0.ops@[0].operands_before(0));
        r
    }

    /// The element-wise square of this tensor.
    pub fn squared(self) -> (r: Tensor)
        requires
            self.wf(),
            self@.0.ops@.len() < usize::MAX,
        ensures
            r.wf(),
            r@.0.ops@ == self@.0.ops@.push(Op::Square(self@.1)),
            r@.1 == Input::Internal(Internal { node: self@.0.ops@.len() as usize, output: 0 }),
    {
        let Tensor { mut graph, input } = self;
        let ghost before = graph.ops@;
        let node = graph.append(Op::Square(input));
        let r = Tensor { graph, input: Input::Internal(Internal { node, output: 0 }) };
        assert(ops_wf(r@.0.ops@)) by {
            assert forall|i: int| 0 <= i < r@.0.ops@.len() implies (#[trigger] r@.0.ops@[i]).operands_before(
                i as nat,
            ) by {
                if i < before.len() {
                    assert(r@.0.ops@[i] == before[i]);
                } else {
                    assert(r@.0.ops@[i].operands()[0] == self@.1);
                }
            }
        }
        r
    }

    /// The sum of two tensors.
    pub fn add(self, rhs: Tensor) -> (r: Tensor)
        requires
            self.wf(),
            rhs.wf(),
            self@.0.ops@.len() + rhs@.0.ops@.len() < usize::MAX,
        ensures
            r.wf(),
            r@.0.ops@ == self@.0.merged(rhs@.0).push(
                Op::Add(self@.1, rhs@.1.shifted(self@.0.ops@.len() as nat)),
            ),
            r@.1 == Input::Internal(
                Internal { node: (self@.0.ops@.len() + rhs@.0.ops@.len()) as usize, output: 0 },
            ),
    {
        merge2_1(self, rhs, OpTy::Add)
    }

    /// The difference of two tensors.
    pub fn sub(self, rhs: Tensor) -> (r: Tensor)
        requires
            self.wf(),
            rhs.wf(),
            self@.0.ops@.len() + rhs@.0.ops@.len() < usize::MAX,
        ensures
            r.wf(),
            r@.0.ops@ == self@.0.merged(rhs@.0).push(
                Op::Sub(self@.1, rhs@.1.shifted(self@.0.ops@.len() as nat)),
            ),
            r@.1 == Input::Internal(
                Internal { node: (self@.0.ops@.len() + rhs@.0.ops@.len()) as usize, output: 0 },
            ),
    {
        merge2_1(self, rhs, OpTy::Sub)
    }

    /// The graph this tensor is built over.
    pub fn graph(&self) -> (r: &Graph)
        ensures
            *r == self@.0,
    {
        &self.graph
    }

    /// The input of the graph that this tensor stands for.
    pub fn input(&self) -> (r: &Input)
        ensures
            *r == self@.1,
    {
        &self.input
    }

    /// Creates the state of every node of the tensor's graph.
    pub fn gen_state<B: Backend>(&self, backend: &B, rng: &mut B::Rng) -> (r: Result<
        Vec<Vec<B::Tensor>>,
        Error,
    >)
        ensures
            match r {
                Ok(s) => {
                    &&& s@.len() == self@.0.ops@.len()
                    &&& forall|i: int|
                        0 <= i < self@.0.ops@.len() ==> backend.handles(
                            #[trigger] self@.0.ops@[i].kind(),
                        )
                    &&& forall|i: int|
                        0 <= i < s@.len() ==> #[trigger] s@[i]@ == initial_states(
                            *backend,
                            self@.0.ops@,
                            *old(rng),
                        )[i]
                    &&& *final(rng) == rng_through(*backend, self@.0.ops@, *old(rng))
                },
                Err(e) => exists|i: int|
                    0 <= i < self@.0.ops@.len() && !backend.handles(#[trigger] self@.0.ops@[i].kind())
                        && e == Error::OpHasNoHandler { ty: self@.0.ops@[i].kind() } && forall|j: int|
                        0 <= j < i ==> backend.handles(#[trigger] self@.0.ops@[j].kind()),
            },
    {
        generate_state(backend, &self.graph, rng)
    }

    /// Evaluates the tensor.
    pub fn eval<B: Backend>(
        &self,
        backend: &mut B,
        state: &Vec<Vec<B::Tensor>>,
        inputs: &Inputs<B::Tensor>,
    ) -> (r: Result<B::Tensor, Error>)
        requires
            self.wf(),
            state@.len() == self@.0.ops@.len(),
        ensures
            r == value(*old(backend), self@.0, state@, *inputs, self@.1),
            same_kernels(*final(backend), *old(backend)),
    {
        match forward(backend, &self.graph, state.as_slice(), inputs, self.input.copied()) {
            Ok((t, _)) => Ok(t),
            Err(e) => Err(e),
        }
    }

    /// Evaluates the tensor and keeps the record of the pass, for a
    /// training step to read.
    pub fn forward<B: Backend>(
        &self,
        backend: &mut B,
        state: &Vec<Vec<B::Tensor>>,
        inputs: &Inputs<B::Tensor>,
    ) -> (r: Result<(B::Tensor, Tape<B::Tensor>), Error>)
        requires
            self.wf(),
            state@.len() == self@.0.ops@.len(),
        ensures
            same_kernels(*final(backend), *old(backend)),
            match r {
                Ok((t, tape)) => {
                    &&& value(*old(backend), self@.0, state@, *inputs, self@.1) == Ok::<
                        B::Tensor,
                        Error,
                    >(t)
                    &&& consistent(tape, *final(backend), self@.0, state@, *inputs)
                    &&& tape.memo().dom() == reached(self@.0, self@.1)
                    &&& final(backend).forward_runs().len() == old(backend).forward_runs().len()
                        + reached(self@.0, self@.1).len()
                },
                Err(e) => value(*old(backend), self@.0, state@, *inputs, self@.1) == Err::<
                    B::Tensor,
                    Error,
                >(e),
            },
    {
        forward(backend, &self.graph, state.as_slice(), inputs, self.input.copied())
    }

    /// One gradient step: propagates `output_delta` from this tensor back
    /// through the pass that `tape` recorded and adds the gradients
    /// gathered to `state`. On an error the state is left as it was.
    pub fn descend<B: Backend>(
        &self,
        backend: &B,
        state: &mut Vec<Vec<B::Tensor>>,
        tape: &Tape<B::Tensor>,
        inputs: &Inputs<B::Tensor>,
        output_delta: B::Tensor,
    ) -> (r: Result<(), Error>)
        requires
            self.wf(),
            old(state)@.len() == self@.0.ops@.len(),
        ensures
            final(state)@.len() == old(state)@.len(),
            match backprop_value(
                *backend,
                self@.0,
                old(state)@,
                *inputs,
                tape.memo(),
                self@.1,
                output_delta,
                Map::empty(),
            ) {
                Ok(m) => r is Ok && forall|n: int|
                    0 <= n < old(state)@.len() ==> #[trigger] final(state)@[n]@ == if m.contains_key(
                        n as usize,
                    ) {
                        plus_all(old(state)@[n]@, m[n as usize])
                    } else {
                        old(state)@[n]@
                    },
                Err(e) => r == Err::<(), Error>(e) && *final(state) == *old(state),
            },
    {
        let delta = match backward(
            backend,
            &self.graph,
            state.as_slice(),
            tape,
            inputs,
            self.input.copied(),
            output_delta,
        ) {
            Ok(d) => d,
            Err(e) => return Err(e),
        };
        train(state, &delta);
        Ok(())
    }
}

/// Merges `b`'s graph into `a`'s and appends the binary node of kind `ty`
/// over the two tensors' inputs.
fn merge2_1(a: Tensor, b: Tensor, ty: OpTy) -> (r: Tensor)
    requires
        a.wf(),
        b.wf(),
        a@.0.ops@.len() + b@.0.ops@.len() < usize::MAX,
        ty == OpTy::Add || ty == OpTy::Sub,
    ensures
        r.wf(),
        r@.0.ops@ == a@.0.merged(b@.0).push(
            if ty == OpTy::Add {
                Op::Add(a@.1, b@.1.shifted(a@.0.ops@.len() as nat))
            } else {
                Op::Sub(a@.1, b@.1.shifted(a@.0.ops@.len() as nat))
            },
        ),
        r@.1 == Input::Internal(
            Internal { node: (a@.0.ops@.len() + b@.0.ops@.len()) as usize, output: 0 },
        ),
{
    let Tensor { mut graph, input: ia } = a;
    let Tensor { graph: gb, input: ib } = b;
    proof {
        lemma_merge_wf(graph, gb, ib);
    }
    let ghost merged = graph.merged(gb);
    let ib = graph.merge_input(gb, ib);
    let op = if ty == OpTy::Add {
        Op::Add(ia, ib)
    } else {
        Op::Sub(ia, ib)
    };
    let node = graph.append(op);
    let r = Tensor { graph, input: Input::Internal(Internal { node, output: 0 }) };
    assert(ops_wf(r@.0.ops@)) by {
        assert forall|i: int| 0 <= i < r@.0.ops@.len() implies (#[trigger] r@.0.ops@[i]).operands_before(
            i as nat,
        ) by {
            if i < merged.len() {
                assert(r@.0.ops@[i] == merged[i]);
            } else {
                assert(r@.0.ops@[i].operands()[0] == a@.1);
                assert(r@.0.ops@[i].operands()[1] == b@.1.shifted(a@.0.ops@.len() as nat));
            }
        }
    }
    r
}

} // verus!
