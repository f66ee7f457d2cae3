//! Memoized forward evaluation of a graph and reverse-mode propagation of a
//! gradient through what the forward pass recorded.
use crate::accumulate::{added, AccumulateTensors};
use crate::backend::{same_kernels, Backend, Error, ImOp, Inputs, TensorData};
use crate::graph::{Graph, Input, Op};
use std::collections::HashMap;
use vstd::prelude::*;

verus! {

broadcast use vstd::std_specs::hash::group_hash_axioms;

/// The value of the feed `name`.
pub open spec fn feed_value<T>(inputs: Inputs<T>, name: String) -> Result<T, Error> {
    match inputs.lookup(name@) {
        Some(t) => Ok(t),
        None => Err(Error::InputNotProvided { name }),
    }
}

/// The value of operand `x` of node `n` in a forward pass.
pub open spec fn operand_value<B: Backend>(
    b: B,
    g: Graph,
    state: Seq<Vec<B::Tensor>>,
    inputs: Inputs<B::Tensor>,
    x: Input,
    n: nat,
) -> Result<B::Tensor, Error>
    decreases n, 0nat,
{
    match x {
        Input::Feed(name) => feed_value(inputs, name),
        Input::Internal(i) => if i.node < n {
            node_value(b, g, state, inputs, i.node as nat)
        } else {
            Err(Error::InternalNotComputed { node: i.node, ty: None })
        },
    }
}

/// The operands of node `n` evaluated left to right and packed as the
/// node's kind, or the first error met.
pub open spec fn operands_value<B: Backend>(
    b: B,
    g: Graph,
    state: Seq<Vec<B::Tensor>>,
    inputs: Inputs<B::Tensor>,
    n: nat,
) -> Result<ImOp<B::Tensor>, Error>
    decreases n, 1nat,
{
    match g.ops@[n as int] {
        Op::Add(x, y) => match operand_value(b, g, state, inputs, x, n) {
            Err(e) => Err(e),
            Ok(a) => match operand_value(b, g, state, inputs, y, n) {
                Err(e) => Err(e),
                Ok(c) => Ok(ImOp::Add(a, c)),
            },
        },
        Op::Sub(x, y) => match operand_value(b, g, state, inputs, x, n) {
            Err(e) => Err(e),
            Ok(a) => match operand_value(b, g, state, inputs, y, n) {
                Err(e) => Err(e),
                Ok(c) => Ok(ImOp::Sub(a, c)),
            },
        },
        Op::Square(x) => match operand_value(b, g, state, inputs, x, n) {
            Err(e) => Err(e),
            Ok(a) => Ok(ImOp::Square(a)),
        },
        Op::TrainConst(..) => Ok(ImOp::TrainConst),
    }
}

/// The value of node `n` in a forward pass, or the first error met.
pub open spec fn node_value<B: Backend>(
    b: B,
    g: Graph,
    state: Seq<Vec<B::Tensor>>,
    inputs: Inputs<B::Tensor>,
    n: nat,
) -> Result<B::Tensor, Error>
    decreases n, 2nat,
{
    if n >= g.ops@.len() {
        Err(Error::InternalNotComputed { node: n as usize, ty: None })
    } else {
        match operands_value(b, g, state, inputs, n) {
            Err(e) => Err(e),
            Ok(imop) => if b.handles(g.ops@[n as int].kind()) {
                Ok(b.forward_value(imop, state[n as int]@))
            } else {
                Err(Error::OpHasNoHandler { ty: g.ops@[n as int].kind() })
            },
        }
    }
}

/// The value of `input` in a forward pass of `g`.
pub open spec fn value<B: Backend>(
    b: B,
    g: Graph,
    state: Seq<Vec<B::Tensor>>,
    inputs: Inputs<B::Tensor>,
    input: Input,
) -> Result<B::Tensor, Error> {
    match input {
        Input::Feed(name) => feed_value(inputs, name),
        Input::Internal(i) => node_value(b, g, state, inputs, i.node as nat),
    }
}

/// The nodes that evaluating operand `x` of node `n` records on an empty
/// tape.
pub open spec fn visited_operand<B: Backend>(
    b: B,
    g: Graph,
    state: Seq<Vec<B::Tensor>>,
    inputs: Inputs<B::Tensor>,
    x: Input,
    n: nat,
) -> Set<usize>
    decreases n, 0nat,
{
    match x {
        Input::Internal(i) => if i.node < n {
            visited_node(b, g, state, inputs, i.node as nat)
        } else {
            Set::empty()
        },
        Input::Feed(_) => Set::empty(),
    }
}

/// The nodes that evaluating two operands of node `n` in turn records on
/// an empty tape: the second is not evaluated when the first fails.
pub open spec fn visited_pair<B: Backend>(
    b: B,
    g: Graph,
    state: Seq<Vec<B::Tensor>>,
    inputs: Inputs<B::Tensor>,
    x: Input,
    y: Input,
    n: nat,
) -> Set<usize>
    decreases n, 1nat,
{
    if operand_value(b, g, state, inputs, x, n) is Ok {
        visited_operand(b, g, state, inputs, x, n) + visited_operand(b, g, state, inputs, y, n)
    } else {
        visited_operand(b, g, state, inputs, x, n)
    }
}

/// The nodes that evaluating the operands of node `n` records on an empty
/// tape, left to right up to the first that fails.
pub open spec fn visited_operands<B: Backend>(
    b: B,
    g: Graph,
    state: Seq<Vec<B::Tensor>>,
    inputs: Inputs<B::Tensor>,
    n: nat,
) -> Set<usize>
    decreases n, 2nat,
{
    match g.ops@[n as int] {
        Op::Add(x, y) => visited_pair(b, g, state, inputs, x, y, n),
        Op::Sub(x, y) => visited_pair(b, g, state, inputs, x, y, n),
        Op::Square(x) => visited_operand(b, g, state, inputs, x, n),
        Op::TrainConst(..) => Set::empty(),
    }
}

/// The nodes that evaluating node `n` records on an empty tape: those its
/// operands record, then `n` itself if its evaluation succeeds.
pub open spec fn visited_node<B: Backend>(
    b: B,
    g: Graph,
    state: Seq<Vec<B::Tensor>>,
    inputs: Inputs<B::Tensor>,
    n: nat,
) -> Set<usize>
    decreases n, 3nat,
{
    if n >= g.ops@.len() {
        Set::empty()
    } else if node_value(b, g, state, inputs, n) is Ok {
        visited_operands(b, g, state, inputs, n).insert(n as usize)
    } else {
        visited_operands(b, g, state, inputs, n)
    }
}

/// The nodes that evaluating `input` records on an empty tape.
pub open spec fn visited<B: Backend>(
    b: B,
    g: Graph,
    state: Seq<Vec<B::Tensor>>,
    inputs: Inputs<B::Tensor>,
    input: Input,
) -> Set<usize> {
    match input {
        Input::Internal(i) => visited_node(b, g, state, inputs, i.node as nat),
        Input::Feed(_) => Set::empty(),
    }
}

/// The nodes reached from operand `x` of node `n` through node operands.
pub open spec fn reached_operand(g: Graph, x: Input, n: nat) -> Set<usize>
    decreases n, 0nat,
{
    match x {
        Input::Internal(i) => if i.node < n {
            reached_node(g, i.node as nat)
        } else {
            Set::empty()
        },
        Input::Feed(_) => Set::empty(),
    }
}

/// Node `n` and every node reached from it through node operands.
pub open spec fn reached_node(g: Graph, n: nat) -> Set<usize>
    decreases n, 1nat,
{
    if n >= g.ops@.len() {
        Set::empty()
    } else {
        let below = match g.ops@[n as int] {
            Op::Add(x, y) => reached_operand(g, x, n) + reached_operand(g, y, n),
            Op::Sub(x, y) => reached_operand(g, x, n) + reached_operand(g, y, n),
            Op::Square(x) => reached_operand(g, x, n),
            Op::TrainConst(..) => Set::empty(),
        };
        below.insert(n as usize)
    }
}

/// The nodes reached from `input` through node operands.
pub open spec fn reached(g: Graph, input: Input) -> Set<usize> {
    match input {
        Input::Internal(i) => reached_node(g, i.node as nat),
        Input::Feed(_) => Set::empty(),
    }
}

proof fn lemma_same_kernels_operand<B: Backend>(
    a: B,
    b: B,
    g: Graph,
    state: Seq<Vec<B::Tensor>>,
    inputs: Inputs<B::Tensor>,
    x: Input,
    n: nat,
)
    requires
        same_kernels(a, b),
    ensures
        operand_value(a, g, state, inputs, x, n) == operand_value(b, g, state, inputs, x, n),
        visited_operand(a, g, state, inputs, x, n) == visited_operand(b, g, state, inputs, x, n),
    decreases n, 0nat,
{
    if let Input::Internal(i) = x {
        if i.node < n {
            lemma_same_kernels(a, b, g, state, inputs, i.node as nat);
        }
    }
}

/// Backends with the same kernels evaluate alike and record alike.
proof fn lemma_same_kernels<B: Backend>(
    a: B,
    b: B,
    g: Graph,
    state: Seq<Vec<B::Tensor>>,
    inputs: Inputs<B::Tensor>,
    n: nat,
)
    requires
        same_kernels(a, b),
    ensures
        node_value(a, g, state, inputs, n) == node_value(b, g, state, inputs, n),
        visited_node(a, g, state, inputs, n) == visited_node(b, g, state, inputs, n),
        n < g.ops@.len() ==> visited_operands(a, g, state, inputs, n) == visited_operands(
            b,
            g,
            state,
            inputs,
            n,
        ),
    decreases n, 1nat,
{
    if n < g.ops@.len() {
        match g.ops@[n as int] {
            Op::Add(x, y) => {
                lemma_same_kernels_operand(a, b, g, state, inputs, x, n);
                lemma_same_kernels_operand(a, b, g, state, inputs, y, n);
            },
            Op::Sub(x, y) => {
                lemma_same_kernels_operand(a, b, g, state, inputs, x, n);
                lemma_same_kernels_operand(a, b, g, state, inputs, y, n);
            },
            Op::Square(x) => {
                lemma_same_kernels_operand(a, b, g, state, inputs, x, n);
            },
            Op::TrainConst(..) => {},
        }
        assert(operands_value(a, g, state, inputs, n) == operands_value(b, g, state, inputs, n));
        assert(visited_operands(a, g, state, inputs, n) == visited_operands(b, g, state, inputs, n));
        let ty = g.ops@[n as int].kind();
        assert(a.handles(ty) == b.handles(ty));
        if let Ok(imop) = operands_value(a, g, state, inputs, n) {
            assert(a.forward_value(imop, state[n as int]@) == b.forward_value(imop, state[n as int]@));
        }
    }
}

proof fn lemma_same_kernels_input<B: Backend>(
    a: B,
    b: B,
    g: Graph,
    state: Seq<Vec<B::Tensor>>,
    inputs: Inputs<B::Tensor>,
    input: Input,
)
    requires
        same_kernels(a, b),
    ensures
        value(a, g, state, inputs, input) == value(b, g, state, inputs, input),
        visited(a, g, state, inputs, input) == visited(b, g, state, inputs, input),
{
    if let Input::Internal(i) = input {
        lemma_same_kernels(a, b, g, state, inputs, i.node as nat);
    }
}

proof fn lemma_visited_operand_reached<B: Backend>(
    b: B,
    g: Graph,
    state: Seq<Vec<B::Tensor>>,
    inputs: Inputs<B::Tensor>,
    x: Input,
    n: nat,
)
    requires
        operand_value(b, g, state, inputs, x, n) is Ok,
    ensures
        visited_operand(b, g, state, inputs, x, n) == reached_operand(g, x, n),
    decreases n, 0nat,
{
    if let Input::Internal(i) = x {
        if i.node < n {
            lemma_visited_reached(b, g, state, inputs, i.node as nat);
        }
    }
}

/// A node that evaluates without error records every node reached from it.
pub proof fn lemma_visited_reached<B: Backend>(
    b: B,
    g: Graph,
    state: Seq<Vec<B::Tensor>>,
    inputs: Inputs<B::Tensor>,
    n: nat,
)
    requires
        node_value(b, g, state, inputs, n) is Ok,
    ensures
        visited_node(b, g, state, inputs, n) == reached_node(g, n),
    decreases n, 1nat,
{
    match g.ops@[n as int] {
        Op::Add(x, y) => {
            lemma_visited_operand_reached(b, g, state, inputs, x, n);
            lemma_visited_operand_reached(b, g, state, inputs, y, n);
        },
        Op::Sub(x, y) => {
            lemma_visited_operand_reached(b, g, state, inputs, x, n);
            lemma_visited_operand_reached(b, g, state, inputs, y, n);
        },
        Op::Square(x) => {
            lemma_visited_operand_reached(b, g, state, inputs, x, n);
        },
        Op::TrainConst(..) => {},
    }
}

/// The value of `input` as a finished forward pass recorded it: a feed, or
/// the output of a node on the tape.
pub open spec fn recorded_value<T>(
    memo: Map<usize, Vec<T>>,
    g: Graph,
    inputs: Inputs<T>,
    input: Input,
) -> Result<T, Error> {
    match input {
        Input::Feed(name) => feed_value(inputs, name),
        Input::Internal(i) => if memo.contains_key(i.node) && i.output < memo[i.node]@.len() {
            Ok(memo[i.node]@[i.output as int])
        } else {
            Err(
                Error::InternalNotComputed {
                    node: i.node,
                    ty: if i.node < g.ops@.len() {
                        Some(g.ops@[i.node as int].kind())
                    } else {
                        None
                    },
                },
            )
        },
    }
}

/// The operands of `op` as recorded, left to right, packed as its kind.
pub open spec fn recorded_operands<T>(
    memo: Map<usize, Vec<T>>,
    g: Graph,
    inputs: Inputs<T>,
    op: Op,
) -> Result<ImOp<T>, Error> {
    match op {
        Op::Add(x, y) => match recorded_value(memo, g, inputs, x) {
            Err(e) => Err(e),
            Ok(a) => match recorded_value(memo, g, inputs, y) {
                Err(e) => Err(e),
                Ok(c) => Ok(ImOp::Add(a, c)),
            },
        },
        Op::Sub(x, y) => match recorded_value(memo, g, inputs, x) {
            Err(e) => Err(e),
            Ok(a) => match recorded_value(memo, g, inputs, y) {
                Err(e) => Err(e),
                Ok(c) => Ok(ImOp::Sub(a, c)),
            },
        },
        Op::Square(x) => match recorded_value(memo, g, inputs, x) {
            Err(e) => Err(e),
            Ok(a) => Ok(ImOp::Square(a)),
        },
        Op::TrainConst(..) => Ok(ImOp::TrainConst),
    }
}

/// The tensors that a node packs, in operand order.
pub open spec fn packed<T>(imop: ImOp<T>) -> Seq<T> {
    match imop {
        ImOp::Add(a, b) => seq![a, b],
        ImOp::Sub(a, b) => seq![a, b],
        ImOp::Square(a) => seq![a],
        ImOp::TrainConst => seq![],
    }
}

/// The gradients gathered into `acc` when `delta` arrives at `input` and
/// is propagated back through the recorded pass: each node reached adds
/// its state gradients, then passes each operand its gradient, left to
/// right. The first error met ends the pass.
pub open spec fn backprop_value<B: Backend>(
    b: B,
    g: Graph,
    state: Seq<Vec<B::Tensor>>,
    inputs: Inputs<B::Tensor>,
    memo: Map<usize, Vec<B::Tensor>>,
    input: Input,
    delta: B::Tensor,
    acc: Map<usize, Seq<B::Tensor>>,
) -> Result<Map<usize, Seq<B::Tensor>>, Error>
    decreases input.rank(),
{
    match input {
        Input::Feed(_) => Ok(acc),
        Input::Internal(i) => if i.node >= g.ops@.len() {
            Err(Error::InternalNotComputed { node: i.node, ty: None })
        } else {
            let op = g.ops@[i.node as int];
            match recorded_operands(memo, g, inputs, op) {
                Err(e) => Err(e),
                Ok(imop) => if !b.handles(op.kind()) {
                    Err(Error::OpHasNoHandler { ty: op.kind() })
                } else {
                    let grads = b.backward_value(imop, state[i.node as int]@, i.output, delta);
                    let acc1 = added(acc, i.node, grads.1);
                    let gs = packed(grads.0);
                    match op {
                        Op::Add(x, y) => if x.rank() < input.rank() && y.rank() < input.rank() {
                            match backprop_value(b, g, state, inputs, memo, x, gs[0], acc1) {
                                Err(e) => Err(e),
                                Ok(acc2) => backprop_value(b, g, state, inputs, memo, y, gs[1], acc2),
                            }
                        } else {
                            Ok(acc1)
                        },
                        Op::Sub(x, y) => if x.rank() < input.rank() && y.rank() < input.rank() {
                            match backprop_value(b, g, state, inputs, memo, x, gs[0], acc1) {
                                Err(e) => Err(e),
                                Ok(acc2) => backprop_value(b, g, state, inputs, memo, y, gs[1], acc2),
                            }
                        } else {
                            Ok(acc1)
                        },
                        Op::Square(x) => if x.rank() < input.rank() {
                            backprop_value(b, g, state, inputs, memo, x, gs[0], acc1)
                        } else {
                            Ok(acc1)
                        },
                        Op::TrainConst(..) => Ok(acc1),
                    }
                },
            }
        },
    }
}

/// Every node holding gradients exists in `state` and has as many as it
/// has state tensors.
pub open spec fn shaped<T>(acc: Map<usize, Seq<T>>, state: Seq<Vec<T>>) -> bool {
    forall|n: usize| #[trigger]
        acc.contains_key(n) ==> n < state.len() && acc[n].len() == state[n as int]@.len()
}

/// `r` is the outcome `s`: the same error, or gradients with the same view.
pub open spec fn same_outcome<T>(
    r: Result<AccumulateTensors<T>, Error>,
    s: Result<Map<usize, Seq<T>>, Error>,
) -> bool {
    match (r, s) {
        (Ok(a), Ok(m)) => a@ == m,
        (Err(e), Err(f)) => e == f,
        _ => false,
    }
}

/// The record of one forward pass: the outputs of each node evaluated so
/// far, kept so that no node is evaluated twice.
pub struct Tape<T> {
    solved: HashMap<usize, Vec<T>>,
    /// The nodes whose forward kernel ran, in order.
    evaluated: Ghost<Seq<usize>>,
}

impl<T> Tape<T> {
    /// The outputs recorded per node.
    pub closed spec fn memo(self) -> Map<usize, Vec<T>> {
        self.solved@
    }

    /// The nodes whose forward kernel ran while filling this tape, in order.
    pub closed spec fn evaluated(self) -> Seq<usize> {
        self.evaluated@
    }

    /// The tape's invariant: each node was evaluated once at most, exactly
    /// the evaluated nodes are recorded, each with its single output.
    pub closed spec fn wf(self) -> bool {
        &&& self.evaluated@.no_duplicates()
        &&& forall|n: usize| self.solved@.contains_key(n) <==> self.evaluated@.contains(n)
        &&& forall|n: usize| #[trigger] self.solved@.contains_key(n) ==> self.solved@[n]@.len() == 1
    }

    pub fn new() -> (r: Tape<T>)
        ensures
            r.wf(),
            r.memo() == Map::<usize, Vec<T>>::empty(),
            r.evaluated() == Seq::<usize>::empty(),
    {
        Tape { solved: HashMap::new(), evaluated: Ghost(Seq::empty()) }
    }
}

/// Within one forward pass no node's kernel runs twice, and the nodes whose
/// kernel ran are exactly those whose outputs are recorded.
pub proof fn lemma_kernel_runs_once<T>(tape: Tape<T>)
    requires
        tape.wf(),
    ensures
        tape.evaluated().no_duplicates(),
        forall|n: usize| tape.memo().contains_key(n) <==> tape.evaluated().contains(n),
{
}

/// Every output recorded on `tape` is the value that a forward pass of `g`
/// gives its node, and every node it reached is recorded too.
pub open spec fn consistent<B: Backend>(
    tape: Tape<B::Tensor>,
    b: B,
    g: Graph,
    state: Seq<Vec<B::Tensor>>,
    inputs: Inputs<B::Tensor>,
) -> bool {
    &&& tape.wf()
    &&& forall|n: usize| #[trigger]
        tape.memo().contains_key(n) ==> {
            &&& n < g.ops@.len()
            &&& node_value(b, g, state, inputs, n as nat) == Ok::<B::Tensor, Error>(tape.memo()[n]@[0])
            &&& reached_node(g, n as nat).subset_of(tape.memo().dom())
        }
}

impl<T: TensorData> Tape<T> {
    /// Reads `input` from the recorded pass: a feed, or the output of a
    /// node that was evaluated.
    pub fn input(&self, inputs: &Inputs<T>, graph: &Graph, input: Input) -> (r: Result<T, Error>)
        ensures
            r == recorded_value(self.memo(), *graph, *inputs, input),
    {
        match input {
            Input::Feed(name) => {
                match inputs.get(&name) {
                    Some(t) => Ok(t.share()),
                    None => Err(Error::InputNotProvided { name }),
                }
            },
            Input::Internal(internal) => {
                match self.solved.get(&internal.node) {
                    Some(solutions) => {
                        if internal.output < solutions.len() {
                            return Ok(solutions[internal.output].share());
                        }
                    },
                    None => {},
                }
                let ty = if internal.node < graph.ops.len() {
                    Some(graph.ops[internal.node].ty())
                } else {
                    None
                };
                Err(Error::InternalNotComputed { node: internal.node, ty })
            },
        }
    }

    /// Reads the operands of `op` from the recorded pass, left to right.
    fn input_operands(&self, inputs: &Inputs<T>, graph: &Graph, op: &Op) -> (r: Result<
        ImOp<T>,
        Error,
    >)
        ensures
            r == recorded_operands(self.memo(), *graph, *inputs, *op),
    {
        match op {
            Op::Add(x, y) => {
                let a = match self.input(inputs, graph, x.copied()) {
                    Ok(a) => a,
                    Err(e) => return Err(e),
                };
                let c = match self.input(inputs, graph, y.copied()) {
                    Ok(c) => c,
                    Err(e) => return Err(e),
                };
                Ok(ImOp::Add(a, c))
            },
            Op::Sub(x, y) => {
                let a = match self.input(inputs, graph, x.copied()) {
                    Ok(a) => a,
                    Err(e) => return Err(e),
                };
                let c = match self.input(inputs, graph, y.copied()) {
                    Ok(c) => c,
                    Err(e) => return Err(e),
                };
                Ok(ImOp::Sub(a, c))
            },
            Op::Square(x) => {
                let a = match self.input(inputs, graph, x.copied()) {
                    Ok(a) => a,
                    Err(e) => return Err(e),
                };
                Ok(ImOp::Square(a))
            },
            Op::TrainConst(..) => Ok(ImOp::TrainConst),
        }
    }

    /// Propagates `output_delta`, arriving at `input`, back through the
    /// recorded pass and gathers every node's state gradients into
    /// `deltas`.
    pub fn backprop<B: Backend<Tensor = T>>(
        &self,
        backend: &B,
        graph: &Graph,
        state: &[Vec<T>],
        inputs: &Inputs<T>,
        input: Input,
        output_delta: T,
        deltas: AccumulateTensors<T>,
    ) -> (r: Result<AccumulateTensors<T>, Error>)
        requires
            graph.wf(),
            state@.len() == graph.ops@.len(),
            input matches Input::Internal(i) ==> i.output == 0,
            shaped(deltas@, state@),
        ensures
            same_outcome(
                r,
                backprop_value(
                    *backend,
                    *graph,
                    state@,
                    *inputs,
                    self.memo(),
                    input,
                    output_delta,
                    deltas@,
                ),
            ),
            r matches Ok(a) ==> shaped(a@, state@),
        decreases input.rank(),
    {
        match input {
            Input::Feed(_) => Ok(deltas),
            Input::Internal(internal) => {
                let node = internal.node;
                if node >= graph.ops.len() {
                    return Err(Error::InternalNotComputed { node, ty: None });
                }
                let op = &graph.ops[node];
                let ghost g_op = graph.ops@[node as int];
                assert(g_op.operands_before(node as nat));
                let ty = op.ty();
                let imop = match self.input_operands(inputs, graph, op) {
                    Ok(imop) => imop,
                    Err(e) => return Err(e),
                };
                let ghost im = imop;
                assert(im.kind() == g_op.kind());
                let (grads, state_grads) = match backend.propagate(
                    imop,
                    state[node].as_slice(),
                    (internal.output, output_delta),
                ) {
                    Some(p) => p,
                    None => return Err(Error::OpHasNoHandler { ty }),
                };
                let mut deltas = deltas;
                let ghost acc0 = deltas@;
                assert(deltas@.contains_key(node) ==> deltas@[node].len() == state@[node as int]@.len());
                deltas.insert(node, state_grads);
                let ghost acc1 = deltas@;
                assert(shaped(acc1, state@)) by {
                    assert forall|n: usize| #[trigger] acc1.contains_key(n) implies n < state@.len()
                        && acc1[n].len() == state@[n as int]@.len() by {
                        if n != node {
                            assert(acc0.contains_key(n));
                        }
                    }
                }
                match op {
                    Op::Add(x, y) => {
                        assert(g_op.operands()[0].before(node as nat));
                        assert(g_op.operands()[1].before(node as nat));
                        match grads {
                            ImOp::Add(gx, gy) => {
                                let deltas = match self.backprop(
                                    backend,
                                    graph,
                                    state,
                                    inputs,
                                    x.copied(),
                                    gx,
                                    deltas,
                                ) {
                                    Ok(d) => d,
                                    Err(e) => return Err(e),
                                };
                                self.backprop(backend, graph, state, inputs, y.copied(), gy, deltas)
                            },
                            _ => {
                                // the backend hands back the kind it was given
                                assert(false);
                                Ok(deltas)
                            },
                        }
                    },
                    Op::Sub(x, y) => {
                        assert(g_op.operands()[0].before(node as nat));
                        assert(g_op.operands()[1].before(node as nat));
                        match grads {
                            ImOp::Sub(gx, gy) => {
                                let deltas = match self.backprop(
                                    backend,
                                    graph,
                                    state,
                                    inputs,
                                    x.copied(),
                                    gx,
                                    deltas,
                                ) {
                                    Ok(d) => d,
                                    Err(e) => return Err(e),
                                };
                                self.backprop(backend, graph, state, inputs, y.copied(), gy, deltas)
                            },
                            _ => {
                                // the backend hands back the kind it was given
                                assert(false);
                                Ok(deltas)
                            },
                        }
                    },
                    Op::Square(x) => {
                        assert(g_op.operands()[0].before(node as nat));
                        match grads {
                            ImOp::Square(gx) => self.backprop(
                                backend,
                                graph,
                                state,
                                inputs,
                                x.copied(),
                                gx,
                                deltas,
                            ),
                            _ => {
                                // the backend hands back the kind it was given
                                assert(false);
                                Ok(deltas)
                            },
                        }
                    },
                    Op::TrainConst(..) => Ok(deltas),
                }
            },
        }
    }

    /// Evaluates `input`: a feed is looked up, a node already on the tape
    /// is read back without running its kernel, any other node is
    /// evaluated after its operands and recorded. The first error ends the
    /// evaluation: nothing after it is evaluated.
    pub fn solve<B: Backend<Tensor = T>>(
        &mut self,
        backend: &mut B,
        graph: &Graph,
        state: &[Vec<T>],
        inputs: &Inputs<T>,
        input: Input,
    ) -> (r: Result<T, Error>)
        requires
            consistent(*old(self), *old(backend), *graph, state@, *inputs),
            graph.wf(),
            state@.len() == graph.ops@.len(),
            input matches Input::Internal(i) ==> i.output == 0,
        ensures
            consistent(*final(self), *final(backend), *graph, state@, *inputs),
            same_kernels(*final(backend), *old(backend)),
            r == value(*old(backend), *graph, state@, *inputs, input),
            final(self).memo().dom() == old(self).memo().dom() + visited(
                *old(backend),
                *graph,
                state@,
                *inputs,
                input,
            ),
            r is Ok ==> reached(*graph, input).subset_of(final(self).memo().dom()),
            old(self).evaluated().is_prefix_of(final(self).evaluated()),
            final(backend).forward_runs().len() - old(backend).forward_runs().len()
                == final(self).evaluated().len() - old(self).evaluated().len(),
            forall|n: usize| #[trigger]
                final(self).memo().contains_key(n) ==> old(self).memo().contains_key(n) || n
                    < input.rank(),
            (input matches Input::Internal(i) && old(self).memo().contains_key(i.node))
                ==> *final(self) == *old(self) && *final(backend) == *old(backend),
        decreases input.rank(), 1nat,
    {
        let ghost b0 = *backend;
        match input {
            Input::Feed(name) => {
                match inputs.get(&name) {
                    Some(t) => Ok(t.share()),
                    None => Err(Error::InputNotProvided { name }),
                }
            },
            Input::Internal(internal) => {
                let node = internal.node;
                if node >= graph.ops.len() {
                    assert(self.memo().dom() =~= self.memo().dom() + Set::<usize>::empty());
                    return Err(Error::InternalNotComputed { node, ty: None });
                }
                match self.solved.get(&node) {
                    Some(solutions) => {
                        assert(self.memo().contains_key(node));
                        proof {
                            lemma_visited_reached(b0, *graph, state@, *inputs, node as nat);
                            assert(self.memo().dom() =~= self.memo().dom() + visited(
                                b0,
                                *graph,
                                state@,
                                *inputs,
                                input,
                            ));
                        }
                        return Ok(solutions[internal.output].share());
                    },
                    None => {},
                }
                let ghost before = *self;
                let imop = match self.solve_operands(backend, graph, state, inputs, node) {
                    Ok(imop) => imop,
                    Err(e) => return Err(e),
                };
                assert(!before.memo().contains_key(node));
                assert(!self.memo().contains_key(node));
                let ghost mid = *self;
                let ghost b1 = *backend;
                assert(!mid.evaluated@.contains(node));
                let ty = graph.ops[node].ty();
                let ghost im = imop;
                assert(im.kind() == graph.ops@[node as int].kind());
                assert(b1.handles(ty) == b0.handles(ty));
                match backend.solve(imop, state[node].as_slice()) {
                    Some(solutions) => {
                        let ghost b2 = *backend;
                        assert(b1.forward_value(im, state@[node as int]@) == b0.forward_value(
                            im,
                            state@[node as int]@,
                        ));
                        let output = solutions[internal.output].share();
                        self.solved.insert(node, solutions);
                        self.evaluated = Ghost(mid.evaluated@.push(node));
                        assert(before.evaluated@.is_prefix_of(self.evaluated@)) by {
                            assert(self.evaluated@.subrange(0, before.evaluated@.len() as int)
                                =~= before.evaluated@);
                        }
                        assert(self.evaluated@.no_duplicates()) by {
                            let s = self.evaluated@;
                            assert forall|i: int, j: int| 0 <= i < j < s.len() implies s[i] != s[j] by {
                                if j == s.len() - 1 {
                                    assert(mid.evaluated@.contains(s[i]));
                                }
                            }
                        }
                        assert(node_value(b0, *graph, state@, *inputs, node as nat) == Ok::<
                            T,
                            Error,
                        >(self.memo()[node]@[0]));
                        assert forall|n: usize|
                            self.solved@.contains_key(n) <==> self.evaluated@.contains(n) by {
                            if n == node {
                                assert(self.evaluated@[mid.evaluated@.len() as int] == node);
                            } else if mid.evaluated@.contains(n) {
                                let k = choose|k: int| 0 <= k < mid.evaluated@.len() && mid.evaluated@[k] == n;
                                assert(self.evaluated@[k] == n);
                            } else if self.evaluated@.contains(n) {
                                let k = choose|k: int| 0 <= k < self.evaluated@.len() && self.evaluated@[k] == n;
                                assert(mid.evaluated@[k] == n);
                            }
                        }
                        proof {
                            lemma_visited_reached(b0, *graph, state@, *inputs, node as nat);
                            assert(self.memo().dom() =~= before.memo().dom() + visited(
                                b0,
                                *graph,
                                state@,
                                *inputs,
                                input,
                            ));
                            assert forall|n: usize| #[trigger]
                                self.memo().contains_key(n) implies node_value(
                                b2,
                                *graph,
                                state@,
                                *inputs,
                                n as nat,
                            ) == Ok::<T, Error>(self.memo()[n]@[0]) && reached_node(
                                *graph,
                                n as nat,
                            ).subset_of(self.memo().dom()) by {
                                lemma_same_kernels(b2, b0, *graph, state@, *inputs, n as nat);
                                lemma_same_kernels(b1, b0, *graph, state@, *inputs, n as nat);
                            }
                        }
                        Ok(output)
                    },
                    None => {
                        proof {
                            assert(self.memo().dom() =~= before.memo().dom() + visited(
                                b0,
                                *graph,
                                state@,
                                *inputs,
                                input,
                            ));
                            assert forall|n: usize| #[trigger]
                                self.memo().contains_key(n) implies node_value(
                                *backend,
                                *graph,
                                state@,
                                *inputs,
                                n as nat,
                            ) == Ok::<T, Error>(self.memo()[n]@[0]) by {
                                lemma_same_kernels(*backend, b1, *graph, state@, *inputs, n as nat);
                            }
                        }
                        Err(Error::OpHasNoHandler { ty })
                    },
                }
            },
        }
    }

    /// Evaluates the operands of node `node`, left to right, and packs them
    /// as the node's kind; an operand that fails ends the evaluation.
    fn solve_operands<B: Backend<Tensor = T>>(
        &mut self,
        backend: &mut B,
        graph: &Graph,
        state: &[Vec<T>],
        inputs: &Inputs<T>,
        node: usize,
    ) -> (r: Result<ImOp<T>, Error>)
        requires
            consistent(*old(self), *old(backend), *graph, state@, *inputs),
            graph.wf(),
            state@.len() == graph.ops@.len(),
            node < graph.ops@.len(),
        ensures
            consistent(*final(self), *final(backend), *graph, state@, *inputs),
            same_kernels(*final(backend), *old(backend)),
            r == operands_value(*old(backend), *graph, state@, *inputs, node as nat),
            final(self).memo().dom() == old(self).memo().dom() + visited_operands(
                *old(backend),
                *graph,
                state@,
                *inputs,
                node as nat,
            ),
            old(self).evaluated().is_prefix_of(final(self).evaluated()),
            final(backend).forward_runs().len() - old(backend).forward_runs().len()
                == final(self).evaluated().len() - old(self).evaluated().len(),
            forall|n: usize| #[trigger]
                final(self).memo().contains_key(n) ==> old(self).memo().contains_key(n) || n < node,
        decreases node + 1, 0nat,
    {
        let ghost b0 = *backend;
        let ghost t0 = *self;
        let ghost op = graph.ops@[node as int];
        assert(op.operands_before(node as nat));
        match &graph.ops[node] {
            Op::Add(x, y) => {
                assert(op.operands()[0].before(node as nat));
                assert(op.operands()[1].before(node as nat));
                let a = match self.solve(backend, graph, state, inputs, x.copied()) {
                    Ok(a) => a,
                    Err(e) => return Err(e),
                };
                let ghost b1 = *backend;
                let c = match self.solve(backend, graph, state, inputs, y.copied()) {
                    Ok(c) => c,
                    Err(e) => {
                        proof {
                            lemma_same_kernels_input(b1, b0, *graph, state@, *inputs, *y);
                            assert(self.memo().dom() =~= t0.memo().dom() + visited_operands(
                                b0,
                                *graph,
                                state@,
                                *inputs,
                                node as nat,
                            ));
                        }
                        return Err(e);
                    },
                };
                proof {
                    lemma_same_kernels_input(b1, b0, *graph, state@, *inputs, *y);
                    assert(self.memo().dom() =~= t0.memo().dom() + visited_operands(
                        b0,
                        *graph,
                        state@,
                        *inputs,
                        node as nat,
                    ));
                }
                Ok(ImOp::Add(a, c))
            },
            Op::Sub(x, y) => {
                assert(op.operands()[0].before(node as nat));
                assert(op.operands()[1].before(node as nat));
                let a = match self.solve(backend, graph, state, inputs, x.copied()) {
                    Ok(a) => a,
                    Err(e) => return Err(e),
                };
                let ghost b1 = *backend;
                let c = match self.solve(backend, graph, state, inputs, y.copied()) {
                    Ok(c) => c,
                    Err(e) => {
                        proof {
                            lemma_same_kernels_input(b1, b0, *graph, state@, *inputs, *y);
                            assert(self.memo().dom() =~= t0.memo().dom() + visited_operands(
                                b0,
                                *graph,
                                state@,
                                *inputs,
                                node as nat,
                            ));
                        }
                        return Err(e);
                    },
                };
                proof {
                    lemma_same_kernels_input(b1, b0, *graph, state@, *inputs, *y);
                    assert(self.memo().dom() =~= t0.memo().dom() + visited_operands(
                        b0,
                        *graph,
                        state@,
                        *inputs,
                        node as nat,
                    ));
                }
                Ok(ImOp::Sub(a, c))
            },
            Op::Square(x) => {
                assert(op.operands()[0].before(node as nat));
                let a = match self.solve(backend, graph, state, inputs, x.copied()) {
                    Ok(a) => a,
                    Err(e) => return Err(e),
                };
                Ok(ImOp::Square(a))
            },
            Op::TrainConst(..) => {
                assert(self.memo().dom() =~= t0.memo().dom() + Set::<usize>::empty());
                Ok(ImOp::TrainConst)
            },
        }
    }
}

/// Node `k` of `g2` has the same value as node `k + |g1|` of the graph
/// merged from `g1` and `g2`, with the state of `g2` after that of `g1`.
proof fn lemma_merged_node_value<B: Backend>(
    b: B,
    g1: Graph,
    g2: Graph,
    merged: Graph,
    s1: Seq<Vec<B::Tensor>>,
    s2: Seq<Vec<B::Tensor>>,
    inputs: Inputs<B::Tensor>,
    k: nat,
)
    requires
        g2.wf(),
        merged.ops@ == g1.merged(g2),
        s1.len() == g1.ops@.len(),
        s2.len() == g2.ops@.len(),
        g1.ops@.len() + g2.ops@.len() <= usize::MAX,
        k < g2.ops@.len(),
    ensures
        node_value(b, merged, s1 + s2, inputs, k + g1.ops@.len())
            == node_value(b, g2, s2, inputs, k),
    decreases k,
{
    let n = g1.ops@.len();
    let s = s1 + s2;
    let op = g2.ops@[k as int];
    assert(op.operands_before(k));
    assert(merged.ops@[(k + n) as int] == op.shifted(n));
    assert(s[(k + n) as int] == s2[k as int]);
    assert forall|m: int| 0 <= m < op.operands().len() implies operand_value(
        b,
        merged,
        s,
        inputs,
        #[trigger] op.operands()[m].shifted(n),
        k + n,
    ) == operand_value(b, g2, s2, inputs, op.operands()[m], k) by {
        assert(op.operands()[m].before(k));
        match op.operands()[m] {
            Input::Internal(i) => {
                lemma_merged_node_value(b, g1, g2, merged, s1, s2, inputs, i.node as nat);
            },
            Input::Feed(_) => {},
        }
    }
    match op {
        Op::Add(x, y) => {
            assert(op.operands()[0].shifted(n) == x.shifted(n));
            assert(op.operands()[1].shifted(n) == y.shifted(n));
        },
        Op::Sub(x, y) => {
            assert(op.operands()[0].shifted(n) == x.shifted(n));
            assert(op.operands()[1].shifted(n) == y.shifted(n));
        },
        Op::Square(x) => {
            assert(op.operands()[0].shifted(n) == x.shifted(n));
        },
        Op::TrainConst(..) => {},
    }
    assert(operands_value(b, merged, s, inputs, k + n) == operands_value(b, g2, s2, inputs, k));
}

/// Merging preserves what a graph computes: evaluating the graph merged
/// from `g1` and `g2` at a target of `g2` moved along with it, with the
/// state of `g2` after that of `g1`, gives what evaluating `g2` alone at
/// the target gives, for the same inputs.
pub proof fn lemma_merge_preserves_value<B: Backend>(
    b: B,
    g1: Graph,
    g2: Graph,
    merged: Graph,
    s1: Seq<Vec<B::Tensor>>,
    s2: Seq<Vec<B::Tensor>>,
    inputs: Inputs<B::Tensor>,
    target: Input,
)
    requires
        g2.wf(),
        merged.ops@ == g1.merged(g2),
        s1.len() == g1.ops@.len(),
        s2.len() == g2.ops@.len(),
        g1.ops@.len() + g2.ops@.len() <= usize::MAX,
        g2.holds(target),
    ensures
        value(b, merged, s1 + s2, inputs, target.shifted(g1.ops@.len() as nat)) == value(
            b,
            g2,
            s2,
            inputs,
            target,
        ),
{
    match target {
        Input::Internal(i) => {
            lemma_merged_node_value(b, g1, g2, merged, s1, s2, inputs, i.node as nat);
        },
        Input::Feed(_) => {},
    }
}

proof fn lemma_recorded_operand<B: Backend>(
    b: B,
    g: Graph,
    state: Seq<Vec<B::Tensor>>,
    inputs: Inputs<B::Tensor>,
    tape: Tape<B::Tensor>,
    x: Input,
    n: nat,
)
    requires
        g.wf(),
        consistent(tape, b, g, state, inputs),
        n < g.ops@.len(),
        x.before(n),
        operand_value(b, g, state, inputs, x, n) is Ok,
        reached_operand(g, x, n).subset_of(tape.memo().dom()),
    ensures
        recorded_value(tape.memo(), g, inputs, x) is Ok,
{
    if let Input::Internal(i) = x {
        assert(reached_node(g, i.node as nat).contains(i.node));
        assert(tape.memo().contains_key(i.node));
    }
}

/// Propagating a delta back through a consistent tape that records every
/// node reached from the target succeeds whenever the backend handles the
/// kind of each of those nodes: every value it reads is on the tape.
pub proof fn lemma_backward_after_forward<B: Backend>(
    b: B,
    g: Graph,
    state: Seq<Vec<B::Tensor>>,
    inputs: Inputs<B::Tensor>,
    tape: Tape<B::Tensor>,
    input: Input,
    delta: B::Tensor,
    acc: Map<usize, Seq<B::Tensor>>,
)
    requires
        g.wf(),
        consistent(tape, b, g, state, inputs),
        state.len() == g.ops@.len(),
        g.holds(input),
        reached(g, input).subset_of(tape.memo().dom()),
        forall|n: usize| #[trigger]
            reached(g, input).contains(n) ==> b.handles(g.ops@[n as int].kind()),
    ensures
        backprop_value(b, g, state, inputs, tape.memo(), input, delta, acc) is Ok,
    decreases input.rank(),
{
    if let Input::Internal(i) = input {
        let n = i.node;
        assert(reached_node(g, n as nat).contains(n));
        assert(tape.memo().contains_key(n));
        assert(n < g.ops@.len());
        let op = g.ops@[n as int];
        assert(op.operands_before(n as nat));
        assert(node_value(b, g, state, inputs, n as nat) is Ok);
        assert(b.handles(op.kind()));
        match op {
            Op::Add(x, y) => {
                assert(op.operands()[0].before(n as nat));
                assert(op.operands()[1].before(n as nat));
                lemma_recorded_operand(b, g, state, inputs, tape, x, n as nat);
                lemma_recorded_operand(b, g, state, inputs, tape, y, n as nat);
                let imop = recorded_operands(tape.memo(), g, inputs, op)->Ok_0;
                let grads = b.backward_value(imop, state[n as int]@, i.output, delta);
                let acc1 = crate::accumulate::added(acc, n, grads.1);
                let gs = packed(grads.0);
                lemma_backward_after_forward(b, g, state, inputs, tape, x, gs[0], acc1);
                let acc2 = backprop_value(b, g, state, inputs, tape.memo(), x, gs[0], acc1)->Ok_0;
                lemma_backward_after_forward(b, g, state, inputs, tape, y, gs[1], acc2);
            },
            Op::Sub(x, y) => {
                assert(op.operands()[0].before(n as nat));
                assert(op.operands()[1].before(n as nat));
                lemma_recorded_operand(b, g, state, inputs, tape, x, n as nat);
                lemma_recorded_operand(b, g, state, inputs, tape, y, n as nat);
                let imop = recorded_operands(tape.memo(), g, inputs, op)->Ok_0;
                let grads = b.backward_value(imop, state[n as int]@, i.output, delta);
                let acc1 = crate::accumulate::added(acc, n, grads.1);
                let gs = packed(grads.0);
                lemma_backward_after_forward(b, g, state, inputs, tape, x, gs[0], acc1);
                let acc2 = backprop_value(b, g, state, inputs, tape.memo(), x, gs[0], acc1)->Ok_0;
                lemma_backward_after_forward(b, g, state, inputs, tape, y, gs[1], acc2);
            },
            Op::Square(x) => {
                assert(op.operands()[0].before(n as nat));
                lemma_recorded_operand(b, g, state, inputs, tape, x, n as nat);
                let imop = recorded_operands(tape.memo(), g, inputs, op)->Ok_0;
                let grads = b.backward_value(imop, state[n as int]@, i.output, delta);
                let acc1 = crate::accumulate::added(acc, n, grads.1);
                let gs = packed(grads.0);
                lemma_backward_after_forward(b, g, state, inputs, tape, x, gs[0], acc1);
            },
            Op::TrainConst(..) => {},
        }
    }
}

/// Evaluates `input` on a fresh tape; returns its value together with the
/// tape, which a backward pass then reads. On success the tape records
/// exactly the nodes reached from `input`, and the forward kernel ran once
/// for each of them and no more.
pub fn forward<B: Backend>(
    backend: &mut B,
    graph: &Graph,
    state: &[Vec<B::Tensor>],
    inputs: &Inputs<B::Tensor>,
    input: Input,
) -> (r: Result<(B::Tensor, Tape<B::Tensor>), Error>)
    requires
        graph.wf(),
        state@.len() == graph.ops@.len(),
        input matches Input::Internal(i) ==> i.output == 0,
    ensures
        same_kernels(*final(backend), *old(backend)),
        match r {
            Ok((t, tape)) => {
                &&& value(*old(backend), *graph, state@, *inputs, input) == Ok::<B::Tensor, Error>(t)
                &&& consistent(tape, *final(backend), *graph, state@, *inputs)
                &&& tape.memo().dom() == reached(*graph, input)
                &&& final(backend).forward_runs().len() == old(backend).forward_runs().len()
                    + reached(*graph, input).len()
            },
            Err(e) => value(*old(backend), *graph, state@, *inputs, input) == Err::<
                B::Tensor,
                Error,
            >(e),
        },
{
    let mut tape: Tape<B::Tensor> = Tape::new();
    let ghost b0 = *backend;
    let ghost target = input;
    match tape.solve(backend, graph, state, inputs, input) {
        Ok(t) => {
            proof {
                if let Input::Internal(i) = target {
                    lemma_visited_reached(b0, *graph, state@, *inputs, i.node as nat);
                }
                assert(tape.memo().dom() =~= reached(*graph, target));
                assert(tape.evaluated().to_set() =~= tape.memo().dom());
                tape.evaluated().unique_seq_to_set();
            }
            Ok((t, tape))
        },
        Err(e) => Err(e),
    }
}

/// Propagates `output_delta`, arriving at `input`, back through the pass
/// that `tape` recorded; returns the gradients gathered per node.
pub fn backward<B: Backend>(
    backend: &B,
    graph: &Graph,
    state: &[Vec<B::Tensor>],
    tape: &Tape<B::Tensor>,
    inputs: &Inputs<B::Tensor>,
    input: Input,
    output_delta: B::Tensor,
) -> (r: Result<AccumulateTensors<B::Tensor>, Error>)
    requires
        graph.wf(),
        state@.len() == graph.ops@.len(),
        input matches Input::Internal(i) ==> i.output == 0,
    ensures
        same_outcome(
            r,
            backprop_value(
                *backend,
                *graph,
                state@,
                *inputs,
                tape.memo(),
                input,
                output_delta,
                Map::empty(),
            ),
        ),
        r matches Ok(a) ==> shaped(a@, state@),
{
    tape.backprop(backend, graph, state, inputs, input, output_delta, AccumulateTensors::new())
}

} // verus!
