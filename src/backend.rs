//! What a numeric backend supplies to the engine: a tensor type, per-kind
//! kernels for state, forward and backward, and the named inputs of one
//! evaluation.
use crate::graph::{Op, OpTy};
use vstd::prelude::*;

verus! {

/// The operations the engine needs of a tensor, whatever its storage.
pub trait TensorData: Sized {
    /// The element-wise sum of two tensors. Each implementation states
    /// it; the default leaves it unspecified.
    open spec fn plus(self, other: Self) -> Self {
        arbitrary()
    }

    /// Another handle on the same tensor.
    fn share(&self) -> (r: Self)
        ensures
            r == *self,
    ;

    /// Adds `other` element-wise in place.
    fn accumulate(&mut self, other: &Self)
        ensures
            *final(self) == old(self).plus(*other),
    ;
}

/// A node whose operands are tensors rather than addresses: what a kernel
/// receives, and what a backward kernel returns filled with gradients.
#[derive(Clone, Debug)]
pub enum ImOp<T> {
    Add(T, T),
    Sub(T, T),
    Square(T),
    TrainConst,
}

impl<T> ImOp<T> {
    pub open spec fn kind(self) -> OpTy {
        match self {
            ImOp::Add(..) => OpTy::Add,
            ImOp::Sub(..) => OpTy::Sub,
            ImOp::Square(..) => OpTy::Square,
            ImOp::TrainConst => OpTy::TrainConst,
        }
    }

    pub fn ty(&self) -> (r: OpTy)
        ensures
            r == self.kind(),
    {
        match self {
            ImOp::Add(..) => OpTy::Add,
            ImOp::Sub(..) => OpTy::Sub,
            ImOp::Square(..) => OpTy::Square,
            ImOp::TrainConst => OpTy::TrainConst,
        }
    }

    /// The two operands of an addition, or the value itself back.
    pub fn add(self) -> (r: Result<(T, T), Self>)
        ensures
            match self {
                ImOp::Add(a, b) => r == Ok::<(T, T), Self>((a, b)),
                _ => r == Err::<(T, T), Self>(self),
            },
    {
        match self {
            ImOp::Add(a, b) => Ok((a, b)),
            other => Err(other),
        }
    }

    /// The two operands of a subtraction, or the value itself back.
    pub fn sub(self) -> (r: Result<(T, T), Self>)
        ensures
            match self {
                ImOp::Sub(a, b) => r == Ok::<(T, T), Self>((a, b)),
                _ => r == Err::<(T, T), Self>(self),
            },
    {
        match self {
            ImOp::Sub(a, b) => Ok((a, b)),
            other => Err(other),
        }
    }

    /// The operand of a squaring, or the value itself back.
    pub fn square(self) -> (r: Result<T, Self>)
        ensures
            match self {
                ImOp::Square(a) => r == Ok::<T, Self>(a),
                _ => r == Err::<T, Self>(self),
            },
    {
        match self {
            ImOp::Square(a) => Ok(a),
            other => Err(other),
        }
    }
}

/// The recoverable failures of evaluation and backpropagation.
#[derive(Debug)]
pub enum Error {
    /// A feed was read that the inputs do not hold.
    InputNotProvided { name: String },
    /// A node was read that the graph does not hold or that was not
    /// evaluated.
    InternalNotComputed { node: usize, ty: Option<OpTy> },
    /// The backend registered no kernel for this kind of node.
    OpHasNoHandler { ty: OpTy },
}

/// A numeric engine: one kernel of each family per kind of node that it
/// handles. Every node produces a single output tensor.
pub trait Backend: Sized {
    type Tensor: TensorData;

    /// The source of randomness that state initializers draw from.
    type Rng;

    /// Whether kernels are registered for nodes of kind `ty`. As for the
    /// two below, each implementation states it; the default leaves it
    /// unspecified.
    open spec fn handles(&self, ty: OpTy) -> bool {
        arbitrary()
    }

    /// The output of the forward kernel on `imop` with node state `state`.
    open spec fn forward_value(&self, imop: ImOp<Self::Tensor>, state: Seq<Self::Tensor>) -> Self::Tensor {
        arbitrary()
    }

    /// What the backward kernel returns for `imop` with node state `state`
    /// when `delta` arrives at output slot `output`: the gradient of each
    /// operand, packed as the same kind of node, and the gradient of each
    /// state tensor.
    open spec fn backward_value(
        &self,
        imop: ImOp<Self::Tensor>,
        state: Seq<Self::Tensor>,
        output: usize,
        delta: Self::Tensor,
    ) -> (ImOp<Self::Tensor>, Seq<Self::Tensor>) {
        arbitrary()
    }

    /// The state that the initializer gives `op` when the random source is
    /// in state `rng`.
    open spec fn initial_value(&self, op: Op, rng: Self::Rng) -> Seq<Self::Tensor> {
        arbitrary()
    }

    /// The state of the random source after the initializer of `op` drew
    /// from it in state `rng`.
    open spec fn rng_after(&self, op: Op, rng: Self::Rng) -> Self::Rng {
        arbitrary()
    }

    /// The initial state of a node; `None` where no initializer is
    /// registered for its kind, and then nothing is drawn.
    fn init_state(&self, op: &Op, rng: &mut Self::Rng) -> (r: Option<Vec<Self::Tensor>>)
        ensures
            r is Some <==> self.handles(op.kind()),
            match r {
                Some(v) => {
                    &&& v@ == self.initial_value(*op, *old(rng))
                    &&& *final(rng) == self.rng_after(*op, *old(rng))
                },
                None => *final(rng) == *old(rng),
            },
    ;

    /// The forward kernels run so far, each by the node it was given, in
    /// order.
    open spec fn forward_runs(&self) -> Seq<ImOp<Self::Tensor>> {
        arbitrary()
    }

    /// Runs the forward kernel; `None` where none is registered. A run is
    /// recorded in `forward_runs`; the kernels themselves stay as they are.
    fn solve(&mut self, imop: ImOp<Self::Tensor>, state: &[Self::Tensor]) -> (r: Option<
        Vec<Self::Tensor>,
    >)
        ensures
            forall|ty: OpTy| #[trigger] final(self).handles(ty) == old(self).handles(ty),
            forall|im: ImOp<Self::Tensor>, st: Seq<Self::Tensor>| #[trigger]
                final(self).forward_value(im, st) == old(self).forward_value(im, st),
            forall|im: ImOp<Self::Tensor>, st: Seq<Self::Tensor>, o: usize, d: Self::Tensor|
                #[trigger] final(self).backward_value(im, st, o, d) == old(self).backward_value(
                    im,
                    st,
                    o,
                    d,
                ),
            match r {
                Some(v) => {
                    &&& old(self).handles(imop.kind())
                    &&& v@ == seq![old(self).forward_value(imop, state@)]
                    &&& final(self).forward_runs() == old(self).forward_runs().push(imop)
                },
                None => {
                    &&& !old(self).handles(imop.kind())
                    &&& final(self).forward_runs() == old(self).forward_runs()
                },
            },
    ;

    /// Runs the backward kernel for the delta arriving at one output slot;
    /// `None` where none is registered.
    fn propagate(
        &self,
        imop: ImOp<Self::Tensor>,
        state: &[Self::Tensor],
        output_delta: (usize, Self::Tensor),
    ) -> (r: Option<(ImOp<Self::Tensor>, Vec<Self::Tensor>)>)
        requires
            output_delta.0 == 0,
        ensures
            match r {
                Some((g, s)) => {
                    &&& self.handles(imop.kind())
                    &&& (g, s@) == self.backward_value(imop, state@, output_delta.0, output_delta.1)
                    &&& g.kind() == imop.kind()
                    &&& s@.len() == state@.len()
                },
                None => !self.handles(imop.kind()),
            },
    ;
}

/// `a` and `b` register the same kernels, which compute the same values.
pub open spec fn same_kernels<B: Backend>(a: B, b: B) -> bool {
    &&& forall|ty: OpTy| #[trigger] a.handles(ty) == b.handles(ty)
    &&& forall|imop: ImOp<B::Tensor>, st: Seq<B::Tensor>| #[trigger]
        a.forward_value(imop, st) == b.forward_value(imop, st)
    &&& forall|imop: ImOp<B::Tensor>, st: Seq<B::Tensor>, o: usize, d: B::Tensor| #[trigger]
        a.backward_value(imop, st, o, d) == b.backward_value(imop, st, o, d)
}

/// The tensor that the last of `entries` named `name` carries, if any.
pub open spec fn find<T>(entries: Seq<(String, T)>, name: Seq<char>) -> Option<T>
    decreases entries.len(),
{
    if entries.len() == 0 {
        None
    } else if entries.last().0@ == name {
        Some(entries.last().1)
    } else {
        find(entries.drop_last(), name)
    }
}

/// Named input tensors for one evaluation. A later entry under a name
/// replaces an earlier one.
pub struct Inputs<T> {
    entries: Vec<(String, T)>,
}

impl<T> Inputs<T> {
    /// The tensor supplied under `name`, if any.
    pub closed spec fn lookup(self, name: Seq<char>) -> Option<T> {
        find(self.entries@, name)
    }

    pub fn new() -> (r: Inputs<T>)
        ensures
            forall|name: Seq<char>| r.lookup(name) is None,
    {
        Inputs { entries: Vec::new() }
    }

    /// Supplies `tensor` under `name`, replacing what was there.
    pub fn insert(&mut self, name: &str, tensor: T)
        ensures
            final(self).lookup(name@) == Some(tensor),
            forall|other: Seq<char>| other != name@ ==> final(self).lookup(other) == old(self).lookup(other),
    {
        self.entries.push((name.to_owned(), tensor));
        assert(self.entries@.drop_last() == old(self).entries@);
    }

    /// The tensor supplied under `name`, if any.
    pub fn get(&self, name: &String) -> (r: Option<&T>)
        ensures
            match (r, self.lookup(name@)) {
                (Some(t), Some(u)) => *t == u,
                (None, None) => true,
                _ => false,
            },
    {
        let mut i: usize = self.entries.len();
        assert(self.entries@.subrange(0, i as int) == self.entries@);
        while i > 0
            invariant
                i <= self.entries@.len(),
                find(self.entries@, name@) == find(self.entries@.subrange(0, i as int), name@),
            decreases i,
        {
            let ghost pre = self.entries@.subrange(0, i as int);
            assert(pre.drop_last() == self.entries@.subrange(0, i - 1));
            if self.entries[i - 1].0 == *name {
                return Some(&self.entries[i - 1].1);
            }
            i = i - 1;
        }
        assert(self.entries@.subrange(0, 0).len() == 0);
        None
    }
}

} // verus!
