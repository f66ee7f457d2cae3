//! The graph model: nodes, their operands, and the append-only graph that
//! holds them.
use vstd::prelude::*;

verus! {

/// The address of one output slot of one node of a graph.
#[derive(Clone, Copy, Debug, PartialEq, Eq, Structural, PartialOrd, Ord, Hash)]
pub struct Internal {
    /// The node to pull the input tensor from.
    pub node: usize,
    /// The specific output to pull from.
    pub output: usize,
}

impl Internal {
    /// The same address with its node moved `shift` places further.
    pub open spec fn shifted(self, shift: nat) -> Internal {
        Internal { node: (self.node + shift) as usize, output: self.output }
    }

    /// Moves the node index `shift` places further.
    pub fn shift_inputs(&mut self, shift: usize)
        requires
            old(self).node + shift <= usize::MAX,
        ensures
            *final(self) == old(self).shifted(shift as nat),
    {
        self.node = self.node + shift;
    }
}

/// The kind of a node, without its operands. Backends register their
/// kernels under it.
#[derive(Clone, Copy, Debug, PartialEq, Eq, Structural, PartialOrd, Ord, Hash)]
pub enum OpTy {
    Add,
    Sub,
    Square,
    TrainConst,
}

/// Where an operand's value comes from.
#[derive(Clone, Debug)]
pub enum Input {
    /// A tensor supplied by name with each evaluation.
    Feed(String),
    /// An output of an earlier node of the same graph.
    Internal(Internal),
}

impl Input {
    /// The input with its node reference, if any, moved `shift` places further.
    pub open spec fn shifted(self, shift: nat) -> Input {
        match self {
            Input::Internal(i) => Input::Internal(i.shifted(shift)),
            Input::Feed(_) => self,
        }
    }

    /// Whether moving the input `shift` places further keeps its node index
    /// within `usize`.
    pub open spec fn fits(self, shift: nat) -> bool {
        match self {
            Input::Internal(i) => i.node + shift <= usize::MAX,
            Input::Feed(_) => true,
        }
    }

    /// Whether the input is a feed or the single output of a node before
    /// `bound`.
    pub open spec fn before(self, bound: nat) -> bool {
        match self {
            Input::Internal(i) => i.node < bound && i.output == 0,
            Input::Feed(_) => true,
        }
    }

    /// Zero for a feed, one more than the node index otherwise: operands of
    /// a node always rank below the node itself.
    pub open spec fn rank(self) -> nat {
        match self {
            Input::Internal(i) => (i.node + 1) as nat,
            Input::Feed(_) => 0,
        }
    }

    /// A feed of the given name.
    pub fn feed(name: &str) -> (r: Input)
        ensures
            r matches Input::Feed(s) && s@ == name@,
    {
        Input::Feed(name.to_owned())
    }

    /// An equal input.
    pub fn copied(&self) -> (r: Input)
        ensures
            r == *self,
    {
        match self {
            Input::Feed(name) => Input::Feed(name.clone()),
            Input::Internal(i) => Input::Internal(*i),
        }
    }

    /// Whether the input is a feed or the single output of a node before
    /// `bound`.
    pub fn is_before(&self, bound: usize) -> (r: bool)
        ensures
            r == self.before(bound as nat),
    {
        match self {
            Input::Internal(i) => i.node < bound && i.output == 0,
            Input::Feed(_) => true,
        }
    }

    /// Moves the node reference, if any, `shift` places further.
    pub fn shift_inputs(&mut self, shift: usize)
        requires
            old(self).fits(shift as nat),
        ensures
            *final(self) == old(self).shifted(shift as nat),
    {
        match self {
            Input::Internal(n) => n.shift_inputs(shift),
            Input::Feed(_) => {},
        }
    }
}

/// One node of a computation graph.
#[derive(Clone, Debug)]
pub enum Op {
    Add(Input, Input),
    Sub(Input, Input),
    Square(Input),
    /// A trainable constant: the shape of its tensor and the initial value
    /// of every element, given as the bits of an `f64`.
    TrainConst(Vec<usize>, u64),
}

impl Op {
    pub open spec fn kind(self) -> OpTy {
        match self {
            Op::Add(..) => OpTy::Add,
            Op::Sub(..) => OpTy::Sub,
            Op::Square(..) => OpTy::Square,
            Op::TrainConst(..) => OpTy::TrainConst,
        }
    }

    /// The operands, in order.
    pub open spec fn operands(self) -> Seq<Input> {
        match self {
            Op::Add(a, b) => seq![a, b],
            Op::Sub(a, b) => seq![a, b],
            Op::Square(a) => seq![a],
            Op::TrainConst(..) => seq![],
        }
    }

    /// The node with every operand moved `shift` places further.
    pub open spec fn shifted(self, shift: nat) -> Op {
        match self {
            Op::Add(a, b) => Op::Add(a.shifted(shift), b.shifted(shift)),
            Op::Sub(a, b) => Op::Sub(a.shifted(shift), b.shifted(shift)),
            Op::Square(a) => Op::Square(a.shifted(shift)),
            Op::TrainConst(..) => self,
        }
    }

    /// Every operand is a feed or the single output of a node before `bound`.
    pub open spec fn operands_before(self, bound: nat) -> bool {
        forall|k: int| 0 <= k < self.operands().len() ==> #[trigger] self.operands()[k].before(bound)
    }

    /// Every operand can be moved `shift` places further.
    pub open spec fn operands_fit(self, shift: nat) -> bool {
        forall|k: int| 0 <= k < self.operands().len() ==> #[trigger] self.operands()[k].fits(shift)
    }

    pub fn ty(&self) -> (r: OpTy)
        ensures
            r == self.kind(),
    {
        match self {
            Op::Add(..) => OpTy::Add,
            Op::Sub(..) => OpTy::Sub,
            Op::Square(..) => OpTy::Square,
            Op::TrainConst(..) => OpTy::TrainConst,
        }
    }

    /// Whether every operand is a feed or the single output of a node before
    /// `bound`.
    pub fn operands_are_before(&self, bound: usize) -> (r: bool)
        ensures
            r == self.operands_before(bound as nat),
    {
        let ghost bnd = bound as nat;
        match self {
            Op::Add(a, b) | Op::Sub(a, b) => {
                let (ra, rb) = (a.is_before(bound), b.is_before(bound));
                assert(self.operands()[0] == *a && self.operands()[1] == *b);
                if ra && rb {
                    assert forall|k: int| 0 <= k < self.operands().len() implies #[trigger] self.operands()[k].before(
                        bnd,
                    ) by {
                        if k == 0 {
                        } else {
                        }
                    }
                }
                ra && rb
            },
            Op::Square(a) => {
                let ra = a.is_before(bound);
                assert(self.operands()[0] == *a);
                if ra {
                    assert forall|k: int| 0 <= k < self.operands().len() implies #[trigger] self.operands()[k].before(
                        bnd,
                    ) by {}
                }
                ra
            },
            Op::TrainConst(..) => true,
        }
    }

    /// Moves every operand `shift` places further.
    pub fn shift_inputs(&mut self, shift: usize)
        requires
            old(self).operands_fit(shift as nat),
        ensures
            *final(self) == old(self).shifted(shift as nat),
    {
        match self {
            Op::Add(a, b) => {
                assert(old(self).operands()[0].fits(shift as nat));
                assert(old(self).operands()[1].fits(shift as nat));
                a.shift_inputs(shift);
                b.shift_inputs(shift);
            },
            Op::Sub(a, b) => {
                assert(old(self).operands()[0].fits(shift as nat));
                assert(old(self).operands()[1].fits(shift as nat));
                a.shift_inputs(shift);
                b.shift_inputs(shift);
            },
            Op::Square(a) => {
                assert(old(self).operands()[0].fits(shift as nat));
                a.shift_inputs(shift);
            },
            Op::TrainConst(..) => {},
        }
    }
}

/// An append-only list of nodes; a node's operands refer to nodes before it.
#[derive(Clone, Debug)]
pub struct Graph {
    /// A series of ops refering to each other's outputs for their input.
    pub ops: Vec<Op>,
}

/// `ops` with every operand moved `shift` places further.
pub open spec fn shifted_ops(ops: Seq<Op>, shift: nat) -> Seq<Op> {
    ops.map_values(|op: Op| op.shifted(shift))
}

/// Every operand of node `i` of `ops` is a feed or the output of a node
/// before `i`.
pub open spec fn ops_wf(ops: Seq<Op>) -> bool {
    forall|i: int| 0 <= i < ops.len() ==> (#[trigger] ops[i]).operands_before(i as nat)
}

/// Merging keeps the graph's invariant: a merged graph has no cycle, and
/// its inputs stay valid once moved along with it.
pub proof fn lemma_merge_wf(g1: Graph, g2: Graph, input: Input)
    requires
        g1.wf(),
        g2.wf(),
        g2.holds(input),
    ensures
        ops_wf(g1.merged(g2)),
        input.shifted(g1.ops@.len() as nat).before(g1.merged(g2).len()),
        forall|x: Input| g1.holds(x) ==> x.before(g1.merged(g2).len()),
{
    let n = g1.ops@.len();
    let m = g1.merged(g2);
    assert forall|i: int| 0 <= i < m.len() implies (#[trigger] m[i]).operands_before(i as nat) by {
        if i >= n {
            let op = g2.ops@[i - n];
            assert(op.operands_before((i - n) as nat));
            assert(m[i] == op.shifted(n as nat));
            assert forall|k: int| 0 <= k < m[i].operands().len() implies #[trigger] m[i].operands()[k].before(
                i as nat,
            ) by {
                assert(op.operands()[k].before((i - n) as nat));
            }
        } else {
            assert(m[i] == g1.ops@[i]);
            assert(g1.ops@[i].operands_before(i as nat));
        }
    }
}

impl Graph {
    /// The graph's invariant: every operand of node `i` is a feed or the
    /// output of a node before `i`, so the graph has no cycle.
    pub open spec fn wf(self) -> bool {
        ops_wf(self.ops@)
    }

    /// Whether `input` can be evaluated in this graph: a feed, or the output
    /// of one of its nodes.
    pub open spec fn holds(self, input: Input) -> bool {
        input.before(self.ops@.len())
    }

    /// The nodes of `self` followed by those of `other`, moved past them.
    pub open spec fn merged(self, other: Graph) -> Seq<Op> {
        self.ops@ + shifted_ops(other.ops@, self.ops@.len())
    }

    /// Checks the graph's invariant.
    pub fn is_wf(&self) -> (r: bool)
        ensures
            r == self.wf(),
    {
        let mut i: usize = 0;
        while i < self.ops.len()
            invariant
                i <= self.ops@.len(),
                forall|j: int| 0 <= j < i ==> (#[trigger] self.ops@[j]).operands_before(j as nat),
            decreases self.ops@.len() - i,
        {
            if !self.ops[i].operands_are_before(i) {
                return false;
            }
            i = i + 1;
        }
        true
    }

    /// Whether `input` can be evaluated in this graph.
    pub fn holds_input(&self, input: &Input) -> (r: bool)
        ensures
            r == self.holds(*input),
    {
        input.is_before(self.ops.len())
    }

    pub fn new() -> (r: Graph)
        ensures
            r.ops@ == Seq::<Op>::empty(),
    {
        Graph { ops: Vec::new() }
    }

    /// Pushes `op` at the end and returns its index.
    pub fn append(&mut self, op: Op) -> (node: usize)
        requires
            old(self).ops.len() < usize::MAX,
        ensures
            final(self).ops@ == old(self).ops@.push(op),
            node == old(self).ops.len(),
    {
        let node = self.ops.len();
        self.ops.push(op);
        node
    }

    /// Appends the nodes of `other`, each operand index moved by the number
    /// of nodes that were here before.
    pub fn merge(&mut self, other: Graph)
        requires
            old(self).ops.len() + other.ops.len() <= usize::MAX,
            other.wf(),
        ensures
            final(self).ops@ == old(self).merged(other),
    {
        let current = self.ops.len();
        let ghost start = self.ops@;
        let mut other = other;
        let ghost added = other.ops@;
        self.ops.append(&mut other.ops);
        let mut i: usize = current;
        while i < self.ops.len()
            invariant
                current == start.len(),
                current + added.len() <= usize::MAX,
                self.ops@.len() == current + added.len(),
                current <= i <= self.ops@.len(),
                forall|j: int| 0 <= j < current ==> self.ops@[j] == start[j],
                forall|j: int| current <= j < i ==> self.ops@[j] == added[j - current].shifted(current as nat),
                forall|j: int| i <= j < self.ops@.len() ==> self.ops@[j] == added[j - current],
                forall|k: int| 0 <= k < added.len() ==> #[trigger] added[k].operands_before(k as nat),
            decreases self.ops@.len() - i,
        {
            let ghost k = i - current;
            assert(added[k].operands_before(k as nat));
            assert(added[k].operands_fit(current as nat)) by {
                assert forall|m: int| 0 <= m < added[k].operands().len() implies #[trigger] added[k].operands()[m].fits(current as nat) by {
                    assert(added[k].operands()[m].before(k as nat));
                }
            }
            self.ops[i].shift_inputs(current);
            i = i + 1;
        }
        assert(self.ops@ =~= start + shifted_ops(added, current as nat));
    }

    /// Merges `other` and moves `input`, an input of `other`, along with it.
    pub fn merge_input(&mut self, other: Graph, input: Input) -> (r: Input)
        requires
            old(self).ops.len() + other.ops.len() <= usize::MAX,
            other.wf(),
            input.fits(old(self).ops.len() as nat),
        ensures
            final(self).ops@ == old(self).merged(other),
            r == input.shifted(old(self).ops.len() as nat),
    {
        let current = self.ops.len();
        self.merge(other);
        let mut input = input;
        input.shift_inputs(current);
        input
    }
}

} // verus!
