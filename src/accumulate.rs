//! Gradients gathered per node during one backward pass. Contributions to a
//! node that is reached more than once are summed, never overwritten.
use crate::backend::TensorData;
use std::collections::HashMap;
use vstd::prelude::*;

verus! {

broadcast use vstd::std_specs::hash::group_hash_axioms;

/// The element-wise sums `a[i] + b[i]`, as long as `a`.
pub open spec fn plus_all<T: TensorData>(a: Seq<T>, b: Seq<T>) -> Seq<T> {
    Seq::new(a.len(), |i: int| a[i].plus(b[i]))
}

/// `m` after the contribution `ts` for `node`: stored as it is where the
/// node has none yet, added slot by slot otherwise.
pub open spec fn added<T: TensorData>(m: Map<usize, Seq<T>>, node: usize, ts: Seq<T>) -> Map<
    usize,
    Seq<T>,
> {
    if m.contains_key(node) {
        m.insert(node, plus_all(m[node], ts))
    } else {
        m.insert(node, ts)
    }
}

/// A map from node index to the gradients of its state slots.
pub struct AccumulateTensors<T> {
    pub table: HashMap<usize, Vec<T>>,
}

impl<T> View for AccumulateTensors<T> {
    type V = Map<usize, Seq<T>>;

    open spec fn view(&self) -> Map<usize, Seq<T>> {
        self.table@.map_values(|v: Vec<T>| v@)
    }
}

impl<T> AccumulateTensors<T> {
    pub fn new() -> (r: AccumulateTensors<T>)
        ensures
            r@ == Map::<usize, Seq<T>>::empty(),
    {
        let r = AccumulateTensors { table: HashMap::new() };
        assert(r@ =~= Map::<usize, Seq<T>>::empty());
        r
    }

    /// The gradients gathered for `node`, if any.
    pub fn get(&self, node: usize) -> (r: Option<&Vec<T>>)
        ensures
            match r {
                Some(v) => self@.contains_key(node) && v@ == self@[node],
                None => !self@.contains_key(node),
            },
    {
        self.table.get(&node)
    }
}

impl<T: TensorData> AccumulateTensors<T> {
    /// Adds the contribution `tensors` for node `slot`. A node that has
    /// gradients already must get as many tensors again.
    pub fn insert(&mut self, slot: usize, tensors: Vec<T>)
        requires
            old(self)@.contains_key(slot) ==> old(self)@[slot].len() == tensors@.len(),
        ensures
            final(self)@ == added(old(self)@, slot, tensors@),
    {
        match self.table.remove(&slot) {
            Some(mut existing) => {
                let ghost start = existing@;
                let mut i: usize = 0;
                while i < existing.len()
                    invariant
                        existing@.len() == tensors@.len(),
                        start.len() == tensors@.len(),
                        0 <= i <= existing@.len(),
                        forall|j: int| 0 <= j < i ==> existing@[j] == start[j].plus(tensors@[j]),
                        forall|j: int| i <= j < existing@.len() ==> existing@[j] == start[j],
                    decreases existing@.len() - i,
                {
                    existing[i].accumulate(&tensors[i]);
                    i = i + 1;
                }
                assert(existing@ =~= plus_all(start, tensors@));
                self.table.insert(slot, existing);
            },
            None => {
                self.table.insert(slot, tensors);
            },
        }
        assert(self@ =~= added(old(self)@, slot, tensors@));
    }
}

/// Two consumers of one node contribute `d1` and `d2`: the node's gradient
/// is their element-wise sum, and when tensor addition commutes it does not
/// matter which consumer is visited first.
pub proof fn lemma_accumulate_two_consumers<T: TensorData>(
    m: Map<usize, Seq<T>>,
    node: usize,
    d1: Seq<T>,
    d2: Seq<T>,
)
    requires
        !m.contains_key(node),
        d1.len() == d2.len(),
    ensures
        added(added(m, node, d1), node, d2)[node] == plus_all(d1, d2),
        (forall|a: T, b: T| #[trigger] a.plus(b) == b.plus(a)) ==> added(added(m, node, d1), node, d2)
            == added(added(m, node, d2), node, d1),
{
    if forall|a: T, b: T| #[trigger] a.plus(b) == b.plus(a) {
        assert(plus_all(d1, d2) =~= plus_all(d2, d1));
        assert(added(added(m, node, d1), node, d2) =~= added(added(m, node, d2), node, d1));
    }
}

} // verus!
