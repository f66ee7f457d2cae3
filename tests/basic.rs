use deep::{
    backward, forward, generate_state, train, AccumulateTensors, Backend, Error, Graph, ImOp,
    Input, Inputs, Internal, Op, OpTy, Tape, Tensor, TensorData,
};
use ndarray::{arr0, arr1, ArcArray, IxDyn};
use rand::{thread_rng, Rng};
use std::cell::Cell;

#[derive(Clone, Debug, PartialEq)]
struct Tsor(ArcArray<f32, IxDyn>);

fn tsor0(n: f32) -> Tsor {
    Tsor(arr0(n).into_shared().into_dyn())
}

fn tsor1(n: &[f32]) -> Tsor {
    Tsor(arr1(n).into_shared().into_dyn())
}

impl TensorData for Tsor {
    fn share(&self) -> Self {
        self.clone()
    }

    fn accumulate(&mut self, other: &Self) {
        self.0 = (&self.0 + &other.0).into_shared();
    }
}

/// A backend with the kernels of the four kinds of node, of which only
/// those listed are registered. It counts the forward kernels it runs.
struct Kernels {
    registered: Vec<OpTy>,
    forward_runs: Cell<usize>,
}

impl Kernels {
    fn with(registered: &[OpTy]) -> Self {
        Kernels {
            registered: registered.to_vec(),
            forward_runs: Cell::new(0),
        }
    }

    fn all() -> Self {
        Self::with(&[OpTy::Add, OpTy::Sub, OpTy::Square, OpTy::TrainConst])
    }

    fn has(&self, ty: OpTy) -> bool {
        self.registered.contains(&ty)
    }
}

impl Backend for Kernels {
    type Tensor = Tsor;
    type Rng = rand::rngs::ThreadRng;

    fn init_state(&self, op: &Op, _rng: &mut Self::Rng) -> Option<Vec<Tsor>> {
        if !self.has(op.ty()) {
            return None;
        }
        match op {
            Op::TrainConst(shape, bits) => {
                let zeros = ArcArray::<f32, IxDyn>::zeros(IxDyn(&shape[..]));
                Some(vec![Tsor(
                    (zeros + f64::from_bits(*bits) as f32).into_shared(),
                )])
            }
            _ => Some(vec![]),
        }
    }

    fn solve(&mut self, imop: ImOp<Tsor>, state: &[Tsor]) -> Option<Vec<Tsor>> {
        if !self.has(imop.ty()) {
            return None;
        }
        self.forward_runs.set(self.forward_runs.get() + 1);
        Some(match imop {
            ImOp::Add(a, b) => vec![Tsor((&a.0 + &b.0).into_shared())],
            ImOp::Sub(a, b) => vec![Tsor((&a.0 - &b.0).into_shared())],
            ImOp::Square(a) => vec![Tsor(a.0.mapv(|n| n.powi(2)).into_shared())],
            ImOp::TrainConst => vec![state[0].clone()],
        })
    }

    fn propagate(
        &self,
        imop: ImOp<Tsor>,
        _state: &[Tsor],
        (_, d): (usize, Tsor),
    ) -> Option<(ImOp<Tsor>, Vec<Tsor>)> {
        if !self.has(imop.ty()) {
            return None;
        }
        Some(match imop {
            ImOp::Add(..) => (ImOp::Add(d.clone(), d), vec![]),
            ImOp::Sub(..) => (ImOp::Sub(d.clone(), Tsor((-&d.0).into_shared())), vec![]),
            ImOp::Square(a) => (
                ImOp::Square(Tsor((&a.0 * &d.0 * 2.0).into_shared())),
                vec![],
            ),
            ImOp::TrainConst => (ImOp::TrainConst, vec![d]),
        })
    }
}

fn feed(entries: &[(&str, Tsor)]) -> Inputs<Tsor> {
    let mut inputs = Inputs::new();
    for (name, t) in entries {
        inputs.insert(name, t.clone());
    }
    inputs
}

fn internal(node: usize) -> Input {
    Input::Internal(Internal { node, output: 0 })
}

/// One step of gradient descent on `loss`, returning the loss before it.
fn gradient_descent(
    loss: &Tensor,
    backend: &mut Kernels,
    state: &mut Vec<Vec<Tsor>>,
    inputs: &Inputs<Tsor>,
    learning_rate: f32,
) -> Result<f32, Error> {
    let (output, tape) = loss.forward(backend, state, inputs)?;
    let value = *output.0.iter().next().unwrap();
    loss.descend(&*backend, state, &tape, inputs, tsor0(-learning_rate * value))?;
    Ok(value)
}

#[test]
fn forward_add() {
    let mut backend = Kernels::with(&[OpTy::Add]);
    // Inputs
    let feed = feed(&[("a", tsor1(&[2.0])), ("b", tsor1(&[3.0]))]);

    // Add two input tensors to make an output tensor.
    let c = Tensor::from_name("a").add(Tensor::from_name("b"));

    // Generate the state for training the graph for the tensor.
    let state = c
        .gen_state(&backend, &mut thread_rng())
        .expect("unable to generate state");

    // Evaluate the tensor given the inputs.
    let output = c.eval(&mut backend, &state, &feed).expect("unable to eval");

    // Validate the output.
    let expected = tsor1(&[5.0]);
    assert_eq!(output, expected);
}

#[test]
fn train_add() {
    let mut backend = Kernels::all();

    // Add two input tensors to make an output tensor.
    let y = Tensor::from_name("x").add(Tensor::train_const(vec![], 0.0f64.to_bits()));

    // The loss function.
    let loss = y.sub(Tensor::from_name("y")).squared();

    // Generate the state for training the graph for the tensor.
    let mut state = loss
        .gen_state(&backend, &mut thread_rng())
        .expect("unable to generate state");

    // The actual difference.
    let m = 5.0;

    // The learning rate.
    let learning_rate = 0.01;

    let mut loss_value = std::f32::NAN;

    for _ in 0..1000 {
        // Random x value
        let x: f32 = thread_rng().gen();
        // Compute y
        let y = x + m;
        // Inputs
        let feed = feed(&[("x", tsor0(x)), ("y", tsor0(y))]);

        // Train the network and get back the loss value.
        loss_value = gradient_descent(&loss, &mut backend, &mut state, &feed, learning_rate)
            .expect("unable to train");
        println!("loss at {}", loss_value);
    }

    // Loss starts around 25.
    assert!(loss_value < 0.1);
}

#[test]
fn first_loss_is_near_twenty_five() {
    let mut backend = Kernels::all();
    let y = Tensor::from_name("x").add(Tensor::train_const(vec![], 0.0f64.to_bits()));
    let loss = y.sub(Tensor::from_name("y")).squared();
    let mut state = loss.gen_state(&backend, &mut thread_rng()).unwrap();
    let feed = feed(&[("x", tsor0(1.0)), ("y", tsor0(6.0))]);
    let first = gradient_descent(&loss, &mut backend, &mut state, &feed, 0.01).unwrap();
    assert_eq!(first, 25.0);
    // theta is node 0; d loss / d theta = 2 * (1 + 0 - 6) = -10, times the
    // output delta -0.01 * 25.
    assert_eq!(state[0][0], tsor0(2.5));
}

#[test]
fn shared_node_is_evaluated_once() {
    // s = a + b, used as both operands of s + s.
    let graph = Graph {
        ops: vec![
            Op::Add(Input::feed("a"), Input::feed("b")),
            Op::Add(internal(0), internal(0)),
        ],
    };
    let mut backend = Kernels::all();
    let state = generate_state(&backend, &graph, &mut thread_rng()).unwrap();
    let inputs = feed(&[("a", tsor0(2.0)), ("b", tsor0(3.0))]);
    let (out, mut tape) = forward(&mut backend, &graph, &state, &inputs, internal(1)).unwrap();
    assert_eq!(out, tsor0(10.0));
    assert_eq!(backend.forward_runs.get(), 2);
    // Asking again within the same pass runs no kernel.
    let again = tape
        .solve(&mut backend, &graph, &state, &inputs, internal(1))
        .unwrap();
    assert_eq!(again, tsor0(10.0));
    assert_eq!(backend.forward_runs.get(), 2);
    let first = tape
        .solve(&mut backend, &graph, &state, &inputs, internal(0))
        .unwrap();
    assert_eq!(first, tsor0(5.0));
    assert_eq!(backend.forward_runs.get(), 2);
}

#[test]
fn gradients_of_two_consumers_add_up() {
    // theta feeds both operands of theta + theta.
    let graph = Graph {
        ops: vec![
            Op::TrainConst(vec![], 1.5f64.to_bits()),
            Op::Add(internal(0), internal(0)),
        ],
    };
    let mut backend = Kernels::all();
    let state = generate_state(&backend, &graph, &mut thread_rng()).unwrap();
    assert_eq!(state[0], vec![tsor0(1.5)]);
    let inputs = feed(&[]);
    let (out, tape) = forward(&mut backend, &graph, &state, &inputs, internal(1)).unwrap();
    assert_eq!(out, tsor0(3.0));
    let delta = backward(&backend, &graph, &state, &tape, &inputs, internal(1), tsor0(0.25))
        .unwrap();
    assert_eq!(delta.get(0), Some(&vec![tsor0(0.5)]));
    assert_eq!(delta.get(1), Some(&vec![]));
    assert_eq!(delta.get(2), None);
}

#[test]
fn accumulator_sums_per_slot() {
    let mut acc = AccumulateTensors::new();
    acc.insert(3, vec![tsor0(1.0), tsor0(2.0)]);
    assert_eq!(acc.get(3), Some(&vec![tsor0(1.0), tsor0(2.0)]));
    acc.insert(3, vec![tsor0(10.0), tsor0(20.0)]);
    assert_eq!(acc.get(3), Some(&vec![tsor0(11.0), tsor0(22.0)]));
    acc.insert(1, vec![tsor0(4.0)]);
    assert_eq!(acc.get(1), Some(&vec![tsor0(4.0)]));
    assert_eq!(acc.get(3), Some(&vec![tsor0(11.0), tsor0(22.0)]));

    let mut other = AccumulateTensors::new();
    other.insert(3, vec![tsor0(10.0), tsor0(20.0)]);
    other.insert(3, vec![tsor0(1.0), tsor0(2.0)]);
    assert_eq!(other.get(3), acc.get(3));
}

#[test]
fn merge_shifts_internal_nodes() {
    let mut g1 = Graph {
        ops: vec![
            Op::TrainConst(vec![], 0.0f64.to_bits()),
            Op::Square(internal(0)),
        ],
    };
    let g2 = Graph {
        ops: vec![
            Op::Sub(Input::feed("p"), Input::feed("q")),
            Op::Square(internal(0)),
            Op::Add(internal(1), internal(0)),
        ],
    };
    let target = g1.merge_input(g2, internal(2));
    assert_eq!(g1.ops.len(), 5);
    match (&target, &g1.ops[3], &g1.ops[4]) {
        (
            Input::Internal(t),
            Op::Square(Input::Internal(s)),
            Op::Add(Input::Internal(a), Input::Internal(b)),
        ) => {
            assert_eq!(*t, Internal { node: 4, output: 0 });
            assert_eq!(*s, Internal { node: 2, output: 0 });
            assert_eq!(*a, Internal { node: 3, output: 0 });
            assert_eq!(*b, Internal { node: 2, output: 0 });
        }
        _ => panic!("merged nodes lost their shape"),
    }
    match &g1.ops[2] {
        Op::Sub(Input::Feed(p), Input::Feed(q)) => {
            assert_eq!(p, "p");
            assert_eq!(q, "q");
        }
        _ => panic!("feeds must not move"),
    }
}

#[test]
fn merged_graph_keeps_values() {
    let make_g2 = || Graph {
        ops: vec![
            Op::Sub(Input::feed("p"), Input::feed("q")),
            Op::Square(internal(0)),
            Op::Add(internal(1), internal(0)),
        ],
    };
    let mut backend = Kernels::all();
    let inputs = feed(&[("p", tsor0(7.0)), ("q", tsor0(4.0))]);
    let g2 = make_g2();
    let s2 = generate_state(&backend, &g2, &mut thread_rng()).unwrap();
    let (alone, _) = forward(&mut backend, &g2, &s2, &inputs, internal(2)).unwrap();
    assert_eq!(alone, tsor0(12.0));

    let mut merged = Graph {
        ops: vec![
            Op::TrainConst(vec![], 2.0f64.to_bits()),
            Op::Square(internal(0)),
        ],
    };
    let target = merged.merge_input(make_g2(), internal(2));
    let state = generate_state(&backend, &merged, &mut thread_rng()).unwrap();
    let (shifted, _) = forward(&mut backend, &merged, &state, &inputs, target).unwrap();
    assert_eq!(shifted, alone);
}

#[test]
fn missing_input_fails() {
    let mut backend = Kernels::all();
    let t = Tensor::from_name("x").add(Tensor::from_name("z"));
    let state = t.gen_state(&backend, &mut thread_rng()).unwrap();
    let inputs = feed(&[("x", tsor0(1.0))]);
    match t.eval(&mut backend, &state, &inputs) {
        Err(Error::InputNotProvided { name }) => assert_eq!(name, "z"),
        other => panic!("expected a missing input, got {:?}", other),
    }
}

#[test]
fn unregistered_op_fails() {
    let mut backend = Kernels::with(&[OpTy::Add, OpTy::Sub, OpTy::TrainConst]);
    let t = Tensor::from_name("x").squared();
    let state = vec![vec![]];
    let inputs = feed(&[("x", tsor0(3.0))]);
    match t.eval(&mut backend, &state, &inputs) {
        Err(Error::OpHasNoHandler { ty }) => assert_eq!(ty, OpTy::Square),
        other => panic!("expected a missing handler, got {:?}", other),
    }
    assert_eq!(backend.forward_runs.get(), 0);
}

#[test]
fn state_generation_needs_every_initializer() {
    let backend = Kernels::with(&[OpTy::Add, OpTy::Square]);
    let t = Tensor::from_name("x")
        .add(Tensor::train_const(vec![2], 1.0f64.to_bits()))
        .squared();
    match t.gen_state(&backend, &mut thread_rng()) {
        Err(Error::OpHasNoHandler { ty }) => assert_eq!(ty, OpTy::TrainConst),
        other => panic!("expected a missing initializer, got {:?}", other.map(|s| s.len())),
    }
    let state = t.gen_state(&Kernels::all(), &mut thread_rng()).unwrap();
    assert_eq!(state.len(), 3);
    assert_eq!(state[0], vec![tsor1(&[1.0, 1.0])]);
    assert!(state[1].is_empty());
}

#[test]
fn missing_node_is_reported() {
    let graph = Graph {
        ops: vec![Op::Square(Input::feed("x"))],
    };
    let mut backend = Kernels::all();
    let state = vec![vec![]];
    let inputs = feed(&[("x", tsor0(3.0))]);
    match forward(&mut backend, &graph, &state, &inputs, internal(4)) {
        Err(Error::InternalNotComputed { node, ty }) => {
            assert_eq!(node, 4);
            assert_eq!(ty, None);
        }
        _ => panic!("expected a node that was not computed"),
    }
    let tape: Tape<Tsor> = Tape::new();
    match tape.input(&inputs, &graph, internal(0)) {
        Err(Error::InternalNotComputed { node, ty }) => {
            assert_eq!(node, 0);
            assert_eq!(ty, Some(OpTy::Square));
        }
        _ => panic!("expected a node that was not computed"),
    }
    assert_eq!(tape.input(&inputs, &graph, Input::feed("x")).unwrap(), tsor0(3.0));
}

#[test]
fn backward_reads_only_what_was_recorded() {
    let graph = Graph {
        ops: vec![
            Op::TrainConst(vec![], 1.0f64.to_bits()),
            Op::Square(internal(0)),
        ],
    };
    let mut full = Kernels::all();
    let state = generate_state(&full, &graph, &mut thread_rng()).unwrap();
    let inputs = feed(&[]);
    let empty = Tape::new();
    match backward(&full, &graph, &state, &empty, &inputs, internal(1), tsor0(1.0)) {
        Err(Error::InternalNotComputed { node, ty }) => {
            assert_eq!(node, 0);
            assert_eq!(ty, Some(OpTy::TrainConst));
        }
        _ => panic!("expected a node that was not computed"),
    }
    let (_, tape) = forward(&mut full, &graph, &state, &inputs, internal(1)).unwrap();
    let partial = Kernels::with(&[OpTy::TrainConst]);
    match backward(&partial, &graph, &state, &tape, &inputs, internal(1), tsor0(1.0)) {
        Err(Error::OpHasNoHandler { ty }) => assert_eq!(ty, OpTy::Square),
        _ => panic!("expected a missing handler"),
    }
    let delta = backward(&full, &graph, &state, &tape, &inputs, internal(1), tsor0(1.0)).unwrap();
    // d (theta^2) / d theta at theta = 1.
    assert_eq!(delta.get(0), Some(&vec![tsor0(2.0)]));
}

#[test]
fn train_adds_gradients_to_state() {
    let mut state = vec![vec![tsor0(1.0), tsor0(2.0)], vec![], vec![tsor0(5.0)]];
    let mut delta = AccumulateTensors::new();
    delta.insert(0, vec![tsor0(0.5), tsor0(-1.0)]);
    train(&mut state, &delta);
    assert_eq!(state[0], vec![tsor0(1.5), tsor0(1.0)]);
    assert!(state[1].is_empty());
    assert_eq!(state[2], vec![tsor0(5.0)]);
}

#[test]
fn later_inputs_replace_earlier_ones() {
    let mut inputs = Inputs::new();
    inputs.insert("a", tsor0(1.0));
    inputs.insert("b", tsor0(2.0));
    inputs.insert("a", tsor0(3.0));
    assert_eq!(inputs.get(&"a".to_owned()), Some(&tsor0(3.0)));
    assert_eq!(inputs.get(&"b".to_owned()), Some(&tsor0(2.0)));
    assert_eq!(inputs.get(&"c".to_owned()), None);
}

#[test]
fn shifting_moves_only_node_indices() {
    let mut i = Internal { node: 2, output: 1 };
    i.shift_inputs(5);
    assert_eq!(i, Internal { node: 7, output: 1 });

    let mut f = Input::feed("w");
    f.shift_inputs(5);
    match f {
        Input::Feed(name) => assert_eq!(name, "w"),
        _ => panic!("a feed stays a feed"),
    }

    let mut op = Op::Sub(internal(1), Input::feed("w"));
    op.shift_inputs(3);
    match op {
        Op::Sub(Input::Internal(a), Input::Feed(name)) => {
            assert_eq!(a, Internal { node: 4, output: 0 });
            assert_eq!(name, "w");
        }
        _ => panic!("shifting keeps the kind"),
    }
}

#[test]
fn builder_appends_nodes() {
    let t = Tensor::from_name("x");
    assert!(t.graph().ops.is_empty());
    let t = t.squared();
    assert_eq!(t.graph().ops.len(), 1);
    match t.input() {
        Input::Internal(i) => assert_eq!(*i, Internal { node: 0, output: 0 }),
        _ => panic!("squaring yields a node"),
    }
    let u = Tensor::train_const(vec![3], 0.0f64.to_bits()).sub(t);
    assert_eq!(u.graph().ops.len(), 3);
    match (&u.graph().ops[2], u.input()) {
        (Op::Sub(Input::Internal(a), Input::Internal(b)), Input::Internal(out)) => {
            assert_eq!(*a, Internal { node: 0, output: 0 });
            assert_eq!(*b, Internal { node: 1, output: 0 });
            assert_eq!(*out, Internal { node: 2, output: 0 });
        }
        _ => panic!("subtraction node expected"),
    }
    assert_eq!(u.graph().ops[2].ty(), OpTy::Sub);
}

#[test]
fn immediate_ops_unpack_their_own_kind() {
    let add: ImOp<u8> = ImOp::Add(1, 2);
    assert_eq!(add.ty(), OpTy::Add);
    assert!(matches!(add.clone().add(), Ok((1, 2))));
    assert!(matches!(add.clone().sub(), Err(ImOp::Add(1, 2))));
    assert!(matches!(ImOp::Sub(3u8, 4).sub(), Ok((3, 4))));
    assert!(matches!(ImOp::Square(5u8).square(), Ok(5)));
    assert!(matches!(ImOp::<u8>::TrainConst.square(), Err(ImOp::TrainConst)));
}

#[test]
fn graph_invariant_is_checked() {
    let good = Graph {
        ops: vec![
            Op::Square(Input::feed("x")),
            Op::Add(internal(0), Input::feed("y")),
        ],
    };
    assert!(good.is_wf());
    assert!(good.holds_input(&internal(1)));
    assert!(good.holds_input(&Input::feed("anything")));
    assert!(!good.holds_input(&internal(2)));
    assert!(!good.holds_input(&Input::Internal(Internal { node: 0, output: 1 })));

    let forward_ref = Graph {
        ops: vec![Op::Square(internal(1)), Op::Square(Input::feed("x"))],
    };
    assert!(!forward_ref.is_wf());
    let self_ref = Graph {
        ops: vec![Op::Sub(Input::feed("x"), internal(0))],
    };
    assert!(!self_ref.is_wf());
    assert!(Graph::new().is_wf());
}

#[test]
fn evaluation_stops_at_the_first_error() {
    // The left operand is a missing feed; the right one is a node.
    let graph = Graph {
        ops: vec![
            Op::Square(Input::feed("x")),
            Op::Add(Input::feed("missing"), internal(0)),
        ],
    };
    let mut backend = Kernels::all();
    let state = vec![vec![], vec![]];
    let inputs = feed(&[("x", tsor0(3.0))]);
    let mut tape = Tape::new();
    match tape.solve(&mut backend, &graph, &state, &inputs, internal(1)) {
        Err(Error::InputNotProvided { name }) => assert_eq!(name, "missing"),
        _ => panic!("expected a missing input"),
    }
    assert_eq!(backend.forward_runs.get(), 0);
    assert!(matches!(
        tape.input(&inputs, &graph, internal(0)),
        Err(Error::InternalNotComputed { node: 0, .. })
    ));
    // A later request in the same pass evaluates what it needs.
    assert_eq!(
        tape.solve(&mut backend, &graph, &state, &inputs, internal(0)).unwrap(),
        tsor0(9.0)
    );
    assert_eq!(backend.forward_runs.get(), 1);
}
