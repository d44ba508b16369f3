use neoronet::network::{reports_epoch, Activation, Arithmetic, Network, NetworkError, SaveData};
use neoronet::tensor::Tensor2D;
use rand::rngs::StdRng;
use rand::{Rng, SeedableRng};

fn plus(x: f32, y: f32) -> f32 {
    x + y
}

fn minus(x: f32, y: f32) -> f32 {
    x - y
}

fn times(x: f32, y: f32) -> f32 {
    x * y
}

fn identity(x: f32) -> f32 {
    x
}

fn one(_x: f32) -> f32 {
    1.0
}

fn sigmoid(x: f32) -> f32 {
    1.0 / (1.0 + std::f32::consts::E.powf(-x))
}

fn sigmoid_derivative(y: f32) -> f32 {
    y * (1.0 - y)
}

type Arith = Arithmetic<f32, fn(f32, f32) -> f32, fn(f32, f32) -> f32, fn(f32, f32) -> f32>;
type Act = Activation<fn(f32) -> f32, fn(f32) -> f32>;
type Net = Network<f32, fn(f32, f32) -> f32, fn(f32, f32) -> f32, fn(f32, f32) -> f32, fn(f32) -> f32, fn(f32) -> f32>;

fn arithmetic() -> Arith {
    Arithmetic { zero: 0.0, plus, minus, times }
}

fn linear() -> Act {
    Activation { function: identity, derivative: one }
}

fn logistic() -> Act {
    Activation { function: sigmoid, derivative: sigmoid_derivative }
}

fn matrix(rows: &[&[f32]]) -> Tensor2D<f32> {
    Tensor2D::from(rows.iter().map(|r| r.to_vec()).collect()).unwrap()
}

fn sum_net() -> Net {
    Network::new(vec![2, 1], 0.1, arithmetic(), linear(), vec![matrix(&[&[1.0, 1.0]])], vec![matrix(&[&[0.0]])])
        .unwrap()
}

fn random_matrix(rng: &mut StdRng, rows: usize, cols: usize) -> Tensor2D<f32> {
    let grid = (0..rows).map(|_| (0..cols).map(|_| rng.gen::<f32>() * 2.0 - 1.0).collect()).collect();
    Tensor2D::from(grid).unwrap()
}

fn random_net(layers: Vec<usize>, rate: f32, seed: u64) -> Net {
    let mut rng = StdRng::seed_from_u64(seed);
    let mut weights = vec![];
    let mut biases = vec![];
    for i in 0..layers.len() - 1 {
        weights.push(random_matrix(&mut rng, layers[i + 1], layers[i]));
        biases.push(random_matrix(&mut rng, layers[i + 1], 1));
    }
    Network::new(layers, rate, arithmetic(), logistic(), weights, biases).unwrap()
}

fn xor_set() -> (Vec<Vec<f32>>, Vec<Vec<f32>>) {
    let inputs = vec![vec![0.0, 0.0], vec![0.0, 1.0], vec![1.0, 0.0], vec![1.0, 1.0]];
    let targets = vec![vec![0.0], vec![1.0], vec![1.0], vec![0.0]];
    (inputs, targets)
}

fn worst_error(net: &mut Net, inputs: &[Vec<f32>], targets: &[Vec<f32>]) -> f32 {
    let mut worst: f32 = 0.0;
    for (x, t) in inputs.iter().zip(targets) {
        let out = net.feed_forward(x.clone()).unwrap();
        worst = worst.max((out[0] - t[0]).abs());
    }
    worst
}

#[test]
fn single_layer_sum_feeds_forward() {
    let mut net = sum_net();
    assert_eq!(net.feed_forward(vec![3.0, 4.0]), Ok(vec![7.0]));
}

#[test]
fn feed_forward_rejects_wrong_input_length() {
    let mut net = sum_net();
    assert_eq!(net.feed_forward(vec![3.0]), Err(NetworkError::InvalidInputLength));
}

#[test]
fn backward_step_updates_weights_and_bias() {
    let mut net = sum_net();
    let out = net.feed_forward(vec![3.0, 4.0]).unwrap();
    assert_eq!(net.back_propogate(out, vec![8.0]), Ok(()));
    let saved = net.save();
    let w = &saved.weights[0][0];
    assert!((w[0] - 1.3).abs() < 1e-6);
    assert!((w[1] - 1.4).abs() < 1e-6);
    assert!((saved.biases[0][0][0] - 0.1).abs() < 1e-6);
    let again = net.feed_forward(vec![3.0, 4.0]).unwrap();
    assert!((again[0] - 9.6).abs() < 1e-5);
}

#[test]
fn backward_without_forward_is_refused() {
    let mut net = sum_net();
    assert_eq!(net.back_propogate(vec![7.0], vec![8.0]), Err(NetworkError::UnpairedBackward));
    let out = net.feed_forward(vec![3.0, 4.0]).unwrap();
    assert_eq!(net.back_propogate(out.clone(), vec![8.0]), Ok(()));
    assert_eq!(net.back_propogate(out, vec![8.0]), Err(NetworkError::UnpairedBackward));
}

#[test]
fn backward_checks_vector_lengths() {
    let mut net = sum_net();
    let out = net.feed_forward(vec![3.0, 4.0]).unwrap();
    assert_eq!(net.back_propogate(out.clone(), vec![8.0, 1.0]), Err(NetworkError::InvalidTargetLength));
    assert_eq!(net.back_propogate(vec![7.0, 0.0], vec![8.0]), Err(NetworkError::InvalidOutputLength));
    assert_eq!(net.back_propogate(out, vec![8.0]), Ok(()));
}

#[test]
fn new_checks_topology_and_shapes() {
    let r = Network::new(vec![2], 0.1, arithmetic(), linear(), vec![], vec![]);
    assert!(matches!(r, Err(NetworkError::InvalidTopology)));
    let r = Network::new(vec![2, 0], 0.1, arithmetic(), linear(), vec![], vec![]);
    assert!(matches!(r, Err(NetworkError::InvalidTopology)));
    let r = Network::new(vec![2, 1], 0.1, arithmetic(), linear(), vec![matrix(&[&[1.0, 1.0, 1.0]])], vec![matrix(&[&[0.0]])]);
    assert!(matches!(r, Err(NetworkError::ShapeMismatch)));
}

#[test]
fn train_checks_the_set() {
    let mut net = sum_net();
    let r = net.train(&vec![vec![1.0, 2.0]], &vec![], 3);
    assert_eq!(r, Err(NetworkError::ExampleCountMismatch));
    let r = net.train(&vec![vec![1.0]], &vec![vec![1.0]], 3);
    assert_eq!(r, Err(NetworkError::InvalidInputLength));
    let r = net.train(&vec![vec![1.0, 2.0]], &vec![vec![1.0, 2.0]], 3);
    assert_eq!(r, Err(NetworkError::InvalidTargetLength));
    assert_eq!(net.train(&vec![vec![1.0]], &vec![], 0), Ok(()));
}

#[test]
fn train_runs_every_example_every_epoch() {
    let mut a = sum_net();
    let mut b = sum_net();
    let inputs = vec![vec![1.0, 0.0], vec![0.0, 1.0]];
    let targets = vec![vec![2.0], vec![0.5]];
    assert_eq!(a.train(&inputs, &targets, 2), Ok(()));
    for _ in 0..2 {
        for (x, t) in inputs.iter().zip(&targets) {
            let out = b.feed_forward(x.clone()).unwrap();
            b.back_propogate(out, t.clone()).unwrap();
        }
    }
    let (sa, sb) = (a.save(), b.save());
    assert_eq!(sa.weights, sb.weights);
    assert_eq!(sa.biases, sb.biases);
}

#[test]
fn xor_converges() {
    let (inputs, targets) = xor_set();
    let mut net = random_net(vec![2, 3, 1], 0.1, 7);
    let before = worst_error(&mut net, &inputs, &targets);
    net.train(&inputs, &targets, 0xffff).unwrap();
    let after = worst_error(&mut net, &inputs, &targets);
    assert!(after < before);
    assert!(after < 0.1, "worst error {}", after);
}

#[test]
fn save_then_load_reproduces_outputs() {
    let (inputs, targets) = xor_set();
    let mut trained = random_net(vec![2, 3, 1], 0.1, 11);
    trained.train(&inputs, &targets, 200).unwrap();
    let saved = trained.save();
    let mut fresh = random_net(vec![2, 3, 1], 0.1, 12);
    assert_eq!(fresh.load(saved), Ok(()));
    for x in &inputs {
        assert_eq!(fresh.feed_forward(x.clone()), trained.feed_forward(x.clone()));
    }
}

#[test]
fn load_rejects_wrong_shapes() {
    let mut net = sum_net();
    let bad = SaveData { weights: vec![vec![vec![1.0, 2.0, 3.0]]], biases: vec![vec![vec![0.0]]] };
    assert_eq!(net.load(bad), Err(NetworkError::ShapeMismatch));
    let short = SaveData { weights: vec![], biases: vec![] };
    assert_eq!(net.load(short), Err(NetworkError::ShapeMismatch));
    assert_eq!(net.feed_forward(vec![3.0, 4.0]), Ok(vec![7.0]));
}

#[test]
fn progress_is_reported_every_hundredth_epoch() {
    assert!(reports_epoch(7, 50));
    assert!(reports_epoch(30, 3000));
    assert!(!reports_epoch(31, 3000));
}
