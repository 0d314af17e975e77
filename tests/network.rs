use rand::distr::{Distribution, Uniform};

use mnist::args::{CliActivationFunction, CliInitMethod};
use mnist::csv_dataset::CsvDataset;
use mnist::config::ConfigError;
use mnist::loader::DataLoader;
use mnist::matrix::Matrix;
use mnist::neural_net::{ActivationFunction, InitBound, InitMethod, NeuralNet};
use mnist::trainer::train_epoch;

fn ratio(b: InitBound) -> f64 {
    b.numerator as f64 / b.denominator as f64
}

#[test]
fn init_bounds() {
    assert_eq!(InitMethod::LeCunn.bound(4, 3), InitBound { numerator: 1, denominator: 4 });
    assert_eq!(InitMethod::Glorot.bound(4, 3), InitBound { numerator: 6, denominator: 7 });
    assert_eq!(InitMethod::He.bound(4, 3), InitBound { numerator: 6, denominator: 4 });
}

#[test]
fn init_weights_draw_from_bound() {
    let m = InitMethod::Glorot.init_weights(3, 5, &ratio);
    assert_eq!(m.n_rows(), 3);
    assert_eq!(m.n_cols(), 5);
    for row in &m.rows {
        assert_eq!(row.len(), 5);
        for w in row {
            assert_eq!(*w, 6.0 / 8.0);
        }
    }
}

#[test]
fn uniform_draws_stay_within_limit() {
    let draw = |b: InitBound| {
        let limit = ratio(b).sqrt();
        Uniform::new_inclusive(-limit, limit).unwrap().sample(&mut rand::rng())
    };
    let m = InitMethod::He.init_weights(50, 40, &draw);
    let limit = (6.0f64 / 50.0).sqrt();
    let mut sum_sq = 0.0;
    for row in &m.rows {
        for w in row {
            assert!(w.abs() <= limit);
            sum_sq += w * w;
        }
    }
    let variance = sum_sq / 2000.0;
    assert!((variance - limit * limit / 3.0).abs() < 0.02);
}

#[test]
fn network_shapes() {
    let net = NeuralNet::new(&[2, 4, 3], ActivationFunction::ReLU, InitMethod::He, 0.0, ratio).unwrap();
    assert_eq!(net.layer_sizes(), &vec![2, 4, 3]);
    assert_eq!(net.activation_function(), ActivationFunction::ReLU);
    assert_eq!(net.weight_matrix(0).n_rows(), 2);
    assert_eq!(net.weight_matrix(0).n_cols(), 4);
    assert_eq!(net.weight_matrix(1).n_rows(), 4);
    assert_eq!(net.weight_matrix(1).n_cols(), 3);
    assert_eq!(net.weight_matrix(0).rows[1][2], 3.0);
    assert_eq!(net.weight_matrix(1).rows[3][0], 1.5);
    assert_eq!(net.bias_vector(0), &vec![0.0; 4]);
    assert_eq!(net.bias_vector(1), &vec![0.0; 3]);
}

#[test]
fn single_layer_network_has_no_weights() {
    let net = NeuralNet::new(&[5], ActivationFunction::Tanh, InitMethod::LeCunn, 0.0, ratio).unwrap();
    assert_eq!(net.layer_sizes(), &vec![5]);
    assert_eq!(net.n_weight_layers(), 0);
}

#[test]
fn empty_layers_are_refused() {
    let r = NeuralNet::new(&[], ActivationFunction::Sigmoid, InitMethod::Glorot, 0.0, ratio);
    assert!(matches!(r, Err(ConfigError::NoLayers)));
}

#[test]
fn zero_width_input_layer_draws_nothing() {
    let net = NeuralNet::new(&[0, 3, 10], ActivationFunction::Sigmoid, InitMethod::He, 0.0, ratio).unwrap();
    assert_eq!(net.weight_matrix(0).n_rows(), 0);
    assert_eq!(net.weight_matrix(0).n_cols(), 3);
    assert_eq!(net.weight_matrix(1).rows[0][0], 2.0);
}

#[test]
fn cli_choices_convert() {
    assert_eq!(ActivationFunction::from(CliActivationFunction::Sigmoid), ActivationFunction::Sigmoid);
    assert_eq!(ActivationFunction::from(CliActivationFunction::Tanh), ActivationFunction::Tanh);
    assert_eq!(ActivationFunction::from(CliActivationFunction::ReLU), ActivationFunction::ReLU);
    assert_eq!(InitMethod::from(CliInitMethod::LeCunn), InitMethod::LeCunn);
    assert_eq!(InitMethod::from(CliInitMethod::Glorot), InitMethod::Glorot);
    assert_eq!(InitMethod::from(CliInitMethod::He), InitMethod::He);
}

fn times(a: f32, b: f32) -> f32 {
    a * b
}

fn plus(a: f32, b: f32) -> f32 {
    a + b
}

fn activate(f: ActivationFunction, x: f32) -> f32 {
    match f {
        ActivationFunction::Sigmoid => 1.0 / (1.0 + (-x).exp()),
        ActivationFunction::Tanh => x.tanh(),
        ActivationFunction::ReLU => x.max(0.0),
    }
}

fn he_draw(b: InitBound) -> f32 {
    let limit = (b.numerator as f32 / b.denominator as f32).sqrt();
    Uniform::new(-limit, limit).unwrap().sample(&mut rand::rng())
}

fn batch(rows: Vec<Vec<f32>>, cols: usize) -> Matrix<f32> {
    Matrix { cols, rows }
}

#[test]
fn zero_batch_stays_zero_under_relu() {
    let net = NeuralNet::new(&[2, 4, 3], ActivationFunction::ReLU, InitMethod::He, 0.0f32, he_draw).unwrap();
    let input = batch(vec![vec![0.0, 0.0]; 5], 2);
    let pass = net.forward(&input, &times, &plus, &activate);
    assert_eq!(pass.activations.len(), 3);
    assert_eq!(pass.pre.len(), 2);
    for m in pass.activations.iter().chain(pass.pre.iter()) {
        assert_eq!(m.n_rows(), 5);
        for row in &m.rows {
            for v in row {
                assert_eq!(*v, 0.0);
            }
        }
    }
}

#[test]
fn output_shape_follows_last_layer() {
    let net = NeuralNet::new(&[3, 6, 2], ActivationFunction::Sigmoid, InitMethod::Glorot, 0.0f32, he_draw)
        .unwrap();
    for n in [0usize, 1, 7] {
        let input = batch(vec![vec![0.5, -0.25, 1.0]; n], 3);
        let pass = net.forward(&input, &times, &plus, &activate);
        let out = pass.activations.last().unwrap();
        assert_eq!(out.n_rows(), n);
        assert_eq!(out.n_cols(), 2);
        for row in &out.rows {
            assert_eq!(row.len(), 2);
            for v in row {
                assert!(*v > 0.0 && *v < 1.0);
            }
        }
    }
}

#[test]
fn forward_computes_affine_then_activation() {
    // Every weight is the bound's ratio: 6 / 2 = 3 from the input layer.
    let net = NeuralNet::new(&[2, 1], ActivationFunction::ReLU, InitMethod::He, 0.0f32, |b: InitBound| {
        b.numerator as f32 / b.denominator as f32
    })
    .unwrap();
    let input = batch(vec![vec![1.0, 2.0], vec![-1.0, -1.0]], 2);
    let pass = net.forward(&input, &times, &plus, &activate);
    assert_eq!(pass.pre[0].rows, vec![vec![9.0], vec![-6.0]]);
    assert_eq!(pass.activations[1].rows, vec![vec![9.0], vec![0.0]]);
    assert_eq!(pass.activations[0].rows, input.rows);
}

fn minus(a: f32, b: f32) -> f32 {
    a - b
}

fn derivative(f: ActivationFunction, x: f32) -> f32 {
    match f {
        ActivationFunction::Sigmoid => {
            let s = 1.0 / (1.0 + (-x).exp());
            s * (1.0 - s)
        }
        ActivationFunction::Tanh => 1.0 - x.tanh() * x.tanh(),
        ActivationFunction::ReLU => {
            if x > 0.0 {
                1.0
            } else {
                0.0
            }
        }
    }
}

fn ratio32(b: InitBound) -> f32 {
    b.numerator as f32 / b.denominator as f32
}

#[test]
fn one_descent_step_by_hand() {
    // Weights start at 6 / 2 = 3; ReLU stays linear on positive values.
    let mut net = NeuralNet::new(&[2, 1], ActivationFunction::ReLU, InitMethod::He, 0.0f32, ratio32).unwrap();
    let input = batch(vec![vec![1.0, 2.0]], 2);
    let targets = batch(vec![vec![5.0]], 1);
    let descend = |w: f32, g: f32, n: usize| w - 0.1 * g / n as f32;
    let (pass, deltas) =
        net.train_batch(&input, &targets, 0.0, &times, &plus, &minus, &activate, &derivative, &descend);
    assert_eq!(pass.activations[1].rows, vec![vec![9.0]]);
    assert_eq!(deltas.len(), 1);
    assert_eq!(deltas[0].rows, vec![vec![4.0]]);
    let w = net.weight_matrix(0);
    assert!((w.rows[0][0] - 2.6).abs() < 1e-6);
    assert!((w.rows[1][0] - 2.2).abs() < 1e-6);
    assert!((net.bias_vector(0)[0] + 0.4).abs() < 1e-6);
}

#[test]
fn hidden_errors_flow_back_through_weights() {
    // Layers 1 -> 2 -> 1, every weight 6 / 1 = 6 into the hidden layer and 6 / 2 = 3 out.
    let net = NeuralNet::new(&[1, 2, 1], ActivationFunction::ReLU, InitMethod::He, 0.0f32, ratio32).unwrap();
    let input = batch(vec![vec![1.0]], 1);
    let targets = batch(vec![vec![30.0]], 1);
    let pass = net.forward(&input, &times, &plus, &activate);
    assert_eq!(pass.activations[1].rows, vec![vec![6.0, 6.0]]);
    assert_eq!(pass.activations[2].rows, vec![vec![36.0]]);
    let deltas = net.backward(&pass, &targets, 0.0, &times, &plus, &minus, &derivative);
    assert_eq!(deltas[1].rows, vec![vec![6.0]]);
    assert_eq!(deltas[0].rows, vec![vec![18.0, 18.0]]);
}

fn mse(out: &Matrix<f32>, targets: &Matrix<f32>) -> f32 {
    let mut total = 0.0;
    for (o, t) in out.rows.iter().zip(targets.rows.iter()) {
        for (a, b) in o.iter().zip(t.iter()) {
            total += (a - b) * (a - b);
        }
    }
    total / out.rows.len() as f32
}

#[test]
fn training_reduces_loss_on_separable_data() {
    let mut text = String::new();
    for i in 0..40u32 {
        let a = (i * 37 % 256) as u8;
        let b = (i * 91 % 256) as u8;
        if a != b {
            text.push_str(&format!("{},{},{}\n", if a > b { 1 } else { 0 }, a, b));
        }
    }
    let scale = |v: u8| (v as f32 - 127.5) / 127.5;
    let ds = CsvDataset::new(&text, scale, 0.0f32, 1.0f32).unwrap();
    let loader = DataLoader::new(ds, 8, true, Some(3)).unwrap();
    let mut net = NeuralNet::new(&[2, 6, 10], ActivationFunction::Sigmoid, InitMethod::Glorot, 0.0f32, he_draw)
        .unwrap();
    let descend = |w: f32, g: f32, n: usize| w - 2.0 * g / n as f32;
    let mut epoch_losses = Vec::new();
    for _ in 0..40 {
        let outputs = train_epoch(&mut net, &loader, 0.0, &times, &plus, &minus, &activate, &derivative, &descend);
        assert_eq!(outputs.len(), 5);
        let total: f32 = outputs.iter().map(|b| mse(&b.output, &b.targets)).sum();
        epoch_losses.push(total / outputs.len() as f32);
    }
    let first: f32 = epoch_losses[..5].iter().sum::<f32>() / 5.0;
    let last: f32 = epoch_losses[35..].iter().sum::<f32>() / 5.0;
    assert!(last < first * 0.5, "losses {:?}", epoch_losses);
}


#[test]
fn epoch_batches_follow_unshuffled_order() {
    let text = "1,10,20\n0,30,40\n1,50,60\n";
    let ds = CsvDataset::new(text, |v: u8| v as f32, 0.0f32, 1.0f32).unwrap();
    let loader = DataLoader::new(ds, 2, false, None).unwrap();
    let mut net = NeuralNet::new(&[2, 10], ActivationFunction::Sigmoid, InitMethod::LeCunn, 0.0f32, ratio32).unwrap();
    let descend = |w: f32, g: f32, n: usize| w - 0.01 * g / n as f32;
    let batches = train_epoch(&mut net, &loader, 0.0, &times, &plus, &minus, &activate, &derivative, &descend);
    assert_eq!(batches.len(), 2);
    assert_eq!(batches[0].inputs.rows, vec![vec![10.0, 20.0], vec![30.0, 40.0]]);
    assert_eq!(batches[1].inputs.rows, vec![vec![50.0, 60.0]]);
    assert_eq!(batches[1].targets.rows[0][1], 1.0);
    assert_eq!(batches[0].output.n_rows(), 2);
    assert_eq!(batches[0].output.n_cols(), 10);
    // The network changed: every weight started at 1 / 2.
    assert!(net.weight_matrix(0).rows[0][0] != 0.5);
}

#[test]
fn new_network_has_zero_biases_and_shapes() {
    for layers in [vec![3usize, 5, 2], vec![0, 16, 16, 10]] {
        let net = NeuralNet::new(&layers, ActivationFunction::Tanh, InitMethod::LeCunn, 0.0f32, ratio32).unwrap();
        assert_eq!(net.n_weight_layers(), layers.len() - 1);
        for i in 0..layers.len() - 1 {
            assert_eq!(net.weight_matrix(i).n_rows(), layers[i]);
            assert_eq!(net.weight_matrix(i).n_cols(), layers[i + 1]);
            assert_eq!(net.bias_vector(i), &vec![0.0; layers[i + 1]]);
        }
    }
}
