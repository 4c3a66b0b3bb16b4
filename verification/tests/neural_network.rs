use cells::neural_network::NeuralNetwork;
use cells::rng::rng_from_seed;

#[test]
fn test_neural_network_creation() {
    let mut rng = rng_from_seed(1);
    let nn = NeuralNetwork::new(5, 4, &mut rng);
    assert_eq!(nn.input_size, 5);
    assert_eq!(nn.output_size, 4);
    assert_eq!(nn.hidden_size, 18); // 2 * (5 + 4)
}

#[test]
fn test_forward_pass() {
    let mut rng = rng_from_seed(2);
    let nn = NeuralNetwork::new(5, 4, &mut rng);
    let inputs = vec![100, 200, 300, 400, 500];
    let outputs = nn.forward(&inputs);
    assert_eq!(outputs.len(), 4);
}

#[test]
fn test_mutate() {
    let mut rng = rng_from_seed(3);
    let mut nn = NeuralNetwork::new(5, 4, &mut rng);
    let original_weights = nn.weights_ih.clone();
    nn.mutate(1000, &mut rng); // 100% mutation rate
    // At least some weights should have changed
    let changed = nn
        .weights_ih
        .iter()
        .zip(original_weights.iter())
        .any(|(a, b)| a != b);
    assert!(changed);
}

#[test]
fn test_get_best_action() {
    let mut rng = rng_from_seed(4);
    let nn = NeuralNetwork::new(5, 4, &mut rng);
    let inputs = vec![100, 200, 300, 400, 500];
    let action = nn.get_best_action(&inputs);
    assert!(action < 4);
}

#[test]
fn test_mutate_zero_rate_is_identity() {
    let mut rng = rng_from_seed(5);
    let mut nn = NeuralNetwork::new(20, 4, &mut rng);
    let w_ih = nn.weights_ih.clone();
    let b_h = nn.bias_h.clone();
    let w_ho = nn.weights_ho.clone();
    let b_o = nn.bias_o.clone();
    nn.mutate(0, &mut rng);
    assert_eq!(nn.weights_ih, w_ih);
    assert_eq!(nn.bias_h, b_h);
    assert_eq!(nn.weights_ho, w_ho);
    assert_eq!(nn.bias_o, b_o);
}

#[test]
fn test_mutate_keeps_weight_limits() {
    let mut rng = rng_from_seed(6);
    let mut nn = NeuralNetwork::new(5, 4, &mut rng);
    for _ in 0..200 {
        nn.mutate(1000, &mut rng);
    }
    for row in &nn.weights_ih {
        for &w in row {
            assert!(-2000 <= w && w <= 2000);
        }
    }
    for &b in &nn.bias_h {
        assert!(-2000 <= b && b <= 2000);
    }
    for row in &nn.weights_ho {
        for &w in row {
            assert!(-2000 <= w && w <= 2000);
        }
    }
    for &b in &nn.bias_o {
        assert!(-2000 <= b && b <= 2000);
    }
}

fn zero_network() -> NeuralNetwork {
    // input 2, output 1, hidden = 2 * (2 + 1) = 6
    NeuralNetwork {
        weights_ih: vec![vec![0, 0]; 6],
        bias_h: vec![0; 6],
        weights_ho: vec![vec![0; 6]; 1],
        bias_o: vec![0; 1],
        input_size: 2,
        hidden_size: 6,
        output_size: 1,
    }
}

#[test]
fn test_forward_all_zero_is_zero() {
    let nn = zero_network();
    let outputs = nn.forward(&vec![0, 0]);
    assert_eq!(outputs, vec![0]);
}

#[test]
fn test_get_best_action_first_max_tie() {
    // All-zero network scores every action equally; the earliest index wins.
    let nn = NeuralNetwork {
        weights_ih: vec![vec![0, 0]; 12],
        bias_h: vec![0; 12],
        weights_ho: vec![vec![0; 12]; 4],
        bias_o: vec![0; 4],
        input_size: 2,
        hidden_size: 12,
        output_size: 4,
    };
    assert_eq!(nn.get_best_action(&vec![0, 0]), 0);
}

#[test]
fn test_forward_exact_single_weight() {
    // One input, one output, hidden width 4; a single nonzero path:
    // hidden0 = relu(1000 * 500 / 1000) = 500, out = 2000 * 500 / 1000 = 1000.
    let mut nn = NeuralNetwork {
        weights_ih: vec![vec![0]; 4],
        bias_h: vec![0; 4],
        weights_ho: vec![vec![0; 4]; 1],
        bias_o: vec![0; 1],
        input_size: 1,
        hidden_size: 4,
        output_size: 1,
    };
    nn.weights_ih[0][0] = 1000;
    nn.weights_ho[0][0] = 2000;
    let outputs = nn.forward(&vec![500]);
    assert_eq!(outputs, vec![1000]);
}

#[test]
fn test_new_draws_within_initial_range() {
    let mut rng = rng_from_seed(60);
    let nn = NeuralNetwork::new(20, 4, &mut rng);
    for row in nn.weights_ih.iter().chain(nn.weights_ho.iter()) {
        for &w in row {
            assert!(-1000 <= w && w < 1000);
        }
    }
    for &b in nn.bias_h.iter().chain(nn.bias_o.iter()) {
        assert!(-1000 <= b && b < 1000);
    }
}

#[test]
fn test_mutate_moves_each_weight_by_at_most_one_step() {
    let mut rng = rng_from_seed(61);
    let mut nn = NeuralNetwork::new(5, 4, &mut rng);
    let before = nn.weights_ih.clone();
    nn.mutate(500, &mut rng);
    for (row_after, row_before) in nn.weights_ih.iter().zip(before.iter()) {
        for (&a, &b) in row_after.iter().zip(row_before.iter()) {
            assert!((a - b).abs() <= 100);
        }
    }
}
