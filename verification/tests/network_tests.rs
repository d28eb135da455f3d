use rps_network::NetError;
use rps_network::fx::ONE;
use rps_network::network::RPSNetwork;

const INPUT_SIZE: usize = 3;
const HISTORY_SIZE: usize = 3;
const HIDDEN_SIZE: usize = 8;
const OUTPUT_SIZE: usize = 3;
const SEED: u64 = 42;
const LR: i64 = 655; // 0.01 in fixed point

fn one_hot(i: usize) -> Vec<i64> {
    let mut v = vec![0i64; INPUT_SIZE];
    v[i] = ONE;
    v
}

#[test]
fn init_network() {
    let network = RPSNetwork::new(INPUT_SIZE, HISTORY_SIZE, HIDDEN_SIZE, OUTPUT_SIZE, SEED);

    assert_eq!(network.input_size, INPUT_SIZE);
    assert_eq!(network.history_size, HISTORY_SIZE);
    assert_eq!(network.hidden_size, HIDDEN_SIZE);
    assert_eq!(network.output_size, OUTPUT_SIZE);
    assert_eq!(network.params.w1.len(), INPUT_SIZE * HISTORY_SIZE);
    assert_eq!(network.params.w1[0].len(), HIDDEN_SIZE);
    assert_eq!(network.params.b1.len(), HIDDEN_SIZE);
    assert_eq!(network.history.data.len(), INPUT_SIZE * HISTORY_SIZE);
    assert_eq!(network.hidden.len(), HIDDEN_SIZE);
    assert_eq!(network.params.w2.len(), HIDDEN_SIZE);
    assert_eq!(network.params.w2[0].len(), OUTPUT_SIZE);
    assert_eq!(network.params.b2.len(), OUTPUT_SIZE);
    assert_eq!(network.probs().len(), OUTPUT_SIZE);
}

#[test]
fn history() {
    let mut network = RPSNetwork::new(INPUT_SIZE, HISTORY_SIZE, HIDDEN_SIZE, OUTPUT_SIZE, SEED);

    let input = vec![ONE, 0, 0, 0, ONE, 0, 0, 0, ONE];

    network.forward(&input[..3].to_vec()).unwrap();
    network.forward(&input[3..6].to_vec()).unwrap();
    network.forward(&input[6..].to_vec()).unwrap();

    for i in 0..9 {
        assert_eq!(input[i], network.history.data[i]);
    }
}

#[test]
fn forward_pass() {
    let mut network = RPSNetwork::new(INPUT_SIZE, HISTORY_SIZE, HIDDEN_SIZE, OUTPUT_SIZE, SEED);

    let input = one_hot(0);

    network.forward(&input).unwrap();

    assert!(network.probs().iter().all(|v| *v != 0));
}

#[test]
fn backward_pass_success() {
    let mut network = RPSNetwork::new(INPUT_SIZE, HISTORY_SIZE, HIDDEN_SIZE, OUTPUT_SIZE, SEED);

    let input = one_hot(0);

    network.forward(&input).unwrap();

    let paper_prob = network.probs()[1];

    for _ in 0..100 {
        network.backward(1, LR).unwrap();
        network.forward(&input).unwrap();
    }

    assert!(paper_prob < network.probs()[1]);
}

#[test]
fn backward_pass_fail() {
    let mut network = RPSNetwork::new(INPUT_SIZE, HISTORY_SIZE, HIDDEN_SIZE, OUTPUT_SIZE, SEED);

    let input = one_hot(0);

    network.forward(&input).unwrap();

    let scissors_prob = network.probs()[2];

    for _ in 0..100 {
        network.backward(1, LR).unwrap();
        network.forward(&input).unwrap();
    }

    assert!(scissors_prob > network.probs()[2]);
}

#[test]
fn initial_probs_are_uniform_and_sum_to_one() {
    let network = RPSNetwork::new(INPUT_SIZE, HISTORY_SIZE, HIDDEN_SIZE, OUTPUT_SIZE, SEED);
    // ONE / 3 == 21845 with remainder 1, which goes to the first class.
    assert_eq!(network.probs(), vec![21846, 21845, 21845]);
}

#[test]
fn probs_sum_to_one_after_every_forward() {
    let mut network = RPSNetwork::new(INPUT_SIZE, HISTORY_SIZE, HIDDEN_SIZE, OUTPUT_SIZE, SEED);
    for step in 0..20 {
        network.forward(&one_hot(step % INPUT_SIZE)).unwrap();
        let p = network.probs();
        assert_eq!(p.iter().sum::<i64>(), ONE);
        assert!(p.iter().all(|v| *v >= 0));
        if step % 2 == 0 {
            network.backward(step % OUTPUT_SIZE, LR).unwrap();
        }
    }
}

#[test]
fn initial_weights_are_in_init_range() {
    let network = RPSNetwork::new(INPUT_SIZE, HISTORY_SIZE, HIDDEN_SIZE, OUTPUT_SIZE, SEED);
    let lim = rps_network::network::WINIT;
    assert!(network.params.w1.iter().flatten().all(|w| -lim <= *w && *w < lim));
    assert!(network.params.w2.iter().flatten().all(|w| -lim <= *w && *w < lim));
    assert!(network.params.b1.iter().all(|b| *b == 0));
    assert!(network.params.b2.iter().all(|b| *b == 0));
    // A degenerate generator that handed the seed (or a constant) back for
    // every draw would make all weights equal; a real draw does not.
    let first = network.params.w1[0][0];
    assert!(network.params.w1.iter().flatten().any(|w| *w != first));
}

#[test]
fn forward_wrong_length_is_invalid_dimension() {
    let mut network = RPSNetwork::new(INPUT_SIZE, HISTORY_SIZE, HIDDEN_SIZE, OUTPUT_SIZE, SEED);
    let before = network.probs();
    let r = network.forward(&vec![ONE, 0]);
    assert_eq!(r, Err(NetError::InvalidDimension));
    assert_eq!(network.probs(), before);
    let r2 = network.forward(&vec![ONE, 0, 0, 0]);
    assert_eq!(r2, Err(NetError::InvalidDimension));
}

#[test]
fn backward_label_out_of_range() {
    let mut network = RPSNetwork::new(INPUT_SIZE, HISTORY_SIZE, HIDDEN_SIZE, OUTPUT_SIZE, SEED);
    network.forward(&one_hot(0)).unwrap();
    let r = network.backward(OUTPUT_SIZE, LR);
    assert_eq!(r, Err(NetError::OutOfRange));
}

#[test]
fn backward_before_forward_is_contract_violation() {
    let mut network = RPSNetwork::new(INPUT_SIZE, HISTORY_SIZE, HIDDEN_SIZE, OUTPUT_SIZE, SEED);
    let r = network.backward(1, LR);
    assert_eq!(r, Err(NetError::ContractViolation));
    network.forward(&one_hot(0)).unwrap();
    assert_eq!(network.backward(1, LR), Ok(()));
}

#[test]
fn same_seed_same_run() {
    let mut a = RPSNetwork::new(INPUT_SIZE, HISTORY_SIZE, HIDDEN_SIZE, OUTPUT_SIZE, 7);
    let mut b = RPSNetwork::new(INPUT_SIZE, HISTORY_SIZE, HIDDEN_SIZE, OUTPUT_SIZE, 7);
    assert_eq!(a.probs(), b.probs());
    for step in 0..10 {
        let input = one_hot(step % INPUT_SIZE);
        a.forward(&input).unwrap();
        b.forward(&input).unwrap();
        assert_eq!(a.probs(), b.probs());
        a.backward(step % OUTPUT_SIZE, LR).unwrap();
        b.backward(step % OUTPUT_SIZE, LR).unwrap();
    }
    a.forward(&one_hot(1)).unwrap();
    b.forward(&one_hot(1)).unwrap();
    assert_eq!(a.probs(), b.probs());
}

#[test]
fn single_slot_history_keeps_only_last_input() {
    let mut network = RPSNetwork::new(INPUT_SIZE, 1, HIDDEN_SIZE, OUTPUT_SIZE, SEED);
    network.forward(&one_hot(0)).unwrap();
    network.forward(&one_hot(2)).unwrap();
    assert_eq!(network.history.data, vec![0, 0, ONE]);
    assert_eq!(network.probs().iter().sum::<i64>(), ONE);
}
