use neurolite::matrix::Matrix;
use neurolite::network::layer::Layer;
use neurolite::network::{FatNet, NetError};

// The arithmetic half of each pass: the library hands out tasks carrying
// f32 bit patterns, these helpers do the floating-point work on them and
// hand the results back, in the exact evaluation order of the formulas:
// sum of products in source order, then bias, then the sigmoid.

fn sigmoid(x: f32) -> f32 {
    1.0 / (1.0 + (-x).exp())
}

fn to_bits(xs: &[f32]) -> Vec<u32> {
    xs.iter().map(|v| v.to_bits()).collect()
}

fn feedforward(net: &mut FatNet, input: &[f32]) -> Result<(), NetError> {
    net.set_input(&to_bits(input))?;
    let d = net.depth();
    for stage in 0..=d {
        let tasks = net.forward_tasks(stage);
        let mut acts: Vec<u32> = Vec::new();
        for task in &tasks {
            let mut sum = 0.0f32;
            for term in &task.terms {
                sum += f32::from_bits(term.activation) * f32::from_bits(term.weight);
            }
            sum += f32::from_bits(task.bias);
            acts.push(sigmoid(sum).to_bits());
        }
        net.apply_stage(stage, &acts)?;
    }
    Ok(())
}

fn backprop(net: &mut FatNet, target: &[f32]) -> Result<(), NetError> {
    let tasks = net.output_error_tasks(&to_bits(target))?;
    let mut errs: Vec<u32> = Vec::new();
    for task in &tasks {
        let t = f32::from_bits(task.target);
        let a = f32::from_bits(task.activation);
        errs.push(((t - a) * a * (1.0 - a)).to_bits());
    }
    net.apply_output_errors(&errs)?;
    let d = net.depth();
    // walking toward the output: each layer reads the next layer's error
    // terms before that layer's own are replaced
    for k in 0..d - 1 {
        let tasks = net.hidden_error_tasks(k);
        let mut errs: Vec<u32> = Vec::new();
        for task in &tasks {
            let e = f32::from_bits(task.next_error);
            let a = f32::from_bits(task.activation);
            errs.push((e * a * (1.0 - a)).to_bits());
        }
        net.apply_hidden_errors(k, &errs)?;
    }
    Ok(())
}

fn update_weights(net: &mut FatNet, alpha: f32) -> Result<(), NetError> {
    let d = net.depth();
    for k in 0..d - 1 {
        let tasks = net.weight_tasks(k);
        let mut rows: Vec<Vec<u32>> = Vec::new();
        for row in &tasks {
            let mut new_row: Vec<u32> = Vec::new();
            for task in row {
                let w = f32::from_bits(task.weight);
                let e = f32::from_bits(task.error);
                let a = f32::from_bits(task.activation);
                new_row.push((w + alpha * e * a).to_bits());
            }
            rows.push(new_row);
        }
        net.apply_weight_updates(k, rows)?;
    }
    Ok(())
}

fn outputs(net: &FatNet) -> Vec<f32> {
    net.get_output().iter().map(|b| f32::from_bits(*b)).collect()
}

fn layer_weight_bits(layer: &Layer) -> Vec<Vec<u32>> {
    layer.nodes.iter().map(|n| n.weights.clone()).collect()
}

fn hidden_weight_bits(net: &FatNet, k: usize) -> Vec<Vec<u32>> {
    layer_weight_bits(net.hidden_layer(k).unwrap())
}

// Shapes after construction: layer widths, hidden depth, and one weight per
// node of the following layer, all initialized to 1.0.
#[test]
fn shapes_after_new() {
    let net = FatNet::new(3, (2, 4), 2).unwrap();
    assert_eq!(net.input_layer().len(), 3);
    assert_eq!(net.depth(), 2);
    assert_eq!(net.hidden_layer(0).unwrap().len(), 4);
    assert_eq!(net.hidden_layer(1).unwrap().len(), 4);
    assert!(net.hidden_layer(2).is_none());
    assert_eq!(net.output_layer().len(), 2);

    let one = 1.0f32.to_bits();
    for node in &net.input_layer().nodes {
        assert_eq!(node.activation, 0);
        assert_eq!(node.bias, 0);
        assert_eq!(node.error, 0);
        assert_eq!(node.weights, vec![one; 4]);
    }
    for node in &net.hidden_layer(0).unwrap().nodes {
        assert_eq!(node.weights, vec![one; 4]);
    }
    for node in &net.hidden_layer(1).unwrap().nodes {
        assert_eq!(node.weights, vec![one; 2]);
    }
    for node in &net.output_layer().nodes {
        assert_eq!(node.activation, 0);
        assert!(node.weights.is_empty());
    }
}

#[test]
fn zero_hidden_layers_refused() {
    assert!(matches!(
        FatNet::new(3, (0, 2), 1),
        Err(NetError::InvalidTopology)
    ));
    assert!(matches!(
        FatNet::new(0, (0, 0), 0),
        Err(NetError::InvalidTopology)
    ));
}

#[test]
fn input_size_mismatch_reported() {
    let mut net = FatNet::new(2, (1, 2), 1).unwrap();
    assert!(matches!(
        net.set_input(&to_bits(&[0.5])),
        Err(NetError::InputSizeMismatch)
    ));
    assert!(matches!(
        feedforward(&mut net, &[0.1, 0.2, 0.3]),
        Err(NetError::InputSizeMismatch)
    ));
    assert!(feedforward(&mut net, &[0.1, 0.2]).is_ok());
}

#[test]
fn target_size_mismatch_reported() {
    let mut net = FatNet::new(2, (1, 2), 1).unwrap();
    feedforward(&mut net, &[0.0, 1.0]).unwrap();
    assert!(matches!(
        net.output_error_tasks(&to_bits(&[1.0, 0.0])),
        Err(NetError::InputSizeMismatch)
    ));
    assert!(matches!(
        backprop(&mut net, &[]),
        Err(NetError::InputSizeMismatch)
    ));
    assert!(backprop(&mut net, &[1.0]).is_ok());
}

#[test]
fn shape_mismatch_reported() {
    // a bare layer has nodes without weights: no forward step into a
    // non-empty layer can be formed from it
    let layer = Layer::new(2);
    let biases: Vec<u32> = vec![0];
    assert!(matches!(
        layer.forward_tasks(&biases),
        Err(NetError::ShapeMismatch)
    ));
    // a step into an empty layer needs no weights at all
    let none: Vec<u32> = Vec::new();
    assert!(layer.forward_tasks(&none).is_ok());
}

#[test]
fn weight_rows_checked() {
    let mut net = FatNet::new(2, (3, 2), 1).unwrap();
    // wrong number of rows
    assert!(matches!(
        net.apply_weight_updates(0, vec![vec![0, 0]]),
        Err(NetError::ShapeMismatch)
    ));
    // wrong row length
    assert!(matches!(
        net.apply_weight_updates(0, vec![vec![0], vec![0]]),
        Err(NetError::ShapeMismatch)
    ));
    // exact fit passes
    let one = 1.0f32.to_bits();
    assert!(net
        .apply_weight_updates(0, vec![vec![one, one], vec![one, one]])
        .is_ok());
}

// One exact forward value: with all weights 1.0 and all biases 0, a width-2
// hidden layer turns inputs (x0, x1) into h = sigmoid(x0 + x1) twice, and
// the single output into sigmoid(h + h).
#[test]
fn forward_value_exact() {
    let mut net = FatNet::new(2, (1, 2), 1).unwrap();
    feedforward(&mut net, &[0.0, 1.0]).unwrap();
    let h = sigmoid(0.0f32 * 1.0 + 1.0f32 * 1.0);
    let expected = sigmoid(h * 1.0 + h * 1.0);
    assert_eq!(net.get_output(), vec![expected.to_bits()]);
}

// Determinism: the same input through the same weights gives bit-identical
// outputs on repeated runs.
#[test]
fn repeated_forward_is_deterministic() {
    let mut net = FatNet::new(2, (2, 3), 2).unwrap();
    feedforward(&mut net, &[0.25, -0.75]).unwrap();
    let first = net.get_output();
    feedforward(&mut net, &[0.25, -0.75]).unwrap();
    let second = net.get_output();
    assert_eq!(first, second);
}

// The frozen-weight baseline: a full training step never moves the
// input layer's weights or the last hidden layer's weights; and because
// back-propagation reads the next hidden layer's error terms positionally
// (never the output layer's), every hidden error term stays zero and no
// weight at all moves through the normal pass.
#[test]
fn training_step_freezes_edge_weights() {
    let mut net = FatNet::new(2, (3, 2), 1).unwrap();
    feedforward(&mut net, &[0.3, 0.7]).unwrap();
    backprop(&mut net, &[0.5]).unwrap();

    let input_before = layer_weight_bits(net.input_layer());
    let h0_before = hidden_weight_bits(&net, 0);
    let h1_before = hidden_weight_bits(&net, 1);
    let last_before = hidden_weight_bits(&net, 2);

    update_weights(&mut net, 0.01).unwrap();

    assert_eq!(layer_weight_bits(net.input_layer()), input_before);
    assert_eq!(hidden_weight_bits(&net, 2), last_before);
    assert_eq!(hidden_weight_bits(&net, 0), h0_before);
    assert_eq!(hidden_weight_bits(&net, 1), h1_before);
}

// With a hand-injected error term the hidden-to-hidden weights do move, by
// exactly w + alpha * error * activation, while the edge weights stay put.
#[test]
fn update_moves_only_hidden_to_hidden_weights() {
    let mut net = FatNet::new(2, (3, 2), 1).unwrap();
    feedforward(&mut net, &[0.3, 0.7]).unwrap();
    let err = 0.25f32;
    net.apply_hidden_errors(1, &to_bits(&[err, err])).unwrap();

    let input_before = layer_weight_bits(net.input_layer());
    let last_before = hidden_weight_bits(&net, 2);

    let acts: Vec<f32> = net
        .hidden_layer(0)
        .unwrap()
        .nodes
        .iter()
        .map(|n| f32::from_bits(n.activation))
        .collect();
    let alpha = 0.01f32;
    update_weights(&mut net, alpha).unwrap();

    // hidden layer 0's weight toward node j moves by alpha * err * act_i
    let h0_after = hidden_weight_bits(&net, 0);
    for (i, row) in h0_after.iter().enumerate() {
        for w in row {
            let expected = 1.0f32 + alpha * err * acts[i];
            assert_eq!(*w, expected.to_bits());
        }
    }
    // the edges never move
    assert_eq!(layer_weight_bits(net.input_layer()), input_before);
    assert_eq!(hidden_weight_bits(&net, 2), last_before);
}

// The XOR fixture: outputs stay finite and strictly inside (0, 1) before
// and after 1000 epochs at learning rate 0.01.  Convergence to XOR is not
// asserted: the update rule leaves the edge weights frozen.
#[test]
fn xor_fixture_stays_in_range() {
    let table: [(&[f32], &[f32]); 4] = [
        (&[0.0, 0.0], &[0.0]),
        (&[0.0, 1.0], &[1.0]),
        (&[1.0, 0.0], &[1.0]),
        (&[1.0, 1.0], &[0.0]),
    ];
    let mut net = FatNet::new(2, (1, 2), 1).unwrap();

    for (input, _) in &table {
        feedforward(&mut net, input).unwrap();
        let out = outputs(&net);
        assert_eq!(out.len(), 1);
        assert!(out[0].is_finite());
        assert!(out[0] > 0.0 && out[0] < 1.0);
    }

    for _ in 0..1000 {
        for (input, target) in &table {
            feedforward(&mut net, input).unwrap();
            backprop(&mut net, target).unwrap();
            update_weights(&mut net, 0.01).unwrap();
        }
    }

    for (input, _) in &table {
        feedforward(&mut net, input).unwrap();
        let out = outputs(&net);
        assert_eq!(out.len(), 1);
        assert!(out[0].is_finite());
        assert!(out[0] > 0.0 && out[0] < 1.0);
    }
}

#[test]
fn forward_tasks_carry_operands() {
    let mut net = FatNet::new(2, (1, 3), 1).unwrap();
    net.set_input(&to_bits(&[0.25, 0.5])).unwrap();
    let tasks = net.forward_tasks(0);
    assert_eq!(tasks.len(), 3);
    let one = 1.0f32.to_bits();
    for task in &tasks {
        assert_eq!(task.bias, 0);
        assert_eq!(task.terms.len(), 2);
        assert_eq!(task.terms[0].activation, 0.25f32.to_bits());
        assert_eq!(task.terms[1].activation, 0.5f32.to_bits());
        assert_eq!(task.terms[0].weight, one);
        assert_eq!(task.terms[1].weight, one);
    }
}

#[test]
fn layer_get_is_bounds_checked() {
    let layer = Layer::new(2);
    assert!(layer.get(0).is_some());
    assert!(layer.get(1).is_some());
    assert!(layer.get(2).is_none());
    assert_eq!(layer.get(0).unwrap().activation, 0);
}

#[test]
fn default_network_topology() {
    let net = FatNet::default();
    assert_eq!(net.input_layer().len(), 4);
    assert_eq!(net.depth(), 2);
    assert_eq!(net.output_layer().len(), 1);
}

#[test]
fn matrix_shape_is_recorded() {
    let _m = Matrix::new((2, 3));
    let _d = Matrix::default();
}

// Every activation a forward pass writes is a sigmoid value: strictly
// inside (0, 1) for inputs of moderate size.
#[test]
fn forward_activations_stay_in_range() {
    let mut net = FatNet::new(2, (2, 3), 2).unwrap();
    for input in [[-10.0, 10.0], [3.5, -0.25], [0.0, 0.0]] {
        feedforward(&mut net, &input).unwrap();
        for k in 0..net.depth() {
            for node in &net.hidden_layer(k).unwrap().nodes {
                let a = f32::from_bits(node.activation);
                assert!(a.is_finite() && a > 0.0 && a < 1.0);
            }
        }
        for node in &net.output_layer().nodes {
            let a = f32::from_bits(node.activation);
            assert!(a.is_finite() && a > 0.0 && a < 1.0);
        }
    }
}

#[test]
fn stage_activation_length_checked() {
    let mut net = FatNet::new(2, (1, 2), 1).unwrap();
    net.set_input(&to_bits(&[0.5, 0.5])).unwrap();
    let too_short: Vec<u32> = vec![0];
    assert!(matches!(
        net.apply_stage(0, &too_short),
        Err(NetError::InputSizeMismatch)
    ));
    let exact: Vec<u32> = vec![0, 0];
    assert!(net.apply_stage(0, &exact).is_ok());
}

#[test]
fn hidden_error_length_checked() {
    let mut net = FatNet::new(2, (2, 2), 1).unwrap();
    assert!(matches!(
        net.apply_hidden_errors(0, &vec![0, 0, 0]),
        Err(NetError::InputSizeMismatch)
    ));
    assert!(net.apply_hidden_errors(0, &vec![0, 0]).is_ok());
}
