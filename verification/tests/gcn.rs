use candle_core::{Device, Tensor};
use candle_gnn::nn::gcn::{symmetric_norm, Gcn, GcnConv, GcnParams};
use candle_gnn::nn::{EdgeIndex, GnnError, GnnModule};
use candle_nn::{Activation, Dropout};

fn ring() -> EdgeIndex {
    EdgeIndex::new(vec![0, 1, 2, 3, 1, 2, 3, 0], vec![1, 2, 3, 0, 0, 1, 2, 3]).unwrap()
}

fn ring_features() -> Tensor {
    Tensor::new(&[[1f32, 0.], [0., 1.], [1., 1.], [0., 0.]], &Device::Cpu).unwrap()
}

fn known_conv() -> GcnConv {
    let weight = Tensor::new(&[[1f32, 2.], [3., 4.]], &Device::Cpu).unwrap();
    let bias = Tensor::new(&[[0.5f32, -0.5]], &Device::Cpu).unwrap();
    GcnConv::new(2, 2, weight, bias).unwrap()
}

fn params() -> GcnParams {
    GcnParams { dropout: Dropout::new(0.0), activation_fn: Activation::Relu }
}

fn rows(t: &Tensor) -> Vec<Vec<f32>> {
    t.to_vec2::<f32>().unwrap()
}

fn close(a: &[Vec<f32>], b: &[Vec<f32>]) -> bool {
    a.len() == b.len()
        && a.iter().zip(b).all(|(x, y)| x.len() == y.len() && x.iter().zip(y).all(|(p, q)| (p - q).abs() < 1e-5))
}

#[test]
fn ring_graph_matches_hand_computed_convolution() {
    let out = known_conv().forward(&ring_features(), &ring()).unwrap();
    assert_eq!(
        rows(&out),
        vec![vec![3.0, 3.5], vec![6.0, 7.5], vec![6.0, 7.5], vec![3.0, 3.5]]
    );
}

#[test]
fn ring_edge_weights_are_one_half() {
    let w = symmetric_norm(&ring(), 4, &ring_features()).unwrap();
    assert_eq!(w.dims(), &[8, 1]);
    assert_eq!(rows(&w), vec![vec![0.5f32]; 8]);
}

#[test]
fn edge_weights_use_floored_degrees() {
    // 0 -> 1 three times: out-degree of 0 is 3, in-degree of 1 is 3
    let g = EdgeIndex::new(vec![0, 0, 0], vec![1, 1, 1]).unwrap();
    let like = Tensor::new(&[[0f32], [0.]], &Device::Cpu).unwrap();
    let w = symmetric_norm(&g, 2, &like).unwrap();
    for row in rows(&w) {
        assert!((row[0] - 1. / 3.).abs() < 1e-6);
    }
    assert!(matches!(
        symmetric_norm(&g, 1, &like),
        Err(GnnError::NodeIndexOutOfRange { num_nodes: 1 })
    ));
}

#[test]
fn isolated_node_keeps_its_transformed_row_plus_bias() {
    // node 2 and node 3 have no edges at all
    let edges = EdgeIndex::new(vec![0, 1], vec![1, 0]).unwrap();
    let out = known_conv().forward_t(&ring_features(), &edges, true).unwrap();
    let got = rows(&out);
    assert!(got.iter().flatten().all(|v| v.is_finite()));
    assert_eq!(got[2], vec![4.5, 5.5]);
    assert_eq!(got[3], vec![0.5, -0.5]);
    // both connected nodes have degree 1, so the edge weight is 1
    assert_eq!(got[0], vec![1. + 3. + 0.5, 2. + 4. - 0.5]);
}

#[test]
fn gcn_graph_without_edges_is_a_linear_layer() {
    let edges = EdgeIndex::new(vec![], vec![]).unwrap();
    let out = known_conv().forward(&ring_features(), &edges).unwrap();
    assert_eq!(
        rows(&out),
        vec![vec![1.5, 1.5], vec![3.5, 3.5], vec![4.5, 5.5], vec![0.5, -0.5]]
    );
}

#[test]
fn convolution_commutes_with_relabelling_the_nodes() {
    let xs = Tensor::new(&[[1f32, 0.5], [0.25, 1.], [2., -1.], [0., 3.]], &Device::Cpu).unwrap();
    let edges = EdgeIndex::new(vec![0, 0, 1, 3, 3], vec![1, 2, 2, 0, 0]).unwrap();
    let out = rows(&known_conv().forward(&xs, &edges).unwrap());
    // node n becomes node p[n]
    let p = [2usize, 0, 3, 1];
    let rows_before = rows(&xs);
    let mut moved = vec![vec![]; 4];
    for n in 0..4 {
        moved[p[n]] = rows_before[n].clone();
    }
    let xs_moved = Tensor::new(moved, &Device::Cpu).unwrap();
    let edges_moved = EdgeIndex::new(
        edges.source_row().iter().map(|n| p[*n as usize] as u32).collect(),
        edges.target_row().iter().map(|n| p[*n as usize] as u32).collect(),
    )
    .unwrap();
    let out_moved = rows(&known_conv().forward(&xs_moved, &edges_moved).unwrap());
    for n in 0..4 {
        assert!(close(&[out_moved[p[n]].clone()], &[out[n].clone()]));
    }
}

#[test]
fn gcn_constructor_checks_the_extents_of_the_parameters() {
    let weight = Tensor::new(&[[1f32, 2.], [3., 4.]], &Device::Cpu).unwrap();
    let bias = Tensor::new(&[[0.5f32, -0.5]], &Device::Cpu).unwrap();
    match GcnConv::new(3, 2, weight.clone(), bias.clone()) {
        Err(GnnError::ShapeMismatch { expected_dims, found_dims }) => {
            assert_eq!(expected_dims, vec![3, 2]);
            assert_eq!(found_dims, vec![2, 2]);
        }
        _ => panic!("weight of the wrong extents was accepted"),
    }
    let flat_bias = Tensor::new(&[0.5f32, -0.5], &Device::Cpu).unwrap();
    match GcnConv::new(2, 2, weight.clone(), flat_bias) {
        Err(GnnError::ShapeMismatch { expected_dims, found_dims }) => {
            assert_eq!(expected_dims, vec![1, 2]);
            assert_eq!(found_dims, vec![2]);
        }
        _ => panic!("bias of the wrong extents was accepted"),
    }
    let conv = GcnConv::new(2, 2, weight, bias).unwrap();
    assert_eq!(conv.in_dim(), 2);
    assert_eq!(conv.out_dim(), 2);
    let p = conv.parameters();
    assert_eq!(p.len(), 2);
    assert_eq!(p[0].dims(), &[2, 2]);
    assert_eq!(p[1].dims(), &[1, 2]);
}

#[test]
fn gcn_forward_refuses_features_of_the_wrong_shape() {
    let conv = known_conv();
    let edges = ring();
    let wide = Tensor::new(&[[1f32, 0., 0.], [0., 1., 0.], [1., 1., 0.], [0., 0., 0.]], &Device::Cpu).unwrap();
    assert!(matches!(
        conv.forward(&wide, &edges),
        Err(GnnError::FeatureDim { expected: 2, found: 3 })
    ));
    let flat = Tensor::new(&[1f32, 0.], &Device::Cpu).unwrap();
    assert!(matches!(
        conv.forward(&flat, &edges),
        Err(GnnError::Rank { expected: 2, found: 1 })
    ));
    let few = Tensor::new(&[[1f32, 0.], [0., 1.]], &Device::Cpu).unwrap();
    assert!(matches!(
        conv.forward(&few, &edges),
        Err(GnnError::NodeIndexOutOfRange { num_nodes: 2 })
    ));
}

#[test]
fn forward_refuses_integer_features() {
    let xs = Tensor::new(&[[1u32, 0], [0, 1], [1, 1], [0, 0]], &Device::Cpu).unwrap();
    assert!(matches!(known_conv().forward(&xs, &ring()), Err(GnnError::NotFloatingPoint)));
    assert!(matches!(symmetric_norm(&ring(), 4, &xs), Err(GnnError::NotFloatingPoint)));
}

#[test]
fn forward_reports_a_runtime_failure_as_backend() {
    // features in double precision cannot be multiplied with a single-precision weight
    let xs = Tensor::new(&[[1f64, 0.], [0., 1.], [1., 1.], [0., 0.]], &Device::Cpu).unwrap();
    assert!(matches!(known_conv().forward(&xs, &ring()), Err(GnnError::Backend(_))));
}

#[test]
fn gcn_stack_applies_activation_between_layers() {
    let first = known_conv();
    let second = GcnConv::new(
        2,
        1,
        Tensor::new(&[[1f32], [-1.]], &Device::Cpu).unwrap(),
        Tensor::new(&[[0f32]], &Device::Cpu).unwrap(),
    )
    .unwrap();
    let model = Gcn::with_params(vec![first, second], params()).unwrap();
    assert_eq!(model.num_layers(), 2);
    assert_eq!(model.parameters().len(), 4);
    let edges = EdgeIndex::new(vec![], vec![]).unwrap();
    // a weight that makes the first layer's output negative in one column
    let xs = Tensor::new(&[[1f32, 0.], [0., -1.]], &Device::Cpu).unwrap();
    let out = model.forward_t(&xs, &edges, false).unwrap();
    // layer 1: [1.5, 1.5] and [-2.5, -4.5]; relu: [1.5, 1.5] and [0, 0]
    // layer 2: 1.5 - 1.5 = 0 and 0
    assert_eq!(rows(&out), vec![vec![0.], vec![0.]]);
    let xs = Tensor::new(&[[1f32, 0.], [-1., 0.]], &Device::Cpu).unwrap();
    let out = model.forward(&xs, &edges).unwrap();
    // layer 1: [1.5, 1.5] and [-0.5, -2.5]; relu keeps the first row only
    assert_eq!(rows(&out), vec![vec![0.], vec![0.]]);
    let xs = Tensor::new(&[[0f32, 1.], [0., 0.]], &Device::Cpu).unwrap();
    let out = model.forward(&xs, &edges).unwrap();
    // layer 1: [3.5, 3.5] and [0.5, -0.5]; relu: [3.5, 3.5] and [0.5, 0]; layer 2: 0 and 0.5
    assert_eq!(rows(&out), vec![vec![0.], vec![0.5]]);
}

#[test]
fn single_layer_stack_returns_raw_output() {
    let model = Gcn::with_params(vec![known_conv()], params()).unwrap();
    let out = model.forward(&ring_features(), &ring()).unwrap();
    assert_eq!(
        rows(&out),
        vec![vec![3.0, 3.5], vec![6.0, 7.5], vec![6.0, 7.5], vec![3.0, 3.5]]
    );
}

#[test]
fn gcn_empty_stack_is_refused() {
    assert!(matches!(Gcn::with_params(vec![], params()), Err(GnnError::NoLayers)));
}

#[test]
fn gcn_stack_reports_a_width_that_a_later_layer_does_not_take() {
    let first = known_conv();
    let second = GcnConv::new(
        3,
        1,
        Tensor::new(&[[1f32], [-1.], [0.]], &Device::Cpu).unwrap(),
        Tensor::new(&[[0f32]], &Device::Cpu).unwrap(),
    )
    .unwrap();
    let model = Gcn::with_params(vec![first, second], params()).unwrap();
    assert!(matches!(
        model.forward(&ring_features(), &ring()),
        Err(GnnError::FeatureDim { expected: 3, found: 2 })
    ));
}

#[test]
fn training_mode_with_zero_dropout_equals_inference() {
    let build = || {
        let second = GcnConv::new(
            2,
            2,
            Tensor::new(&[[1f32, 0.], [0., 1.]], &Device::Cpu).unwrap(),
            Tensor::new(&[[0f32, 0.]], &Device::Cpu).unwrap(),
        )
        .unwrap();
        Gcn::with_params(vec![known_conv(), second], params()).unwrap()
    };
    let a = build().forward_t(&ring_features(), &ring(), true).unwrap();
    let b = build().forward_t(&ring_features(), &ring(), false).unwrap();
    assert!(close(&rows(&a), &rows(&b)));
}

#[test]
fn graph_without_nodes_gives_an_empty_result() {
    let xs = Tensor::zeros((0, 2), candle_core::DType::F32, &Device::Cpu).unwrap();
    let edges = EdgeIndex::new(vec![], vec![]).unwrap();
    let out = known_conv().forward(&xs, &edges).unwrap();
    assert_eq!(out.dims(), &[0, 2]);
}

#[test]
fn layer_of_width_zero_runs() {
    let weight = Tensor::zeros((0, 3), candle_core::DType::F32, &Device::Cpu).unwrap();
    let bias = Tensor::zeros((1, 3), candle_core::DType::F32, &Device::Cpu).unwrap();
    let conv = GcnConv::new(0, 3, weight, bias).unwrap();
    let xs = Tensor::zeros((2, 0), candle_core::DType::F32, &Device::Cpu).unwrap();
    let edges = EdgeIndex::new(vec![0], vec![1]).unwrap();
    let r = conv.forward(&xs, &edges);
    match r {
        Ok(out) => assert_eq!(out.dims(), &[2, 3]),
        Err(e) => assert!(matches!(e, GnnError::Backend(_))),
    }
}

#[test]
fn training_dropout_zeroes_or_rescales() {
    let identity = GcnConv::new(
        2,
        2,
        Tensor::new(&[[1f32, 0.], [0., 1.]], &Device::Cpu).unwrap(),
        Tensor::new(&[[0f32, 0.]], &Device::Cpu).unwrap(),
    )
    .unwrap();
    let params = GcnParams { dropout: Dropout::new(0.5), activation_fn: Activation::Relu };
    let model = Gcn::with_params(vec![known_conv(), identity], params).unwrap();
    let edges = EdgeIndex::new(vec![], vec![]).unwrap();
    let xs = ring_features();
    // without edges the first layer gives [1.5, 1.5], [3.5, 3.5], [4.5, 5.5], [0.5, -0.5]
    let plain = [[1.5f32, 1.5], [3.5, 3.5], [4.5, 5.5], [0.5, 0.]];
    let out = rows(&model.forward_t(&xs, &edges, true).unwrap());
    for n in 0..4 {
        for c in 0..2 {
            let v = out[n][c];
            assert!(v == 0. || (v - 2. * plain[n][c]).abs() < 1e-5, "{}", v);
        }
    }
    let eval = rows(&model.forward_t(&xs, &edges, false).unwrap());
    for n in 0..4 {
        for c in 0..2 {
            assert!((eval[n][c] - plain[n][c]).abs() < 1e-6);
        }
    }
}

#[test]
fn gated_activation_refuses_rows_it_cannot_halve() {
    let narrow = GcnConv::new(
        2,
        1,
        Tensor::new(&[[1f32], [1.]], &Device::Cpu).unwrap(),
        Tensor::new(&[[0f32]], &Device::Cpu).unwrap(),
    )
    .unwrap();
    let next = GcnConv::new(
        1,
        1,
        Tensor::new(&[[1f32]], &Device::Cpu).unwrap(),
        Tensor::new(&[[0f32]], &Device::Cpu).unwrap(),
    )
    .unwrap();
    let params = GcnParams { dropout: Dropout::new(0.0), activation_fn: Activation::Swiglu };
    let model = Gcn::with_params(vec![narrow, next], params).unwrap();
    let edges = EdgeIndex::new(vec![], vec![]).unwrap();
    assert!(matches!(
        model.forward(&ring_features(), &edges),
        Err(GnnError::FeatureDim { expected: 2, found: 1 })
    ));
}

#[test]
fn gated_activation_halves_the_rows() {
    let next = GcnConv::new(
        1,
        1,
        Tensor::new(&[[1f32]], &Device::Cpu).unwrap(),
        Tensor::new(&[[0f32]], &Device::Cpu).unwrap(),
    )
    .unwrap();
    let params = GcnParams { dropout: Dropout::new(0.0), activation_fn: Activation::Swiglu };
    let model = Gcn::with_params(vec![known_conv(), next], params).unwrap();
    let edges = EdgeIndex::new(vec![], vec![]).unwrap();
    let out = model.forward(&ring_features(), &edges).unwrap();
    assert_eq!(out.dims(), &[4, 1]);
    // first row of the first layer is [1.5, 1.5]: silu(1.5) * 1.5
    let expected = 1.5f32 / (1. + (-1.5f32).exp()) * 1.5;
    assert!((rows(&out)[0][0] - expected).abs() < 1e-5);
}

#[test]
fn gcn_stack_can_be_built_from_its_parts() {
    let model = Gcn::new(vec![known_conv()], Dropout::new(0.0), Activation::Relu).unwrap();
    assert_eq!(model.num_layers(), 1);
    assert!(matches!(
        Gcn::new(vec![], Dropout::new(0.0), Activation::Relu),
        Err(GnnError::NoLayers)
    ));
}

#[test]
fn ring_graph_with_alternating_features() {
    let xs = Tensor::new(&[[1f32, 0.], [0., 1.], [1., 0.], [0., 1.]], &Device::Cpu).unwrap();
    let out = known_conv().forward_t(&xs, &ring(), false).unwrap();
    assert_eq!(rows(&out), vec![vec![4.5, 5.5]; 4]);
}

#[test]
fn star_graph_matches_hand_computed_convolution() {
    let conv = GcnConv::new(
        1,
        1,
        Tensor::new(&[[1f32]], &Device::Cpu).unwrap(),
        Tensor::new(&[[0f32]], &Device::Cpu).unwrap(),
    )
    .unwrap();
    let xs = Tensor::new(&[[1f32], [2.], [4.], [6.], [8.]], &Device::Cpu).unwrap();
    let edges = EdgeIndex::new(vec![0, 0, 0, 0, 1, 2, 3, 4], vec![1, 2, 3, 4, 0, 0, 0, 0]).unwrap();
    let out = conv.forward(&xs, &edges).unwrap();
    assert_eq!(rows(&out), vec![vec![11.], vec![2.5], vec![4.5], vec![6.5], vec![8.5]]);
}

#[test]
fn directed_edge_feeds_its_source_from_its_target() {
    let conv = GcnConv::new(
        1,
        1,
        Tensor::new(&[[1f32]], &Device::Cpu).unwrap(),
        Tensor::new(&[[0f32]], &Device::Cpu).unwrap(),
    )
    .unwrap();
    let xs = Tensor::new(&[[1f32], [2.]], &Device::Cpu).unwrap();
    // one edge 0 -> 1: both degrees are 1, the weight is 1
    let edges = EdgeIndex::new(vec![0], vec![1]).unwrap();
    let out = conv.forward(&xs, &edges).unwrap();
    assert_eq!(rows(&out), vec![vec![3.], vec![2.]]);
}

#[test]
fn stack_output_is_the_raw_output_of_the_last_layer() {
    let negative = GcnConv::new(
        2,
        1,
        Tensor::new(&[[-1f32], [-1.]], &Device::Cpu).unwrap(),
        Tensor::new(&[[0f32]], &Device::Cpu).unwrap(),
    )
    .unwrap();
    let model = Gcn::with_params(vec![known_conv(), negative], params()).unwrap();
    let edges = EdgeIndex::new(vec![], vec![]).unwrap();
    let out = model.forward(&ring_features(), &edges).unwrap();
    // layer 1 without edges: [1.5, 1.5], ...; the last layer's negative sums are not cut off
    assert_eq!(rows(&out)[0], vec![-3.]);
}
